use vstd::prelude::*;
use crate::ops::{Ops, Register, op_of, register_of_char, register_bits};
use crate::parser::{Expression, ExpressionType, RootNode, Statement, StatementType};
use crate::program::{Instruction, Program};
use crate::text::{lower_of, lowercase, push_char, push_str, error_at};
use crate::vm::wrap;

verus! {

/// A label of the table, as the contracts see it: its name with the colon,
/// its address, and the index of the statement holding its body, if any.
pub struct LabelEntry {
    pub name: Seq<char>,
    pub addr: u8,
    pub body: Option<int>,
}

/// A label of the table.
pub struct LabelInfo {
    pub label: String,
    pub addr: u8,
    pub body: Option<usize>,
}

impl LabelInfo {
    pub open spec fn entry(&self) -> LabelEntry {
        LabelEntry {
            name: self.label@,
            addr: self.addr,
            body: match self.body {
                Some(i) => Some(i as int),
                None => None,
            },
        }
    }
}

pub open spec fn entries(table: Seq<LabelInfo>) -> Seq<LabelEntry> {
    table.map_values(|l: LabelInfo| l.entry())
}

/// Whether two label names are the same: exactly in strict mode, else after
/// lower-casing both.
pub open spec fn same_label(strict: bool, a: Seq<char>, b: Seq<char>) -> bool {
    if strict {
        a == b
    } else {
        lower_of(a) == lower_of(b)
    }
}

/// The index of the first entry among the first `n` whose name is `name`.
pub open spec fn find_in(strict: bool, table: Seq<LabelEntry>, name: Seq<char>, n: int) -> Option<int>
    decreases n,
{
    if n <= 0 {
        None
    } else {
        match find_in(strict, table, name, n - 1) {
            Some(i) => Some(i),
            None => if same_label(strict, table[n - 1].name, name) {
                Some(n - 1)
            } else {
                None
            },
        }
    }
}

pub open spec fn find_label(strict: bool, table: Seq<LabelEntry>, name: Seq<char>) -> Option<int> {
    find_in(strict, table, name, table.len() as int)
}

/// The label entries of the statements before `n`, in order.
pub open spec fn label_entries(stmts: Seq<Statement>, n: int) -> Seq<LabelEntry>
    decreases n,
{
    if n <= 0 {
        Seq::empty()
    } else {
        let prev = label_entries(stmts, n - 1);
        let s = stmts[n - 1];
        if s.statement_type == StatementType::Label {
            prev.push(LabelEntry {
                name: s.value@,
                addr: s.byte_addr,
                body: if s.expressions@.len() > 0 { Some(n - 1) } else { None },
            })
        } else {
            prev
        }
    }
}

/// Whether no two entries name the same label.
pub open spec fn labels_distinct(strict: bool, table: Seq<LabelEntry>) -> bool {
    forall|i: int, j: int|
        0 <= i < j < table.len() ==> !same_label(strict, #[trigger] table[i].name, #[trigger] table[j].name)
}

proof fn lemma_find_in_bounds(strict: bool, table: Seq<LabelEntry>, name: Seq<char>, n: int)
    requires
        n <= table.len(),
    ensures
        find_in(strict, table, name, n) matches Some(i) ==> 0 <= i < n && same_label(strict, table[i].name, name),
        find_in(strict, table, name, n) is None <==> forall|k: int| 0 <= k < n ==> !same_label(strict, #[trigger] table[k].name, name),
    decreases n,
{
    if n > 0 {
        lemma_find_in_bounds(strict, table, name, n - 1);
    }
}

proof fn lemma_find_in_stable(strict: bool, table: Seq<LabelEntry>, name: Seq<char>, m: int, n: int)
    requires
        m <= n,
        find_in(strict, table, name, m) is Some,
    ensures
        find_in(strict, table, name, n) == find_in(strict, table, name, m),
    decreases n - m,
{
    if m < n {
        lemma_find_in_stable(strict, table, name, m, n - 1);
    }
}

/// The index of the label named `label`, if any.
fn get_label(strict: bool, label: &str, labels: &Vec<LabelInfo>) -> (r: Option<usize>)
    ensures
        r matches Some(i) ==> i < labels@.len(),
        (match r { Some(i) => Some(i as int), None => None }) == find_label(strict, entries(labels@), label@),
{
    let ghost table = entries(labels@);
    let query = lowercase(label);
    let mut k: usize = 0;
    while k < labels.len()
        invariant
            k <= labels@.len(),
            table == entries(labels@),
            query@ == lower_of(label@),
            find_in(strict, table, label@, k as int) is None,
        decreases labels@.len() - k,
    {
        let found = if strict {
            crate::text::str_eq(labels[k].label.as_str(), label)
        } else {
            lowercase(labels[k].label.as_str()) == query
        };
        assert(table[k as int].name == labels@[k as int].label@);
        if found {
            proof {
                assert(find_in(strict, table, label@, k + 1) == Some(k as int));
                lemma_find_in_stable(strict, table, label@, k + 1, table.len() as int);
            }
            return Some(k);
        }
        k = k + 1;
    }
    None
}

/// Value of a run of decimal digits.
pub open spec fn digits_value(s: Seq<char>) -> nat
    decreases s.len(),
{
    if s.len() == 0 {
        0
    } else {
        digits_value(s.drop_last()) * 10 + ((s.last() as nat) - ('0' as nat)) as nat
    }
}

/// Whether every character is a decimal digit `0`..`9`.
pub open spec fn all_digits(s: Seq<char>) -> bool {
    forall|i: int| 0 <= i < s.len() ==> '0' <= #[trigger] s[i] <= '9'
}

/// The 8-bit value of a literal: decimal digits up to 255, optionally after a
/// minus sign, in which case the value wraps modulo 256.
pub open spec fn number_value(s: Seq<char>) -> Option<u8> {
    if s.len() > 0 && s[0] == '-' {
        let m = s.drop_first();
        if m.len() > 0 && all_digits(m) && digits_value(m) <= 255 {
            Some(wrap(-(digits_value(m) as int)))
        } else {
            None
        }
    } else if s.len() > 0 && all_digits(s) && digits_value(s) <= 255 {
        Some(digits_value(s) as u8)
    } else {
        None
    }
}

proof fn lemma_digits_value_grows(s: Seq<char>, i: int)
    requires
        0 <= i <= s.len(),
        all_digits(s),
    ensures
        digits_value(s.subrange(0, i)) <= digits_value(s),
    decreases s.len() - i,
{
    if i < s.len() {
        lemma_digits_value_grows(s, i + 1);
        let p = s.subrange(0, i + 1);
        assert(p.drop_last() =~= s.subrange(0, i));
    } else {
        assert(s.subrange(0, i) =~= s);
    }
}

/// The value of the digits `s[from..]`, or `None` when a character is not a
/// digit, there are none, or the value exceeds 255.
fn parse_magnitude(s: &Vec<char>, from: usize) -> (r: Option<u8>)
    requires
        from <= s@.len(),
    ensures
        ({
            let m = s@.subrange(from as int, s@.len() as int);
            r == if m.len() > 0 && all_digits(m) && digits_value(m) <= 255 {
                Some(digits_value(m) as u8)
            } else {
                None
            }
        }),
{
    let ghost m = s@.subrange(from as int, s@.len() as int);
    if from == s.len() {
        return None;
    }
    let mut acc: u16 = 0;
    let mut i: usize = from;
    while i < s.len()
        invariant
            from <= i <= s@.len(),
            m == s@.subrange(from as int, s@.len() as int),
            all_digits(s@.subrange(from as int, i as int)),
            acc as nat == digits_value(s@.subrange(from as int, i as int)),
            acc <= 255,
        decreases s@.len() - i,
    {
        let c = s[i];
        let ghost p = s@.subrange(from as int, i + 1);
        assert(p.drop_last() =~= s@.subrange(from as int, i as int));
        if !('0' <= c && c <= '9') {
            assert(m[i - from] == c);
            return None;
        }
        acc = acc * 10 + (c as u16 - 48);
        if acc > 255 {
            proof {
                if all_digits(m) {
                    assert(m.subrange(0, i + 1 - from) =~= p);
                    lemma_digits_value_grows(m, i + 1 - from);
                }
            }
            return None;
        }
        i = i + 1;
    }
    assert(s@.subrange(from as int, i as int) =~= m);
    Some(acc as u8)
}

/// The value of a numeric literal.
fn parse_number(text: &str) -> (r: Option<u8>)
    ensures
        r == number_value(text@),
{
    let s = crate::text::chars_of(text);
    if s.len() > 0 && s[0] == '-' {
        assert(s@.subrange(1, s@.len() as int) =~= text@.drop_first());
        match parse_magnitude(&s, 1) {
            Some(m) => Some(if m == 0 { 0 } else { (256 - m as u16) as u8 }),
            None => None,
        }
    } else {
        assert(s@.subrange(0, s@.len() as int) =~= text@);
        parse_magnitude(&s, 0)
    }
}

/// `acc + v` for a `+` equation, `acc - v` for any other, modulo 256.
pub open spec fn combine(plus: bool, acc: u8, v: u8) -> u8 {
    if plus { wrap(acc + v) } else { wrap(acc - v) }
}

/// The value of an expression of a statement at address `addr`, folding the
/// first `k` children for an equation (the first child is the accumulator).
/// A label's body is evaluated where the label is referenced, so a `.` in it
/// is the address of the referencing statement. Label bodies are
/// followed at most `fuel` times, so a cycle of labels has no value.
pub open spec fn eval_node(
    strict: bool,
    stmts: Seq<Statement>,
    table: Seq<LabelEntry>,
    addr: u8,
    e: Expression,
    k: nat,
    fuel: nat,
) -> Option<u8>
    decreases fuel, e, k,
{
    match e.expression_type {
        ExpressionType::Equation => {
            if k == 0 {
                Some(0)
            } else if k > e.expressions@.len() {
                None
            } else {
                let child = e.expressions@[k - 1];
                match eval_node(strict, stmts, table, addr, child, child.expressions@.len(), fuel) {
                    None => None,
                    Some(v) => if k == 1 {
                        Some(v)
                    } else {
                        match eval_node(strict, stmts, table, addr, e, (k - 1) as nat, fuel) {
                            None => None,
                            Some(acc) => Some(combine(e.value@ == "+"@, acc, v)),
                        }
                    },
                }
            }
        },
        ExpressionType::Dot => Some(addr),
        ExpressionType::Register => {
            if e.value@.len() > 0 && register_of_char(e.value@[0]) is Some {
                Some(register_bits(register_of_char(e.value@[0])->0))
            } else {
                None
            }
        },
        ExpressionType::Value => number_value(e.value@),
        ExpressionType::LabelPtr => {
            match find_label(strict, table, e.value@.push(':')) {
                None => None,
                Some(i) => match table[i].body {
                    None => Some(table[i].addr),
                    Some(si) => if fuel == 0 || !(0 <= si < stmts.len()) || stmts[si].expressions@.len() == 0 {
                        None
                    } else {
                        let b = stmts[si].expressions@[0];
                        eval_node(strict, stmts, table, addr, b, b.expressions@.len(), (fuel - 1) as nat)
                    },
                },
            }
        },
    }
}

/// The value of an expression.
pub open spec fn eval(strict: bool, stmts: Seq<Statement>, table: Seq<LabelEntry>, addr: u8, e: Expression, fuel: nat) -> Option<u8> {
    eval_node(strict, stmts, table, addr, e, e.expressions@.len(), fuel)
}

proof fn lemma_prefix_none(
    strict: bool,
    stmts: Seq<Statement>,
    table: Seq<LabelEntry>,
    addr: u8,
    e: Expression,
    i: nat,
    k: nat,
    fuel: nat,
)
    requires
        e.expression_type == ExpressionType::Equation,
        i <= k <= e.expressions@.len(),
        eval_node(strict, stmts, table, addr, e, i, fuel) is None,
    ensures
        eval_node(strict, stmts, table, addr, e, k, fuel) is None,
    decreases k - i,
{
    if i < k {
        lemma_prefix_none(strict, stmts, table, addr, e, i, (k - 1) as nat, fuel);
    }
}

fn combine_exec(plus: bool, acc: u8, v: u8) -> (r: u8)
    ensures
        r == combine(plus, acc, v),
{
    if plus {
        ((acc as u16 + v as u16) % 256) as u8
    } else if acc >= v {
        acc - v
    } else {
        (256u16 - (v - acc) as u16) as u8
    }
}

/// Evaluate an expression to an 8-bit value; `.` is `byte_addr`, the address
/// of the statement being encoded, also inside the bodies of labels it references.
pub fn evaluate_expression(
    strict: bool,
    byte_addr: u8,
    expression: &Expression,
    labels: &Vec<LabelInfo>,
    stmts: &Vec<Statement>,
    fuel: usize,
) -> (r: Result<u8, String>)
    ensures
        r is Ok <==> eval(strict, stmts@, entries(labels@), byte_addr, *expression, fuel as nat) is Some,
        r matches Ok(v) ==> eval(strict, stmts@, entries(labels@), byte_addr, *expression, fuel as nat) == Some(v),
    decreases fuel, expression,
{
    let ghost table = entries(labels@);
    match expression.expression_type {
        ExpressionType::Equation => {
            let plus = crate::text::str_eq(expression.value.as_str(), "+");
            let n = expression.expressions.len();
            let mut acc: u8 = 0;
            let mut i: usize = 0;
            while i < n
                invariant
                    n == expression.expressions@.len(),
                    i <= n,
                    expression.expression_type == ExpressionType::Equation,
                    table == entries(labels@),
                    plus == (expression.value@ == "+"@),
                    eval_node(strict, stmts@, table, byte_addr, *expression, i as nat, fuel as nat) == Some(acc),
                decreases n - i,
            {
                let child = &expression.expressions[i];
                let rv = evaluate_expression(strict, byte_addr, child, labels, stmts, fuel);
                match rv {
                    Ok(v) => {
                        acc = if i == 0 { v } else { combine_exec(plus, acc, v) };
                    },
                    Err(m) => {
                        proof {
                            lemma_prefix_none(strict, stmts@, table, byte_addr, *expression, (i + 1) as nat, n as nat, fuel as nat);
                        }
                        return Err(m);
                    },
                }
                i = i + 1;
            }
            Ok(acc)
        },
        ExpressionType::Dot => Ok(byte_addr),
        ExpressionType::Register => {
            let text = expression.value.as_str();
            if text.unicode_len() > 0 {
                match Register::from_char(text.get_char(0)) {
                    Some(reg) => {
                        return Ok(reg.bits());
                    },
                    None => {},
                }
            }
            Err(error_at("Invalid register", expression.line, expression.col))
        },
        ExpressionType::Value => {
            match parse_number(expression.value.as_str()) {
                Some(v) => Ok(v),
                None => Err(error_at("Unable to convert literal to an 8-bit value", expression.line, expression.col)),
            }
        },
        ExpressionType::LabelPtr => {
            let mut query = expression.value.clone();
            push_char(&mut query, ':');
            match get_label(strict, query.as_str(), labels) {
                None => {
                    let mut m = String::from_str("Label [");
                    push_str(&mut m, expression.value.as_str());
                    push_str(&mut m, "] not found");
                    let full = error_at(m.as_str(), expression.line, expression.col);
                    Err(full)
                },
                Some(k) => {
                    let info = &labels[k];
                    assert(table[k as int] == info.entry());
                    match info.body {
                        None => Ok(info.addr),
                        Some(si) => {
                            if fuel == 0 || si >= stmts.len() || stmts[si].expressions.len() == 0 {
                                let mut m = String::from_str("Label [");
                                push_str(&mut m, expression.value.as_str());
                                push_str(&mut m, "] refers back to itself");
                                return Err(error_at(m.as_str(), expression.line, expression.col));
                            }
                            let body = &stmts[si].expressions[0];
                            evaluate_expression(strict, byte_addr, body, labels, stmts, fuel - 1)
                        },
                    }
                },
            }
        },
    }
}

/// A register operand in bits 2 and 3 (the value shifted left by two, within a byte).
pub open spec fn shl2(v: u8) -> u8 {
    ((v as int * 4) % 256) as u8
}

/// The bytes an operation encodes to, given its operand values.
pub open spec fn encode(op: Ops, v: Seq<u8>) -> Seq<u8> {
    match op {
        Ops::NoOp => seq![0x00u8],
        Ops::Halt => seq![0x01u8],
        Ops::Byte => seq![v[0]],
        Ops::Jumpi => seq![0x40u8, v[0]],
        Ops::JumpLessi => seq![0x41u8, v[0]],
        Ops::JumpOverflowi => seq![0x42u8, v[0]],
        Ops::JumpSigni => seq![0x43u8, v[0]],
        Ops::JumpCarryi => seq![0x44u8, v[0]],
        Ops::JumpZeroi => seq![0x45u8, v[0]],
        Ops::CopyReg => seq![0x50u8 | shl2(v[0]) | v[1]],
        Ops::JumpLess => seq![0x60u8 | v[0]],
        Ops::JumpOverflow => seq![0x64u8 | v[0]],
        Ops::JumpSign => seq![0x68u8 | v[0]],
        Ops::Loadi => seq![0x6cu8 | v[0], v[1]],
        Ops::Load => seq![0x70u8 | shl2(v[0]) | v[1]],
        Ops::Add => seq![0x80u8 | shl2(v[0]) | v[1]],
        Ops::Sub => seq![0x90u8 | shl2(v[0]) | v[1]],
        Ops::RightShift => seq![0xa0u8 | shl2(v[0]) | v[1]],
        Ops::Not => seq![0xb0u8 | shl2(v[0])],
        Ops::Jump => seq![0xb1u8 | shl2(v[0])],
        Ops::JumpCarry => seq![0xb2u8 | shl2(v[0])],
        Ops::JumpZero => seq![0xb3u8 | shl2(v[0])],
        Ops::And => seq![0xc0u8 | shl2(v[0]) | v[1]],
        Ops::Or => seq![0xd0u8 | shl2(v[0]) | v[1]],
        Ops::Compare => seq![0xe0u8 | shl2(v[0]) | v[1]],
        Ops::Store => seq![0xf0u8 | v[0] | shl2(v[1])],
        Ops::Increment => seq![0xd0u8 | v[0] | shl2(v[0])],
        Ops::Decrement => seq![0xe0u8 | v[0] | shl2(v[0])],
    }
}

/// The values of a statement's operands, if every one has a value.
pub open spec fn operand_values(strict: bool, stmts: Seq<Statement>, table: Seq<LabelEntry>, s: Statement, fuel: nat) -> Option<Seq<u8>> {
    if forall|i: int| 0 <= i < s.expressions@.len() ==> (#[trigger] eval(strict, stmts, table, s.byte_addr, s.expressions@[i], fuel)) is Some {
        Some(Seq::new(s.expressions@.len(), |i: int| eval(strict, stmts, table, s.byte_addr, s.expressions@[i], fuel)->0))
    } else {
        None
    }
}

/// The bytes a statement contributes: none for a label, the encoding for an operation.
pub open spec fn statement_image(strict: bool, stmts: Seq<Statement>, table: Seq<LabelEntry>, s: Statement, fuel: nat) -> Option<Seq<u8>> {
    if s.statement_type == StatementType::Label {
        Some(Seq::empty())
    } else {
        match op_of(s.value@) {
            None => None,
            Some(op) => match operand_values(strict, stmts, table, s, fuel) {
                None => None,
                Some(vs) => if vs.len() == crate::ops::param_count(op) {
                    Some(encode(op, vs))
                } else {
                    None
                },
            },
        }
    }
}

/// The bytes of the statements before `n`, in order.
pub open spec fn image_upto(strict: bool, stmts: Seq<Statement>, table: Seq<LabelEntry>, n: int, fuel: nat) -> Option<Seq<u8>>
    decreases n,
{
    if n <= 0 {
        Some(Seq::empty())
    } else {
        match image_upto(strict, stmts, table, n - 1, fuel) {
            None => None,
            Some(prev) => match statement_image(strict, stmts, table, stmts[n - 1], fuel) {
                None => None,
                Some(b) => Some(prev + b),
            },
        }
    }
}

/// The image of a statement list, if it compiles: labels are distinct and
/// every operand has a value, label bodies being followed at most once per label.
pub open spec fn compile_result(strict: bool, stmts: Seq<Statement>) -> Option<Seq<u8>> {
    let table = label_entries(stmts, stmts.len() as int);
    if labels_distinct(strict, table) {
        image_upto(strict, stmts, table, stmts.len() as int, table.len())
    } else {
        None
    }
}

fn shl2_exec(v: u8) -> (r: u8)
    ensures
        r == shl2(v),
{
    ((v as u16 * 4) % 256) as u8
}

/// The bytes of `op` with operand values `v`.
fn encode_exec(op: Ops, v: &Vec<u8>) -> (r: Vec<u8>)
    requires
        v@.len() == crate::ops::param_count(op),
    ensures
        r@ == encode(op, v@),
{
    let r = match op {
        Ops::NoOp => vec![0x00u8],
        Ops::Halt => vec![0x01u8],
        Ops::Byte => vec![v[0]],
        Ops::Jumpi => vec![0x40u8, v[0]],
        Ops::JumpLessi => vec![0x41u8, v[0]],
        Ops::JumpOverflowi => vec![0x42u8, v[0]],
        Ops::JumpSigni => vec![0x43u8, v[0]],
        Ops::JumpCarryi => vec![0x44u8, v[0]],
        Ops::JumpZeroi => vec![0x45u8, v[0]],
        Ops::CopyReg => vec![0x50u8 | shl2_exec(v[0]) | v[1]],
        Ops::JumpLess => vec![0x60u8 | v[0]],
        Ops::JumpOverflow => vec![0x64u8 | v[0]],
        Ops::JumpSign => vec![0x68u8 | v[0]],
        Ops::Loadi => vec![0x6cu8 | v[0], v[1]],
        Ops::Load => vec![0x70u8 | shl2_exec(v[0]) | v[1]],
        Ops::Add => vec![0x80u8 | shl2_exec(v[0]) | v[1]],
        Ops::Sub => vec![0x90u8 | shl2_exec(v[0]) | v[1]],
        Ops::RightShift => vec![0xa0u8 | shl2_exec(v[0]) | v[1]],
        Ops::Not => vec![0xb0u8 | shl2_exec(v[0])],
        Ops::Jump => vec![0xb1u8 | shl2_exec(v[0])],
        Ops::JumpCarry => vec![0xb2u8 | shl2_exec(v[0])],
        Ops::JumpZero => vec![0xb3u8 | shl2_exec(v[0])],
        Ops::And => vec![0xc0u8 | shl2_exec(v[0]) | v[1]],
        Ops::Or => vec![0xd0u8 | shl2_exec(v[0]) | v[1]],
        Ops::Compare => vec![0xe0u8 | shl2_exec(v[0]) | v[1]],
        Ops::Store => vec![0xf0u8 | v[0] | shl2_exec(v[1])],
        Ops::Increment => vec![0xd0u8 | v[0] | shl2_exec(v[0])],
        Ops::Decrement => vec![0xe0u8 | v[0] | shl2_exec(v[0])],
    };
    assert(r@ =~= encode(op, v@));
    r
}

proof fn lemma_entries_prefix(stmts: Seq<Statement>, m: int, n: int)
    requires
        0 <= m <= n,
    ensures
        label_entries(stmts, m).len() <= label_entries(stmts, n).len(),
        label_entries(stmts, n).subrange(0, label_entries(stmts, m).len() as int) == label_entries(stmts, m),
    decreases n - m,
{
    if m < n {
        lemma_entries_prefix(stmts, m, n - 1);
        let a = label_entries(stmts, m);
        let b = label_entries(stmts, n - 1);
        let c = label_entries(stmts, n);
        assert(c.subrange(0, a.len() as int) =~= b.subrange(0, a.len() as int));
    } else {
        assert(label_entries(stmts, n).subrange(0, label_entries(stmts, m).len() as int) =~= label_entries(stmts, m));
    }
}

/// First pass: the table of labels, in order; a repeated name is an error.
fn gather_labels(strict: bool, statements: &Vec<Statement>) -> (r: Result<Vec<LabelInfo>, String>)
    ensures
        r is Ok <==> labels_distinct(strict, label_entries(statements@, statements@.len() as int)),
        r matches Ok(t) ==> entries(t@) == label_entries(statements@, statements@.len() as int),
{
    let ghost stmts = statements@;
    let mut labels: Vec<LabelInfo> = Vec::new();
    let mut i: usize = 0;
    while i < statements.len()
        invariant
            i <= stmts.len(),
            stmts == statements@,
            entries(labels@) == label_entries(stmts, i as int),
            labels_distinct(strict, label_entries(stmts, i as int)),
        decreases stmts.len() - i,
    {
        let st = &statements[i];
        if st.statement_type == StatementType::Label {
            let ghost table = label_entries(stmts, i as int);
            match get_label(strict, st.value.as_str(), &labels) {
                Some(j) => {
                    proof {
                        lemma_find_in_bounds(strict, table, st.value@, table.len() as int);
                        lemma_entries_prefix(stmts, i + 1, stmts.len() as int);
                        let full = label_entries(stmts, stmts.len() as int);
                        let next = label_entries(stmts, i + 1);
                        assert(next[table.len() as int].name == st.value@);
                        assert(full[j as int] == next[j as int]);
                        assert(full[table.len() as int] == next[table.len() as int]);
                        assert(!labels_distinct(strict, full));
                    }
                    let mut m = String::from_str("Duplicate label [");
                    push_str(&mut m, st.value.as_str());
                    push_str(&mut m, "]");
                    return Err(error_at(m.as_str(), st.line, st.col));
                },
                None => {
                    proof {
                        lemma_find_in_bounds(strict, table, st.value@, table.len() as int);
                    }
                },
            }
            let body = if st.expressions.len() > 0 { Some(i) } else { None };
            labels.push(LabelInfo { label: st.value.clone(), addr: st.byte_addr, body });
            assert(entries(labels@) =~= label_entries(stmts, i + 1));
        } else {
            assert(label_entries(stmts, i + 1) == label_entries(stmts, i as int));
        }
        i = i + 1;
    }
    Ok(labels)
}

/// Second pass for one statement: append the bytes of an operation; a label adds none.
fn compile_statement(
    strict: bool,
    statement: &Statement,
    program: &mut Program,
    labels: &Vec<LabelInfo>,
    stmts: &Vec<Statement>,
    fuel: usize,
) -> (r: Result<(), String>)
    ensures
        r is Ok <==> statement_image(strict, stmts@, entries(labels@), *statement, fuel as nat) is Some,
        r is Ok ==> final(program).bytes() == old(program).bytes()
            + statement_image(strict, stmts@, entries(labels@), *statement, fuel as nat)->0,
{
    let ghost table = entries(labels@);
    if statement.statement_type == StatementType::Label {
        assert(old(program).bytes() + Seq::<u8>::empty() =~= old(program).bytes());
        return Ok(());
    }
    let op = match Ops::get_op(statement.value.as_str()) {
        Some(op) => op,
        None => {
            return Err(error_at("Invalid op mnemonic", statement.line, statement.col));
        },
    };
    let n = statement.expressions.len();
    let mut vals: Vec<u8> = Vec::new();
    let mut i: usize = 0;
    while i < n
        invariant
            n == statement.expressions@.len(),
            i <= n,
            table == entries(labels@),
            op_of(statement.value@) == Some(op),
            statement.statement_type != StatementType::Label,
            vals@.len() == i,
            forall|k: int| 0 <= k < i ==> (#[trigger] eval(strict, stmts@, table, statement.byte_addr, statement.expressions@[k], fuel as nat)) == Some(vals@[k]),
        decreases n - i,
    {
        match evaluate_expression(strict, statement.byte_addr, &statement.expressions[i], labels, stmts, fuel) {
            Ok(v) => {
                vals.push(v);
            },
            Err(m) => {
                assert(eval(strict, stmts@, table, statement.byte_addr, statement.expressions@[i as int], fuel as nat) is None);
                assert(operand_values(strict, stmts@, table, *statement, fuel as nat) is None);
                assert(op_of(statement.value@) == Some(op));
                assert(statement_image(strict, stmts@, table, *statement, fuel as nat) is None);
                return Err(m);
            },
        }
        i = i + 1;
    }
    assert(operand_values(strict, stmts@, table, *statement, fuel as nat) == Some(vals@)) by {
        assert(vals@ =~= Seq::new(n as nat, |k: int| eval(strict, stmts@, table, statement.byte_addr, statement.expressions@[k], fuel as nat)->0));
    }
    if n != op.get_op_param_count() {
        return Err(error_at("Invalid number of parameters", statement.line, statement.col));
    }
    let bytes = encode_exec(op, &vals);
    let mut k: usize = 0;
    let ghost start = program.bytes();
    while k < bytes.len()
        invariant
            k <= bytes@.len(),
            program.bytes() == start + bytes@.subrange(0, k as int),
        decreases bytes@.len() - k,
    {
        let tag = if k == 0 { op } else { Ops::Byte };
        let ghost before = program.instructions@;
        let ghost prev_bytes = program.bytes();
        program.instructions.push(Instruction::create(tag, bytes[k]));
        assert(program.bytes() =~= prev_bytes.push(bytes@[k as int])) by {
            assert forall|j: int| 0 <= j < before.len() implies program.bytes()[j] == prev_bytes[j] by {
                assert(program.instructions@[j] == before[j]);
            }
        }
        assert(bytes@.subrange(0, k + 1) =~= bytes@.subrange(0, k as int).push(bytes@[k as int]));
        k = k + 1;
    }
    assert(bytes@.subrange(0, bytes@.len() as int) =~= bytes@);
    Ok(())
}

/// The compiler: two passes over a parsed program.
pub struct Compiler {}

impl Compiler {
    /// Compile statements to an image: collect the labels, then encode each
    /// operation in order.
    pub fn compile(strict: bool, root: &RootNode) -> (r: Result<Program, String>)
        ensures
            r is Ok <==> compile_result(strict, root.statements@) is Some,
            r matches Ok(p) ==> p.bytes() == compile_result(strict, root.statements@)->0,
    {
        let stmts = &root.statements;
        let labels = gather_labels(strict, stmts)?;
        let ghost table = entries(labels@);
        let fuel = labels.len();
        let mut program = Program { instructions: Vec::new() };
        assert(program.bytes() =~= Seq::<u8>::empty());
        let mut i: usize = 0;
        while i < stmts.len()
            invariant
                i <= stmts@.len(),
                stmts@ == root.statements@,
                table == entries(labels@),
                table == label_entries(stmts@, stmts@.len() as int),
                fuel == table.len(),
                labels_distinct(strict, table),
                image_upto(strict, stmts@, table, i as int, fuel as nat) == Some(program.bytes()),
            decreases stmts@.len() - i,
        {
            match compile_statement(strict, &stmts[i], &mut program, &labels, stmts, fuel) {
                Ok(()) => {},
                Err(m) => {
                    proof {
                        assert(image_upto(strict, stmts@, table, (i + 1) as int, fuel as nat) is None);
                        lemma_image_none(strict, stmts@, table, (i + 1) as int, stmts@.len() as int, fuel as nat);
                        assert(image_upto(strict, stmts@, table, stmts@.len() as int, table.len()) is None);
                    }
                    return Err(m);
                },
            }
            i = i + 1;
        }
        Ok(program)
    }
}

proof fn lemma_image_none(strict: bool, stmts: Seq<Statement>, table: Seq<LabelEntry>, m: int, n: int, fuel: nat)
    requires
        0 <= m <= n,
        image_upto(strict, stmts, table, m, fuel) is None,
    ensures
        image_upto(strict, stmts, table, n, fuel) is None,
    decreases n - m,
{
    if m < n {
        lemma_image_none(strict, stmts, table, m, n - 1, fuel);
    }
}

proof fn lemma_encode_len(op: Ops, vs: Seq<u8>)
    ensures
        encode(op, vs).len() == crate::ops::byte_count(op),
{
}

proof fn lemma_statement_image_len(strict: bool, stmts: Seq<Statement>, table: Seq<LabelEntry>, s: Statement, fuel: nat)
    requires
        statement_image(strict, stmts, table, s, fuel) is Some,
    ensures
        statement_image(strict, stmts, table, s, fuel)->0.len() == crate::parser::statement_bytes(s),
{
    if s.statement_type != StatementType::Label {
        let op = op_of(s.value@)->0;
        let vs = operand_values(strict, stmts, table, s, fuel)->0;
        lemma_encode_len(op, vs);
    }
}

proof fn lemma_image_upto_len(strict: bool, stmts: Seq<Statement>, table: Seq<LabelEntry>, n: int, fuel: nat)
    requires
        0 <= n <= stmts.len(),
        image_upto(strict, stmts, table, n, fuel) is Some,
    ensures
        image_upto(strict, stmts, table, n, fuel)->0.len() == crate::parser::bytes_before(stmts, n),
    decreases n,
{
    if n > 0 {
        lemma_image_upto_len(strict, stmts, table, n - 1, fuel);
        lemma_statement_image_len(strict, stmts, table, stmts[n - 1], fuel);
    }
}

/// The image of a program that compiles has as many bytes as the byte counts
/// of its operations add up to.
pub proof fn lemma_image_length(strict: bool, stmts: Seq<Statement>)
    requires
        compile_result(strict, stmts) is Some,
    ensures
        compile_result(strict, stmts)->0.len() == crate::parser::bytes_before(stmts, stmts.len() as int),
{
    let table = label_entries(stmts, stmts.len() as int);
    lemma_image_upto_len(strict, stmts, table, stmts.len() as int, table.len());
}

/// Allowing label bodies to be followed more often never changes a value that
/// an expression already has: evaluating a non-cyclic label body again gives
/// the same value.
pub proof fn lemma_eval_fuel(
    strict: bool,
    stmts: Seq<Statement>,
    table: Seq<LabelEntry>,
    addr: u8,
    e: Expression,
    k: nat,
    fuel: nat,
    more: nat,
)
    requires
        fuel <= more,
        eval_node(strict, stmts, table, addr, e, k, fuel) is Some,
    ensures
        eval_node(strict, stmts, table, addr, e, k, more) == eval_node(strict, stmts, table, addr, e, k, fuel),
    decreases fuel, e, k,
{
    match e.expression_type {
        ExpressionType::Equation => {
            if 0 < k <= e.expressions@.len() {
                let child = e.expressions@[k - 1];
                lemma_eval_fuel(strict, stmts, table, addr, child, child.expressions@.len(), fuel, more);
                if k > 1 {
                    lemma_eval_fuel(strict, stmts, table, addr, e, (k - 1) as nat, fuel, more);
                }
            }
        },
        ExpressionType::LabelPtr => {
            match find_label(strict, table, e.value@.push(':')) {
                None => {},
                Some(i) => match table[i].body {
                    None => {},
                    Some(si) => {
                        if !(fuel == 0 || !(0 <= si < stmts.len()) || stmts[si].expressions@.len() == 0) {
                            let b = stmts[si].expressions@[0];
                            lemma_eval_fuel(strict, stmts, table, addr, b, b.expressions@.len(), (fuel - 1) as nat,
                                (more - 1) as nat);
                        }
                    },
                },
            }
        },
        _ => {},
    }
}

} // verus!
