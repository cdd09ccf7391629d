use vstd::prelude::*;
use crate::parser::{Expression, ExpressionType, RootNode, Statement, StatementType};
use crate::lexer::{LexerState, Token, TokenType};
use crate::ops::Register;
use crate::text::{decimal, pad_left, pad_right, push_char, push_decimal, push_padded_left, push_padded_right, push_str};
use crate::vm::{VirtualMachine, VmState};

verus! {

/// Source position and text of a tree node, and its indented dump.
pub trait DebugInfo {
    fn line(&self) -> u32;

    fn col(&self) -> u32;

    fn raw(&self) -> &str;

    fn dump(&self, level: usize) -> String;
}

/// The name of an expression kind in parentheses.
pub open spec fn kind_label(k: ExpressionType) -> Seq<char> {
    match k {
        ExpressionType::Dot => "(Dot)"@,
        ExpressionType::Value => "(Value)"@,
        ExpressionType::LabelPtr => "(LabelPtr)"@,
        ExpressionType::Register => "(Register)"@,
        ExpressionType::Equation => "(Equation)"@,
    }
}

fn kind_label_exec(k: ExpressionType) -> (r: &'static str)
    ensures
        r@ == kind_label(k),
{
    match k {
        ExpressionType::Dot => "(Dot)",
        ExpressionType::Value => "(Value)",
        ExpressionType::LabelPtr => "(LabelPtr)",
        ExpressionType::Register => "(Register)",
        ExpressionType::Equation => "(Equation)",
    }
}

/// The next indentation level (it stops growing at the largest `usize`).
pub open spec fn deeper(level: usize) -> usize {
    if level < usize::MAX { (level + 1) as usize } else { level }
}

/// `n` dashes.
pub open spec fn dashes(n: nat) -> Seq<char> {
    Seq::new(n, |i: int| '-')
}

/// An expression's line: `4 * level` dashes, its kind in a field of ten, and
/// its text in quotes.
pub open spec fn expression_line(e: Expression, level: usize) -> Seq<char> {
    dashes(4 * level as nat) + crate::text::pad_right(kind_label(e.expression_type), 10) + ":\""@ + e.value@
        + "\""@
}

/// The dump of an expression with the first `k` of its children, each on a
/// line of its own one level deeper.
pub open spec fn expression_dump(e: Expression, level: usize, k: nat) -> Seq<char>
    decreases e, k,
{
    if k == 0 || k > e.expressions@.len() {
        expression_line(e, level)
    } else {
        let child = e.expressions@[k - 1];
        expression_dump(e, level, (k - 1) as nat) + seq!['\n'] + expression_dump(child, deeper(level), child.expressions@.len())
    }
}

/// The names of statement kinds as the dump shows them.
pub open spec fn statement_label(k: StatementType) -> Seq<char> {
    match k {
        StatementType::Operation => "(Operation)"@,
        StatementType::Label => "(Label)"@,
    }
}

/// The dump of a statement with its first `k` expressions.
pub open spec fn statement_dump(s: Statement, level: usize, k: nat) -> Seq<char>
    decreases k,
{
    if k == 0 || k > s.expressions@.len() {
        statement_label(s.statement_type) + ":\""@ + s.value@ + "\""@
    } else {
        let e = s.expressions@[k - 1];
        statement_dump(s, level, (k - 1) as nat) + seq!['\n'] + expression_dump(e, deeper(level), e.expressions@.len())
    }
}

fn push_dashes(s: &mut String, level: usize)
    ensures
        final(s)@ == old(s)@ + dashes(4 * level as nat),
{
    let mut k: usize = 0;
    while k < level
        invariant
            k <= level,
            s@ == old(s)@ + dashes(4 * k as nat),
        decreases level - k,
    {
        crate::text::push_str(s, "----");
        proof {
            reveal_strlit("----");
        }
        k = k + 1;
        assert(s@ =~= old(s)@ + dashes(4 * k as nat));
    }
}

fn next_level(level: usize) -> (r: usize)
    ensures
        r == deeper(level),
{
    if level < usize::MAX { level + 1 } else { level }
}

impl DebugInfo for Expression {
    fn line(&self) -> u32 {
        self.line
    }

    fn col(&self) -> u32 {
        self.col
    }

    fn raw(&self) -> &str {
        self.value.as_str()
    }

    fn dump(&self, level: usize) -> String {
        self.dump_tree(level)
    }
}

impl Expression {
    /// The indented dump of this expression and its children.
    pub fn dump_tree(&self, level: usize) -> (r: String)
        ensures
            r@ == expression_dump(*self, level, self.expressions@.len()),
        decreases self,
    {
        let mut s = String::new();
        push_dashes(&mut s, level);
        crate::text::push_padded_right(&mut s, kind_label_exec(self.expression_type), 10);
        crate::text::push_str(&mut s, ":\"");
        crate::text::push_str(&mut s, self.value.as_str());
        crate::text::push_str(&mut s, "\"");
        assert(s@ =~= expression_line(*self, level));
        let mut i: usize = 0;
        while i < self.expressions.len()
            invariant
                i <= self.expressions@.len(),
                s@ == expression_dump(*self, level, i as nat),
            decreases self.expressions@.len() - i,
        {
            crate::text::push_char(&mut s, '\n');
            let child = self.expressions[i].dump_tree(next_level(level));
            crate::text::push_str(&mut s, child.as_str());
            i = i + 1;
            assert(s@ =~= expression_dump(*self, level, i as nat));
        }
        s
    }
}

impl DebugInfo for Statement {
    fn line(&self) -> u32 {
        self.line
    }

    fn col(&self) -> u32 {
        self.col
    }

    fn raw(&self) -> &str {
        self.value.as_str()
    }

    fn dump(&self, level: usize) -> String {
        self.dump_tree(level)
    }
}

impl Statement {
    /// The dump of this statement and its expressions, one level deeper.
    pub fn dump_tree(&self, level: usize) -> (r: String)
        ensures
            r@ == statement_dump(*self, level, self.expressions@.len()),
    {
        let mut s = String::from_str(match self.statement_type {
            StatementType::Operation => "(Operation)",
            StatementType::Label => "(Label)",
        });
        crate::text::push_str(&mut s, ":\"");
        crate::text::push_str(&mut s, self.value.as_str());
        crate::text::push_str(&mut s, "\"");
        assert(s@ =~= statement_dump(*self, level, 0));
        let mut i: usize = 0;
        while i < self.expressions.len()
            invariant
                i <= self.expressions@.len(),
                s@ == statement_dump(*self, level, i as nat),
            decreases self.expressions@.len() - i,
        {
            crate::text::push_char(&mut s, '\n');
            let e = self.expressions[i].dump_tree(next_level(level));
            crate::text::push_str(&mut s, e.as_str());
            i = i + 1;
            assert(s@ =~= statement_dump(*self, level, i as nat));
        }
        s
    }
}

/// The dump of the first `n` statements, each after a line break.
pub open spec fn tree_text(stmts: Seq<Statement>, n: int) -> Seq<char>
    decreases n,
{
    if n <= 0 {
        Seq::empty()
    } else {
        tree_text(stmts, n - 1) + seq!['\n'] + statement_dump(stmts[n - 1], 0, stmts[n - 1].expressions@.len())
    }
}

impl RootNode {
    /// The parse tree as text: each statement's dump after a line break.
    pub fn to_text(&self) -> (r: String)
        ensures
            r@ == tree_text(self.statements@, self.statements@.len() as int),
    {
        let mut s = String::new();
        let mut i: usize = 0;
        while i < self.statements.len()
            invariant
                i <= self.statements@.len(),
                s@ == tree_text(self.statements@, i as int),
            decreases self.statements@.len() - i,
        {
            crate::text::push_char(&mut s, '\n');
            let d = self.statements[i].dump_tree(0);
            crate::text::push_str(&mut s, d.as_str());
            i = i + 1;
        }
        s
    }
}

pub open spec fn state_name(s: LexerState) -> Seq<char> {
    match s {
        LexerState::Base => "Base"@,
        LexerState::Operand => "Operand"@,
    }
}

pub open spec fn token_type_name(t: TokenType) -> Seq<char> {
    match t {
        TokenType::Op => "Op"@,
        TokenType::Reg => "Reg"@,
        TokenType::PtrReg => "PtrReg"@,
        TokenType::Label => "Label"@,
        TokenType::Identifier => "Identifier"@,
        TokenType::Number => "Number"@,
        TokenType::Plus => "Plus"@,
        TokenType::Minus => "Minus"@,
        TokenType::Comma => "Comma"@,
        TokenType::Dot => "Dot"@,
        TokenType::Eof => "Eof"@,
    }
}

fn state_name_exec(s: LexerState) -> (r: &'static str)
    ensures
        r@ == state_name(s),
{
    match s {
        LexerState::Base => "Base",
        LexerState::Operand => "Operand",
    }
}

fn token_type_name_exec(t: TokenType) -> (r: &'static str)
    ensures
        r@ == token_type_name(t),
{
    match t {
        TokenType::Op => "Op",
        TokenType::Reg => "Reg",
        TokenType::PtrReg => "PtrReg",
        TokenType::Label => "Label",
        TokenType::Identifier => "Identifier",
        TokenType::Number => "Number",
        TokenType::Plus => "Plus",
        TokenType::Minus => "Minus",
        TokenType::Comma => "Comma",
        TokenType::Dot => "Dot",
        TokenType::Eof => "Eof",
    }
}

/// A token as the token dump shows it: `([   state | kind    ] - line:col "text")`.
pub open spec fn token_text(t: Token) -> Seq<char> {
    "(["@ + pad_left(state_name(t.state), 8) + " | "@ + pad_right(token_type_name(t.token_type), 8) + "] - "@
        + decimal(t.line as nat) + ":"@ + decimal(t.column as nat) + " \""@ + t.value@ + "\")"@
}

impl Token {
    /// The token as one line of the token dump.
    pub fn describe(&self) -> (r: String)
        ensures
            r@ == token_text(*self),
    {
        let mut s = String::from_str("([");
        push_padded_left(&mut s, state_name_exec(self.state), 8);
        push_str(&mut s, " | ");
        push_padded_right(&mut s, token_type_name_exec(self.token_type), 8);
        push_str(&mut s, "] - ");
        push_decimal(&mut s, self.line as u64);
        push_str(&mut s, ":");
        push_decimal(&mut s, self.column as u64);
        push_str(&mut s, " \"");
        push_str(&mut s, self.value.as_str());
        push_str(&mut s, "\")");
        assert(s@ =~= token_text(*self));
        s
    }
}

pub open spec fn bool_text(b: bool) -> Seq<char> {
    if b { "true"@ } else { "false"@ }
}

/// A register value as three digits at least, zero-padded.
pub open spec fn three_digits(v: u8) -> Seq<char> {
    let d = decimal(v as nat);
    if d.len() >= 3 { d } else { Seq::new((3 - d.len()) as nat, |i: int| '0') + d }
}

/// The final report of a run: registers and flags.
pub open spec fn summary_text(m: VmState) -> Seq<char> {
    "\nRegisters[A:"@ + three_digits(m.a) + ",B:"@ + three_digits(m.b) + ",C:"@ + three_digits(m.c) + ",D:"@
        + three_digits(m.d) + "] \nFlags[C:"@ + bool_text(m.flags.carry) + ", L:"@ + bool_text(m.flags.less_than)
        + ", Z:"@ + bool_text(m.flags.zero) + ", O:"@ + bool_text(m.flags.overflow) + ", S:"@
        + bool_text(m.flags.sign) + "]"@
}

fn push_three_digits(s: &mut String, v: u8)
    ensures
        final(s)@ == old(s)@ + three_digits(v),
{
    let mut d = String::new();
    push_decimal(&mut d, v as u64);
    let n = d.as_str().unicode_len();
    let mut k: usize = n;
    let ghost start = s@;
    while k < 3
        invariant
            n == decimal(v as nat).len(),
            n <= k <= 3 || (n > 3 && k == n),
            s@ == start + Seq::new((k - n) as nat, |i: int| '0'),
        decreases 3 - k,
    {
        push_char(s, '0');
        k = k + 1;
        assert(s@ =~= start + Seq::new((k - n) as nat, |i: int| '0'));
    }
    push_str(s, d.as_str());
    assert(s@ =~= start + three_digits(v));
}

fn push_bool(s: &mut String, b: bool)
    ensures
        final(s)@ == old(s)@ + bool_text(b),
{
    push_str(s, if b { "true" } else { "false" });
}

/// The registers and flags of a machine, as a run reports them at its end.
pub fn summary(vm: &VirtualMachine) -> (r: String)
    ensures
        r@ == summary_text(vm@),
{
    let mut s = String::from_str("\nRegisters[A:");
    push_three_digits(&mut s, vm.get_register_data(Register::A));
    push_str(&mut s, ",B:");
    push_three_digits(&mut s, vm.get_register_data(Register::B));
    push_str(&mut s, ",C:");
    push_three_digits(&mut s, vm.get_register_data(Register::C));
    push_str(&mut s, ",D:");
    push_three_digits(&mut s, vm.get_register_data(Register::D));
    let f = vm.get_flags();
    push_str(&mut s, "] \nFlags[C:");
    push_bool(&mut s, f.carry);
    push_str(&mut s, ", L:");
    push_bool(&mut s, f.less_than);
    push_str(&mut s, ", Z:");
    push_bool(&mut s, f.zero);
    push_str(&mut s, ", O:");
    push_bool(&mut s, f.overflow);
    push_str(&mut s, ", S:");
    push_bool(&mut s, f.sign);
    push_str(&mut s, "]");
    assert(s@ =~= summary_text(vm@));
    s
}

} // verus!
