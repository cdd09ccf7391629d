use vstd::prelude::*;
use crate::ops::{Ops, byte_count, param_count, op_of};
use crate::lexer::{Token, TokenType};
use crate::text::{error_at, push_str, push_decimal};

verus! {

#[derive(PartialEq, Eq, Structural, Debug, Clone, Copy)]
pub enum StatementType {
    Operation,
    Label,
}

#[derive(PartialEq, Eq, Structural, Debug, Clone, Copy)]
pub enum ExpressionType {
    Dot,
    Value,
    LabelPtr,
    Register,
    Equation,
}

/// A node of an operand expression.
pub struct Expression {
    pub expression_type: ExpressionType,
    pub expressions: Vec<Expression>,
    pub value: String,
    pub line: u32,
    pub col: u32,
}

/// An operation with its operands, or a label with its optional body.
pub struct Statement {
    pub value: String,
    pub statement_type: StatementType,
    pub expressions: Vec<Expression>,
    pub line: u32,
    pub col: u32,
    pub byte_addr: u8,
}

/// The statements of a program, in source order.
pub struct RootNode {
    pub statements: Vec<Statement>,
}

/// Bytes a statement adds to the image.
pub open spec fn statement_bytes(s: Statement) -> nat {
    if s.statement_type == StatementType::Operation {
        match op_of(s.value@) {
            Some(op) => byte_count(op) as nat,
            None => 0,
        }
    } else {
        0
    }
}

/// The sum of the byte counts of the operations before statement `i`.
pub open spec fn bytes_before(stmts: Seq<Statement>, i: int) -> nat
    decreases i,
{
    if i <= 0 {
        0
    } else {
        bytes_before(stmts, i - 1) + statement_bytes(stmts[i - 1])
    }
}

/// What the parser guarantees of a statement list: each address is the sum of
/// the byte counts before it (modulo 256), each operation names a known
/// mnemonic and has as many operands as it takes, and a label has at most one
/// body expression.
pub open spec fn statements_ok(stmts: Seq<Statement>) -> bool {
    forall|i: int|
        0 <= i < stmts.len() ==> {
            &&& (#[trigger] stmts[i]).byte_addr == bytes_before(stmts, i) % 256
            &&& statement_ok(stmts[i])
        }
}

pub open spec fn statement_ok(s: Statement) -> bool {
    if s.statement_type == StatementType::Operation {
        &&& op_of(s.value@) is Some
        &&& s.expressions@.len() == param_count(op_of(s.value@)->0)
    } else {
        s.expressions@.len() <= 1
    }
}

/// The expression kind a token stands for.
pub open spec fn expression_kind(t: TokenType) -> ExpressionType {
    match t {
        TokenType::Dot => ExpressionType::Dot,
        TokenType::Identifier => ExpressionType::LabelPtr,
        TokenType::Reg | TokenType::PtrReg => ExpressionType::Register,
        TokenType::Plus | TokenType::Minus => ExpressionType::Equation,
        _ => ExpressionType::Value,
    }
}

fn kind_for(t: TokenType) -> (r: ExpressionType)
    ensures
        r == expression_kind(t),
{
    match t {
        TokenType::Dot => ExpressionType::Dot,
        TokenType::Identifier => ExpressionType::LabelPtr,
        TokenType::Reg | TokenType::PtrReg => ExpressionType::Register,
        TokenType::Plus | TokenType::Minus => ExpressionType::Equation,
        _ => ExpressionType::Value,
    }
}

/// Whether a token ends an operand list.
pub open spec fn ends_statement(t: TokenType) -> bool {
    t == TokenType::Op || t == TokenType::Label || t == TokenType::Eof
}

/// Whether a token ends an expression.
pub open spec fn ends_expression(t: TokenType) -> bool {
    ends_statement(t) || t == TokenType::Comma
}

/// The kind of the token at `i`; past the end the stream reads as `Eof`.
pub open spec fn kind_at(tokens: Seq<Token>, i: int) -> TokenType {
    if 0 <= i < tokens.len() { tokens[i].token_type } else { TokenType::Eof }
}

/// The kinds of a sequence of expressions.
pub open spec fn kinds_of(s: Seq<Expression>) -> Seq<ExpressionType> {
    s.map_values(|e: Expression| e.expression_type)
}

/// Whether folding an operand stack fails: popping from the top, an equation
/// that comes right after the root or after another equation (`fresh`: the
/// current leader has no child yet) is an error.
pub open spec fn attach_fails(ks: Seq<ExpressionType>, fresh: bool) -> bool
    decreases ks.len(),
{
    if ks.len() == 0 {
        false
    } else if ks.last() == ExpressionType::Equation {
        fresh || attach_fails(ks.drop_last(), true)
    } else {
        attach_fails(ks.drop_last(), false)
    }
}

/// Whether an operand stack folds into an expression: a single operand, or an
/// odd number with an equation on top and no two equations adjacent.
pub open spec fn group_ok(ks: Seq<ExpressionType>) -> bool {
    ks.len() == 1 || (ks.len() > 1 && ks.len() % 2 == 1 && ks.last() == ExpressionType::Equation
        && !attach_fails(ks.drop_last(), true))
}

/// The first index from `k` on whose token ends an expression.
pub open spec fn next_end(tokens: Seq<Token>, k: int) -> int
    decreases tokens.len() - k,
{
    if k < 0 || k >= tokens.len() || ends_expression(kind_at(tokens, k)) {
        k
    } else {
        next_end(tokens, k + 1)
    }
}

/// The end of the expression that starts at `j`: it takes `j` and the tokens
/// after it up to a comma or the end of the statement.
pub open spec fn group_end(tokens: Seq<Token>, j: int) -> int {
    next_end(tokens, j + 1)
}

/// The expression kinds of the tokens `j..e`.
pub open spec fn group_kinds(tokens: Seq<Token>, j: int, e: int) -> Seq<ExpressionType> {
    Seq::new((e - j) as nat, |k: int| expression_kind(tokens[j + k].token_type))
}

pub proof fn lemma_next_end(tokens: Seq<Token>, k: int)
    requires
        0 <= k,
    ensures
        k <= next_end(tokens, k),
        k <= tokens.len() ==> next_end(tokens, k) <= tokens.len(),
        ends_expression(kind_at(tokens, next_end(tokens, k))),
    decreases tokens.len() - k,
{
    if k < tokens.len() && !ends_expression(kind_at(tokens, k)) {
        lemma_next_end(tokens, k + 1);
    }
}

/// Whether `e` carries the kind, text and position of token `t`.
pub open spec fn node_of(e: Expression, t: Token) -> bool {
    &&& e.expression_type == expression_kind(t.token_type)
    &&& e.value@ == t.value@
    &&& e.line == t.line
    &&& e.col == t.column
}

/// Whether `e` is the leaf that token `t` stands for.
pub open spec fn is_leaf(e: Expression, t: Token) -> bool {
    node_of(e, t) && e.expressions@.len() == 0
}

/// The last equation among the tokens `lo..top`, or `lo - 1` if none.
pub open spec fn last_equation(tokens: Seq<Token>, lo: int, top: int) -> int
    decreases top - lo,
{
    if top <= lo {
        lo - 1
    } else if expression_kind(tokens[top - 1].token_type) == ExpressionType::Equation {
        top - 1
    } else {
        last_equation(tokens, lo, top - 1)
    }
}

pub proof fn lemma_last_equation(tokens: Seq<Token>, lo: int, top: int)
    ensures
        lo - 1 <= last_equation(tokens, lo, top) < if top > lo { top } else { lo },
    decreases top - lo,
{
    if top > lo && expression_kind(tokens[top - 1].token_type) != ExpressionType::Equation {
        lemma_last_equation(tokens, lo, top - 1);
    }
}

/// Whether `e` is the tree folded from the operand tokens `lo..=top`, the
/// equation `top` being its root: its children, in source order, are the
/// tree of the tokens up to the last equation below `top` (if any) and then
/// the leaves after that equation.
pub open spec fn folded(e: Expression, tokens: Seq<Token>, lo: int, top: int) -> bool
    decreases top - lo via folded_decreases
{
    let q = last_equation(tokens, lo, top);
    &&& node_of(e, tokens[top])
    &&& if q < lo {
        &&& e.expressions@.len() == top - lo
        &&& forall|k: int| 0 <= k < top - lo ==> is_leaf(#[trigger] e.expressions@[k], tokens[lo + k])
    } else {
        &&& e.expressions@.len() == top - q
        &&& folded(e.expressions@[0], tokens, lo, q)
        &&& forall|k: int| 1 <= k < top - q ==> is_leaf(#[trigger] e.expressions@[k], tokens[q + k])
    }
}

#[via_fn]
proof fn folded_decreases(e: Expression, tokens: Seq<Token>, lo: int, top: int) {
    lemma_last_equation(tokens, lo, top);
}

/// Whether `e` is the expression read from the tokens `j..end`: a leaf for a
/// single token, else the tree folded with the last token as root.
pub open spec fn group_tree(e: Expression, tokens: Seq<Token>, j: int, end: int) -> bool {
    if end - j == 1 { is_leaf(e, tokens[j]) } else { folded(e, tokens, j, end - 1) }
}

/// The indices at which the operand expressions of a statement start, from `j` on.
pub open spec fn group_starts(tokens: Seq<Token>, j: int) -> Seq<int>
    decreases tokens.len() - j via group_starts_decreases
{
    if j < 0 || j >= tokens.len() || ends_statement(kind_at(tokens, j)) {
        Seq::empty()
    } else {
        let e = group_end(tokens, j);
        let next = if kind_at(tokens, e) == TokenType::Comma { e + 1 } else { e };
        seq![j] + group_starts(tokens, next)
    }
}

#[via_fn]
proof fn group_starts_decreases(tokens: Seq<Token>, j: int) {
    if j >= 0 {
        lemma_next_end(tokens, j + 1);
    }
}

/// Whether the expressions of the statement at token `i` are the trees of its operand groups.
pub open spec fn trees_ok(s: Statement, tokens: Seq<Token>, i: int) -> bool {
    let gs = group_starts(tokens, i + 1);
    &&& s.expressions@.len() == gs.len()
    &&& forall|k: int| 0 <= k < gs.len() ==> group_tree(#[trigger] s.expressions@[k], tokens, gs[k], group_end(tokens, gs[k]))
}

/// Reading the operands of a statement from `j`: the number of expressions
/// and the index after them, or `None` when one does not fold.
pub open spec fn operands_from(tokens: Seq<Token>, j: int) -> Option<(nat, int)>
    decreases tokens.len() - j via operands_from_decreases
{
    if j < 0 || j >= tokens.len() || ends_statement(kind_at(tokens, j)) {
        Some((0, j))
    } else {
        let e = group_end(tokens, j);
        if !group_ok(group_kinds(tokens, j, e)) {
            None
        } else {
            let next = if kind_at(tokens, e) == TokenType::Comma { e + 1 } else { e };
            match operands_from(tokens, next) {
                Some((c, end)) => Some((c + 1, end)),
                None => None,
            }
        }
    }
}

#[via_fn]
proof fn operands_from_decreases(tokens: Seq<Token>, j: int) {
    if j >= 0 {
        lemma_next_end(tokens, j + 1);
    }
}

pub proof fn lemma_operands_end(tokens: Seq<Token>, j: int)
    requires
        0 <= j,
        operands_from(tokens, j) is Some,
    ensures
        j <= (operands_from(tokens, j)->0).1,
        j <= tokens.len() ==> (operands_from(tokens, j)->0).1 <= tokens.len(),
    decreases tokens.len() - j,
{
    if !(j >= tokens.len() || ends_statement(kind_at(tokens, j))) {
        let e = group_end(tokens, j);
        lemma_next_end(tokens, j + 1);
        let next = if kind_at(tokens, e) == TokenType::Comma { e + 1 } else { e };
        lemma_operands_end(tokens, next);
    }
}

/// Reading the statement at `i`: the number of its expressions and the index
/// after it. A label takes at most one expression; an operation must name a
/// known mnemonic and take as many as it needs.
pub open spec fn statement_from(tokens: Seq<Token>, i: int) -> Option<(nat, int)> {
    if i < 0 || i >= tokens.len() {
        None
    } else {
        let t = tokens[i];
        if t.token_type == TokenType::Label {
            match operands_from(tokens, i + 1) {
                Some((c, end)) => if c <= 1 { Some((c, end)) } else { None },
                None => None,
            }
        } else if t.token_type == TokenType::Op {
            match op_of(t.value@) {
                None => None,
                Some(op) => match operands_from(tokens, i + 1) {
                    Some((c, end)) => if c == param_count(op) { Some((c, end)) } else { None },
                    None => None,
                },
            }
        } else {
            None
        }
    }
}

/// A statement as the parser's contract sees it: kind, text, line, column,
/// and number of expressions.
pub type StatementSummary = (StatementType, Seq<char>, u32, u32, nat);

pub open spec fn summary(s: Statement) -> StatementSummary {
    (s.statement_type, s.value@, s.line, s.col, s.expressions@.len())
}

pub open spec fn summaries(s: Seq<Statement>) -> Seq<StatementSummary> {
    s.map_values(|st: Statement| summary(st))
}

/// The statement a token starts, with `c` expressions.
pub open spec fn token_summary(t: Token, c: nat) -> StatementSummary {
    (if t.token_type == TokenType::Label { StatementType::Label } else { StatementType::Operation }, t.value@, t.line,
        t.column, c)
}

/// Parsing the statements from `i` to the end of the stream.
pub open spec fn parse_from(tokens: Seq<Token>, i: int) -> Option<Seq<StatementSummary>>
    decreases tokens.len() - i via parse_from_decreases
{
    if i < 0 || i >= tokens.len() || kind_at(tokens, i) == TokenType::Eof {
        Some(Seq::empty())
    } else {
        match statement_from(tokens, i) {
            None => None,
            Some((c, end)) => match parse_from(tokens, end) {
                None => None,
                Some(rest) => Some(seq![token_summary(tokens[i], c)] + rest),
            },
        }
    }
}

#[via_fn]
proof fn parse_from_decreases(tokens: Seq<Token>, i: int) {
    if 0 <= i < tokens.len() && operands_from(tokens, i + 1) is Some {
        lemma_operands_end(tokens, i + 1);
        assert(statement_from(tokens, i) matches Some((c, end)) ==> i < end <= tokens.len());
    }
}

/// The token indices at which the statements start, from `i` on.
pub open spec fn statement_starts(tokens: Seq<Token>, i: int) -> Seq<int>
    decreases tokens.len() - i via statement_starts_decreases
{
    if i < 0 || i >= tokens.len() || kind_at(tokens, i) == TokenType::Eof {
        Seq::empty()
    } else {
        match statement_from(tokens, i) {
            None => Seq::empty(),
            Some((c, end)) => seq![i] + statement_starts(tokens, end),
        }
    }
}

#[via_fn]
proof fn statement_starts_decreases(tokens: Seq<Token>, i: int) {
    if 0 <= i < tokens.len() && operands_from(tokens, i + 1) is Some {
        lemma_operands_end(tokens, i + 1);
        assert(statement_from(tokens, i) matches Some((c, end)) ==> i < end <= tokens.len());
    }
}

/// Recursive-descent parser over a token stream.
pub struct Parser {
    root: RootNode,
    tokens: Vec<Token>,
    current_index: usize,
}

fn token_kind(tokens: &Vec<Token>, i: usize) -> (r: TokenType)
    ensures
        r == kind_at(tokens@, i as int),
{
    if i < tokens.len() { tokens[i].token_type } else { TokenType::Eof }
}

/// Attach to `first` the expressions popped from the top of `stack` down to
/// the next equation, which becomes a child built the same way; children
/// keep their source order. The stack holds the leaves of the tokens
/// `lo..lo + len` and `first` is the equation token right after them.
fn attach(first: Expression, stack: &mut Vec<Expression>, Ghost(tokens): Ghost<Seq<Token>>, Ghost(lo): Ghost<int>)
    -> (r: Result<Expression, String>)
    requires
        0 <= lo,
        lo + old(stack)@.len() < tokens.len(),
        forall|k: int| 0 <= k < old(stack)@.len() ==> is_leaf(#[trigger] old(stack)@[k], tokens[lo + k]),
        is_leaf(first, tokens[lo + old(stack)@.len()]),
    ensures
        r is Ok <==> !attach_fails(kinds_of(old(stack)@), true),
        r matches Ok(e) ==> folded(e, tokens, lo, lo + old(stack)@.len()),
    decreases old(stack)@.len(),
{
    let ghost top = lo + old(stack)@.len();
    let mut leader = first;
    while stack.len() > 0
        invariant
            0 <= lo,
            stack@.len() <= old(stack)@.len(),
            top == lo + old(stack)@.len(),
            top < tokens.len(),
            forall|k: int| 0 <= k < stack@.len() ==> #[trigger] stack@[k] == old(stack)@[k],
            forall|k: int| 0 <= k < old(stack)@.len() ==> is_leaf(#[trigger] old(stack)@[k], tokens[lo + k]),
            node_of(leader, tokens[top]),
            leader.expressions@.len() == top - (lo + stack@.len()),
            forall|k: int| 0 <= k < leader.expressions@.len() ==> is_leaf(#[trigger] leader.expressions@[k],
                tokens[lo + stack@.len() + k]),
            last_equation(tokens, lo, top) == last_equation(tokens, lo, lo + stack@.len()),
            attach_fails(kinds_of(old(stack)@), true) == attach_fails(kinds_of(stack@), leader.expressions@.len() == 0),
        decreases stack@.len(),
    {
        let ghost before = stack@;
        let ghost m = stack@.len() as int;
        let e = stack.pop().unwrap();
        assert(kinds_of(stack@) =~= kinds_of(before).drop_last());
        assert(e == old(stack)@[m - 1]);
        if e.expression_type == ExpressionType::Equation {
            if leader.expressions.len() == 0 {
                return Err(error_at("Unexpected arithmetic symbol", e.line, e.col));
            }
            assert(kinds_of(before).last() == ExpressionType::Equation);
            assert forall|k: int| 0 <= k < stack@.len() implies is_leaf(#[trigger] stack@[k], tokens[lo + k]) by {
                assert(stack@[k] == old(stack)@[k]);
            }
            let sub = attach(e, stack, Ghost(tokens), Ghost(lo))?;
            let ghost kids = leader.expressions@;
            leader.expressions.insert(0, sub);
            proof {
                assert(last_equation(tokens, lo, lo + m) == lo + m - 1);
                assert forall|k: int| 1 <= k < leader.expressions@.len() implies is_leaf(#[trigger] leader.expressions@[k],
                    tokens[(lo + m - 1) + k]) by {
                    assert(leader.expressions@[k] == kids[k - 1]);
                }
            }
            return Ok(leader);
        } else {
            let ghost kids = leader.expressions@;
            leader.expressions.insert(0, e);
            proof {
                assert(last_equation(tokens, lo, lo + m) == last_equation(tokens, lo, lo + m - 1));
                assert forall|k: int| 0 <= k < leader.expressions@.len() implies is_leaf(#[trigger] leader.expressions@[k],
                    tokens[lo + stack@.len() + k]) by {
                    if k > 0 {
                        assert(leader.expressions@[k] == kids[k - 1]);
                    }
                }
            }
        }
    }
    assert(kinds_of(stack@) =~= Seq::<ExpressionType>::empty());
    proof {
        lemma_last_equation(tokens, lo, lo);
    }
    Ok(leader)
}

/// The byte counts before `i` depend only on the statements before `i`.
pub proof fn lemma_bytes_before_prefix(a: Seq<Statement>, b: Seq<Statement>, i: int)
    requires
        0 <= i <= a.len(),
        i <= b.len(),
        forall|k: int| 0 <= k < i ==> a[k] == b[k],
    ensures
        bytes_before(a, i) == bytes_before(b, i),
    decreases i,
{
    if i > 0 {
        lemma_bytes_before_prefix(a, b, i - 1);
    }
}

/// Appending a statement placed at the running address keeps a list well formed.
pub proof fn lemma_push_statement(before: Seq<Statement>, s: Statement)
    requires
        statements_ok(before),
        s.byte_addr == bytes_before(before, before.len() as int) % 256,
        statement_ok(s),
    ensures
        statements_ok(before.push(s)),
        bytes_before(before.push(s), (before.len() + 1) as int) == bytes_before(before, before.len() as int)
            + statement_bytes(s),
{
    let after = before.push(s);
    assert forall|k: int| 0 <= k < after.len() implies {
        &&& (#[trigger] after[k]).byte_addr == bytes_before(after, k) % 256
        &&& statement_ok(after[k])
    } by {
        lemma_bytes_before_prefix(before, after, if k < before.len() { k } else { before.len() as int });
    }
    lemma_bytes_before_prefix(before, after, before.len() as int);
}

/// Read one expression from `index`: the tokens up to the next comma or end of
/// statement, folded into a tree with the last equation at the root. Returns
/// the expression and the index after it.
fn parse_expression(tokens: &Vec<Token>, index: usize) -> (r: Result<(Expression, usize), String>)
    requires
        index < tokens@.len(),
    ensures
        r is Ok <==> group_ok(group_kinds(tokens@, index as int, group_end(tokens@, index as int))),
        r matches Ok((e, j)) ==> j == group_end(tokens@, index as int) && index < j <= tokens@.len()
            && ends_expression(kind_at(tokens@, j as int)) && group_tree(e, tokens@, index as int, j as int),
{
    let ghost end = group_end(tokens@, index as int);
    proof {
        lemma_next_end(tokens@, index + 1);
    }
    let mut stack: Vec<Expression> = Vec::new();
    let len = tokens.len();
    let mut i: usize = index;
    let mut done = false;
    while !done
        invariant
            len == tokens@.len(),
            index <= i <= len,
            end == group_end(tokens@, index as int),
            index < end <= len,
            kinds_of(stack@) == group_kinds(tokens@, index as int, i as int),
            forall|k: int| 0 <= k < stack@.len() ==> is_leaf(#[trigger] stack@[k], tokens@[index + k]),
            !done ==> i < len && (i == index || (next_end(tokens@, i as int) == end
                && !ends_expression(kind_at(tokens@, i as int)))),
            done ==> i == end,
        decreases len - i,
    {
        let t = &tokens[i];
        let ghost before = stack@;
        stack.push(Expression {
            expression_type: kind_for(t.token_type),
            expressions: Vec::new(),
            value: t.value.clone(),
            line: t.line,
            col: t.column,
        });
        assert(kinds_of(stack@) =~= kinds_of(before).push(expression_kind(tokens@[i as int].token_type)));
        assert(group_kinds(tokens@, index as int, i + 1) =~= group_kinds(tokens@, index as int, i as int).push(
            expression_kind(tokens@[i as int].token_type)));
        i = i + 1;
        let k = token_kind(tokens, i);
        done = k == TokenType::Op || k == TokenType::Label || k == TokenType::Eof || k == TokenType::Comma;
        proof {
            if i - 1 > index {
                assert(next_end(tokens@, i - 1) == next_end(tokens@, i as int));
            }
            if done {
                assert(next_end(tokens@, i as int) == i);
            }
        }
    }
    let ghost ks = kinds_of(stack@);
    let n = stack.len();
    if n == 1 {
        let e = stack.pop().unwrap();
        Ok((e, i))
    } else if n % 2 == 1 {
        let ghost full = stack@;
        let top = stack.pop().unwrap();
        assert(kinds_of(stack@) =~= ks.drop_last());
        if top.expression_type != ExpressionType::Equation {
            return Err(error_at("Invalid expression", top.line, top.col));
        }
        assert forall|k: int| 0 <= k < stack@.len() implies is_leaf(#[trigger] stack@[k], tokens@[index + k]) by {
            assert(stack@[k] == full[k]);
        }
        let e = attach(top, &mut stack, Ghost(tokens@), Ghost(index as int))?;
        Ok((e, i))
    } else {
        let last = stack.pop().unwrap();
        Err(error_at("Unbalanced arithmetic", last.line, last.col))
    }
}

/// Read the statement that starts at `index`: a label or an operation with
/// its operands. Returns it, the index after it, and the bytes it adds.
fn parse_statement(tokens: &Vec<Token>, index: usize, byte_counter: u8) -> (r: Result<(Statement, usize, u8), String>)
    requires
        index < tokens@.len(),
    ensures
        r is Ok <==> statement_from(tokens@, index as int) is Some,
        r matches Ok((stmt, j, added)) ==> {
            &&& index < j <= tokens@.len()
            &&& j == (statement_from(tokens@, index as int)->0).1
            &&& summary(stmt) == token_summary(tokens@[index as int], (statement_from(tokens@, index as int)->0).0)
            &&& trees_ok(stmt, tokens@, index as int)
            &&& statement_ok(stmt)
            &&& stmt.byte_addr == byte_counter
            &&& statement_bytes(stmt) == added
        },
{
    let len = tokens.len();
    let t = &tokens[index];
    let is_label = t.token_type == TokenType::Label;
    let mut op: Option<Ops> = None;
    if is_label {
    } else if t.token_type == TokenType::Op {
        op = Ops::get_op(t.value.as_str());
        if op.is_none() {
            return Err(error_at("Invalid op mnemonic", t.line, t.column));
        }
    } else {
        return Err(error_at("Was expecting label or operation", t.line, t.column));
    }
    let mut stmt = Statement {
        value: t.value.clone(),
        statement_type: if is_label { StatementType::Label } else { StatementType::Operation },
        expressions: Vec::new(),
        line: t.line,
        col: t.column,
        byte_addr: byte_counter,
    };
    let ghost operands = operands_from(tokens@, index + 1);
    let ghost mut starts: Seq<int> = Seq::empty();
    assert(starts + group_starts(tokens@, index + 1) =~= group_starts(tokens@, index + 1));
    let mut i: usize = index + 1;
    while !(token_kind(tokens, i) == TokenType::Op || token_kind(tokens, i) == TokenType::Label
        || token_kind(tokens, i) == TokenType::Eof)
        invariant
            len == tokens@.len(),
            index < i <= tokens@.len(),
            summary(stmt) == token_summary(tokens@[index as int], stmt.expressions@.len()),
            is_label == (tokens@[index as int].token_type == TokenType::Label),
            is_label ==> op is None,
            !is_label ==> op is Some && op == op_of(stmt.value@),
            stmt.byte_addr == byte_counter,
            operands == operands_from(tokens@, index + 1),
            operands == match operands_from(tokens@, i as int) {
                Some((c, end)) => Some(((c + stmt.expressions@.len()) as nat, end)),
                None => None,
            },
            group_starts(tokens@, index + 1) == starts + group_starts(tokens@, i as int),
            starts.len() == stmt.expressions@.len(),
            forall|k: int| 0 <= k < starts.len() ==> group_tree(#[trigger] stmt.expressions@[k], tokens@, starts[k],
                group_end(tokens@, starts[k])),
        decreases tokens@.len() - i,
    {
        let ghost before = stmt.expressions@.len();
        match parse_expression(tokens, i) {
            Ok((e, j)) => {
                let ghost at = i as int;
                let ghost kids = stmt.expressions@;
                stmt.expressions.push(e);
                i = j;
                if token_kind(tokens, i) == TokenType::Comma {
                    i = i + 1;
                }
                proof {
                    assert(group_starts(tokens@, at) == seq![at] + group_starts(tokens@, i as int));
                    let old_starts = starts;
                    starts = starts.push(at);
                    assert(old_starts + (seq![at] + group_starts(tokens@, i as int)) =~= starts + group_starts(tokens@, i as int));
                    assert forall|k: int| 0 <= k < starts.len() implies group_tree(#[trigger] stmt.expressions@[k], tokens@,
                        starts[k], group_end(tokens@, starts[k])) by {
                        if k < kids.len() {
                            assert(stmt.expressions@[k] == kids[k]);
                        }
                    }
                }
            },
            Err(m) => {
                assert(operands_from(tokens@, i as int) is None);
                return Err(m);
            },
        }
    }
    assert(operands_from(tokens@, i as int) == Some((0nat, i as int)));
    assert(starts + group_starts(tokens@, i as int) =~= starts);
    let mut added: u8 = 0;
    match op {
        None => {
            if stmt.expressions.len() > 1 {
                return Err(error_at("A label takes at most one expression", stmt.line, stmt.col));
            }
        },
        Some(o) => {
            let expected = o.get_op_param_count();
            if stmt.expressions.len() != expected {
                let mut m = String::from_str("Invalid number of parameters for operation [");
                push_str(&mut m, stmt.value.as_str());
                push_str(&mut m, "] on line:");
                push_decimal(&mut m, stmt.line as u64);
                push_str(&mut m, ". Expected ");
                push_decimal(&mut m, expected as u64);
                push_str(&mut m, " but got ");
                push_decimal(&mut m, stmt.expressions.len() as u64);
                return Err(m);
            }
            added = o.get_byte_count();
        },
    }
    Ok((stmt, i, added))
}

impl Parser {
    /// The token stream being parsed.
    pub closed spec fn tokens(&self) -> Seq<Token> {
        self.tokens@
    }

    pub fn create(tokens: Vec<Token>) -> (r: Parser)
        ensures
            r.tokens() == tokens@,
    {
        Parser { root: RootNode { statements: Vec::new() }, tokens, current_index: 0 }
    }

    pub fn reset(&mut self)
        ensures
            final(self).tokens() == old(self).tokens(),
    {
        self.current_index = 0;
    }

    pub fn get_tokens(&self) -> (r: &Vec<Token>)
        ensures
            r@ == self.tokens(),
    {
        &self.tokens
    }

    /// Parse the whole stream into statements, giving each its byte address.
    #[verifier::rlimit(100)]
    #[verifier::spinoff_prover]
    pub fn generate(&mut self) -> (r: Result<&RootNode, String>)
        ensures
            final(self).tokens() == old(self).tokens(),
            r is Ok <==> parse_from(old(self).tokens(), 0) is Some,
            r matches Ok(root) ==> {
                &&& statements_ok(root.statements@)
                &&& summaries(root.statements@) == parse_from(old(self).tokens(), 0)->0
                &&& statement_starts(old(self).tokens(), 0).len() == root.statements@.len()
                &&& forall|k: int| 0 <= k < root.statements@.len() ==> trees_ok(#[trigger] root.statements@[k],
                    old(self).tokens(), statement_starts(old(self).tokens(), 0)[k])
            },
    {
        self.reset();
        let ghost tokens = self.tokens@;
        let mut stmts: Vec<Statement> = Vec::new();
        let mut byte_counter: u8 = 0;
        let mut i: usize = 0;
        let ghost mut pos: Seq<int> = Seq::empty();
        assert(pos + statement_starts(tokens, 0) =~= statement_starts(tokens, 0));
        assert(summaries(stmts@) =~= Seq::<StatementSummary>::empty());
        assert(parse_from(tokens, 0) is Some ==> Seq::<StatementSummary>::empty() + parse_from(tokens, 0)->0 == parse_from(tokens, 0)->0);
        while token_kind(&self.tokens, i) != TokenType::Eof
            invariant
                i <= self.tokens@.len(),
                tokens == self.tokens@,
                self.tokens() == old(self).tokens(),
                statements_ok(stmts@),
                byte_counter == bytes_before(stmts@, stmts@.len() as int) % 256,
                parse_from(tokens, 0) == match parse_from(tokens, i as int) {
                    Some(rest) => Some(summaries(stmts@) + rest),
                    None => None,
                },
                statement_starts(tokens, 0) == pos + statement_starts(tokens, i as int),
                pos.len() == stmts@.len(),
                forall|k: int| 0 <= k < stmts@.len() ==> trees_ok(#[trigger] stmts@[k], tokens, pos[k]),
            decreases self.tokens@.len() - i,
        {
            let (stmt, j, added) = match parse_statement(&self.tokens, i, byte_counter) {
                Ok(x) => x,
                Err(m) => {
                    return Err(m);
                },
            };
            let ghost before = stmts@;
            stmts.push(stmt);
            proof {
                assert(statement_starts(tokens, i as int) == seq![i as int] + statement_starts(tokens, j as int));
                let old_pos = pos;
                pos = pos.push(i as int);
                assert(old_pos + (seq![i as int] + statement_starts(tokens, j as int)) =~= pos + statement_starts(tokens, j as int));
                assert forall|k: int| 0 <= k < stmts@.len() implies trees_ok(#[trigger] stmts@[k], tokens, pos[k]) by {
                    if k < before.len() {
                        assert(stmts@[k] == before[k]);
                    }
                }
                assert(stmts@ == before.push(stmts@.last()));
                lemma_push_statement(before, stmts@.last());
                lemma_parse_step(tokens, i as int, before, stmts@.last());
                let total = bytes_before(before, before.len() as int) as int;
                vstd::arithmetic::div_mod::lemma_add_mod_noop(total, added as int, 256);
                assert((added as int) % 256 == added as int);
                assert((total % 256) % 256 == total % 256) by {
                    vstd::arithmetic::div_mod::lemma_mod_twice(total, 256);
                }
            }
            byte_counter = ((byte_counter as u16 + added as u16) % 256) as u8;
            i = j;
        }
        assert(parse_from(tokens, i as int) == Some(Seq::<StatementSummary>::empty()));
        assert(summaries(stmts@) + Seq::<StatementSummary>::empty() =~= summaries(stmts@));
        assert(pos + statement_starts(tokens, i as int) =~= pos);
        self.current_index = i;
        self.root = RootNode { statements: stmts };
        Ok(&self.root)
    }
}

/// One parsed statement moves from the rest of the stream to the list.
proof fn lemma_parse_step(tokens: Seq<Token>, i: int, before: Seq<Statement>, s: Statement)
    requires
        0 <= i < tokens.len(),
        kind_at(tokens, i) != TokenType::Eof,
        statement_from(tokens, i) is Some,
        summary(s) == token_summary(tokens[i], (statement_from(tokens, i)->0).0),
    ensures
        (match parse_from(tokens, i) {
            Some(rest) => Some(summaries(before) + rest),
            None => None,
        }) == (match parse_from(tokens, (statement_from(tokens, i)->0).1) {
            Some(rest) => Some(summaries(before.push(s)) + rest),
            None => None::<Seq<StatementSummary>>,
        }),
{
    assert(summaries(before.push(s)) =~= summaries(before).push(summary(s)));
    match parse_from(tokens, (statement_from(tokens, i)->0).1) {
        Some(rest) => {
            assert(summaries(before) + (seq![summary(s)] + rest) =~= summaries(before).push(summary(s)) + rest);
        },
        None => {},
    }
}

} // verus!
