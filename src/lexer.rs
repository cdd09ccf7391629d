use vstd::prelude::*;
use crate::ops::{Ops, byte_count, param_count, op_of};
use crate::text::{
    alphabetic, alphanumeric, numeric, is_alphabetic, is_alphanumeric, is_numeric, push_char,
    error_at, split_lines, lines_of, chars_of, lemma_split_lines_nonempty,
};

verus! {

/// The kinds of token.
#[derive(PartialEq, Eq, Structural, Debug, Clone, Copy)]
pub enum TokenType {
    Op,
    Reg,
    PtrReg,
    Label,
    Identifier,
    Number,
    Plus,
    Minus,
    Comma,
    Dot,
    Eof,
}

/// The lexer's state within a line.
#[derive(PartialEq, Eq, Structural, Debug, Clone, Copy)]
pub enum LexerState {
    Base,
    Operand,
}

/// A token with its 1-based source position and the state it was read in.
#[derive(Clone, PartialEq, Debug)]
pub struct Token {
    pub token_type: TokenType,
    pub line: u32,
    pub column: u32,
    pub value: String,
    pub state: LexerState,
}

impl Token {
    pub fn create(token_type: TokenType, line: u32, column: u32, value: String, state: LexerState) -> (r: Token)
        ensures
            r.token_type == token_type,
            r.line == line,
            r.column == column,
            r.value@ == value@,
            r.state == state,
    {
        Token { token_type, line, column, value, state }
    }
}

/// Whether a token's text stands in `line` at its column: a pointer register
/// `(x)` starts at the parenthesis and holds the letter; any other token holds
/// exactly the characters found there.
pub open spec fn placed(line: Seq<char>, t: Token) -> bool {
    let col = t.column as int;
    let v = t.value@;
    &&& 1 <= col <= line.len()
    &&& v.len() >= 1
    &&& if t.token_type == TokenType::PtrReg {
        &&& col + 2 <= line.len()
        &&& line[col - 1] == '('
        &&& v == seq![line[col]]
        &&& line[col + 1] == ')'
    } else {
        &&& col - 1 + v.len() <= line.len()
        &&& line.subrange(col - 1, col - 1 + v.len()) == v
    }
}

/// Whether a token of a line sits where its position says in the text.
pub open spec fn placed_in(lines: Seq<Seq<char>>, t: Token) -> bool {
    &&& 1 <= t.line <= lines.len()
    &&& placed(lines[t.line - 1], t)
}

/// Characters that separate operands.
pub open spec fn blank(c: char) -> bool {
    c == ' ' || c == '\t' || c == '\r'
}

/// Characters after which a single letter counts as a register candidate.
pub open spec fn delimiter(c: char) -> bool {
    c == ',' || c == ' ' || c == '\n' || c == '/' || c == '\t' || c == '\r'
}

/// Whether a lone letter `a`..`d` reads as a register, given the line's
/// operation and the kind of the token just before it on the line.
pub open spec fn reads_as_register(op: Option<Ops>, prev: Option<TokenType>) -> bool {
    match op {
        None => false,
        Some(o) => if o == Ops::Byte {
            false
        } else if byte_count(o) == 2 && param_count(o) == 1 {
            false
        } else if byte_count(o) == 2 && param_count(o) == 2 {
            prev == Some(TokenType::Op)
        } else {
            true
        },
    }
}

/// The end of the run of identifier characters (and colons, if allowed) from `i`.
pub open spec fn word_end(line: Seq<char>, i: int, colon: bool) -> int
    decreases line.len() - i,
{
    if 0 <= i < line.len() && (alphanumeric(line[i]) || line[i] == '_' || (colon && line[i] == ':')) {
        word_end(line, i + 1, colon)
    } else {
        i
    }
}

/// The end of the run of numeric characters from `i`.
pub open spec fn digits_end(line: Seq<char>, i: int) -> int
    decreases line.len() - i,
{
    if 0 <= i < line.len() && numeric(line[i]) {
        digits_end(line, i + 1)
    } else {
        i
    }
}

/// A token as the lexer's contract sees it: kind, line, column, text, state.
pub type TokenView = (TokenType, u32, u32, Seq<char>, LexerState);

pub open spec fn token_view(t: Token) -> TokenView {
    (t.token_type, t.line, t.column, t.value@, t.state)
}

/// The token of kind `k` holding `line[a..b]`, at column `a + 1`.
pub open spec fn lexeme(k: TokenType, ln: u32, line: Seq<char>, a: int, b: int, st: LexerState) -> TokenView {
    (k, ln, (a + 1) as u32, line.subrange(a, b), st)
}

pub open spec fn last_kind_of(toks: Seq<TokenView>) -> Option<TokenType> {
    if toks.len() == 0 { None } else { Some(toks.last().0) }
}

/// Tokenizing line `ln` from position `i`, in state `st`, with the line's
/// operation `op` and the tokens `toks` read so far. `None` is a lexical
/// error; otherwise the tokens of the line and the state at its end.
pub open spec fn lex_from(
    strict: bool,
    line: Seq<char>,
    ln: u32,
    i: int,
    st: LexerState,
    op: Option<Ops>,
    toks: Seq<TokenView>,
) -> Option<(Seq<TokenView>, LexerState)>
    decreases line.len() - i via lex_from_decreases
{
    if i < 0 || i >= line.len() {
        Some((toks, st))
    } else {
        let c = line[i];
        let comment = i + 1 < line.len() && line[i + 1] == '/';
        if st == LexerState::Base {
            if alphabetic(c) {
                let end = word_end(line, i + 1, true);
                if line[end - 1] == ':' {
                    lex_from(strict, line, ln, end, LexerState::Operand, op,
                        toks.push(lexeme(TokenType::Label, ln, line, i, end, LexerState::Base)))
                } else {
                    lex_from(strict, line, ln, end, LexerState::Operand, op_of(line.subrange(i, end)),
                        toks.push(lexeme(TokenType::Op, ln, line, i, end, LexerState::Base)))
                }
            } else if c == '/' {
                if comment { Some((toks, st)) } else { None }
            } else if numeric(c) {
                None
            } else if blank(c) {
                lex_from(strict, line, ln, i + 1, st, op, toks)
            } else {
                None
            }
        } else {
            let one = |k: TokenType| toks.push(lexeme(k, ln, line, i, i + 1, LexerState::Operand));
            if c == ',' {
                lex_from(strict, line, ln, i + 1, st, op, one(TokenType::Comma))
            } else if c == '+' {
                lex_from(strict, line, ln, i + 1, st, op, one(TokenType::Plus))
            } else if c == '.' {
                lex_from(strict, line, ln, i + 1, st, op, one(TokenType::Dot))
            } else if c == '(' {
                if i + 2 < line.len() && (line[i + 1] == 'a' || line[i + 1] == 'b' || line[i + 1] == 'c'
                    || line[i + 1] == 'd') && line[i + 2] == ')' {
                    lex_from(strict, line, ln, i + 3, st, op,
                        toks.push((TokenType::PtrReg, ln, (i + 1) as u32, seq![line[i + 1]], LexerState::Operand)))
                } else {
                    None
                }
            } else if c == '/' {
                if comment { Some((toks, st)) } else { None }
            } else if c == '-' {
                if i + 1 < line.len() && numeric(line[i + 1]) {
                    let end = digits_end(line, i + 1);
                    lex_from(strict, line, ln, end, st, op,
                        toks.push(lexeme(TokenType::Number, ln, line, i, end, LexerState::Operand)))
                } else if i + 1 == line.len() || blank(line[i + 1]) {
                    lex_from(strict, line, ln, i + 1, st, op, one(TokenType::Minus))
                } else {
                    None
                }
            } else if blank(c) {
                lex_from(strict, line, ln, i + 1, st, op, toks)
            } else if alphabetic(c) || c == '_' {
                if i + 1 == line.len() || delimiter(line[i + 1]) {
                    if c == 'a' || c == 'b' || c == 'c' || c == 'd' {
                        if reads_as_register(op, last_kind_of(toks)) {
                            lex_from(strict, line, ln, i + 1, st, op, one(TokenType::Reg))
                        } else if strict {
                            None
                        } else {
                            lex_from(strict, line, ln, i + 1, st, op, one(TokenType::Identifier))
                        }
                    } else {
                        lex_from(strict, line, ln, i + 1, st, op, one(TokenType::Identifier))
                    }
                } else {
                    let end = word_end(line, i + 1, false);
                    let named = op_of(line.subrange(i, end));
                    if op is None && toks.len() == 1 && named is Some {
                        lex_from(strict, line, ln, end, st, named,
                            toks.push(lexeme(TokenType::Op, ln, line, i, end, LexerState::Operand)))
                    } else {
                        lex_from(strict, line, ln, end, st, op,
                            toks.push(lexeme(TokenType::Identifier, ln, line, i, end, LexerState::Operand)))
                    }
                }
            } else if numeric(c) {
                let end = digits_end(line, i + 1);
                lex_from(strict, line, ln, end, st, op,
                    toks.push(lexeme(TokenType::Number, ln, line, i, end, LexerState::Operand)))
            } else {
                None
            }
        }
    }
}

pub proof fn lemma_word_end(line: Seq<char>, i: int, colon: bool)
    requires
        0 <= i <= line.len(),
    ensures
        i <= word_end(line, i, colon) <= line.len(),
        forall|k: int| i <= k < word_end(line, i, colon) ==> (alphanumeric(#[trigger] line[k]) || line[k] == '_'
            || (colon && line[k] == ':')),
    decreases line.len() - i,
{
    if i < line.len() && (alphanumeric(line[i]) || line[i] == '_' || (colon && line[i] == ':')) {
        lemma_word_end(line, i + 1, colon);
    }
}

pub proof fn lemma_digits_end(line: Seq<char>, i: int)
    requires
        0 <= i <= line.len(),
    ensures
        i <= digits_end(line, i) <= line.len(),
    decreases line.len() - i,
{
    if i < line.len() && numeric(line[i]) {
        lemma_digits_end(line, i + 1);
    }
}

#[via_fn]
proof fn lex_from_decreases(
    strict: bool,
    line: Seq<char>,
    ln: u32,
    i: int,
    st: LexerState,
    op: Option<Ops>,
    toks: Seq<TokenView>,
) {
    if 0 <= i < line.len() {
        lemma_word_end(line, i + 1, true);
        lemma_word_end(line, i + 1, false);
        lemma_digits_end(line, i + 1);
    }
}

proof fn lemma_lex_lines_none(strict: bool, lines: Seq<Seq<char>>, m: int, n: int)
    requires
        0 <= m <= n,
        lex_lines(strict, lines, m) is None,
    ensures
        lex_lines(strict, lines, n) is None,
    decreases n - m,
{
    if m < n {
        lemma_lex_lines_none(strict, lines, m, n - 1);
    }
}

/// The views of a token sequence.
pub open spec fn views(s: Seq<Token>) -> Seq<TokenView> {
    s.map_values(|t: Token| token_view(t))
}

pub proof fn lemma_views_push(s: Seq<Token>, t: Token)
    ensures
        views(s.push(t)) == views(s).push(token_view(t)),
{
    assert(views(s.push(t)) =~= views(s).push(token_view(t)));
}

/// Tokenizing one line: the state starts at `Base` with no operation.
pub open spec fn lex_line(strict: bool, line: Seq<char>, ln: u32) -> Option<(Seq<TokenView>, LexerState)> {
    lex_from(strict, line, ln, 0, LexerState::Base, None, Seq::empty())
}

/// Tokenizing the first `k` lines, numbered from 1: the tokens of all of them
/// and the state at the end of the last.
pub open spec fn lex_lines(strict: bool, lines: Seq<Seq<char>>, k: int) -> Option<(Seq<TokenView>, LexerState)>
    decreases k,
{
    if k <= 0 {
        Some((Seq::empty(), LexerState::Base))
    } else {
        match lex_lines(strict, lines, k - 1) {
            None => None,
            Some((acc, _)) => match lex_line(strict, lines[k - 1], k as u32) {
                None => None,
                Some((t, st)) => Some((acc + t, st)),
            },
        }
    }
}

fn is_blank(c: char) -> (r: bool)
    ensures
        r == blank(c),
{
    c == ' ' || c == '\t' || c == '\r'
}

fn is_delimiter(c: char) -> (r: bool)
    ensures
        r == delimiter(c),
{
    c == ',' || c == ' ' || c == '\n' || c == '/' || c == '\t' || c == '\r'
}

fn is_register_letter(c: char) -> (r: bool)
    ensures
        r == (c == 'a' || c == 'b' || c == 'c' || c == 'd'),
{
    c == 'a' || c == 'b' || c == 'c' || c == 'd'
}

fn register_reading(op: Option<Ops>, prev: Option<TokenType>) -> (r: bool)
    ensures
        r == reads_as_register(op, prev),
{
    match op {
        None => false,
        Some(o) => {
            if o == Ops::Byte {
                false
            } else if o.get_byte_count() == 2 && o.get_op_param_count() == 1 {
                false
            } else if o.get_byte_count() == 2 && o.get_op_param_count() == 2 {
                prev == Some(TokenType::Op)
            } else {
                true
            }
        },
    }
}

/// The kind of the last token, if any.
fn last_kind(toks: &Vec<Token>) -> (r: Option<TokenType>)
    ensures
        r == if toks@.len() == 0 { None } else { Some(toks@.last().token_type) },
{
    if toks.len() == 0 {
        None
    } else {
        Some(toks[toks.len() - 1].token_type)
    }
}

/// The text of `line[start..end]`.
fn text_of(line: &Vec<char>, start: usize, end: usize) -> (r: String)
    requires
        start <= end <= line@.len(),
    ensures
        r@ == line@.subrange(start as int, end as int),
{
    let mut s = String::new();
    let mut i: usize = start;
    while i < end
        invariant
            start <= i <= end,
            end <= line@.len(),
            s@ == line@.subrange(start as int, i as int),
        decreases end - i,
    {
        push_char(&mut s, line[i]);
        i = i + 1;
    }
    s
}

/// The end of the run of characters from `i` that `keep` accepts.
fn scan_word(line: &Vec<char>, i: usize, with_colon: bool) -> (r: usize)
    requires
        i <= line@.len(),
    ensures
        i <= r <= line@.len(),
        r == word_end(line@, i as int, with_colon),
        forall|k: int| i <= k < r ==> (alphanumeric(#[trigger] line@[k]) || line@[k] == '_'
            || (with_colon && line@[k] == ':')),
{
    let mut j: usize = i;
    while j < line.len() && (is_alphanumeric(line[j]) || line[j] == '_' || (with_colon && line[j] == ':'))
        invariant
            i <= j <= line@.len(),
            word_end(line@, i as int, with_colon) == word_end(line@, j as int, with_colon),
            forall|k: int| i <= k < j ==> (alphanumeric(#[trigger] line@[k]) || line@[k] == '_'
                || (with_colon && line@[k] == ':')),
        decreases line@.len() - j,
    {
        j = j + 1;
    }
    j
}

/// The end of the run of numeric characters from `i`.
fn scan_digits(line: &Vec<char>, i: usize) -> (r: usize)
    requires
        i <= line@.len(),
    ensures
        i <= r <= line@.len(),
        r == digits_end(line@, i as int),
        forall|k: int| i <= k < r ==> numeric(#[trigger] line@[k]),
{
    let mut j: usize = i;
    while j < line.len() && is_numeric(line[j])
        invariant
            i <= j <= line@.len(),
            digits_end(line@, i as int) == digits_end(line@, j as int),
            forall|k: int| i <= k < j ==> numeric(#[trigger] line@[k]),
        decreases line@.len() - j,
    {
        j = j + 1;
    }
    j
}

/// The line-oriented tokenizer.
pub struct Lexer {
    current_state: LexerState,
}

/// Whether every token is one of line `ln` and sits where its position says.
pub open spec fn line_tokens_ok(line: Seq<char>, ln: u32, toks: Seq<Token>) -> bool {
    forall|k: int|
        0 <= k < toks.len() ==> {
            &&& (#[trigger] toks[k]).line == ln
            &&& toks[k].token_type != TokenType::Eof
            &&& placed(line, toks[k])
        }
}

/// A token holding `line[start..end]`, at column `start + 1`.
fn token_at(kind: TokenType, ln: u32, line: &Vec<char>, start: usize, end: usize, state: LexerState) -> (r: Token)
    requires
        start < end <= line@.len(),
        line@.len() < u32::MAX,
        kind != TokenType::PtrReg,
        kind != TokenType::Eof,
    ensures
        r.token_type == kind,
        r.line == ln,
        r.state == state,
        r.column == start + 1,
        r.value@ == line@.subrange(start as int, end as int),
        placed(line@, r),
        token_view(r) == lexeme(kind, ln, line@, start as int, end as int, state),
{
    let t = Token::create(kind, ln, (start + 1) as u32, text_of(line, start, end), state);
    assert(t.value@.len() == end - start);
    t
}

fn push_token(toks: &mut Vec<Token>, t: Token)
    ensures
        final(toks)@ == old(toks)@.push(t),
        views(final(toks)@) == views(old(toks)@).push(token_view(t)),
{
    proof {
        lemma_views_push(old(toks)@, t);
    }
    toks.push(t);
}

impl Lexer {
    pub fn create() -> (r: Lexer)
        ensures
            r.state() == LexerState::Base,
    {
        Lexer { current_state: LexerState::Base }
    }

    /// The state the lexer is in.
    pub closed spec fn state(&self) -> LexerState {
        self.current_state
    }

    /// Tokenize one line, numbered `ln`; the state starts over at `Base`.
    fn scan_line(&mut self, strict: bool, line: &Vec<char>, ln: u32) -> (r: Result<Vec<Token>, String>)
        requires
            line@.len() < u32::MAX,
        ensures
            r is Ok <==> lex_line(strict, line@, ln) is Some,
            r matches Ok(toks) ==> {
                &&& line_tokens_ok(line@, ln, toks@)
                &&& views(toks@) == (lex_line(strict, line@, ln)->0).0
                &&& final(self).state() == (lex_line(strict, line@, ln)->0).1
            },
    {
        self.current_state = LexerState::Base;
        let mut toks: Vec<Token> = Vec::new();
        let mut line_op: Option<Ops> = None;
        assert(views(toks@) =~= Seq::<TokenView>::empty());
        let n = line.len();
        let mut i: usize = 0;
        while i < n
            invariant
                i <= n,
                n == line@.len(),
                n < u32::MAX,
                line_tokens_ok(line@, ln, toks@),
                lex_line(strict, line@, ln) == lex_from(strict, line@, ln, i as int, self.current_state, line_op, views(toks@)),
            decreases n - i,
        {
            let c = line[i];
            let col: u32 = (i + 1) as u32;
            let prev = last_kind(&toks);
            if self.current_state == LexerState::Base {
                if is_alphabetic(c) {
                    let end = scan_word(line, i + 1, true);
                    if line[end - 1] == ':' {
                        push_token(&mut toks, token_at(TokenType::Label, ln, line, i, end, LexerState::Base));
                    } else {
                        let t = token_at(TokenType::Op, ln, line, i, end, LexerState::Base);
                        line_op = Ops::get_op(t.value.as_str());
                        push_token(&mut toks, t);
                    }
                    self.current_state = LexerState::Operand;
                    i = end;
                } else if c == '/' {
                    if i + 1 < n && line[i + 1] == '/' {
                        i = n;
                    } else {
                        return Err(error_at("Expected '/'", ln, col + 1));
                    }
                } else if is_numeric(c) {
                    return Err(error_at("Op codes or labels cannot start with a number", ln, col));
                } else if is_blank(c) {
                    i = i + 1;
                } else {
                    return Err(error_at("Unexpected character", ln, col));
                }
            } else {
                if c == ',' {
                    push_token(&mut toks, token_at(TokenType::Comma, ln, line, i, i + 1, LexerState::Operand));
                    i = i + 1;
                } else if c == '+' {
                    push_token(&mut toks, token_at(TokenType::Plus, ln, line, i, i + 1, LexerState::Operand));
                    i = i + 1;
                } else if c == '.' {
                    push_token(&mut toks, token_at(TokenType::Dot, ln, line, i, i + 1, LexerState::Operand));
                    i = i + 1;
                } else if c == '(' {
                    if i + 1 >= n {
                        return Err(error_at("Expected register identifier", ln, col + 1));
                    }
                    if !is_register_letter(line[i + 1]) {
                        return Err(error_at("Invalid register identifier", ln, col + 1));
                    }
                    if i + 2 >= n || line[i + 2] != ')' {
                        return Err(error_at("Expected ')' after pointer register identifier", ln, col + 2));
                    }
                    let t = token_at(TokenType::Reg, ln, line, i + 1, i + 2, LexerState::Operand);
                    let p = Token::create(TokenType::PtrReg, ln, col, t.value, LexerState::Operand);
                    assert(p.value@ =~= seq![line@[i + 1]]);
                    assert(placed(line@, p));
                    push_token(&mut toks, p);
                    i = i + 3;
                } else if c == '/' {
                    if i + 1 < n && line[i + 1] == '/' {
                        i = n;
                    } else {
                        return Err(error_at("Expected '/'", ln, col + 1));
                    }
                } else if c == '-' {
                    if i + 1 < n && is_numeric(line[i + 1]) {
                        let end = scan_digits(line, i + 1);
                        push_token(&mut toks, token_at(TokenType::Number, ln, line, i, end, LexerState::Operand));
                        i = end;
                    } else if i + 1 == n || is_blank(line[i + 1]) {
                        push_token(&mut toks, token_at(TokenType::Minus, ln, line, i, i + 1, LexerState::Operand));
                        i = i + 1;
                    } else {
                        return Err(error_at("Minus sign must precede a number, a space or the end of the line", ln, col));
                    }
                } else if is_blank(c) {
                    i = i + 1;
                } else if is_alphabetic(c) || c == '_' {
                    if i + 1 == n || is_delimiter(line[i + 1]) {
                        if is_register_letter(c) {
                            if register_reading(line_op, prev) {
                                push_token(&mut toks, token_at(TokenType::Reg, ln, line, i, i + 1, LexerState::Operand));
                            } else if strict {
                                return Err(error_at("Label identifier cannot be a register letter", ln, col));
                            } else {
                                push_token(&mut toks, token_at(TokenType::Identifier, ln, line, i, i + 1, LexerState::Operand));
                            }
                        } else {
                            push_token(&mut toks, token_at(TokenType::Identifier, ln, line, i, i + 1, LexerState::Operand));
                        }
                        i = i + 1;
                    } else {
                        let end = scan_word(line, i + 1, false);
                        let t = token_at(TokenType::Identifier, ln, line, i, end, LexerState::Operand);
                        let named = Ops::get_op(t.value.as_str());
                        if line_op.is_none() && toks.len() == 1 && named.is_some() {
                            // an instruction written after a label on the same line
                            line_op = named;
                            push_token(&mut toks, token_at(TokenType::Op, ln, line, i, end, LexerState::Operand));
                        } else {
                            push_token(&mut toks, t);
                        }
                        i = end;
                    }
                } else if is_numeric(c) {
                    let end = scan_digits(line, i + 1);
                    push_token(&mut toks, token_at(TokenType::Number, ln, line, i, end, LexerState::Operand));
                    i = end;
                } else {
                    return Err(error_at("Unexpected character", ln, col));
                }
            }
        }
        Ok(toks)
    }
}

/// What a token stream of `lines` satisfies: it ends with the one `Eof`
/// token, at line `lines.len() + 1`, column 1; every other token sits in the
/// text where its position says; line numbers never decrease.
pub open spec fn stream_ok(lines: Seq<Seq<char>>, toks: Seq<Token>) -> bool {
    &&& toks.len() >= 1
    &&& toks.last().token_type == TokenType::Eof
    &&& toks.last().line == lines.len() + 1
    &&& toks.last().column == 1
    &&& toks.last().value@ == "EOF"@
    &&& forall|k: int|
        0 <= k < toks.len() - 1 ==> {
            &&& (#[trigger] toks[k]).token_type != TokenType::Eof
            &&& placed_in(lines, toks[k])
        }
    &&& forall|j: int, k: int| 0 <= j <= k < toks.len() ==> #[trigger] toks[j].line <= #[trigger] toks[k].line
}

impl Lexer {
    /// Tokenize a source text, line by line, and end with an `Eof` token.
    pub fn tokenize(&mut self, strict: bool, input: &str) -> (r: Result<Vec<Token>, String>)
        requires
            input@.len() < u32::MAX - 1,
        ensures
            r is Ok <==> lex_lines(strict, split_lines(input@), split_lines(input@).len() as int) is Some,
            r matches Ok(toks) ==> {
                let lexed = lex_lines(strict, split_lines(input@), split_lines(input@).len() as int)->0;
                &&& stream_ok(split_lines(input@), toks@)
                &&& views(toks@.drop_last()) == lexed.0
                &&& toks@.last().state == lexed.1
            },
    {
        let chars = chars_of(input);
        let lines = lines_of(&chars);
        proof {
            lemma_split_lines_nonempty(input@);
        }
        let ghost ls = split_lines(input@);
        let mut tokens: Vec<Token> = Vec::new();
        let mut k: usize = 0;
        while k < lines.len()
            invariant
                k <= lines@.len(),
                ls == split_lines(input@),
                lines@.len() == ls.len(),
                ls.len() <= input@.len() + 1,
                input@.len() < u32::MAX - 1,
                forall|j: int| 0 <= j < lines@.len() ==> #[trigger] lines@[j]@ == ls[j],
                forall|j: int| 0 <= j < tokens@.len() ==> {
                    &&& (#[trigger] tokens@[j]).token_type != TokenType::Eof
                    &&& placed_in(ls, tokens@[j])
                    &&& tokens@[j].line <= k
                },
                forall|a: int, b: int| 0 <= a <= b < tokens@.len() ==> #[trigger] tokens@[a].line <= #[trigger] tokens@[b].line,
                lex_lines(strict, ls, k as int) is Some,
                views(tokens@) == (lex_lines(strict, ls, k as int)->0).0,
                k > 0 ==> self.state() == (lex_lines(strict, ls, k as int)->0).1,
            decreases lines@.len() - k,
        {
            assert(lines@[k as int]@ == ls[k as int]);
            proof {
                crate::text::lemma_line_length(input@, k as int);
            }
            let line_tokens = match self.scan_line(strict, &lines[k], (k + 1) as u32) {
                Ok(t) => t,
                Err(m) => {
                    proof {
                        lemma_lex_lines_none(strict, ls, k + 1, ls.len() as int);
                    }
                    return Err(m);
                },
            };
            let ghost before = tokens@;
            let mut more = line_tokens;
            tokens.append(&mut more);
            assert(views(tokens@) =~= views(before) + views(line_tokens@));
            assert forall|a: int| 0 <= a < tokens@.len() implies {
                &&& (#[trigger] tokens@[a]).token_type != TokenType::Eof
                &&& placed_in(ls, tokens@[a])
                &&& tokens@[a].line <= k + 1
            } by {
                if a >= before.len() {
                    assert(tokens@[a] == line_tokens@[a - before.len()]);
                }
            }
            k = k + 1;
        }
        let eof = Token::create(TokenType::Eof, (lines.len() + 1) as u32, 1, String::from_str("EOF"), self.current_state);
        let ghost body = tokens@;
        tokens.push(eof);
        assert(tokens@.drop_last() =~= body);
        Ok(tokens)
    }
}

/// The number of source characters a token spans: three for `(x)`, else its text.
pub open spec fn span(t: TokenView) -> int {
    if t.0 == TokenType::PtrReg { 3 } else { t.3.len() as int }
}

/// Whether position `p` of a line lies inside one of the tokens.
pub open spec fn covered(toks: Seq<TokenView>, p: int) -> bool {
    exists|k: int| 0 <= k < toks.len() && (#[trigger] toks[k]).2 - 1 <= p < toks[k].2 - 1 + span(toks[k])
}

/// Whether position `p` comes after the start of a `//` comment at or after `i`.
pub open spec fn commented(line: Seq<char>, i: int, p: int) -> bool {
    exists|q: int| i <= q <= p && q + 1 < line.len() && #[trigger] line[q] == '/' && line[q + 1] == '/'
}

/// What the lexer may leave out of its tokens at position `p`: a blank or a comment.
pub open spec fn ignorable(line: Seq<char>, toks: Seq<TokenView>, i: int, p: int) -> bool {
    blank(line[p]) || covered(toks, p) || commented(line, i, p)
}

proof fn lemma_covers_from(
    strict: bool,
    line: Seq<char>,
    ln: u32,
    i: int,
    st: LexerState,
    op: Option<Ops>,
    acc: Seq<TokenView>,
)
    requires
        0 <= i <= line.len(),
        line.len() < u32::MAX,
        lex_from(strict, line, ln, i, st, op, acc) is Some,
    ensures
        ({
            let toks = (lex_from(strict, line, ln, i, st, op, acc)->0).0;
            &&& toks.len() >= acc.len()
            &&& toks.subrange(0, acc.len() as int) == acc
            &&& forall|p: int| i <= p < line.len() ==> ignorable(line, toks, i, p)
            &&& forall|k: int| acc.len() <= k < toks.len() ==> (#[trigger] toks[k]).2 > i
            &&& forall|a: int, b: int| acc.len() <= a < b < toks.len() ==> (#[trigger] toks[a]).2 < (#[trigger] toks[b]).2
        }),
    decreases line.len() - i,
{
    let r = lex_from(strict, line, ln, i, st, op, acc);
    if i >= line.len() {
        assert((r->0).0.subrange(0, acc.len() as int) =~= acc);
        return;
    }
    let c = line[i];
    lemma_word_end(line, i + 1, true);
    lemma_word_end(line, i + 1, false);
    lemma_digits_end(line, i + 1);
    // The step taken at `i`: where it resumes, the tokens, the state and the operation after it.
    let (next, acc2, st2, op2) = if st == LexerState::Base {
        if alphabetic(c) {
            let end = word_end(line, i + 1, true);
            if line[end - 1] == ':' {
                (end, acc.push(lexeme(TokenType::Label, ln, line, i, end, LexerState::Base)), LexerState::Operand, op)
            } else {
                (end, acc.push(lexeme(TokenType::Op, ln, line, i, end, LexerState::Base)), LexerState::Operand,
                    op_of(line.subrange(i, end)))
            }
        } else {
            (i + 1, acc, st, op)
        }
    } else {
        let one = |k: TokenType| acc.push(lexeme(k, ln, line, i, i + 1, LexerState::Operand));
        if c == ',' {
            (i + 1, one(TokenType::Comma), st, op)
        } else if c == '+' {
            (i + 1, one(TokenType::Plus), st, op)
        } else if c == '.' {
            (i + 1, one(TokenType::Dot), st, op)
        } else if c == '(' {
            (i + 3, acc.push((TokenType::PtrReg, ln, (i + 1) as u32, seq![line[i + 1]], LexerState::Operand)), st, op)
        } else if c == '/' {
            (i + 1, acc, st, op)
        } else if c == '-' {
            if i + 1 < line.len() && numeric(line[i + 1]) {
                let end = digits_end(line, i + 1);
                (end, acc.push(lexeme(TokenType::Number, ln, line, i, end, LexerState::Operand)), st, op)
            } else {
                (i + 1, one(TokenType::Minus), st, op)
            }
        } else if blank(c) {
            (i + 1, acc, st, op)
        } else if alphabetic(c) || c == '_' {
            if i + 1 == line.len() || delimiter(line[i + 1]) {
                if (c == 'a' || c == 'b' || c == 'c' || c == 'd') && reads_as_register(op, last_kind_of(acc)) {
                    (i + 1, one(TokenType::Reg), st, op)
                } else {
                    (i + 1, one(TokenType::Identifier), st, op)
                }
            } else {
                let end = word_end(line, i + 1, false);
                let named = op_of(line.subrange(i, end));
                if op is None && acc.len() == 1 && named is Some {
                    (end, acc.push(lexeme(TokenType::Op, ln, line, i, end, LexerState::Operand)), st, named)
                } else {
                    (end, acc.push(lexeme(TokenType::Identifier, ln, line, i, end, LexerState::Operand)), st, op)
                }
            }
        } else {
            let end = digits_end(line, i + 1);
            (end, acc.push(lexeme(TokenType::Number, ln, line, i, end, LexerState::Operand)), st, op)
        }
    };
    let comment = c == '/' && !(st == LexerState::Base && alphabetic(c));
    if comment {
        let toks = (r->0).0;
        assert(i + 1 < line.len() && line[i + 1] == '/');
        assert(toks == acc);
        assert(toks.subrange(0, acc.len() as int) =~= acc);
        assert forall|p: int| i <= p < line.len() implies ignorable(line, toks, i, p) by {
            assert(commented(line, i, p));
        }
        return;
    }
    assert(r == lex_from(strict, line, ln, next, st2, op2, acc2));
    lemma_covers_from(strict, line, ln, next, st2, op2, acc2);
    let toks = (r->0).0;
    assert(toks.subrange(0, acc.len() as int) =~= toks.subrange(0, acc2.len() as int).subrange(0, acc.len() as int));
    if acc2.len() > acc.len() {
        let k0 = acc.len() as int;
        assert(toks[k0] == toks.subrange(0, acc2.len() as int)[k0]);
        assert(toks[k0] == acc2[k0]);
        assert(toks[k0].2 == i + 1);
    }
    assert forall|p: int| i <= p < line.len() implies ignorable(line, toks, i, p) by {
        if p < next {
            if acc2.len() > acc.len() {
                let k = acc.len() as int;
                assert(toks[k] == toks.subrange(0, acc2.len() as int)[k]);
                assert(toks[k] == acc2[k]);
                assert(covered(toks, p));
            }
        } else {
            assert(ignorable(line, toks, next, p));
            if commented(line, next, p) {
                let q = choose|q: int| next <= q <= p && q + 1 < line.len() && #[trigger] line[q] == '/' && line[q + 1] == '/';
                assert(commented(line, i, p));
            }
        }
    }
}

/// Lexing a line leaves nothing out but blanks and comments: every other
/// character lies inside one of its tokens; the tokens' columns strictly increase.
pub proof fn lemma_line_coverage(strict: bool, line: Seq<char>, ln: u32)
    requires
        line.len() < u32::MAX,
        lex_line(strict, line, ln) is Some,
    ensures
        forall|p: int| 0 <= p < line.len() ==> ignorable(line, (lex_line(strict, line, ln)->0).0, 0, p),
        forall|a: int, b: int| 0 <= a < b < (lex_line(strict, line, ln)->0).0.len()
            ==> (#[trigger] (lex_line(strict, line, ln)->0).0[a]).2 < (#[trigger] (lex_line(strict, line, ln)->0).0[b]).2,
{
    lemma_covers_from(strict, line, ln, 0, LexerState::Base, None, Seq::empty());
}

} // verus!
