//! The parser: from tokens to the syntax tree.
//!
//! The language is written in prefix form:
//!
//! ```text
//! program := stmt*
//! stmt    := ':=' id expr | '$print' expr | '$read' id | '$if' expr block block
//! block   := '{' stmt* '}'
//! expr    := id | num | binop expr expr | '~' expr
//! binop   := '+' | '-' | '*' | '/' | '<'
//! ```
//!
//! The functions whose names start with `sp_` say what each parsing step
//! yields on a sequence of tokens: a result, and the tokens that are left.

use vstd::prelude::*;
use vstd::string::StringExecFns;
use crate::ast::{
    BOp,
    Expr,
    ExprView,
    Program,
    ProgramView,
    Stmt,
    StmtView,
    lemma_if_view,
    stmts_view,
};
use crate::ident::{Id, id};
use crate::lex::{
    Token,
    TokenKind,
    TokenView,
    all_digits,
    chars_of,
    get_tokens,
    is_digit,
    char_is_digit,
    kind_name,
    lex_spec,
    tokens_view,
};

verus! {

/// Why a text is not a program.
#[derive(Debug, PartialEq, Eq)]
pub struct ParseError(pub String);

impl View for ParseError {
    type V = Seq<char>;

    open spec fn view(&self) -> Seq<char> {
        self.0@
    }
}

impl ParseError {
    /// The error as it is shown: `Parse error: ` and the message.
    pub fn to_text(&self) -> (r: String)
        ensures
            r@ == "Parse error: "@ + self@,
    {
        let mut s = String::from_str("Parse error: ");
        s.append(self.0.as_str());
        s
    }
}

/// The message for a token that is missing at the end of the input.
pub open spec fn msg_end() -> Seq<char> {
    "Unexpected end of input."@
}

/// The message for a token of the wrong kind.
pub open spec fn msg_expected_found(kind: TokenKind, actual: TokenView) -> Seq<char> {
    "Expected a token with kind "@ + kind_name(kind) + ", found a token with kind "@ + kind_name(
        actual.kind,
    ) + " and text `"@ + actual.text + "`."@
}

/// The message for a token of a given kind that is missing at the end of
/// the input.
pub open spec fn msg_expected_end(kind: TokenKind) -> Seq<char> {
    "Expected a token with kind "@ + kind_name(kind) + " but reached the end of input."@
}

/// The message for a token that can start neither a statement nor an
/// expression.
pub open spec fn msg_start(text: Seq<char>) -> Seq<char> {
    "Expected start of a statement, found "@ + text
}

/// The message for a number that is too large.
pub open spec fn msg_number(text: Seq<char>) -> Seq<char> {
    "Expected a number that fits in 64 bits, found "@ + text
}

/// The value of the digit `c`.
pub open spec fn digit_value(c: char) -> nat {
    (c as u32 - '0' as u32) as nat
}

/// The number that the digits of `s` write in decimal.
pub open spec fn digits_value(s: Seq<char>) -> nat
    decreases s.len(),
{
    if s.len() == 0 {
        0
    } else {
        digits_value(s.drop_last()) * 10 + digit_value(s.last())
    }
}

/// The literal that `s` writes: `s` is a run of digits, not empty, and its
/// number fits in a signed 64-bit integer.
pub open spec fn literal_value(s: Seq<char>) -> Option<int> {
    if s.len() > 0 && all_digits(s) && digits_value(s) <= i64::MAX {
        Some(digits_value(s) as int)
    } else {
        None
    }
}

/// The outcome of a parsing step: what it yields or why it fails, and the
/// tokens that are left.
pub struct Step<T> {
    pub result: Result<T, Seq<char>>,
    pub rest: Seq<TokenView>,
}

/// Takes the next token.
pub open spec fn sp_next(ts: Seq<TokenView>) -> Step<TokenView> {
    if ts.len() == 0 {
        Step { result: Err(msg_end()), rest: ts }
    } else {
        Step { result: Ok(ts[0]), rest: ts.skip(1) }
    }
}

/// Takes the next token if it is of kind `kind`, and fails without taking
/// anything if it is not.
pub open spec fn sp_expect(ts: Seq<TokenView>, kind: TokenKind) -> Step<TokenView> {
    if ts.len() > 0 && ts[0].kind == kind {
        Step { result: Ok(ts[0]), rest: ts.skip(1) }
    } else if ts.len() > 0 {
        Step { result: Err(msg_expected_found(kind, ts[0])), rest: ts }
    } else {
        Step { result: Err(msg_expected_end(kind)), rest: ts }
    }
}

/// The operator that a token kind writes, if it writes one.
pub open spec fn binop_of(kind: TokenKind) -> Option<BOp> {
    match kind {
        TokenKind::Plus => Some(BOp::Add),
        TokenKind::Minus => Some(BOp::Sub),
        TokenKind::Mul => Some(BOp::Mul),
        TokenKind::Div => Some(BOp::Div),
        TokenKind::Lt => Some(BOp::Lt),
        _ => None,
    }
}

/// Parses an expression.
pub open spec fn sp_expr(ts: Seq<TokenView>) -> Step<ExprView>
    decreases ts.len(), 0nat,
{
    let first = sp_next(ts);
    match first.result {
        Err(m) => Step { result: Err(m), rest: first.rest },
        Ok(tok) => {
            if tok.kind == TokenKind::Id {
                Step { result: Ok(ExprView::Var(tok.text)), rest: first.rest }
            } else if tok.kind == TokenKind::Num {
                match literal_value(tok.text) {
                    Some(n) => Step { result: Ok(ExprView::Const(n)), rest: first.rest },
                    None => Step { result: Err(msg_number(tok.text)), rest: first.rest },
                }
            } else if binop_of(tok.kind) is Some {
                sp_binop(first.rest, binop_of(tok.kind)->Some_0)
            } else if tok.kind == TokenKind::Tilde {
                let inner = sp_expr(first.rest);
                match inner.result {
                    Ok(e) => Step { result: Ok(ExprView::Negate(Box::new(e))), rest: inner.rest },
                    Err(m) => Step { result: Err(m), rest: inner.rest },
                }
            } else {
                Step { result: Err(msg_start(tok.text)), rest: first.rest }
            }
        },
    }
}

/// Parses the two operands of `op`.
pub open spec fn sp_binop(ts: Seq<TokenView>, op: BOp) -> Step<ExprView>
    decreases ts.len(), 1nat,
{
    let l = sp_expr(ts);
    match l.result {
        Err(m) => Step { result: Err(m), rest: l.rest },
        Ok(lhs) => {
            // What is left is never longer than what was there.
            if l.rest.len() <= ts.len() {
                let r = sp_expr(l.rest);
                match r.result {
                    Err(m) => Step { result: Err(m), rest: r.rest },
                    Ok(rhs) => Step {
                        result: Ok(ExprView::BinOp { op, lhs: Box::new(lhs), rhs: Box::new(rhs) }),
                        rest: r.rest,
                    },
                }
            } else {
                Step { result: Err(Seq::empty()), rest: l.rest }
            }
        },
    }
}

/// Parses a name.
pub open spec fn sp_id(ts: Seq<TokenView>) -> Step<Seq<char>> {
    let name = sp_expect(ts, TokenKind::Id);
    match name.result {
        Ok(t) => Step { result: Ok(t.text), rest: name.rest },
        Err(m) => Step { result: Err(m), rest: name.rest },
    }
}

/// Parses a statement.
pub open spec fn sp_stmt(ts: Seq<TokenView>) -> Step<StmtView>
    decreases ts.len(), 0nat,
{
    let first = sp_next(ts);
    match first.result {
        Err(m) => Step { result: Err(m), rest: first.rest },
        Ok(tok) => {
            if tok.kind == TokenKind::Assign {
                let name = sp_id(first.rest);
                match name.result {
                    Err(m) => Step { result: Err(m), rest: name.rest },
                    Ok(x) => {
                        let e = sp_expr(name.rest);
                        match e.result {
                            Err(m) => Step { result: Err(m), rest: e.rest },
                            Ok(v) => Step { result: Ok(StmtView::Assign(x, v)), rest: e.rest },
                        }
                    },
                }
            } else if tok.kind == TokenKind::Print {
                let e = sp_expr(first.rest);
                match e.result {
                    Err(m) => Step { result: Err(m), rest: e.rest },
                    Ok(v) => Step { result: Ok(StmtView::Print(v)), rest: e.rest },
                }
            } else if tok.kind == TokenKind::Read {
                let name = sp_id(first.rest);
                match name.result {
                    Err(m) => Step { result: Err(m), rest: name.rest },
                    Ok(x) => Step { result: Ok(StmtView::Read(x)), rest: name.rest },
                }
            } else if tok.kind == TokenKind::If {
                let g = sp_expr(first.rest);
                match g.result {
                    Err(m) => Step { result: Err(m), rest: g.rest },
                    Ok(guard) => {
                        // What is left is always shorter than what was there.
                        if g.rest.len() < ts.len() {
                            let t = sp_block(g.rest);
                            match t.result {
                                Err(m) => Step { result: Err(m), rest: t.rest },
                                Ok(tt) => {
                                    if t.rest.len() < ts.len() {
                                        let f = sp_block(t.rest);
                                        match f.result {
                                            Err(m) => Step { result: Err(m), rest: f.rest },
                                            Ok(ff) => Step {
                                                result: Ok(StmtView::If { guard, tt, ff }),
                                                rest: f.rest,
                                            },
                                        }
                                    } else {
                                        Step { result: Err(Seq::empty()), rest: t.rest }
                                    }
                                },
                            }
                        } else {
                            Step { result: Err(Seq::empty()), rest: g.rest }
                        }
                    },
                }
            } else {
                Step { result: Err(msg_start(tok.text)), rest: first.rest }
            }
        },
    }
}

/// Parses a block: statements between braces.
pub open spec fn sp_block(ts: Seq<TokenView>) -> Step<Seq<StmtView>>
    decreases ts.len(), 2nat,
{
    let open = sp_expect(ts, TokenKind::LBrace);
    match open.result {
        Err(m) => Step { result: Err(m), rest: open.rest },
        Ok(_) => sp_block_items(open.rest),
    }
}

/// Parses the statements of a block and the brace that closes it.
pub open spec fn sp_block_items(ts: Seq<TokenView>) -> Step<Seq<StmtView>>
    decreases ts.len(), 1nat,
{
    if ts.len() > 0 && ts[0].kind == TokenKind::RBrace {
        Step { result: Ok(Seq::empty()), rest: ts.skip(1) }
    } else {
        let s = sp_stmt(ts);
        match s.result {
            Err(m) => Step { result: Err(m), rest: s.rest },
            Ok(st) => {
                // What is left is always shorter than what was there.
                if s.rest.len() < ts.len() {
                    let more = sp_block_items(s.rest);
                    match more.result {
                        Err(m) => Step { result: Err(m), rest: more.rest },
                        Ok(ss) => Step { result: Ok(seq![st] + ss), rest: more.rest },
                    }
                } else {
                    Step { result: Err(Seq::empty()), rest: s.rest }
                }
            },
        }
    }
}

/// Parses statements until no token is left.
pub open spec fn sp_program(ts: Seq<TokenView>) -> Step<Seq<StmtView>>
    decreases ts.len(),
{
    if ts.len() == 0 {
        Step { result: Ok(Seq::empty()), rest: ts }
    } else {
        let s = sp_stmt(ts);
        match s.result {
            Err(m) => Step { result: Err(m), rest: s.rest },
            Ok(st) => {
                // What is left is always shorter than what was there.
                if s.rest.len() < ts.len() {
                    let more = sp_program(s.rest);
                    match more.result {
                        Err(m) => Step { result: Err(m), rest: more.rest },
                        Ok(ss) => Step { result: Ok(seq![st] + ss), rest: more.rest },
                    }
                } else {
                    Step { result: Err(Seq::empty()), rest: s.rest }
                }
            },
        }
    }
}

/// The program that `input` writes, or why it writes none.
pub open spec fn parse_spec(input: Seq<char>) -> Result<ProgramView, Seq<char>> {
    match sp_program(lex_spec(input)).result {
        Ok(stmts) => Ok(ProgramView { stmts }),
        Err(m) => Err(m),
    }
}

/// The mathematical value of what a parsing function returns.
pub open spec fn result_view<T: View>(r: Result<T, ParseError>) -> Result<T::V, Seq<char>> {
    match r {
        Ok(v) => Ok(v@),
        Err(e) => Err(e@),
    }
}

/// The mathematical value of what a function that parses statements
/// returns.
pub open spec fn stmts_result_view(r: Result<Vec<Stmt>, ParseError>) -> Result<
    Seq<StmtView>,
    Seq<char>,
> {
    match r {
        Ok(v) => Ok(stmts_view(v@)),
        Err(e) => Err(e@),
    }
}

/// The mathematical value of what `parse` returns.
pub open spec fn program_result_view(r: Result<Program, ParseError>) -> Result<
    ProgramView,
    Seq<char>,
> {
    match r {
        Ok(p) => Ok(p@),
        Err(e) => Err(e@),
    }
}

/// A step whose statements come after `front`.
pub open spec fn prepend(front: Seq<StmtView>, step: Step<Seq<StmtView>>) -> Step<Seq<StmtView>> {
    Step {
        result: match step.result {
            Ok(ss) => Ok(front + ss),
            Err(m) => Err(m),
        },
        rest: step.rest,
    }
}

/// A step whose statements come after none is the step itself.
pub proof fn lemma_prepend_nothing(step: Step<Seq<StmtView>>)
    ensures
        prepend(Seq::empty(), step) == step,
{
    match step.result {
        Ok(ss) => {
            assert(Seq::<StmtView>::empty() + ss =~= ss);
        },
        Err(_) => {},
    }
}

/// A step whose statements come after `front` and one more is the step
/// that comes after `front` when the one more is put first in it.
pub proof fn lemma_prepend_push(front: Seq<StmtView>, st: StmtView, step: Step<Seq<StmtView>>)
    ensures
        prepend(front.push(st), step) == prepend(front, prepend(seq![st], step)),
{
    match step.result {
        Ok(ss) => {
            assert(front + (seq![st] + ss) =~= front.push(st) + ss);
        },
        Err(_) => {},
    }
}

/// The number of a run of digits is at least the number of each run that
/// it starts with.
pub proof fn lemma_digits_value_grows(s: Seq<char>, k: int)
    requires
        0 <= k <= s.len(),
    ensures
        digits_value(s.take(k)) <= digits_value(s),
    decreases s.len(),
{
    if k == s.len() {
        assert(s.take(k) =~= s);
    } else {
        assert(s.drop_last().take(k) =~= s.take(k));
        lemma_digits_value_grows(s.drop_last(), k);
    }
}

/// The literal that `text` writes, if it writes one.
pub fn parse_literal(text: &str) -> (r: Option<i64>)
    ensures
        match r {
            Some(n) => literal_value(text@) == Some(n as int),
            None => literal_value(text@) is None,
        },
{
    let chars = chars_of(text);
    let ghost s = text@;
    if chars.len() == 0 {
        return None;
    }
    let mut acc: i64 = 0;
    let mut i: usize = 0;
    assert(s.take(0) =~= Seq::<char>::empty());
    while i < chars.len()
        invariant
            i <= chars@.len(),
            chars@ == s,
            s == text@,
            0 <= acc,
            acc == digits_value(s.take(i as int)),
            forall|j: int| 0 <= j < i ==> is_digit(#[trigger] s[j]),
        decreases chars@.len() - i,
    {
        let c = chars[i];
        if !char_is_digit(c) {
            assert(!all_digits(s)) by {
                if all_digits(s) {
                    assert(is_digit(s[i as int]));
                }
            }
            return None;
        }
        let d: i64 = (c as u32 - '0' as u32) as i64;
        proof {
            assert(s.take(i + 1).drop_last() =~= s.take(i as int));
            assert(s.take(i + 1).last() == c);
            assert(digits_value(s.take(i + 1)) == acc * 10 + d);
            lemma_digits_value_grows(s, i + 1);
        }
        if acc > (i64::MAX - d) / 10 {
            assert(acc * 10 + d > i64::MAX);
            return None;
        }
        acc = acc * 10 + d;
        i += 1;
    }
    assert(s.take(i as int) =~= s);
    Some(acc)
}

/// What is left of the input while it is parsed.
pub struct Parser<'input> {
    /// The tokens that are left, the next one last.
    pub tokens: Vec<Token<'input>>,
}

impl<'a> Parser<'a> {
    /// The tokens that are left, the next one first.
    pub open spec fn rest(&self) -> Seq<TokenView> {
        tokens_view(self.tokens@).reverse()
    }

    /// A parser on the tokens of `input`.
    pub fn new(input: &'a str) -> (r: Self)
        ensures
            r.rest() == lex_spec(input@),
    {
        let tokens = get_tokens(input);
        let mut reversed: Vec<Token<'a>> = Vec::new();
        let mut i: usize = tokens.len();
        while i > 0
            invariant
                i <= tokens@.len(),
                reversed@.len() == tokens@.len() - i,
                forall|j: int|
                    0 <= j < reversed@.len() ==> reversed@[j] == tokens@[tokens@.len() - 1 - j],
            decreases i,
        {
            i -= 1;
            reversed.push(tokens[i]);
        }
        assert(tokens_view(reversed@).reverse() =~= tokens_view(tokens@));
        Parser { tokens: reversed }
    }

    /// The next token, if there is one. Nothing is taken.
    pub fn peek(&self) -> (r: Option<Token<'a>>)
        ensures
            match r {
                Some(t) => self.rest().len() > 0 && t@ == self.rest()[0],
                None => self.rest().len() == 0,
            },
    {
        let n = self.tokens.len();
        if n == 0 {
            None
        } else {
            Some(self.tokens[n - 1])
        }
    }

    /// Takes the next token.
    pub fn next(&mut self) -> (r: Result<Token<'a>, ParseError>)
        ensures
            result_view(r) == sp_next(old(self).rest()).result,
            final(self).rest() == sp_next(old(self).rest()).rest,
    {
        match self.tokens.pop() {
            Some(t) => {
                assert(self.rest() =~= old(self).rest().skip(1));
                assert(t@ == old(self).rest()[0]);
                Ok(t)
            },
            None => Err(ParseError(String::from_str("Unexpected end of input."))),
        }
    }

    /// Whether the next token is of kind `kind`.
    pub fn next_is(&self, kind: TokenKind) -> (r: bool)
        ensures
            r == (self.rest().len() > 0 && self.rest()[0].kind == kind),
    {
        match self.peek() {
            Some(t) => t.kind == kind,
            None => false,
        }
    }

    /// Takes the next token if it is of kind `kind`, and says whether it
    /// did.
    pub fn eat(&mut self, kind: TokenKind) -> (r: bool)
        ensures
            r == (old(self).rest().len() > 0 && old(self).rest()[0].kind == kind),
            final(self).rest() == if r {
                old(self).rest().skip(1)
            } else {
                old(self).rest()
            },
    {
        if self.next_is(kind) {
            self.tokens.pop();
            assert(self.rest() =~= old(self).rest().skip(1));
            true
        } else {
            false
        }
    }

    /// Takes the next token if it is of kind `kind`, and fails without
    /// taking anything if it is not.
    pub fn expect(&mut self, kind: TokenKind) -> (r: Result<Token<'a>, ParseError>)
        ensures
            result_view(r) == sp_expect(old(self).rest(), kind).result,
            final(self).rest() == sp_expect(old(self).rest(), kind).rest,
    {
        if self.next_is(kind) {
            self.next()
        } else {
            match self.peek() {
                Some(actual) => {
                    let mut m = String::from_str("Expected a token with kind ");
                    m.append(kind.name());
                    m.append(", found a token with kind ");
                    m.append(actual.kind.name());
                    m.append(" and text `");
                    m.append(actual.text);
                    m.append("`.");
                    Err(ParseError(m))
                },
                None => {
                    let mut m = String::from_str("Expected a token with kind ");
                    m.append(kind.name());
                    m.append(" but reached the end of input.");
                    Err(ParseError(m))
                },
            }
        }
    }

    /// Parses statements until no token is left.
    pub fn parse_program(&mut self) -> (r: Result<Program, ParseError>)
        ensures
            program_result_view(r) == match sp_program(old(self).rest()).result {
                Ok(stmts) => Ok(ProgramView { stmts }),
                Err(m) => Err(m),
            },
            final(self).rest() == sp_program(old(self).rest()).rest,
            r is Ok ==> final(self).rest().len() == 0,
    {
        let mut stmts: Vec<Stmt> = Vec::new();
        let ghost start = self.rest();
        proof {
            lemma_prepend_nothing(sp_program(start));
        }
        while self.tokens.len() > 0
            invariant
                start == old(self).rest(),
                prepend(stmts_view(stmts@), sp_program(self.rest())) == sp_program(start),
            decreases self.rest().len(),
        {
            let ghost front = stmts_view(stmts@);
            assert(self.rest().len() == self.tokens@.len());
            match self.parse_stmt() {
                Ok(st) => {
                    stmts.push(st);
                    proof {
                        assert(stmts_view(stmts@) =~= front.push(st@));
                        lemma_prepend_push(front, st@, sp_program(self.rest()));
                    }
                },
                Err(e) => {
                    return Err(e);
                },
            }
        }
        proof {
            assert(self.rest().len() == self.tokens@.len());
            assert(stmts_view(stmts@) + Seq::<StmtView>::empty() =~= stmts_view(stmts@));
        }
        Ok(Program { stmts })
    }

    /// Parses a statement.
    pub fn parse_stmt(&mut self) -> (r: Result<Stmt, ParseError>)
        ensures
            result_view(r) == sp_stmt(old(self).rest()).result,
            final(self).rest() == sp_stmt(old(self).rest()).rest,
            final(self).rest().len() <= old(self).rest().len(),
            r is Ok ==> final(self).rest().len() < old(self).rest().len(),
        decreases old(self).rest().len(), 0nat,
    {
        let tok = match self.next() {
            Ok(t) => t,
            Err(e) => {
                return Err(e);
            },
        };
        match tok.kind {
            TokenKind::Assign => {
                let lhs = match self.parse_id() {
                    Ok(x) => x,
                    Err(e) => {
                        return Err(e);
                    },
                };
                match self.parse_expr() {
                    Ok(rhs) => Ok(Stmt::Assign(lhs, rhs)),
                    Err(e) => Err(e),
                }
            },
            TokenKind::Print => {
                match self.parse_expr() {
                    Ok(e) => Ok(Stmt::Print(e)),
                    Err(e) => Err(e),
                }
            },
            TokenKind::Read => {
                match self.parse_id() {
                    Ok(x) => Ok(Stmt::Read(x)),
                    Err(e) => Err(e),
                }
            },
            TokenKind::If => {
                let guard = match self.parse_expr() {
                    Ok(g) => g,
                    Err(e) => {
                        return Err(e);
                    },
                };
                let tt = match self.parse_block() {
                    Ok(b) => b,
                    Err(e) => {
                        return Err(e);
                    },
                };
                let ff = match self.parse_block() {
                    Ok(b) => b,
                    Err(e) => {
                        return Err(e);
                    },
                };
                let st = Stmt::If { guard, tt, ff };
                proof {
                    lemma_if_view(st);
                }
                Ok(st)
            },
            _ => {
                let mut m = String::from_str("Expected start of a statement, found ");
                m.append(tok.text);
                Err(ParseError(m))
            },
        }
    }

    /// Parses a name.
    pub fn parse_id(&mut self) -> (r: Result<Id, ParseError>)
        ensures
            result_view(r) == sp_id(old(self).rest()).result,
            final(self).rest() == sp_id(old(self).rest()).rest,
            final(self).rest().len() <= old(self).rest().len(),
    {
        match self.expect(TokenKind::Id) {
            Ok(t) => Ok(id(t.text)),
            Err(e) => Err(e),
        }
    }

    /// Parses a block: statements between braces.
    pub fn parse_block(&mut self) -> (r: Result<Vec<Stmt>, ParseError>)
        ensures
            stmts_result_view(r) == sp_block(old(self).rest()).result,
            final(self).rest() == sp_block(old(self).rest()).rest,
            final(self).rest().len() <= old(self).rest().len(),
        decreases old(self).rest().len(), 2nat,
    {
        let mut stmts: Vec<Stmt> = Vec::new();
        match self.expect(TokenKind::LBrace) {
            Ok(_) => {},
            Err(e) => {
                return Err(e);
            },
        }
        let ghost start = self.rest();
        proof {
            lemma_prepend_nothing(sp_block_items(start));
        }
        loop
            invariant
                sp_block(old(self).rest()) == sp_block_items(start),
                prepend(stmts_view(stmts@), sp_block_items(self.rest())) == sp_block_items(start),
                self.rest().len() <= start.len(),
                start.len() < old(self).rest().len(),
            decreases self.rest().len(),
        {
            if self.eat(TokenKind::RBrace) {
                proof {
                    assert(stmts_view(stmts@) + Seq::<StmtView>::empty() =~= stmts_view(stmts@));
                }
                return Ok(stmts);
            }
            let ghost front = stmts_view(stmts@);
            match self.parse_stmt() {
                Ok(st) => {
                    stmts.push(st);
                    proof {
                        assert(stmts_view(stmts@) =~= front.push(st@));
                        lemma_prepend_push(front, st@, sp_block_items(self.rest()));
                    }
                },
                Err(e) => {
                    return Err(e);
                },
            }
        }
    }

    /// Parses an expression.
    pub fn parse_expr(&mut self) -> (r: Result<Expr, ParseError>)
        ensures
            result_view(r) == sp_expr(old(self).rest()).result,
            final(self).rest() == sp_expr(old(self).rest()).rest,
            final(self).rest().len() <= old(self).rest().len(),
            r is Ok ==> final(self).rest().len() < old(self).rest().len(),
        decreases old(self).rest().len(), 0nat,
    {
        let tok = match self.next() {
            Ok(t) => t,
            Err(e) => {
                return Err(e);
            },
        };
        match tok.kind {
            TokenKind::Id => Ok(Expr::Var(id(tok.text))),
            TokenKind::Num => {
                match parse_literal(tok.text) {
                    Some(n) => Ok(Expr::Const(n)),
                    None => {
                        let mut m = String::from_str(
                            "Expected a number that fits in 64 bits, found ",
                        );
                        m.append(tok.text);
                        Err(ParseError(m))
                    },
                }
            },
            TokenKind::Plus => self.parse_binop(BOp::Add),
            TokenKind::Minus => self.parse_binop(BOp::Sub),
            TokenKind::Mul => self.parse_binop(BOp::Mul),
            TokenKind::Div => self.parse_binop(BOp::Div),
            TokenKind::Lt => self.parse_binop(BOp::Lt),
            TokenKind::Tilde => {
                match self.parse_expr() {
                    Ok(e) => Ok(Expr::Negate(Box::new(e))),
                    Err(e) => Err(e),
                }
            },
            _ => {
                let mut m = String::from_str("Expected start of a statement, found ");
                m.append(tok.text);
                Err(ParseError(m))
            },
        }
    }

    /// Parses the two operands of `op`.
    pub fn parse_binop(&mut self, op: BOp) -> (r: Result<Expr, ParseError>)
        ensures
            result_view(r) == sp_binop(old(self).rest(), op).result,
            final(self).rest() == sp_binop(old(self).rest(), op).rest,
            final(self).rest().len() <= old(self).rest().len(),
        decreases old(self).rest().len(), 1nat,
    {
        let lhs = match self.parse_expr() {
            Ok(e) => e,
            Err(e) => {
                return Err(e);
            },
        };
        let rhs = match self.parse_expr() {
            Ok(e) => e,
            Err(e) => {
                return Err(e);
            },
        };
        Ok(Expr::BinOp { op, lhs: Box::new(lhs), rhs: Box::new(rhs) })
    }
}

/// Parses `input` as a program.
///
/// A program is parsed only when every token has been used, so the check
/// for tokens that are left over never fails.
pub fn parse(input: &str) -> (r: Result<Program, ParseError>)
    ensures
        program_result_view(r) == parse_spec(input@),
{
    let mut parser = Parser::new(input);
    match parser.parse_program() {
        Err(e) => Err(e),
        Ok(program) => {
            assert(parser.rest().len() == parser.tokens@.len());
            if parser.tokens.len() > 0 {
                Err(
                    ParseError(
                        String::from_str(
                            "There are still leftover tokens after reading a whole program.",
                        ),
                    ),
                )
            } else {
                Ok(program)
            }
        },
    }
}

} // verus!
