//! The grammar as a way of writing: the tokens that write a tree, and the
//! proof that parsing them gives the tree back.

use vstd::prelude::*;
use crate::ast::{BOp, ExprView, ProgramView, StmtView};
use crate::lex::{
    TokenKind,
    TokenView,
    all_digits,
    fixed_text,
    is_digit,
    lemma_tokens_well_shaped,
    lex_spec,
    well_shaped,
};
use crate::names::{decimal, digit_char};
use crate::parse::{
    Step,
    binop_of,
    digit_value,
    digits_value,
    literal_value,
    parse_spec,
    sp_binop,
    sp_block,
    sp_block_items,
    sp_expect,
    sp_expr,
    sp_id,
    sp_program,
    sp_stmt,
};

verus! {

/// What is left after an expression is never longer than what was there,
/// and is shorter if the expression was parsed.
pub proof fn lemma_expr_consumes(ts: Seq<TokenView>)
    ensures
        sp_expr(ts).rest.len() <= ts.len(),
        sp_expr(ts).result is Ok ==> sp_expr(ts).rest.len() < ts.len(),
    decreases ts.len(), 0nat,
{
    if ts.len() > 0 {
        let tok = ts[0];
        let rest = ts.skip(1);
        if tok.kind == TokenKind::Id || tok.kind == TokenKind::Num {
        } else if binop_of(tok.kind) is Some {
            lemma_binop_consumes(rest, binop_of(tok.kind)->Some_0);
        } else if tok.kind == TokenKind::Tilde {
            lemma_expr_consumes(rest);
        }
    }
}

/// What is left after two operands is never longer than what was there.
pub proof fn lemma_binop_consumes(ts: Seq<TokenView>, op: BOp)
    ensures
        sp_binop(ts, op).rest.len() <= ts.len(),
    decreases ts.len(), 1nat,
{
    lemma_expr_consumes(ts);
    let l = sp_expr(ts);
    if l.result is Ok {
        lemma_expr_consumes(l.rest);
    }
}

/// What is left after a statement is never longer than what was there, and
/// is shorter if the statement was parsed.
pub proof fn lemma_stmt_consumes(ts: Seq<TokenView>)
    ensures
        sp_stmt(ts).rest.len() <= ts.len(),
        sp_stmt(ts).result is Ok ==> sp_stmt(ts).rest.len() < ts.len(),
    decreases ts.len(), 0nat,
{
    if ts.len() > 0 {
        let tok = ts[0];
        let rest = ts.skip(1);
        if tok.kind == TokenKind::Assign {
            let name = sp_id(rest);
            if name.result is Ok {
                lemma_expr_consumes(name.rest);
            }
        } else if tok.kind == TokenKind::Print {
            lemma_expr_consumes(rest);
        } else if tok.kind == TokenKind::Read {
        } else if tok.kind == TokenKind::If {
            lemma_expr_consumes(rest);
            let g = sp_expr(rest);
            if g.result is Ok {
                lemma_block_consumes(g.rest);
                let t = sp_block(g.rest);
                if t.result is Ok {
                    lemma_block_consumes(t.rest);
                }
            }
        }
    }
}

/// What is left after a block is never longer than what was there, and is
/// shorter if the block was parsed.
pub proof fn lemma_block_consumes(ts: Seq<TokenView>)
    ensures
        sp_block(ts).rest.len() <= ts.len(),
        sp_block(ts).result is Ok ==> sp_block(ts).rest.len() < ts.len(),
    decreases ts.len(), 2nat,
{
    let open = sp_expect(ts, TokenKind::LBrace);
    if open.result is Ok {
        lemma_block_items_consumes(open.rest);
    }
}

/// What is left after the statements of a block is never longer than what
/// was there, and is shorter if they were parsed.
pub proof fn lemma_block_items_consumes(ts: Seq<TokenView>)
    ensures
        sp_block_items(ts).rest.len() <= ts.len(),
        sp_block_items(ts).result is Ok ==> sp_block_items(ts).rest.len() < ts.len(),
    decreases ts.len(), 1nat,
{
    if ts.len() > 0 && ts[0].kind == TokenKind::RBrace {
    } else {
        lemma_stmt_consumes(ts);
        let s = sp_stmt(ts);
        if s.result is Ok {
            lemma_block_items_consumes(s.rest);
        }
    }
}

/// A program that was parsed has used up every token: nothing is ever left
/// over after it.
pub proof fn lemma_program_consumes(ts: Seq<TokenView>)
    ensures
        sp_program(ts).rest.len() <= ts.len(),
        sp_program(ts).result is Ok ==> sp_program(ts).rest.len() == 0,
    decreases ts.len(),
{
    if ts.len() > 0 {
        lemma_stmt_consumes(ts);
        let s = sp_stmt(ts);
        if s.result is Ok {
            lemma_program_consumes(s.rest);
        }
    }
}

/// The token that writes `op`.
pub open spec fn op_token(op: BOp) -> TokenView {
    match op {
        BOp::Add => TokenView { kind: TokenKind::Plus, text: seq!['+'] },
        BOp::Sub => TokenView { kind: TokenKind::Minus, text: seq!['-'] },
        BOp::Mul => TokenView { kind: TokenKind::Mul, text: seq!['*'] },
        BOp::Div => TokenView { kind: TokenKind::Div, text: seq!['/'] },
        BOp::Lt => TokenView { kind: TokenKind::Lt, text: seq!['<'] },
    }
}

/// The token of kind `kind` whose text is `text`.
pub open spec fn token(kind: TokenKind, text: Seq<char>) -> Seq<TokenView> {
    seq![TokenView { kind, text }]
}

/// The tokens that write `e`, in prefix form. A literal is written in
/// decimal.
pub open spec fn expr_tokens(e: ExprView) -> Seq<TokenView>
    decreases e,
{
    match e {
        ExprView::Var(x) => token(TokenKind::Id, x),
        ExprView::Const(n) => token(TokenKind::Num, decimal(n as nat)),
        ExprView::BinOp { op, lhs, rhs } => seq![op_token(op)] + expr_tokens(*lhs) + expr_tokens(
            *rhs,
        ),
        ExprView::Negate(inner) => token(TokenKind::Tilde, seq!['~']) + expr_tokens(*inner),
    }
}

/// The tokens that write `s`.
pub open spec fn stmt_tokens(s: StmtView) -> Seq<TokenView>
    decreases s, 0nat,
{
    match s {
        StmtView::Assign(x, e) => token(TokenKind::Assign, seq![':', '=']) + token(
            TokenKind::Id,
            x,
        ) + expr_tokens(e),
        StmtView::Print(e) => token(TokenKind::Print, seq!['$', 'p', 'r', 'i', 'n', 't'])
            + expr_tokens(e),
        StmtView::Read(x) => token(TokenKind::Read, seq!['$', 'r', 'e', 'a', 'd']) + token(
            TokenKind::Id,
            x,
        ),
        StmtView::If { guard, tt, ff } => token(TokenKind::If, seq!['$', 'i', 'f']) + expr_tokens(
            guard,
        ) + block_tokens(tt) + block_tokens(ff),
    }
}

/// The tokens that write the statements of `ss` from the one at `from` on.
pub open spec fn stmts_tokens(ss: Seq<StmtView>, from: nat) -> Seq<TokenView>
    decreases ss, ss.len() - from,
{
    if from >= ss.len() {
        Seq::empty()
    } else {
        stmt_tokens(ss[from as int]) + stmts_tokens(ss, from + 1)
    }
}

/// The tokens that write the block of the statements `ss`.
pub open spec fn block_tokens(ss: Seq<StmtView>) -> Seq<TokenView>
    decreases ss, ss.len() + 1,
{
    token(TokenKind::LBrace, seq!['{']) + stmts_tokens(ss, 0) + token(
        TokenKind::RBrace,
        seq!['}'],
    )
}

/// The tokens that write `p`.
pub open spec fn program_tokens(p: ProgramView) -> Seq<TokenView> {
    stmts_tokens(p.stmts, 0)
}

/// Whether `e` can be written: each of its literals is one that a run of
/// digits writes.
pub open spec fn writable_expr(e: ExprView) -> bool
    decreases e,
{
    match e {
        ExprView::Var(_) => true,
        ExprView::Const(n) => 0 <= n <= i64::MAX,
        ExprView::BinOp { op: _, lhs, rhs } => writable_expr(*lhs) && writable_expr(*rhs),
        ExprView::Negate(inner) => writable_expr(*inner),
    }
}

/// Whether `s` can be written.
pub open spec fn writable_stmt(s: StmtView) -> bool
    decreases s, 0nat,
{
    match s {
        StmtView::Assign(_, e) => writable_expr(e),
        StmtView::Print(e) => writable_expr(e),
        StmtView::Read(_) => true,
        StmtView::If { guard, tt, ff } => writable_expr(guard) && writable_stmts(tt, 0)
            && writable_stmts(ff, 0),
    }
}

/// Whether the statements of `ss` from the one at `from` on can be written.
pub open spec fn writable_stmts(ss: Seq<StmtView>, from: nat) -> bool
    decreases ss, ss.len() - from,
{
    if from >= ss.len() {
        true
    } else {
        writable_stmt(ss[from as int]) && writable_stmts(ss, from + 1)
    }
}

/// The decimal numeral of a number is a run of digits that writes it.
pub proof fn lemma_decimal_value(n: nat)
    ensures
        decimal(n).len() > 0,
        all_digits(decimal(n)),
        digits_value(decimal(n)) == n,
    decreases n,
{
    assert(forall|d: nat|
        d < 10 ==> is_digit(#[trigger] digit_char(d)) && digit_value(digit_char(d)) == d);
    if n < 10 {
        assert(decimal(n).drop_last() =~= Seq::<char>::empty());
        assert(digits_value(decimal(n).drop_last()) == 0);
    } else {
        lemma_decimal_value(n / 10);
        assert(decimal(n).drop_last() =~= decimal(n / 10));
        assert(decimal(n).last() == digit_char(n % 10));
    }
}

/// Parsing the tokens that write an expression gives the expression back
/// and leaves what follows them.
pub proof fn lemma_expr_round_trip(e: ExprView, rest: Seq<TokenView>)
    requires
        writable_expr(e),
    ensures
        sp_expr(expr_tokens(e) + rest) == (Step { result: Ok(e), rest }),
    decreases e,
{
    let ts = expr_tokens(e) + rest;
    match e {
        ExprView::Var(x) => {
            assert(ts.skip(1) =~= rest);
        },
        ExprView::Const(n) => {
            assert(ts.skip(1) =~= rest);
            lemma_decimal_value(n as nat);
        },
        ExprView::BinOp { op, lhs, rhs } => {
            let after_l = expr_tokens(*rhs) + rest;
            assert(ts.skip(1) =~= expr_tokens(*lhs) + after_l);
            assert(binop_of(op_token(op).kind) == Some(op));
            lemma_expr_round_trip(*lhs, after_l);
            lemma_expr_round_trip(*rhs, rest);
            assert(after_l.len() <= ts.skip(1).len());
            assert(sp_binop(ts.skip(1), op) == (Step { result: Ok(e), rest }));
        },
        ExprView::Negate(inner) => {
            assert(ts.skip(1) =~= expr_tokens(*inner) + rest);
            lemma_expr_round_trip(*inner, rest);
        },
    }
}

/// The tokens that write a statement start with none that closes a block.
pub proof fn lemma_stmt_tokens_start(s: StmtView)
    ensures
        stmt_tokens(s).len() > 0,
        stmt_tokens(s)[0].kind != TokenKind::RBrace,
{
}

/// Parsing the tokens that write a statement gives the statement back and
/// leaves what follows them.
pub proof fn lemma_stmt_round_trip(s: StmtView, rest: Seq<TokenView>)
    requires
        writable_stmt(s),
    ensures
        sp_stmt(stmt_tokens(s) + rest) == (Step { result: Ok(s), rest }),
    decreases s, 0nat,
{
    let ts = stmt_tokens(s) + rest;
    match s {
        StmtView::Assign(x, e) => {
            let after = expr_tokens(e) + rest;
            assert(ts.skip(1) =~= token(TokenKind::Id, x) + after);
            assert(ts.skip(1).skip(1) =~= after);
            lemma_expr_round_trip(e, rest);
        },
        StmtView::Print(e) => {
            assert(ts.skip(1) =~= expr_tokens(e) + rest);
            lemma_expr_round_trip(e, rest);
        },
        StmtView::Read(x) => {
            assert(ts.skip(1) =~= token(TokenKind::Id, x) + rest);
            assert(ts.skip(1).skip(1) =~= rest);
        },
        StmtView::If { guard, tt, ff } => {
            let after_tt = block_tokens(ff) + rest;
            let after_g = block_tokens(tt) + after_tt;
            assert(ts.skip(1) =~= expr_tokens(guard) + after_g);
            lemma_expr_round_trip(guard, after_g);
            lemma_block_round_trip(tt, after_tt);
            lemma_block_round_trip(ff, rest);
        },
    }
}

/// Parsing the tokens that write a block gives its statements back and
/// leaves what follows them.
pub proof fn lemma_block_round_trip(ss: Seq<StmtView>, rest: Seq<TokenView>)
    requires
        writable_stmts(ss, 0),
    ensures
        sp_block(block_tokens(ss) + rest) == (Step { result: Ok(ss), rest }),
    decreases ss, ss.len() + 1,
{
    let ts = block_tokens(ss) + rest;
    let close = token(TokenKind::RBrace, seq!['}']);
    assert(ts.skip(1) =~= stmts_tokens(ss, 0) + close + rest);
    lemma_block_items_round_trip(ss, 0, rest);
    assert(ss.skip(0) =~= ss);
}

/// Parsing the tokens that write the statements of a block from the one at
/// `from` on, and the brace that closes it, gives those statements back
/// and leaves what follows them.
pub proof fn lemma_block_items_round_trip(ss: Seq<StmtView>, from: nat, rest: Seq<TokenView>)
    requires
        from <= ss.len(),
        writable_stmts(ss, from),
    ensures
        sp_block_items(
            stmts_tokens(ss, from) + token(TokenKind::RBrace, seq!['}']) + rest,
        ) == (Step { result: Ok(ss.skip(from as int)), rest }),
    decreases ss, ss.len() - from,
{
    let close = token(TokenKind::RBrace, seq!['}']);
    let ts = stmts_tokens(ss, from) + close + rest;
    if from >= ss.len() {
        assert(ts =~= close + rest);
        assert(ts.skip(1) =~= rest);
        assert(ss.skip(from as int) =~= Seq::<StmtView>::empty());
    } else {
        let st = ss[from as int];
        let after = stmts_tokens(ss, from + 1) + close + rest;
        assert(ts =~= stmt_tokens(st) + after);
        lemma_stmt_tokens_start(st);
        assert(ts[0] == stmt_tokens(st)[0]);
        lemma_stmt_round_trip(st, after);
        lemma_block_items_round_trip(ss, from + 1, rest);
        assert(seq![st] + ss.skip(from as int + 1) =~= ss.skip(from as int));
    }
}

/// Parsing the tokens that write the statements from the one at `from` on
/// gives those statements back and leaves nothing.
pub proof fn lemma_stmts_round_trip(ss: Seq<StmtView>, from: nat)
    requires
        from <= ss.len(),
        writable_stmts(ss, from),
    ensures
        sp_program(stmts_tokens(ss, from)) == (Step {
            result: Ok(ss.skip(from as int)),
            rest: Seq::empty(),
        }),
    decreases ss.len() - from,
{
    let ts = stmts_tokens(ss, from);
    if from >= ss.len() {
        assert(ss.skip(from as int) =~= Seq::<StmtView>::empty());
    } else {
        let st = ss[from as int];
        let after = stmts_tokens(ss, from + 1);
        lemma_stmt_tokens_start(st);
        lemma_stmt_round_trip(st, after);
        lemma_stmts_round_trip(ss, from + 1);
        assert(seq![st] + ss.skip(from as int + 1) =~= ss.skip(from as int));
    }
}

/// Every program that can be written is parsed from the tokens that write
/// it.
pub proof fn lemma_program_round_trip(p: ProgramView)
    requires
        writable_stmts(p.stmts, 0),
    ensures
        sp_program(program_tokens(p)) == (Step { result: Ok(p.stmts), rest: Seq::empty() }),
{
    lemma_stmts_round_trip(p.stmts, 0);
    assert(p.stmts.skip(0) =~= p.stmts);
}

/// Whether two tokens mean the same: they are of the same kind, with the
/// same text if they are names, and the same value if they are numbers.
pub open spec fn same_token(a: TokenView, b: TokenView) -> bool {
    &&& a.kind == b.kind
    &&& a.kind == TokenKind::Id ==> a.text == b.text
    &&& a.kind == TokenKind::Num ==> literal_value(a.text) == literal_value(b.text)
}

/// Whether two sequences of tokens mean the same, token for token.
pub open spec fn same_tokens(a: Seq<TokenView>, b: Seq<TokenView>) -> bool {
    &&& a.len() == b.len()
    &&& forall|i: int| 0 <= i < a.len() ==> same_token(#[trigger] a[i], b[i])
}

/// The number of tokens that a step has used.
pub open spec fn used<T>(ts: Seq<TokenView>, step: Step<T>) -> int {
    ts.len() - step.rest.len()
}

/// Whether a step has used the first tokens of `ts`, and they mean the same
/// as `written`.
pub open spec fn used_as<T>(ts: Seq<TokenView>, step: Step<T>, written: Seq<TokenView>) -> bool {
    &&& 0 <= used(ts, step) <= ts.len()
    &&& step.rest == ts.skip(used(ts, step))
    &&& same_tokens(ts.take(used(ts, step)), written)
}

/// Sequences that mean the same piece by piece mean the same as wholes.
pub proof fn lemma_same_tokens_concat(
    a1: Seq<TokenView>,
    b1: Seq<TokenView>,
    a2: Seq<TokenView>,
    b2: Seq<TokenView>,
)
    requires
        same_tokens(a1, b1),
        same_tokens(a2, b2),
    ensures
        same_tokens(a1 + a2, b1 + b2),
{
    assert forall|i: int| 0 <= i < (a1 + a2).len() implies same_token(
        #[trigger] (a1 + a2)[i],
        (b1 + b2)[i],
    ) by {
        if i < a1.len() {
            assert(same_token(a1[i], b1[i]));
        } else {
            assert(same_token(a2[i - a1.len()], b2[i - a1.len()]));
        }
    }
}

/// A step that follows the taking of one token, and used tokens that mean
/// `written`, has used, with that token, tokens that mean `first` and
/// `written`.
pub proof fn lemma_used_after_one<T>(
    ts: Seq<TokenView>,
    step: Step<T>,
    first: TokenView,
    written: Seq<TokenView>,
)
    requires
        ts.len() > 0,
        same_token(ts[0], first),
        used_as(ts.skip(1), step, written),
    ensures
        used_as(ts, step, seq![first] + written),
{
    let k = used(ts.skip(1), step);
    assert(ts.skip(1).skip(k) =~= ts.skip(k + 1));
    assert(ts.take(k + 1) =~= seq![ts[0]] + ts.skip(1).take(k));
    assert(same_tokens(seq![ts[0]], seq![first]));
    lemma_same_tokens_concat(seq![ts[0]], seq![first], ts.skip(1).take(k), written);
}

/// Two steps in a row, each of which used tokens that mean what it parsed,
/// have together used tokens that mean both.
pub proof fn lemma_used_in_a_row<T, U>(
    ts: Seq<TokenView>,
    one: Step<T>,
    two: Step<U>,
    w1: Seq<TokenView>,
    w2: Seq<TokenView>,
)
    requires
        used_as(ts, one, w1),
        used_as(one.rest, two, w2),
    ensures
        used_as(ts, two, w1 + w2),
{
    let k1 = used(ts, one);
    let k2 = used(one.rest, two);
    assert(ts.skip(k1).skip(k2) =~= ts.skip(k1 + k2));
    assert(ts.take(k1 + k2) =~= ts.take(k1) + ts.skip(k1).take(k2));
    lemma_same_tokens_concat(ts.take(k1), w1, ts.skip(k1).take(k2), w2);
}

/// An expression that was parsed can be written, and the tokens that were
/// used for it mean the same as those that write it.
pub proof fn lemma_expr_was_written(ts: Seq<TokenView>)
    requires
        sp_expr(ts).result is Ok,
    ensures
        writable_expr(sp_expr(ts).result->Ok_0),
        used_as(ts, sp_expr(ts), expr_tokens(sp_expr(ts).result->Ok_0)),
    decreases ts.len(), 0nat,
{
    let tok = ts[0];
    let rest = ts.skip(1);
    let e = sp_expr(ts).result->Ok_0;
    if tok.kind == TokenKind::Id {
        assert(ts.take(1) =~= seq![tok]);
        assert(same_token(tok, expr_tokens(e)[0]));
    } else if tok.kind == TokenKind::Num {
        let n = literal_value(tok.text)->Some_0;
        lemma_decimal_value(n as nat);
        assert(ts.take(1) =~= seq![tok]);
        assert(same_token(tok, expr_tokens(e)[0]));
    } else if binop_of(tok.kind) is Some {
        let op = binop_of(tok.kind)->Some_0;
        lemma_binop_was_written(rest, op);
        let step = sp_binop(rest, op);
        let l = sp_expr(rest).result->Ok_0;
        let r = sp_expr(sp_expr(rest).rest).result->Ok_0;
        lemma_used_after_one(ts, step, op_token(op), expr_tokens(l) + expr_tokens(r));
        assert(seq![op_token(op)] + (expr_tokens(l) + expr_tokens(r)) =~= expr_tokens(e));
    } else {
        lemma_expr_was_written(rest);
        let inner = sp_expr(rest).result->Ok_0;
        let tilde = TokenView { kind: TokenKind::Tilde, text: seq!['~'] };
        lemma_used_after_one(ts, sp_expr(rest), tilde, expr_tokens(inner));
        assert(seq![tilde] + expr_tokens(inner) =~= expr_tokens(e));
    }
}

/// Two operands that were parsed can be written, and the tokens that were
/// used for them mean the same as those that write them.
pub proof fn lemma_binop_was_written(ts: Seq<TokenView>, op: BOp)
    requires
        sp_binop(ts, op).result is Ok,
    ensures
        sp_expr(ts).result is Ok,
        sp_expr(sp_expr(ts).rest).result is Ok,
        sp_binop(ts, op).result->Ok_0 == (ExprView::BinOp {
            op,
            lhs: Box::new(sp_expr(ts).result->Ok_0),
            rhs: Box::new(sp_expr(sp_expr(ts).rest).result->Ok_0),
        }),
        writable_expr(sp_binop(ts, op).result->Ok_0),
        used_as(
            ts,
            sp_binop(ts, op),
            expr_tokens(sp_expr(ts).result->Ok_0) + expr_tokens(
                sp_expr(sp_expr(ts).rest).result->Ok_0,
            ),
        ),
    decreases ts.len(), 1nat,
{
    let l = sp_expr(ts);
    lemma_expr_consumes(ts);
    lemma_expr_was_written(ts);
    let r = sp_expr(l.rest);
    lemma_expr_was_written(l.rest);
    lemma_used_in_a_row(
        ts,
        l,
        r,
        expr_tokens(l.result->Ok_0),
        expr_tokens(r.result->Ok_0),
    );
}

/// The statements after the first are written as they are written alone.
pub proof fn lemma_stmts_tokens_shift(st: StmtView, ss: Seq<StmtView>, from: nat)
    requires
        from <= ss.len(),
    ensures
        stmts_tokens(seq![st] + ss, from + 1) == stmts_tokens(ss, from),
        writable_stmts(seq![st] + ss, from + 1) == writable_stmts(ss, from),
    decreases ss.len() - from,
{
    let all = seq![st] + ss;
    if from < ss.len() {
        assert(all[from as int + 1] == ss[from as int]);
        lemma_stmts_tokens_shift(st, ss, from + 1);
    }
}

/// A statement that was parsed can be written, and the tokens that were
/// used for it mean the same as those that write it.
pub proof fn lemma_stmt_was_written(ts: Seq<TokenView>)
    requires
        sp_stmt(ts).result is Ok,
    ensures
        writable_stmt(sp_stmt(ts).result->Ok_0),
        used_as(ts, sp_stmt(ts), stmt_tokens(sp_stmt(ts).result->Ok_0)),
    decreases ts.len(), 0nat,
{
    let tok = ts[0];
    let rest = ts.skip(1);
    let s = sp_stmt(ts).result->Ok_0;
    if tok.kind == TokenKind::Assign {
        let name = sp_id(rest);
        let x = name.result->Ok_0;
        let e = sp_expr(name.rest);
        lemma_expr_was_written(name.rest);
        let v = e.result->Ok_0;
        let id_tok = TokenView { kind: TokenKind::Id, text: x };
        assert(rest.take(1) =~= seq![rest[0]]);
        assert(used_as(rest, name, seq![id_tok]));
        lemma_used_in_a_row(rest, name, e, seq![id_tok], expr_tokens(v));
        let first = TokenView { kind: TokenKind::Assign, text: seq![':', '='] };
        lemma_used_after_one(ts, e, first, seq![id_tok] + expr_tokens(v));
        assert(seq![first] + (seq![id_tok] + expr_tokens(v)) =~= stmt_tokens(s));
    } else if tok.kind == TokenKind::Print {
        lemma_expr_was_written(rest);
        let e = sp_expr(rest);
        let first = TokenView {
            kind: TokenKind::Print,
            text: seq!['$', 'p', 'r', 'i', 'n', 't'],
        };
        lemma_used_after_one(ts, e, first, expr_tokens(e.result->Ok_0));
        assert(seq![first] + expr_tokens(e.result->Ok_0) =~= stmt_tokens(s));
    } else if tok.kind == TokenKind::Read {
        let name = sp_id(rest);
        let x = name.result->Ok_0;
        let id_tok = TokenView { kind: TokenKind::Id, text: x };
        assert(rest.take(1) =~= seq![rest[0]]);
        assert(used_as(rest, name, seq![id_tok]));
        let first = TokenView { kind: TokenKind::Read, text: seq!['$', 'r', 'e', 'a', 'd'] };
        lemma_used_after_one(ts, name, first, seq![id_tok]);
        assert(seq![first] + seq![id_tok] =~= stmt_tokens(s));
    } else {
        let g = sp_expr(rest);
        lemma_expr_consumes(rest);
        lemma_expr_was_written(rest);
        let t = sp_block(g.rest);
        lemma_block_consumes(g.rest);
        lemma_block_was_written(g.rest);
        let f = sp_block(t.rest);
        lemma_block_was_written(t.rest);
        let guard = g.result->Ok_0;
        let tt = t.result->Ok_0;
        let ff = f.result->Ok_0;
        lemma_used_in_a_row(rest, g, t, expr_tokens(guard), block_tokens(tt));
        lemma_used_in_a_row(rest, t, f, expr_tokens(guard) + block_tokens(tt), block_tokens(ff));
        let first = TokenView { kind: TokenKind::If, text: seq!['$', 'i', 'f'] };
        lemma_used_after_one(
            ts,
            f,
            first,
            expr_tokens(guard) + block_tokens(tt) + block_tokens(ff),
        );
        assert(seq![first] + (expr_tokens(guard) + block_tokens(tt) + block_tokens(ff))
            =~= stmt_tokens(s));
    }
}

/// A block that was parsed can be written, and the tokens that were used
/// for it mean the same as those that write it.
pub proof fn lemma_block_was_written(ts: Seq<TokenView>)
    requires
        sp_block(ts).result is Ok,
    ensures
        writable_stmts(sp_block(ts).result->Ok_0, 0),
        used_as(ts, sp_block(ts), block_tokens(sp_block(ts).result->Ok_0)),
    decreases ts.len(), 2nat,
{
    let rest = ts.skip(1);
    lemma_block_items_was_written(rest);
    let ss = sp_block(ts).result->Ok_0;
    let open = TokenView { kind: TokenKind::LBrace, text: seq!['{'] };
    let close = TokenView { kind: TokenKind::RBrace, text: seq!['}'] };
    lemma_used_after_one(ts, sp_block_items(rest), open, stmts_tokens(ss, 0) + seq![close]);
    assert(seq![open] + (stmts_tokens(ss, 0) + seq![close]) =~= block_tokens(ss));
}

/// The statements of a block that were parsed can be written, and the
/// tokens that were used for them and for the closing brace mean the same
/// as those that write them.
pub proof fn lemma_block_items_was_written(ts: Seq<TokenView>)
    requires
        sp_block_items(ts).result is Ok,
    ensures
        writable_stmts(sp_block_items(ts).result->Ok_0, 0),
        used_as(
            ts,
            sp_block_items(ts),
            stmts_tokens(sp_block_items(ts).result->Ok_0, 0) + token(
                TokenKind::RBrace,
                seq!['}'],
            ),
        ),
    decreases ts.len(), 1nat,
{
    let close = token(TokenKind::RBrace, seq!['}']);
    if ts.len() > 0 && ts[0].kind == TokenKind::RBrace {
        assert(ts.take(1) =~= seq![ts[0]]);
        assert(stmts_tokens(Seq::<StmtView>::empty(), 0) + close =~= close);
    } else {
        let s = sp_stmt(ts);
        lemma_stmt_consumes(ts);
        lemma_stmt_was_written(ts);
        let more = sp_block_items(s.rest);
        lemma_block_items_was_written(s.rest);
        let st = s.result->Ok_0;
        let ss = more.result->Ok_0;
        lemma_stmts_tokens_shift(st, ss, 0);
        lemma_used_in_a_row(ts, s, more, stmt_tokens(st), stmts_tokens(ss, 0) + close);
        assert(stmt_tokens(st) + (stmts_tokens(ss, 0) + close) =~= stmts_tokens(
            seq![st] + ss,
            0,
        ) + close);
    }
}

/// A program that was parsed can be written, and its tokens mean the same
/// as those that write it.
pub proof fn lemma_program_was_written(ts: Seq<TokenView>)
    requires
        sp_program(ts).result is Ok,
    ensures
        writable_stmts(sp_program(ts).result->Ok_0, 0),
        same_tokens(ts, stmts_tokens(sp_program(ts).result->Ok_0, 0)),
    decreases ts.len(),
{
    if ts.len() == 0 {
    } else {
        let s = sp_stmt(ts);
        lemma_stmt_consumes(ts);
        lemma_stmt_was_written(ts);
        let more = sp_program(s.rest);
        lemma_program_was_written(s.rest);
        let st = s.result->Ok_0;
        let ss = more.result->Ok_0;
        lemma_stmts_tokens_shift(st, ss, 0);
        let k = used(ts, s);
        assert(ts =~= ts.take(k) + ts.skip(k));
        lemma_same_tokens_concat(ts.take(k), stmt_tokens(st), ts.skip(k), stmts_tokens(ss, 0));
    }
}

/// Whether `t` is a token as it is written: of a known kind; with the one
/// text of its kind, unless it is a name or a number; and, if it is a
/// number, with digits that write a literal.
pub open spec fn as_written(t: TokenView) -> bool {
    &&& t.kind != TokenKind::Unknown
    &&& t.kind != TokenKind::Id && t.kind != TokenKind::Num ==> t.text == fixed_text(t.kind)
    &&& t.kind == TokenKind::Num ==> literal_value(t.text) is Some
}

/// Whether every token of `ts` is as it is written.
pub open spec fn all_as_written(ts: Seq<TokenView>) -> bool {
    forall|i: int| 0 <= i < ts.len() ==> as_written(#[trigger] ts[i])
}

/// Tokens as they are written, one sequence after another, are as they are
/// written.
pub proof fn lemma_as_written_concat(a: Seq<TokenView>, b: Seq<TokenView>)
    requires
        all_as_written(a),
        all_as_written(b),
    ensures
        all_as_written(a + b),
{
    assert forall|i: int| 0 <= i < (a + b).len() implies as_written(#[trigger] (a + b)[i]) by {
        if i < a.len() {
            assert(as_written(a[i]));
        } else {
            assert(as_written(b[i - a.len()]));
        }
    }
}

/// The tokens that write an expression are as they are written.
pub proof fn lemma_expr_tokens_as_written(e: ExprView)
    requires
        writable_expr(e),
    ensures
        all_as_written(expr_tokens(e)),
    decreases e,
{
    match e {
        ExprView::Var(x) => {},
        ExprView::Const(n) => {
            lemma_decimal_value(n as nat);
        },
        ExprView::BinOp { op, lhs, rhs } => {
            lemma_expr_tokens_as_written(*lhs);
            lemma_expr_tokens_as_written(*rhs);
            assert(all_as_written(seq![op_token(op)]));
            lemma_as_written_concat(seq![op_token(op)], expr_tokens(*lhs));
            lemma_as_written_concat(seq![op_token(op)] + expr_tokens(*lhs), expr_tokens(*rhs));
        },
        ExprView::Negate(inner) => {
            lemma_expr_tokens_as_written(*inner);
            lemma_as_written_concat(token(TokenKind::Tilde, seq!['~']), expr_tokens(*inner));
        },
    }
}

/// The tokens that write a statement are as they are written.
pub proof fn lemma_stmt_tokens_as_written(s: StmtView)
    requires
        writable_stmt(s),
    ensures
        all_as_written(stmt_tokens(s)),
    decreases s, 0nat,
{
    match s {
        StmtView::Assign(x, e) => {
            lemma_expr_tokens_as_written(e);
            let head = token(TokenKind::Assign, seq![':', '=']) + token(TokenKind::Id, x);
            assert(all_as_written(head));
            lemma_as_written_concat(head, expr_tokens(e));
        },
        StmtView::Print(e) => {
            lemma_expr_tokens_as_written(e);
            lemma_as_written_concat(
                token(TokenKind::Print, seq!['$', 'p', 'r', 'i', 'n', 't']),
                expr_tokens(e),
            );
        },
        StmtView::Read(x) => {},
        StmtView::If { guard, tt, ff } => {
            lemma_expr_tokens_as_written(guard);
            lemma_block_tokens_as_written(tt);
            lemma_block_tokens_as_written(ff);
            let head = token(TokenKind::If, seq!['$', 'i', 'f']);
            lemma_as_written_concat(head, expr_tokens(guard));
            lemma_as_written_concat(head + expr_tokens(guard), block_tokens(tt));
            lemma_as_written_concat(head + expr_tokens(guard) + block_tokens(tt), block_tokens(ff));
        },
    }
}

/// The tokens that write statements are as they are written.
pub proof fn lemma_stmts_tokens_as_written(ss: Seq<StmtView>, from: nat)
    requires
        writable_stmts(ss, from),
    ensures
        all_as_written(stmts_tokens(ss, from)),
    decreases ss, ss.len() - from,
{
    if from < ss.len() {
        lemma_stmt_tokens_as_written(ss[from as int]);
        lemma_stmts_tokens_as_written(ss, from + 1);
        lemma_as_written_concat(stmt_tokens(ss[from as int]), stmts_tokens(ss, from + 1));
    }
}

/// The tokens that write a block are as they are written.
pub proof fn lemma_block_tokens_as_written(ss: Seq<StmtView>)
    requires
        writable_stmts(ss, 0),
    ensures
        all_as_written(block_tokens(ss)),
    decreases ss, ss.len() + 1,
{
    lemma_stmts_tokens_as_written(ss, 0);
    let open = token(TokenKind::LBrace, seq!['{']);
    let close = token(TokenKind::RBrace, seq!['}']);
    lemma_as_written_concat(open, stmts_tokens(ss, 0));
    lemma_as_written_concat(open + stmts_tokens(ss, 0), close);
}

/// Whether a token of a text is the token `w` as it is written, but for
/// zeros in front of a number.
pub open spec fn reads_as(t: TokenView, w: TokenView) -> bool {
    &&& t.kind == w.kind
    &&& t.kind != TokenKind::Num ==> t.text == w.text
    &&& t.kind == TokenKind::Num ==> digits_value(t.text) == digits_value(w.text)
}

/// A text that is parsed as a program is that program as it is written:
/// its tokens are those that write the program, one for one, but for
/// zeros in front of a number.
pub proof fn lemma_parsed_text_is_written(input: Seq<char>)
    requires
        parse_spec(input) is Ok,
    ensures
        writable_stmts(parse_spec(input)->Ok_0.stmts, 0),
        lex_spec(input).len() == program_tokens(parse_spec(input)->Ok_0).len(),
        forall|i: int|
            0 <= i < lex_spec(input).len() ==> reads_as(
                #[trigger] lex_spec(input)[i],
                program_tokens(parse_spec(input)->Ok_0)[i],
            ),
{
    let ts = lex_spec(input);
    let p = parse_spec(input)->Ok_0;
    let ws = program_tokens(p);
    lemma_program_was_written(ts);
    lemma_stmts_tokens_as_written(p.stmts, 0);
    lemma_tokens_well_shaped(input, 0);
    assert forall|i: int| 0 <= i < ts.len() implies reads_as(#[trigger] ts[i], ws[i]) by {
        assert(same_token(ts[i], ws[i]));
        assert(as_written(ws[i]));
        assert(well_shaped(ts[i]));
    }
}

/// A text whose tokens write a program is parsed as that program.
pub proof fn lemma_written_text_is_parsed(input: Seq<char>, p: ProgramView)
    requires
        writable_stmts(p.stmts, 0),
        lex_spec(input) == program_tokens(p),
    ensures
        parse_spec(input) == Ok::<ProgramView, Seq<char>>(p),
{
    lemma_program_round_trip(p);
}

} // verus!
