//! What holds of the control-flow graph of every program.

use vstd::prelude::*;
use crate::ast::{BOp, ExprView, ProgramView, StmtView};
use crate::cfg::cfg_labels;
use crate::fresh::{
    distinct_temps,
    if_count,
    if_count_seq,
    lemma_program_vector,
    program_if_count,
};
use crate::lower::{LowerView, lemma_desugar_weight, lower_spec};
use crate::names::{arith_prefix, const_prefix, entry_name, temp_name};
use crate::shape::{
    block_at,
    distinct_labels,
    first_term_from,
    inners_between,
    is_label_at,
    labels_of,
    lemma_blocks_are_segments,
    lemma_cfg_labels,
    lemma_first_term_is,
};
use crate::tir::{InstructionView, TerminatorView};
use crate::tv::TvEntryView;

verus! {

/// The translation vector that lowering `p` produces.
pub open spec fn program_vector(p: ProgramView) -> Seq<TvEntryView> {
    LowerView::lower_program(p).tv
}

/// The graph of every program has the block `entry`, and it is the first
/// block that block formation stores.
pub proof fn lemma_entry_block(p: ProgramView)
    ensures
        lower_spec(p).block.contains_key(entry_name()),
        cfg_labels(program_vector(p)).len() >= 1,
        cfg_labels(program_vector(p))[0] == entry_name(),
{
    let tv = program_vector(p);
    lemma_program_vector(p);
    lemma_cfg_labels(tv);
    assert(labels_of(tv).contains(labels_of(tv)[0]));
}

/// The graph of every program has one block for each label of its
/// translation vector: one for `entry`, and three more for each
/// conditional of the program, nested ones included.
pub proof fn lemma_block_count(p: ProgramView)
    ensures
        cfg_labels(program_vector(p)) == labels_of(program_vector(p)),
        cfg_labels(program_vector(p)).no_duplicates(),
        cfg_labels(program_vector(p)).len() == 1 + 3 * program_if_count(p),
        lower_spec(p).block.dom().finite(),
        lower_spec(p).block.dom().len() == 1 + 3 * program_if_count(p),
{
    let tv = program_vector(p);
    lemma_program_vector(p);
    lemma_cfg_labels(tv);
    assert(lower_spec(p).block.dom() =~= labels_of(tv).to_set());
    labels_of(tv).unique_seq_to_set();
}

/// Each block of the graph of a program is one run of its translation
/// vector: under the label at `i` stand the instructions between that
/// label and the next terminator, and that terminator. Nothing but
/// instructions stands between the two.
pub proof fn lemma_block_is_run(p: ProgramView, i: int)
    requires
        is_label_at(program_vector(p), i),
    ensures
        lower_spec(p).block.contains_key(program_vector(p)[i]->Label_0),
        lower_spec(p).block[program_vector(p)[i]->Label_0] == block_at(program_vector(p), i),
        i < first_term_from(program_vector(p), i + 1) < program_vector(p).len(),
        program_vector(p)[first_term_from(program_vector(p), i + 1)] is Term,
        forall|k: int|
            i < k < first_term_from(program_vector(p), i + 1) ==> #[trigger] program_vector(
                p,
            )[k] is Inner,
{
    lemma_program_vector(p);
    lemma_blocks_are_segments(program_vector(p), i);
}

/// Every block of the graph of a program stands under a label of its
/// translation vector.
pub proof fn lemma_block_has_label(p: ProgramView, l: Seq<char>)
    requires
        lower_spec(p).block.contains_key(l),
    ensures
        labels_of(program_vector(p)).contains(l),
{
    lemma_program_vector(p);
    lemma_cfg_labels(program_vector(p));
}

/// In one run, no two label entries carry the same label, and no two
/// instructions for a literal or an operation define the same temporary.
pub proof fn lemma_fresh_names_distinct(p: ProgramView)
    ensures
        distinct_labels(program_vector(p)),
        distinct_temps(program_vector(p)),
{
    lemma_program_vector(p);
}

/// A negation is lowered exactly as the subtraction from zero that it
/// stands for.
pub proof fn lemma_negate_desugars(s: LowerView, e: ExprView)
    ensures
        s.lower_expr(ExprView::Negate(Box::new(e))) == s.lower_expr(
            ExprView::BinOp {
                op: BOp::Sub,
                lhs: Box::new(ExprView::Const(0)),
                rhs: Box::new(e),
            },
        ),
{
    lemma_desugar_weight(e);
}

/// The negation of a variable is lowered to two instructions: one that
/// puts zero in a new temporary, and one that subtracts the variable from
/// it into a second new temporary, which is the result.
pub proof fn lemma_negate_var(s: LowerView, x: Seq<char>)
    ensures
        ({
            let zero = temp_name(const_prefix(), s.fresh_ctr + 1);
            let diff = temp_name(arith_prefix(), s.fresh_ctr + 2);
            let (t, r) = s.lower_expr(ExprView::Negate(Box::new(ExprView::Var(x))));
            &&& r == diff
            &&& t.tv == s.tv.push(
                TvEntryView::Inner(InstructionView::Const { dst: zero, src: 0 }),
            ).push(
                TvEntryView::Inner(
                    InstructionView::Arith { op: BOp::Sub, dst: diff, lhs: zero, rhs: x },
                ),
            )
            &&& t.decl == s.decl.insert(zero).insert(x).insert(diff)
            &&& t.fresh_ctr == s.fresh_ctr + 2
            &&& t.bb_ctr == s.bb_ctr
        }),
{
    reveal_with_fuel(LowerView::lower_expr, 4);
    lemma_desugar_weight(ExprView::Var(x));
}

/// Whether `e` is a variable or a literal.
pub open spec fn simple_operand(e: ExprView) -> bool {
    e is Var || e is Const
}

/// The operand of a statement that has one.
pub open spec fn operand_of(s: StmtView) -> ExprView {
    match s {
        StmtView::Assign(_, e) => e,
        StmtView::Print(e) => e,
        _ => ExprView::Var(Seq::empty()),
    }
}

/// Whether `s` is an assignment or a print of a variable or a literal, or
/// a read.
pub open spec fn straight_line_stmt(s: StmtView) -> bool {
    !(s is If) && simple_operand(operand_of(s))
}

/// Whether every statement of `p` is such a statement.
pub open spec fn straight_line(p: ProgramView) -> bool {
    forall|i: int| 0 <= i < p.stmts.len() ==> straight_line_stmt(#[trigger] p.stmts[i])
}

/// The number of literal operands among the first `n` statements of `ss`.
pub open spec fn literal_operands(ss: Seq<StmtView>, n: nat) -> nat
    decreases n,
{
    if n == 0 || n > ss.len() {
        0
    } else {
        literal_operands(ss, (n - 1) as nat) + if (ss[n - 1] is Assign || ss[n - 1] is Print)
            && operand_of(ss[n - 1]) is Const {
            1nat
        } else {
            0nat
        }
    }
}

/// Lowering a straight-line statement appends its instruction, after one
/// for its operand if that is a literal, and nothing else.
pub proof fn lemma_straight_line_stmt(s: LowerView, st: StmtView)
    requires
        straight_line_stmt(st),
    ensures
        s.lower_stmt(st).tv.len() == s.tv.len() + 1 + if (st is Assign || st is Print)
            && operand_of(st) is Const {
            1nat
        } else {
            0nat
        },
        forall|k: int| 0 <= k < s.tv.len() ==> s.lower_stmt(st).tv[k] == s.tv[k],
        forall|k: int|
            s.tv.len() <= k < s.lower_stmt(st).tv.len() ==> #[trigger] s.lower_stmt(
                st,
            ).tv[k] is Inner,
{
    match st {
        StmtView::Assign(dst, e) => {
            let s0 = s.add_decl(dst);
            match e {
                ExprView::Var(x) => {
                    assert(s0.lower_expr(e).0.tv == s.tv);
                },
                ExprView::Const(n) => {
                    assert(s0.lower_expr(e).0.tv.len() == s.tv.len() + 1);
                },
                _ => {},
            }
        },
        StmtView::Print(e) => {
            match e {
                ExprView::Var(x) => {
                    assert(s.lower_expr(e).0.tv == s.tv);
                },
                ExprView::Const(n) => {
                    assert(s.lower_expr(e).0.tv.len() == s.tv.len() + 1);
                },
                _ => {},
            }
        },
        _ => {},
    }
}

/// Lowering straight-line statements appends one instruction for each
/// statement and one for each literal operand, and nothing else.
pub proof fn lemma_straight_line_stmts(s: LowerView, ss: Seq<StmtView>, n: nat)
    requires
        n <= ss.len(),
        forall|i: int| 0 <= i < ss.len() ==> straight_line_stmt(#[trigger] ss[i]),
    ensures
        s.lower_stmts(ss, n).tv.len() == s.tv.len() + n + literal_operands(ss, n),
        forall|k: int| 0 <= k < s.tv.len() ==> s.lower_stmts(ss, n).tv[k] == s.tv[k],
        forall|k: int|
            s.tv.len() <= k < s.lower_stmts(ss, n).tv.len() ==> #[trigger] s.lower_stmts(
                ss,
                n,
            ).tv[k] is Inner,
        if_count_seq(ss, n) == 0,
    decreases n,
{
    if n > 0 {
        lemma_straight_line_stmts(s, ss, (n - 1) as nat);
        let st = ss[n - 1];
        assert(straight_line_stmt(st));
        lemma_straight_line_stmt(s.lower_stmts(ss, (n - 1) as nat), st);
        assert(if_count(st) == 0);
    }
}

/// The instructions among entries that are all instructions are as many
/// as the entries.
pub proof fn lemma_inners_len(tv: Seq<TvEntryView>, lo: int, hi: int)
    requires
        0 <= lo <= hi <= tv.len(),
        forall|k: int| lo <= k < hi ==> #[trigger] tv[k] is Inner,
    ensures
        inners_between(tv, lo, hi).len() == hi - lo,
    decreases hi - lo,
{
    if lo < hi {
        lemma_inners_len(tv, lo, hi - 1);
    }
}

/// A straight-line program is lowered to the one block `entry`, which
/// ends with an exit and has one instruction for each statement and one
/// for each literal operand.
pub proof fn lemma_straight_line(p: ProgramView)
    requires
        straight_line(p),
    ensures
        lower_spec(p).block.dom() == set![entry_name()],
        lower_spec(p).block[entry_name()].term == TerminatorView::Exit,
        lower_spec(p).block[entry_name()].insn.len() == p.stmts.len() + literal_operands(
            p.stmts,
            p.stmts.len(),
        ),
{
    let tv = program_vector(p);
    let s0 = LowerView::start().emit(TvEntryView::Label(entry_name()));
    let s1 = s0.lower_stmts(p.stmts, p.stmts.len());
    lemma_straight_line_stmts(s0, p.stmts, p.stmts.len());
    lemma_program_vector(p);
    lemma_cfg_labels(tv);
    let last = tv.len() - 1;
    assert(tv == s1.tv.push(TvEntryView::Term(TerminatorView::Exit)));
    assert forall|k: int| 1 <= k < last implies !(#[trigger] tv[k] is Term) by {
        assert(s1.tv[k] is Inner);
    }
    lemma_first_term_is(tv, 1, last);
    lemma_blocks_are_segments(tv, 0);
    assert forall|k: int| 1 <= k < last implies #[trigger] tv[k] is Inner by {
        assert(s1.tv[k] is Inner);
    }
    lemma_inners_len(tv, 1, last);
    assert(labels_of(tv).len() == 1);
    assert forall|l: Seq<char>| lower_spec(p).block.contains_key(l) implies l == entry_name() by {
        assert(labels_of(tv).contains(l));
        let j = choose|j: int| 0 <= j < labels_of(tv).len() && labels_of(tv)[j] == l;
        assert(j == 0);
    }
    assert(lower_spec(p).block.dom() =~= set![entry_name()]);
}

} // verus!
