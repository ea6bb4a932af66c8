//! Every variable that the translation vector mentions is declared.

use vstd::prelude::*;
use crate::ast::{ExprView, ProgramView, StmtView};
use crate::lower::{LowerView, desugar_negate, expr_weight, lemma_desugar_weight};
use crate::names::{arith_prefix, const_prefix, entry_name};
use crate::tir::{InstructionView, TerminatorView};
use crate::tv::TvEntryView;

verus! {

/// The variables that an instruction reads or writes.
pub open spec fn instruction_vars(i: InstructionView) -> Set<Seq<char>> {
    match i {
        InstructionView::Copy { dst, src } => set![dst, src],
        InstructionView::Print(x) => set![x],
        InstructionView::Read(x) => set![x],
        InstructionView::Const { dst, src: _ } => set![dst],
        InstructionView::Arith { op: _, dst, lhs, rhs } => set![dst, lhs, rhs],
    }
}

/// The variables that a terminator reads.
pub open spec fn terminator_vars(t: TerminatorView) -> Set<Seq<char>> {
    match t {
        TerminatorView::Branch { guard, tt: _, ff: _ } => set![guard],
        _ => Set::empty(),
    }
}

/// The variables that an entry of the translation vector mentions.
pub open spec fn entry_vars(e: TvEntryView) -> Set<Seq<char>> {
    match e {
        TvEntryView::Label(_) => Set::empty(),
        TvEntryView::Inner(i) => instruction_vars(i),
        TvEntryView::Term(t) => terminator_vars(t),
    }
}

/// Whether every variable that the vector of `s` mentions is declared in
/// `s`.
pub open spec fn all_declared(s: LowerView) -> bool {
    forall|i: int| 0 <= i < s.tv.len() ==> (#[trigger] entry_vars(s.tv[i])).subset_of(s.decl)
}

/// Appending an entry whose variables are declared keeps every variable
/// declared.
pub proof fn lemma_declared_emit(s: LowerView, e: TvEntryView)
    requires
        all_declared(s),
        entry_vars(e).subset_of(s.decl),
    ensures
        all_declared(s.emit(e)),
{
    let t = s.emit(e);
    assert forall|i: int| 0 <= i < t.tv.len() implies (#[trigger] entry_vars(t.tv[i])).subset_of(
        t.decl,
    ) by {
        if i < s.tv.len() {
            assert(entry_vars(s.tv[i]).subset_of(s.decl));
        }
    }
}

/// Declaring more keeps every variable declared.
pub proof fn lemma_declared_grow(s: LowerView, t: LowerView)
    requires
        all_declared(s),
        t.tv == s.tv,
        s.decl.subset_of(t.decl),
    ensures
        all_declared(t),
{
    assert forall|i: int| 0 <= i < t.tv.len() implies (#[trigger] entry_vars(t.tv[i])).subset_of(
        t.decl,
    ) by {
        assert(entry_vars(s.tv[i]).subset_of(s.decl));
    }
}

/// Lowering an expression keeps every variable declared, takes no
/// declaration back, and declares the name that holds the value.
pub proof fn lemma_declared_expr(s: LowerView, e: ExprView)
    requires
        all_declared(s),
    ensures
        all_declared(s.lower_expr(e).0),
        s.decl.subset_of(s.lower_expr(e).0.decl),
        s.lower_expr(e).0.decl.contains(s.lower_expr(e).1),
    decreases expr_weight(e),
{
    match e {
        ExprView::Var(x) => {
            lemma_declared_grow(s, s.add_decl(x));
        },
        ExprView::Const(n) => {
            let (s1, dst) = s.mk_var(const_prefix());
            lemma_declared_grow(s, s1);
            lemma_declared_emit(s1, TvEntryView::Inner(InstructionView::Const { dst, src: n }));
        },
        ExprView::BinOp { op, lhs, rhs } => {
            lemma_declared_expr(s, *lhs);
            let (s1, l) = s.lower_expr(*lhs);
            lemma_declared_expr(s1, *rhs);
            let (s2, r) = s1.lower_expr(*rhs);
            let (s3, dst) = s2.mk_var(arith_prefix());
            lemma_declared_grow(s2, s3);
            lemma_declared_emit(
                s3,
                TvEntryView::Inner(InstructionView::Arith { op, dst, lhs: l, rhs: r }),
            );
        },
        ExprView::Negate(inner) => {
            lemma_desugar_weight(*inner);
            lemma_declared_expr(s, desugar_negate(*inner));
        },
    }
}

/// Lowering a statement keeps every variable declared and takes no
/// declaration back.
pub proof fn lemma_declared_stmt(s: LowerView, st: StmtView)
    requires
        all_declared(s),
    ensures
        all_declared(s.lower_stmt(st)),
        s.decl.subset_of(s.lower_stmt(st).decl),
    decreases st, 0nat,
{
    match st {
        StmtView::Assign(dst, e) => {
            let s0 = s.add_decl(dst);
            lemma_declared_grow(s, s0);
            lemma_declared_expr(s0, e);
            let (s1, src) = s0.lower_expr(e);
            lemma_declared_emit(s1, TvEntryView::Inner(InstructionView::Copy { dst, src }));
        },
        StmtView::Print(e) => {
            lemma_declared_expr(s, e);
            let (s1, x) = s.lower_expr(e);
            lemma_declared_emit(s1, TvEntryView::Inner(InstructionView::Print(x)));
        },
        StmtView::Read(x) => {
            let s0 = s.add_decl(x);
            lemma_declared_grow(s, s0);
            lemma_declared_emit(s0, TvEntryView::Inner(InstructionView::Read(x)));
        },
        StmtView::If { guard, tt, ff } => {
            let (s1, lbl_tt) = s.mk_label();
            let (s2, lbl_ff) = s1.mk_label();
            let (s3, lbl_join) = s2.mk_label();
            lemma_declared_grow(s, s3);
            lemma_declared_expr(s3, guard);
            let (s4, g) = s3.lower_expr(guard);
            let branch = TvEntryView::Term(
                TerminatorView::Branch { guard: g, tt: lbl_tt, ff: lbl_ff },
            );
            let jump = TvEntryView::Term(TerminatorView::Jump(lbl_join));
            lemma_declared_emit(s4, branch);
            lemma_declared_emit(s4.emit(branch), TvEntryView::Label(lbl_tt));
            let s5 = s4.emit(branch).emit(TvEntryView::Label(lbl_tt));
            lemma_declared_stmts(s5, tt, tt.len());
            let s5b = s5.lower_stmts(tt, tt.len());
            lemma_declared_emit(s5b, jump);
            lemma_declared_emit(s5b.emit(jump), TvEntryView::Label(lbl_ff));
            let s6 = s5b.emit(jump).emit(TvEntryView::Label(lbl_ff));
            lemma_declared_stmts(s6, ff, ff.len());
            let s6b = s6.lower_stmts(ff, ff.len());
            lemma_declared_emit(s6b, jump);
            lemma_declared_emit(s6b.emit(jump), TvEntryView::Label(lbl_join));
        },
    }
}

/// Lowering statements in order keeps every variable declared and takes no
/// declaration back.
pub proof fn lemma_declared_stmts(s: LowerView, ss: Seq<StmtView>, n: nat)
    requires
        all_declared(s),
    ensures
        all_declared(s.lower_stmts(ss, n)),
        s.decl.subset_of(s.lower_stmts(ss, n).decl),
    decreases ss, n,
{
    if n == 0 || n > ss.len() {
    } else {
        lemma_declared_stmts(s, ss, (n - 1) as nat);
        lemma_declared_stmt(s.lower_stmts(ss, (n - 1) as nat), ss[n - 1]);
    }
}

/// In the run on any program, every variable that the translation vector
/// mentions is declared at the end.
pub proof fn lemma_program_declared(p: ProgramView)
    ensures
        all_declared(LowerView::lower_program(p)),
{
    let s0 = LowerView::start().emit(TvEntryView::Label(entry_name()));
    assert(all_declared(s0));
    lemma_declared_stmts(s0, p.stmts, p.stmts.len());
    let s1 = s0.lower_stmts(p.stmts, p.stmts.len());
    lemma_declared_emit(s1, TvEntryView::Term(TerminatorView::Exit));
}

} // verus!
