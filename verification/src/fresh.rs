//! What holds of the translation vector throughout a lowering run: it is
//! grouped, its labels are distinct, and so are the temporaries that its
//! instructions define.

use vstd::prelude::*;
use crate::ast::{ExprView, ProgramView, StmtView};
use crate::lower::{LowerView, desugar_negate, expr_weight, lemma_desugar_weight};
use crate::names::{
    arith_prefix,
    const_prefix,
    entry_name,
    label_name,
    lemma_label_name_injective,
    lemma_label_name_not_entry,
    lemma_temp_name_injective,
    lemma_temp_prefixes_disjoint,
    temp_name,
};
use crate::shape::{
    boundary_ok,
    closed,
    distinct_labels,
    grouped,
    is_label_at,
    labels_before,
    labels_of,
    opened,
};
use crate::tir::{InstructionView, TerminatorView};
use crate::tv::TvEntryView;

verus! {

/// Whether the entry is an instruction that puts a value in a temporary
/// made for it: a literal or an operation.
pub open spec fn defines_temp(e: TvEntryView) -> bool {
    e is Inner && (e->Inner_0 is Const || e->Inner_0 is Arith)
}

/// The temporary that such an entry defines.
pub open spec fn temp_dst(e: TvEntryView) -> Seq<char> {
    match e {
        TvEntryView::Inner(InstructionView::Const { dst, src: _ }) => dst,
        TvEntryView::Inner(InstructionView::Arith { op: _, dst, lhs: _, rhs: _ }) => dst,
        _ => Seq::empty(),
    }
}

/// Whether the entry at `i` defines a temporary.
pub open spec fn is_temp_at(tv: Seq<TvEntryView>, i: int) -> bool {
    0 <= i < tv.len() && defines_temp(tv[i])
}

/// Whether `name` is the temporary with number `k`, under either prefix.
pub open spec fn numbered_temp(name: Seq<char>, k: nat) -> bool {
    name == temp_name(const_prefix(), k) || name == temp_name(arith_prefix(), k)
}

/// Whether `name` is a temporary with a number from 1 to `bound`.
pub open spec fn temp_below(name: Seq<char>, bound: nat) -> bool {
    exists|k: nat| 1 <= k <= bound && numbered_temp(name, k)
}

/// No two entries define the same temporary.
pub open spec fn distinct_temps(tv: Seq<TvEntryView>) -> bool {
    forall|i: int, j: int|
        #![trigger is_temp_at(tv, i), is_temp_at(tv, j)]
        is_temp_at(tv, i) && is_temp_at(tv, j) && i != j ==> temp_dst(tv[i]) != temp_dst(tv[j])
}

/// Every temporary that is defined has a number from 1 to `bound`.
pub open spec fn temps_below(tv: Seq<TvEntryView>, bound: nat) -> bool {
    forall|i: int| #[trigger] is_temp_at(tv, i) ==> temp_below(temp_dst(tv[i]), bound)
}

/// Whether `name` is `entry`, or a label with a number from 1 to `bound`
/// that is not in `reserved`.
pub open spec fn label_below(name: Seq<char>, bound: nat, reserved: Set<nat>) -> bool {
    name == entry_name() || exists|k: nat|
        1 <= k <= bound && !reserved.contains(k) && name == label_name(k)
}

/// Every label in the vector is `entry` or has a number from 1 to `bound`
/// that is not in `reserved`.
pub open spec fn labels_below(tv: Seq<TvEntryView>, bound: nat, reserved: Set<nat>) -> bool {
    forall|i: int| #[trigger] is_label_at(tv, i) ==> label_below(tv[i]->Label_0, bound, reserved)
}

/// What holds of a state between two statements. The labels in `reserved`
/// have been made and are not in the vector yet.
pub open spec fn run_inv(s: LowerView, reserved: Set<nat>) -> bool {
    &&& opened(s.tv)
    &&& s.tv[0] == TvEntryView::Label(entry_name())
    &&& distinct_labels(s.tv)
    &&& labels_below(s.tv, s.bb_ctr, reserved)
    &&& distinct_temps(s.tv)
    &&& temps_below(s.tv, s.fresh_ctr)
    &&& forall|k: nat| reserved.contains(k) ==> 1 <= k <= s.bb_ctr
}

/// The number of conditionals in a statement, nested ones included.
pub open spec fn if_count(s: StmtView) -> nat
    decreases s, 0nat,
{
    match s {
        StmtView::If { guard: _, tt, ff } => 1 + if_count_seq(tt, tt.len()) + if_count_seq(
            ff,
            ff.len(),
        ),
        _ => 0,
    }
}

/// The number of conditionals in the first `n` statements of `ss`.
pub open spec fn if_count_seq(ss: Seq<StmtView>, n: nat) -> nat
    decreases ss, n,
{
    if n == 0 || n > ss.len() {
        0
    } else {
        if_count_seq(ss, (n - 1) as nat) + if_count(ss[n - 1])
    }
}

/// A name has at most one number as a temporary.
pub proof fn lemma_numbered_temp_unique(name: Seq<char>, a: nat, b: nat)
    requires
        numbered_temp(name, a),
        numbered_temp(name, b),
    ensures
        a == b,
{
    lemma_temp_prefixes_disjoint(a, b);
    lemma_temp_prefixes_disjoint(b, a);
    if name == temp_name(const_prefix(), a) && name == temp_name(const_prefix(), b) {
        lemma_temp_name_injective(const_prefix(), a, b);
    }
    if name == temp_name(arith_prefix(), a) && name == temp_name(arith_prefix(), b) {
        lemma_temp_name_injective(arith_prefix(), a, b);
    }
}

/// The labels among the first `n` entries do not depend on what follows
/// them.
pub proof fn lemma_labels_before_push(tv: Seq<TvEntryView>, e: TvEntryView, n: nat)
    requires
        n <= tv.len(),
    ensures
        labels_before(tv.push(e), n) == labels_before(tv, n),
    decreases n,
{
    if n > 0 {
        lemma_labels_before_push(tv, e, (n - 1) as nat);
        assert(tv.push(e)[n - 1] == tv[n - 1]);
    }
}

/// An appended label is appended to the labels; any other entry leaves
/// them as they are.
pub proof fn lemma_labels_of_push(tv: Seq<TvEntryView>, e: TvEntryView)
    ensures
        labels_of(tv.push(e)) == match e {
            TvEntryView::Label(l) => labels_of(tv).push(l),
            _ => labels_of(tv),
        },
{
    lemma_labels_before_push(tv, e, tv.len());
}

/// Appending an instruction that defines no temporary keeps the invariant.
pub proof fn lemma_inv_plain(s: LowerView, reserved: Set<nat>, ins: InstructionView)
    requires
        run_inv(s, reserved),
        !(ins is Const),
        !(ins is Arith),
    ensures
        run_inv(s.emit(TvEntryView::Inner(ins)), reserved),
        labels_of(s.emit(TvEntryView::Inner(ins)).tv) == labels_of(s.tv),
{
    let e = TvEntryView::Inner(ins);
    let t = s.emit(e);
    lemma_labels_of_push(s.tv, e);
    assert forall|i: int| 1 <= i < t.tv.len() implies #[trigger] boundary_ok(t.tv, i) by {
        if i < s.tv.len() {
            assert(boundary_ok(s.tv, i));
        }
    }
    assert forall|i: int, j: int|
        #![trigger is_label_at(t.tv, i), is_label_at(t.tv, j)]
        is_label_at(t.tv, i) && is_label_at(t.tv, j) && i != j implies t.tv[i]->Label_0
        != t.tv[j]->Label_0 by {
        assert(is_label_at(s.tv, i) && is_label_at(s.tv, j));
    }
    assert forall|i: int| #[trigger] is_label_at(t.tv, i) implies label_below(
        t.tv[i]->Label_0,
        t.bb_ctr,
        reserved,
    ) by {
        assert(is_label_at(s.tv, i));
    }
    assert forall|i: int, j: int|
        #![trigger is_temp_at(t.tv, i), is_temp_at(t.tv, j)]
        is_temp_at(t.tv, i) && is_temp_at(t.tv, j) && i != j implies temp_dst(t.tv[i]) != temp_dst(
        t.tv[j],
    ) by {
        assert(is_temp_at(s.tv, i) && is_temp_at(s.tv, j));
    }
    assert forall|i: int| #[trigger] is_temp_at(t.tv, i) implies temp_below(
        temp_dst(t.tv[i]),
        t.fresh_ctr,
    ) by {
        assert(is_temp_at(s.tv, i));
    }
}

/// Making a temporary and appending the instruction that defines it keeps
/// the invariant.
pub proof fn lemma_inv_temp(
    s: LowerView,
    reserved: Set<nat>,
    prefix: Seq<char>,
    ins: InstructionView,
)
    requires
        run_inv(s, reserved),
        prefix == const_prefix() || prefix == arith_prefix(),
        ins is Const || ins is Arith,
        temp_dst(TvEntryView::Inner(ins)) == s.mk_var(prefix).1,
    ensures
        run_inv(s.mk_var(prefix).0.emit(TvEntryView::Inner(ins)), reserved),
        labels_of(s.mk_var(prefix).0.emit(TvEntryView::Inner(ins)).tv) == labels_of(s.tv),
{
    let e = TvEntryView::Inner(ins);
    let t = s.mk_var(prefix).0.emit(e);
    let name = s.mk_var(prefix).1;
    let k = s.fresh_ctr + 1;
    assert(numbered_temp(name, k));
    lemma_labels_of_push(s.tv, e);
    assert forall|i: int| 1 <= i < t.tv.len() implies #[trigger] boundary_ok(t.tv, i) by {
        if i < s.tv.len() {
            assert(boundary_ok(s.tv, i));
        }
    }
    assert forall|i: int, j: int|
        #![trigger is_label_at(t.tv, i), is_label_at(t.tv, j)]
        is_label_at(t.tv, i) && is_label_at(t.tv, j) && i != j implies t.tv[i]->Label_0
        != t.tv[j]->Label_0 by {
        assert(is_label_at(s.tv, i) && is_label_at(s.tv, j));
    }
    assert forall|i: int| #[trigger] is_label_at(t.tv, i) implies label_below(
        t.tv[i]->Label_0,
        t.bb_ctr,
        reserved,
    ) by {
        assert(is_label_at(s.tv, i));
    }
    assert forall|i: int| #[trigger] is_temp_at(t.tv, i) implies temp_below(
        temp_dst(t.tv[i]),
        t.fresh_ctr,
    ) by {
        if i < s.tv.len() {
            assert(is_temp_at(s.tv, i));
            let w = choose|w: nat| 1 <= w <= s.fresh_ctr && numbered_temp(temp_dst(s.tv[i]), w);
            assert(1 <= w <= t.fresh_ctr && numbered_temp(temp_dst(t.tv[i]), w));
        } else {
            assert(1 <= k <= t.fresh_ctr && numbered_temp(temp_dst(t.tv[i]), k));
        }
    }
    assert forall|i: int, j: int|
        #![trigger is_temp_at(t.tv, i), is_temp_at(t.tv, j)]
        is_temp_at(t.tv, i) && is_temp_at(t.tv, j) && i != j implies temp_dst(t.tv[i]) != temp_dst(
        t.tv[j],
    ) by {
        if i < s.tv.len() && j < s.tv.len() {
            assert(is_temp_at(s.tv, i) && is_temp_at(s.tv, j));
        } else {
            let o = if i < s.tv.len() {
                i
            } else {
                j
            };
            assert(is_temp_at(s.tv, o));
            let w = choose|w: nat| 1 <= w <= s.fresh_ctr && numbered_temp(temp_dst(s.tv[o]), w);
            if temp_dst(s.tv[o]) == name {
                lemma_numbered_temp_unique(name, w, k);
            }
        }
    }
}

/// Lowering an expression keeps the invariant, makes no label, and leaves
/// the labels of the vector as they are.
pub proof fn lemma_inv_expr(s: LowerView, reserved: Set<nat>, e: ExprView)
    requires
        run_inv(s, reserved),
    ensures
        run_inv(s.lower_expr(e).0, reserved),
        s.lower_expr(e).0.bb_ctr == s.bb_ctr,
        labels_of(s.lower_expr(e).0.tv) == labels_of(s.tv),
    decreases expr_weight(e),
{
    match e {
        ExprView::Var(x) => {},
        ExprView::Const(n) => {
            let dst = s.mk_var(const_prefix()).1;
            lemma_inv_temp(s, reserved, const_prefix(), InstructionView::Const { dst, src: n });
        },
        ExprView::BinOp { op, lhs, rhs } => {
            lemma_inv_expr(s, reserved, *lhs);
            let (s1, l) = s.lower_expr(*lhs);
            lemma_inv_expr(s1, reserved, *rhs);
            let (s2, r) = s1.lower_expr(*rhs);
            let dst = s2.mk_var(arith_prefix()).1;
            lemma_inv_temp(
                s2,
                reserved,
                arith_prefix(),
                InstructionView::Arith { op, dst, lhs: l, rhs: r },
            );
        },
        ExprView::Negate(inner) => {
            lemma_desugar_weight(*inner);
            lemma_inv_expr(s, reserved, desugar_negate(*inner));
        },
    }
}

/// The set `reserved` together with the three numbers after `n`.
pub open spec fn with_three(reserved: Set<nat>, n: nat) -> Set<nat> {
    reserved.insert(n + 1).insert(n + 2).insert(n + 3)
}

/// Making three labels keeps the invariant, with the three reserved.
pub proof fn lemma_inv_reserve(s: LowerView, reserved: Set<nat>)
    requires
        run_inv(s, reserved),
    ensures
        run_inv(s.mk_label().0.mk_label().0.mk_label().0, with_three(reserved, s.bb_ctr)),
{
    let t = s.mk_label().0.mk_label().0.mk_label().0;
    let r3 = with_three(reserved, s.bb_ctr);
    assert(t.tv == s.tv);
    assert forall|i: int| #[trigger] is_label_at(t.tv, i) implies label_below(
        t.tv[i]->Label_0,
        t.bb_ctr,
        r3,
    ) by {
        let l = s.tv[i]->Label_0;
        assert(label_below(l, s.bb_ctr, reserved));
        if l != entry_name() {
            let w = choose|w: nat|
                1 <= w <= s.bb_ctr && !reserved.contains(w) && l == label_name(w);
            assert(1 <= w <= t.bb_ctr && !r3.contains(w) && l == label_name(w));
        }
    }
}

/// Ending the open block and opening the block of a reserved label keeps
/// the invariant, with that label no longer reserved.
pub proof fn lemma_inv_close_open(
    s: LowerView,
    reserved: Set<nat>,
    term: TerminatorView,
    k: nat,
)
    requires
        run_inv(s, reserved),
        reserved.contains(k),
    ensures
        run_inv(
            s.emit(TvEntryView::Term(term)).emit(TvEntryView::Label(label_name(k))),
            reserved.remove(k),
        ),
        labels_of(s.emit(TvEntryView::Term(term)).emit(TvEntryView::Label(label_name(k))).tv)
            == labels_of(s.tv).push(label_name(k)),
{
    let m = s.emit(TvEntryView::Term(term));
    let t = m.emit(TvEntryView::Label(label_name(k)));
    let r = reserved.remove(k);
    let n = s.tv.len() as int;
    lemma_labels_of_push(s.tv, TvEntryView::Term(term));
    lemma_labels_of_push(m.tv, TvEntryView::Label(label_name(k)));
    assert forall|i: int| 1 <= i < t.tv.len() implies #[trigger] boundary_ok(t.tv, i) by {
        if i < n {
            assert(boundary_ok(s.tv, i));
        }
    }
    assert forall|i: int| #[trigger] is_label_at(t.tv, i) implies label_below(
        t.tv[i]->Label_0,
        t.bb_ctr,
        r,
    ) by {
        if i < n {
            assert(is_label_at(s.tv, i));
            let l = s.tv[i]->Label_0;
            if l != entry_name() {
                let w = choose|w: nat|
                    1 <= w <= s.bb_ctr && !reserved.contains(w) && l == label_name(w);
                assert(1 <= w <= t.bb_ctr && !r.contains(w) && l == label_name(w));
            }
        } else {
            assert(i == n + 1);
            assert(1 <= k <= t.bb_ctr && !r.contains(k) && t.tv[i]->Label_0 == label_name(k));
        }
    }
    assert forall|i: int, j: int|
        #![trigger is_label_at(t.tv, i), is_label_at(t.tv, j)]
        is_label_at(t.tv, i) && is_label_at(t.tv, j) && i != j implies t.tv[i]->Label_0
        != t.tv[j]->Label_0 by {
        if i < n && j < n {
            assert(is_label_at(s.tv, i) && is_label_at(s.tv, j));
        } else {
            let o = if i < n {
                i
            } else {
                j
            };
            assert(is_label_at(s.tv, o));
            let l = s.tv[o]->Label_0;
            lemma_label_name_not_entry(k);
            if l != entry_name() {
                let w = choose|w: nat|
                    1 <= w <= s.bb_ctr && !reserved.contains(w) && l == label_name(w);
                if l == label_name(k) {
                    lemma_label_name_injective(w, k);
                }
            }
        }
    }
    assert forall|i: int, j: int|
        #![trigger is_temp_at(t.tv, i), is_temp_at(t.tv, j)]
        is_temp_at(t.tv, i) && is_temp_at(t.tv, j) && i != j implies temp_dst(t.tv[i]) != temp_dst(
        t.tv[j],
    ) by {
        assert(is_temp_at(s.tv, i) && is_temp_at(s.tv, j));
    }
    assert forall|i: int| #[trigger] is_temp_at(t.tv, i) implies temp_below(
        temp_dst(t.tv[i]),
        t.fresh_ctr,
    ) by {
        assert(is_temp_at(s.tv, i));
    }
}

/// Lowering a statement keeps the invariant and adds three labels to the
/// vector for each conditional in the statement.
pub proof fn lemma_inv_stmt(s: LowerView, reserved: Set<nat>, st: StmtView)
    requires
        run_inv(s, reserved),
    ensures
        run_inv(s.lower_stmt(st), reserved),
        labels_of(s.lower_stmt(st).tv).len() == labels_of(s.tv).len() + 3 * if_count(st),
    decreases st, 0nat,
{
    match st {
        StmtView::Assign(dst, e) => {
            let s0 = s.add_decl(dst);
            lemma_inv_expr(s0, reserved, e);
            let (s1, src) = s0.lower_expr(e);
            lemma_inv_plain(s1, reserved, InstructionView::Copy { dst, src });
        },
        StmtView::Print(e) => {
            lemma_inv_expr(s, reserved, e);
            let (s1, x) = s.lower_expr(e);
            lemma_inv_plain(s1, reserved, InstructionView::Print(x));
        },
        StmtView::Read(x) => {
            lemma_inv_plain(s.add_decl(x), reserved, InstructionView::Read(x));
        },
        StmtView::If { guard, tt, ff } => {
            let n = s.bb_ctr;
            let s3 = s.mk_label().0.mk_label().0.mk_label().0;
            let lbl_join = label_name(n + 3);
            let r3 = with_three(reserved, n);
            lemma_inv_reserve(s, reserved);
            lemma_inv_expr(s3, r3, guard);
            let (s4, g) = s3.lower_expr(guard);
            let branch = TerminatorView::Branch {
                guard: g,
                tt: label_name(n + 1),
                ff: label_name(n + 2),
            };
            lemma_inv_close_open(s4, r3, branch, n + 1);
            let s5 = s4.emit(TvEntryView::Term(branch)).emit(TvEntryView::Label(label_name(n + 1)));
            let r2 = r3.remove(n + 1);
            lemma_inv_stmts(s5, r2, tt, tt.len());
            let s5b = s5.lower_stmts(tt, tt.len());
            lemma_inv_close_open(s5b, r2, TerminatorView::Jump(lbl_join), n + 2);
            let s6 = s5b.emit(TvEntryView::Term(TerminatorView::Jump(lbl_join))).emit(
                TvEntryView::Label(label_name(n + 2)),
            );
            let r1 = r2.remove(n + 2);
            lemma_inv_stmts(s6, r1, ff, ff.len());
            let s6b = s6.lower_stmts(ff, ff.len());
            lemma_inv_close_open(s6b, r1, TerminatorView::Jump(lbl_join), n + 3);
            assert(r1.remove(n + 3) =~= reserved);
            assert(3 * if_count(st) == 3 + 3 * if_count_seq(tt, tt.len()) + 3 * if_count_seq(
                ff,
                ff.len(),
            ));
        },
    }
}

/// Lowering statements in order keeps the invariant and adds three labels
/// to the vector for each conditional in them.
pub proof fn lemma_inv_stmts(s: LowerView, reserved: Set<nat>, ss: Seq<StmtView>, n: nat)
    requires
        run_inv(s, reserved),
    ensures
        run_inv(s.lower_stmts(ss, n), reserved),
        labels_of(s.lower_stmts(ss, n).tv).len() == labels_of(s.tv).len() + 3 * if_count_seq(
            ss,
            n,
        ),
    decreases ss, n,
{
    if n == 0 || n > ss.len() {
    } else {
        lemma_inv_stmts(s, reserved, ss, (n - 1) as nat);
        lemma_inv_stmt(s.lower_stmts(ss, (n - 1) as nat), reserved, ss[n - 1]);
    }
}

/// The number of conditionals in a program, nested ones included.
pub open spec fn program_if_count(p: ProgramView) -> nat {
    if_count_seq(p.stmts, p.stmts.len())
}

/// The translation vector of every program is closed and starts with the
/// label `entry`; its labels are distinct, and so are the temporaries that
/// its instructions define; and it has one label, and three more for each
/// conditional.
pub proof fn lemma_program_vector(p: ProgramView)
    ensures
        closed(LowerView::lower_program(p).tv),
        LowerView::lower_program(p).tv[0] == TvEntryView::Label(entry_name()),
        distinct_labels(LowerView::lower_program(p).tv),
        distinct_temps(LowerView::lower_program(p).tv),
        labels_of(LowerView::lower_program(p).tv).len() == 1 + 3 * program_if_count(p),
{
    let s0 = LowerView::start().emit(TvEntryView::Label(entry_name()));
    let none = Set::<nat>::empty();
    assert(labels_before(s0.tv, 0) =~= Seq::<Seq<char>>::empty());
    assert(labels_of(s0.tv).len() == 1);
    assert(run_inv(s0, none));
    lemma_inv_stmts(s0, none, p.stmts, p.stmts.len());
    let s1 = s0.lower_stmts(p.stmts, p.stmts.len());
    let exit = TvEntryView::Term(TerminatorView::Exit);
    let t = s1.emit(exit);
    lemma_labels_of_push(s1.tv, exit);
    assert forall|i: int| 1 <= i < t.tv.len() implies #[trigger] boundary_ok(t.tv, i) by {
        if i < s1.tv.len() {
            assert(boundary_ok(s1.tv, i));
        }
    }
    assert forall|i: int, j: int|
        #![trigger is_label_at(t.tv, i), is_label_at(t.tv, j)]
        is_label_at(t.tv, i) && is_label_at(t.tv, j) && i != j implies t.tv[i]->Label_0
        != t.tv[j]->Label_0 by {
        assert(is_label_at(s1.tv, i) && is_label_at(s1.tv, j));
    }
    assert forall|i: int, j: int|
        #![trigger is_temp_at(t.tv, i), is_temp_at(t.tv, j)]
        is_temp_at(t.tv, i) && is_temp_at(t.tv, j) && i != j implies temp_dst(t.tv[i]) != temp_dst(
        t.tv[j],
    ) by {
        assert(is_temp_at(s1.tv, i) && is_temp_at(s1.tv, j));
    }
}

} // verus!
