//! The shape of a translation vector, and what the blocks formed from a
//! vector of the right shape are.
//!
//! A vector is grouped when it is made of runs, each a label, then
//! instructions, then a terminator. From a grouped vector with distinct
//! labels, block formation stores one block per label: the instructions
//! between the label and the next terminator, and that terminator.

use vstd::prelude::*;
use crate::cfg::{
    blocks_upto,
    cfg_labels,
    cfg_of,
    current_label,
    labels_upto,
    lemma_labels_upto_dom,
    pending,
    starts_with_label,
};
use crate::tir::{BlockView, InstructionView};
use crate::tv::TvEntryView;

verus! {

/// Whether the entry at `i` is a label.
pub open spec fn is_label_at(tv: Seq<TvEntryView>, i: int) -> bool {
    0 <= i < tv.len() && tv[i] is Label
}

/// Whether the entry at `i` is a label exactly when the entry before it is
/// a terminator.
pub open spec fn boundary_ok(tv: Seq<TvEntryView>, i: int) -> bool {
    tv[i] is Label <==> tv[i - 1] is Term
}

/// The vector starts with a label; every other label directly follows a
/// terminator, and what directly follows a terminator is a label.
pub open spec fn grouped(tv: Seq<TvEntryView>) -> bool {
    &&& starts_with_label(tv)
    &&& forall|i: int| 1 <= i < tv.len() ==> #[trigger] boundary_ok(tv, i)
}

/// A grouped vector whose last block is still open.
pub open spec fn opened(tv: Seq<TvEntryView>) -> bool {
    grouped(tv) && !(tv.last() is Term)
}

/// A grouped vector whose last block has its terminator.
pub open spec fn closed(tv: Seq<TvEntryView>) -> bool {
    grouped(tv) && tv.last() is Term
}

/// No two label entries carry the same label.
pub open spec fn distinct_labels(tv: Seq<TvEntryView>) -> bool {
    forall|i: int, j: int|
        #![trigger is_label_at(tv, i), is_label_at(tv, j)]
        is_label_at(tv, i) && is_label_at(tv, j) && i != j ==> tv[i]->Label_0 != tv[j]->Label_0
}

/// The labels among the first `n` entries, in order.
pub open spec fn labels_before(tv: Seq<TvEntryView>, n: nat) -> Seq<Seq<char>>
    decreases n,
{
    if n == 0 || n > tv.len() {
        Seq::empty()
    } else {
        let rest = labels_before(tv, (n - 1) as nat);
        match tv[n - 1] {
            TvEntryView::Label(l) => rest.push(l),
            _ => rest,
        }
    }
}

/// The labels of the vector, in order.
pub open spec fn labels_of(tv: Seq<TvEntryView>) -> Seq<Seq<char>> {
    labels_before(tv, tv.len())
}

/// The position of the last label among the first `n` entries, in a vector
/// that starts with a label.
pub open spec fn seg_start(tv: Seq<TvEntryView>, n: int) -> int
    decreases n,
{
    if n <= 1 {
        0
    } else if tv[n - 1] is Label {
        n - 1
    } else {
        seg_start(tv, n - 1)
    }
}

/// The position of the first terminator at or after `j`, or the length of
/// the vector if there is none.
pub open spec fn first_term_from(tv: Seq<TvEntryView>, j: int) -> int
    decreases tv.len() - j,
{
    if j < 0 || j >= tv.len() {
        tv.len() as int
    } else if tv[j] is Term {
        j
    } else {
        first_term_from(tv, j + 1)
    }
}

/// The instructions among the entries from `lo` up to `hi`, in order.
pub open spec fn inners_between(tv: Seq<TvEntryView>, lo: int, hi: int) -> Seq<InstructionView>
    decreases hi - lo,
{
    if hi <= lo || hi > tv.len() || lo < 0 {
        Seq::empty()
    } else {
        let rest = inners_between(tv, lo, hi - 1);
        match tv[hi - 1] {
            TvEntryView::Inner(i) => rest.push(i),
            _ => rest,
        }
    }
}

/// The block that starts at the label at `i`: the instructions up to the
/// next terminator, and that terminator.
pub open spec fn block_at(tv: Seq<TvEntryView>, i: int) -> BlockView {
    let t = first_term_from(tv, i + 1);
    BlockView { insn: inners_between(tv, i + 1, t), term: tv[t]->Term_0 }
}

/// Whether the block that starts at the label at `i` has its terminator
/// among the first `n` entries.
pub open spec fn closed_before(tv: Seq<TvEntryView>, i: int, n: int) -> bool {
    is_label_at(tv, i) && i < n && first_term_from(tv, i + 1) < n
}

/// `first_term_from` finds a terminator, if it finds anything, and passes
/// over none.
pub proof fn lemma_first_term(tv: Seq<TvEntryView>, j: int)
    requires
        0 <= j <= tv.len(),
    ensures
        j <= first_term_from(tv, j) <= tv.len(),
        first_term_from(tv, j) < tv.len() ==> tv[first_term_from(tv, j)] is Term,
        forall|k: int| j <= k < first_term_from(tv, j) ==> !(#[trigger] tv[k] is Term),
    decreases tv.len() - j,
{
    if j < tv.len() && !(tv[j] is Term) {
        lemma_first_term(tv, j + 1);
    }
}

/// If no entry from `j` up to `t` is a terminator and the one at `t` is,
/// the first terminator from `j` is at `t`.
pub proof fn lemma_first_term_is(tv: Seq<TvEntryView>, j: int, t: int)
    requires
        0 <= j <= t < tv.len(),
        tv[t] is Term,
        forall|k: int| j <= k < t ==> !(#[trigger] tv[k] is Term),
    ensures
        first_term_from(tv, j) == t,
    decreases t - j,
{
    if j < t {
        lemma_first_term_is(tv, j + 1, t);
    }
}

/// Each of the labels among the first `n` entries is the label of one of
/// those entries.
pub proof fn lemma_labels_before_members(tv: Seq<TvEntryView>, n: nat)
    requires
        n <= tv.len(),
    ensures
        forall|l: Seq<char>| #[trigger]
            labels_before(tv, n).contains(l) ==> exists|i: int|
                is_label_at(tv, i) && i < n && tv[i]->Label_0 == l,
    decreases n,
{
    if n > 0 {
        lemma_labels_before_members(tv, (n - 1) as nat);
        let rest = labels_before(tv, (n - 1) as nat);
        let all = labels_before(tv, n);
        assert forall|l: Seq<char>| #[trigger] all.contains(l) implies exists|i: int|
            is_label_at(tv, i) && i < n && tv[i]->Label_0 == l by {
            let k = choose|k: int| 0 <= k < all.len() && all[k] == l;
            if k < rest.len() {
                assert(rest[k] == l);
                assert(rest.contains(l));
                let i = choose|i: int| is_label_at(tv, i) && i < n - 1 && tv[i]->Label_0 == l;
                assert(is_label_at(tv, i) && i < n && tv[i]->Label_0 == l);
            } else {
                assert(is_label_at(tv, n - 1) && tv[n - 1]->Label_0 == l);
            }
        }
    }
}

/// What a scan of a grouped vector with distinct labels has done after `n`
/// entries: the current label is that of the last label entry; the buffer
/// holds the instructions since then; the labels stored are those of the
/// blocks that have their terminator, in order; and each of them has the
/// block that starts at it.
pub proof fn lemma_scan(tv: Seq<TvEntryView>, n: nat)
    requires
        grouped(tv),
        distinct_labels(tv),
        1 <= n <= tv.len(),
    ensures
        0 <= seg_start(tv, n as int) < n,
        is_label_at(tv, seg_start(tv, n as int)),
        current_label(tv, n) == tv[seg_start(tv, n as int)]->Label_0,
        forall|k: int| seg_start(tv, n as int) < k < n ==> !(#[trigger] tv[k] is Label),
        labels_before(tv, n) == labels_before(tv, seg_start(tv, n as int) as nat).push(
            current_label(tv, n),
        ),
        tv[n - 1] is Term ==> pending(tv, n) == Seq::<InstructionView>::empty()
            && labels_upto(tv, n) == labels_before(tv, n)
            && first_term_from(tv, seg_start(tv, n as int) + 1) == n - 1,
        !(tv[n - 1] is Term) ==> pending(tv, n) == inners_between(
            tv,
            seg_start(tv, n as int) + 1,
            n as int,
        ) && labels_upto(tv, n) == labels_before(tv, seg_start(tv, n as int) as nat)
            && first_term_from(tv, seg_start(tv, n as int) + 1) >= n,
        forall|i: int| #[trigger]
            closed_before(tv, i, n as int) ==> blocks_upto(tv, n).contains_key(tv[i]->Label_0)
                && blocks_upto(tv, n)[tv[i]->Label_0] == block_at(tv, i),
    decreases n,
{
    let st = seg_start(tv, n as int);
    if n == 1 {
        assert(labels_before(tv, 0) =~= Seq::<Seq<char>>::empty());
        assert(labels_before(tv, 1) =~= labels_before(tv, 0).push(current_label(tv, 1)));
        assert(pending(tv, 1) =~= inners_between(tv, 1, 1));
        lemma_first_term(tv, 1);
        assert forall|i: int| #[trigger] closed_before(tv, i, 1) implies blocks_upto(
            tv,
            1,
        ).contains_key(tv[i]->Label_0) && blocks_upto(tv, 1)[tv[i]->Label_0] == block_at(tv, i) by {
            lemma_first_term(tv, i + 1);
        }
    } else {
        let m = (n - 1) as nat;
        lemma_scan(tv, m);
        let pst = seg_start(tv, m as int);
        assert(boundary_ok(tv, n - 1));
        lemma_first_term(tv, pst + 1);
        match tv[n - 1] {
            TvEntryView::Label(l) => {
                assert(st == n - 1);
                assert(tv[n - 2] is Term);
                assert(pending(tv, n) =~= inners_between(tv, n as int, n as int));
                lemma_first_term(tv, n as int);
                assert forall|i: int| #[trigger] closed_before(tv, i, n as int) implies blocks_upto(
                    tv,
                    n,
                ).contains_key(tv[i]->Label_0) && blocks_upto(tv, n)[tv[i]->Label_0] == block_at(
                    tv,
                    i,
                ) by {
                    lemma_first_term(tv, i + 1);
                    assert(closed_before(tv, i, m as int));
                }
            },
            TvEntryView::Inner(ins) => {
                assert(st == pst);
                assert(!(tv[n - 2] is Term));
                assert forall|i: int| #[trigger] closed_before(tv, i, n as int) implies blocks_upto(
                    tv,
                    n,
                ).contains_key(tv[i]->Label_0) && blocks_upto(tv, n)[tv[i]->Label_0] == block_at(
                    tv,
                    i,
                ) by {
                    lemma_first_term(tv, i + 1);
                    assert(closed_before(tv, i, m as int));
                }
            },
            TvEntryView::Term(t) => {
                assert(st == pst);
                assert(!(tv[n - 2] is Term));
                let cur = current_label(tv, m);
                assert(forall|k: int| st < k < m ==> !(#[trigger] tv[k] is Term)) by {
                    assert forall|k: int| st < k < m implies !(#[trigger] tv[k] is Term) by {
                        if tv[k] is Term {
                            if k + 1 < m {
                                assert(boundary_ok(tv, k + 1));
                                assert(tv[k + 1] is Label);
                            }
                        }
                    }
                }
                lemma_first_term_is(tv, st + 1, n - 1);
                // The current label is not among the labels stored so far.
                lemma_labels_before_members(tv, st as nat);
                let stored = labels_before(tv, st as nat);
                if stored.contains(cur) {
                    let i = choose|i: int| is_label_at(tv, i) && i < st && tv[i]->Label_0 == cur;
                    assert(is_label_at(tv, st));
                    assert(false);
                }
                assert(labels_upto(tv, n) == stored.push(cur));
                assert forall|i: int| #[trigger] closed_before(tv, i, n as int) implies blocks_upto(
                    tv,
                    n,
                ).contains_key(tv[i]->Label_0) && blocks_upto(tv, n)[tv[i]->Label_0] == block_at(
                    tv,
                    i,
                ) by {
                    lemma_first_term(tv, i + 1);
                    if i == st {
                    } else {
                        assert(is_label_at(tv, st));
                        assert(tv[i]->Label_0 != cur);
                        if first_term_from(tv, i + 1) == n - 1 {
                            // The block at `i` would run over the label at `st`.
                            assert(i < st);
                            assert(boundary_ok(tv, st));
                            assert(tv[st - 1] is Term);
                            assert(false);
                        }
                        assert(closed_before(tv, i, m as int));
                    }
                }
            },
        }
    }
}

/// From a closed vector with distinct labels, block formation stores the
/// labels of the vector, in their order.
pub proof fn lemma_cfg_labels(tv: Seq<TvEntryView>)
    requires
        closed(tv),
        distinct_labels(tv),
    ensures
        cfg_labels(tv) == labels_of(tv),
        cfg_labels(tv).no_duplicates(),
        cfg_labels(tv).len() >= 1,
        cfg_labels(tv)[0] == tv[0]->Label_0,
        forall|l: Seq<char>| cfg_of(tv).contains_key(l) <==> labels_of(tv).contains(l),
{
    lemma_scan(tv, tv.len());
    lemma_labels_upto_dom(tv, tv.len());
    lemma_labels_distinct(tv, tv.len());
    lemma_labels_before_first(tv, tv.len());
}

/// The labels among the first `n` entries of a vector with distinct labels
/// are distinct.
pub proof fn lemma_labels_distinct(tv: Seq<TvEntryView>, n: nat)
    requires
        distinct_labels(tv),
        n <= tv.len(),
    ensures
        labels_before(tv, n).no_duplicates(),
    decreases n,
{
    if n > 0 {
        lemma_labels_distinct(tv, (n - 1) as nat);
        lemma_labels_before_members(tv, (n - 1) as nat);
        let rest = labels_before(tv, (n - 1) as nat);
        if tv[n - 1] is Label {
            let l = tv[n - 1]->Label_0;
            if rest.contains(l) {
                let i = choose|i: int| is_label_at(tv, i) && i < n - 1 && tv[i]->Label_0 == l;
                assert(is_label_at(tv, n - 1));
                assert(false);
            }
            assert forall|a: int, b: int|
                0 <= a < rest.push(l).len() && 0 <= b < rest.push(l).len() && a != b implies rest.push(
                l,
            )[a] != rest.push(l)[b] by {
                if a == rest.len() {
                    assert(rest[b] == rest.push(l)[b]);
                    assert(rest.contains(rest[b]));
                } else if b == rest.len() {
                    assert(rest[a] == rest.push(l)[a]);
                    assert(rest.contains(rest[a]));
                }
            }
        }
    }
}

/// In a vector that starts with a label, that label is the first of its
/// labels.
pub proof fn lemma_labels_before_first(tv: Seq<TvEntryView>, n: nat)
    requires
        starts_with_label(tv),
        1 <= n <= tv.len(),
    ensures
        labels_before(tv, n).len() >= 1,
        labels_before(tv, n)[0] == tv[0]->Label_0,
    decreases n,
{
    if n > 1 {
        lemma_labels_before_first(tv, (n - 1) as nat);
    } else {
        assert(labels_before(tv, 0).len() == 0);
    }
}

/// From a closed vector with distinct labels, the block stored under the
/// label at `i` is the block that starts there.
pub proof fn lemma_blocks_are_segments(tv: Seq<TvEntryView>, i: int)
    requires
        closed(tv),
        distinct_labels(tv),
        is_label_at(tv, i),
    ensures
        cfg_of(tv).contains_key(tv[i]->Label_0),
        cfg_of(tv)[tv[i]->Label_0] == block_at(tv, i),
        i < first_term_from(tv, i + 1) < tv.len(),
        tv[first_term_from(tv, i + 1)] is Term,
        forall|k: int| i < k < first_term_from(tv, i + 1) ==> #[trigger] tv[k] is Inner,
{
    lemma_scan(tv, tv.len());
    lemma_first_term(tv, i + 1);
    let t = first_term_from(tv, i + 1);
    // Between a label and the next terminator there is no other label.
    assert forall|k: int| i < k < t implies #[trigger] tv[k] is Inner by {
        lemma_no_label_inside(tv, i, k);
    }
    if t >= tv.len() {
        if i + 1 < tv.len() {
            lemma_no_label_inside(tv, i, tv.len() - 1);
        }
        assert(false);
    }
    assert(closed_before(tv, i, tv.len() as int));
}

/// In a grouped vector, the entries after a label are instructions as long
/// as no terminator has come.
pub proof fn lemma_no_label_inside(tv: Seq<TvEntryView>, i: int, k: int)
    requires
        grouped(tv),
        is_label_at(tv, i),
        i < k < tv.len(),
        forall|j: int| i < j < k ==> !(#[trigger] tv[j] is Term),
    ensures
        !(tv[k] is Label),
    decreases k - i,
{
    assert(boundary_ok(tv, k));
    if k - 1 > i {
        lemma_no_label_inside(tv, i, k - 1);
    }
}

} // verus!
