//! Grouping the translation vector into labelled basic blocks.

use vstd::prelude::*;
use crate::blockmap::BlockMap;
use crate::ident::Id;
use crate::tir::{Block, BlockView, Instruction, InstructionView, insn_view};
use crate::tv::{TvEntry, TvEntryView, tv_view};

verus! {

/// The label in force after the first `n` entries of `tv`: that of the last
/// `Label` entry among them.
pub open spec fn current_label(tv: Seq<TvEntryView>, n: nat) -> Seq<char>
    decreases n,
{
    if n == 0 || n > tv.len() {
        Seq::empty()
    } else {
        match tv[n - 1] {
            TvEntryView::Label(l) => l,
            _ => current_label(tv, (n - 1) as nat),
        }
    }
}

/// The instructions among the first `n` entries of `tv` that no terminator
/// has closed yet. The first entry, which opens the scan, is not counted.
pub open spec fn pending(tv: Seq<TvEntryView>, n: nat) -> Seq<InstructionView>
    decreases n,
{
    if n <= 1 || n > tv.len() {
        Seq::empty()
    } else {
        match tv[n - 1] {
            TvEntryView::Inner(i) => pending(tv, (n - 1) as nat).push(i),
            TvEntryView::Term(_) => Seq::empty(),
            TvEntryView::Label(_) => pending(tv, (n - 1) as nat),
        }
    }
}

/// The blocks that the first `n` entries of `tv` form: each terminator
/// stores the pending instructions under the label then in force, in place
/// of what was stored under that label before.
pub open spec fn blocks_upto(tv: Seq<TvEntryView>, n: nat) -> Map<Seq<char>, BlockView>
    decreases n,
{
    if n <= 1 || n > tv.len() {
        Map::empty()
    } else {
        let before = blocks_upto(tv, (n - 1) as nat);
        match tv[n - 1] {
            TvEntryView::Term(t) => before.insert(
                current_label(tv, (n - 1) as nat),
                BlockView { insn: pending(tv, (n - 1) as nat), term: t },
            ),
            _ => before,
        }
    }
}

/// The labels of `blocks_upto(tv, n)`, in the order in which they were first
/// stored.
pub open spec fn labels_upto(tv: Seq<TvEntryView>, n: nat) -> Seq<Seq<char>>
    decreases n,
{
    if n <= 1 || n > tv.len() {
        Seq::empty()
    } else {
        let before = labels_upto(tv, (n - 1) as nat);
        let l = current_label(tv, (n - 1) as nat);
        if tv[n - 1] is Term && !before.contains(l) {
            before.push(l)
        } else {
            before
        }
    }
}

/// Whether a scan of `tv` can start: its first entry is a label.
pub open spec fn starts_with_label(tv: Seq<TvEntryView>) -> bool {
    tv.len() > 0 && tv[0] is Label
}

/// The blocks that `tv` forms. A vector that does not start with a label
/// forms none.
pub open spec fn cfg_of(tv: Seq<TvEntryView>) -> Map<Seq<char>, BlockView> {
    if starts_with_label(tv) {
        blocks_upto(tv, tv.len())
    } else {
        Map::empty()
    }
}

/// The labels of `cfg_of(tv)`, in the order in which they were first stored.
pub open spec fn cfg_labels(tv: Seq<TvEntryView>) -> Seq<Seq<char>> {
    if starts_with_label(tv) {
        labels_upto(tv, tv.len())
    } else {
        Seq::empty()
    }
}

/// The labels of `labels_upto` are those under which `blocks_upto` stores a
/// block.
pub proof fn lemma_labels_upto_dom(tv: Seq<TvEntryView>, n: nat)
    ensures
        forall|l: Seq<char>| labels_upto(tv, n).contains(l) <==> blocks_upto(tv, n).contains_key(l),
    decreases n,
{
    if n <= 1 || n > tv.len() {
    } else {
        lemma_labels_upto_dom(tv, (n - 1) as nat);
        let before = labels_upto(tv, (n - 1) as nat);
        let cur = current_label(tv, (n - 1) as nat);
        let after = labels_upto(tv, n);
        assert forall|l: Seq<char>| after.contains(l) <==> blocks_upto(tv, n).contains_key(l) by {
            if tv[n - 1] is Term && !before.contains(cur) {
                assert(after == before.push(cur));
                if after.contains(l) {
                    let j = choose|j: int| 0 <= j < after.len() && after[j] == l;
                    if j < before.len() {
                        assert(before[j] == l);
                    }
                }
                if before.contains(l) {
                    let j = choose|j: int| 0 <= j < before.len() && before[j] == l;
                    assert(after[j] == l);
                }
                if l == cur {
                    assert(after[before.len() as int] == l);
                }
            }
        }
    }
}

/// Groups the translation vector into blocks.
///
/// The scan keeps a current label and a buffer of instructions. A label
/// entry moves the current label and leaves the buffer as it is; a
/// terminator stores the buffer under the current label and empties it.
pub fn construct_cfg(tv: Vec<TvEntry>) -> (r: BlockMap)
    ensures
        r.wf(),
        r@ == cfg_of(tv_view(tv@)),
        r.labels() == cfg_labels(tv_view(tv@)),
{
    let mut blocks = BlockMap::new();
    let ghost tvv = tv_view(tv@);
    if tv.len() == 0 {
        return blocks;
    }
    let mut curr_block: &Id = match &tv[0] {
        TvEntry::Label(id) => id,
        _ => {
            return blocks;
        },
    };
    let mut insn: Vec<Instruction> = Vec::new();
    let mut i: usize = 1;
    assert(insn_view(insn@) =~= pending(tvv, 1));
    while i < tv.len()
        invariant
            1 <= i <= tv.len(),
            tvv == tv_view(tv@),
            starts_with_label(tvv),
            blocks.wf(),
            blocks@ == blocks_upto(tvv, i as nat),
            blocks.labels() == labels_upto(tvv, i as nat),
            curr_block@ == current_label(tvv, i as nat),
            insn_view(insn@) == pending(tvv, i as nat),
        decreases tv.len() - i,
    {
        proof {
            lemma_labels_upto_dom(tvv, i as nat);
        }
        match &tv[i] {
            TvEntry::Label(id) => {
                curr_block = id;
            },
            TvEntry::Inner(ins) => {
                let ghost before = insn_view(insn@);
                insn.push(ins.clone());
                assert(insn_view(insn@) =~= before.push(ins@));
            },
            TvEntry::Term(term) => {
                let done = insn;
                insn = Vec::new();
                blocks.insert(curr_block.clone(), Block { insn: done, term: term.clone() });
                assert(insn_view(insn@) =~= pending(tvv, (i + 1) as nat));
            },
        }
        i += 1;
    }
    blocks
}

} // verus!
