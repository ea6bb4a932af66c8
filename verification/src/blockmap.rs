//! A finite map from labels to basic blocks, kept as a list of pairs in
//! which no label occurs twice.

use vstd::prelude::*;
use crate::ident::Id;
use crate::tir::{Block, BlockView};

verus! {

/// The labels of `entries`, in order.
pub open spec fn labels_of(entries: Seq<(Id, Block)>) -> Seq<Seq<char>> {
    Seq::new(entries.len(), |i: int| entries[i].0@)
}

/// A finite map from labels to blocks. Labels are kept in the order in which
/// they were first inserted.
#[derive(Debug, PartialEq, Eq)]
pub struct BlockMap {
    pub entries: Vec<(Id, Block)>,
}

impl View for BlockMap {
    type V = Map<Seq<char>, BlockView>;

    open spec fn view(&self) -> Map<Seq<char>, BlockView> {
        Map::new(
            |l: Seq<char>| self.labels().contains(l),
            |l: Seq<char>| self.entries@[self.labels().index_of(l)].1@,
        )
    }
}

impl BlockMap {
    /// The labels in the order in which they were first inserted.
    pub open spec fn labels(&self) -> Seq<Seq<char>> {
        labels_of(self.entries@)
    }

    /// No label is stored twice.
    pub open spec fn wf(&self) -> bool {
        self.labels().no_duplicates()
    }

    /// In a well-formed map the block stored at a position is the block of
    /// the label stored there.
    pub proof fn lemma_entry_at(&self, i: int)
        requires
            self.wf(),
            0 <= i < self.entries@.len(),
        ensures
            self@.contains_key(self.labels()[i]),
            self@[self.labels()[i]] == self.entries@[i].1@,
    {
        let l = self.labels()[i];
        assert(self.labels().contains(l));
        let j = self.labels().index_of(l);
        assert(0 <= j < self.labels().len() && self.labels()[j] == l);
    }

    /// The domain of a well-formed map has as many members as the list has
    /// entries.
    pub proof fn lemma_dom_len(&self)
        requires
            self.wf(),
        ensures
            self@.dom() == self.labels().to_set(),
            self@.dom().finite(),
            self@.dom().len() == self.entries@.len(),
    {
        assert(self@.dom() =~= self.labels().to_set());
        self.labels().unique_seq_to_set();
    }

    /// The empty map.
    pub fn new() -> (r: BlockMap)
        ensures
            r.wf(),
            r@ == Map::<Seq<char>, BlockView>::empty(),
            r.labels() == Seq::<Seq<char>>::empty(),
    {
        let r = BlockMap { entries: Vec::new() };
        assert(r@ =~= Map::<Seq<char>, BlockView>::empty());
        assert(r.labels() =~= Seq::<Seq<char>>::empty());
        r
    }

    /// The position at which `label` is stored, if it is present.
    fn position(&self, label: &Id) -> (r: Option<usize>)
        ensures
            match r {
                Some(i) => i < self.entries@.len() && self.labels()[i as int] == label@,
                None => !self.labels().contains(label@),
            },
    {
        let mut i: usize = 0;
        while i < self.entries.len()
            invariant
                i <= self.entries.len(),
                forall|j: int| 0 <= j < i ==> self.labels()[j] != label@,
            decreases self.entries.len() - i,
        {
            if self.entries[i].0.same(label) {
                return Some(i);
            }
            i += 1;
        }
        None
    }

    /// The block stored under `label`, if there is one.
    pub fn get(&self, label: &Id) -> (r: Option<&Block>)
        requires
            self.wf(),
        ensures
            match r {
                Some(b) => self@.contains_key(label@) && b@ == self@[label@],
                None => !self@.contains_key(label@),
            },
    {
        match self.position(label) {
            Some(i) => {
                proof {
                    self.lemma_entry_at(i as int);
                }
                Some(&self.entries[i].1)
            },
            None => None,
        }
    }

    /// Whether a block is stored under `label`.
    pub fn contains_key(&self, label: &Id) -> (r: bool)
        ensures
            r == self@.contains_key(label@),
    {
        self.position(label).is_some()
    }

    /// Stores `block` under `label`, in place of the block that was stored
    /// there, if any.
    pub fn insert(&mut self, label: Id, block: Block)
        requires
            old(self).wf(),
        ensures
            final(self).wf(),
            final(self)@ == old(self)@.insert(label@, block@),
            final(self).labels() == if old(self)@.contains_key(label@) {
                old(self).labels()
            } else {
                old(self).labels().push(label@)
            },
    {
        let ghost before = self.labels();
        let ghost old_map = self@;
        let ghost old_entries = self.entries@;
        match self.position(&label) {
            Some(i) => {
                self.entries.set(i, (label, block));
                proof {
                    assert(self.labels() =~= before);
                    assert forall|l: Seq<char>| self@.contains_key(l) implies self@[l]
                        == old_map.insert(label@, block@)[l] by {
                        let j = before.index_of(l);
                        if j != i as int {
                            assert(self.entries@[j] == old_entries[j]);
                        }
                    }
                    assert(self@ =~= old_map.insert(label@, block@));
                }
            },
            None => {
                self.entries.push((label, block));
                proof {
                    let after = self.labels();
                    assert(after =~= before.push(label@));
                    assert(after[before.len() as int] == label@);
                    assert forall|l: Seq<char>| after.contains(l) <==> (before.contains(l) || l
                        == label@) by {
                        if after.contains(l) {
                            let j = choose|j: int| 0 <= j < after.len() && after[j] == l;
                            if j < before.len() {
                                assert(before[j] == l);
                            }
                        }
                        if before.contains(l) {
                            let j = choose|j: int| 0 <= j < before.len() && before[j] == l;
                            assert(after[j] == l);
                        }
                    }
                    assert forall|l: Seq<char>| self@.contains_key(l) implies self@[l]
                        == old_map.insert(label@, block@)[l] by {
                        let j = after.index_of(l);
                        assert(0 <= j < after.len() && after[j] == l);
                        if l != label@ {
                            assert(j < before.len());
                            let k = before.index_of(l);
                            assert(0 <= k < before.len() && before[k] == l);
                            assert(after[k] == l);
                            assert(j == k);
                            assert(self.entries@[j] == old_entries[j]);
                        } else {
                            assert(j == before.len());
                        }
                    }
                    assert(self@ =~= old_map.insert(label@, block@));
                }
            },
        }
    }

    /// The number of blocks.
    pub fn len(&self) -> (r: usize)
        requires
            self.wf(),
        ensures
            r == self@.dom().len(),
            r == self.labels().len(),
    {
        proof {
            self.lemma_dom_len();
        }
        self.entries.len()
    }
}

} // verus!
