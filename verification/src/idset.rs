//! A set of identifiers, kept as a list in which no name occurs twice.

use vstd::prelude::*;
use crate::ident::Id;

verus! {

/// The texts of `items`, in order.
pub open spec fn names_of(items: Seq<Id>) -> Seq<Seq<char>> {
    Seq::new(items.len(), |i: int| items[i]@)
}

/// A finite set of identifiers. Members are kept in the order in which they
/// were first inserted.
#[derive(Debug, PartialEq, Eq)]
pub struct IdSet {
    pub items: Vec<Id>,
}

impl View for IdSet {
    type V = Set<Seq<char>>;

    open spec fn view(&self) -> Set<Seq<char>> {
        names_of(self.items@).to_set()
    }
}

impl IdSet {
    /// No name is stored twice.
    pub open spec fn wf(&self) -> bool {
        names_of(self.items@).no_duplicates()
    }

    /// The empty set.
    pub fn new() -> (r: IdSet)
        ensures
            r.wf(),
            r@ == Set::<Seq<char>>::empty(),
    {
        let r = IdSet { items: Vec::new() };
        assert(r@ =~= Set::<Seq<char>>::empty());
        r
    }

    /// Whether `x` is a member.
    pub fn contains(&self, x: &Id) -> (r: bool)
        ensures
            r == self@.contains(x@),
    {
        let mut i: usize = 0;
        while i < self.items.len()
            invariant
                i <= self.items.len(),
                forall|j: int| 0 <= j < i ==> names_of(self.items@)[j] != x@,
            decreases self.items.len() - i,
        {
            if self.items[i].same(x) {
                assert(names_of(self.items@)[i as int] == x@);
                return true;
            }
            i += 1;
        }
        false
    }

    /// Adds `x`; returns whether it was new.
    pub fn insert(&mut self, x: Id) -> (r: bool)
        requires
            old(self).wf(),
        ensures
            final(self).wf(),
            final(self)@ == old(self)@.insert(x@),
            r == !old(self)@.contains(x@),
    {
        if self.contains(&x) {
            assert(self@ =~= self@.insert(x@));
            false
        } else {
            let ghost before = names_of(self.items@);
            self.items.push(x);
            proof {
                let after = names_of(self.items@);
                assert(after =~= before.push(x@));
                assert forall|s: Seq<char>| after.contains(s) <==> (before.contains(s) || s == x@) by {
                    if after.contains(s) {
                        let i = choose|i: int| 0 <= i < after.len() && after[i] == s;
                        if i < before.len() {
                            assert(before[i] == s);
                        }
                    }
                    if before.contains(s) {
                        let i = choose|i: int| 0 <= i < before.len() && before[i] == s;
                        assert(after[i] == s);
                    }
                    if s == x@ {
                        assert(after[before.len() as int] == s);
                    }
                }
                assert(self@ =~= old(self)@.insert(x@));
            }
            true
        }
    }

    /// The number of members.
    pub fn len(&self) -> (r: usize)
        requires
            self.wf(),
        ensures
            r == self@.len(),
    {
        proof {
            names_of(self.items@).unique_seq_to_set();
        }
        self.items.len()
    }
}

} // verus!
