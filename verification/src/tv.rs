//! The translation vector: the flat sequence of labels, instructions and
//! terminators that lowering produces before blocks are formed.

use vstd::prelude::*;
use crate::ident::Id;
use crate::tir::{Instruction, InstructionView, Terminator, TerminatorView};

verus! {

/// An entry of the translation vector.
#[derive(Debug, PartialEq, Eq)]
pub enum TvEntry {
    /// The label of the block that starts here.
    Label(Id),
    /// An instruction inside a block.
    Inner(Instruction),
    /// The terminator that ends a block.
    Term(Terminator),
}

/// The mathematical value of a [`TvEntry`].
pub enum TvEntryView {
    Label(Seq<char>),
    Inner(InstructionView),
    Term(TerminatorView),
}

impl View for TvEntry {
    type V = TvEntryView;

    open spec fn view(&self) -> TvEntryView {
        match self {
            TvEntry::Label(l) => TvEntryView::Label(l@),
            TvEntry::Inner(i) => TvEntryView::Inner(i@),
            TvEntry::Term(t) => TvEntryView::Term(t@),
        }
    }
}

/// The values of the entries of `tv`, in order.
pub open spec fn tv_view(tv: Seq<TvEntry>) -> Seq<TvEntryView> {
    Seq::new(tv.len(), |i: int| tv[i]@)
}

impl TvEntry {
    /// The instruction of an `Inner` entry, and nothing for the others.
    pub fn get_inner(self) -> (r: Option<Instruction>)
        ensures
            match r {
                Some(i) => self@ == TvEntryView::Inner(i@),
                None => !(self@ is Inner),
            },
    {
        if let TvEntry::Inner(i) = self {
            Some(i)
        } else {
            None
        }
    }
}

} // verus!
