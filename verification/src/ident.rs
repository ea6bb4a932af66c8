//! Identifiers: symbolic names compared by their text.

use vstd::prelude::*;

verus! {

/// A symbolic name. Two identifiers are the same symbol exactly when their
/// texts are equal, so an identifier is modelled by its text.
#[derive(Debug, PartialEq, Eq, PartialOrd, Ord, Hash)]
pub struct Id {
    pub name: String,
}

impl View for Id {
    type V = Seq<char>;

    open spec fn view(&self) -> Seq<char> {
        self.name@
    }
}

impl Clone for Id {
    fn clone(&self) -> (r: Self)
        ensures
            r@ == self@,
    {
        Id { name: self.name.clone() }
    }
}

impl Id {
    /// Whether two identifiers are the same symbol.
    pub fn same(&self, other: &Id) -> (r: bool)
        ensures
            r == (self@ == other@),
    {
        self.name == other.name
    }

    /// The text of the identifier.
    pub fn as_str(&self) -> (r: &str)
        ensures
            r@ == self@,
    {
        self.name.as_str()
    }
}

/// The identifier whose text is `name`.
pub fn id(name: &str) -> (r: Id)
    ensures
        r@ == name@,
{
    Id { name: name.to_owned() }
}

} // verus!
