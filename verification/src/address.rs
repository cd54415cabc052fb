use vstd::prelude::*;

verus! {

/// The key of an optional address.
pub open spec fn opt_key(a: Option<Address>) -> Option<Seq<char>> {
    match a {
        Some(x) => Some(x@),
        None => None,
    }
}

/// An account or contract address, identified by its textual key.
#[derive(Debug, PartialEq, Eq, Hash)]
pub struct Address {
    key: String,
}

impl View for Address {
    type V = Seq<char>;

    closed spec fn view(&self) -> Seq<char> {
        self.key@
    }
}

impl Address {
    /// Makes an address from its textual key.
    pub fn new(key: String) -> (a: Address)
        ensures
            a@ == key@,
    {
        Address { key }
    }

    /// The textual key of this address.
    pub fn key(&self) -> (k: &String)
        ensures
            k@ == self@,
    {
        &self.key
    }

    /// Whether two addresses denote the same account.
    pub fn same_as(&self, other: &Address) -> (r: bool)
        ensures
            r == (self@ == other@),
    {
        self.key == other.key
    }

    /// A copy of this address.
    pub fn copy(&self) -> (a: Address)
        ensures
            a == *self,
            a@ == self@,
    {
        Address { key: self.key.clone() }
    }
}


} // verus!
