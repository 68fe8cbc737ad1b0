use vstd::prelude::*;

verus! {

/// The value of a [DbId] that means "no record"
pub const DB_ID_NONE: usize = 0;

/// A surrogate key of a record in the store
#[derive(Debug, Clone, Copy, Default, PartialEq, Eq, Structural, Hash, PartialOrd, Ord)]
pub struct DbId {
    pub id: usize,
}

impl DbId {
    pub open spec fn spec_is_none(self) -> bool {
        self.id == DB_ID_NONE
    }

    /// The key with the given integer value
    pub fn of_usize(id: usize) -> (r: Self)
        ensures
            r.id == id,
    {
        DbId { id }
    }

    /// The reserved key that refers to no record
    pub fn none() -> (r: Self)
        ensures
            r.spec_is_none(),
    {
        DbId { id: DB_ID_NONE }
    }

    /// True for the reserved "no record" key
    pub fn is_none(&self) -> (r: bool)
        ensures
            r == self.spec_is_none(),
    {
        self.id == DB_ID_NONE
    }

    /// The integer value of the key
    pub fn index(&self) -> (r: usize)
        ensures
            r == self.id,
    {
        self.id
    }

    /// The key one above this one
    pub fn increment(&self) -> (r: Self)
        requires
            self.id < usize::MAX,
        ensures
            r.id == self.id + 1,
    {
        DbId { id: self.id + 1 }
    }
}

} // verus!
