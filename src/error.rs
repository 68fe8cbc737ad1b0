use vstd::prelude::*;

use crate::db_id::DbId;

verus! {

/// The errors of the store
#[derive(Debug, Clone)]
pub enum Error {
    /// A date could not be parsed
    ParseDate(String),
    /// An account could not be parsed
    ParseAccount(String),
    /// Two loaded records carried the same key
    DuplicateItemId(DbId),
    /// A reference of a loaded record names no loaded record
    UnresolvedReference(String, DbId),
    /// A record could not join its collection: the name is taken
    DuplicateName(String),
    /// A file name with an extension that is not known
    UnknownFileExtension(String),
    /// A descriptor too short for the cache level being built
    DescriptorTooShort(DbId),
    /// The description cache is at its longest
    CacheExhausted,
}

} // verus!
