use vstd::prelude::*;

use crate::db_id::DbId;
use crate::error::Error;

verus! {

/// A single reference after rebuilding: "none" stays "none", any other key
/// becomes its new key
pub open spec fn rename_id(k: DbId, m: Map<DbId, DbId>) -> DbId {
    if k.id == 0 {
        k
    } else {
        m[k]
    }
}

/// A single reference can be rebuilt: it is "none" or has a new key
pub open spec fn id_resolves(k: DbId, m: Map<DbId, DbId>) -> bool {
    k.id == 0 || m.contains_key(k)
}

/// A single reference is "none" or one of the keys `s`
pub open spec fn id_within(k: DbId, s: Set<DbId>) -> bool {
    k.id == 0 || s.contains(k)
}

/// The mapping from the keys that loaded records carried to the keys they
/// were given
pub struct DatabaseRebuild {
    old_to_new: Vec<(DbId, DbId)>,
    mapping: Ghost<Map<DbId, DbId>>,
}

impl View for DatabaseRebuild {
    type V = Map<DbId, DbId>;

    closed spec fn view(&self) -> Map<DbId, DbId> {
        self.mapping@
    }
}

impl DatabaseRebuild {
    /// The pairs held agree with the mapping, one pair per old key
    pub closed spec fn wf(&self) -> bool {
        &&& forall|i: int|
            0 <= i < self.old_to_new@.len() ==> #[trigger] self.mapping@.contains_key(
                self.old_to_new@[i].0,
            ) && self.mapping@[self.old_to_new@[i].0] == self.old_to_new@[i].1
        &&& forall|k: DbId|
            #[trigger] self.mapping@.contains_key(k) ==> exists|i: int|
                0 <= i < self.old_to_new@.len() && self.old_to_new@[i].0 == k
    }

    /// An empty mapping
    pub fn new() -> (r: Self)
        ensures
            r.wf(),
            r@ == Map::<DbId, DbId>::empty(),
    {
        DatabaseRebuild { old_to_new: Vec::new(), mapping: Ghost(Map::empty()) }
    }

    /// The new key of `old_id`, if it has one
    pub fn get(&self, old_id: DbId) -> (r: Option<DbId>)
        requires
            self.wf(),
        ensures
            r == (if self@.contains_key(old_id) {
                Some(self@[old_id])
            } else {
                None::<DbId>
            }),
    {
        let mut i: usize = 0;
        while i < self.old_to_new.len()
            invariant
                self.wf(),
                i <= self.old_to_new@.len(),
                forall|j: int| 0 <= j < i ==> self.old_to_new@[j].0 != old_id,
            decreases self.old_to_new@.len() - i,
        {
            if self.old_to_new[i].0 == old_id {
                assert(self.mapping@.contains_key(self.old_to_new@[i as int].0));
                return Some(self.old_to_new[i].1);
            }
            i += 1;
        }
        None
    }

    /// Record that the record loaded with `old_id` now has `new_id`
    ///
    /// Fails if `old_id` already has a new key.
    pub fn add_mapping(&mut self, old_id: DbId, new_id: DbId) -> (r: Result<(), Error>)
        requires
            old(self).wf(),
        ensures
            final(self).wf(),
            old(self)@.contains_key(old_id) ==> r is Err && r->Err_0 == Error::DuplicateItemId(
                old_id,
            ) && final(self)@ == old(self)@,
            !old(self)@.contains_key(old_id) ==> r is Ok && final(self)@ == old(self)@.insert(
                old_id,
                new_id,
            ),
    {
        if self.get(old_id).is_some() {
            return Err(Error::DuplicateItemId(old_id));
        }
        let ghost prev = self.old_to_new@;
        self.old_to_new.push((old_id, new_id));
        self.mapping = Ghost(self.mapping@.insert(old_id, new_id));
        assert forall|k: DbId| #[trigger] self.mapping@.contains_key(k) implies exists|i: int|
            0 <= i < self.old_to_new@.len() && self.old_to_new@[i].0 == k by {
            if k != old_id {
                let i = choose|i: int| 0 <= i < prev.len() && prev[i].0 == k;
                assert(self.old_to_new@[i] == prev[i]);
            } else {
                assert(self.old_to_new@[prev.len() as int].0 == k);
            }
        }
        Ok(())
    }

    /// The new key of `old_id`; `reason` names the reference for the error
    pub fn get_new_id(&self, reason: &str, old_id: DbId) -> (r: Result<DbId, Error>)
        requires
            self.wf(),
        ensures
            self@.contains_key(old_id) ==> r == Ok::<DbId, Error>(self@[old_id]),
            !self@.contains_key(old_id) ==> r is Err && r->Err_0 is UnresolvedReference
                && r->Err_0->UnresolvedReference_1 == old_id && r->Err_0->UnresolvedReference_0@ == reason@,
    {
        match self.get(old_id) {
            Some(n) => Ok(n),
            None => Err(Error::UnresolvedReference(reason.to_owned(), old_id)),
        }
    }

    /// A reference rebuilt: "none" is kept, any other key is mapped
    pub fn rename_ref(&self, reason: &str, k: DbId) -> (r: Result<DbId, Error>)
        requires
            self.wf(),
        ensures
            id_resolves(k, self@) ==> r == Ok::<DbId, Error>(rename_id(k, self@)),
            !id_resolves(k, self@) ==> r is Err && r->Err_0 is UnresolvedReference
                && r->Err_0->UnresolvedReference_1 == k && r->Err_0->UnresolvedReference_0@ == reason@
                && !self@.contains_key(k),
    {
        if k.is_none() {
            Ok(k)
        } else {
            self.get_new_id(reason, k)
        }
    }
}

} // verus!
