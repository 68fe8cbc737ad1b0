use vstd::prelude::*;

use crate::db_id::DbId;

verus! {

/// The map after adding each of `names` for `id` in turn, a name already
/// present keeping its key
pub open spec fn add_names(m: Map<Seq<char>, DbId>, names: Seq<Seq<char>>, id: DbId) -> Map<
    Seq<char>,
    DbId,
>
    decreases names.len(),
{
    if names.len() == 0 {
        m
    } else {
        let m2 = add_names(m, names.drop_last(), id);
        if m2.contains_key(names.last()) {
            m2
        } else {
            m2.insert(names.last(), id)
        }
    }
}

/// The map after taking out each of `names`
pub open spec fn remove_names(m: Map<Seq<char>, DbId>, names: Seq<Seq<char>>) -> Map<
    Seq<char>,
    DbId,
>
    decreases names.len(),
{
    if names.len() == 0 {
        m
    } else {
        remove_names(m, names.drop_last()).remove(names.last())
    }
}

/// The views of a sequence of strings
pub open spec fn views(names: Seq<String>) -> Seq<Seq<char>> {
    names.map_values(|s: String| s@)
}

/// A lookup from names (and aliases) to the keys of records, one key per name
pub struct NameIndex {
    entries: Vec<(String, DbId)>,
    names: Ghost<Map<Seq<char>, DbId>>,
}

impl View for NameIndex {
    type V = Map<Seq<char>, DbId>;

    closed spec fn view(&self) -> Map<Seq<char>, DbId> {
        self.names@
    }
}

impl NameIndex {
    /// The entries agree with the map, one entry per name
    pub closed spec fn wf(&self) -> bool {
        &&& forall|i: int, j: int|
            0 <= i < j < self.entries@.len() ==> self.entries@[i].0@ != self.entries@[j].0@
        &&& forall|i: int|
            0 <= i < self.entries@.len() ==> #[trigger] self.names@.contains_key(
                self.entries@[i].0@,
            ) && self.names@[self.entries@[i].0@] == self.entries@[i].1
        &&& forall|k: Seq<char>|
            #[trigger] self.names@.contains_key(k) ==> exists|i: int|
                0 <= i < self.entries@.len() && self.entries@[i].0@ == k
    }

    /// An empty index
    pub fn new() -> (r: Self)
        ensures
            r.wf(),
            r@ == Map::<Seq<char>, DbId>::empty(),
    {
        NameIndex { entries: Vec::new(), names: Ghost(Map::empty()) }
    }

    /// The position of `name` among the entries, if present
    fn find(&self, name: &String) -> (r: Option<usize>)
        requires
            self.wf(),
        ensures
            r is None <==> !self@.contains_key(name@),
            r matches Some(i) ==> i < self.entries@.len() && self.entries@[i as int].0@ == name@,
    {
        let mut i: usize = 0;
        while i < self.entries.len()
            invariant
                self.wf(),
                i <= self.entries@.len(),
                forall|k: int| 0 <= k < i ==> self.entries@[k].0@ != name@,
            decreases self.entries@.len() - i,
        {
            if self.entries[i].0 == *name {
                return Some(i);
            }
            i += 1;
        }
        proof {
            if self@.contains_key(name@) {
                let k = choose|k: int| 0 <= k < self.entries@.len() && self.entries@[k].0@ == name@;
                assert(self.entries@[k].0@ == name@);
            }
        }
        None
    }

    /// True if `name` is present
    pub fn contains(&self, name: &str) -> (r: bool)
        requires
            self.wf(),
        ensures
            r == self@.contains_key(name@),
    {
        let key = name.to_owned();
        self.find(&key).is_some()
    }

    /// The key for `name`, if present
    pub fn get(&self, name: &str) -> (r: Option<DbId>)
        requires
            self.wf(),
        ensures
            r == (if self@.contains_key(name@) {
                Some(self@[name@])
            } else {
                None::<DbId>
            }),
    {
        let key = name.to_owned();
        match self.find(&key) {
            Some(i) => {
                assert(self.names@.contains_key(self.entries@[i as int].0@));
                Some(self.entries[i].1)
            },
            None => None,
        }
    }

    /// Add `name` for `id`, unless the name is already present
    pub fn insert(&mut self, name: String, id: DbId) -> (r: bool)
        requires
            old(self).wf(),
        ensures
            final(self).wf(),
            r == !old(self)@.contains_key(name@),
            r ==> final(self)@ == old(self)@.insert(name@, id),
            !r ==> final(self)@ == old(self)@,
    {
        if self.find(&name).is_some() {
            return false;
        }
        let ghost prev = self.entries@;
        let ghost key = name@;
        self.entries.push((name, id));
        self.names = Ghost(self.names@.insert(key, id));
        assert forall|k: Seq<char>| #[trigger] self.names@.contains_key(k) implies exists|i: int|
            0 <= i < self.entries@.len() && self.entries@[i].0@ == k by {
            if k != key {
                let i = choose|i: int| 0 <= i < prev.len() && prev[i].0@ == k;
                assert(self.entries@[i] == prev[i]);
            } else {
                assert(self.entries@[prev.len() as int].0@ == k);
            }
        }
        assert forall|i: int| 0 <= i < self.entries@.len() implies #[trigger] self.names@.contains_key(
            self.entries@[i].0@,
        ) && self.names@[self.entries@[i].0@] == self.entries@[i].1 by {
            if i < prev.len() {
                assert(self.entries@[i] == prev[i]);
                assert(prev[i].0@ != key);
            }
        }
        true
    }

    /// Take `name` out, if present
    pub fn remove(&mut self, name: &str)
        requires
            old(self).wf(),
        ensures
            final(self).wf(),
            final(self)@ == old(self)@.remove(name@),
    {
        let key = name.to_owned();
        match self.find(&key) {
            None => {
                assert(self.names@.remove(key@) =~= self.names@);
            },
            Some(i) => {
                let ghost prev = self.entries@;
                self.entries.remove(i);
                self.names = Ghost(self.names@.remove(key@));
                assert forall|k: Seq<char>| #[trigger] self.names@.contains_key(k) implies exists|
                    j: int,
                | 0 <= j < self.entries@.len() && self.entries@[j].0@ == k by {
                    let j = choose|j: int| 0 <= j < prev.len() && prev[j].0@ == k;
                    if j < i {
                        assert(self.entries@[j] == prev[j]);
                    } else {
                        assert(j != i);
                        assert(self.entries@[j - 1] == prev[j]);
                    }
                }
                assert forall|j: int| 0 <= j < self.entries@.len() implies #[trigger] self.names@.contains_key(
                    self.entries@[j].0@,
                ) && self.names@[self.entries@[j].0@] == self.entries@[j].1 by {
                    if j < i {
                        assert(self.entries@[j] == prev[j]);
                        assert(prev[j].0@ != prev[i as int].0@);
                    } else {
                        assert(self.entries@[j] == prev[j + 1]);
                        assert(prev[j + 1].0@ != prev[i as int].0@);
                    }
                }
                assert forall|a: int, b: int| 0 <= a < b < self.entries@.len() implies self.entries@[a].0@
                    != self.entries@[b].0@ by {
                    let pa = if a < i { a } else { a + 1 };
                    let pb = if b < i { b } else { b + 1 };
                    assert(self.entries@[a] == prev[pa]);
                    assert(self.entries@[b] == prev[pb]);
                }
            },
        }
    }

    /// Add each of `names` for `id`, passing over names already present
    pub fn insert_all(&mut self, names: &[String], id: DbId)
        requires
            old(self).wf(),
        ensures
            final(self).wf(),
            final(self)@ == add_names(old(self)@, views(names@), id),
    {
        let ghost m0 = self@;
        let mut i: usize = 0;
        while i < names.len()
            invariant
                self.wf(),
                i <= names@.len(),
                self@ == add_names(m0, views(names@).take(i as int), id),
            decreases names@.len() - i,
        {
            assert(views(names@).take(i as int + 1).drop_last() =~= views(names@).take(i as int));
            self.insert(names[i].clone(), id);
            i += 1;
        }
        assert(views(names@).take(names@.len() as int) =~= views(names@));
    }

    /// Take out each of `names`
    pub fn remove_all(&mut self, names: &[String])
        requires
            old(self).wf(),
        ensures
            final(self).wf(),
            final(self)@ == remove_names(old(self)@, views(names@)),
    {
        let ghost m0 = self@;
        let mut i: usize = 0;
        while i < names.len()
            invariant
                self.wf(),
                i <= names@.len(),
                self@ == remove_names(m0, views(names@).take(i as int)),
            decreases names@.len() - i,
        {
            assert(views(names@).take(i as int + 1).drop_last() =~= views(names@).take(i as int));
            self.remove(names[i].as_str());
            i += 1;
        }
        assert(views(names@).take(names@.len() as int) =~= views(names@));
    }

    /// True if any of `names` is present
    pub fn contains_any(&self, names: &[String]) -> (r: bool)
        requires
            self.wf(),
        ensures
            r == exists|i: int| 0 <= i < names@.len() && self@.contains_key(#[trigger] names@[i]@),
    {
        let mut i: usize = 0;
        while i < names.len()
            invariant
                self.wf(),
                i <= names@.len(),
                forall|k: int| 0 <= k < i ==> !self@.contains_key(#[trigger] names@[k]@),
            decreases names@.len() - i,
        {
            if self.contains(names[i].as_str()) {
                return true;
            }
            i += 1;
        }
        false
    }
}

} // verus!
