use vstd::prelude::*;
use vstd::string::StringSliceAdditionalSpecFns;
use vstd::utf8::encode_utf8;

use crate::db_id::DbId;
use crate::error::Error;

verus! {

/// The descriptors given to a cache level: each record key with one of its
/// descriptor strings, as bytes
pub open spec fn corpus_of(descrs: Seq<(DbId, String)>) -> Seq<(DbId, Seq<u8>)> {
    descrs.map_values(|e: (DbId, String)| (e.0, encode_utf8(e.1@)))
}

/// The descriptor is long enough for prefix length `n` and starts with `p`
pub open spec fn prefix_matches(d: Seq<u8>, n: nat, p: Seq<u8>) -> bool {
    d.len() >= n && d.take(n as int) == p
}

/// What a level of prefix length `n` built from `c` holds for the prefix `p`:
/// nothing if no descriptor starts with it, the key of the one record whose
/// descriptors start with it, or the "none" key if several records' do
pub open spec fn level_of(c: Seq<(DbId, Seq<u8>)>, n: nat, p: Seq<u8>) -> Option<DbId>
    decreases c.len(),
{
    if c.len() == 0 {
        None
    } else {
        let prev = level_of(c.drop_last(), n, p);
        if prefix_matches(c.last().1, n, p) {
            match prev {
                None => Some(c.last().0),
                Some(k) => if k == c.last().0 {
                    Some(k)
                } else {
                    Some(DbId { id: 0 })
                },
            }
        } else {
            prev
        }
    }
}

/// The level's answer for the text `t`
pub open spec fn lookup_level(c: Seq<(DbId, Seq<u8>)>, n: nat, t: Seq<u8>) -> Option<DbId> {
    if t.len() < n {
        None
    } else {
        level_of(c, n, t.take(n as int))
    }
}

/// Descriptor `j` is too short for length `n`, and its record has no
/// descriptor that is long enough
pub open spec fn short_orphan(c: Seq<(DbId, Seq<u8>)>, n: nat, j: int) -> bool {
    &&& 0 <= j < c.len()
    &&& c[j].1.len() < n
    &&& forall|i: int| 0 <= i < c.len() && #[trigger] c[i].0 == c[j].0 ==> c[i].1.len() < n
}

/// The answer of the levels from `i` on for the text `t`: the first level
/// that finds a single record decides; a level that finds nothing ends the
/// search with nothing; levels that find several records pass the text on
pub open spec fn find_from(levels: Seq<(nat, Seq<(DbId, Seq<u8>)>)>, t: Seq<u8>, i: int) -> Option<
    DbId,
>
    decreases levels.len() - i,
{
    if i < 0 || i >= levels.len() {
        Some(DbId { id: 0 })
    } else {
        match lookup_level(levels[i].1, levels[i].0, t) {
            None => None,
            Some(k) => if k.id == 0 {
                find_from(levels, t, i + 1)
            } else {
                Some(k)
            },
        }
    }
}

/// A record that a level names alone has a descriptor in the level
pub proof fn lemma_level_names_member(c: Seq<(DbId, Seq<u8>)>, n: nat, p: Seq<u8>)
    requires
        level_of(c, n, p) matches Some(k) && k.id != 0,
    ensures
        exists|j: int| 0 <= j < c.len() && #[trigger] c[j].0 == level_of(c, n, p)->Some_0,
    decreases c.len(),
{
    let prev = level_of(c.drop_last(), n, p);
    if prefix_matches(c.last().1, n, p) {
        assert(c[c.len() - 1].0 == c.last().0);
    } else {
        lemma_level_names_member(c.drop_last(), n, p);
        let j = choose|j: int| 0 <= j < c.drop_last().len() && #[trigger] c.drop_last()[j].0 == prev->Some_0;
        assert(c[j] == c.drop_last()[j]);
    }
}

/// A record that the levels name alone is named alone by one of them
pub proof fn lemma_find_from_level(levels: Seq<(nat, Seq<(DbId, Seq<u8>)>)>, t: Seq<u8>, i: int)
    requires
        0 <= i,
        find_from(levels, t, i) matches Some(k) && k.id != 0,
    ensures
        exists|l: int|
            i <= l < levels.len() && #[trigger] lookup_level(levels[l].1, levels[l].0, t) == find_from(levels, t, i),
    decreases levels.len() - i,
{
    if i < levels.len() {
        match lookup_level(levels[i].1, levels[i].0, t) {
            None => {},
            Some(k) => if k.id == 0 {
                lemma_find_from_level(levels, t, i + 1);
            },
        }
    }
}

/// Growing the cache never changes an answer that named a single record,
/// nor one that found nothing
pub proof fn lemma_grow_keeps_unique(
    levels: Seq<(nat, Seq<(DbId, Seq<u8>)>)>,
    extra: (nat, Seq<(DbId, Seq<u8>)>),
    t: Seq<u8>,
    i: int,
)
    requires
        0 <= i <= levels.len(),
        find_from(levels, t, i) != Some(DbId { id: 0 }),
    ensures
        find_from(levels.push(extra), t, i) == find_from(levels, t, i),
    decreases levels.len() - i,
{
    if i < levels.len() {
        assert(levels.push(extra)[i] == levels[i]);
        match lookup_level(levels[i].1, levels[i].0, t) {
            None => {},
            Some(k) => if k.id == 0 {
                lemma_grow_keeps_unique(levels, extra, t, i + 1);
            },
        }
    }
}

/// Within one corpus, a record that a prefix names alone is named alone, or
/// nothing is found, at every longer prefix of the same text
pub proof fn lemma_longer_prefix_refines(c: Seq<(DbId, Seq<u8>)>, n: nat, m: nat, t: Seq<u8>)
    requires
        n <= m,
        lookup_level(c, n, t) matches Some(k) && k.id != 0,
    ensures
        lookup_level(c, m, t) is None || lookup_level(c, m, t) == lookup_level(c, n, t),
{
    let k = lookup_level(c, n, t)->Some_0;
    lemma_level_unique_all(c, n, t.take(n as int));
    if t.len() >= m {
        let q = t.take(m as int);
        assert(q.take(n as int) =~= t.take(n as int));
        assert forall|j: int| 0 <= j < c.len() && prefix_matches(c[j].1, m, q) implies prefix_matches(
            c[j].1,
            n,
            t.take(n as int),
        ) by {
            assert(c[j].1.take(n as int) =~= c[j].1.take(m as int).take(n as int));
        }
        lemma_level_of_all_same(c, m, q, k);
    }
}

/// A single record named at a prefix has every descriptor starting with it
proof fn lemma_level_unique_all(c: Seq<(DbId, Seq<u8>)>, n: nat, p: Seq<u8>)
    requires
        level_of(c, n, p) matches Some(k) && k.id != 0,
    ensures
        forall|j: int|
            0 <= j < c.len() && prefix_matches(c[j].1, n, p) ==> c[j].0 == level_of(
                c,
                n,
                p,
            )->Some_0,
    decreases c.len(),
{
    let prev = level_of(c.drop_last(), n, p);
    if prev is Some {
        lemma_level_unique_all(c.drop_last(), n, p);
    } else {
        lemma_level_none(c.drop_last(), n, p);
    }
    assert forall|j: int|
        0 <= j < c.len() && prefix_matches(c[j].1, n, p) implies c[j].0 == level_of(
        c,
        n,
        p,
    )->Some_0 by {
        if j < c.len() - 1 {
            assert(c.drop_last()[j] == c[j]);
        }
    }
}

/// Nothing found at a prefix means no descriptor starts with it
proof fn lemma_level_none(c: Seq<(DbId, Seq<u8>)>, n: nat, p: Seq<u8>)
    requires
        level_of(c, n, p) is None,
    ensures
        forall|j: int| 0 <= j < c.len() ==> !prefix_matches(#[trigger] c[j].1, n, p),
    decreases c.len(),
{
    if c.len() > 0 {
        lemma_level_none(c.drop_last(), n, p);
        assert forall|j: int| 0 <= j < c.len() implies !prefix_matches(#[trigger] c[j].1, n, p) by {
            if j < c.len() - 1 {
                assert(c.drop_last()[j] == c[j]);
            }
        }
    }
}

/// Where every descriptor that starts with `p` is of record `k`, the level
/// finds `k` or nothing
proof fn lemma_level_of_all_same(c: Seq<(DbId, Seq<u8>)>, n: nat, p: Seq<u8>, k: DbId)
    requires
        forall|j: int| 0 <= j < c.len() && prefix_matches(c[j].1, n, p) ==> c[j].0 == k,
    ensures
        level_of(c, n, p) is None || level_of(c, n, p) == Some(k),
    decreases c.len(),
{
    if c.len() > 0 {
        assert forall|j: int|
            0 <= j < c.drop_last().len() && prefix_matches(c.drop_last()[j].1, n, p) implies c.drop_last()[j].0
            == k by {
            assert(c.drop_last()[j] == c[j]);
        }
        lemma_level_of_all_same(c.drop_last(), n, p, k);
    }
}

/// The bytes `a` equal the first `n` bytes of `b`
fn bytes_eq_prefix(a: &Vec<u8>, b: &[u8], n: usize) -> (r: bool)
    requires
        n <= b@.len(),
        a@.len() == n,
    ensures
        r == (a@ == b@.take(n as int)),
{
    let mut i: usize = 0;
    while i < n
        invariant
            i <= n,
            n <= b@.len(),
            a@.len() == n,
            forall|k: int| 0 <= k < i ==> a@[k] == b@[k],
        decreases n - i,
    {
        if a[i] != b[i] {
            assert(a@[i as int] != b@.take(n as int)[i as int]);
            return false;
        }
        i += 1;
    }
    assert(a@ =~= b@.take(n as int));
    true
}

/// The first `n` bytes of `b`
fn prefix_vec(b: &[u8], n: usize) -> (r: Vec<u8>)
    requires
        n <= b@.len(),
    ensures
        r@ == b@.take(n as int),
{
    let mut r: Vec<u8> = Vec::new();
    let mut i: usize = 0;
    while i < n
        invariant
            i <= n,
            n <= b@.len(),
            r@ == b@.take(i as int),
        decreases n - i,
    {
        r.push(b[i]);
        assert(b@.take(i as int + 1) =~= b@.take(i as int).push(b@[i as int]));
        i += 1;
    }
    r
}

/// One level of the description cache: a table from descriptor prefixes of
/// one length to the key of the record they belong to
pub struct RelatedPartiesCache {
    descr_len: usize,
    parties: Vec<(Vec<u8>, DbId)>,
    corpus: Ghost<Seq<(DbId, Seq<u8>)>>,
}

impl RelatedPartiesCache {
    /// The prefix length and the descriptors the level was built from
    pub closed spec fn spec_level(&self) -> (nat, Seq<(DbId, Seq<u8>)>) {
        (self.descr_len as nat, self.corpus@)
    }

    /// The table holds exactly what [level_of] gives for each prefix
    pub closed spec fn wf(&self) -> bool {
        table_wf(self.parties@, self.descr_len as nat, self.corpus@)
    }

    /// The prefix length of the level
    pub fn descr_len(&self) -> (r: usize)
        ensures
            r == self.spec_level().0,
    {
        self.descr_len
    }

    /// The level's answer for `descr`: nothing if it is shorter than the
    /// prefix length or no descriptor shares its prefix, else the key of the
    /// one record that does, or the "none" key if several do
    pub fn find_item(&self, descr: &str) -> (r: Option<DbId>)
        requires
            self.wf(),
        ensures
            r == lookup_level(self.spec_level().1, self.spec_level().0, descr.spec_bytes()),
    {
        let n = self.descr_len;
        let b = descr.as_bytes();
        if b.len() < n {
            return None;
        }
        let ghost p = b@.take(n as int);
        assert(b@ == descr.spec_bytes());
        let mut i: usize = 0;
        while i < self.parties.len()
            invariant
                self.wf(),
                n == self.descr_len,
                n <= b@.len(),
                p == b@.take(n as int),
                b@ == descr.spec_bytes(),
                i <= self.parties@.len(),
                forall|k: int| 0 <= k < i ==> self.parties@[k].0@ != p,
            decreases self.parties@.len() - i,
        {
            assert(self.parties@[i as int].0@.len() == n);
            if bytes_eq_prefix(&self.parties[i].0, b, n) {
                assert(self.parties@[i as int].0@ == p);
                assert(level_of(self.corpus@, n as nat, p) == Some(self.parties@[i as int].1));
                return Some(self.parties[i].1);
            }
            i += 1;
        }
        proof {
            lemma_table_not_found(self.parties@, n as nat, self.corpus@, p);
        }
        None
    }

    /// A level of prefix length `descr_len` built from `descrs`
    ///
    /// Descriptors shorter than the prefix length are passed over; it is an
    /// error if such a descriptor's record has none that is long enough,
    /// since that record could then never be found.
    pub fn create(descr_len: usize, descrs: &Vec<(DbId, String)>) -> (r: Result<Self, Error>)
        ensures
            r is Err <==> exists|j: int| #[trigger] short_orphan(corpus_of(descrs@), descr_len as nat, j),
            r matches Err(e) ==> e matches Error::DescriptorTooShort(k) && exists|j: int|
                #[trigger] short_orphan(corpus_of(descrs@), descr_len as nat, j) && corpus_of(descrs@)[j].0
                    == k,
            r matches Ok(c) ==> c.wf() && c.spec_level() == (
                descr_len as nat,
                corpus_of(descrs@),
            ),
    {
        let ghost full = corpus_of(descrs@);
        let n = descr_len;
        let mut parties: Vec<(Vec<u8>, DbId)> = Vec::new();
        let mut j: usize = 0;
        while j < descrs.len()
            invariant
                j <= descrs@.len(),
                full == corpus_of(descrs@),
                n == descr_len,
                table_wf(parties@, n as nat, full.take(j as int)),
                forall|k: int| 0 <= k < j ==> !short_orphan(full, n as nat, k),
            decreases descrs@.len() - j,
        {
            let id = descrs[j].0;
            let b = descrs[j].1.as_str().as_bytes();
            assert(b@ == full[j as int].1);
            assert(full.take(j as int + 1).drop_last() =~= full.take(j as int));
            if b.len() < n {
                if !Self::has_long_descr(descrs, id, n) {
                    assert(full[j as int].0 == id);
                    assert(short_orphan(full, n as nat, j as int));
                    return Err(Error::DescriptorTooShort(id));
                }
                proof {
                    lemma_level_skip(full.take(j as int + 1), n as nat);
                }
            } else {
                let key = prefix_vec(b, n);
                Self::insert_key(&mut parties, key, id, n, Ghost(full.take(j as int)), Ghost(b@));
                assert(full.take(j as int + 1) =~= full.take(j as int).push((id, b@)));
            }
            j += 1;
        }
        assert(full.take(descrs@.len() as int) =~= full);
        proof {
            assert forall|k: int| !short_orphan(full, n as nat, k) by {
                if 0 <= k < full.len() {
                    assert(!short_orphan(full, n as nat, k));
                }
            }
        }
        Ok(RelatedPartiesCache { descr_len: n, parties, corpus: Ghost(full) })
    }

    /// Some descriptor of record `id` is at least `n` bytes long
    fn has_long_descr(descrs: &Vec<(DbId, String)>, id: DbId, n: usize) -> (r: bool)
        ensures
            r == exists|i: int|
                0 <= i < descrs@.len() && #[trigger] corpus_of(descrs@)[i].0 == id && corpus_of(
                    descrs@,
                )[i].1.len() >= n,
    {
        let ghost full = corpus_of(descrs@);
        let mut i: usize = 0;
        while i < descrs.len()
            invariant
                i <= descrs@.len(),
                full == corpus_of(descrs@),
                forall|k: int| 0 <= k < i ==> !(#[trigger] full[k].0 == id && full[k].1.len() >= n),
            decreases descrs@.len() - i,
        {
            let b = descrs[i].1.as_str().as_bytes();
            assert(b@ == full[i as int].1);
            if descrs[i].0 == id && b.len() >= n {
                assert(full[i as int].0 == id);
                return true;
            }
            i += 1;
        }
        false
    }

    /// Add the prefix `key` of record `id` to the table
    fn insert_key(
        parties: &mut Vec<(Vec<u8>, DbId)>,
        key: Vec<u8>,
        id: DbId,
        n: usize,
        c: Ghost<Seq<(DbId, Seq<u8>)>>,
        d: Ghost<Seq<u8>>,
    )
        requires
            table_wf(old(parties)@, n as nat, c@),
            d@.len() >= n,
            key@ == d@.take(n as int),
        ensures
            table_wf(final(parties)@, n as nat, c@.push((id, d@))),
    {
        let ghost c2 = c@.push((id, d@));
        assert(c2.drop_last() =~= c@);
        assert(key@.take(n as int) =~= key@);
        let mut i: usize = 0;
        while i < parties.len()
            invariant
                table_wf(parties@, n as nat, c@),
                key@.len() == n,
                d@.len() >= n,
                key@ == d@.take(n as int),
                key@.take(n as int) == key@,
                i <= parties@.len(),
                forall|k: int| 0 <= k < i ==> parties@[k].0@ != key@,
            decreases parties@.len() - i,
        {
            assert(parties@[i as int].0@.len() == n);
            if bytes_eq_prefix(&parties[i].0, key.as_slice(), n) {
                assert(key@.take(n as int) =~= key@);
                let old_id = parties[i].1;
                let new_id = if old_id == id {
                    old_id
                } else {
                    DbId { id: 0 }
                };
                let ghost before = parties@;
                let mut entry = parties.remove(i);
                entry.1 = new_id;
                parties.insert(i, entry);
                assert(parties@ =~= before.update(i as int, (before[i as int].0, new_id)));
                proof {
                    lemma_table_update(before, n as nat, c@, id, d@, i as int, new_id);
                }
                return;
            }
            i += 1;
        }
        let ghost before = parties@;
        proof {
            lemma_table_not_found(before, n as nat, c@, key@);
        }
        parties.push((key, id));
        proof {
            lemma_table_push(before, n as nat, c@, id, d@);
        }
    }
}

/// The table of a level: prefixes of length `n`, each once, each with what
/// [level_of] gives for it, and every prefix that [level_of] finds present
pub open spec fn table_wf(t: Seq<(Vec<u8>, DbId)>, n: nat, c: Seq<(DbId, Seq<u8>)>) -> bool {
    &&& forall|a: int, b: int| 0 <= a < b < t.len() ==> t[a].0@ != t[b].0@
    &&& forall|a: int|
        0 <= a < t.len() ==> (#[trigger] t[a]).0@.len() == n && level_of(c, n, t[a].0@) == Some(
            t[a].1,
        )
    &&& forall|p: Seq<u8>|
        p.len() == n && #[trigger] level_of(c, n, p) is Some ==> exists|a: int|
            0 <= a < t.len() && t[a].0@ == p
}

proof fn lemma_level_skip(c: Seq<(DbId, Seq<u8>)>, n: nat)
    requires
        c.len() > 0,
        c.last().1.len() < n,
    ensures
        forall|p: Seq<u8>| #[trigger] level_of(c, n, p) == level_of(c.drop_last(), n, p),
{
}

proof fn lemma_table_not_found(t: Seq<(Vec<u8>, DbId)>, n: nat, c: Seq<(DbId, Seq<u8>)>, key: Seq<u8>)
    requires
        table_wf(t, n, c),
        key.len() == n,
        forall|k: int| 0 <= k < t.len() ==> t[k].0@ != key,
    ensures
        level_of(c, n, key) is None,
{
    if level_of(c, n, key) is Some {
        let a = choose|a: int| 0 <= a < t.len() && t[a].0@ == key;
        assert(t[a].0@ != key);
    }
}

proof fn lemma_table_push(
    t: Seq<(Vec<u8>, DbId)>,
    n: nat,
    c: Seq<(DbId, Seq<u8>)>,
    id: DbId,
    d: Seq<u8>,
)
    requires
        table_wf(t, n, c),
        d.len() >= n,
        level_of(c, n, d.take(n as int)) is None,
        forall|k: int| 0 <= k < t.len() ==> t[k].0@ != d.take(n as int),
    ensures
        forall|key: Vec<u8>|
            key@ == d.take(n as int) ==> table_wf(t.push((key, id)), n, c.push((id, d))),
{
    let c2 = c.push((id, d));
    assert(c2.drop_last() =~= c);
    assert forall|key: Vec<u8>| key@ == d.take(n as int) implies table_wf(
        t.push((key, id)),
        n,
        c2,
    ) by {
        let t2 = t.push((key, id));
        assert forall|a: int| 0 <= a < t2.len() implies (#[trigger] t2[a]).0@.len() == n
            && level_of(c2, n, t2[a].0@) == Some(t2[a].1) by {
            if a < t.len() {
                assert(t2[a] == t[a]);
            }
        }
        assert forall|p: Seq<u8>| p.len() == n && #[trigger] level_of(c2, n, p) is Some implies exists|
            a: int,
        | 0 <= a < t2.len() && t2[a].0@ == p by {
            if p == d.take(n as int) {
                assert(t2[t.len() as int].0@ == p);
            } else {
                assert(!prefix_matches(d, n, p));
                assert(level_of(c, n, p) is Some);
                let a = choose|a: int| 0 <= a < t.len() && t[a].0@ == p;
                assert(t2[a] == t[a]);
            }
        }
    }
}

proof fn lemma_table_update(
    t: Seq<(Vec<u8>, DbId)>,
    n: nat,
    c: Seq<(DbId, Seq<u8>)>,
    id: DbId,
    d: Seq<u8>,
    i: int,
    new_id: DbId,
)
    requires
        table_wf(t, n, c),
        d.len() >= n,
        0 <= i < t.len(),
        t[i].0@ == d.take(n as int),
        new_id == (if t[i].1 == id {
            t[i].1
        } else {
            DbId { id: 0 }
        }),
    ensures
        table_wf(t.update(i, (t[i].0, new_id)), n, c.push((id, d))),
{
    let c2 = c.push((id, d));
    assert(c2.drop_last() =~= c);
    let t2 = t.update(i, (t[i].0, new_id));
    assert forall|a: int| 0 <= a < t2.len() implies (#[trigger] t2[a]).0@.len() == n && level_of(
        c2,
        n,
        t2[a].0@,
    ) == Some(t2[a].1) by {
        if a != i {
            assert(t2[a] == t[a]);
            assert(t[a].0@ != t[i].0@);
        }
    }
    assert forall|p: Seq<u8>| p.len() == n && #[trigger] level_of(c2, n, p) is Some implies exists|
        a: int,
    | 0 <= a < t2.len() && t2[a].0@ == p by {
        if p == d.take(n as int) {
            assert(t2[i].0@ == p);
        } else {
            assert(!prefix_matches(d, n, p));
            assert(level_of(c, n, p) is Some);
            let a = choose|a: int| 0 <= a < t.len() && t[a].0@ == p;
            assert(t2[a].0@ == t[a].0@);
        }
    }
}

/// The description cache: levels of growing prefix length, shortest first
pub struct RelatedParties {
    min_len: usize,
    max_len: usize,
    step: usize,
    caches: Vec<RelatedPartiesCache>,
}

impl RelatedParties {
    /// The prefix lengths and descriptors of the levels, shortest first
    pub closed spec fn spec_levels(&self) -> Seq<(nat, Seq<(DbId, Seq<u8>)>)> {
        self.caches@.map_values(|c: RelatedPartiesCache| c.spec_level())
    }

    pub closed spec fn spec_config(&self) -> (usize, usize, usize) {
        (self.min_len, self.max_len, self.step)
    }

    pub closed spec fn wf(&self) -> bool {
        forall|i: int| 0 <= i < self.caches@.len() ==> (#[trigger] self.caches@[i]).wf()
    }

    /// A cache with no levels, to grow from `min_len` by `step` up to `max_len`
    pub fn new(min_len: usize, max_len: usize, step: usize) -> (r: Self)
        ensures
            r.wf(),
            r.spec_levels() == Seq::<(nat, Seq<(DbId, Seq<u8>)>)>::empty(),
            r.spec_config() == (min_len, max_len, step),
    {
        let r = RelatedParties { min_len, max_len, step, caches: Vec::new() };
        assert(r.spec_levels() =~= Seq::<(nat, Seq<(DbId, Seq<u8>)>)>::empty());
        r
    }

    /// True for a cache configured with no length at all
    pub fn is_none(&self) -> (r: bool)
        ensures
            r == (self.spec_config().1 == 0),
    {
        self.max_len == 0
    }

    /// The number of levels built
    pub fn num_levels(&self) -> (r: usize)
        ensures
            r == self.spec_levels().len(),
    {
        self.caches.len()
    }

    /// The cache's answer for `descr`: the key of the one record it names,
    /// nothing if no record matches, or the "none" key if the levels built
    /// cannot tell (no level yet, or several records at every level)
    pub fn find_item_with_collisions(&self, descr: &str) -> (r: Option<DbId>)
        requires
            self.wf(),
        ensures
            r == find_from(self.spec_levels(), descr.spec_bytes(), 0),
    {
        let ghost levels = self.spec_levels();
        let ghost t = descr.spec_bytes();
        let mut i: usize = 0;
        while i < self.caches.len()
            invariant
                self.wf(),
                levels == self.spec_levels(),
                levels.len() == self.caches@.len(),
                t == descr.spec_bytes(),
                i <= levels.len(),
                find_from(levels, t, 0) == find_from(levels, t, i as int),
            decreases levels.len() - i,
        {
            assert(levels[i as int] == self.caches@[i as int].spec_level());
            match self.caches[i].find_item(descr) {
                Some(db_id) => {
                    if !db_id.is_none() {
                        return Some(db_id);
                    }
                },
                None => {
                    return None;
                },
            }
            i += 1;
        }
        Some(DbId::none())
    }

    /// Add a level built from `descrs`, one step longer than the last
    ///
    /// Fails with [Error::CacheExhausted], adding nothing, once the last
    /// level has reached the maximum length; fails as
    /// [RelatedPartiesCache::create] does, adding nothing, on a descriptor
    /// that is too short.
    pub fn add_new_cache(&mut self, descrs: &Vec<(DbId, String)>) -> (r: Result<(), Error>)
        requires
            old(self).wf(),
        ensures
            final(self).wf(),
            final(self).spec_config() == old(self).spec_config(),
            r is Ok ==> final(self).spec_levels() == old(self).spec_levels().push(
                (next_len(old(self).spec_levels(), old(self).spec_config()) as nat, corpus_of(descrs@)),
            ),
            r is Err ==> final(self).spec_levels() == old(self).spec_levels(),
            exhausted(old(self).spec_levels(), old(self).spec_config()) ==> r matches Err(
                Error::CacheExhausted,
            ),
            !exhausted(old(self).spec_levels(), old(self).spec_config()) && r is Err ==> r->Err_0 is DescriptorTooShort,
            !exhausted(old(self).spec_levels(), old(self).spec_config()) ==> (r is Err <==> exists|
                j: int,
            |
                #[trigger] short_orphan(
                    corpus_of(descrs@),
                    next_len(old(self).spec_levels(), old(self).spec_config()) as nat,
                    j,
                )),
    {
        let mut descr_len = self.min_len;
        let nc = self.caches.len();
        if nc > 0 {
            let last = self.caches[nc - 1].descr_len();
            assert(self.spec_levels()[nc - 1] == self.caches@[nc - 1].spec_level());
            if last >= self.max_len || self.step > usize::MAX - last {
                return Err(Error::CacheExhausted);
            }
            descr_len = last + self.step;
        }
        let cache = match RelatedPartiesCache::create(descr_len, descrs) {
            Ok(c) => c,
            Err(e) => {
                return Err(e);
            },
        };
        let ghost before = self.spec_levels();
        self.caches.push(cache);
        assert(self.spec_levels() =~= before.push(cache.spec_level()));
        Ok(())
    }
}

/// The last level's length has reached the maximum, or the next would not fit
pub open spec fn exhausted(levels: Seq<(nat, Seq<(DbId, Seq<u8>)>)>, config: (usize, usize, usize)) -> bool {
    levels.len() > 0 && (levels.last().0 >= config.1 || levels.last().0 + config.2 > usize::MAX)
}

/// The prefix length of the next level: the minimum first, then one step on
pub open spec fn next_len(levels: Seq<(nat, Seq<(DbId, Seq<u8>)>)>, config: (usize, usize, usize)) -> int {
    if levels.len() == 0 {
        config.0 as int
    } else {
        levels.last().0 + config.2
    }
}

} // verus!
