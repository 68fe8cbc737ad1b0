use vstd::prelude::*;

use crate::base_types::{Date, DateRange};
use crate::db_id::DbId;
use crate::error::Error;
use crate::rebuild::DatabaseRebuild;

verus! {

/// A position in an [OrderedTransactions]: a date bucket and an offset in it
#[derive(Debug, Clone, Copy, PartialEq, Eq, Structural)]
pub struct OTCursor {
    pub valid: bool,
    pub idx: usize,
    pub ofs: usize,
}

impl OTCursor {
    /// A valid cursor at offset `ofs` of bucket `idx`
    pub fn new(idx: usize, ofs: usize) -> (r: Self)
        ensures
            r == (OTCursor { valid: true, idx, ofs }),
    {
        OTCursor { valid: true, idx, ofs }
    }

    /// A cursor that points nowhere
    pub fn invalid() -> (r: Self)
        ensures
            r == (OTCursor { valid: false, idx: 0, ofs: 0 }),
    {
        OTCursor { valid: false, idx: 0, ofs: 0 }
    }

    /// True if the cursor points somewhere
    pub fn is_valid(&self) -> (r: bool)
        ensures
            r == self.valid,
    {
        self.valid
    }
}

/// The entries of one bucket, each with the bucket's date
pub open spec fn bucket_entries(b: (usize, Seq<DbId>)) -> Seq<(usize, DbId)> {
    b.1.map_values(|id: DbId| (b.0, id))
}

/// All entries of the buckets, in bucket order and in order within a bucket
pub open spec fn entries(bs: Seq<(usize, Seq<DbId>)>) -> Seq<(usize, DbId)>
    decreases bs.len(),
{
    if bs.len() == 0 {
        Seq::empty()
    } else {
        entries(bs.drop_last()) + bucket_entries(bs.last())
    }
}

/// The number of entries in the buckets before bucket `i`
pub open spec fn offset(bs: Seq<(usize, Seq<DbId>)>, i: int) -> int {
    entries(bs.take(i)).len() as int
}

/// Dates strictly ascending, and no bucket empty
pub open spec fn sorted_buckets(bs: Seq<(usize, Seq<DbId>)>) -> bool {
    &&& forall|i: int, j: int| 0 <= i < j < bs.len() ==> bs[i].0 < bs[j].0
    &&& forall|i: int| 0 <= i < bs.len() ==> #[trigger] bs[i].1.len() > 0
}

/// The buckets after adding `id` at `date`: at the end of the date's bucket,
/// or in a new bucket at its place in date order
pub open spec fn spec_push(bs: Seq<(usize, Seq<DbId>)>, date: usize, id: DbId) -> Seq<
    (usize, Seq<DbId>),
>
    decreases bs.len(),
{
    if bs.len() == 0 {
        seq![(date, seq![id])]
    } else if bs.last().0 == date {
        bs.drop_last().push((date, bs.last().1.push(id)))
    } else if bs.last().0 < date {
        bs.push((date, seq![id]))
    } else {
        spec_push(bs.drop_last(), date, id).push(bs.last())
    }
}

/// The buckets after adding each of `items` in turn
pub open spec fn spec_push_all(bs: Seq<(usize, Seq<DbId>)>, items: Seq<(usize, DbId)>) -> Seq<
    (usize, Seq<DbId>),
>
    decreases items.len(),
{
    if items.len() == 0 {
        bs
    } else {
        spec_push(spec_push_all(bs, items.drop_last()), items.last().0, items.last().1)
    }
}

/// The references whose date the range holds, in entry order
pub open spec fn range_ids(bs: Seq<(usize, Seq<DbId>)>, range: DateRange) -> Seq<DbId> {
    entries(bs).filter(|e: (usize, DbId)| range.spec_contains(e.0)).map_values(
        |e: (usize, DbId)| e.1,
    )
}

/// Every reference of the buckets has a new key in `m`
pub open spec fn ids_resolve(bs: Seq<(usize, Seq<DbId>)>, m: Map<DbId, DbId>) -> bool {
    forall|i: int, j: int|
        0 <= i < bs.len() && 0 <= j < bs[i].1.len() ==> m.contains_key(#[trigger] bs[i].1[j])
}

/// The buckets with every reference replaced by its new key in `m`
pub open spec fn rename_buckets(bs: Seq<(usize, Seq<DbId>)>, m: Map<DbId, DbId>) -> Seq<
    (usize, Seq<DbId>),
> {
    bs.map_values(|b: (usize, Seq<DbId>)| (b.0, b.1.map_values(|id: DbId| m[id])))
}

/// Every reference of the buckets is one of the keys `s`
pub open spec fn buckets_within(bs: Seq<(usize, Seq<DbId>)>, s: Set<DbId>) -> bool {
    forall|i: int, j: int|
        0 <= i < bs.len() && 0 <= j < bs[i].1.len() ==> s.contains(#[trigger] bs[i].1[j])
}

/// Rebuilt references that all resolve land among the keys the mapping gives
pub proof fn lemma_rename_within(bs: Seq<(usize, Seq<DbId>)>, m: Map<DbId, DbId>, s: Set<DbId>)
    requires
        ids_resolve(bs, m),
        forall|k: DbId| #[trigger] m.contains_key(k) ==> s.contains(m[k]),
    ensures
        buckets_within(rename_buckets(bs, m), s),
{
    let r = rename_buckets(bs, m);
    assert forall|i: int, j: int| 0 <= i < r.len() && 0 <= j < r[i].1.len() implies s.contains(
        #[trigger] r[i].1[j],
    ) by {
        assert(r[i].1[j] == m[bs[i].1[j]]);
        assert(m.contains_key(bs[i].1[j]));
    }
}

/// The cursor points at an entry
pub open spec fn cursor_ok(bs: Seq<(usize, Seq<DbId>)>, c: OTCursor) -> bool {
    c.valid && c.idx < bs.len() && c.ofs < bs[c.idx as int].1.len()
}

/// The index in [entries] of the entry the cursor points at
pub open spec fn cursor_pos(bs: Seq<(usize, Seq<DbId>)>, c: OTCursor) -> int {
    offset(bs, c.idx as int) + c.ofs
}

/// A valid cursor stands at one entry, and different cursors at different
/// entries; with [OrderedTransactions::cursor_first] at entry 0 and each
/// [OrderedTransactions::cursor_next] one entry on, until it fails at the
/// last, a walk meets every entry once, in ascending date order
pub proof fn lemma_cursor_positions(bs: Seq<(usize, Seq<DbId>)>, c1: OTCursor, c2: OTCursor)
    requires
        sorted_buckets(bs),
        cursor_ok(bs, c1),
        cursor_ok(bs, c2),
    ensures
        0 <= cursor_pos(bs, c1) < entries(bs).len(),
        cursor_pos(bs, c1) == cursor_pos(bs, c2) ==> c1.idx == c2.idx && c1.ofs == c2.ofs,
        cursor_pos(bs, c1) < cursor_pos(bs, c2) ==> entries(bs)[cursor_pos(bs, c1)].0 <= entries(
            bs,
        )[cursor_pos(bs, c2)].0,
{
    lemma_entry_at(bs, c1.idx as int, c1.ofs as int);
    lemma_entry_at(bs, c2.idx as int, c2.ofs as int);
    lemma_entries_sorted(bs);
    assert(offset(bs, c1.idx as int) >= 0);
    if c1.idx < c2.idx {
        lemma_entries_prefix(bs, c1.idx as int + 1, c2.idx as int);
    } else if c2.idx < c1.idx {
        lemma_entries_prefix(bs, c2.idx as int + 1, c1.idx as int);
    }
}

/// The references of date `d`, in the order they were added
pub open spec fn bucket_of(bs: Seq<(usize, Seq<DbId>)>, d: usize) -> Seq<DbId>
    decreases bs.len(),
{
    if bs.len() == 0 {
        Seq::empty()
    } else if bs.last().0 == d {
        bs.last().1
    } else {
        bucket_of(bs.drop_last(), d)
    }
}

proof fn lemma_bucket_absent(bs: Seq<(usize, Seq<DbId>)>, d: usize)
    requires
        forall|i: int| 0 <= i < bs.len() ==> bs[i].0 != d,
    ensures
        bucket_of(bs, d) == Seq::<DbId>::empty(),
    decreases bs.len(),
{
    if bs.len() > 0 {
        lemma_bucket_absent(bs.drop_last(), d);
    }
}

/// Adding `id` at `date` puts it after every reference already at that
/// date, and leaves every other date as it was
pub proof fn lemma_push_appends(bs: Seq<(usize, Seq<DbId>)>, date: usize, id: DbId, d2: usize)
    requires
        sorted_buckets(bs),
    ensures
        bucket_of(spec_push(bs, date, id), date) == bucket_of(bs, date).push(id),
        d2 != date ==> bucket_of(spec_push(bs, date, id), d2) == bucket_of(bs, d2),
    decreases bs.len(),
{
    let r = spec_push(bs, date, id);
    if bs.len() == 0 {
        assert(r.drop_last() =~= Seq::<(usize, Seq<DbId>)>::empty());
        assert(Seq::<DbId>::empty().push(id) =~= seq![id]);
        assert(r.last().0 == date);
        if d2 != date {
            assert(bucket_of(r, d2) == bucket_of(r.drop_last(), d2));
            assert(bucket_of(r, d2) =~= bucket_of(bs, d2));
        }
    } else if bs.last().0 == date {
        assert(r.drop_last() =~= bs.drop_last());
        assert(r.last().0 == date);
        if d2 != date {
            assert(bucket_of(r, d2) == bucket_of(bs, d2));
        }
    } else if bs.last().0 < date {
        assert(r.drop_last() =~= bs);
        assert(r.last().0 == date);
        if d2 != date {
            assert(bucket_of(r, d2) == bucket_of(bs, d2));
        }
        lemma_bucket_absent(bs, date);
        assert(Seq::<DbId>::empty().push(id) =~= seq![id]);
    } else {
        assert(sorted_buckets(bs.drop_last()));
        lemma_push_appends(bs.drop_last(), date, id, d2);
        assert(r.drop_last() =~= spec_push(bs.drop_last(), date, id));
        assert(r.last() == bs.last());
        if d2 != date {
            assert(bucket_of(r, d2) == bucket_of(bs, d2));
        }
    }
}

/// After any sequence of insertions, the references of each date are those
/// held before followed by those inserted at that date, in the order they
/// were inserted
pub proof fn lemma_push_all_buckets(bs: Seq<(usize, Seq<DbId>)>, items: Seq<(usize, DbId)>, d: usize)
    requires
        sorted_buckets(bs),
    ensures
        bucket_of(spec_push_all(bs, items), d) == bucket_of(bs, d) + items.filter(
            |e: (usize, DbId)| e.0 == d,
        ).map_values(|e: (usize, DbId)| e.1),
    decreases items.len(),
{
    let f = |e: (usize, DbId)| e.0 == d;
    let g = |e: (usize, DbId)| e.1;
    if items.len() == 0 {
        assert(items.filter(f) =~= Seq::<(usize, DbId)>::empty()) by {
            reveal(Seq::filter);
        }
        assert(bucket_of(bs, d) + items.filter(f).map_values(g) =~= bucket_of(bs, d));
    } else {
        let init = items.drop_last();
        let x = items.last();
        lemma_push_all_buckets(bs, init, d);
        lemma_push_all_sorted(bs, init);
        let prev = spec_push_all(bs, init);
        lemma_push_appends(prev, x.0, x.1, d);
        assert(init.push(x) =~= items);
        lemma_filter_push(init, x, f);
        if x.0 == d {
            assert(init.filter(f).push(x).map_values(g) =~= init.filter(f).map_values(g).push(x.1));
            assert((bucket_of(bs, d) + init.filter(f).map_values(g)).push(x.1) =~= bucket_of(bs, d)
                + init.filter(f).map_values(g).push(x.1));
        }
    }
}

/// In the order that cursors walk and ranges return, the entries of date
/// `d` are the references of that date in the order they were inserted
pub proof fn lemma_entries_of_date(bs: Seq<(usize, Seq<DbId>)>, d: usize)
    requires
        sorted_buckets(bs),
    ensures
        entries(bs).filter(|e: (usize, DbId)| e.0 == d).map_values(|e: (usize, DbId)| e.1) == bucket_of(bs, d),
    decreases bs.len(),
{
    let f = |e: (usize, DbId)| e.0 == d;
    let g = |e: (usize, DbId)| e.1;
    if bs.len() == 0 {
        assert(entries(bs).filter(f) =~= Seq::<(usize, DbId)>::empty()) by {
            reveal(Seq::filter);
        }
        assert(entries(bs).filter(f).map_values(g) =~= Seq::<DbId>::empty());
    } else {
        let prev = bs.drop_last();
        let b = bs.last();
        assert(sorted_buckets(prev));
        lemma_entries_of_date(prev, d);
        lemma_filter_append(entries(prev), bucket_entries(b), f);
        if b.0 == d {
            assert forall|k: int| 0 <= k < bucket_entries(b).len() implies f(#[trigger] bucket_entries(b)[k]) by {}
            lemma_filter_all(bucket_entries(b), f);
            assert forall|i: int| 0 <= i < prev.len() implies prev[i].0 != d by {
                assert(bs[i].0 < bs[bs.len() - 1].0);
            }
            lemma_bucket_absent(prev, d);
            assert(entries(prev).filter(f).map_values(g) =~= Seq::<DbId>::empty());
            assert(entries(prev).filter(f) =~= Seq::<(usize, DbId)>::empty());
            assert((entries(prev).filter(f) + bucket_entries(b)).map_values(g) =~= b.1);
        } else {
            assert forall|k: int| 0 <= k < bucket_entries(b).len() implies !f(#[trigger] bucket_entries(b)[k]) by {}
            lemma_filter_none(bucket_entries(b), f);
            assert(entries(prev).filter(f) + Seq::<(usize, DbId)>::empty() =~= entries(prev).filter(f));
        }
    }
}

/// The entries a range selects: each of them lies in the range, every entry
/// that lies in it is among them, and they stand in ascending date order
pub proof fn lemma_range_law(bs: Seq<(usize, Seq<DbId>)>, range: DateRange)
    requires
        sorted_buckets(bs),
    ensures
        ({
            let sel = entries(bs).filter(|e: (usize, DbId)| range.spec_contains(e.0));
            &&& range_ids(bs, range) == sel.map_values(|e: (usize, DbId)| e.1)
            &&& forall|p: int| 0 <= p < sel.len() ==> range.spec_contains(#[trigger] sel[p].0)
            &&& forall|k: int|
                0 <= k < entries(bs).len() && range.spec_contains(entries(bs)[k].0) ==> sel.contains(
                    #[trigger] entries(bs)[k],
                )
            &&& forall|p: int, q: int| 0 <= p < q < sel.len() ==> sel[p].0 <= sel[q].0
        }),
{
    lemma_entries_sorted(bs);
    let f = |e: (usize, DbId)| range.spec_contains(e.0);
    lemma_filter_sorted(entries(bs), f);
}

/// Filtering a sequence sorted by date keeps it sorted, keeps only what
/// passes, and keeps everything that passes
proof fn lemma_filter_sorted(s: Seq<(usize, DbId)>, f: spec_fn((usize, DbId)) -> bool)
    requires
        forall|p: int, q: int| 0 <= p < q < s.len() ==> s[p].0 <= s[q].0,
    ensures
        forall|p: int, q: int| 0 <= p < q < s.filter(f).len() ==> s.filter(f)[p].0 <= s.filter(f)[q].0,
        forall|p: int| 0 <= p < s.filter(f).len() ==> f(#[trigger] s.filter(f)[p]) && s.contains(s.filter(f)[p]),
        forall|k: int| 0 <= k < s.len() && f(s[k]) ==> s.filter(f).contains(#[trigger] s[k]),
    decreases s.len(),
{
    if s.len() == 0 {
        assert(s.filter(f) =~= Seq::<(usize, DbId)>::empty()) by {
            reveal(Seq::filter);
        }
    } else {
        let prev = s.drop_last();
        let x = s.last();
        lemma_filter_sorted(prev, f);
        assert(prev.push(x) =~= s);
        lemma_filter_push(prev, x, f);
        let pf = prev.filter(f);
        assert forall|p: int| 0 <= p < pf.len() implies pf[p].0 <= x.0 by {
            let k = choose|k: int| 0 <= k < prev.len() && prev[k] == pf[p];
            assert(s[k] == prev[k]);
        }
        assert forall|p: int| 0 <= p < s.filter(f).len() implies f(#[trigger] s.filter(f)[p]) && s.contains(s.filter(f)[p]) by {
            if p < pf.len() {
                let k = choose|k: int| 0 <= k < prev.len() && prev[k] == pf[p];
                assert(s[k] == prev[k]);
            } else {
                assert(s[s.len() - 1] == x);
            }
        }
        assert forall|k: int| 0 <= k < s.len() && f(s[k]) implies s.filter(f).contains(#[trigger] s[k]) by {
            if k < s.len() - 1 {
                assert(prev[k] == s[k]);
                let j = choose|j: int| 0 <= j < pf.len() && pf[j] == prev[k];
                assert(s.filter(f)[j] == pf[j]);
            } else {
                assert(s.filter(f)[s.filter(f).len() - 1] == x);
            }
        }
    }
}

proof fn lemma_entries_take_succ(bs: Seq<(usize, Seq<DbId>)>, i: int)
    requires
        0 <= i < bs.len(),
    ensures
        entries(bs.take(i + 1)) == entries(bs.take(i)) + bucket_entries(bs[i]),
{
    assert(bs.take(i + 1).drop_last() =~= bs.take(i));
}

proof fn lemma_entries_take_all(bs: Seq<(usize, Seq<DbId>)>)
    ensures
        entries(bs.take(bs.len() as int)) == entries(bs),
{
    assert(bs.take(bs.len() as int) =~= bs);
}

/// The entries before bucket `i` are a prefix of those before bucket `j`
proof fn lemma_entries_prefix(bs: Seq<(usize, Seq<DbId>)>, i: int, j: int)
    requires
        0 <= i <= j <= bs.len(),
    ensures
        offset(bs, i) <= offset(bs, j),
        entries(bs.take(j)).take(offset(bs, i)) == entries(bs.take(i)),
    decreases j - i,
{
    if i == j {
        assert(entries(bs.take(j)).take(offset(bs, i)) =~= entries(bs.take(i)));
    } else {
        lemma_entries_prefix(bs, i, j - 1);
        lemma_entries_take_succ(bs, j - 1);
        assert(entries(bs.take(j)).take(offset(bs, i)) =~= entries(bs.take(j - 1)).take(
            offset(bs, i),
        ));
    }
}

/// Where the entries of bucket `i` stand among all entries
proof fn lemma_entry_at(bs: Seq<(usize, Seq<DbId>)>, i: int, k: int)
    requires
        0 <= i < bs.len(),
        0 <= k < bs[i].1.len(),
    ensures
        offset(bs, i) + k < offset(bs, i + 1) <= entries(bs).len(),
        offset(bs, i + 1) == offset(bs, i) + bs[i].1.len(),
        entries(bs)[offset(bs, i) + k] == (bs[i].0, bs[i].1[k]),
{
    lemma_entries_take_succ(bs, i);
    lemma_entries_prefix(bs, i + 1, bs.len() as int);
    lemma_entries_take_all(bs);
    let big = entries(bs);
    assert(big.take(offset(bs, i + 1))[offset(bs, i) + k] == big[offset(bs, i) + k]);
}

/// The entries number the sum of the bucket sizes
proof fn lemma_offset_total(bs: Seq<(usize, Seq<DbId>)>)
    ensures
        offset(bs, bs.len() as int) == entries(bs).len(),
{
    lemma_entries_take_all(bs);
}

/// Every entry carries the date of some bucket
proof fn lemma_entry_dates(bs: Seq<(usize, Seq<DbId>)>, p: int)
    requires
        0 <= p < entries(bs).len(),
    ensures
        exists|i: int| 0 <= i < bs.len() && bs[i].0 == #[trigger] entries(bs)[p].0,
    decreases bs.len(),
{
    let prev = entries(bs.drop_last());
    if p < prev.len() {
        lemma_entry_dates(bs.drop_last(), p);
        let i = choose|i: int|
            0 <= i < bs.drop_last().len() && bs.drop_last()[i].0 == #[trigger] prev[p].0;
        assert(bs[i].0 == entries(bs)[p].0);
    } else {
        assert(entries(bs)[p].0 == bs[bs.len() - 1].0);
    }
}

/// The entries stand in ascending date order
pub proof fn lemma_entries_sorted(bs: Seq<(usize, Seq<DbId>)>)
    requires
        sorted_buckets(bs),
    ensures
        forall|p: int, q: int|
            0 <= p < q < entries(bs).len() ==> entries(bs)[p].0 <= entries(bs)[q].0,
    decreases bs.len(),
{
    if bs.len() > 0 {
        let prev = bs.drop_last();
        lemma_entries_sorted(prev);
        assert forall|p: int, q: int|
            0 <= p < q < entries(bs).len() implies entries(bs)[p].0 <= entries(bs)[q].0 by {
            let pl = entries(prev).len() as int;
            if q >= pl {
                assert(entries(bs)[q].0 == bs.last().0);
                if p < pl {
                    lemma_entry_dates(prev, p);
                }
            }
        }
    }
}

pub proof fn lemma_filter_push<A>(s: Seq<A>, x: A, f: spec_fn(A) -> bool)
    ensures
        (s.push(x)).filter(f) == if f(x) {
            s.filter(f).push(x)
        } else {
            s.filter(f)
        },
{
    reveal(Seq::filter);
    assert(s.push(x).drop_last() =~= s);
}

proof fn lemma_filter_append<A>(s: Seq<A>, t: Seq<A>, f: spec_fn(A) -> bool)
    ensures
        (s + t).filter(f) == s.filter(f) + t.filter(f),
{
    Seq::<A>::filter_distributes_over_add(s, t, f);
}

/// After adding, the entries of `date` hold `id`
pub proof fn lemma_push_holds(bs: Seq<(usize, Seq<DbId>)>, date: usize, id: DbId)
    ensures
        exists|i: int|
            0 <= i < spec_push(bs, date, id).len() && (#[trigger] spec_push(bs, date, id)[i]).0 == date
                && spec_push(bs, date, id)[i].1.contains(id),
    decreases bs.len(),
{
    let r = spec_push(bs, date, id);
    if bs.len() == 0 {
        assert(r[0].1[0] == id);
    } else if bs.last().0 == date {
        assert(r[r.len() - 1].1[bs.last().1.len() as int] == id);
    } else if bs.last().0 < date {
        assert(r[r.len() - 1].1[0] == id);
    } else {
        lemma_push_holds(bs.drop_last(), date, id);
        let p = spec_push(bs.drop_last(), date, id);
        let i = choose|i: int| 0 <= i < p.len() && (#[trigger] p[i]).0 == date && p[i].1.contains(id);
        assert(r[i] == p[i]);
    }
}

/// Adding at the place found by a search from either end gives [spec_push]
proof fn lemma_push_at(bs: Seq<(usize, Seq<DbId>)>, date: usize, id: DbId, i: int)
    requires
        sorted_buckets(bs),
        0 <= i <= bs.len(),
        forall|k: int| 0 <= k < i ==> bs[k].0 <= date,
        forall|k: int| i <= k < bs.len() ==> bs[k].0 > date,
    ensures
        spec_push(bs, date, id) == if i > 0 && bs[i - 1].0 == date {
            bs.update(i - 1, (date, bs[i - 1].1.push(id)))
        } else {
            bs.insert(i, (date, seq![id]))
        },
    decreases bs.len(),
{
    if bs.len() == 0 {
        assert(bs.insert(i, (date, seq![id])) =~= seq![(date, seq![id])]);
    } else if bs.last().0 == date {
        assert(i == bs.len());
        assert(bs.drop_last().push((date, bs.last().1.push(id))) =~= bs.update(
            i - 1,
            (date, bs[i - 1].1.push(id)),
        ));
    } else if bs.last().0 < date {
        assert(i == bs.len());
        assert(bs.push((date, seq![id])) =~= bs.insert(i, (date, seq![id])));
    } else {
        let prev = bs.drop_last();
        assert(i < bs.len());
        lemma_push_at(prev, date, id, i);
        if i > 0 && bs[i - 1].0 == date {
            assert(prev.update(i - 1, (date, bs[i - 1].1.push(id))).push(bs.last()) =~= bs.update(
                i - 1,
                (date, bs[i - 1].1.push(id)),
            ));
        } else {
            assert(prev.insert(i, (date, seq![id])).push(bs.last()) =~= bs.insert(
                i,
                (date, seq![id]),
            ));
        }
    }
}

/// Adding keeps the dates ascending and the buckets non-empty
proof fn lemma_push_sorted(bs: Seq<(usize, Seq<DbId>)>, date: usize, id: DbId)
    requires
        sorted_buckets(bs),
    ensures
        sorted_buckets(spec_push(bs, date, id)),
    decreases bs.len(),
{
    if bs.len() > 0 && bs.last().0 > date {
        let prev = bs.drop_last();
        lemma_push_sorted(prev, date, id);
        lemma_push_dates(prev, date, id);
    }
}

/// The dates after adding are those before, and `date`
proof fn lemma_push_dates(bs: Seq<(usize, Seq<DbId>)>, date: usize, id: DbId)
    ensures
        forall|k: int|
            0 <= k < spec_push(bs, date, id).len() ==> (spec_push(bs, date, id)[k].0 == date
                || exists|j: int| 0 <= j < bs.len() && bs[j].0 == #[trigger] spec_push(bs, date, id)[k].0),
    decreases bs.len(),
{
    if bs.len() > 0 && bs.last().0 > date {
        let prev = bs.drop_last();
        lemma_push_dates(prev, date, id);
        let r = spec_push(bs, date, id);
        assert forall|k: int| 0 <= k < r.len() implies (r[k].0 == date || exists|j: int|
            0 <= j < bs.len() && bs[j].0 == #[trigger] r[k].0) by {
            if k < r.len() - 1 {
                let pr = spec_push(prev, date, id);
                assert(r[k] == pr[k]);
                if pr[k].0 != date {
                    let j = choose|j: int| 0 <= j < prev.len() && prev[j].0 == #[trigger] pr[k].0;
                    assert(bs[j].0 == r[k].0);
                }
            } else {
                assert(bs[bs.len() - 1].0 == r[k].0);
            }
        }
    } else if bs.len() > 0 {
        let r = spec_push(bs, date, id);
        assert forall|k: int| 0 <= k < r.len() implies (r[k].0 == date || exists|j: int|
            0 <= j < bs.len() && bs[j].0 == #[trigger] r[k].0) by {
            if k < bs.len() && r[k].0 != date {
                assert(bs[k].0 == r[k].0);
            }
        }
    }
}

proof fn lemma_push_all_sorted(bs: Seq<(usize, Seq<DbId>)>, items: Seq<(usize, DbId)>)
    requires
        sorted_buckets(bs),
    ensures
        sorted_buckets(spec_push_all(bs, items)),
    decreases items.len(),
{
    if items.len() > 0 {
        lemma_push_all_sorted(bs, items.drop_last());
        lemma_push_sorted(spec_push_all(bs, items.drop_last()), items.last().0, items.last().1);
    }
}

/// An ordering of references to records by date, several per date
///
/// The references are held in buckets, one per date, in ascending date
/// order; within a bucket they keep the order in which they were added.
#[derive(Debug, Clone)]
pub struct OrderedTransactions {
    buckets: Vec<(Date, Vec<DbId>)>,
}

impl View for OrderedTransactions {
    type V = Seq<(usize, Seq<DbId>)>;

    closed spec fn view(&self) -> Seq<(usize, Seq<DbId>)> {
        self.buckets@.map_values(|b: (Date, Vec<DbId>)| (b.0.value, b.1@))
    }
}

impl OrderedTransactions {
    pub open spec fn wf(&self) -> bool {
        sorted_buckets(self@)
    }

    /// An ordering with no entries
    pub fn new() -> (r: Self)
        ensures
            r.wf(),
            r@ == Seq::<(usize, Seq<DbId>)>::empty(),
    {
        let r = OrderedTransactions { buckets: Vec::new() };
        assert(r@ =~= Seq::<(usize, Seq<DbId>)>::empty());
        r
    }

    /// The index of the first bucket whose date is not before `date`
    fn lower_bound(&self, date: usize) -> (r: usize)
        requires
            self.wf(),
        ensures
            r <= self@.len(),
            forall|k: int| 0 <= k < r ==> self@[k].0 < date,
            forall|k: int| r <= k < self@.len() ==> self@[k].0 >= date,
    {
        let mut lo: usize = 0;
        let mut hi: usize = self.buckets.len();
        while lo < hi
            invariant
                self.wf(),
                lo <= hi <= self@.len(),
                self@.len() == self.buckets@.len(),
                forall|k: int| 0 <= k < lo ==> self@[k].0 < date,
                forall|k: int| hi <= k < self@.len() ==> self@[k].0 >= date,
            decreases hi - lo,
        {
            let mid = lo + (hi - lo) / 2;
            assert(self@[mid as int].0 == self.buckets@[mid as int].0.value);
            if self.buckets[mid].0.value < date {
                lo = mid + 1;
            } else {
                hi = mid;
            }
        }
        lo
    }

    /// The number of entries
    pub fn len(&self) -> (r: usize)
        requires
            entries(self@).len() <= usize::MAX,
        ensures
            r == entries(self@).len(),
    {
        let mut n: usize = 0;
        let mut i: usize = 0;
        while i < self.buckets.len()
            invariant
                i <= self@.len(),
                self@.len() == self.buckets@.len(),
                entries(self@).len() <= usize::MAX,
                n == offset(self@, i as int),
            decreases self@.len() - i,
        {
            proof {
                lemma_entries_take_succ(self@, i as int);
                lemma_entries_prefix(self@, i as int + 1, self@.len() as int);
                lemma_offset_total(self@);
            }
            assert(self@[i as int].1.len() == self.buckets@[i as int].1@.len());
            n = n + self.buckets[i].1.len();
            i += 1;
        }
        proof {
            lemma_offset_total(self@);
        }
        n
    }

    /// True if an entry is undated (its date is unset)
    pub fn has_undated_transactions(&self) -> (r: bool)
        requires
            self.wf(),
        ensures
            r == exists|i: int| 0 <= i < self@.len() && self@[i].0 == 0,
    {
        if self.buckets.len() == 0 {
            false
        } else {
            assert(self@[0].0 == self.buckets@[0].0.value);
            self.buckets[0].0.value == 0
        }
    }

    /// True if some entry has the date `date`
    pub fn contains_date(&self, date: Date) -> (r: bool)
        requires
            self.wf(),
        ensures
            r == exists|i: int| 0 <= i < self@.len() && self@[i].0 == date.value,
    {
        let i = self.lower_bound(date.value);
        if i < self.buckets.len() {
            assert(self@[i as int].0 == self.buckets@[i as int].0.value);
            self.buckets[i].0.value == date.value
        } else {
            false
        }
    }

    /// True if `id` is among the entries of date `date`
    pub fn date_contains(&self, date: Date, id: DbId) -> (r: bool)
        requires
            self.wf(),
        ensures
            r == exists|i: int|
                0 <= i < self@.len() && self@[i].0 == date.value && self@[i].1.contains(id),
    {
        let i = self.lower_bound(date.value);
        if i < self.buckets.len() && self.buckets[i].0.value == date.value {
            let b = &self.buckets[i].1;
            assert(self@[i as int].1 == b@);
            assert(self@[i as int].0 == self.buckets@[i as int].0.value);
            let mut j: usize = 0;
            while j < b.len()
                invariant
                    j <= b@.len(),
                    i < self@.len(),
                    b@ == self@[i as int].1,
                    self@[i as int].0 == date.value,
                    forall|k: int| 0 <= k < j ==> b@[k] != id,
                decreases b@.len() - j,
            {
                if b[j] == id {
                    assert(self@[i as int].1[j as int] == id);
                    return true;
                }
                j += 1;
            }
            false
        } else {
            false
        }
    }

    /// Add `id` at the end of the entries of date `date`
    pub fn push_to_date(&mut self, date: Date, id: DbId)
        requires
            old(self).wf(),
        ensures
            final(self).wf(),
            final(self)@ == spec_push(old(self)@, date.value, id),
    {
        let ghost bs = self@;
        let i = self.lower_bound(date.value);
        if i < self.buckets.len() && self.buckets[i].0.value == date.value {
            proof {
                lemma_push_at(bs, date.value, id, i as int + 1);
            }
            let mut b = self.buckets.remove(i);
            b.1.push(id);
            self.buckets.insert(i, b);
            assert(self@ =~= bs.update(i as int, (date.value, bs[i as int].1.push(id))));
        } else {
            proof {
                lemma_push_at(bs, date.value, id, i as int);
            }
            let v = vec![id];
            assert(v@ =~= seq![id]);
            self.buckets.insert(i, (date, v));
            assert(self@ =~= bs.insert(i as int, (date.value, seq![id])));
        }
        proof {
            lemma_push_sorted(bs, date.value, id);
        }
    }

    /// Add each `(date, id)` of `items` in turn
    pub fn add_iter(&mut self, items: &Vec<(Date, DbId)>)
        requires
            old(self).wf(),
        ensures
            final(self).wf(),
            final(self)@ == spec_push_all(
                old(self)@,
                items@.map_values(|e: (Date, DbId)| (e.0.value, e.1)),
            ),
    {
        let ghost bs = self@;
        let ghost its = items@.map_values(|e: (Date, DbId)| (e.0.value, e.1));
        let mut i: usize = 0;
        while i < items.len()
            invariant
                i <= items@.len(),
                its == items@.map_values(|e: (Date, DbId)| (e.0.value, e.1)),
                self.wf(),
                self@ == spec_push_all(bs, its.take(i as int)),
            decreases items@.len() - i,
        {
            let (d, id) = items[i];
            assert(its.take(i as int + 1).drop_last() =~= its.take(i as int));
            self.push_to_date(d, id);
            i += 1;
        }
        assert(its.take(items@.len() as int) =~= its);
    }

    /// The references whose date lies in `range`, in ascending date order
    /// and, within a date, in the order they were added
    pub fn transactions_in_range(&self, range: DateRange) -> (r: Vec<DbId>)
        requires
            self.wf(),
        ensures
            r@ == range_ids(self@, range),
    {
        let ghost f = |e: (usize, DbId)| range.spec_contains(e.0);
        let ghost g = |e: (usize, DbId)| e.1;
        let mut r: Vec<DbId> = Vec::new();
        let mut i: usize = 0;
        while i < self.buckets.len()
            invariant
                i <= self@.len(),
                self@.len() == self.buckets@.len(),
                f == (|e: (usize, DbId)| range.spec_contains(e.0)),
                g == (|e: (usize, DbId)| e.1),
                r@ == entries(self@.take(i as int)).filter(f).map_values(g),
            decreases self@.len() - i,
        {
            let ghost before = entries(self@.take(i as int));
            let ghost b = self@[i as int];
            proof {
                lemma_entries_take_succ(self@, i as int);
                lemma_filter_append(before, bucket_entries(b), f);
            }
            let d = self.buckets[i].0;
            let ids = &self.buckets[i].1;
            assert(b == (d.value, ids@));
            if range.contains(d) {
                assert(bucket_entries(b).filter(f) =~= bucket_entries(b)) by {
                    assert forall|k: int| 0 <= k < bucket_entries(b).len() implies f(
                        #[trigger] bucket_entries(b)[k],
                    ) by {}
                    lemma_filter_all(bucket_entries(b), f);
                }
                let ghost r0 = r@;
                let mut j: usize = 0;
                while j < ids.len()
                    invariant
                        j <= ids@.len(),
                        r@ == r0 + ids@.take(j as int),
                    decreases ids@.len() - j,
                {
                    r.push(ids[j]);
                    assert(ids@.take(j as int + 1) =~= ids@.take(j as int).push(ids@[j as int]));
                    j += 1;
                }
                assert(ids@.take(ids@.len() as int) =~= ids@);
                assert(bucket_entries(b).map_values(g) =~= ids@);
                assert((before.filter(f) + bucket_entries(b)).map_values(g) =~= before.filter(
                    f,
                ).map_values(g) + bucket_entries(b).map_values(g));
            } else {
                assert(bucket_entries(b).filter(f) =~= Seq::<(usize, DbId)>::empty()) by {
                    lemma_filter_none(bucket_entries(b), f);
                }
                assert(before.filter(f) + Seq::<(usize, DbId)>::empty() =~= before.filter(f));
            }
            i += 1;
        }
        proof {
            lemma_entries_take_all(self@);
        }
        r
    }

    /// Step the cursor to the next entry; false, with the cursor left as it
    /// is, at the last entry
    pub fn cursor_next(&self, cursor: &mut OTCursor) -> (r: bool)
        requires
            self.wf(),
            old(cursor).valid ==> cursor_ok(self@, *old(cursor)),
        ensures
            r == (old(cursor).valid && cursor_pos(self@, *old(cursor)) + 1 < entries(
                self@,
            ).len()),
            r ==> cursor_ok(self@, *final(cursor)) && cursor_pos(self@, *final(cursor))
                == cursor_pos(self@, *old(cursor)) + 1,
            !r ==> *final(cursor) == *old(cursor),
    {
        if !cursor.valid {
            return false;
        }
        let ghost c0 = *cursor;
        assert(self@.len() == self.buckets@.len());
        assert(cursor_ok(self@, c0));
        let idx = cursor.idx;
        let nbuckets = self.buckets.len();
        assert(idx < nbuckets);
        let n = self.buckets[idx].1.len();
        assert(n == self@[c0.idx as int].1.len());
        proof {
            lemma_entry_at(self@, c0.idx as int, c0.ofs as int);
            lemma_offset_total(self@);
        }
        if cursor.ofs + 1 < n {
            cursor.ofs = cursor.ofs + 1;
            true
        } else if idx + 1 < nbuckets {
            cursor.idx = idx + 1;
            cursor.ofs = 0;
            proof {
                lemma_entry_at(self@, c0.idx as int + 1, 0);
            }
            true
        } else {
            false
        }
    }

    /// Step the cursor to the previous entry; false, with the cursor left as
    /// it is, at the first entry
    pub fn cursor_prev(&self, cursor: &mut OTCursor) -> (r: bool)
        requires
            self.wf(),
            old(cursor).valid ==> cursor_ok(self@, *old(cursor)),
        ensures
            r == (old(cursor).valid && cursor_pos(self@, *old(cursor)) > 0),
            r ==> cursor_ok(self@, *final(cursor)) && cursor_pos(self@, *final(cursor))
                == cursor_pos(self@, *old(cursor)) - 1,
            !r ==> *final(cursor) == *old(cursor),
    {
        if !cursor.valid {
            return false;
        }
        let ghost c0 = *cursor;
        if cursor.ofs > 0 {
            cursor.ofs = cursor.ofs - 1;
            true
        } else if cursor.idx > 0 {
            cursor.idx = cursor.idx - 1;
            let n = self.buckets[cursor.idx].1.len();
            assert(n == self@[c0.idx - 1].1.len());
            cursor.ofs = n - 1;
            proof {
                lemma_entry_at(self@, c0.idx - 1, n - 1);
            }
            true
        } else {
            assert(self@.take(0) =~= Seq::<(usize, Seq<DbId>)>::empty());
            false
        }
    }

    /// The date of the entry at the cursor
    pub fn cursor_date(&self, cursor: &OTCursor) -> (r: Option<Date>)
        requires
            self.wf(),
            cursor.valid ==> cursor_ok(self@, *cursor),
        ensures
            r is Some == cursor.valid,
            cursor.valid ==> r->Some_0.value == entries(self@)[cursor_pos(self@, *cursor)].0,
    {
        if cursor.valid {
            proof {
                lemma_entry_at(self@, cursor.idx as int, cursor.ofs as int);
            }
            assert(self@[cursor.idx as int].0 == self.buckets@[cursor.idx as int].0.value);
            Some(self.buckets[cursor.idx].0)
        } else {
            None
        }
    }

    /// The reference at the cursor
    pub fn cursor_id(&self, cursor: &OTCursor) -> (r: Option<DbId>)
        requires
            self.wf(),
            cursor.valid ==> cursor_ok(self@, *cursor),
        ensures
            r is Some == cursor.valid,
            cursor.valid ==> r->Some_0 == entries(self@)[cursor_pos(self@, *cursor)].1,
    {
        if cursor.valid {
            proof {
                lemma_entry_at(self@, cursor.idx as int, cursor.ofs as int);
            }
            assert(self@[cursor.idx as int].1 == self.buckets@[cursor.idx as int].1@);
            Some(self.buckets[cursor.idx].1[cursor.ofs])
        } else {
            None
        }
    }

    /// A cursor at the first entry; invalid if there is none
    pub fn cursor_first(&self) -> (r: OTCursor)
        requires
            self.wf(),
        ensures
            r.valid == (entries(self@).len() > 0),
            r.valid ==> cursor_ok(self@, r) && cursor_pos(self@, r) == 0,
    {
        proof {
            lemma_offset_total(self@);
            assert(self@.take(0) =~= Seq::<(usize, Seq<DbId>)>::empty());
        }
        if self.buckets.len() == 0 {
            assert(self@.take(self@.len() as int) =~= Seq::<(usize, Seq<DbId>)>::empty());
            OTCursor::invalid()
        } else {
            proof {
                lemma_entry_at(self@, 0, 0);
            }
            OTCursor::new(0, 0)
        }
    }

    /// A cursor at the entries of `date`, and whether that date is present
    ///
    /// With `date` present the cursor is at the first of its entries when
    /// `first_of_date` is set, else at the last.  With it absent the cursor
    /// is at the nearest entry on the side asked for: the first entry of the
    /// next date for `first_of_date`, the last entry of the previous date
    /// otherwise, or the nearest entry there is where that side has none.
    pub fn cursor_of_date(&self, date: Date, first_of_date: bool) -> (r: (OTCursor, bool))
        requires
            self.wf(),
        ensures
            self@.len() == 0 ==> !r.0.valid && !r.1,
            self@.len() > 0 ==> cursor_ok(self@, r.0),
            r.1 == exists|i: int| 0 <= i < self@.len() && self@[i].0 == date.value,
            r.1 ==> self@[r.0.idx as int].0 == date.value,
            r.1 && first_of_date ==> r.0.ofs == 0,
            r.1 && !first_of_date ==> r.0.ofs == self@[r.0.idx as int].1.len() - 1,
            self@.len() > 0 && !r.1 && first_of_date ==> {
                ||| (r.0.ofs == 0 && self@[r.0.idx as int].0 > date.value && forall|k: int|
                    0 <= k < r.0.idx ==> self@[k].0 < date.value)
                ||| (r.0.idx == self@.len() - 1 && r.0.ofs == self@[r.0.idx as int].1.len() - 1
                    && forall|k: int| 0 <= k < self@.len() ==> self@[k].0 < date.value)
            },
            self@.len() > 0 && !r.1 && !first_of_date ==> {
                ||| (r.0.ofs == self@[r.0.idx as int].1.len() - 1 && self@[r.0.idx as int].0
                    < date.value && forall|k: int|
                    r.0.idx < k < self@.len() ==> self@[k].0 > date.value)
                ||| (r.0.idx == 0 && r.0.ofs == 0 && forall|k: int|
                    0 <= k < self@.len() ==> self@[k].0 > date.value)
            },
    {
        let n = self.buckets.len();
        if n == 0 {
            return (OTCursor::invalid(), false);
        }
        let i = self.lower_bound(date.value);
        if i < n && self.buckets[i].0.value == date.value {
            assert(self@[i as int].0 == self.buckets@[i as int].0.value);
            if first_of_date {
                (OTCursor::new(i, 0), true)
            } else {
                assert(self@[i as int].1.len() == self.buckets@[i as int].1@.len());
                (OTCursor::new(i, self.buckets[i].1.len() - 1), true)
            }
        } else {
            assert(i < n ==> self@[i as int].0 == self.buckets@[i as int].0.value);
            assert(self@.len() == n);
            assert forall|k: int| i <= k < self@.len() implies self@[k].0 > date.value by {
                if k > i {
                    assert(self@[i as int].0 < self@[k].0);
                }
            }
            if first_of_date {
                if i < n {
                    (OTCursor::new(i, 0), false)
                } else {
                    assert(self@[n - 1].1.len() == self.buckets@[n - 1].1@.len());
                    (OTCursor::new(n - 1, self.buckets[n - 1].1.len() - 1), false)
                }
            } else {
                if i > 0 {
                    assert(self@[i - 1].1.len() == self.buckets@[i - 1].1@.len());
                    (OTCursor::new(i - 1, self.buckets[i - 1].1.len() - 1), false)
                } else {
                    (OTCursor::new(0, 0), false)
                }
            }
        }
    }

    /// Replace every reference by its new key in `database_rebuild`
    ///
    /// Fails, leaving the ordering as it was, if a reference has no new key.
    pub fn rebuild(&mut self, database_rebuild: &DatabaseRebuild) -> (r: Result<(), Error>)
        requires
            old(self).wf(),
            database_rebuild.wf(),
        ensures
            final(self).wf(),
            r is Ok == ids_resolve(old(self)@, database_rebuild@),
            r is Ok ==> final(self)@ == rename_buckets(old(self)@, database_rebuild@),
            r is Err ==> *final(self) == *old(self),
            r is Err ==> r->Err_0 is UnresolvedReference && !database_rebuild@.contains_key(
                r->Err_0->UnresolvedReference_1,
            ),
    {
        let ghost m = database_rebuild@;
        let ghost bs = self@;
        let mut nb: Vec<(Date, Vec<DbId>)> = Vec::new();
        let mut i: usize = 0;
        while i < self.buckets.len()
            invariant
                i <= bs.len(),
                bs == self@,
                *self == *old(self),
                sorted_buckets(bs),
                bs.len() == self.buckets@.len(),
                database_rebuild.wf(),
                m == database_rebuild@,
                nb@.len() == i,
                forall|k: int| 0 <= k < i ==> nb@[k].0 == self.buckets@[k].0,
                forall|k: int| 0 <= k < i ==> (#[trigger] nb@[k]).1@ == bs[k].1.map_values(|id: DbId| m[id]),
                forall|k: int, j: int| 0 <= k < i && 0 <= j < bs[k].1.len() ==> m.contains_key(#[trigger] bs[k].1[j]),
            decreases bs.len() - i,
        {
            let ids = &self.buckets[i].1;
            assert(ids@ == bs[i as int].1);
            let mut nids: Vec<DbId> = Vec::new();
            let mut j: usize = 0;
            while j < ids.len()
                invariant
                    j <= ids@.len(),
                    database_rebuild.wf(),
                    m == database_rebuild@,
                    nids@ == ids@.take(j as int).map_values(|id: DbId| m[id]),
                    i < bs.len(),
                    ids@ == bs[i as int].1,
                    bs == self@,
                    *self == *old(self),
                    sorted_buckets(bs),
                    forall|k: int| 0 <= k < j ==> m.contains_key(#[trigger] ids@[k]),
                decreases ids@.len() - j,
            {
                match database_rebuild.get_new_id("ordered reference", ids[j]) {
                    Ok(n) => {
                        nids.push(n);
                        assert(ids@.take(j as int + 1).map_values(|id: DbId| m[id]) =~= ids@.take(
                            j as int,
                        ).map_values(|id: DbId| m[id]).push(m[ids@[j as int]]));
                    },
                    Err(e) => {
                        assert(!ids_resolve(bs, m)) by {
                            assert(!m.contains_key(bs[i as int].1[j as int]));
                        }
                        return Err(e);
                    },
                }
                j += 1;
            }
            assert(ids@.take(ids@.len() as int) =~= ids@);
            nb.push((self.buckets[i].0, nids));
            i += 1;
        }
        self.buckets = nb;
        assert(self@ =~= rename_buckets(bs, m));
        assert(ids_resolve(bs, m));
        Ok(())
    }
}

proof fn lemma_filter_all<A>(s: Seq<A>, f: spec_fn(A) -> bool)
    requires
        forall|k: int| 0 <= k < s.len() ==> f(#[trigger] s[k]),
    ensures
        s.filter(f) == s,
    decreases s.len(),
{
    reveal(Seq::filter);
    if s.len() > 0 {
        lemma_filter_all(s.drop_last(), f);
        assert(s.drop_last().push(s.last()) =~= s);
    } else {
        assert(s.filter(f) =~= s);
    }
}

proof fn lemma_filter_none<A>(s: Seq<A>, f: spec_fn(A) -> bool)
    requires
        forall|k: int| 0 <= k < s.len() ==> !f(#[trigger] s[k]),
    ensures
        s.filter(f) == Seq::<A>::empty(),
    decreases s.len(),
{
    reveal(Seq::filter);
    if s.len() > 0 {
        lemma_filter_none(s.drop_last(), f);
    } else {
        assert(s.filter(f) =~= Seq::<A>::empty());
    }
}

} // verus!
