use vstd::prelude::*;
use vstd::string::StringSliceAdditionalSpecFns;
use vstd::utf8::encode_utf8;

use crate::account::{Account, DbAccounts};
use crate::account_desc::AccountDesc;
use crate::names::{add_names, views};
use crate::bank_transaction::{BankTransaction, DbBankTransactions};
use crate::base_types::Date;
use crate::db_id::DbId;
use crate::db_query::DbQuery;
use crate::ordered::{lemma_filter_push, lemma_push_holds, spec_push};
use crate::db_item::{lemma_renamed_within, DbItem, DbItemType, DbItemTypeE};
use crate::error::Error;
use crate::fund::{DbFunds, Fund};
use crate::invoice::{DbInvoices, Invoice};
use crate::rebuild::DatabaseRebuild;
use crate::related_parties::{
    corpus_of, exhausted, find_from, lemma_find_from_level, lemma_level_names_member, lookup_level, next_len,
    short_orphan, RelatedParties,
};
use crate::related_party::{DbRelatedParties, RelatedParty};
use crate::transaction::{DbTransactions, Transaction, TransactionType};

verus! {

/// The shortest prefix length of the description cache
pub const CACHE_MIN_LEN: usize = 6;

/// The longest prefix length of the description cache
pub const CACHE_MAX_LEN: usize = 12;

/// How much longer each level of the description cache is than the last
pub const CACHE_STEP: usize = 3;

/// The descriptors of a related party's record, each with its key
pub open spec fn item_descrs(x: DbItem) -> Seq<(DbId, Seq<u8>)> {
    match x.value {
        DbItemTypeE::RelatedParty(p) => p.account_descrs@.map_values(
            |d: String| (x.id, encode_utf8(d@)),
        ),
        _ => Seq::empty(),
    }
}

/// The descriptors of all related parties among `items`, in record order
pub open spec fn party_descrs(items: Seq<DbItem>) -> Seq<(DbId, Seq<u8>)>
    decreases items.len(),
{
    if items.len() == 0 {
        Seq::empty()
    } else {
        party_descrs(items.drop_last()) + item_descrs(items.last())
    }
}

/// `k` is the key of a related party among `items`
pub open spec fn is_party_key(items: Seq<DbItem>, k: DbId) -> bool {
    exists|i: int| 0 <= i < items.len() && items[i].id == k && items[i].itype == DbItemType::RelatedParty
}

/// Every key that the cache levels hold is the key of a related party
/// among `items`
pub open spec fn cache_names_parties(levels: Seq<(nat, Seq<(DbId, Seq<u8>)>)>, items: Seq<DbItem>) -> bool {
    forall|l: int, j: int|
        0 <= l < levels.len() && 0 <= j < levels[l].1.len() ==> is_party_key(items, (#[trigger] levels[l].1[j]).0)
}

/// Records added, or changed keeping their keys and kinds, keep the keys
/// the cache holds among the related parties
proof fn lemma_cache_names_grow(levels: Seq<(nat, Seq<(DbId, Seq<u8>)>)>, a: Seq<DbItem>, b: Seq<DbItem>)
    requires
        cache_names_parties(levels, a),
        a.len() <= b.len(),
        forall|i: int| 0 <= i < a.len() ==> (#[trigger] b[i]).id == a[i].id && b[i].itype == a[i].itype,
    ensures
        cache_names_parties(levels, b),
{
    assert forall|l: int, j: int| 0 <= l < levels.len() && 0 <= j < levels[l].1.len() implies is_party_key(
        b,
        (#[trigger] levels[l].1[j]).0,
    ) by {
        let k = levels[l].1[j].0;
        assert(is_party_key(a, k));
        let i = choose|i: int| 0 <= i < a.len() && a[i].id == k && a[i].itype == DbItemType::RelatedParty;
        assert(b[i].id == a[i].id);
    }
}

/// Every descriptor of [party_descrs] carries the key of a related party
proof fn lemma_party_descrs_keys(items: Seq<DbItem>)
    requires
        forall|i: int| 0 <= i < items.len() ==> (#[trigger] items[i]).wf(),
    ensures
        forall|j: int| 0 <= j < party_descrs(items).len() ==> is_party_key(items, (#[trigger] party_descrs(items)[j]).0),
    decreases items.len(),
{
    if items.len() > 0 {
        let prev = items.drop_last();
        let x = items.last();
        assert forall|i: int| 0 <= i < prev.len() implies (#[trigger] prev[i]).wf() by {
            assert(prev[i] == items[i]);
        }
        lemma_party_descrs_keys(prev);
        assert(party_descrs(items) == party_descrs(prev) + item_descrs(x));
        assert forall|j: int| 0 <= j < party_descrs(items).len() implies is_party_key(items, (#[trigger] party_descrs(items)[j]).0) by {
            let pl = party_descrs(prev).len() as int;
            if j < pl {
                assert(party_descrs(items)[j] == party_descrs(prev)[j]);
                assert(is_party_key(prev, party_descrs(prev)[j].0));
                let i = choose|i: int| 0 <= i < prev.len() && prev[i].id == party_descrs(prev)[j].0 && prev[i].itype
                    == DbItemType::RelatedParty;
                assert(items[i] == prev[i]);
            } else {
                assert(party_descrs(items)[j] == item_descrs(x)[j - pl]);
                assert(items[items.len() - 1] == x);
                assert(x.wf());
                assert(x.value is RelatedParty);
                assert(item_descrs(x)[j - pl].0 == x.id);
            }
        }
    }
}

/// The answer of the description cache as a key: "none" if it names no
/// single record
pub open spec fn key_or_none(r: Option<DbId>) -> DbId {
    match r {
        Some(k) => k,
        None => DbId { id: 0 },
    }
}

/// The index of the fund or related party with key `k` holds `t_id` at
/// `date`
pub open spec fn indexes(items: Seq<DbItem>, k: DbId, date: usize, t_id: DbId) -> bool {
    exists|i: int|
        0 <= i < items.len() && (#[trigger] items[i]).id == k && match items[i].value {
            DbItemTypeE::Fund(f) => exists|j: int|
                0 <= j < f.transactions@.len() && f.transactions@[j].0 == date
                    && f.transactions@[j].1.contains(t_id),
            DbItemTypeE::RelatedParty(p) => exists|j: int|
                0 <= j < p.transactions@.len() && p.transactions@[j].0 == date
                    && p.transactions@[j].1.contains(t_id),
            _ => false,
        }
}

/// What a record's collection judges it by: its kind, and the account
/// description, the name (or an invoice's reason), the aliases and the
/// party number it carries
pub open spec fn item_keys(x: DbItem) -> (DbItemType, AccountDesc, Seq<char>, Seq<Seq<char>>, usize) {
    match x.value {
        DbItemTypeE::Account(a) => (DbItemType::Account, a.desc, Seq::empty(), Seq::empty(), 0),
        DbItemTypeE::Fund(f) => (DbItemType::Fund, AccountDesc::Unknown, f.name@, views(f.aliases@), 0),
        DbItemTypeE::RelatedParty(p) => (
            DbItemType::RelatedParty,
            AccountDesc::Unknown,
            p.name@,
            views(p.aliases@),
            p.rp_id,
        ),
        DbItemTypeE::Invoice(v) => (DbItemType::Invoice, AccountDesc::Unknown, v.reason@, Seq::empty(), 0),
        DbItemTypeE::BankTransaction(_) => (DbItemType::BankTransaction, AccountDesc::Unknown, Seq::empty(), Seq::empty(), 0),
        DbItemTypeE::Transaction(_) => (DbItemType::Transaction, AccountDesc::Unknown, Seq::empty(), Seq::empty(), 0),
    }
}

/// The collection keys of a sequence of records
pub open spec fn keys_of(items: Seq<DbItem>) -> Seq<(DbItemType, AccountDesc, Seq<char>, Seq<Seq<char>>, usize)> {
    items.map_values(|x: DbItem| item_keys(x))
}

/// An account among `ks` has description `d`
pub open spec fn desc_taken(ks: Seq<(DbItemType, AccountDesc, Seq<char>, Seq<Seq<char>>, usize)>, d: AccountDesc) -> bool {
    exists|i: int| 0 <= i < ks.len() && ks[i].0 == DbItemType::Account && ks[i].1 == d
}

/// A record of kind `kind` among `ks` has name or alias `n`
pub open spec fn name_taken(
    ks: Seq<(DbItemType, AccountDesc, Seq<char>, Seq<Seq<char>>, usize)>,
    kind: DbItemType,
    n: Seq<char>,
) -> bool {
    exists|i: int| 0 <= i < ks.len() && ks[i].0 == kind && (ks[i].2 == n || ks[i].3.contains(n))
}

/// A related party among `ks` has number `x`
pub open spec fn rp_id_taken(ks: Seq<(DbItemType, AccountDesc, Seq<char>, Seq<Seq<char>>, usize)>, x: usize) -> bool {
    exists|i: int| 0 <= i < ks.len() && ks[i].0 == DbItemType::RelatedParty && ks[i].4 == x
}

/// An invoice among `ks` has reason `n`
pub open spec fn reason_taken(ks: Seq<(DbItemType, AccountDesc, Seq<char>, Seq<Seq<char>>, usize)>, n: Seq<char>) -> bool {
    exists|i: int| 0 <= i < ks.len() && ks[i].0 == DbItemType::Invoice && ks[i].2 == n
}

/// A record with keys `k` cannot join its collection after the records with
/// keys `ks`: an account's description is taken, a fund's name is taken as
/// a fund name or alias, a party's number is taken or its name or an alias
/// is taken as a party name or alias, an invoice's reason is taken
pub open spec fn clash_with(
    ks: Seq<(DbItemType, AccountDesc, Seq<char>, Seq<Seq<char>>, usize)>,
    k: (DbItemType, AccountDesc, Seq<char>, Seq<Seq<char>>, usize),
) -> bool {
    match k.0 {
        DbItemType::Account => desc_taken(ks, k.1),
        DbItemType::Fund => name_taken(ks, DbItemType::Fund, k.2),
        DbItemType::RelatedParty => rp_id_taken(ks, k.4) || name_taken(ks, DbItemType::RelatedParty, k.2)
            || exists|a: int| 0 <= a < k.3.len() && name_taken(ks, DbItemType::RelatedParty, #[trigger] k.3[a]),
        DbItemType::Invoice => reason_taken(ks, k.2),
        _ => false,
    }
}

/// No record clashes with the records before it
pub open spec fn no_clash_keys(ks: Seq<(DbItemType, AccountDesc, Seq<char>, Seq<Seq<char>>, usize)>) -> bool {
    forall|j: int| 0 <= j < ks.len() ==> !clash_with(ks.take(j), #[trigger] ks[j])
}

/// No two records clash on a collection's key
pub open spec fn no_clash(items: Seq<DbItem>) -> bool {
    no_clash_keys(keys_of(items))
}

/// An account in the list has description `d`
pub open spec fn desc_held(accs: Seq<(DbId, AccountDesc, Seq<char>)>, d: AccountDesc) -> bool {
    exists|k: int| 0 <= k < accs.len() && accs[k].1 == d
}

/// A party in the list has number `x`
pub open spec fn rp_id_held(ps: Seq<(DbId, usize, crate::related_party::RelatedPartyType)>, x: usize) -> bool {
    exists|k: int| 0 <= k < ps.len() && ps[k].1 == x
}

proof fn lemma_desc_held_push(accs: Seq<(DbId, AccountDesc, Seq<char>)>, e: (DbId, AccountDesc, Seq<char>))
    ensures
        forall|d: AccountDesc| #[trigger] desc_held(accs.push(e), d) == (desc_held(accs, d) || e.1 == d),
{
    let p = accs.push(e);
    assert forall|d: AccountDesc| #[trigger] desc_held(p, d) == (desc_held(accs, d) || e.1 == d) by {
        if desc_held(p, d) {
            let k = choose|k: int| 0 <= k < p.len() && p[k].1 == d;
            if k < accs.len() { assert(accs[k] == p[k]); }
        }
        if desc_held(accs, d) {
            let k = choose|k: int| 0 <= k < accs.len() && accs[k].1 == d;
            assert(p[k] == accs[k]);
        }
        if e.1 == d { assert(p[accs.len() as int] == e); }
    }
}

proof fn lemma_rp_id_held_push(
    ps: Seq<(DbId, usize, crate::related_party::RelatedPartyType)>,
    e: (DbId, usize, crate::related_party::RelatedPartyType),
)
    ensures
        forall|x: usize| #[trigger] rp_id_held(ps.push(e), x) == (rp_id_held(ps, x) || e.1 == x),
{
    let p = ps.push(e);
    assert forall|x: usize| #[trigger] rp_id_held(p, x) == (rp_id_held(ps, x) || e.1 == x) by {
        if rp_id_held(p, x) {
            let k = choose|k: int| 0 <= k < p.len() && p[k].1 == x;
            if k < ps.len() { assert(ps[k] == p[k]); }
        }
        if rp_id_held(ps, x) {
            let k = choose|k: int| 0 <= k < ps.len() && ps[k].1 == x;
            assert(p[k] == ps[k]);
        }
        if e.1 == x { assert(p[ps.len() as int] == e); }
    }
}

/// The keys of the records of kind `kind`, in record order
pub open spec fn kind_ids(items: Seq<DbItem>, kind: DbItemType) -> Seq<DbId> {
    items.filter(|x: DbItem| x.itype == kind).map_values(|x: DbItem| x.id)
}

proof fn lemma_kind_ids_push(items: Seq<DbItem>, x: DbItem)
    ensures
        forall|kind: DbItemType| #[trigger] kind_ids(items.push(x), kind) == if x.itype == kind {
            kind_ids(items, kind).push(x.id)
        } else {
            kind_ids(items, kind)
        },
{
    assert forall|kind: DbItemType| #[trigger] kind_ids(items.push(x), kind) == if x.itype == kind {
        kind_ids(items, kind).push(x.id)
    } else {
        kind_ids(items, kind)
    } by {
        let f = |y: DbItem| y.itype == kind;
        lemma_filter_push(items, x, f);
        if x.itype == kind {
            assert(items.filter(f).push(x).map_values(|y: DbItem| y.id) =~= items.filter(f).map_values(
                |y: DbItem| y.id,
            ).push(x.id));
        }
    }
}

proof fn lemma_keys_push(items: Seq<DbItem>, x: DbItem)
    ensures
        keys_of(items.push(x)) == keys_of(items).push(item_keys(x)),
{
    assert(keys_of(items.push(x)) =~= keys_of(items).push(item_keys(x)));
}

proof fn lemma_keys_same(a: Seq<DbItem>, b: Seq<DbItem>)
    requires
        a.len() == b.len(),
        forall|i: int| 0 <= i < a.len() ==> item_keys(#[trigger] a[i]) == item_keys(b[i]),
    ensures
        keys_of(a) == keys_of(b),
{
    assert(keys_of(a) =~= keys_of(b));
}

proof fn lemma_no_clash_push(
    ks: Seq<(DbItemType, AccountDesc, Seq<char>, Seq<Seq<char>>, usize)>,
    k: (DbItemType, AccountDesc, Seq<char>, Seq<Seq<char>>, usize),
)
    requires
        no_clash_keys(ks),
        !clash_with(ks, k),
    ensures
        no_clash_keys(ks.push(k)),
{
    let p = ks.push(k);
    assert forall|j: int| 0 <= j < p.len() implies !clash_with(p.take(j), #[trigger] p[j]) by {
        if j < ks.len() {
            assert(p.take(j) =~= ks.take(j));
            assert(p[j] == ks[j]);
        } else {
            assert(p.take(j) =~= ks);
        }
    }
}

/// Rebuilding references keeps what the collections judge a record by
proof fn lemma_renamed_keys(x: DbItem, y: DbItem, m: Map<DbId, DbId>)
    requires
        x.value.renamed(&y.value, m),
    ensures
        item_keys(x) == item_keys(y),
{
}

/// What adding a record with keys `k` does to each question on the keys
proof fn lemma_taken_push(
    ks: Seq<(DbItemType, AccountDesc, Seq<char>, Seq<Seq<char>>, usize)>,
    k: (DbItemType, AccountDesc, Seq<char>, Seq<Seq<char>>, usize),
)
    ensures
        forall|d: AccountDesc| #[trigger] desc_taken(ks.push(k), d) == (desc_taken(ks, d) || (k.0 == DbItemType::Account && k.1 == d)),
        forall|kind: DbItemType, n: Seq<char>| #[trigger] name_taken(ks.push(k), kind, n) == (name_taken(ks, kind, n) || (k.0 == kind && (k.2 == n || k.3.contains(n)))),
        forall|x: usize| #[trigger] rp_id_taken(ks.push(k), x) == (rp_id_taken(ks, x) || (k.0 == DbItemType::RelatedParty && k.4 == x)),
        forall|n: Seq<char>| #[trigger] reason_taken(ks.push(k), n) == (reason_taken(ks, n) || (k.0 == DbItemType::Invoice && k.2 == n)),
{
    let p = ks.push(k);
    assert forall|d: AccountDesc| #[trigger] desc_taken(p, d) == (desc_taken(ks, d) || (k.0 == DbItemType::Account && k.1 == d)) by {
        if desc_taken(p, d) {
            let i = choose|i: int| 0 <= i < p.len() && p[i].0 == DbItemType::Account && p[i].1 == d;
            if i < ks.len() { assert(ks[i] == p[i]); }
        }
        if desc_taken(ks, d) {
            let i = choose|i: int| 0 <= i < ks.len() && ks[i].0 == DbItemType::Account && ks[i].1 == d;
            assert(p[i] == ks[i]);
        }
        if k.0 == DbItemType::Account && k.1 == d { assert(p[ks.len() as int] == k); }
    }
    assert forall|kind: DbItemType, n: Seq<char>| #[trigger] name_taken(p, kind, n) == (name_taken(ks, kind, n) || (k.0 == kind && (k.2 == n || k.3.contains(n)))) by {
        if name_taken(p, kind, n) {
            let i = choose|i: int| 0 <= i < p.len() && p[i].0 == kind && (p[i].2 == n || p[i].3.contains(n));
            if i < ks.len() { assert(ks[i] == p[i]); }
        }
        if name_taken(ks, kind, n) {
            let i = choose|i: int| 0 <= i < ks.len() && ks[i].0 == kind && (ks[i].2 == n || ks[i].3.contains(n));
            assert(p[i] == ks[i]);
        }
        if k.0 == kind && (k.2 == n || k.3.contains(n)) { assert(p[ks.len() as int] == k); }
    }
    assert forall|x: usize| #[trigger] rp_id_taken(p, x) == (rp_id_taken(ks, x) || (k.0 == DbItemType::RelatedParty && k.4 == x)) by {
        if rp_id_taken(p, x) {
            let i = choose|i: int| 0 <= i < p.len() && p[i].0 == DbItemType::RelatedParty && p[i].4 == x;
            if i < ks.len() { assert(ks[i] == p[i]); }
        }
        if rp_id_taken(ks, x) {
            let i = choose|i: int| 0 <= i < ks.len() && ks[i].0 == DbItemType::RelatedParty && ks[i].4 == x;
            assert(p[i] == ks[i]);
        }
        if k.0 == DbItemType::RelatedParty && k.4 == x { assert(p[ks.len() as int] == k); }
    }
    assert forall|n: Seq<char>| #[trigger] reason_taken(p, n) == (reason_taken(ks, n) || (k.0 == DbItemType::Invoice && k.2 == n)) by {
        if reason_taken(p, n) {
            let i = choose|i: int| 0 <= i < p.len() && p[i].0 == DbItemType::Invoice && p[i].2 == n;
            if i < ks.len() { assert(ks[i] == p[i]); }
        }
        if reason_taken(ks, n) {
            let i = choose|i: int| 0 <= i < ks.len() && ks[i].0 == DbItemType::Invoice && ks[i].2 == n;
            assert(p[i] == ks[i]);
        }
        if k.0 == DbItemType::Invoice && k.2 == n { assert(p[ks.len() as int] == k); }
    }
}

/// Adding names keeps those present and adds those given
proof fn lemma_add_names_dom(m: Map<Seq<char>, DbId>, ns: Seq<Seq<char>>, id: DbId)
    ensures
        forall|n: Seq<char>| #[trigger] add_names(m, ns, id).contains_key(n) == (m.contains_key(n) || ns.contains(n)),
    decreases ns.len(),
{
    if ns.len() > 0 {
        lemma_add_names_dom(m, ns.drop_last(), id);
        assert forall|n: Seq<char>| #[trigger] add_names(m, ns, id).contains_key(n) == (m.contains_key(n) || ns.contains(n)) by {
            assert(add_names(m, ns.drop_last(), id).contains_key(n) == (m.contains_key(n) || ns.drop_last().contains(n)));
            if ns.drop_last().contains(n) {
                let i = choose|i: int| 0 <= i < ns.drop_last().len() && ns.drop_last()[i] == n;
                assert(ns[i] == n);
            }
            if ns.contains(n) && n != ns.last() {
                let i = choose|i: int| 0 <= i < ns.len() && ns[i] == n;
                assert(ns.drop_last()[i] == n);
            }
            if n == ns.last() {
                assert(ns[ns.len() - 1] == n);
            }
        }
    }
}

/// Some entry of date `date` in the buckets is `t_id`
pub open spec fn holds_at(bs: Seq<(usize, Seq<DbId>)>, date: usize, t_id: DbId) -> bool {
    exists|j: int| 0 <= j < bs.len() && bs[j].0 == date && bs[j].1.contains(t_id)
}

/// The record with key `k` is a fund (for `fund`) or a related party (else)
/// whose index does not yet hold `t_id` at `date`
pub open spec fn can_index(items: Seq<DbItem>, k: DbId, fund: bool, date: usize, t_id: DbId) -> bool {
    exists|i: int|
        0 <= i < items.len() && (#[trigger] items[i]).id == k && match items[i].value {
            DbItemTypeE::Fund(f) => fund && !holds_at(f.transactions@, date, t_id),
            DbItemTypeE::RelatedParty(p) => !fund && !holds_at(p.transactions@, date, t_id),
            _ => false,
        }
}

/// Whether the debited and the credited side of a transaction of kind `t`
/// is a fund (else a related party)
pub open spec fn sides(t: TransactionType) -> (bool, bool) {
    match t {
        TransactionType::FromRp => (false, true),
        TransactionType::ToRp => (true, false),
        _ => (true, true),
    }
}

/// The transaction `t_id` can be entered in the indexes of both its sides
pub open spec fn can_index_transaction(items: Seq<DbItem>, t_id: DbId) -> bool {
    exists|i: int|
        0 <= i < items.len() && (#[trigger] items[i]).id == t_id && (items[i].value matches DbItemTypeE::Transaction(t)
            && t.debit_id != t.credit_id
            && can_index(items, t.debit_id, sides(t.ttype).0, t.date.value, t_id)
            && can_index(items, t.credit_id, sides(t.ttype).1, t.date.value, t_id))
}

/// The keys of a sequence of records
pub open spec fn ids_of(items: Seq<DbItem>) -> Seq<DbId> {
    items.map_values(|x: DbItem| x.id)
}

/// Some key repeats an earlier one
pub open spec fn has_dup(ids: Seq<DbId>) -> bool {
    exists|i: int, j: int| 0 <= i < j < ids.len() && ids[i] == ids[j]
}

/// Position `j` holds the first key that repeats an earlier one
pub open spec fn first_dup_at(ids: Seq<DbId>, j: int) -> bool {
    &&& 0 <= j < ids.len()
    &&& exists|i: int| 0 <= i < j && ids[i] == ids[j]
    &&& !has_dup(ids.take(j))
}

/// The new keys of a load: the record at position `i` gets key `i + 1`
pub open spec fn load_map(ids: Seq<DbId>) -> Map<DbId, DbId>
    decreases ids.len(),
{
    if ids.len() == 0 {
        Map::empty()
    } else {
        load_map(ids.drop_last()).insert(ids.last(), DbId { id: ids.len() as usize })
    }
}

/// The set of keys of a sequence of records
pub open spec fn key_set(items: Seq<DbItem>) -> Set<DbId> {
    Set::new(|k: DbId| exists|i: int| 0 <= i < items.len() && items[i].id == k)
}

/// Every record's references can be rebuilt through `m`
pub open spec fn all_resolve(items: Seq<DbItem>, m: Map<DbId, DbId>) -> bool {
    forall|i: int| 0 <= i < items.len() ==> (#[trigger] items[i]).value.refs_resolve(m)
}

/// `out` is `input` loaded: the same kinds and payloads in the same order,
/// the record at position `i` keyed `i + 1`, every reference rebuilt
/// through the keys given
pub open spec fn loaded(input: Seq<DbItem>, out: Seq<DbItem>) -> bool {
    &&& out.len() == input.len()
    &&& forall|i: int|
        0 <= i < out.len() ==> (#[trigger] out[i]).id.id == i + 1 && out[i].itype == input[i].itype
            && input[i].value.renamed(&out[i].value, load_map(ids_of(input)))
}

/// A load of `input` succeeds: no key repeats, every reference names a
/// record of the input, and no two records clash on a collection's key
pub open spec fn load_succeeds(input: Seq<DbItem>) -> bool {
    !has_dup(ids_of(input)) && all_resolve(input, load_map(ids_of(input))) && no_clash(input)
}

/// Keys ascending and never "none", each below the allocation counter, and
/// every record well formed
pub open spec fn arena_wf(items: Seq<DbItem>, next: usize) -> bool {
    &&& forall|i: int, j: int| 0 <= i < j < items.len() ==> items[i].id.id < items[j].id.id
    &&& forall|i: int| 0 <= i < items.len() ==> (#[trigger] items[i]).id.id != 0
    &&& forall|i: int| 0 <= i < items.len() ==> (#[trigger] items[i]).id.id < next
    &&& forall|i: int| 0 <= i < items.len() ==> (#[trigger] items[i]).wf()
}

/// The key the allocation counter `next` gives out next: the counter itself,
/// stepping over the "none" key
pub open spec fn next_key(next: usize) -> usize {
    if next == 0 {
        1
    } else {
        next
    }
}

/// A key has a new key exactly when it is among the loaded keys
proof fn lemma_load_map_dom(ids: Seq<DbId>)
    ensures
        forall|k: DbId|
            #![trigger load_map(ids).contains_key(k)]
            load_map(ids).contains_key(k) <==> exists|i: int| 0 <= i < ids.len() && ids[i] == k,
        forall|k: DbId|
            #[trigger] load_map(ids).contains_key(k) ==> exists|i: int|
                0 <= i < ids.len() && ids[i] == k && load_map(ids)[k] == (DbId { id: (i + 1) as usize }),
    decreases ids.len(),
{
    if ids.len() > 0 {
        let prev = ids.drop_last();
        lemma_load_map_dom(prev);
        assert forall|k: DbId|
            load_map(ids).contains_key(k) <==> exists|i: int| 0 <= i < ids.len() && ids[i] == k by {
            if load_map(ids).contains_key(k) && k != ids.last() {
                assert(load_map(prev).contains_key(k));
                let i = choose|i: int| 0 <= i < prev.len() && prev[i] == k;
                assert(ids[i] == k);
            }
            if exists|i: int| 0 <= i < ids.len() && ids[i] == k {
                let i = choose|i: int| 0 <= i < ids.len() && ids[i] == k;
                if i < ids.len() - 1 {
                    assert(prev[i] == k);
                    assert(load_map(prev).contains_key(k));
                }
            }
        }
        assert forall|k: DbId| #[trigger] load_map(ids).contains_key(k) implies exists|i: int|
            0 <= i < ids.len() && ids[i] == k && load_map(ids)[k] == DbId { id: (i + 1) as usize } by {
            if k == ids.last() {
                assert(ids[ids.len() - 1] == k);
            } else {
                let i = choose|i: int|
                    0 <= i < prev.len() && prev[i] == k && load_map(prev)[k] == DbId {
                        id: (i + 1) as usize,
                    };
                assert(ids[i] == k);
            }
        }
    }
}

/// With no repeated key, the record at position `j` gets key `j + 1`
proof fn lemma_load_map_at(ids: Seq<DbId>, j: int)
    requires
        !has_dup(ids),
        0 <= j < ids.len(),
    ensures
        load_map(ids).contains_key(ids[j]),
        load_map(ids)[ids[j]] == (DbId { id: (j + 1) as usize }),
    decreases ids.len(),
{
    let prev = ids.drop_last();
    if j < ids.len() - 1 {
        assert(!has_dup(prev)) by {
            if has_dup(prev) {
                let (a, b) = choose|a: int, b: int| 0 <= a < b < prev.len() && prev[a] == prev[b];
                assert(ids[a] == ids[b]);
            }
        }
        assert(prev[j] == ids[j]);
        lemma_load_map_at(prev, j);
        assert(ids[j] != ids.last());
    }
}

/// Rebuilding a load never makes a record point outside the load: every
/// reference of every loaded record is "none" or the key of a loaded record
pub proof fn lemma_reference_integrity(input: Seq<DbItem>, out: Seq<DbItem>)
    requires
        loaded(input, out),
        all_resolve(input, load_map(ids_of(input))),
    ensures
        forall|i: int| 0 <= i < out.len() ==> (#[trigger] out[i]).value.refs_within(key_set(out)),
{
    let ids = ids_of(input);
    let m = load_map(ids);
    let s = key_set(out);
    lemma_load_map_dom(ids);
    assert forall|k: DbId| #[trigger] m.contains_key(k) implies s.contains(m[k]) by {
        let i = choose|i: int| 0 <= i < ids.len() && ids[i] == k && m[k] == DbId { id: (i + 1) as usize };
        assert(out[i].id.id == i + 1);
        assert(out[i].id == m[k]);
    }
    assert forall|i: int| 0 <= i < out.len() implies (#[trigger] out[i]).value.refs_within(s) by {
        assert(input[i].value.refs_resolve(m));
        lemma_renamed_within(&input[i].value, &out[i].value, m, s);
    }
}

/// Loading one input gives the same outcome every time: it succeeds exactly
/// when [load_succeeds] holds of the input, and then the key of each record
/// is fixed by its position
pub proof fn lemma_rebuild_determinism(input: Seq<DbItem>, a: Seq<DbItem>, b: Seq<DbItem>)
    requires
        loaded(input, a),
        loaded(input, b),
    ensures
        a.len() == b.len(),
        forall|i: int| 0 <= i < a.len() ==> (#[trigger] a[i]).id == b[i].id && a[i].itype == b[i].itype,
{
    assert forall|i: int| 0 <= i < a.len() implies (#[trigger] a[i]).id == b[i].id && a[i].itype
        == b[i].itype by {
        assert(a[i].id.id == i + 1 && b[i].id.id == i + 1);
    }
}

/// The records of a well-formed arena whose references all stay inside it,
/// written out in key order and loaded again, load without a repeated key
/// and without an unresolved reference; the record at position `i` is
/// given key `i + 1`, so the payloads come back with their references
/// renumbered by a one-to-one map from old keys to new
pub proof fn lemma_round_trip(items: Seq<DbItem>, next: usize)
    requires
        arena_wf(items, next),
        forall|i: int| 0 <= i < items.len() ==> (#[trigger] items[i]).value.refs_within(key_set(items)),
    ensures
        !has_dup(ids_of(items)),
        all_resolve(items, load_map(ids_of(items))),
        forall|i: int|
            0 <= i < items.len() ==> load_map(ids_of(items))[#[trigger] items[i].id] == (DbId {
                id: (i + 1) as usize,
            }),
{
    let ids = ids_of(items);
    assert(!has_dup(ids)) by {
        if has_dup(ids) {
            let (a, b) = choose|a: int, b: int| 0 <= a < b < ids.len() && ids[a] == ids[b];
            assert(items[a].id.id < items[b].id.id);
        }
    }
    let m = load_map(ids);
    lemma_load_map_dom(ids);
    assert forall|i: int| 0 <= i < items.len() implies load_map(ids_of(items))[#[trigger] items[i].id]
        == DbId { id: (i + 1) as usize } by {
        assert(ids[i] == items[i].id);
        lemma_load_map_at(ids, i);
    }
    assert forall|k: DbId| key_set(items).contains(k) implies m.contains_key(k) by {
        let i = choose|i: int| 0 <= i < items.len() && items[i].id == k;
        assert(ids[i] == k);
    }
    assert forall|i: int| 0 <= i < items.len() implies (#[trigger] items[i]).value.refs_resolve(m) by {
        lemma_within_resolves(&items[i].value, key_set(items), m);
    }
}

/// A well-formed store whose references all name records of the store, with
/// its records written out in key order by [Database::serialize_as_array],
/// loads again: [load_succeeds] holds of them, and the record at position
/// `i` is given key `i + 1`
pub proof fn lemma_store_round_trip(db: &Database)
    requires
        db.wf(),
        forall|i: int| 0 <= i < db@.len() ==> (#[trigger] db@[i]).value.refs_within(key_set(db@)),
    ensures
        load_succeeds(db@),
        forall|i: int|
            0 <= i < db@.len() ==> load_map(ids_of(db@))[#[trigger] db@[i].id] == (DbId {
                id: (i + 1) as usize,
            }),
{
    lemma_round_trip(db@, db.spec_next());
}

/// References inside the keys of a load all resolve through its new keys
proof fn lemma_within_resolves(x: &DbItemTypeE, s: Set<DbId>, m: Map<DbId, DbId>)
    requires
        x.refs_within(s),
        forall|k: DbId| s.contains(k) ==> m.contains_key(k),
    ensures
        x.refs_resolve(m),
{
}

/// The allocation counter and the records of the store, in key order
pub struct DatabaseState {
    next_db_id: usize,
    items: Vec<DbItem>,
}

impl DatabaseState {
    pub closed spec fn spec_items(&self) -> Seq<DbItem> {
        self.items@
    }

    pub closed spec fn spec_next(&self) -> usize {
        self.next_db_id
    }

    pub open spec fn wf(&self) -> bool {
        arena_wf(self.spec_items(), self.spec_next())
    }

    /// No records, and the counter at the start
    pub fn new() -> (r: Self)
        ensures
            r.wf(),
            r.spec_items().len() == 0,
            r.spec_next() == 0,
    {
        DatabaseState { next_db_id: 0, items: Vec::new() }
    }

    /// Hand out the lowest free key at or above the counter, stepping over
    /// the "none" key, and move the counter past it
    pub fn assign_next_free_db_id(&mut self) -> (r: DbId)
        requires
            old(self).wf(),
            old(self).spec_next() < usize::MAX - 1,
        ensures
            final(self).wf(),
            r.id == next_key(old(self).spec_next()),
            final(self).spec_next() == r.id + 1,
            final(self).spec_items() == old(self).spec_items(),
            !key_set(old(self).spec_items()).contains(r),
    {
        let db_id = if self.next_db_id == 0 {
            1
        } else {
            self.next_db_id
        };
        self.next_db_id = db_id + 1;
        DbId { id: db_id }
    }

    /// Add `item`, whose key is at or above every key present and below the
    /// counter
    fn push(&mut self, item: DbItem)
        requires
            old(self).wf(),
            item.wf(),
            item.id.id != 0,
            item.id.id < old(self).spec_next(),
            forall|i: int| 0 <= i < old(self).spec_items().len() ==> old(self).spec_items()[i].id.id < item.id.id,
        ensures
            final(self).wf(),
            final(self).spec_items() == old(self).spec_items().push(item),
            final(self).spec_next() == old(self).spec_next(),
    {
        self.items.push(item);
    }

    /// The position of the record with key `id`
    fn find(&self, id: DbId) -> (r: Option<usize>)
        ensures
            r is None <==> !key_set(self.spec_items()).contains(id),
            r matches Some(i) ==> i < self.spec_items().len() && self.spec_items()[i as int].id == id,
    {
        let mut i: usize = 0;
        while i < self.items.len()
            invariant
                i <= self.items@.len(),
                forall|k: int| 0 <= k < i ==> self.items@[k].id != id,
            decreases self.items@.len() - i,
        {
            if self.items[i].id == id {
                return Some(i);
            }
            i += 1;
        }
        None
    }

    /// The records of a load, keyed `1, 2, ...` in input order, and the map
    /// from the keys they carried to those they were given
    ///
    /// Fails on the first record whose key repeats an earlier one.
    pub fn load_items(array: Vec<DbItem>) -> (r: Result<(DatabaseState, DatabaseRebuild), Error>)
        requires
            array@.len() < usize::MAX - 2,
            forall|i: int| 0 <= i < array@.len() ==> (#[trigger] array@[i]).wf(),
        ensures
            has_dup(ids_of(array@)) ==> r is Err,
            r matches Err(e) ==> (e matches Error::DuplicateItemId(k) && exists|j: int|
                first_dup_at(ids_of(array@), j) && ids_of(array@)[j] == k),
            r matches Ok(p) ==> !has_dup(ids_of(array@)) && p.0.wf() && p.1.wf() && p.1@ == load_map(
                ids_of(array@),
            ) && p.0.spec_items().len() == array@.len() && forall|i: int|
                0 <= i < array@.len() ==> (#[trigger] p.0.spec_items()[i]).id.id == i + 1
                    && p.0.spec_items()[i].itype == array@[i].itype && p.0.spec_items()[i].value
                    == array@[i].value,
    {
        let ghost input = array@;
        let ghost ids = ids_of(input);
        let n = array.len();
        let mut src = array;
        let mut rev: Vec<DbItem> = Vec::new();
        while src.len() > 0
            invariant
                src@.len() + rev@.len() == n,
                n == input.len(),
                forall|k: int| 0 <= k < src@.len() ==> src@[k] == input[k],
                forall|k: int| 0 <= k < rev@.len() ==> rev@[k] == input[n - 1 - k],
            decreases src@.len(),
        {
            match src.pop() {
                Some(x) => rev.push(x),
                None => {},
            }
        }
        let mut st = DatabaseState::new();
        let mut m = DatabaseRebuild::new();
        let mut i: usize = 0;
        while i < n
            invariant
                n == input.len(),
                n < usize::MAX - 2,
                ids == ids_of(input),
                input == array@,
                i <= n,
                rev@.len() == n - i,
                forall|k: int| 0 <= k < rev@.len() ==> rev@[k] == input[n - 1 - k],
                forall|k: int| 0 <= k < input.len() ==> (#[trigger] input[k]).wf(),
                st.wf(),
                m.wf(),
                st.spec_next() == if i == 0 { 0 } else { i + 1 },
                st.spec_items().len() == i,
                forall|k: int|
                    0 <= k < i ==> (#[trigger] st.spec_items()[k]).id.id == k + 1 && st.spec_items()[k].itype
                        == input[k].itype && st.spec_items()[k].value == input[k].value,
                m@ == load_map(ids.take(i as int)),
                !has_dup(ids.take(i as int)),
            decreases n - i,
        {
            let ghost before = st.spec_items();
            let mut item = match rev.pop() {
                Some(x) => x,
                None => {
                    return Err(Error::DuplicateItemId(DbId::none()));
                },
            };
            assert(item == input[i as int]);
            let old_id = item.id;
            let new_id = st.assign_next_free_db_id();
            assert(ids.take(i as int + 1).drop_last() =~= ids.take(i as int));
            assert(ids[i as int] == old_id);
            proof {
                lemma_load_map_dom(ids.take(i as int));
            }
            match m.add_mapping(old_id, new_id) {
                Ok(()) => {},
                Err(e) => {
                    proof {
                        assert(m@.contains_key(old_id));
                        assert(load_map(ids.take(i as int)).contains_key(old_id));
                        let k = choose|k: int| 0 <= k < i && ids.take(i as int)[k] == old_id;
                        assert(ids[k] == ids[i as int]);
                        assert(first_dup_at(ids, i as int));
                        assert(e == Error::DuplicateItemId(old_id));
                    }
                    return Err(e);
                },
            }
            item.id = new_id;
            st.push(item);
            proof {
                let t = ids.take(i as int + 1);
                assert forall|a: int, b: int| 0 <= a < b < t.len() implies #[trigger] t[a] != #[trigger] t[b] by {
                    if b == i {
                        assert(ids.take(i as int)[a] == ids[a]);
                        assert(!load_map(ids.take(i as int)).contains_key(old_id));
                    } else {
                        assert(ids.take(i as int)[a] == ids[a] && ids.take(i as int)[b] == ids[b]);
                    }
                }
                assert forall|k: int| 0 <= k < i + 1 implies (#[trigger] st.spec_items()[k]).id.id == k + 1
                    && st.spec_items()[k].itype == input[k].itype && st.spec_items()[k].value
                    == input[k].value by {
                    if k < i {
                        assert(st.spec_items()[k] == before[k]);
                    }
                }
            }
            i += 1;
        }
        assert(ids.take(n as int) =~= ids);
        Ok((st, m))
    }
}

/// The store: every record in one arena by key, the typed collections of
/// keys, and the cache that links bank descriptions to related parties
pub struct Database {
    state: DatabaseState,
    accounts: DbAccounts,
    funds: DbFunds,
    related_parties: DbRelatedParties,
    bank_transactions: DbBankTransactions,
    transactions: DbTransactions,
    invoices: DbInvoices,
    account_related_parties: RelatedParties,
}

impl View for Database {
    type V = Seq<DbItem>;

    closed spec fn view(&self) -> Seq<DbItem> {
        self.state.spec_items()
    }
}

impl Database {
    pub closed spec fn spec_next(&self) -> usize {
        self.state.spec_next()
    }

    pub closed spec fn spec_accounts(&self) -> DbAccounts {
        self.accounts
    }

    pub closed spec fn spec_funds(&self) -> DbFunds {
        self.funds
    }

    pub closed spec fn spec_related_parties(&self) -> DbRelatedParties {
        self.related_parties
    }

    pub closed spec fn spec_bank_transactions(&self) -> DbBankTransactions {
        self.bank_transactions
    }

    pub closed spec fn spec_transactions(&self) -> DbTransactions {
        self.transactions
    }

    pub closed spec fn spec_invoices(&self) -> DbInvoices {
        self.invoices
    }

    pub closed spec fn spec_cache(&self) -> RelatedParties {
        self.account_related_parties
    }

    /// Each collection holds exactly what the records with keys `ks` give
    /// it: the account descriptions, the fund names and aliases, the party
    /// numbers, names and aliases, and the invoice reasons
    pub open spec fn reflects(&self, ks: Seq<(DbItemType, AccountDesc, Seq<char>, Seq<Seq<char>>, usize)>) -> bool {
        &&& forall|d: AccountDesc|
            #![trigger desc_taken(ks, d)]
            #![trigger desc_held(self.spec_accounts().spec_accounts(), d)]
            desc_held(self.spec_accounts().spec_accounts(), d) == desc_taken(ks, d)
        &&& forall|n: Seq<char>|
            #![trigger name_taken(ks, DbItemType::Fund, n)]
            #![trigger self.spec_funds().spec_names().contains_key(n)]
            self.spec_funds().spec_names().contains_key(n) == name_taken(ks, DbItemType::Fund, n)
        &&& forall|x: usize|
            #![trigger rp_id_taken(ks, x)]
            #![trigger rp_id_held(self.spec_related_parties().spec_parties(), x)]
            rp_id_held(self.spec_related_parties().spec_parties(), x) == rp_id_taken(ks, x)
        &&& forall|n: Seq<char>|
            #![trigger name_taken(ks, DbItemType::RelatedParty, n)]
            #![trigger self.spec_related_parties().spec_names().contains_key(n)]
            self.spec_related_parties().spec_names().contains_key(n) == name_taken(ks, DbItemType::RelatedParty, n)
        &&& forall|n: Seq<char>|
            #![trigger reason_taken(ks, n)]
            #![trigger self.spec_invoices().spec_reasons().contains_key(n)]
            self.spec_invoices().spec_reasons().contains_key(n) == reason_taken(ks, n)
    }

    /// The store is well formed, and no two records clash on a collection's
    /// key, each collection holding exactly what the records give it
    pub open spec fn wf(&self) -> bool {
        &&& self.base_wf()
        &&& no_clash(self@)
        &&& self.reflects(keys_of(self@))
    }

    /// The arena is well formed, the collections and the cache are in order
    pub open spec fn base_wf(&self) -> bool {
        &&& arena_wf(self@, self.spec_next())
        &&& self.spec_accounts().wf()
        &&& self.spec_funds().wf()
        &&& self.spec_related_parties().wf()
        &&& self.spec_invoices().wf()
        &&& self.spec_cache().wf()
        &&& self.spec_cache().spec_config() == (CACHE_MIN_LEN, CACHE_MAX_LEN, CACHE_STEP)
        &&& self.spec_cache().spec_levels().len() <= 3
        &&& cache_names_parties(self.spec_cache().spec_levels(), self@)
        &&& forall|k: int|
            0 <= k < self.spec_cache().spec_levels().len() ==> (#[trigger] self.spec_cache().spec_levels()[k]).0
                == CACHE_MIN_LEN + CACHE_STEP * k
    }

    /// An empty store
    pub fn new() -> (r: Self)
        ensures
            r.wf(),
            r@.len() == 0,
            r.spec_next() == 0,
    {
        Database {
            state: DatabaseState::new(),
            accounts: DbAccounts::new(),
            funds: DbFunds::new(),
            related_parties: DbRelatedParties::new(),
            bank_transactions: DbBankTransactions::new(),
            transactions: DbTransactions::new(),
            invoices: DbInvoices::new(),
            account_related_parties: RelatedParties::new(CACHE_MIN_LEN, CACHE_MAX_LEN, CACHE_STEP),
        }
    }

    /// The accounts of the store
    pub fn accounts(&self) -> (r: &DbAccounts)
        ensures
            *r == self.spec_accounts(),
    {
        &self.accounts
    }

    /// The funds of the store
    pub fn funds(&self) -> (r: &DbFunds)
        ensures
            *r == self.spec_funds(),
    {
        &self.funds
    }

    /// The related parties of the store
    pub fn related_parties(&self) -> (r: &DbRelatedParties)
        ensures
            *r == self.spec_related_parties(),
    {
        &self.related_parties
    }

    /// The bank transactions of the store
    pub fn bank_transactions(&self) -> (r: &DbBankTransactions)
        ensures
            *r == self.spec_bank_transactions(),
    {
        &self.bank_transactions
    }

    /// The ledger transactions of the store
    pub fn transactions(&self) -> (r: &DbTransactions)
        ensures
            *r == self.spec_transactions(),
    {
        &self.transactions
    }

    /// The invoices of the store
    pub fn invoices(&self) -> (r: &DbInvoices)
        ensures
            *r == self.spec_invoices(),
    {
        &self.invoices
    }

    /// The record with key `id`, if there is one
    pub fn get(&self, id: DbId) -> (r: Option<&DbItem>)
        ensures
            r is Some <==> key_set(self@).contains(id),
            r matches Some(x) ==> x.id == id && exists|i: int| 0 <= i < self@.len() && self@[i] == *x,
    {
        match self.state.find(id) {
            Some(i) => {
                assert(self@[i as int] == self.state.items@[i as int]);
                Some(&self.state.items[i])
            },
            None => None,
        }
    }

    /// The records in ascending key order, to be written out
    pub fn serialize_as_array(&self) -> (r: &Vec<DbItem>)
        requires
            self.wf(),
        ensures
            r@ == self@,
            forall|i: int, j: int| 0 <= i < j < r@.len() ==> r@[i].id.id < r@[j].id.id,
    {
        &self.state.items
    }

    /// Put `value` in the arena under a fresh key
    fn add_item(&mut self, value: DbItemTypeE) -> (r: DbId)
        requires
            old(self).wf(),
            value.wf(),
            old(self).spec_next() < usize::MAX - 1,
        ensures
            final(self).base_wf(),
            r.id == next_key(old(self).spec_next()),
            final(self)@ == old(self)@.push(DbItem { id: r, itype: value.spec_itype(), value }),
            final(self).spec_next() == r.id + 1,
            final(self).spec_accounts() == old(self).spec_accounts(),
            final(self).spec_funds() == old(self).spec_funds(),
            final(self).spec_related_parties() == old(self).spec_related_parties(),
            final(self).spec_bank_transactions() == old(self).spec_bank_transactions(),
            final(self).spec_transactions() == old(self).spec_transactions(),
            final(self).spec_invoices() == old(self).spec_invoices(),
            final(self).spec_cache() == old(self).spec_cache(),
    {
        let id = self.state.assign_next_free_db_id();
        let item = DbItem::new(id, value);
        self.state.push(item);
        proof {
            lemma_cache_names_grow(self.spec_cache().spec_levels(), old(self)@, self@);
        }
        id
    }

    /// Add a related party, unless its number, its name or one of its
    /// aliases is taken; nothing changes then
    pub fn add_related_party(&mut self, related_party: RelatedParty) -> (r: Result<DbId, Error>)
        requires
            old(self).wf(),
            related_party.wf(),
            old(self).spec_next() < usize::MAX - 1,
        ensures
            final(self).wf(),
            r is Ok == (old(self).spec_related_parties().spec_rp_id(related_party.rp_id) is None
                && !old(self).spec_related_parties().spec_names().contains_key(related_party.name@)
                && !exists|i: int|
                0 <= i < related_party.aliases@.len() && old(self).spec_related_parties().spec_names().contains_key(
                    #[trigger] related_party.aliases@[i]@,
                )),
            r is Err ==> *final(self) == *old(self) && r->Err_0 is DuplicateName,
            r matches Ok(id) ==> id.id == next_key(old(self).spec_next()) && final(self)@ == old(
                self,
            )@.push(
                DbItem {
                    id,
                    itype: DbItemType::RelatedParty,
                    value: DbItemTypeE::RelatedParty(related_party),
                },
            ) && final(self).spec_related_parties().spec_parties() == old(
                self,
            ).spec_related_parties().spec_parties().push(
                (id, related_party.rp_id, related_party.rp_type),
            ),
    {
        if self.related_parties.has_rp_id(related_party.rp_id) || self.related_parties.has_name(
            related_party.name.as_str(),
        ) || self.related_parties.has_any_name(related_party.aliases.as_slice()) {
            return Err(Error::DuplicateName(related_party.name.clone()));
        }
        let ghost ks0 = keys_of(self@);
        let ghost parties0 = self.spec_related_parties().spec_parties();
        let ghost rnames0 = self.spec_related_parties().spec_names();
        let ghost k = item_keys(DbItem { id: DbId { id: 0 }, itype: DbItemType::RelatedParty, value: DbItemTypeE::RelatedParty(related_party) });
        proof {
            assert((self.spec_related_parties().spec_rp_id(related_party.rp_id) is Some) == rp_id_held(parties0, related_party.rp_id)) by {
                if rp_id_held(parties0, related_party.rp_id) {
                    let j = choose|j: int| 0 <= j < parties0.len() && parties0[j].1 == related_party.rp_id;
                    assert(self.spec_related_parties().spec_parties()[j].1 == related_party.rp_id);
                }
            }
            assert(!rp_id_taken(ks0, k.4));
            assert(!name_taken(ks0, DbItemType::RelatedParty, k.2));
            assert forall|a: int| 0 <= a < k.3.len() implies !name_taken(ks0, DbItemType::RelatedParty, #[trigger] k.3[a]) by {
                assert(k.3[a] == related_party.aliases@[a]@);
                assert(!rnames0.contains_key(related_party.aliases@[a]@));
            }
            assert(!clash_with(ks0, k));
        }
        let rp_id = related_party.rp_id;
        let rp_type = related_party.rp_type;
        let name = related_party.name.clone();
        let aliases = related_party.aliases.clone();
        let ghost rp = related_party;
        let id = self.add_item(DbItemTypeE::RelatedParty(related_party));
        let added = self.related_parties.add_related_party(id, rp_id, rp_type, name.as_str(), aliases.as_slice());
        assert(added);
        proof {
            let x = DbItem { id, itype: DbItemType::RelatedParty, value: DbItemTypeE::RelatedParty(rp) };
            assert(item_keys(x) == k);
            lemma_keys_push(old(self)@, x);
            lemma_taken_push(ks0, k);
            lemma_no_clash_push(ks0, k);
            lemma_rp_id_held_push(parties0, (id, rp_id, rp_type));
            lemma_add_names_dom(rnames0.insert(name@, id), views(aliases@), id);
        }
        Ok(id)
    }

    /// Add an account, unless another account has its description; nothing
    /// changes then
    pub fn add_account(&mut self, account: Account) -> (r: Result<DbId, Error>)
        requires
            old(self).wf(),
            account.wf(),
            old(self).spec_next() < usize::MAX - 1,
        ensures
            final(self).wf(),
            r is Ok == forall|i: int|
                0 <= i < old(self).spec_accounts().spec_accounts().len() ==> old(
                    self,
                ).spec_accounts().spec_accounts()[i].1 != account.desc,
            r is Err ==> *final(self) == *old(self) && r->Err_0 is DuplicateName,
            r matches Ok(id) ==> id.id == next_key(old(self).spec_next()) && final(self)@ == old(
                self,
            )@.push(DbItem { id, itype: DbItemType::Account, value: DbItemTypeE::Account(account) })
                && final(self).spec_accounts().spec_accounts() == old(
                self,
            ).spec_accounts().spec_accounts().push((id, account.desc, account.name@)),
    {
        if self.accounts.has_account(&account.desc) {
            return Err(Error::DuplicateName(account.name.clone()));
        }
        let ghost ks0 = keys_of(self@);
        let ghost accs0 = self.spec_accounts().spec_accounts();
        let ghost acc = account;
        proof {
            assert(!desc_held(accs0, account.desc));
        }
        let desc = account.desc;
        let name = account.name.clone();
        let id = self.add_item(DbItemTypeE::Account(account));
        let added = self.accounts.add_account(id, desc, name.as_str());
        assert(added);
        proof {
            let x = DbItem { id, itype: DbItemType::Account, value: DbItemTypeE::Account(acc) };
            let k = item_keys(x);
            lemma_keys_push(old(self)@, x);
            lemma_taken_push(ks0, k);
            lemma_no_clash_push(ks0, k);
            lemma_desc_held_push(accs0, (id, desc, name@));
        }
        Ok(id)
    }

    /// Add a fund, unless its name is taken; nothing changes then.  Its
    /// aliases that are not taken name it too.
    pub fn add_fund(&mut self, fund: Fund) -> (r: Result<DbId, Error>)
        requires
            old(self).wf(),
            fund.wf(),
            old(self).spec_next() < usize::MAX - 1,
        ensures
            final(self).wf(),
            r is Ok == !old(self).spec_funds().spec_names().contains_key(fund.name@),
            r is Err ==> *final(self) == *old(self) && r->Err_0 is DuplicateName,
            r matches Ok(id) ==> id.id == next_key(old(self).spec_next()) && final(self)@ == old(
                self,
            )@.push(DbItem { id, itype: DbItemType::Fund, value: DbItemTypeE::Fund(fund) })
                && final(self).spec_funds().spec_ids() == old(self).spec_funds().spec_ids().push(
                id,
            ),
    {
        if self.funds.has_fund(fund.name.as_str()) {
            return Err(Error::DuplicateName(fund.name.clone()));
        }
        let ghost ks0 = keys_of(self@);
        let ghost fnames0 = self.spec_funds().spec_names();
        let ghost fd = fund;
        let name = fund.name.clone();
        let aliases = fund.aliases.clone();
        let id = self.add_item(DbItemTypeE::Fund(fund));
        let added = self.funds.add_fund(id, name.as_str());
        assert(added);
        self.funds.add_fund_aliases(id, aliases.as_slice());
        proof {
            let x = DbItem { id, itype: DbItemType::Fund, value: DbItemTypeE::Fund(fd) };
            let k = item_keys(x);
            lemma_keys_push(old(self)@, x);
            lemma_taken_push(ks0, k);
            lemma_no_clash_push(ks0, k);
            lemma_add_names_dom(fnames0.insert(name@, id), views(aliases@), id);
        }
        Ok(id)
    }

    /// Add an invoice, unless an invoice has its reason; nothing changes then
    pub fn add_invoice(&mut self, invoice: Invoice) -> (r: Result<DbId, Error>)
        requires
            old(self).wf(),
            invoice.wf(),
            old(self).spec_next() < usize::MAX - 1,
        ensures
            final(self).wf(),
            r is Ok == !old(self).spec_invoices().spec_reasons().contains_key(invoice.reason@),
            r is Err ==> *final(self) == *old(self) && r->Err_0 is DuplicateName,
            r matches Ok(id) ==> id.id == next_key(old(self).spec_next()) && final(self)@ == old(
                self,
            )@.push(DbItem { id, itype: DbItemType::Invoice, value: DbItemTypeE::Invoice(invoice) })
                && final(self).spec_invoices().spec_ids() == old(self).spec_invoices().spec_ids().push(
                id,
            ),
    {
        if self.invoices.has_invoice(invoice.reason.as_str()) {
            return Err(Error::DuplicateName(invoice.reason.clone()));
        }
        let ghost ks0 = keys_of(self@);
        let ghost iv = invoice;
        let reason = invoice.reason.clone();
        let id = self.add_item(DbItemTypeE::Invoice(invoice));
        let added = self.invoices.add_invoice(id, reason.as_str());
        assert(added);
        proof {
            let x = DbItem { id, itype: DbItemType::Invoice, value: DbItemTypeE::Invoice(iv) };
            let k = item_keys(x);
            lemma_keys_push(old(self)@, x);
            lemma_taken_push(ks0, k);
            lemma_no_clash_push(ks0, k);
        }
        Ok(id)
    }

    /// Add a bank transaction
    pub fn add_bank_transaction(&mut self, bank_transaction: BankTransaction) -> (r: DbId)
        requires
            old(self).wf(),
            old(self).spec_next() < usize::MAX - 1,
        ensures
            final(self).wf(),
            r.id == next_key(old(self).spec_next()),
            final(self)@ == old(self)@.push(
                DbItem {
                    id: r,
                    itype: DbItemType::BankTransaction,
                    value: DbItemTypeE::BankTransaction(bank_transaction),
                },
            ),
            final(self).spec_bank_transactions().spec_ids() == old(
                self,
            ).spec_bank_transactions().spec_ids().push(r),
            final(self).spec_next() == r.id + 1,
            final(self).spec_cache() == old(self).spec_cache(),
    {
        let ghost ks0 = keys_of(self@);
        let ghost b = bank_transaction;
        let id = self.add_item(DbItemTypeE::BankTransaction(bank_transaction));
        self.bank_transactions.add_transaction(id);
        proof {
            let x = DbItem { id, itype: DbItemType::BankTransaction, value: DbItemTypeE::BankTransaction(b) };
            let k = item_keys(x);
            lemma_keys_push(old(self)@, x);
            lemma_taken_push(ks0, k);
            lemma_no_clash_push(ks0, k);
        }
        id
    }

    /// Add a ledger transaction
    pub fn add_transaction(&mut self, transaction: Transaction) -> (r: DbId)
        requires
            old(self).wf(),
            old(self).spec_next() < usize::MAX - 1,
        ensures
            final(self).wf(),
            r.id == next_key(old(self).spec_next()),
            final(self)@ == old(self)@.push(
                DbItem {
                    id: r,
                    itype: DbItemType::Transaction,
                    value: DbItemTypeE::Transaction(transaction),
                },
            ),
            final(self).spec_transactions().spec_ids() == old(self).spec_transactions().spec_ids().push(
                r,
            ),
    {
        let ghost ks0 = keys_of(self@);
        let ghost t = transaction;
        let id = self.add_item(DbItemTypeE::Transaction(transaction));
        self.transactions.add_transaction(id);
        proof {
            let x = DbItem { id, itype: DbItemType::Transaction, value: DbItemTypeE::Transaction(t) };
            let k = item_keys(x);
            lemma_keys_push(old(self)@, x);
            lemma_taken_push(ks0, k);
            lemma_no_clash_push(ks0, k);
        }
        id
    }

    /// Rewrite every record's references through `database_rebuild`, then
    /// enter each record in its collection
    ///
    /// Fails at the first reference with no new key, or at the first record
    /// whose name or description its collection already holds.
    pub fn try_rebuild(&mut self, database_rebuild: &DatabaseRebuild) -> (r: Result<(), Error>)
        requires
            old(self).base_wf(),
            database_rebuild.wf(),
            old(self).reflects(Seq::empty()),
            old(self).spec_accounts().spec_accounts().len() == 0,
            old(self).spec_funds().spec_ids().len() == 0,
            old(self).spec_related_parties().spec_parties().len() == 0,
            old(self).spec_bank_transactions().spec_ids().len() == 0,
            old(self).spec_transactions().spec_ids().len() == 0,
            old(self).spec_invoices().spec_ids().len() == 0,
        ensures
            final(self).base_wf(),
            r is Ok ==> final(self).wf(),
            final(self).spec_next() == old(self).spec_next(),
            !all_resolve(old(self)@, database_rebuild@) ==> r is Err && r->Err_0 is UnresolvedReference,
            all_resolve(old(self)@, database_rebuild@) ==> final(self)@.len() == old(self)@.len()
                && forall|i: int|
                0 <= i < old(self)@.len() ==> (#[trigger] final(self)@[i]).id == old(self)@[i].id
                    && final(self)@[i].itype == old(self)@[i].itype && old(self)@[i].value.renamed(
                    &final(self)@[i].value,
                    database_rebuild@,
                ),
            all_resolve(old(self)@, database_rebuild@) && r is Err ==> r->Err_0 is DuplicateName,
            all_resolve(old(self)@, database_rebuild@) ==> (r is Ok <==> no_clash(old(self)@)),
            r is Ok ==> final(self).reflects(keys_of(final(self)@)),
            r is Ok ==> final(self).spec_accounts().spec_accounts().map_values(|e: (DbId, AccountDesc, Seq<char>)| e.0)
                == kind_ids(final(self)@, DbItemType::Account)
                && final(self).spec_funds().spec_ids() == kind_ids(final(self)@, DbItemType::Fund)
                && final(self).spec_related_parties().spec_parties().map_values(
                |e: (DbId, usize, crate::related_party::RelatedPartyType)| e.0,
            ) == kind_ids(final(self)@, DbItemType::RelatedParty)
                && final(self).spec_bank_transactions().spec_ids() == kind_ids(final(self)@, DbItemType::BankTransaction)
                && final(self).spec_transactions().spec_ids() == kind_ids(final(self)@, DbItemType::Transaction)
                && final(self).spec_invoices().spec_ids() == kind_ids(final(self)@, DbItemType::Invoice),
    {
        let ghost before = self@;
        let ghost m = database_rebuild@;
        let n = self.state.items.len();
        let mut i: usize = 0;
        while i < n
            invariant
                self.base_wf(),
                database_rebuild.wf(),
                m == database_rebuild@,
                before == old(self)@,
                self.reflects(Seq::empty()),
                self.spec_accounts() == old(self).spec_accounts(),
                self.spec_funds() == old(self).spec_funds(),
                self.spec_related_parties() == old(self).spec_related_parties(),
                self.spec_bank_transactions() == old(self).spec_bank_transactions(),
                self.spec_transactions() == old(self).spec_transactions(),
                self.spec_invoices() == old(self).spec_invoices(),
                n == before.len(),
                self@.len() == n,
                self.spec_next() == old(self).spec_next(),
                i <= n,
                forall|k: int| 0 <= k < i ==> before[k].value.refs_resolve(m),
                forall|k: int|
                    0 <= k < i ==> (#[trigger] self@[k]).id == before[k].id && self@[k].itype
                        == before[k].itype && before[k].value.renamed(&self@[k].value, m),
                forall|k: int| i <= k < n ==> #[trigger] self@[k] == before[k],
            decreases n - i,
        {
            let ghost prev = self@;
            assert(self@[i as int].wf());
            let res = self.state.items[i].value.rebuild(database_rebuild);
            assert(self@ =~= prev.update(i as int, self@[i as int]));
            proof {
                lemma_cache_names_grow(self.spec_cache().spec_levels(), prev, self@);
            }
            match res {
                Ok(()) => {},
                Err(e) => {
                    assert(!before[i as int].value.refs_resolve(m));
                    return Err(e);
                },
            }
            i += 1;
        }
        let ghost mid = self@;
        let ghost ks = keys_of(mid);
        assert(all_resolve(before, m));
        proof {
            assert(keys_of(before) =~= ks) by {
                assert forall|k: int| 0 <= k < n implies keys_of(before)[k] == ks[k] by {
                    lemma_renamed_keys(before[k], mid[k], m);
                }
            }
            assert(ks.take(0) =~= Seq::<(DbItemType, AccountDesc, Seq<char>, Seq<Seq<char>>, usize)>::empty());
            assert(self.reflects(ks.take(0)));
            assert(mid.take(0) =~= Seq::<DbItem>::empty());
            assert(kind_ids(mid.take(0), DbItemType::Account) =~= Seq::<DbId>::empty()) by { reveal(Seq::filter); }
            assert(kind_ids(mid.take(0), DbItemType::Fund) =~= Seq::<DbId>::empty()) by { reveal(Seq::filter); }
            assert(kind_ids(mid.take(0), DbItemType::RelatedParty) =~= Seq::<DbId>::empty()) by { reveal(Seq::filter); }
            assert(kind_ids(mid.take(0), DbItemType::BankTransaction) =~= Seq::<DbId>::empty()) by { reveal(Seq::filter); }
            assert(kind_ids(mid.take(0), DbItemType::Transaction) =~= Seq::<DbId>::empty()) by { reveal(Seq::filter); }
            assert(kind_ids(mid.take(0), DbItemType::Invoice) =~= Seq::<DbId>::empty()) by { reveal(Seq::filter); }
            assert(self.spec_accounts().spec_accounts().map_values(|e: (DbId, AccountDesc, Seq<char>)| e.0) =~= Seq::<DbId>::empty());
            assert(self.spec_related_parties().spec_parties().map_values(|e: (DbId, usize, crate::related_party::RelatedPartyType)| e.0) =~= Seq::<DbId>::empty());
        }
        let mut j: usize = 0;
        while j < n
            invariant
                self.base_wf(),
                self@ == mid,
                ks == keys_of(mid),
                keys_of(before) == ks,
                self.spec_next() == old(self).spec_next(),
                before == old(self)@,
                m == database_rebuild@,
                all_resolve(before, m),
                n == mid.len(),
                n == before.len(),
                forall|k: int|
                    0 <= k < n ==> (#[trigger] mid[k]).id == before[k].id && mid[k].itype
                        == before[k].itype && before[k].value.renamed(&mid[k].value, m),
                j <= n,
                self.reflects(ks.take(j as int)),
                no_clash_keys(ks.take(j as int)),
                self.spec_accounts().spec_accounts().map_values(|e: (DbId, AccountDesc, Seq<char>)| e.0)
                == kind_ids(mid.take(j as int), DbItemType::Account)
                && self.spec_funds().spec_ids() == kind_ids(mid.take(j as int), DbItemType::Fund)
                && self.spec_related_parties().spec_parties().map_values(
                |e: (DbId, usize, crate::related_party::RelatedPartyType)| e.0,
            ) == kind_ids(mid.take(j as int), DbItemType::RelatedParty)
                && self.spec_bank_transactions().spec_ids() == kind_ids(mid.take(j as int), DbItemType::BankTransaction)
                && self.spec_transactions().spec_ids() == kind_ids(mid.take(j as int), DbItemType::Transaction)
                && self.spec_invoices().spec_ids() == kind_ids(mid.take(j as int), DbItemType::Invoice),
            decreases n - j,
        {
            let id = self.state.items[j].id;
            let ghost pre = ks.take(j as int);
            let ghost kj = ks[j as int];
            assert(kj == item_keys(self.state.items@[j as int]));
            let ghost accs0 = self.spec_accounts().spec_accounts();
            let ghost fnames0 = self.spec_funds().spec_names();
            let ghost parties0 = self.spec_related_parties().spec_parties();
            let ghost rnames0 = self.spec_related_parties().spec_names();
            let ghost reasons0 = self.spec_invoices().spec_reasons();
            let ghost lists0 = (
                self.spec_accounts().spec_accounts(),
                self.spec_funds().spec_ids(),
                self.spec_related_parties().spec_parties(),
                self.spec_bank_transactions().spec_ids(),
                self.spec_transactions().spec_ids(),
                self.spec_invoices().spec_ids(),
            );
            match &self.state.items[j].value {
                DbItemTypeE::Account(a) => {
                    let res = self.accounts.rebuild_add_account(id, a);
                    proof {
                        assert(desc_held(accs0, a.desc) == desc_taken(pre, a.desc));
                        if res is Ok {
                            lemma_desc_held_push(accs0, (id, a.desc, a.name@));
                        }
                    }
                    if let Err(e) = res {
                        return Err(e);
                    }
                },
                DbItemTypeE::Fund(f) => {
                    let res = self.funds.rebuild_add_fund(id, f);
                    proof {
                        assert(fnames0.contains_key(f.name@) == name_taken(pre, DbItemType::Fund, f.name@));
                        if res is Ok {
                            lemma_add_names_dom(fnames0.insert(f.name@, id), views(f.aliases@), id);
                        }
                    }
                    if let Err(e) = res {
                        return Err(e);
                    }
                },
                DbItemTypeE::RelatedParty(p) => {
                    proof {
                        assert((self.spec_related_parties().spec_rp_id(p.rp_id) is Some) == rp_id_held(parties0, p.rp_id)) by {
                            if rp_id_held(parties0, p.rp_id) {
                                let k = choose|k: int| 0 <= k < parties0.len() && parties0[k].1 == p.rp_id;
                                assert(self.spec_related_parties().spec_parties()[k].1 == p.rp_id);
                            }
                        }
                    }
                    let res = self.related_parties.rebuild_add_related_party(id, p);
                    proof {
                        assert(rp_id_held(parties0, p.rp_id) == rp_id_taken(pre, p.rp_id));
                        assert(rnames0.contains_key(p.name@) == name_taken(pre, DbItemType::RelatedParty, p.name@));
                        assert forall|a: int| 0 <= a < p.aliases@.len() implies rnames0.contains_key(#[trigger] p.aliases@[a]@)
                            == name_taken(pre, DbItemType::RelatedParty, views(p.aliases@)[a]) by {
                            assert(views(p.aliases@)[a] == p.aliases@[a]@);
                        }
                        if res is Ok {
                            lemma_rp_id_held_push(parties0, (id, p.rp_id, p.rp_type));
                            lemma_add_names_dom(rnames0.insert(p.name@, id), views(p.aliases@), id);
                        } else {
                            if !(rp_id_taken(pre, kj.4) || name_taken(pre, DbItemType::RelatedParty, kj.2)) {
                                let a = choose|a: int| 0 <= a < p.aliases@.len() && rnames0.contains_key(#[trigger] p.aliases@[a]@);
                                assert(kj.3[a] == p.aliases@[a]@);
                                assert(name_taken(pre, DbItemType::RelatedParty, kj.3[a]));
                            }
                        }
                        if res is Ok {
                            assert forall|a: int| 0 <= a < kj.3.len() implies !name_taken(pre, DbItemType::RelatedParty, #[trigger] kj.3[a]) by {
                                assert(kj.3[a] == p.aliases@[a]@);
                                assert(!rnames0.contains_key(p.aliases@[a]@));
                            }
                        }
                    }
                    if let Err(e) = res {
                        return Err(e);
                    }
                },
                DbItemTypeE::Invoice(v) => {
                    let res = self.invoices.rebuild_add_invoice(id, v);
                    proof {
                        assert(reasons0.contains_key(v.reason@) == reason_taken(pre, v.reason@));
                    }
                    if let Err(e) = res {
                        return Err(e);
                    }
                },
                DbItemTypeE::BankTransaction(_) => {
                    self.bank_transactions.add_transaction(id);
                },
                DbItemTypeE::Transaction(_) => {
                    self.transactions.add_transaction(id);
                },
            }
            proof {
                assert(mid.take(j as int + 1) =~= mid.take(j as int).push(mid[j as int]));
                lemma_kind_ids_push(mid.take(j as int), mid[j as int]);
                assert(mid[j as int].wf());
                assert(self.spec_accounts().spec_accounts().map_values(|e: (DbId, AccountDesc, Seq<char>)| e.0)
                    =~= if mid[j as int].itype == DbItemType::Account {
                        lists0.0.map_values(|e: (DbId, AccountDesc, Seq<char>)| e.0).push(id)
                    } else {
                        lists0.0.map_values(|e: (DbId, AccountDesc, Seq<char>)| e.0)
                    });
                assert(self.spec_related_parties().spec_parties().map_values(|e: (DbId, usize, crate::related_party::RelatedPartyType)| e.0)
                    =~= if mid[j as int].itype == DbItemType::RelatedParty {
                        lists0.2.map_values(|e: (DbId, usize, crate::related_party::RelatedPartyType)| e.0).push(id)
                    } else {
                        lists0.2.map_values(|e: (DbId, usize, crate::related_party::RelatedPartyType)| e.0)
                    });
                assert(!clash_with(pre, kj));
                lemma_taken_push(pre, kj);
                assert(ks.take(j as int + 1) =~= pre.push(kj));
                assert forall|jj: int| 0 <= jj < j + 1 implies !clash_with(ks.take(j as int + 1).take(jj), #[trigger] ks.take(j as int + 1)[jj]) by {
                    assert(ks.take(j as int + 1).take(jj) =~= ks.take(jj));
                    if jj < j {
                        assert(pre.take(jj) =~= ks.take(jj));
                        assert(!clash_with(pre.take(jj), pre[jj]));
                    }
                }
            }
            j += 1;
        }
        proof {
            assert(ks.take(n as int) =~= ks);
            assert(mid.take(n as int) =~= mid);
        }
        assert(no_clash(self@));
        Ok(())
    }

    /// A store holding the records of `array`, loaded: each record keyed by
    /// its position from 1, every reference rebuilt to the new keys, every
    /// record entered in its collection
    ///
    /// Fails on the first record whose key repeats an earlier one; else on
    /// the first reference that names no record of the array; else on the
    /// first record that its collection cannot take.
    pub fn load(array: Vec<DbItem>) -> (r: Result<Database, Error>)
        requires
            array@.len() < usize::MAX - 2,
            forall|i: int| 0 <= i < array@.len() ==> (#[trigger] array@[i]).wf(),
        ensures
            has_dup(ids_of(array@)) ==> (r matches Err(e) && e matches Error::DuplicateItemId(k)
                && exists|j: int| first_dup_at(ids_of(array@), j) && ids_of(array@)[j] == k),
            !has_dup(ids_of(array@)) && !all_resolve(array@, load_map(ids_of(array@))) ==> (r matches Err(
                e,
            ) && e is UnresolvedReference),
            r matches Ok(db) ==> !has_dup(ids_of(array@)) && all_resolve(array@, load_map(ids_of(array@)))
                && db.wf() && loaded(array@, db@),
            !has_dup(ids_of(array@)) && all_resolve(array@, load_map(ids_of(array@))) ==> (r is Ok || (
            r matches Err(e) && e is DuplicateName)),
            !has_dup(ids_of(array@)) && all_resolve(array@, load_map(ids_of(array@))) && no_clash(array@)
                ==> r is Ok,
            r matches Err(e) && e is DuplicateName ==> !no_clash(array@),
            r matches Ok(db) ==> no_clash(array@) && db.reflects(keys_of(db@)),
            r is Ok <==> load_succeeds(array@),
    {
        let ghost input = array@;
        let (state, m) = DatabaseState::load_items(array)?;
        let mut db = Database {
            state,
            accounts: DbAccounts::new(),
            funds: DbFunds::new(),
            related_parties: DbRelatedParties::new(),
            bank_transactions: DbBankTransactions::new(),
            transactions: DbTransactions::new(),
            invoices: DbInvoices::new(),
            account_related_parties: RelatedParties::new(CACHE_MIN_LEN, CACHE_MAX_LEN, CACHE_STEP),
        };
        let ghost before = db@;
        proof {
            assert(db.reflects(Seq::empty()));
            assert(keys_of(before) =~= keys_of(input)) by {
                assert forall|i: int| 0 <= i < before.len() implies keys_of(before)[i] == keys_of(input)[i] by {
                    assert(before[i].value == input[i].value);
                }
            }
            assert forall|i: int| 0 <= i < before.len() implies before[i].value.refs_resolve(m@) <==> input[i].value.refs_resolve(m@) by {
                assert(before[i].value == input[i].value);
            }
            if !all_resolve(input, m@) {
                let i = choose|i: int| 0 <= i < input.len() && !(#[trigger] input[i]).value.refs_resolve(m@);
                assert(!before[i].value.refs_resolve(m@));
            }
            if all_resolve(input, m@) {
                assert forall|i: int| 0 <= i < before.len() implies (#[trigger] before[i]).value.refs_resolve(m@) by {
                    assert(input[i].value.refs_resolve(m@));
                }
            }
        }
        db.try_rebuild(&m)?;
        proof {
            assert forall|i: int| 0 <= i < db@.len() implies (#[trigger] db@[i]).id.id == i + 1 && db@[i].itype
                == input[i].itype && input[i].value.renamed(&db@[i].value, load_map(ids_of(input))) by {
                assert(before[i].value == input[i].value);
            }
        }
        Ok(db)
    }

    /// The descriptors of every related party, each with the party's key
    fn related_party_descrs(&self) -> (r: Vec<(DbId, String)>)
        ensures
            corpus_of(r@) == party_descrs(self@),
    {
        let mut r: Vec<(DbId, String)> = Vec::new();
        let mut i: usize = 0;
        while i < self.state.items.len()
            invariant
                i <= self@.len(),
                self@ == self.state.items@,
                corpus_of(r@) == party_descrs(self@.take(i as int)),
            decreases self@.len() - i,
        {
            let id = self.state.items[i].id;
            assert(self@.take(i as int + 1).drop_last() =~= self@.take(i as int));
            let ghost base = corpus_of(r@);
            match &self.state.items[i].value {
                DbItemTypeE::RelatedParty(p) => {
                    let ghost ds = p.account_descrs@.map_values(|d: String| (id, encode_utf8(d@)));
                    let mut j: usize = 0;
                    while j < p.account_descrs.len()
                        invariant
                            j <= p.account_descrs@.len(),
                            ds == p.account_descrs@.map_values(|d: String| (id, encode_utf8(d@))),
                            corpus_of(r@) == base + ds.take(j as int),
                        decreases p.account_descrs@.len() - j,
                    {
                        let ghost prev = r@;
                        let d = p.account_descrs[j].clone();
                        r.push((id, d));
                        assert(r@ =~= prev.push((id, p.account_descrs@[j as int])));
                        assert(corpus_of(r@) =~= corpus_of(prev).push((id, encode_utf8(p.account_descrs@[j as int]@))));
                        assert(ds.take(j as int + 1) =~= ds.take(j as int).push(ds[j as int]));
                        assert(corpus_of(r@) =~= base + ds.take(j as int + 1));
                        j += 1;
                    }
                    assert(ds.take(p.account_descrs@.len() as int) =~= ds);
                    assert(item_descrs(self@[i as int]) == ds);
                },
                _ => {
                    assert(item_descrs(self@[i as int]) =~= Seq::<(DbId, Seq<u8>)>::empty());
                    assert(base + Seq::<(DbId, Seq<u8>)>::empty() =~= base);
                },
            }
            i += 1;
        }
        assert(self@.take(self@.len() as int) =~= self@);
        r
    }

    /// Empty the description cache
    pub fn clear_account_related_parties(&mut self)
        requires
            old(self).wf(),
        ensures
            final(self).wf(),
            final(self)@ == old(self)@,
            final(self).spec_next() == old(self).spec_next(),
            final(self).spec_accounts() == old(self).spec_accounts(),
            final(self).spec_funds() == old(self).spec_funds(),
            final(self).spec_related_parties() == old(self).spec_related_parties(),
            final(self).spec_bank_transactions() == old(self).spec_bank_transactions(),
            final(self).spec_transactions() == old(self).spec_transactions(),
            final(self).spec_invoices() == old(self).spec_invoices(),
            final(self).spec_cache().spec_levels().len() == 0,
    {
        self.account_related_parties = RelatedParties::new(CACHE_MIN_LEN, CACHE_MAX_LEN, CACHE_STEP);
    }

    /// Add a level to the description cache, built from the descriptors of
    /// every related party
    ///
    /// Fails, adding nothing, once the cache is at its longest, or on a
    /// descriptor too short for the new level whose party has none longer.
    pub fn add_new_account_related_party_cache(&mut self) -> (r: Result<(), Error>)
        requires
            old(self).wf(),
        ensures
            final(self).wf(),
            final(self)@ == old(self)@,
            final(self).spec_next() == old(self).spec_next(),
            final(self).spec_accounts() == old(self).spec_accounts(),
            final(self).spec_funds() == old(self).spec_funds(),
            final(self).spec_related_parties() == old(self).spec_related_parties(),
            final(self).spec_bank_transactions() == old(self).spec_bank_transactions(),
            final(self).spec_transactions() == old(self).spec_transactions(),
            final(self).spec_invoices() == old(self).spec_invoices(),
            r is Ok ==> final(self).spec_cache().spec_levels() == old(self).spec_cache().spec_levels().push(
                (
                    next_len(old(self).spec_cache().spec_levels(), old(self).spec_cache().spec_config()) as nat,
                    party_descrs(old(self)@),
                ),
            ),
            r is Err ==> final(self).spec_cache().spec_levels() == old(self).spec_cache().spec_levels(),
            exhausted(old(self).spec_cache().spec_levels(), old(self).spec_cache().spec_config()) ==> r is Err,
            !exhausted(old(self).spec_cache().spec_levels(), old(self).spec_cache().spec_config()) && r is Err
                ==> r->Err_0 is DescriptorTooShort,
            !exhausted(old(self).spec_cache().spec_levels(), old(self).spec_cache().spec_config()) ==> (r is Err
                <==> exists|j: int|
                #[trigger] short_orphan(
                    party_descrs(old(self)@),
                    next_len(old(self).spec_cache().spec_levels(), old(self).spec_cache().spec_config()) as nat,
                    j,
                )),
    {
        let descrs = self.related_party_descrs();
        let ghost levels = self.account_related_parties.spec_levels();
        let r = self.account_related_parties.add_new_cache(&descrs);
        proof {
            let nl = self.account_related_parties.spec_levels();
            lemma_party_descrs_keys(self@);
            assert forall|l: int, j: int| 0 <= l < nl.len() && 0 <= j < nl[l].1.len() implies is_party_key(
                self@,
                (#[trigger] nl[l].1[j]).0,
            ) by {
                if l < levels.len() {
                    assert(nl[l] == levels[l]);
                } else {
                    assert(nl[l].1 == corpus_of(descrs@));
                    assert(nl[l].1[j] == party_descrs(self@)[j]);
                }
            }
            if r is Ok {
                assert forall|k: int| 0 <= k < nl.len() implies (#[trigger] nl[k]).0 == CACHE_MIN_LEN
                    + CACHE_STEP * k by {
                    if k < levels.len() {
                        assert(nl[k] == levels[k]);
                    }
                }
            }
        }
        r
    }

    /// The key of the related party whose descriptors `descr` matches
    ///
    /// The cache is asked; while it cannot tell between several parties it
    /// is grown from the descriptors of the store's related parties and
    /// asked again.  The "none" key comes back when no party matches, or
    /// when the cache is at its longest.  Growing fails, and the error comes
    /// back, on a descriptor too short for the new level whose party has none
    /// longer.
    pub fn find_account_related_party(&mut self, descr: &str) -> (r: Result<DbId, Error>)
        requires
            old(self).wf(),
        ensures
            final(self).wf(),
            final(self)@ == old(self)@,
            final(self).spec_next() == old(self).spec_next(),
            final(self).spec_accounts() == old(self).spec_accounts(),
            final(self).spec_funds() == old(self).spec_funds(),
            final(self).spec_related_parties() == old(self).spec_related_parties(),
            final(self).spec_bank_transactions() == old(self).spec_bank_transactions(),
            final(self).spec_transactions() == old(self).spec_transactions(),
            final(self).spec_invoices() == old(self).spec_invoices(),
            old(self).spec_cache().spec_levels().len() <= final(self).spec_cache().spec_levels().len(),
            forall|k: int|
                0 <= k < old(self).spec_cache().spec_levels().len() ==> #[trigger] final(self).spec_cache().spec_levels()[k]
                    == old(self).spec_cache().spec_levels()[k],
            forall|k: int|
                old(self).spec_cache().spec_levels().len() <= k < final(self).spec_cache().spec_levels().len()
                    ==> (#[trigger] final(self).spec_cache().spec_levels()[k]).1 == party_descrs(old(self)@),
            r matches Ok(k) ==> k == key_or_none(find_from(final(self).spec_cache().spec_levels(), descr.spec_bytes(), 0)),
            r is Ok && r->Ok_0.id != 0 ==> is_party_key(final(self)@, r->Ok_0) && exists|l: int|
                0 <= l < final(self).spec_cache().spec_levels().len() && #[trigger] lookup_level(
                    final(self).spec_cache().spec_levels()[l].1,
                    final(self).spec_cache().spec_levels()[l].0,
                    descr.spec_bytes(),
                ) == Some(r->Ok_0),
            r matches Ok(k) && k.id == 0 && find_from(final(self).spec_cache().spec_levels(), descr.spec_bytes(), 0) is Some
                ==> exhausted(final(self).spec_cache().spec_levels(), final(self).spec_cache().spec_config()),
            r is Err ==> r->Err_0 is DescriptorTooShort && find_from(
                final(self).spec_cache().spec_levels(),
                descr.spec_bytes(),
                0,
            ) == Some(DbId { id: 0 }) && exists|j: int|
                #[trigger] short_orphan(
                    party_descrs(final(self)@),
                    next_len(final(self).spec_cache().spec_levels(), final(self).spec_cache().spec_config()) as nat,
                    j,
                ),
    {
        loop
            invariant
                self.wf(),
                self@ == old(self)@,
                self.spec_next() == old(self).spec_next(),
                self.spec_accounts() == old(self).spec_accounts(),
                self.spec_funds() == old(self).spec_funds(),
                self.spec_related_parties() == old(self).spec_related_parties(),
                self.spec_bank_transactions() == old(self).spec_bank_transactions(),
                self.spec_transactions() == old(self).spec_transactions(),
                self.spec_invoices() == old(self).spec_invoices(),
                old(self).spec_cache().spec_levels().len() <= self.spec_cache().spec_levels().len(),
                forall|k: int|
                    0 <= k < old(self).spec_cache().spec_levels().len() ==> #[trigger] self.spec_cache().spec_levels()[k]
                        == old(self).spec_cache().spec_levels()[k],
                forall|k: int|
                    old(self).spec_cache().spec_levels().len() <= k < self.spec_cache().spec_levels().len()
                        ==> (#[trigger] self.spec_cache().spec_levels()[k]).1 == party_descrs(old(self)@),
            decreases 3 - self.spec_cache().spec_levels().len(),
        {
            match self.account_related_parties.find_item_with_collisions(descr) {
                None => {
                    return Ok(DbId::none());
                },
                Some(id) => {
                    if !id.is_none() {
                        proof {
                            let levels = self.spec_cache().spec_levels();
                            let t = descr.spec_bytes();
                            lemma_find_from_level(levels, t, 0);
                            let l = choose|l: int| 0 <= l < levels.len() && #[trigger] lookup_level(levels[l].1, levels[l].0, t)
                                == find_from(levels, t, 0);
                            lemma_level_names_member(levels[l].1, levels[l].0, t.take(levels[l].0 as int));
                            let j = choose|j: int| 0 <= j < levels[l].1.len() && #[trigger] levels[l].1[j].0 == id;
                            assert(is_party_key(self@, levels[l].1[j].0));
                        }
                        return Ok(id);
                    }
                },
            }
            let ghost levels = self.spec_cache().spec_levels();
            match self.add_new_account_related_party_cache() {
                Ok(()) => {},
                Err(e) => {
                    if self.account_related_parties.num_levels() < 3 {
                        proof {
                            let n = levels.len();
                            if n > 0 {
                                assert(levels[n - 1].0 == CACHE_MIN_LEN + CACHE_STEP * (n - 1));
                            }
                        }
                        return Err(e);
                    }
                    return Ok(DbId::none());
                },
            }
            proof {
                let nl = self.spec_cache().spec_levels();
                if levels.len() > 0 {
                    assert(levels[levels.len() - 1].0 == CACHE_MIN_LEN + CACHE_STEP * (levels.len() - 1));
                }
                assert forall|k: int| 0 <= k < old(self).spec_cache().spec_levels().len() implies #[trigger] nl[k]
                    == old(self).spec_cache().spec_levels()[k] by {
                    assert(nl[k] == levels[k]);
                }
                assert forall|k: int| old(self).spec_cache().spec_levels().len() <= k < nl.len() implies (#[trigger] nl[k]).1
                    == party_descrs(old(self)@) by {
                    if k < levels.len() {
                        assert(nl[k] == levels[k]);
                    }
                }
            }
        }
    }

    /// The keys of the records that `query` matches, in key order
    pub fn query(&self, query: &DbQuery) -> (r: Vec<DbId>)
        ensures
            r@ == self@.filter(|x: DbItem| query.spec_matches_item(x)).map_values(|x: DbItem| x.id),
    {
        let ghost f = |x: DbItem| query.spec_matches_item(x);
        let ghost g = |x: DbItem| x.id;
        let mut r: Vec<DbId> = Vec::new();
        let mut i: usize = 0;
        while i < self.state.items.len()
            invariant
                i <= self@.len(),
                self@ == self.state.items@,
                f == (|x: DbItem| query.spec_matches_item(x)),
                g == (|x: DbItem| x.id),
                r@ == self@.take(i as int).filter(f).map_values(g),
            decreases self@.len() - i,
        {
            let ghost before = self@.take(i as int).filter(f);
            proof {
                assert(self@.take(i as int + 1) =~= self@.take(i as int).push(self@[i as int]));
                lemma_filter_push(self@.take(i as int), self@[i as int], f);
            }
            if query.matches_item(&self.state.items[i]) {
                r.push(self.state.items[i].id);
                assert(before.push(self@[i as int]).map_values(g) =~= before.map_values(g).push(
                    self@[i as int].id,
                ));
            }
            i += 1;
        }
        assert(self@.take(self@.len() as int) =~= self@);
        r
    }

    /// The position of the account with key `account_id`
    fn find_account(&self, account_id: DbId) -> (r: Option<usize>)
        ensures
            r is None <==> !exists|i: int|
                0 <= i < self@.len() && self@[i].id == account_id && self@[i].value is Account,
            r matches Some(i) ==> i < self@.len() && self@[i as int].id == account_id
                && self@[i as int].value is Account,
    {
        let mut i: usize = 0;
        while i < self.state.items.len()
            invariant
                i <= self@.len(),
                self@ == self.state.items@,
                forall|k: int| 0 <= k < i ==> !(self@[k].id == account_id && self@[k].value is Account),
            decreases self@.len() - i,
        {
            if self.state.items[i].id == account_id {
                match &self.state.items[i].value {
                    DbItemTypeE::Account(_) => {
                        return Some(i);
                    },
                    _ => {},
                }
            }
            i += 1;
        }
        None
    }

    /// Add `bt` to the account with key `account_id`: it is linked to a
    /// related party by its description if it has none, set on the account,
    /// added to the store, and entered in the account's index by its date
    ///
    /// Gives `bt` back, adding nothing, if no account has that key.
    pub fn add_account_bank_transaction(&mut self, account_id: DbId, bt: BankTransaction) -> (r: Result<DbId, BankTransaction>)
        requires
            old(self).wf(),
            old(self).spec_next() < usize::MAX - 1,
        ensures
            final(self).wf(),
            r is Ok == exists|i: int|
                0 <= i < old(self)@.len() && old(self)@[i].id == account_id && old(self)@[i].value is Account,
            r is Err ==> *final(self) == *old(self) && r->Err_0 == bt,
            r matches Ok(id) ==> ({
                let n = old(self)@.len() as int;
                &&& id.id == next_key(old(self).spec_next())
                &&& final(self).spec_next() == id.id + 1
                &&& final(self)@.len() == n + 1
                &&& final(self)@[n].id == id
                &&& final(self)@[n].value matches DbItemTypeE::BankTransaction(b) && b.account_id == account_id
                    && b.date == bt.date && b.description == bt.description && b.related_party == (if bt.related_party.id != 0 {
                        bt.related_party
                    } else {
                        key_or_none(find_from(final(self).spec_cache().spec_levels(), encode_utf8(bt.description@), 0))
                    })
                &&& final(self).spec_bank_transactions().spec_ids() == old(self).spec_bank_transactions().spec_ids().push(id)
                &&& forall|i: int| 0 <= i < n ==> (#[trigger] final(self)@[i]).id == old(self)@[i].id
                    && final(self)@[i].itype == old(self)@[i].itype
                &&& forall|i: int|
                    0 <= i < n && old(self)@[i].id == account_id && old(self)@[i].value is Account ==> (
                    #[trigger] final(self)@[i]).value->Account_0.transactions@ == spec_push(
                        old(self)@[i].value->Account_0.transactions@,
                        bt.date.value,
                        id,
                    )
                &&& forall|i: int|
                    0 <= i < n && !(old(self)@[i].id == account_id && old(self)@[i].value is Account) ==> #[trigger] final(self)@[i] == old(self)@[i]
            }),
    {
        let pos = match self.find_account(account_id) {
            Some(i) => i,
            None => {
                return Err(bt);
            },
        };
        let ghost before = self@;
        let mut bt = bt;
        if bt.related_party.is_none() {
            let rp = match self.find_account_related_party(bt.description.as_str()) {
                Ok(k) => k,
                Err(_) => DbId::none(),
            };
            bt.related_party = rp;
        }
        bt.account_id = account_id;
        let date = bt.date;
        let ghost mid = self@;
        let id = self.add_bank_transaction(bt);
        let ghost after = self@;
        proof {
            assert(after[pos as int] == before[pos as int]);
            assert(after[pos as int].wf());
        }
        match &mut self.state.items[pos].value {
            DbItemTypeE::Account(a) => {
                a.add_bank_transaction(date, id);
            },
            _ => {},
        }
        proof {
            assert forall|i: int| 0 <= i < after.len() implies item_keys(#[trigger] self@[i]) == item_keys(after[i]) by {
                if i != pos {
                    assert(self@[i] == after[i]);
                }
            }
            lemma_keys_same(self@, after);
            lemma_cache_names_grow(self.spec_cache().spec_levels(), after, self@);
            assert forall|i: int| 0 <= i < after.len() && i != pos implies #[trigger] self@[i] == after[i] by {}
            assert(self@[pos as int].wf());
            assert forall|i: int| 0 <= i < self@.len() implies (#[trigger] self@[i]).wf() by {
                if i != pos {
                    assert(self@[i] == after[i]);
                }
            }
            assert forall|i: int| 0 <= i < before.len() && before[i].id == account_id && before[i].value is Account implies i == pos by {
                if i != pos {
                    assert(before[i].id.id < before[pos as int].id.id || before[i].id.id > before[pos as int].id.id);
                }
            }
        }
        Ok(id)
    }

    /// Add each of `transactions` to the account with key `account_id`, as
    /// [Database::add_account_bank_transaction] does, in order
    ///
    /// Gives them all back, adding nothing, if there is no such account or
    /// one of them is for an account with another description.
    pub fn add_account_bank_transactions(
        &mut self,
        account_id: DbId,
        transactions: Vec<BankTransaction>,
    ) -> (r: Result<(), Vec<BankTransaction>>)
        requires
            old(self).wf(),
            old(self).spec_next() + transactions@.len() < usize::MAX - 2,
        ensures
            final(self).wf(),
            r is Err ==> *final(self) == *old(self) && r->Err_0@ == transactions@,
            transactions@.len() == 0 ==> r is Ok && *final(self) == *old(self),
            r is Ok ==> final(self)@.len() == old(self)@.len() + transactions@.len(),
            r is Ok ==> forall|i: int|
                0 <= i < old(self)@.len() ==> (#[trigger] final(self)@[i]).id == old(self)@[i].id
                    && final(self)@[i].itype == old(self)@[i].itype,
            r is Ok ==> forall|i: int|
                old(self)@.len() <= i < final(self)@.len() ==> ((#[trigger] final(self)@[i]).value matches DbItemTypeE::BankTransaction(b)
                    && b.account_id == account_id),
            r is Ok <==> transactions@.len() == 0 || exists|i: int|
                0 <= i < old(self)@.len() && old(self)@[i].id == account_id && (old(self)@[i].value matches DbItemTypeE::Account(a)
                    && forall|j: int| 0 <= j < transactions@.len() ==> (#[trigger] transactions@[j]).account_desc == a.desc),
    {
        if transactions.len() == 0 {
            return Ok(());
        }
        let pos = match self.find_account(account_id) {
            Some(i) => i,
            None => {
                return Err(transactions);
            },
        };
        let desc = match &self.state.items[pos].value {
            DbItemTypeE::Account(a) => a.desc,
            _ => {
                return Err(transactions);
            },
        };
        let ghost oldn = old(self).spec_next();
        let mut j: usize = 0;
        while j < transactions.len()
            invariant
                self.wf(),
                *self == *old(self),
                j <= transactions@.len(),
                pos < self@.len(),
                self@[pos as int].id == account_id,
                self@[pos as int].value is Account,
                desc == self@[pos as int].value->Account_0.desc,
                forall|k: int| 0 <= k < j ==> (#[trigger] transactions@[k]).account_desc == desc,
            decreases transactions@.len() - j,
        {
            if transactions[j].account_desc != desc {
                proof {
                    assert forall|i: int|
                        0 <= i < self@.len() && self@[i].id == account_id && (self@[i].value matches DbItemTypeE::Account(a)) implies !(forall|k: int|
                            0 <= k < transactions@.len() ==> (#[trigger] transactions@[k]).account_desc == self@[i].value->Account_0.desc) by {
                        if i < pos {
                            assert(self@[i].id.id < self@[pos as int].id.id);
                        } else if i > pos {
                            assert(self@[pos as int].id.id < self@[i].id.id);
                        }
                        assert(transactions@[j as int].account_desc != desc);
                    }
                }
                return Err(transactions);
            }
            j += 1;
        }
        let n = transactions.len();
        let ghost start = self@;
        let ghost ts = transactions@;
        let mut src = transactions;
        let mut rev: Vec<BankTransaction> = Vec::new();
        while src.len() > 0
            invariant
                src@.len() + rev@.len() == n,
            decreases src@.len(),
        {
            match src.pop() {
                Some(x) => rev.push(x),
                None => {},
            }
        }
        proof {
            assert(old(self)@[pos as int].value->Account_0.desc == desc);
            assert(exists|i: int| 0 <= i < old(self)@.len() && old(self)@[i].id == account_id && (old(self)@[i].value matches DbItemTypeE::Account(a)
                    && forall|j: int| 0 <= j < ts.len() ==> (#[trigger] ts[j]).account_desc == a.desc));
        }
        while rev.len() > 0
            invariant
                self.wf(),
                self@.len() + rev@.len() == start.len() + n,
                start == old(self)@,
                oldn == old(self).spec_next(),
                oldn + n < usize::MAX - 1,
                self.spec_next() + rev@.len() <= oldn + n + 1,
                self.spec_next() == 0 ==> rev@.len() == n,
                pos < self@.len(),
                self@[pos as int].id == account_id,
                self@[pos as int].value is Account,
                self@.len() >= start.len(),
                forall|i: int|
                    0 <= i < start.len() ==> (#[trigger] self@[i]).id == start[i].id && self@[i].itype == start[i].itype,
                forall|i: int|
                    start.len() <= i < self@.len() ==> ((#[trigger] self@[i]).value matches DbItemTypeE::BankTransaction(b)
                        && b.account_id == account_id),
            decreases rev@.len(),
        {
            match rev.pop() {
                Some(bt) => {
                    let ghost cur = self@;
                    let r = self.add_account_bank_transaction(account_id, bt);
                    assert(r is Ok);
                    proof {
                        assert forall|i: int| start.len() <= i < self@.len() implies ((#[trigger] self@[i]).value matches DbItemTypeE::BankTransaction(b)
                            && b.account_id == account_id) by {
                            if i < cur.len() {
                                assert(!(cur[i].id == account_id && cur[i].value is Account));
                                assert(self@[i] == cur[i]);
                            }
                        }
                    }
                },
                None => {},
            }
        }
        Ok(())
    }

    /// Enter `t_id` at `date` in the index of the fund (for `fund`) or
    /// related party (otherwise) with key `k`, unless it is there already
    fn index_in(&mut self, k: DbId, fund: bool, date: Date, t_id: DbId) -> (r: bool)
        requires
            old(self).wf(),
        ensures
            final(self).wf(),
            final(self)@.len() == old(self)@.len(),
            final(self).spec_next() == old(self).spec_next(),
            final(self).spec_accounts() == old(self).spec_accounts(),
            final(self).spec_funds() == old(self).spec_funds(),
            final(self).spec_related_parties() == old(self).spec_related_parties(),
            final(self).spec_bank_transactions() == old(self).spec_bank_transactions(),
            final(self).spec_transactions() == old(self).spec_transactions(),
            final(self).spec_invoices() == old(self).spec_invoices(),
            forall|i: int|
                0 <= i < old(self)@.len() ==> (#[trigger] final(self)@[i]).id == old(self)@[i].id
                    && final(self)@[i].itype == old(self)@[i].itype,
            forall|i: int|
                0 <= i < old(self)@.len() && old(self)@[i].id != k ==> #[trigger] final(self)@[i] == old(
                    self,
                )@[i],
            r ==> indexes(final(self)@, k, date.value, t_id),
            !r ==> final(self)@ == old(self)@,
            r == can_index(old(self)@, k, fund, date.value, t_id),
    {
        let pos = match self.state.find(k) {
            Some(i) => i,
            None => {
                return false;
            },
        };
        let ghost before = self@;
        proof {
            assert forall|i: int| 0 <= i < before.len() && before[i].id == k implies i == pos by {
                if i < pos {
                    assert(before[i].id.id < before[pos as int].id.id);
                } else if i > pos {
                    assert(before[pos as int].id.id < before[i].id.id);
                }
            }
        }
        let added = match &mut self.state.items[pos].value {
            DbItemTypeE::Fund(f) => {
                if fund {
                    f.add_transaction(date, t_id)
                } else {
                    false
                }
            },
            DbItemTypeE::RelatedParty(p) => {
                if !fund {
                    p.add_transaction(date, t_id)
                } else {
                    false
                }
            },
            _ => false,
        };
        proof {
            assert forall|i: int| 0 <= i < before.len() && i != pos implies #[trigger] self@[i] == before[i] by {}
            assert forall|i: int| 0 <= i < before.len() && before[i].id != k implies #[trigger] self@[i] == before[i] by {}
            assert forall|i: int| 0 <= i < self@.len() implies (#[trigger] self@[i]).wf() by {
                if i != pos {
                    assert(self@[i] == before[i]);
                }
            }
            assert forall|i: int| 0 <= i < before.len() implies item_keys(#[trigger] self@[i]) == item_keys(before[i]) by {
                if i != pos {
                    assert(self@[i] == before[i]);
                }
            }
            lemma_keys_same(self@, before);
            lemma_cache_names_grow(self.spec_cache().spec_levels(), before, self@);
            if added {
                match self@[pos as int].value {
                    DbItemTypeE::Fund(f) => {
                        lemma_push_holds(before[pos as int].value->Fund_0.transactions@, date.value, t_id);
                    },
                    DbItemTypeE::RelatedParty(p) => {
                        lemma_push_holds(before[pos as int].value->RelatedParty_0.transactions@, date.value, t_id);
                    },
                    _ => {},
                }
                assert(self@[pos as int].id == k);
            } else {
                assert(self@ =~= before);
            }
        }
        added
    }

    /// Enter the ledger transaction with key `t_id` in the indexes of the
    /// fund and the related party it moves money between (both funds for a
    /// transfer or revaluation)
    ///
    /// True if the transaction exists and both were entered; false if the
    /// transaction, or one of the two records, is missing or is not of the
    /// kind its side needs, or already holds it.
    pub fn index_transaction(&mut self, t_id: DbId) -> (r: bool)
        requires
            old(self).wf(),
        ensures
            final(self).wf(),
            final(self)@.len() == old(self)@.len(),
            final(self).spec_next() == old(self).spec_next(),
            forall|i: int|
                0 <= i < old(self)@.len() ==> (#[trigger] final(self)@[i]).id == old(self)@[i].id
                    && final(self)@[i].itype == old(self)@[i].itype,
            !(exists|i: int| 0 <= i < old(self)@.len() && old(self)@[i].id == t_id && old(self)@[i].value is Transaction)
                ==> !r && final(self)@ == old(self)@,
            r ==> exists|i: int|
                0 <= i < old(self)@.len() && old(self)@[i].id == t_id && (old(self)@[i].value matches DbItemTypeE::Transaction(t)
                    && indexes(final(self)@, t.debit_id, t.date.value, t_id) && indexes(
                    final(self)@,
                    t.credit_id,
                    t.date.value,
                    t_id,
                )),
            r == can_index_transaction(old(self)@, t_id),
    {
        let pos = match self.state.find(t_id) {
            Some(i) => i,
            None => {
                return false;
            },
        };
        let (date, ttype, debit, credit) = match &self.state.items[pos].value {
            DbItemTypeE::Transaction(t) => (t.date, t.ttype, t.debit_id, t.credit_id),
            _ => {
                proof {
                    assert forall|i: int| 0 <= i < self@.len() && self@[i].id == t_id implies !(self@[i].value is Transaction) by {
                        if i < pos {
                            assert(self@[i].id.id < self@[pos as int].id.id);
                        } else if i > pos {
                            assert(self@[pos as int].id.id < self@[i].id.id);
                        }
                    }
                }
                return false;
            },
        };
        let ghost start = self@;
        proof {
            assert forall|i: int| 0 <= i < start.len() && start[i].id == t_id implies i == pos by {
                if i < pos {
                    assert(start[i].id.id < start[pos as int].id.id);
                } else if i > pos {
                    assert(start[pos as int].id.id < start[i].id.id);
                }
            }
        }
        let (debit_fund, credit_fund) = match ttype {
            TransactionType::FromRp => (false, true),
            TransactionType::ToRp => (true, false),
            _ => (true, true),
        };
        assert((debit_fund, credit_fund) == sides(ttype));
        if debit == credit {
            return false;
        }
        let first = self.index_in(debit, debit_fund, date, t_id);
        if !first {
            return false;
        }
        let ghost mid = self@;
        proof {
            assert forall|i: int| 0 <= i < mid.len() && mid[i].id == credit implies #[trigger] mid[i] == start[i] by {}
            assert(can_index(mid, credit, credit_fund, date.value, t_id) == can_index(start, credit, credit_fund, date.value, t_id)) by {
                if can_index(start, credit, credit_fund, date.value, t_id) {
                    let i = choose|i: int| 0 <= i < start.len() && (#[trigger] start[i]).id == credit && match start[i].value {
                        DbItemTypeE::Fund(f) => credit_fund && !holds_at(f.transactions@, date.value, t_id),
                        DbItemTypeE::RelatedParty(p) => !credit_fund && !holds_at(p.transactions@, date.value, t_id),
                        _ => false,
                    };
                    assert(mid[i] == start[i]);
                }
                if can_index(mid, credit, credit_fund, date.value, t_id) {
                    let i = choose|i: int| 0 <= i < mid.len() && (#[trigger] mid[i]).id == credit && match mid[i].value {
                        DbItemTypeE::Fund(f) => credit_fund && !holds_at(f.transactions@, date.value, t_id),
                        DbItemTypeE::RelatedParty(p) => !credit_fund && !holds_at(p.transactions@, date.value, t_id),
                        _ => false,
                    };
                    assert(mid[i] == start[i]);
                }
            }
        }
        let second = self.index_in(credit, credit_fund, date, t_id);
        if !second {
            return false;
        }
        proof {
            let i = choose|i: int| 0 <= i < mid.len() && (#[trigger] mid[i]).id == debit && match mid[i].value {
                DbItemTypeE::Fund(f) => exists|j: int|
                    0 <= j < f.transactions@.len() && f.transactions@[j].0 == date.value
                        && f.transactions@[j].1.contains(t_id),
                DbItemTypeE::RelatedParty(p) => exists|j: int|
                    0 <= j < p.transactions@.len() && p.transactions@[j].0 == date.value
                        && p.transactions@[j].1.contains(t_id),
                _ => false,
            };
            assert(self@[i] == mid[i]);
            assert(indexes(self@, debit, date.value, t_id));
            assert(start[pos as int].id == t_id);
        }
        true
    }
}

} // verus!
