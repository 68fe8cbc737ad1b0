use vstd::prelude::*;
use vstd::string::StringSliceAdditionalSpecFns;
use vstd::utf8::encode_utf8;

use crate::account::Account;
use crate::bank_transaction::BankTransaction;
use crate::base_types::{Date, DateRange};
use crate::db_id::DbId;
use crate::db_item::{DbItem, DbItemType, DbItemTypeE};
use crate::fund::Fund;
use crate::invoice::Invoice;
use crate::pattern::{regex_compiles, regex_finds, regex_is_match, regex_is_valid};
use crate::related_party::{RelatedParty, RelatedPartyQuery, RelatedPartyType};
use crate::transaction::Transaction;

verus! {

/// `p` is a prefix of `s`
pub open spec fn bytes_prefix(s: Seq<u8>, p: Seq<u8>) -> bool {
    p.len() <= s.len() && s.take(p.len() as int) == p
}

/// True if the bytes of `s` start with those of `p`
fn starts_with(s: &str, p: &str) -> (r: bool)
    ensures
        r == bytes_prefix(s.spec_bytes(), p.spec_bytes()),
{
    let a = s.as_bytes();
    let b = p.as_bytes();
    if b.len() > a.len() {
        return false;
    }
    let mut i: usize = 0;
    while i < b.len()
        invariant
            i <= b@.len(),
            b@.len() <= a@.len(),
            a@ == s.spec_bytes(),
            b@ == p.spec_bytes(),
            forall|k: int| 0 <= k < i ==> a@[k] == b@[k],
        decreases b@.len() - i,
    {
        if a[i] != b[i] {
            assert(a@.take(b@.len() as int)[i as int] != b@[i as int]);
            return false;
        }
        i += 1;
    }
    assert(a@.take(b@.len() as int) =~= b@);
    true
}

/// A query on the records of the store: each part that is set must match
#[derive(Debug, Clone)]
pub struct DbQuery {
    pub item_type: Option<DbItemType>,
    pub id: Option<usize>,
    pub db_id: DbId,
    pub name_match: Option<String>,
    pub name_re: Option<String>,
    pub desc_match: Option<String>,
    pub desc_re: Option<String>,
    pub rp_query: RelatedPartyQuery,
    pub date_range: DateRange,
}

/// The text holds one of the characters that make it a regular expression:
/// `*`, `?`, `$`, `^`, `[` or `]`
pub open spec fn has_pattern_char(b: Seq<u8>) -> bool {
    exists|i: int|
        0 <= i < b.len() && (b[i] == 42 || b[i] == 63 || b[i] == 36 || b[i] == 94 || b[i] == 91
            || b[i] == 93)
}

/// True if `s` holds one of the characters of [has_pattern_char]
fn pattern_chars(s: &str) -> (r: bool)
    ensures
        r == has_pattern_char(s.spec_bytes()),
{
    let b = s.as_bytes();
    let mut i: usize = 0;
    while i < b.len()
        invariant
            i <= b@.len(),
            b@ == s.spec_bytes(),
            forall|k: int|
                0 <= k < i ==> !(b@[k] == 42 || b@[k] == 63 || b@[k] == 36 || b@[k] == 94 || b@[k]
                    == 91 || b@[k] == 93),
        decreases b@.len() - i,
    {
        let c = b[i];
        if c == 42 || c == 63 || c == 36 || c == 94 || c == 91 || c == 93 {
            return true;
        }
        i += 1;
    }
    false
}

impl DbQuery {
    pub open spec fn spec_item_type_matches(&self, t: DbItemType) -> bool {
        self.item_type is None || self.item_type == Some(t)
    }

    /// The name starts with the name asked for, if one is
    pub open spec fn spec_matches_name(&self, s: Seq<char>) -> bool {
        &&& match self.name_match {
            Some(n) => bytes_prefix(encode_utf8(s), encode_utf8(n@)),
            None => true,
        }
        &&& match self.name_re {
            Some(p) => regex_compiles(p@) && regex_finds(p@, s),
            None => true,
        }
    }

    /// The description starts with the description asked for, if one is
    pub open spec fn spec_matches_desc(&self, s: Seq<char>) -> bool {
        &&& match self.desc_match {
            Some(n) => bytes_prefix(encode_utf8(s), encode_utf8(n@)),
            None => true,
        }
        &&& match self.desc_re {
            Some(p) => regex_compiles(p@) && regex_finds(p@, s),
            None => true,
        }
    }

    /// The date lies in the range asked for, if one is
    pub open spec fn spec_matches_date_range(&self, d: usize) -> bool {
        self.date_range.start.value == 0 || self.date_range.spec_contains(d)
    }

    pub open spec fn spec_matches_id(&self, n: usize) -> bool {
        self.id is None || self.id == Some(n)
    }

    pub open spec fn spec_matches_db_id(&self, k: DbId) -> bool {
        self.db_id.id == 0 || k == self.db_id
    }

    /// One of `names` matches the name asked for
    pub open spec fn spec_matches_any(&self, names: Seq<String>) -> bool {
        exists|i: int| 0 <= i < names.len() && self.spec_matches_name(#[trigger] names[i]@)
    }

    pub open spec fn spec_matches_account(&self, a: Account) -> bool {
        self.spec_matches_name(a.name@)
    }

    pub open spec fn spec_matches_fund(&self, f: Fund) -> bool {
        self.spec_matches_name(f.name@) || self.spec_matches_any(f.aliases@)
    }

    pub open spec fn spec_matches_invoice(&self, v: Invoice) -> bool {
        self.spec_matches_name(v.reason@) && self.spec_matches_id(v.supplier_id.id)
    }

    pub open spec fn spec_matches_related_party(&self, p: RelatedParty) -> bool {
        self.name_match is None || self.spec_matches_name(p.name@) || self.spec_matches_any(p.aliases@)
    }

    pub open spec fn spec_matches_transaction(&self, t: Transaction) -> bool {
        self.spec_matches_date_range(t.date.value) && (self.spec_matches_db_id(t.debit_id)
            || self.spec_matches_db_id(t.credit_id))
    }

    pub open spec fn spec_matches_bank_transaction(&self, b: BankTransaction) -> bool {
        &&& self.spec_matches_date_range(b.date.value)
        &&& self.spec_matches_id(b.related_party.id)
        &&& self.spec_matches_desc(b.description@)
    }

    /// The record is of a kind asked for and its payload matches
    pub open spec fn spec_matches_item(&self, x: DbItem) -> bool {
        self.spec_item_type_matches(x.itype) && match x.value {
            DbItemTypeE::Account(a) => self.spec_matches_account(a),
            DbItemTypeE::Fund(f) => self.spec_matches_fund(f),
            DbItemTypeE::Invoice(v) => self.spec_matches_invoice(v),
            DbItemTypeE::RelatedParty(p) => self.spec_matches_related_party(p),
            DbItemTypeE::Transaction(t) => self.spec_matches_transaction(t),
            DbItemTypeE::BankTransaction(b) => self.spec_matches_bank_transaction(b),
        }
    }

    /// The query that matches every record
    pub fn new() -> (r: Self)
        ensures
            r.item_type is None && r.id is None && r.db_id.id == 0,
            r.name_match is None && r.desc_match is None,
            r.name_re is None && r.desc_re is None,
            r.rp_query is Any,
            r.date_range.start.value == 0,
    {
        DbQuery {
            item_type: None,
            id: None,
            db_id: DbId::none(),
            name_match: None,
            name_re: None,
            desc_match: None,
            desc_re: None,
            rp_query: RelatedPartyQuery::Any,
            date_range: DateRange { start: Date { value: 0 }, end: Date { value: 0 } },
        }
    }

    /// This query, matching records of the kind given only
    pub fn with_item_type(self, opt_item_type: Option<DbItemType>) -> (r: Self)
        ensures
            r == (DbQuery { item_type: opt_item_type, ..self }),
    {
        DbQuery { item_type: opt_item_type, ..self }
    }

    /// This query, matching the number given only
    pub fn with_id(self, id: Option<usize>) -> (r: Self)
        ensures
            r == (DbQuery { id, ..self }),
    {
        DbQuery { id, ..self }
    }

    /// This query, matching references to the key given only
    pub fn with_db_id(self, db_id: DbId) -> (r: Self)
        ensures
            r == (DbQuery { db_id, ..self }),
    {
        DbQuery { db_id, ..self }
    }

    /// This query, matching names that `name` matches as a regular
    /// expression if it holds a pattern character and compiles, else names
    /// that start with `name`
    pub fn with_name(self, name: &str) -> (r: Self)
        ensures
            has_pattern_char(name.spec_bytes()) && regex_compiles(name@) ==> (r.name_re matches Some(p)
                && p@ == name@ && r == (DbQuery { name_re: r.name_re, ..self })),
            !(has_pattern_char(name.spec_bytes()) && regex_compiles(name@)) ==> (r.name_match matches Some(
                n,
            ) && n@ == name@ && r == (DbQuery { name_match: r.name_match, ..self })),
    {
        if pattern_chars(name) && regex_is_valid(name) {
            return DbQuery { name_re: Some(name.to_owned()), ..self };
        }
        DbQuery { name_match: Some(name.to_owned()), ..self }
    }

    /// This query, matching descriptions that `desc` matches as a regular
    /// expression if it holds a pattern character and compiles, else
    /// descriptions that start with `desc`
    pub fn with_desc(self, desc: &str) -> (r: Self)
        ensures
            has_pattern_char(desc.spec_bytes()) && regex_compiles(desc@) ==> (r.desc_re matches Some(p)
                && p@ == desc@ && r == (DbQuery { desc_re: r.desc_re, ..self })),
            !(has_pattern_char(desc.spec_bytes()) && regex_compiles(desc@)) ==> (r.desc_match matches Some(
                n,
            ) && n@ == desc@ && r == (DbQuery { desc_match: r.desc_match, ..self })),
    {
        if pattern_chars(desc) && regex_is_valid(desc) {
            return DbQuery { desc_re: Some(desc.to_owned()), ..self };
        }
        DbQuery { desc_match: Some(desc.to_owned()), ..self }
    }

    /// This query, matching related parties of the type given only
    pub fn with_rp_type(self, opt_rp_type: Option<RelatedPartyType>) -> (r: Self)
        ensures
            r == (DbQuery {
                rp_query: match opt_rp_type {
                    Some(t) => RelatedPartyQuery::RpType(t),
                    None => RelatedPartyQuery::Any,
                },
                ..self
            }),
    {
        let rp_query = match opt_rp_type {
            Some(t) => RelatedPartyQuery::RpType(t),
            None => RelatedPartyQuery::Any,
        };
        DbQuery { rp_query, ..self }
    }

    /// This query, matching dates in `date_range` only
    pub fn with_date_range(self, date_range: DateRange) -> (r: Self)
        ensures
            r == (DbQuery { date_range, ..self }),
    {
        DbQuery { date_range, ..self }
    }

    /// True if records of kind `db_it` are asked for
    pub fn item_type_matches(&self, db_it: DbItemType) -> (r: bool)
        ensures
            r == self.spec_item_type_matches(db_it),
    {
        match self.item_type {
            None => true,
            Some(t) => t == db_it,
        }
    }

    fn matches_name(&self, s: &str) -> (r: bool)
        ensures
            r == self.spec_matches_name(s@),
    {
        let prefix_ok = match &self.name_match {
            Some(n) => starts_with(s, n.as_str()),
            None => true,
        };
        if !prefix_ok {
            return false;
        }
        match &self.name_re {
            Some(p) => regex_is_valid(p.as_str()) && regex_is_match(p.as_str(), s),
            None => true,
        }
    }

    fn matches_any_name(&self, names: &[String]) -> (r: bool)
        ensures
            r == self.spec_matches_any(names@),
    {
        let mut i: usize = 0;
        while i < names.len()
            invariant
                i <= names@.len(),
                forall|k: int| 0 <= k < i ==> !self.spec_matches_name(#[trigger] names@[k]@),
            decreases names@.len() - i,
        {
            if self.matches_name(names[i].as_str()) {
                return true;
            }
            i += 1;
        }
        false
    }

    fn matches_desc(&self, s: &str) -> (r: bool)
        ensures
            r == self.spec_matches_desc(s@),
    {
        let prefix_ok = match &self.desc_match {
            Some(n) => starts_with(s, n.as_str()),
            None => true,
        };
        if !prefix_ok {
            return false;
        }
        match &self.desc_re {
            Some(p) => regex_is_valid(p.as_str()) && regex_is_match(p.as_str(), s),
            None => true,
        }
    }

    fn matches_date_range(&self, d: Date) -> (r: bool)
        ensures
            r == self.spec_matches_date_range(d.value),
    {
        if self.date_range.start.is_none() {
            true
        } else {
            self.date_range.contains(d)
        }
    }

    fn matches_id(&self, n: usize) -> (r: bool)
        ensures
            r == self.spec_matches_id(n),
    {
        match self.id {
            Some(id) => id == n,
            None => true,
        }
    }

    fn matches_db_id(&self, db_id: DbId) -> (r: bool)
        ensures
            r == self.spec_matches_db_id(db_id),
    {
        if !self.db_id.is_none() {
            db_id == self.db_id
        } else {
            true
        }
    }

    /// True if the account's name matches
    pub fn matches_account(&self, d: &Account) -> (r: bool)
        ensures
            r == self.spec_matches_account(*d),
    {
        self.matches_name(d.name.as_str())
    }

    /// True if the fund's name or one of its aliases matches
    pub fn matches_fund(&self, d: &Fund) -> (r: bool)
        ensures
            r == self.spec_matches_fund(*d),
    {
        self.matches_name(d.name.as_str()) || self.matches_any_name(d.aliases.as_slice())
    }

    /// True if the invoice's reason and supplier match
    pub fn matches_invoice(&self, d: &Invoice) -> (r: bool)
        ensures
            r == self.spec_matches_invoice(*d),
    {
        self.matches_name(d.reason.as_str()) && self.matches_id(d.supplier_id.id)
    }

    /// True if no name is asked for, or the party's name or an alias matches
    pub fn matches_related_party(&self, d: &RelatedParty) -> (r: bool)
        ensures
            r == self.spec_matches_related_party(*d),
    {
        if self.name_match.is_none() {
            return true;
        }
        self.matches_name(d.name.as_str()) || self.matches_any_name(d.aliases.as_slice())
    }

    /// True if the transaction's date matches and it debits or credits the
    /// key asked for
    pub fn matches_transaction(&self, d: &Transaction) -> (r: bool)
        ensures
            r == self.spec_matches_transaction(*d),
    {
        self.matches_date_range(d.date) && (self.matches_db_id(d.debit_id) || self.matches_db_id(
            d.credit_id,
        ))
    }

    /// True if the bank transaction's date, related party and description
    /// match
    pub fn matches_bank_transaction(&self, d: &BankTransaction) -> (r: bool)
        ensures
            r == self.spec_matches_bank_transaction(*d),
    {
        self.matches_date_range(d.date) && self.matches_id(d.related_party.id)
            && self.matches_desc(d.description.as_str())
    }

    /// True if the record is of a kind asked for and its payload matches
    pub fn matches_item(&self, x: &DbItem) -> (r: bool)
        ensures
            r == self.spec_matches_item(*x),
    {
        if !self.item_type_matches(x.itype) {
            return false;
        }
        match &x.value {
            DbItemTypeE::Account(a) => self.matches_account(a),
            DbItemTypeE::Fund(f) => self.matches_fund(f),
            DbItemTypeE::Invoice(v) => self.matches_invoice(v),
            DbItemTypeE::RelatedParty(p) => self.matches_related_party(p),
            DbItemTypeE::Transaction(t) => self.matches_transaction(t),
            DbItemTypeE::BankTransaction(b) => self.matches_bank_transaction(b),
        }
    }
}

} // verus!
