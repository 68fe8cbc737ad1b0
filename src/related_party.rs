use vstd::prelude::*;
use vstd::string::StringSliceAdditionalSpecFns;

use crate::base_types::Date;
use crate::db_id::DbId;
use crate::error::Error;
use crate::names::{add_names, remove_names, views, NameIndex};
use crate::ordered::{buckets_within, entries, ids_resolve, rename_buckets, spec_push, OrderedTransactions};
use crate::rebuild::DatabaseRebuild;

verus! {

/// How a party is related to the organisation
#[derive(Clone, Copy, Debug, Default, Hash, PartialEq, Eq, Structural)]
pub enum RelatedPartyType {
    #[default]
    Member,
    Friend,
    Donor,
    Supplier,
    Musician,
    Director,
}

/// A selection of related parties: all, or those of one type
#[derive(Default, Clone, Copy, Debug, Hash, PartialEq, Eq, Structural)]
pub enum RelatedPartyQuery {
    RpType(RelatedPartyType),
    #[default]
    Any,
}

impl RelatedPartyQuery {
    pub open spec fn spec_matches(self, rp_type: RelatedPartyType) -> bool {
        match self {
            RelatedPartyQuery::Any => true,
            RelatedPartyQuery::RpType(x) => x == rp_type,
        }
    }

    /// True for the query that selects every party
    pub fn is_any(&self) -> (r: bool)
        ensures
            r == (*self is Any),
    {
        match self {
            RelatedPartyQuery::Any => true,
            RelatedPartyQuery::RpType(_) => false,
        }
    }

    /// True if the query selects parties of type `rp_type`
    pub fn matches_rp_type(&self, rp_type: RelatedPartyType) -> (r: bool)
        ensures
            r == self.spec_matches(rp_type),
    {
        match self {
            RelatedPartyQuery::Any => true,
            RelatedPartyQuery::RpType(x) => *x == rp_type,
        }
    }
}

/// What a related party is, in brief: its details, and how many
/// descriptors, aliases, transactions and invoices it has
#[derive(Debug, Clone)]
pub struct RelatedPartySummary {
    pub name: String,
    pub rp_id: usize,
    pub rp_type: RelatedPartyType,
    pub address: String,
    pub email: String,
    pub house_number: String,
    pub postcode: String,
    pub telephone: String,
    pub tax_name: String,
    pub last_gift_aid: Date,
    pub num_account_descrs: usize,
    pub num_aliases: usize,
    pub num_transactions: usize,
    pub num_invoices: usize,
}

/// A related party summary kept apart from the party
#[derive(Debug, Clone)]
pub struct RelatedPartySummaryOwned {
    pub name: String,
    pub rp_id: usize,
    pub rp_type: RelatedPartyType,
    pub address: String,
    pub email: String,
    pub house_number: String,
    pub postcode: String,
    pub telephone: String,
    pub tax_name: String,
    pub last_gift_aid: Date,
    pub num_account_descrs: usize,
    pub num_aliases: usize,
    pub num_transactions: usize,
    pub num_invoices: usize,
}

impl RelatedPartySummaryOwned {
    /// The summary this holds
    pub fn summary(&self) -> (r: RelatedPartySummary)
        ensures
            r.name == self.name && r.rp_id == self.rp_id && r.rp_type == self.rp_type,
            r.address == self.address && r.email == self.email && r.house_number == self.house_number,
            r.postcode == self.postcode && r.telephone == self.telephone && r.tax_name == self.tax_name,
            r.last_gift_aid == self.last_gift_aid,
            r.num_account_descrs == self.num_account_descrs && r.num_aliases == self.num_aliases,
            r.num_transactions == self.num_transactions && r.num_invoices == self.num_invoices,
    {
        RelatedPartySummary {
            name: self.name.clone(),
            rp_id: self.rp_id,
            rp_type: self.rp_type,
            address: self.address.clone(),
            email: self.email.clone(),
            house_number: self.house_number.clone(),
            postcode: self.postcode.clone(),
            telephone: self.telephone.clone(),
            tax_name: self.tax_name.clone(),
            last_gift_aid: self.last_gift_aid,
            num_account_descrs: self.num_account_descrs,
            num_aliases: self.num_aliases,
            num_transactions: self.num_transactions,
            num_invoices: self.num_invoices,
        }
    }
}

impl RelatedPartySummary {
    /// A copy of the summary to keep apart from the party
    pub fn to_owned(&self) -> (r: RelatedPartySummaryOwned)
        ensures
            r.name == self.name && r.rp_id == self.rp_id && r.rp_type == self.rp_type,
            r.address == self.address && r.email == self.email && r.house_number == self.house_number,
            r.postcode == self.postcode && r.telephone == self.telephone && r.tax_name == self.tax_name,
            r.last_gift_aid == self.last_gift_aid,
            r.num_account_descrs == self.num_account_descrs && r.num_aliases == self.num_aliases,
            r.num_transactions == self.num_transactions && r.num_invoices == self.num_invoices,
    {
        RelatedPartySummaryOwned {
            name: self.name.clone(),
            rp_id: self.rp_id,
            rp_type: self.rp_type,
            address: self.address.clone(),
            email: self.email.clone(),
            house_number: self.house_number.clone(),
            postcode: self.postcode.clone(),
            telephone: self.telephone.clone(),
            tax_name: self.tax_name.clone(),
            last_gift_aid: self.last_gift_aid,
            num_account_descrs: self.num_account_descrs,
            num_aliases: self.num_aliases,
            num_transactions: self.num_transactions,
            num_invoices: self.num_invoices,
        }
    }
}

/// A party related to the organisation: a member, a supplier, a donor...
#[derive(Debug, Clone)]
pub struct RelatedParty {
    pub name: String,
    pub rp_id: usize,
    pub rp_type: RelatedPartyType,
    pub address: String,
    pub email: String,
    pub house_number: String,
    pub postcode: String,
    pub telephone: String,
    pub tax_name: String,
    pub last_gift_aid: Date,
    pub account_descrs: Vec<String>,
    pub aliases: Vec<String>,
    pub transactions: OrderedTransactions,
    pub invoices: OrderedTransactions,
}

impl RelatedParty {
    pub open spec fn wf(&self) -> bool {
        self.transactions.wf() && self.invoices.wf()
    }

    /// Every reference can be rebuilt through `m`
    pub open spec fn refs_resolve(&self, m: Map<DbId, DbId>) -> bool {
        ids_resolve(self.transactions@, m) && ids_resolve(self.invoices@, m)
    }

    /// `b` is this party with its references rebuilt through `m`
    pub open spec fn renamed(&self, b: &RelatedParty, m: Map<DbId, DbId>) -> bool {
        &&& b.name@ == self.name@
        &&& b.rp_id == self.rp_id
        &&& b.rp_type == self.rp_type
        &&& b.address@ == self.address@
        &&& b.email@ == self.email@
        &&& b.house_number@ == self.house_number@
        &&& b.postcode@ == self.postcode@
        &&& b.telephone@ == self.telephone@
        &&& b.tax_name@ == self.tax_name@
        &&& b.last_gift_aid == self.last_gift_aid
        &&& views(b.account_descrs@) == views(self.account_descrs@)
        &&& views(b.aliases@) == views(self.aliases@)
        &&& b.transactions@ == rename_buckets(self.transactions@, m)
        &&& b.invoices@ == rename_buckets(self.invoices@, m)
    }

    /// Every reference is one of the keys `s`
    pub open spec fn refs_within(&self, s: Set<DbId>) -> bool {
        buckets_within(self.transactions@, s) && buckets_within(self.invoices@, s)
    }

    /// A party with a name, a number and a type, and nothing else
    pub fn new(name: String, rp_id: usize, rp_type: RelatedPartyType) -> (r: Self)
        ensures
            r.wf(),
            r.name == name,
            r.rp_id == rp_id,
            r.rp_type == rp_type,
            r.address@.len() == 0 && r.email@.len() == 0 && r.house_number@.len() == 0,
            r.postcode@.len() == 0 && r.telephone@.len() == 0 && r.tax_name@.len() == 0,
            r.last_gift_aid.value == 0,
            r.account_descrs@.len() == 0 && r.aliases@.len() == 0,
            r.transactions@.len() == 0 && r.invoices@.len() == 0,
    {
        RelatedParty {
            name,
            rp_id,
            rp_type,
            address: String::new(),
            email: String::new(),
            house_number: String::new(),
            postcode: String::new(),
            telephone: String::new(),
            tax_name: String::new(),
            last_gift_aid: Date { value: 0 },
            account_descrs: Vec::new(),
            aliases: Vec::new(),
            transactions: OrderedTransactions::new(),
            invoices: OrderedTransactions::new(),
        }
    }

    /// The party in brief
    pub fn summary(&self) -> (r: RelatedPartySummary)
        requires
            entries(self.transactions@).len() <= usize::MAX,
            entries(self.invoices@).len() <= usize::MAX,
        ensures
            r.name == self.name && r.rp_id == self.rp_id && r.rp_type == self.rp_type,
            r.address == self.address && r.email == self.email && r.house_number == self.house_number,
            r.postcode == self.postcode && r.telephone == self.telephone && r.tax_name == self.tax_name,
            r.last_gift_aid == self.last_gift_aid,
            r.num_account_descrs == self.account_descrs@.len() && r.num_aliases == self.aliases@.len(),
            r.num_transactions == entries(self.transactions@).len(),
            r.num_invoices == entries(self.invoices@).len(),
    {
        RelatedPartySummary {
            name: self.name.clone(),
            rp_id: self.rp_id,
            rp_type: self.rp_type,
            address: self.address.clone(),
            email: self.email.clone(),
            house_number: self.house_number.clone(),
            postcode: self.postcode.clone(),
            telephone: self.telephone.clone(),
            tax_name: self.tax_name.clone(),
            last_gift_aid: self.last_gift_aid,
            num_account_descrs: self.account_descrs.len(),
            num_aliases: self.aliases.len(),
            num_transactions: self.transactions.len(),
            num_invoices: self.invoices.len(),
        }
    }

    /// The name of the party
    pub fn name(&self) -> (r: &str)
        ensures
            r@ == self.name@,
    {
        self.name.as_str()
    }

    /// The other names of the party
    pub fn aliases(&self) -> (r: &[String])
        ensures
            r@ == self.aliases@,
    {
        self.aliases.as_slice()
    }

    /// The party's number
    pub fn rp_id(&self) -> (r: usize)
        ensures
            r == self.rp_id,
    {
        self.rp_id
    }

    /// How the party is related
    pub fn rp_type(&self) -> (r: RelatedPartyType)
        ensures
            r == self.rp_type,
    {
        self.rp_type
    }

    /// The party's address
    pub fn address(&self) -> (r: &str)
        ensures
            r@ == self.address@,
    {
        self.address.as_str()
    }

    /// Rename the party
    pub fn change_name(&mut self, name: String)
        ensures
            *final(self) == (RelatedParty { name, ..*old(self) }),
    {
        self.name = name;
    }

    /// Add another name for the party
    pub fn add_alias(&mut self, alias: String)
        ensures
            final(self).aliases@ == old(self).aliases@.push(alias),
            *final(self) == (RelatedParty { aliases: final(self).aliases, ..*old(self) }),
    {
        self.aliases.push(alias);
    }

    /// Remove every other name of the party
    pub fn clear_aliases(&mut self)
        ensures
            final(self).aliases@.len() == 0,
            *final(self) == (RelatedParty { aliases: final(self).aliases, ..*old(self) }),
    {
        self.aliases.clear();
    }

    /// Empty the address, email, postcode, telephone, tax name and house number
    pub fn clear_address_info(&mut self)
        ensures
            final(self).address@.len() == 0 && final(self).email@.len() == 0,
            final(self).postcode@.len() == 0 && final(self).telephone@.len() == 0,
            final(self).tax_name@.len() == 0 && final(self).house_number@.len() == 0,
            *final(self) == (RelatedParty {
                address: final(self).address,
                email: final(self).email,
                postcode: final(self).postcode,
                telephone: final(self).telephone,
                tax_name: final(self).tax_name,
                house_number: final(self).house_number,
                ..*old(self)
            }),
    {
        self.address = String::new();
        self.email = String::new();
        self.postcode = String::new();
        self.telephone = String::new();
        self.tax_name = String::new();
        self.house_number = String::new();
    }

    /// Set the postcode
    pub fn change_postcode(&mut self, postcode: String)
        ensures
            *final(self) == (RelatedParty { postcode, ..*old(self) }),
    {
        self.postcode = postcode;
    }

    /// Set the address
    pub fn change_address(&mut self, address: String)
        ensures
            *final(self) == (RelatedParty { address, ..*old(self) }),
    {
        self.address = address;
    }

    /// Set the email address
    pub fn change_email(&mut self, email: String)
        ensures
            *final(self) == (RelatedParty { email, ..*old(self) }),
    {
        self.email = email;
    }

    /// Set the house number
    pub fn change_house_number(&mut self, house_number: String)
        ensures
            *final(self) == (RelatedParty { house_number, ..*old(self) }),
    {
        self.house_number = house_number;
    }

    /// Set the telephone number
    pub fn change_telephone(&mut self, telephone: String)
        ensures
            *final(self) == (RelatedParty { telephone, ..*old(self) }),
    {
        self.telephone = telephone;
    }

    /// Set the name used for tax
    pub fn change_tax_name(&mut self, tax_name: String)
        ensures
            *final(self) == (RelatedParty { tax_name, ..*old(self) }),
    {
        self.tax_name = tax_name;
    }

    /// Remove every bank descriptor of the party
    pub fn clear_account_descr(&mut self)
        ensures
            final(self).account_descrs@.len() == 0,
            *final(self) == (RelatedParty { account_descrs: final(self).account_descrs, ..*old(self) }),
    {
        self.account_descrs.clear();
    }

    /// Add a descriptor by which the party shows in bank statements
    pub fn add_account_descr(&mut self, descr: String)
        ensures
            final(self).account_descrs@ == old(self).account_descrs@.push(descr),
            *final(self) == (RelatedParty { account_descrs: final(self).account_descrs, ..*old(self) }),
    {
        self.account_descrs.push(descr);
    }

    /// The descriptors by which the party shows in bank statements
    pub fn account_descrs(&self) -> (r: &[String])
        ensures
            r@ == self.account_descrs@,
    {
        self.account_descrs.as_slice()
    }

    /// The date of the last gift aid declaration
    pub fn last_gift_aid(&self) -> (r: Date)
        ensures
            r == self.last_gift_aid,
    {
        self.last_gift_aid
    }

    /// Record the transaction `t_id` dated `date`, unless it is already
    /// recorded at that date
    pub fn add_transaction(&mut self, date: Date, t_id: DbId) -> (r: bool)
        requires
            old(self).wf(),
        ensures
            final(self).wf(),
            r == !exists|i: int|
                0 <= i < old(self).transactions@.len() && old(self).transactions@[i].0
                    == date.value && old(self).transactions@[i].1.contains(t_id),
            r ==> final(self).transactions@ == spec_push(old(self).transactions@, date.value, t_id),
            !r ==> *final(self) == *old(self),
            *final(self) == (RelatedParty { transactions: final(self).transactions, ..*old(self) }),
    {
        if self.transactions.date_contains(date, t_id) {
            return false;
        }
        self.transactions.push_to_date(date, t_id);
        true
    }

    /// True if `query` selects the party
    pub fn matches_query(&self, query: &RelatedPartyQuery) -> (r: bool)
        ensures
            r == query.spec_matches(self.rp_type),
    {
        query.matches_rp_type(self.rp_type)
    }

    /// Rebuild the party's references through `database_rebuild`
    pub fn rebuild(&mut self, database_rebuild: &DatabaseRebuild) -> (r: Result<(), Error>)
        requires
            old(self).wf(),
            database_rebuild.wf(),
        ensures
            final(self).wf(),
            r is Ok == old(self).refs_resolve(database_rebuild@),
            r is Ok ==> old(self).renamed(final(self), database_rebuild@),
            r is Err ==> r->Err_0 is UnresolvedReference,
    {
        self.transactions.rebuild(database_rebuild)?;
        self.invoices.rebuild(database_rebuild)
    }

    /// The name by which the party is shown
    pub fn show_name(&self) -> (r: String)
        ensures
            r@ == self.name@,
    {
        self.name.clone()
    }
}

/// The value of a string of decimal digits
pub open spec fn digits_value(s: Seq<u8>) -> int
    decreases s.len(),
{
    if s.len() == 0 {
        0
    } else {
        digits_value(s.drop_last()) * 10 + (s.last() - 48)
    }
}

/// Every byte is a decimal digit
pub open spec fn all_digits(s: Seq<u8>) -> bool {
    forall|i: int| 0 <= i < s.len() ==> 48 <= #[trigger] s[i] <= 57
}

/// The number that `s` spells in decimal, if it is one that fits
pub(crate) fn parse_decimal(s: &[u8]) -> (r: Option<usize>)
    ensures
        r matches Some(n) ==> s@.len() > 0 && all_digits(s@) && n == digits_value(s@),
        r is None ==> s@.len() == 0 || !all_digits(s@) || digits_value(s@) > usize::MAX,
{
    if s.len() == 0 {
        return None;
    }
    let mut v: usize = 0;
    let mut i: usize = 0;
    while i < s.len()
        invariant
            i <= s@.len(),
            all_digits(s@.take(i as int)),
            v == digits_value(s@.take(i as int)),
        decreases s@.len() - i,
    {
        let c = s[i];
        assert(s@.take(i as int + 1).drop_last() =~= s@.take(i as int));
        if c < 48 || c > 57 {
            return None;
        }
        if v > (usize::MAX - 9) / 10 {
            proof {
                lemma_digits_grow(s@, i as int);
            }
            let d = (c - 48) as usize;
            if v > (usize::MAX - d) / 10 {
                return None;
            }
        }
        v = v * 10 + (c - 48) as usize;
        i += 1;
    }
    assert(s@.take(s@.len() as int) =~= s@);
    Some(v)
}

/// Once the digits read so far are too many, so are all of them
proof fn lemma_digits_grow(s: Seq<u8>, i: int)
    requires
        0 <= i < s.len(),
        all_digits(s.take(i)),
    ensures
        all_digits(s) ==> digits_value(s) >= digits_value(s.take(i + 1)),
    decreases s.len() - i,
{
    if all_digits(s) {
        lemma_digits_mono(s, i + 1);
    }
}

proof fn lemma_digits_mono(s: Seq<u8>, j: int)
    requires
        0 <= j <= s.len(),
        all_digits(s),
    ensures
        digits_value(s) >= digits_value(s.take(j)),
    decreases s.len() - j,
{
    if j < s.len() {
        lemma_digits_mono(s, j + 1);
        assert(s.take(j + 1).drop_last() =~= s.take(j));
        assert(digits_value(s.take(j)) >= 0) by {
            lemma_digits_nonneg(s.take(j));
        }
    } else {
        assert(s.take(j) =~= s);
    }
}

proof fn lemma_digits_nonneg(s: Seq<u8>)
    requires
        all_digits(s),
    ensures
        digits_value(s) >= 0,
    decreases s.len(),
{
    if s.len() > 0 {
        lemma_digits_nonneg(s.drop_last());
    }
}

/// The related parties of the store, by key, with a lookup by name and alias
pub struct DbRelatedParties {
    array: Vec<(DbId, usize, RelatedPartyType)>,
    map: NameIndex,
}

impl DbRelatedParties {
    /// Each party's key, number and type, in the order they were added
    pub closed spec fn spec_parties(&self) -> Seq<(DbId, usize, RelatedPartyType)> {
        self.array@
    }

    /// The names and aliases, with the key of the party each names
    pub closed spec fn spec_names(&self) -> Map<Seq<char>, DbId> {
        self.map@
    }

    pub closed spec fn wf(&self) -> bool {
        self.map.wf()
    }

    /// The key of the first party numbered `rp_id`
    pub open spec fn spec_rp_id(&self, rp_id: usize) -> Option<DbId> {
        if exists|i: int| 0 <= i < self.spec_parties().len() && self.spec_parties()[i].1 == rp_id {
            let i = choose|i: int|
                0 <= i < self.spec_parties().len() && self.spec_parties()[i].1 == rp_id && forall|
                    k: int,
                | 0 <= k < i ==> self.spec_parties()[k].1 != rp_id;
            Some(self.spec_parties()[i].0)
        } else {
            None
        }
    }

    /// No parties
    pub fn new() -> (r: Self)
        ensures
            r.wf(),
            r.spec_parties().len() == 0,
            r.spec_names() == Map::<Seq<char>, DbId>::empty(),
    {
        DbRelatedParties { array: Vec::new(), map: NameIndex::new() }
    }

    /// The key of the `n`th party added
    pub fn map_nth(&self, n: usize) -> (r: Option<DbId>)
        ensures
            r == (if n < self.spec_parties().len() {
                Some(self.spec_parties()[n as int].0)
            } else {
                None::<DbId>
            }),
    {
        if n < self.array.len() {
            Some(self.array[n].0)
        } else {
            None
        }
    }

    /// The keys of the parties, in the order they were added
    pub fn db_ids(&self) -> (r: Vec<DbId>)
        ensures
            r@ == self.spec_parties().map_values(|e: (DbId, usize, RelatedPartyType)| e.0),
    {
        let mut r: Vec<DbId> = Vec::new();
        let mut i: usize = 0;
        while i < self.array.len()
            invariant
                i <= self.array@.len(),
                r@ == self.array@.take(i as int).map_values(|e: (DbId, usize, RelatedPartyType)| e.0),
            decreases self.array@.len() - i,
        {
            r.push(self.array[i].0);
            assert(self.array@.take(i as int + 1) =~= self.array@.take(i as int).push(self.array@[i as int]));
            i += 1;
        }
        assert(self.array@.take(self.array@.len() as int) =~= self.array@);
        r
    }

    /// The numbers of the parties, in the order they were added
    pub fn rp_ids(&self) -> (r: Vec<usize>)
        ensures
            r@ == self.spec_parties().map_values(|e: (DbId, usize, RelatedPartyType)| e.1),
    {
        let mut r: Vec<usize> = Vec::new();
        let mut i: usize = 0;
        while i < self.array.len()
            invariant
                i <= self.array@.len(),
                r@ == self.array@.take(i as int).map_values(|e: (DbId, usize, RelatedPartyType)| e.1),
            decreases self.array@.len() - i,
        {
            r.push(self.array[i].1);
            assert(self.array@.take(i as int + 1) =~= self.array@.take(i as int).push(self.array@[i as int]));
            i += 1;
        }
        assert(self.array@.take(self.array@.len() as int) =~= self.array@);
        r
    }

    /// Add party `id`, unless its number, its name or one of its aliases is
    /// taken; its aliases then name it too
    pub fn add_related_party(
        &mut self,
        id: DbId,
        rp_id: usize,
        rp_type: RelatedPartyType,
        name: &str,
        aliases: &[String],
    ) -> (r: bool)
        requires
            old(self).wf(),
        ensures
            final(self).wf(),
            r == (old(self).spec_rp_id(rp_id) is None && !old(self).spec_names().contains_key(name@)
                && !exists|i: int|
                0 <= i < aliases@.len() && old(self).spec_names().contains_key(
                    #[trigger] aliases@[i]@,
                )),
            r ==> final(self).spec_parties() == old(self).spec_parties().push((id, rp_id, rp_type))
                && final(self).spec_names() == add_names(
                old(self).spec_names().insert(name@, id),
                views(aliases@),
                id,
            ),
            !r ==> final(self).spec_parties() == old(self).spec_parties() && final(self).spec_names()
                == old(self).spec_names(),
    {
        if self.has_rp_id(rp_id) {
            return false;
        }
        if self.map.contains(name) {
            return false;
        }
        if self.map.contains_any(aliases) {
            return false;
        }
        self.array.push((id, rp_id, rp_type));
        self.map.insert(name.to_owned(), id);
        self.map.insert_all(aliases, id);
        true
    }

    /// Enter the loaded party `party`, keyed `id`; fails, changing nothing,
    /// if its number, its name or one of its aliases is taken
    pub fn rebuild_add_related_party(&mut self, id: DbId, party: &RelatedParty) -> (r: Result<(), Error>)
        requires
            old(self).wf(),
        ensures
            final(self).wf(),
            r is Ok == (old(self).spec_rp_id(party.rp_id) is None && !old(self).spec_names().contains_key(
                party.name@,
            ) && !exists|i: int|
                0 <= i < party.aliases@.len() && old(self).spec_names().contains_key(
                    #[trigger] party.aliases@[i]@,
                )),
            r is Ok ==> final(self).spec_parties() == old(self).spec_parties().push(
                (id, party.rp_id, party.rp_type),
            ) && final(self).spec_names() == add_names(
                old(self).spec_names().insert(party.name@, id),
                views(party.aliases@),
                id,
            ),
            r is Err ==> final(self).spec_parties() == old(self).spec_parties() && final(self).spec_names()
                == old(self).spec_names() && r->Err_0 is DuplicateName,
    {
        if self.add_related_party(id, party.rp_id, party.rp_type, party.name.as_str(), party.aliases.as_slice()) {
            Ok(())
        } else {
            Err(Error::DuplicateName(party.name.clone()))
        }
    }

    /// Take the aliases `aliases` out of the lookup
    pub fn remove_related_party_aliases(&mut self, aliases: &[String])
        requires
            old(self).wf(),
        ensures
            final(self).wf(),
            final(self).spec_parties() == old(self).spec_parties(),
            final(self).spec_names() == remove_names(old(self).spec_names(), views(aliases@)),
    {
        self.map.remove_all(aliases);
    }

    /// Add the aliases `aliases` of party `id` that are not taken
    pub fn add_related_party_aliases(&mut self, id: DbId, aliases: &[String])
        requires
            old(self).wf(),
        ensures
            final(self).wf(),
            final(self).spec_parties() == old(self).spec_parties(),
            final(self).spec_names() == add_names(old(self).spec_names(), views(aliases@), id),
    {
        self.map.insert_all(aliases, id);
    }

    /// The party `name` names: by number if it is all digits and a number
    /// that fits, else by name or alias
    pub open spec fn spec_of_str(&self, name: &str) -> Option<DbId> {
        let b = name.spec_bytes();
        if b.len() > 0 && all_digits(b) && digits_value(b) <= usize::MAX {
            self.spec_rp_id(digits_value(b) as usize)
        } else if self.spec_names().contains_key(name@) {
            Some(self.spec_names()[name@])
        } else {
            None
        }
    }

    /// The type of the first party with key `id`
    pub open spec fn spec_type_of(&self, id: DbId) -> Option<RelatedPartyType> {
        if exists|i: int| 0 <= i < self.spec_parties().len() && self.spec_parties()[i].0 == id {
            let i = choose|i: int|
                0 <= i < self.spec_parties().len() && self.spec_parties()[i].0 == id && forall|
                    k: int,
                | 0 <= k < i ==> self.spec_parties()[k].0 != id;
            Some(self.spec_parties()[i].2)
        } else {
            None
        }
    }

    /// The party `name` names: by number if it is all digits and a number
    /// that fits, else by name or alias
    pub fn get_party_of_str(&self, name: &str) -> (r: Option<DbId>)
        requires
            self.wf(),
        ensures
            r == self.spec_of_str(name),
    {
        if let Some(n) = parse_decimal(name.as_bytes()) {
            return self.get_rp_id(n);
        }
        self.map.get(name)
    }

    /// The type of the first party with key `id`
    pub fn type_of(&self, id: DbId) -> (r: Option<RelatedPartyType>)
        ensures
            r == self.spec_type_of(id),
    {
        let mut i: usize = 0;
        while i < self.array.len()
            invariant
                i <= self.array@.len(),
                forall|k: int| 0 <= k < i ==> self.array@[k].0 != id,
            decreases self.array@.len() - i,
        {
            if self.array[i].0 == id {
                proof {
                    let j = choose|j: int|
                        0 <= j < self.spec_parties().len() && self.spec_parties()[j].0 == id && forall|
                            k: int,
                        | 0 <= k < j ==> self.spec_parties()[k].0 != id;
                    assert(j == i) by {
                        if j > i {
                            assert(self.spec_parties()[i as int].0 == id);
                        }
                    }
                }
                return Some(self.array[i].2);
            }
            i += 1;
        }
        None
    }

    /// The party `name` names, as [DbRelatedParties::get_party_of_str] finds
    /// it, if `query` selects its type
    pub fn get_party(&self, name: &str, query: RelatedPartyQuery) -> (r: Option<DbId>)
        requires
            self.wf(),
        ensures
            r == (match self.spec_of_str(name) {
                Some(id) => match self.spec_type_of(id) {
                    Some(t) => if query.spec_matches(t) {
                        Some(id)
                    } else {
                        None
                    },
                    None => None,
                },
                None => None,
            }),
    {
        match self.get_party_of_str(name) {
            Some(id) => match self.type_of(id) {
                Some(t) => {
                    if query.matches_rp_type(t) {
                        Some(id)
                    } else {
                        None
                    }
                },
                None => None,
            },
            None => None,
        }
    }

    /// True if `name` names a party
    pub fn has_name(&self, name: &str) -> (r: bool)
        requires
            self.wf(),
        ensures
            r == self.spec_names().contains_key(name@),
    {
        self.map.contains(name)
    }

    /// True if any of `names` names a party
    pub fn has_any_name(&self, names: &[String]) -> (r: bool)
        requires
            self.wf(),
        ensures
            r == exists|i: int| 0 <= i < names@.len() && self.spec_names().contains_key(#[trigger] names@[i]@),
    {
        self.map.contains_any(names)
    }

    /// True if a party is numbered `id`
    pub fn has_rp_id(&self, id: usize) -> (r: bool)
        ensures
            r == self.spec_rp_id(id) is Some,
    {
        self.get_rp_id(id).is_some()
    }

    /// The key of the first party numbered `id`
    pub fn get_rp_id(&self, id: usize) -> (r: Option<DbId>)
        ensures
            r == self.spec_rp_id(id),
    {
        let mut i: usize = 0;
        while i < self.array.len()
            invariant
                i <= self.array@.len(),
                forall|k: int| 0 <= k < i ==> self.array@[k].1 != id,
            decreases self.array@.len() - i,
        {
            if self.array[i].1 == id {
                proof {
                    let j = choose|j: int|
                        0 <= j < self.spec_parties().len() && self.spec_parties()[j].1 == id && forall|
                            k: int,
                        | 0 <= k < j ==> self.spec_parties()[k].1 != id;
                    assert(j == i) by {
                        if j < i {
                        } else if j > i {
                            assert(self.spec_parties()[i as int].1 == id);
                        }
                    }
                }
                return Some(self.array[i].0);
            }
            i += 1;
        }
        None
    }
}

} // verus!
