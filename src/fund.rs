use vstd::prelude::*;

use crate::amount::Amount;
use crate::base_types::{Date, DateRange};
use crate::db_id::DbId;
use crate::error::Error;
use crate::names::{add_names, remove_names, views, NameIndex};
use crate::ordered::{buckets_within, ids_resolve, range_ids, rename_buckets, spec_push, OrderedTransactions};
use crate::rebuild::DatabaseRebuild;

verus! {

/// A fund: money set aside for a purpose, with the transactions that move it
#[derive(Debug, Clone)]
pub struct Fund {
    pub name: String,
    pub description: String,
    pub aliases: Vec<String>,
    pub transactions: OrderedTransactions,
    pub start_balance: Amount,
    pub end_balance: Option<Amount>,
}

impl Fund {
    pub open spec fn wf(&self) -> bool {
        self.transactions.wf()
    }

    /// Every reference can be rebuilt through `m`
    pub open spec fn refs_resolve(&self, m: Map<DbId, DbId>) -> bool {
        ids_resolve(self.transactions@, m)
    }

    /// `b` is this fund with its references rebuilt through `m`
    pub open spec fn renamed(&self, b: &Fund, m: Map<DbId, DbId>) -> bool {
        &&& b.name@ == self.name@
        &&& b.description@ == self.description@
        &&& views(b.aliases@) == views(self.aliases@)
        &&& b.start_balance == self.start_balance
        &&& b.end_balance == self.end_balance
        &&& b.transactions@ == rename_buckets(self.transactions@, m)
    }

    /// Every reference is one of the keys `s`
    pub open spec fn refs_within(&self, s: Set<DbId>) -> bool {
        buckets_within(self.transactions@, s)
    }

    /// A fund with no aliases, transactions or balance
    pub fn new(name: &str, description: &str) -> (r: Self)
        ensures
            r.wf(),
            r.name@ == name@,
            r.description@ == description@,
            r.aliases@.len() == 0,
            r.transactions@ == Seq::<(usize, Seq<DbId>)>::empty(),
            r.start_balance.value == 0,
            r.end_balance is None,
    {
        Fund {
            name: name.to_owned(),
            description: description.to_owned(),
            aliases: Vec::new(),
            transactions: OrderedTransactions::new(),
            start_balance: Amount { value: 0 },
            end_balance: None,
        }
    }

    /// The name of the fund
    pub fn name(&self) -> (r: &str)
        ensures
            r@ == self.name@,
    {
        self.name.as_str()
    }

    /// The description of the fund
    pub fn desc(&self) -> (r: &str)
        ensures
            r@ == self.description@,
    {
        self.description.as_str()
    }

    /// The other names of the fund
    pub fn aliases(&self) -> (r: &[String])
        ensures
            r@ == self.aliases@,
    {
        self.aliases.as_slice()
    }

    /// Add another name for the fund
    pub fn add_alias(&mut self, alias: String)
        ensures
            final(self).aliases@ == old(self).aliases@.push(alias),
            *final(self) == (Fund { aliases: final(self).aliases, ..*old(self) }),
    {
        self.aliases.push(alias);
    }

    /// Remove every other name of the fund
    pub fn clear_aliases(&mut self)
        ensures
            final(self).aliases@.len() == 0,
            *final(self) == (Fund { aliases: final(self).aliases, ..*old(self) }),
    {
        self.aliases.clear();
    }

    /// The transactions dated in `date_range`, in date order
    pub fn transactions_in_range(&self, date_range: DateRange) -> (r: Vec<DbId>)
        requires
            self.wf(),
        ensures
            r@ == range_ids(self.transactions@, date_range),
    {
        self.transactions.transactions_in_range(date_range)
    }

    /// Record the transaction `t_id` dated `date` in the fund, unless it is
    /// already recorded at that date; the end balance is then unknown
    pub fn add_transaction(&mut self, date: Date, t_id: DbId) -> (r: bool)
        requires
            old(self).wf(),
        ensures
            final(self).wf(),
            r == !exists|i: int|
                0 <= i < old(self).transactions@.len() && old(self).transactions@[i].0
                    == date.value && old(self).transactions@[i].1.contains(t_id),
            r ==> final(self).transactions@ == spec_push(old(self).transactions@, date.value, t_id)
                && final(self).end_balance is None,
            !r ==> *final(self) == *old(self),
            final(self).name == old(self).name,
            final(self).aliases == old(self).aliases,
    {
        if self.transactions.date_contains(date, t_id) {
            return false;
        }
        self.transactions.push_to_date(date, t_id);
        self.end_balance = None;
        true
    }

    /// Rebuild the fund's references through `database_rebuild`
    pub fn rebuild(&mut self, database_rebuild: &DatabaseRebuild) -> (r: Result<(), Error>)
        requires
            old(self).wf(),
            database_rebuild.wf(),
        ensures
            final(self).wf(),
            r is Ok == old(self).refs_resolve(database_rebuild@),
            r is Ok ==> old(self).renamed(final(self), database_rebuild@),
            r is Err ==> r->Err_0 is UnresolvedReference,
    {
        self.transactions.rebuild(database_rebuild)
    }

    /// The name by which the fund is shown
    pub fn show_name(&self) -> (r: String)
        ensures
            r@ == self.name@,
    {
        self.name.clone()
    }
}

/// The funds of the store, by key, with a lookup by name and alias
pub struct DbFunds {
    array: Vec<DbId>,
    index: NameIndex,
}

impl DbFunds {
    /// The keys of the funds, in the order they were added
    pub closed spec fn spec_ids(&self) -> Seq<DbId> {
        self.array@
    }

    /// The names and aliases, with the key of the fund each names
    pub closed spec fn spec_names(&self) -> Map<Seq<char>, DbId> {
        self.index@
    }

    pub closed spec fn wf(&self) -> bool {
        self.index.wf()
    }

    /// No funds
    pub fn new() -> (r: Self)
        ensures
            r.wf(),
            r.spec_ids().len() == 0,
            r.spec_names() == Map::<Seq<char>, DbId>::empty(),
    {
        DbFunds { array: Vec::new(), index: NameIndex::new() }
    }

    /// The key of the `n`th fund added
    pub fn map_nth(&self, n: usize) -> (r: Option<DbId>)
        ensures
            r == (if n < self.spec_ids().len() {
                Some(self.spec_ids()[n as int])
            } else {
                None::<DbId>
            }),
    {
        if n < self.array.len() {
            Some(self.array[n])
        } else {
            None
        }
    }

    /// The keys of the funds, in the order they were added
    pub fn db_ids(&self) -> (r: Vec<DbId>)
        ensures
            r@ == self.spec_ids(),
    {
        self.array.clone()
    }

    /// Add fund `id` named `name`, unless the name is taken
    pub fn add_fund(&mut self, id: DbId, name: &str) -> (r: bool)
        requires
            old(self).wf(),
        ensures
            final(self).wf(),
            r == !old(self).spec_names().contains_key(name@),
            r ==> final(self).spec_ids() == old(self).spec_ids().push(id)
                && final(self).spec_names() == old(self).spec_names().insert(name@, id),
            !r ==> final(self).spec_ids() == old(self).spec_ids() && final(self).spec_names()
                == old(self).spec_names(),
    {
        if self.index.contains(name) {
            return false;
        }
        self.array.push(id);
        self.index.insert(name.to_owned(), id);
        true
    }

    /// Enter the loaded fund `fund`, keyed `id`, with those of its aliases
    /// that are not taken; fails, changing nothing, if its name is taken
    pub fn rebuild_add_fund(&mut self, id: DbId, fund: &Fund) -> (r: Result<(), Error>)
        requires
            old(self).wf(),
        ensures
            final(self).wf(),
            r is Ok == !old(self).spec_names().contains_key(fund.name@),
            r is Ok ==> final(self).spec_ids() == old(self).spec_ids().push(id) && final(self).spec_names()
                == add_names(old(self).spec_names().insert(fund.name@, id), views(fund.aliases@), id),
            r is Err ==> final(self).spec_ids() == old(self).spec_ids() && final(self).spec_names()
                == old(self).spec_names() && r->Err_0 is DuplicateName,
    {
        if !self.add_fund(id, fund.name.as_str()) {
            return Err(Error::DuplicateName(fund.name.clone()));
        }
        self.add_fund_aliases(id, fund.aliases.as_slice());
        Ok(())
    }

    /// Take the aliases `aliases` out of the lookup
    pub fn remove_fund_aliases(&mut self, aliases: &[String])
        requires
            old(self).wf(),
        ensures
            final(self).wf(),
            final(self).spec_ids() == old(self).spec_ids(),
            final(self).spec_names() == remove_names(old(self).spec_names(), views(aliases@)),
    {
        self.index.remove_all(aliases);
    }

    /// Add the aliases `aliases` of fund `id` that are not taken
    pub fn add_fund_aliases(&mut self, id: DbId, aliases: &[String])
        requires
            old(self).wf(),
        ensures
            final(self).wf(),
            final(self).spec_ids() == old(self).spec_ids(),
            final(self).spec_names() == add_names(old(self).spec_names(), views(aliases@), id),
    {
        self.index.insert_all(aliases, id);
    }

    /// True if `name` names a fund
    pub fn has_fund(&self, name: &str) -> (r: bool)
        requires
            self.wf(),
        ensures
            r == self.spec_names().contains_key(name@),
    {
        self.index.contains(name)
    }

    /// The key of the fund `name` names
    pub fn get_fund(&self, name: &str) -> (r: Option<DbId>)
        requires
            self.wf(),
        ensures
            r == (if self.spec_names().contains_key(name@) {
                Some(self.spec_names()[name@])
            } else {
                None::<DbId>
            }),
    {
        self.index.get(name)
    }
}

} // verus!
