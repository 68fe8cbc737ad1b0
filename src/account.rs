use vstd::prelude::*;

use crate::account_desc::AccountDesc;
use crate::base_types::{str_eq, Date, DateRange};
use crate::db_id::DbId;
use crate::error::Error;
use crate::ordered::{buckets_within, entries, ids_resolve, range_ids, rename_buckets, spec_push, OrderedTransactions};
use crate::rebuild::DatabaseRebuild;

verus! {

/// What an account is, in brief: bank, name, description and how many
/// transactions it holds
#[derive(Debug, Clone)]
pub struct AccountSummary {
    pub org: String,
    pub name: String,
    pub desc: AccountDesc,
    pub num_transactions: usize,
}

/// An account summary kept apart from the account
#[derive(Debug, Clone)]
pub struct AccountSummaryOwned {
    pub org: String,
    pub name: String,
    pub desc: AccountDesc,
    pub num_transactions: usize,
}

impl AccountSummaryOwned {
    /// The summary this holds
    pub fn summary(&self) -> (r: AccountSummary)
        ensures
            r.org == self.org && r.name == self.name && r.desc == self.desc,
            r.num_transactions == self.num_transactions,
    {
        AccountSummary {
            org: self.org.clone(),
            name: self.name.clone(),
            desc: self.desc,
            num_transactions: self.num_transactions,
        }
    }
}

impl AccountSummary {
    /// A copy of the summary to keep apart from the account
    pub fn to_owned(&self) -> (r: AccountSummaryOwned)
        ensures
            r.org == self.org && r.name == self.name && r.desc == self.desc,
            r.num_transactions == self.num_transactions,
    {
        AccountSummaryOwned {
            org: self.org.clone(),
            name: self.name.clone(),
            desc: self.desc,
            num_transactions: self.num_transactions,
        }
    }
}

/// A bank account, with the bank transactions it holds ordered by date
#[derive(Debug, Clone)]
pub struct Account {
    pub org: String,
    pub name: String,
    pub desc: AccountDesc,
    pub transactions: OrderedTransactions,
}

impl Account {
    pub open spec fn wf(&self) -> bool {
        self.transactions.wf()
    }

    /// Every reference can be rebuilt through `m`
    pub open spec fn refs_resolve(&self, m: Map<DbId, DbId>) -> bool {
        ids_resolve(self.transactions@, m)
    }

    /// `b` is this account with its references rebuilt through `m`
    pub open spec fn renamed(&self, b: &Account, m: Map<DbId, DbId>) -> bool {
        &&& b.org@ == self.org@
        &&& b.name@ == self.name@
        &&& b.desc == self.desc
        &&& b.transactions@ == rename_buckets(self.transactions@, m)
    }

    /// Every reference is one of the keys `s`
    pub open spec fn refs_within(&self, s: Set<DbId>) -> bool {
        buckets_within(self.transactions@, s)
    }

    /// An account with no transactions
    pub fn new(org: String, name: String, desc: AccountDesc) -> (r: Self)
        ensures
            r.wf(),
            r.org == org,
            r.name == name,
            r.desc == desc,
            r.transactions@ == Seq::<(usize, Seq<DbId>)>::empty(),
    {
        Account { org, name, desc, transactions: OrderedTransactions::new() }
    }

    /// The account in brief
    pub fn summary(&self) -> (r: AccountSummary)
        requires
            entries(self.transactions@).len() <= usize::MAX,
        ensures
            r.org == self.org && r.name == self.name && r.desc == self.desc,
            r.num_transactions == entries(self.transactions@).len(),
    {
        AccountSummary {
            org: self.org.clone(),
            name: self.name.clone(),
            desc: self.desc,
            num_transactions: self.transactions.len(),
        }
    }

    /// The bank holding the account
    pub fn org(&self) -> (r: &str)
        ensures
            r@ == self.org@,
    {
        self.org.as_str()
    }

    /// The name of the account
    pub fn name(&self) -> (r: &str)
        ensures
            r@ == self.name@,
    {
        self.name.as_str()
    }

    /// The bank's description of the account
    pub fn desc(&self) -> (r: AccountDesc)
        ensures
            r == self.desc,
    {
        self.desc
    }

    /// The bank transactions dated in `date_range`, in date order
    pub fn transactions_in_range(&self, date_range: DateRange) -> (r: Vec<DbId>)
        requires
            self.wf(),
        ensures
            r@ == range_ids(self.transactions@, date_range),
    {
        self.transactions.transactions_in_range(date_range)
    }

    /// Record the bank transaction `bt_id` dated `date` in the account
    pub fn add_bank_transaction(&mut self, date: Date, bt_id: DbId)
        requires
            old(self).wf(),
        ensures
            final(self).wf(),
            final(self).transactions@ == spec_push(old(self).transactions@, date.value, bt_id),
            final(self).org == old(self).org,
            final(self).name == old(self).name,
            final(self).desc == old(self).desc,
    {
        self.transactions.push_to_date(date, bt_id);
    }

    /// Rebuild the account's references through `database_rebuild`
    pub fn rebuild(&mut self, database_rebuild: &DatabaseRebuild) -> (r: Result<(), Error>)
        requires
            old(self).wf(),
            database_rebuild.wf(),
        ensures
            final(self).wf(),
            r is Ok == old(self).refs_resolve(database_rebuild@),
            r is Ok ==> old(self).renamed(final(self), database_rebuild@),
            r is Err ==> r->Err_0 is UnresolvedReference,
    {
        self.transactions.rebuild(database_rebuild)
    }
}

} // verus!

verus! {

/// The accounts of the store, by key, with a lookup by the bank's
/// description
pub struct DbAccounts {
    array: Vec<(DbId, AccountDesc, String)>,
}

impl DbAccounts {
    /// Each account's key, description and name, in the order they were added
    pub closed spec fn spec_accounts(&self) -> Seq<(DbId, AccountDesc, Seq<char>)> {
        self.array@.map_values(|e: (DbId, AccountDesc, String)| (e.0, e.1, e.2@))
    }

    /// No two accounts have the same description
    pub open spec fn wf(&self) -> bool {
        forall|i: int, j: int|
            0 <= i < j < self.spec_accounts().len() ==> self.spec_accounts()[i].1
                != self.spec_accounts()[j].1
    }

    /// No accounts
    pub fn new() -> (r: Self)
        ensures
            r.wf(),
            r.spec_accounts().len() == 0,
    {
        DbAccounts { array: Vec::new() }
    }

    /// The key of the `n`th account added
    pub fn map_nth(&self, n: usize) -> (r: Option<DbId>)
        ensures
            r == (if n < self.spec_accounts().len() {
                Some(self.spec_accounts()[n as int].0)
            } else {
                None::<DbId>
            }),
    {
        if n < self.array.len() {
            Some(self.array[n].0)
        } else {
            None
        }
    }

    /// The keys, in the order they were added
    pub fn ids(&self) -> (r: Vec<DbId>)
        ensures
            r@ == self.spec_accounts().map_values(|e: (DbId, AccountDesc, Seq<char>)| e.0),
    {
        let mut r: Vec<DbId> = Vec::new();
        let mut i: usize = 0;
        while i < self.array.len()
            invariant
                i <= self.array@.len(),
                r@ == self.spec_accounts().take(i as int).map_values(
                    |e: (DbId, AccountDesc, Seq<char>)| e.0,
                ),
            decreases self.array@.len() - i,
        {
            r.push(self.array[i].0);
            assert(self.spec_accounts().take(i as int + 1) =~= self.spec_accounts().take(
                i as int,
            ).push(self.spec_accounts()[i as int]));
            i += 1;
        }
        assert(self.spec_accounts().take(self.array@.len() as int) =~= self.spec_accounts());
        r
    }

    /// The position of the account with description `desc`
    fn find(&self, desc: &AccountDesc) -> (r: Option<usize>)
        ensures
            r is None <==> forall|i: int|
                0 <= i < self.spec_accounts().len() ==> self.spec_accounts()[i].1 != *desc,
            r matches Some(i) ==> i < self.spec_accounts().len() && self.spec_accounts()[i as int].1
                == *desc,
    {
        let mut i: usize = 0;
        while i < self.array.len()
            invariant
                i <= self.array@.len(),
                forall|k: int| 0 <= k < i ==> self.spec_accounts()[k].1 != *desc,
            decreases self.array@.len() - i,
        {
            if self.array[i].1 == *desc {
                return Some(i);
            }
            i += 1;
        }
        None
    }

    /// Add account `id` with description `desc`, unless another account has
    /// that description
    pub fn add_account(&mut self, id: DbId, desc: AccountDesc, name: &str) -> (r: bool)
        requires
            old(self).wf(),
        ensures
            final(self).wf(),
            r == forall|i: int|
                0 <= i < old(self).spec_accounts().len() ==> old(self).spec_accounts()[i].1 != desc,
            r ==> final(self).spec_accounts() == old(self).spec_accounts().push((id, desc, name@)),
            !r ==> final(self).spec_accounts() == old(self).spec_accounts(),
    {
        if self.find(&desc).is_some() {
            return false;
        }
        let ghost before = self.spec_accounts();
        self.array.push((id, desc, name.to_owned()));
        assert(self.spec_accounts() =~= before.push((id, desc, name@)));
        true
    }

    /// Enter the loaded account `account`, keyed `id`; fails, changing
    /// nothing, if another account has its description
    pub fn rebuild_add_account(&mut self, id: DbId, account: &Account) -> (r: Result<(), Error>)
        requires
            old(self).wf(),
        ensures
            final(self).wf(),
            r is Ok == forall|i: int|
                0 <= i < old(self).spec_accounts().len() ==> old(self).spec_accounts()[i].1 != account.desc,
            r is Ok ==> final(self).spec_accounts() == old(self).spec_accounts().push((id, account.desc, account.name@)),
            r is Err ==> final(self).spec_accounts() == old(self).spec_accounts() && r->Err_0 is DuplicateName,
    {
        if self.add_account(id, account.desc, account.name.as_str()) {
            Ok(())
        } else {
            Err(Error::DuplicateName(account.name.clone()))
        }
    }

    /// True if an account has description `desc`
    pub fn has_account(&self, desc: &AccountDesc) -> (r: bool)
        ensures
            r == exists|i: int|
                0 <= i < self.spec_accounts().len() && self.spec_accounts()[i].1 == *desc,
    {
        self.find(desc).is_some()
    }

    /// The key of the account with description `desc`
    pub fn get_account(&self, desc: &AccountDesc) -> (r: Option<DbId>)
        requires
            self.wf(),
        ensures
            r is None <==> forall|i: int|
                0 <= i < self.spec_accounts().len() ==> self.spec_accounts()[i].1 != *desc,
            r matches Some(id) ==> exists|i: int|
                0 <= i < self.spec_accounts().len() && self.spec_accounts()[i].1 == *desc
                    && self.spec_accounts()[i].0 == id,
    {
        match self.find(desc) {
            Some(i) => Some(self.array[i].0),
            None => None,
        }
    }

    /// The key of the first account named `name`
    pub fn get_account_by_name(&self, name: &str) -> (r: Option<DbId>)
        ensures
            r is None <==> forall|i: int|
                0 <= i < self.spec_accounts().len() ==> self.spec_accounts()[i].2 != name@,
            r matches Some(id) ==> exists|i: int|
                0 <= i < self.spec_accounts().len() && self.spec_accounts()[i].2 == name@
                    && self.spec_accounts()[i].0 == id && forall|k: int|
                    0 <= k < i ==> self.spec_accounts()[k].2 != name@,
    {
        let mut i: usize = 0;
        while i < self.array.len()
            invariant
                i <= self.array@.len(),
                forall|k: int| 0 <= k < i ==> self.spec_accounts()[k].2 != name@,
            decreases self.array@.len() - i,
        {
            if str_eq(self.array[i].2.as_str(), name) {
                assert(self.spec_accounts()[i as int].2 == name@);
                return Some(self.array[i].0);
            }
            i += 1;
        }
        None
    }
}

} // verus!
