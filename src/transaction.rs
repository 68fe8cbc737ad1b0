use vstd::prelude::*;

use crate::amount::Amount;
use crate::base_types::Date;
use crate::db_id::DbId;
use crate::error::Error;
use crate::names::views;
use crate::rebuild::{id_resolves, id_within, rename_id, DatabaseRebuild};

verus! {

/// The kind of a ledger transaction
#[derive(Debug, Default, Clone, Copy, Hash, PartialEq, Eq, Structural)]
pub enum TransactionType {
    #[default]
    FundTransfer,
    FromRp,
    ToRp,
    CaptialRevaluation,
}

impl TransactionType {
    /// True for a payment to a related party
    pub fn is_to_rp(&self) -> (r: bool)
        ensures
            r == (*self is ToRp),
    {
        match self {
            TransactionType::ToRp => true,
            _ => false,
        }
    }

    /// True for income from a related party
    pub fn is_from_rp(&self) -> (r: bool)
        ensures
            r == (*self is FromRp),
    {
        match self {
            TransactionType::FromRp => true,
            _ => false,
        }
    }

    /// True for a capital revaluation
    pub fn is_revaluation(&self) -> (r: bool)
        ensures
            r == (*self is CaptialRevaluation),
    {
        match self {
            TransactionType::CaptialRevaluation => true,
            _ => false,
        }
    }

    /// True for a transfer between funds
    pub fn is_fund_transfer(&self) -> (r: bool)
        ensures
            r == (*self is FundTransfer),
    {
        match self {
            TransactionType::FundTransfer => true,
            _ => false,
        }
    }
}

/// A ledger transaction: an amount moved from a debited record to a
/// credited one
#[derive(Debug, Clone)]
pub struct Transaction {
    pub date: Date,
    pub ttype: TransactionType,
    pub debit_id: DbId,
    pub credit_id: DbId,
    pub amount: Amount,
    pub notes: Vec<String>,
}

impl Transaction {
    /// Every reference can be rebuilt through `m`
    pub open spec fn refs_resolve(&self, m: Map<DbId, DbId>) -> bool {
        id_resolves(self.debit_id, m) && id_resolves(self.credit_id, m)
    }

    /// `b` is this transaction with its references rebuilt through `m`
    pub open spec fn renamed(&self, b: &Transaction, m: Map<DbId, DbId>) -> bool {
        &&& b.date == self.date
        &&& b.ttype == self.ttype
        &&& b.amount == self.amount
        &&& views(b.notes@) == views(self.notes@)
        &&& b.debit_id == rename_id(self.debit_id, m)
        &&& b.credit_id == rename_id(self.credit_id, m)
    }

    /// Every reference is "none" or one of the keys `s`
    pub open spec fn refs_within(&self, s: Set<DbId>) -> bool {
        id_within(self.debit_id, s) && id_within(self.credit_id, s)
    }

    /// A transaction with no notes
    pub fn new(date: Date, ttype: TransactionType, amount: Amount, debit_id: DbId, credit_id: DbId) -> (r: Self)
        ensures
            r.date == date && r.ttype == ttype && r.amount == amount,
            r.debit_id == debit_id && r.credit_id == credit_id,
            r.notes@.len() == 0,
    {
        Transaction { date, ttype, debit_id, credit_id, amount, notes: Vec::new() }
    }

    /// A payment from a fund to a related party
    pub fn new_payment(date: Date, amount: Amount, from_fund_id: DbId, to_id: DbId) -> (r: Self)
        ensures
            r.date == date && r.ttype == TransactionType::ToRp && r.amount == amount,
            r.debit_id == from_fund_id && r.credit_id == to_id,
            r.notes@.len() == 0,
    {
        Self::new(date, TransactionType::ToRp, amount, from_fund_id, to_id)
    }

    /// Income from a related party into a fund
    pub fn new_income(date: Date, amount: Amount, from_id: DbId, to_fund_id: DbId) -> (r: Self)
        ensures
            r.date == date && r.ttype == TransactionType::FromRp && r.amount == amount,
            r.debit_id == from_id && r.credit_id == to_fund_id,
            r.notes@.len() == 0,
    {
        Self::new(date, TransactionType::FromRp, amount, from_id, to_fund_id)
    }

    /// The date of the transaction
    pub fn date(&self) -> (r: Date)
        ensures
            r == self.date,
    {
        self.date
    }

    /// The amount moved
    pub fn amount(&self) -> (r: Amount)
        ensures
            r == self.amount,
    {
        self.amount
    }

    /// The kind of the transaction
    pub fn ttype(&self) -> (r: TransactionType)
        ensures
            r == self.ttype,
    {
        self.ttype
    }

    /// The keys of the debited and the credited record
    pub fn db_ids(&self) -> (r: (DbId, DbId))
        ensures
            r == (self.debit_id, self.credit_id),
    {
        (self.debit_id, self.credit_id)
    }

    /// The notes on the transaction
    pub fn notes(&self) -> (r: &[String])
        ensures
            r@ == self.notes@,
    {
        self.notes.as_slice()
    }

    /// Remove every note
    pub fn clear_notes(&mut self)
        ensures
            final(self).notes@.len() == 0,
            *final(self) == (Transaction { notes: final(self).notes, ..*old(self) }),
    {
        self.notes.clear();
    }

    /// Add a note
    pub fn add_note(&mut self, note: String)
        ensures
            final(self).notes@ == old(self).notes@.push(note),
            *final(self) == (Transaction { notes: final(self).notes, ..*old(self) }),
    {
        self.notes.push(note);
    }

    /// The change the transaction makes to record `db_id`: less the amount
    /// if it is debited, the amount if it is credited, nothing otherwise
    pub fn balance_delta_for(&self, db_id: DbId) -> (r: Option<Amount>)
        requires
            self.amount.value > isize::MIN,
        ensures
            self.debit_id == db_id ==> (r matches Some(a) && a.value == -self.amount.value),
            self.debit_id != db_id && self.credit_id == db_id ==> r == Some(self.amount),
            self.debit_id != db_id && self.credit_id != db_id ==> r is None,
    {
        if self.debit_id == db_id {
            Some(Amount { value: -self.amount.value })
        } else if self.credit_id == db_id {
            Some(self.amount)
        } else {
            None
        }
    }

    /// Rebuild the transaction's references through `database_rebuild`
    pub fn rebuild(&mut self, database_rebuild: &DatabaseRebuild) -> (r: Result<(), Error>)
        requires
            database_rebuild.wf(),
        ensures
            r is Ok == old(self).refs_resolve(database_rebuild@),
            r is Ok ==> old(self).renamed(final(self), database_rebuild@),
            r is Err ==> r->Err_0 is UnresolvedReference,
    {
        let d = database_rebuild.rename_ref("transaction debit", self.debit_id)?;
        let c = database_rebuild.rename_ref("transaction credit", self.credit_id)?;
        self.debit_id = d;
        self.credit_id = c;
        Ok(())
    }
}

/// The ledger transactions of the store, by key
pub struct DbTransactions {
    array: Vec<DbId>,
}

impl DbTransactions {
    /// The keys, in the order they were added
    pub closed spec fn spec_ids(&self) -> Seq<DbId> {
        self.array@
    }

    /// No transactions
    pub fn new() -> (r: Self)
        ensures
            r.spec_ids().len() == 0,
    {
        DbTransactions { array: Vec::new() }
    }

    /// The key of the `n`th transaction added
    pub fn map_nth(&self, n: usize) -> (r: Option<DbId>)
        ensures
            r == (if n < self.spec_ids().len() {
                Some(self.spec_ids()[n as int])
            } else {
                None::<DbId>
            }),
    {
        if n < self.array.len() {
            Some(self.array[n])
        } else {
            None
        }
    }

    /// The keys, in the order they were added
    pub fn db_ids(&self) -> (r: Vec<DbId>)
        ensures
            r@ == self.spec_ids(),
    {
        self.array.clone()
    }

    /// Add the transaction `id`
    pub fn add_transaction(&mut self, id: DbId) -> (r: bool)
        ensures
            r,
            final(self).spec_ids() == old(self).spec_ids().push(id),
    {
        self.array.push(id);
        true
    }
}

} // verus!
