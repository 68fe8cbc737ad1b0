use vstd::prelude::*;

use crate::amount::Amount;
use crate::base_types::Date;
use crate::db_id::DbId;
use crate::error::Error;
use crate::names::NameIndex;
use crate::ordered::{buckets_within, ids_resolve, rename_buckets, spec_push, OrderedTransactions};
use crate::rebuild::{id_resolves, id_within, rename_id, DatabaseRebuild};

verus! {

/// An invoice from a supplier, with the payments made against it
#[derive(Debug, Clone)]
pub struct Invoice {
    pub reason: String,
    pub filename: String,
    pub supplier_id: DbId,
    pub amount: Amount,
    pub transactions: OrderedTransactions,
}

impl Invoice {
    pub open spec fn wf(&self) -> bool {
        self.transactions.wf()
    }

    /// Every reference can be rebuilt through `m`
    pub open spec fn refs_resolve(&self, m: Map<DbId, DbId>) -> bool {
        id_resolves(self.supplier_id, m) && ids_resolve(self.transactions@, m)
    }

    /// `b` is this invoice with its references rebuilt through `m`
    pub open spec fn renamed(&self, b: &Invoice, m: Map<DbId, DbId>) -> bool {
        &&& b.reason@ == self.reason@
        &&& b.filename@ == self.filename@
        &&& b.amount == self.amount
        &&& b.supplier_id == rename_id(self.supplier_id, m)
        &&& b.transactions@ == rename_buckets(self.transactions@, m)
    }

    /// Every reference is "none" or one of the keys `s`
    pub open spec fn refs_within(&self, s: Set<DbId>) -> bool {
        id_within(self.supplier_id, s) && buckets_within(self.transactions@, s)
    }

    /// An invoice with no payments against it
    pub fn new(supplier_id: DbId, reason: String, filename: String, amount: Amount) -> (r: Self)
        ensures
            r.wf(),
            r.supplier_id == supplier_id && r.reason == reason && r.filename == filename,
            r.amount == amount,
            r.transactions@.len() == 0,
    {
        Invoice { reason, filename, supplier_id, amount, transactions: OrderedTransactions::new() }
    }

    /// What the invoice is for
    pub fn reason(&self) -> (r: &str)
        ensures
            r@ == self.reason@,
    {
        self.reason.as_str()
    }

    /// The file holding the invoice
    pub fn filename(&self) -> (r: &str)
        ensures
            r@ == self.filename@,
    {
        self.filename.as_str()
    }

    /// The key of the supplier
    pub fn supplier_id(&self) -> (r: DbId)
        ensures
            r == self.supplier_id,
    {
        self.supplier_id
    }

    /// The amount invoiced
    pub fn amount(&self) -> (r: Amount)
        ensures
            r == self.amount,
    {
        self.amount
    }

    /// Forget every payment against the invoice
    pub fn clear_transactions(&mut self)
        ensures
            final(self).wf(),
            final(self).transactions@.len() == 0,
            *final(self) == (Invoice { transactions: final(self).transactions, ..*old(self) }),
    {
        self.transactions = OrderedTransactions::new();
    }

    /// Record the payment `t_id` dated `date` against the invoice
    pub fn add_transaction(&mut self, date: Date, t_id: DbId)
        requires
            old(self).wf(),
        ensures
            final(self).wf(),
            final(self).transactions@ == spec_push(old(self).transactions@, date.value, t_id),
            *final(self) == (Invoice { transactions: final(self).transactions, ..*old(self) }),
    {
        self.transactions.push_to_date(date, t_id);
    }

    /// Rebuild the invoice's references through `database_rebuild`
    pub fn rebuild(&mut self, database_rebuild: &DatabaseRebuild) -> (r: Result<(), Error>)
        requires
            old(self).wf(),
            database_rebuild.wf(),
        ensures
            final(self).wf(),
            r is Ok == old(self).refs_resolve(database_rebuild@),
            r is Ok ==> old(self).renamed(final(self), database_rebuild@),
            r is Err ==> r->Err_0 is UnresolvedReference,
    {
        let s = database_rebuild.rename_ref("invoice supplier", self.supplier_id)?;
        self.transactions.rebuild(database_rebuild)?;
        self.supplier_id = s;
        Ok(())
    }
}

/// The invoices of the store, by key, with a lookup by reason
pub struct DbInvoices {
    array: Vec<DbId>,
    map: NameIndex,
}

impl DbInvoices {
    /// The keys, in the order they were added
    pub closed spec fn spec_ids(&self) -> Seq<DbId> {
        self.array@
    }

    /// The reasons, with the key of the invoice for each
    pub closed spec fn spec_reasons(&self) -> Map<Seq<char>, DbId> {
        self.map@
    }

    pub closed spec fn wf(&self) -> bool {
        self.map.wf()
    }

    /// No invoices
    pub fn new() -> (r: Self)
        ensures
            r.wf(),
            r.spec_ids().len() == 0,
            r.spec_reasons() == Map::<Seq<char>, DbId>::empty(),
    {
        DbInvoices { array: Vec::new(), map: NameIndex::new() }
    }

    /// The key of the `n`th invoice added
    pub fn map_nth(&self, n: usize) -> (r: Option<DbId>)
        ensures
            r == (if n < self.spec_ids().len() {
                Some(self.spec_ids()[n as int])
            } else {
                None::<DbId>
            }),
    {
        if n < self.array.len() {
            Some(self.array[n])
        } else {
            None
        }
    }

    /// The keys, in the order they were added
    pub fn ids(&self) -> (r: Vec<DbId>)
        ensures
            r@ == self.spec_ids(),
    {
        self.array.clone()
    }

    /// Add invoice `id` for `reason`, unless an invoice has that reason
    pub fn add_invoice(&mut self, id: DbId, reason: &str) -> (r: bool)
        requires
            old(self).wf(),
        ensures
            final(self).wf(),
            r == !old(self).spec_reasons().contains_key(reason@),
            r ==> final(self).spec_ids() == old(self).spec_ids().push(id)
                && final(self).spec_reasons() == old(self).spec_reasons().insert(reason@, id),
            !r ==> final(self).spec_ids() == old(self).spec_ids() && final(self).spec_reasons()
                == old(self).spec_reasons(),
    {
        if self.map.contains(reason) {
            return false;
        }
        self.array.push(id);
        self.map.insert(reason.to_owned(), id);
        true
    }

    /// Enter the loaded invoice `invoice`, keyed `id`; fails, changing
    /// nothing, if an invoice has its reason
    pub fn rebuild_add_invoice(&mut self, id: DbId, invoice: &Invoice) -> (r: Result<(), Error>)
        requires
            old(self).wf(),
        ensures
            final(self).wf(),
            r is Ok == !old(self).spec_reasons().contains_key(invoice.reason@),
            r is Ok ==> final(self).spec_ids() == old(self).spec_ids().push(id)
                && final(self).spec_reasons() == old(self).spec_reasons().insert(invoice.reason@, id),
            r is Err ==> final(self).spec_ids() == old(self).spec_ids() && final(self).spec_reasons()
                == old(self).spec_reasons() && r->Err_0 is DuplicateName,
    {
        if self.add_invoice(id, invoice.reason.as_str()) {
            Ok(())
        } else {
            Err(Error::DuplicateName(invoice.reason.clone()))
        }
    }

    /// True if an invoice has the reason `reason`
    pub fn has_invoice(&self, reason: &str) -> (r: bool)
        requires
            self.wf(),
        ensures
            r == self.spec_reasons().contains_key(reason@),
    {
        self.map.contains(reason)
    }

    /// The key of the invoice with the reason `reason`
    pub fn get_invoice(&self, reason: &str) -> (r: Option<DbId>)
        requires
            self.wf(),
        ensures
            r == (if self.spec_reasons().contains_key(reason@) {
                Some(self.spec_reasons()[reason@])
            } else {
                None::<DbId>
            }),
    {
        self.map.get(reason)
    }
}

} // verus!
