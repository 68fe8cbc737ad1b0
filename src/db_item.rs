use vstd::prelude::*;

use crate::account::Account;
use crate::bank_transaction::BankTransaction;
use crate::db_id::DbId;
use crate::error::Error;
use crate::fund::Fund;
use crate::invoice::Invoice;
use crate::ordered::lemma_rename_within;
use crate::rebuild::DatabaseRebuild;
use crate::related_party::RelatedParty;
use crate::transaction::Transaction;

verus! {

/// The kinds of record in the store
#[derive(Debug, Clone, Copy, Hash, PartialEq, Eq, Structural)]
pub enum DbItemType {
    Account,
    BankTransaction,
    Fund,
    Invoice,
    Transaction,
    RelatedParty,
}

/// The payload of a record, tagged by its kind
#[derive(Debug, Clone)]
pub enum DbItemTypeE {
    Account(Account),
    BankTransaction(BankTransaction),
    Fund(Fund),
    Invoice(Invoice),
    RelatedParty(RelatedParty),
    Transaction(Transaction),
}

impl DbItemTypeE {
    /// The kind of the payload
    pub open spec fn spec_itype(&self) -> DbItemType {
        match self {
            DbItemTypeE::Account(_) => DbItemType::Account,
            DbItemTypeE::BankTransaction(_) => DbItemType::BankTransaction,
            DbItemTypeE::Fund(_) => DbItemType::Fund,
            DbItemTypeE::Invoice(_) => DbItemType::Invoice,
            DbItemTypeE::RelatedParty(_) => DbItemType::RelatedParty,
            DbItemTypeE::Transaction(_) => DbItemType::Transaction,
        }
    }

    pub open spec fn wf(&self) -> bool {
        match self {
            DbItemTypeE::Account(a) => a.wf(),
            DbItemTypeE::Fund(f) => f.wf(),
            DbItemTypeE::Invoice(i) => i.wf(),
            DbItemTypeE::RelatedParty(p) => p.wf(),
            _ => true,
        }
    }

    /// Every reference can be rebuilt through `m`
    pub open spec fn refs_resolve(&self, m: Map<DbId, DbId>) -> bool {
        match self {
            DbItemTypeE::Account(a) => a.refs_resolve(m),
            DbItemTypeE::BankTransaction(b) => b.refs_resolve(m),
            DbItemTypeE::Fund(f) => f.refs_resolve(m),
            DbItemTypeE::Invoice(i) => i.refs_resolve(m),
            DbItemTypeE::RelatedParty(p) => p.refs_resolve(m),
            DbItemTypeE::Transaction(t) => t.refs_resolve(m),
        }
    }

    /// `b` is this payload, of the same kind, with its references rebuilt
    /// through `m`
    pub open spec fn renamed(&self, b: &DbItemTypeE, m: Map<DbId, DbId>) -> bool {
        match (self, b) {
            (DbItemTypeE::Account(x), DbItemTypeE::Account(y)) => x.renamed(y, m),
            (DbItemTypeE::BankTransaction(x), DbItemTypeE::BankTransaction(y)) => x.renamed(y, m),
            (DbItemTypeE::Fund(x), DbItemTypeE::Fund(y)) => x.renamed(y, m),
            (DbItemTypeE::Invoice(x), DbItemTypeE::Invoice(y)) => x.renamed(y, m),
            (DbItemTypeE::RelatedParty(x), DbItemTypeE::RelatedParty(y)) => x.renamed(y, m),
            (DbItemTypeE::Transaction(x), DbItemTypeE::Transaction(y)) => x.renamed(y, m),
            _ => false,
        }
    }

    /// Every reference is "none" or one of the keys `s`
    pub open spec fn refs_within(&self, s: Set<DbId>) -> bool {
        match self {
            DbItemTypeE::Account(a) => a.refs_within(s),
            DbItemTypeE::BankTransaction(b) => b.refs_within(s),
            DbItemTypeE::Fund(f) => f.refs_within(s),
            DbItemTypeE::Invoice(i) => i.refs_within(s),
            DbItemTypeE::RelatedParty(p) => p.refs_within(s),
            DbItemTypeE::Transaction(t) => t.refs_within(s),
        }
    }

    /// The kind of the payload
    pub fn itype(&self) -> (r: DbItemType)
        ensures
            r == self.spec_itype(),
    {
        match self {
            DbItemTypeE::Account(_) => DbItemType::Account,
            DbItemTypeE::BankTransaction(_) => DbItemType::BankTransaction,
            DbItemTypeE::Fund(_) => DbItemType::Fund,
            DbItemTypeE::Invoice(_) => DbItemType::Invoice,
            DbItemTypeE::RelatedParty(_) => DbItemType::RelatedParty,
            DbItemTypeE::Transaction(_) => DbItemType::Transaction,
        }
    }

    /// The account, if the payload is one
    pub fn account(&self) -> (r: Option<&Account>)
        ensures
            r is Some == self is Account,
            r matches Some(a) ==> *a == self->Account_0,
    {
        match self {
            DbItemTypeE::Account(a) => Some(a),
            _ => None,
        }
    }

    /// The fund, if the payload is one
    pub fn fund(&self) -> (r: Option<&Fund>)
        ensures
            r is Some == self is Fund,
            r matches Some(a) ==> *a == self->Fund_0,
    {
        match self {
            DbItemTypeE::Fund(a) => Some(a),
            _ => None,
        }
    }

    /// The invoice, if the payload is one
    pub fn invoice(&self) -> (r: Option<&Invoice>)
        ensures
            r is Some == self is Invoice,
            r matches Some(a) ==> *a == self->Invoice_0,
    {
        match self {
            DbItemTypeE::Invoice(a) => Some(a),
            _ => None,
        }
    }

    /// The related party, if the payload is one
    pub fn related_party(&self) -> (r: Option<&RelatedParty>)
        ensures
            r is Some == self is RelatedParty,
            r matches Some(a) ==> *a == self->RelatedParty_0,
    {
        match self {
            DbItemTypeE::RelatedParty(a) => Some(a),
            _ => None,
        }
    }

    /// The bank transaction, if the payload is one
    pub fn bank_transaction(&self) -> (r: Option<&BankTransaction>)
        ensures
            r is Some == self is BankTransaction,
            r matches Some(a) ==> *a == self->BankTransaction_0,
    {
        match self {
            DbItemTypeE::BankTransaction(a) => Some(a),
            _ => None,
        }
    }

    /// The ledger transaction, if the payload is one
    pub fn transaction(&self) -> (r: Option<&Transaction>)
        ensures
            r is Some == self is Transaction,
            r matches Some(a) ==> *a == self->Transaction_0,
    {
        match self {
            DbItemTypeE::Transaction(a) => Some(a),
            _ => None,
        }
    }

    /// Rebuild the payload's references through `database_rebuild`
    pub fn rebuild(&mut self, database_rebuild: &DatabaseRebuild) -> (r: Result<(), Error>)
        requires
            old(self).wf(),
            database_rebuild.wf(),
        ensures
            final(self).wf(),
            final(self).spec_itype() == old(self).spec_itype(),
            r is Ok == old(self).refs_resolve(database_rebuild@),
            r is Ok ==> old(self).renamed(final(self), database_rebuild@),
            r is Err ==> r->Err_0 is UnresolvedReference,
    {
        match self {
            DbItemTypeE::Account(a) => a.rebuild(database_rebuild),
            DbItemTypeE::BankTransaction(b) => b.rebuild(database_rebuild),
            DbItemTypeE::Fund(f) => f.rebuild(database_rebuild),
            DbItemTypeE::Invoice(i) => i.rebuild(database_rebuild),
            DbItemTypeE::RelatedParty(p) => p.rebuild(database_rebuild),
            DbItemTypeE::Transaction(t) => t.rebuild(database_rebuild),
        }
    }
}

/// Rebuilt references that all resolve land among the keys the mapping gives
pub proof fn lemma_renamed_within(
    x: &DbItemTypeE,
    y: &DbItemTypeE,
    m: Map<DbId, DbId>,
    s: Set<DbId>,
)
    requires
        x.refs_resolve(m),
        x.renamed(y, m),
        forall|k: DbId| #[trigger] m.contains_key(k) ==> s.contains(m[k]),
    ensures
        y.refs_within(s),
{
    match (x, y) {
        (DbItemTypeE::Account(a), DbItemTypeE::Account(b)) => {
            lemma_rename_within(a.transactions@, m, s);
        },
        (DbItemTypeE::Fund(a), DbItemTypeE::Fund(b)) => {
            lemma_rename_within(a.transactions@, m, s);
        },
        (DbItemTypeE::Invoice(a), DbItemTypeE::Invoice(b)) => {
            lemma_rename_within(a.transactions@, m, s);
        },
        (DbItemTypeE::RelatedParty(a), DbItemTypeE::RelatedParty(b)) => {
            lemma_rename_within(a.transactions@, m, s);
            lemma_rename_within(a.invoices@, m, s);
        },
        _ => {},
    }
}

/// A record of the store: its key, its kind and its payload
#[derive(Debug, Clone)]
pub struct DbItem {
    pub id: DbId,
    pub itype: DbItemType,
    pub value: DbItemTypeE,
}

impl DbItem {
    /// The kind agrees with the payload
    pub open spec fn wf(&self) -> bool {
        self.itype == self.value.spec_itype() && self.value.wf()
    }

    /// The record with key `id` holding `value`
    pub fn new(id: DbId, value: DbItemTypeE) -> (r: Self)
        ensures
            r.id == id,
            r.itype == value.spec_itype(),
            r.value == value,
    {
        let itype = value.itype();
        DbItem { id, itype, value }
    }

    /// The key of the record
    pub fn id(&self) -> (r: DbId)
        ensures
            r == self.id,
    {
        self.id
    }

    /// The kind of the record
    pub fn itype(&self) -> (r: DbItemType)
        ensures
            r == self.itype,
    {
        self.itype
    }

    /// The account, if the record is one
    pub fn account(&self) -> (r: Option<&Account>)
        ensures
            r is Some == self.value is Account,
            r matches Some(a) ==> *a == self.value->Account_0,
    {
        self.value.account()
    }

    /// The fund, if the record is one
    pub fn fund(&self) -> (r: Option<&Fund>)
        ensures
            r is Some == self.value is Fund,
            r matches Some(a) ==> *a == self.value->Fund_0,
    {
        self.value.fund()
    }

    /// The invoice, if the record is one
    pub fn invoice(&self) -> (r: Option<&Invoice>)
        ensures
            r is Some == self.value is Invoice,
            r matches Some(a) ==> *a == self.value->Invoice_0,
    {
        self.value.invoice()
    }

    /// The related party, if the record is one
    pub fn related_party(&self) -> (r: Option<&RelatedParty>)
        ensures
            r is Some == self.value is RelatedParty,
            r matches Some(a) ==> *a == self.value->RelatedParty_0,
    {
        self.value.related_party()
    }

    /// The bank transaction, if the record is one
    pub fn bank_transaction(&self) -> (r: Option<&BankTransaction>)
        ensures
            r is Some == self.value is BankTransaction,
            r matches Some(a) ==> *a == self.value->BankTransaction_0,
    {
        self.value.bank_transaction()
    }

    /// The ledger transaction, if the record is one
    pub fn transaction(&self) -> (r: Option<&Transaction>)
        ensures
            r is Some == self.value is Transaction,
            r matches Some(a) ==> *a == self.value->Transaction_0,
    {
        self.value.transaction()
    }
}

} // verus!
