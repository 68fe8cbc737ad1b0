use vstd::prelude::*;

use crate::account_desc::AccountDesc;
use crate::amount::Amount;
use crate::base_types::{str_eq, Date};
use crate::db_id::DbId;
use crate::error::Error;
use crate::rebuild::{id_resolves, id_within, rename_id, DatabaseRebuild};

verus! {

/// The kind of a bank transaction, as the bank names it
#[derive(Debug, Default, Clone, Copy, Hash, PartialEq, Eq, Structural)]
pub enum BankTransactionType {
    #[default]
    Unknown,
    StandingOrder,
    BacsIn,
    Fpi,
    Deposit,
    DirectDebit,
}

impl BankTransactionType {
    /// The kind the bank's code `s` names: "SO", "BGC", "FPI" and "DD" are
    /// known; any other code is unknown
    pub fn parse(s: &str, is_debit: bool) -> (r: Result<Self, Error>)
        ensures
            r is Ok,
            s@ == "SO"@ ==> r == Ok::<Self, Error>(BankTransactionType::StandingOrder),
            s@ == "BGC"@ ==> r == Ok::<Self, Error>(BankTransactionType::BacsIn),
            s@ == "FPI"@ ==> r == Ok::<Self, Error>(BankTransactionType::Fpi),
            s@ == "DD"@ ==> r == Ok::<Self, Error>(BankTransactionType::DirectDebit),
            s@ != "SO"@ && s@ != "BGC"@ && s@ != "FPI"@ && s@ != "DD"@ ==> r == Ok::<Self, Error>(
                BankTransactionType::Unknown,
            ),
    {
        proof {
            reveal_strlit("SO");
            reveal_strlit("BGC");
            reveal_strlit("FPI");
            reveal_strlit("DD");
            assert("SO"@[0] != "DD"@[0]);
            assert("BGC"@[0] != "FPI"@[0]);
            assert("SO"@.len() != "BGC"@.len() && "SO"@.len() != "FPI"@.len());
            assert("DD"@.len() != "BGC"@.len() && "DD"@.len() != "FPI"@.len());
        }
        if str_eq(s, "SO") {
            Ok(BankTransactionType::StandingOrder)
        } else if str_eq(s, "BGC") {
            Ok(BankTransactionType::BacsIn)
        } else if str_eq(s, "FPI") {
            Ok(BankTransactionType::Fpi)
        } else if str_eq(s, "DD") {
            Ok(BankTransactionType::DirectDebit)
        } else {
            Ok(BankTransactionType::Unknown)
        }
    }
}

/// A transaction as a bank reports it, on one of the store's accounts
#[derive(Debug, Clone)]
pub struct BankTransaction {
    pub date: Date,
    pub ordering: usize,
    pub ttype: BankTransactionType,
    pub account_id: DbId,
    pub account_desc: AccountDesc,
    pub description: String,
    pub debit: Amount,
    pub credit: Amount,
    pub balance: Amount,
    pub related_party: DbId,
}

impl BankTransaction {
    /// Every reference can be rebuilt through `m`
    pub open spec fn refs_resolve(&self, m: Map<DbId, DbId>) -> bool {
        id_resolves(self.account_id, m) && id_resolves(self.related_party, m)
    }

    /// `b` is this transaction with its references rebuilt through `m`
    pub open spec fn renamed(&self, b: &BankTransaction, m: Map<DbId, DbId>) -> bool {
        &&& b.date == self.date
        &&& b.ordering == self.ordering
        &&& b.ttype == self.ttype
        &&& b.account_desc == self.account_desc
        &&& b.description@ == self.description@
        &&& b.debit == self.debit
        &&& b.credit == self.credit
        &&& b.balance == self.balance
        &&& b.account_id == rename_id(self.account_id, m)
        &&& b.related_party == rename_id(self.related_party, m)
    }

    /// Every reference is "none" or one of the keys `s`
    pub open spec fn refs_within(&self, s: Set<DbId>) -> bool {
        id_within(self.account_id, s) && id_within(self.related_party, s)
    }

    /// A transaction on no account in the store and with no related party
    pub fn new(
        date: Date,
        ttype: BankTransactionType,
        account_desc: AccountDesc,
        description: String,
        debit: Amount,
        credit: Amount,
        balance: Amount,
    ) -> (r: Self)
        ensures
            r == (BankTransaction {
                date,
                ordering: 0,
                ttype,
                account_id: DbId { id: 0 },
                account_desc,
                description,
                debit,
                credit,
                balance,
                related_party: DbId { id: 0 },
            }),
    {
        BankTransaction {
            date,
            ordering: 0,
            ttype,
            account_id: DbId::none(),
            account_desc,
            description,
            debit,
            credit,
            balance,
            related_party: DbId::none(),
        }
    }

    /// The account balance after the transaction
    pub fn balance(&self) -> (r: Amount)
        ensures
            r == self.balance,
    {
        self.balance
    }

    /// The change the transaction makes to the balance: credit less debit
    pub fn balance_delta(&self) -> (r: Amount)
        requires
            isize::MIN <= self.credit.value - self.debit.value <= isize::MAX,
        ensures
            r.value == self.credit.value - self.debit.value,
    {
        Amount { value: self.credit.value - self.debit.value }
    }

    /// The bank's description of the account
    pub fn account_desc(&self) -> (r: &AccountDesc)
        ensures
            *r == self.account_desc,
    {
        &self.account_desc
    }

    /// The key of the account in the store
    pub fn account_id(&self) -> (r: DbId)
        ensures
            r == self.account_id,
    {
        self.account_id
    }

    /// The date of the transaction
    pub fn date(&self) -> (r: Date)
        ensures
            r == self.date,
    {
        self.date
    }

    /// The key of the related party, or "none"
    pub fn related_party(&self) -> (r: DbId)
        ensures
            r == self.related_party,
    {
        self.related_party
    }

    /// The bank's description of the transaction
    pub fn description(&self) -> (r: &str)
        ensures
            r@ == self.description@,
    {
        self.description.as_str()
    }

    /// Set the related party
    pub fn set_related_party(&mut self, related_party: DbId)
        ensures
            *final(self) == (BankTransaction { related_party, ..*old(self) }),
    {
        self.related_party = related_party;
    }

    /// Set the account
    pub fn set_account_id(&mut self, account_id: DbId)
        ensures
            *final(self) == (BankTransaction { account_id, ..*old(self) }),
    {
        self.account_id = account_id;
    }

    /// Rebuild the transaction's references through `database_rebuild`
    pub fn rebuild(&mut self, database_rebuild: &DatabaseRebuild) -> (r: Result<(), Error>)
        requires
            database_rebuild.wf(),
        ensures
            r is Ok == old(self).refs_resolve(database_rebuild@),
            r is Ok ==> old(self).renamed(final(self), database_rebuild@),
            r is Err ==> r->Err_0 is UnresolvedReference,
    {
        let rp = database_rebuild.rename_ref("bank transaction related party", self.related_party)?;
        let acc = database_rebuild.rename_ref("bank transaction account", self.account_id)?;
        self.related_party = rp;
        self.account_id = acc;
        Ok(())
    }
}

/// The bank transactions of the store, by key
pub struct DbBankTransactions {
    array: Vec<DbId>,
}

impl DbBankTransactions {
    /// The keys, in the order they were added
    pub closed spec fn spec_ids(&self) -> Seq<DbId> {
        self.array@
    }

    /// No transactions
    pub fn new() -> (r: Self)
        ensures
            r.spec_ids().len() == 0,
    {
        DbBankTransactions { array: Vec::new() }
    }

    /// The keys, in the order they were added
    pub fn db_ids(&self) -> (r: Vec<DbId>)
        ensures
            r@ == self.spec_ids(),
    {
        self.array.clone()
    }

    /// Enter the loaded bank transaction keyed `id`; this always succeeds
    pub fn rebuild_add_bank_transaction(&mut self, id: DbId) -> (r: Result<(), Error>)
        ensures
            r is Ok,
            final(self).spec_ids() == old(self).spec_ids().push(id),
    {
        self.add_transaction(id);
        Ok(())
    }

    /// Add the transaction `id`
    pub fn add_transaction(&mut self, id: DbId) -> (r: bool)
        ensures
            r,
            final(self).spec_ids() == old(self).spec_ids().push(id),
    {
        self.array.push(id);
        true
    }
}

} // verus!
