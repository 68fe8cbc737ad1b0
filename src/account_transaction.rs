use vstd::prelude::*;

use crate::account_desc::AccountDesc;
use crate::amount::Amount;
use crate::base_types::{str_eq, Date};
use crate::db_id::DbId;
use crate::error::Error;

verus! {

/// The kind of an account transaction, as the bank names it
#[derive(Debug, Default, Clone, Copy, Hash, PartialEq, Eq, Structural)]
pub enum AccTransactionType {
    #[default]
    Unknown,
    StandingOrder,
    BacsIn,
    Fpi,
    Deposit,
    DirectDebit,
}

impl AccTransactionType {
    /// The kind the bank's code `s` names: "SO", "BGC", "FPI" and "DD" are
    /// known; any other code is unknown
    pub fn parse(s: &str, is_debit: bool) -> (r: Result<Self, Error>)
        ensures
            r is Ok,
            s@ == "SO"@ ==> r == Ok::<Self, Error>(AccTransactionType::StandingOrder),
            s@ == "BGC"@ ==> r == Ok::<Self, Error>(AccTransactionType::BacsIn),
            s@ == "FPI"@ ==> r == Ok::<Self, Error>(AccTransactionType::Fpi),
            s@ == "DD"@ ==> r == Ok::<Self, Error>(AccTransactionType::DirectDebit),
            s@ != "SO"@ && s@ != "BGC"@ && s@ != "FPI"@ && s@ != "DD"@ ==> r == Ok::<Self, Error>(
                AccTransactionType::Unknown,
            ),
    {
        proof {
            reveal_strlit("SO");
            reveal_strlit("BGC");
            reveal_strlit("FPI");
            reveal_strlit("DD");
            assert("SO"@[0] != "DD"@[0]);
            assert("BGC"@[0] != "FPI"@[0]);
            assert("SO"@.len() != "BGC"@.len() && "SO"@.len() != "FPI"@.len());
            assert("DD"@.len() != "BGC"@.len() && "DD"@.len() != "FPI"@.len());
        }
        if str_eq(s, "SO") {
            Ok(AccTransactionType::StandingOrder)
        } else if str_eq(s, "BGC") {
            Ok(AccTransactionType::BacsIn)
        } else if str_eq(s, "FPI") {
            Ok(AccTransactionType::Fpi)
        } else if str_eq(s, "DD") {
            Ok(AccTransactionType::DirectDebit)
        } else {
            Ok(AccTransactionType::Unknown)
        }
    }
}

/// A transaction on an account as a statement lists it
#[derive(Debug, Default)]
pub struct AccTransaction {
    pub date: Date,
    pub ordering: usize,
    pub ttype: AccTransactionType,
    pub account_id: DbId,
    pub account_desc: AccountDesc,
    pub description: String,
    pub debit: Amount,
    pub credit: Amount,
    pub balance: Amount,
    pub related_party: Option<DbId>,
}

impl AccTransaction {
    /// The change the transaction makes to the balance: credit less debit
    pub fn balance_delta(&self) -> (r: Amount)
        requires
            isize::MIN <= self.credit.value - self.debit.value <= isize::MAX,
        ensures
            r.value == self.credit.value - self.debit.value,
    {
        Amount { value: self.credit.value - self.debit.value }
    }

    /// The bank's description of the account
    pub fn account_desc(&self) -> (r: &AccountDesc)
        ensures
            *r == self.account_desc,
    {
        &self.account_desc
    }

    /// The date of the transaction
    pub fn date(&self) -> (r: Date)
        ensures
            r == self.date,
    {
        self.date
    }
}

} // verus!
