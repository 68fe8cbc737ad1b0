//! An in-memory store of accounts, funds, related parties and transactions.
//!
//! Every record lives in one arena keyed by a surrogate [DbId]; the typed
//! collections and the per-record date indexes hold keys only.  A store can
//! be written out as an ordered sequence of records and loaded back, the load
//! re-keying every record and rewriting every cross-reference.
mod calendar;

mod pattern;

pub mod error;
pub use error::Error;

pub mod db_id;
pub use db_id::DbId;

pub mod base_types;
pub use base_types::{Date, DateRange, Entity, FileFormat, FileType, Ordering};

pub mod amount;
pub use amount::Amount;

pub mod rebuild;
pub use rebuild::DatabaseRebuild;

pub mod ordered;
pub use ordered::{OTCursor, OrderedTransactions};

pub mod related_parties;
pub use related_parties::{RelatedParties, RelatedPartiesCache};

pub mod names;
pub use names::NameIndex;

pub mod account;
pub use account::{Account, AccountSummary, AccountSummaryOwned, DbAccounts};

pub mod fund;
pub use fund::{DbFunds, Fund};

pub mod related_party;
pub use related_party::{
    DbRelatedParties, RelatedParty, RelatedPartyQuery, RelatedPartySummary, RelatedPartySummaryOwned,
    RelatedPartyType,
};

pub mod bank_transaction;
pub use bank_transaction::{BankTransaction, BankTransactionType, DbBankTransactions};

pub mod transaction;
pub use transaction::{DbTransactions, Transaction, TransactionType};

pub mod invoice;
pub use invoice::{DbInvoices, Invoice};

pub mod account_transaction;
pub use account_transaction::{AccTransaction, AccTransactionType};

pub mod db_item;
pub use db_item::{DbItem, DbItemType, DbItemTypeE};

pub mod database;
pub use database::{Database, DatabaseState};

pub mod db_query;
pub use db_query::DbQuery;

pub mod member;
pub use member::{DbMembers, Member};

pub mod receivables;
pub use receivables::Receivable;

pub mod account_desc;
pub use account_desc::AccountDesc;
