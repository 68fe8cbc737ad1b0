use rust_accounts::{
    Account, AccountDesc, Amount, BankTransaction, BankTransactionType, Database, Date, DateRange,
    DbId, Fund, RelatedParty, RelatedPartyType, Transaction,
};

fn bt(desc: AccountDesc, day: usize, text: &str, credit: isize) -> BankTransaction {
    BankTransaction::new(
        Date::of_days(day),
        BankTransactionType::Fpi,
        desc,
        text.to_string(),
        Amount::of_pence(0),
        Amount::of_pence(credit),
        Amount::of_pence(credit),
    )
}

#[test]
fn bank_transactions_join_account_and_link_party() {
    let mut db = Database::new();
    let desc = AccountDesc::uk(101114, 12345678);
    let acc = db.add_account(Account::new("Lloyds".to_string(), "Current".to_string(), desc)).ok().unwrap();
    let mut p = RelatedParty::new("Blob".to_string(), 9, RelatedPartyType::Member);
    p.add_account_descr("BLOB BLOB-SUB".to_string());
    let rp = db.add_related_party(p).ok().unwrap();

    let id = db.add_account_bank_transaction(acc, bt(desc, 20, "BLOB BLOB-SUB 0000 05FEB25", 332)).ok().unwrap();
    let b = db.get(id).unwrap().bank_transaction().unwrap();
    assert_eq!(b.account_id(), acc);
    assert_eq!(b.related_party(), rp);
    let a = db.get(acc).unwrap().account().unwrap();
    assert_eq!(a.transactions_in_range(DateRange::of_dates(Date::of_days(1), Date::of_days(100))), vec![id]);

    assert!(db.add_account_bank_transaction(DbId::of_usize(99), bt(desc, 21, "X", 1)).is_err());
}

#[test]
fn bank_transactions_must_match_the_account() {
    let mut db = Database::new();
    let desc = AccountDesc::uk(1, 1);
    let acc = db.add_account(Account::new("B".to_string(), "A".to_string(), desc)).ok().unwrap();
    let wrong = vec![bt(desc, 5, "ONE", 1), bt(AccountDesc::uk(2, 2), 6, "TWO", 2)];
    let back = db.add_account_bank_transactions(acc, wrong).err().unwrap();
    assert_eq!(back.len(), 2);
    assert_eq!(db.serialize_as_array().len(), 1);

    let right = vec![bt(desc, 7, "ONE", 1), bt(desc, 5, "TWO", 2)];
    assert!(db.add_account_bank_transactions(acc, right).is_ok());
    assert_eq!(db.bank_transactions().db_ids().len(), 2);
    let a = db.get(acc).unwrap().account().unwrap();
    let ids = a.transactions_in_range(DateRange::of_dates(Date::of_days(1), Date::of_days(10)));
    assert_eq!(ids, vec![DbId::of_usize(3), DbId::of_usize(2)]);
}

#[test]
fn ledger_transactions_enter_fund_and_party_indexes() {
    let mut db = Database::new();
    let f = db.add_fund(Fund::new("General", "")).ok().unwrap();
    let p = db.add_related_party(RelatedParty::new("Donor".to_string(), 4, RelatedPartyType::Donor)).ok().unwrap();
    let t = db.add_transaction(Transaction::new_income(Date::of_days(30), Amount::of_pence(500), p, f));
    assert!(db.index_transaction(t));
    let fund = db.get(f).unwrap().fund().unwrap();
    assert!(fund.transactions.date_contains(Date::of_days(30), t));
    let party = db.get(p).unwrap().related_party().unwrap();
    assert!(party.transactions.date_contains(Date::of_days(30), t));
    assert!(!db.index_transaction(t));
    assert!(!db.index_transaction(f));

    let bad = db.add_transaction(Transaction::new_income(Date::of_days(31), Amount::of_pence(5), f, f));
    assert!(!db.index_transaction(bad));
}
