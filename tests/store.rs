use rust_accounts::{
    Account, AccountDesc, Amount, BankTransaction, BankTransactionType, Database, DatabaseRebuild,
    Date, DbId, DbItem, DbItemType, DbItemTypeE, Error, Fund, Invoice, RelatedParty,
    RelatedPartyType, Transaction, TransactionType,
};

fn id(n: usize) -> DbId {
    DbId::of_usize(n)
}

fn fund_item(key: usize, name: &str) -> DbItem {
    DbItem::new(id(key), DbItemTypeE::Fund(Fund::new(name, "")))
}

#[test]
fn duplicate_source_key_fails_load() {
    let items = vec![fund_item(7, "a"), fund_item(3, "b"), fund_item(3, "c")];
    match Database::load(items) {
        Err(Error::DuplicateItemId(k)) => assert_eq!(k, id(3)),
        _ => panic!("expected a duplicate key error"),
    }
}

#[test]
fn load_rekeys_in_input_order() {
    let mut fund = Fund::new("general", "day to day");
    fund.add_transaction(Date::of_days(100), id(30));
    let t = Transaction::new(Date::of_days(100), TransactionType::FundTransfer, Amount::of_pence(250), id(20), id(20));
    let items = vec![
        DbItem::new(id(20), DbItemTypeE::Fund(fund)),
        DbItem::new(id(30), DbItemTypeE::Transaction(t)),
    ];
    let db = Database::load(items).ok().unwrap();
    let out = db.serialize_as_array();
    assert_eq!(out.len(), 2);
    assert_eq!(out[0].id(), id(1));
    assert_eq!(out[1].id(), id(2));
    assert_eq!(out[0].itype(), DbItemType::Fund);
    let f = db.get(id(1)).unwrap().fund().unwrap();
    assert_eq!(f.name(), "general");
    let c = f.transactions.cursor_first();
    assert_eq!(f.transactions.cursor_id(&c), Some(id(2)));
    let t = db.get(id(2)).unwrap().transaction().unwrap();
    assert_eq!(t.db_ids(), (id(1), id(1)));
    assert!(db.get(id(20)).is_none());
    assert_eq!(db.funds().get_fund("general"), Some(id(1)));
    assert_eq!(db.transactions().db_ids(), vec![id(2)]);
}

#[test]
fn load_twice_gives_same_keys() {
    let make = || vec![fund_item(9, "x"), fund_item(4, "y"), fund_item(6, "z")];
    let a = Database::load(make()).ok().unwrap();
    let b = Database::load(make()).ok().unwrap();
    let ka: Vec<DbId> = a.serialize_as_array().iter().map(|x| x.id()).collect();
    let kb: Vec<DbId> = b.serialize_as_array().iter().map(|x| x.id()).collect();
    assert_eq!(ka, kb);
    assert_eq!(ka, vec![id(1), id(2), id(3)]);
}

#[test]
fn unresolved_reference_fails_load() {
    let mut bt = BankTransaction::new(
        Date::of_days(5),
        BankTransactionType::Fpi,
        AccountDesc::uk(101114, 12345678),
        "PAYMENT".to_string(),
        Amount::of_pence(0),
        Amount::of_pence(500),
        Amount::of_pence(500),
    );
    bt.set_account_id(id(99));
    let items = vec![fund_item(1, "a"), DbItem::new(id(2), DbItemTypeE::BankTransaction(bt))];
    match Database::load(items) {
        Err(Error::UnresolvedReference(_, k)) => assert_eq!(k, id(99)),
        _ => panic!("expected an unresolved reference"),
    }
}

#[test]
fn references_resolve_after_load() {
    let mut db = Database::new();
    let acc = db
        .add_account(Account::new("TSB".to_string(), "Savings".to_string(), AccountDesc::uk(12345, 871645)))
        .ok()
        .unwrap();
    let rp = db
        .add_related_party(RelatedParty::new("Jo Smith".to_string(), 17, RelatedPartyType::Supplier))
        .ok()
        .unwrap();
    let mut bt = BankTransaction::new(
        Date::of_days(5),
        BankTransactionType::DirectDebit,
        AccountDesc::uk(12345, 871645),
        "SMITH".to_string(),
        Amount::of_pence(300),
        Amount::of_pence(0),
        Amount::of_pence(-300),
    );
    bt.set_account_id(acc);
    bt.set_related_party(rp);
    db.add_bank_transaction(bt);
    let inv = Invoice::new(rp, "tuning".to_string(), "inv1.pdf".to_string(), Amount::of_pence(300));
    db.add_invoice(inv).ok().unwrap();

    let copy: Vec<DbItem> = db.serialize_as_array().clone();
    let loaded = Database::load(copy).ok().unwrap();
    for item in loaded.serialize_as_array().iter() {
        if let Some(b) = item.bank_transaction() {
            assert!(loaded.get(b.account_id()).is_some());
            assert!(loaded.get(b.related_party()).is_some());
        }
        if let Some(i) = item.invoice() {
            assert!(loaded.get(i.supplier_id()).is_some());
        }
    }
}

#[test]
fn round_trip_keeps_kinds_and_payloads() {
    let mut db = Database::new();
    db.add_fund(Fund::new("general", "day to day")).ok().unwrap();
    db.add_fund(Fund::new("building", "roof")).ok().unwrap();
    let rp = db
        .add_related_party(RelatedParty::new("Jo".to_string(), 3, RelatedPartyType::Member))
        .ok()
        .unwrap();
    let t = Transaction::new_income(Date::of_days(40), Amount::of_pence(1000), rp, id(1));
    db.add_transaction(t);
    let first: Vec<DbItem> = db.serialize_as_array().clone();
    let again = Database::load(first.clone()).ok().unwrap();
    let second = again.serialize_as_array();
    assert_eq!(first.len(), second.len());
    for (a, b) in first.iter().zip(second.iter()) {
        assert_eq!(a.id(), b.id());
        assert_eq!(a.itype(), b.itype());
    }
    assert_eq!(second[1].fund().unwrap().desc(), "roof");
    assert_eq!(second[3].transaction().unwrap().db_ids(), (id(3), id(1)));
    assert_eq!(second[3].transaction().unwrap().amount(), Amount::of_pence(1000));
}

#[test]
fn uniqueness_is_checked_before_allocation() {
    let mut db = Database::new();
    let a = db.add_fund(Fund::new("general", "")).ok().unwrap();
    assert_eq!(a, id(1));
    match db.add_fund(Fund::new("general", "again")) {
        Err(Error::DuplicateName(n)) => assert_eq!(n, "general"),
        _ => panic!("expected a duplicate name"),
    }
    assert_eq!(db.serialize_as_array().len(), 1);
    let b = db.add_fund(Fund::new("other", "")).ok().unwrap();
    assert_eq!(b, id(2));

    let d = AccountDesc::uk(1, 2);
    db.add_account(Account::new("B".to_string(), "one".to_string(), d)).ok().unwrap();
    assert!(db.add_account(Account::new("B".to_string(), "two".to_string(), d)).is_err());
    assert_eq!(db.accounts().ids().len(), 1);
    assert_eq!(db.accounts().get_account_by_name("one"), Some(id(3)));

    db.add_related_party(RelatedParty::new("Ann".to_string(), 5, RelatedPartyType::Donor)).ok().unwrap();
    assert!(db.add_related_party(RelatedParty::new("Bob".to_string(), 5, RelatedPartyType::Donor)).is_err());
    assert!(db.add_related_party(RelatedParty::new("Ann".to_string(), 6, RelatedPartyType::Donor)).is_err());
    assert_eq!(db.related_parties().rp_ids(), vec![5]);

    db.add_invoice(Invoice::new(id(4), "roof".to_string(), "f".to_string(), Amount::of_pence(1))).ok().unwrap();
    assert!(db.add_invoice(Invoice::new(id(4), "roof".to_string(), "g".to_string(), Amount::of_pence(2))).is_err());
    assert_eq!(db.serialize_as_array().len(), 5);
}

#[test]
fn links_descriptions_to_related_parties() {
    let mut db = Database::new();
    let mut a = RelatedParty::new("A".to_string(), 1, RelatedPartyType::Member);
    a.add_account_descr("SMITH-J ACCOUNT".to_string());
    let mut b = RelatedParty::new("B".to_string(), 2, RelatedPartyType::Member);
    b.add_account_descr("SMITH-K ACCOUNT".to_string());
    let ka = db.add_related_party(a).ok().unwrap();
    let kb = db.add_related_party(b).ok().unwrap();
    assert_eq!(db.find_account_related_party("SMITH-J ACCOUNT 01JAN").ok(), Some(ka));
    assert_eq!(db.find_account_related_party("SMITH-K ACCOUNT").ok(), Some(kb));
    assert!(db.find_account_related_party("JONES").ok().unwrap().is_none());
    db.clear_account_related_parties();
    assert_eq!(db.find_account_related_party("SMITH-K ACCOUNT").ok(), Some(kb));
}

#[test]
fn exhausted_cache_links_nothing() {
    let mut db = Database::new();
    let mut a = RelatedParty::new("A".to_string(), 1, RelatedPartyType::Member);
    a.add_account_descr("SAME DESCRIPTION".to_string());
    let mut b = RelatedParty::new("B".to_string(), 2, RelatedPartyType::Member);
    b.add_account_descr("SAME DESCRIPTION".to_string());
    db.add_related_party(a).ok().unwrap();
    db.add_related_party(b).ok().unwrap();
    assert!(db.find_account_related_party("SAME DESCRIPTION").ok().unwrap().is_none());
    assert!(matches!(db.add_new_account_related_party_cache(), Err(Error::CacheExhausted)));
}

#[test]
fn rebuild_mapping_rejects_repeats_and_unknown_keys() {
    let mut m = DatabaseRebuild::new();
    assert!(m.add_mapping(id(7), id(1)).is_ok());
    assert!(matches!(m.add_mapping(id(7), id(2)), Err(Error::DuplicateItemId(k)) if k == id(7)));
    assert_eq!(m.get_new_id("test", id(7)).ok(), Some(id(1)));
    assert!(matches!(m.get_new_id("test", id(8)), Err(Error::UnresolvedReference(_, k)) if k == id(8)));
    assert_eq!(m.rename_ref("test", DbId::none()).ok(), Some(DbId::none()));
}

#[test]
fn accounts_test_me() {
    let desc = AccountDesc::uk(12345, 871645);
    let a = Account::new("TSB".into(), "Savings".into(), desc);
    let mut accs = rust_accounts::DbAccounts::new();
    let db_id = DbId::default();
    assert!(accs.add_account(db_id, a.desc(), a.name()));
    assert!(accs.has_account(&desc));
    assert_eq!(accs.get_account(&desc), Some(db_id));
    assert_eq!(accs.ids(), vec![db_id]);
    assert!(!accs.add_account(DbId::of_usize(2), desc, "Other"));
}

#[test]
fn too_short_descriptor_is_reported_by_the_store() {
    let mut db = Database::new();
    let mut a = RelatedParty::new("A".to_string(), 1, RelatedPartyType::Member);
    a.add_account_descr("SMITH-J".to_string());
    let mut b = RelatedParty::new("B".to_string(), 2, RelatedPartyType::Member);
    b.add_account_descr("SMITH-K".to_string());
    db.add_related_party(a).ok().unwrap();
    db.add_related_party(b).ok().unwrap();
    assert!(matches!(db.find_account_related_party("SMITH-J"), Err(Error::DescriptorTooShort(_))));
}

#[test]
fn clashing_names_fail_load() {
    let items = vec![fund_item(4, "general"), fund_item(8, "general")];
    match Database::load(items) {
        Err(Error::DuplicateName(n)) => assert_eq!(n, "general"),
        _ => panic!("expected a name clash"),
    }
    let mut with_alias = Fund::new("general", "");
    with_alias.add_alias("main".to_string());
    let items = vec![
        DbItem::new(id(4), DbItemTypeE::Fund(with_alias)),
        fund_item(8, "main"),
    ];
    assert!(matches!(Database::load(items), Err(Error::DuplicateName(_))));
    let items = vec![fund_item(4, "general"), fund_item(8, "other")];
    let db = Database::load(items).ok().unwrap();
    assert_eq!(db.funds().db_ids(), vec![id(1), id(2)]);
}
