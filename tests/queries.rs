use rust_accounts::{
    Account, AccountDesc, Amount, BankTransaction, BankTransactionType, Database, Date, DateRange,
    DbId, DbItemType, DbMembers, DbQuery, Fund, Member, RelatedParty, RelatedPartyType,
};

fn sample() -> Database {
    let mut db = Database::new();
    let mut f = Fund::new("General", "");
    f.add_alias("Main".to_string());
    db.add_fund(f).ok().unwrap();
    db.add_fund(Fund::new("Building", "")).ok().unwrap();
    db.add_account(Account::new("TSB".to_string(), "Savings".to_string(), AccountDesc::uk(1, 2))).ok().unwrap();
    let mut p = RelatedParty::new("Gail".to_string(), 8, RelatedPartyType::Donor);
    p.add_alias("G. Smith".to_string());
    db.add_related_party(p).ok().unwrap();
    let bt = BankTransaction::new(
        Date::of_days(50),
        BankTransactionType::Fpi,
        AccountDesc::uk(1, 2),
        "GIFT FROM GAIL".to_string(),
        Amount::of_pence(0),
        Amount::of_pence(900),
        Amount::of_pence(900),
    );
    db.add_bank_transaction(bt);
    db
}

#[test]
fn query_by_kind_and_name() {
    let db = sample();
    let all = db.query(&DbQuery::new());
    assert_eq!(all.len(), 5);
    let funds = db.query(&DbQuery::new().with_item_type(Some(DbItemType::Fund)));
    assert_eq!(funds, vec![DbId::of_usize(1), DbId::of_usize(2)]);
    let main = db.query(&DbQuery::new().with_item_type(Some(DbItemType::Fund)).with_name("Mai"));
    assert_eq!(main, vec![DbId::of_usize(1)]);
    let rp = db.query(&DbQuery::new().with_item_type(Some(DbItemType::RelatedParty)).with_name("G. S"));
    assert_eq!(rp, vec![DbId::of_usize(4)]);
}

#[test]
fn query_by_pattern_and_date() {
    let db = sample();
    let q = DbQuery::new().with_item_type(Some(DbItemType::Fund)).with_name("^B.*g$");
    assert!(q.name_re.is_some());
    assert_eq!(db.query(&q), vec![DbId::of_usize(2)]);
    let q = DbQuery::new()
        .with_item_type(Some(DbItemType::BankTransaction))
        .with_desc("GIFT")
        .with_date_range(DateRange::of_dates(Date::of_days(40), Date::of_days(60)));
    assert_eq!(db.query(&q), vec![DbId::of_usize(5)]);
    let q = DbQuery::new()
        .with_item_type(Some(DbItemType::BankTransaction))
        .with_date_range(DateRange::of_dates(Date::of_days(60), Date::of_days(70)));
    assert!(db.query(&q).is_empty());
    let bad = DbQuery::new().with_name("[unclosed");
    assert!(bad.name_re.is_none());
    assert!(bad.name_match.is_some());
}

#[test]
fn members_by_name_alias_and_number() {
    let mut m = Member::new("Ann Lee".to_string(), 12);
    m.add_alias("A. Lee".to_string());
    m.change_email("ann@example.org".to_string());
    assert_eq!(m.member_id(), 12);
    m.clear_address_info();
    assert_eq!(m.address(), "");

    let mut ms = DbMembers::new();
    assert!(ms.add_member(DbId::of_usize(3), 12, m.name(), m.aliases()));
    assert!(!ms.add_member(DbId::of_usize(4), 12, "Other", &[]));
    assert!(!ms.add_member(DbId::of_usize(4), 13, "A. Lee", &[]));
    assert_eq!(ms.get_member("A. Lee"), Some(DbId::of_usize(3)));
    assert_eq!(ms.get_member("12"), Some(DbId::of_usize(3)));
    assert_eq!(ms.get_member("13"), None);
    assert!(ms.has_member("Ann Lee"));
    assert_eq!(ms.member_ids(), vec![12]);
    ms.remove_member_aliases(m.aliases());
    assert!(!ms.has_member("A. Lee"));
}
