use rust_accounts::{
    AccTransactionType, AccountDesc, Amount, BankTransactionType, Date, DateRange, DbId, Error,
    FileType, Ordering, RelatedPartyQuery, RelatedPartyType, Transaction, TransactionType,
};

#[test]
fn file_type_from_extension() {
    assert_eq!(FileType::from_filename("db.yaml").ok(), Some(FileType::Yaml));
    assert_eq!(FileType::from_filename("db.json").ok(), Some(FileType::Json));
    assert_eq!(FileType::from_filename("bank.csv").ok(), Some(FileType::Csv));
    match FileType::from_filename("notes.txt") {
        Err(Error::UnknownFileExtension(s)) => assert_eq!(s, "notes.txt"),
        _ => panic!("expected an unknown extension"),
    }
}

#[test]
fn dates_from_day_month_year() {
    assert_eq!(Date::of_dmy(10, 9, 2005).ok(), Some(Date::of_days(13036)));
    assert_eq!(Date::of_dmy(10, 9, 5).ok(), Some(Date::of_days(13036)));
    assert_eq!(Date::of_dmy(2, 1, 1970).ok(), Some(Date::of_days(1)));
    assert!(matches!(Date::of_dmy(31, 4, 2023), Err(Error::ParseDate(_))));
    assert!(matches!(Date::of_dmy(1, 1, 1960), Err(Error::ParseDate(_))));
}

#[test]
fn dates_from_text() {
    assert_eq!(Date::parse("10/9/2005").ok(), Some(Date::of_days(13036)));
    assert_eq!(Date::parse("10/09/05").ok(), Some(Date::of_days(13036)));
    assert_eq!(Date::parse("9/2005").ok(), Date::of_dmy(1, 9, 2005).ok());
    assert!(matches!(Date::parse("10-09-2005"), Err(Error::ParseDate(_))));
    assert!(matches!(Date::parse("10/09/205"), Err(Error::ParseDate(_))));
    assert!(matches!(Date::parse("100/09/2005"), Err(Error::ParseDate(_))));
    assert!(matches!(Date::parse("31/02/2005"), Err(Error::ParseDate(_))));
}

#[test]
fn date_ranges() {
    let r = DateRange::of_dates(Date::of_days(10), Date::of_days(13));
    assert_eq!(r.len(), 3);
    assert!(r.contains(Date::of_days(10)));
    assert!(!r.contains(Date::of_days(13)));
    assert!(!r.contains(Date::default()));
    let single = DateRange::of_dates(Date::of_days(10), Date::default());
    assert_eq!(single.len(), 1);
    assert!(DateRange::of_dates(Date::of_days(10), Date::of_days(5)).is_empty());
    assert!(DateRange::of_dates(Date::default(), Date::of_days(5)).is_empty());
    assert_eq!(Date::of_days(10).plus_days(5), Date::of_days(15));
    assert_eq!(Date::default().plus_days(5), Date::default());
    assert!(Ordering::from_usize(0).is_none());
}

#[test]
fn sort_codes() {
    assert_eq!(AccountDesc::parse_uk("10-11-14", 12345678).ok(), Some(AccountDesc::uk(101114, 12345678)));
    assert!(matches!(AccountDesc::parse_uk("10-11-1", 1), Err(Error::ParseAccount(_))));
    assert!(matches!(AccountDesc::parse_uk("10:11:14", 1), Err(Error::ParseAccount(_))));
    assert!(matches!(AccountDesc::parse_uk("1a-11-14", 1), Err(Error::ParseAccount(_))));
}

#[test]
fn bank_codes() {
    assert_eq!(BankTransactionType::parse("SO", false).ok(), Some(BankTransactionType::StandingOrder));
    assert_eq!(BankTransactionType::parse("BGC", false).ok(), Some(BankTransactionType::BacsIn));
    assert_eq!(BankTransactionType::parse("FPI", false).ok(), Some(BankTransactionType::Fpi));
    assert_eq!(BankTransactionType::parse("DD", true).ok(), Some(BankTransactionType::DirectDebit));
    assert_eq!(BankTransactionType::parse("XX", true).ok(), Some(BankTransactionType::Unknown));
    assert_eq!(AccTransactionType::parse("SO", false).ok(), Some(AccTransactionType::StandingOrder));
    assert_eq!(AccTransactionType::parse("?", false).ok(), Some(AccTransactionType::Unknown));
}

#[test]
fn transaction_kinds_and_deltas() {
    let t = Transaction::new_payment(Date::of_days(3), Amount::of_pence(250), DbId::of_usize(1), DbId::of_usize(2));
    assert!(t.ttype().is_to_rp());
    assert!(!t.ttype().is_from_rp());
    assert_eq!(t.balance_delta_for(DbId::of_usize(1)), Some(Amount::of_pence(-250)));
    assert_eq!(t.balance_delta_for(DbId::of_usize(2)), Some(Amount::of_pence(250)));
    assert_eq!(t.balance_delta_for(DbId::of_usize(3)), None);
    let i = Transaction::new_income(Date::of_days(3), Amount::of_pence(1), DbId::of_usize(1), DbId::of_usize(2));
    assert!(i.ttype().is_from_rp());
    assert!(TransactionType::FundTransfer.is_fund_transfer());
    assert!(TransactionType::CaptialRevaluation.is_revaluation());
}

#[test]
fn related_party_queries() {
    assert!(RelatedPartyQuery::Any.is_any());
    assert!(RelatedPartyQuery::Any.matches_rp_type(RelatedPartyType::Donor));
    let q = RelatedPartyQuery::RpType(RelatedPartyType::Supplier);
    assert!(q.matches_rp_type(RelatedPartyType::Supplier));
    assert!(!q.matches_rp_type(RelatedPartyType::Donor));
}
