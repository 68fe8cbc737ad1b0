use rust_accounts::{Date, DateRange, DbId, OrderedTransactions};

fn id(n: usize) -> DbId {
    DbId::of_usize(n)
}

fn d(n: usize) -> Date {
    Date::of_days(n)
}

#[test]
fn cursor_at_missing_date() {
    let mut ot = OrderedTransactions::new();
    ot.push_to_date(d(10), id(1));
    ot.push_to_date(d(10), id(2));
    ot.push_to_date(d(20), id(3));
    ot.push_to_date(d(20), id(4));

    let (c, exact) = ot.cursor_of_date(d(15), true);
    assert!(!exact);
    assert_eq!(ot.cursor_date(&c), Some(d(20)));
    assert_eq!(ot.cursor_id(&c), Some(id(3)));

    let (c, exact) = ot.cursor_of_date(d(15), false);
    assert!(!exact);
    assert_eq!(ot.cursor_date(&c), Some(d(10)));
    assert_eq!(ot.cursor_id(&c), Some(id(2)));
}

#[test]
fn cursor_at_present_date() {
    let mut ot = OrderedTransactions::new();
    ot.push_to_date(d(10), id(1));
    ot.push_to_date(d(10), id(2));
    ot.push_to_date(d(10), id(5));
    let (c, exact) = ot.cursor_of_date(d(10), true);
    assert!(exact);
    assert_eq!(ot.cursor_id(&c), Some(id(1)));
    let (c, exact) = ot.cursor_of_date(d(10), false);
    assert!(exact);
    assert_eq!(ot.cursor_id(&c), Some(id(5)));
}

#[test]
fn cursor_at_ends_and_empty() {
    let empty = OrderedTransactions::new();
    let (c, exact) = empty.cursor_of_date(d(5), true);
    assert!(!c.is_valid());
    assert!(!exact);
    assert!(!empty.cursor_first().is_valid());

    let mut ot = OrderedTransactions::new();
    ot.push_to_date(d(10), id(1));
    ot.push_to_date(d(20), id(2));
    let (c, exact) = ot.cursor_of_date(d(30), true);
    assert!(!exact);
    assert_eq!(ot.cursor_id(&c), Some(id(2)));
    let (c, exact) = ot.cursor_of_date(d(5), false);
    assert!(!exact);
    assert_eq!(ot.cursor_id(&c), Some(id(1)));
}

#[test]
fn cursor_walk_visits_each_entry_once_in_order() {
    let mut ot = OrderedTransactions::new();
    ot.push_to_date(d(20), id(3));
    ot.push_to_date(d(10), id(1));
    ot.push_to_date(d(30), id(5));
    ot.push_to_date(d(10), id(2));
    ot.push_to_date(d(20), id(4));
    let mut c = ot.cursor_first();
    let mut seen = vec![ot.cursor_id(&c).unwrap()];
    let mut dates = vec![ot.cursor_date(&c).unwrap()];
    while ot.cursor_next(&mut c) {
        seen.push(ot.cursor_id(&c).unwrap());
        dates.push(ot.cursor_date(&c).unwrap());
    }
    assert_eq!(seen, vec![id(1), id(2), id(3), id(4), id(5)]);
    assert_eq!(dates, vec![d(10), d(10), d(20), d(20), d(30)]);
    let at_end = c;
    assert!(!ot.cursor_next(&mut c));
    assert_eq!(c, at_end);
    assert_eq!(ot.len(), 5);
}

#[test]
fn cursor_walk_backwards() {
    let mut ot = OrderedTransactions::new();
    ot.push_to_date(d(10), id(1));
    ot.push_to_date(d(20), id(2));
    ot.push_to_date(d(20), id(3));
    let (mut c, _) = ot.cursor_of_date(d(20), false);
    let mut seen = vec![ot.cursor_id(&c).unwrap()];
    while ot.cursor_prev(&mut c) {
        seen.push(ot.cursor_id(&c).unwrap());
    }
    assert_eq!(seen, vec![id(3), id(2), id(1)]);
    let first = c;
    assert!(!ot.cursor_prev(&mut c));
    assert_eq!(c, first);
}

#[test]
fn range_returns_dates_in_half_open_range() {
    let mut ot = OrderedTransactions::new();
    ot.push_to_date(d(12), id(3));
    ot.push_to_date(d(10), id(1));
    ot.push_to_date(d(11), id(2));
    ot.push_to_date(d(12), id(4));
    ot.push_to_date(d(13), id(5));
    let r = ot.transactions_in_range(DateRange::of_dates(d(11), d(13)));
    assert_eq!(r, vec![id(2), id(3), id(4)]);
    let all = ot.transactions_in_range(DateRange::of_dates(d(1), d(100)));
    assert_eq!(all, vec![id(1), id(2), id(3), id(4), id(5)]);
    let one_day = ot.transactions_in_range(DateRange::of_dates(d(12), Date::default()));
    assert_eq!(one_day, vec![id(3), id(4)]);
    let empty = ot.transactions_in_range(DateRange::of_dates(d(13), d(11)));
    assert!(empty.is_empty());
}

#[test]
fn same_day_duplicates_are_kept_in_insertion_order() {
    let mut ot = OrderedTransactions::new();
    ot.push_to_date(d(10), id(7));
    ot.push_to_date(d(10), id(7));
    ot.push_to_date(d(10), id(2));
    assert_eq!(ot.len(), 3);
    assert!(ot.contains_date(d(10)));
    assert!(!ot.contains_date(d(11)));
    assert!(ot.date_contains(d(10), id(2)));
    assert!(!ot.date_contains(d(10), id(3)));
    let r = ot.transactions_in_range(DateRange::of_dates(d(10), d(11)));
    assert_eq!(r, vec![id(7), id(7), id(2)]);
}

#[test]
fn add_iter_and_undated_entries() {
    let mut ot = OrderedTransactions::new();
    ot.add_iter(&vec![(d(5), id(1)), (Date::default(), id(2)), (d(3), id(3))]);
    assert!(ot.has_undated_transactions());
    let c = ot.cursor_first();
    assert_eq!(ot.cursor_id(&c), Some(id(2)));
    assert_eq!(ot.len(), 3);
}
