use eris::accounting::post_member_fees;
use eris::dates::Date;
use eris::members::Member;
use eris::store::{Database, Insert, Query, QueryError, Retrieve};
use eris::transactions::{Transaction, TransactionFilter};

fn d(year: u16, month: u8, day: u8) -> Date {
    Date::from_ymd(year, month, day).unwrap()
}

#[test]
fn test_post_member_fees() {
    let mut db = Database::new();
    let member = db
        .insert(Member {
            name: "Test Member".to_string(),
            membership_start: d(2023, 4, 9),
            fee: 2300,
            ..Default::default()
        })
        .unwrap();

    let posted = post_member_fees(&mut db, member.id, d(2023, 7, 1)).unwrap();
    assert_eq!(posted.account, -9200);
    assert_eq!(posted.account_calculated_at, d(2023, 7, 1));

    let txs: Vec<Transaction> = db.query(&TransactionFilter::default());
    assert_eq!(txs.len(), 4);
    assert_eq!(txs[0].date, d(2023, 4, 1));
    assert_eq!(txs[0].amount, -2300);
    assert_eq!(txs[0].description, "Monthly member fee for April 2023");
    assert_eq!(txs[3].date, d(2023, 7, 1));
    assert_eq!(txs[3].description, "Monthly member fee for July 2023");
}

#[test]
fn test_post_member_fees_second_run_posts_nothing() {
    let mut db = Database::new();
    let member = db
        .insert(Member {
            name: "Test Member".to_string(),
            membership_start: d(2023, 4, 9),
            fee: 2300,
            ..Default::default()
        })
        .unwrap();

    post_member_fees(&mut db, member.id, d(2023, 7, 1)).unwrap();
    let txs: Vec<Transaction> = db.query(&TransactionFilter::default());
    assert_eq!(txs.len(), 4);

    // Running the engine again for the same month finds nothing owed.
    let again = post_member_fees(&mut db, member.id, d(2023, 7, 1)).unwrap();
    assert_eq!(again.account, -9200);
    let txs: Vec<Transaction> = db.query(&TransactionFilter::default());
    assert_eq!(txs.len(), 4);

    let stored: Member = db.retrieve(member.id).unwrap();
    assert_eq!(stored.account, -9200);
}

#[test]
fn test_post_member_fees_nothing_owed_keeps_watermark() {
    let mut db = Database::new();
    let member = db
        .insert(Member {
            name: "Test Member".to_string(),
            membership_start: d(2024, 1, 1),
            fee: 2300,
            ..Default::default()
        })
        .unwrap();

    // The member's membership has not started by the end date.
    let posted = post_member_fees(&mut db, member.id, d(2023, 7, 1)).unwrap();
    assert_eq!(posted.account, 0);
    assert_eq!(posted.account_calculated_at, Date::epoch());
    let txs: Vec<Transaction> = db.query(&TransactionFilter::default());
    assert_eq!(txs.len(), 0);
}

#[test]
fn test_post_member_fees_unknown_member() {
    let mut db = Database::new();
    let r = post_member_fees(&mut db, 42, d(2023, 7, 1));
    assert!(matches!(r, Err(QueryError::NotFound)));
}
