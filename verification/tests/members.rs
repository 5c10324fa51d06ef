use eris::dates::Date;
use eris::members::{Member, MemberFilter};
use eris::store::{Database, Delete, Insert, Query, Retrieve, Update};
use eris::transactions::Transaction;

fn d(year: u16, month: u8, day: u8) -> Date {
    Date::from_ymd(year, month, day).unwrap()
}

#[test]
fn members_test_member_insert() {
    let mut db = Database::new();
    let today = d(2023, 11, 5);
    let member = Member {
        name: "Test Member".to_string(),
        email: "mail@test-member.eris".to_string(),
        membership_start: today,
        notes: "was very nice".to_string(),
        last_payment_at: d(1900, 1, 1),
        interval: 1,
        fee: 2342,
        account: 4232,
        ..Member::default()
    };
    let member = db.insert(member).unwrap();

    assert_eq!(member.name, "Test Member");
    assert_eq!(member.email, "mail@test-member.eris");
    assert_eq!(member.membership_start, today);
    assert_eq!(member.notes, "was very nice");
    assert_eq!(member.last_payment_at, d(1900, 1, 1));
    assert_eq!(member.interval, 1);
    assert_eq!(member.fee, 2342);
    assert_eq!(member.account, 4232);
}

#[test]
fn members_test_member_update() {
    let mut db = Database::new();
    let member = Member {
        name: "Test Member".to_string(),
        email: "eris@discordia.ccc".to_string(),
        ..Member::default()
    };
    let mut member = db.insert(member).unwrap();
    member.name = "Test Member Updated".to_string();
    member.email = "new@email".to_string();
    member.membership_start = d(1900, 2, 2);
    member.membership_end = Some(d(2024, 1, 1));
    member.last_payment_at = d(2023, 4, 2);
    member.interval = 2;
    member.fee = 12342;
    member.account = 2300;
    member.notes = "was not very nice".to_string();

    let member = db.update(member).unwrap();
    assert_eq!(member.name, "Test Member Updated");
    assert_eq!(member.email, "new@email");
    assert_eq!(member.membership_start, d(1900, 2, 2));
    assert_eq!(member.membership_end, Some(d(2024, 1, 1)));
    assert_eq!(member.last_payment_at, d(2023, 4, 2));
    assert_eq!(member.interval, 2);
    assert_eq!(member.fee, 12342);
    assert_eq!(member.account, 2300);
    assert_eq!(member.notes, "was not very nice");
}

#[test]
fn members_test_member_filter() {
    let mut db = Database::new();
    // Insert two members
    let m1 = Member {
        name: "Test Member 1".to_string(),
        email: "test1@eris.discordia".to_string(),
        ..Member::default()
    };
    db.insert(m1).unwrap();

    let m2 = Member {
        name: "Test Member 2".to_string(),
        email: "test2@eris.discordia".to_string(),
        ..Member::default()
    };
    db.insert(m2).unwrap();

    // Filter by name
    let filter = MemberFilter {
        name: Some("Member 2".to_string()),
        ..MemberFilter::default()
    };
    let members: Vec<Member> = db.query(&filter);
    assert_eq!(members.len(), 1);
    assert_eq!(members[0].name, "Test Member 2");
}

#[test]
fn test_member_query_name_like() {
    let mut db = Database::new();
    db.insert(Member {
        name: "Test Member".to_string(),
        ..Default::default()
    })
    .unwrap();

    let result = MemberFilter {
        name: Some("tEsT MeMber".to_string()),
        ..MemberFilter::default()
    };
    let members: Vec<Member> = db.query(&result);
    assert_eq!(members.len(), 1);

    let result = MemberFilter {
        name: Some("f3st MeMber".to_string()),
        ..MemberFilter::default()
    };
    let members: Vec<Member> = db.query(&result);
    assert_eq!(members.len(), 0);
}

#[test]
fn members_test_member_delete() {
    let mut db = Database::new();
    let member = Member {
        name: "Test Member 1".to_string(),
        email: "test1@eris.discordia".to_string(),
        ..Member::default()
    };
    let member = db.insert(member).unwrap();

    // Delete member again
    db.delete(member.clone());
    let gone: Result<Member, _> = db.retrieve(member.id);
    assert!(gone.is_err());
}

#[test]
fn test_member_get_related_transactions() {
    let mut db = Database::new();

    // Create test member
    let m = Member {
        name: "Testmember".to_string(),
        ..Default::default()
    };
    let m = db.insert(m).unwrap();

    // Create transaction for member
    let tx = Transaction {
        member_id: m.id,
        ..Default::default()
    };
    db.insert(tx).unwrap();
    let tx = Transaction {
        member_id: m.id,
        ..Default::default()
    };
    db.insert(tx).unwrap();

    // Get related transactions
    let txs = m.get_transactions(&db);
    assert_eq!(txs.len(), 2);
}

#[test]
fn test_member_retrieve_not_found() {
    let db = Database::new();
    let r: Result<Member, _> = db.retrieve(1);
    assert!(matches!(r, Err(eris::store::QueryError::NotFound)));
}
