use eris::dates::Date;
use eris::members::Member;
use eris::store::{Database, Insert};
use eris::transactions::{MemberFee, Transaction};

fn d(year: u16, month: u8, day: u8) -> Date {
    Date::from_ymd(year, month, day).unwrap()
}

#[test]
fn test_apply_transaction() {
    let mut db = Database::new();
    let member = db
        .insert(Member {
            account: 10000,
            name: "test".to_string(),
            ..Default::default()
        })
        .unwrap();

    let tx = Transaction {
        amount: -2342,
        account_name: "memberhip fee".to_string(),
        description: "monthly membership fee for ...".to_string(),
        ..Default::default()
    };

    let member = member.apply_transaction(&mut db, tx).unwrap();
    assert_eq!(member.account, 7658);

    // Get member transactions
    let txs = member.get_transactions(&db);
    assert_eq!(txs.len(), 1);
    println!("txs: {:?}", txs.len());
}

#[test]
fn test_tx_from_fee() {
    let mut db = Database::new();
    let member = db
        .insert(Member {
            account: 10000,
            name: "test".to_string(),
            ..Default::default()
        })
        .unwrap();

    let tx: Transaction = MemberFee {
        amount: 2342,
        date: d(2020, 5, 23),
    }
    .to_transaction();

    let member = member.apply_transaction(&mut db, tx).unwrap();
    assert_eq!(member.account, 7658);

    // Get member transactions
    let txs = member.get_transactions(&db);
    assert_eq!(txs.len(), 1);
    println!("txs: {:?}", txs.len());
}

#[test]
fn test_apply_transaction_binds_member_id() {
    let mut db = Database::new();
    let member = db
        .insert(Member {
            name: "test".to_string(),
            ..Default::default()
        })
        .unwrap();

    let tx = Transaction {
        member_id: 9999,
        amount: 500,
        date: d(2023, 1, 2),
        ..Default::default()
    };
    let member = member.apply_transaction(&mut db, tx).unwrap();
    assert_eq!(member.account, 500);

    let txs = member.get_transactions(&db);
    assert_eq!(txs.len(), 1);
    assert_eq!(txs[0].member_id, member.id);
}

#[test]
fn test_apply_transaction_balance_is_sum() {
    let mut db = Database::new();
    let member = db
        .insert(Member {
            name: "test".to_string(),
            ..Default::default()
        })
        .unwrap();

    let amounts: Vec<i64> = vec![500, -300, 250, -50];
    let mut member = member;
    for a in &amounts {
        let tx = Transaction {
            amount: *a,
            date: d(2023, 1, 2),
            ..Default::default()
        };
        member = member.apply_transaction(&mut db, tx).unwrap();
    }
    let txs = member.get_transactions(&db);
    let total: i64 = txs.iter().map(|t| t.amount).sum();
    assert_eq!(member.account, total);
    assert_eq!(member.account, 400);
}

#[test]
fn test_apply_transaction_unknown_member_is_all_or_nothing() {
    let mut db = Database::new();
    // A member value that was never stored.
    let stray = Member {
        id: 9,
        name: "Nobody".to_string(),
        ..Default::default()
    };
    let tx = Transaction {
        amount: 500,
        date: d(2023, 1, 2),
        ..Default::default()
    };
    let r = stray.apply_transaction(&mut db, tx);
    assert!(matches!(r, Err(eris::store::QueryError::NotFound)));
    // Nothing was persisted: the failed call left no ledger entry behind.
    let member = Member {
        id: 9,
        ..Default::default()
    };
    assert_eq!(member.get_transactions(&db).len(), 0);
    assert_eq!(db.transactions.len(), 0);
}
