use eris::bank_import::{BankImportRule, BankImportRuleFilter};
use eris::dates::Date;
use eris::members::Member;
use eris::store::{Database, Delete, Insert, Query, QueryError, Retrieve, Update};
use eris::transactions::{Transaction, TransactionFilter};

fn d(year: u16, month: u8, day: u8) -> Date {
    Date::from_ymd(year, month, day).unwrap()
}

#[test]
fn bank_import_test_bank_import_member_iban_insert() {
    let mut db = Database::new();

    let m = Member {
        name: "Testmember1".to_string(),
        ..Member::default()
    };
    let m = db.insert(m).unwrap();

    let rule = BankImportRule {
        member_id: m.id,
        iban: "DE2342123456".to_string(),
        split_amount: None,
        match_subject: Some("beitrag".to_string()),
    };
    let rule = db.insert(rule).unwrap();
    assert_eq!(rule.member_id, m.id);
    assert_eq!(rule.iban, "DE2342123456");
    assert_eq!(rule.match_subject, Some("beitrag".to_string()));
}

#[test]
fn bank_import_test_bank_import_member_iban_update() {
    let mut db = Database::new();

    let m = Member {
        name: "Testmember1".to_string(),
        ..Member::default()
    };
    let m = db.insert(m).unwrap();

    let rule = BankImportRule {
        member_id: m.id,
        iban: "DE2342123456".to_string(),
        split_amount: Some(2342),
        match_subject: None,
    };
    let mut rule = db.insert(rule).unwrap();

    assert_eq!(rule.match_subject, None);
    assert_eq!(rule.split_amount, Some(2342));

    // Update rule
    rule.match_subject = Some("beitrag".to_string());
    rule.split_amount = None;

    let rule = db.update(rule).unwrap();

    assert_eq!(rule.member_id, m.id);
    assert_eq!(rule.match_subject, Some("beitrag".to_string()));
    assert_eq!(rule.split_amount, None);
}

#[test]
fn bank_import_test_bank_import_member_iban_delete() {
    let mut db = Database::new();
    let m = Member {
        name: "Testmember1".to_string(),
        ..Member::default()
    };
    let m = db.insert(m).unwrap();

    let rule = BankImportRule {
        member_id: m.id,
        iban: "foo".to_string(),
        split_amount: Some(2342),
        match_subject: None,
    };
    let rule = db.insert(rule).unwrap();

    db.delete(rule);
    let gone: Result<BankImportRule, _> = db.retrieve((m.id, "foo".to_string()));
    assert!(matches!(gone, Err(QueryError::NotFound)));
}

#[test]
fn test_rule_insert_duplicate_key_is_ambiguous() {
    let mut db = Database::new();
    let rule = BankImportRule {
        member_id: 1,
        iban: "DE1".to_string(),
        ..Default::default()
    };
    db.insert(rule.clone()).unwrap();
    let second = db.insert(rule);
    assert!(matches!(second, Err(QueryError::Ambiguous(2))));
}

#[test]
fn transactions_test_transaction_insert() {
    let mut db = Database::new();
    let tx = Transaction {
        member_id: 1,
        date: d(2023, 5, 10),
        account_name: "Test Account".to_string(),
        amount: 2300,
        description: "Test Transaction".to_string(),
        ..Default::default()
    };
    let tx = db.insert(tx).unwrap();
    assert_eq!(tx.id, 1);
    assert_eq!(tx.member_id, 1);
    assert_eq!(tx.date, d(2023, 5, 10));
    assert_eq!(tx.account_name, "Test Account");
    assert_eq!(tx.amount, 2300);
    assert_eq!(tx.description, "Test Transaction");
}

#[test]
fn test_transaction_delete() {
    let mut db = Database::new();
    let tx = db
        .insert(Transaction {
            member_id: 1,
            amount: 100,
            ..Default::default()
        })
        .unwrap();
    db.delete(tx);
    let txs: Vec<Transaction> = db.query(&TransactionFilter::default());
    assert_eq!(txs.len(), 0);
}

#[test]
fn test_transaction_filter() {
    let mut db = Database::new();
    db.insert(Transaction {
        member_id: 1,
        date: d(2023, 5, 10),
        amount: 100,
        ..Default::default()
    })
    .unwrap();
    db.insert(Transaction {
        member_id: 2,
        date: d(2023, 6, 10),
        amount: 200,
        ..Default::default()
    })
    .unwrap();

    let by_member: Vec<Transaction> = db.query(&TransactionFilter {
        member_id: Some(2),
        ..Default::default()
    });
    assert_eq!(by_member.len(), 1);
    assert_eq!(by_member[0].amount, 200);

    let after: Vec<Transaction> = db.query(&TransactionFilter {
        date_after: Some(d(2023, 6, 1)),
        ..Default::default()
    });
    assert_eq!(after.len(), 1);
    assert_eq!(after[0].member_id, 2);

    let before: Vec<Transaction> = db.query(&TransactionFilter {
        date_before: Some(d(2023, 5, 31)),
        ..Default::default()
    });
    assert_eq!(before.len(), 1);
    assert_eq!(before[0].member_id, 1);
}

#[test]
fn test_rule_filter_by_iban() {
    let mut db = Database::new();
    db.insert(BankImportRule {
        member_id: 1,
        iban: "DE1".to_string(),
        ..Default::default()
    })
    .unwrap();
    db.insert(BankImportRule {
        member_id: 2,
        iban: "DE2".to_string(),
        ..Default::default()
    })
    .unwrap();

    let rules: Vec<BankImportRule> = db.query(&BankImportRuleFilter {
        iban: Some("DE2".to_string()),
        ..Default::default()
    });
    assert_eq!(rules.len(), 1);
    assert_eq!(rules[0].member_id, 2);

    let m = Member {
        id: 1,
        ..Default::default()
    };
    let rules = m.get_bank_import_rules(&db);
    assert_eq!(rules.len(), 1);
    assert_eq!(rules[0].iban, "DE1");
}

#[test]
fn test_rule_retrieve_ambiguous() {
    let mut db = Database::new();
    let rule = BankImportRule {
        member_id: 1,
        iban: "DE1".to_string(),
        ..Default::default()
    };
    db.insert(rule.clone()).unwrap();
    let _ = db.insert(rule);
    let r: Result<BankImportRule, _> = db.retrieve((1, "DE1".to_string()));
    assert!(matches!(r, Err(QueryError::Ambiguous(2))));
}
