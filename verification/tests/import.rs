use eris::bank_import::{BankImportRule, BankImportRuleFilter};
use eris::dates::Date;
use eris::import::{check_import_date, BankImportError, BankTransaction};
use eris::members::Member;
use eris::store::{Database, Insert, Query, Retrieve};
use eris::transactions::{Transaction, TransactionFilter};

fn d(year: u16, month: u8, day: u8) -> Date {
    Date::from_ymd(year, month, day).unwrap()
}

#[test]
fn bank_transaction_test_make_default_rule_member_match() {
    let mut db = Database::new();
    // Insert test member and try to derive a rule
    let member = db
        .insert(Member {
            name: "Test Member".to_string(),
            ..Default::default()
        })
        .unwrap();
    let tx = BankTransaction {
        name: "test member".to_string(),
        iban: "DE1231231111111111".to_string(),
        ..Default::default()
    };
    // This should work because we have a matching member
    let rule = tx.make_default_rule(&mut db).unwrap();
    assert_eq!(rule.member_id, member.id);
    assert_eq!(rule.iban, tx.iban);
}

#[test]
fn bank_transaction_test_make_default_rule_member_no_match() {
    let mut db = Database::new();
    // Insert test member and try to derive a rule
    db.insert(Member {
        name: "Test Member".to_string(),
        ..Default::default()
    })
    .unwrap();
    let tx = BankTransaction {
        name: "best member".to_string(),
        iban: "DE1231231111111111".to_string(),
        ..Default::default()
    };
    let rule = tx.make_default_rule(&mut db);
    assert!(rule.is_err());
    match rule {
        Err(BankImportError::AccountMatchFailed(tx)) => {
            assert_eq!(tx.name, "best member");
        },
        _ => panic!("unexpected error"),
    }
}

#[test]
fn import_test_make_default_rule_member_match() {
    let mut db = Database::new();
    let member = db
        .insert(Member {
            name: "Test Member".to_string(),
            ..Default::default()
        })
        .unwrap();
    let tx = BankTransaction {
        name: "test member".to_string(),
        iban: "DE1231231111111111".to_string(),
        ..Default::default()
    };
    let rule = tx.make_default_rule(&mut db).unwrap();
    assert_eq!(rule.member_id, member.id);
    assert_eq!(rule.iban, tx.iban);
}

#[test]
fn import_test_make_default_rule_member_no_match() {
    let mut db = Database::new();
    db.insert(Member {
        name: "Test Member".to_string(),
        ..Default::default()
    })
    .unwrap();
    let tx = BankTransaction {
        name: "best member".to_string(),
        iban: "DE1231231111111111".to_string(),
        ..Default::default()
    };
    let rule = tx.make_default_rule(&mut db);
    assert!(rule.is_err());
    match rule {
        Err(BankImportError::AccountMatchFailed(tx)) => {
            assert_eq!(tx.name, "best member");
        },
        _ => panic!("unexpected error"),
    }
}

#[test]
fn test_check_last_member_tx() {
    let mut db = Database::new();
    let member = db
        .insert(Member {
            name: "Test Member".to_string(),
            last_bank_transaction_at: d(2023, 2, 3),
            last_bank_transaction_number: 23,
            ..Default::default()
        })
        .unwrap();

    // Transaction with a date before the last transaction
    let tx = BankTransaction {
        date: d(2023, 2, 2),
        num: 1,
        ..Default::default()
    };
    let res = tx.check_last_member_transcation(&member);
    assert!(res.is_err());

    // Transaction on the same day, but with a lower number
    let tx = BankTransaction {
        date: d(2023, 2, 3),
        num: 22,
        ..Default::default()
    };
    let res = tx.check_last_member_transcation(&member);
    assert!(res.is_err());

    // Transaction on the same day, but with a higher number
    let tx = BankTransaction {
        date: d(2023, 2, 3),
        num: 24,
        ..Default::default()
    };
    let res = tx.check_last_member_transcation(&member);
    assert!(res.is_ok());

    // Transaction on the next day, but with lower number
    // as last transaction
    let tx = BankTransaction {
        date: d(2023, 2, 4),
        num: 2,
        ..Default::default()
    };
    let res = tx.check_last_member_transcation(&member);
    assert!(res.is_ok());
}

#[test]
fn bank_transaction_test_import_bank_transaction() {
    let mut db = Database::new();
    // Insert a testmember and a transaction
    let member = db
        .insert(Member {
            name: "Test Member".to_string(),
            ..Default::default()
        })
        .unwrap();

    // Bank transaction for test member
    let tx = BankTransaction {
        num: 42,
        name: "Test Member".to_string(),
        iban: "DE1111111111111".to_string(),
        amount: 2300,
        date: d(2023, 5, 10),
        subject: "Test Transaction".to_string(),
    };

    // Import the transaction
    tx.clone().import(&mut db).unwrap();

    let member: Member = db.retrieve(member.id).unwrap();
    assert_eq!(member.account, 2300);
    assert_eq!(member.last_bank_transaction_at, tx.date);
    assert_eq!(member.last_bank_transaction_number, tx.num);
}

#[test]
fn import_test_import_bank_transaction() {
    let mut db = Database::new();
    let member = db
        .insert(Member {
            name: "Test Member".to_string(),
            ..Default::default()
        })
        .unwrap();

    let tx = BankTransaction {
        num: 1,
        name: "Test Member".to_string(),
        iban: "DE1111111111111".to_string(),
        amount: 2300,
        date: d(2023, 5, 10),
        subject: "Test Transaction".to_string(),
    };

    tx.import(&mut db).unwrap();

    let member: Member = db.retrieve(member.id).unwrap();
    assert_eq!(member.account, 2300);
}

#[test]
fn test_import_bank_transaction_split_iban() {
    let mut db = Database::new();
    let m1 = db
        .insert(Member {
            name: "Test Member".to_string(),
            ..Default::default()
        })
        .unwrap();
    let m2 = db
        .insert(Member {
            name: "Best Member".to_string(),
            ..Default::default()
        })
        .unwrap();

    // They share an account and there is a bank import
    // rule for this
    db.insert(BankImportRule {
        member_id: m1.id,
        iban: "DE2342".to_string(),
        split_amount: Some(1000),
        ..Default::default()
    })
    .unwrap();
    db.insert(BankImportRule {
        member_id: m2.id,
        iban: "DE2342".to_string(),
        split_amount: Some(2000),
        ..Default::default()
    })
    .unwrap();

    // Bank transaction for test member
    let tx = BankTransaction {
        num: 1,
        name: "Dr. M. Ber, B. Member".to_string(),
        iban: "DE2342".to_string(),
        amount: 3200,
        date: d(2023, 5, 10),
        subject: "Mitgliedsbeitrag fuer beide".to_string(),
    };

    // Import the transaction
    tx.import(&mut db).unwrap();

    // There should now be three transactions:
    let tx: Vec<Transaction> = db.query(&TransactionFilter {
        ..Default::default()
    });
    assert_eq!(tx.len(), 3);

    // M1 balance should be 10 + 2 overflow
    let m1: Member = db.retrieve(m1.id).unwrap();
    assert_eq!(m1.account, 1200);

    // M2 balance should be 20
    let m2: Member = db.retrieve(m2.id).unwrap();
    assert_eq!(m2.account, 2000);
}

#[test]
fn test_import_split_descriptions() {
    let mut db = Database::new();
    let m1 = db
        .insert(Member {
            name: "Test Member".to_string(),
            ..Default::default()
        })
        .unwrap();
    let m2 = db
        .insert(Member {
            name: "Best Member".to_string(),
            ..Default::default()
        })
        .unwrap();
    db.insert(BankImportRule {
        member_id: m1.id,
        iban: "DE2342".to_string(),
        split_amount: Some(1000),
        ..Default::default()
    })
    .unwrap();
    db.insert(BankImportRule {
        member_id: m2.id,
        iban: "DE2342".to_string(),
        split_amount: Some(2000),
        ..Default::default()
    })
    .unwrap();

    let tx = BankTransaction {
        num: 1,
        name: "Dr. M. Ber, B. Member".to_string(),
        iban: "DE2342".to_string(),
        amount: 3200,
        date: d(2023, 5, 10),
        subject: "Beide".to_string(),
    };
    tx.import(&mut db).unwrap();

    let txs: Vec<Transaction> = db.query(&TransactionFilter::default());
    assert_eq!(txs.len(), 3);
    assert_eq!(txs[0].description, "Beide (split)");
    assert_eq!(txs[0].amount, 1000);
    assert_eq!(txs[1].description, "Beide (split)");
    assert_eq!(txs[1].amount, 2000);
    assert_eq!(txs[2].description, "Beide (overflow)");
    assert_eq!(txs[2].amount, 200);
    let total: i64 = txs.iter().map(|t| t.amount).sum();
    assert_eq!(total, 3200);
}

#[test]
fn test_reimport_same_transaction_fails() {
    let mut db = Database::new();
    let member = db
        .insert(Member {
            name: "Test Member".to_string(),
            ..Default::default()
        })
        .unwrap();

    let tx = BankTransaction {
        num: 7,
        name: "Test Member".to_string(),
        iban: "DE1111111111111".to_string(),
        amount: 2300,
        date: d(2023, 5, 10),
        subject: "Test Transaction".to_string(),
    };
    tx.clone().import(&mut db).unwrap();

    let txs: Vec<Transaction> = db.query(&TransactionFilter::default());
    assert_eq!(txs.len(), 1);

    // Importing the exact same statement line again hits the watermark.
    let res = tx.import(&mut db);
    match res {
        Err(BankImportError::MoreRecentTransactionPresent(at, num)) => {
            assert_eq!(at, d(2023, 5, 10));
            assert_eq!(num, 7);
        },
        _ => panic!("expected the duplicate guard to fire"),
    }

    // No new transaction was posted and the balance is unchanged.
    let txs: Vec<Transaction> = db.query(&TransactionFilter::default());
    assert_eq!(txs.len(), 1);
    let member: Member = db.retrieve(member.id).unwrap();
    assert_eq!(member.account, 2300);
}

#[test]
fn test_import_creates_default_rule() {
    let mut db = Database::new();
    let member = db
        .insert(Member {
            name: "Test Member".to_string(),
            ..Default::default()
        })
        .unwrap();

    let tx = BankTransaction {
        num: 1,
        name: "Test Member".to_string(),
        iban: "DE555".to_string(),
        amount: 2300,
        date: d(2023, 5, 10),
        subject: "Beitrag".to_string(),
    };
    tx.import(&mut db).unwrap();

    // Exactly one new default rule was created for the iban.
    let rules: Vec<BankImportRule> = db.query(&BankImportRuleFilter {
        iban: Some("DE555".to_string()),
        ..Default::default()
    });
    assert_eq!(rules.len(), 1);
    assert_eq!(rules[0].member_id, member.id);
    assert!(rules[0].split_amount.is_none());
    assert!(rules[0].match_subject.is_none());

    // The full amount went to the member.
    let member: Member = db.retrieve(member.id).unwrap();
    assert_eq!(member.account, 2300);
}

#[test]
fn test_import_insufficient_split() {
    let mut db = Database::new();
    let m1 = db
        .insert(Member {
            name: "Test Member".to_string(),
            ..Default::default()
        })
        .unwrap();
    db.insert(BankImportRule {
        member_id: m1.id,
        iban: "DE2342".to_string(),
        split_amount: Some(5000),
        ..Default::default()
    })
    .unwrap();

    let tx = BankTransaction {
        num: 1,
        name: "Test Member".to_string(),
        iban: "DE2342".to_string(),
        amount: 3200,
        date: d(2023, 5, 10),
        subject: "Beitrag".to_string(),
    };
    let res = tx.import(&mut db);
    assert!(matches!(
        res,
        Err(BankImportError::InsufficientAmountForSplit(_))
    ));

    // Nothing was posted.
    let txs: Vec<Transaction> = db.query(&TransactionFilter::default());
    assert_eq!(txs.len(), 0);
}

#[test]
fn test_import_subject_filter_excludes_rule() {
    let mut db = Database::new();
    let m1 = db
        .insert(Member {
            name: "Test Member".to_string(),
            ..Default::default()
        })
        .unwrap();
    let m2 = db
        .insert(Member {
            name: "Best Member".to_string(),
            ..Default::default()
        })
        .unwrap();
    db.insert(BankImportRule {
        member_id: m1.id,
        iban: "DE2342".to_string(),
        match_subject: Some("spende".to_string()),
        ..Default::default()
    })
    .unwrap();
    db.insert(BankImportRule {
        member_id: m2.id,
        iban: "DE2342".to_string(),
        ..Default::default()
    })
    .unwrap();

    let tx = BankTransaction {
        num: 1,
        name: "Gemeinsam".to_string(),
        iban: "DE2342".to_string(),
        amount: 1500,
        date: d(2023, 5, 10),
        subject: "Beitrag".to_string(),
    };
    tx.import(&mut db).unwrap();

    // The filtered rule got nothing; the catch-all rule got everything.
    let m1: Member = db.retrieve(m1.id).unwrap();
    assert_eq!(m1.account, 0);
    let m2: Member = db.retrieve(m2.id).unwrap();
    assert_eq!(m2.account, 1500);
}

#[test]
fn test_check_import_date() {
    let mut db = Database::new();
    // Insert a testmember and a transaction
    let member = db
        .insert(Member {
            name: "Test Member".to_string(),
            ..Default::default()
        })
        .unwrap();

    member
        .apply_transaction(
            &mut db,
            Transaction {
                date: d(2023, 5, 10),
                amount: 2300,
                ..Default::default()
            },
        )
        .unwrap();

    // Should be ok:
    check_import_date(&db, d(2023, 6, 1)).unwrap();

    // Previous date should fail:
    let result = check_import_date(&db, d(2023, 1, 1));
    assert!(result.is_err());
    match result {
        Err(BankImportError::NewerTransactionsPresent(date, last)) => {
            assert_eq!(date, d(2023, 1, 1));
            assert_eq!(last, d(2023, 5, 10));
        },
        _ => panic!("unexpected error"),
    }
}

#[test]
fn test_import_rule_with_missing_member() {
    let mut db = Database::new();
    // A rule bound to a member that is not stored.
    db.insert(BankImportRule {
        member_id: 42,
        iban: "DE1".to_string(),
        ..Default::default()
    })
    .unwrap();

    let tx = BankTransaction {
        num: 1,
        name: "Anyone".to_string(),
        iban: "DE1".to_string(),
        amount: 1000,
        date: d(2023, 5, 10),
        subject: "Beitrag".to_string(),
    };
    let res = tx.import(&mut db);
    assert!(matches!(
        res,
        Err(BankImportError::Storage(eris::store::QueryError::NotFound))
    ));
    let txs: Vec<Transaction> = db.query(&TransactionFilter::default());
    assert_eq!(txs.len(), 0);
}

#[test]
fn test_failed_import_leaves_no_default_rule() {
    let mut db = Database::new();
    // The member's watermark already covers the line's (date, serial) pair.
    db.insert(Member {
        name: "Test Member".to_string(),
        last_bank_transaction_at: d(2023, 5, 10),
        last_bank_transaction_number: 7,
        ..Default::default()
    })
    .unwrap();

    let tx = BankTransaction {
        num: 7,
        name: "Test Member".to_string(),
        iban: "DE777".to_string(),
        amount: 2300,
        date: d(2023, 5, 10),
        subject: "Beitrag".to_string(),
    };
    let res = tx.import(&mut db);
    assert!(matches!(
        res,
        Err(BankImportError::MoreRecentTransactionPresent(_, _))
    ));

    // All-or-nothing: the default rule synthesized for the unknown iban was
    // not kept, and nothing was posted.
    let rules: Vec<BankImportRule> = db.query(&BankImportRuleFilter {
        iban: Some("DE777".to_string()),
        ..Default::default()
    });
    assert_eq!(rules.len(), 0);
    let txs: Vec<Transaction> = db.query(&TransactionFilter::default());
    assert_eq!(txs.len(), 0);
}

#[test]
fn test_import_overflow_target_missing_changes_nothing() {
    let mut db = Database::new();
    // The only rule is bound to a missing member and filtered out by its
    // subject, so the leftover would overflow to that missing member.
    db.insert(BankImportRule {
        member_id: 42,
        iban: "DE1".to_string(),
        match_subject: Some("spende".to_string()),
        ..Default::default()
    })
    .unwrap();

    let tx = BankTransaction {
        num: 1,
        name: "Anyone".to_string(),
        iban: "DE1".to_string(),
        amount: 1000,
        date: d(2023, 5, 10),
        subject: "Beitrag".to_string(),
    };
    let res = tx.import(&mut db);
    assert!(matches!(
        res,
        Err(BankImportError::Storage(eris::store::QueryError::NotFound))
    ));
    // All-or-nothing: no posting landed before the failure surfaced.
    let txs: Vec<Transaction> = db.query(&TransactionFilter::default());
    assert_eq!(txs.len(), 0);
}
