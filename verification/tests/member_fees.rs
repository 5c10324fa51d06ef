use eris::dates::Date;
use eris::member_fees::is_member_active;
use eris::members::Member;
use eris::transactions::MemberFee;

fn d(year: u16, month: u8, day: u8) -> Date {
    Date::from_ymd(year, month, day).unwrap()
}

#[test]
fn test_memberfee_describe() {
    let fee = MemberFee { amount: 2300, date: d(2022, 3, 9) };
    assert_eq!(fee.describe(), "Monthly member fee for March 2022");
}

#[test]
fn test_memberfee_describe_december() {
    let fee = MemberFee { amount: 100, date: d(1999, 12, 31) };
    assert_eq!(fee.describe(), "Monthly member fee for December 1999");
}

#[test]
fn test_memberfee_calculation() {
    let mut member = Member {
        membership_start: d(2023, 4, 9),
        fee: 2300,
        ..Default::default()
    };
    let fees = member.calculate_fees(d(2023, 7, 23));
    assert_eq!(fees.len(), 4);
    member.account_calculated_at = d(2023, 4, 9);

    let fees = member.calculate_fees(d(2023, 7, 23));
    assert_eq!(fees.len(), 3);

    // With a last payment in the last month
    member.last_payment_at = d(2023, 6, 9);
    let fees = member.calculate_fees(d(2023, 7, 23));
    assert_eq!(fees.len(), 1);
}

#[test]
fn test_memberfee_calculation_amounts_and_dates() {
    let member = Member {
        membership_start: d(2023, 4, 9),
        fee: 2300,
        ..Default::default()
    };
    let fees = member.calculate_fees(d(2023, 7, 23));
    assert_eq!(fees.len(), 4);
    for (i, fee) in fees.iter().enumerate() {
        assert_eq!(fee.amount, 2300);
        assert_eq!(fee.date, d(2023, 4 + i as u8, 1));
    }
}

#[test]
fn test_memberfee_calculation_membership_end() {
    let member = Member {
        membership_start: d(2023, 1, 1),
        membership_end: Some(d(2023, 3, 15)),
        fee: 500,
        ..Default::default()
    };
    let fees = member.calculate_fees(d(2023, 12, 31));
    assert_eq!(fees.len(), 3);
    assert_eq!(fees[0].date, d(2023, 1, 1));
    assert_eq!(fees[2].date, d(2023, 3, 1));
}

#[test]
fn test_is_member_active() {
    let member = Member {
        membership_start: d(2022, 2, 23),
        ..Default::default()
    };
    assert_eq!(is_member_active(&member, d(2022, 1, 23)), false);
    assert_eq!(is_member_active(&member, d(2022, 2, 21)), true);
    assert_eq!(is_member_active(&member, d(2022, 4, 24)), true);

    let member = Member {
        membership_end: Some(d(2022, 2, 23)),
        ..Default::default()
    };
    assert_eq!(is_member_active(&member, d(2022, 1, 22)), true);
    assert_eq!(is_member_active(&member, d(2022, 2, 25)), true);
    assert_eq!(is_member_active(&member, d(2022, 3, 1)), false);
}

#[test]
fn test_member_is_active_day_exact() {
    let member = Member {
        membership_start: d(2022, 2, 23),
        membership_end: Some(d(2022, 6, 10)),
        ..Default::default()
    };
    assert!(!member.is_active(d(2022, 2, 22)));
    assert!(member.is_active(d(2022, 2, 23)));
    assert!(member.is_active(d(2022, 6, 10)));
    assert!(!member.is_active(d(2022, 6, 11)));
}
