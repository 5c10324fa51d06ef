//! Ledger entries: the immutable `Transaction` record, the query filter on
//! it, and the monthly `MemberFee` value that the fee engine derives and the
//! caller turns into a debit transaction.

use vstd::prelude::*;
use vstd::string::StringExecFns;

use crate::dates::Date;
use crate::text::{dec_digits, push_decimal};

verus! {

/// One immutable ledger entry. A positive `amount` credits the member's
/// account, a negative one debits it (cents).
pub struct Transaction {
    pub id: u32,
    pub member_id: u32,
    pub date: Date,
    pub account_name: String,
    pub amount: i64,
    pub description: String,
}

/// A query filter for transactions. `date_before` and `date_after` bound the
/// date inclusively.
pub struct TransactionFilter {
    pub id: Option<u32>,
    pub member_id: Option<u32>,
    pub date: Option<Date>,
    pub date_before: Option<Date>,
    pub date_after: Option<Date>,
}

/// Whether `t` passes the filter `f`.
pub open spec fn transaction_matches(t: Transaction, f: TransactionFilter) -> bool {
    &&& match f.id {
        Some(id) => t.id == id,
        None => true,
    }
    &&& match f.member_id {
        Some(member_id) => t.member_id == member_id,
        None => true,
    }
    &&& match f.date {
        Some(date) => t.date == date,
        None => true,
    }
    &&& match f.date_before {
        Some(date) => t.date.spec_le(date),
        None => true,
    }
    &&& match f.date_after {
        Some(date) => date.spec_le(t.date),
        None => true,
    }
}

impl Clone for Transaction {
    fn clone(&self) -> (r: Transaction)
        ensures
            r == *self,
    {
        Transaction {
            id: self.id,
            member_id: self.member_id,
            date: self.date,
            account_name: self.account_name.clone(),
            amount: self.amount,
            description: self.description.clone(),
        }
    }
}

impl Default for Transaction {
    /// An empty ledger entry dated at the first day of 1970.
    fn default() -> (r: Transaction)
        ensures
            r.id == 0 && r.member_id == 0 && r.amount == 0,
            r.date == Date::epoch(),
            r.account_name@ == Seq::<char>::empty(),
            r.description@ == Seq::<char>::empty(),
    {
        Transaction {
            id: 0,
            member_id: 0,
            date: Date::epoch(),
            account_name: String::new(),
            amount: 0,
            description: String::new(),
        }
    }
}

impl TransactionFilter {
    /// Whether transaction `t` passes this filter.
    pub fn matches(&self, t: &Transaction) -> (r: bool)
        ensures
            r == transaction_matches(*t, *self),
    {
        if let Some(id) = self.id {
            if t.id != id {
                return false;
            }
        }
        if let Some(member_id) = self.member_id {
            if t.member_id != member_id {
                return false;
            }
        }
        if let Some(date) = self.date {
            if t.date != date {
                return false;
            }
        }
        if let Some(date) = self.date_before {
            if !t.date.le(&date) {
                return false;
            }
        }
        if let Some(date) = self.date_after {
            if !date.le(&t.date) {
                return false;
            }
        }
        true
    }
}

impl Clone for TransactionFilter {
    fn clone(&self) -> (r: TransactionFilter)
        ensures
            r == *self,
    {
        TransactionFilter {
            id: self.id,
            member_id: self.member_id,
            date: self.date,
            date_before: self.date_before,
            date_after: self.date_after,
        }
    }
}

impl Default for TransactionFilter {
    /// The filter that matches every transaction.
    fn default() -> (r: TransactionFilter)
        ensures
            r.id is None && r.member_id is None && r.date is None,
            r.date_before is None && r.date_after is None,
    {
        TransactionFilter { id: None, member_id: None, date: None, date_before: None, date_after: None }
    }
}

/// One month's owed membership fee: the amount in cents and the month it is
/// owed for (aligned to the first of the month by the fee engine).
pub struct MemberFee {
    pub amount: i64,
    pub date: Date,
}

/// The name of the month, as it appears in fee descriptions.
pub open spec fn spec_month_name(month: int) -> Seq<char> {
    if month == 1 {
        "January"@
    } else if month == 2 {
        "February"@
    } else if month == 3 {
        "March"@
    } else if month == 4 {
        "April"@
    } else if month == 5 {
        "May"@
    } else if month == 6 {
        "June"@
    } else if month == 7 {
        "July"@
    } else if month == 8 {
        "August"@
    } else if month == 9 {
        "September"@
    } else if month == 10 {
        "October"@
    } else if month == 11 {
        "November"@
    } else {
        "December"@
    }
}

/// Append the name of the month to `s`.
fn push_month_name(s: &mut String, month: u8)
    requires
        1 <= month <= 12,
    ensures
        final(s)@ == old(s)@ + spec_month_name(month as int),
{
    if month == 1 {
        s.append("January");
    } else if month == 2 {
        s.append("February");
    } else if month == 3 {
        s.append("March");
    } else if month == 4 {
        s.append("April");
    } else if month == 5 {
        s.append("May");
    } else if month == 6 {
        s.append("June");
    } else if month == 7 {
        s.append("July");
    } else if month == 8 {
        s.append("August");
    } else if month == 9 {
        s.append("September");
    } else if month == 10 {
        s.append("October");
    } else if month == 11 {
        s.append("November");
    } else {
        s.append("December");
    }
}

/// The description carried by a fee transaction: the fixed text, the month's
/// name and the year.
pub open spec fn spec_describe_fee(fee: MemberFee) -> Seq<char> {
    "Monthly member fee for "@ + spec_month_name(fee.date.month as int) + " "@ + dec_digits(
        fee.date.year as int,
    )
}

impl MemberFee {
    /// The description for the membership fee transaction.
    pub fn describe(&self) -> (r: String)
        requires
            1 <= self.date.month <= 12,
        ensures
            r@ == spec_describe_fee(*self),
    {
        let mut s = String::new();
        s.append("Monthly member fee for ");
        push_month_name(&mut s, self.date.month);
        s.append(" ");
        push_decimal(&mut s, self.date.year as u32);
        assert(s@ =~= spec_describe_fee(*self));
        s
    }

    /// The ledger entry for this fee: the amount negated (a fee is a debit),
    /// under the fixed fee description.
    pub fn to_transaction(&self) -> (r: Transaction)
        requires
            1 <= self.date.month <= 12,
            self.amount > i64::MIN,
        ensures
            r.id == 0 && r.member_id == 0,
            r.amount == -self.amount,
            r.date == self.date,
            r.account_name@ == "memberhip fee"@,
            r.description@ == spec_describe_fee(*self),
    {
        Transaction {
            id: 0,
            member_id: 0,
            date: self.date,
            account_name: String::from_str("memberhip fee"),
            amount: -self.amount,
            description: self.describe(),
        }
    }
}

} // verus!
