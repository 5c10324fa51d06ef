//! The member account model: identity and contact data, the membership
//! window, the recurring fee, the running balance, and the watermarks that
//! make repeated fee and import runs idempotent.

use vstd::prelude::*;
use vstd::utf8::encode_utf8;

use crate::dates::Date;
use crate::text::{bytes_eq, contains_bytes, lower_bytes, lower_of, spec_contains};

verus! {

/// A club member and their account state.
///
/// `account` is the running balance in cents; it is only ever changed by
/// posting a transaction through the ledger primitive. `account_calculated_at`
/// is the last month for which fee postings have been generated,
/// `last_payment_at` the last date on which a fee was actually charged, and
/// the `last_bank_transaction_*` pair the most recent bank statement line
/// applied to this member (by date, then by serial number).
pub struct Member {
    pub id: u32,
    pub name: String,
    pub email: String,
    pub notes: String,
    pub membership_start: Date,
    pub membership_end: Option<Date>,
    pub fee: i64,
    pub interval: u8,
    pub last_payment_at: Date,
    pub account_calculated_at: Date,
    pub account: i64,
    pub last_bank_transaction_at: Date,
    pub last_bank_transaction_number: u32,
}

/// A query filter for members. `name` filters by case-insensitive substring,
/// `email` by case-insensitive equality.
pub struct MemberFilter {
    pub id: Option<u32>,
    pub name: Option<String>,
    pub email: Option<String>,
}

/// Whether `m` passes the filter `f`.
pub open spec fn member_matches(m: Member, f: MemberFilter) -> bool {
    &&& match f.id {
        Some(id) => m.id == id,
        None => true,
    }
    &&& match f.name {
        Some(name) => spec_contains(
            lower_of(encode_utf8(m.name@)),
            lower_of(encode_utf8(name@)),
        ),
        None => true,
    }
    &&& match f.email {
        Some(email) => lower_of(encode_utf8(m.email@)) == lower_of(encode_utf8(email@)),
        None => true,
    }
}

impl Member {
    /// All the dates this member carries lie on the calendar.
    pub open spec fn dates_valid(self) -> bool {
        &&& self.membership_start.valid()
        &&& match self.membership_end {
            Some(end) => end.valid(),
            None => true,
        }
        &&& self.last_payment_at.valid()
        &&& self.account_calculated_at.valid()
        &&& self.last_bank_transaction_at.valid()
    }

    /// Membership covers `date`: the date does not precede the membership
    /// start, and does not exceed the membership end where one is set.
    /// This is the day-exact check; the fee engine uses the month-aligned
    /// variant.
    pub open spec fn spec_is_active(self, date: Date) -> bool {
        &&& !date.spec_lt(self.membership_start)
        &&& match self.membership_end {
            Some(end) => !end.spec_lt(date),
            None => true,
        }
    }

    /// Whether membership covers the given day.
    pub fn is_active(&self, date: Date) -> (r: bool)
        ensures
            r == self.spec_is_active(date),
    {
        if date.lt(&self.membership_start) {
            return false;
        }
        if let Some(end) = self.membership_end {
            if end.lt(&date) {
                return false;
            }
        }
        true
    }
}

impl Clone for Member {
    fn clone(&self) -> (r: Member)
        ensures
            r == *self,
    {
        Member {
            id: self.id,
            name: self.name.clone(),
            email: self.email.clone(),
            notes: self.notes.clone(),
            membership_start: self.membership_start,
            membership_end: self.membership_end,
            fee: self.fee,
            interval: self.interval,
            last_payment_at: self.last_payment_at,
            account_calculated_at: self.account_calculated_at,
            account: self.account,
            last_bank_transaction_at: self.last_bank_transaction_at,
            last_bank_transaction_number: self.last_bank_transaction_number,
        }
    }
}

impl Default for Member {
    /// An empty member record, starting (like every unset date) at the first
    /// day of 1970.
    fn default() -> (r: Member)
        ensures
            r.id == 0 && r.name@ == Seq::<char>::empty() && r.email@ == Seq::<char>::empty(),
            r.notes@ == Seq::<char>::empty(),
            r.membership_start == Date::epoch() && r.membership_end is None,
            r.fee == 0 && r.interval == 0 && r.account == 0,
            r.last_payment_at == Date::epoch(),
            r.account_calculated_at == Date::epoch(),
            r.last_bank_transaction_at == Date::epoch(),
            r.last_bank_transaction_number == 0,
            r.dates_valid(),
    {
        Member {
            id: 0,
            name: String::new(),
            email: String::new(),
            notes: String::new(),
            membership_start: Date::epoch(),
            membership_end: None,
            fee: 0,
            interval: 0,
            last_payment_at: Date::epoch(),
            account_calculated_at: Date::epoch(),
            account: 0,
            last_bank_transaction_at: Date::epoch(),
            last_bank_transaction_number: 0,
        }
    }
}

impl MemberFilter {
    /// Whether member `m` passes this filter.
    pub fn matches(&self, m: &Member) -> (r: bool)
        ensures
            r == member_matches(*m, *self),
    {
        if let Some(id) = self.id {
            if m.id != id {
                return false;
            }
        }
        if let Some(name) = &self.name {
            let hay = lower_bytes(m.name.as_str());
            let needle = lower_bytes(name.as_str());
            if !contains_bytes(&hay, &needle) {
                return false;
            }
        }
        if let Some(email) = &self.email {
            let a = lower_bytes(m.email.as_str());
            let b = lower_bytes(email.as_str());
            if !bytes_eq(&a, &b) {
                return false;
            }
        }
        true
    }
}

impl Clone for MemberFilter {
    fn clone(&self) -> (r: MemberFilter)
        ensures
            r == *self,
    {
        MemberFilter {
            id: self.id,
            name: match &self.name {
                Some(n) => Some(n.clone()),
                None => None,
            },
            email: match &self.email {
                Some(e) => Some(e.clone()),
                None => None,
            },
        }
    }
}

impl Default for MemberFilter {
    /// The filter that matches every member.
    fn default() -> (r: MemberFilter)
        ensures
            r.id is None && r.name is None && r.email is None,
    {
        MemberFilter { id: None, name: None, email: None }
    }
}

} // verus!
