//! The fee engine: derives the month-aligned sequence of fee postings a
//! member owes, from the membership window, the calculation watermark and the
//! last out-of-band payment.

use vstd::prelude::*;

use crate::dates::{date_of_index, month_date, AlignStart, Date, MAX_YEAR};
use crate::dates::lemma_month_order;
use crate::members::Member;
use crate::transactions::MemberFee;

verus! {

/// Membership covers the month with index `idx`: the month does not precede
/// the membership start's month, and does not exceed the membership end's
/// month where one is set. Membership counts for the entire month.
pub open spec fn month_active(m: Member, idx: int) -> bool {
    &&& idx >= m.membership_start.month_index()
    &&& match m.membership_end {
        Some(end) => idx <= end.month_index(),
        None => true,
    }
}

/// A fee is owed for the month `idx` iff the member is active in it and the
/// month lies after the month of the last out-of-band payment.
pub open spec fn owes_fee_at(m: Member, idx: int) -> bool {
    month_active(m, idx) && idx > m.last_payment_at.month_index()
}

/// The fee owed for the month `idx`.
pub open spec fn fee_at(m: Member, idx: int) -> MemberFee {
    MemberFee { amount: m.fee, date: date_of_index(idx) }
}

/// The fees owed for the months `lo` to `hi` inclusive, in month order.
pub open spec fn spec_fees(m: Member, lo: int, hi: int) -> Seq<MemberFee>
    decreases hi + 1 - lo,
{
    if lo > hi {
        Seq::empty()
    } else {
        spec_fees(m, lo, hi - 1) + if owes_fee_at(m, hi) {
            seq![fee_at(m, hi)]
        } else {
            Seq::empty()
        }
    }
}

/// The first month the fee run may charge: the later of the membership
/// start's month and the month after the calculation watermark.
pub open spec fn fee_start_index(m: Member) -> int {
    if m.membership_start.month_index() >= m.account_calculated_at.month_index() + 1 {
        m.membership_start.month_index()
    } else {
        m.account_calculated_at.month_index() + 1
    }
}

/// What `calculate_fees` returns: the owed fees for the months from the
/// start of the window through `end`'s month.
pub open spec fn spec_calculate_fees(m: Member, end: Date) -> Seq<MemberFee> {
    spec_fees(m, fee_start_index(m), end.month_index())
}

/// Every fee in a window lies in that window, is owed, carries the member's
/// fee amount, and is dated on the first of its month.
pub proof fn lemma_spec_fees_bounds(m: Member, lo: int, hi: int)
    requires
        12 <= lo,
        hi <= MAX_YEAR * 12 + 11,
    ensures
        forall|k: int|
            0 <= k < spec_fees(m, lo, hi).len() ==> {
                let f = #[trigger] spec_fees(m, lo, hi)[k];
                &&& f.amount == m.fee
                &&& f.date.day == 1
                &&& f.date.valid()
                &&& lo <= f.date.month_index() <= hi
                &&& owes_fee_at(m, f.date.month_index())
            },
    decreases hi + 1 - lo,
{
    if lo <= hi {
        lemma_spec_fees_bounds(m, lo, hi - 1);
        let s = spec_fees(m, lo, hi);
        let p = spec_fees(m, lo, hi - 1);
        assert forall|k: int| 0 <= k < s.len() implies {
            let f = #[trigger] s[k];
            &&& f.amount == m.fee
            &&& f.date.day == 1
            &&& f.date.valid()
            &&& lo <= f.date.month_index() <= hi
            &&& owes_fee_at(m, f.date.month_index())
        } by {
            if k < p.len() {
                assert(s[k] == p[k]);
            } else {
                assert(owes_fee_at(m, hi) && s[k] == fee_at(m, hi));
                let f = fee_at(m, hi);
                assert(hi / 12 >= 1 && hi / 12 <= MAX_YEAR);
                assert(f.date.month_index() == (hi / 12) * 12 + (hi % 12));
                assert((hi / 12) * 12 + (hi % 12) == hi);
            }
        }
    }
}

/// Whether the member is active for the month of `date`: membership counts
/// for the entire month, so the dates are aligned to the first of the month
/// before comparing.
pub fn is_member_active(member: &Member, date: Date) -> (r: bool)
    requires
        member.dates_valid(),
        date.valid(),
    ensures
        r == month_active(*member, date.month_index()),
{
    let date = date.align_start();
    let start = member.membership_start.align_start();
    proof {
        lemma_month_order(date, start);
    }
    if date.lt(&start) {
        return false;
    }
    if let Some(end) = member.membership_end {
        let end = end.align_start();
        proof {
            lemma_month_order(end, date);
        }
        if end.lt(&date) {
            return false;
        }
    }
    true
}

impl Member {
    /// The fee engine: the owed monthly fees from the start of the unbilled
    /// window through `end`'s month, in month order. A month is charged iff
    /// membership covers it, it lies after the calculation watermark
    /// (`account_calculated_at`) and after the membership start, and it lies
    /// after the month of the last out-of-band payment (`last_payment_at`).
    pub fn calculate_fees(&self, end: Date) -> (r: Vec<MemberFee>)
        requires
            self.dates_valid(),
            end.valid(),
        ensures
            r@ == spec_calculate_fees(*self, end),
            forall|k: int|
                0 <= k < r@.len() ==> {
                    let f = #[trigger] r@[k];
                    &&& f.amount == self.fee
                    &&& f.date.day == 1
                    &&& f.date.valid()
                    &&& month_active(*self, f.date.month_index())
                    &&& f.date.month_index() > self.last_payment_at.month_index()
                    &&& f.date.month_index() > self.account_calculated_at.month_index()
                    &&& f.date.month_index() >= self.membership_start.month_index()
                    &&& f.date.month_index() <= end.month_index()
                },
    {
        let end_idx: u32 = end.year as u32 * 12 + end.month as u32 - 1;
        let last_calc_idx: u32 = self.account_calculated_at.year as u32 * 12
            + self.account_calculated_at.month as u32 - 1;
        let ms_idx: u32 = self.membership_start.year as u32 * 12 + self.membership_start.month
            as u32 - 1;
        let lp_idx: u32 = self.last_payment_at.year as u32 * 12 + self.last_payment_at.month
            as u32 - 1;
        let start_idx: u32 = if ms_idx >= last_calc_idx + 1 {
            ms_idx
        } else {
            last_calc_idx + 1
        };
        assert(start_idx == fee_start_index(*self));
        let mut fees: Vec<MemberFee> = Vec::new();
        if start_idx > end_idx {
            assert(fees@ =~= spec_calculate_fees(*self, end));
            proof {
                lemma_spec_fees_bounds(*self, start_idx as int, end_idx as int);
            }
            return fees;
        }
        let mut idx: u32 = start_idx;
        assert(fees@ =~= spec_fees(*self, start_idx as int, idx - 1));
        while idx <= end_idx
            invariant
                self.dates_valid(),
                12 <= start_idx <= idx <= end_idx + 1,
                end_idx <= MAX_YEAR * 12 + 11,
                end_idx == end.month_index(),
                start_idx == fee_start_index(*self),
                lp_idx == self.last_payment_at.month_index(),
                fees@ == spec_fees(*self, start_idx as int, idx - 1),
            decreases end_idx + 1 - idx,
        {
            let date = month_date(idx);
            if is_member_active(self, date) && lp_idx < idx {
                fees.push(MemberFee { amount: self.fee, date });
                assert(fees@ =~= spec_fees(*self, start_idx as int, idx as int));
            } else {
                assert(fees@ =~= spec_fees(*self, start_idx as int, idx as int));
            }
            idx += 1;
        }
        proof {
            lemma_spec_fees_bounds(*self, start_idx as int, end_idx as int);
        }
        fees
    }
}

/// Running the fee engine again for the same end month, after the
/// calculation watermark has been advanced to it, yields nothing: the window
/// starts after the watermark, so it is empty.
pub proof fn lemma_calculate_fees_idempotent(m: Member, end: Date)
    requires
        m.account_calculated_at.month_index() >= end.month_index(),
    ensures
        spec_calculate_fees(m, end) == Seq::<MemberFee>::empty(),
{
    assert(fee_start_index(m) > end.month_index());
}

} // verus!
