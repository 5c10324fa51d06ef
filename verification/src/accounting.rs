//! The fee posting run: for one member, derives the owed monthly fees,
//! posts each through the ledger primitive, and advances the calculation
//! watermark — exactly once per run, after all fees are posted, and only
//! when something was posted.

use vstd::prelude::*;

use crate::dates::Date;
use crate::import::{find_member, lemma_find_member};
use crate::member_fees::{spec_calculate_fees, lemma_calculate_fees_idempotent};
use crate::members::Member;
use crate::store::{Database, QueryError, Retrieve, Update};
use crate::transactions::{spec_describe_fee, MemberFee};

verus! {

/// The sum of the amounts of a sequence of fees.
pub open spec fn sum_fees(fs: Seq<MemberFee>) -> int
    decreases fs.len(),
{
    if fs.len() == 0 {
        0
    } else {
        sum_fees(fs.drop_last()) + fs.last().amount
    }
}

/// With no negative fee amounts, the sum is nonnegative.
pub proof fn lemma_sum_fees_nonneg(fs: Seq<MemberFee>)
    requires
        forall|i: int| 0 <= i < fs.len() ==> (#[trigger] fs[i]).amount >= 0,
    ensures
        sum_fees(fs) >= 0,
    decreases fs.len(),
{
    if fs.len() > 0 {
        assert(forall|i: int|
            0 <= i < fs.len() - 1 ==> fs.drop_last()[i] == (#[trigger] fs[i]));
        lemma_sum_fees_nonneg(fs.drop_last());
        assert(fs.last() == fs[fs.len() - 1]);
    }
}

/// With no negative fee amounts, the sum over a prefix lies between zero and
/// the whole sum.
pub proof fn lemma_sum_fees_take_le(fs: Seq<MemberFee>, k: int)
    requires
        forall|i: int| 0 <= i < fs.len() ==> (#[trigger] fs[i]).amount >= 0,
        0 <= k <= fs.len(),
    ensures
        0 <= sum_fees(fs.take(k)) <= sum_fees(fs),
    decreases fs.len() - k,
{
    assert(forall|i: int| 0 <= i < k ==> fs.take(k)[i] == (#[trigger] fs[i]));
    lemma_sum_fees_nonneg(fs.take(k));
    if k < fs.len() {
        lemma_sum_fees_take_le(fs, k + 1);
        assert(fs.take(k + 1).drop_last() =~= fs.take(k));
        assert(fs.take(k + 1).last() == fs[k]);
    } else {
        assert(fs.take(k) =~= fs);
    }
}

/// Posts one member's owed fees through the ledger primitive: each fee
/// becomes a debit transaction, and after all postings the member's
/// calculation watermark is set to `end`. A member that owes nothing is left
/// untouched, watermark included. After a successful run, deriving the fees
/// again for the same `end` yields nothing.
pub fn post_member_fees(db: &mut Database, member_id: u32, end: Date) -> (r: Result<
    Member,
    QueryError,
>)
    requires
        old(db).wf(),
        end.valid(),
        end.day == 1,
        match find_member(old(db).members@, member_id) {
            Some(m) => {
                &&& m.fee >= 0
                &&& old(db).next_transaction_id + spec_calculate_fees(m, end).len()
                    <= u32::MAX
                &&& m.account - sum_fees(spec_calculate_fees(m, end)) >= i64::MIN
            },
            None => true,
        },
    ensures
        final(db).rules@ == old(db).rules@,
        final(db).next_member_id == old(db).next_member_id,
        final(db).wf(),
        match find_member(old(db).members@, member_id) {
            None => {
                &&& r == Err::<Member, QueryError>(QueryError::NotFound)
                &&& final(db).members@ == old(db).members@
                &&& final(db).transactions@ == old(db).transactions@
                &&& final(db).next_transaction_id == old(db).next_transaction_id
            },
            Some(m) => {
                let fees = spec_calculate_fees(m, end);
                if fees.len() == 0 {
                    &&& r == Ok::<Member, QueryError>(m)
                    &&& final(db).members@ == old(db).members@
                    &&& final(db).transactions@ == old(db).transactions@
                    &&& final(db).next_transaction_id == old(db).next_transaction_id
                } else {
                    let m2 = Member {
                        account: (m.account - sum_fees(fees)) as i64,
                        account_calculated_at: end,
                        ..m
                    };
                    &&& r == Ok::<Member, QueryError>(m2)
                    &&& final(db).members@.len() == old(db).members@.len()
                    &&& forall|j: int|
                        0 <= j < old(db).members@.len() && (#[trigger] old(
                            db,
                        ).members@[j]).id != member_id ==> final(db).members@[j] == old(
                            db,
                        ).members@[j]
                    &&& forall|j: int|
                        0 <= j < old(db).members@.len() && (#[trigger] old(
                            db,
                        ).members@[j]).id == member_id ==> final(db).members@[j] == m2
                    &&& final(db).transactions@.len() == old(db).transactions@.len()
                        + fees.len()
                    &&& forall|k: int|
                        0 <= k < old(db).transactions@.len() ==> final(db).transactions@[k]
                            == old(db).transactions@[k]
                    &&& forall|k: int|
                        0 <= k < fees.len() ==> {
                            let t = #[trigger] final(db).transactions@[old(
                                db,
                            ).transactions@.len() + k];
                            &&& t.id == old(db).next_transaction_id + k
                            &&& t.member_id == member_id
                            &&& t.date == fees[k].date
                            &&& t.amount == -fees[k].amount
                            &&& t.account_name@ == "memberhip fee"@
                            &&& t.description@ == spec_describe_fee(fees[k])
                        }
                    &&& final(db).next_transaction_id == old(db).next_transaction_id
                        + fees.len()
                }
            },
        },
        match r {
            Ok(m2) => spec_calculate_fees(m2, end).len() == 0,
            Err(_) => true,
        },
{
    let ghost db0 = *old(db);
    proof {
        lemma_find_member(db0.members@, member_id);
    }
    let found: Result<Member, QueryError> = db.retrieve(member_id);
    let m = match found {
        Ok(m) => m,
        Err(e) => {
            return Err(e);
        },
    };
    proof {
        let i = choose|i: int| 0 <= i < db0.members@.len() && db0.members@[i] == m;
        assert(db0.members@[i].id == m.id);
        assert(find_member(db0.members@, member_id) == Some(m));
    }
    let fees = m.calculate_fees(end);
    if fees.len() == 0 {
        proof {
            assert(spec_calculate_fees(m, end) =~= Seq::<MemberFee>::empty());
        }
        return Ok(m);
    }
    let ghost fseq = spec_calculate_fees(m, end);
    let mut cur = m;
    let mut k: usize = 0;
    proof {
        assert(fees@.take(0) =~= Seq::<MemberFee>::empty());
        lemma_sum_fees_take_le(fseq, 0);
    }
    while k < fees.len()
        invariant
            db.wf(),
            db0.wf(),
            end.valid(),
            fees@ == fseq,
            fseq.len() > 0,
            k <= fseq.len(),
            m.fee >= 0,
            db0.next_transaction_id + fseq.len() <= u32::MAX,
            m.account - sum_fees(fseq) >= i64::MIN,
            crate::store::has_member(db0.members@, member_id),
            find_member(db0.members@, member_id) == Some(m),
            forall|i: int|
                0 <= i < fseq.len() ==> (#[trigger] fseq[i]).amount == m.fee
                    && fseq[i].date.valid() && 1 <= fseq[i].date.month <= 12,
            cur == (Member { account: (m.account - sum_fees(fseq.take(k as int))) as i64, ..m }),
            db.members@.len() == db0.members@.len(),
            forall|j: int|
                0 <= j < db0.members@.len() && (#[trigger] db0.members@[j]).id != member_id
                    ==> db.members@[j] == db0.members@[j],
            forall|j: int|
                0 <= j < db0.members@.len() && (#[trigger] db0.members@[j]).id == member_id
                    ==> db.members@[j] == cur,
            db.transactions@.len() == db0.transactions@.len() + k,
            forall|i: int|
                0 <= i < db0.transactions@.len() ==> db.transactions@[i]
                    == db0.transactions@[i],
            forall|i: int|
                0 <= i < k ==> {
                    let t = #[trigger] db.transactions@[db0.transactions@.len() + i];
                    &&& t.id == db0.next_transaction_id + i
                    &&& t.member_id == member_id
                    &&& t.date == fseq[i].date
                    &&& t.amount == -fseq[i].amount
                    &&& t.account_name@ == "memberhip fee"@
                    &&& t.description@ == spec_describe_fee(fseq[i])
                },
            db.next_transaction_id == db0.next_transaction_id + k,
            db.rules@ == db0.rules@,
            db.next_member_id == db0.next_member_id,
            m.id == member_id,
            cur.id == member_id,
            cur.dates_valid(),
        decreases fseq.len() - k,
    {
        proof {
            lemma_sum_fees_take_le(fseq, k as int);
            assert(fseq.take(k as int + 1).drop_last() =~= fseq.take(k as int));
            assert(fseq.take(k as int + 1).last() == fseq[k as int]);
            lemma_sum_fees_take_le(fseq, k as int + 1);
        }
        let fee = MemberFee { amount: fees[k].amount, date: fees[k].date };
        assert(fee == fseq[k as int]);
        let entry = fee.to_transaction();
        let ghost db_pre = *db;
        let posted = cur.apply_transaction(db, entry);
        cur = match posted {
            Ok(next) => next,
            Err(_) => {
                proof {
                    let j = choose|j: int|
                        0 <= j < db0.members@.len() && (#[trigger] db0.members@[j]).id
                            == member_id;
                    assert(db_pre.members@[j] == cur);
                    assert(crate::store::has_member(db_pre.members@, member_id));
                    assert(false);
                }
                return Err(QueryError::NotFound);
            },
        };
        k += 1;
    }
    proof {
        assert(fseq.take(fseq.len() as int) =~= fseq);
    }
    cur.account_calculated_at = end;
    let ghost db_pre = *db;
    let updated = db.update(cur);
    match updated {
        Ok(m2) => {
            proof {
                assert(m2.account_calculated_at.month_index() >= end.month_index());
                lemma_calculate_fees_idempotent(m2, end);
            }
            Ok(m2)
        },
        Err(_) => {
            proof {
                let j = choose|j: int|
                    0 <= j < db0.members@.len() && (#[trigger] db0.members@[j]).id
                        == member_id;
                assert(db_pre.members@[j] == (Member {
                    account: (m.account - sum_fees(fseq)) as i64,
                    ..m
                }));
                assert(crate::store::has_member(db_pre.members@, member_id));
                assert(false);
            }
            Err(QueryError::NotFound)
        },
    }
}

} // verus!
