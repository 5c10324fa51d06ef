//! The ledger primitive: atomically posting one monetary movement for a
//! member and updating the running balance. Every other component changes an
//! account only through it, which is what keeps each balance equal to the sum
//! of the member's ledger entries.

use vstd::prelude::*;

use crate::members::Member;
use crate::store::{has_member, Database, Insert, QueryError, Retrieve, Update};
use crate::transactions::Transaction;

verus! {

/// The sum of the amounts of a sequence of ledger entries.
pub open spec fn sum_amounts(ts: Seq<Transaction>) -> int
    decreases ts.len(),
{
    if ts.len() == 0 {
        0
    } else {
        sum_amounts(ts.drop_last()) + ts.last().amount
    }
}

/// The sum of the amounts posted to one member.
pub open spec fn member_total(ts: Seq<Transaction>, member_id: u32) -> int {
    sum_amounts(ts.filter(|t: Transaction| t.member_id == member_id))
}

/// Every member's balance equals the sum of the ledger entries posted to it.
pub open spec fn balanced(db: Database) -> bool {
    forall|i: int|
        0 <= i < db.members@.len() ==> (#[trigger] db.members@[i]).account == member_total(
            db.transactions@,
            db.members@[i].id,
        )
}

/// Appending one ledger entry raises the posted total of its member by the
/// entry's amount and leaves every other member's total unchanged.
pub proof fn lemma_member_total_push(ts: Seq<Transaction>, t: Transaction, member_id: u32)
    ensures
        member_total(ts.push(t), member_id) == member_total(ts, member_id) + if t.member_id
            == member_id {
            t.amount as int
        } else {
            0
        },
{
    reveal(Seq::filter);
    let pred = |x: Transaction| x.member_id == member_id;
    assert(ts.push(t).drop_last() =~= ts);
    if pred(t) {
        assert(ts.push(t).filter(pred) == ts.filter(pred).push(t));
        assert(ts.filter(pred).push(t).drop_last() =~= ts.filter(pred));
    }
}

impl Member {
    /// The ledger primitive. Binds the entry to this member (the caller's
    /// `member_id` is overwritten), appends it to the ledger, adds its amount
    /// to the member's balance, persists the member, and returns the
    /// refreshed member. The insert and the update form one all-or-nothing
    /// unit: on the one failure the store admits (this member is not
    /// stored), nothing is persisted and the store is unchanged.
    ///
    /// Where the store was balanced and `self` is the member's stored state,
    /// posting keeps it balanced: the balance invariant is preserved by every
    /// call.
    pub fn apply_transaction(self, db: &mut Database, tx: Transaction) -> (r: Result<
        Member,
        QueryError,
    >)
        requires
            old(db).wf(),
            old(db).next_transaction_id < u32::MAX,
            self.dates_valid(),
            i64::MIN <= self.account + tx.amount <= i64::MAX,
        ensures
            final(db).rules@ == old(db).rules@,
            final(db).next_member_id == old(db).next_member_id,
            final(db).wf(),
            match r {
                Ok(m) => {
                    &&& m == (Member { account: (self.account + tx.amount) as i64, ..self })
                    &&& has_member(old(db).members@, self.id)
                    &&& final(db).transactions@ == old(db).transactions@.push(
                        Transaction {
                            id: old(db).next_transaction_id,
                            member_id: self.id,
                            ..tx
                        },
                    )
                    &&& final(db).next_transaction_id == old(db).next_transaction_id + 1
                    &&& final(db).members@.len() == old(db).members@.len()
                    &&& forall|j: int|
                        0 <= j < old(db).members@.len() && (#[trigger] old(db).members@[j]).id
                            != self.id ==> final(db).members@[j] == old(db).members@[j]
                    &&& forall|j: int|
                        0 <= j < old(db).members@.len() && (#[trigger] old(db).members@[j]).id
                            == self.id ==> final(db).members@[j] == m
                },
                Err(e) => {
                    &&& e == QueryError::NotFound
                    &&& !has_member(old(db).members@, self.id)
                    &&& final(db).members@ == old(db).members@
                    &&& final(db).transactions@ == old(db).transactions@
                    &&& final(db).next_transaction_id == old(db).next_transaction_id
                },
            },
            balanced(*old(db)) && old(db).members@.contains(self) ==> balanced(*final(db)),
    {
        // The update below can only fail when the member is not stored;
        // checking that first keeps insert-plus-update all-or-nothing.
        let stored_member: Result<Member, QueryError> = db.retrieve(self.id);
        if stored_member.is_err() {
            return Err(QueryError::NotFound);
        }
        let member_id = self.id;
        let tx = Transaction { member_id, ..tx };
        let inserted = match db.insert(tx) {
            Ok(t) => t,
            Err(_) => {
                proof {
                    assert(false);
                }
                return Err(QueryError::NotFound);
            },
        };
        let mut member = self;
        member.account = member.account + inserted.amount;
        proof {
            let i = choose|i: int|
                0 <= i < old(db).members@.len() && (#[trigger] old(db).members@[i]).id
                    == self.id;
            assert(old(db).members@[i].id < old(db).next_member_id);
        }
        let updated = db.update(member);
        let refreshed = match updated {
            Ok(m) => m,
            Err(_) => {
                proof {
                    assert(false);
                }
                return Err(QueryError::NotFound);
            },
        };
        proof {
            let db0 = *old(db);
            let stored = Transaction {
                id: db0.next_transaction_id,
                member_id: self.id,
                ..tx
            };
            assert(final(db).transactions@ == db0.transactions@.push(stored));
            if balanced(db0) && db0.members@.contains(self) {
                let i0 = choose|i: int|
                    0 <= i < db0.members@.len() && db0.members@[i] == self;
                assert(db0.members@[i0].account == member_total(db0.transactions@, self.id));
                assert forall|j: int|
                    0 <= j < final(db).members@.len() implies (#[trigger] final(db).members@[j]).account
                    == member_total(final(db).transactions@, final(db).members@[j].id) by {
                    lemma_member_total_push(db0.transactions@, stored, db0.members@[j].id);
                    if db0.members@[j].id == self.id {
                        assert(db0.members@[j] == self);
                        assert(final(db).members@[j].id == self.id);
                        lemma_member_total_push(db0.transactions@, stored, self.id);
                    } else {
                        assert(final(db).members@[j] == db0.members@[j]);
                    }
                }
            }
        }
        Ok(refreshed)
    }
}

} // verus!
