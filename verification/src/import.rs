//! The import engine: maps an incoming bank transaction to member accounts
//! under the iban rules, with the subject filter, the per-member
//! duplicate/ordering guard, split allocation and the overflow posting, and
//! the statement-level plausibility check on the import date.

use vstd::prelude::*;
use vstd::string::StringExecFns;

use crate::bank_import::{spec_subject_accepted, BankImportRule, BankImportRuleFilter};
use crate::dates::Date;
use crate::members::{member_matches, Member, MemberFilter};
use crate::store::{has_member, Database, Insert, Query, QueryError, Retrieve, Update};
use crate::transactions::Transaction;

verus! {

/// A normalized incoming bank-statement line. `num` is its position within
/// the statement; `amount` is in cents, positive for a credit.
#[derive(Debug)]
pub struct BankTransaction {
    pub num: u32,
    pub date: Date,
    pub name: String,
    pub iban: String,
    pub amount: i64,
    pub subject: String,
}

impl Clone for BankTransaction {
    fn clone(&self) -> (r: BankTransaction)
        ensures
            r == *self,
    {
        BankTransaction {
            num: self.num,
            date: self.date,
            name: self.name.clone(),
            iban: self.iban.clone(),
            amount: self.amount,
            subject: self.subject.clone(),
        }
    }
}

impl Default for BankTransaction {
    /// An empty statement line dated at the first day of 1970.
    fn default() -> (r: BankTransaction)
        ensures
            r.num == 0 && r.amount == 0,
            r.date == Date::epoch(),
            r.name@ == Seq::<char>::empty(),
            r.iban@ == Seq::<char>::empty(),
            r.subject@ == Seq::<char>::empty(),
    {
        BankTransaction {
            num: 0,
            date: Date::epoch(),
            name: String::new(),
            iban: String::new(),
            amount: 0,
            subject: String::new(),
        }
    }
}

/// Why an import failed.
#[derive(Debug)]
pub enum BankImportError {
    /// No rule exists for the iban and the counterpart name does not map to
    /// exactly one member; carries the transaction for manual review.
    AccountMatchFailed(BankTransaction),
    /// A split rule demands more than what remains of the amount; carries
    /// the transaction.
    InsufficientAmountForSplit(BankTransaction),
    /// The member's watermark pair (date, serial number) already covers this
    /// line; carries the stored pair.
    MoreRecentTransactionPresent(Date, u32),
    /// The statement is older than recorded data: carries the import date
    /// and the newest recorded date at or past it.
    NewerTransactionsPresent(Date, Date),
    /// A store lookup failed.
    Storage(QueryError),
}

/// The watermark pair `(d1, n1)` lies strictly before `(d2, n2)`,
/// lexicographically: first by date, then by serial number.
pub open spec fn wm_lt(d1: Date, n1: u32, d2: Date, n2: u32) -> bool {
    d1.spec_lt(d2) || (d1 == d2 && n1 < n2)
}

/// One planned posting: the member it goes to, the amount in cents, and how
/// its description is suffixed. An overflow posting does not advance the
/// member's watermark.
pub struct Posting {
    pub member_id: u32,
    pub amount: i64,
    pub split: bool,
    pub overflow: bool,
}

/// The description the posting's ledger entry carries.
pub open spec fn posting_desc(tx: BankTransaction, p: Posting) -> Seq<char> {
    if p.overflow {
        tx.subject@ + " (overflow)"@
    } else if p.split {
        tx.subject@ + " (split)"@
    } else {
        tx.subject@
    }
}

/// The first stored member with the given id.
pub open spec fn find_member(members: Seq<Member>, id: u32) -> Option<Member>
    decreases members.len(),
{
    if members.len() == 0 {
        None
    } else if members[0].id == id {
        Some(members[0])
    } else {
        find_member(members.drop_first(), id)
    }
}

/// `find_member` finds a member exactly when one is stored, and in a store
/// with unique identities it finds the stored record.
pub proof fn lemma_find_member(members: Seq<Member>, id: u32)
    ensures
        find_member(members, id) is Some <==> has_member(members, id),
        match find_member(members, id) {
            Some(m) => members.contains(m) && m.id == id,
            None => true,
        },
        (forall|i: int, j: int| 0 <= i < j < members.len() ==> members[i].id != members[j].id)
            ==> (forall|i: int|
            0 <= i < members.len() && (#[trigger] members[i]).id == id ==> find_member(
                members,
                id,
            ) == Some(members[i])),
    decreases members.len(),
{
    if members.len() > 0 {
        let rest = members.drop_first();
        lemma_find_member(rest, id);
        assert(forall|i: int| 0 <= i < rest.len() ==> rest[i] == members[i + 1]);
        if members[0].id == id {
            assert(has_member(members, id));
            assert(members.contains(members[0]));
            if forall|i: int, j: int|
                0 <= i < j < members.len() ==> members[i].id != members[j].id {
                assert forall|i: int|
                    0 <= i < members.len() && (#[trigger] members[i]).id == id implies find_member(
                    members,
                    id,
                ) == Some(members[i]) by {
                    if i > 0 {
                        assert(members[0].id != members[i].id);
                    }
                }
            }
        } else {
            if has_member(members, id) {
                let i = choose|i: int| 0 <= i < members.len() && members[i].id == id;
                assert(i > 0);
                assert(rest[i - 1] == members[i]);
                assert(has_member(rest, id));
            }
            if has_member(rest, id) {
                let i = choose|i: int| 0 <= i < rest.len() && rest[i].id == id;
                assert(members[i + 1] == rest[i]);
                assert(has_member(members, id));
            }
            match find_member(rest, id) {
                Some(m) => {
                    let i = choose|i: int| 0 <= i < rest.len() && rest[i] == m;
                    assert(members[i + 1] == m);
                    assert(members.contains(m));
                },
                None => {},
            }
            if forall|i: int, j: int|
                0 <= i < j < members.len() ==> members[i].id != members[j].id {
                assert(forall|i: int, j: int|
                    0 <= i < j < rest.len() ==> rest[i].id != rest[j].id);
                assert forall|i: int|
                    0 <= i < members.len() && (#[trigger] members[i]).id == id implies find_member(
                    members,
                    id,
                ) == Some(members[i]) by {
                    assert(i > 0);
                    assert(rest[i - 1] == members[i]);
                    assert(find_member(rest, id) == Some(rest[i - 1]));
                }
            }
        }
    }
}

/// The sum of the amounts of a sequence of postings.
pub open spec fn sum_postings(ps: Seq<Posting>) -> int
    decreases ps.len(),
{
    if ps.len() == 0 {
        0
    } else {
        sum_postings(ps.drop_last()) + ps.last().amount
    }
}

/// The sum of the amounts posted to one member.
pub open spec fn posted_to(ps: Seq<Posting>, id: u32) -> int
    decreases ps.len(),
{
    if ps.len() == 0 {
        0
    } else {
        posted_to(ps.drop_last(), id) + if ps.last().member_id == id {
            ps.last().amount as int
        } else {
            0
        }
    }
}

/// Some posting to this member advances the watermark (is not an overflow
/// posting).
pub open spec fn has_primary(ps: Seq<Posting>, id: u32) -> bool {
    exists|k: int| 0 <= k < ps.len() && (#[trigger] ps[k]).member_id == id && !ps[k].overflow
}

/// No posting carries a negative amount.
pub open spec fn nonneg_postings(ps: Seq<Posting>) -> bool {
    forall|k: int| 0 <= k < ps.len() ==> (#[trigger] ps[k]).amount >= 0
}

/// With no negative amounts, what one member receives lies between zero and
/// the sum of all postings.
pub proof fn lemma_posted_le_sum(ps: Seq<Posting>, id: u32)
    requires
        nonneg_postings(ps),
    ensures
        0 <= posted_to(ps, id) <= sum_postings(ps),
    decreases ps.len(),
{
    if ps.len() > 0 {
        assert(nonneg_postings(ps.drop_last())) by {
            assert(forall|k: int|
                0 <= k < ps.len() - 1 ==> ps.drop_last()[k] == (#[trigger] ps[k]));
        }
        lemma_posted_le_sum(ps.drop_last(), id);
        assert(ps.last() == ps[ps.len() - 1]);
    }
}

/// With no negative amounts, the sum over a prefix is at most the whole sum.
pub proof fn lemma_sum_take_le(ps: Seq<Posting>, k: int)
    requires
        nonneg_postings(ps),
        0 <= k <= ps.len(),
    ensures
        sum_postings(ps.take(k)) <= sum_postings(ps),
    decreases ps.len() - k,
{
    if k < ps.len() {
        lemma_sum_take_le(ps, k + 1);
        assert(ps.take(k + 1).drop_last() =~= ps.take(k));
        assert(ps.take(k + 1).last() == ps[k]);
    } else {
        assert(ps.take(k) =~= ps);
    }
}

/// The member's state after a set of postings for the statement line `tx`:
/// the balance raised by what was posted to it, and the watermark pair
/// advanced to the line's (date, serial number) iff some non-overflow
/// posting went to it.
pub open spec fn member_after(m: Member, ps: Seq<Posting>, tx: BankTransaction) -> Member {
    Member {
        account: (m.account + posted_to(ps, m.id)) as i64,
        last_bank_transaction_at: if has_primary(ps, m.id) {
            tx.date
        } else {
            m.last_bank_transaction_at
        },
        last_bank_transaction_number: if has_primary(ps, m.id) {
            tx.num
        } else {
            m.last_bank_transaction_number
        },
        ..m
    }
}

/// The allocation plan for `tx` over `rules`, read in order, starting with
/// `remaining` cents undistributed. A rule whose subject filter rejects the
/// line is skipped. Otherwise the rule's member is resolved and its
/// watermark checked; a split rule then claims its fixed amount (failing the
/// whole import when more than what remains), and a rule without a split
/// amount claims the entire remainder.
pub open spec fn plan_rules(
    db: Database,
    tx: BankTransaction,
    rules: Seq<BankImportRule>,
    remaining: int,
) -> Result<Seq<Posting>, BankImportError>
    decreases rules.len(),
{
    if rules.len() == 0 {
        Ok(Seq::empty())
    } else {
        let rule = rules[0];
        if !spec_subject_accepted(rule, tx.subject@) {
            plan_rules(db, tx, rules.drop_first(), remaining)
        } else {
            match find_member(db.members@, rule.member_id) {
                None => Err(BankImportError::Storage(QueryError::NotFound)),
                Some(m) => if !wm_lt(
                    m.last_bank_transaction_at,
                    m.last_bank_transaction_number,
                    tx.date,
                    tx.num,
                ) {
                    Err(
                        BankImportError::MoreRecentTransactionPresent(
                            m.last_bank_transaction_at,
                            m.last_bank_transaction_number,
                        ),
                    )
                } else {
                    match rule.split_amount {
                        Some(s) => if s > remaining {
                            Err(BankImportError::InsufficientAmountForSplit(tx))
                        } else {
                            match plan_rules(db, tx, rules.drop_first(), remaining - s) {
                                Ok(ps) => Ok(
                                    seq![
                                        Posting {
                                            member_id: rule.member_id,
                                            amount: s,
                                            split: true,
                                            overflow: false,
                                        },
                                    ] + ps,
                                ),
                                Err(e) => Err(e),
                            }
                        },
                        None => match plan_rules(db, tx, rules.drop_first(), 0) {
                            Ok(ps) => Ok(
                                seq![
                                    Posting {
                                        member_id: rule.member_id,
                                        amount: remaining as i64,
                                        split: false,
                                        overflow: false,
                                    },
                                ] + ps,
                            ),
                            Err(e) => Err(e),
                        },
                    }
                },
            }
        }
    }
}

/// The rules stored for an iban, in storage order.
pub open spec fn rules_for_iban(rules: Seq<BankImportRule>, iban: Seq<char>) -> Seq<
    BankImportRule,
> {
    rules.filter(|r: BankImportRule| r.iban@ == iban)
}

/// The members whose name the import engine accepts for `tx`'s counterpart
/// name (the name filter of the member query).
pub open spec fn name_candidates(members: Seq<Member>, tx: BankTransaction) -> Seq<Member> {
    members.filter(
        |m: Member|
            member_matches(
                m,
                MemberFilter { id: None, name: Some(tx.name), email: None },
            ),
    )
}

/// The default rule the engine synthesizes for an unknown iban: bound to the
/// single name-matched member, with no split and no subject filter.
pub open spec fn default_rule_for(member: Member, tx: BankTransaction) -> BankImportRule {
    BankImportRule {
        member_id: member.id,
        iban: tx.iban,
        split_amount: None,
        match_subject: None,
    }
}

/// The store's views are unchanged between two states.
pub open spec fn db_unchanged(db0: Database, db1: Database) -> bool {
    &&& db1.members@ == db0.members@
    &&& db1.transactions@ == db0.transactions@
    &&& db1.rules@ == db0.rules@
    &&& db1.next_member_id == db0.next_member_id
    &&& db1.next_transaction_id == db0.next_transaction_id
}

/// The postings `ps` have been applied to `db0`, giving `db1`: one ledger
/// entry appended per posting, in order, under consecutive identities, and
/// every member in the state `member_after` describes.
pub open spec fn applied(
    db0: Database,
    db1: Database,
    tx: BankTransaction,
    ps: Seq<Posting>,
) -> bool {
    &&& db1.transactions@.len() == db0.transactions@.len() + ps.len()
    &&& forall|k: int|
        0 <= k < db0.transactions@.len() ==> db1.transactions@[k] == db0.transactions@[k]
    &&& forall|k: int|
        0 <= k < ps.len() ==> {
            let t = #[trigger] db1.transactions@[db0.transactions@.len() + k];
            &&& t.id == db0.next_transaction_id + k
            &&& t.member_id == ps[k].member_id
            &&& t.date == tx.date
            &&& t.amount == ps[k].amount
            &&& t.account_name@ == tx.name@
            &&& t.description@ == posting_desc(tx, ps[k])
        }
    &&& db1.next_transaction_id == db0.next_transaction_id + ps.len()
    &&& db1.members@.len() == db0.members@.len()
    &&& forall|j: int|
        0 <= j < db0.members@.len() ==> db1.members@[j] == member_after(
            #[trigger] db0.members@[j],
            ps,
            tx,
        )
    &&& db1.next_member_id == db0.next_member_id
}

impl BankTransaction {
    /// The duplicate/ordering guard: fails iff the member's stored watermark
    /// pair is at or past this line's (date, serial number) pair,
    /// lexicographically.
    pub fn check_last_member_transcation(&self, member: &Member) -> (r: Result<
        (),
        BankImportError,
    >)
        ensures
            match r {
                Ok(()) => wm_lt(
                    member.last_bank_transaction_at,
                    member.last_bank_transaction_number,
                    self.date,
                    self.num,
                ),
                Err(e) => !wm_lt(
                    member.last_bank_transaction_at,
                    member.last_bank_transaction_number,
                    self.date,
                    self.num,
                ) && e == BankImportError::MoreRecentTransactionPresent(
                    member.last_bank_transaction_at,
                    member.last_bank_transaction_number,
                ),
            },
    {
        let at = member.last_bank_transaction_at;
        let num = member.last_bank_transaction_number;
        if at.lt(&self.date) || (at == self.date && num < self.num) {
            Ok(())
        } else {
            Err(BankImportError::MoreRecentTransactionPresent(at, num))
        }
    }

    /// Looks the counterpart name up among the members and, where it maps to
    /// exactly one member, stores and returns a default rule for this iban.
    /// With zero or several name matches the import cannot be resolved.
    pub fn make_default_rule(&self, db: &mut Database) -> (r: Result<
        BankImportRule,
        BankImportError,
    >)
        requires
            old(db).wf(),
            rules_for_iban(old(db).rules@, self.iban@).len() == 0,
        ensures
            final(db).members@ == old(db).members@,
            final(db).transactions@ == old(db).transactions@,
            final(db).next_member_id == old(db).next_member_id,
            final(db).next_transaction_id == old(db).next_transaction_id,
            final(db).wf(),
            ({
                let candidates = name_candidates(old(db).members@, *self);
                if candidates.len() == 1 {
                    let rule = default_rule_for(candidates[0], *self);
                    match r {
                        Ok(got) => got == rule && final(db).rules@ == old(db).rules@.push(rule),
                        Err(_) => false,
                    }
                } else {
                    r == Err::<BankImportRule, BankImportError>(
                        BankImportError::AccountMatchFailed(*self),
                    ) && final(db).rules@ == old(db).rules@
                }
            }),
    {
        let filter = MemberFilter { id: None, name: Some(self.name.clone()), email: None };
        let members: Vec<Member> = db.query(&filter);
        proof {
            let c1 = |m: Member| member_matches(m, filter);
            let c2 = |m: Member|
                member_matches(m, MemberFilter { id: None, name: Some(self.name), email: None });
            assert(c1 =~= c2);
        }
        if members.len() != 1 {
            return Err(BankImportError::AccountMatchFailed(self.clone()));
        }
        let rule = BankImportRule {
            member_id: members[0].id,
            iban: self.iban.clone(),
            split_amount: None,
            match_subject: None,
        };
        let ghost rules0 = db.rules@;
        match db.insert(rule.clone()) {
            Ok(stored) => {
                proof {
                    let c3 = |x: BankImportRule|
                        x.member_id == rule.member_id && x.iban@ == rule.iban@;
                    let c4 = |x: BankImportRule| x.iban@ == self.iban@;
                    crate::store::lemma_filter_push(rules0, c3, rule);
                    crate::store::lemma_filter_le(rules0, c3, c4);
                }
                Ok(stored)
            },
            Err(_) => {
                proof {
                    let c3 = |x: BankImportRule|
                        x.member_id == rule.member_id && x.iban@ == rule.iban@;
                    let c4 = |x: BankImportRule| x.iban@ == self.iban@;
                    crate::store::lemma_filter_push(rules0, c3, rule);
                    crate::store::lemma_filter_le(rules0, c3, c4);
                    assert(false);
                }
                Err(BankImportError::Storage(QueryError::NotFound))
            },
        }
    }
}

/// The first and last booking dates on a statement, for the confirmation
/// shown before an import run. The bounds start at the last day the library
/// can hold and at the first day of 1970, as the range of an empty
/// statement.
pub fn statement_date_range(transactions: &Vec<BankTransaction>) -> (r: (Date, Date))
    ensures
        forall|k: int|
            0 <= k < transactions@.len() ==> r.0.spec_le(
                (#[trigger] transactions@[k]).date,
            ) && transactions@[k].date.spec_le(r.1),
        r.0 == (Date { year: 9999, month: 1, day: 1 }) || exists|k: int|
            0 <= k < transactions@.len() && (#[trigger] transactions@[k]).date == r.0,
        r.1 == (Date { year: 1970, month: 1, day: 1 }) || exists|k: int|
            0 <= k < transactions@.len() && (#[trigger] transactions@[k]).date == r.1,
{
    let mut first = Date { year: 9999, month: 1, day: 1 };
    let mut last = Date { year: 1970, month: 1, day: 1 };
    let mut i: usize = 0;
    while i < transactions.len()
        invariant
            i <= transactions@.len(),
            forall|k: int|
                0 <= k < i ==> first.spec_le((#[trigger] transactions@[k]).date)
                    && transactions@[k].date.spec_le(last),
            first == (Date { year: 9999, month: 1, day: 1 }) || exists|k: int|
                0 <= k < i && (#[trigger] transactions@[k]).date == first,
            last == (Date { year: 1970, month: 1, day: 1 }) || exists|k: int|
                0 <= k < i && (#[trigger] transactions@[k]).date == last,
        decreases transactions@.len() - i,
    {
        let date = transactions[i].date;
        if last.lt(&date) {
            last = date;
        }
        if date.lt(&first) {
            first = date;
        }
        i += 1;
    }
    (first, last)
}

/// Plausibility check before importing a statement: fails iff some recorded
/// transaction is dated at or past the candidate import date, carrying the
/// newest such date.
pub fn check_import_date(db: &Database, date: Date) -> (r: Result<(), BankImportError>)
    ensures
        match r {
            Ok(()) => forall|i: int|
                0 <= i < db.transactions@.len() ==> (#[trigger] db.transactions@[i]).date.spec_lt(
                    date,
                ),
            Err(e) => exists|last: Date|
                {
                    &&& e == BankImportError::NewerTransactionsPresent(date, last)
                    &&& exists|i: int|
                        0 <= i < db.transactions@.len() && (#[trigger] db.transactions@[i]).date
                            == last
                    &&& date.spec_le(last)
                    &&& forall|i: int|
                        0 <= i < db.transactions@.len() ==> (#[trigger] db.transactions@[i]).date.spec_le(
                            last,
                        ) || db.transactions@[i].date.spec_lt(date)
                },
        },
{
    let mut best: Option<Date> = None;
    let mut i: usize = 0;
    while i < db.transactions.len()
        invariant
            i <= db.transactions@.len(),
            match best {
                None => forall|k: int|
                    0 <= k < i ==> (#[trigger] db.transactions@[k]).date.spec_lt(date),
                Some(b) => {
                    &&& date.spec_le(b)
                    &&& exists|k: int|
                        0 <= k < i && (#[trigger] db.transactions@[k]).date == b
                    &&& forall|k: int|
                        0 <= k < i ==> (#[trigger] db.transactions@[k]).date.spec_le(b)
                            || db.transactions@[k].date.spec_lt(date)
                },
            },
        decreases db.transactions@.len() - i,
    {
        let d = db.transactions[i].date;
        if date.le(&d) {
            match best {
                None => {
                    best = Some(d);
                },
                Some(b) => {
                    if b.lt(&d) {
                        best = Some(d);
                    }
                },
            }
        }
        i += 1;
    }
    match best {
        None => Ok(()),
        Some(last) => Err(BankImportError::NewerTransactionsPresent(date, last)),
    }
}

/// What one `import` call does to the store. Rules are resolved for the
/// line's iban (synthesizing a default rule when none exists and the
/// counterpart name maps to exactly one member); the allocation plan is
/// drawn over the resolved rules; on success the planned postings — plus an
/// overflow posting to the first resolved rule's member, where a positive
/// remainder is left — are applied through the ledger primitive, and a
/// synthesized default rule is stored. The call is all-or-nothing: on every
/// error the store is unchanged.
pub open spec fn import_post(
    db0: Database,
    db1: Database,
    tx: BankTransaction,
    r: Result<(), BankImportError>,
) -> bool {
    let existing = rules_for_iban(db0.rules@, tx.iban@);
    let candidates = name_candidates(db0.members@, tx);
    if existing.len() == 0 && candidates.len() != 1 {
        &&& r == Err::<(), BankImportError>(BankImportError::AccountMatchFailed(tx))
        &&& db_unchanged(db0, db1)
    } else {
        let used = if existing.len() > 0 {
            existing
        } else {
            seq![default_rule_for(candidates[0], tx)]
        };
        match plan_rules(db0, tx, used, tx.amount as int) {
            Err(e) => {
                &&& r == Err::<(), BankImportError>(e)
                &&& db_unchanged(db0, db1)
            },
            Ok(ps) => {
                let rem = tx.amount - sum_postings(ps);
                if rem > 0 && find_member(db0.members@, used[0].member_id) is None {
                    &&& r == Err::<(), BankImportError>(
                        BankImportError::Storage(QueryError::NotFound),
                    )
                    &&& db_unchanged(db0, db1)
                } else {
                    let all = if rem > 0 {
                        ps.push(
                            Posting {
                                member_id: used[0].member_id,
                                amount: rem as i64,
                                split: false,
                                overflow: true,
                            },
                        )
                    } else {
                        ps
                    };
                    &&& r == Ok::<(), BankImportError>(())
                    &&& db1.rules@ == (if existing.len() > 0 {
                        db0.rules@
                    } else {
                        db0.rules@.push(used[0])
                    })
                    &&& applied(db0, db1, tx, all)
                }
            },
        }
    }
}

/// Applies planned postings in order: for each one, the member is re-read
/// from the store, the ledger entry posted through the ledger primitive, and
/// — for a non-overflow posting — the member's watermark pair advanced to
/// the line's (date, serial number).
fn apply_postings(db: &mut Database, tx: &BankTransaction, postings: &Vec<Posting>) -> (r:
    Result<(), BankImportError>)
    requires
        old(db).wf(),
        tx.date.valid(),
        nonneg_postings(postings@),
        old(db).next_transaction_id + postings@.len() <= u32::MAX,
        forall|j: int|
            0 <= j < old(db).members@.len() ==> (#[trigger] old(db).members@[j]).account
                + sum_postings(postings@) <= i64::MAX,
        forall|k: int|
            0 <= k < postings@.len() ==> has_member(
                old(db).members@,
                (#[trigger] postings@[k]).member_id,
            ),
    ensures
        r == Ok::<(), BankImportError>(()),
        applied(*old(db), *final(db), *tx, postings@),
        final(db).rules@ == old(db).rules@,
        final(db).wf(),
{
    let ghost db0 = *old(db);
    let mut k: usize = 0;
    proof {
        assert(postings@.take(0) =~= Seq::<Posting>::empty());
        assert(applied(db0, *db, *tx, postings@.take(0)));
    }
    while k < postings.len()
        invariant
            db.wf(),
            tx.date.valid(),
            k <= postings@.len(),
            nonneg_postings(postings@),
            db0.next_transaction_id + postings@.len() <= u32::MAX,
            forall|j: int|
                0 <= j < db0.members@.len() ==> (#[trigger] db0.members@[j]).account
                    + sum_postings(postings@) <= i64::MAX,
            forall|i: int|
                0 <= i < postings@.len() ==> has_member(
                    db0.members@,
                    (#[trigger] postings@[i]).member_id,
                ),
            db0.wf(),
            applied(db0, *db, *tx, postings@.take(k as int)),
            db.rules@ == db0.rules@,
        decreases postings@.len() - k,
    {
        let ghost prefix = postings@.take(k as int);
        let p = Posting {
            member_id: postings[k].member_id,
            amount: postings[k].amount,
            split: postings[k].split,
            overflow: postings[k].overflow,
        };
        assert(p == postings@[k as int]);
        proof {
            let i0 = choose|i: int|
                0 <= i < db0.members@.len() && (#[trigger] db0.members@[i]).id == p.member_id;
            assert(db.members@[i0].id == p.member_id);
            assert(has_member(db.members@, p.member_id));
        }
        let found: Result<Member, QueryError> = db.retrieve(p.member_id);
        let m_cur = match found {
            Ok(m) => m,
            Err(_) => {
                proof {
                    assert(false);
                }
                return Err(BankImportError::Storage(QueryError::NotFound));
            },
        };
        let ghost j0 = choose|j: int|
            0 <= j < db.members@.len() && db.members@[j] == m_cur;
        proof {
            assert(db.members@.contains(m_cur));
            assert(db.members@[j0] == m_cur);
            assert(db.members@[j0] == member_after(db0.members@[j0], prefix, *tx));
            // the posting's amount fits on the member's account
            assert(nonneg_postings(prefix)) by {
                assert(forall|i: int|
                    0 <= i < prefix.len() ==> prefix[i] == (#[trigger] postings@[i]));
            }
            lemma_posted_le_sum(prefix, p.member_id);
            assert(postings@.take(k + 1).drop_last() =~= prefix);
            assert(postings@.take(k + 1).last() == p);
            lemma_sum_take_le(postings@, k + 1);
            lemma_posted_le_sum(postings@.take(k + 1), p.member_id);
        }
        let mut description = tx.subject.clone();
        if p.overflow {
            description.append(" (overflow)");
        } else if p.split {
            description.append(" (split)");
        }
        let entry = Transaction {
            id: 0,
            member_id: 0,
            date: tx.date,
            account_name: tx.name.clone(),
            amount: p.amount,
            description,
        };
        let ghost db_pre = *db;
        let posted = m_cur.apply_transaction(db, entry);
        let m2 = match posted {
            Ok(m) => m,
            Err(_) => {
                proof {
                    assert(false);
                }
                return Err(BankImportError::Storage(QueryError::NotFound));
            },
        };
        let mut m3 = m2;
        if !p.overflow {
            m3.last_bank_transaction_at = tx.date;
            m3.last_bank_transaction_number = tx.num;
        }
        proof {
            assert(m3.dates_valid());
            let i = choose|i: int|
                0 <= i < db.members@.len() && (#[trigger] db.members@[i]).id == m3.id;
            assert(db.members@[i].id < db.next_member_id);
        }
        let ghost db_mid = *db;
        let updated = db.update(m3);
        match updated {
            Ok(_) => {},
            Err(_) => {
                proof {
                    assert(false);
                }
                return Err(BankImportError::Storage(QueryError::NotFound));
            },
        }
        proof {
            let next = postings@.take(k + 1);
            assert(next.drop_last() =~= prefix);
            assert(next.last() == p);
            // members after this step
            assert forall|j: int|
                0 <= j < db0.members@.len() implies db.members@[j] == member_after(
                #[trigger] db0.members@[j],
                next,
                *tx,
            ) by {
                let m_old = db0.members@[j];
                if m_old.id == p.member_id {
                    assert(db_pre.members@[j] == member_after(m_old, prefix, *tx));
                    assert(db_pre.members@[j0] == m_cur);
                    if j != j0 {
                        assert(db0.members@[j].id != db0.members@[j0].id);
                        assert(db_pre.members@[j].id == m_old.id);
                    }
                    assert(j == j0);
                    assert(db.members@[j] == m3);
                    assert(posted_to(next, m_old.id) == posted_to(prefix, m_old.id)
                        + p.amount);
                    if p.overflow {
                        assert(has_primary(next, m_old.id) == has_primary(
                            prefix,
                            m_old.id,
                        )) by {
                            if has_primary(next, m_old.id) {
                                let w = choose|w: int|
                                    0 <= w < next.len() && (#[trigger] next[w]).member_id
                                        == m_old.id && !next[w].overflow;
                                assert(w < prefix.len());
                                assert(prefix[w] == next[w]);
                            }
                            if has_primary(prefix, m_old.id) {
                                let w = choose|w: int|
                                    0 <= w < prefix.len() && (#[trigger] prefix[w]).member_id
                                        == m_old.id && !prefix[w].overflow;
                                assert(next[w] == prefix[w]);
                            }
                        }
                    } else {
                        assert(next[k as int] == p);
                        assert(has_primary(next, m_old.id));
                    }
                } else {
                    assert(db_pre.members@[j] == member_after(m_old, prefix, *tx));
                    assert(db_pre.members@[j].id == m_old.id);
                    assert(db.members@[j] == db_pre.members@[j]);
                    assert(posted_to(next, m_old.id) == posted_to(prefix, m_old.id));
                    assert(has_primary(next, m_old.id) == has_primary(prefix, m_old.id)) by {
                        if has_primary(next, m_old.id) {
                            let w = choose|w: int|
                                0 <= w < next.len() && (#[trigger] next[w]).member_id
                                    == m_old.id && !next[w].overflow;
                            assert(w < prefix.len());
                            assert(prefix[w] == next[w]);
                        }
                        if has_primary(prefix, m_old.id) {
                            let w = choose|w: int|
                                0 <= w < prefix.len() && (#[trigger] prefix[w]).member_id
                                    == m_old.id && !prefix[w].overflow;
                            assert(next[w] == prefix[w]);
                        }
                    }
                }
            }
            // transactions after this step
            assert(db.transactions@ == db_pre.transactions@.push(
                Transaction {
                    id: db_pre.next_transaction_id,
                    member_id: m_cur.id,
                    ..entry
                },
            ));
            assert forall|i: int|
                0 <= i < next.len() implies {
                let t = #[trigger] db.transactions@[db0.transactions@.len() + i];
                &&& t.id == db0.next_transaction_id + i
                &&& t.member_id == next[i].member_id
                &&& t.date == tx.date
                &&& t.amount == next[i].amount
                &&& t.account_name@ == tx.name@
                &&& t.description@ == posting_desc(*tx, next[i])
            } by {
                if i < k as int {
                    assert(db.transactions@[db0.transactions@.len() + i]
                        == db_pre.transactions@[db0.transactions@.len() + i]);
                    assert(next[i] == prefix[i]);
                }
            }
            assert(applied(db0, *db, *tx, next));
        }
        k += 1;
    }
    proof {
        assert(postings@.take(postings@.len() as int) =~= postings@);
    }
    Ok(())
}

impl BankTransaction {
    /// The import engine: resolves the rules for this line's iban, draws the
    /// allocation plan over them (subject filter, duplicate/ordering guard,
    /// split allocation), and applies the planned postings through the
    /// ledger primitive, routing a positive leftover to the first resolved
    /// rule's member as an overflow posting, which does not advance the
    /// duplicate-guard watermark. The call is all-or-nothing: on any error
    /// nothing is posted, no watermark moves, and a default rule synthesized
    /// for an unknown iban is stored only once the whole line can land.
    #[verifier::loop_isolation(false)]
    #[verifier::rlimit(80)]
    pub fn import(self, db: &mut Database) -> (r: Result<(), BankImportError>)
        requires
            old(db).wf(),
            self.amount > 0,
            self.date.valid(),
            old(db).next_transaction_id + old(db).rules@.len() + 2 <= u32::MAX,
            forall|j: int|
                0 <= j < old(db).members@.len() ==> (#[trigger] old(db).members@[j]).account
                    + self.amount <= i64::MAX,
        ensures
            import_post(*old(db), *final(db), self, r),
            final(db).wf(),
    {
        let ghost db0 = *old(db);
        let filter = BankImportRuleFilter { member_id: None, iban: Some(self.iban.clone()) };
        let mut rules: Vec<BankImportRule> = db.query(&filter);
        proof {
            let c1 = |x: BankImportRule| crate::bank_import::rule_matches(x, filter);
            let c2 = |x: BankImportRule| x.iban@ == self.iban@;
            assert(c1 =~= c2);
            assert(rules@ == rules_for_iban(db0.rules@, self.iban@));
            db0.rules@.lemma_filter_len(c2);
            crate::store::lemma_filter_sub(db0.rules@, c2);
            assert forall|i: int|
                0 <= i < rules@.len() implies crate::store::rule_valid(
                #[trigger] rules@[i],
            ) by {
                let k = choose|k: int|
                    0 <= k < db0.rules@.len() && db0.rules@[k] == rules@[i];
                assert(crate::store::rule_valid(db0.rules@[k]));
            }
        }
        // For an unknown iban, the counterpart name must map to exactly one
        // member. The synthesized default rule is only stored once the whole
        // line has been planned and is sure to land.
        let mut created: Option<BankImportRule> = None;
        if rules.len() == 0 {
            let name_filter = MemberFilter {
                id: None,
                name: Some(self.name.clone()),
                email: None,
            };
            let members: Vec<Member> = db.query(&name_filter);
            proof {
                let c3 = |m: Member| member_matches(m, name_filter);
                let c4 = |m: Member|
                    member_matches(
                        m,
                        MemberFilter { id: None, name: Some(self.name), email: None },
                    );
                assert(c3 =~= c4);
            }
            if members.len() != 1 {
                return Err(BankImportError::AccountMatchFailed(self));
            }
            let rule = BankImportRule {
                member_id: members[0].id,
                iban: self.iban.clone(),
                split_amount: None,
                match_subject: None,
            };
            created = Some(rule.clone());
            let ghost before = rules@;
            rules.push(rule);
            proof {
                assert(before.len() == 0);
                assert(rules@ =~= seq![rule]);
                assert(forall|i: int|
                    0 <= i < rules@.len() ==> crate::store::rule_valid(
                        #[trigger] rules@[i],
                    ));
            }
        }
        let ghost used = rules@;
        let mut remaining: i64 = self.amount;
        let mut pending: Vec<Posting> = Vec::new();
        let mut ri: usize = 0;
        proof {
            assert(used.skip(0) =~= used);
            let plan = plan_rules(db0, self, used, self.amount as int);
            if plan is Ok {
                assert(pending@ + plan->Ok_0 =~= plan->Ok_0);
            }
        }
        while ri < rules.len()
            invariant
                db.wf(),
                db.members@ == db0.members@,
                db.transactions@ == db0.transactions@,
                db.rules@ == db0.rules@,
                db.next_member_id == db0.next_member_id,
                db.next_transaction_id == db0.next_transaction_id,
                rules@ == used,
                ri <= used.len(),
                pending@.len() <= ri,
                0 <= remaining <= self.amount,
                sum_postings(pending@) + remaining == self.amount,
                nonneg_postings(pending@),
                forall|i: int|
                    0 <= i < pending@.len() ==> !(#[trigger] pending@[i]).overflow
                        && has_member(db0.members@, pending@[i].member_id),
                forall|i: int|
                    0 <= i < used.len() ==> crate::store::rule_valid(#[trigger] used[i]),
                plan_rules(db0, self, used, self.amount as int) == (match plan_rules(
                    db0,
                    self,
                    used.skip(ri as int),
                    remaining as int,
                ) {
                    Ok(ps) => Ok::<Seq<Posting>, BankImportError>(pending@ + ps),
                    Err(e) => Err::<Seq<Posting>, BankImportError>(e),
                }),
            decreases rules@.len() - ri,
        {
            let ghost rest = used.skip(ri as int);
            proof {
                assert(rest.len() == used.len() - ri);
                assert(rest[0] == used[ri as int]);
                assert(rest.drop_first() =~= used.skip(ri as int + 1));
            }
            let excluded = match rules[ri].match_subject(self.subject.as_str()) {
                Some(b) => !b,
                None => false,
            };
            proof {
                assert(excluded == !spec_subject_accepted(used[ri as int], self.subject@));
            }
            if excluded {
                proof {
                    assert(plan_rules(db0, self, rest, remaining as int) == plan_rules(
                        db0,
                        self,
                        used.skip(ri as int + 1),
                        remaining as int,
                    ));
                }
                ri += 1;
                continue ;
            }
            proof {
                lemma_find_member(db0.members@, used[ri as int].member_id);
            }
            let found: Result<Member, QueryError> = db.retrieve(rules[ri].member_id);
            let m = match found {
                Ok(m) => m,
                Err(_) => {
                    proof {
                        assert(find_member(db0.members@, used[ri as int].member_id) is None);
                        assert(plan_rules(db0, self, rest, remaining as int)
                            == Err::<Seq<Posting>, BankImportError>(
                            BankImportError::Storage(QueryError::NotFound),
                        ));
                    }
                    return Err(BankImportError::Storage(QueryError::NotFound));
                },
            };
            proof {
                let i = choose|i: int|
                    0 <= i < db0.members@.len() && db0.members@[i] == m;
                assert(db0.members@[i].id == m.id);
                assert(find_member(db0.members@, used[ri as int].member_id)
                    == Some(db0.members@[i]));
                assert(find_member(db0.members@, used[ri as int].member_id) == Some(m));
            }
            match self.check_last_member_transcation(&m) {
                Ok(()) => {},
                Err(e) => {
                    proof {
                        assert(plan_rules(db0, self, rest, remaining as int)
                            == Err::<Seq<Posting>, BankImportError>(
                            BankImportError::MoreRecentTransactionPresent(
                                m.last_bank_transaction_at,
                                m.last_bank_transaction_number,
                            ),
                        ));
                    }
                    return Err(e);
                },
            }
            match rules[ri].split_amount {
                Some(s) => {
                    if s > remaining {
                        proof {
                            assert(plan_rules(db0, self, rest, remaining as int)
                                == Err::<Seq<Posting>, BankImportError>(
                                BankImportError::InsufficientAmountForSplit(self),
                            ));
                        }
                        return Err(BankImportError::InsufficientAmountForSplit(self));
                    }
                    let p = Posting {
                        member_id: rules[ri].member_id,
                        amount: s,
                        split: true,
                        overflow: false,
                    };
                    let ghost pend0 = pending@;
                    pending.push(p);
                    remaining = remaining - s;
                    proof {
                        assert(pending@ == pend0.push(p));
                        assert(pending@.drop_last() =~= pend0);
                        assert(sum_postings(pending@) == sum_postings(pend0) + p.amount);
                        assert(has_member(db0.members@, p.member_id));
                        let sub = plan_rules(
                            db0,
                            self,
                            used.skip(ri as int + 1),
                            remaining as int,
                        );
                        assert(plan_rules(db0, self, rest, (remaining + s) as int) == (
                        match sub {
                            Ok(ps) => Ok::<Seq<Posting>, BankImportError>(seq![p] + ps),
                            Err(e) => Err::<Seq<Posting>, BankImportError>(e),
                        }));
                        if sub is Ok {
                            assert(pend0 + (seq![p] + sub->Ok_0) =~= pending@ + sub->Ok_0);
                        }
                    }
                },
                None => {
                    let p = Posting {
                        member_id: rules[ri].member_id,
                        amount: remaining,
                        split: false,
                        overflow: false,
                    };
                    let ghost pend0 = pending@;
                    pending.push(p);
                    let ghost rem0 = remaining as int;
                    remaining = 0;
                    proof {
                        assert(pending@ == pend0.push(p));
                        assert(pending@.drop_last() =~= pend0);
                        assert(sum_postings(pending@) == sum_postings(pend0) + p.amount);
                        assert(has_member(db0.members@, p.member_id));
                        let sub = plan_rules(db0, self, used.skip(ri as int + 1), 0);
                        assert(plan_rules(db0, self, rest, rem0) == (match sub {
                            Ok(ps) => Ok::<Seq<Posting>, BankImportError>(seq![p] + ps),
                            Err(e) => Err::<Seq<Posting>, BankImportError>(e),
                        }));
                        if sub is Ok {
                            assert(pend0 + (seq![p] + sub->Ok_0) =~= pending@ + sub->Ok_0);
                        }
                    }
                },
            }
            ri += 1;
        }
        proof {
            assert(used.skip(used.len() as int) =~= Seq::<BankImportRule>::empty());
            assert(pending@ + Seq::<Posting>::empty() =~= pending@);
            assert(plan_rules(db0, self, used, self.amount as int)
                == Ok::<Seq<Posting>, BankImportError>(pending@));
        }
        // Resolve the overflow target, and extend the plan, before anything
        // is written: a missing target leaves the store untouched.
        if remaining > 0 {
            proof {
                lemma_find_member(db0.members@, used[0].member_id);
            }
            let first_found: Result<Member, QueryError> = db.retrieve(rules[0].member_id);
            match first_found {
                Err(_) => {
                    proof {
                        assert(find_member(db0.members@, used[0].member_id) is None);
                    }
                    return Err(BankImportError::Storage(QueryError::NotFound));
                },
                Ok(fm) => {
                    proof {
                        let i = choose|i: int|
                            0 <= i < db0.members@.len() && db0.members@[i] == fm;
                        assert(db0.members@[i].id == fm.id);
                        assert(has_member(db0.members@, rules@[0].member_id));
                    }
                    let p = Posting {
                        member_id: rules[0].member_id,
                        amount: remaining,
                        split: false,
                        overflow: true,
                    };
                    let ghost planned = pending@;
                    pending.push(p);
                    proof {
                        assert(pending@ == planned.push(p));
                        assert(pending@.drop_last() =~= planned);
                        assert(sum_postings(pending@) == sum_postings(planned) + p.amount);
                        assert(sum_postings(pending@) == self.amount);
                    }
                },
            }
        }
        // Store the synthesized default rule: with the plan drawn and the
        // overflow target resolved, the line is sure to land, so the rule
        // and the postings go in together.
        match created {
            None => {},
            Some(rule) => {
                let ghost rules0 = db.rules@;
                match db.insert(rule.clone()) {
                    Ok(_) => {
                        proof {
                            let c5 = |x: BankImportRule|
                                x.member_id == rule.member_id && x.iban@ == rule.iban@;
                            let c6 = |x: BankImportRule| x.iban@ == self.iban@;
                            crate::store::lemma_filter_push(rules0, c5, rule);
                            crate::store::lemma_filter_le(rules0, c5, c6);
                        }
                    },
                    Err(_) => {
                        proof {
                            let c5 = |x: BankImportRule|
                                x.member_id == rule.member_id && x.iban@ == rule.iban@;
                            let c6 = |x: BankImportRule| x.iban@ == self.iban@;
                            crate::store::lemma_filter_push(rules0, c5, rule);
                            crate::store::lemma_filter_le(rules0, c5, c6);
                            assert(false);
                        }
                        return Err(BankImportError::Storage(QueryError::NotFound));
                    },
                }
            },
        }
        proof {
            assert(sum_postings(pending@) == self.amount);
            assert forall|j: int|
                0 <= j < db.members@.len() implies (#[trigger] db.members@[j]).account
                + sum_postings(pending@) <= i64::MAX by {
                assert(db0.members@[j].account + self.amount <= i64::MAX);
            }
        }
        let ghost db_mid = *db;
        match apply_postings(db, &self, &pending) {
            Ok(()) => {},
            Err(e) => {
                return Err(e);
            },
        }
        proof {
            assert(applied(db_mid, *db, self, pending@));
            assert(applied(db0, *db, self, pending@));
        }
        Ok(())
    }
}

/// Prepending a posting adds its amount to the sum.
proof fn lemma_sum_postings_prepend(p: Posting, ps: Seq<Posting>)
    ensures
        sum_postings(seq![p] + ps) == p.amount + sum_postings(ps),
    decreases ps.len(),
{
    if ps.len() == 0 {
        assert(seq![p] + ps =~= seq![p]);
        assert((seq![p]).drop_last() =~= Seq::<Posting>::empty());
        assert((seq![p]).last() == p);
        assert(sum_postings(Seq::<Posting>::empty()) == 0);
        assert(sum_postings(seq![p] + ps) == sum_postings((seq![p] + ps).drop_last())
            + (seq![p] + ps).last().amount);
    } else {
        assert((seq![p] + ps).drop_last() =~= seq![p] + ps.drop_last());
        assert((seq![p] + ps).last() == ps.last());
        lemma_sum_postings_prepend(p, ps.drop_last());
        assert(sum_postings(ps) == sum_postings(ps.drop_last()) + ps.last().amount);
    }
}

/// Bounds on a successful allocation plan: no planned posting is negative,
/// and the planned total never exceeds what was there to distribute.
pub proof fn lemma_plan_bounds(
    db: Database,
    tx: BankTransaction,
    rules: Seq<BankImportRule>,
    remaining: int,
)
    requires
        0 <= remaining <= i64::MAX,
        forall|i: int|
            0 <= i < rules.len() ==> crate::store::rule_valid(#[trigger] rules[i]),
    ensures
        match plan_rules(db, tx, rules, remaining) {
            Ok(ps) => nonneg_postings(ps) && 0 <= sum_postings(ps) <= remaining,
            Err(_) => true,
        },
    decreases rules.len(),
{
    if rules.len() > 0 {
        let rest = rules.drop_first();
        assert(forall|i: int| 0 <= i < rest.len() ==> rest[i] == rules[i + 1]);
        let rule = rules[0];
        if !spec_subject_accepted(rule, tx.subject@) {
            lemma_plan_bounds(db, tx, rest, remaining);
        } else {
            match find_member(db.members@, rule.member_id) {
                None => {},
                Some(m) => {
                    if wm_lt(
                        m.last_bank_transaction_at,
                        m.last_bank_transaction_number,
                        tx.date,
                        tx.num,
                    ) {
                        match rule.split_amount {
                            Some(s) => {
                                if s <= remaining {
                                    lemma_plan_bounds(db, tx, rest, remaining - s);
                                    let p = Posting {
                                        member_id: rule.member_id,
                                        amount: s,
                                        split: true,
                                        overflow: false,
                                    };
                                    match plan_rules(db, tx, rest, remaining - s) {
                                        Ok(sub) => {
                                            lemma_sum_postings_prepend(p, sub);
                                            assert forall|k: int|
                                                0 <= k < (seq![p] + sub).len() implies (
                                            #[trigger] (seq![p] + sub)[k]).amount >= 0 by {
                                                if k > 0 {
                                                    assert((seq![p] + sub)[k] == sub[k - 1]);
                                                    assert(sub[k - 1].amount >= 0);
                                                } else {
                                                    assert((seq![p] + sub)[0] == p);
                                                }
                                            }
                                        },
                                        Err(_) => {},
                                    }
                                }
                            },
                            None => {
                                lemma_plan_bounds(db, tx, rest, 0);
                                let p = Posting {
                                    member_id: rule.member_id,
                                    amount: remaining as i64,
                                    split: false,
                                    overflow: false,
                                };
                                match plan_rules(db, tx, rest, 0) {
                                    Ok(sub) => {
                                        lemma_sum_postings_prepend(p, sub);
                                        assert forall|k: int|
                                            0 <= k < (seq![p] + sub).len() implies (
                                        #[trigger] (seq![p] + sub)[k]).amount >= 0 by {
                                            if k > 0 {
                                                assert((seq![p] + sub)[k] == sub[k - 1]);
                                                assert(sub[k - 1].amount >= 0);
                                            } else {
                                                assert((seq![p] + sub)[0] == p);
                                            }
                                        }
                                    },
                                    Err(_) => {},
                                }
                            },
                        }
                    }
                },
            }
        }
    }
}

/// After `applied`, the ledger's total has grown by the sum of the applied
/// postings, considering the first `k` of them.
proof fn lemma_applied_sum_prefix(
    db0: Database,
    db1: Database,
    tx: BankTransaction,
    ps: Seq<Posting>,
    k: int,
)
    requires
        applied(db0, db1, tx, ps),
        0 <= k <= ps.len(),
    ensures
        crate::ledger::sum_amounts(db1.transactions@.take(db0.transactions@.len() + k))
            == crate::ledger::sum_amounts(db0.transactions@) + sum_postings(ps.take(k)),
    decreases k,
{
    let n0 = db0.transactions@.len() as int;
    if k == 0 {
        assert(db1.transactions@.take(n0) =~= db0.transactions@);
        assert(ps.take(0) =~= Seq::<Posting>::empty());
    } else {
        lemma_applied_sum_prefix(db0, db1, tx, ps, k - 1);
        assert(db1.transactions@.take(n0 + k).drop_last() =~= db1.transactions@.take(
            n0 + k - 1,
        ));
        assert(db1.transactions@.take(n0 + k).last() == db1.transactions@[n0 + k - 1]);
        assert(db1.transactions@[n0 + (k - 1)].amount == ps[k - 1].amount);
        assert(ps.take(k).drop_last() =~= ps.take(k - 1));
        assert(ps.take(k).last() == ps[k - 1]);
    }
}

/// A failed import leaves the store exactly as it was: rule resolution
/// (including a synthesized default rule), planning and posting land
/// together or not at all.
pub proof fn lemma_import_all_or_nothing(
    db0: Database,
    db1: Database,
    tx: BankTransaction,
    r: Result<(), BankImportError>,
)
    requires
        import_post(db0, db1, tx, r),
        r is Err,
    ensures
        db_unchanged(db0, db1),
{
}

/// A successful import distributes exactly the incoming amount: however the
/// line was split across rules, and the overflow posting included, the
/// ledger entries one `import` call appends sum to the transaction's
/// amount.
pub proof fn lemma_import_distributes_amount(
    db0: Database,
    db1: Database,
    tx: BankTransaction,
    r: Result<(), BankImportError>,
)
    requires
        db0.wf(),
        tx.amount > 0,
        import_post(db0, db1, tx, r),
        r is Ok,
    ensures
        crate::ledger::sum_amounts(db1.transactions@) == crate::ledger::sum_amounts(
            db0.transactions@,
        ) + tx.amount,
{
    let existing = rules_for_iban(db0.rules@, tx.iban@);
    let candidates = name_candidates(db0.members@, tx);
    let used = if existing.len() > 0 {
        existing
    } else {
        seq![default_rule_for(candidates[0], tx)]
    };
    assert forall|i: int|
        0 <= i < used.len() implies crate::store::rule_valid(#[trigger] used[i]) by {
        if existing.len() > 0 {
            crate::store::lemma_filter_sub(
                db0.rules@,
                |x: BankImportRule| x.iban@ == tx.iban@,
            );
            let k = choose|k: int| 0 <= k < db0.rules@.len() && db0.rules@[k] == used[i];
            assert(crate::store::rule_valid(db0.rules@[k]));
        }
    }
    lemma_plan_bounds(db0, tx, used, tx.amount as int);
    match plan_rules(db0, tx, used, tx.amount as int) {
        Err(_) => {},
        Ok(ps) => {
            let rem = tx.amount - sum_postings(ps);
            if rem > 0 {
                let all = ps.push(
                    Posting {
                        member_id: used[0].member_id,
                        amount: rem as i64,
                        split: false,
                        overflow: true,
                    },
                );
                assert(all.drop_last() =~= ps);
                assert(sum_postings(all) == tx.amount);
                lemma_applied_sum_prefix(db0, db1, tx, all, all.len() as int);
                assert(db1.transactions@.take(db0.transactions@.len() + all.len() as int)
                    =~= db1.transactions@);
                assert(all.take(all.len() as int) =~= all);
            } else {
                assert(sum_postings(ps) == tx.amount);
                lemma_applied_sum_prefix(db0, db1, tx, ps, ps.len() as int);
                assert(db1.transactions@.take(db0.transactions@.len() + ps.len() as int)
                    =~= db1.transactions@);
                assert(ps.take(ps.len() as int) =~= ps);
            }
        },
    }
}

} // verus!
