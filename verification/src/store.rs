//! The storage the engines run against: narrow query/insert/update/retrieve/
//! delete capabilities over members, transactions and import rules, and an
//! in-memory `Database` that implements them with exact contracts.

use vstd::prelude::*;

use crate::bank_import::{rule_matches, BankImportRule, BankImportRuleFilter};
use crate::members::{member_matches, Member, MemberFilter};
use crate::transactions::{transaction_matches, Transaction, TransactionFilter};

verus! {

/// Why a store operation failed.
#[derive(Clone, Copy, Debug, PartialEq, Eq, Structural)]
pub enum QueryError {
    /// No row matched the key.
    NotFound,
    /// More rows matched a key that should select one; carries the count.
    Ambiguous(usize),
}

/// A single returned identity, as insert statements report it.
#[derive(Clone, Copy, Debug, PartialEq, Eq, Structural)]
pub struct Id<T> {
    pub id: T,
}

/// Query capability: all items passing a filter, in storage order.
pub trait Query<T, F>: Sized {
    fn query(&self, filter: &F) -> Vec<T>;
}

/// Insert capability. `insert_allowed` is the store's own bound on what can
/// still be inserted (an identity that has not run out).
pub trait Insert<T>: Sized {
    spec fn insert_allowed(&self, item: T) -> bool;

    fn insert(&mut self, item: T) -> Result<T, QueryError>
        requires
            old(self).insert_allowed(item),
    ;
}

/// Update capability, keyed by the item's own identity.
pub trait Update<T>: Sized {
    fn update(&mut self, item: T) -> Result<T, QueryError>;
}

/// Retrieve capability: the single item stored under a key.
pub trait Retrieve<T, K>: Sized {
    fn retrieve(&self, key: K) -> Result<T, QueryError>;
}

/// Delete capability, keyed by the item's own identity.
pub trait Delete<T>: Sized {
    fn delete(&mut self, item: T);
}

/// A split amount, where one is set, claims a positive number of cents.
pub open spec fn rule_valid(r: BankImportRule) -> bool {
    match r.split_amount {
        Some(s) => s > 0,
        None => true,
    }
}

/// There is a member with the given id.
pub open spec fn has_member(members: Seq<Member>, id: u32) -> bool {
    exists|i: int| 0 <= i < members.len() && members[i].id == id
}

/// The in-memory store the engines run against: members, the append-only
/// transaction ledger, and the import rules. `next_member_id` and
/// `next_transaction_id` are the identities the next inserted rows get.
pub struct Database {
    pub members: Vec<Member>,
    pub transactions: Vec<Transaction>,
    pub rules: Vec<BankImportRule>,
    pub next_member_id: u32,
    pub next_transaction_id: u32,
}

impl Database {
    /// The store's invariant: identities are unique and below their next
    /// counter, members carry calendar dates, and split amounts are positive.
    pub open spec fn wf(self) -> bool {
        &&& forall|i: int, j: int|
            0 <= i < j < self.members@.len() ==> self.members@[i].id != self.members@[j].id
        &&& forall|i: int|
            0 <= i < self.members@.len() ==> (#[trigger] self.members@[i]).id
                < self.next_member_id
        &&& forall|i: int|
            0 <= i < self.members@.len() ==> (#[trigger] self.members@[i]).dates_valid()
        &&& forall|i: int, j: int|
            0 <= i < j < self.transactions@.len() ==> self.transactions@[i].id
                != self.transactions@[j].id
        &&& forall|i: int|
            0 <= i < self.transactions@.len() ==> (#[trigger] self.transactions@[i]).id
                < self.next_transaction_id
        &&& forall|i: int|
            0 <= i < self.rules@.len() ==> rule_valid(#[trigger] self.rules@[i])
    }

    /// An empty store.
    pub fn new() -> (r: Database)
        ensures
            r.members@ == Seq::<Member>::empty(),
            r.transactions@ == Seq::<Transaction>::empty(),
            r.rules@ == Seq::<BankImportRule>::empty(),
            r.next_member_id == 1,
            r.next_transaction_id == 1,
            r.wf(),
    {
        Database {
            members: Vec::new(),
            transactions: Vec::new(),
            rules: Vec::new(),
            next_member_id: 1,
            next_transaction_id: 1,
        }
    }
}

/// One step of `Seq::filter` along a prefix: extending the prefix by one
/// element extends the filtered prefix exactly when the element passes.
proof fn lemma_filter_step<A>(s: Seq<A>, pred: spec_fn(A) -> bool, i: int)
    requires
        0 <= i < s.len(),
    ensures
        s.take(i + 1).filter(pred) == if pred(s[i]) {
            s.take(i).filter(pred).push(s[i])
        } else {
            s.take(i).filter(pred)
        },
{
    reveal(Seq::filter);
    assert(s.take(i + 1).drop_last() =~= s.take(i));
    assert(s.take(i + 1).last() == s[i]);
}

/// Appending one element extends the filtered sequence exactly when the
/// element passes the filter.
pub proof fn lemma_filter_push<A>(s: Seq<A>, pred: spec_fn(A) -> bool, x: A)
    ensures
        s.push(x).filter(pred) == if pred(x) {
            s.filter(pred).push(x)
        } else {
            s.filter(pred)
        },
{
    reveal(Seq::filter);
    assert(s.push(x).drop_last() =~= s);
    assert(s.push(x).last() == x);
}

/// A stricter filter keeps no more elements than a weaker one.
pub proof fn lemma_filter_le<A>(s: Seq<A>, p: spec_fn(A) -> bool, q: spec_fn(A) -> bool)
    requires
        forall|x: A| #[trigger] p(x) ==> q(x),
    ensures
        s.filter(p).len() <= s.filter(q).len(),
    decreases s.len(),
{
    reveal(Seq::filter);
    if s.len() > 0 {
        lemma_filter_le(s.drop_last(), p, q);
    }
}

/// The rules stored under the key `(member_id, iban)`.
pub open spec fn rules_with_key(
    rules: Seq<BankImportRule>,
    member_id: u32,
    iban: Seq<char>,
) -> Seq<BankImportRule> {
    rules.filter(|r: BankImportRule| r.member_id == member_id && r.iban@ == iban)
}

impl Query<Member, MemberFilter> for Database {

    /// All members passing the filter, in storage order.
    fn query(&self, filter: &MemberFilter) -> (r: Vec<Member>)
        ensures
            r@ == self.members@.filter(|m: Member| member_matches(m, *filter)),
    {
        let ghost pred = |m: Member| member_matches(m, *filter);
        let mut out: Vec<Member> = Vec::new();
        let mut i: usize = 0;
        proof {
            assert(self.members@.take(0).filter(pred) =~= Seq::<Member>::empty());
        }
        while i < self.members.len()
            invariant
                i <= self.members@.len(),
                out@ == self.members@.take(i as int).filter(pred),
                pred == (|m: Member| member_matches(m, *filter)),
            decreases self.members@.len() - i,
        {
            proof {
                lemma_filter_step(self.members@, pred, i as int);
            }
            if filter.matches(&self.members[i]) {
                out.push(self.members[i].clone());
            }
            i += 1;
        }
        proof {
            assert(self.members@.take(self.members@.len() as int) =~= self.members@);
        }
        out
    }
}

impl Query<Transaction, TransactionFilter> for Database {

    /// All transactions passing the filter, in storage order.
    fn query(&self, filter: &TransactionFilter) -> (r: Vec<Transaction>)
        ensures
            r@ == self.transactions@.filter(|t: Transaction| transaction_matches(t, *filter)),
    {
        let ghost pred = |t: Transaction| transaction_matches(t, *filter);
        let mut out: Vec<Transaction> = Vec::new();
        let mut i: usize = 0;
        proof {
            assert(self.transactions@.take(0).filter(pred) =~= Seq::<Transaction>::empty());
        }
        while i < self.transactions.len()
            invariant
                i <= self.transactions@.len(),
                out@ == self.transactions@.take(i as int).filter(pred),
                pred == (|t: Transaction| transaction_matches(t, *filter)),
            decreases self.transactions@.len() - i,
        {
            proof {
                lemma_filter_step(self.transactions@, pred, i as int);
            }
            if filter.matches(&self.transactions[i]) {
                out.push(self.transactions[i].clone());
            }
            i += 1;
        }
        proof {
            assert(self.transactions@.take(self.transactions@.len() as int)
                =~= self.transactions@);
        }
        out
    }
}

impl Query<BankImportRule, BankImportRuleFilter> for Database {

    /// All import rules passing the filter, in storage order.
    fn query(&self, filter: &BankImportRuleFilter) -> (r: Vec<BankImportRule>)
        ensures
            r@ == self.rules@.filter(|x: BankImportRule| rule_matches(x, *filter)),
    {
        let ghost pred = |x: BankImportRule| rule_matches(x, *filter);
        let mut out: Vec<BankImportRule> = Vec::new();
        let mut i: usize = 0;
        proof {
            assert(self.rules@.take(0).filter(pred) =~= Seq::<BankImportRule>::empty());
        }
        while i < self.rules.len()
            invariant
                i <= self.rules@.len(),
                out@ == self.rules@.take(i as int).filter(pred),
                pred == (|x: BankImportRule| rule_matches(x, *filter)),
            decreases self.rules@.len() - i,
        {
            proof {
                lemma_filter_step(self.rules@, pred, i as int);
            }
            if filter.matches(&self.rules[i]) {
                out.push(self.rules[i].clone());
            }
            i += 1;
        }
        proof {
            assert(self.rules@.take(self.rules@.len() as int) =~= self.rules@);
        }
        out
    }
}

impl Insert<Member> for Database {
    /// The next member identity has not run out.
    open spec fn insert_allowed(&self, item: Member) -> bool {
        self.next_member_id < u32::MAX
    }

    /// Stores the member under the next free identity and returns the stored
    /// record.
    fn insert(&mut self, item: Member) -> (r: Result<Member, QueryError>)
        ensures
            ({
                let m = Member { id: old(self).next_member_id, ..item };
                &&& r == Ok::<Member, QueryError>(m)
                &&& final(self).members@ == old(self).members@.push(m)
            }),
            final(self).next_member_id == old(self).next_member_id + 1,
            final(self).transactions@ == old(self).transactions@,
            final(self).rules@ == old(self).rules@,
            final(self).next_transaction_id == old(self).next_transaction_id,
            old(self).wf() && item.dates_valid() ==> final(self).wf(),
    {
        let id = self.next_member_id;
        let mut m = item;
        m.id = id;
        self.members.push(m.clone());
        self.next_member_id = id + 1;
        Ok(m)
    }
}

impl Insert<Transaction> for Database {
    /// The next transaction identity has not run out.
    open spec fn insert_allowed(&self, item: Transaction) -> bool {
        self.next_transaction_id < u32::MAX
    }

    /// Appends the ledger entry under the next free identity and returns the
    /// stored record.
    fn insert(&mut self, item: Transaction) -> (r: Result<Transaction, QueryError>)
        ensures
            ({
                let t = Transaction { id: old(self).next_transaction_id, ..item };
                &&& r == Ok::<Transaction, QueryError>(t)
                &&& final(self).transactions@ == old(self).transactions@.push(t)
            }),
            final(self).next_transaction_id == old(self).next_transaction_id + 1,
            final(self).members@ == old(self).members@,
            final(self).rules@ == old(self).rules@,
            final(self).next_member_id == old(self).next_member_id,
            old(self).wf() ==> final(self).wf(),
    {
        let id = self.next_transaction_id;
        let mut t = item;
        t.id = id;
        self.transactions.push(t.clone());
        self.next_transaction_id = id + 1;
        Ok(t)
    }
}

impl Insert<BankImportRule> for Database {
    /// A split amount, where the rule has one, claims a positive number of
    /// cents.
    open spec fn insert_allowed(&self, item: BankImportRule) -> bool {
        rule_valid(item)
    }

    /// Stores the rule. As in the underlying store, the row is kept even
    /// when the `(member_id, iban)` key is now held by several rows; that
    /// case is reported as ambiguous.
    fn insert(&mut self, item: BankImportRule) -> (r: Result<BankImportRule, QueryError>)
        ensures
            final(self).rules@ == old(self).rules@.push(item),
            final(self).members@ == old(self).members@,
            final(self).transactions@ == old(self).transactions@,
            final(self).next_member_id == old(self).next_member_id,
            final(self).next_transaction_id == old(self).next_transaction_id,
            old(self).wf() ==> final(self).wf(),
            ({
                let n = rules_with_key(final(self).rules@, item.member_id, item.iban@).len();
                if n == 1 {
                    r == Ok::<BankImportRule, QueryError>(item)
                } else {
                    r == Err::<BankImportRule, QueryError>(QueryError::Ambiguous(n as usize))
                }
            }),
    {
        let stored = item.clone();
        self.rules.push(item);
        let filter = BankImportRuleFilter {
            member_id: Some(stored.member_id),
            iban: Some(stored.iban.clone()),
        };
        let found = self.query(&filter);
        proof {
            let c1 = |x: BankImportRule| rule_matches(x, filter);
            let c2 = |x: BankImportRule|
                x.member_id == stored.member_id && x.iban@ == stored.iban@;
            assert(c1 =~= c2);
        }
        if found.len() == 1 {
            Ok(stored)
        } else {
            Err(QueryError::Ambiguous(found.len()))
        }
    }
}

impl Retrieve<Member, u32> for Database {
    /// The member stored under the identity, where one is.
    fn retrieve(&self, key: u32) -> (r: Result<Member, QueryError>)
        ensures
            match r {
                Ok(m) => self.members@.contains(m) && m.id == key,
                Err(e) => e == QueryError::NotFound && !has_member(self.members@, key),
            },
    {
        let mut i: usize = 0;
        while i < self.members.len()
            invariant
                i <= self.members@.len(),
                forall|k: int| 0 <= k < i ==> (#[trigger] self.members@[k]).id != key,
            decreases self.members@.len() - i,
        {
            if self.members[i].id == key {
                return Ok(self.members[i].clone());
            }
            i += 1;
        }
        Err(QueryError::NotFound)
    }
}

impl Retrieve<BankImportRule, (u32, String)> for Database {
    /// The single rule stored under the `(member_id, iban)` key.
    fn retrieve(&self, key: (u32, String)) -> (r: Result<BankImportRule, QueryError>)
        ensures
            ({
                let found = rules_with_key(self.rules@, key.0, key.1@);
                if found.len() == 0 {
                    r == Err::<BankImportRule, QueryError>(QueryError::NotFound)
                } else if found.len() > 1 {
                    r == Err::<BankImportRule, QueryError>(
                        QueryError::Ambiguous(found.len() as usize),
                    )
                } else {
                    r == Ok::<BankImportRule, QueryError>(found[0])
                }
            }),
    {
        let filter = BankImportRuleFilter { member_id: Some(key.0), iban: Some(key.1) };
        let mut found = self.query(&filter);
        proof {
            let c1 = |x: BankImportRule| rule_matches(x, filter);
            let c2 = |x: BankImportRule| x.member_id == key.0 && x.iban@ == key.1@;
            assert(c1 =~= c2);
        }
        if found.len() == 0 {
            Err(QueryError::NotFound)
        } else if found.len() > 1 {
            Err(QueryError::Ambiguous(found.len()))
        } else {
            let rule = found.remove(0);
            Ok(rule)
        }
    }
}

impl Update<Member> for Database {
    /// Overwrites the member record stored under `item`'s identity.
    fn update(&mut self, item: Member) -> (r: Result<Member, QueryError>)
        ensures
            final(self).members@.len() == old(self).members@.len(),
            forall|j: int|
                0 <= j < old(self).members@.len() && (#[trigger] old(self).members@[j]).id
                    != item.id ==> final(self).members@[j] == old(self).members@[j],
            forall|j: int|
                0 <= j < old(self).members@.len() && (#[trigger] old(self).members@[j]).id
                    == item.id ==> final(self).members@[j] == item,
            final(self).transactions@ == old(self).transactions@,
            final(self).rules@ == old(self).rules@,
            final(self).next_member_id == old(self).next_member_id,
            final(self).next_transaction_id == old(self).next_transaction_id,
            match r {
                Ok(m) => m == item && has_member(old(self).members@, item.id),
                Err(e) => e == QueryError::NotFound && !has_member(old(self).members@, item.id),
            },
            old(self).wf() && item.dates_valid() && item.id < old(self).next_member_id
                ==> final(self).wf(),
    {
        let ghost orig = self.members@;
        let mut out: Vec<Member> = Vec::new();
        let mut i: usize = 0;
        let mut found = false;
        while i < self.members.len()
            invariant
                i <= orig.len(),
                self.members@ == orig,
                out@.len() == i as int,
                forall|k: int|
                    0 <= k < i && (#[trigger] orig[k]).id != item.id ==> out@[k] == orig[k],
                forall|k: int|
                    0 <= k < i && (#[trigger] orig[k]).id == item.id ==> out@[k] == item,
                found == exists|k: int| 0 <= k < i && (#[trigger] orig[k]).id == item.id,
            decreases orig.len() - i,
        {
            if self.members[i].id == item.id {
                out.push(item.clone());
                found = true;
            } else {
                out.push(self.members[i].clone());
            }
            i += 1;
        }
        self.members = out;
        proof {
            if old(self).wf() && item.dates_valid() && item.id < old(self).next_member_id {
                assert forall|i: int, j: int|
                    0 <= i < j < self.members@.len() implies self.members@[i].id
                    != self.members@[j].id by {
                    assert(orig[i].id != orig[j].id);
                    if orig[i].id == item.id {
                        assert(self.members@[i] == item);
                    } else {
                        assert(self.members@[i] == orig[i]);
                    }
                    if orig[j].id == item.id {
                        assert(self.members@[j] == item);
                    } else {
                        assert(self.members@[j] == orig[j]);
                    }
                }
                assert forall|i: int|
                    0 <= i < self.members@.len() implies (#[trigger] self.members@[i]).id
                    < self.next_member_id && self.members@[i].dates_valid() by {
                    if orig[i].id == item.id {
                        assert(self.members@[i] == item);
                    } else {
                        assert(self.members@[i] == orig[i]);
                    }
                }
            }
        }
        if found {
            Ok(item)
        } else {
            Err(QueryError::NotFound)
        }
    }
}

impl Update<BankImportRule> for Database {
    /// Overwrites every rule stored under `item`'s `(member_id, iban)` key
    /// with `item`, and reports how many rows the key selected.
    fn update(&mut self, item: BankImportRule) -> (r: Result<BankImportRule, QueryError>)
        ensures
            final(self).rules@.len() == old(self).rules@.len(),
            forall|j: int|
                0 <= j < old(self).rules@.len() && !((#[trigger] old(self).rules@[j]).member_id
                    == item.member_id && old(self).rules@[j].iban@ == item.iban@)
                    ==> final(self).rules@[j] == old(self).rules@[j],
            forall|j: int|
                0 <= j < old(self).rules@.len() && ((#[trigger] old(self).rules@[j]).member_id
                    == item.member_id && old(self).rules@[j].iban@ == item.iban@)
                    ==> final(self).rules@[j] == item,
            final(self).members@ == old(self).members@,
            final(self).transactions@ == old(self).transactions@,
            final(self).next_member_id == old(self).next_member_id,
            final(self).next_transaction_id == old(self).next_transaction_id,
            ({
                let n = rules_with_key(old(self).rules@, item.member_id, item.iban@).len();
                if n == 0 {
                    r == Err::<BankImportRule, QueryError>(QueryError::NotFound)
                } else if n > 1 {
                    r == Err::<BankImportRule, QueryError>(QueryError::Ambiguous(n as usize))
                } else {
                    r == Ok::<BankImportRule, QueryError>(item)
                }
            }),
            old(self).wf() && rule_valid(item) ==> final(self).wf(),
    {
        let ghost orig = self.rules@;
        proof {
            let c2 = |x: BankImportRule| x.member_id == item.member_id && x.iban@ == item.iban@;
            lemma_filter_counts(orig, c2);
        }
        let mut out: Vec<BankImportRule> = Vec::new();
        let mut i: usize = 0;
        let mut n: usize = 0;
        while i < self.rules.len()
            invariant
                i <= orig.len(),
                self.rules@ == orig,
                out@.len() == i as int,
                forall|k: int|
                    0 <= k < i && !((#[trigger] orig[k]).member_id == item.member_id
                        && orig[k].iban@ == item.iban@) ==> out@[k] == orig[k],
                forall|k: int|
                    0 <= k < i && ((#[trigger] orig[k]).member_id == item.member_id
                        && orig[k].iban@ == item.iban@) ==> out@[k] == item,
                n == orig.take(i as int).filter(
                    |x: BankImportRule| x.member_id == item.member_id && x.iban@ == item.iban@,
                ).len(),
                n <= i,
            decreases orig.len() - i,
        {
            proof {
                lemma_filter_step(
                    orig,
                    |x: BankImportRule| x.member_id == item.member_id && x.iban@ == item.iban@,
                    i as int,
                );
            }
            if self.rules[i].member_id == item.member_id && self.rules[i].iban.eq(&item.iban) {
                out.push(item.clone());
                n += 1;
            } else {
                out.push(self.rules[i].clone());
            }
            i += 1;
        }
        proof {
            assert(orig.take(orig.len() as int) =~= orig);
        }
        self.rules = out;
        proof {
            if old(self).wf() && rule_valid(item) {
                assert forall|i: int|
                    0 <= i < self.rules@.len() implies rule_valid(
                    #[trigger] self.rules@[i],
                ) by {
                    if orig[i].member_id == item.member_id && orig[i].iban@ == item.iban@ {
                        assert(self.rules@[i] == item);
                    } else {
                        assert(self.rules@[i] == orig[i]);
                    }
                }
            }
        }
        if n == 0 {
            Err(QueryError::NotFound)
        } else if n > 1 {
            Err(QueryError::Ambiguous(n))
        } else {
            Ok(item)
        }
    }
}

/// A filtered sequence is no longer than the sequence.
proof fn lemma_filter_counts<A>(s: Seq<A>, pred: spec_fn(A) -> bool)
    ensures
        forall|i: int| 0 <= i <= s.len() ==> #[trigger] s.take(i).filter(pred).len() <= i,
    decreases s.len(),
{
    assert forall|i: int| 0 <= i <= s.len() implies #[trigger] s.take(i).filter(pred).len()
        <= i by {
        s.take(i).lemma_filter_len(pred);
    }
}

/// Every element of a filtered sequence is an element of the sequence.
pub proof fn lemma_filter_sub<A>(s: Seq<A>, pred: spec_fn(A) -> bool)
    ensures
        forall|i: int|
            0 <= i < s.filter(pred).len() ==> exists|k: int|
                0 <= k < s.len() && s[k] == #[trigger] s.filter(pred)[i],
    decreases s.len(),
{
    reveal(Seq::filter);
    if s.len() > 0 {
        let d = s.drop_last();
        lemma_filter_sub(d, pred);
        assert forall|i: int| 0 <= i < s.filter(pred).len() implies exists|k: int|
            0 <= k < s.len() && s[k] == #[trigger] s.filter(pred)[i] by {
            if i < d.filter(pred).len() {
                assert(s.filter(pred)[i] == d.filter(pred)[i]);
                let k = choose|k: int| 0 <= k < d.len() && d[k] == d.filter(pred)[i];
                assert(s[k] == d[k]);
            } else {
                assert(s.filter(pred)[i] == s.last());
                assert(s[s.len() - 1] == s.last());
            }
        }
    }
}

/// Filtering keeps a key distinct where it was distinct in the sequence.
proof fn lemma_filter_distinct_u32<A>(s: Seq<A>, pred: spec_fn(A) -> bool, key: spec_fn(A) -> u32)
    requires
        forall|i: int, j: int| 0 <= i < j < s.len() ==> key(s[i]) != key(s[j]),
    ensures
        forall|i: int, j: int|
            0 <= i < j < s.filter(pred).len() ==> key(s.filter(pred)[i]) != key(
                s.filter(pred)[j],
            ),
    decreases s.len(),
{
    reveal(Seq::filter);
    if s.len() > 0 {
        let d = s.drop_last();
        assert(forall|i: int| 0 <= i < d.len() ==> d[i] == s[i]);
        lemma_filter_distinct_u32(d, pred, key);
        lemma_filter_sub(d, pred);
        if pred(s.last()) {
            assert(s.filter(pred) == d.filter(pred).push(s.last()));
            assert forall|i: int, j: int|
                0 <= i < j < s.filter(pred).len() implies key(s.filter(pred)[i]) != key(
                s.filter(pred)[j],
            ) by {
                if j < d.filter(pred).len() {
                } else {
                    assert(s.filter(pred)[j] == s.last());
                    assert(s.filter(pred)[i] == d.filter(pred)[i]);
                    let k = choose|k: int| 0 <= k < d.len() && d[k] == d.filter(pred)[i];
                    assert(key(s[k]) != key(s[s.len() - 1]));
                }
            }
        }
    }
}

impl Delete<Member> for Database {
    /// Removes every member stored under `item`'s identity.
    fn delete(&mut self, item: Member)
        ensures
            final(self).members@ == old(self).members@.filter(
                |m: Member| m.id != item.id,
            ),
            final(self).transactions@ == old(self).transactions@,
            final(self).rules@ == old(self).rules@,
            final(self).next_member_id == old(self).next_member_id,
            final(self).next_transaction_id == old(self).next_transaction_id,
            old(self).wf() ==> final(self).wf(),
    {
        let ghost orig = self.members@;
        let ghost pred = |m: Member| m.id != item.id;
        let mut out: Vec<Member> = Vec::new();
        let mut i: usize = 0;
        proof {
            assert(orig.take(0).filter(pred) =~= Seq::<Member>::empty());
        }
        while i < self.members.len()
            invariant
                i <= orig.len(),
                self.members@ == orig,
                out@ == orig.take(i as int).filter(pred),
                pred == (|m: Member| m.id != item.id),
            decreases orig.len() - i,
        {
            proof {
                lemma_filter_step(orig, pred, i as int);
            }
            if self.members[i].id != item.id {
                out.push(self.members[i].clone());
            }
            i += 1;
        }
        proof {
            assert(orig.take(orig.len() as int) =~= orig);
        }
        self.members = out;
        proof {
            if old(self).wf() {
                lemma_filter_sub(orig, pred);
                lemma_filter_distinct_u32(orig, pred, |m: Member| m.id);
            }
        }
    }
}

impl Delete<Transaction> for Database {
    /// Removes every transaction stored under `item`'s identity.
    fn delete(&mut self, item: Transaction)
        ensures
            final(self).transactions@ == old(self).transactions@.filter(
                |t: Transaction| t.id != item.id,
            ),
            final(self).members@ == old(self).members@,
            final(self).rules@ == old(self).rules@,
            final(self).next_member_id == old(self).next_member_id,
            final(self).next_transaction_id == old(self).next_transaction_id,
            old(self).wf() ==> final(self).wf(),
    {
        let ghost orig = self.transactions@;
        let ghost pred = |t: Transaction| t.id != item.id;
        let mut out: Vec<Transaction> = Vec::new();
        let mut i: usize = 0;
        proof {
            assert(orig.take(0).filter(pred) =~= Seq::<Transaction>::empty());
        }
        while i < self.transactions.len()
            invariant
                i <= orig.len(),
                self.transactions@ == orig,
                out@ == orig.take(i as int).filter(pred),
                pred == (|t: Transaction| t.id != item.id),
            decreases orig.len() - i,
        {
            proof {
                lemma_filter_step(orig, pred, i as int);
            }
            if self.transactions[i].id != item.id {
                out.push(self.transactions[i].clone());
            }
            i += 1;
        }
        proof {
            assert(orig.take(orig.len() as int) =~= orig);
        }
        self.transactions = out;
        proof {
            if old(self).wf() {
                lemma_filter_sub(orig, pred);
                lemma_filter_distinct_u32(orig, pred, |t: Transaction| t.id);
            }
        }
    }
}

impl Delete<BankImportRule> for Database {
    /// Removes every rule stored under `item`'s `(member_id, iban)` key.
    fn delete(&mut self, item: BankImportRule)
        ensures
            final(self).rules@ == old(self).rules@.filter(
                |x: BankImportRule| !(x.member_id == item.member_id && x.iban@ == item.iban@),
            ),
            final(self).members@ == old(self).members@,
            final(self).transactions@ == old(self).transactions@,
            final(self).next_member_id == old(self).next_member_id,
            final(self).next_transaction_id == old(self).next_transaction_id,
            old(self).wf() ==> final(self).wf(),
    {
        let ghost orig = self.rules@;
        let ghost pred = |x: BankImportRule|
            !(x.member_id == item.member_id && x.iban@ == item.iban@);
        let mut out: Vec<BankImportRule> = Vec::new();
        let mut i: usize = 0;
        proof {
            assert(orig.take(0).filter(pred) =~= Seq::<BankImportRule>::empty());
        }
        while i < self.rules.len()
            invariant
                i <= orig.len(),
                self.rules@ == orig,
                out@ == orig.take(i as int).filter(pred),
                pred == (|x: BankImportRule|
                    !(x.member_id == item.member_id && x.iban@ == item.iban@)),
            decreases orig.len() - i,
        {
            proof {
                lemma_filter_step(orig, pred, i as int);
            }
            if self.rules[i].member_id == item.member_id && self.rules[i].iban.eq(&item.iban) {
            } else {
                out.push(self.rules[i].clone());
            }
            i += 1;
        }
        proof {
            assert(orig.take(orig.len() as int) =~= orig);
        }
        self.rules = out;
        proof {
            if old(self).wf() {
                lemma_filter_sub(orig, pred);
            }
        }
    }
}

impl Member {
    /// The ledger entries posted to this member, in storage order.
    pub fn get_transactions(&self, db: &Database) -> (r: Vec<Transaction>)
        ensures
            r@ == db.transactions@.filter(|t: Transaction| t.member_id == self.id),
    {
        let filter = TransactionFilter {
            id: None,
            member_id: Some(self.id),
            date: None,
            date_before: None,
            date_after: None,
        };
        let r = db.query(&filter);
        proof {
            let c1 = |t: Transaction| transaction_matches(t, filter);
            let c2 = |t: Transaction| t.member_id == self.id;
            assert(c1 =~= c2);
        }
        r
    }

    /// The import rules bound to this member, in storage order.
    pub fn get_bank_import_rules(&self, db: &Database) -> (r: Vec<BankImportRule>)
        ensures
            r@ == db.rules@.filter(|x: BankImportRule| x.member_id == self.id),
    {
        let filter = BankImportRuleFilter { member_id: Some(self.id), iban: None };
        let r = db.query(&filter);
        proof {
            let c1 = |x: BankImportRule| rule_matches(x, filter);
            let c2 = |x: BankImportRule| x.member_id == self.id;
            assert(c1 =~= c2);
        }
        r
    }
}

impl BankImportRule {
    /// The member this rule is bound to, where one is stored.
    pub fn get_member(&self, db: &Database) -> (r: Result<Member, QueryError>)
        ensures
            match r {
                Ok(m) => db.members@.contains(m) && m.id == self.member_id,
                Err(e) => e == QueryError::NotFound && !has_member(
                    db.members@,
                    self.member_id,
                ),
            },
    {
        db.retrieve(self.member_id)
    }
}

} // verus!
