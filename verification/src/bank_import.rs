//! Import rules: the sticky mapping from an IBAN to a member, with the
//! optional split amount and subject filter, and the hashed form of an IBAN
//! used when rules must not store the plain account number.

use vstd::prelude::*;
use vstd::string::StringSliceAdditionalSpecFns;
use vstd::utf8::encode_utf8;

use crate::members::Member;
use crate::text::{contains_bytes, lower_bytes, lower_of, spec_contains};

verus! {

/// A mapping from an IBAN to a member. `split_amount`, if set, claims only
/// that much of an incoming transaction (cents); `match_subject`, if set,
/// applies the rule only when the transaction's subject contains it,
/// case-insensitively. Several rules may share one IBAN.
pub struct BankImportRule {
    pub member_id: u32,
    pub iban: String,
    pub split_amount: Option<i64>,
    pub match_subject: Option<String>,
}

/// A query filter for import rules, by member and by exact IBAN.
pub struct BankImportRuleFilter {
    pub member_id: Option<u32>,
    pub iban: Option<String>,
}

/// Whether `r` passes the filter `f`.
pub open spec fn rule_matches(r: BankImportRule, f: BankImportRuleFilter) -> bool {
    &&& match f.member_id {
        Some(member_id) => r.member_id == member_id,
        None => true,
    }
    &&& match f.iban {
        Some(iban) => r.iban@ == iban@,
        None => true,
    }
}

/// The subject filter of `r` accepts the subject `s`: either the rule has
/// none, or the folded subject contains the folded filter text.
pub open spec fn spec_subject_accepted(r: BankImportRule, s: Seq<char>) -> bool {
    match r.match_subject {
        Some(pattern) => spec_contains(
            lower_of(encode_utf8(s)),
            lower_of(encode_utf8(pattern@)),
        ),
        None => true,
    }
}

impl BankImportRule {
    /// A plain rule for a member and IBAN, with no split and no subject
    /// filter.
    pub fn new(member: &Member, iban: &str) -> (r: BankImportRule)
        ensures
            r.member_id == member.id,
            r.iban@ == iban@,
            r.split_amount is None,
            r.match_subject is None,
    {
        BankImportRule {
            member_id: member.id,
            iban: iban.to_owned(),
            split_amount: None,
            match_subject: None,
        }
    }

    /// The case-insensitive substring test of the rule's subject filter
    /// against a transaction subject; `None` when the rule has no filter.
    pub fn match_subject(&self, subject: &str) -> (r: Option<bool>)
        ensures
            match self.match_subject {
                Some(_) => r == Some(spec_subject_accepted(*self, subject@)),
                None => r is None,
            },
    {
        match &self.match_subject {
            None => None,
            Some(pattern) => {
                let hay = lower_bytes(subject);
                let needle = lower_bytes(pattern.as_str());
                Some(contains_bytes(&hay, &needle))
            },
        }
    }
}

impl Clone for BankImportRule {
    fn clone(&self) -> (r: BankImportRule)
        ensures
            r == *self,
    {
        BankImportRule {
            member_id: self.member_id,
            iban: self.iban.clone(),
            split_amount: self.split_amount,
            match_subject: match &self.match_subject {
                Some(p) => Some(p.clone()),
                None => None,
            },
        }
    }
}

impl Default for BankImportRule {
    /// A rule bound to no member and the empty IBAN, with no split and no
    /// subject filter.
    fn default() -> (r: BankImportRule)
        ensures
            r.member_id == 0,
            r.iban@ == Seq::<char>::empty(),
            r.split_amount is None,
            r.match_subject is None,
    {
        BankImportRule { member_id: 0, iban: String::new(), split_amount: None, match_subject: None }
    }
}

impl BankImportRuleFilter {
    /// Whether rule `r` passes this filter.
    pub fn matches(&self, rule: &BankImportRule) -> (r: bool)
        ensures
            r == rule_matches(*rule, *self),
    {
        if let Some(member_id) = self.member_id {
            if rule.member_id != member_id {
                return false;
            }
        }
        if let Some(iban) = &self.iban {
            if !rule.iban.eq(iban) {
                return false;
            }
        }
        true
    }
}

impl Clone for BankImportRuleFilter {
    fn clone(&self) -> (r: BankImportRuleFilter)
        ensures
            r == *self,
    {
        BankImportRuleFilter {
            member_id: self.member_id,
            iban: match &self.iban {
                Some(i) => Some(i.clone()),
                None => None,
            },
        }
    }
}

impl Default for BankImportRuleFilter {
    /// The filter that matches every rule.
    fn default() -> (r: BankImportRuleFilter)
        ensures
            r.member_id is None && r.iban is None,
    {
        BankImportRuleFilter { member_id: None, iban: None }
    }
}

/// The six bytes that PBKDF2-HMAC-SHA-256 derives from a password and salt
/// after the given number of rounds. The result depends on the arguments
/// alone.
pub uninterp spec fn pbkdf2_sha256_6(password: Seq<u8>, salt: Seq<u8>, rounds: u32) -> Seq<u8>;

/// Relies on `pbkdf2::pbkdf2_hmac` with `sha2::Sha256`: fills the six-byte
/// buffer with the derived key, a function of password, salt and rounds
/// alone.
#[verifier::external_body]
fn derive_key_6(password: &[u8], salt: &[u8], rounds: u32) -> (r: Vec<u8>)
    ensures
        r@ == pbkdf2_sha256_6(password@, salt@, rounds),
        r@.len() == 6,
{
    let mut key = [0u8; 6];
    pbkdf2::pbkdf2_hmac::<sha2::Sha256>(password, salt, rounds, &mut key);
    key.to_vec()
}

/// The lowercase hexadecimal digits of a byte sequence, two per byte.
pub open spec fn hex_of(bytes: Seq<u8>) -> Seq<char>
    decreases bytes.len(),
{
    if bytes.len() == 0 {
        Seq::empty()
    } else {
        seq![
            hex_digit(bytes[0] as int / 16),
            hex_digit(bytes[0] as int % 16),
        ] + hex_of(bytes.drop_first())
    }
}

/// The character for one hexadecimal digit.
pub open spec fn hex_digit(d: int) -> char {
    if d < 10 {
        crate::text::digit_char(d)
    } else if d == 10 {
        'a'
    } else if d == 11 {
        'b'
    } else if d == 12 {
        'c'
    } else if d == 13 {
        'd'
    } else if d == 14 {
        'e'
    } else {
        'f'
    }
}

/// Append one lowercase hexadecimal digit to `s`.
fn push_hex_digit(s: &mut String, d: u8)
    requires
        d < 16,
    ensures
        final(s)@ == old(s)@ + seq![hex_digit(d as int)],
{
    if d < 10 {
        crate::text::push_digit(s, d as u32);
    } else if d == 10 {
        proof {
            reveal_strlit("a");
        }
        s.append("a");
    } else if d == 11 {
        proof {
            reveal_strlit("b");
        }
        s.append("b");
    } else if d == 12 {
        proof {
            reveal_strlit("c");
        }
        s.append("c");
    } else if d == 13 {
        proof {
            reveal_strlit("d");
        }
        s.append("d");
    } else if d == 14 {
        proof {
            reveal_strlit("e");
        }
        s.append("e");
    } else {
        proof {
            reveal_strlit("f");
        }
        s.append("f");
    }
    assert(final(s)@ =~= old(s)@ + seq![hex_digit(d as int)]);
}

/// Appending a byte appends its two digits to the hexadecimal rendering.
proof fn lemma_hex_of_snoc(bytes: Seq<u8>, b: u8)
    ensures
        hex_of(bytes.push(b)) == hex_of(bytes) + seq![
            hex_digit(b as int / 16),
            hex_digit(b as int % 16),
        ],
    decreases bytes.len(),
{
    let digits = seq![hex_digit(b as int / 16), hex_digit(b as int % 16)];
    if bytes.len() == 0 {
        assert(bytes.push(b).drop_first() =~= Seq::<u8>::empty());
        assert(hex_of(Seq::<u8>::empty()) == Seq::<char>::empty());
        assert(hex_of(bytes.push(b)) =~= hex_of(bytes) + digits);
    } else {
        assert(bytes.push(b).drop_first() =~= bytes.drop_first().push(b));
        assert(bytes.push(b)[0] == bytes[0]);
        lemma_hex_of_snoc(bytes.drop_first(), b);
        assert(hex_of(bytes.push(b)) =~= hex_of(bytes) + digits);
    }
}

/// The lowercase hexadecimal rendering of a byte string, two digits per
/// byte, in order.
fn hex_encode(bytes: &[u8]) -> (r: String)
    ensures
        r@ == hex_of(bytes@),
{
    let mut s = String::new();
    let mut i: usize = 0;
    proof {
        assert(bytes@.take(0) =~= Seq::<u8>::empty());
    }
    while i < bytes.len()
        invariant
            i <= bytes@.len(),
            s@ == hex_of(bytes@.take(i as int)),
        decreases bytes@.len() - i,
    {
        let b = bytes[i];
        push_hex_digit(&mut s, b / 16);
        push_hex_digit(&mut s, b % 16);
        proof {
            assert(bytes@.take(i + 1).drop_last() =~= bytes@.take(i as int));
            assert(bytes@.take(i as int).push(b) =~= bytes@.take(i + 1));
            lemma_hex_of_snoc(bytes@.take(i as int), b);
            assert(s@ =~= hex_of(bytes@.take(i + 1)));
        }
        i += 1;
    }
    proof {
        assert(bytes@.take(bytes@.len() as int) =~= bytes@);
    }
    s
}

/// The hashed form of an IBAN: the lowercase hex digest of the six bytes
/// PBKDF2-HMAC-SHA-256 derives from the holder name (as password) and the
/// IBAN (as salt) in 1000 rounds.
pub fn hash_iban(iban: &str, name: &str) -> (r: String)
    ensures
        r@ == hex_of(pbkdf2_sha256_6(name.spec_bytes(), iban.spec_bytes(), 1000)),
        r@.len() == 12,
{
    let key = derive_key_6(name.as_bytes(), iban.as_bytes(), 1000);
    let digest = hex_encode(key.as_slice());
    proof {
        lemma_hex_of_len(key@);
    }
    digest
}

/// `hex_of` yields two characters per byte.
proof fn lemma_hex_of_len(bytes: Seq<u8>)
    ensures
        hex_of(bytes).len() == 2 * bytes.len(),
    decreases bytes.len(),
{
    if bytes.len() > 0 {
        lemma_hex_of_len(bytes.drop_first());
    }
}

} // verus!
