//! Participant identities and per-participant records, together with the
//! sequence reasoning the ledger needs: looking an identity up in a record
//! sequence, and summing stakes and reputation scores over it.

use vstd::prelude::*;
use crate::uint256::Uint256;

verus! {

/// An opaque, fixed-width participant identity: 160 bits, held as a 32-bit
/// high part and a 128-bit low part. The all-zero identity is the null
/// identity, which may not own a ledger nor be blacklisted.
#[derive(Clone, Copy, PartialEq, Eq, Structural, Debug)]
pub struct Address {
    pub hi: u32,
    pub lo: u128,
}

impl Address {
    pub open spec fn spec_is_zero(self) -> bool {
        self.hi == 0 && self.lo == 0
    }

    pub fn new(hi: u32, lo: u128) -> (r: Address)
        ensures
            r == (Address { hi, lo }),
    {
        Address { hi, lo }
    }

    pub fn zero() -> (r: Address)
        ensures
            r.spec_is_zero(),
    {
        Address { hi: 0, lo: 0 }
    }

    pub fn is_zero(&self) -> (r: bool)
        ensures
            r <==> self.spec_is_zero(),
    {
        self.hi == 0 && self.lo == 0
    }
}

/// One participant's record. An identity without a record is equivalent to a
/// record whose numeric fields are zero and whose blacklist flag is clear.
#[derive(Clone, Copy, PartialEq, Eq, Structural, Debug)]
pub struct Account {
    pub addr: Address,
    pub staked: Uint256,
    pub reputation: Uint256,
    pub stake_timestamp: Uint256,
    pub blacklisted: bool,
}

/// No two records share an identity.
pub open spec fn distinct_addresses(s: Seq<Account>) -> bool {
    forall|i: int, j: int| 0 <= i < j < s.len() ==> s[i].addr != s[j].addr
}

/// The first record at or after position `i` whose identity is `a`.
pub open spec fn find_from(s: Seq<Account>, a: Address, i: int) -> Option<Account>
    decreases s.len() - i,
{
    if i < 0 || i >= s.len() {
        None
    } else if s[i].addr == a {
        Some(s[i])
    } else {
        find_from(s, a, i + 1)
    }
}

/// The record with identity `a`, if any.
pub open spec fn find_account(s: Seq<Account>, a: Address) -> Option<Account> {
    find_from(s, a, 0)
}

/// The sum of the staked amounts of the records at or after position `i`.
pub open spec fn sum_staked_from(s: Seq<Account>, i: int) -> nat
    decreases s.len() - i,
{
    if i < 0 || i >= s.len() {
        0
    } else {
        s[i].staked.as_nat() + sum_staked_from(s, i + 1)
    }
}

/// The sum of all staked amounts.
pub open spec fn sum_staked(s: Seq<Account>) -> nat {
    sum_staked_from(s, 0)
}

/// The sum of the reputation scores of the records at or after position `i`.
pub open spec fn sum_reputation_from(s: Seq<Account>, i: int) -> nat
    decreases s.len() - i,
{
    if i < 0 || i >= s.len() {
        0
    } else {
        s[i].reputation.as_nat() + sum_reputation_from(s, i + 1)
    }
}

/// The sum of all reputation scores.
pub open spec fn sum_reputation(s: Seq<Account>) -> nat {
    sum_reputation_from(s, 0)
}

/// A record whose identity matches, with no earlier match, is what the
/// search finds.
pub proof fn lemma_find_is_first_match(s: Seq<Account>, a: Address, k: int, i: int)
    requires
        0 <= i <= k < s.len(),
        s[k].addr == a,
        forall|j: int| i <= j < k ==> s[j].addr != a,
    ensures
        find_from(s, a, i) == Some(s[k]),
    decreases k - i,
{
    if i < k {
        lemma_find_is_first_match(s, a, k, i + 1);
    }
}

/// A successful search returns a record that sits in the sequence.
pub proof fn lemma_find_some_index(s: Seq<Account>, a: Address, i: int)
    requires
        0 <= i,
        find_from(s, a, i) is Some,
    ensures
        exists|k: int|
            i <= k < s.len() && s[k] == find_from(s, a, i)->0 && s[k].addr == a,
    decreases s.len() - i,
{
    if i < s.len() && s[i].addr != a {
        lemma_find_some_index(s, a, i + 1);
    }
}

/// A failed search means no record at or after `i` has identity `a`.
pub proof fn lemma_find_none_no_match(s: Seq<Account>, a: Address, i: int)
    requires
        0 <= i,
        find_from(s, a, i) is None,
    ensures
        forall|j: int| i <= j < s.len() ==> s[j].addr != a,
    decreases s.len() - i,
{
    if i < s.len() {
        lemma_find_none_no_match(s, a, i + 1);
    }
}

/// Replacing a record leaves searches for other identities unchanged.
pub proof fn lemma_find_update_other(s: Seq<Account>, k: int, e: Account, a: Address, i: int)
    requires
        0 <= k < s.len(),
        0 <= i,
        s[k].addr != a,
        e.addr != a,
    ensures
        find_from(s.update(k, e), a, i) == find_from(s, a, i),
    decreases s.len() - i,
{
    if i < s.len() {
        lemma_find_update_other(s, k, e, a, i + 1);
    }
}

/// Appending a record leaves searches for other identities unchanged.
pub proof fn lemma_find_push_other(s: Seq<Account>, e: Account, a: Address, i: int)
    requires
        0 <= i,
        e.addr != a,
    ensures
        find_from(s.push(e), a, i) == find_from(s, a, i),
    decreases s.len() + 1 - i,
{
    if i < s.len() + 1 {
        lemma_find_push_other(s, e, a, i + 1);
    }
}

/// Appending a record with a fresh identity makes searches for it find it.
pub proof fn lemma_find_push_self(s: Seq<Account>, e: Account, i: int)
    requires
        0 <= i <= s.len(),
        forall|j: int| i <= j < s.len() ==> s[j].addr != e.addr,
    ensures
        find_from(s.push(e), e.addr, i) == Some(e),
    decreases s.len() - i,
{
    if i < s.len() {
        lemma_find_push_self(s, e, i + 1);
    }
}

/// Sequences equal from position `i` on have equal stake sums from `i`.
pub proof fn lemma_sum_staked_congruent(s1: Seq<Account>, s2: Seq<Account>, i: int)
    requires
        s1.len() == s2.len(),
        0 <= i,
        forall|j: int| i <= j < s1.len() ==> s1[j] == s2[j],
    ensures
        sum_staked_from(s1, i) == sum_staked_from(s2, i),
    decreases s1.len() - i,
{
    if i < s1.len() {
        lemma_sum_staked_congruent(s1, s2, i + 1);
    }
}

/// Replacing one record changes the stake sum by the difference of the
/// replaced and replacing staked amounts.
pub proof fn lemma_sum_staked_update(s: Seq<Account>, k: int, e: Account, i: int)
    requires
        0 <= i <= k < s.len(),
    ensures
        sum_staked_from(s.update(k, e), i) + s[k].staked.as_nat() == sum_staked_from(s, i)
            + e.staked.as_nat(),
    decreases k - i,
{
    if i == k {
        lemma_sum_staked_congruent(s.update(k, e), s, k + 1);
    } else {
        lemma_sum_staked_update(s, k, e, i + 1);
    }
}

/// Appending a record adds its staked amount to the stake sum.
pub proof fn lemma_sum_staked_push(s: Seq<Account>, e: Account, i: int)
    requires
        0 <= i <= s.len(),
    ensures
        sum_staked_from(s.push(e), i) == sum_staked_from(s, i) + e.staked.as_nat(),
    decreases s.len() - i,
{
    if i < s.len() {
        lemma_sum_staked_push(s, e, i + 1);
    } else {
        assert(sum_staked_from(s.push(e), i + 1) == 0);
    }
}

/// Each record's staked amount is at most the stake sum it contributes to.
pub proof fn lemma_sum_staked_element(s: Seq<Account>, k: int, i: int)
    requires
        0 <= i <= k < s.len(),
    ensures
        s[k].staked.as_nat() <= sum_staked_from(s, i),
    decreases k - i,
{
    if i < k {
        lemma_sum_staked_element(s, k, i + 1);
    }
}

/// Sequences equal from position `i` on have equal reputation sums from `i`.
pub proof fn lemma_sum_reputation_congruent(s1: Seq<Account>, s2: Seq<Account>, i: int)
    requires
        s1.len() == s2.len(),
        0 <= i,
        forall|j: int| i <= j < s1.len() ==> s1[j] == s2[j],
    ensures
        sum_reputation_from(s1, i) == sum_reputation_from(s2, i),
    decreases s1.len() - i,
{
    if i < s1.len() {
        lemma_sum_reputation_congruent(s1, s2, i + 1);
    }
}

/// Replacing one record changes the reputation sum by the difference of the
/// replaced and replacing scores.
pub proof fn lemma_sum_reputation_update(s: Seq<Account>, k: int, e: Account, i: int)
    requires
        0 <= i <= k < s.len(),
    ensures
        sum_reputation_from(s.update(k, e), i) + s[k].reputation.as_nat()
            == sum_reputation_from(s, i) + e.reputation.as_nat(),
    decreases k - i,
{
    if i == k {
        lemma_sum_reputation_congruent(s.update(k, e), s, k + 1);
    } else {
        lemma_sum_reputation_update(s, k, e, i + 1);
    }
}

/// Appending a record adds its score to the reputation sum.
pub proof fn lemma_sum_reputation_push(s: Seq<Account>, e: Account, i: int)
    requires
        0 <= i <= s.len(),
    ensures
        sum_reputation_from(s.push(e), i) == sum_reputation_from(s, i)
            + e.reputation.as_nat(),
    decreases s.len() - i,
{
    if i < s.len() {
        lemma_sum_reputation_push(s, e, i + 1);
    } else {
        assert(sum_reputation_from(s.push(e), i + 1) == 0);
    }
}

/// Each record's score is at most the reputation sum it contributes to.
pub proof fn lemma_sum_reputation_element(s: Seq<Account>, k: int, i: int)
    requires
        0 <= i <= k < s.len(),
    ensures
        s[k].reputation.as_nat() <= sum_reputation_from(s, i),
    decreases k - i,
{
    if i < k {
        lemma_sum_reputation_element(s, k, i + 1);
    }
}

} // verus!
