use vstd::prelude::*;

verus! {

/// One row of the distribution ledger: a beneficiary identifier and its
/// share in basis points (10000 = 100%).
#[derive(Clone, Copy, Debug, PartialEq, Eq, Structural)]
pub struct DistributionEntry {
    pub address: u64,
    pub percentage: u64,
}

/// 100% expressed in basis points.
pub const TOTAL_BASIS_POINTS: u64 = 10000;

/// The sum of the percentages of a sequence of ledger entries.
pub open spec fn sum_of(s: Seq<DistributionEntry>) -> int
    decreases s.len(),
{
    if s.len() == 0 {
        0
    } else {
        s[0].percentage + sum_of(s.skip(1))
    }
}

/// No two entries name the same beneficiary.
pub open spec fn addrs_unique(s: Seq<DistributionEntry>) -> bool {
    forall|i: int, j: int| 0 <= i < j < s.len() ==> s[i].address != s[j].address
}

/// Some entry names `address`.
pub open spec fn has_addr(s: Seq<DistributionEntry>, address: u64) -> bool {
    exists|i: int| 0 <= i < s.len() && s[i].address == address
}

/// The ledger with the first entry naming `address` dropped; with unique
/// beneficiaries that is the only one.
pub open spec fn remove_addr(s: Seq<DistributionEntry>, address: u64) -> Seq<DistributionEntry>
    decreases s.len(),
{
    if s.len() == 0 {
        s
    } else if s[0].address == address {
        s.skip(1)
    } else {
        seq![s[0]] + remove_addr(s.skip(1), address)
    }
}

/// Removing an absent beneficiary changes nothing.
pub proof fn lemma_remove_addr_absent(s: Seq<DistributionEntry>, address: u64)
    requires
        !has_addr(s, address),
    ensures
        remove_addr(s, address) == s,
    decreases s.len(),
{
    if s.len() > 0 {
        assert(s[0].address != address);
        assert forall|i: int| 0 <= i < s.skip(1).len() implies s.skip(1)[i].address
            != address by {
            assert(s.skip(1)[i] == s[i + 1]);
        }
        lemma_remove_addr_absent(s.skip(1), address);
        assert(seq![s[0]] + s.skip(1) =~= s);
    }
}

/// Removing by address is removing at the address's first index.
pub proof fn lemma_remove_addr_at(s: Seq<DistributionEntry>, address: u64, i: int)
    requires
        0 <= i < s.len(),
        s[i].address == address,
        forall|j: int| 0 <= j < i ==> s[j].address != address,
    ensures
        remove_addr(s, address) == s.remove(i),
    decreases i,
{
    if i == 0 {
        assert(s.remove(0) =~= s.skip(1));
    } else {
        assert(s[0].address != address);
        assert(s.skip(1)[i - 1] == s[i]);
        assert forall|j: int| 0 <= j < i - 1 implies s.skip(1)[j].address != address by {
            assert(s.skip(1)[j] == s[j + 1]);
        }
        lemma_remove_addr_at(s.skip(1), address, i - 1);
        assert(seq![s[0]] + s.skip(1).remove(i - 1) =~= s.remove(i));
    }
}

pub proof fn lemma_sum_nonneg(s: Seq<DistributionEntry>)
    ensures
        sum_of(s) >= 0,
    decreases s.len(),
{
    if s.len() > 0 {
        lemma_sum_nonneg(s.skip(1));
    }
}

pub proof fn lemma_sum_push(s: Seq<DistributionEntry>, e: DistributionEntry)
    ensures
        sum_of(s.push(e)) == sum_of(s) + e.percentage,
    decreases s.len(),
{
    reveal_with_fuel(sum_of, 2);
    if s.len() == 0 {
        assert(s.push(e)[0] == e);
        assert(s.push(e).skip(1) =~= Seq::<DistributionEntry>::empty());
    } else {
        assert(s.push(e)[0] == s[0]);
        assert(s.push(e).skip(1) =~= s.skip(1).push(e));
        lemma_sum_push(s.skip(1), e);
    }
}

pub proof fn lemma_sum_take_succ(s: Seq<DistributionEntry>, i: int)
    requires
        0 <= i < s.len(),
    ensures
        sum_of(s.take(i + 1)) == sum_of(s.take(i)) + s[i].percentage,
{
    assert(s.take(i + 1) =~= s.take(i).push(s[i]));
    lemma_sum_push(s.take(i), s[i]);
}

pub proof fn lemma_sum_split(s: Seq<DistributionEntry>, i: int)
    requires
        0 <= i <= s.len(),
    ensures
        sum_of(s) == sum_of(s.take(i)) + sum_of(s.skip(i)),
    decreases i,
{
    if i == 0 {
        assert(s.take(0) =~= Seq::<DistributionEntry>::empty());
        assert(s.skip(0) =~= s);
    } else {
        lemma_sum_split(s, i - 1);
        lemma_sum_take_succ(s, i - 1);
        assert(s.skip(i - 1).skip(1) =~= s.skip(i));
        assert(s.skip(i - 1)[0] == s[i - 1]);
    }
}

/// A prefix of a ledger never sums to more than the whole ledger.
pub proof fn lemma_sum_take_le(s: Seq<DistributionEntry>, i: int)
    requires
        0 <= i <= s.len(),
    ensures
        sum_of(s.take(i)) <= sum_of(s),
{
    lemma_sum_split(s, i);
    lemma_sum_nonneg(s.skip(i));
}

/// A single entry never holds more than the whole ledger's sum.
pub proof fn lemma_sum_element_le(s: Seq<DistributionEntry>, i: int)
    requires
        0 <= i < s.len(),
    ensures
        s[i].percentage <= sum_of(s),
{
    lemma_sum_split(s, i + 1);
    lemma_sum_take_succ(s, i);
    lemma_sum_take_le(s.take(i + 1), i);
    lemma_sum_nonneg(s.take(i));
    lemma_sum_nonneg(s.skip(i + 1));
}

pub proof fn lemma_sum_update(s: Seq<DistributionEntry>, i: int, e: DistributionEntry)
    requires
        0 <= i < s.len(),
    ensures
        sum_of(s.update(i, e)) == sum_of(s) - s[i].percentage + e.percentage,
    decreases i,
{
    if i == 0 {
        assert(s.update(0, e)[0] == e);
        assert(s.update(0, e).skip(1) =~= s.skip(1));
    } else {
        assert(s.update(i, e)[0] == s[0]);
        assert(s.update(i, e).skip(1) =~= s.skip(1).update(i - 1, e));
        lemma_sum_update(s.skip(1), i - 1, e);
    }
}

pub proof fn lemma_sum_remove(s: Seq<DistributionEntry>, i: int)
    requires
        0 <= i < s.len(),
    ensures
        sum_of(s.remove(i)) == sum_of(s) - s[i].percentage,
    decreases i,
{
    if i == 0 {
        assert(s.remove(0) =~= s.skip(1));
    } else {
        assert(s.remove(i)[0] == s[0]);
        assert(s.remove(i).skip(1) =~= s.skip(1).remove(i - 1));
        lemma_sum_remove(s.skip(1), i - 1);
    }
}

} // verus!
