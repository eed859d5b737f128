use vstd::prelude::*;

use crate::errors::RouterError;
use crate::ledger::DistributionEntry;
use crate::ledger::TOTAL_BASIS_POINTS;
use crate::ledger::addrs_unique;
use crate::ledger::has_addr;
use crate::ledger::remove_addr;
use crate::ledger::sum_of;
use crate::ledger::lemma_remove_addr_absent;
use crate::ledger::lemma_remove_addr_at;
use crate::ledger::lemma_sum_nonneg;
use crate::ledger::lemma_sum_push;
use crate::ledger::lemma_sum_remove;
use crate::ledger::lemma_sum_take_le;
use crate::ledger::lemma_sum_take_succ;
use crate::ledger::lemma_sum_update;

verus! {

/// The distribution router's whole state: the ledger of beneficiary shares,
/// the token it distributes, the write-once lock, and the two distinguished
/// identifiers of the payout path. The owner is fixed at creation and is the
/// only caller allowed to change the configuration.
pub struct Router {
    pub owner: u64,
    pub entries: Vec<DistributionEntry>,
    pub token_id: Option<Vec<u8>>,
    pub game_address: Option<u64>,
    pub minter_address: Option<u64>,
    pub locked: bool,
}

/// The token identifier as an abstract value.
pub open spec fn token_view(t: Option<Vec<u8>>) -> Option<Seq<u8>> {
    match t {
        Some(v) => Some(v@),
        None => None,
    }
}

/// The two states describe the same abstract router.
pub open spec fn same_state(pre: Router, post: Router) -> bool {
    &&& post.owner == pre.owner
    &&& post.entries@ == pre.entries@
    &&& token_view(post.token_id) == token_view(pre.token_id)
    &&& post.game_address == pre.game_address
    &&& post.minter_address == pre.minter_address
    &&& post.locked == pre.locked
}

/// The parts of the state that `add_distribution` and `remove_distribution`
/// never touch, whatever their outcome.
pub open spec fn same_config(pre: Router, post: Router) -> bool {
    &&& post.owner == pre.owner
    &&& token_view(post.token_id) == token_view(pre.token_id)
    &&& post.game_address == pre.game_address
    &&& post.minter_address == pre.minter_address
    &&& post.locked == pre.locked
}

/// The verdict `add_distribution` reaches from the pre-state and its
/// arguments, in the order the checks are made.
pub open spec fn add_distribution_outcome(
    pre: Router,
    caller: u64,
    percentage: u64,
) -> Result<(), RouterError> {
    if caller != pre.owner {
        Err(RouterError::NotOwnerError)
    } else if pre.locked {
        Err(RouterError::LockedError)
    } else if percentage == 0 || percentage > TOTAL_BASIS_POINTS {
        Err(RouterError::InvalidPercentage)
    } else if sum_of(pre.entries@) + percentage > TOTAL_BASIS_POINTS {
        Err(RouterError::OverAllocation)
    } else {
        Ok(())
    }
}

/// The verdict `remove_distribution` reaches from the pre-state.
pub open spec fn remove_distribution_outcome(pre: Router, caller: u64) -> Result<
    (),
    RouterError,
> {
    if caller != pre.owner {
        Err(RouterError::NotOwnerError)
    } else if pre.locked {
        Err(RouterError::LockedError)
    } else {
        Ok(())
    }
}

/// Once the ledger is locked it is immutable: an owner's `add_distribution`
/// and `remove_distribution` calls are rejected with `LockedError`, whatever
/// their arguments. (A non-owner's call is stopped one gate earlier, with
/// `NotOwnerError`.)
pub proof fn lemma_locked_ledger_is_immutable(
    pre: Router,
    caller: u64,
    percentage: u64,
)
    requires
        pre.locked,
        caller == pre.owner,
    ensures
        add_distribution_outcome(pre, caller, percentage) == Err::<(), RouterError>(
            RouterError::LockedError,
        ),
        remove_distribution_outcome(pre, caller) == Err::<(), RouterError>(
            RouterError::LockedError,
        ),
{
}

/// Finds the index of the first entry naming `address`, if any.
fn find_index(entries: &Vec<DistributionEntry>, address: u64) -> (r: Option<usize>)
    ensures
        match r {
            Some(i) => {
                &&& i < entries@.len()
                &&& entries@[i as int].address == address
                &&& forall|j: int| 0 <= j < i ==> entries@[j].address != address
            },
            None => !has_addr(entries@, address),
        },
{
    let mut i: usize = 0;
    while i < entries.len()
        invariant
            i <= entries@.len(),
            forall|j: int| 0 <= j < i ==> entries@[j].address != address,
        decreases entries@.len() - i,
    {
        if entries[i].address == address {
            return Some(i);
        }
        i = i + 1;
    }
    None
}

/// Adds up every stored percentage, as the payout gate does.
pub(crate) fn total_percentage(entries: &Vec<DistributionEntry>) -> (r: u64)
    requires
        sum_of(entries@) <= TOTAL_BASIS_POINTS,
    ensures
        r == sum_of(entries@),
{
    let mut total: u64 = 0;
    let mut i: usize = 0;
    proof {
        assert(entries@.take(0) =~= Seq::<DistributionEntry>::empty());
    }
    while i < entries.len()
        invariant
            i <= entries@.len(),
            total == sum_of(entries@.take(i as int)),
            sum_of(entries@) <= TOTAL_BASIS_POINTS,
        decreases entries@.len() - i,
    {
        proof {
            lemma_sum_take_succ(entries@, i as int);
            lemma_sum_take_le(entries@, i as int + 1);
            lemma_sum_nonneg(entries@.take(i as int));
        }
        total = total + entries[i].percentage;
        i = i + 1;
    }
    proof {
        assert(entries@.take(entries@.len() as int) =~= entries@);
    }
    total
}

impl Router {
    /// The ledger's standing invariant: beneficiaries are unique and the
    /// stored percentages never add up to more than 100%.
    pub open spec fn wf(self) -> bool {
        &&& addrs_unique(self.entries@)
        &&& sum_of(self.entries@) <= TOTAL_BASIS_POINTS
    }

    /// A freshly deployed router: empty ledger, nothing configured, unlocked.
    pub fn init(owner: u64) -> (r: Router)
        ensures
            r.wf(),
            r.owner == owner,
            r.entries@ == Seq::<DistributionEntry>::empty(),
            r.token_id is None,
            r.game_address is None,
            r.minter_address is None,
            !r.locked,
    {
        proof {
            assert(sum_of(Seq::<DistributionEntry>::empty()) == 0);
        }
        Router {
            owner,
            entries: Vec::new(),
            token_id: None,
            game_address: None,
            minter_address: None,
            locked: false,
        }
    }

    /// Inserts or overwrites the share of `address`. The over-allocation gate
    /// compares against the sum as stored before the update, so re-adding an
    /// already present beneficiary counts its old share toward the cap.
    pub fn add_distribution(&mut self, caller: u64, address: u64, percentage: u64) -> (r: Result<
        (),
        RouterError,
    >)
        requires
            old(self).wf(),
        ensures
            final(self).wf(),
            r == add_distribution_outcome(*old(self), caller, percentage),
            same_config(*old(self), *final(self)),
            r is Err ==> final(self).entries@ == old(self).entries@,
            r is Ok && has_addr(old(self).entries@, address) ==> {
                &&& final(self).entries@.len() == old(self).entries@.len()
                &&& forall|j: int|
                    0 <= j < old(self).entries@.len()
                        && old(self).entries@[j].address == address ==> final(self).entries@[j]
                        == (DistributionEntry { address, percentage })
                &&& forall|j: int|
                    0 <= j < old(self).entries@.len()
                        && old(self).entries@[j].address != address ==> final(self).entries@[j]
                        == old(self).entries@[j]
            },
            r is Ok && !has_addr(old(self).entries@, address) ==> final(self).entries@ == old(self).entries@.push(DistributionEntry { address, percentage }),
    {
        if caller != self.owner {
            return Err(RouterError::NotOwnerError);
        }
        if self.locked {
            return Err(RouterError::LockedError);
        }
        if percentage == 0 {
            return Err(RouterError::InvalidPercentage);
        }
        if percentage > TOTAL_BASIS_POINTS {
            return Err(RouterError::InvalidPercentage);
        }
        let total = total_percentage(&self.entries);
        if total + percentage > TOTAL_BASIS_POINTS {
            return Err(RouterError::OverAllocation);
        }
        let entry = DistributionEntry { address, percentage };
        match find_index(&self.entries, address) {
            Some(i) => {
                proof {
                    lemma_sum_update(self.entries@, i as int, entry);
                    lemma_sum_nonneg(self.entries@);
                }
                let ghost pre = self.entries@;
                self.entries[i] = entry;
                proof {
                    assert forall|j: int, k: int|
                        0 <= j < k < self.entries@.len() implies self.entries@[j].address
                        != self.entries@[k].address by {
                        assert(pre[j].address != pre[k].address);
                    }
                }
            },
            None => {
                proof {
                    lemma_sum_push(self.entries@, entry);
                }
                let ghost pre = self.entries@;
                self.entries.push(entry);
                proof {
                    assert forall|j: int, k: int|
                        0 <= j < k < self.entries@.len() implies self.entries@[j].address
                        != self.entries@[k].address by {
                        if k < pre.len() {
                            assert(pre[j].address != pre[k].address);
                        } else {
                            assert(!(0 <= j < pre.len() && pre[j].address == address));
                        }
                    }
                }
            },
        }
        Ok(())
    }

    /// Drops the entry for `address`; removing an absent beneficiary is a
    /// no-op that still succeeds.
    pub fn remove_distribution(&mut self, caller: u64, address: u64) -> (r: Result<
        (),
        RouterError,
    >)
        requires
            old(self).wf(),
        ensures
            final(self).wf(),
            r == remove_distribution_outcome(*old(self), caller),
            same_config(*old(self), *final(self)),
            r is Err ==> final(self).entries@ == old(self).entries@,
            r is Ok ==> final(self).entries@ == remove_addr(old(self).entries@, address),
    {
        if caller != self.owner {
            return Err(RouterError::NotOwnerError);
        }
        if self.locked {
            return Err(RouterError::LockedError);
        }
        match find_index(&self.entries, address) {
            Some(i) => {
                proof {
                    lemma_remove_addr_at(self.entries@, address, i as int);
                    lemma_sum_remove(self.entries@, i as int);
                    lemma_sum_nonneg(self.entries@);
                }
                let ghost pre = self.entries@;
                self.entries.remove(i);
                proof {
                    assert forall|j: int, k: int|
                        0 <= j < k < self.entries@.len() implies self.entries@[j].address
                        != self.entries@[k].address by {
                        let jj: int = if j < i { j } else { j + 1 };
                        let kk: int = if k < i { k } else { k + 1 };
                        assert(self.entries@[j] == pre[jj]);
                        assert(self.entries@[k] == pre[kk]);
                        assert(pre[jj].address != pre[kk].address);
                    }
                }
            },
            None => {
                proof {
                    lemma_remove_addr_absent(self.entries@, address);
                }
            },
        }
        Ok(())
    }

    /// Sets the lock for good: once locked the ledger can never change again.
    /// Locking an already locked router succeeds and changes nothing.
    pub fn lock_distribution(&mut self, caller: u64) -> (r: Result<(), RouterError>)
        requires
            old(self).wf(),
        ensures
            final(self).wf(),
            caller != old(self).owner ==> r == Err::<(), RouterError>(RouterError::NotOwnerError)
                && same_state(*old(self), *final(self)),
            caller == old(self).owner ==> r == Ok::<(), RouterError>(()) && final(self).locked,
            final(self).locked == (old(self).locked || caller == old(self).owner),
            final(self).owner == old(self).owner,
            final(self).entries@ == old(self).entries@,
            token_view(final(self).token_id) == token_view(old(self).token_id),
            final(self).game_address == old(self).game_address,
            final(self).minter_address == old(self).minter_address,
    {
        if caller != self.owner {
            return Err(RouterError::NotOwnerError);
        }
        self.locked = true;
        Ok(())
    }

    /// Overwrites the distributed token's identifier. The lock does not
    /// cover it: the token can be changed at any time.
    pub fn set_token(&mut self, caller: u64, token_id: Vec<u8>) -> (r: Result<(), RouterError>)
        requires
            old(self).wf(),
        ensures
            final(self).wf(),
            caller != old(self).owner ==> r == Err::<(), RouterError>(RouterError::NotOwnerError)
                && same_state(*old(self), *final(self)),
            caller == old(self).owner ==> r == Ok::<(), RouterError>(()) && token_view(
                final(self).token_id,
            ) == Some(token_id@),
            final(self).owner == old(self).owner,
            final(self).entries@ == old(self).entries@,
            final(self).game_address == old(self).game_address,
            final(self).minter_address == old(self).minter_address,
            final(self).locked == old(self).locked,
    {
        if caller != self.owner {
            return Err(RouterError::NotOwnerError);
        }
        self.token_id = Some(token_id);
        Ok(())
    }

    /// Overwrites the game contract's identifier, the beneficiary paid
    /// through the routed deposit call.
    pub fn set_game_address(&mut self, caller: u64, address: u64) -> (r: Result<(), RouterError>)
        requires
            old(self).wf(),
        ensures
            final(self).wf(),
            caller != old(self).owner ==> r == Err::<(), RouterError>(RouterError::NotOwnerError)
                && same_state(*old(self), *final(self)),
            caller == old(self).owner ==> r == Ok::<(), RouterError>(()) && final(self).game_address == Some(address),
            final(self).owner == old(self).owner,
            final(self).entries@ == old(self).entries@,
            token_view(final(self).token_id) == token_view(old(self).token_id),
            final(self).minter_address == old(self).minter_address,
            final(self).locked == old(self).locked,
    {
        if caller != self.owner {
            return Err(RouterError::NotOwnerError);
        }
        self.game_address = Some(address);
        Ok(())
    }

    /// Overwrites the minter's identifier, the only caller allowed to
    /// trigger a payout.
    pub fn set_minter_address(&mut self, caller: u64, address: u64) -> (r: Result<(), RouterError>)
        requires
            old(self).wf(),
        ensures
            final(self).wf(),
            caller != old(self).owner ==> r == Err::<(), RouterError>(RouterError::NotOwnerError)
                && same_state(*old(self), *final(self)),
            caller == old(self).owner ==> r == Ok::<(), RouterError>(()) && final(self).minter_address == Some(address),
            final(self).owner == old(self).owner,
            final(self).entries@ == old(self).entries@,
            token_view(final(self).token_id) == token_view(old(self).token_id),
            final(self).game_address == old(self).game_address,
            final(self).locked == old(self).locked,
    {
        if caller != self.owner {
            return Err(RouterError::NotOwnerError);
        }
        self.minter_address = Some(address);
        Ok(())
    }

    /// The current ledger, in storage order.
    pub fn distribution(&self) -> (r: Vec<DistributionEntry>)
        ensures
            r@ == self.entries@,
    {
        let mut out: Vec<DistributionEntry> = Vec::new();
        let mut i: usize = 0;
        while i < self.entries.len()
            invariant
                i <= self.entries@.len(),
                out@ == self.entries@.take(i as int),
            decreases self.entries@.len() - i,
        {
            let ghost pre = out@;
            out.push(self.entries[i]);
            proof {
                assert(out@ =~= self.entries@.take(i as int + 1));
            }
            i = i + 1;
        }
        proof {
            assert(self.entries@.take(self.entries@.len() as int) =~= self.entries@);
        }
        out
    }

    /// The configured token identifier, if one was set.
    pub fn ecity_token_id(&self) -> (r: &Option<Vec<u8>>)
        ensures
            r == &self.token_id,
    {
        &self.token_id
    }

    /// The configured game contract, if one was set.
    pub fn game_address(&self) -> (r: Option<u64>)
        ensures
            r == self.game_address,
    {
        self.game_address
    }

    /// The configured minter, if one was set.
    pub fn minter_address(&self) -> (r: Option<u64>)
        ensures
            r == self.minter_address,
    {
        self.minter_address
    }

    /// Whether the ledger has been locked.
    pub fn locked(&self) -> (r: bool)
        ensures
            r == self.locked,
    {
        self.locked
    }
}

} // verus!
