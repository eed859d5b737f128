use vstd::prelude::*;
use vstd::arithmetic::div_mod::lemma_div_is_ordered;
use vstd::arithmetic::div_mod::lemma_div_multiples_vanish;
use vstd::arithmetic::div_mod::lemma_fundamental_div_mod;
use vstd::arithmetic::div_mod::lemma_mod_bound;
use vstd::arithmetic::mul::lemma_mul_nonnegative;

use crate::errors::RouterError;
use crate::ledger::DistributionEntry;
use crate::ledger::TOTAL_BASIS_POINTS;
use crate::ledger::sum_of;
use crate::ledger::lemma_sum_nonneg;
use crate::ledger::lemma_sum_take_succ;
use crate::router::Router;
use crate::router::token_view;

verus! {

/// The downstream contract a routed beneficiary is paid through: it exposes
/// a payable deposit entry point taking the transferred amount.
pub trait Game {
    fn deposit_ecity(&mut self, amount: u128);
}

/// One transfer the payout decided on: pay `amount` of the configured token
/// to `beneficiary`, through the game contract's deposit call when `routed`
/// is set and by direct transfer otherwise.
#[derive(Clone, Copy, Debug, PartialEq, Eq, Structural)]
pub struct Payment {
    pub beneficiary: u64,
    pub amount: u128,
    pub routed: bool,
}

/// The share of `balance` an entry is owed: its percentage of the whole,
/// rounded down.
pub open spec fn payment_amount(e: DistributionEntry, balance: u128) -> int {
    (balance as int) * (e.percentage as int) / (TOTAL_BASIS_POINTS as int)
}

/// The payment an entry gives rise to; the routed flag singles out the
/// configured game contract.
pub open spec fn payment_of(e: DistributionEntry, balance: u128, game: Option<u64>) -> Payment {
    Payment {
        beneficiary: e.address,
        amount: payment_amount(e, balance) as u128,
        routed: game == Some(e.address),
    }
}

/// The whole payout: one payment per ledger entry, in ledger order.
pub open spec fn payout_seq(s: Seq<DistributionEntry>, balance: u128, game: Option<u64>) -> Seq<
    Payment,
>
    decreases s.len(),
{
    if s.len() == 0 {
        Seq::empty()
    } else {
        seq![payment_of(s[0], balance, game)] + payout_seq(s.skip(1), balance, game)
    }
}

/// The total number of token units a payout moves out of the contract.
pub open spec fn total_paid(ps: Seq<Payment>) -> int
    decreases ps.len(),
{
    if ps.len() == 0 {
        0
    } else {
        ps[0].amount + total_paid(ps.skip(1))
    }
}

/// Whether the incoming payment carries the configured token.
pub open spec fn token_matches(pre: Router, payment_token: Seq<u8>) -> bool {
    token_view(pre.token_id) == Some(payment_token)
}

/// The verdict `distribute` reaches from the pre-state and its arguments, in
/// the order the gates are checked.
pub open spec fn distribute_outcome(pre: Router, caller: u64, payment_token: Seq<u8>) -> Result<
    (),
    RouterError,
> {
    if pre.minter_address != Some(caller) {
        Err(RouterError::UnauthorizedCaller)
    } else if sum_of(pre.entries@) != TOTAL_BASIS_POINTS {
        Err(RouterError::IncompleteDistribution)
    } else if !token_matches(pre, payment_token) {
        Err(RouterError::WrongTokenError)
    } else {
        Ok(())
    }
}

/// An entry's share never exceeds the whole balance, as long as its
/// percentage is at most 100%.
proof fn lemma_payment_amount_le_balance(e: DistributionEntry, balance: u128)
    requires
        e.percentage <= TOTAL_BASIS_POINTS,
    ensures
        0 <= payment_amount(e, balance) <= balance,
{
    let b = balance as int;
    let p = e.percentage as int;
    let d = TOTAL_BASIS_POINTS as int;
    lemma_mul_nonnegative(b, p);
    lemma_div_is_ordered(0, b * p, d);
    assert(b * p <= b * d) by (nonlinear_arith)
        requires
            0 <= b,
            0 <= p <= d,
    ;
    lemma_div_is_ordered(b * p, b * d, d);
    assert(b * d == d * b) by (nonlinear_arith);
    lemma_div_multiples_vanish(b, d);
}

/// Scaled bounds on the whole payout: `10000 * total` undershoots
/// `balance * sum` by at most `9999` per entry and never overshoots it.
proof fn lemma_payout_total_scaled(s: Seq<DistributionEntry>, balance: u128, game: Option<u64>)
    requires
        sum_of(s) <= TOTAL_BASIS_POINTS,
    ensures
        0 <= (balance as int) * sum_of(s) - (TOTAL_BASIS_POINTS as int) * total_paid(
            payout_seq(s, balance, game),
        ) <= (TOTAL_BASIS_POINTS as int - 1) * s.len(),
    decreases s.len(),
{
    let b = balance as int;
    let d = TOTAL_BASIS_POINTS as int;
    if s.len() == 0 {
        assert(b * sum_of(s) == 0) by (nonlinear_arith)
            requires
                sum_of(s) == 0,
        ;
    } else {
        let p = s[0].percentage as int;
        let rest = s.skip(1);
        let ps = payout_seq(s, balance, game);
        assert(ps[0] == payment_of(s[0], balance, game));
        assert(ps.skip(1) =~= payout_seq(rest, balance, game));
        lemma_sum_nonneg(rest);
        assert(sum_of(rest) == sum_of(s) - p);
        lemma_payout_total_scaled(rest, balance, game);
        lemma_payment_amount_le_balance(s[0], balance);
        let q = b * p / d;
        let m = (b * p) % d;
        lemma_fundamental_div_mod(b * p, d);
        lemma_mod_bound(b * p, d);
        assert(payment_amount(s[0], balance) == q);
        assert(ps[0].amount == q);
        assert(total_paid(ps) == q + total_paid(payout_seq(rest, balance, game)));
        assert(b * sum_of(s) == b * p + b * sum_of(rest)) by (nonlinear_arith)
            requires
                sum_of(s) == p + sum_of(rest),
        ;
        assert((d - 1) * s.len() == (d - 1) + (d - 1) * rest.len()) by (nonlinear_arith)
            requires
                s.len() == rest.len() + 1,
        ;
    }
}

/// The payout invariant: when the ledger allocates exactly 100%, the payout
/// moves at most the whole balance, and what stays behind as rounding dust
/// is less than the number of entries.
pub proof fn lemma_payout_conserves_balance(
    s: Seq<DistributionEntry>,
    balance: u128,
    game: Option<u64>,
)
    requires
        sum_of(s) == TOTAL_BASIS_POINTS,
    ensures
        0 <= total_paid(payout_seq(s, balance, game)) <= balance,
        balance - total_paid(payout_seq(s, balance, game)) <= s.len() - 1,
{
    let b = balance as int;
    let d = TOTAL_BASIS_POINTS as int;
    let n = s.len() as int;
    let t = total_paid(payout_seq(s, balance, game));
    lemma_payout_total_scaled(s, balance, game);
    if s.len() == 0 {
        assert(sum_of(s) == 0);
    }
    assert(n >= 1);
    assert(0 <= b * d - d * t <= (d - 1) * n);
    assert(d * t <= d * b) by (nonlinear_arith)
        requires
            b * d - d * t >= 0,
    ;
    assert(t <= b) by (nonlinear_arith)
        requires
            d * t <= d * b,
            d > 0,
    ;
    assert(d * (b - t) <= d * n - n) by (nonlinear_arith)
        requires
            b * d - d * t <= (d - 1) * n,
    ;
    assert(b - t <= n - 1) by (nonlinear_arith)
        requires
            d * (b - t) <= d * n - n,
            d > 0,
            n >= 1,
    ;
    assert(t >= 0) by {
        lemma_total_paid_nonneg(payout_seq(s, balance, game));
    }
}

/// A payout holds exactly one payment per ledger entry.
pub proof fn lemma_payout_seq_len(s: Seq<DistributionEntry>, balance: u128, game: Option<u64>)
    ensures
        payout_seq(s, balance, game).len() == s.len(),
    decreases s.len(),
{
    if s.len() > 0 {
        lemma_payout_seq_len(s.skip(1), balance, game);
    }
}

proof fn lemma_total_paid_nonneg(ps: Seq<Payment>)
    ensures
        total_paid(ps) >= 0,
    decreases ps.len(),
{
    if ps.len() > 0 {
        lemma_total_paid_nonneg(ps.skip(1));
    }
}

/// Extending a ledger by one entry extends its payout by that entry's
/// payment.
proof fn lemma_payout_seq_push(
    s: Seq<DistributionEntry>,
    e: DistributionEntry,
    balance: u128,
    game: Option<u64>,
)
    ensures
        payout_seq(s.push(e), balance, game) == payout_seq(s, balance, game).push(
            payment_of(e, balance, game),
        ),
    decreases s.len(),
{
    reveal_with_fuel(payout_seq, 2);
    if s.len() == 0 {
        assert(s.push(e)[0] == e);
        assert(s.push(e).skip(1) =~= Seq::<DistributionEntry>::empty());
        assert(payout_seq(s.push(e).skip(1), balance, game) == payout_seq(
            Seq::<DistributionEntry>::empty(),
            balance,
            game,
        ));
        assert(payout_seq(s.push(e), balance, game) =~= payout_seq(s, balance, game).push(
            payment_of(e, balance, game),
        ));
    } else {
        assert(s.push(e)[0] == s[0]);
        assert(s.push(e).skip(1) =~= s.skip(1).push(e));
        lemma_payout_seq_push(s.skip(1), e, balance, game);
        assert(payout_seq(s.push(e), balance, game) =~= payout_seq(s, balance, game).push(
            payment_of(e, balance, game),
        ));
    }
}

/// Compares two byte strings element by element.
fn bytes_eq(a: &Vec<u8>, b: &Vec<u8>) -> (r: bool)
    ensures
        r == (a@ == b@),
{
    if a.len() != b.len() {
        proof {
            assert(a@.len() != b@.len());
        }
        return false;
    }
    let mut i: usize = 0;
    while i < a.len()
        invariant
            i <= a@.len(),
            a@.len() == b@.len(),
            forall|j: int| 0 <= j < i ==> a@[j] == b@[j],
        decreases a@.len() - i,
    {
        if a[i] != b[i] {
            return false;
        }
        i = i + 1;
    }
    proof {
        assert(a@ =~= b@);
    }
    true
}

impl Router {
    /// Splits `balance` among the configured beneficiaries and returns the
    /// transfers the host has to perform, in ledger order. `balance` is the
    /// contract's whole holding of the token once the incoming payment has
    /// been credited, so earlier rounding dust is swept along. The caller
    /// must be the configured minter, the ledger must allocate exactly 100%,
    /// and the incoming payment must carry the configured token; any other
    /// state rejects the call and moves no funds. Each beneficiary is owed
    /// the floor of its proportional share; the game contract's share is
    /// routed through its deposit call.
    pub fn distribute(&self, caller: u64, payment_token: &Vec<u8>, balance: u128) -> (r: Result<
        Vec<Payment>,
        RouterError,
    >)
        requires
            self.wf(),
            balance <= u128::MAX / (TOTAL_BASIS_POINTS as u128),
        ensures
            self.minter_address != Some(caller) ==> r == Err::<Vec<Payment>, RouterError>(
                RouterError::UnauthorizedCaller,
            ),
            self.minter_address == Some(caller) && sum_of(self.entries@) != TOTAL_BASIS_POINTS
                ==> r == Err::<Vec<Payment>, RouterError>(RouterError::IncompleteDistribution),
            self.minter_address == Some(caller) && sum_of(self.entries@) == TOTAL_BASIS_POINTS
                && !token_matches(*self, payment_token@) ==> r == Err::<Vec<Payment>, RouterError>(
                RouterError::WrongTokenError,
            ),
            distribute_outcome(*self, caller, payment_token@) is Ok <==> r is Ok,
            r matches Ok(ps) ==> ps@ == payout_seq(self.entries@, balance, self.game_address),
            r matches Ok(ps) ==> total_paid(ps@) <= balance && balance - total_paid(ps@)
                <= ps@.len() - 1,
    {
        let authorized = match self.minter_address {
            Some(m) => caller == m,
            None => false,
        };
        if !authorized {
            return Err(RouterError::UnauthorizedCaller);
        }
        let total = crate::router::total_percentage(&self.entries);
        if total != TOTAL_BASIS_POINTS {
            return Err(RouterError::IncompleteDistribution);
        }
        let token_ok = match &self.token_id {
            Some(t) => bytes_eq(t, payment_token),
            None => false,
        };
        if !token_ok {
            return Err(RouterError::WrongTokenError);
        }
        let mut payments: Vec<Payment> = Vec::new();
        let mut i: usize = 0;
        proof {
            assert(self.entries@.take(0) =~= Seq::<DistributionEntry>::empty());
        }
        while i < self.entries.len()
            invariant
                i <= self.entries@.len(),
                self.wf(),
                sum_of(self.entries@) == TOTAL_BASIS_POINTS,
                balance <= u128::MAX / (TOTAL_BASIS_POINTS as u128),
                payments@ == payout_seq(self.entries@.take(i as int), balance, self.game_address),
            decreases self.entries@.len() - i,
        {
            let e = self.entries[i];
            proof {
                crate::ledger::lemma_sum_element_le(self.entries@, i as int);
                lemma_payment_amount_le_balance(e, balance);
                let b = balance as int;
                let d = TOTAL_BASIS_POINTS as int;
                lemma_fundamental_div_mod(u128::MAX as int, d);
                lemma_mod_bound(u128::MAX as int, d);
                assert(d * (u128::MAX as int / d) <= u128::MAX as int);
                assert(b * (e.percentage as int) <= b * d) by (nonlinear_arith)
                    requires
                        0 <= b,
                        0 <= e.percentage as int <= d,
                ;
                assert(b * d <= (u128::MAX as int / d) * d) by (nonlinear_arith)
                    requires
                        0 <= b <= u128::MAX as int / d,
                        0 < d,
                ;
                assert((u128::MAX as int / d) * d == d * (u128::MAX as int / d)) by (
                nonlinear_arith);
                lemma_mul_nonnegative(b, e.percentage as int);
                lemma_sum_take_succ(self.entries@, i as int);
                lemma_payout_seq_push(
                    self.entries@.take(i as int),
                    e,
                    balance,
                    self.game_address,
                );
                assert(self.entries@.take(i as int + 1) =~= self.entries@.take(i as int).push(e));
            }
            let amount = balance * (e.percentage as u128) / (TOTAL_BASIS_POINTS as u128);
            let routed = match self.game_address {
                Some(g) => g == e.address,
                None => false,
            };
            payments.push(Payment { beneficiary: e.address, amount, routed });
            i = i + 1;
        }
        proof {
            assert(self.entries@.take(self.entries@.len() as int) =~= self.entries@);
            lemma_payout_conserves_balance(self.entries@, balance, self.game_address);
            lemma_payout_seq_len(self.entries@, balance, self.game_address);
        }
        Ok(payments)
    }
}

} // verus!
