//! Properties that relate several operations, or one operation on many inputs.
use crate::ledger::{held, transferred};
use crate::model::{
    deposit_one_asset_outcome, deposit_outcome, init_outcome, paired_asset, reserves_of,
    state_wf, swap_outcome, total_of, withdraw_one_asset_outcome, withdraw_outcome, DexState,
    Error,
};
use crate::pallet::Pallet;
use crate::table::sum_over;
use crate::pricing::{proportional, swap_gross, swap_output_defined, swap_quote};
use vstd::arithmetic::div_mod::{
    lemma_div_is_ordered, lemma_fundamental_div_mod, lemma_fundamental_div_mod_converse,
};
use vstd::prelude::*;

verus! {

/// Keeping a smaller part of the gross output (a higher fee) never pays out
/// more, and pays out strictly less once the difference in the kept part,
/// applied to the gross output, reaches a whole unit.
pub proof fn lemma_swap_output_falls_with_fee(
    reserve_in: int,
    reserve_out: int,
    constant: int,
    amount_in: int,
    keep_low: int,
    keep_high: int,
    base: int,
)
    requires
        0 <= reserve_in,
        0 <= constant,
        0 <= amount_in,
        0 <= keep_low <= keep_high,
        swap_output_defined(reserve_in, reserve_out, constant, amount_in, keep_low, base),
        swap_output_defined(reserve_in, reserve_out, constant, amount_in, keep_high, base),
        0 < base,
    ensures
        swap_quote(reserve_in, reserve_out, constant, amount_in, keep_low, base) <= swap_quote(
            reserve_in,
            reserve_out,
            constant,
            amount_in,
            keep_high,
            base,
        ),
        swap_gross(reserve_in, reserve_out, constant, amount_in) * (keep_high - keep_low) >= base
            ==> swap_quote(reserve_in, reserve_out, constant, amount_in, keep_low, base)
            < swap_quote(reserve_in, reserve_out, constant, amount_in, keep_high, base),
{
    let g = swap_gross(reserve_in, reserve_out, constant, amount_in);
    assert(g >= 0);
    assert(g * keep_low <= g * keep_high) by (nonlinear_arith)
        requires
            g >= 0,
            keep_low <= keep_high,
    ;
    lemma_div_is_ordered(g * keep_low, g * keep_high, base);
    if g * (keep_high - keep_low) >= base {
        assert(g * keep_high >= g * keep_low + base) by (nonlinear_arith)
            requires
                g * (keep_high - keep_low) >= base,
        ;
        lemma_div_is_ordered(g * keep_low + base, g * keep_high, base);
        lemma_fundamental_div_mod(g * keep_low, base);
        let q = (g * keep_low) / base;
        let r = (g * keep_low) % base;
        assert(0 <= r < base);
        assert(g * keep_low + base == (q + 1) * base + r) by (nonlinear_arith)
            requires
                g * keep_low == base * q + r,
        ;
        lemma_fundamental_div_mod_converse(
            g * keep_low + base,
            base,
            (g * keep_low) / base + 1,
            (g * keep_low) % base,
        );
    }
}

/// With no fee (the kept part is the whole), a swap pays out the plain
/// constant-product quote.
pub proof fn lemma_swap_without_fee(
    reserve_in: int,
    reserve_out: int,
    constant: int,
    amount_in: int,
    base: int,
)
    requires
        swap_output_defined(reserve_in, reserve_out, constant, amount_in, base, base),
    ensures
        swap_quote(reserve_in, reserve_out, constant, amount_in, base, base) == reserve_out
            - constant / (reserve_in + amount_in),
{
    let g = swap_gross(reserve_in, reserve_out, constant, amount_in);
    assert(g * base / base == g) by (nonlinear_arith)
        requires
            base != 0,
    ;
}

/// The proportional amount of a deposit, computed again against the reserves
/// that the deposit leaves, is the same amount: a deposit followed by a
/// withdrawal of the same amount moves the same paired amount and the same
/// shares both ways.
pub proof fn lemma_proportional_round_trip(amount: int, other: int, reserve: int)
    requires
        0 <= amount,
        0 <= other,
        0 < reserve,
    ensures
        proportional(amount, other + proportional(amount, other, reserve), reserve + amount)
            == proportional(amount, other, reserve),
{
    let c = amount * other / reserve;
    let r = (amount * other) % reserve;
    lemma_fundamental_div_mod(amount * other, reserve);
    assert(amount * (other + c) == c * (reserve + amount) + r) by (nonlinear_arith)
        requires
            amount * other == reserve * c + r,
    ;
    lemma_fundamental_div_mod_converse(amount * (other + c), reserve + amount, c, r);
}

/// Every operation refuses a zero amount, with the zero-amount error of its
/// kind; the operations leave the state unchanged whenever they refuse.
pub proof fn lemma_zero_amount_refused(
    s: DexState,
    operator: u64,
    pool: u64,
    asset: u64,
    other_asset: u64,
    other_amount: u128,
)
    ensures
        swap_outcome(s, operator, pool, asset, 0) == Err::<(u128, DexState), Error>(
            Error::DepositingZeroAmount,
        ),
        deposit_outcome(s, operator, pool, asset, 0) == Err::<DexState, Error>(
            Error::DepositingZeroAmount,
        ),
        withdraw_outcome(s, operator, pool, asset, 0) == Err::<(u128, DexState), Error>(
            Error::WithdrawingZeroAmount,
        ),
        deposit_one_asset_outcome(s, operator, pool, asset, 0) == Err::<DexState, Error>(
            Error::DepositingZeroAmount,
        ),
        withdraw_one_asset_outcome(s, operator, pool, asset, 0) == Err::<DexState, Error>(
            Error::DepositingZeroAmount,
        ),
        init_outcome(s, operator, pool, asset, 0, other_asset, other_amount) == Err::<
            DexState,
            Error,
        >(Error::DepositingZeroAmount),
        init_outcome(s, operator, pool, other_asset, other_amount, asset, 0) == Err::<
            DexState,
            Error,
        >(Error::DepositingZeroAmount),
{
}

/// Creating a pool with the same asset on both sides, with nonzero amounts
/// under an unused account, is refused with `SameAssetPool`.
pub proof fn lemma_same_asset_pool_refused(
    s: DexState,
    creator: u64,
    pool: u64,
    asset: u64,
    first_amount: u128,
    second_amount: u128,
)
    requires
        first_amount != 0,
        second_amount != 0,
        !s.pools.contains_key(pool),
    ensures
        init_outcome(s, creator, pool, asset, first_amount, asset, second_amount) == Err::<
            DexState,
            Error,
        >(Error::SameAssetPool),
{
}

/// In every well-formed state, and so after every operation, the shares that
/// the providers of a pool hold add up to the pool's total shares (to zero
/// for an account where no pool is registered): summed over any list of
/// providers without repeats that holds everyone with a share entry there.
pub proof fn lemma_shares_add_up(dex: &Pallet, pool: u64, providers: Seq<u64>)
    requires
        dex.wf(),
        providers.no_duplicates(),
        forall|q: u64| #[trigger] dex@.shares.contains_key((pool, q)) ==> providers.contains(q),
    ensures
        sum_over(dex@.shares, pool, providers) == total_of(dex@, pool),
{
    dex.lemma_share_sum_over(pool, providers);
}

/// A deposit followed at once by a withdrawal, by the same provider, of the
/// same amount of the same asset, charges no fee: the withdrawal is either
/// refused for overflow, or it pays back exactly what the deposit took, so
/// that every ledger balance, the provider's share and the pool's total
/// shares are as they were before the deposit. (The pool's own account, as
/// provider, is left out: its transfers to itself move nothing.)
pub proof fn lemma_deposit_withdraw_round_trip(
    s: DexState,
    operator: u64,
    pool: u64,
    asset: u64,
    amount: u128,
)
    requires
        state_wf(s),
        operator != pool,
        deposit_outcome(s, operator, pool, asset, amount) is Ok,
    ensures
        ({
            let s1 = deposit_outcome(s, operator, pool, asset, amount)->Ok_0;
            match withdraw_outcome(s1, operator, pool, asset, amount) {
                Ok((_, s2)) => {
                    &&& s2.ledger == s.ledger
                    &&& held(s2.shares, pool, operator) == held(s.shares, pool, operator)
                    &&& s2.pools[pool].total_shares == s.pools[pool].total_shares
                },
                Err(e) => e == Error::Overflow,
            }
        }),
{
    let s1 = deposit_outcome(s, operator, pool, asset, amount)->Ok_0;
    let p = s.pools[pool];
    let other = paired_asset(p, asset)->Some_0;
    let (x, y) = reserves_of(s.ledger, pool, asset, other)->Some_0;
    let total = p.total_shares as int;
    let paired = proportional(amount as int, y as int, x as int);
    let minted = proportional(amount as int, total, x as int);
    lemma_proportional_round_trip(amount as int, y as int, x as int);
    lemma_proportional_round_trip(amount as int, total, x as int);
    assert(other != asset);
    let m = s.ledger;
    let m2 = s1.ledger;
    assert(s1.pools[pool].total_shares == total + minted);
    assert(paired_asset(s1.pools[pool], asset) == Some(other));
    assert(m2[(asset, pool)] == x + amount);
    assert(m2[(other, pool)] == y + paired);
    assert(reserves_of(m2, pool, asset, other) == Some(((x + amount) as u128, (y + paired) as u128)));
    assert(held(s1.shares, pool, operator) == held(s.shares, pool, operator) + minted);
    match withdraw_outcome(s1, operator, pool, asset, amount) {
        Ok((_, s2)) => {
            let m3 = transferred(m2, asset, pool, operator, amount);
            let m4 = transferred(m3, other, pool, operator, paired as u128);
            assert(s2.ledger == m4);
            assert(m4 =~= m);
        },
        Err(e) => {},
    }
}

} // verus!
