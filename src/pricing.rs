//! Pure pricing computations over unsigned integers.
//!
//! Every function returns `None` exactly when some intermediate step of the
//! computation leaves the range of `u128` (an overflow, or a subtraction that
//! would go below zero). Divisions truncate toward zero.
use vstd::prelude::*;

verus! {

/// The largest value a balance can hold.
pub open spec fn max_balance() -> int {
    u128::MAX as int
}

/// Whether an intermediate value stays within the balance range.
pub open spec fn fits(v: int) -> bool {
    0 <= v <= max_balance()
}

/// `r` is the floor of the real square root of `n`.
pub open spec fn is_floor_sqrt(n: int, r: int) -> bool {
    0 <= r && r * r <= n && n < (r + 1) * (r + 1)
}

/// The floor of the real square root of a non-negative `n`.
pub open spec fn floor_sqrt(n: int) -> int {
    choose|r: int| is_floor_sqrt(n, r)
}

/// There is only one floor square root.
pub proof fn lemma_floor_sqrt_unique(n: int, a: int, b: int)
    requires
        is_floor_sqrt(n, a),
        is_floor_sqrt(n, b),
    ensures
        a == b,
{
    if a < b {
        assert((a + 1) * (a + 1) <= b * b) by (nonlinear_arith)
            requires
                0 <= a < b,
        ;
    } else if b < a {
        assert((b + 1) * (b + 1) <= a * a) by (nonlinear_arith)
            requires
                0 <= b < a,
        ;
    }
}

/// Whether the swap quote can be computed without leaving the balance range.
pub open spec fn swap_output_defined(
    reserve_in: int,
    reserve_out: int,
    constant: int,
    amount_in: int,
    fee_num: int,
    fee_den: int,
) -> bool {
    &&& fee_den != 0
    &&& fits(reserve_in + amount_in)
    &&& reserve_in + amount_in != 0
    &&& reserve_out >= constant / (reserve_in + amount_in)
    &&& fits((reserve_out - constant / (reserve_in + amount_in)) * fee_num)
}

/// The gross output of a swap: what the invariant constant leaves on the
/// out side once `amount_in` has been added to the in side.
pub open spec fn swap_gross(reserve_in: int, reserve_out: int, constant: int, amount_in: int) -> int {
    reserve_out - constant / (reserve_in + amount_in)
}

/// The swap quote: the gross output with the fee taken as a fraction
/// `fee_num / fee_den` of it kept.
pub open spec fn swap_quote(
    reserve_in: int,
    reserve_out: int,
    constant: int,
    amount_in: int,
    fee_num: int,
    fee_den: int,
) -> int {
    swap_gross(reserve_in, reserve_out, constant, amount_in) * fee_num / fee_den
}

/// `a * b / c`, truncated: the amount proportional to `a` in the ratio `b / c`.
pub open spec fn proportional(a: int, b: int, c: int) -> int {
    a * b / c
}

/// `reserve_in * reserve_in + reserve_in * amount_in`, the radicand of the
/// single-asset deposit formula.
pub open spec fn zap_in_radicand(reserve_in: int, amount_in: int) -> int {
    reserve_in * reserve_in + reserve_in * amount_in
}

/// `reserve_in * reserve_in - reserve_in * amount_out`, the radicand of the
/// single-asset withdrawal formula.
pub open spec fn zap_out_radicand(reserve_in: int, amount_out: int) -> int {
    reserve_in * reserve_in - reserve_in * amount_out
}

/// Floor of the square root of `n`.
pub fn integer_sqrt(n: u128) -> (r: u128)
    ensures
        is_floor_sqrt(n as int, r as int),
        r == floor_sqrt(n as int),
{
    let mut lo: u128 = 0;
    let mut hi: u128 = 0x1_0000_0000_0000_0000u128;
    assert(n < (hi as int) * (hi as int)) by (nonlinear_arith)
        requires
            hi == 0x1_0000_0000_0000_0000u128,
            n <= u128::MAX,
    ;
    while hi - lo > 1
        invariant
            lo < hi <= 0x1_0000_0000_0000_0000u128,
            (lo as int) * (lo as int) <= n,
            n < (hi as int) * (hi as int),
        decreases hi - lo,
    {
        let mid: u128 = lo + (hi - lo) / 2;
        assert((mid as int) * (mid as int) <= u128::MAX) by (nonlinear_arith)
            requires
                mid < 0x1_0000_0000_0000_0000u128,
        ;
        if mid * mid <= n {
            lo = mid;
        } else {
            hi = mid;
        }
    }
    assert(hi == lo + 1);
    proof {
        assert(is_floor_sqrt(n as int, lo as int));
        let c = floor_sqrt(n as int);
        assert(is_floor_sqrt(n as int, c));
        lemma_floor_sqrt_unique(n as int, c, lo as int);
    }
    lo
}

/// `floor((reserve_out - floor(constant / (reserve_in + amount_in))) * fee_num / fee_den)`.
pub fn swap_output(
    reserve_in: u128,
    reserve_out: u128,
    constant: u128,
    amount_in: u128,
    fee_num: u128,
    fee_den: u128,
) -> (r: Option<u128>)
    ensures
        r is Some <==> swap_output_defined(
            reserve_in as int,
            reserve_out as int,
            constant as int,
            amount_in as int,
            fee_num as int,
            fee_den as int,
        ),
        r matches Some(v) ==> v == swap_quote(
            reserve_in as int,
            reserve_out as int,
            constant as int,
            amount_in as int,
            fee_num as int,
            fee_den as int,
        ),
{
    let total_in = reserve_in.checked_add(amount_in)?;
    if total_in == 0 || fee_den == 0 {
        return None;
    }
    let left = constant / total_in;
    let gross = reserve_out.checked_sub(left)?;
    let scaled = gross.checked_mul(fee_num)?;
    Some(scaled / fee_den)
}

/// Shares minted by a deposit of `amount_in` against `reserve_in`, with
/// `total_shares` issued: `floor(amount_in * total_shares / reserve_in)`.
/// The same formula gives the paired amount of a deposit or a withdrawal
/// (with the other reserve in place of `total_shares`) and the shares burnt
/// by a withdrawal.
pub fn deposit_share_delta(amount_in: u128, reserve_in: u128, total_shares: u128) -> (r: Option<
    u128,
>)
    requires
        reserve_in != 0,
    ensures
        r is Some <==> fits(amount_in * total_shares),
        r matches Some(v) ==> v == proportional(
            amount_in as int,
            total_shares as int,
            reserve_in as int,
        ),
{
    let p = amount_in.checked_mul(total_shares)?;
    Some(p / reserve_in)
}

/// Amount of the other asset that must accompany (or that is released with)
/// `amount_in` of this asset: `floor(amount_in * reserve_out / reserve_in)`.
pub fn deposit_paired_amount(amount_in: u128, reserve_in: u128, reserve_out: u128) -> (r: Option<
    u128,
>)
    requires
        reserve_in != 0,
    ensures
        r is Some <==> fits(amount_in * reserve_out),
        r matches Some(v) ==> v == proportional(
            amount_in as int,
            reserve_out as int,
            reserve_in as int,
        ),
{
    deposit_share_delta(amount_in, reserve_in, reserve_out)
}

/// Part of a single-asset deposit of `amount_in` to swap first:
/// `floor(sqrt(reserve_in^2 + reserve_in * amount_in)) - reserve_in`.
pub fn zap_in_swap_amount(reserve_in: u128, amount_in: u128) -> (r: Option<u128>)
    ensures
        r is Some <==> fits(reserve_in * reserve_in) && fits(reserve_in * amount_in) && fits(
            zap_in_radicand(reserve_in as int, amount_in as int),
        ),
        r matches Some(v) ==> v == floor_sqrt(zap_in_radicand(reserve_in as int, amount_in as int))
            - reserve_in,
{
    let sq = reserve_in.checked_mul(reserve_in)?;
    let lin = reserve_in.checked_mul(amount_in)?;
    let rad = sq.checked_add(lin)?;
    let root = integer_sqrt(rad);
    assert(root >= reserve_in) by (nonlinear_arith)
        requires
            is_floor_sqrt(rad as int, root as int),
            rad >= reserve_in * reserve_in,
    ;
    Some(root - reserve_in)
}

/// Amount of this asset to withdraw first, for a single-asset withdrawal
/// of `amount_out`: `reserve_in - floor(sqrt(reserve_in^2 - reserve_in * amount_out))`.
pub fn zap_out_swap_amount(reserve_in: u128, amount_out: u128) -> (r: Option<u128>)
    ensures
        r is Some <==> fits(reserve_in * reserve_in) && fits(reserve_in * amount_out) && fits(
            zap_out_radicand(reserve_in as int, amount_out as int),
        ),
        r matches Some(v) ==> v == reserve_in - floor_sqrt(
            zap_out_radicand(reserve_in as int, amount_out as int),
        ),
{
    let sq = reserve_in.checked_mul(reserve_in)?;
    let lin = reserve_in.checked_mul(amount_out)?;
    let rad = sq.checked_sub(lin)?;
    let root = integer_sqrt(rad);
    assert(root <= reserve_in) by (nonlinear_arith)
        requires
            is_floor_sqrt(rad as int, root as int),
            rad <= reserve_in * reserve_in,
    ;
    Some(reserve_in - root)
}

} // verus!
