//! The abstract state of the pallet and what each operation does to it.
use crate::ledger::{has_at_least, held, transfer_error, transferred, Balances, LedgerError};
use crate::pricing::{
    fits, floor_sqrt, proportional, swap_output_defined, swap_quote, zap_in_radicand,
    zap_out_radicand,
};
use crate::registry::Pool;
use vstd::prelude::*;

verus! {

/// Why an operation was refused. A refused operation changes nothing.
#[derive(Clone, Copy, Debug, PartialEq, Eq, Structural)]
pub enum Error {
    /// An arithmetic step left the range of a balance, including a
    /// withdrawal larger than the provider's share entitles them to.
    Overflow,
    /// A zero amount handed to a create, swap or deposit.
    DepositingZeroAmount,
    /// A zero amount handed to a withdrawal.
    WithdrawingZeroAmount,
    /// A pool is already registered under that account.
    PoolAlreadyExists,
    /// No pool is registered under that account, or it has no shares issued.
    NoSuchPool,
    /// The caller's balance is too low for a transfer.
    NotEnoughBalance,
    /// The asset is neither of the pool's two assets.
    NoSuchTokenInPool,
    /// One of the pool's reserves is zero or was never held.
    EmptyPool,
    /// Both sides of a new pool name the same asset.
    SameAssetPool,
}

/// What a successful operation reports.
#[derive(Clone, Copy, Debug, PartialEq, Eq, Structural)]
pub enum Event {
    PoolCreated { creator: u64, pool_account: u64, first_asset: u64, second_asset: u64 },
    Swapped {
        operator: u64,
        pool_account: u64,
        first_asset: u64,
        first_asset_amount: u128,
        second_asset: u64,
        second_asset_amount: u128,
    },
    Deposited {
        operator: u64,
        pool_account: u64,
        first_asset: u64,
        first_asset_amount: u128,
        second_asset: u64,
        second_asset_amount: u128,
    },
    Withdrawed {
        operator: u64,
        pool_account: u64,
        first_asset: u64,
        first_asset_amount: u128,
        second_asset: u64,
        second_asset_amount: u128,
    },
}

/// The constants a pallet is set up with.
#[derive(Clone, Copy, Debug, PartialEq, Eq, Structural)]
pub struct Config {
    /// Shares credited to the creator of a pool.
    pub default_share: u128,
    /// The hundred percent mark of the fee fraction.
    pub hundred_percent: u128,
    /// The part of a swap's gross output that the caller keeps, on the
    /// scale of `hundred_percent`.
    pub hundred_percent_minus_fee: u128,
}

impl Config {
    /// The fee is a fraction between zero and the whole.
    pub open spec fn valid(&self) -> bool {
        0 < self.hundred_percent && self.hundred_percent_minus_fee <= self.hundred_percent
    }
}

/// The whole state: the token ledger, the pool registry, the share ledger
/// keyed by `(pool, provider)` and the events reported so far.
pub struct DexState {
    pub config: Config,
    pub ledger: Balances,
    pub pools: Map<u64, Pool>,
    pub shares: Map<(u64, u64), u128>,
    pub events: Seq<Event>,
}

/// What holds of the state between operations: the fee is a fraction, the
/// two assets of a pool differ, and shares are held only in registered pools.
pub open spec fn state_wf(s: DexState) -> bool {
    &&& s.config.valid()
    &&& forall|p: u64| #[trigger]
        s.pools.contains_key(p) ==> s.pools[p].first_asset != s.pools[p].second_asset
    &&& forall|k: (u64, u64)| #[trigger] s.shares.contains_key(k) ==> s.pools.contains_key(k.0)
}

/// Total shares of `pool`; zero for an unregistered one.
pub open spec fn total_of(s: DexState, pool: u64) -> int {
    if s.pools.contains_key(pool) {
        s.pools[pool].total_shares as int
    } else {
        0
    }
}

pub open spec fn ledger_error(e: LedgerError) -> Error {
    match e {
        LedgerError::InsufficientBalance => Error::NotEnoughBalance,
        LedgerError::BalanceOverflow => Error::Overflow,
    }
}

/// The other asset of `pool`, if `asset` is one of its two.
pub open spec fn paired_asset(pool: Pool, asset: u64) -> Option<u64> {
    if asset == pool.first_asset {
        Some(pool.second_asset)
    } else if asset == pool.second_asset {
        Some(pool.first_asset)
    } else {
        None
    }
}

/// The live reserves of `pool` in `asset` and `other`, when both are held
/// and nonzero.
pub open spec fn reserves_of(m: Balances, pool: u64, asset: u64, other: u64) -> Option<(u128, u128)> {
    if m.contains_key((asset, pool)) && m.contains_key((other, pool)) && m[(asset, pool)] != 0
        && m[(other, pool)] != 0 {
        Some((m[(asset, pool)], m[(other, pool)]))
    } else {
        None
    }
}

/// The two transfers of an operation in turn: the state that follows, or
/// the error of the first that is refused.
pub open spec fn two_transfers(
    m: Balances,
    asset: u64,
    from: u64,
    to: u64,
    amount: u128,
    other: u64,
    other_from: u64,
    other_to: u64,
    other_amount: u128,
) -> Result<Balances, Error> {
    match transfer_error(m, asset, from, to, amount) {
        Some(e) => Err(ledger_error(e)),
        None => {
            let m1 = transferred(m, asset, from, to, amount);
            match transfer_error(m1, other, other_from, other_to, other_amount) {
                Some(e) => Err(ledger_error(e)),
                None => Ok(transferred(m1, other, other_from, other_to, other_amount)),
            }
        },
    }
}

/// The product of the pool's two live balances.
pub open spec fn live_product(m: Balances, pool: u64, asset: u64, other: u64) -> int {
    held(m, asset, pool) * held(m, other, pool)
}

pub open spec fn with_pool(
    s: DexState,
    ledger: Balances,
    pool: u64,
    record: Pool,
    shares: Map<(u64, u64), u128>,
    event: Event,
) -> DexState {
    DexState {
        config: s.config,
        ledger,
        pools: s.pools.insert(pool, record),
        shares,
        events: s.events.push(event),
    }
}

/// Creating a pool.
pub open spec fn init_outcome(
    s: DexState,
    creator: u64,
    pool: u64,
    first: u64,
    first_amount: u128,
    second: u64,
    second_amount: u128,
) -> Result<DexState, Error> {
    if first_amount == 0 || second_amount == 0 {
        Err(Error::DepositingZeroAmount)
    } else if s.pools.contains_key(pool) {
        Err(Error::PoolAlreadyExists)
    } else if first == second {
        Err(Error::SameAssetPool)
    } else if !has_at_least(s.ledger, first, creator, first_amount) {
        Err(Error::NotEnoughBalance)
    } else if !has_at_least(s.ledger, second, creator, second_amount) {
        Err(Error::NotEnoughBalance)
    } else if !fits(first_amount * second_amount) {
        Err(Error::Overflow)
    } else {
        match two_transfers(
            s.ledger,
            first,
            creator,
            pool,
            first_amount,
            second,
            creator,
            pool,
            second_amount,
        ) {
            Err(e) => Err(e),
            Ok(m) => Ok(
                with_pool(
                    s,
                    m,
                    pool,
                    Pool {
                        first_asset: first,
                        second_asset: second,
                        constant: (first_amount * second_amount) as u128,
                        total_shares: s.config.default_share,
                    },
                    s.shares.insert((pool, creator), s.config.default_share),
                    Event::PoolCreated {
                        creator,
                        pool_account: pool,
                        first_asset: first,
                        second_asset: second,
                    },
                ),
            ),
        }
    }
}

/// Swapping `amount` of `asset` for the pool's other asset; on success, the
/// amount paid out and the state that follows.
pub open spec fn swap_outcome(
    s: DexState,
    operator: u64,
    pool: u64,
    asset: u64,
    amount: u128,
) -> Result<(u128, DexState), Error> {
    if amount == 0 {
        Err(Error::DepositingZeroAmount)
    } else if !s.pools.contains_key(pool) {
        Err(Error::NoSuchPool)
    } else if !has_at_least(s.ledger, asset, operator, amount) {
        Err(Error::NotEnoughBalance)
    } else {
        let p = s.pools[pool];
        match paired_asset(p, asset) {
            None => Err(Error::NoSuchTokenInPool),
            Some(other) => match reserves_of(s.ledger, pool, asset, other) {
                None => Err(Error::EmptyPool),
                Some((x, y)) => {
                    let keep = s.config.hundred_percent_minus_fee as int;
                    let base = s.config.hundred_percent as int;
                    if !swap_output_defined(x as int, y as int, p.constant as int, amount as int, keep, base) {
                        Err(Error::Overflow)
                    } else {
                        let out = swap_quote(x as int, y as int, p.constant as int, amount as int, keep, base) as u128;
                        match two_transfers(s.ledger, asset, operator, pool, amount, other, pool, operator, out) {
                            Err(e) => Err(e),
                            Ok(m) => if !fits(live_product(m, pool, asset, other)) {
                                Err(Error::Overflow)
                            } else {
                                Ok(
                                    (
                                        out,
                                        with_pool(
                                            s,
                                            m,
                                            pool,
                                            Pool {
                                                constant: live_product(m, pool, asset, other) as u128,
                                                ..p
                                            },
                                            s.shares,
                                            Event::Swapped {
                                                operator,
                                                pool_account: pool,
                                                first_asset: asset,
                                                first_asset_amount: amount,
                                                second_asset: other,
                                                second_asset_amount: out,
                                            },
                                        ),
                                    ),
                                )
                            },
                        }
                    }
                },
            },
        }
    }
}

/// Depositing `amount` of `asset` together with the proportional amount of
/// the pool's other asset, for shares in the pool.
pub open spec fn deposit_outcome(
    s: DexState,
    operator: u64,
    pool: u64,
    asset: u64,
    amount: u128,
) -> Result<DexState, Error> {
    if amount == 0 {
        Err(Error::DepositingZeroAmount)
    } else if !s.pools.contains_key(pool) {
        Err(Error::NoSuchPool)
    } else if !has_at_least(s.ledger, asset, operator, amount) {
        Err(Error::NotEnoughBalance)
    } else {
        let p = s.pools[pool];
        match paired_asset(p, asset) {
            None => Err(Error::NoSuchTokenInPool),
            Some(other) => match reserves_of(s.ledger, pool, asset, other) {
                None => Err(Error::EmptyPool),
                Some((x, y)) => {
                    let total = p.total_shares;
                    let mine = held(s.shares, pool, operator);
                    let paired = proportional(amount as int, y as int, x as int);
                    let minted = proportional(amount as int, total as int, x as int);
                    if !fits(amount * y) {
                        Err(Error::Overflow)
                    } else if !has_at_least(s.ledger, other, operator, paired as u128) {
                        Err(Error::NotEnoughBalance)
                    } else if total == 0 {
                        Err(Error::NoSuchPool)
                    } else if !fits(amount * total) || !fits(total + minted) || !fits(mine + minted) {
                        Err(Error::Overflow)
                    } else {
                        match two_transfers(
                            s.ledger,
                            asset,
                            operator,
                            pool,
                            amount,
                            other,
                            operator,
                            pool,
                            paired as u128,
                        ) {
                            Err(e) => Err(e),
                            Ok(m) => if !fits(live_product(m, pool, asset, other)) {
                                Err(Error::Overflow)
                            } else {
                                Ok(
                                    with_pool(
                                        s,
                                        m,
                                        pool,
                                        Pool {
                                            constant: live_product(m, pool, asset, other) as u128,
                                            total_shares: (total + minted) as u128,
                                            ..p
                                        },
                                        s.shares.insert((pool, operator), (mine + minted) as u128),
                                        Event::Deposited {
                                            operator,
                                            pool_account: pool,
                                            first_asset: asset,
                                            first_asset_amount: amount,
                                            second_asset: other,
                                            second_asset_amount: paired as u128,
                                        },
                                    ),
                                )
                            },
                        }
                    }
                },
            },
        }
    }
}

/// Withdrawing `amount` of `asset` together with the proportional amount of
/// the pool's other asset, against the caller's shares; on success, the
/// amount of the other asset paid out and the state that follows.
pub open spec fn withdraw_outcome(
    s: DexState,
    operator: u64,
    pool: u64,
    asset: u64,
    amount: u128,
) -> Result<(u128, DexState), Error> {
    if amount == 0 {
        Err(Error::WithdrawingZeroAmount)
    } else if !s.pools.contains_key(pool) {
        Err(Error::NoSuchPool)
    } else {
        let p = s.pools[pool];
        match paired_asset(p, asset) {
            None => Err(Error::NoSuchTokenInPool),
            Some(other) => match reserves_of(s.ledger, pool, asset, other) {
                None => Err(Error::EmptyPool),
                Some((x, y)) => {
                    let total = p.total_shares;
                    let mine = held(s.shares, pool, operator);
                    let paired = proportional(amount as int, y as int, x as int);
                    let burnt = proportional(amount as int, total as int, x as int);
                    if !fits(amount * y) {
                        Err(Error::Overflow)
                    } else if total == 0 {
                        Err(Error::NoSuchPool)
                    } else if !fits(amount * total) || burnt > total || burnt > mine {
                        Err(Error::Overflow)
                    } else {
                        match two_transfers(
                            s.ledger,
                            asset,
                            pool,
                            operator,
                            amount,
                            other,
                            pool,
                            operator,
                            paired as u128,
                        ) {
                            Err(e) => Err(e),
                            Ok(m) => if !fits(live_product(m, pool, asset, other)) {
                                Err(Error::Overflow)
                            } else {
                                Ok(
                                    (
                                        paired as u128,
                                        with_pool(
                                            s,
                                            m,
                                            pool,
                                            Pool {
                                                constant: live_product(m, pool, asset, other) as u128,
                                                total_shares: (total - burnt) as u128,
                                                ..p
                                            },
                                            s.shares.insert((pool, operator), (mine - burnt) as u128),
                                            Event::Withdrawed {
                                                operator,
                                                pool_account: pool,
                                                first_asset: asset,
                                                first_asset_amount: amount,
                                                second_asset: other,
                                                second_asset_amount: paired as u128,
                                            },
                                        ),
                                    ),
                                )
                            },
                        }
                    }
                },
            },
        }
    }
}

/// Providing liquidity with one asset only: part of `amount` is swapped for
/// the other asset, which is then deposited with its proportional amount of
/// `asset`.
pub open spec fn deposit_one_asset_outcome(
    s: DexState,
    operator: u64,
    pool: u64,
    asset: u64,
    amount: u128,
) -> Result<DexState, Error> {
    if amount == 0 {
        Err(Error::DepositingZeroAmount)
    } else if !s.pools.contains_key(pool) {
        Err(Error::NoSuchPool)
    } else if !has_at_least(s.ledger, asset, operator, amount) {
        Err(Error::NotEnoughBalance)
    } else {
        match paired_asset(s.pools[pool], asset) {
            None => Err(Error::NoSuchTokenInPool),
            Some(other) => match reserves_of(s.ledger, pool, asset, other) {
                None => Err(Error::EmptyPool),
                Some((x, y)) => if !fits(x * x) || !fits(x * amount) || !fits(
                    zap_in_radicand(x as int, amount as int),
                ) {
                    Err(Error::Overflow)
                } else {
                    let to_swap = (floor_sqrt(zap_in_radicand(x as int, amount as int)) - x) as u128;
                    match swap_outcome(s, operator, pool, asset, to_swap) {
                        Err(e) => Err(e),
                        Ok((received, s1)) => deposit_outcome(s1, operator, pool, other, received),
                    }
                },
            },
        }
    }
}

/// Withdrawing liquidity as one asset only: part of `amount` is withdrawn
/// with its proportional amount of the other asset, which is then swapped
/// back.
pub open spec fn withdraw_one_asset_outcome(
    s: DexState,
    operator: u64,
    pool: u64,
    asset: u64,
    amount: u128,
) -> Result<DexState, Error> {
    if amount == 0 {
        Err(Error::DepositingZeroAmount)
    } else if !s.pools.contains_key(pool) {
        Err(Error::NoSuchPool)
    } else {
        match paired_asset(s.pools[pool], asset) {
            None => Err(Error::NoSuchTokenInPool),
            Some(other) => match reserves_of(s.ledger, pool, asset, other) {
                None => Err(Error::EmptyPool),
                Some((x, y)) => if x < amount || !fits(x * x) || !fits(x * amount) {
                    Err(Error::Overflow)
                } else {
                    let to_withdraw = (x - floor_sqrt(zap_out_radicand(x as int, amount as int))) as u128;
                    match withdraw_outcome(s, operator, pool, asset, to_withdraw) {
                        Err(e) => Err(e),
                        Ok((received, s1)) => match swap_outcome(s1, operator, pool, other, received) {
                            Err(e) => Err(e),
                            Ok((_, s2)) => Ok(s2),
                        },
                    }
                },
            },
        }
    }
}

} // verus!
