//! The operations of the pool: create, swap, deposit and withdraw, in
//! balanced and in single-asset form.
use crate::ledger::{held, lookup, transfer_error, transferred, Ledger, LedgerError};
use crate::model::{
    deposit_one_asset_outcome, deposit_outcome, init_outcome, ledger_error, paired_asset,
    reserves_of, state_wf, swap_outcome, total_of, two_transfers, withdraw_one_asset_outcome,
    withdraw_outcome, Config, DexState, Error, Event,
};
use crate::pricing::{
    deposit_paired_amount, deposit_share_delta, swap_output, zap_in_swap_amount,
    zap_out_swap_amount,
};
use crate::registry::{Pool, Registry};
use crate::table::{sum_over, Table};
use vstd::prelude::*;

verus! {

/// Pools of two assets each, the shares of their providers, and the token
/// ledger that holds every balance.
pub struct Pallet {
    config: Config,
    ledger: Ledger,
    pools: Registry,
    shares: Table,
    events: Vec<Event>,
}

fn map_ledger_error(e: LedgerError) -> (r: Error)
    ensures
        r == ledger_error(e),
{
    match e {
        LedgerError::InsufficientBalance => Error::NotEnoughBalance,
        LedgerError::BalanceOverflow => Error::Overflow,
    }
}

fn paired(p: &Pool, asset: u64) -> (r: Option<u64>)
    ensures
        r == paired_asset(*p, asset),
{
    if asset == p.first_asset {
        Some(p.second_asset)
    } else if asset == p.second_asset {
        Some(p.first_asset)
    } else {
        None
    }
}

/// A fee fraction keeps at most the whole.
proof fn lemma_fee_keeps_at_most(gross: int, keep: int, base: int)
    requires
        0 <= gross,
        0 <= keep <= base,
        0 < base,
    ensures
        0 <= gross * keep / base <= gross,
{
    assert(gross * keep <= gross * base) by (nonlinear_arith)
        requires
            0 <= gross,
            keep <= base,
    ;
    assert(0 <= gross * keep) by (nonlinear_arith)
        requires
            0 <= gross,
            0 <= keep,
    ;
    assert(gross * keep / base <= gross * base / base) by (nonlinear_arith)
        requires
            gross * keep <= gross * base,
            0 < base,
    ;
    assert(gross * base / base == gross) by (nonlinear_arith)
        requires
            0 < base,
    ;
    assert(0 <= gross * keep / base) by (nonlinear_arith)
        requires
            0 <= gross * keep,
            0 < base,
    ;
}

impl View for Pallet {
    type V = DexState;

    closed spec fn view(&self) -> DexState {
        DexState {
            config: self.config,
            ledger: self.ledger@,
            pools: self.pools@,
            shares: self.shares@,
            events: self.events@,
        }
    }
}

impl Pallet {
    pub closed spec fn parts_wf(&self) -> bool {
        &&& self.ledger.wf()
        &&& self.pools.wf()
        &&& self.shares.wf()
    }

    /// Sum of the shares that all providers hold in `pool`.
    pub closed spec fn share_sum(&self, pool: u64) -> int {
        self.shares.column_sum(pool)
    }

    /// `share_sum` adds up the share map's entries of `pool`.
    pub proof fn lemma_share_sum_over(&self, pool: u64, providers: Seq<u64>)
        requires
            self.parts_wf(),
            providers.no_duplicates(),
            forall|q: u64| #[trigger] self@.shares.contains_key((pool, q)) ==> providers.contains(q),
        ensures
            self.share_sum(pool) == sum_over(self@.shares, pool, providers),
    {
        assert(self@.shares == self.shares@);
        assert forall|q: u64| #[trigger] self.shares@.contains_key((pool, q)) implies providers.contains(
            q,
        ) by {
            assert(self@.shares.contains_key((pool, q)));
        }
        self.shares.lemma_column_sum(pool, providers);
    }

    /// Well-formedness; it includes that the shares of every pool add up to
    /// its total shares.
    pub open spec fn wf(&self) -> bool {
        &&& self.parts_wf()
        &&& state_wf(self@)
        &&& forall|p: u64| #[trigger] self.share_sum(p) == total_of(self@, p)
    }

    /// A pallet with no pools, over `ledger`.
    pub fn new(config: Config, ledger: Ledger) -> (r: Pallet)
        requires
            config.valid(),
            ledger.wf(),
        ensures
            r.wf(),
            r@.config == config,
            r@.ledger == ledger@,
            r@.pools == Map::<u64, Pool>::empty(),
            r@.shares == Map::<(u64, u64), u128>::empty(),
            r@.events == Seq::<Event>::empty(),
    {
        Pallet { config, ledger, pools: Registry::new(), shares: Table::new(), events: Vec::new() }
    }

    fn reserves(&self, pool: u64, asset: u64, other: u64) -> (r: Option<(u128, u128)>)
        requires
            self.ledger.wf(),
        ensures
            r == reserves_of(self.ledger@, pool, asset, other),
    {
        let x = match self.ledger.get_balance(asset, pool) {
            Some(v) => v,
            None => {
                return None;
            },
        };
        let y = match self.ledger.get_balance(other, pool) {
            Some(v) => v,
            None => {
                return None;
            },
        };
        if x == 0 || y == 0 {
            None
        } else {
            Some((x, y))
        }
    }

    /// Checks the two transfers of an operation without making them.
    fn check_two(
        &self,
        asset: u64,
        from: u64,
        to: u64,
        amount: u128,
        other: u64,
        other_from: u64,
        other_to: u64,
        other_amount: u128,
    ) -> (r: Result<(), Error>)
        requires
            self.ledger.wf(),
            asset != other,
        ensures
            match two_transfers(
                self.ledger@,
                asset,
                from,
                to,
                amount,
                other,
                other_from,
                other_to,
                other_amount,
            ) {
                Ok(_) => r is Ok,
                Err(e) => r == Err::<(), Error>(e),
            },
    {
        let ghost m = self.ledger@;
        if let Some(e) = self.ledger.check_transfer(from, to, asset, amount) {
            return Err(map_ledger_error(e));
        }
        assert(transfer_error(transferred(m, asset, from, to, amount), other, other_from, other_to, other_amount)
            == transfer_error(m, other, other_from, other_to, other_amount));
        if let Some(e) = self.ledger.check_transfer(other_from, other_to, other, other_amount) {
            return Err(map_ledger_error(e));
        }
        Ok(())
    }

    /// Makes the two transfers of an operation.
    fn apply_two(
        &mut self,
        asset: u64,
        from: u64,
        to: u64,
        amount: u128,
        other: u64,
        other_from: u64,
        other_to: u64,
        other_amount: u128,
    )
        requires
            old(self).ledger.wf(),
            two_transfers(
                old(self).ledger@,
                asset,
                from,
                to,
                amount,
                other,
                other_from,
                other_to,
                other_amount,
            ) is Ok,
        ensures
            final(self).ledger.wf(),
            Ok::<_, Error>(final(self).ledger@) == two_transfers(
                old(self).ledger@,
                asset,
                from,
                to,
                amount,
                other,
                other_from,
                other_to,
                other_amount,
            ),
            final(self).config == old(self).config,
            final(self).pools == old(self).pools,
            final(self).shares == old(self).shares,
            final(self).events == old(self).events,
    {
        self.ledger.apply_transfer(from, to, asset, amount);
        self.ledger.apply_transfer(other_from, other_to, other, other_amount);
    }

    /// Swaps `amount` of `asset` for the pool's other asset and returns the
    /// amount paid out.
    pub fn swap(&mut self, operator: u64, pool: u64, asset: u64, amount: u128) -> (r: Result<
        u128,
        Error,
    >)
        requires
            old(self).wf(),
        ensures
            final(self).wf(),
            match swap_outcome(old(self)@, operator, pool, asset, amount) {
                Ok((out, next)) => r == Ok::<u128, Error>(out) && final(self)@ == next,
                Err(e) => r == Err::<u128, Error>(e) && final(self)@ == old(self)@,
            },
    {
        if amount == 0 {
            return Err(Error::DepositingZeroAmount);
        }
        let p = match self.pools.get(pool) {
            Some(p) => p,
            None => {
                return Err(Error::NoSuchPool);
            },
        };
        if !self.ledger.has_at_least(asset, operator, amount) {
            return Err(Error::NotEnoughBalance);
        }
        let other = match paired(&p, asset) {
            Some(o) => o,
            None => {
                return Err(Error::NoSuchTokenInPool);
            },
        };
        let (x, y) = match self.reserves(pool, asset, other) {
            Some(r) => r,
            None => {
                return Err(Error::EmptyPool);
            },
        };
        let out = match swap_output(
            x,
            y,
            p.constant,
            amount,
            self.config.hundred_percent_minus_fee,
            self.config.hundred_percent,
        ) {
            Some(o) => o,
            None => {
                return Err(Error::Overflow);
            },
        };
        proof {
            lemma_fee_keeps_at_most(
                y as int - (p.constant as int) / (x as int + amount as int),
                self.config.hundred_percent_minus_fee as int,
                self.config.hundred_percent as int,
            );
        }
        self.check_two(asset, operator, pool, amount, other, pool, operator, out)?;
        let ghost m = self.ledger@;
        let ghost m2 = two_transfers(m, asset, operator, pool, amount, other, pool, operator, out)->Ok_0;
        let (nx, ny) = if operator == pool {
            (x, y)
        } else {
            (x + amount, y - out)
        };
        assert(held(m2, asset, pool) == nx && held(m2, other, pool) == ny);
        let k = match nx.checked_mul(ny) {
            Some(k) => k,
            None => {
                return Err(Error::Overflow);
            },
        };
        self.apply_two(asset, operator, pool, amount, other, pool, operator, out);
        self.pools.set(pool, Pool { constant: k, ..p });
        self.events.push(
            Event::Swapped {
                operator,
                pool_account: pool,
                first_asset: asset,
                first_asset_amount: amount,
                second_asset: other,
                second_asset_amount: out,
            },
        );
        assert(self@ == swap_outcome(old(self)@, operator, pool, asset, amount)->Ok_0.1);
        proof {
            assert forall|q: u64| #[trigger] self.share_sum(q) == total_of(self@, q) by {
                assert(old(self).share_sum(q) == total_of(old(self)@, q));
            }
        }
        Ok(out)
    }

    /// Deposits `amount` of `asset` with the proportional amount of the
    /// pool's other asset, and credits the caller with the shares minted.
    pub fn deposit(&mut self, operator: u64, pool: u64, asset: u64, amount: u128) -> (r: Result<
        (),
        Error,
    >)
        requires
            old(self).wf(),
        ensures
            final(self).wf(),
            match deposit_outcome(old(self)@, operator, pool, asset, amount) {
                Ok(next) => r is Ok && final(self)@ == next,
                Err(e) => r == Err::<(), Error>(e) && final(self)@ == old(self)@,
            },
    {
        if amount == 0 {
            return Err(Error::DepositingZeroAmount);
        }
        let p = match self.pools.get(pool) {
            Some(p) => p,
            None => {
                return Err(Error::NoSuchPool);
            },
        };
        if !self.ledger.has_at_least(asset, operator, amount) {
            return Err(Error::NotEnoughBalance);
        }
        let other = match paired(&p, asset) {
            Some(o) => o,
            None => {
                return Err(Error::NoSuchTokenInPool);
            },
        };
        let (x, y) = match self.reserves(pool, asset, other) {
            Some(r) => r,
            None => {
                return Err(Error::EmptyPool);
            },
        };
        let paired_amount = match deposit_paired_amount(amount, x, y) {
            Some(v) => v,
            None => {
                return Err(Error::Overflow);
            },
        };
        if !self.ledger.has_at_least(other, operator, paired_amount) {
            return Err(Error::NotEnoughBalance);
        }
        let total = p.total_shares;
        if total == 0 {
            return Err(Error::NoSuchPool);
        }
        let mine: u128 = match self.shares.get(pool, operator) {
            Some(v) => v,
            None => 0,
        };
        let minted = match deposit_share_delta(amount, x, total) {
            Some(v) => v,
            None => {
                return Err(Error::Overflow);
            },
        };
        let new_total = match total.checked_add(minted) {
            Some(v) => v,
            None => {
                return Err(Error::Overflow);
            },
        };
        let new_mine = match mine.checked_add(minted) {
            Some(v) => v,
            None => {
                return Err(Error::Overflow);
            },
        };
        self.check_two(asset, operator, pool, amount, other, operator, pool, paired_amount)?;
        let ghost m2 = two_transfers(
            self.ledger@,
            asset,
            operator,
            pool,
            amount,
            other,
            operator,
            pool,
            paired_amount,
        )->Ok_0;
        let (nx, ny) = if operator == pool {
            (x, y)
        } else {
            (x + amount, y + paired_amount)
        };
        assert(held(m2, asset, pool) == nx && held(m2, other, pool) == ny);
        let k = match nx.checked_mul(ny) {
            Some(k) => k,
            None => {
                return Err(Error::Overflow);
            },
        };
        self.apply_two(asset, operator, pool, amount, other, operator, pool, paired_amount);
        self.pools.set(pool, Pool { constant: k, total_shares: new_total, ..p });
        self.shares.set(pool, operator, new_mine);
        self.events.push(
            Event::Deposited {
                operator,
                pool_account: pool,
                first_asset: asset,
                first_asset_amount: amount,
                second_asset: other,
                second_asset_amount: paired_amount,
            },
        );
        assert(self@ == deposit_outcome(old(self)@, operator, pool, asset, amount)->Ok_0);
        proof {
            assert forall|q: u64| #[trigger] self.share_sum(q) == total_of(self@, q) by {
                assert(old(self).share_sum(q) == total_of(old(self)@, q));
            }
        }
        Ok(())
    }

    /// Withdraws `amount` of `asset` with the proportional amount of the
    /// pool's other asset, burning the caller's shares for it.
    pub fn withdraw(&mut self, operator: u64, pool: u64, asset: u64, amount: u128) -> (r: Result<
        (),
        Error,
    >)
        requires
            old(self).wf(),
        ensures
            final(self).wf(),
            match withdraw_outcome(old(self)@, operator, pool, asset, amount) {
                Ok((_, next)) => r is Ok && final(self)@ == next,
                Err(e) => r == Err::<(), Error>(e) && final(self)@ == old(self)@,
            },
    {
        match self.withdraw_paired(operator, pool, asset, amount) {
            Ok(_) => Ok(()),
            Err(e) => Err(e),
        }
    }

    /// As [`Pallet::withdraw`], returning the amount of the other asset paid out.
    pub fn withdraw_paired(&mut self, operator: u64, pool: u64, asset: u64, amount: u128) -> (r:
        Result<u128, Error>)
        requires
            old(self).wf(),
        ensures
            final(self).wf(),
            match withdraw_outcome(old(self)@, operator, pool, asset, amount) {
                Ok((paired, next)) => r == Ok::<u128, Error>(paired) && final(self)@ == next,
                Err(e) => r == Err::<u128, Error>(e) && final(self)@ == old(self)@,
            },
    {
        if amount == 0 {
            return Err(Error::WithdrawingZeroAmount);
        }
        let p = match self.pools.get(pool) {
            Some(p) => p,
            None => {
                return Err(Error::NoSuchPool);
            },
        };
        let other = match paired(&p, asset) {
            Some(o) => o,
            None => {
                return Err(Error::NoSuchTokenInPool);
            },
        };
        let (x, y) = match self.reserves(pool, asset, other) {
            Some(r) => r,
            None => {
                return Err(Error::EmptyPool);
            },
        };
        let paired_amount = match deposit_paired_amount(amount, x, y) {
            Some(v) => v,
            None => {
                return Err(Error::Overflow);
            },
        };
        let total = p.total_shares;
        if total == 0 {
            return Err(Error::NoSuchPool);
        }
        let mine: u128 = match self.shares.get(pool, operator) {
            Some(v) => v,
            None => 0,
        };
        let burnt = match deposit_share_delta(amount, x, total) {
            Some(v) => v,
            None => {
                return Err(Error::Overflow);
            },
        };
        if burnt > total || burnt > mine {
            return Err(Error::Overflow);
        }
        self.check_two(asset, pool, operator, amount, other, pool, operator, paired_amount)?;
        let ghost m2 = two_transfers(
            self.ledger@,
            asset,
            pool,
            operator,
            amount,
            other,
            pool,
            operator,
            paired_amount,
        )->Ok_0;
        let (nx, ny) = if operator == pool {
            (x, y)
        } else {
            (x - amount, y - paired_amount)
        };
        assert(held(m2, asset, pool) == nx && held(m2, other, pool) == ny);
        let k = match nx.checked_mul(ny) {
            Some(k) => k,
            None => {
                return Err(Error::Overflow);
            },
        };
        self.apply_two(asset, pool, operator, amount, other, pool, operator, paired_amount);
        self.pools.set(pool, Pool { constant: k, total_shares: total - burnt, ..p });
        self.shares.set(pool, operator, mine - burnt);
        self.events.push(
            Event::Withdrawed {
                operator,
                pool_account: pool,
                first_asset: asset,
                first_asset_amount: amount,
                second_asset: other,
                second_asset_amount: paired_amount,
            },
        );
        assert(self@ == withdraw_outcome(old(self)@, operator, pool, asset, amount)->Ok_0.1);
        proof {
            assert forall|q: u64| #[trigger] self.share_sum(q) == total_of(self@, q) by {
                assert(old(self).share_sum(q) == total_of(old(self)@, q));
            }
        }
        Ok(paired_amount)
    }

    /// Registers a new pool of `first_token_amount` of `first_token_id` and
    /// `second_token_amount` of `second_token_id`, paid by `creator`, who is
    /// credited with the default share.
    pub fn init(
        &mut self,
        creator: u64,
        pool: u64,
        first_token_id: u64,
        first_token_amount: u128,
        second_token_id: u64,
        second_token_amount: u128,
    ) -> (r: Result<(), Error>)
        requires
            old(self).wf(),
        ensures
            final(self).wf(),
            match init_outcome(
                old(self)@,
                creator,
                pool,
                first_token_id,
                first_token_amount,
                second_token_id,
                second_token_amount,
            ) {
                Ok(next) => r is Ok && final(self)@ == next,
                Err(e) => r == Err::<(), Error>(e) && final(self)@ == old(self)@,
            },
    {
        if first_token_amount == 0 || second_token_amount == 0 {
            return Err(Error::DepositingZeroAmount);
        }
        if self.pools.get(pool).is_some() {
            return Err(Error::PoolAlreadyExists);
        }
        if first_token_id == second_token_id {
            return Err(Error::SameAssetPool);
        }
        if !self.ledger.has_at_least(first_token_id, creator, first_token_amount) {
            return Err(Error::NotEnoughBalance);
        }
        if !self.ledger.has_at_least(second_token_id, creator, second_token_amount) {
            return Err(Error::NotEnoughBalance);
        }
        let k = match first_token_amount.checked_mul(second_token_amount) {
            Some(k) => k,
            None => {
                return Err(Error::Overflow);
            },
        };
        self.check_two(
            first_token_id,
            creator,
            pool,
            first_token_amount,
            second_token_id,
            creator,
            pool,
            second_token_amount,
        )?;
        self.apply_two(
            first_token_id,
            creator,
            pool,
            first_token_amount,
            second_token_id,
            creator,
            pool,
            second_token_amount,
        );
        let share = self.config.default_share;
        proof {
            assert(!self.shares@.contains_key((pool, creator)));
        }
        self.pools.set(
            pool,
            Pool {
                first_asset: first_token_id,
                second_asset: second_token_id,
                constant: k,
                total_shares: share,
            },
        );
        self.shares.set(pool, creator, share);
        self.events.push(
            Event::PoolCreated {
                creator,
                pool_account: pool,
                first_asset: first_token_id,
                second_asset: second_token_id,
            },
        );
        proof {
            assert forall|q: u64| #[trigger] self.share_sum(q) == total_of(self@, q) by {
                assert(old(self).share_sum(q) == total_of(old(self)@, q));
            }
        }
        Ok(())
    }

    /// An independent copy of the whole state.
    fn duplicate(&self) -> (r: Pallet)
        requires
            self.wf(),
        ensures
            r.wf(),
            r@ == self@,
    {
        let mut events: Vec<Event> = Vec::new();
        let mut i: usize = 0;
        while i < self.events.len()
            invariant
                i <= self.events@.len(),
                events@ == self.events@.subrange(0, i as int),
            decreases self.events@.len() - i,
        {
            events.push(self.events[i]);
            i = i + 1;
        }
        assert(events@ =~= self.events@);
        let r = Pallet {
            config: self.config,
            ledger: self.ledger.duplicate(),
            pools: self.pools.duplicate(),
            shares: self.shares.duplicate(),
            events,
        };
        assert forall|q: u64| #[trigger] r.share_sum(q) == total_of(r@, q) by {
            assert(self.share_sum(q) == total_of(self@, q));
        }
        r
    }

    /// Swaps `amount` of `token_id` for the pool's other asset.
    pub fn swap_token(&mut self, operator: u64, pool: u64, token_id: u64, amount: u128) -> (r:
        Result<(), Error>)
        requires
            old(self).wf(),
        ensures
            final(self).wf(),
            match swap_outcome(old(self)@, operator, pool, token_id, amount) {
                Ok((_, next)) => r is Ok && final(self)@ == next,
                Err(e) => r == Err::<(), Error>(e) && final(self)@ == old(self)@,
            },
    {
        match self.swap(operator, pool, token_id, amount) {
            Ok(_) => Ok(()),
            Err(e) => Err(e),
        }
    }

    /// Provides liquidity from `amount` of `token_id` alone: the part given by
    /// the single-asset formula is swapped, and what it brings is deposited.
    pub fn deposit_one_asset(&mut self, operator: u64, pool: u64, token_id: u64, amount: u128) -> (r:
        Result<(), Error>)
        requires
            old(self).wf(),
        ensures
            final(self).wf(),
            match deposit_one_asset_outcome(old(self)@, operator, pool, token_id, amount) {
                Ok(next) => r is Ok && final(self)@ == next,
                Err(e) => r == Err::<(), Error>(e) && final(self)@ == old(self)@,
            },
    {
        if amount == 0 {
            return Err(Error::DepositingZeroAmount);
        }
        let p = match self.pools.get(pool) {
            Some(p) => p,
            None => {
                return Err(Error::NoSuchPool);
            },
        };
        if !self.ledger.has_at_least(token_id, operator, amount) {
            return Err(Error::NotEnoughBalance);
        }
        let other = match paired(&p, token_id) {
            Some(o) => o,
            None => {
                return Err(Error::NoSuchTokenInPool);
            },
        };
        let (x, _y) = match self.reserves(pool, token_id, other) {
            Some(r) => r,
            None => {
                return Err(Error::EmptyPool);
            },
        };
        let to_swap = match zap_in_swap_amount(x, amount) {
            Some(v) => v,
            None => {
                return Err(Error::Overflow);
            },
        };
        let mut next = self.duplicate();
        let received = next.swap(operator, pool, token_id, to_swap)?;
        next.deposit(operator, pool, other, received)?;
        *self = next;
        Ok(())
    }

    /// Takes liquidity out as `token_id` alone: the part given by the
    /// single-asset formula is withdrawn, and the other asset it brings is
    /// swapped back.
    pub fn withdraw_one_asset(&mut self, operator: u64, pool: u64, token_id: u64, amount: u128) -> (r:
        Result<(), Error>)
        requires
            old(self).wf(),
        ensures
            final(self).wf(),
            match withdraw_one_asset_outcome(old(self)@, operator, pool, token_id, amount) {
                Ok(next) => r is Ok && final(self)@ == next,
                Err(e) => r == Err::<(), Error>(e) && final(self)@ == old(self)@,
            },
    {
        if amount == 0 {
            return Err(Error::DepositingZeroAmount);
        }
        let p = match self.pools.get(pool) {
            Some(p) => p,
            None => {
                return Err(Error::NoSuchPool);
            },
        };
        let other = match paired(&p, token_id) {
            Some(o) => o,
            None => {
                return Err(Error::NoSuchTokenInPool);
            },
        };
        let (x, _y) = match self.reserves(pool, token_id, other) {
            Some(r) => r,
            None => {
                return Err(Error::EmptyPool);
            },
        };
        if x < amount {
            return Err(Error::Overflow);
        }
        assert((x as int) * (amount as int) <= (x as int) * (x as int)) by (nonlinear_arith)
            requires
                amount <= x,
        ;
        let to_withdraw = match zap_out_swap_amount(x, amount) {
            Some(v) => v,
            None => {
                return Err(Error::Overflow);
            },
        };
        let mut next = self.duplicate();
        let received = next.withdraw_paired(operator, pool, token_id, to_withdraw)?;
        next.swap(operator, pool, other, received)?;
        *self = next;
        Ok(())
    }

    /// The assets and the cached invariant constant of `pool`.
    pub fn get_pool(&self, pool: u64) -> (r: Option<(u64, u64, u128)>)
        requires
            self.wf(),
        ensures
            r == (if self@.pools.contains_key(pool) {
                let p = self@.pools[pool];
                Some((p.first_asset, p.second_asset, p.constant))
            } else {
                None
            }),
    {
        match self.pools.get(pool) {
            Some(p) => Some((p.first_asset, p.second_asset, p.constant)),
            None => None,
        }
    }

    /// The share of `provider` in `pool`, if one was ever recorded.
    pub fn get_pool_share(&self, pool: u64, provider: u64) -> (r: Option<u128>)
        requires
            self.wf(),
        ensures
            r == lookup(self@.shares, pool, provider),
    {
        self.shares.get(pool, provider)
    }

    /// The total shares issued in `pool`.
    pub fn get_total_pool_shares(&self, pool: u64) -> (r: Option<u128>)
        requires
            self.wf(),
        ensures
            r == (if self@.pools.contains_key(pool) {
                Some(self@.pools[pool].total_shares)
            } else {
                None
            }),
    {
        match self.pools.get(pool) {
            Some(p) => Some(p.total_shares),
            None => None,
        }
    }

    /// The token ledger.
    pub fn ledger(&self) -> (r: &Ledger)
        requires
            self.wf(),
        ensures
            r.wf(),
            r@ == self@.ledger,
    {
        &self.ledger
    }

    /// The events reported so far, oldest first.
    pub fn events(&self) -> (r: &Vec<Event>)
        ensures
            r@ == self@.events,
    {
        &self.events
    }

    /// The constants the pallet was set up with.
    pub fn config(&self) -> (r: Config)
        ensures
            r == self@.config,
    {
        self.config
    }
}

} // verus!
