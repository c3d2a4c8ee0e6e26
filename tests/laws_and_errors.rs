use dex::{Config, Error, Event, Ledger, LedgerError, Pallet};

const POOL: u64 = 7;

fn config() -> Config {
    Config {
        default_share: 10000,
        hundred_percent: 1000,
        hundred_percent_minus_fee: 997,
    }
}

fn pallet_with(balances: &[(u64, u64, u128)]) -> Pallet {
    let mut ledger = Ledger::new();
    for &(asset, account, amount) in balances {
        assert!(ledger.mint(asset, account, amount).is_ok());
    }
    Pallet::new(config(), ledger)
}

fn balances_of(dex: &Pallet, accounts: &[u64]) -> Vec<Option<u128>> {
    let mut out = Vec::new();
    for &account in accounts {
        for asset in 0..3u64 {
            out.push(dex.ledger().get_balance(asset, account));
        }
    }
    out
}

#[test]
fn deposit_then_withdraw_round_trip() {
    let mut dex = pallet_with(&[(0, 1, 1000), (1, 1, 1000), (0, 2, 77), (1, 2, 500)]);
    assert!(dex.init(1, POOL, 0, 300, 1, 700).is_ok());
    let before = balances_of(&dex, &[1, 2, POOL]);
    assert!(dex.deposit(2, POOL, 0, 77).is_ok());
    assert_eq!(dex.get_pool_share(POOL, 2), Some(2566));
    assert_eq!(dex.withdraw_paired(2, POOL, 0, 77), Ok(179));
    assert_eq!(balances_of(&dex, &[1, 2, POOL]), before);
    assert_eq!(dex.get_pool_share(POOL, 2), Some(0));
    assert_eq!(dex.get_total_pool_shares(POOL), Some(10000));
}

#[test]
fn shares_add_up_to_total() {
    let mut dex = pallet_with(&[(0, 1, 1000), (1, 1, 1000), (0, 2, 500), (1, 2, 500), (0, 3, 500), (1, 3, 500)]);
    assert!(dex.init(1, POOL, 0, 100, 1, 200).is_ok());
    assert!(dex.deposit(2, POOL, 0, 30).is_ok());
    assert!(dex.deposit(3, POOL, 1, 41).is_ok());
    assert!(dex.swap_token(2, POOL, 0, 25).is_ok());
    assert!(dex.withdraw(1, POOL, 1, 60).is_ok());
    assert!(dex.deposit_one_asset(3, POOL, 0, 90).is_ok());
    let mut sum = 0u128;
    for provider in 1..4u64 {
        sum += dex.get_pool_share(POOL, provider).unwrap_or(0);
    }
    assert_eq!(Some(sum), dex.get_total_pool_shares(POOL));
}

#[test]
fn zero_amounts_change_nothing() {
    let mut dex = pallet_with(&[(0, 1, 100), (1, 1, 100)]);
    assert!(dex.init(1, POOL, 0, 50, 1, 50).is_ok());
    let before = balances_of(&dex, &[1, POOL]);
    let events = dex.events().len();
    assert_eq!(dex.swap(1, POOL, 0, 0), Err(Error::DepositingZeroAmount));
    assert_eq!(dex.deposit(1, POOL, 0, 0), Err(Error::DepositingZeroAmount));
    assert_eq!(dex.withdraw(1, POOL, 0, 0), Err(Error::WithdrawingZeroAmount));
    assert_eq!(dex.deposit_one_asset(1, POOL, 0, 0), Err(Error::DepositingZeroAmount));
    assert_eq!(dex.withdraw_one_asset(1, POOL, 0, 0), Err(Error::DepositingZeroAmount));
    assert_eq!(dex.init(1, 8, 0, 0, 1, 5), Err(Error::DepositingZeroAmount));
    assert_eq!(balances_of(&dex, &[1, POOL]), before);
    assert_eq!(dex.get_pool(POOL), Some((0, 1, 2500)));
    assert_eq!(dex.get_pool(8), None);
    assert_eq!(dex.get_pool_share(POOL, 1), Some(10000));
    assert_eq!(dex.events().len(), events);
}

#[test]
fn same_asset_pool_is_refused() {
    let mut dex = pallet_with(&[(0, 1, 100)]);
    assert_eq!(dex.init(1, POOL, 0, 50, 0, 50), Err(Error::SameAssetPool));
    assert_eq!(dex.get_pool(POOL), None);
    assert_eq!(dex.get_total_pool_shares(POOL), None);
    assert_eq!(dex.get_pool_share(POOL, 1), None);
    assert_eq!(dex.ledger().get_balance(0, 1), Some(100));
    // A zero amount is reported first
    assert_eq!(dex.init(1, POOL, 0, 0, 0, 50), Err(Error::DepositingZeroAmount));
}

#[test]
fn scenario_fifty_fifty_pool() {
    let mut dex = pallet_with(&[(0, 1, 100), (1, 1, 100), (0, 2, 10)]);
    assert!(dex.init(1, POOL, 0, 50, 1, 50).is_ok());
    assert_eq!(dex.swap(2, POOL, 0, 10), Ok(8));
    assert_eq!(dex.get_pool(POOL), Some((0, 1, 60 * 42)));
    assert_eq!(
        dex.events()[1],
        Event::Swapped {
            operator: 2,
            pool_account: POOL,
            first_asset: 0,
            first_asset_amount: 10,
            second_asset: 1,
            second_asset_amount: 8,
        }
    );
}

#[test]
fn withdrawing_everything_empties_the_pool() {
    let mut dex = pallet_with(&[(0, 1, 100), (1, 1, 100)]);
    assert!(dex.init(1, POOL, 0, 50, 1, 50).is_ok());
    assert_eq!(dex.withdraw_paired(1, POOL, 1, 50), Ok(50));
    assert_eq!(dex.ledger().get_balance(0, POOL), Some(0));
    assert_eq!(dex.ledger().get_balance(1, POOL), Some(0));
    assert_eq!(dex.get_total_pool_shares(POOL), Some(0));
    assert_eq!(dex.get_pool(POOL), Some((0, 1, 0)));
    assert_eq!(dex.swap(1, POOL, 0, 5), Err(Error::EmptyPool));
    assert_eq!(dex.withdraw(1, POOL, 0, 5), Err(Error::EmptyPool));
}

#[test]
fn init_product_overflow() {
    let big = u128::MAX / 2;
    let mut dex = pallet_with(&[(0, 1, big), (1, 1, big)]);
    assert_eq!(dex.init(1, POOL, 0, big, 1, 3), Err(Error::Overflow));
    assert_eq!(dex.get_pool(POOL), None);
}

#[test]
fn swap_error_order() {
    let mut dex = pallet_with(&[(0, 1, 100), (1, 1, 100), (2, 1, 100)]);
    assert_eq!(dex.swap(1, POOL, 0, 10), Err(Error::NoSuchPool));
    assert!(dex.init(1, POOL, 0, 50, 1, 50).is_ok());
    assert_eq!(dex.swap(1, POOL, 0, 51), Err(Error::NotEnoughBalance));
    assert_eq!(dex.swap(3, POOL, 0, 1), Err(Error::NotEnoughBalance));
    assert_eq!(dex.swap(1, POOL, 2, 10), Err(Error::NoSuchTokenInPool));
    assert_eq!(dex.withdraw(1, 99, 0, 10), Err(Error::NoSuchPool));
}

#[test]
fn withdraw_beyond_entitlement_is_overflow() {
    let mut dex = pallet_with(&[(0, 1, 100), (1, 1, 100), (0, 2, 100), (1, 2, 100)]);
    assert!(dex.init(1, POOL, 0, 50, 1, 50).is_ok());
    assert!(dex.deposit(2, POOL, 0, 5).is_ok());
    assert_eq!(dex.get_pool_share(POOL, 2), Some(1000));
    assert_eq!(dex.withdraw(2, POOL, 0, 6), Err(Error::Overflow));
    assert_eq!(dex.withdraw(3, POOL, 0, 1), Err(Error::Overflow));
    assert!(dex.withdraw(2, POOL, 0, 5).is_ok());
}

#[test]
fn deposit_needs_the_paired_amount() {
    let mut dex = pallet_with(&[(0, 1, 100), (1, 1, 100), (0, 2, 100), (1, 2, 3)]);
    assert!(dex.init(1, POOL, 0, 50, 1, 50).is_ok());
    assert_eq!(dex.deposit(2, POOL, 0, 4), Err(Error::NotEnoughBalance));
    assert!(dex.deposit(2, POOL, 0, 3).is_ok());
    assert_eq!(dex.ledger().get_balance(1, 2), Some(0));
}

#[test]
fn single_asset_round_trip_with_same_amount() {
    let mut dex = pallet_with(&[(0, 1, 100000000), (1, 1, 100000000), (0, 2, 10000000)]);
    assert!(dex.init(1, POOL, 0, 50000000, 1, 50000000).is_ok());
    assert!(dex.deposit_one_asset(2, POOL, 0, 1000000).is_ok());
    assert!(dex.withdraw_one_asset(2, POOL, 0, 1000000).is_ok());
    // Rounding in the two formulas leaves the caller slightly ahead here
    assert_eq!(dex.ledger().get_balance(0, 2), Some(10000032));
    assert_eq!(dex.ledger().get_balance(1, 2), Some(0));
}

#[test]
fn single_asset_round_trip_rounding_on_small_amounts() {
    let mut dex = pallet_with(&[(0, 1, 456739), (1, 1, 9991), (0, 2, 29445), (1, 2, 881)]);
    assert!(dex.init(1, POOL, 0, 456739, 1, 9991).is_ok());
    assert!(dex.deposit_one_asset(2, POOL, 0, 531).is_ok());
    assert!(dex.withdraw_one_asset(2, POOL, 0, 531).is_ok());
    assert_eq!(dex.ledger().get_balance(0, 2), Some(29446));
    assert_eq!(dex.ledger().get_balance(1, 2), Some(881));
}

#[test]
fn events_are_recorded() {
    let mut dex = pallet_with(&[(0, 1, 100), (1, 1, 100)]);
    assert!(dex.init(1, POOL, 0, 50, 1, 50).is_ok());
    assert!(dex.deposit(1, POOL, 1, 10).is_ok());
    assert_eq!(dex.events().len(), 2);
    assert_eq!(
        dex.events()[0],
        Event::PoolCreated { creator: 1, pool_account: POOL, first_asset: 0, second_asset: 1 }
    );
    assert_eq!(
        dex.events()[1],
        Event::Deposited {
            operator: 1,
            pool_account: POOL,
            first_asset: 1,
            first_asset_amount: 10,
            second_asset: 0,
            second_asset_amount: 10,
        }
    );
}

#[test]
fn ledger_transfers() {
    let mut ledger = Ledger::new();
    assert_eq!(ledger.get_balance(0, 1), None);
    assert_eq!(ledger.transfer(1, 2, 0, 0), Err(LedgerError::InsufficientBalance));
    assert!(ledger.mint(0, 1, 10).is_ok());
    assert_eq!(ledger.transfer(1, 2, 0, 11), Err(LedgerError::InsufficientBalance));
    assert!(ledger.transfer(1, 2, 0, 4).is_ok());
    assert_eq!(ledger.get_balance(0, 1), Some(6));
    assert_eq!(ledger.get_balance(0, 2), Some(4));
    assert!(ledger.transfer(1, 1, 0, 6).is_ok());
    assert_eq!(ledger.get_balance(0, 1), Some(6));
    assert!(ledger.mint(0, 3, u128::MAX).is_ok());
    assert_eq!(ledger.mint(0, 3, 1), Err(LedgerError::BalanceOverflow));
    assert_eq!(ledger.transfer(1, 3, 0, 1), Err(LedgerError::BalanceOverflow));
    assert_eq!(ledger.get_balance(0, 1), Some(6));
}
