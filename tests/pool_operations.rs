use dex::{Config, Error, Ledger, Pallet};

const POOL: u64 = 314159265;

fn config() -> Config {
    Config {
        default_share: 10000,
        hundred_percent: 1000,
        hundred_percent_minus_fee: 997,
    }
}

/// Mints `first` of asset 0 and `second` of asset 1 to account 1, then
/// hands account 2 `to_second_account` of each.
fn setup(first: u128, second: u128, to_second_account: Option<(u128, u128)>) -> Pallet {
    let mut ledger = Ledger::new();
    assert!(ledger.mint(0, 1, first).is_ok());
    assert!(ledger.mint(1, 1, second).is_ok());
    if let Some((a, b)) = to_second_account {
        if a > 0 {
            assert!(ledger.transfer(1, 2, 0, a).is_ok());
        }
        if b > 0 {
            assert!(ledger.transfer(1, 2, 1, b).is_ok());
        }
    }
    Pallet::new(config(), ledger)
}

fn balance(dex: &Pallet, asset: u64, account: u64) -> Option<u128> {
    dex.ledger().get_balance(asset, account)
}

#[test]
fn init_pool() {
    let mut dex = setup(100, 100, None);
    assert!(dex.init(1, POOL, 0, 50, 1, 50).is_ok());

    assert_eq!(dex.get_pool(POOL), Some((0, 1, 2500)));
    assert_eq!(dex.get_pool_share(POOL, 1), Some(10000));
}

#[test]
fn swap_tokens() {
    let mut dex = setup(100, 100, Some((10, 0)));
    assert!(dex.init(1, POOL, 0, 50, 1, 50).is_ok());
    assert!(dex.swap_token(2, POOL, 0, 10).is_ok());

    assert_eq!(balance(&dex, 0, 2), Some(0));
    // One token was lost to slippage, another one to the fee
    assert_eq!(balance(&dex, 1, 2), Some(8));
}

#[test]
fn depositing_liquidity() {
    let mut dex = setup(100, 100, Some((10, 10)));
    assert!(dex.init(1, POOL, 0, 50, 1, 50).is_ok());
    assert!(dex.deposit(2, POOL, 0, 10).is_ok());

    assert_eq!(balance(&dex, 0, 2), Some(0));
    assert_eq!(balance(&dex, 1, 2), Some(0));
    assert_eq!(dex.get_pool_share(POOL, 2), Some(2000));
    assert_eq!(dex.get_total_pool_shares(POOL), Some(12000));
}

#[test]
fn withdrawing_liquidity() {
    let mut dex = setup(100, 100, None);
    assert!(dex.init(1, POOL, 0, 50, 1, 50).is_ok());
    assert!(dex.withdraw(1, POOL, 0, 10).is_ok());

    assert_eq!(balance(&dex, 0, 1), Some(60));
    assert_eq!(balance(&dex, 1, 1), Some(60));
    assert_eq!(dex.get_pool_share(POOL, 1), Some(8000));
    assert_eq!(dex.get_total_pool_shares(POOL), Some(8000));

    assert!(dex.withdraw(1, POOL, 0, 40).is_ok());

    assert_eq!(balance(&dex, 0, 1), Some(100));
    assert_eq!(balance(&dex, 1, 1), Some(100));
    assert_eq!(dex.get_pool_share(POOL, 1), Some(0));
    assert_eq!(dex.get_total_pool_shares(POOL), Some(0));
}

#[test]
#[should_panic]
fn init_pool_with_same_assets() {
    let mut dex = setup(100, 0, None);
    assert!(dex.init(1, POOL, 0, 50, 0, 50).is_ok());
}

#[test]
fn abuse_without_tokens() {
    let mut dex = setup(11000, 10100, Some((10000, 10000)));
    assert_eq!(dex.init(1, POOL, 0, 500, 1, 500), Err(Error::NotEnoughBalance));
    assert_eq!(dex.get_pool(POOL), None);
    assert!(dex.init(1, POOL, 0, 50, 1, 50).is_ok());
    assert_eq!(dex.swap_token(1, POOL, 1, 500), Err(Error::NotEnoughBalance));
    assert_eq!(dex.deposit(1, POOL, 1, 500), Err(Error::NotEnoughBalance));
    assert!(dex.deposit(2, POOL, 0, 10000).is_ok());
    assert_eq!(dex.withdraw(1, POOL, 1, 500), Err(Error::Overflow));
    assert_eq!(dex.withdraw(1, POOL, 1, 51), Err(Error::Overflow));
    assert!(dex.withdraw(1, POOL, 1, 50).is_ok());
}

#[test]
fn using_uninitialized_pool() {
    let mut dex = Pallet::new(config(), Ledger::new());
    assert_eq!(dex.swap_token(2, POOL, 0, 10), Err(Error::NoSuchPool));
}

#[test]
fn zero_amounts() {
    let mut dex = setup(100, 100, None);
    assert_eq!(dex.init(1, POOL, 0, 0, 1, 50), Err(Error::DepositingZeroAmount));
    assert!(dex.init(1, POOL, 0, 50, 1, 50).is_ok());
    assert_eq!(dex.swap_token(1, POOL, 1, 0), Err(Error::DepositingZeroAmount));
    assert_eq!(dex.deposit(1, POOL, 1, 0), Err(Error::DepositingZeroAmount));
    assert_eq!(dex.withdraw(1, POOL, 1, 0), Err(Error::WithdrawingZeroAmount));
}

#[test]
fn creating_existing_pool() {
    let mut dex = setup(100, 100, None);
    assert!(dex.init(1, POOL, 0, 50, 1, 50).is_ok());
    assert_eq!(dex.init(1, POOL, 0, 50, 1, 50), Err(Error::PoolAlreadyExists));
}

#[test]
fn depositing_token_that_is_not_in_pool() {
    let mut dex = setup(100, 100, None);
    let mut ledger = dex.ledger().duplicate();
    assert!(ledger.mint(2, 1, 100).is_ok());
    dex = Pallet::new(config(), ledger);
    assert!(dex.init(1, POOL, 0, 50, 1, 50).is_ok());
    assert_eq!(dex.swap_token(1, POOL, 2, 50), Err(Error::NoSuchTokenInPool));
    assert_eq!(dex.deposit(1, POOL, 2, 50), Err(Error::NoSuchTokenInPool));
    assert_eq!(dex.withdraw(1, POOL, 2, 50), Err(Error::NoSuchTokenInPool));
}

#[test]
fn depositing_assets_into_dead_pool() {
    let mut dex = setup(100, 100, None);
    assert!(dex.init(1, POOL, 0, 50, 1, 50).is_ok());
    assert!(dex.withdraw(1, POOL, 0, 50).is_ok());
    assert_eq!(dex.deposit(1, POOL, 0, 50), Err(Error::EmptyPool));
}

#[test]
fn withdrawing_more_liquidity_than_in_the_pool() {
    let mut dex = setup(1000, 1000, Some((900, 900)));
    assert!(dex.init(1, POOL, 0, 50, 1, 50).is_ok());
    assert!(dex.deposit(2, POOL, 0, 900).is_ok());
    assert_eq!(dex.withdraw(1, POOL, 0, 500), Err(Error::Overflow));
}

#[test]
fn deposit_one_asset() {
    let mut dex = setup(100000000, 100000000, Some((10000000, 10000000)));
    assert!(dex.init(1, POOL, 0, 50000, 1, 50000000).is_ok());
    assert!(dex.deposit_one_asset(2, POOL, 0, 10000000).is_ok());

    // The balance is not 0 because of the swap fee; it shrinks as the fee approaches 0
    assert_eq!(balance(&dex, 0, 2), Some(382199));
    assert_eq!(balance(&dex, 1, 2), Some(10000000));
}

#[test]
fn withdrawing_one_asset() {
    let mut dex = setup(100000000, 100000000, Some((10000000, 10000000)));
    assert!(dex.init(1, POOL, 0, 50000000, 1, 50000000).is_ok());
    assert!(dex.deposit(2, POOL, 0, 10000000).is_ok());
    assert!(dex.withdraw_one_asset(2, POOL, 0, 1000000).is_ok());

    // The swap fee takes about 0.15% of the requested amount
    assert_eq!(balance(&dex, 0, 2), Some(998507));
    assert_eq!(balance(&dex, 1, 2), Some(0));
}
