use dex_contract::pool::LiquidityPool;
use dex_contract::pricing::calculate_amount_out;
use dex_contract::state::State;
use dex_contract::types::{
    AccountAddress, AddLiquidityParams, Address, ContractAddress, Error, RemoveLiquidityParams,
    SwapParams, TokenPair,
};

fn pair() -> TokenPair {
    TokenPair {
        token0_address: ContractAddress { index: 1, subindex: 0 },
        token1_address: ContractAddress { index: 2, subindex: 0 },
        token0_id: 0,
        token1_id: 7,
    }
}

fn reversed() -> TokenPair {
    TokenPair {
        token0_address: ContractAddress { index: 2, subindex: 0 },
        token1_address: ContractAddress { index: 1, subindex: 0 },
        token0_id: 7,
        token1_id: 0,
    }
}

fn alice() -> AccountAddress {
    AccountAddress([1u8; 32])
}

fn bob() -> AccountAddress {
    let mut bytes = [1u8; 32];
    bytes[31] = 2;
    AccountAddress(bytes)
}

fn add(amount0: u64, amount1: u64, min_liquidity: u64) -> AddLiquidityParams {
    AddLiquidityParams { token_pair: pair(), amount0, amount1, min_liquidity }
}

fn funded() -> State {
    let mut state = State::new();
    assert_eq!(state.add_liquidity(&Address::Account(alice()), &add(100, 400, 0)), Ok(()));
    state
}

#[test]
fn first_deposit_mints_square_root() {
    let state = funded();
    assert_eq!(
        state.get_pool(&pair()),
        Some(LiquidityPool { token0_reserve: 100, token1_reserve: 400, total_shares: 200 })
    );
    assert_eq!(state.get_shares(&pair(), &alice()), 200);
}

#[test]
fn swap_price_follows_formula() {
    // 10 * 997 * 400 = 3_988_000; 100 * 1000 + 10 * 997 = 109_970.
    assert_eq!(10u64 * 997 * 400 / (100 * 1000 + 10 * 997), 36);
    assert_eq!(calculate_amount_out(10, 100, 400), 36);
    let mut state = funded();
    let params =
        SwapParams { token_pair: pair(), amount_in: 10, min_amount_out: 0, is_token0: true };
    assert_eq!(state.swap(&params), Ok(36));
    assert_eq!(
        state.get_pool(&pair()),
        Some(LiquidityPool { token0_reserve: 110, token1_reserve: 364, total_shares: 200 })
    );
}

#[test]
fn swap_of_second_token_pays_first() {
    let mut state = funded();
    let params =
        SwapParams { token_pair: pair(), amount_in: 40, min_amount_out: 9, is_token0: false };
    // 40 * 997 * 100 / (400 * 1000 + 40 * 997) = 3_988_000 / 439_880 = 9
    assert_eq!(state.swap(&params), Ok(9));
    assert_eq!(
        state.get_pool(&pair()),
        Some(LiquidityPool { token0_reserve: 91, token1_reserve: 440, total_shares: 200 })
    );
}

#[test]
fn remove_without_shares_is_rejected() {
    let mut state = funded();
    let params =
        RemoveLiquidityParams { token_pair: pair(), shares: 1, min_amount0: 0, min_amount1: 0 };
    assert_eq!(
        state.remove_liquidity(&Address::Account(bob()), &params),
        Err(Error::InsufficientShares)
    );
    assert_eq!(
        state.get_pool(&pair()),
        Some(LiquidityPool { token0_reserve: 100, token1_reserve: 400, total_shares: 200 })
    );
    assert_eq!(state.get_shares(&pair(), &alice()), 200);
}

#[test]
fn swap_below_minimum_is_rejected() {
    let mut state = funded();
    let params =
        SwapParams { token_pair: pair(), amount_in: 10, min_amount_out: 37, is_token0: true };
    assert_eq!(state.quote_swap(&params), Err(Error::InsufficientAmount));
    assert_eq!(state.swap(&params), Err(Error::InsufficientAmount));
    assert_eq!(
        state.get_pool(&pair()),
        Some(LiquidityPool { token0_reserve: 100, token1_reserve: 400, total_shares: 200 })
    );
}

#[test]
fn shares_default_to_zero() {
    let state = State::new();
    assert_eq!(state.get_shares(&pair(), &alice()), 0);
    assert_eq!(state.get_pool(&pair()), None);
    let state = funded();
    assert_eq!(state.get_shares(&pair(), &bob()), 0);
    assert_eq!(state.get_shares(&reversed(), &alice()), 0);
}

#[test]
fn later_deposit_mints_lesser_ratio() {
    let mut state = funded();
    // by the first token: 50 * 200 / 100 = 100; by the second: 100 * 200 / 400 = 50.
    assert_eq!(state.add_liquidity(&Address::Account(bob()), &add(50, 100, 50)), Ok(()));
    assert_eq!(state.get_shares(&pair(), &bob()), 50);
    assert_eq!(
        state.get_pool(&pair()),
        Some(LiquidityPool { token0_reserve: 150, token1_reserve: 500, total_shares: 250 })
    );
    assert_eq!(state.get_shares(&pair(), &alice()), 200);
}

#[test]
fn deposit_adds_to_existing_holding() {
    let mut state = funded();
    assert_eq!(state.add_liquidity(&Address::Account(alice()), &add(10, 40, 20)), Ok(()));
    assert_eq!(state.get_shares(&pair(), &alice()), 220);
    assert_eq!(
        state.get_pool(&pair()),
        Some(LiquidityPool { token0_reserve: 110, token1_reserve: 440, total_shares: 220 })
    );
}

#[test]
fn deposit_below_min_liquidity_is_rejected() {
    let mut state = State::new();
    assert_eq!(
        state.add_liquidity(&Address::Account(alice()), &add(100, 400, 201)),
        Err(Error::InsufficientLiquidity)
    );
    assert_eq!(state.get_pool(&pair()), None);
    assert_eq!(state.get_shares(&pair(), &alice()), 0);
}

#[test]
fn deposit_from_contract_is_rejected() {
    let mut state = State::new();
    let sender = Address::Contract(ContractAddress { index: 9, subindex: 0 });
    assert_eq!(state.add_liquidity(&sender, &add(100, 400, 0)), Err(Error::ParseParams));
    assert_eq!(state.get_pool(&pair()), None);
    // too few shares is found before the sender is looked at
    assert_eq!(state.add_liquidity(&sender, &add(100, 400, 201)), Err(Error::InsufficientLiquidity));
}

#[test]
fn remove_pays_share_of_reserves() {
    let mut state = funded();
    let params =
        RemoveLiquidityParams { token_pair: pair(), shares: 50, min_amount0: 25, min_amount1: 100 };
    assert_eq!(state.quote_remove_liquidity(&Address::Account(alice()), &params), Ok((25, 100)));
    assert_eq!(state.remove_liquidity(&Address::Account(alice()), &params), Ok((25, 100)));
    assert_eq!(
        state.get_pool(&pair()),
        Some(LiquidityPool { token0_reserve: 75, token1_reserve: 300, total_shares: 150 })
    );
    assert_eq!(state.get_shares(&pair(), &alice()), 150);
}

#[test]
fn remove_rounds_down() {
    let mut state = funded();
    let swap = SwapParams { token_pair: pair(), amount_in: 10, min_amount_out: 0, is_token0: true };
    assert_eq!(state.swap(&swap), Ok(36));
    // reserves (110, 364), 200 shares: 3 * 110 / 200 = 1, 3 * 364 / 200 = 5
    let params =
        RemoveLiquidityParams { token_pair: pair(), shares: 3, min_amount0: 0, min_amount1: 0 };
    assert_eq!(state.remove_liquidity(&Address::Account(alice()), &params), Ok((1, 5)));
    assert_eq!(
        state.get_pool(&pair()),
        Some(LiquidityPool { token0_reserve: 109, token1_reserve: 359, total_shares: 197 })
    );
}

#[test]
fn remove_everything_keeps_empty_pool() {
    let mut state = funded();
    let params =
        RemoveLiquidityParams { token_pair: pair(), shares: 200, min_amount0: 0, min_amount1: 0 };
    assert_eq!(state.remove_liquidity(&Address::Account(alice()), &params), Ok((100, 400)));
    assert_eq!(
        state.get_pool(&pair()),
        Some(LiquidityPool { token0_reserve: 0, token1_reserve: 0, total_shares: 0 })
    );
    assert_eq!(state.get_shares(&pair(), &alice()), 0);
    // the holding is gone, not left at zero
    let none =
        RemoveLiquidityParams { token_pair: pair(), shares: 0, min_amount0: 0, min_amount1: 0 };
    assert_eq!(
        state.remove_liquidity(&Address::Account(alice()), &none),
        Err(Error::InsufficientShares)
    );
    // the empty pool can be funded again
    assert_eq!(state.add_liquidity(&Address::Account(bob()), &add(9, 4, 6)), Ok(()));
    assert_eq!(state.get_shares(&pair(), &bob()), 6);
}

#[test]
fn remove_errors_come_in_order() {
    let mut state = funded();
    let contract = Address::Contract(ContractAddress { index: 9, subindex: 0 });
    let missing =
        RemoveLiquidityParams { token_pair: reversed(), shares: 1, min_amount0: 0, min_amount1: 0 };
    assert_eq!(state.remove_liquidity(&contract, &missing), Err(Error::ParseParams));
    assert_eq!(
        state.remove_liquidity(&Address::Account(alice()), &missing),
        Err(Error::PoolNotFound)
    );
    let too_many =
        RemoveLiquidityParams { token_pair: pair(), shares: 201, min_amount0: 0, min_amount1: 0 };
    assert_eq!(
        state.remove_liquidity(&Address::Account(alice()), &too_many),
        Err(Error::InsufficientShares)
    );
    let low0 =
        RemoveLiquidityParams { token_pair: pair(), shares: 50, min_amount0: 26, min_amount1: 0 };
    assert_eq!(
        state.remove_liquidity(&Address::Account(alice()), &low0),
        Err(Error::InsufficientAmount)
    );
    let low1 =
        RemoveLiquidityParams { token_pair: pair(), shares: 50, min_amount0: 0, min_amount1: 101 };
    assert_eq!(
        state.remove_liquidity(&Address::Account(alice()), &low1),
        Err(Error::InsufficientAmount)
    );
    assert_eq!(state.get_shares(&pair(), &alice()), 200);
}

#[test]
fn swap_without_pool_is_rejected() {
    let mut state = funded();
    let params =
        SwapParams { token_pair: reversed(), amount_in: 10, min_amount_out: 0, is_token0: true };
    assert!(state.fits_swap(&params));
    assert_eq!(state.swap(&params), Err(Error::PoolNotFound));
}

#[test]
fn reversed_pair_is_another_pool() {
    let mut state = funded();
    let params =
        AddLiquidityParams { token_pair: reversed(), amount0: 9, amount1: 16, min_liquidity: 12 };
    assert_eq!(state.add_liquidity(&Address::Account(alice()), &params), Ok(()));
    assert_eq!(
        state.get_pool(&reversed()),
        Some(LiquidityPool { token0_reserve: 9, token1_reserve: 16, total_shares: 12 })
    );
    assert_eq!(
        state.get_pool(&pair()),
        Some(LiquidityPool { token0_reserve: 100, token1_reserve: 400, total_shares: 200 })
    );
    assert_eq!(state.get_shares(&reversed(), &alice()), 12);
    assert_eq!(state.get_shares(&pair(), &alice()), 200);
}

#[test]
fn total_shares_is_sum_of_holdings() {
    let mut state = funded();
    assert_eq!(state.add_liquidity(&Address::Account(bob()), &add(50, 100, 0)), Ok(()));
    let swap = SwapParams { token_pair: pair(), amount_in: 33, min_amount_out: 0, is_token0: false };
    assert!(state.swap(&swap).is_ok());
    let params =
        RemoveLiquidityParams { token_pair: pair(), shares: 70, min_amount0: 0, min_amount1: 0 };
    assert!(state.remove_liquidity(&Address::Account(alice()), &params).is_ok());
    let pool = state.get_pool(&pair()).unwrap();
    assert_eq!(
        pool.total_shares,
        state.get_shares(&pair(), &alice()) + state.get_shares(&pair(), &bob())
    );
    assert_eq!(pool.total_shares, 180);
}

#[test]
fn swap_never_lowers_product() {
    let mut state = funded();
    let mut product = 100u128 * 400;
    for (amount_in, is_token0) in [(10u64, true), (1, false), (250, false), (7, true), (0, true)] {
        let params = SwapParams { token_pair: pair(), amount_in, min_amount_out: 0, is_token0 };
        let before = state.get_pool(&pair()).unwrap();
        let out = state.swap(&params).unwrap();
        let after = state.get_pool(&pair()).unwrap();
        let reserve_out = if is_token0 { before.token1_reserve } else { before.token0_reserve };
        assert!(out < reserve_out);
        let next = after.token0_reserve as u128 * after.token1_reserve as u128;
        assert!(next >= product);
        product = next;
    }
}

#[test]
fn add_then_remove_returns_no_more() {
    let mut state = funded();
    let swap = SwapParams { token_pair: pair(), amount_in: 13, min_amount_out: 0, is_token0: true };
    assert!(state.swap(&swap).is_ok());
    assert_eq!(state.add_liquidity(&Address::Account(bob()), &add(37, 91, 0)), Ok(()));
    let minted = state.get_shares(&pair(), &bob());
    let params = RemoveLiquidityParams {
        token_pair: pair(),
        shares: minted,
        min_amount0: 0,
        min_amount1: 0,
    };
    let (out0, out1) = state.remove_liquidity(&Address::Account(bob()), &params).unwrap();
    assert!(out0 <= 37);
    assert!(out1 <= 91);
}

#[test]
fn large_amounts_are_exact() {
    let mut state = State::new();
    let big = 1u64 << 62;
    assert!(state.fits_add_liquidity(&Address::Account(alice()), &add(big, big, 0)));
    assert_eq!(state.add_liquidity(&Address::Account(alice()), &add(big, big, big)), Ok(()));
    assert_eq!(state.get_shares(&pair(), &alice()), big);
    // 2^62 in, reserves 2^62 each: 997 * 2^62 / 1997, rounded down
    let expected = (997u128 * (big as u128) / 1997) as u64;
    assert_eq!(calculate_amount_out(big, big, big), expected);
    let swap = SwapParams { token_pair: pair(), amount_in: big, min_amount_out: 0, is_token0: true };
    assert!(state.fits_swap(&swap));
    assert_eq!(state.swap(&swap), Ok(expected));
}

#[test]
fn out_of_range_calls_are_told() {
    let mut state = State::new();
    assert_eq!(state.add_liquidity(&Address::Account(alice()), &add(u64::MAX, 1, 0)), Ok(()));
    assert!(!state.fits_add_liquidity(&Address::Account(alice()), &add(1, 1, 0)));
    // a call that is rejected anyway is in range
    assert!(state.fits_add_liquidity(&Address::Account(alice()), &add(1, 1, u64::MAX)));
    let swap = SwapParams { token_pair: pair(), amount_in: 1, min_amount_out: 0, is_token0: true };
    assert!(!state.fits_swap(&swap));
    let other = SwapParams { token_pair: pair(), amount_in: 1, min_amount_out: 0, is_token0: false };
    assert!(state.fits_swap(&other));
}

#[test]
fn deposit_of_nothing_mints_nothing() {
    let mut state = State::new();
    assert_eq!(state.add_liquidity(&Address::Account(alice()), &add(0, 0, 0)), Ok(()));
    assert_eq!(
        state.get_pool(&pair()),
        Some(LiquidityPool { token0_reserve: 0, token1_reserve: 0, total_shares: 0 })
    );
    assert_eq!(state.get_shares(&pair(), &alice()), 0);
    // no holding was put on record
    let none =
        RemoveLiquidityParams { token_pair: pair(), shares: 0, min_amount0: 0, min_amount1: 0 };
    assert_eq!(
        state.remove_liquidity(&Address::Account(alice()), &none),
        Err(Error::InsufficientShares)
    );
}

#[test]
fn removing_no_shares_pays_nothing() {
    let mut state = funded();
    let none =
        RemoveLiquidityParams { token_pair: pair(), shares: 0, min_amount0: 0, min_amount1: 0 };
    assert_eq!(state.remove_liquidity(&Address::Account(alice()), &none), Ok((0, 0)));
    assert_eq!(state.get_shares(&pair(), &alice()), 200);
    assert_eq!(
        state.get_pool(&pair()),
        Some(LiquidityPool { token0_reserve: 100, token1_reserve: 400, total_shares: 200 })
    );
}

#[test]
fn swap_of_nothing_pays_nothing() {
    let mut state = funded();
    let params =
        SwapParams { token_pair: pair(), amount_in: 0, min_amount_out: 0, is_token0: true };
    assert_eq!(state.swap(&params), Ok(0));
    assert_eq!(
        state.get_pool(&pair()),
        Some(LiquidityPool { token0_reserve: 100, token1_reserve: 400, total_shares: 200 })
    );
}

#[test]
fn swap_has_no_price_in_empty_pool() {
    let mut state = State::new();
    assert_eq!(state.add_liquidity(&Address::Account(alice()), &add(0, 5, 0)), Ok(()));
    let nothing =
        SwapParams { token_pair: pair(), amount_in: 0, min_amount_out: 0, is_token0: true };
    assert!(!state.fits_swap(&nothing));
    // with nothing of the token paid in, the pool pays out all it has of the other
    let something =
        SwapParams { token_pair: pair(), amount_in: 3, min_amount_out: 0, is_token0: true };
    assert!(state.fits_swap(&something));
    assert_eq!(state.swap(&something), Ok(5));
    assert_eq!(
        state.get_pool(&pair()),
        Some(LiquidityPool { token0_reserve: 3, token1_reserve: 0, total_shares: 0 })
    );
}

#[test]
fn reserves_without_shares_go_to_first_minter() {
    let mut state = State::new();
    assert_eq!(state.add_liquidity(&Address::Account(alice()), &add(5, 0, 0)), Ok(()));
    assert_eq!(state.get_shares(&pair(), &alice()), 0);
    assert_eq!(state.add_liquidity(&Address::Account(bob()), &add(4, 1, 2)), Ok(()));
    assert_eq!(state.get_shares(&pair(), &bob()), 2);
    let all =
        RemoveLiquidityParams { token_pair: pair(), shares: 2, min_amount0: 0, min_amount1: 0 };
    assert_eq!(state.remove_liquidity(&Address::Account(bob()), &all), Ok((9, 1)));
}

#[test]
fn single_unit_swap_rounds_to_nothing() {
    // 1 * 997 * 400 / (100 * 1000 + 997) = 398_800 / 100_997 = 3
    assert_eq!(calculate_amount_out(1, 100, 400), 3);
    // 1 * 997 * 100 / (400 * 1000 + 997) = 99_700 / 400_997 = 0
    assert_eq!(calculate_amount_out(1, 400, 100), 0);
    assert_eq!(calculate_amount_out(u64::MAX, 1, u64::MAX), u64::MAX - 2);
    assert_eq!(calculate_amount_out(u64::MAX, u64::MAX, u64::MAX), (997u128 * u64::MAX as u128 / 1997) as u64);
}
