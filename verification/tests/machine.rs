use dex_contract::exchange::{
    transfer_token, Action, CallContext, Exchange, Operation, TransferFailed, TransferRequest,
};
use dex_contract::math::{isqrt, mul_div};
use dex_contract::pool::LiquidityPool;
use dex_contract::types::{
    AccountAddress, AddLiquidityParams, Address, ContractAddress, Error, RemoveLiquidityParams,
    SwapParams, TokenPair,
};

fn token0() -> ContractAddress {
    ContractAddress { index: 1, subindex: 0 }
}

fn token1() -> ContractAddress {
    ContractAddress { index: 2, subindex: 5 }
}

fn custody() -> ContractAddress {
    ContractAddress { index: 77, subindex: 0 }
}

fn tokens() -> TokenPair {
    TokenPair { token0_address: token0(), token1_address: token1(), token0_id: 3, token1_id: 4 }
}

fn carol() -> AccountAddress {
    AccountAddress([9u8; 32])
}

fn call() -> CallContext {
    CallContext { sender: Address::Account(carol()), self_address: custody() }
}

fn run(exchange: &mut Exchange, operation: Operation, fail_at: Option<usize>) -> (Vec<TransferRequest>, Result<(), Error>) {
    assert!(exchange.is_idle());
    assert!(exchange.accepts(&call(), &operation));
    let mut made = Vec::new();
    let mut action = exchange.begin(call(), operation);
    loop {
        match action {
            Action::Reply(result) => {
                assert!(exchange.is_idle());
                return (made, result);
            }
            Action::Transfer(request) => {
                assert!(!exchange.is_idle());
                let outcome = if fail_at == Some(made.len()) { Err(TransferFailed) } else { Ok(()) };
                made.push(request);
                action = exchange.resume(outcome);
            }
        }
    }
}

fn deposit(amount0: u64, amount1: u64, min_liquidity: u64) -> Operation {
    Operation::AddLiquidity(AddLiquidityParams { token_pair: tokens(), amount0, amount1, min_liquidity })
}

fn open_exchange() -> Exchange {
    let mut exchange = Exchange::new();
    let (_, result) = run(&mut exchange, deposit(100, 400, 200), None);
    assert_eq!(result, Ok(()));
    exchange
}

fn pool_of(exchange: &Exchange) -> Option<LiquidityPool> {
    exchange.state().get_pool(&tokens())
}

#[test]
fn transfer_request_keeps_its_parts() {
    let request = transfer_token(token1(), 4, Address::Contract(custody()), Address::Account(carol()), 55);
    assert_eq!(
        request,
        TransferRequest {
            token_address: token1(),
            token_id: 4,
            from: Address::Contract(custody()),
            to: Address::Account(carol()),
            amount: 55,
        }
    );
}

#[test]
fn adding_liquidity_deposits_both_tokens_first() {
    let mut exchange = Exchange::new();
    let (made, result) = run(&mut exchange, deposit(100, 400, 0), None);
    assert_eq!(result, Ok(()));
    assert_eq!(
        made,
        vec![
            TransferRequest {
                token_address: token0(),
                token_id: 3,
                from: Address::Account(carol()),
                to: Address::Contract(custody()),
                amount: 100,
            },
            TransferRequest {
                token_address: token1(),
                token_id: 4,
                from: Address::Account(carol()),
                to: Address::Contract(custody()),
                amount: 400,
            },
        ]
    );
    assert_eq!(
        pool_of(&exchange),
        Some(LiquidityPool { token0_reserve: 100, token1_reserve: 400, total_shares: 200 })
    );
    assert_eq!(exchange.state().get_shares(&tokens(), &carol()), 200);
}

#[test]
fn adding_liquidity_is_checked_after_deposits() {
    let mut exchange = Exchange::new();
    let (made, result) = run(&mut exchange, deposit(100, 400, 201), None);
    assert_eq!(made.len(), 2);
    assert_eq!(result, Err(Error::InsufficientLiquidity));
    assert_eq!(pool_of(&exchange), None);
}

#[test]
fn failed_deposit_ends_the_operation() {
    let mut exchange = Exchange::new();
    let (made, result) = run(&mut exchange, deposit(100, 400, 0), Some(0));
    assert_eq!(made.len(), 1);
    assert_eq!(result, Err(Error::TransferError));
    assert_eq!(pool_of(&exchange), None);
    let (made, result) = run(&mut exchange, deposit(100, 400, 0), Some(1));
    assert_eq!(made.len(), 2);
    assert_eq!(result, Err(Error::TransferError));
    assert_eq!(pool_of(&exchange), None);
    assert_eq!(exchange.state().get_shares(&tokens(), &carol()), 0);
}

#[test]
fn swapping_takes_in_then_pays_out() {
    let mut exchange = open_exchange();
    let swap = Operation::Swap(SwapParams { token_pair: tokens(), amount_in: 10, min_amount_out: 36, is_token0: true });
    let (made, result) = run(&mut exchange, swap, None);
    assert_eq!(result, Ok(()));
    assert_eq!(
        made,
        vec![
            TransferRequest {
                token_address: token0(),
                token_id: 3,
                from: Address::Account(carol()),
                to: Address::Contract(custody()),
                amount: 10,
            },
            TransferRequest {
                token_address: token1(),
                token_id: 4,
                from: Address::Contract(custody()),
                to: Address::Account(carol()),
                amount: 36,
            },
        ]
    );
    assert_eq!(
        pool_of(&exchange),
        Some(LiquidityPool { token0_reserve: 110, token1_reserve: 364, total_shares: 200 })
    );
}

#[test]
fn swapping_second_token_pays_out_first() {
    let mut exchange = open_exchange();
    let swap = Operation::Swap(SwapParams { token_pair: tokens(), amount_in: 40, min_amount_out: 0, is_token0: false });
    let (made, result) = run(&mut exchange, swap, None);
    assert_eq!(result, Ok(()));
    assert_eq!(made[0].token_address, token1());
    assert_eq!(made[0].token_id, 4);
    assert_eq!(made[0].amount, 40);
    assert_eq!(made[1].token_address, token0());
    assert_eq!(made[1].token_id, 3);
    assert_eq!(made[1].from, Address::Contract(custody()));
    assert_eq!(made[1].to, Address::Account(carol()));
    assert_eq!(made[1].amount, 9);
}

#[test]
fn rejected_swap_moves_no_tokens() {
    let mut exchange = open_exchange();
    let swap = Operation::Swap(SwapParams { token_pair: tokens(), amount_in: 10, min_amount_out: 37, is_token0: true });
    let (made, result) = run(&mut exchange, swap, None);
    assert!(made.is_empty());
    assert_eq!(result, Err(Error::InsufficientAmount));
    assert_eq!(
        pool_of(&exchange),
        Some(LiquidityPool { token0_reserve: 100, token1_reserve: 400, total_shares: 200 })
    );
}

#[test]
fn failed_swap_transfer_leaves_reserves() {
    for fail_at in [0usize, 1] {
        let mut exchange = open_exchange();
        let swap = Operation::Swap(SwapParams { token_pair: tokens(), amount_in: 10, min_amount_out: 0, is_token0: true });
        let (made, result) = run(&mut exchange, swap, Some(fail_at));
        assert_eq!(made.len(), fail_at + 1);
        assert_eq!(result, Err(Error::TransferError));
        assert_eq!(
            pool_of(&exchange),
            Some(LiquidityPool { token0_reserve: 100, token1_reserve: 400, total_shares: 200 })
        );
    }
}

#[test]
fn removing_liquidity_pays_out_of_custody() {
    let mut exchange = open_exchange();
    let remove = Operation::RemoveLiquidity(RemoveLiquidityParams { token_pair: tokens(), shares: 50, min_amount0: 0, min_amount1: 0 });
    let (made, result) = run(&mut exchange, remove, None);
    assert_eq!(result, Ok(()));
    assert_eq!(
        made,
        vec![
            TransferRequest {
                token_address: token0(),
                token_id: 3,
                from: Address::Contract(custody()),
                to: Address::Account(carol()),
                amount: 25,
            },
            TransferRequest {
                token_address: token1(),
                token_id: 4,
                from: Address::Contract(custody()),
                to: Address::Account(carol()),
                amount: 100,
            },
        ]
    );
    assert_eq!(
        pool_of(&exchange),
        Some(LiquidityPool { token0_reserve: 75, token1_reserve: 300, total_shares: 150 })
    );
    assert_eq!(exchange.state().get_shares(&tokens(), &carol()), 150);
}

#[test]
fn rejected_removal_moves_no_tokens() {
    let mut exchange = open_exchange();
    let remove = Operation::RemoveLiquidity(RemoveLiquidityParams { token_pair: tokens(), shares: 201, min_amount0: 0, min_amount1: 0 });
    let (made, result) = run(&mut exchange, remove, None);
    assert!(made.is_empty());
    assert_eq!(result, Err(Error::InsufficientShares));
    assert_eq!(exchange.state().get_shares(&tokens(), &carol()), 200);
}

#[test]
fn failed_payout_keeps_shares() {
    let mut exchange = open_exchange();
    let remove = Operation::RemoveLiquidity(RemoveLiquidityParams { token_pair: tokens(), shares: 50, min_amount0: 0, min_amount1: 0 });
    let (made, result) = run(&mut exchange, remove, Some(1));
    assert_eq!(made.len(), 2);
    assert_eq!(result, Err(Error::TransferError));
    assert_eq!(exchange.state().get_shares(&tokens(), &carol()), 200);
    assert_eq!(
        pool_of(&exchange),
        Some(LiquidityPool { token0_reserve: 100, token1_reserve: 400, total_shares: 200 })
    );
}

#[test]
fn square_root_rounds_down() {
    assert_eq!(isqrt(0), 0);
    assert_eq!(isqrt(1), 1);
    assert_eq!(isqrt(3), 1);
    assert_eq!(isqrt(4), 2);
    assert_eq!(isqrt(40000), 200);
    assert_eq!(isqrt(40400), 200);
    assert_eq!(isqrt(40401), 201);
    assert_eq!(isqrt(u128::MAX), u64::MAX);
    assert_eq!(isqrt((u64::MAX as u128) * (u64::MAX as u128)), u64::MAX);
    assert_eq!(isqrt((u64::MAX as u128) * (u64::MAX as u128) - 1), u64::MAX - 1);
}

#[test]
fn scaled_quotient_is_exact_beyond_128_bits() {
    assert_eq!(mul_div(9970, 400, 109970), 36);
    assert_eq!(mul_div(0, u64::MAX, 1), 0);
    assert_eq!(mul_div(1, u64::MAX, 1), u64::MAX);
    let limit = 1u128 << 95;
    assert_eq!(mul_div(limit, u64::MAX, limit), u64::MAX);
    assert_eq!(mul_div(limit - 1, u64::MAX, limit), u64::MAX - 1);
    // (2^80 + 1) * (2^64 - 1) / (2^81 + 3): by hand, in two halves
    let x = (1u128 << 80) + 1;
    let d = (1u128 << 81) + 3;
    // x * y = 2^144 - 2^80 + 2^64 - 1; d * (2^63 - 1) = 2^144 + 3 * 2^63 - 2^81 - 3
    assert_eq!(mul_div(x, u64::MAX, d), (1u64 << 63) - 1);
}
