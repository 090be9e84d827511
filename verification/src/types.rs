//! The plain values that the exchange works on: addresses, token pairs, the
//! parameters of the three operations, and the errors they end in.

use vstd::prelude::*;

verus! {

/// The amount of a token, or of shares, in its smallest unit.
pub type TokenAmount = u64;

/// The identifier of a token within the contract that issues it.
pub type ContractTokenId = u8;

/// The address of a contract: its index and subindex on the chain.
#[derive(Clone, Copy, Debug, PartialEq, Eq, Structural)]
pub struct ContractAddress {
    pub index: u64,
    pub subindex: u64,
}

/// The address of an account: 32 bytes.
#[derive(Clone, Copy, Debug, PartialEq, Eq)]
pub struct AccountAddress(pub [u8; 32]);

impl AccountAddress {
    /// Whether two account addresses are the same, byte for byte.
    pub fn same_as(&self, other: &AccountAddress) -> (same: bool)
        ensures
            same == (*self == *other),
    {
        let mut i: usize = 0;
        while i < 32
            invariant
                i <= 32,
                forall|j: int| 0 <= j < i ==> self.0[j] == other.0[j],
            decreases 32 - i,
        {
            if self.0[i] != other.0[i] {
                return false;
            }
            i += 1;
        }
        assert(self.0 =~= other.0);
        true
    }
}

/// Who calls an operation, or takes part in a transfer: an account or a
/// contract.
#[derive(Clone, Copy, Debug, PartialEq, Eq)]
pub enum Address {
    Account(AccountAddress),
    Contract(ContractAddress),
}

/// Two tokens, each named by the contract that issues it and its identifier
/// there. The order counts: a pair and its reverse are two pairs, with a pool
/// each.
#[derive(Clone, Copy, Debug, PartialEq, Eq, Structural)]
pub struct TokenPair {
    pub token0_address: ContractAddress,
    pub token1_address: ContractAddress,
    pub token0_id: ContractTokenId,
    pub token1_id: ContractTokenId,
}

/// How the token contract may refuse a transfer.
#[derive(Clone, Copy, Debug, PartialEq, Eq, Structural)]
pub enum Cis2Error {
    InvalidTokenId,
    InsufficientFunds,
    Unauthorized,
    /// A failure of the token contract's own, by its error code.
    Custom(i32),
}

/// Why an operation was rejected. A rejected operation leaves pools and shares
/// as they were.
#[derive(Clone, Copy, Debug, PartialEq, Eq, Structural)]
pub enum Error {
    /// The input was malformed, or the caller is not an account where only an
    /// account can hold shares.
    ParseParams,
    /// Adding liquidity would mint fewer shares than the caller asked for.
    InsufficientLiquidity,
    /// The pair has no pool.
    PoolNotFound,
    InvalidTokenPair,
    /// The operation would pay out less than the caller asked for.
    InsufficientAmount,
    /// The token contract refused a transfer, and said why.
    Cis2Error(Cis2Error),
    /// The caller holds fewer shares than are to be redeemed.
    InsufficientShares,
    /// A transfer of tokens failed.
    TransferError,
    UnauthorizedToken,
    FailedTokenTransfer,
}

/// Parameters for adding liquidity: the amounts of the pair's two tokens to
/// pay in, and the least number of shares the caller accepts for them.
#[derive(Clone, Copy, Debug, PartialEq, Eq)]
pub struct AddLiquidityParams {
    pub token_pair: TokenPair,
    pub amount0: TokenAmount,
    pub amount1: TokenAmount,
    pub min_liquidity: TokenAmount,
}

/// Parameters for swapping: the amount to pay in, the least amount the caller
/// accepts in return, and whether the pair's first token is the one paid in.
#[derive(Clone, Copy, Debug, PartialEq, Eq)]
pub struct SwapParams {
    pub token_pair: TokenPair,
    pub amount_in: TokenAmount,
    pub min_amount_out: TokenAmount,
    pub is_token0: bool,
}

/// Parameters for removing liquidity: the shares to redeem, and the least
/// amount of each token the caller accepts for them.
#[derive(Clone, Copy, Debug, PartialEq, Eq)]
pub struct RemoveLiquidityParams {
    pub token_pair: TokenPair,
    pub shares: TokenAmount,
    pub min_amount0: TokenAmount,
    pub min_amount1: TokenAmount,
}

} // verus!
