//! The exchange and its custody.
//!
//! Tokens are moved by the token contracts, not by the exchange. So an
//! operation runs in steps: the exchange says which transfer it needs next,
//! the host makes the transfer and reports how it went, and the exchange goes
//! on from there. Every operation needs two transfers, in a fixed order, and
//! ends with a reply. Where the reply is an error, the host undoes whatever
//! transfers the operation has made; the exchange's own state is then as it
//! was before the call.

use crate::book::Book;
use crate::state::State;
use crate::types::{
    AddLiquidityParams, Address, ContractAddress, ContractTokenId, Error, RemoveLiquidityParams,
    SwapParams, TokenAmount, TokenPair,
};
use vstd::prelude::*;

verus! {

/// Who calls, and the exchange's own address, under which it holds tokens in
/// custody.
#[derive(Clone, Copy, Debug, PartialEq, Eq)]
pub struct CallContext {
    pub sender: Address,
    pub self_address: ContractAddress,
}

/// A call to the exchange that moves tokens.
#[derive(Clone, Copy, Debug, PartialEq, Eq)]
pub enum Operation {
    AddLiquidity(AddLiquidityParams),
    RemoveLiquidity(RemoveLiquidityParams),
    Swap(SwapParams),
}

/// A transfer of `amount` of one token from `from` to `to`, to be made by the
/// contract that issues the token.
#[derive(Clone, Copy, Debug, PartialEq, Eq)]
pub struct TransferRequest {
    pub token_address: ContractAddress,
    pub token_id: ContractTokenId,
    pub from: Address,
    pub to: Address,
    pub amount: TokenAmount,
}

/// A transfer was not made; the token contract's reasons are not told apart.
#[derive(Clone, Copy, Debug, PartialEq, Eq)]
pub struct TransferFailed;

/// What the exchange asks of the host next.
#[derive(Clone, Copy, Debug, PartialEq, Eq)]
pub enum Action {
    /// Make this transfer, and report how it went.
    Transfer(TransferRequest),
    /// The operation is over, with this result.
    Reply(Result<(), Error>),
}

/// An operation under way: the call, and how many of its two transfers have
/// been made.
#[derive(Clone, Copy, Debug, PartialEq, Eq)]
pub struct Pending {
    pub ctx: CallContext,
    pub operation: Operation,
    pub transfers_done: u8,
}

/// The request to transfer `amount` of the token `token_id` of
/// `token_address` from `from` to `to`.
pub fn transfer_token(
    token_address: ContractAddress,
    token_id: ContractTokenId,
    from: Address,
    to: Address,
    amount: TokenAmount,
) -> (request: TransferRequest)
    ensures
        request == (TransferRequest { token_address, token_id, from, to, amount }),
{
    TransferRequest { token_address, token_id, from, to, amount }
}

/// A result without what it carries on success.
pub open spec fn outcome_of<T>(result: Result<T, Error>) -> Result<(), Error> {
    match result {
        Ok(_) => Ok(()),
        Err(error) => Err(error),
    }
}

/// The contract that issues a token of the pair: the first token's where
/// `first` holds, the second's otherwise.
pub open spec fn token_address_of(pair: TokenPair, first: bool) -> ContractAddress {
    if first {
        pair.token0_address
    } else {
        pair.token1_address
    }
}

/// The identifier of a token of the pair: the first token's where `first`
/// holds, the second's otherwise.
pub open spec fn token_id_of(pair: TokenPair, first: bool) -> ContractTokenId {
    if first {
        pair.token0_id
    } else {
        pair.token1_id
    }
}

/// What is checked of a call before any transfer is asked for. Adding
/// liquidity is checked once its deposits are in custody; removing liquidity
/// and swapping are checked at once, so that a call that will be rejected
/// moves no tokens.
pub open spec fn admitted(book: Book, ctx: CallContext, operation: Operation) -> Result<(), Error> {
    match operation {
        Operation::AddLiquidity(_) => Ok(()),
        Operation::RemoveLiquidity(params) => outcome_of(
            book.remove_liquidity_result(ctx.sender, params),
        ),
        Operation::Swap(params) => outcome_of(book.swap_result(params)),
    }
}

/// Whether a call is within the machine's range; see
/// [`Book::fits_add_liquidity`] and [`Book::fits_swap`]. Removing liquidity
/// always is.
pub open spec fn fits(book: Book, ctx: CallContext, operation: Operation) -> bool {
    match operation {
        Operation::AddLiquidity(params) => book.fits_add_liquidity(ctx.sender, params),
        Operation::RemoveLiquidity(_) => true,
        Operation::Swap(params) => book.fits_swap(params),
    }
}

/// The transfers of an operation: the first where `first` holds, the second
/// otherwise.
///
/// - Adding liquidity: `amount0` of the first token, then `amount1` of the
///   second, from the caller into custody.
/// - Removing liquidity: what the shares redeem of the first token, then of
///   the second, out of custody to the caller.
/// - Swapping: `amount_in` of the token paid in, from the caller into
///   custody; then what the swap pays out of the other token, out of custody
///   to the caller.
pub open spec fn transfer_of(
    book: Book,
    ctx: CallContext,
    operation: Operation,
    first: bool,
) -> TransferRequest {
    let custody = Address::Contract(ctx.self_address);
    match operation {
        Operation::AddLiquidity(params) => TransferRequest {
            token_address: token_address_of(params.token_pair, first),
            token_id: token_id_of(params.token_pair, first),
            from: ctx.sender,
            to: custody,
            amount: if first {
                params.amount0
            } else {
                params.amount1
            },
        },
        Operation::RemoveLiquidity(params) => TransferRequest {
            token_address: token_address_of(params.token_pair, first),
            token_id: token_id_of(params.token_pair, first),
            from: custody,
            to: ctx.sender,
            amount: if first {
                book.pool(params.token_pair).redeemed0(params.shares) as u64
            } else {
                book.pool(params.token_pair).redeemed1(params.shares) as u64
            },
        },
        Operation::Swap(params) => if first {
            TransferRequest {
                token_address: token_address_of(params.token_pair, params.is_token0),
                token_id: token_id_of(params.token_pair, params.is_token0),
                from: ctx.sender,
                to: custody,
                amount: params.amount_in,
            }
        } else {
            TransferRequest {
                token_address: token_address_of(params.token_pair, !params.is_token0),
                token_id: token_id_of(params.token_pair, !params.is_token0),
                from: custody,
                to: ctx.sender,
                amount: book.pool(params.token_pair).swap_output(
                    params.amount_in,
                    params.is_token0,
                ) as u64,
            }
        },
    }
}

/// How an operation ends once both its transfers are made.
pub open spec fn settled_result(book: Book, ctx: CallContext, operation: Operation) -> Result<
    (),
    Error,
> {
    match operation {
        Operation::AddLiquidity(params) => book.add_liquidity_result(ctx.sender, params),
        Operation::RemoveLiquidity(params) => outcome_of(
            book.remove_liquidity_result(ctx.sender, params),
        ),
        Operation::Swap(params) => outcome_of(book.swap_result(params)),
    }
}

/// The books once both transfers of an operation are made.
pub open spec fn settled_book(book: Book, ctx: CallContext, operation: Operation) -> Book {
    match operation {
        Operation::AddLiquidity(params) => book.add_liquidity(ctx.sender, params),
        Operation::RemoveLiquidity(params) => book.remove_liquidity(ctx.sender, params),
        Operation::Swap(params) => book.swap(params),
    }
}

/// An operation under way was admitted on the books as they are, fits them,
/// and has at most one transfer behind it.
pub open spec fn in_order(book: Book, pending: Option<Pending>) -> bool {
    match pending {
        None => true,
        Some(pending) => {
            &&& pending.transfers_done <= 1
            &&& admitted(book, pending.ctx, pending.operation) is Ok
            &&& fits(book, pending.ctx, pending.operation)
        },
    }
}

/// The exchange: its state, and the operation under way if there is one.
/// An operation under way is in order at all times; see [`in_order`].
pub struct Exchange {
    state: State,
    pending: Option<Pending>,
}

impl Exchange {
    /// The books of the exchange.
    pub closed spec fn book(&self) -> Book {
        self.state@
    }

    /// The operation under way, if there is one.
    pub closed spec fn pending(&self) -> Option<Pending> {
        self.pending
    }

    /// The operation under way is in order; this holds of every exchange at
    /// all times.
    #[verifier::type_invariant]
    closed spec fn pending_in_order(&self) -> bool {
        in_order(self.state@, self.pending)
    }

    /// An exchange on which nothing has happened yet.
    pub fn new() -> (exchange: Exchange)
        ensures
            exchange.book() == Book::empty(),
            exchange.pending() is None,
    {
        Exchange { state: State::new(), pending: None }
    }

    /// An exchange that goes on from `state`.
    pub fn from_state(state: State) -> (exchange: Exchange)
        ensures
            exchange.book() == state@,
            exchange.pending() is None,
    {
        Exchange { state, pending: None }
    }

    /// The state of the exchange, whole.
    pub fn state(&self) -> (state: &State)
        ensures
            state@ == self.book(),
    {
        &self.state
    }

    /// Does nothing, and tells the caller what holds of every exchange: its
    /// books are well-formed, and the operation under way is in order.
    pub fn well_formed(&self)
        ensures
            self.book().wf(),
            in_order(self.book(), self.pending()),
    {
        self.state.well_formed();
        proof {
            use_type_invariant(self);
        }
    }

    /// Whether no operation is under way.
    pub fn is_idle(&self) -> (idle: bool)
        ensures
            idle == (self.pending() is None),
    {
        self.pending.is_none()
    }

    /// Whether a call is within the machine's range; see [`fits`].
    pub fn accepts(&self, ctx: &CallContext, operation: &Operation) -> (accepted: bool)
        ensures
            accepted == fits(self.book(), *ctx, *operation),
    {
        match operation {
            Operation::AddLiquidity(params) => self.state.fits_add_liquidity(&ctx.sender, params),
            Operation::RemoveLiquidity(_) => true,
            Operation::Swap(params) => self.state.fits_swap(params),
        }
    }

    /// The transfer of an admitted operation: its first where `first` holds,
    /// its second otherwise.
    fn due(&self, ctx: &CallContext, operation: &Operation, first: bool) -> (request:
        TransferRequest)
        requires
            admitted(self.book(), *ctx, *operation) is Ok,
            fits(self.book(), *ctx, *operation),
        ensures
            request == transfer_of(self.book(), *ctx, *operation, first),
    {
        let custody = Address::Contract(ctx.self_address);
        match operation {
            Operation::AddLiquidity(params) => {
                if first {
                    transfer_token(
                        params.token_pair.token0_address,
                        params.token_pair.token0_id,
                        ctx.sender,
                        custody,
                        params.amount0,
                    )
                } else {
                    transfer_token(
                        params.token_pair.token1_address,
                        params.token_pair.token1_id,
                        ctx.sender,
                        custody,
                        params.amount1,
                    )
                }
            },
            Operation::RemoveLiquidity(params) => {
                let amounts = self.state.quote_remove_liquidity(&ctx.sender, params).unwrap();
                if first {
                    transfer_token(
                        params.token_pair.token0_address,
                        params.token_pair.token0_id,
                        custody,
                        ctx.sender,
                        amounts.0,
                    )
                } else {
                    transfer_token(
                        params.token_pair.token1_address,
                        params.token_pair.token1_id,
                        custody,
                        ctx.sender,
                        amounts.1,
                    )
                }
            },
            Operation::Swap(params) => {
                let first_token_in = params.is_token0;
                if first {
                    if first_token_in {
                        transfer_token(
                            params.token_pair.token0_address,
                            params.token_pair.token0_id,
                            ctx.sender,
                            custody,
                            params.amount_in,
                        )
                    } else {
                        transfer_token(
                            params.token_pair.token1_address,
                            params.token_pair.token1_id,
                            ctx.sender,
                            custody,
                            params.amount_in,
                        )
                    }
                } else {
                    let out: u64 = self.state.quote_swap(params).unwrap();
                    if first_token_in {
                        transfer_token(
                            params.token_pair.token1_address,
                            params.token_pair.token1_id,
                            custody,
                            ctx.sender,
                            out,
                        )
                    } else {
                        transfer_token(
                            params.token_pair.token0_address,
                            params.token_pair.token0_id,
                            custody,
                            ctx.sender,
                            out,
                        )
                    }
                }
            },
        }
    }

    /// Whether the call is admitted; see [`admitted`].
    fn admit_call(&self, ctx: &CallContext, operation: &Operation) -> (checked: Result<(), Error>)
        requires
            fits(self.book(), *ctx, *operation),
        ensures
            checked == admitted(self.book(), *ctx, *operation),
    {
        match operation {
            Operation::AddLiquidity(_) => Ok(()),
            Operation::RemoveLiquidity(params) => {
                match self.state.quote_remove_liquidity(&ctx.sender, params) {
                    Ok(_) => Ok(()),
                    Err(error) => Err(error),
                }
            },
            Operation::Swap(params) => {
                match self.state.quote_swap(params) {
                    Ok(_) => Ok(()),
                    Err(error) => Err(error),
                }
            },
        }
    }

    /// Takes a call. The books stay as they are.
    ///
    /// Where the call is not admitted, the reply is its error, and no
    /// transfer is asked for. Otherwise the operation is under way, and its
    /// first transfer is asked for.
    pub fn begin(&mut self, ctx: CallContext, operation: Operation) -> (action: Action)
        requires
            old(self).pending() is None,
            fits(old(self).book(), ctx, operation),
        ensures
            final(self).book() == old(self).book(),
            match admitted(old(self).book(), ctx, operation) {
                Err(error) => action == Action::Reply(Err(error)) && final(self).pending() is None,
                Ok(_) => action == Action::Transfer(
                    transfer_of(old(self).book(), ctx, operation, true),
                ) && final(self).pending() == Some(Pending { ctx, operation, transfers_done: 0 }),
            },
    {
        match self.admit_call(&ctx, &operation) {
            Err(error) => Action::Reply(Err(error)),
            Ok(_) => {
                let request = self.due(&ctx, &operation, true);
                self.pending = Some(Pending { ctx, operation, transfers_done: 0 });
                Action::Transfer(request)
            },
        }
    }

    /// Goes on with the operation under way, after the transfer last asked
    /// for.
    ///
    /// - Where the transfer failed, the operation is over: the reply is
    ///   `TransferError`, and the books are as they were.
    /// - After the first transfer, the second is asked for.
    /// - After the second, the operation settles: the books change as the
    ///   operation says, or stay as they are if it is rejected now, and the
    ///   reply is its result.
    pub fn resume(&mut self, outcome: Result<(), TransferFailed>) -> (action: Action)
        requires
            old(self).pending() is Some,
        ensures
            final(self).book().wf(),
            ({
                let book = old(self).book();
                let pending = old(self).pending()->Some_0;
                if outcome is Err {
                    &&& action == Action::Reply(Err(Error::TransferError))
                    &&& final(self).book() == book
                    &&& final(self).pending() is None
                } else if pending.transfers_done == 0 {
                    &&& action == Action::Transfer(
                        transfer_of(book, pending.ctx, pending.operation, false),
                    )
                    &&& final(self).book() == book
                    &&& final(self).pending() == Some(Pending { transfers_done: 1, ..pending })
                } else {
                    &&& action == Action::Reply(
                        settled_result(book, pending.ctx, pending.operation),
                    )
                    &&& final(self).book() == settled_book(book, pending.ctx, pending.operation)
                    &&& final(self).pending() is None
                }
            }),
    {
        self.well_formed();
        let pending = self.pending.unwrap();
        if outcome.is_err() {
            self.pending = None;
            return Action::Reply(Err(Error::TransferError));
        }
        if pending.transfers_done == 0 {
            let request = self.due(&pending.ctx, &pending.operation, false);
            self.pending = Some(
                Pending { ctx: pending.ctx, operation: pending.operation, transfers_done: 1 },
            );
            return Action::Transfer(request);
        }
        self.pending = None;
        let mut state = State::new();
        core::mem::swap(&mut state, &mut self.state);
        let result = match pending.operation {
            Operation::AddLiquidity(params) => state.add_liquidity(&pending.ctx.sender, &params),
            Operation::RemoveLiquidity(params) => {
                match state.remove_liquidity(&pending.ctx.sender, &params) {
                    Ok(_) => Ok(()),
                    Err(error) => Err(error),
                }
            },
            Operation::Swap(params) => {
                match state.swap(&params) {
                    Ok(_) => Ok(()),
                    Err(error) => Err(error),
                }
            },
        };
        self.state = state;
        Action::Reply(result)
    }
}

} // verus!
