//! Accounting core of a constant-product token exchange.
//!
//! The crate keeps, per ordered token pair, a liquidity pool (two reserves and
//! the number of shares issued against them) and, per pair and owner, the
//! shares that owner holds. Liquidity can be added and removed against shares,
//! and one token of a pair can be swapped for the other at the constant-product
//! price less a fee of 0.3%.
//!
//! Moving tokens between accounts and the exchange's custody is not done here:
//! the crate says which transfers an operation needs and what follows from
//! their outcome.

pub mod book;
pub mod exchange;
pub mod keyed;
pub mod ledger;
pub mod math;
pub mod pool;
pub mod pricing;
pub mod registry;
pub mod snapshot;
pub mod state;
pub mod types;

