//! A liquidity lockbox: a ledger of custodied concentrated-liquidity positions
//! that backs a fungible bridged token one-to-one with the locked liquidity.
//!
//! The crate verifies the lockbox core: the fixed-point price math that sizes
//! liquidity deltas, the position ledger with its conservation invariant
//! (`total_liquidity` always equals the liquidity remaining in the active
//! records), and the deposit / withdrawal / allocation-query operations.
//! The host chain's account wiring, token mint/burn and cross-program calls
//! sit outside this crate; the operations here make every decision those
//! calls depend on and report exactly what must be minted, burned, decreased
//! or closed.
//!
//! Consumption order is a policy choice and this ledger fixes it to
//! oldest-first: a withdrawal drains records in deposit order, and the
//! read-only allocation query follows the very same selection function, so
//! the accounts a caller pre-computes are the accounts the withdrawal
//! touches.

pub mod errors;
pub mod state;
pub mod wide;
pub mod math;
pub mod deposit;
pub mod withdraw;
