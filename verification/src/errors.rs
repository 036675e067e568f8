//! Error taxonomy of the lockbox core.
//!
//! Every failure an operation can report is one of these variants; each
//! operation's contract states exactly which inputs produce which variant.

use vstd::prelude::*;

verus! {

/// Failure codes of the lockbox operations.
///
/// The variants fall into the classes: input validation (zero or oversized
/// amounts, wrong identities, out-of-range ticks), numeric accounting
/// (overflow of a liquidity counter; underflow is ruled out by the ledger
/// invariant, so no variant exists for it), and selection exhaustion
/// (a withdrawal that no record, or the whole ledger, can cover).
#[derive(Clone, Copy, Debug, PartialEq, Eq, Structural)]
pub enum ErrorCode {
    /// A liquidity counter would exceed `u64::MAX`.
    LiquidityOverflow,
    /// The position belongs to a different pool than the lockbox manages.
    WrongWhirlpool,
    /// The position account's data does not carry the position discriminator.
    WrongPositionHeader,
    /// No record with the given identifier is available.
    WrongPositionId,
    /// An amount that must be positive is zero.
    LiquidityZero,
    /// A freshly custodied position must hold no liquidity yet.
    LiquidityNotZero,
    /// The ledger as a whole holds no liquidity.
    TotalLiquidityZero,
    /// The token cost of a liquidity delta exceeds the caller's stated maximum.
    DeltaAmountOverflow,
    /// The requested amount exceeds one record's remaining liquidity.
    AmountExceedsPositionLiquidity,
    /// The requested amount exceeds the ledger's total liquidity.
    AmountExceedsTotalLiquidity,
    /// A tick index lies outside the supported full range, or the pool's
    /// current tick lies outside the position's range.
    OutOfRange,
    /// A square-root price range with `lower >= upper` was supplied.
    InvalidPriceRange,
    /// A computed value does not fit the target integer width.
    NumericDowncastError,
}

} // verus!
