//! Deposit operations: taking custody of a whole position, or adding a
//! liquidity delta to an already custodied one.
//!
//! Both paths mint bridged tokens one-to-one with the liquidity they add.
//! `deposit` appends a new record for a position whose entire liquidity is
//! taken into custody; `deposit_delta` sizes a delta from a one-sided token
//! amount with the fixed-point price math and extends an existing record.
//! The validation helpers mirror the plain-value checks made on a position
//! before either path may run.

use vstd::prelude::*;
use crate::errors::ErrorCode;
use crate::math::{amount_a_for_liquidity, liquidity_for_amount_a, liquidity_from_token_a, token_a_from_liquidity};
use crate::state::{
    AccountId, LiquidityLockbox, LockboxPosition, lemma_sum_liquidity_agree,
    lemma_sum_liquidity_snoc, lemma_sum_liquidity_update,
};

verus! {

/// Lower tick index of the single supported full-range position.
pub const TICK_LOWER_INDEX: i32 = -443584;

/// Upper tick index of the single supported full-range position.
pub const TICK_UPPER_INDEX: i32 = 443584;

/// Decimals of the bridged token; amounts are minted one-to-one with
/// liquidity in base units, so this only fixes the display scaling.
pub const BRIDGED_TOKEN_DECIMALS: u8 = 8;

/// Byte length of a position account's data.
pub const POSITION_DATA_LEN: usize = 216;

/// The eight discriminator bytes of a position account, read as a
/// little-endian 64-bit integer.
pub const POSITION_HEADER: u64 = 0xd0f7407ae48fbcaa;

/// The pool-position fields that the lockbox reads: which pool the position
/// belongs to, its claim-token mint, its liquidity and its tick range.
#[derive(Clone, Copy, Debug, PartialEq, Eq, Structural)]
pub struct PositionData {
    pub whirlpool: AccountId,
    pub position_mint: AccountId,
    pub liquidity: u128,
    pub tick_lower_index: i32,
    pub tick_upper_index: i32,
}

/// The first eight bytes of an account's data, read as a little-endian
/// 64-bit integer.
pub open spec fn discriminator_of(data: Seq<u8>) -> int
    recommends
        data.len() >= 8,
{
    data[0] + data[1] * 0x100 + data[2] * 0x10000 + data[3] * 0x1000000
        + data[4] * 0x100000000 + data[5] * 0x10000000000
        + data[6] * 0x1000000000000 + data[7] * 0x100000000000000
}

/// Checks that raw account data has the exact length and discriminator of a
/// pool position account; anything else fails with `WrongPositionHeader`.
pub fn validate_position_data(data: &Vec<u8>) -> (r: Result<(), ErrorCode>)
    ensures
        r == if data@.len() == POSITION_DATA_LEN && discriminator_of(data@) == POSITION_HEADER {
            Ok::<(), ErrorCode>(())
        } else {
            Err::<(), ErrorCode>(ErrorCode::WrongPositionHeader)
        },
{
    if data.len() != POSITION_DATA_LEN {
        return Err(ErrorCode::WrongPositionHeader);
    }
    let discriminator: u64 = data[0] as u64 + data[1] as u64 * 0x100 + data[2] as u64 * 0x10000
        + data[3] as u64 * 0x1000000 + data[4] as u64 * 0x100000000
        + data[5] as u64 * 0x10000000000 + data[6] as u64 * 0x1000000000000
        + data[7] as u64 * 0x100000000000000;
    if discriminator == POSITION_HEADER {
        Ok(())
    } else {
        Err(ErrorCode::WrongPositionHeader)
    }
}

/// Validates a position offered for initial custody: it must belong to the
/// expected pool, hold no liquidity yet, and span the supported full range.
pub fn validate_initial_position(position: &PositionData, expected_whirlpool: AccountId) -> (r:
    Result<(), ErrorCode>)
    ensures
        r == if position.whirlpool != expected_whirlpool {
            Err::<(), ErrorCode>(ErrorCode::WrongWhirlpool)
        } else if position.liquidity != 0 {
            Err::<(), ErrorCode>(ErrorCode::LiquidityNotZero)
        } else if position.tick_lower_index != TICK_LOWER_INDEX
            || position.tick_upper_index != TICK_UPPER_INDEX {
            Err::<(), ErrorCode>(ErrorCode::OutOfRange)
        } else {
            Ok::<(), ErrorCode>(())
        },
{
    if position.whirlpool != expected_whirlpool {
        return Err(ErrorCode::WrongWhirlpool);
    }
    if position.liquidity != 0 {
        return Err(ErrorCode::LiquidityNotZero);
    }
    if position.tick_lower_index != TICK_LOWER_INDEX || position.tick_upper_index
        != TICK_UPPER_INDEX {
        return Err(ErrorCode::OutOfRange);
    }
    Ok(())
}

/// Validates a position offered for a whole-position deposit and extracts
/// its liquidity: the position must belong to the expected pool, its
/// liquidity must be positive and fit 64 bits, and it must span the
/// supported full range.
pub fn validate_deposit_position(position: &PositionData, expected_whirlpool: AccountId) -> (r:
    Result<u64, ErrorCode>)
    ensures
        r == if position.whirlpool != expected_whirlpool {
            Err::<u64, ErrorCode>(ErrorCode::WrongWhirlpool)
        } else if position.liquidity > u64::MAX {
            Err::<u64, ErrorCode>(ErrorCode::LiquidityOverflow)
        } else if position.liquidity == 0 {
            Err::<u64, ErrorCode>(ErrorCode::LiquidityZero)
        } else if position.tick_lower_index != TICK_LOWER_INDEX
            || position.tick_upper_index != TICK_UPPER_INDEX {
            Err::<u64, ErrorCode>(ErrorCode::OutOfRange)
        } else {
            Ok::<u64, ErrorCode>(position.liquidity as u64)
        },
{
    if position.whirlpool != expected_whirlpool {
        return Err(ErrorCode::WrongWhirlpool);
    }
    if position.liquidity > u64::MAX as u128 {
        return Err(ErrorCode::LiquidityOverflow);
    }
    if position.liquidity == 0 {
        return Err(ErrorCode::LiquidityZero);
    }
    if position.tick_lower_index != TICK_LOWER_INDEX || position.tick_upper_index
        != TICK_UPPER_INDEX {
        return Err(ErrorCode::OutOfRange);
    }
    Ok(position.liquidity as u64)
}

impl LiquidityLockbox {
    /// Accepts a whole position into custody: appends a record carrying its
    /// liquidity and reports the new record's identifier and the amount of
    /// bridged tokens to mint (one per liquidity unit).
    ///
    /// Fails with `LiquidityZero` on an empty position, and with
    /// `LiquidityOverflow` when the position's liquidity does not fit 64
    /// bits or would overflow the ledger total; a failed deposit leaves the
    /// ledger unchanged.
    pub fn deposit(
        &mut self,
        position_account: AccountId,
        position_pda_ata: AccountId,
        position_liquidity: u128,
    ) -> (r: Result<(u32, u64), ErrorCode>)
        requires
            old(self).wf(),
            old(self).num_position_accounts < u32::MAX,
        ensures
            r is Ok <==> (0 < position_liquidity <= u64::MAX
                && old(self).total_liquidity + position_liquidity <= u64::MAX),
            match r {
                Ok((id, minted)) => {
                    &&& final(self).wf()
                    &&& id == old(self).num_position_accounts
                    &&& minted == position_liquidity
                    &&& final(self).bridged_token_mint == old(self).bridged_token_mint
                    &&& final(self).consumption_order == old(self).consumption_order
                    &&& final(self).first() == old(self).first()
                    &&& final(self).num() == old(self).num() + 1
                    &&& final(self).total_liquidity == old(self).total_liquidity + minted
                    &&& final(self).position_records@ == old(self).position_records@.push(
                        LockboxPosition {
                            id,
                            position_account,
                            position_pda_ata,
                            position_liquidity: minted,
                        },
                    )
                },
                Err(e) => {
                    &&& *final(self) == *old(self)
                    &&& (e == ErrorCode::LiquidityZero <==> position_liquidity == 0)
                    &&& (e == ErrorCode::LiquidityZero || e == ErrorCode::LiquidityOverflow)
                },
            },
    {
        if position_liquidity > u64::MAX as u128 {
            return Err(ErrorCode::LiquidityOverflow);
        }
        let liquidity = position_liquidity as u64;
        if liquidity == 0 {
            return Err(ErrorCode::LiquidityZero);
        }
        let new_total = match self.total_liquidity.checked_add(liquidity) {
            Some(t) => t,
            None => {
                return Err(ErrorCode::LiquidityOverflow);
            },
        };
        let id = self.num_position_accounts;
        let record = LockboxPosition::initialize(id, liquidity, position_account, position_pda_ata);
        self.position_records.push(record);
        self.num_position_accounts = id + 1;
        self.total_liquidity = new_total;
        proof {
            let s_old = old(self).position_records@;
            let s_new = self.position_records@;
            lemma_sum_liquidity_agree(s_new, s_old, self.first(), s_old.len() as int);
            lemma_sum_liquidity_snoc(s_new, self.first(), s_old.len() as int);
        }
        Ok((id, liquidity))
    }

    /// Outcome of the shared-position deposit checks, in the order the
    /// operation applies them. `Ok` carries the liquidity delta to add and
    /// mint; each `Err` names the first check that fails.
    pub open spec fn deposit_delta_outcome(
        self,
        id: u32,
        token_amount_a: u64,
        sqrt_price_lower: u128,
        sqrt_price_upper: u128,
        token_max_a: u64,
        token_max_b: u64,
        tick_current_index: i32,
    ) -> Result<u64, ErrorCode> {
        let delta = liquidity_for_amount_a(
            token_amount_a as int,
            sqrt_price_lower as int,
            sqrt_price_upper as int,
        );
        if token_max_a == 0 || token_max_b == 0 {
            Err(ErrorCode::LiquidityZero)
        } else if tick_current_index < TICK_LOWER_INDEX || TICK_UPPER_INDEX <= tick_current_index {
            Err(ErrorCode::OutOfRange)
        } else if sqrt_price_lower == 0 || sqrt_price_lower >= sqrt_price_upper {
            Err(ErrorCode::InvalidPriceRange)
        } else if delta > u128::MAX {
            Err(ErrorCode::NumericDowncastError)
        } else if delta > u64::MAX {
            Err(ErrorCode::LiquidityOverflow)
        } else if amount_a_for_liquidity(delta, sqrt_price_lower as int, sqrt_price_upper as int)
            > u64::MAX {
            Err(ErrorCode::NumericDowncastError)
        } else if amount_a_for_liquidity(delta, sqrt_price_lower as int, sqrt_price_upper as int)
            > token_max_a {
            Err(ErrorCode::DeltaAmountOverflow)
        } else if id < self.first() || id >= self.num() {
            Err(ErrorCode::WrongPositionId)
        } else if self.position_records[id as int].position_liquidity + delta > u64::MAX
            || self.total_liquidity + delta > u64::MAX {
            Err(ErrorCode::LiquidityOverflow)
        } else {
            Ok(delta as u64)
        }
    }

    /// Adds liquidity to an already custodied record. The delta is sized
    /// from a one-sided deposit of `token_amount_a` with the fixed-point
    /// price math; the token cost of that delta must stay within
    /// `token_max_a` (`DeltaAmountOverflow` otherwise), both slippage bounds
    /// must be positive, and the pool's current tick must lie inside the
    /// supported range. Reports the liquidity added, which is also the
    /// amount of bridged tokens to mint; a failed deposit leaves the ledger
    /// unchanged.
    pub fn deposit_delta(
        &mut self,
        id: u32,
        token_amount_a: u64,
        sqrt_price_lower: u128,
        sqrt_price_upper: u128,
        token_max_a: u64,
        token_max_b: u64,
        tick_current_index: i32,
    ) -> (r: Result<u64, ErrorCode>)
        requires
            old(self).wf(),
        ensures
            match old(self).deposit_delta_outcome(
                id,
                token_amount_a,
                sqrt_price_lower,
                sqrt_price_upper,
                token_max_a,
                token_max_b,
                tick_current_index,
            ) {
                Ok(delta) => {
                    &&& r == Ok::<u64, ErrorCode>(delta)
                    &&& final(self).wf()
                    &&& final(self).bridged_token_mint == old(self).bridged_token_mint
                    &&& final(self).consumption_order == old(self).consumption_order
                    &&& final(self).first() == old(self).first()
                    &&& final(self).num() == old(self).num()
                    &&& final(self).total_liquidity == old(self).total_liquidity + delta
                    &&& final(self).position_records@ == old(self).position_records@.update(
                        id as int,
                        LockboxPosition {
                            position_liquidity: (
                                old(self).position_records[id as int].position_liquidity + delta
                            ) as u64,
                            ..old(self).position_records[id as int]
                        },
                    )
                },
                Err(e) => r == Err::<u64, ErrorCode>(e) && *final(self) == *old(self),
            },
    {
        if token_max_a == 0 || token_max_b == 0 {
            return Err(ErrorCode::LiquidityZero);
        }
        if tick_current_index < TICK_LOWER_INDEX || TICK_UPPER_INDEX <= tick_current_index {
            return Err(ErrorCode::OutOfRange);
        }
        if sqrt_price_lower == 0 || sqrt_price_lower >= sqrt_price_upper {
            return Err(ErrorCode::InvalidPriceRange);
        }
        let delta_wide = match liquidity_from_token_a(
            token_amount_a,
            sqrt_price_lower,
            sqrt_price_upper,
        ) {
            Ok(d) => d,
            Err(e) => {
                return Err(e);
            },
        };
        if delta_wide > u64::MAX as u128 {
            return Err(ErrorCode::LiquidityOverflow);
        }
        let delta = delta_wide as u64;
        proof {
            crate::math::lemma_liquidity_nonneg(
                token_amount_a as int,
                sqrt_price_lower as int,
                sqrt_price_upper as int,
            );
            crate::math::lemma_amount_a_nonneg(
                delta_wide as int,
                sqrt_price_lower as int,
                sqrt_price_upper as int,
            );
        }
        let needed_a = match token_a_from_liquidity(
            delta_wide,
            sqrt_price_lower,
            sqrt_price_upper,
        ) {
            Ok(a) => a,
            Err(e) => {
                return Err(e);
            },
        };
        if needed_a > token_max_a {
            return Err(ErrorCode::DeltaAmountOverflow);
        }
        if id < self.first_available_position_account_index || id >= self.num_position_accounts {
            return Err(ErrorCode::WrongPositionId);
        }
        let idx = id as usize;
        let record = self.position_records[idx];
        let new_record_liquidity = match record.position_liquidity.checked_add(delta) {
            Some(v) => v,
            None => {
                return Err(ErrorCode::LiquidityOverflow);
            },
        };
        let new_total = match self.total_liquidity.checked_add(delta) {
            Some(v) => v,
            None => {
                return Err(ErrorCode::LiquidityOverflow);
            },
        };
        self.position_records[idx] = LockboxPosition {
            position_liquidity: new_record_liquidity,
            ..record
        };
        self.total_liquidity = new_total;
        proof {
            lemma_sum_liquidity_update(
                old(self).position_records@,
                self.first(),
                self.num(),
                id as int,
                self.position_records@[id as int],
            );
        }
        Ok(delta)
    }
}

} // verus!
