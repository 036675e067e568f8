use liquidity_lockbox::deposit::{
    validate_deposit_position, validate_initial_position, validate_position_data, PositionData,
    POSITION_DATA_LEN, TICK_LOWER_INDEX, TICK_UPPER_INDEX,
};
use liquidity_lockbox::errors::ErrorCode;
use liquidity_lockbox::math::{liquidity_from_token_a, token_a_from_liquidity};
use liquidity_lockbox::state::{AccountId, LiquidityLockbox};
use liquidity_lockbox::wide::{div_rem, mul_u128, U384};

fn account(n: u128) -> AccountId {
    AccountId { hi: n, lo: n + 1 }
}

#[test]
fn liquidity_fixture_value() {
    // Regression fixture: a one-sided deposit of 100 token-A units (9
    // decimals) into this real price range yields exactly this liquidity.
    let r = liquidity_from_token_a(100_000_000_000, 58319427345345388, 82674692782969588);
    assert_eq!(r, Ok(1073181681));
}

#[test]
fn liquidity_rejects_inverted_range() {
    assert_eq!(
        liquidity_from_token_a(1, 2, 2),
        Err(ErrorCode::InvalidPriceRange)
    );
    assert_eq!(
        liquidity_from_token_a(1, 3, 2),
        Err(ErrorCode::InvalidPriceRange)
    );
}

#[test]
fn liquidity_of_zero_amount_is_zero() {
    assert_eq!(liquidity_from_token_a(0, 1 << 64, 2 << 64), Ok(0));
}

#[test]
fn liquidity_downcast_failure() {
    // A huge amount over a sliver-thin range at a high price overflows the
    // 128-bit liquidity result.
    let lower: u128 = 1 << 127;
    let upper: u128 = (1 << 127) + (1 << 64);
    assert_eq!(
        liquidity_from_token_a(u64::MAX, lower, upper),
        Err(ErrorCode::NumericDowncastError)
    );
}

#[test]
fn token_amount_rejects_bad_range() {
    assert_eq!(
        token_a_from_liquidity(1, 0, 5),
        Err(ErrorCode::InvalidPriceRange)
    );
    assert_eq!(
        token_a_from_liquidity(1, 5, 5),
        Err(ErrorCode::InvalidPriceRange)
    );
}

#[test]
fn token_amount_downcast_failure() {
    assert_eq!(
        token_a_from_liquidity(u128::MAX, 1, 2),
        Err(ErrorCode::NumericDowncastError)
    );
}

#[test]
fn round_trip_exact() {
    let lower: u128 = 10 << 64;
    let upper: u128 = 11 << 64;
    let liquidity = liquidity_from_token_a(12345, lower, upper).unwrap();
    assert_eq!(liquidity, 1_357_950);
    let recovered = token_a_from_liquidity(liquidity, lower, upper).unwrap();
    assert_eq!(recovered, 12345);
}

#[test]
fn round_trip_one_unit_short() {
    // 7 units of token A buy 52 liquidity units (truncated from 52.5);
    // converting back truncates again to 6: one unit of error, never more
    // when a liquidity unit is worth at most one token unit.
    let lower: u128 = 3 << 64;
    let upper: u128 = 5 << 64;
    let liquidity = liquidity_from_token_a(7, lower, upper).unwrap();
    assert_eq!(liquidity, 52);
    let recovered = token_a_from_liquidity(liquidity, lower, upper).unwrap();
    assert_eq!(recovered, 6);
}

#[test]
fn wide_multiply_and_divide() {
    assert_eq!(mul_u128(3, 5).to_u128(), Some(15));
    assert_eq!(
        mul_u128(u64::MAX as u128 + 1, u64::MAX as u128 + 1).to_u128(),
        None
    );
    let (q, r) = div_rem(&U384::from_u128(100), &U384::from_u128(7));
    assert_eq!(q.to_u128(), Some(14));
    assert_eq!(r.to_u128(), Some(2));
    let big = mul_u128(u128::MAX, u128::MAX);
    let (q, r) = div_rem(&big, &U384::from_u128(u128::MAX));
    assert_eq!(q.to_u128(), Some(u128::MAX));
    assert_eq!(r.to_u128(), Some(0));
}

#[test]
fn wide_small_operations() {
    let x = U384::from_u128(41);
    assert_eq!(x.double_plus(true).to_u128(), Some(83));
    assert_eq!(x.halve().to_u128(), Some(20));
    assert!(x.ge(&U384::from_u128(41)));
    assert!(!x.ge(&U384::from_u128(42)));
    assert_eq!(x.sub(&U384::from_u128(2)).to_u128(), Some(39));
    assert_eq!(x.shl64().to_u128(), Some(41 << 64));
}

fn full_range_position(liquidity: u128) -> PositionData {
    PositionData {
        whirlpool: account(50),
        position_mint: account(51),
        liquidity,
        tick_lower_index: TICK_LOWER_INDEX,
        tick_upper_index: TICK_UPPER_INDEX,
    }
}

#[test]
fn initial_position_validation() {
    let position = full_range_position(0);
    assert_eq!(validate_initial_position(&position, account(50)), Ok(()));
    assert_eq!(
        validate_initial_position(&position, account(99)),
        Err(ErrorCode::WrongWhirlpool)
    );
    let funded = full_range_position(5);
    assert_eq!(
        validate_initial_position(&funded, account(50)),
        Err(ErrorCode::LiquidityNotZero)
    );
    let mut narrow = full_range_position(0);
    narrow.tick_upper_index = 100;
    assert_eq!(
        validate_initial_position(&narrow, account(50)),
        Err(ErrorCode::OutOfRange)
    );
}

#[test]
fn deposit_position_validation() {
    let position = full_range_position(1000);
    assert_eq!(validate_deposit_position(&position, account(50)), Ok(1000));
    assert_eq!(
        validate_deposit_position(&position, account(99)),
        Err(ErrorCode::WrongWhirlpool)
    );
    let empty = full_range_position(0);
    assert_eq!(
        validate_deposit_position(&empty, account(50)),
        Err(ErrorCode::LiquidityZero)
    );
    let oversized = full_range_position(u64::MAX as u128 + 1);
    assert_eq!(
        validate_deposit_position(&oversized, account(50)),
        Err(ErrorCode::LiquidityOverflow)
    );
    let mut narrow = full_range_position(1000);
    narrow.tick_lower_index = -100;
    assert_eq!(
        validate_deposit_position(&narrow, account(50)),
        Err(ErrorCode::OutOfRange)
    );
}

#[test]
fn position_data_header_check() {
    let mut data = vec![0u8; POSITION_DATA_LEN];
    let header: [u8; 8] = [0xaa, 0xbc, 0x8f, 0xe4, 0x7a, 0x40, 0xf7, 0xd0];
    data[..8].copy_from_slice(&header);
    assert_eq!(validate_position_data(&data), Ok(()));

    let short = data[..200].to_vec();
    assert_eq!(
        validate_position_data(&short),
        Err(ErrorCode::WrongPositionHeader)
    );

    data[0] = 0xab;
    assert_eq!(
        validate_position_data(&data),
        Err(ErrorCode::WrongPositionHeader)
    );
}

fn ledger_with_one_record() -> LiquidityLockbox {
    let mut lockbox = LiquidityLockbox::initialize(account(1));
    lockbox.deposit(account(2), account(3), 100).unwrap();
    lockbox
}

#[test]
fn deposit_delta_extends_record() {
    let mut lockbox = ledger_with_one_record();
    let lower: u128 = 10 << 64;
    let upper: u128 = 11 << 64;
    // 1000 token-A units buy 110000 liquidity over this range, and cost
    // exactly 1000 units, within the stated maximum.
    let minted = lockbox
        .deposit_delta(0, 1000, lower, upper, 1000, 1, 0)
        .unwrap();
    assert_eq!(minted, 110_000);
    assert_eq!(lockbox.total_liquidity, 110_100);
    assert_eq!(lockbox.get(0).unwrap().position_liquidity, 110_100);
}

#[test]
fn deposit_delta_errors() {
    let mut lockbox = ledger_with_one_record();
    let lower: u128 = 10 << 64;
    let upper: u128 = 11 << 64;
    assert_eq!(
        lockbox.deposit_delta(0, 1000, lower, upper, 0, 1, 0),
        Err(ErrorCode::LiquidityZero)
    );
    assert_eq!(
        lockbox.deposit_delta(0, 1000, lower, upper, 1000, 1, TICK_UPPER_INDEX),
        Err(ErrorCode::OutOfRange)
    );
    assert_eq!(
        lockbox.deposit_delta(0, 1000, upper, lower, 1000, 1, 0),
        Err(ErrorCode::InvalidPriceRange)
    );
    // The delta's token cost (1000) exceeds the stated maximum (999).
    assert_eq!(
        lockbox.deposit_delta(0, 1000, lower, upper, 999, 1, 0),
        Err(ErrorCode::DeltaAmountOverflow)
    );
    assert_eq!(
        lockbox.deposit_delta(5, 1000, lower, upper, 1000, 1, 0),
        Err(ErrorCode::WrongPositionId)
    );
    // Nothing changed across the failures.
    assert_eq!(lockbox.total_liquidity, 100);
}
