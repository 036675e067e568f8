use liquidity_lockbox::errors::ErrorCode;
use liquidity_lockbox::state::{AccountId, ConsumptionOrder, LiquidityLockbox};

fn account(n: u128) -> AccountId {
    AccountId { hi: n, lo: n + 1 }
}

fn ledger_with(liquidities: &[u64]) -> LiquidityLockbox {
    let mut lockbox = LiquidityLockbox::initialize(account(1));
    for (i, &liq) in liquidities.iter().enumerate() {
        let base = 100 * (i as u128 + 1);
        let r = lockbox.deposit(account(base), account(base + 10), liq as u128);
        assert!(r.is_ok());
    }
    lockbox
}

#[test]
fn test_test() {
    let lockbox = LiquidityLockbox::initialize(account(1));
    assert_eq!(lockbox.total_liquidity, 0);
}

#[test]
fn initialize_empty_ledger() {
    let lockbox = LiquidityLockbox::initialize(account(7));
    assert_eq!(lockbox.total_liquidity, 0);
    assert_eq!(lockbox.num_position_accounts, 0);
    assert_eq!(lockbox.first_available_position_account_index, 0);
    assert_eq!(lockbox.bridged_token_mint, account(7));
    assert!(lockbox.get(0).is_none());
}

#[test]
fn deposit_zero_liquidity_fails() {
    let mut lockbox = LiquidityLockbox::initialize(account(1));
    let r = lockbox.deposit(account(2), account(3), 0);
    assert_eq!(r, Err(ErrorCode::LiquidityZero));
    assert_eq!(lockbox.total_liquidity, 0);
    assert_eq!(lockbox.num_position_accounts, 0);
}

#[test]
fn deposit_oversized_liquidity_fails() {
    let mut lockbox = LiquidityLockbox::initialize(account(1));
    let r = lockbox.deposit(account(2), account(3), u64::MAX as u128 + 1);
    assert_eq!(r, Err(ErrorCode::LiquidityOverflow));
    assert_eq!(lockbox.num_position_accounts, 0);
}

#[test]
fn deposit_total_overflow_fails() {
    let mut lockbox = ledger_with(&[u64::MAX - 5]);
    let r = lockbox.deposit(account(9), account(10), 6);
    assert_eq!(r, Err(ErrorCode::LiquidityOverflow));
    assert_eq!(lockbox.total_liquidity, u64::MAX - 5);
    assert_eq!(lockbox.num_position_accounts, 1);
}

#[test]
fn deposit_at_u64_max_succeeds() {
    let mut lockbox = LiquidityLockbox::initialize(account(1));
    let r = lockbox.deposit(account(2), account(3), u64::MAX as u128);
    assert_eq!(r, Ok((0, u64::MAX)));
    assert_eq!(lockbox.total_liquidity, u64::MAX);
}

#[test]
fn single_deposit_and_full_withdraw() {
    let mut lockbox = LiquidityLockbox::initialize(account(1));
    let r = lockbox.deposit(account(2), account(3), 1000);
    assert_eq!(r, Ok((0, 1000)));
    assert_eq!(lockbox.total_liquidity, 1000);
    assert_eq!(lockbox.num_position_accounts, 1);
    let record = lockbox.get(0).unwrap();
    assert_eq!(record.position_liquidity, 1000);

    let w = lockbox.withdraw(1000).unwrap();
    assert_eq!(w.0, 1000);
    assert_eq!(w.1, vec![(0, 1000)]);
    assert_eq!(lockbox.total_liquidity, 0);
    assert_eq!(lockbox.get(0).unwrap().position_liquidity, 0);
    // The drained position is closed: the cursor has moved past it.
    assert_eq!(lockbox.first_available_position_account_index, 1);
}

#[test]
fn withdraw_zero_fails() {
    let mut lockbox = ledger_with(&[1000]);
    let r = lockbox.withdraw(0);
    assert_eq!(r, Err(ErrorCode::LiquidityZero));
    assert_eq!(lockbox.total_liquidity, 1000);
}

#[test]
fn withdraw_beyond_total_fails() {
    let mut lockbox = ledger_with(&[1000]);
    let r = lockbox.withdraw(1001);
    assert_eq!(r, Err(ErrorCode::AmountExceedsTotalLiquidity));
    assert_eq!(lockbox.total_liquidity, 1000);
    assert_eq!(lockbox.first_available_position_account_index, 0);
}

#[test]
fn fifo_withdraw_across_records() {
    let mut lockbox = ledger_with(&[100, 200, 300]);
    assert_eq!(lockbox.total_liquidity, 600);

    let w = lockbox.withdraw(250).unwrap();
    assert_eq!(w.0, 250);
    assert_eq!(w.1, vec![(0, 100), (1, 150)]);
    assert_eq!(lockbox.total_liquidity, 350);
    // First record fully consumed and closed, second reduced to 50.
    assert_eq!(lockbox.get(0).unwrap().position_liquidity, 0);
    assert_eq!(lockbox.get(1).unwrap().position_liquidity, 50);
    assert_eq!(lockbox.get(2).unwrap().position_liquidity, 300);
    assert_eq!(lockbox.first_available_position_account_index, 1);
}

#[test]
fn withdraw_exact_record_boundary_closes_it() {
    let mut lockbox = ledger_with(&[100, 200]);
    let w = lockbox.withdraw(100).unwrap();
    assert_eq!(w.1, vec![(0, 100)]);
    assert_eq!(lockbox.first_available_position_account_index, 1);
    assert_eq!(lockbox.total_liquidity, 200);
}

#[test]
fn withdraw_skips_drained_record() {
    let mut lockbox = ledger_with(&[100, 200, 300]);
    // Drain the middle record directly, then walk oldest-first: the walk
    // must pass over the emptied record without selecting it.
    let remainder = lockbox.withdraw_from_position(1, 200).unwrap();
    assert_eq!(remainder, 0);
    assert_eq!(lockbox.total_liquidity, 400);

    let w = lockbox.withdraw(150).unwrap();
    assert_eq!(w.1, vec![(0, 100), (2, 50)]);
    assert_eq!(lockbox.total_liquidity, 250);
    assert_eq!(lockbox.first_available_position_account_index, 2);
    assert_eq!(lockbox.get(2).unwrap().position_liquidity, 250);
}

#[test]
fn targeted_withdraw_partial_keeps_record() {
    let mut lockbox = ledger_with(&[100, 200]);
    let remainder = lockbox.withdraw_from_position(1, 50).unwrap();
    assert_eq!(remainder, 150);
    assert_eq!(lockbox.total_liquidity, 250);
    assert_eq!(lockbox.get(1).unwrap().position_liquidity, 150);
    assert_eq!(lockbox.first_available_position_account_index, 0);
}

#[test]
fn targeted_withdraw_errors() {
    let mut empty = LiquidityLockbox::initialize(account(1));
    assert_eq!(empty.withdraw_from_position(0, 10), Err(ErrorCode::TotalLiquidityZero));

    let mut lockbox = ledger_with(&[100, 200]);
    assert_eq!(lockbox.withdraw_from_position(0, 0), Err(ErrorCode::LiquidityZero));
    assert_eq!(lockbox.withdraw_from_position(2, 10), Err(ErrorCode::WrongPositionId));
    assert_eq!(
        lockbox.withdraw_from_position(1, 201),
        Err(ErrorCode::AmountExceedsPositionLiquidity)
    );
    // A record already drained to zero cannot be withdrawn from again.
    lockbox.withdraw_from_position(0, 100).unwrap();
    assert_eq!(lockbox.withdraw_from_position(0, 1), Err(ErrorCode::LiquidityZero));
    assert_eq!(lockbox.total_liquidity, 200);
}

#[test]
fn query_reports_withdraw_selection() {
    let mut lockbox = ledger_with(&[100, 200, 300]);
    let (takes, accounts, atas) = lockbox.get_liquidity_amounts_and_positions(250).unwrap();
    assert_eq!(takes, vec![100, 150]);
    assert_eq!(accounts, vec![account(100), account(200)]);
    assert_eq!(atas, vec![account(110), account(210)]);

    // The withdrawal consumes exactly what the query reported.
    let w = lockbox.withdraw(250).unwrap();
    assert_eq!(w.1.len(), takes.len());
    for (pair, take) in w.1.iter().zip(takes.iter()) {
        assert_eq!(pair.1, *take);
    }
}

#[test]
fn query_allocation_is_idempotent() {
    let lockbox = ledger_with(&[100, 200, 300]);
    let first_result = lockbox.get_liquidity_amounts_and_positions(250).unwrap();
    let second_result = lockbox.get_liquidity_amounts_and_positions(250).unwrap();
    assert_eq!(first_result, second_result);
}

#[test]
fn query_zero_amount_is_empty() {
    let lockbox = ledger_with(&[100]);
    let (takes, accounts, atas) = lockbox.get_liquidity_amounts_and_positions(0).unwrap();
    assert!(takes.is_empty());
    assert!(accounts.is_empty());
    assert!(atas.is_empty());
}

#[test]
fn query_beyond_total_fails() {
    let lockbox = ledger_with(&[100, 200]);
    let r = lockbox.get_liquidity_amounts_and_positions(301);
    assert_eq!(r, Err(ErrorCode::AmountExceedsTotalLiquidity));
}

#[test]
fn query_whole_ledger() {
    let lockbox = ledger_with(&[100, 200]);
    let (takes, _, _) = lockbox.get_liquidity_amounts_and_positions(300).unwrap();
    assert_eq!(takes, vec![100, 200]);
}

#[test]
fn total_tracks_sum_of_records() {
    let mut lockbox = ledger_with(&[100, 200, 300]);
    lockbox.withdraw(150).unwrap();
    let sum: u64 = (0..lockbox.num_position_accounts)
        .map(|i| lockbox.get(i).unwrap().position_liquidity)
        .sum();
    assert_eq!(lockbox.total(), sum);
    lockbox.withdraw_from_position(2, 25).unwrap();
    let sum: u64 = (0..lockbox.num_position_accounts)
        .map(|i| lockbox.get(i).unwrap().position_liquidity)
        .sum();
    assert_eq!(lockbox.total(), sum);
}

#[test]
fn newest_first_withdraw_across_records() {
    let mut lockbox =
        LiquidityLockbox::initialize_with_order(account(1), ConsumptionOrder::NewestFirst);
    for (i, liq) in [100u64, 200, 300].iter().enumerate() {
        let base = 100 * (i as u128 + 1);
        lockbox.deposit(account(base), account(base + 10), *liq as u128).unwrap();
    }
    let w = lockbox.withdraw(350).unwrap();
    assert_eq!(w.1, vec![(2, 300), (1, 50)]);
    assert_eq!(lockbox.total_liquidity, 250);
    assert_eq!(lockbox.get(2).unwrap().position_liquidity, 0);
    assert_eq!(lockbox.get(1).unwrap().position_liquidity, 150);
    assert_eq!(lockbox.get(0).unwrap().position_liquidity, 100);
    // Newest-first consumption leaves the oldest-first cursor alone.
    assert_eq!(lockbox.first_available_position_account_index, 0);
}

#[test]
fn newest_first_query_matches_withdraw() {
    let mut lockbox =
        LiquidityLockbox::initialize_with_order(account(1), ConsumptionOrder::NewestFirst);
    for (i, liq) in [100u64, 200, 300].iter().enumerate() {
        let base = 100 * (i as u128 + 1);
        lockbox.deposit(account(base), account(base + 10), *liq as u128).unwrap();
    }
    let (takes, accounts, _) = lockbox.get_liquidity_amounts_and_positions(450).unwrap();
    assert_eq!(takes, vec![300, 150]);
    assert_eq!(accounts, vec![account(300), account(200)]);
    let w = lockbox.withdraw(450).unwrap();
    assert_eq!(w.1, vec![(2, 300), (1, 150)]);
}

#[test]
fn newest_first_skips_drained_record() {
    let mut lockbox =
        LiquidityLockbox::initialize_with_order(account(1), ConsumptionOrder::NewestFirst);
    for (i, liq) in [100u64, 200, 300].iter().enumerate() {
        let base = 100 * (i as u128 + 1);
        lockbox.deposit(account(base), account(base + 10), *liq as u128).unwrap();
    }
    lockbox.withdraw_from_position(2, 300).unwrap();
    let w = lockbox.withdraw(250).unwrap();
    assert_eq!(w.1, vec![(1, 200), (0, 50)]);
    assert_eq!(lockbox.total_liquidity, 50);
}

#[test]
fn remove_zeroes_record_and_total() {
    let mut lockbox = ledger_with(&[100, 200]);
    let record = lockbox.remove(1).unwrap();
    assert_eq!(record.position_liquidity, 200);
    assert_eq!(record.position_account, account(200));
    assert_eq!(lockbox.total_liquidity, 100);
    assert_eq!(lockbox.get(1).unwrap().position_liquidity, 0);
    assert_eq!(lockbox.remove(2), Err(ErrorCode::WrongPositionId));
    // Removing an already empty record changes nothing.
    let again = lockbox.remove(1).unwrap();
    assert_eq!(again.position_liquidity, 0);
    assert_eq!(lockbox.total_liquidity, 100);
}

#[test]
fn bridged_supply_stays_pegged() {
    // The host mints and burns exactly what the operations report, so a
    // supply counter driven by those reports tracks total_liquidity.
    let mut supply: u64 = 0;
    let mut lockbox = LiquidityLockbox::initialize(account(1));
    let (_, minted) = lockbox.deposit(account(2), account(3), 1000).unwrap();
    supply += minted;
    assert_eq!(supply, lockbox.total_liquidity);
    let (_, minted) = lockbox.deposit(account(4), account(5), 500).unwrap();
    supply += minted;
    assert_eq!(supply, lockbox.total_liquidity);
    let (burned, _) = lockbox.withdraw(1200).unwrap();
    supply -= burned;
    assert_eq!(supply, lockbox.total_liquidity);
}
