use stellar_tokens::fungible::{Base, FungibleStorage, FungibleTokenError, MetadataStorage};
use stellar_tokens::math::{mul_div_with_rounding, MathError, Rounding};

const A: u64 = 1;
const B: u64 = 2;
const S: u64 = 3;

#[test]
fn supply_is_the_sum_of_balances_after_a_mix_of_operations() {
    let mut t = FungibleStorage::new();
    Base::mint(&mut t, A, 100).unwrap();
    Base::mint(&mut t, B, 50).unwrap();
    Base::transfer(&mut t, A, B, 30).unwrap();
    Base::burn(&mut t, B, 20).unwrap();
    assert_eq!(Base::balance(&t, A) + Base::balance(&t, B), Base::total_supply(&t));
    assert_eq!(Base::total_supply(&t), 130);
}

#[test]
fn update_errors_in_order() {
    let mut t = FungibleStorage::new();
    Base::mint(&mut t, A, 10).unwrap();
    assert_eq!(Base::update(&mut t, Some(A), Some(B), -1), Err(FungibleTokenError::LessThanZero));
    assert_eq!(Base::update(&mut t, Some(A), Some(B), 11), Err(FungibleTokenError::InsufficientBalance));
    assert_eq!(Base::update(&mut t, None, Some(B), i128::MAX), Err(FungibleTokenError::MathOverflow));
    assert_eq!(Base::balance(&t, A), 10);
    assert_eq!(Base::total_supply(&t), 10);
}

#[test]
fn transfer_to_oneself_keeps_the_balance() {
    let mut t = FungibleStorage::new();
    Base::mint(&mut t, A, 10).unwrap();
    Base::transfer(&mut t, A, A, 10).unwrap();
    assert_eq!(Base::balance(&t, A), 10);
}

#[test]
fn allowance_expires_after_its_last_ledger() {
    let mut t = FungibleStorage::new();
    Base::approve(&mut t, A, S, 40, 100, 10).unwrap();
    assert_eq!(Base::allowance(&t, A, S, 100), 40);
    assert_eq!(Base::allowance(&t, A, S, 101), 0);
    let data = Base::allowance_data(&t, A, S, 101);
    assert_eq!(data.amount, 0);
    assert_eq!(data.live_until_ledger, 100);
}

#[test]
fn approve_rules() {
    let mut t = FungibleStorage::new();
    assert_eq!(Base::approve(&mut t, A, S, -1, 100, 0), Err(FungibleTokenError::LessThanZero));
    assert_eq!(Base::approve(&mut t, A, S, 5, 9, 10), Err(FungibleTokenError::InvalidLiveUntilLedger));
    // A zero allowance may carry any expiry.
    Base::approve(&mut t, A, S, 0, 9, 10).unwrap();
    assert_eq!(Base::allowance(&t, A, S, 10), 0);
}

#[test]
fn transfer_from_spends_the_allowance_and_checks_it_first() {
    let mut t = FungibleStorage::new();
    Base::mint(&mut t, A, 10).unwrap();
    Base::approve(&mut t, A, S, 50, 100, 0).unwrap();
    // The allowance covers it but the balance does not.
    assert_eq!(Base::transfer_from(&mut t, S, A, B, 20, 0), Err(FungibleTokenError::InsufficientBalance));
    assert_eq!(Base::allowance(&t, A, S, 0), 50);
    assert_eq!(Base::transfer_from(&mut t, S, A, B, 60, 0), Err(FungibleTokenError::InsufficientAllowance));
    Base::transfer_from(&mut t, S, A, B, 10, 0).unwrap();
    assert_eq!(Base::allowance(&t, A, S, 0), 40);
    assert_eq!(Base::balance(&t, B), 10);
}

#[test]
fn burn_from_spends_the_allowance() {
    let mut t = FungibleStorage::new();
    Base::mint(&mut t, A, 10).unwrap();
    Base::approve(&mut t, A, S, 7, 100, 0).unwrap();
    Base::burn_from(&mut t, S, A, 7, 0).unwrap();
    assert_eq!(Base::balance(&t, A), 3);
    assert_eq!(Base::allowance(&t, A, S, 0), 0);
    assert_eq!(Base::total_supply(&t), 3);
}

#[test]
fn mul_div_rounds_as_asked() {
    assert_eq!(mul_div_with_rounding(7, 3, 2, Rounding::Floor), Ok(10));
    assert_eq!(mul_div_with_rounding(7, 3, 2, Rounding::Ceil), Ok(11));
    assert_eq!(mul_div_with_rounding(-7, 3, 2, Rounding::Floor), Ok(-11));
    assert_eq!(mul_div_with_rounding(-7, 3, 2, Rounding::Ceil), Ok(-10));
    assert_eq!(mul_div_with_rounding(6, 4, 3, Rounding::Ceil), Ok(8));
}

#[test]
fn mul_div_keeps_a_wide_intermediate() {
    // The product does not fit in 128 bits, the quotient does.
    assert_eq!(mul_div_with_rounding(i128::MAX, 4, 8, Rounding::Floor), Ok(i128::MAX / 2));
    assert_eq!(mul_div_with_rounding(i128::MAX, i128::MAX, i128::MAX, Rounding::Floor), Ok(i128::MAX));
}

#[test]
fn mul_div_errors() {
    assert_eq!(mul_div_with_rounding(1, 1, 0, Rounding::Floor), Err(MathError::DivisionByZero));
    assert_eq!(mul_div_with_rounding(i128::MAX, 2, 1, Rounding::Floor), Err(MathError::Overflow));
    assert_eq!(mul_div_with_rounding(i128::MIN, 1, 1, Rounding::Floor), Ok(i128::MIN));
    assert_eq!(mul_div_with_rounding(i128::MIN, -1, 1, Rounding::Floor), Err(MathError::Overflow));
}

#[test]
fn a_move_and_the_move_back_restore_every_balance() {
    let mut t = FungibleStorage::new();
    Base::mint(&mut t, A, 40).unwrap();
    Base::transfer(&mut t, A, B, 40).unwrap();
    Base::transfer(&mut t, B, A, 40).unwrap();
    assert_eq!(Base::balance(&t, A), 40);
    assert_eq!(Base::balance(&t, B), 0);
    Base::mint(&mut t, B, 7).unwrap();
    Base::burn(&mut t, B, 7).unwrap();
    assert_eq!(Base::balance(&t, B), 0);
    assert_eq!(Base::total_supply(&t), 40);
}

#[test]
fn metadata_is_unset_until_it_is_set() {
    let mut m = MetadataStorage::new();
    assert_eq!(Base::decimals(&m), Err(FungibleTokenError::UnsetMetadata));
    assert_eq!(Base::name(&m), Err(FungibleTokenError::UnsetMetadata));
    assert_eq!(Base::symbol(&m), Err(FungibleTokenError::UnsetMetadata));
    Base::set_metadata(&mut m, 7, "My Token".to_string(), "TKN".to_string());
    assert_eq!(Base::decimals(&m), Ok(7));
    assert_eq!(Base::name(&m), Ok("My Token".to_string()));
    assert_eq!(Base::symbol(&m), Ok("TKN".to_string()));
}
