use stellar_tokens::fungible::{Base, FungibleStorage, FungibleTokenError};
use stellar_tokens::math::{MathError, Rounding};
use stellar_tokens::vault::{AssetTransfer, Vault, VaultFailure, VaultStorage, VaultTokenError, MAX_DECIMALS_OFFSET};

const ASSET: u64 = 500;
const ALICE: u64 = 1;
const BOB: u64 = 2;
const OP: u64 = 3;

fn vault_with_asset() -> VaultStorage {
    let mut v = VaultStorage::new();
    Vault::set_asset(&mut v, ASSET).unwrap();
    v
}

#[test]
fn asset_is_set_once() {
    let mut v = VaultStorage::new();
    assert_eq!(Vault::query_asset(&v), Err(VaultTokenError::VaultAssetAddressNotSet));
    assert_eq!(Vault::total_assets(&v, 10), Err(VaultTokenError::VaultAssetAddressNotSet));
    Vault::set_asset(&mut v, ASSET).unwrap();
    assert_eq!(Vault::query_asset(&v), Ok(ASSET));
    assert_eq!(Vault::set_asset(&mut v, 7), Err(VaultTokenError::VaultAssetAddressAlreadySet));
    assert_eq!(Vault::total_assets(&v, 10), Ok(10));
}

#[test]
fn decimals_offset_is_set_once_and_bounded() {
    let mut v = VaultStorage::new();
    assert_eq!(Vault::decimals(&v, 7), Err(VaultTokenError::VaultAssetAddressNotSet));
    Vault::set_asset(&mut v, ASSET).unwrap();
    assert_eq!(
        Vault::set_decimals_offset(&mut v, MAX_DECIMALS_OFFSET + 1),
        Err(VaultTokenError::VaultMaxDecimalsOffsetExceeded)
    );
    Vault::set_decimals_offset(&mut v, 3).unwrap();
    assert_eq!(Vault::get_decimals_offset(&v), 3);
    assert_eq!(
        Vault::set_decimals_offset(&mut v, 2),
        Err(VaultTokenError::VaultVirtualDecimalsOffsetAlreadySet)
    );
    assert_eq!(Vault::decimals(&v, 7), Ok(10));
}

#[test]
fn empty_vault_converts_one_to_one_without_offset() {
    let v = vault_with_asset();
    let t = FungibleStorage::new();
    assert_eq!(Vault::convert_to_shares(&v, &t, 0, 100), Ok(100));
    assert_eq!(Vault::convert_to_assets(&v, &t, 0, 100), Ok(100));
}

#[test]
fn conversions_follow_the_virtual_shares_formula() {
    let mut v = vault_with_asset();
    Vault::set_decimals_offset(&mut v, 2).unwrap();
    let mut t = FungibleStorage::new();
    Base::mint(&mut t, ALICE, 1000).unwrap();
    // shares = assets * (supply + 10^2) / (total + 1)
    assert_eq!(
        Vault::convert_to_shares_with_rounding(&v, &t, 9, 10, Rounding::Floor),
        Ok(10 * 1100 / 10)
    );
    assert_eq!(Vault::convert_to_shares_with_rounding(&v, &t, 10, 1, Rounding::Floor), Ok(100));
    assert_eq!(Vault::convert_to_shares_with_rounding(&v, &t, 10, 1, Rounding::Ceil), Ok(100));
    assert_eq!(Vault::convert_to_shares_with_rounding(&v, &t, 20, 1, Rounding::Floor), Ok(52));
    assert_eq!(Vault::convert_to_shares_with_rounding(&v, &t, 20, 1, Rounding::Ceil), Ok(53));
    // assets = shares * (total + 1) / (supply + 10^2)
    assert_eq!(Vault::convert_to_assets_with_rounding(&v, &t, 20, 100, Rounding::Floor), Ok(1));
    assert_eq!(Vault::convert_to_assets_with_rounding(&v, &t, 20, 100, Rounding::Ceil), Ok(2));
}

#[test]
fn deposit_mints_shares_and_asks_for_the_assets() {
    let v = vault_with_asset();
    let mut t = FungibleStorage::new();
    let (shares, pay) = Vault::deposit(&v, &mut t, 0, 100, BOB, ALICE, ALICE).unwrap();
    assert_eq!(shares, 100);
    assert_eq!(Base::balance(&t, BOB), 100);
    assert!(matches!(pay, AssetTransfer::IntoVault { asset: ASSET, from: ALICE, amount: 100 }));
    let (_, pay) = Vault::deposit(&v, &mut t, 100, 10, BOB, ALICE, OP).unwrap();
    assert!(matches!(pay, AssetTransfer::IntoVaultFrom { asset: ASSET, operator: OP, from: ALICE, amount: 10 }));
}

#[test]
fn deposit_refuses_negative_assets() {
    let v = vault_with_asset();
    let mut t = FungibleStorage::new();
    assert!(Vault::deposit(&v, &mut t, 0, -1, BOB, ALICE, ALICE).is_err());
    assert_eq!(Base::total_supply(&t), 0);
}

#[test]
fn deposit_then_redeem_never_gains() {
    let v = vault_with_asset();
    let mut t = FungibleStorage::new();
    Base::mint(&mut t, 9, 333).unwrap();
    let total = 1000;
    let (shares, _) = Vault::deposit(&v, &mut t, total, 77, ALICE, ALICE, ALICE).unwrap();
    let (assets, pay) = Vault::redeem(&v, &mut t, total + 77, shares, ALICE, ALICE, ALICE, 0).unwrap();
    assert!(assets <= 77);
    assert!(matches!(pay, AssetTransfer::OutOfVault { asset: ASSET, to: ALICE, amount: a } if a == assets));
    assert_eq!(Base::balance(&t, ALICE), 0);
}

#[test]
fn withdraw_burns_enough_shares() {
    let v = vault_with_asset();
    let mut t = FungibleStorage::new();
    let (shares, _) = Vault::deposit(&v, &mut t, 0, 1000, ALICE, ALICE, ALICE).unwrap();
    assert_eq!(shares, 1000);
    let (burned, _) = Vault::withdraw(&v, &mut t, 1500, 10, BOB, ALICE, ALICE, 0).unwrap();
    // ceil(10 * (1000 + 1) / (1500 + 1)): rounded up in the vault's favour.
    assert_eq!(burned, 7);
    assert_eq!(Base::balance(&t, ALICE), 1000 - burned);
}

#[test]
fn redeem_by_someone_else_needs_an_allowance() {
    let v = vault_with_asset();
    let mut t = FungibleStorage::new();
    Vault::deposit(&v, &mut t, 0, 100, ALICE, ALICE, ALICE).unwrap();
    let r = Vault::redeem(&v, &mut t, 100, 10, OP, ALICE, OP, 0);
    assert_eq!(r, Err(VaultFailure::Token(FungibleTokenError::InsufficientAllowance)));
    Base::approve(&mut t, ALICE, OP, 10, 100, 0).unwrap();
    let (assets, _) = Vault::redeem(&v, &mut t, 100, 10, OP, ALICE, OP, 0).unwrap();
    assert_eq!(assets, 10);
    assert_eq!(Base::allowance(&t, ALICE, OP, 0), 0);
}

#[test]
fn redeem_more_than_held_is_refused() {
    let v = vault_with_asset();
    let mut t = FungibleStorage::new();
    Vault::deposit(&v, &mut t, 0, 100, ALICE, ALICE, ALICE).unwrap();
    assert_eq!(Vault::max_redeem(&t, ALICE), 100);
    assert_eq!(
        Vault::redeem(&v, &mut t, 100, 101, ALICE, ALICE, ALICE, 0),
        Err(VaultFailure::Vault(VaultTokenError::VaultExceededMaxRedeem))
    );
    assert_eq!(Vault::max_withdraw(&v, &t, 100, ALICE), Ok(100));
}

#[test]
fn limits_of_deposit_and_mint_are_unbounded() {
    assert_eq!(Vault::max_deposit(ALICE), i128::MAX);
    assert_eq!(Vault::max_mint(ALICE), i128::MAX);
}

#[test]
fn mint_asks_for_the_assets_rounded_up() {
    let v = vault_with_asset();
    let mut t = FungibleStorage::new();
    Base::mint(&mut t, 9, 2).unwrap();
    // assets = ceil(shares * (total + 1) / (supply + 1)) = ceil(3 * 5 / 3) = 5
    let (assets, _) = Vault::mint(&v, &mut t, 4, 3, ALICE, ALICE, ALICE).unwrap();
    assert_eq!(assets, 5);
    assert_eq!(Base::balance(&t, ALICE), 3);
    assert_eq!(Vault::preview_mint(&v, &t, 4, 3), Ok(3));
}

#[test]
fn conversion_errors_for_bad_amounts_and_holdings() {
    let v = vault_with_asset();
    let mut t = FungibleStorage::new();
    Base::mint(&mut t, ALICE, 10).unwrap();
    assert_eq!(
        Vault::convert_to_shares_with_rounding(&v, &t, 10, -1, Rounding::Floor),
        Err(VaultFailure::Vault(VaultTokenError::VaultInvalidAssetsAmount))
    );
    assert_eq!(
        Vault::convert_to_assets_with_rounding(&v, &t, 10, -1, Rounding::Floor),
        Err(VaultFailure::Vault(VaultTokenError::VaultInvalidSharesAmount))
    );
    // Holdings of -1 leave a zero denominator.
    assert_eq!(
        Vault::convert_to_shares_with_rounding(&v, &t, -1, 5, Rounding::Floor),
        Err(VaultFailure::Math(MathError::DivisionByZero))
    );
}

#[test]
fn withdrawing_more_than_the_shares_are_worth_is_refused() {
    let v = vault_with_asset();
    let mut t = FungibleStorage::new();
    Vault::deposit(&v, &mut t, 0, 100, ALICE, ALICE, ALICE).unwrap();
    assert_eq!(
        Vault::withdraw(&v, &mut t, 100, 101, ALICE, ALICE, ALICE, 0),
        Err(VaultFailure::Vault(VaultTokenError::VaultExceededMaxWithdraw))
    );
    assert_eq!(Base::balance(&t, ALICE), 100);
}

#[test]
fn redeeming_for_another_owner_uses_up_the_allowance() {
    let v = vault_with_asset();
    let mut t = FungibleStorage::new();
    Vault::deposit(&v, &mut t, 0, 100, ALICE, ALICE, ALICE).unwrap();
    Base::approve(&mut t, ALICE, OP, 30, 50, 0).unwrap();
    Vault::redeem(&v, &mut t, 100, 20, BOB, ALICE, OP, 0).unwrap();
    assert_eq!(Base::allowance(&t, ALICE, OP, 0), 10);
    assert_eq!(Base::balance(&t, ALICE), 80);
    // The owner redeeming for itself leaves allowances alone.
    Vault::redeem(&v, &mut t, 80, 5, ALICE, ALICE, ALICE, 0).unwrap();
    assert_eq!(Base::allowance(&t, ALICE, OP, 0), 10);
}

#[test]
fn rounding_up_adds_at_most_one_share_and_round_trips_never_gain() {
    let mut v = vault_with_asset();
    Vault::set_decimals_offset(&mut v, 1).unwrap();
    let mut t = FungibleStorage::new();
    Base::mint(&mut t, ALICE, 33).unwrap();
    for x in 0..40i128 {
        let f = Vault::convert_to_shares_with_rounding(&v, &t, 17, x, Rounding::Floor).unwrap();
        let c = Vault::convert_to_shares_with_rounding(&v, &t, 17, x, Rounding::Ceil).unwrap();
        assert!(f <= c && c <= f + 1);
        assert_eq!(c == f, (x * (33 + 10)) % 18 == 0);
        let back = Vault::convert_to_assets_with_rounding(&v, &t, 17, f, Rounding::Ceil).unwrap();
        assert!(back <= x);
    }
}
