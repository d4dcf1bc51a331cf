use stellar_tokens::fungible::{Base, FungibleStorage, FungibleTokenError};
use stellar_tokens::rwa::{RWAError, RwaFailure, RwaStorage, TransferChecks, RWA};

const VERIFIER: u64 = 900;
const COMPLIANCE: u64 = 901;
const FROM: u64 = 1;
const TO: u64 = 2;
const OLD: u64 = 3;
const NEW: u64 = 4;

/// All checks of the other contracts pass.
const OK: TransferChecks = TransferChecks { paused: false, from_verified: true, to_verified: true, compliant: true };

fn setup_all_contracts() -> (RwaStorage, FungibleStorage) {
    let mut rwa = RwaStorage::new();
    RWA::set_identity_verifier(&mut rwa, VERIFIER);
    RWA::set_compliance(&mut rwa, COMPLIANCE);
    (rwa, FungibleStorage::new())
}

fn mint(rwa: &RwaStorage, token: &mut FungibleStorage, to: u64, amount: i128) {
    RWA::mint(rwa, token, to, amount, true, true).unwrap();
}

#[test]
fn get_version() {
    let mut rwa = RwaStorage::new();
    RWA::set_version(&mut rwa, b"1,2,3".to_vec());
    assert_eq!(RWA::version(&rwa), Ok(b"1,2,3".to_vec()));
}

#[test]
fn get_unset_version_fails() {
    assert_eq!(RWA::version(&RwaStorage::new()), Err(RWAError::VersionNotSet));
}

#[test]
fn set_and_get_onchain_id() {
    let mut rwa = RwaStorage::new();
    RWA::set_onchain_id(&mut rwa, 42);
    assert_eq!(RWA::onchain_id(&rwa), Ok(42));
}

#[test]
fn get_unset_onchain_id_fails() {
    assert_eq!(RWA::onchain_id(&RwaStorage::new()), Err(RWAError::OnchainIdNotSet));
}

#[test]
fn set_and_get_compliance() {
    let mut rwa = RwaStorage::new();
    RWA::set_compliance(&mut rwa, COMPLIANCE);
    assert_eq!(RWA::compliance(&rwa), Ok(COMPLIANCE));
}

#[test]
fn get_unset_compliance_fails() {
    assert_eq!(RWA::compliance(&RwaStorage::new()), Err(RWAError::ComplianceNotSet));
}

#[test]
fn set_and_get_identity_verifier() {
    let mut rwa = RwaStorage::new();
    RWA::set_identity_verifier(&mut rwa, VERIFIER);
    assert_eq!(RWA::identity_verifier(&rwa), Ok(VERIFIER));
}

#[test]
fn get_unset_identity_verifier_fails() {
    assert_eq!(RWA::identity_verifier(&RwaStorage::new()), Err(RWAError::IdentityVerifierNotSet));
}

#[test]
fn mint_tokens() {
    let (rwa, mut t) = setup_all_contracts();
    mint(&rwa, &mut t, TO, 100);
    assert_eq!(Base::balance(&t, TO), 100);
    assert_eq!(Base::total_supply(&t), 100);
}

#[test]
fn mint_without_compliance_fails() {
    let mut rwa = RwaStorage::new();
    RWA::set_identity_verifier(&mut rwa, VERIFIER);
    let mut t = FungibleStorage::new();
    assert_eq!(
        RWA::mint(&rwa, &mut t, TO, 100, true, true),
        Err(RwaFailure::Rwa(RWAError::ComplianceNotSet))
    );
    assert_eq!(Base::total_supply(&t), 0);
}

#[test]
fn mint_fails_when_not_compliant() {
    let (rwa, mut t) = setup_all_contracts();
    assert_eq!(
        RWA::mint(&rwa, &mut t, FROM, 100, true, false),
        Err(RwaFailure::Rwa(RWAError::MintNotCompliant))
    );
}

#[test]
fn mint_fails_when_identity_verification_fails() {
    let mut rwa = RwaStorage::new();
    RWA::set_identity_verifier(&mut rwa, VERIFIER);
    let mut t = FungibleStorage::new();
    assert_eq!(
        RWA::mint(&rwa, &mut t, FROM, 100, false, true),
        Err(RwaFailure::Rwa(RWAError::IdentityVerificationFailed))
    );
}

#[test]
fn burn_tokens() {
    let (mut rwa, mut t) = setup_all_contracts();
    mint(&rwa, &mut t, FROM, 100);
    assert_eq!(Base::balance(&t, FROM), 100);
    assert_eq!(RWA::burn(&mut rwa, &mut t, FROM, 30), Ok(0));
    assert_eq!(Base::balance(&t, FROM), 70);
    assert_eq!(Base::total_supply(&t), 70);
}

#[test]
fn burn_insufficient_balance_fails() {
    let mut rwa = RwaStorage::new();
    let mut t = FungibleStorage::new();
    assert_eq!(RWA::burn(&mut rwa, &mut t, FROM, 100), Err(RwaFailure::Rwa(RWAError::InsufficientBalance)));
}

#[test]
fn forced_transfer() {
    let (mut rwa, mut t) = setup_all_contracts();
    mint(&rwa, &mut t, FROM, 100);
    assert_eq!(RWA::forced_transfer(&mut rwa, &mut t, FROM, TO, 50), Ok(0));
    assert_eq!(Base::balance(&t, FROM), 50);
    assert_eq!(Base::balance(&t, TO), 50);
}

#[test]
fn address_freezing() {
    let mut rwa = RwaStorage::new();
    assert!(!RWA::is_frozen(&rwa, FROM));
    RWA::set_address_frozen(&mut rwa, FROM, true);
    assert!(RWA::is_frozen(&rwa, FROM));
    RWA::set_address_frozen(&mut rwa, FROM, false);
    assert!(!RWA::is_frozen(&rwa, FROM));
}

#[test]
fn partial_token_freezing() {
    let (mut rwa, mut t) = setup_all_contracts();
    mint(&rwa, &mut t, FROM, 100);
    assert_eq!(RWA::get_frozen_tokens(&rwa, FROM), 0);
    RWA::freeze_partial_tokens(&mut rwa, &t, FROM, 30).unwrap();
    assert_eq!(RWA::get_frozen_tokens(&rwa, FROM), 30);
    RWA::unfreeze_partial_tokens(&mut rwa, &t, FROM, 10).unwrap();
    assert_eq!(RWA::get_frozen_tokens(&rwa, FROM), 20);
}

#[test]
fn freeze_more_than_balance_fails() {
    let (mut rwa, mut t) = setup_all_contracts();
    mint(&rwa, &mut t, FROM, 50);
    assert_eq!(RWA::freeze_partial_tokens(&mut rwa, &t, FROM, 100), Err(RWAError::InsufficientBalance));
    assert_eq!(RWA::get_frozen_tokens(&rwa, FROM), 0);
}

#[test]
fn unfreeze_more_than_frozen_fails() {
    let (mut rwa, mut t) = setup_all_contracts();
    mint(&rwa, &mut t, FROM, 100);
    RWA::freeze_partial_tokens(&mut rwa, &t, FROM, 30).unwrap();
    assert_eq!(RWA::unfreeze_partial_tokens(&mut rwa, &t, FROM, 50), Err(RWAError::InsufficientFreeTokens));
    assert_eq!(RWA::get_frozen_tokens(&rwa, FROM), 30);
}

#[test]
fn recover_balance() {
    let (mut rwa, mut t) = setup_all_contracts();
    mint(&rwa, &mut t, OLD, 100);
    assert_eq!(Base::balance(&t, OLD), 100);
    assert_eq!(RWA::recover_balance(&mut rwa, &mut t, OLD, NEW, true, Some(NEW)), Ok(true));
    assert_eq!(Base::balance(&t, OLD), 0);
    assert_eq!(Base::balance(&t, NEW), 100);
}

#[test]
fn recovery_with_zero_balance_returns_false() {
    let (mut rwa, mut t) = setup_all_contracts();
    assert_eq!(RWA::recover_balance(&mut rwa, &mut t, OLD, NEW, true, Some(NEW)), Ok(false));
}

#[test]
fn negative_amount_mint_fails() {
    let (rwa, mut t) = setup_all_contracts();
    assert_eq!(
        RWA::mint(&rwa, &mut t, FROM, -100, true, true),
        Err(RwaFailure::Token(FungibleTokenError::LessThanZero))
    );
}

#[test]
fn transfer_with_compliance_and_identity_checks() {
    let (rwa, mut t) = setup_all_contracts();
    mint(&rwa, &mut t, FROM, 100);
    RWA::transfer(&rwa, &mut t, FROM, TO, 50, OK).unwrap();
    assert_eq!(Base::balance(&t, FROM), 50);
    assert_eq!(Base::balance(&t, TO), 50);
}

#[test]
fn rwa_contract_overrides_transfer() {
    let (rwa, mut t) = setup_all_contracts();
    mint(&rwa, &mut t, FROM, 100);
    RWA::transfer(&rwa, &mut t, FROM, TO, 30, OK).unwrap();
    assert_eq!(Base::balance(&t, FROM), 70);
    assert_eq!(Base::balance(&t, TO), 30);
}

#[test]
fn rwa_contract_overrides_transfer_from() {
    let (rwa, mut t) = setup_all_contracts();
    let spender = 77;
    mint(&rwa, &mut t, FROM, 100);
    Base::approve(&mut t, FROM, spender, 50, 1000, 0).unwrap();
    assert_eq!(Base::allowance(&t, FROM, spender, 0), 50);
    RWA::transfer_from(&rwa, &mut t, spender, FROM, TO, 30, 0, OK).unwrap();
    assert_eq!(Base::balance(&t, FROM), 70);
    assert_eq!(Base::balance(&t, TO), 30);
    assert_eq!(Base::allowance(&t, FROM, spender, 0), 20);
}

#[test]
fn forced_transfer_insufficient_balance_fails() {
    let (mut rwa, mut t) = setup_all_contracts();
    mint(&rwa, &mut t, FROM, 50);
    assert_eq!(
        RWA::forced_transfer(&mut rwa, &mut t, FROM, TO, 100),
        Err(RwaFailure::Rwa(RWAError::InsufficientBalance))
    );
}

#[test]
fn forced_transfer_with_token_unfreezing() {
    let (mut rwa, mut t) = setup_all_contracts();
    mint(&rwa, &mut t, FROM, 100);
    RWA::freeze_partial_tokens(&mut rwa, &t, FROM, 60).unwrap();
    assert_eq!(RWA::get_frozen_tokens(&rwa, FROM), 60);
    assert_eq!(RWA::get_free_tokens(&rwa, &t, FROM), 40);
    assert_eq!(RWA::forced_transfer(&mut rwa, &mut t, FROM, TO, 70), Ok(30));
    assert_eq!(Base::balance(&t, FROM), 30);
    assert_eq!(Base::balance(&t, TO), 70);
    assert_eq!(RWA::get_frozen_tokens(&rwa, FROM), 30);
    assert_eq!(RWA::get_free_tokens(&rwa, &t, FROM), 0);
}

#[test]
fn forced_transfer_without_unfreezing_needed() {
    let (mut rwa, mut t) = setup_all_contracts();
    mint(&rwa, &mut t, FROM, 100);
    RWA::freeze_partial_tokens(&mut rwa, &t, FROM, 30).unwrap();
    assert_eq!(RWA::get_frozen_tokens(&rwa, FROM), 30);
    assert_eq!(RWA::get_free_tokens(&rwa, &t, FROM), 70);
    assert_eq!(RWA::forced_transfer(&mut rwa, &mut t, FROM, TO, 50), Ok(0));
    assert_eq!(Base::balance(&t, FROM), 50);
    assert_eq!(Base::balance(&t, TO), 50);
    assert_eq!(RWA::get_frozen_tokens(&rwa, FROM), 30);
    assert_eq!(RWA::get_free_tokens(&rwa, &t, FROM), 20);
}

#[test]
fn forced_transfer_exact_unfreezing() {
    let (mut rwa, mut t) = setup_all_contracts();
    mint(&rwa, &mut t, FROM, 100);
    RWA::freeze_partial_tokens(&mut rwa, &t, FROM, 100).unwrap();
    assert_eq!(RWA::get_frozen_tokens(&rwa, FROM), 100);
    assert_eq!(RWA::get_free_tokens(&rwa, &t, FROM), 0);
    assert_eq!(RWA::forced_transfer(&mut rwa, &mut t, FROM, TO, 100), Ok(100));
    assert_eq!(Base::balance(&t, FROM), 0);
    assert_eq!(Base::balance(&t, TO), 100);
    assert_eq!(RWA::get_frozen_tokens(&rwa, FROM), 0);
    assert_eq!(RWA::get_free_tokens(&rwa, &t, FROM), 0);
}

#[test]
fn recover_balance_with_frozen_tokens() {
    let (mut rwa, mut t) = setup_all_contracts();
    mint(&rwa, &mut t, OLD, 100);
    RWA::freeze_partial_tokens(&mut rwa, &t, OLD, 60).unwrap();
    assert_eq!(RWA::get_frozen_tokens(&rwa, OLD), 60);
    assert_eq!(RWA::recover_balance(&mut rwa, &mut t, OLD, NEW, true, Some(NEW)), Ok(true));
    assert_eq!(Base::balance(&t, OLD), 0);
    assert_eq!(Base::balance(&t, NEW), 100);
    assert_eq!(RWA::get_frozen_tokens(&rwa, NEW), 60);
    assert_eq!(RWA::get_frozen_tokens(&rwa, OLD), 0);
}

#[test]
fn recover_balance_with_frozen_address() {
    let (mut rwa, mut t) = setup_all_contracts();
    mint(&rwa, &mut t, OLD, 100);
    RWA::set_address_frozen(&mut rwa, OLD, true);
    assert!(RWA::is_frozen(&rwa, OLD));
    assert_eq!(RWA::recover_balance(&mut rwa, &mut t, OLD, NEW, true, Some(NEW)), Ok(true));
    assert_eq!(Base::balance(&t, OLD), 0);
    assert_eq!(Base::balance(&t, NEW), 100);
    assert!(RWA::is_frozen(&rwa, NEW));
}

#[test]
fn recover_balance_with_both_frozen_tokens_and_address() {
    let (mut rwa, mut t) = setup_all_contracts();
    mint(&rwa, &mut t, OLD, 100);
    RWA::freeze_partial_tokens(&mut rwa, &t, OLD, 80).unwrap();
    RWA::set_address_frozen(&mut rwa, OLD, true);
    assert_eq!(RWA::get_frozen_tokens(&rwa, OLD), 80);
    assert!(RWA::is_frozen(&rwa, OLD));
    assert_eq!(RWA::recover_balance(&mut rwa, &mut t, OLD, NEW, true, Some(NEW)), Ok(true));
    assert_eq!(Base::balance(&t, OLD), 0);
    assert_eq!(Base::balance(&t, NEW), 100);
    assert_eq!(RWA::get_frozen_tokens(&rwa, NEW), 80);
    assert!(RWA::is_frozen(&rwa, NEW));
}

#[test]
fn recover_balance_without_recovery_target_fails() {
    let (mut rwa, mut t) = setup_all_contracts();
    mint(&rwa, &mut t, OLD, 100);
    assert_eq!(
        RWA::recover_balance(&mut rwa, &mut t, OLD, NEW, true, None),
        Err(RwaFailure::Rwa(RWAError::IdentityMismatch))
    );
    assert_eq!(Base::balance(&t, OLD), 100);
}

#[test]
fn recover_balance_with_wrong_recovery_target_fails() {
    let (mut rwa, mut t) = setup_all_contracts();
    mint(&rwa, &mut t, OLD, 100);
    assert_eq!(
        RWA::recover_balance(&mut rwa, &mut t, OLD, NEW, true, Some(99)),
        Err(RwaFailure::Rwa(RWAError::IdentityMismatch))
    );
}

#[test]
fn freeze_partial_tokens_negative_amount_fails() {
    let (mut rwa, mut t) = setup_all_contracts();
    mint(&rwa, &mut t, FROM, 100);
    assert_eq!(RWA::freeze_partial_tokens(&mut rwa, &t, FROM, -10), Err(RWAError::LessThanZero));
}

#[test]
fn unfreeze_partial_tokens_negative_amount_fails() {
    let (mut rwa, mut t) = setup_all_contracts();
    mint(&rwa, &mut t, FROM, 100);
    RWA::freeze_partial_tokens(&mut rwa, &t, FROM, 50).unwrap();
    assert_eq!(RWA::unfreeze_partial_tokens(&mut rwa, &t, FROM, -10), Err(RWAError::LessThanZero));
}

#[test]
fn transfer_fails_when_from_address_frozen() {
    let (mut rwa, mut t) = setup_all_contracts();
    mint(&rwa, &mut t, FROM, 100);
    RWA::set_address_frozen(&mut rwa, FROM, true);
    assert_eq!(RWA::transfer(&rwa, &mut t, FROM, TO, 50, OK), Err(RwaFailure::Rwa(RWAError::AddressFrozen)));
}

#[test]
fn transfer_fails_when_to_address_frozen() {
    let (mut rwa, mut t) = setup_all_contracts();
    mint(&rwa, &mut t, FROM, 100);
    RWA::set_address_frozen(&mut rwa, TO, true);
    assert_eq!(RWA::transfer(&rwa, &mut t, FROM, TO, 50, OK), Err(RwaFailure::Rwa(RWAError::AddressFrozen)));
}

#[test]
fn transfer_fails_when_insufficient_free_tokens() {
    let (mut rwa, mut t) = setup_all_contracts();
    mint(&rwa, &mut t, FROM, 100);
    RWA::freeze_partial_tokens(&mut rwa, &t, FROM, 80).unwrap();
    assert_eq!(RWA::get_free_tokens(&rwa, &t, FROM), 20);
    assert_eq!(
        RWA::transfer(&rwa, &mut t, FROM, TO, 50, OK),
        Err(RwaFailure::Rwa(RWAError::InsufficientFreeTokens))
    );
}

#[test]
fn transfer_fails_when_contract_paused() {
    let (rwa, mut t) = setup_all_contracts();
    mint(&rwa, &mut t, FROM, 100);
    let paused = TransferChecks { paused: true, ..OK };
    assert_eq!(RWA::transfer(&rwa, &mut t, FROM, TO, 50, paused), Err(RwaFailure::Paused));
}

#[test]
fn transfer_fails_when_not_compliant() {
    let (rwa, mut t) = setup_all_contracts();
    mint(&rwa, &mut t, FROM, 100);
    let refused = TransferChecks { compliant: false, ..OK };
    assert_eq!(
        RWA::transfer(&rwa, &mut t, FROM, TO, 50, refused),
        Err(RwaFailure::Rwa(RWAError::TransferNotCompliant))
    );
    assert_eq!(Base::balance(&t, FROM), 100);
}

#[test]
fn transfer_checks_identity_of_both_parties() {
    let (rwa, mut t) = setup_all_contracts();
    mint(&rwa, &mut t, FROM, 100);
    let unverified = TransferChecks { to_verified: false, ..OK };
    assert_eq!(
        RWA::transfer(&rwa, &mut t, FROM, TO, 50, unverified),
        Err(RwaFailure::Rwa(RWAError::IdentityVerificationFailed))
    );
}

#[test]
fn burn_unfreezes_what_the_free_tokens_do_not_cover() {
    let (mut rwa, mut t) = setup_all_contracts();
    mint(&rwa, &mut t, FROM, 100);
    RWA::freeze_partial_tokens(&mut rwa, &t, FROM, 90).unwrap();
    assert_eq!(RWA::burn(&mut rwa, &mut t, FROM, 50), Ok(40));
    assert_eq!(RWA::get_frozen_tokens(&rwa, FROM), 50);
    assert_eq!(Base::balance(&t, FROM), 50);
}

#[test]
fn forced_transfer_needs_a_compliance_contract() {
    let mut rwa = RwaStorage::new();
    RWA::set_identity_verifier(&mut rwa, VERIFIER);
    let mut t = FungibleStorage::new();
    Base::mint(&mut t, FROM, 10).unwrap();
    assert_eq!(
        RWA::forced_transfer(&mut rwa, &mut t, FROM, TO, 5),
        Err(RwaFailure::Rwa(RWAError::ComplianceNotSet))
    );
    assert_eq!(Base::balance(&t, FROM), 10);
}

#[test]
fn recovery_onto_an_account_with_its_own_freezes_adds_them_up() {
    let (mut rwa, mut t) = setup_all_contracts();
    mint(&rwa, &mut t, OLD, 100);
    mint(&rwa, &mut t, NEW, 20);
    RWA::freeze_partial_tokens(&mut rwa, &t, OLD, 60).unwrap();
    RWA::freeze_partial_tokens(&mut rwa, &t, NEW, 5).unwrap();
    assert_eq!(RWA::recover_balance(&mut rwa, &mut t, OLD, NEW, true, Some(NEW)), Ok(true));
    assert_eq!(RWA::get_frozen_tokens(&rwa, NEW), 65);
    assert_eq!(Base::balance(&t, NEW), 120);
    assert!(!RWA::is_frozen(&rwa, NEW));
}
