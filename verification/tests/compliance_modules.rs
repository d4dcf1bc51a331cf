use stellar_tokens::compliance::{
    add_i128_or_panic, get_compliance_address, get_irs_address, hooks_verified, require_non_negative_amount,
    set_compliance_address, set_irs_address, sub_i128_or_panic, verify_required_hooks, ComplianceModuleError,
    ModuleStorage,
};

const COMPLIANCE: u64 = 10;
const TOKEN: u64 = 20;
const IRS: u64 = 30;

#[test]
fn verify_required_hooks_panics_when_unconfigured() {
    let mut m = ModuleStorage::new();
    assert_eq!(verify_required_hooks(&mut m, &vec![true]), Err(ComplianceModuleError::ComplianceNotSet));
    assert!(!hooks_verified(&m));
}

#[test]
fn verify_required_hooks_sets_cache_when_registered() {
    let mut m = ModuleStorage::new();
    set_compliance_address(&mut m, COMPLIANCE).unwrap();
    verify_required_hooks(&mut m, &vec![true]).unwrap();
    assert!(hooks_verified(&m));
}

#[test]
fn verify_required_hooks_returns_early_when_cached() {
    let mut m = ModuleStorage::new();
    set_compliance_address(&mut m, COMPLIANCE).unwrap();
    verify_required_hooks(&mut m, &vec![true]).unwrap();
    // Once recorded, the registrations are not looked at again.
    assert_eq!(verify_required_hooks(&mut m, &vec![false]), Ok(()));
    assert!(hooks_verified(&m));
}

#[test]
fn verify_required_hooks_missing_required_hook_panics_with_contract_error() {
    let mut m = ModuleStorage::new();
    set_compliance_address(&mut m, COMPLIANCE).unwrap();
    assert_eq!(verify_required_hooks(&mut m, &vec![false]), Err(ComplianceModuleError::MissingRequiredHook));
    assert!(!hooks_verified(&m));
}

#[test]
fn get_irs_client_panics_when_not_configured() {
    let m = ModuleStorage::new();
    assert_eq!(get_irs_address(&m, TOKEN), Err(ComplianceModuleError::IdentityRegistryNotSet));
}

#[test]
fn set_compliance_address_panics_with_contract_error_when_already_set() {
    let mut m = ModuleStorage::new();
    set_compliance_address(&mut m, COMPLIANCE).unwrap();
    assert_eq!(set_compliance_address(&mut m, COMPLIANCE), Err(ComplianceModuleError::ComplianceAlreadySet));
}

#[test]
fn get_compliance_address_panics_when_not_configured() {
    let m = ModuleStorage::new();
    assert_eq!(get_compliance_address(&m), Err(ComplianceModuleError::ComplianceNotSet));
}

#[test]
fn get_compliance_address_returns_configured_address() {
    let mut m = ModuleStorage::new();
    set_compliance_address(&mut m, COMPLIANCE).unwrap();
    assert_eq!(get_compliance_address(&m), Ok(COMPLIANCE));
}

#[test]
fn panicking_math_helpers_return_expected_values() {
    assert_eq!(add_i128_or_panic(2, 3), Ok(5));
    assert_eq!(sub_i128_or_panic(7, 4), Ok(3));
}

#[test]
fn add_i128_or_panic_panics_on_overflow() {
    assert_eq!(add_i128_or_panic(i128::MAX, 1), Err(ComplianceModuleError::MathOverflow));
}

#[test]
fn sub_i128_or_panic_panics_on_underflow() {
    assert_eq!(sub_i128_or_panic(i128::MIN, 1), Err(ComplianceModuleError::MathUnderflow));
}

#[test]
fn irs_address_is_kept_per_token() {
    let mut m = ModuleStorage::new();
    set_irs_address(&mut m, TOKEN, IRS);
    assert_eq!(get_irs_address(&m, TOKEN), Ok(IRS));
    assert_eq!(get_irs_address(&m, TOKEN + 1), Err(ComplianceModuleError::IdentityRegistryNotSet));
    set_irs_address(&mut m, TOKEN, IRS + 1);
    assert_eq!(get_irs_address(&m, TOKEN), Ok(IRS + 1));
}

#[test]
fn negative_amounts_are_refused() {
    assert_eq!(require_non_negative_amount(-1), Err(ComplianceModuleError::InvalidAmount));
    assert_eq!(require_non_negative_amount(0), Ok(()));
}
