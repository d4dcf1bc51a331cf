use stellar_tokens::allowlist::{AllowList, AllowListStorage};
use stellar_tokens::fungible::{Base, FungibleStorage, FungibleTokenError};

const USER1: u64 = 1;
const USER2: u64 = 2;

#[test]
fn allow_user_works() {
    let mut list = AllowListStorage::new();
    assert!(!AllowList::allowed(&list, USER1));
    assert!(AllowList::allow_user(&mut list, USER1));
    assert!(AllowList::allowed(&list, USER1));
}

#[test]
fn disallow_user_works() {
    let mut list = AllowListStorage::new();
    AllowList::allow_user(&mut list, USER1);
    assert!(AllowList::allowed(&list, USER1));
    assert!(AllowList::disallow_user(&mut list, USER1));
    assert!(!AllowList::allowed(&list, USER1));
}

#[test]
fn transfer_with_allowed_users_works() {
    let mut list = AllowListStorage::new();
    let mut token = FungibleStorage::new();
    AllowList::allow_user(&mut list, USER1);
    AllowList::allow_user(&mut list, USER2);
    Base::mint(&mut token, USER1, 100).unwrap();
    AllowList::transfer(&list, &mut token, USER1, USER2, 50).unwrap();
    assert_eq!(Base::balance(&token, USER1), 50);
    assert_eq!(Base::balance(&token, USER2), 50);
}

#[test]
fn allowlist_burn_override_works() {
    let mut list = AllowListStorage::new();
    let mut token = FungibleStorage::new();
    AllowList::allow_user(&mut list, USER1);
    Base::mint(&mut token, USER1, 100).unwrap();
    AllowList::burn(&list, &mut token, USER1, 50).unwrap();
    assert_eq!(Base::balance(&token, USER1), 50);
}

#[test]
fn allowlist_burn_from_override_works() {
    let mut list = AllowListStorage::new();
    let mut token = FungibleStorage::new();
    AllowList::allow_user(&mut list, USER1);
    Base::mint(&mut token, USER1, 100).unwrap();
    Base::approve(&mut token, USER1, USER2, 50, 100, 0).unwrap();
    AllowList::burn_from(&list, &mut token, USER2, USER1, 50, 0).unwrap();
    assert_eq!(Base::balance(&token, USER1), 50);
}

#[test]
fn transfer_with_sender_not_allowed_panics() {
    let mut list = AllowListStorage::new();
    let mut token = FungibleStorage::new();
    AllowList::allow_user(&mut list, USER2);
    Base::mint(&mut token, USER1, 100).unwrap();
    let r = AllowList::transfer(&list, &mut token, USER1, USER2, 50);
    assert_eq!(r, Err(FungibleTokenError::UserNotAllowed));
    assert_eq!(Base::balance(&token, USER1), 100);
}

#[test]
fn transfer_with_receiver_not_allowed_panics() {
    let mut list = AllowListStorage::new();
    let mut token = FungibleStorage::new();
    AllowList::allow_user(&mut list, USER1);
    Base::mint(&mut token, USER1, 100).unwrap();
    let r = AllowList::transfer(&list, &mut token, USER1, USER2, 50);
    assert_eq!(r, Err(FungibleTokenError::UserNotAllowed));
    assert_eq!(Base::balance(&token, USER2), 0);
}

#[test]
fn approve_with_owner_not_allowed_panics() {
    let list = AllowListStorage::new();
    let mut token = FungibleStorage::new();
    let r = AllowList::approve(&list, &mut token, USER1, USER2, 50, 100, 0);
    assert_eq!(r, Err(FungibleTokenError::UserNotAllowed));
    assert_eq!(Base::allowance(&token, USER1, USER2, 0), 0);
}

#[test]
fn burn_with_not_allowed_panics() {
    let list = AllowListStorage::new();
    let mut token = FungibleStorage::new();
    Base::mint(&mut token, USER1, 100).unwrap();
    let r = AllowList::burn(&list, &mut token, USER1, 50);
    assert_eq!(r, Err(FungibleTokenError::UserNotAllowed));
    assert_eq!(Base::total_supply(&token), 100);
}

#[test]
fn burn_from_with_not_allowed_panics() {
    let list = AllowListStorage::new();
    let mut token = FungibleStorage::new();
    Base::mint(&mut token, USER1, 100).unwrap();
    Base::approve(&mut token, USER1, USER2, 50, 100, 0).unwrap();
    let r = AllowList::burn_from(&list, &mut token, USER2, USER1, 50, 0);
    assert_eq!(r, Err(FungibleTokenError::UserNotAllowed));
    assert_eq!(Base::allowance(&token, USER1, USER2, 0), 50);
}

#[test]
fn allow_and_disallow_report_whether_anything_changed() {
    let mut list = AllowListStorage::new();
    assert!(AllowList::allow_user(&mut list, USER1));
    assert!(!AllowList::allow_user(&mut list, USER1));
    assert!(AllowList::disallow_user(&mut list, USER1));
    assert!(!AllowList::disallow_user(&mut list, USER1));
}

#[test]
fn allowlist_transfer_from_checks_both_parties_then_allowance() {
    let mut list = AllowListStorage::new();
    let mut token = FungibleStorage::new();
    AllowList::allow_user(&mut list, USER1);
    AllowList::allow_user(&mut list, USER2);
    Base::mint(&mut token, USER1, 100).unwrap();
    let r = AllowList::transfer_from(&list, &mut token, 3, USER1, USER2, 10, 0);
    assert_eq!(r, Err(FungibleTokenError::InsufficientAllowance));
    Base::approve(&mut token, USER1, 3, 10, 100, 0).unwrap();
    AllowList::transfer_from(&list, &mut token, 3, USER1, USER2, 10, 0).unwrap();
    assert_eq!(Base::balance(&token, USER2), 10);
    assert_eq!(Base::allowance(&token, USER1, 3, 0), 0);
}
