use stellar_tokens::fungible::{Base, FungibleStorage, FungibleTokenError};
use stellar_tokens::fungible_votes::FungibleVotes;
use stellar_tokens::votes::{Votes, VotesStorage};

const ALICE: u64 = 1;
const BOB: u64 = 2;
const CHARLIE: u64 = 3;
const DELEGATE_A: u64 = 10;
const DELEGATE_B: u64 = 11;
const OWNER: u64 = 20;
const SPENDER: u64 = 21;
const RECIPIENT: u64 = 22;

fn setup() -> (FungibleStorage, VotesStorage) {
    (FungibleStorage::new(), VotesStorage::new())
}

#[test]
fn mint_updates_voting_units() {
    let (mut t, mut v) = setup();
    FungibleVotes::mint(&mut t, &mut v, ALICE, 100).unwrap();
    assert_eq!(Base::balance(&t, ALICE), 100);
    assert_eq!(Base::total_supply(&t), 100);
    assert_eq!(Votes::get_voting_units(&v, ALICE), 100);
}

#[test]
fn mint_with_delegation_updates_votes() {
    let (mut t, mut v) = setup();
    Votes::delegate(&mut v, ALICE, BOB);
    FungibleVotes::mint(&mut t, &mut v, ALICE, 100).unwrap();
    assert_eq!(Base::balance(&t, ALICE), 100);
    assert_eq!(Votes::get_voting_units(&v, ALICE), 100);
    assert_eq!(Votes::get_votes(&v, BOB), 100);
}

#[test]
fn burn_updates_voting_units() {
    let (mut t, mut v) = setup();
    FungibleVotes::mint(&mut t, &mut v, ALICE, 100).unwrap();
    FungibleVotes::burn(&mut t, &mut v, ALICE, 30).unwrap();
    assert_eq!(Base::balance(&t, ALICE), 70);
    assert_eq!(Base::total_supply(&t), 70);
    assert_eq!(Votes::get_voting_units(&v, ALICE), 70);
}

#[test]
fn burn_with_delegation_updates_votes() {
    let (mut t, mut v) = setup();
    Votes::delegate(&mut v, ALICE, BOB);
    FungibleVotes::mint(&mut t, &mut v, ALICE, 100).unwrap();
    assert_eq!(Votes::get_votes(&v, BOB), 100);
    FungibleVotes::burn(&mut t, &mut v, ALICE, 40).unwrap();
    assert_eq!(Votes::get_votes(&v, BOB), 60);
}

#[test]
fn burn_from_updates_voting_units() {
    let (mut t, mut v) = setup();
    FungibleVotes::mint(&mut t, &mut v, OWNER, 100).unwrap();
    Base::approve(&mut t, OWNER, SPENDER, 50, 1000, 0).unwrap();
    FungibleVotes::burn_from(&mut t, &mut v, SPENDER, OWNER, 30, 0).unwrap();
    assert_eq!(Base::balance(&t, OWNER), 70);
    assert_eq!(Votes::get_voting_units(&v, OWNER), 70);
}

#[test]
fn transfer_updates_voting_units() {
    let (mut t, mut v) = setup();
    FungibleVotes::mint(&mut t, &mut v, ALICE, 100).unwrap();
    FungibleVotes::transfer(&mut t, &mut v, ALICE, BOB, 40).unwrap();
    assert_eq!(Base::balance(&t, ALICE), 60);
    assert_eq!(Base::balance(&t, BOB), 40);
    assert_eq!(Votes::get_voting_units(&v, ALICE), 60);
    assert_eq!(Votes::get_voting_units(&v, BOB), 40);
}

#[test]
fn transfer_with_delegation_updates_votes() {
    let (mut t, mut v) = setup();
    FungibleVotes::mint(&mut t, &mut v, ALICE, 100).unwrap();
    Votes::delegate(&mut v, ALICE, DELEGATE_A);
    assert_eq!(Votes::get_votes(&v, DELEGATE_A), 100);
    FungibleVotes::mint(&mut t, &mut v, BOB, 50).unwrap();
    Votes::delegate(&mut v, BOB, DELEGATE_B);
    assert_eq!(Votes::get_votes(&v, DELEGATE_B), 50);
    FungibleVotes::transfer(&mut t, &mut v, ALICE, BOB, 30).unwrap();
    assert_eq!(Votes::get_votes(&v, DELEGATE_A), 70);
    assert_eq!(Votes::get_votes(&v, DELEGATE_B), 80);
}

#[test]
fn transfer_from_updates_voting_units() {
    let (mut t, mut v) = setup();
    FungibleVotes::mint(&mut t, &mut v, OWNER, 100).unwrap();
    Base::approve(&mut t, OWNER, SPENDER, 50, 1000, 0).unwrap();
    FungibleVotes::transfer_from(&mut t, &mut v, SPENDER, OWNER, RECIPIENT, 30, 0).unwrap();
    assert_eq!(Base::balance(&t, OWNER), 70);
    assert_eq!(Base::balance(&t, RECIPIENT), 30);
    assert_eq!(Votes::get_voting_units(&v, OWNER), 70);
    assert_eq!(Votes::get_voting_units(&v, RECIPIENT), 30);
}

#[test]
fn transfer_from_with_delegation_updates_votes() {
    let (mut t, mut v) = setup();
    FungibleVotes::mint(&mut t, &mut v, OWNER, 100).unwrap();
    Votes::delegate(&mut v, OWNER, DELEGATE_A);
    Votes::delegate(&mut v, RECIPIENT, DELEGATE_B);
    Base::approve(&mut t, OWNER, SPENDER, 50, 1000, 0).unwrap();
    FungibleVotes::transfer_from(&mut t, &mut v, SPENDER, OWNER, RECIPIENT, 30, 0).unwrap();
    assert_eq!(Votes::get_votes(&v, DELEGATE_A), 70);
    assert_eq!(Votes::get_votes(&v, DELEGATE_B), 30);
}

#[test]
fn zero_mint_is_noop() {
    let (mut t, mut v) = setup();
    FungibleVotes::mint(&mut t, &mut v, ALICE, 100).unwrap();
    Votes::delegate(&mut v, ALICE, BOB);
    assert_eq!(Votes::get_votes(&v, BOB), 100);
    FungibleVotes::mint(&mut t, &mut v, ALICE, 0).unwrap();
    assert_eq!(Votes::get_voting_units(&v, ALICE), 100);
}

#[test]
fn zero_burn_is_noop() {
    let (mut t, mut v) = setup();
    FungibleVotes::mint(&mut t, &mut v, ALICE, 100).unwrap();
    assert_eq!(Votes::get_voting_units(&v, ALICE), 100);
    FungibleVotes::burn(&mut t, &mut v, ALICE, 0).unwrap();
    assert_eq!(Votes::get_voting_units(&v, ALICE), 100);
}

#[test]
fn zero_transfer_is_noop() {
    let (mut t, mut v) = setup();
    FungibleVotes::mint(&mut t, &mut v, ALICE, 100).unwrap();
    assert_eq!(Votes::get_voting_units(&v, ALICE), 100);
    FungibleVotes::transfer(&mut t, &mut v, ALICE, BOB, 0).unwrap();
    assert_eq!(Votes::get_voting_units(&v, ALICE), 100);
}

#[test]
fn delegate_before_mint() {
    let (mut t, mut v) = setup();
    Votes::delegate(&mut v, ALICE, BOB);
    assert_eq!(Votes::get_delegate(&v, ALICE), Some(BOB));
    assert_eq!(Votes::get_votes(&v, BOB), 0);
    FungibleVotes::mint(&mut t, &mut v, ALICE, 100).unwrap();
    assert_eq!(Votes::get_votes(&v, BOB), 100);
}

#[test]
fn self_delegation() {
    let (mut t, mut v) = setup();
    FungibleVotes::mint(&mut t, &mut v, ALICE, 100).unwrap();
    Votes::delegate(&mut v, ALICE, ALICE);
    assert_eq!(Votes::get_delegate(&v, ALICE), Some(ALICE));
    assert_eq!(Votes::get_votes(&v, ALICE), 100);
}

#[test]
fn change_delegate_after_mint() {
    let (mut t, mut v) = setup();
    FungibleVotes::mint(&mut t, &mut v, ALICE, 100).unwrap();
    Votes::delegate(&mut v, ALICE, BOB);
    assert_eq!(Votes::get_votes(&v, BOB), 100);
    assert_eq!(Votes::delegate(&mut v, ALICE, CHARLIE), Some(BOB));
    assert_eq!(Votes::get_votes(&v, BOB), 0);
    assert_eq!(Votes::get_votes(&v, CHARLIE), 100);
}

#[test]
fn burn_insufficient_balance_panics() {
    let (mut t, mut v) = setup();
    FungibleVotes::mint(&mut t, &mut v, ALICE, 100).unwrap();
    let r = FungibleVotes::burn(&mut t, &mut v, ALICE, 150);
    assert_eq!(r, Err(FungibleTokenError::InsufficientBalance));
    assert_eq!(Votes::get_voting_units(&v, ALICE), 100);
}

#[test]
fn transfer_insufficient_balance_panics() {
    let (mut t, mut v) = setup();
    FungibleVotes::mint(&mut t, &mut v, ALICE, 100).unwrap();
    let r = FungibleVotes::transfer(&mut t, &mut v, ALICE, BOB, 150);
    assert_eq!(r, Err(FungibleTokenError::InsufficientBalance));
    assert_eq!(Votes::get_voting_units(&v, BOB), 0);
}

#[test]
fn transfer_from_insufficient_allowance_panics() {
    let (mut t, mut v) = setup();
    FungibleVotes::mint(&mut t, &mut v, OWNER, 100).unwrap();
    Base::approve(&mut t, OWNER, SPENDER, 20, 1000, 0).unwrap();
    let r = FungibleVotes::transfer_from(&mut t, &mut v, SPENDER, OWNER, RECIPIENT, 50, 0);
    assert_eq!(r, Err(FungibleTokenError::InsufficientAllowance));
    assert_eq!(Votes::get_voting_units(&v, OWNER), 100);
}

#[test]
fn multiple_holders_with_same_delegate() {
    let (mut t, mut v) = setup();
    FungibleVotes::mint(&mut t, &mut v, ALICE, 100).unwrap();
    FungibleVotes::mint(&mut t, &mut v, BOB, 50).unwrap();
    Votes::delegate(&mut v, ALICE, CHARLIE);
    Votes::delegate(&mut v, BOB, CHARLIE);
    assert_eq!(Votes::get_votes(&v, CHARLIE), 150);
}

#[test]
fn transfer_between_delegated_accounts() {
    let (mut t, mut v) = setup();
    FungibleVotes::mint(&mut t, &mut v, ALICE, 100).unwrap();
    FungibleVotes::mint(&mut t, &mut v, BOB, 50).unwrap();
    Votes::delegate(&mut v, ALICE, ALICE);
    Votes::delegate(&mut v, BOB, BOB);
    assert_eq!(Votes::get_votes(&v, ALICE), 100);
    assert_eq!(Votes::get_votes(&v, BOB), 50);
    FungibleVotes::transfer(&mut t, &mut v, ALICE, BOB, 30).unwrap();
    assert_eq!(Votes::get_votes(&v, ALICE), 70);
    assert_eq!(Votes::get_votes(&v, BOB), 80);
}

#[test]
fn contract_overrides_transfer() {
    let (mut t, mut v) = setup();
    FungibleVotes::mint(&mut t, &mut v, ALICE, 100).unwrap();
    assert_eq!(Votes::get_voting_units(&v, ALICE), 100);
    FungibleVotes::transfer(&mut t, &mut v, ALICE, BOB, 40).unwrap();
    assert_eq!(Base::balance(&t, ALICE), 60);
    assert_eq!(Base::balance(&t, BOB), 40);
    assert_eq!(Votes::get_voting_units(&v, ALICE), 60);
    assert_eq!(Votes::get_voting_units(&v, BOB), 40);
}

#[test]
fn contract_overrides_transfer_from() {
    let (mut t, mut v) = setup();
    FungibleVotes::mint(&mut t, &mut v, OWNER, 100).unwrap();
    Base::approve(&mut t, OWNER, SPENDER, 50, 1000, 0).unwrap();
    FungibleVotes::transfer_from(&mut t, &mut v, SPENDER, OWNER, RECIPIENT, 30, 0).unwrap();
    assert_eq!(Base::balance(&t, OWNER), 70);
    assert_eq!(Base::balance(&t, RECIPIENT), 30);
    assert_eq!(Votes::get_voting_units(&v, OWNER), 70);
    assert_eq!(Votes::get_voting_units(&v, RECIPIENT), 30);
}

#[test]
fn burn_all_tokens() {
    let (mut t, mut v) = setup();
    FungibleVotes::mint(&mut t, &mut v, ALICE, 100).unwrap();
    Votes::delegate(&mut v, ALICE, BOB);
    assert_eq!(Votes::get_votes(&v, BOB), 100);
    FungibleVotes::burn(&mut t, &mut v, ALICE, 100).unwrap();
    assert_eq!(Base::balance(&t, ALICE), 0);
    assert_eq!(Votes::get_voting_units(&v, ALICE), 0);
    assert_eq!(Votes::get_votes(&v, BOB), 0);
}

#[test]
fn votes_equal_units_delegated_after_a_mix_of_operations() {
    let (mut t, mut v) = setup();
    FungibleVotes::mint(&mut t, &mut v, ALICE, 100).unwrap();
    FungibleVotes::mint(&mut t, &mut v, BOB, 40).unwrap();
    Votes::delegate(&mut v, ALICE, CHARLIE);
    Votes::delegate(&mut v, BOB, CHARLIE);
    FungibleVotes::transfer(&mut t, &mut v, ALICE, RECIPIENT, 25).unwrap();
    FungibleVotes::burn(&mut t, &mut v, BOB, 10).unwrap();
    // Charlie holds the units of Alice (75) and Bob (30); the recipient's
    // units are not delegated and count for nobody.
    assert_eq!(Votes::get_votes(&v, CHARLIE), 105);
    assert_eq!(Votes::get_votes(&v, RECIPIENT), 0);
    assert_eq!(Votes::get_total_supply(&v), 130);
    assert_eq!(Base::total_supply(&t), 130);
}

#[test]
fn voting_units_cannot_be_overdrawn() {
    let mut v = VotesStorage::new();
    assert_eq!(
        Votes::transfer_voting_units(&mut v, Some(ALICE), Some(BOB), 1),
        Err(stellar_tokens::votes::VotesError::InsufficientVotingUnits)
    );
    Votes::transfer_voting_units(&mut v, None, Some(ALICE), u128::MAX).unwrap();
    assert_eq!(
        Votes::transfer_voting_units(&mut v, None, Some(BOB), 1),
        Err(stellar_tokens::votes::VotesError::MathOverflow)
    );
    assert_eq!(Votes::get_total_supply(&v), u128::MAX);
}
