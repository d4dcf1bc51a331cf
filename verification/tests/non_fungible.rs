use stellar_tokens::non_fungible::{NonFungibleBase, NonFungibleStorage, NonFungibleTokenError};

const ALICE: u64 = 1;
const BOB: u64 = 2;
const CAROL: u64 = 3;

#[test]
fn moving_a_token_and_moving_it_back_restores_owner_and_counts() {
    let mut n = NonFungibleStorage::new();
    NonFungibleBase::mint(&mut n, ALICE, 5).unwrap();
    NonFungibleBase::transfer(&mut n, ALICE, BOB, 5).unwrap();
    assert_eq!(NonFungibleBase::owner_of(&n, 5), Ok(BOB));
    NonFungibleBase::transfer(&mut n, BOB, ALICE, 5).unwrap();
    assert_eq!(NonFungibleBase::owner_of(&n, 5), Ok(ALICE));
    assert_eq!(NonFungibleBase::balance(&n, ALICE), 1);
    assert_eq!(NonFungibleBase::balance(&n, BOB), 0);
    NonFungibleBase::burn(&mut n, ALICE, 5).unwrap();
    NonFungibleBase::mint(&mut n, ALICE, 5).unwrap();
    assert_eq!(NonFungibleBase::owner_of(&n, 5), Ok(ALICE));
    assert_eq!(NonFungibleBase::balance(&n, ALICE), 1);
}

#[test]
fn nft_errors_for_each_refusal() {
    let mut n = NonFungibleStorage::new();
    assert_eq!(NonFungibleBase::owner_of(&n, 9), Err(NonFungibleTokenError::NonExistentToken));
    NonFungibleBase::mint(&mut n, ALICE, 9).unwrap();
    assert_eq!(NonFungibleBase::mint(&mut n, BOB, 9), Err(NonFungibleTokenError::TokenAlreadyMinted));
    assert_eq!(NonFungibleBase::transfer(&mut n, BOB, CAROL, 9), Err(NonFungibleTokenError::IncorrectOwner));
    assert_eq!(NonFungibleBase::approve(&mut n, BOB, CAROL, 9, 100, 10), Err(NonFungibleTokenError::InvalidApprover));
    assert_eq!(
        NonFungibleBase::approve(&mut n, ALICE, CAROL, 9, 5, 10),
        Err(NonFungibleTokenError::InvalidLiveUntilLedger)
    );
    assert_eq!(
        NonFungibleBase::transfer_from(&mut n, CAROL, ALICE, BOB, 9, 10),
        Err(NonFungibleTokenError::InsufficientApproval)
    );
    assert_eq!(NonFungibleBase::owner_of(&n, 9), Ok(ALICE));
}

#[test]
fn an_approval_lets_the_spender_move_the_token_once() {
    let mut n = NonFungibleStorage::new();
    NonFungibleBase::mint(&mut n, ALICE, 1).unwrap();
    NonFungibleBase::approve(&mut n, ALICE, CAROL, 1, 100, 10).unwrap();
    assert_eq!(NonFungibleBase::get_approved(&n, 1, 10), Some(CAROL));
    assert_eq!(NonFungibleBase::get_approved(&n, 1, 101), None);
    NonFungibleBase::transfer_from(&mut n, CAROL, ALICE, BOB, 1, 10).unwrap();
    assert_eq!(NonFungibleBase::owner_of(&n, 1), Ok(BOB));
    assert_eq!(NonFungibleBase::get_approved(&n, 1, 10), None);
}

#[test]
fn sequential_mint_hands_out_ids_in_order() {
    let mut n = NonFungibleStorage::new();
    assert_eq!(NonFungibleBase::sequential_mint(&mut n, ALICE), Ok(0));
    assert_eq!(NonFungibleBase::sequential_mint(&mut n, BOB), Ok(1));
    assert_eq!(NonFungibleBase::balance(&n, ALICE), 1);
    assert_eq!(NonFungibleBase::owner_of(&n, 1), Ok(BOB));
}
