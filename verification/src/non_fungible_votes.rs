//! The votes extension of the non-fungible token: every token is one voting
//! unit, so the units of each account follow the number of tokens it holds.
use vstd::prelude::*;

use crate::fungible_votes::same_delegates;
use crate::non_fungible::{
    lemma_owner_holds_a_token, lemma_token_count_fits, may_spend, nft_moved, nft_update_error, NonFungibleBase,
    NonFungibleStorage, NonFungibleTokenError,
};
use crate::votes::{Votes, VotesStorage};

verus! {

/// Each account's voting units are the tokens it holds, and all units
/// together are the number of tokens.
pub open spec fn units_follow_tokens(nft: &NonFungibleStorage, votes: &VotesStorage) -> bool {
    &&& nft.wf()
    &&& votes.wf()
    &&& forall|a: u64| #[trigger] votes.voting_units(a) == nft.balance_of(a)
    &&& votes.total_units() == nft.token_count()
}

/// The non-fungible token's operations that keep voting units in step.
pub struct NonFungibleVotes;

impl NonFungibleVotes {
    /// Moves the unit that follows a completed move of one token.
    fn follow(
        nft: &NonFungibleStorage,
        votes: &mut VotesStorage,
        from: Option<u64>,
        to: Option<u64>,
        token_id: u32,
        Ghost(before): Ghost<NonFungibleStorage>,
    )
        requires
            units_follow_tokens(&before, old(votes)),
            nft.wf(),
            nft_update_error(&before, from, to, token_id) is None,
            nft_moved(&before, nft, from, to, token_id),
        ensures
            units_follow_tokens(nft, final(votes)),
            same_delegates(old(votes), final(votes)),
    {
        proof {
            lemma_token_count_fits(&before);
            if from is Some {
                lemma_owner_holds_a_token(&before, token_id);
            }
        }
        let moved = Votes::transfer_voting_units(votes, from, to, 1);
        assert(moved is Ok);
    }

    /// Moves `token_id` from `from` to `to` as [`NonFungibleBase::transfer`]
    /// does; one voting unit follows it.
    pub fn transfer(nft: &mut NonFungibleStorage, votes: &mut VotesStorage, from: u64, to: u64, token_id: u32) -> (r:
        Result<(), NonFungibleTokenError>)
        requires
            units_follow_tokens(old(nft), old(votes)),
        ensures
            units_follow_tokens(final(nft), final(votes)),
            same_delegates(old(votes), final(votes)),
            r matches Err(e) ==> Some(e) == nft_update_error(old(nft), Some(from), Some(to), token_id)
                && *final(nft) == *old(nft),
            r is Ok <==> nft_update_error(old(nft), Some(from), Some(to), token_id) is None,
            r is Ok ==> nft_moved(old(nft), final(nft), Some(from), Some(to), token_id),
    {
        let ghost before = *nft;
        NonFungibleBase::transfer(nft, from, to, token_id)?;
        Self::follow(nft, votes, Some(from), Some(to), token_id, Ghost(before));
        Ok(())
    }

    /// `spender` moves `token_id` from `from` to `to` as
    /// [`NonFungibleBase::transfer_from`] does; one voting unit follows it.
    pub fn transfer_from(
        nft: &mut NonFungibleStorage,
        votes: &mut VotesStorage,
        spender: u64,
        from: u64,
        to: u64,
        token_id: u32,
        current_ledger: u32,
    ) -> (r: Result<(), NonFungibleTokenError>)
        requires
            units_follow_tokens(old(nft), old(votes)),
        ensures
            units_follow_tokens(final(nft), final(votes)),
            same_delegates(old(votes), final(votes)),
            !may_spend(old(nft), spender, from, token_id, current_ledger) ==> r == Err::<(), NonFungibleTokenError>(
                NonFungibleTokenError::InsufficientApproval,
            ) && *final(nft) == *old(nft),
            may_spend(old(nft), spender, from, token_id, current_ledger) ==> {
                &&& r matches Err(e) ==> Some(e) == nft_update_error(old(nft), Some(from), Some(to), token_id)
                    && *final(nft) == *old(nft)
                &&& r is Ok <==> nft_update_error(old(nft), Some(from), Some(to), token_id) is None
                &&& r is Ok ==> nft_moved(old(nft), final(nft), Some(from), Some(to), token_id)
            },
    {
        let ghost before = *nft;
        NonFungibleBase::transfer_from(nft, spender, from, to, token_id, current_ledger)?;
        Self::follow(nft, votes, Some(from), Some(to), token_id, Ghost(before));
        Ok(())
    }

    /// Creates `token_id` for `to` as [`NonFungibleBase::mint`] does; one
    /// voting unit comes with it.
    pub fn mint(nft: &mut NonFungibleStorage, votes: &mut VotesStorage, to: u64, token_id: u32) -> (r: Result<
        (),
        NonFungibleTokenError,
    >)
        requires
            units_follow_tokens(old(nft), old(votes)),
        ensures
            units_follow_tokens(final(nft), final(votes)),
            same_delegates(old(votes), final(votes)),
            r matches Err(e) ==> Some(e) == nft_update_error(old(nft), None, Some(to), token_id) && *final(nft)
                == *old(nft),
            r is Ok <==> nft_update_error(old(nft), None, Some(to), token_id) is None,
            r is Ok ==> nft_moved(old(nft), final(nft), None, Some(to), token_id),
    {
        let ghost before = *nft;
        NonFungibleBase::mint(nft, to, token_id)?;
        Self::follow(nft, votes, None, Some(to), token_id, Ghost(before));
        Ok(())
    }

    /// Creates the next sequential token for `to` as
    /// [`NonFungibleBase::sequential_mint`] does and returns its id; one
    /// voting unit comes with it.
    pub fn sequential_mint(nft: &mut NonFungibleStorage, votes: &mut VotesStorage, to: u64) -> (r: Result<
        u32,
        NonFungibleTokenError,
    >)
        requires
            units_follow_tokens(old(nft), old(votes)),
        ensures
            units_follow_tokens(final(nft), final(votes)),
            same_delegates(old(votes), final(votes)),
            old(nft).next_id() >= u32::MAX ==> r == Err::<u32, NonFungibleTokenError>(
                NonFungibleTokenError::TokenIDsAreDepleted,
            ) && *final(nft) == *old(nft),
            old(nft).next_id() < u32::MAX ==> {
                let id = old(nft).next_id();
                &&& r matches Err(e) ==> Some(e) == nft_update_error(old(nft), None, Some(to), id) && *final(nft)
                    == *old(nft)
                &&& r is Ok <==> nft_update_error(old(nft), None, Some(to), id) is None
                &&& r is Ok ==> r == Ok::<u32, NonFungibleTokenError>(id) && final(nft).owner_view(id) == Some(to)
                    && final(nft).next_id() == old(nft).next_id() + 1
            },
    {
        let ghost before = *nft;
        let id = NonFungibleBase::sequential_mint(nft, to)?;
        Self::follow_mint(nft, votes, to, id, Ghost(before));
        Ok(id)
    }

    fn follow_mint(
        nft: &NonFungibleStorage,
        votes: &mut VotesStorage,
        to: u64,
        id: u32,
        Ghost(before): Ghost<NonFungibleStorage>,
    )
        requires
            units_follow_tokens(&before, old(votes)),
            nft.wf(),
            nft_update_error(&before, None, Some(to), id) is None,
            nft.owner_view(id) == Some(to),
            forall|t: u32| t != id ==> #[trigger] nft.owner_view(t) == before.owner_view(t),
            forall|a: u64| #[trigger] nft.balance_of(a) == before.balance_of(a) + (if to == a {
                1int
            } else {
                0int
            }),
            nft.token_count() == before.token_count() + 1,
        ensures
            units_follow_tokens(nft, final(votes)),
            same_delegates(old(votes), final(votes)),
    {
        proof {
            lemma_token_count_fits(&before);
        }
        let moved = Votes::transfer_voting_units(votes, None, Some(to), 1);
        assert(moved is Ok);
    }

    /// Destroys `token_id` of `from` as [`NonFungibleBase::burn`] does; its
    /// voting unit goes with it.
    pub fn burn(nft: &mut NonFungibleStorage, votes: &mut VotesStorage, from: u64, token_id: u32) -> (r: Result<
        (),
        NonFungibleTokenError,
    >)
        requires
            units_follow_tokens(old(nft), old(votes)),
        ensures
            units_follow_tokens(final(nft), final(votes)),
            same_delegates(old(votes), final(votes)),
            r matches Err(e) ==> Some(e) == nft_update_error(old(nft), Some(from), None, token_id) && *final(nft)
                == *old(nft),
            r is Ok <==> nft_update_error(old(nft), Some(from), None, token_id) is None,
            r is Ok ==> nft_moved(old(nft), final(nft), Some(from), None, token_id),
    {
        let ghost before = *nft;
        NonFungibleBase::burn(nft, from, token_id)?;
        Self::follow(nft, votes, Some(from), None, token_id, Ghost(before));
        Ok(())
    }

    /// `spender` destroys `token_id` of `from` as
    /// [`NonFungibleBase::burn_from`] does; its voting unit goes with it.
    pub fn burn_from(
        nft: &mut NonFungibleStorage,
        votes: &mut VotesStorage,
        spender: u64,
        from: u64,
        token_id: u32,
        current_ledger: u32,
    ) -> (r: Result<(), NonFungibleTokenError>)
        requires
            units_follow_tokens(old(nft), old(votes)),
        ensures
            units_follow_tokens(final(nft), final(votes)),
            same_delegates(old(votes), final(votes)),
            !may_spend(old(nft), spender, from, token_id, current_ledger) ==> r == Err::<(), NonFungibleTokenError>(
                NonFungibleTokenError::InsufficientApproval,
            ) && *final(nft) == *old(nft),
            may_spend(old(nft), spender, from, token_id, current_ledger) ==> {
                &&& r matches Err(e) ==> Some(e) == nft_update_error(old(nft), Some(from), None, token_id)
                    && *final(nft) == *old(nft)
                &&& r is Ok <==> nft_update_error(old(nft), Some(from), None, token_id) is None
                &&& r is Ok ==> nft_moved(old(nft), final(nft), Some(from), None, token_id)
            },
    {
        let ghost before = *nft;
        NonFungibleBase::burn_from(nft, spender, from, token_id, current_ledger)?;
        Self::follow(nft, votes, Some(from), None, token_id, Ghost(before));
        Ok(())
    }
}

} // verus!
