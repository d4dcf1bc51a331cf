//! The votes extension of the fungible token: every token is one voting
//! unit, so the units of each account follow its balance through every
//! transfer, mint and burn.
use vstd::prelude::*;

use crate::fungible::{lemma_supply_is_sum_of_balances, Base, FungibleStorage, FungibleTokenError};
use crate::votes::{Votes, VotesStorage};

verus! {

/// Each account's voting units are its balance, and all units together are
/// the total supply.
pub open spec fn units_follow_balances(token: &FungibleStorage, votes: &VotesStorage) -> bool {
    &&& token.wf()
    &&& votes.wf()
    &&& forall|a: u64| #[trigger] votes.voting_units(a) == token.balance_of(a)
    &&& votes.total_units() == token.supply()
}

/// The delegations are the same.
pub open spec fn same_delegates(old_votes: &VotesStorage, new_votes: &VotesStorage) -> bool {
    forall|a: u64| #[trigger] new_votes.delegate_of(a) == old_votes.delegate_of(a)
}

/// The fungible token's operations that keep voting units in step.
pub struct FungibleVotes;

impl FungibleVotes {
    /// Moves the units that follow a completed token move of `amount`.
    fn follow(
        token: &FungibleStorage,
        votes: &mut VotesStorage,
        from: Option<u64>,
        to: Option<u64>,
        amount: i128,
        Ghost(before): Ghost<FungibleStorage>,
    )
        requires
            units_follow_balances(&before, old(votes)),
            token.wf(),
            amount >= 0,
            before.update_error(from, to, amount as int) is None,
            before.moved(token, from, to, amount as int),
        ensures
            units_follow_balances(token, final(votes)),
            same_delegates(old(votes), final(votes)),
    {
        if amount > 0 {
            proof {
                lemma_supply_is_sum_of_balances(token);
                lemma_supply_is_sum_of_balances(&before);
            }
            let moved = Votes::transfer_voting_units(votes, from, to, amount as u128);
            assert(moved is Ok);
        }
    }

    /// Moves `amount` from `from` to `to` as [`Base::transfer`] does; the
    /// voting units follow.
    pub fn transfer(token: &mut FungibleStorage, votes: &mut VotesStorage, from: u64, to: u64, amount: i128) -> (r:
        Result<(), FungibleTokenError>)
        requires
            units_follow_balances(old(token), old(votes)),
        ensures
            units_follow_balances(final(token), final(votes)),
            same_delegates(old(votes), final(votes)),
            r matches Err(e) ==> Some(e) == old(token).update_error(Some(from), Some(to), amount as int)
                && *final(token) == *old(token),
            r is Ok <==> old(token).update_error(Some(from), Some(to), amount as int) is None,
            r is Ok ==> old(token).moved(final(token), Some(from), Some(to), amount as int) && old(token).same_allowances(final(token)),
    {
        let ghost before = *token;
        Base::transfer(token, from, to, amount)?;
        Self::follow(token, votes, Some(from), Some(to), amount, Ghost(before));
        Ok(())
    }

    /// `spender` moves `amount` of `from`'s tokens to `to` as
    /// [`Base::transfer_from`] does; the voting units follow.
    pub fn transfer_from(
        token: &mut FungibleStorage,
        votes: &mut VotesStorage,
        spender: u64,
        from: u64,
        to: u64,
        amount: i128,
        current_ledger: u32,
    ) -> (r: Result<(), FungibleTokenError>)
        requires
            units_follow_balances(old(token), old(votes)),
        ensures
            units_follow_balances(final(token), final(votes)),
            same_delegates(old(votes), final(votes)),
            r matches Err(e) ==> *final(token) == *old(token) && Some(e) == (if old(token).spend_error(from, spender, amount as int, current_ledger) is Some {
                old(token).spend_error(from, spender, amount as int, current_ledger)
            } else {
                old(token).update_error(Some(from), Some(to), amount as int)
            }),
            r is Ok <==> old(token).spend_error(from, spender, amount as int, current_ledger) is None
                && old(token).update_error(Some(from), Some(to), amount as int) is None,
            r is Ok ==> old(token).moved(final(token), Some(from), Some(to), amount as int) && old(token).spent(final(token), from, spender, amount as int, current_ledger),
    {
        let ghost before = *token;
        Base::transfer_from(token, spender, from, to, amount, current_ledger)?;
        Self::follow(token, votes, Some(from), Some(to), amount, Ghost(before));
        Ok(())
    }

    /// Creates `amount` new tokens for `to` as [`Base::mint`] does; the
    /// voting units follow.
    pub fn mint(token: &mut FungibleStorage, votes: &mut VotesStorage, to: u64, amount: i128) -> (r: Result<
        (),
        FungibleTokenError,
    >)
        requires
            units_follow_balances(old(token), old(votes)),
        ensures
            units_follow_balances(final(token), final(votes)),
            same_delegates(old(votes), final(votes)),
            r matches Err(e) ==> Some(e) == old(token).update_error(None, Some(to), amount as int)
                && *final(token) == *old(token),
            r is Ok <==> old(token).update_error(None, Some(to), amount as int) is None,
            r is Ok ==> old(token).moved(final(token), None, Some(to), amount as int) && old(token).same_allowances(final(token)),
    {
        let ghost before = *token;
        Base::mint(token, to, amount)?;
        Self::follow(token, votes, None, Some(to), amount, Ghost(before));
        Ok(())
    }

    /// Destroys `amount` of `from`'s tokens as [`Base::burn`] does; the
    /// voting units follow.
    pub fn burn(token: &mut FungibleStorage, votes: &mut VotesStorage, from: u64, amount: i128) -> (r: Result<
        (),
        FungibleTokenError,
    >)
        requires
            units_follow_balances(old(token), old(votes)),
        ensures
            units_follow_balances(final(token), final(votes)),
            same_delegates(old(votes), final(votes)),
            r matches Err(e) ==> Some(e) == old(token).update_error(Some(from), None, amount as int)
                && *final(token) == *old(token),
            r is Ok <==> old(token).update_error(Some(from), None, amount as int) is None,
            r is Ok ==> old(token).moved(final(token), Some(from), None, amount as int) && old(token).same_allowances(final(token)),
    {
        let ghost before = *token;
        Base::burn(token, from, amount)?;
        Self::follow(token, votes, Some(from), None, amount, Ghost(before));
        Ok(())
    }

    /// `spender` destroys `amount` of `from`'s tokens as
    /// [`Base::burn_from`] does; the voting units follow.
    pub fn burn_from(
        token: &mut FungibleStorage,
        votes: &mut VotesStorage,
        spender: u64,
        from: u64,
        amount: i128,
        current_ledger: u32,
    ) -> (r: Result<(), FungibleTokenError>)
        requires
            units_follow_balances(old(token), old(votes)),
        ensures
            units_follow_balances(final(token), final(votes)),
            same_delegates(old(votes), final(votes)),
            r matches Err(e) ==> *final(token) == *old(token) && Some(e) == (if old(token).spend_error(from, spender, amount as int, current_ledger) is Some {
                old(token).spend_error(from, spender, amount as int, current_ledger)
            } else {
                old(token).update_error(Some(from), None, amount as int)
            }),
            r is Ok <==> old(token).spend_error(from, spender, amount as int, current_ledger) is None
                && old(token).update_error(Some(from), None, amount as int) is None,
            r is Ok ==> old(token).moved(final(token), Some(from), None, amount as int) && old(token).spent(final(token), from, spender, amount as int, current_ledger),
    {
        let ghost before = *token;
        Base::burn_from(token, spender, from, amount, current_ledger)?;
        Self::follow(token, votes, Some(from), None, amount, Ghost(before));
        Ok(())
    }
}

} // verus!
