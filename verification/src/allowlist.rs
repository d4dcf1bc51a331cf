//! The allowlist extension of the fungible token: only allowed accounts may
//! send, receive, approve or burn tokens.
use std::collections::HashSet;
use vstd::prelude::*;

use crate::fungible::{Base, FungibleStorage, FungibleTokenError};

verus! {

broadcast use vstd::std_specs::hash::group_hash_axioms;

/// Where the allowlist keeps what it knows.
#[derive(Clone, Copy, Debug, PartialEq, Eq)]
pub enum AllowListStorageKey {
    /// That an account is allowed.
    Allowed(u64),
}

/// The allowed accounts.
pub struct AllowListStorage {
    allowed: HashSet<u64>,
}

impl AllowListStorage {
    /// The set of allowed accounts.
    pub closed spec fn allowed_set(&self) -> Set<u64> {
        self.allowed@
    }

    /// Nobody allowed.
    pub fn new() -> (s: Self)
        ensures
            s.allowed_set() == Set::<u64>::empty(),
    {
        AllowListStorage { allowed: HashSet::new() }
    }
}

/// The error of an operation on the token when `a` and `b` must both be
/// allowed, if either is not.
pub open spec fn both_allowed_error(list: &AllowListStorage, a: u64, b: u64) -> Option<FungibleTokenError> {
    if !list.allowed_set().contains(a) || !list.allowed_set().contains(b) {
        Some(FungibleTokenError::UserNotAllowed)
    } else {
        None
    }
}

/// The allowlist's operations.
pub struct AllowList;

impl AllowList {
    /// Whether `account` is allowed.
    pub fn allowed(list: &AllowListStorage, account: u64) -> (r: bool)
        ensures
            r == list.allowed_set().contains(account),
    {
        list.allowed.contains(&account)
    }

    /// Allows `user`. Returns whether it was not allowed before (then the
    /// change is announced).
    pub fn allow_user(list: &mut AllowListStorage, user: u64) -> (changed: bool)
        ensures
            final(list).allowed_set() == old(list).allowed_set().insert(user),
            changed == !old(list).allowed_set().contains(user),
    {
        list.allowed.insert(user)
    }

    /// Disallows `user`. Returns whether it was allowed before (then the
    /// change is announced).
    pub fn disallow_user(list: &mut AllowListStorage, user: u64) -> (changed: bool)
        ensures
            final(list).allowed_set() == old(list).allowed_set().remove(user),
            changed == old(list).allowed_set().contains(user),
    {
        list.allowed.remove(&user)
    }

    /// Moves `amount` from `from` to `to` when both are allowed
    /// (`UserNotAllowed` otherwise); then as [`Base::transfer`].
    pub fn transfer(
        list: &AllowListStorage,
        token: &mut FungibleStorage,
        from: u64,
        to: u64,
        amount: i128,
    ) -> (r: Result<(), FungibleTokenError>)
        requires
            old(token).wf(),
        ensures
            final(token).wf(),
            match both_allowed_error(list, from, to) {
                Some(e) => r == Err::<(), FungibleTokenError>(e) && *final(token) == *old(token),
                None => match old(token).update_error(Some(from), Some(to), amount as int) {
                    Some(e) => r == Err::<(), FungibleTokenError>(e) && *final(token) == *old(token),
                    None => r is Ok && old(token).moved(final(token), Some(from), Some(to), amount as int)
                        && old(token).same_allowances(final(token)),
                },
            },
    {
        if !Self::allowed(list, from) || !Self::allowed(list, to) {
            return Err(FungibleTokenError::UserNotAllowed);
        }
        Base::transfer(token, from, to, amount)
    }

    /// `spender` moves `amount` of `from`'s tokens to `to` when `from` and
    /// `to` are allowed (`UserNotAllowed` otherwise); then as
    /// [`Base::transfer_from`].
    pub fn transfer_from(
        list: &AllowListStorage,
        token: &mut FungibleStorage,
        spender: u64,
        from: u64,
        to: u64,
        amount: i128,
        current_ledger: u32,
    ) -> (r: Result<(), FungibleTokenError>)
        requires
            old(token).wf(),
        ensures
            final(token).wf(),
            match both_allowed_error(list, from, to) {
                Some(e) => r == Err::<(), FungibleTokenError>(e) && *final(token) == *old(token),
                None => match old(token).spend_error(from, spender, amount as int, current_ledger) {
                    Some(e) => r == Err::<(), FungibleTokenError>(e) && *final(token) == *old(token),
                    None => match old(token).update_error(Some(from), Some(to), amount as int) {
                        Some(e) => r == Err::<(), FungibleTokenError>(e) && *final(token) == *old(token),
                        None => r is Ok && old(token).moved(final(token), Some(from), Some(to), amount as int)
                            && old(token).spent(final(token), from, spender, amount as int, current_ledger),
                    },
                },
            },
    {
        if !Self::allowed(list, from) || !Self::allowed(list, to) {
            return Err(FungibleTokenError::UserNotAllowed);
        }
        Base::transfer_from(token, spender, from, to, amount, current_ledger)
    }

    /// Lets `spender` move up to `amount` of `owner`'s tokens when `owner`
    /// is allowed (`UserNotAllowed` otherwise); then as [`Base::approve`].
    pub fn approve(
        list: &AllowListStorage,
        token: &mut FungibleStorage,
        owner: u64,
        spender: u64,
        amount: i128,
        live_until_ledger: u32,
        current_ledger: u32,
    ) -> (r: Result<(), FungibleTokenError>)
        requires
            old(token).wf(),
        ensures
            final(token).wf(),
            !list.allowed_set().contains(owner) ==> r == Err::<(), FungibleTokenError>(
                FungibleTokenError::UserNotAllowed,
            ) && *final(token) == *old(token),
            list.allowed_set().contains(owner) ==> {
                &&& r is Err ==> *final(token) == *old(token)
                &&& amount < 0 ==> r == Err::<(), FungibleTokenError>(FungibleTokenError::LessThanZero)
                &&& amount > 0 && live_until_ledger < current_ledger ==> r == Err::<(), FungibleTokenError>(
                    FungibleTokenError::InvalidLiveUntilLedger,
                )
                &&& r is Ok <==> (amount == 0 || (amount > 0 && live_until_ledger >= current_ledger))
                &&& r is Ok ==> {
                    &&& final(token).allowance_entry(owner, spender) == Some(
                        crate::fungible::AllowanceData { amount, live_until_ledger },
                    )
                    &&& forall|o: u64, s: u64|
                        (o != owner || s != spender) ==> #[trigger] final(token).allowance_entry(o, s)
                            == old(token).allowance_entry(o, s)
                    &&& final(token).balances_view() == old(token).balances_view()
                    &&& final(token).supply() == old(token).supply()
                }
            },
    {
        if !Self::allowed(list, owner) {
            return Err(FungibleTokenError::UserNotAllowed);
        }
        Base::approve(token, owner, spender, amount, live_until_ledger, current_ledger)
    }

    /// Destroys `amount` of `from`'s tokens when `from` is allowed
    /// (`UserNotAllowed` otherwise); then as [`Base::burn`].
    pub fn burn(list: &AllowListStorage, token: &mut FungibleStorage, from: u64, amount: i128) -> (r:
        Result<(), FungibleTokenError>)
        requires
            old(token).wf(),
        ensures
            final(token).wf(),
            match both_allowed_error(list, from, from) {
                Some(e) => r == Err::<(), FungibleTokenError>(e) && *final(token) == *old(token),
                None => match old(token).update_error(Some(from), None, amount as int) {
                    Some(e) => r == Err::<(), FungibleTokenError>(e) && *final(token) == *old(token),
                    None => r is Ok && old(token).moved(final(token), Some(from), None, amount as int)
                        && old(token).same_allowances(final(token)),
                },
            },
    {
        if !Self::allowed(list, from) {
            return Err(FungibleTokenError::UserNotAllowed);
        }
        Base::burn(token, from, amount)
    }

    /// `spender` destroys `amount` of `from`'s tokens when `from` is allowed
    /// (`UserNotAllowed` otherwise); then as [`Base::burn_from`].
    pub fn burn_from(
        list: &AllowListStorage,
        token: &mut FungibleStorage,
        spender: u64,
        from: u64,
        amount: i128,
        current_ledger: u32,
    ) -> (r: Result<(), FungibleTokenError>)
        requires
            old(token).wf(),
        ensures
            final(token).wf(),
            match both_allowed_error(list, from, from) {
                Some(e) => r == Err::<(), FungibleTokenError>(e) && *final(token) == *old(token),
                None => match old(token).spend_error(from, spender, amount as int, current_ledger) {
                    Some(e) => r == Err::<(), FungibleTokenError>(e) && *final(token) == *old(token),
                    None => match old(token).update_error(Some(from), None, amount as int) {
                        Some(e) => r == Err::<(), FungibleTokenError>(e) && *final(token) == *old(token),
                        None => r is Ok && old(token).moved(final(token), Some(from), None, amount as int)
                            && old(token).spent(final(token), from, spender, amount as int, current_ledger),
                    },
                },
            },
    {
        if !Self::allowed(list, from) {
            return Err(FungibleTokenError::UserNotAllowed);
        }
        Base::burn_from(token, spender, from, amount, current_ledger)
    }
}

} // verus!
