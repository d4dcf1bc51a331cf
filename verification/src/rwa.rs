//! A real-world-asset token: a fungible token whose holders can be frozen as
//! a whole or in part, whose transfers are screened by an identity verifier
//! and a compliance contract, and whose balances an agent can move or
//! recover.
//!
//! The identity verifier and the compliance contract are other contracts:
//! their answers come in as arguments (see [`TransferChecks`]), and the
//! notifications they receive after a change are the caller's to send.
use std::collections::HashMap;
use vstd::prelude::*;

use crate::doc_manager::copy_bytes;
use crate::fungible::{lemma_supply_is_sum_of_balances, Base, FungibleStorage, FungibleTokenError};

verus! {

broadcast use vstd::std_specs::hash::group_hash_axioms;

/// Errors of the RWA token.
#[derive(Clone, Copy, Debug, PartialEq, Eq)]
pub enum RWAError {
    InsufficientBalance,
    LessThanZero,
    AddressFrozen,
    InsufficientFreeTokens,
    IdentityVerificationFailed,
    TransferNotCompliant,
    MintNotCompliant,
    ComplianceNotSet,
    OnchainIdNotSet,
    VersionNotSet,
    ClaimTopicsAndIssuersNotSet,
    IdentityRegistryStorageNotSet,
    IdentityVerifierNotSet,
    IdentityMismatch,
}

/// Why an RWA operation failed.
#[derive(Clone, Copy, Debug, PartialEq, Eq)]
pub enum RwaFailure {
    Rwa(RWAError),
    Token(FungibleTokenError),
    /// The token is paused.
    Paused,
}

/// What the other contracts answered about a transfer: whether the token is
/// paused, whether the identity verifier accepts each party, and whether the
/// compliance contract allows it.
#[derive(Clone, Copy, Debug, PartialEq, Eq)]
pub struct TransferChecks {
    pub paused: bool,
    pub from_verified: bool,
    pub to_verified: bool,
    pub compliant: bool,
}

/// The RWA token's own state, beside its fungible ledger.
pub struct RwaStorage {
    frozen_addresses: HashMap<u64, bool>,
    frozen_tokens: HashMap<u64, i128>,
    compliance: Option<u64>,
    onchain_id: Option<u64>,
    version: Option<Vec<u8>>,
    identity_verifier: Option<u64>,
}

impl RwaStorage {
    /// Whether `account` is frozen as a whole.
    pub closed spec fn frozen(&self, account: u64) -> bool {
        self.frozen_addresses@.contains_key(account) && self.frozen_addresses@[account]
    }

    /// How many of `account`'s tokens are frozen.
    pub closed spec fn frozen_amount(&self, account: u64) -> int {
        if self.frozen_tokens@.contains_key(account) {
            self.frozen_tokens@[account] as int
        } else {
            0
        }
    }

    pub closed spec fn compliance_view(&self) -> Option<u64> {
        self.compliance
    }

    pub closed spec fn onchain_id_view(&self) -> Option<u64> {
        self.onchain_id
    }

    pub closed spec fn verifier_view(&self) -> Option<u64> {
        self.identity_verifier
    }

    pub closed spec fn version_view(&self) -> Option<Seq<u8>> {
        match self.version {
            Some(v) => Some(v@),
            None => None,
        }
    }

    /// No account has more tokens frozen than it holds, nor a negative
    /// amount frozen.
    pub open spec fn consistent_with(&self, token: &FungibleStorage) -> bool {
        &&& token.wf()
        &&& forall|a: u64| #[trigger] self.frozen_amount(a) >= 0
        &&& forall|a: u64| #[trigger] self.frozen_amount(a) <= token.balance_of(a)
    }

    /// The same configuration and freezes.
    pub open spec fn same_config(&self, other: &RwaStorage) -> bool {
        &&& self.compliance_view() == other.compliance_view()
        &&& self.onchain_id_view() == other.onchain_id_view()
        &&& self.verifier_view() == other.verifier_view()
        &&& self.version_view() == other.version_view()
        &&& forall|a: u64| #[trigger] self.frozen(a) == other.frozen(a)
    }

    /// Nothing frozen, nothing configured.
    pub fn new() -> (s: Self)
        ensures
            forall|a: u64| #[trigger] s.frozen_amount(a) == 0 && !s.frozen(a),
            s.compliance_view() is None,
            s.onchain_id_view() is None,
            s.verifier_view() is None,
            s.version_view() is None,
    {
        RwaStorage {
            frozen_addresses: HashMap::new(),
            frozen_tokens: HashMap::new(),
            compliance: None,
            onchain_id: None,
            version: None,
            identity_verifier: None,
        }
    }

    fn put_frozen_amount(&mut self, account: u64, amount: i128)
        ensures
            final(self).frozen_amount(account) == amount,
            forall|a: u64| a != account ==> #[trigger] final(self).frozen_amount(a) == old(self).frozen_amount(a),
            final(self).same_config(old(self)),
    {
        self.frozen_tokens.insert(account, amount);
    }
}

/// The error that the transfer screening gives, if any, in the order
/// checked.
pub open spec fn transfer_screen_error(
    rwa: &RwaStorage,
    token: &FungibleStorage,
    from: u64,
    to: u64,
    amount: int,
    checks: TransferChecks,
) -> Option<RwaFailure> {
    if checks.paused {
        Some(RwaFailure::Paused)
    } else if rwa.frozen(from) || rwa.frozen(to) {
        Some(RwaFailure::Rwa(RWAError::AddressFrozen))
    } else if token.balance_of(from) - rwa.frozen_amount(from) < amount {
        Some(RwaFailure::Rwa(RWAError::InsufficientFreeTokens))
    } else if rwa.verifier_view() is None {
        Some(RwaFailure::Rwa(RWAError::IdentityVerifierNotSet))
    } else if !checks.from_verified || !checks.to_verified {
        Some(RwaFailure::Rwa(RWAError::IdentityVerificationFailed))
    } else if rwa.compliance_view() is None {
        Some(RwaFailure::Rwa(RWAError::ComplianceNotSet))
    } else if !checks.compliant {
        Some(RwaFailure::Rwa(RWAError::TransferNotCompliant))
    } else {
        None
    }
}

/// The frozen amount after an agent moves or burns `amount` of `account`'s
/// tokens: what is needed beyond the free tokens is unfrozen.
pub open spec fn frozen_after_forced(rwa: &RwaStorage, token: &FungibleStorage, account: u64, amount: int) -> int {
    let free = token.balance_of(account) - rwa.frozen_amount(account);
    if free < amount {
        rwa.frozen_amount(account) - (amount - free)
    } else {
        rwa.frozen_amount(account)
    }
}

/// The error that moving `amount` of `account`'s tokens by an agent gives,
/// if any: more than the balance, a negative amount, or no compliance
/// contract to notify.
pub open spec fn forced_error(rwa: &RwaStorage, token: &FungibleStorage, account: u64, amount: int) -> Option<RwaFailure> {
    if token.balance_of(account) < amount {
        Some(RwaFailure::Rwa(RWAError::InsufficientBalance))
    } else if amount < 0 {
        Some(RwaFailure::Token(FungibleTokenError::LessThanZero))
    } else if rwa.compliance_view() is None {
        Some(RwaFailure::Rwa(RWAError::ComplianceNotSet))
    } else {
        None
    }
}

/// How many of `account`'s frozen tokens an agent's move or burn of `amount`
/// unfreezes: what it needs beyond the free tokens.
pub open spec fn unfrozen_by_forced(rwa: &RwaStorage, token: &FungibleStorage, account: u64, amount: int) -> int {
    let free = token.balance_of(account) - rwa.frozen_amount(account);
    if free < amount {
        amount - free
    } else {
        0
    }
}

/// The error that minting `amount` to `to` gives, if any, in the order
/// checked: the verifier, the receiver's identity, the compliance contract,
/// its answer, then the ledger.
pub open spec fn mint_error(
    rwa: &RwaStorage,
    token: &FungibleStorage,
    to: u64,
    amount: int,
    to_verified: bool,
    can_create: bool,
) -> Option<RwaFailure> {
    if rwa.verifier_view() is None {
        Some(RwaFailure::Rwa(RWAError::IdentityVerifierNotSet))
    } else if !to_verified {
        Some(RwaFailure::Rwa(RWAError::IdentityVerificationFailed))
    } else if rwa.compliance_view() is None {
        Some(RwaFailure::Rwa(RWAError::ComplianceNotSet))
    } else if !can_create {
        Some(RwaFailure::Rwa(RWAError::MintNotCompliant))
    } else {
        match token.update_error(None, Some(to), amount) {
            Some(e) => Some(RwaFailure::Token(e)),
            None => None,
        }
    }
}

/// The error that recovering `old_account`'s tokens for `new_account`
/// gives before any token moves, if any.
pub open spec fn recovery_error(
    rwa: &RwaStorage,
    new_account: u64,
    new_verified: bool,
    recovery_target: Option<u64>,
) -> Option<RwaFailure> {
    if rwa.verifier_view() is None {
        Some(RwaFailure::Rwa(RWAError::IdentityVerifierNotSet))
    } else if !new_verified {
        Some(RwaFailure::Rwa(RWAError::IdentityVerificationFailed))
    } else if recovery_target != Some(new_account) {
        Some(RwaFailure::Rwa(RWAError::IdentityMismatch))
    } else {
        None
    }
}

/// The RWA token's operations.
pub struct RWA;

impl RWA {
    /// The token's version; `VersionNotSet` until set.
    pub fn version(rwa: &RwaStorage) -> (r: Result<Vec<u8>, RWAError>)
        ensures
            match rwa.version_view() {
                Some(v) => r is Ok && r->Ok_0@ == v,
                None => r == Err::<Vec<u8>, RWAError>(RWAError::VersionNotSet),
            },
    {
        match &rwa.version {
            Some(v) => Ok(copy_bytes(v)),
            None => Err(RWAError::VersionNotSet),
        }
    }

    /// The token's on-chain identity; `OnchainIdNotSet` until set.
    pub fn onchain_id(rwa: &RwaStorage) -> (r: Result<u64, RWAError>)
        ensures
            match rwa.onchain_id_view() {
                Some(v) => r == Ok::<u64, RWAError>(v),
                None => r == Err::<u64, RWAError>(RWAError::OnchainIdNotSet),
            },
    {
        match rwa.onchain_id {
            Some(v) => Ok(v),
            None => Err(RWAError::OnchainIdNotSet),
        }
    }

    /// The compliance contract; `ComplianceNotSet` until set.
    pub fn compliance(rwa: &RwaStorage) -> (r: Result<u64, RWAError>)
        ensures
            match rwa.compliance_view() {
                Some(v) => r == Ok::<u64, RWAError>(v),
                None => r == Err::<u64, RWAError>(RWAError::ComplianceNotSet),
            },
    {
        match rwa.compliance {
            Some(v) => Ok(v),
            None => Err(RWAError::ComplianceNotSet),
        }
    }

    /// The identity verifier; `IdentityVerifierNotSet` until set.
    pub fn identity_verifier(rwa: &RwaStorage) -> (r: Result<u64, RWAError>)
        ensures
            match rwa.verifier_view() {
                Some(v) => r == Ok::<u64, RWAError>(v),
                None => r == Err::<u64, RWAError>(RWAError::IdentityVerifierNotSet),
            },
    {
        match rwa.identity_verifier {
            Some(v) => Ok(v),
            None => Err(RWAError::IdentityVerifierNotSet),
        }
    }

    /// Whether `user_address` is frozen as a whole.
    pub fn is_frozen(rwa: &RwaStorage, user_address: u64) -> (r: bool)
        ensures
            r == rwa.frozen(user_address),
    {
        match rwa.frozen_addresses.get(&user_address) {
            Some(f) => *f,
            None => false,
        }
    }

    /// How many of `user_address`'s tokens are frozen.
    pub fn get_frozen_tokens(rwa: &RwaStorage, user_address: u64) -> (r: i128)
        ensures
            r == rwa.frozen_amount(user_address),
    {
        match rwa.frozen_tokens.get(&user_address) {
            Some(v) => *v,
            None => 0,
        }
    }

    /// How many of `user_address`'s tokens are not frozen.
    pub fn get_free_tokens(rwa: &RwaStorage, token: &FungibleStorage, user_address: u64) -> (r: i128)
        requires
            rwa.consistent_with(token),
        ensures
            r == token.balance_of(user_address) - rwa.frozen_amount(user_address),
            r >= 0,
    {
        proof {
            lemma_supply_is_sum_of_balances(token);
        }
        Base::balance(token, user_address) - Self::get_frozen_tokens(rwa, user_address)
    }

    /// Freezes or unfreezes `user_address` as a whole.
    pub fn set_address_frozen(rwa: &mut RwaStorage, user_address: u64, freeze: bool)
        ensures
            final(rwa).frozen(user_address) == freeze,
            forall|a: u64| a != user_address ==> #[trigger] final(rwa).frozen(a) == old(rwa).frozen(a),
            forall|a: u64| #[trigger] final(rwa).frozen_amount(a) == old(rwa).frozen_amount(a),
            final(rwa).compliance_view() == old(rwa).compliance_view(),
            final(rwa).onchain_id_view() == old(rwa).onchain_id_view(),
            final(rwa).verifier_view() == old(rwa).verifier_view(),
            final(rwa).version_view() == old(rwa).version_view(),
    {
        rwa.frozen_addresses.insert(user_address, freeze);
    }

    /// Freezes `amount` more of `user_address`'s tokens.
    ///
    /// Fails, with nothing changed, on a negative amount (`LessThanZero`) or
    /// when the frozen total would exceed the balance
    /// (`InsufficientBalance`).
    pub fn freeze_partial_tokens(
        rwa: &mut RwaStorage,
        token: &FungibleStorage,
        user_address: u64,
        amount: i128,
    ) -> (r: Result<(), RWAError>)
        requires
            old(rwa).consistent_with(token),
        ensures
            final(rwa).consistent_with(token),
            amount < 0 ==> r == Err::<(), RWAError>(RWAError::LessThanZero),
            amount >= 0 && old(rwa).frozen_amount(user_address) + amount > token.balance_of(
                user_address,
            ) ==> r == Err::<(), RWAError>(RWAError::InsufficientBalance),
            r is Err ==> *final(rwa) == *old(rwa),
            r is Ok <==> amount >= 0 && old(rwa).frozen_amount(user_address) + amount
                <= token.balance_of(user_address),
            r is Ok ==> final(rwa).frozen_amount(user_address) == old(rwa).frozen_amount(user_address)
                + amount && forall|a: u64|
                a != user_address ==> #[trigger] final(rwa).frozen_amount(a) == old(rwa).frozen_amount(a),
            r is Ok ==> final(rwa).same_config(old(rwa)),
    {
        if amount < 0 {
            return Err(RWAError::LessThanZero);
        }
        let current_balance = Base::balance(token, user_address);
        let current_frozen = Self::get_frozen_tokens(rwa, user_address);
        proof {
            assert(rwa.frozen_amount(user_address) >= 0);
            assert(rwa.frozen_amount(user_address) <= token.balance_of(user_address));
        }
        if amount > current_balance - current_frozen {
            return Err(RWAError::InsufficientBalance);
        }
        rwa.put_frozen_amount(user_address, current_frozen + amount);
        Ok(())
    }

    /// Unfreezes `amount` of `user_address`'s frozen tokens.
    ///
    /// Fails, with nothing changed, on a negative amount (`LessThanZero`) or
    /// more than is frozen (`InsufficientFreeTokens`).
    pub fn unfreeze_partial_tokens(
        rwa: &mut RwaStorage,
        token: &FungibleStorage,
        user_address: u64,
        amount: i128,
    ) -> (r: Result<(), RWAError>)
        requires
            old(rwa).consistent_with(token),
        ensures
            final(rwa).consistent_with(token),
            amount < 0 ==> r == Err::<(), RWAError>(RWAError::LessThanZero),
            amount >= 0 && old(rwa).frozen_amount(user_address) < amount ==> r == Err::<(), RWAError>(
                RWAError::InsufficientFreeTokens,
            ),
            r is Err ==> *final(rwa) == *old(rwa),
            r is Ok <==> amount >= 0 && old(rwa).frozen_amount(user_address) >= amount,
            r is Ok ==> final(rwa).frozen_amount(user_address) == old(rwa).frozen_amount(user_address)
                - amount && forall|a: u64|
                a != user_address ==> #[trigger] final(rwa).frozen_amount(a) == old(rwa).frozen_amount(a),
            r is Ok ==> final(rwa).same_config(old(rwa)),
    {
        if amount < 0 {
            return Err(RWAError::LessThanZero);
        }
        let current_frozen = Self::get_frozen_tokens(rwa, user_address);
        if current_frozen < amount {
            return Err(RWAError::InsufficientFreeTokens);
        }
        proof {
            assert(rwa.frozen_amount(user_address) >= 0);
        }
        rwa.put_frozen_amount(user_address, current_frozen - amount);
        Ok(())
    }

    /// Sets the token's on-chain identity.
    pub fn set_onchain_id(rwa: &mut RwaStorage, onchain_id: u64)
        ensures
            final(rwa).onchain_id_view() == Some(onchain_id),
            final(rwa).compliance_view() == old(rwa).compliance_view(),
            final(rwa).verifier_view() == old(rwa).verifier_view(),
            final(rwa).version_view() == old(rwa).version_view(),
            forall|a: u64| #[trigger] final(rwa).frozen(a) == old(rwa).frozen(a),
            forall|a: u64| #[trigger] final(rwa).frozen_amount(a) == old(rwa).frozen_amount(a),
    {
        rwa.onchain_id = Some(onchain_id);
    }

    /// Sets the compliance contract.
    pub fn set_compliance(rwa: &mut RwaStorage, compliance: u64)
        ensures
            final(rwa).compliance_view() == Some(compliance),
            final(rwa).onchain_id_view() == old(rwa).onchain_id_view(),
            final(rwa).verifier_view() == old(rwa).verifier_view(),
            final(rwa).version_view() == old(rwa).version_view(),
            forall|a: u64| #[trigger] final(rwa).frozen(a) == old(rwa).frozen(a),
            forall|a: u64| #[trigger] final(rwa).frozen_amount(a) == old(rwa).frozen_amount(a),
    {
        rwa.compliance = Some(compliance);
    }

    /// Sets the identity verifier.
    pub fn set_identity_verifier(rwa: &mut RwaStorage, identity_verifier: u64)
        ensures
            final(rwa).verifier_view() == Some(identity_verifier),
            final(rwa).onchain_id_view() == old(rwa).onchain_id_view(),
            final(rwa).compliance_view() == old(rwa).compliance_view(),
            final(rwa).version_view() == old(rwa).version_view(),
            forall|a: u64| #[trigger] final(rwa).frozen(a) == old(rwa).frozen(a),
            forall|a: u64| #[trigger] final(rwa).frozen_amount(a) == old(rwa).frozen_amount(a),
    {
        rwa.identity_verifier = Some(identity_verifier);
    }

    /// Sets the token's version.
    pub fn set_version(rwa: &mut RwaStorage, version: Vec<u8>)
        ensures
            final(rwa).version_view() == Some(version@),
            final(rwa).onchain_id_view() == old(rwa).onchain_id_view(),
            final(rwa).compliance_view() == old(rwa).compliance_view(),
            final(rwa).verifier_view() == old(rwa).verifier_view(),
            forall|a: u64| #[trigger] final(rwa).frozen(a) == old(rwa).frozen(a),
            forall|a: u64| #[trigger] final(rwa).frozen_amount(a) == old(rwa).frozen_amount(a),
    {
        rwa.version = Some(version);
    }

    /// Screens a transfer of `amount` from `from` to `to`: not paused, no
    /// party frozen, enough free tokens, both parties verified, and allowed
    /// by the compliance contract, checked in that order.
    pub fn validate_transfer(
        rwa: &RwaStorage,
        token: &FungibleStorage,
        from: u64,
        to: u64,
        amount: i128,
        checks: TransferChecks,
    ) -> (r: Result<(), RwaFailure>)
        requires
            rwa.consistent_with(token),
        ensures
            match transfer_screen_error(rwa, token, from, to, amount as int, checks) {
                Some(e) => r == Err::<(), RwaFailure>(e),
                None => r is Ok,
            },
    {
        if checks.paused {
            return Err(RwaFailure::Paused);
        }
        if Self::is_frozen(rwa, from) || Self::is_frozen(rwa, to) {
            return Err(RwaFailure::Rwa(RWAError::AddressFrozen));
        }
        if Self::get_free_tokens(rwa, token, from) < amount {
            return Err(RwaFailure::Rwa(RWAError::InsufficientFreeTokens));
        }
        if rwa.identity_verifier.is_none() {
            return Err(RwaFailure::Rwa(RWAError::IdentityVerifierNotSet));
        }
        if !checks.from_verified || !checks.to_verified {
            return Err(RwaFailure::Rwa(RWAError::IdentityVerificationFailed));
        }
        if rwa.compliance.is_none() {
            return Err(RwaFailure::Rwa(RWAError::ComplianceNotSet));
        }
        if !checks.compliant {
            return Err(RwaFailure::Rwa(RWAError::TransferNotCompliant));
        }
        Ok(())
    }

    /// Moves `amount` of `from`'s tokens to `to` (or burns them when `to` is
    /// `None`) on an agent's order, unfreezing what the free tokens do not
    /// cover. Returns how many tokens were unfrozen.
    fn forced_move(
        rwa: &mut RwaStorage,
        token: &mut FungibleStorage,
        from: u64,
        to: Option<u64>,
        amount: i128,
    ) -> (r: Result<i128, RwaFailure>)
        requires
            old(rwa).consistent_with(old(token)),
        ensures
            final(rwa).consistent_with(final(token)),
            match forced_error(old(rwa), old(token), from, amount as int) {
                Some(e) => r == Err::<i128, RwaFailure>(e) && *final(rwa) == *old(rwa) && *final(token)
                    == *old(token),
                None => {
                    &&& r is Ok
                    &&& r->Ok_0 == unfrozen_by_forced(old(rwa), old(token), from, amount as int)
                    &&& old(token).moved(final(token), Some(from), to, amount as int)
                    &&& old(token).same_allowances(final(token))
                    &&& final(rwa).frozen_amount(from) == old(rwa).frozen_amount(from) - r->Ok_0
                    &&& forall|a: u64|
                        a != from ==> #[trigger] final(rwa).frozen_amount(a) == old(rwa).frozen_amount(a)
                    &&& final(rwa).same_config(old(rwa))
                },
            },
    {
        let from_balance = Base::balance(token, from);
        if from_balance < amount {
            return Err(RwaFailure::Rwa(RWAError::InsufficientBalance));
        }
        if amount < 0 {
            return Err(RwaFailure::Token(FungibleTokenError::LessThanZero));
        }
        if rwa.compliance.is_none() {
            return Err(RwaFailure::Rwa(RWAError::ComplianceNotSet));
        }
        let free = Self::get_free_tokens(rwa, token, from);
        let mut unfrozen: i128 = 0;
        if free < amount {
            unfrozen = amount - free;
            let current_frozen = Self::get_frozen_tokens(rwa, from);
            rwa.put_frozen_amount(from, current_frozen - unfrozen);
        }
        let ghost before = *token;
        let moved = Base::update(token, Some(from), to, amount);
        assert(moved is Ok);
        proof {
            assert forall|a: u64| #[trigger] rwa.frozen_amount(a) <= token.balance_of(a) by {
                assert(before.balance_of(a) >= old(rwa).frozen_amount(a));
            }
        }
        Ok(unfrozen)
    }

    /// `from` sends `amount` to `to` (authorization is the caller's): the
    /// transfer is screened as [`Self::validate_transfer`] says and then
    /// moved; on any error nothing changes.
    pub fn transfer(
        rwa: &RwaStorage,
        token: &mut FungibleStorage,
        from: u64,
        to: u64,
        amount: i128,
        checks: TransferChecks,
    ) -> (r: Result<(), RwaFailure>)
        requires
            rwa.consistent_with(old(token)),
        ensures
            rwa.consistent_with(final(token)),
            match transfer_screen_error(rwa, old(token), from, to, amount as int, checks) {
                Some(e) => r == Err::<(), RwaFailure>(e) && *final(token) == *old(token),
                None => match old(token).update_error(Some(from), Some(to), amount as int) {
                    Some(e) => r == Err::<(), RwaFailure>(RwaFailure::Token(e)) && *final(token)
                        == *old(token),
                    None => r is Ok && old(token).moved(final(token), Some(from), Some(to), amount as int)
                        && old(token).same_allowances(final(token)),
                },
            },
    {
        Self::validate_transfer(rwa, token, from, to, amount, checks)?;
        let ghost before = *token;
        match Base::transfer(token, from, to, amount) {
            Ok(()) => {
                proof {
                    assert forall|a: u64| #[trigger] rwa.frozen_amount(a) <= token.balance_of(a) by {
                        assert(before.balance_of(a) >= rwa.frozen_amount(a));
                    }
                }
                Ok(())
            },
            Err(e) => Err(RwaFailure::Token(e)),
        }
    }

    /// `spender` sends `amount` of `from`'s tokens to `to`, using up as much
    /// of its allowance: screened as [`Self::validate_transfer`] says, then
    /// the allowance is spent and the tokens moved; on any error nothing
    /// changes.
    pub fn transfer_from(
        rwa: &RwaStorage,
        token: &mut FungibleStorage,
        spender: u64,
        from: u64,
        to: u64,
        amount: i128,
        current_ledger: u32,
        checks: TransferChecks,
    ) -> (r: Result<(), RwaFailure>)
        requires
            rwa.consistent_with(old(token)),
        ensures
            rwa.consistent_with(final(token)),
            match transfer_screen_error(rwa, old(token), from, to, amount as int, checks) {
                Some(e) => r == Err::<(), RwaFailure>(e) && *final(token) == *old(token),
                None => match old(token).spend_error(from, spender, amount as int, current_ledger) {
                    Some(e) => r == Err::<(), RwaFailure>(RwaFailure::Token(e)) && *final(token)
                        == *old(token),
                    None => match old(token).update_error(Some(from), Some(to), amount as int) {
                        Some(e) => r == Err::<(), RwaFailure>(RwaFailure::Token(e)) && *final(token)
                            == *old(token),
                        None => r is Ok && old(token).moved(final(token), Some(from), Some(to), amount as int)
                            && old(token).spent(final(token), from, spender, amount as int, current_ledger),
                    },
                },
            },
    {
        Self::validate_transfer(rwa, token, from, to, amount, checks)?;
        let ghost before = *token;
        match Base::transfer_from(token, spender, from, to, amount, current_ledger) {
            Ok(()) => {
                proof {
                    assert forall|a: u64| #[trigger] rwa.frozen_amount(a) <= token.balance_of(a) by {
                        assert(before.balance_of(a) >= rwa.frozen_amount(a));
                    }
                }
                Ok(())
            },
            Err(e) => Err(RwaFailure::Token(e)),
        }
    }

    /// An agent moves `amount` of `from`'s tokens to `to`, whatever is
    /// paused or frozen: what the free tokens do not cover is unfrozen first.
    /// Returns how many tokens were unfrozen (`0` when none were).
    ///
    /// Fails, with nothing changed, with `InsufficientBalance` when `from`
    /// holds less than `amount`, `LessThanZero` on a negative amount and
    /// `ComplianceNotSet` when there is no compliance contract to notify.
    pub fn forced_transfer(
        rwa: &mut RwaStorage,
        token: &mut FungibleStorage,
        from: u64,
        to: u64,
        amount: i128,
    ) -> (r: Result<i128, RwaFailure>)
        requires
            old(rwa).consistent_with(old(token)),
        ensures
            final(rwa).consistent_with(final(token)),
            match forced_error(old(rwa), old(token), from, amount as int) {
                Some(e) => r == Err::<i128, RwaFailure>(e) && *final(rwa) == *old(rwa) && *final(token)
                    == *old(token),
                None => {
                    &&& r is Ok
                    &&& r->Ok_0 == unfrozen_by_forced(old(rwa), old(token), from, amount as int)
                    &&& old(token).moved(final(token), Some(from), Some(to), amount as int)
                    &&& old(token).same_allowances(final(token))
                    &&& final(rwa).frozen_amount(from) == frozen_after_forced(
                        old(rwa),
                        old(token),
                        from,
                        amount as int,
                    )
                    &&& forall|a: u64|
                        a != from ==> #[trigger] final(rwa).frozen_amount(a) == old(rwa).frozen_amount(a)
                    &&& final(rwa).same_config(old(rwa))
                },
            },
    {
        Self::forced_move(rwa, token, from, Some(to), amount)
    }

    /// Mints `amount` new tokens to `to`, once the identity verifier accepts
    /// `to` (`to_verified`) and the compliance contract allows the mint
    /// (`can_create`). On any error nothing changes.
    pub fn mint(
        rwa: &RwaStorage,
        token: &mut FungibleStorage,
        to: u64,
        amount: i128,
        to_verified: bool,
        can_create: bool,
    ) -> (r: Result<(), RwaFailure>)
        requires
            rwa.consistent_with(old(token)),
        ensures
            rwa.consistent_with(final(token)),
            match mint_error(rwa, old(token), to, amount as int, to_verified, can_create) {
                Some(e) => r == Err::<(), RwaFailure>(e) && *final(token) == *old(token),
                None => r is Ok && old(token).moved(final(token), None, Some(to), amount as int)
                    && old(token).same_allowances(final(token)),
            },
    {
        if rwa.identity_verifier.is_none() {
            return Err(RwaFailure::Rwa(RWAError::IdentityVerifierNotSet));
        }
        if !to_verified {
            return Err(RwaFailure::Rwa(RWAError::IdentityVerificationFailed));
        }
        if rwa.compliance.is_none() {
            return Err(RwaFailure::Rwa(RWAError::ComplianceNotSet));
        }
        if !can_create {
            return Err(RwaFailure::Rwa(RWAError::MintNotCompliant));
        }
        let ghost before = *token;
        match Base::mint(token, to, amount) {
            Ok(()) => {
                proof {
                    assert forall|a: u64| #[trigger] rwa.frozen_amount(a) <= token.balance_of(a) by {
                        assert(before.balance_of(a) >= rwa.frozen_amount(a));
                    }
                }
                Ok(())
            },
            Err(e) => Err(RwaFailure::Token(e)),
        }
    }

    /// Burns `amount` of `user_address`'s tokens on an agent's order,
    /// unfreezing what the free tokens do not cover. Returns how many tokens
    /// were unfrozen (`0` when none were).
    ///
    /// Fails, with nothing changed, with `InsufficientBalance` when the
    /// account holds less than `amount`, `LessThanZero` on a negative amount
    /// and `ComplianceNotSet` when there is no compliance contract to notify.
    pub fn burn(
        rwa: &mut RwaStorage,
        token: &mut FungibleStorage,
        user_address: u64,
        amount: i128,
    ) -> (r: Result<i128, RwaFailure>)
        requires
            old(rwa).consistent_with(old(token)),
        ensures
            final(rwa).consistent_with(final(token)),
            match forced_error(old(rwa), old(token), user_address, amount as int) {
                Some(e) => r == Err::<i128, RwaFailure>(e) && *final(rwa) == *old(rwa) && *final(token)
                    == *old(token),
                None => {
                    &&& r is Ok
                    &&& r->Ok_0 == unfrozen_by_forced(old(rwa), old(token), user_address, amount as int)
                    &&& old(token).moved(final(token), Some(user_address), None, amount as int)
                    &&& old(token).same_allowances(final(token))
                    &&& final(rwa).frozen_amount(user_address) == frozen_after_forced(
                        old(rwa),
                        old(token),
                        user_address,
                        amount as int,
                    )
                    &&& forall|a: u64|
                        a != user_address ==> #[trigger] final(rwa).frozen_amount(a) == old(
                            rwa,
                        ).frozen_amount(a)
                    &&& final(rwa).same_config(old(rwa))
                },
            },
    {
        Self::forced_move(rwa, token, user_address, None, amount)
    }

    /// Moves every token of `old_account`, whose owner lost access to it, to
    /// `new_account`, and carries its freezes over: the frozen amount is
    /// added to `new_account`'s, and a frozen `old_account` leaves
    /// `new_account` frozen. `new_verified` is the identity verifier's answer
    /// on `new_account`, `recovery_target` the account it names as the
    /// recovery of `old_account`.
    ///
    /// Returns `false`, with nothing changed, when `old_account` holds no
    /// tokens. Fails, with nothing changed, with `IdentityVerifierNotSet`,
    /// `IdentityVerificationFailed`, `IdentityMismatch` when `new_account`
    /// is not the recovery target, and `ComplianceNotSet`.
    pub fn recover_balance(
        rwa: &mut RwaStorage,
        token: &mut FungibleStorage,
        old_account: u64,
        new_account: u64,
        new_verified: bool,
        recovery_target: Option<u64>,
    ) -> (r: Result<bool, RwaFailure>)
        requires
            old(rwa).consistent_with(old(token)),
        ensures
            final(rwa).consistent_with(final(token)),
            match recovery_error(old(rwa), new_account, new_verified, recovery_target) {
                Some(e) => r == Err::<bool, RwaFailure>(e) && *final(rwa) == *old(rwa) && *final(token)
                    == *old(token),
                None => if old(token).balance_of(old_account) == 0 {
                    r == Ok::<bool, RwaFailure>(false) && *final(rwa) == *old(rwa) && *final(token)
                        == *old(token)
                } else if old(rwa).compliance_view() is None {
                    r == Err::<bool, RwaFailure>(RwaFailure::Rwa(RWAError::ComplianceNotSet))
                        && *final(rwa) == *old(rwa) && *final(token) == *old(token)
                } else {
                    &&& r == Ok::<bool, RwaFailure>(true)
                    &&& old(token).moved(
                        final(token),
                        Some(old_account),
                        Some(new_account),
                        old(token).balance_of(old_account),
                    )
                    &&& old(token).same_allowances(final(token))
                    &&& old_account != new_account ==> final(rwa).frozen_amount(old_account) == 0
                    &&& final(rwa).frozen_amount(new_account) == (if old_account == new_account {
                        0
                    } else {
                        old(rwa).frozen_amount(new_account)
                    }) + old(rwa).frozen_amount(old_account)
                    &&& forall|a: u64|
                        a != old_account && a != new_account ==> #[trigger] final(rwa).frozen_amount(a)
                            == old(rwa).frozen_amount(a)
                    &&& final(rwa).frozen(new_account) == (old(rwa).frozen(new_account) || old(
                        rwa,
                    ).frozen(old_account))
                    &&& forall|a: u64|
                        a != new_account ==> #[trigger] final(rwa).frozen(a) == old(rwa).frozen(a)
                    &&& final(rwa).compliance_view() == old(rwa).compliance_view()
                    &&& final(rwa).onchain_id_view() == old(rwa).onchain_id_view()
                    &&& final(rwa).verifier_view() == old(rwa).verifier_view()
                    &&& final(rwa).version_view() == old(rwa).version_view()
                },
            },
    {
        if rwa.identity_verifier.is_none() {
            return Err(RwaFailure::Rwa(RWAError::IdentityVerifierNotSet));
        }
        if !new_verified {
            return Err(RwaFailure::Rwa(RWAError::IdentityVerificationFailed));
        }
        match recovery_target {
            Some(target) => {
                if target != new_account {
                    return Err(RwaFailure::Rwa(RWAError::IdentityMismatch));
                }
            },
            None => {
                return Err(RwaFailure::Rwa(RWAError::IdentityMismatch));
            },
        }
        let lost_balance = Base::balance(token, old_account);
        if lost_balance == 0 {
            return Ok(false);
        }
        let frozen_tokens = Self::get_frozen_tokens(rwa, old_account);
        let was_frozen = Self::is_frozen(rwa, old_account);
        proof {
            lemma_supply_is_sum_of_balances(token);
            assert(rwa.frozen_amount(old_account) >= 0);
            assert(rwa.frozen_amount(new_account) >= 0);
            assert(rwa.frozen_amount(old_account) <= token.balance_of(old_account));
            assert(rwa.frozen_amount(new_account) <= token.balance_of(new_account));
        }
        let ghost rwa0 = *rwa;
        let ghost token0 = *token;
        Self::forced_move(rwa, token, old_account, Some(new_account), lost_balance)?;
        let ghost rwa1 = *rwa;
        proof {
            assert(rwa.frozen_amount(old_account) == 0);
        }
        if frozen_tokens > 0 {
            let frozen_again = Self::freeze_partial_tokens(rwa, token, new_account, frozen_tokens);
            assert(frozen_again is Ok);
        }
        let ghost rwa2 = *rwa;
        if was_frozen {
            Self::set_address_frozen(rwa, new_account, true);
        }
        proof {
            assert forall|a: u64| a != new_account implies #[trigger] rwa.frozen(a) == rwa0.frozen(a) by {
                assert(rwa2.frozen(a) == rwa1.frozen(a));
            }
        }
        Ok(true)
    }
}

} // verus!
