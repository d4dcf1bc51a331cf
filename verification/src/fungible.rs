//! The fungible token ledger: balances, total supply and time-limited
//! allowances, with the low-level operations that every fungible extension is
//! built on. Accounts are identified by `u64` ids.
use std::collections::HashMap;
use vstd::prelude::*;

use crate::sums::{all_non_negative, lemma_sum_bounds_two, lemma_sum_bounds_value, lemma_sum_empty, lemma_sum_insert, sum_of, value_or_zero};

verus! {

broadcast use vstd::std_specs::hash::group_hash_axioms;

/// Errors of the fungible token and its extensions.
#[derive(Clone, Copy, Debug, PartialEq, Eq)]
pub enum FungibleTokenError {
    InsufficientBalance,
    InsufficientAllowance,
    InvalidLiveUntilLedger,
    LessThanZero,
    MathOverflow,
    UnsetMetadata,
    ExceededCap,
    InvalidCap,
    CapNotSet,
    SACNotSet,
    SACAddressMismatch,
    SACMissingFnParam,
    SACInvalidFnParam,
    UserNotAllowed,
    UserBlocked,
}

/// An allowance as stored: an amount and the last ledger on which it counts.
#[derive(Clone, Copy, Debug, PartialEq, Eq)]
pub struct AllowanceData {
    pub amount: i128,
    pub live_until_ledger: u32,
}

/// Balances, total supply and allowances of one fungible token.
pub struct FungibleStorage {
    balances: HashMap<u64, i128>,
    allowances: HashMap<u128, AllowanceData>,
    total_supply: i128,
}

/// The single number under which the allowance of `spender` over the tokens
/// of `owner` is kept.
pub open spec fn allowance_key(owner: u64, spender: u64) -> int {
    owner as int * 0x1_0000_0000_0000_0000 + spender as int
}

fn make_allowance_key(owner: u64, spender: u64) -> (k: u128)
    ensures
        k == allowance_key(owner, spender),
{
    (owner as u128) * 0x1_0000_0000_0000_0000u128 + (spender as u128)
}

proof fn lemma_allowance_key_injective(o1: u64, s1: u64, o2: u64, s2: u64)
    requires
        allowance_key(o1, s1) == allowance_key(o2, s2),
    ensures
        o1 == o2,
        s1 == s2,
{
    vstd::arithmetic::div_mod::lemma_fundamental_div_mod_converse(
        allowance_key(o1, s1),
        0x1_0000_0000_0000_0000,
        o1 as int,
        s1 as int,
    );
    vstd::arithmetic::div_mod::lemma_fundamental_div_mod_converse(
        allowance_key(o2, s2),
        0x1_0000_0000_0000_0000,
        o2 as int,
        s2 as int,
    );
}

/// The allowance that counts on ledger `ledger`: the stored amount while the
/// entry lives, `0` once it has expired or where there is none.
pub open spec fn effective_allowance(entry: Option<AllowanceData>, ledger: u32) -> int {
    match entry {
        Some(a) => if a.live_until_ledger >= ledger {
            a.amount as int
        } else {
            0
        },
        None => 0,
    }
}

impl FungibleStorage {
    /// The balances as a map; accounts that never held tokens are absent.
    pub closed spec fn balances_view(&self) -> Map<u64, i128> {
        self.balances@
    }

    /// The balance of `account` (`0` if it never held tokens).
    pub open spec fn balance_of(&self, account: u64) -> int {
        value_or_zero(self.balances_view(), account)
    }

    pub closed spec fn supply(&self) -> int {
        self.total_supply as int
    }

    /// The stored allowance entry of `spender` over the tokens of `owner`.
    pub closed spec fn allowance_entry(&self, owner: u64, spender: u64) -> Option<AllowanceData> {
        let k = allowance_key(owner, spender) as u128;
        if self.allowances@.contains_key(k) {
            Some(self.allowances@[k])
        } else {
            None
        }
    }

    pub open spec fn allowance_at(&self, owner: u64, spender: u64, ledger: u32) -> int {
        effective_allowance(self.allowance_entry(owner, spender), ledger)
    }

    /// Every balance is non-negative and the total supply is their sum.
    pub closed spec fn wf(&self) -> bool {
        &&& self.balances@.dom().finite()
        &&& all_non_negative(self.balances@)
        &&& self.total_supply as int == sum_of(self.balances@)
        &&& forall|k: u128| #[trigger]
            self.allowances@.contains_key(k) ==> self.allowances@[k].amount >= 0
    }

    /// The balances after moving `amount` out of `from` (when given) and into
    /// `to` (when given).
    pub open spec fn moved(
        &self,
        new: &FungibleStorage,
        from: Option<u64>,
        to: Option<u64>,
        amount: int,
    ) -> bool {
        &&& forall|a: u64| #[trigger]
            new.balance_of(a) == self.balance_of(a) - (if from == Some(a) {
                amount
            } else {
                0
            }) + (if to == Some(a) {
                amount
            } else {
                0
            })
        &&& new.supply() == self.supply() + (if from is None {
            amount
        } else {
            0
        }) - (if to is None {
            amount
        } else {
            0
        })
    }

    /// Allowances are the same for every pair of accounts.
    pub open spec fn same_allowances(&self, new: &FungibleStorage) -> bool {
        forall|o: u64, s: u64| #[trigger] new.allowance_entry(o, s) == self.allowance_entry(o, s)
    }

    /// The error that moving `amount` gives, if any.
    pub open spec fn update_error(&self, from: Option<u64>, to: Option<u64>, amount: int) -> Option<
        FungibleTokenError,
    > {
        if amount < 0 {
            Some(FungibleTokenError::LessThanZero)
        } else if from is Some && self.balance_of(from->0) < amount {
            Some(FungibleTokenError::InsufficientBalance)
        } else if from is None && self.supply() + amount > i128::MAX {
            Some(FungibleTokenError::MathOverflow)
        } else {
            None
        }
    }

    /// The error that spending `amount` of the allowance of `spender` over
    /// `owner`'s tokens gives, if any.
    pub open spec fn spend_error(&self, owner: u64, spender: u64, amount: int, ledger: u32) -> Option<
        FungibleTokenError,
    > {
        if amount < 0 {
            Some(FungibleTokenError::LessThanZero)
        } else if self.allowance_at(owner, spender, ledger) < amount {
            Some(FungibleTokenError::InsufficientAllowance)
        } else {
            None
        }
    }

    /// The allowance entries after spending `amount` of `spender`'s allowance
    /// over `owner`'s tokens: the entry keeps its expiry and loses `amount`.
    pub open spec fn spent(
        &self,
        new: &FungibleStorage,
        owner: u64,
        spender: u64,
        amount: int,
        ledger: u32,
    ) -> bool {
        &&& forall|o: u64, s: u64|
            (o != owner || s != spender) ==> #[trigger] new.allowance_entry(o, s)
                == self.allowance_entry(o, s)
        &&& amount > 0 ==> new.allowance_entry(owner, spender) == Some(
            AllowanceData {
                amount: (self.allowance_at(owner, spender, ledger) - amount) as i128,
                live_until_ledger: self.allowance_entry(owner, spender)->0.live_until_ledger,
            },
        )
        &&& amount == 0 ==> new.allowance_entry(owner, spender) == self.allowance_entry(
            owner,
            spender,
        )
    }

    /// A token with no holder and no allowance.
    pub fn new() -> (s: Self)
        ensures
            s.wf(),
            s.supply() == 0,
            forall|a: u64| #[trigger] s.balance_of(a) == 0,
            forall|o: u64, p: u64| #[trigger] s.allowance_entry(o, p) is None,
    {
        proof {
            lemma_sum_empty();
        }
        FungibleStorage { balances: HashMap::new(), allowances: HashMap::new(), total_supply: 0 }
    }

    fn read_balance(&self, account: u64) -> (b: i128)
        ensures
            b == self.balance_of(account),
    {
        match self.balances.get(&account) {
            Some(v) => *v,
            None => 0,
        }
    }

    fn read_allowance(&self, owner: u64, spender: u64) -> (a: Option<AllowanceData>)
        ensures
            a == self.allowance_entry(owner, spender),
    {
        let k = make_allowance_key(owner, spender);
        match self.allowances.get(&k) {
            Some(v) => Some(*v),
            None => None,
        }
    }

    /// Writes one balance, keeping the total supply equal to the sum.
    fn write_balance(&mut self, account: u64, value: i128)
        requires
            old(self).wf(),
            value >= 0,
            old(self).supply() - old(self).balance_of(account) + value <= i128::MAX,
        ensures
            final(self).wf(),
            forall|a: u64| #[trigger]
                final(self).balance_of(a) == if a == account {
                    value as int
                } else {
                    old(self).balance_of(a)
                },
            final(self).supply() == old(self).supply() - old(self).balance_of(account) + value,
            old(self).same_allowances(final(self)),
    {
        proof {
            lemma_sum_insert(self.balances@, account, value);
            lemma_sum_bounds_two(self.balances@, account, account);
        }
        let new_supply: i128 = self.total_supply - self.read_balance(account) + value;
        self.balances.insert(account, value);
        self.total_supply = new_supply;
    }

    /// Writes one allowance entry.
    fn write_allowance(&mut self, owner: u64, spender: u64, data: AllowanceData)
        requires
            old(self).wf(),
            data.amount >= 0,
        ensures
            final(self).wf(),
            final(self).allowance_entry(owner, spender) == Some(data),
            forall|o: u64, s: u64|
                (o != owner || s != spender) ==> #[trigger] final(self).allowance_entry(o, s)
                    == old(self).allowance_entry(o, s),
            forall|a: u64| #[trigger] final(self).balance_of(a) == old(self).balance_of(a),
            final(self).balances_view() == old(self).balances_view(),
            final(self).supply() == old(self).supply(),
    {
        let k = make_allowance_key(owner, spender);
        self.allowances.insert(k, data);
        proof {
            assert forall|o: u64, s: u64|
                (o != owner || s != spender) implies #[trigger] self.allowance_entry(o, s)
                == old(self).allowance_entry(o, s) by {
                if allowance_key(o, s) == allowance_key(owner, spender) {
                    lemma_allowance_key_injective(o, s, owner, spender);
                }
            }
        }
    }
}

/// The base fungible token: the operations that extensions override or call.
pub struct Base;

impl Base {
    /// The total supply.
    pub fn total_supply(token: &FungibleStorage) -> (r: i128)
        ensures
            r == token.supply(),
    {
        token.total_supply
    }

    /// The balance of `account` (`0` for an account that never held tokens).
    pub fn balance(token: &FungibleStorage, account: u64) -> (r: i128)
        ensures
            r == token.balance_of(account),
    {
        token.read_balance(account)
    }

    /// The allowance entry of `spender` over `owner`'s tokens as it counts on
    /// `current_ledger`: an expired entry keeps its expiry but has amount `0`,
    /// a missing one reads as amount `0` living until ledger `0`.
    pub fn allowance_data(token: &FungibleStorage, owner: u64, spender: u64, current_ledger: u32) -> (r:
        AllowanceData)
        ensures
            r.amount == token.allowance_at(owner, spender, current_ledger),
            r.live_until_ledger == match token.allowance_entry(owner, spender) {
                Some(a) => a.live_until_ledger,
                None => 0,
            },
    {
        match token.read_allowance(owner, spender) {
            Some(a) => {
                if a.live_until_ledger < current_ledger {
                    AllowanceData { amount: 0, live_until_ledger: a.live_until_ledger }
                } else {
                    a
                }
            },
            None => AllowanceData { amount: 0, live_until_ledger: 0 },
        }
    }

    /// How many of `owner`'s tokens `spender` may still move on
    /// `current_ledger`.
    pub fn allowance(token: &FungibleStorage, owner: u64, spender: u64, current_ledger: u32) -> (r:
        i128)
        ensures
            r == token.allowance_at(owner, spender, current_ledger),
    {
        Self::allowance_data(token, owner, spender, current_ledger).amount
    }

    /// Sets the allowance of `spender` over `owner`'s tokens to `amount`,
    /// counting until `live_until_ledger`.
    ///
    /// Fails with `LessThanZero` on a negative amount, and with
    /// `InvalidLiveUntilLedger` when a positive amount would already be
    /// expired on `current_ledger`; nothing changes then.
    pub fn set_allowance(
        token: &mut FungibleStorage,
        owner: u64,
        spender: u64,
        amount: i128,
        live_until_ledger: u32,
        current_ledger: u32,
    ) -> (r: Result<(), FungibleTokenError>)
        requires
            old(token).wf(),
        ensures
            final(token).wf(),
            amount < 0 ==> r == Err::<(), FungibleTokenError>(FungibleTokenError::LessThanZero),
            amount > 0 && live_until_ledger < current_ledger ==> r == Err::<(), FungibleTokenError>(
                FungibleTokenError::InvalidLiveUntilLedger,
            ),
            r is Err ==> *final(token) == *old(token),
            r is Ok <==> (amount == 0 || (amount > 0 && live_until_ledger >= current_ledger)),
            r is Ok ==> {
                &&& final(token).allowance_entry(owner, spender) == Some(
                    AllowanceData { amount, live_until_ledger },
                )
                &&& forall|o: u64, s: u64|
                    (o != owner || s != spender) ==> #[trigger] final(token).allowance_entry(o, s)
                        == old(token).allowance_entry(o, s)
                &&& final(token).balances_view() == old(token).balances_view()
                &&& final(token).supply() == old(token).supply()
            },
    {
        if amount < 0 {
            return Err(FungibleTokenError::LessThanZero);
        }
        if amount > 0 && live_until_ledger < current_ledger {
            return Err(FungibleTokenError::InvalidLiveUntilLedger);
        }
        token.write_allowance(owner, spender, AllowanceData { amount, live_until_ledger });
        Ok(())
    }

    /// Lets `spender` move up to `amount` of `owner`'s tokens until
    /// `live_until_ledger`; the same as [`Base::set_allowance`].
    pub fn approve(
        token: &mut FungibleStorage,
        owner: u64,
        spender: u64,
        amount: i128,
        live_until_ledger: u32,
        current_ledger: u32,
    ) -> (r: Result<(), FungibleTokenError>)
        requires
            old(token).wf(),
        ensures
            final(token).wf(),
            r is Err ==> *final(token) == *old(token),
            amount < 0 ==> r == Err::<(), FungibleTokenError>(FungibleTokenError::LessThanZero),
            amount > 0 && live_until_ledger < current_ledger ==> r == Err::<(), FungibleTokenError>(
                FungibleTokenError::InvalidLiveUntilLedger,
            ),
            r is Ok <==> (amount == 0 || (amount > 0 && live_until_ledger >= current_ledger)),
            r is Ok ==> {
                &&& final(token).allowance_entry(owner, spender) == Some(
                    AllowanceData { amount, live_until_ledger },
                )
                &&& forall|o: u64, s: u64|
                    (o != owner || s != spender) ==> #[trigger] final(token).allowance_entry(o, s)
                        == old(token).allowance_entry(o, s)
                &&& final(token).balances_view() == old(token).balances_view()
                &&& final(token).supply() == old(token).supply()
            },
    {
        Self::set_allowance(token, owner, spender, amount, live_until_ledger, current_ledger)
    }

    /// Uses up `amount` of the allowance of `spender` over `owner`'s tokens.
    ///
    /// Fails with `LessThanZero` on a negative amount and with
    /// `InsufficientAllowance` when the allowance that counts on
    /// `current_ledger` is smaller; nothing changes then.
    pub fn spend_allowance(
        token: &mut FungibleStorage,
        owner: u64,
        spender: u64,
        amount: i128,
        current_ledger: u32,
    ) -> (r: Result<(), FungibleTokenError>)
        requires
            old(token).wf(),
        ensures
            final(token).wf(),
            r matches Err(e) ==> Some(e) == old(token).spend_error(
                owner,
                spender,
                amount as int,
                current_ledger,
            ) && *final(token) == *old(token),
            r is Ok ==> old(token).spend_error(owner, spender, amount as int, current_ledger)
                is None && old(token).spent(
                final(token),
                owner,
                spender,
                amount as int,
                current_ledger,
            ) && final(token).balances_view() == old(token).balances_view() && final(token).supply() == old(token).supply(),
            old(token).spend_error(owner, spender, amount as int, current_ledger) is None ==> r is Ok,
    {
        if amount < 0 {
            return Err(FungibleTokenError::LessThanZero);
        }
        let allowance = Self::allowance_data(token, owner, spender, current_ledger);
        if allowance.amount < amount {
            return Err(FungibleTokenError::InsufficientAllowance);
        }
        if amount > 0 {
            token.write_allowance(
                owner,
                spender,
                AllowanceData {
                    amount: allowance.amount - amount,
                    live_until_ledger: allowance.live_until_ledger,
                },
            );
        }
        Ok(())
    }

    /// Moves `amount` out of `from` (or mints it when `from` is `None`) and
    /// into `to` (or burns it when `to` is `None`).
    ///
    /// Fails with `LessThanZero` on a negative amount, `InsufficientBalance`
    /// when `from` holds less than `amount`, and `MathOverflow` when minting
    /// would take the total supply past `i128::MAX`; nothing changes then.
    pub fn update(token: &mut FungibleStorage, from: Option<u64>, to: Option<u64>, amount: i128) -> (r:
        Result<(), FungibleTokenError>)
        requires
            old(token).wf(),
        ensures
            final(token).wf(),
            r matches Err(e) ==> Some(e) == old(token).update_error(from, to, amount as int)
                && *final(token) == *old(token),
            r is Ok <==> old(token).update_error(from, to, amount as int) is None,
            r is Ok ==> old(token).moved(final(token), from, to, amount as int) && old(token).same_allowances(final(token)),
    {
        if amount < 0 {
            return Err(FungibleTokenError::LessThanZero);
        }
        match from {
            Some(f) => {
                let from_balance = token.read_balance(f);
                if from_balance < amount {
                    return Err(FungibleTokenError::InsufficientBalance);
                }
                proof {
                    lemma_sum_bounds_two(token.balances@, f, f);
                }
                token.write_balance(f, from_balance - amount);
            },
            None => {
                if token.total_supply > i128::MAX - amount {
                    return Err(FungibleTokenError::MathOverflow);
                }
            },
        }
        // `from` has given up `amount` (or it is being minted); the supply
        // (plus the amount being minted) still bounds every balance.
        match to {
            Some(t) => {
                let to_balance = token.read_balance(t);
                proof {
                    lemma_sum_bounds_two(token.balances@, t, t);
                }
                token.write_balance(t, to_balance + amount);
            },
            None => {},
        }
        Ok(())
    }

    /// Moves `amount` from `from` to `to` (authorization is the caller's).
    pub fn transfer(token: &mut FungibleStorage, from: u64, to: u64, amount: i128) -> (r: Result<
        (),
        FungibleTokenError,
    >)
        requires
            old(token).wf(),
        ensures
            final(token).wf(),
            r matches Err(e) ==> Some(e) == old(token).update_error(Some(from), Some(to), amount as int)
                && *final(token) == *old(token),
            r is Ok <==> old(token).update_error(Some(from), Some(to), amount as int) is None,
            r is Ok ==> old(token).moved(final(token), Some(from), Some(to), amount as int) && old(token).same_allowances(final(token)),
    {
        Self::update(token, Some(from), Some(to), amount)
    }

    /// `spender` moves `amount` from `from` to `to`, using up as much of its
    /// allowance over `from`'s tokens. The allowance is checked before the
    /// balance; on any error nothing changes.
    pub fn transfer_from(
        token: &mut FungibleStorage,
        spender: u64,
        from: u64,
        to: u64,
        amount: i128,
        current_ledger: u32,
    ) -> (r: Result<(), FungibleTokenError>)
        requires
            old(token).wf(),
        ensures
            final(token).wf(),
            r matches Err(e) ==> *final(token) == *old(token) && Some(e) == (if old(token).spend_error(from, spender, amount as int, current_ledger) is Some {
                old(token).spend_error(from, spender, amount as int, current_ledger)
            } else {
                old(token).update_error(Some(from), Some(to), amount as int)
            }),
            r is Ok <==> old(token).spend_error(from, spender, amount as int, current_ledger) is None
                && old(token).update_error(Some(from), Some(to), amount as int) is None,
            r is Ok ==> old(token).moved(final(token), Some(from), Some(to), amount as int) && old(token).spent(final(token), from, spender, amount as int, current_ledger),
    {
        Self::spend_then_update(token, spender, from, Some(to), amount, current_ledger)
    }

    /// Spends the allowance and then moves the tokens, failing as a whole.
    fn spend_then_update(
        token: &mut FungibleStorage,
        spender: u64,
        from: u64,
        to: Option<u64>,
        amount: i128,
        current_ledger: u32,
    ) -> (r: Result<(), FungibleTokenError>)
        requires
            old(token).wf(),
        ensures
            final(token).wf(),
            r matches Err(e) ==> *final(token) == *old(token) && Some(e) == (if old(token).spend_error(from, spender, amount as int, current_ledger) is Some {
                old(token).spend_error(from, spender, amount as int, current_ledger)
            } else {
                old(token).update_error(Some(from), to, amount as int)
            }),
            r is Ok <==> old(token).spend_error(from, spender, amount as int, current_ledger) is None
                && old(token).update_error(Some(from), to, amount as int) is None,
            r is Ok ==> old(token).moved(final(token), Some(from), to, amount as int) && old(token).spent(final(token), from, spender, amount as int, current_ledger),
    {
        if amount < 0 {
            return Err(FungibleTokenError::LessThanZero);
        }
        let allowance = Self::allowance_data(token, from, spender, current_ledger);
        if allowance.amount < amount {
            return Err(FungibleTokenError::InsufficientAllowance);
        }
        if token.read_balance(from) < amount {
            return Err(FungibleTokenError::InsufficientBalance);
        }
        let ghost before = *token;
        let r1 = Self::spend_allowance(token, from, spender, amount, current_ledger);
        assert(r1 is Ok);
        let ghost mid = *token;
        let r2 = Self::update(token, Some(from), to, amount);
        assert(r2 is Ok);
        proof {
            assert forall|a: u64| #[trigger] token.balance_of(a) == before.balance_of(a) - (if Some(
                from,
            ) == Some(a) {
                amount as int
            } else {
                0
            }) + (if to == Some(a) {
                amount as int
            } else {
                0
            }) by {
                assert(mid.balance_of(a) == before.balance_of(a));
            }
        }
        Ok(())
    }

    /// Creates `amount` new tokens for `to`.
    pub fn mint(token: &mut FungibleStorage, to: u64, amount: i128) -> (r: Result<
        (),
        FungibleTokenError,
    >)
        requires
            old(token).wf(),
        ensures
            final(token).wf(),
            r matches Err(e) ==> Some(e) == old(token).update_error(None, Some(to), amount as int)
                && *final(token) == *old(token),
            r is Ok <==> old(token).update_error(None, Some(to), amount as int) is None,
            r is Ok ==> old(token).moved(final(token), None, Some(to), amount as int) && old(token).same_allowances(final(token)),
    {
        Self::update(token, None, Some(to), amount)
    }

    /// Destroys `amount` of `from`'s tokens.
    pub fn burn(token: &mut FungibleStorage, from: u64, amount: i128) -> (r: Result<
        (),
        FungibleTokenError,
    >)
        requires
            old(token).wf(),
        ensures
            final(token).wf(),
            r matches Err(e) ==> Some(e) == old(token).update_error(Some(from), None, amount as int)
                && *final(token) == *old(token),
            r is Ok <==> old(token).update_error(Some(from), None, amount as int) is None,
            r is Ok ==> old(token).moved(final(token), Some(from), None, amount as int) && old(token).same_allowances(final(token)),
    {
        Self::update(token, Some(from), None, amount)
    }

    /// `spender` destroys `amount` of `from`'s tokens, using up as much of
    /// its allowance; on any error nothing changes.
    pub fn burn_from(
        token: &mut FungibleStorage,
        spender: u64,
        from: u64,
        amount: i128,
        current_ledger: u32,
    ) -> (r: Result<(), FungibleTokenError>)
        requires
            old(token).wf(),
        ensures
            final(token).wf(),
            r matches Err(e) ==> *final(token) == *old(token) && Some(e) == (if old(token).spend_error(from, spender, amount as int, current_ledger) is Some {
                old(token).spend_error(from, spender, amount as int, current_ledger)
            } else {
                old(token).update_error(Some(from), None, amount as int)
            }),
            r is Ok <==> old(token).spend_error(from, spender, amount as int, current_ledger) is None
                && old(token).update_error(Some(from), None, amount as int) is None,
            r is Ok ==> old(token).moved(final(token), Some(from), None, amount as int) && old(token).spent(final(token), from, spender, amount as int, current_ledger),
    {
        Self::spend_then_update(token, spender, from, None, amount, current_ledger)
    }
}

/// A token's decimals, name and symbol.
pub struct Metadata {
    pub decimals: u32,
    pub name: String,
    pub symbol: String,
}

/// Where a token keeps its metadata, once it is set.
pub struct MetadataStorage {
    metadata: Option<Metadata>,
}

impl MetadataStorage {
    /// The stored decimals, name and symbol, if metadata was set.
    pub closed spec fn metadata_view(&self) -> Option<(u32, Seq<char>, Seq<char>)> {
        match self.metadata {
            Some(m) => Some((m.decimals, m.name@, m.symbol@)),
            None => None,
        }
    }

    /// No metadata yet.
    pub fn new() -> (s: Self)
        ensures
            s.metadata_view() is None,
    {
        MetadataStorage { metadata: None }
    }
}

impl Base {
    /// Sets (or replaces) the token's decimals, name and symbol.
    pub fn set_metadata(meta: &mut MetadataStorage, decimals: u32, name: String, symbol: String)
        ensures
            final(meta).metadata_view() == Some((decimals, name@, symbol@)),
    {
        meta.metadata = Some(Metadata { decimals, name, symbol });
    }

    /// The token's decimals; `UnsetMetadata` before metadata was set.
    pub fn decimals(meta: &MetadataStorage) -> (r: Result<u32, FungibleTokenError>)
        ensures
            match meta.metadata_view() {
                Some(m) => r == Ok::<u32, FungibleTokenError>(m.0),
                None => r == Err::<u32, FungibleTokenError>(FungibleTokenError::UnsetMetadata),
            },
    {
        match &meta.metadata {
            Some(m) => Ok(m.decimals),
            None => Err(FungibleTokenError::UnsetMetadata),
        }
    }

    /// The token's name; `UnsetMetadata` before metadata was set.
    pub fn name(meta: &MetadataStorage) -> (r: Result<String, FungibleTokenError>)
        ensures
            match meta.metadata_view() {
                Some(m) => r is Ok && r->Ok_0@ == m.1,
                None => r == Err::<String, FungibleTokenError>(FungibleTokenError::UnsetMetadata),
            },
    {
        match &meta.metadata {
            Some(m) => Ok(m.name.clone()),
            None => Err(FungibleTokenError::UnsetMetadata),
        }
    }

    /// The token's symbol; `UnsetMetadata` before metadata was set.
    pub fn symbol(meta: &MetadataStorage) -> (r: Result<String, FungibleTokenError>)
        ensures
            match meta.metadata_view() {
                Some(m) => r is Ok && r->Ok_0@ == m.2,
                None => r == Err::<String, FungibleTokenError>(FungibleTokenError::UnsetMetadata),
            },
    {
        match &meta.metadata {
            Some(m) => Ok(m.symbol.clone()),
            None => Err(FungibleTokenError::UnsetMetadata),
        }
    }
}

/// The total supply is always the sum of all balances, none of which is
/// negative.
pub proof fn lemma_supply_is_sum_of_balances(token: &FungibleStorage)
    requires
        token.wf(),
    ensures
        token.supply() == sum_of(token.balances_view()),
        all_non_negative(token.balances_view()),
        token.supply() >= 0,
        forall|a: u64| #[trigger] token.balance_of(a) >= 0 && token.balance_of(a) <= token.supply(),
{
    lemma_sum_bounds_value(token.balances@.dom(), token.balances@, 0);
    assert forall|a: u64| #[trigger] token.balance_of(a) >= 0 && token.balance_of(a) <= token.supply() by {
        lemma_sum_bounds_two(token.balances@, a, a);
    }
}


/// Every successful move can be undone by the move back: moving `amount`
/// from `to` back to `from` (burning what was minted, minting what was
/// burnt) never fails afterwards, and once it is done every balance and the
/// total supply are what they were before the first move.
pub proof fn lemma_move_then_back(
    s0: &FungibleStorage,
    s1: &FungibleStorage,
    s2: &FungibleStorage,
    from: Option<u64>,
    to: Option<u64>,
    amount: int,
)
    requires
        s0.wf(),
        s0.update_error(from, to, amount) is None,
        s0.moved(s1, from, to, amount),
    ensures
        s1.update_error(to, from, amount) is None,
        s1.moved(s2, to, from, amount) ==> {
            &&& forall|a: u64| #[trigger] s2.balance_of(a) == s0.balance_of(a)
            &&& s2.supply() == s0.supply()
        },
{
    lemma_supply_is_sum_of_balances(s0);
    if let Some(t) = to {
        assert(s1.balance_of(t) == s0.balance_of(t) - (if from == Some(t) { amount } else { 0 }) + amount);
        assert(s0.balance_of(t) >= 0);
    }
    if s1.moved(s2, to, from, amount) {
        assert forall|a: u64| #[trigger] s2.balance_of(a) == s0.balance_of(a) by {
            assert(s1.balance_of(a) == s0.balance_of(a) - (if from == Some(a) { amount } else { 0 }) + (
            if to == Some(a) { amount } else { 0 }));
        }
    }
}

} // verus!
