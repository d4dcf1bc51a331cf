//! Voting power: each account holds voting units (one per token it holds)
//! and may delegate them to an account, whose votes are the units delegated
//! to it. Units that are not delegated count for nobody.
use std::collections::HashMap;
use vstd::prelude::*;

use crate::sums::{lemma_sum_fn_bounds, lemma_sum_fn_frame, lemma_sum_fn_le, lemma_sum_fn_update, sum_fn};

verus! {

broadcast use vstd::std_specs::hash::group_hash_axioms;

/// Errors of the voting ledger.
#[derive(Clone, Copy, Debug, PartialEq, Eq)]
pub enum VotesError {
    /// An account gives up more units than it holds.
    InsufficientVotingUnits,
    /// The total of the units would not fit.
    MathOverflow,
}

/// Voting units, delegations and the votes of each delegate.
pub struct VotesStorage {
    units: HashMap<u64, u128>,
    delegates: HashMap<u64, u64>,
    votes: HashMap<u64, u128>,
    total: u128,
}

/// The units of `a` in `units` (`0` when absent).
pub open spec fn units_at(units: Map<u64, u128>, a: u64) -> int {
    if units.contains_key(a) {
        units[a] as int
    } else {
        0
    }
}

/// What `a` gives to `d`: its units when it delegates to `d`, else nothing.
pub open spec fn weight(units: Map<u64, u128>, dels: Map<u64, u64>, d: u64, a: u64) -> int {
    if dels.contains_key(a) && dels[a] == d {
        units_at(units, a)
    } else {
        0
    }
}

pub open spec fn weight_fn(units: Map<u64, u128>, dels: Map<u64, u64>, d: u64) -> spec_fn(u64) -> int {
    |a: u64| weight(units, dels, d, a)
}

pub open spec fn units_fn(units: Map<u64, u128>) -> spec_fn(u64) -> int {
    |a: u64| units_at(units, a)
}

/// The units delegated to `d`.
pub open spec fn delegated_to(units: Map<u64, u128>, dels: Map<u64, u64>, d: u64) -> int {
    sum_fn(units.dom(), weight_fn(units, dels, d))
}

/// All units.
pub open spec fn units_total(units: Map<u64, u128>) -> int {
    sum_fn(units.dom(), units_fn(units))
}

impl VotesStorage {
    pub closed spec fn units_map(&self) -> Map<u64, u128> {
        self.units@
    }

    pub closed spec fn delegates_map(&self) -> Map<u64, u64> {
        self.delegates@
    }

    /// The voting units of `account`.
    pub open spec fn voting_units(&self, account: u64) -> int {
        units_at(self.units_map(), account)
    }

    /// The account `account` delegates to, if any.
    pub open spec fn delegate_of(&self, account: u64) -> Option<u64> {
        if self.delegates_map().contains_key(account) {
            Some(self.delegates_map()[account])
        } else {
            None
        }
    }

    /// The votes of `account` as a delegate.
    pub closed spec fn votes_of(&self, account: u64) -> int {
        if self.votes@.contains_key(account) {
            self.votes@[account] as int
        } else {
            0
        }
    }

    /// The units of all accounts together.
    pub closed spec fn total_units(&self) -> int {
        self.total as int
    }

    /// The total is the sum of all units, and each delegate's votes are the
    /// units delegated to it.
    pub closed spec fn wf(&self) -> bool {
        &&& self.units@.dom().finite()
        &&& self.total as int == units_total(self.units@)
        &&& forall|d: u64| #[trigger] self.votes_of(d) == delegated_to(self.units@, self.delegates@, d)
    }

    /// No units, no delegation.
    pub fn new() -> (v: Self)
        ensures
            v.wf(),
            v.total_units() == 0,
            forall|a: u64| #[trigger] v.voting_units(a) == 0 && v.delegate_of(a) is None && v.votes_of(a) == 0,
    {
        let v = VotesStorage { units: HashMap::new(), delegates: HashMap::new(), votes: HashMap::new(), total: 0 };
        proof {
            assert(v.units@.dom() =~= Set::<u64>::empty());
        }
        v
    }

    fn write_units(&mut self, a: u64, val: u128)
        requires
            old(self).units@.dom().finite(),
        ensures
            final(self).units@ == old(self).units@.insert(a, val),
            final(self).delegates@ == old(self).delegates@,
            final(self).votes@ == old(self).votes@,
            final(self).total == old(self).total,
            final(self).units@.dom().finite(),
            units_total(final(self).units@) == units_total(old(self).units@) - units_at(old(self).units@, a)
                + val,
            forall|d: u64| #[trigger]
                delegated_to(final(self).units@, final(self).delegates@, d) == delegated_to(
                    old(self).units@,
                    old(self).delegates@,
                    d,
                ) - weight(old(self).units@, old(self).delegates@, d, a) + weight(
                    final(self).units@,
                    final(self).delegates@,
                    d,
                    a,
                ),
    {
        let ghost u0 = self.units@;
        self.units.insert(a, val);
        proof {
            let u1 = self.units@;
            let dels = self.delegates@;
            assert(u1.dom() =~= u0.dom().insert(a));
            assert forall|k: u64| k != a implies #[trigger] units_fn(u0)(k) == units_fn(u1)(k) by {}
            lemma_sum_fn_update(u0.dom(), units_fn(u0), units_fn(u1), a);
            assert forall|d: u64| #[trigger]
                delegated_to(u1, dels, d) == delegated_to(u0, dels, d) - weight(u0, dels, d, a) + weight(
                    u1,
                    dels,
                    d,
                    a,
                ) by {
                assert forall|k: u64| k != a implies #[trigger] weight_fn(u0, dels, d)(k) == weight_fn(
                    u1,
                    dels,
                    d,
                )(k) by {}
                lemma_sum_fn_update(u0.dom(), weight_fn(u0, dels, d), weight_fn(u1, dels, d), a);
            }
        }
    }

    fn add_votes(&mut self, d: u64, amount: u128)
        requires
            old(self).votes_of(d) + amount <= u128::MAX,
        ensures
            final(self).votes_of(d) == old(self).votes_of(d) + amount,
            forall|x: u64| x != d ==> #[trigger] final(self).votes_of(x) == old(self).votes_of(x),
            final(self).units@ == old(self).units@,
            final(self).delegates@ == old(self).delegates@,
            final(self).total == old(self).total,
    {
        let current: u128 = match self.votes.get(&d) {
            Some(x) => *x,
            None => 0,
        };
        self.votes.insert(d, current + amount);
    }

    fn sub_votes(&mut self, d: u64, amount: u128)
        requires
            old(self).votes_of(d) >= amount,
        ensures
            final(self).votes_of(d) == old(self).votes_of(d) - amount,
            forall|x: u64| x != d ==> #[trigger] final(self).votes_of(x) == old(self).votes_of(x),
            final(self).units@ == old(self).units@,
            final(self).delegates@ == old(self).delegates@,
            final(self).total == old(self).total,
    {
        let current: u128 = match self.votes.get(&d) {
            Some(x) => *x,
            None => 0,
        };
        self.votes.insert(d, current - amount);
    }

    /// Moves `amount` votes from delegate `from` to delegate `to`, which
    /// brings the votes back in line with the delegated units.
    fn move_delegate_votes(&mut self, from: Option<u64>, to: Option<u64>, amount: u128)
        requires
            old(self).units@.dom().finite(),
            old(self).total as int == units_total(old(self).units@),
            forall|d: u64| #[trigger]
                delegated_to(old(self).units@, old(self).delegates@, d) == old(self).votes_of(d) - (if from
                    == Some(d) {
                    amount as int
                } else {
                    0
                }) + (if to == Some(d) {
                    amount as int
                } else {
                    0
                }),
        ensures
            final(self).wf(),
            final(self).units@ == old(self).units@,
            final(self).delegates@ == old(self).delegates@,
            final(self).total == old(self).total,
    {
        if from == to || amount == 0 {
            return;
        }
        let ghost units = self.units@;
        let ghost dels = self.delegates@;
        match from {
            Some(f) => {
                proof {
                    lemma_weights_fit(units, dels, f);
                    assert(delegated_to(units, dels, f) == self.votes_of(f) - amount);
                }
                self.sub_votes(f, amount);
            },
            None => {},
        }
        match to {
            Some(t) => {
                proof {
                    lemma_weights_fit(units, dels, t);
                    assert(delegated_to(units, dels, t) == self.votes_of(t) + amount);
                }
                self.add_votes(t, amount);
            },
            None => {},
        }
    }
}

/// What is delegated to `d` is never negative and never more than all units.
proof fn lemma_weights_fit(units: Map<u64, u128>, dels: Map<u64, u64>, d: u64)
    requires
        units.dom().finite(),
    ensures
        0 <= delegated_to(units, dels, d) <= units_total(units),
        forall|a: u64| units.contains_key(a) ==> #[trigger] weight(units, dels, d, a) <= delegated_to(units, dels, d),
        forall|a: u64| units.contains_key(a) ==> #[trigger] units_at(units, a) <= units_total(units),
{
    assert forall|k: u64| units.dom().contains(k) implies #[trigger] weight_fn(units, dels, d)(k) <= units_fn(units)(k) by {}
    lemma_sum_fn_le(units.dom(), weight_fn(units, dels, d), units_fn(units));
    lemma_sum_fn_bounds(units.dom(), weight_fn(units, dels, d), 0);
    assert forall|a: u64| units.contains_key(a) implies #[trigger] weight(units, dels, d, a) <= delegated_to(units, dels, d) by {
        lemma_sum_fn_bounds(units.dom(), weight_fn(units, dels, d), a);
    }
    assert forall|a: u64| units.contains_key(a) implies #[trigger] units_at(units, a) <= units_total(units) by {
        lemma_sum_fn_bounds(units.dom(), units_fn(units), a);
    }
}

/// The error that moving `amount` units out of `from` (or creating them when
/// `from` is `None`) gives, if any.
pub open spec fn units_error(v: &VotesStorage, from: Option<u64>, amount: int) -> Option<VotesError> {
    match from {
        Some(f) => if v.voting_units(f) < amount {
            Some(VotesError::InsufficientVotingUnits)
        } else {
            None
        },
        None => if v.total_units() + amount > u128::MAX {
            Some(VotesError::MathOverflow)
        } else {
            None
        },
    }
}

/// The voting ledger's operations.
pub struct Votes;

impl Votes {
    /// The voting units of `account`.
    pub fn get_voting_units(v: &VotesStorage, account: u64) -> (r: u128)
        ensures
            r == v.voting_units(account),
    {
        match v.units.get(&account) {
            Some(x) => *x,
            None => 0,
        }
    }

    /// The account `account` delegates to, if any.
    pub fn get_delegate(v: &VotesStorage, account: u64) -> (r: Option<u64>)
        ensures
            r == v.delegate_of(account),
    {
        match v.delegates.get(&account) {
            Some(x) => Some(*x),
            None => None,
        }
    }

    /// The votes of `account` as a delegate.
    pub fn get_votes(v: &VotesStorage, account: u64) -> (r: u128)
        ensures
            r == v.votes_of(account),
    {
        match v.votes.get(&account) {
            Some(x) => *x,
            None => 0,
        }
    }

    /// The units of all accounts together.
    pub fn get_total_supply(v: &VotesStorage) -> (r: u128)
        ensures
            r == v.total_units(),
    {
        v.total
    }

    /// `account` delegates all its units, now and to come, to `delegatee`.
    /// Returns the delegate it had before, if any.
    pub fn delegate(v: &mut VotesStorage, account: u64, delegatee: u64) -> (previous: Option<u64>)
        requires
            old(v).wf(),
        ensures
            final(v).wf(),
            previous == old(v).delegate_of(account),
            final(v).delegate_of(account) == Some(delegatee),
            forall|a: u64| a != account ==> #[trigger] final(v).delegate_of(a) == old(v).delegate_of(a),
            forall|a: u64| #[trigger] final(v).voting_units(a) == old(v).voting_units(a),
            final(v).units_map() == old(v).units_map(),
            final(v).total_units() == old(v).total_units(),
    {
        let previous = Self::get_delegate(v, account);
        let units = Self::get_voting_units(v, account);
        let ghost u = v.units@;
        let ghost d0 = v.delegates@;
        v.delegates.insert(account, delegatee);
        proof {
            let d1 = v.delegates@;
            assert forall|d: u64| #[trigger]
                delegated_to(u, d1, d) == v.votes_of(d) - (if previous == Some(d) {
                    units as int
                } else {
                    0
                }) + (if Some(delegatee) == Some(d) {
                    units as int
                } else {
                    0
                }) by {
                assert forall|k: u64| k != account implies #[trigger] weight_fn(u, d0, d)(k) == weight_fn(
                    u,
                    d1,
                    d,
                )(k) by {}
                assert(v.votes_of(d) == old(v).votes_of(d));
                assert(old(v).votes_of(d) == delegated_to(u, d0, d));
                if u.dom().contains(account) {
                    lemma_sum_fn_update(u.dom(), weight_fn(u, d0, d), weight_fn(u, d1, d), account);
                    assert(u.dom().insert(account) =~= u.dom());
                    assert(weight_fn(u, d0, d)(account) == (if previous == Some(d) {
                        units as int
                    } else {
                        0
                    }));
                    assert(weight_fn(u, d1, d)(account) == (if Some(delegatee) == Some(d) {
                        units as int
                    } else {
                        0
                    }));
                } else {
                    lemma_sum_fn_frame(u.dom(), weight_fn(u, d0, d), weight_fn(u, d1, d));
                }
            }
        }
        v.move_delegate_votes(previous, Some(delegatee), units);
        previous
    }

    /// Moves `amount` voting units from `from` to `to`; `None` for `from`
    /// creates them and `None` for `to` destroys them. The votes of the two
    /// accounts' delegates follow.
    ///
    /// Fails, with nothing changed, with `InsufficientVotingUnits` when
    /// `from` holds fewer units and with `MathOverflow` when created units
    /// would not fit.
    pub fn transfer_voting_units(v: &mut VotesStorage, from: Option<u64>, to: Option<u64>, amount: u128) -> (r:
        Result<(), VotesError>)
        requires
            old(v).wf(),
        ensures
            final(v).wf(),
            r matches Err(e) ==> Some(e) == units_error(old(v), from, amount as int) && *final(v) == *old(v),
            r is Ok <==> units_error(old(v), from, amount as int) is None,
            r is Ok ==> {
                &&& forall|a: u64| #[trigger]
                    final(v).voting_units(a) == old(v).voting_units(a) - (if from == Some(a) {
                        amount as int
                    } else {
                        0
                    }) + (if to == Some(a) {
                        amount as int
                    } else {
                        0
                    })
                &&& final(v).total_units() == old(v).total_units() + (if from is None {
                    amount as int
                } else {
                    0
                }) - (if to is None {
                    amount as int
                } else {
                    0
                })
                &&& forall|a: u64| #[trigger] final(v).delegate_of(a) == old(v).delegate_of(a)
            },
    {
        match from {
            Some(f) => {
                if Self::get_voting_units(v, f) < amount {
                    return Err(VotesError::InsufficientVotingUnits);
                }
            },
            None => {
                if v.total > u128::MAX - amount {
                    return Err(VotesError::MathOverflow);
                }
            },
        }
        let ghost v0 = *v;
        let from_delegate = match from {
            Some(f) => Self::get_delegate(v, f),
            None => None,
        };
        let to_delegate = match to {
            Some(t) => Self::get_delegate(v, t),
            None => None,
        };
        proof {
            lemma_weights_fit(v.units@, v.delegates@, 0);
        }
        match from {
            Some(f) => {
                let u = Self::get_voting_units(v, f);
                v.write_units(f, u - amount);
            },
            None => {},
        }
        let ghost v1 = *v;
        match to {
            Some(t) => {
                let u = Self::get_voting_units(v, t);
                proof {
                    lemma_weights_fit(v.units@, v.delegates@, 0);
                    if v.units@.contains_key(t) {
                        assert(units_at(v.units@, t) <= units_total(v.units@));
                    }
                }
                v.write_units(t, u + amount);
            },
            None => {},
        }
        if from.is_none() {
            v.total = v.total + amount;
        }
        if to.is_none() {
            proof {
                if from is Some {
                    lemma_weights_fit(v0.units@, v0.delegates@, 0);
                    assert(units_at(v0.units@, from->0) <= units_total(v0.units@));
                }
            }
            v.total = v.total - amount;
        }
        proof {
            assert forall|d: u64| #[trigger]
                delegated_to(v.units@, v.delegates@, d) == v.votes_of(d) - (if from_delegate == Some(d) {
                    amount as int
                } else {
                    0
                }) + (if to_delegate == Some(d) {
                    amount as int
                } else {
                    0
                }) by {
                assert(v0.votes_of(d) == delegated_to(v0.units@, v0.delegates@, d));
                assert(v.votes_of(d) == v0.votes_of(d));
            }
        }
        v.move_delegate_votes(from_delegate, to_delegate, amount);
        Ok(())
    }
}

/// Every delegate's votes are exactly the voting units of the accounts that
/// delegate to it, and never more than all units together.
pub proof fn lemma_votes_are_delegated_units(v: &VotesStorage, d: u64)
    requires
        v.wf(),
    ensures
        v.votes_of(d) == delegated_to(v.units_map(), v.delegates_map(), d),
        0 <= v.votes_of(d) <= v.total_units(),
        v.total_units() == units_total(v.units_map()),
{
    lemma_weights_fit(v.units@, v.delegates@, d);
}

} // verus!
