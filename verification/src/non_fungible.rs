//! The non-fungible token ledger: who owns each token, how many tokens each
//! account holds, per-token approvals that expire, and sequential token ids.
use std::collections::HashMap;
use vstd::prelude::*;

use crate::sums::{lemma_sum_fn_bounds, lemma_sum_fn_frame, lemma_sum_fn_remove, lemma_sum_fn_update, sum_fn};

verus! {

broadcast use vstd::std_specs::hash::group_hash_axioms;

/// Errors of the non-fungible token.
#[derive(Clone, Copy, Debug, PartialEq, Eq)]
pub enum NonFungibleTokenError {
    NonExistentToken,
    IncorrectOwner,
    InsufficientApproval,
    InvalidApprover,
    InvalidLiveUntilLedger,
    MathOverflow,
    TokenIDsAreDepleted,
    TokenAlreadyMinted,
}

/// The account approved to move one token, and the last ledger on which
/// the approval counts.
#[derive(Clone, Copy, Debug, PartialEq, Eq)]
pub struct ApprovalData {
    pub approved: u64,
    pub live_until_ledger: u32,
}

/// What is announced when a token's own royalty is removed.
#[derive(Clone, Copy, Debug, PartialEq, Eq)]
pub struct RemoveTokenRoyalty {
    pub token_id: u32,
}

/// Owners, balances, approvals and the next sequential id.
pub struct NonFungibleStorage {
    owners: HashMap<u32, u64>,
    balances: HashMap<u64, u32>,
    approvals: HashMap<u32, ApprovalData>,
    next_token_id: u32,
}

pub open spec fn owned_fn(owners: Map<u32, u64>, a: u64) -> spec_fn(u32) -> int {
    |t: u32| if owners[t] == a { 1int } else { 0int }
}

/// How many tokens of `owners` belong to `a`.
pub open spec fn owned_count(owners: Map<u32, u64>, a: u64) -> int {
    sum_fn(owners.dom(), owned_fn(owners, a))
}

impl NonFungibleStorage {
    pub closed spec fn owners_map(&self) -> Map<u32, u64> {
        self.owners@
    }

    /// The owner of `token_id`, if it exists.
    pub open spec fn owner_view(&self, token_id: u32) -> Option<u64> {
        if self.owners_map().contains_key(token_id) {
            Some(self.owners_map()[token_id])
        } else {
            None
        }
    }

    /// How many tokens `account` holds.
    pub closed spec fn balance_of(&self, account: u64) -> int {
        if self.balances@.contains_key(account) {
            self.balances@[account] as int
        } else {
            0
        }
    }

    /// The approval stored for `token_id`, if any.
    pub closed spec fn approval_of(&self, token_id: u32) -> Option<ApprovalData> {
        if self.approvals@.contains_key(token_id) {
            Some(self.approvals@[token_id])
        } else {
            None
        }
    }

    /// How many tokens exist.
    pub closed spec fn token_count(&self) -> nat {
        self.owners@.dom().len()
    }

    /// The id the next sequential mint uses.
    pub closed spec fn next_id(&self) -> u32 {
        self.next_token_id
    }

    /// Every balance is the number of tokens owned.
    pub closed spec fn wf(&self) -> bool {
        &&& self.owners@.dom().finite()
        &&& forall|a: u64| #[trigger] self.balance_of(a) == owned_count(self.owners@, a)
    }

    /// No token, no approval; sequential ids start at `0`.
    pub fn new() -> (s: Self)
        ensures
            s.wf(),
            s.next_id() == 0,
            forall|t: u32| #[trigger] s.owner_view(t) is None && s.approval_of(t) is None,
            forall|a: u64| #[trigger] s.balance_of(a) == 0,
    {
        let s = NonFungibleStorage {
            owners: HashMap::new(),
            balances: HashMap::new(),
            approvals: HashMap::new(),
            next_token_id: 0,
        };
        proof {
            assert(s.owners@.dom() =~= Set::<u32>::empty());
        }
        s
    }

    fn clear_approval(&mut self, token_id: u32)
        ensures
            final(self).approvals@ == old(self).approvals@.remove(token_id),
            final(self).balances@ == old(self).balances@,
            forall|a: u64| #[trigger] final(self).balance_of(a) == old(self).balance_of(a),
            final(self).owners@ == old(self).owners@,
            final(self).next_token_id == old(self).next_token_id,
    {
        self.approvals.remove(&token_id);
    }

    fn set_owner(&mut self, token_id: u32, owner: Option<u64>)
        ensures
            final(self).owners@ == match owner {
                Some(o) => old(self).owners@.insert(token_id, o),
                None => old(self).owners@.remove(token_id),
            },
            forall|a: u64| #[trigger] final(self).balance_of(a) == old(self).balance_of(a),
            final(self).approvals@ == old(self).approvals@,
            final(self).next_token_id == old(self).next_token_id,
    {
        match owner {
            Some(o) => {
                self.owners.insert(token_id, o);
            },
            None => {
                self.owners.remove(&token_id);
            },
        }
    }

    fn set_next_id(&mut self, next: u32)
        ensures
            final(self).next_token_id == next,
            final(self).owners@ == old(self).owners@,
            final(self).approvals@ == old(self).approvals@,
            forall|a: u64| #[trigger] final(self).balance_of(a) == old(self).balance_of(a),
            forall|t: u32| #[trigger] final(self).owner_view(t) == old(self).owner_view(t),
            final(self).token_count() == old(self).token_count(),
    {
        self.next_token_id = next;
    }

    fn write_balance(&mut self, account: u64, value: u32)
        ensures
            final(self).balance_of(account) == value,
            forall|a: u64| a != account ==> #[trigger] final(self).balance_of(a) == old(self).balance_of(a),
            final(self).owners@ == old(self).owners@,
            final(self).approvals@ == old(self).approvals@,
            final(self).next_token_id == old(self).next_token_id,
    {
        self.balances.insert(account, value);
    }
}

/// A token is owned by one account at a time: the tokens of `a` count one
/// for each token it owns.
proof fn lemma_owner_counts(owners: Map<u32, u64>, token_id: u32)
    requires
        owners.dom().finite(),
        owners.contains_key(token_id),
    ensures
        owned_count(owners, owners[token_id]) >= 1,
{
    let a = owners[token_id];
    assert forall|k: u32| owners.dom().contains(k) implies #[trigger] owned_fn(owners, a)(k) >= 0 by {}
    lemma_sum_fn_bounds(owners.dom(), owned_fn(owners, a), token_id);
}

/// Giving `token_id` to `x` adds it to `x`'s count and takes it from its
/// former owner's.
proof fn lemma_count_after_insert(owners: Map<u32, u64>, token_id: u32, x: u64, a: u64)
    requires
        owners.dom().finite(),
    ensures
        owned_count(owners.insert(token_id, x), a) == owned_count(owners, a) - (if owners.contains_key(
            token_id,
        ) && owners[token_id] == a {
            1int
        } else {
            0int
        }) + (if x == a {
            1int
        } else {
            0int
        }),
{
    let new = owners.insert(token_id, x);
    assert(new.dom() =~= owners.dom().insert(token_id));
    assert forall|k: u32| k != token_id implies #[trigger] owned_fn(owners, a)(k) == owned_fn(new, a)(k) by {}
    lemma_sum_fn_update(owners.dom(), owned_fn(owners, a), owned_fn(new, a), token_id);
}

/// Taking `token_id` away removes it from its owner's count.
proof fn lemma_count_after_remove(owners: Map<u32, u64>, token_id: u32, a: u64)
    requires
        owners.dom().finite(),
        owners.contains_key(token_id),
    ensures
        owned_count(owners.remove(token_id), a) == owned_count(owners, a) - (if owners[token_id] == a {
            1int
        } else {
            0int
        }),
{
    let new = owners.remove(token_id);
    assert(new.dom() =~= owners.dom().remove(token_id));
    lemma_sum_fn_remove(owners.dom(), owned_fn(owners, a), token_id);
    assert forall|k: u32| new.dom().contains(k) implies #[trigger] owned_fn(owners, a)(k) == owned_fn(new, a)(k) by {}
    lemma_sum_fn_frame(new.dom(), owned_fn(owners, a), owned_fn(new, a));
}

/// There are never more tokens than token ids.
pub proof fn lemma_token_count_fits(nft: &NonFungibleStorage)
    requires
        nft.wf(),
    ensures
        nft.token_count() <= 0x1_0000_0000,
{
    let all = Set::<u32>::range(0, u32::MAX).insert(u32::MAX);
    <u32 as vstd::set_lib::FiniteRange>::range_properties(0, u32::MAX);
    assert(nft.owners@.dom().subset_of(all));
    vstd::set_lib::lemma_len_subset(nft.owners@.dom(), all);
}

/// An account that owns a token holds at least one.
pub proof fn lemma_owner_holds_a_token(nft: &NonFungibleStorage, token_id: u32)
    requires
        nft.wf(),
        nft.owner_view(token_id) is Some,
    ensures
        nft.balance_of(nft.owner_view(token_id)->0) >= 1,
{
    lemma_owner_counts(nft.owners@, token_id);
}

/// A token moved can be moved back: the reverse move (burning what was
/// minted, minting again what was burnt) never fails afterwards, and once it
/// is done every owner, every count, the number of tokens and the next
/// sequential id are what they were before the first move.
pub proof fn lemma_nft_move_then_back(
    s0: &NonFungibleStorage,
    s1: &NonFungibleStorage,
    s2: &NonFungibleStorage,
    from: Option<u64>,
    to: Option<u64>,
    token_id: u32,
)
    requires
        s0.wf(),
        nft_update_error(s0, from, to, token_id) is None,
        nft_moved(s0, s1, from, to, token_id),
    ensures
        nft_update_error(s1, to, from, token_id) is None,
        nft_moved(s1, s2, to, from, token_id) ==> {
            &&& forall|t: u32| #[trigger] s2.owner_view(t) == s0.owner_view(t)
            &&& forall|a: u64| #[trigger] s2.balance_of(a) == s0.balance_of(a)
            &&& s2.token_count() == s0.token_count()
            &&& s2.next_id() == s0.next_id()
        },
{
    if let Some(f) = from {
        assert(s0.balance_of(f) <= u32::MAX);
        assert(s1.balance_of(f) == s0.balance_of(f) - 1 + (if to == Some(f) { 1int } else { 0int }));
    }
}

/// The error that moving `token_id` out of `from` (or minting it when `from`
/// is `None`) and into `to` (or burning it when `to` is `None`) gives, if
/// any.
pub open spec fn nft_update_error(nft: &NonFungibleStorage, from: Option<u64>, to: Option<u64>, token_id: u32) -> Option<
    NonFungibleTokenError,
> {
    match from {
        Some(f) => if nft.owner_view(token_id) is None {
            Some(NonFungibleTokenError::NonExistentToken)
        } else if nft.owner_view(token_id) != Some(f) {
            Some(NonFungibleTokenError::IncorrectOwner)
        } else {
            nft_receive_error(nft, from, to)
        },
        None => if nft.owner_view(token_id) is Some {
            Some(NonFungibleTokenError::TokenAlreadyMinted)
        } else {
            nft_receive_error(nft, from, to)
        },
    }
}

/// The error of a receiver whose count would no longer fit, if any.
pub open spec fn nft_receive_error(nft: &NonFungibleStorage, from: Option<u64>, to: Option<u64>) -> Option<
    NonFungibleTokenError,
> {
    match to {
        Some(x) => if from != Some(x) && nft.balance_of(x) >= u32::MAX {
            Some(NonFungibleTokenError::MathOverflow)
        } else {
            None
        },
        None => None,
    }
}

/// The ledger after `token_id` moved from `from` to `to`: its owner, the
/// two counts, and its approval cleared when it had an owner.
pub open spec fn nft_moved(
    old_nft: &NonFungibleStorage,
    new_nft: &NonFungibleStorage,
    from: Option<u64>,
    to: Option<u64>,
    token_id: u32,
) -> bool {
    &&& new_nft.owner_view(token_id) == to
    &&& forall|t: u32| t != token_id ==> #[trigger] new_nft.owner_view(t) == old_nft.owner_view(t)
    &&& forall|a: u64| #[trigger]
        new_nft.balance_of(a) == old_nft.balance_of(a) - (if from == Some(a) {
            1int
        } else {
            0int
        }) + (if to == Some(a) {
            1int
        } else {
            0int
        })
    &&& from is Some ==> new_nft.approval_of(token_id) is None
    &&& from is None ==> new_nft.approval_of(token_id) == old_nft.approval_of(token_id)
    &&& forall|t: u32| t != token_id ==> #[trigger] new_nft.approval_of(t) == old_nft.approval_of(t)
    &&& new_nft.next_id() == old_nft.next_id()
    &&& new_nft.token_count() == old_nft.token_count() + (if from is None {
        1int
    } else {
        0int
    }) - (if to is None {
        1int
    } else {
        0int
    })
}

/// Whether `spender` may move `token_id` for `owner` on `current_ledger`:
/// it is the owner, or the token's approval names it and still counts.
pub open spec fn may_spend(nft: &NonFungibleStorage, spender: u64, owner: u64, token_id: u32, current_ledger: u32) -> bool {
    spender == owner || match nft.approval_of(token_id) {
        Some(ap) => ap.approved == spender && ap.live_until_ledger >= current_ledger,
        None => false,
    }
}

/// The non-fungible token's operations.
pub struct NonFungibleBase;

impl NonFungibleBase {
    /// The owner of `token_id`; `NonExistentToken` when there is none.
    pub fn owner_of(nft: &NonFungibleStorage, token_id: u32) -> (r: Result<u64, NonFungibleTokenError>)
        ensures
            match nft.owner_view(token_id) {
                Some(o) => r == Ok::<u64, NonFungibleTokenError>(o),
                None => r == Err::<u64, NonFungibleTokenError>(NonFungibleTokenError::NonExistentToken),
            },
    {
        match nft.owners.get(&token_id) {
            Some(o) => Ok(*o),
            None => Err(NonFungibleTokenError::NonExistentToken),
        }
    }

    /// How many tokens `account` holds.
    pub fn balance(nft: &NonFungibleStorage, account: u64) -> (r: u32)
        ensures
            r == nft.balance_of(account),
    {
        match nft.balances.get(&account) {
            Some(b) => *b,
            None => 0,
        }
    }

    /// The account approved for `token_id` on `current_ledger`, if the
    /// approval still counts.
    pub fn get_approved(nft: &NonFungibleStorage, token_id: u32, current_ledger: u32) -> (r: Option<u64>)
        ensures
            r == match nft.approval_of(token_id) {
                Some(ap) => if ap.live_until_ledger >= current_ledger {
                    Some(ap.approved)
                } else {
                    None
                },
                None => None,
            },
    {
        match nft.approvals.get(&token_id) {
            Some(ap) => if ap.live_until_ledger >= current_ledger {
                Some(ap.approved)
            } else {
                None
            },
            None => None,
        }
    }

    /// The owner `approver` lets `approved` move `token_id` until
    /// `live_until_ledger`.
    ///
    /// Fails, with nothing changed, with `NonExistentToken`,
    /// `InvalidApprover` when `approver` is not the owner, and
    /// `InvalidLiveUntilLedger` when the approval would already be expired.
    pub fn approve(
        nft: &mut NonFungibleStorage,
        approver: u64,
        approved: u64,
        token_id: u32,
        live_until_ledger: u32,
        current_ledger: u32,
    ) -> (r: Result<(), NonFungibleTokenError>)
        requires
            old(nft).wf(),
        ensures
            final(nft).wf(),
            old(nft).owner_view(token_id) is None ==> r == Err::<(), NonFungibleTokenError>(
                NonFungibleTokenError::NonExistentToken,
            ),
            old(nft).owner_view(token_id) is Some && old(nft).owner_view(token_id) != Some(approver) ==> r
                == Err::<(), NonFungibleTokenError>(NonFungibleTokenError::InvalidApprover),
            old(nft).owner_view(token_id) == Some(approver) && live_until_ledger < current_ledger ==> r
                == Err::<(), NonFungibleTokenError>(NonFungibleTokenError::InvalidLiveUntilLedger),
            r is Ok <==> old(nft).owner_view(token_id) == Some(approver) && live_until_ledger >= current_ledger,
            r is Err ==> *final(nft) == *old(nft),
            r is Ok ==> {
                &&& final(nft).approval_of(token_id) == Some(ApprovalData { approved, live_until_ledger })
                &&& forall|t: u32| t != token_id ==> #[trigger] final(nft).approval_of(t) == old(nft).approval_of(t)
                &&& final(nft).owners_map() == old(nft).owners_map()
                &&& forall|a: u64| #[trigger] final(nft).balance_of(a) == old(nft).balance_of(a)
                &&& final(nft).next_id() == old(nft).next_id()
            },
    {
        let owner = Self::owner_of(nft, token_id)?;
        if owner != approver {
            return Err(NonFungibleTokenError::InvalidApprover);
        }
        if live_until_ledger < current_ledger {
            return Err(NonFungibleTokenError::InvalidLiveUntilLedger);
        }
        nft.approvals.insert(token_id, ApprovalData { approved, live_until_ledger });
        assert(nft.owners@ == old(nft).owners@);
        assert forall|a: u64| #[trigger] nft.balance_of(a) == old(nft).balance_of(a) by {}
        Ok(())
    }

    fn update(nft: &mut NonFungibleStorage, from: Option<u64>, to: Option<u64>, token_id: u32) -> (r: Result<
        (),
        NonFungibleTokenError,
    >)
        requires
            old(nft).wf(),
        ensures
            final(nft).wf(),
            r matches Err(e) ==> Some(e) == nft_update_error(old(nft), from, to, token_id) && *final(nft)
                == *old(nft),
            r is Ok <==> nft_update_error(old(nft), from, to, token_id) is None,
            r is Ok ==> nft_moved(old(nft), final(nft), from, to, token_id),
    {
        let owner: Option<u64> = match nft.owners.get(&token_id) {
            Some(o) => Some(*o),
            None => None,
        };
        match from {
            Some(f) => {
                match owner {
                    None => {
                        return Err(NonFungibleTokenError::NonExistentToken);
                    },
                    Some(o) => {
                        if o != f {
                            return Err(NonFungibleTokenError::IncorrectOwner);
                        }
                    },
                }
            },
            None => {
                if owner.is_some() {
                    return Err(NonFungibleTokenError::TokenAlreadyMinted);
                }
            },
        }
        match to {
            Some(x) => {
                let same = match from {
                    Some(f) => f == x,
                    None => false,
                };
                if !same && Self::balance(nft, x) == u32::MAX {
                    return Err(NonFungibleTokenError::MathOverflow);
                }
            },
            None => {},
        }
        let ghost old_nft = *nft;
        let ghost owners0 = nft.owners@;
        match from {
            Some(f) => {
                proof {
                    lemma_owner_counts(owners0, token_id);
                }
                let b = Self::balance(nft, f);
                nft.write_balance(f, b - 1);
                nft.clear_approval(token_id);
            },
            None => {},
        }
        let ghost mid = *nft;
        match to {
            Some(x) => {
                let b = Self::balance(nft, x);
                proof {
                    if from == Some(x) {
                        assert(mid.balance_of(x) == old_nft.balance_of(x) - 1);
                    } else {
                        assert(mid.balance_of(x) == old_nft.balance_of(x));
                    }
                }
                nft.write_balance(x, b + 1);
                nft.set_owner(token_id, Some(x));
                proof {
                    assert(nft.owners@.dom() =~= owners0.dom().insert(token_id));
                }
                proof {
                    assert forall|a: u64| #[trigger] nft.balance_of(a) == owned_count(nft.owners@, a) by {
                        lemma_count_after_insert(owners0, token_id, x, a);
                    }
                }
            },
            None => {
                nft.set_owner(token_id, None);
                proof {
                    assert(nft.owners@.dom() =~= owners0.dom().remove(token_id));
                }
                proof {
                    assert forall|a: u64| #[trigger] nft.balance_of(a) == owned_count(nft.owners@, a) by {
                        if owners0.contains_key(token_id) {
                            lemma_count_after_remove(owners0, token_id, a);
                        } else {
                            assert(owners0.remove(token_id) =~= owners0);
                        }
                    }
                }
            },
        }
        Ok(())
    }

    /// Moves `token_id` from its owner `from` to `to` (authorization is the
    /// caller's).
    ///
    /// Fails, with nothing changed, with `NonExistentToken`,
    /// `IncorrectOwner` when `from` does not own it, and `MathOverflow` when
    /// `to`'s count would not fit.
    pub fn transfer(nft: &mut NonFungibleStorage, from: u64, to: u64, token_id: u32) -> (r: Result<
        (),
        NonFungibleTokenError,
    >)
        requires
            old(nft).wf(),
        ensures
            final(nft).wf(),
            r matches Err(e) ==> Some(e) == nft_update_error(old(nft), Some(from), Some(to), token_id)
                && *final(nft) == *old(nft),
            r is Ok <==> nft_update_error(old(nft), Some(from), Some(to), token_id) is None,
            r is Ok ==> nft_moved(old(nft), final(nft), Some(from), Some(to), token_id),
    {
        Self::update(nft, Some(from), Some(to), token_id)
    }

    /// `spender` moves `token_id` from `from` to `to`; it must be `from` or
    /// approved for the token (`InsufficientApproval` otherwise), and then
    /// as [`Self::transfer`].
    pub fn transfer_from(
        nft: &mut NonFungibleStorage,
        spender: u64,
        from: u64,
        to: u64,
        token_id: u32,
        current_ledger: u32,
    ) -> (r: Result<(), NonFungibleTokenError>)
        requires
            old(nft).wf(),
        ensures
            final(nft).wf(),
            !may_spend(old(nft), spender, from, token_id, current_ledger) ==> r == Err::<(), NonFungibleTokenError>(
                NonFungibleTokenError::InsufficientApproval,
            ) && *final(nft) == *old(nft),
            may_spend(old(nft), spender, from, token_id, current_ledger) ==> {
                &&& r matches Err(e) ==> Some(e) == nft_update_error(old(nft), Some(from), Some(to), token_id)
                    && *final(nft) == *old(nft)
                &&& r is Ok <==> nft_update_error(old(nft), Some(from), Some(to), token_id) is None
                &&& r is Ok ==> nft_moved(old(nft), final(nft), Some(from), Some(to), token_id)
            },
    {
        Self::check_spender_approval(nft, spender, from, token_id, current_ledger)?;
        Self::update(nft, Some(from), Some(to), token_id)
    }

    fn check_spender_approval(
        nft: &NonFungibleStorage,
        spender: u64,
        owner: u64,
        token_id: u32,
        current_ledger: u32,
    ) -> (r: Result<(), NonFungibleTokenError>)
        ensures
            r is Ok <==> may_spend(nft, spender, owner, token_id, current_ledger),
            r is Err ==> r == Err::<(), NonFungibleTokenError>(NonFungibleTokenError::InsufficientApproval),
    {
        if spender == owner {
            return Ok(());
        }
        match Self::get_approved(nft, token_id, current_ledger) {
            Some(a) => if a == spender {
                Ok(())
            } else {
                Err(NonFungibleTokenError::InsufficientApproval)
            },
            None => Err(NonFungibleTokenError::InsufficientApproval),
        }
    }

    /// Creates `token_id` for `to`.
    ///
    /// Fails, with nothing changed, with `TokenAlreadyMinted` when the token
    /// exists and `MathOverflow` when `to`'s count would not fit.
    pub fn mint(nft: &mut NonFungibleStorage, to: u64, token_id: u32) -> (r: Result<(), NonFungibleTokenError>)
        requires
            old(nft).wf(),
        ensures
            final(nft).wf(),
            r matches Err(e) ==> Some(e) == nft_update_error(old(nft), None, Some(to), token_id) && *final(nft) == *old(nft),
            r is Ok <==> nft_update_error(old(nft), None, Some(to), token_id) is None,
            r is Ok ==> nft_moved(old(nft), final(nft), None, Some(to), token_id),
    {
        Self::update(nft, None, Some(to), token_id)
    }

    /// Creates the token with the next sequential id for `to` and returns
    /// that id; the next id moves up by one.
    ///
    /// Fails, with nothing changed, with `TokenIDsAreDepleted` when no id is
    /// left, and as [`Self::mint`] does.
    pub fn sequential_mint(nft: &mut NonFungibleStorage, to: u64) -> (r: Result<u32, NonFungibleTokenError>)
        requires
            old(nft).wf(),
        ensures
            final(nft).wf(),
            old(nft).next_id() >= u32::MAX ==> r == Err::<u32, NonFungibleTokenError>(
                NonFungibleTokenError::TokenIDsAreDepleted,
            ) && *final(nft) == *old(nft),
            old(nft).next_id() < u32::MAX ==> {
                let id = old(nft).next_id();
                &&& r matches Err(e) ==> Some(e) == nft_update_error(old(nft), None, Some(to), id) && *final(nft) == *old(nft)
                &&& r is Ok <==> nft_update_error(old(nft), None, Some(to), id) is None
                &&& r is Ok ==> {
                    &&& r == Ok::<u32, NonFungibleTokenError>(id)
                    &&& final(nft).owner_view(id) == Some(to)
                    &&& forall|t: u32| t != id ==> #[trigger] final(nft).owner_view(t) == old(nft).owner_view(t)
                    &&& forall|a: u64| #[trigger]
                        final(nft).balance_of(a) == old(nft).balance_of(a) + (if to == a {
                            1int
                        } else {
                            0int
                        })
                    &&& final(nft).next_id() == old(nft).next_id() + 1
                    &&& final(nft).token_count() == old(nft).token_count() + 1
                }
            },
    {
        let id = nft.next_token_id;
        if id == u32::MAX {
            return Err(NonFungibleTokenError::TokenIDsAreDepleted);
        }
        Self::update(nft, None, Some(to), id)?;
        nft.set_next_id(id + 1);
        Ok(id)
    }

    /// Destroys `token_id`, owned by `from`.
    ///
    /// Fails, with nothing changed, with `NonExistentToken` and
    /// `IncorrectOwner` when `from` does not own it.
    pub fn burn(nft: &mut NonFungibleStorage, from: u64, token_id: u32) -> (r: Result<(), NonFungibleTokenError>)
        requires
            old(nft).wf(),
        ensures
            final(nft).wf(),
            r matches Err(e) ==> Some(e) == nft_update_error(old(nft), Some(from), None, token_id) && *final(nft) == *old(nft),
            r is Ok <==> nft_update_error(old(nft), Some(from), None, token_id) is None,
            r is Ok ==> nft_moved(old(nft), final(nft), Some(from), None, token_id),
    {
        Self::update(nft, Some(from), None, token_id)
    }

    /// `spender` destroys `token_id` of `from`; it must be `from` or
    /// approved for the token (`InsufficientApproval` otherwise), and then
    /// as [`Self::burn`].
    pub fn burn_from(
        nft: &mut NonFungibleStorage,
        spender: u64,
        from: u64,
        token_id: u32,
        current_ledger: u32,
    ) -> (r: Result<(), NonFungibleTokenError>)
        requires
            old(nft).wf(),
        ensures
            final(nft).wf(),
            !may_spend(old(nft), spender, from, token_id, current_ledger) ==> r == Err::<(), NonFungibleTokenError>(
                NonFungibleTokenError::InsufficientApproval,
            ) && *final(nft) == *old(nft),
            may_spend(old(nft), spender, from, token_id, current_ledger) ==> {
                &&& r matches Err(e) ==> Some(e) == nft_update_error(old(nft), Some(from), None, token_id)
                    && *final(nft) == *old(nft)
                &&& r is Ok <==> nft_update_error(old(nft), Some(from), None, token_id) is None
                &&& r is Ok ==> nft_moved(old(nft), final(nft), Some(from), None, token_id)
            },
    {
        Self::check_spender_approval(nft, spender, from, token_id, current_ledger)?;
        Self::update(nft, Some(from), None, token_id)
    }
}

} // verus!
