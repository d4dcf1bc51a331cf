//! The tokens a compliance or identity contract is bound to: an ordered list
//! with no token twice, at most [`MAX_TOKENS`] long, from which a token is
//! removed by moving the last one into its place.
use vstd::prelude::*;

use crate::seqs::vec_contains_u64;

verus! {

/// Errors of the token binder.
#[derive(Clone, Copy, Debug, PartialEq, Eq)]
pub enum TokenBinderError {
    TokenNotFound,
    TokenAlreadyBound,
    MaxTokensReached,
    BindBatchTooLarge,
    BindBatchDuplicates,
}

/// One ledger day.
pub const DAY_IN_LEDGERS: u32 = 17280;

/// How far a binder entry's lifetime is extended when it is read.
pub const TOKEN_BINDER_EXTEND_AMOUNT: u32 = 518400;

/// The remaining lifetime under which a read extends an entry.
pub const TOKEN_BINDER_TTL_THRESHOLD: u32 = 501120;

/// How many tokens one storage bucket holds.
pub const BUCKET_SIZE: u32 = 100;

/// How many buckets there may be.
pub const MAX_BUCKETS: u32 = 100;

/// How many tokens may be bound.
pub const MAX_TOKENS: u32 = 10000;

/// The bound tokens, in order.
pub struct TokenBinderStorage {
    tokens: Vec<u64>,
}

impl TokenBinderStorage {
    /// The bound tokens, in order.
    pub closed spec fn tokens_view(&self) -> Seq<u64> {
        self.tokens@
    }

    /// No token twice, and no more than the maximum.
    pub open spec fn wf(&self) -> bool {
        &&& self.tokens_view().no_duplicates()
        &&& self.tokens_view().len() <= MAX_TOKENS
    }

    /// No token bound.
    pub fn new() -> (b: Self)
        ensures
            b.wf(),
            b.tokens_view() == Seq::<u64>::empty(),
    {
        TokenBinderStorage { tokens: Vec::new() }
    }
}

/// The error that binding `batch` gives, if any, in the order checked: too
/// many at once, a token twice in the batch, a token already bound, or
/// more tokens than allowed.
pub open spec fn batch_error(b: &TokenBinderStorage, batch: Seq<u64>) -> Option<TokenBinderError> {
    if batch.len() > 2 * BUCKET_SIZE {
        Some(TokenBinderError::BindBatchTooLarge)
    } else if !batch.no_duplicates() {
        Some(TokenBinderError::BindBatchDuplicates)
    } else if exists|i: int| 0 <= i < batch.len() && b.tokens_view().contains(#[trigger] batch[i]) {
        Some(TokenBinderError::TokenAlreadyBound)
    } else if b.tokens_view().len() + batch.len() > MAX_TOKENS {
        Some(TokenBinderError::MaxTokensReached)
    } else {
        None
    }
}

fn has_duplicates(v: &Vec<u64>) -> (r: bool)
    ensures
        r == !v@.no_duplicates(),
{
    let n = v.len();
    let mut i: usize = 0;
    while i < n
        invariant
            n == v@.len(),
            i <= n,
            forall|a: int, c: int| 0 <= a < i && 0 <= c < n && a != c ==> v@[a] != v@[c],
        decreases n - i,
    {
        let mut j: usize = 0;
        while j < n
            invariant
                n == v@.len(),
                i < n,
                j <= n,
                forall|a: int, c: int| 0 <= a < i && 0 <= c < n && a != c ==> v@[a] != v@[c],
                forall|c: int| 0 <= c < j && c != i ==> v@[i as int] != v@[c],
            decreases n - j,
        {
            if j != i && v[i] == v[j] {
                return true;
            }
            j = j + 1;
        }
        i = i + 1;
    }
    false
}

/// Whether `token` is bound.
pub fn is_token_bound(b: &TokenBinderStorage, token: u64) -> (r: bool)
    ensures
        r == b.tokens_view().contains(token),
{
    vec_contains_u64(&b.tokens, token)
}

/// How many tokens are bound.
pub fn linked_token_count(b: &TokenBinderStorage) -> (r: u32)
    requires
        b.wf(),
    ensures
        r == b.tokens_view().len(),
{
    b.tokens.len() as u32
}

/// The bound tokens, in order.
pub fn linked_tokens(b: &TokenBinderStorage) -> (r: Vec<u64>)
    ensures
        r@ == b.tokens_view(),
{
    crate::seqs::copy_u64s(&b.tokens)
}

/// The token at `index`; `TokenNotFound` past the end.
pub fn get_token_by_index(b: &TokenBinderStorage, index: u32) -> (r: Result<u64, TokenBinderError>)
    ensures
        index < b.tokens_view().len() ==> r == Ok::<u64, TokenBinderError>(b.tokens_view()[index as int]),
        index >= b.tokens_view().len() ==> r == Err::<u64, TokenBinderError>(TokenBinderError::TokenNotFound),
{
    if (index as usize) < b.tokens.len() {
        Ok(b.tokens[index as usize])
    } else {
        Err(TokenBinderError::TokenNotFound)
    }
}

/// Where `token` stands; `TokenNotFound` when it is not bound.
pub fn get_token_index(b: &TokenBinderStorage, token: u64) -> (r: Result<u32, TokenBinderError>)
    requires
        b.wf(),
    ensures
        !b.tokens_view().contains(token) ==> r == Err::<u32, TokenBinderError>(TokenBinderError::TokenNotFound),
        b.tokens_view().contains(token) ==> r is Ok && r->Ok_0 < b.tokens_view().len()
            && b.tokens_view()[r->Ok_0 as int] == token,
{
    let mut i: usize = 0;
    while i < b.tokens.len()
        invariant
            i <= b.tokens@.len() <= MAX_TOKENS,
            forall|j: int| 0 <= j < i ==> b.tokens@[j] != token,
        decreases b.tokens.len() - i,
    {
        if b.tokens[i] == token {
            return Ok(i as u32);
        }
        i = i + 1;
    }
    Err(TokenBinderError::TokenNotFound)
}

/// Binds `token` at the end of the list.
///
/// Fails, with nothing changed, with `TokenAlreadyBound` and with
/// `MaxTokensReached` when the list is full.
pub fn bind_token(b: &mut TokenBinderStorage, token: u64) -> (r: Result<(), TokenBinderError>)
    requires
        old(b).wf(),
    ensures
        final(b).wf(),
        old(b).tokens_view().contains(token) ==> r == Err::<(), TokenBinderError>(
            TokenBinderError::TokenAlreadyBound,
        ) && *final(b) == *old(b),
        !old(b).tokens_view().contains(token) && old(b).tokens_view().len() >= MAX_TOKENS ==> r == Err::<
            (),
            TokenBinderError,
        >(TokenBinderError::MaxTokensReached) && *final(b) == *old(b),
        !old(b).tokens_view().contains(token) && old(b).tokens_view().len() < MAX_TOKENS ==> r is Ok
            && final(b).tokens_view() == old(b).tokens_view().push(token),
{
    if is_token_bound(b, token) {
        return Err(TokenBinderError::TokenAlreadyBound);
    }
    if b.tokens.len() >= MAX_TOKENS as usize {
        return Err(TokenBinderError::MaxTokensReached);
    }
    b.tokens.push(token);
    proof {
        let s = b.tokens@;
        assert forall|i: int, j: int| 0 <= i < s.len() && 0 <= j < s.len() && i != j implies s[i] != s[j] by {
            if i == s.len() - 1 {
                assert(old(b).tokens@[j] == s[j]);
            } else if j == s.len() - 1 {
                assert(old(b).tokens@[i] == s[i]);
            }
        }
    }
    Ok(())
}

/// Binds every token of `batch` at the end of the list, in order, as one
/// change; on any error (see [`batch_error`]) nothing is bound.
pub fn bind_tokens(b: &mut TokenBinderStorage, batch: &Vec<u64>) -> (r: Result<(), TokenBinderError>)
    requires
        old(b).wf(),
    ensures
        final(b).wf(),
        match batch_error(old(b), batch@) {
            Some(e) => r == Err::<(), TokenBinderError>(e) && *final(b) == *old(b),
            None => r is Ok && final(b).tokens_view() == old(b).tokens_view() + batch@,
        },
{
    if batch.len() > 2 * BUCKET_SIZE as usize {
        return Err(TokenBinderError::BindBatchTooLarge);
    }
    if has_duplicates(batch) {
        return Err(TokenBinderError::BindBatchDuplicates);
    }
    let mut i: usize = 0;
    while i < batch.len()
        invariant
            i <= batch@.len(),
            batch@.len() <= 2 * BUCKET_SIZE,
            batch@.no_duplicates(),
            b.wf(),
            *b == *old(b),
            forall|j: int| 0 <= j < i ==> !b.tokens_view().contains(#[trigger] batch@[j]),
        decreases batch.len() - i,
    {
        if is_token_bound(b, batch[i]) {
            return Err(TokenBinderError::TokenAlreadyBound);
        }
        i = i + 1;
    }
    if b.tokens.len() + batch.len() > MAX_TOKENS as usize {
        return Err(TokenBinderError::MaxTokensReached);
    }
    let ghost start = b.tokens@;
    let mut k: usize = 0;
    while k < batch.len()
        invariant
            k <= batch@.len(),
            b.tokens@ == start + batch@.take(k as int),
            start.no_duplicates(),
            batch@.no_duplicates(),
            forall|j: int| 0 <= j < batch@.len() ==> !start.contains(#[trigger] batch@[j]),
        decreases batch.len() - k,
    {
        b.tokens.push(batch[k]);
        proof {
            assert(batch@.take(k + 1) =~= batch@.take(k as int).push(batch@[k as int]));
            assert(b.tokens@ =~= start + batch@.take(k + 1));
        }
        k = k + 1;
    }
    proof {
        assert(batch@.take(batch@.len() as int) =~= batch@);
        let s = b.tokens@;
        assert forall|i: int, j: int| 0 <= i < s.len() && 0 <= j < s.len() && i != j implies s[i] != s[j] by {
            let n = start.len() as int;
            if i < n && j >= n {
                assert(s[j] == batch@[j - n]);
                assert(s[i] == start[i]);
            } else if i >= n && j < n {
                assert(s[i] == batch@[i - n]);
                assert(s[j] == start[j]);
            }
        }
    }
    Ok(())
}

/// Unbinds `token`: the last token takes its place.
///
/// Fails, with nothing changed, with `TokenNotFound` when it is not bound.
pub fn unbind_token(b: &mut TokenBinderStorage, token: u64) -> (r: Result<(), TokenBinderError>)
    requires
        old(b).wf(),
    ensures
        final(b).wf(),
        !old(b).tokens_view().contains(token) ==> r == Err::<(), TokenBinderError>(TokenBinderError::TokenNotFound)
            && *final(b) == *old(b),
        old(b).tokens_view().contains(token) ==> r is Ok && exists|i: int|
            0 <= i < old(b).tokens_view().len() && old(b).tokens_view()[i] == token && final(b).tokens_view()
                == old(b).tokens_view().update(i, old(b).tokens_view().last()).drop_last(),
        r is Ok ==> !final(b).tokens_view().contains(token) && forall|t: u64|
            t != token ==> (#[trigger] final(b).tokens_view().contains(t) == old(b).tokens_view().contains(t)),
{
    let i = match get_token_index(b, token) {
        Ok(i) => i as usize,
        Err(e) => {
            return Err(e);
        },
    };
    let ghost before = b.tokens@;
    let last = b.tokens.len() - 1;
    if i != last {
        let moved = b.tokens.pop().unwrap();
        b.tokens.set(i, moved);
    } else {
        b.tokens.pop();
    }
    proof {
        let after = b.tokens@;
        assert(after =~= before.update(i as int, before.last()).drop_last());
        assert forall|x: int, y: int| 0 <= x < after.len() && 0 <= y < after.len() && x != y implies after[x]
            != after[y] by {
            let px = if x == i { last as int } else { x };
            let py = if y == i { last as int } else { y };
            assert(after[x] == before[px]);
            assert(after[y] == before[py]);
        }
        if after.contains(token) {
            let q = choose|q: int| 0 <= q < after.len() && after[q] == token;
            let pq = if q == i { last as int } else { q };
            assert(before[pq] == token);
        }
        assert forall|t: u64| t != token implies #[trigger] after.contains(t) == before.contains(t) by {
            if before.contains(t) {
                let p = choose|p: int| 0 <= p < before.len() && before[p] == t;
                let q = if p == last as int { i as int } else { p };
                assert(after[q] == t);
            }
            if after.contains(t) {
                let q = choose|q: int| 0 <= q < after.len() && after[q] == t;
                let pq = if q == i { last as int } else { q };
                assert(before[pq] == t);
            }
        }
    }
    Ok(())
}

} // verus!
