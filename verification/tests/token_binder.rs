use stellar_tokens::token_binder::{
    bind_token, bind_tokens, get_token_by_index, get_token_index, is_token_bound, linked_token_count,
    linked_tokens, unbind_token, TokenBinderError, TokenBinderStorage, BUCKET_SIZE, MAX_TOKENS,
};

/// Fresh token ids, distinct within one test.
struct Ids(u64);

impl Ids {
    fn next(&mut self) -> u64 {
        self.0 += 1;
        self.0
    }
}

#[test]
fn linked_token_count_empty() {
    let b = TokenBinderStorage::new();
    assert_eq!(linked_token_count(&b), 0);
}

#[test]
fn bind_token_max_tokens_reached() {
    let mut b = TokenBinderStorage::new();
    let mut ids = Ids(0);
    for _ in 0..MAX_TOKENS {
        bind_token(&mut b, ids.next()).unwrap();
    }
    assert_eq!(bind_token(&mut b, ids.next()), Err(TokenBinderError::MaxTokensReached));
    assert_eq!(linked_token_count(&b), MAX_TOKENS);
}

#[test]
fn bind_tokens_fits_current_bucket() {
    let mut b = TokenBinderStorage::new();
    let batch: Vec<u64> = (1..=10).collect();
    bind_tokens(&mut b, &batch).unwrap();
    assert_eq!(linked_token_count(&b), 10);
    for i in 0..10u32 {
        assert_eq!(get_token_by_index(&b, i), Ok(batch[i as usize]));
    }
    assert_eq!(linked_tokens(&b).len(), 10);
}

#[test]
fn bind_tokens_splits_across_two_buckets() {
    let mut b = TokenBinderStorage::new();
    let mut ids = Ids(0);
    for _ in 0..95u32 {
        bind_token(&mut b, ids.next()).unwrap();
    }
    assert_eq!(linked_token_count(&b), 95);
    let batch: Vec<u64> = (0..10).map(|_| ids.next()).collect();
    bind_tokens(&mut b, &batch).unwrap();
    assert_eq!(linked_token_count(&b), 105);
    for i in 0..10u32 {
        assert_eq!(get_token_by_index(&b, 95 + i), Ok(batch[i as usize]));
    }
    let all = linked_tokens(&b);
    assert_eq!(all.len(), 105);
    for i in 0..10usize {
        assert_eq!(all[95 + i], batch[i]);
    }
}

#[test]
fn bind_tokens_duplicates_should_panic() {
    let mut b = TokenBinderStorage::new();
    assert_eq!(bind_tokens(&mut b, &vec![1, 2, 1]), Err(TokenBinderError::BindBatchDuplicates));
    assert_eq!(linked_token_count(&b), 0);
}

#[test]
fn bind_single_token() {
    let mut b = TokenBinderStorage::new();
    bind_token(&mut b, 7).unwrap();
    assert_eq!(linked_token_count(&b), 1);
    assert!(is_token_bound(&b, 7));
    assert_eq!(get_token_by_index(&b, 0), Ok(7));
    assert_eq!(get_token_index(&b, 7), Ok(0));
}

#[test]
fn bind_multiple_tokens() {
    let mut b = TokenBinderStorage::new();
    bind_token(&mut b, 1).unwrap();
    bind_token(&mut b, 2).unwrap();
    bind_token(&mut b, 3).unwrap();
    assert_eq!(linked_token_count(&b), 3);
    assert!(is_token_bound(&b, 1));
    assert!(is_token_bound(&b, 2));
    assert!(is_token_bound(&b, 3));
    assert_eq!(get_token_by_index(&b, 0), Ok(1));
    assert_eq!(get_token_by_index(&b, 1), Ok(2));
    assert_eq!(get_token_by_index(&b, 2), Ok(3));
    assert_eq!(get_token_index(&b, 1), Ok(0));
    assert_eq!(get_token_index(&b, 2), Ok(1));
    assert_eq!(get_token_index(&b, 3), Ok(2));
}

#[test]
fn bind_duplicate_token() {
    let mut b = TokenBinderStorage::new();
    bind_token(&mut b, 7).unwrap();
    assert_eq!(bind_token(&mut b, 7), Err(TokenBinderError::TokenAlreadyBound));
}

#[test]
fn unbind_single_token() {
    let mut b = TokenBinderStorage::new();
    bind_token(&mut b, 7).unwrap();
    assert_eq!(linked_token_count(&b), 1);
    unbind_token(&mut b, 7).unwrap();
    assert_eq!(linked_token_count(&b), 0);
    assert!(!is_token_bound(&b, 7));
}

#[test]
fn unbind_middle_token_swap_remove() {
    let mut b = TokenBinderStorage::new();
    bind_token(&mut b, 1).unwrap();
    bind_token(&mut b, 2).unwrap();
    bind_token(&mut b, 3).unwrap();
    unbind_token(&mut b, 2).unwrap();
    assert_eq!(linked_token_count(&b), 2);
    assert!(is_token_bound(&b, 1));
    assert!(!is_token_bound(&b, 2));
    assert!(is_token_bound(&b, 3));
    assert_eq!(get_token_by_index(&b, 0), Ok(1));
    assert_eq!(get_token_by_index(&b, 1), Ok(3));
    assert_eq!(get_token_index(&b, 1), Ok(0));
    assert_eq!(get_token_index(&b, 3), Ok(1));
}

#[test]
fn unbind_last_token() {
    let mut b = TokenBinderStorage::new();
    bind_token(&mut b, 1).unwrap();
    bind_token(&mut b, 2).unwrap();
    bind_token(&mut b, 3).unwrap();
    unbind_token(&mut b, 3).unwrap();
    assert_eq!(linked_token_count(&b), 2);
    assert!(is_token_bound(&b, 1));
    assert!(is_token_bound(&b, 2));
    assert!(!is_token_bound(&b, 3));
    assert_eq!(get_token_by_index(&b, 0), Ok(1));
    assert_eq!(get_token_by_index(&b, 1), Ok(2));
}

#[test]
fn unbind_nonexistent_token() {
    let mut b = TokenBinderStorage::new();
    assert_eq!(unbind_token(&mut b, 7), Err(TokenBinderError::TokenNotFound));
}

#[test]
fn get_token_by_invalid_index() {
    let b = TokenBinderStorage::new();
    assert_eq!(get_token_by_index(&b, 0), Err(TokenBinderError::TokenNotFound));
}

#[test]
fn get_token_index_nonexistent() {
    let b = TokenBinderStorage::new();
    assert_eq!(get_token_index(&b, 7), Err(TokenBinderError::TokenNotFound));
}

#[test]
fn is_token_bound_false() {
    let b = TokenBinderStorage::new();
    assert!(!is_token_bound(&b, 7));
}

#[test]
fn linked_tokens_empty() {
    let b = TokenBinderStorage::new();
    assert_eq!(linked_tokens(&b).len(), 0);
}

#[test]
fn linked_tokens_multiple() {
    let mut b = TokenBinderStorage::new();
    bind_token(&mut b, 1).unwrap();
    bind_token(&mut b, 2).unwrap();
    bind_token(&mut b, 3).unwrap();
    assert_eq!(linked_tokens(&b), vec![1, 2, 3]);
}

#[test]
fn complex_bind_unbind_sequence() {
    let mut b = TokenBinderStorage::new();
    bind_token(&mut b, 1).unwrap();
    bind_token(&mut b, 2).unwrap();
    bind_token(&mut b, 3).unwrap();
    assert_eq!(linked_token_count(&b), 3);
    unbind_token(&mut b, 2).unwrap();
    assert_eq!(linked_token_count(&b), 2);
    assert_eq!(get_token_by_index(&b, 0), Ok(1));
    assert_eq!(get_token_by_index(&b, 1), Ok(3));
    bind_token(&mut b, 4).unwrap();
    assert_eq!(linked_token_count(&b), 3);
    assert_eq!(get_token_by_index(&b, 2), Ok(4));
    unbind_token(&mut b, 1).unwrap();
    assert_eq!(linked_token_count(&b), 2);
    assert_eq!(get_token_by_index(&b, 0), Ok(4));
    assert_eq!(get_token_by_index(&b, 1), Ok(3));
}

#[test]
fn bind_unbind_all_tokens() {
    let mut b = TokenBinderStorage::new();
    bind_token(&mut b, 1).unwrap();
    bind_token(&mut b, 2).unwrap();
    bind_token(&mut b, 3).unwrap();
    assert_eq!(linked_token_count(&b), 3);
    unbind_token(&mut b, 1).unwrap();
    unbind_token(&mut b, 2).unwrap();
    unbind_token(&mut b, 3).unwrap();
    assert_eq!(linked_token_count(&b), 0);
    assert!(!is_token_bound(&b, 1));
    assert!(!is_token_bound(&b, 2));
    assert!(!is_token_bound(&b, 3));
}

#[test]
fn rebind_after_unbind() {
    let mut b = TokenBinderStorage::new();
    bind_token(&mut b, 7).unwrap();
    assert!(is_token_bound(&b, 7));
    assert_eq!(get_token_index(&b, 7), Ok(0));
    unbind_token(&mut b, 7).unwrap();
    assert!(!is_token_bound(&b, 7));
    bind_token(&mut b, 7).unwrap();
    assert!(is_token_bound(&b, 7));
    assert_eq!(get_token_index(&b, 7), Ok(0));
    assert_eq!(linked_token_count(&b), 1);
}

#[test]
fn bind_tokens_spill_across_three_buckets() {
    let mut b = TokenBinderStorage::new();
    let mut ids = Ids(0);
    for _ in 0..50u32 {
        bind_token(&mut b, ids.next()).unwrap();
    }
    assert_eq!(linked_token_count(&b), 50);
    let batch: Vec<u64> = (0..200).map(|_| ids.next()).collect();
    bind_tokens(&mut b, &batch).unwrap();
    assert_eq!(linked_token_count(&b), 250);
    for i in 0..50u32 {
        assert_eq!(get_token_by_index(&b, 50 + i), Ok(batch[i as usize]));
    }
    for i in 0..100u32 {
        assert_eq!(get_token_by_index(&b, 100 + i), Ok(batch[50 + i as usize]));
    }
    for i in 0..50u32 {
        assert_eq!(get_token_by_index(&b, 200 + i), Ok(batch[150 + i as usize]));
    }
}

#[test]
fn bind_tokens_batch_too_large_should_panic() {
    let mut b = TokenBinderStorage::new();
    let batch: Vec<u64> = (1..=(BUCKET_SIZE as u64 * 2 + 1)).collect();
    assert_eq!(bind_tokens(&mut b, &batch), Err(TokenBinderError::BindBatchTooLarge));
    assert_eq!(linked_token_count(&b), 0);
}

#[test]
fn bind_tokens_already_bound_in_storage_should_panic() {
    let mut b = TokenBinderStorage::new();
    bind_token(&mut b, 7).unwrap();
    assert_eq!(bind_tokens(&mut b, &vec![8, 7, 9]), Err(TokenBinderError::TokenAlreadyBound));
    assert_eq!(linked_tokens(&b), vec![7]);
}

#[test]
fn unbind_makes_last_bucket_empty() {
    let mut b = TokenBinderStorage::new();
    let tokens: Vec<u64> = (1..=(BUCKET_SIZE as u64 + 1)).collect();
    for t in &tokens {
        bind_token(&mut b, *t).unwrap();
    }
    assert_eq!(linked_token_count(&b), BUCKET_SIZE + 1);
    let first = tokens[0];
    let last_before = tokens[BUCKET_SIZE as usize];
    unbind_token(&mut b, first).unwrap();
    assert_eq!(linked_token_count(&b), BUCKET_SIZE);
    assert_eq!(get_token_by_index(&b, 0), Ok(last_before));
    assert_eq!(linked_tokens(&b).len(), BUCKET_SIZE as usize);
}

#[test]
fn is_token_bound_across_buckets() {
    let mut b = TokenBinderStorage::new();
    for t in 1..=(BUCKET_SIZE as u64 + 5) {
        bind_token(&mut b, t).unwrap();
    }
    let boundary = get_token_by_index(&b, BUCKET_SIZE - 1).unwrap();
    let next = get_token_by_index(&b, BUCKET_SIZE).unwrap();
    assert!(is_token_bound(&b, 1));
    assert!(is_token_bound(&b, boundary));
    assert!(is_token_bound(&b, next));
}

#[test]
fn bind_tokens_exact_bucket_boundary_start() {
    let mut b = TokenBinderStorage::new();
    let mut ids = Ids(0);
    for _ in 0..BUCKET_SIZE {
        bind_token(&mut b, ids.next()).unwrap();
    }
    assert_eq!(linked_token_count(&b), BUCKET_SIZE);
    let batch: Vec<u64> = (0..10).map(|_| ids.next()).collect();
    bind_tokens(&mut b, &batch).unwrap();
    assert_eq!(linked_token_count(&b), BUCKET_SIZE + 10);
    for i in 0..10u32 {
        assert_eq!(get_token_by_index(&b, BUCKET_SIZE + i), Ok(batch[i as usize]));
    }
}

#[test]
fn a_batch_that_would_pass_the_limit_binds_nothing() {
    let mut b = TokenBinderStorage::new();
    for t in 1..=(MAX_TOKENS as u64 - 1) {
        bind_token(&mut b, t).unwrap();
    }
    let batch = vec![MAX_TOKENS as u64 + 1, MAX_TOKENS as u64 + 2];
    assert_eq!(bind_tokens(&mut b, &batch), Err(TokenBinderError::MaxTokensReached));
    assert_eq!(linked_token_count(&b), MAX_TOKENS - 1);
}
