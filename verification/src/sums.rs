//! Sums of the values of a finite map from account ids to amounts, and how a
//! single-entry update changes them.
use vstd::prelude::*;

verus! {

/// The sum of `m[k]` over the keys `k` in `s`.
pub open spec fn sum_over(s: Set<u64>, m: Map<u64, i128>) -> int
    decreases s.len(),
{
    if s.finite() && s.len() > 0 {
        let k = s.choose();
        m[k] as int + sum_over(s.remove(k), m)
    } else {
        0
    }
}

/// The sum of all values of a map.
pub open spec fn sum_of(m: Map<u64, i128>) -> int {
    sum_over(m.dom(), m)
}

/// A value read from a map, `0` where the key is absent.
pub open spec fn value_or_zero(m: Map<u64, i128>, k: u64) -> int {
    if m.contains_key(k) {
        m[k] as int
    } else {
        0
    }
}

pub open spec fn all_non_negative(m: Map<u64, i128>) -> bool {
    forall|k: u64| m.contains_key(k) ==> m[k] >= 0
}

/// Taking any element out of the sum first gives the same total.
pub proof fn lemma_sum_remove(s: Set<u64>, m: Map<u64, i128>, a: u64)
    requires
        s.finite(),
        s.contains(a),
    ensures
        sum_over(s, m) == m[a] as int + sum_over(s.remove(a), m),
    decreases s.len(),
{
    let k = s.choose();
    if k != a {
        lemma_sum_remove(s.remove(k), m, a);
        lemma_sum_remove(s.remove(a), m, k);
        assert(s.remove(k).remove(a) =~= s.remove(a).remove(k));
    }
}

/// The sum over `s` only depends on the values at keys in `s`.
pub proof fn lemma_sum_frame(s: Set<u64>, m1: Map<u64, i128>, m2: Map<u64, i128>)
    requires
        s.finite(),
        forall|k: u64| s.contains(k) ==> m1[k] == m2[k],
    ensures
        sum_over(s, m1) == sum_over(s, m2),
    decreases s.len(),
{
    if s.len() > 0 {
        let k = s.choose();
        lemma_sum_frame(s.remove(k), m1, m2);
    }
}

/// Writing one entry changes the sum by the difference of the two values.
pub proof fn lemma_sum_insert(m: Map<u64, i128>, a: u64, v: i128)
    requires
        m.dom().finite(),
    ensures
        sum_of(m.insert(a, v)) == sum_of(m) - value_or_zero(m, a) + v,
{
    let m2 = m.insert(a, v);
    let s = m.dom().remove(a);
    assert(m2.dom().remove(a) =~= s);
    lemma_sum_remove(m2.dom(), m2, a);
    lemma_sum_frame(s, m2, m);
    if m.contains_key(a) {
        lemma_sum_remove(m.dom(), m, a);
    } else {
        assert(m.dom() =~= s);
    }
}

/// With no negative value, the sum is at least any single value.
pub proof fn lemma_sum_bounds_value(s: Set<u64>, m: Map<u64, i128>, a: u64)
    requires
        s.finite(),
        forall|k: u64| s.contains(k) ==> m[k] >= 0,
    ensures
        sum_over(s, m) >= 0,
        s.contains(a) ==> sum_over(s, m) >= m[a],
    decreases s.len(),
{
    if s.len() > 0 {
        let k = s.choose();
        lemma_sum_bounds_value(s.remove(k), m, a);
        if s.contains(a) {
            lemma_sum_remove(s, m, a);
            lemma_sum_bounds_value(s.remove(a), m, a);
        }
    }
}

/// The sum of an empty map is zero.
pub proof fn lemma_sum_empty()
    ensures
        sum_of(Map::<u64, i128>::empty()) == 0,
{
    assert(Map::<u64, i128>::empty().dom() =~= Set::<u64>::empty());
}

/// Two distinct entries of a non-negative map fit under its sum together.
pub proof fn lemma_sum_bounds_two(m: Map<u64, i128>, a: u64, b: u64)
    requires
        m.dom().finite(),
        all_non_negative(m),
    ensures
        a != b ==> value_or_zero(m, a) + value_or_zero(m, b) <= sum_of(m),
        value_or_zero(m, a) <= sum_of(m),
        0 <= value_or_zero(m, a),
{
    let s = m.dom();
    lemma_sum_bounds_value(s, m, a);
    if m.contains_key(a) {
        lemma_sum_remove(s, m, a);
        lemma_sum_bounds_value(s.remove(a), m, b);
        lemma_sum_bounds_value(s.remove(a), m, a);
    } else {
        lemma_sum_bounds_value(s, m, b);
    }
}

/// The sum of `f(k)` over the keys `k` in `s`.
pub open spec fn sum_fn<A>(s: Set<A>, f: spec_fn(A) -> int) -> int
    decreases s.len(),
{
    if s.finite() && s.len() > 0 {
        let k = s.choose();
        f(k) + sum_fn(s.remove(k), f)
    } else {
        0
    }
}

/// Taking any element out of a weighted sum first gives the same total.
pub proof fn lemma_sum_fn_remove<A>(s: Set<A>, f: spec_fn(A) -> int, a: A)
    requires
        s.finite(),
        s.contains(a),
    ensures
        sum_fn(s, f) == f(a) + sum_fn(s.remove(a), f),
    decreases s.len(),
{
    let k = s.choose();
    if k != a {
        lemma_sum_fn_remove::<A>(s.remove(k), f, a);
        lemma_sum_fn_remove(s.remove(a), f, k);
        assert(s.remove(k).remove(a) =~= s.remove(a).remove(k));
    }
}

/// A weighted sum over `s` only depends on the weights of keys in `s`.
pub proof fn lemma_sum_fn_frame<A>(s: Set<A>, f: spec_fn(A) -> int, g: spec_fn(A) -> int)
    requires
        s.finite(),
        forall|k: A| s.contains(k) ==> f(k) == g(k),
    ensures
        sum_fn(s, f) == sum_fn(s, g),
    decreases s.len(),
{
    if s.len() > 0 {
        let k = s.choose();
        lemma_sum_fn_frame(s.remove(k), f, g);
    }
}

/// Changing the weight of one key (and adding the key when absent) changes
/// the sum by the difference of the two weights.
pub proof fn lemma_sum_fn_update<A>(s: Set<A>, f: spec_fn(A) -> int, g: spec_fn(A) -> int, a: A)
    requires
        s.finite(),
        forall|k: A| k != a ==> #[trigger] f(k) == g(k),
    ensures
        sum_fn(s.insert(a), g) == sum_fn(s, f) - (if s.contains(a) {
            f(a)
        } else {
            0
        }) + g(a),
{
    let s2 = s.insert(a);
    lemma_sum_fn_remove(s2, g, a);
    assert(s2.remove(a) =~= s.remove(a));
    lemma_sum_fn_frame(s.remove(a), g, f);
    if s.contains(a) {
        lemma_sum_fn_remove(s, f, a);
    } else {
        assert(s.remove(a) =~= s);
    }
}

/// Pointwise smaller weights give a smaller sum.
pub proof fn lemma_sum_fn_le<A>(s: Set<A>, f: spec_fn(A) -> int, g: spec_fn(A) -> int)
    requires
        s.finite(),
        forall|k: A| s.contains(k) ==> f(k) <= g(k),
    ensures
        sum_fn(s, f) <= sum_fn(s, g),
    decreases s.len(),
{
    if s.len() > 0 {
        let k = s.choose();
        lemma_sum_fn_le(s.remove(k), f, g);
    }
}

/// With no negative weight, the sum is at least any single weight.
pub proof fn lemma_sum_fn_bounds<A>(s: Set<A>, f: spec_fn(A) -> int, a: A)
    requires
        s.finite(),
        forall|k: A| s.contains(k) ==> f(k) >= 0,
    ensures
        sum_fn(s, f) >= 0,
        s.contains(a) ==> sum_fn(s, f) >= f(a),
    decreases s.len(),
{
    if s.len() > 0 {
        let k = s.choose();
        lemma_sum_fn_bounds(s.remove(k), f, a);
        if s.contains(a) {
            lemma_sum_fn_remove(s, f, a);
            lemma_sum_fn_bounds(s.remove(a), f, a);
        }
    }
}

} // verus!
