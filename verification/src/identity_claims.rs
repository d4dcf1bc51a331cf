//! The claims held by an identity, each under a 32-byte claim id, with an
//! index of claim ids by topic.
use std::collections::HashMap;
use vstd::prelude::*;

use crate::hash32::Hash32;

verus! {

broadcast use vstd::std_specs::hash::group_hash_axioms;

/// Errors of identity claims.
#[derive(Clone, Copy, Debug, PartialEq, Eq)]
pub enum ClaimsError {
    ClaimNotFound,
    ClaimNotValid,
}

/// Which change a claim went through.
#[derive(Clone, Copy, Debug, PartialEq, Eq)]
pub enum ClaimEvent {
    Added,
    Removed,
    Changed,
}

/// A claim about the identity, made by `issuer` on `topic`.
#[derive(Debug)]
pub struct Claim {
    pub topic: u32,
    pub scheme: u32,
    pub issuer: u64,
    pub signature: Vec<u8>,
    pub data: Vec<u8>,
    pub uri: Vec<u8>,
}

/// The claims of one identity and the claim ids listed under each topic.
pub struct IdentityClaims {
    claims: Vec<(Hash32, Claim)>,
    by_topic: HashMap<u32, Vec<Hash32>>,
}

/// The claim stored under `id`, if any.
pub open spec fn claim_in(s: Seq<(Hash32, Claim)>, id: Hash32) -> Option<Claim> {
    if exists|i: int| 0 <= i < s.len() && s[i].0 == id {
        Some(s[choose|i: int| 0 <= i < s.len() && s[i].0 == id].1)
    } else {
        None
    }
}

pub open spec fn ids_distinct(s: Seq<(Hash32, Claim)>) -> bool {
    forall|i: int, j: int| 0 <= i < s.len() && 0 <= j < s.len() && i != j ==> s[i].0 != s[j].0
}

proof fn lemma_claim_at(s: Seq<(Hash32, Claim)>, id: Hash32, i: int)
    requires
        ids_distinct(s),
        0 <= i < s.len(),
        s[i].0 == id,
    ensures
        claim_in(s, id) == Some(s[i].1),
{
    assert(exists|k: int| 0 <= k < s.len() && s[k].0 == id);
}

impl IdentityClaims {
    /// The claim under `id`, if any.
    pub closed spec fn claim(&self, id: Hash32) -> Option<Claim> {
        claim_in(self.claims@, id)
    }

    /// The claim ids listed under `topic` (empty when none).
    pub closed spec fn ids_of_topic(&self, topic: u32) -> Seq<Hash32> {
        if self.by_topic@.contains_key(topic) {
            self.by_topic@[topic]@
        } else {
            Seq::empty()
        }
    }

    /// No claim id is used twice, and no topic keeps an empty list.
    closed spec fn entries_wf(&self) -> bool {
        &&& ids_distinct(self.claims@)
        &&& forall|t: u32| #[trigger]
            self.by_topic@.contains_key(t) ==> self.by_topic@[t]@.len() > 0
    }

    /// Every id listed under a topic is that of a stored claim on that
    /// topic, and no list names an id twice.
    pub open spec fn index_wf(&self) -> bool {
        &&& forall|t: u32, id: Hash32| #[trigger]
            self.ids_of_topic(t).contains(id) ==> (self.claim(id) matches Some(c) && c.topic == t)
        &&& forall|t: u32| #[trigger] self.ids_of_topic(t).no_duplicates()
    }

    /// The entries are consistent and the topic index agrees with them.
    pub closed spec fn wf(&self) -> bool {
        &&& self.entries_wf()
        &&& self.index_wf()
    }

    /// No claims.
    pub fn new() -> (s: Self)
        ensures
            s.wf(),
            forall|id: Hash32| #[trigger] s.claim(id) is None,
            forall|t: u32| #[trigger] s.ids_of_topic(t) == Seq::<Hash32>::empty(),
    {
        IdentityClaims { claims: Vec::new(), by_topic: HashMap::new() }
    }

    fn find(&self, id: &Hash32) -> (r: Option<usize>)
        ensures
            match r {
                Some(i) => i < self.claims@.len() && self.claims@[i as int].0 == *id,
                None => forall|i: int| 0 <= i < self.claims@.len() ==> self.claims@[i].0 != *id,
            },
    {
        let mut i: usize = 0;
        while i < self.claims.len()
            invariant
                i <= self.claims.len(),
                forall|j: int| 0 <= j < i ==> self.claims@[j].0 != *id,
            decreases self.claims.len() - i,
        {
            if self.claims[i].0.same(id) {
                return Some(i);
            }
            i = i + 1;
        }
        None
    }
}

/// Lists `claim_id` last under `topic`.
fn add_claim_to_topic_index(store: &mut IdentityClaims, topic: u32, claim_id: Hash32)
    requires
        old(store).entries_wf(),
    ensures
        final(store).entries_wf(),
        final(store).claims@ == old(store).claims@,
        final(store).ids_of_topic(topic) == old(store).ids_of_topic(topic).push(claim_id),
        forall|t: u32| t != topic ==> #[trigger] final(store).ids_of_topic(t) == old(store).ids_of_topic(t),
{
    let mut ids: Vec<Hash32> = match store.by_topic.get(&topic) {
        Some(v) => copy_ids(v),
        None => Vec::new(),
    };
    ids.push(claim_id);
    store.by_topic.insert(topic, ids);
}

/// Writes `claim` under `claim_id`, overwriting a claim already there,
/// without touching the topic index; returns the topic of the claim it
/// replaced, if any.
fn put_claim(store: &mut IdentityClaims, claim_id: Hash32, claim: Claim) -> (r: Option<u32>)
    requires
        old(store).entries_wf(),
    ensures
        final(store).entries_wf(),
        final(store).by_topic@ == old(store).by_topic@,
        final(store).claim(claim_id) == Some(claim),
        forall|id: Hash32| id != claim_id ==> #[trigger] final(store).claim(id) == old(store).claim(id),
        r == (match old(store).claim(claim_id) {
            Some(c) => Some(c.topic),
            None => None::<u32>,
        }),
{
    let ghost before = store.claims@;
    match store.find(&claim_id) {
        Some(i) => {
            proof {
                lemma_claim_at(before, claim_id, i as int);
            }
            let prev_topic = store.claims[i].1.topic;
            let ghost c = claim;
            store.claims.set(i, (claim_id, claim));
            proof {
                assert(store.claims@ == before.update(i as int, (claim_id, c)));
                lemma_claim_at(store.claims@, claim_id, i as int);
                assert forall|id: Hash32| id != claim_id implies #[trigger] store.claim(id) == claim_in(
                    before,
                    id,
                ) by {
                    if exists|k: int| 0 <= k < before.len() && before[k].0 == id {
                        let k = choose|k: int| 0 <= k < before.len() && before[k].0 == id;
                        lemma_claim_at(before, id, k);
                        lemma_claim_at(store.claims@, id, k);
                    } else {
                        assert(!exists|k: int| 0 <= k < store.claims@.len() && store.claims@[k].0 == id) by {
                            if exists|k: int| 0 <= k < store.claims@.len() && store.claims@[k].0 == id {
                                let k = choose|k: int|
                                    0 <= k < store.claims@.len() && store.claims@[k].0 == id;
                                assert(before[k].0 == id);
                            }
                        }
                    }
                }
            }
            Some(prev_topic)
        },
        None => {
            let ghost c = claim;
            store.claims.push((claim_id, claim));
            proof {
                assert(store.claims@ == before.push((claim_id, c)));
                lemma_claim_at(store.claims@, claim_id, before.len() as int);
                assert forall|id: Hash32| id != claim_id implies #[trigger] store.claim(id) == claim_in(
                    before,
                    id,
                ) by {
                    if exists|k: int| 0 <= k < before.len() && before[k].0 == id {
                        let k = choose|k: int| 0 <= k < before.len() && before[k].0 == id;
                        lemma_claim_at(before, id, k);
                        lemma_claim_at(store.claims@, id, k);
                    } else {
                        assert(!exists|k: int| 0 <= k < store.claims@.len() && store.claims@[k].0 == id) by {
                            if exists|k: int| 0 <= k < store.claims@.len() && store.claims@[k].0 == id {
                                let k = choose|k: int|
                                    0 <= k < store.claims@.len() && store.claims@[k].0 == id;
                                assert(before[k].0 == id);
                            }
                        }
                    }
                }
            }
            None
        },
    }
}

/// Stores `claim` under `claim_id` (the id of its issuer and topic): a new
/// id is also listed under the claim's topic and gives `Added`, a known id
/// is overwritten and gives `Changed`. A known id whose claim now names
/// another topic moves from the old topic's list to the end of the new one.
fn store_claim(store: &mut IdentityClaims, claim_id: Hash32, claim: Claim) -> (r: ClaimEvent)
    requires
        old(store).wf(),
    ensures
        final(store).wf(),
        final(store).claim(claim_id) == Some(claim),
        forall|id: Hash32| id != claim_id ==> #[trigger] final(store).claim(id) == old(store).claim(id),
        old(store).claim(claim_id) is None ==> r == ClaimEvent::Added && final(store).ids_of_topic(
            claim.topic,
        ) == old(store).ids_of_topic(claim.topic).push(claim_id) && forall|t: u32|
            t != claim.topic ==> #[trigger] final(store).ids_of_topic(t) == old(store).ids_of_topic(t),
        old(store).claim(claim_id) is Some ==> r == ClaimEvent::Changed,
        old(store).claim(claim_id) is Some && old(store).claim(claim_id)->0.topic == claim.topic ==> forall|t: u32| #[trigger]
            final(store).ids_of_topic(t) == old(store).ids_of_topic(t),
        old(store).claim(claim_id) is Some && old(store).claim(claim_id)->0.topic != claim.topic ==> {
            &&& final(store).ids_of_topic(old(store).claim(claim_id)->0.topic) == remove_first(
                old(store).ids_of_topic(old(store).claim(claim_id)->0.topic),
                claim_id,
            )
            &&& final(store).ids_of_topic(claim.topic) == old(store).ids_of_topic(claim.topic).push(claim_id)
            &&& forall|t: u32|
                t != old(store).claim(claim_id)->0.topic && t != claim.topic ==> #[trigger] final(store).ids_of_topic(t) == old(
                    store,
                ).ids_of_topic(t)
        },
{
    let ghost s0 = *store;
    let ghost c_new = claim;
    let topic = claim.topic;
    let prev = put_claim(store, claim_id, claim);
    let ghost s1 = *store;
    proof {
        assert forall|t: u32| #[trigger] s1.ids_of_topic(t) == s0.ids_of_topic(t) by {}
    }
    match prev {
        None => {
            add_claim_to_topic_index(store, topic, claim_id);
            proof {
                assert forall|id: Hash32| #[trigger] store.claim(id) == s1.claim(id) by {}
                assert(!s0.ids_of_topic(topic).contains(claim_id));
                assert forall|t: u32, id: Hash32| #[trigger]
                    store.ids_of_topic(t).contains(id) implies (store.claim(id) matches Some(c) && c.topic == t) by {
                    if t == topic {
                        lemma_push_contains_id(s0.ids_of_topic(topic), claim_id, id);
                    }
                    if id != claim_id {
                        assert(s0.ids_of_topic(t).contains(id));
                    }
                }
                assert forall|t: u32| #[trigger] store.ids_of_topic(t).no_duplicates() by {
                    if t == topic {
                        lemma_push_no_duplicates(s0.ids_of_topic(topic), claim_id);
                    }
                }
            }
            ClaimEvent::Added
        },
        Some(old_topic) => {
            if old_topic != topic {
                unlist(store, old_topic, &claim_id);
                add_claim_to_topic_index(store, topic, claim_id);
                proof {
                    assert forall|id: Hash32| #[trigger] store.claim(id) == s1.claim(id) by {}
                    lemma_remove_first(s0.ids_of_topic(old_topic), claim_id);
                    assert(!s0.ids_of_topic(topic).contains(claim_id));
                    assert forall|t: u32, id: Hash32| #[trigger]
                        store.ids_of_topic(t).contains(id) implies (store.claim(id) matches Some(c) && c.topic == t) by {
                        if t == topic {
                            lemma_push_contains_id(s0.ids_of_topic(topic), claim_id, id);
                        }
                        if t != topic && id == claim_id {
                            if t != old_topic {
                                assert(s0.ids_of_topic(t).contains(claim_id));
                            }
                        }
                        if id != claim_id {
                            assert(s0.ids_of_topic(t).contains(id));
                        }
                    }
                    assert forall|t: u32| #[trigger] store.ids_of_topic(t).no_duplicates() by {
                        if t == topic {
                            lemma_push_no_duplicates(s0.ids_of_topic(topic), claim_id);
                        }
                    }
                }
            } else {
                proof {
                    assert forall|t: u32, id: Hash32| #[trigger]
                        store.ids_of_topic(t).contains(id) implies (store.claim(id) matches Some(c) && c.topic == t) by {
                        assert(s0.ids_of_topic(t).contains(id));
                    }
                    assert forall|t: u32| #[trigger] store.ids_of_topic(t).no_duplicates() by {
                        assert(s0.ids_of_topic(t).no_duplicates());
                    }
                }
            }
            ClaimEvent::Changed
        },
    }
}

/// A list with `id` appended holds exactly its old ids and `id`.
proof fn lemma_push_contains_id(l: Seq<Hash32>, id: Hash32, x: Hash32)
    ensures
        l.push(id).contains(x) <==> (l.contains(x) || x == id),
{
    crate::seqs::lemma_push_contains(l, id, x);
}

/// Appending an id that a list lacks keeps it free of repeats.
proof fn lemma_push_no_duplicates(l: Seq<Hash32>, id: Hash32)
    requires
        l.no_duplicates(),
        !l.contains(id),
    ensures
        l.push(id).no_duplicates(),
{
    assert forall|i: int, j: int| 0 <= i < l.push(id).len() && 0 <= j < l.push(id).len() && i != j implies
        l.push(id)[i] != l.push(id)[j] by {
        if i < l.len() && j < l.len() {
        } else if i < l.len() {
            assert(l[i] == l.push(id)[i]);
        } else if j < l.len() {
            assert(l[j] == l.push(id)[j]);
        }
    }
}

/// Taking the first occurrence of `id` out of a list keeps only ids it
/// held; from a list without repeats it takes `id` out entirely.
proof fn lemma_remove_first(l: Seq<Hash32>, id: Hash32)
    ensures
        forall|x: Hash32| #[trigger] remove_first(l, id).contains(x) ==> l.contains(x),
        l.no_duplicates() ==> remove_first(l, id).no_duplicates() && !remove_first(l, id).contains(id),
{
    if exists|i: int| 0 <= i < l.len() && l[i] == id {
        let k = choose|i: int| 0 <= i < l.len() && l[i] == id;
        lemma_first_exists(l, id, k);
        let i = choose|i: int| 0 <= i < l.len() && l[i] == id && forall|j: int| 0 <= j < i ==> l[j] != id;
        assert(remove_first(l, id) == l.remove(i));
        lemma_remove_at(l, i);
        if l.no_duplicates() {
            assert(!l.remove(i).contains(id)) by {
                if l.remove(i).contains(id) {
                    let k = choose|k: int| 0 <= k < l.remove(i).len() && l.remove(i)[k] == id;
                    if k < i {
                        assert(l[k] == id);
                    } else {
                        assert(l[k + 1] == id);
                    }
                }
            }
        }
    }
}

/// Where `id` occurs, there is a first position where it does.
proof fn lemma_first_exists(l: Seq<Hash32>, id: Hash32, k: int)
    requires
        0 <= k < l.len(),
        l[k] == id,
    ensures
        exists|i: int| 0 <= i < l.len() && l[i] == id && forall|j: int| 0 <= j < i ==> l[j] != id,
    decreases k,
{
    if exists|j: int| 0 <= j < k && l[j] == id {
        let j = choose|j: int| 0 <= j < k && l[j] == id;
        lemma_first_exists(l, id, j);
    } else {
        assert(forall|j: int| 0 <= j < k ==> l[j] != id);
    }
}

/// Taking out position `i` keeps only values the list held, and keeps a
/// list without repeats so.
proof fn lemma_remove_at(l: Seq<Hash32>, i: int)
    requires
        0 <= i < l.len(),
    ensures
        forall|x: Hash32| #[trigger] l.remove(i).contains(x) ==> l.contains(x),
        l.no_duplicates() ==> l.remove(i).no_duplicates(),
{
    l.remove_ensures(i);
    let r = l.remove(i);
    assert forall|x: Hash32| #[trigger] r.contains(x) implies l.contains(x) by {
        let k = choose|k: int| 0 <= k < r.len() && r[k] == x;
        if k < i {
            assert(l[k] == x);
        } else {
            assert(l[k + 1] == x);
        }
    }
    if l.no_duplicates() {
        assert forall|a: int, b: int| 0 <= a < r.len() && 0 <= b < r.len() && a != b implies r[a] != r[b] by {
            let aa = if a < i { a } else { a + 1 };
            let bb = if b < i { b } else { b + 1 };
            assert(r[a] == l[aa]);
            assert(r[b] == l[bb]);
        }
    }
}

fn copy_ids(v: &Vec<Hash32>) -> (r: Vec<Hash32>)
    ensures
        r@ == v@,
{
    let mut out: Vec<Hash32> = Vec::new();
    let mut i: usize = 0;
    while i < v.len()
        invariant
            i <= v.len(),
            out@ == v@.subrange(0, i as int),
        decreases v.len() - i,
    {
        out.push(v[i]);
        i = i + 1;
        assert(out@ =~= v@.subrange(0, i as int));
    }
    assert(out@ =~= v@);
    out
}

/// The claim under `claim_id`; `ClaimNotFound` if there is none.
pub fn get_claim<'a>(store: &'a IdentityClaims, claim_id: &Hash32) -> (r: Result<&'a Claim, ClaimsError>)
    requires
        store.wf(),
    ensures
        match store.claim(*claim_id) {
            Some(c) => r is Ok && *r->Ok_0 == c,
            None => r == Err::<&Claim, ClaimsError>(ClaimsError::ClaimNotFound),
        },
{
    match store.find(claim_id) {
        Some(i) => {
            proof {
                lemma_claim_at(store.claims@, *claim_id, i as int);
            }
            Ok(&store.claims[i].1)
        },
        None => Err(ClaimsError::ClaimNotFound),
    }
}

/// The claim ids listed under `topic`, in the order they were added.
pub fn get_claim_ids_by_topic(store: &IdentityClaims, topic: u32) -> (r: Vec<Hash32>)
    ensures
        r@ == store.ids_of_topic(topic),
{
    match store.by_topic.get(&topic) {
        Some(v) => copy_ids(v),
        None => Vec::new(),
    }
}

/// `ids` without its first occurrence of `id`.
pub open spec fn remove_first(ids: Seq<Hash32>, id: Hash32) -> Seq<Hash32> {
    if exists|i: int| 0 <= i < ids.len() && ids[i] == id {
        ids.remove(choose|i: int| 0 <= i < ids.len() && ids[i] == id && forall|j: int| 0 <= j < i ==> ids[j] != id)
    } else {
        ids
    }
}

/// Takes `claim_id` off the list of `topic` (its first occurrence); a list
/// left empty is dropped.
pub fn remove_claim_from_topic_index(store: &mut IdentityClaims, topic: u32, claim_id: &Hash32)
    requires
        old(store).wf(),
    ensures
        final(store).wf(),
        final(store).ids_of_topic(topic) == remove_first(old(store).ids_of_topic(topic), *claim_id),
        !final(store).ids_of_topic(topic).contains(*claim_id),
        forall|t: u32| t != topic ==> #[trigger] final(store).ids_of_topic(t) == old(store).ids_of_topic(t),
        forall|id: Hash32| #[trigger] final(store).claim(id) == old(store).claim(id),
{
    let ghost s0 = *store;
    unlist(store, topic, claim_id);
    proof {
        lemma_remove_first(s0.ids_of_topic(topic), *claim_id);
        assert forall|id: Hash32| #[trigger] store.claim(id) == s0.claim(id) by {}
        assert forall|t: u32, id: Hash32| #[trigger]
            store.ids_of_topic(t).contains(id) implies (store.claim(id) matches Some(c) && c.topic == t) by {
            assert(s0.ids_of_topic(t).contains(id));
        }
        assert forall|t: u32| #[trigger] store.ids_of_topic(t).no_duplicates() by {
            assert(s0.ids_of_topic(t).no_duplicates());
        }
    }
}

/// Takes the first occurrence of `claim_id` off the list of `topic`,
/// leaving the claims as they are.
fn unlist(store: &mut IdentityClaims, topic: u32, claim_id: &Hash32)
    requires
        old(store).entries_wf(),
    ensures
        final(store).entries_wf(),
        final(store).claims@ == old(store).claims@,
        final(store).ids_of_topic(topic) == remove_first(old(store).ids_of_topic(topic), *claim_id),
        forall|t: u32| t != topic ==> #[trigger] final(store).ids_of_topic(t) == old(store).ids_of_topic(t),
{
    let ids = match store.by_topic.get(&topic) {
        Some(v) => copy_ids(v),
        None => {
            return;
        },
    };
    let ghost before = ids@;
    match first_index(&ids, claim_id) {
        None => {
            proof {
                assert(!exists|k: int| 0 <= k < before.len() && before[k] == *claim_id);
            }
        },
        Some(i) => {
            let mut rest = ids;
            rest.remove(i);
            proof {
                assert(exists|k: int| 0 <= k < before.len() && before[k] == *claim_id);
                let c = choose|k: int|
                    0 <= k < before.len() && before[k] == *claim_id && forall|j: int|
                        0 <= j < k ==> before[j] != *claim_id;
                if c < i {
                    assert(before[c] != *claim_id);
                } else if c > i {
                    assert(before[i as int] != *claim_id);
                }
                assert(rest@ == remove_first(before, *claim_id));
            }
            if rest.len() == 0 {
                store.by_topic.remove(&topic);
                proof {
                    assert(rest@ =~= Seq::<Hash32>::empty());
                }
            } else {
                store.by_topic.insert(topic, rest);
            }
        },
    }
}

/// The first position of `id` in `ids`.
fn first_index(ids: &Vec<Hash32>, id: &Hash32) -> (r: Option<usize>)
    ensures
        match r {
            Some(i) => i < ids@.len() && ids@[i as int] == *id && forall|j: int|
                0 <= j < i ==> ids@[j] != *id,
            None => forall|j: int| 0 <= j < ids@.len() ==> ids@[j] != *id,
        },
{
    let mut i: usize = 0;
    while i < ids.len()
        invariant
            i <= ids.len(),
            forall|j: int| 0 <= j < i ==> ids@[j] != *id,
        decreases ids.len() - i,
    {
        if ids[i].same(id) {
            return Some(i);
        }
        i = i + 1;
    }
    None
}

/// Removes the claim under `claim_id` and takes it off its topic's list,
/// returning it; `ClaimNotFound` (and no change) if there is none.
pub fn remove_claim(store: &mut IdentityClaims, claim_id: &Hash32) -> (r: Result<Claim, ClaimsError>)
    requires
        old(store).wf(),
    ensures
        final(store).wf(),
        old(store).claim(*claim_id) is None ==> r == Err::<Claim, ClaimsError>(
            ClaimsError::ClaimNotFound,
        ) && *final(store) == *old(store),
        old(store).claim(*claim_id) is Some ==> {
            &&& r == Ok::<Claim, ClaimsError>(old(store).claim(*claim_id)->0)
            &&& final(store).claim(*claim_id) is None
            &&& forall|id: Hash32| id != *claim_id ==> #[trigger] final(store).claim(id) == old(store).claim(id)
            &&& final(store).ids_of_topic(r->Ok_0.topic) == remove_first(
                old(store).ids_of_topic(r->Ok_0.topic),
                *claim_id,
            )
            &&& forall|t: u32|
                t != r->Ok_0.topic ==> #[trigger] final(store).ids_of_topic(t) == old(store).ids_of_topic(t)
            &&& forall|t: u32| !(#[trigger] final(store).ids_of_topic(t)).contains(*claim_id)
        },
{
    let ghost s0 = *store;
    let ghost before = store.claims@;
    let i = match store.find(claim_id) {
        Some(i) => i,
        None => {
            proof {
                assert(!exists|k: int| 0 <= k < before.len() && before[k].0 == *claim_id);
            }
            return Err(ClaimsError::ClaimNotFound);
        },
    };
    proof {
        lemma_claim_at(before, *claim_id, i as int);
    }
    let (_, claim) = store.claims.remove(i);
    proof {
        assert(store.claims@ == before.remove(i as int));
        assert forall|id: Hash32| #[trigger] store.claim(id) == if id == *claim_id {
            None
        } else {
            claim_in(before, id)
        } by {
            if exists|k: int| 0 <= k < store.claims@.len() && store.claims@[k].0 == id {
                let k = choose|k: int| 0 <= k < store.claims@.len() && store.claims@[k].0 == id;
                let kk = if k < i {
                    k
                } else {
                    k + 1
                };
                assert(before[kk].0 == id);
                lemma_claim_at(store.claims@, id, k);
                lemma_claim_at(before, id, kk);
            } else if exists|k: int| 0 <= k < before.len() && before[k].0 == id {
                let k = choose|k: int| 0 <= k < before.len() && before[k].0 == id;
                if k < i {
                    assert(store.claims@[k].0 == id);
                } else if k > i {
                    assert(store.claims@[k - 1].0 == id);
                }
            }
        }
    }
    let topic = claim.topic;
    let ghost s1 = *store;
    unlist(store, topic, claim_id);
    proof {
        assert forall|id: Hash32| #[trigger] store.claim(id) == s1.claim(id) by {}
        lemma_remove_first(s0.ids_of_topic(topic), *claim_id);
        assert forall|t: u32, id: Hash32| #[trigger]
            store.ids_of_topic(t).contains(id) implies (store.claim(id) matches Some(c) && c.topic == t) by {
            if t != topic {
                assert(s0.ids_of_topic(t).contains(id));
            } else {
                assert(s0.ids_of_topic(topic).contains(id));
            }
        }
        assert forall|t: u32| #[trigger] store.ids_of_topic(t).no_duplicates() by {
            assert(s0.ids_of_topic(t).no_duplicates());
        }
        assert forall|t: u32| !(#[trigger] store.ids_of_topic(t)).contains(*claim_id) by {
            if store.ids_of_topic(t).contains(*claim_id) {
                assert(store.claim(*claim_id) is Some);
            }
        }
    }
    Ok(claim)
}

/// Adds `claim` under `claim_id`, the id of its issuer and topic, once the
/// issuer has answered its validity check (`issuer_check`); as
/// [`store_claim`] a new id gives `Added` and a known one `Changed`. When the
/// issuer refuses the claim, its own error (such as `ClaimNotValid`) is
/// passed on and nothing changes.
pub fn add_claim<E>(store: &mut IdentityClaims, claim_id: Hash32, claim: Claim, issuer_check: Result<(), E>) -> (r:
    Result<ClaimEvent, E>)
    requires
        old(store).wf(),
    ensures
        final(store).wf(),
        issuer_check matches Err(e) ==> r == Err::<ClaimEvent, E>(e) && *final(store) == *old(store),
        issuer_check is Ok ==> {
            &&& r is Ok
            &&& final(store).claim(claim_id) == Some(claim)
            &&& forall|id: Hash32| id != claim_id ==> #[trigger] final(store).claim(id) == old(store).claim(id)
            &&& old(store).claim(claim_id) is None ==> r == Ok::<ClaimEvent, E>(ClaimEvent::Added)
                && final(store).ids_of_topic(claim.topic) == old(store).ids_of_topic(claim.topic).push(
                claim_id,
            ) && forall|t: u32|
                t != claim.topic ==> #[trigger] final(store).ids_of_topic(t) == old(store).ids_of_topic(t)
            &&& old(store).claim(claim_id) is Some ==> r == Ok::<ClaimEvent, E>(ClaimEvent::Changed)
            &&& (old(store).claim(claim_id) is Some && old(store).claim(claim_id)->0.topic == claim.topic ==> forall|t: u32|
                #[trigger] final(store).ids_of_topic(t) == old(store).ids_of_topic(t))
            &&& (old(store).claim(claim_id) is Some && old(store).claim(claim_id)->0.topic != claim.topic ==> {
                &&& final(store).ids_of_topic(old(store).claim(claim_id)->0.topic) == remove_first(
                old(store).ids_of_topic(old(store).claim(claim_id)->0.topic),
                claim_id,
            )
                &&& final(store).ids_of_topic(claim.topic) == old(store).ids_of_topic(claim.topic).push(claim_id)
                &&& forall|t: u32|
                    t != old(store).claim(claim_id)->0.topic && t != claim.topic ==> #[trigger] final(store).ids_of_topic(t) == old(
                        store,
                    ).ids_of_topic(t)
            })
        },
{
    match issuer_check {
        Err(e) => Err(e),
        Ok(()) => Ok(store_claim(store, claim_id, claim)),
    }
}

/// Every claim id listed under a topic belongs to a stored claim on that
/// topic, and no topic lists an id twice.
pub proof fn lemma_topic_index(store: &IdentityClaims)
    requires
        store.wf(),
    ensures
        store.index_wf(),
{
}

} // verus!
