//! The registry of required claim topics and of trusted claim issuers.
//!
//! Each trusted issuer is trusted for a list of topics, and each topic keeps
//! the list of issuers trusted for it. The two lists always agree: issuer `i`
//! lists topic `t` exactly when topic `t` lists issuer `i`.
use std::collections::HashMap;
use vstd::prelude::*;

use crate::seqs::{
    copy_u32s, copy_u64s, lemma_push_contains, lemma_without_contains, vec_contains_u32, vec_contains_u64,
    vec_has_duplicates_u32, vec_without_u32, vec_without_u64, without,
};

verus! {

broadcast use vstd::std_specs::hash::group_hash_axioms;

/// Errors of the claim topics and issuers registry.
#[derive(Clone, Copy, Debug, PartialEq, Eq)]
pub enum ClaimTopicsAndIssuersError {
    ClaimTopicDoesNotExist,
    IssuerDoesNotExist,
    ClaimTopicAlreadyExists,
    IssuerAlreadyExists,
    MaxClaimTopicsLimitReached,
    MaxIssuersLimitReached,
    ClaimTopicsSetCannotBeEmpty,
}

/// The most claim topics, globally and per issuer.
pub const MAX_CLAIM_TOPICS: u32 = 15;

/// The most trusted issuers.
pub const MAX_ISSUERS: u32 = 50;

/// Claim topics, trusted issuers, and which issuer is trusted for which
/// topic.
pub struct ClaimTopicsAndIssuers {
    claim_topics: Vec<u32>,
    trusted_issuers: Vec<u64>,
    issuer_topics: HashMap<u64, Vec<u32>>,
    topic_issuers: HashMap<u32, Vec<u64>>,
}

impl ClaimTopicsAndIssuers {
    /// The claim topics, in the order they were added.
    pub closed spec fn topics(&self) -> Seq<u32> {
        self.claim_topics@
    }

    /// The trusted issuers, in the order they were added.
    pub closed spec fn issuers(&self) -> Seq<u64> {
        self.trusted_issuers@
    }

    /// The topics that `issuer` is trusted for (empty for an unknown issuer).
    pub closed spec fn topics_of(&self, issuer: u64) -> Seq<u32> {
        if self.issuer_topics@.contains_key(issuer) {
            self.issuer_topics@[issuer]@
        } else {
            Seq::empty()
        }
    }

    /// The issuers trusted for `topic` (empty for an unknown topic).
    pub closed spec fn issuers_of(&self, topic: u32) -> Seq<u64> {
        if self.topic_issuers@.contains_key(topic) {
            self.topic_issuers@[topic]@
        } else {
            Seq::empty()
        }
    }

    /// The registry's invariant: no list repeats a value, every issuer's
    /// topics exist, the two directions agree, and the limits hold.
    pub closed spec fn wf(&self) -> bool {
        &&& self.topics().no_duplicates()
        &&& self.issuers().no_duplicates()
        &&& self.topics().len() <= MAX_CLAIM_TOPICS
        &&& self.issuers().len() <= MAX_ISSUERS
        &&& forall|t: u32| #[trigger]
            self.topic_issuers@.contains_key(t) <==> self.topics().contains(t)
        &&& forall|i: u64| #[trigger]
            self.issuer_topics@.contains_key(i) <==> self.issuers().contains(i)
        &&& forall|i: u64| #[trigger] self.topics_of(i).no_duplicates()
        &&& forall|t: u32| #[trigger] self.issuers_of(t).no_duplicates()
        &&& forall|i: u64, t: u32| #[trigger]
            self.topics_of(i).contains(t) ==> self.topics().contains(t) && self.issuers().contains(i)
        &&& forall|i: u64, t: u32| #[trigger]
            self.issuers_of(t).contains(i) <==> self.topics_of(i).contains(t)
    }

    /// Every topic of the list is a known claim topic.
    pub open spec fn all_known(&self, claim_topics: Seq<u32>) -> bool {
        forall|k: int| 0 <= k < claim_topics.len() ==> self.topics().contains(#[trigger] claim_topics[k])
    }

    /// The error that a new topic list for an issuer gives, if any.
    pub open spec fn topics_input_error(&self, claim_topics: Seq<u32>) -> Option<
        ClaimTopicsAndIssuersError,
    > {
        if claim_topics.len() == 0 {
            Some(ClaimTopicsAndIssuersError::ClaimTopicsSetCannotBeEmpty)
        } else if claim_topics.len() > MAX_CLAIM_TOPICS {
            Some(ClaimTopicsAndIssuersError::MaxClaimTopicsLimitReached)
        } else if !claim_topics.no_duplicates() {
            Some(ClaimTopicsAndIssuersError::ClaimTopicAlreadyExists)
        } else if !self.all_known(claim_topics) {
            Some(ClaimTopicsAndIssuersError::ClaimTopicDoesNotExist)
        } else {
            None
        }
    }

    /// An empty registry.
    pub fn new() -> (s: Self)
        ensures
            s.wf(),
            s.topics() == Seq::<u32>::empty(),
            s.issuers() == Seq::<u64>::empty(),
    {
        ClaimTopicsAndIssuers {
            claim_topics: Vec::new(),
            trusted_issuers: Vec::new(),
            issuer_topics: HashMap::new(),
            topic_issuers: HashMap::new(),
        }
    }


    /// Replaces the issuer list of a known topic.
    fn put_topic_issuers(&mut self, t: u32, v: Vec<u64>)
        requires
            old(self).topic_issuers@.contains_key(t),
        ensures
            final(self).issuers_of(t) == v@,
            forall|u: u32| u != t ==> #[trigger] final(self).issuers_of(u) == old(self).issuers_of(u),
            forall|u: u32| #[trigger]
                final(self).topic_issuers@.contains_key(u) == old(self).topic_issuers@.contains_key(
                    u,
                ),
            final(self).claim_topics == old(self).claim_topics,
            final(self).trusted_issuers == old(self).trusted_issuers,
            final(self).issuer_topics == old(self).issuer_topics,
            forall|i: u64| #[trigger] final(self).topics_of(i) == old(self).topics_of(i),
    {
        self.topic_issuers.insert(t, v);
    }

    /// Replaces the topic list of a known issuer.
    fn put_issuer_topics(&mut self, i: u64, v: Vec<u32>)
        requires
            old(self).issuer_topics@.contains_key(i),
        ensures
            final(self).topics_of(i) == v@,
            forall|j: u64| j != i ==> #[trigger] final(self).topics_of(j) == old(self).topics_of(j),
            forall|j: u64| #[trigger]
                final(self).issuer_topics@.contains_key(j) == old(self).issuer_topics@.contains_key(
                    j,
                ),
            final(self).claim_topics == old(self).claim_topics,
            final(self).trusted_issuers == old(self).trusted_issuers,
            final(self).topic_issuers == old(self).topic_issuers,
            forall|t: u32| #[trigger] final(self).issuers_of(t) == old(self).issuers_of(t),
    {
        self.issuer_topics.insert(i, v);
    }

    /// The issuer list of a known topic.
    fn read_topic_issuers(&self, t: u32) -> (r: Vec<u64>)
        requires
            self.topic_issuers@.contains_key(t),
        ensures
            r@ == self.issuers_of(t),
    {
        match self.topic_issuers.get(&t) {
            Some(v) => copy_u64s(v),
            None => Vec::new(),
        }
    }

    /// The topic list of a known issuer.
    fn read_issuer_topics(&self, i: u64) -> (r: Vec<u32>)
        requires
            self.issuer_topics@.contains_key(i),
        ensures
            r@ == self.topics_of(i),
    {
        match self.issuer_topics.get(&i) {
            Some(v) => copy_u32s(v),
            None => Vec::new(),
        }
    }

    /// `ClaimTopicAlreadyExists` when a topic occurs twice in the list.
    fn validate_no_duplicate_topics(claim_topics: &Vec<u32>) -> (r: Result<(), ClaimTopicsAndIssuersError>)
        ensures
            r is Ok <==> claim_topics@.no_duplicates(),
            r is Err ==> r == Err::<(), ClaimTopicsAndIssuersError>(
                ClaimTopicsAndIssuersError::ClaimTopicAlreadyExists,
            ),
    {
        if vec_has_duplicates_u32(claim_topics) {
            Err(ClaimTopicsAndIssuersError::ClaimTopicAlreadyExists)
        } else {
            Ok(())
        }
    }

    /// `ClaimTopicDoesNotExist` when a topic of the list is not a known
    /// claim topic.
    fn validate_topics_exist(&self, claim_topics: &Vec<u32>) -> (r: Result<(), ClaimTopicsAndIssuersError>)
        ensures
            r is Ok <==> self.all_known(claim_topics@),
            r is Err ==> r == Err::<(), ClaimTopicsAndIssuersError>(
                ClaimTopicsAndIssuersError::ClaimTopicDoesNotExist,
            ),
    {
        let mut k: usize = 0;
        while k < claim_topics.len()
            invariant
                k <= claim_topics.len(),
                forall|j: int| 0 <= j < k ==> self.topics().contains(#[trigger] claim_topics@[j]),
            decreases claim_topics.len() - k,
        {
            if !vec_contains_u32(&self.claim_topics, claim_topics[k]) {
                assert(!self.topics().contains(claim_topics@[k as int]));
                return Err(ClaimTopicsAndIssuersError::ClaimTopicDoesNotExist);
            }
            k = k + 1;
        }
        Ok(())
    }

    fn validate_topics(&self, claim_topics: &Vec<u32>) -> (r: Result<(), ClaimTopicsAndIssuersError>)
        ensures
            match self.topics_input_error(claim_topics@) {
                Some(e) => r == Err::<(), ClaimTopicsAndIssuersError>(e),
                None => r is Ok,
            },
    {
        if claim_topics.len() == 0 {
            return Err(ClaimTopicsAndIssuersError::ClaimTopicsSetCannotBeEmpty);
        }
        if claim_topics.len() > MAX_CLAIM_TOPICS as usize {
            return Err(ClaimTopicsAndIssuersError::MaxClaimTopicsLimitReached);
        }
        let distinct = Self::validate_no_duplicate_topics(claim_topics);
        if distinct.is_err() {
            return distinct;
        }
        self.validate_topics_exist(claim_topics)
    }
}

/// Issuer `issuer` lists topic `topic` exactly when topic `topic` lists
/// issuer `issuer`, and such a pair only joins a known issuer to a known
/// topic.
pub proof fn lemma_links_agree(registry: &ClaimTopicsAndIssuers, issuer: u64, topic: u32)
    requires
        registry.wf(),
    ensures
        registry.issuers_of(topic).contains(issuer) <==> registry.topics_of(issuer).contains(topic),
        registry.topics_of(issuer).contains(topic) ==> registry.topics().contains(topic)
            && registry.issuers().contains(issuer),
{
}

/// In every reachable registry no list repeats a value, there are at most
/// [`MAX_CLAIM_TOPICS`] topics and [`MAX_ISSUERS`] issuers, an issuer's
/// topics are known topics, and a topic's issuers are trusted issuers.
pub proof fn lemma_registry_shape(registry: &ClaimTopicsAndIssuers)
    requires
        registry.wf(),
    ensures
        registry.topics().no_duplicates(),
        registry.issuers().no_duplicates(),
        registry.topics().len() <= MAX_CLAIM_TOPICS,
        registry.issuers().len() <= MAX_ISSUERS,
        forall|i: u64| #[trigger] registry.topics_of(i).no_duplicates(),
        forall|t: u32| #[trigger] registry.issuers_of(t).no_duplicates(),
        forall|i: u64, t: u32| #[trigger]
            registry.topics_of(i).contains(t) ==> registry.topics().contains(t),
        forall|i: u64, t: u32| #[trigger]
            registry.issuers_of(t).contains(i) ==> registry.issuers().contains(i),
{
    assert forall|i: u64, t: u32| #[trigger] registry.issuers_of(t).contains(i) implies registry.issuers().contains(i) by {
        assert(registry.topics_of(i).contains(t));
    }
}

/// The claim topics, in the order they were added.
pub fn get_claim_topics(registry: &ClaimTopicsAndIssuers) -> (r: Vec<u32>)
    ensures
        r@ == registry.topics(),
{
    copy_u32s(&registry.claim_topics)
}

/// The trusted issuers, in the order they were added.
pub fn get_trusted_issuers(registry: &ClaimTopicsAndIssuers) -> (r: Vec<u64>)
    ensures
        r@ == registry.issuers(),
{
    copy_u64s(&registry.trusted_issuers)
}

/// The issuers trusted for `claim_topic`; `ClaimTopicDoesNotExist` for an
/// unknown topic.
pub fn get_claim_topic_issuers(registry: &ClaimTopicsAndIssuers, claim_topic: u32) -> (r: Result<
    Vec<u64>,
    ClaimTopicsAndIssuersError,
>)
    requires
        registry.wf(),
    ensures
        registry.topics().contains(claim_topic) ==> r is Ok && r->Ok_0@ == registry.issuers_of(
            claim_topic,
        ),
        !registry.topics().contains(claim_topic) ==> r == Err::<
            Vec<u64>,
            ClaimTopicsAndIssuersError,
        >(ClaimTopicsAndIssuersError::ClaimTopicDoesNotExist),
{
    match registry.topic_issuers.get(&claim_topic) {
        Some(v) => Ok(copy_u64s(v)),
        None => Err(ClaimTopicsAndIssuersError::ClaimTopicDoesNotExist),
    }
}

/// The topics that `trusted_issuer` is trusted for; `IssuerDoesNotExist`
/// for an unknown issuer.
pub fn get_trusted_issuer_claim_topics(registry: &ClaimTopicsAndIssuers, trusted_issuer: u64) -> (r:
    Result<Vec<u32>, ClaimTopicsAndIssuersError>)
    requires
        registry.wf(),
    ensures
        registry.issuers().contains(trusted_issuer) ==> r is Ok && r->Ok_0@ == registry.topics_of(
            trusted_issuer,
        ),
        !registry.issuers().contains(trusted_issuer) ==> r == Err::<
            Vec<u32>,
            ClaimTopicsAndIssuersError,
        >(ClaimTopicsAndIssuersError::IssuerDoesNotExist),
{
    match registry.issuer_topics.get(&trusted_issuer) {
        Some(v) => Ok(copy_u32s(v)),
        None => Err(ClaimTopicsAndIssuersError::IssuerDoesNotExist),
    }
}

/// Every claim topic with the issuers trusted for it, in topic order.
pub fn get_claim_topics_and_issuers(registry: &ClaimTopicsAndIssuers) -> (r: Vec<(u32, Vec<u64>)>)
    requires
        registry.wf(),
    ensures
        r@.len() == registry.topics().len(),
        forall|k: int|
            0 <= k < r@.len() ==> #[trigger] r@[k].0 == registry.topics()[k] && r@[k].1@
                == registry.issuers_of(registry.topics()[k]),
{
    let mut out: Vec<(u32, Vec<u64>)> = Vec::new();
    let mut k: usize = 0;
    while k < registry.claim_topics.len()
        invariant
            registry.wf(),
            k <= registry.claim_topics.len(),
            out@.len() == k,
            forall|j: int|
                0 <= j < k ==> #[trigger] out@[j].0 == registry.topics()[j] && out@[j].1@
                    == registry.issuers_of(registry.topics()[j]),
        decreases registry.claim_topics.len() - k,
    {
        let t = registry.claim_topics[k];
        assert(registry.topics().contains(t)) by {
            assert(registry.topics()[k as int] == t);
        }
        let issuers = match get_claim_topic_issuers(registry, t) {
            Ok(v) => v,
            Err(_) => Vec::new(),
        };
        out.push((t, issuers));
        k = k + 1;
    }
    out
}

/// Whether `issuer` is a trusted issuer.
pub fn is_trusted_issuer(registry: &ClaimTopicsAndIssuers, issuer: u64) -> (r: bool)
    ensures
        r == registry.issuers().contains(issuer),
{
    vec_contains_u64(&registry.trusted_issuers, issuer)
}

/// Whether `issuer` is trusted for `claim_topic`; `IssuerDoesNotExist` for
/// an unknown issuer.
pub fn has_claim_topic(registry: &ClaimTopicsAndIssuers, issuer: u64, claim_topic: u32) -> (r: Result<
    bool,
    ClaimTopicsAndIssuersError,
>)
    requires
        registry.wf(),
    ensures
        registry.issuers().contains(issuer) ==> r == Ok::<bool, ClaimTopicsAndIssuersError>(
            registry.topics_of(issuer).contains(claim_topic),
        ),
        !registry.issuers().contains(issuer) ==> r == Err::<bool, ClaimTopicsAndIssuersError>(
            ClaimTopicsAndIssuersError::IssuerDoesNotExist,
        ),
{
    match registry.issuer_topics.get(&issuer) {
        Some(v) => Ok(vec_contains_u32(v, claim_topic)),
        None => Err(ClaimTopicsAndIssuersError::IssuerDoesNotExist),
    }
}

/// Adds a claim topic, with no issuer yet.
///
/// Fails with `MaxClaimTopicsLimitReached` at [`MAX_CLAIM_TOPICS`] topics
/// and `ClaimTopicAlreadyExists` for a known topic; nothing changes then.
pub fn add_claim_topic(registry: &mut ClaimTopicsAndIssuers, claim_topic: u32) -> (r: Result<
    (),
    ClaimTopicsAndIssuersError,
>)
    requires
        old(registry).wf(),
    ensures
        final(registry).wf(),
        old(registry).topics().len() >= MAX_CLAIM_TOPICS ==> r == Err::<
            (),
            ClaimTopicsAndIssuersError,
        >(ClaimTopicsAndIssuersError::MaxClaimTopicsLimitReached),
        old(registry).topics().len() < MAX_CLAIM_TOPICS && old(registry).topics().contains(
            claim_topic,
        ) ==> r == Err::<(), ClaimTopicsAndIssuersError>(
            ClaimTopicsAndIssuersError::ClaimTopicAlreadyExists,
        ),
        r is Err ==> *final(registry) == *old(registry),
        old(registry).topics().len() < MAX_CLAIM_TOPICS && !old(registry).topics().contains(
            claim_topic,
        ) ==> {
            &&& r is Ok
            &&& final(registry).topics() == old(registry).topics().push(claim_topic)
            &&& final(registry).issuers() == old(registry).issuers()
            &&& final(registry).issuers_of(claim_topic) == Seq::<u64>::empty()
            &&& forall|t: u32|
                t != claim_topic ==> #[trigger] final(registry).issuers_of(t) == old(
                    registry,
                ).issuers_of(t)
            &&& forall|i: u64| #[trigger]
                final(registry).topics_of(i) == old(registry).topics_of(i)
        },
{
    if registry.claim_topics.len() >= MAX_CLAIM_TOPICS as usize {
        return Err(ClaimTopicsAndIssuersError::MaxClaimTopicsLimitReached);
    }
    if vec_contains_u32(&registry.claim_topics, claim_topic) {
        return Err(ClaimTopicsAndIssuersError::ClaimTopicAlreadyExists);
    }
    let ghost old_reg = *registry;
    assert(!old_reg.topic_issuers@.contains_key(claim_topic));
    assert(old_reg.issuers_of(claim_topic) == Seq::<u64>::empty());
    registry.claim_topics.push(claim_topic);
    registry.topic_issuers.insert(claim_topic, Vec::new());
    proof {
        assert forall|t: u32| #[trigger]
            registry.topic_issuers@.contains_key(t) <==> registry.topics().contains(t) by {
            assert(registry.topics() =~= old_reg.topics().push(claim_topic));
            if t == claim_topic {
                assert(registry.topics()[old_reg.topics().len() as int] == t);
            } else if registry.topics().contains(t) {
                let k = choose|k: int| 0 <= k < registry.topics().len() && registry.topics()[k] == t;
                assert(old_reg.topics()[k] == t);
            } else if old_reg.topics().contains(t) {
                let k = choose|k: int| 0 <= k < old_reg.topics().len() && old_reg.topics()[k] == t;
                assert(registry.topics()[k] == t);
            }
        }
        assert forall|i: u64, t: u32| #[trigger]
            registry.topics_of(i).contains(t) implies registry.topics().contains(t)
            && registry.issuers().contains(i) by {
            assert(registry.topics_of(i) == old_reg.topics_of(i));
            assert(old_reg.topics_of(i).contains(t));
            lemma_push_contains(old_reg.topics(), claim_topic, t);
            assert(registry.topics() =~= old_reg.topics().push(claim_topic));
        }
        assert(registry.topics().no_duplicates());
        assert(registry.issuers_of(claim_topic) =~= Seq::<u64>::empty());
        assert forall|i: u64, t: u32| #[trigger]
            registry.issuers_of(t).contains(i) <==> registry.topics_of(i).contains(t) by {
            assert(registry.topics_of(i) == old_reg.topics_of(i));
            if t == claim_topic {
                if old_reg.topics_of(i).contains(t) {
                    assert(old_reg.topics().contains(t));
                }
            } else {
                assert(registry.issuers_of(t) == old_reg.issuers_of(t));
                assert(old_reg.issuers_of(t).contains(i) <==> old_reg.topics_of(i).contains(t));
            }
        }
        assert forall|t: u32| #[trigger] registry.issuers_of(t).no_duplicates() by {
            if t != claim_topic {
                assert(registry.issuers_of(t) == old_reg.issuers_of(t));
            }
        }
        assert forall|i: u64| #[trigger] registry.topics_of(i).no_duplicates() by {
            assert(registry.topics_of(i) == old_reg.topics_of(i));
        }
    }
    Ok(())
}

/// Trusts `trusted_issuer` for the topics `claim_topics`.
///
/// Fails, with nothing changed, on an empty list
/// (`ClaimTopicsSetCannotBeEmpty`), more than [`MAX_CLAIM_TOPICS`] topics
/// (`MaxClaimTopicsLimitReached`), a repeated topic
/// (`ClaimTopicAlreadyExists`), an unknown topic (`ClaimTopicDoesNotExist`),
/// [`MAX_ISSUERS`] issuers already (`MaxIssuersLimitReached`), or an issuer
/// already trusted (`IssuerAlreadyExists`), checked in that order.
pub fn add_trusted_issuer(
    registry: &mut ClaimTopicsAndIssuers,
    trusted_issuer: u64,
    claim_topics: &Vec<u32>,
) -> (r: Result<(), ClaimTopicsAndIssuersError>)
    requires
        old(registry).wf(),
    ensures
        final(registry).wf(),
        r is Err ==> *final(registry) == *old(registry),
        old(registry).topics_input_error(claim_topics@) is Some ==> r == Err::<
            (),
            ClaimTopicsAndIssuersError,
        >(old(registry).topics_input_error(claim_topics@)->0),
        old(registry).topics_input_error(claim_topics@) is None && old(registry).issuers().len()
            >= MAX_ISSUERS ==> r == Err::<(), ClaimTopicsAndIssuersError>(
            ClaimTopicsAndIssuersError::MaxIssuersLimitReached,
        ),
        old(registry).topics_input_error(claim_topics@) is None && old(registry).issuers().len()
            < MAX_ISSUERS && old(registry).issuers().contains(trusted_issuer) ==> r == Err::<
            (),
            ClaimTopicsAndIssuersError,
        >(ClaimTopicsAndIssuersError::IssuerAlreadyExists),
        r is Ok <==> old(registry).topics_input_error(claim_topics@) is None && old(
            registry,
        ).issuers().len() < MAX_ISSUERS && !old(registry).issuers().contains(trusted_issuer),
        r is Ok ==> {
            &&& final(registry).issuers() == old(registry).issuers().push(trusted_issuer)
            &&& final(registry).topics() == old(registry).topics()
            &&& final(registry).topics_of(trusted_issuer) == claim_topics@
            &&& forall|i: u64|
                i != trusted_issuer ==> #[trigger] final(registry).topics_of(i) == old(
                    registry,
                ).topics_of(i)
            &&& forall|t: u32| #[trigger]
                final(registry).issuers_of(t) == if claim_topics@.contains(t) {
                    old(registry).issuers_of(t).push(trusted_issuer)
                } else {
                    old(registry).issuers_of(t)
                }
        },
{
    registry.validate_topics(claim_topics)?;
    if registry.trusted_issuers.len() >= MAX_ISSUERS as usize {
        return Err(ClaimTopicsAndIssuersError::MaxIssuersLimitReached);
    }
    if vec_contains_u64(&registry.trusted_issuers, trusted_issuer) {
        return Err(ClaimTopicsAndIssuersError::IssuerAlreadyExists);
    }
    let ghost old_reg = *registry;
    assert(old_reg.topics_of(trusted_issuer) == Seq::<u32>::empty());
    registry.trusted_issuers.push(trusted_issuer);
    registry.issuer_topics.insert(trusted_issuer, copy_u32s(claim_topics));
    let mut k: usize = 0;
    while k < claim_topics.len()
        invariant
            old_reg.wf(),
            old_reg.all_known(claim_topics@),
            claim_topics@.no_duplicates(),
            k <= claim_topics.len(),
            registry.claim_topics == old_reg.claim_topics,
            registry.trusted_issuers@ == old_reg.trusted_issuers@.push(trusted_issuer),
            registry.topics_of(trusted_issuer) == claim_topics@,
            forall|i: u64|
                i != trusted_issuer ==> #[trigger] registry.topics_of(i) == old_reg.topics_of(i),
            forall|i: u64| #[trigger]
                registry.issuer_topics@.contains_key(i) <==> (old_reg.issuer_topics@.contains_key(i)
                    || i == trusted_issuer),
            forall|u: u32| #[trigger]
                registry.topic_issuers@.contains_key(u) == old_reg.topic_issuers@.contains_key(u),
            forall|u: u32| #[trigger]
                registry.issuers_of(u) == if claim_topics@.subrange(0, k as int).contains(u) {
                    old_reg.issuers_of(u).push(trusted_issuer)
                } else {
                    old_reg.issuers_of(u)
                },
        decreases claim_topics.len() - k,
    {
        let t = claim_topics[k];
        proof {
            assert(old_reg.topics().contains(claim_topics@[k as int]));
            assert(!claim_topics@.subrange(0, k as int).contains(t)) by {
                if claim_topics@.subrange(0, k as int).contains(t) {
                    let j = choose|j: int|
                        0 <= j < k && claim_topics@.subrange(0, k as int)[j] == t;
                    assert(claim_topics@[j] == claim_topics@[k as int]);
                }
            }
        }
        let mut v = registry.read_topic_issuers(t);
        v.push(trusted_issuer);
        let ghost mid = *registry;
        registry.put_topic_issuers(t, v);
        proof {
            assert forall|i: u64| #[trigger] registry.topics_of(i) == mid.topics_of(i) by {}
            assert forall|u: u32| #[trigger]
                registry.issuers_of(u) == if claim_topics@.subrange(0, k + 1).contains(u) {
                    old_reg.issuers_of(u).push(trusted_issuer)
                } else {
                    old_reg.issuers_of(u)
                } by {
                assert(claim_topics@.subrange(0, k + 1) =~= claim_topics@.subrange(0, k as int).push(
                    t,
                ));
                lemma_push_contains(claim_topics@.subrange(0, k as int), t, u);
            }
        }
        k = k + 1;
    }
    proof {
        assert(claim_topics@.subrange(0, claim_topics@.len() as int) =~= claim_topics@);
        lemma_push_contains(old_reg.issuers(), trusted_issuer, trusted_issuer);
        assert forall|i: u64| #[trigger]
            registry.issuer_topics@.contains_key(i) <==> registry.issuers().contains(i) by {
            lemma_push_contains(old_reg.issuers(), trusted_issuer, i);
        }
        assert forall|i: u64, t: u32| #[trigger]
            registry.topics_of(i).contains(t) implies registry.topics().contains(t)
            && registry.issuers().contains(i) by {
            lemma_push_contains(old_reg.issuers(), trusted_issuer, i);
            if i == trusted_issuer {
                let j = choose|j: int| 0 <= j < claim_topics@.len() && claim_topics@[j] == t;
                assert(old_reg.topics().contains(claim_topics@[j]));
            } else {
                assert(old_reg.topics_of(i).contains(t));
            }
        }
        assert forall|t: u32| #[trigger] registry.issuers_of(t).no_duplicates() by {
            if claim_topics@.contains(t) {
                assert(old_reg.issuers_of(t).no_duplicates());
                assert(!old_reg.issuers_of(t).contains(trusted_issuer)) by {
                    if old_reg.issuers_of(t).contains(trusted_issuer) {
                        assert(old_reg.topics_of(trusted_issuer).contains(t));
                    }
                }
                let s0 = old_reg.issuers_of(t);
                assert forall|a: int, b: int|
                    0 <= a < s0.push(trusted_issuer).len() && 0 <= b < s0.push(trusted_issuer).len()
                        && a != b implies s0.push(trusted_issuer)[a] != s0.push(trusted_issuer)[b] by {
                    if a < s0.len() && b < s0.len() {
                    } else if a < s0.len() {
                        assert(s0.contains(s0[a]));
                    } else if b < s0.len() {
                        assert(s0.contains(s0[b]));
                    }
                }
            }
        }
        assert forall|i: u64| #[trigger] registry.topics_of(i).no_duplicates() by {
            if i != trusted_issuer {
                assert(old_reg.topics_of(i).no_duplicates());
            }
        }
        assert forall|i: u64, t: u32| #[trigger]
            registry.issuers_of(t).contains(i) <==> registry.topics_of(i).contains(t) by {
            lemma_push_contains(old_reg.issuers_of(t), trusted_issuer, i);
            if i != trusted_issuer {
                assert(old_reg.issuers_of(t).contains(i) <==> old_reg.topics_of(i).contains(t));
            } else {
                if old_reg.issuers_of(t).contains(i) {
                    assert(old_reg.topics_of(i).contains(t));
                }
            }
        }
        assert(registry.issuers().no_duplicates()) by {
            let s0 = old_reg.issuers();
            assert forall|a: int, b: int|
                0 <= a < s0.push(trusted_issuer).len() && 0 <= b < s0.push(trusted_issuer).len() && a
                    != b implies s0.push(trusted_issuer)[a] != s0.push(trusted_issuer)[b] by {
                if a < s0.len() && b < s0.len() {
                } else if a < s0.len() {
                    assert(s0.contains(s0[a]));
                } else if b < s0.len() {
                    assert(s0.contains(s0[b]));
                }
            }
        }
    }
    Ok(())
}

/// Stops trusting `trusted_issuer`, taking it off every topic's list;
/// `IssuerDoesNotExist` (and no change) for an issuer not trusted.
pub fn remove_trusted_issuer(registry: &mut ClaimTopicsAndIssuers, trusted_issuer: u64) -> (r: Result<
    (),
    ClaimTopicsAndIssuersError,
>)
    requires
        old(registry).wf(),
    ensures
        final(registry).wf(),
        !old(registry).issuers().contains(trusted_issuer) ==> r == Err::<
            (),
            ClaimTopicsAndIssuersError,
        >(ClaimTopicsAndIssuersError::IssuerDoesNotExist) && *final(registry) == *old(registry),
        old(registry).issuers().contains(trusted_issuer) ==> {
            &&& r is Ok
            &&& final(registry).issuers() == without(old(registry).issuers(), trusted_issuer)
            &&& final(registry).topics() == old(registry).topics()
            &&& final(registry).topics_of(trusted_issuer) == Seq::<u32>::empty()
            &&& forall|i: u64|
                i != trusted_issuer ==> #[trigger] final(registry).topics_of(i) == old(
                    registry,
                ).topics_of(i)
            &&& forall|t: u32| #[trigger]
                final(registry).issuers_of(t) == without(old(registry).issuers_of(t), trusted_issuer)
        },
{
    if !vec_contains_u64(&registry.trusted_issuers, trusted_issuer) {
        return Err(ClaimTopicsAndIssuersError::IssuerDoesNotExist);
    }
    let ghost old_reg = *registry;
    let old_topics = registry.read_issuer_topics(trusted_issuer);
    registry.trusted_issuers = vec_without_u64(&registry.trusted_issuers, trusted_issuer);
    registry.issuer_topics.remove(&trusted_issuer);
    let mut k: usize = 0;
    while k < old_topics.len()
        invariant
            old_reg.wf(),
            old_topics@ == old_reg.topics_of(trusted_issuer),
            old_reg.issuers().contains(trusted_issuer),
            k <= old_topics.len(),
            registry.claim_topics == old_reg.claim_topics,
            registry.trusted_issuers@ == without(old_reg.issuers(), trusted_issuer),
            registry.topics_of(trusted_issuer) == Seq::<u32>::empty(),
            forall|i: u64|
                i != trusted_issuer ==> #[trigger] registry.topics_of(i) == old_reg.topics_of(i),
            forall|i: u64| #[trigger]
                registry.issuer_topics@.contains_key(i) <==> (old_reg.issuer_topics@.contains_key(i)
                    && i != trusted_issuer),
            forall|u: u32| #[trigger]
                registry.topic_issuers@.contains_key(u) == old_reg.topic_issuers@.contains_key(u),
            forall|u: u32| #[trigger]
                registry.issuers_of(u) == if old_topics@.subrange(0, k as int).contains(u) {
                    without(old_reg.issuers_of(u), trusted_issuer)
                } else {
                    old_reg.issuers_of(u)
                },
        decreases old_topics.len() - k,
    {
        let t = old_topics[k];
        proof {
            assert(old_reg.topics_of(trusted_issuer).contains(old_topics@[k as int]));
            assert(old_reg.topics_of(trusted_issuer).no_duplicates());
            assert(!old_topics@.subrange(0, k as int).contains(t)) by {
                if old_topics@.subrange(0, k as int).contains(t) {
                    let j = choose|j: int| 0 <= j < k && old_topics@.subrange(0, k as int)[j] == t;
                    assert(old_topics@[j] == old_topics@[k as int]);
                }
            }
        }
        let v = registry.read_topic_issuers(t);
        let v2 = vec_without_u64(&v, trusted_issuer);
        registry.put_topic_issuers(t, v2);
        proof {
            assert forall|u: u32| #[trigger]
                registry.issuers_of(u) == if old_topics@.subrange(0, k + 1).contains(u) {
                    without(old_reg.issuers_of(u), trusted_issuer)
                } else {
                    old_reg.issuers_of(u)
                } by {
                assert(old_topics@.subrange(0, k + 1) =~= old_topics@.subrange(0, k as int).push(t));
                lemma_push_contains(old_topics@.subrange(0, k as int), t, u);
            }
        }
        k = k + 1;
    }
    proof {
        assert(old_topics@.subrange(0, old_topics@.len() as int) =~= old_topics@);
        lemma_without_contains(old_reg.issuers(), trusted_issuer);
        assert forall|t: u32| #[trigger]
            registry.issuers_of(t) == without(old_reg.issuers_of(t), trusted_issuer) by {
            lemma_without_contains(old_reg.issuers_of(t), trusted_issuer);
            if !old_topics@.contains(t) {
                assert(!old_reg.issuers_of(t).contains(trusted_issuer));
            }
        }
        assert forall|i: u64| #[trigger]
            registry.issuer_topics@.contains_key(i) <==> registry.issuers().contains(i) by {}
        assert forall|i: u64, t: u32| #[trigger]
            registry.topics_of(i).contains(t) implies registry.topics().contains(t)
            && registry.issuers().contains(i) by {
            assert(old_reg.topics_of(i).contains(t));
        }
        assert forall|t: u32| #[trigger] registry.issuers_of(t).no_duplicates() by {
            lemma_without_contains(old_reg.issuers_of(t), trusted_issuer);
        }
        assert forall|i: u64| #[trigger] registry.topics_of(i).no_duplicates() by {
            if i != trusted_issuer {
                assert(old_reg.topics_of(i).no_duplicates());
            }
        }
        assert forall|i: u64, t: u32| #[trigger]
            registry.issuers_of(t).contains(i) <==> registry.topics_of(i).contains(t) by {
            lemma_without_contains(old_reg.issuers_of(t), trusted_issuer);
            assert(old_reg.issuers_of(t).contains(i) <==> old_reg.topics_of(i).contains(t));
        }
    }
    Ok(())
}

/// Removes the claim topic `claim_topic`, taking it off every issuer's
/// list; `ClaimTopicDoesNotExist` (and no change) for an unknown topic.
pub fn remove_claim_topic(registry: &mut ClaimTopicsAndIssuers, claim_topic: u32) -> (r: Result<
    (),
    ClaimTopicsAndIssuersError,
>)
    requires
        old(registry).wf(),
    ensures
        final(registry).wf(),
        !old(registry).topics().contains(claim_topic) ==> r == Err::<
            (),
            ClaimTopicsAndIssuersError,
        >(ClaimTopicsAndIssuersError::ClaimTopicDoesNotExist) && *final(registry) == *old(registry),
        old(registry).topics().contains(claim_topic) ==> {
            &&& r is Ok
            &&& final(registry).topics() == without(old(registry).topics(), claim_topic)
            &&& final(registry).issuers() == old(registry).issuers()
            &&& final(registry).issuers_of(claim_topic) == Seq::<u64>::empty()
            &&& forall|t: u32|
                t != claim_topic ==> #[trigger] final(registry).issuers_of(t) == old(
                    registry,
                ).issuers_of(t)
            &&& forall|i: u64| #[trigger]
                final(registry).topics_of(i) == without(old(registry).topics_of(i), claim_topic)
        },
{
    if !vec_contains_u32(&registry.claim_topics, claim_topic) {
        return Err(ClaimTopicsAndIssuersError::ClaimTopicDoesNotExist);
    }
    let ghost old_reg = *registry;
    let issuers = copy_u64s(&registry.trusted_issuers);
    let mut k: usize = 0;
    while k < issuers.len()
        invariant
            old_reg.wf(),
            issuers@ == old_reg.issuers(),
            k <= issuers.len(),
            registry.claim_topics == old_reg.claim_topics,
            registry.trusted_issuers == old_reg.trusted_issuers,
            registry.topic_issuers == old_reg.topic_issuers,
            forall|t: u32| #[trigger] registry.issuers_of(t) == old_reg.issuers_of(t),
            forall|i: u64| #[trigger]
                registry.issuer_topics@.contains_key(i) == old_reg.issuer_topics@.contains_key(i),
            forall|i: u64| #[trigger]
                registry.topics_of(i) == if issuers@.subrange(0, k as int).contains(i) {
                    without(old_reg.topics_of(i), claim_topic)
                } else {
                    old_reg.topics_of(i)
                },
        decreases issuers.len() - k,
    {
        let i = issuers[k];
        proof {
            assert(old_reg.issuers().contains(issuers@[k as int]));
            assert(!issuers@.subrange(0, k as int).contains(i)) by {
                if issuers@.subrange(0, k as int).contains(i) {
                    let j = choose|j: int| 0 <= j < k && issuers@.subrange(0, k as int)[j] == i;
                    assert(issuers@[j] == issuers@[k as int]);
                }
            }
        }
        let v = registry.read_issuer_topics(i);
        let v2 = vec_without_u32(&v, claim_topic);
        registry.put_issuer_topics(i, v2);
        proof {
            assert forall|j: u64| #[trigger]
                registry.topics_of(j) == if issuers@.subrange(0, k + 1).contains(j) {
                    without(old_reg.topics_of(j), claim_topic)
                } else {
                    old_reg.topics_of(j)
                } by {
                assert(issuers@.subrange(0, k + 1) =~= issuers@.subrange(0, k as int).push(i));
                lemma_push_contains(issuers@.subrange(0, k as int), i, j);
            }
        }
        k = k + 1;
    }
    let ghost pre = *registry;
    registry.claim_topics = vec_without_u32(&registry.claim_topics, claim_topic);
    let ghost mid = *registry;
    registry.topic_issuers.remove(&claim_topic);
    proof {
        assert(issuers@.subrange(0, issuers@.len() as int) =~= issuers@);
        lemma_without_contains(old_reg.topics(), claim_topic);
        assert forall|i: u64| #[trigger]
            registry.topics_of(i) == without(old_reg.topics_of(i), claim_topic) by {
            assert(registry.topics_of(i) == mid.topics_of(i));
            assert(mid.topics_of(i) == pre.topics_of(i));
            assert(pre.topics_of(i) == if issuers@.subrange(0, issuers@.len() as int).contains(i) {
                without(old_reg.topics_of(i), claim_topic)
            } else {
                old_reg.topics_of(i)
            });
            if !issuers@.contains(i) {
                assert(!old_reg.issuer_topics@.contains_key(i));
                assert(old_reg.topics_of(i) =~= Seq::<u32>::empty());
                lemma_without_contains(old_reg.topics_of(i), claim_topic);
            }
        }
        assert forall|t: u32| #[trigger]
            registry.topic_issuers@.contains_key(t) <==> registry.topics().contains(t) by {}
        assert forall|t: u32|
            t != claim_topic implies #[trigger] registry.issuers_of(t) == old_reg.issuers_of(t) by {}
        assert(registry.issuers_of(claim_topic) == Seq::<u64>::empty());
        assert forall|i: u64, t: u32| #[trigger]
            registry.topics_of(i).contains(t) implies registry.topics().contains(t)
            && registry.issuers().contains(i) by {
            lemma_without_contains(old_reg.topics_of(i), claim_topic);
            assert(old_reg.topics_of(i).contains(t));
        }
        assert forall|t: u32| #[trigger] registry.issuers_of(t).no_duplicates() by {
            if t != claim_topic {
                assert(old_reg.issuers_of(t).no_duplicates());
            }
        }
        assert forall|i: u64| #[trigger] registry.topics_of(i).no_duplicates() by {
            lemma_without_contains(old_reg.topics_of(i), claim_topic);
        }
        assert forall|i: u64, t: u32| #[trigger]
            registry.issuers_of(t).contains(i) <==> registry.topics_of(i).contains(t) by {
            lemma_without_contains(old_reg.topics_of(i), claim_topic);
            if t != claim_topic {
                assert(old_reg.issuers_of(t).contains(i) <==> old_reg.topics_of(i).contains(t));
            }
        }
    }
    Ok(())
}

/// What the issuer list of topic `t` becomes when an issuer's topics change
/// from `old_topics` to `new_topics`.
pub open spec fn relinked(
    issuers: Seq<u64>,
    issuer: u64,
    t: u32,
    old_topics: Seq<u32>,
    new_topics: Seq<u32>,
) -> Seq<u64> {
    if old_topics.contains(t) && !new_topics.contains(t) {
        without(issuers, issuer)
    } else if new_topics.contains(t) && !old_topics.contains(t) {
        issuers.push(issuer)
    } else {
        issuers
    }
}

/// Replaces the topics that `trusted_issuer` is trusted for by
/// `claim_topics`, moving it off the topics it loses and onto the ones it
/// gains.
///
/// Fails, with nothing changed, as [`add_trusted_issuer`] does on a bad
/// topic list, then with `IssuerDoesNotExist` for an issuer not trusted.
pub fn update_issuer_claim_topics(
    registry: &mut ClaimTopicsAndIssuers,
    trusted_issuer: u64,
    claim_topics: &Vec<u32>,
) -> (r: Result<(), ClaimTopicsAndIssuersError>)
    requires
        old(registry).wf(),
    ensures
        final(registry).wf(),
        r is Err ==> *final(registry) == *old(registry),
        old(registry).topics_input_error(claim_topics@) is Some ==> r == Err::<
            (),
            ClaimTopicsAndIssuersError,
        >(old(registry).topics_input_error(claim_topics@)->0),
        old(registry).topics_input_error(claim_topics@) is None && !old(registry).issuers().contains(
            trusted_issuer,
        ) ==> r == Err::<(), ClaimTopicsAndIssuersError>(
            ClaimTopicsAndIssuersError::IssuerDoesNotExist,
        ),
        r is Ok <==> old(registry).topics_input_error(claim_topics@) is None && old(
            registry,
        ).issuers().contains(trusted_issuer),
        r is Ok ==> {
            &&& final(registry).issuers() == old(registry).issuers()
            &&& final(registry).topics() == old(registry).topics()
            &&& final(registry).topics_of(trusted_issuer) == claim_topics@
            &&& forall|i: u64|
                i != trusted_issuer ==> #[trigger] final(registry).topics_of(i) == old(
                    registry,
                ).topics_of(i)
            &&& forall|t: u32| #[trigger]
                final(registry).issuers_of(t) == relinked(
                    old(registry).issuers_of(t),
                    trusted_issuer,
                    t,
                    old(registry).topics_of(trusted_issuer),
                    claim_topics@,
                )
        },
{
    registry.validate_topics(claim_topics)?;
    if !vec_contains_u64(&registry.trusted_issuers, trusted_issuer) {
        return Err(ClaimTopicsAndIssuersError::IssuerDoesNotExist);
    }
    let ghost old_reg = *registry;
    let old_topics = registry.read_issuer_topics(trusted_issuer);
    registry.put_issuer_topics(trusted_issuer, copy_u32s(claim_topics));
    let mut k: usize = 0;
    while k < old_topics.len()
        invariant
            old_reg.wf(),
            old_topics@ == old_reg.topics_of(trusted_issuer),
            old_topics@.no_duplicates(),
            k <= old_topics.len(),
            registry.claim_topics == old_reg.claim_topics,
            registry.trusted_issuers == old_reg.trusted_issuers,
            registry.issuer_topics@.dom() == old_reg.issuer_topics@.dom(),
            registry.topics_of(trusted_issuer) == claim_topics@,
            forall|i: u64|
                i != trusted_issuer ==> #[trigger] registry.topics_of(i) == old_reg.topics_of(i),
            forall|u: u32| #[trigger]
                registry.topic_issuers@.contains_key(u) == old_reg.topic_issuers@.contains_key(u),
            forall|u: u32| #[trigger]
                registry.issuers_of(u) == if old_topics@.subrange(0, k as int).contains(u)
                    && !claim_topics@.contains(u) {
                    without(old_reg.issuers_of(u), trusted_issuer)
                } else {
                    old_reg.issuers_of(u)
                },
        decreases old_topics.len() - k,
    {
        let t = old_topics[k];
        proof {
            assert(old_reg.topics_of(trusted_issuer).contains(old_topics@[k as int]));
            assert(!old_topics@.subrange(0, k as int).contains(t)) by {
                if old_topics@.subrange(0, k as int).contains(t) {
                    let j = choose|j: int| 0 <= j < k && old_topics@.subrange(0, k as int)[j] == t;
                    assert(old_topics@[j] == old_topics@[k as int]);
                }
            }
        }
        let keep = vec_contains_u32(claim_topics, t);
        if !keep {
            let v = registry.read_topic_issuers(t);
            let v2 = vec_without_u64(&v, trusted_issuer);
            registry.put_topic_issuers(t, v2);
        }
        proof {
            assert forall|u: u32| #[trigger]
                registry.issuers_of(u) == if old_topics@.subrange(0, k + 1).contains(u)
                    && !claim_topics@.contains(u) {
                    without(old_reg.issuers_of(u), trusted_issuer)
                } else {
                    old_reg.issuers_of(u)
                } by {
                assert(old_topics@.subrange(0, k + 1) =~= old_topics@.subrange(0, k as int).push(t));
                lemma_push_contains(old_topics@.subrange(0, k as int), t, u);
            }
        }
        k = k + 1;
    }
    proof {
        assert(old_topics@.subrange(0, old_topics@.len() as int) =~= old_topics@);
    }
    let mut m: usize = 0;
    while m < claim_topics.len()
        invariant
            old_reg.wf(),
            old_reg.all_known(claim_topics@),
            claim_topics@.no_duplicates(),
            old_topics@ == old_reg.topics_of(trusted_issuer),
            m <= claim_topics.len(),
            registry.claim_topics == old_reg.claim_topics,
            registry.trusted_issuers == old_reg.trusted_issuers,
            registry.issuer_topics@.dom() == old_reg.issuer_topics@.dom(),
            registry.topics_of(trusted_issuer) == claim_topics@,
            forall|i: u64|
                i != trusted_issuer ==> #[trigger] registry.topics_of(i) == old_reg.topics_of(i),
            forall|u: u32| #[trigger]
                registry.topic_issuers@.contains_key(u) == old_reg.topic_issuers@.contains_key(u),
            forall|u: u32| #[trigger]
                registry.issuers_of(u) == if old_topics@.contains(u) && !claim_topics@.contains(u) {
                    without(old_reg.issuers_of(u), trusted_issuer)
                } else if claim_topics@.subrange(0, m as int).contains(u) && !old_topics@.contains(
                    u,
                ) {
                    old_reg.issuers_of(u).push(trusted_issuer)
                } else {
                    old_reg.issuers_of(u)
                },
        decreases claim_topics.len() - m,
    {
        let t = claim_topics[m];
        proof {
            assert(old_reg.topics().contains(claim_topics@[m as int]));
            assert(claim_topics@.contains(t)) by {
                assert(claim_topics@[m as int] == t);
            }
            assert(!claim_topics@.subrange(0, m as int).contains(t)) by {
                if claim_topics@.subrange(0, m as int).contains(t) {
                    let j = choose|j: int| 0 <= j < m && claim_topics@.subrange(0, m as int)[j] == t;
                    assert(claim_topics@[j] == claim_topics@[m as int]);
                }
            }
        }
        let had = vec_contains_u32(&old_topics, t);
        if !had {
            let mut v = registry.read_topic_issuers(t);
            v.push(trusted_issuer);
            registry.put_topic_issuers(t, v);
        }
        proof {
            assert forall|u: u32| #[trigger]
                registry.issuers_of(u) == if old_topics@.contains(u) && !claim_topics@.contains(u) {
                    without(old_reg.issuers_of(u), trusted_issuer)
                } else if claim_topics@.subrange(0, m + 1).contains(u) && !old_topics@.contains(u) {
                    old_reg.issuers_of(u).push(trusted_issuer)
                } else {
                    old_reg.issuers_of(u)
                } by {
                assert(claim_topics@.subrange(0, m + 1) =~= claim_topics@.subrange(0, m as int).push(
                    t,
                ));
                lemma_push_contains(claim_topics@.subrange(0, m as int), t, u);
            }
        }
        m = m + 1;
    }
    proof {
        assert(claim_topics@.subrange(0, claim_topics@.len() as int) =~= claim_topics@);
        assert forall|t: u32| #[trigger]
            registry.issuers_of(t) == relinked(
                old_reg.issuers_of(t),
                trusted_issuer,
                t,
                old_topics@,
                claim_topics@,
            ) by {}
        assert forall|i: u64| #[trigger]
            registry.issuer_topics@.contains_key(i) <==> registry.issuers().contains(i) by {
            assert(registry.issuer_topics@.contains_key(i) == old_reg.issuer_topics@.contains_key(i));
        }
        assert forall|t: u32| #[trigger]
            registry.topic_issuers@.contains_key(t) <==> registry.topics().contains(t) by {}
        assert forall|i: u64, t: u32| #[trigger]
            registry.topics_of(i).contains(t) implies registry.topics().contains(t)
            && registry.issuers().contains(i) by {
            if i == trusted_issuer {
                let j = choose|j: int| 0 <= j < claim_topics@.len() && claim_topics@[j] == t;
                assert(old_reg.topics().contains(claim_topics@[j]));
            } else {
                assert(old_reg.topics_of(i).contains(t));
            }
        }
        assert forall|i: u64| #[trigger] registry.topics_of(i).no_duplicates() by {
            if i != trusted_issuer {
                assert(old_reg.topics_of(i).no_duplicates());
            }
        }
        assert forall|t: u32| #[trigger] registry.issuers_of(t).no_duplicates() by {
            let s0 = old_reg.issuers_of(t);
            assert(s0.no_duplicates());
            lemma_without_contains(s0, trusted_issuer);
            if claim_topics@.contains(t) && !old_topics@.contains(t) {
                assert(!s0.contains(trusted_issuer)) by {
                    if s0.contains(trusted_issuer) {
                        assert(old_reg.topics_of(trusted_issuer).contains(t));
                    }
                }
                assert forall|a: int, b: int|
                    0 <= a < s0.push(trusted_issuer).len() && 0 <= b < s0.push(trusted_issuer).len()
                        && a != b implies s0.push(trusted_issuer)[a] != s0.push(trusted_issuer)[b] by {
                    if a < s0.len() && b < s0.len() {
                    } else if a < s0.len() {
                        assert(s0.contains(s0[a]));
                    } else if b < s0.len() {
                        assert(s0.contains(s0[b]));
                    }
                }
            }
        }
        assert forall|i: u64, t: u32| #[trigger]
            registry.issuers_of(t).contains(i) <==> registry.topics_of(i).contains(t) by {
            let s0 = old_reg.issuers_of(t);
            lemma_without_contains(s0, trusted_issuer);
            lemma_push_contains(s0, trusted_issuer, i);
            assert(s0.contains(i) <==> old_reg.topics_of(i).contains(t));
        }
    }
    Ok(())
}

} // verus!
