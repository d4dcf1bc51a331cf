//! Identity verification for the RWA token: which contracts hold the claim
//! topics and the identities, and the decision whether an account's identity
//! holds a valid claim for every required topic.
//!
//! The claims, the claim ids and the issuers' answers live in other
//! contracts; what they answered comes in as [`TopicEvidence`].
use vstd::prelude::*;

use crate::hash32::Hash32;
use crate::identity_claims::Claim;
use crate::rwa::RWAError;

verus! {

/// The settings of an identity verifier.
#[derive(Clone, Copy, Debug, PartialEq, Eq)]
pub enum IdentityVerifierStorageKey {
    /// The claim topics and issuers contract.
    ClaimTopicsAndIssuers,
    /// The identity registry storage contract.
    IdentityRegistryStorage,
}

/// The contracts an identity verifier relies on, once set.
pub struct VerifierConfig {
    claim_topics_and_issuers: Option<u64>,
    identity_registry_storage: Option<u64>,
}

impl VerifierConfig {
    pub closed spec fn topics_contract(&self) -> Option<u64> {
        self.claim_topics_and_issuers
    }

    pub closed spec fn registry_contract(&self) -> Option<u64> {
        self.identity_registry_storage
    }

    /// Nothing set.
    pub fn new() -> (c: Self)
        ensures
            c.topics_contract() is None,
            c.registry_contract() is None,
    {
        VerifierConfig { claim_topics_and_issuers: None, identity_registry_storage: None }
    }
}

/// The claim topics and issuers contract; `ClaimTopicsAndIssuersNotSet`
/// until set.
pub fn claim_topics_and_issuers(cfg: &VerifierConfig) -> (r: Result<u64, RWAError>)
    ensures
        match cfg.topics_contract() {
            Some(a) => r == Ok::<u64, RWAError>(a),
            None => r == Err::<u64, RWAError>(RWAError::ClaimTopicsAndIssuersNotSet),
        },
{
    match cfg.claim_topics_and_issuers {
        Some(a) => Ok(a),
        None => Err(RWAError::ClaimTopicsAndIssuersNotSet),
    }
}

/// The identity registry storage contract; `IdentityRegistryStorageNotSet`
/// until set.
pub fn identity_registry_storage(cfg: &VerifierConfig) -> (r: Result<u64, RWAError>)
    ensures
        match cfg.registry_contract() {
            Some(a) => r == Ok::<u64, RWAError>(a),
            None => r == Err::<u64, RWAError>(RWAError::IdentityRegistryStorageNotSet),
        },
{
    match cfg.identity_registry_storage {
        Some(a) => Ok(a),
        None => Err(RWAError::IdentityRegistryStorageNotSet),
    }
}

/// Sets the claim topics and issuers contract.
pub fn set_claim_topics_and_issuers(cfg: &mut VerifierConfig, claim_topics_and_issuers: u64)
    ensures
        final(cfg).topics_contract() == Some(claim_topics_and_issuers),
        final(cfg).registry_contract() == old(cfg).registry_contract(),
{
    cfg.claim_topics_and_issuers = Some(claim_topics_and_issuers);
}

/// Sets the identity registry storage contract.
pub fn set_identity_registry_storage(cfg: &mut VerifierConfig, identity_registry_storage: u64)
    ensures
        final(cfg).registry_contract() == Some(identity_registry_storage),
        final(cfg).topics_contract() == old(cfg).topics_contract(),
{
    cfg.identity_registry_storage = Some(identity_registry_storage);
}

/// A claim counts for `claim_topic` from `issuer` when it is on that topic,
/// made by that issuer, and the issuer accepts it.
pub open spec fn claim_counts(claim: Claim, claim_topic: u32, issuer: u64, issuer_accepts: bool) -> bool {
    claim.topic == claim_topic && claim.issuer == issuer && issuer_accepts
}

/// Whether `claim` counts for `claim_topic` from `issuer`; `issuer_accepts`
/// is the issuer's own answer on the claim's signature and data.
pub fn validate_claim(claim: &Claim, claim_topic: u32, issuer: u64, issuer_accepts: bool) -> (r: bool)
    ensures
        r == claim_counts(*claim, claim_topic, issuer, issuer_accepts),
{
    claim.topic == claim_topic && claim.issuer == issuer && issuer_accepts
}

/// What was found for one trusted issuer of a topic: the id under which the
/// issuer's claim on the topic would be filed, the claim filed there (when
/// the identity lists that id), and the issuer's answer on that claim.
pub struct IssuerEvidence {
    pub issuer: u64,
    pub claim_id: Hash32,
    pub claim: Option<Claim>,
    pub issuer_accepts: bool,
}

/// A required topic, the claim ids the identity lists under it, and what
/// was found for each trusted issuer of the topic, in the registry's order.
pub struct TopicEvidence {
    pub topic: u32,
    pub account_claim_ids: Vec<Hash32>,
    pub issuers: Vec<IssuerEvidence>,
}

/// An issuer vouches for the topic when the identity lists the issuer's
/// claim id and the claim filed there counts.
pub open spec fn issuer_vouches(t: TopicEvidence, ev: IssuerEvidence) -> bool {
    &&& t.account_claim_ids@.contains(ev.claim_id)
    &&& match ev.claim {
        Some(c) => claim_counts(c, t.topic, ev.issuer, ev.issuer_accepts),
        None => false,
    }
}

/// A topic is met when it has no trusted issuer, or when one of them
/// vouches for it.
pub open spec fn topic_met(t: TopicEvidence) -> bool {
    t.issuers@.len() == 0 || exists|i: int| 0 <= i < t.issuers@.len() && #[trigger] issuer_vouches(t, t.issuers@[i])
}

fn contains_id(ids: &Vec<Hash32>, id: &Hash32) -> (r: bool)
    ensures
        r == ids@.contains(*id),
{
    let mut i: usize = 0;
    while i < ids.len()
        invariant
            i <= ids.len(),
            forall|j: int| 0 <= j < i ==> ids@[j] != *id,
        decreases ids.len() - i,
    {
        if ids[i].same(id) {
            return true;
        }
        i = i + 1;
    }
    false
}

fn topic_passes(t: &TopicEvidence) -> (r: bool)
    ensures
        r == topic_met(*t),
{
    let n = t.issuers.len();
    if n == 0 {
        return true;
    }
    let mut j: usize = 0;
    while j < n
        invariant
            j <= n,
            n == t.issuers@.len(),
            forall|k: int| 0 <= k < j ==> !#[trigger] issuer_vouches(*t, t.issuers@[k]),
        decreases n - j,
    {
        let ev = &t.issuers[j];
        if contains_id(&t.account_claim_ids, &ev.claim_id) {
            match &ev.claim {
                Some(c) => {
                    if validate_claim(c, t.topic, ev.issuer, ev.issuer_accepts) {
                        assert(issuer_vouches(*t, t.issuers@[j as int]));
                        return true;
                    }
                },
                None => {},
            }
        }
        j = j + 1;
    }
    false
}

/// Checks that an account's identity meets every required topic.
///
/// Fails with `IdentityRegistryStorageNotSet` or
/// `ClaimTopicsAndIssuersNotSet` when a contract it relies on is not set
/// (in that order), and with `IdentityVerificationFailed` when a topic
/// that has trusted issuers has none that vouches for it.
pub fn verify_identity(cfg: &VerifierConfig, evidence: &Vec<TopicEvidence>) -> (r: Result<(), RWAError>)
    ensures
        cfg.registry_contract() is None ==> r == Err::<(), RWAError>(RWAError::IdentityRegistryStorageNotSet),
        cfg.registry_contract() is Some && cfg.topics_contract() is None ==> r == Err::<(), RWAError>(
            RWAError::ClaimTopicsAndIssuersNotSet,
        ),
        cfg.registry_contract() is Some && cfg.topics_contract() is Some ==> (r is Ok <==> forall|i: int|
            0 <= i < evidence@.len() ==> #[trigger] topic_met(evidence@[i])),
        cfg.registry_contract() is Some && cfg.topics_contract() is Some && r is Err ==> r == Err::<
            (),
            RWAError,
        >(RWAError::IdentityVerificationFailed),
        cfg.registry_contract() is Some && cfg.topics_contract() is Some ==> (r is Ok <==> forall|k: int|
            0 <= k < evidence@.len() ==> {
                let t = #[trigger] evidence@[k];
                t.issuers@.len() == 0 || exists|i: int|
                    0 <= i < t.issuers@.len() && t.account_claim_ids@.contains(
                        (#[trigger] t.issuers@[i]).claim_id,
                    ) && t.issuers@[i].claim is Some && t.issuers@[i].claim->0.topic == t.topic
                        && t.issuers@[i].claim->0.issuer == t.issuers@[i].issuer
                        && t.issuers@[i].issuer_accepts
            }),
{
    identity_registry_storage(cfg)?;
    claim_topics_and_issuers(cfg)?;
    let mut i: usize = 0;
    while i < evidence.len()
        invariant
            i <= evidence.len(),
            cfg.registry_contract() is Some,
            cfg.topics_contract() is Some,
            forall|k: int| 0 <= k < i ==> #[trigger] topic_met(evidence@[k]),
        decreases evidence.len() - i,
    {
        if !topic_passes(&evidence[i]) {
            proof {
                lemma_topic_met_means(evidence@[i as int]);
            }
            return Err(RWAError::IdentityVerificationFailed);
        }
        i = i + 1;
    }
    proof {
        assert forall|k: int| 0 <= k < evidence@.len() implies {
            let t = #[trigger] evidence@[k];
            t.issuers@.len() == 0 || exists|i: int|
                0 <= i < t.issuers@.len() && t.account_claim_ids@.contains(
                    (#[trigger] t.issuers@[i]).claim_id,
                ) && t.issuers@[i].claim is Some && t.issuers@[i].claim->0.topic == t.topic
                    && t.issuers@[i].claim->0.issuer == t.issuers@[i].issuer
                    && t.issuers@[i].issuer_accepts
        } by {
            assert(topic_met(evidence@[k]));
            lemma_topic_met_means(evidence@[k]);
        }
    }
    Ok(())
}

/// A topic with trusted issuers is met exactly when some trusted issuer, at
/// any position of the list, has its claim id listed by the identity and the
/// claim filed there is on the topic, by that issuer, and accepted by it.
pub proof fn lemma_topic_met_means(t: TopicEvidence)
    ensures
        topic_met(t) <==> (t.issuers@.len() == 0 || exists|i: int|
            0 <= i < t.issuers@.len() && t.account_claim_ids@.contains((#[trigger] t.issuers@[i]).claim_id)
                && t.issuers@[i].claim is Some && t.issuers@[i].claim->0.topic == t.topic
                && t.issuers@[i].claim->0.issuer == t.issuers@[i].issuer && t.issuers@[i].issuer_accepts),
{
    if topic_met(t) && t.issuers@.len() > 0 {
        let i = choose|i: int| 0 <= i < t.issuers@.len() && #[trigger] issuer_vouches(t, t.issuers@[i]);
        assert(t.account_claim_ids@.contains(t.issuers@[i].claim_id));
    }
    if t.issuers@.len() > 0 && exists|i: int|
        0 <= i < t.issuers@.len() && t.account_claim_ids@.contains((#[trigger] t.issuers@[i]).claim_id)
            && t.issuers@[i].claim is Some && t.issuers@[i].claim->0.topic == t.topic
            && t.issuers@[i].claim->0.issuer == t.issuers@[i].issuer && t.issuers@[i].issuer_accepts {
        let i = choose|i: int|
            0 <= i < t.issuers@.len() && t.account_claim_ids@.contains((#[trigger] t.issuers@[i]).claim_id)
                && t.issuers@[i].claim is Some && t.issuers@[i].claim->0.topic == t.topic
                && t.issuers@[i].claim->0.issuer == t.issuers@[i].issuer && t.issuers@[i].issuer_accepts;
        assert(issuer_vouches(t, t.issuers@[i]));
    }
}

/// Which trusted issuers vouch does not depend on their order: two pieces of
/// evidence for the same topic and listed claim ids, whose issuer lists hold
/// the same entries, meet the topic alike.
pub proof fn lemma_issuer_order_irrelevant(t1: TopicEvidence, t2: TopicEvidence)
    requires
        t1.topic == t2.topic,
        t1.account_claim_ids@ == t2.account_claim_ids@,
        t1.issuers@.len() == t2.issuers@.len(),
        forall|i: int|
            0 <= i < t1.issuers@.len() ==> exists|j: int|
                0 <= j < t2.issuers@.len() && #[trigger] t1.issuers@[i] == #[trigger] t2.issuers@[j],
        forall|j: int|
            0 <= j < t2.issuers@.len() ==> exists|i: int|
                0 <= i < t1.issuers@.len() && #[trigger] t1.issuers@[i] == #[trigger] t2.issuers@[j],
    ensures
        topic_met(t1) == topic_met(t2),
{
    lemma_topic_met_means(t1);
    lemma_topic_met_means(t2);
    if topic_met(t1) && t1.issuers@.len() > 0 {
        let i = choose|i: int| 0 <= i < t1.issuers@.len() && #[trigger] issuer_vouches(t1, t1.issuers@[i]);
        let j = choose|j: int| 0 <= j < t2.issuers@.len() && t1.issuers@[i] == t2.issuers@[j];
        assert(issuer_vouches(t2, t2.issuers@[j]));
    }
    if topic_met(t2) && t2.issuers@.len() > 0 {
        let j = choose|j: int| 0 <= j < t2.issuers@.len() && #[trigger] issuer_vouches(t2, t2.issuers@[j]);
        let i = choose|i: int| 0 <= i < t1.issuers@.len() && t1.issuers@[i] == t2.issuers@[j];
        assert(issuer_vouches(t1, t1.issuers@[i]));
    }
}

/// One vouching issuer is enough, wherever it stands: with issuer `i`'s
/// claim id listed and its claim on the topic, by it and accepted, the topic
/// is met whatever the other issuers have.
pub proof fn lemma_one_vouching_issuer_suffices(t: TopicEvidence, i: int)
    requires
        0 <= i < t.issuers@.len(),
        t.account_claim_ids@.contains(t.issuers@[i].claim_id),
        t.issuers@[i].claim is Some,
        t.issuers@[i].claim->0.topic == t.topic,
        t.issuers@[i].claim->0.issuer == t.issuers@[i].issuer,
        t.issuers@[i].issuer_accepts,
    ensures
        topic_met(t),
{
    lemma_topic_met_means(t);
}

/// A stand-in identity verifier that answers from its settings: it accepts
/// every account unless told otherwise, and names the recovery target it was
/// given, if any.
pub struct MockIdentityVerifier {
    pub id_ok: Option<bool>,
    pub recovery: Option<u64>,
}

impl MockIdentityVerifier {
    /// Accepts the account unless `id_ok` was set to `false`, in which case
    /// it fails with `IdentityVerificationFailed`.
    pub fn verify_identity(&self, account: u64) -> (r: Result<(), RWAError>)
        ensures
            self.id_ok == Some(false) ==> r == Err::<(), RWAError>(RWAError::IdentityVerificationFailed),
            self.id_ok != Some(false) ==> r is Ok,
    {
        match self.id_ok {
            Some(false) => Err(RWAError::IdentityVerificationFailed),
            _ => Ok(()),
        }
    }

    /// The recovery target it was given, whatever the account.
    pub fn recovery_target(&self, account: u64) -> (r: Option<u64>)
        ensures
            r == self.recovery,
    {
        self.recovery
    }
}

} // verus!
