use stellar_tokens::hash32::Hash32;
use stellar_tokens::identity_claims::Claim;
use stellar_tokens::identity_verification::{
    claim_topics_and_issuers, identity_registry_storage, set_claim_topics_and_issuers,
    set_identity_registry_storage, validate_claim, verify_identity, IssuerEvidence, MockIdentityVerifier,
    TopicEvidence, VerifierConfig,
};
use stellar_tokens::rwa::RWAError;

const ISSUER: u64 = 50;
const ISSUER2: u64 = 51;
const ISSUER3: u64 = 52;
const CTI: u64 = 900;
const IRS: u64 = 901;

fn claim_id(issuer: u64, topic: u32) -> Hash32 {
    Hash32 { w0: issuer, w1: topic as u64, w2: 0x5eed, w3: issuer ^ ((topic as u64) << 32) }
}

fn construct_claim(issuer: u64, topic: u32) -> Claim {
    Claim {
        topic,
        scheme: 1,
        issuer,
        signature: vec![1, 2, 3, 4],
        data: vec![5, 6, 7, 8],
        uri: b"https://example.com".to_vec(),
    }
}

fn configured() -> VerifierConfig {
    let mut cfg = VerifierConfig::new();
    set_identity_registry_storage(&mut cfg, IRS);
    set_claim_topics_and_issuers(&mut cfg, CTI);
    cfg
}

/// What the registry and the identity answer for topic 1: the trusted
/// issuers in order, the claim ids the identity lists, the claim filed
/// under each issuer's id (when listed), and each issuer's answer.
fn topic_one(issuers: &[(u64, Option<Claim>, bool)], listed: Vec<Hash32>) -> Vec<TopicEvidence> {
    let issuers = issuers
        .iter()
        .map(|(issuer, claim, accepts)| IssuerEvidence {
            issuer: *issuer,
            claim_id: claim_id(*issuer, 1),
            claim: claim.as_ref().map(|c| construct_claim(c.issuer, c.topic)),
            issuer_accepts: *accepts,
        })
        .collect();
    vec![TopicEvidence { topic: 1, account_claim_ids: listed, issuers }]
}

#[test]
fn set_and_get_claim_topics_and_issuers() {
    let mut cfg = VerifierConfig::new();
    set_claim_topics_and_issuers(&mut cfg, CTI);
    assert_eq!(claim_topics_and_issuers(&cfg), Ok(CTI));
}

#[test]
fn get_unset_claim_topics_and_issuers_fails() {
    let cfg = VerifierConfig::new();
    assert_eq!(claim_topics_and_issuers(&cfg), Err(RWAError::ClaimTopicsAndIssuersNotSet));
}

#[test]
fn set_and_get_identity_registry_storage() {
    let mut cfg = VerifierConfig::new();
    set_identity_registry_storage(&mut cfg, IRS);
    assert_eq!(identity_registry_storage(&cfg), Ok(IRS));
}

#[test]
fn get_unset_identity_registry_storage_fails() {
    let cfg = VerifierConfig::new();
    assert_eq!(identity_registry_storage(&cfg), Err(RWAError::IdentityRegistryStorageNotSet));
}

#[test]
fn validate_claim_success() {
    let claim = construct_claim(ISSUER, 1);
    assert!(validate_claim(&claim, 1, ISSUER, true));
}

#[test]
fn validate_claim_wrong_topic() {
    let claim = construct_claim(ISSUER, 1);
    assert!(!validate_claim(&claim, 2, ISSUER, true));
}

#[test]
fn validate_claim_wrong_issuer() {
    let claim = construct_claim(ISSUER, 1);
    assert!(!validate_claim(&claim, 1, ISSUER2, true));
}

#[test]
fn validate_claim_invalid_signature() {
    let claim = construct_claim(ISSUER, 1);
    assert!(!validate_claim(&claim, 1, ISSUER, false));
}

#[test]
fn verify_identity_success() {
    let cfg = configured();
    let evidence = topic_one(&[(ISSUER, Some(construct_claim(ISSUER, 1)), true)], vec![claim_id(ISSUER, 1)]);
    assert_eq!(verify_identity(&cfg, &evidence), Ok(()));
}

#[test]
fn verify_identity_success_with_multiple_issuers() {
    let cfg = configured();
    // Both ids are listed and both claims name the second issuer; the first
    // issuer refuses, the second accepts.
    let evidence = topic_one(
        &[(ISSUER, Some(construct_claim(ISSUER2, 1)), false), (ISSUER2, Some(construct_claim(ISSUER2, 1)), true)],
        vec![claim_id(ISSUER, 1), claim_id(ISSUER2, 1)],
    );
    assert_eq!(verify_identity(&cfg, &evidence), Ok(()));
}

#[test]
fn verify_identity_fails_all_issuers_invalid() {
    let cfg = configured();
    let evidence = topic_one(
        &[(ISSUER, Some(construct_claim(ISSUER2, 1)), false), (ISSUER2, Some(construct_claim(ISSUER2, 1)), false)],
        vec![claim_id(ISSUER, 1), claim_id(ISSUER2, 1)],
    );
    assert_eq!(verify_identity(&cfg, &evidence), Err(RWAError::IdentityVerificationFailed));
}

#[test]
fn verify_identity_fails_no_matched_ids() {
    let cfg = configured();
    let evidence = topic_one(&[(ISSUER, None, true), (ISSUER2, None, true)], vec![claim_id(ISSUER3, 1)]);
    assert_eq!(verify_identity(&cfg, &evidence), Err(RWAError::IdentityVerificationFailed));
}

#[test]
fn verify_identity_needs_both_contracts_in_order() {
    let evidence = topic_one(&[(ISSUER, Some(construct_claim(ISSUER, 1)), true)], vec![claim_id(ISSUER, 1)]);
    let mut cfg = VerifierConfig::new();
    set_claim_topics_and_issuers(&mut cfg, CTI);
    assert_eq!(verify_identity(&cfg, &evidence), Err(RWAError::IdentityRegistryStorageNotSet));
    let mut cfg = VerifierConfig::new();
    set_identity_registry_storage(&mut cfg, IRS);
    assert_eq!(verify_identity(&cfg, &evidence), Err(RWAError::ClaimTopicsAndIssuersNotSet));
}

#[test]
fn a_topic_without_trusted_issuers_is_met() {
    let cfg = configured();
    let evidence = vec![TopicEvidence { topic: 7, account_claim_ids: vec![], issuers: vec![] }];
    assert_eq!(verify_identity(&cfg, &evidence), Ok(()));
    assert_eq!(verify_identity(&cfg, &vec![]), Ok(()));
}

#[test]
fn a_listed_claim_from_another_issuer_does_not_count() {
    let cfg = configured();
    // The id of the trusted issuer is listed, but the claim filed there was
    // made by someone else.
    let evidence = topic_one(&[(ISSUER, Some(construct_claim(ISSUER3, 1)), true)], vec![claim_id(ISSUER, 1)]);
    assert_eq!(verify_identity(&cfg, &evidence), Err(RWAError::IdentityVerificationFailed));
}

#[test]
fn mock_identity_verifier_answers_from_its_settings() {
    let default = MockIdentityVerifier { id_ok: None, recovery: None };
    assert_eq!(default.verify_identity(1), Ok(()));
    assert_eq!(default.recovery_target(1), None);
    let refusing = MockIdentityVerifier { id_ok: Some(false), recovery: Some(9) };
    assert_eq!(refusing.verify_identity(1), Err(RWAError::IdentityVerificationFailed));
    assert_eq!(refusing.recovery_target(1), Some(9));
}
