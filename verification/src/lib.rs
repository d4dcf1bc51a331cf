use vstd::prelude::*;

pub mod math;
pub mod sums;
pub mod fungible;
pub mod vault;
pub mod hash32;
pub mod doc_manager;
pub mod seqs;
pub mod claim_topics_and_issuers;
pub mod identity_registry_storage;
pub mod identity_claims;
pub mod compliance;
pub mod rwa;
pub mod identity_verification;
pub mod dkim_registry;
pub mod allowlist;
pub mod votes;
pub mod fungible_votes;
pub mod non_fungible;
pub mod non_fungible_votes;
pub mod token_binder;
pub mod claim_issuer;

verus! {

} // verus!
