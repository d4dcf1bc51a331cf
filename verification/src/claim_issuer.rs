//! What a claim issuer reports when it refuses to vouch for a claim, and the
//! limits on its signing keys.
use vstd::prelude::*;

verus! {

/// Errors of a claim issuer.
#[derive(Clone, Copy, Debug, PartialEq, Eq)]
pub enum ClaimIssuerError {
    SigDataMismatch,
    KeyIsEmpty,
    KeyAlreadyAllowed,
    KeyNotFound,
    NotAllowed,
    LimitExceeded,
    NoKeysForTopic,
    InvalidClaimDataExpiration,
    Secp256k1RecoveryFailed,
    MathOverflow,
}

/// How far a claim entry's lifetime is extended when it is read.
pub const CLAIMS_EXTEND_AMOUNT: u32 = 518400;

/// The remaining lifetime under which a read extends a claim entry.
pub const CLAIMS_TTL_THRESHOLD: u32 = 501120;

/// How far a key entry's lifetime is extended when it is read.
pub const KEYS_EXTEND_AMOUNT: u32 = 518400;

/// The remaining lifetime under which a read extends a key entry.
pub const KEYS_TTL_THRESHOLD: u32 = 501120;

/// How many signing keys one claim topic may have.
pub const MAX_KEYS_PER_TOPIC: u32 = 50;

/// How many registries one signing key may serve.
pub const MAX_REGISTRIES_PER_KEY: u32 = 20;

} // verus!
