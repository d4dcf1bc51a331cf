//! A registry of DKIM public key hashes: which key hashes are trusted for
//! which email domain, and which key hashes are revoked for every domain.
//! Domains and keys are held as their 32-byte hashes, whatever hash
//! function made them.
use vstd::prelude::*;

use crate::hash32::Hash32;

verus! {

/// Errors of the DKIM registry.
#[derive(Clone, Copy, Debug, PartialEq, Eq)]
pub enum DKIMRegistryError {
    /// The key hash is revoked and cannot be registered again.
    KeyHashRevoked,
    /// The key hash is already registered for the domain.
    KeyHashAlreadyRegistered,
}

/// One ledger day.
pub const DAY_IN_LEDGERS: u32 = 17280;

/// How far a registry entry's lifetime is extended when it is read.
pub const DKIM_EXTEND_AMOUNT: u32 = 518400;

/// The remaining lifetime under which a read extends an entry.
pub const DKIM_TTL_THRESHOLD: u32 = 501120;

/// A domain hash with one of its public key hashes.
#[derive(Clone, Copy, Debug, PartialEq, Eq, Structural)]
pub struct DKIMKeyEntry {
    pub domain_hash: Hash32,
    pub public_key_hash: Hash32,
}

/// Where the registry keeps what it knows.
#[derive(Clone, Copy, Debug, PartialEq, Eq, Structural)]
pub enum DKIMRegistryStorageKey {
    /// A key hash registered for a domain.
    DomainPublicKey(DKIMKeyEntry),
    /// A key hash revoked for every domain.
    RevokedKeyHash(Hash32),
}

/// The registered (domain, key) pairs and the revoked keys.
pub struct DkimRegistry {
    registered: Vec<DKIMKeyEntry>,
    revoked: Vec<Hash32>,
}

impl DkimRegistry {
    /// Whether `public_key_hash` is registered for `domain_hash`.
    pub closed spec fn is_registered(&self, domain_hash: Hash32, public_key_hash: Hash32) -> bool {
        self.registered@.contains(DKIMKeyEntry { domain_hash, public_key_hash })
    }

    /// Whether `public_key_hash` is revoked.
    pub closed spec fn is_revoked(&self, public_key_hash: Hash32) -> bool {
        self.revoked@.contains(public_key_hash)
    }

    /// The same registrations and revocations.
    pub open spec fn same_as(&self, other: &DkimRegistry) -> bool {
        &&& forall|d: Hash32, k: Hash32| #[trigger] self.is_registered(d, k) == other.is_registered(d, k)
        &&& forall|k: Hash32| #[trigger] self.is_revoked(k) == other.is_revoked(k)
    }

    /// Nothing registered, nothing revoked.
    pub fn new() -> (r: Self)
        ensures
            forall|d: Hash32, k: Hash32| !#[trigger] r.is_registered(d, k),
            forall|k: Hash32| !#[trigger] r.is_revoked(k),
    {
        DkimRegistry { registered: Vec::new(), revoked: Vec::new() }
    }
}

/// Whether `public_key_hash` counts for `domain_hash`: registered for it and
/// not revoked.
pub open spec fn key_valid(reg: &DkimRegistry, domain_hash: Hash32, public_key_hash: Hash32) -> bool {
    reg.is_registered(domain_hash, public_key_hash) && !reg.is_revoked(public_key_hash)
}

/// The error that registering `public_key_hash` for `domain_hash` gives, if
/// any.
pub open spec fn register_error(reg: &DkimRegistry, domain_hash: Hash32, public_key_hash: Hash32) -> Option<
    DKIMRegistryError,
> {
    if reg.is_revoked(public_key_hash) {
        Some(DKIMRegistryError::KeyHashRevoked)
    } else if reg.is_registered(domain_hash, public_key_hash) {
        Some(DKIMRegistryError::KeyHashAlreadyRegistered)
    } else {
        None
    }
}

/// The error that the `i`-th key of a batch gives once the keys before it
/// are registered, if any.
pub open spec fn batch_entry_error(reg: &DkimRegistry, domain_hash: Hash32, keys: Seq<Hash32>, i: int) -> Option<
    DKIMRegistryError,
> {
    if reg.is_revoked(keys[i]) {
        Some(DKIMRegistryError::KeyHashRevoked)
    } else if reg.is_registered(domain_hash, keys[i]) || keys.take(i).contains(keys[i]) {
        Some(DKIMRegistryError::KeyHashAlreadyRegistered)
    } else {
        None
    }
}

fn entry_listed(entries: &Vec<DKIMKeyEntry>, entry: DKIMKeyEntry) -> (r: bool)
    ensures
        r == entries@.contains(entry),
{
    let mut i: usize = 0;
    while i < entries.len()
        invariant
            i <= entries.len(),
            forall|j: int| 0 <= j < i ==> entries@[j] != entry,
        decreases entries.len() - i,
    {
        if entries[i] == entry {
            return true;
        }
        i = i + 1;
    }
    false
}

fn hash_listed(hashes: &Vec<Hash32>, h: Hash32, upto: usize) -> (r: bool)
    requires
        upto <= hashes.len(),
    ensures
        r == hashes@.take(upto as int).contains(h),
{
    let mut i: usize = 0;
    while i < upto
        invariant
            i <= upto <= hashes.len(),
            forall|j: int| 0 <= j < i ==> hashes@[j] != h,
        decreases upto - i,
    {
        if hashes[i] == h {
            assert(hashes@.take(upto as int)[i as int] == h);
            return true;
        }
        i = i + 1;
    }
    proof {
        assert forall|j: int| 0 <= j < upto implies hashes@.take(upto as int)[j] != h by {}
    }
    false
}

/// Whether `public_key_hash` is revoked.
pub fn is_key_hash_revoked(reg: &DkimRegistry, public_key_hash: &Hash32) -> (r: bool)
    ensures
        r == reg.is_revoked(*public_key_hash),
{
    let r = hash_listed(&reg.revoked, *public_key_hash, reg.revoked.len());
    assert(reg.revoked@.take(reg.revoked@.len() as int) == reg.revoked@);
    r
}

/// Whether `public_key_hash` is registered for `domain_hash` and not
/// revoked.
pub fn is_key_hash_valid(reg: &DkimRegistry, domain_hash: &Hash32, public_key_hash: &Hash32) -> (r: bool)
    ensures
        r == key_valid(reg, *domain_hash, *public_key_hash),
{
    if is_key_hash_revoked(reg, public_key_hash) {
        return false;
    }
    entry_listed(
        &reg.registered,
        DKIMKeyEntry { domain_hash: *domain_hash, public_key_hash: *public_key_hash },
    )
}

/// Registers `public_key_hash` for `domain_hash`.
///
/// Fails, with nothing changed, with `KeyHashRevoked` when the key is
/// revoked and with `KeyHashAlreadyRegistered` when it is already
/// registered for the domain.
pub fn set_dkim_public_key_hash(reg: &mut DkimRegistry, domain_hash: &Hash32, public_key_hash: &Hash32) -> (r:
    Result<(), DKIMRegistryError>)
    ensures
        match register_error(old(reg), *domain_hash, *public_key_hash) {
            Some(e) => r == Err::<(), DKIMRegistryError>(e) && final(reg).same_as(old(reg)),
            None => {
                &&& r is Ok
                &&& forall|d: Hash32, k: Hash32| #[trigger]
                    final(reg).is_registered(d, k) == (old(reg).is_registered(d, k) || (d
                        == *domain_hash && k == *public_key_hash))
                &&& forall|k: Hash32| #[trigger] final(reg).is_revoked(k) == old(reg).is_revoked(k)
            },
        },
{
    if is_key_hash_revoked(reg, public_key_hash) {
        return Err(DKIMRegistryError::KeyHashRevoked);
    }
    let entry = DKIMKeyEntry { domain_hash: *domain_hash, public_key_hash: *public_key_hash };
    if entry_listed(&reg.registered, entry) {
        return Err(DKIMRegistryError::KeyHashAlreadyRegistered);
    }
    let ghost before = reg.registered@;
    reg.registered.push(entry);
    proof {
        assert forall|d: Hash32, k: Hash32| #[trigger]
            reg.is_registered(d, k) == (old(reg).is_registered(d, k) || (d == *domain_hash && k
                == *public_key_hash)) by {
            let e = DKIMKeyEntry { domain_hash: d, public_key_hash: k };
            if before.contains(e) {
                let i = choose|i: int| 0 <= i < before.len() && before[i] == e;
                assert(reg.registered@[i] == e);
            }
            if reg.registered@.contains(e) && e != entry {
                let i = choose|i: int| 0 <= i < reg.registered@.len() && reg.registered@[i] == e;
                assert(i < before.len());
                assert(before[i] == e);
            }
            if e == entry {
                assert(reg.registered@[before.len() as int] == e);
            }
        }
    }
    Ok(())
}

/// Registers every key of `public_key_hashes` for `domain_hash`, in order,
/// as one change: when a key is revoked, or already registered for the
/// domain (earlier in the batch too), nothing is registered and the first
/// such key's error is returned.
pub fn set_dkim_public_key_hashes(
    reg: &mut DkimRegistry,
    domain_hash: &Hash32,
    public_key_hashes: &Vec<Hash32>,
) -> (r: Result<(), DKIMRegistryError>)
    ensures
        match r {
            Ok(()) => {
                &&& forall|i: int|
                    0 <= i < public_key_hashes@.len() ==> #[trigger] batch_entry_error(
                        old(reg),
                        *domain_hash,
                        public_key_hashes@,
                        i,
                    ) is None
                &&& forall|d: Hash32, k: Hash32| #[trigger]
                    final(reg).is_registered(d, k) == (old(reg).is_registered(d, k) || (d
                        == *domain_hash && public_key_hashes@.contains(k)))
                &&& forall|k: Hash32| #[trigger] final(reg).is_revoked(k) == old(reg).is_revoked(k)
            },
            Err(e) => {
                &&& exists|i: int|
                    0 <= i < public_key_hashes@.len() && #[trigger] batch_entry_error(
                        old(reg),
                        *domain_hash,
                        public_key_hashes@,
                        i,
                    ) == Some(e) && forall|j: int|
                        0 <= j < i ==> #[trigger] batch_entry_error(
                            old(reg),
                            *domain_hash,
                            public_key_hashes@,
                            j,
                        ) is None
                &&& final(reg).same_as(old(reg))
            },
        },
{
    let n = public_key_hashes.len();
    let mut i: usize = 0;
    while i < n
        invariant
            i <= n == public_key_hashes@.len(),
            forall|j: int|
                0 <= j < i ==> #[trigger] batch_entry_error(reg, *domain_hash, public_key_hashes@, j)
                    is None,
        decreases n - i,
    {
        let k = public_key_hashes[i];
        if is_key_hash_revoked(reg, &k) {
            assert(batch_entry_error(reg, *domain_hash, public_key_hashes@, i as int) is Some);
            return Err(DKIMRegistryError::KeyHashRevoked);
        }
        let entry = DKIMKeyEntry { domain_hash: *domain_hash, public_key_hash: k };
        if entry_listed(&reg.registered, entry) || hash_listed(public_key_hashes, k, i) {
            assert(batch_entry_error(reg, *domain_hash, public_key_hashes@, i as int) is Some);
            return Err(DKIMRegistryError::KeyHashAlreadyRegistered);
        }
        i = i + 1;
    }
    let ghost start = *reg;
    let mut i: usize = 0;
    while i < n
        invariant
            i <= n == public_key_hashes@.len(),
            forall|j: int|
                0 <= j < n ==> #[trigger] batch_entry_error(&start, *domain_hash, public_key_hashes@, j)
                    is None,
            forall|d: Hash32, k: Hash32| #[trigger]
                reg.is_registered(d, k) == (start.is_registered(d, k) || (d == *domain_hash
                    && public_key_hashes@.take(i as int).contains(k))),
            forall|k: Hash32| #[trigger] reg.is_revoked(k) == start.is_revoked(k),
        decreases n - i,
    {
        let k = public_key_hashes[i];
        proof {
            assert(batch_entry_error(&start, *domain_hash, public_key_hashes@, i as int) is None);
            assert(!public_key_hashes@.take(i as int).contains(k));
        }
        let added = set_dkim_public_key_hash(reg, domain_hash, &k);
        assert(added is Ok);
        proof {
            assert forall|d: Hash32, h: Hash32| #[trigger]
                reg.is_registered(d, h) == (start.is_registered(d, h) || (d == *domain_hash
                    && public_key_hashes@.take(i + 1).contains(h))) by {
                let t0 = public_key_hashes@.take(i as int);
                let t1 = public_key_hashes@.take(i + 1);
                assert(t1 == t0.push(k));
                if t0.contains(h) {
                    let m = choose|m: int| 0 <= m < t0.len() && t0[m] == h;
                    assert(t1[m] == h);
                }
                if t1.contains(h) && h != k {
                    let m = choose|m: int| 0 <= m < t1.len() && t1[m] == h;
                    assert(m < t0.len());
                    assert(t0[m] == h);
                }
                if h == k {
                    assert(t1[i as int] == h);
                }
            }
        }
        i = i + 1;
    }
    proof {
        assert(public_key_hashes@.take(n as int) == public_key_hashes@);
    }
    Ok(())
}

/// Revokes `public_key_hash` for every domain; revoking it again changes
/// nothing.
pub fn revoke_dkim_public_key_hash(reg: &mut DkimRegistry, public_key_hash: &Hash32)
    ensures
        forall|k: Hash32| #[trigger]
            final(reg).is_revoked(k) == (old(reg).is_revoked(k) || k == *public_key_hash),
        forall|d: Hash32, k: Hash32| #[trigger] final(reg).is_registered(d, k) == old(reg).is_registered(d, k),
{
    if is_key_hash_revoked(reg, public_key_hash) {
        return;
    }
    let ghost before = reg.revoked@;
    reg.revoked.push(*public_key_hash);
    proof {
        assert forall|k: Hash32| #[trigger]
            reg.is_revoked(k) == (old(reg).is_revoked(k) || k == *public_key_hash) by {
            if before.contains(k) {
                let i = choose|i: int| 0 <= i < before.len() && before[i] == k;
                assert(reg.revoked@[i] == k);
            }
            if reg.revoked@.contains(k) && k != *public_key_hash {
                let i = choose|i: int| 0 <= i < reg.revoked@.len() && reg.revoked@[i] == k;
                assert(before[i] == k);
            }
            if k == *public_key_hash {
                assert(reg.revoked@[before.len() as int] == k);
            }
        }
    }
}

/// A revoked key counts for no domain and cannot be registered for any.
pub proof fn lemma_revoked_key_is_dead(reg: &DkimRegistry, domain_hash: Hash32, public_key_hash: Hash32)
    requires
        reg.is_revoked(public_key_hash),
    ensures
        !key_valid(reg, domain_hash, public_key_hash),
        register_error(reg, domain_hash, public_key_hash) == Some(DKIMRegistryError::KeyHashRevoked),
{
}

} // verus!
