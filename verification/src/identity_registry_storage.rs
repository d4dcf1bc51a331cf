//! The identity registry: which identity contract stands for which account,
//! the account's identity profile (its type and country relations), and which
//! lost accounts were recovered to which new ones.
use std::collections::HashMap;
use vstd::prelude::*;

verus! {

broadcast use vstd::std_specs::hash::group_hash_axioms;

/// Errors of the identity registry.
#[derive(Clone, Copy, Debug, PartialEq, Eq)]
pub enum IRSError {
    IdentityOverwrite,
    IdentityNotFound,
    CountryDataNotFound,
    EmptyCountryList,
    MaxCountryEntriesReached,
    AccountRecovered,
    MetadataTooManyEntries,
    MetadataStringTooLong,
}

/// The most country entries of one identity.
pub const MAX_COUNTRY_ENTRIES: u32 = 15;

/// The most metadata entries of one country entry.
pub const MAX_METADATA_ENTRIES: u32 = 10;

/// The longest metadata value, in bytes.
pub const MAX_METADATA_STRING_LEN: u32 = 100;

/// What happened to a country entry.
#[derive(Clone, Copy, Debug, PartialEq, Eq)]
pub enum CountryDataEvent {
    Added,
    Removed,
    Modified,
}

/// Whether an identity is a person or an organization.
#[derive(Clone, Copy, Debug, PartialEq, Eq)]
pub enum IdentityType {
    Individual,
    Organization,
}

/// How a person relates to a country (ISO 3166-1 numeric code); a custom
/// relation carries its name.
#[derive(Debug)]
pub enum IndividualCountryRelation {
    Residence(u32),
    Citizenship(u32),
    SourceOfFunds(u32),
    TaxResidency(u32),
    Custom(Vec<u8>, u32),
}

/// How an organization relates to a country; a custom relation carries its
/// name.
#[derive(Debug)]
pub enum OrganizationCountryRelation {
    Incorporation(u32),
    OperatingJurisdiction(u32),
    TaxJurisdiction(u32),
    SourceOfFunds(u32),
    Custom(Vec<u8>, u32),
}

/// A country relation of either kind of identity.
#[derive(Debug)]
pub enum CountryRelation {
    Individual(IndividualCountryRelation),
    Organization(OrganizationCountryRelation),
}

/// One country entry: the relation and optional metadata, a map from names
/// to values held as (name, value) pairs with distinct names
/// ([`metadata_keys_distinct`]).
#[derive(Debug)]
pub struct CountryData {
    pub country: CountryRelation,
    pub metadata: Option<Vec<(Vec<u8>, Vec<u8>)>>,
}

/// An identity's type and its country entries.
#[derive(Debug)]
pub struct IdentityProfile {
    pub identity_type: IdentityType,
    pub countries: Vec<CountryData>,
}

/// The country code that a relation names.
pub open spec fn spec_country_code(relation: &CountryRelation) -> u32 {
    match relation {
        CountryRelation::Individual(rel) => match rel {
            IndividualCountryRelation::Residence(c) => *c,
            IndividualCountryRelation::Citizenship(c) => *c,
            IndividualCountryRelation::SourceOfFunds(c) => *c,
            IndividualCountryRelation::TaxResidency(c) => *c,
            IndividualCountryRelation::Custom(_, c) => *c,
        },
        CountryRelation::Organization(rel) => match rel {
            OrganizationCountryRelation::Incorporation(c) => *c,
            OrganizationCountryRelation::OperatingJurisdiction(c) => *c,
            OrganizationCountryRelation::TaxJurisdiction(c) => *c,
            OrganizationCountryRelation::SourceOfFunds(c) => *c,
            OrganizationCountryRelation::Custom(_, c) => *c,
        },
    }
}

/// The country code that a relation names.
pub fn country_code(relation: &CountryRelation) -> (r: u32)
    ensures
        r == spec_country_code(relation),
{
    match relation {
        CountryRelation::Individual(rel) => match rel {
            IndividualCountryRelation::Residence(c) => *c,
            IndividualCountryRelation::Citizenship(c) => *c,
            IndividualCountryRelation::SourceOfFunds(c) => *c,
            IndividualCountryRelation::TaxResidency(c) => *c,
            IndividualCountryRelation::Custom(_, c) => *c,
        },
        CountryRelation::Organization(rel) => match rel {
            OrganizationCountryRelation::Incorporation(c) => *c,
            OrganizationCountryRelation::OperatingJurisdiction(c) => *c,
            OrganizationCountryRelation::TaxJurisdiction(c) => *c,
            OrganizationCountryRelation::SourceOfFunds(c) => *c,
            OrganizationCountryRelation::Custom(_, c) => *c,
        },
    }
}

/// What is wrong with a country entry's metadata, if anything: too many
/// entries, or a value too long.
pub open spec fn metadata_error(cd: &CountryData) -> Option<IRSError> {
    match &cd.metadata {
        None => None,
        Some(m) => if m@.len() > MAX_METADATA_ENTRIES {
            Some(IRSError::MetadataTooManyEntries)
        } else if exists|k: int| 0 <= k < m@.len() && (#[trigger] m@[k]).1@.len() > MAX_METADATA_STRING_LEN {
            Some(IRSError::MetadataStringTooLong)
        } else {
            None
        },
    }
}

/// The error of the first bad entry of a list, if any.
pub open spec fn list_error(s: Seq<CountryData>) -> Option<IRSError>
    decreases s.len(),
{
    if s.len() == 0 {
        None
    } else if list_error(s.drop_last()) is Some {
        list_error(s.drop_last())
    } else {
        metadata_error(&s.last())
    }
}

proof fn lemma_list_error_prefix(s: Seq<CountryData>, k: int)
    requires
        0 <= k <= s.len(),
        list_error(s.subrange(0, k)) is Some,
    ensures
        list_error(s) == list_error(s.subrange(0, k)),
    decreases s.len() - k,
{
    if k < s.len() {
        assert(s.subrange(0, k + 1).drop_last() =~= s.subrange(0, k));
        lemma_list_error_prefix(s, k + 1);
    } else {
        assert(s.subrange(0, k) =~= s);
    }
}

/// Checks a country entry's metadata: at most [`MAX_METADATA_ENTRIES`]
/// entries, each value at most [`MAX_METADATA_STRING_LEN`] bytes.
pub fn validate_country_data(country_data: &CountryData) -> (r: Result<(), IRSError>)
    ensures
        match metadata_error(country_data) {
            Some(e) => r == Err::<(), IRSError>(e),
            None => r is Ok,
        },
{
    match &country_data.metadata {
        None => Ok(()),
        Some(m) => {
            if m.len() > MAX_METADATA_ENTRIES as usize {
                return Err(IRSError::MetadataTooManyEntries);
            }
            if has_long_value(m) {
                return Err(IRSError::MetadataStringTooLong);
            }
            Ok(())
        },
    }
}

fn has_long_value(m: &Vec<(Vec<u8>, Vec<u8>)>) -> (r: bool)
    ensures
        r == exists|k: int| 0 <= k < m@.len() && (#[trigger] m@[k]).1@.len() > MAX_METADATA_STRING_LEN,
{
    let mut k: usize = 0;
    while k < m.len()
        invariant
            k <= m.len(),
            forall|j: int| 0 <= j < k ==> (#[trigger] m@[j]).1@.len() <= MAX_METADATA_STRING_LEN,
        decreases m.len() - k,
    {
        if m[k].1.len() > MAX_METADATA_STRING_LEN as usize {
            assert((m@[k as int]).1@.len() > MAX_METADATA_STRING_LEN);
            return true;
        }
        k = k + 1;
    }
    false
}

fn validate_list(list: &Vec<CountryData>) -> (r: Result<(), IRSError>)
    ensures
        match list_error(list@) {
            Some(e) => r == Err::<(), IRSError>(e),
            None => r is Ok,
        },
{
    let mut k: usize = 0;
    while k < list.len()
        invariant
            k <= list.len(),
            list_error(list@.subrange(0, k as int)) is None,
        decreases list.len() - k,
    {
        let v = validate_country_data(&list[k]);
        proof {
            assert(list@.subrange(0, k + 1).drop_last() =~= list@.subrange(0, k as int));
        }
        if let Err(e) = v {
            proof {
                lemma_list_error_prefix(list@, k + 1);
            }
            return Err(e);
        }
        k = k + 1;
    }
    assert(list@.subrange(0, list@.len() as int) =~= list@);
    Ok(())
}

/// Identities, profiles and recoveries.
pub struct IdentityRegistry {
    identities: HashMap<u64, u64>,
    profiles: HashMap<u64, IdentityProfile>,
    recovered_to: HashMap<u64, u64>,
}

impl IdentityRegistry {
    /// The identity of `account`, if one is stored.
    pub closed spec fn identity_of(&self, account: u64) -> Option<u64> {
        if self.identities@.contains_key(account) {
            Some(self.identities@[account])
        } else {
            None
        }
    }

    /// The profile of `account`, if one is stored.
    pub closed spec fn profile_of(&self, account: u64) -> Option<IdentityProfile> {
        if self.profiles@.contains_key(account) {
            Some(self.profiles@[account])
        } else {
            None
        }
    }

    /// The account that `old_account` was recovered to, if any.
    pub closed spec fn recovered(&self, old_account: u64) -> Option<u64> {
        if self.recovered_to@.contains_key(old_account) {
            Some(self.recovered_to@[old_account])
        } else {
            None
        }
    }

    /// An account has an identity exactly when it has a profile, and every
    /// profile holds between one and [`MAX_COUNTRY_ENTRIES`] valid entries.
    pub closed spec fn wf(&self) -> bool {
        &&& forall|a: u64| #[trigger]
            self.identities@.contains_key(a) <==> self.profiles@.contains_key(a)
        &&& forall|a: u64| #[trigger]
            self.profiles@.contains_key(a) ==> valid_profile(&self.profiles@[a])
    }

    /// No identities, no recoveries.
    pub fn new() -> (s: Self)
        ensures
            s.wf(),
            forall|a: u64| #[trigger] s.identity_of(a) is None && s.profile_of(a) is None,
            forall|a: u64| #[trigger] s.recovered(a) is None,
    {
        IdentityRegistry {
            identities: HashMap::new(),
            profiles: HashMap::new(),
            recovered_to: HashMap::new(),
        }
    }
}

/// No two metadata entries of a country entry share a name, as in the
/// name-to-value map that metadata is.
pub open spec fn metadata_keys_distinct(cd: &CountryData) -> bool {
    match &cd.metadata {
        None => true,
        Some(m) => forall|i: int, j: int|
            0 <= i < m@.len() && 0 <= j < m@.len() && i != j ==> (#[trigger] m@[i]).0@ != (
            #[trigger] m@[j]).0@,
    }
}

/// Every entry's metadata names are distinct.
pub open spec fn entries_keys_distinct(s: Seq<CountryData>) -> bool {
    forall|k: int| 0 <= k < s.len() ==> metadata_keys_distinct(#[trigger] &s[k])
}

/// Between one and [`MAX_COUNTRY_ENTRIES`] entries, all valid, none with a
/// metadata name twice.
pub open spec fn valid_profile(p: &IdentityProfile) -> bool {
    &&& 1 <= p.countries@.len() <= MAX_COUNTRY_ENTRIES
    &&& list_error(p.countries@) is None
    &&& entries_keys_distinct(p.countries@)
}

/// The identity stored for `account`; `IdentityNotFound` if none.
pub fn stored_identity(registry: &IdentityRegistry, account: u64) -> (r: Result<u64, IRSError>)
    ensures
        match registry.identity_of(account) {
            Some(i) => r == Ok::<u64, IRSError>(i),
            None => r == Err::<u64, IRSError>(IRSError::IdentityNotFound),
        },
{
    match registry.identities.get(&account) {
        Some(i) => Ok(*i),
        None => Err(IRSError::IdentityNotFound),
    }
}

/// The profile of `account`; `IdentityNotFound` if none.
pub fn get_identity_profile(registry: &IdentityRegistry, account: u64) -> (r: Result<
    &IdentityProfile,
    IRSError,
>)
    ensures
        match registry.profile_of(account) {
            Some(p) => r is Ok && *r->Ok_0 == p,
            None => r == Err::<&IdentityProfile, IRSError>(IRSError::IdentityNotFound),
        },
{
    match registry.profiles.get(&account) {
        Some(p) => Ok(p),
        None => Err(IRSError::IdentityNotFound),
    }
}

/// Country entry `index` of `account`; `IdentityNotFound` without a
/// profile, `CountryDataNotFound` past the last entry.
pub fn get_country_data(registry: &IdentityRegistry, account: u64, index: u32) -> (r: Result<
    &CountryData,
    IRSError,
>)
    ensures
        match registry.profile_of(account) {
            None => r == Err::<&CountryData, IRSError>(IRSError::IdentityNotFound),
            Some(p) => if index < p.countries@.len() {
                r is Ok && *r->Ok_0 == p.countries@[index as int]
            } else {
                r == Err::<&CountryData, IRSError>(IRSError::CountryDataNotFound)
            },
        },
{
    let profile = get_identity_profile(registry, account)?;
    if (index as usize) < profile.countries.len() {
        Ok(&profile.countries[index as usize])
    } else {
        Err(IRSError::CountryDataNotFound)
    }
}

/// All country entries of `account` (none without a profile).
pub fn get_country_data_entries(registry: &IdentityRegistry, account: u64) -> (r: &[CountryData])
    ensures
        match registry.profile_of(account) {
            Some(p) => r@ == p.countries@,
            None => r@.len() == 0,
        },
{
    match registry.profiles.get(&account) {
        Some(p) => p.countries.as_slice(),
        None => &[],
    }
}

/// The account that `old_account` was recovered to, if any.
pub fn get_recovered_to(registry: &IdentityRegistry, old_account: u64) -> (r: Option<u64>)
    ensures
        r == registry.recovered(old_account),
{
    match registry.recovered_to.get(&old_account) {
        Some(a) => Some(*a),
        None => None,
    }
}

/// The error that adding an identity gives, if any, in the order checked.
pub open spec fn add_identity_error(
    registry: &IdentityRegistry,
    account: u64,
    countries: Seq<CountryData>,
) -> Option<IRSError> {
    if registry.recovered(account) is Some {
        Some(IRSError::AccountRecovered)
    } else if countries.len() == 0 {
        Some(IRSError::EmptyCountryList)
    } else if countries.len() > MAX_COUNTRY_ENTRIES {
        Some(IRSError::MaxCountryEntriesReached)
    } else if list_error(countries) is Some {
        list_error(countries)
    } else if registry.identity_of(account) is Some {
        Some(IRSError::IdentityOverwrite)
    } else {
        None
    }
}

/// Stores `identity` and a profile for `account`.
///
/// Fails, with nothing changed, on a recovered account (`AccountRecovered`),
/// an empty list (`EmptyCountryList`), more than [`MAX_COUNTRY_ENTRIES`]
/// entries (`MaxCountryEntriesReached`), bad metadata, or an account that
/// already has an identity (`IdentityOverwrite`), checked in that order.
pub fn add_identity(
    registry: &mut IdentityRegistry,
    account: u64,
    identity: u64,
    identity_type: IdentityType,
    initial_countries: Vec<CountryData>,
) -> (r: Result<(), IRSError>)
    requires
        old(registry).wf(),
        entries_keys_distinct(initial_countries@),
    ensures
        final(registry).wf(),
        match add_identity_error(old(registry), account, initial_countries@) {
            Some(e) => r == Err::<(), IRSError>(e) && *final(registry) == *old(registry),
            None => {
                &&& r is Ok
                &&& final(registry).identity_of(account) == Some(identity)
                &&& final(registry).profile_of(account) == Some(
                    IdentityProfile { identity_type, countries: initial_countries },
                )
                &&& forall|a: u64|
                    a != account ==> #[trigger] final(registry).identity_of(a) == old(registry).identity_of(a) && final(registry).profile_of(a) == old(registry).profile_of(a)
                &&& forall|a: u64| #[trigger]
                    final(registry).recovered(a) == old(registry).recovered(a)
            },
        },
{
    if get_recovered_to(registry, account).is_some() {
        return Err(IRSError::AccountRecovered);
    }
    if initial_countries.len() == 0 {
        return Err(IRSError::EmptyCountryList);
    }
    if initial_countries.len() > MAX_COUNTRY_ENTRIES as usize {
        return Err(IRSError::MaxCountryEntriesReached);
    }
    validate_list(&initial_countries)?;
    if registry.identities.contains_key(&account) {
        return Err(IRSError::IdentityOverwrite);
    }
    registry.identities.insert(account, identity);
    registry.profiles.insert(account, IdentityProfile { identity_type, countries: initial_countries });
    Ok(())
}

/// Points `account` at `new_identity`; returns the identity it replaces.
/// `IdentityNotFound` (and no change) without an identity.
pub fn modify_identity(registry: &mut IdentityRegistry, account: u64, new_identity: u64) -> (r:
    Result<u64, IRSError>)
    requires
        old(registry).wf(),
    ensures
        final(registry).wf(),
        match old(registry).identity_of(account) {
            None => r == Err::<u64, IRSError>(IRSError::IdentityNotFound) && *final(registry) == *old(registry),
            Some(old_identity) => {
                &&& r == Ok::<u64, IRSError>(old_identity)
                &&& final(registry).identity_of(account) == Some(new_identity)
                &&& forall|a: u64|
                    a != account ==> #[trigger] final(registry).identity_of(a) == old(registry).identity_of(a)
                &&& forall|a: u64| #[trigger]
                    final(registry).profile_of(a) == old(registry).profile_of(a)
                &&& forall|a: u64| #[trigger]
                    final(registry).recovered(a) == old(registry).recovered(a)
            },
        },
{
    let old_identity = stored_identity(registry, account)?;
    registry.identities.insert(account, new_identity);
    Ok(old_identity)
}

/// Removes the identity and the profile of `account`, returning both.
/// `IdentityNotFound` (and no change) without an identity.
pub fn remove_identity(registry: &mut IdentityRegistry, account: u64) -> (r: Result<
    (u64, IdentityProfile),
    IRSError,
>)
    requires
        old(registry).wf(),
    ensures
        final(registry).wf(),
        match old(registry).identity_of(account) {
            None => r == Err::<(u64, IdentityProfile), IRSError>(IRSError::IdentityNotFound) && *final(registry) == *old(registry),
            Some(identity) => {
                &&& r is Ok
                &&& r->Ok_0.0 == identity
                &&& Some(r->Ok_0.1) == old(registry).profile_of(account)
                &&& final(registry).identity_of(account) is None
                &&& final(registry).profile_of(account) is None
                &&& forall|a: u64|
                    a != account ==> #[trigger] final(registry).identity_of(a) == old(registry).identity_of(a) && final(registry).profile_of(a) == old(registry).profile_of(a)
                &&& forall|a: u64| #[trigger]
                    final(registry).recovered(a) == old(registry).recovered(a)
            },
        },
{
    if !registry.identities.contains_key(&account) {
        return Err(IRSError::IdentityNotFound);
    }
    let identity = match registry.identities.remove(&account) {
        Some(i) => i,
        None => {
            proof {
                assert(false);
            }
            return Err(IRSError::IdentityNotFound);
        },
    };
    let profile = match registry.profiles.remove(&account) {
        Some(p) => p,
        None => {
            proof {
                assert(false);
            }
            return Err(IRSError::IdentityNotFound);
        },
    };
    Ok((identity, profile))
}

/// Moves the identity and the profile of `old_account` to `new_account`,
/// and marks `old_account` as recovered to `new_account`.
///
/// Fails, with nothing changed, when `new_account` was itself recovered
/// (`AccountRecovered`), `old_account` has no identity (`IdentityNotFound`),
/// or `new_account` already has one (`IdentityOverwrite`), in that order.
pub fn recover_identity(registry: &mut IdentityRegistry, old_account: u64, new_account: u64) -> (r:
    Result<(), IRSError>)
    requires
        old(registry).wf(),
    ensures
        final(registry).wf(),
        old(registry).recovered(new_account) is Some ==> r == Err::<(), IRSError>(
            IRSError::AccountRecovered,
        ),
        old(registry).recovered(new_account) is None && old(registry).identity_of(old_account)
            is None ==> r == Err::<(), IRSError>(IRSError::IdentityNotFound),
        old(registry).recovered(new_account) is None && old(registry).identity_of(old_account)
            is Some && old(registry).identity_of(new_account) is Some ==> r == Err::<(), IRSError>(
            IRSError::IdentityOverwrite,
        ),
        r is Err ==> *final(registry) == *old(registry),
        r is Ok <==> old(registry).recovered(new_account) is None && old(registry).identity_of(
            old_account,
        ) is Some && old(registry).identity_of(new_account) is None,
        r is Ok ==> {
            &&& final(registry).identity_of(new_account) == old(registry).identity_of(old_account)
            &&& final(registry).profile_of(new_account) == old(registry).profile_of(old_account)
            &&& final(registry).identity_of(old_account) is None
            &&& final(registry).profile_of(old_account) is None
            &&& final(registry).recovered(old_account) == Some(new_account)
            &&& forall|a: u64|
                a != old_account && a != new_account ==> #[trigger] final(registry).identity_of(a)
                    == old(registry).identity_of(a) && final(registry).profile_of(a) == old(registry).profile_of(a)
            &&& forall|a: u64|
                a != old_account ==> #[trigger] final(registry).recovered(a) == old(registry).recovered(a)
        },
{
    if get_recovered_to(registry, new_account).is_some() {
        return Err(IRSError::AccountRecovered);
    }
    if !registry.identities.contains_key(&old_account) {
        return Err(IRSError::IdentityNotFound);
    }
    if registry.identities.contains_key(&new_account) {
        return Err(IRSError::IdentityOverwrite);
    }
    let identity = match registry.identities.remove(&old_account) {
        Some(i) => i,
        None => {
            return Err(IRSError::IdentityNotFound);
        },
    };
    registry.identities.insert(new_account, identity);
    let profile = match registry.profiles.remove(&old_account) {
        Some(p) => p,
        None => {
            proof {
                assert(false);
            }
            return Err(IRSError::IdentityNotFound);
        },
    };
    registry.profiles.insert(new_account, profile);
    registry.recovered_to.insert(old_account, new_account);
    Ok(())
}

/// Adds country entries to the profile of `account`.
///
/// Fails, with nothing changed, on an empty list (`EmptyCountryList`), bad
/// metadata, no profile (`IdentityNotFound`), or more than
/// [`MAX_COUNTRY_ENTRIES`] entries in all (`MaxCountryEntriesReached`), in
/// that order.
pub fn add_country_data_entries(
    registry: &mut IdentityRegistry,
    account: u64,
    country_data_list: Vec<CountryData>,
) -> (r: Result<(), IRSError>)
    requires
        old(registry).wf(),
        entries_keys_distinct(country_data_list@),
    ensures
        final(registry).wf(),
        r is Err ==> *final(registry) == *old(registry),
        country_data_list@.len() == 0 ==> r == Err::<(), IRSError>(IRSError::EmptyCountryList),
        country_data_list@.len() != 0 && list_error(country_data_list@) is Some ==> r == Err::<
            (),
            IRSError,
        >(list_error(country_data_list@)->0),
        country_data_list@.len() != 0 && list_error(country_data_list@) is None && old(
            registry,
        ).profile_of(account) is None ==> r == Err::<(), IRSError>(IRSError::IdentityNotFound),
        country_data_list@.len() != 0 && list_error(country_data_list@) is None && old(
            registry,
        ).profile_of(account) is Some && old(registry).profile_of(account)->0.countries@.len()
            + country_data_list@.len() > MAX_COUNTRY_ENTRIES ==> r == Err::<(), IRSError>(
            IRSError::MaxCountryEntriesReached,
        ),
        r is Ok ==> {
            &&& final(registry).profile_of(account) matches Some(p) && p.identity_type == old(
                registry,
            ).profile_of(account)->0.identity_type && p.countries@ == old(registry).profile_of(
                account,
            )->0.countries@ + country_data_list@
            &&& forall|a: u64|
                a != account ==> #[trigger] final(registry).profile_of(a) == old(registry).profile_of(a)
            &&& forall|a: u64| #[trigger] final(registry).identity_of(a) == old(registry).identity_of(a)
            &&& forall|a: u64| #[trigger] final(registry).recovered(a) == old(registry).recovered(a)
        },
        (country_data_list@.len() != 0 && list_error(country_data_list@) is None && old(
            registry,
        ).profile_of(account) is Some && old(registry).profile_of(account)->0.countries@.len()
            + country_data_list@.len() <= MAX_COUNTRY_ENTRIES) ==> r is Ok,
{
    if country_data_list.len() == 0 {
        return Err(IRSError::EmptyCountryList);
    }
    validate_list(&country_data_list)?;
    let current_len = match registry.profiles.get(&account) {
        Some(p) => p.countries.len(),
        None => {
            return Err(IRSError::IdentityNotFound);
        },
    };
    if current_len > MAX_COUNTRY_ENTRIES as usize || country_data_list.len() > MAX_COUNTRY_ENTRIES
        as usize - current_len {
        return Err(IRSError::MaxCountryEntriesReached);
    }
    let ghost old_reg = *registry;
    let mut profile = match registry.profiles.remove(&account) {
        Some(p) => p,
        None => {
            proof {
                assert(false);
            }
            return Err(IRSError::IdentityNotFound);
        },
    };
    let ghost before = profile.countries@;
    let mut list = country_data_list;
    profile.countries.append(&mut list);
    proof {
        lemma_list_error_concat(before, country_data_list@);
    }
    registry.profiles.insert(account, profile);
    Ok(())
}

proof fn lemma_list_error_concat(a: Seq<CountryData>, b: Seq<CountryData>)
    requires
        list_error(a) is None,
        list_error(b) is None,
    ensures
        list_error(a + b) is None,
    decreases b.len(),
{
    if b.len() == 0 {
        assert(a + b =~= a);
    } else {
        lemma_list_error_concat(a, b.drop_last());
        assert((a + b).drop_last() =~= a + b.drop_last());
        assert((a + b).last() == b.last());
    }
}

proof fn lemma_list_error_entries(s: Seq<CountryData>)
    ensures
        list_error(s) is None <==> forall|k: int| 0 <= k < s.len() ==> metadata_error(&#[trigger] s[k]) is None,
    decreases s.len(),
{
    if s.len() > 0 {
        lemma_list_error_entries(s.drop_last());
        if list_error(s) is None {
            assert forall|k: int| 0 <= k < s.len() implies metadata_error(&#[trigger] s[k]) is None by {
                if k < s.len() - 1 {
                    assert(s.drop_last()[k] == s[k]);
                }
            }
        }
        if forall|k: int| 0 <= k < s.len() ==> metadata_error(&#[trigger] s[k]) is None {
            assert forall|k: int| 0 <= k < s.drop_last().len() implies metadata_error(
                &#[trigger] s.drop_last()[k],
            ) is None by {
                assert(s.drop_last()[k] == s[k]);
            }
            assert(metadata_error(&s[s.len() - 1]) is None);
        }
    }
}

/// Replaces country entry `index` of `account` by `country_data`.
///
/// Fails, with nothing changed, on bad metadata, no profile
/// (`IdentityNotFound`), or an index past the last entry
/// (`CountryDataNotFound`), in that order.
pub fn modify_country_data(
    registry: &mut IdentityRegistry,
    account: u64,
    index: u32,
    country_data: CountryData,
) -> (r: Result<(), IRSError>)
    requires
        old(registry).wf(),
        metadata_keys_distinct(&country_data),
    ensures
        final(registry).wf(),
        r is Err ==> *final(registry) == *old(registry),
        metadata_error(&country_data) is Some ==> r == Err::<(), IRSError>(
            metadata_error(&country_data)->0,
        ),
        metadata_error(&country_data) is None && old(registry).profile_of(account) is None ==> r
            == Err::<(), IRSError>(IRSError::IdentityNotFound),
        metadata_error(&country_data) is None && old(registry).profile_of(account) is Some && index
            >= old(registry).profile_of(account)->0.countries@.len() ==> r == Err::<(), IRSError>(
            IRSError::CountryDataNotFound,
        ),
        r is Ok <==> metadata_error(&country_data) is None && old(registry).profile_of(account)
            is Some && index < old(registry).profile_of(account)->0.countries@.len(),
        r is Ok ==> {
            &&& final(registry).profile_of(account) matches Some(p) && p.identity_type == old(
                registry,
            ).profile_of(account)->0.identity_type && p.countries@ == old(registry).profile_of(
                account,
            )->0.countries@.update(index as int, country_data)
            &&& forall|a: u64|
                a != account ==> #[trigger] final(registry).profile_of(a) == old(registry).profile_of(a)
            &&& forall|a: u64| #[trigger] final(registry).identity_of(a) == old(registry).identity_of(a)
            &&& forall|a: u64| #[trigger] final(registry).recovered(a) == old(registry).recovered(a)
        },
{
    validate_country_data(&country_data)?;
    let current_len = match registry.profiles.get(&account) {
        Some(p) => p.countries.len(),
        None => {
            return Err(IRSError::IdentityNotFound);
        },
    };
    if index as usize >= current_len {
        return Err(IRSError::CountryDataNotFound);
    }
    let mut profile = match registry.profiles.remove(&account) {
        Some(p) => p,
        None => {
            proof {
                assert(false);
            }
            return Err(IRSError::IdentityNotFound);
        },
    };
    let ghost before = profile.countries@;
    proof {
        lemma_list_error_entries(before);
    }
    profile.countries.set(index as usize, country_data);
    proof {
        lemma_list_error_entries(profile.countries@);
    }
    registry.profiles.insert(account, profile);
    Ok(())
}

/// Deletes country entry `index` of `account`, returning it.
///
/// Fails, with nothing changed, without a profile (`IdentityNotFound`), for
/// an index past the last entry (`CountryDataNotFound`), or when the entry is
/// the only one left (`EmptyCountryList`), in that order.
pub fn delete_country_data(registry: &mut IdentityRegistry, account: u64, index: u32) -> (r: Result<
    CountryData,
    IRSError,
>)
    requires
        old(registry).wf(),
    ensures
        final(registry).wf(),
        r is Err ==> *final(registry) == *old(registry),
        old(registry).profile_of(account) is None ==> r == Err::<CountryData, IRSError>(
            IRSError::IdentityNotFound,
        ),
        old(registry).profile_of(account) is Some && index >= old(registry).profile_of(
            account,
        )->0.countries@.len() ==> r == Err::<CountryData, IRSError>(IRSError::CountryDataNotFound),
        old(registry).profile_of(account) is Some && index < old(registry).profile_of(
            account,
        )->0.countries@.len() && old(registry).profile_of(account)->0.countries@.len() == 1 ==> r
            == Err::<CountryData, IRSError>(IRSError::EmptyCountryList),
        r is Ok <==> old(registry).profile_of(account) is Some && old(registry).profile_of(
            account,
        )->0.countries@.len() != 1 && index < old(registry).profile_of(account)->0.countries@.len(),
        r is Ok ==> {
            &&& r->Ok_0 == old(registry).profile_of(account)->0.countries@[index as int]
            &&& final(registry).profile_of(account) matches Some(p) && p.identity_type == old(
                registry,
            ).profile_of(account)->0.identity_type && p.countries@ == old(registry).profile_of(
                account,
            )->0.countries@.remove(index as int)
            &&& forall|a: u64|
                a != account ==> #[trigger] final(registry).profile_of(a) == old(registry).profile_of(a)
            &&& forall|a: u64| #[trigger] final(registry).identity_of(a) == old(registry).identity_of(a)
            &&& forall|a: u64| #[trigger] final(registry).recovered(a) == old(registry).recovered(a)
        },
{
    let current_len = match registry.profiles.get(&account) {
        Some(p) => p.countries.len(),
        None => {
            return Err(IRSError::IdentityNotFound);
        },
    };
    if index as usize >= current_len {
        return Err(IRSError::CountryDataNotFound);
    }
    if current_len == 1 {
        return Err(IRSError::EmptyCountryList);
    }
    let mut profile = match registry.profiles.remove(&account) {
        Some(p) => p,
        None => {
            proof {
                assert(false);
            }
            return Err(IRSError::IdentityNotFound);
        },
    };
    let ghost before = profile.countries@;
    proof {
        lemma_list_error_entries(before);
    }
    let removed = profile.countries.remove(index as usize);
    proof {
        assert forall|k: int| 0 <= k < profile.countries@.len() implies metadata_error(
            &#[trigger] profile.countries@[k],
        ) is None by {
            if k < index {
                assert(profile.countries@[k] == before[k]);
            } else {
                assert(profile.countries@[k] == before[k + 1]);
            }
        }
        lemma_list_error_entries(profile.countries@);
    }
    registry.profiles.insert(account, profile);
    Ok(removed)
}

} // verus!
