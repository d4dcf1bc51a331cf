//! The compliance contract's registry of modules per hook, the decisions it
//! takes on the modules' answers, and the shared helpers of compliance
//! modules.
use std::collections::HashMap;
use vstd::prelude::*;

use crate::token_binder::{is_token_bound, TokenBinderStorage};
use crate::seqs::{copy_u64s, lemma_push_contains, lemma_without_contains, vec_contains_u64, vec_without_u64, without};

verus! {

broadcast use vstd::std_specs::hash::group_hash_axioms;

/// The points in a token's life where compliance modules are consulted or
/// informed.
#[derive(Clone, Copy, Debug, PartialEq, Eq)]
pub enum ComplianceHook {
    Transferred,
    Created,
    Destroyed,
    CanTransfer,
    CanCreate,
}

/// Errors of the compliance contract.
#[derive(Clone, Copy, Debug, PartialEq, Eq)]
pub enum ComplianceError {
    ModuleAlreadyRegistered,
    ModuleNotRegistered,
    ModuleBoundExceeded,
    TokenNotBound,
}

/// Errors of compliance modules.
#[derive(Clone, Copy, Debug, PartialEq, Eq)]
pub enum ComplianceModuleError {
    ComplianceNotSet,
    InvalidAmount,
    MathOverflow,
    MathUnderflow,
    MissingLimit,
    MissingCounter,
    MissingCountry,
    IdentityRegistryNotSet,
    MissingRequiredHook,
    ComplianceAlreadySet,
    TooManyLimits,
}

/// The storage entry that holds the modules of one hook.
#[derive(Clone, Copy, Debug, PartialEq, Eq)]
pub enum ComplianceDataKey {
    HookModules(ComplianceHook),
}

/// The most modules per hook.
pub const MAX_MODULES: u32 = 20;

pub open spec fn hook_slot(hook: ComplianceHook) -> int {
    match hook {
        ComplianceHook::Transferred => 0,
        ComplianceHook::Created => 1,
        ComplianceHook::Destroyed => 2,
        ComplianceHook::CanTransfer => 3,
        ComplianceHook::CanCreate => 4,
    }
}

fn slot_of(key: ComplianceDataKey) -> (r: usize)
    ensures
        r == hook_slot(match key {
            ComplianceDataKey::HookModules(h) => h,
        }),
        r < 5,
{
    match key {
        ComplianceDataKey::HookModules(hook) => match hook {
            ComplianceHook::Transferred => 0,
            ComplianceHook::Created => 1,
            ComplianceHook::Destroyed => 2,
            ComplianceHook::CanTransfer => 3,
            ComplianceHook::CanCreate => 4,
        },
    }
}

/// The modules registered for each hook, in the order they were added.
pub struct ComplianceRegistry {
    hooks: Vec<Vec<u64>>,
}

impl ComplianceRegistry {
    /// The modules of `hook`.
    pub closed spec fn modules(&self, hook: ComplianceHook) -> Seq<u64> {
        self.hooks@[hook_slot(hook)]@
    }

    /// Every hook has a list, with no module twice and at most
    /// [`MAX_MODULES`] modules.
    pub closed spec fn wf(&self) -> bool {
        &&& self.hooks@.len() == 5
        &&& forall|h: ComplianceHook| #[trigger] self.modules(h).no_duplicates()
        &&& forall|h: ComplianceHook| #[trigger] self.modules(h).len() <= MAX_MODULES
    }

    /// No module for any hook.
    pub fn new() -> (s: Self)
        ensures
            s.wf(),
            forall|h: ComplianceHook| #[trigger] s.modules(h) == Seq::<u64>::empty(),
    {
        let mut hooks: Vec<Vec<u64>> = Vec::new();
        let mut k: usize = 0;
        while k < 5
            invariant
                k <= 5,
                hooks@.len() == k,
                forall|j: int| 0 <= j < k ==> (#[trigger] hooks@[j])@ == Seq::<u64>::empty(),
            decreases 5 - k,
        {
            hooks.push(Vec::new());
            k = k + 1;
        }
        let s = ComplianceRegistry { hooks };
        assert forall|h: ComplianceHook| #[trigger] s.modules(h) == Seq::<u64>::empty() by {
            assert(0 <= hook_slot(h) < 5);
        }
        s
    }
}

/// The modules of `hook`, in the order they were added.
pub fn get_modules_for_hook(registry: &ComplianceRegistry, hook: ComplianceHook) -> (r: Vec<u64>)
    requires
        registry.wf(),
    ensures
        r@ == registry.modules(hook),
{
    copy_u64s(&registry.hooks[slot_of(ComplianceDataKey::HookModules(hook))])
}

/// Whether `module` is registered for `hook`.
pub fn is_module_registered(registry: &ComplianceRegistry, hook: ComplianceHook, module: u64) -> (r:
    bool)
    requires
        registry.wf(),
    ensures
        r == registry.modules(hook).contains(module),
{
    vec_contains_u64(&registry.hooks[slot_of(ComplianceDataKey::HookModules(hook))], module)
}

/// Registers `module` for `hook`, after the others.
///
/// Fails, with nothing changed, for a module already registered there
/// (`ModuleAlreadyRegistered`) or a hook with [`MAX_MODULES`] modules
/// (`ModuleBoundExceeded`), in that order.
pub fn add_module_to(registry: &mut ComplianceRegistry, hook: ComplianceHook, module: u64) -> (r:
    Result<(), ComplianceError>)
    requires
        old(registry).wf(),
    ensures
        final(registry).wf(),
        r is Err ==> *final(registry) == *old(registry),
        old(registry).modules(hook).contains(module) ==> r == Err::<(), ComplianceError>(
            ComplianceError::ModuleAlreadyRegistered,
        ),
        !old(registry).modules(hook).contains(module) && old(registry).modules(hook).len()
            >= MAX_MODULES ==> r == Err::<(), ComplianceError>(ComplianceError::ModuleBoundExceeded),
        !old(registry).modules(hook).contains(module) && old(registry).modules(hook).len()
            < MAX_MODULES ==> r is Ok && final(registry).modules(hook) == old(registry).modules(
            hook,
        ).push(module) && forall|h: ComplianceHook|
            h != hook ==> #[trigger] final(registry).modules(h) == old(registry).modules(h),
{
    let slot = slot_of(ComplianceDataKey::HookModules(hook));
    if vec_contains_u64(&registry.hooks[slot], module) {
        return Err(ComplianceError::ModuleAlreadyRegistered);
    }
    if registry.hooks[slot].len() >= MAX_MODULES as usize {
        return Err(ComplianceError::ModuleBoundExceeded);
    }
    let ghost before = *registry;
    let mut modules = copy_u64s(&registry.hooks[slot]);
    modules.push(module);
    registry.hooks.set(slot, modules);
    proof {
        assert forall|h: ComplianceHook| h != hook implies #[trigger] registry.modules(h)
            == before.modules(h) by {
            match h {
                ComplianceHook::Transferred => {},
                ComplianceHook::Created => {},
                ComplianceHook::Destroyed => {},
                ComplianceHook::CanTransfer => {},
                ComplianceHook::CanCreate => {},
            }
            match hook {
                ComplianceHook::Transferred => {},
                ComplianceHook::Created => {},
                ComplianceHook::Destroyed => {},
                ComplianceHook::CanTransfer => {},
                ComplianceHook::CanCreate => {},
            }
        }
        let s0 = before.modules(hook);
        assert(s0.no_duplicates());
        assert forall|a: int, b: int|
            0 <= a < s0.push(module).len() && 0 <= b < s0.push(module).len() && a != b implies s0.push(
            module,
        )[a] != s0.push(module)[b] by {
            if a < s0.len() && b < s0.len() {
            } else if a < s0.len() {
                assert(s0.contains(s0[a]));
            } else if b < s0.len() {
                assert(s0.contains(s0[b]));
            }
        }
        assert forall|h: ComplianceHook| #[trigger] registry.modules(h).no_duplicates() by {
            if h != hook {
                assert(before.modules(h).no_duplicates());
            }
        }
        assert forall|h: ComplianceHook| #[trigger] registry.modules(h).len() <= MAX_MODULES by {
            if h != hook {
                assert(before.modules(h).len() <= MAX_MODULES);
            }
        }
    }
    Ok(())
}

/// Unregisters `module` from `hook`, keeping the others in order;
/// `ModuleNotRegistered` (and no change) if it is not registered there.
pub fn remove_module_from(registry: &mut ComplianceRegistry, hook: ComplianceHook, module: u64) -> (r:
    Result<(), ComplianceError>)
    requires
        old(registry).wf(),
    ensures
        final(registry).wf(),
        !old(registry).modules(hook).contains(module) ==> r == Err::<(), ComplianceError>(
            ComplianceError::ModuleNotRegistered,
        ) && *final(registry) == *old(registry),
        old(registry).modules(hook).contains(module) ==> r is Ok && final(registry).modules(hook)
            == without(old(registry).modules(hook), module) && forall|h: ComplianceHook|
            h != hook ==> #[trigger] final(registry).modules(h) == old(registry).modules(h),
{
    let slot = slot_of(ComplianceDataKey::HookModules(hook));
    if !vec_contains_u64(&registry.hooks[slot], module) {
        return Err(ComplianceError::ModuleNotRegistered);
    }
    let ghost before = *registry;
    let modules = vec_without_u64(&registry.hooks[slot], module);
    registry.hooks.set(slot, modules);
    proof {
        lemma_without_contains(before.modules(hook), module);
        assert forall|h: ComplianceHook| h != hook implies #[trigger] registry.modules(h)
            == before.modules(h) by {
            match h {
                ComplianceHook::Transferred => {},
                ComplianceHook::Created => {},
                ComplianceHook::Destroyed => {},
                ComplianceHook::CanTransfer => {},
                ComplianceHook::CanCreate => {},
            }
            match hook {
                ComplianceHook::Transferred => {},
                ComplianceHook::Created => {},
                ComplianceHook::Destroyed => {},
                ComplianceHook::CanTransfer => {},
                ComplianceHook::CanCreate => {},
            }
        }
        assert forall|h: ComplianceHook| #[trigger] registry.modules(h).no_duplicates() by {
            if h != hook {
                assert(before.modules(h).no_duplicates());
            }
        }
        assert forall|h: ComplianceHook| #[trigger] registry.modules(h).len() <= MAX_MODULES by {
            if h != hook {
                assert(before.modules(h).len() <= MAX_MODULES);
            }
        }
    }
    Ok(())
}

/// The modules to inform of a transfer made by `token`, once it has shown
/// its authorization: `TokenNotBound` unless `token` is bound to this
/// compliance contract.
pub fn transferred(registry: &ComplianceRegistry, binder: &TokenBinderStorage, token: u64) -> (r: Result<
    Vec<u64>,
    ComplianceError,
>)
    requires
        registry.wf(),
    ensures
        !binder.tokens_view().contains(token) ==> r == Err::<Vec<u64>, ComplianceError>(
            ComplianceError::TokenNotBound,
        ),
        binder.tokens_view().contains(token) ==> r is Ok && r->Ok_0@ == registry.modules(
            ComplianceHook::Transferred,
        ),
{
    hook_to_run(registry, ComplianceHook::Transferred, is_token_bound(binder, token))
}

/// The modules to inform of a mint, as [`transferred`].
pub fn created(registry: &ComplianceRegistry, binder: &TokenBinderStorage, token: u64) -> (r: Result<
    Vec<u64>,
    ComplianceError,
>)
    requires
        registry.wf(),
    ensures
        !binder.tokens_view().contains(token) ==> r == Err::<Vec<u64>, ComplianceError>(
            ComplianceError::TokenNotBound,
        ),
        binder.tokens_view().contains(token) ==> r is Ok && r->Ok_0@ == registry.modules(
            ComplianceHook::Created,
        ),
{
    hook_to_run(registry, ComplianceHook::Created, is_token_bound(binder, token))
}

/// The modules to inform of a burn, as [`transferred`].
pub fn destroyed(registry: &ComplianceRegistry, binder: &TokenBinderStorage, token: u64) -> (r: Result<
    Vec<u64>,
    ComplianceError,
>)
    requires
        registry.wf(),
    ensures
        !binder.tokens_view().contains(token) ==> r == Err::<Vec<u64>, ComplianceError>(
            ComplianceError::TokenNotBound,
        ),
        binder.tokens_view().contains(token) ==> r is Ok && r->Ok_0@ == registry.modules(
            ComplianceHook::Destroyed,
        ),
{
    hook_to_run(registry, ComplianceHook::Destroyed, is_token_bound(binder, token))
}

fn hook_to_run(registry: &ComplianceRegistry, hook: ComplianceHook, token_is_bound: bool) -> (r:
    Result<Vec<u64>, ComplianceError>)
    requires
        registry.wf(),
    ensures
        !token_is_bound ==> r == Err::<Vec<u64>, ComplianceError>(ComplianceError::TokenNotBound),
        token_is_bound ==> r is Ok && r->Ok_0@ == registry.modules(hook),
{
    if !token_is_bound {
        return Err(ComplianceError::TokenNotBound);
    }
    Ok(get_modules_for_hook(registry, hook))
}

/// The next move of a check that asks the modules of a hook in turn.
#[derive(Clone, Copy, Debug, PartialEq, Eq)]
pub enum CheckStep {
    /// Ask this module next.
    Ask(u64),
    /// The check is over, with this outcome.
    Done(bool),
}

/// Given the answers received so far (from the first modules, in order),
/// the module to ask next, or the outcome: `false` at the first refusal,
/// `true` once every module (possibly none) has agreed.
pub open spec fn check_step(modules: Seq<u64>, answers: Seq<bool>) -> CheckStep {
    if exists|k: int| 0 <= k < answers.len() && !answers[k] {
        CheckStep::Done(false)
    } else if answers.len() < modules.len() {
        CheckStep::Ask(modules[answers.len() as int])
    } else {
        CheckStep::Done(true)
    }
}

fn next_check(modules: &Vec<u64>, answers: &Vec<bool>) -> (r: CheckStep)
    ensures
        r == check_step(modules@, answers@),
{
    let mut k: usize = 0;
    while k < answers.len()
        invariant
            k <= answers.len(),
            forall|j: int| 0 <= j < k ==> answers@[j],
        decreases answers.len() - k,
    {
        if !answers[k] {
            assert(!answers@[k as int]);
            return CheckStep::Done(false);
        }
        k = k + 1;
    }
    if answers.len() < modules.len() {
        CheckStep::Ask(modules[answers.len()])
    } else {
        CheckStep::Done(true)
    }
}

/// The next step of deciding whether a transfer is compliant, given the
/// answers of the `CanTransfer` modules asked so far.
pub fn can_transfer(registry: &ComplianceRegistry, answers: &Vec<bool>) -> (r: CheckStep)
    requires
        registry.wf(),
    ensures
        r == check_step(registry.modules(ComplianceHook::CanTransfer), answers@),
{
    next_check(&registry.hooks[slot_of(ComplianceDataKey::HookModules(ComplianceHook::CanTransfer))], answers)
}

/// The next step of deciding whether a mint is compliant, given the answers
/// of the `CanCreate` modules asked so far.
pub fn can_create(registry: &ComplianceRegistry, answers: &Vec<bool>) -> (r: CheckStep)
    requires
        registry.wf(),
    ensures
        r == check_step(registry.modules(ComplianceHook::CanCreate), answers@),
{
    next_check(&registry.hooks[slot_of(ComplianceDataKey::HookModules(ComplianceHook::CanCreate))], answers)
}

/// A check that has asked every module and heard only agreement passes; one
/// that has heard a refusal fails, whatever else is asked.
pub proof fn lemma_check_outcomes(modules: Seq<u64>, answers: Seq<bool>)
    ensures
        answers.len() >= modules.len() && (forall|k: int| 0 <= k < answers.len() ==> answers[k])
            ==> check_step(modules, answers) == CheckStep::Done(true),
        (exists|k: int| 0 <= k < answers.len() && !answers[k]) ==> check_step(modules, answers)
            == CheckStep::Done(false),
        modules.len() == 0 ==> check_step(modules, Seq::<bool>::empty()) == CheckStep::Done(true),
{
}

/// The configuration of one compliance module: its compliance contract,
/// whether its required hooks were checked, and the identity registry of
/// each token.
pub struct ModuleStorage {
    compliance: Option<u64>,
    hooks_verified: bool,
    registries: HashMap<u64, u64>,
}

impl ModuleStorage {
    pub closed spec fn compliance_view(&self) -> Option<u64> {
        self.compliance
    }

    pub closed spec fn verified(&self) -> bool {
        self.hooks_verified
    }

    pub closed spec fn registry_of(&self, token: u64) -> Option<u64> {
        if self.registries@.contains_key(token) {
            Some(self.registries@[token])
        } else {
            None
        }
    }

    /// Nothing configured.
    pub fn new() -> (s: Self)
        ensures
            s.compliance_view() is None,
            !s.verified(),
            forall|t: u64| #[trigger] s.registry_of(t) is None,
    {
        ModuleStorage { compliance: None, hooks_verified: false, registries: HashMap::new() }
    }
}

/// The module's compliance contract; `ComplianceNotSet` until set.
pub fn get_compliance_address(module: &ModuleStorage) -> (r: Result<u64, ComplianceModuleError>)
    ensures
        match module.compliance_view() {
            Some(c) => r == Ok::<u64, ComplianceModuleError>(c),
            None => r == Err::<u64, ComplianceModuleError>(ComplianceModuleError::ComplianceNotSet),
        },
{
    match module.compliance {
        Some(c) => Ok(c),
        None => Err(ComplianceModuleError::ComplianceNotSet),
    }
}

/// Whether the module's required hooks were found registered.
pub fn hooks_verified(module: &ModuleStorage) -> (r: bool)
    ensures
        r == module.verified(),
{
    module.hooks_verified
}

/// Sets the module's compliance contract, once.
pub fn set_compliance_address(module: &mut ModuleStorage, compliance: u64) -> (r: Result<
    (),
    ComplianceModuleError,
>)
    ensures
        old(module).compliance_view() is Some ==> r == Err::<(), ComplianceModuleError>(
            ComplianceModuleError::ComplianceAlreadySet,
        ) && *final(module) == *old(module),
        old(module).compliance_view() is None ==> r is Ok && final(module).compliance_view() == Some(
            compliance,
        ) && final(module).verified() == old(module).verified() && forall|t: u64| #[trigger]
            final(module).registry_of(t) == old(module).registry_of(t),
{
    if module.compliance.is_some() {
        return Err(ComplianceModuleError::ComplianceAlreadySet);
    }
    module.compliance = Some(compliance);
    Ok(())
}

/// Records that the required hooks are registered, given for each required
/// hook whether the compliance contract has this module registered for it.
/// Once recorded, the check is not made again.
///
/// Fails, with nothing changed, without a compliance contract
/// (`ComplianceNotSet`) or when a required hook is missing
/// (`MissingRequiredHook`).
pub fn verify_required_hooks(module: &mut ModuleStorage, registered: &Vec<bool>) -> (r: Result<
    (),
    ComplianceModuleError,
>)
    ensures
        old(module).verified() ==> r is Ok && *final(module) == *old(module),
        !old(module).verified() && old(module).compliance_view() is None ==> r == Err::<
            (),
            ComplianceModuleError,
        >(ComplianceModuleError::ComplianceNotSet) && *final(module) == *old(module),
        !old(module).verified() && old(module).compliance_view() is Some && (exists|k: int|
            0 <= k < registered@.len() && !registered@[k]) ==> r == Err::<(), ComplianceModuleError>(
            ComplianceModuleError::MissingRequiredHook,
        ) && *final(module) == *old(module),
        !old(module).verified() && old(module).compliance_view() is Some && (forall|k: int|
            0 <= k < registered@.len() ==> registered@[k]) ==> r is Ok && final(module).verified()
            && final(module).compliance_view() == old(module).compliance_view() && forall|t: u64|
            #[trigger] final(module).registry_of(t) == old(module).registry_of(t),
{
    if module.hooks_verified {
        return Ok(());
    }
    if module.compliance.is_none() {
        return Err(ComplianceModuleError::ComplianceNotSet);
    }
    if !all_true(registered) {
        return Err(ComplianceModuleError::MissingRequiredHook);
    }
    module.hooks_verified = true;
    Ok(())
}

fn all_true(v: &Vec<bool>) -> (r: bool)
    ensures
        r == forall|k: int| 0 <= k < v@.len() ==> v@[k],
{
    let mut k: usize = 0;
    while k < v.len()
        invariant
            k <= v.len(),
            forall|j: int| 0 <= j < k ==> v@[j],
        decreases v.len() - k,
    {
        if !v[k] {
            assert(!v@[k as int]);
            return false;
        }
        k = k + 1;
    }
    true
}

/// Records `irs` as the identity registry for `token`.
pub fn set_irs_address(module: &mut ModuleStorage, token: u64, irs: u64)
    ensures
        final(module).registry_of(token) == Some(irs),
        forall|t: u64| t != token ==> #[trigger] final(module).registry_of(t) == old(module).registry_of(t),
        final(module).compliance_view() == old(module).compliance_view(),
        final(module).verified() == old(module).verified(),
{
    module.registries.insert(token, irs);
}

/// The identity registry of `token`; `IdentityRegistryNotSet` if none.
pub fn get_irs_address(module: &ModuleStorage, token: u64) -> (r: Result<u64, ComplianceModuleError>)
    ensures
        match module.registry_of(token) {
            Some(i) => r == Ok::<u64, ComplianceModuleError>(i),
            None => r == Err::<u64, ComplianceModuleError>(
                ComplianceModuleError::IdentityRegistryNotSet,
            ),
        },
{
    match module.registries.get(&token) {
        Some(i) => Ok(*i),
        None => Err(ComplianceModuleError::IdentityRegistryNotSet),
    }
}

/// `InvalidAmount` for a negative amount.
pub fn require_non_negative_amount(amount: i128) -> (r: Result<(), ComplianceModuleError>)
    ensures
        amount < 0 ==> r == Err::<(), ComplianceModuleError>(ComplianceModuleError::InvalidAmount),
        amount >= 0 ==> r is Ok,
{
    if amount < 0 {
        return Err(ComplianceModuleError::InvalidAmount);
    }
    Ok(())
}

/// `left + right`, or `MathOverflow` when it does not fit.
pub fn add_i128_or_panic(left: i128, right: i128) -> (r: Result<i128, ComplianceModuleError>)
    ensures
        i128::MIN <= left + right <= i128::MAX ==> r == Ok::<i128, ComplianceModuleError>(
            (left + right) as i128,
        ),
        !(i128::MIN <= left + right <= i128::MAX) ==> r == Err::<i128, ComplianceModuleError>(
            ComplianceModuleError::MathOverflow,
        ),
{
    match left.checked_add(right) {
        Some(v) => Ok(v),
        None => Err(ComplianceModuleError::MathOverflow),
    }
}

/// `left - right`, or `MathUnderflow` when it does not fit.
pub fn sub_i128_or_panic(left: i128, right: i128) -> (r: Result<i128, ComplianceModuleError>)
    ensures
        i128::MIN <= left - right <= i128::MAX ==> r == Ok::<i128, ComplianceModuleError>(
            (left - right) as i128,
        ),
        !(i128::MIN <= left - right <= i128::MAX) ==> r == Err::<i128, ComplianceModuleError>(
            ComplianceModuleError::MathUnderflow,
        ),
{
    match left.checked_sub(right) {
        Some(v) => Ok(v),
        None => Err(ComplianceModuleError::MathUnderflow),
    }
}

} // verus!
