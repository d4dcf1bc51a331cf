//! A tokenized vault: shares of the vault are a fungible token, backed by an
//! underlying asset held by the vault. Conversions between the two use
//! virtual shares (`10^offset`) and one virtual asset, which blunts share
//! price inflation in an empty vault.
//!
//! The asset contract is another contract: what it reports (the vault's
//! asset balance, its decimals) comes in as arguments, and the asset
//! movements that a deposit or a withdrawal needs come out as
//! [`AssetTransfer`] values for the caller to carry out.
use vstd::arithmetic::div_mod::{
    lemma_div_is_ordered, lemma_fundamental_div_mod, lemma_fundamental_div_mod_converse_div,
    lemma_mod_bound,
};
use vstd::prelude::*;

use crate::fungible::{Base, FungibleStorage, FungibleTokenError};
use crate::math::{
    div_ceil, div_floor, fits_i128, lemma_rounding_gap, lemma_rounding_monotone, mul_div_value,
    mul_div_with_rounding, MathError, Rounding,
};

verus! {

/// Errors of the vault.
#[derive(Clone, Copy, Debug, PartialEq, Eq)]
pub enum VaultTokenError {
    VaultAssetAddressNotSet,
    VaultAssetAddressAlreadySet,
    VaultVirtualDecimalsOffsetAlreadySet,
    VaultInvalidAssetsAmount,
    VaultInvalidSharesAmount,
    VaultExceededMaxDeposit,
    VaultExceededMaxMint,
    VaultExceededMaxWithdraw,
    VaultExceededMaxRedeem,
    VaultMaxDecimalsOffsetExceeded,
    MathOverflow,
}

/// Why a vault operation failed: a vault rule, the share token's own rules,
/// or the fixed-point arithmetic.
#[derive(Clone, Copy, Debug, PartialEq, Eq)]
pub enum VaultFailure {
    Vault(VaultTokenError),
    Token(FungibleTokenError),
    Math(MathError),
}

/// The vault's configuration entries.
#[derive(Clone, Copy, Debug, PartialEq, Eq)]
pub enum VaultStorageKey {
    /// The underlying asset.
    AssetAddress,
    /// The virtual decimals offset.
    VirtualDecimalsOffset,
}

/// Suggested upper bound for the decimals offset.
pub const MAX_DECIMALS_OFFSET: u32 = 10;

/// The vault's configuration: the underlying asset and the decimals offset,
/// each set at most once.
pub struct VaultStorage {
    asset: Option<u64>,
    decimals_offset: Option<u32>,
}

/// A movement of the underlying asset that a vault operation asks for.
#[derive(Clone, Copy, Debug, PartialEq, Eq)]
pub enum AssetTransfer {
    /// `from` pays `amount` of `asset` into the vault.
    IntoVault { asset: u64, from: u64, amount: i128 },
    /// `operator` moves `amount` of `asset` from `from` into the vault, using
    /// its allowance on the asset.
    IntoVaultFrom { asset: u64, operator: u64, from: u64, amount: i128 },
    /// The vault pays `amount` of `asset` to `to`.
    OutOfVault { asset: u64, to: u64, amount: i128 },
}

/// `10^n`.
pub open spec fn pow10(n: nat) -> int
    decreases n,
{
    if n == 0 {
        1
    } else {
        10 * pow10((n - 1) as nat)
    }
}

/// The shares that `assets` are worth: `assets * (supply + 10^offset) /
/// (total_assets + 1)`, rounded as asked.
pub open spec fn shares_for(
    assets: int,
    supply: int,
    total_assets: int,
    offset: nat,
    rounding: Rounding,
) -> int {
    mul_div_value(assets, supply + pow10(offset), total_assets + 1, rounding)
}

/// The assets that `shares` are worth: `shares * (total_assets + 1) /
/// (supply + 10^offset)`, rounded as asked.
pub open spec fn assets_for(
    shares: int,
    supply: int,
    total_assets: int,
    offset: nat,
    rounding: Rounding,
) -> int {
    mul_div_value(shares, total_assets + 1, supply + pow10(offset), rounding)
}

/// The outcome of converting `assets` to shares, as the vault computes it.
pub open spec fn shares_outcome(
    asset_set: bool,
    assets: int,
    supply: int,
    total_assets: int,
    offset: nat,
    rounding: Rounding,
) -> Result<i128, VaultFailure> {
    if assets < 0 {
        Err(VaultFailure::Vault(VaultTokenError::VaultInvalidAssetsAmount))
    } else if assets == 0 {
        Ok(0)
    } else if supply + pow10(offset) > i128::MAX {
        Err(VaultFailure::Vault(VaultTokenError::MathOverflow))
    } else if !asset_set {
        Err(VaultFailure::Vault(VaultTokenError::VaultAssetAddressNotSet))
    } else if total_assets + 1 > i128::MAX {
        Err(VaultFailure::Vault(VaultTokenError::MathOverflow))
    } else if total_assets + 1 == 0 {
        Err(VaultFailure::Math(MathError::DivisionByZero))
    } else if !fits_i128(shares_for(assets, supply, total_assets, offset, rounding)) {
        Err(VaultFailure::Math(MathError::Overflow))
    } else {
        Ok(shares_for(assets, supply, total_assets, offset, rounding) as i128)
    }
}

/// The outcome of converting `shares` to assets, as the vault computes it.
pub open spec fn assets_outcome(
    asset_set: bool,
    shares: int,
    supply: int,
    total_assets: int,
    offset: nat,
    rounding: Rounding,
) -> Result<i128, VaultFailure> {
    if shares < 0 {
        Err(VaultFailure::Vault(VaultTokenError::VaultInvalidSharesAmount))
    } else if shares == 0 {
        Ok(0)
    } else if !asset_set {
        Err(VaultFailure::Vault(VaultTokenError::VaultAssetAddressNotSet))
    } else if total_assets + 1 > i128::MAX {
        Err(VaultFailure::Vault(VaultTokenError::MathOverflow))
    } else if supply + pow10(offset) > i128::MAX {
        Err(VaultFailure::Vault(VaultTokenError::MathOverflow))
    } else if !fits_i128(assets_for(shares, supply, total_assets, offset, rounding)) {
        Err(VaultFailure::Math(MathError::Overflow))
    } else {
        Ok(assets_for(shares, supply, total_assets, offset, rounding) as i128)
    }
}


/// The payment that a deposit asks for: direct from `from`, or through
/// `operator`'s allowance.
pub open spec fn asset_pull(asset: u64, from: u64, operator: u64, amount: i128) -> AssetTransfer {
    if operator == from {
        AssetTransfer::IntoVault { asset, from, amount }
    } else {
        AssetTransfer::IntoVaultFrom { asset, operator, from, amount }
    }
}

/// What [`Vault::deposit_internal`] returns.
pub open spec fn deposit_internal_outcome(
    vault: &VaultStorage,
    token: &FungibleStorage,
    receiver: u64,
    assets: i128,
    shares: i128,
    from: u64,
    operator: u64,
) -> Result<AssetTransfer, VaultFailure> {
    match vault.asset_view() {
        None => Err(VaultFailure::Vault(VaultTokenError::VaultAssetAddressNotSet)),
        Some(asset) => match token.update_error(None, Some(receiver), shares as int) {
            Some(e) => Err(VaultFailure::Token(e)),
            None => Ok(asset_pull(asset, from, operator, assets)),
        },
    }
}

/// What [`Vault::withdraw_internal`] returns.
pub open spec fn withdraw_internal_outcome(
    vault: &VaultStorage,
    token: &FungibleStorage,
    receiver: u64,
    owner: u64,
    assets: i128,
    shares: i128,
    operator: u64,
    current_ledger: u32,
) -> Result<AssetTransfer, VaultFailure> {
    if operator != owner && token.spend_error(owner, operator, shares as int, current_ledger) is Some {
        Err(VaultFailure::Token(token.spend_error(owner, operator, shares as int, current_ledger)->0))
    } else if token.update_error(Some(owner), None, shares as int) is Some {
        Err(VaultFailure::Token(token.update_error(Some(owner), None, shares as int)->0))
    } else {
        match vault.asset_view() {
            None => Err(VaultFailure::Vault(VaultTokenError::VaultAssetAddressNotSet)),
            Some(asset) => Ok(AssetTransfer::OutOfVault { asset, to: receiver, amount: assets }),
        }
    }
}

impl VaultStorage {
    pub closed spec fn asset_view(&self) -> Option<u64> {
        self.asset
    }

    /// The decimals offset in force (`0` until one is set).
    pub closed spec fn offset(&self) -> nat {
        match self.decimals_offset {
            Some(o) => o as nat,
            None => 0,
        }
    }

    pub closed spec fn offset_is_set(&self) -> bool {
        self.decimals_offset is Some
    }

    /// The offset never exceeds [`MAX_DECIMALS_OFFSET`].
    pub closed spec fn wf(&self) -> bool {
        self.offset() <= 10
    }

    /// A vault with neither asset nor offset set.
    pub fn new() -> (v: Self)
        ensures
            v.wf(),
            v.asset_view() is None,
            !v.offset_is_set(),
            v.offset() == 0,
    {
        VaultStorage { asset: None, decimals_offset: None }
    }
}

/// `10^n` for the offsets that the vault accepts.
fn pow10_exec(n: u32) -> (r: i128)
    requires
        n <= 10,
    ensures
        r == pow10(n as nat),
        1 <= r <= 10_000_000_000,
{
    proof {
        reveal_with_fuel(pow10, 11);
    }
    match n {
        0 => 1,
        1 => 10,
        2 => 100,
        3 => 1_000,
        4 => 10_000,
        5 => 100_000,
        6 => 1_000_000,
        7 => 10_000_000,
        8 => 100_000_000,
        9 => 1_000_000_000,
        _ => 10_000_000_000,
    }
}

proof fn lemma_pow10_pos(n: nat)
    ensures
        pow10(n) >= 1,
    decreases n,
{
    if n > 0 {
        lemma_pow10_pos((n - 1) as nat);
    }
}

/// The vault's operations.
pub struct Vault;

impl Vault {
    /// The underlying asset; fails with `VaultAssetAddressNotSet` until
    /// [`Vault::set_asset`] has been called.
    pub fn query_asset(vault: &VaultStorage) -> (r: Result<u64, VaultTokenError>)
        ensures
            match vault.asset_view() {
                Some(a) => r == Ok::<u64, VaultTokenError>(a),
                None => r == Err::<u64, VaultTokenError>(VaultTokenError::VaultAssetAddressNotSet),
            },
    {
        match vault.asset {
            Some(a) => Ok(a),
            None => Err(VaultTokenError::VaultAssetAddressNotSet),
        }
    }

    /// The assets held by the vault, given the balance that the asset
    /// contract reports for it; fails while no asset is set.
    pub fn total_assets(vault: &VaultStorage, reported_balance: i128) -> (r: Result<
        i128,
        VaultTokenError,
    >)
        ensures
            match vault.asset_view() {
                Some(_) => r == Ok::<i128, VaultTokenError>(reported_balance),
                None => r == Err::<i128, VaultTokenError>(VaultTokenError::VaultAssetAddressNotSet),
            },
    {
        match vault.asset {
            Some(_) => Ok(reported_balance),
            None => Err(VaultTokenError::VaultAssetAddressNotSet),
        }
    }

    /// The decimals offset in force (`0` until one is set).
    pub fn get_decimals_offset(vault: &VaultStorage) -> (r: u32)
        ensures
            r == vault.offset(),
    {
        match vault.decimals_offset {
            Some(o) => o,
            None => 0,
        }
    }

    /// The decimals of the shares: the asset's decimals (as the asset
    /// contract reports them) plus the offset.
    pub fn decimals(vault: &VaultStorage, asset_decimals: u32) -> (r: Result<u32, VaultTokenError>)
        ensures
            vault.asset_view() is None ==> r == Err::<u32, VaultTokenError>(
                VaultTokenError::VaultAssetAddressNotSet,
            ),
            vault.asset_view() is Some ==> (if asset_decimals + vault.offset() > u32::MAX {
                r == Err::<u32, VaultTokenError>(VaultTokenError::MathOverflow)
            } else {
                r == Ok::<u32, VaultTokenError>((asset_decimals + vault.offset()) as u32)
            }),
    {
        if vault.asset.is_none() {
            return Err(VaultTokenError::VaultAssetAddressNotSet);
        }
        match asset_decimals.checked_add(Self::get_decimals_offset(vault)) {
            Some(d) => Ok(d),
            None => Err(VaultTokenError::MathOverflow),
        }
    }

    /// Sets the underlying asset, once.
    pub fn set_asset(vault: &mut VaultStorage, asset: u64) -> (r: Result<(), VaultTokenError>)
        requires
            old(vault).wf(),
        ensures
            final(vault).wf(),
            old(vault).asset_view() is Some ==> r == Err::<(), VaultTokenError>(
                VaultTokenError::VaultAssetAddressAlreadySet,
            ) && *final(vault) == *old(vault),
            old(vault).asset_view() is None ==> r is Ok && final(vault).asset_view() == Some(asset)
                && final(vault).offset() == old(vault).offset() && final(vault).offset_is_set()
                == old(vault).offset_is_set(),
    {
        if vault.asset.is_some() {
            return Err(VaultTokenError::VaultAssetAddressAlreadySet);
        }
        vault.asset = Some(asset);
        Ok(())
    }

    /// Sets the decimals offset, once, to at most [`MAX_DECIMALS_OFFSET`].
    pub fn set_decimals_offset(vault: &mut VaultStorage, offset: u32) -> (r: Result<
        (),
        VaultTokenError,
    >)
        requires
            old(vault).wf(),
        ensures
            final(vault).wf(),
            offset > MAX_DECIMALS_OFFSET ==> r == Err::<(), VaultTokenError>(
                VaultTokenError::VaultMaxDecimalsOffsetExceeded,
            ),
            offset <= MAX_DECIMALS_OFFSET && old(vault).offset_is_set() ==> r == Err::<
                (),
                VaultTokenError,
            >(VaultTokenError::VaultVirtualDecimalsOffsetAlreadySet),
            r is Err ==> *final(vault) == *old(vault),
            offset <= MAX_DECIMALS_OFFSET && !old(vault).offset_is_set() ==> r is Ok
                && final(vault).offset() == offset && final(vault).offset_is_set()
                && final(vault).asset_view() == old(vault).asset_view(),
    {
        if offset > MAX_DECIMALS_OFFSET {
            return Err(VaultTokenError::VaultMaxDecimalsOffsetExceeded);
        }
        if vault.decimals_offset.is_some() {
            return Err(VaultTokenError::VaultVirtualDecimalsOffsetAlreadySet);
        }
        vault.decimals_offset = Some(offset);
        Ok(())
    }

    /// Converts `assets` to shares, rounding as asked, against the vault's
    /// current asset holdings `total_assets`.
    pub fn convert_to_shares_with_rounding(
        vault: &VaultStorage,
        token: &FungibleStorage,
        total_assets: i128,
        assets: i128,
        rounding: Rounding,
    ) -> (r: Result<i128, VaultFailure>)
        requires
            vault.wf(),
        ensures
            r == shares_outcome(
                vault.asset_view() is Some,
                assets as int,
                token.supply(),
                total_assets as int,
                vault.offset(),
                rounding,
            ),
    {
        if assets < 0 {
            return Err(VaultFailure::Vault(VaultTokenError::VaultInvalidAssetsAmount));
        }
        if assets == 0 {
            return Ok(0);
        }
        let pow = pow10_exec(Self::get_decimals_offset(vault));
        let y = match Base::total_supply(token).checked_add(pow) {
            Some(v) => v,
            None => {
                return Err(VaultFailure::Vault(VaultTokenError::MathOverflow));
            },
        };
        if vault.asset.is_none() {
            return Err(VaultFailure::Vault(VaultTokenError::VaultAssetAddressNotSet));
        }
        let denominator = match total_assets.checked_add(1) {
            Some(v) => v,
            None => {
                return Err(VaultFailure::Vault(VaultTokenError::MathOverflow));
            },
        };
        match mul_div_with_rounding(assets, y, denominator, rounding) {
            Ok(v) => Ok(v),
            Err(e) => Err(VaultFailure::Math(e)),
        }
    }

    /// Converts `shares` to assets, rounding as asked, against the vault's
    /// current asset holdings `total_assets`.
    pub fn convert_to_assets_with_rounding(
        vault: &VaultStorage,
        token: &FungibleStorage,
        total_assets: i128,
        shares: i128,
        rounding: Rounding,
    ) -> (r: Result<i128, VaultFailure>)
        requires
            vault.wf(),
            token.wf(),
        ensures
            r == assets_outcome(
                vault.asset_view() is Some,
                shares as int,
                token.supply(),
                total_assets as int,
                vault.offset(),
                rounding,
            ),
    {
        if shares < 0 {
            return Err(VaultFailure::Vault(VaultTokenError::VaultInvalidSharesAmount));
        }
        if shares == 0 {
            return Ok(0);
        }
        if vault.asset.is_none() {
            return Err(VaultFailure::Vault(VaultTokenError::VaultAssetAddressNotSet));
        }
        let y = match total_assets.checked_add(1) {
            Some(v) => v,
            None => {
                return Err(VaultFailure::Vault(VaultTokenError::MathOverflow));
            },
        };
        let pow = pow10_exec(Self::get_decimals_offset(vault));
        let denominator = match Base::total_supply(token).checked_add(pow) {
            Some(v) => v,
            None => {
                return Err(VaultFailure::Vault(VaultTokenError::MathOverflow));
            },
        };
        proof {
            crate::fungible::lemma_supply_is_sum_of_balances(token);
            lemma_pow10_pos(vault.offset());
        }
        match mul_div_with_rounding(shares, y, denominator, rounding) {
            Ok(v) => Ok(v),
            Err(e) => Err(VaultFailure::Math(e)),
        }
    }

    /// Shares for `assets`, rounded down.
    pub fn convert_to_shares(
        vault: &VaultStorage,
        token: &FungibleStorage,
        total_assets: i128,
        assets: i128,
    ) -> (r: Result<i128, VaultFailure>)
        requires
            vault.wf(),
        ensures
            r == shares_outcome(
                vault.asset_view() is Some,
                assets as int,
                token.supply(),
                total_assets as int,
                vault.offset(),
                Rounding::Floor,
            ),
    {
        Self::convert_to_shares_with_rounding(vault, token, total_assets, assets, Rounding::Floor)
    }

    /// Assets for `shares`, rounded down.
    pub fn convert_to_assets(
        vault: &VaultStorage,
        token: &FungibleStorage,
        total_assets: i128,
        shares: i128,
    ) -> (r: Result<i128, VaultFailure>)
        requires
            vault.wf(),
            token.wf(),
        ensures
            r == assets_outcome(
                vault.asset_view() is Some,
                shares as int,
                token.supply(),
                total_assets as int,
                vault.offset(),
                Rounding::Floor,
            ),
    {
        Self::convert_to_assets_with_rounding(vault, token, total_assets, shares, Rounding::Floor)
    }

    /// The most assets that `receiver` may deposit: no limit.
    pub fn max_deposit(receiver: u64) -> (r: i128)
        ensures
            r == i128::MAX,
    {
        i128::MAX
    }

    /// The most shares that may be minted for `receiver`: no limit.
    pub fn max_mint(receiver: u64) -> (r: i128)
        ensures
            r == i128::MAX,
    {
        i128::MAX
    }

    /// The shares a deposit of `assets` gives (rounded down).
    pub fn preview_deposit(
        vault: &VaultStorage,
        token: &FungibleStorage,
        total_assets: i128,
        assets: i128,
    ) -> (r: Result<i128, VaultFailure>)
        requires
            vault.wf(),
        ensures
            r == shares_outcome(
                vault.asset_view() is Some,
                assets as int,
                token.supply(),
                total_assets as int,
                vault.offset(),
                Rounding::Floor,
            ),
    {
        Self::convert_to_shares_with_rounding(vault, token, total_assets, assets, Rounding::Floor)
    }

    /// The assets that minting `shares` costs (rounded up).
    pub fn preview_mint(
        vault: &VaultStorage,
        token: &FungibleStorage,
        total_assets: i128,
        shares: i128,
    ) -> (r: Result<i128, VaultFailure>)
        requires
            vault.wf(),
            token.wf(),
        ensures
            r == assets_outcome(
                vault.asset_view() is Some,
                shares as int,
                token.supply(),
                total_assets as int,
                vault.offset(),
                Rounding::Ceil,
            ),
    {
        Self::convert_to_assets_with_rounding(vault, token, total_assets, shares, Rounding::Ceil)
    }

    /// The shares that withdrawing `assets` burns (rounded up).
    pub fn preview_withdraw(
        vault: &VaultStorage,
        token: &FungibleStorage,
        total_assets: i128,
        assets: i128,
    ) -> (r: Result<i128, VaultFailure>)
        requires
            vault.wf(),
        ensures
            r == shares_outcome(
                vault.asset_view() is Some,
                assets as int,
                token.supply(),
                total_assets as int,
                vault.offset(),
                Rounding::Ceil,
            ),
    {
        Self::convert_to_shares_with_rounding(vault, token, total_assets, assets, Rounding::Ceil)
    }

    /// The assets that redeeming `shares` gives (rounded down).
    pub fn preview_redeem(
        vault: &VaultStorage,
        token: &FungibleStorage,
        total_assets: i128,
        shares: i128,
    ) -> (r: Result<i128, VaultFailure>)
        requires
            vault.wf(),
            token.wf(),
        ensures
            r == assets_outcome(
                vault.asset_view() is Some,
                shares as int,
                token.supply(),
                total_assets as int,
                vault.offset(),
                Rounding::Floor,
            ),
    {
        Self::convert_to_assets_with_rounding(vault, token, total_assets, shares, Rounding::Floor)
    }

    /// The most assets `owner` can withdraw: what its shares are worth,
    /// rounded down.
    pub fn max_withdraw(
        vault: &VaultStorage,
        token: &FungibleStorage,
        total_assets: i128,
        owner: u64,
    ) -> (r: Result<i128, VaultFailure>)
        requires
            vault.wf(),
            token.wf(),
        ensures
            r == assets_outcome(
                vault.asset_view() is Some,
                token.balance_of(owner),
                token.supply(),
                total_assets as int,
                vault.offset(),
                Rounding::Floor,
            ),
    {
        Self::convert_to_assets_with_rounding(
            vault,
            token,
            total_assets,
            Base::balance(token, owner),
            Rounding::Floor,
        )
    }

    /// The most shares `owner` can redeem: its whole share balance.
    pub fn max_redeem(token: &FungibleStorage, owner: u64) -> (r: i128)
        ensures
            r == token.balance_of(owner),
    {
        Base::balance(token, owner)
    }

    /// Mints `shares` to `receiver` for `assets` paid in by `from`; the
    /// payment is direct when `operator` is `from`, and uses `operator`'s
    /// allowance on the asset otherwise.
    pub fn deposit_internal(
        vault: &VaultStorage,
        token: &mut FungibleStorage,
        receiver: u64,
        assets: i128,
        shares: i128,
        from: u64,
        operator: u64,
    ) -> (r: Result<AssetTransfer, VaultFailure>)
        requires
            old(token).wf(),
        ensures
            final(token).wf(),
            r == deposit_internal_outcome(vault, old(token), receiver, assets, shares, from, operator),
            r is Err ==> *final(token) == *old(token),
            r is Ok ==> old(token).moved(final(token), None, Some(receiver), shares as int) && old(
                token,
            ).same_allowances(final(token)),
    {
        let asset = match Self::query_asset(vault) {
            Ok(a) => a,
            Err(e) => {
                return Err(VaultFailure::Vault(e));
            },
        };
        let pull = if operator == from {
            AssetTransfer::IntoVault { asset, from, amount: assets }
        } else {
            AssetTransfer::IntoVaultFrom { asset, operator, from, amount: assets }
        };
        match Base::update(token, None, Some(receiver), shares) {
            Ok(()) => Ok(pull),
            Err(e) => Err(VaultFailure::Token(e)),
        }
    }

    /// Burns `shares` of `owner` (spending `operator`'s allowance over them
    /// when `operator` is not `owner`) and pays `assets` out to `receiver`;
    /// on any error nothing changes.
    pub fn withdraw_internal(
        vault: &VaultStorage,
        token: &mut FungibleStorage,
        receiver: u64,
        owner: u64,
        assets: i128,
        shares: i128,
        operator: u64,
        current_ledger: u32,
    ) -> (r: Result<AssetTransfer, VaultFailure>)
        requires
            old(token).wf(),
        ensures
            final(token).wf(),
            r == withdraw_internal_outcome(
                vault,
                old(token),
                receiver,
                owner,
                assets,
                shares,
                operator,
                current_ledger,
            ),
            r is Err ==> *final(token) == *old(token),
            r is Ok ==> old(token).moved(final(token), Some(owner), None, shares as int) && (if operator
                != owner {
                old(token).spent(final(token), owner, operator, shares as int, current_ledger)
            } else {
                old(token).same_allowances(final(token))
            }),
    {
        if shares < 0 {
            return Err(VaultFailure::Token(FungibleTokenError::LessThanZero));
        }
        if operator != owner {
            if Base::allowance(token, owner, operator, current_ledger) < shares {
                return Err(VaultFailure::Token(FungibleTokenError::InsufficientAllowance));
            }
        }
        if Base::balance(token, owner) < shares {
            return Err(VaultFailure::Token(FungibleTokenError::InsufficientBalance));
        }
        let asset = match Self::query_asset(vault) {
            Ok(a) => a,
            Err(e) => {
                return Err(VaultFailure::Vault(e));
            },
        };
        let ghost before = *token;
        if operator != owner {
            let s = Base::spend_allowance(token, owner, operator, shares, current_ledger);
            assert(s is Ok);
        }
        let ghost mid = *token;
        let u = Base::update(token, Some(owner), None, shares);
        assert(u is Ok);
        proof {
            assert forall|a: u64| #[trigger] token.balance_of(a) == before.balance_of(a) - (if Some(
                owner,
            ) == Some(a) {
                shares as int
            } else {
                0
            }) by {
                assert(mid.balance_of(a) == before.balance_of(a));
            }
        }
        Ok(AssetTransfer::OutOfVault { asset, to: receiver, amount: assets })
    }

    /// Deposits `assets` paid by `from` and mints the shares they are worth
    /// (rounded down) to `receiver`; returns the shares and the payment to
    /// carry out.
    pub fn deposit(
        vault: &VaultStorage,
        token: &mut FungibleStorage,
        total_assets: i128,
        assets: i128,
        receiver: u64,
        from: u64,
        operator: u64,
    ) -> (r: Result<(i128, AssetTransfer), VaultFailure>)
        requires
            old(token).wf(),
            vault.wf(),
        ensures
            final(token).wf(),
            r is Err ==> *final(token) == *old(token),
            match shares_outcome(
                vault.asset_view() is Some,
                assets as int,
                old(token).supply(),
                total_assets as int,
                vault.offset(),
                Rounding::Floor,
            ) {
                Err(e) => r == Err::<(i128, AssetTransfer), VaultFailure>(e),
                Ok(shares) => match deposit_internal_outcome(
                    vault,
                    old(token),
                    receiver,
                    assets,
                    shares,
                    from,
                    operator,
                ) {
                    Err(e) => r == Err::<(i128, AssetTransfer), VaultFailure>(e),
                    Ok(t) => r == Ok::<(i128, AssetTransfer), VaultFailure>((shares, t)) && old(
                        token,
                    ).moved(final(token), None, Some(receiver), shares as int) && old(
                        token,
                    ).same_allowances(final(token)),
                },
            },
    {
        if assets > Self::max_deposit(receiver) {
            return Err(VaultFailure::Vault(VaultTokenError::VaultExceededMaxDeposit));
        }
        let shares = Self::preview_deposit(vault, token, total_assets, assets)?;
        let pull = Self::deposit_internal(vault, token, receiver, assets, shares, from, operator)?;
        Ok((shares, pull))
    }

    /// Mints exactly `shares` to `receiver` for the assets they cost (rounded
    /// up), paid by `from`; returns the assets and the payment to carry out.
    pub fn mint(
        vault: &VaultStorage,
        token: &mut FungibleStorage,
        total_assets: i128,
        shares: i128,
        receiver: u64,
        from: u64,
        operator: u64,
    ) -> (r: Result<(i128, AssetTransfer), VaultFailure>)
        requires
            old(token).wf(),
            vault.wf(),
        ensures
            final(token).wf(),
            r is Err ==> *final(token) == *old(token),
            match assets_outcome(
                vault.asset_view() is Some,
                shares as int,
                old(token).supply(),
                total_assets as int,
                vault.offset(),
                Rounding::Ceil,
            ) {
                Err(e) => r == Err::<(i128, AssetTransfer), VaultFailure>(e),
                Ok(assets) => match deposit_internal_outcome(
                    vault,
                    old(token),
                    receiver,
                    assets,
                    shares,
                    from,
                    operator,
                ) {
                    Err(e) => r == Err::<(i128, AssetTransfer), VaultFailure>(e),
                    Ok(t) => r == Ok::<(i128, AssetTransfer), VaultFailure>((assets, t)) && old(
                        token,
                    ).moved(final(token), None, Some(receiver), shares as int) && old(
                        token,
                    ).same_allowances(final(token)),
                },
            },
    {
        if shares > Self::max_mint(receiver) {
            return Err(VaultFailure::Vault(VaultTokenError::VaultExceededMaxMint));
        }
        let assets = Self::preview_mint(vault, token, total_assets, shares)?;
        let pull = Self::deposit_internal(vault, token, receiver, assets, shares, from, operator)?;
        Ok((assets, pull))
    }

    /// Withdraws exactly `assets` to `receiver`, burning the shares of
    /// `owner` that they cost (rounded up); fails with
    /// `VaultExceededMaxWithdraw` when `owner`'s shares are worth less.
    /// Returns the burned shares and the payment to carry out.
    pub fn withdraw(
        vault: &VaultStorage,
        token: &mut FungibleStorage,
        total_assets: i128,
        assets: i128,
        receiver: u64,
        owner: u64,
        operator: u64,
        current_ledger: u32,
    ) -> (r: Result<(i128, AssetTransfer), VaultFailure>)
        requires
            old(token).wf(),
            vault.wf(),
        ensures
            final(token).wf(),
            r is Err ==> *final(token) == *old(token),
            match assets_outcome(
                vault.asset_view() is Some,
                old(token).balance_of(owner),
                old(token).supply(),
                total_assets as int,
                vault.offset(),
                Rounding::Floor,
            ) {
                Err(e) => r == Err::<(i128, AssetTransfer), VaultFailure>(e),
                Ok(max_assets) => if assets > max_assets {
                    r == Err::<(i128, AssetTransfer), VaultFailure>(
                        VaultFailure::Vault(VaultTokenError::VaultExceededMaxWithdraw),
                    )
                } else {
                    match shares_outcome(
                        vault.asset_view() is Some,
                        assets as int,
                        old(token).supply(),
                        total_assets as int,
                        vault.offset(),
                        Rounding::Ceil,
                    ) {
                        Err(e) => r == Err::<(i128, AssetTransfer), VaultFailure>(e),
                        Ok(shares) => match withdraw_internal_outcome(
                            vault,
                            old(token),
                            receiver,
                            owner,
                            assets,
                            shares,
                            operator,
                            current_ledger,
                        ) {
                            Err(e) => r == Err::<(i128, AssetTransfer), VaultFailure>(e),
                            Ok(t) => r == Ok::<(i128, AssetTransfer), VaultFailure>((shares, t))
                                && old(token).moved(final(token), Some(owner), None, shares as int)
                                && (if operator != owner {
                                old(token).spent(final(token), owner, operator, shares as int, current_ledger)
                            } else {
                                old(token).same_allowances(final(token))
                            }),
                        },
                    }
                },
            },
    {
        let max_assets = Self::max_withdraw(vault, token, total_assets, owner)?;
        if assets > max_assets {
            return Err(VaultFailure::Vault(VaultTokenError::VaultExceededMaxWithdraw));
        }
        let shares = Self::preview_withdraw(vault, token, total_assets, assets)?;
        let pay = Self::withdraw_internal(
            vault,
            token,
            receiver,
            owner,
            assets,
            shares,
            operator,
            current_ledger,
        )?;
        Ok((shares, pay))
    }

    /// Redeems exactly `shares` of `owner` for the assets they are worth
    /// (rounded down), paid to `receiver`; fails with
    /// `VaultExceededMaxRedeem` when `owner` holds fewer shares. Returns the
    /// assets and the payment to carry out.
    pub fn redeem(
        vault: &VaultStorage,
        token: &mut FungibleStorage,
        total_assets: i128,
        shares: i128,
        receiver: u64,
        owner: u64,
        operator: u64,
        current_ledger: u32,
    ) -> (r: Result<(i128, AssetTransfer), VaultFailure>)
        requires
            old(token).wf(),
            vault.wf(),
        ensures
            final(token).wf(),
            r is Err ==> *final(token) == *old(token),
            shares > old(token).balance_of(owner) ==> r == Err::<(i128, AssetTransfer), VaultFailure>(
                VaultFailure::Vault(VaultTokenError::VaultExceededMaxRedeem),
            ),
            shares <= old(token).balance_of(owner) ==> match assets_outcome(
                vault.asset_view() is Some,
                shares as int,
                old(token).supply(),
                total_assets as int,
                vault.offset(),
                Rounding::Floor,
            ) {
                Err(e) => r == Err::<(i128, AssetTransfer), VaultFailure>(e),
                Ok(assets) => match withdraw_internal_outcome(
                    vault,
                    old(token),
                    receiver,
                    owner,
                    assets,
                    shares,
                    operator,
                    current_ledger,
                ) {
                    Err(e) => r == Err::<(i128, AssetTransfer), VaultFailure>(e),
                    Ok(t) => r == Ok::<(i128, AssetTransfer), VaultFailure>((assets, t)) && old(
                        token,
                    ).moved(final(token), Some(owner), None, shares as int) && (if operator != owner {
                        old(token).spent(final(token), owner, operator, shares as int, current_ledger)
                    } else {
                        old(token).same_allowances(final(token))
                    }),
                },
            },
    {
        if shares > Self::max_redeem(token, owner) {
            return Err(VaultFailure::Vault(VaultTokenError::VaultExceededMaxRedeem));
        }
        let assets = Self::preview_redeem(vault, token, total_assets, shares)?;
        let pay = Self::withdraw_internal(
            vault,
            token,
            receiver,
            owner,
            assets,
            shares,
            operator,
            current_ledger,
        )?;
        Ok((assets, pay))
    }
}

/// `floor(n / d) * d <= n <= ceil(n / d) * d` for `d > 0`.
proof fn lemma_rounded_quotient_bounds(n: int, d: int)
    requires
        d > 0,
    ensures
        div_floor(n, d) * d <= n,
        div_ceil(n, d) * d >= n,
{
    lemma_fundamental_div_mod(n, d);
    lemma_mod_bound(n, d);
    lemma_fundamental_div_mod(-n, d);
    lemma_mod_bound(-n, d);
    assert(div_floor(n, d) * d <= n) by (nonlinear_arith)
        requires
            n == d * (n / d) + n % d,
            0 <= n % d,
            div_floor(n, d) == n / d,
    ;
    assert(div_ceil(n, d) * d >= n) by (nonlinear_arith)
        requires
            -n == d * ((-n) / d) + (-n) % d,
            0 <= (-n) % d,
            div_ceil(n, d) == -((-n) / d),
    ;
}

/// `n <= m * d` gives `n / d <= m`, and `m * d <= n` gives `m <= n / d`.
proof fn lemma_quotient_compare(n: int, m: int, d: int)
    requires
        d > 0,
    ensures
        n <= m * d ==> n / d <= m,
        m * d <= n ==> m <= n / d,
{
    lemma_fundamental_div_mod_converse_div(m * d, d, m, 0);
    if n <= m * d {
        lemma_div_is_ordered(n, m * d, d);
    }
    if m * d <= n {
        lemma_div_is_ordered(m * d, n, d);
    }
}

/// Shares issued for assets at a rate no better than the vault's (`shares *
/// A <= assets * S`, with `S` the supply plus the virtual shares and `A` the
/// assets plus the virtual asset) are worth no more than those assets once
/// they have been issued and the assets have come in.
proof fn lemma_issue_then_redeem(shares: int, assets: int, s: int, a: int)
    requires
        shares >= 0,
        assets >= 0,
        s > 0,
        a > 0,
        shares * a <= assets * s,
    ensures
        (shares * (a + assets)) / (s + shares) <= assets,
{
    assert(shares * (a + assets) <= assets * (s + shares)) by (nonlinear_arith)
        requires
            shares * a <= assets * s,
    ;
    lemma_quotient_compare(shares * (a + assets), assets, s + shares);
}

/// Depositing assets and then redeeming all the shares that the deposit
/// minted never returns more assets than were deposited.
pub proof fn lemma_deposit_then_redeem_never_gains(
    assets: int,
    supply: int,
    total_assets: int,
    offset: nat,
)
    requires
        assets >= 0,
        supply >= 0,
        total_assets >= 0,
    ensures
        ({
            let shares = shares_for(assets, supply, total_assets, offset, Rounding::Floor);
            assets_for(
                shares,
                supply + shares,
                total_assets + assets,
                offset,
                Rounding::Floor,
            ) <= assets
        }),
{
    lemma_pow10_pos(offset);
    let s = supply + pow10(offset);
    let a = total_assets + 1;
    let shares = shares_for(assets, supply, total_assets, offset, Rounding::Floor);
    lemma_rounded_quotient_bounds(assets * s, a);
    lemma_quotient_compare(assets * s, 0, a);
    assert(shares >= 0);
    assert(shares * a <= assets * s);
    lemma_issue_then_redeem(shares, assets, s, a);
    assert(supply + shares + pow10(offset) == s + shares);
    assert(total_assets + assets + 1 == a + assets);
}

/// Minting shares and then redeeming them never returns more assets than
/// the mint cost.
pub proof fn lemma_mint_then_redeem_never_gains(
    shares: int,
    supply: int,
    total_assets: int,
    offset: nat,
)
    requires
        shares >= 0,
        supply >= 0,
        total_assets >= 0,
    ensures
        ({
            let cost = assets_for(shares, supply, total_assets, offset, Rounding::Ceil);
            assets_for(shares, supply + shares, total_assets + cost, offset, Rounding::Floor)
                <= cost
        }),
{
    lemma_pow10_pos(offset);
    let s = supply + pow10(offset);
    let a = total_assets + 1;
    let cost = assets_for(shares, supply, total_assets, offset, Rounding::Ceil);
    lemma_rounded_quotient_bounds(shares * a, s);
    assert(shares * a >= 0) by (nonlinear_arith)
        requires
            shares >= 0,
            a > 0,
    ;
    lemma_quotient_compare(-(shares * a), 0, s);
    assert(cost >= 0);
    assert(cost * s >= shares * a);
    assert(shares * a <= cost * s);
    lemma_issue_then_redeem(shares, cost, s, a);
    assert(supply + shares + pow10(offset) == s + shares);
    assert(total_assets + cost + 1 == a + cost);
}

/// The shares that a withdrawal burns are worth at least the assets it pays
/// out.
pub proof fn lemma_withdraw_burns_enough(
    assets: int,
    supply: int,
    total_assets: int,
    offset: nat,
)
    requires
        assets >= 0,
        supply >= 0,
        total_assets >= 0,
    ensures
        assets_for(
            shares_for(assets, supply, total_assets, offset, Rounding::Ceil),
            supply,
            total_assets,
            offset,
            Rounding::Floor,
        ) >= assets,
{
    lemma_pow10_pos(offset);
    let s = supply + pow10(offset);
    let a = total_assets + 1;
    let burned = shares_for(assets, supply, total_assets, offset, Rounding::Ceil);
    lemma_rounded_quotient_bounds(assets * s, a);
    assert(burned * a >= assets * s);
    lemma_quotient_compare(burned * a, assets, s);
}

/// On one vault state, converting assets to shares rounded up gives the
/// rounded-down shares or one more, the same exactly when the division is
/// exact; and more assets never give fewer shares, either way rounded.
pub proof fn lemma_shares_rounding(
    x: int,
    y: int,
    supply: int,
    total_assets: int,
    offset: nat,
)
    requires
        0 <= x <= y,
        supply >= 0,
        total_assets >= 0,
    ensures
        shares_for(x, supply, total_assets, offset, Rounding::Floor) <= shares_for(
            x,
            supply,
            total_assets,
            offset,
            Rounding::Ceil,
        ) <= shares_for(x, supply, total_assets, offset, Rounding::Floor) + 1,
        shares_for(x, supply, total_assets, offset, Rounding::Ceil) == shares_for(
            x,
            supply,
            total_assets,
            offset,
            Rounding::Floor,
        ) <==> (x * (supply + pow10(offset))) % (total_assets + 1) == 0,
        shares_for(x, supply, total_assets, offset, Rounding::Floor) <= shares_for(
            y,
            supply,
            total_assets,
            offset,
            Rounding::Floor,
        ),
        shares_for(x, supply, total_assets, offset, Rounding::Ceil) <= shares_for(
            y,
            supply,
            total_assets,
            offset,
            Rounding::Ceil,
        ),
{
    lemma_pow10_pos(offset);
    let s = supply + pow10(offset);
    let a = total_assets + 1;
    lemma_rounding_gap(x * s, a);
    assert(x * s <= y * s) by (nonlinear_arith)
        requires
            x <= y,
            s > 0,
    ;
    lemma_rounding_monotone(x * s, y * s, a);
}

/// On one vault state, converting shares to assets rounded up gives the
/// rounded-down assets or one more, the same exactly when the division is
/// exact; and more shares never give fewer assets, either way rounded.
pub proof fn lemma_assets_rounding(
    x: int,
    y: int,
    supply: int,
    total_assets: int,
    offset: nat,
)
    requires
        0 <= x <= y,
        supply >= 0,
        total_assets >= 0,
    ensures
        assets_for(x, supply, total_assets, offset, Rounding::Floor) <= assets_for(
            x,
            supply,
            total_assets,
            offset,
            Rounding::Ceil,
        ) <= assets_for(x, supply, total_assets, offset, Rounding::Floor) + 1,
        assets_for(x, supply, total_assets, offset, Rounding::Ceil) == assets_for(
            x,
            supply,
            total_assets,
            offset,
            Rounding::Floor,
        ) <==> (x * (total_assets + 1)) % (supply + pow10(offset)) == 0,
        assets_for(x, supply, total_assets, offset, Rounding::Floor) <= assets_for(
            y,
            supply,
            total_assets,
            offset,
            Rounding::Floor,
        ),
        assets_for(x, supply, total_assets, offset, Rounding::Ceil) <= assets_for(
            y,
            supply,
            total_assets,
            offset,
            Rounding::Ceil,
        ),
{
    lemma_pow10_pos(offset);
    let s = supply + pow10(offset);
    let a = total_assets + 1;
    lemma_rounding_gap(x * a, s);
    assert(x * a <= y * a) by (nonlinear_arith)
        requires
            x <= y,
            a > 0,
    ;
    lemma_rounding_monotone(x * a, y * a, s);
}

/// On one vault state, turning assets into shares (rounded down) and those
/// shares back into assets, rounded either way, never gives more assets
/// than there were.
pub proof fn lemma_shares_and_back_never_gain(
    assets: int,
    supply: int,
    total_assets: int,
    offset: nat,
)
    requires
        assets >= 0,
        supply >= 0,
        total_assets >= 0,
    ensures
        ({
            let shares = shares_for(assets, supply, total_assets, offset, Rounding::Floor);
            &&& assets_for(shares, supply, total_assets, offset, Rounding::Floor) <= assets
            &&& assets_for(shares, supply, total_assets, offset, Rounding::Ceil) <= assets
        }),
{
    lemma_pow10_pos(offset);
    let s = supply + pow10(offset);
    let a = total_assets + 1;
    let shares = shares_for(assets, supply, total_assets, offset, Rounding::Floor);
    lemma_rounded_quotient_bounds(assets * s, a);
    lemma_quotient_compare(assets * s, 0, a);
    assert(shares >= 0);
    assert(shares * a <= assets * s);
    // ceil(shares * a / s) <= assets because -(shares * a) >= (-assets) * s.
    assert(-(shares * a) >= (-assets) * s) by (nonlinear_arith)
        requires
            shares * a <= assets * s,
    ;
    lemma_quotient_compare(-(shares * a), -assets, s);
    lemma_rounding_gap(shares * a, s);
}

} // verus!
