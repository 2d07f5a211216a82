//! What holds of assets as a whole.
use vstd::prelude::*;

use crate::account::{prefix_type, AccountType, RawAccountId};
use crate::asset::{
    amount_word, asset_fault, asset_size, asset_values, fungible_difference, fungible_fault,
    fungible_parts_fault, fungible_sum, non_fungible_fault, valid_asset, Asset, AssetFault,
    RawAsset, MAX_AMOUNT,
};
use crate::delta::valid_change;
use crate::vault_key::{is_fungible_key, key_faucet, valid_key};
use crate::word::RawWord;

verus! {

/// The largest amount of a fungible asset is `2^63 - 2^31`. The amount is the first element of the
/// value, and the other three are zero.
pub proof fn law_amounts(amount: u64)
    ensures
        MAX_AMOUNT == 0x8000_0000_0000_0000 - 0x8000_0000,
        amount_word(amount) == (amount, 0u64, 0u64, 0u64),
{
}

/// A fungible asset can be created for every fungible faucet with every amount up to the largest
/// one, and for nothing else. An issuer of another type is reported first.
pub proof fn law_when_fungible_asset_is_created(faucet: RawAccountId, amount: u64)
    ensures
        fungible_parts_fault(faucet, amount) == if prefix_type(faucet.0)
            != AccountType::FungibleFaucet {
            Some(AssetFault::FungibleFaucetIdTypeMismatch(faucet))
        } else if amount > 0x8000_0000_0000_0000 - 0x8000_0000 {
            Some(AssetFault::FungibleAssetAmountTooBig(amount))
        } else {
            None
        },
{
}

/// A vault key and a value form an asset if and only if the value is one that the issuer can give
/// out under this key: for a fungible faucet an amount that is not too large, and for a
/// non-fungible faucet a value that starts with the asset ID.
pub proof fn law_which_values_form_assets(key: RawWord, value: RawWord)
    requires
        valid_key(key),
    ensures
        asset_fault(key, value) is None <==> if is_fungible_key(key) {
            value.0 <= 0x8000_0000_0000_0000 - 0x8000_0000 && value.1 == 0 && value.2 == 0
                && value.3 == 0
        } else {
            value.0 == key.0 && value.1 == key.1
        },
        asset_fault(key, value) == if is_fungible_key(key) {
            fungible_fault(key, value)
        } else {
            non_fungible_fault(key, value)
        },
        valid_asset(key, value) <==> asset_fault(key, value) is None,
        is_fungible_key(key) ==> non_fungible_fault(key, value) is Some,
        !is_fungible_key(key) ==> fungible_fault(key, value) is Some,
{
}

/// What is refused as a fungible asset is refused for its asset ID first, then for an element of
/// the value that is not zero, then for its issuer, and then for its amount.
pub proof fn law_refused_fungible_assets(key: RawWord, value: RawWord)
    ensures
        fungible_fault(key, value) matches Some(fault) ==> {
            if key.0 != 0 || key.1 != 0 {
                fault == AssetFault::FungibleAssetIdMustBeZero((key.0, key.1))
            } else if value.1 != 0 || value.2 != 0 || value.3 != 0 {
                fault == AssetFault::FungibleAssetValueMostSignificantElementsMustBeZero(value)
            } else if !is_fungible_key(key) {
                fault == AssetFault::FungibleFaucetIdTypeMismatch(key_faucet(key))
            } else {
                fault == AssetFault::FungibleAssetAmountTooBig(value.0) && value.0
                    > 0x8000_0000_0000_0000 - 0x8000_0000
            }
        },
{
}

/// What is refused as a non-fungible asset is refused for its asset ID first, and then for its
/// issuer.
pub proof fn law_refused_non_fungible_assets(key: RawWord, value: RawWord)
    ensures
        non_fungible_fault(key, value) matches Some(fault) ==> {
            if value.0 != key.0 || value.1 != key.1 {
                fault == (AssetFault::NonFungibleAssetIdMustMatchValue {
                    asset_id: (key.0, key.1),
                    value,
                })
            } else {
                prefix_type(key.3) != AccountType::NonFungibleFaucet && fault
                    == AssetFault::NonFungibleFaucetIdTypeMismatch(key_faucet(key))
            }
        },
{
}

/// Two fungible assets can be added if and only if they have the same vault key and their amounts
/// sum up to no more than the largest amount. The sum has the vault key of both and the sum of the
/// amounts.
pub proof fn law_sums(a: RawAsset, b: RawAsset)
    requires
        valid_asset(a.0, a.1),
        valid_asset(b.0, b.1),
        is_fungible_key(a.0),
        is_fungible_key(b.0),
    ensures
        fungible_sum(a, b) is Ok <==> a.0 == b.0 && a.1.0 + b.1.0 <= 0x8000_0000_0000_0000
            - 0x8000_0000,
        fungible_sum(a, b) matches Ok(sum) ==> sum.0 == a.0 && sum.1.0 == a.1.0 + b.1.0
            && valid_asset(sum.0, sum.1),
        a.0 != b.0 ==> fungible_sum(a, b) == Err::<RawAsset, _>(
            AssetFault::FungibleAssetInconsistentVaultKeys { original_key: a.0, other_key: b.0 },
        ),
        a.0 == b.0 && fungible_sum(a, b) is Err ==> fungible_sum(a, b) == Err::<RawAsset, _>(
            AssetFault::FungibleAssetAmountTooBig((a.1.0 + b.1.0) as u64),
        ),
{
}

/// The order in which two fungible assets are added does not matter.
pub proof fn law_sums_commute(a: RawAsset, b: RawAsset)
    ensures
        fungible_sum(a, b) is Ok <==> fungible_sum(b, a) is Ok,
        fungible_sum(a, b) is Ok ==> fungible_sum(a, b) == fungible_sum(b, a),
{
}

/// A fungible asset can be subtracted from another if and only if they have the same vault key and
/// its amount is not larger. The difference has the vault key of both and the difference of the
/// amounts.
pub proof fn law_differences(a: RawAsset, b: RawAsset)
    requires
        valid_asset(a.0, a.1),
        valid_asset(b.0, b.1),
        is_fungible_key(a.0),
        is_fungible_key(b.0),
    ensures
        fungible_difference(a, b) is Ok <==> a.0 == b.0 && b.1.0 <= a.1.0,
        fungible_difference(a, b) matches Ok(rest) ==> rest.0 == a.0 && rest.1.0 + b.1.0 == a.1.0
            && valid_asset(rest.0, rest.1),
        a.0 != b.0 ==> fungible_difference(a, b) == Err::<RawAsset, _>(
            AssetFault::FungibleAssetInconsistentVaultKeys { original_key: a.0, other_key: b.0 },
        ),
        a.0 == b.0 && fungible_difference(a, b) is Err ==> fungible_difference(a, b) == Err::<
            RawAsset,
            _,
        >(
            AssetFault::FungibleAssetAmountNotSufficient { minuend: a.1.0, subtrahend: b.1.0 },
        ),
{
}

/// Subtracting what was added gives back what was there before.
pub proof fn law_difference_undoes_sum(a: RawAsset, b: RawAsset)
    requires
        valid_asset(a.0, a.1),
        valid_asset(b.0, b.1),
        is_fungible_key(a.0),
        fungible_sum(a, b) is Ok,
    ensures
        fungible_difference(fungible_sum(a, b)->Ok_0, b) == Ok::<_, AssetFault>(a),
{
}

/// A serialized asset takes 15 bytes for its faucet and one for its callback flag, and besides them
/// eight bytes for an amount or 32 bytes for a value.
pub proof fn law_asset_sizes(key: RawWord)
    ensures
        asset_size(key) == 15 + 1 + (if is_fungible_key(key) {
            8int
        } else {
            32int
        }),
{
}

/// The values of a list of assets are those of its assets in order.
pub proof fn law_asset_values(assets: Seq<Asset>)
    ensures
        asset_values(assets).len() == assets.len(),
        forall|i: int| 0 <= i < assets.len() ==> asset_values(assets)[i] == #[trigger] assets[i]@,
{
}

/// The change of an amount is in bounds if and only if its absolute value is an amount.
pub proof fn law_changes_in_bounds(amount: i64)
    ensures
        valid_change(amount) <==> {
            &&& amount <= 0x8000_0000_0000_0000 - 0x8000_0000
            &&& -amount <= 0x8000_0000_0000_0000 - 0x8000_0000
        },
{
}

} // verus!
