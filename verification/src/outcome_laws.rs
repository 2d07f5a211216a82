//! What exactly the operations of a vault return.
use vstd::prelude::*;

use crate::asset::{valid_asset, AssetFault, RawAsset};
use crate::asset_laws::law_asset_sizes;
use crate::delta::{valid_delta, DeltaState, NonFungibleDeltaAction};
use crate::key_laws::{law_word_order, word_number};
use crate::key_map::{is_listing, lemma_listing_exists, lemma_listing_unique, listing};
use crate::merkle::{leaf_keys, value_at, MerkleFault};
use crate::vault::{
    add_step, buildable, delta_step, fungible_changes, lemma_list_is_synced, non_fungible_changes,
    remove_step, total_size, tree_list, valid_vault, vault_of, VaultFault, VaultState,
};
use crate::vault_key::{is_fungible_key, smt_key};
use crate::vault_laws::{
    hash_is_free, lemma_built_entries, lemma_free_hash, lemma_fungible_value,
    lemma_listed_not_empty,
};
use crate::word::{word_less, RawWord};

verus! {

/// The number of pairs that the tree of a vault has in the leaf of a hash.
pub open spec fn pairs_in_leaf(vault: VaultState, hash: RawWord) -> nat {
    vault.tree.dom().filter(|h: RawWord| h.3 == hash.3).len()
}

/// The leaf of a vault key is full: no entry has the hash of the key, and there are 1024 others in
/// its leaf.
pub open spec fn leaf_is_full(vault: VaultState, key: RawWord) -> bool {
    hash_is_free(vault.entries, smt_key(key)) && pairs_in_leaf(vault, smt_key(key)) >= 1024
}

/// What adding a fungible asset returns. With the amount that the vault has of it already, it is
/// too large, or it would need a place in a full leaf, or it is the new total.
pub proof fn law_outcome_of_adding_fungible(vault: VaultState, asset: RawAsset)
    requires
        valid_vault(vault),
        valid_asset(asset.0, asset.1),
        is_fungible_key(asset.0),
    ensures
        ({
            let total = value_at(vault.entries, asset.0).0 + asset.1.0;
            let outcome = add_step(vault, asset).1;
            if total > 0x8000_0000_0000_0000 - 0x8000_0000 {
                outcome == Err::<RawAsset, _>(
                    VaultFault::AddFungibleAssetBalanceError(
                        AssetFault::FungibleAssetAmountTooBig(total as u64),
                    ),
                )
            } else if total > 0 && leaf_is_full(vault, asset.0) {
                outcome == Err::<RawAsset, _>(
                    VaultFault::MaxLeafEntriesExceeded(
                        MerkleFault::TooManyLeafEntries {
                            actual: (pairs_in_leaf(vault, smt_key(asset.0)) + 1) as usize,
                        },
                    ),
                )
            } else {
                outcome == Ok::<_, VaultFault>((asset.0, (total as u64, 0u64, 0u64, 0u64)))
            }
        }),
        add_step(vault, asset).1 is Err ==> add_step(vault, asset).0 == vault,
{
    lemma_free_hash(vault, smt_key(asset.0));
    lemma_fungible_value(vault, asset.0);
    assert(leaf_keys(vault.tree, smt_key(asset.0).3) =~= vault.tree.dom().filter(
        |h: RawWord| h.3 == smt_key(asset.0).3,
    ));
}

/// What adding a non-fungible asset returns. It would need a place in a full leaf, or an entry has
/// its hash already, which it replaces, or it is the asset.
pub proof fn law_outcome_of_adding_non_fungible(vault: VaultState, asset: RawAsset)
    requires
        valid_vault(vault),
        valid_asset(asset.0, asset.1),
        !is_fungible_key(asset.0),
    ensures
        ({
            let (after, outcome) = add_step(vault, asset);
            if asset.1 != (0u64, 0u64, 0u64, 0u64) && leaf_is_full(vault, asset.0) {
                after == vault && outcome == Err::<RawAsset, _>(
                    VaultFault::MaxLeafEntriesExceeded(
                        MerkleFault::TooManyLeafEntries {
                            actual: (pairs_in_leaf(vault, smt_key(asset.0)) + 1) as usize,
                        },
                    ),
                )
            } else {
                &&& outcome == if hash_is_free(vault.entries, smt_key(asset.0)) {
                    Ok::<RawAsset, VaultFault>(asset)
                } else {
                    Err::<RawAsset, VaultFault>(VaultFault::DuplicateNonFungibleAsset(asset))
                }
                &&& value_at(after.entries, asset.0) == asset.1
                &&& value_at(after.tree, smt_key(asset.0)) == asset.1
                &&& forall|k: RawWord|
                    smt_key(k) != smt_key(asset.0) ==> #[trigger] value_at(after.entries, k)
                        == value_at(vault.entries, k)
            }
        }),
{
    lemma_free_hash(vault, smt_key(asset.0));
    assert(leaf_keys(vault.tree, smt_key(asset.0).3) =~= vault.tree.dom().filter(
        |h: RawWord| h.3 == smt_key(asset.0).3,
    ));
}

/// What removing an asset returns. A fungible asset is not there, or not in this amount, or it is
/// what remains; a non-fungible asset is not there, or there is nothing to return.
pub proof fn law_outcome_of_removing(vault: VaultState, asset: RawAsset)
    requires
        valid_vault(vault),
        valid_asset(asset.0, asset.1),
    ensures
        is_fungible_key(asset.0) ==> ({
            let held = value_at(vault.entries, asset.0).0;
            let outcome = remove_step(vault, asset).1;
            if held == 0 {
                outcome == Err::<Option<RawAsset>, _>(VaultFault::FungibleAssetNotFound(asset))
            } else if held < asset.1.0 {
                outcome == Err::<Option<RawAsset>, _>(
                    VaultFault::SubtractFungibleAssetBalanceError(
                        AssetFault::FungibleAssetAmountNotSufficient {
                            minuend: held,
                            subtrahend: asset.1.0,
                        },
                    ),
                )
            } else {
                outcome == Ok::<_, VaultFault>(
                    Some((asset.0, ((held - asset.1.0) as u64, 0u64, 0u64, 0u64))),
                )
            }
        }),
        !is_fungible_key(asset.0) ==> remove_step(vault, asset).1 == if hash_is_free(
            vault.entries,
            smt_key(asset.0),
        ) {
            Err::<Option<RawAsset>, VaultFault>(VaultFault::NonFungibleAssetNotFound(asset))
        } else {
            Ok::<Option<RawAsset>, VaultFault>(None)
        },
{
    lemma_free_hash(vault, smt_key(asset.0));
    if value_at(vault.entries, asset.0).0 > 0 {
        assert(vault.entries.contains_key(asset.0));
        assert(value_at(vault.tree, smt_key(asset.0)) == vault.entries[asset.0]);
    }
}

/// The vault that is built from a list of assets has exactly the assets of the list that are not
/// empty, in its entries and, under the hashes of their vault keys, in its tree. It can be built
/// only if the hashes are distinct.
pub proof fn law_built_vault(assets: Seq<RawAsset>)
    requires
        buildable(assets),
    ensures
        forall|k: RawWord, v: RawWord|
            v != (0u64, 0u64, 0u64, 0u64) ==> (#[trigger] assets.contains((k, v)) <==> {
                &&& vault_of(assets).entries.contains_key(k)
                &&& vault_of(assets).entries[k] == v
            }),
        forall|k: RawWord| #[trigger]
            vault_of(assets).entries.contains_key(k) ==> vault_of(assets).entries[k] != (
                0u64,
                0u64,
                0u64,
                0u64,
            ) && value_at(vault_of(assets).tree, smt_key(k)) == vault_of(assets).entries[k],
        forall|i: int, j: int|
            #![trigger assets[i], assets[j]]
            0 <= i < j < assets.len() ==> smt_key(assets[i].0) != smt_key(assets[j].0),
{
    lemma_built_entries(assets);
    lemma_listed_not_empty(assets);
    lemma_list_is_synced(assets);
    let list = tree_list(assets);
    assert forall|i: int, j: int|
        #![trigger assets[i], assets[j]]
        0 <= i < j < assets.len() implies smt_key(assets[i].0) != smt_key(assets[j].0) by {
        assert(list[i].0 != list[j].0);
    }
}

/// A serialized list of assets takes 24 bytes for each fungible and 48 for each non-fungible asset.
pub proof fn law_total_size(assets: Seq<RawAsset>)
    ensures
        total_size(assets) == 24 * assets.filter(|a: RawAsset| is_fungible_key(a.0)).len() + 48
            * assets.filter(|a: RawAsset| !is_fungible_key(a.0)).len(),
    decreases assets.len(),
{
    reveal(Seq::filter);
    if assets.len() > 0 {
        law_total_size(assets.drop_last());
        law_asset_sizes(assets.last().0);
    }
}

// DELTAS
// ================================================================================================

/// The listing of a map ends with its greatest key.
proof fn lemma_greatest_listed_last<T>(map: Map<RawWord, T>, key: RawWord)
    requires
        map.dom().finite(),
        map.contains_key(key),
        forall|k: RawWord| #[trigger]
            map.contains_key(k) && k != key ==> word_number(k) < word_number(key),
    ensures
        listing(map) == listing(map.remove(key)).push((key, map[key])),
{
    let rest = map.remove(key);
    let before = listing(rest);
    let list = before.push((key, map[key]));
    lemma_listing_exists(map);
    lemma_listing_exists(rest);
    assert forall|i: int, j: int| 0 <= i < j < list.len() implies word_less(
        list[i].0,
        list[j].0,
    ) by {
        if j == before.len() {
            assert(rest.contains_key(before[i].0));
            assert(map.contains_key(before[i].0));
            law_word_order(before[i].0, key);
        } else {
            assert(word_less(before[i].0, before[j].0));
        }
    }
    assert forall|i: int| 0 <= i < list.len() implies map.contains_key((#[trigger] list[i]).0)
        && map[list[i].0] == list[i].1 by {
        if i < before.len() {
            assert(rest.contains_key(before[i].0));
        }
    }
    assert forall|k: RawWord| #[trigger] map.contains_key(k) implies exists|i: int|
        0 <= i < list.len() && (#[trigger] list[i]).0 == k by {
        if k == key {
            assert(list[before.len() as int].0 == k);
        } else {
            assert(rest.contains_key(k));
            let i = choose|i: int| 0 <= i < before.len() && (#[trigger] before[i]).0 == k;
            assert(list[i].0 == k);
        }
    }
    assert(is_listing(list, map));
    lemma_listing_unique(list, listing(map), map);
}

/// A delta without changes changes nothing.
pub proof fn law_empty_delta(vault: VaultState, delta: DeltaState)
    requires
        forall|k: RawWord| !delta.fungible.contains_key(k),
        forall|k: RawWord| !delta.non_fungible.contains_key(k),
    ensures
        delta_step(vault, delta) == (vault, Ok::<(), VaultFault>(())),
{
    assert(delta.fungible.dom() =~= Set::empty());
    assert(delta.non_fungible.dom() =~= Set::empty());
    lemma_listing_exists(delta.fungible);
    lemma_listing_exists(delta.non_fungible);
    if listing(delta.fungible).len() > 0 {
        assert(delta.fungible.contains_key(listing(delta.fungible)[0].0));
    }
    if listing(delta.non_fungible).len() > 0 {
        assert(delta.non_fungible.contains_key(listing(delta.non_fungible)[0].0));
    }
}

/// The outcome of a delta is that of a last step, which adds or removes an asset: the vault is what
/// the step leaves, and the failure that of the step.
pub open spec fn ends_with<A>(
    outcome: (VaultState, Result<(), VaultFault>),
    step: (VaultState, Result<A, VaultFault>),
) -> bool {
    &&& outcome.0 == step.0
    &&& match step.1 {
        Ok(_) => outcome.1 is Ok,
        Err(fault) => outcome.1 == Err::<(), _>(fault),
    }
}

/// A delta of fungible changes is the delta without the change of the greatest vault key, followed
/// by this change: the asset is added if the amount grows or stays, and removed if it shrinks. If
/// the changes before it fail, it is not made.
pub proof fn law_fungible_changes_in_order(vault: VaultState, delta: DeltaState, key: RawWord)
    requires
        valid_delta(delta),
        forall|k: RawWord| !delta.non_fungible.contains_key(k),
        delta.fungible.contains_key(key),
        forall|k: RawWord| #[trigger]
            delta.fungible.contains_key(k) && k != key ==> word_number(k) < word_number(key),
    ensures
        ({
            let rest = DeltaState {
                fungible: delta.fungible.remove(key),
                non_fungible: delta.non_fungible,
            };
            let before = delta_step(vault, rest);
            let amount = delta.fungible[key];
            if before.1 is Err {
                delta_step(vault, delta) == before
            } else if amount >= 0 {
                ends_with(
                    delta_step(vault, delta),
                    add_step(before.0, (key, (amount as u64, 0u64, 0u64, 0u64))),
                )
            } else {
                ends_with(
                    delta_step(vault, delta),
                    remove_step(before.0, (key, ((-amount) as u64, 0u64, 0u64, 0u64))),
                )
            }
        }),
{
    lemma_greatest_listed_last(delta.fungible, key);
    let list = listing(delta.fungible);
    let before = listing(delta.fungible.remove(key));
    assert(list.drop_last() =~= before);
    lemma_listing_exists(delta.non_fungible);
    if listing(delta.non_fungible).len() > 0 {
        assert(delta.non_fungible.contains_key(listing(delta.non_fungible)[0].0));
    }
    assert(fungible_changes(vault, list) == fungible_changes(vault, before.push(list.last())));
}

/// A delta is the delta without the change of the greatest vault key of a non-fungible asset,
/// followed by this change: the asset is added or removed. If the changes before it fail, it is not
/// made. So the fungible changes come first.
pub proof fn law_non_fungible_changes_in_order(
    vault: VaultState,
    delta: DeltaState,
    key: RawWord,
)
    requires
        valid_delta(delta),
        delta.non_fungible.contains_key(key),
        forall|k: RawWord| #[trigger]
            delta.non_fungible.contains_key(k) && k != key ==> word_number(k) < word_number(key),
    ensures
        ({
            let rest = DeltaState {
                fungible: delta.fungible,
                non_fungible: delta.non_fungible.remove(key),
            };
            let before = delta_step(vault, rest);
            let (asset, action) = delta.non_fungible[key];
            &&& asset.0 == key
            &&& if before.1 is Err {
                delta_step(vault, delta) == before
            } else {
                match action {
                    NonFungibleDeltaAction::Add => ends_with(
                        delta_step(vault, delta),
                        add_step(before.0, asset),
                    ),
                    NonFungibleDeltaAction::Remove => ends_with(
                        delta_step(vault, delta),
                        remove_step(before.0, asset),
                    ),
                }
            }
        }),
{
    lemma_greatest_listed_last(delta.non_fungible, key);
    let list = listing(delta.non_fungible);
    let before = listing(delta.non_fungible.remove(key));
    assert(list.drop_last() =~= before);
    let first = fungible_changes(vault, listing(delta.fungible)).0;
    assert(non_fungible_changes(first, list.drop_last()) == non_fungible_changes(first, before));
}

} // verus!
