//! What holds of vaults as a whole: the laws that relate their operations.
use vstd::prelude::*;

use crate::asset::{amount_word, asset_fault, valid_asset, AssetFault, RawAsset, MAX_AMOUNT};
use crate::delta::{valid_change, valid_delta, DeltaState, NonFungibleDeltaAction};
use crate::key_map::{
    insert_all, is_listing, lemma_insert_listing, lemma_listing_exists, lemma_listing_len, listing,
};
use crate::merkle::{
    distinct_keys, leaf_keys, leaf_len, leaf_overflows, listed_pairs, no_pairs, proof_pairs,
    proof_root, proof_value, set_value, smt_root, value_at, MAX_LEAF_ENTRIES,
};
use crate::vault::{
    add_step, buildable, delta_step, fungible_change_step, fungible_changes, hash_is_new,
    insert_step, lemma_insert_keeps_valid, lemma_leaf_value, lemma_list_is_synced,
    lemma_value_of_key, magnitude, non_fungible_change_step, non_fungible_changes, opens,
    remove_step, set_entry, synced, tree_list, valid_vault, vault_of, VaultFault, VaultState,
};
use crate::vault_key::{is_fungible_key, smt_key, valid_key};
use crate::witness::{assets_or_empty, entries_proved, witness_entries, witness_fault, WitnessState};
use crate::word::{empty_word, word_less, RawWord};

verus! {

// VALID VAULTS
// ================================================================================================

/// The failure is that of a full leaf.
pub open spec fn is_leaf_overflow<A>(result: Result<A, VaultFault>) -> bool {
    result matches Err(VaultFault::MaxLeafEntriesExceeded(_))
}

/// A vault in which the value of a vault key is set stays valid, whether that succeeds or not: its
/// entries and its tree stay in sync.
pub proof fn law_insert_keeps_valid(vault: VaultState, key: RawWord, value: RawWord)
    requires
        valid_vault(vault),
        value == empty_word() || valid_asset(key, value),
    ensures
        valid_vault(insert_step(vault, key, value).0),
{
    lemma_insert_keeps_valid(vault, key, value);
}

/// A vault to which an asset is added stays valid, whether that succeeds or not.
pub proof fn law_add_keeps_valid(vault: VaultState, asset: RawAsset)
    requires
        valid_vault(vault),
        valid_asset(asset.0, asset.1),
    ensures
        valid_vault(add_step(vault, asset).0),
{
    let value = if is_fungible_key(asset.0) {
        amount_word((value_at(vault.entries, asset.0).0 + asset.1.0) as u64)
    } else {
        asset.1
    };
    if is_fungible_key(asset.0) && value_at(vault.entries, asset.0).0 + asset.1.0 > MAX_AMOUNT {
        assert(add_step(vault, asset).0 == vault);
    } else {
        law_insert_keeps_valid(vault, asset.0, value);
    }
}

/// A vault from which an asset is removed stays valid, whether that succeeds or not. No leaf is too
/// full for it.
pub proof fn law_remove_keeps_valid(vault: VaultState, asset: RawAsset)
    requires
        valid_vault(vault),
        valid_asset(asset.0, asset.1),
    ensures
        valid_vault(remove_step(vault, asset).0),
        !is_leaf_overflow(remove_step(vault, asset).1),
{
    let current = value_at(vault.entries, asset.0);
    if is_fungible_key(asset.0) {
        if current.0 > 0 && current.0 >= asset.1.0 {
            assert(vault.entries.contains_key(asset.0));
            assert(value_at(vault.tree, smt_key(asset.0)) == current);
            law_insert_keeps_valid(vault, asset.0, amount_word((current.0 - asset.1.0) as u64));
        }
    } else {
        law_insert_keeps_valid(vault, asset.0, empty_word());
    }
}

/// A vault that was built from a list of assets is valid.
pub proof fn law_new_is_valid(assets: Seq<RawAsset>)
    requires
        buildable(assets),
        forall|i: int|
            0 <= i < assets.len() ==> valid_asset((#[trigger] assets[i]).0, assets[i].1),
    ensures
        valid_vault(vault_of(assets)),
{
    lemma_list_is_synced(assets);
    lemma_built_entries(assets);
    lemma_listed_not_empty(assets);
    lemma_listed_finite(assets);
    let entries = vault_of(assets).entries;
    assert forall|k: RawWord| #[trigger] entries.contains_key(k) implies valid_asset(k, entries[k])
        && entries[k] != empty_word() by {
        assert(assets.contains((k, entries[k])));
    }
}

/// What is listed is finite.
proof fn lemma_listed_finite(list: Seq<(RawWord, RawWord)>)
    ensures
        listed_pairs(list).dom().finite(),
    decreases list.len(),
{
    if list.len() > 0 {
        lemma_listed_finite(list.drop_last());
    }
}

// ADDING AND REMOVING
// ================================================================================================

/// If no other entry has the hash of a vault key, setting its entry concerns this key only.
proof fn lemma_set_entry(entries: Map<RawWord, RawWord>, key: RawWord, value: RawWord)
    requires
        hash_is_new(entries, key),
    ensures
        set_entry(entries, key, value) == set_value(entries, key, value),
{
    assert(set_entry(entries, key, value) =~= set_value(entries, key, value));
}

/// Adding a fungible asset adds its amount to what the vault holds of it, and leaves the
/// entries of all other hashes as they are. The result is the new total.
pub proof fn law_add_adds_amounts(vault: VaultState, asset: RawAsset)
    requires
        valid_vault(vault),
        valid_asset(asset.0, asset.1),
        is_fungible_key(asset.0),
        add_step(vault, asset).1 is Ok,
    ensures
        ({
            let after = add_step(vault, asset).0;
            let total = add_step(vault, asset).1->Ok_0;
            &&& total.0 == asset.0
            &&& total.1.0 == value_at(vault.entries, asset.0).0 + asset.1.0
            &&& total.1.0 <= MAX_AMOUNT
            &&& value_at(after.entries, asset.0) == total.1
            &&& forall|k: RawWord|
                smt_key(k) != smt_key(asset.0) ==> #[trigger] value_at(after.entries, k)
                    == value_at(vault.entries, k)
        }),
{
}

/// Removing a fungible asset subtracts its amount from what the vault holds of it, and leaves the
/// entries of all other hashes as they are. The result is what remains; the entry goes if nothing
/// remains.
pub proof fn law_remove_subtracts_amounts(vault: VaultState, asset: RawAsset)
    requires
        valid_vault(vault),
        valid_asset(asset.0, asset.1),
        is_fungible_key(asset.0),
        remove_step(vault, asset).1 is Ok,
    ensures
        ({
            let after = remove_step(vault, asset).0;
            &&& remove_step(vault, asset).1 matches Ok(Some(rest)) && {
                &&& rest.0 == asset.0
                &&& rest.1.0 + asset.1.0 == value_at(vault.entries, asset.0).0
                &&& value_at(after.entries, asset.0) == rest.1
                &&& rest.1.0 == 0 ==> !after.entries.contains_key(asset.0)
            }
            &&& forall|k: RawWord|
                smt_key(k) != smt_key(asset.0) ==> #[trigger] value_at(after.entries, k)
                    == value_at(vault.entries, k)
        }),
{
}

/// Adding a non-fungible asset stores it under its vault key, and leaves the entries of all other
/// hashes as they are. The result is the asset.
pub proof fn law_add_stores_non_fungible(vault: VaultState, asset: RawAsset)
    requires
        valid_vault(vault),
        valid_asset(asset.0, asset.1),
        !is_fungible_key(asset.0),
        add_step(vault, asset).1 is Ok,
    ensures
        ({
            let after = add_step(vault, asset).0;
            &&& add_step(vault, asset).1 == Ok::<_, VaultFault>(asset)
            &&& value_at(after.entries, asset.0) == asset.1
            &&& forall|k: RawWord|
                smt_key(k) != smt_key(asset.0) ==> #[trigger] value_at(after.entries, k)
                    == value_at(vault.entries, k)
        }),
{
}

/// After a non-fungible asset has been removed, there is no entry for its vault key, and the
/// entries of all other hashes are as they were.
pub proof fn law_remove_drops_non_fungible(vault: VaultState, asset: RawAsset)
    requires
        valid_vault(vault),
        valid_asset(asset.0, asset.1),
        !is_fungible_key(asset.0),
        remove_step(vault, asset).1 is Ok,
    ensures
        ({
            let after = remove_step(vault, asset).0;
            &&& remove_step(vault, asset).1 == Ok::<Option<RawAsset>, VaultFault>(None)
            &&& !after.entries.contains_key(asset.0)
            &&& forall|k: RawWord|
                smt_key(k) != smt_key(asset.0) ==> #[trigger] value_at(after.entries, k)
                    == value_at(vault.entries, k)
        }),
{
}

/// Removing what was just added gives back the vault as it was before, unless the asset is fungible
/// and its hash is that of another entry, which adding it pushes out of the tree. The removal is
/// refused only if the asset is empty and the vault has no entry for it.
pub proof fn law_remove_undoes_add(vault: VaultState, asset: RawAsset)
    requires
        valid_vault(vault),
        valid_asset(asset.0, asset.1),
        add_step(vault, asset).1 is Ok,
    ensures
        (is_fungible_key(asset.0) ==> hash_is_new(vault.entries, asset.0)) <==> remove_step(
            add_step(vault, asset).0,
            asset,
        ).0 == vault,
        remove_step(add_step(vault, asset).0, asset).1 == if asset.1 == empty_word()
            && !vault.entries.contains_key(asset.0) {
            Err(
                if is_fungible_key(asset.0) {
                    VaultFault::FungibleAssetNotFound(asset)
                } else {
                    VaultFault::NonFungibleAssetNotFound(asset)
                },
            )
        } else {
            Ok(
                if is_fungible_key(asset.0) {
                    Some((asset.0, value_at(vault.entries, asset.0)))
                } else {
                    None
                },
            )
        },
{
    let key = asset.0;
    let h = smt_key(key);
    let after = add_step(vault, asset).0;
    if !is_fungible_key(key) {
        assert forall|k: RawWord| #[trigger]
            vault.entries.contains_key(k) && smt_key(k) == h implies k == key by {
            assert(value_at(vault.tree, smt_key(k)) == vault.entries[k]);
        }
    }
    law_add_keeps_valid(vault, asset);
    let value = if is_fungible_key(key) {
        amount_word((value_at(vault.entries, key).0 + asset.1.0) as u64)
    } else {
        asset.1
    };
    let back = remove_step(after, asset).0;
    if hash_is_new(vault.entries, key) {
        lemma_value_of_key(vault, key);
        lemma_set_entry(vault.entries, key, value);
        assert(hash_is_new(after.entries, key));
        let rest = if is_fungible_key(key) {
            value_at(vault.entries, key)
        } else {
            empty_word()
        };
        lemma_set_entry(after.entries, key, rest);
        assert(back.entries =~= vault.entries);
        assert(back.tree =~= vault.tree);
    } else {
        let other = choose|k: RawWord| #[trigger]
            vault.entries.contains_key(k) && smt_key(k) == h && k != key;
        assert(!after.entries.contains_key(other));
        assert(!back.entries.contains_key(other));
        assert(!vault.entries.contains_key(key)) by {
            assert(smt_key(other) == smt_key(key));
        }
    }
}

/// A non-fungible asset can be added only once: adding it again is refused and changes nothing.
pub proof fn law_non_fungible_added_once(vault: VaultState, asset: RawAsset)
    requires
        valid_vault(vault),
        valid_asset(asset.0, asset.1),
        !is_fungible_key(asset.0),
        asset.1 != empty_word(),
        add_step(vault, asset).1 is Ok,
    ensures
        add_step(add_step(vault, asset).0, asset) == (
            add_step(vault, asset).0,
            Err::<RawAsset, _>(VaultFault::DuplicateNonFungibleAsset(asset)),
        ),
{
    let after = add_step(vault, asset).0;
    let again = add_step(after, asset).0;
    assert(again.entries =~= after.entries);
    assert(again.tree =~= after.tree);
}

/// No entry has the given hash.
pub open spec fn hash_is_free(entries: Map<RawWord, RawWord>, hash: RawWord) -> bool {
    forall|k: RawWord| #[trigger] entries.contains_key(k) ==> smt_key(k) != hash
}

/// The tree has a value under a hash if and only if an entry has this hash.
pub proof fn lemma_free_hash(vault: VaultState, hash: RawWord)
    requires
        valid_vault(vault),
    ensures
        vault.tree.contains_key(hash) <==> !hash_is_free(vault.entries, hash),
        value_at(vault.tree, hash) == empty_word() <==> hash_is_free(vault.entries, hash),
{
    if vault.tree.contains_key(hash) {
        let k = choose|k: RawWord| #[trigger]
            vault.entries.contains_key(k) && smt_key(k) == hash;
        assert(vault.entries.contains_key(k));
    } else if !hash_is_free(vault.entries, hash) {
        let k = choose|k: RawWord| #[trigger]
            vault.entries.contains_key(k) && smt_key(k) == hash;
        assert(value_at(vault.tree, smt_key(k)) == vault.entries[k]);
    }
}

/// What is not in a vault cannot be removed from it, and a refused removal changes nothing.
pub proof fn law_refused_removal_changes_nothing(vault: VaultState, asset: RawAsset)
    requires
        valid_vault(vault),
        valid_asset(asset.0, asset.1),
    ensures
        remove_step(vault, asset).1 is Err ==> remove_step(vault, asset).0 == vault,
        remove_step(vault, asset).1 is Err <==> (if is_fungible_key(asset.0) {
            value_at(vault.entries, asset.0).0 == 0 || value_at(vault.entries, asset.0).0
                < asset.1.0
        } else {
            hash_is_free(vault.entries, smt_key(asset.0))
        }),
{
    let h = smt_key(asset.0);
    lemma_free_hash(vault, h);
    law_remove_keeps_valid(vault, asset);
    let after = remove_step(vault, asset).0;
    if remove_step(vault, asset).1 is Err {
        if !is_fungible_key(asset.0) {
            assert(!vault.entries.contains_key(asset.0));
            assert(after.entries =~= vault.entries);
            assert(after.tree =~= vault.tree);
        }
    }
}

/// Adding a fungible asset is refused if and only if the sum is too large or the leaf is full.
/// Adding a non-fungible asset is refused if and only if the vault has an asset with its hash
/// already or the leaf is full. A refusal changes nothing, except that an asset with the same hash
/// is replaced.
pub proof fn law_when_adding_is_refused(vault: VaultState, asset: RawAsset)
    requires
        valid_vault(vault),
        valid_asset(asset.0, asset.1),
    ensures
        add_step(vault, asset).1 is Err && !is_leaf_overflow(add_step(vault, asset).1) <==> (
        if is_fungible_key(asset.0) {
            value_at(vault.entries, asset.0).0 + asset.1.0 > MAX_AMOUNT
        } else {
            !hash_is_free(vault.entries, smt_key(asset.0))
        }),
        is_fungible_key(asset.0) && add_step(vault, asset).1 is Err ==> add_step(vault, asset).0
            == vault,
        is_leaf_overflow(add_step(vault, asset).1) ==> add_step(vault, asset).0 == vault
            && hash_is_free(vault.entries, smt_key(asset.0)),
{
    lemma_free_hash(vault, smt_key(asset.0));
}

/// The vault after the assets of a list have been added one after the other.
pub open spec fn added(vault: VaultState, assets: Seq<RawAsset>) -> VaultState
    decreases assets.len(),
{
    if assets.len() == 0 {
        vault
    } else {
        add_step(added(vault, assets.drop_last()), assets.last()).0
    }
}

/// Adding assets one by one to a vault without assets, in any order, gives the vault that is built
/// from them, and every addition returns the asset. No asset may be empty or occur twice.
pub proof fn law_adding_builds_vault(assets: Seq<RawAsset>, order: Seq<RawAsset>)
    requires
        buildable(assets),
        forall|i: int|
            0 <= i < assets.len() ==> valid_asset((#[trigger] assets[i]).0, assets[i].1)
                && assets[i].1 != empty_word(),
        order.no_duplicates(),
        forall|asset: RawAsset| #[trigger] order.contains(asset) <==> assets.contains(asset),
    ensures
        added(vault_of(Seq::empty()), order) == vault_of(assets),
        forall|n: int|
            0 <= n < order.len() ==> add_step(
                added(vault_of(Seq::empty()), order.take(n)),
                #[trigger] order[n],
            ).1 == Ok::<_, VaultFault>(order[n]),
{
    let pairs = tree_list(order);
    assert forall|i: int, j: int| 0 <= i < j < pairs.len() implies pairs[i].0 != pairs[j].0 by {
        assert(order.contains(order[i]) && order.contains(order[j]));
        let p = choose|p: int| 0 <= p < assets.len() && assets[p] == order[i];
        let q = choose|q: int| 0 <= q < assets.len() && assets[q] == order[j];
        assert(p != q);
        assert(tree_list(assets)[p].0 != tree_list(assets)[q].0);
    }
    lemma_same_assets(order, assets);
    assert(buildable(order));
    assert forall|i: int| 0 <= i < order.len() implies valid_asset(
        (#[trigger] order[i]).0,
        order[i].1,
    ) && order[i].1 != empty_word() by {
        assert(order.contains(order[i]));
        let p = choose|p: int| 0 <= p < assets.len() && assets[p] == order[i];
        assert(valid_asset(assets[p].0, assets[p].1));
    }
    lemma_adding_in_order(order);
}

/// Adding the assets of a list in its order gives the vault that is built from the list.
proof fn lemma_adding_in_order(assets: Seq<RawAsset>)
    requires
        buildable(assets),
        forall|i: int|
            0 <= i < assets.len() ==> valid_asset((#[trigger] assets[i]).0, assets[i].1)
                && assets[i].1 != empty_word(),
    ensures
        added(vault_of(Seq::empty()), assets) == vault_of(assets),
        forall|n: int|
            0 <= n < assets.len() ==> add_step(
                added(vault_of(Seq::empty()), assets.take(n)),
                #[trigger] assets[n],
            ).1 == Ok::<_, VaultFault>(assets[n]),
    decreases assets.len(),
{
    if assets.len() == 0 {
        assert(assets =~= Seq::empty());
    } else {
        let last = assets.len() - 1;
        let rest = assets.drop_last();
        let asset = assets[last];
        let h = smt_key(asset.0);
        lemma_buildable_part(assets);
        assert forall|i: int| 0 <= i < rest.len() implies valid_asset(
            (#[trigger] rest[i]).0,
            rest[i].1,
        ) && rest[i].1 != empty_word() by {
            assert(rest[i] == assets[i]);
        }
        lemma_adding_in_order(rest);
        law_new_is_valid(rest);
        let before = vault_of(rest);
        let after = vault_of(assets);
        let pairs = tree_list(assets);
        assert(tree_list(rest) =~= pairs.drop_last());
        lemma_list_is_synced(rest);
        assert forall|k: RawWord| #[trigger] before.entries.contains_key(k) implies smt_key(k)
            != h by {
            let i = choose|i: int| 0 <= i < rest.len() && (#[trigger] rest[i]).0 == k;
            assert(pairs[i].0 != pairs[last].0);
        }
        lemma_free_hash(before, h);
        lemma_set_entry(before.entries, asset.0, asset.1);
        assert(after.tree == set_value(before.tree, h, asset.1));
        assert(leaf_keys(after.tree, h.3) =~= leaf_keys(before.tree, h.3).insert(h));
        assert(leaf_len(after.tree, h.3) <= MAX_LEAF_ENTRIES);
        assert(!leaf_overflows(before.tree, h, asset.1));
        assert(!before.entries.contains_key(asset.0));
        if is_fungible_key(asset.0) {
            assert(asset.1 == amount_word(asset.1.0));
        }
        assert(add_step(before, asset) == (after, Ok::<_, VaultFault>(asset)));
        assert forall|n: int| 0 <= n < assets.len() implies add_step(
            added(vault_of(Seq::empty()), assets.take(n)),
            #[trigger] assets[n],
        ).1 == Ok::<_, VaultFault>(assets[n]) by {
            if n < last {
                assert(rest.take(n) =~= assets.take(n));
                assert(rest[n] == assets[n]);
            } else {
                assert(assets.take(n) =~= rest);
            }
        }
    }
}

/// Without its last asset, a list from which a vault can be built is one as well.
proof fn lemma_buildable_part(assets: Seq<RawAsset>)
    requires
        buildable(assets),
        assets.len() > 0,
    ensures
        buildable(assets.drop_last()),
{
    let pairs = tree_list(assets);
    let rest = assets.drop_last();
    assert(tree_list(rest) =~= pairs.drop_last());
    assert forall|i: int, j: int| 0 <= i < j < rest.len() implies tree_list(rest)[i].0
        != tree_list(rest)[j].0 by {
        assert(pairs[i].0 != pairs[j].0);
    }
    let before = listed_pairs(tree_list(rest));
    let after = listed_pairs(pairs);
    let (h, value) = pairs[pairs.len() - 1];
    lemma_list_is_synced(rest);
    lemma_listed_finite(tree_list(rest));
    lemma_listed_not_empty(tree_list(rest));
    assert(!before.contains_key(h)) by {
        if before.contains_key(h) {
            assert(vault_of(rest).tree.contains_key(h));
            let k = choose|k: RawWord| #[trigger]
                vault_of(rest).entries.contains_key(k) && smt_key(k) == h;
            let i = choose|i: int| 0 <= i < rest.len() && (#[trigger] rest[i]).0 == k;
            assert(pairs[i].0 != pairs[pairs.len() - 1].0);
        }
    }
    assert forall|i: u64| #[trigger] leaf_len(before, i) <= MAX_LEAF_ENTRIES by {
        assert(leaf_len(after, i) <= MAX_LEAF_ENTRIES);
        assert(after == set_value(before, h, value));
        assert(leaf_keys(before, i).subset_of(leaf_keys(after, i)));
        assert(after.dom().finite());
        assert(leaf_keys(after, i).finite());
        vstd::set_lib::lemma_len_subset(leaf_keys(before, i), leaf_keys(after, i));
    }
}

// DELTAS
// ================================================================================================

/// No two of the vault keys have the same hash.
pub open spec fn keys_apart(keys: Set<RawWord>) -> bool {
    forall|a: RawWord, b: RawWord| #[trigger]
        keys.contains(a) && #[trigger] keys.contains(b) && smt_key(a) == smt_key(b) ==> a == b
}

/// The vault keys of a vault and of a delta.
pub open spec fn all_keys(vault: VaultState, delta: DeltaState) -> Set<RawWord> {
    vault.entries.dom().union(delta.fungible.dom()).union(delta.non_fungible.dom())
}

/// The vault is valid, and its vault keys are among the given ones, of which no two share a hash.
pub open spec fn valid_within(vault: VaultState, keys: Set<RawWord>) -> bool {
    &&& valid_vault(vault)
    &&& keys_apart(keys)
    &&& vault.entries.dom().subset_of(keys)
}

/// A key among the given ones does not share its hash with another entry.
proof fn lemma_within(vault: VaultState, keys: Set<RawWord>, key: RawWord)
    requires
        valid_within(vault, keys),
        keys.contains(key),
    ensures
        hash_is_new(vault.entries, key),
        value_at(vault.tree, smt_key(key)) == value_at(vault.entries, key),
        vault.tree.contains_key(smt_key(key)) == vault.entries.contains_key(key),
{
    assert forall|k: RawWord| #[trigger]
        vault.entries.contains_key(k) && smt_key(k) == smt_key(key) implies k == key by {
        assert(keys.contains(k));
    }
    lemma_value_of_key(vault, key);
}

/// One change of a fungible asset keeps a vault valid.
proof fn lemma_fungible_change_keeps_valid(vault: VaultState, change: (RawWord, i64))
    requires
        valid_vault(vault),
        valid_key(change.0),
        is_fungible_key(change.0),
        valid_change(change.1),
    ensures
        valid_vault(fungible_change_step(vault, change).0),
{
    let asset = (change.0, amount_word(magnitude(change.1)));
    if change.1 >= 0 {
        law_add_keeps_valid(vault, asset);
    } else {
        law_remove_keeps_valid(vault, asset);
    }
}

/// One change of a non-fungible asset keeps a vault valid.
proof fn lemma_non_fungible_change_keeps_valid(
    vault: VaultState,
    change: (RawAsset, NonFungibleDeltaAction),
)
    requires
        valid_vault(vault),
        valid_asset(change.0.0, change.0.1),
        !is_fungible_key(change.0.0),
    ensures
        valid_vault(non_fungible_change_step(vault, change).0),
{
    if change.1 is Add {
        law_add_keeps_valid(vault, change.0);
    } else {
        law_remove_keeps_valid(vault, change.0);
    }
}

/// Changes of fungible assets keep a vault valid.
proof fn lemma_fungible_changes_keep_valid(vault: VaultState, changes: Seq<(RawWord, i64)>)
    requires
        valid_vault(vault),
        forall|i: int|
            0 <= i < changes.len() ==> valid_key((#[trigger] changes[i]).0) && is_fungible_key(
                changes[i].0,
            ) && valid_change(changes[i].1),
    ensures
        valid_vault(fungible_changes(vault, changes).0),
    decreases changes.len(),
{
    if changes.len() > 0 {
        let rest = changes.drop_last();
        assert forall|i: int| 0 <= i < rest.len() implies valid_key((#[trigger] rest[i]).0)
            && is_fungible_key(rest[i].0) && valid_change(rest[i].1) by {
            assert(rest[i] == changes[i]);
        }
        lemma_fungible_changes_keep_valid(vault, rest);
        let last = changes[changes.len() - 1];
        assert(valid_key(last.0));
        lemma_fungible_change_keeps_valid(fungible_changes(vault, rest).0, last);
    }
}

/// Changes of non-fungible assets keep a vault valid.
proof fn lemma_non_fungible_changes_keep_valid(
    vault: VaultState,
    changes: Seq<(RawWord, (RawAsset, NonFungibleDeltaAction))>,
)
    requires
        valid_vault(vault),
        forall|i: int|
            0 <= i < changes.len() ==> valid_asset((#[trigger] changes[i]).1.0.0, changes[i].1.0.1)
                && !is_fungible_key(changes[i].1.0.0),
    ensures
        valid_vault(non_fungible_changes(vault, changes).0),
    decreases changes.len(),
{
    if changes.len() > 0 {
        let rest = changes.drop_last();
        assert forall|i: int| 0 <= i < rest.len() implies valid_asset(
            (#[trigger] rest[i]).1.0.0,
            rest[i].1.0.1,
        ) && !is_fungible_key(rest[i].1.0.0) by {
            assert(rest[i] == changes[i]);
        }
        lemma_non_fungible_changes_keep_valid(vault, rest);
        let last = changes[changes.len() - 1];
        assert(valid_asset(last.1.0.0, last.1.0.1));
        lemma_non_fungible_change_keeps_valid(non_fungible_changes(vault, rest).0, last.1);
    }
}

/// The entries of a listing of the fungible changes of a delta are valid.
proof fn lemma_valid_fungible(delta: DeltaState)
    requires
        valid_delta(delta),
    ensures
        is_listing(listing(delta.fungible), delta.fungible),
        forall|i: int|
            0 <= i < listing(delta.fungible).len() ==> valid_key(
                (#[trigger] listing(delta.fungible)[i]).0,
            ) && is_fungible_key(listing(delta.fungible)[i].0) && valid_change(
                listing(delta.fungible)[i].1,
            ),
{
    let f = listing(delta.fungible);
    lemma_listing_exists(delta.fungible);
    assert forall|i: int| 0 <= i < f.len() implies valid_key((#[trigger] f[i]).0)
        && is_fungible_key(f[i].0) && valid_change(f[i].1) by {
        assert(delta.fungible.contains_key(f[i].0));
    }
}

/// The entries of a listing of the non-fungible changes of a delta are valid.
proof fn lemma_valid_non_fungible(delta: DeltaState)
    requires
        valid_delta(delta),
    ensures
        is_listing(listing(delta.non_fungible), delta.non_fungible),
        forall|i: int|
            0 <= i < listing(delta.non_fungible).len() ==> valid_asset(
                (#[trigger] listing(delta.non_fungible)[i]).1.0.0,
                listing(delta.non_fungible)[i].1.0.1,
            ) && !is_fungible_key(listing(delta.non_fungible)[i].1.0.0),
{
    let nf = listing(delta.non_fungible);
    lemma_listing_exists(delta.non_fungible);
    assert forall|i: int| 0 <= i < nf.len() implies valid_asset(
        (#[trigger] nf[i]).1.0.0,
        nf[i].1.0.1,
    ) && !is_fungible_key(nf[i].1.0.0) by {
        assert(delta.non_fungible.contains_key(nf[i].0));
    }
}

/// A vault to which a delta is applied stays valid, whether that succeeds or not.
pub proof fn law_delta_keeps_valid(vault: VaultState, delta: DeltaState)
    requires
        valid_vault(vault),
        valid_delta(delta),
    ensures
        valid_vault(delta_step(vault, delta).0),
{
    lemma_valid_fungible(delta);
    lemma_valid_non_fungible(delta);
    let f = listing(delta.fungible);
    lemma_fungible_changes_keep_valid(vault, f);
    lemma_non_fungible_changes_keep_valid(
        fungible_changes(vault, f).0,
        listing(delta.non_fungible),
    );
}

/// The first changes of the listing of a map of fungible changes: the vault stays valid, the
/// amounts change as they say, and all other values stay as they are.
proof fn lemma_fungible_changes(
    vault: VaultState,
    changes: Seq<(RawWord, i64)>,
    map: Map<RawWord, i64>,
    keys: Set<RawWord>,
    n: int,
)
    requires
        valid_within(vault, keys),
        is_listing(changes, map),
        0 <= n <= changes.len(),
        forall|k: RawWord| #[trigger]
            map.contains_key(k) ==> keys.contains(k) && valid_key(k) && is_fungible_key(k)
                && valid_change(map[k]),
        fungible_changes(vault, changes.take(n)).1 is Ok,
    ensures
        valid_within(fungible_changes(vault, changes.take(n)).0, keys),
        forall|i: int|
            0 <= i < n ==> value_at(
                fungible_changes(vault, changes.take(n)).0.entries,
                (#[trigger] changes[i]).0,
            ).0 == value_at(vault.entries, changes[i].0).0 + changes[i].1,
        forall|k: RawWord|
            (forall|i: int| 0 <= i < n ==> (#[trigger] changes[i]).0 != k) ==> #[trigger] value_at(
                fungible_changes(vault, changes.take(n)).0.entries,
                k,
            ) == value_at(vault.entries, k),
    decreases n,
{
    if n > 0 {
        let part = changes.take(n);
        assert(part.drop_last() =~= changes.take(n - 1));
        lemma_fungible_changes(vault, changes, map, keys, n - 1);
        let before = fungible_changes(vault, changes.take(n - 1)).0;
        let change = changes[n - 1];
        assert(map.contains_key(change.0));
        let after = fungible_changes(vault, part).0;
        assert(after == fungible_change_step(before, change).0);
        assert forall|i: int| 0 <= i < n - 1 implies (#[trigger] changes[i]).0 != change.0 by {
            assert(word_less(changes[i].0, changes[n - 1].0));
        }
        assert(value_at(before.entries, change.0) == value_at(vault.entries, change.0));
        lemma_within(before, keys, change.0);
        lemma_fungible_change_keeps_valid(before, change);
        let value = amount_word((value_at(before.entries, change.0).0 + change.1) as u64);
        lemma_set_entry(before.entries, change.0, value);
        assert(after.entries == set_value(before.entries, change.0, value));
        assert forall|k: RawWord| k != change.0 implies #[trigger] value_at(after.entries, k)
            == value_at(before.entries, k) by {}
    }
}

/// The first changes of the listing of a map of non-fungible changes: the vault stays valid, each
/// asset comes or goes, where it was not there or was, and all other values stay as they are.
proof fn lemma_non_fungible_changes(
    vault: VaultState,
    changes: Seq<(RawWord, (RawAsset, NonFungibleDeltaAction))>,
    map: Map<RawWord, (RawAsset, NonFungibleDeltaAction)>,
    keys: Set<RawWord>,
    n: int,
)
    requires
        valid_within(vault, keys),
        is_listing(changes, map),
        0 <= n <= changes.len(),
        forall|k: RawWord| #[trigger]
            map.contains_key(k) ==> keys.contains(k) && map[k].0.0 == k && valid_asset(
                k,
                map[k].0.1,
            ) && !is_fungible_key(k),
        non_fungible_changes(vault, changes.take(n)).1 is Ok,
    ensures
        valid_within(non_fungible_changes(vault, changes.take(n)).0, keys),
        forall|i: int|
            0 <= i < n ==> value_at(
                non_fungible_changes(vault, changes.take(n)).0.entries,
                (#[trigger] changes[i]).0,
            ) == value_after(changes[i].1) && (value_at(vault.entries, changes[i].0)
                == empty_word() <==> changes[i].1.1 is Add),
        forall|k: RawWord|
            (forall|i: int| 0 <= i < n ==> (#[trigger] changes[i]).0 != k) ==> #[trigger] value_at(
                non_fungible_changes(vault, changes.take(n)).0.entries,
                k,
            ) == value_at(vault.entries, k),
    decreases n,
{
    if n > 0 {
        let part = changes.take(n);
        assert(part.drop_last() =~= changes.take(n - 1));
        lemma_non_fungible_changes(vault, changes, map, keys, n - 1);
        let before = non_fungible_changes(vault, changes.take(n - 1)).0;
        let change = changes[n - 1];
        assert(map.contains_key(change.0));
        let after = non_fungible_changes(vault, part).0;
        assert(after == non_fungible_change_step(before, change.1).0);
        assert forall|i: int| 0 <= i < n - 1 implies (#[trigger] changes[i]).0 != change.0 by {
            assert(word_less(changes[i].0, changes[n - 1].0));
        }
        assert(value_at(before.entries, change.0) == value_at(vault.entries, change.0));
        lemma_within(before, keys, change.0);
        lemma_non_fungible_change_keeps_valid(before, change.1);
        let value = value_after(change.1);
        lemma_set_entry(before.entries, change.0, value);
        assert(after.entries == set_value(before.entries, change.0, value));
        assert forall|k: RawWord| k != change.0 implies #[trigger] value_at(after.entries, k)
            == value_at(before.entries, k) by {}
    }
}

/// The value that a vault has for a non-fungible asset after a change: that of the asset if it was
/// added, and none if it was removed.
pub open spec fn value_after(change: (RawAsset, NonFungibleDeltaAction)) -> RawWord {
    match change.1 {
        NonFungibleDeltaAction::Add => change.0.1,
        NonFungibleDeltaAction::Remove => empty_word(),
    }
}

/// A delta that is applied without an error changes the amount of every fungible asset by what it
/// says, adds and removes the non-fungible assets that it names, and leaves all other entries as
/// they are. What it adds was not there, and what it removes was. The keys of the vault and of the
/// delta must not share a hash.
pub proof fn law_delta_effect(vault: VaultState, delta: DeltaState)
    requires
        valid_vault(vault),
        valid_delta(delta),
        keys_apart(all_keys(vault, delta)),
        delta_step(vault, delta).1 is Ok,
    ensures
        valid_within(delta_step(vault, delta).0, all_keys(vault, delta)),
        ({
            let after = delta_step(vault, delta).0;
            &&& forall|k: RawWord| #[trigger]
                delta.fungible.contains_key(k) ==> value_at(after.entries, k).0 == value_at(
                    vault.entries,
                    k,
                ).0 + delta.fungible[k]
            &&& forall|k: RawWord| #[trigger]
                delta.non_fungible.contains_key(k) ==> value_at(after.entries, k) == value_after(
                    delta.non_fungible[k],
                ) && (value_at(vault.entries, k) == empty_word() <==> delta.non_fungible[k].1 is Add)
            &&& forall|k: RawWord|
                !delta.fungible.contains_key(k) && !delta.non_fungible.contains_key(k)
                    ==> #[trigger] value_at(after.entries, k) == value_at(vault.entries, k)
        }),
{
    let keys = all_keys(vault, delta);
    let f = listing(delta.fungible);
    let nf = listing(delta.non_fungible);
    lemma_listing_exists(delta.fungible);
    lemma_listing_exists(delta.non_fungible);
    let middle = fungible_changes(vault, f).0;
    let after = delta_step(vault, delta).0;
    assert(f.take(f.len() as int) =~= f);
    assert(nf.take(nf.len() as int) =~= nf);
    lemma_fungible_changes(vault, f, delta.fungible, keys, f.len() as int);
    lemma_non_fungible_changes(middle, nf, delta.non_fungible, keys, nf.len() as int);
    assert forall|k: RawWord| !delta.non_fungible.contains_key(k) implies #[trigger] value_at(
        after.entries,
        k,
    ) == value_at(middle.entries, k) by {
        assert forall|i: int| 0 <= i < nf.len() implies (#[trigger] nf[i]).0 != k by {
            assert(delta.non_fungible.contains_key(nf[i].0));
        }
    }
    assert forall|k: RawWord| !delta.fungible.contains_key(k) implies #[trigger] value_at(
        middle.entries,
        k,
    ) == value_at(vault.entries, k) by {
        assert forall|i: int| 0 <= i < f.len() implies (#[trigger] f[i]).0 != k by {
            assert(delta.fungible.contains_key(f[i].0));
        }
    }
    assert forall|k: RawWord| #[trigger] delta.fungible.contains_key(k) implies value_at(
        after.entries,
        k,
    ).0 == value_at(vault.entries, k).0 + delta.fungible[k] by {
        let i = choose|i: int| 0 <= i < f.len() && (#[trigger] f[i]).0 == k;
        assert(delta.fungible[f[i].0] == f[i].1);
        assert(!delta.non_fungible.contains_key(k));
        assert(value_at(after.entries, k) == value_at(middle.entries, k));
    }
    assert forall|k: RawWord| #[trigger] delta.non_fungible.contains_key(k) implies value_at(
        after.entries,
        k,
    ) == value_after(delta.non_fungible[k]) && (value_at(vault.entries, k) == empty_word()
        <==> delta.non_fungible[k].1 is Add) by {
        let i = choose|i: int| 0 <= i < nf.len() && (#[trigger] nf[i]).0 == k;
        assert(delta.non_fungible[nf[i].0] == nf[i].1);
        assert(!delta.fungible.contains_key(k));
        assert(value_at(middle.entries, k) == value_at(vault.entries, k));
    }
}

/// A delta fits a vault: no amount becomes negative or too large, no non-fungible asset is added
/// that is there, and none is removed that is not.
pub open spec fn delta_fits(vault: VaultState, delta: DeltaState) -> bool {
    &&& forall|k: RawWord| #[trigger]
        delta.fungible.contains_key(k) ==> 0 <= value_at(vault.entries, k).0 + delta.fungible[k]
            <= MAX_AMOUNT
    &&& forall|k: RawWord| #[trigger]
        delta.non_fungible.contains_key(k) ==> (value_at(vault.entries, k) == empty_word()
            <==> delta.non_fungible[k].1 is Add)
}

/// The first fungible changes of a delta that fits can only fail for a full leaf.
proof fn lemma_fungible_changes_fit(
    vault: VaultState,
    delta: DeltaState,
    keys: Set<RawWord>,
    n: int,
)
    requires
        valid_within(vault, keys),
        valid_delta(delta),
        delta.fungible.dom().subset_of(keys),
        delta_fits(vault, delta),
        0 <= n <= listing(delta.fungible).len(),
    ensures
        fungible_changes(vault, listing(delta.fungible).take(n)).1 is Ok || is_leaf_overflow(
            fungible_changes(vault, listing(delta.fungible).take(n)).1,
        ),
    decreases n,
{
    let f = listing(delta.fungible);
    lemma_listing_exists(delta.fungible);
    if n > 0 {
        assert(f.take(n).drop_last() =~= f.take(n - 1));
        lemma_fungible_changes_fit(vault, delta, keys, n - 1);
        if fungible_changes(vault, f.take(n - 1)).1 is Ok {
            lemma_fungible_changes(vault, f, delta.fungible, keys, n - 1);
            let change = f[n - 1];
            assert(delta.fungible.contains_key(change.0));
            assert forall|i: int| 0 <= i < n - 1 implies (#[trigger] f[i]).0 != change.0 by {
                assert(word_less(f[i].0, f[n - 1].0));
            }
            let before = fungible_changes(vault, f.take(n - 1)).0;
            assert(value_at(before.entries, change.0) == value_at(vault.entries, change.0));
        }
    }
}

/// The first non-fungible changes of a delta that fits can only fail for a full leaf.
proof fn lemma_non_fungible_changes_fit(
    vault: VaultState,
    delta: DeltaState,
    keys: Set<RawWord>,
    n: int,
)
    requires
        valid_within(vault, keys),
        valid_delta(delta),
        delta.non_fungible.dom().subset_of(keys),
        forall|k: RawWord| #[trigger]
            delta.non_fungible.contains_key(k) ==> (value_at(vault.entries, k) == empty_word()
                <==> delta.non_fungible[k].1 is Add),
        0 <= n <= listing(delta.non_fungible).len(),
    ensures
        non_fungible_changes(vault, listing(delta.non_fungible).take(n)).1 is Ok
            || is_leaf_overflow(
            non_fungible_changes(vault, listing(delta.non_fungible).take(n)).1,
        ),
    decreases n,
{
    let nf = listing(delta.non_fungible);
    lemma_listing_exists(delta.non_fungible);
    if n > 0 {
        assert(nf.take(n).drop_last() =~= nf.take(n - 1));
        lemma_non_fungible_changes_fit(vault, delta, keys, n - 1);
        if non_fungible_changes(vault, nf.take(n - 1)).1 is Ok {
            lemma_non_fungible_changes(vault, nf, delta.non_fungible, keys, n - 1);
            let change = nf[n - 1];
            assert(delta.non_fungible.contains_key(change.0));
            assert forall|i: int| 0 <= i < n - 1 implies (#[trigger] nf[i]).0 != change.0 by {
                assert(word_less(nf[i].0, nf[n - 1].0));
            }
            let before = non_fungible_changes(vault, nf.take(n - 1)).0;
            assert(value_at(before.entries, change.0) == value_at(vault.entries, change.0));
            lemma_within(before, keys, change.0);
        }
    }
}

/// A delta that fits a vault is applied without an error, unless a leaf is full. The keys of the
/// vault and of the delta must not share a hash.
pub proof fn law_fitting_delta_applies(vault: VaultState, delta: DeltaState)
    requires
        valid_vault(vault),
        valid_delta(delta),
        keys_apart(all_keys(vault, delta)),
        delta_fits(vault, delta),
    ensures
        delta_step(vault, delta).1 is Ok || is_leaf_overflow(delta_step(vault, delta).1),
{
    lemma_delta_applies(vault, delta, all_keys(vault, delta));
}

/// A delta that fits a vault is applied without an error, unless a leaf is full.
proof fn lemma_delta_applies(vault: VaultState, delta: DeltaState, keys: Set<RawWord>)
    requires
        valid_within(vault, keys),
        valid_delta(delta),
        delta.fungible.dom().subset_of(keys),
        delta.non_fungible.dom().subset_of(keys),
        delta_fits(vault, delta),
    ensures
        delta_step(vault, delta).1 is Ok || is_leaf_overflow(delta_step(vault, delta).1),
{
    let f = listing(delta.fungible);
    let nf = listing(delta.non_fungible);
    lemma_listing_exists(delta.fungible);
    lemma_listing_exists(delta.non_fungible);
    assert(f.take(f.len() as int) =~= f);
    assert(nf.take(nf.len() as int) =~= nf);
    lemma_fungible_changes_fit(vault, delta, keys, f.len() as int);
    if fungible_changes(vault, f).1 is Ok {
        let middle = fungible_changes(vault, f).0;
        lemma_fungible_changes(vault, f, delta.fungible, keys, f.len() as int);
        assert forall|k: RawWord| #[trigger] delta.non_fungible.contains_key(k) implies (value_at(
            middle.entries,
            k,
        ) == empty_word() <==> delta.non_fungible[k].1 is Add) by {
            assert forall|i: int| 0 <= i < f.len() implies (#[trigger] f[i]).0 != k by {
                assert(delta.fungible.contains_key(f[i].0));
            }
            assert(value_at(middle.entries, k) == value_at(vault.entries, k));
        }
        lemma_non_fungible_changes_fit(middle, delta, keys, nf.len() as int);
    }
}

/// The other direction of a change.
pub open spec fn inverse_action(action: NonFungibleDeltaAction) -> NonFungibleDeltaAction {
    match action {
        NonFungibleDeltaAction::Add => NonFungibleDeltaAction::Remove,
        NonFungibleDeltaAction::Remove => NonFungibleDeltaAction::Add,
    }
}

/// The inverse of a delta: every amount is negated, and what came goes.
pub open spec fn inverse_delta(delta: DeltaState) -> DeltaState {
    DeltaState {
        fungible: delta.fungible.map_values(|amount: i64| (-amount) as i64),
        non_fungible: delta.non_fungible.map_values(
            |change: (RawAsset, NonFungibleDeltaAction)| (change.0, inverse_action(change.1)),
        ),
    }
}

/// The non-fungible assets that a delta adds are not empty, and those that it removes are the ones
/// that the vault stores.
pub open spec fn names_stored_assets(vault: VaultState, delta: DeltaState) -> bool {
    forall|k: RawWord| #[trigger]
        delta.non_fungible.contains_key(k) ==> match delta.non_fungible[k].1 {
            NonFungibleDeltaAction::Add => delta.non_fungible[k].0.1 != empty_word(),
            NonFungibleDeltaAction::Remove => delta.non_fungible[k].0.1 == value_at(
                vault.entries,
                k,
            ),
        }
}

/// A delta followed by its inverse gives back the vault as it was before, unless a leaf is full.
///
/// The keys of the vault and of the delta must not share a hash. The non-fungible assets that the
/// delta adds must not be empty, and those that it removes must be the ones that are stored.
pub proof fn law_inverse_delta_restores(vault: VaultState, delta: DeltaState)
    requires
        valid_vault(vault),
        valid_delta(delta),
        keys_apart(all_keys(vault, delta)),
        names_stored_assets(vault, delta),
        delta_step(vault, delta).1 is Ok,
    ensures
        valid_delta(inverse_delta(delta)),
        ({
            let back = delta_step(delta_step(vault, delta).0, inverse_delta(delta));
            back == (vault, Ok::<(), VaultFault>(())) || is_leaf_overflow(back.1)
        }),
{
    let keys = all_keys(vault, delta);
    let after = delta_step(vault, delta).0;
    let inverse = inverse_delta(delta);
    law_delta_effect(vault, delta);
    assert(inverse.fungible.dom() =~= delta.fungible.dom());
    assert(inverse.non_fungible.dom() =~= delta.non_fungible.dom());
    assert forall|k: RawWord| #[trigger] inverse.fungible.contains_key(k) implies valid_key(k)
        && is_fungible_key(k) && valid_change(inverse.fungible[k]) by {
        assert(delta.fungible.contains_key(k));
    }
    assert forall|k: RawWord| #[trigger] inverse.non_fungible.contains_key(
        k,
    ) implies inverse.non_fungible[k].0.0 == k && valid_asset(k, inverse.non_fungible[k].0.1)
        && !is_fungible_key(k) by {
        assert(delta.non_fungible.contains_key(k));
    }
    assert forall|k: RawWord| #[trigger] inverse.fungible.contains_key(k) implies 0 <= value_at(
        after.entries,
        k,
    ).0 + inverse.fungible[k] <= MAX_AMOUNT by {
        assert(delta.fungible.contains_key(k));
        lemma_amount_bound(vault, k);
    }
    assert forall|k: RawWord| #[trigger] inverse.non_fungible.contains_key(k) implies (value_at(
        after.entries,
        k,
    ) == empty_word() <==> inverse.non_fungible[k].1 is Add) by {
        assert(delta.non_fungible.contains_key(k));
    }
    lemma_delta_applies(after, inverse, keys);
    let back = delta_step(after, inverse).0;
    if delta_step(after, inverse).1 is Ok {
        assert(all_keys(after, inverse).subset_of(keys));
        assert(keys_apart(all_keys(after, inverse))) by {
            assert forall|a: RawWord, b: RawWord| #[trigger]
                all_keys(after, inverse).contains(a) && #[trigger] all_keys(
                    after,
                    inverse,
                ).contains(b) && smt_key(a) == smt_key(b) implies a == b by {
                assert(keys.contains(a) && keys.contains(b));
            }
        }
        law_delta_effect(after, inverse);
        assert forall|k: RawWord| #[trigger] value_at(back.entries, k) == value_at(
            vault.entries,
            k,
        ) by {
            if delta.fungible.contains_key(k) {
                assert(inverse.fungible.contains_key(k));
                lemma_fungible_value(back, k);
                lemma_fungible_value(vault, k);
            } else if delta.non_fungible.contains_key(k) {
                assert(inverse.non_fungible.contains_key(k));
            } else {
                assert(!inverse.fungible.contains_key(k) && !inverse.non_fungible.contains_key(k));
            }
        }
        law_assets_determine_vault(back, vault);
    }
}

/// The amount of a fungible asset in a vault is in bounds.
proof fn lemma_amount_bound(vault: VaultState, key: RawWord)
    requires
        valid_vault(vault),
        is_fungible_key(key),
    ensures
        value_at(vault.entries, key).0 <= MAX_AMOUNT,
{
    if vault.entries.contains_key(key) {
        assert(valid_asset(key, vault.entries[key]));
    }
}

/// The value of a fungible asset in a vault is its amount.
pub proof fn lemma_fungible_value(vault: VaultState, key: RawWord)
    requires
        valid_vault(vault),
        is_fungible_key(key),
    ensures
        value_at(vault.entries, key) == amount_word(value_at(vault.entries, key).0),
{
    if vault.entries.contains_key(key) {
        assert(valid_asset(key, vault.entries[key]));
    }
}

// REBUILDING
// ================================================================================================

/// A vault can be built again from the list of its assets, and is then the same vault.
pub proof fn law_rebuilt_from_assets(vault: VaultState)
    requires
        valid_vault(vault),
    ensures
        buildable(listing(vault.entries)),
        vault_of(listing(vault.entries)) == vault,
{
    let list = listing(vault.entries);
    lemma_listing_exists(vault.entries);
    lemma_insert_listing(no_pairs(), list, vault.entries);
    assert(no_pairs().union_prefer_right(vault.entries) =~= vault.entries);
    assert forall|i: int| 0 <= i < list.len() implies (#[trigger] list[i]).1 != empty_word() by {
        assert(vault.entries.contains_key(list[i].0));
    }
    lemma_listed_all(list);
    let pairs = tree_list(list);
    assert forall|i: int, j: int| 0 <= i < j < pairs.len() implies pairs[i].0 != pairs[j].0 by {
        assert(word_less(list[i].0, list[j].0));
        assert(vault.entries.contains_key(list[i].0));
        assert(vault.entries.contains_key(list[j].0));
    }
    lemma_list_is_synced(list);
    lemma_listed_not_empty(pairs);
    lemma_entries_determine_tree(vault_of(list), vault);
}

/// A list without empty values is listed as it is.
proof fn lemma_listed_all(list: Seq<(RawWord, RawWord)>)
    requires
        forall|i: int| 0 <= i < list.len() ==> (#[trigger] list[i]).1 != empty_word(),
    ensures
        listed_pairs(list) == insert_all(no_pairs(), list),
    decreases list.len(),
{
    if list.len() > 0 {
        let rest = list.drop_last();
        assert forall|i: int| 0 <= i < rest.len() implies (#[trigger] rest[i]).1
            != empty_word() by {
            assert(rest[i] == list[i]);
        }
        lemma_listed_all(rest);
        assert(list[list.len() - 1].1 != empty_word());
    }
}

/// The tree of a vault has no pair of the empty word.
pub open spec fn no_empty_pairs(tree: Map<RawWord, RawWord>) -> bool {
    forall|h: RawWord| #[trigger] tree.contains_key(h) ==> tree[h] != empty_word()
}

/// Two vaults in sync with the same entries have the same tree.
proof fn lemma_entries_determine_tree(a: VaultState, b: VaultState)
    requires
        synced(a),
        synced(b),
        no_empty_pairs(a.tree),
        no_empty_pairs(b.tree),
        a.entries == b.entries,
    ensures
        a == b,
{
    assert forall|h: RawWord| value_at(a.tree, h) == value_at(b.tree, h) by {
        if a.tree.contains_key(h) {
            let k = choose|k: RawWord| #[trigger] a.entries.contains_key(k) && smt_key(k) == h;
            assert(value_at(b.tree, smt_key(k)) == b.entries[k]);
        } else if b.tree.contains_key(h) {
            let k = choose|k: RawWord| #[trigger] b.entries.contains_key(k) && smt_key(k) == h;
            assert(value_at(a.tree, smt_key(k)) == a.entries[k]);
        }
    }
    assert forall|h: RawWord| a.tree.contains_key(h) == b.tree.contains_key(h) by {
        assert(value_at(a.tree, h) == value_at(b.tree, h));
    }
    assert forall|h: RawWord| #[trigger] a.tree.contains_key(h) implies a.tree[h] == b.tree[h] by {
        assert(value_at(a.tree, h) == value_at(b.tree, h));
    }
    assert(a.tree =~= b.tree);
}

/// The assets of a vault determine it: two vaults that have the same value for every vault key are
/// the same and have the same root, however they came about.
pub proof fn law_assets_determine_vault(a: VaultState, b: VaultState)
    requires
        valid_vault(a),
        valid_vault(b),
        forall|k: RawWord| #[trigger] value_at(a.entries, k) == value_at(b.entries, k),
    ensures
        a == b,
        smt_root(a.tree) == smt_root(b.tree),
{
    assert forall|k: RawWord| a.entries.contains_key(k) == b.entries.contains_key(k) by {
        assert(value_at(a.entries, k) == value_at(b.entries, k));
    }
    assert forall|k: RawWord| #[trigger] a.entries.contains_key(k) implies a.entries[k]
        == b.entries[k] by {
        assert(value_at(a.entries, k) == value_at(b.entries, k));
    }
    assert(a.entries =~= b.entries);
    lemma_entries_determine_tree(a, b);
}

/// The order of the assets with which a vault is built does not matter: two lists of the same
/// assets give the same vault.
pub proof fn law_order_of_assets_is_irrelevant(a: Seq<RawAsset>, b: Seq<RawAsset>)
    requires
        buildable(a),
        buildable(b),
        forall|asset: RawAsset| #[trigger] a.contains(asset) <==> b.contains(asset),
    ensures
        vault_of(a) == vault_of(b),
{
    lemma_same_assets(a, b);
}

/// Two lists of the same assets with distinct hashes give the same vault.
proof fn lemma_same_assets(a: Seq<RawAsset>, b: Seq<RawAsset>)
    requires
        distinct_keys(tree_list(a)),
        distinct_keys(tree_list(b)),
        forall|asset: RawAsset| #[trigger] a.contains(asset) <==> b.contains(asset),
    ensures
        vault_of(a) == vault_of(b),
{
    lemma_list_is_synced(a);
    lemma_list_is_synced(b);
    lemma_built_entries(a);
    lemma_built_entries(b);
    lemma_listed_not_empty(a);
    lemma_listed_not_empty(b);
    let left = vault_of(a).entries;
    let right = vault_of(b).entries;
    assert forall|k: RawWord| #[trigger] left.contains_key(k) implies right.contains_key(k)
        && left[k] == right[k] by {
        assert(a.contains((k, left[k])));
        assert(b.contains((k, left[k])));
    }
    assert forall|k: RawWord| #[trigger] right.contains_key(k) implies left.contains_key(k) by {
        assert(b.contains((k, right[k])));
        assert(a.contains((k, right[k])));
    }
    assert(left =~= right);
    lemma_listed_not_empty(tree_list(a));
    lemma_listed_not_empty(tree_list(b));
    lemma_entries_determine_tree(vault_of(a), vault_of(b));
}

/// The entries of a vault that is built from assets with distinct hashes are exactly these assets,
/// without those of the empty word.
pub proof fn lemma_built_entries(assets: Seq<RawAsset>)
    requires
        distinct_keys(tree_list(assets)),
    ensures
        forall|k: RawWord| #[trigger]
            vault_of(assets).entries.contains_key(k) ==> assets.contains(
                (k, vault_of(assets).entries[k]),
            ),
        forall|asset: RawAsset| #[trigger]
            assets.contains(asset) && asset.1 != empty_word() ==> vault_of(
                assets,
            ).entries.contains_key(asset.0) && vault_of(assets).entries[asset.0] == asset.1,
    decreases assets.len(),
{
    if assets.len() > 0 {
        let pairs = tree_list(assets);
        let rest = assets.drop_last();
        let n = assets.len() - 1;
        let last = assets[n];
        assert forall|i: int, j: int| 0 <= i < j < rest.len() implies tree_list(rest)[i].0
            != tree_list(rest)[j].0 by {
            assert(pairs[i].0 != pairs[j].0);
        }
        lemma_built_entries(rest);
        let before = vault_of(rest).entries;
        let after = vault_of(assets).entries;
        assert(after == set_value(before, last.0, last.1));
        assert forall|k: RawWord| #[trigger] after.contains_key(k) implies assets.contains(
            (k, after[k]),
        ) by {
            if k == last.0 {
                assert(assets[n] == (k, after[k]));
            } else {
                assert(before.contains_key(k));
                let i = choose|i: int| 0 <= i < rest.len() && rest[i] == (k, before[k]);
                assert(assets[i] == (k, after[k]));
            }
        }
        assert forall|asset: RawAsset| #[trigger]
            assets.contains(asset) && asset.1 != empty_word() implies after.contains_key(asset.0)
            && after[asset.0] == asset.1 by {
            let i = choose|i: int| 0 <= i < assets.len() && assets[i] == asset;
            if i < n {
                assert(rest[i] == asset);
                assert(rest.contains(asset));
                assert(pairs[i].0 != pairs[n].0);
            }
        }
    }
}

/// No pair of a tree that was built from a list has the empty word as its value.
pub proof fn lemma_listed_not_empty(list: Seq<(RawWord, RawWord)>)
    ensures
        forall|k: RawWord| #[trigger]
            listed_pairs(list).contains_key(k) ==> listed_pairs(list)[k] != empty_word(),
    decreases list.len(),
{
    if list.len() > 0 {
        let before = listed_pairs(list.drop_last());
        lemma_listed_not_empty(list.drop_last());
        assert forall|k: RawWord| #[trigger] listed_pairs(list).contains_key(k) implies listed_pairs(
            list,
        )[k] != empty_word() by {
            if k != list.last().0 {
                assert(before.contains_key(k));
            }
        }
    }
}

/// The tree of a vault has no pairs if and only if the vault has no assets. This is what
/// `AssetVault::is_empty` tells.
pub proof fn law_empty_tree_means_no_assets(vault: VaultState)
    requires
        valid_vault(vault),
    ensures
        vault.tree == no_pairs() <==> forall|k: RawWord| #[trigger]
            value_at(vault.entries, k) == empty_word(),
{
    if vault.tree == no_pairs() {
        assert forall|k: RawWord| #[trigger] value_at(vault.entries, k) == empty_word() by {
            if vault.entries.contains_key(k) {
                assert(value_at(vault.tree, smt_key(k)) == vault.entries[k]);
            }
        }
    }
    if forall|k: RawWord| #[trigger] value_at(vault.entries, k) == empty_word() {
        assert forall|h: RawWord| !(#[trigger] vault.tree.contains_key(h)) by {
            if vault.tree.contains_key(h) {
                let k = choose|k: RawWord| #[trigger]
                    vault.entries.contains_key(k) && smt_key(k) == h;
                assert(value_at(vault.entries, k) == empty_word());
                assert(vault.tree[h] != empty_word());
            }
        }
        assert(vault.tree =~= no_pairs());
    }
}

/// The tree of a vault has as many pairs as the vault has assets.
pub proof fn law_tree_counts_assets(vault: VaultState)
    requires
        valid_vault(vault),
    ensures
        vault.tree.dom().len() == listing(vault.entries).len(),
{
    let f = |k: RawWord| smt_key(k);
    lemma_listing_exists(vault.entries);
    lemma_listing_len(listing(vault.entries), vault.entries);
    assert(vault.entries.dom().map(f) =~= vault.tree.dom()) by {
        assert forall|h: RawWord| vault.entries.dom().map(f).contains(h) implies vault.tree.dom().contains(
            h,
        ) by {
            let k = choose|k: RawWord| vault.entries.dom().contains(k) && f(k) == h;
            assert(vault.entries.contains_key(k));
            assert(value_at(vault.tree, smt_key(k)) == vault.entries[k]);
        }
        assert forall|h: RawWord| vault.tree.dom().contains(h) implies vault.entries.dom().map(
            f,
        ).contains(h) by {
            assert(vault.tree.contains_key(h));
            let k = choose|k: RawWord| #[trigger]
                vault.entries.contains_key(k) && smt_key(k) == h;
            assert(vault.entries.dom().contains(k) && f(k) == h);
        }
    }
    assert(vstd::relations::injective_on(f, vault.entries.dom())) by {
        assert forall|a: RawWord, b: RawWord|
            vault.entries.dom().contains(a) && vault.entries.dom().contains(b) && #[trigger] f(a)
                == #[trigger] f(b) implies a == b by {
            assert(vault.entries.contains_key(a) && vault.entries.contains_key(b));
        }
    }
    vstd::set_lib::lemma_map_size(vault.entries.dom(), vault.tree.dom(), f);
}

// WITNESSES
// ================================================================================================

/// The entry of a witness that was opened in a vault is present in its proof, under the hash of its
/// vault key, and the proof leads to the root of the vault. The proof shows the value that the
/// vault has for the key, if the hash of the key is not that of another entry.
pub proof fn law_opening_is_proved(vault: VaultState, key: RawWord, witness: WitnessState)
    requires
        valid_vault(vault),
        opens(vault, key, witness),
    ensures
        entries_proved(witness.proof, witness.entries),
        proof_value(witness.proof, smt_key(key)) == Some(value_at(vault.tree, smt_key(key))),
        proof_root(witness.proof) == smt_root(vault.tree),
        hash_is_new(vault.entries, key) ==> witness.entries == no_pairs().insert(
            key,
            value_at(vault.entries, key),
        ),
{
    lemma_leaf_value(vault.tree, smt_key(key));
    assert(value_at(proof_pairs(witness.proof), smt_key(key)) == value_at(
        vault.tree,
        smt_key(key),
    ));
    if hash_is_new(vault.entries, key) {
        lemma_value_of_key(vault, key);
        assert(witness_fault(witness.proof, key) is None);
    }
}

/// The tree of a vault has no value for the hash of a vault key, or one that forms an asset with
/// the key. So it is unless the hash is that of another entry.
pub open spec fn value_suits_key(vault: VaultState, key: RawWord) -> bool {
    value_at(vault.tree, smt_key(key)) == empty_word() || asset_fault(
        key,
        value_at(vault.tree, smt_key(key)),
    ) is None
}

/// The checked constructor accepts the proof of an opening of a vault with its vault key, whether
/// the asset is in the vault or not, and gives the same witness again. The only keys that it
/// refuses are those whose hash is that of another entry with a value that forms no asset with the
/// key.
pub proof fn law_opening_can_be_checked(vault: VaultState, key: RawWord, witness: WitnessState)
    requires
        valid_vault(vault),
        opens(vault, key, witness),
    ensures
        value_suits_key(vault, key) <==> witness_entries(witness.proof, seq![key]) == Ok::<
            _,
            AssetFault,
        >(witness.entries),
        hash_is_new(vault.entries, key) ==> value_suits_key(vault, key),
{
    law_opening_is_proved(vault, key, witness);
    let keys = seq![key];
    assert(keys.drop_last() =~= Seq::empty());
    assert(witness_entries(witness.proof, keys.drop_last()) == Ok::<_, AssetFault>(
        no_pairs(),
    ));
    assert(witness_fault(witness.proof, key) is None <==> value_suits_key(vault, key));
    if hash_is_new(vault.entries, key) {
        lemma_value_of_key(vault, key);
    }
}

/// Opening a vault at a vault key shows what the vault has under the key: the witness has the value
/// of the vault, authenticates the key and leads to the root. The only keys for which it shows
/// another value are those whose hash is that of another entry.
pub proof fn law_opening_shows_asset(vault: VaultState, key: RawWord, witness: WitnessState)
    requires
        valid_vault(vault),
        opens(vault, key, witness),
    ensures
        proof_root(witness.proof) == smt_root(vault.tree),
        proof_value(witness.proof, smt_key(key)) is Some,
        hash_is_new(vault.entries, key) <==> witness.entries == no_pairs().insert(
            key,
            value_at(vault.entries, key),
        ),
        hash_is_new(vault.entries, key) ==> value_at(witness.entries, key) == value_at(
            vault.entries,
            key,
        ),
{
    law_opening_is_proved(vault, key, witness);
    if !hash_is_new(vault.entries, key) {
        let other = choose|k: RawWord| #[trigger]
            vault.entries.contains_key(k) && smt_key(k) == smt_key(key) && k != key;
        assert(value_at(vault.tree, smt_key(other)) == vault.entries[other]);
        assert(!vault.entries.contains_key(key));
        let claimed = no_pairs().insert(key, value_at(vault.entries, key));
        assert(claimed.contains_key(key) && claimed[key] == empty_word());
        if witness.entries.contains_key(key) {
            assert(witness.entries[key] == vault.entries[other]);
        }
    }
}

/// The vault keys of a list of entries.
pub open spec fn keys_of(list: Seq<(RawWord, RawWord)>) -> Seq<RawWord> {
    Seq::new(list.len(), |i: int| list[i].0)
}

/// A witness whose entries are present in its proof can be built again from the proof and the list
/// of its vault keys, and is then the same witness.
pub proof fn law_witness_is_rebuilt(witness: WitnessState)
    requires
        witness.entries.dom().finite(),
        assets_or_empty(witness.entries),
        entries_proved(witness.proof, witness.entries),
    ensures
        witness_entries(witness.proof, keys_of(listing(witness.entries))) == Ok::<_, AssetFault>(
            witness.entries,
        ),
{
    let list = listing(witness.entries);
    lemma_listing_exists(witness.entries);
    lemma_witness_of_part(witness, list, list.len() as int);
    assert(list.take(list.len() as int) =~= list);
    assert(keys_of(list).take(list.len() as int) =~= keys_of(list));
    lemma_insert_listing(no_pairs(), list, witness.entries);
    assert(no_pairs().union_prefer_right(witness.entries) =~= witness.entries);
}

/// The entries that a proof gives to the first vault keys of a listing.
proof fn lemma_witness_of_part(witness: WitnessState, list: Seq<(RawWord, RawWord)>, n: int)
    requires
        is_listing(list, witness.entries),
        assets_or_empty(witness.entries),
        entries_proved(witness.proof, witness.entries),
        0 <= n <= list.len(),
    ensures
        witness_entries(witness.proof, keys_of(list).take(n)) == Ok::<_, AssetFault>(
            insert_all(no_pairs(), list.take(n)),
        ),
    decreases n,
{
    let keys = keys_of(list);
    if n > 0 {
        lemma_witness_of_part(witness, list, n - 1);
        assert(keys.take(n).drop_last() =~= keys.take(n - 1));
        assert(list.take(n).drop_last() =~= list.take(n - 1));
        let key = list[n - 1].0;
        assert(keys.take(n).last() == key);
        assert(list.take(n).last() == list[n - 1]);
        assert(witness.entries.contains_key(key));
        assert(witness_fault(witness.proof, key) is None);
    }
}

} // verus!
