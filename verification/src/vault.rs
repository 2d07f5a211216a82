//! Asset vaults.
use vstd::prelude::*;

use miden_crypto::merkle::smt::Smt;

use crate::account::{prefix_type, AccountId, AccountType, RawAccountId};
use crate::asset::{
    amount_word, asset_size, asset_values, fungible_difference, fungible_sum, valid_asset, Asset,
    AssetError, AssetFault, FungibleAsset, NonFungibleAsset, RawAsset, NON_FUNGIBLE_ASSET_SIZE,
};
use crate::delta::{
    valid_change, valid_delta, AccountVaultDelta, DeltaState, NonFungibleDeltaAction,
};
use crate::hash::{export_word, import_word};
use crate::key_map::{
    entry_values, insert_all, is_listing, lemma_insert_listing, lemma_listing_len, listing, KeyMap,
};
use crate::merkle::{
    distinct_keys, import_merkle_error, leaf_at_bottom, leaf_digest, leaf_indices, leaf_keys,
    leaf_len, leaf_overflows, leaf_pairs, lemma_no_pairs_valid, lemma_set_value_valid, listed_pairs,
    lists_nodes, no_pairs, node_values, pair_values, proof_entries, proof_in, proof_leaf,
    proof_pairs, proof_root, proof_siblings, set_value, smt_built, smt_inner, smt_inner_nodes,
    smt_pairs, smt_root, smt_with_entries, valid_pairs, value_at, with_entries_fault, InnerNodeInfo,
    MerkleError, MerkleFault,
};
use crate::paths::{empty_root, lemma_path_in, SMT_DEPTH};
use crate::vault_key::{is_fungible_key, make_key, smt_key, AssetVaultKey};
use crate::vault_laws::law_tree_counts_assets;
use crate::witness::{opened_entries, AssetWitness, WitnessState};
use crate::word::{empty_word, RawWord, Word};

verus! {

// MODEL
// ================================================================================================

/// The value of a vault: the entries by vault key, and the pairs of the tree, which are keyed by
/// the hashes of the vault keys.
#[verifier::ext_equal]
pub struct VaultState {
    pub entries: Map<RawWord, RawWord>,
    pub tree: Map<RawWord, RawWord>,
}

/// There are finitely many entries, all of them form assets, and none has the empty word as its
/// value.
pub open spec fn valid_entries(entries: Map<RawWord, RawWord>) -> bool {
    &&& entries.dom().finite()
    &&& forall|k: RawWord| #[trigger]
        entries.contains_key(k) ==> valid_asset(k, entries[k]) && entries[k] != empty_word()
}

/// No two vault keys of the map have the same hash.
pub open spec fn hashes_apart(entries: Map<RawWord, RawWord>) -> bool {
    forall|a: RawWord, b: RawWord| #[trigger]
        entries.contains_key(a) && #[trigger] entries.contains_key(b) && smt_key(a) == smt_key(b)
            ==> a == b
}

/// The entries and the tree of a vault are in sync: the tree gives to the hash of every vault key
/// the value of its entry, it has no further pairs, and no two vault keys share a hash.
pub open spec fn synced(vault: VaultState) -> bool {
    &&& hashes_apart(vault.entries)
    &&& forall|k: RawWord| #[trigger]
        vault.entries.contains_key(k) ==> value_at(vault.tree, smt_key(k)) == vault.entries[k]
    &&& forall|h: RawWord| #[trigger]
        vault.tree.contains_key(h) ==> exists|k: RawWord| #[trigger]
            vault.entries.contains_key(k) && smt_key(k) == h
}

/// What holds of every vault: it only stores valid assets, the pairs of the tree fit into its
/// leaves, and the entries and the tree are in sync.
pub open spec fn valid_vault(vault: VaultState) -> bool {
    &&& valid_entries(vault.entries)
    &&& valid_pairs(vault.tree)
    &&& synced(vault)
}

/// The hash of the key is not that of another vault key of the map.
pub open spec fn hash_is_new(entries: Map<RawWord, RawWord>, key: RawWord) -> bool {
    forall|k: RawWord| #[trigger]
        entries.contains_key(k) && smt_key(k) == smt_key(key) ==> k == key
}

/// The entries whose vault keys have another hash.
pub open spec fn without_hash(entries: Map<RawWord, RawWord>, hash: RawWord) -> Map<
    RawWord,
    RawWord,
> {
    Map::new(
        |k: RawWord| entries.contains_key(k) && smt_key(k) != hash,
        |k: RawWord| entries[k],
    )
}

/// The entries after the value of a vault key has been set in the tree. The tree has one value for
/// a hash, so that an entry of another key with the same hash goes.
pub open spec fn set_entry(entries: Map<RawWord, RawWord>, key: RawWord, value: RawWord) -> Map<
    RawWord,
    RawWord,
> {
    set_value(without_hash(entries, smt_key(key)), key, value)
}

/// The pairs of the tree for a list of assets.
pub open spec fn tree_list(assets: Seq<RawAsset>) -> Seq<(RawWord, RawWord)> {
    Seq::new(assets.len(), |i: int| (smt_key(assets[i].0), assets[i].1))
}

/// A vault can be built from a list of assets: the hashes of their keys are distinct, and they fit
/// into the leaves of a tree.
pub open spec fn buildable(assets: Seq<RawAsset>) -> bool {
    distinct_keys(tree_list(assets)) && valid_pairs(listed_pairs(tree_list(assets)))
}

/// The vault of a list of assets. An asset whose value is the empty word leaves no trace.
pub open spec fn vault_of(assets: Seq<RawAsset>) -> VaultState {
    VaultState {
        entries: listed_pairs(assets),
        tree: listed_pairs(tree_list(assets)),
    }
}

/// Sets the value of a vault key, where the empty word removes the entry: the vault afterwards, and
/// the former value in the tree. If the leaf is full, nothing changes.
pub open spec fn insert_step(vault: VaultState, key: RawWord, value: RawWord) -> (
    VaultState,
    Result<RawWord, VaultFault>,
) {
    if leaf_overflows(vault.tree, smt_key(key), value) {
        (
            vault,
            Err(
                VaultFault::MaxLeafEntriesExceeded(
                    MerkleFault::TooManyLeafEntries {
                        actual: (leaf_len(vault.tree, smt_key(key).3) + 1) as usize,
                    },
                ),
            ),
        )
    } else {
        (
            VaultState {
                entries: set_entry(vault.entries, key, value),
                tree: set_value(vault.tree, smt_key(key), value),
            },
            Ok(value_at(vault.tree, smt_key(key))),
        )
    }
}

/// Adds a fungible asset: its amount is added to that of the entry, if there is one. The result is
/// the new total.
pub open spec fn add_fungible_step(vault: VaultState, asset: RawAsset) -> (
    VaultState,
    Result<RawAsset, VaultFault>,
) {
    match fungible_sum((asset.0, value_at(vault.entries, asset.0)), asset) {
        Err(fault) => (vault, Err(VaultFault::AddFungibleAssetBalanceError(fault))),
        Ok(total) => {
            let step = insert_step(vault, total.0, total.1);
            match step.1 {
                Err(fault) => (step.0, Err(fault)),
                Ok(_) => (step.0, Ok(total)),
            }
        },
    }
}

/// Adds a non-fungible asset. If the tree already had a value under its key, that value is
/// overwritten and an error is returned.
pub open spec fn add_non_fungible_step(vault: VaultState, asset: RawAsset) -> (
    VaultState,
    Result<RawAsset, VaultFault>,
) {
    let step = insert_step(vault, asset.0, asset.1);
    match step.1 {
        Err(fault) => (step.0, Err(fault)),
        Ok(former) => if former != empty_word() {
            (step.0, Err(VaultFault::DuplicateNonFungibleAsset(asset)))
        } else {
            (step.0, Ok(asset))
        },
    }
}

/// Adds an asset.
pub open spec fn add_step(vault: VaultState, asset: RawAsset) -> (
    VaultState,
    Result<RawAsset, VaultFault>,
) {
    if is_fungible_key(asset.0) {
        add_fungible_step(vault, asset)
    } else {
        add_non_fungible_step(vault, asset)
    }
}

/// Removes a fungible asset: its amount is subtracted from that of the entry, which has to be there
/// with a positive amount. The result is what remains.
pub open spec fn remove_fungible_step(vault: VaultState, asset: RawAsset) -> (
    VaultState,
    Result<RawAsset, VaultFault>,
) {
    let current = value_at(vault.entries, asset.0);
    if current.0 == 0 {
        (vault, Err(VaultFault::FungibleAssetNotFound(asset)))
    } else {
        match fungible_difference((asset.0, current), asset) {
            Err(fault) => (vault, Err(VaultFault::SubtractFungibleAssetBalanceError(fault))),
            Ok(rest) => {
                let step = insert_step(vault, rest.0, rest.1);
                match step.1 {
                    Err(fault) => (step.0, Err(fault)),
                    Ok(_) => (step.0, Ok(rest)),
                }
            },
        }
    }
}

/// Removes a non-fungible asset: whatever is stored under its key goes. If the tree had no value
/// under the key, an error is returned.
pub open spec fn remove_non_fungible_step(vault: VaultState, asset: RawAsset) -> (
    VaultState,
    Result<(), VaultFault>,
) {
    let step = insert_step(vault, asset.0, empty_word());
    match step.1 {
        Err(fault) => (step.0, Err(fault)),
        Ok(former) => if former == empty_word() {
            (step.0, Err(VaultFault::NonFungibleAssetNotFound(asset)))
        } else {
            (step.0, Ok(()))
        },
    }
}

/// Removes an asset. What remains of a fungible asset is returned, even if its amount is zero.
pub open spec fn remove_step(vault: VaultState, asset: RawAsset) -> (
    VaultState,
    Result<Option<RawAsset>, VaultFault>,
) {
    if is_fungible_key(asset.0) {
        let step = remove_fungible_step(vault, asset);
        match step.1 {
            Err(fault) => (step.0, Err(fault)),
            Ok(rest) => (step.0, Ok(Some(rest))),
        }
    } else {
        let step = remove_non_fungible_step(vault, asset);
        match step.1 {
            Err(fault) => (step.0, Err(fault)),
            Ok(_) => (step.0, Ok(None)),
        }
    }
}

/// The absolute value of the change of an amount.
pub open spec fn magnitude(amount: i64) -> u64 {
    if amount >= 0 {
        amount as u64
    } else {
        (-amount) as u64
    }
}

/// Applies the change of the amount of one fungible asset.
pub open spec fn fungible_change_step(vault: VaultState, change: (RawWord, i64)) -> (
    VaultState,
    Result<(), VaultFault>,
) {
    let asset = (change.0, amount_word(magnitude(change.1)));
    let step = if change.1 >= 0 {
        add_fungible_step(vault, asset)
    } else {
        remove_fungible_step(vault, asset)
    };
    match step.1 {
        Err(fault) => (step.0, Err(fault)),
        Ok(_) => (step.0, Ok(())),
    }
}

/// Adds or removes one non-fungible asset.
pub open spec fn non_fungible_change_step(
    vault: VaultState,
    change: (RawAsset, NonFungibleDeltaAction),
) -> (VaultState, Result<(), VaultFault>) {
    match change.1 {
        NonFungibleDeltaAction::Add => {
            let step = add_non_fungible_step(vault, change.0);
            match step.1 {
                Err(fault) => (step.0, Err(fault)),
                Ok(_) => (step.0, Ok(())),
            }
        },
        NonFungibleDeltaAction::Remove => remove_non_fungible_step(vault, change.0),
    }
}

/// Applies the changes of fungible assets in order, up to the first one that fails.
pub open spec fn fungible_changes(vault: VaultState, changes: Seq<(RawWord, i64)>) -> (
    VaultState,
    Result<(), VaultFault>,
)
    decreases changes.len(),
{
    if changes.len() == 0 {
        (vault, Ok(()))
    } else {
        let before = fungible_changes(vault, changes.drop_last());
        match before.1 {
            Err(_) => before,
            Ok(_) => fungible_change_step(before.0, changes.last()),
        }
    }
}

/// Applies the changes of non-fungible assets in order, up to the first one that fails.
pub open spec fn non_fungible_changes(
    vault: VaultState,
    changes: Seq<(RawWord, (RawAsset, NonFungibleDeltaAction))>,
) -> (VaultState, Result<(), VaultFault>)
    decreases changes.len(),
{
    if changes.len() == 0 {
        (vault, Ok(()))
    } else {
        let before = non_fungible_changes(vault, changes.drop_last());
        match before.1 {
            Err(_) => before,
            Ok(_) => non_fungible_change_step(before.0, changes.last().1),
        }
    }
}

/// Applies a delta: first the fungible changes, then the non-fungible ones, each by increasing
/// vault key, up to the first one that fails.
pub open spec fn delta_step(vault: VaultState, delta: DeltaState) -> (
    VaultState,
    Result<(), VaultFault>,
) {
    let first = fungible_changes(vault, listing(delta.fungible));
    match first.1 {
        Err(_) => first,
        Ok(_) => non_fungible_changes(first.0, listing(delta.non_fungible)),
    }
}

/// The number of bytes that a list of assets takes when it is serialized.
pub open spec fn total_size(assets: Seq<RawAsset>) -> int
    decreases assets.len(),
{
    if assets.len() == 0 {
        0
    } else {
        total_size(assets.drop_last()) + asset_size(assets.last().0)
    }
}

/// The number of bytes that a count takes when it is serialized: seven bits go into each byte, up
/// to nine bytes.
pub open spec fn encoded_len(count: usize) -> int {
    if count < 0x80 {
        1
    } else if count < 0x4000 {
        2
    } else if count < 0x20_0000 {
        3
    } else if count < 0x1000_0000 {
        4
    } else if count < 0x8_0000_0000u64 {
        5
    } else if count < 0x400_0000_0000u64 {
        6
    } else if count < 0x2_0000_0000_0000u64 {
        7
    } else if count < 0x100_0000_0000_0000u64 {
        8
    } else {
        9
    }
}

/// Returns the number of bytes that a count takes when it is serialized, with
/// `Serializable::get_size_hint` for `usize`.
#[verifier::external_body]
fn count_size_hint(count: usize) -> (r: usize)
    ensures
        r == encoded_len(count),
{
    miden_core::serde::Serializable::get_size_hint(&count)
}

/// The witness is an opening of the vault at a vault key: its proof shows the leaf of the hash of
/// the key in the tree of the vault, with the inner nodes above it up to the root, and its only
/// entry is the key with the value that the proof gives to its hash.
pub open spec fn opens(vault: VaultState, key: RawWord, witness: WitnessState) -> bool {
    &&& leaf_at_bottom(witness.proof)
    &&& proof_leaf(witness.proof) == smt_key(key).3
    &&& proof_pairs(witness.proof) == leaf_pairs(vault.tree, smt_key(key).3)
    &&& proof_in(witness.proof, smt_inner(vault.tree))
    &&& proof_root(witness.proof) == smt_root(vault.tree)
    &&& witness.entries == opened_entries(witness.proof, key)
}

/// A leaf of a tree gives every key of the leaf the value that the tree gives to it.
pub proof fn lemma_leaf_value(pairs: Map<RawWord, RawWord>, h: RawWord)
    ensures
        value_at(leaf_pairs(pairs, h.3), h) == value_at(pairs, h),
{
    assert(leaf_keys(pairs, h.3).contains(h) == pairs.contains_key(h));
}

/// The tree has the value of a vault key under its hash, if no other entry has this hash.
pub proof fn lemma_value_of_key(vault: VaultState, key: RawWord)
    requires
        valid_vault(vault),
        hash_is_new(vault.entries, key),
    ensures
        value_at(vault.tree, smt_key(key)) == value_at(vault.entries, key),
        vault.tree.contains_key(smt_key(key)) == vault.entries.contains_key(key),
{
    if vault.tree.contains_key(smt_key(key)) {
        let k = choose|k: RawWord| #[trigger]
            vault.entries.contains_key(k) && smt_key(k) == smt_key(key);
        assert(k == key);
    }
}

/// If the tree has the value of the entry under the hash of a vault key, then no other entry has
/// this hash, and setting the entry concerns this key only.
proof fn lemma_set_own_entry(vault: VaultState, key: RawWord, value: RawWord)
    requires
        valid_vault(vault),
        value_at(vault.tree, smt_key(key)) == value_at(vault.entries, key),
    ensures
        hash_is_new(vault.entries, key),
        set_entry(vault.entries, key, value) == set_value(vault.entries, key, value),
{
    assert forall|k: RawWord| #[trigger]
        vault.entries.contains_key(k) && smt_key(k) == smt_key(key) implies k == key by {
        assert(value_at(vault.tree, smt_key(k)) == vault.entries[k]);
        assert(vault.entries.contains_key(key));
    }
    assert(set_entry(vault.entries, key, value) =~= set_value(vault.entries, key, value));
}

/// Setting the value of a vault key keeps a vault valid, whether it succeeds or not.
pub proof fn lemma_insert_keeps_valid(vault: VaultState, key: RawWord, value: RawWord)
    requires
        valid_vault(vault),
        value == empty_word() || valid_asset(key, value),
    ensures
        valid_vault(insert_step(vault, key, value).0),
{
    let after = insert_step(vault, key, value).0;
    let h = smt_key(key);
    if insert_step(vault, key, value).1 is Ok {
        lemma_set_value_valid(vault.tree, h, value);
        assert(after.entries.dom().subset_of(vault.entries.dom().insert(key)));
        vstd::set_lib::lemma_set_subset_finite(vault.entries.dom().insert(key), after.entries.dom());
        assert forall|k: RawWord| #[trigger] after.entries.contains_key(k) implies valid_asset(
            k,
            after.entries[k],
        ) && after.entries[k] != empty_word() && value_at(after.tree, smt_key(k))
            == after.entries[k] by {
            if k != key {
                assert(vault.entries.contains_key(k));
                assert(value_at(vault.tree, smt_key(k)) == vault.entries[k]);
            }
        }
        assert forall|q: RawWord| #[trigger] after.tree.contains_key(q) implies exists|k: RawWord|
            #[trigger] after.entries.contains_key(k) && smt_key(k) == q by {
            if q == h {
                assert(after.entries.contains_key(key));
            } else {
                assert(vault.tree.contains_key(q));
                let k = choose|k: RawWord| #[trigger]
                    vault.entries.contains_key(k) && smt_key(k) == q;
                assert(after.entries.contains_key(k));
            }
        }
        assert forall|a: RawWord, b: RawWord| #[trigger]
            after.entries.contains_key(a) && #[trigger] after.entries.contains_key(b) && smt_key(a)
                == smt_key(b) implies a == b by {
            if a != key {
                assert(vault.entries.contains_key(a));
            }
            if b != key {
                assert(vault.entries.contains_key(b));
            }
        }
    }
}

/// What is built from a list of assets whose hashes are distinct is in sync, and its vault keys are
/// those of assets in the list.
pub proof fn lemma_list_is_synced(assets: Seq<RawAsset>)
    requires
        distinct_keys(tree_list(assets)),
    ensures
        synced(vault_of(assets)),
        forall|k: RawWord| #[trigger]
            vault_of(assets).entries.contains_key(k) ==> exists|i: int|
                0 <= i < assets.len() && (#[trigger] assets[i]).0 == k,
    decreases assets.len(),
{
    let pairs = tree_list(assets);
    if assets.len() > 0 {
        let rest = assets.drop_last();
        let n = assets.len() - 1;
        let (key, value) = assets[n];
        let before = vault_of(rest);
        let after = vault_of(assets);
        assert(tree_list(rest) =~= pairs.drop_last());
        assert forall|i: int, j: int| 0 <= i < j < rest.len() implies tree_list(rest)[i].0
            != tree_list(rest)[j].0 by {
            assert(pairs[i].0 != pairs[j].0);
        }
        lemma_list_is_synced(rest);
        assert forall|k: RawWord| #[trigger] before.entries.contains_key(k) implies smt_key(k)
            != smt_key(key) by {
            let i = choose|i: int| 0 <= i < rest.len() && (#[trigger] rest[i]).0 == k;
            assert(pairs[i].0 != pairs[n].0);
        }
        assert(after.entries == set_value(before.entries, key, value));
        assert(after.tree == set_value(before.tree, smt_key(key), value));
        assert forall|k: RawWord| #[trigger] after.entries.contains_key(k) implies value_at(
            after.tree,
            smt_key(k),
        ) == after.entries[k] by {
            if k != key {
                assert(before.entries.contains_key(k));
            }
        }
        assert forall|q: RawWord| #[trigger] after.tree.contains_key(q) implies exists|k: RawWord|
            #[trigger] after.entries.contains_key(k) && smt_key(k) == q by {
            if q == smt_key(key) {
                assert(after.entries.contains_key(key));
            } else {
                assert(before.tree.contains_key(q));
                let k = choose|k: RawWord| #[trigger]
                    before.entries.contains_key(k) && smt_key(k) == q;
                assert(after.entries.contains_key(k));
            }
        }
        assert forall|a: RawWord, b: RawWord| #[trigger]
            after.entries.contains_key(a) && #[trigger] after.entries.contains_key(b) && smt_key(
                a,
            ) == smt_key(b) implies a == b by {
            if a != key {
                assert(before.entries.contains_key(a));
            }
            if b != key {
                assert(before.entries.contains_key(b));
            }
        }
        assert forall|k: RawWord| #[trigger] after.entries.contains_key(k) implies exists|i: int|
            0 <= i < assets.len() && (#[trigger] assets[i]).0 == k by {
            if k == key {
                assert(assets[n].0 == k);
            } else {
                assert(before.entries.contains_key(k));
                let i = choose|i: int| 0 <= i < rest.len() && (#[trigger] rest[i]).0 == k;
                assert(assets[i].0 == k);
            }
        }
    } else {
        assert(pairs =~= Seq::empty());
    }
}

/// A failure of a part of the changes is that of all of them.
proof fn lemma_fungible_failure_stays(vault: VaultState, changes: Seq<(RawWord, i64)>, n: int)
    requires
        0 <= n <= changes.len(),
    ensures
        fungible_changes(vault, changes.take(n)).1 is Err ==> fungible_changes(vault, changes)
            == fungible_changes(vault, changes.take(n)),
    decreases changes.len(),
{
    if n == changes.len() {
        assert(changes.take(n) =~= changes);
    } else {
        lemma_fungible_failure_stays(vault, changes.drop_last(), n);
        assert(changes.drop_last().take(n) =~= changes.take(n));
    }
}

/// A failure of a part of the changes is that of all of them.
proof fn lemma_non_fungible_failure_stays(
    vault: VaultState,
    changes: Seq<(RawWord, (RawAsset, NonFungibleDeltaAction))>,
    n: int,
)
    requires
        0 <= n <= changes.len(),
    ensures
        non_fungible_changes(vault, changes.take(n)).1 is Err ==> non_fungible_changes(
            vault,
            changes,
        ) == non_fungible_changes(vault, changes.take(n)),
    decreases changes.len(),
{
    if n == changes.len() {
        assert(changes.take(n) =~= changes);
    } else {
        lemma_non_fungible_failure_stays(vault, changes.drop_last(), n);
        assert(changes.drop_last().take(n) =~= changes.take(n));
    }
}

// ERRORS
// ================================================================================================

/// The ways in which an operation on a vault can fail.
#[derive(Debug)]
pub enum AssetVaultError {
    /// The sum of two amounts is too large.
    AddFungibleAssetBalanceError(AssetError),
    /// Two assets of a list share a key, or too many share a leaf.
    DuplicateAsset(MerkleError),
    /// The non-fungible asset was already in the vault.
    DuplicateNonFungibleAsset(NonFungibleAsset),
    /// The fungible asset is not in the vault.
    FungibleAssetNotFound(FungibleAsset),
    /// The leaf of the asset is full.
    MaxLeafEntriesExceeded(MerkleError),
    /// The account is not a fungible faucet.
    NotAFungibleFaucetId(AccountId),
    /// The non-fungible asset is not in the vault.
    NonFungibleAssetNotFound(NonFungibleAsset),
    /// The amount in the vault is smaller than the amount to be removed.
    SubtractFungibleAssetBalanceError(AssetError),
}

/// The value of an [`AssetVaultError`].
pub enum VaultFault {
    AddFungibleAssetBalanceError(AssetFault),
    DuplicateAsset(MerkleFault),
    DuplicateNonFungibleAsset(RawAsset),
    FungibleAssetNotFound(RawAsset),
    MaxLeafEntriesExceeded(MerkleFault),
    NotAFungibleFaucetId(RawAccountId),
    NonFungibleAssetNotFound(RawAsset),
    SubtractFungibleAssetBalanceError(AssetFault),
}

impl View for AssetVaultError {
    type V = VaultFault;

    open spec fn view(&self) -> VaultFault {
        match *self {
            AssetVaultError::AddFungibleAssetBalanceError(err) =>
                VaultFault::AddFungibleAssetBalanceError(err@),
            AssetVaultError::DuplicateAsset(err) => VaultFault::DuplicateAsset(err@),
            AssetVaultError::DuplicateNonFungibleAsset(asset) =>
                VaultFault::DuplicateNonFungibleAsset(asset@),
            AssetVaultError::FungibleAssetNotFound(asset) => VaultFault::FungibleAssetNotFound(
                asset@,
            ),
            AssetVaultError::MaxLeafEntriesExceeded(err) => VaultFault::MaxLeafEntriesExceeded(
                err@,
            ),
            AssetVaultError::NotAFungibleFaucetId(id) => VaultFault::NotAFungibleFaucetId(id@),
            AssetVaultError::NonFungibleAssetNotFound(asset) =>
                VaultFault::NonFungibleAssetNotFound(asset@),
            AssetVaultError::SubtractFungibleAssetBalanceError(err) =>
                VaultFault::SubtractFungibleAssetBalanceError(err@),
        }
    }
}

/// What a call returned, over the values of its result.
pub open spec fn outcome<A: View, E: View>(r: Result<A, E>) -> Result<A::V, E::V> {
    match r {
        Ok(value) => Ok(value@),
        Err(err) => Err(err@),
    }
}

// ASSET VAULT
// ================================================================================================

/// A container for an unlimited number of assets.
///
/// The assets are stored in a sparse Merkle tree, keyed by the hashes of their vault keys. Hashing
/// spreads the assets over the leaves: the vault keys of the assets of one faucet share the
/// elements that would otherwise select the leaf. The vault keys themselves are kept beside the
/// tree, in sync with it.
///
/// A vault can be reduced to a single digest, which is the root of the tree.
#[derive(Debug, PartialEq, Eq)]
pub struct AssetVault {
    asset_tree: Smt,
    entries: KeyMap<Word>,
}

impl View for AssetVault {
    type V = VaultState;

    closed spec fn view(&self) -> VaultState {
        VaultState { entries: self.entries@, tree: smt_pairs(self.asset_tree) }
    }
}

impl AssetVault {
    /// The depth of the tree that represents the vault.
    pub const DEPTH: u8 = SMT_DEPTH;

    /// The vault is as [`valid_vault`] says, and its tree was built by inserting pairs.
    #[verifier::type_invariant]
    pub closed spec fn well_formed(self) -> bool {
        valid_vault(self@) && smt_built(self.asset_tree)
    }

    // CONSTRUCTOR
    // --------------------------------------------------------------------------------------------

    /// Creates a vault with the given assets.
    ///
    /// # Errors
    ///
    /// Returns an error if the hashes of two vault keys are equal, or if too many assets belong to
    /// one leaf.
    pub fn new(assets: &[Asset]) -> (r: Result<AssetVault, AssetVaultError>)
        ensures
            match r {
                Ok(vault) => buildable(asset_values(assets@)) && vault@ == vault_of(
                    asset_values(assets@),
                ),
                Err(err) => {
                    &&& !buildable(asset_values(assets@))
                    &&& err@ matches VaultFault::DuplicateAsset(fault) && with_entries_fault(
                        tree_list(asset_values(assets@)),
                        fault,
                    )
                },
            },
    {
        let ghost values = asset_values(assets@);
        let mut pairs: Vec<(Word, Word)> = Vec::new();
        let mut entries: KeyMap<Word> = KeyMap::new();
        let mut i: usize = 0;
        assert(values.take(0) =~= Seq::empty());
        while i < assets.len()
            invariant
                i <= assets.len(),
                values == asset_values(assets@),
                pairs@.len() == i,
                forall|j: int|
                    0 <= j < i ==> (#[trigger] pairs@[j]).0@ == smt_key(values[j].0)
                        && pairs@[j].1@ == values[j].1,
                entries@ == listed_pairs(values.take(i as int)),
                valid_entries(entries@),
            decreases assets.len() - i,
        {
            let asset = assets[i];
            let key = asset.vault_key();
            let value = asset.to_value_word();
            pairs.push((key.to_smt_key(), value));
            assert(values.take(i + 1).drop_last() =~= values.take(i as int));
            if value.is_empty() {
                entries.remove(&key);
            } else {
                entries.insert(key, value);
            }
            i += 1;
        }
        assert(values.take(i as int) =~= values);
        assert(pair_values(pairs@) =~= tree_list(values));
        match smt_with_entries(&pairs) {
            Ok(asset_tree) => {
                proof {
                    lemma_list_is_synced(values);
                }
                Ok(AssetVault { asset_tree, entries })
            },
            Err(err) => Err(AssetVaultError::DuplicateAsset(import_merkle_error(&err))),
        }
    }

    // PUBLIC ACCESSORS
    // --------------------------------------------------------------------------------------------

    /// Returns the root of the tree of this vault.
    pub fn root(&self) -> (r: Word)
        ensures
            r@ == smt_root(self@.tree),
    {
        proof {
            use_type_invariant(self);
        }
        import_word(&self.asset_tree.root())
    }

    /// Returns the value of a vault key, which is the empty word if there is no entry for it.
    fn value(&self, vault_key: &AssetVaultKey) -> (r: Word)
        ensures
            r@ == value_at(self@.entries, vault_key@),
    {
        match self.entries.get(vault_key) {
            Some(value) => value,
            None => Word::empty(),
        }
    }

    /// Returns the asset with the given vault key, or nothing if it is not in the vault.
    pub fn get(&self, asset_vault_key: AssetVaultKey) -> (r: Option<Asset>)
        ensures
            match r {
                Some(asset) => {
                    &&& value_at(self@.entries, asset_vault_key@) != empty_word()
                    &&& asset@ == (asset_vault_key@, self@.entries[asset_vault_key@])
                },
                None => value_at(self@.entries, asset_vault_key@) == empty_word(),
            },
    {
        proof {
            use_type_invariant(self);
        }
        let asset_value = self.value(&asset_vault_key);
        if asset_value.is_empty() {
            None
        } else {
            Some(
                Asset::from_key_value(asset_vault_key, asset_value).expect(
                    "asset vault should only store valid assets",
                ),
            )
        }
    }

    /// Returns true if the given non-fungible asset is in this vault. Another asset under the same
    /// vault key does not count.
    pub fn has_non_fungible_asset(&self, asset: NonFungibleAsset) -> (r: Result<
        bool,
        AssetVaultError,
    >)
        ensures
            r == Ok::<bool, AssetVaultError>(
                self@.entries.contains_key(asset@.0) && value_at(self@.entries, asset@.0)
                    == asset@.1,
            ),
    {
        match self.entries.get(&asset.vault_key()) {
            Some(value) => Ok(value == asset.to_value_word()),
            None => Ok(false),
        }
    }

    /// Returns the amount of the asset of a faucet in this vault, which is zero if there is none.
    /// Assets with callbacks enabled have a vault key of their own and do not count.
    ///
    /// # Errors
    ///
    /// Returns an error if the account is not a fungible faucet.
    pub fn get_balance(&self, faucet_id: AccountId) -> (r: Result<u64, AssetVaultError>)
        ensures
            match r {
                Ok(amount) => {
                    &&& prefix_type(faucet_id@.0) == AccountType::FungibleFaucet
                    &&& value_at(self@.entries, make_key((0, 0), faucet_id@, 0)) == amount_word(
                        amount,
                    )
                },
                Err(err) => {
                    &&& prefix_type(faucet_id@.0) != AccountType::FungibleFaucet
                    &&& err@ == VaultFault::NotAFungibleFaucetId(faucet_id@)
                },
            },
    {
        proof {
            use_type_invariant(self);
        }
        if faucet_id.account_type() != AccountType::FungibleFaucet {
            return Err(AssetVaultError::NotAFungibleFaucetId(faucet_id));
        }
        let vault_key = AssetVaultKey::new_fungible(faucet_id).expect(
            "faucet ID should be of type fungible",
        );
        let asset = self.fungible_entry(vault_key);
        Ok(asset.amount())
    }

    /// Returns the fungible asset of a vault key, whose amount is zero if there is no entry for it.
    fn fungible_entry(&self, vault_key: AssetVaultKey) -> (r: FungibleAsset)
        requires
            is_fungible_key(vault_key@),
        ensures
            r@ == (vault_key@, value_at(self@.entries, vault_key@)),
            r@.1 == amount_word(r@.1.0),
    {
        proof {
            use_type_invariant(self);
        }
        let word = vault_key.to_word();
        let value = self.value(&vault_key);
        FungibleAsset::from_key_value(vault_key, value).expect(
            "asset vault should only store valid assets",
        )
    }

    /// Returns the assets of this vault by increasing vault key.
    pub fn assets(&self) -> (r: Vec<Asset>)
        ensures
            asset_values(r@) == listing(self@.entries),
            is_listing(asset_values(r@), self@.entries),
    {
        proof {
            use_type_invariant(self);
        }
        let list = self.entries.to_list();
        let ghost values = entry_values(list@);
        let mut assets: Vec<Asset> = Vec::new();
        let mut i: usize = 0;
        while i < list.len()
            invariant
                i <= list.len(),
                values == entry_values(list@),
                is_listing(values, self@.entries),
                valid_entries(self@.entries),
                asset_values(assets@) == values.take(i as int),
            decreases list.len() - i,
        {
            let key = list[i].0;
            let value = list[i].1;
            assert(values[i as int] == (key@, value@));
            assert(self@.entries.contains_key(values[i as int].0));
            let asset = Asset::from_key_value(key, value).expect(
                "asset vault should only store valid assets",
            );
            let ghost before = assets@;
            assets.push(asset);
            assert(asset_values(assets@) =~= asset_values(before).push(asset@));
            assert(values.take(i + 1) =~= values.take(i as int).push(values[i as int]));
            i += 1;
        }
        assert(values.take(i as int) =~= values);
        assets
    }

    /// Returns the inner nodes of the tree with their digests, in no particular order. The inner
    /// nodes of empty subtrees are left out.
    pub fn inner_nodes(&self) -> (r: Vec<InnerNodeInfo>)
        ensures
            lists_nodes(node_values(r@), smt_inner(self@.tree)),
    {
        proof {
            use_type_invariant(self);
        }
        smt_inner_nodes(&self.asset_tree)
    }

    /// Returns a witness of the given vault key: a proof of the leaf of its hash, with the value of
    /// the key, which is the empty word if the asset is not in the vault.
    ///
    /// The value is the one that the proof shows. If the hash of the key is that of another vault
    /// key in the vault, the proof shows the value of that key, and the witness has no entry if
    /// this value forms no asset with the given key.
    pub fn open(&self, vault_key: AssetVaultKey) -> (r: AssetWitness)
        ensures
            opens(self@, vault_key@, r@),
            hash_is_new(self@.entries, vault_key@) ==> r@.entries == no_pairs().insert(
                vault_key@,
                value_at(self@.entries, vault_key@),
            ),
    {
        proof {
            use_type_invariant(self);
        }
        let smt_proof = self.asset_tree.open(&export_word(&vault_key.to_smt_key()));
        proof {
            lemma_path_in(
                proof_leaf(smt_proof),
                leaf_digest(proof_entries(smt_proof)),
                proof_siblings(smt_proof),
                smt_inner(self@.tree),
            );
            lemma_leaf_value(self@.tree, smt_key(vault_key@));
            if hash_is_new(self@.entries, vault_key@) {
                lemma_value_of_key(self@, vault_key@);
            }
        }
        AssetWitness::opening(smt_proof, vault_key)
    }

    /// Returns true if the tree of this vault has no pairs, so that its root is that of a tree
    /// without pairs.
    pub fn is_empty(&self) -> (r: bool)
        ensures
            r == (self@.tree == no_pairs()),
            r == (smt_root(self@.tree) == empty_root()),
    {
        proof {
            use_type_invariant(self);
        }
        self.asset_tree.is_empty()
    }

    /// Returns the number of leaves that hold at least one asset.
    ///
    /// A leaf may hold more than one asset, so this may differ from [`AssetVault::num_assets`].
    pub fn num_leaves(&self) -> (r: usize)
        ensures
            r == leaf_indices(self@.tree).len(),
    {
        proof {
            use_type_invariant(self);
        }
        self.asset_tree.num_leaves()
    }

    /// Returns the number of assets in this vault.
    pub fn num_assets(&self) -> (r: usize)
        ensures
            r == self@.tree.dom().len(),
            r == listing(self@.entries).len(),
    {
        proof {
            use_type_invariant(self);
            law_tree_counts_assets(self@);
        }
        self.asset_tree.num_entries()
    }

    /// Returns the number of bytes that this vault takes when it is serialized: those of its
    /// assets, and those of their number.
    pub fn get_size_hint(&self) -> (r: usize)
        requires
            self@.entries.dom().len() * NON_FUNGIBLE_ASSET_SIZE + 9 <= usize::MAX,
        ensures
            r == total_size(listing(self@.entries)) + encoded_len(
                listing(self@.entries).len() as usize,
            ),
    {
        let assets = self.assets();
        let ghost values = asset_values(assets@);
        proof {
            lemma_listing_len(values, self@.entries);
        }
        let mut size: usize = 0;
        let mut count: usize = 0;
        assert(values.take(0) =~= Seq::empty());
        while count < assets.len()
            invariant
                count <= assets.len(),
                values == asset_values(assets@),
                assets@.len() * NON_FUNGIBLE_ASSET_SIZE + 9 <= usize::MAX,
                size == total_size(values.take(count as int)),
                size <= count * NON_FUNGIBLE_ASSET_SIZE,
            decreases assets.len() - count,
        {
            assert(values.take(count + 1).drop_last() =~= values.take(count as int));
            size += assets[count].get_size_hint();
            count += 1;
        }
        assert(values.take(count as int) =~= values);
        size += count_size_hint(count);
        size
    }

    /// Returns the tree and the entries of this vault.
    pub(crate) fn into_parts(self) -> (r: (Smt, KeyMap<Word>))
        ensures
            smt_pairs(r.0) == self@.tree,
            smt_built(r.0),
            r.1@ == self@.entries,
            valid_vault(self@),
    {
        proof {
            use_type_invariant(&self);
        }
        (self.asset_tree, self.entries)
    }

    /// Returns the entries whose vault keys have another hash.
    fn entries_without_hash(entries: &KeyMap<Word>, hash: Word) -> (r: KeyMap<Word>)
        ensures
            r@ == without_hash(entries@, hash@),
    {
        let list = entries.to_list();
        let ghost values = entry_values(list@);
        let mut rest: KeyMap<Word> = KeyMap::new();
        let mut i: usize = 0;
        assert(rest@ =~= without_hash(insert_all(no_pairs(), values.take(0)), hash@));
        while i < list.len()
            invariant
                i <= list.len(),
                values == entry_values(list@),
                is_listing(values, entries@),
                rest@ == without_hash(insert_all(no_pairs(), values.take(i as int)), hash@),
            decreases list.len() - i,
        {
            let key = list[i].0;
            let value = list[i].1;
            assert(values[i as int] == (key@, value@));
            assert(values.take(i + 1).drop_last() =~= values.take(i as int));
            let ghost before = rest@;
            if key.to_smt_key() != hash {
                rest.insert(key, value);
            }
            assert(rest@ =~= without_hash(insert_all(no_pairs(), values.take(i + 1)), hash@));
            i += 1;
        }
        assert(values.take(i as int) =~= values);
        proof {
            lemma_insert_listing(no_pairs(), values, entries@);
            assert(no_pairs().union_prefer_right(entries@) =~= entries@);
        }
        rest
    }

    // PUBLIC MODIFIERS
    // --------------------------------------------------------------------------------------------

    /// Applies a delta to this vault: first the changes of fungible assets, then those of
    /// non-fungible assets, each by increasing vault key. The first failure stops it; the changes
    /// before it stay.
    ///
    /// # Errors
    ///
    /// Returns an error if
    /// - the sum of two amounts is too large;
    /// - a fungible asset is to be removed that is not in the vault, or not in that amount;
    /// - a non-fungible asset is to be removed that is not in the vault;
    /// - a non-fungible asset is to be added that already is in the vault;
    /// - a leaf is full.
    pub fn apply_delta(&mut self, delta: &AccountVaultDelta) -> (r: Result<(), AssetVaultError>)
        ensures
            (final(self)@, outcome(r)) == delta_step(old(self)@, delta@),
    {
        let fungible = delta.fungible();
        let ghost changes = entry_values(fungible@);
        let mut i: usize = 0;
        assert(changes.take(0) =~= Seq::empty());
        while i < fungible.len()
            invariant
                i <= fungible.len(),
                changes == entry_values(fungible@),
                changes == listing(delta@.fungible),
                is_listing(changes, delta@.fungible),
                valid_delta(delta@),
                fungible_changes(old(self)@, changes.take(i as int)) == (
                    self@,
                    Ok::<(), VaultFault>(()),
                ),
            decreases fungible.len() - i,
        {
            let vault_key = fungible[i].0;
            let amount: i64 = fungible[i].1;
            assert(changes[i as int] == (vault_key@, amount));
            assert(delta@.fungible.contains_key(changes[i as int].0));
            assert(changes.take(i + 1).drop_last() =~= changes.take(i as int));
            let result = self.apply_fungible_change(vault_key, amount);
            match result {
                Ok(_) => {},
                Err(err) => {
                    proof {
                        lemma_fungible_failure_stays(old(self)@, changes, i + 1);
                    }
                    return Err(err);
                },
            }
            i += 1;
        }
        assert(changes.take(i as int) =~= changes);
        let ghost middle = self@;
        let non_fungible = delta.non_fungible();
        let ghost assets = entry_values(non_fungible@);
        let mut j: usize = 0;
        assert(assets.take(0) =~= Seq::empty());
        while j < non_fungible.len()
            invariant
                j <= non_fungible.len(),
                assets == entry_values(non_fungible@),
                assets == listing(delta@.non_fungible),
                fungible_changes(old(self)@, listing(delta@.fungible)) == (
                    middle,
                    Ok::<(), VaultFault>(()),
                ),
                non_fungible_changes(middle, assets.take(j as int)) == (
                    self@,
                    Ok::<(), VaultFault>(()),
                ),
            decreases non_fungible.len() - j,
        {
            let asset = non_fungible[j].1.0;
            let action = non_fungible[j].1.1;
            assert(assets[j as int].1 == (asset@, action));
            assert(assets.take(j + 1).drop_last() =~= assets.take(j as int));
            let result = match action {
                NonFungibleDeltaAction::Add => match self.add_non_fungible_asset(asset) {
                    Ok(_) => Ok(()),
                    Err(err) => Err(err),
                },
                NonFungibleDeltaAction::Remove => self.remove_non_fungible_asset(asset),
            };
            match result {
                Ok(_) => {},
                Err(err) => {
                    proof {
                        lemma_non_fungible_failure_stays(middle, assets, j + 1);
                    }
                    return Err(err);
                },
            }
            j += 1;
        }
        assert(assets.take(j as int) =~= assets);
        Ok(())
    }

    /// Applies the change of the amount of one fungible asset.
    fn apply_fungible_change(&mut self, vault_key: AssetVaultKey, amount: i64) -> (r: Result<
        (),
        AssetVaultError,
    >)
        requires
            is_fungible_key(vault_key@),
            valid_change(amount),
        ensures
            (final(self)@, outcome(r)) == fungible_change_step(old(self)@, (vault_key@, amount)),
    {
        let word = vault_key.to_word();
        let magnitude: u64 = if amount >= 0 {
            amount as u64
        } else {
            (-amount) as u64
        };
        let asset = FungibleAsset::new(vault_key.faucet_id(), magnitude).expect(
            "fungible asset delta should be valid",
        ).with_callbacks(vault_key.callback_flag());
        assert(asset@ == (vault_key@, amount_word(magnitude)));
        let result = if amount >= 0 {
            self.add_fungible_asset(asset)
        } else {
            self.remove_fungible_asset(asset)
        };
        match result {
            Ok(_) => Ok(()),
            Err(err) => Err(err),
        }
    }

    // ADD ASSET
    // --------------------------------------------------------------------------------------------

    /// Adds an asset to this vault and returns what the vault then holds of it.
    ///
    /// # Errors
    ///
    /// Returns an error if the sum of two amounts is too large, if the vault already holds the
    /// non-fungible asset, or if a leaf is full.
    pub fn add_asset(&mut self, asset: Asset) -> (r: Result<Asset, AssetVaultError>)
        ensures
            (final(self)@, outcome(r)) == add_step(old(self)@, asset@),
            r matches Ok(total) ==> (total is Fungible) == (asset is Fungible),
    {
        let key = asset.vault_key();
        match asset {
            Asset::Fungible(asset) => match self.add_fungible_asset(asset) {
                Ok(total) => Ok(Asset::Fungible(total)),
                Err(err) => Err(err),
            },
            Asset::NonFungible(asset) => match self.add_non_fungible_asset(asset) {
                Ok(asset) => Ok(Asset::NonFungible(asset)),
                Err(err) => Err(err),
            },
        }
    }

    /// Adds a fungible asset to this vault. If the vault already holds an asset with the same vault
    /// key, the amounts are added together.
    fn add_fungible_asset(&mut self, other_asset: FungibleAsset) -> (r: Result<
        FungibleAsset,
        AssetVaultError,
    >)
        ensures
            (final(self)@, outcome(r)) == add_fungible_step(old(self)@, other_asset@),
    {
        let vault_key = other_asset.vault_key();
        let current_asset = self.fungible_entry(vault_key);
        let new_asset = match current_asset.add(other_asset) {
            Ok(asset) => asset,
            Err(err) => {
                return Err(AssetVaultError::AddFungibleAssetBalanceError(err));
            },
        };
        let key = new_asset.vault_key();
        match self.insert_entry(key, new_asset.to_value_word()) {
            Ok(_) => Ok(new_asset),
            Err(err) => Err(err),
        }
    }

    /// Adds a non-fungible asset to this vault.
    fn add_non_fungible_asset(&mut self, asset: NonFungibleAsset) -> (r: Result<
        NonFungibleAsset,
        AssetVaultError,
    >)
        ensures
            (final(self)@, outcome(r)) == add_non_fungible_step(old(self)@, asset@),
    {
        let former = match self.insert_entry(asset.vault_key(), asset.to_value_word()) {
            Ok(former) => former,
            Err(err) => {
                return Err(err);
            },
        };
        if !former.is_empty() {
            return Err(AssetVaultError::DuplicateNonFungibleAsset(asset));
        }
        Ok(asset)
    }

    // REMOVE ASSET
    // --------------------------------------------------------------------------------------------

    /// Removes an asset from this vault and returns what remains of it: for a fungible asset the
    /// remaining amount, which may be zero, and nothing for a non-fungible asset.
    ///
    /// # Errors
    ///
    /// Returns an error if the asset is not in the vault, or if the vault holds less of it than is
    /// to be removed.
    pub fn remove_asset(&mut self, asset: Asset) -> (r: Result<Option<Asset>, AssetVaultError>)
        ensures
            final(self)@ == remove_step(old(self)@, asset@).0,
            match r {
                Ok(Some(rest)) => remove_step(old(self)@, asset@).1 == Ok::<_, VaultFault>(
                    Some(rest@),
                ) && rest is Fungible,
                Ok(None) => remove_step(old(self)@, asset@).1 == Ok::<
                    Option<RawAsset>,
                    VaultFault,
                >(None),
                Err(err) => remove_step(old(self)@, asset@).1 == Err::<Option<RawAsset>, _>(err@),
            },
    {
        let key = asset.vault_key();
        match asset {
            Asset::Fungible(asset) => match self.remove_fungible_asset(asset) {
                Ok(rest) => Ok(Some(Asset::Fungible(rest))),
                Err(err) => Err(err),
            },
            Asset::NonFungible(asset) => match self.remove_non_fungible_asset(asset) {
                Ok(_) => Ok(None),
                Err(err) => Err(err),
            },
        }
    }

    /// Removes a fungible asset from this vault and returns what remains of it. If nothing remains,
    /// the entry goes.
    fn remove_fungible_asset(&mut self, other_asset: FungibleAsset) -> (r: Result<
        FungibleAsset,
        AssetVaultError,
    >)
        ensures
            (final(self)@, outcome(r)) == remove_fungible_step(old(self)@, other_asset@),
    {
        let vault_key = other_asset.vault_key();
        let current_asset = self.fungible_entry(vault_key);
        if current_asset.amount() == 0 {
            return Err(AssetVaultError::FungibleAssetNotFound(other_asset));
        }
        let new_asset = match current_asset.sub(other_asset) {
            Ok(asset) => asset,
            Err(err) => {
                return Err(AssetVaultError::SubtractFungibleAssetBalanceError(err));
            },
        };
        let key = new_asset.vault_key();
        match self.insert_entry(key, new_asset.to_value_word()) {
            Ok(_) => Ok(new_asset),
            Err(err) => Err(err),
        }
    }

    /// Removes a non-fungible asset from this vault.
    fn remove_non_fungible_asset(&mut self, asset: NonFungibleAsset) -> (r: Result<
        (),
        AssetVaultError,
    >)
        ensures
            (final(self)@, outcome(r)) == remove_non_fungible_step(old(self)@, asset@),
    {
        let former = match self.insert_entry(asset.vault_key(), Word::empty()) {
            Ok(former) => former,
            Err(err) => {
                return Err(err);
            },
        };
        if former.is_empty() {
            return Err(AssetVaultError::NonFungibleAssetNotFound(asset));
        }
        Ok(())
    }

    /// Sets the value of a vault key, in the tree and in the entries, and returns the former value
    /// in the tree. If the leaf is full, nothing changes.
    fn insert_entry(&mut self, vault_key: AssetVaultKey, value: Word) -> (r: Result<
        Word,
        AssetVaultError,
    >)
        requires
            value@ == empty_word() || valid_asset(vault_key@, value@),
        ensures
            (final(self)@, outcome(r)) == insert_step(old(self)@, vault_key@, value@),
    {
        proof {
            use_type_invariant(&*self);
            lemma_insert_keeps_valid(self@, vault_key@, value@);
        }
        let mut vault = AssetVault::default();
        std::mem::swap(&mut vault, self);
        let (mut tree, mut entries) = vault.into_parts();
        match tree.insert(export_word(&vault_key.to_smt_key()), export_word(&value)) {
            Ok(former) => {
                let former = import_word(&former);
                let own = match entries.get(&vault_key) {
                    Some(value) => value,
                    None => Word::empty(),
                };
                if former != own {
                    entries = AssetVault::entries_without_hash(&entries, vault_key.to_smt_key());
                } else {
                    proof {
                        lemma_set_own_entry(old(self)@, vault_key@, value@);
                    }
                }
                if value.is_empty() {
                    entries.remove(&vault_key);
                } else {
                    entries.insert(vault_key, value);
                }
                *self = AssetVault { asset_tree: tree, entries };
                Ok(former)
            },
            Err(err) => {
                *self = AssetVault { asset_tree: tree, entries };
                Err(AssetVaultError::MaxLeafEntriesExceeded(import_merkle_error(&err)))
            },
        }
    }
}

impl Default for AssetVault {
    /// Creates a vault without assets.
    fn default() -> (r: AssetVault)
        ensures
            r@ == vault_of(Seq::empty()),
            r@.entries == no_pairs() && r@.tree == no_pairs(),
            smt_root(r@.tree) == empty_root(),
    {
        proof {
            lemma_no_pairs_valid();
        }
        let r = AssetVault { asset_tree: Smt::new(), entries: KeyMap::new() };
        assert(tree_list(Seq::empty()) =~= Seq::empty());
        r
    }
}

impl Clone for AssetVault {
    fn clone(&self) -> (r: AssetVault)
        ensures
            r@ == self@,
    {
        proof {
            use_type_invariant(self);
        }
        AssetVault { asset_tree: self.asset_tree.clone(), entries: self.entries.clone() }
    }
}

} // verus!
