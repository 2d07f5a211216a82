//! What holds of partial vaults as a whole: the laws that relate them to vaults and witnesses.
use vstd::prelude::*;

use miden_crypto::merkle::smt::{PartialSmt, SmtProof};

use crate::asset::valid_asset;
use crate::key_map::{insert_all, is_listing, lemma_insert_listing, lemma_listing_exists, listing};
use crate::merkle::{
    entries_map, entries_value, first_root, leaf_digest, leaf_pairs, leaf_placed, lemma_added_proof,
    lemma_path_tracked, lemma_proof_leaves, lemma_shown_leaf, lemma_store_leaf, lemma_stored_value,
    no_pairs, partial_inner, partial_leaves, partial_path_root, partial_root, proof_entries,
    proof_in, proof_inner, proof_leaf, proof_leaves, proof_pairs, proof_root, proof_siblings,
    proof_value, same_roots, smt_inner, smt_root, store_leaf, store_nodes, stored_entries,
    tracks_leaf, value_at, RawLeaf,
};
use crate::partial_vault::{
    adds_witness, entries_tracked, holds_all, holds_witnesses, lemma_leaf_of_tree, partial_opens,
    rooted_at, track_fault, tracked_value, witness_entries_all, witness_proofs, PartialVaultState,
    TrackFault,
};
use crate::paths::{
    above, agrees_above, digests_apart, empty_children, empty_root, fits_above, includes_nodes,
    includes_path, leaf_fits, lemma_path_in, lemma_path_in_part, lemma_paths_meet, lemma_root_place,
    lemma_shown_empty_path, lemma_store_agrees, lemma_store_keeps_fit, lemma_store_keeps_path,
    lemma_stored_leaf_path, lemma_stored_path, node_at, nodes_fit, path_fits, path_node, place_at,
    shown_empty, siblings_at, NodePlace, RawChildren, SMT_DEPTH,
};
use crate::vault::{lemma_leaf_value, opens, valid_vault, VaultState};
use crate::vault_key::smt_key;
use crate::vault_laws::keys_of;
use crate::witness::{assets_or_empty, entries_proved, opened_entries, AssetWitness, WitnessState};
use crate::word::{empty_word, RawWord};

verus! {

// COVERED LEAVES
// ================================================================================================

/// A partial tree has the root of the vault.
pub open spec fn same_root(partial: PartialVaultState, vault: VaultState) -> bool {
    partial_root(partial.tree) == smt_root(vault.tree)
}

/// Stored leaves and inner nodes cover the leaf at position `index` of a tree: they have its pairs,
/// and all inner nodes above it.
pub open spec fn part_covers(
    leaves: Map<u64, RawLeaf>,
    inner: Map<NodePlace, RawChildren>,
    pairs: Map<RawWord, RawWord>,
    index: u64,
) -> bool {
    &&& leaf_placed(leaves, index)
    &&& entries_map(stored_entries(leaves, index)) == leaf_pairs(pairs, index)
    &&& path_fits(smt_inner(pairs), index, leaf_digest(stored_entries(leaves, index)))
    &&& agrees_above(inner, smt_inner(pairs), index)
}

/// A partial vault covers a vault key of a vault: it has the root of the vault, the leaf of the
/// hash of the key, and all inner nodes above it.
pub open spec fn covers(partial: PartialVaultState, vault: VaultState, key: RawWord) -> bool {
    same_root(partial, vault) && part_covers(
        partial_leaves(partial.tree),
        partial_inner(partial.tree),
        vault.tree,
        smt_key(key).3,
    )
}

/// The path of a covered leaf leads to the root, and the leaf is tracked.
proof fn lemma_covered_path(partial: PartialVaultState, vault: VaultState, key: RawWord)
    requires
        covers(partial, vault, key),
    ensures
        tracks_leaf(partial.tree, smt_key(key).3),
        partial_path_root(partial.tree, smt_key(key).3) == smt_root(vault.tree),
{
    let index = smt_key(key).3;
    let digest = leaf_digest(stored_entries(partial_leaves(partial.tree), index));
    let full = smt_inner(vault.tree);
    let siblings = siblings_at(full, index);
    lemma_path_in_part(index, digest, siblings, partial_inner(partial.tree), full);
    lemma_path_in(index, digest, siblings, full);
    lemma_path_tracked(partial.tree, index, siblings);
}

/// A covered vault key is tracked, with the value that the tree of the vault has for its hash. So
/// the partial vault can be opened at it.
pub proof fn law_covered_key_is_tracked(partial: PartialVaultState, vault: VaultState, key: RawWord)
    requires
        covers(partial, vault, key),
    ensures
        tracked_value(partial.tree, key) == Some(value_at(vault.tree, smt_key(key))),
{
    let h = smt_key(key);
    lemma_covered_path(partial, vault, key);
    lemma_leaf_value(vault.tree, h);
    let entries = stored_entries(partial_leaves(partial.tree), h.3);
    assert(value_at(entries_map(entries), h) == entries_value(entries, h));
}

/// Opening a partial vault at a covered vault key gives the same entry, the same leaf, the same
/// pairs and the same root as opening the vault.
pub proof fn law_covered_key_opens_like_vault(
    partial: PartialVaultState,
    vault: VaultState,
    key: RawWord,
    from_partial: WitnessState,
    from_vault: WitnessState,
)
    requires
        covers(partial, vault, key),
        partial_opens(partial, key, from_partial),
        opens(vault, key, from_vault),
    ensures
        from_partial.entries == from_vault.entries,
        proof_leaf(from_partial.proof) == proof_leaf(from_vault.proof),
        proof_pairs(from_partial.proof) == proof_pairs(from_vault.proof),
        proof_root(from_partial.proof) == proof_root(from_vault.proof),
        proof_root(from_partial.proof) == partial_root(partial.tree),
{
    lemma_covered_path(partial, vault, key);
    lemma_shown_leaf(partial.tree, smt_key(key).3, from_partial.proof, smt_key(key));
    assert(proof_value(from_partial.proof, smt_key(key)) == proof_value(
        from_vault.proof,
        smt_key(key),
    ));
}

/// Storing a proof from a tree covers its leaf, and keeps all other leaves covered that were.
proof fn lemma_store_covers(
    leaves: Map<u64, RawLeaf>,
    inner: Map<NodePlace, RawChildren>,
    pairs: Map<RawWord, RawWord>,
    proof: SmtProof,
    index: u64,
)
    requires
        proof_in(proof, smt_inner(pairs)),
        proof_pairs(proof) == leaf_pairs(pairs, proof_leaf(proof)),
        index == proof_leaf(proof) || part_covers(leaves, inner, pairs, index),
    ensures
        part_covers(store_leaf(leaves, proof), store_nodes(inner, proof), pairs, index),
{
    let leaf = proof_leaf(proof);
    let digest = leaf_digest(proof_entries(proof));
    let siblings = proof_siblings(proof);
    let full = smt_inner(pairs);
    let after = store_nodes(inner, proof);
    lemma_store_leaf(leaves, proof, (0, 0, 0, index));
    if index == leaf {
        lemma_path_in(leaf, digest, siblings, full);
        lemma_stored_path(inner, leaf, digest, siblings);
        assert forall|h: nat| 0 < h <= SMT_DEPTH implies node_at(
            after,
            #[trigger] place_at(leaf, h),
        ) == node_at(full, place_at(leaf, h)) by {
            assert(path_node(leaf, digest, siblings, h) == node_at(after, place_at(leaf, h)));
            assert(path_node(leaf, digest, siblings, h) == node_at(full, place_at(leaf, h)));
        }
    } else {
        lemma_store_keeps_path(inner, leaf, digest, siblings, full, index);
    }
}

// WHOLE VAULTS
// ================================================================================================

/// A partial vault that was made from a whole vault covers every vault key.
pub proof fn law_full_covers_every_key(partial: PartialVaultState, vault: VaultState, key: RawWord)
    requires
        holds_all(partial, vault),
    ensures
        covers(partial, vault, key),
{
    let index = smt_key(key).3;
    let leaves = partial_leaves(partial.tree);
    lemma_leaf_of_tree(leaves, vault.tree, index);
    assert(path_fits(partial_inner(partial.tree), index, leaf_digest(stored_entries(leaves, index))));
}

/// A partial vault that was made from a whole vault tracks every vault key, with the value that the
/// tree of the vault has for its hash. So it can be opened at every key.
pub proof fn law_full_tracks_every_key(partial: PartialVaultState, vault: VaultState, key: RawWord)
    requires
        holds_all(partial, vault),
    ensures
        tracked_value(partial.tree, key) == Some(value_at(vault.tree, smt_key(key))),
{
    law_full_covers_every_key(partial, vault, key);
    law_covered_key_is_tracked(partial, vault, key);
}

/// Opening a partial vault that was made from a whole vault gives what opening the vault gives: the
/// same entry, the same leaf with the same pairs, and the same root.
pub proof fn law_full_opens_like_vault(
    partial: PartialVaultState,
    vault: VaultState,
    key: RawWord,
    from_partial: WitnessState,
    from_vault: WitnessState,
)
    requires
        holds_all(partial, vault),
        partial_opens(partial, key, from_partial),
        opens(vault, key, from_vault),
    ensures
        from_partial.entries == from_vault.entries,
        proof_leaf(from_partial.proof) == proof_leaf(from_vault.proof),
        proof_pairs(from_partial.proof) == proof_pairs(from_vault.proof),
        proof_root(from_partial.proof) == proof_root(from_vault.proof),
        proof_root(from_partial.proof) == partial_root(partial.tree),
{
    law_full_covers_every_key(partial, vault, key);
    law_covered_key_opens_like_vault(partial, vault, key, from_partial, from_vault);
}

/// A partial vault that was made from a whole vault has its root and its entries, and has every
/// asset of the vault under its vault key. So `PartialVault::get` returns it.
pub proof fn law_full_has_every_asset(partial: PartialVaultState, vault: VaultState)
    requires
        valid_vault(vault),
        holds_all(partial, vault),
    ensures
        same_root(partial, vault),
        partial.entries == vault.entries,
        forall|k: RawWord| #[trigger]
            vault.entries.contains_key(k) ==> tracked_value(partial.tree, k) == Some(
                vault.entries[k],
            ) && valid_asset(k, vault.entries[k]) && vault.entries[k] != empty_word(),
        entries_tracked(partial.tree, partial.entries),
{
    assert forall|k: RawWord| #[trigger] vault.entries.contains_key(k) implies tracked_value(
        partial.tree,
        k,
    ) == Some(vault.entries[k]) by {
        law_full_tracks_every_key(partial, vault, k);
        assert(value_at(vault.tree, smt_key(k)) == vault.entries[k]);
    }
}

/// A partial vault of which only the root is known tracks no key, unless it is the root of a vault
/// without assets.
pub proof fn law_minimal_tracks_no_key(partial: PartialVaultState, root: RawWord, key: RawWord)
    requires
        rooted_at(partial, root),
        root != empty_root(),
    ensures
        tracked_value(partial.tree, key) is None,
{
    let index = smt_key(key).3;
    let inner = partial_inner(partial.tree);
    assert forall|height: nat| !(#[trigger] shown_empty(inner, index, height)) by {
        if shown_empty(inner, index, height) {
            assert(inner.contains_key(place_at(index, height)));
        }
    }
}

/// A partial vault with the root of a vault without assets knows of every key that it has no value.
pub proof fn law_empty_root_tracks_every_key(partial: PartialVaultState, key: RawWord)
    requires
        rooted_at(partial, empty_root()),
    ensures
        tracked_value(partial.tree, key) == Some(empty_word()),
{
}

// WITNESSES
// ================================================================================================

/// After a witness that leads to the root has been added, every vault key that it authenticates is
/// tracked, with the value that its proof gives to the hash of the key. An opening of the partial
/// vault at such a key shows the leaf of the witness and leads to the root.
pub proof fn law_added_witness_is_opened(
    before: PartialVaultState,
    witness: WitnessState,
    after: PartialVaultState,
    key: RawWord,
    again: WitnessState,
)
    requires
        adds_witness(before, witness, after),
        proof_root(witness.proof) == partial_root(before.tree),
        proof_value(witness.proof, smt_key(key)) is Some,
        partial_opens(after, key, again),
    ensures
        tracked_value(after.tree, key) == proof_value(witness.proof, smt_key(key)),
        again.entries == opened_entries(witness.proof, key),
        proof_leaf(again.proof) == proof_leaf(witness.proof),
        proof_entries(again.proof) == proof_entries(witness.proof),
        proof_root(again.proof) == partial_root(after.tree),
{
    let h = smt_key(key);
    lemma_added_proof(before.tree, witness.proof, after.tree);
    lemma_store_leaf(partial_leaves(before.tree), witness.proof, h);
    lemma_stored_value(after.tree, h);
    lemma_shown_leaf(after.tree, h.3, again.proof, h);
}

/// The entries of a witness that has been added are entries of the partial vault.
pub proof fn law_added_entries_are_there(
    before: PartialVaultState,
    witness: WitnessState,
    after: PartialVaultState,
)
    requires
        adds_witness(before, witness, after),
        proof_root(witness.proof) == partial_root(before.tree),
        entries_proved(witness.proof, witness.entries),
    ensures
        forall|k: RawWord| #[trigger]
            witness.entries.contains_key(k) ==> after.entries.contains_key(k) && after.entries[k]
                == witness.entries[k],
{
    lemma_added_proof(before.tree, witness.proof, after.tree);
    assert forall|k: RawWord| #[trigger] witness.entries.contains_key(
        k,
    ) implies after.entries.contains_key(k) && after.entries[k] == witness.entries[k] by {
        let h = smt_key(k);
        assert(proof_value(witness.proof, h) == Some(witness.entries[k]));
        lemma_store_leaf(partial_leaves(before.tree), witness.proof, h);
        lemma_stored_value(after.tree, h);
        assert(tracked_value(after.tree, k) == Some(witness.entries[k]));
    }
}

/// Adding a witness keeps all entries that have a value and whose hashes belong to other leaves.
pub proof fn law_add_keeps_other_entries(
    before: PartialVaultState,
    witness: WitnessState,
    after: PartialVaultState,
    key: RawWord,
)
    requires
        entries_tracked(before.tree, before.entries),
        adds_witness(before, witness, after),
        before.entries.contains_key(key),
        before.entries[key] != empty_word(),
        !witness.entries.contains_key(key),
        smt_key(key).3 != proof_leaf(witness.proof),
    ensures
        after.entries.contains_key(key) && after.entries[key] == before.entries[key],
{
    let h = smt_key(key);
    assert(tracked_value(before.tree, key) == Some(before.entries[key]));
    lemma_stored_value(before.tree, h);
    lemma_store_leaf(partial_leaves(before.tree), witness.proof, h);
    lemma_stored_value(after.tree, h);
}

/// A witness that was opened in a vault fits every partial vault with the root of that vault: it
/// leads to this root, so it can be added. Afterwards its vault key is covered, and all keys that
/// were covered before are still covered.
pub proof fn law_witness_of_vault_fits(
    before: PartialVaultState,
    vault: VaultState,
    key: RawWord,
    witness: WitnessState,
    after: PartialVaultState,
    other: RawWord,
)
    requires
        same_root(before, vault),
        opens(vault, key, witness),
        adds_witness(before, witness, after),
    ensures
        proof_root(witness.proof) == partial_root(before.tree),
        covers(after, vault, key),
        covers(before, vault, other) ==> covers(after, vault, other),
{
    let leaves = partial_leaves(before.tree);
    let inner = partial_inner(before.tree);
    lemma_store_covers(leaves, inner, vault.tree, witness.proof, smt_key(key).3);
    if covers(before, vault, other) {
        lemma_store_covers(leaves, inner, vault.tree, witness.proof, smt_key(other).3);
    }
}

/// Adding a witness that was opened in a vault to a partial vault of the same vault loses no entry:
/// the entries are those from before, with those of the witness on top. The keys of all entries
/// have to be covered, and still are afterwards.
pub proof fn law_witness_of_vault_keeps_entries(
    before: PartialVaultState,
    vault: VaultState,
    key: RawWord,
    witness: WitnessState,
    after: PartialVaultState,
)
    requires
        same_root(before, vault),
        entries_tracked(before.tree, before.entries),
        forall|k: RawWord| #[trigger] before.entries.contains_key(k) ==> covers(before, vault, k),
        opens(vault, key, witness),
        adds_witness(before, witness, after),
    ensures
        after.entries == before.entries.union_prefer_right(witness.entries),
        forall|k: RawWord| #[trigger] after.entries.contains_key(k) ==> covers(after, vault, k),
{
    let union = before.entries.union_prefer_right(witness.entries);
    assert forall|k: RawWord| #[trigger] union.contains_key(k) implies tracked_value(
        after.tree,
        k,
    ) == Some(union[k]) && covers(after, vault, k) by {
        law_witness_of_vault_fits(before, vault, key, witness, after, k);
        if witness.entries.contains_key(k) {
            assert(k == key);
            lemma_leaf_value(vault.tree, smt_key(k));
        } else {
            assert(before.entries.contains_key(k));
            law_covered_key_is_tracked(before, vault, k);
            assert(tracked_value(before.tree, k) == Some(before.entries[k]));
        }
        law_covered_key_is_tracked(after, vault, k);
    }
    assert(after.entries =~= union);
}

/// The witnesses are openings of one vault at the given keys.
pub open spec fn all_open(
    vault: VaultState,
    keys: Seq<RawWord>,
    witnesses: Seq<AssetWitness>,
) -> bool {
    &&& keys.len() == witnesses.len()
    &&& forall|i: int| 0 <= i < keys.len() ==> opens(vault, #[trigger] keys[i], witnesses[i]@)
}

/// Witnesses that were opened in one vault all lead to its root, so they make a partial vault. It
/// has this root, and covers the vault keys of all witnesses.
pub proof fn law_witnesses_of_vault_fit(
    vault: VaultState,
    keys: Seq<RawWord>,
    witnesses: Seq<AssetWitness>,
    partial: PartialVaultState,
    i: int,
)
    requires
        all_open(vault, keys, witnesses),
        holds_witnesses(partial, witnesses),
        0 <= i < keys.len(),
    ensures
        same_roots(witness_proofs(witnesses)),
        covers(partial, vault, keys[i]),
{
    let proofs = witness_proofs(witnesses);
    assert forall|j: int| 0 <= j < proofs.len() implies proof_root(#[trigger] proofs[j])
        == smt_root(vault.tree) by {
        assert(opens(vault, keys[j], witnesses[j]@));
    }
    assert(first_root(proofs) == proof_root(proofs[0]));
    lemma_openings_cover(vault, keys, witnesses, i);
}

/// An opening of a partial vault that was made from witnesses of one vault, at the key of one of
/// them, has the entry of that witness and leads to the root of the vault.
pub proof fn law_witnesses_of_vault_open(
    vault: VaultState,
    keys: Seq<RawWord>,
    witnesses: Seq<AssetWitness>,
    partial: PartialVaultState,
    i: int,
    again: WitnessState,
)
    requires
        all_open(vault, keys, witnesses),
        holds_witnesses(partial, witnesses),
        0 <= i < keys.len(),
        partial_opens(partial, keys[i], again),
    ensures
        tracked_value(partial.tree, keys[i]) == Some(value_at(vault.tree, smt_key(keys[i]))),
        again.entries == witnesses[i]@.entries,
        proof_pairs(again.proof) == proof_pairs(witnesses[i]@.proof),
        proof_root(again.proof) == smt_root(vault.tree),
{
    law_witnesses_of_vault_fit(vault, keys, witnesses, partial, i);
    law_covered_key_is_tracked(partial, vault, keys[i]);
    assert(opens(vault, keys[i], witnesses[i]@));
    law_covered_key_opens_like_vault(partial, vault, keys[i], again, witnesses[i]@);
}

/// A partial vault that was made from witnesses of one vault has the entries of all of them.
pub proof fn law_witnesses_of_vault_keep_entries(
    vault: VaultState,
    keys: Seq<RawWord>,
    witnesses: Seq<AssetWitness>,
    partial: PartialVaultState,
)
    requires
        all_open(vault, keys, witnesses),
        holds_witnesses(partial, witnesses),
    ensures
        partial.entries == witness_entries_all(no_pairs(), witnesses),
{
    let all = witness_entries_all(no_pairs(), witnesses);
    lemma_entries_of_openings(vault, keys, witnesses);
    assert forall|k: RawWord| #[trigger] all.contains_key(k) implies tracked_value(partial.tree, k)
        == Some(all[k]) by {
        let i = choose|i: int| 0 <= i < keys.len() && (#[trigger] keys[i]) == k;
        law_witnesses_of_vault_fit(vault, keys, witnesses, partial, i);
        law_covered_key_is_tracked(partial, vault, k);
    }
    assert(partial.entries =~= all);
}

/// The leaves and inner nodes of openings of one vault cover the keys of all of them.
proof fn lemma_openings_cover(
    vault: VaultState,
    keys: Seq<RawWord>,
    witnesses: Seq<AssetWitness>,
    i: int,
)
    requires
        all_open(vault, keys, witnesses),
        0 <= i < keys.len(),
    ensures
        part_covers(
            proof_leaves(witness_proofs(witnesses)),
            proof_inner(witness_proofs(witnesses)),
            vault.tree,
            smt_key(keys[i]).3,
        ),
    decreases witnesses.len(),
{
    let proofs = witness_proofs(witnesses);
    let n = witnesses.len() - 1;
    let rest_keys = keys.drop_last();
    let rest = witnesses.drop_last();
    let index = smt_key(keys[i]).3;
    assert(opens(vault, keys[n], witnesses[n]@));
    assert(opens(vault, keys[i], witnesses[i]@));
    assert(proofs.drop_last() =~= witness_proofs(rest));
    if i < n {
        assert forall|j: int| 0 <= j < rest_keys.len() implies opens(
            vault,
            #[trigger] rest_keys[j],
            rest[j]@,
        ) by {
            assert(opens(vault, keys[j], witnesses[j]@));
        }
        lemma_openings_cover(vault, rest_keys, rest, i);
    }
    lemma_store_covers(
        proof_leaves(proofs.drop_last()),
        proof_inner(proofs.drop_last()),
        vault.tree,
        proofs[n],
        index,
    );
}

/// The entries of openings are at the given keys, with the values that the tree has for their
/// hashes.
proof fn lemma_entries_of_openings(
    vault: VaultState,
    keys: Seq<RawWord>,
    witnesses: Seq<AssetWitness>,
)
    requires
        all_open(vault, keys, witnesses),
    ensures
        forall|k: RawWord| #[trigger]
            witness_entries_all(no_pairs(), witnesses).contains_key(k) ==> {
                &&& witness_entries_all(no_pairs(), witnesses)[k] == value_at(
                    vault.tree,
                    smt_key(k),
                )
                &&& exists|i: int| 0 <= i < keys.len() && (#[trigger] keys[i]) == k
            },
    decreases witnesses.len(),
{
    if witnesses.len() > 0 {
        let n = witnesses.len() - 1;
        let rest_keys = keys.drop_last();
        let rest = witnesses.drop_last();
        assert forall|i: int| 0 <= i < rest_keys.len() implies opens(
            vault,
            #[trigger] rest_keys[i],
            rest[i]@,
        ) by {
            assert(opens(vault, keys[i], witnesses[i]@));
        }
        lemma_entries_of_openings(vault, rest_keys, rest);
        assert(opens(vault, keys[n], witnesses[n]@));
        assert forall|k: RawWord| #[trigger]
            witness_entries_all(no_pairs(), witnesses).contains_key(k) implies witness_entries_all(
            no_pairs(),
            witnesses,
        )[k] == value_at(vault.tree, smt_key(k)) && exists|i: int|
            0 <= i < keys.len() && (#[trigger] keys[i]) == k by {
            if witnesses[n]@.entries.contains_key(k) {
                assert(k == keys[n]);
                lemma_leaf_value(vault.tree, smt_key(k));
            } else {
                assert(witness_entries_all(no_pairs(), rest).contains_key(k));
                let i = choose|i: int| 0 <= i < rest_keys.len() && (#[trigger] rest_keys[i]) == k;
                assert(keys[i] == k);
            }
        }
    }
}

// SOUND TREES
// ================================================================================================

/// A root, leaves and inner nodes fit together: the digest of every stored inner node and of every
/// stored leaf is the one that the inner node above it has for it, every stored leaf stands at its
/// own position, and its digest is not that of a leaf without pairs.
pub open spec fn parts_fit(
    root: RawWord,
    leaves: Map<u64, RawLeaf>,
    inner: Map<NodePlace, RawChildren>,
) -> bool {
    &&& nodes_fit(root, inner)
    &&& forall|i: u64| #[trigger]
        leaves.contains_key(i) ==> leaf_placed(leaves, i) && leaf_fits(
            inner,
            i,
            leaf_digest(leaves[i].1),
        ) && leaf_digest(leaves[i].1) != empty_word()
}

/// All parts of a partial tree fit together.
pub open spec fn sound(tree: PartialSmt) -> bool {
    parts_fit(partial_root(tree), partial_leaves(tree), partial_inner(tree))
}

/// The given inner nodes, of which no two share a digest, include all those of a partial tree and
/// those of empty subtrees.
pub open spec fn nodes_of_tree(nodes: Set<RawChildren>, tree: PartialSmt) -> bool {
    digests_apart(nodes) && includes_nodes(nodes, partial_inner(tree))
}

/// The given inner nodes include all those on the path of a proof.
pub open spec fn nodes_of_proof(nodes: Set<RawChildren>, proof: SmtProof) -> bool {
    includes_path(
        nodes,
        proof_leaf(proof),
        leaf_digest(proof_entries(proof)),
        proof_siblings(proof),
    )
}

/// The digest of a leaf with pairs is not that of a leaf without pairs.
pub open spec fn digest_tells_pairs(entries: Seq<(RawWord, RawWord)>) -> bool {
    entries.len() > 0 ==> leaf_digest(entries) != empty_word()
}

/// A partial vault of which only the root is known is sound.
pub proof fn law_minimal_is_sound(partial: PartialVaultState, root: RawWord)
    requires
        rooted_at(partial, root),
    ensures
        sound(partial.tree),
{
    let inner = partial_inner(partial.tree);
    assert forall|leaf: u64, h: nat| 0 < h <= SMT_DEPTH implies #[trigger] fits_above(
        root,
        inner,
        leaf,
        h,
    ) by {}
}

/// A partial vault that was made from a whole vault is sound.
pub proof fn law_full_is_sound(partial: PartialVaultState, vault: VaultState)
    requires
        holds_all(partial, vault),
        forall|i: u64| #[trigger]
            partial_leaves(partial.tree).contains_key(i) ==> digest_tells_pairs(
                partial_leaves(partial.tree)[i].1,
            ),
    ensures
        sound(partial.tree),
{
    let root = partial_root(partial.tree);
    let leaves = partial_leaves(partial.tree);
    let inner = partial_inner(partial.tree);
    assert forall|leaf: u64, h: nat| 0 < h <= SMT_DEPTH implies #[trigger] fits_above(
        root,
        inner,
        leaf,
        h,
    ) by {
        let digest = leaf_digest(stored_entries(leaves, leaf));
        let siblings = siblings_at(inner, leaf);
        assert(path_fits(inner, leaf, digest));
        lemma_path_in(leaf, digest, siblings, inner);
        lemma_root_place(leaf);
        assert(path_node(leaf, digest, siblings, h) == node_at(inner, place_at(leaf, h)));
        if h < SMT_DEPTH {
            assert(path_node(leaf, digest, siblings, h + 1) == node_at(
                inner,
                place_at(leaf, h + 1),
            ));
        }
    }
    assert forall|leaf: u64, h: nat|
        0 < h <= SMT_DEPTH && inner.contains_key(
            #[trigger] place_at(leaf, h),
        ) implies inner[place_at(leaf, h)] != empty_children(h) by {}
    assert forall|i: u64| #[trigger] leaves.contains_key(i) implies leaf_placed(leaves, i)
        && leaf_fits(inner, i, leaf_digest(leaves[i].1)) && leaf_digest(leaves[i].1)
        != empty_word() by {
        lemma_leaf_of_tree(leaves, vault.tree, i);
        let digest = leaf_digest(stored_entries(leaves, i));
        let siblings = siblings_at(inner, i);
        assert(path_fits(inner, i, digest));
        assert(path_node(i, digest, siblings, 1) == node_at(inner, place_at(i, 1)));
    }
}

/// Storing a proof that leads to the root keeps all parts fitting together.
proof fn lemma_store_keeps_parts(
    root: RawWord,
    leaves: Map<u64, RawLeaf>,
    inner: Map<NodePlace, RawChildren>,
    proof: SmtProof,
    nodes: Set<RawChildren>,
)
    requires
        parts_fit(root, leaves, inner),
        digests_apart(nodes),
        includes_nodes(nodes, inner),
        nodes_of_proof(nodes, proof),
        digest_tells_pairs(proof_entries(proof)),
        proof_root(proof) == root,
    ensures
        parts_fit(root, store_leaf(leaves, proof), store_nodes(inner, proof)),
        includes_nodes(nodes, store_nodes(inner, proof)),
{
    let leaf = proof_leaf(proof);
    let digest = leaf_digest(proof_entries(proof));
    let siblings = proof_siblings(proof);
    let after_leaves = store_leaf(leaves, proof);
    let after = store_nodes(inner, proof);
    lemma_store_keeps_fit(root, inner, nodes, leaf, digest, siblings);
    assert forall|i: u64| #[trigger] after_leaves.contains_key(i) implies leaf_placed(
        after_leaves,
        i,
    ) && leaf_fits(after, i, leaf_digest(after_leaves[i].1)) && leaf_digest(after_leaves[i].1)
        != empty_word() by {
        if i != leaf {
            assert(leaves.contains_key(i) && after_leaves[i] == leaves[i]);
            assert(leaf_placed(leaves, i));
            let own = leaf_digest(leaves[i].1);
            lemma_stored_leaf_path(root, inner, nodes, i, own);
            lemma_store_agrees(inner, nodes, leaf, digest, siblings, i, own);
            assert(node_at(after, place_at(i, 1)) == node_at(inner, place_at(i, 1)));
        }
    }
}

/// Adding a witness that leads to the root keeps a partial vault sound, if no two inner nodes share
/// a digest.
pub proof fn law_add_keeps_sound(
    before: PartialVaultState,
    witness: WitnessState,
    after: PartialVaultState,
    nodes: Set<RawChildren>,
)
    requires
        sound(before.tree),
        adds_witness(before, witness, after),
        proof_root(witness.proof) == partial_root(before.tree),
        nodes_of_tree(nodes, before.tree),
        nodes_of_proof(nodes, witness.proof),
        digest_tells_pairs(proof_entries(witness.proof)),
    ensures
        sound(after.tree),
        nodes_of_tree(nodes, after.tree),
{
    lemma_store_keeps_parts(
        partial_root(before.tree),
        partial_leaves(before.tree),
        partial_inner(before.tree),
        witness.proof,
        nodes,
    );
}

/// A partial vault that was made from witnesses with the same root is sound, if no two inner nodes
/// share a digest.
pub proof fn law_witnesses_are_sound(
    witnesses: Seq<AssetWitness>,
    partial: PartialVaultState,
    nodes: Set<RawChildren>,
)
    requires
        same_roots(witness_proofs(witnesses)),
        holds_witnesses(partial, witnesses),
        digests_apart(nodes),
        forall|h: nat| 0 < h <= SMT_DEPTH ==> nodes.contains(#[trigger] empty_children(h)),
        forall|i: int|
            0 <= i < witnesses.len() ==> nodes_of_proof(nodes, (#[trigger] witnesses[i])@.proof)
                && digest_tells_pairs(proof_entries(witnesses[i]@.proof)),
    ensures
        sound(partial.tree),
        nodes_of_tree(nodes, partial.tree),
{
    let proofs = witness_proofs(witnesses);
    assert forall|i: int| 0 <= i < proofs.len() implies nodes_of_proof(nodes, #[trigger] proofs[i])
        && digest_tells_pairs(proof_entries(proofs[i])) && proof_root(proofs[i]) == first_root(
        proofs,
    ) by {
        assert(nodes_of_proof(nodes, witnesses[i]@.proof));
        assert(proof_root(proofs[i]) == proof_root(proofs[0]));
    }
    lemma_proofs_fit(first_root(proofs), proofs, nodes);
}

/// The leaves and inner nodes of proofs that lead to one root fit together.
proof fn lemma_proofs_fit(root: RawWord, proofs: Seq<SmtProof>, nodes: Set<RawChildren>)
    requires
        digests_apart(nodes),
        forall|h: nat| 0 < h <= SMT_DEPTH ==> nodes.contains(#[trigger] empty_children(h)),
        forall|i: int|
            0 <= i < proofs.len() ==> nodes_of_proof(nodes, #[trigger] proofs[i])
                && digest_tells_pairs(proof_entries(proofs[i])) && proof_root(proofs[i]) == root,
    ensures
        parts_fit(root, proof_leaves(proofs), proof_inner(proofs)),
        includes_nodes(nodes, proof_inner(proofs)),
    decreases proofs.len(),
{
    if proofs.len() == 0 {
        let inner = proof_inner(proofs);
        assert forall|leaf: u64, h: nat| 0 < h <= SMT_DEPTH implies #[trigger] fits_above(
            root,
            inner,
            leaf,
            h,
        ) by {}
        assert forall|leaf: u64, h: nat| 0 < h <= SMT_DEPTH implies nodes.contains(
            node_at(inner, #[trigger] place_at(leaf, h)),
        ) by {
            assert(nodes.contains(empty_children(h)));
        }
    } else {
        let rest = proofs.drop_last();
        let last = proofs[proofs.len() - 1];
        assert forall|i: int| 0 <= i < rest.len() implies nodes_of_proof(nodes, #[trigger] rest[i])
            && digest_tells_pairs(proof_entries(rest[i])) && proof_root(rest[i]) == root by {
            assert(rest[i] == proofs[i]);
        }
        lemma_proofs_fit(root, rest, nodes);
        assert(nodes_of_proof(nodes, last));
        lemma_store_keeps_parts(root, proof_leaves(rest), proof_inner(rest), last, nodes);
    }
}

/// The path that a sound partial tree has for a tracked leaf runs through its inner nodes and leads
/// to its root.
proof fn lemma_sound_path(tree: PartialSmt, nodes: Set<RawChildren>, index: u64)
    requires
        sound(tree),
        nodes_of_tree(nodes, tree),
        tracks_leaf(tree, index),
    ensures
        leaf_placed(partial_leaves(tree), index),
        path_fits(
            partial_inner(tree),
            index,
            leaf_digest(stored_entries(partial_leaves(tree), index)),
        ),
        partial_path_root(tree, index) == partial_root(tree),
{
    let leaves = partial_leaves(tree);
    if leaves.contains_key(index) {
        lemma_stored_leaf_path(
            partial_root(tree),
            partial_inner(tree),
            nodes,
            index,
            leaf_digest(leaves[index].1),
        );
    } else {
        lemma_shown_empty_path(partial_root(tree), partial_inner(tree), nodes, index);
    }
}

/// Every opening of a sound partial vault leads to its root, and shows the value that the partial
/// vault has for the key, if no two inner nodes share a digest.
pub proof fn law_sound_opening_leads_to_root(
    partial: PartialVaultState,
    key: RawWord,
    witness: WitnessState,
    nodes: Set<RawChildren>,
)
    requires
        sound(partial.tree),
        nodes_of_tree(nodes, partial.tree),
        tracked_value(partial.tree, key) is Some,
        partial_opens(partial, key, witness),
    ensures
        proof_root(witness.proof) == partial_root(partial.tree),
        proof_value(witness.proof, smt_key(key)) == tracked_value(partial.tree, key),
{
    lemma_sound_path(partial.tree, nodes, smt_key(key).3);
    lemma_shown_leaf(partial.tree, smt_key(key).3, witness.proof, smt_key(key));
}

/// Adding a witness that leads to the root to a sound partial vault loses no entry: the entries are
/// those from before, with those of the witness on top. No two inner nodes may share a digest, and
/// the leaf of the witness must not share its digest with another one that stood in its place.
pub proof fn law_add_loses_no_entry(
    before: PartialVaultState,
    witness: WitnessState,
    after: PartialVaultState,
    nodes: Set<RawChildren>,
)
    requires
        sound(before.tree),
        entries_tracked(before.tree, before.entries),
        entries_proved(witness.proof, witness.entries),
        adds_witness(before, witness, after),
        proof_root(witness.proof) == partial_root(before.tree),
        nodes_of_tree(nodes, before.tree),
        nodes_of_proof(nodes, witness.proof),
        ({
            let former = stored_entries(partial_leaves(before.tree), proof_leaf(witness.proof));
            leaf_digest(former) == leaf_digest(proof_entries(witness.proof)) ==> former
                == proof_entries(witness.proof)
        }),
    ensures
        after.entries == before.entries.union_prefer_right(witness.entries),
{
    let union = before.entries.union_prefer_right(witness.entries);
    let leaf = proof_leaf(witness.proof);
    let digest = leaf_digest(proof_entries(witness.proof));
    let siblings = proof_siblings(witness.proof);
    let leaves = partial_leaves(before.tree);
    let inner = partial_inner(before.tree);
    lemma_added_proof(before.tree, witness.proof, after.tree);
    law_added_entries_are_there(before, witness, after);
    assert forall|k: RawWord| #[trigger] union.contains_key(k) implies tracked_value(after.tree, k)
        == Some(union[k]) by {
        let h = smt_key(k);
        if witness.entries.contains_key(k) {
            assert(after.entries.contains_key(k));
        } else {
            assert(before.entries.contains_key(k));
            assert(tracked_value(before.tree, k) == Some(before.entries[k]));
            let own = leaf_digest(stored_entries(leaves, h.3));
            lemma_sound_path(before.tree, nodes, h.3);
            lemma_store_agrees(inner, nodes, leaf, digest, siblings, h.3, own);
            lemma_stored_value(before.tree, h);
            lemma_stored_value(after.tree, h);
            lemma_store_leaf(leaves, witness.proof, h);
            if h.3 != leaf {
                lemma_path_tracked(after.tree, h.3, siblings_at(inner, h.3));
            } else {
                assert(value_at(proof_pairs(witness.proof), h) == entries_value(
                    proof_entries(witness.proof),
                    h,
                ));
            }
        }
    }
    assert(after.entries =~= union);
}

/// Of the given proofs, no two that show the same leaf have leaves of the same digest with other
/// pairs.
pub open spec fn leaves_apart(proofs: Seq<SmtProof>) -> bool {
    forall|i: int, j: int|
        #![trigger proofs[i], proofs[j]]
        0 <= i < proofs.len() && 0 <= j < proofs.len() && proof_leaf(proofs[i]) == proof_leaf(
            proofs[j],
        ) && leaf_digest(proof_entries(proofs[i])) == leaf_digest(proof_entries(proofs[j]))
            ==> proof_entries(proofs[i]) == proof_entries(proofs[j])
}

/// What a list of proofs with the same root leaves behind has the leaf of each of them, and all
/// inner nodes above it.
proof fn lemma_proofs_stay(proofs: Seq<SmtProof>, nodes: Set<RawChildren>, i: int)
    requires
        same_roots(proofs),
        leaves_apart(proofs),
        digests_apart(nodes),
        forall|j: int| 0 <= j < proofs.len() ==> nodes_of_proof(nodes, #[trigger] proofs[j]),
        0 <= i < proofs.len(),
    ensures
        proof_in(proofs[i], proof_inner(proofs)),
        stored_entries(proof_leaves(proofs), proof_leaf(proofs[i])) == proof_entries(proofs[i]),
    decreases proofs.len(),
{
    let n = proofs.len() - 1;
    let rest = proofs.drop_last();
    let last = proofs[n];
    let proof = proofs[i];
    let leaf = proof_leaf(proof);
    let digest = leaf_digest(proof_entries(proof));
    let siblings = proof_siblings(proof);
    let last_leaf = proof_leaf(last);
    let last_digest = leaf_digest(proof_entries(last));
    let last_siblings = proof_siblings(last);
    let after = proof_inner(proofs);
    lemma_stored_path(proof_inner(rest), last_leaf, last_digest, last_siblings);
    lemma_store_leaf(proof_leaves(rest), last, empty_word());
    if i < n {
        assert forall|j: int| 0 <= j < rest.len() implies nodes_of_proof(
            nodes,
            #[trigger] rest[j],
        ) by {
            assert(rest[j] == proofs[j]);
        }
        assert(same_roots(rest)) by {
            assert forall|j: int| 0 <= j < rest.len() implies proof_root(#[trigger] rest[j])
                == proof_root(rest[0]) by {
                assert(rest[j] == proofs[j] && rest[0] == proofs[0]);
                assert(proof_root(proofs[j]) == proof_root(proofs[0]));
            }
        }
        assert(leaves_apart(rest)) by {
            assert forall|a: int, b: int|
                #![trigger rest[a], rest[b]]
                0 <= a < rest.len() && 0 <= b < rest.len() && proof_leaf(rest[a]) == proof_leaf(
                    rest[b],
                ) && leaf_digest(proof_entries(rest[a])) == leaf_digest(proof_entries(rest[b]))
                    implies proof_entries(rest[a]) == proof_entries(rest[b]) by {
                assert(rest[a] == proofs[a] && rest[b] == proofs[b]);
            }
        }
        lemma_proofs_stay(rest, nodes, i);
        assert(rest[i] == proof);
        assert(proof_root(proofs[i]) == proof_root(proofs[0]));
        assert(proof_root(proofs[n]) == proof_root(proofs[0]));
        assert(nodes_of_proof(nodes, proofs[i]) && nodes_of_proof(nodes, proofs[n]));
        assert forall|h: nat| 0 < h <= SMT_DEPTH implies #[trigger] path_node(
            leaf,
            digest,
            siblings,
            h,
        ) == node_at(after, place_at(leaf, h)) by {
            let place = place_at(leaf, h);
            assert(path_node(leaf, digest, siblings, h) == node_at(proof_inner(rest), place));
            if above(place, last_leaf) {
                lemma_paths_meet(
                    nodes,
                    leaf,
                    digest,
                    siblings,
                    last_leaf,
                    last_digest,
                    last_siblings,
                    h,
                );
                assert(path_node(last_leaf, last_digest, last_siblings, h) == node_at(
                    after,
                    place_at(last_leaf, h),
                ));
            }
        }
        if leaf == last_leaf {
            lemma_paths_meet(
                nodes,
                leaf,
                digest,
                siblings,
                last_leaf,
                last_digest,
                last_siblings,
                0,
            );
        }
    }
}

/// A partial vault that was made from witnesses with the same root tracks every vault key that one
/// of them authenticates, with the value that the proof of the witness gives to the hash of the
/// key, and an opening at the key leads to the root. No two inner nodes may share a digest, nor two
/// leaves with other pairs at the same position.
pub proof fn law_witnesses_are_opened(
    witnesses: Seq<AssetWitness>,
    partial: PartialVaultState,
    nodes: Set<RawChildren>,
    i: int,
    key: RawWord,
    again: WitnessState,
)
    requires
        same_roots(witness_proofs(witnesses)),
        leaves_apart(witness_proofs(witnesses)),
        digests_apart(nodes),
        forall|j: int|
            0 <= j < witnesses.len() ==> nodes_of_proof(nodes, (#[trigger] witnesses[j])@.proof),
        holds_witnesses(partial, witnesses),
        0 <= i < witnesses.len(),
        proof_value(witnesses[i]@.proof, smt_key(key)) is Some,
        partial_opens(partial, key, again),
    ensures
        tracked_value(partial.tree, key) == proof_value(witnesses[i]@.proof, smt_key(key)),
        again.entries == opened_entries(witnesses[i]@.proof, key),
        proof_entries(again.proof) == proof_entries(witnesses[i]@.proof),
        proof_root(again.proof) == partial_root(partial.tree),
{
    lemma_witness_tracked(witnesses, partial, nodes, i, key);
    lemma_shown_leaf(partial.tree, smt_key(key).3, again.proof, smt_key(key));
    assert(proof_value(again.proof, smt_key(key)) == proof_value(
        witnesses[i]@.proof,
        smt_key(key),
    ));
}

/// A vault key that a witness authenticates is tracked, with the value that its proof gives.
proof fn lemma_witness_tracked(
    witnesses: Seq<AssetWitness>,
    partial: PartialVaultState,
    nodes: Set<RawChildren>,
    i: int,
    key: RawWord,
)
    requires
        same_roots(witness_proofs(witnesses)),
        leaves_apart(witness_proofs(witnesses)),
        digests_apart(nodes),
        forall|j: int|
            0 <= j < witnesses.len() ==> nodes_of_proof(nodes, (#[trigger] witnesses[j])@.proof),
        holds_witnesses(partial, witnesses),
        0 <= i < witnesses.len(),
        proof_value(witnesses[i]@.proof, smt_key(key)) is Some,
    ensures
        leaf_placed(partial_leaves(partial.tree), smt_key(key).3),
        stored_entries(partial_leaves(partial.tree), smt_key(key).3) == proof_entries(
            witnesses[i]@.proof,
        ),
        tracked_value(partial.tree, key) == proof_value(witnesses[i]@.proof, smt_key(key)),
        partial_path_root(partial.tree, smt_key(key).3) == partial_root(partial.tree),
{
    let proofs = witness_proofs(witnesses);
    let h = smt_key(key);
    assert forall|j: int| 0 <= j < proofs.len() implies nodes_of_proof(
        nodes,
        #[trigger] proofs[j],
    ) by {
        assert(nodes_of_proof(nodes, witnesses[j]@.proof));
    }
    lemma_proofs_stay(proofs, nodes, i);
    lemma_proof_leaves(proofs);
    assert(proof_root(proofs[i]) == proof_root(proofs[0]));
    lemma_path_tracked(partial.tree, h.3, proof_siblings(proofs[i]));
    lemma_stored_value(partial.tree, h);
    assert(value_at(proof_pairs(proofs[i]), h) == entries_value(proof_entries(proofs[i]), h));
}

/// A partial vault that was made from witnesses with the same root has the entries of all of them.
/// No two inner nodes may share a digest, nor two leaves with other pairs at the same position.
pub proof fn law_witnesses_lose_no_entry(
    witnesses: Seq<AssetWitness>,
    partial: PartialVaultState,
    nodes: Set<RawChildren>,
)
    requires
        same_roots(witness_proofs(witnesses)),
        leaves_apart(witness_proofs(witnesses)),
        digests_apart(nodes),
        forall|i: int|
            0 <= i < witnesses.len() ==> nodes_of_proof(nodes, (#[trigger] witnesses[i])@.proof)
                && entries_proved(witnesses[i]@.proof, witnesses[i]@.entries),
        holds_witnesses(partial, witnesses),
    ensures
        partial.entries == witness_entries_all(no_pairs(), witnesses),
{
    let all = witness_entries_all(no_pairs(), witnesses);
    assert forall|k: RawWord| #[trigger] all.contains_key(k) implies tracked_value(partial.tree, k)
        == Some(all[k]) by {
        lemma_entry_of_witness(witnesses, k);
        let i = choose|i: int|
            0 <= i < witnesses.len() && (#[trigger] witnesses[i])@.entries.contains_key(k)
                && witnesses[i]@.entries[k] == all[k];
        assert(proof_value(witnesses[i]@.proof, smt_key(k)) == Some(all[k]));
        lemma_witness_tracked(witnesses, partial, nodes, i, k);
    }
    assert(partial.entries =~= all);
}

/// Every entry of a list of witnesses is that of one of them.
proof fn lemma_entry_of_witness(witnesses: Seq<AssetWitness>, key: RawWord)
    requires
        witness_entries_all(no_pairs(), witnesses).contains_key(key),
    ensures
        exists|i: int|
            0 <= i < witnesses.len() && (#[trigger] witnesses[i])@.entries.contains_key(key)
                && witnesses[i]@.entries[key] == witness_entries_all(no_pairs(), witnesses)[key],
    decreases witnesses.len(),
{
    if witnesses.len() > 0 {
        let n = witnesses.len() - 1;
        let rest = witnesses.drop_last();
        if !witnesses[n]@.entries.contains_key(key) {
            lemma_entry_of_witness(rest, key);
            let i = choose|i: int|
                0 <= i < rest.len() && (#[trigger] rest[i])@.entries.contains_key(key)
                    && rest[i]@.entries[key] == witness_entries_all(no_pairs(), rest)[key];
            assert(witnesses[i] == rest[i]);
        }
    }
}

/// The entries after the vault keys of a list have been tracked one after the other in a partial
/// vault, or what is wrong with the first key that cannot be tracked.
pub open spec fn tracked_entries(vault: PartialVaultState, keys: Seq<RawWord>) -> Result<
    Map<RawWord, RawWord>,
    TrackFault,
>
    decreases keys.len(),
{
    if keys.len() == 0 {
        Ok(vault.entries)
    } else {
        match tracked_entries(vault, keys.drop_last()) {
            Err(fault) => Err(fault),
            Ok(entries) => match track_fault(vault.tree, keys.last()) {
                Some(fault) => Err(fault),
                None => Ok(entries.insert(keys.last(), tracked_value(vault.tree, keys.last())->0)),
            },
        }
    }
}

/// A partial vault can be built again from its partial tree and the list of its vault keys, and is
/// then the same partial vault.
pub proof fn law_partial_vault_is_rebuilt(vault: PartialVaultState)
    requires
        vault.entries.dom().finite(),
        assets_or_empty(vault.entries),
        entries_tracked(vault.tree, vault.entries),
    ensures
        tracked_entries(
            PartialVaultState { tree: vault.tree, entries: no_pairs() },
            keys_of(listing(vault.entries)),
        ) == Ok::<_, TrackFault>(vault.entries),
{
    let list = listing(vault.entries);
    lemma_listing_exists(vault.entries);
    lemma_tracked_part(vault, list, list.len() as int);
    assert(list.take(list.len() as int) =~= list);
    assert(keys_of(list).take(list.len() as int) =~= keys_of(list));
    lemma_insert_listing(no_pairs(), list, vault.entries);
    assert(no_pairs().union_prefer_right(vault.entries) =~= vault.entries);
}

/// The entries after the first vault keys of a listing have been tracked.
proof fn lemma_tracked_part(vault: PartialVaultState, list: Seq<(RawWord, RawWord)>, n: int)
    requires
        is_listing(list, vault.entries),
        assets_or_empty(vault.entries),
        entries_tracked(vault.tree, vault.entries),
        0 <= n <= list.len(),
    ensures
        tracked_entries(
            PartialVaultState { tree: vault.tree, entries: no_pairs() },
            keys_of(list).take(n),
        ) == Ok::<_, TrackFault>(insert_all(no_pairs(), list.take(n))),
    decreases n,
{
    let keys = keys_of(list);
    if n > 0 {
        lemma_tracked_part(vault, list, n - 1);
        assert(keys.take(n).drop_last() =~= keys.take(n - 1));
        assert(list.take(n).drop_last() =~= list.take(n - 1));
        let key = list[n - 1].0;
        assert(keys.take(n).last() == key);
        assert(list.take(n).last() == list[n - 1]);
        assert(vault.entries.contains_key(key));
        assert(track_fault(vault.tree, key) is None);
    }
}

} // verus!
