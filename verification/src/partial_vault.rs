//! Partial vaults.
use vstd::prelude::*;

use miden_crypto::merkle::smt::{PartialSmt, SmtProof};

use crate::asset::{asset_fault, valid_asset, Asset, AssetError, AssetFault};
use crate::hash::{export_word, import_word};
use crate::key_map::{
    entry_values, insert_all, is_listing, lemma_insert_all_dom, lemma_insert_listing, listing,
    KeyMap,
};
use crate::merkle::{
    all_paths_fit, entries_map, entries_value, first_root, import_merkle_error, leaf_at_bottom,
    leaf_indices, leaf_keys, leaf_pairs, leaf_placed, leaves_of, lemma_added_proof,
    lemma_proof_leaves, lemma_shown_leaf, lemma_shown_value, lists_leaves, lists_nodes, no_leaves,
    no_pairs, node_values, partial_from_proofs, partial_from_smt, partial_inner,
    partial_inner_nodes, partial_leaf_list, partial_leaves, partial_path_root, partial_root,
    partial_values, proof_inner, proof_leaf, proof_leaf_readable, proof_leaves, proof_root,
    readable_leaves, same_roots, shows_leaf, smt_inner, smt_root, store_leaf, store_nodes,
    stored_entries, stores_no_empty, tracks_leaf, value_at, InnerNodeInfo, LeafContents,
    MerkleError, MerkleFault, RawLeaf,
};
use crate::paths::{empty_root, no_inner};
use crate::vault::{lemma_leaf_value, valid_vault, AssetVault, VaultState};
use crate::vault_key::{smt_key, AssetVaultKey};
use crate::witness::{assets_or_empty, entries_proved, opened_entries, AssetWitness, WitnessState};
use crate::word::{empty_word, word_less, RawWord, Word};

verus! {

// MODEL
// ================================================================================================

/// The value of a partial vault: its partial tree, and the entries that it tracks by vault key.
pub struct PartialVaultState {
    pub tree: PartialSmt,
    pub entries: Map<RawWord, RawWord>,
}

/// The value that the partial tree has for the hash of a vault key, if it tracks it.
pub open spec fn tracked_value(tree: PartialSmt, key: RawWord) -> Option<RawWord> {
    if partial_values(tree).contains_key(smt_key(key)) {
        Some(partial_values(tree)[smt_key(key)])
    } else {
        None
    }
}

/// The proofs of a list of witnesses.
pub open spec fn witness_proofs(witnesses: Seq<AssetWitness>) -> Seq<SmtProof> {
    Seq::new(witnesses.len(), |i: int| witnesses[i]@.proof)
}

/// The entries of a list of witnesses, inserted one witness after the other into a map.
pub open spec fn witness_entries_all(
    map: Map<RawWord, RawWord>,
    witnesses: Seq<AssetWitness>,
) -> Map<RawWord, RawWord>
    decreases witnesses.len(),
{
    if witnesses.len() == 0 {
        map
    } else {
        witness_entries_all(map, witnesses.drop_last()).union_prefer_right(
            witnesses.last()@.entries,
        )
    }
}

/// All entries are present in the partial tree, under the hashes of their vault keys.
pub open spec fn entries_tracked(tree: PartialSmt, entries: Map<RawWord, RawWord>) -> bool {
    forall|k: RawWord| #[trigger]
        entries.contains_key(k) ==> tracked_value(tree, k) == Some(entries[k])
}

/// The entries that are present in the partial tree, under the hashes of their vault keys.
pub open spec fn present_entries(tree: PartialSmt, entries: Map<RawWord, RawWord>) -> Map<
    RawWord,
    RawWord,
> {
    Map::new(
        |k: RawWord| entries.contains_key(k) && tracked_value(tree, k) == Some(entries[k]),
        |k: RawWord| entries[k],
    )
}

/// A partial vault with the given root and nothing else.
pub open spec fn rooted_at(vault: PartialVaultState, root: RawWord) -> bool {
    &&& vault.entries == no_pairs()
    &&& partial_root(vault.tree) == root
    &&& partial_leaves(vault.tree) == no_leaves()
    &&& partial_inner(vault.tree) == no_inner()
}

/// A partial vault with all that a vault holds: its entries, and the root, the leaves and the inner
/// nodes of its tree.
pub open spec fn holds_all(partial: PartialVaultState, vault: VaultState) -> bool {
    &&& partial.entries == vault.entries
    &&& partial_root(partial.tree) == smt_root(vault.tree)
    &&& leaves_of(partial_leaves(partial.tree), vault.tree)
    &&& partial_inner(partial.tree) == smt_inner(vault.tree)
    &&& all_paths_fit(partial_leaves(partial.tree), partial_inner(partial.tree))
    &&& stores_no_empty(partial_inner(partial.tree))
}

/// The witness is an opening of the partial vault at a vault key: its proof shows the leaf of the
/// hash of the key as the partial tree has it, and its only entry is the key with the value that
/// the proof gives to its hash.
pub open spec fn partial_opens(
    vault: PartialVaultState,
    key: RawWord,
    witness: WitnessState,
) -> bool {
    &&& shows_leaf(vault.tree, smt_key(key).3, witness.proof)
    &&& witness.entries == opened_entries(witness.proof, key)
}

/// A partial vault after a witness has been added to it: the leaf and the inner nodes of the proof
/// are stored, and the entries of the witness come on top of the others. An entry that the tree
/// does not show any more goes. In a tree whose digests fit together, only digests that collide can
/// bring this about.
pub open spec fn adds_witness(
    before: PartialVaultState,
    witness: WitnessState,
    after: PartialVaultState,
) -> bool {
    &&& partial_root(after.tree) == partial_root(before.tree)
    &&& partial_leaves(after.tree) == store_leaf(partial_leaves(before.tree), witness.proof)
    &&& partial_inner(after.tree) == store_nodes(partial_inner(before.tree), witness.proof)
    &&& after.entries == present_entries(
        after.tree,
        before.entries.union_prefer_right(witness.entries),
    )
}

/// A partial vault that was made from a list of witnesses.
pub open spec fn holds_witnesses(vault: PartialVaultState, witnesses: Seq<AssetWitness>) -> bool {
    &&& partial_root(vault.tree) == first_root(witness_proofs(witnesses))
    &&& partial_leaves(vault.tree) == proof_leaves(witness_proofs(witnesses))
    &&& partial_inner(vault.tree) == proof_inner(witness_proofs(witnesses))
    &&& vault.entries == present_entries(
        vault.tree,
        witness_entries_all(no_pairs(), witnesses),
    )
}

/// What is wrong with a vault key as one that a partial tree tracks, if anything.
pub open spec fn track_fault(tree: PartialSmt, key: RawWord) -> Option<TrackFault> {
    match tracked_value(tree, key) {
        None => Some(TrackFault::UntrackedKey(key, MerkleFault::UntrackedKey(smt_key(key)))),
        Some(value) => if value == empty_word() {
            None
        } else {
            match asset_fault(key, value) {
                None => None,
                Some(fault) => Some(TrackFault::InvalidAsset(fault)),
            }
        },
    }
}

/// The leaves of a tree have its pairs.
pub proof fn lemma_leaf_of_tree(
    leaves: Map<u64, RawLeaf>,
    pairs: Map<RawWord, RawWord>,
    index: u64,
)
    requires
        leaves_of(leaves, pairs),
    ensures
        leaf_placed(leaves, index),
        entries_map(stored_entries(leaves, index)) == leaf_pairs(pairs, index),
{
    if !leaves.contains_key(index) {
        assert forall|k: RawWord| !(#[trigger] leaf_keys(pairs, index).contains(k)) by {
            if leaf_keys(pairs, index).contains(k) {
                assert(pairs.dom().contains(k));
                assert(leaf_indices(pairs).contains(k.3));
            }
        }
        assert(leaf_pairs(pairs, index) =~= no_pairs());
        assert(entries_map(Seq::empty()) =~= no_pairs());
    }
}

/// A partial tree that was made from the tree of a vault has all its entries.
proof fn lemma_full_entries_tracked(tree: PartialSmt, vault: VaultState)
    requires
        valid_vault(vault),
        leaves_of(partial_leaves(tree), vault.tree),
    ensures
        entries_tracked(tree, vault.entries),
{
    assert forall|k: RawWord| #[trigger] vault.entries.contains_key(k) implies tracked_value(
        tree,
        k,
    ) == Some(vault.entries[k]) by {
        let h = smt_key(k);
        let leaves = partial_leaves(tree);
        assert(value_at(vault.tree, h) == vault.entries[k]);
        assert(vault.tree.dom().contains(h));
        assert(leaf_indices(vault.tree).contains(h.3));
        assert(leaves.contains_key(h.3));
        lemma_leaf_of_tree(leaves, vault.tree, h.3);
        lemma_leaf_value(vault.tree, h);
        assert(value_at(entries_map(leaves[h.3].1), h) == entries_value(leaves[h.3].1, h));
    }
}

// ERRORS
// ================================================================================================

/// The ways in which an operation on a partial vault can fail.
#[derive(Clone, Copy, Debug)]
pub enum PartialAssetVaultError {
    /// A witness leads to another root.
    FailedToAddProof(MerkleError),
    /// The partial tree does not track the hash of a vault key.
    UntrackedAsset(MerkleError),
}

/// The value of a [`PartialAssetVaultError`].
pub enum PartialVaultFault {
    FailedToAddProof(MerkleFault),
    UntrackedAsset(MerkleFault),
}

impl View for PartialAssetVaultError {
    type V = PartialVaultFault;

    open spec fn view(&self) -> PartialVaultFault {
        match *self {
            PartialAssetVaultError::FailedToAddProof(err) => PartialVaultFault::FailedToAddProof(
                err@,
            ),
            PartialAssetVaultError::UntrackedAsset(err) => PartialVaultFault::UntrackedAsset(err@),
        }
    }
}

/// The ways in which a vault key can fail to be one that a partial tree tracks.
#[derive(Debug)]
pub enum TrackError {
    /// The partial tree does not track the hash of this vault key.
    UntrackedKey(AssetVaultKey, MerkleError),
    /// The value in the partial tree forms no asset with the vault key.
    InvalidAsset(AssetError),
}

/// The value of a [`TrackError`].
pub enum TrackFault {
    UntrackedKey(RawWord, MerkleFault),
    InvalidAsset(AssetFault),
}

impl View for TrackError {
    type V = TrackFault;

    open spec fn view(&self) -> TrackFault {
        match *self {
            TrackError::UntrackedKey(key, err) => TrackFault::UntrackedKey(key@, err@),
            TrackError::InvalidAsset(err) => TrackFault::InvalidAsset(err@),
        }
    }
}

// PARTIAL VAULT
// ================================================================================================

/// A part of an asset vault: proofs of a subset of its assets.
///
/// It gives access to some assets of a vault that can be verified against the root of the vault,
/// without the rest of the vault. All entries are present in the partial tree, under the hashes of
/// their vault keys. The partial tree may hold further pairs: keys whose hashes share a leaf come
/// together.
#[derive(Debug, PartialEq, Eq)]
pub struct PartialVault {
    partial_smt: PartialSmt,
    entries: KeyMap<Word>,
}

impl View for PartialVault {
    type V = PartialVaultState;

    closed spec fn view(&self) -> PartialVaultState {
        PartialVaultState { tree: self.partial_smt, entries: self.entries@ }
    }
}

impl PartialVault {
    /// Every entry has no value or forms an asset, all entries are present in the partial tree, and
    /// the leaves of the partial tree can be read.
    #[verifier::type_invariant]
    pub open spec fn well_formed(self) -> bool {
        &&& assets_or_empty(self@.entries)
        &&& entries_tracked(self@.tree, self@.entries)
        &&& readable_leaves(partial_leaves(self@.tree))
    }

    // CONSTRUCTORS
    // --------------------------------------------------------------------------------------------

    /// Creates a partial vault with the given root that has no entries.
    ///
    /// If it is the root of a vault without assets, every key is known to have no value. Otherwise
    /// no key is tracked.
    pub fn new(root: Word) -> (r: PartialVault)
        ensures
            rooted_at(r@, root@),
    {
        PartialVault { partial_smt: PartialSmt::new(export_word(&root)), entries: KeyMap::new() }
    }

    /// Creates a partial vault with the given witnesses.
    ///
    /// The leaves of the witnesses have to sit at the depth of the leaves, which
    /// [`AssetWitness::has_leaf_at_bottom`] tells.
    ///
    /// # Errors
    ///
    /// Returns an error if the witnesses do not all lead to the same root.
    pub fn with_witnesses(witnesses: Vec<AssetWitness>) -> (r: Result<
        PartialVault,
        PartialAssetVaultError,
    >)
        requires
            forall|i: int|
                0 <= i < witnesses@.len() ==> leaf_at_bottom((#[trigger] witnesses@[i])@.proof),
        ensures
            r is Ok <==> same_roots(witness_proofs(witnesses@)),
            r matches Ok(vault) ==> holds_witnesses(vault@, witnesses@),
            r matches Err(err) ==> exists|i: int|
                0 < i < witnesses@.len() && same_roots(witness_proofs(witnesses@).take(i))
                    && proof_root((#[trigger] witnesses@[i])@.proof) != proof_root(
                    witnesses@[0]@.proof,
                ) && err@ == PartialVaultFault::FailedToAddProof(
                    MerkleFault::ConflictingRoots {
                        expected_root: proof_root(witnesses@[0]@.proof),
                        actual_root: proof_root(witnesses@[i]@.proof),
                    },
                ),
    {
        let ghost all = witnesses@;
        let mut entries: KeyMap<Word> = KeyMap::new();
        let mut proofs: Vec<SmtProof> = Vec::new();
        assert(all.take(0) =~= Seq::empty());
        for witness in iter: witnesses
            invariant
                iter.seq() == all,
                entries@ == witness_entries_all(no_pairs(), all.take(iter.index())),
                assets_or_empty(entries@),
                proofs@ == witness_proofs(all.take(iter.index())),
                forall|i: int|
                    0 <= i < all.len() ==> leaf_at_bottom((#[trigger] all[i])@.proof),
                forall|i: int|
                    0 <= i < proofs@.len() ==> proof_leaf_readable(#[trigger] proofs@[i])
                        && leaf_at_bottom(proofs@[i]),
        {
            let ghost n = proofs@.len() as int;
            let ghost before = entries@;
            assert(witness == all[n]);
            assert(all.take(n + 1).drop_last() =~= all.take(n));
            let list = witness.entries();
            entries.extend(&list);
            proof {
                lemma_insert_listing(before, entry_values(list@), witness@.entries);
            }
            proofs.push(witness.into_proof());
            assert(proofs@ =~= witness_proofs(all.take(n + 1)));
        }
        assert(all.take(all.len() as int) =~= all);
        assert(proofs@ == witness_proofs(all));
        proof {
            lemma_proof_leaves(proofs@);
        }
        match partial_from_proofs(proofs) {
            Ok(partial_smt) => {
                let entries = PartialVault::present(&partial_smt, &entries);
                Ok(PartialVault { partial_smt, entries })
            },
            Err(err) => Err(PartialAssetVaultError::FailedToAddProof(import_merkle_error(&err))),
        }
    }

    /// Converts a vault into a partial vault with all its entries and all paths of its tree.
    pub fn new_full(vault: AssetVault) -> (r: PartialVault)
        ensures
            holds_all(r@, vault@),
    {
        let ghost state = vault@;
        let (asset_tree, entries) = vault.into_parts();
        let partial_smt = partial_from_smt(asset_tree);
        proof {
            lemma_full_entries_tracked(partial_smt, state);
        }
        PartialVault { partial_smt, entries }
    }

    /// Returns the entries that are present in a partial tree, under the hashes of their vault
    /// keys.
    fn present(partial_smt: &PartialSmt, entries: &KeyMap<Word>) -> (r: KeyMap<Word>)
        requires
            readable_leaves(partial_leaves(*partial_smt)),
        ensures
            r@ == present_entries(*partial_smt, entries@),
    {
        let list = entries.to_list();
        let ghost values = entry_values(list@);
        let mut rest: KeyMap<Word> = KeyMap::new();
        let mut i: usize = 0;
        assert(rest@ =~= present_entries(*partial_smt, insert_all(no_pairs(), values.take(0))));
        while i < list.len()
            invariant
                i <= list.len(),
                values == entry_values(list@),
                is_listing(values, entries@),
                readable_leaves(partial_leaves(*partial_smt)),
                rest@ == present_entries(
                    *partial_smt,
                    insert_all(no_pairs(), values.take(i as int)),
                ),
            decreases list.len() - i,
        {
            let key = list[i].0;
            let value = list[i].1;
            let ghost part = insert_all(no_pairs(), values.take(i as int));
            assert(values[i as int] == (key@, value@));
            assert(values.take(i + 1).drop_last() =~= values.take(i as int));
            proof {
                lemma_insert_all_dom(no_pairs(), values.take(i as int));
                assert(!part.contains_key(key@)) by {
                    if part.contains_key(key@) {
                        let j = choose|j: int|
                            0 <= j < i && (#[trigger] values.take(i as int)[j]).0 == key@;
                        assert(word_less(values[j].0, values[i as int].0));
                    }
                }
            }
            match partial_smt.get_value(&export_word(&key.to_smt_key())) {
                Ok(found) => {
                    if import_word(&found) == value {
                        rest.insert(key, value);
                    }
                },
                Err(_) => {},
            }
            assert(rest@ =~= present_entries(
                *partial_smt,
                insert_all(no_pairs(), values.take(i + 1)),
            ));
            i += 1;
        }
        assert(values.take(i as int) =~= values);
        proof {
            lemma_insert_listing(no_pairs(), values, entries@);
            assert(no_pairs().union_prefer_right(entries@) =~= entries@);
        }
        rest
    }

    /// Converts a vault into the smallest partial vault with its root: it has no entries.
    pub fn new_minimal(vault: &AssetVault) -> (r: PartialVault)
        ensures
            rooted_at(r@, smt_root(vault@.tree)),
    {
        PartialVault::new(vault.root())
    }

    /// Creates a partial vault with the given partial tree that has no entries. Entries are then
    /// added with [`PartialVault::track`].
    ///
    /// The leaves of the partial tree have to be readable, which [`has_readable_leaves`] tells.
    pub fn from_tree(partial_smt: PartialSmt) -> (r: PartialVault)
        requires
            readable_leaves(partial_leaves(partial_smt)),
        ensures
            r@.tree == partial_smt,
            r@.entries == no_pairs(),
    {
        PartialVault { partial_smt, entries: KeyMap::new() }
    }

    // ACCESSORS
    // --------------------------------------------------------------------------------------------

    /// Returns the root of the partial vault.
    pub fn root(&self) -> (r: Word)
        ensures
            r@ == partial_root(self@.tree),
    {
        import_word(&self.partial_smt.root())
    }

    /// Returns the partial tree.
    pub fn tree(&self) -> (r: &PartialSmt)
        ensures
            *r == self@.tree,
    {
        &self.partial_smt
    }

    /// Returns the inner nodes that the partial tree stores with their digests, in no particular
    /// order.
    pub fn inner_nodes(&self) -> (r: Vec<InnerNodeInfo>)
        ensures
            lists_nodes(node_values(r@), partial_inner(self@.tree)),
    {
        partial_inner_nodes(&self.partial_smt)
    }

    /// Returns the leaves that the partial tree stores, each with its position and its pairs, in no
    /// particular order.
    pub fn leaves(&self) -> (r: Vec<(u64, LeafContents)>)
        ensures
            lists_leaves(r@, partial_leaves(self@.tree)),
    {
        partial_leaf_list(&self.partial_smt)
    }

    /// Returns the entries of this partial vault by increasing vault key.
    pub fn entries(&self) -> (r: Vec<(AssetVaultKey, Word)>)
        ensures
            entry_values(r@) == listing(self@.entries),
            is_listing(entry_values(r@), self@.entries),
    {
        self.entries.to_list()
    }

    /// Returns a witness of the given vault key, with the value that the proof shows, which is the
    /// empty word if the asset is not in the vault.
    ///
    /// If this value forms no asset with the key, or if the partial tree was read with a leaf at
    /// another position than its own, the witness has no entry.
    ///
    /// # Errors
    ///
    /// Returns an error if the partial tree does not track the hash of the key.
    pub fn open(&self, vault_key: AssetVaultKey) -> (r: Result<
        AssetWitness,
        PartialAssetVaultError,
    >)
        ensures
            match r {
                Ok(witness) => {
                    &&& tracked_value(self@.tree, vault_key@) is Some
                    &&& partial_opens(self@, vault_key@, witness@)
                    &&& leaf_placed(partial_leaves(self@.tree), smt_key(vault_key@).3)
                        && track_fault(self@.tree, vault_key@) is None ==> witness@.entries
                        == no_pairs().insert(
                        vault_key@,
                        value_at(partial_values(self@.tree), smt_key(vault_key@)),
                    )
                    &&& leaf_placed(partial_leaves(self@.tree), smt_key(vault_key@).3)
                        ==> proof_root(witness@.proof) == partial_path_root(
                        self@.tree,
                        smt_key(vault_key@).3,
                    )
                    &&& track_fault(self@.tree, vault_key@) is None ==> tracked_value(
                        self@.tree,
                        vault_key@,
                    ) == Some(value_at(witness@.entries, vault_key@))
                    &&& entries_proved(witness@.proof, witness@.entries)
                },
                Err(err) => tracked_value(self@.tree, vault_key@) is None && err@
                    == PartialVaultFault::UntrackedAsset(
                    MerkleFault::UntrackedKey(smt_key(vault_key@)),
                ),
            },
    {
        proof {
            use_type_invariant(self);
        }
        let smt_proof = match self.partial_smt.open(&export_word(&vault_key.to_smt_key())) {
            Ok(smt_proof) => smt_proof,
            Err(err) => {
                return Err(PartialAssetVaultError::UntrackedAsset(import_merkle_error(&err)));
            },
        };
        proof {
            lemma_shown_value(self@.tree, smt_proof, smt_key(vault_key@));
            if leaf_placed(partial_leaves(self@.tree), smt_key(vault_key@).3) {
                lemma_shown_leaf(
                    self@.tree,
                    smt_key(vault_key@).3,
                    smt_proof,
                    smt_key(vault_key@),
                );
            }
        }
        Ok(AssetWitness::opening(smt_proof, vault_key))
    }

    /// Returns the asset with the given vault key, or nothing if it is known not to be in the
    /// vault.
    ///
    /// The value in the partial tree has to be empty or to form an asset with the key.
    /// [`PartialVault::try_get`] checks this.
    ///
    /// # Errors
    ///
    /// Returns an error if the partial tree does not track the hash of the key.
    pub fn get(&self, vault_key: AssetVaultKey) -> (r: Result<Option<Asset>, MerkleError>)
        requires
            tracked_value(self@.tree, vault_key@) matches Some(value) ==> value == empty_word()
                || valid_asset(vault_key@, value),
        ensures
            match r {
                Ok(Some(asset)) => {
                    &&& tracked_value(self@.tree, vault_key@) == Some(asset@.1)
                    &&& asset@.0 == vault_key@
                    &&& asset@.1 != empty_word()
                },
                Ok(None) => tracked_value(self@.tree, vault_key@) == Some(empty_word()),
                Err(err) => tracked_value(self@.tree, vault_key@) is None && err@
                    == MerkleFault::UntrackedKey(smt_key(vault_key@)),
            },
    {
        proof {
            use_type_invariant(self);
        }
        let value = match self.partial_smt.get_value(&export_word(&vault_key.to_smt_key())) {
            Ok(value) => import_word(&value),
            Err(err) => {
                return Err(import_merkle_error(&err));
            },
        };
        if value.is_empty() {
            Ok(None)
        } else {
            Ok(
                Some(
                    Asset::from_key_value(vault_key, value).expect(
                        "partial vault should only track valid assets",
                    ),
                ),
            )
        }
    }

    /// Returns the asset with the given vault key, or nothing if it is known not to be in the
    /// vault.
    ///
    /// # Errors
    ///
    /// Returns an error if the partial tree does not track the hash of the key, or if the value in
    /// it is not empty and forms no asset with the key.
    pub fn try_get(&self, vault_key: AssetVaultKey) -> (r: Result<Option<Asset>, TrackError>)
        ensures
            match r {
                Ok(Some(asset)) => {
                    &&& track_fault(self@.tree, vault_key@) is None
                    &&& tracked_value(self@.tree, vault_key@) == Some(asset@.1)
                    &&& asset@.0 == vault_key@
                    &&& asset@.1 != empty_word()
                },
                Ok(None) => tracked_value(self@.tree, vault_key@) == Some(empty_word()),
                Err(err) => track_fault(self@.tree, vault_key@) == Some(err@),
            },
    {
        match self.checked_value(vault_key) {
            Ok(_) => match self.get(vault_key) {
                Ok(asset) => Ok(asset),
                Err(err) => Err(TrackError::UntrackedKey(vault_key, err)),
            },
            Err(err) => Err(err),
        }
    }

    /// Returns the value that the partial tree has for the hash of a vault key, if it is empty or
    /// forms an asset with the key.
    fn checked_value(&self, vault_key: AssetVaultKey) -> (r: Result<Word, TrackError>)
        ensures
            match r {
                Ok(value) => {
                    &&& track_fault(self@.tree, vault_key@) is None
                    &&& tracked_value(self@.tree, vault_key@) == Some(value@)
                    &&& value@ == empty_word() || valid_asset(vault_key@, value@)
                },
                Err(err) => track_fault(self@.tree, vault_key@) == Some(err@),
            },
    {
        proof {
            use_type_invariant(self);
        }
        let value = match self.partial_smt.get_value(&export_word(&vault_key.to_smt_key())) {
            Ok(value) => import_word(&value),
            Err(err) => {
                return Err(TrackError::UntrackedKey(vault_key, import_merkle_error(&err)));
            },
        };
        if !value.is_empty() {
            match Asset::from_key_value(vault_key, value) {
                Ok(_) => {},
                Err(err) => {
                    return Err(TrackError::InvalidAsset(err));
                },
            }
        }
        Ok(value)
    }

    // MUTATORS
    // --------------------------------------------------------------------------------------------

    /// Adds a witness to this partial vault: its entries, and the leaf and the path of its proof.
    ///
    /// The leaf of the witness has to sit at the depth of the leaves, which
    /// [`AssetWitness::has_leaf_at_bottom`] tells.
    ///
    /// # Errors
    ///
    /// Returns an error, and changes nothing, if the witness leads to another root than that of
    /// this partial vault.
    pub fn add(&mut self, witness: AssetWitness) -> (r: Result<(), PartialAssetVaultError>)
        requires
            leaf_at_bottom(witness@.proof),
        ensures
            match r {
                Ok(_) => {
                    &&& proof_root(witness@.proof) == partial_root(old(self)@.tree)
                    &&& adds_witness(old(self)@, witness@, final(self)@)
                    &&& tracks_leaf(final(self)@.tree, proof_leaf(witness@.proof))
                },
                Err(err) => {
                    &&& proof_root(witness@.proof) != partial_root(old(self)@.tree)
                    &&& final(self)@ == old(self)@
                    &&& err@ == PartialVaultFault::FailedToAddProof(
                        MerkleFault::ConflictingRoots {
                            expected_root: partial_root(old(self)@.tree),
                            actual_root: proof_root(witness@.proof),
                        },
                    )
                },
            },
    {
        proof {
            use_type_invariant(&*self);
        }
        let list = witness.entries();
        let mut entries = self.entries.clone();
        entries.extend(&list);
        proof {
            lemma_insert_listing(old(self)@.entries, entry_values(list@), witness@.entries);
        }
        let smt_proof = witness.into_proof();
        let mut partial_smt = self.partial_smt.clone();
        match partial_smt.add_proof(smt_proof) {
            Ok(_) => {
                proof {
                    lemma_added_proof(old(self)@.tree, smt_proof, partial_smt);
                }
                let entries = PartialVault::present(&partial_smt, &entries);
                *self = PartialVault { partial_smt, entries };
                Ok(())
            },
            Err(err) => Err(PartialAssetVaultError::FailedToAddProof(import_merkle_error(&err))),
        }
    }

    /// Adds an entry for a vault key, with the value that the partial tree has for its hash.
    ///
    /// # Errors
    ///
    /// Returns an error, and changes nothing, if the partial tree does not track the hash of the
    /// key, or if the value is not empty and forms no asset with the key.
    pub fn track(&mut self, vault_key: AssetVaultKey) -> (r: Result<(), TrackError>)
        ensures
            final(self)@.tree == old(self)@.tree,
            match r {
                Ok(_) => {
                    &&& track_fault(old(self)@.tree, vault_key@) is None
                    &&& final(self)@.entries == old(self)@.entries.insert(
                        vault_key@,
                        tracked_value(old(self)@.tree, vault_key@)->0,
                    )
                },
                Err(err) => {
                    &&& track_fault(old(self)@.tree, vault_key@) == Some(err@)
                    &&& final(self)@.entries == old(self)@.entries
                },
            },
    {
        proof {
            use_type_invariant(&*self);
        }
        let value = match self.checked_value(vault_key) {
            Ok(value) => value,
            Err(err) => {
                return Err(err);
            },
        };
        let mut entries: KeyMap<Word> = KeyMap::new();
        std::mem::swap(&mut entries, &mut self.entries);
        entries.insert(vault_key, value);
        self.entries = entries;
        Ok(())
    }
}

impl Default for PartialVault {
    /// Creates the partial vault of a vault without assets.
    fn default() -> (r: PartialVault)
        ensures
            rooted_at(r@, empty_root()),
    {
        PartialVault::new_minimal(&AssetVault::default())
    }
}

impl Clone for PartialVault {
    fn clone(&self) -> (r: PartialVault)
        ensures
            r@ == self@,
    {
        proof {
            use_type_invariant(self);
        }
        PartialVault { partial_smt: self.partial_smt.clone(), entries: self.entries.clone() }
    }
}

} // verus!
