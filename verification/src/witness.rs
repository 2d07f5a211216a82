//! Witnesses of assets in a vault.
use vstd::prelude::*;

use miden_crypto::merkle::smt::SmtProof;

use crate::asset::{asset_fault, asset_values, valid_asset, Asset, AssetError, AssetFault};
use crate::hash::{export_word, import_word};
use crate::key_map::{entry_values, insert_all, is_listing, lemma_insert_one, listing, KeyMap};
use crate::merkle::{
    is_at_bottom, leaf_at_bottom, no_pairs, node_values, proof_leaf, proof_leaf_index,
    proof_leaf_readable, proof_nodes, proof_path_nodes, proof_root, proof_value, value_at,
    InnerNodeInfo,
};
use crate::paths::SMT_DEPTH;
use crate::vault_key::{smt_key, AssetVaultKey};
use crate::witness_laws::lemma_listed_assets;
use crate::word::{empty_word, RawWord, Word};

verus! {

// MODEL
// ================================================================================================

/// The value of a witness: its proof, and the entries that it tracks by vault key.
pub struct WitnessState {
    pub proof: SmtProof,
    pub entries: Map<RawWord, RawWord>,
}

/// Every entry has no value or forms an asset.
pub open spec fn assets_or_empty(entries: Map<RawWord, RawWord>) -> bool {
    forall|k: RawWord| #[trigger]
        entries.contains_key(k) ==> entries[k] == empty_word() || valid_asset(k, entries[k])
}

/// All entries are present in the proof, under the hashes of their keys.
pub open spec fn entries_proved(proof: SmtProof, entries: Map<RawWord, RawWord>) -> bool {
    forall|k: RawWord| #[trigger]
        entries.contains_key(k) ==> proof_value(proof, smt_key(k)) == Some(entries[k])
}

/// What is wrong with a vault key as one that a proof covers, if anything: its hash belongs to
/// another leaf, or the value is no asset.
pub open spec fn witness_fault(proof: SmtProof, key: RawWord) -> Option<AssetFault> {
    match proof_value(proof, smt_key(key)) {
        None => Some(AssetFault::AssetWitnessMissingKey { key }),
        Some(value) => if value == empty_word() {
            None
        } else {
            match asset_fault(key, value) {
                None => None,
                Some(fault) => Some(AssetFault::AssetWitnessInvalid(Box::new(fault))),
            }
        },
    }
}

/// The entries that a proof gives to a list of vault keys, or what is wrong with the first key that
/// it does not cover.
pub open spec fn witness_entries(proof: SmtProof, keys: Seq<RawWord>) -> Result<
    Map<RawWord, RawWord>,
    AssetFault,
>
    decreases keys.len(),
{
    if keys.len() == 0 {
        Ok(no_pairs())
    } else {
        match witness_entries(proof, keys.drop_last()) {
            Err(fault) => Err(fault),
            Ok(entries) => match witness_fault(proof, keys.last()) {
                Some(fault) => Err(fault),
                None => Ok(
                    entries.insert(keys.last(), proof_value(proof, smt_key(keys.last()))->0),
                ),
            },
        }
    }
}

/// The entry of a witness that shows a vault key: the value that the proof gives to the hash of the
/// key. There is none if the value forms no asset with the key, or if the proof shows another leaf.
pub open spec fn opened_entries(proof: SmtProof, key: RawWord) -> Map<RawWord, RawWord> {
    if witness_fault(proof, key) is None {
        no_pairs().insert(key, proof_value(proof, smt_key(key))->0)
    } else {
        no_pairs()
    }
}

/// The words of a list of vault keys.
pub open spec fn key_words(keys: Seq<AssetVaultKey>) -> Seq<RawWord> {
    Seq::new(keys.len(), |i: int| keys[i]@)
}

/// The pairs of a list that have a value.
pub open spec fn with_value(list: Seq<(RawWord, RawWord)>) -> Seq<(RawWord, RawWord)> {
    list.filter(|entry: (RawWord, RawWord)| entry.1 != empty_word())
}

// ASSET WITNESS
// ================================================================================================

/// A witness of an asset in an asset vault: it proves that a certain asset is in the vault.
///
/// All entries are present in the proof, under the hashes of their vault keys. The proof may hold
/// further pairs: keys whose hashes share a leaf come together.
#[derive(Debug, PartialEq, Eq)]
pub struct AssetWitness {
    proof: SmtProof,
    entries: KeyMap<Word>,
}

impl View for AssetWitness {
    type V = WitnessState;

    closed spec fn view(&self) -> WitnessState {
        WitnessState { proof: self.proof, entries: self.entries@ }
    }
}

impl AssetWitness {
    /// The leaf of the proof has a position, every entry has no value or forms an asset, and all
    /// entries are present in the proof.
    #[verifier::type_invariant]
    pub open spec fn well_formed(self) -> bool {
        &&& proof_leaf_readable(self@.proof)
        &&& assets_or_empty(self@.entries)
        &&& entries_proved(self@.proof, self@.entries)
    }

    /// Creates a witness from a proof and a list of vault keys, whose values are looked up in the
    /// proof.
    ///
    /// # Errors
    ///
    /// Returns an error for the first key whose hash does not belong to the leaf of the proof, or
    /// whose value is not empty and forms no asset with it.
    pub fn new(proof: SmtProof, keys: Vec<AssetVaultKey>) -> (r: Result<AssetWitness, AssetError>)
        requires
            proof_leaf_readable(proof),
        ensures
            match r {
                Ok(witness) => {
                    &&& witness@.proof == proof
                    &&& witness_entries(proof, key_words(keys@)) == Ok::<_, AssetFault>(
                        witness@.entries,
                    )
                    &&& entries_proved(proof, witness@.entries)
                },
                Err(err) => witness_entries(proof, key_words(keys@)) == Err::<
                    Map<RawWord, RawWord>,
                    _,
                >(err@),
            },
    {
        let ghost words = key_words(keys@);
        let mut entries: KeyMap<Word> = KeyMap::new();
        let mut i: usize = 0;
        assert(words.take(0) =~= Seq::empty());
        while i < keys.len()
            invariant
                i <= keys.len(),
                words == key_words(keys@),
                proof_leaf_readable(proof),
                witness_entries(proof, words.take(i as int)) == Ok::<_, AssetFault>(entries@),
                assets_or_empty(entries@),
                entries_proved(proof, entries@),
            decreases keys.len() - i,
        {
            let key = keys[i];
            let word = key.to_word();
            assert(words.take(i + 1).drop_last() =~= words.take(i as int));
            assert(words.take(i + 1).last() == key@);
            let value = match proof.get(&export_word(&key.to_smt_key())) {
                Some(value) => import_word(&value),
                None => {
                    proof {
                        lemma_first_fault(proof, words, i as int);
                    }
                    return Err(AssetError::AssetWitnessMissingKey { key });
                },
            };
            if !value.is_empty() {
                match Asset::from_key_value(key, value) {
                    Ok(_) => {},
                    Err(err) => {
                        proof {
                            lemma_first_fault(proof, words, i as int);
                        }
                        return Err(AssetError::AssetWitnessInvalid(Box::new(err)));
                    },
                }
            }
            entries.insert(key, value);
            i += 1;
        }
        assert(words.take(i as int) =~= words);
        Ok(AssetWitness { proof, entries })
    }

    /// Creates a witness from a proof and a list of entries, without looking into the proof.
    ///
    /// The caller has to know that the proof gives these values to the hashes of the keys, and that
    /// every value is empty or forms an asset with its key. Prefer [`AssetWitness::new`].
    pub fn new_unchecked(proof: SmtProof, key_values: Vec<(AssetVaultKey, Word)>) -> (r: AssetWitness)
        requires
            proof_leaf_readable(proof),
            assets_or_empty(insert_all(no_pairs(), entry_values(key_values@))),
            entries_proved(proof, insert_all(no_pairs(), entry_values(key_values@))),
        ensures
            r@.proof == proof,
            r@.entries == insert_all(no_pairs(), entry_values(key_values@)),
    {
        let mut entries: KeyMap<Word> = KeyMap::new();
        entries.extend(&key_values);
        AssetWitness { proof, entries }
    }

    /// Creates a witness from a proof and a vault key, whose value is looked up in the proof. If
    /// the value forms no asset with the key, or if the proof shows another leaf, the witness has
    /// no entry.
    pub(crate) fn opening(proof: SmtProof, vault_key: AssetVaultKey) -> (r: AssetWitness)
        requires
            proof_leaf_readable(proof),
        ensures
            r@.proof == proof,
            r@.entries == opened_entries(proof, vault_key@),
    {
        let value = match proof.get(&export_word(&vault_key.to_smt_key())) {
            Some(value) => import_word(&value),
            None => {
                return AssetWitness::new_unchecked(proof, Vec::new());
            },
        };
        let fits = value.is_empty() || Asset::from_key_value(vault_key, value).is_ok();
        let mut key_values: Vec<(AssetVaultKey, Word)> = Vec::new();
        if fits {
            key_values.push((vault_key, value));
            proof {
                lemma_insert_one(no_pairs(), entry_values(key_values@));
            }
        }
        AssetWitness::new_unchecked(proof, key_values)
    }

    /// Returns the proof.
    pub fn smt_proof(&self) -> (r: &SmtProof)
        ensures
            *r == self@.proof,
            proof_leaf_readable(*r),
    {
        proof {
            use_type_invariant(self);
        }
        &self.proof
    }

    /// Returns true if this witness authenticates the vault key: its hash belongs to the leaf of
    /// the proof.
    pub fn authenticates_asset_vault_key(&self, vault_key: AssetVaultKey) -> (r: bool)
        ensures
            r == (proof_value(self@.proof, smt_key(vault_key@)) is Some),
            r == (leaf_at_bottom(self@.proof) && proof_leaf(self@.proof) == smt_key(vault_key@).3),
    {
        proof {
            use_type_invariant(self);
        }
        is_at_bottom(&self.proof) && proof_leaf_index(&self.proof) == vault_key.to_leaf_index()
    }

    /// Returns true if the leaf of the proof sits at the depth of the leaves, so that the witness
    /// can be added to a partial vault. Every witness that was opened in a vault is such.
    pub fn has_leaf_at_bottom(&self) -> (r: bool)
        ensures
            r == leaf_at_bottom(self@.proof),
    {
        proof {
            use_type_invariant(self);
        }
        is_at_bottom(&self.proof)
    }

    /// Returns the asset with the given vault key, if this witness tracks one.
    pub fn find(&self, vault_key: AssetVaultKey) -> (r: Option<Asset>)
        ensures
            match r {
                Some(asset) => {
                    &&& self@.entries.contains_key(vault_key@)
                    &&& self@.entries[vault_key@] != empty_word()
                    &&& asset@ == (vault_key@, self@.entries[vault_key@])
                },
                None => value_at(self@.entries, vault_key@) == empty_word(),
            },
    {
        proof {
            use_type_invariant(self);
        }
        match self.entries.get(&vault_key) {
            None => None,
            Some(value) => if value.is_empty() {
                None
            } else {
                Some(
                    Asset::from_key_value(vault_key, value).expect(
                        "asset witness should track valid assets",
                    ),
                )
            },
        }
    }

    /// Returns the assets of this witness by increasing vault key. Entries without a value are left
    /// out.
    pub fn assets(&self) -> (r: Vec<Asset>)
        ensures
            asset_values(r@) == with_value(listing(self@.entries)),
            forall|k: RawWord, v: RawWord| #[trigger]
                asset_values(r@).contains((k, v)) <==> self@.entries.contains_key(k)
                    && self@.entries[k] == v && v != empty_word(),
    {
        proof {
            use_type_invariant(self);
        }
        let list = self.entries.to_list();
        let ghost values = entry_values(list@);
        let mut assets: Vec<Asset> = Vec::new();
        let mut i: usize = 0;
        assert(asset_values(assets@) =~= with_value(values.take(0)));
        while i < list.len()
            invariant
                i <= list.len(),
                values == entry_values(list@),
                values == listing(self@.entries),
                is_listing(values, self@.entries),
                assets_or_empty(self@.entries),
                asset_values(assets@) == with_value(values.take(i as int)),
            decreases list.len() - i,
        {
            let key = list[i].0;
            let value = list[i].1;
            assert(values[i as int] == (key@, value@));
            assert(self@.entries.contains_key(values[i as int].0));
            assert(values.take(i + 1) =~= values.take(i as int).push(values[i as int]));
            let ghost has_value = |entry: (RawWord, RawWord)| entry.1 != empty_word();
            proof {
                values.take(i as int).lemma_filter_push(values[i as int], has_value);
            }
            if !value.is_empty() {
                let asset = Asset::from_key_value(key, value).expect(
                    "asset witness should track valid assets",
                );
                let ghost before = assets@;
                assets.push(asset);
                assert(asset_values(assets@) =~= asset_values(before).push(asset@));
            }
            i += 1;
        }
        assert(values.take(i as int) =~= values);
        proof {
            lemma_listed_assets(values, self@.entries);
        }
        assets
    }

    /// Returns the entries of this witness by increasing vault key.
    pub fn entries(&self) -> (r: Vec<(AssetVaultKey, Word)>)
        ensures
            entry_values(r@) == listing(self@.entries),
            is_listing(entry_values(r@), self@.entries),
            assets_or_empty(self@.entries),
            entries_proved(self@.proof, self@.entries),
    {
        proof {
            use_type_invariant(self);
        }
        self.entries.to_list()
    }

    /// Returns the inner nodes on the path of the proof with their digests, from the parent of the
    /// leaf to the root.
    pub fn authenticated_nodes(&self) -> (r: Vec<InnerNodeInfo>)
        ensures
            node_values(r@) == proof_nodes(self@.proof),
            r@.len() == SMT_DEPTH,
            r@.last().value@ == proof_root(self@.proof),
    {
        proof {
            use_type_invariant(self);
        }
        let nodes = proof_path_nodes(&self.proof);
        assert(node_values(nodes@).len() == SMT_DEPTH);
        assert(node_values(nodes@)[SMT_DEPTH - 1] == proof_nodes(self@.proof)[SMT_DEPTH - 1]);
        nodes
    }

    /// Returns the proof and drops the entries.
    pub fn into_proof(self) -> (r: SmtProof)
        ensures
            r == self@.proof,
            proof_leaf_readable(r),
    {
        proof {
            use_type_invariant(&self);
        }
        self.proof
    }
}

impl Clone for AssetWitness {
    fn clone(&self) -> (r: AssetWitness)
        ensures
            r@ == self@,
    {
        proof {
            use_type_invariant(self);
        }
        AssetWitness { proof: self.proof.clone(), entries: self.entries.clone() }
    }
}

/// Once a key of a list is at fault, so is the list.
proof fn lemma_first_fault(proof: SmtProof, keys: Seq<RawWord>, i: int)
    requires
        0 <= i < keys.len(),
        witness_entries(proof, keys.take(i)) is Ok,
        witness_fault(proof, keys[i]) is Some,
    ensures
        witness_entries(proof, keys) == Err::<Map<RawWord, RawWord>, _>(
            witness_fault(proof, keys[i])->0,
        ),
    decreases keys.len() - i,
{
    lemma_fault_stays(proof, keys, i + 1);
    assert(keys.take(i + 1).drop_last() =~= keys.take(i));
}

/// What is wrong with a part of a list is wrong with the whole.
proof fn lemma_fault_stays(proof: SmtProof, keys: Seq<RawWord>, n: int)
    requires
        0 <= n <= keys.len(),
    ensures
        witness_entries(proof, keys.take(n)) is Err ==> witness_entries(proof, keys)
            == witness_entries(proof, keys.take(n)),
    decreases keys.len(),
{
    if n == keys.len() {
        assert(keys.take(n) =~= keys);
    } else {
        lemma_fault_stays(proof, keys.drop_last(), n);
        assert(keys.drop_last().take(n) =~= keys.take(n));
    }
}

} // verus!
