use miden_crypto::hash::poseidon2::Poseidon2;
use miden_crypto::merkle::smt::Smt;
use miden_vault::account::AccountId;
use miden_vault::asset::{Asset, AssetError, FungibleAsset, NonFungibleAsset};
use miden_vault::merkle::{has_readable_leaves, MerkleError};
use miden_vault::partial_vault::{PartialAssetVaultError, PartialVault, TrackError};
use miden_vault::vault::AssetVault;
use miden_vault::vault_key::AssetVaultKey;
use miden_vault::witness::AssetWitness;
use miden_vault::word::{Felt, Word};

const PRIVATE_FUNGIBLE_FAUCET: (u64, u64) = (0xac00_0000_0000_00a0, 0x2345_0000_0000_0200);
const NON_FUNGIBLE_FAUCET: (u64, u64) = (0xad00_0000_0000_0030, 0x3456_0000_0000_0300);

fn account_id(id: (u64, u64)) -> AccountId {
    AccountId::try_from_elements(Felt::new(id.1), Felt::new(id.0)).unwrap()
}

fn from_crypto(w: miden_crypto::Word) -> Word {
    let e = w.into_elements();
    Word::new(
        Felt::new(e[0].as_canonical_u64()),
        Felt::new(e[1].as_canonical_u64()),
        Felt::new(e[2].as_canonical_u64()),
        Felt::new(e[3].as_canonical_u64()),
    )
}

fn to_crypto(w: &Word) -> miden_crypto::Word {
    miden_crypto::Word::new([
        miden_crypto::Felt::new(w.element(0).as_canonical_u64()),
        miden_crypto::Felt::new(w.element(1).as_canonical_u64()),
        miden_crypto::Felt::new(w.element(2).as_canonical_u64()),
        miden_crypto::Felt::new(w.element(3).as_canonical_u64()),
    ])
}

fn mock_fungible(amount: u64) -> FungibleAsset {
    FungibleAsset::new(account_id(PRIVATE_FUNGIBLE_FAUCET), amount).unwrap()
}

fn mock_non_fungible(data: &[u8]) -> NonFungibleAsset {
    let value = from_crypto(Poseidon2::hash(data));
    NonFungibleAsset::from_parts(account_id(NON_FUNGIBLE_FAUCET), value).unwrap()
}

fn mock_vault() -> AssetVault {
    AssetVault::new(&[
        Asset::Fungible(mock_fungible(500)),
        Asset::NonFungible(mock_non_fungible(&[1])),
        Asset::NonFungible(mock_non_fungible(&[2])),
    ])
    .unwrap()
}

/// A witness whose proof has a value that is no asset.
fn inconsistent_witness() -> AssetWitness {
    let key = mock_fungible(1).vault_key();
    let tree = Smt::with_entries([(
        to_crypto(&key.to_smt_key()),
        to_crypto(&mock_non_fungible(&[1]).to_value_word()),
    )])
    .unwrap();
    let proof = tree.open(&to_crypto(&key.to_smt_key()));
    AssetWitness::new(proof, vec![]).unwrap()
}

#[test]
fn partial_vault_open_returns_correct_asset_after_full_conversion() {
    let asset = mock_fungible(500);
    let vault = AssetVault::new(&[Asset::Fungible(asset)]).unwrap();
    let partial = PartialVault::new_full(vault.clone());

    let key = asset.vault_key();
    let witness = partial.open(key).unwrap();

    assert!(witness.authenticates_asset_vault_key(key));
    assert_eq!(witness.find(key), Some(Asset::Fungible(asset)));
    assert_eq!(partial.root(), vault.root());
}

#[test]
fn partial_vault_open_fails_for_untracked_key() {
    let asset = mock_fungible(500);
    let vault = AssetVault::new(&[Asset::Fungible(asset)]).unwrap();
    let partial = PartialVault::new_minimal(&vault);

    let err = partial.open(asset.vault_key()).unwrap_err();
    assert!(matches!(err, PartialAssetVaultError::UntrackedAsset(_)));
}

#[test]
fn full_conversion_opens_like_the_vault() {
    let vault = mock_vault();
    let partial = PartialVault::new_full(vault.clone());
    let absent = mock_non_fungible(&[3]);
    for key in [mock_fungible(0).vault_key(), mock_non_fungible(&[2]).vault_key(), absent.vault_key()] {
        let expected = vault.open(key);
        let witness = partial.open(key).unwrap();
        assert_eq!(witness.entries(), expected.entries());
        assert_eq!(witness.smt_proof().compute_root(), expected.smt_proof().compute_root());
        assert_eq!(partial.get(key).unwrap(), vault.get(key));
    }
    assert_eq!(partial.entries().len(), 3);
    assert_eq!(partial.leaves().len(), vault.num_leaves());
    assert_eq!(partial.inner_nodes().len(), vault.inner_nodes().len());
    for (position, leaf) in partial.leaves() {
        assert!(!leaf.is_empty);
        for (key, _) in leaf.entries {
            assert_eq!(key.element(3).as_canonical_u64(), position);
        }
    }
}

#[test]
fn minimal_conversion_tracks_nothing() {
    let vault = mock_vault();
    let partial = PartialVault::new_minimal(&vault);
    assert_eq!(partial.root(), vault.root());
    assert!(partial.entries().is_empty());
    assert!(partial.leaves().is_empty());
    assert!(partial.inner_nodes().is_empty());
    let key = mock_fungible(0).vault_key();
    let err = partial.get(key).unwrap_err();
    assert!(matches!(err, MerkleError::UntrackedKey(w) if w == key.to_smt_key()));
}

/// Of a vault without assets everything is known.
#[test]
fn empty_vault_tracks_everything() {
    let partial = PartialVault::default();
    assert_eq!(partial.root(), AssetVault::default().root());
    let key = mock_fungible(0).vault_key();
    assert_eq!(partial.get(key).unwrap(), None);
    assert_eq!(partial.open(key).unwrap().find(key), None);
}

#[test]
fn witness_of_the_vault_fits() {
    let vault = mock_vault();
    let mut partial = PartialVault::new_minimal(&vault);
    let asset = mock_fungible(500);
    let key = asset.vault_key();
    partial.add(vault.open(key)).unwrap();
    assert_eq!(partial.get(key).unwrap(), Some(Asset::Fungible(asset)));
    assert_eq!(partial.entries(), vec![(key, asset.to_value_word())]);
    let witness = partial.open(key).unwrap();
    assert_eq!(from_crypto(witness.smt_proof().compute_root()), vault.root());

    let absent = mock_non_fungible(&[9]).vault_key();
    partial.add(vault.open(absent)).unwrap();
    assert_eq!(partial.get(absent).unwrap(), None);
    assert_eq!(partial.get(key).unwrap(), Some(Asset::Fungible(asset)));
    assert_eq!(partial.root(), vault.root());
    assert_eq!(partial.leaves().len(), 1);
    assert_eq!(partial.leaves()[0].0, key.to_leaf_index());
    assert_eq!(partial.leaves()[0].1.entries, vec![(key.to_smt_key(), asset.to_value_word())]);
}

#[test]
fn witness_of_another_vault_does_not_fit() {
    let vault = mock_vault();
    let other = AssetVault::new(&[Asset::Fungible(mock_fungible(1))]).unwrap();
    let mut partial = PartialVault::new_minimal(&vault);
    let key = mock_fungible(0).vault_key();
    let err = partial.add(other.open(key)).unwrap_err();
    assert!(matches!(
        err,
        PartialAssetVaultError::FailedToAddProof(MerkleError::ConflictingRoots {
            expected_root,
            actual_root,
        }) if expected_root == vault.root() && actual_root == other.root()
    ));
    assert_eq!(partial.root(), vault.root());
    assert!(partial.entries().is_empty());
    assert!(partial.leaves().is_empty());
    assert!(partial.inner_nodes().is_empty());
    assert!(partial.get(key).is_err());

    partial.add(vault.open(key)).unwrap();
    let entries = partial.entries();
    assert!(partial.add(other.open(key)).is_err());
    assert_eq!(partial.entries(), entries);
    assert_opens_like(&partial, &vault, key);
}

/// A witness without entries brings its leaf along, and an opening shows what the leaf holds.
#[test]
fn opening_shows_the_value_of_the_proof() {
    let vault = mock_vault();
    let asset = mock_fungible(500);
    let key = asset.vault_key();
    let bare = AssetWitness::new(vault.open(key).into_proof(), vec![]).unwrap();
    let partial = PartialVault::with_witnesses(vec![bare]).unwrap();
    assert!(partial.entries().is_empty());
    assert_eq!(partial.get(key).unwrap(), Some(Asset::Fungible(asset)));
    let witness = partial.open(key).unwrap();
    assert_eq!(witness.find(key), Some(Asset::Fungible(asset)));
    assert_eq!(witness.entries(), vec![(key, asset.to_value_word())]);
    assert_opens_like(&partial, &vault, key);
}

/// A value that forms no asset with the key is no entry of an opening.
#[test]
fn opening_has_no_entry_for_a_value_that_is_no_asset() {
    let key = mock_fungible(1).vault_key();
    let partial = PartialVault::with_witnesses(vec![inconsistent_witness()]).unwrap();
    let witness = partial.open(key).unwrap();
    assert!(witness.entries().is_empty());
    assert!(witness.authenticates_asset_vault_key(key));
}

#[test]
fn witnesses_of_one_vault_make_a_partial_vault() {
    let vault = mock_vault();
    let keys = [mock_fungible(0).vault_key(), mock_non_fungible(&[2]).vault_key()];
    let witnesses = keys.iter().map(|key| vault.open(*key)).collect();
    let partial = PartialVault::with_witnesses(witnesses).unwrap();
    assert_eq!(partial.root(), vault.root());
    for key in keys {
        assert_eq!(partial.get(key).unwrap(), vault.get(key));
        assert_eq!(
            from_crypto(partial.open(key).unwrap().smt_proof().compute_root()),
            vault.root()
        );
    }
    assert!(PartialVault::with_witnesses(vec![]).unwrap().entries().is_empty());

    let other = AssetVault::default();
    let mixed = vec![vault.open(keys[0]), other.open(keys[0])];
    let err = PartialVault::with_witnesses(mixed).unwrap_err();
    assert!(matches!(
        err,
        PartialAssetVaultError::FailedToAddProof(MerkleError::ConflictingRoots {
            expected_root,
            actual_root,
        }) if expected_root == vault.root() && actual_root == other.root()
    ));
}

/// Witnesses with and without entries, and two of one leaf, leave all their entries behind.
#[test]
fn witnesses_lose_no_entry() {
    let vault = mock_vault();
    let keys = mixed_keys();
    let mut witnesses: Vec<AssetWitness> = keys.iter().map(|key| vault.open(*key)).collect();
    for key in &keys {
        witnesses.push(AssetWitness::new(vault.open(*key).into_proof(), vec![]).unwrap());
    }
    witnesses.push(vault.open(keys[0]));
    let mut expected: Vec<(AssetVaultKey, Word)> = Vec::new();
    for witness in &witnesses {
        for entry in witness.entries() {
            if !expected.contains(&entry) {
                expected.push(entry);
            }
        }
    }
    assert_eq!(expected.len(), keys.len());
    let partial = PartialVault::with_witnesses(witnesses).unwrap();
    assert_eq!(partial.entries().len(), expected.len());
    for entry in expected {
        assert!(partial.entries().contains(&entry));
    }
    for key in keys {
        assert_opens_like(&partial, &vault, key);
    }
}

#[test]
fn partial_vaults_and_witnesses_are_compared() {
    let vault = mock_vault();
    let key = mock_fungible(0).vault_key();
    let other = mock_non_fungible(&[2]).vault_key();
    assert_eq!(vault.open(key), vault.open(key));
    assert_ne!(vault.open(key), vault.open(other));
    assert_eq!(PartialVault::new_full(vault.clone()), PartialVault::new_full(vault.clone()));
    assert_ne!(PartialVault::new_full(vault.clone()), PartialVault::new_minimal(&vault));
}

#[test]
fn keys_are_tracked_with_their_values() {
    let vault = mock_vault();
    let asset = mock_fungible(500);
    let full = PartialVault::new_full(vault.clone());
    assert!(has_readable_leaves(full.tree()));
    let mut partial = PartialVault::from_tree(full.tree().clone());
    assert!(partial.entries().is_empty());
    partial.track(asset.vault_key()).unwrap();
    let absent = mock_non_fungible(&[7]).vault_key();
    partial.track(absent).unwrap();
    assert_eq!(partial.entries().len(), 2);
    assert_eq!(
        partial.open(asset.vault_key()).unwrap().find(asset.vault_key()),
        Some(Asset::Fungible(asset))
    );

    let mut minimal = PartialVault::new_minimal(&vault);
    let err = minimal.track(asset.vault_key()).unwrap_err();
    assert!(matches!(
        err,
        TrackError::UntrackedKey(key, MerkleError::UntrackedKey(w))
            if key == asset.vault_key() && w == key.to_smt_key()
    ));
    assert!(minimal.entries().is_empty());
}

#[test]
fn values_that_are_no_assets_are_refused() {
    let key = mock_fungible(1).vault_key();
    let mut partial = PartialVault::with_witnesses(vec![inconsistent_witness()]).unwrap();
    let err = partial.try_get(key).unwrap_err();
    assert!(matches!(
        err,
        TrackError::InvalidAsset(AssetError::FungibleAssetValueMostSignificantElementsMustBeZero(_))
    ));
    let err = partial.track(key).unwrap_err();
    assert!(matches!(err, TrackError::InvalidAsset(_)));
    assert!(partial.entries().is_empty());

    let vault = mock_vault();
    let full = PartialVault::new_full(vault.clone());
    assert_eq!(full.try_get(key).unwrap(), vault.get(key));
    assert_eq!(full.try_get(mock_non_fungible(&[7]).vault_key()).unwrap(), None);
    assert!(PartialVault::new_minimal(&vault).try_get(key).is_err());
}

#[test]
fn partial_vault_is_rebuilt_from_its_keys() {
    let vault = mock_vault();
    let mut partial = PartialVault::new_full(vault.clone());
    partial.add(vault.open(mock_non_fungible(&[9]).vault_key())).unwrap();
    let mut rebuilt = PartialVault::from_tree(partial.tree().clone());
    for (key, _) in partial.entries() {
        rebuilt.track(key).unwrap();
    }
    assert_eq!(rebuilt.entries(), partial.entries());
    assert_eq!(rebuilt.entries().len(), 4);
    assert_eq!(rebuilt.root(), vault.root());
    assert_eq!(partial.clone().entries(), partial.entries());
}

/// Keys of assets in the vault and of assets that are not.
fn mixed_keys() -> Vec<AssetVaultKey> {
    vec![
        mock_non_fungible(&[7]).vault_key(),
        mock_fungible(0).vault_key(),
        mock_non_fungible(&[8]).vault_key(),
        mock_non_fungible(&[2]).vault_key(),
        mock_non_fungible(&[9]).vault_key(),
    ]
}

fn assert_opens_like(partial: &PartialVault, vault: &AssetVault, key: AssetVaultKey) {
    assert_eq!(partial.get(key).unwrap(), vault.get(key));
    let witness = partial.open(key).unwrap();
    assert!(witness.authenticates_asset_vault_key(key));
    assert_eq!(witness.entries(), vault.open(key).entries());
    assert_eq!(from_crypto(witness.smt_proof().compute_root()), vault.root());
    assert_eq!(witness.smt_proof().path(), vault.open(key).smt_proof().path());
}

#[test]
fn added_witnesses_stay_open() {
    let vault = mock_vault();
    let keys = mixed_keys();
    let mut partial = PartialVault::new_minimal(&vault);
    for (i, key) in keys.iter().enumerate() {
        partial.add(vault.open(*key)).unwrap();
        for earlier in &keys[..=i] {
            assert_opens_like(&partial, &vault, *earlier);
        }
    }
    let partial =
        PartialVault::with_witnesses(keys.iter().map(|key| vault.open(*key)).collect()).unwrap();
    for key in keys {
        assert_opens_like(&partial, &vault, key);
    }
}

/// Of the nodes on a path, those of empty subtrees are not stored.
#[test]
fn inner_nodes_of_a_witness_are_stored() {
    let vault = mock_vault();
    for key in mixed_keys() {
        let witness = vault.open(key);
        let mut expected = Vec::new();
        let mut empty = Word::empty();
        for node in witness.authenticated_nodes() {
            if node.left != empty || node.right != empty {
                expected.push((node.value, node.left, node.right));
            }
            empty = from_crypto(Poseidon2::merge(&[to_crypto(&empty), to_crypto(&empty)]));
        }
        let partial = PartialVault::with_witnesses(vec![witness]).unwrap();
        let stored = partial.inner_nodes();
        assert_eq!(stored.len(), expected.len());
        for node in stored {
            assert!(expected.contains(&(node.value, node.left, node.right)));
        }
    }
}

/// A key without a value is known to have none as soon as an inner node above it shows an empty subtree.
#[test]
fn keys_of_empty_subtrees_are_tracked() {
    let vault = mock_vault();
    let key = mock_fungible(0).vault_key();
    let partial = PartialVault::with_witnesses(vec![vault.open(key)]).unwrap();
    let present = mock_non_fungible(&[2]).vault_key();
    assert!(partial.get(present).is_err());
    let mut known: usize = 0;
    for i in 10..60 {
        let absent = mock_non_fungible(&[i]).vault_key();
        if partial.get(absent).is_ok() {
            assert_opens_like_absent(&partial, absent);
            known += 1;
        }
    }
    assert!(known > 0);
}

fn assert_opens_like_absent(partial: &PartialVault, key: AssetVaultKey) {
    assert_eq!(partial.get(key).unwrap(), None);
    let witness = partial.open(key).unwrap();
    assert_eq!(from_crypto(witness.smt_proof().compute_root()), partial.root());
}
