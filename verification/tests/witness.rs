use miden_crypto::hash::poseidon2::Poseidon2;
use miden_crypto::merkle::smt::{LeafIndex, Smt, SmtLeaf, SmtProof};
use miden_vault::account::AccountId;
use miden_vault::asset::{Asset, AssetError, FungibleAsset, NonFungibleAsset};
use miden_vault::merkle::{is_at_bottom, is_readable};
use miden_vault::vault::AssetVault;
use miden_vault::witness::AssetWitness;
use miden_vault::word::{Felt, Word};

const NETWORK_FUNGIBLE_FAUCET: (u64, u64) = (0xab00_0000_0000_0060, 0x1234_0000_0000_0100);
const PRIVATE_FUNGIBLE_FAUCET: (u64, u64) = (0xac00_0000_0000_00a0, 0x2345_0000_0000_0200);
const NON_FUNGIBLE_FAUCET: (u64, u64) = (0xad00_0000_0000_0030, 0x3456_0000_0000_0300);

fn account_id(id: (u64, u64)) -> AccountId {
    AccountId::try_from_elements(Felt::new(id.1), Felt::new(id.0)).unwrap()
}

fn from_crypto(w: miden_crypto::Word) -> Word {
    let e = w.into_elements();
    Word::new(
        Felt::new(e[0].as_canonical_u64()),
        Felt::new(e[1].as_canonical_u64()),
        Felt::new(e[2].as_canonical_u64()),
        Felt::new(e[3].as_canonical_u64()),
    )
}

fn to_crypto(w: &Word) -> miden_crypto::Word {
    miden_crypto::Word::new([
        miden_crypto::Felt::new(w.element(0).as_canonical_u64()),
        miden_crypto::Felt::new(w.element(1).as_canonical_u64()),
        miden_crypto::Felt::new(w.element(2).as_canonical_u64()),
        miden_crypto::Felt::new(w.element(3).as_canonical_u64()),
    ])
}

fn mock_fungible(amount: u64) -> FungibleAsset {
    FungibleAsset::new(account_id(PRIVATE_FUNGIBLE_FAUCET), amount).unwrap()
}

fn mock_non_fungible(data: &[u8]) -> NonFungibleAsset {
    let value = from_crypto(Poseidon2::hash(data));
    NonFungibleAsset::from_parts(account_id(NON_FUNGIBLE_FAUCET), value).unwrap()
}

/// A non-fungible value under a fungible vault key is refused.
#[test]
fn create_asset_witness_fails_on_vault_key_mismatch() {
    let fungible_asset = mock_fungible(500);
    let non_fungible_asset = mock_non_fungible(&[1]);

    let fungible_key = fungible_asset.vault_key();
    let inconsistent_smt = Smt::with_entries([(
        to_crypto(&fungible_key.to_smt_key()),
        to_crypto(&non_fungible_asset.to_value_word()),
    )])
    .unwrap();
    let proof = inconsistent_smt.open(&to_crypto(&fungible_key.to_smt_key()));

    let err = AssetWitness::new(proof, vec![fungible_key]).unwrap_err();

    match err {
        AssetError::AssetWitnessInvalid(source) => assert!(matches!(
            *source,
            AssetError::FungibleAssetValueMostSignificantElementsMustBeZero(_)
        )),
        other => panic!("unexpected error: {other:?}"),
    }
}

/// A vault key whose hash is not in the leaf of the proof is refused.
#[test]
fn create_asset_witness_fails_on_missing_key() {
    let asset_in_vault = FungibleAsset::new(account_id(NETWORK_FUNGIBLE_FAUCET), 200).unwrap();
    let other_key =
        FungibleAsset::new(account_id(PRIVATE_FUNGIBLE_FAUCET), 100).unwrap().vault_key();

    let vault = AssetVault::new(&[Asset::Fungible(asset_in_vault)]).unwrap();
    let proof = vault.open(asset_in_vault.vault_key()).smt_proof().clone();

    let err = AssetWitness::new(proof, vec![other_key]).unwrap_err();
    match err {
        AssetError::AssetWitnessMissingKey { key } => assert_eq!(key, other_key),
        other => panic!("unexpected error: {other:?}"),
    }
}

#[test]
fn asset_witness_authenticates_asset_vault_key() {
    let fungible_asset0 = FungibleAsset::new(account_id(NETWORK_FUNGIBLE_FAUCET), 200).unwrap();
    let fungible_asset1 = FungibleAsset::new(account_id(PRIVATE_FUNGIBLE_FAUCET), 100).unwrap();

    let vault = AssetVault::new(&[Asset::Fungible(fungible_asset0)]).unwrap();
    let witness0 = vault.open(fungible_asset0.vault_key());

    assert!(witness0.authenticates_asset_vault_key(fungible_asset0.vault_key()));
    assert!(!witness0.authenticates_asset_vault_key(fungible_asset1.vault_key()));
}

#[test]
fn opening_of_a_present_asset() {
    let asset = mock_fungible(500);
    let vault =
        AssetVault::new(&[Asset::Fungible(asset), Asset::NonFungible(mock_non_fungible(&[1]))])
            .unwrap();
    let witness = vault.open(asset.vault_key());
    assert_eq!(witness.find(asset.vault_key()), Some(Asset::Fungible(asset)));
    assert_eq!(witness.assets(), vec![Asset::Fungible(asset)]);
    assert_eq!(witness.entries(), vec![(asset.vault_key(), asset.to_value_word())]);
    assert_eq!(from_crypto(witness.smt_proof().compute_root()), vault.root());

    let again = AssetWitness::new(witness.clone().into_proof(), vec![asset.vault_key()]).unwrap();
    assert_eq!(again.entries(), witness.entries());
}

#[test]
fn opening_of_an_absent_asset() {
    let absent = mock_fungible(500);
    let vault = AssetVault::new(&[Asset::NonFungible(mock_non_fungible(&[1]))]).unwrap();
    let witness = vault.open(absent.vault_key());
    assert_eq!(witness.find(absent.vault_key()), None);
    assert!(witness.assets().is_empty());
    assert_eq!(witness.entries(), vec![(absent.vault_key(), Word::empty())]);
    assert!(witness.authenticates_asset_vault_key(absent.vault_key()));
    assert_eq!(from_crypto(witness.smt_proof().compute_root()), vault.root());
}

#[test]
fn authenticated_nodes_lead_to_the_root() {
    let asset = mock_fungible(500);
    let vault =
        AssetVault::new(&[Asset::Fungible(asset), Asset::NonFungible(mock_non_fungible(&[1]))])
            .unwrap();
    let nodes = vault.open(asset.vault_key()).authenticated_nodes();
    assert_eq!(nodes.len(), 64);
    assert_eq!(nodes[63].value, vault.root());
    for (child, parent) in nodes.iter().zip(nodes.iter().skip(1)) {
        assert!(parent.left == child.value || parent.right == child.value);
        let expected = Poseidon2::merge(&[to_crypto(&parent.left), to_crypto(&parent.right)]);
        assert_eq!(parent.value, from_crypto(expected));
    }
}

#[test]
fn unchecked_witness_tracks_the_given_entries() {
    let asset = mock_fungible(500);
    let vault = AssetVault::new(&[Asset::Fungible(asset)]).unwrap();
    let proof = vault.open(asset.vault_key()).into_proof();
    let witness =
        AssetWitness::new_unchecked(proof, vec![(asset.vault_key(), asset.to_value_word())]);
    assert_eq!(witness.assets(), vec![Asset::Fungible(asset)]);
    assert_eq!(witness.entries(), vec![(asset.vault_key(), asset.to_value_word())]);
    let absent = mock_non_fungible(&[2]);
    assert_eq!(witness.find(absent.vault_key()), None);

    let proof = vault.open(absent.vault_key()).into_proof();
    let witness =
        AssetWitness::new_unchecked(proof, vec![(absent.vault_key(), Word::empty())]);
    assert!(witness.assets().is_empty());
    assert_eq!(witness.entries().len(), 1);
}

/// A leaf without pairs can be made with another depth than that of the leaves. It belongs to no key.
#[test]
fn leaves_of_another_depth_are_told_apart() {
    let vault = AssetVault::default();
    let key = mock_fungible(1).vault_key();
    let witness = vault.open(key);
    assert!(witness.has_leaf_at_bottom());
    assert!(is_at_bottom(witness.smt_proof()));
    let (path, _) = witness.into_proof().into_parts();
    let leaf = SmtLeaf::new_empty(LeafIndex::default());
    let zero = miden_crypto::Word::default();
    let proof = SmtProof::new(path, leaf).unwrap();
    assert!(is_readable(&proof));
    assert!(!is_at_bottom(&proof));
    assert_eq!(proof.get(&zero), None);
    let err = AssetWitness::new(proof.clone(), vec![key]).unwrap_err();
    assert!(matches!(err, AssetError::AssetWitnessMissingKey { .. }));
    let witness = AssetWitness::new(proof, vec![]).unwrap();
    assert!(!witness.has_leaf_at_bottom());
    assert!(!witness.authenticates_asset_vault_key(key));
}

/// A leaf that is meant for several pairs and holds none has no position.
#[test]
fn unreadable_leaves_are_told_apart() {
    let vault = AssetVault::default();
    let proof = vault.open(mock_fungible(1).vault_key()).into_proof();
    assert!(is_readable(&proof));
    let (path, _) = proof.into_parts();
    let unreadable = SmtProof::new(path, SmtLeaf::Multiple(vec![])).unwrap();
    assert!(!is_readable(&unreadable));
}

#[test]
fn witness_is_rebuilt_from_its_keys() {
    let vault = AssetVault::new(&[Asset::Fungible(mock_fungible(500))]).unwrap();
    let key = mock_fungible(0).vault_key();
    let witness = AssetWitness::new(vault.open(key).into_proof(), vec![key, key]).unwrap();
    let keys = witness.entries().into_iter().map(|(key, _)| key).collect();
    let rebuilt = AssetWitness::new(witness.smt_proof().clone(), keys).unwrap();
    assert_eq!(rebuilt.entries(), witness.entries());
    assert_eq!(rebuilt.entries(), vec![(key, mock_fungible(500).to_value_word())]);
}

/// Checks that a path starts at a leaf with the given digest and position and climbs to the root.
fn assert_climbs(witness: &AssetWitness, digest: Word, position: u64, root: Word) {
    let mut digest = digest;
    let mut position = position;
    for node in witness.authenticated_nodes() {
        let child = if position % 2 == 0 { node.left } else { node.right };
        assert_eq!(child, digest);
        let expected = Poseidon2::merge(&[to_crypto(&node.left), to_crypto(&node.right)]);
        assert_eq!(node.value, from_crypto(expected));
        digest = node.value;
        position /= 2;
    }
    assert_eq!(position, 0);
    assert_eq!(digest, root);
}

fn digest_of(entries: &[(Word, Word)]) -> Word {
    let mut elements = Vec::new();
    for (key, value) in entries {
        elements.extend(to_crypto(key).into_elements());
        elements.extend(to_crypto(value).into_elements());
    }
    from_crypto(Poseidon2::hash_elements(&elements))
}

#[test]
fn paths_climb_from_the_digest_of_the_leaf() {
    let asset = mock_fungible(500);
    let vault =
        AssetVault::new(&[Asset::Fungible(asset), Asset::NonFungible(mock_non_fungible(&[1]))])
            .unwrap();
    let key = asset.vault_key();
    let digest = digest_of(&[(key.to_smt_key(), asset.to_value_word())]);
    assert_climbs(&vault.open(key), digest, key.to_leaf_index(), vault.root());

    let absent = mock_non_fungible(&[2]).vault_key();
    assert_climbs(&vault.open(absent), Word::empty(), absent.to_leaf_index(), vault.root());
}

#[test]
fn paths_climb_from_a_leaf_with_several_pairs() {
    let word = |a: u64, d: u64| {
        Word::new(Felt::new(a), Felt::new(0), Felt::new(0), Felt::new(d))
    };
    let entries = [(word(1, 6), word(10, 0)), (word(2, 6), word(20, 0)), (word(3, 6), word(30, 0))];
    let tree = Smt::with_entries(
        entries.iter().rev().map(|(key, value)| (to_crypto(key), to_crypto(value))),
    )
    .unwrap();
    let proof = tree.open(&to_crypto(&word(2, 6)));
    let witness = AssetWitness::new(proof, vec![]).unwrap();
    assert_climbs(&witness, digest_of(&entries), 6, from_crypto(tree.root()));
}
