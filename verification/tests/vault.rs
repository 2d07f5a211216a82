use miden_crypto::hash::poseidon2::Poseidon2;
use miden_crypto::merkle::smt::Smt;
use miden_vault::account::AccountId;
use miden_vault::asset::{Asset, AssetError, FungibleAsset, NonFungibleAsset, MAX_AMOUNT};
use miden_vault::delta::{AccountDeltaError, AccountVaultDelta, NonFungibleDeltaAction};
use miden_vault::merkle::MerkleError;
use miden_vault::vault::{AssetVault, AssetVaultError};
use miden_vault::vault_key::{AssetCallbackFlag, AssetId, AssetVaultKey, VaultKeyError};
use miden_vault::word::{Felt, Word};

const NETWORK_FUNGIBLE_FAUCET: (u64, u64) = (0xab00_0000_0000_0060, 0x1234_0000_0000_0100);
const PRIVATE_FUNGIBLE_FAUCET: (u64, u64) = (0xac00_0000_0000_00a0, 0x2345_0000_0000_0200);
const NON_FUNGIBLE_FAUCET: (u64, u64) = (0xad00_0000_0000_0030, 0x3456_0000_0000_0300);
const REGULAR_ACCOUNT: (u64, u64) = (0xae00_0000_0000_0010, 0x4567_0000_0000_0400);

fn account_id(id: (u64, u64)) -> AccountId {
    AccountId::try_from_elements(Felt::new(id.1), Felt::new(id.0)).unwrap()
}

fn word(elements: [u64; 4]) -> Word {
    Word::new(
        Felt::new(elements[0]),
        Felt::new(elements[1]),
        Felt::new(elements[2]),
        Felt::new(elements[3]),
    )
}

fn from_crypto(w: miden_crypto::Word) -> Word {
    let e = w.into_elements();
    word([
        e[0].as_canonical_u64(),
        e[1].as_canonical_u64(),
        e[2].as_canonical_u64(),
        e[3].as_canonical_u64(),
    ])
}

fn to_crypto(w: &Word) -> miden_crypto::Word {
    miden_crypto::Word::new([
        miden_crypto::Felt::new(w.element(0).as_canonical_u64()),
        miden_crypto::Felt::new(w.element(1).as_canonical_u64()),
        miden_crypto::Felt::new(w.element(2).as_canonical_u64()),
        miden_crypto::Felt::new(w.element(3).as_canonical_u64()),
    ])
}

fn mock_fungible(amount: u64) -> FungibleAsset {
    FungibleAsset::new(account_id(PRIVATE_FUNGIBLE_FAUCET), amount).unwrap()
}

fn mock_non_fungible(data: &[u8]) -> NonFungibleAsset {
    let value = from_crypto(Poseidon2::hash(data));
    NonFungibleAsset::from_parts(account_id(NON_FUNGIBLE_FAUCET), value).unwrap()
}

fn root_of(assets: &[Asset]) -> Word {
    let tree = Smt::with_entries(
        assets
            .iter()
            .map(|a| (to_crypto(&a.vault_key().to_smt_key()), to_crypto(&a.to_value_word()))),
    )
    .unwrap();
    from_crypto(tree.root())
}

#[test]
fn vault_fails_on_absent_fungible_asset() {
    let mut vault = AssetVault::default();
    let err = vault.remove_asset(Asset::Fungible(mock_fungible(50))).unwrap_err();
    assert!(matches!(err, AssetVaultError::FungibleAssetNotFound(_)));
}

/// The raw keys of two non-fungible assets of one faucet share the elements that would select the
/// leaf. Their hashes do not.
#[test]
fn two_non_fungible_assets_from_same_faucet_use_different_leaves() {
    let asset0 = mock_non_fungible(&[1, 2, 3]);
    let asset1 = mock_non_fungible(&[4, 5, 6]);

    assert_eq!(asset0.vault_key().faucet_id(), asset1.vault_key().faucet_id());
    assert_ne!(asset0.vault_key(), asset1.vault_key());

    assert_eq!(asset0.vault_key().to_word().element(2), asset1.vault_key().to_word().element(2));
    assert_eq!(asset0.vault_key().to_word().element(3), asset1.vault_key().to_word().element(3));

    assert_ne!(asset0.vault_key().to_leaf_index(), asset1.vault_key().to_leaf_index());

    let vault = AssetVault::new(&[Asset::NonFungible(asset0), Asset::NonFungible(asset1)]).unwrap();
    assert_eq!(vault.num_leaves(), 2);
    assert_eq!(vault.num_assets(), 2);
}

#[test]
fn vault_key_layout() {
    let asset = mock_fungible(7).with_callbacks(AssetCallbackFlag::Enabled);
    let key = asset.vault_key();
    assert_eq!(key.to_word(), word([0, 0, 0x2345_0000_0000_0201, 0xac00_0000_0000_00a0]));
    assert_eq!(key.callback_flag(), AssetCallbackFlag::Enabled);
    assert_eq!(key.faucet_id(), account_id(PRIVATE_FUNGIBLE_FAUCET));
    assert_eq!(asset.to_value_word(), word([7, 0, 0, 0]));
    let elements: Vec<miden_crypto::Felt> =
        to_crypto(&key.to_word()).into_elements().into_iter().collect();
    assert_eq!(key.to_smt_key(), from_crypto(Poseidon2::hash_elements(&elements)));
    assert_eq!(key.to_leaf_index(), key.to_smt_key().element(3).as_canonical_u64());
}

#[test]
fn vault_keys_are_decoded() {
    let key = mock_non_fungible(&[9]).vault_key();
    assert_eq!(AssetVaultKey::try_from_word(key.to_word()).unwrap(), key);

    let flag = word([0, 0, 0x2345_0000_0000_0202, 0xac00_0000_0000_00a0]);
    let err = AssetVaultKey::try_from_word(flag).unwrap_err();
    assert!(matches!(err, VaultKeyError::UnknownCallbackFlag(2)));

    let version = word([0, 0, 0x2345_0000_0000_0200, 0xac00_0000_0000_00a1]);
    let err = AssetVaultKey::try_from_word(version).unwrap_err();
    assert!(matches!(err, VaultKeyError::InvalidFaucetAccountId(_)));

    let regular = word([0, 0, REGULAR_ACCOUNT.1, REGULAR_ACCOUNT.0]);
    let err = AssetVaultKey::try_from_word(regular).unwrap_err();
    assert!(matches!(err, VaultKeyError::NotAFaucetId(id) if id == account_id(REGULAR_ACCOUNT)));

    let id = word([1, 0, 0x2345_0000_0000_0200, 0xac00_0000_0000_00a0]);
    let err = AssetVaultKey::try_from_word(id).unwrap_err();
    assert!(matches!(err, VaultKeyError::FungibleAssetIdMustBeZero(_)));

    let fungible = AssetVaultKey::new_fungible(account_id(NETWORK_FUNGIBLE_FAUCET)).unwrap();
    assert_eq!(
        fungible,
        AssetVaultKey::new(
            AssetId::new(Felt::zero(), Felt::zero()),
            account_id(NETWORK_FUNGIBLE_FAUCET),
            AssetCallbackFlag::Disabled,
        )
        .unwrap()
    );
    assert!(AssetVaultKey::new_fungible(account_id(NON_FUNGIBLE_FAUCET)).is_err());
}

#[test]
fn assets_are_checked() {
    let err = FungibleAsset::new(account_id(NON_FUNGIBLE_FAUCET), 1).unwrap_err();
    assert!(matches!(err, AssetError::FungibleFaucetIdTypeMismatch(_)));
    assert!(FungibleAsset::new(account_id(PRIVATE_FUNGIBLE_FAUCET), MAX_AMOUNT).is_ok());
    let err = FungibleAsset::new(account_id(PRIVATE_FUNGIBLE_FAUCET), MAX_AMOUNT + 1).unwrap_err();
    assert!(matches!(err, AssetError::FungibleAssetAmountTooBig(a) if a == MAX_AMOUNT + 1));
    let err = NonFungibleAsset::from_parts(account_id(PRIVATE_FUNGIBLE_FAUCET), word([1, 2, 3, 4]))
        .unwrap_err();
    assert!(matches!(err, AssetError::NonFungibleFaucetIdTypeMismatch(_)));

    let non_fungible = mock_non_fungible(&[1]);
    let err = Asset::from_key_value(non_fungible.vault_key(), word([1, 2, 3, 4])).unwrap_err();
    assert!(matches!(err, AssetError::NonFungibleAssetIdMustMatchValue { .. }));
    let err = FungibleAsset::from_key_value(non_fungible.vault_key(), word([1, 0, 0, 0])).unwrap_err();
    assert!(matches!(err, AssetError::FungibleAssetIdMustBeZero(_)));
    let err = Asset::from_key_value(mock_fungible(1).vault_key(), word([1, 0, 0, 1])).unwrap_err();
    assert!(matches!(err, AssetError::FungibleAssetValueMostSignificantElementsMustBeZero(_)));

    let with_callbacks = mock_fungible(1).with_callbacks(AssetCallbackFlag::Enabled);
    let err = mock_fungible(1).add(with_callbacks).unwrap_err();
    assert!(matches!(err, AssetError::FungibleAssetInconsistentVaultKeys { .. }));
    assert!(mock_fungible(1).sub(with_callbacks).is_err());
}

#[test]
fn vault_root_is_that_of_the_tree() {
    let assets = [
        Asset::Fungible(mock_fungible(500)),
        Asset::NonFungible(mock_non_fungible(&[1])),
        Asset::NonFungible(mock_non_fungible(&[2])),
    ];
    let vault = AssetVault::new(&assets).unwrap();
    assert_eq!(vault.root(), root_of(&assets));
    assert!(!vault.is_empty());
    assert_eq!(AssetVault::DEPTH, 64);

    let empty = AssetVault::default();
    assert!(empty.is_empty());
    assert_eq!(empty.root(), from_crypto(Smt::new().root()));
    assert_eq!(empty.num_assets(), 0);
    assert_eq!(empty.num_leaves(), 0);
    assert!(empty.inner_nodes().is_empty());
}

#[test]
fn order_of_assets_is_irrelevant() {
    let a = Asset::Fungible(mock_fungible(500));
    let b = Asset::NonFungible(mock_non_fungible(&[1]));
    let c = Asset::NonFungible(mock_non_fungible(&[2]));
    let first = AssetVault::new(&[a, b, c]).unwrap();
    let second = AssetVault::new(&[c, a, b]).unwrap();
    assert_eq!(first.root(), second.root());
    assert_eq!(first.assets(), second.assets());
}

#[test]
fn assets_are_listed_by_increasing_key() {
    let a = Asset::Fungible(FungibleAsset::new(account_id(NETWORK_FUNGIBLE_FAUCET), 1).unwrap());
    let b = Asset::Fungible(mock_fungible(2));
    let c = Asset::NonFungible(mock_non_fungible(&[3]));
    let vault = AssetVault::new(&[c, b, a]).unwrap();
    assert_eq!(vault.assets(), vec![a, b, c]);
}

#[test]
fn vault_is_rebuilt_from_its_assets() {
    let mut vault = AssetVault::new(&[Asset::NonFungible(mock_non_fungible(&[1]))]).unwrap();
    vault.add_asset(Asset::Fungible(mock_fungible(12))).unwrap();
    vault.add_asset(Asset::NonFungible(mock_non_fungible(&[2]))).unwrap();
    let assets = vault.assets();
    let rebuilt = AssetVault::new(&assets).unwrap();
    assert_eq!(rebuilt.root(), vault.root());
    assert_eq!(rebuilt.assets(), assets);
    assert_eq!(vault.num_assets(), assets.len());
}

#[test]
fn duplicate_assets_are_refused() {
    let err = AssetVault::new(&[Asset::Fungible(mock_fungible(1)), Asset::Fungible(mock_fungible(2))])
        .unwrap_err();
    let index = mock_fungible(1).vault_key().to_leaf_index();
    assert!(matches!(
        err,
        AssetVaultError::DuplicateAsset(MerkleError::DuplicateValuesForIndex(i)) if i == index
    ));
}

#[test]
fn amounts_are_added_and_subtracted() {
    let mut vault = AssetVault::default();
    let faucet = account_id(PRIVATE_FUNGIBLE_FAUCET);
    let total = vault.add_asset(Asset::Fungible(mock_fungible(30))).unwrap();
    assert_eq!(total, Asset::Fungible(mock_fungible(30)));
    let total = vault.add_asset(Asset::Fungible(mock_fungible(12))).unwrap();
    assert_eq!(total, Asset::Fungible(mock_fungible(42)));
    assert_eq!(vault.get_balance(faucet).unwrap(), 42);
    assert_eq!(vault.get(mock_fungible(0).vault_key()), Some(Asset::Fungible(mock_fungible(42))));

    let rest = vault.remove_asset(Asset::Fungible(mock_fungible(40))).unwrap();
    assert_eq!(rest, Some(Asset::Fungible(mock_fungible(2))));
    let err = vault.remove_asset(Asset::Fungible(mock_fungible(3))).unwrap_err();
    assert!(matches!(
        err,
        AssetVaultError::SubtractFungibleAssetBalanceError(
            AssetError::FungibleAssetAmountNotSufficient { minuend: 2, subtrahend: 3 }
        )
    ));
    assert_eq!(vault.get_balance(faucet).unwrap(), 2);
    let rest = vault.remove_asset(Asset::Fungible(mock_fungible(2))).unwrap();
    assert_eq!(rest, Some(Asset::Fungible(mock_fungible(0))));
    assert!(vault.is_empty());
    assert!(vault.assets().is_empty());
    assert_eq!(vault.get(mock_fungible(0).vault_key()), None);
}

#[test]
fn amounts_have_a_limit() {
    let mut vault = AssetVault::new(&[Asset::Fungible(mock_fungible(MAX_AMOUNT))]).unwrap();
    let root = vault.root();
    let err = vault.add_asset(Asset::Fungible(mock_fungible(1))).unwrap_err();
    assert!(matches!(
        err,
        AssetVaultError::AddFungibleAssetBalanceError(AssetError::FungibleAssetAmountTooBig(a))
            if a == MAX_AMOUNT + 1
    ));
    assert_eq!(vault.root(), root);
}

#[test]
fn callbacks_have_a_key_of_their_own() {
    let mut vault = AssetVault::default();
    let with_callbacks = mock_fungible(5).with_callbacks(AssetCallbackFlag::Enabled);
    vault.add_asset(Asset::Fungible(with_callbacks)).unwrap();
    assert_eq!(vault.get_balance(account_id(PRIVATE_FUNGIBLE_FAUCET)).unwrap(), 0);
    assert_eq!(vault.get(with_callbacks.vault_key()), Some(Asset::Fungible(with_callbacks)));
    let err = vault.get_balance(account_id(NON_FUNGIBLE_FAUCET)).unwrap_err();
    assert!(matches!(
        err,
        AssetVaultError::NotAFungibleFaucetId(id) if id == account_id(NON_FUNGIBLE_FAUCET)
    ));
}

#[test]
fn non_fungible_assets_are_added_once() {
    let mut vault = AssetVault::default();
    let asset = mock_non_fungible(&[1, 2, 3]);
    assert!(!vault.has_non_fungible_asset(asset).unwrap());
    let added = vault.add_asset(Asset::NonFungible(asset)).unwrap();
    assert_eq!(added, Asset::NonFungible(asset));
    assert!(vault.has_non_fungible_asset(asset).unwrap());
    let root = vault.root();
    let err = vault.add_asset(Asset::NonFungible(asset)).unwrap_err();
    assert!(matches!(err, AssetVaultError::DuplicateNonFungibleAsset(a) if a == asset));
    assert_eq!(vault.root(), root);
    assert_eq!(vault.remove_asset(Asset::NonFungible(asset)).unwrap(), None);
    assert!(vault.is_empty());
    let err = vault.remove_asset(Asset::NonFungible(asset)).unwrap_err();
    assert!(matches!(err, AssetVaultError::NonFungibleAssetNotFound(a) if a == asset));
}

/// The key of a non-fungible asset has only half of its value. Adding another asset with the same key
/// is refused, but its value is in the vault afterwards.
#[test]
fn refused_non_fungible_asset_replaces_the_value() {
    let faucet = account_id(NON_FUNGIBLE_FAUCET);
    let first = NonFungibleAsset::from_parts(faucet, word([1, 2, 3, 4])).unwrap();
    let second = NonFungibleAsset::from_parts(faucet, word([1, 2, 5, 6])).unwrap();
    let mut vault = AssetVault::new(&[Asset::NonFungible(first)]).unwrap();
    let err = vault.add_asset(Asset::NonFungible(second)).unwrap_err();
    assert!(matches!(err, AssetVaultError::DuplicateNonFungibleAsset(a) if a == second));
    assert_eq!(vault.get(first.vault_key()), Some(Asset::NonFungible(second)));
    assert_eq!(vault.root(), root_of(&[Asset::NonFungible(second)]));
    assert!(vault.has_non_fungible_asset(second).unwrap());
    assert!(!vault.has_non_fungible_asset(first).unwrap());
}

#[test]
fn removing_undoes_adding() {
    let mut vault = AssetVault::new(&[
        Asset::Fungible(mock_fungible(10)),
        Asset::NonFungible(mock_non_fungible(&[7])),
    ])
    .unwrap();
    let root = vault.root();
    let assets = vault.assets();
    for asset in [
        Asset::Fungible(mock_fungible(32)),
        Asset::NonFungible(mock_non_fungible(&[8])),
        Asset::Fungible(FungibleAsset::new(account_id(NETWORK_FUNGIBLE_FAUCET), 1).unwrap()),
    ] {
        vault.add_asset(asset).unwrap();
        assert_ne!(vault.root(), root);
        vault.remove_asset(asset).unwrap();
        assert_eq!(vault.root(), root);
        assert_eq!(vault.assets(), assets);
    }
}

/// An asset of amount zero leaves no trace in a vault that is built with it.
#[test]
fn amount_zero_is_no_entry() {
    let zero = mock_fungible(0);
    let mut vault = AssetVault::new(&[Asset::Fungible(zero)]).unwrap();
    assert!(vault.is_empty());
    assert_eq!(vault.num_assets(), 0);
    assert!(vault.assets().is_empty());
    assert_eq!(vault.get(zero.vault_key()), None);
    assert_eq!(vault.root(), AssetVault::default().root());
    let err = vault.remove_asset(Asset::Fungible(zero)).unwrap_err();
    assert!(matches!(err, AssetVaultError::FungibleAssetNotFound(a) if a == zero));
    vault.add_asset(Asset::Fungible(zero)).unwrap();
    assert!(vault.assets().is_empty());

    let kept = Asset::NonFungible(mock_non_fungible(&[1]));
    let vault = AssetVault::new(&[Asset::Fungible(zero), kept]).unwrap();
    assert_eq!(vault.assets(), vec![kept]);
    assert_eq!(vault.num_assets(), 1);
}

#[test]
fn adding_one_by_one_builds_the_vault() {
    let a = Asset::Fungible(mock_fungible(500));
    let b = Asset::NonFungible(mock_non_fungible(&[1]));
    let c = Asset::NonFungible(mock_non_fungible(&[2]));
    let built = AssetVault::new(&[a, b, c]).unwrap();
    for order in [[a, b, c], [c, b, a], [b, a, c]] {
        let mut vault = AssetVault::default();
        for asset in order {
            assert_eq!(vault.add_asset(asset).unwrap(), asset);
        }
        assert_eq!(vault.assets(), built.assets());
        assert_eq!(vault.root(), built.root());
        assert_eq!(vault.num_assets(), 3);
    }
}

#[test]
fn inverse_delta_restores_the_vault() {
    let gone = mock_non_fungible(&[1]);
    let new = mock_non_fungible(&[2]);
    let network = FungibleAsset::new(account_id(NETWORK_FUNGIBLE_FAUCET), 70).unwrap();
    let mut vault = AssetVault::new(&[
        Asset::Fungible(mock_fungible(500)),
        Asset::Fungible(network),
        Asset::NonFungible(gone),
    ])
    .unwrap();
    let assets = vault.assets();
    let root = vault.root();
    let delta = AccountVaultDelta::new()
        .set_fungible(mock_fungible(0).vault_key(), 30)
        .unwrap()
        .set_fungible(network.vault_key(), -70)
        .unwrap()
        .set_non_fungible(gone, NonFungibleDeltaAction::Remove)
        .set_non_fungible(new, NonFungibleDeltaAction::Add);
    let inverse = AccountVaultDelta::new()
        .set_fungible(mock_fungible(0).vault_key(), -30)
        .unwrap()
        .set_fungible(network.vault_key(), 70)
        .unwrap()
        .set_non_fungible(gone, NonFungibleDeltaAction::Add)
        .set_non_fungible(new, NonFungibleDeltaAction::Remove);
    vault.apply_delta(&delta).unwrap();
    assert_ne!(vault.root(), root);
    vault.apply_delta(&inverse).unwrap();
    assert_eq!(vault.assets(), assets);
    assert_eq!(vault.root(), root);
}

#[test]
fn inner_nodes_hash_their_children() {
    let vault = AssetVault::new(&[
        Asset::Fungible(mock_fungible(500)),
        Asset::NonFungible(mock_non_fungible(&[1])),
    ])
    .unwrap();
    let nodes = vault.inner_nodes();
    assert!(nodes.len() >= 64);
    assert!(nodes.iter().any(|node| node.value == vault.root()));
    for node in nodes {
        let expected = Poseidon2::merge(&[to_crypto(&node.left), to_crypto(&node.right)]);
        assert_eq!(node.value, from_crypto(expected));

        let mut elements = to_crypto(&node.left).into_elements().to_vec();
        elements.extend(to_crypto(&node.right).into_elements());
        assert_eq!(node.value, from_crypto(Poseidon2::hash_elements(&elements)));
    }
}

#[test]
fn delta_is_applied() {
    let kept = mock_non_fungible(&[1]);
    let gone = mock_non_fungible(&[2]);
    let new = mock_non_fungible(&[3]);
    let other = FungibleAsset::new(account_id(NETWORK_FUNGIBLE_FAUCET), 7).unwrap();
    let mut vault = AssetVault::new(&[
        Asset::Fungible(mock_fungible(10)),
        Asset::NonFungible(kept),
        Asset::NonFungible(gone),
    ])
    .unwrap();
    let delta = AccountVaultDelta::new()
        .set_fungible(mock_fungible(0).vault_key(), -4)
        .unwrap()
        .set_fungible(other.vault_key(), 7)
        .unwrap()
        .set_non_fungible(gone, NonFungibleDeltaAction::Remove)
        .set_non_fungible(new, NonFungibleDeltaAction::Add);
    vault.apply_delta(&delta).unwrap();
    assert_eq!(vault.get_balance(account_id(PRIVATE_FUNGIBLE_FAUCET)).unwrap(), 6);
    assert_eq!(vault.get_balance(account_id(NETWORK_FUNGIBLE_FAUCET)).unwrap(), 7);
    assert!(vault.has_non_fungible_asset(kept).unwrap());
    assert!(!vault.has_non_fungible_asset(gone).unwrap());
    assert!(vault.has_non_fungible_asset(new).unwrap());
    assert_eq!(
        vault.root(),
        root_of(&[
            Asset::Fungible(mock_fungible(6)),
            Asset::Fungible(other),
            Asset::NonFungible(kept),
            Asset::NonFungible(new),
        ])
    );
}

#[test]
fn delta_with_callbacks_uses_their_key() {
    let key = mock_fungible(0).with_callbacks(AssetCallbackFlag::Enabled).vault_key();
    let delta = AccountVaultDelta::new().set_fungible(key, 9).unwrap();
    let mut vault = AssetVault::default();
    vault.apply_delta(&delta).unwrap();
    assert_eq!(vault.get(key).unwrap().to_value_word(), word([9, 0, 0, 0]));
    assert_eq!(vault.get_balance(account_id(PRIVATE_FUNGIBLE_FAUCET)).unwrap(), 0);
}

#[test]
fn delta_stops_at_the_first_failure() {
    let absent = mock_non_fungible(&[1]);
    let mut vault = AssetVault::default();
    let delta = AccountVaultDelta::new()
        .set_fungible(mock_fungible(0).vault_key(), 5)
        .unwrap()
        .set_non_fungible(absent, NonFungibleDeltaAction::Remove);
    let err = vault.apply_delta(&delta).unwrap_err();
    assert!(matches!(err, AssetVaultError::NonFungibleAssetNotFound(a) if a == absent));
    assert_eq!(vault.get_balance(account_id(PRIVATE_FUNGIBLE_FAUCET)).unwrap(), 5);

    let delta =
        AccountVaultDelta::new().set_fungible(mock_fungible(0).vault_key(), -6).unwrap();
    let err = vault.apply_delta(&delta).unwrap_err();
    assert!(matches!(err, AssetVaultError::SubtractFungibleAssetBalanceError(_)));
}

#[test]
fn delta_entries_are_checked() {
    let err = AccountVaultDelta::new()
        .set_fungible(mock_non_fungible(&[1]).vault_key(), 1)
        .unwrap_err();
    assert!(matches!(
        err,
        AccountDeltaError::NotAFungibleFaucetId(id) if id == account_id(NON_FUNGIBLE_FAUCET)
    ));
    let err = AccountVaultDelta::new()
        .set_fungible(mock_fungible(0).vault_key(), i64::MIN)
        .unwrap_err();
    assert!(matches!(err, AccountDeltaError::FungibleAssetAmountOutOfBounds(i64::MIN)));
}

#[test]
fn size_hint_counts_bytes() {
    assert_eq!(AssetVault::default().get_size_hint(), 1);
    let vault = AssetVault::new(&[
        Asset::Fungible(mock_fungible(10)),
        Asset::NonFungible(mock_non_fungible(&[1])),
        Asset::NonFungible(mock_non_fungible(&[2])),
    ])
    .unwrap();
    assert_eq!(vault.get_size_hint(), 24 + 48 + 48 + 1);
    let many: Vec<Asset> =
        (0u8..200).map(|i| Asset::NonFungible(mock_non_fungible(&[i]))).collect();
    assert_eq!(AssetVault::new(&many).unwrap().get_size_hint(), 200 * 48 + 2);
}

#[test]
fn clone_is_independent() {
    let mut vault = AssetVault::new(&[Asset::Fungible(mock_fungible(10))]).unwrap();
    let copy = vault.clone();
    vault.add_asset(Asset::Fungible(mock_fungible(1))).unwrap();
    assert_eq!(copy.get_balance(account_id(PRIVATE_FUNGIBLE_FAUCET)).unwrap(), 10);
    assert_eq!(copy.root(), root_of(&[Asset::Fungible(mock_fungible(10))]));
}

/// The digest of an empty subtree is the hash of two empty subtrees of half its size.
#[test]
fn root_of_a_vault_without_assets() {
    let mut digest = Word::empty();
    for _ in 0..64 {
        digest = from_crypto(Poseidon2::merge(&[to_crypto(&digest), to_crypto(&digest)]));
    }
    assert_eq!(AssetVault::default().root(), digest);
    assert!(AssetVault::default().is_empty());
}

#[test]
fn vaults_are_compared_by_their_assets() {
    let one = Asset::Fungible(
        FungibleAsset::new(account_id(NETWORK_FUNGIBLE_FAUCET), 10).unwrap(),
    );
    let two = Asset::Fungible(
        FungibleAsset::new(account_id(PRIVATE_FUNGIBLE_FAUCET), 20).unwrap(),
    );
    let mut vault = AssetVault::default();
    assert_eq!(vault, AssetVault::default());
    vault.add_asset(one).unwrap();
    vault.add_asset(two).unwrap();
    let mut other = AssetVault::default();
    other.add_asset(two).unwrap();
    assert_ne!(vault, other);
    other.add_asset(one).unwrap();
    assert_eq!(vault, other);
    assert_eq!(vault, AssetVault::new(&[one, two]).unwrap());
}

/// Removing an empty asset after adding it changes nothing, and is refused only without an entry.
#[test]
fn removing_an_empty_asset_undoes_adding_it() {
    let faucet = account_id(NETWORK_FUNGIBLE_FAUCET);
    let empty = FungibleAsset::new(faucet, 0).unwrap();
    let mut vault = AssetVault::default();
    vault.add_asset(Asset::Fungible(empty)).unwrap();
    let err = vault.remove_asset(Asset::Fungible(empty)).unwrap_err();
    assert!(matches!(err, AssetVaultError::FungibleAssetNotFound(asset) if asset == empty));
    assert_eq!(vault, AssetVault::default());

    let held = Asset::Fungible(FungibleAsset::new(faucet, 7).unwrap());
    vault.add_asset(held).unwrap();
    let before = vault.clone();
    vault.add_asset(Asset::Fungible(empty)).unwrap();
    assert_eq!(vault.remove_asset(Asset::Fungible(empty)).unwrap(), Some(held));
    assert_eq!(vault, before);
}
