use miden_vault::account::{AccountId, AccountIdError, AccountType};
use miden_vault::asset::MAX_AMOUNT;
use miden_vault::faucet::{
    Account, AggLayerFaucet, AgglayerFaucetError, FaucetInterface, FungibleFaucetError,
    Ownable2StepError, StorageSlot, TokenMetadata, TokenSymbol, TokenSymbolError,
};
use miden_vault::word::{Felt, Word};

const BRIDGE: (u64, u64) = (0xa100_0000_0000_0010, 0x1234_0000_0000_0100);

fn word(elements: [u64; 4]) -> Word {
    Word::new(
        Felt::new(elements[0]),
        Felt::new(elements[1]),
        Felt::new(elements[2]),
        Felt::new(elements[3]),
    )
}

/// Two letters with the digits 1 and 2.
fn symbol() -> TokenSymbol {
    TokenSymbol::try_from_felt(Felt::new((26 + 2) * 26 + 2)).unwrap()
}

fn interface() -> FaucetInterface {
    FaucetInterface {
        metadata_slot: "metadata".to_string(),
        owner_config_slot: "owner".to_string(),
        active_policy_proc_root_slot: "active".to_string(),
        allowed_policy_proc_roots_slot: "allowed".to_string(),
        policy_authority_slot: "authority".to_string(),
        code_commitment: word([1, 2, 3, 4]),
    }
}

fn faucet() -> AggLayerFaucet {
    AggLayerFaucet::new(symbol(), 6, Felt::new(1000), Felt::new(10)).unwrap()
}

fn slot(name: &str, value: Word) -> StorageSlot {
    StorageSlot { name: name.to_string(), value }
}

fn account_with_owner(owner: Word) -> Account {
    let mut slots = faucet().into_component(&interface()).storage_slots;
    slots.push(slot("active", Word::empty()));
    slots.push(slot("owner", owner));
    slots.push(slot("authority", Word::empty()));
    slots.push(slot("allowed", Word::empty()));
    Account { slots, code_commitment: word([1, 2, 3, 4]) }
}

fn account() -> Account {
    account_with_owner(word([BRIDGE.1, BRIDGE.0, 0, 0]))
}

#[test]
fn faucet_checks_its_numbers() {
    let err = AggLayerFaucet::new(symbol(), 13, Felt::new(1), Felt::new(0)).unwrap_err();
    assert_eq!(err, FungibleFaucetError::TooManyDecimals { actual: 13, max: 12 });
    let err = AggLayerFaucet::new(symbol(), 12, Felt::new(MAX_AMOUNT + 1), Felt::new(0)).unwrap_err();
    assert_eq!(
        err,
        FungibleFaucetError::MaxSupplyTooLarge { actual: MAX_AMOUNT + 1, max: MAX_AMOUNT }
    );
    let err = AggLayerFaucet::new(symbol(), 12, Felt::new(5), Felt::new(6)).unwrap_err();
    assert_eq!(
        err,
        FungibleFaucetError::TokenSupplyExceedsMaxSupply { token_supply: 6, max_supply: 5 }
    );
    assert!(AggLayerFaucet::new(symbol(), 12, Felt::new(5), Felt::new(5)).is_ok());

    assert!(faucet().with_token_supply(Felt::new(1000)).is_ok());
    let err = faucet().with_token_supply(Felt::new(1001)).unwrap_err();
    assert_eq!(
        err,
        FungibleFaucetError::TokenSupplyExceedsMaxSupply { token_supply: 1001, max_supply: 1000 }
    );
}

#[test]
fn token_symbols_are_checked() {
    let err = TokenSymbol::try_from_felt(Felt::new(26)).unwrap_err();
    assert_eq!(err, TokenSymbolError::InvalidLength(0));
    let err = TokenSymbol::try_from_felt(Felt::new(13)).unwrap_err();
    assert_eq!(err, TokenSymbolError::InvalidLength(13));
    assert!(TokenSymbol::try_from_felt(Felt::new(25 * 26 + 1)).is_ok());
    let err = TokenSymbol::try_from_felt(Felt::new(26 * 26 + 1)).unwrap_err();
    assert_eq!(err, TokenSymbolError::DataNotFullyDecoded);
}

#[test]
fn component_holds_the_metadata() {
    let component = faucet().into_component(&interface());
    assert_eq!(component.name, "agglayer::faucet");
    assert_eq!(component.description, "AggLayer faucet component");
    assert_eq!(component.supported_types, vec![AccountType::FungibleFaucet]);
    assert_eq!(component.storage_slots.len(), 1);
    assert_eq!(component.storage_slots[0].name, "metadata");
    assert_eq!(component.storage_slots[0].value, word([10, 1000, 6, (26 + 2) * 26 + 2]));
    assert_eq!(AggLayerFaucet::metadata_slot(&interface()), "metadata");
    assert_eq!(AggLayerFaucet::owner_config_slot(&interface()), "owner");
}

#[test]
fn metadata_is_read_back() {
    let metadata = AggLayerFaucet::metadata(&interface(), &account()).unwrap();
    assert_eq!(metadata.symbol().as_felt(), symbol().as_felt());
    assert_eq!(metadata.decimals(), 6);
    assert_eq!(metadata.max_supply(), 1000);
    assert_eq!(metadata.token_supply(), 10);
    assert_eq!(metadata.to_word(), word([10, 1000, 6, (26 + 2) * 26 + 2]));
}

#[test]
fn invalid_metadata_is_refused() {
    let mut account = account();
    account.slots[0].value = word([10, 1000, 300, (26 + 2) * 26 + 2]);
    let err = AggLayerFaucet::metadata(&interface(), &account).unwrap_err();
    assert_eq!(
        err,
        AgglayerFaucetError::FungibleFaucetError(FungibleFaucetError::TooManyDecimals {
            actual: 300,
            max: 12,
        })
    );
    let err = TokenMetadata::try_from_word(word([0, 0, 0, 0])).unwrap_err();
    assert_eq!(
        err,
        FungibleFaucetError::InvalidTokenSymbol(TokenSymbolError::InvalidLength(0))
    );
}

#[test]
fn other_accounts_are_refused() {
    for missing in 0..5 {
        let mut account = account();
        account.slots.remove(missing);
        let err = AggLayerFaucet::metadata(&interface(), &account).unwrap_err();
        assert_eq!(err, AgglayerFaucetError::StorageSlotsMismatch);
        let err = AggLayerFaucet::owner_account_id(&interface(), &account).unwrap_err();
        assert_eq!(err, AgglayerFaucetError::StorageSlotsMismatch);
    }
    let mut account = account();
    account.code_commitment = Word::empty();
    let err = AggLayerFaucet::metadata(&interface(), &account).unwrap_err();
    assert_eq!(err, AgglayerFaucetError::CodeCommitmentMismatch);
    // The slots are checked first.
    account.slots.clear();
    let err = AggLayerFaucet::assert_faucet_account(&interface(), &account).unwrap_err();
    assert_eq!(err, AgglayerFaucetError::StorageSlotsMismatch);
}

#[test]
fn owner_is_read() {
    let bridge = AccountId::try_from_elements(Felt::new(BRIDGE.1), Felt::new(BRIDGE.0)).unwrap();
    assert_eq!(AggLayerFaucet::owner_account_id(&interface(), &account()).unwrap(), bridge);

    let renounced = account_with_owner(Word::empty());
    let err = AggLayerFaucet::owner_account_id(&interface(), &renounced).unwrap_err();
    assert_eq!(err, AgglayerFaucetError::OwnershipRenounced);

    let invalid = account_with_owner(word([1, BRIDGE.0, 0, 0]));
    let err = AggLayerFaucet::owner_account_id(&interface(), &invalid).unwrap_err();
    assert_eq!(
        err,
        AgglayerFaucetError::Ownable2StepError(Ownable2StepError::InvalidOwnerId(
            AccountIdError::AccountIdSuffixLeastSignificantByteMustBeZero
        ))
    );

    let nominated = account_with_owner(word([BRIDGE.1, BRIDGE.0, 0, 1]));
    let err = AggLayerFaucet::owner_account_id(&interface(), &nominated).unwrap_err();
    assert_eq!(
        err,
        AgglayerFaucetError::Ownable2StepError(Ownable2StepError::InvalidNominatedOwnerId(
            AccountIdError::UnknownAccountIdVersion(1)
        ))
    );
}

#[test]
fn account_ids_are_checked() {
    let of = |suffix: u64, prefix: u64| {
        AccountId::try_from_elements(Felt::new(suffix), Felt::new(prefix))
    };
    assert_eq!(of(0x100, 0x13).unwrap_err(), AccountIdError::UnknownAccountIdVersion(3));
    assert_eq!(
        of(1 << 63, 0x10).unwrap_err(),
        AccountIdError::AccountIdSuffixMostSignificantBitMustBeZero
    );
    assert_eq!(of(0x100, 0xf0).unwrap_err(), AccountIdError::UnknownAccountStorageMode(3));
    let types = [
        AccountType::RegularAccountImmutableCode,
        AccountType::RegularAccountUpdatableCode,
        AccountType::FungibleFaucet,
        AccountType::NonFungibleFaucet,
    ];
    for (bits, account_type) in types.into_iter().enumerate() {
        let id = of(0x100, (bits as u64) << 4).unwrap();
        assert_eq!(id.account_type(), account_type);
        assert_eq!((id.prefix(), id.suffix()), ((bits as u64) << 4, 0x100));
    }
}
