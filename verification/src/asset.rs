//! Fungible and non-fungible assets.
use vstd::prelude::*;

use crate::account::{prefix_type, AccountId, AccountType, RawAccountId};
use crate::vault_key::{
    is_fungible_key, key_faucet, key_flag, make_key, valid_key, AssetCallbackFlag, AssetId,
    AssetVaultKey,
};
use crate::word::{Felt, RawWord, Word};

verus! {

/// The largest amount that a fungible asset can have: `2^63 - 2^31`.
pub const MAX_AMOUNT: u64 = 0x7fff_ffff_8000_0000;

/// The number of bytes that a fungible asset takes when it is serialized: 15 for the faucet, 8 for
/// the amount and 1 for the callback flag.
pub const FUNGIBLE_ASSET_SIZE: usize = 24;

/// The number of bytes that a non-fungible asset takes when it is serialized: 15 for the faucet, 32
/// for the value and 1 for the callback flag.
pub const NON_FUNGIBLE_ASSET_SIZE: usize = 48;

// MODEL
// ================================================================================================

/// The value of an asset: its vault key and its value word.
pub type RawAsset = (RawWord, RawWord);

/// The value word of a fungible asset.
pub open spec fn amount_word(amount: u64) -> RawWord {
    (amount, 0, 0, 0)
}

/// What is wrong with a vault key and a value word as a fungible asset, if anything.
pub open spec fn fungible_fault(key: RawWord, value: RawWord) -> Option<AssetFault> {
    if key.0 != 0 || key.1 != 0 {
        Some(AssetFault::FungibleAssetIdMustBeZero((key.0, key.1)))
    } else if value.1 != 0 || value.2 != 0 || value.3 != 0 {
        Some(AssetFault::FungibleAssetValueMostSignificantElementsMustBeZero(value))
    } else {
        fungible_parts_fault(key_faucet(key), value.0)
    }
}

/// What is wrong with an issuer and an amount of a fungible asset, if anything.
pub open spec fn fungible_parts_fault(faucet: RawAccountId, amount: u64) -> Option<AssetFault> {
    if prefix_type(faucet.0) != AccountType::FungibleFaucet {
        Some(AssetFault::FungibleFaucetIdTypeMismatch(faucet))
    } else if amount > MAX_AMOUNT {
        Some(AssetFault::FungibleAssetAmountTooBig(amount))
    } else {
        None
    }
}

/// What is wrong with a vault key and a value word as a non-fungible asset, if anything.
pub open spec fn non_fungible_fault(key: RawWord, value: RawWord) -> Option<AssetFault> {
    if value.0 != key.0 || value.1 != key.1 {
        Some(
            AssetFault::NonFungibleAssetIdMustMatchValue { asset_id: (key.0, key.1), value },
        )
    } else if prefix_type(key.3) != AccountType::NonFungibleFaucet {
        Some(AssetFault::NonFungibleFaucetIdTypeMismatch(key_faucet(key)))
    } else {
        None
    }
}

/// What is wrong with a vault key and a value word as an asset, if anything: the issuer of the key
/// decides of which kind the asset has to be.
pub open spec fn asset_fault(key: RawWord, value: RawWord) -> Option<AssetFault> {
    if is_fungible_key(key) {
        fungible_fault(key, value)
    } else {
        non_fungible_fault(key, value)
    }
}

/// The vault key and the value word form an asset.
pub open spec fn valid_asset(key: RawWord, value: RawWord) -> bool {
    valid_key(key) && asset_fault(key, value) is None
}

/// The sum of two fungible assets, which have to have the same vault key.
pub open spec fn fungible_sum(a: RawAsset, b: RawAsset) -> Result<RawAsset, AssetFault> {
    if a.0 != b.0 {
        Err(AssetFault::FungibleAssetInconsistentVaultKeys { original_key: a.0, other_key: b.0 })
    } else if a.1.0 + b.1.0 > MAX_AMOUNT {
        Err(AssetFault::FungibleAssetAmountTooBig((a.1.0 + b.1.0) as u64))
    } else {
        Ok((a.0, amount_word((a.1.0 + b.1.0) as u64)))
    }
}

/// The difference of two fungible assets, which have to have the same vault key.
pub open spec fn fungible_difference(a: RawAsset, b: RawAsset) -> Result<RawAsset, AssetFault> {
    if a.0 != b.0 {
        Err(AssetFault::FungibleAssetInconsistentVaultKeys { original_key: a.0, other_key: b.0 })
    } else if a.1.0 < b.1.0 {
        Err(
            AssetFault::FungibleAssetAmountNotSufficient { minuend: a.1.0, subtrahend: b.1.0 },
        )
    } else {
        Ok((a.0, amount_word((a.1.0 - b.1.0) as u64)))
    }
}

/// The number of bytes that an asset with the given vault key takes when it is serialized.
pub open spec fn asset_size(key: RawWord) -> int {
    if is_fungible_key(key) {
        FUNGIBLE_ASSET_SIZE as int
    } else {
        NON_FUNGIBLE_ASSET_SIZE as int
    }
}

// ERRORS
// ================================================================================================

/// The ways in which an operation on assets can fail.
#[derive(Debug)]
pub enum AssetError {
    /// The amount exceeds [`MAX_AMOUNT`].
    FungibleAssetAmountTooBig(u64),
    /// More was to be subtracted than there is.
    FungibleAssetAmountNotSufficient { minuend: u64, subtrahend: u64 },
    /// Two fungible assets of different vault keys were to be combined.
    FungibleAssetInconsistentVaultKeys { original_key: AssetVaultKey, other_key: AssetVaultKey },
    /// The issuer of a fungible asset is not a fungible faucet.
    FungibleFaucetIdTypeMismatch(AccountId),
    /// The issuer of a non-fungible asset is not a non-fungible faucet.
    NonFungibleFaucetIdTypeMismatch(AccountId),
    /// The asset ID of a fungible asset is not zero.
    FungibleAssetIdMustBeZero(AssetId),
    /// The last three elements of the value of a fungible asset are not all zero.
    FungibleAssetValueMostSignificantElementsMustBeZero(Word),
    /// The asset ID of a non-fungible asset is not made of the first two elements of its value.
    NonFungibleAssetIdMustMatchValue { asset_id: AssetId, value: Word },
    /// The proof of a witness does not cover this vault key.
    AssetWitnessMissingKey { key: AssetVaultKey },
    /// The proof of a witness holds a value that is no asset.
    AssetWitnessInvalid(Box<AssetError>),
}

/// The value of an [`AssetError`].
pub enum AssetFault {
    FungibleAssetAmountTooBig(u64),
    FungibleAssetAmountNotSufficient { minuend: u64, subtrahend: u64 },
    FungibleAssetInconsistentVaultKeys { original_key: RawWord, other_key: RawWord },
    FungibleFaucetIdTypeMismatch(RawAccountId),
    NonFungibleFaucetIdTypeMismatch(RawAccountId),
    FungibleAssetIdMustBeZero((u64, u64)),
    FungibleAssetValueMostSignificantElementsMustBeZero(RawWord),
    NonFungibleAssetIdMustMatchValue { asset_id: (u64, u64), value: RawWord },
    AssetWitnessMissingKey { key: RawWord },
    AssetWitnessInvalid(Box<AssetFault>),
}

impl View for AssetError {
    type V = AssetFault;

    open spec fn view(&self) -> AssetFault
        decreases self,
    {
        match *self {
            AssetError::FungibleAssetAmountTooBig(amount) => AssetFault::FungibleAssetAmountTooBig(
                amount,
            ),
            AssetError::FungibleAssetAmountNotSufficient { minuend, subtrahend } =>
                AssetFault::FungibleAssetAmountNotSufficient { minuend, subtrahend },
            AssetError::FungibleAssetInconsistentVaultKeys { original_key, other_key } =>
                AssetFault::FungibleAssetInconsistentVaultKeys {
                    original_key: original_key@,
                    other_key: other_key@,
                },
            AssetError::FungibleFaucetIdTypeMismatch(id) =>
                AssetFault::FungibleFaucetIdTypeMismatch(id@),
            AssetError::NonFungibleFaucetIdTypeMismatch(id) =>
                AssetFault::NonFungibleFaucetIdTypeMismatch(id@),
            AssetError::FungibleAssetIdMustBeZero(id) => AssetFault::FungibleAssetIdMustBeZero(id@),
            AssetError::FungibleAssetValueMostSignificantElementsMustBeZero(value) =>
                AssetFault::FungibleAssetValueMostSignificantElementsMustBeZero(value@),
            AssetError::NonFungibleAssetIdMustMatchValue { asset_id, value } =>
                AssetFault::NonFungibleAssetIdMustMatchValue {
                    asset_id: asset_id@,
                    value: value@,
                },
            AssetError::AssetWitnessMissingKey { key } => AssetFault::AssetWitnessMissingKey {
                key: key@,
            },
            AssetError::AssetWitnessInvalid(source) => AssetFault::AssetWitnessInvalid(
                Box::new((*source)@),
            ),
        }
    }
}

// FUNGIBLE ASSETS
// ================================================================================================

/// An amount of the asset of a fungible faucet.
#[derive(Clone, Copy, Debug)]
pub struct FungibleAsset {
    faucet_id: AccountId,
    amount: u64,
    callbacks: AssetCallbackFlag,
}

impl View for FungibleAsset {
    type V = RawAsset;

    closed spec fn view(&self) -> RawAsset {
        (make_key((0, 0), self.faucet_id@, self.callbacks.code()), amount_word(self.amount))
    }
}

impl FungibleAsset {
    /// The issuer is a fungible faucet, and the amount is in range.
    #[verifier::type_invariant]
    pub closed spec fn well_formed(self) -> bool {
        fungible_parts_fault(self.faucet_id@, self.amount) is None
    }

    /// Creates the given amount of the asset of a faucet, with callbacks disabled.
    ///
    /// # Errors
    ///
    /// Returns an error if the account is not a fungible faucet, or if the amount exceeds
    /// [`MAX_AMOUNT`].
    pub fn new(faucet_id: AccountId, amount: u64) -> (r: Result<FungibleAsset, AssetError>)
        ensures
            match r {
                Ok(asset) => fungible_parts_fault(faucet_id@, amount) is None && asset@ == (
                    make_key((0, 0), faucet_id@, 0),
                    amount_word(amount),
                ),
                Err(err) => fungible_parts_fault(faucet_id@, amount) == Some(err@),
            },
    {
        if faucet_id.account_type() != AccountType::FungibleFaucet {
            return Err(AssetError::FungibleFaucetIdTypeMismatch(faucet_id));
        }
        if amount > MAX_AMOUNT {
            return Err(AssetError::FungibleAssetAmountTooBig(amount));
        }
        Ok(FungibleAsset { faucet_id, amount, callbacks: AssetCallbackFlag::Disabled })
    }

    /// Returns this asset with the given callback flag.
    pub fn with_callbacks(self, callbacks: AssetCallbackFlag) -> (r: FungibleAsset)
        ensures
            r@ == (make_key((0, 0), key_faucet(self@.0), callbacks.code()), self@.1),
    {
        proof {
            use_type_invariant(&self);
            use_type_invariant(&self.faucet_id);
        }
        FungibleAsset { faucet_id: self.faucet_id, amount: self.amount, callbacks }
    }

    /// Creates a fungible asset from its vault key and its value word.
    ///
    /// # Errors
    ///
    /// Returns an error if the asset ID is not zero, if the last three elements of the value are
    /// not zero, if the issuer is not a fungible faucet, or if the amount exceeds [`MAX_AMOUNT`].
    pub fn from_key_value(key: AssetVaultKey, value: Word) -> (r: Result<
        FungibleAsset,
        AssetError,
    >)
        ensures
            match r {
                Ok(asset) => fungible_fault(key@, value@) is None && asset@ == (key@, value@),
                Err(err) => fungible_fault(key@, value@) == Some(err@),
            },
    {
        let word = key.to_word();
        if !key.asset_id().is_empty() {
            return Err(AssetError::FungibleAssetIdMustBeZero(key.asset_id()));
        }
        if value.element(1).as_canonical_u64() != 0 || value.element(2).as_canonical_u64() != 0
            || value.element(3).as_canonical_u64() != 0 {
            return Err(AssetError::FungibleAssetValueMostSignificantElementsMustBeZero(value));
        }
        match FungibleAsset::new(key.faucet_id(), value.element(0).as_canonical_u64()) {
            Ok(asset) => Ok(asset.with_callbacks(key.callback_flag())),
            Err(err) => Err(err),
        }
    }

    /// Returns the faucet that issues the asset.
    pub fn faucet_id(&self) -> (r: AccountId)
        ensures
            r@ == key_faucet(self@.0),
    {
        proof {
            use_type_invariant(&self.faucet_id);
        }
        self.faucet_id
    }

    /// Returns the amount.
    pub fn amount(&self) -> (r: u64)
        ensures
            r == self@.1.0,
            r <= MAX_AMOUNT,
    {
        proof {
            use_type_invariant(self);
        }
        self.amount
    }

    /// Returns the callback flag.
    pub fn callbacks(&self) -> (r: AssetCallbackFlag)
        ensures
            r.code() == key_flag(self@.0),
    {
        proof {
            use_type_invariant(&self.faucet_id);
        }
        self.callbacks
    }

    /// Returns the vault key of the asset. It forms a valid asset together with the value word.
    pub fn vault_key(&self) -> (r: AssetVaultKey)
        ensures
            r@ == self@.0,
            valid_asset(self@.0, self@.1),
            is_fungible_key(self@.0),
    {
        proof {
            use_type_invariant(self);
            use_type_invariant(&self.faucet_id);
        }
        AssetVaultKey::new(
            AssetId::new(Felt::zero(), Felt::zero()),
            self.faucet_id,
            self.callbacks,
        ).expect("faucet ID should be of type fungible")
    }

    /// Returns the value word of the asset. It is empty if the amount is zero.
    pub fn to_value_word(&self) -> (r: Word)
        ensures
            r@ == self@.1,
            self@.1 == amount_word(self@.1.0),
    {
        proof {
            use_type_invariant(self);
        }
        Word::new(Felt::new(self.amount), Felt::zero(), Felt::zero(), Felt::zero())
    }

    /// Adds two fungible assets.
    ///
    /// # Errors
    ///
    /// Returns an error if their vault keys differ, or if the sum exceeds [`MAX_AMOUNT`].
    pub fn add(self, other: FungibleAsset) -> (r: Result<FungibleAsset, AssetError>)
        ensures
            match r {
                Ok(sum) => fungible_sum(self@, other@) == Ok::<RawAsset, AssetFault>(sum@),
                Err(err) => fungible_sum(self@, other@) == Err::<RawAsset, AssetFault>(err@),
            },
    {
        proof {
            use_type_invariant(&self);
            use_type_invariant(&other);
        }
        if self.vault_key() != other.vault_key() {
            return Err(
                AssetError::FungibleAssetInconsistentVaultKeys {
                    original_key: self.vault_key(),
                    other_key: other.vault_key(),
                },
            );
        }
        let amount: u64 = self.amount + other.amount;
        if amount > MAX_AMOUNT {
            return Err(AssetError::FungibleAssetAmountTooBig(amount));
        }
        Ok(FungibleAsset { faucet_id: self.faucet_id, amount, callbacks: self.callbacks })
    }

    /// Subtracts a fungible asset from this one.
    ///
    /// # Errors
    ///
    /// Returns an error if their vault keys differ, or if this amount is smaller than the other.
    pub fn sub(self, other: FungibleAsset) -> (r: Result<FungibleAsset, AssetError>)
        ensures
            match r {
                Ok(rest) => fungible_difference(self@, other@) == Ok::<RawAsset, AssetFault>(
                    rest@,
                ),
                Err(err) => fungible_difference(self@, other@) == Err::<RawAsset, AssetFault>(
                    err@,
                ),
            },
    {
        proof {
            use_type_invariant(&self);
        }
        if self.vault_key() != other.vault_key() {
            return Err(
                AssetError::FungibleAssetInconsistentVaultKeys {
                    original_key: self.vault_key(),
                    other_key: other.vault_key(),
                },
            );
        }
        if self.amount < other.amount {
            return Err(
                AssetError::FungibleAssetAmountNotSufficient {
                    minuend: self.amount,
                    subtrahend: other.amount,
                },
            );
        }
        Ok(
            FungibleAsset {
                faucet_id: self.faucet_id,
                amount: self.amount - other.amount,
                callbacks: self.callbacks,
            },
        )
    }
}

impl PartialEq for FungibleAsset {
    fn eq(&self, other: &FungibleAsset) -> (r: bool) {
        self.vault_key() == other.vault_key() && self.amount == other.amount
    }
}

impl vstd::std_specs::cmp::PartialEqSpecImpl for FungibleAsset {
    open spec fn obeys_eq_spec() -> bool {
        true
    }

    open spec fn eq_spec(&self, other: &FungibleAsset) -> bool {
        self@ == other@
    }
}

impl Eq for FungibleAsset {

}

// NON-FUNGIBLE ASSETS
// ================================================================================================

/// An asset that its faucet issues only once.
#[derive(Clone, Copy, Debug)]
pub struct NonFungibleAsset {
    faucet_id: AccountId,
    value: Word,
    callbacks: AssetCallbackFlag,
}

impl View for NonFungibleAsset {
    type V = RawAsset;

    closed spec fn view(&self) -> RawAsset {
        (
            make_key((self.value@.0, self.value@.1), self.faucet_id@, self.callbacks.code()),
            self.value@,
        )
    }
}

impl NonFungibleAsset {
    /// The issuer is a non-fungible faucet.
    #[verifier::type_invariant]
    pub closed spec fn well_formed(self) -> bool {
        prefix_type(self.faucet_id@.0) == AccountType::NonFungibleFaucet
    }

    /// Creates the asset of a faucet with the given value, with callbacks disabled.
    ///
    /// # Errors
    ///
    /// Returns an error if the account is not a non-fungible faucet.
    pub fn from_parts(faucet_id: AccountId, value: Word) -> (r: Result<
        NonFungibleAsset,
        AssetError,
    >)
        ensures
            match r {
                Ok(asset) => prefix_type(faucet_id@.0) == AccountType::NonFungibleFaucet && asset@
                    == (make_key((value@.0, value@.1), faucet_id@, 0), value@),
                Err(err) => prefix_type(faucet_id@.0) != AccountType::NonFungibleFaucet && err@
                    == AssetFault::NonFungibleFaucetIdTypeMismatch(faucet_id@),
            },
    {
        if faucet_id.account_type() != AccountType::NonFungibleFaucet {
            return Err(AssetError::NonFungibleFaucetIdTypeMismatch(faucet_id));
        }
        Ok(NonFungibleAsset { faucet_id, value, callbacks: AssetCallbackFlag::Disabled })
    }

    /// Returns this asset with the given callback flag.
    pub fn with_callbacks(self, callbacks: AssetCallbackFlag) -> (r: NonFungibleAsset)
        ensures
            r@ == (
                make_key((self@.1.0, self@.1.1), key_faucet(self@.0), callbacks.code()),
                self@.1,
            ),
    {
        proof {
            use_type_invariant(&self);
            use_type_invariant(&self.faucet_id);
        }
        NonFungibleAsset { faucet_id: self.faucet_id, value: self.value, callbacks }
    }

    /// Creates a non-fungible asset from its vault key and its value word.
    ///
    /// # Errors
    ///
    /// Returns an error if the asset ID is not made of the first two elements of the value, or if
    /// the issuer is not a non-fungible faucet.
    pub fn from_key_value(key: AssetVaultKey, value: Word) -> (r: Result<
        NonFungibleAsset,
        AssetError,
    >)
        ensures
            match r {
                Ok(asset) => non_fungible_fault(key@, value@) is None && asset@ == (key@, value@),
                Err(err) => non_fungible_fault(key@, value@) == Some(err@),
            },
    {
        let word = key.to_word();
        if key.asset_id().suffix() != value.element(0) || key.asset_id().prefix()
            != value.element(1) {
            return Err(
                AssetError::NonFungibleAssetIdMustMatchValue { asset_id: key.asset_id(), value },
            );
        }
        match NonFungibleAsset::from_parts(key.faucet_id(), value) {
            Ok(asset) => Ok(asset.with_callbacks(key.callback_flag())),
            Err(err) => Err(err),
        }
    }

    /// Returns the faucet that issues the asset.
    pub fn faucet_id(&self) -> (r: AccountId)
        ensures
            r@ == key_faucet(self@.0),
    {
        proof {
            use_type_invariant(&self.faucet_id);
        }
        self.faucet_id
    }

    /// Returns the callback flag.
    pub fn callbacks(&self) -> (r: AssetCallbackFlag)
        ensures
            r.code() == key_flag(self@.0),
    {
        proof {
            use_type_invariant(&self.faucet_id);
        }
        self.callbacks
    }

    /// Returns the vault key of the asset. It forms a valid asset together with the value word.
    pub fn vault_key(&self) -> (r: AssetVaultKey)
        ensures
            r@ == self@.0,
            valid_asset(self@.0, self@.1),
            !is_fungible_key(self@.0),
    {
        proof {
            use_type_invariant(self);
            use_type_invariant(&self.faucet_id);
        }
        let a = self.value.element(0);
        let b = self.value.element(1);
        proof {
            use_type_invariant(&a);
            use_type_invariant(&b);
        }
        AssetVaultKey::new(AssetId::new(a, b), self.faucet_id, self.callbacks).expect(
            "faucet ID should be of type non-fungible",
        )
    }

    /// Returns the value word of the asset.
    pub fn to_value_word(&self) -> (r: Word)
        ensures
            r@ == self@.1,
    {
        self.value
    }
}

impl PartialEq for NonFungibleAsset {
    fn eq(&self, other: &NonFungibleAsset) -> (r: bool) {
        self.vault_key() == other.vault_key() && self.value == other.value
    }
}

impl vstd::std_specs::cmp::PartialEqSpecImpl for NonFungibleAsset {
    open spec fn obeys_eq_spec() -> bool {
        true
    }

    open spec fn eq_spec(&self, other: &NonFungibleAsset) -> bool {
        self@ == other@
    }
}

impl Eq for NonFungibleAsset {

}

// ASSETS
// ================================================================================================

/// A fungible or a non-fungible asset.
#[derive(Clone, Copy, Debug)]
pub enum Asset {
    Fungible(FungibleAsset),
    NonFungible(NonFungibleAsset),
}

impl View for Asset {
    type V = RawAsset;

    open spec fn view(&self) -> RawAsset {
        match *self {
            Asset::Fungible(asset) => asset@,
            Asset::NonFungible(asset) => asset@,
        }
    }
}

impl Asset {
    /// Creates an asset from its vault key and its value word. The issuer of the key decides
    /// whether the asset is fungible.
    ///
    /// # Errors
    ///
    /// Returns an error if the value is not one that an asset with this vault key can have.
    pub fn from_key_value(key: AssetVaultKey, value: Word) -> (r: Result<Asset, AssetError>)
        ensures
            match r {
                Ok(asset) => {
                    &&& asset_fault(key@, value@) is None
                    &&& valid_asset(key@, value@)
                    &&& asset@ == (key@, value@)
                    &&& (asset is Fungible) == is_fungible_key(key@)
                },
                Err(err) => asset_fault(key@, value@) == Some(err@),
            },
    {
        let word = key.to_word();
        if key.faucet_id().account_type() == AccountType::FungibleFaucet {
            match FungibleAsset::from_key_value(key, value) {
                Ok(asset) => Ok(Asset::Fungible(asset)),
                Err(err) => Err(err),
            }
        } else {
            match NonFungibleAsset::from_key_value(key, value) {
                Ok(asset) => Ok(Asset::NonFungible(asset)),
                Err(err) => Err(err),
            }
        }
    }

    /// Returns the vault key of the asset. It forms a valid asset together with the value word.
    pub fn vault_key(&self) -> (r: AssetVaultKey)
        ensures
            r@ == self@.0,
            valid_asset(self@.0, self@.1),
            (*self is Fungible) == is_fungible_key(self@.0),
    {
        match self {
            Asset::Fungible(asset) => asset.vault_key(),
            Asset::NonFungible(asset) => asset.vault_key(),
        }
    }

    /// Returns the number of bytes that the asset takes when it is serialized.
    pub fn get_size_hint(&self) -> (r: usize)
        ensures
            r == asset_size(self@.0),
    {
        let key = self.vault_key();
        match self {
            Asset::Fungible(_) => FUNGIBLE_ASSET_SIZE,
            Asset::NonFungible(_) => NON_FUNGIBLE_ASSET_SIZE,
        }
    }

    /// Returns the value word of the asset.
    pub fn to_value_word(&self) -> (r: Word)
        ensures
            r@ == self@.1,
    {
        match self {
            Asset::Fungible(asset) => asset.to_value_word(),
            Asset::NonFungible(asset) => asset.to_value_word(),
        }
    }
}

impl PartialEq for Asset {
    fn eq(&self, other: &Asset) -> (r: bool) {
        self.vault_key() == other.vault_key() && self.to_value_word() == other.to_value_word()
    }
}

impl vstd::std_specs::cmp::PartialEqSpecImpl for Asset {
    open spec fn obeys_eq_spec() -> bool {
        true
    }

    open spec fn eq_spec(&self, other: &Asset) -> bool {
        self@ == other@
    }
}

impl Eq for Asset {

}

/// The values of a list of assets.
pub open spec fn asset_values(assets: Seq<Asset>) -> Seq<RawAsset> {
    Seq::new(assets.len(), |i: int| assets[i]@)
}

} // verus!
