//! The keys under which assets are stored in a vault.
use vstd::prelude::*;

use crate::account::{
    account_id_fault, prefix_type, valid_account_id, AccountId, AccountIdError, AccountType,
    RawAccountId,
};
use crate::hash::{hash_elements, poseidon2};
use crate::word::{felt_values, word_elements, Felt, RawWord, Word, FIELD_ORDER};

verus! {

// MODEL
// ================================================================================================

/// The faucet that a vault key names: its prefix is the last element of the key, and its suffix
/// the third element without the lowest byte.
pub open spec fn key_faucet(key: RawWord) -> RawAccountId {
    (key.3, (key.2 - key.2 % 256) as u64)
}

/// The callback flag that a vault key carries in the lowest byte of its third element.
pub open spec fn key_flag(key: RawWord) -> u64 {
    key.2 % 256
}

/// The vault key belongs to assets of a fungible faucet.
pub open spec fn is_fungible_key(key: RawWord) -> bool {
    prefix_type(key.3) == AccountType::FungibleFaucet
}

/// The word is the encoding of a vault key.
pub open spec fn valid_key(key: RawWord) -> bool {
    &&& key.0 < FIELD_ORDER && key.1 < FIELD_ORDER
    &&& valid_account_id(key_faucet(key))
    &&& key_flag(key) <= 1
    &&& prefix_type(key.3) == AccountType::FungibleFaucet || prefix_type(key.3)
        == AccountType::NonFungibleFaucet
    &&& is_fungible_key(key) ==> key.0 == 0 && key.1 == 0
}

/// The vault key of an asset ID, a faucet and a callback flag.
pub open spec fn make_key(asset_id: (u64, u64), faucet: RawAccountId, flag: u64) -> RawWord {
    (asset_id.0, asset_id.1, (faucet.1 + flag) as u64, faucet.0)
}

/// The key under which a tree stores the asset of a vault key.
pub open spec fn smt_key(key: RawWord) -> RawWord {
    poseidon2(word_elements(key))
}

/// What is wrong with a word as a vault key, if anything.
pub open spec fn key_fault(key: RawWord) -> Option<VaultKeyFault> {
    if key_flag(key) > 1 {
        Some(VaultKeyFault::UnknownCallbackFlag(key_flag(key)))
    } else if account_id_fault(key_faucet(key).0, key_faucet(key).1) is Some {
        Some(
            VaultKeyFault::InvalidFaucetAccountId(
                account_id_fault(key_faucet(key).0, key_faucet(key).1)->0,
            ),
        )
    } else {
        id_and_faucet_fault((key.0, key.1), key_faucet(key))
    }
}

/// What is wrong with an asset ID and an issuing account, if anything.
pub open spec fn id_and_faucet_fault(
    asset_id: (u64, u64),
    faucet: RawAccountId,
) -> Option<VaultKeyFault> {
    if prefix_type(faucet.0) != AccountType::FungibleFaucet && prefix_type(faucet.0)
        != AccountType::NonFungibleFaucet {
        Some(VaultKeyFault::NotAFaucetId(faucet))
    } else if prefix_type(faucet.0) == AccountType::FungibleFaucet && asset_id != (0u64, 0u64) {
        Some(VaultKeyFault::FungibleAssetIdMustBeZero(asset_id))
    } else {
        None
    }
}

/// The value of a [`VaultKeyError`].
pub enum VaultKeyFault {
    UnknownCallbackFlag(u64),
    InvalidFaucetAccountId(AccountIdError),
    NotAFaucetId(RawAccountId),
    FungibleAssetIdMustBeZero((u64, u64)),
}

// TYPES
// ================================================================================================

/// The ways in which a vault key can be invalid.
#[derive(Clone, Copy, Debug)]
pub enum VaultKeyError {
    /// The lowest byte of the third element is not a callback flag.
    UnknownCallbackFlag(u64),
    /// The third and the fourth element do not hold an account ID.
    InvalidFaucetAccountId(AccountIdError),
    /// The account is not a faucet.
    NotAFaucetId(AccountId),
    /// The assets of a fungible faucet have no asset ID.
    FungibleAssetIdMustBeZero(AssetId),
}

impl View for VaultKeyError {
    type V = VaultKeyFault;

    open spec fn view(&self) -> VaultKeyFault {
        match *self {
            VaultKeyError::UnknownCallbackFlag(flag) => VaultKeyFault::UnknownCallbackFlag(flag),
            VaultKeyError::InvalidFaucetAccountId(err) => VaultKeyFault::InvalidFaucetAccountId(
                err,
            ),
            VaultKeyError::NotAFaucetId(id) => VaultKeyFault::NotAFaucetId(id@),
            VaultKeyError::FungibleAssetIdMustBeZero(id) =>
                VaultKeyFault::FungibleAssetIdMustBeZero(id@),
        }
    }
}

/// Tells whether transfers of an asset call back into its faucet.
#[derive(Clone, Copy, Debug, PartialEq, Eq, Structural)]
pub enum AssetCallbackFlag {
    Disabled,
    Enabled,
}

impl AssetCallbackFlag {
    /// The integer that encodes the flag.
    pub open spec fn code(self) -> u64 {
        match self {
            AssetCallbackFlag::Disabled => 0,
            AssetCallbackFlag::Enabled => 1,
        }
    }

    /// Returns the integer that encodes the flag.
    pub fn as_u64(&self) -> (r: u64)
        ensures
            r == self.code(),
    {
        match self {
            AssetCallbackFlag::Disabled => 0,
            AssetCallbackFlag::Enabled => 1,
        }
    }
}

/// Tells the assets of one faucet apart. It is zero for the assets of a fungible faucet.
#[derive(Clone, Copy, Debug)]
pub struct AssetId {
    suffix: Felt,
    prefix: Felt,
}

impl View for AssetId {
    type V = (u64, u64);

    closed spec fn view(&self) -> (u64, u64) {
        (self.suffix@, self.prefix@)
    }
}

impl AssetId {
    /// Creates an asset ID from its two elements.
    pub fn new(suffix: Felt, prefix: Felt) -> (r: AssetId)
        ensures
            r@ == (suffix@, prefix@),
    {
        AssetId { suffix, prefix }
    }

    /// Returns the first element.
    pub fn suffix(&self) -> (r: Felt)
        ensures
            r@ == self@.0,
    {
        self.suffix
    }

    /// Returns the second element.
    pub fn prefix(&self) -> (r: Felt)
        ensures
            r@ == self@.1,
    {
        self.prefix
    }

    /// Returns true if both elements are zero.
    pub fn is_empty(&self) -> (r: bool)
        ensures
            r == (self@ == (0u64, 0u64)),
    {
        self.suffix.as_canonical_u64() == 0 && self.prefix.as_canonical_u64() == 0
    }
}

/// The key of an asset in a vault.
///
/// As a word it is `[asset_id_suffix, asset_id_prefix, faucet_id_suffix | callback_flag,
/// faucet_id_prefix]`.
#[derive(Clone, Copy, Debug)]
pub struct AssetVaultKey {
    asset_id: AssetId,
    faucet_id: AccountId,
    callback_flag: AssetCallbackFlag,
}

impl View for AssetVaultKey {
    type V = RawWord;

    closed spec fn view(&self) -> RawWord {
        make_key(self.asset_id@, self.faucet_id@, self.callback_flag.code())
    }
}

impl AssetVaultKey {
    /// The issuer is a faucet, and a fungible one only if the asset ID is zero.
    #[verifier::type_invariant]
    pub closed spec fn consistent(self) -> bool {
        id_and_faucet_fault(self.asset_id@, self.faucet_id@) is None
    }

    /// Creates the key of the asset with the given ID, faucet and callback flag.
    ///
    /// # Errors
    ///
    /// Returns an error if the account is not a faucet, or if it is a fungible faucet and the asset
    /// ID is not zero.
    pub fn new(asset_id: AssetId, faucet_id: AccountId, callback_flag: AssetCallbackFlag) -> (r:
        Result<AssetVaultKey, VaultKeyError>)
        ensures
            match r {
                Ok(key) => id_and_faucet_fault(asset_id@, faucet_id@) is None && key@ == make_key(
                    asset_id@,
                    faucet_id@,
                    callback_flag.code(),
                ),
                Err(err) => id_and_faucet_fault(asset_id@, faucet_id@) == Some(err@),
            },
    {
        let fungible = faucet_id.account_type() == AccountType::FungibleFaucet;
        if !fungible && faucet_id.account_type() != AccountType::NonFungibleFaucet {
            return Err(VaultKeyError::NotAFaucetId(faucet_id));
        }
        if fungible && !asset_id.is_empty() {
            return Err(VaultKeyError::FungibleAssetIdMustBeZero(asset_id));
        }
        Ok(AssetVaultKey { asset_id, faucet_id, callback_flag })
    }

    /// Creates the key of the fungible asset of a faucet, with callbacks disabled.
    ///
    /// # Errors
    ///
    /// Returns an error if the account is not a fungible faucet.
    pub fn new_fungible(faucet_id: AccountId) -> (r: Result<AssetVaultKey, VaultKeyError>)
        ensures
            match r {
                Ok(key) => prefix_type(faucet_id@.0) == AccountType::FungibleFaucet && key@
                    == make_key((0, 0), faucet_id@, 0),
                Err(err) => prefix_type(faucet_id@.0) != AccountType::FungibleFaucet && err@
                    == VaultKeyFault::NotAFaucetId(faucet_id@),
            },
    {
        if faucet_id.account_type() != AccountType::FungibleFaucet {
            return Err(VaultKeyError::NotAFaucetId(faucet_id));
        }
        AssetVaultKey::new(
            AssetId::new(Felt::zero(), Felt::zero()),
            faucet_id,
            AssetCallbackFlag::Disabled,
        )
    }

    /// Decodes a key from its word.
    ///
    /// # Errors
    ///
    /// Returns an error if the word does not encode a vault key.
    pub fn try_from_word(word: Word) -> (r: Result<AssetVaultKey, VaultKeyError>)
        ensures
            match r {
                Ok(key) => key_fault(word@) is None && key@ == word@,
                Err(err) => key_fault(word@) == Some(err@),
            },
    {
        let third: u64 = word.element(2).as_canonical_u64();
        let flag: u64 = third % 256;
        let callback_flag = if flag == 0 {
            AssetCallbackFlag::Disabled
        } else if flag == 1 {
            AssetCallbackFlag::Enabled
        } else {
            return Err(VaultKeyError::UnknownCallbackFlag(flag));
        };
        let suffix = Felt::new(third - flag);
        match AccountId::try_from_elements(suffix, word.element(3)) {
            Ok(faucet_id) => AssetVaultKey::new(
                AssetId::new(word.element(0), word.element(1)),
                faucet_id,
                callback_flag,
            ),
            Err(err) => Err(VaultKeyError::InvalidFaucetAccountId(err)),
        }
    }

    /// Returns the ID of the asset.
    pub fn asset_id(&self) -> (r: AssetId)
        ensures
            r@ == (self@.0, self@.1),
    {
        self.asset_id
    }

    /// Returns the faucet that issues the asset.
    pub fn faucet_id(&self) -> (r: AccountId)
        ensures
            r@ == key_faucet(self@),
    {
        proof {
            use_type_invariant(&self.faucet_id);
        }
        self.faucet_id
    }

    /// Returns the callback flag of the asset.
    pub fn callback_flag(&self) -> (r: AssetCallbackFlag)
        ensures
            r.code() == key_flag(self@),
    {
        proof {
            use_type_invariant(&self.faucet_id);
        }
        self.callback_flag
    }

    /// Returns the word that encodes the key.
    pub fn to_word(&self) -> (r: Word)
        ensures
            r@ == self@,
            valid_key(self@),
    {
        proof {
            use_type_invariant(self);
            use_type_invariant(&self.faucet_id);
        }
        let a = self.asset_id.suffix();
        let b = self.asset_id.prefix();
        proof {
            use_type_invariant(&a);
            use_type_invariant(&b);
        }
        let third = Felt::new(self.faucet_id.suffix() + self.callback_flag.as_u64());
        let fourth = Felt::new(self.faucet_id.prefix());
        Word::new(a, b, third, fourth)
    }

    /// Returns the key under which a tree stores the asset: the hash of the word.
    pub fn to_smt_key(&self) -> (r: Word)
        ensures
            r@ == smt_key(self@),
    {
        let mut elements: Vec<Felt> = Vec::new();
        self.to_word().append_to(&mut elements);
        assert(felt_values(elements@) =~= word_elements(self@));
        hash_elements(&elements)
    }

    /// Returns the position of the leaf in which a tree stores the asset.
    pub fn to_leaf_index(&self) -> (r: u64)
        ensures
            r == smt_key(self@).3,
    {
        self.to_smt_key().element(3).as_canonical_u64()
    }
}

impl PartialEq for AssetVaultKey {
    fn eq(&self, other: &AssetVaultKey) -> (r: bool) {
        self.to_word() == other.to_word()
    }
}

impl vstd::std_specs::cmp::PartialEqSpecImpl for AssetVaultKey {
    open spec fn obeys_eq_spec() -> bool {
        true
    }

    open spec fn eq_spec(&self, other: &AssetVaultKey) -> bool {
        self@ == other@
    }
}

impl Eq for AssetVaultKey {

}

} // verus!
