//! Changes to the assets of an account.
use vstd::prelude::*;

use crate::account::{AccountId, AccountType};
use crate::asset::{valid_asset, NonFungibleAsset, RawAsset, MAX_AMOUNT};
use crate::key_map::{entry_values, is_listing, listing, KeyMap};
use crate::vault_key::{is_fungible_key, key_faucet, valid_key, AssetVaultKey};
use crate::word::RawWord;

verus! {

/// What a delta does with a non-fungible asset.
#[derive(Clone, Copy, Debug, PartialEq, Eq, Structural)]
pub enum NonFungibleDeltaAction {
    Add,
    Remove,
}

impl View for NonFungibleDeltaAction {
    type V = NonFungibleDeltaAction;

    open spec fn view(&self) -> NonFungibleDeltaAction {
        *self
    }
}

/// The ways in which an entry of a delta can be invalid.
#[derive(Clone, Copy, Debug)]
pub enum AccountDeltaError {
    /// The issuer of a fungible asset is not a fungible faucet.
    NotAFungibleFaucetId(AccountId),
    /// The amount exceeds [`MAX_AMOUNT`] in one of the two directions.
    FungibleAssetAmountOutOfBounds(i64),
}

/// The value of a delta: the change of the amount of each fungible asset, and the non-fungible
/// assets that come or go.
pub struct DeltaState {
    pub fungible: Map<RawWord, i64>,
    pub non_fungible: Map<RawWord, (RawAsset, NonFungibleDeltaAction)>,
}

/// The amount can be added to a vault or removed from it.
pub open spec fn valid_change(amount: i64) -> bool {
    -MAX_AMOUNT <= amount <= MAX_AMOUNT
}

/// What holds of every delta: the keys of the fungible changes are those of fungible assets and
/// their amounts are in bounds, and the non-fungible assets are listed under their own keys.
pub open spec fn valid_delta(delta: DeltaState) -> bool {
    &&& delta.fungible.dom().finite() && delta.non_fungible.dom().finite()
    &&& forall|k: RawWord| #[trigger]
        delta.fungible.contains_key(k) ==> valid_key(k) && is_fungible_key(k) && valid_change(
            delta.fungible[k],
        )
    &&& forall|k: RawWord| #[trigger]
        delta.non_fungible.contains_key(k) ==> delta.non_fungible[k].0.0 == k && valid_asset(
            k,
            delta.non_fungible[k].0.1,
        ) && !is_fungible_key(k)
}

/// A change to the assets of an account.
#[derive(Debug)]
pub struct AccountVaultDelta {
    fungible: KeyMap<i64>,
    non_fungible: KeyMap<(NonFungibleAsset, NonFungibleDeltaAction)>,
}

impl View for AccountVaultDelta {
    type V = DeltaState;

    closed spec fn view(&self) -> DeltaState {
        DeltaState { fungible: self.fungible@, non_fungible: self.non_fungible@ }
    }
}

impl AccountVaultDelta {
    /// The entries are as [`valid_delta`] says.
    #[verifier::type_invariant]
    pub open spec fn well_formed(self) -> bool {
        valid_delta(self@)
    }

    /// Creates a delta that changes nothing.
    pub fn new() -> (r: AccountVaultDelta)
        ensures
            r@.fungible == Map::<RawWord, i64>::empty(),
            r@.non_fungible == Map::<RawWord, (RawAsset, NonFungibleDeltaAction)>::empty(),
    {
        AccountVaultDelta { fungible: KeyMap::new(), non_fungible: KeyMap::new() }
    }

    /// Sets the change of the amount of a fungible asset.
    ///
    /// # Errors
    ///
    /// Returns an error if the vault key is not that of a fungible asset, or if the amount is out
    /// of bounds.
    pub fn set_fungible(self, vault_key: AssetVaultKey, amount: i64) -> (r: Result<
        AccountVaultDelta,
        AccountDeltaError,
    >)
        ensures
            match r {
                Ok(delta) => {
                    &&& is_fungible_key(vault_key@) && valid_change(amount)
                    &&& delta@.fungible == self@.fungible.insert(vault_key@, amount)
                    &&& delta@.non_fungible == self@.non_fungible
                },
                Err(AccountDeltaError::NotAFungibleFaucetId(id)) => !is_fungible_key(vault_key@)
                    && id@ == key_faucet(vault_key@),
                Err(AccountDeltaError::FungibleAssetAmountOutOfBounds(value)) => is_fungible_key(
                    vault_key@,
                ) && !valid_change(amount) && value == amount,
            },
    {
        proof {
            use_type_invariant(&self);
        }
        let word = vault_key.to_word();
        if vault_key.faucet_id().account_type() != AccountType::FungibleFaucet {
            return Err(AccountDeltaError::NotAFungibleFaucetId(vault_key.faucet_id()));
        }
        if amount > 0x7fff_ffff_8000_0000i64 || amount < -0x7fff_ffff_8000_0000i64 {
            return Err(AccountDeltaError::FungibleAssetAmountOutOfBounds(amount));
        }
        let mut fungible = self.fungible;
        fungible.insert(vault_key, amount);
        assert(fungible@ == self@.fungible.insert(vault_key@, amount));
        assert(valid_delta(DeltaState { fungible: fungible@, non_fungible: self@.non_fungible }));
        Ok(AccountVaultDelta { fungible, non_fungible: self.non_fungible })
    }

    /// Sets what happens with a non-fungible asset.
    pub fn set_non_fungible(self, asset: NonFungibleAsset, action: NonFungibleDeltaAction) -> (r:
        AccountVaultDelta)
        ensures
            r@.fungible == self@.fungible,
            r@.non_fungible == self@.non_fungible.insert(asset@.0, (asset@, action)),
    {
        proof {
            use_type_invariant(&self);
        }
        let mut non_fungible = self.non_fungible;
        non_fungible.insert(asset.vault_key(), (asset, action));
        assert(non_fungible@ == self@.non_fungible.insert(asset@.0, (asset@, action)));
        assert(valid_delta(DeltaState { fungible: self@.fungible, non_fungible: non_fungible@ }));
        AccountVaultDelta { fungible: self.fungible, non_fungible }
    }

    /// Returns the changes of the amounts of fungible assets by increasing vault key.
    pub fn fungible(&self) -> (r: Vec<(AssetVaultKey, i64)>)
        ensures
            entry_values(r@) == listing(self@.fungible),
            is_listing(listing(self@.fungible), self@.fungible),
            valid_delta(self@),
    {
        proof {
            use_type_invariant(self);
        }
        self.fungible.to_list()
    }

    /// Returns the non-fungible assets that come or go, by increasing vault key.
    pub fn non_fungible(&self) -> (r: Vec<
        (AssetVaultKey, (NonFungibleAsset, NonFungibleDeltaAction)),
    >)
        ensures
            entry_values(r@) == listing(self@.non_fungible),
            is_listing(listing(self@.non_fungible), self@.non_fungible),
            valid_delta(self@),
    {
        proof {
            use_type_invariant(self);
        }
        self.non_fungible.to_list()
    }
}

} // verus!
