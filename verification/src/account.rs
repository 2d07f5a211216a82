//! Account identifiers.
use vstd::prelude::*;

use crate::word::{Felt, FIELD_ORDER};

verus! {

/// The kinds of accounts.
#[derive(Clone, Copy, Debug, PartialEq, Eq, Structural)]
pub enum AccountType {
    RegularAccountImmutableCode,
    RegularAccountUpdatableCode,
    FungibleFaucet,
    NonFungibleFaucet,
}

/// The ways in which two field elements can fail to be an account ID.
#[derive(Clone, Copy, Debug, PartialEq, Eq, Structural)]
pub enum AccountIdError {
    UnknownAccountIdVersion(u64),
    AccountIdSuffixMostSignificantBitMustBeZero,
    AccountIdSuffixLeastSignificantByteMustBeZero,
    UnknownAccountStorageMode(u64),
}

/// The value of an account ID: the integers of its prefix and of its suffix.
pub type RawAccountId = (u64, u64);

/// The account type that the prefix of an account ID encodes, in its fifth and sixth lowest bits.
pub open spec fn prefix_type(prefix: u64) -> AccountType {
    let bits = (prefix / 16) % 4;
    if bits == 0 {
        AccountType::RegularAccountImmutableCode
    } else if bits == 1 {
        AccountType::RegularAccountUpdatableCode
    } else if bits == 2 {
        AccountType::FungibleFaucet
    } else {
        AccountType::NonFungibleFaucet
    }
}

/// What is wrong with two field elements as an account ID, if anything. The lowest four bits of
/// the prefix are the version, of which there is only version 0; bits seven and eight are the
/// storage mode, of which three are known. The highest bit and the lowest eight bits of the suffix
/// are zero.
pub open spec fn account_id_fault(prefix: u64, suffix: u64) -> Option<AccountIdError> {
    if prefix % 16 != 0 {
        Some(AccountIdError::UnknownAccountIdVersion(prefix % 16))
    } else if suffix >= 0x8000_0000_0000_0000 {
        Some(AccountIdError::AccountIdSuffixMostSignificantBitMustBeZero)
    } else if suffix % 256 != 0 {
        Some(AccountIdError::AccountIdSuffixLeastSignificantByteMustBeZero)
    } else if (prefix / 64) % 4 == 3 {
        Some(AccountIdError::UnknownAccountStorageMode((prefix / 64) % 4))
    } else {
        None
    }
}

/// The two integers are the elements of an account ID.
pub open spec fn valid_account_id(id: RawAccountId) -> bool {
    id.0 < FIELD_ORDER && account_id_fault(id.0, id.1) is None
}

/// The identifier of an account: two field elements, which also encode what kind of account it is.
#[derive(Clone, Copy, Debug)]
pub struct AccountId {
    prefix: u64,
    suffix: u64,
}

impl View for AccountId {
    type V = RawAccountId;

    closed spec fn view(&self) -> RawAccountId {
        (self.prefix, self.suffix)
    }
}

impl AccountId {
    /// The two elements encode a known version and storage mode, and the reserved bits are zero.
    #[verifier::type_invariant]
    pub open spec fn valid(self) -> bool {
        valid_account_id(self@)
    }

    /// Creates an account ID from its two elements.
    ///
    /// # Errors
    ///
    /// Returns an error if the version or the storage mode is unknown, or if a reserved bit of the
    /// suffix is set.
    pub fn try_from_elements(suffix: Felt, prefix: Felt) -> (r: Result<AccountId, AccountIdError>)
        ensures
            match account_id_fault(prefix@, suffix@) {
                None => r matches Ok(id) && id@ == (prefix@, suffix@),
                Some(err) => r == Err::<AccountId, AccountIdError>(err),
            },
    {
        let p: u64 = prefix.as_canonical_u64();
        let s: u64 = suffix.as_canonical_u64();
        if p % 16 != 0 {
            return Err(AccountIdError::UnknownAccountIdVersion(p % 16));
        }
        if s >= 0x8000_0000_0000_0000 {
            return Err(AccountIdError::AccountIdSuffixMostSignificantBitMustBeZero);
        }
        if s % 256 != 0 {
            return Err(AccountIdError::AccountIdSuffixLeastSignificantByteMustBeZero);
        }
        if (p / 64) % 4 == 3 {
            return Err(AccountIdError::UnknownAccountStorageMode((p / 64) % 4));
        }
        Ok(AccountId { prefix: p, suffix: s })
    }

    /// Returns the integer of the first element.
    pub fn prefix(&self) -> (r: u64)
        ensures
            r == self@.0,
    {
        self.prefix
    }

    /// Returns the integer of the second element.
    pub fn suffix(&self) -> (r: u64)
        ensures
            r == self@.1,
    {
        self.suffix
    }

    /// Returns the type of the account.
    pub fn account_type(&self) -> (r: AccountType)
        ensures
            r == prefix_type(self@.0),
    {
        let bits: u64 = (self.prefix / 16) % 4;
        if bits == 0 {
            AccountType::RegularAccountImmutableCode
        } else if bits == 1 {
            AccountType::RegularAccountUpdatableCode
        } else if bits == 2 {
            AccountType::FungibleFaucet
        } else {
            AccountType::NonFungibleFaucet
        }
    }
}

impl PartialEq for AccountId {
    fn eq(&self, other: &AccountId) -> (r: bool) {
        self.prefix == other.prefix && self.suffix == other.suffix
    }
}

impl vstd::std_specs::cmp::PartialEqSpecImpl for AccountId {
    open spec fn obeys_eq_spec() -> bool {
        true
    }

    open spec fn eq_spec(&self, other: &AccountId) -> bool {
        self@ == other@
    }
}

impl Eq for AccountId {

}

} // verus!
