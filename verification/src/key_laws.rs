//! What holds of words, account IDs and vault keys as a whole.
use vstd::prelude::*;

use crate::account::{
    account_id_fault, prefix_type, valid_account_id, AccountIdError, AccountType, RawAccountId,
};
use crate::hash::poseidon2;
use crate::vault_key::{
    id_and_faucet_fault, is_fungible_key, key_fault, key_faucet, key_flag, make_key, smt_key,
    valid_key, AssetCallbackFlag, VaultKeyFault,
};
use crate::word::{empty_word, word_elements, word_less, RawWord, FIELD_ORDER};

verus! {

// WORDS
// ================================================================================================

/// The number whose digits to the base `2^64` are the elements of a word, the lowest digit first.
pub open spec fn word_number(w: RawWord) -> int {
    w.0 + 0x1_0000_0000_0000_0000 * (w.1 + 0x1_0000_0000_0000_0000 * (w.2
        + 0x1_0000_0000_0000_0000 * w.3))
}

/// Words are in the order of their numbers, so that any two different words are ordered one way.
pub proof fn law_word_order(a: RawWord, b: RawWord)
    ensures
        word_less(a, b) <==> word_number(a) < word_number(b),
        word_number(a) == word_number(b) <==> a == b,
{
    let m = 0x1_0000_0000_0000_0000int;
    let a2 = a.2 + m * a.3;
    let b2 = b.2 + m * b.3;
    assert(a2 < b2 <==> (a.3 < b.3 || a.3 == b.3 && a.2 < b.2));
    let a1 = a.1 + m * a2;
    let b1 = b.1 + m * b2;
    assert(a1 < b1 <==> (a2 < b2 || a2 == b2 && a.1 < b.1));
    assert(word_number(a) == a.0 + m * a1 && word_number(b) == b.0 + m * b1);
}

/// A word has four elements, which are listed in order, and the empty word has zeros only. The
/// order of the field is `2^64 - 2^32 + 1`.
pub proof fn law_word_elements(w: RawWord)
    ensures
        word_elements(w) == seq![w.0, w.1, w.2, w.3],
        empty_word() == (0u64, 0u64, 0u64, 0u64),
        FIELD_ORDER == 0x1_0000_0000_0000_0000 - 0x1_0000_0000 + 1,
{
}

// ACCOUNT IDS
// ================================================================================================

/// Two elements are an account ID if and only if the lowest four bits of the prefix are zero, its
/// bits seven and eight are not both set, and the highest bit and the lowest eight bits of the
/// suffix are zero. What is violated first, in this order of checks, is reported: the version, the
/// highest bit and the lowest byte of the suffix, the storage mode.
pub proof fn law_account_ids(prefix: u64, suffix: u64)
    ensures
        ({
            let version = prefix & 0xf;
            let mode = (prefix >> 6) & 3;
            let fault = account_id_fault(prefix, suffix);
            if version != 0 {
                fault == Some(AccountIdError::UnknownAccountIdVersion(version))
            } else if suffix >> 63 != 0 {
                fault == Some(AccountIdError::AccountIdSuffixMostSignificantBitMustBeZero)
            } else if suffix & 0xff != 0 {
                fault == Some(AccountIdError::AccountIdSuffixLeastSignificantByteMustBeZero)
            } else if mode == 3 {
                fault == Some(AccountIdError::UnknownAccountStorageMode(3))
            } else {
                fault is None
            }
        }),
        valid_account_id((prefix, suffix)) <==> {
            &&& prefix < FIELD_ORDER
            &&& prefix & 0xf == 0
            &&& (prefix >> 6) & 3 != 3
            &&& suffix >> 63 == 0
            &&& suffix & 0xff == 0
        },
{
    assert(prefix & 0xf == prefix % 16) by (bit_vector);
    assert((prefix >> 6) & 3 == (prefix / 64) % 4) by (bit_vector);
    assert(suffix >> 63 != 0 <==> suffix >= 0x8000_0000_0000_0000) by (bit_vector);
    assert(suffix & 0xff == suffix % 256) by (bit_vector);
}

/// The type of an account is encoded in bits five and six of the prefix of its ID.
pub proof fn law_account_types(prefix: u64)
    ensures
        prefix_type(prefix) is RegularAccountImmutableCode <==> (prefix >> 4) & 3 == 0,
        prefix_type(prefix) is RegularAccountUpdatableCode <==> (prefix >> 4) & 3 == 1,
        prefix_type(prefix) is FungibleFaucet <==> (prefix >> 4) & 3 == 2,
        prefix_type(prefix) is NonFungibleFaucet <==> (prefix >> 4) & 3 == 3,
{
    assert((prefix >> 4) & 3 == (prefix / 16) % 4) by (bit_vector);
    assert((prefix >> 4) & 3 < 4) by (bit_vector);
}

// VAULT KEYS
// ================================================================================================

/// An asset ID and an account can be those of a vault key: the account is a faucet, and the asset
/// ID is zero if the faucet is fungible.
pub open spec fn can_issue(asset_id: (u64, u64), faucet: RawAccountId) -> bool {
    match prefix_type(faucet.0) {
        AccountType::NonFungibleFaucet => true,
        AccountType::FungibleFaucet => asset_id.0 == 0 && asset_id.1 == 0,
        _ => false,
    }
}

/// A vault key is made for every asset ID and faucet that fit, and for no others. An account that
/// is no faucet is reported first.
pub proof fn law_when_key_is_made(asset_id: (u64, u64), faucet: RawAccountId)
    ensures
        id_and_faucet_fault(asset_id, faucet) is None <==> can_issue(asset_id, faucet),
        id_and_faucet_fault(asset_id, faucet) matches Some(fault) ==> if prefix_type(
            faucet.0,
        ) is FungibleFaucet {
            fault == VaultKeyFault::FungibleAssetIdMustBeZero(asset_id)
        } else {
            fault == VaultKeyFault::NotAFaucetId(faucet)
        },
{
}

/// A vault key holds its parts: the two elements of the asset ID, the suffix of the faucet with the
/// callback flag in its lowest bit, and the prefix of the faucet. They can be read back.
pub proof fn law_key_holds_parts(asset_id: (u64, u64), faucet: RawAccountId, flag: u64)
    requires
        valid_account_id(faucet),
        flag <= 1,
    ensures
        ({
            let key = make_key(asset_id, faucet, flag);
            &&& key.0 == asset_id.0 && key.1 == asset_id.1
            &&& key.2 == faucet.1 | flag
            &&& key.3 == faucet.0
            &&& key_faucet(key) == faucet
            &&& key_flag(key) == flag
        }),
        AssetCallbackFlag::Disabled.code() == 0,
        AssetCallbackFlag::Enabled.code() == 1,
{
    let suffix = faucet.1;
    assert(suffix % 256 == 0 && flag <= 1 ==> suffix | flag == suffix + flag) by (bit_vector);
}

/// Vault keys with different parts are different.
pub proof fn law_key_determines_parts(
    a: ((u64, u64), RawAccountId, u64),
    b: ((u64, u64), RawAccountId, u64),
)
    requires
        valid_account_id(a.1),
        valid_account_id(b.1),
        a.2 <= 1,
        b.2 <= 1,
        make_key(a.0, a.1, a.2) == make_key(b.0, b.1, b.2),
    ensures
        a == b,
{
    law_key_holds_parts(a.0, a.1, a.2);
    law_key_holds_parts(b.0, b.1, b.2);
}

/// A word is decoded as a vault key if and only if it is made of an asset ID, the ID of a faucet
/// that can issue it, and a callback flag.
pub proof fn law_decoded_keys(word: RawWord)
    requires
        word.0 < FIELD_ORDER,
        word.1 < FIELD_ORDER,
        word.3 < FIELD_ORDER,
    ensures
        key_fault(word) is None <==> exists|asset_id: (u64, u64), faucet: RawAccountId, flag: u64|
            {
                &&& word == #[trigger] make_key(asset_id, faucet, flag)
                &&& valid_account_id(faucet) && flag <= 1
                &&& can_issue(asset_id, faucet)
            },
        key_fault(word) is None <==> valid_key(word),
        is_fungible_key(word) <==> prefix_type(word.3) is FungibleFaucet,
{
    if key_fault(word) is None {
        let faucet = (word.3, (word.2 - word.2 % 256) as u64);
        assert(word == make_key((word.0, word.1), faucet, word.2 % 256));
    }
    if exists|asset_id: (u64, u64), faucet: RawAccountId, flag: u64|
        {
            &&& word == #[trigger] make_key(asset_id, faucet, flag)
            &&& valid_account_id(faucet) && flag <= 1
            &&& can_issue(asset_id, faucet)
        } {
        let (asset_id, faucet, flag) = choose|
            asset_id: (u64, u64),
            faucet: RawAccountId,
            flag: u64,
        |
            {
                &&& word == #[trigger] make_key(asset_id, faucet, flag)
                &&& valid_account_id(faucet) && flag <= 1
                &&& can_issue(asset_id, faucet)
            };
        law_key_holds_parts(asset_id, faucet, flag);
    }
}

/// A word is refused as a vault key for its callback flag first, then for the account ID, and then
/// for what the account cannot issue.
pub proof fn law_refused_keys(word: RawWord)
    ensures
        ({
            let flag = word.2 & 0xff;
            let faucet = (word.3, (word.2 - flag) as u64);
            key_fault(word) matches Some(fault) ==> if flag > 1 {
                fault == VaultKeyFault::UnknownCallbackFlag(flag)
            } else {
                match account_id_fault(faucet.0, faucet.1) {
                    Some(err) => fault == VaultKeyFault::InvalidFaucetAccountId(err),
                    None => id_and_faucet_fault((word.0, word.1), faucet) == Some(fault),
                }
            }
        }),
        word.2 & 0xff > 1 ==> key_fault(word) is Some,
{
    let third = word.2;
    assert(third & 0xff == third % 256) by (bit_vector);
}

/// A tree stores an asset under the hash of the four elements of its vault key.
pub proof fn law_tree_key(key: RawWord)
    ensures
        smt_key(key) == poseidon2(seq![key.0, key.1, key.2, key.3]),
{
}

} // verus!
