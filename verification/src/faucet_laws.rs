//! What holds of faucets and of the metadata of their tokens as a whole.
use vstd::prelude::*;

use crate::account::{valid_account_id, RawAccountId};
use crate::faucet::{
    decoded_metadata, decoded_owners, has_slot, metadata_fault, metadata_word, slot_value,
    supply_fault, symbol_fault, symbols_of_length, AccountState, AgglayerFaucetError,
    FaucetInterface, FungibleFaucetError, Ownable2StepError, TokenMetadataState, TokenSymbolError,
};
use crate::word::{RawWord, FIELD_ORDER};

verus! {

// TOKEN SYMBOLS
// ================================================================================================

/// The letters of a word over an alphabet of 26 letters, each as its position in the alphabet.
pub open spec fn are_letters(letters: Seq<int>) -> bool {
    forall|i: int| 0 <= i < letters.len() ==> 0 <= #[trigger] letters[i] < 26
}

/// The number whose digits to the base 26 are the given letters, the highest digit first.
pub open spec fn letters_number(letters: Seq<int>) -> int
    decreases letters.len(),
{
    if letters.len() == 0 {
        0
    } else {
        26 * letters_number(letters.drop_last()) + letters.last()
    }
}

/// The integer that encodes a list of letters: the letters as digits, followed by their number.
pub open spec fn encoded_letters(letters: Seq<int>) -> int {
    26 * letters_number(letters) + letters.len()
}

/// The list has one to twelve letters.
pub open spec fn is_symbol(letters: Seq<int>) -> bool {
    1 <= letters.len() <= 12 && are_letters(letters)
}

/// The number of a word is less than the number of words of its length.
proof fn lemma_letters_bound(letters: Seq<int>)
    requires
        are_letters(letters),
    ensures
        0 <= letters_number(letters) < symbols_of_length(letters.len() as int),
    decreases letters.len(),
{
    if letters.len() > 0 {
        let rest = letters.drop_last();
        assert forall|i: int| 0 <= i < rest.len() implies 0 <= #[trigger] rest[i] < 26 by {
            assert(rest[i] == letters[i]);
        }
        lemma_letters_bound(rest);
        assert(0 <= letters[letters.len() - 1] < 26);
    }
}

/// Every number that is less than the number of words of a length is that of a word of this length.
proof fn lemma_letters_of(number: int, length: nat) -> (letters: Seq<int>)
    requires
        0 <= number < symbols_of_length(length as int),
    ensures
        letters.len() == length,
        are_letters(letters),
        letters_number(letters) == number,
    decreases length,
{
    if length == 0 {
        Seq::empty()
    } else {
        let rest = lemma_letters_of(number / 26, (length - 1) as nat);
        let letters = rest.push(number % 26);
        assert(letters.drop_last() =~= rest);
        assert forall|i: int| 0 <= i < letters.len() implies 0 <= #[trigger] letters[i] < 26 by {
            if i < rest.len() {
                assert(letters[i] == rest[i]);
            }
        }
        letters
    }
}

/// There are fewer than `2^57` words of at most twelve letters.
proof fn lemma_symbols_bound(length: int)
    requires
        0 <= length <= 12,
    ensures
        symbols_of_length(length) < 0x200_0000_0000_0000,
{
    reveal_with_fuel(symbols_of_length, 13);
}

/// A field element is a token symbol if and only if it encodes a list of one to twelve letters.
/// Every such list is encoded by a field element.
pub proof fn law_token_symbols(encoded: u64)
    ensures
        symbol_fault(encoded) is None <==> exists|letters: Seq<int>| #[trigger]
            is_symbol(letters) && encoded_letters(letters) == encoded,
        forall|letters: Seq<int>| #[trigger]
            is_symbol(letters) ==> 0 < encoded_letters(letters) < FIELD_ORDER,
{
    assert forall|letters: Seq<int>| #[trigger] is_symbol(letters) implies 0 < encoded_letters(
        letters,
    ) < FIELD_ORDER by {
        lemma_letters_bound(letters);
        lemma_symbols_bound(letters.len() as int);
    }
    let length = (encoded % 26) as int;
    if symbol_fault(encoded) is None {
        let letters = lemma_letters_of((encoded / 26) as int, length as nat);
        assert(is_symbol(letters) && encoded_letters(letters) == encoded);
    }
    if exists|letters: Seq<int>| #[trigger]
        is_symbol(letters) && encoded_letters(letters) == encoded {
        let letters = choose|letters: Seq<int>| #[trigger]
            is_symbol(letters) && encoded_letters(letters) == encoded;
        lemma_letters_bound(letters);
        assert(encoded % 26 == letters.len() && encoded / 26 == letters_number(letters));
    }
}

/// Two lists of letters that are encoded by the same field element are the same.
pub proof fn law_token_symbols_are_unique(a: Seq<int>, b: Seq<int>)
    requires
        is_symbol(a),
        is_symbol(b),
        encoded_letters(a) == encoded_letters(b),
    ensures
        a == b,
{
    assert(a.len() == b.len() && letters_number(a) == letters_number(b));
    lemma_letters_unique(a, b);
}

/// Two words of the same length with the same number are the same.
proof fn lemma_letters_unique(a: Seq<int>, b: Seq<int>)
    requires
        are_letters(a),
        are_letters(b),
        a.len() == b.len(),
        letters_number(a) == letters_number(b),
    ensures
        a == b,
    decreases a.len(),
{
    if a.len() > 0 {
        let n = a.len() - 1;
        assert(0 <= a[n] < 26 && 0 <= b[n] < 26);
        let rest_a = a.drop_last();
        let rest_b = b.drop_last();
        assert forall|i: int| 0 <= i < n implies 0 <= #[trigger] rest_a[i] < 26 by {
            assert(rest_a[i] == a[i]);
        }
        assert forall|i: int| 0 <= i < n implies 0 <= #[trigger] rest_b[i] < 26 by {
            assert(rest_b[i] == b[i]);
        }
        lemma_letters_unique(rest_a, rest_b);
        assert(a =~= rest_a.push(a[n]));
        assert(b =~= rest_b.push(b[n]));
    } else {
        assert(a =~= b);
    }
}

/// What is refused as a token symbol is refused for the number of letters, which is zero or more
/// than twelve, or because the digits do not end with the letters.
pub proof fn law_refused_token_symbols(encoded: u64)
    ensures
        symbol_fault(encoded) matches Some(fault) ==> {
            if 1 <= encoded % 26 <= 12 {
                fault == TokenSymbolError::DataNotFullyDecoded
            } else {
                fault == TokenSymbolError::InvalidLength(encoded % 26)
            }
        },
{
}

// TOKEN METADATA
// ================================================================================================

/// The numbers of a token are accepted if and only if there are at most twelve decimals, the
/// largest supply is at most `2^63 - 2^31`, and the supply is at most the largest supply. Otherwise
/// the first of the three that does not hold is reported.
pub proof fn law_when_metadata_is_accepted(decimals: u8, max_supply: u64, token_supply: u64)
    ensures
        metadata_fault(decimals, max_supply, token_supply) is None <==> (decimals <= 12
            && max_supply <= 0x8000_0000_0000_0000 - 0x8000_0000 && token_supply <= max_supply),
        decimals > 12 ==> metadata_fault(decimals, max_supply, token_supply) == Some(
            FungibleFaucetError::TooManyDecimals { actual: decimals as u64, max: 12 },
        ),
        decimals <= 12 && max_supply > 0x8000_0000_0000_0000 - 0x8000_0000 ==> metadata_fault(
            decimals,
            max_supply,
            token_supply,
        ) == Some(
            FungibleFaucetError::MaxSupplyTooLarge {
                actual: max_supply,
                max: (0x8000_0000_0000_0000 - 0x8000_0000) as u64,
            },
        ),
        decimals <= 12 && max_supply <= 0x8000_0000_0000_0000 - 0x8000_0000 && token_supply
            > max_supply ==> metadata_fault(decimals, max_supply, token_supply) == Some(
            FungibleFaucetError::TokenSupplyExceedsMaxSupply { token_supply, max_supply },
        ),
{
}

/// Another supply is accepted if and only if it is at most the largest supply. In particular, what
/// has been issued can always be set back to nothing.
pub proof fn law_when_supply_is_accepted(max_supply: u64, token_supply: u64)
    ensures
        supply_fault(max_supply, token_supply) is None <==> token_supply <= max_supply,
        token_supply > max_supply ==> supply_fault(max_supply, token_supply) == Some(
            FungibleFaucetError::TokenSupplyExceedsMaxSupply { token_supply, max_supply },
        ),
        supply_fault(max_supply, 0) is None,
{
}

/// The supply of a token can be set to every value that it could have been created with, and to no
/// other.
pub proof fn law_supply_as_at_creation(decimals: u8, max_supply: u64, first: u64, second: u64)
    requires
        metadata_fault(decimals, max_supply, first) is None,
    ensures
        supply_fault(max_supply, second) is None <==> metadata_fault(
            decimals,
            max_supply,
            second,
        ) is None,
        second <= first ==> supply_fault(max_supply, second) is None,
{
}

/// A word holds the metadata of a token if and only if its elements are a supply, a largest supply
/// that it does not exceed, a number of decimals and a symbol. These are then what is read.
pub proof fn law_decoded_metadata(word: RawWord)
    ensures
        decoded_metadata(word) is Ok <==> {
            &&& word.0 <= word.1 <= 0x8000_0000_0000_0000 - 0x8000_0000
            &&& word.2 <= 12
            &&& exists|letters: Seq<int>| #[trigger]
                is_symbol(letters) && encoded_letters(letters) == word.3
        },
        decoded_metadata(word) matches Ok(metadata) ==> metadata.token_supply == word.0
            && metadata.max_supply == word.1 && metadata.decimals == word.2 && metadata.symbol
            == word.3,
{
    law_token_symbols(word.3);
}

/// The metadata of a token is written in the order supply, largest supply, decimals, symbol.
pub proof fn law_metadata_positions(metadata: TokenMetadataState)
    ensures
        metadata_word(metadata).0 == metadata.token_supply,
        metadata_word(metadata).1 == metadata.max_supply,
        metadata_word(metadata).2 == metadata.decimals,
        metadata_word(metadata).3 == metadata.symbol,
{
}

/// What is refused as the metadata of a token is refused for its symbol first, and else for its
/// numbers.
pub proof fn law_refused_metadata(word: RawWord)
    ensures
        decoded_metadata(word) matches Err(fault) ==> match symbol_fault(word.3) {
            Some(symbol) => fault == FungibleFaucetError::InvalidTokenSymbol(symbol),
            None => if word.2 > 12 {
                fault == (FungibleFaucetError::TooManyDecimals { actual: word.2, max: 12 })
            } else {
                metadata_fault(word.2 as u8, word.1, word.0) == Some(fault)
            },
        },
{
}

// OWNERS
// ================================================================================================

/// Two elements hold an optional account ID: zeros for none, or the suffix and the prefix of an ID.
pub open spec fn holds_id(suffix: u64, prefix: u64, id: Option<RawAccountId>) -> bool {
    match id {
        None => suffix == 0 && prefix == 0,
        Some(id) => id == (prefix, suffix) && valid_account_id(id) && !(suffix == 0 && prefix
            == 0),
    }
}

/// A word holds owners if and only if its first two elements hold the owner and the other two the
/// nominated owner, each the suffix before the prefix. These are then what is read.
pub proof fn law_decoded_owners(
    word: RawWord,
    owner: Option<RawAccountId>,
    nominated: Option<RawAccountId>,
)
    requires
        word.1 < FIELD_ORDER,
        word.3 < FIELD_ORDER,
    ensures
        decoded_owners(word) == Ok::<_, Ownable2StepError>((owner, nominated)) <==> (holds_id(
            word.0,
            word.1,
            owner,
        ) && holds_id(word.2, word.3, nominated)),
{
}

/// A word is refused for its owner if the first two elements hold none, and else for its nominated
/// owner.
pub proof fn law_refused_owners(word: RawWord)
    requires
        word.1 < FIELD_ORDER,
        word.3 < FIELD_ORDER,
    ensures
        decoded_owners(word) matches Err(Ownable2StepError::InvalidOwnerId(_)) <==> forall|
            owner: Option<RawAccountId>,
        |
            !(#[trigger] holds_id(word.0, word.1, owner)),
        decoded_owners(word) matches Err(fault) ==> fault !is StorageLookupFailed,
{
    let first = (word.1, word.0);
    assert(holds_id(word.0, word.1, None) == (word.0 == 0 && word.1 == 0));
    assert(holds_id(word.0, word.1, Some(first)) == (valid_account_id(first) && !(word.0 == 0
        && word.1 == 0)));
}

// ACCOUNTS
// ================================================================================================

/// The value of a slot is that of the first slot with this name; there is none if and only if no
/// slot has the name.
pub proof fn law_slot_value(slots: Seq<(Seq<char>, RawWord)>, name: Seq<char>)
    ensures
        match slot_value(slots, name) {
            Some(value) => exists|i: int|
                0 <= i < slots.len() && #[trigger] slots[i] == (name, value) && forall|j: int|
                    0 <= j < i ==> (#[trigger] slots[j]).0 != name,
            None => forall|i: int| 0 <= i < slots.len() ==> (#[trigger] slots[i]).0 != name,
        },
    decreases slots.len(),
{
    if slots.len() > 0 {
        if slots[0].0 == name {
            assert(slots[0] == (name, slots[0].1));
        } else {
            let rest = slots.drop_first();
            law_slot_value(rest, name);
            match slot_value(slots, name) {
                Some(value) => {
                    let i = choose|i: int|
                        0 <= i < rest.len() && #[trigger] rest[i] == (name, value) && forall|j: int|
                            0 <= j < i ==> (#[trigger] rest[j]).0 != name;
                    assert(slots[i + 1] == (name, value));
                    assert forall|j: int| 0 <= j < i + 1 implies (#[trigger] slots[j]).0
                        != name by {
                        if j > 0 {
                            assert(rest[j - 1] == slots[j]);
                        }
                    }
                },
                None => {
                    assert forall|i: int| 0 <= i < slots.len() implies (#[trigger] slots[i]).0
                        != name by {
                        if i > 0 {
                            assert(rest[i - 1] == slots[i]);
                        }
                    }
                },
            }
        }
    }
}

/// An account is a faucet account if and only if it has slots with all five names of the interface
/// and the code of the interface. A missing slot is reported first.
pub proof fn law_faucet_accounts(interface: FaucetInterface, account: AccountState)
    ensures
        ({
            let all_slots = {
                &&& has_slot(account.slots, interface.metadata_slot@)
                &&& has_slot(account.slots, interface.owner_config_slot@)
                &&& has_slot(account.slots, interface.active_policy_proc_root_slot@)
                &&& has_slot(account.slots, interface.allowed_policy_proc_roots_slot@)
                &&& has_slot(account.slots, interface.policy_authority_slot@)
            };
            interface.account_fault(account) == if !all_slots {
                Some(AgglayerFaucetError::StorageSlotsMismatch)
            } else if account.code_commitment != interface.code_commitment@ {
                Some(AgglayerFaucetError::CodeCommitmentMismatch)
            } else {
                None
            }
        }),
        forall|name: Seq<char>| #[trigger]
            has_slot(account.slots, name) <==> slot_value(account.slots, name) is Some,
{
    let names = interface.names();
    assert(names[0] == interface.metadata_slot@);
    assert(names[1] == interface.owner_config_slot@);
    assert(names[2] == interface.active_policy_proc_root_slot@);
    assert(names[3] == interface.allowed_policy_proc_roots_slot@);
    assert(names[4] == interface.policy_authority_slot@);
    assert forall|name: Seq<char>| #[trigger] has_slot(account.slots, name) <==> slot_value(
        account.slots,
        name,
    ) is Some by {
        law_slot_value(account.slots, name);
    }
}

} // verus!
