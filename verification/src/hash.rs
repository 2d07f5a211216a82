//! The hash function of the protocol, and the words of the crypto library.
use vstd::arithmetic::power::pow;
use vstd::prelude::*;

use miden_crypto::Felt as CryptoFelt;
use miden_crypto::Word as CryptoWord;

use crate::word::{felt_values, Felt, RawWord, Word};

verus! {

/// A field element as the crypto library represents it.
#[verifier::external_type_specification]
#[verifier::external_body]
pub struct ExCryptoFelt(CryptoFelt);

/// A word as the crypto library represents it.
#[verifier::external_type_specification]
#[verifier::external_body]
pub struct ExCryptoWord(CryptoWord);

/// The four canonical integers that a word of the crypto library holds.
pub uninterp spec fn crypto_word(w: CryptoWord) -> RawWord;

/// Builds a word of the crypto library with `miden_crypto::Word::new`: it holds the four elements
/// of `w` in order.
#[verifier::external_body]
pub(crate) fn export_word(w: &Word) -> (r: CryptoWord)
    ensures
        crypto_word(r) == w@,
{
    miden_crypto::Word::new([
        miden_crypto::Felt::new(w.element(0).as_canonical_u64()),
        miden_crypto::Felt::new(w.element(1).as_canonical_u64()),
        miden_crypto::Felt::new(w.element(2).as_canonical_u64()),
        miden_crypto::Felt::new(w.element(3).as_canonical_u64()),
    ])
}

/// Reads a word of the crypto library with `miden_crypto::Word::into_elements` and
/// `miden_crypto::Felt::as_canonical_u64`: the result holds the same four elements in order.
#[verifier::external_body]
pub(crate) fn import_word(w: &CryptoWord) -> (r: Word)
    ensures
        r@ == crypto_word(*w),
{
    let [a, b, c, d] = w.into_elements();
    Word::new(
        Felt::new(a.as_canonical_u64()),
        Felt::new(b.as_canonical_u64()),
        Felt::new(c.as_canonical_u64()),
        Felt::new(d.as_canonical_u64()),
    )
}

/// The hexadecimal digit of a number below 16.
pub open spec fn hex_digit(value: int) -> char {
    if value < 10 {
        ('0' as int + value) as char
    } else {
        ('a' as int + value - 10) as char
    }
}

/// The hexadecimal string of an integer: its eight bytes from the lowest to the highest, with two
/// digits for each.
pub open spec fn element_hex(value: u64) -> Seq<char> {
    Seq::new(
        16,
        |i: int|
            {
                let byte = (value as int / pow(256, (i / 2) as nat)) % 256;
                hex_digit(
                    if i % 2 == 0 {
                        byte / 16
                    } else {
                        byte % 16
                    },
                )
            },
    )
}

/// The hexadecimal string of a word: `0x` and the strings of its elements in order.
pub open spec fn word_hex(w: RawWord) -> Seq<char> {
    seq!['0', 'x'] + element_hex(w.0) + element_hex(w.1) + element_hex(w.2) + element_hex(w.3)
}

/// Writes a word with `miden_crypto::Word::to_hex`: `0x`, followed by the little-endian bytes of
/// its elements in order.
#[verifier::external_body]
pub(crate) fn word_to_hex(w: &Word) -> (r: String)
    ensures
        r@ == word_hex(w@),
{
    export_word(w).to_hex()
}

/// The Poseidon2 digest of a sequence of field elements.
pub uninterp spec fn poseidon2(elements: Seq<u64>) -> RawWord;

/// Hashes a sequence of field elements with `Poseidon2::hash_elements`.
///
/// The digest depends on the elements alone. The empty sequence hashes to the empty word, as the
/// documentation of `Poseidon2` says.
#[verifier::external_body]
pub(crate) fn hash_elements(elements: &Vec<Felt>) -> (r: Word)
    ensures
        r@ == poseidon2(felt_values(elements@)),
        elements@.len() == 0 ==> r@ == (0u64, 0u64, 0u64, 0u64),
{
    let input: Vec<miden_crypto::Felt> =
        elements.iter().map(|e| miden_crypto::Felt::new(e.as_canonical_u64())).collect();
    import_word(&miden_crypto::hash::poseidon2::Poseidon2::hash_elements(&input))
}

} // verus!
