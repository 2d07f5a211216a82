//! Identifiers of transaction batches.
use vstd::prelude::*;

use crate::account::{AccountId, RawAccountId};
use crate::hash::{hash_elements, poseidon2, word_hex, word_to_hex};
use crate::transaction::{ProvenTransaction, TransactionId, TransactionState};
use crate::word::{felt_values, word_elements, Felt, RawWord, Word};

verus! {

/// The elements whose hash is the ID of a batch: for each transaction in order,
/// `[transaction_id[4], account_id_prefix, account_id_suffix, 0, 0]`.
pub open spec fn batch_elements(ids: Seq<(RawWord, RawAccountId)>) -> Seq<u64>
    decreases ids.len(),
{
    if ids.len() == 0 {
        Seq::empty()
    } else {
        batch_elements(ids.drop_last()) + word_elements(ids.last().0) + seq![
            ids.last().1.0,
            ids.last().1.1,
            0,
            0,
        ]
    }
}

/// The values of a list of transaction and account IDs.
pub open spec fn id_values(ids: Seq<(TransactionId, AccountId)>) -> Seq<(RawWord, RawAccountId)> {
    Seq::new(ids.len(), |i: int| (ids[i].0@, ids[i].1@))
}

/// The transaction and account IDs of a list of transactions.
pub open spec fn transaction_ids(txs: Seq<TransactionState>) -> Seq<(RawWord, RawAccountId)> {
    Seq::new(txs.len(), |i: int| (txs[i].id, txs[i].account_id))
}

/// The values of a list of transactions.
pub open spec fn transaction_values(txs: Seq<ProvenTransaction>) -> Seq<TransactionState> {
    Seq::new(txs.len(), |i: int| txs[i]@)
}

/// Identifies a batch of transactions.
///
/// This is a sequential hash of the tuples `(TRANSACTION_ID || [account_id_prefix,
/// account_id_suffix, 0, 0])` of all transactions of the batch and the accounts that they were
/// executed against.
#[derive(Clone, Copy, Debug)]
pub struct BatchId(Word);

impl View for BatchId {
    type V = RawWord;

    closed spec fn view(&self) -> RawWord {
        self.0@
    }
}

impl BatchId {
    /// Creates a batch ID from its word.
    pub fn from_raw(word: Word) -> (r: BatchId)
        ensures
            r@ == word@,
    {
        BatchId(word)
    }

    /// Computes the ID of a list of transactions.
    pub fn from_transactions(txs: &Vec<ProvenTransaction>) -> (r: BatchId)
        ensures
            r@ == poseidon2(batch_elements(transaction_ids(transaction_values(txs@)))),
    {
        BatchId::from_ids(&BatchId::ids_of(txs))
    }

    /// Returns the transaction and account IDs of a list of transactions.
    pub fn ids_of(txs: &Vec<ProvenTransaction>) -> (r: Vec<(TransactionId, AccountId)>)
        ensures
            id_values(r@) == transaction_ids(transaction_values(txs@)),
    {
        let mut ids: Vec<(TransactionId, AccountId)> = Vec::new();
        let mut i: usize = 0;
        while i < txs.len()
            invariant
                i <= txs.len(),
                ids@.len() == i,
                forall|j: int|
                    0 <= j < i ==> (#[trigger] ids@[j]).0@ == txs@[j]@.id && ids@[j].1@
                        == txs@[j]@.account_id,
            decreases txs.len() - i,
        {
            ids.push((txs[i].id(), txs[i].account_id()));
            i += 1;
        }
        assert(id_values(ids@) =~= transaction_ids(transaction_values(txs@)));
        ids
    }

    /// Computes the ID of a list of transaction and account IDs.
    pub fn from_ids(ids: &Vec<(TransactionId, AccountId)>) -> (r: BatchId)
        ensures
            r@ == poseidon2(batch_elements(id_values(ids@))),
    {
        BatchId(hash_elements(&BatchId::hash_input_elements(ids)))
    }

    /// Returns the elements that [`BatchId::from_ids`] hashes.
    ///
    /// The batch kernel reads the same elements from the advice provider and asserts that their
    /// hash is its public input.
    pub fn hash_input_elements(ids: &Vec<(TransactionId, AccountId)>) -> (r: Vec<Felt>)
        ensures
            felt_values(r@) == batch_elements(id_values(ids@)),
    {
        let ghost values = id_values(ids@);
        let mut elements: Vec<Felt> = Vec::new();
        let mut i: usize = 0;
        assert(felt_values(elements@) =~= batch_elements(values.take(0)));
        while i < ids.len()
            invariant
                i <= ids.len(),
                values == id_values(ids@),
                felt_values(elements@) == batch_elements(values.take(i as int)),
            decreases ids.len() - i,
        {
            let account_id = ids[i].1;
            proof {
                use_type_invariant(&account_id);
            }
            ids[i].0.as_word().append_to(&mut elements);
            Word::new(
                Felt::new(account_id.prefix()),
                Felt::new(account_id.suffix()),
                Felt::zero(),
                Felt::zero(),
            ).append_to(&mut elements);
            assert(values.take(i + 1).drop_last() =~= values.take(i as int));
            assert(felt_values(elements@) =~= batch_elements(values.take(i + 1)));
            i += 1;
        }
        assert(values.take(i as int) =~= values);
        elements
    }

    /// Returns the hexadecimal string of the ID.
    pub fn to_hex(&self) -> (r: String)
        ensures
            r@ == word_hex(self@),
    {
        word_to_hex(&self.0)
    }

    /// Returns the word of the ID.
    pub fn as_word(&self) -> (r: Word)
        ensures
            r@ == self@,
    {
        self.0
    }
}

impl PartialEq for BatchId {
    fn eq(&self, other: &BatchId) -> (r: bool) {
        self.0 == other.0
    }
}

impl vstd::std_specs::cmp::PartialEqSpecImpl for BatchId {
    open spec fn obeys_eq_spec() -> bool {
        true
    }

    open spec fn eq_spec(&self, other: &BatchId) -> bool {
        self@ == other@
    }
}

impl Eq for BatchId {

}

} // verus!
