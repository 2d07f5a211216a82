//! What holds of the interface of the batch kernel as a whole.
use vstd::prelude::*;

use crate::account::RawAccountId;
use crate::batch::{valid_batch, ProposedBatchState};
use crate::batch_id::{batch_elements, transaction_ids};
use crate::hash::poseidon2;
use crate::kernel::{
    all_input_elements, all_output_elements, batch_advice_map, kernel_output_stack, parsed_outputs,
    with_transaction_advice, with_transactions_advice, KernelOutputs, OutputFault,
};
use crate::transaction::{
    input_note_elements, lemma_note_elements_len, output_note_elements, sequential_commitment,
    transaction_header_elements, valid_transaction, TransactionState,
};
use crate::vm::{no_advice, padded, word_at, STACK_DEPTH};
use crate::word::{empty_word, word_elements, RawWord};

verus! {

/// Reading the outputs from a stack gives back the outputs that the stack was built from.
pub proof fn law_parsing_reads_what_was_built(outputs: KernelOutputs)
    ensures
        parsed_outputs(kernel_output_stack(outputs)) == Ok::<_, OutputFault>(outputs),
{
    let elements = word_elements(outputs.0) + word_elements(outputs.1) + seq![outputs.2 as u64];
    assert(elements.len() == 9);
    let stack = kernel_output_stack(outputs);
    assert(word_at(stack, 0) == outputs.0);
    assert(word_at(stack, 4) == outputs.1);
    assert(stack[8] == outputs.2);
}

/// A stack from which outputs can be read is the one that is built from these outputs.
pub proof fn law_only_built_stacks_are_parsed(stack: Seq<u64>, outputs: KernelOutputs)
    requires
        stack.len() == STACK_DEPTH,
        parsed_outputs(stack) == Ok::<_, OutputFault>(outputs),
    ensures
        stack == kernel_output_stack(outputs),
{
    let elements = word_elements(outputs.0) + word_elements(outputs.1) + seq![outputs.2 as u64];
    assert(elements.len() == 9);
    assert(stack =~= padded(elements));
}

/// Every list of the map hashes to its key.
pub open spec fn hashes_to_keys(map: Map<RawWord, Seq<u64>>) -> bool {
    forall|k: RawWord| #[trigger] map.contains_key(k) ==> poseidon2(map[k]) == k
}

/// Every list of the advice map of a batch hashes to its key. So the kernel can check all that it
/// reads.
pub proof fn law_advice_hashes_to_keys(batch: ProposedBatchState)
    requires
        valid_batch(batch),
    ensures
        hashes_to_keys(batch_advice_map(batch)),
{
    lemma_transactions_hash_to_keys(
        no_advice().insert(batch.id, batch_elements(transaction_ids(batch.transactions))),
        batch.transactions,
    );
}

/// Adding the data of valid transactions keeps lists that hash to their keys.
proof fn lemma_transactions_hash_to_keys(
    map: Map<RawWord, Seq<u64>>,
    txs: Seq<TransactionState>,
)
    requires
        hashes_to_keys(map),
        forall|i: int| 0 <= i < txs.len() ==> valid_transaction(#[trigger] txs[i]),
    ensures
        hashes_to_keys(with_transactions_advice(map, txs)),
    decreases txs.len(),
{
    if txs.len() > 0 {
        let rest = txs.drop_last();
        assert forall|i: int| 0 <= i < rest.len() implies valid_transaction(#[trigger] rest[i]) by {
            assert(rest[i] == txs[i]);
        }
        lemma_transactions_hash_to_keys(map, rest);
        let before = with_transactions_advice(map, rest);
        let tx = txs[txs.len() - 1];
        assert(valid_transaction(tx));
        let after = with_transaction_advice(before, tx);
        assert forall|k: RawWord| #[trigger] after.contains_key(k) implies poseidon2(after[k])
            == k by {
            if before.contains_key(k) {
                assert(poseidon2(before[k]) == k);
            }
        }
    }
}

/// The advice map of a batch has a list for all that the kernel looks up: under the ID of the
/// batch, under the ID of every transaction, and under every commitment to notes that is not empty.
pub proof fn law_advice_is_complete(batch: ProposedBatchState)
    ensures
        batch_advice_map(batch).contains_key(batch.id),
        forall|i: int|
            0 <= i < batch.transactions.len() ==> holds_transaction(
                batch_advice_map(batch),
                #[trigger] batch.transactions[i],
            ),
{
    lemma_transactions_complete(
        no_advice().insert(batch.id, batch_elements(transaction_ids(batch.transactions))),
        batch.transactions,
    );
}

/// The map has lists for the header of a transaction and for its notes, unless it has none.
pub open spec fn holds_transaction(map: Map<RawWord, Seq<u64>>, tx: TransactionState) -> bool {
    &&& map.contains_key(tx.id)
    &&& tx.input_commitment != empty_word() ==> map.contains_key(tx.input_commitment)
    &&& tx.output_commitment != empty_word() ==> map.contains_key(tx.output_commitment)
}

/// Adding the data of transactions adds lists for all of them and takes none away.
proof fn lemma_transactions_complete(map: Map<RawWord, Seq<u64>>, txs: Seq<TransactionState>)
    ensures
        forall|k: RawWord|
            map.contains_key(k) ==> #[trigger] with_transactions_advice(map, txs).contains_key(k),
        forall|i: int|
            0 <= i < txs.len() ==> holds_transaction(
                with_transactions_advice(map, txs),
                #[trigger] txs[i],
            ),
    decreases txs.len(),
{
    if txs.len() > 0 {
        let rest = txs.drop_last();
        lemma_transactions_complete(map, rest);
        let before = with_transactions_advice(map, rest);
        assert forall|i: int| 0 <= i < txs.len() implies holds_transaction(
            with_transactions_advice(map, txs),
            #[trigger] txs[i],
        ) by {
            if i < rest.len() {
                assert(holds_transaction(before, rest[i]));
            }
        }
    }
}

/// After the data of a transaction has been added, its header is found under its ID and its notes
/// under the commitments to them, unless two of these three keys are equal.
pub proof fn law_transaction_advice_is_found(map: Map<RawWord, Seq<u64>>, tx: TransactionState)
    requires
        tx.id != tx.input_commitment,
        tx.id != tx.output_commitment,
        tx.input_commitment != tx.output_commitment,
    ensures
        with_transaction_advice(map, tx)[tx.id] == transaction_header_elements(tx),
        tx.input_commitment != empty_word() ==> with_transaction_advice(map, tx)[tx.input_commitment]
            == input_note_elements(tx.inputs),
        tx.output_commitment != empty_word() ==> with_transaction_advice(
            map,
            tx,
        )[tx.output_commitment] == output_note_elements(tx.outputs),
{
}

/// For a batch of one transaction, the commitments that the kernel computes are those of the
/// transaction.
pub proof fn law_single_transaction_commitments(tx: TransactionState)
    requires
        valid_transaction(tx),
    ensures
        sequential_commitment(all_input_elements(seq![tx])) == tx.input_commitment,
        sequential_commitment(all_output_elements(seq![tx])) == tx.output_commitment,
{
    let txs = seq![tx];
    assert(txs.drop_last() =~= Seq::empty());
    assert(all_input_elements(txs.drop_last()) =~= Seq::empty());
    assert(all_output_elements(txs.drop_last()) =~= Seq::empty());
    assert(all_input_elements(txs) =~= input_note_elements(tx.inputs));
    assert(all_output_elements(txs) =~= output_note_elements(tx.outputs));
}

/// The commitment to the notes of a transaction is empty if there are none; otherwise it is the
/// hash of eight elements for each note.
pub proof fn law_note_commitments(tx: TransactionState)
    requires
        valid_transaction(tx),
    ensures
        tx.input_commitment == (if tx.inputs.len() == 0 {
            empty_word()
        } else {
            poseidon2(input_note_elements(tx.inputs))
        }),
        tx.output_commitment == (if tx.outputs.len() == 0 {
            empty_word()
        } else {
            poseidon2(output_note_elements(tx.outputs))
        }),
        input_note_elements(tx.inputs).len() == 8 * tx.inputs.len(),
        output_note_elements(tx.outputs).len() == 8 * tx.outputs.len(),
{
    lemma_note_elements_len(tx.inputs, tx.outputs);
}

/// The elements of a batch have eight elements for each transaction.
proof fn lemma_batch_elements_len(ids: Seq<(RawWord, RawAccountId)>)
    ensures
        batch_elements(ids).len() == 8 * ids.len(),
    decreases ids.len(),
{
    if ids.len() > 0 {
        lemma_batch_elements_len(ids.drop_last());
    }
}

/// The elements that are hashed to the ID of a batch determine the IDs of its transactions and of
/// their accounts: different lists have different elements.
pub proof fn law_batch_elements_determine_ids(
    a: Seq<(RawWord, RawAccountId)>,
    b: Seq<(RawWord, RawAccountId)>,
)
    requires
        batch_elements(a) == batch_elements(b),
    ensures
        a == b,
    decreases a.len(),
{
    lemma_batch_elements_len(a);
    lemma_batch_elements_len(b);
    if a.len() > 0 {
        let n = batch_elements(a).len() - 8;
        let rest_a = a.drop_last();
        let rest_b = b.drop_last();
        lemma_batch_elements_len(rest_a);
        lemma_batch_elements_len(rest_b);
        assert(batch_elements(a).take(n) =~= batch_elements(rest_a));
        assert(batch_elements(b).take(n) =~= batch_elements(rest_b));
        law_batch_elements_determine_ids(rest_a, rest_b);
        let last_a = word_elements(a.last().0) + seq![a.last().1.0, a.last().1.1, 0, 0];
        let last_b = word_elements(b.last().0) + seq![b.last().1.0, b.last().1.1, 0, 0];
        assert(batch_elements(a).skip(n) =~= last_a);
        assert(batch_elements(b).skip(n) =~= last_b);
        assert(last_a[0] == last_b[0] && last_a[1] == last_b[1] && last_a[2] == last_b[2]
            && last_a[3] == last_b[3] && last_a[4] == last_b[4] && last_a[5] == last_b[5]);
        assert(a =~= rest_a.push(a.last()));
        assert(b =~= rest_b.push(b.last()));
    } else {
        assert(a =~= b);
    }
}

} // verus!
