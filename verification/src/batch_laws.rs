//! What holds of transactions, of batches and of proving them as a whole.
use vstd::prelude::*;

use miden_core::advice::AdviceInputs;
use miden_core::program::StackInputs;
use miden_core::proof::ExecutionProof;

use crate::account::RawAccountId;
use crate::asset::RawAsset;
use crate::batch::{
    batch_expiration, headers_of, law_batch_expires_with_first, valid_batch, ProposedBatchState,
    ProvenBatchState,
};
use crate::batch_id::{batch_elements, transaction_ids, transaction_values};
use crate::hash::poseidon2;
use crate::kernel::{
    all_input_elements, all_output_elements, batch_advice_map, kernel_inputs, kernel_output_stack,
    parsed_outputs, with_transactions_advice, KernelOutputs, OutputFault,
};
use crate::kernel_laws::{holds_transaction, law_advice_is_complete};
use crate::prover::{
    accepted, is_action_after, proven, KernelFault, ProvenBatchFault, ProverAction,
};
use crate::transaction::{
    header_elements, input_note_elements, input_note_values, lemma_note_elements_len,
    output_note_elements, output_note_values, sequential_commitment, valid_transaction,
    InputNoteCommitment, OutputNote, ProvenTransaction, RawInputNote, RawOutputNote,
    TransactionState,
};
use crate::vm::{
    advice_map, advice_stack, advice_store_is_default, input_stack, no_advice, STACK_DEPTH,
};
use crate::word::{word_elements, RawWord};

verus! {

/// Four elements of a list, from the given position on, as a word.
pub open spec fn word_in(elements: Seq<u64>, at: int) -> RawWord {
    (elements[at], elements[at + 1], elements[at + 2], elements[at + 3])
}

// TRANSACTIONS
// ================================================================================================

/// The header of a transaction has 24 elements: the initial and the final state of the account, the
/// commitments to the input and the output notes, and the vault key and the value of the fee.
pub proof fn law_header_positions(
    initial_state: RawWord,
    final_state: RawWord,
    input_notes: RawWord,
    output_notes: RawWord,
    fee: RawAsset,
)
    ensures
        ({
            let elements = header_elements(
                initial_state,
                final_state,
                input_notes,
                output_notes,
                fee,
            );
            &&& elements.len() == 24
            &&& word_in(elements, 0) == initial_state
            &&& word_in(elements, 4) == final_state
            &&& word_in(elements, 8) == input_notes
            &&& word_in(elements, 12) == output_notes
            &&& word_in(elements, 16) == fee.0
            &&& word_in(elements, 20) == fee.1
        }),
{
}

/// The header of a transaction determines its parts: transactions that differ in one of them have
/// different headers.
pub proof fn law_header_determines_parts(
    a: (RawWord, RawWord, RawWord, RawWord, RawAsset),
    b: (RawWord, RawWord, RawWord, RawWord, RawAsset),
)
    requires
        header_elements(a.0, a.1, a.2, a.3, a.4) == header_elements(b.0, b.1, b.2, b.3, b.4),
    ensures
        a == b,
{
    law_header_positions(a.0, a.1, a.2, a.3, a.4);
    law_header_positions(b.0, b.1, b.2, b.3, b.4);
}

/// The ID of a transaction is the hash of 24 elements that hold the states of the account, the
/// commitments to the notes and the fee.
pub proof fn law_transaction_id(tx: TransactionState)
    requires
        valid_transaction(tx),
    ensures
        exists|elements: Seq<u64>|
            {
                &&& tx.id == #[trigger] poseidon2(elements)
                &&& elements.len() == 24
                &&& word_in(elements, 0) == tx.initial_state
                &&& word_in(elements, 4) == tx.final_state
                &&& word_in(elements, 8) == tx.input_commitment
                &&& word_in(elements, 12) == tx.output_commitment
                &&& word_in(elements, 16) == tx.fee.0
                &&& word_in(elements, 20) == tx.fee.1
            },
{
    law_header_positions(
        tx.initial_state,
        tx.final_state,
        tx.input_commitment,
        tx.output_commitment,
        tx.fee,
    );
    let elements = header_elements(
        tx.initial_state,
        tx.final_state,
        tx.input_commitment,
        tx.output_commitment,
        tx.fee,
    );
    assert(tx.id == poseidon2(elements));
}

/// Every input note takes eight elements: its nullifier, and its commitment or zeros if the note is
/// authenticated.
pub proof fn law_input_note_positions(notes: Seq<RawInputNote>, i: int)
    requires
        0 <= i < notes.len(),
    ensures
        input_note_elements(notes).len() == 8 * notes.len(),
        word_in(input_note_elements(notes), 8 * i) == notes[i].0,
        word_in(input_note_elements(notes), 8 * i + 4) == match notes[i].1 {
            Some(commitment) => commitment,
            None => (0u64, 0u64, 0u64, 0u64),
        },
    decreases notes.len(),
{
    let rest = notes.drop_last();
    lemma_note_elements_len(notes, Seq::empty());
    lemma_note_elements_len(rest, Seq::empty());
    if i < rest.len() {
        law_input_note_positions(rest, i);
    }
}

/// Every output note takes eight elements: its ID and the commitment to its metadata.
pub proof fn law_output_note_positions(notes: Seq<RawOutputNote>, i: int)
    requires
        0 <= i < notes.len(),
    ensures
        output_note_elements(notes).len() == 8 * notes.len(),
        word_in(output_note_elements(notes), 8 * i) == notes[i].0,
        word_in(output_note_elements(notes), 8 * i + 4) == notes[i].1,
    decreases notes.len(),
{
    let rest = notes.drop_last();
    lemma_note_elements_len(Seq::empty(), notes);
    lemma_note_elements_len(Seq::empty(), rest);
    if i < rest.len() {
        law_output_note_positions(rest, i);
    }
}

/// The elements of output notes determine them.
pub proof fn law_output_notes_are_determined(a: Seq<RawOutputNote>, b: Seq<RawOutputNote>)
    requires
        output_note_elements(a) == output_note_elements(b),
    ensures
        a == b,
{
    lemma_note_elements_len(Seq::empty(), a);
    lemma_note_elements_len(Seq::empty(), b);
    assert forall|i: int| 0 <= i < a.len() implies a[i] == b[i] by {
        law_output_note_positions(a, i);
        law_output_note_positions(b, i);
    }
    assert(a =~= b);
}

/// The elements of input notes determine them, up to authenticated notes, which look like notes
/// whose commitment has zeros only.
pub proof fn law_input_notes_are_determined(a: Seq<RawInputNote>, b: Seq<RawInputNote>)
    requires
        input_note_elements(a) == input_note_elements(b),
    ensures
        a.len() == b.len(),
        forall|i: int|
            #![trigger a[i]]
            #![trigger b[i]]
            0 <= i < a.len() ==> a[i].0 == b[i].0 && (a[i].1 == b[i].1 || a[i].1 is None
                && b[i].1 == Some((0u64, 0u64, 0u64, 0u64)) || b[i].1 is None && a[i].1 == Some(
                (0u64, 0u64, 0u64, 0u64),
            )),
{
    lemma_note_elements_len(a, Seq::empty());
    lemma_note_elements_len(b, Seq::empty());
    assert forall|i: int|
        #![trigger a[i]]
        #![trigger b[i]]
        0 <= i < a.len() implies a[i].0 == b[i].0 && (a[i].1 == b[i].1 || a[i].1 is None
        && b[i].1 == Some((0u64, 0u64, 0u64, 0u64)) || b[i].1 is None && a[i].1 == Some(
        (0u64, 0u64, 0u64, 0u64),
    )) by {
        law_input_note_positions(a, i);
        law_input_note_positions(b, i);
    }
}

/// The commitment to a list of elements is their hash, and zeros if there are none.
pub proof fn law_commitments(elements: Seq<u64>)
    ensures
        elements.len() > 0 ==> sequential_commitment(elements) == poseidon2(elements),
        elements.len() == 0 ==> sequential_commitment(elements) == (0u64, 0u64, 0u64, 0u64),
{
}

/// The commitments of a transaction are those to its notes.
pub proof fn law_transaction_commitments(tx: TransactionState)
    requires
        valid_transaction(tx),
    ensures
        tx.inputs.len() == 0 ==> tx.input_commitment == (0u64, 0u64, 0u64, 0u64),
        tx.inputs.len() > 0 ==> tx.input_commitment == poseidon2(input_note_elements(tx.inputs)),
        tx.outputs.len() == 0 ==> tx.output_commitment == (0u64, 0u64, 0u64, 0u64),
        tx.outputs.len() > 0 ==> tx.output_commitment == poseidon2(
            output_note_elements(tx.outputs),
        ),
{
    lemma_note_elements_len(tx.inputs, tx.outputs);
}

/// The values of lists of notes and transactions are those of their members in order.
pub proof fn law_list_values(
    inputs: Seq<InputNoteCommitment>,
    outputs: Seq<OutputNote>,
    txs: Seq<ProvenTransaction>,
)
    ensures
        input_note_values(inputs).len() == inputs.len(),
        forall|i: int|
            0 <= i < inputs.len() ==> input_note_values(inputs)[i] == #[trigger] inputs[i]@,
        output_note_values(outputs).len() == outputs.len(),
        forall|i: int|
            0 <= i < outputs.len() ==> output_note_values(outputs)[i] == #[trigger] outputs[i]@,
        transaction_values(txs).len() == txs.len(),
        forall|i: int| 0 <= i < txs.len() ==> transaction_values(txs)[i] == #[trigger] txs[i]@,
{
}

// BATCHES
// ================================================================================================

/// The elements of a batch: eight for each transaction, its ID, the prefix and the suffix of its
/// account, and two zeros.
pub proof fn law_batch_positions(ids: Seq<(RawWord, RawAccountId)>, i: int)
    requires
        0 <= i < ids.len(),
    ensures
        batch_elements(ids).len() == 8 * ids.len(),
        word_in(batch_elements(ids), 8 * i) == ids[i].0,
        word_in(batch_elements(ids), 8 * i + 4) == (ids[i].1.0, ids[i].1.1, 0u64, 0u64),
    decreases ids.len(),
{
    let rest = ids.drop_last();
    if rest.len() > 0 {
        law_batch_positions(rest, 0);
    }
    assert(batch_elements(rest).len() == 8 * rest.len());
    if i < rest.len() {
        law_batch_positions(rest, i);
    }
}

/// The ID of a batch is the hash of its elements, which hold the IDs of its transactions and their
/// accounts in order. A batch without transactions has the hash of no elements.
pub proof fn law_batch_id(batch: ProposedBatchState)
    requires
        valid_batch(batch),
    ensures
        exists|elements: Seq<u64>|
            {
                &&& batch.id == #[trigger] poseidon2(elements)
                &&& elements.len() == 8 * batch.transactions.len()
                &&& forall|i: int|
                    0 <= i < batch.transactions.len() ==> {
                        let tx = #[trigger] batch.transactions[i];
                        &&& word_in(elements, 8 * i) == tx.id
                        &&& word_in(elements, 8 * i + 4) == (
                            tx.account_id.0,
                            tx.account_id.1,
                            0u64,
                            0u64,
                        )
                    }
            },
{
    let ids = transaction_ids(batch.transactions);
    let elements = batch_elements(ids);
    assert(batch.id == poseidon2(elements));
    if ids.len() > 0 {
        law_batch_positions(ids, 0);
    }
    assert forall|i: int| 0 <= i < batch.transactions.len() implies {
        let tx = #[trigger] batch.transactions[i];
        &&& word_in(elements, 8 * i) == tx.id
        &&& word_in(elements, 8 * i + 4) == (tx.account_id.0, tx.account_id.1, 0u64, 0u64)
    } by {
        law_batch_positions(ids, i);
        assert(ids[i] == (batch.transactions[i].id, batch.transactions[i].account_id));
    }
}

/// A batch expires no later than any of its transactions, and with one of them. Without
/// transactions it never expires.
pub proof fn law_batch_expiration(batch: ProposedBatchState)
    requires
        valid_batch(batch),
    ensures
        forall|i: int|
            0 <= i < batch.transactions.len() ==> batch.expiration <= (
            #[trigger] batch.transactions[i]).expiration,
        batch.transactions.len() > 0 ==> exists|i: int|
            0 <= i < batch.transactions.len() && (#[trigger] batch.transactions[i]).expiration
                == batch.expiration,
        batch.transactions.len() == 0 ==> batch.expiration == 0xffff_ffff,
{
    if batch.transactions.len() > 0 {
        law_batch_expires_with_first(batch.transactions);
    } else {
        assert(batch_expiration(batch.transactions) == 0xffff_ffff);
    }
}

/// A batch is proven if and only if it expires later than the block that it refers to. The proven
/// batch has all that the proposed one has, the headers of its transactions in order, and the
/// proof.
pub proof fn law_proven_batch(batch: ProposedBatchState, proof: ExecutionProof)
    ensures
        proven(batch, proof) is Ok <==> batch.block_num < batch.expiration,
        proven(batch, proof) matches Ok(after) ==> {
            &&& after.id == batch.id
            &&& after.reference_block_commitment == batch.block_commitment
            &&& after.reference_block_num == batch.block_num
            &&& after.account_updates == batch.account_updates
            &&& after.input_notes == batch.input_notes
            &&& after.output_notes == batch.output_notes
            &&& after.expiration == batch.expiration
            &&& after.proof == proof
            &&& after.headers.len() == batch.transactions.len()
            &&& forall|i: int|
                0 <= i < batch.transactions.len() ==> {
                    let tx = #[trigger] batch.transactions[i];
                    let header = after.headers[i];
                    &&& header.id == tx.id
                    &&& header.account_id == tx.account_id
                    &&& header.initial_state == tx.initial_state
                    &&& header.final_state == tx.final_state
                    &&& header.inputs == tx.inputs
                    &&& header.outputs == tx.outputs
                    &&& header.fee == tx.fee
                }
        },
        proven(batch, proof) matches Err(fault) ==> fault == (
        ProvenBatchFault::InvalidBatchExpirationBlockNum {
            batch_expiration_block_num: batch.expiration,
            reference_block_num: batch.block_num,
        }),
{
    let headers = headers_of(batch.transactions);
    assert(headers.len() == batch.transactions.len());
}

// KERNEL INTERFACE
// ================================================================================================

/// The final stack of the kernel has the commitment to the input notes in its first four elements,
/// that to the output notes in the next four, then the expiration, and zeros below.
pub proof fn law_output_stack_positions(outputs: KernelOutputs)
    ensures
        ({
            let stack = kernel_output_stack(outputs);
            &&& stack.len() == 16
            &&& word_in(stack, 0) == outputs.0
            &&& word_in(stack, 4) == outputs.1
            &&& stack[8] == outputs.2
            &&& forall|i: int| 9 <= i < 16 ==> #[trigger] stack[i] == 0
        }),
{
}

/// Outputs are read from a final stack if and only if there are only zeros below the expiration and
/// the expiration is less than `2^32`. They are then the parts of the stack. Otherwise the zeros
/// next to the expiration are checked first, then the other ones, and then the expiration.
pub proof fn law_parsed_outputs(stack: Seq<u64>)
    requires
        stack.len() == STACK_DEPTH,
    ensures
        parsed_outputs(stack) is Ok <==> stack[8] < 0x1_0000_0000 && forall|i: int|
            9 <= i < 16 ==> #[trigger] stack[i] == 0,
        parsed_outputs(stack) matches Ok(outputs) ==> outputs.0 == word_in(stack, 0) && outputs.1
            == word_in(stack, 4) && outputs.2 == stack[8],
        parsed_outputs(stack) matches Err(fault) ==> {
            if exists|i: int| 9 <= i < 12 && #[trigger] stack[i] != 0 {
                fault == OutputFault::OutputStackInvalid(
                    "batch_expiration_block_num must be followed by zero padding"@,
                )
            } else if exists|i: int| 12 <= i < 16 && #[trigger] stack[i] != 0 {
                fault == OutputFault::OutputStackInvalid(
                    "trailing output stack cells must be zero"@,
                )
            } else {
                fault == OutputFault::ExpirationBlockNumberTooLarge(stack[8])
            }
        },
{
    let zeros = forall|i: int| 9 <= i < 16 ==> #[trigger] stack[i] == 0;
    assert(zeros ==> stack[9] == 0 && stack[10] == 0 && stack[11] == 0 && stack[12] == 0
        && stack[13] == 0 && stack[14] == 0 && stack[15] == 0);
    if exists|i: int| 9 <= i < 12 && #[trigger] stack[i] != 0 {
        let i = choose|i: int| 9 <= i < 12 && #[trigger] stack[i] != 0;
        assert(i == 9 || i == 10 || i == 11);
    }
    if exists|i: int| 12 <= i < 16 && #[trigger] stack[i] != 0 {
        let i = choose|i: int| 12 <= i < 16 && #[trigger] stack[i] != 0;
        assert(i == 12 || i == 13 || i == 14 || i == 15);
    }
    if stack[9] == 0 && stack[10] == 0 && stack[11] == 0 && stack[12] == 0 && stack[13] == 0
        && stack[14] == 0 && stack[15] == 0 {
        assert forall|i: int| 9 <= i < 16 implies #[trigger] stack[i] == 0 by {
            assert(i == 9 || i == 10 || i == 11 || i == 12 || i == 13 || i == 14 || i == 15);
        }
    }
}

/// The kernel is given the ID of the batch in the first four elements of its stack, the commitment
/// of the block in the next four, and zeros below. Its advice map is that of the batch, its advice
/// stack has the expiration of every transaction in order, and its Merkle store is the default one.
pub proof fn law_kernel_inputs(
    batch: ProposedBatchState,
    stack: StackInputs,
    advice: AdviceInputs,
)
    requires
        kernel_inputs(batch, stack, advice),
    ensures
        input_stack(stack).len() == 16,
        word_in(input_stack(stack), 0) == batch.id,
        word_in(input_stack(stack), 4) == batch.block_commitment,
        forall|i: int| 8 <= i < 16 ==> #[trigger] input_stack(stack)[i] == 0,
        advice_stack(advice).len() == batch.transactions.len(),
        forall|i: int|
            0 <= i < batch.transactions.len() ==> advice_stack(advice)[i] == (
            #[trigger] batch.transactions[i]).expiration,
        advice_map(advice) == batch_advice_map(batch),
        advice_store_is_default(advice),
{
    let elements = word_elements(batch.id) + word_elements(batch.block_commitment);
    assert(elements.len() == 8);
}

/// The key and the list belong to the advice of a batch: the ID of the batch with the IDs of its
/// transactions and their accounts, or the ID of a transaction with its header, or a commitment to
/// notes of a transaction, unless it has none, with these notes.
pub open spec fn is_advice(batch: ProposedBatchState, key: RawWord, list: Seq<u64>) -> bool {
    ||| key == batch.id && list == batch_elements(transaction_ids(batch.transactions))
    ||| exists|i: int|
        0 <= i < batch.transactions.len() && is_transaction_advice(
            #[trigger] batch.transactions[i],
            key,
            list,
        )
}

/// The key and the list belong to the advice of a transaction.
pub open spec fn is_transaction_advice(tx: TransactionState, key: RawWord, list: Seq<u64>) -> bool {
    ||| key == tx.id && list == header_elements(
        tx.initial_state,
        tx.final_state,
        tx.input_commitment,
        tx.output_commitment,
        tx.fee,
    )
    ||| key == tx.input_commitment && key != (0u64, 0u64, 0u64, 0u64) && list
        == input_note_elements(tx.inputs)
    ||| key == tx.output_commitment && key != (0u64, 0u64, 0u64, 0u64) && list
        == output_note_elements(tx.outputs)
}

/// What is in an advice map after transactions have been added belongs to one of them or was there
/// before.
proof fn lemma_advice_of_transactions(
    map: Map<RawWord, Seq<u64>>,
    txs: Seq<TransactionState>,
    key: RawWord,
)
    requires
        with_transactions_advice(map, txs).contains_key(key),
    ensures
        ({
            let list = with_transactions_advice(map, txs)[key];
            ||| map.contains_key(key) && map[key] == list
            ||| exists|i: int|
                0 <= i < txs.len() && is_transaction_advice(#[trigger] txs[i], key, list)
        }),
    decreases txs.len(),
{
    if txs.len() > 0 {
        let n = txs.len() - 1;
        let rest = txs.drop_last();
        let before = with_transactions_advice(map, rest);
        let list = with_transactions_advice(map, txs)[key];
        if !is_transaction_advice(txs[n], key, list) {
            assert(before.contains_key(key) && before[key] == list);
            lemma_advice_of_transactions(map, rest, key);
            if !(map.contains_key(key) && map[key] == list) {
                let i = choose|i: int|
                    0 <= i < rest.len() && is_transaction_advice(#[trigger] rest[i], key, list);
                assert(is_transaction_advice(txs[i], key, list));
            }
        }
    }
}

/// The advice map of a batch has only what belongs to the batch.
pub proof fn law_advice_belongs_to_batch(batch: ProposedBatchState, key: RawWord)
    requires
        batch_advice_map(batch).contains_key(key),
    ensures
        is_advice(batch, key, batch_advice_map(batch)[key]),
{
    lemma_advice_of_transactions(
        no_advice().insert(batch.id, batch_elements(transaction_ids(batch.transactions))),
        batch.transactions,
        key,
    );
}

/// The advice map of a batch has all that belongs to the batch, if no two different lists have the
/// same key.
pub proof fn law_advice_has_all_of_batch(
    batch: ProposedBatchState,
    key: RawWord,
    list: Seq<u64>,
)
    requires
        is_advice(batch, key, list),
        forall|other: Seq<u64>| #[trigger] is_advice(batch, key, other) ==> other == list,
    ensures
        batch_advice_map(batch).contains_key(key),
        batch_advice_map(batch)[key] == list,
{
    law_advice_is_complete(batch);
    if key != batch.id || list != batch_elements(transaction_ids(batch.transactions)) {
        let i = choose|i: int|
            0 <= i < batch.transactions.len() && is_transaction_advice(
                #[trigger] batch.transactions[i],
                key,
                list,
            );
        assert(holds_transaction(batch_advice_map(batch), batch.transactions[i]));
    }
    law_advice_belongs_to_batch(batch, key);
}

/// The elements of the notes of two lists of transactions are those of the first list, followed by
/// those of the second. Those of one transaction are those of its notes.
pub proof fn law_notes_of_transactions(
    first: Seq<TransactionState>,
    second: Seq<TransactionState>,
    tx: TransactionState,
)
    ensures
        all_input_elements(first + second) == all_input_elements(first) + all_input_elements(
            second,
        ),
        all_output_elements(first + second) == all_output_elements(first) + all_output_elements(
            second,
        ),
        all_input_elements(seq![tx]) == input_note_elements(tx.inputs),
        all_output_elements(seq![tx]) == output_note_elements(tx.outputs),
        all_input_elements(Seq::empty()).len() == 0,
        all_output_elements(Seq::empty()).len() == 0,
    decreases second.len(),
{
    if second.len() > 0 {
        let rest = second.drop_last();
        law_notes_of_transactions(first, rest, tx);
        assert((first + second).drop_last() =~= first + rest);
        assert(all_input_elements(first + second) =~= all_input_elements(first)
            + all_input_elements(second));
        assert(all_output_elements(first + second) =~= all_output_elements(first)
            + all_output_elements(second));
    } else {
        assert(first + second =~= first);
        assert(all_input_elements(first + second) =~= all_input_elements(first)
            + all_input_elements(second));
        assert(all_output_elements(first + second) =~= all_output_elements(first)
            + all_output_elements(second));
    }
    let one = seq![tx];
    let none = one.drop_last();
    assert(none =~= Seq::empty());
    assert(all_input_elements(none) =~= Seq::empty());
    assert(all_output_elements(none) =~= Seq::empty());
    assert(all_input_elements(one) =~= input_note_elements(tx.inputs));
    assert(all_output_elements(one) =~= output_note_elements(tx.outputs));
}

// PROVING
// ================================================================================================

/// The actions are those of a run of the prover in which every verification succeeds: the first one
/// is what the prover asks for at the beginning, and each other one is what it asks for after the
/// verification of the transaction that the one before it names.
pub open spec fn is_run(actions: Seq<ProverAction>, batch: ProposedBatchState) -> bool {
    &&& actions.len() > 0 ==> is_action_after(actions[0], batch, 0)
    &&& forall|k: int|
        0 < k < actions.len() ==> {
            &&& actions[k - 1] is VerifyTransaction
            &&& is_action_after(
                #[trigger] actions[k],
                batch,
                actions[k - 1]->VerifyTransaction_0 + 1,
            )
        }
}

/// The prover has the proof of every transaction verified, one after the other in their order, and
/// has the kernel run only then: of a batch of `n` transactions, the first `n` actions verify the
/// transactions at the positions `0` to `n - 1`, the action after them runs the kernel with the
/// inputs of the batch, and there are no others.
pub proof fn law_every_transaction_is_verified(
    actions: Seq<ProverAction>,
    batch: ProposedBatchState,
)
    requires
        is_run(actions, batch),
    ensures
        actions.len() <= batch.transactions.len() + 1,
        forall|k: int|
            #![trigger actions[k]]
            0 <= k < actions.len() && k < batch.transactions.len() ==> (
            actions[k] matches ProverAction::VerifyTransaction(index) && index == k),
        actions.len() == batch.transactions.len() + 1 ==> actions.last() is ProveKernel,
        forall|k: int|
            #![trigger actions[k]]
            0 <= k < actions.len() && actions[k] is ProveKernel ==> k == batch.transactions.len(),
        forall|k: int|
            #![trigger actions[k]]
            0 <= k < actions.len() ==> (actions[k] matches ProverAction::ProveKernel(stack, advice)
                ==> kernel_inputs(batch, stack, advice)),
{
    assert forall|k: int| 0 <= k < actions.len() implies #[trigger] run_position(
        actions,
        batch,
        k,
    ) by {
        lemma_run_position(actions, batch, k);
    }
    if actions.len() > 0 {
        assert(run_position(actions, batch, actions.len() - 1));
    }
    assert forall|k: int|
        #![trigger actions[k]]
        0 <= k < actions.len() && k < batch.transactions.len() implies (
    actions[k] matches ProverAction::VerifyTransaction(index) && index == k) by {
        assert(run_position(actions, batch, k));
    }
    assert forall|k: int|
        #![trigger actions[k]]
        0 <= k < actions.len() && actions[k] is ProveKernel implies k
        == batch.transactions.len() by {
        assert(run_position(actions, batch, k));
    }
    assert forall|k: int|
        #![trigger actions[k]]
        0 <= k < actions.len() implies (actions[k] matches ProverAction::ProveKernel(stack, advice)
        ==> kernel_inputs(batch, stack, advice)) by {
        if k > 0 {
            assert(is_action_after(actions[k], batch, actions[k - 1]->VerifyTransaction_0 + 1));
        }
    }
}

/// What the action at a position of a run is.
spec fn run_position(actions: Seq<ProverAction>, batch: ProposedBatchState, k: int) -> bool {
    &&& k <= batch.transactions.len()
    &&& k < batch.transactions.len() ==> (
    actions[k] matches ProverAction::VerifyTransaction(index) && index == k)
    &&& k == batch.transactions.len() ==> actions[k] is ProveKernel
}

/// The action at every position of a run is the one of this position.
proof fn lemma_run_position(actions: Seq<ProverAction>, batch: ProposedBatchState, k: int)
    requires
        is_run(actions, batch),
        0 <= k < actions.len(),
    ensures
        run_position(actions, batch, k),
    decreases k,
{
    if k > 0 {
        lemma_run_position(actions, batch, k - 1);
        assert(is_action_after(actions[k], batch, actions[k - 1]->VerifyTransaction_0 + 1));
    }
}

/// A run that asks for the kernel has had the proof of every transaction verified before.
pub proof fn law_kernel_runs_last(
    actions: Seq<ProverAction>,
    batch: ProposedBatchState,
    k: int,
    i: int,
)
    requires
        is_run(actions, batch),
        0 <= k < actions.len(),
        actions[k] is ProveKernel,
        0 <= i < batch.transactions.len(),
    ensures
        i < k,
        actions[i] matches ProverAction::VerifyTransaction(index) && index == i,
        k == actions.len() - 1,
        actions[k] matches ProverAction::ProveKernel(stack, advice) && kernel_inputs(
            batch,
            stack,
            advice,
        ),
{
    law_every_transaction_is_verified(actions, batch);
    lemma_run_position(actions, batch, i);
    lemma_run_position(actions, batch, k);
    if k + 1 < actions.len() {
        assert(is_action_after(actions[k + 1], batch, actions[k]->VerifyTransaction_0 + 1));
    }
    if k > 0 {
        assert(is_action_after(actions[k], batch, actions[k - 1]->VerifyTransaction_0 + 1));
    }
}

/// What the kernel leaves behind is accepted if and only if there are only zeros below the
/// expiration on its stack, the expiration is that of the batch, and the batch expires later than
/// the block that it refers to. The result is then the proven batch with the proof. Otherwise the
/// stack is checked first, then the expiration of the kernel, and then that of the batch.
pub proof fn law_accepted_batch(
    batch: ProposedBatchState,
    stack: Seq<u64>,
    proof: ExecutionProof,
)
    requires
        stack.len() == STACK_DEPTH,
    ensures
        accepted(batch, stack, proof) is Ok <==> {
            &&& forall|i: int| 9 <= i < 16 ==> #[trigger] stack[i] == 0
            &&& stack[8] == batch.expiration
            &&& batch.block_num < batch.expiration
        },
        accepted(batch, stack, proof) is Ok ==> accepted(batch, stack, proof) == proven(
            batch,
            proof,
        ),
        match parsed_outputs(stack) {
            Err(fault) => accepted(batch, stack, proof) == Err::<ProvenBatchState, _>(
                ProvenBatchFault::BatchKernelExecutionFailed(KernelFault::Output(fault)),
            ),
            Ok(_) => stack[8] != batch.expiration ==> accepted(batch, stack, proof) == Err::<
                ProvenBatchState,
                _,
            >(
                ProvenBatchFault::BatchKernelExecutionFailed(
                    KernelFault::ExpirationMismatch {
                        kernel: stack[8] as u32,
                        proposed: batch.expiration,
                    },
                ),
            ),
        },
{
    law_parsed_outputs(stack);
    law_proven_batch(batch, proof);
}

} // verus!
