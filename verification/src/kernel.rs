//! The interface of the batch kernel program.
use vstd::prelude::*;

use miden_core::advice::AdviceInputs;
use miden_core::program::{ProgramInfo, StackInputs, StackOutputs};

use crate::batch::{ProposedBatch, ProposedBatchState};
use crate::batch_id::{batch_elements, transaction_ids, transaction_values, BatchId};
use crate::transaction::{
    append_input_notes, append_output_notes, commit, input_note_elements, output_note_elements,
    sequential_commitment, transaction_header_elements, BlockNumber, ProvenTransaction,
    TransactionId, TransactionState,
};
use crate::vm::{
    advice_map, advice_stack, advice_store_is_default, empty_advice, extend_advice_map, input_stack,
    kernel_procedures, new_stack_inputs, new_stack_outputs, no_advice, output_element,
    output_stack, output_word, padded, program_hash, program_without_kernel, push_advice, word_at,
};
use crate::word::{empty_word, felt_values, word_elements, Felt, RawWord, Word};

verus! {

// The positions of the outputs on the final stack, in elements.
const INPUT_NOTES_COMMITMENT_INDEX: usize = 0;

const OUTPUT_NOTES_COMMITMENT_INDEX: usize = 4;

const BATCH_EXPIRATION_BLOCK_NUM_INDEX: usize = 8;

// The word that starts here has zeros only.
const TRAILING_PAD_INDEX: usize = 12;

// MODEL
// ================================================================================================

/// The outputs of the batch kernel: the commitments to the input notes and to the output notes of
/// the batch, and the block from which on the batch is expired.
pub type KernelOutputs = (RawWord, RawWord, u32);

/// The elements that the kernel leaves on the stack: `[INPUT_NOTES_COMMITMENT,
/// OUTPUT_NOTES_COMMITMENT, batch_expiration_block_num]`, followed by zeros.
pub open spec fn kernel_output_stack(outputs: KernelOutputs) -> Seq<u64> {
    padded(word_elements(outputs.0) + word_elements(outputs.1) + seq![outputs.2 as u64])
}

/// The value of a [`BatchOutputError`].
pub enum OutputFault {
    OutputStackInvalid(Seq<char>),
    ExpirationBlockNumberTooLarge(u64),
}

/// The outputs of the kernel that a final stack holds, or what is wrong with it.
pub open spec fn parsed_outputs(stack: Seq<u64>) -> Result<KernelOutputs, OutputFault> {
    if stack[9] != 0 || stack[10] != 0 || stack[11] != 0 {
        Err(
            OutputFault::OutputStackInvalid(
                "batch_expiration_block_num must be followed by zero padding"@,
            ),
        )
    } else if word_at(stack, 12) != empty_word() {
        Err(OutputFault::OutputStackInvalid("trailing output stack cells must be zero"@))
    } else if stack[8] > u32::MAX {
        Err(OutputFault::ExpirationBlockNumberTooLarge(stack[8]))
    } else {
        Ok((word_at(stack, 0), word_at(stack, 4), stack[8] as u32))
    }
}

/// The advice map with the data of one transaction added: its header under its ID, and its notes
/// under their commitments, unless it has none.
pub open spec fn with_transaction_advice(
    map: Map<RawWord, Seq<u64>>,
    tx: TransactionState,
) -> Map<RawWord, Seq<u64>> {
    let with_header = map.insert(tx.id, transaction_header_elements(tx));
    let with_inputs = if tx.input_commitment != empty_word() {
        with_header.insert(tx.input_commitment, input_note_elements(tx.inputs))
    } else {
        with_header
    };
    if tx.output_commitment != empty_word() {
        with_inputs.insert(tx.output_commitment, output_note_elements(tx.outputs))
    } else {
        with_inputs
    }
}

/// The advice map with the data of a list of transactions added.
pub open spec fn with_transactions_advice(
    map: Map<RawWord, Seq<u64>>,
    txs: Seq<TransactionState>,
) -> Map<RawWord, Seq<u64>>
    decreases txs.len(),
{
    if txs.len() == 0 {
        map
    } else {
        with_transaction_advice(with_transactions_advice(map, txs.drop_last()), txs.last())
    }
}

/// The advice map of a batch: the transaction and account IDs under the ID of the batch, and the
/// data of all transactions.
pub open spec fn batch_advice_map(batch: ProposedBatchState) -> Map<RawWord, Seq<u64>> {
    with_transactions_advice(
        no_advice().insert(batch.id, batch_elements(transaction_ids(batch.transactions))),
        batch.transactions,
    )
}

/// The advice stack of a batch: the expirations of the transactions in order.
pub open spec fn batch_advice_stack(batch: ProposedBatchState) -> Seq<u64> {
    Seq::new(batch.transactions.len(), |i: int| batch.transactions[i].expiration as u64)
}

/// The stack and the advice are the inputs with which the kernel executes the batch.
pub open spec fn kernel_inputs(
    batch: ProposedBatchState,
    stack: StackInputs,
    advice: AdviceInputs,
) -> bool {
    &&& input_stack(stack) == padded(
        word_elements(batch.id) + word_elements(batch.block_commitment),
    )
    &&& advice_map(advice) == batch_advice_map(batch)
    &&& advice_stack(advice) == batch_advice_stack(batch)
    &&& advice_store_is_default(advice)
}

/// The elements of all input notes of a list of transactions in order.
pub open spec fn all_input_elements(txs: Seq<TransactionState>) -> Seq<u64>
    decreases txs.len(),
{
    if txs.len() == 0 {
        Seq::empty()
    } else {
        all_input_elements(txs.drop_last()) + input_note_elements(txs.last().inputs)
    }
}

/// The elements of all output notes of a list of transactions in order.
pub open spec fn all_output_elements(txs: Seq<TransactionState>) -> Seq<u64>
    decreases txs.len(),
{
    if txs.len() == 0 {
        Seq::empty()
    } else {
        all_output_elements(txs.drop_last()) + output_note_elements(txs.last().outputs)
    }
}

// ERRORS
// ================================================================================================

/// The ways in which the final stack of the batch kernel can be invalid.
#[derive(Debug)]
pub enum BatchOutputError {
    /// A cell that has to be zero is not.
    OutputStackInvalid(String),
    /// The expiration is no block number.
    ExpirationBlockNumberTooLarge(Felt),
}

impl View for BatchOutputError {
    type V = OutputFault;

    open spec fn view(&self) -> OutputFault {
        match *self {
            BatchOutputError::OutputStackInvalid(message) => OutputFault::OutputStackInvalid(
                message@,
            ),
            BatchOutputError::ExpirationBlockNumberTooLarge(value) =>
                OutputFault::ExpirationBlockNumberTooLarge(value@),
        }
    }
}

// BATCH KERNEL
// ================================================================================================

/// The batch kernel program: a program that proves a batch of transactions.
///
/// The kernel takes `[TRANSACTIONS_COMMITMENT, BLOCK_HASH]` as public inputs and emits
/// `[INPUT_NOTES_COMMITMENT, OUTPUT_NOTES_COMMITMENT, batch_expiration_block_num]`.
pub struct BatchKernel;

impl BatchKernel {
    /// Describes the batch kernel program with the given hash. It exposes no kernel procedures.
    pub fn program_info(hash: Word) -> (r: ProgramInfo)
        ensures
            program_hash(r) == hash@,
            kernel_procedures(r).len() == 0,
    {
        program_without_kernel(&hash)
    }

    // INPUT BUILDERS
    // --------------------------------------------------------------------------------------------

    /// Returns the stack and the advice that the batch kernel needs to execute a batch.
    pub fn prepare_inputs(proposed_batch: &ProposedBatch) -> (r: (StackInputs, AdviceInputs))
        ensures
            kernel_inputs(proposed_batch@, r.0, r.1),
    {
        let block_hash = proposed_batch.reference_block_header().commitment();
        let transactions_commitment = proposed_batch.id().as_word();
        let stack_inputs = BatchKernel::build_input_stack(block_hash, transactions_commitment);
        let advice_inputs = BatchKernel::build_advice_inputs(proposed_batch);
        (stack_inputs, advice_inputs)
    }

    /// Returns the stack with the public inputs of the batch kernel: `[TRANSACTIONS_COMMITMENT,
    /// BLOCK_HASH]`, followed by zeros.
    ///
    /// `TRANSACTIONS_COMMITMENT` is the ID of the batch, and `BLOCK_HASH` the commitment of the
    /// block that the batch refers to.
    pub fn build_input_stack(block_hash: Word, transactions_commitment: Word) -> (r: StackInputs)
        ensures
            input_stack(r) == padded(
                word_elements(transactions_commitment@) + word_elements(block_hash@),
            ),
    {
        let mut inputs: Vec<Felt> = Vec::new();
        transactions_commitment.append_to(&mut inputs);
        block_hash.append_to(&mut inputs);
        assert(felt_values(inputs@) =~= word_elements(transactions_commitment@) + word_elements(
            block_hash@,
        ));
        assert(inputs@.len() == felt_values(inputs@).len());
        new_stack_inputs(&inputs)
    }

    /// Returns the stack that the batch kernel leaves behind with the given outputs.
    pub fn build_output_stack(
        input_notes_commitment: Word,
        output_notes_commitment: Word,
        batch_expiration_block_num: BlockNumber,
    ) -> (r: StackOutputs)
        ensures
            output_stack(r) == kernel_output_stack(
                (
                    input_notes_commitment@,
                    output_notes_commitment@,
                    batch_expiration_block_num.0,
                ),
            ),
    {
        let mut outputs: Vec<Felt> = Vec::new();
        input_notes_commitment.append_to(&mut outputs);
        output_notes_commitment.append_to(&mut outputs);
        outputs.push(batch_expiration_block_num.to_felt());
        assert(felt_values(outputs@) =~= word_elements(input_notes_commitment@) + word_elements(
            output_notes_commitment@,
        ) + seq![batch_expiration_block_num.0 as u64]);
        assert(outputs@.len() == felt_values(outputs@).len());
        new_stack_outputs(&outputs)
    }

    /// Reads the outputs of the batch kernel from its final stack.
    ///
    /// # Errors
    ///
    /// Returns an error if one of the cells after the expiration is not zero, or if the expiration
    /// is no block number.
    pub fn parse_output_stack(stack: &StackOutputs) -> (r: Result<
        (Word, Word, BlockNumber),
        BatchOutputError,
    >)
        ensures
            match r {
                Ok(outputs) => parsed_outputs(output_stack(*stack)) == Ok::<_, OutputFault>(
                    (outputs.0@, outputs.1@, outputs.2.0),
                ),
                Err(err) => parsed_outputs(output_stack(*stack)) == Err::<KernelOutputs, _>(err@),
            },
    {
        let input_notes_commitment = output_word(stack, INPUT_NOTES_COMMITMENT_INDEX).expect(
            "input_notes_commitment word missing",
        );
        let output_notes_commitment = output_word(stack, OUTPUT_NOTES_COMMITMENT_INDEX).expect(
            "output_notes_commitment word missing",
        );
        let expiration_felt = output_element(stack, BATCH_EXPIRATION_BLOCK_NUM_INDEX).expect(
            "batch_expiration_block_num missing",
        );
        // The word that starts with the expiration has zeros otherwise.
        let pad_word = output_word(stack, BATCH_EXPIRATION_BLOCK_NUM_INDEX).expect(
            "expiration pad word missing",
        );
        if pad_word.element(1) != Felt::zero() || pad_word.element(2) != Felt::zero()
            || pad_word.element(3) != Felt::zero() {
            return Err(
                BatchOutputError::OutputStackInvalid(
                    "batch_expiration_block_num must be followed by zero padding".to_owned(),
                ),
            );
        }
        let trailing_word = output_word(stack, TRAILING_PAD_INDEX).expect("trailing word missing");
        if trailing_word != Word::empty() {
            return Err(
                BatchOutputError::OutputStackInvalid(
                    "trailing output stack cells must be zero".to_owned(),
                ),
            );
        }
        let expiration: u64 = expiration_felt.as_canonical_u64();
        if expiration > 0xffff_ffff {
            return Err(BatchOutputError::ExpirationBlockNumberTooLarge(expiration_felt));
        }
        Ok((input_notes_commitment, output_notes_commitment, BlockNumber(expiration as u32)))
    }

    // ADVICE BUILDER
    // --------------------------------------------------------------------------------------------

    /// Returns the advice that the batch kernel needs to execute a batch.
    ///
    /// The map has three layers: the transaction and account IDs under the ID of the batch, the
    /// header of each transaction under its ID, and the notes of each transaction under the
    /// commitments to them. The stack has the expirations of the transactions in order.
    fn build_advice_inputs(proposed_batch: &ProposedBatch) -> (r: AdviceInputs)
        ensures
            advice_map(r) == batch_advice_map(proposed_batch@),
            advice_stack(r) == batch_advice_stack(proposed_batch@),
            advice_store_is_default(r),
    {
        let txs = proposed_batch.transactions();
        let ghost values = transaction_values(txs@);
        let mut advice_inputs = empty_advice();
        // The IDs of the transactions and their accounts under the ID of the batch.
        let ids_data = BatchId::hash_input_elements(&BatchId::ids_of(txs));
        extend_advice_map(&mut advice_inputs, &proposed_batch.id().as_word(), &ids_data);
        let ghost first = advice_map(advice_inputs);
        assert(values.take(0) =~= Seq::empty());
        let mut i: usize = 0;
        while i < txs.len()
            invariant
                i <= txs.len(),
                values == transaction_values(txs@),
                advice_map(advice_inputs) == with_transactions_advice(
                    first,
                    values.take(i as int),
                ),
                advice_stack(advice_inputs).len() == 0,
                advice_store_is_default(advice_inputs),
            decreases txs.len() - i,
        {
            BatchKernel::add_transaction_advice(&mut advice_inputs, &txs[i]);
            assert(values.take(i + 1).drop_last() =~= values.take(i as int));
            assert(values.take(i + 1).last() == txs@[i as int]@);
            i += 1;
        }
        assert(values.take(i as int) =~= values);
        let mut j: usize = 0;
        while j < txs.len()
            invariant
                j <= txs.len(),
                values == transaction_values(txs@),
                values == proposed_batch@.transactions,
                advice_map(advice_inputs) == with_transactions_advice(first, values),
                advice_stack(advice_inputs) == batch_advice_stack(proposed_batch@).take(j as int),
                advice_store_is_default(advice_inputs),
            decreases txs.len() - j,
        {
            push_advice(&mut advice_inputs, txs[j].expiration_block_num().to_felt());
            assert(advice_stack(advice_inputs) =~= batch_advice_stack(proposed_batch@).take(
                j + 1,
            ));
            j += 1;
        }
        assert(batch_advice_stack(proposed_batch@).take(j as int) =~= batch_advice_stack(
            proposed_batch@,
        ));
        advice_inputs
    }

    /// Adds the data of one transaction to the advice map: its header and its notes.
    fn add_transaction_advice(advice_inputs: &mut AdviceInputs, tx: &ProvenTransaction)
        ensures
            advice_map(*final(advice_inputs)) == with_transaction_advice(
                advice_map(*old(advice_inputs)),
                tx@,
            ),
            advice_stack(*final(advice_inputs)) == advice_stack(*old(advice_inputs)),
            advice_store_is_default(*final(advice_inputs)) == advice_store_is_default(
                *old(advice_inputs),
            ),
    {
        let header_data = TransactionId::input_elements(
            tx.initial_state_commitment(),
            tx.final_state_commitment(),
            tx.input_notes_commitment(),
            tx.output_notes_commitment(),
            tx.fee(),
        );
        extend_advice_map(advice_inputs, &tx.id().as_word(), &header_data);
        let input_notes_commitment = tx.input_notes_commitment();
        if input_notes_commitment != Word::empty() {
            let mut data: Vec<Felt> = Vec::new();
            append_input_notes(tx.input_notes(), &mut data);
            assert(felt_values(data@) =~= input_note_elements(tx@.inputs));
            extend_advice_map(advice_inputs, &input_notes_commitment, &data);
        }
        let output_notes_commitment = tx.output_notes_commitment();
        if output_notes_commitment != Word::empty() {
            let mut data: Vec<Felt> = Vec::new();
            append_output_notes(tx.output_notes(), &mut data);
            assert(felt_values(data@) =~= output_note_elements(tx@.outputs));
            extend_advice_map(advice_inputs, &output_notes_commitment, &data);
        }
    }
}

/// Returns the commitment to the input notes that the kernel computes for a batch: the sequential
/// hash over `(NULLIFIER, EMPTY_OR_NOTE_COMMITMENT)` of every input note of every transaction in
/// order, or the empty word if there are none. Notes that are created and consumed in the batch
/// count too.
pub fn expected_input_notes_commitment(batch: &ProposedBatch) -> (r: Word)
    ensures
        r@ == sequential_commitment(all_input_elements(batch@.transactions)),
{
    let txs = batch.transactions();
    let ghost values = transaction_values(txs@);
    let mut elements: Vec<Felt> = Vec::new();
    let mut i: usize = 0;
    assert(felt_values(elements@) =~= all_input_elements(values.take(0)));
    while i < txs.len()
        invariant
            i <= txs.len(),
            values == transaction_values(txs@),
            felt_values(elements@) == all_input_elements(values.take(i as int)),
        decreases txs.len() - i,
    {
        append_input_notes(txs[i].input_notes(), &mut elements);
        assert(values.take(i + 1).drop_last() =~= values.take(i as int));
        assert(values.take(i + 1).last() == txs@[i as int]@);
        i += 1;
    }
    assert(values.take(i as int) =~= values);
    commit(&elements)
}

/// Returns the commitment to the output notes that the kernel computes for a batch: the sequential
/// hash over `(NOTE_ID, METADATA_COMMITMENT)` of every output note of every transaction in order,
/// or the empty word if there are none.
pub fn expected_output_notes_commitment(batch: &ProposedBatch) -> (r: Word)
    ensures
        r@ == sequential_commitment(all_output_elements(batch@.transactions)),
{
    let txs = batch.transactions();
    let ghost values = transaction_values(txs@);
    let mut elements: Vec<Felt> = Vec::new();
    let mut i: usize = 0;
    assert(felt_values(elements@) =~= all_output_elements(values.take(0)));
    while i < txs.len()
        invariant
            i <= txs.len(),
            values == transaction_values(txs@),
            felt_values(elements@) == all_output_elements(values.take(i as int)),
        decreases txs.len() - i,
    {
        append_output_notes(txs[i].output_notes(), &mut elements);
        assert(values.take(i + 1).drop_last() =~= values.take(i as int));
        assert(values.take(i + 1).last() == txs@[i as int]@);
        i += 1;
    }
    assert(values.take(i as int) =~= values);
    commit(&elements)
}

} // verus!
