//! Proven transactions.
use vstd::prelude::*;

use miden_core::proof::ExecutionProof;

use crate::account::{AccountId, RawAccountId};
use crate::asset::{FungibleAsset, RawAsset};
use crate::hash::{hash_elements, poseidon2};
use crate::word::{empty_word, felt_values, word_elements, Felt, RawWord, Word};

verus! {

// MODEL
// ================================================================================================

/// The value of an input note: its nullifier, and its commitment if the note is not authenticated.
pub type RawInputNote = (RawWord, Option<RawWord>);

/// The value of an output note: its ID and the commitment to its metadata.
pub type RawOutputNote = (RawWord, RawWord);

/// The commitment of an input note, or the empty word if the note is authenticated.
pub open spec fn commitment_or_empty(note: RawInputNote) -> RawWord {
    match note.1 {
        Some(commitment) => commitment,
        None => empty_word(),
    }
}

/// The elements of a list of input notes: `(NULLIFIER, EMPTY_OR_COMMITMENT)` for each note in
/// order.
pub open spec fn input_note_elements(notes: Seq<RawInputNote>) -> Seq<u64>
    decreases notes.len(),
{
    if notes.len() == 0 {
        Seq::empty()
    } else {
        input_note_elements(notes.drop_last()) + word_elements(notes.last().0) + word_elements(
            commitment_or_empty(notes.last()),
        )
    }
}

/// The elements of a list of output notes: `(NOTE_ID, METADATA_COMMITMENT)` for each note in order.
pub open spec fn output_note_elements(notes: Seq<RawOutputNote>) -> Seq<u64>
    decreases notes.len(),
{
    if notes.len() == 0 {
        Seq::empty()
    } else {
        output_note_elements(notes.drop_last()) + word_elements(notes.last().0) + word_elements(
            notes.last().1,
        )
    }
}

/// The commitment to a sequence of elements: its hash, or the empty word if there are none.
pub open spec fn sequential_commitment(elements: Seq<u64>) -> RawWord {
    if elements.len() == 0 {
        empty_word()
    } else {
        poseidon2(elements)
    }
}

/// The elements whose hash is the ID of a transaction: `[INIT_STATE_COMMITMENT,
/// FINAL_STATE_COMMITMENT, INPUT_NOTES_COMMITMENT, OUTPUT_NOTES_COMMITMENT, FEE_ASSET]`, where the
/// fee asset is its vault key followed by its value.
pub open spec fn header_elements(
    initial_state: RawWord,
    final_state: RawWord,
    input_notes: RawWord,
    output_notes: RawWord,
    fee: RawAsset,
) -> Seq<u64> {
    word_elements(initial_state) + word_elements(final_state) + word_elements(input_notes)
        + word_elements(output_notes) + word_elements(fee.0) + word_elements(fee.1)
}

/// The value of a transaction.
pub struct TransactionState {
    pub id: RawWord,
    pub account_id: RawAccountId,
    pub initial_state: RawWord,
    pub final_state: RawWord,
    pub inputs: Seq<RawInputNote>,
    pub input_commitment: RawWord,
    pub outputs: Seq<RawOutputNote>,
    pub output_commitment: RawWord,
    pub fee: RawAsset,
    pub expiration: u32,
    pub proof: ExecutionProof,
}

/// What holds of every transaction: the commitments to its notes are those of its notes, and its ID
/// is the hash of its header.
pub open spec fn valid_transaction(tx: TransactionState) -> bool {
    &&& tx.input_commitment == sequential_commitment(input_note_elements(tx.inputs))
    &&& tx.output_commitment == sequential_commitment(output_note_elements(tx.outputs))
    &&& tx.id == poseidon2(transaction_header_elements(tx))
}

/// The elements whose hash is the ID of this transaction.
pub open spec fn transaction_header_elements(tx: TransactionState) -> Seq<u64> {
    header_elements(
        tx.initial_state,
        tx.final_state,
        tx.input_commitment,
        tx.output_commitment,
        tx.fee,
    )
}

/// Both lists of elements are as long as the notes say.
pub proof fn lemma_note_elements_len(inputs: Seq<RawInputNote>, outputs: Seq<RawOutputNote>)
    ensures
        input_note_elements(inputs).len() == 8 * inputs.len(),
        output_note_elements(outputs).len() == 8 * outputs.len(),
    decreases inputs.len() + outputs.len(),
{
    if inputs.len() > 0 {
        lemma_note_elements_len(inputs.drop_last(), outputs);
    } else if outputs.len() > 0 {
        lemma_note_elements_len(inputs, outputs.drop_last());
    }
}

// BLOCK NUMBERS
// ================================================================================================

/// The number of a block.
#[derive(Clone, Copy, Debug, PartialEq, Eq, Structural)]
pub struct BlockNumber(pub u32);

impl BlockNumber {
    /// Returns the number.
    pub fn as_u32(&self) -> (r: u32)
        ensures
            r == self.0,
    {
        self.0
    }

    /// Returns the number as a field element.
    pub fn to_felt(&self) -> (r: Felt)
        ensures
            r@ == self.0,
    {
        Felt::new(self.0 as u64)
    }
}

// NOTES
// ================================================================================================

/// An input note of a transaction.
#[derive(Clone, Copy, Debug)]
pub struct InputNoteCommitment {
    pub nullifier: Word,
    pub note_commitment: Option<Word>,
}

impl View for InputNoteCommitment {
    type V = RawInputNote;

    open spec fn view(&self) -> RawInputNote {
        (
            self.nullifier@,
            match self.note_commitment {
                Some(commitment) => Some(commitment@),
                None => None,
            },
        )
    }
}

impl InputNoteCommitment {
    /// Appends the nullifier, and the commitment or the empty word, to `target`.
    pub fn append_to(&self, target: &mut Vec<Felt>)
        ensures
            felt_values(final(target)@) == felt_values(old(target)@) + word_elements(self@.0)
                + word_elements(commitment_or_empty(self@)),
    {
        self.nullifier.append_to(target);
        let commitment = match self.note_commitment {
            Some(commitment) => commitment,
            None => Word::empty(),
        };
        commitment.append_to(target);
    }
}

/// An output note of a transaction.
#[derive(Clone, Copy, Debug)]
pub struct OutputNote {
    pub id: Word,
    pub metadata_commitment: Word,
}

impl View for OutputNote {
    type V = RawOutputNote;

    open spec fn view(&self) -> RawOutputNote {
        (self.id@, self.metadata_commitment@)
    }
}

impl OutputNote {
    /// Appends the ID and the commitment to the metadata to `target`.
    pub fn append_to(&self, target: &mut Vec<Felt>)
        ensures
            felt_values(final(target)@) == felt_values(old(target)@) + word_elements(self@.0)
                + word_elements(self@.1),
    {
        self.id.append_to(target);
        self.metadata_commitment.append_to(target);
    }
}

/// The values of a list of input notes.
pub open spec fn input_note_values(notes: Seq<InputNoteCommitment>) -> Seq<RawInputNote> {
    Seq::new(notes.len(), |i: int| notes[i]@)
}

/// The values of a list of output notes.
pub open spec fn output_note_values(notes: Seq<OutputNote>) -> Seq<RawOutputNote> {
    Seq::new(notes.len(), |i: int| notes[i]@)
}

/// Appends the elements of a list of input notes to `target`.
pub fn append_input_notes(notes: &Vec<InputNoteCommitment>, target: &mut Vec<Felt>)
    ensures
        felt_values(final(target)@) == felt_values(old(target)@) + input_note_elements(
            input_note_values(notes@),
        ),
{
    let ghost values = input_note_values(notes@);
    let mut i: usize = 0;
    assert(values.take(0) =~= Seq::empty());
    assert(felt_values(target@) =~= felt_values(old(target)@) + input_note_elements(
        values.take(0),
    ));
    while i < notes.len()
        invariant
            i <= notes.len(),
            values == input_note_values(notes@),
            felt_values(target@) == felt_values(old(target)@) + input_note_elements(
                values.take(i as int),
            ),
        decreases notes.len() - i,
    {
        notes[i].append_to(target);
        assert(values.take(i + 1).drop_last() =~= values.take(i as int));
        assert(felt_values(target@) =~= felt_values(old(target)@) + input_note_elements(
            values.take(i + 1),
        ));
        i += 1;
    }
    assert(values.take(i as int) =~= values);
}

/// Appends the elements of a list of output notes to `target`.
pub fn append_output_notes(notes: &Vec<OutputNote>, target: &mut Vec<Felt>)
    ensures
        felt_values(final(target)@) == felt_values(old(target)@) + output_note_elements(
            output_note_values(notes@),
        ),
{
    let ghost values = output_note_values(notes@);
    let mut i: usize = 0;
    assert(values.take(0) =~= Seq::empty());
    assert(felt_values(target@) =~= felt_values(old(target)@) + output_note_elements(
        values.take(0),
    ));
    while i < notes.len()
        invariant
            i <= notes.len(),
            values == output_note_values(notes@),
            felt_values(target@) == felt_values(old(target)@) + output_note_elements(
                values.take(i as int),
            ),
        decreases notes.len() - i,
    {
        notes[i].append_to(target);
        assert(values.take(i + 1).drop_last() =~= values.take(i as int));
        assert(felt_values(target@) =~= felt_values(old(target)@) + output_note_elements(
            values.take(i + 1),
        ));
        i += 1;
    }
    assert(values.take(i as int) =~= values);
}

/// Returns the commitment to a sequence of elements: its hash, or the empty word if there are none.
pub fn commit(elements: &Vec<Felt>) -> (r: Word)
    ensures
        r@ == sequential_commitment(felt_values(elements@)),
{
    if elements.len() == 0 {
        Word::empty()
    } else {
        hash_elements(elements)
    }
}

// TRANSACTIONS
// ================================================================================================

/// The ID of a transaction: the hash of its header.
#[derive(Clone, Copy, Debug)]
pub struct TransactionId(pub Word);

impl View for TransactionId {
    type V = RawWord;

    open spec fn view(&self) -> RawWord {
        self.0@
    }
}

impl TransactionId {
    /// Returns the elements whose hash is the ID of a transaction.
    pub fn input_elements(
        initial_state_commitment: Word,
        final_state_commitment: Word,
        input_notes_commitment: Word,
        output_notes_commitment: Word,
        fee: FungibleAsset,
    ) -> (r: Vec<Felt>)
        ensures
            felt_values(r@) == header_elements(
                initial_state_commitment@,
                final_state_commitment@,
                input_notes_commitment@,
                output_notes_commitment@,
                fee@,
            ),
    {
        let mut elements: Vec<Felt> = Vec::new();
        initial_state_commitment.append_to(&mut elements);
        final_state_commitment.append_to(&mut elements);
        input_notes_commitment.append_to(&mut elements);
        output_notes_commitment.append_to(&mut elements);
        fee.vault_key().to_word().append_to(&mut elements);
        fee.to_value_word().append_to(&mut elements);
        assert(felt_values(elements@) =~= header_elements(
            initial_state_commitment@,
            final_state_commitment@,
            input_notes_commitment@,
            output_notes_commitment@,
            fee@,
        ));
        elements
    }

    /// Returns the word of the ID.
    pub fn as_word(&self) -> (r: Word)
        ensures
            r@ == self@,
    {
        self.0
    }
}

/// A transaction that was executed and proven.
#[derive(Debug)]
pub struct ProvenTransaction {
    id: TransactionId,
    account_id: AccountId,
    initial_state_commitment: Word,
    final_state_commitment: Word,
    input_notes: Vec<InputNoteCommitment>,
    input_notes_commitment: Word,
    output_notes: Vec<OutputNote>,
    output_notes_commitment: Word,
    fee: FungibleAsset,
    expiration_block_num: BlockNumber,
    proof: ExecutionProof,
}

impl View for ProvenTransaction {
    type V = TransactionState;

    closed spec fn view(&self) -> TransactionState {
        TransactionState {
            id: self.id@,
            account_id: self.account_id@,
            initial_state: self.initial_state_commitment@,
            final_state: self.final_state_commitment@,
            inputs: input_note_values(self.input_notes@),
            input_commitment: self.input_notes_commitment@,
            outputs: output_note_values(self.output_notes@),
            output_commitment: self.output_notes_commitment@,
            fee: self.fee@,
            expiration: self.expiration_block_num.0,
            proof: self.proof,
        }
    }
}

impl ProvenTransaction {
    /// The transaction is as [`valid_transaction`] says.
    #[verifier::type_invariant]
    pub open spec fn well_formed(self) -> bool {
        valid_transaction(self@)
    }

    /// Creates a transaction with the proof of its execution. The commitments to its notes and its
    /// ID are computed; the proof is not verified.
    pub fn new(
        account_id: AccountId,
        initial_state_commitment: Word,
        final_state_commitment: Word,
        input_notes: Vec<InputNoteCommitment>,
        output_notes: Vec<OutputNote>,
        fee: FungibleAsset,
        expiration_block_num: BlockNumber,
        proof: ExecutionProof,
    ) -> (r: ProvenTransaction)
        ensures
            valid_transaction(r@),
            r@.account_id == account_id@,
            r@.initial_state == initial_state_commitment@,
            r@.final_state == final_state_commitment@,
            r@.inputs == input_note_values(input_notes@),
            r@.outputs == output_note_values(output_notes@),
            r@.fee == fee@,
            r@.expiration == expiration_block_num.0,
            r@.proof == proof,
    {
        let mut input_elements: Vec<Felt> = Vec::new();
        append_input_notes(&input_notes, &mut input_elements);
        assert(felt_values(input_elements@) =~= input_note_elements(
            input_note_values(input_notes@),
        ));
        let input_notes_commitment = commit(&input_elements);
        let mut output_elements: Vec<Felt> = Vec::new();
        append_output_notes(&output_notes, &mut output_elements);
        assert(felt_values(output_elements@) =~= output_note_elements(
            output_note_values(output_notes@),
        ));
        let output_notes_commitment = commit(&output_elements);
        let header = TransactionId::input_elements(
            initial_state_commitment,
            final_state_commitment,
            input_notes_commitment,
            output_notes_commitment,
            fee,
        );
        ProvenTransaction {
            id: TransactionId(hash_elements(&header)),
            account_id,
            initial_state_commitment,
            final_state_commitment,
            input_notes,
            input_notes_commitment,
            output_notes,
            output_notes_commitment,
            fee,
            expiration_block_num,
            proof,
        }
    }

    /// Returns the ID of the transaction.
    pub fn id(&self) -> (r: TransactionId)
        ensures
            r@ == self@.id,
    {
        self.id
    }

    /// Returns the account that the transaction was executed against.
    pub fn account_id(&self) -> (r: AccountId)
        ensures
            r@ == self@.account_id,
    {
        self.account_id
    }

    /// Returns the commitment to the account before the transaction.
    pub fn initial_state_commitment(&self) -> (r: Word)
        ensures
            r@ == self@.initial_state,
    {
        self.initial_state_commitment
    }

    /// Returns the commitment to the account after the transaction.
    pub fn final_state_commitment(&self) -> (r: Word)
        ensures
            r@ == self@.final_state,
    {
        self.final_state_commitment
    }

    /// Returns the input notes.
    pub fn input_notes(&self) -> (r: &Vec<InputNoteCommitment>)
        ensures
            input_note_values(r@) == self@.inputs,
    {
        &self.input_notes
    }

    /// Returns the commitment to the input notes.
    pub fn input_notes_commitment(&self) -> (r: Word)
        ensures
            r@ == self@.input_commitment,
    {
        self.input_notes_commitment
    }

    /// Returns the output notes.
    pub fn output_notes(&self) -> (r: &Vec<OutputNote>)
        ensures
            output_note_values(r@) == self@.outputs,
    {
        &self.output_notes
    }

    /// Returns the commitment to the output notes.
    pub fn output_notes_commitment(&self) -> (r: Word)
        ensures
            r@ == self@.output_commitment,
    {
        self.output_notes_commitment
    }

    /// Returns the fee asset.
    pub fn fee(&self) -> (r: FungibleAsset)
        ensures
            r@ == self@.fee,
    {
        self.fee
    }

    /// Returns the block from which on the transaction is expired.
    pub fn expiration_block_num(&self) -> (r: BlockNumber)
        ensures
            r.0 == self@.expiration,
    {
        self.expiration_block_num
    }

    /// Returns the proof of the execution of the transaction.
    pub fn execution_proof(&self) -> (r: &ExecutionProof)
        ensures
            *r == self@.proof,
    {
        &self.proof
    }
}

} // verus!
