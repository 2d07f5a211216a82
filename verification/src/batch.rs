//! Proposed and proven batches of transactions.
use vstd::prelude::*;

use miden_core::proof::ExecutionProof;

use crate::account::{AccountId, RawAccountId};
use crate::asset::{FungibleAsset, RawAsset};
use crate::batch_id::{batch_elements, transaction_ids, transaction_values, BatchId};
use crate::hash::poseidon2;
use crate::transaction::{
    input_note_values, output_note_values, valid_transaction, BlockNumber, InputNoteCommitment,
    OutputNote, ProvenTransaction, RawInputNote, RawOutputNote, TransactionId, TransactionState,
};
use crate::word::{RawWord, Word};

verus! {

// MODEL
// ================================================================================================

/// The change that a batch makes to an account: the account, and the commitments before and after.
pub type RawAccountUpdate = (RawAccountId, RawWord, RawWord);

/// The value of a proposed batch.
pub struct ProposedBatchState {
    pub transactions: Seq<TransactionState>,
    pub block_commitment: RawWord,
    pub block_num: u32,
    pub id: RawWord,
    pub account_updates: Seq<RawAccountUpdate>,
    pub input_notes: Seq<RawInputNote>,
    pub output_notes: Seq<RawOutputNote>,
    pub expiration: u32,
}

/// The block from which on a list of transactions is expired: the smallest of theirs.
pub open spec fn batch_expiration(txs: Seq<TransactionState>) -> u32
    decreases txs.len(),
{
    if txs.len() == 0 {
        u32::MAX
    } else {
        let rest = batch_expiration(txs.drop_last());
        if txs.last().expiration < rest {
            txs.last().expiration
        } else {
            rest
        }
    }
}

/// What holds of every proposed batch: its transactions are valid, its ID is that of its
/// transactions, and it expires with the first of them.
pub open spec fn valid_batch(batch: ProposedBatchState) -> bool {
    &&& forall|i: int|
        0 <= i < batch.transactions.len() ==> valid_transaction(#[trigger] batch.transactions[i])
    &&& batch.id == poseidon2(batch_elements(transaction_ids(batch.transactions)))
    &&& batch.expiration == batch_expiration(batch.transactions)
}

/// The value of a transaction header.
pub struct TransactionHeaderState {
    pub id: RawWord,
    pub account_id: RawAccountId,
    pub initial_state: RawWord,
    pub final_state: RawWord,
    pub inputs: Seq<RawInputNote>,
    pub outputs: Seq<RawOutputNote>,
    pub fee: RawAsset,
}

/// The header of a transaction.
pub open spec fn header_of(tx: TransactionState) -> TransactionHeaderState {
    TransactionHeaderState {
        id: tx.id,
        account_id: tx.account_id,
        initial_state: tx.initial_state,
        final_state: tx.final_state,
        inputs: tx.inputs,
        outputs: tx.outputs,
        fee: tx.fee,
    }
}

/// The headers of a list of transactions.
pub open spec fn headers_of(txs: Seq<TransactionState>) -> Seq<TransactionHeaderState> {
    Seq::new(txs.len(), |i: int| header_of(txs[i]))
}

/// The value of a proven batch.
pub struct ProvenBatchState {
    pub id: RawWord,
    pub reference_block_commitment: RawWord,
    pub reference_block_num: u32,
    pub account_updates: Seq<RawAccountUpdate>,
    pub input_notes: Seq<RawInputNote>,
    pub output_notes: Seq<RawOutputNote>,
    pub expiration: u32,
    pub headers: Seq<TransactionHeaderState>,
    pub proof: ExecutionProof,
}

/// The batch expires with one of its transactions, and none of them expires earlier.
pub proof fn law_batch_expires_with_first(txs: Seq<TransactionState>)
    requires
        txs.len() > 0,
    ensures
        exists|i: int| 0 <= i < txs.len() && (#[trigger] txs[i]).expiration == batch_expiration(txs),
        forall|i: int|
            0 <= i < txs.len() ==> batch_expiration(txs) <= (#[trigger] txs[i]).expiration,
    decreases txs.len(),
{
    let rest = txs.drop_last();
    let n = txs.len() - 1;
    if rest.len() > 0 {
        law_batch_expires_with_first(rest);
        let i = choose|i: int|
            0 <= i < rest.len() && (#[trigger] rest[i]).expiration == batch_expiration(rest);
        assert(txs[i].expiration == batch_expiration(rest));
        assert forall|j: int| 0 <= j < txs.len() implies batch_expiration(txs)
            <= (#[trigger] txs[j]).expiration by {
            if j < n {
                assert(rest[j] == txs[j]);
            }
        }
    } else {
        assert(batch_expiration(rest) == u32::MAX);
        assert(txs[n].expiration == batch_expiration(txs));
    }
}

// BLOCK HEADER
// ================================================================================================

/// The header of the block that a batch refers to.
#[derive(Clone, Copy, Debug)]
pub struct BlockHeader {
    commitment: Word,
    block_num: BlockNumber,
}

impl View for BlockHeader {
    type V = (RawWord, u32);

    closed spec fn view(&self) -> (RawWord, u32) {
        (self.commitment@, self.block_num.0)
    }
}

impl BlockHeader {
    /// Creates a header from the commitment and the number of the block.
    pub fn new(commitment: Word, block_num: BlockNumber) -> (r: BlockHeader)
        ensures
            r@ == (commitment@, block_num.0),
    {
        BlockHeader { commitment, block_num }
    }

    /// Returns the commitment of the block.
    pub fn commitment(&self) -> (r: Word)
        ensures
            r@ == self@.0,
    {
        self.commitment
    }

    /// Returns the number of the block.
    pub fn block_num(&self) -> (r: BlockNumber)
        ensures
            r.0 == self@.1,
    {
        self.block_num
    }
}

// PROPOSED BATCH
// ================================================================================================

/// The change that a batch makes to an account.
#[derive(Clone, Copy, Debug)]
pub struct BatchAccountUpdate {
    pub account_id: AccountId,
    pub initial_state_commitment: Word,
    pub final_state_commitment: Word,
}

impl View for BatchAccountUpdate {
    type V = RawAccountUpdate;

    open spec fn view(&self) -> RawAccountUpdate {
        (self.account_id@, self.initial_state_commitment@, self.final_state_commitment@)
    }
}

/// The values of a list of account updates.
pub open spec fn update_values(updates: Seq<BatchAccountUpdate>) -> Seq<RawAccountUpdate> {
    Seq::new(updates.len(), |i: int| updates[i]@)
}

/// The header of a transaction of a batch.
#[derive(Debug)]
pub struct TransactionHeader {
    pub id: TransactionId,
    pub account_id: AccountId,
    pub initial_state_commitment: Word,
    pub final_state_commitment: Word,
    pub input_notes: Vec<InputNoteCommitment>,
    pub output_notes: Vec<OutputNote>,
    pub fee: FungibleAsset,
}

impl View for TransactionHeader {
    type V = TransactionHeaderState;

    open spec fn view(&self) -> TransactionHeaderState {
        TransactionHeaderState {
            id: self.id@,
            account_id: self.account_id@,
            initial_state: self.initial_state_commitment@,
            final_state: self.final_state_commitment@,
            inputs: input_note_values(self.input_notes@),
            outputs: output_note_values(self.output_notes@),
            fee: self.fee@,
        }
    }
}

/// The values of a list of transaction headers.
pub open spec fn header_values(headers: Seq<TransactionHeader>) -> Seq<TransactionHeaderState> {
    Seq::new(headers.len(), |i: int| headers[i]@)
}

/// Returns a copy of a list of input notes.
fn copy_input_notes(notes: &Vec<InputNoteCommitment>) -> (r: Vec<InputNoteCommitment>)
    ensures
        r@ == notes@,
{
    let mut copy: Vec<InputNoteCommitment> = Vec::new();
    let mut i: usize = 0;
    while i < notes.len()
        invariant
            i <= notes.len(),
            copy@ == notes@.take(i as int),
        decreases notes.len() - i,
    {
        copy.push(notes[i]);
        assert(copy@ =~= notes@.take(i + 1));
        i += 1;
    }
    assert(notes@.take(i as int) =~= notes@);
    copy
}

/// Returns a copy of a list of output notes.
fn copy_output_notes(notes: &Vec<OutputNote>) -> (r: Vec<OutputNote>)
    ensures
        r@ == notes@,
{
    let mut copy: Vec<OutputNote> = Vec::new();
    let mut i: usize = 0;
    while i < notes.len()
        invariant
            i <= notes.len(),
            copy@ == notes@.take(i as int),
        decreases notes.len() - i,
    {
        copy.push(notes[i]);
        assert(copy@ =~= notes@.take(i + 1));
        i += 1;
    }
    assert(notes@.take(i as int) =~= notes@);
    copy
}

/// A batch of transactions that has yet to be proven.
#[derive(Debug)]
pub struct ProposedBatch {
    transactions: Vec<ProvenTransaction>,
    reference_block_header: BlockHeader,
    id: BatchId,
    account_updates: Vec<BatchAccountUpdate>,
    input_notes: Vec<InputNoteCommitment>,
    output_notes: Vec<OutputNote>,
    batch_expiration_block_num: BlockNumber,
}

impl View for ProposedBatch {
    type V = ProposedBatchState;

    closed spec fn view(&self) -> ProposedBatchState {
        ProposedBatchState {
            transactions: transaction_values(self.transactions@),
            block_commitment: self.reference_block_header@.0,
            block_num: self.reference_block_header@.1,
            id: self.id@,
            account_updates: update_values(self.account_updates@),
            input_notes: input_note_values(self.input_notes@),
            output_notes: output_note_values(self.output_notes@),
            expiration: self.batch_expiration_block_num.0,
        }
    }
}

impl ProposedBatch {
    /// The batch is as [`valid_batch`] says.
    #[verifier::type_invariant]
    pub open spec fn well_formed(self) -> bool {
        valid_batch(self@)
    }

    /// Creates a batch of transactions with the account updates and the notes that they amount to.
    /// The ID and the expiration of the batch are computed.
    pub fn new(
        transactions: Vec<ProvenTransaction>,
        reference_block_header: BlockHeader,
        account_updates: Vec<BatchAccountUpdate>,
        input_notes: Vec<InputNoteCommitment>,
        output_notes: Vec<OutputNote>,
    ) -> (r: ProposedBatch)
        ensures
            valid_batch(r@),
            r@.transactions == transaction_values(transactions@),
            (r@.block_commitment, r@.block_num) == reference_block_header@,
            r@.account_updates == update_values(account_updates@),
            r@.input_notes == input_note_values(input_notes@),
            r@.output_notes == output_note_values(output_notes@),
    {
        let ghost values = transaction_values(transactions@);
        let id = BatchId::from_transactions(&transactions);
        let mut expiration: u32 = u32::MAX;
        let mut i: usize = 0;
        while i < transactions.len()
            invariant
                i <= transactions.len(),
                values == transaction_values(transactions@),
                expiration == batch_expiration(values.take(i as int)),
                forall|j: int| 0 <= j < i ==> valid_transaction(#[trigger] values[j]),
            decreases transactions.len() - i,
        {
            let tx = &transactions[i];
            proof {
                use_type_invariant(tx);
                assert(values[i as int] == tx@);
            }
            if tx.expiration_block_num().as_u32() < expiration {
                expiration = tx.expiration_block_num().as_u32();
            }
            assert(values.take(i + 1).drop_last() =~= values.take(i as int));
            assert(values.take(i + 1).last() == tx@);
            i += 1;
        }
        assert(values.take(i as int) =~= values);
        ProposedBatch {
            transactions,
            reference_block_header,
            id,
            account_updates,
            input_notes,
            output_notes,
            batch_expiration_block_num: BlockNumber(expiration),
        }
    }

    /// Returns the transactions.
    pub fn transactions(&self) -> (r: &Vec<ProvenTransaction>)
        ensures
            transaction_values(r@) == self@.transactions,
            valid_batch(self@),
    {
        proof {
            use_type_invariant(self);
        }
        &self.transactions
    }

    /// Returns the header of the block that the batch refers to.
    pub fn reference_block_header(&self) -> (r: BlockHeader)
        ensures
            r@ == (self@.block_commitment, self@.block_num),
    {
        self.reference_block_header
    }

    /// Returns the ID of the batch.
    pub fn id(&self) -> (r: BatchId)
        ensures
            r@ == self@.id,
    {
        self.id
    }

    /// Returns the block from which on the batch is expired.
    pub fn batch_expiration_block_num(&self) -> (r: BlockNumber)
        ensures
            r.0 == self@.expiration,
    {
        self.batch_expiration_block_num
    }

    /// Returns the headers of the transactions in order.
    pub fn transaction_headers(&self) -> (r: Vec<TransactionHeader>)
        ensures
            header_values(r@) == headers_of(self@.transactions),
    {
        let mut headers: Vec<TransactionHeader> = Vec::new();
        let mut i: usize = 0;
        while i < self.transactions.len()
            invariant
                i <= self.transactions.len(),
                headers@.len() == i,
                forall|j: int|
                    0 <= j < i ==> (#[trigger] headers@[j])@ == header_of(self.transactions@[j]@),
            decreases self.transactions.len() - i,
        {
            let tx = &self.transactions[i];
            headers.push(
                TransactionHeader {
                    id: tx.id(),
                    account_id: tx.account_id(),
                    initial_state_commitment: tx.initial_state_commitment(),
                    final_state_commitment: tx.final_state_commitment(),
                    input_notes: copy_input_notes(tx.input_notes()),
                    output_notes: copy_output_notes(tx.output_notes()),
                    fee: tx.fee(),
                },
            );
            i += 1;
        }
        assert(header_values(headers@) =~= headers_of(self@.transactions));
        headers
    }

    /// Returns the parts of the batch: the transactions, the block header, the ID, the account
    /// updates, the input notes, the output notes and the expiration.
    pub fn into_parts(self) -> (r: (
        Vec<ProvenTransaction>,
        BlockHeader,
        BatchId,
        Vec<BatchAccountUpdate>,
        Vec<InputNoteCommitment>,
        Vec<OutputNote>,
        BlockNumber,
    ))
        ensures
            transaction_values(r.0@) == self@.transactions,
            r.1@ == (self@.block_commitment, self@.block_num),
            r.2@ == self@.id,
            update_values(r.3@) == self@.account_updates,
            input_note_values(r.4@) == self@.input_notes,
            output_note_values(r.5@) == self@.output_notes,
            r.6.0 == self@.expiration,
    {
        (
            self.transactions,
            self.reference_block_header,
            self.id,
            self.account_updates,
            self.input_notes,
            self.output_notes,
            self.batch_expiration_block_num,
        )
    }
}

// PROVEN BATCH
// ================================================================================================

/// A batch of transactions with a proof of its execution.
#[derive(Debug)]
pub struct ProvenBatch {
    id: BatchId,
    reference_block_commitment: Word,
    reference_block_num: BlockNumber,
    account_updates: Vec<BatchAccountUpdate>,
    input_notes: Vec<InputNoteCommitment>,
    output_notes: Vec<OutputNote>,
    batch_expiration_block_num: BlockNumber,
    transactions: Vec<TransactionHeader>,
    proof: ExecutionProof,
}

impl View for ProvenBatch {
    type V = ProvenBatchState;

    closed spec fn view(&self) -> ProvenBatchState {
        ProvenBatchState {
            id: self.id@,
            reference_block_commitment: self.reference_block_commitment@,
            reference_block_num: self.reference_block_num.0,
            account_updates: update_values(self.account_updates@),
            input_notes: input_note_values(self.input_notes@),
            output_notes: output_note_values(self.output_notes@),
            expiration: self.batch_expiration_block_num.0,
            headers: header_values(self.transactions@),
            proof: self.proof,
        }
    }
}

/// A batch that expires no later than the block that it refers to.
#[derive(Clone, Copy, Debug, PartialEq, Eq, Structural)]
pub struct BatchExpired {
    pub batch_expiration_block_num: BlockNumber,
    pub reference_block_num: BlockNumber,
}

impl ProvenBatch {
    /// Creates a proven batch from its parts. Nothing but the expiration is checked.
    ///
    /// # Errors
    ///
    /// Returns an error if the batch expires no later than the block that it refers to.
    pub fn new_unchecked(
        id: BatchId,
        reference_block_commitment: Word,
        reference_block_num: BlockNumber,
        account_updates: Vec<BatchAccountUpdate>,
        input_notes: Vec<InputNoteCommitment>,
        output_notes: Vec<OutputNote>,
        batch_expiration_block_num: BlockNumber,
        transactions: Vec<TransactionHeader>,
        proof: ExecutionProof,
    ) -> (r: Result<ProvenBatch, BatchExpired>)
        ensures
            match r {
                Ok(batch) => batch_expiration_block_num.0 > reference_block_num.0 && batch@ == (
                ProvenBatchState {
                    id: id@,
                    reference_block_commitment: reference_block_commitment@,
                    reference_block_num: reference_block_num.0,
                    account_updates: update_values(account_updates@),
                    input_notes: input_note_values(input_notes@),
                    output_notes: output_note_values(output_notes@),
                    expiration: batch_expiration_block_num.0,
                    headers: header_values(transactions@),
                    proof,
                }),
                Err(err) => batch_expiration_block_num.0 <= reference_block_num.0 && err == (
                BatchExpired { batch_expiration_block_num, reference_block_num }),
            },
    {
        if batch_expiration_block_num.as_u32() <= reference_block_num.as_u32() {
            return Err(BatchExpired { batch_expiration_block_num, reference_block_num });
        }
        Ok(
            ProvenBatch {
                id,
                reference_block_commitment,
                reference_block_num,
                account_updates,
                input_notes,
                output_notes,
                batch_expiration_block_num,
                transactions,
                proof,
            },
        )
    }

    /// Returns the ID of the batch.
    pub fn id(&self) -> (r: BatchId)
        ensures
            r@ == self@.id,
    {
        self.id
    }

    /// Returns the block from which on the batch is expired.
    pub fn batch_expiration_block_num(&self) -> (r: BlockNumber)
        ensures
            r.0 == self@.expiration,
    {
        self.batch_expiration_block_num
    }

    /// Returns the commitment of the block that the batch refers to.
    pub fn reference_block_commitment(&self) -> (r: Word)
        ensures
            r@ == self@.reference_block_commitment,
    {
        self.reference_block_commitment
    }

    /// Returns the number of the block that the batch refers to.
    pub fn reference_block_num(&self) -> (r: BlockNumber)
        ensures
            r.0 == self@.reference_block_num,
    {
        self.reference_block_num
    }

    /// Returns the changes that the batch makes to accounts.
    pub fn account_updates(&self) -> (r: &Vec<BatchAccountUpdate>)
        ensures
            update_values(r@) == self@.account_updates,
    {
        &self.account_updates
    }

    /// Returns the input notes of the batch.
    pub fn input_notes(&self) -> (r: &Vec<InputNoteCommitment>)
        ensures
            input_note_values(r@) == self@.input_notes,
    {
        &self.input_notes
    }

    /// Returns the output notes of the batch.
    pub fn output_notes(&self) -> (r: &Vec<OutputNote>)
        ensures
            output_note_values(r@) == self@.output_notes,
    {
        &self.output_notes
    }

    /// Returns the headers of the transactions in order.
    pub fn transactions(&self) -> (r: &Vec<TransactionHeader>)
        ensures
            header_values(r@) == self@.headers,
    {
        &self.transactions
    }

    /// Returns the proof.
    pub fn execution_proof(&self) -> (r: &ExecutionProof)
        ensures
            *r == self@.proof,
    {
        &self.proof
    }
}

} // verus!
