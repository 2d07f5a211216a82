//! Proving batches of transactions.
use vstd::prelude::*;

use miden_core::advice::AdviceInputs;
use miden_core::program::{StackInputs, StackOutputs};
use miden_core::proof::ExecutionProof;

use crate::batch::{
    headers_of, ProposedBatch, ProposedBatchState, ProvenBatch, ProvenBatchState,
};
use crate::kernel::{
    kernel_inputs, kernel_output_stack, parsed_outputs, BatchKernel, BatchOutputError, OutputFault,
};
use crate::kernel_laws::{law_only_built_stacks_are_parsed, law_parsing_reads_what_was_built};
use crate::transaction::{BlockNumber, TransactionId};
use crate::vm::{dummy_execution_proof, is_dummy, output_stack, STACK_DEPTH};
use crate::word::RawWord;

verus! {

// MODEL
// ================================================================================================

/// The proven batch that a proposed batch and a proof amount to, or an error if the batch expires
/// no later than the block that it refers to.
pub open spec fn proven(batch: ProposedBatchState, proof: ExecutionProof) -> Result<
    ProvenBatchState,
    ProvenBatchFault,
> {
    if batch.expiration <= batch.block_num {
        Err(
            ProvenBatchFault::InvalidBatchExpirationBlockNum {
                batch_expiration_block_num: batch.expiration,
                reference_block_num: batch.block_num,
            },
        )
    } else {
        Ok(
            ProvenBatchState {
                id: batch.id,
                reference_block_commitment: batch.block_commitment,
                reference_block_num: batch.block_num,
                account_updates: batch.account_updates,
                input_notes: batch.input_notes,
                output_notes: batch.output_notes,
                expiration: batch.expiration,
                headers: headers_of(batch.transactions),
                proof,
            },
        )
    }
}

/// What becomes of a batch once the kernel has left a stack and a proof: the outputs have to be
/// readable, and the expiration among them has to be that of the batch.
pub open spec fn accepted(
    batch: ProposedBatchState,
    stack: Seq<u64>,
    proof: ExecutionProof,
) -> Result<ProvenBatchState, ProvenBatchFault> {
    match parsed_outputs(stack) {
        Err(fault) => Err(
            ProvenBatchFault::BatchKernelExecutionFailed(KernelFault::Output(fault)),
        ),
        Ok(outputs) => if outputs.2 != batch.expiration {
            Err(
                ProvenBatchFault::BatchKernelExecutionFailed(
                    KernelFault::ExpirationMismatch {
                        kernel: outputs.2,
                        proposed: batch.expiration,
                    },
                ),
            )
        } else {
            proven(batch, proof)
        },
    }
}

/// The action is the one that comes after the first `checked` transactions of a batch have been
/// verified: the next transaction is verified, or the kernel is run if none is left.
pub open spec fn is_action_after(
    action: ProverAction,
    batch: ProposedBatchState,
    checked: int,
) -> bool {
    match action {
        ProverAction::VerifyTransaction(index) => checked < batch.transactions.len() && index
            == checked,
        ProverAction::ProveKernel(stack, advice) => checked >= batch.transactions.len()
            && kernel_inputs(batch, stack, advice),
    }
}

/// A batch that expires in time is proven if and only if the kernel leaves some two commitments and
/// the expiration of the batch on the stack, and nothing else.
pub proof fn law_accepted_stacks(
    batch: ProposedBatchState,
    stack: Seq<u64>,
    proof: ExecutionProof,
)
    requires
        stack.len() == STACK_DEPTH,
        batch.expiration > batch.block_num,
    ensures
        accepted(batch, stack, proof) is Ok <==> exists|inputs: RawWord, outputs: RawWord|
            stack == #[trigger] kernel_output_stack((inputs, outputs, batch.expiration)),
{
    if accepted(batch, stack, proof) is Ok {
        let outputs = parsed_outputs(stack)->Ok_0;
        law_only_built_stacks_are_parsed(stack, outputs);
        assert(stack == kernel_output_stack((outputs.0, outputs.1, batch.expiration)));
    }
    if exists|inputs: RawWord, outputs: RawWord|
        stack == #[trigger] kernel_output_stack((inputs, outputs, batch.expiration)) {
        let (inputs, outputs) = choose|inputs: RawWord, outputs: RawWord|
            stack == #[trigger] kernel_output_stack((inputs, outputs, batch.expiration));
        law_parsing_reads_what_was_built((inputs, outputs, batch.expiration));
    }
}

// ERRORS
// ================================================================================================

/// The ways in which the kernel can fail for a batch.
#[derive(Debug)]
pub enum KernelFailure {
    /// The program could not be executed or proven.
    Execution(String),
    /// The final stack is invalid.
    Output(BatchOutputError),
    /// The kernel computed another expiration than the batch has.
    ExpirationMismatch { kernel: BlockNumber, proposed: BlockNumber },
}

/// The ways in which proving a batch can fail.
#[derive(Debug)]
pub enum ProvenBatchError {
    /// The proof of a transaction was refused.
    TransactionVerificationFailed { transaction_id: TransactionId, source: String },
    /// The kernel failed.
    BatchKernelExecutionFailed(KernelFailure),
    /// The batch expires no later than the block that it refers to.
    InvalidBatchExpirationBlockNum {
        batch_expiration_block_num: BlockNumber,
        reference_block_num: BlockNumber,
    },
}

/// The value of a [`KernelFailure`].
pub enum KernelFault {
    Execution(Seq<char>),
    Output(OutputFault),
    ExpirationMismatch { kernel: u32, proposed: u32 },
}

/// The value of a [`ProvenBatchError`].
pub enum ProvenBatchFault {
    TransactionVerificationFailed { transaction_id: RawWord, source: Seq<char> },
    BatchKernelExecutionFailed(KernelFault),
    InvalidBatchExpirationBlockNum { batch_expiration_block_num: u32, reference_block_num: u32 },
}

impl View for KernelFailure {
    type V = KernelFault;

    open spec fn view(&self) -> KernelFault {
        match *self {
            KernelFailure::Execution(message) => KernelFault::Execution(message@),
            KernelFailure::Output(err) => KernelFault::Output(err@),
            KernelFailure::ExpirationMismatch { kernel, proposed } =>
                KernelFault::ExpirationMismatch { kernel: kernel.0, proposed: proposed.0 },
        }
    }
}

impl View for ProvenBatchError {
    type V = ProvenBatchFault;

    open spec fn view(&self) -> ProvenBatchFault {
        match *self {
            ProvenBatchError::TransactionVerificationFailed { transaction_id, source } =>
                ProvenBatchFault::TransactionVerificationFailed {
                    transaction_id: transaction_id@,
                    source: source@,
                },
            ProvenBatchError::BatchKernelExecutionFailed(failure) =>
                ProvenBatchFault::BatchKernelExecutionFailed(failure@),
            ProvenBatchError::InvalidBatchExpirationBlockNum {
                batch_expiration_block_num,
                reference_block_num,
            } => ProvenBatchFault::InvalidBatchExpirationBlockNum {
                batch_expiration_block_num: batch_expiration_block_num.0,
                reference_block_num: reference_block_num.0,
            },
        }
    }
}

// LOCAL BATCH PROVER
// ================================================================================================

/// What is to be done next to prove a batch.
#[derive(Debug)]
pub enum ProverAction {
    /// Verify the proof of the transaction at this position.
    VerifyTransaction(usize),
    /// Run the batch kernel with these inputs and prove its execution.
    ProveKernel(StackInputs, AdviceInputs),
}

/// A prover for batches of transactions.
///
/// It verifies the proof of each transaction in order, then has the batch kernel executed and
/// proven, and attaches the proof to the batch. The work itself is done outside: the prover says
/// what is to be done next and takes the outcome.
#[derive(Clone, Copy, Debug)]
pub struct LocalBatchProver {
    proof_security_level: u32,
}

impl LocalBatchProver {
    /// The security level that the proofs of transactions have to reach.
    pub closed spec fn security_level(self) -> u32 {
        self.proof_security_level
    }

    /// Creates a prover that asks for the given security level of the proofs of transactions.
    pub fn new(proof_security_level: u32) -> (r: LocalBatchProver)
        ensures
            r.security_level() == proof_security_level,
    {
        LocalBatchProver { proof_security_level }
    }

    /// Returns the security level that the proofs of transactions have to reach.
    pub fn proof_security_level(&self) -> (r: u32)
        ensures
            r == self.security_level(),
    {
        self.proof_security_level
    }

    /// Says what is to be done first to prove a batch.
    pub fn begin(&self, proposed_batch: &ProposedBatch) -> (r: ProverAction)
        ensures
            is_action_after(r, proposed_batch@, 0),
            proposed_batch@.transactions.len() > 0 ==> r == ProverAction::VerifyTransaction(0),
            proposed_batch@.transactions.len() == 0 ==> r is ProveKernel,
    {
        LocalBatchProver::action_after(proposed_batch, 0)
    }

    /// Takes the outcome of the verification of a transaction and says what is to be done next.
    ///
    /// # Errors
    ///
    /// Returns an error with the ID of the transaction if its proof was refused.
    pub fn transaction_checked(
        &self,
        proposed_batch: &ProposedBatch,
        index: usize,
        outcome: Result<(), String>,
    ) -> (r: Result<ProverAction, ProvenBatchError>)
        requires
            index < proposed_batch@.transactions.len(),
        ensures
            match outcome {
                Ok(_) => r matches Ok(action) && {
                    &&& is_action_after(action, proposed_batch@, index + 1)
                    &&& index + 1 < proposed_batch@.transactions.len() ==> action
                        == ProverAction::VerifyTransaction((index + 1) as usize)
                    &&& index + 1 == proposed_batch@.transactions.len() ==> action is ProveKernel
                },
                Err(source) => r matches Err(err) && err@ == (
                ProvenBatchFault::TransactionVerificationFailed {
                    transaction_id: proposed_batch@.transactions[index as int].id,
                    source: source@,
                }),
            },
    {
        let txs = proposed_batch.transactions();
        assert(index < txs.len());
        match outcome {
            Ok(_) => Ok(LocalBatchProver::action_after(proposed_batch, index + 1)),
            Err(source) => Err(
                ProvenBatchError::TransactionVerificationFailed {
                    transaction_id: txs[index].id(),
                    source,
                },
            ),
        }
    }

    /// Says what is to be done after the first `checked` transactions have been verified.
    fn action_after(proposed_batch: &ProposedBatch, checked: usize) -> (r: ProverAction)
        ensures
            is_action_after(r, proposed_batch@, checked as int),
    {
        if checked < proposed_batch.transactions().len() {
            ProverAction::VerifyTransaction(checked)
        } else {
            let (stack_inputs, advice_inputs) = BatchKernel::prepare_inputs(proposed_batch);
            ProverAction::ProveKernel(stack_inputs, advice_inputs)
        }
    }

    /// Takes the outcome of the execution of the batch kernel and returns the proven batch.
    ///
    /// The expiration that the kernel computed is compared with that of the batch. The commitments
    /// to the notes are not: the kernel hashes the notes of all transactions, also those that are
    /// created and consumed within the batch.
    ///
    /// # Errors
    ///
    /// Returns an error if the kernel could not be executed or proven, if its final stack is
    /// invalid, if the expirations differ, or if the batch expires no later than the block that it
    /// refers to.
    pub fn kernel_proved(
        &self,
        proposed_batch: ProposedBatch,
        outcome: Result<(StackOutputs, ExecutionProof), String>,
    ) -> (r: Result<ProvenBatch, ProvenBatchError>)
        ensures
            match outcome {
                Ok((stack, proof)) => match r {
                    Ok(batch) => accepted(proposed_batch@, output_stack(stack), proof) == Ok::<
                        _,
                        ProvenBatchFault,
                    >(batch@),
                    Err(err) => accepted(proposed_batch@, output_stack(stack), proof) == Err::<
                        ProvenBatchState,
                        _,
                    >(err@),
                },
                Err(message) => r matches Err(err) && err@
                    == ProvenBatchFault::BatchKernelExecutionFailed(
                    KernelFault::Execution(message@),
                ),
            },
    {
        let (stack_outputs, proof) = match outcome {
            Ok(done) => done,
            Err(message) => {
                return Err(
                    ProvenBatchError::BatchKernelExecutionFailed(KernelFailure::Execution(message)),
                );
            },
        };
        let expected_expiration = proposed_batch.batch_expiration_block_num();
        let kernel_expiration = match BatchKernel::parse_output_stack(&stack_outputs) {
            Ok(outputs) => outputs.2,
            Err(err) => {
                return Err(
                    ProvenBatchError::BatchKernelExecutionFailed(KernelFailure::Output(err)),
                );
            },
        };
        if kernel_expiration.as_u32() != expected_expiration.as_u32() {
            return Err(
                ProvenBatchError::BatchKernelExecutionFailed(
                    KernelFailure::ExpirationMismatch {
                        kernel: kernel_expiration,
                        proposed: expected_expiration,
                    },
                ),
            );
        }
        LocalBatchProver::build_proven_batch(proposed_batch, proof)
    }

    /// Returns the proven batch with a dummy proof, without running the batch kernel.
    ///
    /// # Errors
    ///
    /// Returns an error if the batch expires no later than the block that it refers to.
    pub fn prove_dummy(&self, proposed_batch: ProposedBatch) -> (r: Result<
        ProvenBatch,
        ProvenBatchError,
    >)
        ensures
            exists|proof: ExecutionProof| #[trigger] is_dummy(proof) && match r {
                Ok(batch) => proven(proposed_batch@, proof) == Ok::<_, ProvenBatchFault>(batch@),
                Err(err) => proven(proposed_batch@, proof) == Err::<ProvenBatchState, _>(err@),
            },
    {
        let proof = dummy_execution_proof();
        assert(is_dummy(proof));
        LocalBatchProver::build_proven_batch(proposed_batch, proof)
    }

    /// Combines a proposed batch with a proof into a proven batch.
    ///
    /// # Errors
    ///
    /// Returns an error if the batch expires no later than the block that it refers to.
    pub fn build_proven_batch(proposed_batch: ProposedBatch, proof: ExecutionProof) -> (r: Result<
        ProvenBatch,
        ProvenBatchError,
    >)
        ensures
            match r {
                Ok(batch) => proven(proposed_batch@, proof) == Ok::<_, ProvenBatchFault>(batch@),
                Err(err) => proven(proposed_batch@, proof) == Err::<ProvenBatchState, _>(err@),
            },
    {
        let tx_headers = proposed_batch.transaction_headers();
        let (
            _transactions,
            block_header,
            id,
            updated_accounts,
            input_notes,
            output_notes,
            batch_expiration_block_num,
        ) = proposed_batch.into_parts();
        match ProvenBatch::new_unchecked(
            id,
            block_header.commitment(),
            block_header.block_num(),
            updated_accounts,
            input_notes,
            output_notes,
            batch_expiration_block_num,
            tx_headers,
            proof,
        ) {
            Ok(batch) => Ok(batch),
            Err(err) => Err(
                ProvenBatchError::InvalidBatchExpirationBlockNum {
                    batch_expiration_block_num: err.batch_expiration_block_num,
                    reference_block_num: err.reference_block_num,
                },
            ),
        }
    }
}

} // verus!
