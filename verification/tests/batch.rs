use miden_core::advice::AdviceInputs;
use miden_core::program::StackOutputs;
use miden_core::proof::{ExecutionProof, HashFunction};
use miden_crypto::hash::poseidon2::Poseidon2;
use miden_vault::account::AccountId;
use miden_vault::asset::FungibleAsset;
use miden_vault::batch::{BatchAccountUpdate, BlockHeader, ProposedBatch};
use miden_vault::batch_id::BatchId;
use miden_vault::kernel::{
    expected_input_notes_commitment, expected_output_notes_commitment, BatchKernel,
    BatchOutputError,
};
use miden_vault::prover::{KernelFailure, LocalBatchProver, ProvenBatchError, ProverAction};
use miden_vault::transaction::{
    BlockNumber, InputNoteCommitment, OutputNote, ProvenTransaction, TransactionId,
};
use miden_vault::word::{Felt, Word};

const ACCOUNT_1: (u64, u64) = (0xa100_0000_0000_0010, 0x1234_0000_0000_0100);
const ACCOUNT_2: (u64, u64) = (0xa200_0000_0000_0010, 0x2345_0000_0000_0200);
const FEE_FAUCET: (u64, u64) = (0xac00_0000_0000_0020, 0x3456_0000_0000_0300);

fn account_id(id: (u64, u64)) -> AccountId {
    AccountId::try_from_elements(Felt::new(id.1), Felt::new(id.0)).unwrap()
}

fn word(elements: [u64; 4]) -> Word {
    Word::new(
        Felt::new(elements[0]),
        Felt::new(elements[1]),
        Felt::new(elements[2]),
        Felt::new(elements[3]),
    )
}

fn seed_word(seed: u64) -> Word {
    word([seed, seed + 1, seed + 2, seed + 3])
}

fn elements(words: &[Word]) -> Vec<u64> {
    words.iter().flat_map(|w| (0..4).map(|i| w.element(i).as_canonical_u64())).collect()
}

fn hash(values: &[u64]) -> Word {
    let felts: Vec<miden_crypto::Felt> =
        values.iter().map(|v| miden_crypto::Felt::new(*v)).collect();
    let e = Poseidon2::hash_elements(&felts).into_elements();
    word([
        e[0].as_canonical_u64(),
        e[1].as_canonical_u64(),
        e[2].as_canonical_u64(),
        e[3].as_canonical_u64(),
    ])
}

fn fee() -> FungibleAsset {
    FungibleAsset::new(account_id(FEE_FAUCET), 3).unwrap()
}

fn authenticated(seed: u64) -> InputNoteCommitment {
    InputNoteCommitment { nullifier: seed_word(seed), note_commitment: None }
}

fn unauthenticated(seed: u64) -> InputNoteCommitment {
    InputNoteCommitment {
        nullifier: seed_word(seed),
        note_commitment: Some(seed_word(seed + 1000)),
    }
}

fn output_note(seed: u64) -> OutputNote {
    OutputNote { id: seed_word(seed), metadata_commitment: seed_word(seed + 2000) }
}

/// A batch of two transactions:
/// - one that consumes an authenticated note and produces one note, with expiration 1234;
/// - one that consumes an unauthenticated note and produces two notes, with expiration 800.
fn two_tx_batch(block_num: u32) -> ProposedBatch {
    let tx1 = ProvenTransaction::new(
        account_id(ACCOUNT_1),
        Word::empty(),
        seed_word(11),
        vec![authenticated(70)],
        vec![output_note(80)],
        fee(),
        BlockNumber(1234),
        ExecutionProof::new_dummy(),
    );
    let tx2 = ProvenTransaction::new(
        account_id(ACCOUNT_2),
        Word::empty(),
        seed_word(12),
        vec![unauthenticated(81)],
        vec![output_note(82), output_note(83)],
        fee(),
        BlockNumber(800),
        ExecutionProof::new_dummy(),
    );
    let updates = vec![
        BatchAccountUpdate {
            account_id: account_id(ACCOUNT_1),
            initial_state_commitment: Word::empty(),
            final_state_commitment: seed_word(11),
        },
        BatchAccountUpdate {
            account_id: account_id(ACCOUNT_2),
            initial_state_commitment: Word::empty(),
            final_state_commitment: seed_word(12),
        },
    ];
    ProposedBatch::new(
        vec![tx1, tx2],
        BlockHeader::new(seed_word(500), BlockNumber(block_num)),
        updates,
        vec![authenticated(70), unauthenticated(81)],
        vec![output_note(80), output_note(82), output_note(83)],
    )
}

fn ids_layer(batch: &ProposedBatch) -> Vec<u64> {
    let txs = batch.transactions();
    let mut expected = elements(&[txs[0].id().as_word()]);
    expected.extend([ACCOUNT_1.0, ACCOUNT_1.1, 0, 0]);
    expected.extend(elements(&[txs[1].id().as_word()]));
    expected.extend([ACCOUNT_2.0, ACCOUNT_2.1, 0, 0]);
    expected
}

fn lookup(advice: &AdviceInputs, key: &Word) -> Option<Vec<u64>> {
    let key = miden_crypto::Word::new([
        miden_crypto::Felt::new(key.element(0).as_canonical_u64()),
        miden_crypto::Felt::new(key.element(1).as_canonical_u64()),
        miden_crypto::Felt::new(key.element(2).as_canonical_u64()),
        miden_crypto::Felt::new(key.element(3).as_canonical_u64()),
    ]);
    advice.map.get(&key).map(|list| list.iter().map(|e| e.as_canonical_u64()).collect())
}

fn outputs(values: [u64; 16]) -> StackOutputs {
    StackOutputs::try_from_ints(values).unwrap()
}

#[test]
fn transaction_commits_to_its_parts() {
    let batch = two_tx_batch(2);
    let tx = &batch.transactions()[1];
    let inputs = hash(&elements(&[seed_word(81), seed_word(1081)]));
    let outputs = hash(&elements(&[seed_word(82), seed_word(2082), seed_word(83), seed_word(2083)]));
    assert_eq!(tx.input_notes_commitment(), inputs);
    assert_eq!(tx.output_notes_commitment(), outputs);
    let header = elements(&[
        Word::empty(),
        seed_word(12),
        inputs,
        outputs,
        word([0, 0, FEE_FAUCET.1, FEE_FAUCET.0]),
        word([3, 0, 0, 0]),
    ]);
    assert_eq!(tx.id().as_word(), hash(&header));

    let idle = ProvenTransaction::new(
        account_id(ACCOUNT_1),
        Word::empty(),
        Word::empty(),
        vec![],
        vec![],
        fee(),
        BlockNumber(1),
        ExecutionProof::new_dummy(),
    );
    assert_eq!(idle.input_notes_commitment(), Word::empty());
    assert_eq!(idle.output_notes_commitment(), Word::empty());
}

#[test]
fn batch_id_hashes_transactions_and_accounts() {
    let batch = two_tx_batch(2);
    let expected = hash(&ids_layer(&batch));
    assert_eq!(batch.id().as_word(), expected);
    assert_eq!(BatchId::from_transactions(batch.transactions()), batch.id());

    let ids: Vec<(TransactionId, AccountId)> =
        batch.transactions().iter().map(|tx| (tx.id(), tx.account_id())).collect();
    assert_eq!(BatchId::from_ids(&ids), batch.id());
    let reversed: Vec<(TransactionId, AccountId)> = ids.iter().rev().copied().collect();
    assert_ne!(BatchId::from_ids(&reversed), batch.id());
    assert_eq!(BatchId::from_ids(&vec![]).as_word(), Word::empty());
}

#[test]
fn batch_id_is_written_in_hexadecimal() {
    let id = BatchId::from_raw(word([0x0123_4567_89ab_cdef, 1, 0, 0xff00]));
    assert_eq!(
        id.to_hex(),
        "0xefcdab89674523010100000000000000000000000000000000ff000000000000"
    );
}

#[test]
fn batch_expires_with_its_first_transaction() {
    assert_eq!(two_tx_batch(2).batch_expiration_block_num(), BlockNumber(800));
}

#[test]
fn inputs_of_the_kernel() {
    let batch = two_tx_batch(2);
    let (stack, advice) = BatchKernel::prepare_inputs(&batch);

    let mut expected = elements(&[batch.id().as_word(), seed_word(500)]);
    expected.resize(16, 0);
    let stack: Vec<u64> = stack.iter().map(|e| e.as_canonical_u64()).collect();
    assert_eq!(stack, expected);

    assert_eq!(lookup(&advice, &batch.id().as_word()), Some(ids_layer(&batch)));
    for tx in batch.transactions() {
        let header = elements(&[
            tx.initial_state_commitment(),
            tx.final_state_commitment(),
            tx.input_notes_commitment(),
            tx.output_notes_commitment(),
            tx.fee().vault_key().to_word(),
            tx.fee().to_value_word(),
        ]);
        assert_eq!(lookup(&advice, &tx.id().as_word()), Some(header));
    }
    let txs = batch.transactions();
    assert_eq!(
        lookup(&advice, &txs[0].input_notes_commitment()),
        Some(elements(&[seed_word(70), Word::empty()]))
    );
    assert_eq!(
        lookup(&advice, &txs[1].input_notes_commitment()),
        Some(elements(&[seed_word(81), seed_word(1081)]))
    );
    assert_eq!(
        lookup(&advice, &txs[1].output_notes_commitment()),
        Some(elements(&[seed_word(82), seed_word(2082), seed_word(83), seed_word(2083)]))
    );
    assert_eq!(advice.map.len(), 1 + 2 + 2 + 2);
    let expirations: Vec<u64> = advice.stack.iter().map(|e| e.as_canonical_u64()).collect();
    assert_eq!(expirations, vec![1234, 800]);
    assert_eq!(advice.store, AdviceInputs::default().store);
}

#[test]
fn advice_hashes_to_its_keys() {
    let (_, advice) = BatchKernel::prepare_inputs(&two_tx_batch(2));
    for (key, list) in advice.map.iter() {
        assert_eq!(*key, Poseidon2::hash_elements(list));
    }
}

/// Transactions without notes bring nothing but their header.
#[test]
fn empty_commitments_have_no_advice() {
    let idle = ProvenTransaction::new(
        account_id(ACCOUNT_1),
        Word::empty(),
        seed_word(1),
        vec![],
        vec![],
        fee(),
        BlockNumber(9),
        ExecutionProof::new_dummy(),
    );
    let header = BlockHeader::new(seed_word(500), BlockNumber(1));
    let batch = ProposedBatch::new(vec![idle], header, vec![], vec![], vec![]);
    let (_, advice) = BatchKernel::prepare_inputs(&batch);
    assert_eq!(advice.map.len(), 2);
    assert_eq!(lookup(&advice, &Word::empty()), None);
    assert_eq!(expected_input_notes_commitment(&batch), Word::empty());
    assert_eq!(expected_output_notes_commitment(&batch), Word::empty());
}

#[test]
fn expected_commitments_cover_all_transactions() {
    let batch = two_tx_batch(2);
    assert_eq!(
        expected_input_notes_commitment(&batch),
        hash(&elements(&[seed_word(70), Word::empty(), seed_word(81), seed_word(1081)]))
    );
    assert_eq!(
        expected_output_notes_commitment(&batch),
        hash(&elements(&[
            seed_word(80),
            seed_word(2080),
            seed_word(82),
            seed_word(2082),
            seed_word(83),
            seed_word(2083),
        ]))
    );
}

#[test]
fn single_transaction_has_the_commitments_of_the_batch() {
    let tx = ProvenTransaction::new(
        account_id(ACCOUNT_1),
        Word::empty(),
        seed_word(1),
        vec![authenticated(1), unauthenticated(2)],
        vec![output_note(3)],
        fee(),
        BlockNumber(9),
        ExecutionProof::new_dummy(),
    );
    let (inputs, outputs) = (tx.input_notes_commitment(), tx.output_notes_commitment());
    let header = BlockHeader::new(seed_word(500), BlockNumber(1));
    let batch = ProposedBatch::new(vec![tx], header, vec![], vec![], vec![]);
    assert_eq!(expected_input_notes_commitment(&batch), inputs);
    assert_eq!(expected_output_notes_commitment(&batch), outputs);
}

#[test]
fn output_stack_round_trip() {
    let stack = BatchKernel::build_output_stack(seed_word(1), seed_word(5), BlockNumber(u32::MAX));
    let mut expected: Vec<u64> = (1..=8).collect();
    expected.push(u32::MAX as u64);
    expected.resize(16, 0);
    assert_eq!(stack.as_int_vec(), expected);
    let (inputs, outputs, expiration) = BatchKernel::parse_output_stack(&stack).unwrap();
    assert_eq!(inputs, seed_word(1));
    assert_eq!(outputs, seed_word(5));
    assert_eq!(expiration, BlockNumber(u32::MAX));
}

#[test]
fn output_stack_padding_is_checked() {
    for index in 9..16 {
        let mut values = [0u64; 16];
        values[8] = 7;
        values[index] = 1;
        let err = BatchKernel::parse_output_stack(&outputs(values)).unwrap_err();
        let expected = if index < 12 {
            "batch_expiration_block_num must be followed by zero padding"
        } else {
            "trailing output stack cells must be zero"
        };
        assert!(matches!(err, BatchOutputError::OutputStackInvalid(m) if m == expected));
    }
}

#[test]
fn expiration_has_to_be_a_block_number() {
    let mut values = [0u64; 16];
    values[8] = u32::MAX as u64 + 1;
    let err = BatchKernel::parse_output_stack(&outputs(values)).unwrap_err();
    assert!(matches!(
        err,
        BatchOutputError::ExpirationBlockNumberTooLarge(f) if f == Felt::new(u32::MAX as u64 + 1)
    ));
    // The padding is checked first.
    values[9] = 1;
    let err = BatchKernel::parse_output_stack(&outputs(values)).unwrap_err();
    assert!(matches!(err, BatchOutputError::OutputStackInvalid(_)));
}

#[test]
fn program_info_has_no_kernel_procedures() {
    let info = BatchKernel::program_info(seed_word(9));
    assert_eq!(info.program_hash().into_elements()[3].as_canonical_u64(), 12);
    assert!(info.kernel_procedures().is_empty());
}

#[test]
fn prover_verifies_all_transactions_before_the_kernel() {
    let batch = two_tx_batch(2);
    let prover = LocalBatchProver::new(96);
    assert_eq!(prover.proof_security_level(), 96);
    assert!(matches!(prover.begin(&batch), ProverAction::VerifyTransaction(0)));
    let action = prover.transaction_checked(&batch, 0, Ok(())).unwrap();
    assert!(matches!(action, ProverAction::VerifyTransaction(1)));
    let action = prover.transaction_checked(&batch, 1, Ok(())).unwrap();
    match action {
        ProverAction::ProveKernel(stack, advice) => {
            let (expected_stack, expected_advice) = BatchKernel::prepare_inputs(&batch);
            assert_eq!(*stack, *expected_stack);
            assert_eq!(advice, expected_advice);
        },
        other => panic!("unexpected action: {other:?}"),
    }
}

#[test]
fn prover_stops_at_a_refused_transaction() {
    let batch = two_tx_batch(2);
    let prover = LocalBatchProver::new(96);
    let err = prover.transaction_checked(&batch, 1, Err("no".to_string())).unwrap_err();
    match err {
        ProvenBatchError::TransactionVerificationFailed { transaction_id, source } => {
            assert_eq!(transaction_id.as_word(), batch.transactions()[1].id().as_word());
            assert_eq!(source, "no");
        },
        other => panic!("unexpected error: {other:?}"),
    }
}

#[test]
fn prover_checks_the_outcome_of_the_kernel() {
    let prover = LocalBatchProver::new(96);
    let err = prover.kernel_proved(two_tx_batch(2), Err("failed".to_string())).unwrap_err();
    assert!(matches!(
        err,
        ProvenBatchError::BatchKernelExecutionFailed(KernelFailure::Execution(m)) if m == "failed"
    ));

    let invalid = outputs([1; 16]);
    let err = prover
        .kernel_proved(two_tx_batch(2), Ok((invalid, ExecutionProof::new_dummy())))
        .unwrap_err();
    assert!(matches!(
        err,
        ProvenBatchError::BatchKernelExecutionFailed(KernelFailure::Output(
            BatchOutputError::OutputStackInvalid(_)
        ))
    ));

    let late = BatchKernel::build_output_stack(seed_word(1), seed_word(2), BlockNumber(801));
    let err = prover
        .kernel_proved(two_tx_batch(2), Ok((late, ExecutionProof::new_dummy())))
        .unwrap_err();
    assert!(matches!(
        err,
        ProvenBatchError::BatchKernelExecutionFailed(KernelFailure::ExpirationMismatch {
            kernel: BlockNumber(801),
            proposed: BlockNumber(800),
        })
    ));
}

#[test]
fn prover_returns_the_proven_batch() {
    let prover = LocalBatchProver::new(96);
    let batch = two_tx_batch(2);
    let id = batch.id();
    let tx_ids: Vec<Word> = batch.transactions().iter().map(|tx| tx.id().as_word()).collect();
    let stack = BatchKernel::build_output_stack(
        expected_input_notes_commitment(&batch),
        expected_output_notes_commitment(&batch),
        BlockNumber(800),
    );
    let proven = prover.kernel_proved(batch, Ok((stack, ExecutionProof::new_dummy()))).unwrap();
    assert_eq!(proven.id(), id);
    assert_eq!(proven.batch_expiration_block_num(), BlockNumber(800));
    assert_eq!(proven.reference_block_commitment(), seed_word(500));
    assert_eq!(proven.reference_block_num(), BlockNumber(2));
    assert_eq!(proven.transactions().len(), 2);
    for (header, tx_id) in proven.transactions().iter().zip(tx_ids) {
        assert_eq!(header.id.as_word(), tx_id);
    }
    assert_eq!(proven.transactions()[1].account_id, account_id(ACCOUNT_2));
    assert_eq!(proven.transactions()[1].output_notes.len(), 2);
    assert_eq!(proven.transactions()[1].final_state_commitment, seed_word(12));
    assert_eq!(proven.execution_proof(), &ExecutionProof::new_dummy());
    assert!(proven.execution_proof().stark_proof().is_empty());
    assert_eq!(proven.execution_proof().hash_fn(), HashFunction::Blake3_256);
    assert!(proven.execution_proof().precompile_requests().is_empty());
}

#[test]
fn proven_batch_has_the_parts_of_the_proposed_batch() {
    let proven = LocalBatchProver::new(96).prove_dummy(two_tx_batch(2)).unwrap();
    let updates = proven.account_updates();
    assert_eq!(updates.len(), 2);
    assert_eq!(updates[0].account_id, account_id(ACCOUNT_1));
    assert_eq!(updates[0].final_state_commitment, seed_word(11));
    assert_eq!(updates[1].account_id, account_id(ACCOUNT_2));
    assert_eq!(updates[1].initial_state_commitment, Word::empty());
    assert_eq!(updates[1].final_state_commitment, seed_word(12));
    let inputs: Vec<_> =
        proven.input_notes().iter().map(|note| (note.nullifier, note.note_commitment)).collect();
    let expected: Vec<_> = [authenticated(70), unauthenticated(81)]
        .iter()
        .map(|note| (note.nullifier, note.note_commitment))
        .collect();
    assert_eq!(inputs, expected);
    let outputs: Vec<Word> = proven.output_notes().iter().map(|note| note.id).collect();
    assert_eq!(outputs, [output_note(80).id, output_note(82).id, output_note(83).id]);
}

#[test]
fn transaction_keeps_its_execution_proof() {
    let proof = ExecutionProof::new(vec![1, 2, 3], HashFunction::Rpo256, vec![]);
    let tx = ProvenTransaction::new(
        account_id(ACCOUNT_1),
        Word::empty(),
        seed_word(11),
        vec![],
        vec![output_note(80)],
        fee(),
        BlockNumber(5),
        proof.clone(),
    );
    assert_eq!(tx.execution_proof(), &proof);
    assert_ne!(tx.execution_proof(), &ExecutionProof::new_dummy());
}

#[test]
fn expired_batches_are_not_proven() {
    let prover = LocalBatchProver::new(96);
    assert!(prover.prove_dummy(two_tx_batch(799)).is_ok());
    let err = prover.prove_dummy(two_tx_batch(800)).unwrap_err();
    assert!(matches!(
        err,
        ProvenBatchError::InvalidBatchExpirationBlockNum {
            batch_expiration_block_num: BlockNumber(800),
            reference_block_num: BlockNumber(800),
        }
    ));
}
