//! What the values that contracts speak of have from the data that callers see.
use vstd::prelude::*;
use vstd::std_specs::cmp::PartialEqSpec;

use miden_core::proof::ExecutionProof;

use crate::account::{AccountId, AccountType};
use crate::asset::{Asset, AssetError, AssetFault, FungibleAsset, NonFungibleAsset};
use crate::batch::{header_values, update_values, BatchAccountUpdate, TransactionHeader};
use crate::batch_id::{id_values, BatchId};
use crate::faucet::{
    is_faucet_component, optional_value, slot_values, Account, AccountComponent, StorageSlot,
};
use crate::kernel::{BatchOutputError, OutputFault};
use crate::key_map::entry_values;
use crate::merkle::{InnerNodeInfo, LeafContents, MerkleError, MerkleFault};
use crate::partial_vault::{
    witness_proofs, PartialAssetVaultError, PartialVaultFault, TrackError, TrackFault,
};
use crate::prover::{KernelFailure, KernelFault, ProvenBatchError, ProvenBatchFault};
use crate::transaction::{InputNoteCommitment, OutputNote, TransactionId};
use crate::vault::{outcome, AssetVaultError, VaultFault};
use crate::vault_key::{AssetVaultKey, VaultKeyError, VaultKeyFault};
use crate::vm::{
    execution_proof_bytes, execution_proof_is_blake3, execution_proof_requests, is_dummy,
};
use crate::witness::{key_words, AssetWitness};
use crate::word::{Felt, Word};

verus! {

// RECORDS
// ================================================================================================

/// The value of a note is that of its parts: the nullifier and the commitment, if there is one, of
/// an input note, and the ID and the commitment to the metadata of an output note.
pub proof fn law_notes(input: InputNoteCommitment, output: OutputNote)
    ensures
        input@.0 == input.nullifier@,
        input@.1 is Some <==> input.note_commitment is Some,
        input.note_commitment matches Some(commitment) ==> input@.1 == Some(commitment@),
        output@.0 == output.id@,
        output@.1 == output.metadata_commitment@,
{
}

/// The value of an account update is the account, and the commitments before and after.
pub proof fn law_account_updates(update: BatchAccountUpdate)
    ensures
        update@.0 == update.account_id@,
        update@.1 == update.initial_state_commitment@,
        update@.2 == update.final_state_commitment@,
{
}

/// The value of a transaction header is that of its parts, and its notes are in order.
pub proof fn law_transaction_headers(header: TransactionHeader)
    ensures
        header@.id == header.id@,
        header@.account_id == header.account_id@,
        header@.initial_state == header.initial_state_commitment@,
        header@.final_state == header.final_state_commitment@,
        header@.fee == header.fee@,
        header@.inputs.len() == header.input_notes@.len(),
        forall|i: int|
            0 <= i < header.input_notes@.len() ==> header@.inputs[i]
                == #[trigger] header.input_notes@[i]@,
        header@.outputs.len() == header.output_notes@.len(),
        forall|i: int|
            0 <= i < header.output_notes@.len() ==> header@.outputs[i]
                == #[trigger] header.output_notes@[i]@,
{
}

/// The value of an inner node is its digest and those of its children, and that of a leaf whether
/// it is marked as empty and its pairs.
pub proof fn law_nodes_and_leaves(node: InnerNodeInfo, leaf: LeafContents)
    ensures
        node@ == (node.value@, node.left@, node.right@),
        leaf@.0 == leaf.is_empty,
        leaf@.1.len() == leaf.entries@.len(),
        forall|i: int|
            0 <= i < leaf.entries@.len() ==> leaf@.1[i] == ((#[trigger] leaf.entries@[i]).0@,
                leaf.entries@[i].1@),
{
}

/// The value of an asset is its vault key and its value, whether it is fungible or not.
pub proof fn law_assets(asset: Asset)
    ensures
        asset matches Asset::Fungible(fungible) ==> asset@ == fungible@,
        asset matches Asset::NonFungible(non_fungible) ==> asset@ == non_fungible@,
{
}

/// The value of an account is the commitment to its code and its slots in order, each with its name
/// and its value.
pub proof fn law_accounts(account: Account, slots: Seq<StorageSlot>)
    ensures
        account@.code_commitment == account.code_commitment@,
        account@.slots == slot_values(account.slots@),
        slot_values(slots).len() == slots.len(),
        forall|i: int|
            0 <= i < slots.len() ==> slot_values(slots)[i] == ((#[trigger] slots[i]).name@,
                slots[i].value@),
{
}

/// A faucet component is called `agglayer::faucet` and is meant for fungible faucets only.
pub proof fn law_faucet_components(component: AccountComponent)
    ensures
        is_faucet_component(component) <==> {
            &&& component.name@ == "agglayer::faucet"@
            &&& component.description@ == "AggLayer faucet component"@
            &&& component.supported_types@.len() == 1
            &&& component.supported_types@[0] == AccountType::FungibleFaucet
        },
{
    if component.supported_types@.len() == 1 && component.supported_types@[0]
        == AccountType::FungibleFaucet {
        assert(component.supported_types@ =~= seq![AccountType::FungibleFaucet]);
    }
}

/// The value of an optional account ID is that of the ID, if there is one.
pub proof fn law_optional_ids(id: Option<AccountId>)
    ensures
        optional_value(id) is Some <==> id is Some,
        id matches Some(account_id) ==> optional_value(id) == Some(account_id@),
{
}

/// A dummy proof has no bytes, names the hash function `Blake3_256`, and carries no requests.
pub proof fn law_dummy_proofs(proof: ExecutionProof)
    ensures
        is_dummy(proof) <==> {
            &&& execution_proof_bytes(proof).len() == 0
            &&& execution_proof_is_blake3(proof)
            &&& execution_proof_requests(proof) == 0
        },
{
}

/// Elements, words, IDs, vault keys and assets are equal if and only if their values are.
pub proof fn law_equality(
    felts: (Felt, Felt),
    words: (Word, Word),
    ids: (AccountId, AccountId),
    keys: (AssetVaultKey, AssetVaultKey),
    batches: (BatchId, BatchId),
)
    ensures
        felts.0.eq_spec(&felts.1) <==> felts.0@ == felts.1@,
        words.0.eq_spec(&words.1) <==> words.0@ == words.1@,
        ids.0.eq_spec(&ids.1) <==> ids.0@ == ids.1@,
        keys.0.eq_spec(&keys.1) <==> keys.0@ == keys.1@,
        batches.0.eq_spec(&batches.1) <==> batches.0@ == batches.1@,
{
}

/// Assets are equal if and only if they have the same vault key and the same value.
pub proof fn law_equality_of_assets(
    fungible: (FungibleAsset, FungibleAsset),
    non_fungible: (NonFungibleAsset, NonFungibleAsset),
    assets: (Asset, Asset),
)
    ensures
        fungible.0.eq_spec(&fungible.1) <==> fungible.0@ == fungible.1@,
        non_fungible.0.eq_spec(&non_fungible.1) <==> non_fungible.0@ == non_fungible.1@,
        assets.0.eq_spec(&assets.1) <==> assets.0@ == assets.1@,
{
}

// LISTS
// ================================================================================================

/// The values of lists of vault keys, entries and proofs are those of their members in order.
pub proof fn law_values_of_keys<V: View>(
    keys: Seq<AssetVaultKey>,
    entries: Seq<(AssetVaultKey, V)>,
    witnesses: Seq<AssetWitness>,
)
    ensures
        key_words(keys).len() == keys.len(),
        forall|i: int| 0 <= i < keys.len() ==> key_words(keys)[i] == #[trigger] keys[i]@,
        entry_values(entries).len() == entries.len(),
        forall|i: int|
            0 <= i < entries.len() ==> entry_values(entries)[i] == ((#[trigger] entries[i]).0@,
                entries[i].1@),
        witness_proofs(witnesses).len() == witnesses.len(),
        forall|i: int|
            0 <= i < witnesses.len() ==> witness_proofs(witnesses)[i] == (
            #[trigger] witnesses[i])@.proof,
{
}

/// The values of lists of IDs, account updates and transaction headers are those of their members
/// in order.
pub proof fn law_values_of_batches(
    ids: Seq<(TransactionId, AccountId)>,
    updates: Seq<BatchAccountUpdate>,
    headers: Seq<TransactionHeader>,
)
    ensures
        id_values(ids).len() == ids.len(),
        forall|i: int|
            0 <= i < ids.len() ==> id_values(ids)[i] == ((#[trigger] ids[i]).0@, ids[i].1@),
        update_values(updates).len() == updates.len(),
        forall|i: int|
            0 <= i < updates.len() ==> update_values(updates)[i] == #[trigger] updates[i]@,
        header_values(headers).len() == headers.len(),
        forall|i: int|
            0 <= i < headers.len() ==> header_values(headers)[i] == #[trigger] headers[i]@,
{
}

// ERRORS
// ================================================================================================

/// The value of a result is that of what was returned, whether it is a success or an error.
pub proof fn law_outcomes<A: View, E: View>(r: Result<A, E>)
    ensures
        r matches Ok(value) ==> outcome(r) == Ok::<A::V, E::V>(value@),
        r matches Err(err) ==> outcome(r) == Err::<A::V, E::V>(err@),
{
}

/// The value of an error on assets is the variant of the same name with the values of its fields.
pub proof fn law_asset_errors(err: AssetError)
    ensures
        match err {
            AssetError::FungibleAssetAmountTooBig(amount) => err@
                == AssetFault::FungibleAssetAmountTooBig(amount),
            AssetError::FungibleAssetAmountNotSufficient { minuend, subtrahend } => err@ == (
            AssetFault::FungibleAssetAmountNotSufficient { minuend, subtrahend }),
            AssetError::FungibleAssetInconsistentVaultKeys { original_key, other_key } => err@ == (
            AssetFault::FungibleAssetInconsistentVaultKeys {
                original_key: original_key@,
                other_key: other_key@,
            }),
            AssetError::FungibleFaucetIdTypeMismatch(id) => err@
                == AssetFault::FungibleFaucetIdTypeMismatch(id@),
            AssetError::NonFungibleFaucetIdTypeMismatch(id) => err@
                == AssetFault::NonFungibleFaucetIdTypeMismatch(id@),
            AssetError::FungibleAssetIdMustBeZero(id) => err@
                == AssetFault::FungibleAssetIdMustBeZero(id@),
            AssetError::FungibleAssetValueMostSignificantElementsMustBeZero(value) => err@
                == AssetFault::FungibleAssetValueMostSignificantElementsMustBeZero(value@),
            AssetError::NonFungibleAssetIdMustMatchValue { asset_id, value } => err@ == (
            AssetFault::NonFungibleAssetIdMustMatchValue { asset_id: asset_id@, value: value@ }),
            AssetError::AssetWitnessMissingKey { key } => err@ == (
            AssetFault::AssetWitnessMissingKey { key: key@ }),
            AssetError::AssetWitnessInvalid(source) => err@ == AssetFault::AssetWitnessInvalid(
                Box::new((*source)@),
            ),
        },
{
}

/// The value of an error on vault keys is the variant of the same name with the values of its
/// fields.
pub proof fn law_key_errors(err: VaultKeyError)
    ensures
        match err {
            VaultKeyError::UnknownCallbackFlag(flag) => err@ == VaultKeyFault::UnknownCallbackFlag(
                flag,
            ),
            VaultKeyError::InvalidFaucetAccountId(source) => err@
                == VaultKeyFault::InvalidFaucetAccountId(source),
            VaultKeyError::NotAFaucetId(id) => err@ == VaultKeyFault::NotAFaucetId(id@),
            VaultKeyError::FungibleAssetIdMustBeZero(id) => err@
                == VaultKeyFault::FungibleAssetIdMustBeZero(id@),
        },
{
}

/// The value of an error on trees is the variant of the same name with the values of its fields.
pub proof fn law_tree_errors(err: MerkleError)
    ensures
        match err {
            MerkleError::ConflictingRoots { expected_root, actual_root } => err@ == (
            MerkleFault::ConflictingRoots {
                expected_root: expected_root@,
                actual_root: actual_root@,
            }),
            MerkleError::DuplicateValuesForIndex(index) => err@
                == MerkleFault::DuplicateValuesForIndex(index),
            MerkleError::TooManyLeafEntries { actual } => err@ == (
            MerkleFault::TooManyLeafEntries { actual }),
            MerkleError::UntrackedKey(key) => err@ == MerkleFault::UntrackedKey(key@),
            MerkleError::Other => err@ == MerkleFault::Other,
        },
{
}

/// The value of an error on vaults is the variant of the same name with the value of its field.
pub proof fn law_vault_errors(err: AssetVaultError)
    ensures
        match err {
            AssetVaultError::AddFungibleAssetBalanceError(source) => err@
                == VaultFault::AddFungibleAssetBalanceError(source@),
            AssetVaultError::DuplicateAsset(source) => err@ == VaultFault::DuplicateAsset(source@),
            AssetVaultError::DuplicateNonFungibleAsset(asset) => err@
                == VaultFault::DuplicateNonFungibleAsset(asset@),
            AssetVaultError::FungibleAssetNotFound(asset) => err@
                == VaultFault::FungibleAssetNotFound(asset@),
            AssetVaultError::MaxLeafEntriesExceeded(source) => err@
                == VaultFault::MaxLeafEntriesExceeded(source@),
            AssetVaultError::NotAFungibleFaucetId(id) => err@ == VaultFault::NotAFungibleFaucetId(
                id@,
            ),
            AssetVaultError::NonFungibleAssetNotFound(asset) => err@
                == VaultFault::NonFungibleAssetNotFound(asset@),
            AssetVaultError::SubtractFungibleAssetBalanceError(source) => err@
                == VaultFault::SubtractFungibleAssetBalanceError(source@),
        },
{
}

/// The value of an error on partial vaults is the variant of the same name with the values of its
/// fields.
pub proof fn law_partial_vault_errors(err: PartialAssetVaultError, track: TrackError)
    ensures
        match err {
            PartialAssetVaultError::FailedToAddProof(source) => err@
                == PartialVaultFault::FailedToAddProof(source@),
            PartialAssetVaultError::UntrackedAsset(source) => err@
                == PartialVaultFault::UntrackedAsset(source@),
        },
        match track {
            TrackError::UntrackedKey(key, source) => track@ == TrackFault::UntrackedKey(
                key@,
                source@,
            ),
            TrackError::InvalidAsset(source) => track@ == TrackFault::InvalidAsset(source@),
        },
{
}

/// The value of an error on batches is the variant of the same name with the values of its fields.
pub proof fn law_batch_errors(
    err: ProvenBatchError,
    failure: KernelFailure,
    output: BatchOutputError,
)
    ensures
        match err {
            ProvenBatchError::TransactionVerificationFailed { transaction_id, source } => err@ == (
            ProvenBatchFault::TransactionVerificationFailed {
                transaction_id: transaction_id@,
                source: source@,
            }),
            ProvenBatchError::BatchKernelExecutionFailed(source) => err@
                == ProvenBatchFault::BatchKernelExecutionFailed(source@),
            ProvenBatchError::InvalidBatchExpirationBlockNum {
                batch_expiration_block_num,
                reference_block_num,
            } => err@ == (ProvenBatchFault::InvalidBatchExpirationBlockNum {
                batch_expiration_block_num: batch_expiration_block_num.0,
                reference_block_num: reference_block_num.0,
            }),
        },
        match failure {
            KernelFailure::Execution(message) => failure@ == KernelFault::Execution(message@),
            KernelFailure::Output(source) => failure@ == KernelFault::Output(source@),
            KernelFailure::ExpirationMismatch { kernel, proposed } => failure@ == (
            KernelFault::ExpirationMismatch { kernel: kernel.0, proposed: proposed.0 }),
        },
        match output {
            BatchOutputError::OutputStackInvalid(message) => output@
                == OutputFault::OutputStackInvalid(message@),
            BatchOutputError::ExpirationBlockNumberTooLarge(value) => output@
                == OutputFault::ExpirationBlockNumberTooLarge(value@),
        },
{
}

} // verus!
