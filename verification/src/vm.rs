//! The inputs and outputs of programs of the virtual machine.
use vstd::prelude::*;

use miden_core::advice::AdviceInputs;
use miden_core::program::{ProgramInfo, StackInputs, StackOutputs};
use miden_core::proof::ExecutionProof;

use crate::hash::{export_word, import_word};
use crate::word::{felt_values, Felt, RawWord, Word};

verus! {

/// The number of elements of the stack that a program can be given and that it leaves behind.
pub const STACK_DEPTH: usize = 16;

/// The elements of a stack whose first elements are given: the rest is zero.
pub open spec fn padded(elements: Seq<u64>) -> Seq<u64> {
    Seq::new(STACK_DEPTH as nat, |i: int| if i < elements.len() { elements[i] } else { 0 })
}

/// The word at the given position of a stack.
pub open spec fn word_at(stack: Seq<u64>, index: int) -> RawWord {
    (stack[index], stack[index + 1], stack[index + 2], stack[index + 3])
}

// STACK INPUTS
// ================================================================================================

/// The initial stack of a program.
#[verifier::external_type_specification]
#[verifier::external_body]
pub struct ExStackInputs(StackInputs);

/// The elements of an initial stack, the top of the stack first.
pub uninterp spec fn input_stack(stack: StackInputs) -> Seq<u64>;

/// Builds an initial stack with `StackInputs::new`: the given elements, the first one on top, and
/// zeros below. It accepts up to [`STACK_DEPTH`] elements.
#[verifier::external_body]
pub(crate) fn new_stack_inputs(elements: &Vec<Felt>) -> (r: StackInputs)
    requires
        elements@.len() <= STACK_DEPTH,
    ensures
        input_stack(r) == padded(felt_values(elements@)),
{
    let values: Vec<miden_core::Felt> =
        elements.iter().map(|e| miden_core::Felt::new(e.as_canonical_u64())).collect();
    StackInputs::new(&values).expect("number of stack inputs should be <= 16")
}

// STACK OUTPUTS
// ================================================================================================

/// The final stack of a program.
#[verifier::external_type_specification]
#[verifier::external_body]
pub struct ExStackOutputs(StackOutputs);

/// The elements of a final stack, the top of the stack first.
pub uninterp spec fn output_stack(stack: StackOutputs) -> Seq<u64>;

/// Builds a final stack with `StackOutputs::new`: the given elements, the first one on top, and
/// zeros below. It accepts up to [`STACK_DEPTH`] elements.
#[verifier::external_body]
pub(crate) fn new_stack_outputs(elements: &Vec<Felt>) -> (r: StackOutputs)
    requires
        elements@.len() <= STACK_DEPTH,
    ensures
        output_stack(r) == padded(felt_values(elements@)),
{
    let values: Vec<miden_core::Felt> =
        elements.iter().map(|e| miden_core::Felt::new(e.as_canonical_u64())).collect();
    StackOutputs::new(&values).expect("number of stack outputs should be <= 16")
}

/// Reads an element of a final stack with `StackOutputs::get_element`. There is one at each
/// position below [`STACK_DEPTH`].
#[verifier::external_body]
pub(crate) fn output_element(stack: &StackOutputs, index: usize) -> (r: Option<Felt>)
    ensures
        match r {
            Some(element) => index < STACK_DEPTH && element@ == output_stack(*stack)[index as int],
            None => index >= STACK_DEPTH,
        },
{
    stack.get_element(index).map(|e| Felt::new(e.as_canonical_u64()))
}

/// Reads four elements of a final stack, from the given position on, with `StackOutputs::get_word`.
/// There is a word at each position from which four elements are left.
#[verifier::external_body]
pub(crate) fn output_word(stack: &StackOutputs, index: usize) -> (r: Option<Word>)
    ensures
        match r {
            Some(word) => index <= STACK_DEPTH - 4 && word@ == word_at(
                output_stack(*stack),
                index as int,
            ),
            None => index > STACK_DEPTH - 4,
        },
{
    stack.get_word(index).map(|w| import_word(&w))
}

// ADVICE INPUTS
// ================================================================================================

/// The advice that a program can ask for while it runs.
#[verifier::external_type_specification]
#[verifier::external_body]
pub struct ExAdviceInputs(AdviceInputs);

/// The lists of elements of an advice, by key.
pub uninterp spec fn advice_map(advice: AdviceInputs) -> Map<RawWord, Seq<u64>>;

/// The advice stack, the element that is read first at the front.
pub uninterp spec fn advice_stack(advice: AdviceInputs) -> Seq<u64>;

/// The Merkle store of an advice is the default one, as `MerkleStore::default` returns it.
pub uninterp spec fn advice_store_is_default(advice: AdviceInputs) -> bool;

/// No lists of elements at all.
pub open spec fn no_advice() -> Map<RawWord, Seq<u64>> {
    Map::empty()
}

/// Creates an advice without contents with `AdviceInputs::default`.
#[verifier::external_body]
pub(crate) fn empty_advice() -> (r: AdviceInputs)
    ensures
        advice_map(r) == no_advice(),
        advice_stack(r).len() == 0,
        advice_store_is_default(r),
{
    AdviceInputs::default()
}

/// Adds a list of elements to the map of an advice with `AdviceMap::extend`. It replaces a list
/// that has the same key.
#[verifier::external_body]
pub(crate) fn extend_advice_map(advice: &mut AdviceInputs, key: &Word, elements: &Vec<Felt>)
    ensures
        advice_map(*final(advice)) == advice_map(*old(advice)).insert(
            key@,
            felt_values(elements@),
        ),
        advice_stack(*final(advice)) == advice_stack(*old(advice)),
        advice_store_is_default(*final(advice)) == advice_store_is_default(*old(advice)),
{
    let values: Vec<miden_core::Felt> =
        elements.iter().map(|e| miden_core::Felt::new(e.as_canonical_u64())).collect();
    advice.map.extend([(export_word(key), values)]);
}

/// Appends an element to the public vector `AdviceInputs::stack`. It is read after those that are
/// there already.
#[verifier::external_body]
pub(crate) fn push_advice(advice: &mut AdviceInputs, element: Felt)
    ensures
        advice_stack(*final(advice)) == advice_stack(*old(advice)).push(element@),
        advice_map(*final(advice)) == advice_map(*old(advice)),
        advice_store_is_default(*final(advice)) == advice_store_is_default(*old(advice)),
{
    advice.stack.push(miden_core::Felt::new(element.as_canonical_u64()));
}

// PROGRAMS AND PROOFS
// ================================================================================================

/// What a verifier has to know of a program.
#[verifier::external_type_specification]
#[verifier::external_body]
pub struct ExProgramInfo(ProgramInfo);

/// The hash of a program.
pub uninterp spec fn program_hash(info: ProgramInfo) -> RawWord;

/// The hashes of the kernel procedures that a program may call.
pub uninterp spec fn kernel_procedures(info: ProgramInfo) -> Seq<RawWord>;

/// Describes a program with `ProgramInfo::new`, with the kernel that `Kernel::default` returns,
/// which has no procedures.
#[verifier::external_body]
pub(crate) fn program_without_kernel(hash: &Word) -> (r: ProgramInfo)
    ensures
        program_hash(r) == hash@,
        kernel_procedures(r).len() == 0,
{
    ProgramInfo::new(export_word(hash), miden_core::program::Kernel::default())
}

/// A proof that a program was executed.
#[verifier::external_type_specification]
#[verifier::external_body]
pub struct ExExecutionProof(ExecutionProof);

/// The bytes of a proof.
pub uninterp spec fn execution_proof_bytes(proof: ExecutionProof) -> Seq<u8>;

/// The proof says that it was made with the hash function `Blake3_256`.
pub uninterp spec fn execution_proof_is_blake3(proof: ExecutionProof) -> bool;

/// The number of precompile requests that a proof carries.
pub uninterp spec fn execution_proof_requests(proof: ExecutionProof) -> nat;

/// The proof is a dummy: it has no bytes, names the hash function `Blake3_256`, and carries no
/// precompile requests.
pub open spec fn is_dummy(proof: ExecutionProof) -> bool {
    &&& execution_proof_bytes(proof).len() == 0
    &&& execution_proof_is_blake3(proof)
    &&& execution_proof_requests(proof) == 0
}

/// Creates a proof with `ExecutionProof::new_dummy`. It has no bytes, names the hash function
/// `Blake3_256`, and carries no precompile requests. No verifier accepts it.
#[verifier::external_body]
pub(crate) fn dummy_execution_proof() -> (r: ExecutionProof)
    ensures
        execution_proof_bytes(r).len() == 0,
        execution_proof_is_blake3(r),
        execution_proof_requests(r) == 0,
{
    ExecutionProof::new_dummy()
}

} // verus!
