//! Sparse Merkle trees: the model that contracts speak of, and the operations of the crypto
//! library that the vault is built on.
use vstd::prelude::*;

use miden_crypto::merkle::smt::{PartialSmt, Smt, SmtProof};
use miden_crypto::merkle::MerkleError as CryptoMerkleError;
use miden_crypto::Word as CryptoWord;

use crate::hash::{crypto_word, export_word, import_word, poseidon2};
use crate::paths::{
    children_digest, empty_children, empty_root, is_shown_empty, lemma_empty_leaf_shown,
    lemma_path_in, lemma_stored_path, no_inner, path_fits, path_in, path_node, path_root, root_of,
    siblings_at, store_path, NodePlace, RawChildren, SMT_DEPTH,
};
use crate::word::{empty_word, word_elements, RawWord, Word};

verus! {

/// The number of key-value pairs that one leaf of a tree may hold.
pub const MAX_LEAF_ENTRIES: usize = 1024;

/// An inner node of a tree: its digest and the digests of its two children.
pub type RawNode = (RawWord, RawWord, RawWord);

// MODEL OF A TREE
// ================================================================================================

/// A leaf: whether it is marked as one without pairs, and its pairs.
pub type RawLeaf = (bool, Seq<(RawWord, RawWord)>);

/// No pairs at all.
pub open spec fn no_pairs() -> Map<RawWord, RawWord> {
    Map::empty()
}

/// The value that `pairs` gives to `key`: a key without a pair has the empty word.
pub open spec fn value_at(pairs: Map<RawWord, RawWord>, key: RawWord) -> RawWord {
    if pairs.contains_key(key) {
        pairs[key]
    } else {
        empty_word()
    }
}

/// The pairs after `key` has been set to `value`: setting the empty word removes the pair.
pub open spec fn set_value(
    pairs: Map<RawWord, RawWord>,
    key: RawWord,
    value: RawWord,
) -> Map<RawWord, RawWord> {
    if value == empty_word() {
        pairs.remove(key)
    } else {
        pairs.insert(key, value)
    }
}

/// The keys of the leaf at position `index`: the last element of a key selects its leaf.
pub open spec fn leaf_keys(pairs: Map<RawWord, RawWord>, index: u64) -> Set<RawWord> {
    pairs.dom().filter(|k: RawWord| k.3 == index)
}

/// The number of pairs in the leaf at position `index`.
pub open spec fn leaf_len(pairs: Map<RawWord, RawWord>, index: u64) -> nat {
    leaf_keys(pairs, index).len()
}

/// The positions of the leaves that hold at least one pair.
pub open spec fn leaf_indices(pairs: Map<RawWord, RawWord>) -> Set<u64> {
    pairs.dom().map(|k: RawWord| k.3)
}

/// Setting `key` to `value` would put one pair too many into a leaf.
pub open spec fn leaf_overflows(
    pairs: Map<RawWord, RawWord>,
    key: RawWord,
    value: RawWord,
) -> bool {
    &&& value != empty_word()
    &&& !pairs.contains_key(key)
    &&& leaf_len(pairs, key.3) >= MAX_LEAF_ENTRIES
}

/// What holds of the pairs of every tree: there are finitely many, none has the empty word as its
/// value, and no leaf holds more than [`MAX_LEAF_ENTRIES`] of them.
pub open spec fn valid_pairs(pairs: Map<RawWord, RawWord>) -> bool {
    &&& pairs.dom().finite()
    &&& forall|k: RawWord| #[trigger] pairs.contains_key(k) ==> pairs[k] != empty_word()
    &&& forall|i: u64| #[trigger] leaf_len(pairs, i) <= MAX_LEAF_ENTRIES
}

/// The pairs of a list, without those whose value is the empty word. A later pair of a key
/// replaces an earlier one.
pub open spec fn listed_pairs(list: Seq<(RawWord, RawWord)>) -> Map<RawWord, RawWord>
    decreases list.len(),
{
    if list.len() == 0 {
        no_pairs()
    } else {
        set_value(listed_pairs(list.drop_last()), list.last().0, list.last().1)
    }
}

/// The values of a list of pairs of words.
pub open spec fn pair_values(list: Seq<(Word, Word)>) -> Seq<(RawWord, RawWord)> {
    Seq::new(list.len(), |i: int| (list[i].0@, list[i].1@))
}

/// What is wrong with the pair at position `n` of a list, once those before it have been set: its
/// leaf would hold too many pairs, or its key occurs before.
pub open spec fn listing_fault(list: Seq<(RawWord, RawWord)>, n: int) -> Option<MerkleFault> {
    let before = listed_pairs(list.take(n));
    if leaf_overflows(before, list[n].0, list[n].1) {
        Some(
            MerkleFault::TooManyLeafEntries { actual: (leaf_len(before, list[n].0.3) + 1) as usize },
        )
    } else if exists|i: int| 0 <= i < n && #[trigger] list[i].0 == list[n].0 {
        Some(MerkleFault::DuplicateValuesForIndex(list[n].0.3))
    } else {
        None
    }
}

/// The failure that building a tree from a list reports: that of the first pair which has one.
pub open spec fn with_entries_fault(list: Seq<(RawWord, RawWord)>, fault: MerkleFault) -> bool {
    exists|n: int|
        0 <= n < list.len() && #[trigger] listing_fault(list, n) == Some(fault) && forall|m: int|
            0 <= m < n ==> #[trigger] listing_fault(list, m) is None
}

/// No two pairs of a list have the same key.
pub open spec fn distinct_keys(list: Seq<(RawWord, RawWord)>) -> bool {
    forall|i: int, j: int| 0 <= i < j < list.len() ==> list[i].0 != list[j].0
}

/// The pairs of the leaf at position `index`.
pub open spec fn leaf_pairs(pairs: Map<RawWord, RawWord>, index: u64) -> Map<RawWord, RawWord> {
    pairs.restrict(leaf_keys(pairs, index))
}

/// No pairs at all are valid pairs.
pub proof fn lemma_no_pairs_valid()
    ensures
        valid_pairs(no_pairs()),
{
    assert forall|i: u64| #[trigger] leaf_len(no_pairs(), i) <= MAX_LEAF_ENTRIES by {
        assert(leaf_keys(no_pairs(), i) =~= Set::empty());
    }
}

/// Setting a value keeps the pairs valid, unless the leaf is full.
pub proof fn lemma_set_value_valid(pairs: Map<RawWord, RawWord>, key: RawWord, value: RawWord)
    requires
        valid_pairs(pairs),
        !leaf_overflows(pairs, key, value),
    ensures
        valid_pairs(set_value(pairs, key, value)),
{
    let after = set_value(pairs, key, value);
    assert forall|i: u64| #[trigger] leaf_len(after, i) <= MAX_LEAF_ENTRIES by {
        let before_keys = leaf_keys(pairs, i);
        let after_keys = leaf_keys(after, i);
        assert(leaf_len(pairs, i) <= MAX_LEAF_ENTRIES);
        assert(before_keys.finite());
        if value != empty_word() && key.3 == i {
            assert(after_keys =~= before_keys.insert(key));
            if pairs.contains_key(key) {
                assert(before_keys.contains(key));
                assert(after_keys =~= before_keys);
            }
        } else {
            assert(after_keys.subset_of(before_keys));
            vstd::set_lib::lemma_len_subset(after_keys, before_keys);
        }
    }
}

// ERRORS
// ================================================================================================

/// The ways in which an operation on a tree can fail.
#[derive(Clone, Copy, Debug)]
pub enum MerkleError {
    /// A Merkle path leads to another root than the expected one.
    ConflictingRoots { expected_root: Word, actual_root: Word },
    /// More than one value was given for a key of the leaf at this position.
    DuplicateValuesForIndex(u64),
    /// A leaf would hold this many pairs, which is more than [`MAX_LEAF_ENTRIES`].
    TooManyLeafEntries { actual: usize },
    /// The tree does not track this key.
    UntrackedKey(Word),
    /// A failure that the operations on sparse Merkle trees do not report.
    Other,
}

/// The value of a [`MerkleError`].
pub enum MerkleFault {
    ConflictingRoots { expected_root: RawWord, actual_root: RawWord },
    DuplicateValuesForIndex(u64),
    TooManyLeafEntries { actual: usize },
    UntrackedKey(RawWord),
    Other,
}

impl View for MerkleError {
    type V = MerkleFault;

    open spec fn view(&self) -> MerkleFault {
        match *self {
            MerkleError::ConflictingRoots { expected_root, actual_root } =>
                MerkleFault::ConflictingRoots {
                    expected_root: expected_root@,
                    actual_root: actual_root@,
                },
            MerkleError::DuplicateValuesForIndex(index) => MerkleFault::DuplicateValuesForIndex(
                index,
            ),
            MerkleError::TooManyLeafEntries { actual } => MerkleFault::TooManyLeafEntries {
                actual,
            },
            MerkleError::UntrackedKey(key) => MerkleFault::UntrackedKey(key@),
            MerkleError::Other => MerkleFault::Other,
        }
    }
}

/// A failure as the crypto library reports it.
#[verifier::external_type_specification]
#[verifier::external_body]
pub struct ExCryptoMerkleError(CryptoMerkleError);

/// What a failure of the crypto library says.
pub uninterp spec fn merkle_fault(err: CryptoMerkleError) -> MerkleFault;

/// Reads a failure of the crypto library: each variant becomes the variant of the same name with
/// the same fields, and the variants that sparse Merkle trees do not report become `Other`.
#[verifier::external_body]
pub(crate) fn import_merkle_error(err: &CryptoMerkleError) -> (r: MerkleError)
    ensures
        r@ == merkle_fault(*err),
{
    match err {
        CryptoMerkleError::ConflictingRoots { expected_root, actual_root } =>
            MerkleError::ConflictingRoots {
                expected_root: import_word(expected_root),
                actual_root: import_word(actual_root),
            },
        CryptoMerkleError::DuplicateValuesForIndex(index) =>
            MerkleError::DuplicateValuesForIndex(*index),
        CryptoMerkleError::TooManyLeafEntries { actual } =>
            MerkleError::TooManyLeafEntries { actual: *actual },
        CryptoMerkleError::UntrackedKey(key) => MerkleError::UntrackedKey(import_word(key)),
        _ => MerkleError::Other,
    }
}

// FULL TREES
// ================================================================================================

/// A sparse Merkle tree that maps words to words.
#[verifier::external_type_specification]
#[verifier::external_body]
pub struct ExSmt(Smt);

/// The pairs of a tree whose value is not the empty word.
pub uninterp spec fn smt_pairs(tree: Smt) -> Map<RawWord, RawWord>;

/// The tree was built with the operations below, so that its root and its inner nodes are those of
/// its pairs. A tree can also be put together from parts that do not fit. The operations tell an
/// empty subtree by its digest: that no other subtree has this digest is taken for granted.
pub uninterp spec fn smt_built(tree: Smt) -> bool;

/// The inner nodes of the tree that holds the given pairs, by place, without those of empty
/// subtrees.
pub uninterp spec fn smt_inner(pairs: Map<RawWord, RawWord>) -> Map<NodePlace, RawChildren>;

/// The root digest of the tree that holds the given pairs.
pub open spec fn smt_root(pairs: Map<RawWord, RawWord>) -> RawWord {
    root_of(smt_inner(pairs))
}

/// An inner node of a tree: its digest, and the digests of its left and its right child.
#[derive(Clone, Copy, Debug)]
pub struct InnerNodeInfo {
    pub value: Word,
    pub left: Word,
    pub right: Word,
}

impl View for InnerNodeInfo {
    type V = RawNode;

    open spec fn view(&self) -> RawNode {
        (self.value@, self.left@, self.right@)
    }
}

/// The values of a list of inner nodes.
pub open spec fn node_values(nodes: Seq<InnerNodeInfo>) -> Seq<RawNode> {
    Seq::new(nodes.len(), |i: int| nodes[i]@)
}

/// An inner node with its digest.
pub open spec fn with_digest(children: RawChildren) -> RawNode {
    (children_digest(children), children.0, children.1)
}

/// The list holds the given inner nodes with their digests, each once and in some order.
pub open spec fn lists_nodes(list: Seq<RawNode>, inner: Map<NodePlace, RawChildren>) -> bool {
    exists|order: Seq<NodePlace>|
        order.no_duplicates() && order.to_set() == inner.dom() && list == #[trigger] nodes_in_order(
            inner,
            order,
        )
}

/// The inner nodes at the places of a list, with their digests.
pub open spec fn nodes_in_order(
    inner: Map<NodePlace, RawChildren>,
    order: Seq<NodePlace>,
) -> Seq<RawNode> {
    Seq::new(order.len(), |i: int| with_digest(inner[order[i]]))
}

/// `Smt::new` returns a tree without pairs, which stores no inner nodes.
pub assume_specification[ Smt::new ]() -> (result: Smt)
    ensures
        smt_pairs(result) == no_pairs(),
        smt_built(result),
        smt_inner(smt_pairs(result)) == no_inner(),
;

/// `Smt::clone` returns a tree with the same pairs.
pub assume_specification[ <Smt as Clone>::clone ](tree: &Smt) -> (result: Smt)
    ensures
        smt_pairs(result) == smt_pairs(*tree),
        smt_built(result) == smt_built(*tree),
;

/// `Smt::root` returns the digest of the topmost inner node, which the pairs of the tree determine.
pub assume_specification[ Smt::root ](tree: &Smt) -> (root: CryptoWord)
    requires
        smt_built(*tree),
    ensures
        crypto_word(root) == smt_root(smt_pairs(*tree)),
;

/// `Smt::is_empty` tells whether the tree has no pairs. It compares the root with that of a tree
/// without pairs.
pub assume_specification[ Smt::is_empty ](tree: &Smt) -> (result: bool)
    requires
        smt_built(*tree),
    ensures
        result == (smt_pairs(*tree) == no_pairs()),
        result == (smt_root(smt_pairs(*tree)) == empty_root()),
;

/// `Smt::num_leaves` returns the number of leaves that hold at least one pair.
pub assume_specification[ Smt::num_leaves ](tree: &Smt) -> (result: usize)
    requires
        smt_built(*tree),
    ensures
        result == leaf_indices(smt_pairs(*tree)).len(),
;

/// `Smt::num_entries` returns the number of pairs.
pub assume_specification[ Smt::num_entries ](tree: &Smt) -> (result: usize)
    requires
        smt_built(*tree),
    ensures
        result == smt_pairs(*tree).dom().len(),
;

/// `Smt::insert` sets the value of a key, where the empty word removes the pair, and returns the
/// former value. It fails, and changes nothing, if the leaf of the key is full.
pub assume_specification[ Smt::insert ](
    tree: &mut Smt,
    key: CryptoWord,
    value: CryptoWord,
) -> (result: Result<CryptoWord, CryptoMerkleError>)
    requires
        smt_built(*old(tree)),
    ensures
        smt_built(*final(tree)),
        match result {
            Ok(former) => {
                &&& !leaf_overflows(smt_pairs(*old(tree)), crypto_word(key), crypto_word(value))
                &&& crypto_word(former) == value_at(smt_pairs(*old(tree)), crypto_word(key))
                &&& smt_pairs(*final(tree)) == set_value(
                    smt_pairs(*old(tree)),
                    crypto_word(key),
                    crypto_word(value),
                )
            },
            Err(err) => {
                &&& leaf_overflows(smt_pairs(*old(tree)), crypto_word(key), crypto_word(value))
                &&& merkle_fault(err) matches MerkleFault::TooManyLeafEntries { actual }
                &&& actual == leaf_len(smt_pairs(*old(tree)), crypto_word(key).3) + 1
                &&& smt_pairs(*final(tree)) == smt_pairs(*old(tree))
            },
        },
;

/// Builds a tree with `Smt::with_entries`, as it works without the `concurrent` feature.
///
/// It succeeds if and only if all keys are distinct and no leaf would hold too many pairs. The tree
/// then holds the listed pairs whose value is not the empty word. The failure is that of the first
/// pair in the list which does not fit: it says how many pairs the leaf that is too full would
/// hold, or which leaf got two values for one key.
#[verifier::external_body]
pub(crate) fn smt_with_entries(entries: &Vec<(Word, Word)>) -> (r: Result<Smt, CryptoMerkleError>)
    ensures
        r is Ok <==> (distinct_keys(pair_values(entries@)) && valid_pairs(
            listed_pairs(pair_values(entries@)),
        )),
        r matches Ok(tree) ==> smt_built(tree) && smt_pairs(tree) == listed_pairs(
            pair_values(entries@),
        ),
        r matches Err(err) ==> with_entries_fault(pair_values(entries@), merkle_fault(err)),
{
    Smt::with_entries(entries.iter().map(|(key, value)| (export_word(key), export_word(value))))
}

/// Lists the inner nodes of a tree with `Smt::inner_nodes`, in no particular order, each with its
/// digest.
#[verifier::external_body]
pub(crate) fn smt_inner_nodes(tree: &Smt) -> (r: Vec<InnerNodeInfo>)
    requires
        smt_built(*tree),
    ensures
        lists_nodes(node_values(r@), smt_inner(smt_pairs(*tree))),
{
    tree.inner_nodes()
        .map(|node| InnerNodeInfo {
            value: import_word(&node.value),
            left: import_word(&node.left),
            right: import_word(&node.right),
        })
        .collect()
}

/// `Smt::open` returns a proof of the leaf of `key` in this tree: the inner nodes on its path are
/// those of the tree.
pub assume_specification[ Smt::open ](tree: &Smt, key: &CryptoWord) -> (proof: SmtProof)
    requires
        smt_built(*tree),
    ensures
        proof_leaf_readable(proof),
        leaf_at_bottom(proof),
        proof_leaf(proof) == crypto_word(*key).3,
        proof_pairs(proof) == leaf_pairs(smt_pairs(*tree), crypto_word(*key).3),
        path_in(
            proof_leaf(proof),
            leaf_digest(proof_entries(proof)),
            proof_siblings(proof),
            smt_inner(smt_pairs(*tree)),
        ),
;

// PROOFS
// ================================================================================================

/// A Merkle path from a leaf of a tree to its root, together with the leaf.
#[verifier::external_type_specification]
#[verifier::external_body]
pub struct ExSmtProof(SmtProof);

/// The leaf of a proof is marked as one without pairs.
pub uninterp spec fn proof_leaf_is_empty(proof: SmtProof) -> bool;

/// The list of the pairs that the leaf of a proof holds.
pub uninterp spec fn proof_entries(proof: SmtProof) -> Seq<(RawWord, RawWord)>;

/// The position that a leaf which is marked as one without pairs carries.
pub uninterp spec fn marked_position(proof: SmtProof) -> u64;

/// The depth that a leaf which is marked as one without pairs carries. In a tree it is that of the
/// leaves, but such a leaf can be made with any other depth as well.
pub uninterp spec fn marked_depth(proof: SmtProof) -> u8;

/// The siblings on the path of a proof, of which the first is that of the leaf.
pub uninterp spec fn proof_siblings(proof: SmtProof) -> Seq<RawWord>;

/// The position of the leaf of a proof: that of its first key, or the one that it carries.
pub open spec fn proof_leaf(proof: SmtProof) -> u64 {
    if proof_entries(proof).len() > 0 {
        proof_entries(proof)[0].0.3
    } else {
        marked_position(proof)
    }
}

/// The leaf of a proof sits at the depth of the leaves. A leaf that holds pairs always does.
pub open spec fn leaf_at_bottom(proof: SmtProof) -> bool {
    proof_entries(proof).len() > 0 || marked_depth(proof) == SMT_DEPTH
}

/// The value that a list of pairs gives to a key: that of the first pair with this key.
pub open spec fn entries_value(entries: Seq<(RawWord, RawWord)>, key: RawWord) -> RawWord
    decreases entries.len(),
{
    if entries.len() == 0 {
        empty_word()
    } else if entries[0].0 == key {
        entries[0].1
    } else {
        entries_value(entries.drop_first(), key)
    }
}

/// The keys to which a list of pairs gives a value that is not the empty word, with these values.
pub open spec fn entries_map(entries: Seq<(RawWord, RawWord)>) -> Map<RawWord, RawWord> {
    Map::new(
        |k: RawWord| entries_value(entries, k) != empty_word(),
        |k: RawWord| entries_value(entries, k),
    )
}

/// The pairs of the leaf of a proof whose value is not the empty word.
pub open spec fn proof_pairs(proof: SmtProof) -> Map<RawWord, RawWord> {
    entries_map(proof_entries(proof))
}

/// The elements of a list of pairs, each key before its value.
pub open spec fn entry_elements(entries: Seq<(RawWord, RawWord)>) -> Seq<u64>
    decreases entries.len(),
{
    if entries.len() == 0 {
        Seq::empty()
    } else {
        entry_elements(entries.drop_last()) + word_elements(entries.last().0) + word_elements(
            entries.last().1,
        )
    }
}

/// The digest of a leaf: the hash of its pairs, or the empty word if there are none.
pub open spec fn leaf_digest(entries: Seq<(RawWord, RawWord)>) -> RawWord {
    if entries.len() == 0 {
        empty_word()
    } else {
        poseidon2(entry_elements(entries))
    }
}

/// The inner node on the path of a proof at the given height.
pub open spec fn proof_node(proof: SmtProof, height: nat) -> RawChildren {
    path_node(
        proof_leaf(proof),
        leaf_digest(proof_entries(proof)),
        proof_siblings(proof),
        height,
    )
}

/// The inner nodes on the path of a proof, from the parent of the leaf to the root.
pub open spec fn proof_nodes(proof: SmtProof) -> Seq<RawNode> {
    Seq::new(SMT_DEPTH as nat, |h: int| with_digest(proof_node(proof, (h + 1) as nat)))
}

/// The root digest that the path of a proof leads to.
pub open spec fn proof_root(proof: SmtProof) -> RawWord {
    path_root(proof_leaf(proof), leaf_digest(proof_entries(proof)), proof_siblings(proof))
}

/// The inner nodes on the path of a proof are those of a set of inner nodes.
pub open spec fn proof_in(proof: SmtProof, inner: Map<NodePlace, RawChildren>) -> bool {
    path_in(
        proof_leaf(proof),
        leaf_digest(proof_entries(proof)),
        proof_siblings(proof),
        inner,
    )
}

/// The leaf of a proof is marked as empty or holds at least one pair, so that it has a position. A
/// leaf that is meant for several pairs and holds none has no position.
pub open spec fn proof_leaf_readable(proof: SmtProof) -> bool {
    proof_leaf_is_empty(proof) || proof_entries(proof).len() > 0
}

/// The value that a proof gives to a key: none if the key belongs to another leaf.
pub open spec fn proof_value(proof: SmtProof, key: RawWord) -> Option<RawWord> {
    if leaf_at_bottom(proof) && key.3 == proof_leaf(proof) {
        Some(value_at(proof_pairs(proof), key))
    } else {
        None
    }
}

/// `SmtProof::clone` returns the same proof.
pub assume_specification[ <SmtProof as Clone>::clone ](smt_proof: &SmtProof) -> (result: SmtProof)
    ensures
        result == *smt_proof,
;

/// Reads with `SmtLeaf::is_empty` whether the leaf of a proof is marked as one without pairs.
#[verifier::external_body]
fn leaf_is_empty(proof: &SmtProof) -> (r: bool)
    ensures
        r == proof_leaf_is_empty(*proof),
{
    proof.leaf().is_empty()
}

/// Reads with `SmtLeaf::num_entries` how many pairs the leaf of a proof holds.
#[verifier::external_body]
fn leaf_num_entries(proof: &SmtProof) -> (r: usize)
    ensures
        r == proof_entries(*proof).len(),
{
    proof.leaf().num_entries()
}

/// Tells whether the leaf of a proof has a position. Every proof that was opened in a tree has one.
pub fn is_readable(proof: &SmtProof) -> (r: bool)
    ensures
        r == proof_leaf_readable(*proof),
{
    leaf_is_empty(proof) || leaf_num_entries(proof) > 0
}

/// `SmtProof::get` returns the value of a key, or nothing if the key belongs to another leaf.
pub assume_specification[ SmtProof::get ](proof: &SmtProof, key: &CryptoWord) -> (result: Option<
    CryptoWord,
>)
    requires
        proof_leaf_readable(*proof),
    ensures
        match result {
            Some(value) => proof_value(*proof, crypto_word(*key)) == Some(crypto_word(value)),
            None => proof_value(*proof, crypto_word(*key)) is None,
        },
;

/// Reads the position of the leaf of a proof with `SmtProof::leaf`, `SmtLeaf::index` and
/// `LeafIndex::position`.
#[verifier::external_body]
pub(crate) fn proof_leaf_index(proof: &SmtProof) -> (r: u64)
    requires
        proof_leaf_readable(*proof),
    ensures
        r == proof_leaf(*proof),
        proof_entries(*proof).len() == 0 ==> r == marked_position(*proof),
{
    proof.leaf().index().position()
}

/// Reads the depth of the leaf of a proof with `SmtLeaf::index` and `NodeIndex::depth`. That of a
/// leaf with pairs is the depth of the leaves.
#[verifier::external_body]
fn leaf_depth(proof: &SmtProof) -> (r: u8)
    requires
        proof_leaf_readable(*proof),
    ensures
        proof_entries(*proof).len() > 0 ==> r == SMT_DEPTH,
        proof_entries(*proof).len() == 0 ==> r == marked_depth(*proof),
{
    miden_crypto::merkle::NodeIndex::from(proof.leaf().index()).depth()
}

/// Tells whether the leaf of a proof sits at the depth of the leaves. Every proof that was opened
/// in a tree has such a leaf.
pub fn is_at_bottom(proof: &SmtProof) -> (r: bool)
    requires
        proof_leaf_readable(*proof),
    ensures
        r == leaf_at_bottom(*proof),
{
    leaf_depth(proof) == SMT_DEPTH
}

/// Lists the inner nodes on the path of a proof with `SparseMerklePath::authenticated_nodes`, from
/// the parent of the leaf up to the root, one for each level, each with its digest. The path starts
/// at the digest of the leaf, which `SmtLeaf::hash` computes.
#[verifier::external_body]
pub(crate) fn proof_path_nodes(proof: &SmtProof) -> (r: Vec<InnerNodeInfo>)
    requires
        proof_leaf_readable(*proof),
    ensures
        node_values(r@) == proof_nodes(*proof),
{
    proof.path()
        .authenticated_nodes(proof.leaf().index().position(), proof.leaf().hash())
        .expect("every position is valid at the depth of the leaves")
        .map(|node| InnerNodeInfo {
            value: import_word(&node.value),
            left: import_word(&node.left),
            right: import_word(&node.right),
        })
        .collect()
}

// PARTIAL TREES
// ================================================================================================

/// A tree of which only the root and some of the leaves are known.
#[verifier::external_type_specification]
#[verifier::external_body]
pub struct ExPartialSmt(PartialSmt);

/// The root digest of a partial tree.
pub uninterp spec fn partial_root(tree: PartialSmt) -> RawWord;

/// The leaves that a partial tree stores, by position.
pub uninterp spec fn partial_leaves(tree: PartialSmt) -> Map<u64, RawLeaf>;

/// The inner nodes that a partial tree stores, by place.
pub uninterp spec fn partial_inner(tree: PartialSmt) -> Map<NodePlace, RawChildren>;

/// The partial tree tracks the leaf at position `index`: it stores the leaf, or what it stores
/// shows that the leaf is empty.
pub open spec fn tracks_leaf(tree: PartialSmt, index: u64) -> bool {
    partial_leaves(tree).contains_key(index) || is_shown_empty(
        partial_root(tree),
        partial_inner(tree),
        index,
    )
}

/// The value that the stored leaves give to a key. A leaf that is not stored at its own position
/// gives no value to the keys of that position.
pub open spec fn stored_value(leaves: Map<u64, RawLeaf>, key: RawWord) -> RawWord {
    if leaves.contains_key(key.3) && leaf_placed(leaves, key.3) {
        entries_value(leaves[key.3].1, key)
    } else {
        empty_word()
    }
}

/// The keys that a partial tree tracks, with their values. A tracked key may have the empty word.
pub open spec fn partial_values(tree: PartialSmt) -> Map<RawWord, RawWord> {
    Map::new(
        |k: RawWord| tracks_leaf(tree, k.3),
        |k: RawWord| stored_value(partial_leaves(tree), k),
    )
}

/// The root digest that the path which a partial tree has for the leaf at position `index` leads
/// to.
pub open spec fn partial_path_root(tree: PartialSmt, index: u64) -> RawWord {
    path_root(
        index,
        leaf_digest(stored_entries(partial_leaves(tree), index)),
        siblings_at(partial_inner(tree), index),
    )
}

/// The leaves of a partial tree after a leaf has been replaced: a leaf without pairs is not stored.
pub open spec fn set_leaf(
    leaves: Map<u64, RawLeaf>,
    index: u64,
    entries: Seq<(RawWord, RawWord)>,
) -> Map<u64, RawLeaf> {
    if entries.len() > 0 {
        leaves.insert(index, (false, entries))
    } else {
        leaves.remove(index)
    }
}

/// The pairs of the leaf that is stored at position `index`: none if there is no such leaf.
pub open spec fn stored_entries(leaves: Map<u64, RawLeaf>, index: u64) -> Seq<(RawWord, RawWord)> {
    if leaves.contains_key(index) {
        leaves[index].1
    } else {
        Seq::empty()
    }
}

/// Every stored leaf is marked as one without pairs or holds at least one pair.
pub open spec fn readable_leaves(leaves: Map<u64, RawLeaf>) -> bool {
    forall|i: u64| #[trigger] leaves.contains_key(i) ==> leaves[i].0 || leaves[i].1.len() > 0
}

/// The leaf at position `index`, if there is one, holds at least one pair, and its first pair
/// belongs to this position.
pub open spec fn leaf_placed(leaves: Map<u64, RawLeaf>, index: u64) -> bool {
    leaves.contains_key(index) ==> leaves[index].1.len() > 0 && leaves[index].1[0].0.3 == index
}

/// Every stored leaf holds at least one pair, and its first pair belongs to the position of the
/// leaf.
pub open spec fn placed_leaves(leaves: Map<u64, RawLeaf>) -> bool {
    forall|i: u64| #[trigger] leaves.contains_key(i) ==> leaf_placed(leaves, i)
}

/// `PartialSmt::new` returns a partial tree with the given root that stores nothing.
pub assume_specification[ PartialSmt::new ](root: CryptoWord) -> (tree: PartialSmt)
    ensures
        partial_root(tree) == crypto_word(root),
        partial_leaves(tree) == no_leaves(),
        partial_inner(tree) == no_inner(),
;

/// `PartialSmt::clone` returns the same partial tree.
pub assume_specification[ <PartialSmt as Clone>::clone ](tree: &PartialSmt) -> (result: PartialSmt)
    ensures
        result == *tree,
;

/// No leaves at all.
pub open spec fn no_leaves() -> Map<u64, RawLeaf> {
    Map::empty()
}

/// The leaves `leaves` are exactly those of a tree with the given pairs.
pub open spec fn leaves_of(leaves: Map<u64, RawLeaf>, pairs: Map<RawWord, RawWord>) -> bool {
    &&& leaves.dom() == leaf_indices(pairs)
    &&& placed_leaves(leaves)
    &&& forall|i: u64| #[trigger]
        leaves.contains_key(i) ==> distinct_keys(leaves[i].1) && entries_map(leaves[i].1)
            == leaf_pairs(pairs, i)
}

/// The inner nodes above every leaf have, on its side, the digests that its path passes through.
pub open spec fn all_paths_fit(
    leaves: Map<u64, RawLeaf>,
    inner: Map<NodePlace, RawChildren>,
) -> bool {
    forall|i: u64| #[trigger] path_fits(inner, i, leaf_digest(stored_entries(leaves, i)))
}

/// No stored inner node is that of an empty subtree.
pub open spec fn stores_no_empty(inner: Map<NodePlace, RawChildren>) -> bool {
    forall|place: NodePlace| #[trigger]
        inner.contains_key(place) ==> inner[place] != empty_children(place.0)
}

/// Converts a tree with `PartialSmt::from`: the result has its root, its leaves and its inner
/// nodes. They fit together, as those of every tree do, and no inner node of an empty subtree is
/// stored.
#[verifier::external_body]
pub(crate) fn partial_from_smt(tree: Smt) -> (r: PartialSmt)
    requires
        smt_built(tree),
    ensures
        partial_root(r) == smt_root(smt_pairs(tree)),
        leaves_of(partial_leaves(r), smt_pairs(tree)),
        partial_inner(r) == smt_inner(smt_pairs(tree)),
        all_paths_fit(partial_leaves(r), partial_inner(r)),
        stores_no_empty(partial_inner(r)),
{
    PartialSmt::from(tree)
}

/// `PartialSmt::root` returns the root.
pub assume_specification[ PartialSmt::root ](tree: &PartialSmt) -> (root: CryptoWord)
    ensures
        crypto_word(root) == partial_root(*tree),
;

/// `PartialSmt::get_value` returns the value of a tracked key and fails for any other key.
pub assume_specification[ PartialSmt::get_value ](tree: &PartialSmt, key: &CryptoWord) -> (result:
    Result<CryptoWord, CryptoMerkleError>)
    requires
        readable_leaves(partial_leaves(*tree)),
    ensures
        match result {
            Ok(value) => partial_values(*tree).contains_key(crypto_word(*key)) && crypto_word(value)
                == partial_values(*tree)[crypto_word(*key)],
            Err(err) => !partial_values(*tree).contains_key(crypto_word(*key)) && merkle_fault(err)
                == MerkleFault::UntrackedKey(crypto_word(*key)),
        },
;

/// The proof shows the leaf at position `index` as a partial tree has it: the stored leaf, or an
/// empty leaf that carries this position, with the siblings that the stored inner nodes have.
pub open spec fn shows_leaf(tree: PartialSmt, index: u64, proof: SmtProof) -> bool {
    &&& proof_entries(proof) == stored_entries(partial_leaves(tree), index)
    &&& proof_leaf_is_empty(proof) == (!partial_leaves(tree).contains_key(index)
        || partial_leaves(tree)[index].0)
    &&& !partial_leaves(tree).contains_key(index) ==> marked_position(proof) == index
        && marked_depth(proof) == SMT_DEPTH
    &&& proof_siblings(proof) == siblings_at(partial_inner(tree), index)
}

/// `PartialSmt::open` returns a proof of the leaf of a tracked key, as the partial tree has it, and
/// fails for any other key.
pub assume_specification[ PartialSmt::open ](tree: &PartialSmt, key: &CryptoWord) -> (result:
    Result<SmtProof, CryptoMerkleError>)
    ensures
        match result {
            Ok(proof) => tracks_leaf(*tree, crypto_word(*key).3) && shows_leaf(
                *tree,
                crypto_word(*key).3,
                proof,
            ),
            Err(err) => !tracks_leaf(*tree, crypto_word(*key).3) && merkle_fault(err)
                == MerkleFault::UntrackedKey(crypto_word(*key)),
        },
;

/// The leaves of a partial tree after a proof has been added to it.
pub open spec fn store_leaf(leaves: Map<u64, RawLeaf>, proof: SmtProof) -> Map<u64, RawLeaf> {
    set_leaf(leaves, proof_leaf(proof), proof_entries(proof))
}

/// The inner nodes of a partial tree after a proof has been added to it.
pub open spec fn store_nodes(
    inner: Map<NodePlace, RawChildren>,
    proof: SmtProof,
) -> Map<NodePlace, RawChildren> {
    store_path(
        inner,
        proof_leaf(proof),
        leaf_digest(proof_entries(proof)),
        proof_siblings(proof),
    )
}

/// `PartialSmt::add_proof` stores the leaf and the inner nodes of a proof. The root stays what it
/// was, and the call fails if and only if the proof leads to another root; the leaf and the inner
/// nodes are stored then too.
pub assume_specification[ PartialSmt::add_proof ](tree: &mut PartialSmt, proof: SmtProof) -> (result:
    Result<(), CryptoMerkleError>)
    requires
        proof_leaf_readable(proof),
        leaf_at_bottom(proof),
    ensures
        partial_root(*final(tree)) == partial_root(*old(tree)),
        partial_leaves(*final(tree)) == store_leaf(partial_leaves(*old(tree)), proof),
        partial_inner(*final(tree)) == store_nodes(partial_inner(*old(tree)), proof),
        match result {
            Ok(_) => proof_root(proof) == partial_root(*old(tree)),
            Err(err) => proof_root(proof) != partial_root(*old(tree)) && merkle_fault(err) == (
            MerkleFault::ConflictingRoots {
                expected_root: partial_root(*old(tree)),
                actual_root: proof_root(proof),
            }),
        },
;

/// Builds a partial tree with `PartialSmt::from_proofs`.
///
/// Without proofs it is the partial tree of a tree without pairs. Otherwise its root is that of the
/// first proof, and all other proofs have to lead to it: the first one that does not makes it fail.
/// The leaves and the inner nodes of the proofs are stored one proof after the other.
#[verifier::external_body]
pub(crate) fn partial_from_proofs(proofs: Vec<SmtProof>) -> (r: Result<
    PartialSmt,
    CryptoMerkleError,
>)
    requires
        forall|i: int|
            0 <= i < proofs@.len() ==> proof_leaf_readable(#[trigger] proofs@[i])
                && leaf_at_bottom(proofs@[i]),
    ensures
        r is Ok <==> same_roots(proofs@),
        r matches Ok(tree) ==> {
            &&& partial_root(tree) == first_root(proofs@)
            &&& partial_leaves(tree) == proof_leaves(proofs@)
            &&& partial_inner(tree) == proof_inner(proofs@)
        },
        r matches Err(err) ==> exists|i: int|
            0 < i < proofs@.len() && same_roots(proofs@.take(i)) && proof_root(
                #[trigger] proofs@[i],
            ) != proof_root(proofs@[0]) && merkle_fault(err) == (MerkleFault::ConflictingRoots {
                expected_root: proof_root(proofs@[0]),
                actual_root: proof_root(proofs@[i]),
            }),
{
    PartialSmt::from_proofs(proofs)
}

/// All proofs of a list lead to the same root.
pub open spec fn same_roots(proofs: Seq<SmtProof>) -> bool {
    forall|i: int| 0 <= i < proofs.len() ==> proof_root(#[trigger] proofs[i]) == proof_root(proofs[0])
}

/// The root that the first proof leads to, or that of a tree without pairs if there is no proof.
pub open spec fn first_root(proofs: Seq<SmtProof>) -> RawWord {
    if proofs.len() == 0 {
        empty_root()
    } else {
        proof_root(proofs[0])
    }
}

/// The leaves that a list of proofs leaves behind.
pub open spec fn proof_leaves(proofs: Seq<SmtProof>) -> Map<u64, RawLeaf>
    decreases proofs.len(),
{
    if proofs.len() == 0 {
        no_leaves()
    } else {
        store_leaf(proof_leaves(proofs.drop_last()), proofs.last())
    }
}

/// The leaves that a list of proofs leaves behind are stored at their own positions, so that they
/// can be read.
pub proof fn lemma_proof_leaves(proofs: Seq<SmtProof>)
    ensures
        placed_leaves(proof_leaves(proofs)),
        readable_leaves(proof_leaves(proofs)),
    decreases proofs.len(),
{
    if proofs.len() > 0 {
        lemma_proof_leaves(proofs.drop_last());
        let before = proof_leaves(proofs.drop_last());
        assert forall|i: u64| #[trigger] proof_leaves(proofs).contains_key(i) implies leaf_placed(
            proof_leaves(proofs),
            i,
        ) by {
            if i != proof_leaf(proofs.last()) {
                assert(before.contains_key(i));
                assert(leaf_placed(before, i));
            }
        }
        assert forall|i: u64| #[trigger] proof_leaves(proofs).contains_key(i) implies proof_leaves(
            proofs,
        )[i].0 || proof_leaves(proofs)[i].1.len() > 0 by {
            assert(leaf_placed(proof_leaves(proofs), i));
        }
    }
}

/// The inner nodes that a list of proofs leaves behind.
pub open spec fn proof_inner(proofs: Seq<SmtProof>) -> Map<NodePlace, RawChildren>
    decreases proofs.len(),
{
    if proofs.len() == 0 {
        no_inner()
    } else {
        store_nodes(proof_inner(proofs.drop_last()), proofs.last())
    }
}

/// Lists the inner nodes that a partial tree stores with `PartialSmt::inner_nodes`, in no
/// particular order, each with its digest.
#[verifier::external_body]
pub(crate) fn partial_inner_nodes(tree: &PartialSmt) -> (r: Vec<InnerNodeInfo>)
    ensures
        lists_nodes(node_values(r@), partial_inner(*tree)),
{
    tree.inner_nodes()
        .map(|node| InnerNodeInfo {
            value: import_word(&node.value),
            left: import_word(&node.left),
            right: import_word(&node.right),
        })
        .collect()
}

/// The tracked value of a key is the stored one, where a key that is not tracked counts as one
/// without a value.
pub proof fn lemma_stored_value(tree: PartialSmt, key: RawWord)
    ensures
        value_at(partial_values(tree), key) == stored_value(partial_leaves(tree), key),
{
}

/// A leaf that a partial tree has stored from a proof gives the keys of its position the values
/// that the proof gives to them, and leaves the values of all other keys as they were.
pub proof fn lemma_store_leaf(leaves: Map<u64, RawLeaf>, proof: SmtProof, key: RawWord)
    ensures
        leaf_placed(store_leaf(leaves, proof), proof_leaf(proof)),
        stored_entries(store_leaf(leaves, proof), proof_leaf(proof)) == proof_entries(proof),
        stored_value(store_leaf(leaves, proof), key) == (if key.3 == proof_leaf(proof) {
            value_at(proof_pairs(proof), key)
        } else {
            stored_value(leaves, key)
        }),
{
}

/// If the path of a stored leaf runs in the stored inner nodes and leads to the root, then the leaf
/// is tracked, and the path that the partial tree has for it leads to the root as well.
pub proof fn lemma_path_tracked(tree: PartialSmt, index: u64, siblings: Seq<RawWord>)
    requires
        path_in(
            index,
            leaf_digest(stored_entries(partial_leaves(tree), index)),
            siblings,
            partial_inner(tree),
        ),
        partial_root(tree) == path_root(
            index,
            leaf_digest(stored_entries(partial_leaves(tree), index)),
            siblings,
        ),
    ensures
        tracks_leaf(tree, index),
        partial_path_root(tree, index) == partial_root(tree),
{
    let digest = leaf_digest(stored_entries(partial_leaves(tree), index));
    lemma_path_in(index, digest, siblings, partial_inner(tree));
    if !partial_leaves(tree).contains_key(index) {
        lemma_empty_leaf_shown(partial_root(tree), partial_inner(tree), index, siblings);
    }
}

/// The leaf of a proof that has been added is tracked if the proof leads to the root. The path that
/// the partial tree has for it then leads where the proof leads.
pub proof fn lemma_added_proof(before: PartialSmt, proof: SmtProof, after: PartialSmt)
    requires
        partial_root(after) == partial_root(before),
        partial_leaves(after) == store_leaf(partial_leaves(before), proof),
        partial_inner(after) == store_nodes(partial_inner(before), proof),
    ensures
        partial_path_root(after, proof_leaf(proof)) == proof_root(proof),
        proof_root(proof) == partial_root(before) ==> tracks_leaf(after, proof_leaf(proof)),
{
    let leaf = proof_leaf(proof);
    let digest = leaf_digest(proof_entries(proof));
    lemma_store_leaf(partial_leaves(before), proof, empty_word());
    lemma_stored_path(partial_inner(before), leaf, digest, proof_siblings(proof));
    lemma_path_in(leaf, digest, proof_siblings(proof), partial_inner(after));
    if proof_root(proof) == partial_root(before) {
        lemma_path_tracked(after, leaf, proof_siblings(proof));
    }
}

/// A proof that shows a leaf which is stored at its own position, or is not stored, is one of that
/// position, leads where the path of the partial tree leads, and gives the tracked values.
pub proof fn lemma_shown_leaf(tree: PartialSmt, index: u64, proof: SmtProof, key: RawWord)
    requires
        shows_leaf(tree, index, proof),
        leaf_placed(partial_leaves(tree), index),
    ensures
        leaf_at_bottom(proof),
        proof_leaf(proof) == index,
        proof_root(proof) == partial_path_root(tree, index),
        key.3 == index ==> value_at(proof_pairs(proof), key) == value_at(partial_values(tree), key),
{
    lemma_stored_value(tree, key);
}

/// A proof that shows a leaf gives the keys of its position the values that the partial tree has
/// for them. If it gives none to a key, the key has no value in the partial tree.
pub proof fn lemma_shown_value(tree: PartialSmt, proof: SmtProof, key: RawWord)
    requires
        shows_leaf(tree, key.3, proof),
    ensures
        match proof_value(proof, key) {
            Some(value) => value == stored_value(partial_leaves(tree), key),
            None => stored_value(partial_leaves(tree), key) == empty_word(),
        },
{
    assert(value_at(proof_pairs(proof), key) == entries_value(proof_entries(proof), key));
}

/// A leaf of a partial tree: whether it is marked as one without pairs, and its pairs.
#[derive(Debug)]
pub struct LeafContents {
    pub is_empty: bool,
    pub entries: Vec<(Word, Word)>,
}

impl View for LeafContents {
    type V = RawLeaf;

    open spec fn view(&self) -> RawLeaf {
        (self.is_empty, pair_values(self.entries@))
    }
}

/// The list holds the given leaves with their positions, each once.
pub open spec fn lists_leaves(list: Seq<(u64, LeafContents)>, leaves: Map<u64, RawLeaf>) -> bool {
    &&& list.len() == leaves.dom().len()
    &&& forall|i: int, j: int| 0 <= i < j < list.len() ==> list[i].0 != list[j].0
    &&& forall|i: int|
        0 <= i < list.len() ==> leaves.contains_key((#[trigger] list[i]).0) && list[i].1@
            == leaves[list[i].0]
    &&& forall|p: u64| #[trigger]
        leaves.contains_key(p) ==> exists|i: int| 0 <= i < list.len() && (#[trigger] list[i]).0 == p
}

/// Lists the leaves that a partial tree stores with `PartialSmt::leaves`, each with its position,
/// with what `SmtLeaf::is_empty` says of it and with its pairs, in no particular order.
#[verifier::external_body]
pub(crate) fn partial_leaf_list(tree: &PartialSmt) -> (r: Vec<(u64, LeafContents)>)
    ensures
        lists_leaves(r@, partial_leaves(*tree)),
{
    tree.leaves()
        .map(|(index, leaf)| (
            index.position(),
            LeafContents {
                is_empty: leaf.is_empty(),
                entries: leaf.entries().iter().map(|(k, v)| (import_word(k), import_word(v))).collect(),
            },
        ))
        .collect()
}

/// Tells whether all leaves that a partial tree stores can be read. Every partial tree that was
/// built from proofs or from a tree, or that was read from bytes, has only such leaves.
pub fn has_readable_leaves(tree: &PartialSmt) -> (r: bool)
    ensures
        r == readable_leaves(partial_leaves(*tree)),
{
    let list = partial_leaf_list(tree);
    let mut i: usize = 0;
    while i < list.len()
        invariant
            i <= list.len(),
            lists_leaves(list@, partial_leaves(*tree)),
            forall|j: int|
                0 <= j < i ==> (#[trigger] list@[j]).1@.0 || list@[j].1@.1.len() > 0,
        decreases list.len() - i,
    {
        if !list[i].1.is_empty && list[i].1.entries.len() == 0 {
            assert(partial_leaves(*tree).contains_key(list@[i as int].0));
            assert(list@[i as int].1@.1.len() == 0);
            return false;
        }
        i += 1;
    }
    assert forall|p: u64| #[trigger] partial_leaves(*tree).contains_key(p) implies partial_leaves(
        *tree,
    )[p].0 || partial_leaves(*tree)[p].1.len() > 0 by {
        let j = choose|j: int| 0 <= j < list@.len() && (#[trigger] list@[j]).0 == p;
        assert(list@[j].1@ == partial_leaves(*tree)[p]);
    }
    true
}

} // verus!
