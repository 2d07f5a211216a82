//! Paths in sparse Merkle trees: where inner nodes sit, which digests a path passes through, and
//! what a set of stored inner nodes says of a leaf.
use vstd::arithmetic::power2::{lemma2_to64, lemma_pow2_unfold, pow2};
use vstd::prelude::*;

use crate::hash::poseidon2;
use crate::word::{empty_word, word_elements, RawWord};

verus! {

/// The depth at which all leaves of a tree sit.
pub const SMT_DEPTH: u8 = 64;

/// The place of an inner node: its height above the leaves, and its position from the left.
pub type NodePlace = (nat, u64);

/// The digests of the left and the right child of an inner node.
pub type RawChildren = (RawWord, RawWord);

// NODES
// ================================================================================================

/// No inner nodes at all.
pub open spec fn no_inner() -> Map<NodePlace, RawChildren> {
    Map::empty()
}

/// The position of the node that sits above the leaf at position `leaf` at the given height.
pub open spec fn position_at(leaf: u64, height: nat) -> u64
    decreases height,
{
    if height == 0 {
        leaf
    } else {
        position_at(leaf, (height - 1) as nat) / 2
    }
}

/// The place of the inner node above a leaf at the given height.
pub open spec fn place_at(leaf: u64, height: nat) -> NodePlace {
    (height, position_at(leaf, height))
}

/// The digest of an inner node: the hash of its two children.
pub open spec fn children_digest(children: RawChildren) -> RawWord {
    poseidon2(word_elements(children.0) + word_elements(children.1))
}

/// The two children of an inner node, of which one has the given position and digest. A child at an
/// even position is the left one.
pub open spec fn join(position: u64, digest: RawWord, sibling: RawWord) -> RawChildren {
    if position % 2 == 0 {
        (digest, sibling)
    } else {
        (sibling, digest)
    }
}

/// The child with the given position.
pub open spec fn child_at(children: RawChildren, position: u64) -> RawWord {
    if position % 2 == 0 {
        children.0
    } else {
        children.1
    }
}

/// The sibling of the child with the given position.
pub open spec fn sibling_of(children: RawChildren, position: u64) -> RawWord {
    if position % 2 == 0 {
        children.1
    } else {
        children.0
    }
}

/// The digest of a subtree of the given height all of whose leaves are empty.
pub open spec fn empty_digest(height: nat) -> RawWord
    decreases height,
{
    if height == 0 {
        empty_word()
    } else {
        children_digest(
            (empty_digest((height - 1) as nat), empty_digest((height - 1) as nat)),
        )
    }
}

/// The children of the inner node at the given height all of whose leaves are empty.
pub open spec fn empty_children(height: nat) -> RawChildren {
    (empty_digest((height - 1) as nat), empty_digest((height - 1) as nat))
}

/// The root digest of a tree without pairs.
pub open spec fn empty_root() -> RawWord {
    empty_digest(SMT_DEPTH as nat)
}

/// The children of the inner node at a place, where only nodes that are not those of an empty
/// subtree are stored.
pub open spec fn node_at(inner: Map<NodePlace, RawChildren>, place: NodePlace) -> RawChildren {
    if inner.contains_key(place) {
        inner[place]
    } else {
        empty_children(place.0)
    }
}

/// The digest of the topmost inner node.
pub open spec fn root_of(inner: Map<NodePlace, RawChildren>) -> RawWord {
    children_digest(node_at(inner, (SMT_DEPTH as nat, 0)))
}

// PATHS
// ================================================================================================

/// The digest at the given height of the path that starts at a leaf with the given digest and
/// passes the given siblings, of which the first is the sibling of the leaf.
pub open spec fn path_digest(
    leaf: u64,
    digest: RawWord,
    siblings: Seq<RawWord>,
    height: nat,
) -> RawWord
    decreases height,
{
    if height == 0 {
        digest
    } else {
        let below = (height - 1) as nat;
        children_digest(
            join(
                position_at(leaf, below),
                path_digest(leaf, digest, siblings, below),
                siblings[below as int],
            ),
        )
    }
}

/// The inner node at the given height of such a path.
pub open spec fn path_node(
    leaf: u64,
    digest: RawWord,
    siblings: Seq<RawWord>,
    height: nat,
) -> RawChildren {
    let below = (height - 1) as nat;
    join(
        position_at(leaf, below),
        path_digest(leaf, digest, siblings, below),
        siblings[below as int],
    )
}

/// The root digest that such a path leads to.
pub open spec fn path_root(leaf: u64, digest: RawWord, siblings: Seq<RawWord>) -> RawWord {
    path_digest(leaf, digest, siblings, SMT_DEPTH as nat)
}

/// The siblings that a set of inner nodes has for the path of a leaf.
pub open spec fn siblings_at(inner: Map<NodePlace, RawChildren>, leaf: u64) -> Seq<RawWord> {
    Seq::new(
        SMT_DEPTH as nat,
        |h: int|
            sibling_of(
                node_at(inner, place_at(leaf, (h + 1) as nat)),
                position_at(leaf, h as nat),
            ),
    )
}

/// The inner nodes on a path are those of a set of inner nodes.
pub open spec fn path_in(
    leaf: u64,
    digest: RawWord,
    siblings: Seq<RawWord>,
    inner: Map<NodePlace, RawChildren>,
) -> bool {
    forall|h: nat|
        0 < h <= SMT_DEPTH ==> #[trigger] path_node(leaf, digest, siblings, h) == node_at(
            inner,
            place_at(leaf, h),
        )
}

/// The inner nodes above a leaf have, on its side, the digests that its path passes through.
pub open spec fn path_fits(
    inner: Map<NodePlace, RawChildren>,
    leaf: u64,
    digest: RawWord,
) -> bool {
    path_in(leaf, digest, siblings_at(inner, leaf), inner)
}

/// A place is one of the inner nodes above a leaf.
pub open spec fn above(place: NodePlace, leaf: u64) -> bool {
    0 < place.0 <= SMT_DEPTH && place.1 == position_at(leaf, place.0)
}

/// The stored inner nodes after those of a path have been stored in place of the former ones. The
/// node of an empty subtree is not stored.
pub open spec fn store_path(
    inner: Map<NodePlace, RawChildren>,
    leaf: u64,
    digest: RawWord,
    siblings: Seq<RawWord>,
) -> Map<NodePlace, RawChildren> {
    Map::new(
        |place: NodePlace|
            if above(place, leaf) {
                path_node(leaf, digest, siblings, place.0) != empty_children(place.0)
            } else {
                inner.contains_key(place)
            },
        |place: NodePlace|
            if above(place, leaf) {
                path_node(leaf, digest, siblings, place.0)
            } else {
                inner[place]
            },
    )
}

/// All inner nodes above a leaf from the root down to the given height are stored, and the last of
/// them has the digest of an empty subtree on the side of the leaf.
pub open spec fn shown_empty(inner: Map<NodePlace, RawChildren>, leaf: u64, height: nat) -> bool {
    &&& 0 < height <= SMT_DEPTH
    &&& forall|h: nat| height <= h <= SMT_DEPTH ==> inner.contains_key(#[trigger] place_at(leaf, h))
    &&& child_at(inner[place_at(leaf, height)], position_at(leaf, (height - 1) as nat))
        == empty_digest((height - 1) as nat)
}

/// The stored inner nodes, or the root alone, show that a leaf is empty.
pub open spec fn is_shown_empty(
    root: RawWord,
    inner: Map<NodePlace, RawChildren>,
    leaf: u64,
) -> bool {
    root == empty_root() || exists|height: nat| #[trigger] shown_empty(inner, leaf, height)
}

// LEMMAS
// ================================================================================================

/// The topmost node above every leaf is the leftmost one.
pub proof fn lemma_root_place(leaf: u64)
    ensures
        place_at(leaf, SMT_DEPTH as nat) == (SMT_DEPTH as nat, 0u64),
{
    lemma_position_bound(leaf, 64);
    lemma2_to64();
}

/// The positions at a height are fewer than those one level below, by half.
proof fn lemma_position_bound(leaf: u64, height: nat)
    requires
        height <= 64,
    ensures
        position_at(leaf, height) < pow2((64 - height) as nat),
    decreases height,
{
    if height == 0 {
        lemma2_to64();
    } else {
        lemma_position_bound(leaf, (height - 1) as nat);
        lemma_pow2_unfold((64 - height + 1) as nat);
    }
}

/// A path whose nodes are those of a set of inner nodes leads to its root, and has its siblings.
pub proof fn lemma_path_in(
    leaf: u64,
    digest: RawWord,
    siblings: Seq<RawWord>,
    inner: Map<NodePlace, RawChildren>,
)
    requires
        path_in(leaf, digest, siblings, inner),
    ensures
        path_root(leaf, digest, siblings) == root_of(inner),
        path_fits(inner, leaf, digest),
        path_root(leaf, digest, siblings_at(inner, leaf)) == root_of(inner),
{
    lemma_root_place(leaf);
    let top = SMT_DEPTH as nat;
    assert(path_node(leaf, digest, siblings, top) == node_at(inner, place_at(leaf, top)));
    assert forall|h: nat| 0 < h <= SMT_DEPTH implies #[trigger] path_node(
        leaf,
        digest,
        siblings_at(inner, leaf),
        h,
    ) == node_at(inner, place_at(leaf, h)) by {
        lemma_same_path(leaf, digest, siblings, inner, (h - 1) as nat);
        assert(path_node(leaf, digest, siblings, h) == node_at(inner, place_at(leaf, h)));
    }
    assert(path_node(leaf, digest, siblings_at(inner, leaf), top) == node_at(
        inner,
        place_at(leaf, top),
    ));
}

/// A path whose nodes are those of a set of inner nodes passes through the same digests as the path
/// that has its siblings from them.
proof fn lemma_same_path(
    leaf: u64,
    digest: RawWord,
    siblings: Seq<RawWord>,
    inner: Map<NodePlace, RawChildren>,
    height: nat,
)
    requires
        path_in(leaf, digest, siblings, inner),
        height <= SMT_DEPTH,
    ensures
        path_digest(leaf, digest, siblings, height) == path_digest(
            leaf,
            digest,
            siblings_at(inner, leaf),
            height,
        ),
    decreases height,
{
    if height > 0 {
        let below = (height - 1) as nat;
        lemma_same_path(leaf, digest, siblings, inner, below);
        assert(path_node(leaf, digest, siblings, height) == node_at(inner, place_at(leaf, height)));
        assert(siblings_at(inner, leaf)[below as int] == siblings[below as int]);
    }
}

/// A path that has been stored is one whose nodes are those of the stored inner nodes.
pub proof fn lemma_stored_path(
    inner: Map<NodePlace, RawChildren>,
    leaf: u64,
    digest: RawWord,
    siblings: Seq<RawWord>,
)
    ensures
        path_in(leaf, digest, siblings, store_path(inner, leaf, digest, siblings)),
{
    let after = store_path(inner, leaf, digest, siblings);
    assert forall|h: nat| 0 < h <= SMT_DEPTH implies #[trigger] path_node(
        leaf,
        digest,
        siblings,
        h,
    ) == node_at(after, place_at(leaf, h)) by {
        assert(above(place_at(leaf, h), leaf));
    }
}

/// Storing a path whose nodes are those of a tree leaves every other path of that tree as it was.
pub proof fn lemma_store_keeps_path(
    inner: Map<NodePlace, RawChildren>,
    leaf: u64,
    digest: RawWord,
    siblings: Seq<RawWord>,
    full: Map<NodePlace, RawChildren>,
    other: u64,
)
    requires
        path_in(leaf, digest, siblings, full),
        agrees_above(inner, full, other),
    ensures
        agrees_above(store_path(inner, leaf, digest, siblings), full, other),
{
    let after = store_path(inner, leaf, digest, siblings);
    assert forall|h: nat| 0 < h <= SMT_DEPTH implies node_at(
        after,
        #[trigger] place_at(other, h),
    ) == node_at(full, place_at(other, h)) by {
        let place = place_at(other, h);
        assert(node_at(inner, place) == node_at(full, place));
        if above(place, leaf) {
            assert(path_node(leaf, digest, siblings, h) == node_at(full, place_at(leaf, h)));
        }
    }
}

/// Above a leaf, a set of inner nodes has the same nodes as another one.
pub open spec fn agrees_above(
    inner: Map<NodePlace, RawChildren>,
    full: Map<NodePlace, RawChildren>,
    leaf: u64,
) -> bool {
    forall|h: nat|
        0 < h <= SMT_DEPTH ==> node_at(inner, #[trigger] place_at(leaf, h)) == node_at(
            full,
            place_at(leaf, h),
        )
}

/// A path that runs in a tree also runs in every set of inner nodes that agrees with the tree above
/// its leaf.
pub proof fn lemma_path_in_part(
    leaf: u64,
    digest: RawWord,
    siblings: Seq<RawWord>,
    inner: Map<NodePlace, RawChildren>,
    full: Map<NodePlace, RawChildren>,
)
    requires
        path_in(leaf, digest, siblings, full),
        agrees_above(inner, full, leaf),
    ensures
        path_in(leaf, digest, siblings, inner),
{
    assert forall|h: nat| 0 < h <= SMT_DEPTH implies #[trigger] path_node(
        leaf,
        digest,
        siblings,
        h,
    ) == node_at(inner, place_at(leaf, h)) by {
        assert(path_node(leaf, digest, siblings, h) == node_at(full, place_at(leaf, h)));
    }
}

/// The stored inner nodes of a path that starts at an empty leaf show that the leaf is empty.
pub proof fn lemma_empty_leaf_shown(
    root: RawWord,
    inner: Map<NodePlace, RawChildren>,
    leaf: u64,
    siblings: Seq<RawWord>,
)
    requires
        path_in(leaf, empty_word(), siblings, inner),
        root == path_root(leaf, empty_word(), siblings),
    ensures
        is_shown_empty(root, inner, leaf),
{
    lemma_shown_from(root, inner, leaf, siblings, SMT_DEPTH as nat);
}

/// If all inner nodes of a path above the given height are stored, then the stored nodes show that
/// the leaf is empty.
proof fn lemma_shown_from(
    root: RawWord,
    inner: Map<NodePlace, RawChildren>,
    leaf: u64,
    siblings: Seq<RawWord>,
    height: nat,
)
    requires
        height <= SMT_DEPTH,
        path_in(leaf, empty_word(), siblings, inner),
        root == path_root(leaf, empty_word(), siblings),
        forall|h: nat|
            height < h <= SMT_DEPTH ==> inner.contains_key(#[trigger] place_at(leaf, h)),
    ensures
        is_shown_empty(root, inner, leaf),
    decreases height,
{
    if path_digest(leaf, empty_word(), siblings, height) == empty_digest(height) {
        if height < SMT_DEPTH {
            let h = height + 1;
            assert(path_node(leaf, empty_word(), siblings, h) == node_at(inner, place_at(leaf, h)));
            assert(inner.contains_key(place_at(leaf, h)));
            assert(shown_empty(inner, leaf, h));
        }
    } else {
        let below = (height - 1) as nat;
        let place = place_at(leaf, height);
        assert(path_node(leaf, empty_word(), siblings, height) == node_at(inner, place));
        if !inner.contains_key(place) {
            assert(path_digest(leaf, empty_word(), siblings, height) == children_digest(
                empty_children(height),
            ));
        }
        assert forall|h: nat| below < h <= SMT_DEPTH implies inner.contains_key(
            #[trigger] place_at(leaf, h),
        ) by {}
        lemma_shown_from(root, inner, leaf, siblings, below);
    }
}

// NODES THAT FIT TOGETHER
// ================================================================================================

/// If the inner node above a leaf at the given height is stored, its digest is the one that the
/// node above it has for it, or the root if there is none above it.
pub open spec fn fits_above(
    root: RawWord,
    inner: Map<NodePlace, RawChildren>,
    leaf: u64,
    height: nat,
) -> bool {
    inner.contains_key(place_at(leaf, height)) ==> children_digest(inner[place_at(leaf, height)])
        == (if height == SMT_DEPTH {
        root
    } else {
        child_at(node_at(inner, place_at(leaf, height + 1)), position_at(leaf, height))
    })
}

/// All stored inner nodes fit together, and none of them is that of an empty subtree.
pub open spec fn nodes_fit(root: RawWord, inner: Map<NodePlace, RawChildren>) -> bool {
    &&& forall|leaf: u64, h: nat|
        0 < h <= SMT_DEPTH ==> #[trigger] fits_above(root, inner, leaf, h)
    &&& forall|leaf: u64, h: nat|
        0 < h <= SMT_DEPTH && inner.contains_key(#[trigger] place_at(leaf, h)) ==> inner[place_at(
            leaf,
            h,
        )] != empty_children(h)
}

/// No two of the inner nodes have the same digest.
pub open spec fn digests_apart(nodes: Set<RawChildren>) -> bool {
    forall|a: RawChildren, b: RawChildren| #[trigger]
        nodes.contains(a) && #[trigger] nodes.contains(b) && children_digest(a)
            == children_digest(b) ==> a == b
}

/// The given inner nodes include all stored ones and those of empty subtrees.
pub open spec fn includes_nodes(nodes: Set<RawChildren>, inner: Map<NodePlace, RawChildren>) -> bool {
    &&& forall|leaf: u64, h: nat|
        0 < h <= SMT_DEPTH ==> nodes.contains(node_at(inner, #[trigger] place_at(leaf, h)))
    &&& forall|h: nat| 0 < h <= SMT_DEPTH ==> nodes.contains(#[trigger] empty_children(h))
}

/// The given inner nodes include all those on a path.
pub open spec fn includes_path(
    nodes: Set<RawChildren>,
    leaf: u64,
    digest: RawWord,
    siblings: Seq<RawWord>,
) -> bool {
    forall|h: nat|
        0 < h <= SMT_DEPTH ==> nodes.contains(#[trigger] path_node(leaf, digest, siblings, h))
}

/// The digest of a leaf is the one that the inner node above it has for it.
pub open spec fn leaf_fits(
    inner: Map<NodePlace, RawChildren>,
    leaf: u64,
    digest: RawWord,
) -> bool {
    child_at(node_at(inner, place_at(leaf, 1)), leaf) == digest
}

/// The inner nodes from the root down to a stored one are stored as well.
proof fn lemma_stored_above(
    root: RawWord,
    inner: Map<NodePlace, RawChildren>,
    nodes: Set<RawChildren>,
    leaf: u64,
    low: nat,
    high: nat,
)
    requires
        nodes_fit(root, inner),
        includes_nodes(nodes, inner),
        digests_apart(nodes),
        0 < low <= high <= SMT_DEPTH,
        inner.contains_key(place_at(leaf, low)),
    ensures
        inner.contains_key(place_at(leaf, high)),
    decreases high,
{
    if low < high {
        let below = (high - 1) as nat;
        lemma_stored_above(root, inner, nodes, leaf, low, below);
        let place = place_at(leaf, below);
        assert(fits_above(root, inner, leaf, below));
        assert(inner[place] != empty_children(below));
        assert(nodes.contains(node_at(inner, place)));
        assert(nodes.contains(empty_children(below)));
        if !inner.contains_key(place_at(leaf, high)) {
            assert(node_at(inner, place_at(leaf, high)) == empty_children(high));
            assert(children_digest(inner[place]) == empty_digest(below));
            assert(children_digest(empty_children(below)) == empty_digest(below));
        }
    }
}

/// If the leaf and all inner nodes above it fit together, then the path that has its siblings from
/// these nodes runs through them and leads to the root.
proof fn lemma_fitting_path(
    inner: Map<NodePlace, RawChildren>,
    leaf: u64,
    digest: RawWord,
)
    requires
        leaf_fits(inner, leaf, digest),
        forall|h: nat|
            0 < h < SMT_DEPTH ==> child_at(
                node_at(inner, place_at(leaf, h + 1)),
                #[trigger] position_at(leaf, h),
            ) == children_digest(node_at(inner, place_at(leaf, h))),
    ensures
        path_fits(inner, leaf, digest),
{
    let siblings = siblings_at(inner, leaf);
    assert forall|h: nat| 0 < h <= SMT_DEPTH implies #[trigger] path_node(
        leaf,
        digest,
        siblings,
        h,
    ) == node_at(inner, place_at(leaf, h)) by {
        lemma_fitting_digest(inner, leaf, digest, (h - 1) as nat);
        assert(siblings[h - 1] == sibling_of(
            node_at(inner, place_at(leaf, h)),
            position_at(leaf, (h - 1) as nat),
        ));
    }
}

/// The digest of such a path at a height is the one that the next node has for it.
proof fn lemma_fitting_digest(
    inner: Map<NodePlace, RawChildren>,
    leaf: u64,
    digest: RawWord,
    height: nat,
)
    requires
        leaf_fits(inner, leaf, digest),
        forall|h: nat|
            0 < h < SMT_DEPTH ==> child_at(
                node_at(inner, place_at(leaf, h + 1)),
                #[trigger] position_at(leaf, h),
            ) == children_digest(node_at(inner, place_at(leaf, h))),
        height < SMT_DEPTH,
    ensures
        path_digest(leaf, digest, siblings_at(inner, leaf), height) == child_at(
            node_at(inner, place_at(leaf, height + 1)),
            position_at(leaf, height),
        ),
    decreases height,
{
    if height > 0 {
        let below = (height - 1) as nat;
        lemma_fitting_digest(inner, leaf, digest, below);
        assert(siblings_at(inner, leaf)[below as int] == sibling_of(
            node_at(inner, place_at(leaf, height)),
            position_at(leaf, below),
        ));
        assert(position_at(leaf, height) == position_at(leaf, height));
    } else {
        assert(place_at(leaf, 1) == place_at(leaf, height + 1));
    }
}

/// The path of a stored leaf runs through the stored inner nodes and leads to the root.
pub proof fn lemma_stored_leaf_path(
    root: RawWord,
    inner: Map<NodePlace, RawChildren>,
    nodes: Set<RawChildren>,
    leaf: u64,
    digest: RawWord,
)
    requires
        nodes_fit(root, inner),
        includes_nodes(nodes, inner),
        digests_apart(nodes),
        leaf_fits(inner, leaf, digest),
        digest != empty_word(),
    ensures
        path_fits(inner, leaf, digest),
        path_root(leaf, digest, siblings_at(inner, leaf)) == root,
        forall|h: nat|
            0 < h <= SMT_DEPTH ==> inner.contains_key(#[trigger] place_at(leaf, h)),
{
    assert(inner.contains_key(place_at(leaf, 1))) by {
        if !inner.contains_key(place_at(leaf, 1)) {
            assert(node_at(inner, place_at(leaf, 1)) == empty_children(1));
            assert(empty_digest(0) == empty_word());
        }
    }
    assert forall|h: nat| 0 < h <= SMT_DEPTH implies inner.contains_key(
        #[trigger] place_at(leaf, h),
    ) by {
        lemma_stored_above(root, inner, nodes, leaf, 1, h);
    }
    assert forall|h: nat| 0 < h < SMT_DEPTH implies child_at(
        node_at(inner, place_at(leaf, h + 1)),
        #[trigger] position_at(leaf, h),
    ) == children_digest(node_at(inner, place_at(leaf, h))) by {
        assert(fits_above(root, inner, leaf, h));
        assert(inner.contains_key(place_at(leaf, h)));
    }
    lemma_fitting_path(inner, leaf, digest);
    lemma_top(root, inner, leaf);
    lemma_path_in(leaf, digest, siblings_at(inner, leaf), inner);
}

/// If the topmost inner node is stored, the root is its digest.
proof fn lemma_top(root: RawWord, inner: Map<NodePlace, RawChildren>, leaf: u64)
    requires
        nodes_fit(root, inner),
        inner.contains_key(place_at(leaf, SMT_DEPTH as nat)),
    ensures
        root_of(inner) == root,
{
    lemma_root_place(leaf);
    assert(fits_above(root, inner, leaf, SMT_DEPTH as nat));
}

/// Below an inner node that has the digest of an empty subtree on the side of a leaf, no inner node
/// above the leaf is stored.
proof fn lemma_empty_below(
    root: RawWord,
    inner: Map<NodePlace, RawChildren>,
    nodes: Set<RawChildren>,
    leaf: u64,
    top: nat,
    height: nat,
)
    requires
        nodes_fit(root, inner),
        includes_nodes(nodes, inner),
        digests_apart(nodes),
        0 < height < top <= SMT_DEPTH,
        child_at(node_at(inner, place_at(leaf, top)), position_at(leaf, (top - 1) as nat))
            == empty_digest((top - 1) as nat),
    ensures
        !inner.contains_key(place_at(leaf, height)),
    decreases top - height,
{
    let above = height + 1;
    if above < top {
        lemma_empty_below(root, inner, nodes, leaf, top, above);
        assert(node_at(inner, place_at(leaf, above)) == empty_children(above));
    }
    assert(child_at(node_at(inner, place_at(leaf, above)), position_at(leaf, height))
        == empty_digest(height));
    let place = place_at(leaf, height);
    if inner.contains_key(place) {
        assert(fits_above(root, inner, leaf, height));
        assert(nodes.contains(node_at(inner, place)));
        assert(nodes.contains(empty_children(height)));
        assert(children_digest(empty_children(height)) == empty_digest(height));
        assert(inner[place] != empty_children(height));
    }
}

/// The path of a leaf that the stored inner nodes show to be empty runs through these nodes and
/// leads to the root.
pub proof fn lemma_shown_empty_path(
    root: RawWord,
    inner: Map<NodePlace, RawChildren>,
    nodes: Set<RawChildren>,
    leaf: u64,
)
    requires
        nodes_fit(root, inner),
        includes_nodes(nodes, inner),
        digests_apart(nodes),
        is_shown_empty(root, inner, leaf),
    ensures
        path_fits(inner, leaf, empty_word()),
        path_root(leaf, empty_word(), siblings_at(inner, leaf)) == root,
{
    let depth = SMT_DEPTH as nat;
    if exists|height: nat| #[trigger] shown_empty(inner, leaf, height) {
        let top = choose|height: nat| #[trigger] shown_empty(inner, leaf, height);
        assert(inner.contains_key(place_at(leaf, top)));
        lemma_chain_below(root, inner, nodes, leaf, top);
        assert forall|h: nat| 0 < h < SMT_DEPTH implies child_at(
            node_at(inner, place_at(leaf, h + 1)),
            #[trigger] position_at(leaf, h),
        ) == children_digest(node_at(inner, place_at(leaf, h))) by {
            if h >= top {
                assert(inner.contains_key(place_at(leaf, h)));
                assert(fits_above(root, inner, leaf, h));
            } else {
                assert(chained(inner, leaf, h));
            }
        }
        assert(inner.contains_key(place_at(leaf, depth)));
        lemma_top(root, inner, leaf);
    } else {
        lemma_root_place(leaf);
        let place = place_at(leaf, depth);
        assert(!inner.contains_key(place)) by {
            if inner.contains_key(place) {
                assert(fits_above(root, inner, leaf, depth));
                assert(nodes.contains(node_at(inner, place)));
                assert(nodes.contains(empty_children(depth)));
                assert(children_digest(empty_children(depth)) == empty_digest(depth));
                assert(inner[place] != empty_children(depth));
            }
        }
        assert(node_at(inner, place) == empty_children(depth));
        assert(children_digest(empty_children(depth)) == empty_digest(depth));
        assert(child_at(node_at(inner, place), position_at(leaf, (depth - 1) as nat))
            == empty_digest((depth - 1) as nat));
        lemma_chain_below(root, inner, nodes, leaf, depth);
        assert forall|h: nat| 0 < h < SMT_DEPTH implies child_at(
            node_at(inner, place_at(leaf, h + 1)),
            #[trigger] position_at(leaf, h),
        ) == children_digest(node_at(inner, place_at(leaf, h))) by {
            assert(chained(inner, leaf, h));
        }
    }
    lemma_fitting_path(inner, leaf, empty_word());
    lemma_path_in(leaf, empty_word(), siblings_at(inner, leaf), inner);
}

/// The inner node above a leaf at the given height has the digest that the next one has for it.
spec fn chained(inner: Map<NodePlace, RawChildren>, leaf: u64, height: nat) -> bool {
    child_at(node_at(inner, place_at(leaf, height + 1)), position_at(leaf, height))
        == children_digest(node_at(inner, place_at(leaf, height)))
}

/// Below an inner node that has the digest of an empty subtree on the side of a leaf, all inner
/// nodes and the leaf fit together.
proof fn lemma_chain_below(
    root: RawWord,
    inner: Map<NodePlace, RawChildren>,
    nodes: Set<RawChildren>,
    leaf: u64,
    top: nat,
)
    requires
        nodes_fit(root, inner),
        includes_nodes(nodes, inner),
        digests_apart(nodes),
        0 < top <= SMT_DEPTH,
        child_at(node_at(inner, place_at(leaf, top)), position_at(leaf, (top - 1) as nat))
            == empty_digest((top - 1) as nat),
    ensures
        leaf_fits(inner, leaf, empty_word()),
        forall|h: nat| 0 < h < top ==> #[trigger] chained(inner, leaf, h),
{
    assert(empty_digest(0) == empty_word());
    assert(position_at(leaf, 0) == leaf);
    if top > 1 {
        lemma_empty_below(root, inner, nodes, leaf, top, 1);
        assert(node_at(inner, place_at(leaf, 1)) == empty_children(1));
    }
    assert forall|h: nat| 0 < h < top implies #[trigger] chained(inner, leaf, h) by {
        lemma_empty_below(root, inner, nodes, leaf, top, h);
        assert(node_at(inner, place_at(leaf, h)) == empty_children(h));
        assert(children_digest(empty_children(h)) == empty_digest(h));
        if h + 1 < top {
            lemma_empty_below(root, inner, nodes, leaf, top, h + 1);
            assert(node_at(inner, place_at(leaf, h + 1)) == empty_children(h + 1));
        }
    }
}

/// Two paths that lead to the same root have the same inner nodes wherever they meet, if no two
/// inner nodes share a digest.
pub proof fn lemma_paths_meet(
    nodes: Set<RawChildren>,
    a: u64,
    a_digest: RawWord,
    a_siblings: Seq<RawWord>,
    b: u64,
    b_digest: RawWord,
    b_siblings: Seq<RawWord>,
    height: nat,
)
    requires
        digests_apart(nodes),
        includes_path(nodes, a, a_digest, a_siblings),
        includes_path(nodes, b, b_digest, b_siblings),
        path_root(a, a_digest, a_siblings) == path_root(b, b_digest, b_siblings),
        height <= SMT_DEPTH,
        position_at(a, height) == position_at(b, height),
    ensures
        path_digest(a, a_digest, a_siblings, height) == path_digest(
            b,
            b_digest,
            b_siblings,
            height,
        ),
        height > 0 ==> path_node(a, a_digest, a_siblings, height) == path_node(
            b,
            b_digest,
            b_siblings,
            height,
        ),
    decreases SMT_DEPTH - height,
{
    if height < SMT_DEPTH {
        let above = height + 1;
        lemma_paths_meet(
            nodes,
            a,
            a_digest,
            a_siblings,
            b,
            b_digest,
            b_siblings,
            above,
        );
        assert(child_at(
            path_node(a, a_digest, a_siblings, above),
            position_at(a, height),
        ) == path_digest(a, a_digest, a_siblings, height));
        assert(child_at(
            path_node(b, b_digest, b_siblings, above),
            position_at(b, height),
        ) == path_digest(b, b_digest, b_siblings, height));
    }
    if height > 0 {
        assert(nodes.contains(path_node(a, a_digest, a_siblings, height)));
        assert(nodes.contains(path_node(b, b_digest, b_siblings, height)));
    }
}

/// Storing a path that leads to the root leaves the inner nodes above every other leaf as they are,
/// if the path of that leaf leads to the root and no two inner nodes share a digest.
pub proof fn lemma_store_agrees(
    inner: Map<NodePlace, RawChildren>,
    nodes: Set<RawChildren>,
    leaf: u64,
    digest: RawWord,
    siblings: Seq<RawWord>,
    other: u64,
    other_digest: RawWord,
)
    requires
        includes_nodes(nodes, inner),
        includes_path(nodes, leaf, digest, siblings),
        digests_apart(nodes),
        path_fits(inner, other, other_digest),
        path_root(other, other_digest, siblings_at(inner, other)) == path_root(
            leaf,
            digest,
            siblings,
        ),
    ensures
        agrees_above(store_path(inner, leaf, digest, siblings), inner, other),
        path_in(
            other,
            other_digest,
            siblings_at(inner, other),
            store_path(inner, leaf, digest, siblings),
        ),
        other == leaf ==> other_digest == digest,
{
    let after = store_path(inner, leaf, digest, siblings);
    let own = siblings_at(inner, other);
    assert forall|h: nat| 0 < h <= SMT_DEPTH implies nodes.contains(
        #[trigger] path_node(other, other_digest, own, h),
    ) by {
        assert(nodes.contains(node_at(inner, place_at(other, h))));
    }
    assert forall|h: nat| 0 < h <= SMT_DEPTH implies node_at(
        after,
        #[trigger] place_at(other, h),
    ) == node_at(inner, place_at(other, h)) by {
        let place = place_at(other, h);
        assert(path_node(other, other_digest, own, h) == node_at(inner, place));
        if above(place, leaf) {
            lemma_paths_meet(nodes, other, other_digest, own, leaf, digest, siblings, h);
        }
    }
    lemma_path_in_part(other, other_digest, own, after, inner);
    if other == leaf {
        lemma_paths_meet(nodes, other, other_digest, own, leaf, digest, siblings, 0);
    }
}

/// Storing a path that leads to the root keeps all inner nodes fitting together, if no two inner
/// nodes share a digest.
pub proof fn lemma_store_keeps_fit(
    root: RawWord,
    inner: Map<NodePlace, RawChildren>,
    nodes: Set<RawChildren>,
    leaf: u64,
    digest: RawWord,
    siblings: Seq<RawWord>,
)
    requires
        nodes_fit(root, inner),
        includes_nodes(nodes, inner),
        includes_path(nodes, leaf, digest, siblings),
        digests_apart(nodes),
        path_root(leaf, digest, siblings) == root,
    ensures
        nodes_fit(root, store_path(inner, leaf, digest, siblings)),
        leaf_fits(store_path(inner, leaf, digest, siblings), leaf, digest),
        includes_nodes(nodes, store_path(inner, leaf, digest, siblings)),
{
    let after = store_path(inner, leaf, digest, siblings);
    lemma_stored_path(inner, leaf, digest, siblings);
    assert forall|i: u64, h: nat| 0 < h <= SMT_DEPTH implies #[trigger] fits_above(
        root,
        after,
        i,
        h,
    ) by {
        let place = place_at(i, h);
        if after.contains_key(place) {
            if above(place, leaf) {
                assert(place == place_at(leaf, h));
                assert(after[place] == path_node(leaf, digest, siblings, h));
                if h < SMT_DEPTH {
                    let next = h + 1;
                    assert(place_at(i, next) == place_at(leaf, next));
                    assert(path_node(leaf, digest, siblings, next) == node_at(
                        after,
                        place_at(leaf, next),
                    ));
                }
            } else {
                lemma_root_place(i);
                lemma_root_place(leaf);
                assert(inner.contains_key(place) && inner[place] == after[place]);
                assert(fits_above(root, inner, i, h));
                let next = h + 1;
                if above(place_at(i, next), leaf) {
                    lemma_meeting_node(root, inner, nodes, leaf, digest, siblings, i, h, next);
                    assert(path_node(leaf, digest, siblings, next) == node_at(
                        after,
                        place_at(leaf, next),
                    ));
                } else {
                    assert(node_at(after, place_at(i, next)) == node_at(inner, place_at(i, next)));
                }
            }
        }
    }
    assert forall|i: u64, h: nat|
        0 < h <= SMT_DEPTH && after.contains_key(
            #[trigger] place_at(i, h),
        ) implies after[place_at(i, h)] != empty_children(h) by {
        if !above(place_at(i, h), leaf) {
            assert(inner.contains_key(place_at(i, h)));
        }
    }
    assert(path_node(leaf, digest, siblings, 1) == node_at(after, place_at(leaf, 1)));
    assert(position_at(leaf, 0) == leaf);
    assert forall|i: u64, h: nat| 0 < h <= SMT_DEPTH implies nodes.contains(
        node_at(after, #[trigger] place_at(i, h)),
    ) by {
        let place = place_at(i, h);
        assert(nodes.contains(node_at(inner, place)));
        if above(place, leaf) {
            assert(path_node(leaf, digest, siblings, h) == node_at(after, place_at(leaf, h)));
            assert(nodes.contains(path_node(leaf, digest, siblings, h)));
        }
    }
}

/// Above a stored inner node, a path that leads to the root has the stored inner nodes wherever it
/// meets them.
proof fn lemma_meeting_node(
    root: RawWord,
    inner: Map<NodePlace, RawChildren>,
    nodes: Set<RawChildren>,
    leaf: u64,
    digest: RawWord,
    siblings: Seq<RawWord>,
    other: u64,
    low: nat,
    height: nat,
)
    requires
        nodes_fit(root, inner),
        includes_nodes(nodes, inner),
        includes_path(nodes, leaf, digest, siblings),
        digests_apart(nodes),
        path_root(leaf, digest, siblings) == root,
        0 < low < height <= SMT_DEPTH,
        inner.contains_key(place_at(other, low)),
        position_at(other, height) == position_at(leaf, height),
    ensures
        node_at(inner, place_at(other, height)) == path_node(leaf, digest, siblings, height),
    decreases SMT_DEPTH - height,
{
    let place = place_at(other, height);
    lemma_stored_above(root, inner, nodes, other, low, height);
    assert(fits_above(root, inner, other, height));
    assert(nodes.contains(node_at(inner, place)));
    assert(nodes.contains(path_node(leaf, digest, siblings, height)));
    if height < SMT_DEPTH {
        let next = height + 1;
        lemma_meeting_node(root, inner, nodes, leaf, digest, siblings, other, low, next);
        assert(child_at(path_node(leaf, digest, siblings, next), position_at(leaf, height))
            == path_digest(leaf, digest, siblings, height));
    }
}

} // verus!
