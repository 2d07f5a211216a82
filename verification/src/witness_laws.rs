//! What holds of witnesses and of what partial vaults track as a whole.
use vstd::prelude::*;

use miden_crypto::merkle::smt::{PartialSmt, SmtProof};

use crate::asset::{asset_fault, AssetFault};
use crate::key_laws::{law_word_order, word_number};
use crate::key_map::{insert_all, is_listing, lemma_listing_exists, listing};
use crate::merkle::{
    no_leaves, no_pairs, partial_inner, partial_leaves, partial_root, partial_values, proof_root,
    proof_value, MerkleFault,
};
use crate::partial_vault::{
    adds_witness, holds_witnesses, rooted_at, track_fault, tracked_value, witness_entries_all,
    PartialVaultState, TrackFault,
};
use crate::paths::{empty_root, no_inner, NodePlace};
use crate::vault_key::smt_key;
use crate::witness::{
    opened_entries, with_value, witness_entries, witness_fault, AssetWitness, WitnessState,
};
use crate::word::{word_less, RawWord};

verus! {

// ASSETS OF A WITNESS
// ================================================================================================

/// The pairs of an ordered list that have a value are those that are not empty, in the same order.
pub proof fn lemma_with_value(list: Seq<(RawWord, RawWord)>)
    requires
        forall|i: int, j: int| 0 <= i < j < list.len() ==> word_less(list[i].0, list[j].0),
    ensures
        forall|i: int, j: int|
            0 <= i < j < with_value(list).len() ==> word_less(
                with_value(list)[i].0,
                with_value(list)[j].0,
            ),
        forall|pair: (RawWord, RawWord)| #[trigger]
            with_value(list).contains(pair) <==> list.contains(pair) && pair.1 != (
                0u64,
                0u64,
                0u64,
                0u64,
            ),
    decreases list.len(),
{
    reveal(Seq::filter);
    if list.len() > 0 {
        let n = list.len() - 1;
        let rest = list.drop_last();
        lemma_with_value(rest);
        let before = with_value(rest);
        let after = with_value(list);
        let last = list[n];
        assert forall|i: int| 0 <= i < before.len() implies word_less(
            (#[trigger] before[i]).0,
            last.0,
        ) by {
            assert(before.contains(before[i]));
            let j = choose|j: int| 0 <= j < rest.len() && rest[j] == before[i];
            assert(word_less(list[j].0, list[n].0));
        }
        assert forall|pair: (RawWord, RawWord)| #[trigger] after.contains(pair)
            <==> list.contains(pair) && pair.1 != (0u64, 0u64, 0u64, 0u64) by {
            assert(before.contains(pair) <==> rest.contains(pair) && pair.1 != (
                0u64,
                0u64,
                0u64,
                0u64,
            ));
            if rest.contains(pair) {
                let j = choose|j: int| 0 <= j < rest.len() && rest[j] == pair;
                assert(list[j] == pair);
            }
            if list.contains(pair) {
                let j = choose|j: int| 0 <= j < list.len() && list[j] == pair;
                if j < n {
                    assert(rest[j] == pair);
                }
            }
            if last.1 != (0u64, 0u64, 0u64, 0u64) {
                assert(after == before.push(last));
                if after.contains(pair) {
                    let j = choose|j: int| 0 <= j < after.len() && after[j] == pair;
                    if j < before.len() {
                        assert(before[j] == pair);
                    }
                }
                if before.contains(pair) {
                    let j = choose|j: int| 0 <= j < before.len() && before[j] == pair;
                    assert(after[j] == pair);
                }
                assert(after[before.len() as int] == last);
            }
        }
    }
}

/// The assets of a witness are its entries that are not empty, each once and by increasing vault
/// key. So they are what `AssetWitness::find` returns.
pub proof fn law_assets_of_witness(entries: Map<RawWord, RawWord>)
    requires
        entries.dom().finite(),
    ensures
        ({
            let assets = with_value(listing(entries));
            &&& forall|k: RawWord, v: RawWord| #[trigger]
                assets.contains((k, v)) <==> {
                    &&& entries.contains_key(k)
                    &&& entries[k] == v
                    &&& v != (0u64, 0u64, 0u64, 0u64)
                }
            &&& forall|i: int, j: int|
                0 <= i < j < assets.len() ==> word_number(assets[i].0) < word_number(assets[j].0)
        }),
{
    lemma_listing_exists(entries);
    lemma_listed_assets(listing(entries), entries);
    let assets = with_value(listing(entries));
    assert forall|i: int, j: int| 0 <= i < j < assets.len() implies word_number(assets[i].0)
        < word_number(assets[j].0) by {
        assert(word_less(assets[i].0, assets[j].0));
        law_word_order(assets[i].0, assets[j].0);
    }
}

/// The pairs with a value of the listing of a map are the pairs of the map that are not empty.
pub proof fn lemma_listed_assets(list: Seq<(RawWord, RawWord)>, entries: Map<RawWord, RawWord>)
    requires
        is_listing(list, entries),
    ensures
        forall|k: RawWord, v: RawWord| #[trigger]
            with_value(list).contains((k, v)) <==> {
                &&& entries.contains_key(k)
                &&& entries[k] == v
                &&& v != (0u64, 0u64, 0u64, 0u64)
            },
        forall|i: int, j: int|
            0 <= i < j < with_value(list).len() ==> word_less(
                with_value(list)[i].0,
                with_value(list)[j].0,
            ),
{
    lemma_with_value(list);
    assert forall|k: RawWord, v: RawWord| #[trigger] with_value(list).contains((k, v)) <==> {
        &&& entries.contains_key(k)
        &&& entries[k] == v
        &&& v != (0u64, 0u64, 0u64, 0u64)
    } by {
        if list.contains((k, v)) {
            let i = choose|i: int| 0 <= i < list.len() && list[i] == (k, v);
            assert(entries.contains_key(list[i].0));
        }
        if entries.contains_key(k) && entries[k] == v {
            let i = choose|i: int| 0 <= i < list.len() && (#[trigger] list[i]).0 == k;
            assert(list[i] == (k, v));
        }
    }
}

/// The listing of a map has all its pairs, each once and by increasing vault key.
pub proof fn law_listing<T>(map: Map<RawWord, T>)
    requires
        map.dom().finite(),
    ensures
        forall|k: RawWord, v: T| #[trigger]
            listing(map).contains((k, v)) <==> map.contains_key(k) && map[k] == v,
        forall|i: int, j: int|
            0 <= i < j < listing(map).len() ==> word_number(listing(map)[i].0) < word_number(
                listing(map)[j].0,
            ),
{
    lemma_listing_exists(map);
    let list = listing(map);
    assert forall|k: RawWord, v: T| #[trigger] list.contains((k, v)) <==> map.contains_key(k)
        && map[k] == v by {
        if list.contains((k, v)) {
            let i = choose|i: int| 0 <= i < list.len() && list[i] == (k, v);
            assert(map.contains_key(list[i].0));
        }
        if map.contains_key(k) && map[k] == v {
            let i = choose|i: int| 0 <= i < list.len() && (#[trigger] list[i]).0 == k;
            assert(list[i] == (k, v));
        }
    }
    assert forall|i: int, j: int| 0 <= i < j < list.len() implies word_number(list[i].0)
        < word_number(list[j].0) by {
        assert(word_less(list[i].0, list[j].0));
        law_word_order(list[i].0, list[j].0);
    }
}

// CHECKED WITNESSES
// ================================================================================================

/// A proof covers a vault key: it gives a value to the hash of the key, which is empty or forms an
/// asset with the key.
pub open spec fn is_covered(proof: SmtProof, key: RawWord) -> bool {
    proof_value(proof, smt_key(key)) matches Some(value) && (value == (0u64, 0u64, 0u64, 0u64)
        || asset_fault(key, value) is None)
}

/// A witness is created from a proof and vault keys if and only if the proof covers all keys. Its
/// entries are then the given keys, each with the value that the proof gives to its hash.
pub proof fn law_checked_witness(proof: SmtProof, keys: Seq<RawWord>)
    ensures
        witness_entries(proof, keys) is Ok <==> forall|i: int|
            0 <= i < keys.len() ==> is_covered(proof, #[trigger] keys[i]),
        witness_entries(proof, keys) matches Ok(entries) ==> forall|k: RawWord|
            {
                &&& #[trigger] entries.contains_key(k) <==> keys.contains(k)
                &&& entries.contains_key(k) ==> proof_value(proof, smt_key(k)) == Some(entries[k])
            },
    decreases keys.len(),
{
    if keys.len() > 0 {
        let n = keys.len() - 1;
        let rest = keys.drop_last();
        law_checked_witness(proof, rest);
        assert(is_covered(proof, keys[n]) <==> witness_fault(proof, keys[n]) is None);
        if witness_entries(proof, keys) is Ok {
            assert forall|i: int| 0 <= i < keys.len() implies is_covered(
                proof,
                #[trigger] keys[i],
            ) by {
                if i < n {
                    assert(rest[i] == keys[i]);
                }
            }
            let before = witness_entries(proof, rest)->Ok_0;
            let entries = witness_entries(proof, keys)->Ok_0;
            assert forall|k: RawWord|
                {
                    &&& #[trigger] entries.contains_key(k) <==> keys.contains(k)
                    &&& entries.contains_key(k) ==> proof_value(proof, smt_key(k)) == Some(
                        entries[k],
                    )
                } by {
                assert(before.contains_key(k) <==> rest.contains(k));
                if rest.contains(k) {
                    let i = choose|i: int| 0 <= i < rest.len() && rest[i] == k;
                    assert(keys[i] == k);
                }
                if keys.contains(k) {
                    let i = choose|i: int| 0 <= i < keys.len() && keys[i] == k;
                    if i < n {
                        assert(rest[i] == k);
                    }
                }
                assert(keys[n] == keys.last());
            }
        } else if forall|i: int| 0 <= i < keys.len() ==> is_covered(proof, #[trigger] keys[i]) {
            assert forall|i: int| 0 <= i < rest.len() implies is_covered(
                proof,
                #[trigger] rest[i],
            ) by {
                assert(rest[i] == keys[i]);
            }
            assert(is_covered(proof, keys[n]));
        }
    }
}

/// The first vault key that a proof does not cover is reported: as missing if its hash belongs to
/// another leaf, and else with what is wrong with its value.
pub proof fn law_refused_witness(proof: SmtProof, keys: Seq<RawWord>)
    ensures
        witness_entries(proof, keys) matches Err(fault) ==> exists|n: int|
            {
                &&& 0 <= n < keys.len()
                &&& !is_covered(proof, #[trigger] keys[n])
                &&& forall|i: int| 0 <= i < n ==> is_covered(proof, #[trigger] keys[i])
                &&& match proof_value(proof, smt_key(keys[n])) {
                    None => fault == (AssetFault::AssetWitnessMissingKey { key: keys[n] }),
                    Some(value) => fault == AssetFault::AssetWitnessInvalid(
                        Box::new(asset_fault(keys[n], value)->0),
                    ),
                }
            },
    decreases keys.len(),
{
    if keys.len() > 0 && witness_entries(proof, keys) is Err {
        let n = keys.len() - 1;
        let rest = keys.drop_last();
        law_checked_witness(proof, rest);
        if witness_entries(proof, rest) is Err {
            law_refused_witness(proof, rest);
            let fault = witness_entries(proof, rest)->Err_0;
            let m = choose|m: int|
                {
                    &&& 0 <= m < rest.len()
                    &&& !is_covered(proof, #[trigger] rest[m])
                    &&& forall|i: int| 0 <= i < m ==> is_covered(proof, #[trigger] rest[i])
                    &&& match proof_value(proof, smt_key(rest[m])) {
                        None => fault == (AssetFault::AssetWitnessMissingKey { key: rest[m] }),
                        Some(value) => fault == AssetFault::AssetWitnessInvalid(
                            Box::new(asset_fault(rest[m], value)->0),
                        ),
                    }
                };
            assert(keys[m] == rest[m]);
            assert forall|i: int| 0 <= i < m implies is_covered(proof, #[trigger] keys[i]) by {
                assert(rest[i] == keys[i]);
            }
        } else {
            assert forall|i: int| 0 <= i < n implies is_covered(proof, #[trigger] keys[i]) by {
                assert(rest[i] == keys[i]);
            }
            assert(!is_covered(proof, keys[n]));
        }
    }
}

/// An opening has an entry for its vault key if and only if its proof covers the key, with the
/// value that the proof gives to its hash, and no other entries.
pub proof fn law_entries_of_opening(proof: SmtProof, key: RawWord)
    ensures
        forall|k: RawWord| #[trigger]
            opened_entries(proof, key).contains_key(k) <==> k == key && is_covered(proof, key),
        is_covered(proof, key) ==> proof_value(proof, smt_key(key)) == Some(
            opened_entries(proof, key)[key],
        ),
{
}

/// After entries have been inserted there is an entry for a vault key if and only if there was one
/// before or the key is in the list. What is not in the list stays as it was.
pub proof fn law_inserted_entries<T>(map: Map<RawWord, T>, list: Seq<(RawWord, T)>, key: RawWord)
    ensures
        insert_all(map, list).contains_key(key) <==> map.contains_key(key) || exists|i: int|
            0 <= i < list.len() && (#[trigger] list[i]).0 == key,
        (forall|i: int| 0 <= i < list.len() ==> (#[trigger] list[i]).0 != key) ==> insert_all(
            map,
            list,
        )[key] == map[key],
    decreases list.len(),
{
    if list.len() > 0 {
        let n = list.len() - 1;
        let rest = list.drop_last();
        law_inserted_entries(map, rest, key);
        if list[n].0 != key {
            if exists|i: int| 0 <= i < list.len() && (#[trigger] list[i]).0 == key {
                let i = choose|i: int| 0 <= i < list.len() && (#[trigger] list[i]).0 == key;
                assert(rest[i].0 == key);
            } else {
                assert forall|i: int| 0 <= i < rest.len() implies (#[trigger] rest[i]).0
                    != key by {
                    assert(list[i].0 != key);
                }
            }
        }
    }
}

/// Of two inserted entries with the same vault key the later one counts.
pub proof fn law_last_insertion_counts<T>(
    map: Map<RawWord, T>,
    list: Seq<(RawWord, T)>,
    i: int,
)
    requires
        0 <= i < list.len(),
        forall|j: int| i < j < list.len() ==> (#[trigger] list[j]).0 != list[i].0,
    ensures
        insert_all(map, list)[list[i].0] == list[i].1,
    decreases list.len(),
{
    let n = list.len() - 1;
    if i < n {
        let rest = list.drop_last();
        assert(list[n].0 != list[i].0);
        assert forall|j: int| i < j < rest.len() implies (#[trigger] rest[j]).0 != rest[i].0 by {
            assert(list[j].0 != list[i].0);
        }
        law_last_insertion_counts(map, rest, i);
    }
}

// PARTIAL VAULTS
// ================================================================================================

/// A vault key can be tracked by a partial tree if and only if the tree has a value for its hash
/// that is empty or forms an asset with the key. Otherwise the missing hash is reported, or what is
/// wrong with the value.
pub proof fn law_when_key_is_tracked(tree: PartialSmt, key: RawWord)
    ensures
        tracked_value(tree, key) is Some <==> partial_values(tree).contains_key(smt_key(key)),
        tracked_value(tree, key) matches Some(value) ==> value == partial_values(tree)[smt_key(
            key,
        )],
        track_fault(tree, key) is None <==> (tracked_value(tree, key) matches Some(value) && (value
            == (0u64, 0u64, 0u64, 0u64) || asset_fault(key, value) is None)),
        track_fault(tree, key) matches Some(fault) ==> match tracked_value(tree, key) {
            None => fault == TrackFault::UntrackedKey(key, MerkleFault::UntrackedKey(smt_key(key))),
            Some(value) => fault == TrackFault::InvalidAsset(asset_fault(key, value)->0),
        },
{
}

/// A partial vault of a root has this root, no entries, no leaves and no inner nodes.
pub proof fn law_partial_vault_of_root(vault: PartialVaultState, root: RawWord)
    ensures
        rooted_at(vault, root) <==> {
            &&& partial_root(vault.tree) == root
            &&& forall|k: RawWord| !(#[trigger] vault.entries.contains_key(k))
            &&& forall|i: u64| !(#[trigger] partial_leaves(vault.tree).contains_key(i))
            &&& forall|place: NodePlace|
                !(#[trigger] partial_inner(vault.tree).contains_key(place))
        },
{
    if forall|k: RawWord| !(#[trigger] vault.entries.contains_key(k)) {
        assert(vault.entries =~= no_pairs());
    }
    if forall|i: u64| !(#[trigger] partial_leaves(vault.tree).contains_key(i)) {
        assert(partial_leaves(vault.tree) =~= no_leaves());
    }
    if forall|place: NodePlace| !(#[trigger] partial_inner(vault.tree).contains_key(place)) {
        assert(partial_inner(vault.tree) =~= no_inner());
    }
}

/// Adding a witness keeps the root. Afterwards there is an entry for a vault key if and only if the
/// witness or the partial vault had one, of which that of the witness counts, and the partial tree
/// has its value.
pub proof fn law_entries_after_adding(
    before: PartialVaultState,
    witness: WitnessState,
    after: PartialVaultState,
    key: RawWord,
)
    requires
        adds_witness(before, witness, after),
    ensures
        partial_root(after.tree) == partial_root(before.tree),
        witness.entries.contains_key(key) ==> (after.entries.contains_key(key) <==> tracked_value(
            after.tree,
            key,
        ) == Some(witness.entries[key])),
        !witness.entries.contains_key(key) ==> (after.entries.contains_key(key) <==> {
            &&& before.entries.contains_key(key)
            &&& tracked_value(after.tree, key) == Some(before.entries[key])
        }),
        after.entries.contains_key(key) ==> tracked_value(after.tree, key) == Some(
            after.entries[key],
        ),
{
}

/// A partial vault of witnesses has the root of the first one, or that of a vault without assets if
/// there is none. It has an entry for a vault key if and only if the witnesses have one and the
/// partial tree has its value.
pub proof fn law_entries_from_witnesses(
    witnesses: Seq<AssetWitness>,
    vault: PartialVaultState,
    key: RawWord,
)
    requires
        holds_witnesses(vault, witnesses),
    ensures
        partial_root(vault.tree) == if witnesses.len() == 0 {
            empty_root()
        } else {
            proof_root(witnesses[0]@.proof)
        },
        vault.entries.contains_key(key) <==> {
            &&& witness_entries_all(no_pairs(), witnesses).contains_key(key)
            &&& tracked_value(vault.tree, key) == Some(
                witness_entries_all(no_pairs(), witnesses)[key],
            )
        },
        vault.entries.contains_key(key) ==> tracked_value(vault.tree, key) == Some(
            vault.entries[key],
        ),
{
}

/// The entries of a list of witnesses are those that some witness of the list has.
pub proof fn law_entries_of_witnesses(witnesses: Seq<AssetWitness>, key: RawWord)
    ensures
        witness_entries_all(no_pairs(), witnesses).contains_key(key) <==> exists|i: int|
            0 <= i < witnesses.len() && (#[trigger] witnesses[i])@.entries.contains_key(key),
    decreases witnesses.len(),
{
    if witnesses.len() > 0 {
        let n = witnesses.len() - 1;
        let rest = witnesses.drop_last();
        law_entries_of_witnesses(rest, key);
        if !witnesses[n]@.entries.contains_key(key) {
            if exists|i: int|
                0 <= i < witnesses.len() && (#[trigger] witnesses[i])@.entries.contains_key(key) {
                let i = choose|i: int|
                    0 <= i < witnesses.len() && (#[trigger] witnesses[i])@.entries.contains_key(
                        key,
                    );
                assert(rest[i]@.entries.contains_key(key));
            }
            if exists|i: int|
                0 <= i < rest.len() && (#[trigger] rest[i])@.entries.contains_key(key) {
                let i = choose|i: int|
                    0 <= i < rest.len() && (#[trigger] rest[i])@.entries.contains_key(key);
                assert(witnesses[i]@.entries.contains_key(key));
            }
        }
    }
}

/// Of two witnesses with an entry for the same vault key the later one counts.
pub proof fn law_last_witness_counts(witnesses: Seq<AssetWitness>, i: int, key: RawWord)
    requires
        0 <= i < witnesses.len(),
        witnesses[i]@.entries.contains_key(key),
        forall|j: int|
            i < j < witnesses.len() ==> !(#[trigger] witnesses[j])@.entries.contains_key(key),
    ensures
        witness_entries_all(no_pairs(), witnesses).contains_key(key),
        witness_entries_all(no_pairs(), witnesses)[key] == witnesses[i]@.entries[key],
    decreases witnesses.len(),
{
    let n = witnesses.len() - 1;
    assert(witnesses.last() == witnesses[n]);
    if i < n {
        let rest = witnesses.drop_last();
        assert(!witnesses[n]@.entries.contains_key(key));
        assert forall|j: int| i < j < rest.len() implies !(
        #[trigger] rest[j])@.entries.contains_key(key) by {
            assert(!witnesses[j]@.entries.contains_key(key));
        }
        law_last_witness_counts(rest, i, key);
    }
}

} // verus!
