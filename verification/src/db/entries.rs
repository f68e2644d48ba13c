//! Lists of key-value pairs with distinct keys.

use vstd::prelude::*;

use crate::protocol::are_map_entries;
use crate::word::Word;

verus! {

/// The values of pairs by their keys. Of pairs with the same key the last one counts.
pub open spec fn pairs_by_key<K, V>(pairs: Seq<(K, V)>) -> vstd::map::Map<K, V>
    decreases pairs.len(),
{
    if pairs.len() == 0 {
        vstd::map::Map::empty()
    } else {
        pairs_by_key(pairs.drop_last()).insert(pairs.last().0, pairs.last().1)
    }
}

/// Whether no two pairs have the same key.
pub open spec fn has_distinct_keys<K, V>(pairs: Seq<(K, V)>) -> bool {
    forall|i: int, j: int|
        0 <= i < j < pairs.len() ==> (#[trigger] pairs[i]).0 != (#[trigger] pairs[j]).0
}

/// The pairs of a list with distinct keys are the pairs of its map.
pub proof fn lemma_pairs_by_key<K, V>(pairs: Seq<(K, V)>)
    requires
        has_distinct_keys(pairs),
    ensures
        forall|key: K| #[trigger]
            pairs_by_key(pairs).contains_key(key) <==> exists|i: int|
                0 <= i < pairs.len() && (#[trigger] pairs[i]).0 == key,
        forall|i: int|
            0 <= i < pairs.len() ==> pairs_by_key(pairs)[(#[trigger] pairs[i]).0] == pairs[i].1,
        pairs_by_key(pairs).dom().finite(),
        pairs_by_key(pairs).len() == pairs.len(),
    decreases pairs.len(),
{
    if pairs.len() > 0 {
        let before = pairs.drop_last();
        let last = pairs.last();
        lemma_pairs_by_key(before);
        let map = pairs_by_key(pairs);
        assert forall|key: K| #[trigger] map.contains_key(key) implies exists|i: int|
            0 <= i < pairs.len() && (#[trigger] pairs[i]).0 == key by {
            if key == last.0 {
                assert(pairs[pairs.len() - 1].0 == key);
            } else {
                let i = choose|i: int| 0 <= i < before.len() && (#[trigger] before[i]).0 == key;
                assert(pairs[i].0 == key);
            }
        }
        assert forall|i: int| 0 <= i < pairs.len() implies map.contains_key(
            (#[trigger] pairs[i]).0,
        ) by {
            if i < before.len() {
                assert(before[i].0 == pairs[i].0);
                assert(pairs_by_key(before).contains_key(before[i].0));
            }
        }
        assert forall|i: int| 0 <= i < pairs.len() implies map[(#[trigger] pairs[i]).0]
            == pairs[i].1 by {
            if i < before.len() {
                assert(before[i] == pairs[i]);
                assert(pairs[i].0 != pairs[pairs.len() - 1].0);
            }
        }
        if pairs_by_key(before).contains_key(last.0) {
            let i = choose|i: int| 0 <= i < before.len() && (#[trigger] before[i]).0 == last.0;
            assert(pairs[i].0 == pairs[pairs.len() - 1].0);
            assert(false);
        }
    }
}

/// Changing the value of a pair changes the value of its key.
pub proof fn lemma_updated_pair<K, V>(pairs: Seq<(K, V)>, position: int, value: V)
    requires
        has_distinct_keys(pairs),
        0 <= position < pairs.len(),
    ensures
        has_distinct_keys(pairs.update(position, (pairs[position].0, value))),
        pairs_by_key(pairs.update(position, (pairs[position].0, value))) =~= pairs_by_key(
            pairs,
        ).insert(pairs[position].0, value),
{
    let key = pairs[position].0;
    let after = pairs.update(position, (key, value));
    assert forall|i: int, j: int| 0 <= i < j < after.len() implies (#[trigger] after[i]).0 != (
    #[trigger] after[j]).0 by {
        assert(after[i].0 == pairs[i].0 && after[j].0 == pairs[j].0);
    }
    lemma_pairs_by_key(pairs);
    lemma_pairs_by_key(after);
    let expected = pairs_by_key(pairs).insert(key, value);
    let found = pairs_by_key(after);
    assert forall|k: K| #[trigger] found.contains_key(k) implies expected.contains_key(k)
        && found[k] == expected[k] by {
        let i = choose|i: int| 0 <= i < after.len() && (#[trigger] after[i]).0 == k;
        assert(pairs[i].0 == k);
        assert(after[i].0 == k);
        if i != position {
            assert(k != key);
        }
    }
    assert forall|k: K| #[trigger] expected.contains_key(k) implies found.contains_key(k) by {
        if k == key {
            assert(after[position].0 == k);
        } else {
            let i = choose|i: int| 0 <= i < pairs.len() && (#[trigger] pairs[i]).0 == k;
            assert(after[i].0 == k);
        }
    }
}

/// Removing a pair removes its key.
pub proof fn lemma_removed_pair<K, V>(pairs: Seq<(K, V)>, position: int)
    requires
        has_distinct_keys(pairs),
        0 <= position < pairs.len(),
    ensures
        has_distinct_keys(pairs.remove(position)),
        pairs_by_key(pairs.remove(position)) =~= pairs_by_key(pairs).remove(pairs[position].0),
{
    let after = pairs.remove(position);
    assert forall|i: int, j: int| 0 <= i < j < after.len() implies (#[trigger] after[i]).0 != (
    #[trigger] after[j]).0 by {
        let bi = if i < position { i } else { i + 1 };
        let bj = if j < position { j } else { j + 1 };
        assert(after[i] == pairs[bi] && after[j] == pairs[bj]);
    }
    lemma_pairs_by_key(pairs);
    lemma_pairs_by_key(after);
    let key = pairs[position].0;
    let expected = pairs_by_key(pairs).remove(key);
    let found = pairs_by_key(after);
    assert forall|k: K| #[trigger] found.contains_key(k) implies expected.contains_key(k)
        && found[k] == expected[k] by {
        let i = choose|i: int| 0 <= i < after.len() && (#[trigger] after[i]).0 == k;
        let bi = if i < position { i } else { i + 1 };
        assert(after[i] == pairs[bi]);
        assert(pairs[bi].0 == k);
        assert(k != key);
    }
    assert forall|k: K| #[trigger] expected.contains_key(k) implies found.contains_key(k) by {
        let bi = choose|i: int| 0 <= i < pairs.len() && (#[trigger] pairs[i]).0 == k;
        let i = if bi < position { bi } else { bi - 1 };
        assert(after[i] == pairs[bi]);
        assert(after[i].0 == k);
    }
}

/// Returns the position of a key, or `None` if the list does not hold it.
pub fn find_entry(entries: &Vec<(Word, Word)>, key: Word) -> (r: Option<usize>)
    ensures
        match r {
            Some(i) => i < entries@.len() && entries@[i as int].0 == key,
            None => forall|i: int| 0 <= i < entries@.len() ==> (#[trigger] entries@[i]).0 != key,
        },
{
    let mut i: usize = 0;
    while i < entries.len()
        invariant
            i <= entries@.len(),
            forall|j: int| 0 <= j < i ==> (#[trigger] entries@[j]).0 != key,
        decreases entries@.len() - i,
    {
        if entries[i].0 == key {
            return Some(i);
        }
        i = i + 1;
    }
    None
}

/// Sets the value of a key.
pub fn insert_entry(entries: &mut Vec<(Word, Word)>, key: Word, value: Word)
    requires
        are_map_entries(old(entries)@),
        key.is_canonical(),
        value.is_canonical(),
    ensures
        are_map_entries(final(entries)@),
        pairs_by_key(final(entries)@) == pairs_by_key(old(entries)@).insert(key, value),
{
    let ghost before = entries@;
    match find_entry(entries, key) {
        Some(i) => {
            entries.set(i, (key, value));
            proof {
                lemma_updated_pair(before, i as int, value);
                assert(entries@ =~= before.update(i as int, (key, value)));
            }
        },
        None => {
            entries.push((key, value));
            proof {
                assert(entries@.drop_last() =~= before);
            }
        },
    }
}

/// Removes a key, if the list holds it.
pub fn remove_entry(entries: &mut Vec<(Word, Word)>, key: Word)
    requires
        are_map_entries(old(entries)@),
    ensures
        are_map_entries(final(entries)@),
        pairs_by_key(final(entries)@) == pairs_by_key(old(entries)@).remove(key),
{
    let ghost before = entries@;
    match find_entry(entries, key) {
        Some(i) => {
            let _ = entries.remove(i);
            proof {
                lemma_removed_pair(before, i as int);
                assert forall|j: int| 0 <= j < entries@.len() implies (
                #[trigger] entries@[j]).0.is_canonical() && entries@[j].1.is_canonical() by {
                    let bj = if j < i { j } else { j + 1 };
                    assert(entries@[j] == before[bj]);
                }
            }
        },
        None => {
            proof {
                lemma_pairs_by_key(before);
                assert(pairs_by_key(before).remove(key) =~= pairs_by_key(before));
            }
        },
    }
}

} // verus!
