//! The forest of sparse Merkle trees that the account state forest is built on: lineages of trees,
//! each with its latest version and a bounded number of earlier ones.

use miden_protocol::account::StorageMapKey;
use miden_protocol::crypto::hash::blake::Blake3_256;
use miden_protocol::crypto::merkle::smt::{
    ForestInMemoryBackend, LargeSmtForest, LineageId, RootInfo, Smt, SmtUpdateBatch, TreeId,
};
use miden_protocol::utils::serde::Serializable;
use miden_protocol::Felt;
use vstd::prelude::*;

use crate::account_state_forest::model::entry_keys;
use crate::db::delta::map_after;
use crate::db::entries::{has_distinct_keys, pairs_by_key};
use crate::word::Word;

verus! {

// MODEL
// ================================================================================================

/// A version of a tree: what the tree holds from the given version on. A tree holds no empty values.
#[verifier::ext_equal]
pub struct TreeVersion {
    pub version: u64,
    pub contents: vstd::map::Map<Word, Word>,
}

/// A forest in memory: a `LargeSmtForest` over a `ForestInMemoryBackend`.
#[verifier::external_body]
pub struct SmtForest {
    forest: LargeSmtForest<ForestInMemoryBackend>,
}

/// The versions of the trees of a forest by lineage, the latest one last.
pub uninterp spec fn forest_trees(forest: SmtForest) -> vstd::map::Map<Seq<u8>, Seq<TreeVersion>>;

/// The root that `Smt::root` returns for a tree with the given contents.
pub uninterp spec fn smt_root_of(contents: vstd::map::Map<Word, Word>) -> Word;

/// The encoding of the proof that `Smt::open` returns for a key of a tree with the given contents.
pub uninterp spec fn smt_proof_of(contents: vstd::map::Map<Word, Word>, key: Word) -> Seq<u8>;

/// Whether bytes encode a proof that `LargeSmtForest::open` may return for a key of a tree with the
/// given contents. A proof lists the entries of the key's leaf, in any order.
pub uninterp spec fn is_smt_proof(
    proof: Seq<u8>,
    contents: vstd::map::Map<Word, Word>,
    key: Word,
) -> bool;

/// Whether no two keys of a tree share the leaf of the given key, which is found by the last element.
pub open spec fn has_lone_leaf(contents: vstd::map::Map<Word, Word>, key: Word) -> bool {
    forall|a: Word, b: Word|
        #![trigger contents.contains_key(a), contents.contains_key(b)]
        contents.contains_key(a) && contents.contains_key(b) && a.3 == key.3 && b.3 == key.3
            ==> a == b
}

/// Whether two trees hold the same in the leaf beside that of the given key: the one whose index differs
/// in the lowest bit only.
pub open spec fn has_same_sibling(
    contents: vstd::map::Map<Word, Word>,
    other: vstd::map::Map<Word, Word>,
    key: Word,
) -> bool {
    forall|k: Word|
        #![trigger contents.contains_key(k)]
        #![trigger other.contains_key(k)]
        k.3 / 2 == key.3 / 2 && k.3 != key.3 ==> contents.contains_key(k) == other.contains_key(k)
            && (contents.contains_key(k) ==> contents[k] == other[k])
}

/// Whether bytes are the encoded proof of a key of a tree. The bytes are fixed if the tree is as it is
/// now. `changed` holds what the tree holds now if it was changed since. The bytes are fixed even so if
/// the key's leaf had no more than one entry, and the leaf beside it is as it was.
pub open spec fn is_proof(
    proof: Seq<u8>,
    contents: vstd::map::Map<Word, Word>,
    key: Word,
    changed: Option<vstd::map::Map<Word, Word>>,
) -> bool {
    &&& is_smt_proof(proof, contents, key)
    &&& (match changed {
        None => true,
        Some(now) => has_lone_leaf(contents, key) && has_same_sibling(contents, now, key),
    }) ==> proof == smt_proof_of(contents, key)
}

/// The number of earlier versions of a tree that a forest keeps.
pub const MAX_TREE_HISTORY: usize = 10;

/// The number of entries that a tree is sure to hold.
pub const MAX_SMT_LEAF_ENTRIES: usize = 1024;

/// How many of the keys have the given last element, by which the leaf of a key is found.
pub open spec fn count_with_last_element(keys: Seq<Word>, element: u64) -> nat
    decreases keys.len(),
{
    if keys.len() == 0 {
        0
    } else if keys.last().3 == element {
        count_with_last_element(keys.drop_last(), element) + 1
    } else {
        count_with_last_element(keys.drop_last(), element)
    }
}

/// Whether a tree can hold the keys: no leaf has too many of them.
pub open spec fn fits_leaves(keys: Seq<Word>) -> bool {
    forall|i: int|
        0 <= i < keys.len() ==> count_with_last_element(keys, (#[trigger] keys[i]).3)
            <= MAX_SMT_LEAF_ENTRIES
}

/// The number of entries of a leaf of a tree with the given contents.
pub open spec fn leaf_len(contents: vstd::map::Map<Word, Word>, element: u64) -> nat {
    contents.dom().filter(|key: Word| key.3 == element).len()
}

/// Whether a tree can take a value for a key: the tree holds the key, or its leaf is not full.
pub open spec fn has_room(contents: vstd::map::Map<Word, Word>, key: Word) -> bool {
    contents.contains_key(key) || leaf_len(contents, key.3) < MAX_SMT_LEAF_ENTRIES
}

/// Whether a tree is sure to take changes of the given keys: no leaf has too many entries even if all of
/// its keys are new.
pub open spec fn fits_tree(contents: vstd::map::Map<Word, Word>, keys: Seq<Word>) -> bool {
    forall|i: int|
        0 <= i < keys.len() ==> {
            let element = (#[trigger] keys[i]).3;
            leaf_len(contents, element) + count_with_last_element(keys, element)
                <= MAX_SMT_LEAF_ENTRIES
        }
}

/// A tree that takes changes of keys takes changes of fewer keys.
pub proof fn lemma_fits_fewer(
    contents: vstd::map::Map<Word, Word>,
    fewer: Seq<Word>,
    keys: Seq<Word>,
)
    requires
        forall|element: u64| #[trigger]
            count_with_last_element(fewer, element) <= count_with_last_element(keys, element),
        fits_tree(contents, keys),
    ensures
        fits_tree(contents, fewer),
{
    assert forall|i: int| 0 <= i < fewer.len() implies {
        let element = (#[trigger] fewer[i]).3;
        leaf_len(contents, element) + count_with_last_element(fewer, element)
            <= MAX_SMT_LEAF_ENTRIES
    } by {
        let element = fewer[i].3;
        lemma_key_counts(fewer, i);
        assert(count_with_last_element(fewer, element) <= count_with_last_element(keys, element));
        lemma_counted_key(keys, element);
        let k = choose|k: int| 0 <= k < keys.len() && (#[trigger] keys[k]).3 == element;
        assert(keys[k].3 == element);
    }
}

proof fn lemma_key_counts(keys: Seq<Word>, i: int)
    requires
        0 <= i < keys.len(),
    ensures
        count_with_last_element(keys, keys[i].3) > 0,
    decreases keys.len(),
{
    if i < keys.len() - 1 {
        lemma_key_counts(keys.drop_last(), i);
    }
}

proof fn lemma_count_bound(keys: Seq<Word>, element: u64)
    ensures
        count_with_last_element(keys, element) <= keys.len(),
    decreases keys.len(),
{
    if keys.len() > 0 {
        lemma_count_bound(keys.drop_last(), element);
    }
}

proof fn lemma_leaf_len(keys: Seq<Word>, element: u64)
    requires
        keys.no_duplicates(),
    ensures
        keys.to_set().filter(|key: Word| key.3 == element).len() == count_with_last_element(
            keys,
            element,
        ),
        keys.to_set().filter(|key: Word| key.3 == element).finite(),
    decreases keys.len(),
{
    let wanted = |key: Word| key.3 == element;
    if keys.len() == 0 {
        assert(keys.to_set().filter(wanted) =~= Set::empty());
    } else {
        let before = keys.drop_last();
        let last = keys.last();
        lemma_leaf_len(before, element);
        assert(keys.to_set() =~= before.to_set().insert(last)) by {
            assert forall|key: Word| keys.to_set().contains(key) <==> before.to_set().insert(
                last,
            ).contains(key) by {
                if keys.contains(key) {
                    let i = choose|i: int| 0 <= i < keys.len() && keys[i] == key;
                    if i < before.len() {
                        assert(before[i] == key);
                    }
                }
                if before.contains(key) {
                    let i = choose|i: int| 0 <= i < before.len() && before[i] == key;
                    assert(keys[i] == key);
                }
                assert(keys[keys.len() - 1] == last);
            }
        }
        assert(!before.to_set().contains(last)) by {
            if before.contains(last) {
                let i = choose|i: int| 0 <= i < before.len() && before[i] == last;
                assert(keys[i] == keys[keys.len() - 1]);
            }
        }
        let found = before.to_set().filter(wanted);
        if wanted(last) {
            assert(keys.to_set().filter(wanted) =~= found.insert(last));
        } else {
            assert(keys.to_set().filter(wanted) =~= found);
        }
    }
}

/// Distinct keys fit into the leaves of a tree exactly if no leaf of the tree that holds them has too
/// many entries.
pub proof fn lemma_fits_leaves(keys: Seq<Word>, contents: vstd::map::Map<Word, Word>)
    requires
        keys.no_duplicates(),
        contents.dom() == keys.to_set(),
    ensures
        fits_leaves(keys) <==> forall|element: u64| #[trigger]
            leaf_len(contents, element) <= MAX_SMT_LEAF_ENTRIES,
        forall|element: u64| #[trigger]
            leaf_len(contents, element) == count_with_last_element(keys, element),
{
    assert forall|element: u64| #[trigger] leaf_len(contents, element) == count_with_last_element(
        keys,
        element,
    ) by {
        lemma_leaf_len(keys, element);
    }
    if fits_leaves(keys) {
        assert forall|element: u64| #[trigger]
            leaf_len(contents, element) <= MAX_SMT_LEAF_ENTRIES by {
            if count_with_last_element(keys, element) > 0 {
                lemma_counted_key(keys, element);
            }
        }
    }
    if forall|element: u64| #[trigger] leaf_len(contents, element) <= MAX_SMT_LEAF_ENTRIES {
        assert forall|i: int| 0 <= i < keys.len() implies count_with_last_element(
            keys,
            (#[trigger] keys[i]).3,
        ) <= MAX_SMT_LEAF_ENTRIES by {
            assert(leaf_len(contents, keys[i].3) <= MAX_SMT_LEAF_ENTRIES);
        }
    }
}

proof fn lemma_counted_key(keys: Seq<Word>, element: u64)
    requires
        count_with_last_element(keys, element) > 0,
    ensures
        exists|i: int| 0 <= i < keys.len() && (#[trigger] keys[i]).3 == element,
    decreases keys.len(),
{
    if keys.last().3 == element {
        assert(keys[keys.len() - 1].3 == element);
    } else {
        let before = keys.drop_last();
        lemma_counted_key(before, element);
        let i = choose|i: int| 0 <= i < before.len() && (#[trigger] before[i]).3 == element;
        assert(keys[i].3 == element);
    }
}

/// Returns how many of the keys have the given last element.
pub fn count_in_leaf(keys: &Vec<Word>, element: u64) -> (r: usize)
    ensures
        r == count_with_last_element(keys@, element),
{
    let mut count: usize = 0;
    let mut i: usize = 0;
    while i < keys.len()
        invariant
            i <= keys@.len(),
            count == count_with_last_element(keys@.take(i as int), element),
            count <= i,
        decreases keys@.len() - i,
    {
        assert(keys@.take(i + 1).drop_last() =~= keys@.take(i as int));
        if keys[i].3 == element {
            count = count + 1;
        }
        i = i + 1;
    }
    assert(keys@.take(i as int) =~= keys@);
    count
}

/// Returns whether no leaf has too many of the keys.
pub fn check_leaf_sizes(keys: &Vec<Word>) -> (r: bool)
    ensures
        r == fits_leaves(keys@),
{
    if keys.len() <= MAX_SMT_LEAF_ENTRIES {
        proof {
            assert forall|i: int| 0 <= i < keys@.len() implies count_with_last_element(
                keys@,
                (#[trigger] keys@[i]).3,
            ) <= MAX_SMT_LEAF_ENTRIES by {
                lemma_count_bound(keys@, keys@[i].3);
            }
        }
        return true;
    }
    let mut i: usize = 0;
    while i < keys.len()
        invariant
            i <= keys@.len(),
            forall|k: int|
                0 <= k < i ==> count_with_last_element(keys@, (#[trigger] keys@[k]).3)
                    <= MAX_SMT_LEAF_ENTRIES,
        decreases keys@.len() - i,
    {
        if count_in_leaf(keys, keys[i].3) > MAX_SMT_LEAF_ENTRIES {
            assert(count_with_last_element(keys@, keys@[i as int].3) > MAX_SMT_LEAF_ENTRIES);
            return false;
        }
        i = i + 1;
    }
    true
}

/// What a tree holds at a version: the contents of its newest version that is not later, if that one
/// is kept.
pub open spec fn contents_at(versions: Seq<TreeVersion>, version: u64) -> Option<
    vstd::map::Map<Word, Word>,
>
    decreases versions.len(),
{
    if versions.len() == 0 {
        None
    } else if versions.last().version <= version {
        Some(versions.last().contents)
    } else {
        contents_at(versions.drop_last(), version)
    }
}

/// The versions of a tree with one more. The oldest one makes room for it.
pub open spec fn with_version(versions: Seq<TreeVersion>, added: TreeVersion) -> Seq<TreeVersion> {
    if versions.len() > MAX_TREE_HISTORY {
        versions.drop_first().push(added)
    } else {
        versions.push(added)
    }
}

/// The versions of a tree without those that no query from the given version on needs.
pub open spec fn truncated(versions: Seq<TreeVersion>, version: u64) -> Seq<TreeVersion>
    decreases versions.len(),
{
    if versions.len() >= 2 && versions[1].version <= version {
        truncated(versions.drop_first(), version)
    } else {
        versions
    }
}

/// The trees of a forest without the versions that no query from the given version on needs.
pub open spec fn truncated_trees(
    trees: vstd::map::Map<Seq<u8>, Seq<TreeVersion>>,
    version: u64,
) -> vstd::map::Map<Seq<u8>, Seq<TreeVersion>> {
    trees.map_values(|versions: Seq<TreeVersion>| truncated(versions, version))
}

/// The number of versions of all trees.
pub open spec fn count_trees(trees: vstd::map::Map<Seq<u8>, Seq<TreeVersion>>) -> nat
    decreases trees.dom().len(),
    when trees.dom().finite()
{
    if trees.dom().len() == 0 {
        0
    } else {
        let lineage = trees.dom().choose();
        trees[lineage].len() + count_trees(trees.remove(lineage))
    }
}

/// Whether all keys and values of entries are canonical.
pub open spec fn are_canonical_entries(entries: Seq<(Word, Word)>) -> bool {
    forall|i: int|
        0 <= i < entries.len() ==> (#[trigger] entries[i]).0.is_canonical()
            && entries[i].1.is_canonical()
}

/// Whether a forest is one that was built up from an empty one: every lineage has a version, no more
/// versions than are kept, and the versions are in ascending order.
pub open spec fn is_forest(trees: vstd::map::Map<Seq<u8>, Seq<TreeVersion>>) -> bool {
    &&& trees.dom().finite()
    &&& forall|lineage: Seq<u8>| #[trigger]
        trees.contains_key(lineage) ==> 0 < trees[lineage].len() <= MAX_TREE_HISTORY + 1
            && has_ascending_versions(trees[lineage])
}

/// Whether versions are in ascending order.
pub open spec fn has_ascending_versions(versions: Seq<TreeVersion>) -> bool {
    forall|i: int, j: int|
        0 <= i < j < versions.len() ==> (#[trigger] versions[i]).version < (
        #[trigger] versions[j]).version
}

// FOREST
// ================================================================================================

/// Creates an empty forest by `LargeSmtForest::new`.
#[verifier::external_body]
pub(crate) fn new_forest() -> (r: SmtForest)
    ensures
        forest_trees(r).dom() == Set::<Seq<u8>>::empty(),
{
    let forest = LargeSmtForest::new(ForestInMemoryBackend::new());
    SmtForest { forest: forest.expect("a backend in memory does not fail") }
}

/// The number of lineages by `LargeSmtForest::lineage_count`.
#[verifier::external_body]
pub(crate) fn forest_lineage_count(forest: &SmtForest) -> (r: usize)
    ensures
        r == forest_trees(*forest).dom().len(),
{
    forest.forest.lineage_count()
}

/// The number of versions of all trees by `LargeSmtForest::tree_count`.
#[verifier::external_body]
pub(crate) fn forest_tree_count(forest: &SmtForest) -> (r: usize)
    requires
        is_forest(forest_trees(*forest)),
    ensures
        r == count_trees(forest_trees(*forest)),
{
    forest.forest.tree_count()
}

/// The latest version of a lineage by `LargeSmtForest::latest_version`.
#[verifier::external_body]
pub(crate) fn forest_latest_version(forest: &SmtForest, lineage: [u8; 32]) -> (r: Option<u64>)
    requires
        is_forest(forest_trees(*forest)),
    ensures
        r == (if forest_trees(*forest).contains_key(lineage@) {
            Some(forest_trees(*forest)[lineage@].last().version)
        } else {
            None
        }),
{
    forest.forest.latest_version(LineageId::new(lineage))
}

/// The root of a tree at a version by `LargeSmtForest::root_info`, which knows nothing of versions
/// past the latest one.
#[verifier::external_body]
pub(crate) fn forest_root(forest: &SmtForest, lineage: [u8; 32], version: u64) -> (r: Option<Word>)
    requires
        is_forest(forest_trees(*forest)),
        forest_trees(*forest).contains_key(lineage@),
        version <= forest_trees(*forest)[lineage@].last().version,
    ensures
        contents_at(forest_trees(*forest)[lineage@], version) is None ==> r is None,
        contents_at(forest_trees(*forest)[lineage@], version) matches Some(contents) ==> r == Some(
            smt_root_of(contents),
        ),
{
    let root = match forest.forest.root_info(TreeId::new(LineageId::new(lineage), version)) {
        RootInfo::LatestVersion(root) => root,
        RootInfo::HistoricalVersion(root) => root,
        RootInfo::Missing => return None,
    };
    let [a, b, c, d] = root.into_elements().map(|element| element.as_canonical_u64());
    Some(Word(a, b, c, d))
}

/// The value of a key in a tree at a version by `LargeSmtForest::get`.
#[verifier::external_body]
pub(crate) fn forest_value(forest: &SmtForest, lineage: [u8; 32], version: u64, key: Word) -> (r:
    Option<Word>)
    requires
        is_forest(forest_trees(*forest)),
        forest_trees(*forest).contains_key(lineage@),
        version <= forest_trees(*forest)[lineage@].last().version,
        key.is_canonical(),
    ensures
        contents_at(forest_trees(*forest)[lineage@], version) matches Some(contents) ==> r == (
        if contents.contains_key(key) {
            Some(contents[key])
        } else {
            None
        }),
        r matches Some(value) ==> value.is_canonical(),
{
    let Word(a, b, c, d) = key;
    let tree = TreeId::new(LineageId::new(lineage), version);
    let value = forest.forest.get(tree, [a, b, c, d].map(Felt::new).into()).ok()??;
    let [a, b, c, d] = value.into_elements().map(|element| element.as_canonical_u64());
    Some(Word(a, b, c, d))
}

/// The encoded proof of a key of a tree at a version by `LargeSmtForest::open`. The latest version is
/// opened by `Smt::open`. An earlier version is opened as the latest one, with the entries and the inner
/// nodes as the history has them. Its leaf is put together through a hash map, so that the order of
/// several entries is open. The history holds no hashes of leaves, so that the path holds the hash of
/// the leaf beside it as it is now. Nothing is said of the bytes where either may matter.
#[verifier::external_body]
pub(crate) fn forest_open(forest: &SmtForest, lineage: [u8; 32], version: u64, key: Word) -> (r:
    Option<Vec<u8>>)
    requires
        is_forest(forest_trees(*forest)),
        forest_trees(*forest).contains_key(lineage@),
        version <= forest_trees(*forest)[lineage@].last().version,
        key.is_canonical(),
    ensures
        r is Some <==> contents_at(forest_trees(*forest)[lineage@], version) is Some,
        contents_at(forest_trees(*forest)[lineage@], version) matches Some(contents) ==> r matches Some(
            bytes,
        ) ==> is_smt_proof(bytes@, contents, key),
        contents_at(forest_trees(*forest)[lineage@], version) matches Some(contents) ==> r matches Some(
            bytes,
        ) ==> version == forest_trees(*forest)[lineage@].last().version ==> bytes@ == smt_proof_of(
            contents,
            key,
        ),
        contents_at(forest_trees(*forest)[lineage@], version) matches Some(contents) ==> r matches Some(
            bytes,
        ) ==> has_lone_leaf(contents, key) && has_same_sibling(
            contents,
            forest_trees(*forest)[lineage@].last().contents,
            key,
        ) ==> bytes@ == smt_proof_of(contents, key),
{
    let Word(a, b, c, d) = key;
    let tree = TreeId::new(LineageId::new(lineage), version);
    let proof = forest.forest.open(tree, [a, b, c, d].map(Felt::new).into()).ok()?;
    Some(proof.to_bytes())
}

/// The entries of a tree at a version by `LargeSmtForest::entries`, in no particular order.
#[verifier::external_body]
pub(crate) fn forest_entries(forest: &SmtForest, lineage: [u8; 32], version: u64) -> (r: Option<
    Vec<(Word, Word)>,
>)
    requires
        is_forest(forest_trees(*forest)),
        forest_trees(*forest).contains_key(lineage@),
        version <= forest_trees(*forest)[lineage@].last().version,
    ensures
        r is Some <==> contents_at(forest_trees(*forest)[lineage@], version) is Some,
        contents_at(forest_trees(*forest)[lineage@], version) matches Some(contents) ==> r matches Some(
            entries,
        ) ==> has_distinct_keys(entries@) && pairs_by_key(entries@) == contents,
        r matches Some(entries) ==> are_canonical_entries(entries@),
{
    let tree = TreeId::new(LineageId::new(lineage), version);
    let word = |word: miden_protocol::Word| {
        let [a, b, c, d] = word.into_elements().map(|element| element.as_canonical_u64());
        Word(a, b, c, d)
    };
    let entries = forest.forest.entries(tree).ok()?;
    Some(entries.map(|entry| (word(entry.key), word(entry.value))).collect())
}

/// Adds a lineage whose first version holds the given entries by `LargeSmtForest::add_lineage`, which
/// refuses a lineage that is there. It may also refuse more entries than a leaf is sure to hold. A
/// refusal changes nothing.
#[verifier::external_body]
pub(crate) fn forest_add_lineage(
    forest: &mut SmtForest,
    lineage: [u8; 32],
    version: u64,
    entries: &Vec<(Word, Word)>,
) -> (r: bool)
    requires
        are_canonical_entries(entries@),
    ensures
        forest_trees(*old(forest)).contains_key(lineage@) ==> !r,
        !forest_trees(*old(forest)).contains_key(lineage@) && fits_tree(
            vstd::map::Map::empty(),
            entry_keys(entries@),
        ) ==> r,
        !r ==> forest_trees(*final(forest)) == forest_trees(*old(forest)),
        r ==> forest_trees(*final(forest)) == forest_trees(*old(forest)).insert(
            lineage@,
            seq![
                TreeVersion { version, contents: map_after(vstd::map::Map::empty(), entries@) },
            ],
        ),
{
    let to_word = |w: Word| miden_protocol::Word::new([w.0, w.1, w.2, w.3].map(Felt::new));
    let updates = entries.iter().map(|(key, value)| (to_word(*key), to_word(*value)));
    let updates = SmtUpdateBatch::from(updates);
    forest.forest.add_lineage(LineageId::new(lineage), version, updates).is_ok()
}

/// Adds a version with changed entries to a lineage by `LargeSmtForest::update_tree`, where an empty
/// value removes its key. Changes that leave the tree as it is add no version. It refuses a version
/// that is not later than the latest one, and it may refuse more entries than a leaf is sure to hold.
/// A refusal changes nothing.
#[verifier::external_body]
pub(crate) fn forest_update_tree(
    forest: &mut SmtForest,
    lineage: [u8; 32],
    version: u64,
    entries: &Vec<(Word, Word)>,
) -> (r: bool)
    requires
        is_forest(forest_trees(*old(forest))),
        forest_trees(*old(forest)).contains_key(lineage@),
        are_canonical_entries(entries@),
    ensures
        version <= forest_trees(*old(forest))[lineage@].last().version ==> !r,
        forest_trees(*old(forest))[lineage@].last().version + 1 <= version && fits_tree(
            forest_trees(*old(forest))[lineage@].last().contents,
            entry_keys(entries@),
        ) ==> r,
        !r ==> forest_trees(*final(forest)) == forest_trees(*old(forest)),
        r ==> forest_trees(*final(forest)) == trees_with_update(
            forest_trees(*old(forest)),
            lineage@,
            version,
            entries@,
        ),
{
    let to_word = |w: Word| miden_protocol::Word::new([w.0, w.1, w.2, w.3].map(Felt::new));
    let updates = entries.iter().map(|(key, value)| (to_word(*key), to_word(*value)));
    let updates = SmtUpdateBatch::from(updates);
    forest.forest.update_tree(LineageId::new(lineage), version, updates).is_ok()
}

/// The trees of a forest once entries of the latest version of a lineage were changed.
pub open spec fn trees_with_update(
    trees: vstd::map::Map<Seq<u8>, Seq<TreeVersion>>,
    lineage: Seq<u8>,
    version: u64,
    entries: Seq<(Word, Word)>,
) -> vstd::map::Map<Seq<u8>, Seq<TreeVersion>> {
    let contents = map_after(trees[lineage].last().contents, entries);
    if contents == trees[lineage].last().contents {
        trees
    } else {
        trees.insert(lineage, with_version(trees[lineage], TreeVersion { version, contents }))
    }
}

/// Removes the versions that no query from the given version on needs by `LargeSmtForest::truncate`.
/// The latest version of each lineage stays.
#[verifier::external_body]
pub(crate) fn forest_truncate(forest: &mut SmtForest, version: u64)
    requires
        is_forest(forest_trees(*old(forest))),
    ensures
        forest_trees(*final(forest)) == truncated_trees(forest_trees(*old(forest)), version),
{
    forest.forest.truncate(version)
}

// ROOTS AND HASHES
// ================================================================================================

/// The root of an empty tree by `Smt::root`.
#[verifier::external_body]
pub(crate) fn empty_tree_root() -> (r: Word)
    ensures
        r == smt_root_of(vstd::map::Map::empty()),
{
    let root = Smt::new().root();
    let [a, b, c, d] = root.into_elements().map(|element| element.as_canonical_u64());
    Word(a, b, c, d)
}

/// The 32 bytes that `Blake3_256::hash` returns for bytes.
pub uninterp spec fn blake3_of(bytes: Seq<u8>) -> Seq<u8>;

/// Hashes bytes by `Blake3_256::hash`.
#[verifier::external_body]
pub(crate) fn blake3_hash(bytes: &Vec<u8>) -> (r: [u8; 32])
    ensures
        r@ == blake3_of(bytes@),
{
    Blake3_256::hash(bytes).into()
}

/// The word that `StorageMapKey::hash` returns for a key.
pub uninterp spec fn map_key_hash_of(key: Word) -> Word;

/// Hashes the key of a storage map by `StorageMapKey::hash`.
#[verifier::external_body]
pub(crate) fn map_key_hash(key: Word) -> (r: Word)
    ensures
        r == map_key_hash_of(key),
        r.is_canonical(),
{
    let Word(a, b, c, d) = key;
    let hash = StorageMapKey::new([a, b, c, d].map(Felt::new).into()).hash();
    let [a, b, c, d] = hash.as_word().into_elements().map(|element| element.as_canonical_u64());
    Word(a, b, c, d)
}

// LAWS
// ================================================================================================

/// A version that is added last is what later queries see, and earlier queries see what they saw
/// before as long as the history has room for it.
pub proof fn lemma_added_version(versions: Seq<TreeVersion>, added: TreeVersion, version: u64)
    requires
        0 < versions.len(),
        has_ascending_versions(versions),
        versions.last().version < added.version,
    ensures
        has_ascending_versions(with_version(versions, added)),
        version >= added.version ==> contents_at(with_version(versions, added), version) == Some(
            added.contents,
        ),
        version < added.version && versions.len() <= MAX_TREE_HISTORY ==> contents_at(
            with_version(versions, added),
            version,
        ) == contents_at(versions, version),
        version < added.version && versions.len() > MAX_TREE_HISTORY ==> contents_at(
            with_version(versions, added),
            version,
        ) == contents_at(versions.drop_first(), version),
{
    let kept = if versions.len() > MAX_TREE_HISTORY {
        versions.drop_first()
    } else {
        versions
    };
    assert(with_version(versions, added).drop_last() =~= kept);
    assert(has_ascending_versions(kept)) by {
        assert forall|i: int, j: int| 0 <= i < j < kept.len() implies (#[trigger] kept[i]).version < (
        #[trigger] kept[j]).version by {
            let offset = versions.len() - kept.len();
            assert(kept[i] == versions[i + offset] && kept[j] == versions[j + offset]);
        }
    }
    assert forall|i: int, j: int| 0 <= i < j < kept.push(added).len() implies (#[trigger] kept.push(
        added,
    )[i]).version < (#[trigger] kept.push(added)[j]).version by {
        if j == kept.len() {
            if i < kept.len() - 1 {
                assert(kept[i].version < kept[kept.len() - 1].version);
            }
        }
    }
}

proof fn lemma_newer_contents(versions: Seq<TreeVersion>, version: u64)
    requires
        versions.len() >= 2,
        has_ascending_versions(versions),
        versions[1].version <= version,
    ensures
        contents_at(versions.drop_first(), version) == contents_at(versions, version),
    decreases versions.len(),
{
    let rest = versions.drop_first();
    assert(rest.last() == versions.last());
    if versions.last().version > version {
        let shorter = versions.drop_last();
        assert(shorter.len() >= 2) by {
            if versions.len() == 2 {
                assert(versions[1] == versions.last());
            }
        }
        assert forall|i: int, j: int| 0 <= i < j < shorter.len() implies (
        #[trigger] shorter[i]).version < (#[trigger] shorter[j]).version by {
            assert(shorter[i] == versions[i] && shorter[j] == versions[j]);
        }
        lemma_newer_contents(shorter, version);
        assert(shorter.drop_first() =~= rest.drop_last());
    }
}

/// Truncation changes nothing for queries from the given version on, and keeps the latest version.
pub proof fn lemma_truncation_keeps_recent(
    versions: Seq<TreeVersion>,
    cutoff: u64,
    version: u64,
)
    requires
        0 < versions.len(),
        has_ascending_versions(versions),
        version >= cutoff,
    ensures
        contents_at(truncated(versions, cutoff), version) == contents_at(versions, version),
        0 < truncated(versions, cutoff).len() <= versions.len(),
        truncated(versions, cutoff).last() == versions.last(),
        has_ascending_versions(truncated(versions, cutoff)),
    decreases versions.len(),
{
    if versions.len() >= 2 && versions[1].version <= cutoff {
        let rest = versions.drop_first();
        assert forall|i: int, j: int| 0 <= i < j < rest.len() implies (#[trigger] rest[i]).version < (
        #[trigger] rest[j]).version by {
            assert(rest[i] == versions[i + 1] && rest[j] == versions[j + 1]);
        }
        lemma_newer_contents(versions, version);
        lemma_truncation_keeps_recent(rest, cutoff, version);
    }
}

/// Truncation makes no tree longer.
pub proof fn lemma_fewer_trees(
    before: vstd::map::Map<Seq<u8>, Seq<TreeVersion>>,
    after: vstd::map::Map<Seq<u8>, Seq<TreeVersion>>,
)
    requires
        before.dom().finite(),
        before.dom() == after.dom(),
        forall|lineage: Seq<u8>| #[trigger]
            before.contains_key(lineage) ==> after[lineage].len() <= before[lineage].len(),
    ensures
        count_trees(after) <= count_trees(before),
    decreases before.dom().len(),
{
    if before.dom().len() > 0 {
        let lineage = before.dom().choose();
        assert(before.contains_key(lineage)) by {
            vstd::set_lib::lemma_set_empty_equivalency_len(before.dom());
        }
        let rest_before = before.remove(lineage);
        let rest_after = after.remove(lineage);
        assert(rest_before.dom() =~= rest_after.dom());
        assert forall|l: Seq<u8>| #[trigger] rest_before.contains_key(l) implies rest_after[l].len()
            <= rest_before[l].len() by {
            assert(before.contains_key(l));
        }
        lemma_fewer_trees(rest_before, rest_after);
    }
}

} // verus!
