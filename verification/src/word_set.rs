//! Sets of words.

use vstd::prelude::*;

use crate::word::Word;

verus! {

/// Whether a word comes before another one: words are ordered by their last elements that differ.
pub open spec fn comes_before(a: Word, b: Word) -> bool {
    ||| a.3 < b.3
    ||| a.3 == b.3 && a.2 < b.2
    ||| a.3 == b.3 && a.2 == b.2 && a.1 < b.1
    ||| a.3 == b.3 && a.2 == b.2 && a.1 == b.1 && a.0 < b.0
}

/// Returns whether a word comes before another one.
pub fn is_before(a: Word, b: Word) -> (r: bool)
    ensures
        r == comes_before(a, b),
{
    if a.3 != b.3 {
        a.3 < b.3
    } else if a.2 != b.2 {
        a.2 < b.2
    } else if a.1 != b.1 {
        a.1 < b.1
    } else {
        a.0 < b.0
    }
}

/// A set of words, in ascending order.
#[derive(Clone, Debug, PartialEq, Eq)]
pub struct WordSet {
    pub words: Vec<Word>,
}

impl View for WordSet {
    type V = Set<Word>;

    open spec fn view(&self) -> Set<Word> {
        self.words@.to_set()
    }
}

impl WordSet {
    /// Whether the words are in ascending order, none twice.
    pub open spec fn is_valid(self) -> bool {
        forall|i: int, j: int|
            0 <= i < j < self.words@.len() ==> comes_before(
                #[trigger] self.words@[i],
                #[trigger] self.words@[j],
            )
    }

    /// Creates an empty set.
    pub fn new() -> (r: Self)
        ensures
            r.is_valid(),
            r@ == Set::<Word>::empty(),
    {
        let r = WordSet { words: Vec::new() };
        assert(r@ =~= Set::<Word>::empty());
        r
    }

    fn position(&self, word: Word) -> (r: usize)
        requires
            self.is_valid(),
        ensures
            r <= self.words@.len(),
            forall|i: int| 0 <= i < r ==> comes_before(#[trigger] self.words@[i], word),
            forall|i: int|
                r <= i < self.words@.len() ==> !comes_before(#[trigger] self.words@[i], word),
    {
        let mut i: usize = 0;
        while i < self.words.len() && is_before(self.words[i], word)
            invariant
                i <= self.words@.len(),
                forall|k: int| 0 <= k < i ==> comes_before(#[trigger] self.words@[k], word),
            decreases self.words@.len() - i,
        {
            i = i + 1;
        }
        proof {
            if i < self.words@.len() {
                assert forall|k: int| i <= k < self.words@.len() implies !comes_before(
                    #[trigger] self.words@[k],
                    word,
                ) by {
                    if k > i {
                        assert(comes_before(self.words@[i as int], self.words@[k]));
                    }
                }
            }
        }
        i
    }

    /// Adds a word.
    pub fn insert(&mut self, word: Word)
        requires
            old(self).is_valid(),
        ensures
            final(self).is_valid(),
            final(self)@ == old(self)@.insert(word),
    {
        let ghost before = self.words@;
        let i = self.position(word);
        if i < self.words.len() && self.words[i] == word {
            assert(before[i as int] == word);
            assert(self@ =~= old(self)@.insert(word));
            return;
        }
        self.words.insert(i, word);
        proof {
            let after = self.words@;
            assert(after =~= before.insert(i as int, word));
            assert forall|a: int, b: int| 0 <= a < b < after.len() implies comes_before(
                #[trigger] after[a],
                #[trigger] after[b],
            ) by {
                let old_a = if a < i { a } else { a - 1 };
                let old_b = if b < i { b } else { b - 1 };
                if a != i {
                    assert(after[a] == before[old_a]);
                }
                if b != i {
                    assert(after[b] == before[old_b]);
                }
                if a == i {
                    assert(!comes_before(before[i as int], word) && before[i as int] != word);
                    assert(comes_before(before[i as int], before[old_b]) || old_b == i);
                }
            }
            assert forall|x: Word| after.contains(x) <==> before.contains(x) || x == word by {
                if after.contains(x) {
                    let k = choose|k: int| 0 <= k < after.len() && after[k] == x;
                    if k < i {
                        assert(before[k] == x);
                    } else if k > i {
                        assert(before[k - 1] == x);
                    }
                }
                if before.contains(x) {
                    let k = choose|k: int| 0 <= k < before.len() && before[k] == x;
                    if k < i {
                        assert(after[k] == x);
                    } else {
                        assert(after[k + 1] == x);
                    }
                }
                if x == word {
                    assert(after[i as int] == x);
                }
            }
            assert(self@ =~= old(self)@.insert(word));
        }
    }
}

/// Of two words that differ one comes before the other, and not the other way round. The element that
/// decides is the last one in which they differ.
pub proof fn lemma_words_are_ordered(a: Word, b: Word, c: Word)
    ensures
        !comes_before(a, a),
        a != b ==> comes_before(a, b) || comes_before(b, a),
        !(comes_before(a, b) && comes_before(b, a)),
        comes_before(a, b) && comes_before(b, c) ==> comes_before(a, c),
        a.3 < b.3 ==> comes_before(a, b),
        a.3 == b.3 && a.2 < b.2 ==> comes_before(a, b),
        a.3 == b.3 && a.2 == b.2 && a.1 < b.1 ==> comes_before(a, b),
        a.3 == b.3 && a.2 == b.2 && a.1 == b.1 && a.0 < b.0 ==> comes_before(a, b),
{
}

/// A set of words holds each of its words once, in ascending order.
pub proof fn lemma_words_are_held_once(set: WordSet, i: int, j: int)
    requires
        set.is_valid(),
        0 <= i < j < set.words@.len(),
    ensures
        set.words@[i] != set.words@[j],
        set.words@[i].3 <= set.words@[j].3,
{
}

} // verus!
