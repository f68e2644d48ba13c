//! Words of four field elements.

use vstd::prelude::*;

verus! {

/// The order of the prime field whose elements make up a word.
pub const FIELD_ORDER: u64 = 0xFFFF_FFFF_0000_0001;

/// Four field elements, each in its canonical form.
#[derive(Clone, Copy, Debug, PartialEq, Eq, Hash, PartialOrd, Ord, Structural)]
pub struct Word(pub u64, pub u64, pub u64, pub u64);

impl Default for Word {
    fn default() -> (r: Self)
        ensures
            r == Word::empty(),
    {
        Word::empty()
    }
}

impl Word {
    /// Returns the word whose elements are all zero.
    #[verifier::allow_in_spec]
    pub fn empty() -> Word
        returns
            Word(0, 0, 0, 0),
    {
        Word(0, 0, 0, 0)
    }

    /// Whether every element lies below the field order.
    pub open spec fn is_canonical(self) -> bool {
        &&& self.0 < FIELD_ORDER
        &&& self.1 < FIELD_ORDER
        &&& self.2 < FIELD_ORDER
        &&& self.3 < FIELD_ORDER
    }

    /// Builds a word from four integers, or returns `None` if one of them is not in the modulus
    /// range of the field.
    pub fn from_elements(d0: u64, d1: u64, d2: u64, d3: u64) -> (r: Option<Word>)
        ensures
            r is Some <==> Word(d0, d1, d2, d3).is_canonical(),
            r matches Some(w) ==> w == Word(d0, d1, d2, d3),
    {
        if d0 < FIELD_ORDER && d1 < FIELD_ORDER && d2 < FIELD_ORDER && d3 < FIELD_ORDER {
            Some(Word(d0, d1, d2, d3))
        } else {
            None
        }
    }

    /// Returns whether every element lies below the field order.
    pub fn check_canonical(&self) -> (r: bool)
        ensures
            r == self.is_canonical(),
    {
        self.0 < FIELD_ORDER && self.1 < FIELD_ORDER && self.2 < FIELD_ORDER && self.3 < FIELD_ORDER
    }

    /// Returns whether all elements are zero.
    pub fn is_empty(&self) -> (r: bool)
        ensures
            r == (*self == Word::empty()),
    {
        *self == Word::empty()
    }
}

/// The elements of a word are canonical if they lie below the order of the field, which is
/// 2^64 - 2^32 + 1.
pub proof fn lemma_canonical_words(word: Word)
    ensures
        word.is_canonical() <==> word.0 < 0xFFFF_FFFF_0000_0001 && word.1 < 0xFFFF_FFFF_0000_0001
            && word.2 < 0xFFFF_FFFF_0000_0001 && word.3 < 0xFFFF_FFFF_0000_0001,
{
}

} // verus!
