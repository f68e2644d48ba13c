//! Block numbers.

use vstd::prelude::*;

verus! {

/// The position of a block in the chain. The genesis block has number zero.
#[derive(Clone, Copy, Debug, PartialEq, Eq, Hash, PartialOrd, Ord, Structural)]
pub struct BlockNumber(pub u32);

impl View for BlockNumber {
    type V = int;

    open spec fn view(&self) -> int {
        self.0 as int
    }
}

impl From<u32> for BlockNumber {
    fn from(value: u32) -> (r: Self) {
        BlockNumber(value)
    }
}

impl vstd::std_specs::convert::FromSpecImpl<u32> for BlockNumber {
    open spec fn obeys_from_spec() -> bool {
        true
    }

    open spec fn from_spec(value: u32) -> Self {
        BlockNumber(value)
    }
}

impl BlockNumber {
    /// Returns the number of the genesis block.
    #[verifier::allow_in_spec]
    pub fn genesis() -> BlockNumber
        returns
            BlockNumber(0),
    {
        BlockNumber(0)
    }

    /// Returns the number as a `u32`.
    pub fn as_u32(&self) -> (r: u32)
        ensures
            r == self.0,
    {
        self.0
    }

    /// Returns the number as a `u64`.
    pub fn as_u64(&self) -> (r: u64)
        ensures
            r == self.0,
    {
        self.0 as u64
    }

    /// Returns the number of the block that follows this one.
    pub fn child(self) -> (r: BlockNumber)
        requires
            self.0 < u32::MAX,
        ensures
            r@ == self@ + 1,
    {
        BlockNumber(self.0 + 1)
    }

    /// Returns the number `rhs` blocks earlier, stopping at genesis.
    pub fn saturating_sub(self, rhs: u32) -> (r: BlockNumber)
        ensures
            r@ == (if self@ >= rhs { self@ - rhs } else { 0 }),
    {
        BlockNumber(self.0.saturating_sub(rhs))
    }

    /// Returns the number `rhs` blocks later, stopping at the largest number.
    pub fn saturating_add(self, rhs: u32) -> (r: BlockNumber)
        ensures
            r@ == (if self@ + rhs <= u32::MAX { self@ + rhs } else { u32::MAX as int }),
    {
        BlockNumber(self.0.saturating_add(rhs))
    }
}

/// An inclusive range of blocks.
#[derive(Clone, Copy, Debug, PartialEq, Eq, Structural)]
pub struct BlockRange {
    pub start: BlockNumber,
    pub end: BlockNumber,
}

impl BlockRange {
    /// Whether the range holds no block.
    pub open spec fn spec_is_empty(&self) -> bool {
        self.start@ > self.end@
    }

    /// Creates the range from `start` to `end`, both inclusive.
    pub fn new(start: BlockNumber, end: BlockNumber) -> (r: Self)
        ensures
            r.start == start,
            r.end == end,
    {
        BlockRange { start, end }
    }

    /// Returns whether the range holds no block.
    #[verifier::when_used_as_spec(spec_is_empty)]
    pub fn is_empty(&self) -> (r: bool)
        ensures
            r == self.spec_is_empty(),
    {
        self.start.0 > self.end.0
    }
}

} // verus!
