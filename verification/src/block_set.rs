//! Sets of blocks.

use vstd::prelude::*;

use crate::block_number::BlockNumber;

verus! {

/// A set of blocks, in ascending order.
#[derive(Clone, Debug, PartialEq, Eq)]
pub struct BlockSet {
    pub blocks: Vec<BlockNumber>,
}

impl View for BlockSet {
    type V = Set<BlockNumber>;

    open spec fn view(&self) -> Set<BlockNumber> {
        self.blocks@.to_set()
    }
}

impl BlockSet {
    /// Whether the blocks are in ascending order, none twice.
    pub open spec fn is_valid(self) -> bool {
        forall|i: int, j: int|
            0 <= i < j < self.blocks@.len() ==> (#[trigger] self.blocks@[i])@ < (
            #[trigger] self.blocks@[j])@
    }

    /// Creates an empty set.
    pub fn new() -> (r: Self)
        ensures
            r.is_valid(),
            r@ == Set::<BlockNumber>::empty(),
    {
        let r = BlockSet { blocks: Vec::new() };
        assert(r@ =~= Set::<BlockNumber>::empty());
        r
    }

    /// Creates the set of the given blocks.
    pub fn from_blocks(blocks: &Vec<BlockNumber>) -> (r: Self)
        ensures
            r.is_valid(),
            r@ == blocks@.to_set(),
    {
        let mut r = BlockSet::new();
        r.extend(blocks);
        assert(r@ =~= blocks@.to_set());
        r
    }

    fn position(&self, block: BlockNumber) -> (r: usize)
        requires
            self.is_valid(),
        ensures
            r <= self.blocks@.len(),
            forall|i: int| 0 <= i < r ==> (#[trigger] self.blocks@[i])@ < block@,
            forall|i: int| r <= i < self.blocks@.len() ==> block@ <= (#[trigger] self.blocks@[i])@,
    {
        let mut i: usize = 0;
        while i < self.blocks.len() && self.blocks[i].0 < block.0
            invariant
                i <= self.blocks@.len(),
                forall|k: int| 0 <= k < i ==> (#[trigger] self.blocks@[k])@ < block@,
            decreases self.blocks@.len() - i,
        {
            i = i + 1;
        }
        proof {
            if i < self.blocks@.len() {
                assert forall|k: int| i <= k < self.blocks@.len() implies block@ <= (
                #[trigger] self.blocks@[k])@ by {
                    if k > i {
                        assert(self.blocks@[i as int]@ < self.blocks@[k]@);
                    }
                }
            }
        }
        i
    }

    /// Adds a block.
    pub fn insert(&mut self, block: BlockNumber)
        requires
            old(self).is_valid(),
        ensures
            final(self).is_valid(),
            final(self)@ == old(self)@.insert(block),
    {
        let ghost before = self.blocks@;
        let i = self.position(block);
        if i < self.blocks.len() && self.blocks[i].0 == block.0 {
            assert(before[i as int] == block);
            assert(self@ =~= old(self)@.insert(block));
            return;
        }
        proof {
            if i < before.len() {
                assert(before[i as int]@ != block@);
            }
        }
        self.blocks.insert(i, block);
        proof {
            let after = self.blocks@;
            assert(after =~= before.insert(i as int, block));
            assert forall|a: int, b: int| 0 <= a < b < after.len() implies (#[trigger] after[a])@ < (
            #[trigger] after[b])@ by {
                let old_a = if a < i { a } else { a - 1 };
                let old_b = if b < i { b } else { b - 1 };
                if a != i {
                    assert(after[a] == before[old_a]);
                }
                if b != i {
                    assert(after[b] == before[old_b]);
                }
                if a == i {
                    assert(before[i as int]@ < before[old_b]@ || old_b == i);
                }
            }
            assert forall|x: BlockNumber| after.contains(x) <==> before.contains(x) || x == block by {
                if after.contains(x) {
                    let k = choose|k: int| 0 <= k < after.len() && after[k] == x;
                    if k < i {
                        assert(before[k] == x);
                    } else if k > i {
                        assert(before[k - 1] == x);
                    }
                }
                if before.contains(x) {
                    let k = choose|k: int| 0 <= k < before.len() && before[k] == x;
                    if k < i {
                        assert(after[k] == x);
                    } else {
                        assert(after[k + 1] == x);
                    }
                }
                if x == block {
                    assert(after[i as int] == x);
                }
            }
            assert(self@ =~= old(self)@.insert(block));
        }
    }

    /// Adds blocks.
    pub fn extend(&mut self, blocks: &Vec<BlockNumber>)
        requires
            old(self).is_valid(),
        ensures
            final(self).is_valid(),
            final(self)@ == old(self)@.union(blocks@.to_set()),
    {
        let ghost start = self@;
        let mut i: usize = 0;
        assert(start =~= start.union(blocks@.take(0).to_set()));
        while i < blocks.len()
            invariant
                i <= blocks@.len(),
                self.is_valid(),
                start == old(self)@,
                self@ == start.union(blocks@.take(i as int).to_set()),
            decreases blocks@.len() - i,
        {
            let block = blocks[i];
            self.insert(block);
            proof {
                let before = blocks@.take(i as int);
                let after = blocks@.take(i + 1);
                assert(after =~= before.push(block));
                assert forall|x: BlockNumber| after.contains(x) <==> before.contains(x) || x
                    == block by {
                    if before.contains(x) {
                        let k = choose|k: int| 0 <= k < before.len() && before[k] == x;
                        assert(after[k] == x);
                    }
                    if x == block {
                        assert(after[i as int] == x);
                    }
                }
                assert(self@ =~= start.union(after.to_set()));
            }
            i = i + 1;
        }
        assert(blocks@.take(i as int) =~= blocks@);
    }

    /// Removes a block, if the set holds it.
    pub fn remove(&mut self, block: BlockNumber)
        requires
            old(self).is_valid(),
        ensures
            final(self).is_valid(),
            final(self)@ == old(self)@.remove(block),
    {
        let ghost before = self.blocks@;
        let i = self.position(block);
        if i < self.blocks.len() && self.blocks[i].0 == block.0 {
            let _ = self.blocks.remove(i);
            proof {
                let after = self.blocks@;
                assert(after =~= before.remove(i as int));
                assert forall|a: int, b: int| 0 <= a < b < after.len() implies (#[trigger] after[a])@
                    < (#[trigger] after[b])@ by {
                    let old_a = if a < i { a } else { a + 1 };
                    let old_b = if b < i { b } else { b + 1 };
                    assert(after[a] == before[old_a] && after[b] == before[old_b]);
                }
                assert forall|x: BlockNumber| after.contains(x) <==> before.contains(x) && x
                    != block by {
                    if after.contains(x) {
                        let k = choose|k: int| 0 <= k < after.len() && after[k] == x;
                        let old_k = if k < i { k } else { k + 1 };
                        assert(before[old_k] == x);
                        if old_k < i {
                            assert(before[old_k]@ < before[i as int]@);
                        } else {
                            assert(before[i as int]@ < before[old_k]@);
                        }
                    }
                    if before.contains(x) && x != block {
                        let k = choose|k: int| 0 <= k < before.len() && before[k] == x;
                        let new_k = if k < i { k } else { k - 1 };
                        assert(after[new_k] == x);
                    }
                }
                assert(self@ =~= old(self)@.remove(block));
            }
        } else {
            proof {
                if before.contains(block) {
                    let k = choose|k: int| 0 <= k < before.len() && before[k] == block;
                    if k >= i {
                        assert(block@ <= before[i as int]@);
                        if k > i {
                            assert(before[i as int]@ < before[k]@);
                        }
                    }
                    assert(false);
                }
                assert(self@ =~= old(self)@.remove(block));
            }
        }
    }

    /// Returns the highest block, or `None` if the set is empty.
    pub fn last(&self) -> (r: Option<BlockNumber>)
        requires
            self.is_valid(),
        ensures
            match r {
                None => self@ == Set::<BlockNumber>::empty(),
                Some(last) => self@.contains(last) && forall|block: BlockNumber|
                    #[trigger] self@.contains(block) ==> block@ <= last@,
            },
    {
        if self.blocks.len() == 0 {
            assert(self@ =~= Set::<BlockNumber>::empty());
            return None;
        }
        let last = self.blocks[self.blocks.len() - 1];
        proof {
            let count = self.blocks@.len();
            assert(self.blocks@[count - 1] == last);
            assert forall|block: BlockNumber| #[trigger] self@.contains(block) implies block@
                <= last@ by {
                let k = choose|k: int| 0 <= k < count && self.blocks@[k] == block;
                if k < count - 1 {
                    assert(self.blocks@[k]@ < self.blocks@[count - 1]@);
                }
            }
        }
        Some(last)
    }
}

} // verus!
