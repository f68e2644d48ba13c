//! Which blocks are proven, and which of them form a sequence that starts with the genesis block.

use vstd::prelude::*;

use crate::block_number::BlockNumber;

verus! {

/// Whether a block is proven, and whether all blocks before it are proven too.
#[derive(Clone, Copy, Debug, PartialEq, Eq, Structural)]
pub struct ProvenRow {
    pub proven: bool,
    pub proven_in_sequence: bool,
}

/// Whether all blocks up to the given one are proven.
pub open spec fn proven_up_to(rows: Seq<ProvenRow>, block_num: int) -> bool {
    forall|i: int| 0 <= i <= block_num ==> (#[trigger] rows[i]).proven
}

/// The rows of all blocks, in the order of their numbers. The genesis block is proven from the
/// start.
#[derive(Clone, Debug, PartialEq, Eq)]
pub struct ProvenBlocks {
    pub rows: Vec<ProvenRow>,
}

impl ProvenBlocks {
    /// Whether there is a proven genesis block, and a block is marked as proven in sequence exactly
    /// if all blocks up to it are proven.
    pub open spec fn is_valid(self) -> bool {
        &&& 0 < self.rows@.len() <= u32::MAX
        &&& self.rows@[0].proven
        &&& forall|i: int|
            0 <= i < self.rows@.len() ==> ((#[trigger] self.rows@[i]).proven_in_sequence
                <==> proven_up_to(self.rows@, i))
    }

    /// Whether a block is the latest one that is proven in sequence.
    pub open spec fn is_tip(self, tip: BlockNumber) -> bool {
        &&& tip@ < self.rows@.len()
        &&& proven_up_to(self.rows@, tip@)
        &&& tip@ + 1 < self.rows@.len() ==> !self.rows@[tip@ + 1].proven
    }

    /// Creates the rows of a chain that consists of the genesis block.
    pub fn new() -> (r: Self)
        ensures
            r.is_valid(),
            r.rows@ == seq![ProvenRow { proven: true, proven_in_sequence: true }],
    {
        let mut rows: Vec<ProvenRow> = Vec::new();
        rows.push(ProvenRow { proven: true, proven_in_sequence: true });
        ProvenBlocks { rows }
    }

    /// Adds the next block, which is not proven yet.
    pub fn add_block(&mut self)
        requires
            old(self).is_valid(),
            old(self).rows@.len() < u32::MAX,
        ensures
            final(self).is_valid(),
            final(self).rows@ == old(self).rows@.push(
                ProvenRow { proven: false, proven_in_sequence: false },
            ),
    {
        self.rows.push(ProvenRow { proven: false, proven_in_sequence: false });
        assert forall|i: int| 0 <= i < self.rows@.len() implies ((
        #[trigger] self.rows@[i]).proven_in_sequence <==> proven_up_to(self.rows@, i)) by {
            let before = old(self).rows@;
            if i < before.len() {
                assert(self.rows@[i] == before[i]);
                if proven_up_to(before, i) {
                    assert forall|k: int| 0 <= k <= i implies (#[trigger] self.rows@[k]).proven by {
                        assert(before[k].proven);
                    }
                }
                if proven_up_to(self.rows@, i) {
                    assert forall|k: int| 0 <= k <= i implies (#[trigger] before[k]).proven by {
                        assert(self.rows@[k].proven);
                    }
                }
            }
        }
    }

    /// Returns the latest block that is proven in sequence.
    pub fn latest_proven_in_sequence(&self) -> (r: BlockNumber)
        requires
            self.is_valid(),
        ensures
            self.is_tip(r),
    {
        let mut tip: usize = 0;
        while tip + 1 < self.rows.len() && self.rows[tip + 1].proven_in_sequence
            invariant
                self.is_valid(),
                tip < self.rows@.len(),
                self.rows@[tip as int].proven_in_sequence,
            decreases self.rows@.len() - tip,
        {
            tip = tip + 1;
        }
        proof {
            assert(proven_up_to(self.rows@, tip as int));
            if tip + 1 < self.rows@.len() && self.rows@[tip + 1].proven {
                assert(proven_up_to(self.rows@, tip + 1));
                assert(self.rows@[tip + 1].proven_in_sequence);
            }
        }
        BlockNumber(tip as u32)
    }

    /// Marks a block as proven, and all blocks that are proven in sequence now as such. Returns those
    /// of them that were not before, in ascending order.
    pub fn mark_proven_and_advance_sequence(&mut self, block_num: BlockNumber) -> (r: Vec<
        BlockNumber,
    >)
        requires
            old(self).is_valid(),
            block_num@ < old(self).rows@.len(),
        ensures
            final(self).is_valid(),
            final(self).rows@.len() == old(self).rows@.len(),
            forall|i: int|
                0 <= i < old(self).rows@.len() ==> (#[trigger] final(self).rows@[i]).proven == (i
                    == block_num@ || old(self).rows@[i].proven),
            forall|before: BlockNumber, after: BlockNumber|
                old(self).is_tip(before) && final(self).is_tip(after) ==> r@ == #[trigger]
                blocks_between(before, after),
    {
        let number: usize = block_num.0 as usize;
        let tip = self.latest_proven_in_sequence();
        let mut next: usize = tip.0 as usize;
        let mut advanced: Vec<BlockNumber> = Vec::new();
        let ghost before = self.rows@;
        let row = self.rows[number];
        self.rows.set(number, ProvenRow { proven: true, ..row });
        let ghost marked = self.rows@;
        proof {
            assert forall|i: int| 0 <= i < tip@ + 1 implies (
            #[trigger] self.rows@[i]).proven_in_sequence by {
                assert(before[i].proven_in_sequence) by {
                    assert(proven_up_to(before, i));
                }
            }
        }
        while next + 1 < self.rows.len() && self.rows[next + 1].proven
            invariant
                tip@ <= next < self.rows@.len() <= u32::MAX,
                self.rows@.len() == marked.len(),
                before.len() == marked.len(),
                advanced@ =~= blocks_between(tip, BlockNumber(next as u32)),
                forall|i: int|
                    0 <= i < marked.len() ==> (#[trigger] self.rows@[i]).proven == marked[i].proven,
                forall|i: int| 0 <= i <= next ==> (#[trigger] self.rows@[i]).proven_in_sequence,
                forall|i: int| 0 <= i <= next ==> (#[trigger] self.rows@[i]).proven,
                forall|i: int| next < i < marked.len() ==> #[trigger] self.rows@[i] == marked[i],
            decreases self.rows@.len() - next,
        {
            next = next + 1;
            let row = self.rows[next];
            self.rows.set(next, ProvenRow { proven_in_sequence: true, ..row });
            advanced.push(BlockNumber(next as u32));
        }
        proof {
            assert(proven_up_to(self.rows@, next as int));
            assert forall|i: int| 0 <= i < self.rows@.len() implies ((
            #[trigger] self.rows@[i]).proven_in_sequence <==> proven_up_to(self.rows@, i)) by {
                if i <= next {
                    assert(proven_up_to(self.rows@, i));
                } else {
                    assert(!self.rows@[next + 1].proven);
                    assert(!proven_up_to(self.rows@, i));
                    assert(self.rows@[i] == marked[i]);
                    assert(marked[i].proven_in_sequence == before[i].proven_in_sequence);
                    if before[i].proven_in_sequence {
                        assert(proven_up_to(before, i));
                        assert(before[next + 1].proven);
                        assert(marked[next + 1].proven);
                    }
                }
            }
        }
        proof {
            let end = BlockNumber(next as u32);
            assert(self.is_tip(end));
            assert forall|start: BlockNumber, after: BlockNumber|
                old(self).is_tip(start) && self.is_tip(after) implies advanced@ == #[trigger]
            blocks_between(start, after) by {
                lemma_one_tip(*old(self), start, tip);
                lemma_one_tip(*self, after, end);
            }
        }
        advanced
    }

    /// The first `count` of the blocks after the given one that are not proven, in ascending order.
    pub open spec fn unproven_from(self, block_num: int, count: nat) -> Seq<BlockNumber>
        decreases self.rows@.len() - block_num,
    {
        if block_num >= self.rows@.len() || block_num < 0 || count == 0 {
            Seq::empty()
        } else if self.rows@[block_num].proven {
            self.unproven_from(block_num + 1, count)
        } else {
            seq![BlockNumber(block_num as u32)] + self.unproven_from(
                block_num + 1,
                (count - 1) as nat,
            )
        }
    }

    /// Returns the first `limit` blocks after the given one that are not proven.
    pub fn select_unproven_blocks(&self, after: BlockNumber, limit: usize) -> (r: Vec<BlockNumber>)
        requires
            self.is_valid(),
        ensures
            r@ == self.unproven_from(after@ + 1, limit as nat),
    {
        let mut unproven: Vec<BlockNumber> = Vec::new();
        let mut next: u64 = after.0 as u64 + 1;
        while next < self.rows.len() as u64 && unproven.len() < limit
            invariant
                self.is_valid(),
                next >= 1,
                unproven@.len() <= limit,
                unproven@ + self.unproven_from(next as int, (limit - unproven@.len()) as nat)
                    =~= self.unproven_from(after@ + 1, limit as nat),
            decreases self.rows@.len() - next,
        {
            let ghost before = unproven@;
            if !self.rows[next as usize].proven {
                unproven.push(BlockNumber(next as u32));
                assert(unproven@ + self.unproven_from(
                    next + 1,
                    (limit - unproven@.len()) as nat,
                ) =~= before + self.unproven_from(next as int, (limit - before.len()) as nat));
            }
            next = next + 1;
        }
        unproven
    }
}

/// The blocks after the first one up to the second one, in ascending order.
pub open spec fn blocks_between(before: BlockNumber, after: BlockNumber) -> Seq<BlockNumber> {
    if before@ < after@ {
        Seq::new((after@ - before@) as nat, |i: int| BlockNumber((before@ + 1 + i) as u32))
    } else {
        Seq::empty()
    }
}

/// There is but one latest block that is proven in sequence.
pub proof fn lemma_one_tip(blocks: ProvenBlocks, a: BlockNumber, b: BlockNumber)
    requires
        blocks.is_tip(a),
        blocks.is_tip(b),
    ensures
        a == b,
{
    if a@ < b@ {
        assert(blocks.rows@[a@ + 1].proven);
    } else if b@ < a@ {
        assert(blocks.rows@[b@ + 1].proven);
    }
}

/// A block that is proven in sequence stays so, and the latest one never gets smaller.
pub proof fn lemma_sequence_only_grows(
    before: ProvenBlocks,
    after: ProvenBlocks,
    block_num: BlockNumber,
    tip_before: BlockNumber,
    tip_after: BlockNumber,
)
    requires
        before.is_valid(),
        after.is_valid(),
        before.rows@.len() == after.rows@.len(),
        forall|i: int|
            0 <= i < before.rows@.len() ==> (#[trigger] after.rows@[i]).proven == (i == block_num@
                || before.rows@[i].proven),
        before.is_tip(tip_before),
        after.is_tip(tip_after),
    ensures
        tip_before@ <= tip_after@,
        forall|i: int|
            0 <= i < before.rows@.len() && before.rows@[i].proven_in_sequence ==> (
            #[trigger] after.rows@[i]).proven_in_sequence,
{
    assert forall|i: int| 0 <= i < before.rows@.len() && before.rows@[i].proven_in_sequence implies (
    #[trigger] after.rows@[i]).proven_in_sequence by {
        assert(proven_up_to(before.rows@, i));
        assert forall|k: int| 0 <= k <= i implies (#[trigger] after.rows@[k]).proven by {
            assert(before.rows@[k].proven);
        }
        assert(proven_up_to(after.rows@, i));
    }
    if tip_after@ < tip_before@ {
        assert(before.rows@[tip_after@ + 1].proven);
        assert(after.rows@[tip_after@ + 1].proven);
    }
}

/// The block that is proven in sequence last is proven, with all before it, and the block after it is
/// not.
pub proof fn lemma_tips_of_sequences(blocks: ProvenBlocks, tip: BlockNumber)
    requires
        blocks.is_valid(),
        blocks.is_tip(tip),
    ensures
        forall|i: int|
            0 <= i < blocks.rows@.len() ==> ((#[trigger] blocks.rows@[i]).proven_in_sequence <==> i
                <= tip.0),
        forall|i: int| 0 <= i <= tip.0 ==> (#[trigger] blocks.rows@[i]).proven,
        tip.0 + 1 < blocks.rows@.len() ==> !blocks.rows@[tip.0 + 1].proven,
{
    assert forall|i: int| 0 <= i < blocks.rows@.len() implies ((
    #[trigger] blocks.rows@[i]).proven_in_sequence <==> i <= tip.0) by {
        if i <= tip.0 {
            assert(proven_up_to(blocks.rows@, i));
        } else {
            assert(!blocks.rows@[tip.0 + 1].proven);
            assert(!proven_up_to(blocks.rows@, i));
        }
    }
}

/// The blocks between two are all those above the first and not above the second, in ascending order.
pub proof fn lemma_blocks_between(before: BlockNumber, after: BlockNumber)
    ensures
        forall|block: BlockNumber| #[trigger]
            blocks_between(before, after).contains(block) <==> before.0 < block.0 <= after.0,
        forall|i: int, j: int|
            0 <= i < j < blocks_between(before, after).len() ==> (
            #[trigger] blocks_between(before, after)[i]).0 < (
            #[trigger] blocks_between(before, after)[j]).0,
{
    assert forall|block: BlockNumber| before.0 < block.0 <= after.0 implies #[trigger]
        blocks_between(before, after).contains(block) by {
        assert(blocks_between(before, after)[block.0 - before.0 - 1] == block);
    }
}

/// The blocks that are not proven are listed in ascending order, none of them before the first block that
/// is asked for, and not more than are asked for. If fewer are listed, all of them are.
pub proof fn lemma_unproven_blocks(blocks: ProvenBlocks, block_num: int, count: nat)
    requires
        0 <= block_num,
        blocks.rows@.len() <= u32::MAX,
    ensures
        blocks.unproven_from(block_num, count).len() <= count,
        forall|i: int|
            0 <= i < blocks.unproven_from(block_num, count).len() ==> {
                let block = #[trigger] blocks.unproven_from(block_num, count)[i];
                block_num <= block.0 < blocks.rows@.len() && !blocks.rows@[block.0 as int].proven
            },
        forall|i: int, j: int|
            0 <= i < j < blocks.unproven_from(block_num, count).len() ==> (
            #[trigger] blocks.unproven_from(block_num, count)[i]).0 < (
            #[trigger] blocks.unproven_from(block_num, count)[j]).0,
        forall|block: BlockNumber|
            block_num <= block.0 < blocks.rows@.len() && !blocks.rows@[block.0 as int].proven && (
            blocks.unproven_from(block_num, count).len() < count || exists|i: int|
                0 <= i < blocks.unproven_from(block_num, count).len() && block.0 <= (
                #[trigger] blocks.unproven_from(block_num, count)[i]).0)
                ==> #[trigger] blocks.unproven_from(block_num, count).contains(block),
    decreases blocks.rows@.len() - block_num,
{
    let found = blocks.unproven_from(block_num, count);
    if block_num < blocks.rows@.len() && count > 0 {
        if blocks.rows@[block_num].proven {
            lemma_unproven_blocks(blocks, block_num + 1, count);
            assert forall|block: BlockNumber|
                block_num <= block.0 < blocks.rows@.len() && !blocks.rows@[block.0 as int].proven
                    && (found.len() < count || exists|i: int|
                    0 <= i < found.len() && block.0 <= (#[trigger] found[i]).0) implies
                #[trigger] found.contains(block) by {
                assert(block.0 != block_num);
            }
        } else {
            let rest = blocks.unproven_from(block_num + 1, (count - 1) as nat);
            lemma_unproven_blocks(blocks, block_num + 1, (count - 1) as nat);
            assert(found[0].0 == block_num);
            assert forall|i: int| 1 <= i < found.len() implies #[trigger] found[i] == rest[i - 1] by {
            }
            assert forall|i: int, j: int| 0 <= i < j < found.len() implies (#[trigger] found[i]).0 < (
            #[trigger] found[j]).0 by {
                assert(found[j] == rest[j - 1]);
                if i > 0 {
                    assert(found[i] == rest[i - 1]);
                }
            }
            assert forall|block: BlockNumber|
                block_num <= block.0 < blocks.rows@.len() && !blocks.rows@[block.0 as int].proven
                    && (found.len() < count || exists|i: int|
                    0 <= i < found.len() && block.0 <= (#[trigger] found[i]).0) implies
                #[trigger] found.contains(block) by {
                if block.0 == block_num {
                    assert(found[0] == block);
                } else {
                    if found.len() >= count {
                        let i = choose|i: int|
                            0 <= i < found.len() && block.0 <= (#[trigger] found[i]).0;
                        assert(rest[i - 1] == found[i]);
                    }
                    assert(rest.contains(block));
                    let j = choose|j: int| 0 <= j < rest.len() && rest[j] == block;
                    assert(found[j + 1] == block);
                }
            }
        }
    }
}

} // verus!
