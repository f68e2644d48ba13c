//! How a replica follows an upstream store.

use vstd::prelude::*;
use vstd::string::*;

use crate::block_number::BlockNumber;
use crate::state::chain::{ChainTips, Finality};

verus! {

/// The time between two attempts to connect to the upstream store, in seconds.
pub const RECONNECT_DELAY_SECS: u64 = 5;

/// What a replica asks the upstream store for.
#[derive(Clone, Copy, Debug, PartialEq, Eq, Structural)]
pub enum SyncKind {
    Blocks,
    Proofs,
}

/// Returns the first block that a replica asks for: the one after those that it has.
pub fn first_block_to_request(kind: SyncKind, tips: ChainTips) -> (r: BlockNumber)
    requires
        kind == SyncKind::Blocks ==> tips.committed@ < u32::MAX,
    ensures
        r@ == (match kind {
            SyncKind::Blocks => tips.committed@ + 1,
            SyncKind::Proofs => if tips.proven@ < u32::MAX {
                tips.proven@ + 1
            } else {
                u32::MAX as int
            },
        }),
{
    match kind {
        SyncKind::Blocks => tips.chain_tip(Finality::Committed).child(),
        SyncKind::Proofs => tips.chain_tip(Finality::Proven).saturating_add(1),
    }
}

/// How a stream from the upstream store ended.
#[derive(Clone, Debug, PartialEq, Eq)]
pub enum StreamEnd {
    /// The stream ended without an error, which it is not expected to do.
    Ended,
    /// The connection failed, an item could not be decoded, or it could not be applied.
    Failed(String),
}

/// What a replica does once a stream ended: it waits and connects again, in either case.
#[derive(Clone, Debug, PartialEq, Eq)]
pub struct Reconnect {
    pub reason: String,
    pub delay_secs: u64,
}

/// Returns when to connect again once a stream ended.
pub fn reconnect(end: StreamEnd) -> (r: Reconnect)
    ensures
        r.delay_secs == RECONNECT_DELAY_SECS,
        match end {
            StreamEnd::Ended => r.reason@ == "unexpected end of stream"@,
            StreamEnd::Failed(error) => r.reason == error,
        },
{
    let reason = match end {
        StreamEnd::Ended => String::from_str("unexpected end of stream"),
        StreamEnd::Failed(error) => error,
    };
    Reconnect { reason, delay_secs: RECONNECT_DELAY_SECS }
}

} // verus!
