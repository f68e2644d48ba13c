//! Deferred proving of blocks: which blocks are proven next, and when the proof of a block is tried
//! again.

use vstd::prelude::*;

use crate::block_number::BlockNumber;
use crate::db::proven::ProvenBlocks;
use crate::errors::DatabaseError;

verus! {

/// The time that one attempt at the proof of a block may take, in seconds.
pub const BLOCK_PROVE_ATTEMPT_TIMEOUT_SECS: u64 = 240;

/// The time that all attempts at the proof of a block may take together, in seconds.
pub const BLOCK_PROVE_OVERALL_TIMEOUT_SECS: u64 = 720;

/// The number of attempts at the proof of a block.
pub const MAX_PROVE_ATTEMPTS: u32 = 3;

/// The number of blocks that are proven at the same time by default.
pub const DEFAULT_MAX_CONCURRENT_PROOFS: usize = 8;

// ERRORS
// ================================================================================================

/// Errors that end the scheduler.
#[derive(Clone, Debug, PartialEq, Eq)]
pub enum ProofSchedulerError {
    /// What the proof of a block starts from is not there.
    MissingProvingInputs(BlockNumber),
    /// What the proof of a block starts from cannot be decoded.
    DeserializationFailed,
    /// The address of the prover is not one.
    InvalidProverEndpoint(String),
}

/// Errors of the client of a remote prover.
#[derive(Clone, Debug, PartialEq, Eq)]
pub enum RemoteProverClientError {
    /// The address of the prover is not one.
    InvalidEndpoint(String),
    /// The prover could not be reached.
    ConnectionFailed(String),
    /// Any other error.
    Other(String),
}

/// Errors of a prover.
#[derive(Clone, Debug, PartialEq, Eq)]
pub enum StoreProverError {
    /// The prover of this process failed.
    LocalProvingFailed(String),
    /// The remote prover failed.
    RemoteProvingFailed(RemoteProverClientError),
}

/// Errors that another attempt may not meet.
#[derive(Clone, Debug, PartialEq, Eq)]
pub enum TransientError {
    Database(DatabaseError),
    Prover(StoreProverError),
}

/// Errors of an attempt at the proof of a block.
#[derive(Clone, Debug, PartialEq, Eq)]
pub enum ProveBlockError {
    /// Every attempt would meet the error.
    Fatal(ProofSchedulerError),
    /// Another attempt may succeed.
    Transient(TransientError),
}

impl ProveBlockError {
    /// Tells whether an error of the database is worth another attempt: not if the data cannot be
    /// decoded.
    pub fn from_db_error(err: DatabaseError) -> (r: Self)
        ensures
            r == (if err == DatabaseError::DeserializationError {
                ProveBlockError::Fatal(ProofSchedulerError::DeserializationFailed)
            } else {
                ProveBlockError::Transient(TransientError::Database(err))
            }),
    {
        match err {
            DatabaseError::DeserializationError => ProveBlockError::Fatal(
                ProofSchedulerError::DeserializationFailed,
            ),
            other => ProveBlockError::Transient(TransientError::Database(other)),
        }
    }

    /// Tells whether an error of the prover is worth another attempt: not if its address is wrong.
    pub fn from_prover_error(err: StoreProverError) -> (r: Self)
        ensures
            match err {
                StoreProverError::RemoteProvingFailed(
                    RemoteProverClientError::InvalidEndpoint(uri),
                ) => r == ProveBlockError::Fatal(ProofSchedulerError::InvalidProverEndpoint(uri)),
                _ => r == ProveBlockError::Transient(TransientError::Prover(err)),
            },
    {
        match err {
            StoreProverError::RemoteProvingFailed(
                RemoteProverClientError::InvalidEndpoint(uri),
            ) => ProveBlockError::Fatal(ProofSchedulerError::InvalidProverEndpoint(uri)),
            other => ProveBlockError::Transient(TransientError::Prover(other)),
        }
    }
}

// PROVING A BLOCK
// ================================================================================================

/// Takes what was read to prove a block. Every block that is not proven has it.
pub fn check_proving_inputs<T>(
    inputs: Result<Option<T>, DatabaseError>,
    block_num: BlockNumber,
) -> (r: Result<T, ProveBlockError>)
    ensures
        match inputs {
            Err(DatabaseError::DeserializationError) => r == Err::<T, ProveBlockError>(
                ProveBlockError::Fatal(ProofSchedulerError::DeserializationFailed),
            ),
            Err(error) => r == Err::<T, ProveBlockError>(
                ProveBlockError::Transient(TransientError::Database(error)),
            ),
            Ok(None) => r == Err::<T, ProveBlockError>(
                ProveBlockError::Fatal(ProofSchedulerError::MissingProvingInputs(block_num)),
            ),
            Ok(Some(inputs)) => r == Ok::<T, ProveBlockError>(inputs),
        },
{
    match inputs {
        Err(error) => Err(ProveBlockError::from_db_error(error)),
        Ok(None) => Err(
            ProveBlockError::Fatal(ProofSchedulerError::MissingProvingInputs(block_num)),
        ),
        Ok(Some(inputs)) => Ok(inputs),
    }
}

/// How an attempt at the proof of a block ended.
#[derive(Clone, Debug, PartialEq, Eq)]
pub enum AttemptOutcome {
    /// With the encoded proof.
    Proven(Vec<u8>),
    /// With an error.
    Failed(ProveBlockError),
    /// It took too long.
    TimedOut,
}

/// Why there is no proof of a block.
#[derive(Clone, Debug, PartialEq, Eq)]
pub enum ProveFailure {
    /// Every further attempt would fail too.
    Fatal(ProofSchedulerError),
    /// All attempts failed.
    TooManyAttempts { block_num: BlockNumber, attempts: u32 },
}

/// What to do after an attempt.
#[derive(Clone, Debug, PartialEq, Eq)]
pub enum ProveAction {
    /// Save the proof, tell subscribers, mark the block as proven and advance the proven tip.
    Save(Vec<u8>),
    /// Try again.
    Retry,
    /// Give up, which ends the scheduler.
    Abort(ProveFailure),
}

/// What to do after the given attempt, counted from one.
pub open spec fn action_after(
    block_num: BlockNumber,
    attempt: nat,
    outcome: AttemptOutcome,
) -> ProveAction {
    match outcome {
        AttemptOutcome::Proven(proof_bytes) => ProveAction::Save(proof_bytes),
        AttemptOutcome::Failed(ProveBlockError::Fatal(error)) => ProveAction::Abort(
            ProveFailure::Fatal(error),
        ),
        AttemptOutcome::Failed(ProveBlockError::Transient(_)) | AttemptOutcome::TimedOut => {
            if attempt >= MAX_PROVE_ATTEMPTS {
                ProveAction::Abort(
                    ProveFailure::TooManyAttempts { block_num, attempts: attempt as u32 },
                )
            } else {
                ProveAction::Retry
            }
        },
    }
}

/// The attempts at the proof of a block.
#[derive(Clone, Copy, Debug, PartialEq, Eq, Structural)]
pub struct ProveAttempts {
    pub block_num: BlockNumber,
    /// The number of attempts that ended.
    pub attempts: u32,
}

impl ProveAttempts {
    /// Starts with the first attempt at the proof of a block.
    pub fn new(block_num: BlockNumber) -> (r: Self)
        ensures
            r.block_num == block_num,
            r.attempts == 0,
    {
        ProveAttempts { block_num, attempts: 0 }
    }

    /// Takes the outcome of an attempt, and tells what to do next.
    pub fn finish_attempt(&mut self, outcome: AttemptOutcome) -> (r: ProveAction)
        requires
            old(self).attempts < MAX_PROVE_ATTEMPTS,
        ensures
            final(self).block_num == old(self).block_num,
            final(self).attempts == old(self).attempts + 1,
            r == action_after(old(self).block_num, (old(self).attempts + 1) as nat, outcome),
            r is Retry ==> final(self).attempts < MAX_PROVE_ATTEMPTS,
            match outcome {
                AttemptOutcome::Proven(proof) => r == ProveAction::Save(proof),
                AttemptOutcome::Failed(ProveBlockError::Fatal(error)) => r == ProveAction::Abort(
                    ProveFailure::Fatal(error),
                ),
                _ => if old(self).attempts + 1 < 3 {
                    r is Retry
                } else {
                    r == ProveAction::Abort(
                        ProveFailure::TooManyAttempts {
                            block_num: old(self).block_num,
                            attempts: (old(self).attempts + 1) as u32,
                        },
                    )
                },
            },
    {
        self.attempts = self.attempts + 1;
        match outcome {
            AttemptOutcome::Proven(proof_bytes) => ProveAction::Save(proof_bytes),
            AttemptOutcome::Failed(ProveBlockError::Fatal(error)) => ProveAction::Abort(
                ProveFailure::Fatal(error),
            ),
            _ => if self.attempts >= MAX_PROVE_ATTEMPTS {
                ProveAction::Abort(
                    ProveFailure::TooManyAttempts {
                        block_num: self.block_num,
                        attempts: self.attempts,
                    },
                )
            } else {
                ProveAction::Retry
            },
        }
    }
}

/// What comes of attempts with the given outcomes: the action after the first attempt that is not
/// followed by another one, or `None` while there is another one to follow.
pub open spec fn proving_result(block_num: BlockNumber, outcomes: Seq<AttemptOutcome>) -> Option<
    ProveAction,
>
    decreases outcomes.len(),
{
    if outcomes.len() == 0 {
        None
    } else {
        match proving_result(block_num, outcomes.drop_last()) {
            Some(action) => Some(action),
            None => match action_after(block_num, outcomes.len(), outcomes.last()) {
                ProveAction::Retry => None,
                action => Some(action),
            },
        }
    }
}

/// Whether another attempt may follow an outcome.
pub open spec fn is_transient(outcome: AttemptOutcome) -> bool {
    outcome matches AttemptOutcome::Failed(ProveBlockError::Transient(_)) || outcome is TimedOut
}

/// Proving a block ends with the third attempt at the latest, and before that with the first attempt
/// that ends with a proof or a fatal error.
pub proof fn lemma_proving_ends(block_num: BlockNumber, outcomes: Seq<AttemptOutcome>)
    ensures
        proving_result(block_num, outcomes) is None <==> outcomes.len() < MAX_PROVE_ATTEMPTS
            && forall|i: int| 0 <= i < outcomes.len() ==> is_transient(#[trigger] outcomes[i]),
    decreases outcomes.len(),
{
    if outcomes.len() > 0 {
        let before = outcomes.drop_last();
        lemma_proving_ends(block_num, before);
        if outcomes.len() < MAX_PROVE_ATTEMPTS && forall|i: int|
            0 <= i < outcomes.len() ==> is_transient(#[trigger] outcomes[i]) {
            assert forall|i: int| 0 <= i < before.len() implies is_transient(
                #[trigger] before[i],
            ) by {
                assert(before[i] == outcomes[i]);
            }
            assert(is_transient(outcomes[outcomes.len() - 1]));
        }
        if proving_result(block_num, outcomes) is None {
            assert forall|i: int| 0 <= i < outcomes.len() implies is_transient(
                #[trigger] outcomes[i],
            ) by {
                if i < before.len() {
                    assert(before[i] == outcomes[i]);
                }
            }
        }
    }
}

// SCHEDULE
// ================================================================================================

/// Whether block numbers are ascending, none twice, and all greater than the given one.
pub open spec fn are_ascending_after(blocks: Seq<BlockNumber>, after: BlockNumber) -> bool {
    &&& forall|i: int| 0 <= i < blocks.len() ==> (#[trigger] blocks[i])@ > after@
    &&& forall|i: int, j: int|
        0 <= i < j < blocks.len() ==> (#[trigger] blocks[i])@ < (#[trigger] blocks[j])@
}

/// What wakes the scheduler.
#[derive(Debug, PartialEq, Eq)]
pub enum SchedulerEvent {
    /// The proof of a block ended.
    JobEnded(Result<(), ProveFailure>),
    /// The chain tip advanced.
    ChainTipChanged,
    /// Nothing announces chain tips any more.
    ChainTipClosed,
}

/// What the scheduler does next.
#[derive(Debug, PartialEq, Eq)]
pub enum SchedulerAction {
    /// Look for further blocks to prove.
    Continue,
    /// End.
    Exit(Result<(), ProveFailure>),
}

/// The blocks that are being proven.
#[derive(Clone, Copy, Debug, PartialEq, Eq, Structural)]
pub struct ProofSchedule {
    /// The highest block that is being proven or is proven already.
    pub highest_scheduled: BlockNumber,
    /// The number of blocks that are being proven.
    pub in_flight: usize,
    /// The number of blocks that are proven at the same time at most.
    pub max_concurrent_proofs: usize,
}

impl ProofSchedule {
    /// Whether no more blocks are being proven than may be.
    pub open spec fn is_valid(self) -> bool {
        self.in_flight <= self.max_concurrent_proofs && self.max_concurrent_proofs > 0
    }

    /// Starts after the blocks that are proven already.
    pub fn new(proven_tip: BlockNumber, max_concurrent_proofs: usize) -> (r: Self)
        requires
            max_concurrent_proofs > 0,
        ensures
            r.is_valid(),
            r == (ProofSchedule {
                highest_scheduled: proven_tip,
                in_flight: 0,
                max_concurrent_proofs,
            }),
    {
        ProofSchedule { highest_scheduled: proven_tip, in_flight: 0, max_concurrent_proofs }
    }

    /// Returns after which block to look for blocks that are not proven, and for how many, or `None`
    /// if no further block may be proven now.
    pub fn next_query(&self) -> (r: Option<(BlockNumber, usize)>)
        requires
            self.is_valid(),
        ensures
            r == (if self.in_flight < self.max_concurrent_proofs {
                Some(
                    (
                        self.highest_scheduled,
                        (self.max_concurrent_proofs - self.in_flight) as usize,
                    ),
                )
            } else {
                None
            }),
    {
        let capacity: usize = self.max_concurrent_proofs - self.in_flight;
        if capacity > 0 {
            Some((self.highest_scheduled, capacity))
        } else {
            None
        }
    }

    /// Schedules the blocks that the query returned. None of them was scheduled before.
    pub fn schedule(&mut self, unproven: &Vec<BlockNumber>)
        requires
            old(self).is_valid(),
            are_ascending_after(unproven@, old(self).highest_scheduled),
            old(self).in_flight + unproven@.len() <= old(self).max_concurrent_proofs,
        ensures
            final(self).is_valid(),
            final(self).max_concurrent_proofs == old(self).max_concurrent_proofs,
            final(self).in_flight == old(self).in_flight + unproven@.len(),
            final(self).highest_scheduled == (if unproven@.len() > 0 {
                unproven@.last()
            } else {
                old(self).highest_scheduled
            }),
            forall|i: int|
                0 <= i < unproven@.len() ==> old(self).highest_scheduled@ < (
                #[trigger] unproven@[i])@ <= final(self).highest_scheduled@,
    {
        if unproven.len() > 0 {
            self.highest_scheduled = unproven[unproven.len() - 1];
        }
        self.in_flight = self.in_flight + unproven.len();
    }

    /// Takes an event. A proof that failed ends the scheduler, since every failure that is worth
    /// another attempt was retried before.
    pub fn handle(&mut self, event: SchedulerEvent) -> (r: SchedulerAction)
        requires
            old(self).is_valid(),
            event is JobEnded ==> old(self).in_flight > 0,
        ensures
            final(self).is_valid(),
            final(self).highest_scheduled == old(self).highest_scheduled,
            final(self).max_concurrent_proofs == old(self).max_concurrent_proofs,
            final(self).in_flight == (if event is JobEnded {
                old(self).in_flight - 1
            } else {
                old(self).in_flight as int
            }),
            match event {
                SchedulerEvent::JobEnded(Ok(())) => r is Continue,
                SchedulerEvent::JobEnded(Err(failure)) => r == SchedulerAction::Exit(Err(failure)),
                SchedulerEvent::ChainTipChanged => r is Continue,
                SchedulerEvent::ChainTipClosed => r == SchedulerAction::Exit(Ok(())),
            },
    {
        match event {
            SchedulerEvent::JobEnded(result) => {
                self.in_flight = self.in_flight - 1;
                match result {
                    Ok(()) => SchedulerAction::Continue,
                    Err(failure) => SchedulerAction::Exit(Err(failure)),
                }
            },
            SchedulerEvent::ChainTipChanged => SchedulerAction::Continue,
            SchedulerEvent::ChainTipClosed => SchedulerAction::Exit(Ok(())),
        }
    }
}

/// The blocks without proof that a query returns can be scheduled: there are no more of them than
/// were asked for, and none was scheduled before.
pub proof fn lemma_unproven_can_be_scheduled(
    blocks: ProvenBlocks,
    after: BlockNumber,
    start: int,
    limit: nat,
)
    requires
        blocks.is_valid(),
        start > after@,
    ensures
        blocks.unproven_from(start, limit).len() <= limit,
        are_ascending_after(blocks.unproven_from(start, limit), after),
    decreases blocks.rows@.len() - start,
{
    if start < blocks.rows@.len() && limit > 0 {
        let number = BlockNumber(start as u32);
        if blocks.rows@[start].proven {
            lemma_unproven_can_be_scheduled(blocks, after, start + 1, limit);
        } else {
            let rest = blocks.unproven_from(start + 1, (limit - 1) as nat);
            lemma_unproven_can_be_scheduled(blocks, number, start + 1, (limit - 1) as nat);
            let all = seq![number] + rest;
            assert forall|i: int| 0 <= i < all.len() implies (#[trigger] all[i])@ > after@ by {
                if i > 0 {
                    assert(all[i] == rest[i - 1]);
                }
            }
            assert forall|i: int, j: int| 0 <= i < j < all.len() implies (#[trigger] all[i])@ < (
            #[trigger] all[j])@ by {
                assert(all[j] == rest[j - 1]);
                if i > 0 {
                    assert(all[i] == rest[i - 1]);
                }
            }
        }
    }
}

/// The outcome of an attempt decides what is done: a proof is saved, a fatal error ends the scheduler,
/// and anything else is tried again until there were three attempts.
pub proof fn lemma_actions_follow_outcomes(
    block_num: BlockNumber,
    attempt: nat,
    outcome: AttemptOutcome,
)
    ensures
        action_after(block_num, attempt, outcome) is Save <==> outcome is Proven,
        outcome matches AttemptOutcome::Proven(proof) ==> action_after(block_num, attempt, outcome)
            == ProveAction::Save(proof),
        action_after(block_num, attempt, outcome) is Retry <==> attempt < 3 && (outcome is TimedOut
            || (outcome is Failed && outcome->Failed_0 is Transient)),
{
}

} // verus!
