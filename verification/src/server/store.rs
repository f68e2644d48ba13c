//! The server: which services it runs in which mode, and why it ends.

use vstd::prelude::*;

use crate::errors::ApplyBlockError;

verus! {

/// How the store gets its blocks.
#[derive(Clone, Debug, PartialEq, Eq)]
pub enum StoreMode {
    /// From a block producer. Blocks are proven by the given remote prover, or in this process.
    BlockProducer { block_prover_url: Option<String>, max_concurrent_proofs: usize },
    /// From an upstream store.
    Replica { upstream_url: String },
}

/// The services and tasks of a server.
#[derive(Clone, Copy, Debug, PartialEq, Eq, Structural)]
pub struct Services {
    pub rpc: bool,
    pub block_producer: bool,
    pub proof_scheduler: bool,
    pub replica_sync: bool,
}

/// Returns what runs in a mode: a store either takes blocks from a block producer and proves them, or
/// follows an upstream store, but not both.
pub fn services(mode: &StoreMode) -> (r: Services)
    ensures
        r.rpc,
        r.block_producer == (*mode is BlockProducer),
        r.proof_scheduler == (*mode is BlockProducer),
        r.replica_sync == (*mode is Replica),
{
    match mode {
        StoreMode::BlockProducer { .. } => Services {
            rpc: true,
            block_producer: true,
            proof_scheduler: true,
            replica_sync: false,
        },
        StoreMode::Replica { .. } => Services {
            rpc: true,
            block_producer: false,
            proof_scheduler: false,
            replica_sync: true,
        },
    }
}

/// What ends the server.
pub enum ServerEvent {
    /// A service ended.
    ServiceEnded(Result<(), String>),
    /// A block could not be applied after the database had changed.
    Terminated(ApplyBlockError),
    /// The task of the mode ended.
    ModeTaskEnded(Result<(), String>),
    /// The task of the mode panicked.
    ModeTaskPanicked(String),
}

/// Why the server ended.
#[derive(Clone, Debug, PartialEq, Eq)]
pub enum ServeError {
    ServiceFailed(String),
    Terminated(ApplyBlockError),
    TaskExitedUnexpectedly,
    TaskFatalError(String),
    TaskPanicked(String),
}

/// Returns what the server returns when it ends. That a service ends is no error, that the task of
/// the mode ends always is one.
pub fn serve_result(event: ServerEvent) -> (r: Result<(), ServeError>)
    ensures
        r == (match event {
            ServerEvent::ServiceEnded(Ok(())) => Ok::<(), ServeError>(()),
            ServerEvent::ServiceEnded(Err(error)) => Err(ServeError::ServiceFailed(error)),
            ServerEvent::Terminated(error) => Err(ServeError::Terminated(error)),
            ServerEvent::ModeTaskEnded(Ok(())) => Err(ServeError::TaskExitedUnexpectedly),
            ServerEvent::ModeTaskEnded(Err(error)) => Err(ServeError::TaskFatalError(error)),
            ServerEvent::ModeTaskPanicked(error) => Err(ServeError::TaskPanicked(error)),
        }),
{
    match event {
        ServerEvent::ServiceEnded(Ok(())) => Ok(()),
        ServerEvent::ServiceEnded(Err(error)) => Err(ServeError::ServiceFailed(error)),
        ServerEvent::Terminated(error) => Err(ServeError::Terminated(error)),
        ServerEvent::ModeTaskEnded(Ok(())) => Err(ServeError::TaskExitedUnexpectedly),
        ServerEvent::ModeTaskEnded(Err(error)) => Err(ServeError::TaskFatalError(error)),
        ServerEvent::ModeTaskPanicked(error) => Err(ServeError::TaskPanicked(error)),
    }
}

} // verus!
