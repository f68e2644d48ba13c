//! The endpoints of the store: what requests are refused, and what is answered.

pub mod api;
pub mod block_producer;
pub mod data_directory;
pub mod ntx_builder;
pub mod proof_scheduler;
pub mod replica_sync;
pub mod rpc_api;
pub mod store;
