//! The chain state: reads that combine the database with the in-memory structures, and the rules
//! by which new blocks are applied.

pub mod account;
pub mod account_details;
pub mod apply_block;
pub mod apply_proof;
pub mod block_laws;
pub mod chain;
pub mod details_reader;
pub mod disk_monitor;
pub mod inputs;
pub mod loader;
pub mod received_block;
pub mod replica;
pub mod signed_block;
pub mod subscription;
pub mod sync_state;
pub mod trees;
pub mod writer;
pub mod writer_guard;
