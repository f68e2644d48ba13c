//! The store of a rollup node.

pub mod account_code;
pub mod account_id;
pub mod account_state_forest;
pub mod block_number;
pub mod block_set;
pub mod bytes;
pub mod db;
pub mod errors;
pub mod genesis;
pub mod notes;
pub mod protocol;
pub mod proven_tip;
pub mod server;
pub mod smt_forest;
pub mod state;
pub mod word;
pub mod word_set;
