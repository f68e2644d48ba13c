//! The account state forest: the vaults and storage maps of public accounts as Merkle trees, for the
//! latest blocks.

pub mod forest;
pub mod laws;
pub mod model;
pub mod update_laws;
