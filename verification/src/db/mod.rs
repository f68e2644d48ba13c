//! What the database's rows mean, which of them a query returns, and which rows a block writes.

pub mod account_tree;
pub mod accounts;
pub mod agreement;
pub mod block_updates;
pub mod consistency;
pub mod conv;
pub mod delta;
pub mod delta_laws;
pub mod entries;
pub mod full_account;
pub mod history;
pub mod network_accounts;
pub mod new_account;
pub mod page_laws;
pub mod paged_calls;
pub mod pages;
pub mod proven;
pub mod read_back;
pub mod selected;
pub mod stored;
pub mod stored_assets;
pub mod table_laws;
pub mod tables;
pub mod transaction_laws;
pub mod transaction_query;
pub mod transactions;
pub mod update_checks;
pub mod update_laws;
pub mod updates;
pub mod upsert;
