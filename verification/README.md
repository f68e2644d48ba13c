# miden_node_store

The store of a rollup node: it keeps the chain, the states of accounts, notes, nullifiers and
transactions, answers queries of clients, and applies new blocks.

## Layout

- `src/` is the library. Everything in it is verified with Verus.
  - `db/` says what the rows of the database mean, which rows a query returns, and which rows a
    block writes.
  - `state/` holds the chain state: the checks before a block is applied, the change of the state,
    the inputs of transactions, batches and blocks, synchronization and subscriptions.
  - `account_state_forest/` and `smt_forest.rs` hold the vaults and storage maps of accounts over
    time.
  - `server/` holds the endpoints: what requests are refused, and what is answered.
  - `genesis.rs` builds the first block, and `state/received_block.rs` reads blocks that another
    store sent.
  - `protocol.rs`, `notes.rs`, `account_code.rs`, `db/new_account.rs` and `state/trees.rs` are the
    boundary to the protocol library: encodings, hashes, accounts and Merkle trees.
- `tests/` runs the library.
- `app/` is ordinary Rust around the library: files, channels and timers.

## What is proved

Each function states what it returns or changes. Laws that relate several functions are public
proof functions, whose names start with `lemma_`. Some of them:

- an account that a block creates or changes is read back with the commitment that the block gives
  it (`db/consistency.rs`, `db/read_back.rs`, `db/selected.rs`);
- after the updates of a block, the latest row of each account that they name is one of the block,
  with the last commitment that they give the account, and the rows of all other accounts are as
  they were (`db/block_updates.rs`);
- the roots in an account's row are those of its stored entries and assets (`db/stored.rs`,
  `db/stored_assets.rs`);
- the account state forest and the database hold the same vaults and maps (`db/agreement.rs`);
- pages and chunks of rows continue each other without a gap, and never hold a block in part
  (`db/pages.rs`, `db/paged_calls.rs`, `db/accounts.rs`, `db/network_accounts.rs`,
  `db/transactions.rs`, `db/transaction_query.rs`);
- a request for a range of the chain is refused, or answered with the range cut at the tip and the
  header of the block that it ends with (`server/rpc_api.rs`);
- pruning keeps the latest state and the recent blocks (`db/history.rs`,
  `account_state_forest/laws.rs`);
- a valid block leads to a valid state with the roots of its header (`state/apply_block.rs`);
- a state that is rebuilt from the database is the state that was kept in memory
  (`db/account_tree.rs`, `state/loader.rs`);
- a response that fits with its storage maps only marked fits with the maps that are kept
  (`state/account.rs`).

What is not proved is what the protocol library computes. Each function that calls it says in its
comment what is taken for granted.
