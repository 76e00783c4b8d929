//! An operator-facing token faucet's core: a batching scheduler that
//! coalesces concurrent mint requests into one bulk ledger operation per
//! flush tick, and a resumable chain indexer that scans the block sequence,
//! classifies transactions touching tracked accounts, and persists them
//! idempotently behind a durable cursor. Every decision either component
//! makes lives here, specified and verified; the network, the clock and the
//! on-disk store stay with the runtime around the library.

pub mod codec;
pub mod indexer;
pub mod mint_server;
pub mod note_screener;
pub mod server;
pub mod tx_worker;
pub mod utils;
