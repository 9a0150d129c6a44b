//! Journaled account state for an EVM execution engine: the accounts touched
//! by a transaction, a reverse record of every change to them, and nested
//! checkpoints that commit or revert each call frame as a whole.

pub mod account;
pub mod db;
pub mod engine;
pub mod journal;
pub mod laws;
pub mod model;
pub mod precompile;
pub mod primitives;
pub mod state;

pub use account::{Account, AccountInfo, Bytecode, Storage, StorageSlot};
pub use db::{Database, EmptyDatabase, Oracle};
pub use engine::{JournalCheckpoint, JournaledState};
pub use journal::{JournalEntry, Log};
pub use model::{SelfDestructResult, TransferError};
pub use primitives::{Address, Hash32, U256};
pub use state::State;
