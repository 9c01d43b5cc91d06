//! An indexer for token inscriptions carried in the calldata of EVM transactions.
//!
//! The library holds the logic: the key schema of the store, the inscription
//! parser and validator, the deploy and mint state transitions with their supply
//! accounting, and the cursor that the block walker advances. The store, the RPC
//! transport and the process entry point live around it.
pub mod config;
pub mod database;
pub mod decimal;
pub mod indexer;
pub mod inscription;
pub mod keys;
pub mod utils;
pub mod walker;
