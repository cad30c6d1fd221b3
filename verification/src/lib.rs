//! An embedded, single-process key-value store over an append-only command log.
//!
//! The store keeps an index in memory and describes every change of its log
//! file as a [`LogUpdate`]; reading and writing the file is left to the caller.

pub mod cbor;
pub mod command;
pub mod error;
pub mod frame;
pub mod index;
pub mod laws;
pub mod log;
pub mod store;

pub use command::LogCommand;
pub use error::{KeyNotFoundOnRemove, KvError};
pub use store::{KvStore, LogUpdate};
