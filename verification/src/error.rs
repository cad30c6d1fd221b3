//! The errors of the store.

use vstd::prelude::*;

verus! {

/// The failure of a `remove` whose key the store does not hold.
#[derive(Debug, Clone, Copy, PartialEq, Eq, Structural)]
pub struct KeyNotFoundOnRemove;

impl KeyNotFoundOnRemove {
    /// The text shown for this error.
    pub fn message(&self) -> (text: String)
        ensures
            text@ == "Removed key not found"@,
    {
        "Removed key not found".to_owned()
    }
}

/// Why an operation of the store failed.
#[derive(Debug, Clone, Copy, PartialEq, Eq, Structural)]
pub enum KvError {
    /// A command has no payload that reads back as itself, or a payload of the
    /// log is not the payload of any command.
    Serialization,
    /// The log ends inside a frame: in its length prefix or in its payload.
    CorruptLog,
    /// `remove` was called with a key that is not in the index.
    KeyNotFound(KeyNotFoundOnRemove),
}

} // verus!
