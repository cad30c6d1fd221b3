//! Commands, the unit of mutation, and their payloads.
//!
//! A payload is the CBOR map with the one entry `"Set": [key, value]` or
//! `"Rm": key`. A payload counts only where writing the command that it reads
//! as gives the same bytes again, and a command is written only where its
//! payload reads back as the command.

use crate::cbor::{
    cbor_pair_entries, cbor_pair_entry, cbor_text_entries, cbor_text_entry, read_pair_entries,
    read_text_entries, write_pair_entry, write_text_entry,
};
use crate::error::KvError;
use vstd::prelude::*;

verus! {

/// A change of the index, as the log records it.
#[derive(Debug, PartialEq, Eq)]
pub enum LogCommand {
    /// Binds the key to the value, whatever the key was bound to. The log
    /// holds it under the tag `Set`.
    Put(String, String),
    /// Unbinds the key. The log holds it under the tag `Rm`.
    Rm(String),
}

/// A command as the contracts see it: texts in place of strings.
pub ghost enum Command {
    Put(Seq<char>, Seq<char>),
    Rm(Seq<char>),
}

impl View for LogCommand {
    type V = Command;

    open spec fn view(&self) -> Command {
        match self {
            LogCommand::Put(key, value) => Command::Put(key@, value@),
            LogCommand::Rm(key) => Command::Rm(key@),
        }
    }
}

impl Command {
    /// The index after this command.
    pub open spec fn apply(self, index: Map<Seq<char>, Seq<char>>) -> Map<Seq<char>, Seq<char>> {
        match self {
            Command::Put(key, value) => index.insert(key, value),
            Command::Rm(key) => index.remove(key),
        }
    }
}

/// The index that a sequence of commands builds, starting from the empty one
/// and applying them in order.
pub open spec fn index_of(commands: Seq<Command>) -> Map<Seq<char>, Seq<char>>
    decreases commands.len(),
{
    if commands.len() == 0 {
        Map::empty()
    } else {
        commands.last().apply(index_of(commands.drop_last()))
    }
}

/// The bytes that stand for a command, where `serde_cbor` writes it.
pub open spec fn encoded(command: Command) -> Option<Seq<u8>> {
    match command {
        Command::Put(key, value) => cbor_pair_entry("Set"@, key, value),
        Command::Rm(key) => cbor_text_entry("Rm"@, key),
    }
}

/// The command that a map from text to pairs of texts stands for: it has the
/// one entry `"Set"`.
pub open spec fn pairs_command(entries: Seq<(Seq<char>, (Seq<char>, Seq<char>))>) -> Option<
    Command,
> {
    if entries.len() == 1 && entries[0].0 == "Set"@ {
        Some(Command::Put(entries[0].1.0, entries[0].1.1))
    } else {
        None
    }
}

/// The command that a map from text to text stands for: it has the one entry
/// `"Rm"`.
pub open spec fn texts_command(entries: Seq<(Seq<char>, Seq<char>)>) -> Option<Command> {
    if entries.len() == 1 && entries[0].0 == "Rm"@ {
        Some(Command::Rm(entries[0].1))
    } else {
        None
    }
}

/// The command that `serde_cbor` reads from a payload, if any.
pub open spec fn decoded(payload: Seq<u8>) -> Option<Command> {
    match cbor_pair_entries(payload) {
        Some(entries) => pairs_command(entries),
        None => match cbor_text_entries(payload) {
            Some(entries) => texts_command(entries),
            None => None,
        },
    }
}

/// The command of a payload of the log: the one that the payload reads as,
/// provided that writing it gives the payload again.
pub open spec fn payload_command(payload: Seq<u8>) -> Option<Command> {
    match decoded(payload) {
        Some(command) => if encoded(command) == Some(payload) {
            Some(command)
        } else {
            None
        },
        None => None,
    }
}

/// Whether a command can go into the log: it has a payload, and the payload
/// reads back as the command.
pub open spec fn storable(command: Command) -> bool {
    match encoded(command) {
        Some(payload) => decoded(payload) == Some(command),
        None => false,
    }
}

/// The payload of a storable command is a payload of that command.
pub proof fn lemma_storable_reads_back(command: Command)
    requires
        storable(command),
    ensures
        encoded(command) is Some,
        payload_command(encoded(command)->Some_0) == Some(command),
{
}

/// A command that a payload of the log stands for is storable, and the
/// payload is the one that writing it gives.
pub proof fn lemma_payload_command_storable(payload: Seq<u8>)
    requires
        payload_command(payload) is Some,
    ensures
        storable(payload_command(payload)->Some_0),
        encoded(payload_command(payload)->Some_0) == Some(payload),
{
}

impl Command {
    /// The key that the command binds or unbinds.
    pub open spec fn key(self) -> Seq<char> {
        match self {
            Command::Put(key, _) => key,
            Command::Rm(key) => key,
        }
    }
}

impl LogCommand {
    /// The key that the command binds or unbinds.
    pub fn key(&self) -> (key: &String)
        ensures
            key@ == self@.key(),
    {
        match self {
            LogCommand::Put(key, _) => key,
            LogCommand::Rm(key) => key,
        }
    }

    /// Whether two commands are the same: the variant and the texts.
    pub fn same(&self, other: &LogCommand) -> (res: bool)
        ensures
            res == (self@ == other@),
    {
        match self {
            LogCommand::Put(k1, v1) => match other {
                LogCommand::Put(k2, v2) => *k1 == *k2 && *v1 == *v2,
                LogCommand::Rm(_) => false,
            },
            LogCommand::Rm(k1) => match other {
                LogCommand::Put(_, _) => false,
                LogCommand::Rm(k2) => *k1 == *k2,
            },
        }
    }
}

/// Whether two slices hold the same bytes.
pub fn same_bytes(a: &[u8], b: &[u8]) -> (res: bool)
    ensures
        res == (a@ == b@),
{
    if a.len() != b.len() {
        return false;
    }
    let mut i: usize = 0;
    while i < a.len()
        invariant
            i <= a@.len(),
            a@.len() == b@.len(),
            forall|j: int| 0 <= j < i ==> a@[j] == b@[j],
        decreases a@.len() - i,
    {
        if a[i] != b[i] {
            return false;
        }
        i += 1;
    }
    assert(a@ =~= b@);
    true
}

/// Writes the command that binds `key` to `value` with `serde_cbor`.
pub fn encode_put(key: &str, value: &str) -> (res: Result<Vec<u8>, KvError>)
    ensures
        match res {
            Ok(payload) => encoded(Command::Put(key@, value@)) == Some(payload@),
            Err(e) => e == KvError::Serialization && encoded(Command::Put(key@, value@)) is None,
        },
{
    match write_pair_entry("Set", key, value) {
        Ok(payload) => Ok(payload),
        Err(_) => Err(KvError::Serialization),
    }
}

/// Writes the command that unbinds `key` with `serde_cbor`.
pub fn encode_rm(key: &str) -> (res: Result<Vec<u8>, KvError>)
    ensures
        match res {
            Ok(payload) => encoded(Command::Rm(key@)) == Some(payload@),
            Err(e) => e == KvError::Serialization && encoded(Command::Rm(key@)) is None,
        },
{
    match write_text_entry("Rm", key) {
        Ok(payload) => Ok(payload),
        Err(_) => Err(KvError::Serialization),
    }
}

/// Writes a command with `serde_cbor`.
pub fn encode_command(command: &LogCommand) -> (res: Result<Vec<u8>, KvError>)
    ensures
        match res {
            Ok(payload) => encoded(command@) == Some(payload@),
            Err(e) => e == KvError::Serialization && encoded(command@) is None,
        },
{
    match command {
        LogCommand::Put(key, value) => encode_put(key.as_str(), value.as_str()),
        LogCommand::Rm(key) => encode_rm(key.as_str()),
    }
}

/// The command of a map from text to pairs of texts: `Put` where its one
/// entry is `"Set"`.
pub fn command_of_pairs(entries: Vec<(String, (String, String))>) -> (res: Option<LogCommand>)
    ensures
        match res {
            Some(command) => pairs_command(entries.deep_view()) == Some(command@),
            None => pairs_command(entries.deep_view()) is None,
        },
{
    let mut entries = entries;
    if entries.len() != 1 {
        return None;
    }
    match entries.pop() {
        Some((tag, (key, value))) => {
            if tag == "Set".to_owned() {
                Some(LogCommand::Put(key, value))
            } else {
                None
            }
        },
        None => None,
    }
}

/// The command of a map from text to text: `Rm` where its one entry is
/// `"Rm"`.
pub fn command_of_texts(entries: Vec<(String, String)>) -> (res: Option<LogCommand>)
    ensures
        match res {
            Some(command) => texts_command(entries.deep_view()) == Some(command@),
            None => texts_command(entries.deep_view()) is None,
        },
{
    let mut entries = entries;
    if entries.len() != 1 {
        return None;
    }
    match entries.pop() {
        Some((tag, key)) => {
            if tag == "Rm".to_owned() {
                Some(LogCommand::Rm(key))
            } else {
                None
            }
        },
        None => None,
    }
}

/// Reads a payload with `serde_cbor`, as a `Put` first and as an `Rm` where
/// it is no map to pairs.
pub fn decode_payload(payload: &[u8]) -> (res: Option<LogCommand>)
    ensures
        match res {
            Some(command) => decoded(payload@) == Some(command@),
            None => decoded(payload@) is None,
        },
{
    match read_pair_entries(payload) {
        Ok(entries) => command_of_pairs(entries),
        Err(_) => match read_text_entries(payload) {
            Ok(entries) => command_of_texts(entries),
            Err(_) => None,
        },
    }
}

/// The payload of a command for the log. It fails where `serde_cbor` does
/// not write the command, or reads what it wrote as anything else.
pub fn write_command(command: &LogCommand) -> (res: Result<Vec<u8>, KvError>)
    ensures
        match res {
            Ok(payload) => storable(command@) && encoded(command@) == Some(payload@),
            Err(e) => e == KvError::Serialization && !storable(command@),
        },
{
    let payload = match encode_command(command) {
        Ok(payload) => payload,
        Err(e) => {
            return Err(e);
        },
    };
    match decode_payload(payload.as_slice()) {
        Some(back) => {
            if back.same(command) {
                Ok(payload)
            } else {
                Err(KvError::Serialization)
            }
        },
        None => Err(KvError::Serialization),
    }
}

/// The command of a payload of the log. It fails where `serde_cbor` reads no
/// command from the payload, or writes the command that it read as other
/// bytes.
pub fn read_command(payload: &[u8]) -> (res: Result<LogCommand, KvError>)
    ensures
        match res {
            Ok(command) => payload_command(payload@) == Some(command@),
            Err(e) => e == KvError::Serialization && payload_command(payload@) is None,
        },
{
    let command = match decode_payload(payload) {
        Some(command) => command,
        None => {
            return Err(KvError::Serialization);
        },
    };
    match encode_command(&command) {
        Ok(again) => {
            if same_bytes(again.as_slice(), payload) {
                Ok(command)
            } else {
                Err(KvError::Serialization)
            }
        },
        Err(e) => Err(e),
    }
}

} // verus!
