//! The calls into `serde_cbor`: CBOR maps with one entry under a text key.
//!
//! Nothing in this file is proved. Each function makes one call and states
//! that the outcome of the call depends on the arguments alone; a function
//! without a body names that outcome. The bytes themselves are not described:
//! what the rest of the crate knows of them, it learns by reading them back.

use vstd::prelude::*;

verus! {

/// The error of `serde_cbor`, carried through and never looked into.
#[verifier::external_type_specification]
#[verifier::external_body]
pub struct ExCborError(serde_cbor::Error);

/// What `serde_cbor::to_vec` returns for the map with the one entry
/// `tag: (first, second)`: the bytes, or `None` where it returns an error.
pub uninterp spec fn cbor_pair_entry(tag: Seq<char>, first: Seq<char>, second: Seq<char>) -> Option<Seq<u8>>;

/// What `serde_cbor::to_vec` returns for the map with the one entry
/// `tag: text`: the bytes, or `None` where it returns an error.
pub uninterp spec fn cbor_text_entry(tag: Seq<char>, text: Seq<char>) -> Option<Seq<u8>>;

/// What `serde_cbor::from_slice` returns for `bytes` when asked for a map
/// from text to pairs of texts: the entries of the map in the order of their
/// keys, or `None` where it returns an error.
pub uninterp spec fn cbor_pair_entries(bytes: Seq<u8>) -> Option<Seq<(Seq<char>, (Seq<char>, Seq<char>))>>;

/// What `serde_cbor::from_slice` returns for `bytes` when asked for a map
/// from text to text: the entries of the map in the order of their keys, or
/// `None` where it returns an error.
pub uninterp spec fn cbor_text_entries(bytes: Seq<u8>) -> Option<Seq<(Seq<char>, Seq<char>)>>;

/// Calls `serde_cbor::to_vec` on a `BTreeMap` with the one entry
/// `tag: (first, second)`.
///
/// Believed without proof: the same three texts always give the same
/// outcome, which `cbor_pair_entry` names.
#[verifier::external_body]
pub(crate) fn write_pair_entry(tag: &str, first: &str, second: &str) -> (res: Result<Vec<u8>, serde_cbor::Error>)
    ensures
        match res {
            Ok(bytes) => cbor_pair_entry(tag@, first@, second@) == Some(bytes@),
            Err(_) => cbor_pair_entry(tag@, first@, second@) is None,
        },
{
    let mut entry = std::collections::BTreeMap::new();
    entry.insert(tag, (first, second));
    serde_cbor::to_vec(&entry)
}

/// Calls `serde_cbor::to_vec` on a `BTreeMap` with the one entry `tag: text`.
///
/// Believed without proof: the same two texts always give the same outcome,
/// which `cbor_text_entry` names.
#[verifier::external_body]
pub(crate) fn write_text_entry(tag: &str, text: &str) -> (res: Result<Vec<u8>, serde_cbor::Error>)
    ensures
        match res {
            Ok(bytes) => cbor_text_entry(tag@, text@) == Some(bytes@),
            Err(_) => cbor_text_entry(tag@, text@) is None,
        },
{
    let mut entry = std::collections::BTreeMap::new();
    entry.insert(tag, text);
    serde_cbor::to_vec(&entry)
}

/// Calls `serde_cbor::from_slice` for a `BTreeMap` from `String` to pairs of
/// `String`s and hands its entries out as a vector.
///
/// Believed without proof: the same bytes always give the same outcome, which
/// `cbor_pair_entries` names.
#[verifier::external_body]
pub(crate) fn read_pair_entries(bytes: &[u8]) -> (res: Result<Vec<(String, (String, String))>, serde_cbor::Error>)
    ensures
        match res {
            Ok(entries) => cbor_pair_entries(bytes@) == Some(entries.deep_view()),
            Err(_) => cbor_pair_entries(bytes@) is None,
        },
{
    serde_cbor::from_slice::<std::collections::BTreeMap<String, (String, String)>>(bytes)
        .map(|entries| entries.into_iter().collect())
}

/// Calls `serde_cbor::from_slice` for a `BTreeMap` from `String` to `String`
/// and hands its entries out as a vector.
///
/// Believed without proof: the same bytes always give the same outcome, which
/// `cbor_text_entries` names.
#[verifier::external_body]
pub(crate) fn read_text_entries(bytes: &[u8]) -> (res: Result<Vec<(String, String)>, serde_cbor::Error>)
    ensures
        match res {
            Ok(entries) => cbor_text_entries(bytes@) == Some(entries.deep_view()),
            Err(_) => cbor_text_entries(bytes@) is None,
        },
{
    serde_cbor::from_slice::<std::collections::BTreeMap<String, String>>(bytes)
        .map(|entries| entries.into_iter().collect())
}

} // verus!
