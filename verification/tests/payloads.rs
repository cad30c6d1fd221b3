use kvs::command::{
    command_of_pairs, command_of_texts, decode_payload, encode_command, encode_put, encode_rm,
    read_command, same_bytes, write_command,
};
use kvs::{KvError, LogCommand};

fn put(key: &str, value: &str) -> LogCommand {
    LogCommand::Put(key.to_owned(), value.to_owned())
}

fn rm(key: &str) -> LogCommand {
    LogCommand::Rm(key.to_owned())
}

#[test]
fn put_is_written_as_a_map_to_a_pair() {
    let bytes = encode_command(&put("a", "1")).unwrap();
    assert_eq!(bytes, vec![0xa1, 0x63, b'S', b'e', b't', 0x82, 0x61, b'a', 0x61, b'1']);
}

#[test]
fn rm_is_written_as_a_map_to_a_text() {
    let bytes = encode_command(&rm("a")).unwrap();
    assert_eq!(bytes, vec![0xa1, 0x62, b'R', b'm', 0x61, b'a']);
}

#[test]
fn a_written_put_reads_back() {
    let bytes = write_command(&put("key", "value")).unwrap();
    assert_eq!(decode_payload(&bytes), Some(put("key", "value")));
    assert_eq!(read_command(&bytes), Ok(put("key", "value")));
}

#[test]
fn a_written_rm_reads_back() {
    let bytes = write_command(&rm("key")).unwrap();
    assert_eq!(decode_payload(&bytes), Some(rm("key")));
    assert_eq!(read_command(&bytes), Ok(rm("key")));
}

#[test]
fn texts_beyond_ascii_read_back() {
    let command = put("cl\u{e9}", "\u{1f980} crab");
    let bytes = write_command(&command).unwrap();
    assert_eq!(read_command(&bytes), Ok(command));
}

#[test]
fn empty_texts_read_back() {
    let bytes = write_command(&put("", "")).unwrap();
    assert_eq!(bytes, vec![0xa1, 0x63, b'S', b'e', b't', 0x82, 0x60, 0x60]);
    assert_eq!(read_command(&bytes), Ok(put("", "")));
}

#[test]
fn a_payload_that_is_no_cbor_is_refused() {
    assert_eq!(decode_payload(&[0xff, 0x00]), None);
    assert_eq!(read_command(&[0xff, 0x00]), Err(KvError::Serialization));
    assert_eq!(read_command(&[]), Err(KvError::Serialization));
}

#[test]
fn a_payload_with_another_tag_is_refused() {
    // {"Get": ["a", "1"]}
    let bytes = [0xa1, 0x63, b'G', b'e', b't', 0x82, 0x61, b'a', 0x61, b'1'];
    assert_eq!(decode_payload(&bytes), None);
    assert_eq!(read_command(&bytes), Err(KvError::Serialization));
    // {"Set": "a"}
    let bytes = [0xa1, 0x63, b'S', b'e', b't', 0x61, b'a'];
    assert_eq!(read_command(&bytes), Err(KvError::Serialization));
    // {"Rm": ["a", "1"]}
    let bytes = [0xa1, 0x62, b'R', b'm', 0x82, 0x61, b'a', 0x61, b'1'];
    assert_eq!(read_command(&bytes), Err(KvError::Serialization));
}

#[test]
fn a_payload_with_bytes_behind_the_map_is_refused() {
    let bytes = [0xa1, 0x62, b'R', b'm', 0x61, b'a', 0x00];
    assert_eq!(read_command(&bytes), Err(KvError::Serialization));
}

#[test]
fn a_payload_in_another_spelling_is_refused() {
    // {"Rm": "a"} with the length of the key in two bytes: it reads as the
    // command, which is written otherwise.
    let bytes = [0xa1, 0x62, b'R', b'm', 0x78, 0x01, b'a'];
    assert_eq!(decode_payload(&bytes), Some(rm("a")));
    assert_eq!(read_command(&bytes), Err(KvError::Serialization));
}

#[test]
fn a_map_of_two_entries_is_no_command() {
    let pairs = vec![
        ("Set".to_owned(), ("a".to_owned(), "1".to_owned())),
        ("Set2".to_owned(), ("b".to_owned(), "2".to_owned())),
    ];
    assert_eq!(command_of_pairs(pairs), None);
    let texts = vec![("Rm".to_owned(), "a".to_owned()), ("Rn".to_owned(), "b".to_owned())];
    assert_eq!(command_of_texts(texts), None);
    assert_eq!(command_of_pairs(Vec::new()), None);
    assert_eq!(command_of_texts(Vec::new()), None);
}

#[test]
fn a_map_of_one_entry_is_a_command_by_its_tag() {
    let pairs = vec![("Set".to_owned(), ("a".to_owned(), "1".to_owned()))];
    assert_eq!(command_of_pairs(pairs), Some(put("a", "1")));
    let pairs = vec![("Rm".to_owned(), ("a".to_owned(), "1".to_owned()))];
    assert_eq!(command_of_pairs(pairs), None);
    let texts = vec![("Rm".to_owned(), "a".to_owned())];
    assert_eq!(command_of_texts(texts), Some(rm("a")));
    let texts = vec![("Set".to_owned(), "a".to_owned())];
    assert_eq!(command_of_texts(texts), None);
}

#[test]
fn commands_are_the_same_by_variant_and_texts() {
    assert!(put("a", "1").same(&put("a", "1")));
    assert!(!put("a", "1").same(&put("a", "2")));
    assert!(!put("a", "1").same(&put("b", "1")));
    assert!(!put("a", "1").same(&rm("a")));
    assert!(rm("a").same(&rm("a")));
    assert!(!rm("a").same(&rm("b")));
    assert!(!rm("a").same(&put("a", "")));
}

#[test]
fn a_command_has_the_key_that_it_binds_or_unbinds() {
    assert_eq!(put("a", "1").key(), "a");
    assert_eq!(rm("b").key(), "b");
}

#[test]
fn the_parts_of_a_command_are_written_as_the_command() {
    assert_eq!(encode_put("k", "v"), encode_command(&put("k", "v")));
    assert_eq!(encode_rm("k"), encode_command(&rm("k")));
    assert_ne!(encode_put("k", "v"), encode_put("v", "k"));
}

#[test]
fn a_long_text_is_written_with_a_longer_length() {
    let key = "k".repeat(24);
    let value = "v".repeat(300);
    let bytes = write_command(&put(&key, &value)).unwrap();
    let mut expected = vec![0xa1, 0x63, b'S', b'e', b't', 0x82, 0x78, 24];
    expected.extend_from_slice(key.as_bytes());
    expected.extend_from_slice(&[0x79, 0x01, 0x2c]);
    expected.extend_from_slice(value.as_bytes());
    assert_eq!(bytes, expected);
    assert_eq!(read_command(&bytes), Ok(put(&key, &value)));
}

#[test]
fn slices_are_the_same_by_their_bytes() {
    assert!(same_bytes(&[], &[]));
    assert!(same_bytes(&[1, 2, 3], &[1, 2, 3]));
    assert!(!same_bytes(&[1, 2, 3], &[1, 2]));
    assert!(!same_bytes(&[1, 2], &[1, 2, 3]));
    assert!(!same_bytes(&[1, 2, 3], &[1, 2, 4]));
    assert!(!same_bytes(&[0, 2, 3], &[1, 2, 3]));
}
