use kvs::frame::{frame, frame_end, push_frame, push_length, read_length, PREFIX_LEN};

#[test]
fn a_length_is_written_most_significant_byte_first() {
    let mut out = Vec::new();
    push_length(&mut out, 0x0102_0304_0506_0708);
    assert_eq!(out, vec![1, 2, 3, 4, 5, 6, 7, 8]);
}

#[test]
fn a_length_is_appended_to_what_is_there() {
    let mut out = vec![0xaa];
    push_length(&mut out, 10);
    assert_eq!(out, vec![0xaa, 0, 0, 0, 0, 0, 0, 0, 10]);
}

#[test]
fn the_extreme_lengths_are_written_in_full() {
    let mut out = Vec::new();
    push_length(&mut out, 0);
    push_length(&mut out, u64::MAX);
    push_length(&mut out, 256);
    assert_eq!(
        out,
        vec![
            0, 0, 0, 0, 0, 0, 0, 0, 0xff, 0xff, 0xff, 0xff, 0xff, 0xff, 0xff, 0xff, 0, 0, 0, 0, 0,
            0, 1, 0
        ]
    );
}

#[test]
fn a_length_is_read_most_significant_byte_first() {
    let log = [0xee, 1, 2, 3, 4, 5, 6, 7, 8, 0xee];
    assert_eq!(read_length(&log, 1), 0x0102_0304_0506_0708);
    assert_eq!(read_length(&[0xff; 8], 0), u64::MAX);
    assert_eq!(read_length(&[0; 8], 0), 0);
}

#[test]
fn a_length_that_was_written_is_read_again() {
    for n in [0u64, 1, 255, 256, 65_535, 65_536, 1 << 32, (1 << 56) + 3, u64::MAX - 1] {
        let mut out = Vec::new();
        push_length(&mut out, n);
        assert_eq!(out.len(), PREFIX_LEN);
        assert_eq!(read_length(&out, 0), n);
    }
}

#[test]
fn a_frame_is_the_length_and_the_payload() {
    assert_eq!(frame(&[7, 8, 9]), vec![0, 0, 0, 0, 0, 0, 0, 3, 7, 8, 9]);
    assert_eq!(frame(&[]), vec![0, 0, 0, 0, 0, 0, 0, 0]);
    let payload = vec![0x55; 300];
    let framed = frame(&payload);
    assert_eq!(framed.len(), 308);
    assert_eq!(&framed[..8], &[0, 0, 0, 0, 0, 0, 1, 44]);
    assert_eq!(&framed[8..], &payload[..]);
}

#[test]
fn frames_are_appended_one_after_another() {
    let mut out = Vec::new();
    push_frame(&mut out, &[1]);
    push_frame(&mut out, &[2, 3]);
    assert_eq!(out, vec![0, 0, 0, 0, 0, 0, 0, 1, 1, 0, 0, 0, 0, 0, 0, 0, 2, 2, 3]);
}

#[test]
fn a_whole_frame_is_found_with_its_end() {
    let mut log = frame(&[1, 2, 3]);
    push_frame(&mut log, &[4]);
    assert_eq!(frame_end(&log, 0), Some(11));
    assert_eq!(frame_end(&log, 11), Some(20));
    // A frame with an empty payload ends where its payload begins.
    assert_eq!(frame_end(&[0; 8], 0), Some(8));
}

#[test]
fn a_cut_length_is_no_frame() {
    for n in 0..8usize {
        let log = vec![0u8; n];
        assert_eq!(frame_end(&log, 0), None);
    }
    let log = frame(&[1, 2, 3]);
    assert_eq!(frame_end(&log, 4), None);
    assert_eq!(frame_end(&log, log.len()), None);
}

#[test]
fn a_cut_payload_is_no_frame() {
    let log = frame(&[1, 2, 3]);
    assert_eq!(frame_end(&log[..10], 0), None);
    assert_eq!(frame_end(&log[..8], 0), None);
    // A length beyond anything a file could hold.
    assert_eq!(frame_end(&[0xff; 16], 0), None);
}
