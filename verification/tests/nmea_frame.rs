use nmea_fast_packet::nmea_frame::{Error, Frame};

#[test]
fn test_first_frame() {
    let first_frame: [u8; 8] = [0x00, 0x1B, 0x12, 0x7C, 0xEA, 0xD5, 0x12, 0x3D];
    let test_frame = Frame::from_bytes(&first_frame);
    assert_eq!(test_frame.sequence_counter(), 0);
    assert_eq!(test_frame.frame_counter(), 0);
    assert_eq!(test_frame.data_len(), Some(27));
    assert_eq!(test_frame.payload(), [0x12, 0x7C, 0xEA, 0xD5, 0x12, 0x3D]);

    let first_frame_payload: [u8; 6] = [0x12, 0x7C, 0xEA, 0xD5, 0x12, 0x3D];
    let test_first_frame = Frame::first_frame(&first_frame_payload, 27, 0);
    assert_eq!(test_first_frame.sequence_counter(), 0);
    assert_eq!(test_first_frame.frame_counter(), 0);
    assert_eq!(test_first_frame.data_len(), Some(27));
    assert_eq!(
        test_first_frame.payload(),
        [0x12, 0x7C, 0xEA, 0xD5, 0x12, 0x3D]
    );
}

#[test]
fn test_consecutive_frame() {
    let frame_counter = 3;
    let sequence_counter = 1;
    let payload: [u8; 7] = [0x20, 0xFF, 0xFF, 0x00, 0x70, 0xFE, 0xFF];
    let test_frame: Frame =
        Frame::consecutive_frame(&payload, sequence_counter, frame_counter).unwrap();
    assert_eq!(test_frame.sequence_counter(), 1);
    assert_eq!(test_frame.frame_counter(), 3);
    assert_eq!(test_frame.data_len(), None);
    assert_eq!(
        test_frame.payload(),
        [0x20, 0xFF, 0xFF, 0x00, 0x70, 0xFE, 0xFF]
    );
}

#[test]
fn first_frame_has_the_exact_wire_bytes() {
    let frame = Frame::first_frame(&[1, 2, 3, 4, 5, 6], 223, 7);
    assert_eq!(frame.bytes, [0xE0, 223, 1, 2, 3, 4, 5, 6]);
    assert!(frame.is_first_frame());
    assert_eq!(frame.sequence_counter(), 7);
    assert_eq!(frame.data_len(), Some(223));
}

#[test]
fn first_frame_keeps_three_bits_of_the_sequence_counter() {
    let frame = Frame::first_frame(&[0; 6], 0, 9);
    assert_eq!(frame.bytes[0], 0x20);
    assert_eq!(frame.sequence_counter(), 1);
    assert_eq!(frame.frame_counter(), 0);
}

#[test]
fn consecutive_frame_has_the_exact_wire_bytes() {
    let frame = Frame::consecutive_frame(&[1, 2, 3, 4, 5, 6, 7], 7, 31).unwrap();
    assert_eq!(frame.bytes, [0xFF, 1, 2, 3, 4, 5, 6, 7]);
    assert!(!frame.is_first_frame());
    assert_eq!(frame.sequence_counter(), 7);
    assert_eq!(frame.frame_counter(), 31);

    let frame = Frame::consecutive_frame(&[9; 7], 5, 2).unwrap();
    assert_eq!(frame.bytes[0], 0xA2);
}

#[test]
fn consecutive_frame_refuses_counters_out_of_range() {
    let payload: [u8; 7] = [0; 7];
    assert!(matches!(
        Frame::consecutive_frame(&payload, 8, 1),
        Err(Error::InvalidParameter)
    ));
    assert!(matches!(
        Frame::consecutive_frame(&payload, 0, 32),
        Err(Error::InvalidParameter)
    ));
    assert!(matches!(
        Frame::consecutive_frame(&payload, 255, 255),
        Err(Error::InvalidParameter)
    ));
    assert!(Frame::consecutive_frame(&payload, 7, 31).is_ok());
    assert!(Frame::consecutive_frame(&payload, 0, 0).is_ok());
}

#[test]
fn consecutive_frame_with_counter_zero_reads_as_a_first_frame() {
    let frame = Frame::consecutive_frame(&[10, 1, 2, 3, 4, 5, 6], 2, 0).unwrap();
    assert!(frame.is_first_frame());
    assert_eq!(frame.data_len(), Some(10));
    assert_eq!(frame.payload(), [1, 2, 3, 4, 5, 6]);
}

#[test]
fn from_bytes_copies_eight_bytes_unjudged() {
    let raw: [u8; 8] = [0xE3, 0x12, 0x00, 0x00, 0xFF, 0xFF, 0xFF, 0xFF];
    let frame = Frame::from_bytes(&raw);
    assert_eq!(frame.bytes, raw);
    assert_eq!(frame.sequence_counter(), 7);
    assert_eq!(frame.frame_counter(), 3);
    assert_eq!(frame.data_len(), None);
    assert_eq!(frame.payload(), [0x12, 0x00, 0x00, 0xFF, 0xFF, 0xFF, 0xFF]);
}

#[test]
fn from_bytes_completes_short_input_with_zeros() {
    let frame = Frame::from_bytes(&[0x41, 0x02, 0x03]);
    assert_eq!(frame.bytes, [0x41, 0x02, 0x03, 0, 0, 0, 0, 0]);
    let frame = Frame::from_bytes(&[]);
    assert_eq!(frame.bytes, [0; 8]);
}

#[test]
fn from_bytes_ignores_what_follows_the_eighth_byte() {
    let frame = Frame::from_bytes(&[1, 2, 3, 4, 5, 6, 7, 8, 9, 10]);
    assert_eq!(frame.bytes, [1, 2, 3, 4, 5, 6, 7, 8]);
}

#[test]
fn accessors_split_the_header_byte() {
    let frame = Frame::from_bytes(&[0b1011_0110, 0, 0, 0, 0, 0, 0, 0]);
    assert_eq!(frame.sequence_counter(), 0b101);
    assert_eq!(frame.frame_counter(), 0b1_0110);
    assert!(!frame.is_first_frame());
    let frame = Frame::from_bytes(&[0b1110_0000, 44, 0, 0, 0, 0, 0, 0]);
    assert!(frame.is_first_frame());
    assert_eq!(frame.data_len(), Some(44));
}

#[test]
fn frame_is_seen_as_its_eight_bytes() {
    let raw: [u8; 8] = [0x21, 1, 2, 3, 4, 5, 6, 7];
    let frame = Frame::from_bytes(&raw);
    let seen: &[u8] = frame.as_ref();
    assert_eq!(seen, raw);
    assert_eq!(frame.clone(), frame);
}
