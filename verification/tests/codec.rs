use hyperflow::conn::{parse_frame, ConnError};
use hyperflow::h2::{Frame, FrameType, Header, HeaderFlag, HeaderFlagMask};

#[test]
fn serialize_writes_all_nine_header_bytes_then_body() {
    let header = Header::from_fields(5, FrameType::Headers, HeaderFlagMask(0x05), 3);
    let frame = Frame::new(header, vec![10, 20, 30, 40, 50]);
    let bytes = frame.serialize();
    assert_eq!(bytes, vec![0, 0, 5, 1, 5, 0, 0, 0, 3, 10, 20, 30, 40, 50]);
}

#[test]
fn header_round_trips_through_encode_and_decode() {
    let header = Header::from_fields(300, FrameType::WindowUpdate, HeaderFlagMask(0xAB), 77);
    let frame = Frame::new(header, Vec::new());
    let bytes = frame.serialize();
    let decoded = Header::new(&bytes).unwrap();
    assert_eq!(decoded.length(), 300);
    assert_eq!(decoded.frame_type().val(), 8);
    assert_eq!(decoded.flag_mask().0, 0xAB);
    assert_eq!(decoded.stream_identifier(), 77);
}

#[test]
fn serialize_truncates_length_to_three_bytes() {
    let header = Header::from_fields(0x0102_0304, FrameType::Data, HeaderFlagMask(0), 1);
    let bytes = Frame::new(header, Vec::new()).serialize();
    assert_eq!(&bytes[0..3], &[0x02, 0x03, 0x04]);
}

#[test]
fn unknown_frame_type_byte_fails_decode() {
    let buf = [0u8, 0, 0, 0x0A, 0, 0, 0, 0, 1];
    assert!(Header::new(&buf).is_err());
    assert!(FrameType::new(10).is_err());
    assert!(FrameType::new(255).is_err());
}

#[test]
fn every_known_frame_type_round_trips_its_code() {
    for code in 0u8..=9 {
        let ft = FrameType::new(code).unwrap();
        assert_eq!(ft.val(), code);
    }
}

#[test]
fn reserved_stream_id_bit_is_cleared_without_error() {
    let buf = [0u8, 0, 0, 4, 0, 0x80, 0, 0, 5];
    let header = Header::new(&buf).unwrap();
    assert_eq!(header.stream_identifier(), 5);

    let buf = [0u8, 0, 0, 0, 0, 0xFF, 0xFF, 0xFF, 0xFF];
    let header = Header::new(&buf).unwrap();
    assert_eq!(header.stream_identifier(), 0x7FFF_FFFF);
}

#[test]
fn flag_operations_are_independent() {
    let mut mask = HeaderFlagMask(0);
    mask.add(HeaderFlag::EndStream);
    assert!(mask.check(HeaderFlag::EndStream));
    assert!(!mask.check(HeaderFlag::EndHeaders));
    mask.add(HeaderFlag::EndHeaders);
    assert!(mask.check(HeaderFlag::EndStream));
    assert!(mask.check(HeaderFlag::EndHeaders));
    mask.remove(HeaderFlag::EndStream);
    assert!(!mask.check(HeaderFlag::EndStream));
    assert!(mask.check(HeaderFlag::EndHeaders));
    assert!(!mask.check(HeaderFlag::Padded));
    assert!(!mask.check(HeaderFlag::Priority));
}

#[test]
fn unknown_flag_bits_are_preserved_verbatim() {
    let mut mask = HeaderFlagMask(0xFF);
    mask.remove(HeaderFlag::Padded);
    assert_eq!(mask.0, 0xF7);
    let mut mask = HeaderFlagMask(0x40);
    mask.add(HeaderFlag::Priority);
    assert_eq!(mask.0, 0x60);
}

#[test]
fn parsed_frame_body_length_matches_header_length() {
    let header = Header::new(&[0u8, 0, 3, 0, 1, 0, 0, 0, 9]).unwrap();
    let frame = parse_frame(header, vec![7, 8, 9]).unwrap();
    assert_eq!(frame.body.len() as u32, frame.header.length());
    assert_eq!(frame.body, vec![7, 8, 9]);
}

#[test]
fn frame_with_wrong_body_length_fails_to_parse() {
    let header = Header::new(&[0u8, 0, 3, 0, 1, 0, 0, 0, 9]).unwrap();
    assert_eq!(parse_frame(header, vec![7, 8]).unwrap_err(), ConnError::Eof);
    let header = Header::new(&[0u8, 0, 0, 0, 0, 0, 0, 0, 9]).unwrap();
    assert_eq!(parse_frame(header, vec![1]).unwrap_err(), ConnError::Eof);
}

#[test]
fn unknown_frame_type_error_is_identifiable() {
    assert_eq!(FrameType::new(10).unwrap_err(), "not a valid frame type");
    let buf = [0u8, 0, 0, 0x0A, 0, 0, 0, 0, 1];
    assert_eq!(Header::new(&buf).unwrap_err(), "not a valid frame type");
}
