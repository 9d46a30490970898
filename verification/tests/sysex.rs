use ml10x::device::{HeaderPos, MODEL_BYTE};
use ml10x::sysex::{
    build_header, checksum, decode_ascii_name, decode_uuid_nibbles, encode_segment, frame,
    iter_segments, parse_header, parse_header_with, SysexError, EOX, SOX,
};
use ml10x::device::ml10x;

#[test]
fn checksum_matches_editor_definition() {
    // XOR over [F0, 00, 01, 02, 03] = 0xF0 ^ 0 ^ 1 ^ 2 ^ 3 = 0xF0
    // masked to 7 bits = 0x70.
    let msg = [0xF0u8, 0x00, 0x01, 0x02, 0x03, 0x00, 0xF7];
    assert_eq!(checksum(&msg).unwrap(), 0x70);
}

#[test]
fn build_header_layout() {
    let h = build_header(1, 2, 3, 4, 5, 6, 7, 8);
    assert_eq!(h.len(), 16);
    assert_eq!(h[HeaderPos::SysexStart.idx()], SOX);
    assert_eq!(h[HeaderPos::ManfId1.idx()], 0x00);
    assert_eq!(h[HeaderPos::ManfId2.idx()], 0x21);
    assert_eq!(h[HeaderPos::ManfId3.idx()], 0x24);
    assert_eq!(h[HeaderPos::ModelId.idx()], MODEL_BYTE);
    assert_eq!(h[HeaderPos::VersionId1.idx()], 0);
    assert_eq!(h[HeaderPos::FunctionId1.idx()], 1);
    assert_eq!(h[HeaderPos::FunctionId8.idx()], 8);
    assert_eq!(h[14], 0);
    assert_eq!(h[15], 0);
}

#[test]
fn function_bytes_masked_to_7_bits() {
    let h = build_header(0xFF, 0x80, 0, 0, 0, 0, 0, 0);
    assert_eq!(h[HeaderPos::FunctionId1.idx()], 0x7F);
    assert_eq!(h[HeaderPos::FunctionId2.idx()], 0x00);
}

#[test]
fn frame_round_trip_no_segments() {
    let h = build_header(0, 29, 0, 0, 0, 0, 0, 0);
    let msg = frame(&h, &[]).unwrap();
    assert_eq!(msg[0], SOX);
    assert_eq!(*msg.last().unwrap(), EOX);
    let parsed = parse_header(&msg).unwrap();
    assert_eq!(parsed.p2, 29);
    assert_eq!(parsed.model_id, MODEL_BYTE);
}

#[test]
fn frame_round_trip_with_segments() {
    let h = build_header(0, 29, 2, 0, 0, 0, 0, 0);
    let segs = vec![encode_segment(1, &[0x10, 0x20, 0x30]), encode_segment(2, b"hi")];
    let msg = frame(&h, &segs).unwrap();
    let parsed = parse_header(&msg).unwrap();
    assert_eq!(parsed.p2, 29);
    let extracted = iter_segments(&msg).unwrap();
    assert_eq!(extracted, vec![(1u8, vec![0x10, 0x20, 0x30]), (2, b"hi".to_vec())]);
}

#[test]
fn parse_rejects_wrong_manufacturer() {
    let mut bad = frame(&build_header(0, 0, 0, 0, 0, 0, 0, 0), &[]).unwrap();
    bad[1] = 0x11;
    match parse_header(&bad) {
        Err(SysexError::WrongManufacturer { .. }) => {}
        other => panic!("expected WrongManufacturer, got {other:?}"),
    }
}

#[test]
fn parse_rejects_wrong_model_byte() {
    let mut bad = frame(&build_header(0, 0, 0, 0, 0, 0, 0, 0), &[]).unwrap();
    bad[HeaderPos::ModelId.idx()] = 0x04; // MC8, not ML10X
    match parse_header(&bad) {
        Err(SysexError::WrongModelByte { .. }) => {}
        other => panic!("expected WrongModelByte, got {other:?}"),
    }
}

#[test]
fn parse_rejects_bad_checksum() {
    let mut bad = frame(&build_header(0, 0, 0, 0, 0, 0, 0, 0), &[]).unwrap();
    let n = bad.len();
    bad[n - 2] ^= 0x01;
    match parse_header(&bad) {
        Err(SysexError::BadChecksum { .. }) => {}
        other => panic!("expected BadChecksum, got {other:?}"),
    }
}

#[test]
fn segment_payload_masked_to_7_bits() {
    let seg = encode_segment(1, &[0xFF, 0x80, 0x42]);
    assert_eq!(seg, vec![0x7F, 0x01, 0x03, 0x7F, 0x00, 0x42]);
}

#[test]
fn frame_validates_header_length() {
    let result = frame(&[0xF0], &[]);
    match result {
        Err(SysexError::BadHeaderLength { expected: 16, .. }) => {}
        other => panic!("expected BadHeaderLength, got {other:?}"),
    }
}

#[test]
fn iter_segments_stops_at_trailing_padding() {
    let msg = frame(&build_header(0, 0, 0, 0, 0, 0, 0, 0), &[]).unwrap();
    assert_eq!(iter_segments(&msg).unwrap(), vec![]);
}

#[test]
fn decode_ascii_strips_padding() {
    assert_eq!(decode_ascii_name(b"hi      "), "hi");
    assert_eq!(decode_ascii_name(b"hi\0\0\0"), "hi");
}

#[test]
fn decode_uuid_nibbles_formats_correctly() {
    let data: Vec<u8> = (0..32u8).map(|i| i & 0x0F).collect();
    let uuid = decode_uuid_nibbles(&data).unwrap();
    assert_eq!(uuid, "01234567-89ab-cdef-0123-456789abcdef");
}

// ---- further cases ----

#[test]
fn checksum_rejects_short_frames() {
    assert!(matches!(checksum(&[0xF0, 0xF7]), Err(SysexError::TooShortForChecksum)));
}

#[test]
fn checksum_of_built_frame_is_exact() {
    let msg = frame(&build_header(0, 29, 0, 0, 0, 0, 0, 0), &[]).unwrap();
    let mut x: u8 = 0;
    for b in &msg[..msg.len() - 2] {
        x ^= *b;
    }
    assert_eq!(msg[msg.len() - 2], x & 0x7F);
    assert_eq!(checksum(&msg).unwrap(), x & 0x7F);
}

#[test]
fn parse_rejects_short_messages() {
    assert!(matches!(parse_header(&[0xF0; 17]), Err(SysexError::MessageTooShort(17))));
}

#[test]
fn parse_rejects_missing_delimiters() {
    let mut bad = frame(&build_header(0, 0, 0, 0, 0, 0, 0, 0), &[]).unwrap();
    let n = bad.len();
    bad[n - 1] = 0x00;
    assert!(matches!(parse_header(&bad), Err(SysexError::MissingDelimiters)));
}

#[test]
fn parse_reads_length_field_and_last_chunk_flag() {
    let mut h = build_header(0, 0, 0, 0, 0, 0, 0, 0);
    // msb 0x40 | 0x00 (last chunk), lsb 18 -> declared length 18.
    h[14] = 0x40;
    h[15] = 18;
    let msg = frame(&h, &[]).unwrap();
    assert_eq!(msg.len(), 18);
    let info = parse_header_with(ml10x(), &msg, true).unwrap();
    assert_eq!(info.declared_length, 18);
    assert!(info.is_last_chunk);
    h[15] = 19;
    let msg = frame(&h, &[]).unwrap();
    match parse_header_with(ml10x(), &msg, true) {
        Err(SysexError::LengthFieldMismatch { declared: 19, actual: 18, msb: 0x40, lsb: 19 }) => {}
        other => panic!("expected LengthFieldMismatch, got {other:?}"),
    }
}

#[test]
fn frame_rejects_header_of_another_device() {
    let mut h = build_header(0, 0, 0, 0, 0, 0, 0, 0);
    h[4] = 0x04;
    assert!(matches!(
        frame(&h, &[]),
        Err(SysexError::HeaderDeviceMismatch { header: 0x04, device: 0x07 })
    ));
}

#[test]
fn iter_segments_reports_truncated_segment() {
    let h = build_header(0, 0, 0, 0, 0, 0, 0, 0);
    // A segment claiming 5 bytes with only 2 present.
    let msg = frame(&h, &[vec![0x7F, 0x01, 0x05, 0x10, 0x11]]).unwrap();
    match iter_segments(&msg) {
        Err(SysexError::SegmentTruncated { offset: 16, declared: 5, available: 2 }) => {}
        other => panic!("expected SegmentTruncated, got {other:?}"),
    }
}

#[test]
fn decode_ascii_replaces_non_ascii() {
    assert_eq!(decode_ascii_name(&[b'a', 0xC3, b'b', b' ']), "a\u{FFFD}b");
    assert_eq!(decode_ascii_name(b"   "), "");
}

#[test]
fn decode_uuid_rejects_wrong_length() {
    assert!(matches!(decode_uuid_nibbles(&[0u8; 31]), Err(SysexError::MessageTooShort(31))));
}
