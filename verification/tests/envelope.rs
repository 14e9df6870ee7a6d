use smoldot_core::envelope;
use smoldot_core::leb128;

#[test]
fn framed_echo_bytes_decode() {
    let bytes = [0x07u8, 0x08, 0x01, 0x12, 0x03, 0x61, 0x62, 0x63];
    assert_eq!(
        envelope::decode(&bytes),
        envelope::Decoded::Frame { frame_len: 8, flags: Some(1), message: Some((5, 8)) }
    );
    assert_eq!(&bytes[5..8], b"abc");
}

#[test]
fn encode_gives_the_bytes_of_the_wire() {
    assert_eq!(
        envelope::encode(Some(envelope::FLAG_STOP_SENDING), Some(b"abc")),
        vec![0x07u8, 0x08, 0x01, 0x12, 0x03, 0x61, 0x62, 0x63]
    );
}

#[test]
fn encode_then_decode_gives_the_same_fields() {
    for flags in [None, Some(0u64), Some(1), Some(2), Some(300), Some(u64::MAX)] {
        for message in [None, Some(&b""[..]), Some(&b"hello"[..])] {
            let bytes = envelope::encode(flags, message);
            match envelope::decode(&bytes) {
                envelope::Decoded::Frame { frame_len, flags: decoded_flags, message: range } => {
                    assert_eq!(frame_len, bytes.len());
                    assert_eq!(decoded_flags, flags);
                    assert_eq!(range.map(|(from, to)| &bytes[from..to]), message);
                }
                other => panic!("{:?}", other),
            }
        }
    }
}

#[test]
fn decode_ignores_what_follows_the_envelope() {
    let mut bytes = envelope::encode(Some(0), Some(b"xy"));
    let frame_len = bytes.len();
    bytes.extend_from_slice(&[0xff, 0xff, 0xff]);
    assert_eq!(
        envelope::decode(&bytes),
        envelope::Decoded::Frame { frame_len, flags: Some(0), message: Some((frame_len - 2, frame_len)) }
    );
}

#[test]
fn absent_message_is_omitted() {
    assert_eq!(envelope::encode(Some(envelope::FLAG_RESET_STREAM), None), vec![0x02u8, 0x08, 0x02]);
    assert_eq!(envelope::encode(None, None), vec![0x00u8]);
    assert_eq!(
        envelope::decode(&[0x00]),
        envelope::Decoded::Frame { frame_len: 1, flags: None, message: None }
    );
}

#[test]
fn empty_message_is_kept() {
    assert_eq!(envelope::encode(None, Some(&[])), vec![0x02u8, 0x12, 0x00]);
    assert_eq!(
        envelope::decode(&[0x02, 0x12, 0x00]),
        envelope::Decoded::Frame { frame_len: 3, flags: None, message: Some((3, 3)) }
    );
}

#[test]
fn frame_of_exactly_16_kib_is_accepted() {
    let message = vec![7u8; 16379];
    let bytes = envelope::encode(None, Some(&message));
    assert_eq!(bytes.len(), 16384);
    assert_eq!(
        envelope::decode(&bytes),
        envelope::Decoded::Frame { frame_len: 16384, flags: None, message: Some((5, 16384)) }
    );
}

#[test]
fn frame_of_16_kib_and_one_byte_is_refused() {
    let message = vec![7u8; 16380];
    let bytes = envelope::encode(None, Some(&message));
    assert_eq!(bytes.len(), 16385);
    assert_eq!(envelope::decode(&bytes), envelope::Decoded::Invalid);
    // The length alone is enough to tell.
    assert_eq!(envelope::decode(&bytes[..2]), envelope::Decoded::Invalid);
}

#[test]
fn cut_envelope_is_incomplete() {
    let bytes = envelope::encode(Some(1), Some(b"abc"));
    for len in 0..bytes.len() {
        assert_eq!(envelope::decode(&bytes[..len]), envelope::Decoded::Incomplete);
    }
    assert_eq!(envelope::decode(&[0x80]), envelope::Decoded::Incomplete);
}

#[test]
fn malformed_fields_are_invalid() {
    // Flag twice.
    assert_eq!(envelope::decode(&[0x04, 0x08, 0x01, 0x08, 0x01]), envelope::Decoded::Invalid);
    // Data twice.
    assert_eq!(envelope::decode(&[0x04, 0x12, 0x00, 0x12, 0x00]), envelope::Decoded::Invalid);
    // Flag with the wire type of a byte string.
    assert_eq!(envelope::decode(&[0x03, 0x0a, 0x01, 0x00]), envelope::Decoded::Invalid);
    // Data with the wire type of a number.
    assert_eq!(envelope::decode(&[0x02, 0x10, 0x01]), envelope::Decoded::Invalid);
    // Data longer than the body.
    assert_eq!(envelope::decode(&[0x03, 0x12, 0x05, 0x61]), envelope::Decoded::Invalid);
    // Body cut inside a key.
    assert_eq!(envelope::decode(&[0x01, 0x80]), envelope::Decoded::Invalid);
    // Unknown wire type.
    assert_eq!(envelope::decode(&[0x02, 0x1b, 0x00]), envelope::Decoded::Invalid);
}

#[test]
fn other_fields_are_skipped() {
    // Field 3 as a number, then the flag.
    assert_eq!(
        envelope::decode(&[0x04, 0x18, 0x05, 0x08, 0x02]),
        envelope::Decoded::Frame { frame_len: 5, flags: Some(2), message: None }
    );
    // Field 4 as a byte string, then the data.
    assert_eq!(
        envelope::decode(&[0x07, 0x22, 0x02, 0xaa, 0xbb, 0x12, 0x01, 0x63]),
        envelope::Decoded::Frame { frame_len: 8, flags: None, message: Some((7, 8)) }
    );
    // Field 5 as eight bytes and field 6 as four bytes.
    assert_eq!(
        envelope::decode(&[0x0e, 0x29, 1, 2, 3, 4, 5, 6, 7, 8, 0x35, 1, 2, 3, 4]),
        envelope::Decoded::Frame { frame_len: 15, flags: None, message: None }
    );
    // Field 5 cut short.
    assert_eq!(envelope::decode(&[0x03, 0x29, 1, 2]), envelope::Decoded::Invalid);
}

#[test]
fn leb128_encodes_least_significant_group_first() {
    assert_eq!(leb128::encode_u64(0), vec![0x00u8]);
    assert_eq!(leb128::encode_u64(127), vec![0x7fu8]);
    assert_eq!(leb128::encode_u64(128), vec![0x80u8, 0x01]);
    assert_eq!(leb128::encode_u64(300), vec![0xacu8, 0x02]);
    assert_eq!(leb128::encode_u64(16383), vec![0xffu8, 0x7f]);
    assert_eq!(leb128::encode_u64(16384), vec![0x80u8, 0x80, 0x01]);
    assert_eq!(
        leb128::encode_u64(u64::MAX),
        vec![0xffu8, 0xff, 0xff, 0xff, 0xff, 0xff, 0xff, 0xff, 0xff, 0x01]
    );
}

#[test]
fn leb128_decode_gives_back_what_was_encoded() {
    for value in [0u64, 1, 127, 128, 300, 16383, 16384, 1 << 32, u64::MAX - 1, u64::MAX] {
        let mut bytes = leb128::encode_u64(value);
        let len = bytes.len();
        bytes.push(0x55);
        assert_eq!(leb128::decode(&bytes), leb128::Decoded::Value { value, len });
    }
}

#[test]
fn leb128_decode_refuses_what_is_not_the_shortest_form() {
    assert_eq!(leb128::decode(&[0x81, 0x00]), leb128::Decoded::Invalid);
    assert_eq!(leb128::decode(&[0x80, 0x80, 0x00]), leb128::Decoded::Invalid);
    assert_eq!(leb128::decode(&[0x00]), leb128::Decoded::Value { value: 0, len: 1 });
}

#[test]
fn leb128_decode_refuses_more_than_64_bits() {
    let too_big = [0xffu8, 0xff, 0xff, 0xff, 0xff, 0xff, 0xff, 0xff, 0xff, 0x02];
    assert_eq!(leb128::decode(&too_big), leb128::Decoded::Invalid);
    let too_long = [0x80u8, 0x80, 0x80, 0x80, 0x80, 0x80, 0x80, 0x80, 0x80, 0x80, 0x01];
    assert_eq!(leb128::decode(&too_long), leb128::Decoded::Invalid);
    assert_eq!(leb128::decode(&too_long[..10]), leb128::Decoded::Invalid);
}

#[test]
fn leb128_decode_of_cut_number_is_incomplete() {
    assert_eq!(leb128::decode(&[]), leb128::Decoded::Incomplete);
    assert_eq!(leb128::decode(&[0x80]), leb128::Decoded::Incomplete);
    assert_eq!(leb128::decode(&[0xff, 0xff, 0xff]), leb128::Decoded::Incomplete);
}

#[test]
fn encode_into_appends() {
    let mut out = vec![1u8, 2];
    leb128::encode_into(300, &mut out);
    assert_eq!(out, vec![1u8, 2, 0xac, 0x02]);
    envelope::append_bytes(&mut out, &[9, 9]);
    assert_eq!(out, vec![1u8, 2, 0xac, 0x02, 9, 9]);
}
