use websock::error::InvalidFrame;
use websock::frame::{decode_one, encode_one, xor_payload, Decoded, Opcode, RawFrame, Role, StatusCode};

fn decode_frame(role: Role, bytes: &Vec<u8>) -> (RawFrame, usize) {
    match decode_one(role, bytes) {
        Ok(Decoded::Frame(f, n)) => (f, n),
        other => panic!("expected a complete frame, got {:?}", other),
    }
}

#[test]
fn decodes_masked_text_hello() {
    // fin=1, opcode=1, masked, key=37fa213d, payload "Hello".
    let bytes = vec![0x81, 0x85, 0x37, 0xfa, 0x21, 0x3d, 0x7f, 0x9f, 0x4d, 0x51, 0x58];
    let (frame, used) = decode_frame(Role::Server, &bytes);
    assert!(frame.fin);
    assert_eq!(frame.opcode, Opcode::Text);
    assert_eq!(frame.payload, b"Hello".to_vec());
    assert_eq!(used, 11);
}

#[test]
fn encodes_server_text_hello() {
    let frame = RawFrame { fin: true, opcode: Opcode::Text, payload: b"Hello".to_vec() };
    let out = encode_one(Role::Server, &frame);
    assert_eq!(out, vec![0x81, 0x05, 0x48, 0x65, 0x6c, 0x6c, 0x6f]);
}

#[test]
fn client_binary_frame_is_masked() {
    let frame = RawFrame { fin: true, opcode: Opcode::Binary, payload: vec![0xDE, 0xAD, 0xBE, 0xEF] };
    let out = encode_one(Role::Client, &frame);
    assert_eq!(out.len(), 10);
    assert_eq!(out[0], 0x82);
    assert_eq!(out[1], 0x84);
    // Unmasking with the key written into the frame restores the payload.
    let key = u32::from_be_bytes([out[2], out[3], out[4], out[5]]);
    let mut payload = out[6..10].to_vec();
    xor_payload(key, &mut payload);
    assert_eq!(payload, vec![0xDE, 0xAD, 0xBE, 0xEF]);
}

#[test]
fn client_mask_key_varies_between_frames() {
    let frame = RawFrame { fin: true, opcode: Opcode::Binary, payload: vec![0xDE, 0xAD, 0xBE, 0xEF] };
    let a = encode_one(Role::Client, &frame);
    let frame = RawFrame { fin: true, opcode: Opcode::Binary, payload: vec![0xDE, 0xAD, 0xBE, 0xEF] };
    let b = encode_one(Role::Client, &frame);
    assert_ne!(&a[2..6], &b[2..6], "two fresh masking keys collided");
}

#[test]
fn server_rejects_unmasked_frame() {
    // A well-formed but unmasked text frame, arriving at a server.
    let bytes = vec![0x81, 0x05, 0x48, 0x65, 0x6c, 0x6c, 0x6f];
    assert_eq!(decode_one(Role::Server, &bytes), Err(InvalidFrame::PayloadSize));
}

#[test]
fn reserved_bits_are_rejected() {
    // fin=1, RSV1=1, opcode=1.
    let bytes = vec![0xC1, 0x00];
    assert_eq!(decode_one(Role::Client, &bytes), Err(InvalidFrame::Inconsistent));
    assert_eq!(decode_one(Role::Server, &bytes), Err(InvalidFrame::Inconsistent));
}

#[test]
fn unknown_opcode_is_rejected() {
    let bytes = vec![0x83, 0x00];
    assert_eq!(decode_one(Role::Client, &bytes), Err(InvalidFrame::Opcode(3)));
}

#[test]
fn fragmented_control_frame_is_rejected() {
    // fin=0, opcode=Ping.
    let bytes = vec![0x09, 0x00];
    assert_eq!(decode_one(Role::Client, &bytes), Err(InvalidFrame::Inconsistent));
}

#[test]
fn oversized_control_frame_is_rejected() {
    // A Close frame claiming a 200-byte payload via the 16-bit length.
    let mut bytes = vec![0x88, 0x7E, 0x00, 0xC8];
    bytes.extend(std::iter::repeat(0u8).take(200));
    assert_eq!(decode_one(Role::Client, &bytes), Err(InvalidFrame::Inconsistent));
}

#[test]
fn incomplete_input_asks_for_more() {
    assert!(matches!(decode_one(Role::Client, &vec![]), Ok(Decoded::Incomplete)));
    assert!(matches!(decode_one(Role::Client, &vec![0x81]), Ok(Decoded::Incomplete)));
    assert!(matches!(decode_one(Role::Client, &vec![0x81, 0x05, 0x48]), Ok(Decoded::Incomplete)));
    // Masked frame: header and key present, payload still short.
    let bytes = vec![0x81, 0x85, 0x37, 0xfa, 0x21, 0x3d, 0x7f];
    assert!(matches!(decode_one(Role::Server, &bytes), Ok(Decoded::Incomplete)));
}

#[test]
fn server_round_trip_is_byte_identical() {
    for len in [0usize, 125, 126, 1000, 65535, 65536] {
        let payload: Vec<u8> = (0..len).map(|i| (i % 251) as u8).collect();
        let frame = RawFrame { fin: true, opcode: Opcode::Binary, payload: payload.clone() };
        let bytes = encode_one(Role::Server, &frame);
        let (decoded, used) = decode_frame(Role::Client, &bytes);
        assert_eq!(used, bytes.len());
        assert!(decoded.fin);
        assert_eq!(decoded.opcode, Opcode::Binary);
        assert_eq!(decoded.payload, payload);
        let again = encode_one(Role::Server, &decoded);
        assert_eq!(again, bytes);
    }
}

#[test]
fn client_round_trip_restores_payload() {
    for len in [0usize, 5, 126, 65536] {
        let payload: Vec<u8> = (0..len).map(|i| (i % 245) as u8).collect();
        let frame = RawFrame { fin: false, opcode: Opcode::Text, payload: payload.clone() };
        let bytes = encode_one(Role::Client, &frame);
        let (decoded, used) = decode_frame(Role::Server, &bytes);
        assert_eq!(used, bytes.len());
        assert!(!decoded.fin);
        assert_eq!(decoded.opcode, Opcode::Text);
        assert_eq!(decoded.payload, payload);
        // Re-encoding matches in everything but the masking key region.
        let again = encode_one(Role::Client, &decoded);
        assert_eq!(again.len(), bytes.len());
        assert_eq!(again[0], bytes[0]);
        assert_eq!(again[1], bytes[1]);
    }
}

#[test]
fn shortest_length_form_is_used() {
    let small = RawFrame { fin: true, opcode: Opcode::Binary, payload: vec![0u8; 125] };
    assert_eq!(encode_one(Role::Server, &small)[1], 125);
    let medium = RawFrame { fin: true, opcode: Opcode::Binary, payload: vec![0u8; 126] };
    let bytes = encode_one(Role::Server, &medium);
    assert_eq!(bytes[1], 126);
    assert_eq!((bytes[2], bytes[3]), (0x00, 0x7E));
    let large = RawFrame { fin: true, opcode: Opcode::Binary, payload: vec![0u8; 65536] };
    let bytes = encode_one(Role::Server, &large);
    assert_eq!(bytes[1], 127);
    assert_eq!(&bytes[2..10], &[0, 0, 0, 0, 0, 1, 0, 0]);
}

#[test]
fn frame_payload_at_the_limit_is_accepted() {
    let payload = vec![9u8; 16 * 1024 * 1024];
    let frame = RawFrame { fin: true, opcode: Opcode::Binary, payload: payload.clone() };
    let bytes = encode_one(Role::Server, &frame);
    let (decoded, used) = decode_frame(Role::Client, &bytes);
    assert_eq!(used, bytes.len());
    assert_eq!(decoded.payload, payload);
}

#[test]
fn oversized_frame_payload_is_rejected() {
    // A frame claiming 16 MiB + 1 bytes of payload.
    let claimed: u64 = 16 * 1024 * 1024 + 1;
    let mut bytes = vec![0x82, 0x7F];
    bytes.extend(claimed.to_be_bytes());
    assert_eq!(decode_one(Role::Client, &bytes), Err(InvalidFrame::PayloadSize));
}

#[test]
fn xor_payload_is_an_involution() {
    let original: Vec<u8> = (0..23).collect();
    let mut payload = original.clone();
    xor_payload(0xDEADBEEF, &mut payload);
    assert_ne!(payload, original);
    xor_payload(0xDEADBEEF, &mut payload);
    assert_eq!(payload, original);
}

#[test]
fn opcode_wire_values_round_trip() {
    for (raw, op) in [
        (0x0u8, Opcode::Continuation),
        (0x1, Opcode::Text),
        (0x2, Opcode::Binary),
        (0x8, Opcode::Close),
        (0x9, Opcode::Ping),
        (0xA, Opcode::Pong),
    ] {
        assert_eq!(Opcode::try_from_u8(raw), Ok(op));
        assert_eq!(op.to_u8(), raw);
    }
    assert_eq!(Opcode::try_from_u8(0x3), Err(InvalidFrame::Opcode(3)));
    assert_eq!(Opcode::try_from_u8(0xF), Err(InvalidFrame::Opcode(15)));
}

#[test]
fn status_code_wire_values_round_trip() {
    for (raw, code) in [
        (1000u16, StatusCode::NormalClosure),
        (1001, StatusCode::GoingAway),
        (1002, StatusCode::ProtocolError),
        (1003, StatusCode::UnknownType),
        (1007, StatusCode::InconsistentData),
        (1008, StatusCode::PolicyViolation),
        (1009, StatusCode::MessageTooBig),
        (1011, StatusCode::UnexpectedCondition),
    ] {
        assert_eq!(StatusCode::try_from_u16(raw), Ok(code));
        assert_eq!(code.to_u16(), raw);
    }
    // The reserved codes never appear on the wire.
    assert_eq!(StatusCode::try_from_u16(1005), Err(InvalidFrame::Code(1005)));
    assert_eq!(StatusCode::try_from_u16(1006), Err(InvalidFrame::Code(1006)));
}
