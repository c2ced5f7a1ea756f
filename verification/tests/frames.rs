use twist::codec::{decode, encode, Decoded};
use twist::frame::{Frame, OpCode};
use twist::mask::apply_mask;
use twist::ProtocolError;

fn data_frame(opcode: OpCode, payload: Vec<u8>, masked: bool, mask: u32) -> Frame {
    let len = payload.len() as u64;
    Frame {
        fin: true,
        rsv1: false,
        rsv2: false,
        rsv3: false,
        opcode,
        masked,
        mask: if masked { mask } else { 0 },
        payload_length: len,
        extension_data: None,
        application_data: if payload.is_empty() { None } else { Some(payload) },
    }
}

fn assert_round_trip(frame: Frame, client: bool) {
    let expected_len = frame.payload_length;
    let expected_opcode = frame.opcode;
    let expected_masked = frame.masked;
    let expected_data = frame.application_data.clone();
    let bytes = encode(&frame);
    match decode(&bytes, client) {
        Decoded::Complete(out, consumed) => {
            assert_eq!(consumed, bytes.len());
            assert!(out.fin);
            assert!(!out.rsv1 && !out.rsv2 && !out.rsv3);
            assert_eq!(out.opcode, expected_opcode);
            assert_eq!(out.masked, expected_masked);
            assert_eq!(out.payload_length, expected_len);
            assert_eq!(out.application_data, expected_data);
            assert!(out.extension_data.is_none());
        }
        _ => panic!("expected a complete frame"),
    }
}

#[test]
fn round_trip_length_boundaries() {
    // Payload lengths at the 7/16/64-bit encoding boundaries.
    for &len in &[0usize, 125, 126, 65536] {
        let payload: Vec<u8> = (0..len).map(|i| (i % 251) as u8).collect();
        assert_round_trip(data_frame(OpCode::Binary, payload, false, 0), true);
    }
}

#[test]
fn round_trip_masked() {
    for &len in &[0usize, 125, 126, 65536] {
        let payload: Vec<u8> = (0..len).map(|i| (i % 13) as u8).collect();
        assert_round_trip(data_frame(OpCode::Text, payload, true, 0xdead_beef), false);
    }
}

#[test]
fn wire_lengths_are_minimal() {
    let b = encode(&data_frame(OpCode::Binary, vec![7u8; 125], false, 0));
    assert_eq!(b.len(), 2 + 125);
    assert_eq!(b[1], 125);
    let b = encode(&data_frame(OpCode::Binary, vec![7u8; 126], false, 0));
    assert_eq!(b.len(), 2 + 2 + 126);
    assert_eq!(b[1], 126);
    let b = encode(&data_frame(OpCode::Binary, vec![7u8; 65536], false, 0));
    assert_eq!(b.len(), 2 + 8 + 65536);
    assert_eq!(b[1], 127);
}

#[test]
fn mask_is_involution() {
    let data = vec![0u8, 1, 2, 3, 250, 251, 252, 253, 254, 255, 42];
    let key = 0x1234_5678;
    let once = apply_mask(&data, key);
    assert_ne!(once, data);
    let twice = apply_mask(&once, key);
    assert_eq!(twice, data);
}

#[test]
fn mask_is_involution_empty() {
    let data: Vec<u8> = Vec::new();
    let once = apply_mask(&data, 0xffff_ffff);
    let twice = apply_mask(&once, 0xffff_ffff);
    assert!(once.is_empty());
    assert_eq!(twice, data);
}

#[test]
fn decode_pong_two_bytes() {
    // An unmasked, empty Pong, as a server sends it.
    let buf = vec![0x8au8, 0x00];
    match decode(&buf, true) {
        Decoded::Complete(frame, consumed) => {
            assert_eq!(consumed, 2);
            assert!(frame.fin);
            assert!(!frame.rsv1);
            assert!(!frame.rsv2);
            assert!(!frame.rsv3);
            assert_eq!(frame.opcode, OpCode::Pong);
            assert!(!frame.masked);
            assert_eq!(frame.mask, 0);
            assert_eq!(frame.payload_length, 0);
            assert!(frame.extension_data.is_none());
            assert!(frame.application_data.is_none());
            let encoded = encode(&frame);
            assert_eq!(encoded, buf);
        }
        _ => panic!("expected a complete frame"),
    }
}

#[test]
fn control_frame_length_126_rejected() {
    // A Ping declaring base length 126, final and non-final alike.
    let fin = vec![0x89u8, 126, 0, 5];
    match decode(&fin, true) {
        Decoded::Violation(e) => assert_eq!(e, ProtocolError::OversizedControl),
        _ => panic!("expected a violation"),
    }
    let nonfin = vec![0x09u8, 126, 0, 5];
    match decode(&nonfin, true) {
        Decoded::Violation(e) => assert_eq!(e, ProtocolError::NonFinalControl),
        _ => panic!("expected a violation"),
    }
}

#[test]
fn reserved_bits_rejected() {
    for b0 in [0xc1u8, 0xa1, 0x91] {
        match decode(&vec![b0, 0x00], true) {
            Decoded::Violation(e) => assert_eq!(e, ProtocolError::ReservedBits),
            _ => panic!("expected a violation"),
        }
    }
}

#[test]
fn mask_direction_enforced() {
    // A client must not receive a masked frame.
    let masked = vec![0x82u8, 0x80, 1, 2, 3, 4];
    match decode(&masked, true) {
        Decoded::Violation(e) => assert_eq!(e, ProtocolError::MaskDirection),
        _ => panic!("expected a violation"),
    }
    // A server must not receive an unmasked frame.
    let unmasked = vec![0x82u8, 0x00];
    match decode(&unmasked, false) {
        Decoded::Violation(e) => assert_eq!(e, ProtocolError::MaskDirection),
        _ => panic!("expected a violation"),
    }
}

#[test]
fn sixty_four_bit_length_top_bit_rejected() {
    let buf = vec![0x82u8, 127, 0x80, 0, 0, 0, 0, 0, 0, 1];
    match decode(&buf, true) {
        Decoded::Violation(e) => assert_eq!(e, ProtocolError::BadLengthEncoding),
        _ => panic!("expected a violation"),
    }
}

#[test]
fn incomplete_input_is_not_an_error() {
    assert!(matches!(decode(&vec![], true), Decoded::Incomplete));
    assert!(matches!(decode(&vec![0x82u8], true), Decoded::Incomplete));
    // Extended length not fully buffered.
    assert!(matches!(decode(&vec![0x82u8, 126, 0], true), Decoded::Incomplete));
    // Payload not fully buffered.
    assert!(matches!(decode(&vec![0x82u8, 2, 9], true), Decoded::Incomplete));
    // Mask key not fully buffered.
    assert!(matches!(decode(&vec![0x82u8, 0x81, 1, 2], false), Decoded::Incomplete));
}

#[test]
fn excess_bytes_left_for_next_frame() {
    let mut buf = vec![0x8au8, 0x00];
    buf.extend_from_slice(&[0x81, 0x01, b'x']);
    match decode(&buf, true) {
        Decoded::Complete(frame, consumed) => {
            assert_eq!(frame.opcode, OpCode::Pong);
            assert_eq!(consumed, 2);
        }
        _ => panic!("expected a complete frame"),
    }
}

#[test]
fn masked_payload_is_unmasked() {
    // "ab" masked with key 0x01020304, in the server role.
    let masked_payload = [b'a' ^ 0x01, b'b' ^ 0x02];
    let buf = vec![0x81u8, 0x82, 0x01, 0x02, 0x03, 0x04, masked_payload[0], masked_payload[1]];
    match decode(&buf, false) {
        Decoded::Complete(frame, consumed) => {
            assert_eq!(consumed, 8);
            assert_eq!(frame.mask, 0x01020304);
            assert_eq!(frame.application_data, Some(vec![b'a', b'b']));
        }
        _ => panic!("expected a complete frame"),
    }
}

#[test]
fn non_canonical_length_accepted() {
    // Length 5 encoded in 16 bits: accepted, and re-encoded minimally.
    let buf = vec![0x82u8, 126, 0, 5, 1, 2, 3, 4, 5];
    match decode(&buf, true) {
        Decoded::Complete(frame, consumed) => {
            assert_eq!(consumed, buf.len());
            assert_eq!(frame.payload_length, 5);
            let canonical = encode(&frame);
            assert_eq!(canonical, vec![0x82u8, 5, 1, 2, 3, 4, 5]);
        }
        _ => panic!("expected a complete frame"),
    }
}

#[test]
fn drained_buffer_decodes_next_frame() {
    let mut buf = vec![0x8au8, 0x00, 0x81, 0x01, b'x'];
    match decode(&buf, true) {
        Decoded::Complete(frame, consumed) => {
            assert_eq!(frame.opcode, OpCode::Pong);
            twist::codec::drain_prefix(&mut buf, consumed);
        }
        _ => panic!("expected a complete frame"),
    }
    match decode(&buf, true) {
        Decoded::Complete(frame, consumed) => {
            assert_eq!(frame.opcode, OpCode::Text);
            assert_eq!(frame.application_data, Some(vec![b'x']));
            assert_eq!(consumed, buf.len());
        }
        _ => panic!("expected the second frame"),
    }
}

#[test]
fn role_configured_codec_instances() {
    let client = twist::codec::FrameCodec::new(true);
    assert!(client.client());
    let server = twist::codec::FrameCodec::new(false);
    assert!(!server.client());
    // The client accepts the unmasked pong; the server rejects it.
    let buf = vec![0x8au8, 0x00];
    assert!(matches!(client.decode(&buf), Decoded::Complete(_, 2)));
    assert!(matches!(
        server.decode(&buf),
        Decoded::Violation(ProtocolError::MaskDirection)
    ));
    // A frame built from a cleared template re-encodes through either
    // role's instance identically.
    let mut f = Frame::empty();
    f.fin = true;
    f.opcode = OpCode::Pong;
    assert_eq!(server.encode(&f), buf);
    assert_eq!(client.encode(&f), buf);
}
