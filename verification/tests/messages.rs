use twist::frame::{Frame, OpCode};
use twist::message::WebSocketMessage;
use twist::twist::{message_to_frame, TwistCodec};
use twist::ProtocolError;

fn frame(opcode: OpCode, fin: bool, payload: &[u8]) -> Frame {
    Frame {
        fin,
        rsv1: false,
        rsv2: false,
        rsv3: false,
        opcode,
        masked: false,
        mask: 0,
        payload_length: payload.len() as u64,
        extension_data: None,
        application_data: if payload.is_empty() { None } else { Some(payload.to_vec()) },
    }
}

#[test]
fn three_fragments_reassemble_in_order() {
    let mut codec = TwistCodec::new();
    assert_eq!(codec.on_frame(frame(OpCode::Text, false, b"one ")), Ok(None));
    assert_eq!(codec.on_frame(frame(OpCode::Continuation, false, b"two ")), Ok(None));
    match codec.on_frame(frame(OpCode::Continuation, true, b"three")) {
        Ok(Some(WebSocketMessage::Text(data))) => assert_eq!(data, b"one two three".to_vec()),
        _ => panic!("expected an assembled Text message"),
    }
    // The accumulator is closed again: a lone continuation is invalid.
    assert_eq!(
        codec.on_frame(frame(OpCode::Continuation, true, b"x")),
        Err(ProtocolError::Fragmentation)
    );
}

#[test]
fn data_frame_over_open_accumulator_rejected() {
    let mut codec = TwistCodec::new();
    assert_eq!(codec.on_frame(frame(OpCode::Text, false, b"one ")), Ok(None));
    assert_eq!(
        codec.on_frame(frame(OpCode::Text, true, b"interloper")),
        Err(ProtocolError::Fragmentation)
    );
    // The violation leaves the accumulator as it was: the sequence can
    // still be closed.
    match codec.on_frame(frame(OpCode::Continuation, true, b"two")) {
        Ok(Some(WebSocketMessage::Text(data))) => assert_eq!(data, b"one two".to_vec()),
        _ => panic!("expected an assembled Text message"),
    }
}

#[test]
fn control_frames_interleave_with_open_accumulator() {
    let mut codec = TwistCodec::new();
    assert_eq!(codec.on_frame(frame(OpCode::Binary, false, &[1, 2])), Ok(None));
    match codec.on_frame(frame(OpCode::Ping, true, b"hi")) {
        Ok(Some(WebSocketMessage::Ping(Some(d)))) => assert_eq!(d, b"hi".to_vec()),
        _ => panic!("expected a Ping message"),
    }
    match codec.on_frame(frame(OpCode::Continuation, true, &[3])) {
        Ok(Some(WebSocketMessage::Binary(data))) => assert_eq!(data, vec![1, 2, 3]),
        _ => panic!("expected an assembled Binary message"),
    }
}

#[test]
fn unfragmented_data_frames_emit_immediately() {
    let mut codec = TwistCodec::new();
    match codec.on_frame(frame(OpCode::Text, true, b"hello")) {
        Ok(Some(WebSocketMessage::Text(data))) => assert_eq!(data, b"hello".to_vec()),
        _ => panic!("expected a Text message"),
    }
    match codec.on_frame(frame(OpCode::Binary, true, &[])) {
        Ok(Some(WebSocketMessage::Binary(data))) => assert!(data.is_empty()),
        _ => panic!("expected a Binary message"),
    }
}

#[test]
fn continuation_without_accumulator_rejected() {
    let mut codec = TwistCodec::new();
    assert_eq!(
        codec.on_frame(frame(OpCode::Continuation, false, b"x")),
        Err(ProtocolError::Fragmentation)
    );
}

#[test]
fn reserved_opcode_rejected_by_assembler() {
    let mut codec = TwistCodec::new();
    assert_eq!(
        codec.on_frame(frame(OpCode::Reserved(3), true, b"x")),
        Err(ProtocolError::ReservedOpcode)
    );
}

#[test]
fn close_payload_parsed_into_code_and_reason() {
    let mut codec = TwistCodec::new();
    let mut payload = vec![0x03u8, 0xe8];
    payload.extend_from_slice(b"done");
    match codec.on_frame(frame(OpCode::Close, true, &payload)) {
        Ok(Some(WebSocketMessage::Close(Some(cd)))) => {
            assert_eq!(cd.code, 1000);
            assert_eq!(cd.reason, b"done".to_vec());
        }
        _ => panic!("expected a Close message with a code"),
    }
    match codec.on_frame(frame(OpCode::Close, true, &[])) {
        Ok(Some(WebSocketMessage::Close(None))) => {}
        _ => panic!("expected a Close message without a code"),
    }
}

#[test]
fn one_byte_close_payload_rejected() {
    let mut codec = TwistCodec::new();
    assert_eq!(
        codec.on_frame(frame(OpCode::Close, true, &[0x03])),
        Err(ProtocolError::BadClosePayload)
    );
}

#[test]
fn message_to_frame_single_final_frame() {
    let f = message_to_frame(WebSocketMessage::Text(b"hi".to_vec()), false, 0);
    assert!(f.fin);
    assert_eq!(f.opcode, OpCode::Text);
    assert_eq!(f.payload_length, 2);
    assert_eq!(f.application_data, Some(b"hi".to_vec()));

    let f = message_to_frame(WebSocketMessage::Pong(None), false, 0);
    assert!(f.fin);
    assert_eq!(f.opcode, OpCode::Pong);
    assert_eq!(f.payload_length, 0);
    assert!(f.application_data.is_none());

    let f = message_to_frame(
        WebSocketMessage::Close(Some(twist::message::CloseData {
            code: 1001,
            reason: b"bye".to_vec(),
        })),
        false,
        0,
    );
    assert_eq!(f.opcode, OpCode::Close);
    assert_eq!(f.payload_length, 5);
    assert_eq!(f.application_data, Some(vec![0x03, 0xe9, b'b', b'y', b'e']));
}

#[test]
fn message_round_trip_through_wire() {
    // Message -> frame -> bytes -> frame -> message, masked as a client
    // sends it.
    let msg = WebSocketMessage::Binary(vec![9, 8, 7, 6, 5]);
    let f = message_to_frame(msg, true, 0xcafe_f00d);
    let bytes = twist::codec::encode(&f);
    match twist::codec::decode(&bytes, false) {
        twist::codec::Decoded::Complete(out, consumed) => {
            assert_eq!(consumed, bytes.len());
            let mut codec = TwistCodec::new();
            match codec.on_frame(out) {
                Ok(Some(WebSocketMessage::Binary(data))) => {
                    assert_eq!(data, vec![9, 8, 7, 6, 5])
                }
                _ => panic!("expected the Binary message back"),
            }
        }
        _ => panic!("expected a complete frame"),
    }
}

#[test]
fn fragments_reassemble_through_assembler() {
    let data: Vec<u8> = (0u8..10).collect();
    let msg = WebSocketMessage::Binary(data.clone());
    let frames = twist::twist::fragment_message(msg, 4, false, 0);
    assert_eq!(frames.len(), 3);
    assert_eq!(frames[0].opcode, OpCode::Binary);
    assert!(!frames[0].fin);
    assert_eq!(frames[1].opcode, OpCode::Continuation);
    assert!(!frames[1].fin);
    assert_eq!(frames[2].opcode, OpCode::Continuation);
    assert!(frames[2].fin);
    let mut codec = TwistCodec::new();
    let mut result = None;
    for f in frames {
        match codec.on_frame(f) {
            Ok(out) => {
                assert!(result.is_none());
                result = out;
            }
            Err(e) => panic!("unexpected violation: {:?}", e),
        }
    }
    assert_eq!(result, Some(WebSocketMessage::Binary(data)));
}

#[test]
fn empty_message_fragments_into_one_final_frame() {
    let frames = twist::twist::fragment_message(WebSocketMessage::Text(Vec::new()), 4, false, 0);
    assert_eq!(frames.len(), 1);
    assert!(frames[0].fin);
    assert_eq!(frames[0].opcode, OpCode::Text);
    assert_eq!(frames[0].payload_length, 0);
    assert!(frames[0].application_data.is_none());
}
