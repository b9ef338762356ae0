use websock::connection::{close_frame, fragment_message, Engine, EngineState, StepResult};
use websock::error::{InvalidFrame, WebSocketError};
use websock::frame::{decode_one, encode_one, Decoded, Opcode, RawFrame, Role, StatusCode};
use websock::message::{Binary, Message, Text};

fn text_frame(fin: bool, payload: &[u8]) -> RawFrame {
    RawFrame { fin, opcode: Opcode::Text, payload: payload.to_vec() }
}

fn cont_frame(fin: bool, payload: &[u8]) -> RawFrame {
    RawFrame { fin, opcode: Opcode::Continuation, payload: payload.to_vec() }
}

fn assert_silent(r: &StepResult) {
    assert!(r.deliver.is_none());
    assert!(r.reply.is_none());
    assert!(!r.done);
    assert!(r.fault.is_none());
}

#[test]
fn delivers_unfragmented_text() {
    let mut engine = Engine::new(Role::Server);
    let r = engine.on_frame(text_frame(true, b"Hello"));
    let msg = r.deliver.expect("a message is due");
    assert!(msg.is_text());
    assert_eq!(msg.unwrap_text().as_str(), "Hello");
    assert!(r.reply.is_none());
    assert!(!r.done);
}

#[test]
fn ping_during_fragmented_receive() {
    let mut engine = Engine::new(Role::Server);
    let r = engine.on_frame(text_frame(false, b"abc"));
    assert_silent(&r);

    let ping = RawFrame { fin: true, opcode: Opcode::Ping, payload: b"ping".to_vec() };
    let r = engine.on_frame(ping);
    let pong = r.reply.expect("a pong is due at the front of the queue");
    assert!(pong.fin);
    assert_eq!(pong.opcode, Opcode::Pong);
    assert_eq!(pong.payload, b"ping".to_vec());
    assert!(r.deliver.is_none());
    assert!(!r.done);

    let r = engine.on_frame(cont_frame(true, b"def"));
    let msg = r.deliver.expect("the reassembled message is due");
    assert_eq!(msg.unwrap_text().as_str(), "abcdef");
    assert!(!r.done);
    assert_eq!(engine.state(), EngineState::Open);
}

#[test]
fn pong_is_ignored() {
    let mut engine = Engine::new(Role::Server);
    let pong = RawFrame { fin: true, opcode: Opcode::Pong, payload: b"late".to_vec() };
    assert_silent(&engine.on_frame(pong));
}

#[test]
fn bad_utf8_closes_with_1007() {
    let mut engine = Engine::new(Role::Server);
    let r = engine.on_frame(text_frame(true, &[0xFF, 0xFE]));
    let close = r.reply.expect("a close is due");
    assert_eq!(close.opcode, Opcode::Close);
    assert_eq!(close.payload, vec![0x03, 0xEF]); // 1007
    assert!(r.done);
    assert_eq!(r.fault, Some(WebSocketError::InvalidFrame(InvalidFrame::Text)));
    assert_eq!(engine.state(), EngineState::Closed);
}

#[test]
fn utf8_boundary_across_fragments_validates_on_completion() {
    // A two-byte scalar split across fragments: each half alone is not
    // valid UTF-8; the completed message is.
    let mut engine = Engine::new(Role::Server);
    assert_silent(&engine.on_frame(text_frame(false, &[0xC3])));
    let r = engine.on_frame(cont_frame(true, &[0xA9]));
    let msg = r.deliver.expect("the reassembled message is due");
    assert_eq!(msg.unwrap_text().as_str(), "\u{e9}");
}

#[test]
fn reserved_bits_close_with_1002() {
    // The decoder rejects `C1 00`; the engine maps the error to a Close.
    let bytes = vec![0xC1, 0x00];
    let err = match decode_one(Role::Server, &bytes) {
        Err(e) => e,
        other => panic!("expected an error, got {:?}", other),
    };
    let mut engine = Engine::new(Role::Server);
    let r = engine.on_decode_error(err);
    let close = r.reply.expect("a close is due");
    assert_eq!(close.payload, vec![0x03, 0xEA]); // 1002
    assert!(r.done);
    assert_eq!(engine.state(), EngineState::Closed);
}

#[test]
fn continuation_without_start_closes_with_1002() {
    let mut engine = Engine::new(Role::Server);
    let r = engine.on_frame(cont_frame(true, b"zzz"));
    let close = r.reply.expect("a close is due");
    assert_eq!(close.payload, vec![0x03, 0xEA]);
    assert!(r.done);
    assert_eq!(r.fault, Some(WebSocketError::InvalidFrame(InvalidFrame::Inconsistent)));
}

#[test]
fn data_frame_during_reassembly_closes_with_1002() {
    let mut engine = Engine::new(Role::Server);
    assert_silent(&engine.on_frame(text_frame(false, b"abc")));
    let r = engine.on_frame(text_frame(true, b"def"));
    let close = r.reply.expect("a close is due");
    assert_eq!(close.payload, vec![0x03, 0xEA]);
    assert!(r.done);
}

#[test]
fn peer_close_is_echoed_with_payload_preserved() {
    let mut engine = Engine::new(Role::Server);
    let close_in = RawFrame { fin: true, opcode: Opcode::Close, payload: vec![0x03, 0xE8] };
    let r = engine.on_frame(close_in);
    let echo = r.reply.expect("the close echo is due");
    assert_eq!(echo.opcode, Opcode::Close);
    assert_eq!(echo.payload, vec![0x03, 0xE8]);
    assert!(r.done);
    assert!(r.fault.is_none());
    assert_eq!(engine.state(), EngineState::Closed);
}

#[test]
fn orderly_shutdown() {
    // The application stops; the engine owes a 1000 Close and waits.
    let mut engine = Engine::new(Role::Server);
    let close_out = engine.start_close();
    assert_eq!(close_out.opcode, Opcode::Close);
    assert_eq!(close_out.payload, vec![0x03, 0xE8]); // 1000
    assert_eq!(engine.state(), EngineState::LocalClosing);

    // The peer decodes our Close from the wire.
    let bytes = encode_one(Role::Server, &close_out);
    match decode_one(Role::Client, &bytes) {
        Ok(Decoded::Frame(f, _)) => {
            assert_eq!(f.opcode, Opcode::Close);
            assert_eq!(f.payload, vec![0x03, 0xE8]);
        },
        other => panic!("expected the close frame, got {:?}", other),
    }

    // The peer's Close answers ours; no second Close goes out.
    let close_in = RawFrame { fin: true, opcode: Opcode::Close, payload: vec![0x03, 0xE8] };
    let r = engine.on_frame(close_in);
    assert!(r.reply.is_none());
    assert!(r.done);
    assert_eq!(engine.state(), EngineState::Closed);
}

#[test]
fn data_after_local_close_is_discarded() {
    let mut engine = Engine::new(Role::Server);
    let _ = engine.start_close();
    assert_silent(&engine.on_frame(text_frame(true, b"late")));
    assert_eq!(engine.state(), EngineState::LocalClosing);
}

#[test]
fn close_frame_carries_status() {
    assert_eq!(close_frame(StatusCode::NormalClosure).payload, vec![0x03, 0xE8]);
    assert_eq!(close_frame(StatusCode::ProtocolError).payload, vec![0x03, 0xEA]);
    assert_eq!(close_frame(StatusCode::MessageTooBig).payload, vec![0x03, 0xF1]);
    assert_eq!(close_frame(StatusCode::UnexpectedCondition).payload, vec![0x03, 0xF3]);
}

fn reassemble_through_engine(frames: Vec<RawFrame>) -> Message {
    let mut engine = Engine::new(Role::Server);
    let count = frames.len();
    let mut delivered = None;
    for (i, frame) in frames.into_iter().enumerate() {
        let r = engine.on_frame(frame);
        assert!(r.fault.is_none());
        assert!(!r.done);
        if i + 1 < count {
            assert!(r.deliver.is_none());
        } else {
            delivered = r.deliver;
        }
    }
    delivered.expect("the last fragment completes the message")
}

#[test]
fn fragment_then_reassemble_returns_the_message() {
    let payload: Vec<u8> = (0..1000u32).map(|i| (i % 241) as u8).collect();
    for chunk in [1000usize, 500, 1] {
        let frames = fragment_message(Message::Binary(Binary::from_bytes(payload.clone())), chunk);
        let expected = payload.len().div_ceil(chunk);
        assert_eq!(frames.len(), expected.max(1));
        assert_eq!(frames[0].opcode, Opcode::Binary);
        let msg = reassemble_through_engine(frames);
        assert_eq!(msg.unwrap_binary().as_bytes(), &payload);
    }
}

#[test]
fn fragment_text_into_many_pieces() {
    let text: String = std::iter::repeat('x').take(2048).collect();
    let frames = fragment_message(Message::Text(Text::from_str(&text)), 2);
    assert_eq!(frames.len(), 1024);
    assert_eq!(frames[0].opcode, Opcode::Text);
    assert!(!frames[0].fin);
    assert!(frames[1023].fin);
    let msg = reassemble_through_engine(frames);
    assert_eq!(msg.unwrap_text().as_str(), text);
}

#[test]
fn empty_message_is_one_empty_frame() {
    let frames = fragment_message(Message::Binary(Binary::from_bytes(vec![])), 1024);
    assert_eq!(frames.len(), 1);
    assert!(frames[0].fin);
    assert_eq!(frames[0].opcode, Opcode::Binary);
    assert!(frames[0].payload.is_empty());
}

#[test]
fn message_at_the_size_limit_is_accepted() {
    const MIB: usize = 1024 * 1024;
    let mut engine = Engine::new(Role::Server);
    let r = engine.on_frame(RawFrame {
        fin: false,
        opcode: Opcode::Binary,
        payload: vec![7u8; 16 * MIB],
    });
    assert_silent(&r);
    for _ in 0..2 {
        let r = engine.on_frame(cont_frame(false, &vec![7u8; 16 * MIB]));
        assert_silent(&r);
    }
    let r = engine.on_frame(cont_frame(true, &vec![7u8; 16 * MIB]));
    let msg = r.deliver.expect("the 64 MiB message is due");
    assert_eq!(msg.unwrap_binary().len(), 64 * MIB);
}

#[test]
fn message_over_the_size_limit_closes_with_1009() {
    const MIB: usize = 1024 * 1024;
    let mut engine = Engine::new(Role::Server);
    let r = engine.on_frame(RawFrame {
        fin: false,
        opcode: Opcode::Binary,
        payload: vec![7u8; 16 * MIB],
    });
    assert_silent(&r);
    for _ in 0..2 {
        let r = engine.on_frame(cont_frame(false, &vec![7u8; 16 * MIB]));
        assert_silent(&r);
    }
    let mut last = vec![7u8; 16 * MIB];
    last.push(7);
    let r = engine.on_frame(cont_frame(true, &last));
    let close = r.reply.expect("a close is due");
    assert_eq!(close.payload, vec![0x03, 0xF1]); // 1009
    assert!(r.done);
    assert_eq!(r.fault, Some(WebSocketError::InvalidMessageSize));
}
