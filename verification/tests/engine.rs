use wust_socket::{
    finish_message, CloseReason, ConnFlags, DecodedFrame, Event, FrameAction, FrameDecoder,
    FrameState, Handler, Keepalive, KeepaliveAction, Message, Opcode, PartialMessage, PingStats,
    PongError,
};

fn data_frame(opcode: Opcode, payload: &[u8], fin: bool, compressed: bool) -> DecodedFrame {
    DecodedFrame {
        opcode,
        payload: payload.to_vec(),
        is_fin: fin,
        compressed,
    }
}

#[test]
fn fragmented_text_is_delivered_only_when_complete() {
    // the two fragments of "Hello" as the server sends them
    let first = vec![0x01u8, 0x03, 0x48, 0x65, 0x6C];
    let second = vec![0x80u8, 0x02, 0x6C, 0x6F];

    let mut decoder = FrameDecoder::<wust_socket::Client>::new(false);
    let handler = Handler::new();
    let mut partial: Option<PartialMessage> = None;
    let mut inflater = None;

    decoder.push_bytes(&first);
    let f1 = match decoder.next_frame() {
        Ok(Some(FrameState::Complete(f))) => f,
        other => panic!("expected the first fragment, got {other:?}"),
    };
    let r1 = handler.handle_data(&f1, &mut partial, &mut inflater, false);
    assert!(matches!(r1.action, FrameAction::Idle));
    assert!(!r1.done);
    assert!(partial.is_some());

    decoder.push_bytes(&second);
    let f2 = match decoder.next_frame() {
        Ok(Some(FrameState::Complete(f))) => f,
        other => panic!("expected the second fragment, got {other:?}"),
    };
    let r2 = handler.handle_data(&f2, &mut partial, &mut inflater, false);
    match r2.action {
        FrameAction::Deliver(Event::Text(t)) => assert_eq!(t.as_str(), "Hello"),
        other => panic!("expected Text(\"Hello\"), got {other:?}"),
    }
    assert!(partial.is_none());
}

#[test]
fn unexpected_continuation_is_a_protocol_error() {
    let handler = Handler::new();
    let mut partial: Option<PartialMessage> = None;
    let mut inflater = None;
    let f = data_frame(Opcode::Cont, b"zz", true, false);
    let r = handler.handle_data(&f, &mut partial, &mut inflater, false);
    assert!(matches!(
        r.action,
        FrameAction::SendClose(CloseReason::ProtoError, _)
    ));
    assert!(r.done);
}

#[test]
fn new_message_amid_a_pending_one_is_a_protocol_error() {
    let handler = Handler::new();
    let mut partial: Option<PartialMessage> = None;
    let mut inflater = None;
    let open = data_frame(Opcode::Text, b"a", false, false);
    assert!(matches!(
        handler
            .handle_data(&open, &mut partial, &mut inflater, false)
            .action,
        FrameAction::Idle
    ));
    let intruder = data_frame(Opcode::Bin, b"b", true, false);
    let r = handler.handle_data(&intruder, &mut partial, &mut inflater, false);
    assert!(matches!(
        r.action,
        FrameAction::SendClose(CloseReason::ProtoError, _)
    ));
}

#[test]
fn continuation_with_rsv1_is_a_protocol_error() {
    let handler = Handler::new();
    let mut partial: Option<PartialMessage> = None;
    let mut inflater = None;
    let open = data_frame(Opcode::Text, b"a", false, false);
    handler.handle_data(&open, &mut partial, &mut inflater, false);
    let bad = data_frame(Opcode::Cont, b"b", true, true);
    let r = handler.handle_data(&bad, &mut partial, &mut inflater, false);
    assert!(matches!(
        r.action,
        FrameAction::SendClose(CloseReason::ProtoError, _)
    ));
}

#[test]
fn oversized_message_is_refused_as_too_big() {
    let handler = Handler::new();
    let mut partial: Option<PartialMessage> = None;
    let mut inflater = None;
    let chunk = vec![0u8; 9 * 1024 * 1024];
    let open = data_frame(Opcode::Bin, &chunk, false, false);
    assert!(matches!(
        handler
            .handle_data(&open, &mut partial, &mut inflater, false)
            .action,
        FrameAction::Idle
    ));
    let more = data_frame(Opcode::Cont, &chunk, true, false);
    let r = handler.handle_data(&more, &mut partial, &mut inflater, false);
    assert!(matches!(
        r.action,
        FrameAction::SendClose(CloseReason::TooBig, _)
    ));
    assert!(r.done);
}

#[test]
fn invalid_utf8_text_is_a_data_error() {
    let handler = Handler::new();
    let mut partial: Option<PartialMessage> = None;
    let mut inflater = None;
    let f = data_frame(Opcode::Text, &[0xFF, 0xFE], true, false);
    let r = handler.handle_data(&f, &mut partial, &mut inflater, false);
    assert!(matches!(
        r.action,
        FrameAction::SendClose(CloseReason::DataError, _)
    ));
    assert!(r.done);
}

#[test]
fn peer_close_with_code_1002_is_echoed_with_normal() {
    // wire: 88 05 03 EA 62 61 64, decoded by the client
    let bytes = vec![0x88u8, 0x05, 0x03, 0xEA, 0x62, 0x61, 0x64];
    let mut decoder = FrameDecoder::<wust_socket::Client>::new(false);
    decoder.push_bytes(&bytes);
    let frame = match decoder.next_frame() {
        Ok(Some(FrameState::Complete(f))) => f,
        other => panic!("expected the close frame, got {other:?}"),
    };
    assert!(matches!(frame.opcode, Opcode::Close));
    assert_eq!(frame.payload, vec![0x03, 0xEA, 0x62, 0x61, 0x64]);

    let handler = Handler::new();
    let mut flags = ConnFlags::new();
    let r = handler.handle_close(&frame, &mut flags);
    assert!(r.done);
    assert!(matches!(
        r.action,
        FrameAction::EchoClose(CloseReason::Normal)
    ));
    assert!(flags.closing);

    // exactly one Closed event is emitted when the reader terminates
    assert!(flags.reader_finished());
    assert!(!flags.reader_finished());
    flags.begin_close();
    assert!(!flags.reader_finished());
}

#[test]
fn never_on_wire_close_codes_are_echoed_with_protocol_error() {
    let handler = Handler::new();
    for code in [1004u16, 1005, 1006] {
        let mut payload = code.to_be_bytes().to_vec();
        payload.extend_from_slice(b"x");
        let frame = data_frame(Opcode::Close, &payload, true, false);
        let mut flags = ConnFlags::new();
        let r = handler.handle_close(&frame, &mut flags);
        assert!(matches!(
            r.action,
            FrameAction::EchoClose(CloseReason::ProtoError)
        ));
    }
}

#[test]
fn second_closer_stays_silent() {
    let handler = Handler::new();
    let frame = data_frame(Opcode::Close, &[], true, false);
    let mut flags = ConnFlags::new();
    assert!(flags.begin_close());
    assert!(!flags.begin_close());
    let r = handler.handle_close(&frame, &mut flags);
    assert!(r.done);
    assert!(matches!(r.action, FrameAction::Idle));
}

#[test]
fn ping_is_answered_with_an_echoing_pong() {
    let handler = Handler::new();
    let frame = data_frame(Opcode::Ping, &[9, 8, 7], true, false);
    let r = handler.handle_ping(&frame);
    assert!(!r.done);
    match r.action {
        FrameAction::SendPong(p) => assert_eq!(p, vec![9, 8, 7]),
        other => panic!("expected a pong, got {other:?}"),
    }
}

#[test]
fn pong_round_trip_reports_the_elapsed_latency() {
    let mut stats = PingStats::new();
    let nonce = stats.new_nonce(1_000);
    let r = stats.on_pong(&nonce, 1_042);
    assert_eq!(r.ok(), Some(42));
    assert_eq!(stats.average(), Some(42));

    // the handler delivers it as a Pong event
    let handler = Handler::new();
    let nonce2 = stats.new_nonce(5_000);
    let frame = data_frame(Opcode::Pong, &nonce2, true, false);
    let hr = handler.handle_pong(&frame, &mut stats, 5_010);
    match hr.action {
        FrameAction::Deliver(Event::Pong(ms)) => assert_eq!(ms, 10),
        other => panic!("expected a Pong event, got {other:?}"),
    }
    assert_eq!(stats.average(), Some(26));
}

#[test]
fn late_pong_closes_with_a_policy_violation() {
    let mut stats = PingStats::new();
    let nonce = stats.new_nonce(0);
    match stats.on_pong(&nonce, 66_000) {
        Err(PongError::Late(ms)) => assert_eq!(ms, 66_000),
        other => panic!("expected a late pong, got {:?}", other.is_ok()),
    }
    let handler = Handler::new();
    let nonce2 = stats.new_nonce(100_000);
    let frame = data_frame(Opcode::Pong, &nonce2, true, false);
    let hr = handler.handle_pong(&frame, &mut stats, 200_000);
    assert!(matches!(
        hr.action,
        FrameAction::SendClose(CloseReason::Policy, _)
    ));
}

#[test]
fn mismatched_pong_nonce_is_ignored() {
    let mut stats = PingStats::new();
    let nonce = stats.new_nonce(0);
    let mut wrong = nonce;
    wrong[0] = wrong[0].wrapping_add(1);
    match stats.on_pong(&wrong, 5) {
        Err(PongError::Nonce(expected)) => assert_eq!(expected, nonce),
        other => panic!("expected a nonce mismatch, got {:?}", other.is_ok()),
    }
    // a wrong-length payload is a mismatch too
    assert!(stats.on_pong(&nonce[..4], 5).is_err());
    assert_eq!(stats.average(), None);
}

#[test]
fn rtt_window_averages_the_last_five() {
    let mut stats = PingStats::new();
    for rtt in [10u16, 20, 30, 40, 50] {
        stats.add(rtt);
    }
    assert_eq!(stats.average(), Some(30));
    // the sixth overwrites the oldest slot
    stats.add(70);
    assert_eq!(stats.average(), Some(42));
}

#[test]
fn keepalive_pings_an_idle_peer_once() {
    let mut ka = Keepalive::new(30);
    // fresh traffic: nothing to do
    assert_eq!(ka.step(false, 0, 10_000), KeepaliveAction::Idle);
    // the idle threshold passes: a single ping
    assert_eq!(ka.step(false, 0, 30_000), KeepaliveAction::SendPing);
    // no second ping while one is outstanding
    assert_eq!(ka.step(false, 0, 40_000), KeepaliveAction::Idle);
    // twice the interval without a pong: close
    assert_eq!(ka.step(false, 0, 90_000), KeepaliveAction::CloseTimeout);
    // a pong clears the outstanding ping
    ka.pong_received();
    assert_eq!(ka.step(false, 89_000, 90_000), KeepaliveAction::Idle);
    assert_eq!(ka.step(false, 60_000, 90_000), KeepaliveAction::SendPing);
    // a closing connection stops the loop
    assert_eq!(ka.step(true, 0, 95_000), KeepaliveAction::Exit);
}

#[test]
fn finish_message_validates_text() {
    match finish_message(true, b"ok".to_vec()) {
        Some(Message::Text(s)) => assert_eq!(s, "ok"),
        other => panic!("expected text, got {other:?}"),
    }
    assert!(finish_message(true, vec![0xC0, 0x20]).is_none());
    match finish_message(false, vec![1, 2, 3]) {
        Some(Message::Binary(b)) => assert_eq!(b, vec![1, 2, 3]),
        other => panic!("expected binary, got {other:?}"),
    }
}

#[test]
fn message_accessors() {
    let t = Message::Text(String::from("hi"));
    assert_eq!(t.as_str(), Some("hi"));
    assert_eq!(t.as_bytes(), b"hi");
    assert_eq!(t.len(), 2);
    assert!(!t.is_empty());
    let b = Message::Binary(vec![5u8; 4]);
    assert_eq!(b.as_str(), None);
    assert_eq!(b.len(), 4);
    let e = Message::Binary(Vec::new());
    assert!(e.is_empty());
}

#[test]
fn event_payload_lengths() {
    assert_eq!(Event::Pong(3).len(), 0);
    assert_eq!(Event::Closed.len(), 0);
    assert_eq!(Event::Binary(vec![1, 2, 3]).len(), 3);
    assert_eq!(Event::Error(vec![1]).len(), 0);
}

#[test]
fn partial_message_accumulates() {
    let mut p = PartialMessage::text(false);
    assert_eq!(p.len(), 0);
    p.push_bytes(b"ab");
    p.push_bytes(b"c");
    assert_eq!(p.len(), 3);
    assert!(p.kind_is_text());
    assert!(!p.marked_compressed());
    assert_eq!(p.into_bytes(), b"abc".to_vec());
    let q = PartialMessage::binary(true);
    assert!(!q.kind_is_text());
    assert!(q.marked_compressed());
}

#[test]
fn control_frames_interleave_with_message_fragments() {
    let handler = Handler::new();
    let mut partial: Option<PartialMessage> = None;
    let mut inflater = None;
    let mut stats = PingStats::new();
    let mut flags = ConnFlags::new();

    let open = data_frame(Opcode::Text, b"He", false, false);
    let r = handler.handle_frame(
        &open, &mut partial, &mut stats, &mut flags, &mut inflater, false, 0,
    );
    assert!(matches!(r.action, FrameAction::Idle));

    // a ping arrives mid-message and is answered without disturbing it
    let ping = data_frame(Opcode::Ping, b"n", true, false);
    let r = handler.handle_frame(
        &ping, &mut partial, &mut stats, &mut flags, &mut inflater, false, 1,
    );
    assert!(matches!(r.action, FrameAction::SendPong(_)));
    assert!(!r.done);

    let fin = data_frame(Opcode::Cont, b"llo", true, false);
    let r = handler.handle_frame(
        &fin, &mut partial, &mut stats, &mut flags, &mut inflater, false, 2,
    );
    match r.action {
        FrameAction::Deliver(Event::Text(t)) => assert_eq!(t.as_str(), "Hello"),
        other => panic!("expected the assembled text, got {other:?}"),
    }

    // a close frame ends processing
    let close = data_frame(Opcode::Close, &[0x03, 0xE8], true, false);
    let r = handler.handle_frame(
        &close, &mut partial, &mut stats, &mut flags, &mut inflater, false, 3,
    );
    assert!(r.done);
    assert!(matches!(
        r.action,
        FrameAction::EchoClose(CloseReason::Normal)
    ));
}

#[test]
fn text_wrapper_accessors() {
    let handler = Handler::new();
    let mut partial: Option<PartialMessage> = None;
    let mut inflater = None;
    let f = data_frame(Opcode::Text, "héllo".as_bytes(), true, false);
    let r = handler.handle_data(&f, &mut partial, &mut inflater, false);
    match r.action {
        FrameAction::Deliver(Event::Text(t)) => {
            assert_eq!(t.as_str(), "héllo");
            assert_eq!(t.len(), 6);
            assert!(!t.is_empty());
            assert_eq!(t.as_bytes(), "héllo".as_bytes());
            assert_eq!(t.into_bytes(), "héllo".as_bytes().to_vec());
        }
        other => panic!("expected text, got {other:?}"),
    }
}
