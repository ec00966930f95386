use wust_socket::{
    is_valid_close_payload, new_deflater, new_inflater, CloseReason, Client, ControlFrame,
    DataFrame, Event, FrameAction, FrameDecoder, FrameState, Frame, Handler, Opcode,
    PartialMessage, SendMessage, Server,
};

/// Feeds wire bytes from one peer through the other role's decoder and
/// reassembler, returning the delivered events.
fn pump<P: wust_socket::DecodePolicy>(
    decoder: &mut FrameDecoder<P>,
    handler: &Handler,
    partial: &mut Option<PartialMessage>,
    inflater: &mut Option<wust_socket::Inflater>,
    use_context: bool,
    bytes: &[u8],
) -> Vec<Event> {
    let mut events = Vec::new();
    decoder.push_bytes(bytes);
    loop {
        match decoder.next_frame() {
            Ok(Some(FrameState::Complete(frame))) => {
                let r = handler.handle_data(&frame, partial, inflater, use_context);
                match r.action {
                    FrameAction::Deliver(ev) => events.push(ev),
                    FrameAction::Idle => {}
                    other => panic!("unexpected action {other:?}"),
                }
            }
            Ok(Some(FrameState::Incomplete)) | Ok(None) => break,
            Err(e) => panic!("decode error {e:?}"),
        }
    }
    events
}

#[test]
fn server_to_client_text_round_trip() {
    let payload = "The quick brown fox jumps over the lazy dog".repeat(40);
    let frames =
        DataFrame::<Server>::new(payload.as_bytes(), Opcode::Text).all_frames(payload.as_bytes(), false);
    let mut decoder = FrameDecoder::<Client>::new(false);
    let handler = Handler::new();
    let mut partial = None;
    let mut inflater = None;
    let mut events = Vec::new();
    for f in &frames {
        events.extend(pump(&mut decoder, &handler, &mut partial, &mut inflater, false, f));
    }
    assert_eq!(events.len(), 1);
    match &events[0] {
        Event::Text(t) => assert_eq!(t.as_str(), payload),
        other => panic!("expected text, got {other:?}"),
    }
}

#[test]
fn client_to_server_masked_binary_round_trip() {
    let payload: Vec<u8> = (0..100_000u32).map(|i| (i % 251) as u8).collect();
    let frames = DataFrame::<Client>::new(&payload, Opcode::Bin)
        .encode(&mut None, false);
    let mut decoder = FrameDecoder::<Server>::new(false);
    let handler = Handler::new();
    let mut partial = None;
    let mut inflater = None;
    let mut events = Vec::new();
    for f in &frames {
        events.extend(pump(&mut decoder, &handler, &mut partial, &mut inflater, false, f));
    }
    assert_eq!(events.len(), 1);
    match &events[0] {
        Event::Binary(b) => assert_eq!(b, &payload),
        other => panic!("expected binary, got {other:?}"),
    }
}

#[test]
fn compressed_messages_round_trip_with_and_without_context() {
    for use_context in [false, true] {
        let mut deflater = Some(new_deflater());
        let mut inflater = Some(new_inflater());
        let mut decoder = FrameDecoder::<Client>::new(true);
        let handler = Handler::new();
        let mut partial = None;

        for text in ["compressible compressible compressible", "short", "again again again"] {
            let frames = DataFrame::<Server>::new(text.as_bytes(), Opcode::Text)
                .encode(&mut deflater, use_context);
            let mut events = Vec::new();
            for f in &frames {
                events.extend(pump(
                    &mut decoder,
                    &handler,
                    &mut partial,
                    &mut inflater,
                    use_context,
                    f,
                ));
            }
            assert_eq!(events.len(), 1);
            match &events[0] {
                Event::Text(t) => assert_eq!(t.as_str(), text),
                other => panic!("expected text, got {other:?}"),
            }
        }
    }
}

#[test]
fn control_frames_round_trip() {
    // a server pong with a nonce payload
    let nonce = [1u8, 2, 3, 4, 5, 6, 7, 8];
    let bytes = ControlFrame::<Server>::pong(&nonce).encode();
    assert_eq!(bytes, vec![0x8A, 0x08, 1, 2, 3, 4, 5, 6, 7, 8]);

    // a masked client ping decodes on the server side
    let ping = ControlFrame::<Client>::ping(&nonce).encode_with_key([9, 9, 9, 9]);
    let mut decoder = FrameDecoder::<Server>::new(false);
    decoder.push_bytes(&ping);
    match decoder.next_frame() {
        Ok(Some(FrameState::Complete(f))) => {
            assert!(matches!(f.opcode, Opcode::Ping));
            assert_eq!(f.payload, nonce.to_vec());
        }
        other => panic!("expected the ping, got {other:?}"),
    }
}

#[test]
fn close_reason_builds_the_close_payload() {
    let bytes = ControlFrame::<Server>::close_reason(CloseReason::Normal, "bye");
    assert_eq!(bytes, vec![0x88, 0x05, 0x03, 0xE8, b'b', b'y', b'e']);
}

#[test]
fn close_reason_truncates_at_a_character_boundary() {
    // 62 two-byte characters: 124 bytes of text, truncated to 122
    let text = "é".repeat(62);
    let bytes = ControlFrame::<Server>::close_reason(CloseReason::Policy, &text);
    // header, then 2 code bytes + 61 whole characters
    assert_eq!(bytes[1] as usize, 2 + 122);
    let reason = &bytes[4..];
    assert_eq!(reason.len(), 122);
    assert!(std::str::from_utf8(reason).is_ok());
}

#[test]
fn empty_message_is_a_single_empty_final_frame() {
    let frames = DataFrame::<Server>::new(b"", Opcode::Text).all_frames(b"", false);
    assert_eq!(frames.len(), 1);
    assert_eq!(frames[0], vec![0x81, 0x00]);
}

#[test]
fn fast_path_fragments_at_125_bytes() {
    let payload = vec![7u8; 300];
    let msg = SendMessage::new(&payload, Opcode::Bin);
    let frames = msg.frames();
    assert_eq!(frames.len(), 3);

    // a server reassembles the three masked fragments
    let mut decoder = FrameDecoder::<Server>::new(false);
    let handler = Handler::new();
    let mut partial = None;
    let mut inflater = None;
    let mut events = Vec::new();
    for f in &frames {
        events.extend(pump(&mut decoder, &handler, &mut partial, &mut inflater, false, f));
    }
    assert_eq!(events.len(), 1);
    match &events[0] {
        Event::Binary(b) => assert_eq!(b, &payload),
        other => panic!("expected binary, got {other:?}"),
    }

    // an empty fast-path message produces no frames
    let empty = SendMessage::new(b"", Opcode::Text);
    assert_eq!(empty.frames().len(), 0);
}

#[test]
fn plain_parser_reads_masked_and_bare_frames() {
    // one masked text frame followed by one bare binary frame
    let mut bytes = vec![0x81u8, 0x83, 1, 1, 1, 1];
    bytes.extend_from_slice(&[b'a' ^ 1, b'b' ^ 1, b'c' ^ 1]);
    bytes.extend_from_slice(&[0x82, 0x02, 9, 9]);
    let frames = Frame::parse_bytes(&bytes);
    assert_eq!(frames.len(), 2);
    assert!(matches!(frames[0].opcode, Opcode::Text));
    assert!(frames[0].is_fin);
    assert_eq!(frames[0].payload, b"abc".to_vec());
    assert!(matches!(frames[1].opcode, Opcode::Bin));
    assert_eq!(frames[1].payload, vec![9, 9]);

    // a truncated trailing frame is left unread
    let frames = Frame::parse_bytes(&[0x81, 0x05, b'x']);
    assert_eq!(frames.len(), 0);
}

#[test]
fn close_payload_validity() {
    assert!(is_valid_close_payload(&vec![]));
    assert!(!is_valid_close_payload(&vec![0x03]));
    assert!(is_valid_close_payload(&vec![0x03, 0xE8]));
    assert!(is_valid_close_payload(&vec![0x0B, 0xB8, b'o', b'k']));
    assert!(!is_valid_close_payload(&vec![0x03, 0xE7])); // 999
    assert!(!is_valid_close_payload(&vec![0x13, 0x88])); // 5000
    assert!(!is_valid_close_payload(&vec![0x03, 0xE8, 0xFF])); // bad UTF-8
}

#[test]
fn close_codes_map_both_ways() {
    let pairs = [
        (1000u16, CloseReason::Normal),
        (1001, CloseReason::GoingAway),
        (1002, CloseReason::ProtoError),
        (1003, CloseReason::DataType),
        (1004, CloseReason::Rsv),
        (1005, CloseReason::NoneGiven),
        (1006, CloseReason::Abnormal),
        (1007, CloseReason::DataError),
        (1008, CloseReason::Policy),
        (1009, CloseReason::TooBig),
        (1010, CloseReason::Extension),
        (1011, CloseReason::Unexpected),
        (1015, CloseReason::Tls),
    ];
    for (code, reason) in pairs {
        assert_eq!(CloseReason::from_code(code), reason);
        assert_eq!(reason.code(), code);
    }
    assert_eq!(CloseReason::from_code(3000), CloseReason::Unknown);
    assert_eq!(CloseReason::Unknown.code(), 4000);
    assert_eq!(CloseReason::Normal.to_be_bytes(), [0x03, 0xE8]);
    assert_eq!(
        CloseReason::from_be_bytes([0x03, 0xEA]),
        CloseReason::ProtoError
    );
}
