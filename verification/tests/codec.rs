use wust_socket::{
    mask, mask_lin, Client, DataFrame, FrameDecoder, FrameParseError, FrameState, Opcode, Server,
};

fn decode_one<P: wust_socket::DecodePolicy>(
    decoder: &mut FrameDecoder<P>,
    bytes: &[u8],
) -> Result<Option<FrameState>, FrameParseError> {
    decoder.push_bytes(bytes);
    decoder.next_frame()
}

#[test]
fn client_text_hello_exact_wire_bytes() {
    let payload = b"hello";
    let df = DataFrame::<Client>::new(payload, Opcode::Text);
    let frame = df.frame_with_key(payload, true, true, false, [0x37, 0xFA, 0x21, 0x3D]);
    assert_eq!(
        frame,
        vec![0x81, 0x85, 0x37, 0xFA, 0x21, 0x3D, 0x5F, 0x9F, 0x4D, 0x51, 0x58]
    );

    // the server decodes the masked frame back to Text("hello")
    let mut decoder = FrameDecoder::<Server>::new(false);
    match decode_one(&mut decoder, &frame) {
        Ok(Some(FrameState::Complete(f))) => {
            assert!(matches!(f.opcode, Opcode::Text));
            assert!(f.is_fin);
            assert!(!f.compressed);
            assert_eq!(f.payload, b"hello".to_vec());
        }
        other => panic!("expected a complete frame, got {other:?}"),
    }
}

#[test]
fn server_binary_echo_exact_wire_bytes() {
    let payload = [0x00u8, 0xFF];
    let df = DataFrame::<Server>::new(&payload, Opcode::Bin);
    let frames = df.all_frames(&payload, false);
    assert_eq!(frames.len(), 1);
    assert_eq!(frames[0], vec![0x82, 0x02, 0x00, 0xFF]);

    // the client decodes to Binary([0, 255])
    let mut decoder = FrameDecoder::<Client>::new(false);
    match decode_one(&mut decoder, &frames[0]) {
        Ok(Some(FrameState::Complete(f))) => {
            assert!(matches!(f.opcode, Opcode::Bin));
            assert!(f.is_fin);
            assert_eq!(f.payload, vec![0x00, 0xFF]);
        }
        other => panic!("expected a complete frame, got {other:?}"),
    }
}

#[test]
fn oversized_declared_frame_is_a_size_error() {
    // a frame header declaring a 17 MiB payload, unmasked
    let declared: u64 = 17 * 1024 * 1024;
    let mut bytes = vec![0x82u8, 127];
    bytes.extend_from_slice(&declared.to_be_bytes());
    let mut decoder = FrameDecoder::<Client>::new(false);
    let r = decode_one(&mut decoder, &bytes);
    assert!(matches!(r, Err(FrameParseError::SizeErr)));
}

#[test]
fn frame_at_the_size_ceiling_is_accepted() {
    let declared: u64 = 16 * 1024 * 1024;
    let mut bytes = vec![0x82u8, 127];
    bytes.extend_from_slice(&declared.to_be_bytes());
    let mut decoder = FrameDecoder::<Client>::new(false);
    // only the header so far: the decoder asks for more bytes
    let r = decode_one(&mut decoder, &bytes);
    assert!(matches!(r, Ok(Some(FrameState::Incomplete))));
}

#[test]
fn incremental_decoding_byte_by_byte() {
    let frame = vec![0x81u8, 0x03, b'a', b'b', b'c'];
    let mut decoder = FrameDecoder::<Client>::new(false);
    for (i, b) in frame.iter().enumerate() {
        let r = decode_one(&mut decoder, &[*b]);
        if i + 1 < frame.len() {
            match r {
                Ok(Some(FrameState::Incomplete)) | Ok(None) => {}
                other => panic!("unexpected mid-frame result {other:?}"),
            }
        } else {
            match r {
                Ok(Some(FrameState::Complete(f))) => {
                    assert_eq!(f.payload, b"abc".to_vec());
                    assert!(matches!(f.opcode, Opcode::Text));
                }
                other => panic!("expected completion, got {other:?}"),
            }
        }
    }
}

#[test]
fn two_frames_in_one_buffer() {
    let bytes = vec![0x81u8, 0x01, b'x', 0x82, 0x02, 1, 2];
    let mut decoder = FrameDecoder::<Client>::new(false);
    decoder.push_bytes(&bytes);
    match decoder.next_frame() {
        Ok(Some(FrameState::Complete(f))) => assert_eq!(f.payload, vec![b'x']),
        other => panic!("expected first frame, got {other:?}"),
    }
    match decoder.next_frame() {
        Ok(Some(FrameState::Complete(f))) => {
            assert_eq!(f.payload, vec![1, 2]);
            assert!(matches!(f.opcode, Opcode::Bin));
        }
        other => panic!("expected second frame, got {other:?}"),
    }
    assert!(matches!(decoder.next_frame(), Ok(None)));
}

#[test]
fn extended_16_bit_length_round_trips() {
    let payload = vec![0xABu8; 300];
    let frames = DataFrame::<Server>::new(&payload, Opcode::Bin).all_frames(&payload, false);
    assert_eq!(frames.len(), 1);
    assert_eq!(frames[0][1], 126);
    assert_eq!(&frames[0][2..4], &300u16.to_be_bytes());
    let mut decoder = FrameDecoder::<Client>::new(false);
    match decode_one(&mut decoder, &frames[0]) {
        Ok(Some(FrameState::Complete(f))) => assert_eq!(f.payload, payload),
        other => panic!("expected a complete frame, got {other:?}"),
    }
}

#[test]
fn rsv_bits_are_protocol_errors() {
    // RSV2 set
    let mut decoder = FrameDecoder::<Client>::new(false);
    let r = decode_one(&mut decoder, &[0xA1, 0x00]);
    assert!(matches!(r, Err(FrameParseError::ProtoError)));

    // RSV1 without negotiated compression
    let mut decoder = FrameDecoder::<Client>::new(false);
    let r = decode_one(&mut decoder, &[0xC1, 0x00]);
    assert!(matches!(r, Err(FrameParseError::ProtoError)));

    // RSV1 with negotiated compression passes the header
    let mut decoder = FrameDecoder::<Client>::new(true);
    let r = decode_one(&mut decoder, &[0xC1, 0x00]);
    match r {
        Ok(Some(FrameState::Complete(f))) => assert!(f.compressed),
        other => panic!("expected a complete frame, got {other:?}"),
    }
}

#[test]
fn reserved_opcode_is_a_protocol_error() {
    let mut decoder = FrameDecoder::<Client>::new(false);
    let r = decode_one(&mut decoder, &[0x83, 0x00]);
    assert!(matches!(r, Err(FrameParseError::ProtoError)));
}

#[test]
fn mask_bit_must_match_the_role() {
    // a server must refuse unmasked input
    let mut decoder = FrameDecoder::<Server>::new(false);
    let r = decode_one(&mut decoder, &[0x81, 0x01, b'x']);
    assert!(matches!(r, Err(FrameParseError::ProtoError)));

    // a client must refuse masked input
    let mut decoder = FrameDecoder::<Client>::new(false);
    let r = decode_one(&mut decoder, &[0x81, 0x81, 1, 2, 3, 4, b'x']);
    assert!(matches!(r, Err(FrameParseError::ProtoError)));
}

#[test]
fn control_frame_rules_are_enforced() {
    // a fragmented ping (FIN clear) is refused
    let mut decoder = FrameDecoder::<Client>::new(false);
    let r = decode_one(&mut decoder, &[0x09, 0x00]);
    assert!(matches!(r, Err(FrameParseError::ProtoError)));

    // a ping with a 126-byte payload is refused
    let mut decoder = FrameDecoder::<Client>::new(false);
    let r = decode_one(&mut decoder, &[0x89, 0x7E]);
    assert!(matches!(r, Err(FrameParseError::ProtoError)));
}

#[test]
fn decoder_consumes_arbitrary_junk_without_panicking() {
    let mut junk: Vec<u8> = Vec::new();
    let mut x: u32 = 0x12345678;
    for _ in 0..2048 {
        x = x.wrapping_mul(1664525).wrapping_add(1013904223);
        junk.push((x >> 24) as u8);
    }
    let mut decoder = FrameDecoder::<Client>::new(false);
    decoder.push_bytes(&junk);
    loop {
        match decoder.next_frame() {
            Ok(Some(FrameState::Complete(_))) => continue,
            Ok(Some(FrameState::Incomplete)) | Ok(None) | Err(_) => break,
        }
    }
}

#[test]
fn masking_twice_restores_the_buffer() {
    let key = [0x37u8, 0xFA, 0x21, 0x3D];
    for len in [0usize, 1, 3, 4, 5, 31, 32, 33, 1024] {
        let original: Vec<u8> = (0..len).map(|i| (i * 7 + 13) as u8).collect();
        for rot in 0..4 {
            let rotated = [
                key[rot % 4],
                key[(rot + 1) % 4],
                key[(rot + 2) % 4],
                key[(rot + 3) % 4],
            ];
            let mut buf = original.clone();
            mask(&mut buf, rotated);
            if len > 0 {
                assert_ne!(buf, original);
            }
            mask(&mut buf, rotated);
            assert_eq!(buf, original);
            let mut lin = original.clone();
            mask_lin(&mut lin, rotated);
            mask_lin(&mut lin, rotated);
            assert_eq!(lin, original);
        }
    }
}

#[test]
fn opcode_wire_values_round_trip() {
    for (code, op) in [
        (0x0u8, Opcode::Cont),
        (0x1, Opcode::Text),
        (0x2, Opcode::Bin),
        (0x8, Opcode::Close),
        (0x9, Opcode::Ping),
        (0xA, Opcode::Pong),
    ] {
        assert_eq!(Opcode::try_from(code), Ok(op));
        assert_eq!(op.code(), code);
    }
    assert_eq!(Opcode::try_from(0x3), Err(()));
    assert_eq!(Opcode::try_from(0xF), Err(()));
    assert!(Opcode::Ping.is_control());
    assert!(Opcode::Close.is_control());
    assert!(!Opcode::Text.is_control());
    assert!(Opcode::Text.is_data());
    assert!(Opcode::Cont.is_data());
    assert!(!Opcode::Pong.is_data());
}
