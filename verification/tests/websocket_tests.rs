//! Tests for the websocket frame codec, reader, writer and handshake.

use proxmox_core::{
    contains_tls_handshake_fragment, control_reply, create_frame, mask_bytes, relay_close_frame,
    sniff_step, AcceptCounter, ControlDisposition, FrameHeader, HandshakeError, OpCode,
    ProtocolError, ReadStep, SniffDecision, UpgradeRequest, WebSocket, WebSocketReader,
    WebSocketWriter,
};

/// The naive byte-wise masking reference.
fn naive_mask(mask: [u8; 4], data: &[u8]) -> Vec<u8> {
    data.iter().enumerate().map(|(i, b)| b ^ mask[i % 4]).collect()
}

fn roundtrip(mask: Option<[u8; 4]>, payload: &[u8], op: OpCode) {
    let frame = create_frame(mask, payload, op).expect("frame");
    let header = FrameHeader::try_from_bytes(&frame)
        .expect("valid header")
        .expect("complete header");
    assert!(header.fin);
    assert_eq!(header.mask, mask);
    assert_eq!(header.frametype, op);
    assert_eq!(header.payload_len, payload.len());
    let mut body: Vec<u8> = frame[header.header_len as usize..].to_vec();
    assert_eq!(body.len(), payload.len());
    mask_bytes(header.mask, &mut body);
    assert_eq!(&body[..], payload);
}

#[test]
fn frame_roundtrip_sizes_and_opcodes() {
    let sizes: [usize; 8] = [0, 1, 125, 126, 127, 65535, 65536, 70000];
    for &size in sizes.iter() {
        let payload: Vec<u8> = (0..size).map(|i| (i % 251) as u8).collect();
        for &op in [OpCode::Continuation, OpCode::Text, OpCode::Binary].iter() {
            roundtrip(None, &payload, op);
            roundtrip(Some([0x11, 0x22, 0x33, 0x44]), &payload, op);
        }
    }
    let small: Vec<u8> = (0..125).collect();
    for &op in [OpCode::Close, OpCode::Ping, OpCode::Pong].iter() {
        roundtrip(None, &small, op);
        roundtrip(Some([9, 8, 7, 6]), &small, op);
    }
}

#[test]
fn length_encoding_boundaries() {
    // 125 bytes: one-byte length, header of 2
    let frame = create_frame(None, &[0u8; 125], OpCode::Binary).unwrap();
    assert_eq!(frame[1], 125);
    assert_eq!(frame.len(), 2 + 125);
    // 126 bytes: 16-bit length, header of 4
    let frame = create_frame(None, &[0u8; 126], OpCode::Binary).unwrap();
    assert_eq!(frame[1], 126);
    assert_eq!(&frame[2..4], &[0x00, 0x7E]);
    assert_eq!(frame.len(), 4 + 126);
    // 65535 bytes: still the 16-bit length
    let frame = create_frame(None, &[0u8; 65535], OpCode::Binary).unwrap();
    assert_eq!(frame[1], 126);
    assert_eq!(&frame[2..4], &[0xFF, 0xFF]);
    assert_eq!(frame.len(), 4 + 65535);
    // 65536 bytes: the 64-bit length
    let frame = create_frame(None, &[0u8; 65536], OpCode::Binary).unwrap();
    assert_eq!(frame[1], 127);
    assert_eq!(&frame[2..10], &[0, 0, 0, 0, 0, 1, 0, 0]);
    assert_eq!(frame.len(), 10 + 65536);
}

#[test]
fn masking_self_inverse() {
    let mask = [0xA5, 0x5A, 0x0F, 0xF0];
    let payload: Vec<u8> = (0..100).collect();
    let mut data = payload.clone();
    mask_bytes(Some(mask), &mut data);
    assert_ne!(data, payload);
    mask_bytes(Some(mask), &mut data);
    assert_eq!(data, payload);
}

#[test]
fn masking_matches_naive_reference() {
    let mask = [1, 2, 3, 4];
    for &len in [0usize, 1, 3, 4, 31, 32, 33, 100].iter() {
        let payload: Vec<u8> = (0..len).map(|i| (i * 7 % 256) as u8).collect();
        let mut data = payload.clone();
        mask_bytes(Some(mask), &mut data);
        assert_eq!(data, naive_mask(mask, &payload));
    }
}

#[test]
fn masking_absent_or_zero_mask_is_noop() {
    let payload: Vec<u8> = (0..40).collect();
    let mut data = payload.clone();
    mask_bytes(None, &mut data);
    assert_eq!(data, payload);
    let mut data = payload.clone();
    mask_bytes(Some([0, 0, 0, 0]), &mut data);
    assert_eq!(data, payload);
}

#[test]
fn create_frame_unmasked_text() {
    let data = vec![0, 1, 2, 3, 4];
    let frame = create_frame(None, &data, OpCode::Text).unwrap();
    assert_eq!(frame, vec![0b10000001, 5, 0, 1, 2, 3, 4]);
}

#[test]
fn create_frame_masked_text() {
    let data = vec![0, 1, 2, 3, 4];
    let frame = create_frame(Some([0u8, 1u8, 2u8, 3u8]), &data, OpCode::Text).unwrap();
    assert_eq!(frame, vec![0b10000001, 0b10000101, 0, 1, 2, 3, 0, 0, 0, 0, 4]);
}

#[test]
fn create_frame_ping() {
    let data = vec![0, 1, 2, 3, 4];
    let frame = create_frame(None, &data, OpCode::Ping).unwrap();
    assert_eq!(frame, vec![0b10001001, 0b00000101, 0, 1, 2, 3, 4]);
}

#[test]
fn oversized_control_frame_refused_on_create() {
    let data = [0u8; 126];
    assert_eq!(
        create_frame(None, &data, OpCode::Ping).unwrap_err(),
        ProtocolError::OversizedControlFrame
    );
    assert_eq!(
        create_frame(None, &data, OpCode::Close).unwrap_err(),
        ProtocolError::OversizedControlFrame
    );
    assert!(create_frame(None, &data, OpCode::Binary).is_ok());
}

#[test]
fn oversized_control_frame_refused_on_parse() {
    // fin + ping, 16-bit length of 126
    let bytes = [0x89, 0x7E, 0x00, 0x7E];
    assert_eq!(
        FrameHeader::try_from_bytes(&bytes).unwrap_err(),
        ProtocolError::OversizedControlFrame
    );
}

#[test]
fn fragmented_control_frame_refused() {
    // ping without fin
    let bytes = [0x09, 0x00];
    assert_eq!(
        FrameHeader::try_from_bytes(&bytes).unwrap_err(),
        ProtocolError::FragmentedControlFrame
    );
}

#[test]
fn reserved_extension_bits_refused() {
    let bytes = [0b11010001, 0x00];
    assert_eq!(
        FrameHeader::try_from_bytes(&bytes).unwrap_err(),
        ProtocolError::UnsupportedExtensions
    );
}

#[test]
fn unknown_opcode_refused() {
    let bytes = [0x83, 0x00];
    assert_eq!(
        FrameHeader::try_from_bytes(&bytes).unwrap_err(),
        ProtocolError::UnknownOpCode(3)
    );
}

#[test]
fn parse_incomplete_asks_for_more() {
    let frame = create_frame(None, &[0, 1, 2, 3], OpCode::Ping).unwrap();
    match FrameHeader::try_from_bytes(&frame[..1]).unwrap() {
        Ok(_) => unreachable!(),
        Err(x) => assert_eq!(x, 1),
    }
    match FrameHeader::try_from_bytes(&frame[..2]).unwrap() {
        Err(_) => unreachable!(),
        Ok(header) => {
            assert!(header.fin);
            assert_eq!(header.mask, None);
            assert_eq!(header.frametype, OpCode::Ping);
            assert_eq!(header.header_len, 2);
            assert_eq!(header.payload_len, 4);
        }
    }
}

#[test]
fn parse_incomplete_staged_needs() {
    // masked binary frame with a 300-byte payload
    let payload = vec![7u8; 300];
    let frame = create_frame(Some([1, 2, 3, 4]), &payload, OpCode::Binary).unwrap();
    // two bytes: the 16-bit length is still missing
    assert_eq!(FrameHeader::try_from_bytes(&frame[..2]).unwrap().unwrap_err(), 2);
    // four bytes: the mask is still missing
    assert_eq!(FrameHeader::try_from_bytes(&frame[..4]).unwrap().unwrap_err(), 4);
    // supplying exactly what was asked for succeeds
    let header = FrameHeader::try_from_bytes(&frame[..8]).unwrap().unwrap();
    assert_eq!(header.payload_len, 300);
    assert_eq!(header.mask, Some([1, 2, 3, 4]));
    assert_eq!(header.header_len, 8);
}

#[test]
fn reader_demultiplexes_data_and_control() {
    let mut reader = WebSocketReader::new();
    let mask = Some([1, 2, 3, 4]);
    let data_frame = create_frame(mask, b"hello", OpCode::Text).unwrap();
    let ping_frame = create_frame(mask, b"ok", OpCode::Ping).unwrap();

    assert!(matches!(reader.next_step(1024), ReadStep::NeedData));

    reader.feed(&data_frame);
    reader.feed(&ping_frame);

    match reader.next_step(1024) {
        ReadStep::Data(d) => assert_eq!(&d[..], b"hello"),
        _ => unreachable!(),
    }
    match reader.next_step(1024) {
        ReadStep::Control(op, d) => {
            assert_eq!(op, OpCode::Ping);
            assert_eq!(&d[..], b"ok");
        }
        _ => unreachable!(),
    }
    assert!(matches!(reader.next_step(1024), ReadStep::NeedData));
}

#[test]
fn reader_hands_out_partial_payloads() {
    let mut reader = WebSocketReader::new();
    let frame = create_frame(None, b"abcdef", OpCode::Binary).unwrap();
    reader.feed(&frame[..4]);
    match reader.next_step(1024) {
        ReadStep::Data(d) => assert_eq!(&d[..], b"ab"),
        _ => unreachable!(),
    }
    assert!(matches!(reader.next_step(1024), ReadStep::NeedData));
    reader.feed(&frame[4..]);
    match reader.next_step(3) {
        ReadStep::Data(d) => assert_eq!(&d[..], b"cde"),
        _ => unreachable!(),
    }
    match reader.next_step(3) {
        ReadStep::Data(d) => assert_eq!(&d[..], b"f"),
        _ => unreachable!(),
    }
}

#[test]
fn reader_faults_on_malformed_header() {
    let mut reader = WebSocketReader::new();
    reader.feed(&[0x09, 0x00]);
    assert!(matches!(
        reader.next_step(1024),
        ReadStep::Fault(ProtocolError::FragmentedControlFrame)
    ));
}

#[test]
fn writer_emits_one_frame_per_write() {
    let mut writer = WebSocketWriter::new(None, false);
    writer.begin_write(b"abc");
    let frame = writer.frame.clone().unwrap();
    assert_eq!(frame.0, create_frame(None, b"abc", OpCode::Binary).unwrap());
    assert_eq!(frame.1, 0);
    assert_eq!(frame.2, 3);
    // a second begin_write must not disturb the in-flight frame
    writer.begin_write(b"zzzz");
    assert_eq!(writer.frame.clone().unwrap().0, frame.0);
    // partial progress keeps the frame, completion reports the payload length
    assert_eq!(writer.sink_advanced(2), None);
    assert_eq!(writer.sink_advanced(3), Some(3));
    assert!(writer.frame.is_none());
}

#[test]
fn writer_text_mode_uses_text_frames() {
    let mut writer = WebSocketWriter::new(Some([1, 2, 3, 4]), true);
    writer.begin_write(b"hi");
    let frame = writer.frame.clone().unwrap();
    assert_eq!(
        frame.0,
        create_frame(Some([1, 2, 3, 4]), b"hi", OpCode::Text).unwrap()
    );
}

#[test]
fn control_replies() {
    assert_eq!(control_reply(OpCode::Ping), ControlDisposition::ReplyPong);
    assert_eq!(control_reply(OpCode::Close), ControlDisposition::ReplyCloseAndEnd);
    assert_eq!(control_reply(OpCode::Pong), ControlDisposition::Ignore);
    assert_eq!(control_reply(OpCode::Text), ControlDisposition::Ignore);
}

#[test]
fn relay_sends_close_when_none_was_sent() {
    let frame = relay_close_frame(false).unwrap();
    assert_eq!(frame, vec![0x88, 0x02, 0x03, 0xE8]);
    assert!(relay_close_frame(true).is_none());
}

#[test]
fn handshake_computes_rfc6455_accept_key() {
    let request = UpgradeRequest {
        upgrade: Some("websocket".to_string()),
        version: Some("13".to_string()),
        key: Some("dGhlIHNhbXBsZSBub25jZQ==".to_string()),
        protocol: Some("text".to_string()),
    };
    let (ws, response) = WebSocket::new(request).unwrap();
    assert!(ws.text);
    assert_eq!(response.accept_key, "s3pPLMBiTxaQ9kYGzzhZRbK+xOo=");
    assert_eq!(response.protocol, "text");
}

#[test]
fn handshake_selects_binary_for_other_protocols() {
    let request = UpgradeRequest {
        upgrade: Some("websocket".to_string()),
        version: Some("13".to_string()),
        key: Some("AQIDBAUGBwgJCgsMDQ4PEA==".to_string()),
        protocol: Some("binary".to_string()),
    };
    let (ws, response) = WebSocket::new(request).unwrap();
    assert!(!ws.text);
    assert_eq!(response.protocol, "binary");
}

#[test]
fn handshake_refuses_bad_requests() {
    let good = || UpgradeRequest {
        upgrade: Some("websocket".to_string()),
        version: Some("13".to_string()),
        key: Some("AQIDBAUGBwgJCgsMDQ4PEA==".to_string()),
        protocol: Some("text".to_string()),
    };

    let mut r = good();
    r.upgrade = None;
    assert_eq!(WebSocket::new(r).unwrap_err(), HandshakeError::MissingUpgrade);

    let mut r = good();
    r.version = None;
    assert_eq!(WebSocket::new(r).unwrap_err(), HandshakeError::MissingVersion);

    let mut r = good();
    r.key = None;
    assert_eq!(WebSocket::new(r).unwrap_err(), HandshakeError::MissingKey);

    let mut r = good();
    r.protocol = None;
    assert_eq!(WebSocket::new(r).unwrap_err(), HandshakeError::MissingProtocol);

    let mut r = good();
    r.upgrade = Some("h2c".to_string());
    assert_eq!(WebSocket::new(r).unwrap_err(), HandshakeError::InvalidProtocolName);

    let mut r = good();
    r.version = Some("8".to_string());
    assert_eq!(WebSocket::new(r).unwrap_err(), HandshakeError::InvalidVersion);
}

#[test]
fn tls_sniff_classification() {
    let mut tls = vec![0x16, 0x03, 0x01, 0x00, 0x05];
    tls.extend(vec![0u8; 123]);
    assert!(contains_tls_handshake_fragment(&tls));
    assert_eq!(sniff_step(&tls, 5, 0), SniffDecision::Tls);

    let plain = b"GET / HTTP/1.1\r\n";
    assert!(!contains_tls_handshake_fragment(plain));
    assert_eq!(sniff_step(plain, 16, 16), SniffDecision::Plaintext);
    assert_eq!(sniff_step(plain, 16, 8), SniffDecision::KeepPolling);

    // an oversized record length is not TLS
    let not_tls = [0x16, 0x03, 0x01, 0x40, 0x01];
    assert!(!contains_tls_handshake_fragment(&not_tls));
    // too few bytes are never TLS
    assert!(!contains_tls_handshake_fragment(&[0x16, 0x03, 0x01]));
}

#[test]
fn admission_counter_sheds_load_at_ceiling() {
    let mut counter = AcceptCounter::new(2);
    assert!(counter.try_acquire());
    assert!(counter.try_acquire());
    // at the ceiling the next connection is refused, not queued
    assert!(!counter.try_acquire());
    assert_eq!(counter.pending, 2);
    counter.release();
    assert!(counter.try_acquire());
    assert!(!counter.try_acquire());
}
