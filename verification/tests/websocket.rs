use codex_web_client::websocket::{
    encode_control_frame, encode_frame, encode_text_frame, frame_action, frame_bytes,
    handshake_request, read_frame, read_handshake, validate_websocket_handshake_response,
    websocket_accept_key, websocket_key, FrameAction, FramePart, FrameRead, HandshakeRead,
    WsFrame, MAX_HANDSHAKE_BYTES,
};

fn unmask(frame: &[u8], header_len: usize) -> Vec<u8> {
    let mask = &frame[header_len..header_len + 4];
    frame[header_len + 4..]
        .iter()
        .enumerate()
        .map(|(index, byte)| byte ^ mask[index % 4])
        .collect()
}

#[test]
fn short_unmasked_frame_has_a_two_byte_header() {
    let bytes = frame_bytes(0x1, b"hi", None);
    assert_eq!(bytes, vec![0x81, 0x02, b'h', b'i']);
}

#[test]
fn masked_frame_xors_the_payload_with_the_mask() {
    let bytes = frame_bytes(0x1, b"Hello", Some([0x37, 0xfa, 0x21, 0x3d]));
    assert_eq!(
        bytes,
        vec![0x81, 0x85, 0x37, 0xfa, 0x21, 0x3d, 0x7f, 0x9f, 0x4d, 0x51, 0x58]
    );
}

#[test]
fn medium_and_long_lengths_use_extended_forms() {
    let medium = vec![7u8; 126];
    let bytes = frame_bytes(0x2, &medium, None);
    assert_eq!(&bytes[..4], &[0x82, 126, 0x00, 126]);
    assert_eq!(bytes.len(), 4 + 126);

    let edge = vec![7u8; 65535];
    let bytes = frame_bytes(0x2, &edge, None);
    assert_eq!(&bytes[..4], &[0x82, 126, 0xff, 0xff]);

    let long = vec![7u8; 65536];
    let bytes = frame_bytes(0x2, &long, Some([1, 2, 3, 4]));
    assert_eq!(&bytes[..10], &[0x82, 0xff, 0, 0, 0, 0, 0, 1, 0, 0]);
    assert_eq!(&bytes[10..14], &[1, 2, 3, 4]);
    assert_eq!(bytes.len(), 14 + 65536);
}

#[test]
fn a_written_frame_reads_back() {
    let bytes = frame_bytes(0x1, "héllo".as_bytes(), Some([9, 8, 7, 6]));
    assert_eq!(
        read_frame(&bytes),
        FrameRead::Frame {
            frame: WsFrame::Text("héllo".to_string()),
            used: bytes.len(),
        }
    );

    let ping = frame_bytes(0x9, &[1, 2, 3], None);
    assert_eq!(
        read_frame(&ping),
        FrameRead::Frame {
            frame: WsFrame::Ping(vec![1, 2, 3]),
            used: 5,
        }
    );
    assert_eq!(
        read_frame(&frame_bytes(0x8, &[], None)),
        FrameRead::Frame { frame: WsFrame::Close, used: 2 }
    );
    assert_eq!(
        read_frame(&frame_bytes(0xA, &[5], Some([1, 1, 1, 1]))),
        FrameRead::Frame { frame: WsFrame::Pong, used: 7 }
    );
}

#[test]
fn reading_stops_at_the_end_of_the_first_frame() {
    let mut bytes = frame_bytes(0x1, b"one", None);
    bytes.extend(frame_bytes(0x1, b"two", None));
    assert_eq!(
        read_frame(&bytes),
        FrameRead::Frame { frame: WsFrame::Text("one".to_string()), used: 5 }
    );
    assert_eq!(
        read_frame(&bytes[5..]),
        FrameRead::Frame { frame: WsFrame::Text("two".to_string()), used: 5 }
    );
}

#[test]
fn partial_frames_ask_for_more_bytes() {
    assert_eq!(read_frame(&[]), FrameRead::NeedMore { total: 2, part: FramePart::Header });
    assert_eq!(read_frame(&[0x81]), FrameRead::NeedMore { total: 2, part: FramePart::Header });
    assert_eq!(
        read_frame(&[0x82, 126, 0]),
        FrameRead::NeedMore { total: 4, part: FramePart::Length16 }
    );
    assert_eq!(
        read_frame(&[0x82, 127, 0, 0]),
        FrameRead::NeedMore { total: 10, part: FramePart::Length64 }
    );
    assert_eq!(
        read_frame(&[0x81, 0x83, 1, 2]),
        FrameRead::NeedMore { total: 6, part: FramePart::Mask }
    );
    assert_eq!(
        read_frame(&[0x81, 0x03, b'a']),
        FrameRead::NeedMore { total: 5, part: FramePart::Payload }
    );
}

#[test]
fn every_prefix_of_a_frame_asks_for_more() {
    let bytes = frame_bytes(0x1, &vec![b'x'; 300], Some([4, 3, 2, 1]));
    for end in 0..bytes.len() {
        match read_frame(&bytes[..end]) {
            FrameRead::NeedMore { total, .. } => assert!(total > end),
            other => panic!("prefix of {end} bytes read as {other:?}"),
        }
    }
}

#[test]
fn oversized_messages_fail() {
    let header = [0x82, 127, 0, 0, 0, 0, 0x08, 0, 0, 1];
    assert_eq!(
        read_frame(&header),
        FrameRead::Fail { message: "websocket message too large: 134217729 bytes".to_string() }
    );
}

#[test]
fn continuation_and_unknown_frames_are_skipped() {
    assert_eq!(read_frame(&frame_bytes(0x0, b"ab", None)), FrameRead::Skip { used: 4 });
    assert_eq!(read_frame(&frame_bytes(0x3, b"", None)), FrameRead::Skip { used: 2 });
}

#[test]
fn text_that_is_not_utf8_fails() {
    match read_frame(&frame_bytes(0x1, &[0xff, 0xfe], None)) {
        FrameRead::Fail { message } => assert!(message.starts_with("decoding websocket text: ")),
        other => panic!("unexpected {other:?}"),
    }
}

#[test]
fn encoded_text_frames_are_masked() {
    let bytes = encode_text_frame(b"hello").expect("random mask");
    assert_eq!(bytes[0], 0x81);
    assert_eq!(bytes[1], 0x80 | 5);
    assert_eq!(unmask(&bytes, 2), b"hello".to_vec());
    assert_eq!(
        read_frame(&bytes),
        FrameRead::Frame { frame: WsFrame::Text("hello".to_string()), used: 11 }
    );
}

#[test]
fn unmasked_encoding_is_the_plain_frame() {
    assert_eq!(encode_frame(0x2, b"ab", false), Ok(vec![0x82, 2, b'a', b'b']));
}

#[test]
fn control_frames_hold_at_most_125_bytes() {
    assert_eq!(
        encode_control_frame(0x9, &[0u8; 126]),
        Err("websocket control frame too large".to_string())
    );
    let pong = encode_control_frame(0xA, &[1u8; 125]).expect("random mask");
    assert_eq!(pong[0], 0x8A);
    assert_eq!(pong[1], 0x80 | 125);
    assert_eq!(unmask(&pong, 2), vec![1u8; 125]);
}

#[test]
fn frame_actions() {
    assert_eq!(
        frame_action(WsFrame::Text("m".to_string())),
        FrameAction::Deliver("m".to_string())
    );
    assert_eq!(frame_action(WsFrame::Close), FrameAction::Closed);
    assert_eq!(frame_action(WsFrame::Ping(vec![4])), FrameAction::Pong(vec![4]));
    assert_eq!(frame_action(WsFrame::Pong), FrameAction::Ignore);
}

#[test]
fn accept_key_matches_rfc_6455_example() {
    assert_eq!(
        websocket_accept_key("dGhlIHNhbXBsZSBub25jZQ=="),
        "s3pPLMBiTxaQ9kYGzzhZRbK+xOo="
    );
}

#[test]
fn fresh_keys_are_sixteen_bytes_of_base64() {
    let key = websocket_key().expect("random key");
    assert_eq!(key.len(), 24);
    assert!(key.ends_with("=="));
}

#[test]
fn handshake_request_names_the_proxy_and_key() {
    assert_eq!(
        handshake_request("abc"),
        "GET /rpc HTTP/1.1\r\nHost: codex-app-server-proxy.localhost\r\nConnection: Upgrade\r\nUpgrade: websocket\r\nSec-WebSocket-Version: 13\r\nSec-WebSocket-Key: abc\r\n\r\n"
    );
}

#[test]
fn handshake_is_read_up_to_the_blank_line() {
    assert_eq!(read_handshake(b""), HandshakeRead::NeedByte);
    assert_eq!(read_handshake(b"HTTP/1.1 101\r\n"), HandshakeRead::NeedByte);
    assert_eq!(
        read_handshake(b"HTTP/1.1 101\r\n\r\n"),
        HandshakeRead::Done("HTTP/1.1 101\r\n\r\n".to_string())
    );
    assert_eq!(
        read_handshake(&vec![b'a'; MAX_HANDSHAKE_BYTES]),
        HandshakeRead::Fail("websocket handshake response too large".to_string())
    );
    assert_eq!(read_handshake(&vec![b'a'; MAX_HANDSHAKE_BYTES - 1]), HandshakeRead::NeedByte);
    match read_handshake(&[0xff, b'\r', b'\n', b'\r', b'\n']) {
        HandshakeRead::Fail(message) => {
            assert!(message.starts_with("decoding websocket handshake: "))
        }
        other => panic!("unexpected {other:?}"),
    }
}

#[test]
fn handshake_response_is_validated() {
    let ok = "HTTP/1.1 101 Switching Protocols\r\nUpgrade: websocket\r\nsec-websocket-accept:  abc= \r\n\r\n";
    assert_eq!(validate_websocket_handshake_response(ok, "abc="), Ok(()));

    let old_http = "HTTP/1.0 101 ok\r\nSec-WebSocket-Accept: k\r\n\r\n";
    assert_eq!(validate_websocket_handshake_response(old_http, "k"), Ok(()));

    assert_eq!(
        validate_websocket_handshake_response("HTTP/1.1 403 Forbidden\r\n\r\n", "k"),
        Err("websocket upgrade failed: HTTP/1.1 403 Forbidden".to_string())
    );
    assert_eq!(
        validate_websocket_handshake_response(
            "HTTP/1.1 101 ok\r\nSec-WebSocket-Accept: other\r\n\r\n",
            "k"
        ),
        Err("websocket accept mismatch: expected k, got other".to_string())
    );
    assert_eq!(
        validate_websocket_handshake_response("HTTP/1.1 101 ok\r\nUpgrade: websocket\r\n\r\n", "k"),
        Err("websocket upgrade missing Sec-WebSocket-Accept".to_string())
    );
}

#[test]
fn the_last_accept_header_counts() {
    let response =
        "HTTP/1.1 101 ok\r\nSec-WebSocket-Accept: first\r\nSEC-WEBSOCKET-ACCEPT: second\r\n\r\n";
    assert_eq!(validate_websocket_handshake_response(response, "second"), Ok(()));
}
