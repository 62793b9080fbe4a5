use codex_web_client::alleycat::{
    check_pair_payload, frame_body_len, json_frame, prepare_connect, validate_response,
    AlleycatResponse, PairPayloadWire, ParsedPairPayload, MAX_FRAME_BYTES,
};

const NODE_ID: &str = "5866666666666666666666666666666666666666666666666666666666666666";

fn wire(v: u32, node_id: &str, token: &str, relay: Option<&str>) -> PairPayloadWire {
    PairPayloadWire {
        v,
        node_id: node_id.to_string(),
        token: token.to_string(),
        relay: relay.map(str::to_string),
    }
}

#[test]
fn a_valid_pair_payload_is_accepted() {
    let parsed = check_pair_payload(wire(1, NODE_ID, "secret", None)).expect("valid payload");
    assert_eq!(
        parsed,
        ParsedPairPayload {
            node_id: NODE_ID.to_string(),
            token: "secret".to_string(),
            relay: None,
        }
    );

    let with_relay =
        check_pair_payload(wire(1, NODE_ID, "secret", Some("https://relay.example.com/")))
            .expect("valid relay");
    assert_eq!(with_relay.relay.as_deref(), Some("https://relay.example.com/"));
}

#[test]
fn pair_payload_version_must_match() {
    assert_eq!(
        check_pair_payload(wire(2, NODE_ID, "secret", None)),
        Err("protocol version mismatch: payload=2 client=1".to_string())
    );
}

#[test]
fn pair_payload_needs_node_id_and_token() {
    assert_eq!(
        check_pair_payload(wire(1, "  ", "secret", None)),
        Err("empty node_id".to_string())
    );
    assert_eq!(
        check_pair_payload(wire(1, NODE_ID, " \t", None)),
        Err("empty token".to_string())
    );
}

#[test]
fn pair_payload_node_id_must_be_a_key() {
    let error = check_pair_payload(wire(1, "not-a-key", "secret", None)).unwrap_err();
    assert!(error.starts_with("invalid node_id: "), "{error}");
}

#[test]
fn pair_payload_relay_must_be_a_url() {
    let error = check_pair_payload(wire(1, NODE_ID, "secret", Some("not a url"))).unwrap_err();
    assert!(error.starts_with("invalid relay URL: "), "{error}");
}

#[test]
fn connecting_needs_an_agent() {
    let (params, agent) =
        prepare_connect(wire(1, NODE_ID, "secret", None), "  codex  ").expect("ready");
    assert_eq!(params.token, "secret");
    assert_eq!(agent, "codex");
    assert_eq!(
        prepare_connect(wire(1, NODE_ID, "secret", None), "   "),
        Err("agent is empty".to_string())
    );
    assert_eq!(
        prepare_connect(wire(3, NODE_ID, "secret", None), "codex"),
        Err("protocol version mismatch: payload=3 client=1".to_string())
    );
}

#[test]
fn host_responses_are_checked() {
    let ok = AlleycatResponse { v: 1, ok: true, error: None };
    assert_eq!(validate_response(&ok), Ok(()));

    let wrong_version = AlleycatResponse { v: 7, ok: true, error: None };
    assert_eq!(
        validate_response(&wrong_version),
        Err("protocol version mismatch: host=7 client=1".to_string())
    );

    let refused = AlleycatResponse { v: 1, ok: false, error: Some("no such agent".to_string()) };
    assert_eq!(validate_response(&refused), Err("no such agent".to_string()));

    let silent = AlleycatResponse { v: 1, ok: false, error: None };
    assert_eq!(validate_response(&silent), Err("host rejected request".to_string()));
}

#[test]
fn json_frames_carry_a_big_endian_length() {
    assert_eq!(json_frame(b"{}"), Ok(vec![0, 0, 0, 2, b'{', b'}']));
    let body = vec![b' '; 0x0102];
    let framed = json_frame(&body).unwrap();
    assert_eq!(&framed[..4], &[0, 0, 1, 2]);
    assert_eq!(framed.len(), 4 + 0x0102);
}

#[test]
fn json_frames_have_a_size_limit() {
    let largest = vec![b'x'; MAX_FRAME_BYTES];
    assert_eq!(json_frame(&largest).unwrap().len(), MAX_FRAME_BYTES + 4);
    let too_large = vec![b'x'; MAX_FRAME_BYTES + 1];
    assert_eq!(
        json_frame(&too_large),
        Err("frame too large: 1048577 bytes".to_string())
    );
}

#[test]
fn frame_length_prefix_reads_back() {
    let framed = json_frame(b"{\"ok\":true}").unwrap();
    let prefix = [framed[0], framed[1], framed[2], framed[3]];
    assert_eq!(frame_body_len(prefix), Ok(11));
    assert_eq!(frame_body_len([0, 0x10, 0, 0]), Ok(MAX_FRAME_BYTES));
    assert_eq!(
        frame_body_len([0, 0x10, 0, 1]),
        Err("frame too large: 1048577 bytes".to_string())
    );
    assert_eq!(
        frame_body_len([0xff, 0xff, 0xff, 0xff]),
        Err("frame too large: 4294967295 bytes".to_string())
    );
}
