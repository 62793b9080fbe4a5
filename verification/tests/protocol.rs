use codex_web_client::config::{
    check_pair_document, normalize_alleycat_config, normalize_websocket_url,
};
use codex_web_client::protocol::{
    conversation_item_from_value, format_rpc_error, notification_thread_id, status_label,
    thread_detail_from_value, thread_summary_from_value,
};
use codex_web_client::{JsonNumber, JsonValue, WebClientError};

fn s(text: &str) -> JsonValue {
    JsonValue::Str(text.to_string())
}

fn n(value: u64) -> JsonValue {
    JsonValue::Number(JsonNumber::PosInt(value))
}

fn obj(entries: Vec<(&str, JsonValue)>) -> JsonValue {
    JsonValue::Object(
        entries
            .into_iter()
            .map(|(key, value)| (key.to_string(), value))
            .collect(),
    )
}

fn arr(items: Vec<JsonValue>) -> JsonValue {
    JsonValue::Array(items)
}

#[test]
fn status_label_joins_active_flags() {
    let status = obj(vec![
        ("type", s("active")),
        ("activeFlags", arr(vec![s("waitingOnApproval"), n(3), s("waitingOnUserInput")])),
    ]);
    assert_eq!(status_label(&status), "active: waitingOnApproval, waitingOnUserInput");
}

#[test]
fn status_label_without_flags_is_the_type() {
    assert_eq!(status_label(&obj(vec![("type", s("idle"))])), "idle");
    assert_eq!(
        status_label(&obj(vec![("type", s("idle")), ("activeFlags", arr(vec![]))])),
        "idle"
    );
    assert_eq!(status_label(&obj(vec![])), "unknown");
    assert_eq!(status_label(&s("idle")), "unknown");
}

#[test]
fn summary_title_comes_from_the_first_nonblank_preview_line() {
    let thread = obj(vec![
        ("id", s("t1")),
        ("preview", s("\n   first line  \r\nsecond")),
        ("status", obj(vec![("type", s("idle"))])),
        ("cwd", s("/work")),
        ("updatedAt", n(42)),
    ]);
    let summary = thread_summary_from_value(&thread);
    assert_eq!(summary.id, "t1");
    assert_eq!(summary.title, "first line");
    assert_eq!(summary.preview, "\n   first line  \r\nsecond");
    assert_eq!(summary.status, "idle");
    assert_eq!(summary.cwd.as_deref(), Some("/work"));
    assert_eq!(summary.updated_at, Some(42));
}

#[test]
fn summary_prefers_a_nonblank_name() {
    let named = obj(vec![("name", s("Named")), ("preview", s("preview"))]);
    assert_eq!(thread_summary_from_value(&named).title, "Named");

    let blank_name = obj(vec![("name", s("   ")), ("preview", s("preview"))]);
    assert_eq!(thread_summary_from_value(&blank_name).title, "preview");
}

#[test]
fn summary_of_an_empty_thread_uses_the_fallbacks() {
    let summary = thread_summary_from_value(&obj(vec![]));
    assert_eq!(summary.id, "");
    assert_eq!(summary.title, "Untitled thread");
    assert_eq!(summary.preview, "");
    assert_eq!(summary.status, "unknown");
    assert_eq!(summary.cwd, None);
    assert_eq!(summary.updated_at, None);

    let blank_preview = obj(vec![("preview", s("  \n \t "))]);
    assert_eq!(thread_summary_from_value(&blank_preview).title, "Untitled thread");
}

#[test]
fn summary_reads_negative_update_times() {
    let thread = obj(vec![("updatedAt", JsonValue::Number(JsonNumber::NegInt(-5)))]);
    assert_eq!(thread_summary_from_value(&thread).updated_at, Some(-5));
    let float = obj(vec![("updatedAt", JsonValue::Number(JsonNumber::Float("1.5".to_string())))]);
    assert_eq!(thread_summary_from_value(&float).updated_at, None);
}

#[test]
fn user_message_text_joins_text_inputs() {
    let item = obj(vec![
        ("type", s("userMessage")),
        ("id", s("u1")),
        (
            "content",
            arr(vec![
                obj(vec![("type", s("text")), ("text", s("hello"))]),
                obj(vec![("type", s("image")), ("url", s("x"))]),
                obj(vec![("type", s("text")), ("text", s("world"))]),
            ]),
        ),
    ]);
    let item = conversation_item_from_value(&item);
    assert_eq!(item.id, "u1");
    assert_eq!(item.kind, "userMessage");
    assert_eq!(item.text, "hello\nworld");
}

#[test]
fn item_without_id_is_named_after_its_kind() {
    let item = conversation_item_from_value(&obj(vec![("type", s("plan")), ("text", s("step"))]));
    assert_eq!(item.id, "item-plan");
    assert_eq!(item.text, "step");

    let agent = conversation_item_from_value(&obj(vec![("type", s("agentMessage"))]));
    assert_eq!(agent.id, "item-agentMessage");
    assert_eq!(agent.text, "");
}

#[test]
fn reasoning_reads_summary_then_content() {
    let with_summary = obj(vec![
        ("type", s("reasoning")),
        ("summary", arr(vec![s("a"), n(1), s("b")])),
        ("content", arr(vec![s("ignored")])),
    ]);
    assert_eq!(conversation_item_from_value(&with_summary).text, "a\nb");

    let with_content = obj(vec![("type", s("reasoning")), ("content", arr(vec![s("c")]))]);
    assert_eq!(conversation_item_from_value(&with_content).text, "c");

    let bare = obj(vec![("type", s("reasoning"))]);
    assert_eq!(conversation_item_from_value(&bare).text, "");
}

#[test]
fn command_execution_shows_command_and_output() {
    let with_output = obj(vec![
        ("type", s("commandExecution")),
        ("command", s("ls")),
        ("aggregatedOutput", s("a.txt")),
    ]);
    assert_eq!(conversation_item_from_value(&with_output).text, "ls\n\na.txt");

    let without_output = obj(vec![
        ("type", s("commandExecution")),
        ("command", s("ls")),
        ("aggregatedOutput", s("")),
    ]);
    assert_eq!(conversation_item_from_value(&without_output).text, "ls");
}

#[test]
fn unknown_item_is_shown_as_its_json() {
    let item = obj(vec![("type", s("fileChange")), ("id", s("f1"))]);
    let item = conversation_item_from_value(&item);
    assert_eq!(item.kind, "fileChange");
    assert_eq!(item.id, "f1");
    assert_eq!(item.text, r#"{"id":"f1","type":"fileChange"}"#);

    let untyped = conversation_item_from_value(&obj(vec![]));
    assert_eq!(untyped.kind, "unknown");
    assert_eq!(untyped.id, "item-unknown");
    assert_eq!(untyped.text, "{}");
}

#[test]
fn thread_detail_flattens_turn_items_in_order() {
    let thread = obj(vec![
        ("id", s("t1")),
        (
            "turns",
            arr(vec![
                obj(vec![(
                    "items",
                    arr(vec![
                        obj(vec![("type", s("agentMessage")), ("id", s("a")), ("text", s("one"))]),
                        obj(vec![("type", s("plan")), ("id", s("b")), ("text", s("two"))]),
                    ]),
                )]),
                obj(vec![]),
                obj(vec![(
                    "items",
                    arr(vec![obj(vec![
                        ("type", s("agentMessage")),
                        ("id", s("c")),
                        ("text", s("three")),
                    ])]),
                )]),
            ]),
        ),
    ]);
    let detail = thread_detail_from_value(&thread);
    assert_eq!(detail.summary.id, "t1");
    let ids: Vec<&str> = detail.items.iter().map(|item| item.id.as_str()).collect();
    assert_eq!(ids, vec!["a", "b", "c"]);
    assert_eq!(detail.items[2].text, "three");

    let no_turns = thread_detail_from_value(&obj(vec![("id", s("t2"))]));
    assert!(no_turns.items.is_empty());
}

#[test]
fn notification_thread_id_reads_both_shapes() {
    assert_eq!(
        notification_thread_id(&obj(vec![("threadId", s("t1"))])).as_deref(),
        Some("t1")
    );
    assert_eq!(
        notification_thread_id(&obj(vec![("thread", obj(vec![("id", s("t2"))]))])).as_deref(),
        Some("t2")
    );
    assert_eq!(
        notification_thread_id(&obj(vec![
            ("threadId", n(1)),
            ("thread", obj(vec![("id", s("t3"))])),
        ]))
        .as_deref(),
        Some("t3")
    );
    assert_eq!(notification_thread_id(&obj(vec![])), None);
}

#[test]
fn rpc_error_prefers_its_message() {
    assert_eq!(
        format_rpc_error(&obj(vec![("code", n(1)), ("message", s("boom"))])),
        "boom"
    );
    assert_eq!(format_rpc_error(&obj(vec![("code", n(1))])), r#"{"code":1}"#);
    assert_eq!(format_rpc_error(&s("plain")), r#""plain""#);
}

#[test]
fn websocket_urls_are_normalized() {
    assert_eq!(normalize_websocket_url("  ws://host:1/rpc \n"), Ok("ws://host:1/rpc".to_string()));
    assert_eq!(normalize_websocket_url("wss://host"), Ok("wss://host".to_string()));
    assert_eq!(normalize_websocket_url("http://host/x"), Ok("ws://host/x".to_string()));
    assert_eq!(normalize_websocket_url("https://host/x"), Ok("wss://host/x".to_string()));
    assert_eq!(normalize_websocket_url("ftp://host"), Err(WebClientError::InvalidWebSocketUrl));
    assert_eq!(normalize_websocket_url(""), Err(WebClientError::InvalidWebSocketUrl));
}

#[test]
fn normalizing_a_normalized_url_changes_nothing() {
    let once = normalize_websocket_url(" https://host/rpc ").unwrap();
    assert_eq!(normalize_websocket_url(&once), Ok(once.clone()));
}

fn payload_error(pair_payload: &str, agent: &str) -> String {
    match normalize_alleycat_config(pair_payload.to_string(), agent.to_string()) {
        Err(WebClientError::InvalidAlleycatPayload(message)) => message,
        other => panic!("expected a payload error, got {other:?}"),
    }
}

#[test]
fn alleycat_config_is_trimmed() {
    let config = normalize_alleycat_config(
        "  {\"v\":1,\"node_id\":\"n\",\"token\":\"t\"} ".to_string(),
        " codex ".to_string(),
    )
    .unwrap();
    assert_eq!(config.pair_payload, "{\"v\":1,\"node_id\":\"n\",\"token\":\"t\"}");
    assert_eq!(config.agent, "codex");
}

#[test]
fn alleycat_config_errors() {
    assert_eq!(payload_error("  ", "codex"), "pair payload is empty");
    assert_eq!(payload_error("{}", "  "), "agent is empty");
    assert_eq!(payload_error("{\"v\":2,\"node_id\":\"n\",\"token\":\"t\"}", "codex"), "pair payload must have v=1");
    assert_eq!(payload_error("{\"node_id\":\"n\",\"token\":\"t\"}", "codex"), "pair payload must have v=1");
    assert_eq!(payload_error("{\"v\":1,\"node_id\":\" \",\"token\":\"t\"}", "codex"), "pair payload must include node_id");
    assert_eq!(payload_error("{\"v\":1,\"node_id\":7,\"token\":\"t\"}", "codex"), "pair payload must include node_id");
    assert_eq!(payload_error("{\"v\":1,\"node_id\":\"n\"}", "codex"), "pair payload must include token");
    assert!(!payload_error("{not json", "codex").is_empty());
}

#[test]
fn pair_document_checks_run_on_the_parsed_document() {
    let doc = obj(vec![("v", n(1)), ("node_id", s("n")), ("token", s("t"))]);
    let config = check_pair_document("payload".to_string(), "agent".to_string(), &doc).unwrap();
    assert_eq!(config.pair_payload, "payload");
    assert_eq!(config.agent, "agent");

    let missing_token = obj(vec![("v", n(1)), ("node_id", s("n"))]);
    assert_eq!(
        check_pair_document("p".to_string(), "a".to_string(), &missing_token),
        Err(WebClientError::InvalidAlleycatPayload(
            "pair payload must include token".to_string()
        ))
    );
}
