use codex_web_client::{
    AlleycatConfig, ConnectionStatus, JsonValue, ServerConfig, WebApp, WebClientError, WebEffect,
    WebEvent,
};

fn at<'a>(value: &'a JsonValue, path: &[&str]) -> &'a JsonValue {
    let mut current = value;
    for key in path {
        current = current.get(key).expect("member");
    }
    current
}

fn text_at<'a>(value: &'a JsonValue, path: &[&str]) -> Option<&'a str> {
    at(value, path).as_str()
}

fn dispatch(app: &mut WebApp, event: WebEvent) -> codex_web_client::WebDispatchResult {
    assert!(app.can_dispatch(&event));
    app.dispatch(event).expect("dispatch")
}

fn initialize_response(id: i64) -> String {
    format!(
        r#"{{"id":{id},"result":{{"userAgent":"codex-test","codexHome":"/tmp/codex","platformFamily":"unix","platformOs":"linux"}}}}"#
    )
}

#[test]
fn configure_server_normalizes_http_to_ws_and_opens_socket() {
    let mut app = WebApp::new();

    let result = app
        .dispatch(WebEvent::ConfigureServer {
            url: "http://127.0.0.1:4500/rpc".to_string(),
        })
        .expect("configure server");

    assert_eq!(
        result.snapshot.connection.status,
        ConnectionStatus::Connecting
    );
    assert_eq!(
        result.snapshot.server_url.as_deref(),
        Some("ws://127.0.0.1:4500/rpc")
    );
    assert_eq!(result.snapshot.alleycat_agent, None);
    assert_eq!(
        result.effects,
        vec![
            WebEffect::PersistConfig {
                config: ServerConfig {
                    websocket_url: "ws://127.0.0.1:4500/rpc".to_string()
                }
            },
            WebEffect::OpenWebSocket {
                url: "ws://127.0.0.1:4500/rpc".to_string()
            }
        ]
    );
}

#[test]
fn configure_alleycat_clears_websocket_config_and_opens_alleycat() {
    let mut app = WebApp::new();
    app.dispatch(WebEvent::ConfigureServer {
        url: "ws://127.0.0.1:8390".to_string(),
    })
    .expect("configure server");

    let result = app
        .dispatch(WebEvent::ConfigureAlleycat {
            pair_payload: r#"{"v":1,"node_id":"node-a","token":"token-a","relay":null}"#
                .to_string(),
            agent: " codex ".to_string(),
        })
        .expect("configure alleycat");

    assert_eq!(
        result.snapshot.connection.status,
        ConnectionStatus::Connecting
    );
    assert_eq!(result.snapshot.server_url, None);
    assert_eq!(result.snapshot.alleycat_agent.as_deref(), Some("codex"));
    assert_eq!(
        result.effects,
        vec![
            WebEffect::PersistAlleycatConfig {
                config: AlleycatConfig {
                    pair_payload: r#"{"v":1,"node_id":"node-a","token":"token-a","relay":null}"#
                        .to_string(),
                    agent: "codex".to_string()
                }
            },
            WebEffect::OpenAlleycat {
                config: AlleycatConfig {
                    pair_payload: r#"{"v":1,"node_id":"node-a","token":"token-a","relay":null}"#
                        .to_string(),
                    agent: "codex".to_string()
                }
            }
        ]
    );
}

#[test]
fn web_socket_opened_requests_initialize() {
    let mut app = WebApp::new();

    let result = app
        .dispatch(WebEvent::WebSocketOpened)
        .expect("websocket opened");

    assert_eq!(
        result.snapshot.connection.status,
        ConnectionStatus::Connecting
    );
    assert_eq!(
        result.snapshot.connection.message.as_deref(),
        Some("Initializing")
    );
    assert_eq!(result.effects.len(), 1);
    let WebEffect::SendRpc { message } = &result.effects[0] else {
        panic!("expected SendRpc");
    };
    assert_eq!(text_at(message, &["method"]), Some("initialize"));
    assert_eq!(text_at(message, &["params", "clientInfo", "name"]), Some("Litter"));
    assert_eq!(
        text_at(message, &["params", "clientInfo", "title"]),
        Some("Litter Web")
    );
    assert_eq!(
        at(message, &["params", "capabilities", "experimentalApi"]).as_bool(),
        Some(true)
    );
}

#[test]
fn initialize_response_sends_initialized_and_thread_list() {
    let mut app = WebApp::new();
    let opened = app
        .dispatch(WebEvent::WebSocketOpened)
        .expect("websocket opened");
    let WebEffect::SendRpc { message } = &opened.effects[0] else {
        panic!("expected SendRpc");
    };
    let id = at(message, &["id"]).as_i64().expect("id");

    let result = app
        .dispatch(WebEvent::WebSocketMessage {
            text: initialize_response(id),
        })
        .expect("initialize response");

    assert_eq!(
        result.snapshot.connection.status,
        ConnectionStatus::Connected
    );
    assert_eq!(
        result.snapshot.connection.message.as_deref(),
        Some("Connected")
    );
    assert_eq!(result.effects.len(), 2);
    let WebEffect::SendRpc {
        message: initialized,
    } = &result.effects[0]
    else {
        panic!("expected initialized notification");
    };
    assert_eq!(text_at(initialized, &["method"]), Some("initialized"));
    assert!(initialized.get("id").is_none());
    let WebEffect::SendRpc {
        message: thread_list,
    } = &result.effects[1]
    else {
        panic!("expected thread/list request");
    };
    assert_eq!(text_at(thread_list, &["method"]), Some("thread/list"));
    assert_eq!(at(thread_list, &["params", "limit"]).as_i64(), Some(50));
}

fn initialized_app() -> WebApp {
    let mut app = WebApp::new();
    let opened = app
        .dispatch(WebEvent::WebSocketOpened)
        .expect("websocket opened");
    let WebEffect::SendRpc { message } = &opened.effects[0] else {
        panic!("expected initialize request");
    };
    let id = at(message, &["id"]).as_i64().expect("id");
    app.dispatch(WebEvent::WebSocketMessage {
        text: initialize_response(id),
    })
    .expect("initialize response");
    app
}

#[test]
fn thread_list_response_updates_snapshot() {
    let mut app = initialized_app();

    let result = app
        .dispatch(WebEvent::RequestThreads)
        .expect("request threads");
    let WebEffect::SendRpc { message } = &result.effects[0] else {
        panic!("expected SendRpc");
    };
    let id = at(message, &["id"]).as_i64().expect("id");

    let response = format!(
        r#"{{"id":{id},"result":{{"data":[{{"id":"thread-1","preview":"Build PWA","status":{{"type":"idle"}},"cwd":"/workspace","updatedAt":42}}],"nextCursor":null,"backwardsCursor":null}}}}"#
    );
    let result = app
        .dispatch(WebEvent::WebSocketMessage { text: response })
        .expect("message");

    assert_eq!(result.snapshot.threads.len(), 1);
    assert_eq!(result.snapshot.threads[0].id, "thread-1");
    assert_eq!(result.snapshot.threads[0].title, "Build PWA");
}

#[test]
fn select_thread_requests_thread_read_with_turns() {
    let mut app = WebApp::new();

    let result = app
        .dispatch(WebEvent::SelectThread {
            thread_id: "thread-1".to_string(),
        })
        .expect("select thread");

    let WebEffect::SendRpc { message } = &result.effects[0] else {
        panic!("expected SendRpc");
    };
    assert_eq!(text_at(message, &["method"]), Some("thread/read"));
    assert_eq!(text_at(message, &["params", "threadId"]), Some("thread-1"));
    assert_eq!(
        at(message, &["params", "includeTurns"]).as_bool(),
        Some(true)
    );
}

#[test]
fn send_turn_builds_turn_start_text_input() {
    let mut app = WebApp::new();

    let result = app
        .dispatch(WebEvent::SendTurn {
            thread_id: "thread-1".to_string(),
            text: "Implement plan".to_string(),
        })
        .expect("send turn");

    let WebEffect::SendRpc { message } = &result.effects[0] else {
        panic!("expected SendRpc");
    };
    assert_eq!(text_at(message, &["method"]), Some("turn/start"));
    assert_eq!(text_at(message, &["params", "threadId"]), Some("thread-1"));
    let input = at(message, &["params", "input"]).as_array().expect("input");
    assert_eq!(text_at(&input[0], &["type"]), Some("text"));
    assert_eq!(text_at(&input[0], &["text"]), Some("Implement plan"));
}

#[test]
fn request_ids_count_up_from_one() {
    let mut app = WebApp::new();
    let mut ids = Vec::new();
    for event in [
        WebEvent::WebSocketOpened,
        WebEvent::RequestThreads,
        WebEvent::SelectThread {
            thread_id: "t".to_string(),
        },
    ] {
        let result = dispatch(&mut app, event);
        let WebEffect::SendRpc { message } = &result.effects[0] else {
            panic!("expected SendRpc");
        };
        ids.push(at(message, &["id"]).as_i64().expect("id"));
    }
    assert_eq!(ids, vec![1, 2, 3]);
}

#[test]
fn refused_events_change_nothing() {
    let mut app = initialized_app();
    let before = app.snapshot();

    let err = app
        .dispatch(WebEvent::ConfigureServer {
            url: "ftp://example".to_string(),
        })
        .unwrap_err();
    assert_eq!(err, codex_web_client::WebClientError::InvalidWebSocketUrl);
    assert_eq!(app.snapshot(), before);

    let err = app
        .dispatch(WebEvent::WebSocketMessage {
            text: "{not json".to_string(),
        })
        .unwrap_err();
    assert!(matches!(err, codex_web_client::WebClientError::InvalidMessage(_)));
    assert_eq!(app.snapshot(), before);

    let err = app
        .dispatch(WebEvent::ConfigureAlleycat {
            pair_payload: r#"{"v":2,"node_id":"n","token":"t"}"#.to_string(),
            agent: "codex".to_string(),
        })
        .unwrap_err();
    assert_eq!(
        err,
        codex_web_client::WebClientError::InvalidAlleycatPayload(
            "pair payload must have v=1".to_string()
        )
    );
    assert_eq!(app.snapshot(), before);
}

#[test]
fn answered_request_is_not_answered_twice() {
    let mut app = WebApp::new();
    let opened = dispatch(&mut app, WebEvent::WebSocketOpened);
    let WebEffect::SendRpc { message } = &opened.effects[0] else {
        panic!("expected SendRpc");
    };
    let id = at(message, &["id"]).as_i64().expect("id");
    let first = dispatch(&mut app, WebEvent::WebSocketMessage { text: initialize_response(id) });
    assert_eq!(first.effects.len(), 2);
    let second = dispatch(&mut app, WebEvent::WebSocketMessage { text: initialize_response(id) });
    assert!(second.effects.is_empty());
}

#[test]
fn rpc_error_is_shown_with_its_message_or_as_json() {
    let mut app = WebApp::new();
    dispatch(&mut app, WebEvent::RequestThreads);
    let result = dispatch(
        &mut app,
        WebEvent::WebSocketMessage {
            text: r#"{"id":1,"error":{"code":-32600,"message":"bad request"}}"#.to_string(),
        },
    );
    assert_eq!(result.snapshot.last_error.as_deref(), Some("bad request"));

    dispatch(&mut app, WebEvent::ClearError);
    assert_eq!(app.snapshot().last_error, None);

    dispatch(&mut app, WebEvent::RequestThreads);
    let result = dispatch(
        &mut app,
        WebEvent::WebSocketMessage {
            text: r#"{"id":2,"error":{"code":-32600}}"#.to_string(),
        },
    );
    assert_eq!(result.snapshot.last_error.as_deref(), Some(r#"{"code":-32600}"#));
}

#[test]
fn blank_turn_is_refused_with_an_error_message() {
    let mut app = WebApp::new();
    let result = dispatch(
        &mut app,
        WebEvent::SendTurn {
            thread_id: "t".to_string(),
            text: " \n\t ".to_string(),
        },
    );
    assert!(result.effects.is_empty());
    assert_eq!(result.snapshot.last_error.as_deref(), Some("Message is empty"));
}

#[test]
fn closing_the_socket_keeps_the_reason() {
    let mut app = initialized_app();
    let result = dispatch(
        &mut app,
        WebEvent::WebSocketClosed {
            reason: Some("gone".to_string()),
        },
    );
    assert_eq!(result.snapshot.connection.status, ConnectionStatus::Disconnected);
    assert_eq!(result.snapshot.connection.message.as_deref(), Some("gone"));
    assert!(result.effects.is_empty());
}

#[test]
fn configuring_again_forgets_threads() {
    let mut app = initialized_app();
    dispatch(
        &mut app,
        WebEvent::WebSocketMessage {
            text: r#"{"method":"thread/started","params":{"thread":{"id":"a","preview":"x"}}}"#
                .to_string(),
        },
    );
    assert_eq!(app.snapshot().threads.len(), 1);
    let result = dispatch(
        &mut app,
        WebEvent::ConfigureServer {
            url: " wss://host/rpc ".to_string(),
        },
    );
    assert!(result.snapshot.threads.is_empty());
    assert_eq!(result.snapshot.server_url.as_deref(), Some("wss://host/rpc"));
    assert_eq!(result.snapshot.connection.message.as_deref(), Some("Connecting"));
}

#[test]
fn notifications_update_the_thread_list() {
    let mut app = WebApp::new();
    let started = |id: &str, preview: &str| WebEvent::WebSocketMessage {
        text: format!(
            r#"{{"method":"thread/started","params":{{"thread":{{"id":"{id}","preview":"{preview}","status":{{"type":"idle"}}}}}}}}"#
        ),
    };
    dispatch(&mut app, started("a", "first"));
    dispatch(&mut app, started("b", "second"));
    let ids: Vec<String> = app.snapshot().threads.iter().map(|t| t.id.clone()).collect();
    assert_eq!(ids, vec!["b".to_string(), "a".to_string()]);

    // A thread that is started again replaces its summary in place.
    dispatch(&mut app, started("a", "again"));
    let snapshot = app.snapshot();
    assert_eq!(snapshot.threads.len(), 2);
    assert_eq!(snapshot.threads[1].title, "again");

    dispatch(
        &mut app,
        WebEvent::WebSocketMessage {
            text: r#"{"method":"thread/statusChanged","params":{"threadId":"a","status":{"type":"active","activeFlags":["waitingOnApproval","x"]}}}"#
                .to_string(),
        },
    );
    assert_eq!(app.snapshot().threads[1].status, "active: waitingOnApproval, x");

    dispatch(
        &mut app,
        WebEvent::WebSocketMessage {
            text: r#"{"method":"thread/nameUpdated","params":{"threadId":"b","threadName":"Named"}}"#
                .to_string(),
        },
    );
    assert_eq!(app.snapshot().threads[0].title, "Named");

    dispatch(
        &mut app,
        WebEvent::WebSocketMessage {
            text: r#"{"method":"thread/archived","params":{"threadId":"b"}}"#.to_string(),
        },
    );
    let ids: Vec<String> = app.snapshot().threads.iter().map(|t| t.id.clone()).collect();
    assert_eq!(ids, vec!["a".to_string()]);
}

#[test]
fn notification_about_the_open_thread_reads_it_again() {
    let mut app = WebApp::new();
    dispatch(
        &mut app,
        WebEvent::SelectThread {
            thread_id: "open".to_string(),
        },
    );
    let result = dispatch(
        &mut app,
        WebEvent::WebSocketMessage {
            text: r#"{"method":"turn/completed","params":{"threadId":"open"}}"#.to_string(),
        },
    );
    assert_eq!(result.effects.len(), 1);
    let WebEffect::SendRpc { message } = &result.effects[0] else {
        panic!("expected SendRpc");
    };
    assert_eq!(text_at(message, &["method"]), Some("thread/read"));
    assert_eq!(text_at(message, &["params", "threadId"]), Some("open"));

    let other = dispatch(
        &mut app,
        WebEvent::WebSocketMessage {
            text: r#"{"method":"turn/completed","params":{"thread":{"id":"other"}}}"#.to_string(),
        },
    );
    assert!(other.effects.is_empty());
}

#[test]
fn thread_read_response_opens_the_thread_and_turn_start_reads_it() {
    let mut app = WebApp::new();
    dispatch(
        &mut app,
        WebEvent::SelectThread {
            thread_id: "t1".to_string(),
        },
    );
    let response = r#"{"id":1,"result":{"thread":{"id":"t1","name":"  ","preview":"\n  Plan it \nmore","turns":[{"items":[{"type":"userMessage","id":"u1","content":[{"type":"text","text":"hi"},{"type":"image"},{"type":"text","text":"there"}]},{"type":"agentMessage","id":"a1","text":"hello"}]},{"items":[{"type":"commandExecution","id":"c1","command":"ls","aggregatedOutput":"a b"},{"type":"reasoning","summary":["s1","s2"]},{"type":"other","n":1}]}]}}}"#;
    let result = dispatch(
        &mut app,
        WebEvent::WebSocketMessage {
            text: response.to_string(),
        },
    );
    let detail = result.snapshot.active_thread.expect("thread");
    assert_eq!(detail.summary.title, "Plan it");
    assert_eq!(detail.summary.status, "unknown");
    let texts: Vec<&str> = detail.items.iter().map(|i| i.text.as_str()).collect();
    assert_eq!(
        texts,
        vec!["hi\nthere", "hello", "ls\n\na b", "s1\ns2", r#"{"n":1,"type":"other"}"#]
    );
    assert_eq!(detail.items[3].id, "item-reasoning");

    let sent = dispatch(
        &mut app,
        WebEvent::SendTurn {
            thread_id: "t1".to_string(),
            text: "go".to_string(),
        },
    );
    let WebEffect::SendRpc { message } = &sent.effects[0] else {
        panic!("expected SendRpc");
    };
    let id = at(message, &["id"]).as_i64().expect("id");
    let done = dispatch(
        &mut app,
        WebEvent::WebSocketMessage {
            text: format!(r#"{{"id":{id},"result":{{}}}}"#),
        },
    );
    let WebEffect::SendRpc { message } = &done.effects[0] else {
        panic!("expected SendRpc");
    };
    assert_eq!(text_at(message, &["method"]), Some("thread/read"));
    assert_eq!(text_at(message, &["params", "threadId"]), Some("t1"));
}

#[test]
fn default_client_starts_request_ids_at_zero() {
    let mut app = WebApp::default();
    let result = dispatch(&mut app, WebEvent::RequestThreads);
    let WebEffect::SendRpc { message } = &result.effects[0] else {
        panic!("expected SendRpc");
    };
    assert_eq!(at(message, &["id"]).as_i64(), Some(0));
}

#[test]
fn error_messages_read_as_the_client_reports_them() {
    assert_eq!(
        WebClientError::InvalidWebSocketUrl.message(),
        "websocket URL must start with ws://, wss://, http://, or https://"
    );
    assert_eq!(
        WebClientError::InvalidAlleycatPayload("agent is empty".to_string()).message(),
        "invalid alleycat pair payload: agent is empty"
    );
    assert_eq!(
        WebClientError::InvalidMessage("x".to_string()).message(),
        "invalid websocket message JSON: x"
    );
}

#[test]
fn only_events_that_send_requests_take_an_id() {
    let mut app = WebApp::new();
    assert!(app.takes_request_id(&WebEvent::WebSocketOpened));
    assert!(app.takes_request_id(&WebEvent::RequestThreads));
    assert!(app.takes_request_id(&WebEvent::SelectThread { thread_id: "t".to_string() }));
    assert!(app.takes_request_id(&WebEvent::SendTurn {
        thread_id: "t".to_string(),
        text: "hi".to_string(),
    }));
    assert!(!app.takes_request_id(&WebEvent::SendTurn {
        thread_id: "t".to_string(),
        text: "  ".to_string(),
    }));
    assert!(!app.takes_request_id(&WebEvent::ClearError));
    assert!(!app.takes_request_id(&WebEvent::WebSocketClosed { reason: None }));
    assert!(!app.takes_request_id(&WebEvent::ConfigureServer { url: "ws://h".to_string() }));
    assert!(!app.takes_request_id(&WebEvent::WebSocketMessage { text: "{".to_string() }));
    assert!(app.can_dispatch(&WebEvent::ClearError));
    assert!(app.can_dispatch(&WebEvent::RequestThreads));

    dispatch(&mut app, WebEvent::SelectThread { thread_id: "open".to_string() });
    let about_open = WebEvent::WebSocketMessage {
        text: r#"{"method":"turn/completed","params":{"threadId":"open"}}"#.to_string(),
    };
    let about_other = WebEvent::WebSocketMessage {
        text: r#"{"method":"turn/completed","params":{"threadId":"other"}}"#.to_string(),
    };
    assert!(app.takes_request_id(&about_open));
    assert!(!app.takes_request_id(&about_other));
}

#[test]
fn answers_take_an_id_only_when_they_lead_to_a_request() {
    let mut app = WebApp::new();
    let opened = dispatch(&mut app, WebEvent::WebSocketOpened);
    let WebEffect::SendRpc { message } = &opened.effects[0] else {
        panic!("expected SendRpc");
    };
    let id = at(message, &["id"]).as_i64().expect("id");
    let answer = WebEvent::WebSocketMessage { text: initialize_response(id) };
    assert!(app.takes_request_id(&answer));
    let failed = WebEvent::WebSocketMessage {
        text: format!(r#"{{"id":{id},"error":{{"message":"no"}}}}"#),
    };
    assert!(!app.takes_request_id(&failed));
    let unknown = WebEvent::WebSocketMessage { text: r#"{"id":99,"result":{}}"#.to_string() };
    assert!(!app.takes_request_id(&unknown));
}

#[test]
fn a_repeated_answer_changes_nothing() {
    let mut app = WebApp::new();
    let opened = dispatch(&mut app, WebEvent::WebSocketOpened);
    let WebEffect::SendRpc { message } = &opened.effects[0] else {
        panic!("expected SendRpc");
    };
    let id = at(message, &["id"]).as_i64().expect("id");
    let first = dispatch(&mut app, WebEvent::WebSocketMessage { text: initialize_response(id) });
    let second = dispatch(&mut app, WebEvent::WebSocketMessage { text: initialize_response(id) });
    assert!(second.effects.is_empty());
    assert_eq!(second.snapshot, first.snapshot);
    let next = dispatch(&mut app, WebEvent::RequestThreads);
    let WebEffect::SendRpc { message } = &next.effects[0] else {
        panic!("expected SendRpc");
    };
    assert_eq!(at(message, &["id"]).as_i64(), Some(id + 2));
}
