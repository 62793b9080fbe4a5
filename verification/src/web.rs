//! The web client's state machine: events from the page and the connection
//! come in, the state moves on, and effects (open a socket, send a JSON-RPC
//! message, persist a configuration) go out for the page to carry out.
use vstd::prelude::*;

use std::collections::BTreeMap;

use crate::config::{
    alleycat_config_of, lemma_websocket_url_normal, normalize_alleycat_config,
    normalize_websocket_url, websocket_url_of,
};
use crate::json::{
    array_of, entry, entry_value, field, i64_of, int_number, json_parse, parse_json, string_field, JsonNumber,
    JsonValue, JsonView, NumberView,
};
use crate::model::{
    copy_opt, copy_summaries, opt_view, summaries_view, AlleycatConfig, AlleycatView,
    ConnectionSnapshot, ConnectionStatus, ConnectionView, ErrorView, ServerConfig,
    ThreadDetail, ThreadDetailView, ThreadSummary, ThreadSummaryView, WebClientError,
};
use crate::protocol::{
    detail_of, format_rpc_error, notification_thread_id, notification_thread_of, rpc_error_text,
    status_label, status_label_of, summary_of, thread_detail_from_value,
    thread_summary_from_value,
};
use crate::text::{blank, is_blank, owned, starts_with, text_eq};

verus! {

broadcast use {
    vstd::string::group_string_axioms,
    vstd::laws_cmp::group_laws_cmp,
    vstd::std_specs::btree::group_btree_axioms,
};

/// What the page or the connection tells the client.
#[derive(Debug, Clone, PartialEq)]
pub enum WebEvent {
    ConfigureServer { url: String },
    ConfigureAlleycat { pair_payload: String, agent: String },
    WebSocketOpened,
    WebSocketClosed { reason: Option<String> },
    WebSocketMessage { text: String },
    RequestThreads,
    SelectThread { thread_id: String },
    SendTurn { thread_id: String, text: String },
    ClearError,
}

/// What the client asks the page to do.
#[derive(Debug, Clone, PartialEq)]
#[allow(inconsistent_fields)]
pub enum WebEffect {
    OpenWebSocket { url: String },
    OpenAlleycat { config: AlleycatConfig },
    SendRpc { message: JsonValue },
    PersistConfig { config: ServerConfig },
    PersistAlleycatConfig { config: AlleycatConfig },
}

pub enum EffectView {
    OpenWebSocket(Seq<char>),
    OpenAlleycat(AlleycatView),
    SendRpc(JsonView),
    PersistConfig(Seq<char>),
    PersistAlleycatConfig(AlleycatView),
}

impl View for WebEffect {
    type V = EffectView;

    open spec fn view(&self) -> EffectView {
        match self {
            WebEffect::OpenWebSocket { url } => EffectView::OpenWebSocket(url@),
            WebEffect::OpenAlleycat { config } => EffectView::OpenAlleycat(config@),
            WebEffect::SendRpc { message } => EffectView::SendRpc(message@),
            WebEffect::PersistConfig { config } => EffectView::PersistConfig(
                config.websocket_url@,
            ),
            WebEffect::PersistAlleycatConfig { config } => EffectView::PersistAlleycatConfig(
                config@,
            ),
        }
    }
}

pub open spec fn effects_view(effects: Seq<WebEffect>) -> Seq<EffectView> {
    effects.map_values(|e: WebEffect| e@)
}

/// What the page shows.
#[derive(Debug, Clone, PartialEq, Eq)]
pub struct WebSnapshot {
    pub connection: ConnectionSnapshot,
    pub server_url: Option<String>,
    pub alleycat_agent: Option<String>,
    pub threads: Vec<ThreadSummary>,
    pub active_thread_id: Option<String>,
    pub active_thread: Option<ThreadDetail>,
    pub last_error: Option<String>,
}

pub struct SnapshotView {
    pub connection: ConnectionView,
    pub server_url: Option<Seq<char>>,
    pub alleycat_agent: Option<Seq<char>>,
    pub threads: Seq<ThreadSummaryView>,
    pub active_thread_id: Option<Seq<char>>,
    pub active_thread: Option<ThreadDetailView>,
    pub last_error: Option<Seq<char>>,
}

pub open spec fn detail_opt_view(d: Option<ThreadDetail>) -> Option<ThreadDetailView> {
    match d {
        Some(d) => Some(d@),
        None => None,
    }
}

impl View for WebSnapshot {
    type V = SnapshotView;

    open spec fn view(&self) -> SnapshotView {
        SnapshotView {
            connection: self.connection@,
            server_url: opt_view(self.server_url),
            alleycat_agent: opt_view(self.alleycat_agent),
            threads: summaries_view(self.threads@),
            active_thread_id: opt_view(self.active_thread_id),
            active_thread: detail_opt_view(self.active_thread),
            last_error: opt_view(self.last_error),
        }
    }
}

/// The state after an event, and the effects it asks for.
#[derive(Debug, Clone, PartialEq)]
pub struct WebDispatchResult {
    pub snapshot: WebSnapshot,
    pub effects: Vec<WebEffect>,
}

/// A JSON-RPC request sent and not yet answered.
#[derive(Debug, Clone, PartialEq, Eq)]
pub struct PendingRequest {
    pub method: String,
    pub thread_id: Option<String>,
}

pub struct PendingView {
    pub method: Seq<char>,
    pub thread_id: Option<Seq<char>>,
}

impl View for PendingRequest {
    type V = PendingView;

    open spec fn view(&self) -> PendingView {
        PendingView { method: self.method@, thread_id: opt_view(self.thread_id) }
    }
}

pub open spec fn pending_view(m: Map<i64, PendingRequest>) -> Map<i64, PendingView> {
    m.map_values(|p: PendingRequest| p@)
}

#[derive(Debug, Clone)]
struct WebModel {
    connection: ConnectionSnapshot,
    server: Option<ServerConfig>,
    alleycat: Option<AlleycatConfig>,
    threads: Vec<ThreadSummary>,
    active_thread_id: Option<String>,
    active_thread: Option<ThreadDetail>,
    last_error: Option<String>,
    next_request_id: i64,
    pending: BTreeMap<i64, PendingRequest>,
}

/// The web client.
#[derive(Debug, Clone)]
pub struct WebApp {
    model: WebModel,
}

/// The client's state, as the laws speak of it.
pub struct AppView {
    pub connection: ConnectionView,
    pub server: Option<Seq<char>>,
    pub alleycat: Option<AlleycatView>,
    pub threads: Seq<ThreadSummaryView>,
    pub active_thread_id: Option<Seq<char>>,
    pub active_thread: Option<ThreadDetailView>,
    pub last_error: Option<Seq<char>>,
    pub next_request_id: i64,
    pub pending: Map<i64, PendingView>,
}

impl View for WebApp {
    type V = AppView;

    closed spec fn view(&self) -> AppView {
        AppView {
            connection: self.model.connection@,
            server: match self.model.server {
                Some(c) => Some(c.websocket_url@),
                None => None,
            },
            alleycat: match self.model.alleycat {
                Some(c) => Some(c@),
                None => None,
            },
            threads: summaries_view(self.model.threads@),
            active_thread_id: opt_view(self.model.active_thread_id),
            active_thread: detail_opt_view(self.model.active_thread),
            last_error: opt_view(self.model.last_error),
            next_request_id: self.model.next_request_id,
            pending: pending_view(self.model.pending@),
        }
    }
}

// ---------------------------------------------------------------------------
// The documents the client sends.
/// The version the client reports in `initialize`.
pub open spec fn client_version() -> Seq<char> {
    "0.1.0"@
}

/// `{"id": id, "method": method, "params": params}`.
pub open spec fn rpc_request(id: i64, method: Seq<char>, params: JsonView) -> JsonView {
    JsonView::Object(
        seq![
            ("id"@, JsonView::Number(int_number(id))),
            ("method"@, JsonView::Str(method)),
            ("params"@, params),
        ],
    )
}

/// The parameters of `thread/list`.
pub open spec fn thread_list_params() -> JsonView {
    JsonView::Object(
        seq![
            ("limit"@, JsonView::Number(NumberView::PosInt(50))),
            ("sortKey"@, JsonView::Str("updated_at"@)),
            ("sortDirection"@, JsonView::Str("desc"@)),
            ("archived"@, JsonView::Bool(false)),
            ("useStateDbOnly"@, JsonView::Bool(false)),
        ],
    )
}

/// The parameters of `initialize`.
pub open spec fn initialize_params() -> JsonView {
    JsonView::Object(
        seq![
            ("clientInfo"@, JsonView::Object(
                seq![
                    ("name"@, JsonView::Str("Litter"@)),
                    ("title"@, JsonView::Str("Litter Web"@)),
                    ("version"@, JsonView::Str(client_version())),
                ],
            )),
            ("capabilities"@, JsonView::Object(seq![("experimentalApi"@, JsonView::Bool(true))])),
        ],
    )
}

/// The `initialized` notification.
pub open spec fn initialized_notification() -> JsonView {
    JsonView::Object(seq![("method"@, JsonView::Str("initialized"@))])
}

/// The parameters of `thread/read` for a thread, with its turns.
pub open spec fn thread_read_params(thread_id: Seq<char>) -> JsonView {
    JsonView::Object(
        seq![("threadId"@, JsonView::Str(thread_id)), ("includeTurns"@, JsonView::Bool(true))],
    )
}

/// The parameters of `turn/start` with one text input.
pub open spec fn turn_start_params(thread_id: Seq<char>, text: Seq<char>) -> JsonView {
    JsonView::Object(
        seq![
            ("threadId"@, JsonView::Str(thread_id)),
            ("input"@, JsonView::Array(
                seq![
                    JsonView::Object(
                        seq![
                            ("type"@, JsonView::Str("text"@)),
                            ("text"@, JsonView::Str(text)),
                            ("textElements"@, JsonView::Array(Seq::empty())),
                        ],
                    ),
                ],
            )),
        ],
    )
}

// ---------------------------------------------------------------------------
// The state machine.
/// The state of a client that has just been made.
pub open spec fn initial_state() -> AppView {
    AppView {
        connection: ConnectionView { status: ConnectionStatus::Disconnected, message: None },
        server: None,
        alleycat: None,
        threads: Seq::empty(),
        active_thread_id: None,
        active_thread: None,
        last_error: None,
        next_request_id: 1,
        pending: Map::empty(),
    }
}

/// What the page shows of a state.
pub open spec fn snapshot_of(s: AppView) -> SnapshotView {
    SnapshotView {
        connection: s.connection,
        server_url: s.server,
        alleycat_agent: match s.alleycat {
            Some(c) => Some(c.agent),
            None => None,
        },
        threads: s.threads,
        active_thread_id: s.active_thread_id,
        active_thread: s.active_thread,
        last_error: s.last_error,
    }
}

/// A request sent: it takes the next id, which is remembered with the
/// method and thread until the answer comes.
pub open spec fn request(
    s: AppView,
    method: Seq<char>,
    thread_id: Option<Seq<char>>,
    params: JsonView,
) -> (AppView, EffectView) {
    (
        AppView {
            next_request_id: (s.next_request_id + 1) as i64,
            pending: s.pending.insert(
                s.next_request_id,
                PendingView { method, thread_id },
            ),
            ..s
        },
        EffectView::SendRpc(rpc_request(s.next_request_id, method, params)),
    )
}

/// A request sent as the only effect.
pub open spec fn request_only(
    s: AppView,
    method: Seq<char>,
    thread_id: Option<Seq<char>>,
    params: JsonView,
) -> (AppView, Seq<EffectView>) {
    let (s1, e) = request(s, method, thread_id, params);
    (s1, seq![e])
}

/// Everything learnt over the previous connection forgotten.
pub open spec fn reset(s: AppView) -> AppView {
    AppView {
        threads: Seq::empty(),
        active_thread_id: None,
        active_thread: None,
        pending: Map::empty(),
        ..s
    }
}

/// The index of the first thread with the given id.
pub open spec fn thread_index(threads: Seq<ThreadSummaryView>, id: Seq<char>) -> Option<int>
    decreases threads.len(),
{
    if threads.len() == 0 {
        None
    } else if threads[0].id == id {
        Some(0)
    } else {
        match thread_index(threads.drop_first(), id) {
            Some(i) => Some(i + 1),
            None => None,
        }
    }
}

/// A summary put in place of the first thread with its id, or in front.
pub open spec fn upsert(threads: Seq<ThreadSummaryView>, summary: ThreadSummaryView) -> Seq<
    ThreadSummaryView,
> {
    match thread_index(threads, summary.id) {
        Some(i) => threads.update(i, summary),
        None => seq![summary] + threads,
    }
}

/// The status of a thread, in the list and in the open thread, changed.
pub open spec fn with_status(s: AppView, thread_id: Seq<char>, status: Seq<char>) -> AppView {
    AppView {
        threads: match thread_index(s.threads, thread_id) {
            Some(i) => s.threads.update(i, ThreadSummaryView { status, ..s.threads[i] }),
            None => s.threads,
        },
        active_thread: match s.active_thread {
            Some(d) => if d.summary.id == thread_id {
                Some(ThreadDetailView { summary: ThreadSummaryView { status, ..d.summary }, ..d })
            } else {
                Some(d)
            },
            None => None,
        },
        ..s
    }
}

/// The title of a thread, in the list and in the open thread, changed.
pub open spec fn with_title(s: AppView, thread_id: Seq<char>, title: Seq<char>) -> AppView {
    AppView {
        threads: match thread_index(s.threads, thread_id) {
            Some(i) => s.threads.update(i, ThreadSummaryView { title, ..s.threads[i] }),
            None => s.threads,
        },
        active_thread: match s.active_thread {
            Some(d) => if d.summary.id == thread_id {
                Some(ThreadDetailView { summary: ThreadSummaryView { title, ..d.summary }, ..d })
            } else {
                Some(d)
            },
            None => None,
        },
        ..s
    }
}

/// The threads without the given one.
pub open spec fn without_thread(threads: Seq<ThreadSummaryView>, thread_id: Seq<char>) -> Seq<
    ThreadSummaryView,
> {
    threads.filter(|t: ThreadSummaryView| t.id != thread_id)
}

/// The state after the answer to a request, with what the request was.
pub open spec fn on_result(s: AppView, p: PendingView, result: JsonView) -> (
    AppView,
    Seq<EffectView>,
) {
    if p.method == "initialize"@ {
        let s1 = AppView {
            connection: ConnectionView {
                status: ConnectionStatus::Connected,
                message: Some("Connected"@),
            },
            ..s
        };
        let (s2, e) = request(s1, "thread/list"@, None, thread_list_params());
        (s2, seq![EffectView::SendRpc(initialized_notification()), e])
    } else if p.method == "thread/list"@ {
        let threads = match field(result, "data"@) {
            Some(d) => match array_of(d) {
                Some(items) => items.map_values(|t: JsonView| summary_of(t)),
                None => Seq::empty(),
            },
            None => Seq::empty(),
        };
        (AppView { threads, ..s }, Seq::empty())
    } else if p.method == "thread/read"@ {
        match field(result, "thread"@) {
            Some(t) => (AppView { active_thread: Some(detail_of(t)), ..s }, Seq::empty()),
            None => (s, Seq::empty()),
        }
    } else if p.method == "turn/start"@ {
        match p.thread_id {
            Some(t) => request_only(s, "thread/read"@, Some(t), thread_read_params(t)),
            None => (s, Seq::empty()),
        }
    } else {
        (s, Seq::empty())
    }
}

/// The state after a response: its request is no longer pending; an error is
/// shown; a result is taken in.
pub open spec fn on_response(s: AppView, m: JsonView) -> (AppView, Seq<EffectView>) {
    match field(m, "id"@) {
        Some(i) => match i64_of(i) {
            Some(id) => {
                let s1 = AppView { pending: s.pending.remove(id), ..s };
                match field(m, "error"@) {
                    Some(err) => (
                        AppView { last_error: Some(rpc_error_text(err)), ..s1 },
                        Seq::empty(),
                    ),
                    None => if s.pending.contains_key(id) {
                        let result = match field(m, "result"@) {
                            Some(r) => r,
                            None => JsonView::Null,
                        };
                        on_result(s1, s.pending[id], result)
                    } else {
                        (s1, Seq::empty())
                    },
                }
            },
            None => (s, Seq::empty()),
        },
        None => (s, Seq::empty()),
    }
}

/// The thread list after a notification.
pub open spec fn after_notification(s: AppView, method: Seq<char>, params: JsonView) -> AppView {
    if method == "thread/started"@ {
        match field(params, "thread"@) {
            Some(t) => AppView { threads: upsert(s.threads, summary_of(t)), ..s },
            None => s,
        }
    } else if method == "thread/statusChanged"@ {
        match (string_field(params, "threadId"@), field(params, "status"@)) {
            (Some(t), Some(st)) => with_status(s, t, status_label_of(st)),
            _ => s,
        }
    } else if method == "thread/nameUpdated"@ {
        match string_field(params, "threadId"@) {
            Some(t) => match string_field(params, "threadName"@) {
                Some(name) => with_title(s, t, name),
                None => s,
            },
            None => s,
        }
    } else if method == "thread/archived"@ {
        match string_field(params, "threadId"@) {
            Some(t) => AppView { threads: without_thread(s.threads, t), ..s },
            None => s,
        }
    } else {
        s
    }
}

/// The state after a notification; the open thread is read again when the
/// notification speaks of it.
pub open spec fn on_notification(s: AppView, method: Seq<char>, params: JsonView) -> (
    AppView,
    Seq<EffectView>,
) {
    let s1 = after_notification(s, method, params);
    match notification_thread_of(params) {
        Some(t) => if s1.active_thread_id == Some(t) {
            request_only(s1, "thread/read"@, Some(t), thread_read_params(t))
        } else {
            (s1, Seq::empty())
        },
        None => (s1, Seq::empty()),
    }
}

/// The state after a message from the app server: a response when it has an
/// `id`, a notification when it has a `method`, nothing otherwise.
pub open spec fn on_message(s: AppView, m: JsonView) -> (AppView, Seq<EffectView>) {
    if field(m, "id"@) is Some {
        on_response(s, m)
    } else {
        match string_field(m, "method"@) {
            Some(method) => on_notification(
                s,
                method,
                match field(m, "params"@) {
                    Some(p) => p,
                    None => JsonView::Null,
                },
            ),
            None => (s, Seq::empty()),
        }
    }
}

/// The connection state while connecting, with a message.
pub open spec fn connecting(message: Seq<char>) -> ConnectionView {
    ConnectionView { status: ConnectionStatus::Connecting, message: Some(message) }
}

/// The state after an event and the effects it asks for, or why the event
/// is refused.
pub open spec fn step(s: AppView, event: WebEvent) -> Result<(AppView, Seq<EffectView>), ErrorView> {
    match event {
        WebEvent::ConfigureServer { url } => match websocket_url_of(url@) {
            Some(u) => Ok(
                (
                    AppView {
                        connection: connecting("Connecting"@),
                        server: Some(u),
                        alleycat: None,
                        last_error: None,
                        ..reset(s)
                    },
                    seq![EffectView::PersistConfig(u), EffectView::OpenWebSocket(u)],
                ),
            ),
            None => Err(ErrorView::InvalidWebSocketUrl),
        },
        WebEvent::ConfigureAlleycat { pair_payload, agent } => match alleycat_config_of(
            pair_payload@,
            agent@,
        ) {
            Ok(c) => Ok(
                (
                    AppView {
                        connection: connecting("Connecting"@),
                        server: None,
                        alleycat: Some(c),
                        last_error: None,
                        ..reset(s)
                    },
                    seq![EffectView::PersistAlleycatConfig(c), EffectView::OpenAlleycat(c)],
                ),
            ),
            Err(m) => Err(ErrorView::InvalidAlleycatPayload(m)),
        },
        WebEvent::WebSocketOpened => Ok(
            request_only(
                AppView { connection: connecting("Initializing"@), ..s },
                "initialize"@,
                None,
                initialize_params(),
            ),
        ),
        WebEvent::WebSocketClosed { reason } => Ok(
            (
                AppView {
                    connection: ConnectionView {
                        status: ConnectionStatus::Disconnected,
                        message: opt_view(reason),
                    },
                    ..s
                },
                Seq::empty(),
            ),
        ),
        WebEvent::WebSocketMessage { text } => match json_parse(text@) {
            Ok(m) => Ok(on_message(s, m)),
            Err(e) => Err(ErrorView::InvalidMessage(e)),
        },
        WebEvent::RequestThreads => Ok(request_only(s, "thread/list"@, None, thread_list_params())),
        WebEvent::SelectThread { thread_id } => Ok(
            request_only(
                AppView { active_thread_id: Some(thread_id@), ..s },
                "thread/read"@,
                Some(thread_id@),
                thread_read_params(thread_id@),
            ),
        ),
        WebEvent::SendTurn { thread_id, text } => if is_blank(text@) {
            Ok((AppView { last_error: Some("Message is empty"@), ..s }, Seq::empty()))
        } else {
            Ok(
                request_only(
                    s,
                    "turn/start"@,
                    Some(thread_id@),
                    turn_start_params(thread_id@, text@),
                ),
            )
        },
        WebEvent::ClearError => Ok((AppView { last_error: None, ..s }, Seq::empty())),
    }
}

/// The answer to this request makes the client send another one.
pub open spec fn result_takes_id(p: PendingView) -> bool {
    p.method == "initialize"@ || (p.method == "turn/start"@ && p.thread_id is Some)
}

/// The message makes the client send a request: the answer to a pending
/// `initialize`, or to a pending `turn/start` made for a thread, or a
/// notification about the open thread.
pub open spec fn message_takes_id(s: AppView, m: JsonView) -> bool {
    if field(m, "id"@) is Some {
        match i64_of(field(m, "id"@)->0) {
            Some(id) => field(m, "error"@) is None && s.pending.contains_key(id) && result_takes_id(
                s.pending[id],
            ),
            None => false,
        }
    } else {
        match string_field(m, "method"@) {
            Some(_) => match notification_thread_of(
                match field(m, "params"@) {
                    Some(p) => p,
                    None => JsonView::Null,
                },
            ) {
                Some(t) => s.active_thread_id == Some(t),
                None => false,
            },
            None => false,
        }
    }
}

/// The event makes the client send a request, and so take a request id.
pub open spec fn event_takes_id(s: AppView, event: WebEvent) -> bool {
    match event {
        WebEvent::WebSocketOpened => true,
        WebEvent::RequestThreads => true,
        WebEvent::SelectThread { .. } => true,
        WebEvent::SendTurn { text, .. } => !is_blank(text@),
        WebEvent::WebSocketMessage { text } => match json_parse(text@) {
            Ok(m) => message_takes_id(s, m),
            Err(_) => false,
        },
        _ => false,
    }
}

// ---------------------------------------------------------------------------
// The client.
proof fn lemma_thread_index_found(ts: Seq<ThreadSummaryView>, id: Seq<char>, i: int)
    requires
        0 <= i < ts.len(),
        ts[i].id == id,
        forall|j: int| 0 <= j < i ==> ts[j].id != id,
    ensures
        thread_index(ts, id) == Some(i),
    decreases i,
{
    if i > 0 {
        lemma_thread_index_found(ts.drop_first(), id, i - 1);
    }
}

proof fn lemma_thread_index_absent(ts: Seq<ThreadSummaryView>, id: Seq<char>)
    requires
        forall|j: int| 0 <= j < ts.len() ==> ts[j].id != id,
    ensures
        thread_index(ts, id) is None,
    decreases ts.len(),
{
    if ts.len() > 0 {
        lemma_thread_index_absent(ts.drop_first(), id);
    }
}

/// A request message with its id, method and parameters.
fn rpc_message(id: i64, method: &str, params: JsonValue) -> (r: JsonValue)
    ensures
        r@ == rpc_request(id, method@, params@),
{
    let ghost pv = params@;
    let r = JsonValue::Object(
        vec![
            entry("id", JsonValue::integer(id)),
            entry("method", JsonValue::string(method)),
            entry("params", params),
        ],
    );
    assert(r@->Object_0 =~= rpc_request(id, method@, pv)->Object_0);
    r
}

fn thread_list_params_value() -> (r: JsonValue)
    ensures
        r@ == thread_list_params(),
{
    let r = JsonValue::Object(
        vec![
            entry("limit", JsonValue::unsigned(50)),
            entry("sortKey", JsonValue::string("updated_at")),
            entry("sortDirection", JsonValue::string("desc")),
            entry("archived", JsonValue::boolean(false)),
            entry("useStateDbOnly", JsonValue::boolean(false)),
        ],
    );
    assert(r@->Object_0 =~= thread_list_params()->Object_0);
    r
}

fn initialize_params_value() -> (r: JsonValue)
    ensures
        r@ == initialize_params(),
{
    let info = JsonValue::Object(
        vec![
            entry("name", JsonValue::string("Litter")),
            entry("title", JsonValue::string("Litter Web")),
            entry("version", JsonValue::string("0.1.0")),
        ],
    );
    let ghost iv = info@;
    assert(iv->Object_0 =~= initialize_params()->Object_0[0].1->Object_0);
    let capabilities = JsonValue::Object(vec![entry("experimentalApi", JsonValue::boolean(true))]);
    let ghost cv = capabilities@;
    assert(cv->Object_0 =~= initialize_params()->Object_0[1].1->Object_0);
    let r = JsonValue::Object(vec![entry("clientInfo", info), entry("capabilities", capabilities)]);
    assert(r@->Object_0 =~= initialize_params()->Object_0);
    r
}

fn thread_read_params_value(thread_id: &str) -> (r: JsonValue)
    ensures
        r@ == thread_read_params(thread_id@),
{
    let r = JsonValue::Object(
        vec![entry("threadId", JsonValue::string(thread_id)), entry("includeTurns", JsonValue::boolean(true))],
    );
    assert(r@->Object_0 =~= thread_read_params(thread_id@)->Object_0);
    r
}

fn turn_start_params_value(thread_id: &str, text: String) -> (r: JsonValue)
    ensures
        r@ == turn_start_params(thread_id@, text@),
{
    let ghost tv = text@;
    let elements = JsonValue::Array(Vec::new());
    assert(elements@->Array_0 =~= Seq::<JsonView>::empty());
    assert(elements@ == JsonView::Array(Seq::empty()));
    let input = JsonValue::Object(
        vec![
            entry("type", JsonValue::string("text")),
            entry("text", JsonValue::owned_string(text)),
            entry("textElements", elements),
        ],
    );
    let ghost inv = input@;
    assert(inv->Object_0 =~= turn_start_params(thread_id@, tv)->Object_0[1].1->Array_0[0]->Object_0);
    let inputs = JsonValue::Array(vec![input]);
    assert(inputs@->Array_0 =~= turn_start_params(thread_id@, tv)->Object_0[1].1->Array_0);
    let r = JsonValue::Object(vec![entry("threadId", JsonValue::string(thread_id)), entry("input", inputs)]);
    assert(r@->Object_0 =~= turn_start_params(thread_id@, tv)->Object_0);
    r
}

fn initialized_effect() -> (r: WebEffect)
    ensures
        r@ == EffectView::SendRpc(initialized_notification()),
{
    let message = JsonValue::Object(vec![entry("method", JsonValue::string("initialized"))]);
    assert(message@->Object_0 =~= initialized_notification()->Object_0);
    WebEffect::SendRpc { message }
}

fn same_text(a: &Option<String>, b: &str) -> (r: bool)
    ensures
        r == (opt_view(*a) == Some(b@)),
{
    match a {
        Some(x) => text_eq(x.as_str(), b),
        None => false,
    }
}

/// The state of a client made with `Default`: as a new one, but with its
/// request ids starting at zero.
pub open spec fn default_state() -> AppView {
    AppView { next_request_id: 0, ..initial_state() }
}

impl Default for WebApp {
    fn default() -> (r: Self)
        ensures
            r@ == default_state(),
    {
        let r = WebApp {
            model: WebModel {
                connection: ConnectionSnapshot::default(),
                server: None,
                alleycat: None,
                threads: Vec::new(),
                active_thread_id: None,
                active_thread: None,
                last_error: None,
                next_request_id: 0,
                pending: BTreeMap::new(),
            },
        };
        assert(r@.threads =~= Seq::<ThreadSummaryView>::empty());
        assert(r@.pending =~= Map::<i64, PendingView>::empty());
        r
    }
}

impl WebApp {
    /// A client that has not connected yet.
    pub fn new() -> (r: Self)
        ensures
            r@ == initial_state(),
    {
        let r = WebApp {
            model: WebModel {
                connection: ConnectionSnapshot::default(),
                server: None,
                alleycat: None,
                threads: Vec::new(),
                active_thread_id: None,
                active_thread: None,
                last_error: None,
                next_request_id: 1,
                pending: BTreeMap::new(),
            },
        };
        assert(r@.threads =~= Seq::<ThreadSummaryView>::empty());
        assert(r@.pending =~= Map::<i64, PendingView>::empty());
        r
    }

    /// Asks the app server to initialize the connection.
    fn initialize_effect(&mut self) -> (e: WebEffect)
        requires
            old(self)@.next_request_id < i64::MAX,
        ensures
            (final(self)@, e@) == request(old(self)@, "initialize"@, None, initialize_params()),
    {
        self.rpc_effect("initialize", None, initialize_params_value())
    }

    /// Starts a turn on a thread with one text input.
    fn turn_start_effect(&mut self, thread_id: &str, text: String) -> (e: WebEffect)
        requires
            old(self)@.next_request_id < i64::MAX,
        ensures
            (final(self)@, e@) == request(
                old(self)@,
                "turn/start"@,
                Some(thread_id@),
                turn_start_params(thread_id@, text@),
            ),
    {
        let params = turn_start_params_value(thread_id, text);
        self.rpc_effect("turn/start", Some(owned(thread_id)), params)
    }

    /// Whether the event makes the client send a request.
    pub fn takes_request_id(&self, event: &WebEvent) -> (r: bool)
        ensures
            r == event_takes_id(self@, *event),
    {
        match event {
            WebEvent::WebSocketOpened => true,
            WebEvent::RequestThreads => true,
            WebEvent::SelectThread { .. } => true,
            WebEvent::SendTurn { text, .. } => !blank(text.as_str()),
            WebEvent::WebSocketMessage { text } => match parse_json(text.as_str()) {
                Ok(m) => self.message_takes_request_id(&m),
                Err(_) => false,
            },
            _ => false,
        }
    }

    /// Whether the message makes the client send a request.
    pub fn message_takes_request_id(&self, message: &JsonValue) -> (r: bool)
        ensures
            r == message_takes_id(self@, message@),
    {
        match message.get("id") {
            Some(i) => match i.as_i64() {
                Some(id) => {
                    if message.get("error").is_some() {
                        return false;
                    }
                    match self.model.pending.get(&id) {
                        Some(p) => text_eq(p.method.as_str(), "initialize") || (text_eq(
                            p.method.as_str(),
                            "turn/start",
                        ) && p.thread_id.is_some()),
                        None => false,
                    }
                },
                None => false,
            },
            None => match message.string_field("method") {
                Some(_) => {
                    let null = JsonValue::Null;
                    let params: &JsonValue = match message.get("params") {
                        Some(p) => p,
                        None => &null,
                    };
                    match notification_thread_id(params) {
                        Some(t) => same_text(&self.model.active_thread_id, t.as_str()),
                        None => false,
                    }
                },
                None => false,
            },
        }
    }

    /// Whether the client can take the event: a request id is free for it
    /// when it sends a request.
    pub fn can_dispatch(&self, event: &WebEvent) -> (r: bool)
        ensures
            r == (event_takes_id(self@, *event) ==> self@.next_request_id < i64::MAX),
    {
        self.model.next_request_id < i64::MAX || !self.takes_request_id(event)
    }

    /// What the page shows.
    pub fn snapshot(&self) -> (r: WebSnapshot)
        ensures
            r@ == snapshot_of(self@),
    {
        WebSnapshot {
            connection: self.model.connection.clone(),
            server_url: match &self.model.server {
                Some(c) => Some(c.websocket_url.clone()),
                None => None,
            },
            alleycat_agent: match &self.model.alleycat {
                Some(c) => Some(c.agent.clone()),
                None => None,
            },
            threads: copy_summaries(&self.model.threads),
            active_thread_id: copy_opt(&self.model.active_thread_id),
            active_thread: match &self.model.active_thread {
                Some(d) => Some(d.clone()),
                None => None,
            },
            last_error: copy_opt(&self.model.last_error),
        }
    }

    /// Sends a request: it takes the next id and is remembered until its
    /// answer comes.
    fn rpc_effect(&mut self, method: &str, thread_id: Option<String>, params: JsonValue) -> (e:
        WebEffect)
        requires
            old(self)@.next_request_id < i64::MAX,
        ensures
            (final(self)@, e@) == request(old(self)@, method@, opt_view(thread_id), params@),
    {
        let ghost s0 = self@;
        let id = self.model.next_request_id;
        self.model.next_request_id = id + 1;
        let ghost old_pending = self.model.pending@;
        self.model.pending.insert(id, PendingRequest { method: owned(method), thread_id });
        assert(self@.pending =~= s0.pending.insert(
            id,
            PendingView { method: method@, thread_id: opt_view(thread_id) },
        ));
        let message = rpc_message(id, method, params);
        WebEffect::SendRpc { message }
    }

    fn reset_connection_state(&mut self)
        ensures
            final(self)@ == reset(old(self)@),
    {
        self.model.threads = Vec::new();
        self.model.active_thread_id = None;
        self.model.active_thread = None;
        self.model.pending = BTreeMap::new();
        assert(self@.threads =~= Seq::<ThreadSummaryView>::empty());
        assert(self@.pending =~= Map::<i64, PendingView>::empty());
    }

    fn find_thread(&self, id: &str) -> (r: Option<usize>)
        ensures
            match r {
                Some(i) => i < self.model.threads@.len() && thread_index(self@.threads, id@)
                    == Some(i as int),
                None => thread_index(self@.threads, id@) is None,
            },
    {
        let mut i: usize = 0;
        while i < self.model.threads.len()
            invariant
                i <= self.model.threads@.len(),
                forall|j: int| 0 <= j < i ==> self@.threads[j].id != id@,
            decreases self.model.threads@.len() - i,
        {
            if text_eq(self.model.threads[i].id.as_str(), id) {
                proof {
                    lemma_thread_index_found(self@.threads, id@, i as int);
                }
                return Some(i);
            }
            i = i + 1;
        }
        proof {
            lemma_thread_index_absent(self@.threads, id@);
        }
        None
    }

    fn upsert_thread(&mut self, summary: ThreadSummary)
        ensures
            final(self)@ == (AppView { threads: upsert(old(self)@.threads, summary@), ..old(self)@ }),
    {
        let ghost s0 = self@;
        match self.find_thread(summary.id.as_str()) {
            Some(i) => {
                self.model.threads.set(i, summary);
                assert(self@.threads =~= s0.threads.update(i as int, summary@));
            },
            None => {
                self.model.threads.insert(0, summary);
                assert(self@.threads =~= seq![summary@] + s0.threads);
            },
        }
    }

    fn update_thread_status(&mut self, thread_id: &str, status: String)
        ensures
            final(self)@ == with_status(old(self)@, thread_id@, status@),
    {
        let ghost s0 = self@;
        match self.find_thread(thread_id) {
            Some(i) => {
                let mut t = self.model.threads[i].clone();
                t.status = status.clone();
                self.model.threads.set(i, t);
                assert(self@.threads =~= s0.threads.update(
                    i as int,
                    ThreadSummaryView { status: status@, ..s0.threads[i as int] },
                ));
            },
            None => {},
        }
        let ghost s1 = self@;
        match self.model.active_thread.take() {
            Some(mut active) => {
                if text_eq(active.summary.id.as_str(), thread_id) {
                    active.summary.status = status;
                }
                self.model.active_thread = Some(active);
            },
            None => {},
        }
    }

    fn update_thread_title(&mut self, thread_id: &str, title: String)
        ensures
            final(self)@ == with_title(old(self)@, thread_id@, title@),
    {
        let ghost s0 = self@;
        match self.find_thread(thread_id) {
            Some(i) => {
                let mut t = self.model.threads[i].clone();
                t.title = title.clone();
                self.model.threads.set(i, t);
                assert(self@.threads =~= s0.threads.update(
                    i as int,
                    ThreadSummaryView { title: title@, ..s0.threads[i as int] },
                ));
            },
            None => {},
        }
        match self.model.active_thread.take() {
            Some(mut active) => {
                if text_eq(active.summary.id.as_str(), thread_id) {
                    active.summary.title = title;
                }
                self.model.active_thread = Some(active);
            },
            None => {},
        }
    }

    fn remove_thread(&mut self, thread_id: &str)
        ensures
            final(self)@ == (AppView {
                threads: without_thread(old(self)@.threads, thread_id@),
                ..old(self)@
            }),
    {
        let ghost s0 = self@;
        let ghost pred = |t: ThreadSummaryView| t.id != thread_id@;
        let mut kept: Vec<ThreadSummary> = Vec::new();
        let mut i: usize = 0;
        while i < self.model.threads.len()
            invariant
                self@ == s0,
                i <= self.model.threads@.len(),
                pred == (|t: ThreadSummaryView| t.id != thread_id@),
                summaries_view(kept@) == s0.threads.take(i as int).filter(pred),
            decreases self.model.threads@.len() - i,
        {
            proof {
                reveal(Seq::filter);
                assert(s0.threads.take(i + 1).drop_last() =~= s0.threads.take(i as int));
                assert(s0.threads.take(i + 1).last() == s0.threads[i as int]);
            }
            if !text_eq(self.model.threads[i].id.as_str(), thread_id) {
                let ghost before = kept@;
                kept.push(self.model.threads[i].clone());
                assert(summaries_view(kept@) =~= summaries_view(before).push(s0.threads[i as int]));
            }
            i = i + 1;
        }
        assert(s0.threads.take(s0.threads.len() as int) =~= s0.threads);
        self.model.threads = kept;
    }

    fn thread_list_effect(&mut self) -> (e: WebEffect)
        requires
            old(self)@.next_request_id < i64::MAX,
        ensures
            (final(self)@, e@) == request(old(self)@, "thread/list"@, None, thread_list_params()),
    {
        self.rpc_effect("thread/list", None, thread_list_params_value())
    }

    fn thread_read_effect(&mut self, thread_id: &str) -> (e: WebEffect)
        requires
            old(self)@.next_request_id < i64::MAX,
        ensures
            (final(self)@, e@) == request(
                old(self)@,
                "thread/read"@,
                Some(thread_id@),
                thread_read_params(thread_id@),
            ),
    {
        self.rpc_effect("thread/read", Some(owned(thread_id)), thread_read_params_value(thread_id))
    }

    fn handle_result(&mut self, pending: PendingRequest, result: &JsonValue) -> (effects: Vec<
        WebEffect,
    >)
        requires
            result_takes_id(pending@) ==> old(self)@.next_request_id < i64::MAX,
        ensures
            (final(self)@, effects_view(effects@)) == on_result(old(self)@, pending@, result@),
    {
        let ghost s0 = self@;
        let mut effects: Vec<WebEffect> = Vec::new();
        if text_eq(pending.method.as_str(), "initialize") {
            self.model.connection = ConnectionSnapshot {
                status: ConnectionStatus::Connected,
                message: Some(owned("Connected")),
            };
            effects.push(initialized_effect());
            let e = self.thread_list_effect();
            effects.push(e);
            assert(effects_view(effects@) =~= on_result(s0, pending@, result@).1);
        } else if text_eq(pending.method.as_str(), "thread/list") {
            let mut threads: Vec<ThreadSummary> = Vec::new();
            match result.get("data") {
                Some(d) => match d.as_array() {
                    Some(items) => {
                        let ghost views = items@.map_values(|x: JsonValue| x@);
                        let mut k: usize = 0;
                        while k < items.len()
                            invariant
                                k <= items@.len(),
                                views == items@.map_values(|x: JsonValue| x@),
                                summaries_view(threads@) == views.take(k as int).map_values(
                                    |t: JsonView| summary_of(t),
                                ),
                            decreases items@.len() - k,
                        {
                            let t = thread_summary_from_value(&items[k]);
                            let ghost before = threads@;
                            threads.push(t);
                            assert(summaries_view(threads@) =~= summaries_view(before).push(t@));
                            assert(views.take(k + 1).map_values(|t: JsonView| summary_of(t))
                                =~= views.take(k as int).map_values(|t: JsonView| summary_of(t)).push(
                                summary_of(views[k as int]),
                            ));
                            k = k + 1;
                        }
                        assert(views.take(items@.len() as int) =~= views);
                    },
                    None => {},
                },
                None => {},
            }
            assert(summaries_view(threads@) =~= on_result(s0, pending@, result@).0.threads);
            self.model.threads = threads;
            assert(effects_view(effects@) =~= Seq::<EffectView>::empty());
        } else if text_eq(pending.method.as_str(), "thread/read") {
            match result.get("thread") {
                Some(t) => {
                    self.model.active_thread = Some(thread_detail_from_value(t));
                },
                None => {},
            }
            assert(effects_view(effects@) =~= Seq::<EffectView>::empty());
        } else if text_eq(pending.method.as_str(), "turn/start") {
            match pending.thread_id {
                Some(t) => {
                    let e = self.thread_read_effect(t.as_str());
                    effects.push(e);
                    assert(effects_view(effects@) =~= seq![e@]);
                },
                None => {
                    assert(effects_view(effects@) =~= Seq::<EffectView>::empty());
                },
            }
        } else {
            assert(effects_view(effects@) =~= Seq::<EffectView>::empty());
        }
        effects
    }

    fn handle_rpc_response(&mut self, message: &JsonValue) -> (effects: Vec<WebEffect>)
        requires
            field(message@, "id"@) is Some,
            message_takes_id(old(self)@, message@) ==> old(self)@.next_request_id < i64::MAX,
        ensures
            (final(self)@, effects_view(effects@)) == on_response(old(self)@, message@),
    {
        let ghost s0 = self@;
        let mut none: Vec<WebEffect> = Vec::new();
        assert(effects_view(none@) =~= Seq::<EffectView>::empty());
        let id = match message.get("id") {
            Some(i) => match i.as_i64() {
                Some(id) => id,
                None => {
                    return none;
                },
            },
            None => {
                return none;
            },
        };
        let pending = self.model.pending.remove(&id);
        assert(self@.pending =~= s0.pending.remove(id));
        match message.get("error") {
            Some(error) => {
                self.model.last_error = Some(format_rpc_error(error));
                return none;
            },
            None => {},
        }
        match pending {
            Some(p) => {
                let null = JsonValue::Null;
                let result: &JsonValue = match message.get("result") {
                    Some(r) => r,
                    None => &null,
                };
                self.handle_result(p, result)
            },
            None => none,
        }
    }

    fn handle_notification(&mut self, method: &str, params: &JsonValue) -> (effects: Vec<
        WebEffect,
    >)
        requires
            (notification_thread_of(params@) matches Some(t) && old(self)@.active_thread_id == Some(
                t,
            )) ==> old(self)@.next_request_id < i64::MAX,
        ensures
            (final(self)@, effects_view(effects@)) == on_notification(old(self)@, method@, params@),
    {
        let ghost s0 = self@;
        if text_eq(method, "thread/started") {
            match params.get("thread") {
                Some(thread) => {
                    self.upsert_thread(thread_summary_from_value(thread));
                },
                None => {},
            }
        } else if text_eq(method, "thread/statusChanged") {
            match (params.string_field("threadId"), params.get("status")) {
                (Some(thread_id), Some(status)) => {
                    self.update_thread_status(thread_id.as_str(), status_label(status));
                },
                _ => {},
            }
        } else if text_eq(method, "thread/nameUpdated") {
            match params.string_field("threadId") {
                Some(thread_id) => match params.string_field("threadName") {
                    Some(name) => {
                        self.update_thread_title(thread_id.as_str(), name);
                    },
                    None => {},
                },
                None => {},
            }
        } else if text_eq(method, "thread/archived") {
            match params.string_field("threadId") {
                Some(thread_id) => {
                    self.remove_thread(thread_id.as_str());
                },
                None => {},
            }
        }
        assert(self@ == after_notification(s0, method@, params@));
        let mut effects: Vec<WebEffect> = Vec::new();
        match notification_thread_id(params) {
            Some(thread_id) => {
                if same_text(&self.model.active_thread_id, thread_id.as_str()) {
                    let e = self.thread_read_effect(thread_id.as_str());
                    effects.push(e);
                    assert(effects_view(effects@) =~= seq![e@]);
                } else {
                    assert(effects_view(effects@) =~= Seq::<EffectView>::empty());
                }
            },
            None => {
                assert(effects_view(effects@) =~= Seq::<EffectView>::empty());
            },
        }
        effects
    }

    fn handle_message(&mut self, message: &JsonValue) -> (effects: Vec<WebEffect>)
        requires
            message_takes_id(old(self)@, message@) ==> old(self)@.next_request_id < i64::MAX,
        ensures
            (final(self)@, effects_view(effects@)) == on_message(old(self)@, message@),
    {
        if message.get("id").is_some() {
            return self.handle_rpc_response(message);
        }
        match message.get("method") {
            Some(m) => match m.as_str() {
                Some(method) => {
                    let null = JsonValue::Null;
                    let params: &JsonValue = match message.get("params") {
                        Some(p) => p,
                        None => &null,
                    };
                    self.handle_notification(method, params)
                },
                None => {
                    let none: Vec<WebEffect> = Vec::new();
                    assert(effects_view(none@) =~= Seq::<EffectView>::empty());
                    none
                },
            },
            None => {
                let none: Vec<WebEffect> = Vec::new();
                assert(effects_view(none@) =~= Seq::<EffectView>::empty());
                none
            },
        }
    }

    /// Takes in a message from the app server that has been read as a
    /// document.
    pub fn dispatch_message(&mut self, message: &JsonValue) -> (r: WebDispatchResult)
        requires
            message_takes_id(old(self)@, message@) ==> old(self)@.next_request_id < i64::MAX,
        ensures
            (final(self)@, effects_view(r.effects@)) == on_message(old(self)@, message@),
            r.snapshot@ == snapshot_of(final(self)@),
    {
        let effects = self.handle_message(message);
        WebDispatchResult { snapshot: self.snapshot(), effects }
    }

    /// Takes in one event: the state moves on, and the effects for the page
    /// come back with what the page now shows. A refused event changes
    /// nothing.
    pub fn dispatch(&mut self, event: WebEvent) -> (r: Result<WebDispatchResult, WebClientError>)
        requires
            event_takes_id(old(self)@, event) ==> old(self)@.next_request_id < i64::MAX,
        ensures
            match r {
                Ok(res) => step(old(self)@, event) == Ok::<(AppView, Seq<EffectView>), ErrorView>(
                    (final(self)@, effects_view(res.effects@)),
                ) && res.snapshot@ == snapshot_of(final(self)@),
                Err(e) => step(old(self)@, event) == Err::<(AppView, Seq<EffectView>), ErrorView>(
                    e@,
                ) && final(self)@ == old(self)@,
            },
    {
        let ghost s0 = self@;
        let ghost ev = event;
        let mut effects: Vec<WebEffect> = Vec::new();
        match event {
            WebEvent::ConfigureServer { url } => {
                let websocket_url = match normalize_websocket_url(url.as_str()) {
                    Ok(u) => u,
                    Err(e) => {
                        return Err(e);
                    },
                };
                self.reset_connection_state();
                self.model.connection = ConnectionSnapshot {
                    status: ConnectionStatus::Connecting,
                    message: Some(owned("Connecting")),
                };
                self.model.server = Some(ServerConfig { websocket_url: websocket_url.clone() });
                self.model.alleycat = None;
                self.model.last_error = None;
                effects.push(
                    WebEffect::PersistConfig {
                        config: ServerConfig { websocket_url: websocket_url.clone() },
                    },
                );
                effects.push(WebEffect::OpenWebSocket { url: websocket_url });
                assert(effects_view(effects@) =~= step(s0, ev)->Ok_0.1);
            },
            WebEvent::ConfigureAlleycat { pair_payload, agent } => {
                let config = match normalize_alleycat_config(pair_payload, agent) {
                    Ok(c) => c,
                    Err(e) => {
                        return Err(e);
                    },
                };
                self.reset_connection_state();
                self.model.connection = ConnectionSnapshot {
                    status: ConnectionStatus::Connecting,
                    message: Some(owned("Connecting")),
                };
                self.model.server = None;
                self.model.alleycat = Some(config.clone());
                self.model.last_error = None;
                effects.push(WebEffect::PersistAlleycatConfig { config: config.clone() });
                effects.push(WebEffect::OpenAlleycat { config });
                assert(effects_view(effects@) =~= step(s0, ev)->Ok_0.1);
            },
            WebEvent::WebSocketOpened => {
                self.model.connection = ConnectionSnapshot {
                    status: ConnectionStatus::Connecting,
                    message: Some(owned("Initializing")),
                };
                let e = self.initialize_effect();
                effects.push(e);
                assert(effects_view(effects@) =~= seq![e@]);
            },
            WebEvent::WebSocketClosed { reason } => {
                self.model.connection = ConnectionSnapshot {
                    status: ConnectionStatus::Disconnected,
                    message: reason,
                };
                assert(effects_view(effects@) =~= Seq::<EffectView>::empty());
            },
            WebEvent::WebSocketMessage { text } => {
                match parse_json(text.as_str()) {
                    Ok(message) => {
                        effects = self.handle_message(&message);
                    },
                    Err(e) => {
                        return Err(WebClientError::InvalidMessage(e));
                    },
                }
            },
            WebEvent::RequestThreads => {
                let e = self.thread_list_effect();
                effects.push(e);
                assert(effects_view(effects@) =~= seq![e@]);
            },
            WebEvent::SelectThread { thread_id } => {
                self.model.active_thread_id = Some(thread_id.clone());
                let e = self.thread_read_effect(thread_id.as_str());
                effects.push(e);
                assert(effects_view(effects@) =~= seq![e@]);
            },
            WebEvent::SendTurn { thread_id, text } => {
                if blank(text.as_str()) {
                    self.model.last_error = Some(owned("Message is empty"));
                    assert(effects_view(effects@) =~= Seq::<EffectView>::empty());
                } else {
                    let e = self.turn_start_effect(thread_id.as_str(), text);
                    effects.push(e);
                    assert(effects_view(effects@) =~= seq![e@]);
                }
            },
            WebEvent::ClearError => {
                self.model.last_error = None;
                assert(effects_view(effects@) =~= Seq::<EffectView>::empty());
            },
        }
        let snapshot = self.snapshot();
        Ok(WebDispatchResult { snapshot, effects })
    }
}

// ---------------------------------------------------------------------------
// Laws of the state machine.
/// Request ids are never negative, and every pending request has an id
/// below the next one.
pub open spec fn ids_in_order(s: AppView) -> bool {
    &&& s.next_request_id >= 0
    &&& forall|id: i64| #[trigger] s.pending.contains_key(id) ==> 0 <= id < s.next_request_id
}

/// An effect that is a request is remembered as pending with its method.
pub open spec fn remembered(s: AppView, effect: EffectView) -> bool {
    forall|id: i64, method: Seq<char>, params: JsonView|
        effect == EffectView::SendRpc(#[trigger] rpc_request(id, method, params))
            ==> s.pending.contains_key(id) && s.pending[id].method == method
}

/// Every request among the effects is remembered as pending with its method.
pub open spec fn requests_remembered(s: AppView, effects: Seq<EffectView>) -> bool {
    forall|i: int| 0 <= i < effects.len() ==> remembered(s, #[trigger] effects[i])
}

/// The id an effect carries: that of a message with an integer `id`.
pub open spec fn effect_ids(e: EffectView) -> Seq<i64> {
    match e {
        EffectView::SendRpc(m) => match field(m, "id"@) {
            Some(v) => match i64_of(v) {
                Some(id) => seq![id],
                None => Seq::empty(),
            },
            None => Seq::empty(),
        },
        _ => Seq::empty(),
    }
}

/// The ids the effects carry, in the order they are sent.
pub open spec fn sent_ids(effects: Seq<EffectView>) -> Seq<i64>
    decreases effects.len(),
{
    if effects.len() == 0 {
        Seq::empty()
    } else {
        effect_ids(effects[0]) + sent_ids(effects.drop_first())
    }
}

/// The ids from `a` on, `b` left out.
pub open spec fn id_range(a: int, b: int) -> Seq<i64> {
    Seq::new((b - a) as nat, |i: int| (a + i) as i64)
}

/// Events handed to a client one after another: an accepted one moves the
/// state on and adds its effects; a refused one changes nothing.
pub open spec fn run(s: AppView, events: Seq<WebEvent>) -> (AppView, Seq<EffectView>)
    decreases events.len(),
{
    if events.len() == 0 {
        (s, Seq::empty())
    } else {
        match step(s, events[0]) {
            Ok((s1, e1)) => {
                let (s2, e2) = run(s1, events.drop_first());
                (s2, e1 + e2)
            },
            Err(_) => run(s, events.drop_first()),
        }
    }
}

proof fn lemma_sent_ids_one(a: EffectView)
    ensures
        sent_ids(seq![a]) == effect_ids(a),
{
    assert(seq![a].drop_first() =~= Seq::<EffectView>::empty());
    assert(seq![a][0] == a);
    assert(sent_ids(Seq::<EffectView>::empty()) =~= Seq::<i64>::empty());
    assert(effect_ids(a) + Seq::<i64>::empty() =~= effect_ids(a));
}

proof fn lemma_sent_ids_two(a: EffectView, b: EffectView)
    ensures
        sent_ids(seq![a, b]) == effect_ids(a) + effect_ids(b),
{
    assert(seq![a, b].drop_first() =~= seq![b]);
    lemma_sent_ids_one(b);
}

proof fn lemma_sent_ids_append(a: Seq<EffectView>, b: Seq<EffectView>)
    ensures
        sent_ids(a + b) == sent_ids(a) + sent_ids(b),
    decreases a.len(),
{
    if a.len() == 0 {
        assert(a + b =~= b);
        assert(Seq::<i64>::empty() + sent_ids(b) =~= sent_ids(b));
    } else {
        assert((a + b).drop_first() =~= a.drop_first() + b);
        assert((a + b)[0] == a[0]);
        lemma_sent_ids_append(a.drop_first(), b);
        assert(effect_ids(a[0]) + (sent_ids(a.drop_first()) + sent_ids(b)) =~= (effect_ids(a[0])
            + sent_ids(a.drop_first())) + sent_ids(b));
    }
}

proof fn lemma_id_range_concat(a: int, b: int, c: int)
    requires
        a <= b <= c,
    ensures
        id_range(a, b) + id_range(b, c) == id_range(a, c),
{
    assert(id_range(a, b) + id_range(b, c) =~= id_range(a, c));
}

proof fn lemma_no_ids(s: AppView)
    ensures
        sent_ids(Seq::empty()) == id_range(s.next_request_id as int, s.next_request_id as int),
{
    assert(id_range(s.next_request_id as int, s.next_request_id as int) =~= Seq::<i64>::empty());
}

proof fn lemma_request(s: AppView, method: Seq<char>, thread_id: Option<Seq<char>>, params: JsonView)
    requires
        ids_in_order(s),
        s.next_request_id < i64::MAX,
    ensures
        ({
            let (s2, e) = request(s, method, thread_id, params);
            &&& ids_in_order(s2)
            &&& s2.next_request_id == s.next_request_id + 1
            &&& requests_remembered(s2, seq![e])
            &&& s2.pending.contains_key(s.next_request_id)
            &&& sent_ids(seq![e]) == id_range(
                s.next_request_id as int,
                s2.next_request_id as int,
            )
        }),
{
    let (s2, e) = request(s, method, thread_id, params);
    assert forall|id: i64, m: Seq<char>, p: JsonView|
        e == EffectView::SendRpc(#[trigger] rpc_request(id, m, p)) implies s2.pending.contains_key(
        id) && s2.pending[id].method == m by {
        let a = rpc_request(id, m, p)->Object_0;
        let b = rpc_request(s.next_request_id, method, params)->Object_0;
        assert(a[0] == b[0]);
        assert(a[1] == b[1]);
    }
    assert(seq![e][0] == e);
    let n = s.next_request_id;
    assert(field(rpc_request(n, method, params), "id"@) == Some(JsonView::Number(int_number(n))));
    assert(i64_of(JsonView::Number(int_number(n))) == Some(n));
    lemma_sent_ids_one(e);
    assert(id_range(n as int, n + 1) =~= seq![n]);
}

/// What a result does to the requests: the pending ones stay pending, but
/// for any new one, which takes the next id.
proof fn lemma_on_result_pending(s: AppView, p: PendingView, result: JsonView)
    ensures
        forall|id: i64|
            #![trigger on_result(s, p, result).0.pending.contains_key(id)]
            !s.pending.contains_key(id) && id != s.next_request_id
                ==> !on_result(s, p, result).0.pending.contains_key(id),
{
}

proof fn lemma_on_result(s: AppView, p: PendingView, result: JsonView)
    requires
        ids_in_order(s),
        result_takes_id(p) ==> s.next_request_id < i64::MAX,
    ensures
        ids_in_order(on_result(s, p, result).0),
        on_result(s, p, result).0.next_request_id == s.next_request_id + if result_takes_id(p) {
            1int
        } else {
            0int
        },
        requests_remembered(on_result(s, p, result).0, on_result(s, p, result).1),
        sent_ids(on_result(s, p, result).1) == id_range(
            s.next_request_id as int,
            on_result(s, p, result).0.next_request_id as int,
        ),
{
    reveal_strlit("initialize");
    reveal_strlit("thread/list");
    reveal_strlit("thread/read");
    reveal_strlit("turn/start");
    reveal_strlit("method");
    reveal_strlit("id");
    assert("thread/list"@.len() == 11 && "thread/read"@.len() == 11 && "turn/start"@.len() == 10);
    assert("method"@.len() == 6 && "id"@.len() == 2);
    lemma_no_ids(s);
    if p.method == "initialize"@ {
        let s1 = AppView {
            connection: ConnectionView {
                status: ConnectionStatus::Connected,
                message: Some("Connected"@),
            },
            ..s
        };
        lemma_request(s1, "thread/list"@, None, thread_list_params());
        let (s2, e) = request(s1, "thread/list"@, None, thread_list_params());
        let first = EffectView::SendRpc(initialized_notification());
        let effs = seq![first, e];
        assert(seq![e][0] == e);
        assert forall|id: i64, m: Seq<char>, q: JsonView|
            effs[0] == EffectView::SendRpc(#[trigger] rpc_request(id, m, q)) implies false by {
            assert(rpc_request(id, m, q)->Object_0.len() == 3);
        }
        assert(remembered(s2, effs[0]));
        assert(remembered(s2, effs[1]));
        assert(initialized_notification()->Object_0[0].0 != "id"@);
        assert(initialized_notification()->Object_0.drop_first() =~= Seq::<
            (Seq<char>, JsonView),
        >::empty());
        assert(entry_value(Seq::<(Seq<char>, JsonView)>::empty(), "id"@) is None);
        assert(field(initialized_notification(), "id"@) is None);
        assert(effect_ids(first) =~= Seq::<i64>::empty());
        lemma_sent_ids_two(first, e);
        lemma_sent_ids_one(e);
        assert(effect_ids(first) + effect_ids(e) =~= effect_ids(e));
    } else if p.method == "thread/list"@ {
        assert(!result_takes_id(p));
    } else if p.method == "thread/read"@ {
        assert(!result_takes_id(p));
    } else if p.method == "turn/start"@ {
        match p.thread_id {
            Some(t) => {
                lemma_request(s, "thread/read"@, Some(t), thread_read_params(t));
            },
            None => {},
        }
    }
}

proof fn lemma_on_message(s: AppView, m: JsonView)
    requires
        ids_in_order(s),
        message_takes_id(s, m) ==> s.next_request_id < i64::MAX,
    ensures
        ids_in_order(on_message(s, m).0),
        on_message(s, m).0.next_request_id == s.next_request_id + if message_takes_id(s, m) {
            1int
        } else {
            0int
        },
        requests_remembered(on_message(s, m).0, on_message(s, m).1),
        sent_ids(on_message(s, m).1) == id_range(
            s.next_request_id as int,
            on_message(s, m).0.next_request_id as int,
        ),
{
    lemma_no_ids(s);
    if field(m, "id"@) is Some {
        match i64_of(field(m, "id"@)->0) {
            Some(id) => {
                let s1 = AppView { pending: s.pending.remove(id), ..s };
                if field(m, "error"@) is None && s.pending.contains_key(id) {
                    let result = match field(m, "result"@) {
                        Some(r) => r,
                        None => JsonView::Null,
                    };
                    lemma_on_result(s1, s.pending[id], result);
                }
            },
            None => {},
        }
    } else {
        match string_field(m, "method"@) {
            Some(method) => {
                let params = match field(m, "params"@) {
                    Some(p) => p,
                    None => JsonView::Null,
                };
                let s1 = after_notification(s, method, params);
                assert(s1.pending == s.pending && s1.next_request_id == s.next_request_id
                    && s1.active_thread_id == s.active_thread_id);
                match notification_thread_of(params) {
                    Some(t) => {
                        if s1.active_thread_id == Some(t) {
                            lemma_request(s1, "thread/read"@, Some(t), thread_read_params(t));
                        }
                    },
                    None => {},
                }
            },
            None => {},
        }
    }
}

proof fn lemma_step(s: AppView, event: WebEvent)
    requires
        ids_in_order(s),
        event_takes_id(s, event) ==> s.next_request_id < i64::MAX,
    ensures
        step(s, event) matches Ok((s2, effects)) ==> {
            &&& ids_in_order(s2)
            &&& s2.next_request_id == s.next_request_id + if event_takes_id(s, event) {
                1int
            } else {
                0int
            }
            &&& requests_remembered(s2, effects)
            &&& sent_ids(effects) == id_range(
                s.next_request_id as int,
                s2.next_request_id as int,
            )
        },
{
    lemma_no_ids(s);
    match event {
        WebEvent::ConfigureServer { url } => {
            match websocket_url_of(url@) {
                Some(u) => {
                    let effs = seq![EffectView::PersistConfig(u), EffectView::OpenWebSocket(u)];
                    assert(remembered(s, effs[0]) && remembered(s, effs[1]));
                    lemma_sent_ids_two(effs[0], effs[1]);
                    assert(effect_ids(effs[0]) + effect_ids(effs[1]) =~= Seq::<i64>::empty());
                },
                None => {},
            }
        },
        WebEvent::ConfigureAlleycat { pair_payload, agent } => {
            match alleycat_config_of(pair_payload@, agent@) {
                Ok(c) => {
                    let effs = seq![EffectView::PersistAlleycatConfig(c), EffectView::OpenAlleycat(c)];
                    assert(remembered(s, effs[0]) && remembered(s, effs[1]));
                    lemma_sent_ids_two(effs[0], effs[1]);
                    assert(effect_ids(effs[0]) + effect_ids(effs[1]) =~= Seq::<i64>::empty());
                },
                Err(_) => {},
            }
        },
        WebEvent::WebSocketOpened => {
            lemma_request(
                AppView { connection: connecting("Initializing"@), ..s },
                "initialize"@,
                None,
                initialize_params(),
            );
        },
        WebEvent::WebSocketClosed { reason } => {},
        WebEvent::WebSocketMessage { text } => {
            match json_parse(text@) {
                Ok(m) => {
                    lemma_on_message(s, m);
                },
                Err(_) => {},
            }
        },
        WebEvent::RequestThreads => {
            lemma_request(s, "thread/list"@, None, thread_list_params());
        },
        WebEvent::SelectThread { thread_id } => {
            lemma_request(
                AppView { active_thread_id: Some(thread_id@), ..s },
                "thread/read"@,
                Some(thread_id@),
                thread_read_params(thread_id@),
            );
        },
        WebEvent::SendTurn { thread_id, text } => {
            if !is_blank(text@) {
                lemma_request(
                    s,
                    "turn/start"@,
                    Some(thread_id@),
                    turn_start_params(thread_id@, text@),
                );
            }
        },
        WebEvent::ClearError => {},
    }
}

/// Request ids stay in order: a new client starts at one (a default one at
/// zero) with nothing pending, and every event keeps each pending request
/// below the next id.
pub proof fn lemma_ids_in_order(s: AppView, event: WebEvent)
    requires
        ids_in_order(s),
        event_takes_id(s, event) ==> s.next_request_id < i64::MAX,
    ensures
        ids_in_order(initial_state()),
        initial_state().next_request_id == 1,
        ids_in_order(default_state()),
        default_state().next_request_id == 0,
        step(s, event) matches Ok((s2, _)) ==> ids_in_order(s2),
{
    lemma_step(s, event);
}

/// An event takes a request id exactly when it sends a request, and then
/// one only.
pub proof fn lemma_one_request_per_event(s: AppView, event: WebEvent)
    requires
        ids_in_order(s),
        event_takes_id(s, event) ==> s.next_request_id < i64::MAX,
    ensures
        step(s, event) matches Ok((s2, _)) ==> s2.next_request_id == s.next_request_id + if event_takes_id(
            s,
            event,
        ) {
            1int
        } else {
            0int
        },
{
    lemma_step(s, event);
}

/// Every request the client sends is remembered as pending under its id,
/// with its method, until its answer comes.
pub proof fn lemma_sent_requests_are_pending(s: AppView, event: WebEvent)
    requires
        ids_in_order(s),
        event_takes_id(s, event) ==> s.next_request_id < i64::MAX,
    ensures
        step(s, event) matches Ok((s2, effects)) ==> requests_remembered(s2, effects),
{
    lemma_step(s, event);
}

/// Request ids count up: over any run of events, the requests the client
/// sends carry the ids from its next id on, each once, in order and without
/// a gap, and a refused event takes none. A new client's requests are so
/// numbered 1, 2, 3, and on. The run is shorter than the ids left.
pub proof fn lemma_request_ids_count_up(s: AppView, events: Seq<WebEvent>)
    requires
        ids_in_order(s),
        s.next_request_id + events.len() < i64::MAX,
    ensures
        ids_in_order(run(s, events).0),
        s.next_request_id <= run(s, events).0.next_request_id <= s.next_request_id + events.len(),
        sent_ids(run(s, events).1) == id_range(
            s.next_request_id as int,
            run(s, events).0.next_request_id as int,
        ),
    decreases events.len(),
{
    if events.len() == 0 {
        lemma_no_ids(s);
    } else {
        let rest = events.drop_first();
        lemma_step(s, events[0]);
        match step(s, events[0]) {
            Ok((s1, e1)) => {
                lemma_request_ids_count_up(s1, rest);
                let (s2, e2) = run(s1, rest);
                lemma_sent_ids_append(e1, e2);
                lemma_id_range_concat(
                    s.next_request_id as int,
                    s1.next_request_id as int,
                    s2.next_request_id as int,
                );
            },
            Err(_) => {
                lemma_request_ids_count_up(s, rest);
            },
        }
    }
}

/// A response settles its request: once the answer with an id has come, no
/// request with that id is pending any more.
pub proof fn lemma_response_settles_request(s: AppView, m: JsonView, id: i64)
    requires
        ids_in_order(s),
        field(m, "id"@) matches Some(i) && i64_of(i) == Some(id),
    ensures
        !on_message(s, m).0.pending.contains_key(id),
{
    let s1 = AppView { pending: s.pending.remove(id), ..s };
    if field(m, "error"@) is None && s.pending.contains_key(id) {
        let result = match field(m, "result"@) {
            Some(r) => r,
            None => JsonView::Null,
        };
        lemma_on_result_pending(s1, s.pending[id], result);
        assert(!s1.pending.contains_key(id));
    }
}

/// A response is acted on once: the same response coming again changes
/// nothing and asks for nothing.
pub proof fn lemma_response_acts_once(s: AppView, m: JsonView)
    requires
        ids_in_order(s),
        field(m, "id"@) is Some,
    ensures
        on_message(on_message(s, m).0, m) == (on_message(s, m).0, Seq::<EffectView>::empty()),
{
    let s2 = on_message(s, m).0;
    match i64_of(field(m, "id"@)->0) {
        Some(id) => {
            lemma_response_settles_request(s, m, id);
            assert(s2.pending.remove(id) =~= s2.pending);
            let s3 = AppView { pending: s2.pending.remove(id), ..s2 };
            assert(s3 == s2);
            match field(m, "error"@) {
                Some(err) => {
                    assert(s2.last_error == Some(rpc_error_text(err)));
                    assert(AppView { last_error: Some(rpc_error_text(err)), ..s3 } == s2);
                },
                None => {},
            }
        },
        None => {},
    }
}

/// At most one transport is configured at a time.
pub open spec fn one_transport(s: AppView) -> bool {
    !(s.server is Some && s.alleycat is Some)
}

/// At most one transport is configured, and the WebSocket URL, when there
/// is one, starts with `ws://` or `wss://`.
pub open spec fn transport_sound(s: AppView) -> bool {
    &&& one_transport(s)
    &&& (s.server matches Some(u) ==> (starts_with(u, "ws://"@) || starts_with(u, "wss://"@)))
}

/// Configuring one transport forgets the other, and only a normalized
/// WebSocket URL is kept: each event keeps the transports sound.
pub proof fn lemma_one_transport(s: AppView, event: WebEvent)
    requires
        transport_sound(s),
    ensures
        transport_sound(initial_state()),
        step(s, event) matches Ok((s2, _)) ==> transport_sound(s2),
{
    match event {
        WebEvent::ConfigureServer { url } => {
            lemma_websocket_url_normal(url@);
        },
        WebEvent::WebSocketMessage { text } => {
            match json_parse(text@) {
                Ok(m) => {
                    lemma_on_message_keeps_transport(s, m);
                },
                Err(_) => {},
            }
        },
        _ => {},
    }
}

/// Over any run of events the transports stay sound, and so the page never
/// shows a WebSocket URL and an Alleycat agent at once, nor a WebSocket URL
/// that does not start with `ws://` or `wss://`.
pub proof fn lemma_transports_stay_sound(s: AppView, events: Seq<WebEvent>)
    requires
        transport_sound(s),
    ensures
        transport_sound(run(s, events).0),
        !(snapshot_of(run(s, events).0).server_url is Some && snapshot_of(
            run(s, events).0,
        ).alleycat_agent is Some),
        snapshot_of(run(s, events).0).server_url matches Some(u) ==> (starts_with(u, "ws://"@)
            || starts_with(u, "wss://"@)),
    decreases events.len(),
{
    if events.len() > 0 {
        lemma_one_transport(s, events[0]);
        match step(s, events[0]) {
            Ok((s1, _)) => {
                lemma_transports_stay_sound(s1, events.drop_first());
            },
            Err(_) => {
                lemma_transports_stay_sound(s, events.drop_first());
            },
        }
    }
}

proof fn lemma_on_message_keeps_transport(s: AppView, m: JsonView)
    ensures
        on_message(s, m).0.server == s.server,
        on_message(s, m).0.alleycat == s.alleycat,
{
    if field(m, "id"@) is Some {
        match i64_of(field(m, "id"@)->0) {
            Some(id) => {
                let s1 = AppView { pending: s.pending.remove(id), ..s };
                if field(m, "error"@) is None && s.pending.contains_key(id) {
                    let result = match field(m, "result"@) {
                        Some(r) => r,
                        None => JsonView::Null,
                    };
                    let p = s.pending[id];
                    if p.method == "initialize"@ {
                    } else if p.method == "turn/start"@ {
                    }
                }
            },
            None => {},
        }
    }
}

/// The document of a `thread/list` request with the given id: the fifty
/// most recently updated threads that are not archived.
proof fn lemma_thread_list_document(s: AppView)
    requires
        s.next_request_id >= 0,
    ensures
        request(s, "thread/list"@, None, thread_list_params()).1 == EffectView::SendRpc(
            JsonView::Object(
                seq![
                    ("id"@, JsonView::Number(NumberView::PosInt(s.next_request_id as u64))),
                    ("method"@, JsonView::Str("thread/list"@)),
                    ("params"@, JsonView::Object(
                        seq![
                            ("limit"@, JsonView::Number(NumberView::PosInt(50))),
                            ("sortKey"@, JsonView::Str("updated_at"@)),
                            ("sortDirection"@, JsonView::Str("desc"@)),
                            ("archived"@, JsonView::Bool(false)),
                            ("useStateDbOnly"@, JsonView::Bool(false)),
                        ],
                    )),
                ],
            ),
        ),
{
}

/// Asking for the threads sends one `thread/list` request, under the next
/// id, for the fifty most recently updated threads that are not archived.
pub proof fn lemma_request_threads_document(s: AppView)
    requires
        s.next_request_id >= 0,
    ensures
        step(s, WebEvent::RequestThreads) matches Ok((s2, effects)) && effects == seq![
            EffectView::SendRpc(
                JsonView::Object(
                    seq![
                        ("id"@, JsonView::Number(NumberView::PosInt(s.next_request_id as u64))),
                        ("method"@, JsonView::Str("thread/list"@)),
                        ("params"@, JsonView::Object(
                            seq![
                                ("limit"@, JsonView::Number(NumberView::PosInt(50))),
                                ("sortKey"@, JsonView::Str("updated_at"@)),
                                ("sortDirection"@, JsonView::Str("desc"@)),
                                ("archived"@, JsonView::Bool(false)),
                                ("useStateDbOnly"@, JsonView::Bool(false)),
                            ],
                        )),
                    ],
                ),
            ),
        ],
{
    lemma_thread_list_document(s);
}

/// The answer to a pending `initialize` request connects the client, which
/// then sends the `initialized` notification and a `thread/list` request,
/// under the next id, for the fifty most recently updated threads that are
/// not archived.
pub proof fn lemma_initialize_answer(s: AppView, m: JsonView, id: i64)
    requires
        s.next_request_id >= 0,
        field(m, "id"@) matches Some(v) && i64_of(v) == Some(id),
        field(m, "error"@) is None,
        s.pending.contains_key(id),
        s.pending[id].method == "initialize"@,
    ensures
        on_message(s, m).0.connection == (ConnectionView {
            status: ConnectionStatus::Connected,
            message: Some("Connected"@),
        }),
        on_message(s, m).1 == seq![
            EffectView::SendRpc(JsonView::Object(seq![("method"@, JsonView::Str("initialized"@))])),
            EffectView::SendRpc(
                JsonView::Object(
                    seq![
                        ("id"@, JsonView::Number(NumberView::PosInt(s.next_request_id as u64))),
                        ("method"@, JsonView::Str("thread/list"@)),
                        ("params"@, JsonView::Object(
                            seq![
                                ("limit"@, JsonView::Number(NumberView::PosInt(50))),
                                ("sortKey"@, JsonView::Str("updated_at"@)),
                                ("sortDirection"@, JsonView::Str("desc"@)),
                                ("archived"@, JsonView::Bool(false)),
                                ("useStateDbOnly"@, JsonView::Bool(false)),
                            ],
                        )),
                    ],
                ),
            ),
        ],
{
    let s1 = AppView {
        connection: ConnectionView { status: ConnectionStatus::Connected, message: Some("Connected"@) },
        pending: s.pending.remove(id),
        ..s
    };
    lemma_thread_list_document(s1);
}

/// The answer to a pending `thread/list` request sets the thread list to
/// the summaries of all the threads in its `data`, in their order, and
/// asks for nothing more.
pub proof fn lemma_thread_list_answer(s: AppView, m: JsonView, id: i64, items: Seq<JsonView>)
    requires
        field(m, "id"@) matches Some(v) && i64_of(v) == Some(id),
        field(m, "error"@) is None,
        s.pending.contains_key(id),
        s.pending[id].method == "thread/list"@,
        field(m, "result"@) matches Some(r) && field(r, "data"@) == Some(JsonView::Array(items)),
    ensures
        on_message(s, m).0.threads.len() == items.len(),
        forall|i: int|
            0 <= i < items.len() ==> #[trigger] on_message(s, m).0.threads[i] == summary_of(
                items[i],
            ),
        on_message(s, m).1.len() == 0,
        !on_message(s, m).0.pending.contains_key(id),
{
    reveal_strlit("thread/list");
    reveal_strlit("initialize");
    assert("thread/list"@.len() != "initialize"@.len());
}

/// Configuring a transport starts afresh: when the event is taken, the
/// client is connecting, with no thread listed or open, no request
/// pending and no error, and its request ids go on where they were.
pub proof fn lemma_configure_forgets_connection(s: AppView, event: WebEvent)
    requires
        event is ConfigureServer || event is ConfigureAlleycat,
    ensures
        step(s, event) matches Ok((s2, _)) ==> {
            &&& s2.threads.len() == 0
            &&& s2.active_thread_id is None
            &&& s2.active_thread is None
            &&& s2.pending == Map::<i64, PendingView>::empty()
            &&& s2.last_error is None
            &&& s2.next_request_id == s.next_request_id
            &&& s2.connection == (ConnectionView {
                status: ConnectionStatus::Connecting,
                message: Some("Connecting"@),
            })
        },
{
}

} // verus!
