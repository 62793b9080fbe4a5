//! The data the web client shows and keeps: connection state, server
//! configuration, thread summaries and conversation items, each with its
//! mathematical view.
use vstd::prelude::*;

verus! {

broadcast use vstd::string::group_string_axioms;

#[derive(Debug, Clone, Copy, PartialEq, Eq)]
pub enum ConnectionStatus {
    Disconnected,
    Connecting,
    Connected,
}

impl Default for ConnectionStatus {
    fn default() -> (r: Self)
        ensures
            r == ConnectionStatus::Disconnected,
    {
        ConnectionStatus::Disconnected
    }
}

/// The view of an optional string.
pub open spec fn opt_view(o: Option<String>) -> Option<Seq<char>> {
    match o {
        Some(s) => Some(s@),
        None => None,
    }
}

/// A copy of an optional string.
pub fn copy_opt(o: &Option<String>) -> (r: Option<String>)
    ensures
        r == *o,
{
    match o {
        Some(s) => Some(s.clone()),
        None => None,
    }
}

#[derive(Debug, PartialEq, Eq)]
pub struct ConnectionSnapshot {
    pub status: ConnectionStatus,
    pub message: Option<String>,
}

pub struct ConnectionView {
    pub status: ConnectionStatus,
    pub message: Option<Seq<char>>,
}

impl View for ConnectionSnapshot {
    type V = ConnectionView;

    open spec fn view(&self) -> ConnectionView {
        ConnectionView { status: self.status, message: opt_view(self.message) }
    }
}

impl Clone for ConnectionSnapshot {
    fn clone(&self) -> (r: Self)
        ensures
            r == *self,
    {
        ConnectionSnapshot { status: self.status, message: copy_opt(&self.message) }
    }
}

impl Default for ConnectionSnapshot {
    fn default() -> (r: Self)
        ensures
            r@ == (ConnectionView { status: ConnectionStatus::Disconnected, message: None }),
    {
        ConnectionSnapshot { status: ConnectionStatus::Disconnected, message: None }
    }
}

#[derive(Debug, PartialEq, Eq)]
pub struct ServerConfig {
    pub websocket_url: String,
}

impl Clone for ServerConfig {
    fn clone(&self) -> (r: Self)
        ensures
            r == *self,
    {
        ServerConfig { websocket_url: self.websocket_url.clone() }
    }
}

#[derive(Debug, PartialEq, Eq)]
pub struct AlleycatConfig {
    pub pair_payload: String,
    pub agent: String,
}

pub struct AlleycatView {
    pub pair_payload: Seq<char>,
    pub agent: Seq<char>,
}

impl View for AlleycatConfig {
    type V = AlleycatView;

    open spec fn view(&self) -> AlleycatView {
        AlleycatView { pair_payload: self.pair_payload@, agent: self.agent@ }
    }
}

impl Clone for AlleycatConfig {
    fn clone(&self) -> (r: Self)
        ensures
            r == *self,
    {
        AlleycatConfig { pair_payload: self.pair_payload.clone(), agent: self.agent.clone() }
    }
}

#[derive(Debug, PartialEq, Eq)]
pub struct ThreadSummary {
    pub id: String,
    pub title: String,
    pub preview: String,
    pub status: String,
    pub cwd: Option<String>,
    pub updated_at: Option<i64>,
}

pub struct ThreadSummaryView {
    pub id: Seq<char>,
    pub title: Seq<char>,
    pub preview: Seq<char>,
    pub status: Seq<char>,
    pub cwd: Option<Seq<char>>,
    pub updated_at: Option<i64>,
}

impl View for ThreadSummary {
    type V = ThreadSummaryView;

    open spec fn view(&self) -> ThreadSummaryView {
        ThreadSummaryView {
            id: self.id@,
            title: self.title@,
            preview: self.preview@,
            status: self.status@,
            cwd: opt_view(self.cwd),
            updated_at: self.updated_at,
        }
    }
}

impl Clone for ThreadSummary {
    fn clone(&self) -> (r: Self)
        ensures
            r == *self,
    {
        ThreadSummary {
            id: self.id.clone(),
            title: self.title.clone(),
            preview: self.preview.clone(),
            status: self.status.clone(),
            cwd: copy_opt(&self.cwd),
            updated_at: self.updated_at,
        }
    }
}

#[derive(Debug, PartialEq, Eq)]
pub struct ConversationItem {
    pub id: String,
    pub kind: String,
    pub text: String,
}

pub struct ItemView {
    pub id: Seq<char>,
    pub kind: Seq<char>,
    pub text: Seq<char>,
}

impl View for ConversationItem {
    type V = ItemView;

    open spec fn view(&self) -> ItemView {
        ItemView { id: self.id@, kind: self.kind@, text: self.text@ }
    }
}

impl Clone for ConversationItem {
    fn clone(&self) -> (r: Self)
        ensures
            r == *self,
    {
        ConversationItem { id: self.id.clone(), kind: self.kind.clone(), text: self.text.clone() }
    }
}

#[derive(Debug, PartialEq, Eq)]
pub struct ThreadDetail {
    pub summary: ThreadSummary,
    pub items: Vec<ConversationItem>,
}

pub struct ThreadDetailView {
    pub summary: ThreadSummaryView,
    pub items: Seq<ItemView>,
}

pub open spec fn items_view(items: Seq<ConversationItem>) -> Seq<ItemView> {
    items.map_values(|i: ConversationItem| i@)
}

pub open spec fn summaries_view(threads: Seq<ThreadSummary>) -> Seq<ThreadSummaryView> {
    threads.map_values(|t: ThreadSummary| t@)
}

impl View for ThreadDetail {
    type V = ThreadDetailView;

    open spec fn view(&self) -> ThreadDetailView {
        ThreadDetailView { summary: self.summary@, items: items_view(self.items@) }
    }
}

/// A copy of the items, in order.
pub fn copy_items(items: &Vec<ConversationItem>) -> (r: Vec<ConversationItem>)
    ensures
        r@ == items@,
{
    let mut out: Vec<ConversationItem> = Vec::new();
    let mut i: usize = 0;
    while i < items.len()
        invariant
            i <= items@.len(),
            out@ == items@.take(i as int),
        decreases items@.len() - i,
    {
        out.push(items[i].clone());
        proof {
            assert(items@.take(i as int).push(items@[i as int]) =~= items@.take(i + 1));
        }
        i = i + 1;
    }
    assert(items@.take(items@.len() as int) =~= items@);
    out
}

/// A copy of the summaries, in order.
pub fn copy_summaries(threads: &Vec<ThreadSummary>) -> (r: Vec<ThreadSummary>)
    ensures
        r@ == threads@,
{
    let mut out: Vec<ThreadSummary> = Vec::new();
    let mut i: usize = 0;
    while i < threads.len()
        invariant
            i <= threads@.len(),
            out@ == threads@.take(i as int),
        decreases threads@.len() - i,
    {
        out.push(threads[i].clone());
        proof {
            assert(threads@.take(i as int).push(threads@[i as int]) =~= threads@.take(i + 1));
        }
        i = i + 1;
    }
    assert(threads@.take(threads@.len() as int) =~= threads@);
    out
}

impl Clone for ThreadDetail {
    fn clone(&self) -> (r: Self)
        ensures
            r.summary == self.summary,
            r.items@ == self.items@,
    {
        ThreadDetail { summary: self.summary.clone(), items: copy_items(&self.items) }
    }
}

/// Why the client refused an event.
#[derive(Debug, PartialEq, Eq)]
pub enum WebClientError {
    InvalidWebSocketUrl,
    InvalidEvent(String),
    InvalidMessage(String),
    InvalidAlleycatPayload(String),
    Serialize(String),
}

pub enum ErrorView {
    InvalidWebSocketUrl,
    InvalidEvent(Seq<char>),
    InvalidMessage(Seq<char>),
    InvalidAlleycatPayload(Seq<char>),
    Serialize(Seq<char>),
}

impl View for WebClientError {
    type V = ErrorView;

    open spec fn view(&self) -> ErrorView {
        match self {
            WebClientError::InvalidWebSocketUrl => ErrorView::InvalidWebSocketUrl,
            WebClientError::InvalidEvent(m) => ErrorView::InvalidEvent(m@),
            WebClientError::InvalidMessage(m) => ErrorView::InvalidMessage(m@),
            WebClientError::InvalidAlleycatPayload(m) => ErrorView::InvalidAlleycatPayload(m@),
            WebClientError::Serialize(m) => ErrorView::Serialize(m@),
        }
    }
}

/// The text shown for an error.
pub open spec fn error_message(e: ErrorView) -> Seq<char> {
    match e {
        ErrorView::InvalidWebSocketUrl => "websocket URL must start with ws://, wss://, http://, or https://"@,
        ErrorView::InvalidEvent(m) => "invalid event JSON: "@ + m,
        ErrorView::InvalidMessage(m) => "invalid websocket message JSON: "@ + m,
        ErrorView::InvalidAlleycatPayload(m) => "invalid alleycat pair payload: "@ + m,
        ErrorView::Serialize(m) => "serialize result failed: "@ + m,
    }
}

impl WebClientError {
    /// The text shown for the error.
    pub fn message(&self) -> (r: String)
        ensures
            r@ == error_message(self@),
    {
        match self {
            WebClientError::InvalidWebSocketUrl => crate::text::owned(
                "websocket URL must start with ws://, wss://, http://, or https://",
            ),
            WebClientError::InvalidEvent(m) => crate::text::concat(
                "invalid event JSON: ",
                m.as_str(),
            ),
            WebClientError::InvalidMessage(m) => crate::text::concat(
                "invalid websocket message JSON: ",
                m.as_str(),
            ),
            WebClientError::InvalidAlleycatPayload(m) => crate::text::concat(
                "invalid alleycat pair payload: ",
                m.as_str(),
            ),
            WebClientError::Serialize(m) => crate::text::concat(
                "serialize result failed: ",
                m.as_str(),
            ),
        }
    }
}

} // verus!
