//! The browser-side model of the Litter web client, the wire formats of its
//! Alleycat transport, and the per-thread mode store of the mobile client.
//!
//! - `web`: the client's state machine, from page and connection events to
//!   the next state and the effects the page carries out.
//! - `protocol`: how the app server's JSON-RPC documents are read.
//! - `config`: the checks of a WebSocket URL and of an Alleycat pair payload.
//! - `json`: JSON documents as plain data.
//! - `websocket` and `alleycat`: the bytes of WebSocket frames, of the opening
//!   handshake, and of the Alleycat connect exchange.
//! - `thread_modes`: what the mode store file holds.
//! - `model` and `text`: the shared data types and text helpers.
use vstd::prelude::*;

pub mod alleycat;
pub mod config;
pub mod json;
pub mod model;
pub mod protocol;
pub mod text;
pub mod thread_modes;
pub mod web;
pub mod websocket;

pub use json::{JsonNumber, JsonValue};
pub use model::{
    AlleycatConfig, ConnectionSnapshot, ConnectionStatus, ConversationItem, ServerConfig,
    ThreadDetail, ThreadSummary, WebClientError,
};
pub use web::{WebApp, WebDispatchResult, WebEffect, WebEvent, WebSnapshot};

verus! {

} // verus!
