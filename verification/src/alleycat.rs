//! The Alleycat pairing protocol: the pair payload the user pastes, the
//! length-prefixed JSON frames of the connect exchange, and the host's
//! answer. Opening the iroh connection and moving the bytes is the caller's
//! part.
use vstd::prelude::*;

use std::str::FromStr;

use crate::text::{blank, concat, decimal, decimal_string, is_blank, owned, trim, trimmed};

verus! {

broadcast use vstd::string::group_string_axioms;

/// The protocol version this client speaks.
pub const ALLEYCAT_PROTOCOL_VERSION: u32 = 1;

/// The most bytes a JSON frame body may take.
pub const MAX_FRAME_BYTES: usize = 1048576;

/// The pair payload as it is written in JSON.
#[derive(Debug, Clone, PartialEq, Eq)]
pub struct PairPayloadWire {
    pub v: u32,
    pub node_id: String,
    pub token: String,
    pub relay: Option<String>,
}

/// A pair payload that passed its checks.
#[derive(Debug, Clone, PartialEq, Eq)]
pub struct ParsedPairPayload {
    pub node_id: String,
    pub token: String,
    pub relay: Option<String>,
}

/// The host's answer to `connect`.
#[derive(Debug, Clone, PartialEq, Eq)]
pub struct AlleycatResponse {
    pub v: u32,
    pub ok: bool,
    pub error: Option<String>,
}

/// Why iroh refuses `node_id` as an endpoint id (hex or base32 of an
/// Ed25519 public key), or nothing when it takes it.
pub uninterp spec fn endpoint_id_error(node_id: Seq<char>) -> Option<Seq<char>>;

/// Why iroh refuses `relay` as a relay URL, or nothing when it takes it.
pub uninterp spec fn relay_url_error(relay: Seq<char>) -> Option<Seq<char>>;

/// Reads `node_id` with `iroh::EndpointId::from_str`. The contract claims
/// that whether it is refused, and the error's text, depend on `node_id`
/// alone.
#[verifier::external_body]
pub(crate) fn check_endpoint_id(node_id: &str) -> (r: Option<String>)
    ensures
        crate::model::opt_view(r) == endpoint_id_error(node_id@),
{
    iroh::EndpointId::from_str(node_id).err().map(|error| error.to_string())
}

/// Reads `relay` with `iroh::RelayUrl::from_str`. The contract claims that
/// whether it is refused, and the error's text, depend on `relay` alone.
#[verifier::external_body]
pub(crate) fn check_relay_url(relay: &str) -> (r: Option<String>)
    ensures
        crate::model::opt_view(r) == relay_url_error(relay@),
{
    iroh::RelayUrl::from_str(relay).err().map(|error| error.to_string())
}

pub struct WireView {
    pub v: u32,
    pub node_id: Seq<char>,
    pub token: Seq<char>,
    pub relay: Option<Seq<char>>,
}

impl View for PairPayloadWire {
    type V = WireView;

    open spec fn view(&self) -> WireView {
        WireView {
            v: self.v,
            node_id: self.node_id@,
            token: self.token@,
            relay: crate::model::opt_view(self.relay),
        }
    }
}

impl View for ParsedPairPayload {
    type V = WireView;

    open spec fn view(&self) -> WireView {
        WireView {
            v: ALLEYCAT_PROTOCOL_VERSION,
            node_id: self.node_id@,
            token: self.token@,
            relay: crate::model::opt_view(self.relay),
        }
    }
}

/// The checks made of a pair payload, in order: the protocol version, a
/// node id that iroh takes, a token, and a relay URL that iroh takes.
pub open spec fn pair_payload_check_of(w: WireView) -> Result<WireView, Seq<char>> {
    if w.v != ALLEYCAT_PROTOCOL_VERSION {
        Err("protocol version mismatch: payload="@ + decimal(w.v as nat) + " client=1"@)
    } else if is_blank(w.node_id) {
        Err("empty node_id"@)
    } else if endpoint_id_error(w.node_id) is Some {
        Err("invalid node_id: "@ + endpoint_id_error(w.node_id)->0)
    } else if is_blank(w.token) {
        Err("empty token"@)
    } else if w.relay is Some && relay_url_error(w.relay->0) is Some {
        Err("invalid relay URL: "@ + relay_url_error(w.relay->0)->0)
    } else {
        Ok(w)
    }
}

/// The checks made of a pair payload.
pub fn check_pair_payload(wire: PairPayloadWire) -> (r: Result<ParsedPairPayload, String>)
    ensures
        match r {
            Ok(p) => pair_payload_check_of(wire@) == Ok::<WireView, Seq<char>>(p@),
            Err(e) => pair_payload_check_of(wire@) == Err::<WireView, Seq<char>>(e@),
        },
{
    if wire.v != ALLEYCAT_PROTOCOL_VERSION {
        let head = concat("protocol version mismatch: payload=", decimal_string(wire.v as u64).as_str());
        return Err(concat(head.as_str(), " client=1"));
    }
    if blank(wire.node_id.as_str()) {
        return Err(owned("empty node_id"));
    }
    match check_endpoint_id(wire.node_id.as_str()) {
        Some(e) => {
            return Err(concat("invalid node_id: ", e.as_str()));
        },
        None => {},
    }
    if blank(wire.token.as_str()) {
        return Err(owned("empty token"));
    }
    match &wire.relay {
        Some(relay) => match check_relay_url(relay.as_str()) {
            Some(e) => {
                return Err(concat("invalid relay URL: ", e.as_str()));
            },
            None => {},
        },
        None => {},
    }
    Ok(ParsedPairPayload { node_id: wire.node_id, token: wire.token, relay: wire.relay })
}

/// What `connect` starts from: a checked pair payload and the trimmed agent
/// name, or why it cannot start.
pub open spec fn connect_start_of(w: WireView, agent: Seq<char>) -> Result<
    (WireView, Seq<char>),
    Seq<char>,
> {
    match pair_payload_check_of(w) {
        Err(e) => Err(e),
        Ok(p) => if trim(agent).len() == 0 {
            Err("agent is empty"@)
        } else {
            Ok((p, trim(agent)))
        },
    }
}

/// What `connect` starts from.
pub fn prepare_connect(wire: PairPayloadWire, agent: &str) -> (r: Result<
    (ParsedPairPayload, String),
    String,
>)
    ensures
        match r {
            Ok((p, a)) => connect_start_of(wire@, agent@) == Ok::<(WireView, Seq<char>), Seq<char>>(
                (p@, a@),
            ),
            Err(e) => connect_start_of(wire@, agent@) == Err::<(WireView, Seq<char>), Seq<char>>(
                e@,
            ),
        },
{
    let params = match check_pair_payload(wire) {
        Ok(p) => p,
        Err(e) => {
            return Err(e);
        },
    };
    let agent = trimmed(agent);
    if agent.as_str().is_empty() {
        return Err(owned("agent is empty"));
    }
    Ok((params, agent))
}

/// The checks made of the host's answer: the same protocol version, and
/// `ok`; a refusal carries the host's error, or a default one.
pub open spec fn response_check_of(v: u32, ok: bool, error: Option<Seq<char>>) -> Result<
    (),
    Seq<char>,
> {
    if v != ALLEYCAT_PROTOCOL_VERSION {
        Err("protocol version mismatch: host="@ + decimal(v as nat) + " client=1"@)
    } else if !ok {
        match error {
            Some(e) => Err(e),
            None => Err("host rejected request"@),
        }
    } else {
        Ok(())
    }
}

/// The checks made of the host's answer.
pub fn validate_response(response: &AlleycatResponse) -> (r: Result<(), String>)
    ensures
        match r {
            Ok(()) => response_check_of(
                response.v,
                response.ok,
                crate::model::opt_view(response.error),
            ) == Ok::<(), Seq<char>>(()),
            Err(e) => response_check_of(
                response.v,
                response.ok,
                crate::model::opt_view(response.error),
            ) == Err::<(), Seq<char>>(e@),
        },
{
    if response.v != ALLEYCAT_PROTOCOL_VERSION {
        let head = concat("protocol version mismatch: host=", decimal_string(response.v as u64).as_str());
        return Err(concat(head.as_str(), " client=1"));
    }
    if !response.ok {
        return match &response.error {
            Some(e) => Err(e.clone()),
            None => Err(owned("host rejected request")),
        };
    }
    Ok(())
}

/// A 32-bit length, big-endian.
pub open spec fn be32(n: u32) -> Seq<u8> {
    seq![(n >> 24u32) as u8, (n >> 16u32) as u8, (n >> 8u32) as u8, n as u8]
}

/// A JSON frame: the body's length as four big-endian bytes, then the body;
/// a body longer than `MAX_FRAME_BYTES` is refused.
pub open spec fn json_frame_of(body: Seq<u8>) -> Result<Seq<u8>, Seq<char>> {
    if body.len() > MAX_FRAME_BYTES {
        Err("frame too large: "@ + decimal(body.len()) + " bytes"@)
    } else {
        Ok(be32(body.len() as u32) + body)
    }
}

/// A JSON frame for a body.
pub fn json_frame(body: &[u8]) -> (r: Result<Vec<u8>, String>)
    ensures
        match r {
            Ok(b) => json_frame_of(body@) == Ok::<Seq<u8>, Seq<char>>(b@),
            Err(e) => json_frame_of(body@) == Err::<Seq<u8>, Seq<char>>(e@),
        },
{
    if body.len() > MAX_FRAME_BYTES {
        let head = concat("frame too large: ", decimal_string(body.len() as u64).as_str());
        return Err(concat(head.as_str(), " bytes"));
    }
    let n = body.len() as u32;
    let mut out: Vec<u8> = Vec::new();
    out.push((n >> 24u32) as u8);
    out.push((n >> 16u32) as u8);
    out.push((n >> 8u32) as u8);
    out.push(n as u8);
    let mut i: usize = 0;
    while i < body.len()
        invariant
            i <= body@.len(),
            out@ == be32(n) + body@.take(i as int),
        decreases body@.len() - i,
    {
        out.push(body[i]);
        assert(be32(n) + body@.take(i + 1) =~= (be32(n) + body@.take(i as int)).push(
            body@[i as int],
        ));
        i = i + 1;
    }
    assert(body@.take(body@.len() as int) =~= body@);
    Ok(out)
}

/// The length a JSON frame announces, as a big-endian `u32`.
pub open spec fn frame_length_of(b: Seq<u8>) -> u32 {
    ((b[0] as u32) << 24u32) | ((b[1] as u32) << 16u32) | ((b[2] as u32) << 8u32) | (b[3] as u32)
}

/// The body length that a JSON frame's first four bytes announce, or why it
/// is refused.
pub open spec fn frame_body_len_of(prefix: Seq<u8>) -> Result<nat, Seq<char>> {
    let len = frame_length_of(prefix);
    if len > MAX_FRAME_BYTES {
        Err("frame too large: "@ + decimal(len as nat) + " bytes"@)
    } else {
        Ok(len as nat)
    }
}

/// The body length that a JSON frame's first four bytes announce.
pub fn frame_body_len(prefix: [u8; 4]) -> (r: Result<usize, String>)
    ensures
        match r {
            Ok(n) => frame_body_len_of(prefix@) == Ok::<nat, Seq<char>>(n as nat),
            Err(e) => frame_body_len_of(prefix@) == Err::<nat, Seq<char>>(e@),
        },
{
    let len: u32 = ((prefix[0] as u32) << 24u32) | ((prefix[1] as u32) << 16u32) | ((
    prefix[2] as u32) << 8u32) | (prefix[3] as u32);
    if len as usize > MAX_FRAME_BYTES {
        let head = concat("frame too large: ", decimal_string(len as u64).as_str());
        return Err(concat(head.as_str(), " bytes"));
    }
    Ok(len as usize)
}

proof fn lemma_be32_round_trip(n: u32)
    by (bit_vector)
    ensures
        ((((n >> 24u32) as u8) as u32) << 24u32) | ((((n >> 16u32) as u8) as u32) << 16u32) | ((((
        n >> 8u32) as u8) as u32) << 8u32) | ((n as u8) as u32) == n,
{
}

/// A JSON frame is read back whole: its first four bytes announce the
/// body's length, and the body follows them.
pub proof fn lemma_json_frame_round_trip(body: Seq<u8>)
    requires
        body.len() <= MAX_FRAME_BYTES,
    ensures
        json_frame_of(body) matches Ok(f) && frame_body_len_of(f.take(4)) == Ok::<nat, Seq<char>>(
            body.len(),
        ) && f.skip(4) == body,
{
    let n = body.len() as u32;
    let f = be32(n) + body;
    lemma_be32_round_trip(n);
    assert(f.take(4) =~= be32(n));
    assert(f.skip(4) =~= body);
}

} // verus!
