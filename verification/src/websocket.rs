//! The WebSocket wire format the client speaks over an Alleycat stream:
//! frames (RFC 6455 section 5) and the opening handshake (section 4).
//! Reading and writing the stream is the caller's part; this module makes
//! and reads the bytes.
use vstd::prelude::*;
use vstd::utf8::{decode_utf8, valid_utf8};

use base64::Engine;
use sha1::Digest;

use crate::text::{
    chars_of, concat, decimal, decimal_string, owned, string_of_range, text_eq, trim,
    trim_bounds, starts_with, has_prefix,
};

verus! {

broadcast use vstd::string::group_string_axioms;

/// The largest message the client accepts.
pub const MAX_WS_MESSAGE_BYTES: usize = 134217728;

/// The key suffix fixed by RFC 6455 for `Sec-WebSocket-Accept`.
pub const WEBSOCKET_GUID: &'static str = "258EAFA5-E914-47DA-95CA-C5AB0DC85B11";

/// A message frame as the client sees it.
#[derive(Debug, PartialEq, Eq)]
pub enum WsFrame {
    Text(String),
    Ping(Vec<u8>),
    Pong,
    Close,
}

pub enum FrameView {
    Text(Seq<char>),
    Ping(Seq<u8>),
    Pong,
    Close,
}

impl View for WsFrame {
    type V = FrameView;

    open spec fn view(&self) -> FrameView {
        match self {
            WsFrame::Text(s) => FrameView::Text(s@),
            WsFrame::Ping(p) => FrameView::Ping(p@),
            WsFrame::Pong => FrameView::Pong,
            WsFrame::Close => FrameView::Close,
        }
    }
}

/// The part of a frame that is still to be read.
#[derive(Debug, Clone, Copy, PartialEq, Eq)]
pub enum FramePart {
    Header,
    Length16,
    Length64,
    Mask,
    Payload,
}

/// What the bytes read so far make of the next frame.
#[derive(Debug, PartialEq, Eq)]
pub enum FrameRead {
    /// The buffer must grow to `total` bytes; `part` is what those bytes hold.
    NeedMore { total: usize, part: FramePart },
    /// A frame, made of the first `used` bytes.
    Frame { frame: WsFrame, used: usize },
    /// A frame the client passes over (continuation or unknown opcode),
    /// made of the first `used` bytes.
    Skip { used: usize },
    /// The frame cannot be taken.
    Fail { message: String },
}

pub enum ReadView {
    NeedMore(nat, FramePart),
    Frame(FrameView, nat),
    Skip(nat),
    Fail(Seq<char>),
}

impl View for FrameRead {
    type V = ReadView;

    open spec fn view(&self) -> ReadView {
        match self {
            FrameRead::NeedMore { total, part } => ReadView::NeedMore(*total as nat, *part),
            FrameRead::Frame { frame, used } => ReadView::Frame(frame@, *used as nat),
            FrameRead::Skip { used } => ReadView::Skip(*used as nat),
            FrameRead::Fail { message } => ReadView::Fail(message@),
        }
    }
}

/// A 16-bit length, big-endian.
pub open spec fn be16(n: u16) -> Seq<u8> {
    seq![(n >> 8u16) as u8, n as u8]
}

/// A 64-bit length, big-endian.
pub open spec fn be64(n: u64) -> Seq<u8> {
    seq![
        (n >> 56u64) as u8,
        (n >> 48u64) as u8,
        (n >> 40u64) as u8,
        (n >> 32u64) as u8,
        (n >> 24u64) as u8,
        (n >> 16u64) as u8,
        (n >> 8u64) as u8,
        n as u8,
    ]
}

pub open spec fn from_be16(a: u8, b: u8) -> u16 {
    ((a as u16) << 8u16) | (b as u16)
}

pub open spec fn from_be64(b: Seq<u8>) -> u64 {
    ((b[0] as u64) << 56u64) | ((b[1] as u64) << 48u64) | ((b[2] as u64) << 40u64) | ((
    b[3] as u64) << 32u64) | ((b[4] as u64) << 24u64) | ((b[5] as u64) << 16u64) | ((
    b[6] as u64) << 8u64) | (b[7] as u64)
}

/// The header of a frame: FIN set with the opcode, then the payload
/// length in the shortest of its three forms, with the mask bit.
pub open spec fn frame_header(opcode: u8, len: u64, masked: bool) -> Seq<u8> {
    let first = 0x80u8 | (opcode & 0x0fu8);
    let mask_bit: u8 = if masked {
        0x80u8
    } else {
        0u8
    };
    if len <= 125 {
        seq![first, mask_bit | (len as u8)]
    } else if len <= 65535 {
        seq![first, mask_bit | 126u8] + be16(len as u16)
    } else {
        seq![first, mask_bit | 127u8] + be64(len)
    }
}

/// Each payload byte XORed with the mask byte at its index modulo four.
pub open spec fn apply_mask(payload: Seq<u8>, mask: Seq<u8>) -> Seq<u8> {
    Seq::new(payload.len(), |i: int| payload[i] ^ mask[i % 4])
}

/// A whole frame: header, then the mask and the masked payload, or the
/// payload alone.
pub open spec fn frame_of(opcode: u8, payload: Seq<u8>, mask: Option<Seq<u8>>) -> Seq<u8> {
    match mask {
        Some(m) => frame_header(opcode, payload.len() as u64, true) + m + apply_mask(payload, m),
        None => frame_header(opcode, payload.len() as u64, false) + payload,
    }
}

/// The text of std's error when `bytes` are not UTF-8.
pub uninterp spec fn utf8_error_text(bytes: Seq<u8>) -> Seq<char>;

/// The frame a complete payload makes, by opcode.
pub open spec fn frame_from(opcode: u8, payload: Seq<u8>, used: nat) -> ReadView {
    if opcode == 1 {
        if valid_utf8(payload) {
            ReadView::Frame(FrameView::Text(decode_utf8(payload)), used)
        } else {
            ReadView::Fail("decoding websocket text: "@ + utf8_error_text(payload))
        }
    } else if opcode == 8 {
        ReadView::Frame(FrameView::Close, used)
    } else if opcode == 9 {
        ReadView::Frame(FrameView::Ping(payload), used)
    } else if opcode == 10 {
        ReadView::Frame(FrameView::Pong, used)
    } else {
        ReadView::Skip(used)
    }
}

/// How many length bytes follow the first two header bytes.
pub open spec fn extra_length_bytes(len7: u8) -> nat {
    if len7 == 126 {
        2
    } else if len7 == 127 {
        8
    } else {
        0
    }
}

/// The payload length a header gives.
pub open spec fn header_length(b: Seq<u8>) -> u64 {
    let len7 = b[1] & 0x7fu8;
    if len7 == 126 {
        from_be16(b[2], b[3]) as u64
    } else if len7 == 127 {
        from_be64(b.subrange(2, 10))
    } else {
        len7 as u64
    }
}

/// What the bytes read so far make of the next frame. The payload length is
/// taken as a `usize`, as the client reads it: on a 32-bit target a 64-bit
/// length keeps its low 32 bits.
pub open spec fn read_of(b: Seq<u8>) -> ReadView {
    if b.len() < 2 {
        ReadView::NeedMore(2, FramePart::Header)
    } else {
        let opcode = b[0] & 0x0fu8;
        let masked = (b[1] & 0x80u8) != 0;
        let len7 = b[1] & 0x7fu8;
        let ext = extra_length_bytes(len7);
        if b.len() < 2 + ext {
            ReadView::NeedMore(
                2 + ext,
                if len7 == 126 {
                    FramePart::Length16
                } else {
                    FramePart::Length64
                },
            )
        } else {
            let len = header_length(b) as usize;
            if len > MAX_WS_MESSAGE_BYTES {
                ReadView::Fail(
                    "websocket message too large: "@ + decimal(header_length(b) as nat) + " bytes"@,
                )
            } else {
                let mask_end = 2 + ext + if masked {
                    4nat
                } else {
                    0nat
                };
                if b.len() < mask_end {
                    ReadView::NeedMore(mask_end, FramePart::Mask)
                } else if b.len() < mask_end + len {
                    ReadView::NeedMore((mask_end + len) as nat, FramePart::Payload)
                } else {
                    let raw = b.subrange(mask_end as int, mask_end + len);
                    let payload = if masked {
                        apply_mask(raw, b.subrange((2 + ext) as int, mask_end as int))
                    } else {
                        raw
                    };
                    frame_from(opcode, payload, (mask_end + len) as nat)
                }
            }
        }
    }
}

/// Reads `bytes` as UTF-8 (`String::from_utf8`). The contract claims that it
/// succeeds exactly on valid UTF-8, with the characters the bytes encode,
/// and that the error's text depends on the bytes alone.
#[verifier::external_body]
pub(crate) fn string_from_utf8(bytes: Vec<u8>) -> (r: Result<String, String>)
    ensures
        match r {
            Ok(s) => valid_utf8(bytes@) && s@ == decode_utf8(bytes@),
            Err(e) => !valid_utf8(bytes@) && e@ == utf8_error_text(bytes@),
        },
{
    String::from_utf8(bytes).map_err(|error| error.to_string())
}

/// Fills a buffer of `n` bytes from the system's random source
/// (`getrandom::fill`). The contract claims only the length; the bytes are
/// random and the error's text is the system's.
#[verifier::external_body]
pub(crate) fn random_bytes(n: usize) -> (r: Result<Vec<u8>, String>)
    ensures
        r matches Ok(b) ==> b@.len() == n,
{
    let mut buf = vec![0u8; n];
    getrandom::fill(&mut buf).map(|_| buf).map_err(|error| error.to_string())
}

/// Reads the bytes so far of the next frame.
pub fn read_frame(buf: &[u8]) -> (r: FrameRead)
    ensures
        r@ == read_of(buf@),
{
    if buf.len() < 2 {
        return FrameRead::NeedMore { total: 2, part: FramePart::Header };
    }
    let opcode = buf[0] & 0x0f;
    let masked = (buf[1] & 0x80) != 0;
    let len7 = buf[1] & 0x7f;
    let ext: usize = if len7 == 126 {
        2
    } else if len7 == 127 {
        8
    } else {
        0
    };
    if buf.len() < 2 + ext {
        let part = if len7 == 126 {
            FramePart::Length16
        } else {
            FramePart::Length64
        };
        return FrameRead::NeedMore { total: 2 + ext, part };
    }
    let len: u64 = if len7 == 126 {
        (((buf[2] as u16) << 8u16) | (buf[3] as u16)) as u64
    } else if len7 == 127 {
        proof {
            assert(buf@.subrange(2, 10)[0] == buf@[2]);
            assert(buf@.subrange(2, 10)[1] == buf@[3]);
            assert(buf@.subrange(2, 10)[2] == buf@[4]);
            assert(buf@.subrange(2, 10)[3] == buf@[5]);
            assert(buf@.subrange(2, 10)[4] == buf@[6]);
            assert(buf@.subrange(2, 10)[5] == buf@[7]);
            assert(buf@.subrange(2, 10)[6] == buf@[8]);
            assert(buf@.subrange(2, 10)[7] == buf@[9]);
        }
        ((buf[2] as u64) << 56u64) | ((buf[3] as u64) << 48u64) | ((buf[4] as u64) << 40u64) | ((
        buf[5] as u64) << 32u64) | ((buf[6] as u64) << 24u64) | ((buf[7] as u64) << 16u64) | ((
        buf[8] as u64) << 8u64) | (buf[9] as u64)
    } else {
        len7 as u64
    };
    if len as usize > MAX_WS_MESSAGE_BYTES {
        let head = concat("websocket message too large: ", decimal_string(len).as_str());
        return FrameRead::Fail { message: concat(head.as_str(), " bytes") };
    }
    let mask_end: usize = 2 + ext + if masked {
        4
    } else {
        0
    };
    if buf.len() < mask_end {
        return FrameRead::NeedMore { total: mask_end, part: FramePart::Mask };
    }
    let len = len as usize;
    if buf.len() - mask_end < len {
        return FrameRead::NeedMore { total: mask_end + len, part: FramePart::Payload };
    }
    let ghost raw = buf@.subrange(mask_end as int, mask_end + len);
    let ghost mask = buf@.subrange(2 + ext, mask_end as int);
    let mut payload: Vec<u8> = Vec::new();
    let mut i: usize = 0;
    while i < len
        invariant
            i <= len,
            ext <= 8,
            mask_end + len <= buf.len(),
            mask_end == 2 + ext + (if masked {
                4int
            } else {
                0int
            }),
            raw == buf@.subrange(mask_end as int, mask_end + len),
            mask == buf@.subrange(2 + ext, mask_end as int),
            payload@ == (if masked {
                apply_mask(raw, mask)
            } else {
                raw
            }).take(i as int),
        decreases len - i,
    {
        let byte = if masked {
            buf[mask_end + i] ^ buf[2 + ext + i % 4]
        } else {
            buf[mask_end + i]
        };
        proof {
            let full = if masked {
                apply_mask(raw, mask)
            } else {
                raw
            };
            assert(full[i as int] == byte);
            assert(full.take(i + 1) =~= full.take(i as int).push(byte));
        }
        payload.push(byte);
        i = i + 1;
    }
    proof {
        let full = if masked {
            apply_mask(raw, mask)
        } else {
            raw
        };
        assert(full.take(len as int) =~= full);
    }
    let used = mask_end + len;
    if opcode == 1 {
        match string_from_utf8(payload) {
            Ok(text) => FrameRead::Frame { frame: WsFrame::Text(text), used },
            Err(e) => FrameRead::Fail { message: concat("decoding websocket text: ", e.as_str()) },
        }
    } else if opcode == 8 {
        FrameRead::Frame { frame: WsFrame::Close, used }
    } else if opcode == 9 {
        FrameRead::Frame { frame: WsFrame::Ping(payload), used }
    } else if opcode == 10 {
        FrameRead::Frame { frame: WsFrame::Pong, used }
    } else {
        FrameRead::Skip { used }
    }
}

fn push_all(out: &mut Vec<u8>, bytes: &[u8])
    ensures
        final(out)@ == old(out)@ + bytes@,
{
    let mut i: usize = 0;
    while i < bytes.len()
        invariant
            i <= bytes@.len(),
            out@ == old(out)@ + bytes@.take(i as int),
        decreases bytes@.len() - i,
    {
        out.push(bytes[i]);
        assert(old(out)@ + bytes@.take(i + 1) =~= (old(out)@ + bytes@.take(i as int)).push(
            bytes@[i as int],
        ));
        i = i + 1;
    }
    assert(bytes@.take(bytes@.len() as int) =~= bytes@);
}

/// The header of a frame.
fn header_bytes(opcode: u8, len: usize, masked: bool) -> (r: Vec<u8>)
    ensures
        r@ == frame_header(opcode, len as u64, masked),
{
    let mut out: Vec<u8> = Vec::new();
    out.push(0x80u8 | (opcode & 0x0f));
    let mask_bit: u8 = if masked {
        0x80
    } else {
        0
    };
    if len <= 125 {
        out.push(mask_bit | (len as u8));
        assert(out@ =~= frame_header(opcode, len as u64, masked));
    } else if len <= 65535 {
        out.push(mask_bit | 126u8);
        let l = len as u16;
        out.push((l >> 8u16) as u8);
        out.push(l as u8);
        assert(out@ =~= frame_header(opcode, len as u64, masked));
    } else {
        out.push(mask_bit | 127u8);
        let l = len as u64;
        out.push((l >> 56u64) as u8);
        out.push((l >> 48u64) as u8);
        out.push((l >> 40u64) as u8);
        out.push((l >> 32u64) as u8);
        out.push((l >> 24u64) as u8);
        out.push((l >> 16u64) as u8);
        out.push((l >> 8u64) as u8);
        out.push(l as u8);
        assert(out@ =~= frame_header(opcode, len as u64, masked));
    }
    out
}

/// The bytes of a frame with the given opcode and payload, masked with
/// `mask` when there is one.
pub fn frame_bytes(opcode: u8, payload: &[u8], mask: Option<[u8; 4]>) -> (r: Vec<u8>)
    ensures
        r@ == frame_of(
            opcode,
            payload@,
            match mask {
                Some(m) => Some(m@),
                None => None,
            },
        ),
{
    match mask {
        Some(m) => {
            let mut out = header_bytes(opcode, payload.len(), true);
            push_all(&mut out, &m);
            let ghost start = out@;
            let mut i: usize = 0;
            while i < payload.len()
                invariant
                    i <= payload@.len(),
                    m@.len() == 4,
                    out@ == start + apply_mask(payload@, m@).take(i as int),
                decreases payload@.len() - i,
            {
                let byte = payload[i] ^ m[i % 4];
                out.push(byte);
                assert(apply_mask(payload@, m@).take(i + 1) =~= apply_mask(payload@, m@).take(
                    i as int,
                ).push(byte));
                assert(start + apply_mask(payload@, m@).take(i + 1) =~= (start + apply_mask(
                    payload@,
                    m@,
                ).take(i as int)).push(byte));
                i = i + 1;
            }
            assert(apply_mask(payload@, m@).take(payload@.len() as int) =~= apply_mask(
                payload@,
                m@,
            ));
            out
        },
        None => {
            let mut out = header_bytes(opcode, payload.len(), false);
            push_all(&mut out, payload);
            out
        },
    }
}

/// A frame made ready to send: masked with fresh random bytes when
/// `masked`, as a client must.
pub fn encode_frame(opcode: u8, payload: &[u8], masked: bool) -> (r: Result<Vec<u8>, String>)
    ensures
        match r {
            Ok(b) => if masked {
                exists|m: Seq<u8>| m.len() == 4 && b@ == frame_of(opcode, payload@, Some(m))
            } else {
                b@ == frame_of(opcode, payload@, None)
            },
            Err(e) => masked && exists|t: Seq<char>| e@ == "generating websocket mask: "@ + t,
        },
{
    if masked {
        match random_bytes(4) {
            Ok(b) => {
                let m: [u8; 4] = [b[0], b[1], b[2], b[3]];
                let out = frame_bytes(opcode, payload, Some(m));
                Ok(out)
            },
            Err(e) => Err(concat("generating websocket mask: ", e.as_str())),
        }
    } else {
        Ok(frame_bytes(opcode, payload, None))
    }
}

/// A text frame, masked.
pub fn encode_text_frame(payload: &[u8]) -> (r: Result<Vec<u8>, String>)
    ensures
        match r {
            Ok(b) => exists|m: Seq<u8>| m.len() == 4 && b@ == frame_of(1, payload@, Some(m)),
            Err(e) => exists|t: Seq<char>| e@ == "generating websocket mask: "@ + t,
        },
{
    encode_frame(0x1, payload, true)
}

/// A control frame, masked; a control payload holds at most 125 bytes.
pub fn encode_control_frame(opcode: u8, payload: &[u8]) -> (r: Result<Vec<u8>, String>)
    ensures
        payload@.len() > 125 ==> (r matches Err(e) && e@ == "websocket control frame too large"@),
        payload@.len() <= 125 ==> match r {
            Ok(b) => exists|m: Seq<u8>| m.len() == 4 && b@ == frame_of(opcode, payload@, Some(m)),
            Err(e) => exists|t: Seq<char>| e@ == "generating websocket mask: "@ + t,
        },
{
    if payload.len() > 125 {
        return Err(owned("websocket control frame too large"));
    }
    encode_frame(opcode, payload, true)
}

/// What to do with a frame that was read.
#[derive(Debug, PartialEq, Eq)]
pub enum FrameAction {
    /// Hand the text to the page.
    Deliver(String),
    /// The peer closed the connection.
    Closed,
    /// Answer with a pong carrying this payload, and read on.
    Pong(Vec<u8>),
    /// Read on.
    Ignore,
}

/// What the client does with a frame while it waits for a message.
pub fn frame_action(frame: WsFrame) -> (r: FrameAction)
    ensures
        match frame {
            WsFrame::Text(t) => r == FrameAction::Deliver(t),
            WsFrame::Close => r == FrameAction::Closed,
            WsFrame::Ping(p) => r == FrameAction::Pong(p),
            WsFrame::Pong => r == FrameAction::Ignore,
        },
{
    match frame {
        WsFrame::Text(t) => FrameAction::Deliver(t),
        WsFrame::Close => FrameAction::Closed,
        WsFrame::Ping(p) => FrameAction::Pong(p),
        WsFrame::Pong => FrameAction::Ignore,
    }
}

// ---------------------------------------------------------------------------
// The opening handshake.
/// The character of the standard Base64 alphabet for `v < 64`.
pub open spec fn base64_char(v: nat) -> char {
    if v < 26 {
        ((65 + v) as u32) as char
    } else if v < 52 {
        ((97 + v - 26) as u32) as char
    } else if v < 62 {
        ((48 + v - 52) as u32) as char
    } else if v == 62 {
        '+'
    } else {
        '/'
    }
}

/// Standard Base64 with padding (RFC 4648 section 4): each three bytes
/// become four characters; a last group of one or two bytes is padded
/// with `=`.
pub open spec fn base64(data: Seq<u8>) -> Seq<char>
    decreases data.len(),
{
    if data.len() == 0 {
        Seq::empty()
    } else if data.len() == 1 {
        let a = data[0] as nat;
        seq![base64_char(a / 4), base64_char((a % 4) * 16), '=', '=']
    } else if data.len() == 2 {
        let a = data[0] as nat;
        let b = data[1] as nat;
        seq![base64_char(a / 4), base64_char((a % 4) * 16 + b / 16), base64_char((b % 16) * 4), '=']
    } else {
        let a = data[0] as nat;
        let b = data[1] as nat;
        let c = data[2] as nat;
        seq![
            base64_char(a / 4),
            base64_char((a % 4) * 16 + b / 16),
            base64_char((b % 16) * 4 + c / 64),
            base64_char(c % 64),
        ] + base64(data.skip(3))
    }
}

/// The SHA-1 digest of `data`.
pub uninterp spec fn sha1_of(data: Seq<u8>) -> Seq<u8>;

/// Standard Base64 with padding, by the `base64` crate's `STANDARD` engine.
/// The contract claims the encoding RFC 4648 section 4 gives.
#[verifier::external_body]
pub(crate) fn base64_encode(data: &[u8]) -> (r: String)
    ensures
        r@ == base64(data@),
{
    base64::engine::general_purpose::STANDARD.encode(data)
}

/// The SHA-1 digest of `data`, by the `sha1` crate (`Sha1::digest`). The
/// contract claims twenty bytes that depend on `data` alone.
#[verifier::external_body]
pub(crate) fn sha1_digest(data: &[u8]) -> (r: Vec<u8>)
    ensures
        r@ == sha1_of(data@),
        r@.len() == 20,
{
    sha1::Sha1::digest(data).to_vec()
}

/// `Sec-WebSocket-Accept` for a `Sec-WebSocket-Key`: the Base64 of the SHA-1
/// digest of the key followed by the RFC 6455 GUID.
pub open spec fn accept_key_of(key: Seq<char>) -> Seq<char> {
    base64(sha1_of(vstd::utf8::encode_utf8(key) + vstd::utf8::encode_utf8(WEBSOCKET_GUID@)))
}

/// `Sec-WebSocket-Accept` for a `Sec-WebSocket-Key`.
pub fn websocket_accept_key(key: &str) -> (r: String)
    ensures
        r@ == accept_key_of(key@),
{
    let mut data: Vec<u8> = Vec::new();
    push_all(&mut data, key.as_bytes());
    push_all(&mut data, WEBSOCKET_GUID.as_bytes());
    let digest = sha1_digest(&data);
    base64_encode(&digest)
}

/// A fresh `Sec-WebSocket-Key`: sixteen random bytes in Base64.
pub fn websocket_key() -> (r: Result<String, String>)
    ensures
        match r {
            Ok(k) => exists|b: Seq<u8>| b.len() == 16 && k@ == base64(b),
            Err(e) => exists|t: Seq<char>| e@ == "generating websocket key: "@ + t,
        },
{
    match random_bytes(16) {
        Ok(nonce) => Ok(base64_encode(&nonce)),
        Err(e) => Err(concat("generating websocket key: ", e.as_str())),
    }
}

/// The HTTP request that asks the proxy to upgrade the stream to a
/// WebSocket.
pub open spec fn handshake_request_of(key: Seq<char>) -> Seq<char> {
    "GET /rpc HTTP/1.1\r\nHost: codex-app-server-proxy.localhost\r\nConnection: Upgrade\r\nUpgrade: websocket\r\nSec-WebSocket-Version: 13\r\nSec-WebSocket-Key: "@
        + key + "\r\n\r\n"@
}

/// The HTTP request that asks the proxy to upgrade the stream to a
/// WebSocket.
pub fn handshake_request(key: &str) -> (r: String)
    ensures
        r@ == handshake_request_of(key@),
{
    let head = concat(
        "GET /rpc HTTP/1.1\r\nHost: codex-app-server-proxy.localhost\r\nConnection: Upgrade\r\nUpgrade: websocket\r\nSec-WebSocket-Version: 13\r\nSec-WebSocket-Key: ",
        key,
    );
    concat(head.as_str(), "\r\n\r\n")
}

/// The most bytes the handshake response may take.
pub const MAX_HANDSHAKE_BYTES: usize = 8192;

/// What the bytes read so far make of the handshake response.
#[derive(Debug, PartialEq, Eq)]
pub enum HandshakeRead {
    /// One more byte is needed.
    NeedByte,
    /// The response, up to and with the blank line that ends it.
    Done(String),
    /// The response cannot be taken.
    Fail(String),
}

pub enum HandshakeView {
    NeedByte,
    Done(Seq<char>),
    Fail(Seq<char>),
}

impl View for HandshakeRead {
    type V = HandshakeView;

    open spec fn view(&self) -> HandshakeView {
        match self {
            HandshakeRead::NeedByte => HandshakeView::NeedByte,
            HandshakeRead::Done(s) => HandshakeView::Done(s@),
            HandshakeRead::Fail(s) => HandshakeView::Fail(s@),
        }
    }
}

/// The bytes end with a blank line (`\r\n\r\n`).
pub open spec fn ends_with_blank_line(b: Seq<u8>) -> bool {
    b.len() >= 4 && b[b.len() - 4] == 13 && b[b.len() - 3] == 10 && b[b.len() - 2] == 13
        && b[b.len() - 1] == 10
}

/// What the bytes read so far make of the handshake response: the bytes
/// are read one at a time until they end with a blank line, and at most
/// `MAX_HANDSHAKE_BYTES` of them.
pub open spec fn handshake_read_of(b: Seq<u8>) -> HandshakeView {
    if ends_with_blank_line(b) {
        if valid_utf8(b) {
            HandshakeView::Done(decode_utf8(b))
        } else {
            HandshakeView::Fail("decoding websocket handshake: "@ + utf8_error_text(b))
        }
    } else if b.len() >= MAX_HANDSHAKE_BYTES {
        HandshakeView::Fail("websocket handshake response too large"@)
    } else {
        HandshakeView::NeedByte
    }
}

/// What the bytes read so far make of the handshake response.
pub fn read_handshake(buf: &[u8]) -> (r: HandshakeRead)
    ensures
        r@ == handshake_read_of(buf@),
{
    let n = buf.len();
    if n >= 4 && buf[n - 4] == 13 && buf[n - 3] == 10 && buf[n - 2] == 13 && buf[n - 1] == 10 {
        let mut bytes: Vec<u8> = Vec::new();
        push_all(&mut bytes, buf);
        assert(bytes@ =~= buf@);
        match string_from_utf8(bytes) {
            Ok(s) => HandshakeRead::Done(s),
            Err(e) => HandshakeRead::Fail(concat("decoding websocket handshake: ", e.as_str())),
        }
    } else if n >= MAX_HANDSHAKE_BYTES {
        HandshakeRead::Fail(owned("websocket handshake response too large"))
    } else {
        HandshakeRead::NeedByte
    }
}

/// A line break (`\r\n`) begins at `j`.
pub open spec fn crlf_at(s: Seq<char>, j: int) -> bool {
    0 <= j && j + 1 < s.len() && s[j] == '\r' && s[j + 1] == '\n'
}

/// Where the first line break begins.
pub open spec fn crlf_index(s: Seq<char>) -> Option<int>
    decreases s.len(),
{
    if s.len() < 2 {
        None
    } else if s[0] == '\r' && s[1] == '\n' {
        Some(0)
    } else {
        match crlf_index(s.drop_first()) {
            Some(i) => Some(i + 1),
            None => None,
        }
    }
}

pub proof fn lemma_crlf_index(s: Seq<char>)
    ensures
        match crlf_index(s) {
            Some(i) => crlf_at(s, i) && forall|j: int| 0 <= j < i ==> !crlf_at(s, j),
            None => forall|j: int| !crlf_at(s, j),
        },
    decreases s.len(),
{
    if s.len() >= 2 && !(s[0] == '\r' && s[1] == '\n') {
        let t = s.drop_first();
        lemma_crlf_index(t);
        assert forall|j: int| 1 <= j implies crlf_at(s, j) == crlf_at(t, j - 1) by {}
    }
}

/// The lines of an HTTP response (`str::split("\r\n")`).
pub open spec fn split_lines(s: Seq<char>) -> Seq<Seq<char>>
    decreases s.len(),
{
    match crlf_index(s) {
        Some(i) => {
            proof {
                lemma_crlf_index(s);
            }
            seq![s.take(i)] + split_lines(s.skip(i + 2))
        },
        None => seq![s],
    }
}

/// Where the first `:` is.
pub open spec fn colon_index(s: Seq<char>) -> Option<int>
    decreases s.len(),
{
    if s.len() == 0 {
        None
    } else if s[0] == ':' {
        Some(0)
    } else {
        match colon_index(s.drop_first()) {
            Some(i) => Some(i + 1),
            None => None,
        }
    }
}

proof fn lemma_colon_index(s: Seq<char>)
    ensures
        match colon_index(s) {
            Some(i) => 0 <= i < s.len() && s[i] == ':' && forall|j: int| 0 <= j < i ==> s[j] != ':',
            None => forall|j: int| 0 <= j < s.len() ==> s[j] != ':',
        },
    decreases s.len(),
{
    if s.len() > 0 && s[0] != ':' {
        lemma_colon_index(s.drop_first());
        assert forall|j: int| 1 <= j < s.len() implies s[j] == s.drop_first()[j - 1] by {}
    }
}

/// `u8::to_ascii_lowercase`.
pub open spec fn ascii_lower(b: u8) -> u8 {
    if 65 <= b <= 90 {
        (b + 32) as u8
    } else {
        b
    }
}

/// `eq_ignore_ascii_case` over bytes.
pub open spec fn same_ignoring_ascii_case(x: Seq<u8>, y: Seq<u8>) -> bool {
    x.len() == y.len() && forall|i: int| 0 <= i < x.len() ==> ascii_lower(x[i]) == ascii_lower(y[i])
}

/// The trimmed value of a `Sec-WebSocket-Accept` header line, in any case.
pub open spec fn accept_value_of(line: Seq<char>) -> Option<Seq<char>> {
    match colon_index(line) {
        Some(i) => if same_ignoring_ascii_case(
            vstd::utf8::encode_utf8(line.take(i)),
            vstd::utf8::encode_utf8("sec-websocket-accept"@),
        ) {
            Some(trim(line.skip(i + 1)))
        } else {
            None
        },
        None => None,
    }
}

/// The value of the last `Sec-WebSocket-Accept` header among the lines.
pub open spec fn accept_of(lines: Seq<Seq<char>>) -> Option<Seq<char>>
    decreases lines.len(),
{
    if lines.len() == 0 {
        None
    } else {
        match accept_value_of(lines.last()) {
            Some(v) => Some(v),
            None => accept_of(lines.drop_last()),
        }
    }
}

/// The checks made of the handshake response: a `101` status, and a
/// `Sec-WebSocket-Accept` that is the one expected.
pub open spec fn handshake_check_of(response: Seq<char>, expected: Seq<char>) -> Result<
    (),
    Seq<char>,
> {
    let lines = split_lines(response);
    let status = lines[0];
    if !starts_with(status, "HTTP/1.1 101"@) && !starts_with(status, "HTTP/1.0 101"@) {
        Err("websocket upgrade failed: "@ + status)
    } else {
        match accept_of(lines.drop_first()) {
            Some(v) => if v == expected {
                Ok(())
            } else {
                Err("websocket accept mismatch: expected "@ + expected + ", got "@ + v)
            },
            None => Err("websocket upgrade missing Sec-WebSocket-Accept"@),
        }
    }
}

/// The lines of an HTTP response.
fn response_lines(response: &str) -> (r: Vec<String>)
    ensures
        r@.map_values(|l: String| l@) == split_lines(response@),
{
    let cs = chars_of(response);
    let n = cs.len();
    let mut lines: Vec<String> = Vec::new();
    let mut start: usize = 0;
    let mut i: usize = 0;
    assert(cs@.skip(0) =~= cs@);
    assert(lines@.map_values(|l: String| l@) + split_lines(cs@.skip(0)) =~= split_lines(cs@));
    while i < n && i + 1 < n
        invariant
            cs@ == response@,
            n == cs@.len(),
            start <= i <= n,
            split_lines(cs@) == lines@.map_values(|l: String| l@) + split_lines(cs@.skip(
                start as int,
            )),
            forall|j: int| start <= j < i ==> !crlf_at(cs@, j),
        decreases n - i,
    {
        if cs[i] == '\r' && cs[i + 1] == '\n' {
            let line = string_of_range(&cs, start, i);
            proof {
                let rest = cs@.skip(start as int);
                assert forall|j: int| 0 <= j < i - start implies !crlf_at(rest, j) by {
                    assert(crlf_at(rest, j) == crlf_at(cs@, j + start));
                }
                assert(crlf_at(rest, i - start));
                lemma_crlf_index(rest);
                if crlf_index(rest) != Some(i - start) {
                    match crlf_index(rest) {
                        Some(k) => {
                            if k < i - start {
                            } else {
                                assert(!crlf_at(rest, i - start));
                            }
                        },
                        None => {},
                    }
                }
                assert(rest.take(i - start) =~= cs@.subrange(start as int, i as int));
                assert(rest.skip(i - start + 2) =~= cs@.skip(i + 2));
                let ghost before = lines@.map_values(|l: String| l@);
                assert(lines@.push(line).map_values(|l: String| l@) =~= before.push(line@));
                assert(before + split_lines(rest) =~= before.push(line@) + split_lines(cs@.skip(i + 2)));
            }
            lines.push(line);
            start = i + 2;
            i = i + 2;
        } else {
            i = i + 1;
        }
    }
    let last = string_of_range(&cs, start, n);
    proof {
        let rest = cs@.skip(start as int);
        assert forall|j: int| !crlf_at(rest, j) by {
            if crlf_at(rest, j) {
                assert(crlf_at(cs@, j + start));
            }
        }
        lemma_crlf_index(rest);
        if crlf_index(rest) is Some {
            assert(false);
        }
        assert(rest =~= cs@.subrange(start as int, n as int));
        let ghost before = lines@.map_values(|l: String| l@);
        assert(lines@.push(last).map_values(|l: String| l@) =~= before.push(last@));
        assert(before + seq![rest] =~= before.push(last@));
    }
    lines.push(last);
    lines
}

/// `a.eq_ignore_ascii_case(b)`.
fn eq_ignoring_ascii_case(a: &str, b: &str) -> (r: bool)
    ensures
        r == same_ignoring_ascii_case(vstd::utf8::encode_utf8(a@), vstd::utf8::encode_utf8(b@)),
{
    let x = a.as_bytes();
    let y = b.as_bytes();
    if x.len() != y.len() {
        return false;
    }
    let mut i: usize = 0;
    while i < x.len()
        invariant
            x@ == vstd::utf8::encode_utf8(a@),
            y@ == vstd::utf8::encode_utf8(b@),
            x@.len() == y@.len(),
            i <= x@.len(),
            forall|j: int| 0 <= j < i ==> ascii_lower(x@[j]) == ascii_lower(y@[j]),
        decreases x@.len() - i,
    {
        let p = if 65 <= x[i] && x[i] <= 90 {
            x[i] + 32
        } else {
            x[i]
        };
        let q = if 65 <= y[i] && y[i] <= 90 {
            y[i] + 32
        } else {
            y[i]
        };
        if p != q {
            return false;
        }
        i = i + 1;
    }
    true
}

/// The trimmed value of a `Sec-WebSocket-Accept` header line.
fn accept_value(line: &str) -> (r: Option<String>)
    ensures
        crate::model::opt_view(r) == accept_value_of(line@),
{
    let cs = chars_of(line);
    let mut i: usize = 0;
    while i < cs.len()
        invariant
            cs@ == line@,
            i <= cs@.len(),
            forall|j: int| 0 <= j < i ==> cs@[j] != ':',
        decreases cs@.len() - i,
    {
        if cs[i] == ':' {
            proof {
                lemma_colon_index(cs@);
                match colon_index(cs@) {
                    Some(k) => {
                        if k < i {
                        } else if k > i {
                        }
                    },
                    None => {},
                }
            }
            let name = string_of_range(&cs, 0, i);
            assert(cs@.subrange(0, i as int) =~= cs@.take(i as int));
            if eq_ignoring_ascii_case(name.as_str(), "sec-websocket-accept") {
                let (lo, hi) = trim_bounds(&cs, i + 1, cs.len());
                assert(cs@.subrange(i + 1, cs@.len() as int) =~= cs@.skip(i + 1));
                return Some(string_of_range(&cs, lo, hi));
            }
            return None;
        }
        i = i + 1;
    }
    proof {
        lemma_colon_index(cs@);
    }
    None
}

/// The checks made of the handshake response.
pub fn validate_websocket_handshake_response(response: &str, expected_accept: &str) -> (r: Result<
    (),
    String,
>)
    ensures
        match r {
            Ok(()) => handshake_check_of(response@, expected_accept@) == Ok::<(), Seq<char>>(()),
            Err(e) => handshake_check_of(response@, expected_accept@) == Err::<(), Seq<char>>(e@),
        },
{
    let lines = response_lines(response);
    let ghost views = lines@.map_values(|l: String| l@);
    proof {
        lemma_split_lines_nonempty(response@);
    }
    let status_chars = chars_of(lines[0].as_str());
    if !has_prefix(&status_chars, "HTTP/1.1 101") && !has_prefix(&status_chars, "HTTP/1.0 101") {
        return Err(concat("websocket upgrade failed: ", lines[0].as_str()));
    }
    let mut accept: Option<String> = None;
    let mut k: usize = 1;
    while k < lines.len()
        invariant
            1 <= k <= lines@.len(),
            views == lines@.map_values(|l: String| l@),
            crate::model::opt_view(accept) == accept_of(views.drop_first().take(k - 1)),
        decreases lines@.len() - k,
    {
        let found = accept_value(lines[k].as_str());
        proof {
            let t = views.drop_first().take(k as int);
            assert(t.drop_last() =~= views.drop_first().take(k - 1));
            assert(t.last() == lines@[k as int]@);
        }
        match found {
            Some(v) => {
                accept = Some(v);
            },
            None => {},
        }
        k = k + 1;
    }
    assert(views.drop_first().take(lines@.len() - 1) =~= views.drop_first());
    match accept {
        Some(v) => {
            if text_eq(v.as_str(), expected_accept) {
                Ok(())
            } else {
                let a = concat("websocket accept mismatch: expected ", expected_accept);
                let b = concat(a.as_str(), ", got ");
                Err(concat(b.as_str(), v.as_str()))
            }
        },
        None => Err(owned("websocket upgrade missing Sec-WebSocket-Accept")),
    }
}

proof fn lemma_split_lines_nonempty(s: Seq<char>)
    ensures
        split_lines(s).len() >= 1,
{
    match crlf_index(s) {
        Some(i) => {},
        None => {},
    }
}

// ---------------------------------------------------------------------------
// Laws of the frame format.
proof fn lemma_first_byte(op: u8)
    by (bit_vector)
    requires
        op < 16,
    ensures
        (0x80u8 | (op & 0x0fu8)) & 0x0fu8 == op,
{
}

proof fn lemma_second_byte(mb: u8, l: u8)
    by (bit_vector)
    requires
        mb == 0x80u8 || mb == 0u8,
        l <= 127,
    ensures
        (((mb | l) & 0x80u8) != 0) == (mb == 0x80u8),
        (mb | l) & 0x7fu8 == l,
{
}

proof fn lemma_be16_round_trip(n: u16)
    by (bit_vector)
    ensures
        ((((n >> 8u16) as u8) as u16) << 8u16) | (((n as u8) as u16)) == n,
{
}

proof fn lemma_be64_round_trip(n: u64)
    by (bit_vector)
    ensures
        ((((n >> 56u64) as u8) as u64) << 56u64) | ((((n >> 48u64) as u8) as u64) << 48u64) | ((((
        n >> 40u64) as u8) as u64) << 40u64) | ((((n >> 32u64) as u8) as u64) << 32u64) | ((((n
            >> 24u64) as u8) as u64) << 24u64) | ((((n >> 16u64) as u8) as u64) << 16u64) | ((((n
            >> 8u64) as u8) as u64) << 8u64) | ((n as u8) as u64) == n,
{
}

proof fn lemma_xor_twice(x: u8, y: u8)
    by (bit_vector)
    ensures
        (x ^ y) ^ y == x,
{
}

proof fn lemma_unmask(payload: Seq<u8>, mask: Seq<u8>)
    requires
        mask.len() == 4,
    ensures
        apply_mask(apply_mask(payload, mask), mask) == payload,
{
    assert forall|i: int| 0 <= i < payload.len() implies apply_mask(
        apply_mask(payload, mask),
        mask,
    )[i] == payload[i] by {
        lemma_xor_twice(payload[i], mask[i % 4]);
    }
    assert(apply_mask(apply_mask(payload, mask), mask) =~= payload);
}

/// The facts a reader needs of a frame's header.
proof fn lemma_header_fields(opcode: u8, len: u64, masked: bool)
    requires
        opcode < 16,
    ensures
        ({
            let h = frame_header(opcode, len, masked);
            let len7 = h[1] & 0x7fu8;
            &&& h[0] & 0x0fu8 == opcode
            &&& ((h[1] & 0x80u8) != 0) == masked
            &&& h.len() == 2 + extra_length_bytes(len7)
            &&& (len <= 125 ==> len7 as u64 == len)
            &&& (125 < len <= 65535 ==> len7 == 126 && from_be16(h[2], h[3]) as u64 == len)
            &&& (65535 < len ==> len7 == 127 && from_be64(h.subrange(2, 10)) == len)
        }),
{
    let mb: u8 = if masked {
        0x80u8
    } else {
        0u8
    };
    lemma_first_byte(opcode);
    let h = frame_header(opcode, len, masked);
    if len <= 125 {
        lemma_second_byte(mb, len as u8);
    } else if len <= 65535 {
        lemma_second_byte(mb, 126u8);
        lemma_be16_round_trip(len as u16);
    } else {
        lemma_second_byte(mb, 127u8);
        lemma_be64_round_trip(len);
        let b = h.subrange(2, 10);
        assert(b =~= be64(len));
    }
}

/// A frame the client writes is read back whole: reading the bytes of a
/// frame, and whatever bytes follow it, gives its frame with exactly its
/// own bytes used, for any opcode, payload of at most
/// `MAX_WS_MESSAGE_BYTES`, and mask.
pub proof fn lemma_frame_round_trip(
    opcode: u8,
    payload: Seq<u8>,
    mask: Option<Seq<u8>>,
    rest: Seq<u8>,
)
    requires
        opcode < 16,
        payload.len() <= MAX_WS_MESSAGE_BYTES,
        mask matches Some(m) ==> m.len() == 4,
    ensures
        read_of(frame_of(opcode, payload, mask) + rest) == frame_from(
            opcode,
            payload,
            frame_of(opcode, payload, mask).len(),
        ),
{
    let len = payload.len() as u64;
    let masked = mask is Some;
    let h = frame_header(opcode, len, masked);
    lemma_header_fields(opcode, len, masked);
    let f = frame_of(opcode, payload, mask);
    let b = f + rest;
    let ext = extra_length_bytes(h[1] & 0x7fu8);
    assert(b[0] == h[0] && b[1] == h[1]);
    if ext == 2 {
        assert(b[2] == h[2] && b[3] == h[3]);
    }
    if ext == 8 {
        assert(b.subrange(2, 10) =~= h.subrange(2, 10));
    }
    assert(header_length(b) == len);
    match mask {
        Some(m) => {
            let mask_end = h.len() + 4;
            assert(b.subrange(h.len() as int, mask_end as int) =~= m);
            assert(b.subrange(mask_end as int, mask_end + len) =~= apply_mask(payload, m));
            lemma_unmask(payload, m);
        },
        None => {
            assert(b.subrange(h.len() as int, h.len() + len) =~= payload);
        },
    }
}

/// A frame is read only when all of it is there: every proper prefix of a
/// frame's bytes asks for more bytes, never more than the frame holds.
pub proof fn lemma_frame_prefix_needs_more(
    opcode: u8,
    payload: Seq<u8>,
    mask: Option<Seq<u8>>,
    k: int,
)
    requires
        opcode < 16,
        payload.len() <= MAX_WS_MESSAGE_BYTES,
        mask matches Some(m) ==> m.len() == 4,
        0 <= k < frame_of(opcode, payload, mask).len(),
    ensures
        read_of(frame_of(opcode, payload, mask).take(k)) matches ReadView::NeedMore(n, _) && k < n
            <= frame_of(opcode, payload, mask).len(),
{
    let len = payload.len() as u64;
    let masked = mask is Some;
    let h = frame_header(opcode, len, masked);
    lemma_header_fields(opcode, len, masked);
    let b = frame_of(opcode, payload, mask);
    let p = b.take(k);
    if k >= 2 {
        assert(p[0] == h[0] && p[1] == h[1]);
        let ext = extra_length_bytes(h[1] & 0x7fu8);
        if k >= 2 + ext {
            if ext == 2 {
                assert(p[2] == h[2] && p[3] == h[3]);
            }
            if ext == 8 {
                assert(p.subrange(2, 10) =~= h.subrange(2, 10));
            }
            assert(header_length(p) == len);
        }
    }
}

/// A line made of a name, a colon and a value, where the name has no colon,
/// is read as that name and that value.
proof fn lemma_header_line(line: Seq<char>, name: Seq<char>, value: Seq<char>)
    requires
        line == name + ":"@ + value,
        forall|k: int| 0 <= k < name.len() ==> name[k] != ':',
    ensures
        colon_index(line) == Some(name.len() as int),
        line.take(name.len() as int) == name,
        line.skip(name.len() as int + 1) == value,
{
    reveal_strlit(":");
    lemma_colon_index(line);
    assert(line[name.len() as int] == ':');
    match colon_index(line) {
        Some(i) => {
            if i < name.len() {
                assert(line[i] == name[i]);
            }
        },
        None => {},
    }
    assert(line.take(name.len() as int) =~= name);
    assert(line.skip(name.len() as int + 1) =~= value);
}

/// The last header line that gives a value is the one that counts.
proof fn lemma_accept_of_last(lines: Seq<Seq<char>>, i: int, v: Seq<char>)
    requires
        0 <= i < lines.len(),
        accept_value_of(lines[i]) == Some(v),
        forall|j: int| i < j < lines.len() ==> accept_value_of(#[trigger] lines[j]) is None,
    ensures
        accept_of(lines) == Some(v),
    decreases lines.len(),
{
    if i < lines.len() - 1 {
        let d = lines.drop_last();
        assert forall|j: int| i < j < d.len() implies accept_value_of(#[trigger] d[j]) is None by {
            assert(d[j] == lines[j]);
        }
        assert(d[i] == lines[i]);
        lemma_accept_of_last(d, i, v);
    }
}

/// The handshake is taken when the status is `101` and a header line is
/// `Sec-WebSocket-Accept` (its name in any ASCII case) with, once trimmed,
/// the expected value, whatever other header lines come before or after
/// it, as long as no later line is a `Sec-WebSocket-Accept` too.
pub proof fn lemma_handshake_takes_accept_line(
    response: Seq<char>,
    expected: Seq<char>,
    i: int,
    name: Seq<char>,
    value: Seq<char>,
)
    requires
        1 <= i < split_lines(response).len(),
        starts_with(split_lines(response)[0], "HTTP/1.1 101"@) || starts_with(
            split_lines(response)[0],
            "HTTP/1.0 101"@,
        ),
        split_lines(response)[i] == name + ":"@ + value,
        forall|k: int| 0 <= k < name.len() ==> name[k] != ':',
        same_ignoring_ascii_case(
            vstd::utf8::encode_utf8(name),
            vstd::utf8::encode_utf8("sec-websocket-accept"@),
        ),
        trim(value) == expected,
        forall|j: int, name2: Seq<char>, value2: Seq<char>|
            #![trigger split_lines(response)[j], name2 + ":"@ + value2]
            i < j < split_lines(response).len() && split_lines(response)[j] == name2 + ":"@ + value2
                && (forall|k: int| 0 <= k < name2.len() ==> name2[k] != ':') ==> !same_ignoring_ascii_case(
                vstd::utf8::encode_utf8(name2),
                vstd::utf8::encode_utf8("sec-websocket-accept"@),
            ),
    ensures
        handshake_check_of(response, expected) == Ok::<(), Seq<char>>(()),
{
    let lines = split_lines(response);
    let rest = lines.drop_first();
    lemma_header_line(lines[i], name, value);
    assert(rest[i - 1] == lines[i]);
    assert forall|j: int| i - 1 < j < rest.len() implies accept_value_of(#[trigger] rest[j]) is None by {
        let line = rest[j];
        assert(line == lines[j + 1]);
        lemma_colon_index(line);
        match colon_index(line) {
            Some(k) => {
                let name2 = line.take(k);
                let value2 = line.skip(k + 1);
                reveal_strlit(":");
                assert(line =~= name2 + ":"@ + value2);
                assert(forall|q: int| 0 <= q < name2.len() ==> name2[q] != ':');
                assert(lines[j + 1] == name2 + ":"@ + value2);
            },
            None => {},
        }
    }
    lemma_accept_of_last(rest, i - 1, expected);
}

} // verus!
