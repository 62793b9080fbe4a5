//! Checking what the user types to connect: a WebSocket URL, or an Alleycat
//! pair payload and agent name.
use vstd::prelude::*;

use crate::json::{field, json_parse, parse_json, string_field, u64_of, JsonValue, JsonView};
use crate::model::{AlleycatConfig, AlleycatView, WebClientError};
use crate::text::{
    blank, chars_of, has_prefix, is_blank, owned, starts_with, string_of, string_of_range, trim,
    trim_end, trim_start, trimmed,
};

verus! {

broadcast use vstd::string::group_string_axioms;

/// The WebSocket URL for what the user typed: the trimmed text when it is
/// already `ws://` or `wss://`, `http://` and `https://` turned into `ws://`
/// and `wss://`, and nothing for any other text.
pub open spec fn websocket_url_of(url: Seq<char>) -> Option<Seq<char>> {
    let t = trim(url);
    if starts_with(t, "ws://"@) || starts_with(t, "wss://"@) {
        Some(t)
    } else if starts_with(t, "http://"@) {
        Some("ws://"@ + t.skip("http://"@.len() as int))
    } else if starts_with(t, "https://"@) {
        Some("wss://"@ + t.skip("https://"@.len() as int))
    } else {
        None
    }
}

/// `value.get(key).and_then(Value::as_str).is_none_or(|s| s.trim().is_empty())`.
pub open spec fn blank_or_missing(v: JsonView, key: Seq<char>) -> bool {
    match string_field(v, key) {
        Some(s) => is_blank(s),
        None => true,
    }
}

/// The checks made of a pair payload document, in order.
pub open spec fn pair_config_of(pair_payload: Seq<char>, agent: Seq<char>, doc: JsonView) -> Result<
    AlleycatView,
    Seq<char>,
> {
    let version = match field(doc, "v"@) {
        Some(v) => u64_of(v),
        None => None,
    };
    if version != Some(1u64) {
        Err("pair payload must have v=1"@)
    } else if blank_or_missing(doc, "node_id"@) {
        Err("pair payload must include node_id"@)
    } else if blank_or_missing(doc, "token"@) {
        Err("pair payload must include token"@)
    } else {
        Ok(AlleycatView { pair_payload, agent })
    }
}

/// The Alleycat configuration for a pair payload and an agent name, both
/// trimmed, or why they are refused.
pub open spec fn alleycat_config_of(pair_payload: Seq<char>, agent: Seq<char>) -> Result<
    AlleycatView,
    Seq<char>,
> {
    let p = trim(pair_payload);
    let a = trim(agent);
    if p.len() == 0 {
        Err("pair payload is empty"@)
    } else if a.len() == 0 {
        Err("agent is empty"@)
    } else {
        match json_parse(p) {
            Err(e) => Err(e),
            Ok(doc) => pair_config_of(p, a, doc),
        }
    }
}

/// The WebSocket URL for what the user typed.
pub fn normalize_websocket_url(url: &str) -> (r: Result<String, WebClientError>)
    ensures
        match r {
            Ok(u) => websocket_url_of(url@) == Some(u@),
            Err(e) => websocket_url_of(url@) is None && e == WebClientError::InvalidWebSocketUrl,
        },
{
    let t = trimmed(url);
    let cs = chars_of(t.as_str());
    if has_prefix(&cs, "ws://") || has_prefix(&cs, "wss://") {
        Ok(t)
    } else if has_prefix(&cs, "http://") {
        let n = chars_of("http://").len();
        let rest = string_of_range(&cs, n, cs.len());
        proof {
            assert(cs@.subrange(n as int, cs@.len() as int) =~= cs@.skip("http://"@.len() as int));
        }
        let mut out = owned("ws://");
        out.append(rest.as_str());
        Ok(out)
    } else if has_prefix(&cs, "https://") {
        let n = chars_of("https://").len();
        let rest = string_of_range(&cs, n, cs.len());
        proof {
            assert(cs@.subrange(n as int, cs@.len() as int) =~= cs@.skip("https://"@.len() as int));
        }
        let mut out = owned("wss://");
        out.append(rest.as_str());
        Ok(out)
    } else {
        Err(WebClientError::InvalidWebSocketUrl)
    }
}

/// A blank or missing string member.
fn blank_or_missing_member(doc: &JsonValue, key: &str) -> (r: bool)
    ensures
        r == blank_or_missing(doc@, key@),
{
    match doc.get(key) {
        Some(x) => match x.as_str() {
            Some(s) => blank(s),
            None => true,
        },
        None => true,
    }
}

/// The checks made of a pair payload document that was read from
/// `pair_payload`.
pub fn check_pair_document(pair_payload: String, agent: String, doc: &JsonValue) -> (r: Result<
    AlleycatConfig,
    WebClientError,
>)
    ensures
        match r {
            Ok(c) => pair_config_of(pair_payload@, agent@, doc@) == Ok::<AlleycatView, Seq<char>>(
                c@,
            ),
            Err(e) => exists|m: Seq<char>|
                pair_config_of(pair_payload@, agent@, doc@) == Err::<AlleycatView, Seq<char>>(m)
                    && e@ == crate::model::ErrorView::InvalidAlleycatPayload(m),
        },
{
    let version = match doc.get("v") {
        Some(v) => v.as_u64(),
        None => None,
    };
    if version != Some(1u64) {
        return Err(WebClientError::InvalidAlleycatPayload(owned("pair payload must have v=1")));
    }
    if blank_or_missing_member(doc, "node_id") {
        return Err(
            WebClientError::InvalidAlleycatPayload(owned("pair payload must include node_id")),
        );
    }
    if blank_or_missing_member(doc, "token") {
        return Err(
            WebClientError::InvalidAlleycatPayload(owned("pair payload must include token")),
        );
    }
    Ok(AlleycatConfig { pair_payload, agent })
}

/// The Alleycat configuration for a pair payload and an agent name.
pub fn normalize_alleycat_config(pair_payload: String, agent: String) -> (r: Result<
    AlleycatConfig,
    WebClientError,
>)
    ensures
        match r {
            Ok(c) => alleycat_config_of(pair_payload@, agent@) == Ok::<AlleycatView, Seq<char>>(
                c@,
            ),
            Err(e) => exists|m: Seq<char>|
                alleycat_config_of(pair_payload@, agent@) == Err::<AlleycatView, Seq<char>>(m)
                    && e@ == crate::model::ErrorView::InvalidAlleycatPayload(m),
        },
{
    let pair_payload = trimmed(pair_payload.as_str());
    let agent = trimmed(agent.as_str());
    if pair_payload.as_str().is_empty() {
        return Err(WebClientError::InvalidAlleycatPayload(owned("pair payload is empty")));
    }
    if agent.as_str().is_empty() {
        return Err(WebClientError::InvalidAlleycatPayload(owned("agent is empty")));
    }
    match parse_json(pair_payload.as_str()) {
        Err(e) => Err(WebClientError::InvalidAlleycatPayload(e)),
        Ok(doc) => check_pair_document(pair_payload, agent, &doc),
    }
}

proof fn lemma_trim_start_shape(s: Seq<char>)
    ensures
        trim_start(s).len() > 0 ==> !crate::text::is_ws(trim_start(s)[0]),
        trim_start(s).len() <= s.len(),
        trim_start(s).len() > 0 ==> trim_start(s).last() == s.last(),
    decreases s.len(),
{
    if s.len() > 0 && crate::text::is_ws(s[0]) {
        lemma_trim_start_shape(s.drop_first());
    }
}

proof fn lemma_trim_end_shape(s: Seq<char>)
    ensures
        trim_end(s).len() > 0 ==> !crate::text::is_ws(trim_end(s).last()),
        trim_end(s).len() > 0 ==> trim_end(s)[0] == s[0],
    decreases s.len(),
{
    if s.len() > 0 && crate::text::is_ws(s.last()) {
        lemma_trim_end_shape(s.drop_last());
    }
}

/// Trimmed text has no whitespace at either end.
proof fn lemma_trim_shape(s: Seq<char>)
    ensures
        trim(s).len() > 0 ==> !crate::text::is_ws(trim(s)[0]) && !crate::text::is_ws(trim(s).last()),
{
    lemma_trim_start_shape(s);
    lemma_trim_end_shape(trim_start(s));
}

/// Text with no whitespace at either end is its own trim.
proof fn lemma_trim_fixed(t: Seq<char>)
    requires
        t.len() > 0 ==> !crate::text::is_ws(t[0]) && !crate::text::is_ws(t.last()),
    ensures
        trim(t) == t,
{
    assert(trim_start(t) == t);
}

/// Normalizing a WebSocket URL gives one that is its own normal form, and
/// that starts with `ws://` or `wss://`.
pub proof fn lemma_websocket_url_normal(url: Seq<char>)
    ensures
        websocket_url_of(url) matches Some(w) ==> websocket_url_of(w) == Some(w) && (starts_with(
            w,
            "ws://"@,
        ) || starts_with(w, "wss://"@)),
{
    reveal_strlit("ws://");
    reveal_strlit("wss://");
    reveal_strlit("http://");
    reveal_strlit("https://");
    let t = trim(url);
    lemma_trim_shape(url);
    if starts_with(t, "ws://"@) || starts_with(t, "wss://"@) {
        lemma_trim_fixed(t);
    } else if starts_with(t, "http://"@) {
        let w = "ws://"@ + t.skip(7);
        assert(w.subrange(0, 5) =~= "ws://"@);
        assert(w[0] == 'w');
        if t.len() > 7 {
            assert(w.last() == t.last());
        }
        lemma_trim_fixed(w);
    } else if starts_with(t, "https://"@) {
        let w = "wss://"@ + t.skip(8);
        assert(w.subrange(0, 6) =~= "wss://"@);
        assert(w[0] == 'w');
        if t.len() > 8 {
            assert(w.last() == t.last());
        }
        lemma_trim_fixed(w);
    }
}

} // verus!
