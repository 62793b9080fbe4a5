//! How the client reads the app server's JSON-RPC documents: thread
//! summaries, thread details with their conversation items, status labels,
//! and error messages.
use vstd::prelude::*;

use crate::json::{
    array_of, field, i64_of, json_text, render_json, str_of, string_field, JsonValue, JsonView,
};
use crate::model::{
    items_view, ConversationItem, ItemView, ThreadDetail, ThreadDetailView, ThreadSummary,
    ThreadSummaryView,
};
use crate::text::{
    blank, concat, first_line_or, first_line_or_fallback, is_blank, join, join_strings, owned,
    text_eq,
};

verus! {

broadcast use vstd::string::group_string_axioms;

/// `string_field(v, key).unwrap_or_default()`.
pub open spec fn string_or_empty(v: JsonView, key: Seq<char>) -> Seq<char> {
    match string_field(v, key) {
        Some(s) => s,
        None => Seq::empty(),
    }
}

/// The strings among `items`, in order.
pub open spec fn strings_of(items: Seq<JsonView>) -> Seq<Seq<char>> {
    items.filter_map(|x: JsonView| str_of(x))
}

/// The `text` members among `items` that are strings, in order.
pub open spec fn texts_of(items: Seq<JsonView>) -> Seq<Seq<char>> {
    items.filter_map(|x: JsonView| string_field(x, "text"@))
}

/// The label shown for a thread status: its `type`, followed by its active
/// flags when there are any.
pub open spec fn status_label_of(status: JsonView) -> Seq<char> {
    let base = match string_field(status, "type"@) {
        Some(t) => t,
        None => "unknown"@,
    };
    let flags = match field(status, "activeFlags"@) {
        Some(f) => match array_of(f) {
            Some(items) => join(strings_of(items), ", "@),
            None => Seq::empty(),
        },
        None => Seq::empty(),
    };
    if flags.len() == 0 {
        base
    } else {
        base + ": "@ + flags
    }
}

/// The summary the client keeps of a thread document.
pub open spec fn summary_of(thread: JsonView) -> ThreadSummaryView {
    let preview = string_or_empty(thread, "preview"@);
    let title = match string_field(thread, "name"@) {
        Some(name) => if !is_blank(name) {
            name
        } else {
            first_line_or(preview, "Untitled thread"@)
        },
        None => first_line_or(preview, "Untitled thread"@),
    };
    ThreadSummaryView {
        id: string_or_empty(thread, "id"@),
        title,
        preview,
        status: match field(thread, "status"@) {
            Some(s) => status_label_of(s),
            None => "unknown"@,
        },
        cwd: string_field(thread, "cwd"@),
        updated_at: match field(thread, "updatedAt"@) {
            Some(u) => i64_of(u),
            None => None,
        },
    }
}

/// The text shown for a conversation item of the given kind.
pub open spec fn item_text_of(item: JsonView, kind: Seq<char>) -> Seq<char> {
    if kind == "userMessage"@ {
        match field(item, "content"@) {
            Some(c) => match array_of(c) {
                Some(content) => join(texts_of(content), "\n"@),
                None => Seq::empty(),
            },
            None => Seq::empty(),
        }
    } else if kind == "agentMessage"@ || kind == "plan"@ {
        string_or_empty(item, "text"@)
    } else if kind == "reasoning"@ {
        let lines = match field(item, "summary"@) {
            Some(s) => Some(s),
            None => field(item, "content"@),
        };
        match lines {
            Some(l) => match array_of(l) {
                Some(items) => join(strings_of(items), "\n"@),
                None => Seq::empty(),
            },
            None => Seq::empty(),
        }
    } else if kind == "commandExecution"@ {
        let command = string_or_empty(item, "command"@);
        let output = string_or_empty(item, "aggregatedOutput"@);
        if output.len() == 0 {
            command
        } else {
            command + "\n\n"@ + output
        }
    } else {
        json_text(item)
    }
}

/// The conversation item the client shows for an item document.
pub open spec fn item_of(item: JsonView) -> ItemView {
    let kind = match string_field(item, "type"@) {
        Some(k) => k,
        None => "unknown"@,
    };
    ItemView {
        id: match string_field(item, "id"@) {
            Some(id) => id,
            None => "item-"@ + kind,
        },
        kind,
        text: item_text_of(item, kind),
    }
}

/// The items of one turn document.
pub open spec fn turn_items_of(turn: JsonView) -> Seq<ItemView> {
    match field(turn, "items"@) {
        Some(i) => match array_of(i) {
            Some(items) => items.map_values(|x: JsonView| item_of(x)),
            None => Seq::empty(),
        },
        None => Seq::empty(),
    }
}

/// The items of all the turns, turn after turn.
pub open spec fn turns_items_of(turns: Seq<JsonView>) -> Seq<ItemView> {
    turns.map_values(|t: JsonView| turn_items_of(t)).flatten_alt()
}

/// The detail the client keeps of a thread document read with its turns.
pub open spec fn detail_of(thread: JsonView) -> ThreadDetailView {
    ThreadDetailView {
        summary: summary_of(thread),
        items: match field(thread, "turns"@) {
            Some(t) => match array_of(t) {
                Some(turns) => turns_items_of(turns),
                None => Seq::empty(),
            },
            None => Seq::empty(),
        },
    }
}

/// The thread a notification speaks of: its `threadId`, else the `id` of its
/// `thread`.
pub open spec fn notification_thread_of(params: JsonView) -> Option<Seq<char>> {
    match string_field(params, "threadId"@) {
        Some(t) => Some(t),
        None => match field(params, "thread"@) {
            Some(thread) => string_field(thread, "id"@),
            None => None,
        },
    }
}

/// The message shown for a JSON-RPC error: its `message`, else the error
/// document written as text.
pub open spec fn rpc_error_text(error: JsonView) -> Seq<char> {
    match string_field(error, "message"@) {
        Some(m) => m,
        None => json_text(error),
    }
}

proof fn lemma_filter_map_take<A, B>(s: Seq<A>, f: spec_fn(A) -> Option<B>, i: int)
    requires
        0 <= i < s.len(),
    ensures
        s.take(i + 1).filter_map(f) == match f(s[i]) {
            Some(b) => s.take(i).filter_map(f).push(b),
            None => s.take(i).filter_map(f),
        },
{
    assert(s.take(i + 1).drop_last() =~= s.take(i));
    assert(s.take(i + 1).last() == s[i]);
    match f(s[i]) {
        Some(b) => {
            assert(s.take(i).filter_map(f) + seq![b] =~= s.take(i).filter_map(f).push(b));
        },
        None => {},
    }
}

fn or_empty(o: Option<String>) -> (r: String)
    ensures
        r@ == match o {
            Some(s) => s@,
            None => Seq::<char>::empty(),
        },
{
    match o {
        Some(s) => s,
        None => String::new(),
    }
}

/// The strings among `items` joined with `sep`.
fn join_string_items(items: &Vec<JsonValue>, sep: &str) -> (r: String)
    ensures
        r@ == join(strings_of(items@.map_values(|x: JsonValue| x@)), sep@),
{
    let ghost views = items@.map_values(|x: JsonValue| x@);
    let ghost f = |x: JsonView| str_of(x);
    let mut parts: Vec<String> = Vec::new();
    let mut i: usize = 0;
    while i < items.len()
        invariant
            i <= items@.len(),
            views == items@.map_values(|x: JsonValue| x@),
            f == (|x: JsonView| str_of(x)),
            parts@.map_values(|p: String| p@) == views.take(i as int).filter_map(f),
        decreases items@.len() - i,
    {
        proof {
            lemma_filter_map_take(views, f, i as int);
        }
        match items[i].as_str() {
            Some(s) => {
                parts.push(owned(s));
                proof {
                    assert(parts@.map_values(|p: String| p@) =~= views.take(i as int).filter_map(
                        f,
                    ).push(s@));
                }
            },
            None => {},
        }
        i = i + 1;
    }
    assert(views.take(items@.len() as int) =~= views);
    join_strings(&parts, sep)
}

/// The `text` members of `items` joined with newlines.
fn join_text_fields(items: &Vec<JsonValue>) -> (r: String)
    ensures
        r@ == join(texts_of(items@.map_values(|x: JsonValue| x@)), "\n"@),
{
    let ghost views = items@.map_values(|x: JsonValue| x@);
    let ghost f = |x: JsonView| string_field(x, "text"@);
    let mut parts: Vec<String> = Vec::new();
    let mut i: usize = 0;
    while i < items.len()
        invariant
            i <= items@.len(),
            views == items@.map_values(|x: JsonValue| x@),
            f == (|x: JsonView| string_field(x, "text"@)),
            parts@.map_values(|p: String| p@) == views.take(i as int).filter_map(f),
        decreases items@.len() - i,
    {
        proof {
            lemma_filter_map_take(views, f, i as int);
        }
        match items[i].string_field("text") {
            Some(s) => {
                proof {
                    assert(parts@.push(s).map_values(|p: String| p@) =~= parts@.map_values(
                        |p: String| p@,
                    ).push(s@));
                }
                parts.push(s);
            },
            None => {},
        }
        i = i + 1;
    }
    assert(views.take(items@.len() as int) =~= views);
    join_strings(&parts, "\n")
}

/// The label shown for a thread status.
pub fn status_label(status: &JsonValue) -> (r: String)
    ensures
        r@ == status_label_of(status@),
{
    let base = match status.string_field("type") {
        Some(t) => t,
        None => owned("unknown"),
    };
    let flags = match status.get("activeFlags") {
        Some(f) => match f.as_array() {
            Some(items) => join_string_items(items, ", "),
            None => String::new(),
        },
        None => String::new(),
    };
    if flags.as_str().is_empty() {
        base
    } else {
        let head = concat(base.as_str(), ": ");
        concat(head.as_str(), flags.as_str())
    }
}

/// The summary the client keeps of a thread document.
pub fn thread_summary_from_value(thread: &JsonValue) -> (r: ThreadSummary)
    ensures
        r@ == summary_of(thread@),
{
    let preview = or_empty(thread.string_field("preview"));
    let title = match thread.string_field("name") {
        Some(name) => {
            if !blank(name.as_str()) {
                name
            } else {
                first_line_or_fallback(preview.as_str(), "Untitled thread")
            }
        },
        None => first_line_or_fallback(preview.as_str(), "Untitled thread"),
    };
    let status = match thread.get("status") {
        Some(s) => status_label(s),
        None => owned("unknown"),
    };
    let updated_at = match thread.get("updatedAt") {
        Some(u) => u.as_i64(),
        None => None,
    };
    ThreadSummary {
        id: or_empty(thread.string_field("id")),
        title,
        preview,
        status,
        cwd: thread.string_field("cwd"),
        updated_at,
    }
}

/// The text shown for a conversation item of the given kind.
fn item_text(item: &JsonValue, kind: &str) -> (r: String)
    ensures
        r@ == item_text_of(item@, kind@),
{
    if text_eq(kind, "userMessage") {
        match item.get("content") {
            Some(c) => match c.as_array() {
                Some(content) => join_text_fields(content),
                None => String::new(),
            },
            None => String::new(),
        }
    } else if text_eq(kind, "agentMessage") || text_eq(kind, "plan") {
        or_empty(item.string_field("text"))
    } else if text_eq(kind, "reasoning") {
        let lines = match item.get("summary") {
            Some(s) => Some(s),
            None => item.get("content"),
        };
        match lines {
            Some(l) => match l.as_array() {
                Some(items) => join_string_items(items, "\n"),
                None => String::new(),
            },
            None => String::new(),
        }
    } else if text_eq(kind, "commandExecution") {
        let command = or_empty(item.string_field("command"));
        let output = or_empty(item.string_field("aggregatedOutput"));
        if output.as_str().is_empty() {
            command
        } else {
            let head = concat(command.as_str(), "\n\n");
            concat(head.as_str(), output.as_str())
        }
    } else {
        render_json(item)
    }
}

/// The conversation item the client shows for an item document.
pub fn conversation_item_from_value(item: &JsonValue) -> (r: ConversationItem)
    ensures
        r@ == item_of(item@),
{
    let kind = match item.string_field("type") {
        Some(k) => k,
        None => owned("unknown"),
    };
    let id = match item.string_field("id") {
        Some(id) => id,
        None => concat("item-", kind.as_str()),
    };
    let text = item_text(item, kind.as_str());
    ConversationItem { id, kind, text }
}

/// The items of one turn document, appended to `out`.
fn push_turn_items(turn: &JsonValue, out: &mut Vec<ConversationItem>)
    ensures
        items_view(final(out)@) == items_view(old(out)@) + turn_items_of(turn@),
{
    let ghost start = items_view(out@);
    match turn.get("items") {
        Some(i) => match i.as_array() {
            Some(items) => {
                let ghost views = items@.map_values(|x: JsonValue| x@);
                let mut k: usize = 0;
                while k < items.len()
                    invariant
                        k <= items@.len(),
                        views == items@.map_values(|x: JsonValue| x@),
                        items_view(out@) == start + views.take(k as int).map_values(
                            |x: JsonView| item_of(x),
                        ),
                    decreases items@.len() - k,
                {
                    let c = conversation_item_from_value(&items[k]);
                    let ghost before = out@;
                    out.push(c);
                    proof {
                        assert(items_view(out@) =~= items_view(before).push(c@));
                        assert(views.take(k + 1).map_values(|x: JsonView| item_of(x)) =~= views.take(
                            k as int,
                        ).map_values(|x: JsonView| item_of(x)).push(item_of(views[k as int])));
                    }
                    k = k + 1;
                }
                assert(views.take(items@.len() as int) =~= views);
            },
            None => {
                assert(start + Seq::<ItemView>::empty() =~= start);
            },
        },
        None => {
            assert(start + Seq::<ItemView>::empty() =~= start);
        },
    }
}

/// The detail the client keeps of a thread document read with its turns.
pub fn thread_detail_from_value(thread: &JsonValue) -> (r: ThreadDetail)
    ensures
        r@ == detail_of(thread@),
{
    let summary = thread_summary_from_value(thread);
    let mut items: Vec<ConversationItem> = Vec::new();
    match thread.get("turns") {
        Some(t) => match t.as_array() {
            Some(turns) => {
                let ghost views = turns@.map_values(|x: JsonValue| x@);
                let mut k: usize = 0;
                while k < turns.len()
                    invariant
                        k <= turns@.len(),
                        views == turns@.map_values(|x: JsonValue| x@),
                        items_view(items@) == turns_items_of(views.take(k as int)),
                    decreases turns@.len() - k,
                {
                    push_turn_items(&turns[k], &mut items);
                    proof {
                        let g = |t: JsonView| turn_items_of(t);
                        assert(views.take(k + 1).map_values(g).drop_last() =~= views.take(
                            k as int,
                        ).map_values(g));
                        assert(views.take(k + 1).map_values(g).last() == turn_items_of(
                            views[k as int],
                        ));
                    }
                    k = k + 1;
                }
                assert(views.take(turns@.len() as int) =~= views);
            },
            None => {
                assert(items_view(items@) =~= Seq::<ItemView>::empty());
            },
        },
        None => {
            assert(items_view(items@) =~= Seq::<ItemView>::empty());
        },
    }
    ThreadDetail { summary, items }
}

/// The thread a notification speaks of.
pub fn notification_thread_id(params: &JsonValue) -> (r: Option<String>)
    ensures
        crate::model::opt_view(r) == notification_thread_of(params@),
{
    match params.string_field("threadId") {
        Some(t) => Some(t),
        None => match params.get("thread") {
            Some(thread) => thread.string_field("id"),
            None => None,
        },
    }
}

/// The message shown for a JSON-RPC error.
pub fn format_rpc_error(error: &JsonValue) -> (r: String)
    ensures
        r@ == rpc_error_text(error@),
{
    match error.string_field("message") {
        Some(m) => m,
        None => render_json(error),
    }
}

/// A command item shows its command and, after a blank line, its output,
/// only when the output is a non-empty string; when `aggregatedOutput` is
/// missing, `null`, not a string or empty, it shows the command alone (or
/// nothing when there is no command).
pub proof fn lemma_command_item_text(item: JsonView)
    requires
        string_field(item, "type"@) == Some("commandExecution"@),
    ensures
        item_of(item).kind == "commandExecution"@,
        ({
            let command = match string_field(item, "command"@) {
                Some(c) => c,
                None => Seq::<char>::empty(),
            };
            match string_field(item, "aggregatedOutput"@) {
                Some(output) => if output.len() > 0 {
                    item_of(item).text == command + "\n\n"@ + output
                } else {
                    item_of(item).text == command
                },
                None => item_of(item).text == command,
            }
        }),
{
    reveal_strlit("commandExecution");
    reveal_strlit("userMessage");
    reveal_strlit("agentMessage");
    reveal_strlit("plan");
    reveal_strlit("reasoning");
    assert("commandExecution"@.len() == 16);
    assert("userMessage"@.len() == 11 && "agentMessage"@.len() == 12 && "plan"@.len() == 4
        && "reasoning"@.len() == 9);
}

} // verus!
