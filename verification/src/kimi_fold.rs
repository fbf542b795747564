//! Replay of a kimi-code `wire.jsonl` journal into viewer messages.
//!
//! The replay state is a history of folded messages, the ids of tool calls still
//! waiting for a result, the messages deferred until that exchange closes, and the
//! current model alias. Each record type is one transformation of that state, stated
//! below as a spec function and implemented by the function of the same name.
use vstd::prelude::*;
use crate::json::{
    Json, JsonView, items_view, jstr, obj, obj1, opt_owned_view,
    str_or, str_or_default, text_block, make_text_block, duplicate_or_null, entries_view,
    parse_json, parsed_json, duplicate_items,
};
use crate::text::{blank, concat, decimal, decimal_string, is_blank, own, str_eq};
use crate::models::{
    ClaudeMessage, MessageView, TokenUsage, build_provider_message, clone_opt_string,
    messages_view, opt_own, opt_str, provider_message,
};
use crate::external::{millis_to_rfc3339, rfc3339_of_millis};
use crate::kimi_code::{
    BlobStore, convert_tool_call, is_vacuous_content_part, make_output_marker, is_vacuous_part, normalize_content_part,
    normalized_part, opt_store, output_key, output_marker, tool_use_block,
};

verus! {

/// A message of the replayed context, with the timestamp of the record that made it.
pub struct FoldedMessage {
    pub role: String,
    pub content: Vec<Json>,
    pub tool_calls: Vec<Json>,
    pub tool_call_id: Option<String>,
    pub is_error: Option<bool>,
    /// The wire message id, which prompt-owned injections refer to.
    pub id: Option<String>,
    /// The wire `origin` object.
    pub origin: Option<Json>,
    /// An assistant step that is still absorbing loop events.
    pub partial: bool,
    pub timestamp: String,
    pub model: Option<String>,
    pub usage: Option<TokenUsage>,
}

pub struct FoldedView {
    pub role: Seq<char>,
    pub content: Seq<JsonView>,
    pub tool_calls: Seq<JsonView>,
    pub tool_call_id: Option<Seq<char>>,
    pub is_error: Option<bool>,
    pub id: Option<Seq<char>>,
    pub origin: Option<JsonView>,
    pub partial: bool,
    pub timestamp: Seq<char>,
    pub model: Option<Seq<char>>,
    pub usage: Option<TokenUsage>,
}

impl View for FoldedMessage {
    type V = FoldedView;

    open spec fn view(&self) -> FoldedView {
        FoldedView {
            role: self.role@,
            content: items_view(self.content@),
            tool_calls: items_view(self.tool_calls@),
            tool_call_id: opt_str(self.tool_call_id),
            is_error: self.is_error,
            id: opt_str(self.id),
            origin: opt_owned_view(self.origin),
            partial: self.partial,
            timestamp: self.timestamp@,
            model: opt_str(self.model),
            usage: self.usage,
        }
    }
}

pub open spec fn folded_seq(h: Seq<FoldedMessage>) -> Seq<FoldedView> {
    Seq::new(h.len(), |i: int| h[i]@)
}

pub open spec fn strings_view(v: Seq<String>) -> Seq<Seq<char>> {
    Seq::new(v.len(), |i: int| v[i]@)
}

/// The replay state besides the history.
pub struct FoldState {
    /// Ids of tool calls still waiting for their result.
    pub pending: Vec<String>,
    /// Messages appended while a tool exchange was open.
    pub deferred: Vec<FoldedMessage>,
    /// The current model alias.
    pub model: Option<String>,
}

/// The whole replay state, as values.
pub struct Fold {
    pub history: Seq<FoldedView>,
    pub pending: Seq<Seq<char>>,
    pub deferred: Seq<FoldedView>,
    pub model: Option<Seq<char>>,
}

pub open spec fn fold_of(history: Seq<FoldedMessage>, state: FoldState) -> Fold {
    Fold {
        history: folded_seq(history),
        pending: strings_view(state.pending@),
        deferred: folded_seq(state.deferred@),
        model: opt_str(state.model),
    }
}

pub type Blobs = Option<Seq<(Seq<char>, Seq<u8>)>>;

// ---------------------------------------------------------------------------
// Specification of one replay step
// ---------------------------------------------------------------------------

/// The text of the compensation result of a tool call that never got one.
pub open spec fn interrupted_text() -> Seq<char> {
    "Tool execution was interrupted before its result was recorded. Do not assume the tool completed successfully."@
}

/// A folded tool message carrying `output`.
pub open spec fn tool_message(id: Seq<char>, output: JsonView, is_error: Option<bool>, ts: Seq<char>) -> FoldedView {
    FoldedView {
        role: "tool"@,
        content: seq![output_marker(output)],
        tool_calls: Seq::empty(),
        tool_call_id: Some(id),
        is_error,
        id: None,
        origin: None,
        partial: false,
        timestamp: ts,
        model: None,
        usage: None,
    }
}

/// The index of the open assistant step, if any.
pub open spec fn last_partial(h: Seq<FoldedView>) -> Option<int>
    decreases h.len(),
{
    if h.len() == 0 {
        None
    } else if h.last().partial {
        Some(h.len() - 1)
    } else {
        last_partial(h.drop_last())
    }
}

pub open spec fn usage_target(m: FoldedView) -> bool {
    m.partial || m.role == "assistant"@
}

/// The index of the latest message that is an open step or an assistant message.
pub open spec fn last_usage_target(h: Seq<FoldedView>) -> Option<int>
    decreases h.len(),
{
    if h.len() == 0 {
        None
    } else if usage_target(h.last()) {
        Some(h.len() - 1)
    } else {
        last_usage_target(h.drop_last())
    }
}

/// Deferred messages join the history once no tool call is pending.
pub open spec fn flush(s: Fold) -> Fold {
    if s.pending.len() > 0 || s.deferred.len() == 0 {
        s
    } else {
        Fold { history: s.history + s.deferred, deferred: Seq::empty(), ..s }
    }
}

/// Pending tool calls get an interrupted error result each, then deferred messages flush.
pub open spec fn close_pending_spec(s: Fold, ts: Seq<char>) -> Fold {
    if s.pending.len() == 0 {
        s
    } else {
        flush(
            Fold {
                history: s.history + Seq::new(
                    s.pending.len(),
                    |i: int| tool_message(s.pending[i], jstr(interrupted_text()), Some(true), ts),
                ),
                pending: Seq::empty(),
                ..s
            },
        )
    }
}

/// An open step that recorded no tool call and only vacuous content.
pub open spec fn vacuous_step(m: FoldedView) -> bool {
    m.tool_calls.len() == 0 && forall|i: int|
        0 <= i < m.content.len() ==> is_vacuous_part(#[trigger] m.content[i]) && m.content[i].get(
            output_key(),
        ) is None
}

/// `step.end`: close pending calls, drop the open step when vacuous or seal it
/// otherwise, then flush deferred messages.
pub open spec fn settle(s: Fold, ts: Seq<char>) -> Fold {
    let s1 = close_pending_spec(s, ts);
    let s2 = match last_partial(s1.history) {
        None => s1,
        Some(k) => if vacuous_step(s1.history[k]) {
            Fold { history: s1.history.remove(k), ..s1 }
        } else {
            Fold { history: s1.history.update(k, FoldedView { partial: false, ..s1.history[k] }), ..s1 }
        },
    };
    flush(s2)
}

/// The content parts of a wire message.
pub open spec fn message_content(message: JsonView, blobs: Blobs) -> Seq<JsonView> {
    match message.get("content"@) {
        Some(JsonView::Array(items)) => Seq::new(items.len(), |i: int| normalized_part(items[i], blobs)),
        Some(JsonView::Str(text)) => seq![text_block(text)],
        _ => Seq::empty(),
    }
}

/// The tool calls of a wire message, as `tool_use` blocks.
pub open spec fn message_tool_calls(message: JsonView) -> Seq<JsonView> {
    match message.get_array("toolCalls"@) {
        Some(calls) => Seq::new(calls.len(), |i: int| tool_use_block(calls[i])),
        None => Seq::empty(),
    }
}

/// `context.append_message`: the message joins the history, or waits behind an open
/// tool exchange. A message without a role is ignored.
pub open spec fn append_message(s: Fold, message: JsonView, ts: Seq<char>, blobs: Blobs) -> Fold {
    let role = str_or(message.get_str("role"@), ""@);
    if role.len() == 0 {
        s
    } else {
        let m = FoldedView {
            role,
            content: message_content(message, blobs),
            tool_calls: message_tool_calls(message),
            tool_call_id: message.get_str("toolCallId"@),
            is_error: message.get_bool("isError"@),
            id: message.get_str("id"@),
            origin: message.get("origin"@),
            partial: false,
            timestamp: ts,
            model: s.model,
            usage: None,
        };
        if s.pending.len() == 0 {
            Fold { history: s.history.push(m), ..s }
        } else {
            Fold { deferred: s.deferred.push(m), ..s }
        }
    }
}

/// A freshly opened assistant step.
pub open spec fn open_step(ts: Seq<char>, model: Option<Seq<char>>) -> FoldedView {
    FoldedView {
        role: "assistant"@,
        content: Seq::empty(),
        tool_calls: Seq::empty(),
        tool_call_id: None,
        is_error: None,
        id: None,
        origin: None,
        partial: true,
        timestamp: ts,
        model,
        usage: None,
    }
}

/// The `tool_use` block of a `tool.call` event.
pub open spec fn event_tool_use(event: JsonView) -> JsonView {
    obj(
        seq![
            ("type"@, jstr("tool_use"@)),
            ("id"@, jstr(str_or(event.get_str("toolCallId"@), ""@))),
            ("name"@, jstr(str_or(event.get_str("name"@), "tool"@))),
            ("input"@, event_args(event)),
        ],
    )
}

/// The `args` of a `tool.call` event, `{}` when absent.
pub open spec fn event_args(event: JsonView) -> JsonView {
    match event.get("args"@) {
        Some(a) => a,
        None => obj(Seq::empty()),
    }
}

/// `context.append_loop_event`: one streaming event of an assistant step.
pub open spec fn loop_event(s: Fold, event: JsonView, ts: Seq<char>, blobs: Blobs) -> Fold {
    let t = str_or(event.get_str("type"@), ""@);
    if t == "step.begin"@ {
        let s1 = settle(s, ts);
        Fold { history: s1.history.push(open_step(ts, s1.model)), ..s1 }
    } else if t == "content.part"@ {
        match (event.get("part"@), last_partial(s.history)) {
            (Some(part), Some(k)) => Fold {
                history: s.history.update(
                    k,
                    FoldedView { content: s.history[k].content.push(normalized_part(part, blobs)), ..s.history[k] },
                ),
                ..s
            },
            _ => s,
        }
    } else if t == "tool.call"@ {
        let id = str_or(event.get_str("toolCallId"@), ""@);
        let s1 = Fold { pending: s.pending.push(id), ..s };
        match last_partial(s1.history) {
            Some(k) => Fold {
                history: s1.history.update(
                    k,
                    FoldedView { tool_calls: s1.history[k].tool_calls.push(event_tool_use(event)), ..s1.history[k] },
                ),
                ..s1
            },
            None => s1,
        }
    } else if t == "tool.result"@ {
        match event.get_str("toolCallId"@) {
            None => s,
            Some(id) => if !s.pending.contains(id) {
                s
            } else {
                let result = match event.get("result"@) {
                    Some(r) => r,
                    None => JsonView::Null,
                };
                let output = match result.get("output"@) {
                    Some(o) => o,
                    None => JsonView::Null,
                };
                flush(
                    Fold {
                        history: s.history.push(tool_message(id, output, result.get_bool("isError"@), ts)),
                        pending: without(s.pending, id),
                        ..s
                    },
                )
            },
        }
    } else if t == "step.end"@ {
        settle(s, ts)
    } else {
        s
    }
}

/// `ids` without the entries equal to `id`.
pub open spec fn without(ids: Seq<Seq<char>>, id: Seq<char>) -> Seq<Seq<char>>
    decreases ids.len(),
{
    if ids.len() == 0 {
        ids
    } else if ids.last() == id {
        without(ids.drop_last(), id)
    } else {
        without(ids.drop_last(), id).push(ids.last())
    }
}

/// A usage count, truncated to 32 bits.
pub open spec fn usage_field(usage: JsonView, name: Seq<char>) -> Option<u32> {
    match usage.get_u64(name) {
        Some(v) => Some(v as u32),
        None => None,
    }
}

/// Saturating sum of two optional counts; absent when both are absent.
pub open spec fn add_count(a: Option<u32>, b: Option<u32>) -> Option<u32> {
    if a is None && b is None {
        None
    } else {
        let x = (match a { Some(v) => v, None => 0 }) as int + (match b { Some(v) => v, None => 0 }) as int;
        Some(if x > u32::MAX { u32::MAX } else { x as u32 })
    }
}

/// A step's usage with one `usage.record` added.
pub open spec fn add_usage(current: Option<TokenUsage>, usage: JsonView) -> TokenUsage {
    let t = match current {
        Some(t) => t,
        None => TokenUsage {
            input_tokens: None,
            output_tokens: None,
            cache_creation_input_tokens: None,
            cache_read_input_tokens: None,
        },
    };
    TokenUsage {
        input_tokens: add_count(t.input_tokens, usage_field(usage, "inputOther"@)),
        output_tokens: add_count(t.output_tokens, usage_field(usage, "output"@)),
        cache_creation_input_tokens: add_count(t.cache_creation_input_tokens, usage_field(usage, "inputCacheCreation"@)),
        cache_read_input_tokens: add_count(t.cache_read_input_tokens, usage_field(usage, "inputCacheRead"@)),
    }
}

/// `usage.record`: the counts are added to the latest assistant step; a record with
/// no assistant to attach to is dropped.
pub open spec fn usage_record(s: Fold, usage: JsonView) -> Fold {
    match last_usage_target(s.history) {
        Some(k) => if s.history[k].role == "assistant"@ {
            Fold {
                history: s.history.update(
                    k,
                    FoldedView { usage: Some(add_usage(s.history[k].usage, usage)), ..s.history[k] },
                ),
                ..s
            }
        } else {
            s
        },
        None => s,
    }
}

pub open spec fn origin_kind(m: FoldedView) -> Option<Seq<char>> {
    match m.origin {
        Some(o) => o.get_str("kind"@),
        None => None,
    }
}

/// A user message the user triggered: plain, or a user-slash skill or plugin command.
pub open spec fn is_undo_anchor(m: FoldedView) -> bool {
    m.role == "user"@ && match origin_kind(m) {
        None => true,
        Some(k) => if k == "user"@ {
            true
        } else if k == "skill_activation"@ || k == "plugin_command"@ {
            match m.origin {
                Some(o) => o.get_str("trigger"@) == Some("user-slash"@),
                None => false,
            }
        } else {
            false
        },
    }
}

/// An injection that the prompt with id `prompt_id` owns.
pub open spec fn owned_injection(m: FoldedView, prompt_id: Option<Seq<char>>) -> bool {
    origin_kind(m) == Some("injection"@) && match (m.origin, prompt_id) {
        (Some(o), Some(p)) => o.get_str("ownerPromptId"@) == Some(p),
        _ => false,
    }
}

/// The cut point moved back over the injections that the anchor owns.
pub open spec fn extend_owned(h: Seq<FoldedView>, cut: int, prompt_id: Option<Seq<char>>) -> int
    decreases cut,
{
    if cut > 0 && cut <= h.len() && owned_injection(h[cut - 1], prompt_id) {
        extend_owned(h, cut - 1, prompt_id)
    } else {
        cut
    }
}

/// Walk back from index `i` counting undo anchors: `None` when the walk meets a
/// compaction summary, else the cut point of the last anchor counted.
pub open spec fn undo_scan(h: Seq<FoldedView>, i: int, remaining: nat, cut: Option<int>) -> Option<Option<int>>
    decreases i + 1,
{
    if i < 0 || i >= h.len() || remaining == 0 {
        Some(cut)
    } else if origin_kind(h[i]) == Some("injection"@) {
        undo_scan(h, i - 1, remaining, cut)
    } else if origin_kind(h[i]) == Some("compaction_summary"@) {
        None
    } else if is_undo_anchor(h[i]) {
        undo_scan(h, i - 1, (remaining - 1) as nat, Some(extend_owned(h, i, h[i].id)))
    } else {
        undo_scan(h, i - 1, remaining, cut)
    }
}

/// Where `context.undo` with `count` cuts the history, if it cuts at all.
pub open spec fn undo_cut_point(h: Seq<FoldedView>, count: nat) -> Option<int> {
    if h.len() == 0 {
        None
    } else {
        match undo_scan(h, h.len() - 1, count, None) {
            Some(Some(c)) => Some(c),
            _ => None,
        }
    }
}

/// `context.undo`: the history is cut, and with it the open tool exchange.
pub open spec fn undo(s: Fold, count: nat) -> Fold {
    match undo_cut_point(s.history, count) {
        Some(c) => Fold { history: s.history.subrange(0, c), pending: Seq::empty(), deferred: Seq::empty(), ..s },
        None => s,
    }
}

/// The first `text` of the parts of a summary message.
pub open spec fn first_text(parts: Seq<JsonView>) -> Option<Seq<char>>
    decreases parts.len(),
{
    if parts.len() == 0 {
        None
    } else {
        match parts[0].get_str("text"@) {
            Some(t) => Some(t),
            None => first_text(parts.drop_first()),
        }
    }
}

/// The summary text of a `context.apply_compaction` record.
pub open spec fn compaction_text(record: JsonView) -> Option<Seq<char>> {
    let summary = match record.get("contextSummary"@) {
        Some(v) => v,
        None => match record.get("summary"@) {
            Some(v) => v,
            None => JsonView::Null,
        },
    };
    match summary {
        JsonView::Str(t) => Some(t),
        JsonView::Object(_) => match summary.get_array("content"@) {
            Some(parts) => first_text(parts),
            None => None,
        },
        _ => None,
    }
}

/// The message that stands for a compacted prefix.
pub open spec fn summary_message(text: Seq<char>, ts: Seq<char>) -> FoldedView {
    FoldedView {
        role: "user"@,
        content: seq![text_block("[Compacted context summary]\n\n"@ + text)],
        tool_calls: Seq::empty(),
        tool_call_id: None,
        is_error: None,
        id: None,
        origin: Some(obj(seq![("kind"@, jstr("compaction_summary"@))])),
        partial: false,
        timestamp: ts,
        model: None,
        usage: None,
    }
}

/// `context.apply_compaction`: the history is replaced by the summary message (none
/// when the summary is blank), and the open tool exchange is dropped.
pub open spec fn compaction(s: Fold, record: JsonView, ts: Seq<char>) -> Fold {
    Fold {
        history: match compaction_text(record) {
            Some(t) => if !is_blank(t) { seq![summary_message(t, ts)] } else { Seq::empty() },
            None => Seq::empty(),
        },
        pending: Seq::empty(),
        deferred: Seq::empty(),
        ..s
    }
}

/// The RFC 3339 text of an epoch-milliseconds timestamp.
pub open spec fn rfc3339_ms(ms: u64) -> Option<Seq<char>> {
    if ms <= i64::MAX {
        rfc3339_of_millis(ms as int)
    } else {
        None
    }
}

/// The timestamp after a record: the record's `time`, when it has a printable one.
pub open spec fn record_time(record: JsonView, last_ts: Seq<char>) -> Seq<char> {
    match record.get_u64("time"@) {
        Some(ms) => match rfc3339_ms(ms) {
            Some(t) => t,
            None => last_ts,
        },
        None => last_ts,
    }
}

/// One journal record.
pub open spec fn record_step(s: Fold, record: JsonView, ts: Seq<char>, blobs: Blobs) -> Fold {
    let t = str_or(record.get_str("type"@), ""@);
    if t == "profile.bind"@ || t == "llm.request"@ {
        match record.get_str("modelAlias"@) {
            Some(a) => Fold { model: Some(a), ..s },
            None => match record.get_str("model"@) {
                Some(a) => Fold { model: Some(a), ..s },
                None => s,
            },
        }
    } else if t == "context.append_message"@ {
        match record.get("message"@) {
            Some(m) => append_message(s, m, ts, blobs),
            None => s,
        }
    } else if t == "context.append_loop_event"@ {
        match record.get("event"@) {
            Some(e) => loop_event(s, e, ts, blobs),
            None => s,
        }
    } else if t == "context.clear"@ {
        Fold { history: Seq::empty(), pending: Seq::empty(), deferred: Seq::empty(), ..s }
    } else if t == "context.undo"@ {
        undo(s, (match record.get_u64("count"@) { Some(c) => c, None => 1 }) as usize as nat)
    } else if t == "usage.record"@ {
        match record.get("usage"@) {
            Some(u) => usage_record(s, u),
            None => s,
        }
    } else if t == "context.apply_compaction"@ {
        compaction(s, record, ts)
    } else {
        s
    }
}

/// The state and timestamp after replaying `lines` from an empty state: blank and
/// malformed lines are skipped.
pub open spec fn replay(lines: Seq<Seq<char>>, blobs: Blobs, fallback_ts: Seq<char>) -> (Fold, Seq<char>)
    decreases lines.len(),
{
    if lines.len() == 0 {
        (Fold { history: Seq::empty(), pending: Seq::empty(), deferred: Seq::empty(), model: None }, fallback_ts)
    } else {
        let (s, ts) = replay(lines.drop_last(), blobs, fallback_ts);
        let line = lines.last();
        if is_blank(line) {
            (s, ts)
        } else {
            match parsed_json(line) {
                Some(record) => {
                    let ts2 = record_time(record, ts);
                    (record_step(s, record, ts2, blobs), ts2)
                },
                None => (s, ts),
            }
        }
    }
}

/// The history of a replayed journal, with a step left open at the end settled.
pub open spec fn folded_history(lines: Seq<Seq<char>>, blobs: Blobs, fallback_ts: Seq<char>) -> Seq<FoldedView> {
    let (s, ts) = replay(lines, blobs, fallback_ts);
    settle(s, ts).history
}

/// The tool output carried by the first marker part, or `null`.
pub open spec fn marker_output(parts: Seq<JsonView>) -> JsonView
    decreases parts.len(),
{
    if parts.len() == 0 {
        JsonView::Null
    } else {
        match parts[0].get(output_key()) {
            Some(o) => o,
            None => marker_output(parts.drop_first()),
        }
    }
}

/// The viewer `tool_result` block of a folded tool message.
pub open spec fn tool_result_block(m: FoldedView) -> JsonView {
    let entries = seq![
        ("type"@, jstr("tool_result"@)),
        ("tool_use_id"@, jstr(str_or(m.tool_call_id, ""@))),
        ("content"@, marker_output(m.content)),
    ];
    if m.is_error == Some(true) {
        obj(entries.push(("is_error"@, JsonView::Bool(true))))
    } else {
        obj(entries)
    }
}

/// The viewer message of the folded message at `index`: user and system messages
/// show as user turns, tool messages as a `tool_result`; other roles are dropped.
pub open spec fn converted_message(m: FoldedView, session_id: Seq<char>, index: nat) -> Option<MessageView> {
    let uuid = session_id + "-"@ + decimal(index);
    if m.role == "user"@ || m.role == "system"@ {
        Some(provider_message("kimi"@, uuid, session_id, m.timestamp, "user"@, Some("user"@),
            Some(JsonView::Array(m.content + m.tool_calls)), None))
    } else if m.role == "assistant"@ {
        Some(MessageView {
            usage: m.usage,
            ..provider_message("kimi"@, uuid, session_id, m.timestamp, "assistant"@, Some("assistant"@),
                Some(JsonView::Array(m.content + m.tool_calls)), m.model)
        })
    } else if m.role == "tool"@ {
        Some(provider_message("kimi"@, uuid, session_id, m.timestamp, "tool"@, Some("tool"@),
            Some(JsonView::Array(seq![tool_result_block(m)])), None))
    } else {
        None
    }
}

/// The viewer messages of a folded history, in order.
pub open spec fn converted(h: Seq<FoldedView>, session_id: Seq<char>) -> Seq<MessageView>
    decreases h.len(),
{
    if h.len() == 0 {
        Seq::empty()
    } else {
        let prev = converted(h.drop_last(), session_id);
        match converted_message(h.last(), session_id, (h.len() - 1) as nat) {
            Some(m) => prev.push(m),
            None => prev,
        }
    }
}

/// The viewer messages of a session journal.
pub open spec fn wire_messages(lines: Seq<Seq<char>>, blobs: Blobs, session_id: Seq<char>, fallback_ts: Seq<char>) -> Seq<MessageView> {
    converted(folded_history(lines, blobs, fallback_ts), session_id)
}

// ---------------------------------------------------------------------------
// Sequence facts
// ---------------------------------------------------------------------------

proof fn lemma_folded_push(h: Seq<FoldedMessage>, m: FoldedMessage)
    ensures
        folded_seq(h.push(m)) == folded_seq(h).push(m@),
{
    assert(folded_seq(h.push(m)) =~= folded_seq(h).push(m@));
}

proof fn lemma_folded_concat(a: Seq<FoldedMessage>, b: Seq<FoldedMessage>)
    ensures
        folded_seq(a + b) == folded_seq(a) + folded_seq(b),
{
    assert(folded_seq(a + b) =~= folded_seq(a) + folded_seq(b));
}

proof fn lemma_folded_remove(h: Seq<FoldedMessage>, k: int)
    requires
        0 <= k < h.len(),
    ensures
        folded_seq(h.remove(k)) == folded_seq(h).remove(k),
{
    assert(folded_seq(h.remove(k)) =~= folded_seq(h).remove(k));
}

proof fn lemma_folded_update(h: Seq<FoldedMessage>, k: int, m: FoldedMessage)
    requires
        0 <= k < h.len(),
    ensures
        folded_seq(h.remove(k).insert(k, m)) == folded_seq(h).update(k, m@),
{
    assert(folded_seq(h.remove(k).insert(k, m)) =~= folded_seq(h).update(k, m@));
}

proof fn lemma_folded_take(h: Seq<FoldedMessage>, n: int)
    requires
        0 <= n <= h.len(),
    ensures
        folded_seq(h.subrange(0, n)) == folded_seq(h).subrange(0, n),
{
    assert(folded_seq(h.subrange(0, n)) =~= folded_seq(h).subrange(0, n));
}

proof fn lemma_last_partial_take(h: Seq<FoldedView>, i: int)
    requires
        0 <= i <= h.len(),
        forall|j: int| i <= j < h.len() ==> !(#[trigger] h[j]).partial,
    ensures
        last_partial(h) == last_partial(h.subrange(0, i)),
    decreases h.len() - i,
{
    if i < h.len() {
        lemma_last_partial_take(h.drop_last(), i);
        assert(h.drop_last().subrange(0, i) =~= h.subrange(0, i));
    } else {
        assert(h.subrange(0, i) =~= h);
    }
}

proof fn lemma_last_usage_target_take(h: Seq<FoldedView>, i: int)
    requires
        0 <= i <= h.len(),
        forall|j: int| i <= j < h.len() ==> !usage_target(#[trigger] h[j]),
    ensures
        last_usage_target(h) == last_usage_target(h.subrange(0, i)),
    decreases h.len() - i,
{
    if i < h.len() {
        lemma_last_usage_target_take(h.drop_last(), i);
        assert(h.drop_last().subrange(0, i) =~= h.subrange(0, i));
    } else {
        assert(h.subrange(0, i) =~= h);
    }
}

// ---------------------------------------------------------------------------
// Replay, one step at a time
// ---------------------------------------------------------------------------

/// A folded tool message carrying `output`.
fn make_tool_message(id: String, output: Json, is_error: Option<bool>, ts: &str) -> (m: FoldedMessage)
    ensures
        m@ == tool_message(id@, output@, is_error, ts@),
{
    let content = vec![make_output_marker(output)];
    let tool_calls: Vec<Json> = Vec::new();
    let m = FoldedMessage {
        role: own("tool"),
        content,
        tool_calls,
        tool_call_id: Some(id),
        is_error,
        id: None,
        origin: None,
        partial: false,
        timestamp: own(ts),
        model: None,
        usage: None,
    };
    assert(items_view(m.content@) =~= seq![output_marker(output@)]);
    assert(items_view(m.tool_calls@) =~= Seq::<JsonView>::empty());
    m
}

/// The open assistant step, if any.
fn find_last_partial(history: &Vec<FoldedMessage>) -> (r: Option<usize>)
    ensures
        match r {
            Some(k) => k < history@.len() && last_partial(folded_seq(history@)) == Some(k as int),
            None => last_partial(folded_seq(history@)) is None,
        },
{
    let ghost hv = folded_seq(history@);
    let mut i = history.len();
    while i > 0
        invariant
            hv == folded_seq(history@),
            i <= history@.len(),
            forall|j: int| i <= j < hv.len() ==> !(#[trigger] hv[j]).partial,
        decreases i,
    {
        if history[i - 1].partial {
            proof {
                lemma_last_partial_take(hv, i as int);
                assert(hv.subrange(0, i as int).last() == hv[i - 1]);
            }
            return Some(i - 1);
        }
        i = i - 1;
    }
    proof {
        lemma_last_partial_take(hv, 0);
    }
    None
}

/// Deferred messages join the history once no tool call is pending.
pub fn flush_deferred(history: &mut Vec<FoldedMessage>, state: &mut FoldState)
    ensures
        fold_of(final(history)@, *final(state)) == flush(fold_of(old(history)@, *old(state))),
{
    if !state.pending.is_empty() || state.deferred.is_empty() {
        return;
    }
    proof {
        lemma_folded_concat(history@, state.deferred@);
    }
    history.append(&mut state.deferred);
    assert(folded_seq(state.deferred@) =~= Seq::<FoldedView>::empty());
}

/// Pending tool calls get an interrupted error result each, then deferred messages flush.
pub fn close_pending(history: &mut Vec<FoldedMessage>, state: &mut FoldState, timestamp: &str)
    ensures
        fold_of(final(history)@, *final(state)) == close_pending_spec(fold_of(old(history)@, *old(state)), timestamp@),
{
    if state.pending.is_empty() {
        return;
    }
    let ghost s0 = fold_of(history@, *state);
    let ghost h0 = history@;
    let mut ids: Vec<String> = Vec::new();
    std::mem::swap(&mut ids, &mut state.pending);
    let ghost added = Seq::new(
        s0.pending.len(),
        |i: int| tool_message(s0.pending[i], jstr(interrupted_text()), Some(true), timestamp@),
    );
    let mut i: usize = 0;
    while i < ids.len()
        invariant
            strings_view(ids@) == s0.pending,
            state.pending@.len() == 0,
            folded_seq(state.deferred@) == s0.deferred,
            opt_str(state.model) == s0.model,
            h0 == old(history)@,
            s0.history == folded_seq(h0),
            i <= ids@.len(),
            added.len() == ids@.len(),
            forall|j: int| 0 <= j < added.len() ==> added[j] == tool_message(s0.pending[j], jstr(interrupted_text()), Some(true), timestamp@),
            folded_seq(history@) == folded_seq(h0) + added.subrange(0, i as int),
        decreases ids.len() - i,
    {
        let m = make_tool_message(ids[i].clone(), Json::string("Tool execution was interrupted before its result was recorded. Do not assume the tool completed successfully."), Some(true), timestamp);
        proof {
            lemma_folded_push(history@, m);
        }
        history.push(m);
        i = i + 1;
        proof {
            assert(added.subrange(0, i as int) =~= added.subrange(0, i - 1).push(added[i - 1]));
        }
    }
    proof {
        assert(added.subrange(0, i as int) =~= added);
        assert(strings_view(state.pending@) =~= Seq::<Seq<char>>::empty());
    }
    flush_deferred(history, state);
}

/// Whether the open step at `k` recorded nothing sendable.
fn is_vacuous_step(m: &FoldedMessage) -> (r: bool)
    ensures
        r == vacuous_step(m@),
{
    if !m.tool_calls.is_empty() {
        return false;
    }
    let mut i: usize = 0;
    while i < m.content.len()
        invariant
            i <= m.content@.len(),
            forall|j: int| 0 <= j < i ==> is_vacuous_part(#[trigger] items_view(m.content@)[j]) && items_view(m.content@)[j].get(output_key()) is None,
        decreases m.content.len() - i,
    {
        if !(is_vacuous_content_part(&m.content[i]) && m.content[i].get("__kimi_code_output").is_none()) {
            assert(!(is_vacuous_part(items_view(m.content@)[i as int]) && items_view(m.content@)[i as int].get(output_key()) is None));
            return false;
        }
        i = i + 1;
    }
    true
}

/// `step.end`: pending calls become interrupted results, the open step is dropped
/// when vacuous or sealed otherwise, and deferred messages flush.
pub fn settle_open_step(history: &mut Vec<FoldedMessage>, state: &mut FoldState, timestamp: &str)
    ensures
        fold_of(final(history)@, *final(state)) == settle(fold_of(old(history)@, *old(state)), timestamp@),
{
    close_pending(history, state, timestamp);
    let ghost s1 = fold_of(history@, *state);
    match find_last_partial(history) {
        Some(k) => {
            if is_vacuous_step(&history[k]) {
                proof {
                    lemma_folded_remove(history@, k as int);
                }
                history.remove(k);
            } else {
                let ghost h1 = history@;
                let mut m = history.remove(k);
                m.partial = false;
                proof {
                    lemma_folded_update(h1, k as int, m);
                }
                history.insert(k, m);
                assert(m@ == FoldedView { partial: false, ..s1.history[k as int] });
            }
        },
        None => {},
    }
    flush_deferred(history, state);
}

/// Adds two optional counts (see `add_count`).
fn add_count_exec(a: Option<u32>, b: Option<u32>) -> (r: Option<u32>)
    ensures
        r == add_count(a, b),
{
    match (a, b) {
        (None, None) => None,
        _ => {
            let x = match a { Some(v) => v, None => 0 };
            let y = match b { Some(v) => v, None => 0 };
            Some(x.saturating_add(y))
        },
    }
}

/// A usage count, truncated to 32 bits.
fn usage_field_exec(usage: &Json, name: &str) -> (r: Option<u32>)
    ensures
        r == usage_field(usage@, name@),
{
    match usage.get_u64(name) {
        Some(v) => Some(v as u32),
        None => None,
    }
}

/// `usage.record`: the counts are added to the latest assistant step.
pub fn fold_usage_record(history: &mut Vec<FoldedMessage>, usage: &Json)
    ensures
        folded_seq(final(history)@) == usage_record(
            Fold { history: folded_seq(old(history)@), pending: Seq::empty(), deferred: Seq::empty(), model: None },
            usage@,
        ).history,
{
    let ghost hv = folded_seq(history@);
    let mut i = history.len();
    while i > 0
        invariant
            hv == folded_seq(history@),
            history@ == old(history)@,
            i <= history@.len(),
            forall|j: int| i <= j < hv.len() ==> !usage_target(#[trigger] hv[j]),
        ensures
            i == 0 || usage_target(hv[i - 1]),
        decreases i,
    {
        if history[i - 1].partial || str_eq(history[i - 1].role.as_str(), "assistant") {
            break;
        }
        i = i - 1;
    }
    proof {
        lemma_last_usage_target_take(hv, i as int);
    }
    if i == 0 {
        assert(last_usage_target(hv.subrange(0, 0)) is None);
        return;
    }
    let k = i - 1;
    assert(hv.subrange(0, i as int).last() == hv[k as int]);
    if !str_eq(history[k].role.as_str(), "assistant") {
        return;
    }
    let current = history[k].usage;
    let base = match current {
        Some(t) => t,
        None => TokenUsage {
            input_tokens: None,
            output_tokens: None,
            cache_creation_input_tokens: None,
            cache_read_input_tokens: None,
        },
    };
    let total = TokenUsage {
        input_tokens: add_count_exec(base.input_tokens, usage_field_exec(usage, "inputOther")),
        output_tokens: add_count_exec(base.output_tokens, usage_field_exec(usage, "output")),
        cache_creation_input_tokens: add_count_exec(base.cache_creation_input_tokens, usage_field_exec(usage, "inputCacheCreation")),
        cache_read_input_tokens: add_count_exec(base.cache_read_input_tokens, usage_field_exec(usage, "inputCacheRead")),
    };
    let ghost h1 = history@;
    let mut m = history.remove(k);
    m.usage = Some(total);
    proof {
        lemma_folded_update(h1, k as int, m);
    }
    history.insert(k, m);
}

/// The content parts of a wire message (see `message_content`).
fn message_content_of(message: &Json, blobs: Option<&BlobStore>) -> (r: Vec<Json>)
    ensures
        items_view(r@) == message_content(message@, opt_store(blobs)),
{
    match message.get("content") {
        Some(Json::Array(items)) => {
            proof {
                crate::json::lemma_array_view(*items);
            }
            let mut out: Vec<Json> = Vec::new();
            let mut i: usize = 0;
            while i < items.len()
                invariant
                    i <= items@.len(),
                    out@.len() == i,
                    forall|j: int| 0 <= j < i ==> (#[trigger] out@[j])@ == normalized_part(items@[j]@, opt_store(blobs)),
                decreases items.len() - i,
            {
                out.push(normalize_content_part(&items[i], blobs));
                i = i + 1;
            }
            assert(items_view(out@) =~= message_content(message@, opt_store(blobs)));
            out
        },
        Some(Json::Str(text)) => {
            let out = vec![make_text_block(text.as_str())];
            assert(items_view(out@) =~= message_content(message@, opt_store(blobs)));
            out
        },
        _ => {
            let out: Vec<Json> = Vec::new();
            assert(items_view(out@) =~= message_content(message@, opt_store(blobs)));
            out
        },
    }
}

/// The tool calls of a wire message (see `message_tool_calls`).
fn message_tool_calls_of(message: &Json) -> (r: Vec<Json>)
    ensures
        items_view(r@) == message_tool_calls(message@),
{
    match message.get_array("toolCalls") {
        Some(calls) => {
            let mut out: Vec<Json> = Vec::new();
            let mut i: usize = 0;
            while i < calls.len()
                invariant
                    i <= calls@.len(),
                    out@.len() == i,
                    forall|j: int| 0 <= j < i ==> (#[trigger] out@[j])@ == tool_use_block(calls@[j]@),
                decreases calls.len() - i,
            {
                out.push(convert_tool_call(&calls[i]));
                i = i + 1;
            }
            assert(items_view(out@) =~= message_tool_calls(message@));
            out
        },
        None => {
            let out: Vec<Json> = Vec::new();
            assert(items_view(out@) =~= message_tool_calls(message@));
            out
        },
    }
}

/// `context.append_message` (see `append_message`).
pub fn fold_append_message(
    history: &mut Vec<FoldedMessage>,
    state: &mut FoldState,
    message: &Json,
    timestamp: &str,
    blobs: Option<&BlobStore>,
)
    ensures
        fold_of(final(history)@, *final(state)) == append_message(
            fold_of(old(history)@, *old(state)),
            message@,
            timestamp@,
            opt_store(blobs),
        ),
{
    let role = str_or_default(message.get_str("role"), "");
    if role.is_empty() {
        return;
    }
    let folded = FoldedMessage {
        role: own(role),
        content: message_content_of(message, blobs),
        tool_calls: message_tool_calls_of(message),
        tool_call_id: opt_own(message.get_str("toolCallId")),
        is_error: message.get_bool("isError"),
        id: opt_own(message.get_str("id")),
        origin: match message.get("origin") {
            Some(o) => Some(o.duplicate()),
            None => None,
        },
        partial: false,
        timestamp: own(timestamp),
        model: clone_opt_string(&state.model),
        usage: None,
    };
    if state.pending.is_empty() {
        proof {
            lemma_folded_push(history@, folded);
        }
        history.push(folded);
    } else {
        proof {
            lemma_folded_push(state.deferred@, folded);
        }
        state.deferred.push(folded);
    }
}

/// The `tool_use` block of a `tool.call` event.
fn make_event_tool_use(event: &Json) -> (r: Json)
    ensures
        r@ == event_tool_use(event@),
{
    let input = match event.get("args") {
        Some(a) => a.duplicate(),
        None => {
            let e: Vec<(String, Json)> = Vec::new();
            assert(entries_view(e@) =~= Seq::empty());
            Json::object(e)
        },
    };
    assert(input@ == event_args(event@));
    let id = str_or_default(event.get_str("toolCallId"), "");
    let name = str_or_default(event.get_str("name"), "tool");
    assert(id@ == str_or(event@.get_str("toolCallId"@), ""@));
    assert(name@ == str_or(event@.get_str("name"@), "tool"@));
    crate::json::obj4(
        "type",
        Json::string("tool_use"),
        "id",
        Json::string(id),
        "name",
        Json::string(name),
        "input",
        input,
    )
}

/// Whether `id` is among the pending tool calls.
fn pending_contains(pending: &Vec<String>, id: &str) -> (r: bool)
    ensures
        r == strings_view(pending@).contains(id@),
{
    let mut i: usize = 0;
    while i < pending.len()
        invariant
            i <= pending@.len(),
            forall|j: int| 0 <= j < i ==> pending@[j]@ != id@,
        decreases pending.len() - i,
    {
        if str_eq(pending[i].as_str(), id) {
            assert(strings_view(pending@)[i as int] == id@);
            return true;
        }
        i = i + 1;
    }
    assert(!strings_view(pending@).contains(id@));
    false
}

/// The pending ids other than `id`, in order.
fn pending_without(pending: &Vec<String>, id: &str) -> (r: Vec<String>)
    ensures
        strings_view(r@) == without(strings_view(pending@), id@),
{
    let ghost pv = strings_view(pending@);
    let mut out: Vec<String> = Vec::new();
    let mut i: usize = 0;
    while i < pending.len()
        invariant
            pv == strings_view(pending@),
            i <= pending@.len(),
            strings_view(out@) == without(pv.subrange(0, i as int), id@),
        decreases pending.len() - i,
    {
        proof {
            assert(pv.subrange(0, i + 1).drop_last() =~= pv.subrange(0, i as int));
            assert(pv.subrange(0, i as int).push(pv[i as int]) =~= pv.subrange(0, i + 1));
        }
        if !str_eq(pending[i].as_str(), id) {
            let ghost before = out@;
            out.push(pending[i].clone());
            assert(strings_view(out@) =~= strings_view(before).push(pv[i as int]));
        }
        i = i + 1;
    }
    assert(pv.subrange(0, i as int) =~= pv);
    out
}

proof fn lemma_strings_push(v: Seq<String>, x: String)
    ensures
        strings_view(v.push(x)) == strings_view(v).push(x@),
{
    assert(strings_view(v.push(x)) =~= strings_view(v).push(x@));
}

proof fn lemma_items_push(v: Seq<Json>, x: Json)
    ensures
        items_view(v.push(x)) == items_view(v).push(x@),
{
    assert(items_view(v.push(x)) =~= items_view(v).push(x@));
}

/// A freshly opened assistant step.
fn make_open_step(ts: &str, model: Option<String>) -> (m: FoldedMessage)
    ensures
        m@ == open_step(ts@, opt_str(model)),
{
    let content: Vec<Json> = Vec::new();
    let tool_calls: Vec<Json> = Vec::new();
    let m = FoldedMessage {
        role: own("assistant"),
        content,
        tool_calls,
        tool_call_id: None,
        is_error: None,
        id: None,
        origin: None,
        partial: true,
        timestamp: own(ts),
        model,
        usage: None,
    };
    assert(items_view(m.content@) =~= Seq::<JsonView>::empty());
    assert(items_view(m.tool_calls@) =~= Seq::<JsonView>::empty());
    m
}

/// `context.append_loop_event` (see `loop_event`).
pub fn fold_loop_event(
    history: &mut Vec<FoldedMessage>,
    state: &mut FoldState,
    event: &Json,
    timestamp: &str,
    blobs: Option<&BlobStore>,
)
    ensures
        fold_of(final(history)@, *final(state)) == loop_event(
            fold_of(old(history)@, *old(state)),
            event@,
            timestamp@,
            opt_store(blobs),
        ),
{
    let t = str_or_default(event.get_str("type"), "");
    if str_eq(t, "step.begin") {
        settle_open_step(history, state, timestamp);
        let m = make_open_step(timestamp, clone_opt_string(&state.model));
        proof {
            lemma_folded_push(history@, m);
        }
        history.push(m);
    } else if str_eq(t, "content.part") {
        match event.get("part") {
            Some(part) => {
                let normalized = normalize_content_part(part, blobs);
                match find_last_partial(history) {
                    Some(k) => {
                        let ghost h1 = history@;
                        let mut m = history.remove(k);
                        proof {
                            lemma_items_push(m.content@, normalized);
                        }
                        m.content.push(normalized);
                        proof {
                            lemma_folded_update(h1, k as int, m);
                        }
                        history.insert(k, m);
                    },
                    None => {},
                }
            },
            None => {},
        }
    } else if str_eq(t, "tool.call") {
        let id = own(str_or_default(event.get_str("toolCallId"), ""));
        let call = make_event_tool_use(event);
        proof {
            lemma_strings_push(state.pending@, id);
        }
        state.pending.push(id);
        match find_last_partial(history) {
            Some(k) => {
                let ghost h1 = history@;
                let mut m = history.remove(k);
                proof {
                    lemma_items_push(m.tool_calls@, call);
                }
                m.tool_calls.push(call);
                proof {
                    lemma_folded_update(h1, k as int, m);
                }
                history.insert(k, m);
            },
            None => {},
        }
    } else if str_eq(t, "tool.result") {
        match event.get_str("toolCallId") {
            None => {},
            Some(id) => {
                if !pending_contains(&state.pending, id) {
                    return;
                }
                state.pending = pending_without(&state.pending, id);
                let result = event.get("result");
                let output = match result {
                    Some(r) => duplicate_or_null(r.get("output")),
                    None => Json::Null,
                };
                let is_error = match result {
                    Some(r) => r.get_bool("isError"),
                    None => None,
                };
                let m = make_tool_message(own(id), output, is_error, timestamp);
                proof {
                    lemma_folded_push(history@, m);
                }
                history.push(m);
                flush_deferred(history, state);
            },
        }
    } else if str_eq(t, "step.end") {
        settle_open_step(history, state, timestamp);
    }
}

/// The origin kind of a folded message.
fn origin_kind_of(m: &FoldedMessage) -> (r: Option<&str>)
    ensures
        match r {
            Some(k) => origin_kind(m@) == Some(k@),
            None => origin_kind(m@) is None,
        },
{
    match &m.origin {
        Some(o) => o.get_str("kind"),
        None => None,
    }
}

/// Whether a folded message is an undo anchor (see `is_undo_anchor`).
fn is_undo_anchor_exec(m: &FoldedMessage) -> (r: bool)
    ensures
        r == is_undo_anchor(m@),
{
    if !str_eq(m.role.as_str(), "user") {
        return false;
    }
    match origin_kind_of(m) {
        None => true,
        Some(k) => {
            if str_eq(k, "user") {
                true
            } else if str_eq(k, "skill_activation") || str_eq(k, "plugin_command") {
                match &m.origin {
                    Some(o) => match o.get_str("trigger") {
                        Some(tr) => str_eq(tr, "user-slash"),
                        None => false,
                    },
                    None => false,
                }
            } else {
                false
            }
        },
    }
}

/// Whether `m` is an injection owned by the prompt with id `prompt_id`.
fn is_owned_injection(m: &FoldedMessage, prompt_id: Option<&str>) -> (r: bool)
    ensures
        r == owned_injection(m@, match prompt_id {
            Some(p) => Some(p@),
            None => None,
        }),
{
    let is_injection = match origin_kind_of(m) {
        Some(k) => str_eq(k, "injection"),
        None => false,
    };
    if !is_injection {
        return false;
    }
    match (&m.origin, prompt_id) {
        (Some(o), Some(p)) => match o.get_str("ownerPromptId") {
            Some(owner) => str_eq(owner, p),
            None => false,
        },
        _ => false,
    }
}

/// `context.undo`: cuts the last `count` user turns (see `undo_cut_point`); returns
/// whether anything was cut.
pub fn apply_undo_cut(history: &mut Vec<FoldedMessage>, count: usize) -> (cut: bool)
    ensures
        match undo_cut_point(folded_seq(old(history)@), count as nat) {
            Some(c) => cut && 0 <= c <= old(history)@.len() && folded_seq(final(history)@) == folded_seq(old(history)@).subrange(0, c),
            None => !cut && final(history)@ == old(history)@,
        },
{
    if history.is_empty() {
        return false;
    }
    let ghost hv = folded_seq(history@);
    let ghost len = history@.len() as int;
    let mut remaining = count;
    let mut cut_index: Option<usize> = None;
    let mut i = history.len();
    while i > 0
        invariant
            hv == folded_seq(history@),
            history@ == old(history)@,
            len == history@.len(),
            i <= history@.len(),
            cut_index matches Some(c) ==> c <= history@.len(),
            undo_scan(hv, len - 1, count as nat, None) == undo_scan(hv, i - 1, remaining as nat, match cut_index {
                Some(c) => Some(c as int),
                None => None,
            }),
        ensures
            i == 0 || remaining == 0,
        decreases i,
    {
        if remaining == 0 {
            break;
        }
        let j = i - 1;
        let kind = origin_kind_of(&history[j]);
        let is_injection = match kind {
            Some(k) => str_eq(k, "injection"),
            None => false,
        };
        let is_summary = match kind {
            Some(k) => str_eq(k, "compaction_summary"),
            None => false,
        };
        if is_injection {
            i = j;
        } else if is_summary {
            return false;
        } else {
            if is_undo_anchor_exec(&history[j]) {
                remaining = remaining - 1;
                let prompt_id: Option<&str> = match &history[j].id {
                    Some(p) => Some(p.as_str()),
                    None => None,
                };
                let mut c = j;
                while c > 0
                    invariant
                        hv == folded_seq(history@),
                        c <= j < history@.len(),
                        extend_owned(hv, j as int, hv[j as int].id) == extend_owned(hv, c as int, hv[j as int].id),
                        match prompt_id {
                            Some(p) => hv[j as int].id == Some(p@),
                            None => hv[j as int].id is None,
                        },
                    ensures
                        extend_owned(hv, j as int, hv[j as int].id) == c,
                    decreases c,
                {
                    if !is_owned_injection(&history[c - 1], prompt_id) {
                        break;
                    }
                    c = c - 1;
                }
                cut_index = Some(c);
            }
            i = j;
        }
    }
    match cut_index {
        Some(c) => {
            proof {
                lemma_folded_take(history@, c as int);
            }
            history.truncate(c);
            true
        },
        None => false,
    }
}

/// The first `text` among the parts of a summary message.
pub(crate) fn first_text_of(parts: &Vec<Json>) -> (r: Option<&str>)
    ensures
        match r {
            Some(t) => first_text(items_view(parts@)) == Some(t@),
            None => first_text(items_view(parts@)) is None,
        },
{
    let ghost pv = items_view(parts@);
    let mut i: usize = 0;
    assert(pv.subrange(0, pv.len() as int) =~= pv);
    while i < parts.len()
        invariant
            pv == items_view(parts@),
            i <= parts@.len(),
            first_text(pv) == first_text(pv.subrange(i as int, pv.len() as int)),
        decreases parts.len() - i,
    {
        assert(pv.subrange(i as int, pv.len() as int)[0] == pv[i as int]);
        assert(pv.subrange(i as int, pv.len() as int).drop_first() =~= pv.subrange(i + 1, pv.len() as int));
        match parts[i].get_str("text") {
            Some(t) => {
                return Some(t);
            },
            None => {},
        }
        i = i + 1;
    }
    None
}

/// The summary text of a compaction record (see `compaction_text`).
fn compaction_text_of(record: &Json) -> (r: Option<&str>)
    ensures
        match r {
            Some(t) => compaction_text(record@) == Some(t@),
            None => compaction_text(record@) is None,
        },
{
    let summary = match record.get("contextSummary") {
        Some(v) => Some(v),
        None => record.get("summary"),
    };
    match summary {
        Some(Json::Str(t)) => Some(t.as_str()),
        Some(v) => match v {
            Json::Object(_) => match v.get_array("content") {
                Some(parts) => first_text_of(parts),
                None => None,
            },
            _ => None,
        },
        None => None,
    }
}

/// `context.apply_compaction` (see `compaction`).
pub fn fold_apply_compaction(history: &mut Vec<FoldedMessage>, state: &mut FoldState, record: &Json, timestamp: &str)
    ensures
        fold_of(final(history)@, *final(state)) == compaction(fold_of(old(history)@, *old(state)), record@, timestamp@),
{
    let text = compaction_text_of(record);
    history.clear();
    state.pending.clear();
    state.deferred.clear();
    assert(folded_seq(state.deferred@) =~= Seq::<FoldedView>::empty());
    assert(strings_view(state.pending@) =~= Seq::<Seq<char>>::empty());
    assert(folded_seq(history@) =~= Seq::<FoldedView>::empty());
    if let Some(t) = text {
        if !blank(t) {
            let body = concat("[Compacted context summary]\n\n", t);
            let content = vec![make_text_block(body.as_str())];
            let tool_calls: Vec<Json> = Vec::new();
            let m = FoldedMessage {
                role: own("user"),
                content,
                tool_calls,
                tool_call_id: None,
                is_error: None,
                id: None,
                origin: Some(obj1("kind", Json::string("compaction_summary"))),
                partial: false,
                timestamp: own(timestamp),
                model: None,
                usage: None,
            };
            assert(items_view(m.content@) =~= seq![text_block("[Compacted context summary]\n\n"@ + t@)]);
            assert(items_view(m.tool_calls@) =~= Seq::<JsonView>::empty());
            proof {
                lemma_folded_push(history@, m);
            }
            history.push(m);
            assert(folded_seq(history@) =~= seq![summary_message(t@, timestamp@)]);
        }
    }
}

/// `profile.bind` / `llm.request`: the model alias of the record, if any.
fn record_model(record: &Json) -> (r: Option<&str>)
    ensures
        match r {
            Some(a) => (match record@.get_str("modelAlias"@) {
                Some(x) => Some(x),
                None => record@.get_str("model"@),
            }) == Some(a@),
            None => record@.get_str("modelAlias"@) is None && record@.get_str("model"@) is None,
        },
{
    match record.get_str("modelAlias") {
        Some(a) => Some(a),
        None => record.get_str("model"),
    }
}

/// The RFC 3339 text of an epoch-milliseconds timestamp (see `rfc3339_ms`).
pub fn ms_to_rfc3339(ms: u64) -> (r: Option<String>)
    ensures
        opt_str(r) == rfc3339_ms(ms),
{
    if ms <= 9223372036854775807u64 {
        millis_to_rfc3339(ms as i64)
    } else {
        None
    }
}

/// Replays one journal record (see `record_step`).
pub fn fold_record(
    history: &mut Vec<FoldedMessage>,
    state: &mut FoldState,
    record: &Json,
    timestamp: &str,
    blobs: Option<&BlobStore>,
)
    ensures
        fold_of(final(history)@, *final(state)) == record_step(
            fold_of(old(history)@, *old(state)),
            record@,
            timestamp@,
            opt_store(blobs),
        ),
{
    let t = str_or_default(record.get_str("type"), "");
    if str_eq(t, "profile.bind") || str_eq(t, "llm.request") {
        match record_model(record) {
            Some(a) => {
                state.model = Some(own(a));
            },
            None => {},
        }
    } else if str_eq(t, "context.append_message") {
        match record.get("message") {
            Some(m) => fold_append_message(history, state, m, timestamp, blobs),
            None => {},
        }
    } else if str_eq(t, "context.append_loop_event") {
        match record.get("event") {
            Some(e) => fold_loop_event(history, state, e, timestamp, blobs),
            None => {},
        }
    } else if str_eq(t, "context.clear") {
        history.clear();
        state.pending.clear();
        state.deferred.clear();
        assert(folded_seq(state.deferred@) =~= Seq::<FoldedView>::empty());
        assert(strings_view(state.pending@) =~= Seq::<Seq<char>>::empty());
        assert(folded_seq(history@) =~= Seq::<FoldedView>::empty());
    } else if str_eq(t, "context.undo") {
        let count = match record.get_u64("count") {
            Some(c) => c as usize,
            None => 1,
        };
        let cut = apply_undo_cut(history, count);
        if cut {
            state.pending.clear();
            state.deferred.clear();
            assert(folded_seq(state.deferred@) =~= Seq::<FoldedView>::empty());
            assert(strings_view(state.pending@) =~= Seq::<Seq<char>>::empty());
        }
    } else if str_eq(t, "usage.record") {
        match record.get("usage") {
            Some(u) => fold_usage_record(history, u),
            None => {},
        }
    } else if str_eq(t, "context.apply_compaction") {
        fold_apply_compaction(history, state, record, timestamp);
    }
}

/// The tool output carried by the first marker part (see `marker_output`).
fn marker_output_of(parts: &Vec<Json>) -> (r: Json)
    ensures
        r@ == marker_output(items_view(parts@)),
{
    let ghost pv = items_view(parts@);
    let mut i: usize = 0;
    assert(pv.subrange(0, pv.len() as int) =~= pv);
    while i < parts.len()
        invariant
            pv == items_view(parts@),
            i <= parts@.len(),
            marker_output(pv) == marker_output(pv.subrange(i as int, pv.len() as int)),
        decreases parts.len() - i,
    {
        assert(pv.subrange(i as int, pv.len() as int)[0] == pv[i as int]);
        assert(pv.subrange(i as int, pv.len() as int).drop_first() =~= pv.subrange(i + 1, pv.len() as int));
        match parts[i].get("__kimi_code_output") {
            Some(o) => {
                return o.duplicate();
            },
            None => {},
        }
        i = i + 1;
    }
    Json::Null
}

/// The viewer `tool_result` block of a folded tool message.
fn make_tool_result_block(m: &FoldedMessage) -> (r: Json)
    ensures
        r@ == tool_result_block(m@),
{
    let id = match &m.tool_call_id {
        Some(s) => s.as_str(),
        None => "",
    };
    let mut entries = vec![
        (own("type"), Json::string("tool_result")),
        (own("tool_use_id"), Json::string(id)),
        (own("content"), marker_output_of(&m.content)),
    ];
    let ghost base = entries@;
    if m.is_error == Some(true) {
        entries.push((own("is_error"), Json::Bool(true)));
        assert(entries_view(entries@) =~= entries_view(base).push(("is_error"@, JsonView::Bool(true))));
    }
    assert(entries_view(base) =~= seq![
        ("type"@, jstr("tool_result"@)),
        ("tool_use_id"@, jstr(str_or(m@.tool_call_id, ""@))),
        ("content"@, marker_output(m@.content)),
    ]);
    Json::object(entries)
}

/// The viewer message of the folded message at `index` (see `converted_message`).
pub fn convert_folded_message(message: &FoldedMessage, session_id: &str, index: usize) -> (r: Option<ClaudeMessage>)
    ensures
        match r {
            Some(m) => converted_message(message@, session_id@, index as nat) == Some(m@),
            None => converted_message(message@, session_id@, index as nat) is None,
        },
{
    let ghost mv = message@;
    let mut uuid = concat(session_id, "-");
    uuid.append(decimal_string(index as u64).as_str());
    assert(uuid@ == session_id@ + "-"@ + decimal(index as nat));
    let role = message.role.as_str();
    let is_user = str_eq(role, "user") || str_eq(role, "system");
    let is_assistant = !is_user && str_eq(role, "assistant");
    if is_user || is_assistant {
        let mut blocks = duplicate_items(&message.content);
        let mut calls = duplicate_items(&message.tool_calls);
        proof {
            assert(items_view(blocks@ + calls@) =~= items_view(blocks@) + items_view(calls@));
        }
        blocks.append(&mut calls);
        let content = Json::array(blocks);
        assert(content@ == JsonView::Array(mv.content + mv.tool_calls));
        if is_assistant {
            let mut converted = build_provider_message(
                "kimi",
                uuid,
                session_id,
                message.timestamp.clone(),
                "assistant",
                Some("assistant"),
                Some(content),
                clone_opt_string(&message.model),
            );
            converted.usage = message.usage;
            Some(converted)
        } else {
            Some(build_provider_message(
                "kimi",
                uuid,
                session_id,
                message.timestamp.clone(),
                "user",
                Some("user"),
                Some(content),
                None,
            ))
        }
    } else if str_eq(role, "tool") {
        let block = make_tool_result_block(message);
        let blocks = vec![block];
        assert(items_view(blocks@) =~= seq![tool_result_block(mv)]);
        Some(build_provider_message(
            "kimi",
            uuid,
            session_id,
            message.timestamp.clone(),
            "tool",
            Some("tool"),
            Some(Json::array(blocks)),
            None,
        ))
    } else {
        None
    }
}

/// Replays a session journal, given as its lines, into viewer messages (see
/// `wire_messages`). `blobs` is the session's blob store, or `None` to leave
/// `blobref:` image parts as they are; `fallback_ts` stamps records before the
/// first timed one.
pub fn fold_wire_messages(
    lines: &Vec<String>,
    blobs: Option<&BlobStore>,
    session_id: &str,
    fallback_ts: &str,
) -> (r: Vec<ClaudeMessage>)
    ensures
        messages_view(r@) == wire_messages(strings_view(lines@), opt_store(blobs), session_id@, fallback_ts@),
{
    let ghost lv = strings_view(lines@);
    let mut history: Vec<FoldedMessage> = Vec::new();
    let mut state = FoldState { pending: Vec::new(), deferred: Vec::new(), model: None };
    let mut last_ts = own(fallback_ts);
    let mut i: usize = 0;
    proof {
        assert(folded_seq(history@) =~= Seq::<FoldedView>::empty());
        assert(folded_seq(state.deferred@) =~= Seq::<FoldedView>::empty());
        assert(strings_view(state.pending@) =~= Seq::<Seq<char>>::empty());
        assert(lv.subrange(0, 0) =~= Seq::<Seq<char>>::empty());
    }
    while i < lines.len()
        invariant
            lv == strings_view(lines@),
            i <= lines@.len(),
            (fold_of(history@, state), last_ts@) == replay(lv.subrange(0, i as int), opt_store(blobs), fallback_ts@),
        decreases lines.len() - i,
    {
        proof {
            assert(lv.subrange(0, i + 1).drop_last() =~= lv.subrange(0, i as int));
            assert(lv.subrange(0, i + 1).last() == lines@[i as int]@);
        }
        let line = lines[i].as_str();
        if !blank(line) {
            match parse_json(line) {
                Some(record) => {
                    match record.get_u64("time") {
                        Some(ms) => match ms_to_rfc3339(ms) {
                            Some(t) => {
                                last_ts = t;
                            },
                            None => {},
                        },
                        None => {},
                    }
                    fold_record(&mut history, &mut state, &record, last_ts.as_str(), blobs);
                },
                None => {},
            }
        }
        i = i + 1;
    }
    assert(lv.subrange(0, lines@.len() as int) =~= lv);
    settle_open_step(&mut history, &mut state, last_ts.as_str());
    let ghost hv = folded_seq(history@);
    let mut out: Vec<ClaudeMessage> = Vec::new();
    let mut k: usize = 0;
    assert(messages_view(out@) =~= converted(hv.subrange(0, 0), session_id@));
    while k < history.len()
        invariant
            hv == folded_seq(history@),
            k <= history@.len(),
            messages_view(out@) == converted(hv.subrange(0, k as int), session_id@),
        decreases history.len() - k,
    {
        proof {
            assert(hv.subrange(0, k + 1).drop_last() =~= hv.subrange(0, k as int));
            assert(hv.subrange(0, k + 1).last() == history@[k as int]@);
        }
        match convert_folded_message(&history[k], session_id, k) {
            Some(m) => {
                let ghost before = out@;
                out.push(m);
                assert(messages_view(out@) =~= messages_view(before).push(m@));
            },
            None => {},
        }
        k = k + 1;
    }
    assert(hv.subrange(0, history@.len() as int) =~= hv);
    out
}

// ---------------------------------------------------------------------------
// Laws of the replay
// ---------------------------------------------------------------------------

/// Flushing twice is flushing once.
pub proof fn law_flush_idempotent(s: Fold)
    ensures
        flush(flush(s)) == flush(s),
{
}

/// A step that ends leaves no tool call pending and no message deferred.
pub proof fn law_settle_closes_exchange(s: Fold, ts: Seq<char>)
    ensures
        settle(s, ts).pending.len() == 0,
        settle(s, ts).deferred.len() == 0,
        settle(s, ts).model == s.model,
{
}

/// A compaction leaves at most the summary message, and drops the open tool exchange.
pub proof fn law_compaction_resets(s: Fold, record: JsonView, ts: Seq<char>)
    ensures
        compaction(s, record, ts).history.len() <= 1,
        compaction(s, record, ts).history.len() == 1 ==>
            origin_kind(compaction(s, record, ts).history[0]) == Some("compaction_summary"@),
        compaction(s, record, ts).pending.len() == 0,
        compaction(s, record, ts).deferred.len() == 0,
{
    match compaction_text(record) {
        Some(t) => if !is_blank(t) {
            reveal_strlit("compaction_summary");
            reveal_strlit("kind");
            let m = summary_message(t, ts);
            assert(m.origin == Some(obj(seq![("kind"@, jstr("compaction_summary"@))])));
            assert(obj(seq![("kind"@, jstr("compaction_summary"@))]).get("kind"@) == Some(jstr("compaction_summary"@)));
        },
        None => {},
    }
}

/// A usage record changes no message but the one it counts into: the latest
/// assistant step, whose usage alone changes, each count becoming the saturating sum
/// of the step's count and the record's (absent when both are).
pub proof fn law_usage_record_in_place(s: Fold, usage: JsonView)
    ensures
        usage_record(s, usage).history.len() == s.history.len(),
        last_usage_target(s.history) matches Some(k) ==> (s.history[k].role == "assistant"@ ==> {
            let old_usage = match s.history[k].usage {
                Some(t) => t,
                None => TokenUsage {
                    input_tokens: None,
                    output_tokens: None,
                    cache_creation_input_tokens: None,
                    cache_read_input_tokens: None,
                },
            };
            let m = usage_record(s, usage).history[k];
            &&& m == FoldedView { usage: m.usage, ..s.history[k] }
            &&& m.usage == Some(TokenUsage {
                input_tokens: add_count(old_usage.input_tokens, usage_field(usage, "inputOther"@)),
                output_tokens: add_count(old_usage.output_tokens, usage_field(usage, "output"@)),
                cache_creation_input_tokens: add_count(old_usage.cache_creation_input_tokens, usage_field(usage, "inputCacheCreation"@)),
                cache_read_input_tokens: add_count(old_usage.cache_read_input_tokens, usage_field(usage, "inputCacheRead"@)),
            })
        }),
        forall|a: Option<u32>, b: Option<u32>| #[trigger] add_count(a, b) matches Some(x) ==> (x as int) == if
            (match a { Some(v) => v, None => 0 }) as int + (match b { Some(v) => v, None => 0 }) as int > u32::MAX
            { u32::MAX as int } else { (match a { Some(v) => v, None => 0 }) as int + (match b { Some(v) => v, None => 0 }) as int },
        forall|i: int| 0 <= i < s.history.len() && usage_record(s, usage).history[i] != s.history[i]
            ==> Some(i) == last_usage_target(s.history) && s.history[i].role == "assistant"@,
        usage_record(s, usage).pending == s.pending,
        usage_record(s, usage).deferred == s.deferred,
{
    lemma_last_usage_target_bound(s.history);
}

proof fn lemma_last_usage_target_bound(h: Seq<FoldedView>)
    ensures
        last_usage_target(h) matches Some(k) ==> 0 <= k < h.len(),
    decreases h.len(),
{
    if h.len() > 0 && !usage_target(h.last()) {
        lemma_last_usage_target_bound(h.drop_last());
    }
}

proof fn lemma_extend_owned(h: Seq<FoldedView>, cut: int, prompt_id: Option<Seq<char>>)
    requires
        0 <= cut <= h.len(),
    ensures
        0 <= extend_owned(h, cut, prompt_id) <= cut,
        forall|j: int| extend_owned(h, cut, prompt_id) <= j < cut ==> owned_injection(#[trigger] h[j], prompt_id),
    decreases cut,
{
    if cut > 0 && owned_injection(h[cut - 1], prompt_id) {
        lemma_extend_owned(h, cut - 1, prompt_id);
    }
}

/// No message from index `from` on is a compaction summary.
pub open spec fn no_summary_from(h: Seq<FoldedView>, from: int) -> bool {
    forall|j: int| from <= j < h.len() ==> origin_kind(#[trigger] h[j]) != Some("compaction_summary"@)
}

proof fn lemma_undo_scan(h: Seq<FoldedView>, i: int, remaining: nat, cut: Option<int>)
    requires
        -1 <= i < h.len(),
        no_summary_from(h, i + 1),
        cut matches Some(c) ==> 0 <= c <= h.len() && no_summary_from(h, c),
    ensures
        undo_scan(h, i, remaining, cut) matches Some(Some(c)) ==> 0 <= c <= h.len() && no_summary_from(h, c),
    decreases i + 1,
{
    reveal_strlit("injection");
    reveal_strlit("compaction_summary");
    reveal_strlit("user");
    reveal_strlit("skill_activation");
    reveal_strlit("plugin_command");
    assert("injection"@.len() != "compaction_summary"@.len());
    assert("user"@.len() != "compaction_summary"@.len());
    assert("skill_activation"@.len() != "compaction_summary"@.len());
    assert("plugin_command"@.len() != "compaction_summary"@.len());
    if i < 0 || i >= h.len() || remaining == 0 {
    } else if origin_kind(h[i]) == Some("injection"@) {
        assert(origin_kind(h[i]) != Some("compaction_summary"@));
        lemma_undo_scan(h, i - 1, remaining, cut);
    } else if origin_kind(h[i]) == Some("compaction_summary"@) {
    } else if is_undo_anchor(h[i]) {
        let c = extend_owned(h, i, h[i].id);
        lemma_extend_owned(h, i, h[i].id);
        assert forall|j: int| c <= j < h.len() implies origin_kind(#[trigger] h[j]) != Some("compaction_summary"@) by {
            if j < i {
                assert(owned_injection(h[j], h[i].id));
            }
        }
        lemma_undo_scan(h, i - 1, (remaining - 1) as nat, Some(c));
    } else {
        lemma_undo_scan(h, i - 1, remaining, cut);
    }
}

/// An undo either changes nothing or cuts the history back to a prefix and drops the
/// open tool exchange; it never cuts a compaction summary away.
pub proof fn law_undo_cuts_a_prefix(s: Fold, count: nat)
    ensures
        undo(s, count) == s || (
            undo(s, count).pending.len() == 0 && undo(s, count).deferred.len() == 0
        ),
        undo(s, count).history.is_prefix_of(s.history),
        forall|i: int| 0 <= i < s.history.len() && origin_kind(#[trigger] s.history[i]) == Some("compaction_summary"@)
            ==> i < undo(s, count).history.len(),
        undo(s, count).model == s.model,
{
    let h = s.history;
    if h.len() > 0 {
        lemma_undo_scan(h, h.len() - 1, count, None);
    }
    match undo_cut_point(h, count) {
        Some(c) => {
            assert(h.subrange(0, c) == h.take(c));
        },
        None => {
            assert(h.take(h.len() as int) =~= h);
        },
    }
}

/// The number of undo anchors from index `from` on.
pub open spec fn anchors_from(h: Seq<FoldedView>, from: int) -> nat
    decreases h.len() - from,
{
    if from < 0 || from >= h.len() {
        0
    } else {
        anchors_from(h, from + 1) + if is_undo_anchor(h[from]) { 1nat } else { 0nat }
    }
}

/// The cut that the anchor at `a` makes: at the anchor, moved back over the
/// injections it owns.
pub open spec fn anchor_cut(h: Seq<FoldedView>, a: int, c: int) -> bool {
    &&& 0 <= a < h.len()
    &&& is_undo_anchor(h[a])
    &&& c == extend_owned(h, a, h[a].id)
}

proof fn lemma_undo_scan_anchor(h: Seq<FoldedView>, i: int, remaining: nat, cut: Option<int>, count: nat)
    requires
        -1 <= i < h.len(),
        count > 0,
        remaining + anchors_from(h, i + 1) == count,
        cut is None <==> anchors_from(h, i + 1) == 0,
        cut is Some ==> exists|a: int| i < a && #[trigger] anchor_cut(h, a, cut.unwrap()) && anchors_from(h, a) == anchors_from(h, i + 1),
    ensures
        undo_scan(h, i, remaining, cut) matches Some(Some(c)) ==> exists|a: int| #[trigger] anchor_cut(h, a, c) && (anchors_from(h, a) == count
            || (anchors_from(h, a) < count && anchors_from(h, 0) == anchors_from(h, a))),
    decreases i + 1,
{
    reveal_strlit("injection");
    reveal_strlit("user");
    reveal_strlit("skill_activation");
    reveal_strlit("plugin_command");
    assert("injection"@.len() != "user"@.len());
    assert("injection"@.len() != "skill_activation"@.len());
    assert("injection"@.len() != "plugin_command"@.len());
    if i < 0 || i >= h.len() || remaining == 0 {
        if i < 0 {
            assert(anchors_from(h, 0) == anchors_from(h, i + 1));
        }
    } else {
        assert(anchors_from(h, i) == anchors_from(h, i + 1) + if is_undo_anchor(h[i]) { 1nat } else { 0nat });
        if origin_kind(h[i]) == Some("injection"@) {
            assert(!is_undo_anchor(h[i]));
            lemma_undo_scan_anchor(h, i - 1, remaining, cut, count);
        } else if origin_kind(h[i]) == Some("compaction_summary"@) {
        } else if is_undo_anchor(h[i]) {
            let c = extend_owned(h, i, h[i].id);
            let r2 = (remaining - 1) as nat;
            let j = i - 1;
            assert(anchor_cut(h, i, c));
            assert(j + 1 == i);
            assert(anchors_from(h, j + 1) == anchors_from(h, i + 1) + 1);
            assert(r2 + anchors_from(h, j + 1) == count);
            assert(j < i && anchor_cut(h, i, c) && anchors_from(h, i) == anchors_from(h, j + 1));
            assert(Some(c).unwrap() == c);
            lemma_undo_scan_anchor(h, j, r2, Some(c), count);
        } else {
            lemma_undo_scan_anchor(h, i - 1, remaining, cut, count);
        }
    }
}

/// `context.undo` cuts exactly when it finds an anchor to cut at, and then the
/// history shrinks. It cuts at the `count`-th undo anchor from the end (the first
/// anchor when there are fewer), moved back over the injections that anchor owns,
/// with no compaction summary at or after the cut; it never cuts for a zero count.
pub proof fn law_undo_cut_point(s: Fold, count: nat)
    ensures
        undo_cut_point(s.history, count) matches Some(c) ==> {
            &&& 0 <= c < s.history.len()
            &&& undo(s, count).history == s.history.take(c)
            &&& no_summary_from(s.history, c)
            &&& exists|a: int| #[trigger] anchor_cut(s.history, a, c)
                && (forall|j: int| c <= j < a ==> owned_injection(#[trigger] s.history[j], s.history[a].id))
                && (anchors_from(s.history, a) == count
                    || (anchors_from(s.history, a) < count && anchors_from(s.history, 0) == anchors_from(s.history, a)))
        },
        undo_cut_point(s.history, count) is None ==> undo(s, count) == s,
        count == 0 ==> undo_cut_point(s.history, count) is None,
        undo(s, count).history.len() < s.history.len() <==> undo_cut_point(s.history, count) is Some,
{
    let h = s.history;
    law_undo_cuts_a_prefix(s, count);
    if h.len() > 0 {
        lemma_undo_scan(h, h.len() - 1, count, None);
        if count > 0 {
            assert(anchors_from(h, h.len() as int) == 0);
            lemma_undo_scan_anchor(h, h.len() - 1, count, None, count);
        }
    }
    match undo_cut_point(h, count) {
        Some(c) => {
            let a = choose|a: int| anchor_cut(h, a, c) && (anchors_from(h, a) == count
                || (anchors_from(h, a) < count && anchors_from(h, 0) == anchors_from(h, a)));
            lemma_extend_owned(h, a, h[a].id);
            assert(h.subrange(0, c) == h.take(c));
        },
        None => {},
    }
}

/// A message appended while a tool exchange is open waits behind it; otherwise it
/// joins the history at once.
pub proof fn law_append_waits_for_open_exchange(s: Fold, message: JsonView, ts: Seq<char>, blobs: Blobs)
    ensures
        s.pending.len() > 0 ==> append_message(s, message, ts, blobs).history == s.history,
        s.pending.len() == 0 ==> append_message(s, message, ts, blobs).deferred == s.deferred,
        append_message(s, message, ts, blobs).history.len() + append_message(s, message, ts, blobs).deferred.len()
            <= s.history.len() + s.deferred.len() + 1,
        append_message(s, message, ts, blobs).pending == s.pending,
{
}

} // verus!
