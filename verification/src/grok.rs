//! Grok CLI sessions (the `grok` provider).
//!
//! Grok keeps one directory per project under `<base>/sessions/`, named after the
//! percent-encoded working directory, and one directory per session inside it. A
//! session holds `summary.json` (its metadata), `chat_history.jsonl` (one JSON
//! record per line) and `signals.json` (counters such as the tool calls made and
//! the context tokens used). The caller reads those files; the library turns them
//! into projects, sessions and messages.
use vstd::prelude::*;
use crate::json::{
    Json, JsonView, duplicate_items, duplicate_or_null, items_view, json_mentions, jstr, make_text_block, member, obj, obj1, obj2, obj3,
    obj4, opt_view, parse_json, parsed_json, print_json, printed_json, str_or, str_or_default, text_block,
};
use crate::text::{
    blank, concat, decimal, decimal_string, file_name, has_prefix, is_blank, own, path_file_name, str_eq, str_less,
    lowercase, str_lt, str_starts_with, str_strip_prefix, str_to_lowercase, str_trim, trim,
};
use crate::models::{
    ClaudeMessage, ClaudeProject, ClaudeSession, MessageView, ProjectView, ProviderInfo, SessionView, TokenUsage,
    build_provider_message, cap_u32, capped_u32, input_only, last_assistant, last_assistant_index,
    capped, clone_opt_string, lemma_capped_prefix, lemma_last_assistant, lemma_prefix_prepend, lemma_message_hits_prefix, lemma_prefix_trans, message_hits,
    result_cap, tagged, with_project_name, lemma_messages_replace, messages_view, newest_first, opt_str, projects_view, provider_message, sessions_view,
    sort_projects_newest_first, sort_sessions_newest_first,
    listed_newest_first, law_newest_first, lemma_newest_first_keeps, law_capped_results, law_message_hits_match,
    lemma_str_lt_trans, lemma_str_lt_irreflexive, lemma_str_lt_empty,
};
use crate::external::{decoded_path, url_decode};
use crate::kimi_code::saturate;
use crate::cursor::{non_empty, strip_or_keep};

verus! {

// ---------------------------------------------------------------------------
// Chat history records
// ---------------------------------------------------------------------------

/// The content blocks of a record's `content`: an array is kept, a string becomes a
/// text block, null or nothing gives no block, and any other value becomes a text
/// block holding its JSON text.
pub open spec fn content_blocks_of(content: Option<JsonView>) -> Seq<JsonView> {
    match content {
        Some(JsonView::Array(items)) => items,
        Some(JsonView::Str(t)) => seq![text_block(t)],
        Some(JsonView::Null) => Seq::empty(),
        None => Seq::empty(),
        Some(other) => seq![text_block(printed_json(other))],
    }
}

/// A block without a non-blank `text`.
pub open spec fn block_blank(item: JsonView) -> bool {
    match item.get_str("text"@) {
        Some(t) => is_blank(t),
        None => true,
    }
}

/// Every block is without a non-blank text (true of no blocks).
pub open spec fn blocks_blank(items: Seq<JsonView>) -> bool {
    forall|i: int| 0 <= i < items.len() ==> block_blank(#[trigger] items[i])
}

/// `items` joined with newlines.
pub open spec fn join_lines(items: Seq<Seq<char>>) -> Seq<char>
    decreases items.len(),
{
    if items.len() == 0 {
        Seq::empty()
    } else if items.len() == 1 {
        items[0]
    } else {
        join_lines(items.drop_last()) + "\n"@ + items.last()
    }
}

/// The texts of a reasoning summary: each item's `text`, or the item itself when it
/// is a string.
pub open spec fn summary_texts(items: Seq<JsonView>) -> Seq<Seq<char>>
    decreases items.len(),
{
    if items.len() == 0 {
        Seq::empty()
    } else {
        let prev = summary_texts(items.drop_last());
        let t = match items.last().get_str("text"@) {
            Some(t) => Some(t),
            None => items.last().as_str(),
        };
        match t {
            Some(t) => prev.push(t),
            None => prev,
        }
    }
}

/// The text of a reasoning record: its `content` or `thinking` string, else its
/// summary texts joined with newlines, else empty.
pub open spec fn reasoning_text(v: JsonView) -> Seq<char> {
    match v.get_str("content"@) {
        Some(t) => t,
        None => match v.get_str("thinking"@) {
            Some(t) => t,
            None => match v.get_array("summary"@) {
                Some(items) => join_lines(summary_texts(items)),
                None => Seq::empty(),
            },
        },
    }
}

/// Tool arguments: a string that holds JSON is parsed, any other string is wrapped as
/// `{"input": s}`, any other value is kept.
pub open spec fn normalized_input(input: JsonView) -> JsonView {
    match input {
        JsonView::Str(s) => match parsed_json(s) {
            Some(v) => v,
            None => obj(seq![("input"@, jstr(s))]),
        },
        _ => input,
    }
}

/// The `tool_use` block of an assistant tool call (OpenAI `function` shape or flat).
pub open spec fn tool_call_block(call: JsonView) -> JsonView {
    let function = match call.get("function"@) {
        Some(f) => f,
        None => JsonView::Null,
    };
    let name_value = match function.get("name"@) {
        Some(v) => Some(v),
        None => call.get("name"@),
    };
    let name = match name_value {
        Some(v) => str_or(v.as_str(), "tool"@),
        None => "tool"@,
    };
    let input = match function.get("arguments"@) {
        Some(v) => v,
        None => match call.get("arguments"@) {
            Some(v) => v,
            None => JsonView::Null,
        },
    };
    obj(seq![
        ("type"@, jstr("tool_use"@)),
        ("id"@, jstr(str_or(call.get_str("id"@), Seq::empty()))),
        ("name"@, jstr(name)),
        ("input"@, normalized_input(input)),
    ])
}

/// The `tool_use` blocks of some tool calls, in order.
pub open spec fn tool_call_blocks(calls: Seq<JsonView>) -> Seq<JsonView>
    decreases calls.len(),
{
    if calls.len() == 0 {
        Seq::empty()
    } else {
        tool_call_blocks(calls.drop_last()).push(tool_call_block(calls.last()))
    }
}

/// A Grok message.
pub open spec fn grok_message(
    uuid: Seq<char>,
    session_id: Seq<char>,
    timestamp: Seq<char>,
    message_type: Seq<char>,
    blocks: Seq<JsonView>,
    model: Option<Seq<char>>,
) -> MessageView {
    provider_message("grok"@, uuid, session_id, timestamp, message_type, Some(message_type),
        Some(JsonView::Array(blocks)), model)
}

/// `{"type": "thinking", "thinking": text}`.
pub open spec fn thinking_block(text: Seq<char>) -> JsonView {
    obj(seq![("type"@, jstr("thinking"@)), ("thinking"@, jstr(text))])
}

/// The `tool_result` block of a tool result record: its `tool_call_id` and its
/// `content` (null when absent).
pub open spec fn result_block(value: JsonView) -> JsonView {
    obj(seq![
        ("type"@, jstr("tool_result"@)),
        ("tool_use_id"@, jstr(str_or(value.get_str("tool_call_id"@), Seq::empty()))),
        ("content"@, match value.get("content"@) {
            Some(c) => c,
            None => JsonView::Null,
        }),
    ])
}

/// The `tool_use` block of a backend tool call.
pub open spec fn backend_block(uuid: Seq<char>, kind: JsonView) -> JsonView {
    obj(seq![
        ("type"@, jstr("tool_use"@)),
        ("id"@, jstr(uuid)),
        ("name"@, jstr(str_or(kind.get_str("tool_type"@), "backend_tool"@))),
        ("input"@, match kind.get("action"@) {
            Some(a) => a,
            None => kind,
        }),
    ])
}

/// The message of a backend tool call record: a `tool_use` block named after its
/// `kind`'s `tool_type` with the `kind`'s `action` (or the whole `kind`) as input;
/// `None` without a `kind`.
pub open spec fn backend_message(value: JsonView, uuid: Seq<char>, session_id: Seq<char>, timestamp: Seq<char>)
    -> Option<MessageView>
{
    match value.get("kind"@) {
        Some(kind) => Some(grok_message(uuid, session_id, timestamp, "assistant"@, seq![backend_block(uuid, kind)], None)),
        None => None,
    }
}

/// The message of a chat history record whose `type` is a string; `counter` is the
/// number of such records so far, this one included, and names records without an
/// `id`. `None` for unknown types, blank system and reasoning records, and backend
/// tool calls without a `kind`.
pub open spec fn chat_message(
    value: JsonView,
    session_id: Seq<char>,
    timestamp: Seq<char>,
    model: Option<Seq<char>>,
    counter: u64,
) -> Option<MessageView> {
    let t = str_or(value.get_str("type"@), Seq::empty());
    let uuid = match value.get_str("id"@) {
        Some(id) => id,
        None => session_id + "-"@ + decimal(counter as nat),
    };
    let blocks = content_blocks_of(value.get("content"@));
    if t == "system"@ {
        if blocks_blank(blocks) {
            None
        } else {
            Some(grok_message(uuid, session_id, timestamp, "system"@, blocks, None))
        }
    } else if t == "user"@ {
        Some(grok_message(uuid, session_id, timestamp, "user"@, blocks, None))
    } else if t == "assistant"@ {
        let all = match value.get_array("tool_calls"@) {
            Some(calls) => blocks + tool_call_blocks(calls),
            None => blocks,
        };
        let model_id = match value.get_str("model_id"@) {
            Some(m) => Some(m),
            None => model,
        };
        Some(grok_message(uuid, session_id, timestamp, "assistant"@, all, model_id))
    } else if t == "reasoning"@ {
        let thinking = reasoning_text(value);
        if is_blank(thinking) {
            None
        } else {
            Some(grok_message(uuid, session_id, timestamp, "assistant"@, seq![thinking_block(thinking)], model))
        }
    } else if t == "tool_result"@ {
        Some(grok_message(uuid, session_id, timestamp, "user"@, seq![result_block(value)], None))
    } else if t == "backend_tool_call"@ {
        backend_message(value, uuid, session_id, timestamp)
    } else {
        None
    }
}

/// The content blocks of a record's `content` (see `content_blocks_of`).
pub fn content_to_blocks(content: Option<&Json>) -> (r: Vec<Json>)
    ensures
        items_view(r@) == content_blocks_of(opt_view(content)),
{
    match content {
        Some(Json::Array(items)) => {
            let r = duplicate_items(items);
            proof {
                crate::json::lemma_array_view(*items);
            }
            r
        },
        Some(Json::Str(t)) => {
            let r = vec![make_text_block(t.as_str())];
            assert(items_view(r@) =~= seq![text_block(t@)]);
            r
        },
        Some(Json::Null) | None => {
            let r: Vec<Json> = Vec::new();
            assert(items_view(r@) =~= Seq::<JsonView>::empty());
            r
        },
        Some(other) => {
            let text = print_json(other);
            let r = vec![make_text_block(text.as_str())];
            assert(items_view(r@) =~= seq![text_block(printed_json(other@))]);
            r
        },
    }
}

/// Whether every block is without a non-blank text (see `blocks_blank`).
pub fn content_is_empty(blocks: &Vec<Json>) -> (r: bool)
    ensures
        r == blocks_blank(items_view(blocks@)),
{
    let ghost bv = items_view(blocks@);
    let mut i: usize = 0;
    while i < blocks.len()
        invariant
            bv == items_view(blocks@),
            i <= blocks@.len(),
            forall|j: int| 0 <= j < i ==> block_blank(#[trigger] bv[j]),
        decreases blocks.len() - i,
    {
        let b = match blocks[i].get_str("text") {
            Some(t) => blank(t),
            None => true,
        };
        assert(bv[i as int] == blocks@[i as int]@);
        if !b {
            return false;
        }
        i = i + 1;
    }
    true
}

/// The text of a reasoning record (see `reasoning_text`).
pub fn extract_reasoning_text(value: &Json) -> (r: String)
    ensures
        r@ == reasoning_text(value@),
{
    match value.get_str("content") {
        Some(t) => {
            return own(t);
        },
        None => {},
    }
    match value.get_str("thinking") {
        Some(t) => {
            return own(t);
        },
        None => {},
    }
    let items = match value.get_array("summary") {
        Some(items) => items,
        None => {
            return String::new();
        },
    };
    let ghost iv = items_view(items@);
    let mut out = String::new();
    let mut count: usize = 0;
    let mut i: usize = 0;
    while i < items.len()
        invariant
            iv == items_view(items@),
            i <= items@.len(),
            count == summary_texts(iv.subrange(0, i as int)).len(),
            count <= i,
            out@ == join_lines(summary_texts(iv.subrange(0, i as int))),
        decreases items.len() - i,
    {
        proof {
            assert(iv.subrange(0, i + 1).drop_last() =~= iv.subrange(0, i as int));
            assert(iv.subrange(0, i + 1).last() == items@[i as int]@);
        }
        let item = &items[i];
        let t = match item.get_str("text") {
            Some(t) => Some(t),
            None => item.as_str(),
        };
        match t {
            Some(t) => {
                let ghost prev = summary_texts(iv.subrange(0, i as int));
                if count > 0 {
                    out = concat(out.as_str(), "\n");
                }
                out = concat(out.as_str(), t);
                proof {
                    let now = prev.push(t@);
                    assert(now.drop_last() =~= prev);
                    if count == 0 {
                        assert(out@ =~= t@);
                        assert(now.len() == 1);
                    }
                }
                count = count + 1;
            },
            None => {},
        }
        i = i + 1;
    }
    assert(iv.subrange(0, items@.len() as int) =~= iv);
    out
}

/// Tool arguments (see `normalized_input`).
pub fn normalize_tool_input(input: Json) -> (r: Json)
    ensures
        r@ == normalized_input(input@),
{
    match input {
        Json::Str(s) => match parse_json(s.as_str()) {
            Some(v) => v,
            None => obj1("input", Json::Str(s)),
        },
        other => other,
    }
}

/// The `tool_use` block of an assistant tool call (see `tool_call_block`).
pub fn convert_tool_call(call: &Json) -> (r: Json)
    ensures
        r@ == tool_call_block(call@),
{
    let function = call.get("function");
    let name_value = match function {
        Some(f) => match f.get("name") {
            Some(v) => Some(v),
            None => call.get("name"),
        },
        None => call.get("name"),
    };
    let name = match name_value {
        Some(v) => str_or_default(v.as_str(), "tool"),
        None => "tool",
    };
    let input = match function {
        Some(f) => match f.get("arguments") {
            Some(v) => v.duplicate(),
            None => duplicate_or_null(call.get("arguments")),
        },
        None => duplicate_or_null(call.get("arguments")),
    };
    let id = str_or_default(call.get_str("id"), "");
    proof {
        reveal_strlit("");
        assert(""@ =~= Seq::<char>::empty());
    }
    obj4("type", Json::string("tool_use"), "id", Json::string(id), "name", Json::string(name), "input",
        normalize_tool_input(input))
}

/// Builds a Grok message.
fn make_grok_message(
    uuid: String,
    session_id: &str,
    timestamp: &str,
    message_type: &str,
    blocks: Vec<Json>,
    model: Option<String>,
) -> (r: ClaudeMessage)
    ensures
        r@ == grok_message(uuid@, session_id@, timestamp@, message_type@, items_view(blocks@), opt_str(model)),
{
    proof {
        crate::json::lemma_array_view(blocks);
    }
    build_provider_message("grok", uuid, session_id, own(timestamp), message_type, Some(message_type),
        Some(Json::array(blocks)), model)
}

/// The message of a chat history record (see `chat_message`); `counter` counts the
/// records whose `type` is a string.
pub fn convert_chat_message(
    value: &Json,
    session_id: &str,
    timestamp: &str,
    model: Option<String>,
    counter: &mut u64,
) -> (r: Option<ClaudeMessage>)
    requires
        *old(counter) < u64::MAX,
    ensures
        value@.get_str("type"@) is None ==> r is None && *final(counter) == *old(counter),
        value@.get_str("type"@) is Some ==> *final(counter) == *old(counter) + 1 && match r {
            Some(m) => chat_message(value@, session_id@, timestamp@, opt_str(model), *final(counter)) == Some(m@),
            None => chat_message(value@, session_id@, timestamp@, opt_str(model), *final(counter)) is None,
        },
{
    let t = match value.get_str("type") {
        Some(t) => t,
        None => {
            return None;
        },
    };
    *counter = *counter + 1;
    let uuid = match value.get_str("id") {
        Some(id) => own(id),
        None => {
            let a = concat(session_id, "-");
            let n = decimal_string(*counter);
            concat(a.as_str(), n.as_str())
        },
    };
    if str_eq(t, "system") {
        let blocks = content_to_blocks(value.get("content"));
        if content_is_empty(&blocks) {
            return None;
        }
        Some(make_grok_message(uuid, session_id, timestamp, "system", blocks, None))
    } else if str_eq(t, "user") {
        let blocks = content_to_blocks(value.get("content"));
        Some(make_grok_message(uuid, session_id, timestamp, "user", blocks, None))
    } else if str_eq(t, "assistant") {
        let mut blocks = content_to_blocks(value.get("content"));
        match value.get_array("tool_calls") {
            Some(calls) => {
                let ghost base = items_view(blocks@);
                let ghost cv = items_view(calls@);
                let mut i: usize = 0;
                assert(items_view(blocks@) =~= base + tool_call_blocks(cv.subrange(0, 0)));
                while i < calls.len()
                    invariant
                        cv == items_view(calls@),
                        i <= calls@.len(),
                        items_view(blocks@) == base + tool_call_blocks(cv.subrange(0, i as int)),
                    decreases calls.len() - i,
                {
                    proof {
                        assert(cv.subrange(0, i + 1).drop_last() =~= cv.subrange(0, i as int));
                        assert(cv.subrange(0, i + 1).last() == calls@[i as int]@);
                    }
                    let b = convert_tool_call(&calls[i]);
                    let ghost before = items_view(blocks@);
                    blocks.push(b);
                    assert(items_view(blocks@) =~= before.push(b@));
                    i = i + 1;
                }
                assert(cv.subrange(0, calls@.len() as int) =~= cv);
            },
            None => {},
        }
        let model_id = match value.get_str("model_id") {
            Some(m) => Some(own(m)),
            None => model,
        };
        Some(make_grok_message(uuid, session_id, timestamp, "assistant", blocks, model_id))
    } else if str_eq(t, "reasoning") {
        let thinking = extract_reasoning_text(value);
        if blank(thinking.as_str()) {
            return None;
        }
        let ghost text = thinking@;
        let block = obj2("type", Json::string("thinking"), "thinking", Json::Str(thinking));
        assert(block@->Object_0 =~= thinking_block(text)->Object_0);
        let blocks = vec![block];
        assert(items_view(blocks@) =~= seq![thinking_block(text)]);
        Some(make_grok_message(uuid, session_id, timestamp, "assistant", blocks, model))
    } else if str_eq(t, "tool_result") {
        let id = str_or_default(value.get_str("tool_call_id"), "");
        proof {
            reveal_strlit("");
            assert(""@ =~= Seq::<char>::empty());
        }
        let result = obj3("type", Json::string("tool_result"), "tool_use_id", Json::string(id), "content",
            duplicate_or_null(value.get("content")));
        assert(result@->Object_0 =~= result_block(value@)->Object_0);
        let blocks = vec![result];
        assert(items_view(blocks@) =~= seq![result_block(value@)]);
        Some(make_grok_message(uuid, session_id, timestamp, "user", blocks, None))
    } else if str_eq(t, "backend_tool_call") {
        convert_backend_tool_call(value, uuid, session_id, timestamp)
    } else {
        None
    }
}

/// The message of a backend tool call record (see `backend_message`).
fn convert_backend_tool_call(value: &Json, uuid: String, session_id: &str, timestamp: &str) -> (r: Option<ClaudeMessage>)
    ensures
        match r {
            Some(m) => backend_message(value@, uuid@, session_id@, timestamp@) == Some(m@),
            None => backend_message(value@, uuid@, session_id@, timestamp@) is None,
        },
{
    let kind = match value.get("kind") {
        Some(k) => k,
        None => {
            return None;
        },
    };
    let name = str_or_default(kind.get_str("tool_type"), "backend_tool");
    let input = match kind.get("action") {
        Some(a) => a.duplicate(),
        None => kind.duplicate(),
    };
    let call = obj4("type", Json::string("tool_use"), "id", Json::string(uuid.as_str()), "name", Json::string(name),
        "input", input);
    assert(call@->Object_0 =~= backend_block(uuid@, kind@)->Object_0);
    let blocks = vec![call];
    assert(items_view(blocks@) =~= seq![backend_block(uuid@, kind@)]);
    Some(make_grok_message(uuid, session_id, timestamp, "assistant", blocks, None))
}

// ---------------------------------------------------------------------------
// What the caller reads from disk
// ---------------------------------------------------------------------------

/// The files of one session directory.
pub struct GrokSessionFiles {
    /// The session directory's path.
    pub dir: String,
    /// Its file name.
    pub name: String,
    /// `summary.json` is a regular file and not a symlink.
    pub summary_is_file: bool,
    /// The text of `summary.json`, when it is not a symlink and could be read.
    pub summary_text: Option<String>,
    /// The modification time of `summary.json` (RFC 3339), when known.
    pub summary_modified: Option<String>,
    /// `chat_history.jsonl` is a regular file and not a symlink.
    pub chat_is_file: bool,
    /// The lines of `chat_history.jsonl`, or the error message reading it gave.
    pub chat_lines: Result<Vec<String>, String>,
    /// The lines of `chat_history.jsonl` read one at a time, up to the first that could
    /// not be read (all of them when the file reads whole; none when it cannot be opened).
    pub chat_readable_lines: Vec<String>,
    /// The text of `signals.json`, when it is not a symlink and could be read.
    pub signals_text: Option<String>,
}

pub struct GrokSessionView {
    pub dir: Seq<char>,
    pub name: Seq<char>,
    pub summary_is_file: bool,
    pub summary_text: Option<Seq<char>>,
    pub summary_modified: Option<Seq<char>>,
    pub chat_is_file: bool,
    pub chat_lines: Result<Seq<Seq<char>>, Seq<char>>,
    pub chat_readable_lines: Seq<Seq<char>>,
    pub signals_text: Option<Seq<char>>,
}

pub open spec fn lines_view(lines: Seq<String>) -> Seq<Seq<char>> {
    Seq::new(lines.len(), |i: int| lines[i]@)
}

impl View for GrokSessionFiles {
    type V = GrokSessionView;

    open spec fn view(&self) -> GrokSessionView {
        GrokSessionView {
            dir: self.dir@,
            name: self.name@,
            summary_is_file: self.summary_is_file,
            summary_text: opt_str(self.summary_text),
            summary_modified: opt_str(self.summary_modified),
            chat_is_file: self.chat_is_file,
            chat_lines: match self.chat_lines {
                Ok(l) => Ok(lines_view(l@)),
                Err(e) => Err(e@),
            },
            chat_readable_lines: lines_view(self.chat_readable_lines@),
            signals_text: opt_str(self.signals_text),
        }
    }
}

/// One project directory of `<base>/sessions/`.
pub struct GrokProjectDir {
    /// Its file name: the percent-encoded working directory.
    pub name: String,
    /// Its canonical path.
    pub path: String,
    /// Its entries that are directories (not symlinks), in listing order.
    pub sessions: Vec<GrokSessionFiles>,
}

pub struct GrokProjectView {
    pub name: Seq<char>,
    pub path: Seq<char>,
    pub sessions: Seq<GrokSessionView>,
}

impl View for GrokProjectDir {
    type V = GrokProjectView;

    open spec fn view(&self) -> GrokProjectView {
        GrokProjectView {
            name: self.name@,
            path: self.path@,
            sessions: Seq::new(self.sessions@.len(), |i: int| self.sessions@[i]@),
        }
    }
}

/// A Grok installation: the project directories of `<base>/sessions/` (directories
/// inside the base path, not symlinks), in listing order.
pub struct GrokStore {
    pub projects: Vec<GrokProjectDir>,
}

pub struct GrokStoreView {
    pub projects: Seq<GrokProjectView>,
}

impl View for GrokStore {
    type V = GrokStoreView;

    open spec fn view(&self) -> GrokStoreView {
        GrokStoreView { projects: Seq::new(self.projects@.len(), |i: int| self.projects@[i]@) }
    }
}

// ---------------------------------------------------------------------------
// Sessions and projects
// ---------------------------------------------------------------------------

/// An absolute path (it starts at the root).
pub open spec fn is_absolute(path: Seq<char>) -> bool {
    has_prefix(path, "/"@)
}

/// The records of a JSON-lines file: its non-blank lines that parse, in order.
pub open spec fn jsonl_values(lines: Seq<Seq<char>>) -> Seq<JsonView>
    decreases lines.len(),
{
    if lines.len() == 0 {
        Seq::empty()
    } else {
        let prev = jsonl_values(lines.drop_last());
        if is_blank(lines.last()) {
            prev
        } else {
            match parsed_json(lines.last()) {
                Some(v) => prev.push(v),
                None => prev,
            }
        }
    }
}

/// A record that counts as a message.
pub open spec fn counted_record(v: JsonView) -> bool {
    match v.get_str("type"@) {
        Some(t) => t == "user"@ || t == "assistant"@ || t == "tool_result"@ || t == "reasoning"@ || t == "system"@,
        None => false,
    }
}

/// The number of records that count as messages.
pub open spec fn counted_records(vs: Seq<JsonView>) -> nat
    decreases vs.len(),
{
    if vs.len() == 0 {
        0
    } else {
        counted_records(vs.drop_last()) + if counted_record(vs.last()) { 1nat } else { 0nat }
    }
}

/// A record that shows tool use: a tool result, a backend tool call, or a non-empty
/// `tool_calls` list.
pub open spec fn record_uses_tools(v: JsonView) -> bool {
    let t = v.get_str("type"@);
    t == Some("tool_result"@) || t == Some("backend_tool_call"@) || match v.get_array("tool_calls"@) {
        Some(calls) => calls.len() > 0,
        None => false,
    }
}

/// Some record shows tool use.
pub open spec fn records_use_tools(vs: Seq<JsonView>) -> bool
    decreases vs.len(),
{
    vs.len() > 0 && (records_use_tools(vs.drop_last()) || record_uses_tools(vs.last()))
}

/// A JSON file's document, `null` when it is missing, unreadable or not JSON.
pub open spec fn json_or_null(text: Option<Seq<char>>) -> JsonView {
    match text {
        Some(t) => match parsed_json(t) {
            Some(v) => v,
            None => JsonView::Null,
        },
        None => JsonView::Null,
    }
}

/// A trimmed text, when not blank.
pub open spec fn trimmed(t: Option<Seq<char>>) -> Option<Seq<char>> {
    match t {
        Some(s) => if trim(s).len() > 0 { Some(trim(s)) } else { None },
        None => None,
    }
}

/// A summary's `created_at` (empty when absent).
pub open spec fn created_at(summary: JsonView) -> Seq<char> {
    str_or(summary.get_str("created_at"@), Seq::empty())
}

/// A summary's `updated_at`, else its `last_active_at`, else its `created_at` (the
/// first of the two members that is present decides).
pub open spec fn updated_at(summary: JsonView) -> Seq<char> {
    let v = match summary.get("updated_at"@) {
        Some(v) => Some(v),
        None => summary.get("last_active_at"@),
    };
    match v {
        Some(v) => str_or(v.as_str(), created_at(summary)),
        None => created_at(summary),
    }
}

/// What a session directory tells about its session.
pub struct SessionInfo {
    pub session_id: Seq<char>,
    pub cwd: Option<Seq<char>>,
    pub message_count: usize,
    pub first_message_time: Seq<char>,
    pub last_message_time: Seq<char>,
    pub last_modified: Seq<char>,
    pub has_tool_use: bool,
    pub summary: Option<Seq<char>>,
}

/// The message count a summary records: its `num_chat_messages`, else its
/// `num_messages` (the first of them present decides), 0 when it is not a number.
pub open spec fn recorded_count(summary: JsonView) -> usize {
    let num = match summary.get("num_chat_messages"@) {
        Some(v) => v.as_u64(),
        None => match summary.get("num_messages"@) {
            Some(v) => v.as_u64(),
            None => None,
        },
    };
    match num {
        Some(n) => n as usize,
        None => 0,
    }
}

/// The session of a directory with a readable `summary.json` and a
/// `chat_history.jsonl` file, when it has at least one message: the summary's message
/// count, else the number of message records of the history. It uses tools when
/// `signals.json` counts a tool call or a record of the history is a tool record; where
/// the summary gives the count, the history is taken line by line, up to the first line
/// that could not be read.
pub open spec fn session_info(sf: GrokSessionView) -> Option<SessionInfo> {
    if !sf.summary_is_file || !sf.chat_is_file {
        None
    } else {
        match sf.summary_text {
            None => None,
            Some(text) => match parsed_json(text) {
                None => None,
                Some(summary) => {
                    let info = summary.get("info"@);
                    let session_id = match member(info, "id"@) {
                        Some(v) => str_or(v.as_str(), sf.name),
                        None => sf.name,
                    };
                    let cwd = trimmed(match member(info, "cwd"@) {
                        Some(v) => v.as_str(),
                        None => None,
                    });
                    let title = match trimmed(summary.get_str("generated_title"@)) {
                        Some(t) => Some(t),
                        None => trimmed(summary.get_str("session_summary"@)),
                    };
                    let recorded = recorded_count(summary);
                    let signals = json_or_null(sf.signals_text);
                    let signalled = match signals.get_u64("toolCallCount"@) {
                        Some(n) => n > 0,
                        None => false,
                    };
                    let (count, tools): (usize, bool) = if recorded == 0 {
                        match sf.chat_lines {
                            Ok(lines) => (counted_records(jsonl_values(lines)) as usize,
                                signalled || records_use_tools(jsonl_values(lines))),
                            Err(_) => (0, signalled),
                        }
                    } else {
                        (recorded, signalled || records_use_tools(jsonl_values(sf.chat_readable_lines)))
                    };
                    if count == 0 {
                        None
                    } else {
                        let updated = updated_at(summary);
                        Some(SessionInfo {
                            session_id,
                            cwd,
                            message_count: count,
                            first_message_time: created_at(summary),
                            last_message_time: updated,
                            last_modified: if updated.len() == 0 {
                                str_or(sf.summary_modified, Seq::empty())
                            } else {
                                updated
                            },
                            has_tool_use: tools,
                            summary: title,
                        })
                    }
                },
            },
        }
    }
}

/// The sessions of the session directories, in listing order.
pub open spec fn session_infos(ss: Seq<GrokSessionView>) -> Seq<SessionInfo>
    decreases ss.len(),
{
    if ss.len() == 0 {
        Seq::empty()
    } else {
        let prev = session_infos(ss.drop_last());
        match session_info(ss.last()) {
            Some(i) => prev.push(i),
            None => prev,
        }
    }
}

/// The first working directory the sessions recorded.
pub open spec fn first_cwd(infos: Seq<SessionInfo>) -> Option<Seq<char>>
    decreases infos.len(),
{
    if infos.len() == 0 {
        None
    } else if infos[0].cwd is Some {
        infos[0].cwd
    } else {
        first_cwd(infos.drop_first())
    }
}

/// The sum of the sessions' message counts.
pub open spec fn total_count(infos: Seq<SessionInfo>) -> int
    decreases infos.len(),
{
    if infos.len() == 0 { 0 } else { total_count(infos.drop_last()) + infos.last().message_count }
}

/// The latest `last_modified` of the sessions (empty when none).
pub open spec fn latest_info(infos: Seq<SessionInfo>) -> Seq<char>
    decreases infos.len(),
{
    if infos.len() == 0 {
        Seq::empty()
    } else {
        let m = latest_info(infos.drop_last());
        if str_lt(m, infos.last().last_modified) { infos.last().last_modified } else { m }
    }
}

/// A project's name: the final component of its working directory, else the
/// directory name it is stored under.
pub open spec fn project_name_from(actual_path: Seq<char>, fallback: Seq<char>) -> Seq<char> {
    match non_empty(file_name(actual_path)) {
        Some(n) => n,
        None => fallback,
    }
}

/// The project of a project directory with at least one session. Its path is the
/// working directory a session recorded, else the decoded directory name.
pub open spec fn grok_project(p: GrokProjectView) -> Option<ProjectView> {
    let infos = session_infos(p.sessions);
    if infos.len() == 0 {
        None
    } else {
        let actual = match first_cwd(infos) {
            Some(c) => c,
            None => decoded_path(p.name),
        };
        Some(ProjectView {
            name: project_name_from(actual, p.name),
            path: "grok://"@ + p.path,
            actual_path: actual,
            session_count: infos.len() as usize,
            message_count: saturate(total_count(infos)),
            last_modified: latest_info(infos),
            git_info: None,
            provider: Some("grok"@),
            storage_type: Some("jsonl"@),
            custom_directory_label: None,
            entrypoint: None,
        })
    }
}

/// The projects of the project directories, in listing order.
pub open spec fn grok_projects(ps: Seq<GrokProjectView>) -> Seq<ProjectView>
    decreases ps.len(),
{
    if ps.len() == 0 {
        Seq::empty()
    } else {
        let prev = grok_projects(ps.drop_last());
        match grok_project(ps.last()) {
            Some(p) => prev.push(p),
            None => prev,
        }
    }
}

/// The message required of a base path: an error unless it is absolute.
pub open spec fn absolute_or_error(path: Seq<char>, label: Seq<char>) -> Result<(), Seq<char>> {
    if is_absolute(path) { Ok(()) } else { Err(label + " must be an absolute path"@) }
}

/// The projects of a Grok installation, newest first; an error when the base path is
/// not absolute.
pub open spec fn scanned_projects(base_path: Seq<char>, store: GrokStoreView) -> Result<Seq<ProjectView>, Seq<char>> {
    match absolute_or_error(base_path, "Grok base path"@) {
        Err(e) => Err(e),
        Ok(_) => Ok(newest_first(grok_projects(store.projects))),
    }
}

/// The session entry of a session directory of the project stored under `fallback`.
pub open spec fn grok_session(sf: GrokSessionView, fallback: Seq<char>) -> Option<SessionView> {
    match session_info(sf) {
        None => None,
        Some(info) => Some(SessionView {
            session_id: sf.dir,
            actual_session_id: info.session_id,
            file_path: sf.dir,
            project_name: match info.cwd {
                Some(c) => project_name_from(c, fallback),
                None => project_name_from(decoded_path(fallback), fallback),
            },
            message_count: info.message_count,
            first_message_time: info.first_message_time,
            last_message_time: info.last_message_time,
            last_modified: info.last_modified,
            has_tool_use: info.has_tool_use,
            has_errors: false,
            summary: info.summary,
            is_renamed: false,
            provider: Some("grok"@),
            storage_type: Some("jsonl"@),
            entrypoint: None,
        }),
    }
}

/// The session entries of a project directory, in listing order.
pub open spec fn grok_sessions_of(ss: Seq<GrokSessionView>, fallback: Seq<char>) -> Seq<SessionView>
    decreases ss.len(),
{
    if ss.len() == 0 {
        Seq::empty()
    } else {
        let prev = grok_sessions_of(ss.drop_last(), fallback);
        match grok_session(ss.last(), fallback) {
            Some(x) => prev.push(x),
            None => prev,
        }
    }
}

/// The sessions of a project, newest first. Errors: a relative base path, a relative
/// project path (`grok://` stripped), and what reading the project directory gave.
pub open spec fn project_sessions(base_path: Seq<char>, project_path: Seq<char>, project: Result<GrokProjectView, Seq<char>>)
    -> Result<Seq<SessionView>, Seq<char>>
{
    match absolute_or_error(base_path, "Grok base path"@) {
        Err(e) => Err(e),
        Ok(_) => if !is_absolute(strip_or_keep(project_path, "grok://"@)) {
            Err("Grok project path must be absolute"@)
        } else {
            match project {
                Err(e) => Err(e),
                Ok(p) => Ok(newest_first(grok_sessions_of(p.sessions, p.name))),
            }
        },
    }
}

/// Decodes a project directory name back to the working directory (`%2F` to `/`);
/// a name whose decoding is not UTF-8 is kept.
pub fn decode_cwd_dirname(encoded: &str) -> (r: String)
    ensures
        r@ == decoded_path(encoded@),
{
    match url_decode(encoded) {
        Some(d) => d,
        None => own(encoded),
    }
}

/// A project's name (see `project_name_from`).
pub fn project_name_from_actual_path(actual_path: &str, fallback: &str) -> (r: String)
    ensures
        r@ == project_name_from(actual_path@, fallback@),
{
    match path_file_name(actual_path) {
        Some(n) if !n.as_str().is_empty() => n,
        _ => own(fallback),
    }
}

/// `Ok` for an absolute path, else the error naming `label`.
pub fn require_absolute_path(path: &str, label: &str) -> (r: Result<(), String>)
    ensures
        match r {
            Ok(_) => absolute_or_error(path@, label@) is Ok,
            Err(e) => absolute_or_error(path@, label@) == Err::<(), Seq<char>>(e@),
        },
{
    if str_starts_with(path, "/") {
        Ok(())
    } else {
        Err(concat(label, " must be an absolute path"))
    }
}

/// The records of a JSON-lines file (see `jsonl_values`).
pub fn read_jsonl_values(lines: &Vec<String>) -> (r: Vec<Json>)
    ensures
        items_view(r@) == jsonl_values(lines_view(lines@)),
{
    let ghost lv = lines_view(lines@);
    let mut out: Vec<Json> = Vec::new();
    let mut i: usize = 0;
    assert(items_view(out@) =~= jsonl_values(lv.subrange(0, 0)));
    while i < lines.len()
        invariant
            lv == lines_view(lines@),
            i <= lines@.len(),
            items_view(out@) == jsonl_values(lv.subrange(0, i as int)),
        decreases lines.len() - i,
    {
        proof {
            assert(lv.subrange(0, i + 1).drop_last() =~= lv.subrange(0, i as int));
            assert(lv.subrange(0, i + 1).last() == lines@[i as int]@);
        }
        let line = lines[i].as_str();
        if !blank(line) {
            match parse_json(line) {
                Some(v) => {
                    let ghost before = items_view(out@);
                    out.push(v);
                    assert(items_view(out@) =~= before.push(v@));
                },
                None => {},
            }
        }
        i = i + 1;
    }
    assert(lv.subrange(0, lines@.len() as int) =~= lv);
    out
}

/// Whether a record shows tool use (see `record_uses_tools`).
pub fn value_has_tool_use(v: &Json) -> (r: bool)
    ensures
        r == record_uses_tools(v@),
{
    let typed = match v.get_str("type") {
        Some(t) => str_eq(t, "tool_result") || str_eq(t, "backend_tool_call"),
        None => false,
    };
    typed || match v.get_array("tool_calls") {
        Some(calls) => calls.len() > 0,
        None => false,
    }
}

/// The number of message records and whether some record shows tool use.
fn survey_records(vs: &Vec<Json>) -> (r: (usize, bool))
    ensures
        r.0 == counted_records(items_view(vs@)),
        r.1 == records_use_tools(items_view(vs@)),
{
    let ghost vv = items_view(vs@);
    let mut count: usize = 0;
    let mut tools = false;
    let mut i: usize = 0;
    while i < vs.len()
        invariant
            vv == items_view(vs@),
            i <= vs@.len(),
            count == counted_records(vv.subrange(0, i as int)),
            count <= i,
            tools == records_use_tools(vv.subrange(0, i as int)),
        decreases vs.len() - i,
    {
        proof {
            assert(vv.subrange(0, i + 1).drop_last() =~= vv.subrange(0, i as int));
            assert(vv.subrange(0, i + 1).last() == vs@[i as int]@);
        }
        let v = &vs[i];
        let counted = match v.get_str("type") {
            Some(t) => str_eq(t, "user") || str_eq(t, "assistant") || str_eq(t, "tool_result")
                || str_eq(t, "reasoning") || str_eq(t, "system"),
            None => false,
        };
        if counted {
            count = count + 1;
        }
        tools = tools || value_has_tool_use(v);
        i = i + 1;
    }
    assert(vv.subrange(0, vs@.len() as int) =~= vv);
    (count, tools)
}

/// A trimmed text, when not blank (see `trimmed`).
fn trimmed_of(t: Option<&str>) -> (r: Option<String>)
    ensures
        opt_str(r) == trimmed(match t {
            Some(x) => Some(x@),
            None => None,
        }),
{
    match t {
        Some(x) => {
            let y = str_trim(x);
            if y.is_empty() { None } else { Some(own(y)) }
        },
        None => None,
    }
}

/// A JSON file's document, or `null` (see `json_or_null`).
fn json_file_or_null(text: &Option<String>) -> (r: Json)
    ensures
        r@ == json_or_null(opt_str(*text)),
{
    match text {
        Some(t) => match parse_json(t.as_str()) {
            Some(v) => v,
            None => Json::Null,
        },
        None => Json::Null,
    }
}

/// A summary's `created_at` and `updated_at` (see `created_at`, `updated_at`).
fn summary_times(summary: &Json) -> (r: (String, String))
    ensures
        r.0@ == created_at(summary@),
        r.1@ == updated_at(summary@),
{
    let created = own(str_or_default(summary.get_str("created_at"), ""));
    proof {
        reveal_strlit("");
        assert(""@ =~= Seq::<char>::empty());
    }
    let v = match summary.get("updated_at") {
        Some(v) => Some(v),
        None => summary.get("last_active_at"),
    };
    let updated = match v {
        Some(v) => match v.as_str() {
            Some(u) => own(u),
            None => created.clone(),
        },
        None => created.clone(),
    };
    (created, updated)
}

/// The session of a session directory, as an exec record.
pub struct GrokSessionInfo {
    pub session_id: String,
    pub cwd: Option<String>,
    pub message_count: usize,
    pub first_message_time: String,
    pub last_message_time: String,
    pub last_modified: String,
    pub has_tool_use: bool,
    pub summary: Option<String>,
}

impl View for GrokSessionInfo {
    type V = SessionInfo;

    open spec fn view(&self) -> SessionInfo {
        SessionInfo {
            session_id: self.session_id@,
            cwd: opt_str(self.cwd),
            message_count: self.message_count,
            first_message_time: self.first_message_time@,
            last_message_time: self.last_message_time@,
            last_modified: self.last_modified@,
            has_tool_use: self.has_tool_use,
            summary: opt_str(self.summary),
        }
    }
}

/// The session of a session directory (see `session_info`).
pub fn extract_session_info(sf: &GrokSessionFiles) -> (r: Option<GrokSessionInfo>)
    ensures
        match r {
            Some(i) => session_info(sf@) == Some(i@),
            None => session_info(sf@) is None,
        },
{
    if !sf.summary_is_file || !sf.chat_is_file {
        return None;
    }
    let text = match &sf.summary_text {
        Some(t) => t,
        None => {
            return None;
        },
    };
    let summary = match parse_json(text.as_str()) {
        Some(v) => v,
        None => {
            return None;
        },
    };
    let info = summary.get("info");
    let session_id = match info {
        Some(i) => match i.get("id") {
            Some(v) => own(str_or_default(v.as_str(), sf.name.as_str())),
            None => sf.name.clone(),
        },
        None => sf.name.clone(),
    };
    let cwd = trimmed_of(match info {
        Some(i) => match i.get("cwd") {
            Some(v) => v.as_str(),
            None => None,
        },
        None => None,
    });
    let title = match trimmed_of(summary.get_str("generated_title")) {
        Some(t) => Some(t),
        None => trimmed_of(summary.get_str("session_summary")),
    };
    let num = match summary.get("num_chat_messages") {
        Some(v) => v.as_u64(),
        None => match summary.get("num_messages") {
            Some(v) => v.as_u64(),
            None => None,
        },
    };
    let recorded: usize = match num {
        Some(n) => n as usize,
        None => 0,
    };
    let signals = json_file_or_null(&sf.signals_text);
    let signalled = match signals.get_u64("toolCallCount") {
        Some(n) => n > 0,
        None => false,
    };
    let (count, tools) = if recorded == 0 {
        match &sf.chat_lines {
            Ok(lines) => {
                let vs = read_jsonl_values(lines);
                let (c, t) = survey_records(&vs);
                (c, signalled || t)
            },
            Err(_) => (0, signalled),
        }
    } else {
        let vs = read_jsonl_values(&sf.chat_readable_lines);
        let (_, t) = survey_records(&vs);
        (recorded, signalled || t)
    };
    if count == 0 {
        return None;
    }
    let (created, updated) = summary_times(&summary);
    let last_modified = if updated.as_str().is_empty() {
        match &sf.summary_modified {
            Some(m) => m.clone(),
            None => String::new(),
        }
    } else {
        updated.clone()
    };
    Some(GrokSessionInfo {
        session_id,
        cwd,
        message_count: count,
        first_message_time: created,
        last_message_time: updated,
        last_modified,
        has_tool_use: tools,
        summary: title,
    })
}

/// The sessions of the session directories (see `session_infos`).
fn infos_of(ss: &Vec<GrokSessionFiles>) -> (r: Vec<GrokSessionInfo>)
    ensures
        r@.len() == session_infos(Seq::new(ss@.len(), |i: int| ss@[i]@)).len(),
        forall|j: int| 0 <= j < r@.len() ==> (#[trigger] r@[j])@ == session_infos(Seq::new(ss@.len(), |i: int| ss@[i]@))[j],
{
    let ghost sv = Seq::new(ss@.len(), |i: int| ss@[i]@);
    let mut out: Vec<GrokSessionInfo> = Vec::new();
    let mut i: usize = 0;
    while i < ss.len()
        invariant
            sv == Seq::new(ss@.len(), |i: int| ss@[i]@),
            i <= ss@.len(),
            out@.len() == session_infos(sv.subrange(0, i as int)).len(),
            forall|j: int| 0 <= j < out@.len() ==> (#[trigger] out@[j])@ == session_infos(sv.subrange(0, i as int))[j],
        decreases ss.len() - i,
    {
        proof {
            assert(sv.subrange(0, i + 1).drop_last() =~= sv.subrange(0, i as int));
            assert(sv.subrange(0, i + 1).last() == ss@[i as int]@);
        }
        match extract_session_info(&ss[i]) {
            Some(info) => {
                let ghost before = out@;
                out.push(info);
                assert forall|j: int| 0 <= j < out@.len() implies (#[trigger] out@[j])@
                    == session_infos(sv.subrange(0, i + 1))[j] by {
                    if j < out@.len() - 1 {
                        assert(out@[j] == before[j]);
                    }
                }
            },
            None => {},
        }
        i = i + 1;
    }
    assert(sv.subrange(0, ss@.len() as int) =~= sv);
    out
}

/// The project of a project directory (see `grok_project`).
fn project_of(p: &GrokProjectDir) -> (r: Option<ClaudeProject>)
    ensures
        match r {
            Some(x) => grok_project(p@) == Some(x@),
            None => grok_project(p@) is None,
        },
{
    let infos = infos_of(&p.sessions);
    let ghost iv = session_infos(p@.sessions);
    assert(Seq::new(p.sessions@.len(), |i: int| p.sessions@[i]@) =~= p@.sessions);
    if infos.len() == 0 {
        return None;
    }
    let mut cwd: Option<String> = None;
    let mut total: usize = 0;
    let mut last = String::new();
    let mut i: usize = 0;
    assert(iv.subrange(0, 0) =~= Seq::<SessionInfo>::empty());
    assert(iv.subrange(0, iv.len() as int) =~= iv);
    while i < infos.len()
        invariant
            iv == session_infos(p@.sessions),
            infos@.len() == iv.len(),
            forall|j: int| 0 <= j < infos@.len() ==> (#[trigger] infos@[j])@ == iv[j],
            i <= infos@.len(),
            first_cwd(iv) == match opt_str(cwd) {
                Some(c) => Some(c),
                None => first_cwd(iv.subrange(i as int, iv.len() as int)),
            },
            total == saturate(total_count(iv.subrange(0, i as int))),
            total_count(iv.subrange(0, i as int)) >= 0,
            last@ == latest_info(iv.subrange(0, i as int)),
        decreases infos.len() - i,
    {
        proof {
            assert(iv.subrange(0, i + 1).drop_last() =~= iv.subrange(0, i as int));
            assert(iv.subrange(0, i + 1).last() == infos@[i as int]@);
            assert(iv.subrange(i as int, iv.len() as int)[0] == iv[i as int]);
            assert(iv.subrange(i as int, iv.len() as int).drop_first() =~= iv.subrange(i + 1, iv.len() as int));
        }
        let info = &infos[i];
        if cwd.is_none() {
            match &info.cwd {
                Some(c) => {
                    cwd = Some(c.clone());
                },
                None => {},
            }
        }
        total = total.saturating_add(info.message_count);
        if str_less(last.as_str(), info.last_modified.as_str()) {
            last = info.last_modified.clone();
        }
        i = i + 1;
    }
    assert(iv.subrange(0, infos@.len() as int) =~= iv);
    let actual = match cwd {
        Some(c) => c,
        None => decode_cwd_dirname(p.name.as_str()),
    };
    let name = project_name_from_actual_path(actual.as_str(), p.name.as_str());
    Some(ClaudeProject {
        name,
        path: concat("grok://", p.path.as_str()),
        actual_path: actual,
        session_count: infos.len(),
        message_count: total,
        last_modified: last,
        git_info: None,
        provider: Some(own("grok")),
        storage_type: Some(own("jsonl")),
        custom_directory_label: None,
        entrypoint: None,
    })
}

/// The projects of the project directories, in listing order.
fn projects_of(ps: &Vec<GrokProjectDir>) -> (r: Vec<ClaudeProject>)
    ensures
        projects_view(r@) == grok_projects(Seq::new(ps@.len(), |i: int| ps@[i]@)),
{
    let ghost pv = Seq::new(ps@.len(), |i: int| ps@[i]@);
    let mut out: Vec<ClaudeProject> = Vec::new();
    let mut i: usize = 0;
    assert(projects_view(out@) =~= grok_projects(pv.subrange(0, 0)));
    while i < ps.len()
        invariant
            pv == Seq::new(ps@.len(), |i: int| ps@[i]@),
            i <= ps@.len(),
            projects_view(out@) == grok_projects(pv.subrange(0, i as int)),
        decreases ps.len() - i,
    {
        proof {
            assert(pv.subrange(0, i + 1).drop_last() =~= pv.subrange(0, i as int));
            assert(pv.subrange(0, i + 1).last() == ps@[i as int]@);
        }
        match project_of(&ps[i]) {
            Some(x) => {
                let ghost before = projects_view(out@);
                out.push(x);
                assert(projects_view(out@) =~= before.push(x@));
            },
            None => {},
        }
        i = i + 1;
    }
    assert(pv.subrange(0, ps@.len() as int) =~= pv);
    out
}

/// The projects of a Grok installation, newest first (see `scanned_projects`); git
/// information is left for the caller to detect.
pub fn scan_projects_from_path(base_path: &str, store: &GrokStore) -> (r: Result<Vec<ClaudeProject>, String>)
    ensures
        match r {
            Ok(ps) => scanned_projects(base_path@, store@) == Ok::<Seq<ProjectView>, Seq<char>>(projects_view(ps@)),
            Err(e) => scanned_projects(base_path@, store@) == Err::<Seq<ProjectView>, Seq<char>>(e@),
        },
{
    require_absolute_path(base_path, "Grok base path")?;
    let ps = projects_of(&store.projects);
    assert(Seq::new(store.projects@.len(), |i: int| store.projects@[i]@) =~= store@.projects);
    Ok(sort_projects_newest_first(ps))
}

/// The session entry of a session directory (see `grok_session`).
fn session_of(sf: &GrokSessionFiles, fallback: &str) -> (r: Option<ClaudeSession>)
    ensures
        match r {
            Some(x) => grok_session(sf@, fallback@) == Some(x@),
            None => grok_session(sf@, fallback@) is None,
        },
{
    let info = match extract_session_info(sf) {
        Some(i) => i,
        None => {
            return None;
        },
    };
    let project_name = match &info.cwd {
        Some(c) => project_name_from_actual_path(c.as_str(), fallback),
        None => {
            let decoded = decode_cwd_dirname(fallback);
            project_name_from_actual_path(decoded.as_str(), fallback)
        },
    };
    Some(ClaudeSession {
        session_id: sf.dir.clone(),
        actual_session_id: info.session_id,
        file_path: sf.dir.clone(),
        project_name,
        message_count: info.message_count,
        first_message_time: info.first_message_time,
        last_message_time: info.last_message_time,
        last_modified: info.last_modified,
        has_tool_use: info.has_tool_use,
        has_errors: false,
        summary: info.summary,
        is_renamed: false,
        provider: Some(own("grok")),
        storage_type: Some(own("jsonl")),
        entrypoint: None,
    })
}

/// The session entries of a project directory, in listing order.
fn sessions_of_project(p: &GrokProjectDir) -> (r: Vec<ClaudeSession>)
    ensures
        sessions_view(r@) == grok_sessions_of(p@.sessions, p@.name),
{
    let ghost sv = p@.sessions;
    let mut out: Vec<ClaudeSession> = Vec::new();
    let mut i: usize = 0;
    assert(sessions_view(out@) =~= grok_sessions_of(sv.subrange(0, 0), p@.name));
    while i < p.sessions.len()
        invariant
            sv == p@.sessions,
            i <= sv.len(),
            sessions_view(out@) == grok_sessions_of(sv.subrange(0, i as int), p@.name),
        decreases p.sessions.len() - i,
    {
        proof {
            assert(sv.subrange(0, i + 1).drop_last() =~= sv.subrange(0, i as int));
            assert(sv.subrange(0, i + 1).last() == p.sessions@[i as int]@);
        }
        match session_of(&p.sessions[i], p.name.as_str()) {
            Some(x) => {
                let ghost before = sessions_view(out@);
                out.push(x);
                assert(sessions_view(out@) =~= before.push(x@));
            },
            None => {},
        }
        i = i + 1;
    }
    assert(sv.subrange(0, sv.len() as int) =~= sv);
    out
}

pub open spec fn project_result_view(r: Result<GrokProjectDir, String>) -> Result<GrokProjectView, Seq<char>> {
    match r {
        Ok(p) => Ok(p@),
        Err(e) => Err(e@),
    }
}

/// The sessions of a project, newest first (see `project_sessions`): the caller
/// passes the project directory it read at `project_path`, or the error it met.
pub fn load_sessions_from_base_path(base_path: &str, project_path: &str, project: &Result<GrokProjectDir, String>)
    -> (r: Result<Vec<ClaudeSession>, String>)
    ensures
        match r {
            Ok(ss) => project_sessions(base_path@, project_path@, project_result_view(*project))
                == Ok::<Seq<SessionView>, Seq<char>>(sessions_view(ss@)),
            Err(e) => project_sessions(base_path@, project_path@, project_result_view(*project))
                == Err::<Seq<SessionView>, Seq<char>>(e@),
        },
{
    require_absolute_path(base_path, "Grok base path")?;
    let raw = match str_strip_prefix(project_path, "grok://") {
        Some(rest) => rest,
        None => project_path,
    };
    if !str_starts_with(raw, "/") {
        return Err(own("Grok project path must be absolute"));
    }
    let p = match project {
        Ok(p) => p,
        Err(e) => {
            return Err(e.clone());
        },
    };
    Ok(sort_sessions_newest_first(sessions_of_project(p)))
}

// ---------------------------------------------------------------------------
// Messages
// ---------------------------------------------------------------------------

/// The number of records whose `type` is a string.
pub open spec fn typed_count(vs: Seq<JsonView>) -> nat
    decreases vs.len(),
{
    if vs.len() == 0 {
        0
    } else {
        typed_count(vs.drop_last()) + if vs.last().get_str("type"@) is Some { 1nat } else { 0nat }
    }
}

/// The messages of the chat history records, in order.
pub open spec fn chat_messages(vs: Seq<JsonView>, session_id: Seq<char>, timestamp: Seq<char>, model: Option<Seq<char>>)
    -> Seq<MessageView>
    decreases vs.len(),
{
    if vs.len() == 0 {
        Seq::empty()
    } else {
        let prev = chat_messages(vs.drop_last(), session_id, timestamp, model);
        if vs.last().get_str("type"@) is Some {
            match chat_message(vs.last(), session_id, timestamp, model, typed_count(vs) as u64) {
                Some(m) => prev.push(m),
                None => prev,
            }
        } else {
            prev
        }
    }
}

/// The messages with the last one dated `updated` (when it is not empty).
pub open spec fn stamped_last(ms: Seq<MessageView>, updated: Seq<char>) -> Seq<MessageView> {
    if ms.len() > 0 && updated.len() > 0 {
        ms.update(ms.len() - 1, MessageView { timestamp: updated, ..ms.last() })
    } else {
        ms
    }
}

/// The messages with the session's context token count (from its signals) on the
/// last assistant message, as input tokens; that message takes the session's
/// primary model when it names none.
pub open spec fn session_usage(signals: JsonView, ms: Seq<MessageView>) -> Seq<MessageView> {
    let tokens: u64 = match signals.get_u64("contextTokensUsed"@) {
        Some(n) => n,
        None => 0,
    };
    let k = last_assistant(ms);
    if ms.len() == 0 || tokens == 0 || k < 0 {
        ms
    } else {
        ms.update(k, MessageView {
            usage: Some(input_only(cap_u32(tokens))),
            model: if ms[k].model is None { signals.get_str("primaryModelId"@) } else { ms[k].model },
            ..ms[k]
        })
    }
}

pub open spec fn session_result_view(r: Result<GrokSessionFiles, String>) -> Result<GrokSessionView, Seq<char>> {
    match r {
        Ok(s) => Ok(s@),
        Err(e) => Err(e@),
    }
}

/// The messages of a session: its chat history records converted and dated with
/// the summary's `created_at`, the last one with its `updated_at`, and the token
/// count on the last assistant message. Errors: a relative base path, what reading
/// the session directory at `session_path` gave (its checks are
/// `crate::paths::grok_session_check`), and what reading its history gave.
pub open spec fn grok_session_messages(base_path: Seq<char>, session_path: Seq<char>, session: Result<GrokSessionView, Seq<char>>)
    -> Result<Seq<MessageView>, Seq<char>>
{
    match absolute_or_error(base_path, "Grok base path"@) {
        Err(e) => Err(e),
        Ok(_) => {
            match session {
                Err(e) => Err(e),
                Ok(sf) => {
                    let summary = json_or_null(sf.summary_text);
                    match sf.chat_lines {
                        Err(e) => Err(e),
                        Ok(lines) => Ok(session_usage(json_or_null(sf.signals_text), stamped_last(
                            chat_messages(jsonl_values(lines), sf.name, created_at(summary), summary.get_str("current_model_id"@)),
                            updated_at(summary),
                        ))),
                    }
                },
            }
        },
    }
}

/// Attaches a session's context token count to its last assistant message (see
/// `session_usage`).
pub fn attach_session_token_usage(signals: &Json, messages: &mut Vec<ClaudeMessage>)
    ensures
        messages_view(final(messages)@) == session_usage(signals@, messages_view(old(messages)@)),
{
    if messages.len() == 0 {
        return;
    }
    let tokens = match signals.get_u64("contextTokensUsed") {
        Some(n) => n,
        None => 0,
    };
    if tokens == 0 {
        return;
    }
    let fallback_model = match signals.get_str("primaryModelId") {
        Some(m) => Some(own(m)),
        None => None,
    };
    let capped = capped_u32(tokens);
    match last_assistant_index(messages) {
        Some(k) => {
            let ghost before = messages@;
            let mut m = messages.remove(k);
            m.usage = Some(TokenUsage {
                input_tokens: Some(capped),
                output_tokens: None,
                cache_creation_input_tokens: None,
                cache_read_input_tokens: None,
            });
            if m.model.is_none() {
                m.model = fallback_model;
            }
            proof {
                lemma_messages_replace(before, k as int, m);
            }
            messages.insert(k, m);
        },
        None => {},
    }
}

/// The messages of a session (see `grok_session_messages`): the caller passes the
/// session directory it read at `session_path`, or the error it met.
pub fn load_messages_from_base_path(base_path: &str, session_path: &str, session: &Result<GrokSessionFiles, String>)
    -> (r: Result<Vec<ClaudeMessage>, String>)
    ensures
        match r {
            Ok(ms) => grok_session_messages(base_path@, session_path@, session_result_view(*session))
                == Ok::<Seq<MessageView>, Seq<char>>(messages_view(ms@)),
            Err(e) => grok_session_messages(base_path@, session_path@, session_result_view(*session))
                == Err::<Seq<MessageView>, Seq<char>>(e@),
        },
{
    require_absolute_path(base_path, "Grok base path")?;
    let sf = match session {
        Ok(sf) => sf,
        Err(e) => {
            return Err(e.clone());
        },
    };
    let summary = json_file_or_null(&sf.summary_text);
    let (created, updated) = summary_times(&summary);
    let model = match summary.get_str("current_model_id") {
        Some(m) => Some(own(m)),
        None => None,
    };
    let lines = match &sf.chat_lines {
        Ok(l) => l,
        Err(e) => {
            return Err(e.clone());
        },
    };
    let values = read_jsonl_values(lines);
    let ghost vv = items_view(values@);
    let mut messages: Vec<ClaudeMessage> = Vec::new();
    let mut counter: u64 = 0;
    let mut i: usize = 0;
    assert(messages_view(messages@) =~= chat_messages(vv.subrange(0, 0), sf.name@, created@, opt_str(model)));
    while i < values.len()
        invariant
            vv == items_view(values@),
            i <= vv.len(),
            counter == typed_count(vv.subrange(0, i as int)),
            counter <= i,
            messages_view(messages@) == chat_messages(vv.subrange(0, i as int), sf.name@, created@, opt_str(model)),
        decreases values.len() - i,
    {
        proof {
            assert(vv.subrange(0, i + 1).drop_last() =~= vv.subrange(0, i as int));
            assert(vv.subrange(0, i + 1).last() == values@[i as int]@);
        }
        let m_model = match &model {
            Some(m) => Some(m.clone()),
            None => None,
        };
        match convert_chat_message(&values[i], sf.name.as_str(), created.as_str(), m_model, &mut counter) {
            Some(m) => {
                let ghost before = messages_view(messages@);
                messages.push(m);
                assert(messages_view(messages@) =~= before.push(m@));
            },
            None => {},
        }
        i = i + 1;
    }
    assert(vv.subrange(0, values@.len() as int) =~= vv);
    if messages.len() > 0 && !updated.as_str().is_empty() {
        let k = messages.len() - 1;
        let ghost before = messages@;
        let mut m = messages.remove(k);
        m.timestamp = updated.clone();
        proof {
            lemma_messages_replace(before, k as int, m);
        }
        messages.insert(k, m);
    }
    let signals = json_file_or_null(&sf.signals_text);
    attach_session_token_usage(&signals, &mut messages);
    Ok(messages)
}

// ---------------------------------------------------------------------------
// Search
// ---------------------------------------------------------------------------

/// The first project directory whose `grok://` path is `path`.
pub open spec fn dir_by_path(ps: Seq<GrokProjectView>, path: Seq<char>) -> Option<GrokProjectView>
    decreases ps.len(),
{
    if ps.len() == 0 {
        None
    } else if "grok://"@ + ps[0].path == path {
        Some(ps[0])
    } else {
        dir_by_path(ps.drop_first(), path)
    }
}

/// The first session directory at `dir`.
pub open spec fn session_by_dir(ss: Seq<GrokSessionView>, dir: Seq<char>) -> Option<GrokSessionView>
    decreases ss.len(),
{
    if ss.len() == 0 {
        None
    } else if ss[0].dir == dir {
        Some(ss[0])
    } else {
        session_by_dir(ss.drop_first(), dir)
    }
}

/// The hits of one session of project directory `d` (none when it cannot be read).
pub open spec fn one_session_hits(base_path: Seq<char>, s: SessionView, d: GrokProjectView, q: Seq<char>, name: Seq<char>)
    -> Seq<MessageView>
{
    match session_by_dir(d.sessions, s.file_path) {
        Some(sf) => match grok_session_messages(base_path, s.file_path, Ok(sf)) {
            Ok(ms) => message_hits(ms, q, name),
            Err(_) => Seq::empty(),
        },
        None => Seq::empty(),
    }
}

/// The hits of some sessions of project directory `d`, in order.
pub open spec fn session_search_hits(base_path: Seq<char>, ss: Seq<SessionView>, d: GrokProjectView, q: Seq<char>, name: Seq<char>)
    -> Seq<MessageView>
    decreases ss.len(),
{
    if ss.len() == 0 {
        Seq::empty()
    } else {
        session_search_hits(base_path, ss.drop_last(), d, q, name) + one_session_hits(base_path, ss.last(), d, q, name)
    }
}

/// The hits of one project (none when its sessions cannot be read).
pub open spec fn one_project_hits(base_path: Seq<char>, p: ProjectView, store: GrokStoreView, q: Seq<char>) -> Seq<MessageView> {
    match dir_by_path(store.projects, p.path) {
        Some(d) => match project_sessions(base_path, p.path, Ok(d)) {
            Ok(ss) => session_search_hits(base_path, ss, d, q, p.name),
            Err(_) => Seq::empty(),
        },
        None => Seq::empty(),
    }
}

/// The hits of some projects, in order.
pub open spec fn project_search_hits(base_path: Seq<char>, ps: Seq<ProjectView>, store: GrokStoreView, q: Seq<char>)
    -> Seq<MessageView>
    decreases ps.len(),
{
    if ps.len() == 0 {
        Seq::empty()
    } else {
        project_search_hits(base_path, ps.drop_last(), store, q) + one_project_hits(base_path, ps.last(), store, q)
    }
}

/// Search: the messages mentioning the lower-cased query, project by project (newest
/// first) and session by session (newest first), tagged with their project's name,
/// at most `limit` of them (and the first hit even for a zero limit). An error when
/// the base path is not absolute.
pub open spec fn grok_search(base_path: Seq<char>, query: Seq<char>, limit: usize, store: GrokStoreView)
    -> Result<Seq<MessageView>, Seq<char>>
{
    match scanned_projects(base_path, store) {
        Err(e) => Err(e),
        Ok(ps) => Ok(capped(project_search_hits(base_path, ps, store, lowercase(query)), limit)),
    }
}

proof fn lemma_session_search_prefix(base_path: Seq<char>, ss: Seq<SessionView>, k: int, d: GrokProjectView, q: Seq<char>, name: Seq<char>)
    requires
        0 <= k <= ss.len(),
    ensures
        session_search_hits(base_path, ss.take(k), d, q, name).is_prefix_of(session_search_hits(base_path, ss, d, q, name)),
    decreases ss.len(),
{
    let all = session_search_hits(base_path, ss, d, q, name);
    if k == ss.len() {
        assert(ss.take(k) =~= ss);
        assert(all.take(all.len() as int) =~= all);
    } else {
        assert(ss.drop_last().take(k) =~= ss.take(k));
        lemma_session_search_prefix(base_path, ss.drop_last(), k, d, q, name);
        let prev = session_search_hits(base_path, ss.drop_last(), d, q, name);
        assert(prev.is_prefix_of(all)) by {
            assert(all.take(prev.len() as int) =~= prev);
        }
        lemma_prefix_trans(session_search_hits(base_path, ss.take(k), d, q, name), prev, all);
    }
}

proof fn lemma_project_search_prefix(base_path: Seq<char>, ps: Seq<ProjectView>, k: int, store: GrokStoreView, q: Seq<char>)
    requires
        0 <= k <= ps.len(),
    ensures
        project_search_hits(base_path, ps.take(k), store, q).is_prefix_of(project_search_hits(base_path, ps, store, q)),
    decreases ps.len(),
{
    let all = project_search_hits(base_path, ps, store, q);
    if k == ps.len() {
        assert(ps.take(k) =~= ps);
        assert(all.take(all.len() as int) =~= all);
    } else {
        assert(ps.drop_last().take(k) =~= ps.take(k));
        lemma_project_search_prefix(base_path, ps.drop_last(), k, store, q);
        let prev = project_search_hits(base_path, ps.drop_last(), store, q);
        assert(prev.is_prefix_of(all)) by {
            assert(all.take(prev.len() as int) =~= prev);
        }
        lemma_prefix_trans(project_search_hits(base_path, ps.take(k), store, q), prev, all);
    }
}


/// Once the hits gathered up to message `k` of session `j` of project `i` fill the
/// cap, they are the search result.
proof fn lemma_search_stop(
    base_path: Seq<char>,
    pv: Seq<ProjectView>,
    sv: GrokStoreView,
    q: Seq<char>,
    i: int,
    dv: GrokProjectView,
    ssv: Seq<SessionView>,
    j: int,
    mv: Seq<MessageView>,
    k: int,
    found: Seq<MessageView>,
    limit: usize,
)
    requires
        0 <= i < pv.len(),
        dir_by_path(sv.projects, pv[i].path) == Some(dv),
        project_sessions(base_path, pv[i].path, Ok(dv)) == Ok::<Seq<SessionView>, Seq<char>>(ssv),
        0 <= j < ssv.len(),
        one_session_hits(base_path, ssv[j], dv, q, pv[i].name) == message_hits(mv, q, pv[i].name),
        0 <= k < mv.len(),
        found == project_search_hits(base_path, pv.take(i), sv, q)
            + session_search_hits(base_path, ssv.take(j), dv, q, pv[i].name)
            + message_hits(mv.take(k + 1), q, pv[i].name),
        found.len() == result_cap(limit),
    ensures
        capped(project_search_hits(base_path, pv, sv, q), limit) == found,
{
    let name = pv[i].name;
    let all = project_search_hits(base_path, pv, sv, q);
    let before_p = project_search_hits(base_path, pv.take(i), sv, q);
    let mh = message_hits(mv.take(k + 1), q, name);
    let st = session_search_hits(base_path, ssv.take(j), dv, q, name);
    let sall = session_search_hits(base_path, ssv, dv, q, name);
    lemma_message_hits_prefix(mv, k + 1, q, name);
    lemma_prefix_prepend(st, mh, message_hits(mv, q, name));
    assert(ssv.take(j + 1).drop_last() =~= ssv.take(j));
    assert(ssv.take(j + 1).last() == ssv[j]);
    assert(session_search_hits(base_path, ssv.take(j + 1), dv, q, name) == st + message_hits(mv, q, name));
    lemma_session_search_prefix(base_path, ssv, j + 1, dv, q, name);
    lemma_prefix_trans(st + mh, session_search_hits(base_path, ssv.take(j + 1), dv, q, name), sall);
    lemma_prefix_prepend(before_p, st + mh, sall);
    assert(pv.take(i + 1).drop_last() =~= pv.take(i));
    assert(pv.take(i + 1).last() == pv[i]);
    assert(one_project_hits(base_path, pv[i], sv, q) == sall);
    assert(project_search_hits(base_path, pv.take(i + 1), sv, q) == before_p + sall);
    lemma_project_search_prefix(base_path, pv, i + 1, sv, q);
    lemma_prefix_trans(before_p + (st + mh), before_p + sall, all);
    assert(found =~= before_p + (st + mh));
    lemma_capped_prefix(found, all, limit);
}

/// The first project directory whose `grok://` path is `path` (see `dir_by_path`).
fn find_project<'a>(ps: &'a Vec<GrokProjectDir>, path: &str) -> (r: Option<&'a GrokProjectDir>)
    ensures
        match r {
            Some(d) => dir_by_path(Seq::new(ps@.len(), |i: int| ps@[i]@), path@) == Some(d@),
            None => dir_by_path(Seq::new(ps@.len(), |i: int| ps@[i]@), path@) is None,
        },
{
    let ghost pv = Seq::new(ps@.len(), |i: int| ps@[i]@);
    let mut i: usize = 0;
    assert(pv.skip(0) =~= pv);
    while i < ps.len()
        invariant
            pv == Seq::new(ps@.len(), |i: int| ps@[i]@),
            i <= ps@.len(),
            dir_by_path(pv, path@) == dir_by_path(pv.skip(i as int), path@),
        decreases ps.len() - i,
    {
        assert(pv.skip(i as int)[0] == ps@[i as int]@);
        assert(pv.skip(i as int).drop_first() =~= pv.skip(i + 1));
        let full = concat("grok://", ps[i].path.as_str());
        if str_eq(full.as_str(), path) {
            return Some(&ps[i]);
        }
        i = i + 1;
    }
    None
}

/// The first session directory at `dir` (see `session_by_dir`).
fn find_session<'a>(ss: &'a Vec<GrokSessionFiles>, dir: &str) -> (r: Option<&'a GrokSessionFiles>)
    ensures
        match r {
            Some(x) => session_by_dir(Seq::new(ss@.len(), |i: int| ss@[i]@), dir@) == Some(x@),
            None => session_by_dir(Seq::new(ss@.len(), |i: int| ss@[i]@), dir@) is None,
        },
{
    let ghost sv = Seq::new(ss@.len(), |i: int| ss@[i]@);
    let mut i: usize = 0;
    assert(sv.skip(0) =~= sv);
    while i < ss.len()
        invariant
            sv == Seq::new(ss@.len(), |i: int| ss@[i]@),
            i <= ss@.len(),
            session_by_dir(sv, dir@) == session_by_dir(sv.skip(i as int), dir@),
        decreases ss.len() - i,
    {
        assert(sv.skip(i as int)[0] == ss@[i as int]@);
        assert(sv.skip(i as int).drop_first() =~= sv.skip(i + 1));
        if str_eq(ss[i].dir.as_str(), dir) {
            return Some(&ss[i]);
        }
        i = i + 1;
    }
    None
}

/// A copy of the files of a session directory.
fn copy_session_files(sf: &GrokSessionFiles) -> (r: GrokSessionFiles)
    ensures
        r@ == sf@,
{
    GrokSessionFiles {
        dir: sf.dir.clone(),
        name: sf.name.clone(),
        summary_is_file: sf.summary_is_file,
        summary_text: clone_opt_string(&sf.summary_text),
        summary_modified: clone_opt_string(&sf.summary_modified),
        chat_is_file: sf.chat_is_file,
        chat_lines: match &sf.chat_lines {
            Ok(l) => {
                let c = copy_lines(l);
                Ok(c)
            },
            Err(e) => Err(e.clone()),
        },
        chat_readable_lines: copy_lines(&sf.chat_readable_lines),
        signals_text: clone_opt_string(&sf.signals_text),
    }
}

fn copy_lines(l: &Vec<String>) -> (r: Vec<String>)
    ensures
        lines_view(r@) == lines_view(l@),
{
    let mut out: Vec<String> = Vec::new();
    let mut i: usize = 0;
    while i < l.len()
        invariant
            i <= l@.len(),
            out@.len() == i,
            forall|j: int| 0 <= j < i ==> (#[trigger] out@[j])@ == l@[j]@,
        decreases l.len() - i,
    {
        out.push(l[i].clone());
        i = i + 1;
    }
    assert(lines_view(out@) =~= lines_view(l@));
    out
}

/// A copy of a project directory.
fn copy_project_dir(p: &GrokProjectDir) -> (r: GrokProjectDir)
    ensures
        r@ == p@,
{
    let mut sessions: Vec<GrokSessionFiles> = Vec::new();
    let mut i: usize = 0;
    while i < p.sessions.len()
        invariant
            i <= p.sessions@.len(),
            sessions@.len() == i,
            forall|j: int| 0 <= j < i ==> (#[trigger] sessions@[j])@ == p.sessions@[j]@,
        decreases p.sessions.len() - i,
    {
        sessions.push(copy_session_files(&p.sessions[i]));
        i = i + 1;
    }
    let r = GrokProjectDir { name: p.name.clone(), path: p.path.clone(), sessions };
    assert(r@.sessions =~= p@.sessions);
    r
}

/// Searches the Grok installation for `query` (ignoring case) (see `grok_search`).
pub fn search_from_base_path(base_path: &str, query: &str, limit: usize, store: &GrokStore)
    -> (r: Result<Vec<ClaudeMessage>, String>)
    ensures
        match r {
            Ok(ms) => grok_search(base_path@, query@, limit, store@) == Ok::<Seq<MessageView>, Seq<char>>(messages_view(ms@)),
            Err(e) => grok_search(base_path@, query@, limit, store@) == Err::<Seq<MessageView>, Seq<char>>(e@),
        },
{
    let q = str_to_lowercase(query);
    let projects = scan_projects_from_path(base_path, store)?;
    let ghost sv = store@;
    let ghost pv = projects_view(projects@);
    let ghost all = project_search_hits(base_path@, pv, sv, q@);
    let cap: usize = if limit == 0 { 1 } else { limit };
    assert(Seq::new(store.projects@.len(), |i: int| store.projects@[i]@) =~= sv.projects);
    let mut results: Vec<ClaudeMessage> = Vec::new();
    let mut i: usize = 0;
    assert(pv.take(0) =~= Seq::<ProjectView>::empty());
    assert(messages_view(results@) =~= project_search_hits(base_path@, pv.take(0), sv, q@));
    while i < projects.len()
        invariant
            sv == store@,
            Seq::new(store.projects@.len(), |i: int| store.projects@[i]@) == sv.projects,
            pv == projects_view(projects@),
            scanned_projects(base_path@, store@) == Ok::<Seq<ProjectView>, Seq<char>>(pv),
            all == project_search_hits(base_path@, pv, sv, q@),
            q@ == lowercase(query@),
            cap == result_cap(limit),
            i <= pv.len(),
            messages_view(results@) == project_search_hits(base_path@, pv.take(i as int), sv, q@),
            results@.len() < cap,
        decreases pv.len() - i,
    {
        let project = &projects[i];
        let ghost before_p = messages_view(results@);
        proof {
            assert(pv.take(i + 1).drop_last() =~= pv.take(i as int));
            assert(pv.take(i + 1).last() == project@);
        }
        let dir = match find_project(&store.projects, project.path.as_str()) {
            Some(d) => d,
            None => {
                assert(messages_view(results@) =~= project_search_hits(base_path@, pv.take(i + 1), sv, q@));
                i = i + 1;
                continue;
            },
        };
        let found = Ok(copy_project_dir(dir));
        let sessions = match load_sessions_from_base_path(base_path, project.path.as_str(), &found) {
            Ok(ss) => ss,
            Err(_) => {
                assert(messages_view(results@) =~= project_search_hits(base_path@, pv.take(i + 1), sv, q@));
                i = i + 1;
                continue;
            },
        };
        let ghost ssv = sessions_view(sessions@);
        let ghost dv = dir@;
        let mut j: usize = 0;
        assert(ssv.take(0) =~= Seq::<SessionView>::empty());
        assert(messages_view(results@) =~= before_p + session_search_hits(base_path@, ssv.take(0), dv, q@, project.name@));
        while j < sessions.len()
            invariant
                sv == store@,
                pv == projects_view(projects@),
                scanned_projects(base_path@, store@) == Ok::<Seq<ProjectView>, Seq<char>>(pv),
            scanned_projects(base_path@, store@) == Ok::<Seq<ProjectView>, Seq<char>>(pv),
                all == project_search_hits(base_path@, pv, sv, q@),
                q@ == lowercase(query@),
                cap == result_cap(limit),
                i < pv.len(),
                *project == projects@[i as int],
                dv == dir@,
                dir_by_path(sv.projects, project@.path) == Some(dv),
                project_sessions(base_path@, project@.path, Ok(dv)) == Ok::<Seq<SessionView>, Seq<char>>(ssv),
                ssv == sessions_view(sessions@),
                before_p == project_search_hits(base_path@, pv.take(i as int), sv, q@),
                j <= ssv.len(),
                messages_view(results@) == before_p + session_search_hits(base_path@, ssv.take(j as int), dv, q@, project.name@),
                results@.len() < cap,
            decreases ssv.len() - j,
        {
            let session = &sessions[j];
            let ghost before_s = messages_view(results@);
            proof {
                assert(ssv.take(j + 1).drop_last() =~= ssv.take(j as int));
                assert(ssv.take(j + 1).last() == session@);
            }
            let files = match find_session(&dir.sessions, session.file_path.as_str()) {
                Some(f) => f,
                None => {
                    assert(dv.sessions =~= Seq::new(dir.sessions@.len(), |i: int| dir.sessions@[i]@));
                    assert(messages_view(results@) =~= before_p + session_search_hits(base_path@, ssv.take(j + 1), dv, q@, project.name@));
                    j = j + 1;
                    continue;
                },
            };
            assert(dv.sessions =~= Seq::new(dir.sessions@.len(), |i: int| dir.sessions@[i]@));
            let loaded = Ok(copy_session_files(files));
            let messages = match load_messages_from_base_path(base_path, session.file_path.as_str(), &loaded) {
                Ok(ms) => ms,
                Err(_) => {
                    assert(messages_view(results@) =~= before_p + session_search_hits(base_path@, ssv.take(j + 1), dv, q@, project.name@));
                    j = j + 1;
                    continue;
                },
            };
            let ghost mv = messages_view(messages@);
            let mut k: usize = 0;
            assert(mv.take(0) =~= Seq::<MessageView>::empty());
            assert(messages_view(results@) =~= before_s + message_hits(mv.take(0), q@, project.name@));
            while k < messages.len()
                invariant
                    sv == store@,
                    pv == projects_view(projects@),
                    scanned_projects(base_path@, store@) == Ok::<Seq<ProjectView>, Seq<char>>(pv),
                scanned_projects(base_path@, store@) == Ok::<Seq<ProjectView>, Seq<char>>(pv),
            scanned_projects(base_path@, store@) == Ok::<Seq<ProjectView>, Seq<char>>(pv),
                    all == project_search_hits(base_path@, pv, sv, q@),
                    q@ == lowercase(query@),
                    cap == result_cap(limit),
                    i < pv.len(),
                    *project == projects@[i as int],
                    dv == dir@,
                    dir_by_path(sv.projects, project@.path) == Some(dv),
                    project_sessions(base_path@, project@.path, Ok(dv)) == Ok::<Seq<SessionView>, Seq<char>>(ssv),
                    ssv == sessions_view(sessions@),
                    before_p == project_search_hits(base_path@, pv.take(i as int), sv, q@),
                    j < ssv.len(),
                    *session == sessions@[j as int],
                    before_s == before_p + session_search_hits(base_path@, ssv.take(j as int), dv, q@, project.name@),
                    one_session_hits(base_path@, session@, dv, q@, project.name@) == message_hits(mv, q@, project.name@),
                    mv == messages_view(messages@),
                    k <= mv.len(),
                    messages_view(results@) == before_s + message_hits(mv.take(k as int), q@, project.name@),
                    results@.len() < cap,
                decreases mv.len() - k,
            {
                proof {
                    assert(mv.take(k + 1).drop_last() =~= mv.take(k as int));
                    assert(mv.take(k + 1).last() == messages@[k as int]@);
                }
                let m = &messages[k];
                let hit = match &m.content {
                    Some(c) => json_mentions(c, q.as_str()),
                    None => false,
                };
                if hit {
                    let ghost before_m = messages_view(results@);
                    results.push(with_project_name(m, project.name.as_str()));
                    assert(messages_view(results@) =~= before_m.push(tagged(m@, project.name@)));
                    assert(messages_view(results@) =~= before_s + message_hits(mv.take(k + 1), q@, project.name@));
                    if results.len() >= cap {
                        proof {
                            assert(ssv[j as int] == session@);
                            assert(pv[i as int] == project@);
                            lemma_search_stop(base_path@, pv, sv, q@, i as int, dv, ssv, j as int, mv, k as int,
                                messages_view(results@), limit);
                        }
                        return Ok(results);
                    }
                } else {
                    assert(messages_view(results@) =~= before_s + message_hits(mv.take(k + 1), q@, project.name@));
                }
                k = k + 1;
            }
            assert(mv.take(mv.len() as int) =~= mv);
            assert(messages_view(results@) =~= before_p + session_search_hits(base_path@, ssv.take(j + 1), dv, q@, project.name@));
            j = j + 1;
        }
        assert(ssv.take(ssv.len() as int) =~= ssv);
        assert(messages_view(results@) =~= project_search_hits(base_path@, pv.take(i + 1), sv, q@));
        i = i + 1;
    }
    assert(pv.take(pv.len() as int) =~= pv);
    Ok(results)
}

// ---------------------------------------------------------------------------
// The installation found on this machine
// ---------------------------------------------------------------------------

/// The Grok installation at `base_path` (the Grok home, when found); it is available
/// when `<base>/sessions` is a directory.
pub fn detect(base_path: Option<&str>, sessions_is_dir: bool) -> (r: Option<ProviderInfo>)
    ensures
        match base_path {
            Some(b) => r matches Some(p) && p.id@ == "grok"@ && p.display_name@ == "Grok CLI"@
                && p.base_path@ == b@ && p.is_available == sessions_is_dir,
            None => r is None,
        },
{
    match base_path {
        Some(b) => Some(ProviderInfo {
            id: own("grok"),
            display_name: own("Grok CLI"),
            base_path: own(b),
            is_available: sessions_is_dir,
        }),
        None => None,
    }
}

/// The error when no Grok home was found.
pub open spec fn no_base_error() -> Seq<char> {
    "Grok base path not found"@
}

/// The projects of the Grok home, when one was found (see `scanned_projects`).
pub fn scan_projects(base_path: Option<&str>, store: &GrokStore) -> (r: Result<Vec<ClaudeProject>, String>)
    ensures
        match base_path {
            None => r matches Err(e) && e@ == no_base_error(),
            Some(b) => match r {
                Ok(ps) => scanned_projects(b@, store@) == Ok::<Seq<ProjectView>, Seq<char>>(projects_view(ps@)),
                Err(e) => scanned_projects(b@, store@) == Err::<Seq<ProjectView>, Seq<char>>(e@),
            },
        },
{
    match base_path {
        Some(b) => scan_projects_from_path(b, store),
        None => Err(own("Grok base path not found")),
    }
}

/// The sessions of a project of the Grok home, when one was found (see
/// `project_sessions`).
pub fn load_sessions(base_path: Option<&str>, project_path: &str, project: &Result<GrokProjectDir, String>)
    -> (r: Result<Vec<ClaudeSession>, String>)
    ensures
        match base_path {
            None => r matches Err(e) && e@ == no_base_error(),
            Some(b) => match r {
                Ok(ss) => project_sessions(b@, project_path@, project_result_view(*project))
                    == Ok::<Seq<SessionView>, Seq<char>>(sessions_view(ss@)),
                Err(e) => project_sessions(b@, project_path@, project_result_view(*project))
                    == Err::<Seq<SessionView>, Seq<char>>(e@),
            },
        },
{
    match base_path {
        Some(b) => load_sessions_from_base_path(b, project_path, project),
        None => Err(own("Grok base path not found")),
    }
}

/// The messages of a session of the Grok home, when one was found (see
/// `grok_session_messages`).
pub fn load_messages(base_path: Option<&str>, session_path: &str, session: &Result<GrokSessionFiles, String>)
    -> (r: Result<Vec<ClaudeMessage>, String>)
    ensures
        match base_path {
            None => r matches Err(e) && e@ == no_base_error(),
            Some(b) => match r {
                Ok(ms) => grok_session_messages(b@, session_path@, session_result_view(*session))
                    == Ok::<Seq<MessageView>, Seq<char>>(messages_view(ms@)),
                Err(e) => grok_session_messages(b@, session_path@, session_result_view(*session))
                    == Err::<Seq<MessageView>, Seq<char>>(e@),
            },
        },
{
    match base_path {
        Some(b) => load_messages_from_base_path(b, session_path, session),
        None => Err(own("Grok base path not found")),
    }
}

/// Searches the Grok home, when one was found (see `grok_search`).
pub fn search(base_path: Option<&str>, query: &str, limit: usize, store: &GrokStore) -> (r: Result<Vec<ClaudeMessage>, String>)
    ensures
        match base_path {
            None => r matches Err(e) && e@ == no_base_error(),
            Some(b) => match r {
                Ok(ms) => grok_search(b@, query@, limit, store@) == Ok::<Seq<MessageView>, Seq<char>>(messages_view(ms@)),
                Err(e) => grok_search(b@, query@, limit, store@) == Err::<Seq<MessageView>, Seq<char>>(e@),
            },
        },
{
    match base_path {
        Some(b) => search_from_base_path(b, query, limit, store),
        None => Err(own("Grok base path not found")),
    }
}

// ---------------------------------------------------------------------------
// Laws
// ---------------------------------------------------------------------------

/// Each chat history record gives at most one message.
pub proof fn law_one_message_per_record(vs: Seq<JsonView>, session_id: Seq<char>, timestamp: Seq<char>, model: Option<Seq<char>>)
    ensures
        chat_messages(vs, session_id, timestamp, model).len() <= vs.len(),
    decreases vs.len(),
{
    if vs.len() > 0 {
        law_one_message_per_record(vs.drop_last(), session_id, timestamp, model);
    }
}

/// The token count and the final timestamp change no message's kind, and no message
/// but the last assistant one and the last one.
pub proof fn law_session_usage_in_place(signals: JsonView, ms: Seq<MessageView>, updated: Seq<char>)
    ensures
        session_usage(signals, ms).len() == ms.len(),
        stamped_last(ms, updated).len() == ms.len(),
        forall|i: int| 0 <= i < ms.len() && i != last_assistant(ms) ==> #[trigger] session_usage(signals, ms)[i] == ms[i],
        forall|i: int| 0 <= i < ms.len() - 1 ==> #[trigger] stamped_last(ms, updated)[i] == ms[i],
        forall|i: int| 0 <= i < ms.len() ==> (#[trigger] session_usage(signals, ms)[i]).message_type == ms[i].message_type,
{
    lemma_last_assistant(ms);
}


proof fn lemma_grok_projects_from_dirs(ps: Seq<GrokProjectView>)
    ensures
        forall|i: int| 0 <= i < grok_projects(ps).len() ==> exists|k: int|
            0 <= k < ps.len() && grok_project(ps[k]) == Some(#[trigger] grok_projects(ps)[i]),
    decreases ps.len(),
{
    if ps.len() > 0 {
        let prev = grok_projects(ps.drop_last());
        lemma_grok_projects_from_dirs(ps.drop_last());
        let all = grok_projects(ps);
        assert forall|i: int| 0 <= i < all.len() implies exists|k: int|
            0 <= k < ps.len() && grok_project(ps[k]) == Some(#[trigger] all[i]) by {
            if i < prev.len() {
                assert(all[i] == prev[i]);
                let k = choose|k: int| 0 <= k < ps.drop_last().len() && grok_project(ps.drop_last()[k]) == Some(prev[i]);
                assert(ps[k] == ps.drop_last()[k]);
            } else {
                assert(grok_project(ps[ps.len() - 1]) == Some(all[i]));
            }
        }
    }
}

/// The project a directory gives: one per directory with a readable session, counting
/// those sessions and summing their message counts, at `grok://<dir>`, from Grok's
/// JSONL store.
pub open spec fn project_of_dir(p: ProjectView, d: GrokProjectView) -> bool {
    &&& grok_project(d) == Some(p)
    &&& session_infos(d.sessions).len() >= 1
    &&& p.session_count == session_infos(d.sessions).len() as usize
    &&& p.message_count == saturate(total_count(session_infos(d.sessions)))
    &&& p.path == "grok://"@ + d.path
    &&& p.provider == Some("grok"@)
    &&& p.storage_type == Some("jsonl"@)
}

/// The scan refuses a relative base path; otherwise it lists, newest first, one
/// project per project directory with a readable session (see `project_of_dir`).
pub proof fn law_grok_projects_listed(base_path: Seq<char>, store: GrokStoreView)
    ensures
        !is_absolute(base_path) ==> scanned_projects(base_path, store)
            == Err::<Seq<ProjectView>, Seq<char>>("Grok base path"@ + " must be an absolute path"@),
        scanned_projects(base_path, store) matches Ok(ps) ==> {
            &&& listed_newest_first(ps)
            &&& forall|i: int| 0 <= i < ps.len() ==> exists|k: int|
                0 <= k < store.projects.len() && project_of_dir(#[trigger] ps[i], store.projects[k])
        },
{
    let all = grok_projects(store.projects);
    law_newest_first(all);
    lemma_grok_projects_from_dirs(store.projects);
    let pred = |p: ProjectView| exists|k: int| 0 <= k < store.projects.len() && project_of_dir(p, store.projects[k]);
    assert forall|i: int| 0 <= i < all.len() implies pred(#[trigger] all[i]) by {
        let k = choose|k: int| 0 <= k < store.projects.len() && grok_project(store.projects[k]) == Some(all[i]);
        assert(project_of_dir(all[i], store.projects[k]));
    }
    lemma_newest_first_keeps(all, pred);
    assert forall|i: int| 0 <= i < newest_first(all).len() implies exists|k: int|
        0 <= k < store.projects.len() && project_of_dir(#[trigger] newest_first(all)[i], store.projects[k]) by {
        assert(pred(newest_first(all)[i]));
    }
}

proof fn lemma_grok_sessions_shape(ss: Seq<GrokSessionView>, fallback: Seq<char>)
    ensures
        forall|i: int| 0 <= i < grok_sessions_of(ss, fallback).len() ==> grok_session_shape(#[trigger] grok_sessions_of(ss, fallback)[i]),
    decreases ss.len(),
{
    if ss.len() > 0 {
        lemma_grok_sessions_shape(ss.drop_last(), fallback);
        let prev = grok_sessions_of(ss.drop_last(), fallback);
        let all = grok_sessions_of(ss, fallback);
        assert forall|i: int| 0 <= i < all.len() implies grok_session_shape(#[trigger] all[i]) by {
            if i < prev.len() {
                assert(all[i] == prev[i]);
            } else {
                let info = session_info(ss.last()).unwrap();
                assert(info.message_count > 0);
            }
        }
    }
}

/// The shape of every session a Grok project lists: its id is its directory path,
/// from Grok's JSONL store, with no errors.
pub open spec fn grok_session_shape(s: SessionView) -> bool {
    &&& s.session_id == s.file_path
    &&& s.provider == Some("grok"@)
    &&& s.storage_type == Some("jsonl"@)
    &&& !s.has_errors
    &&& s.message_count > 0
}

/// Listing a project's sessions refuses a relative base path, then a relative project
/// path, then passes on the reader's error; otherwise the sessions come newest first,
/// each of the shape `grok_session_shape`.
pub proof fn law_grok_sessions_listed(base_path: Seq<char>, project_path: Seq<char>, project: Result<GrokProjectView, Seq<char>>)
    ensures
        !is_absolute(base_path) ==> project_sessions(base_path, project_path, project)
            == Err::<Seq<SessionView>, Seq<char>>("Grok base path"@ + " must be an absolute path"@),
        is_absolute(base_path) && !is_absolute(strip_or_keep(project_path, "grok://"@)) ==> project_sessions(base_path, project_path, project)
            == Err::<Seq<SessionView>, Seq<char>>("Grok project path must be absolute"@),
        project matches Err(e) ==> (is_absolute(base_path) && is_absolute(strip_or_keep(project_path, "grok://"@))
            ==> project_sessions(base_path, project_path, project) == Err::<Seq<SessionView>, Seq<char>>(e)),
        project_sessions(base_path, project_path, project) matches Ok(ss) ==> {
            &&& listed_newest_first(ss)
            &&& forall|i: int| 0 <= i < ss.len() ==> grok_session_shape(#[trigger] ss[i])
        },
{
    match project {
        Ok(p) => {
            let all = grok_sessions_of(p.sessions, p.name);
            law_newest_first(all);
            lemma_grok_sessions_shape(p.sessions, p.name);
            let pred = |s: SessionView| grok_session_shape(s);
            assert forall|i: int| 0 <= i < all.len() implies pred(#[trigger] all[i]) by {}
            lemma_newest_first_keeps(all, pred);
            assert forall|i: int| 0 <= i < newest_first(all).len() implies grok_session_shape(#[trigger] newest_first(all)[i]) by {
                assert(pred(newest_first(all)[i]));
            }
        },
        Err(_) => {},
    }
}

proof fn lemma_last_assistant_same_kinds(a: Seq<MessageView>, b: Seq<MessageView>)
    requires
        a.len() == b.len(),
        forall|i: int| 0 <= i < a.len() ==> (#[trigger] a[i]).message_type == b[i].message_type,
    ensures
        last_assistant(a) == last_assistant(b),
    decreases a.len(),
{
    if a.len() > 0 {
        lemma_last_assistant_same_kinds(a.drop_last(), b.drop_last());
    }
}

/// A session's messages are its converted chat records, in order: each keeps its
/// kind, id and content; every message before the last is the converted record itself
/// unless it is the last assistant message, which alone takes the context token count;
/// the last message is dated with the summary's update time when there is one.
pub proof fn law_grok_messages(base_path: Seq<char>, session_path: Seq<char>, session: Result<GrokSessionView, Seq<char>>)
    ensures
        grok_session_messages(base_path, session_path, session) matches Ok(ms) ==> (session matches Ok(sf) && sf.chat_lines matches Ok(lines) && {
            let summary = json_or_null(sf.summary_text);
            let base = chat_messages(jsonl_values(lines), sf.name, created_at(summary), summary.get_str("current_model_id"@));
            let upd = updated_at(summary);
            &&& ms.len() == base.len()
            &&& forall|i: int| 0 <= i < ms.len() ==> (#[trigger] ms[i]).message_type == base[i].message_type
                && ms[i].uuid == base[i].uuid && ms[i].content == base[i].content
            &&& forall|i: int| 0 <= i < ms.len() - 1 && i != last_assistant(base) ==> #[trigger] ms[i] == base[i]
            &&& forall|i: int| 0 <= i < ms.len() && i != last_assistant(base) ==> (#[trigger] ms[i]).usage == base[i].usage
            &&& ms.len() > 0 && upd.len() > 0 ==> ms[ms.len() - 1].timestamp == upd
            &&& ms.len() > 0 && upd.len() == 0 ==> ms[ms.len() - 1].timestamp == base[base.len() - 1].timestamp
        }),
{
    match session {
        Ok(sf) => match sf.chat_lines {
            Ok(lines) => {
                let summary = json_or_null(sf.summary_text);
                let base = chat_messages(jsonl_values(lines), sf.name, created_at(summary), summary.get_str("current_model_id"@));
                let upd = updated_at(summary);
                let st = stamped_last(base, upd);
                let signals = json_or_null(sf.signals_text);
                law_session_usage_in_place(signals, st, upd);
                law_session_usage_in_place(signals, base, upd);
                assert forall|i: int| 0 <= i < st.len() implies (#[trigger] st[i]).message_type == base[i].message_type by {}
                lemma_last_assistant_same_kinds(st, base);
                lemma_last_assistant(st);
            },
            Err(_) => {},
        },
        Err(_) => {},
    }
}

proof fn lemma_session_hits_tagged(base_path: Seq<char>, ss: Seq<SessionView>, d: GrokProjectView, q: Seq<char>, name: Seq<char>)
    ensures
        forall|i: int| 0 <= i < session_search_hits(base_path, ss, d, q, name).len() ==>
            (#[trigger] session_search_hits(base_path, ss, d, q, name)[i]).project_name == Some(name),
    decreases ss.len(),
{
    if ss.len() > 0 {
        lemma_session_hits_tagged(base_path, ss.drop_last(), d, q, name);
        let a = session_search_hits(base_path, ss.drop_last(), d, q, name);
        let b = one_session_hits(base_path, ss.last(), d, q, name);
        match session_by_dir(d.sessions, ss.last().file_path) {
            Some(sf) => match grok_session_messages(base_path, ss.last().file_path, Ok(sf)) {
                Ok(ms) => law_message_hits_match(ms, q, name),
                Err(_) => {},
            },
            None => {},
        }
        assert forall|i: int| 0 <= i < (a + b).len() implies (#[trigger] (a + b)[i]).project_name == Some(name) by {
            if i >= a.len() {
                assert((a + b)[i] == b[i - a.len()]);
            }
        }
    }
}

proof fn lemma_project_hits_tagged(base_path: Seq<char>, ps: Seq<ProjectView>, store: GrokStoreView, q: Seq<char>)
    ensures
        forall|i: int| 0 <= i < project_search_hits(base_path, ps, store, q).len() ==>
            (#[trigger] project_search_hits(base_path, ps, store, q)[i]).project_name is Some,
    decreases ps.len(),
{
    if ps.len() > 0 {
        lemma_project_hits_tagged(base_path, ps.drop_last(), store, q);
        let a = project_search_hits(base_path, ps.drop_last(), store, q);
        let b = one_project_hits(base_path, ps.last(), store, q);
        let p = ps.last();
        match dir_by_path(store.projects, p.path) {
            Some(d) => match project_sessions(base_path, p.path, Ok(d)) {
                Ok(ss) => lemma_session_hits_tagged(base_path, ss, d, q, p.name),
                Err(_) => {},
            },
            None => {},
        }
        assert forall|i: int| 0 <= i < (a + b).len() implies (#[trigger] (a + b)[i]).project_name is Some by {
            if i >= a.len() {
                assert((a + b)[i] == b[i - a.len()]);
            }
        }
    }
}

/// Search fails exactly when the scan fails, with its error; otherwise it returns the
/// first hits, in order, at most the limit of them (one for a zero limit), each tagged
/// with the name of the project it was found in.
pub proof fn law_grok_search(base_path: Seq<char>, query: Seq<char>, limit: usize, store: GrokStoreView)
    ensures
        scanned_projects(base_path, store) matches Err(e) ==> grok_search(base_path, query, limit, store) == Err::<Seq<MessageView>, Seq<char>>(e),
        scanned_projects(base_path, store) matches Ok(ps) ==> {
            let hits = project_search_hits(base_path, ps, store, lowercase(query));
            &&& grok_search(base_path, query, limit, store) == Ok::<Seq<MessageView>, Seq<char>>(capped(hits, limit))
            &&& capped(hits, limit).len() <= result_cap(limit)
            &&& capped(hits, limit).is_prefix_of(hits)
            &&& hits.len() <= result_cap(limit) ==> capped(hits, limit) == hits
            &&& forall|i: int| 0 <= i < capped(hits, limit).len() ==> (#[trigger] capped(hits, limit)[i]).project_name is Some
        },
{
    match scanned_projects(base_path, store) {
        Ok(ps) => {
            let hits = project_search_hits(base_path, ps, store, lowercase(query));
            law_capped_results(hits, limit);
            lemma_project_hits_tagged(base_path, ps, store, lowercase(query));
            assert forall|i: int| 0 <= i < capped(hits, limit).len() implies (#[trigger] capped(hits, limit)[i]).project_name is Some by {
                assert(capped(hits, limit)[i] == hits[i]);
            }
        },
        Err(_) => {},
    }
}


/// A session directory gives a session only with a `summary.json` file that parses
/// and a `chat_history.jsonl` file; then it gives none exactly when the summary records
/// no messages and the history has no counted record. The session counts the
/// recorded messages, else the counted records; its summary is the trimmed generated
/// title, else the trimmed session summary; it is dated from `created_at` to the
/// update time, and last modified at the update time, else at the summary file's time.
pub proof fn law_grok_session_info(sf: GrokSessionView)
    ensures
        !sf.summary_is_file || !sf.chat_is_file || sf.summary_text is None ==> session_info(sf) is None,
        sf.summary_text matches Some(t) ==> (parsed_json(t) is None ==> session_info(sf) is None),
        sf.summary_is_file && sf.chat_is_file ==> (sf.summary_text matches Some(t) ==> (parsed_json(t) matches Some(summary) ==> {
            let history: usize = match sf.chat_lines {
                Ok(lines) => counted_records(jsonl_values(lines)) as usize,
                Err(_) => 0,
            };
            &&& session_info(sf) is None <==> recorded_count(summary) == 0 && history == 0
            &&& session_info(sf) matches Some(i) ==> {
                &&& i.message_count == if recorded_count(summary) > 0 { recorded_count(summary) } else { history }
                &&& i.summary == match trimmed(summary.get_str("generated_title"@)) {
                    Some(x) => Some(x),
                    None => trimmed(summary.get_str("session_summary"@)),
                }
                &&& i.first_message_time == created_at(summary)
                &&& i.last_message_time == updated_at(summary)
                &&& i.last_modified == if updated_at(summary).len() > 0 {
                    updated_at(summary)
                } else {
                    str_or(sf.summary_modified, Seq::empty())
                }
            }
        })),
{
}


proof fn lemma_latest_info_is_max(infos: Seq<SessionInfo>)
    requires
        infos.len() > 0,
    ensures
        forall|i: int| 0 <= i < infos.len() ==> !str_lt(latest_info(infos), #[trigger] infos[i].last_modified),
        exists|i: int| 0 <= i < infos.len() && latest_info(infos) == #[trigger] infos[i].last_modified,
    decreases infos.len(),
{
    let prev = infos.drop_last();
    let last = infos.last().last_modified;
    let m = latest_info(prev);
    let r = latest_info(infos);
    lemma_str_lt_irreflexive(last);
    if prev.len() > 0 {
        lemma_latest_info_is_max(prev);
    } else {
        lemma_str_lt_empty(last);
    }
    assert forall|i: int| 0 <= i < infos.len() implies !str_lt(r, #[trigger] infos[i].last_modified) by {
        if i < prev.len() {
            assert(infos[i] == prev[i]);
            if str_lt(m, last) && str_lt(last, infos[i].last_modified) {
                lemma_str_lt_trans(m, last, infos[i].last_modified);
            }
        }
    }
    if str_lt(m, last) {
        assert(r == infos[infos.len() - 1].last_modified);
    } else if prev.len() > 0 {
        let j = choose|j: int| 0 <= j < prev.len() && m == #[trigger] prev[j].last_modified;
        assert(infos[j] == prev[j]);
    } else {
        assert(r == infos[0].last_modified);
    }
}

/// A project is last modified when its latest session was: no session of the project
/// is newer, and one of them was last modified at that time.
pub proof fn law_grok_project_latest(d: GrokProjectView)
    ensures
        grok_project(d) matches Some(p) ==> {
            &&& forall|i: int| 0 <= i < session_infos(d.sessions).len()
                ==> !str_lt(p.last_modified, #[trigger] session_infos(d.sessions)[i].last_modified)
            &&& exists|i: int| 0 <= i < session_infos(d.sessions).len()
                && p.last_modified == #[trigger] session_infos(d.sessions)[i].last_modified
        },
{
    if session_infos(d.sessions).len() > 0 {
        lemma_latest_info_is_max(session_infos(d.sessions));
    }
}


proof fn lemma_tool_call_blocks(calls: Seq<JsonView>)
    ensures
        tool_call_blocks(calls).len() == calls.len(),
        forall|j: int| 0 <= j < calls.len() ==> #[trigger] tool_call_blocks(calls)[j] == tool_call_block(calls[j]),
    decreases calls.len(),
{
    if calls.len() > 0 {
        lemma_tool_call_blocks(calls.drop_last());
        assert forall|j: int| 0 <= j < calls.len() implies #[trigger] tool_call_blocks(calls)[j] == tool_call_block(calls[j]) by {
            if j < calls.len() - 1 {
                assert(calls.drop_last()[j] == calls[j]);
            }
        }
    }
}

proof fn lemma_tool_call_block_fields(call: JsonView)
    ensures
        tool_call_block(call).get_str("type"@) == Some("tool_use"@),
        tool_call_block(call).get_str("id"@) == Some(str_or(call.get_str("id"@), Seq::empty())),
{
    reveal_strlit("type");
    reveal_strlit("id");
    assert("type"@.len() != "id"@.len());
    match tool_call_block(call) {
        JsonView::Object(es) => {
            assert(es[0].0 == "type"@);
            assert(es.drop_first()[0] == es[1]);
            assert(es[1].0 == "id"@);
            assert(es[0].0 != "id"@);
            assert(crate::json::lookup(es, "id"@) == crate::json::lookup(es.drop_first(), "id"@));
            assert(crate::json::lookup(es.drop_first(), "id"@) == Some(es[1].1));
        },
        _ => {},
    }
}

/// An assistant record gives an assistant message whose content is the record's
/// content blocks followed by one `tool_use` block per entry of its `tool_calls`, in
/// order, carrying that call's id.
pub proof fn law_grok_assistant_content(value: JsonView, session_id: Seq<char>, timestamp: Seq<char>,
    model: Option<Seq<char>>, counter: u64)
    requires
        value.get_str("type"@) == Some("assistant"@),
    ensures
        chat_message(value, session_id, timestamp, model, counter) matches Some(m) && (m.message_type == "assistant"@
            && (m.content matches Some(JsonView::Array(bs)) && {
            let blocks = content_blocks_of(value.get("content"@));
            let calls = match value.get_array("tool_calls"@) {
                Some(c) => c,
                None => Seq::empty(),
            };
            &&& bs.len() == blocks.len() + calls.len()
            &&& forall|i: int| 0 <= i < blocks.len() ==> #[trigger] bs[i] == blocks[i]
            &&& forall|j: int| 0 <= j < calls.len() ==> #[trigger] bs[blocks.len() + j] == tool_call_block(calls[j])
                && tool_call_block(calls[j]).get_str("type"@) == Some("tool_use"@)
                && tool_call_block(calls[j]).get_str("id"@) == Some(str_or(calls[j].get_str("id"@), Seq::empty()))
        })),
{
    reveal_strlit("assistant");
    reveal_strlit("system");
    reveal_strlit("user");
    assert("assistant"@.len() != "system"@.len());
    assert("assistant"@.len() != "user"@.len());
    let calls = match value.get_array("tool_calls"@) {
        Some(c) => c,
        None => Seq::empty(),
    };
    lemma_tool_call_blocks(calls);
    assert forall|j: int| 0 <= j < calls.len() implies tool_call_block(calls[j]).get_str("type"@) == Some("tool_use"@)
        && tool_call_block(calls[j]).get_str("id"@) == Some(str_or(calls[j].get_str("id"@), Seq::empty())) by {
        lemma_tool_call_block_fields(calls[j]);
    }
    let blocks = content_blocks_of(value.get("content"@));
    let all = blocks + tool_call_blocks(calls);
    if value.get_array("tool_calls"@) is None {
        assert(tool_call_blocks(calls) =~= Seq::<JsonView>::empty());
        assert(all =~= blocks);
    }
    assert forall|j: int| 0 <= j < calls.len() implies #[trigger] all[blocks.len() + j] == tool_call_block(calls[j]) by {
        assert(all[blocks.len() + j] == tool_call_blocks(calls)[j]);
    }
}

} // verus!
