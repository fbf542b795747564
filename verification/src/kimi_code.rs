//! Kimi Code session store (`~/.kimi-code`, surfaced under the `kimi` provider id).
//!
//! Each session keeps an event journal, `agents/main/wire.jsonl`: one JSON record per
//! line. The conversation is rebuilt by replaying the `context.*` records:
//! `context.append_message` appends a message (deferred while a tool exchange is open),
//! `context.append_loop_event` streams one assistant step (`step.begin`,
//! `content.part`, `tool.call`, `tool.result`, `step.end`), `context.clear` resets,
//! `context.undo` cuts the last user turns, `context.apply_compaction` replaces the
//! history by a summary, and `usage.record` adds token counts to the open step.
//! Everything else is session machinery and is skipped, as are malformed lines.
use vstd::prelude::*;
use crate::json::{
    Json, JsonView, entries_view, lookup, mentions, json_mentions, jstr, member, obj, obj1, obj2, obj3, obj4, opt_owned_view,
    opt_view, parse_json, parsed_json, str_or, str_or_default,
};
use crate::text::{
    blank, chars_of, has_prefix, is_blank, own, split_first, str_eq, str_split_once,
    str_starts_with, str_strip_prefix, string_of_range,
};
use crate::external::{base64_standard, encode_base64};
use crate::models::{
    ClaudeMessage, ClaudeProject, ClaudeSession, MessageView, ProjectView, SessionView,
    messages_view, newest_first, opt_str, projects_view, sessions_view, sort_projects_newest_first,
    sort_sessions_newest_first, tagged, with_project_name, capped, result_cap, lemma_prefix_trans,
    lemma_capped_prefix, message_hits, lemma_message_hits_prefix, lemma_prefix_prepend,
    listed_newest_first, law_newest_first, lemma_newest_first_keeps,
    lemma_str_lt_trans, lemma_str_lt_irreflexive, lemma_str_lt_empty,
};
use crate::kimi_fold::{
    first_text, first_text_of, fold_wire_messages, ms_to_rfc3339, rfc3339_ms, strings_view,
    wire_messages,
};
use crate::text::{file_name, path_file_name, str_trim, trim, str_less, str_lt, concat, lowercase, str_to_lowercase};

verus! {

/// Longest session summary, in characters, before it is truncated.
pub const SUMMARY_MAX_CHARS: usize = 200;
/// Largest blob, in bytes, that is inlined as base64 into a message.
pub const MAX_INLINE_BLOB_BYTES: u64 = 8388608;

/// The readable blobs of a session's blob store, by digest (file name): each is a
/// regular file of at most `MAX_INLINE_BLOB_BYTES` bytes.
pub struct BlobStore {
    pub blobs: Vec<(String, Vec<u8>)>,
}

impl View for BlobStore {
    type V = Seq<(Seq<char>, Seq<u8>)>;

    open spec fn view(&self) -> Seq<(Seq<char>, Seq<u8>)> {
        Seq::new(self.blobs@.len(), |i: int| (self.blobs@[i].0@, self.blobs@[i].1@))
    }
}

/// The bytes of the first blob stored under `digest`.
pub open spec fn blob_lookup(store: Seq<(Seq<char>, Seq<u8>)>, digest: Seq<char>) -> Option<Seq<u8>>
    decreases store.len(),
{
    if store.len() == 0 {
        None
    } else if store[0].0 == digest {
        Some(store[0].1)
    } else {
        blob_lookup(store.drop_first(), digest)
    }
}

pub open spec fn opt_store(blobs: Option<&BlobStore>) -> Option<Seq<(Seq<char>, Seq<u8>)>> {
    match blobs {
        Some(b) => Some(b@),
        None => None,
    }
}

/// An ASCII letter or digit.
pub open spec fn is_ascii_alnum(c: char) -> bool {
    ('0' <= c && c <= '9') || ('a' <= c && c <= 'z') || ('A' <= c && c <= 'Z')
}

/// `{"type": "base64", "media_type": media, "data": data}`.
pub open spec fn base64_source(media: Seq<char>, data: Seq<char>) -> JsonView {
    obj(seq![("type"@, jstr("base64"@)), ("media_type"@, jstr(media)), ("data"@, jstr(data))])
}

/// The viewer's image source of a kimi-code image URL: a `blobref:<media>;<digest>`
/// resolves to the stored blob's base64 (when a store is given, the digest is ASCII
/// alphanumeric and the blob is stored), a `data:<media>;base64,<data>` URL to its inline
/// data, and an `http(s)://` URL to a URL source.
pub open spec fn image_source(url: Seq<char>, blobs: Option<Seq<(Seq<char>, Seq<u8>)>>) -> Option<JsonView> {
    if has_prefix(url, "blobref:"@) {
        let rest = url.subrange("blobref:"@.len() as int, url.len() as int);
        match blobs {
            None => None,
            Some(store) => match split_first(rest, ";"@) {
                None => None,
                Some((media, digest)) => if digest.len() == 0 || !(forall|i: int|
                    0 <= i < digest.len() ==> is_ascii_alnum(#[trigger] digest[i])) {
                    None
                } else {
                    match blob_lookup(store, digest) {
                        Some(bytes) => Some(base64_source(media, base64_standard(bytes))),
                        None => None,
                    }
                },
            },
        }
    } else if has_prefix(url, "data:"@) {
        match split_first(url.subrange("data:"@.len() as int, url.len() as int), ";base64,"@) {
            Some((media, data)) => Some(base64_source(media, data)),
            None => None,
        }
    } else if has_prefix(url, "http://"@) || has_prefix(url, "https://"@) {
        Some(obj(seq![("type"@, jstr("url"@)), ("url"@, jstr(url))]))
    } else {
        None
    }
}

/// A wire content part as the viewer shows it: `think` parts become `thinking` blocks,
/// resolvable `image_url` parts become `image` blocks, anything else is kept.
pub open spec fn normalized_part(part: JsonView, blobs: Option<Seq<(Seq<char>, Seq<u8>)>>) -> JsonView {
    match part.get_str("type"@) {
        Some(t) => if t == "think"@ {
            obj(seq![("type"@, jstr("thinking"@)), ("thinking"@, jstr(str_or(part.get_str("think"@), ""@)))])
        } else if t == "image_url"@ {
            match member(part.get("imageUrl"@), "url"@) {
                Some(JsonView::Str(url)) => match image_source(url, blobs) {
                    Some(source) => obj(seq![("type"@, jstr("image"@)), ("source"@, source)]),
                    None => part,
                },
                _ => part,
            }
        } else {
            part
        },
        None => part,
    }
}

/// Tool-call arguments as a viewer `input`: a JSON string is parsed (or wrapped as
/// `{"input": text}` when it is not JSON), a missing or null value becomes `{}`.
pub open spec fn tool_input(arguments: Option<JsonView>) -> JsonView {
    match arguments {
        Some(JsonView::Str(text)) => match parsed_json(text) {
            Some(v) => v,
            None => obj(seq![("input"@, jstr(text))]),
        },
        Some(JsonView::Null) => obj(Seq::empty()),
        None => obj(Seq::empty()),
        Some(other) => other,
    }
}

/// A wire `toolCalls` entry as a viewer `tool_use` block.
pub open spec fn tool_use_block(call: JsonView) -> JsonView {
    obj(
        seq![
            ("type"@, jstr("tool_use"@)),
            ("id"@, jstr(str_or(call.get_str("id"@), ""@))),
            ("name"@, jstr(str_or(call.get_str("name"@), "tool"@))),
            ("input"@, tool_input(call.get("arguments"@))),
        ],
    )
}

/// Empty or white-space text, or an unsigned empty thinking block.
pub open spec fn is_vacuous_part(part: JsonView) -> bool {
    match part.get_str("type"@) {
        Some(t) => if t == "text"@ {
            match part.get_str("text"@) {
                Some(text) => is_blank(text),
                None => false,
            }
        } else if t == "think"@ || t == "thinking"@ {
            let field = if part.get("think"@) is Some { "think"@ } else { "thinking"@ };
            part.get("encrypted"@) is None && match part.get_str(field) {
                Some(text) => is_blank(text),
                None => false,
            }
        } else {
            false
        },
        None => false,
    }
}

/// The key under which a tool output rides on a folded tool message.
pub open spec fn output_key() -> Seq<char> {
    "__kimi_code_output"@
}

/// The marker part that carries a tool output.
pub open spec fn output_marker(output: JsonView) -> JsonView {
    obj(seq![(output_key(), output)])
}

/// The text of a truncated summary: the first `max` characters and `...`, or the whole
/// text when it has at most `max` characters.
pub open spec fn truncated(text: Seq<char>, max: nat) -> Seq<char> {
    if text.len() > max {
        text.subrange(0, max as int) + "..."@
    } else {
        text
    }
}

// ---------------------------------------------------------------------------
// Executable helpers
// ---------------------------------------------------------------------------

/// Whether every character of `s` is an ASCII letter or digit.
fn all_ascii_alnum(s: &str) -> (r: bool)
    ensures
        r == (forall|i: int| 0 <= i < s@.len() ==> is_ascii_alnum(#[trigger] s@[i])),
{
    let cs = chars_of(s);
    let mut i: usize = 0;
    while i < cs.len()
        invariant
            cs@ == s@,
            i <= cs@.len(),
            forall|k: int| 0 <= k < i ==> is_ascii_alnum(#[trigger] s@[k]),
        decreases cs.len() - i,
    {
        let c = cs[i];
        if !(('0' <= c && c <= '9') || ('a' <= c && c <= 'z') || ('A' <= c && c <= 'Z')) {
            return false;
        }
        i = i + 1;
    }
    true
}

/// The bytes of the first blob stored under `digest`.
fn find_blob<'a>(store: &'a BlobStore, digest: &str) -> (r: Option<&'a Vec<u8>>)
    ensures
        match r {
            Some(b) => blob_lookup(store@, digest@) == Some(b@),
            None => blob_lookup(store@, digest@) is None,
        },
{
    let ghost sv = store@;
    let mut i: usize = 0;
    assert(sv.skip(0) =~= sv);
    while i < store.blobs.len()
        invariant
            sv == store@,
            i <= store.blobs@.len(),
            blob_lookup(sv, digest@) == blob_lookup(sv.skip(i as int), digest@),
        decreases store.blobs.len() - i,
    {
        assert(sv.skip(i as int)[0] == sv[i as int]);
        assert(sv.skip(i as int).drop_first() =~= sv.skip(i + 1));
        if str_eq(store.blobs[i].0.as_str(), digest) {
            return Some(&store.blobs[i].1);
        }
        i = i + 1;
    }
    None
}

/// `{"type": "base64", "media_type": media, "data": data}`.
fn make_base64_source(media: &str, data: String) -> (r: Json)
    ensures
        r@ == base64_source(media@, data@),
{
    obj3("type", Json::string("base64"), "media_type", Json::string(media), "data", Json::Str(data))
}

/// Resolves a kimi-code image URL into the viewer's image source.
pub fn image_source_from_url(url: &str, blobs: Option<&BlobStore>) -> (r: Option<Json>)
    ensures
        opt_owned_view(r) == image_source(url@, opt_store(blobs)),
{
    if let Some(rest) = str_strip_prefix(url, "blobref:") {
        let store = match blobs {
            Some(s) => s,
            None => {
                return None;
            },
        };
        let (media, digest) = match str_split_once(rest, ";") {
            Some(parts) => parts,
            None => {
                return None;
            },
        };
        if digest.is_empty() || !all_ascii_alnum(digest) {
            return None;
        }
        return match find_blob(store, digest) {
            Some(bytes) => Some(make_base64_source(media, encode_base64(bytes))),
            None => None,
        };
    }
    if let Some(rest) = str_strip_prefix(url, "data:") {
        return match str_split_once(rest, ";base64,") {
            Some((media, data)) => Some(make_base64_source(media, own(data))),
            None => None,
        };
    }
    if str_starts_with(url, "http://") || str_starts_with(url, "https://") {
        return Some(obj2("type", Json::string("url"), "url", Json::string(url)));
    }
    None
}

/// Normalizes a wire content part for the viewer (see `normalized_part`).
pub fn normalize_content_part(part: &Json, blobs: Option<&BlobStore>) -> (r: Json)
    ensures
        r@ == normalized_part(part@, opt_store(blobs)),
{
    match part.get_str("type") {
        Some(t) => {
            if str_eq(t, "think") {
                let think = str_or_default(part.get_str("think"), "");
                obj2("type", Json::string("thinking"), "thinking", Json::string(think))
            } else if str_eq(t, "image_url") {
                let url = match part.get("imageUrl") {
                    Some(image) => image.get("url"),
                    None => None,
                };
                match url {
                    Some(Json::Str(u)) => match image_source_from_url(u.as_str(), blobs) {
                        Some(source) => obj2("type", Json::string("image"), "source", source),
                        None => part.duplicate(),
                    },
                    _ => part.duplicate(),
                }
            } else {
                part.duplicate()
            }
        },
        None => part.duplicate(),
    }
}

/// Tool-call arguments as a viewer `input` (see `tool_input`).
fn tool_input_of(arguments: Option<&Json>) -> (r: Json)
    ensures
        r@ == tool_input(opt_view(arguments)),
{
    match arguments {
        Some(Json::Str(text)) => match parse_json(text.as_str()) {
            Some(v) => v,
            None => obj1("input", Json::string(text.as_str())),
        },
        Some(Json::Null) => {
            let e: Vec<(String, Json)> = Vec::new();
            assert(entries_view(e@) =~= Seq::empty());
            Json::object(e)
        },
        None => {
            let e: Vec<(String, Json)> = Vec::new();
            assert(entries_view(e@) =~= Seq::empty());
            Json::object(e)
        },
        Some(other) => other.duplicate(),
    }
}

/// A wire `toolCalls` entry as a viewer `tool_use` block.
pub fn convert_tool_call(call: &Json) -> (r: Json)
    ensures
        r@ == tool_use_block(call@),
{
    let id = str_or_default(call.get_str("id"), "");
    let name = str_or_default(call.get_str("name"), "tool");
    obj4(
        "type",
        Json::string("tool_use"),
        "id",
        Json::string(id),
        "name",
        Json::string(name),
        "input",
        tool_input_of(call.get("arguments")),
    )
}

/// Whether a content part is vacuous (see `is_vacuous_part`).
pub fn is_vacuous_content_part(part: &Json) -> (r: bool)
    ensures
        r == is_vacuous_part(part@),
{
    match part.get_str("type") {
        Some(t) => {
            if str_eq(t, "text") {
                match part.get_str("text") {
                    Some(text) => blank(text),
                    None => false,
                }
            } else if str_eq(t, "think") || str_eq(t, "thinking") {
                let field = if part.get("think").is_some() { "think" } else { "thinking" };
                part.get("encrypted").is_none() && match part.get_str(field) {
                    Some(text) => blank(text),
                    None => false,
                }
            } else {
                false
            }
        },
        None => false,
    }
}

/// The marker part that carries a tool output.
pub(crate) fn make_output_marker(output: Json) -> (r: Json)
    ensures
        r@ == output_marker(output@),
{
    obj1("__kimi_code_output", output)
}

/// The first `max_chars` characters of `text` followed by `...`, or `text` itself when
/// it is no longer than that.
pub fn truncate_chars(text: &str, max_chars: usize) -> (r: String)
    ensures
        r@ == truncated(text@, max_chars as nat),
{
    let cs = chars_of(text);
    if cs.len() > max_chars {
        let mut r = string_of_range(&cs, 0, max_chars);
        r.append("...");
        r
    } else {
        own(text)
    }
}

// ---------------------------------------------------------------------------
// The store: workspaces of sessions
// ---------------------------------------------------------------------------

/// What one session directory holds for the viewer.
pub struct SessionFiles {
    /// The session directory's path.
    pub dir: String,
    /// Its file name.
    pub name: String,
    /// The text of `state.json`, when it is a readable regular file (not a symlink).
    pub state_text: Option<String>,
    /// The lines of `agents/main/wire.jsonl` up to the first unreadable one, when no
    /// component of that path is a symlink and it is a regular file.
    pub wire_lines: Option<Vec<String>>,
    /// The wire file's modification time (RFC 3339), when known.
    pub wire_modified: Option<String>,
}

pub struct SessionFilesView {
    pub dir: Seq<char>,
    pub name: Seq<char>,
    pub state_text: Option<Seq<char>>,
    pub wire_lines: Option<Seq<Seq<char>>>,
    pub wire_modified: Option<Seq<char>>,
}

impl View for SessionFiles {
    type V = SessionFilesView;

    open spec fn view(&self) -> SessionFilesView {
        SessionFilesView {
            dir: self.dir@,
            name: self.name@,
            state_text: opt_str(self.state_text),
            wire_lines: match self.wire_lines {
                Some(l) => Some(strings_view(l@)),
                None => None,
            },
            wire_modified: opt_str(self.wire_modified),
        }
    }
}

/// One workspace directory (`wd_*`) of the sessions root, with its session
/// directories in sorted order.
pub struct WorkspaceFiles {
    pub dir: String,
    pub name: String,
    pub sessions: Vec<SessionFiles>,
}

pub struct WorkspaceView {
    pub dir: Seq<char>,
    pub name: Seq<char>,
    pub sessions: Seq<SessionFilesView>,
}

impl View for WorkspaceFiles {
    type V = WorkspaceView;

    open spec fn view(&self) -> WorkspaceView {
        WorkspaceView {
            dir: self.dir@,
            name: self.name@,
            sessions: Seq::new(self.sessions@.len(), |i: int| self.sessions@[i]@),
        }
    }
}

/// A kimi-code store: the text of `workspaces.json` (when it is a readable regular
/// file) and the workspace directories of `sessions/`, in sorted order.
pub struct KimiStore {
    pub workspaces_text: Option<String>,
    pub workspaces: Vec<WorkspaceFiles>,
}

pub struct StoreView {
    pub workspaces_text: Option<Seq<char>>,
    pub workspaces: Seq<WorkspaceView>,
}

impl View for KimiStore {
    type V = StoreView;

    open spec fn view(&self) -> StoreView {
        StoreView {
            workspaces_text: opt_str(self.workspaces_text),
            workspaces: Seq::new(self.workspaces@.len(), |i: int| self.workspaces@[i]@),
        }
    }
}

/// A workspace directory name (`wd_*`).
pub open spec fn is_workspace_name(name: Seq<char>) -> bool {
    has_prefix(name, "wd_"@)
}

/// A session directory name (`session_*`).
pub open spec fn is_session_name(name: Seq<char>) -> bool {
    has_prefix(name, "session_"@)
}

/// The parsed `state.json` of a session.
pub open spec fn session_state(sf: SessionFilesView) -> Option<JsonView> {
    match sf.state_text {
        Some(t) => parsed_json(t),
        None => None,
    }
}

/// The timestamp of records before the first timed one: the state's `createdAt`,
/// else the wire file's modification time, else empty.
pub open spec fn session_fallback_ts(sf: SessionFilesView) -> Seq<char> {
    let modified = str_or(sf.wire_modified, ""@);
    match session_state(sf) {
        Some(st) => match st.get_u64("createdAt"@) {
            Some(ms) => match rfc3339_ms(ms) {
                Some(t) => t,
                None => modified,
            },
            None => modified,
        },
        None => modified,
    }
}

/// The viewer messages of a session, when it has a readable main wire.
pub open spec fn session_messages(sf: SessionFilesView, blobs: Option<Seq<(Seq<char>, Seq<u8>)>>) -> Option<Seq<MessageView>> {
    match sf.wire_lines {
        Some(lines) => Some(wire_messages(lines, blobs, sf.name, session_fallback_ts(sf))),
        None => None,
    }
}

/// The first user message.
pub open spec fn first_user(ms: Seq<MessageView>) -> Option<MessageView>
    decreases ms.len(),
{
    if ms.len() == 0 {
        None
    } else if ms[0].message_type == "user"@ {
        Some(ms[0])
    } else {
        first_user(ms.drop_first())
    }
}

/// The trimmed first text of the first user message, when not blank.
pub open spec fn first_user_text(ms: Seq<MessageView>) -> Option<Seq<char>> {
    match first_user(ms) {
        Some(m) => match m.content {
            Some(JsonView::Array(blocks)) => match first_text(blocks) {
                Some(t) => if trim(t).len() > 0 { Some(trim(t)) } else { None },
                None => None,
            },
            _ => None,
        },
        None => None,
    }
}

/// The trimmed `title` of a session state, when not blank.
pub open spec fn state_title(state: Option<JsonView>) -> Option<Seq<char>> {
    match state {
        Some(st) => match st.get_str("title"@) {
            Some(t) => if trim(t).len() > 0 { Some(trim(t)) } else { None },
            None => None,
        },
        None => None,
    }
}

/// A session's summary: its title, else its first user text, truncated.
pub open spec fn session_summary(state: Option<JsonView>, ms: Seq<MessageView>) -> Option<Seq<char>> {
    let t = match state_title(state) {
        Some(t) => Some(t),
        None => first_user_text(ms),
    };
    match t {
        Some(t) => Some(truncated(t, SUMMARY_MAX_CHARS as nat)),
        None => None,
    }
}

/// The client a session ran in: the VS Code extension marks its state.
pub open spec fn session_entrypoint(state: Option<JsonView>) -> Seq<char> {
    let marked = match state {
        Some(st) => member(st.get("custom"@), "vscode_legacy_approval"@) is Some,
        None => false,
    };
    if marked { "kimi-code-vscode"@ } else { "kimi-code-cli"@ }
}

pub open spec fn is_tool_use_block(b: JsonView) -> bool {
    b.get_str("type"@) == Some("tool_use"@)
}

pub open spec fn is_error_block(b: JsonView) -> bool {
    b.get_str("type"@) == Some("tool_result"@) && b.get_bool("is_error"@) == Some(true)
}

pub open spec fn blocks_have_tool_use(bs: Seq<JsonView>) -> bool
    decreases bs.len(),
{
    bs.len() > 0 && (blocks_have_tool_use(bs.drop_last()) || is_tool_use_block(bs.last()))
}

pub open spec fn blocks_have_error(bs: Seq<JsonView>) -> bool
    decreases bs.len(),
{
    bs.len() > 0 && (blocks_have_error(bs.drop_last()) || is_error_block(bs.last()))
}

pub open spec fn content_blocks(m: MessageView) -> Seq<JsonView> {
    match m.content {
        Some(JsonView::Array(bs)) => bs,
        _ => Seq::empty(),
    }
}

/// Some message has a `tool_use` block.
pub open spec fn messages_use_tools(ms: Seq<MessageView>) -> bool
    decreases ms.len(),
{
    ms.len() > 0 && (messages_use_tools(ms.drop_last()) || blocks_have_tool_use(content_blocks(ms.last())))
}

/// Some message has an error `tool_result` block.
pub open spec fn messages_have_errors(ms: Seq<MessageView>) -> bool
    decreases ms.len(),
{
    ms.len() > 0 && (messages_have_errors(ms.drop_last()) || blocks_have_error(content_blocks(ms.last())))
}

/// The session entry of a session directory: `None` without a readable main wire
/// or without any viewer message.
pub open spec fn built_session(sf: SessionFilesView) -> Option<SessionView> {
    match session_messages(sf, None) {
        Some(ms) => if ms.len() == 0 {
            None
        } else {
            let state = session_state(sf);
            Some(SessionView {
                session_id: sf.name,
                actual_session_id: sf.name,
                file_path: sf.dir,
                project_name: Seq::empty(),
                message_count: ms.len() as usize,
                first_message_time: ms[0].timestamp,
                last_message_time: ms.last().timestamp,
                last_modified: ms.last().timestamp,
                has_tool_use: messages_use_tools(ms),
                has_errors: messages_have_errors(ms),
                summary: session_summary(state, ms),
                is_renamed: false,
                provider: Some("kimi"@),
                storage_type: Some("jsonl"@),
                entrypoint: Some(session_entrypoint(state)),
            })
        },
        None => None,
    }
}

/// The session entries of a workspace, in directory order.
pub open spec fn workspace_sessions(sessions: Seq<SessionFilesView>) -> Seq<SessionView>
    decreases sessions.len(),
{
    if sessions.len() == 0 {
        Seq::empty()
    } else {
        let prev = workspace_sessions(sessions.drop_last());
        let sf = sessions.last();
        if is_session_name(sf.name) {
            match built_session(sf) {
                Some(s) => prev.push(s),
                None => prev,
            }
        } else {
            prev
        }
    }
}

/// The parsed `state.json` of a session.
fn state_of(sf: &SessionFiles) -> (r: Option<Json>)
    ensures
        opt_owned_view(r) == session_state(sf@),
{
    match &sf.state_text {
        Some(t) => parse_json(t.as_str()),
        None => None,
    }
}

/// The fallback timestamp of a session (see `session_fallback_ts`).
fn fallback_ts_of(sf: &SessionFiles, state: &Option<Json>) -> (r: String)
    requires
        opt_owned_view(*state) == session_state(sf@),
    ensures
        r@ == session_fallback_ts(sf@),
{
    let modified = match &sf.wire_modified {
        Some(m) => own(m.as_str()),
        None => own(""),
    };
    match state {
        Some(st) => match st.get_u64("createdAt") {
            Some(ms) => match ms_to_rfc3339(ms) {
                Some(t) => t,
                None => modified,
            },
            None => modified,
        },
        None => modified,
    }
}

/// The trimmed first text of the first user message (see `first_user_text`).
fn first_user_text_of(ms: &Vec<ClaudeMessage>) -> (r: Option<String>)
    ensures
        opt_str(r) == first_user_text(messages_view(ms@)),
{
    let ghost mv = messages_view(ms@);
    let mut i: usize = 0;
    assert(mv.subrange(0, mv.len() as int) =~= mv);
    while i < ms.len()
        invariant
            mv == messages_view(ms@),
            i <= ms@.len(),
            first_user(mv) == first_user(mv.subrange(i as int, mv.len() as int)),
        decreases ms.len() - i,
    {
        assert(mv.subrange(i as int, mv.len() as int)[0] == mv[i as int]);
        assert(mv.subrange(i as int, mv.len() as int).drop_first() =~= mv.subrange(i + 1, mv.len() as int));
        if str_eq(ms[i].message_type.as_str(), "user") {
            let blocks = match &ms[i].content {
                Some(c) => c.as_array(),
                None => None,
            };
            return match blocks {
                Some(bs) => match first_text_of(bs) {
                    Some(t) => {
                        let tt = str_trim(t);
                        if tt.is_empty() { None } else { Some(own(tt)) }
                    },
                    None => None,
                },
                None => None,
            };
        }
        i = i + 1;
    }
    None
}

/// The trimmed title of a session state (see `state_title`).
fn state_title_of(state: &Option<Json>) -> (r: Option<String>)
    ensures
        opt_str(r) == state_title(opt_owned_view(*state)),
{
    match state {
        Some(st) => match st.get_str("title") {
            Some(t) => {
                let tt = str_trim(t);
                if tt.is_empty() { None } else { Some(own(tt)) }
            },
            None => None,
        },
        None => None,
    }
}

/// The client a session ran in (see `session_entrypoint`).
fn entrypoint_of(state: &Option<Json>) -> (r: String)
    ensures
        r@ == session_entrypoint(opt_owned_view(*state)),
{
    let marked = match state {
        Some(st) => match st.get("custom") {
            Some(c) => c.get("vscode_legacy_approval").is_some(),
            None => false,
        },
        None => false,
    };
    if marked { own("kimi-code-vscode") } else { own("kimi-code-cli") }
}

/// Whether some message has a `tool_use` block, and whether some has an error result.
fn tool_flags(ms: &Vec<ClaudeMessage>) -> (r: (bool, bool))
    ensures
        r.0 == messages_use_tools(messages_view(ms@)),
        r.1 == messages_have_errors(messages_view(ms@)),
{
    let ghost mv = messages_view(ms@);
    let mut uses = false;
    let mut errors = false;
    let mut i: usize = 0;
    while i < ms.len()
        invariant
            mv == messages_view(ms@),
            i <= ms@.len(),
            uses == messages_use_tools(mv.subrange(0, i as int)),
            errors == messages_have_errors(mv.subrange(0, i as int)),
        decreases ms.len() - i,
    {
        proof {
            assert(mv.subrange(0, i + 1).drop_last() =~= mv.subrange(0, i as int));
            assert(mv.subrange(0, i + 1).last() == mv[i as int]);
        }
        let empty: Vec<Json> = Vec::new();
        let blocks: &Vec<Json> = match &ms[i].content {
            Some(c) => match c.as_array() {
                Some(bs) => bs,
                None => &empty,
            },
            None => &empty,
        };
        let ghost bv = crate::json::items_view(blocks@);
        assert(bv == content_blocks(mv[i as int]));
        let mut bu = false;
        let mut be = false;
        let mut k: usize = 0;
        while k < blocks.len()
            invariant
                bv == crate::json::items_view(blocks@),
                k <= blocks@.len(),
                bu == blocks_have_tool_use(bv.subrange(0, k as int)),
                be == blocks_have_error(bv.subrange(0, k as int)),
            decreases blocks.len() - k,
        {
            proof {
                assert(bv.subrange(0, k + 1).drop_last() =~= bv.subrange(0, k as int));
                assert(bv.subrange(0, k + 1).last() == bv[k as int]);
            }
            let b = &blocks[k];
            let ty = b.get_str("type");
            let is_use = match ty {
                Some(t) => str_eq(t, "tool_use"),
                None => false,
            };
            let is_err = match ty {
                Some(t) => str_eq(t, "tool_result") && b.get_bool("is_error") == Some(true),
                None => false,
            };
            bu = bu || is_use;
            be = be || is_err;
            k = k + 1;
        }
        assert(bv.subrange(0, blocks@.len() as int) =~= bv);
        uses = uses || bu;
        errors = errors || be;
        i = i + 1;
    }
    assert(mv.subrange(0, ms@.len() as int) =~= mv);
    (uses, errors)
}

/// The session entry of a session directory (see `built_session`).
pub fn build_session(sf: &SessionFiles) -> (r: Option<ClaudeSession>)
    ensures
        match r {
            Some(s) => built_session(sf@) == Some(s@),
            None => built_session(sf@) is None,
        },
{
    let lines = match &sf.wire_lines {
        Some(l) => l,
        None => {
            return None;
        },
    };
    let state = state_of(sf);
    let fallback = fallback_ts_of(sf, &state);
    let messages = fold_wire_messages(lines, None, sf.name.as_str(), fallback.as_str());
    let ghost mv = messages_view(messages@);
    assert(session_messages(sf@, None) == Some(mv));
    if messages.len() == 0 {
        return None;
    }
    let first = messages[0].timestamp.clone();
    let last = messages[messages.len() - 1].timestamp.clone();
    assert(mv[0].timestamp == first@);
    assert(mv.last().timestamp == last@);
    let title = state_title_of(&state);
    let text = match title {
        Some(t) => Some(t),
        None => first_user_text_of(&messages),
    };
    let summary = match text {
        Some(t) => Some(truncate_chars(t.as_str(), SUMMARY_MAX_CHARS)),
        None => None,
    };
    let (uses, errors) = tool_flags(&messages);
    let entry = entrypoint_of(&state);
    Some(ClaudeSession {
        session_id: sf.name.clone(),
        actual_session_id: sf.name.clone(),
        file_path: sf.dir.clone(),
        project_name: String::new(),
        message_count: messages.len(),
        first_message_time: first,
        last_message_time: last.clone(),
        last_modified: last,
        has_tool_use: uses,
        has_errors: errors,
        summary,
        is_renamed: false,
        provider: Some(own("kimi")),
        storage_type: Some(own("jsonl")),
        entrypoint: Some(entry),
    })
}

/// Whether a directory name is a workspace directory name (`wd_*`).
pub fn is_workspace_dir_name(name: &str) -> (r: bool)
    ensures
        r == is_workspace_name(name@),
{
    str_starts_with(name, "wd_")
}

/// Whether a directory name is a session directory name (`session_*`).
pub fn is_session_dir_name(name: &str) -> (r: bool)
    ensures
        r == is_session_name(name@),
{
    str_starts_with(name, "session_")
}

/// The session entries of a workspace, in directory order (see `workspace_sessions`).
fn sessions_of(ws: &WorkspaceFiles) -> (r: Vec<ClaudeSession>)
    ensures
        sessions_view(r@) == workspace_sessions(ws@.sessions),
{
    let ghost wv = ws@.sessions;
    let mut out: Vec<ClaudeSession> = Vec::new();
    let mut i: usize = 0;
    assert(sessions_view(out@) =~= workspace_sessions(wv.subrange(0, 0)));
    while i < ws.sessions.len()
        invariant
            wv == ws@.sessions,
            i <= ws.sessions@.len(),
            sessions_view(out@) == workspace_sessions(wv.subrange(0, i as int)),
        decreases ws.sessions.len() - i,
    {
        proof {
            assert(wv.subrange(0, i + 1).drop_last() =~= wv.subrange(0, i as int));
            assert(wv.subrange(0, i + 1).last() == ws.sessions@[i as int]@);
        }
        let sf = &ws.sessions[i];
        if is_session_dir_name(sf.name.as_str()) {
            match build_session(sf) {
                Some(s) => {
                    let ghost before = out@;
                    out.push(s);
                    assert(sessions_view(out@) =~= sessions_view(before).push(s@));
                },
                None => {},
            }
        }
        i = i + 1;
    }
    assert(wv.subrange(0, ws.sessions@.len() as int) =~= wv);
    out
}

/// The sessions of one workspace, newest first.
pub fn load_sessions(workspace: &WorkspaceFiles) -> (r: Vec<ClaudeSession>)
    ensures
        sessions_view(r@) == newest_first(workspace_sessions(workspace@.sessions)),
{
    sort_sessions_newest_first(sessions_of(workspace))
}

/// The viewer messages of one session, with `blobref:` images resolved from `blobs`
/// (empty when the session has no readable main wire).
pub fn load_messages(session: &SessionFiles, blobs: Option<&BlobStore>) -> (r: Vec<ClaudeMessage>)
    ensures
        messages_view(r@) == match session_messages(session@, opt_store(blobs)) {
            Some(ms) => ms,
            None => Seq::empty(),
        },
{
    match &session.wire_lines {
        Some(lines) => {
            let state = state_of(session);
            let fallback = fallback_ts_of(session, &state);
            fold_wire_messages(lines, blobs, session.name.as_str(), fallback.as_str())
        },
        None => {
            let out: Vec<ClaudeMessage> = Vec::new();
            assert(messages_view(out@) =~= Seq::<MessageView>::empty());
            out
        },
    }
}

// ---------------------------------------------------------------------------
// Projects
// ---------------------------------------------------------------------------

/// The root path that `workspaces.json` records for the workspace `id`, when it is a
/// non-empty string.
pub open spec fn workspace_root(text: Option<Seq<char>>, id: Seq<char>) -> Option<Seq<char>> {
    match text {
        Some(t) => match parsed_json(t) {
            Some(v) => match v.get("workspaces"@) {
                Some(JsonView::Object(entries)) => match lookup(entries, id) {
                    Some(info) => match info.get_str("root"@) {
                        Some(r) => if r.len() > 0 { Some(r) } else { None },
                        None => None,
                    },
                    None => None,
                },
                _ => None,
            },
            None => None,
        },
        None => None,
    }
}

/// The first non-empty `cwd` recorded in the state of a session directory of the
/// workspace.
pub open spec fn state_cwd(sessions: Seq<SessionFilesView>) -> Option<Seq<char>>
    decreases sessions.len(),
{
    if sessions.len() == 0 {
        None
    } else {
        let sf = sessions[0];
        let here = if is_session_name(sf.name) {
            match session_state(sf) {
                Some(st) => st.get_str("cwd"@),
                None => None,
            }
        } else {
            None
        };
        match here {
            Some(c) if c.len() > 0 => Some(c),
            _ => state_cwd(sessions.drop_first()),
        }
    }
}

/// A project's name: the last component of its root, else the workspace id.
pub open spec fn project_name_for_root(root: Seq<char>, id: Seq<char>) -> Seq<char> {
    match file_name(root) {
        Some(n) => if n.len() > 0 { n } else { id },
        None => id,
    }
}

/// The total message count of some sessions.
pub open spec fn total_messages(s: Seq<SessionView>) -> int
    decreases s.len(),
{
    if s.len() == 0 { 0 } else { total_messages(s.drop_last()) + s.last().message_count }
}

proof fn lemma_total_messages_nonneg(s: Seq<SessionView>)
    ensures
        total_messages(s) >= 0,
    decreases s.len(),
{
    if s.len() > 0 {
        lemma_total_messages_nonneg(s.drop_last());
    }
}

/// A count, saturated at `usize::MAX`.
pub open spec fn saturate(n: int) -> usize {
    if n > usize::MAX { usize::MAX } else { n as usize }
}

/// The latest `last_modified` of some sessions (empty when there are none).
pub open spec fn latest(s: Seq<SessionView>) -> Seq<char>
    decreases s.len(),
{
    if s.len() == 0 {
        Seq::empty()
    } else {
        let m = latest(s.drop_last());
        if str_lt(m, s.last().last_modified) { s.last().last_modified } else { m }
    }
}

/// The project of a workspace: `None` when it has no session.
pub open spec fn workspace_project(text: Option<Seq<char>>, ws: WorkspaceView) -> Option<ProjectView> {
    let sessions = workspace_sessions(ws.sessions);
    if sessions.len() == 0 {
        None
    } else {
        let actual = match workspace_root(text, ws.name) {
            Some(r) => r,
            None => match state_cwd(ws.sessions) {
                Some(c) => c,
                None => ws.name,
            },
        };
        Some(ProjectView {
            name: project_name_for_root(actual, ws.name),
            path: "kimi-code://"@ + ws.dir,
            actual_path: actual,
            session_count: sessions.len() as usize,
            message_count: saturate(total_messages(sessions)),
            last_modified: latest(sessions),
            git_info: None,
            provider: Some("kimi"@),
            storage_type: Some("jsonl"@),
            custom_directory_label: None,
            entrypoint: None,
        })
    }
}

/// The projects of the workspaces, in directory order.
pub open spec fn store_projects(text: Option<Seq<char>>, wss: Seq<WorkspaceView>) -> Seq<ProjectView>
    decreases wss.len(),
{
    if wss.len() == 0 {
        Seq::empty()
    } else {
        let prev = store_projects(text, wss.drop_last());
        if is_workspace_name(wss.last().name) {
            match workspace_project(text, wss.last()) {
                Some(p) => prev.push(p),
                None => prev,
            }
        } else {
            prev
        }
    }
}

/// The root recorded for a workspace (see `workspace_root`).
fn workspace_root_of(text: &Option<String>, id: &str) -> (r: Option<String>)
    ensures
        opt_str(r) == workspace_root(opt_str(*text), id@),
{
    let t = match text {
        Some(t) => t,
        None => {
            return None;
        },
    };
    let v = match parse_json(t.as_str()) {
        Some(v) => v,
        None => {
            return None;
        },
    };
    match v.get("workspaces") {
        Some(w) => match w {
            Json::Object(_) => match w.get(id) {
                Some(info) => match info.get_str("root") {
                    Some(r) => if r.is_empty() { None } else { Some(own(r)) },
                    None => None,
                },
                None => None,
            },
            _ => None,
        },
        None => None,
    }
}

/// The first non-empty `cwd` in the states of a workspace's sessions (see `state_cwd`).
fn state_cwd_of(ws: &WorkspaceFiles) -> (r: Option<String>)
    ensures
        opt_str(r) == state_cwd(ws@.sessions),
{
    let ghost sv = ws@.sessions;
    let mut i: usize = 0;
    assert(sv.subrange(0, sv.len() as int) =~= sv);
    while i < ws.sessions.len()
        invariant
            sv == ws@.sessions,
            i <= ws.sessions@.len(),
            state_cwd(sv) == state_cwd(sv.subrange(i as int, sv.len() as int)),
        decreases ws.sessions.len() - i,
    {
        assert(sv.subrange(i as int, sv.len() as int)[0] == ws.sessions@[i as int]@);
        assert(sv.subrange(i as int, sv.len() as int).drop_first() =~= sv.subrange(i + 1, sv.len() as int));
        let sf = &ws.sessions[i];
        if is_session_dir_name(sf.name.as_str()) {
            match state_of(sf) {
                Some(st) => match st.get_str("cwd") {
                    Some(c) => {
                        if !c.is_empty() {
                            return Some(own(c));
                        }
                    },
                    None => {},
                },
                None => {},
            }
        }
        i = i + 1;
    }
    None
}

/// A project's name (see `project_name_for_root`).
fn project_name_of(root: &str, id: &str) -> (r: String)
    ensures
        r@ == project_name_for_root(root@, id@),
{
    match path_file_name(root) {
        Some(n) => if n.as_str().is_empty() { own(id) } else { n },
        None => own(id),
    }
}

/// The project of a workspace (see `workspace_project`).
fn workspace_project_of(text: &Option<String>, ws: &WorkspaceFiles) -> (r: Option<ClaudeProject>)
    ensures
        match r {
            Some(p) => workspace_project(opt_str(*text), ws@) == Some(p@),
            None => workspace_project(opt_str(*text), ws@) is None,
        },
{
    let sessions = sessions_of(ws);
    let ghost sv = sessions_view(sessions@);
    if sessions.len() == 0 {
        return None;
    }
    let actual = match workspace_root_of(text, ws.name.as_str()) {
        Some(r) => r,
        None => match state_cwd_of(ws) {
            Some(c) => c,
            None => ws.name.clone(),
        },
    };
    let name = project_name_of(actual.as_str(), ws.name.as_str());
    let mut total: usize = 0;
    let mut last = String::new();
    let mut i: usize = 0;
    while i < sessions.len()
        invariant
            sv == sessions_view(sessions@),
            i <= sessions@.len(),
            total == saturate(total_messages(sv.subrange(0, i as int))),
            last@ == latest(sv.subrange(0, i as int)),
        decreases sessions.len() - i,
    {
        proof {
            assert(sv.subrange(0, i + 1).drop_last() =~= sv.subrange(0, i as int));
            assert(sv.subrange(0, i + 1).last() == sessions@[i as int]@);
            lemma_total_messages_nonneg(sv.subrange(0, i as int));
        }
        total = total.saturating_add(sessions[i].message_count);
        if str_less(last.as_str(), sessions[i].last_modified.as_str()) {
            last = sessions[i].last_modified.clone();
        }
        i = i + 1;
    }
    assert(sv.subrange(0, sessions@.len() as int) =~= sv);
    Some(ClaudeProject {
        name,
        path: concat("kimi-code://", ws.dir.as_str()),
        actual_path: actual,
        session_count: sessions.len(),
        message_count: total,
        last_modified: last,
        git_info: None,
        provider: Some(own("kimi")),
        storage_type: Some(own("jsonl")),
        custom_directory_label: None,
        entrypoint: None,
    })
}

/// Kimi-code projects, one per workspace directory with at least one session, newest
/// first. Git information is left for the caller to detect.
pub fn scan_projects(store: &KimiStore) -> (r: Vec<ClaudeProject>)
    ensures
        projects_view(r@) == newest_first(store_projects(store@.workspaces_text, store@.workspaces)),
{
    let ghost wv = store@.workspaces;
    let mut out: Vec<ClaudeProject> = Vec::new();
    let mut i: usize = 0;
    assert(projects_view(out@) =~= store_projects(store@.workspaces_text, wv.subrange(0, 0)));
    while i < store.workspaces.len()
        invariant
            wv == store@.workspaces,
            i <= store.workspaces@.len(),
            projects_view(out@) == store_projects(store@.workspaces_text, wv.subrange(0, i as int)),
        decreases store.workspaces.len() - i,
    {
        proof {
            assert(wv.subrange(0, i + 1).drop_last() =~= wv.subrange(0, i as int));
            assert(wv.subrange(0, i + 1).last() == store.workspaces@[i as int]@);
        }
        let ws = &store.workspaces[i];
        if is_workspace_dir_name(ws.name.as_str()) {
            match workspace_project_of(&store.workspaces_text, ws) {
                Some(p) => {
                    let ghost before = out@;
                    out.push(p);
                    assert(projects_view(out@) =~= projects_view(before).push(p@));
                },
                None => {},
            }
        }
        i = i + 1;
    }
    assert(wv.subrange(0, store.workspaces@.len() as int) =~= wv);
    sort_projects_newest_first(out)
}

// ---------------------------------------------------------------------------
// Search
// ---------------------------------------------------------------------------

/// The hits of the session directories of a workspace, in directory order.
pub open spec fn session_hits(sessions: Seq<SessionFilesView>, q: Seq<char>, name: Seq<char>) -> Seq<MessageView>
    decreases sessions.len(),
{
    if sessions.len() == 0 {
        Seq::empty()
    } else {
        let prev = session_hits(sessions.drop_last(), q, name);
        let sf = sessions.last();
        if is_session_name(sf.name) {
            match session_messages(sf, None) {
                Some(ms) => prev + message_hits(ms, q, name),
                None => prev,
            }
        } else {
            prev
        }
    }
}

/// The project name that search results of a workspace carry: the name of its
/// recorded root, else the workspace id.
pub open spec fn search_project_name(text: Option<Seq<char>>, id: Seq<char>) -> Seq<char> {
    match workspace_root(text, id) {
        Some(r) => project_name_for_root(r, id),
        None => id,
    }
}

/// All hits of a store, workspace by workspace.
pub open spec fn store_hits(text: Option<Seq<char>>, wss: Seq<WorkspaceView>, q: Seq<char>) -> Seq<MessageView>
    decreases wss.len(),
{
    if wss.len() == 0 {
        Seq::empty()
    } else {
        let prev = store_hits(text, wss.drop_last(), q);
        let ws = wss.last();
        if is_workspace_name(ws.name) {
            prev + session_hits(ws.sessions, q, search_project_name(text, ws.name))
        } else {
            prev
        }
    }
}


proof fn lemma_session_hits_prefix(ss: Seq<SessionFilesView>, k: int, q: Seq<char>, name: Seq<char>)
    requires
        0 <= k <= ss.len(),
    ensures
        session_hits(ss.take(k), q, name).is_prefix_of(session_hits(ss, q, name)),
    decreases ss.len(),
{
    if k == ss.len() {
        assert(ss.take(k) =~= ss);
        assert(session_hits(ss, q, name).take(session_hits(ss, q, name).len() as int) =~= session_hits(ss, q, name));
    } else {
        assert(ss.drop_last().take(k) =~= ss.take(k));
        lemma_session_hits_prefix(ss.drop_last(), k, q, name);
        let prev = session_hits(ss.drop_last(), q, name);
        assert(prev.is_prefix_of(session_hits(ss, q, name))) by {
            assert(session_hits(ss, q, name).take(prev.len() as int) =~= prev);
        }
        lemma_prefix_trans(session_hits(ss.take(k), q, name), prev, session_hits(ss, q, name));
    }
}

proof fn lemma_store_hits_prefix(text: Option<Seq<char>>, wss: Seq<WorkspaceView>, k: int, q: Seq<char>)
    requires
        0 <= k <= wss.len(),
    ensures
        store_hits(text, wss.take(k), q).is_prefix_of(store_hits(text, wss, q)),
    decreases wss.len(),
{
    if k == wss.len() {
        assert(wss.take(k) =~= wss);
        assert(store_hits(text, wss, q).take(store_hits(text, wss, q).len() as int) =~= store_hits(text, wss, q));
    } else {
        assert(wss.drop_last().take(k) =~= wss.take(k));
        lemma_store_hits_prefix(text, wss.drop_last(), k, q);
        let prev = store_hits(text, wss.drop_last(), q);
        assert(prev.is_prefix_of(store_hits(text, wss, q))) by {
            assert(store_hits(text, wss, q).take(prev.len() as int) =~= prev);
        }
        lemma_prefix_trans(store_hits(text, wss.take(k), q), prev, store_hits(text, wss, q));
    }
}

/// The project name that search results of a workspace carry.
fn search_project_name_of(text: &Option<String>, id: &str) -> (r: String)
    ensures
        r@ == search_project_name(opt_str(*text), id@),
{
    match workspace_root_of(text, id) {
        Some(root) => project_name_of(root.as_str(), id),
        None => own(id),
    }
}

/// Messages of the kimi-code store whose content mentions `query` (ignoring case),
/// workspace by workspace and session by session in directory order, each tagged
/// with its project's name; at most `limit` of them, and the first hit even when
/// `limit` is 0.
pub fn search(store: &KimiStore, query: &str, limit: usize) -> (r: Vec<ClaudeMessage>)
    ensures
        messages_view(r@) == capped(store_hits(store@.workspaces_text, store@.workspaces, lowercase(query@)), limit),
{
    let q = str_to_lowercase(query);
    let cap: usize = if limit == 0 { 1 } else { limit };
    let ghost text = store@.workspaces_text;
    let ghost wv = store@.workspaces;
    let ghost all = store_hits(text, wv, q@);
    let mut results: Vec<ClaudeMessage> = Vec::new();
    let mut i: usize = 0;
    assert(wv.take(0) =~= Seq::<WorkspaceView>::empty());
    assert(messages_view(results@) =~= store_hits(text, wv.take(0), q@));
    while i < store.workspaces.len()
        invariant
            text == store@.workspaces_text,
            wv == store@.workspaces,
            all == store_hits(text, wv, q@),
            q@ == lowercase(query@),
            cap == result_cap(limit),
            i <= wv.len(),
            messages_view(results@) == store_hits(text, wv.take(i as int), q@),
            results@.len() < cap,
        decreases wv.len() - i,
    {
        let ws = &store.workspaces[i];
        let ghost before_ws = messages_view(results@);
        proof {
            assert(wv.take(i + 1).drop_last() =~= wv.take(i as int));
            assert(wv.take(i + 1).last() == ws@);
        }
        if is_workspace_dir_name(ws.name.as_str()) {
            let name = search_project_name_of(&store.workspaces_text, ws.name.as_str());
            let ghost sv = ws@.sessions;
            let mut j: usize = 0;
            assert(sv.take(0) =~= Seq::<SessionFilesView>::empty());
            assert(messages_view(results@) =~= before_ws + session_hits(sv.take(0), q@, name@));
            while j < ws.sessions.len()
                invariant
                    text == store@.workspaces_text,
                    wv == store@.workspaces,
                    all == store_hits(text, wv, q@),
                    q@ == lowercase(query@),
            q@ == lowercase(query@),
                    cap == result_cap(limit),
                    i < wv.len(),
                    *ws == store.workspaces@[i as int],
                    sv == ws@.sessions,
                    is_workspace_name(ws@.name),
                    name@ == search_project_name(text, ws@.name),
                    before_ws == store_hits(text, wv.take(i as int), q@),
                    j <= sv.len(),
                    messages_view(results@) == before_ws + session_hits(sv.take(j as int), q@, name@),
                    results@.len() < cap,
                decreases sv.len() - j,
            {
                let sf = &ws.sessions[j];
                let ghost before_s = messages_view(results@);
                proof {
                    assert(sv.take(j + 1).drop_last() =~= sv.take(j as int));
                    assert(sv.take(j + 1).last() == sf@);
                    assert(ws.sessions@[j as int]@ == sv[j as int]);
                }
                if is_session_dir_name(sf.name.as_str()) {
                    let msgs = load_messages(sf, None);
                    let ghost mv = messages_view(msgs@);
                    let mut k: usize = 0;
                    assert(mv.take(0) =~= Seq::<MessageView>::empty());
                    assert(messages_view(results@) =~= before_s + message_hits(mv.take(0), q@, name@));
                    while k < msgs.len()
                        invariant
                            text == store@.workspaces_text,
                            wv == store@.workspaces,
                            all == store_hits(text, wv, q@),
                            q@ == lowercase(query@),
                    q@ == lowercase(query@),
            q@ == lowercase(query@),
                            cap == result_cap(limit),
                            i < wv.len(),
                            *ws == store.workspaces@[i as int],
                            sv == ws@.sessions,
                            is_workspace_name(ws@.name),
                            name@ == search_project_name(text, ws@.name),
                            before_ws == store_hits(text, wv.take(i as int), q@),
                            j < sv.len(),
                            *sf == ws.sessions@[j as int],
                            is_session_name(sf@.name),
                            mv == messages_view(msgs@),
                            mv == match session_messages(sf@, None) {
                                Some(ms) => ms,
                                None => Seq::empty(),
                            },
                            before_s == before_ws + session_hits(sv.take(j as int), q@, name@),
                            k <= mv.len(),
                            messages_view(results@) == before_s + message_hits(mv.take(k as int), q@, name@),
                            results@.len() < cap,
                        decreases mv.len() - k,
                    {
                        proof {
                            assert(mv.take(k + 1).drop_last() =~= mv.take(k as int));
                            assert(mv.take(k + 1).last() == msgs@[k as int]@);
                        }
                        let m = &msgs[k];
                        let hit = match &m.content {
                            Some(c) => json_mentions(c, q.as_str()),
                            None => false,
                        };
                        if hit {
                            let ghost before_m = messages_view(results@);
                            results.push(with_project_name(m, name.as_str()));
                            assert(messages_view(results@) =~= before_m.push(tagged(m@, name@)));
                            assert(messages_view(results@) =~= before_s + message_hits(mv.take(k + 1), q@, name@));
                            if results.len() >= cap {
                                proof {
                                    let ses_all = session_hits(sv, q@, name@);
                                    let mh = message_hits(mv.take(k + 1), q@, name@);
                                    let st = session_hits(sv.take(j as int), q@, name@);
                                    lemma_message_hits_prefix(mv, k + 1, q@, name@);
                                    lemma_prefix_prepend(st, mh, message_hits(mv, q@, name@));
                                    assert(sv.take(j + 1).drop_last() =~= sv.take(j as int));
                                    assert(sv.take(j + 1).last() == sf@);
                                    match session_messages(sf@, None) {
                                        Some(ms) => {},
                                        None => {
                                            assert(message_hits(mv, q@, name@) =~= Seq::<MessageView>::empty());
                                        },
                                    }
                                    assert(session_hits(sv.take(j + 1), q@, name@) =~= st + message_hits(mv, q@, name@));
                                    lemma_session_hits_prefix(sv, j + 1, q@, name@);
                                    lemma_prefix_trans(st + mh, session_hits(sv.take(j + 1), q@, name@), ses_all);
                                    lemma_prefix_prepend(before_ws, st + mh, ses_all);
                                    assert(wv.take(i + 1).drop_last() =~= wv.take(i as int));
                                    assert(wv.take(i + 1).last() == ws@);
                                    assert(sv.take(sv.len() as int) =~= sv);
                                    assert(store_hits(text, wv.take(i + 1), q@) == before_ws + ses_all);
                                    lemma_store_hits_prefix(text, wv, i + 1, q@);
                                    lemma_prefix_trans(before_ws + (st + mh), before_ws + ses_all, all);
                                    assert(messages_view(results@) =~= before_ws + (st + mh));
                                    lemma_capped_prefix(messages_view(results@), all, limit);
                                }
                                return results;
                            }
                        } else {
                            assert(messages_view(results@) =~= before_s + message_hits(mv.take(k + 1), q@, name@));
                        }
                        k = k + 1;
                    }
                    assert(mv.take(mv.len() as int) =~= mv);
                    proof {
                        match session_messages(sf@, None) {
                            Some(ms) => {
                                assert(session_hits(sv.take(j + 1), q@, name@) == session_hits(sv.take(j as int), q@, name@) + message_hits(ms, q@, name@));
                            },
                            None => {
                                assert(message_hits(mv, q@, name@) =~= Seq::<MessageView>::empty());
                            },
                        }
                    }
                    assert(messages_view(results@) =~= before_ws + session_hits(sv.take(j + 1), q@, name@));
                } else {
                    assert(messages_view(results@) =~= before_ws + session_hits(sv.take(j + 1), q@, name@));
                }
                j = j + 1;
            }
            assert(sv.take(sv.len() as int) =~= sv);
            assert(ws@ == wv[i as int]);
            assert(messages_view(results@) =~= store_hits(text, wv.take(i + 1), q@));
        } else {
            assert(messages_view(results@) =~= store_hits(text, wv.take(i + 1), q@));
        }
        i = i + 1;
    }
    assert(wv.take(wv.len() as int) =~= wv);
    results
}

/// A summary is the text itself when it fits, else its first `max` characters
/// followed by `...`.
pub proof fn law_truncated(text: Seq<char>, max: nat)
    ensures
        truncated(text, max).len() <= max + 3,
        text.len() <= max ==> truncated(text, max) == text,
        text.len() > max ==> truncated(text, max).subrange(0, max as int) == text.subrange(0, max as int),
{
    reveal_strlit("...");
    if text.len() > max {
        assert(truncated(text, max).subrange(0, max as int) =~= text.subrange(0, max as int));
    }
}


/// The project a workspace directory gives: one per `wd_*` directory with a session,
/// counting its sessions and summing their message counts, rooted at the root that
/// `workspaces.json` records, else the first non-empty cwd of its sessions, else
/// its id.
pub open spec fn project_of_workspace(p: ProjectView, text: Option<Seq<char>>, ws: WorkspaceView) -> bool {
    &&& is_workspace_name(ws.name)
    &&& workspace_project(text, ws) == Some(p)
    &&& workspace_sessions(ws.sessions).len() >= 1
    &&& p.session_count == workspace_sessions(ws.sessions).len() as usize
    &&& p.message_count == saturate(total_messages(workspace_sessions(ws.sessions)))
    &&& p.actual_path == match workspace_root(text, ws.name) {
        Some(r) => r,
        None => match state_cwd(ws.sessions) {
            Some(c) => c,
            None => ws.name,
        },
    }
    &&& p.path == "kimi-code://"@ + ws.dir
    &&& p.provider == Some("kimi"@)
}

proof fn lemma_store_projects_from_workspaces(text: Option<Seq<char>>, wss: Seq<WorkspaceView>)
    ensures
        forall|i: int| 0 <= i < store_projects(text, wss).len() ==> exists|k: int|
            0 <= k < wss.len() && project_of_workspace(#[trigger] store_projects(text, wss)[i], text, wss[k]),
    decreases wss.len(),
{
    if wss.len() > 0 {
        let prev = store_projects(text, wss.drop_last());
        lemma_store_projects_from_workspaces(text, wss.drop_last());
        let all = store_projects(text, wss);
        assert forall|i: int| 0 <= i < all.len() implies exists|k: int|
            0 <= k < wss.len() && project_of_workspace(#[trigger] all[i], text, wss[k]) by {
            if i < prev.len() {
                assert(all[i] == prev[i]);
                let k = choose|k: int| 0 <= k < wss.drop_last().len() && project_of_workspace(prev[i], text, wss.drop_last()[k]);
                assert(wss[k] == wss.drop_last()[k]);
            } else {
                assert(project_of_workspace(all[i], text, wss[wss.len() - 1]));
            }
        }
    }
}

/// The scan lists, newest first, one project per workspace directory with a session
/// (see `project_of_workspace`).
pub proof fn law_kimi_projects_listed(text: Option<Seq<char>>, wss: Seq<WorkspaceView>)
    ensures
        listed_newest_first(newest_first(store_projects(text, wss))),
        forall|i: int| 0 <= i < newest_first(store_projects(text, wss)).len() ==> exists|k: int|
            0 <= k < wss.len() && project_of_workspace(#[trigger] newest_first(store_projects(text, wss))[i], text, wss[k]),
{
    let all = store_projects(text, wss);
    law_newest_first(all);
    lemma_store_projects_from_workspaces(text, wss);
    let pred = |p: ProjectView| exists|k: int| 0 <= k < wss.len() && project_of_workspace(p, text, wss[k]);
    assert forall|i: int| 0 <= i < all.len() implies pred(#[trigger] all[i]) by {}
    lemma_newest_first_keeps(all, pred);
    assert forall|i: int| 0 <= i < newest_first(all).len() implies exists|k: int|
        0 <= k < wss.len() && project_of_workspace(#[trigger] newest_first(all)[i], text, wss[k]) by {
        assert(pred(newest_first(all)[i]));
    }
}

/// The `cwd` a session directory's state records (only for `session_*` directories).
pub open spec fn session_cwd(sf: SessionFilesView) -> Option<Seq<char>> {
    if is_session_name(sf.name) {
        match session_state(sf) {
            Some(st) => st.get_str("cwd"@),
            None => None,
        }
    } else {
        None
    }
}

/// The cwd fallback is the first non-empty cwd that a session records: no session
/// before it records a non-empty one, and there is none exactly when no session does.
pub proof fn law_first_nonempty_cwd(sessions: Seq<SessionFilesView>)
    ensures
        state_cwd(sessions) matches Some(c) ==> c.len() > 0 && exists|i: int| 0 <= i < sessions.len()
            && session_cwd(#[trigger] sessions[i]) == Some(c)
            && forall|j: int| 0 <= j < i ==> !(session_cwd(#[trigger] sessions[j]) matches Some(d) && d.len() > 0),
        state_cwd(sessions) is None ==> forall|i: int| 0 <= i < sessions.len()
            ==> !(session_cwd(#[trigger] sessions[i]) matches Some(d) && d.len() > 0),
    decreases sessions.len(),
{
    if sessions.len() > 0 {
        let rest = sessions.drop_first();
        law_first_nonempty_cwd(rest);
        if !(session_cwd(sessions[0]) matches Some(d) && d.len() > 0) {
            match state_cwd(rest) {
                Some(c) => {
                    let i = choose|i: int| 0 <= i < rest.len() && session_cwd(#[trigger] rest[i]) == Some(c)
                        && forall|j: int| 0 <= j < i ==> !(session_cwd(#[trigger] rest[j]) matches Some(d) && d.len() > 0);
                    assert(sessions[i + 1] == rest[i]);
                    assert forall|j: int| 0 <= j < i + 1 implies !(session_cwd(#[trigger] sessions[j]) matches Some(d) && d.len() > 0) by {
                        if j > 0 {
                            assert(sessions[j] == rest[j - 1]);
                        }
                    }
                },
                None => {
                    assert forall|i: int| 0 <= i < sessions.len() implies !(session_cwd(#[trigger] sessions[i]) matches Some(d) && d.len() > 0) by {
                        if i > 0 {
                            assert(sessions[i] == rest[i - 1]);
                        }
                    }
                },
            }
        } else {
            assert(session_cwd(sessions[0]) == state_cwd(sessions));
        }
    }
}

/// The VS Code extension's mark in a session state.
pub open spec fn vscode_marked(state: Option<JsonView>) -> bool {
    match state {
        Some(st) => member(st.get("custom"@), "vscode_legacy_approval"@) is Some,
        None => false,
    }
}

/// The session a session directory gives: one per `session_*` directory whose main
/// wire folds into at least one message, counting those messages; its entry point is
/// the VS Code extension exactly when its state carries that mark; its summary is the
/// state's title, else the first user text, cut to the summary length.
pub open spec fn session_of_dir(s: SessionView, sf: SessionFilesView) -> bool {
    &&& is_session_name(sf.name)
    &&& built_session(sf) == Some(s)
    &&& session_messages(sf, None) matches Some(ms) && {
        &&& ms.len() > 0
        &&& s.message_count == ms.len() as usize
        &&& s.summary == match (match state_title(session_state(sf)) {
            Some(t) => Some(t),
            None => first_user_text(ms),
        }) {
            Some(t) => Some(truncated(t, SUMMARY_MAX_CHARS as nat)),
            None => None,
        }
    }
    &&& s.entrypoint == Some(if vscode_marked(session_state(sf)) { "kimi-code-vscode"@ } else { "kimi-code-cli"@ })
    &&& s.provider == Some("kimi"@)
}

proof fn lemma_workspace_sessions_from_dirs(ss: Seq<SessionFilesView>)
    ensures
        forall|i: int| 0 <= i < workspace_sessions(ss).len() ==> exists|k: int|
            0 <= k < ss.len() && session_of_dir(#[trigger] workspace_sessions(ss)[i], ss[k]),
    decreases ss.len(),
{
    if ss.len() > 0 {
        let prev = workspace_sessions(ss.drop_last());
        lemma_workspace_sessions_from_dirs(ss.drop_last());
        let all = workspace_sessions(ss);
        assert forall|i: int| 0 <= i < all.len() implies exists|k: int|
            0 <= k < ss.len() && session_of_dir(#[trigger] all[i], ss[k]) by {
            if i < prev.len() {
                assert(all[i] == prev[i]);
                let k = choose|k: int| 0 <= k < ss.drop_last().len() && session_of_dir(prev[i], ss.drop_last()[k]);
                assert(ss[k] == ss.drop_last()[k]);
            } else {
                assert(session_of_dir(all[i], ss[ss.len() - 1]));
            }
        }
    }
}

/// A workspace lists its sessions newest first, one per session directory (see
/// `session_of_dir`).
pub proof fn law_kimi_sessions_listed(ss: Seq<SessionFilesView>)
    ensures
        listed_newest_first(newest_first(workspace_sessions(ss))),
        forall|i: int| 0 <= i < newest_first(workspace_sessions(ss)).len() ==> exists|k: int|
            0 <= k < ss.len() && session_of_dir(#[trigger] newest_first(workspace_sessions(ss))[i], ss[k]),
{
    let all = workspace_sessions(ss);
    law_newest_first(all);
    lemma_workspace_sessions_from_dirs(ss);
    let pred = |s: SessionView| exists|k: int| 0 <= k < ss.len() && session_of_dir(s, ss[k]);
    assert forall|i: int| 0 <= i < all.len() implies pred(#[trigger] all[i]) by {}
    lemma_newest_first_keeps(all, pred);
    assert forall|i: int| 0 <= i < newest_first(all).len() implies exists|k: int|
        0 <= k < ss.len() && session_of_dir(#[trigger] newest_first(all)[i], ss[k]) by {
        assert(pred(newest_first(all)[i]));
    }
}


proof fn lemma_latest_is_max(ss: Seq<SessionView>)
    requires
        ss.len() > 0,
    ensures
        forall|i: int| 0 <= i < ss.len() ==> !str_lt(latest(ss), #[trigger] ss[i].last_modified),
        exists|i: int| 0 <= i < ss.len() && latest(ss) == #[trigger] ss[i].last_modified,
    decreases ss.len(),
{
    let prev = ss.drop_last();
    let last = ss.last().last_modified;
    let m = latest(prev);
    let r = latest(ss);
    lemma_str_lt_irreflexive(last);
    if prev.len() > 0 {
        lemma_latest_is_max(prev);
    } else {
        lemma_str_lt_empty(last);
    }
    assert forall|i: int| 0 <= i < ss.len() implies !str_lt(r, #[trigger] ss[i].last_modified) by {
        if i < prev.len() {
            assert(ss[i] == prev[i]);
            if str_lt(m, last) && str_lt(last, ss[i].last_modified) {
                lemma_str_lt_trans(m, last, ss[i].last_modified);
            }
        }
    }
    if str_lt(m, last) {
        assert(r == ss[ss.len() - 1].last_modified);
    } else if prev.len() > 0 {
        let j = choose|j: int| 0 <= j < prev.len() && m == #[trigger] prev[j].last_modified;
        assert(ss[j] == prev[j]);
    } else {
        assert(r == ss[0].last_modified);
    }
}

/// A workspace's project is last modified when its latest session was: no session of
/// the workspace is newer, and one of them was last modified at that time.
pub proof fn law_kimi_project_latest(text: Option<Seq<char>>, ws: WorkspaceView)
    ensures
        workspace_project(text, ws) matches Some(p) ==> {
            &&& forall|i: int| 0 <= i < workspace_sessions(ws.sessions).len()
                ==> !str_lt(p.last_modified, #[trigger] workspace_sessions(ws.sessions)[i].last_modified)
            &&& exists|i: int| 0 <= i < workspace_sessions(ws.sessions).len()
                && p.last_modified == #[trigger] workspace_sessions(ws.sessions)[i].last_modified
        },
{
    if workspace_sessions(ws.sessions).len() > 0 {
        lemma_latest_is_max(workspace_sessions(ws.sessions));
    }
}

/// A block that reports a failed tool call: a `tool_result` whose `is_error` is true.
pub open spec fn reports_error(b: JsonView) -> bool {
    b.get_str("type"@) == Some("tool_result"@) && b.get_bool("is_error"@) == Some(true)
}

proof fn lemma_blocks_have_error(bs: Seq<JsonView>)
    ensures
        blocks_have_error(bs) <==> exists|j: int| 0 <= j < bs.len() && reports_error(#[trigger] bs[j]),
    decreases bs.len(),
{
    if bs.len() > 0 {
        lemma_blocks_have_error(bs.drop_last());
        if exists|j: int| 0 <= j < bs.drop_last().len() && reports_error(#[trigger] bs.drop_last()[j]) {
            let j = choose|j: int| 0 <= j < bs.drop_last().len() && reports_error(#[trigger] bs.drop_last()[j]);
            assert(bs[j] == bs.drop_last()[j]);
        }
        if exists|j: int| 0 <= j < bs.len() && reports_error(#[trigger] bs[j]) {
            let j = choose|j: int| 0 <= j < bs.len() && reports_error(#[trigger] bs[j]);
            if j < bs.len() - 1 {
                assert(bs.drop_last()[j] == bs[j]);
            }
        }
        if reports_error(bs.last()) {
            assert(reports_error(bs[bs.len() - 1]));
        }
    }
}

proof fn lemma_messages_have_errors(ms: Seq<MessageView>)
    ensures
        messages_have_errors(ms) <==> exists|i: int, j: int| 0 <= i < ms.len() && 0 <= j < content_blocks(ms[i]).len()
            && reports_error(#[trigger] content_blocks(ms[i])[j]),
    decreases ms.len(),
{
    if ms.len() > 0 {
        let prev = ms.drop_last();
        lemma_messages_have_errors(prev);
        lemma_blocks_have_error(content_blocks(ms.last()));
        if exists|i: int, j: int| 0 <= i < prev.len() && 0 <= j < content_blocks(prev[i]).len()
            && reports_error(#[trigger] content_blocks(prev[i])[j]) {
            let (i, j) = choose|i: int, j: int| 0 <= i < prev.len() && 0 <= j < content_blocks(prev[i]).len()
                && reports_error(#[trigger] content_blocks(prev[i])[j]);
            assert(ms[i] == prev[i]);
        }
        if exists|i: int, j: int| 0 <= i < ms.len() && 0 <= j < content_blocks(ms[i]).len()
            && reports_error(#[trigger] content_blocks(ms[i])[j]) {
            let (i, j) = choose|i: int, j: int| 0 <= i < ms.len() && 0 <= j < content_blocks(ms[i]).len()
                && reports_error(#[trigger] content_blocks(ms[i])[j]);
            if i < ms.len() - 1 {
                assert(prev[i] == ms[i]);
            } else {
                assert(ms[i] == ms.last());
            }
        }
        if blocks_have_error(content_blocks(ms.last())) {
            let j = choose|j: int| 0 <= j < content_blocks(ms.last()).len() && reports_error(#[trigger] content_blocks(ms.last())[j]);
            assert(ms[ms.len() - 1] == ms.last());
            assert(reports_error(content_blocks(ms[ms.len() - 1])[j]));
        }
    }
}

/// A session has errors exactly when one of its messages holds a `tool_result` block
/// whose `is_error` is true; a result without that flag never counts as an error.
pub proof fn law_kimi_session_errors(sf: SessionFilesView)
    ensures
        built_session(sf) matches Some(s) ==> session_messages(sf, None) matches Some(ms) && (s.has_errors <==>
            exists|i: int, j: int| 0 <= i < ms.len() && 0 <= j < content_blocks(ms[i]).len()
                && (#[trigger] content_blocks(ms[i])[j]).get_str("type"@) == Some("tool_result"@)
                && content_blocks(ms[i])[j].get_bool("is_error"@) == Some(true)),
{
    match session_messages(sf, None) {
        Some(ms) => {
            lemma_messages_have_errors(ms);
            if exists|i: int, j: int| 0 <= i < ms.len() && 0 <= j < content_blocks(ms[i]).len()
                && (#[trigger] content_blocks(ms[i])[j]).get_str("type"@) == Some("tool_result"@)
                && content_blocks(ms[i])[j].get_bool("is_error"@) == Some(true) {
                let (i, j) = choose|i: int, j: int| 0 <= i < ms.len() && 0 <= j < content_blocks(ms[i]).len()
                    && (#[trigger] content_blocks(ms[i])[j]).get_str("type"@) == Some("tool_result"@)
                    && content_blocks(ms[i])[j].get_bool("is_error"@) == Some(true);
                assert(reports_error(content_blocks(ms[i])[j]));
            }
        },
        None => {},
    }
}

} // verus!
