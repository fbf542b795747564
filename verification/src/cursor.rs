//! Cursor chat history (the `cursor` provider).
//!
//! Cursor keeps its conversations ("composers") in SQLite key/value stores: the global
//! `globalStorage/state.vscdb` holds `composerData:<id>` records and one
//! `bubbleId:<composer>:<bubble>` record per message, while each workspace directory
//! under `workspaceStorage/` holds a `workspace.json` (the opened folder) and, for
//! older installations, its own list of composers. The library reads those records as
//! text, handed over by the caller, and turns them into projects, sessions and
//! messages.
use vstd::prelude::*;
use crate::json::{
    Json, JsonView, duplicate_items, json_mentions, lemma_object_view, entries_view, items_view, json_error_text, json_parse_error, jstr, make_text_block, member,
    obj, obj2, obj3, obj4, opt_owned_view, parse_json, parsed_json, str_or, str_or_default, text_block,
};
use crate::text::{
    chars_of, concat, decimal, decimal_string, file_name, has_prefix, path_file_name, own, split_first, str_eq, str_split_once, str_starts_with, str_strip_prefix,
    string_from_utf8, string_of_range, string_push, lowercase, str_to_lowercase,
};
use crate::external::{decoded_path, hex_value, percent_decode_bytes};
use crate::models::{
    ClaudeMessage, ClaudeProject, ClaudeSession, MessageView, ProjectView, ProviderInfo, SessionView, TokenUsage,
    capped, lemma_capped_prefix, lemma_last_assistant, lemma_prefix_trans, message_matches, sessions_view, tagged, with_project_name,
    sort_sessions_newest_first, build_provider_message, newest_first,
    projects_view, sort_projects_newest_first, cap_u32, capped_u32, input_only, last_assistant,
    last_assistant_index, lemma_messages_replace, messages_view, opt_str, provider_message,
    listed_newest_first, law_newest_first, lemma_newest_first_keeps,
};
use crate::kimi_fold::{ms_to_rfc3339, rfc3339_ms};

verus! {

// ---------------------------------------------------------------------------
// Text
// ---------------------------------------------------------------------------

/// The value of a hexadecimal digit byte.
fn hex_digit(b: u8) -> (r: Option<u8>)
    ensures
        r == hex_value(b),
{
    if 48 <= b && b <= 57 {
        Some(b - 48)
    } else if 65 <= b && b <= 70 {
        Some(b - 55)
    } else if 97 <= b && b <= 102 {
        Some(b - 87)
    } else {
        None
    }
}

/// Decodes the `%XX` escapes of `input` (e.g. `%20` to a space). A `%` that is not
/// followed by two hexadecimal digits stays literal, also before a multi-byte
/// character; when the decoded bytes are not UTF-8 the input is returned unchanged.
pub fn percent_decode(input: &str) -> (r: String)
    ensures
        r@ == decoded_path(input@),
{
    let bytes = input.as_bytes();
    let ghost all = bytes@;
    let mut buf: Vec<u8> = Vec::new();
    let mut i: usize = 0;
    let n = bytes.len();
    assert(all.subrange(0, n as int) =~= all);
    while i < n
        invariant
            all == bytes@,
            n == all.len(),
            i <= n,
            buf@ + percent_decode_bytes(all.subrange(i as int, n as int)) == percent_decode_bytes(all),
        decreases n - i,
    {
        let ghost rest = all.subrange(i as int, n as int);
        if bytes[i] == 37 && n - i >= 3 {
            let hi = hex_digit(bytes[i + 1]);
            let lo = hex_digit(bytes[i + 2]);
            match (hi, lo) {
                (Some(h), Some(l)) => {
                    proof {
                        assert(rest[0] == bytes@[i as int] && rest[1] == bytes@[i + 1] && rest[2] == bytes@[i + 2]);
                        assert(rest.subrange(3, rest.len() as int) =~= all.subrange(i + 3, n as int));
                        assert(buf@.push((h * 16 + l) as u8) + percent_decode_bytes(all.subrange(i + 3, n as int))
                            =~= buf@ + percent_decode_bytes(rest));
                    }
                    buf.push(h * 16 + l);
                    i = i + 3;
                    continue;
                },
                _ => {},
            }
        }
        proof {
            assert(rest[0] == bytes@[i as int]);
            if rest.len() >= 3 {
                assert(rest[1] == bytes@[i + 1] && rest[2] == bytes@[i + 2]);
            }
            assert(rest.drop_first() =~= all.subrange(i + 1, n as int));
            assert(buf@.push(bytes@[i as int]) + percent_decode_bytes(all.subrange(i + 1, n as int))
                =~= buf@ + percent_decode_bytes(rest));
        }
        buf.push(bytes[i]);
        i = i + 1;
    }
    assert(buf@ =~= percent_decode_bytes(all));
    match string_from_utf8(buf) {
        Some(s) => s,
        None => own(input),
    }
}

proof fn lemma_scalar_bytes_not_percent(c: u32)
    requires
        c != 37,
        vstd::utf8::is_scalar(c),
    ensures
        forall|k: int| 0 <= k < vstd::utf8::encode_scalar(c).len() ==> #[trigger] vstd::utf8::encode_scalar(c)[k] != 37,
{
    let e = vstd::utf8::encode_scalar(c);
    if vstd::utf8::has_width_1_encoding(c) {
        assert(((c & 0x7F) as u8) != 37u8) by (bit_vector)
            requires
                c != 37,
                c <= 0x7F,
        ;
    } else {
        assert(forall|x: u8| #![trigger (0xC0u8 | x)] (0xC0u8 | x) >= 0x80u8) by (bit_vector);
        assert(forall|x: u8| #![trigger (0xE0u8 | x)] (0xE0u8 | x) >= 0x80u8) by (bit_vector);
        assert(forall|x: u8| #![trigger (0xF0u8 | x)] (0xF0u8 | x) >= 0x80u8) by (bit_vector);
        assert(forall|x: u8| #![trigger (0x80u8 | x)] (0x80u8 | x) >= 0x80u8) by (bit_vector);
    }
}

proof fn lemma_encoding_without_percent(s: Seq<char>)
    requires
        forall|i: int| 0 <= i < s.len() ==> s[i] != '%',
    ensures
        forall|k: int| 0 <= k < vstd::utf8::encode_utf8(s).len() ==> #[trigger] vstd::utf8::encode_utf8(s)[k] != 37,
    decreases s.len(),
{
    if s.len() > 0 {
        lemma_encoding_without_percent(s.drop_first());
        vstd::utf8::char_is_scalar(s[0]);
        if (s[0] as u32) == 37 {
            vstd::utf8::char_u32_cast(s[0], 37);
            vstd::utf8::char_u32_cast('%', '%' as u32);
            assert(('%' as u32) == 37);
        }
        lemma_scalar_bytes_not_percent(s[0] as u32);
        let head = vstd::utf8::encode_scalar(s[0] as u32);
        let tail = vstd::utf8::encode_utf8(s.drop_first());
        assert(vstd::utf8::encode_utf8(s) == head + tail);
        assert forall|k: int| 0 <= k < (head + tail).len() implies #[trigger] (head + tail)[k] != 37 by {
            if k < head.len() {
                assert((head + tail)[k] == head[k]);
            } else {
                assert((head + tail)[k] == tail[k - head.len()]);
            }
        }
    }
}

proof fn lemma_percent_decode_bytes_plain(b: Seq<u8>)
    requires
        forall|k: int| 0 <= k < b.len() ==> b[k] != 37,
    ensures
        percent_decode_bytes(b) == b,
    decreases b.len(),
{
    if b.len() > 0 {
        lemma_percent_decode_bytes_plain(b.drop_first());
        assert(seq![b[0]] + b.drop_first() =~= b);
    }
}

/// Decoding a path without `%` gives the path back.
pub proof fn law_percent_decode_keeps_plain_paths(s: Seq<char>)
    requires
        forall|i: int| 0 <= i < s.len() ==> s[i] != '%',
    ensures
        decoded_path(s) == s,
{
    lemma_encoding_without_percent(s);
    lemma_percent_decode_bytes_plain(vstd::utf8::encode_utf8(s));
    vstd::utf8::encode_utf8_valid_utf8(s);
    vstd::utf8::encode_utf8_decode_utf8(s);
}

proof fn lemma_percent_decode_bytes_len(b: Seq<u8>)
    ensures
        percent_decode_bytes(b).len() <= b.len(),
    decreases b.len(),
{
    if b.len() > 0 {
        if b[0] == 37 && b.len() >= 3 && hex_value(b[1]) is Some && hex_value(b[2]) is Some {
            lemma_percent_decode_bytes_len(b.subrange(3, b.len() as int));
        } else {
            lemma_percent_decode_bytes_len(b.drop_first());
        }
    }
}

/// Decoding a path decodes each `%XX` escape of its UTF-8 bytes, and gives the
/// decoded text when those bytes are UTF-8, else the path itself; it never makes the
/// UTF-8 text longer, and a path without `%` comes back unchanged.
pub proof fn law_percent_decode(s: Seq<char>)
    ensures
        vstd::utf8::valid_utf8(percent_decode_bytes(vstd::utf8::encode_utf8(s)))
            ==> decoded_path(s) == vstd::utf8::decode_utf8(percent_decode_bytes(vstd::utf8::encode_utf8(s))),
        !vstd::utf8::valid_utf8(percent_decode_bytes(vstd::utf8::encode_utf8(s))) ==> decoded_path(s) == s,
        vstd::utf8::encode_utf8(decoded_path(s)).len() <= vstd::utf8::encode_utf8(s).len(),
        (forall|i: int| 0 <= i < s.len() ==> s[i] != '%') ==> decoded_path(s) == s,
{
    law_percent_decode_never_grows(s);
    if forall|i: int| 0 <= i < s.len() ==> s[i] != '%' {
        law_percent_decode_keeps_plain_paths(s);
    }
}

/// Decoding a path never makes its UTF-8 text longer.
pub proof fn law_percent_decode_never_grows(s: Seq<char>)
    ensures
        vstd::utf8::encode_utf8(decoded_path(s)).len() <= vstd::utf8::encode_utf8(s).len(),
{
    let b = vstd::utf8::encode_utf8(s);
    lemma_percent_decode_bytes_len(b);
    let d = percent_decode_bytes(b);
    if vstd::utf8::valid_utf8(d) {
        vstd::utf8::decode_utf8_encode_utf8(d);
    }
}

/// The viewer's name for a Cursor tool: known Cursor tools get the names of the
/// corresponding viewer tools, any other name is kept.
pub open spec fn mapped_tool_name(name: Seq<char>) -> Seq<char> {
    if name == "read_file"@ || name == "view_file"@ {
        "Read"@
    } else if name == "write_to_file"@ || name == "create_file"@ || name == "edit_file"@ {
        "Write"@
    } else if name == "execute_command"@ || name == "run_terminal_cmd"@ {
        "Bash"@
    } else if name == "list_directory"@ || name == "list_dir"@ {
        "Glob"@
    } else if name == "search_files"@ || name == "codebase_search"@ || name == "grep_search"@ {
        "Grep"@
    } else if name == "web_search"@ {
        "WebSearch"@
    } else if name == "web_fetch"@ || name == "fetch_url"@ {
        "WebFetch"@
    } else {
        name
    }
}

/// Maps a Cursor tool name to the viewer's tool name (see `mapped_tool_name`).
pub fn map_cursor_tool_name(name: &str) -> (r: &str)
    ensures
        r@ == mapped_tool_name(name@),
{
    if str_eq(name, "read_file") || str_eq(name, "view_file") {
        "Read"
    } else if str_eq(name, "write_to_file") || str_eq(name, "create_file") || str_eq(name, "edit_file") {
        "Write"
    } else if str_eq(name, "execute_command") || str_eq(name, "run_terminal_cmd") {
        "Bash"
    } else if str_eq(name, "list_directory") || str_eq(name, "list_dir") {
        "Glob"
    } else if str_eq(name, "search_files") || str_eq(name, "codebase_search") || str_eq(name, "grep_search") {
        "Grep"
    } else if str_eq(name, "web_search") {
        "WebSearch"
    } else if str_eq(name, "web_fetch") || str_eq(name, "fetch_url") {
        "WebFetch"
    } else {
        name
    }
}

/// A control character in the sense of `char::is_control`: general category `Cc`,
/// which is U+0000..=U+001F and U+007F..=U+009F.
pub open spec fn is_control_char(c: char) -> bool {
    (c as u32) <= 0x1f || (0x7f <= (c as u32) && (c as u32) <= 0x9f)
}

/// `s` with every control character other than newline, carriage return and tab
/// replaced by a space.
pub open spec fn sanitized(s: Seq<char>) -> Seq<char> {
    Seq::new(
        s.len(),
        |i: int|
            if is_control_char(s[i]) && s[i] != '\n' && s[i] != '\r' && s[i] != '\t' {
                ' '
            } else {
                s[i]
            },
    )
}

/// Replaces the control characters of `data` that JSON cannot hold by spaces.
fn sanitize_control_chars(data: &str) -> (r: String)
    ensures
        r@ == sanitized(data@),
{
    let cs = chars_of(data);
    let mut out = String::new();
    let mut i: usize = 0;
    while i < cs.len()
        invariant
            cs@ == data@,
            i <= cs@.len(),
            out@ == sanitized(data@).subrange(0, i as int),
        decreases cs.len() - i,
    {
        let c = cs[i];
        let code = c as u32;
        let control = code <= 0x1f || (0x7f <= code && code <= 0x9f);
        if control && c != '\n' && c != '\r' && c != '\t' {
            string_push(&mut out, ' ');
        } else {
            string_push(&mut out, c);
        }
        i = i + 1;
        assert(out@ =~= sanitized(data@).subrange(0, i as int));
    }
    assert(sanitized(data@).subrange(0, cs@.len() as int) =~= sanitized(data@));
    out
}

/// Parses a Cursor record, which may hold raw control characters: they are replaced
/// by spaces first. The error reports what `serde_json` found wrong.
pub fn parse_cursor_json(data: &str) -> (r: Result<Json, String>)
    ensures
        match r {
            Ok(v) => parsed_json(sanitized(data@)) == Some(v@),
            Err(e) => parsed_json(sanitized(data@)) is None
                && e@ == "JSON parse error: "@ + json_error_text(sanitized(data@)),
        },
{
    let clean = sanitize_control_chars(data);
    match parse_json(clean.as_str()) {
        Some(v) => Ok(v),
        None => {
            let detail = json_parse_error(clean.as_str());
            Err(concat("JSON parse error: ", detail.as_str()))
        },
    }
}

// ---------------------------------------------------------------------------
// Composers
// ---------------------------------------------------------------------------

/// A composer marked archived.
pub open spec fn archived(c: JsonView) -> bool {
    c.get_bool("isArchived"@) == Some(true)
}

/// The total token count a composer reports (0 when absent).
pub open spec fn total_tokens(c: JsonView) -> u64 {
    match member(c.get("promptTokenBreakdown"@), "totalUsedTokens"@) {
        Some(v) => match v.as_u64() {
            Some(n) => n,
            None => 0,
        },
        None => 0,
    }
}

/// A composer with conversation headers or with a token count.
pub open spec fn has_conversation(c: JsonView) -> bool {
    let has_headers = match c.get_array("fullConversationHeadersOnly"@) {
        Some(h) => h.len() > 0,
        None => false,
    };
    has_headers || total_tokens(c) > 0
}

/// The workspace id a composer names (`"unassigned"` when missing or empty).
pub open spec fn identity_id(c: JsonView) -> Seq<char> {
    match member(c.get("workspaceIdentifier"@), "id"@) {
        Some(v) => match v.as_str() {
            Some(id) => if id.len() > 0 { id } else { "unassigned"@ },
            None => "unassigned"@,
        },
        None => "unassigned"@,
    }
}

/// The folder a composer's workspace URI names: its `fsPath`, else its `path`
/// (empty when neither is present or the first present one is not a string).
pub open spec fn identity_folder(c: JsonView) -> Seq<char> {
    let uri = member(c.get("workspaceIdentifier"@), "uri"@);
    let p = match member(uri, "fsPath"@) {
        Some(v) => Some(v),
        None => member(uri, "path"@),
    };
    match p {
        Some(v) => match v.as_str() {
            Some(f) => f,
            None => Seq::empty(),
        },
        None => Seq::empty(),
    }
}

/// A workspace id that names no workspace.
pub open spec fn is_orphan_id(id: Seq<char>) -> bool {
    id.len() == 0 || id == "unassigned"@ || id == "empty-window"@
}

/// The bucket a workspace id falls in: every orphan id becomes `"unassigned"`.
pub open spec fn bucket_id(id: Seq<char>) -> Seq<char> {
    if is_orphan_id(id) { "unassigned"@ } else { id }
}

/// A positive timestamp.
pub open spec fn positive(t: Option<u64>) -> Option<u64> {
    match t {
        Some(v) => if v > 0 { Some(v) } else { None },
        None => None,
    }
}

/// A composer's time: its positive `lastUpdatedAt`, else its positive `createdAt`,
/// else 0 (milliseconds, read as doubles and truncated).
pub open spec fn composer_ms(c: JsonView) -> u64 {
    match positive(c.get_f64_truncated("lastUpdatedAt"@)) {
        Some(t) => t,
        None => match positive(c.get_f64_truncated("createdAt"@)) {
            Some(t) => t,
            None => 0,
        },
    }
}

/// Whether a composer is archived.
pub fn composer_is_archived(composer: &Json) -> (r: bool)
    ensures
        r == archived(composer@),
{
    match composer.get_bool("isArchived") {
        Some(b) => b,
        None => false,
    }
}

/// A composer's total token count.
fn composer_total_tokens(composer: &Json) -> (r: u64)
    ensures
        r == total_tokens(composer@),
{
    match composer.get("promptTokenBreakdown") {
        Some(b) => match b.get_u64("totalUsedTokens") {
            Some(n) => n,
            None => 0,
        },
        None => 0,
    }
}

/// Whether a composer holds a conversation.
pub fn composer_has_conversation(composer: &Json) -> (r: bool)
    ensures
        r == has_conversation(composer@),
{
    let has_headers = match composer.get_array("fullConversationHeadersOnly") {
        Some(h) => h.len() > 0,
        None => false,
    };
    has_headers || composer_total_tokens(composer) > 0
}

/// The workspace id and folder a composer names.
pub fn workspace_identity_from_composer(composer: &Json) -> (r: (String, String))
    ensures
        r.0@ == identity_id(composer@),
        r.1@ == identity_folder(composer@),
{
    let wi = composer.get("workspaceIdentifier");
    let id = match wi {
        Some(w) => match w.get_str("id") {
            Some(id) => if id.is_empty() { own("unassigned") } else { own(id) },
            None => own("unassigned"),
        },
        None => own("unassigned"),
    };
    let uri = match wi {
        Some(w) => w.get("uri"),
        None => None,
    };
    let p = match uri {
        Some(u) => match u.get("fsPath") {
            Some(v) => Some(v),
            None => u.get("path"),
        },
        None => None,
    };
    let folder = match p {
        Some(v) => match v.as_str() {
            Some(f) => own(f),
            None => String::new(),
        },
        None => String::new(),
    };
    (id, folder)
}

/// Whether a workspace id names no workspace.
pub fn is_orphan_workspace_id(workspace_id: &str) -> (r: bool)
    ensures
        r == is_orphan_id(workspace_id@),
{
    workspace_id.is_empty() || str_eq(workspace_id, "unassigned") || str_eq(workspace_id, "empty-window")
}

/// The bucket of a workspace id.
pub fn normalize_workspace_bucket_id(workspace_id: &str) -> (r: String)
    ensures
        r@ == bucket_id(workspace_id@),
{
    if is_orphan_workspace_id(workspace_id) {
        own("unassigned")
    } else {
        own(workspace_id)
    }
}

/// A composer's time in milliseconds (see `composer_ms`).
pub fn composer_timestamp_ms(composer: &Json) -> (r: u64)
    ensures
        r == composer_ms(composer@),
{
    match composer.get_f64_truncated("lastUpdatedAt") {
        Some(t) if t > 0 => t,
        _ => match composer.get_f64_truncated("createdAt") {
            Some(t) if t > 0 => t,
            _ => 0,
        },
    }
}

// ---------------------------------------------------------------------------
// Workspace folders
// ---------------------------------------------------------------------------

pub open spec fn is_ascii_char(c: char) -> bool {
    (c as u32) < 0x80
}

/// A character whose UTF-8 encoding takes two bytes.
pub open spec fn is_two_byte_char(c: char) -> bool {
    0x80 <= (c as u32) && (c as u32) < 0x800
}

/// A `file://` URI's path part on which the drive-letter test (a `:` as third byte)
/// would cut inside a character: a two-byte first character followed by `:`.
pub open spec fn cut_splits_char(s: Seq<char>) -> bool {
    s.len() >= 2 && is_two_byte_char(s[0]) && s[1] == ':'
}

/// The local path of a `file://` URI's path part: a Windows drive path
/// (`/C:/Users/...`, a `:` as third byte) loses its leading character.
pub open spec fn drive_path(s: Seq<char>) -> Seq<char> {
    if s.len() >= 3 && is_ascii_char(s[0]) && is_ascii_char(s[1]) && s[2] == ':' {
        s.drop_first()
    } else {
        s
    }
}

/// The path part of the `folder` URI of a `workspace.json` text: `None` when the text
/// is not JSON, has no string `folder`, or the folder is not a `file://` URI.
pub open spec fn folder_uri_path(workspace_json: Seq<char>) -> Option<Seq<char>> {
    match parsed_json(workspace_json) {
        Some(v) => match v.get_str("folder"@) {
            Some(f) => if has_prefix(f, "file://"@) {
                Some(f.subrange(7, f.len() as int))
            } else {
                None
            },
            None => None,
        },
        None => None,
    }
}

/// The folder a `workspace.json` names: its `folder` URI without `file://`, as a
/// local path, percent-decoded.
pub open spec fn folder_of(workspace_json: Seq<char>) -> Option<Seq<char>> {
    match folder_uri_path(workspace_json) {
        Some(p) => Some(decoded_path(drive_path(p))),
        None => None,
    }
}

/// The folder of a `workspace.json` text can be read without cutting inside a
/// character (see `cut_splits_char`).
pub open spec fn folder_cuts_cleanly(workspace_json: Seq<char>) -> bool {
    match folder_uri_path(workspace_json) {
        Some(p) => !cut_splits_char(p),
        None => true,
    }
}

/// `folder_cuts_cleanly` of a text that may be missing.
pub open spec fn folder_text_cuts_cleanly(workspace_json: Option<Seq<char>>) -> bool {
    match workspace_json {
        Some(t) => folder_cuts_cleanly(t),
        None => true,
    }
}

/// `folder_of` of a text that may be missing.
pub open spec fn folder_of_opt(workspace_json: Option<Seq<char>>) -> Option<Seq<char>> {
    match workspace_json {
        Some(t) => folder_of(t),
        None => None,
    }
}

/// The local path of a `file://` URI's path part (see `drive_path`).
fn local_drive_path(s: &str) -> (r: String)
    requires
        !cut_splits_char(s@),
    ensures
        r@ == drive_path(s@),
{
    let cs = chars_of(s);
    if cs.len() >= 3 && (cs[0] as u32) < 0x80 && (cs[1] as u32) < 0x80 && cs[2] == ':' {
        assert(cs@.subrange(1, cs@.len() as int) =~= s@.drop_first());
        string_of_range(&cs, 1, cs.len())
    } else {
        own(s)
    }
}

/// The path part of the `folder` URI of a `workspace.json` text (see
/// `folder_uri_path`).
fn folder_uri_path_of(workspace_json: &str) -> (r: Option<String>)
    ensures
        match r {
            Some(p) => folder_uri_path(workspace_json@) == Some(p@),
            None => folder_uri_path(workspace_json@) is None,
        },
{
    let v = match parse_json(workspace_json) {
        Some(v) => v,
        None => {
            return None;
        },
    };
    let f = match v.get_str("folder") {
        Some(f) => f,
        None => {
            return None;
        },
    };
    match str_strip_prefix(f, "file://") {
        Some(rest) => {
            assert("file://"@.len() == 7) by {
                reveal_strlit("file://");
            }
            Some(own(rest))
        },
        None => None,
    }
}

/// Whether the folder of a `workspace.json` text can be read without cutting inside
/// a character (see `folder_cuts_cleanly`).
pub fn folder_reads_cleanly(workspace_json: &str) -> (r: bool)
    ensures
        r == folder_cuts_cleanly(workspace_json@),
{
    match folder_uri_path_of(workspace_json) {
        Some(p) => {
            let cs = chars_of(p.as_str());
            !(cs.len() >= 2 && 0x80 <= (cs[0] as u32) && (cs[0] as u32) < 0x800 && cs[1] == ':')
        },
        None => true,
    }
}

/// The folder a `workspace.json` text names (see `folder_of`).
pub fn read_workspace_folder(workspace_json: &str) -> (r: Option<String>)
    requires
        folder_cuts_cleanly(workspace_json@),
    ensures
        match r {
            Some(f) => folder_of(workspace_json@) == Some(f@),
            None => folder_of(workspace_json@) is None,
        },
{
    match folder_uri_path_of(workspace_json) {
        Some(p) => {
            let local = local_drive_path(p.as_str());
            Some(percent_decode(local.as_str()))
        },
        None => None,
    }
}

/// The folder named by a `workspace.json` text that may be missing.
fn folder_of_text(workspace_json: &Option<String>) -> (r: Option<String>)
    requires
        folder_text_cuts_cleanly(opt_str(*workspace_json)),
    ensures
        match r {
            Some(f) => folder_of_opt(opt_str(*workspace_json)) == Some(f@),
            None => folder_of_opt(opt_str(*workspace_json)) is None,
        },
{
    match workspace_json {
        Some(t) => read_workspace_folder(t.as_str()),
        None => None,
    }
}

// ---------------------------------------------------------------------------
// Bubbles (messages)
// ---------------------------------------------------------------------------

/// The text of an epoch-milliseconds time (empty when it cannot be printed).
pub open spec fn iso_ms(ms: u64) -> Seq<char> {
    str_or(rfc3339_ms(ms), Seq::empty())
}

/// A non-empty text.
pub open spec fn non_empty(t: Option<Seq<char>>) -> Option<Seq<char>> {
    match t {
        Some(s) => if s.len() > 0 { Some(s) } else { None },
        None => None,
    }
}

/// The printed time of a numeric member, when it prints to a non-empty text.
pub open spec fn numeric_time(b: JsonView, key: Seq<char>) -> Option<Seq<char>> {
    match b.get_f64_truncated(key) {
        Some(ms) => non_empty(Some(iso_ms(ms))),
        None => None,
    }
}

/// A bubble's time: a non-empty `createdAt` or `timestamp` string, else a numeric
/// `createdAt` or `timestamp` (epoch milliseconds) printed, else empty.
pub open spec fn bubble_timestamp(b: JsonView) -> Seq<char> {
    match non_empty(b.get_str("createdAt"@)) {
        Some(t) => t,
        None => match non_empty(b.get_str("timestamp"@)) {
            Some(t) => t,
            None => match numeric_time(b, "createdAt"@) {
                Some(t) => t,
                None => match numeric_time(b, "timestamp"@) {
                    Some(t) => t,
                    None => Seq::empty(),
                },
            },
        },
    }
}

/// An image content block with base64 data.
pub open spec fn image_block(media: Seq<char>, data: Seq<char>) -> JsonView {
    obj(seq![
        ("type"@, jstr("image"@)),
        ("source"@, obj(seq![("type"@, jstr("base64"@)), ("media_type"@, jstr(media)), ("data"@, jstr(data))])),
    ])
}

/// The media type in the header of a data URI (`data:<mime>;...`), `image/png` when
/// the header has no `;`.
pub open spec fn data_uri_media(header: Seq<char>) -> Seq<char> {
    if has_prefix(header, "data:"@) {
        match split_first(header.subrange(5, header.len() as int), ";"@) {
            Some((mime, _)) => mime,
            None => "image/png"@,
        }
    } else {
        "image/png"@
    }
}

/// The image block of an attachment: a `data:image/...` URI with a `,` before its data.
pub open spec fn attachment_block(img: JsonView) -> Option<JsonView> {
    match img.as_str() {
        Some(url) => if has_prefix(url, "data:image/"@) {
            match split_first(url, ","@) {
                Some((header, data)) => Some(image_block(data_uri_media(header), data)),
                None => None,
            }
        } else {
            None
        },
        None => None,
    }
}

/// The image blocks of a bubble's attachments, in order.
pub open spec fn attachment_blocks(imgs: Seq<JsonView>) -> Seq<JsonView>
    decreases imgs.len(),
{
    if imgs.len() == 0 {
        Seq::empty()
    } else {
        let prev = attachment_blocks(imgs.drop_last());
        match attachment_block(imgs.last()) {
            Some(b) => prev.push(b),
            None => prev,
        }
    }
}

/// The content of a user bubble: its text (when not empty), then its images.
pub open spec fn user_blocks(b: JsonView, text: Seq<char>) -> Seq<JsonView> {
    let t: Seq<JsonView> = if text.len() > 0 { seq![text_block(text)] } else { Seq::empty() };
    match b.get_array("images"@) {
        Some(imgs) => t + attachment_blocks(imgs),
        None => t,
    }
}

/// `{"type": "tool_use", ...}` of a Cursor tool call.
pub open spec fn tool_use_of(id: Seq<char>, name: Seq<char>, input: JsonView) -> JsonView {
    obj(seq![("type"@, jstr("tool_use"@)), ("id"@, jstr(id)), ("name"@, jstr(name)), ("input"@, input)])
}

/// `{"type": "tool_result", ...}` of a Cursor tool call.
pub open spec fn tool_result_of(id: Seq<char>, text: Seq<char>, error: bool) -> JsonView {
    obj(seq![
        ("type"@, jstr("tool_result"@)),
        ("tool_use_id"@, jstr(id)),
        ("content"@, jstr(text)),
        ("is_error"@, JsonView::Bool(error)),
    ])
}

/// The arguments of a tool call: its `rawArgs` parsed, `{}` when absent or not JSON.
pub open spec fn tool_args(td: JsonView) -> JsonView {
    match parsed_json(str_or(td.get_str("rawArgs"@), "{}"@)) {
        Some(v) => v,
        None => JsonView::Object(Seq::empty()),
    }
}

/// The content of an assistant bubble: a tool call (with its text as the result), a
/// thought, or plain text.
pub open spec fn assistant_blocks(b: JsonView, text: Seq<char>, bubble_id: Seq<char>) -> Seq<JsonView> {
    match b.get("toolFormerData"@) {
        Some(td) => {
            let id = str_or(td.get_str("toolCallId"@), bubble_id);
            let status = str_or(td.get_str("status"@), "completed"@);
            let call = tool_use_of(id, mapped_tool_name(str_or(td.get_str("name"@), "unknown"@)), tool_args(td));
            if text.len() > 0 {
                seq![call, tool_result_of(id, text, status == "error"@ || status == "rejected"@)]
            } else {
                seq![call]
            }
        },
        None => if text.len() == 0 {
            Seq::empty()
        } else if b.get_bool("isThought"@) == Some(true) {
            seq![obj(seq![("type"@, jstr("thinking"@)), ("thinking"@, jstr(text))])]
        } else {
            seq![text_block(text)]
        },
    }
}

/// The message of a bubble of the given type (1: user, 2: assistant); `None` for
/// other types and for bubbles without content.
pub open spec fn bubble_message(b: JsonView, bubble_type: u64, session_id: Seq<char>) -> Option<MessageView> {
    let text = str_or(b.get_str("text"@), ""@);
    let id = str_or(b.get_str("bubbleId"@), "unknown"@);
    let ts = bubble_timestamp(b);
    if bubble_type == 1 {
        let blocks = user_blocks(b, text);
        if blocks.len() == 0 {
            None
        } else {
            Some(provider_message("cursor"@, id, session_id, ts, "user"@, Some("user"@),
                Some(JsonView::Array(blocks)), None))
        }
    } else if bubble_type == 2 {
        let blocks = assistant_blocks(b, text, id);
        if blocks.len() == 0 {
            None
        } else {
            Some(provider_message("cursor"@, id, session_id, ts, "assistant"@, Some("assistant"@),
                Some(JsonView::Array(blocks)), Some("cursor"@)))
        }
    } else {
        None
    }
}

/// The printed time of epoch milliseconds, empty when it cannot be printed.
pub fn ms_to_iso(ms: u64) -> (r: String)
    ensures
        r@ == iso_ms(ms),
{
    match ms_to_rfc3339(ms) {
        Some(t) => t,
        None => String::new(),
    }
}

fn numeric_time_of(b: &Json, key: &str) -> (r: Option<String>)
    ensures
        opt_str(r) == numeric_time(b@, key@),
{
    match b.get_f64_truncated(key) {
        Some(ms) => {
            let t = ms_to_iso(ms);
            if t.as_str().is_empty() { None } else { Some(t) }
        },
        None => None,
    }
}

/// A bubble's time (see `bubble_timestamp`).
pub fn extract_bubble_timestamp(bubble: &Json) -> (r: String)
    ensures
        r@ == bubble_timestamp(bubble@),
{
    match bubble.get_str("createdAt") {
        Some(t) if !t.is_empty() => {
            return own(t);
        },
        _ => {},
    }
    match bubble.get_str("timestamp") {
        Some(t) if !t.is_empty() => {
            return own(t);
        },
        _ => {},
    }
    match numeric_time_of(bubble, "createdAt") {
        Some(t) => {
            return t;
        },
        None => {},
    }
    match numeric_time_of(bubble, "timestamp") {
        Some(t) => t,
        None => String::new(),
    }
}

/// An image block (see `image_block`).
fn make_image_block(media: &str, data: &str) -> (r: Json)
    ensures
        r@ == image_block(media@, data@),
{
    let source = obj3("type", Json::string("base64"), "media_type", Json::string(media), "data", Json::string(data));
    obj2("type", Json::string("image"), "source", source)
}

/// The image block of an attachment (see `attachment_block`).
fn attachment_block_of(img: &Json) -> (r: Option<Json>)
    ensures
        opt_owned_view(r) == attachment_block(img@),
{
    let url = match img.as_str() {
        Some(u) => u,
        None => {
            return None;
        },
    };
    if !str_starts_with(url, "data:image/") {
        return None;
    }
    match str_split_once(url, ",") {
        Some((header, data)) => {
            let media = match str_strip_prefix(header, "data:") {
                Some(rest) => {
                    assert("data:"@.len() == 5) by {
                        reveal_strlit("data:");
                    }
                    match str_split_once(rest, ";") {
                        Some((mime, _)) => mime,
                        None => "image/png",
                    }
                },
                None => "image/png",
            };
            Some(make_image_block(media, data))
        },
        None => None,
    }
}

/// The content of a user bubble (see `user_blocks`).
fn user_blocks_of(bubble: &Json, text: &str) -> (r: Vec<Json>)
    ensures
        items_view(r@) == user_blocks(bubble@, text@),
{
    let mut blocks: Vec<Json> = Vec::new();
    if !text.is_empty() {
        blocks.push(make_text_block(text));
    }
    let ghost t = items_view(blocks@);
    assert(t =~= if text@.len() > 0 { seq![text_block(text@)] } else { Seq::<JsonView>::empty() });
    match bubble.get_array("images") {
        Some(imgs) => {
            let ghost iv = items_view(imgs@);
            let mut i: usize = 0;
            assert(iv.subrange(0, 0) =~= Seq::<JsonView>::empty());
            assert(items_view(blocks@) =~= t + attachment_blocks(iv.subrange(0, 0)));
            while i < imgs.len()
                invariant
                    iv == items_view(imgs@),
                    i <= imgs@.len(),
                    items_view(blocks@) == t + attachment_blocks(iv.subrange(0, i as int)),
                decreases imgs.len() - i,
            {
                proof {
                    assert(iv.subrange(0, i + 1).drop_last() =~= iv.subrange(0, i as int));
                    assert(iv.subrange(0, i + 1).last() == imgs@[i as int]@);
                }
                match attachment_block_of(&imgs[i]) {
                    Some(b) => {
                        let ghost before = items_view(blocks@);
                        blocks.push(b);
                        assert(items_view(blocks@) =~= before.push(b@));
                    },
                    None => {},
                }
                i = i + 1;
            }
            assert(iv.subrange(0, imgs@.len() as int) =~= iv);
        },
        None => {},
    }
    blocks
}

/// The content of an assistant bubble (see `assistant_blocks`).
fn assistant_blocks_of(bubble: &Json, text: &str, bubble_id: &str) -> (r: Vec<Json>)
    ensures
        items_view(r@) == assistant_blocks(bubble@, text@, bubble_id@),
{
    match bubble.get("toolFormerData") {
        Some(td) => {
            let name = str_or_default(td.get_str("name"), "unknown");
            let id = str_or_default(td.get_str("toolCallId"), bubble_id);
            let status = str_or_default(td.get_str("status"), "completed");
            let raw = str_or_default(td.get_str("rawArgs"), "{}");
            let args = match parse_json(raw) {
                Some(v) => v,
                None => {
                    let none: Vec<(String, Json)> = Vec::new();
                    assert(entries_view(none@) =~= Seq::<(Seq<char>, JsonView)>::empty());
                    Json::object(none)
                },
            };
            let call = obj4("type", Json::string("tool_use"), "id", Json::string(id), "name",
                Json::string(map_cursor_tool_name(name)), "input", args);
            let mut blocks: Vec<Json> = Vec::new();
            blocks.push(call);
            if !text.is_empty() {
                let error = str_eq(status, "error") || str_eq(status, "rejected");
                blocks.push(obj4("type", Json::string("tool_result"), "tool_use_id", Json::string(id), "content",
                    Json::string(text), "is_error", Json::Bool(error)));
            }
            assert(items_view(blocks@) =~= assistant_blocks(bubble@, text@, bubble_id@));
            blocks
        },
        None => {
            let mut blocks: Vec<Json> = Vec::new();
            if !text.is_empty() {
                let thought = match bubble.get_bool("isThought") {
                    Some(b) => b,
                    None => false,
                };
                if thought {
                    blocks.push(obj2("type", Json::string("thinking"), "thinking", Json::string(text)));
                } else {
                    blocks.push(make_text_block(text));
                }
            }
            assert(items_view(blocks@) =~= assistant_blocks(bubble@, text@, bubble_id@));
            blocks
        },
    }
}

/// The message of a Cursor bubble (see `bubble_message`).
pub fn convert_cursor_bubble(bubble: &Json, bubble_type: u64, session_id: &str) -> (r: Option<ClaudeMessage>)
    ensures
        match r {
            Some(m) => bubble_message(bubble@, bubble_type, session_id@) == Some(m@),
            None => bubble_message(bubble@, bubble_type, session_id@) is None,
        },
{
    let timestamp = extract_bubble_timestamp(bubble);
    let text = str_or_default(bubble.get_str("text"), "");
    let bubble_id = str_or_default(bubble.get_str("bubbleId"), "unknown");
    if bubble_type == 1 {
        convert_user_bubble(bubble, text, bubble_id, session_id, timestamp)
    } else if bubble_type == 2 {
        convert_assistant_bubble(bubble, text, bubble_id, session_id, timestamp)
    } else {
        None
    }
}

/// The message of a user bubble, `None` when it has neither text nor image.
pub fn convert_user_bubble(bubble: &Json, text: &str, bubble_id: &str, session_id: &str, timestamp: String)
    -> (r: Option<ClaudeMessage>)
    ensures
        match r {
            Some(m) => user_blocks(bubble@, text@).len() > 0 && m@ == provider_message("cursor"@, bubble_id@,
                session_id@, timestamp@, "user"@, Some("user"@), Some(JsonView::Array(user_blocks(bubble@, text@))), None),
            None => user_blocks(bubble@, text@).len() == 0,
        },
{
    let blocks = user_blocks_of(bubble, text);
    if blocks.len() == 0 {
        return None;
    }
    Some(build_provider_message("cursor", own(bubble_id), session_id, timestamp, "user", Some("user"),
        Some(Json::array(blocks)), None))
}

/// The message of an assistant bubble, `None` when it has neither tool call nor text.
pub fn convert_assistant_bubble(bubble: &Json, text: &str, bubble_id: &str, session_id: &str, timestamp: String)
    -> (r: Option<ClaudeMessage>)
    ensures
        match r {
            Some(m) => assistant_blocks(bubble@, text@, bubble_id@).len() > 0 && m@ == provider_message("cursor"@,
                bubble_id@, session_id@, timestamp@, "assistant"@, Some("assistant"@),
                Some(JsonView::Array(assistant_blocks(bubble@, text@, bubble_id@))), Some("cursor"@)),
            None => assistant_blocks(bubble@, text@, bubble_id@).len() == 0,
        },
{
    let blocks = assistant_blocks_of(bubble, text, bubble_id);
    if blocks.len() == 0 {
        return None;
    }
    Some(build_provider_message("cursor", own(bubble_id), session_id, timestamp, "assistant", Some("assistant"),
        Some(Json::array(blocks)), Some(own("cursor"))))
}

// ---------------------------------------------------------------------------
// Token usage and statistics messages
// ---------------------------------------------------------------------------

/// The message that carries a composer's token count: model `cursor`, the count as
/// input tokens, and the composer's time when it prints.
pub open spec fn with_composer_usage(m: MessageView, tokens: u32, stamp: Seq<char>) -> MessageView {
    MessageView {
        model: Some("cursor"@),
        usage: Some(input_only(tokens)),
        timestamp: if stamp.len() > 0 { stamp } else { m.timestamp },
        ..m
    }
}

/// The messages after a composer's token count is attached to the last assistant
/// message (unchanged when there is no message, no count or no assistant message).
pub open spec fn composer_usage(c: JsonView, ms: Seq<MessageView>) -> Seq<MessageView> {
    let k = last_assistant(ms);
    if ms.len() == 0 || total_tokens(c) == 0 || k < 0 {
        ms
    } else {
        ms.update(k, with_composer_usage(ms[k], cap_u32(total_tokens(c)), iso_ms(composer_ms(c))))
    }
}

/// Attaches a composer's token count to its last assistant message (see
/// `composer_usage`).
pub fn attach_composer_token_usage(composer: &Json, messages: &mut Vec<ClaudeMessage>)
    ensures
        messages_view(final(messages)@) == composer_usage(composer@, messages_view(old(messages)@)),
{
    if messages.len() == 0 {
        return;
    }
    let tokens = composer_total_tokens(composer);
    if tokens == 0 {
        return;
    }
    let capped = capped_u32(tokens);
    let stamp = ms_to_iso(composer_timestamp_ms(composer));
    match last_assistant_index(messages) {
        Some(k) => {
            let ghost before = messages@;
            let mut m = messages.remove(k);
            m.model = Some(own("cursor"));
            m.usage = Some(TokenUsage {
                input_tokens: Some(capped),
                output_tokens: None,
                cache_creation_input_tokens: None,
                cache_read_input_tokens: None,
            });
            if !stamp.as_str().is_empty() {
                m.timestamp = stamp;
            }
            proof {
                lemma_messages_replace(before, k as int, m);
            }
            messages.insert(k, m);
        },
        None => {},
    }
}

/// `[{"type": "text", "text": ""}]`: the content of messages that stand for a count.
pub open spec fn empty_text_content() -> JsonView {
    JsonView::Array(seq![text_block(Seq::empty())])
}

/// The placeholder assistant message that carries a composer's token count.
pub open spec fn usage_placeholder(composer_id: Seq<char>, stamp: Seq<char>) -> MessageView {
    provider_message("cursor"@, composer_id + "-usage"@, composer_id, stamp, "assistant"@, Some("assistant"@),
        Some(empty_text_content()), Some("cursor"@))
}

/// The statistics message of a conversation header at `index` (user or assistant
/// headers only).
pub open spec fn header_message(composer_id: Seq<char>, header: JsonView, index: nat, stamp: Seq<char>) -> Option<MessageView> {
    let t = match header.get_u64("type"@) {
        Some(t) => t,
        None => 0,
    };
    let uuid = composer_id + "-"@ + str_or(header.get_str("bubbleId"@), "stats"@) + "-"@ + decimal(index);
    if t == 1 {
        Some(provider_message("cursor"@, uuid, composer_id, stamp, "user"@, Some("user"@), Some(empty_text_content()), None))
    } else if t == 2 {
        Some(provider_message("cursor"@, uuid, composer_id, stamp, "assistant"@, Some("assistant"@),
            Some(empty_text_content()), Some("cursor"@)))
    } else {
        None
    }
}

/// The statistics messages of the first headers.
pub open spec fn header_messages(composer_id: Seq<char>, headers: Seq<JsonView>, stamp: Seq<char>) -> Seq<MessageView>
    decreases headers.len(),
{
    if headers.len() == 0 {
        Seq::empty()
    } else {
        let prev = header_messages(composer_id, headers.drop_last(), stamp);
        match header_message(composer_id, headers.last(), (headers.len() - 1) as nat, stamp) {
            Some(m) => prev.push(m),
            None => prev,
        }
    }
}

/// `ms`, followed by the usage placeholder when no message is an assistant message
/// and the composer holds a conversation.
pub open spec fn with_placeholder(c: JsonView, composer_id: Seq<char>, ms: Seq<MessageView>) -> Seq<MessageView> {
    if last_assistant(ms) == -1 && has_conversation(c) {
        ms.push(usage_placeholder(composer_id, iso_ms(composer_ms(c))))
    } else {
        ms
    }
}

/// The statistics messages of a composer: one empty message per user or assistant
/// header, a placeholder when none is an assistant's, and the token count on the
/// last assistant message.
pub open spec fn stats_messages(composer_id: Seq<char>, c: JsonView) -> Seq<MessageView> {
    let headers = match c.get_array("fullConversationHeadersOnly"@) {
        Some(h) => h,
        None => Seq::empty(),
    };
    let stamp = iso_ms(composer_ms(c));
    composer_usage(c, with_placeholder(c, composer_id, header_messages(composer_id, headers, stamp)))
}

/// `[{"type": "text", "text": ""}]`.
fn make_empty_text_content() -> (r: Json)
    ensures
        r@ == empty_text_content(),
{
    let items = vec![make_text_block("")];
    let r = Json::array(items);
    proof {
        reveal_strlit("");
        assert(""@ =~= Seq::<char>::empty());
    }
    assert(items_view(items@) =~= seq![text_block(Seq::empty())]);
    r
}

/// Appends the usage placeholder when it is due (see `with_placeholder`).
fn push_placeholder(composer: &Json, composer_id: &str, messages: &mut Vec<ClaudeMessage>)
    ensures
        messages_view(final(messages)@) == with_placeholder(composer@, composer_id@, messages_view(old(messages)@)),
{
    if last_assistant_index(messages).is_none() && composer_has_conversation(composer) {
        let stamp = ms_to_iso(composer_timestamp_ms(composer));
        let m = build_provider_message("cursor", concat(composer_id, "-usage"), composer_id, stamp, "assistant",
            Some("assistant"), Some(make_empty_text_content()), Some(own("cursor")));
        let ghost before = messages_view(messages@);
        messages.push(m);
        assert(messages_view(messages@) =~= before.push(m@));
    }
}

/// The statistics messages of a composer (see `stats_messages`).
pub fn stats_messages_from_composer(composer_id: &str, composer: &Json) -> (r: Vec<ClaudeMessage>)
    ensures
        messages_view(r@) == stats_messages(composer_id@, composer@),
{
    let stamp = ms_to_iso(composer_timestamp_ms(composer));
    let mut messages: Vec<ClaudeMessage> = Vec::new();
    match composer.get_array("fullConversationHeadersOnly") {
        Some(headers) => {
            let ghost hv = items_view(headers@);
            let mut i: usize = 0;
            assert(messages_view(messages@) =~= header_messages(composer_id@, hv.subrange(0, 0), stamp@));
            while i < headers.len()
                invariant
                    hv == items_view(headers@),
                    i <= headers@.len(),
                    stamp@ == iso_ms(composer_ms(composer@)),
                    messages_view(messages@) == header_messages(composer_id@, hv.subrange(0, i as int), stamp@),
                decreases headers.len() - i,
            {
                proof {
                    assert(hv.subrange(0, i + 1).drop_last() =~= hv.subrange(0, i as int));
                    assert(hv.subrange(0, i + 1).last() == headers@[i as int]@);
                }
                let header = &headers[i];
                let t = match header.get_u64("type") {
                    Some(t) => t,
                    None => 0,
                };
                if t == 1 || t == 2 {
                    let bubble_id = str_or_default(header.get_str("bubbleId"), "stats");
                    let a = concat(composer_id, "-");
                    let b = concat(a.as_str(), bubble_id);
                    let c = concat(b.as_str(), "-");
                    let index = decimal_string(i as u64);
                    let uuid = concat(c.as_str(), index.as_str());
                    let m = if t == 1 {
                        build_provider_message("cursor", uuid, composer_id, stamp.clone(), "user", Some("user"),
                            Some(make_empty_text_content()), None)
                    } else {
                        build_provider_message("cursor", uuid, composer_id, stamp.clone(), "assistant",
                            Some("assistant"), Some(make_empty_text_content()), Some(own("cursor")))
                    };
                    let ghost before = messages_view(messages@);
                    messages.push(m);
                    assert(messages_view(messages@) =~= before.push(m@));
                }
                i = i + 1;
            }
            assert(hv.subrange(0, headers@.len() as int) =~= hv);
        },
        None => {
            assert(messages_view(messages@) =~= header_messages(composer_id@, Seq::empty(), stamp@));
        },
    }
    push_placeholder(composer, composer_id, &mut messages);
    attach_composer_token_usage(composer, &mut messages);
    messages
}

// ---------------------------------------------------------------------------
// What the caller reads from disk
// ---------------------------------------------------------------------------

/// What a workspace's `state.vscdb` gives for its composer list.
pub enum StateDb {
    /// There is no `state.vscdb` file.
    Absent,
    /// The database could not be opened; the text is the database's error.
    OpenFailed(String),
    /// The database has no readable `composer.composerData` record.
    NoComposerData,
    /// The text of the `composer.composerData` record.
    ComposerData(String),
}

pub enum StateDbView {
    Absent,
    OpenFailed(Seq<char>),
    NoComposerData,
    ComposerData(Seq<char>),
}

impl View for StateDb {
    type V = StateDbView;

    open spec fn view(&self) -> StateDbView {
        match self {
            StateDb::Absent => StateDbView::Absent,
            StateDb::OpenFailed(e) => StateDbView::OpenFailed(e@),
            StateDb::NoComposerData => StateDbView::NoComposerData,
            StateDb::ComposerData(t) => StateDbView::ComposerData(t@),
        }
    }
}

/// The two files of a workspace directory that the viewer reads.
pub struct WorkspaceState {
    /// The text of `workspace.json`, when it could be read.
    pub workspace_json: Option<String>,
    pub state_db: StateDb,
}

pub struct WorkspaceStateView {
    pub workspace_json: Option<Seq<char>>,
    pub state_db: StateDbView,
}

impl View for WorkspaceState {
    type V = WorkspaceStateView;

    open spec fn view(&self) -> WorkspaceStateView {
        WorkspaceStateView { workspace_json: opt_str(self.workspace_json), state_db: self.state_db@ }
    }
}

/// One entry of `workspaceStorage/`.
pub struct WorkspaceDir {
    /// The entry's file name (the workspace id).
    pub name: String,
    /// The entry's path.
    pub path: String,
    /// Whether the path is a directory (following a symlink).
    pub is_dir: bool,
    /// Whether the entry itself is a symlink.
    pub is_symlink: bool,
    pub state: WorkspaceState,
}

pub struct WorkspaceDirView {
    pub name: Seq<char>,
    pub path: Seq<char>,
    pub is_dir: bool,
    pub is_symlink: bool,
    pub state: WorkspaceStateView,
}

impl View for WorkspaceDir {
    type V = WorkspaceDirView;

    open spec fn view(&self) -> WorkspaceDirView {
        WorkspaceDirView {
            name: self.name@,
            path: self.path@,
            is_dir: self.is_dir,
            is_symlink: self.is_symlink,
            state: self.state@,
        }
    }
}

pub open spec fn dirs_view(ds: Seq<WorkspaceDir>) -> Seq<WorkspaceDirView> {
    Seq::new(ds.len(), |i: int| ds[i]@)
}

/// The listing of `workspaceStorage/`.
pub enum WorkspaceListing {
    /// `workspaceStorage/` is not a directory.
    NotADirectory,
    /// The directory could not be listed; the text is the error.
    Unreadable(String),
    /// Its entries, in listing order.
    Entries(Vec<WorkspaceDir>),
}

pub enum WorkspaceListingView {
    NotADirectory,
    Unreadable(Seq<char>),
    Entries(Seq<WorkspaceDirView>),
}

impl View for WorkspaceListing {
    type V = WorkspaceListingView;

    open spec fn view(&self) -> WorkspaceListingView {
        match self {
            WorkspaceListing::NotADirectory => WorkspaceListingView::NotADirectory,
            WorkspaceListing::Unreadable(e) => WorkspaceListingView::Unreadable(e@),
            WorkspaceListing::Entries(ds) => WorkspaceListingView::Entries(dirs_view(ds@)),
        }
    }
}

/// The entries of a listing (none when it could not be listed).
pub open spec fn listing_entries(l: WorkspaceListingView) -> Seq<WorkspaceDirView> {
    match l {
        WorkspaceListingView::Entries(ds) => ds,
        _ => Seq::empty(),
    }
}

/// The `(key, value)` records of the global `cursorDiskKV` table that a query returned.
pub enum GlobalDb {
    /// `globalStorage/state.vscdb` is not a file.
    Absent,
    /// The database could not be opened or queried; the text is the whole error message.
    Failed(String),
    /// The records, in the order the query returned them.
    Rows(Vec<(String, String)>),
}

pub enum GlobalDbView {
    Absent,
    Failed(Seq<char>),
    Rows(Seq<(Seq<char>, Seq<char>)>),
}

pub open spec fn rows_view(rows: Seq<(String, String)>) -> Seq<(Seq<char>, Seq<char>)> {
    Seq::new(rows.len(), |i: int| (rows[i].0@, rows[i].1@))
}

impl View for GlobalDb {
    type V = GlobalDbView;

    open spec fn view(&self) -> GlobalDbView {
        match self {
            GlobalDb::Absent => GlobalDbView::Absent,
            GlobalDb::Failed(e) => GlobalDbView::Failed(e@),
            GlobalDb::Rows(r) => GlobalDbView::Rows(rows_view(r@)),
        }
    }
}

/// A Cursor installation as the project scan reads it: the global `composerData:*`
/// records, the workspace directories, and the directories of the global buckets.
pub struct CursorStore {
    pub global: GlobalDb,
    pub workspaces: WorkspaceListing,
    /// For each bucket id of the global records (see `bucket_ids`), what
    /// `workspaceStorage/` joined with that id reaches, named by the id.
    pub bucket_dirs: Vec<WorkspaceDir>,
}

pub struct CursorStoreView {
    pub global: GlobalDbView,
    pub workspaces: WorkspaceListingView,
    pub bucket_dirs: Seq<WorkspaceDirView>,
}

impl View for CursorStore {
    type V = CursorStoreView;

    open spec fn view(&self) -> CursorStoreView {
        CursorStoreView { global: self.global@, workspaces: self.workspaces@, bucket_dirs: dirs_view(self.bucket_dirs@) }
    }
}

// ---------------------------------------------------------------------------
// Workspace projects (the legacy per-workspace composer lists)
// ---------------------------------------------------------------------------

/// The composers a workspace database lists: none without a database or a record;
/// an error when the database cannot be opened or its record is not JSON.
pub open spec fn workspace_composers(db: StateDbView) -> Result<Seq<JsonView>, Seq<char>> {
    match db {
        StateDbView::Absent => Ok(Seq::empty()),
        StateDbView::OpenFailed(e) => Err("Failed to open workspace DB: "@ + e),
        StateDbView::NoComposerData => Ok(Seq::empty()),
        StateDbView::ComposerData(t) => match parsed_json(sanitized(t)) {
            Some(v) => match v.get_array("allComposers"@) {
                Some(cs) => Ok(cs),
                None => Ok(Seq::empty()),
            },
            None => Err("JSON parse error: "@ + json_error_text(sanitized(t))),
        },
    }
}

/// The composers that are not archived.
pub open spec fn active_count(cs: Seq<JsonView>) -> nat
    decreases cs.len(),
{
    if cs.len() == 0 {
        0
    } else {
        active_count(cs.drop_last()) + if archived(cs.last()) { 0nat } else { 1nat }
    }
}

/// The latest `lastUpdatedAt` of the composers that are not archived (0 when none).
pub open spec fn active_latest(cs: Seq<JsonView>) -> u64
    decreases cs.len(),
{
    if cs.len() == 0 {
        0
    } else {
        let m = active_latest(cs.drop_last());
        match cs.last().get_f64_truncated("lastUpdatedAt"@) {
            Some(t) => if !archived(cs.last()) && t > m { t } else { m },
            None => m,
        }
    }
}

/// The project of a workspace directory with a readable folder and at least one
/// composer in its own database.
pub open spec fn scanned_workspace(d: WorkspaceDirView) -> Option<ProjectView> {
    if d.is_symlink || !d.is_dir {
        None
    } else {
        match folder_of_opt(d.state.workspace_json) {
            Some(folder) => match workspace_composers(d.state.state_db) {
                Ok(cs) => if cs.len() == 0 {
                    None
                } else {
                    Some(ProjectView {
                        name: str_or(file_name(folder), Seq::empty()),
                        path: "cursor://"@ + d.path,
                        actual_path: folder,
                        session_count: active_count(cs) as usize,
                        message_count: 0,
                        last_modified: iso_ms(active_latest(cs)),
                        git_info: None,
                        provider: Some("cursor"@),
                        storage_type: Some("sqlite"@),
                        custom_directory_label: None,
                        entrypoint: None,
                    })
                },
                Err(_) => None,
            },
            None => None,
        }
    }
}

/// The projects of the workspace directories, in listing order.
pub open spec fn workspace_projects(ds: Seq<WorkspaceDirView>) -> Seq<ProjectView>
    decreases ds.len(),
{
    if ds.len() == 0 {
        Seq::empty()
    } else {
        let prev = workspace_projects(ds.drop_last());
        match scanned_workspace(ds.last()) {
            Some(p) => prev.push(p),
            None => prev,
        }
    }
}

/// The projects of a `workspaceStorage/` listing, newest first; an error when it
/// cannot be listed.
pub open spec fn listing_projects(l: WorkspaceListingView) -> Result<Seq<ProjectView>, Seq<char>> {
    match l {
        WorkspaceListingView::NotADirectory => Ok(Seq::empty()),
        WorkspaceListingView::Unreadable(e) => Err(e),
        WorkspaceListingView::Entries(ds) => Ok(newest_first(workspace_projects(ds))),
    }
}

/// The folder of a workspace directory that the workspace scan reads (a directory,
/// not a symlink) can be read without cutting inside a character.
pub open spec fn dir_folder_cuts_cleanly(d: WorkspaceDirView) -> bool {
    !d.is_symlink && d.is_dir ==> folder_text_cuts_cleanly(d.state.workspace_json)
}

/// `dir_folder_cuts_cleanly` of every entry of a listing.
pub open spec fn listing_folders_cut_cleanly(l: WorkspaceListingView) -> bool {
    forall|i: int| 0 <= i < listing_entries(l).len() ==> dir_folder_cuts_cleanly(#[trigger] listing_entries(l)[i])
}

/// The composers of a workspace database (see `workspace_composers`).
pub fn read_workspace_composers(db: &StateDb) -> (r: Result<Vec<Json>, String>)
    ensures
        match r {
            Ok(cs) => workspace_composers(db@) == Ok::<Seq<JsonView>, Seq<char>>(items_view(cs@)),
            Err(e) => workspace_composers(db@) == Err::<Seq<JsonView>, Seq<char>>(e@),
        },
{
    match db {
        StateDb::Absent => {
            let none: Vec<Json> = Vec::new();
            assert(items_view(none@) =~= Seq::<JsonView>::empty());
            Ok(none)
        },
        StateDb::OpenFailed(e) => Err(concat("Failed to open workspace DB: ", e.as_str())),
        StateDb::NoComposerData => {
            let none: Vec<Json> = Vec::new();
            assert(items_view(none@) =~= Seq::<JsonView>::empty());
            Ok(none)
        },
        StateDb::ComposerData(t) => {
            let v = parse_cursor_json(t.as_str())?;
            match v.get_array("allComposers") {
                Some(cs) => Ok(duplicate_items(cs)),
                None => {
                    let none: Vec<Json> = Vec::new();
                    assert(items_view(none@) =~= Seq::<JsonView>::empty());
                    Ok(none)
                },
            }
        },
    }
}

/// The project of one workspace directory (see `scanned_workspace`).
pub fn scan_workspace(d: &WorkspaceDir) -> (r: Option<ClaudeProject>)
    requires
        dir_folder_cuts_cleanly(d@),
    ensures
        match r {
            Some(p) => scanned_workspace(d@) == Some(p@),
            None => scanned_workspace(d@) is None,
        },
{
    if d.is_symlink || !d.is_dir {
        return None;
    }
    let folder = match folder_of_text(&d.state.workspace_json) {
        Some(f) => f,
        None => {
            return None;
        },
    };
    let composers = match read_workspace_composers(&d.state.state_db) {
        Ok(cs) => cs,
        Err(_) => {
            return None;
        },
    };
    if composers.len() == 0 {
        return None;
    }
    let ghost cv = items_view(composers@);
    let mut count: usize = 0;
    let mut latest: u64 = 0;
    let mut i: usize = 0;
    while i < composers.len()
        invariant
            cv == items_view(composers@),
            i <= composers@.len(),
            count == active_count(cv.subrange(0, i as int)),
            count <= i,
            latest == active_latest(cv.subrange(0, i as int)),
        decreases composers.len() - i,
    {
        proof {
            assert(cv.subrange(0, i + 1).drop_last() =~= cv.subrange(0, i as int));
            assert(cv.subrange(0, i + 1).last() == composers@[i as int]@);
        }
        let c = &composers[i];
        let active = !composer_is_archived(c);
        if active {
            count = count + 1;
        }
        match c.get_f64_truncated("lastUpdatedAt") {
            Some(t) => {
                if active && t > latest {
                    latest = t;
                }
            },
            None => {},
        }
        i = i + 1;
    }
    assert(cv.subrange(0, composers@.len() as int) =~= cv);
    let name = match path_file_name(folder.as_str()) {
        Some(n) => n,
        None => String::new(),
    };
    Some(ClaudeProject {
        name,
        path: concat("cursor://", d.path.as_str()),
        actual_path: folder,
        session_count: count,
        message_count: 0,
        last_modified: ms_to_iso(latest),
        git_info: None,
        provider: Some(own("cursor")),
        storage_type: Some(own("sqlite")),
        custom_directory_label: None,
        entrypoint: None,
    })
}

/// The projects of a `workspaceStorage/` listing, newest first (see
/// `listing_projects`).
pub fn scan_projects_in(listing: &WorkspaceListing) -> (r: Result<Vec<ClaudeProject>, String>)
    requires
        listing_folders_cut_cleanly(listing@),
    ensures
        match r {
            Ok(ps) => listing_projects(listing@) == Ok::<Seq<ProjectView>, Seq<char>>(projects_view(ps@)),
            Err(e) => listing_projects(listing@) == Err::<Seq<ProjectView>, Seq<char>>(e@),
        },
{
    match listing {
        WorkspaceListing::NotADirectory => {
            let none: Vec<ClaudeProject> = Vec::new();
            assert(projects_view(none@) =~= Seq::<ProjectView>::empty());
            Ok(none)
        },
        WorkspaceListing::Unreadable(e) => Err(e.clone()),
        WorkspaceListing::Entries(ds) => {
            let ghost dv = dirs_view(ds@);
            let mut out: Vec<ClaudeProject> = Vec::new();
            let mut i: usize = 0;
            assert(projects_view(out@) =~= workspace_projects(dv.subrange(0, 0)));
            assert(listing_entries(listing@) == dv);
            assert forall|k: int| 0 <= k < dv.len() implies dir_folder_cuts_cleanly(#[trigger] dv[k]) by {
                assert(dir_folder_cuts_cleanly(listing_entries(listing@)[k]));
            }
            while i < ds.len()
                invariant
                    dv == dirs_view(ds@),
                    i <= ds@.len(),
                    projects_view(out@) == workspace_projects(dv.subrange(0, i as int)),
                    forall|k: int| 0 <= k < dv.len() ==> dir_folder_cuts_cleanly(#[trigger] dv[k]),
                decreases ds.len() - i,
            {
                proof {
                    assert(dv.subrange(0, i + 1).drop_last() =~= dv.subrange(0, i as int));
                    assert(dv.subrange(0, i + 1).last() == ds@[i as int]@);
                    assert(dir_folder_cuts_cleanly(dv[i as int]));
                }
                match scan_workspace(&ds[i]) {
                    Some(p) => {
                        let ghost before = projects_view(out@);
                        out.push(p);
                        assert(projects_view(out@) =~= before.push(p@));
                    },
                    None => {},
                }
                i = i + 1;
            }
            assert(dv.subrange(0, ds@.len() as int) =~= dv);
            Ok(sort_projects_newest_first(out))
        },
    }
}

// ---------------------------------------------------------------------------
// Global projects (composers migrated to the global database)
// ---------------------------------------------------------------------------

/// The composer of a global `composerData:<id>` record, when it parses, is not
/// archived and holds a conversation.
pub open spec fn live_composer(row: (Seq<char>, Seq<char>)) -> Option<JsonView> {
    if has_prefix(row.0, "composerData:"@) {
        match parsed_json(sanitized(row.1)) {
            Some(c) => if !archived(c) && has_conversation(c) { Some(c) } else { None },
            None => None,
        }
    } else {
        None
    }
}

/// What the scan gathers per workspace bucket.
pub struct BucketView {
    pub id: Seq<char>,
    /// The first non-empty folder a composer of the bucket named.
    pub folder: Seq<char>,
    pub count: nat,
    pub last_ms: u64,
}

/// The index of the bucket `id`, or -1.
pub open spec fn bucket_index(bs: Seq<BucketView>, id: Seq<char>) -> int
    decreases bs.len(),
{
    if bs.len() == 0 {
        -1
    } else if bs.last().id == id {
        bs.len() - 1
    } else {
        bucket_index(bs.drop_last(), id)
    }
}

/// The buckets after one more live composer: its bucket counts it, keeps the later
/// time and takes its folder when it had none; a new bucket goes last.
pub open spec fn add_composer(bs: Seq<BucketView>, c: JsonView) -> Seq<BucketView> {
    let id = bucket_id(identity_id(c));
    let folder = identity_folder(c);
    let t = composer_ms(c);
    let k = bucket_index(bs, id);
    if k < 0 {
        bs.push(BucketView { id, folder, count: 1, last_ms: t })
    } else {
        let b = bs[k];
        bs.update(k, BucketView {
            id,
            folder: if b.folder.len() == 0 && folder.len() > 0 { folder } else { b.folder },
            count: b.count + 1,
            last_ms: if t > b.last_ms { t } else { b.last_ms },
        })
    }
}

/// The buckets of the global records, in order of first appearance.
pub open spec fn buckets(rows: Seq<(Seq<char>, Seq<char>)>) -> Seq<BucketView>
    decreases rows.len(),
{
    if rows.len() == 0 {
        Seq::empty()
    } else {
        let prev = buckets(rows.drop_last());
        match live_composer(rows.last()) {
            Some(c) => add_composer(prev, c),
            None => prev,
        }
    }
}

/// The first directory named `name`: a bucket's directory is the one that
/// `workspaceStorage/` joined with its id reaches (see `CursorStore::bucket_dirs`).
pub open spec fn dir_named(ds: Seq<WorkspaceDirView>, name: Seq<char>) -> Option<WorkspaceDirView>
    decreases ds.len(),
{
    if ds.len() == 0 {
        None
    } else if ds[0].name == name {
        Some(ds[0])
    } else {
        dir_named(ds.drop_first(), name)
    }
}

/// The project of a bucket: orphan composers gather under `Cursor`; a bucket whose
/// workspace directory exists takes that directory's folder; any other is named
/// after the folder its composers recorded.
pub open spec fn bucket_project(b: BucketView, ds: Seq<WorkspaceDirView>) -> ProjectView {
    let (path, actual, name) = if is_orphan_id(b.id) {
        ("cursor://workspace/unassigned"@, Seq::<char>::empty(), "Cursor"@)
    } else {
        match dir_named(ds, b.id) {
            Some(d) if d.is_dir => {
                let folder = match folder_of_opt(d.state.workspace_json) {
                    Some(f) => f,
                    None => b.folder,
                };
                let name = match non_empty(file_name(folder)) {
                    Some(n) => n,
                    None => match file_name(b.folder) {
                        Some(n) => n,
                        None => b.id,
                    },
                };
                ("cursor://"@ + d.path, folder, name)
            },
            _ => {
                let name = match non_empty(file_name(b.folder)) {
                    Some(n) => n,
                    None => b.id,
                };
                ("cursor://workspace/"@ + b.id, b.folder, name)
            },
        }
    };
    ProjectView {
        name,
        path,
        actual_path: actual,
        session_count: b.count as usize,
        message_count: 0,
        last_modified: iso_ms(b.last_ms),
        git_info: None,
        provider: Some("cursor"@),
        storage_type: Some("sqlite"@),
        custom_directory_label: None,
        entrypoint: None,
    }
}

/// One project per bucket, in bucket order.
pub open spec fn bucket_projects_of(bs: Seq<BucketView>, ds: Seq<WorkspaceDirView>) -> Seq<ProjectView>
    decreases bs.len(),
{
    if bs.len() == 0 {
        Seq::empty()
    } else {
        bucket_projects_of(bs.drop_last(), ds).push(bucket_project(bs.last(), ds))
    }
}

/// The projects of the global records, one per bucket, in bucket order.
pub open spec fn global_projects(rows: Seq<(Seq<char>, Seq<char>)>, ds: Seq<WorkspaceDirView>) -> Seq<ProjectView> {
    bucket_projects_of(buckets(rows), ds)
}

/// The folder that naming bucket `id` reads (that of its directory, when the bucket is
/// not an orphan and the directory exists) can be read without cutting inside a
/// character.
pub open spec fn bucket_folder_cuts_cleanly(ds: Seq<WorkspaceDirView>, id: Seq<char>) -> bool {
    !is_orphan_id(id) ==> match dir_named(ds, id) {
        Some(d) => d.is_dir ==> folder_text_cuts_cleanly(d.state.workspace_json),
        None => true,
    }
}

/// `bucket_folder_cuts_cleanly` of every bucket of the global records.
pub open spec fn global_folders_cut_cleanly(rows: Seq<(Seq<char>, Seq<char>)>, ds: Seq<WorkspaceDirView>) -> bool {
    forall|k: int| 0 <= k < buckets(rows).len() ==> bucket_folder_cuts_cleanly(ds, (#[trigger] buckets(rows)[k]).id)
}

/// The folders that the project scan of a Cursor installation reads can be read
/// without cutting inside a character: those of the global buckets, and, when there
/// are none, those of the workspace directories.
pub open spec fn store_folders_cut_cleanly(store: CursorStoreView) -> bool {
    match store.global {
        GlobalDbView::Failed(_) => true,
        GlobalDbView::Rows(rows) => global_folders_cut_cleanly(rows, store.bucket_dirs)
            && (buckets(rows).len() == 0 ==> listing_folders_cut_cleanly(store.workspaces)),
        GlobalDbView::Absent => listing_folders_cut_cleanly(store.workspaces),
    }
}

/// There is one project per bucket.
proof fn lemma_bucket_projects_len(bs: Seq<BucketView>, ds: Seq<WorkspaceDirView>)
    ensures
        bucket_projects_of(bs, ds).len() == bs.len(),
    decreases bs.len(),
{
    if bs.len() > 0 {
        lemma_bucket_projects_len(bs.drop_last(), ds);
    }
}

/// The projects of a Cursor installation, newest first: those of the global records,
/// or, when there are none, those of the workspace directories.
pub open spec fn cursor_projects(store: CursorStoreView) -> Result<Seq<ProjectView>, Seq<char>> {
    match store.global {
        GlobalDbView::Failed(e) => Err(e),
        GlobalDbView::Rows(rows) if global_projects(rows, store.bucket_dirs).len() > 0 =>
            Ok(newest_first(global_projects(rows, store.bucket_dirs))),
        _ => listing_projects(store.workspaces),
    }
}

/// A bucket being gathered.
struct Bucket {
    id: String,
    folder: String,
    count: usize,
    last_ms: u64,
}

impl View for Bucket {
    type V = BucketView;

    closed spec fn view(&self) -> BucketView {
        BucketView { id: self.id@, folder: self.folder@, count: self.count as nat, last_ms: self.last_ms }
    }
}

spec fn buckets_view(bs: Seq<Bucket>) -> Seq<BucketView> {
    Seq::new(bs.len(), |i: int| bs[i]@)
}

proof fn lemma_bucket_index(bs: Seq<BucketView>, id: Seq<char>)
    ensures
        -1 <= bucket_index(bs, id) < bs.len(),
        bucket_index(bs, id) >= 0 ==> bs[bucket_index(bs, id)].id == id,
    decreases bs.len(),
{
    if bs.len() > 0 && bs.last().id != id {
        lemma_bucket_index(bs.drop_last(), id);
    }
}

/// The first directory entry named `name` (see `dir_named`).
fn find_dir<'a>(ds: &'a Vec<WorkspaceDir>, name: &str) -> (r: Option<&'a WorkspaceDir>)
    ensures
        match r {
            Some(d) => dir_named(dirs_view(ds@), name@) == Some(d@),
            None => dir_named(dirs_view(ds@), name@) is None,
        },
{
    let ghost dv = dirs_view(ds@);
    let mut i: usize = 0;
    assert(dv.skip(0) =~= dv);
    while i < ds.len()
        invariant
            dv == dirs_view(ds@),
            i <= ds@.len(),
            dir_named(dv, name@) == dir_named(dv.skip(i as int), name@),
        decreases ds.len() - i,
    {
        assert(dv.skip(i as int)[0] == ds@[i as int]@);
        assert(dv.skip(i as int).drop_first() =~= dv.skip(i + 1));
        if str_eq(ds[i].name.as_str(), name) {
            return Some(&ds[i]);
        }
        i = i + 1;
    }
    None
}

/// The project of a bucket (see `bucket_project`).
fn make_bucket_project(b: &Bucket, ds: &Vec<WorkspaceDir>) -> (r: ClaudeProject)
    requires
        bucket_folder_cuts_cleanly(dirs_view(ds@), b@.id),
    ensures
        r@ == bucket_project(b@, dirs_view(ds@)),
{
    let (path, actual, name) = if is_orphan_workspace_id(b.id.as_str()) {
        (own("cursor://workspace/unassigned"), String::new(), own("Cursor"))
    } else {
        match find_dir(ds, b.id.as_str()) {
            Some(d) if d.is_dir => {
                let folder = match folder_of_text(&d.state.workspace_json) {
                    Some(f) => f,
                    None => b.folder.clone(),
                };
                let name = match path_file_name(folder.as_str()) {
                    Some(n) if !n.as_str().is_empty() => n,
                    _ => match path_file_name(b.folder.as_str()) {
                        Some(n) => n,
                        None => b.id.clone(),
                    },
                };
                (concat("cursor://", d.path.as_str()), folder, name)
            },
            _ => {
                let name = match path_file_name(b.folder.as_str()) {
                    Some(n) if !n.as_str().is_empty() => n,
                    _ => b.id.clone(),
                };
                (concat("cursor://workspace/", b.id.as_str()), b.folder.clone(), name)
            },
        }
    };
    ClaudeProject {
        name,
        path,
        actual_path: actual,
        session_count: b.count,
        message_count: 0,
        last_modified: ms_to_iso(b.last_ms),
        git_info: None,
        provider: Some(own("cursor")),
        storage_type: Some(own("sqlite")),
        custom_directory_label: None,
        entrypoint: None,
    }
}

/// The live composer of a global record (see `live_composer`).
fn live_composer_of(key: &str, value: &str) -> (r: Option<Json>)
    ensures
        opt_owned_view(r) == live_composer((key@, value@)),
{
    if !str_starts_with(key, "composerData:") {
        return None;
    }
    match parse_cursor_json(value) {
        Ok(c) => {
            if !composer_is_archived(&c) && composer_has_conversation(&c) {
                Some(c)
            } else {
                None
            }
        },
        Err(_) => None,
    }
}

/// Counts one live composer into the buckets (see `add_composer`).
fn add_to_buckets(bs: &mut Vec<Bucket>, c: &Json, bound: usize)
    requires
        forall|j: int| 0 <= j < old(bs)@.len() ==> #[trigger] old(bs)@[j].count < bound,
        old(bs)@.len() < bound,
    ensures
        buckets_view(final(bs)@) == add_composer(buckets_view(old(bs)@), c@),
        forall|j: int| 0 <= j < final(bs)@.len() ==> #[trigger] final(bs)@[j].count <= bound,
        final(bs)@.len() <= bound,
{
    let (raw_id, folder) = workspace_identity_from_composer(c);
    let id = normalize_workspace_bucket_id(raw_id.as_str());
    let t = composer_timestamp_ms(c);
    let ghost bv = buckets_view(bs@);
    let mut i = bs.len();
    assert(bv.subrange(0, i as int) =~= bv);
    while i > 0
        invariant
            bv == buckets_view(bs@),
            bs@ == old(bs)@,
            i <= bs@.len(),
            bucket_index(bv, id@) == bucket_index(bv.subrange(0, i as int), id@),
        ensures
            i == 0 || bv[i - 1].id == id@,
        decreases i,
    {
        assert(bv.subrange(0, i as int).last() == bs@[i - 1]@);
        if str_eq(bs[i - 1].id.as_str(), id.as_str()) {
            break;
        }
        assert(bv.subrange(0, i as int).drop_last() =~= bv.subrange(0, i - 1));
        i = i - 1;
    }
    if i == 0 {
        assert(bucket_index(bv.subrange(0, 0), id@) == -1);
        bs.push(Bucket { id, folder, count: 1, last_ms: t });
        assert(buckets_view(bs@) =~= add_composer(bv, c@));
        assert forall|j: int| 0 <= j < bs@.len() implies #[trigger] bs@[j].count <= bound by {
            if j < bs@.len() - 1 {
                assert(bs@[j] == old(bs)@[j]);
            }
        }
    } else {
        let k = i - 1;
        assert(bv.subrange(0, i as int).last() == bv[k as int]);
        assert(bucket_index(bv, id@) == k);
        let ghost b0 = bs@;
        let mut b = bs.remove(k);
        assert(b == b0[k as int]);
        if b.folder.as_str().is_empty() && !folder.as_str().is_empty() {
            b.folder = folder;
        }
        b.count = b.count + 1;
        if t > b.last_ms {
            b.last_ms = t;
        }
        b.id = id;
        bs.insert(k, b);
        assert(bs@ =~= b0.update(k as int, b));
        assert(buckets_view(bs@) =~= add_composer(bv, c@));
        assert forall|j: int| 0 <= j < bs@.len() implies #[trigger] bs@[j].count <= bound by {
            if j != k {
                assert(bs@[j] == b0[j]);
            }
        }
    }
}

/// The projects of the global records (see `global_projects`).
pub fn scan_projects_from_global(rows: &Vec<(String, String)>, bucket_dirs: &Vec<WorkspaceDir>) -> (r: Vec<ClaudeProject>)
    requires
        global_folders_cut_cleanly(rows_view(rows@), dirs_view(bucket_dirs@)),
    ensures
        projects_view(r@) == global_projects(rows_view(rows@), dirs_view(bucket_dirs@)),
{
    let ghost rv = rows_view(rows@);
    let bs = gather_buckets(rows);
    assert forall|j: int| 0 <= j < bs@.len() implies bucket_folder_cuts_cleanly(
        dirs_view(bucket_dirs@), (#[trigger] bs@[j])@.id) by {
        assert(buckets_view(bs@)[j] == bs@[j]@);
        assert(bucket_folder_cuts_cleanly(dirs_view(bucket_dirs@), buckets(rv)[j].id));
    }
    bucket_projects(&bs, bucket_dirs)
}

/// The bucket ids of the global records, in first-seen order (see `buckets`): the
/// ids whose `workspaceStorage/` directories a `CursorStore` holds.
pub fn bucket_ids(rows: &Vec<(String, String)>) -> (r: Vec<String>)
    ensures
        r@.len() == buckets(rows_view(rows@)).len(),
        forall|k: int| 0 <= k < r@.len() ==> (#[trigger] r@[k])@ == buckets(rows_view(rows@))[k].id,
{
    let bs = gather_buckets(rows);
    let mut out: Vec<String> = Vec::new();
    let mut j: usize = 0;
    while j < bs.len()
        invariant
            j <= bs@.len(),
            out@.len() == j,
            buckets_view(bs@) == buckets(rows_view(rows@)),
            forall|k: int| 0 <= k < j ==> (#[trigger] out@[k])@ == buckets(rows_view(rows@))[k].id,
        decreases bs.len() - j,
    {
        assert(buckets_view(bs@)[j as int] == bs@[j as int]@);
        out.push(bs[j].id.clone());
        j = j + 1;
    }
    out
}

/// The buckets of the global records, in first-seen order (see `buckets`).
fn gather_buckets(rows: &Vec<(String, String)>) -> (bs: Vec<Bucket>)
    ensures
        buckets_view(bs@) == buckets(rows_view(rows@)),
{
    let ghost rv = rows_view(rows@);
    let mut bs: Vec<Bucket> = Vec::new();
    let mut i: usize = 0;
    assert(buckets_view(bs@) =~= buckets(rv.subrange(0, 0)));
    while i < rows.len()
        invariant
            rv == rows_view(rows@),
            i <= rows@.len(),
            buckets_view(bs@) == buckets(rv.subrange(0, i as int)),
            forall|j: int| 0 <= j < bs@.len() ==> #[trigger] bs@[j].count <= i,
            bs@.len() <= i,
        decreases rows.len() - i,
    {
        proof {
            assert(rv.subrange(0, i + 1).drop_last() =~= rv.subrange(0, i as int));
            assert(rv.subrange(0, i + 1).last() == (rows@[i as int].0@, rows@[i as int].1@));
        }
        match live_composer_of(rows[i].0.as_str(), rows[i].1.as_str()) {
            Some(c) => add_to_buckets(&mut bs, &c, i + 1),
            None => {},
        }
        i = i + 1;
    }
    assert(rv.subrange(0, rows@.len() as int) =~= rv);
    bs
}

/// One project per bucket, in bucket order.
fn bucket_projects(bs: &Vec<Bucket>, ds: &Vec<WorkspaceDir>) -> (r: Vec<ClaudeProject>)
    requires
        forall|j: int| 0 <= j < bs@.len() ==> bucket_folder_cuts_cleanly(dirs_view(ds@), (#[trigger] bs@[j])@.id),
    ensures
        projects_view(r@) == bucket_projects_of(buckets_view(bs@), dirs_view(ds@)),
{
    let ghost bv = buckets_view(bs@);
    let mut out: Vec<ClaudeProject> = Vec::new();
    let mut j: usize = 0;
    while j < bs.len()
        invariant
            bv == buckets_view(bs@),
            j <= bs@.len(),
            projects_view(out@) == bucket_projects_of(bv.subrange(0, j as int), dirs_view(ds@)),
            forall|k: int| 0 <= k < bs@.len() ==> bucket_folder_cuts_cleanly(dirs_view(ds@), (#[trigger] bs@[k])@.id),
        decreases bs.len() - j,
    {
        assert(bucket_folder_cuts_cleanly(dirs_view(ds@), bs@[j as int]@.id));
        let p = make_bucket_project(&bs[j], ds);
        let ghost before = projects_view(out@);
        out.push(p);
        assert(bv.subrange(0, j + 1).drop_last() =~= bv.subrange(0, j as int));
        assert(bv.subrange(0, j + 1).last() == bs@[j as int]@);
        assert(projects_view(out@) =~= before.push(p@));
        j = j + 1;
    }
    assert(bv.subrange(0, bs@.len() as int) =~= bv);
    out
}

/// The projects of a Cursor installation, newest first (see `cursor_projects`).
pub fn scan_projects(store: &CursorStore) -> (r: Result<Vec<ClaudeProject>, String>)
    requires
        store_folders_cut_cleanly(store@),
    ensures
        match r {
            Ok(ps) => cursor_projects(store@) == Ok::<Seq<ProjectView>, Seq<char>>(projects_view(ps@)),
            Err(e) => cursor_projects(store@) == Err::<Seq<ProjectView>, Seq<char>>(e@),
        },
{
    match &store.global {
        GlobalDb::Failed(e) => {
            return Err(e.clone());
        },
        GlobalDb::Rows(rows) => {
            let ps = scan_projects_from_global(rows, &store.bucket_dirs);
            proof {
                lemma_bucket_projects_len(buckets(rows_view(rows@)), dirs_view(store.bucket_dirs@));
            }
            if ps.len() > 0 {
                return Ok(sort_projects_newest_first(ps));
            }
        },
        GlobalDb::Absent => {},
    }
    scan_projects_in(&store.workspaces)
}

/// Whether the folder the workspace scan reads of a directory can be read without
/// cutting inside a character (see `dir_folder_cuts_cleanly`).
fn dir_folder_reads_cleanly(d: &WorkspaceDir) -> (r: bool)
    ensures
        r == dir_folder_cuts_cleanly(d@),
{
    if d.is_symlink || !d.is_dir {
        return true;
    }
    match &d.state.workspace_json {
        Some(t) => folder_reads_cleanly(t.as_str()),
        None => true,
    }
}

/// Whether the folders of all entries of a listing can be read without cutting
/// inside a character (see `listing_folders_cut_cleanly`).
fn listing_folders_read_cleanly(listing: &WorkspaceListing) -> (r: bool)
    ensures
        r == listing_folders_cut_cleanly(listing@),
{
    match listing {
        WorkspaceListing::Entries(ds) => {
            let ghost dv = dirs_view(ds@);
            assert(listing_entries(listing@) == dv);
            let mut i: usize = 0;
            while i < ds.len()
                invariant
                    dv == dirs_view(ds@),
                    listing_entries(listing@) == dv,
                    i <= ds@.len(),
                    forall|k: int| 0 <= k < i ==> dir_folder_cuts_cleanly(#[trigger] dv[k]),
                decreases ds.len() - i,
            {
                if !dir_folder_reads_cleanly(&ds[i]) {
                    assert(!dir_folder_cuts_cleanly(listing_entries(listing@)[i as int]));
                    return false;
                }
                i = i + 1;
            }
            true
        },
        _ => true,
    }
}

/// Whether the folder that naming bucket `id` reads can be read without cutting
/// inside a character (see `bucket_folder_cuts_cleanly`).
fn bucket_folder_reads_cleanly(ds: &Vec<WorkspaceDir>, id: &str) -> (r: bool)
    ensures
        r == bucket_folder_cuts_cleanly(dirs_view(ds@), id@),
{
    if is_orphan_workspace_id(id) {
        return true;
    }
    match find_dir(ds, id) {
        Some(d) => {
            if !d.is_dir {
                return true;
            }
            match &d.state.workspace_json {
                Some(t) => folder_reads_cleanly(t.as_str()),
                None => true,
            }
        },
        None => true,
    }
}

/// Whether the folders that the project scan of a Cursor installation reads can be
/// read without cutting inside a character (see `store_folders_cut_cleanly`), the
/// condition `scan_projects` needs.
pub fn store_folders_read_cleanly(store: &CursorStore) -> (r: bool)
    ensures
        r == store_folders_cut_cleanly(store@),
{
    match &store.global {
        GlobalDb::Failed(_) => true,
        GlobalDb::Absent => listing_folders_read_cleanly(&store.workspaces),
        GlobalDb::Rows(rows) => {
            let ghost rv = rows_view(rows@);
            let bs = gather_buckets(rows);
            let ds = &store.bucket_dirs;
            assert(store@.global == GlobalDbView::Rows(rv));
            assert(buckets(rv).len() == bs@.len());
            let mut j: usize = 0;
            while j < bs.len()
                invariant
                    buckets_view(bs@) == buckets(rv),
                    buckets(rv).len() == bs@.len(),
                    rv == rows_view(rows@),
                    store@.global == GlobalDbView::Rows(rv),
                    dirs_view(ds@) == store@.bucket_dirs,
                    j <= bs@.len(),
                    forall|k: int| 0 <= k < j ==> bucket_folder_cuts_cleanly(dirs_view(ds@), (#[trigger] buckets(rv)[k]).id),
                decreases bs.len() - j,
            {
                assert(buckets_view(bs@)[j as int] == bs@[j as int]@);
                if !bucket_folder_reads_cleanly(ds, bs[j].id.as_str()) {
                    assert(!bucket_folder_cuts_cleanly(dirs_view(ds@), buckets(rv)[j as int].id));
                    return false;
                }
                j = j + 1;
            }
            assert(global_folders_cut_cleanly(rv, store@.bucket_dirs));
            if bs.len() == 0 {
                listing_folders_read_cleanly(&store.workspaces)
            } else {
                true
            }
        },
    }
}

// ---------------------------------------------------------------------------
// Sessions
// ---------------------------------------------------------------------------

/// `s` without the prefix `p`, or `s` when it does not start with `p`.
pub open spec fn strip_or_keep(s: Seq<char>, p: Seq<char>) -> Seq<char> {
    if has_prefix(s, p) { s.subrange(p.len() as int, s.len() as int) } else { s }
}

/// The part of `s` before its first `/`.
pub open spec fn first_segment(s: Seq<char>) -> Seq<char> {
    match split_first(s, "/"@) {
        Some((a, _)) => a,
        None => s,
    }
}

/// The session of a composer with a non-empty id that is not archived.
pub open spec fn composer_session(c: JsonView, project_name: Seq<char>) -> Option<SessionView> {
    match non_empty(c.get_str("composerId"@)) {
        Some(id) => if archived(c) {
            None
        } else {
            let created = composer_ms(c);
            let updated = match positive(c.get_f64_truncated("lastUpdatedAt"@)) {
                Some(u) => u,
                None => created,
            };
            Some(SessionView {
                session_id: "cursor://"@ + id,
                actual_session_id: id,
                file_path: "cursor://"@ + id,
                project_name,
                message_count: 0,
                first_message_time: iso_ms(created),
                last_message_time: iso_ms(updated),
                last_modified: iso_ms(updated),
                has_tool_use: str_or(c.get_str("unifiedMode"@), "chat"@) == "agent"@,
                has_errors: false,
                summary: Some(str_or(c.get_str("name"@), "Untitled"@)),
                is_renamed: false,
                provider: Some("cursor"@),
                storage_type: Some("sqlite"@),
                entrypoint: None,
            })
        },
        None => None,
    }
}

/// The sessions of some composers, in order.
pub open spec fn composer_sessions(cs: Seq<JsonView>, project_name: Seq<char>) -> Seq<SessionView>
    decreases cs.len(),
{
    if cs.len() == 0 {
        Seq::empty()
    } else {
        let prev = composer_sessions(cs.drop_last(), project_name);
        match composer_session(cs.last(), project_name) {
            Some(x) => prev.push(x),
            None => prev,
        }
    }
}

/// The index of the first entry with the key, or -1.
pub open spec fn entry_index(es: Seq<(Seq<char>, JsonView)>, key: Seq<char>) -> int
    decreases es.len(),
{
    if es.len() == 0 {
        -1
    } else if es[0].0 == key {
        0
    } else {
        let k = entry_index(es.drop_first(), key);
        if k < 0 { -1 } else { k + 1 }
    }
}

/// A global composer with its record's id as `composerId` when it has no string id
/// of its own (the member is replaced, or added last).
pub open spec fn with_composer_id(c: JsonView, id: Seq<char>) -> JsonView {
    if c.get_str("composerId"@) is Some {
        c
    } else {
        match c {
            JsonView::Object(es) => {
                let k = entry_index(es, "composerId"@);
                if k < 0 {
                    JsonView::Object(es.push(("composerId"@, jstr(id))))
                } else {
                    JsonView::Object(es.update(k, ("composerId"@, jstr(id))))
                }
            },
            _ => c,
        }
    }
}

/// The live global composers whose workspace falls in the bucket of `workspace_id`.
pub open spec fn global_composers(rows: Seq<(Seq<char>, Seq<char>)>, workspace_id: Seq<char>) -> Seq<JsonView>
    decreases rows.len(),
{
    if rows.len() == 0 {
        Seq::empty()
    } else {
        let prev = global_composers(rows.drop_last(), workspace_id);
        match live_composer(rows.last()) {
            Some(c) => if bucket_id(identity_id(c)) == bucket_id(workspace_id) {
                prev.push(with_composer_id(c, rows.last().0.subrange(13, rows.last().0.len() as int)))
            } else {
                prev
            },
            None => prev,
        }
    }
}

/// The global composers of a workspace; an error when the database failed.
pub open spec fn workspace_global_composers(global: GlobalDbView, workspace_id: Seq<char>) -> Result<Seq<JsonView>, Seq<char>> {
    match global {
        GlobalDbView::Absent => Ok(Seq::empty()),
        GlobalDbView::Failed(e) => Err(e),
        GlobalDbView::Rows(rows) => Ok(global_composers(rows, workspace_id)),
    }
}

/// The display name of a `cursor://` project path: `Cursor` for orphan buckets, the
/// workspace id for a `workspace/<id>` path, else the name of the folder that the
/// workspace's `workspace.json` names.
pub open spec fn project_display_name(project_path: Seq<char>, workspace_json: Option<Seq<char>>) -> Option<Seq<char>> {
    let ws = strip_or_keep(project_path, "cursor://"@);
    if has_prefix(ws, "workspace/"@) {
        let id = first_segment(ws.subrange(10, ws.len() as int));
        if is_orphan_id(id) { Some("Cursor"@) } else { Some(id) }
    } else {
        match folder_of_opt(workspace_json) {
            Some(f) => non_empty(file_name(f)),
            None => None,
        }
    }
}

/// The directory whose `workspace.json` and `state.vscdb` a project path refers to:
/// none for the `workspace/<id>` paths of global buckets.
pub open spec fn project_workspace_dir(project_path: Seq<char>) -> Option<Seq<char>> {
    let ws = strip_or_keep(project_path, "cursor://"@);
    if has_prefix(ws, "workspace/"@) { None } else { Some(ws) }
}

/// The folder that listing the sessions of a project reads (that of the workspace
/// directory an absolute path names) can be read without cutting inside a character.
pub open spec fn session_folder_cuts_cleanly(project_path: Seq<char>, files: WorkspaceStateView) -> bool {
    let ws = strip_or_keep(project_path, "cursor://"@);
    !has_prefix(ws, "workspace/"@) && has_prefix(ws, "/"@) ==> folder_text_cuts_cleanly(files.workspace_json)
}

/// The sessions of a project, newest first. A `workspace/<id>` path lists the global
/// composers of the bucket; a workspace directory (an absolute path) lists the
/// composers of its own database, or the global ones of its bucket when it has none.
pub open spec fn cursor_sessions(project_path: Seq<char>, files: WorkspaceStateView, global: GlobalDbView)
    -> Result<Seq<SessionView>, Seq<char>>
{
    let ws = strip_or_keep(project_path, "cursor://"@);
    let setup: Result<(Seq<char>, Seq<char>, Seq<JsonView>), Seq<char>> = if has_prefix(ws, "workspace/"@) {
        let id = first_segment(ws.subrange(10, ws.len() as int));
        Ok((bucket_id(id), if is_orphan_id(id) { "Cursor"@ } else { id }, Seq::empty()))
    } else if !has_prefix(ws, "/"@) {
        Err("Cursor workspace path must be absolute"@)
    } else {
        let name = match folder_of_opt(files.workspace_json) {
            Some(f) => str_or(file_name(f), "Cursor"@),
            None => "Cursor"@,
        };
        match workspace_composers(files.state_db) {
            Ok(legacy) => Ok((bucket_id(str_or(file_name(ws), Seq::empty())), name, legacy)),
            Err(e) => Err(e),
        }
    };
    match setup {
        Err(e) => Err(e),
        Ok((wid, name, legacy)) => {
            let composers = if legacy.len() == 0 { workspace_global_composers(global, wid) } else { Ok(legacy) };
            match composers {
                Ok(cs) => Ok(newest_first(composer_sessions(cs, name))),
                Err(e) => Err(e),
            }
        },
    }
}

/// `s` without the prefix `p`, or `s` itself.
fn strip_prefix_or_keep<'a>(s: &'a str, p: &str) -> (r: &'a str)
    ensures
        r@ == strip_or_keep(s@, p@),
{
    match str_strip_prefix(s, p) {
        Some(rest) => rest,
        None => s,
    }
}

/// The part of `s` before its first `/`.
fn first_segment_of(s: &str) -> (r: &str)
    ensures
        r@ == first_segment(s@),
{
    match str_split_once(s, "/") {
        Some((a, _)) => a,
        None => s,
    }
}

/// The session of a composer (see `composer_session`).
pub fn composer_to_session(composer: &Json, project_name: &str) -> (r: Option<ClaudeSession>)
    ensures
        match r {
            Some(x) => composer_session(composer@, project_name@) == Some(x@),
            None => composer_session(composer@, project_name@) is None,
        },
{
    let id = match composer.get_str("composerId") {
        Some(id) if !id.is_empty() => id,
        _ => {
            return None;
        },
    };
    if composer_is_archived(composer) {
        return None;
    }
    let name = str_or_default(composer.get_str("name"), "Untitled");
    let created = composer_timestamp_ms(composer);
    let updated = match composer.get_f64_truncated("lastUpdatedAt") {
        Some(u) if u > 0 => u,
        _ => created,
    };
    let mode = str_or_default(composer.get_str("unifiedMode"), "chat");
    Some(ClaudeSession {
        session_id: concat("cursor://", id),
        actual_session_id: own(id),
        file_path: concat("cursor://", id),
        project_name: own(project_name),
        message_count: 0,
        first_message_time: ms_to_iso(created),
        last_message_time: ms_to_iso(updated),
        last_modified: ms_to_iso(updated),
        has_tool_use: str_eq(mode, "agent"),
        has_errors: false,
        summary: Some(own(name)),
        is_renamed: false,
        provider: Some(own("cursor")),
        storage_type: Some(own("sqlite")),
        entrypoint: None,
    })
}

/// `c` with `composerId` set to `id` when it has no string id (see `with_composer_id`).
fn set_composer_id(c: Json, id: &str) -> (r: Json)
    ensures
        r@ == with_composer_id(c@, id@),
{
    if c.get_str("composerId").is_some() {
        return c;
    }
    let ghost cv = c@;
    match c {
        Json::Object(mut es) => {
            proof {
                lemma_object_view(es);
            }
            let ghost ev = entries_view(es@);
            let mut i: usize = 0;
            assert(ev.skip(0) =~= ev);
            while i < es.len()
                invariant
                    ev == entries_view(es@),
                    cv == JsonView::Object(ev),
                    cv == c@,
                    cv.get_str("composerId"@) is None,
                    i <= es@.len(),
                    entry_index(ev, "composerId"@) == if entry_index(ev.skip(i as int), "composerId"@) < 0 {
                        -1
                    } else {
                        entry_index(ev.skip(i as int), "composerId"@) + i
                    },
                decreases es.len() - i,
            {
                assert(ev.skip(i as int)[0] == ev[i as int]);
                assert(ev.skip(i as int).drop_first() =~= ev.skip(i + 1));
                if str_eq(es[i].0.as_str(), "composerId") {
                    assert(ev[i as int].0 == "composerId"@);
                    assert(entry_index(ev.skip(i as int), "composerId"@) == 0);
                    assert(entry_index(ev, "composerId"@) == i);
                    es.set(i, (own("composerId"), Json::string(id)));
                    let r = Json::object(es);
                    assert(entries_view(es@) =~= ev.update(i as int, ("composerId"@, jstr(id@))));
                    return r;
                }
                i = i + 1;
            }
            assert(entry_index(ev.skip(es@.len() as int), "composerId"@) == -1);
            es.push((own("composerId"), Json::string(id)));
            let r = Json::object(es);
            assert(entries_view(es@) =~= ev.push(("composerId"@, jstr(id@))));
            r
        },
        other => other,
    }
}

/// The live global composers of a workspace bucket (see `workspace_global_composers`).
pub fn read_global_composers_for_workspace(global: &GlobalDb, workspace_id: &str) -> (r: Result<Vec<Json>, String>)
    ensures
        match r {
            Ok(cs) => workspace_global_composers(global@, workspace_id@) == Ok::<Seq<JsonView>, Seq<char>>(items_view(cs@)),
            Err(e) => workspace_global_composers(global@, workspace_id@) == Err::<Seq<JsonView>, Seq<char>>(e@),
        },
{
    match global {
        GlobalDb::Absent => {
            let none: Vec<Json> = Vec::new();
            assert(items_view(none@) =~= Seq::<JsonView>::empty());
            Ok(none)
        },
        GlobalDb::Failed(e) => Err(e.clone()),
        GlobalDb::Rows(rows) => {
            let wanted = normalize_workspace_bucket_id(workspace_id);
            let ghost rv = rows_view(rows@);
            let mut out: Vec<Json> = Vec::new();
            let mut i: usize = 0;
            assert(items_view(out@) =~= global_composers(rv.subrange(0, 0), workspace_id@));
            while i < rows.len()
                invariant
                    rv == rows_view(rows@),
                    wanted@ == bucket_id(workspace_id@),
                    i <= rows@.len(),
                    items_view(out@) == global_composers(rv.subrange(0, i as int), workspace_id@),
                decreases rows.len() - i,
            {
                proof {
                    assert(rv.subrange(0, i + 1).drop_last() =~= rv.subrange(0, i as int));
                    assert(rv.subrange(0, i + 1).last() == (rows@[i as int].0@, rows@[i as int].1@));
                }
                let key = rows[i].0.as_str();
                match live_composer_of(key, rows[i].1.as_str()) {
                    Some(c) => {
                        let (raw, _) = workspace_identity_from_composer(&c);
                        let bucket = normalize_workspace_bucket_id(raw.as_str());
                        if str_eq(bucket.as_str(), wanted.as_str()) {
                            let cid = match str_strip_prefix(key, "composerData:") {
                                Some(rest) => rest,
                                None => key,
                            };
                            proof {
                                reveal_strlit("composerData:");
                            }
                            let ghost before = items_view(out@);
                            let with_id = set_composer_id(c, cid);
                            out.push(with_id);
                            assert(items_view(out@) =~= before.push(with_id@));
                        }
                    },
                    None => {},
                }
                i = i + 1;
            }
            assert(rv.subrange(0, rows@.len() as int) =~= rv);
            Ok(out)
        },
    }
}

/// The display name of a project path (see `project_display_name`); the caller
/// reads `workspace.json` in the directory `workspace_dir_of_project_path` names.
pub fn display_name_for_project_path(project_path: &str, workspace_json: Option<&str>) -> (r: Option<String>)
    requires
        !has_prefix(strip_or_keep(project_path@, "cursor://"@), "workspace/"@) ==> match workspace_json {
            Some(t) => folder_cuts_cleanly(t@),
            None => true,
        },
    ensures
        opt_str(r) == project_display_name(project_path@, match workspace_json {
            Some(t) => Some(t@),
            None => None,
        }),
{
    let ws = strip_prefix_or_keep(project_path, "cursor://");
    match str_strip_prefix(ws, "workspace/") {
        Some(rest) => {
            proof {
                reveal_strlit("workspace/");
            }
            let id = first_segment_of(rest);
            if is_orphan_workspace_id(id) {
                return Some(own("Cursor"));
            }
            if !id.is_empty() {
                return Some(own(id));
            }
            Some(own("Cursor"))
        },
        None => {
            let folder = match workspace_json {
                Some(t) => read_workspace_folder(t),
                None => None,
            };
            match folder {
                Some(f) => match path_file_name(f.as_str()) {
                    Some(n) if !n.as_str().is_empty() => Some(n),
                    _ => None,
                },
                None => None,
            }
        },
    }
}

/// The directory a project path refers to (see `project_workspace_dir`).
pub fn workspace_dir_of_project_path(project_path: &str) -> (r: Option<String>)
    ensures
        opt_str(r) == project_workspace_dir(project_path@),
{
    let ws = strip_prefix_or_keep(project_path, "cursor://");
    if str_starts_with(ws, "workspace/") { None } else { Some(own(ws)) }
}

/// The sessions of one composer list (see `composer_sessions`).
fn sessions_of_composers(cs: &Vec<Json>, project_name: &str) -> (r: Vec<ClaudeSession>)
    ensures
        sessions_view(r@) == composer_sessions(items_view(cs@), project_name@),
{
    let ghost cv = items_view(cs@);
    let mut out: Vec<ClaudeSession> = Vec::new();
    let mut i: usize = 0;
    assert(sessions_view(out@) =~= composer_sessions(cv.subrange(0, 0), project_name@));
    while i < cs.len()
        invariant
            cv == items_view(cs@),
            i <= cs@.len(),
            sessions_view(out@) == composer_sessions(cv.subrange(0, i as int), project_name@),
        decreases cs.len() - i,
    {
        proof {
            assert(cv.subrange(0, i + 1).drop_last() =~= cv.subrange(0, i as int));
            assert(cv.subrange(0, i + 1).last() == cs@[i as int]@);
        }
        match composer_to_session(&cs[i], project_name) {
            Some(x) => {
                let ghost before = sessions_view(out@);
                out.push(x);
                assert(sessions_view(out@) =~= before.push(x@));
            },
            None => {},
        }
        i = i + 1;
    }
    assert(cv.subrange(0, cs@.len() as int) =~= cv);
    out
}

/// The sessions of a Cursor project, newest first (see `cursor_sessions`). For a
/// workspace directory path the caller passes the directory's `workspace.json` and
/// `state.vscdb` (see `workspace_dir_of_project_path`); for a `workspace/<id>` path
/// they are not read.
pub fn load_sessions(project_path: &str, files: &WorkspaceState, global: &GlobalDb) -> (r: Result<Vec<ClaudeSession>, String>)
    requires
        session_folder_cuts_cleanly(project_path@, files@),
    ensures
        match r {
            Ok(ss) => cursor_sessions(project_path@, files@, global@) == Ok::<Seq<SessionView>, Seq<char>>(sessions_view(ss@)),
            Err(e) => cursor_sessions(project_path@, files@, global@) == Err::<Seq<SessionView>, Seq<char>>(e@),
        },
{
    let ws = strip_prefix_or_keep(project_path, "cursor://");
    let (workspace_id, project_name, legacy) = match str_strip_prefix(ws, "workspace/") {
        Some(rest) => {
            proof {
                reveal_strlit("workspace/");
            }
            let id = first_segment_of(rest);
            let workspace_id = normalize_workspace_bucket_id(id);
            let project_name = if is_orphan_workspace_id(workspace_id.as_str()) {
                own("Cursor")
            } else {
                match display_name_for_project_path(project_path, None) {
                    Some(n) => n,
                    None => workspace_id.clone(),
                }
            };
            let none: Vec<Json> = Vec::new();
            (workspace_id, project_name, none)
        },
        None => {
            if !str_starts_with(ws, "/") {
                return Err(own("Cursor workspace path must be absolute"));
            }
            let dir_name = match path_file_name(ws) {
                Some(n) => n,
                None => String::new(),
            };
            let workspace_id = normalize_workspace_bucket_id(dir_name.as_str());
            let project_name = match folder_of_text(&files.workspace_json) {
                Some(f) => match path_file_name(f.as_str()) {
                    Some(n) => n,
                    None => own("Cursor"),
                },
                None => own("Cursor"),
            };
            let legacy = read_workspace_composers(&files.state_db)?;
            (workspace_id, project_name, legacy)
        },
    };
    let composers = if legacy.len() == 0 {
        read_global_composers_for_workspace(global, workspace_id.as_str())?
    } else {
        legacy
    };
    Ok(sort_sessions_newest_first(sessions_of_composers(&composers, project_name.as_str())))
}

// ---------------------------------------------------------------------------
// Messages, statistics and search
// ---------------------------------------------------------------------------

pub open spec fn result_str(r: Result<String, String>) -> Result<Seq<char>, Seq<char>> {
    match r {
        Ok(t) => Ok(t@),
        Err(e) => Err(e@),
    }
}

/// The composer id of a session path (`cursor://<id>` or `<id>`).
pub open spec fn session_composer_id(session_path: Seq<char>) -> Seq<char> {
    strip_or_keep(session_path, "cursor://"@)
}

/// A composer from its `composerData` record; the record's error, or the parse error.
pub open spec fn composer_value(record: Result<Seq<char>, Seq<char>>) -> Result<JsonView, Seq<char>> {
    match record {
        Err(e) => Err(e),
        Ok(t) => match parsed_json(sanitized(t)) {
            Some(c) => Ok(c),
            None => Err("JSON parse error: "@ + json_error_text(sanitized(t))),
        },
    }
}

/// The statistics messages of a session: see `stats_messages`.
pub open spec fn session_stats(session_path: Seq<char>, record: Result<Seq<char>, Seq<char>>)
    -> Result<Seq<MessageView>, Seq<char>>
{
    match composer_value(record) {
        Ok(c) => Ok(stats_messages(session_composer_id(session_path), c)),
        Err(e) => Err(e),
    }
}

/// The value of the last record with the key.
pub open spec fn last_value(rows: Seq<(Seq<char>, Seq<char>)>, key: Seq<char>) -> Option<Seq<char>>
    decreases rows.len(),
{
    if rows.len() == 0 {
        None
    } else if rows.last().0 == key {
        Some(rows.last().1)
    } else {
        last_value(rows.drop_last(), key)
    }
}

/// The message of one conversation header, from the bubble records of the composer.
pub open spec fn header_bubble(composer_id: Seq<char>, header: JsonView, rows: Seq<(Seq<char>, Seq<char>)>) -> Option<MessageView> {
    match header.get_str("bubbleId"@) {
        Some(bid) => match last_value(rows, "bubbleId:"@ + composer_id + ":"@ + bid) {
            Some(data) => match parsed_json(sanitized(data)) {
                Some(b) => bubble_message(b, match header.get_u64("type"@) {
                    Some(t) => t,
                    None => 0,
                }, composer_id),
                None => None,
            },
            None => None,
        },
        None => None,
    }
}

/// The messages of the headers, in order.
pub open spec fn header_bubbles(composer_id: Seq<char>, headers: Seq<JsonView>, rows: Seq<(Seq<char>, Seq<char>)>)
    -> Seq<MessageView>
    decreases headers.len(),
{
    if headers.len() == 0 {
        Seq::empty()
    } else {
        let prev = header_bubbles(composer_id, headers.drop_last(), rows);
        match header_bubble(composer_id, headers.last(), rows) {
            Some(m) => prev.push(m),
            None => prev,
        }
    }
}

/// The messages of a session: one per conversation header whose bubble record parses
/// and has content, a placeholder when none is an assistant's, and the composer's
/// token count on the last assistant message. An error, in this order, when the
/// composer cannot be read, when the database cannot be opened again for the bubbles,
/// when the composer has no header list, or when the bubble records cannot be queried.
pub open spec fn session_messages(
    session_path: Seq<char>,
    record: Result<Seq<char>, Seq<char>>,
    connection: Result<(), Seq<char>>,
    bubbles: Result<Seq<(Seq<char>, Seq<char>)>, Seq<char>>,
) -> Result<Seq<MessageView>, Seq<char>> {
    let id = session_composer_id(session_path);
    match composer_value(record) {
        Err(e) => Err(e),
        Ok(c) => match connection {
            Err(e) => Err(e),
            Ok(()) => match c.get_array("fullConversationHeadersOnly"@) {
                None => Err("No conversation headers found"@),
                Some(headers) => match bubbles {
                    Err(e) => Err(e),
                    Ok(rows) => Ok(composer_usage(c, with_placeholder(c, id, header_bubbles(id, headers, rows)))),
                },
            },
        },
    }
}

/// The view of an outcome that carries no value.
pub open spec fn unit_result(r: Result<(), String>) -> Result<(), Seq<char>> {
    match r {
        Ok(()) => Ok(()),
        Err(e) => Err(e@),
    }
}

/// The composer id inside a `bubbleId:<composer>:<bubble>` key (empty without two `:`).
pub open spec fn key_composer_id(key: Seq<char>) -> Seq<char> {
    match split_first(key, ":"@) {
        Some((_, rest)) => match split_first(rest, ":"@) {
            Some((cid, _)) => cid,
            None => Seq::empty(),
        },
        None => Seq::empty(),
    }
}

/// The message of a bubble record, when it parses and has content.
pub open spec fn record_message(row: (Seq<char>, Seq<char>)) -> Option<MessageView> {
    match parsed_json(sanitized(row.1)) {
        Some(b) => bubble_message(b, match b.get_u64("type"@) {
            Some(t) => t,
            None => 0,
        }, key_composer_id(row.0)),
        None => None,
    }
}

/// The bubble records' messages that mention `q`, tagged with the project `Cursor`.
pub open spec fn bubble_hits(rows: Seq<(Seq<char>, Seq<char>)>, q: Seq<char>) -> Seq<MessageView>
    decreases rows.len(),
{
    if rows.len() == 0 {
        Seq::empty()
    } else {
        let prev = bubble_hits(rows.drop_last(), q);
        match record_message(rows.last()) {
            Some(m) => if message_matches(m, q) { prev.push(tagged(m, "Cursor"@)) } else { prev },
            None => prev,
        }
    }
}

/// The search result over bubble records: nothing for an empty query or a zero
/// limit, else the first `limit` hits.
pub open spec fn cursor_search(query: Seq<char>, limit: usize, rows: Seq<(Seq<char>, Seq<char>)>) -> Seq<MessageView> {
    if query.len() == 0 || limit == 0 {
        Seq::empty()
    } else {
        capped(bubble_hits(rows, lowercase(query)), limit)
    }
}

/// The display name of a workspace bucket: `Cursor` for orphans, else the name of
/// the folder its directory's `workspace.json` names, else the name of `folder`,
/// else the id.
pub open spec fn bucket_display_name(ds: Seq<WorkspaceDirView>, id: Seq<char>, folder: Seq<char>) -> Seq<char> {
    if is_orphan_id(id) {
        "Cursor"@
    } else {
        let from_dir = match dir_named(ds, id) {
            Some(d) => if d.is_dir {
                match folder_of_opt(d.state.workspace_json) {
                    Some(f) => non_empty(file_name(f)),
                    None => None,
                }
            } else {
                None
            },
            None => None,
        };
        match from_dir {
            Some(n) => n,
            None => match non_empty(file_name(folder)) {
                Some(n) => n,
                None => id,
            },
        }
    }
}

/// The folders that collecting the statistics sessions of the global records reads
/// can be read without cutting inside a character: those of the buckets of all live
/// composers (each is named before its messages are looked at).
pub open spec fn stats_folders_cut_cleanly(rows: Seq<(Seq<char>, Seq<char>)>, ds: Seq<WorkspaceDirView>) -> bool {
    forall|i: int| 0 <= i < rows.len() ==> match live_composer(#[trigger] rows[i]) {
        Some(c) => bucket_folder_cuts_cleanly(ds, bucket_id(identity_id(c))),
        None => true,
    }
}

/// The statistics sessions of the global records: for each live composer with at
/// least one statistics message, its project's display name (with ` [cursor]`) and
/// those messages.
pub open spec fn stats_sessions(rows: Seq<(Seq<char>, Seq<char>)>, ds: Seq<WorkspaceDirView>)
    -> Seq<(Seq<char>, Seq<MessageView>)>
    decreases rows.len(),
{
    if rows.len() == 0 {
        Seq::empty()
    } else {
        let prev = stats_sessions(rows.drop_last(), ds);
        let row = rows.last();
        match live_composer(row) {
            Some(c) => {
                let id = bucket_id(identity_id(c));
                let ms = stats_messages(row.0.subrange(13, row.0.len() as int), c);
                if ms.len() > 0 {
                    prev.push((bucket_display_name(ds, id, identity_folder(c)) + " [cursor]"@, ms))
                } else {
                    prev
                }
            },
            None => prev,
        }
    }
}

/// The composer id of a session path (see `session_composer_id`).
pub fn composer_id_of(session_path: &str) -> (r: String)
    ensures
        r@ == session_composer_id(session_path@),
{
    own(strip_prefix_or_keep(session_path, "cursor://"))
}

/// A composer from its record (see `composer_value`).
fn load_composer_value(record: &Result<String, String>) -> (r: Result<Json, String>)
    ensures
        match r {
            Ok(c) => composer_value(result_str(*record)) == Ok::<JsonView, Seq<char>>(c@),
            Err(e) => composer_value(result_str(*record)) == Err::<JsonView, Seq<char>>(e@),
        },
{
    match record {
        Err(e) => Err(e.clone()),
        Ok(t) => parse_cursor_json(t.as_str()),
    }
}

/// The statistics messages of a session (see `session_stats`): the caller passes the
/// session's `composerData` record, or the error reading it.
pub fn load_stats_messages(session_path: &str, record: &Result<String, String>) -> (r: Result<Vec<ClaudeMessage>, String>)
    ensures
        match r {
            Ok(ms) => session_stats(session_path@, result_str(*record)) == Ok::<Seq<MessageView>, Seq<char>>(messages_view(ms@)),
            Err(e) => session_stats(session_path@, result_str(*record)) == Err::<Seq<MessageView>, Seq<char>>(e@),
        },
{
    let composer_id = composer_id_of(session_path);
    let composer = load_composer_value(record)?;
    Ok(stats_messages_from_composer(composer_id.as_str(), &composer))
}

/// The value of the last record with the key (see `last_value`).
fn find_last_value<'a>(rows: &'a Vec<(String, String)>, key: &str) -> (r: Option<&'a str>)
    ensures
        match r {
            Some(v) => last_value(rows_view(rows@), key@) == Some(v@),
            None => last_value(rows_view(rows@), key@) is None,
        },
{
    let ghost rv = rows_view(rows@);
    let mut i = rows.len();
    assert(rv.subrange(0, i as int) =~= rv);
    while i > 0
        invariant
            rv == rows_view(rows@),
            i <= rows@.len(),
            last_value(rv, key@) == last_value(rv.subrange(0, i as int), key@),
        decreases i,
    {
        assert(rv.subrange(0, i as int).last() == (rows@[i - 1].0@, rows@[i - 1].1@));
        if str_eq(rows[i - 1].0.as_str(), key) {
            return Some(rows[i - 1].1.as_str());
        }
        assert(rv.subrange(0, i as int).drop_last() =~= rv.subrange(0, i - 1));
        i = i - 1;
    }
    None
}

/// The message of one conversation header (see `header_bubble`).
fn header_bubble_of(composer_id: &str, header: &Json, rows: &Vec<(String, String)>) -> (r: Option<ClaudeMessage>)
    ensures
        match r {
            Some(m) => header_bubble(composer_id@, header@, rows_view(rows@)) == Some(m@),
            None => header_bubble(composer_id@, header@, rows_view(rows@)) is None,
        },
{
    let bid = match header.get_str("bubbleId") {
        Some(b) => b,
        None => {
            return None;
        },
    };
    let t = match header.get_u64("type") {
        Some(t) => t,
        None => 0,
    };
    let a = concat("bubbleId:", composer_id);
    let b = concat(a.as_str(), ":");
    let key = concat(b.as_str(), bid);
    let data = match find_last_value(rows, key.as_str()) {
        Some(d) => d,
        None => {
            return None;
        },
    };
    match parse_cursor_json(data) {
        Ok(bubble) => convert_cursor_bubble(&bubble, t, composer_id),
        Err(_) => None,
    }
}

/// The messages of a session (see `session_messages`): the caller passes the
/// session's `composerData` record, the outcome of opening the database again for
/// the bubbles (with its busy timeout), and the composer's `bubbleId:<id>:*` records,
/// or the errors reading them.
#[verifier::rlimit(30)]
pub fn load_messages(
    session_path: &str,
    record: &Result<String, String>,
    connection: &Result<(), String>,
    bubbles: &Result<Vec<(String, String)>, String>,
) -> (r: Result<Vec<ClaudeMessage>, String>)
    ensures
        match r {
            Ok(ms) => session_messages(session_path@, result_str(*record), unit_result(*connection), match bubbles {
                Ok(rows) => Ok(rows_view(rows@)),
                Err(e) => Err(e@),
            }) == Ok::<Seq<MessageView>, Seq<char>>(messages_view(ms@)),
            Err(e) => session_messages(session_path@, result_str(*record), unit_result(*connection), match bubbles {
                Ok(rows) => Ok(rows_view(rows@)),
                Err(e) => Err(e@),
            }) == Err::<Seq<MessageView>, Seq<char>>(e@),
        },
{
    let composer_id = composer_id_of(session_path);
    let composer = load_composer_value(record)?;
    match connection {
        Ok(()) => {},
        Err(e) => {
            return Err(e.clone());
        },
    }
    let headers = match composer.get_array("fullConversationHeadersOnly") {
        Some(h) => h,
        None => {
            return Err(own("No conversation headers found"));
        },
    };
    let rows = match bubbles {
        Ok(rows) => rows,
        Err(e) => {
            return Err(e.clone());
        },
    };
    let ghost hv = items_view(headers@);
    let mut messages: Vec<ClaudeMessage> = Vec::new();
    let mut i: usize = 0;
    assert(messages_view(messages@) =~= header_bubbles(composer_id@, hv.subrange(0, 0), rows_view(rows@)));
    while i < headers.len()
        invariant
            hv == items_view(headers@),
            i <= headers@.len(),
            messages_view(messages@) == header_bubbles(composer_id@, hv.subrange(0, i as int), rows_view(rows@)),
        decreases headers.len() - i,
    {
        proof {
            assert(hv.subrange(0, i + 1).drop_last() =~= hv.subrange(0, i as int));
            assert(hv.subrange(0, i + 1).last() == headers@[i as int]@);
        }
        match header_bubble_of(composer_id.as_str(), &headers[i], rows) {
            Some(m) => {
                let ghost before = messages_view(messages@);
                messages.push(m);
                assert(messages_view(messages@) =~= before.push(m@));
            },
            None => {},
        }
        i = i + 1;
    }
    assert(hv.subrange(0, headers@.len() as int) =~= hv);
    push_placeholder(&composer, composer_id.as_str(), &mut messages);
    attach_composer_token_usage(&composer, &mut messages);
    Ok(messages)
}

/// The composer id inside a bubble key (see `key_composer_id`).
fn key_composer_id_of(key: &str) -> (r: &str)
    ensures
        r@ == key_composer_id(key@),
{
    proof {
        reveal_strlit("");
    }
    match str_split_once(key, ":") {
        Some((_, rest)) => match str_split_once(rest, ":") {
            Some((cid, _)) => cid,
            None => "",
        },
        None => "",
    }
}

/// The message of a bubble record (see `record_message`).
fn record_message_of(key: &str, data: &str) -> (r: Option<ClaudeMessage>)
    ensures
        match r {
            Some(m) => record_message((key@, data@)) == Some(m@),
            None => record_message((key@, data@)) is None,
        },
{
    let bubble = match parse_cursor_json(data) {
        Ok(b) => b,
        Err(_) => {
            return None;
        },
    };
    let cid = key_composer_id_of(key);
    let t = match bubble.get_u64("type") {
        Some(t) => t,
        None => 0,
    };
    convert_cursor_bubble(&bubble, t, cid)
}

proof fn lemma_bubble_hits_prefix(rows: Seq<(Seq<char>, Seq<char>)>, k: int, q: Seq<char>)
    requires
        0 <= k <= rows.len(),
    ensures
        bubble_hits(rows.take(k), q).is_prefix_of(bubble_hits(rows, q)),
    decreases rows.len(),
{
    if k == rows.len() {
        assert(rows.take(k) =~= rows);
        assert(bubble_hits(rows, q).take(bubble_hits(rows, q).len() as int) =~= bubble_hits(rows, q));
    } else {
        assert(rows.drop_last().take(k) =~= rows.take(k));
        lemma_bubble_hits_prefix(rows.drop_last(), k, q);
        let prev = bubble_hits(rows.drop_last(), q);
        assert(prev.is_prefix_of(bubble_hits(rows, q))) by {
            assert(bubble_hits(rows, q).take(prev.len() as int) =~= prev);
        }
        lemma_prefix_trans(bubble_hits(rows.take(k), q), prev, bubble_hits(rows, q));
    }
}

/// Searches bubble records for `query` (ignoring case): the messages whose content
/// mentions it, tagged with the project `Cursor`, at most `limit` of them (see
/// `cursor_search`). The caller passes the `bubbleId:*` records whose text contains
/// the query.
pub fn search(query: &str, limit: usize, rows: &Vec<(String, String)>) -> (r: Vec<ClaudeMessage>)
    ensures
        messages_view(r@) == cursor_search(query@, limit, rows_view(rows@)),
{
    let mut results: Vec<ClaudeMessage> = Vec::new();
    if query.is_empty() || limit == 0 {
        assert(messages_view(results@) =~= Seq::<MessageView>::empty());
        return results;
    }
    let q = str_to_lowercase(query);
    let ghost rv = rows_view(rows@);
    let ghost all = bubble_hits(rv, q@);
    let mut i: usize = 0;
    assert(rv.take(0) =~= Seq::<(Seq<char>, Seq<char>)>::empty());
    assert(messages_view(results@) =~= bubble_hits(rv.take(0), q@));
    while i < rows.len()
        invariant
            rv == rows_view(rows@),
            all == bubble_hits(rv, q@),
            q@ == lowercase(query@),
            limit > 0,
            query@.len() > 0,
            i <= rows@.len(),
            messages_view(results@) == bubble_hits(rv.take(i as int), q@),
            results@.len() < limit,
        decreases rows.len() - i,
    {
        proof {
            assert(rv.take(i + 1).drop_last() =~= rv.take(i as int));
            assert(rv.take(i + 1).last() == (rows@[i as int].0@, rows@[i as int].1@));
        }
        match record_message_of(rows[i].0.as_str(), rows[i].1.as_str()) {
            Some(m) => {
                let hit = match &m.content {
                    Some(c) => json_mentions(c, q.as_str()),
                    None => false,
                };
                if hit {
                    let ghost before = messages_view(results@);
                    results.push(with_project_name(&m, "Cursor"));
                    assert(messages_view(results@) =~= bubble_hits(rv.take(i + 1), q@));
                    if results.len() >= limit {
                        proof {
                            lemma_bubble_hits_prefix(rv, i + 1, q@);
                            lemma_capped_prefix(messages_view(results@), all, limit);
                        }
                        return results;
                    }
                } else {
                    assert(messages_view(results@) =~= bubble_hits(rv.take(i + 1), q@));
                }
            },
            None => {
                assert(messages_view(results@) =~= bubble_hits(rv.take(i + 1), q@));
            },
        }
        i = i + 1;
    }
    assert(rv.take(rows@.len() as int) =~= rv);
    results
}

/// The display name of a workspace bucket (see `bucket_display_name`).
pub fn resolve_project_display_name(ds: &Vec<WorkspaceDir>, workspace_id: &str, folder_path: &str) -> (r: String)
    requires
        bucket_folder_cuts_cleanly(dirs_view(ds@), workspace_id@),
    ensures
        r@ == bucket_display_name(dirs_view(ds@), workspace_id@, folder_path@),
{
    if is_orphan_workspace_id(workspace_id) {
        return own("Cursor");
    }
    match find_dir(ds, workspace_id) {
        Some(d) => {
            if d.is_dir {
                match folder_of_text(&d.state.workspace_json) {
                    Some(f) => match path_file_name(f.as_str()) {
                        Some(n) => {
                            if !n.as_str().is_empty() {
                                return n;
                            }
                        },
                        None => {},
                    },
                    None => {},
                }
            }
        },
        None => {},
    }
    match path_file_name(folder_path) {
        Some(n) if !n.as_str().is_empty() => n,
        _ => own(workspace_id),
    }
}

/// The statistics sessions of the global records (see `stats_sessions`).
fn stats_sessions_of(rows: &Vec<(String, String)>, ds: &Vec<WorkspaceDir>) -> (r: Vec<(String, Vec<ClaudeMessage>)>)
    requires
        stats_folders_cut_cleanly(rows_view(rows@), dirs_view(ds@)),
    ensures
        r@.len() == stats_sessions(rows_view(rows@), dirs_view(ds@)).len(),
        forall|j: int| 0 <= j < r@.len() ==> (r@[j].0@, messages_view(#[trigger] r@[j].1@))
            == stats_sessions(rows_view(rows@), dirs_view(ds@))[j],
{
    let ghost rv = rows_view(rows@);
    let ghost dv = dirs_view(ds@);
    let mut out: Vec<(String, Vec<ClaudeMessage>)> = Vec::new();
    let mut i: usize = 0;
    while i < rows.len()
        invariant
            rv == rows_view(rows@),
            dv == dirs_view(ds@),
            i <= rows@.len(),
            out@.len() == stats_sessions(rv.subrange(0, i as int), dv).len(),
            forall|j: int| 0 <= j < out@.len() ==> (out@[j].0@, messages_view(#[trigger] out@[j].1@))
                == stats_sessions(rv.subrange(0, i as int), dv)[j],
            stats_folders_cut_cleanly(rv, dv),
        decreases rows.len() - i,
    {
        proof {
            assert(rv.subrange(0, i + 1).drop_last() =~= rv.subrange(0, i as int));
            assert(rv.subrange(0, i + 1).last() == (rows@[i as int].0@, rows@[i as int].1@));
        }
        let key = rows[i].0.as_str();
        match live_composer_of(key, rows[i].1.as_str()) {
            Some(c) => {
                let (raw, folder) = workspace_identity_from_composer(&c);
                let id = normalize_workspace_bucket_id(raw.as_str());
                let cid = match str_strip_prefix(key, "composerData:") {
                    Some(rest) => rest,
                    None => key,
                };
                proof {
                    reveal_strlit("composerData:");
                }
                let messages = stats_messages_from_composer(cid, &c);
                if messages.len() > 0 {
                    assert(rv[i as int] == (rows@[i as int].0@, rows@[i as int].1@));
                    let name = resolve_project_display_name(ds, id.as_str(), folder.as_str());
                    let display = concat(name.as_str(), " [cursor]");
                    let ghost prev = stats_sessions(rv.subrange(0, i as int), dv);
                    let ghost before_out = out@;
                    out.push((display, messages));
                    assert(stats_sessions(rv.subrange(0, i + 1), dv) == prev.push((display@, messages_view(messages@))));
                    assert forall|j: int| 0 <= j < out@.len() implies (out@[j].0@, messages_view(#[trigger] out@[j].1@))
                        == stats_sessions(rv.subrange(0, i + 1), dv)[j] by {
                        if j < out@.len() - 1 {
                            assert(out@[j] == before_out[j]);
                        }
                    }
                }
            },
            None => {},
        }
        i = i + 1;
    }
    assert(rv.subrange(0, rows@.len() as int) =~= rv);
    out
}

/// The statistics sessions of a Cursor installation: none without a global database,
/// its error when it failed, else those of its `composerData:*` records (see
/// `stats_sessions`).
pub fn collect_global_stats_sessions(global: &GlobalDb, bucket_dirs: &Vec<WorkspaceDir>)
    -> (r: Result<Vec<(String, Vec<ClaudeMessage>)>, String>)
    requires
        match global@ {
            GlobalDbView::Rows(rows) => stats_folders_cut_cleanly(rows, dirs_view(bucket_dirs@)),
            _ => true,
        },
    ensures
        match global@ {
            GlobalDbView::Absent => r matches Ok(v) && v@.len() == 0,
            GlobalDbView::Failed(e) => r matches Err(x) && x@ == e,
            GlobalDbView::Rows(rows) => r matches Ok(v) && v@.len() == stats_sessions(rows, dirs_view(bucket_dirs@)).len()
                && forall|j: int| 0 <= j < v@.len() ==> (v@[j].0@, messages_view(#[trigger] v@[j].1@))
                    == stats_sessions(rows, dirs_view(bucket_dirs@))[j],
        },
{
    match global {
        GlobalDb::Absent => Ok(Vec::new()),
        GlobalDb::Failed(e) => Err(e.clone()),
        GlobalDb::Rows(rows) => Ok(stats_sessions_of(rows, bucket_dirs)),
    }
}

/// Whether the folders that collecting the statistics sessions reads can be read
/// without cutting inside a character (see `stats_folders_cut_cleanly`), the condition
/// `collect_global_stats_sessions` needs.
pub fn stats_folders_read_cleanly(global: &GlobalDb, bucket_dirs: &Vec<WorkspaceDir>) -> (r: bool)
    ensures
        r == match global@ {
            GlobalDbView::Rows(rows) => stats_folders_cut_cleanly(rows, dirs_view(bucket_dirs@)),
            _ => true,
        },
{
    let rows = match global {
        GlobalDb::Rows(rows) => rows,
        _ => {
            return true;
        },
    };
    let ghost rv = rows_view(rows@);
    let ghost dv = dirs_view(bucket_dirs@);
    let mut i: usize = 0;
    while i < rows.len()
        invariant
            rv == rows_view(rows@),
            dv == dirs_view(bucket_dirs@),
            global@ == GlobalDbView::Rows(rv),
            i <= rows@.len(),
            forall|k: int| 0 <= k < i ==> match live_composer(#[trigger] rv[k]) {
                Some(c) => bucket_folder_cuts_cleanly(dv, bucket_id(identity_id(c))),
                None => true,
            },
        decreases rows.len() - i,
    {
        assert(rv[i as int] == (rows@[i as int].0@, rows@[i as int].1@));
        match live_composer_of(rows[i].0.as_str(), rows[i].1.as_str()) {
            Some(c) => {
                let (raw, _) = workspace_identity_from_composer(&c);
                let id = normalize_workspace_bucket_id(raw.as_str());
                if !bucket_folder_reads_cleanly(bucket_dirs, id.as_str()) {
                    assert(live_composer(rv[i as int]) == Some(c@));
                    assert(!stats_folders_cut_cleanly(rv, dv));
                    return false;
                }
            },
            None => {},
        }
        i = i + 1;
    }
    assert(global@ == GlobalDbView::Rows(rv));
    assert(stats_folders_cut_cleanly(rv, dv));
    true
}

/// The Cursor installation at `base_path` (the user data directory, when found);
/// it is available when its global database is a file.
pub fn detect(base_path: Option<&str>, global_db_is_file: bool) -> (r: Option<ProviderInfo>)
    ensures
        match base_path {
            Some(b) => r matches Some(p) && p.id@ == "cursor"@ && p.display_name@ == "Cursor"@
                && p.base_path@ == b@ && p.is_available == global_db_is_file,
            None => r is None,
        },
{
    match base_path {
        Some(b) => Some(ProviderInfo {
            id: own("cursor"),
            display_name: own("Cursor"),
            base_path: own(b),
            is_available: global_db_is_file,
        }),
        None => None,
    }
}

// ---------------------------------------------------------------------------
// Laws
// ---------------------------------------------------------------------------

/// Mapping a tool name twice maps it once.
pub proof fn law_tool_name_mapping_idempotent(name: Seq<char>)
    ensures
        mapped_tool_name(mapped_tool_name(name)) == mapped_tool_name(name),
{
    reveal_strlit("read_file"); reveal_strlit("view_file"); reveal_strlit("write_to_file");
    reveal_strlit("create_file"); reveal_strlit("edit_file"); reveal_strlit("execute_command");
    reveal_strlit("run_terminal_cmd"); reveal_strlit("list_directory"); reveal_strlit("list_dir");
    reveal_strlit("search_files"); reveal_strlit("codebase_search"); reveal_strlit("grep_search");
    reveal_strlit("web_search"); reveal_strlit("web_fetch"); reveal_strlit("fetch_url");
    reveal_strlit("Read"); reveal_strlit("Write"); reveal_strlit("Bash"); reveal_strlit("Glob");
    reveal_strlit("Grep"); reveal_strlit("WebSearch"); reveal_strlit("WebFetch");
    let m = mapped_tool_name(name);
    if m != name {
        // The viewer's names start with an upper-case letter, Cursor's do not.
        assert(m[0] == 'R' || m[0] == 'W' || m[0] == 'B' || m[0] == 'G');
    }
}

/// Bucket ids are stable: normalizing one gives it back, and the only orphan bucket is
/// `unassigned`.
pub proof fn law_bucket_id_stable(id: Seq<char>)
    ensures
        bucket_id(bucket_id(id)) == bucket_id(id),
        is_orphan_id(bucket_id(id)) <==> bucket_id(id) == "unassigned"@,
{
    reveal_strlit("unassigned");
    reveal_strlit("empty-window");
    assert("unassigned"@.len() != "empty-window"@.len());
}

/// Sanitizing keeps the length, leaves no control character but newline, carriage
/// return and tab, and changes nothing a second time.
pub proof fn law_sanitize(s: Seq<char>)
    ensures
        sanitized(s).len() == s.len(),
        forall|i: int| 0 <= i < s.len() && is_control_char(#[trigger] sanitized(s)[i])
            ==> sanitized(s)[i] == '\n' || sanitized(s)[i] == '\r' || sanitized(s)[i] == '\t',
        sanitized(sanitized(s)) == sanitized(s),
{
    assert(sanitized(sanitized(s)) =~= sanitized(s));
}

/// The number of global records that hold a live composer.
pub open spec fn live_count(rows: Seq<(Seq<char>, Seq<char>)>) -> nat
    decreases rows.len(),
{
    if rows.len() == 0 {
        0
    } else {
        live_count(rows.drop_last()) + if live_composer(rows.last()) is Some { 1nat } else { 0nat }
    }
}

/// The sessions counted over some buckets.
pub open spec fn counted(bs: Seq<BucketView>) -> nat
    decreases bs.len(),
{
    if bs.len() == 0 { 0 } else { counted(bs.drop_last()) + bs.last().count }
}

proof fn lemma_counted_update(bs: Seq<BucketView>, k: int, b: BucketView)
    requires
        0 <= k < bs.len(),
    ensures
        counted(bs.update(k, b)) == counted(bs) - bs[k].count + b.count,
    decreases bs.len(),
{
    if k < bs.len() - 1 {
        lemma_counted_update(bs.drop_last(), k, b);
        assert(bs.update(k, b).drop_last() =~= bs.drop_last().update(k, b));
    } else {
        assert(bs.update(k, b).drop_last() =~= bs.drop_last());
    }
}

/// Every live composer is counted in exactly one bucket: bucket ids are distinct,
/// each bucket counts at least one composer, and the counts add up to the number of
/// live composers.
pub proof fn law_buckets_partition(rows: Seq<(Seq<char>, Seq<char>)>)
    ensures
        forall|i: int, j: int| 0 <= i < j < buckets(rows).len() ==> #[trigger] buckets(rows)[i].id != #[trigger] buckets(rows)[j].id,
        forall|i: int| 0 <= i < buckets(rows).len() ==> #[trigger] buckets(rows)[i].count >= 1,
        counted(buckets(rows)) == live_count(rows),
    decreases rows.len(),
{
    if rows.len() > 0 {
        let prev = buckets(rows.drop_last());
        law_buckets_partition(rows.drop_last());
        match live_composer(rows.last()) {
            Some(c) => {
                let id = bucket_id(identity_id(c));
                lemma_bucket_index(prev, id);
                let k = bucket_index(prev, id);
                if k < 0 {
                    lemma_bucket_index_absent(prev, id);
                    assert(prev.push(BucketView { id, folder: identity_folder(c), count: 1, last_ms: composer_ms(c) }).drop_last() =~= prev);
                } else {
                    let b = prev[k];
                    let nb = BucketView {
                        id,
                        folder: if b.folder.len() == 0 && identity_folder(c).len() > 0 { identity_folder(c) } else { b.folder },
                        count: b.count + 1,
                        last_ms: if composer_ms(c) > b.last_ms { composer_ms(c) } else { b.last_ms },
                    };
                    lemma_counted_update(prev, k, nb);
                    assert(buckets(rows) == prev.update(k, nb));
                }
            },
            None => {},
        }
    }
}

proof fn lemma_bucket_index_absent(bs: Seq<BucketView>, id: Seq<char>)
    requires
        bucket_index(bs, id) < 0,
    ensures
        forall|i: int| 0 <= i < bs.len() ==> #[trigger] bs[i].id != id,
    decreases bs.len(),
{
    if bs.len() > 0 {
        lemma_bucket_index_absent(bs.drop_last(), id);
        assert forall|i: int| 0 <= i < bs.len() implies #[trigger] bs[i].id != id by {
            if i < bs.len() - 1 {
                assert(bs[i] == bs.drop_last()[i]);
            }
        }
    }
}

/// Attaching a composer's token count keeps every message but the last assistant one,
/// and keeps the kinds of all of them; with no count or no assistant message nothing
/// changes, else the last assistant message takes the count (capped to `u32`) as its
/// input tokens, `cursor` as its model and the composer's time when it prints.
pub proof fn law_composer_usage_in_place(c: JsonView, ms: Seq<MessageView>)
    ensures
        composer_usage(c, ms).len() == ms.len(),
        total_tokens(c) == 0 || last_assistant(ms) < 0 ==> composer_usage(c, ms) == ms,
        total_tokens(c) > 0 && last_assistant(ms) >= 0 ==> composer_usage(c, ms)[last_assistant(ms)]
            == with_composer_usage(ms[last_assistant(ms)], cap_u32(total_tokens(c)), iso_ms(composer_ms(c))),
        forall|i: int| 0 <= i < ms.len() && i != last_assistant(ms) ==> #[trigger] composer_usage(c, ms)[i] == ms[i],
        forall|i: int| 0 <= i < ms.len() ==> (#[trigger] composer_usage(c, ms)[i]).message_type == ms[i].message_type,
{
    lemma_last_assistant(ms);
}

/// A composer that holds a conversation always yields an assistant statistics
/// message, so its token count has a message to go on.
pub proof fn law_stats_have_assistant(composer_id: Seq<char>, c: JsonView)
    requires
        has_conversation(c),
    ensures
        last_assistant(stats_messages(composer_id, c)) >= 0,
{
    let headers = match c.get_array("fullConversationHeadersOnly"@) {
        Some(h) => h,
        None => Seq::empty(),
    };
    let ms = header_messages(composer_id, headers, iso_ms(composer_ms(c)));
    let wp = with_placeholder(c, composer_id, ms);
    lemma_last_assistant(ms);
    lemma_last_assistant(wp);
    if last_assistant(ms) == -1 {
        assert(wp.last().message_type == "assistant"@);
    }
    law_composer_usage_in_place(c, wp);
    let k = last_assistant(wp);
    lemma_last_assistant(composer_usage(c, wp));
    assert(composer_usage(c, wp)[k].message_type == "assistant"@);
}

proof fn lemma_header_messages_shape(composer_id: Seq<char>, headers: Seq<JsonView>, stamp: Seq<char>)
    ensures
        headers.len() == 0 ==> header_messages(composer_id, headers, stamp).len() == 0,
        forall|i: int| 0 <= i < header_messages(composer_id, headers, stamp).len() ==>
            (#[trigger] header_messages(composer_id, headers, stamp)[i]).session_id == composer_id
            && header_messages(composer_id, headers, stamp)[i].content == Some(empty_text_content()),
    decreases headers.len(),
{
    if headers.len() > 0 {
        lemma_header_messages_shape(composer_id, headers.drop_last(), stamp);
    }
}

/// A composer's statistics messages hold an assistant message exactly when it holds
/// a conversation; all of them belong to the composer's session and carry an empty
/// text in place of the bubble bodies.
pub proof fn law_stats_messages_shape(composer_id: Seq<char>, c: JsonView)
    ensures
        last_assistant(stats_messages(composer_id, c)) >= 0 <==> has_conversation(c),
        forall|i: int| 0 <= i < stats_messages(composer_id, c).len() ==>
            (#[trigger] stats_messages(composer_id, c)[i]).session_id == composer_id
            && stats_messages(composer_id, c)[i].content == Some(empty_text_content()),
{
    let headers = match c.get_array("fullConversationHeadersOnly"@) {
        Some(h) => h,
        None => Seq::empty(),
    };
    let ms = header_messages(composer_id, headers, iso_ms(composer_ms(c)));
    let wp = with_placeholder(c, composer_id, ms);
    lemma_header_messages_shape(composer_id, headers, iso_ms(composer_ms(c)));
    lemma_last_assistant(ms);
    law_composer_usage_in_place(c, wp);
    if has_conversation(c) {
        law_stats_have_assistant(composer_id, c);
    } else {
        assert(ms.len() == 0);
        assert(wp.len() == 0);
        lemma_last_assistant(wp);
    }
    assert forall|i: int| 0 <= i < wp.len() implies (#[trigger] wp[i]).session_id == composer_id
        && wp[i].content == Some(empty_text_content()) by {
        if i < ms.len() {
            assert(wp[i] == ms[i]);
        }
    }
    lemma_last_assistant(wp);
}

/// The type of a conversation header (0 when it has none).
pub open spec fn header_type(h: JsonView) -> u64 {
    match h.get_u64("type"@) {
        Some(t) => t,
        None => 0,
    }
}

/// A header of a user (type 1) or assistant (type 2) message.
pub open spec fn is_message_header() -> spec_fn(JsonView) -> bool {
    |h: JsonView| header_type(h) == 1 || header_type(h) == 2
}

/// The message type of a user or assistant header.
pub open spec fn header_kind(h: JsonView) -> Seq<char> {
    if header_type(h) == 1 { "user"@ } else { "assistant"@ }
}

/// A composer's header list (empty when it has none).
pub open spec fn conversation_headers(c: JsonView) -> Seq<JsonView> {
    match c.get_array("fullConversationHeadersOnly"@) {
        Some(h) => h,
        None => Seq::empty(),
    }
}

proof fn lemma_header_messages_typed(composer_id: Seq<char>, hs: Seq<JsonView>, stamp: Seq<char>)
    ensures
        header_messages(composer_id, hs, stamp).len() == hs.filter(is_message_header()).len(),
        forall|i: int| 0 <= i < hs.filter(is_message_header()).len() ==>
            (#[trigger] header_messages(composer_id, hs, stamp)[i]).message_type == header_kind(hs.filter(is_message_header())[i]),
        (exists|j: int| 0 <= j < hs.len() && header_type(#[trigger] hs[j]) == 2)
            <==> last_assistant(header_messages(composer_id, hs, stamp)) >= 0,
    decreases hs.len(),
{
    reveal_strlit("user");
    reveal_strlit("assistant");
    let ms = header_messages(composer_id, hs, stamp);
    lemma_last_assistant(ms);
    if hs.len() > 0 {
        let prev = hs.drop_last();
        let h = hs.last();
        let pm = header_messages(composer_id, prev, stamp);
        lemma_header_messages_typed(composer_id, prev, stamp);
        lemma_last_assistant(pm);
        assert(hs == prev.push(h));
        prev.lemma_filter_push(h, is_message_header());
        if header_type(h) == 2 {
            assert(ms[ms.len() - 1].message_type == "assistant"@);
            assert(header_type(hs[hs.len() - 1]) == 2);
        } else {
            if exists|j: int| 0 <= j < hs.len() && header_type(#[trigger] hs[j]) == 2 {
                let j = choose|j: int| 0 <= j < hs.len() && header_type(#[trigger] hs[j]) == 2;
                assert(prev[j] == hs[j]);
                let k = last_assistant(pm);
                assert(ms[k] == pm[k]);
            }
            if last_assistant(ms) >= 0 {
                let k = last_assistant(ms);
                if k < pm.len() {
                    assert(ms[k] == pm[k]);
                    let j = choose|j: int| 0 <= j < prev.len() && header_type(#[trigger] prev[j]) == 2;
                    assert(hs[j] == prev[j]);
                } else {
                    assert(header_type(h) == 1);
                    assert(ms[k].message_type == "user"@);
                }
            }
        }
        assert forall|i: int| 0 <= i < hs.filter(is_message_header()).len() implies
            (#[trigger] ms[i]).message_type == header_kind(hs.filter(is_message_header())[i]) by {
            if i < pm.len() {
                assert(ms[i] == pm[i]);
            }
        }
    }
}

/// A composer's statistics messages are one message per user or assistant header, in
/// order and of the header's kind, followed by the `<id>-usage` assistant placeholder
/// exactly when no header is an assistant's and the composer holds a conversation.
pub proof fn law_stats_messages_per_header(composer_id: Seq<char>, c: JsonView)
    ensures ({
        let typed = conversation_headers(c).filter(is_message_header());
        let placeholder = has_conversation(c) && !(exists|j: int| 0 <= j < conversation_headers(c).len()
            && header_type(#[trigger] conversation_headers(c)[j]) == 2);
        let ms = stats_messages(composer_id, c);
        &&& ms.len() == typed.len() + (if placeholder { 1int } else { 0int })
        &&& forall|i: int| 0 <= i < typed.len() ==> (#[trigger] ms[i]).message_type == header_kind(typed[i])
        &&& placeholder ==> ms[typed.len() as int].uuid == composer_id + "-usage"@
            && ms[typed.len() as int].message_type == "assistant"@
    }),
{
    let hs = conversation_headers(c);
    let stamp = iso_ms(composer_ms(c));
    let hm = header_messages(composer_id, hs, stamp);
    lemma_header_messages_typed(composer_id, hs, stamp);
    lemma_last_assistant(hm);
    let wp = with_placeholder(c, composer_id, hm);
    law_composer_usage_in_place(c, wp);
    lemma_last_assistant(wp);
    let ms = composer_usage(c, wp);
    assert(ms == stats_messages(composer_id, c));
    assert forall|i: int| 0 <= i < hm.len() implies (#[trigger] ms[i]).message_type == hm[i].message_type by {
        assert(wp[i] == hm[i]);
    }
    if has_conversation(c) && last_assistant(hm) < 0 {
        let k = hm.len() as int;
        assert(wp[k].uuid == composer_id + "-usage"@);
        if total_tokens(c) > 0 && last_assistant(wp) >= 0 && last_assistant(wp) == k {
            assert(ms[k] == with_composer_usage(wp[k], cap_u32(total_tokens(c)), iso_ms(composer_ms(c))));
        }
        assert(ms[k].uuid == wp[k].uuid);
    }
}

/// Every search hit mentions the query and belongs to the `Cursor` project.
pub proof fn law_bubble_hits_match(rows: Seq<(Seq<char>, Seq<char>)>, q: Seq<char>)
    ensures
        forall|i: int| 0 <= i < bubble_hits(rows, q).len() ==> message_matches(#[trigger] bubble_hits(rows, q)[i], q)
            && bubble_hits(rows, q)[i].project_name == Some("Cursor"@),
    decreases rows.len(),
{
    if rows.len() > 0 {
        law_bubble_hits_match(rows.drop_last(), q);
        let prev = bubble_hits(rows.drop_last(), q);
        assert forall|i: int| 0 <= i < bubble_hits(rows, q).len() implies message_matches(#[trigger] bubble_hits(rows, q)[i], q)
            && bubble_hits(rows, q)[i].project_name == Some("Cursor"@) by {
            if i < prev.len() {
                assert(bubble_hits(rows, q)[i] == prev[i]);
            }
        }
    }
}


/// A path outside `workspace/` is named by its folder: the name is `n` exactly when
/// `workspace.json` names a `file://` folder whose decoded local path ends in the
/// non-empty component `n`.
pub proof fn law_display_name_of_folder(project_path: Seq<char>, workspace_json: Option<Seq<char>>, n: Seq<char>)
    requires
        !has_prefix(strip_or_keep(project_path, "cursor://"@), "workspace/"@),
    ensures
        project_display_name(project_path, workspace_json) == Some(n) <==> (n.len() > 0 && match workspace_json {
            Some(t) => match folder_uri_path(t) {
                Some(p) => file_name(decoded_path(drive_path(p))) == Some(n),
                None => false,
            },
            None => false,
        }),
{
}

/// A project's display name is never empty: a `workspace/<id>` path names the bucket
/// (`Cursor` for orphans), any other path the non-empty name of its folder, or nothing.
pub proof fn law_display_name_never_empty(project_path: Seq<char>, workspace_json: Option<Seq<char>>)
    ensures
        project_display_name(project_path, workspace_json) matches Some(n) ==> n.len() > 0,
{
    reveal_strlit("Cursor");
}

/// The global records hold at least one bucket.
pub open spec fn has_global_buckets(global: GlobalDbView) -> bool {
    match global {
        GlobalDbView::Rows(rows) => buckets(rows).len() > 0,
        _ => false,
    }
}

/// The projects of a Cursor installation are those of the global records when there
/// are any buckets, else those of the workspace directories (the global database's
/// error comes first), and they come newest first either way.
pub proof fn law_projects_listed_newest_first(store: CursorStoreView)
    ensures
        cursor_projects(store) matches Ok(ps) ==> listed_newest_first(ps),
        store.global matches GlobalDbView::Failed(e) ==> cursor_projects(store) == Err::<Seq<ProjectView>, Seq<char>>(e),
        store.global matches GlobalDbView::Rows(rows) ==> (buckets(rows).len() > 0
            ==> cursor_projects(store) == Ok::<Seq<ProjectView>, Seq<char>>(newest_first(global_projects(rows, store.bucket_dirs)))),
        !(store.global is Failed) && !has_global_buckets(store.global)
            ==> cursor_projects(store) == listing_projects(store.workspaces),
{
    match store.global {
        GlobalDbView::Rows(rows) => {
            lemma_bucket_projects_len(buckets(rows), store.bucket_dirs);
        },
        _ => {},
    }
    match store.global {
        GlobalDbView::Rows(rows) => {
            law_newest_first(global_projects(rows, store.bucket_dirs));
        },
        _ => {},
    }
    match store.workspaces {
        WorkspaceListingView::Entries(ds) => {
            law_newest_first(workspace_projects(ds));
        },
        _ => {},
    }
}

proof fn lemma_bucket_projects_index(bs: Seq<BucketView>, ds: Seq<WorkspaceDirView>, k: int)
    requires
        0 <= k < bs.len(),
    ensures
        bucket_projects_of(bs, ds).len() == bs.len(),
        bucket_projects_of(bs, ds)[k] == bucket_project(bs[k], ds),
    decreases bs.len(),
{
    lemma_bucket_projects_len(bs, ds);
    if k < bs.len() - 1 {
        lemma_bucket_projects_index(bs.drop_last(), ds, k);
    }
}

/// The global projects are one per bucket, in bucket order: each counts its bucket's
/// composers as sessions, dates itself by its latest composer, holds no message count,
/// and comes from Cursor's SQLite store; the orphan bucket is the `Cursor` project at
/// `cursor://workspace/unassigned`, with no folder.
pub proof fn law_global_projects_per_bucket(rows: Seq<(Seq<char>, Seq<char>)>, ds: Seq<WorkspaceDirView>, k: int)
    requires
        0 <= k < buckets(rows).len(),
    ensures
        global_projects(rows, ds).len() == buckets(rows).len(),
        global_projects(rows, ds)[k].session_count == buckets(rows)[k].count as usize,
        global_projects(rows, ds)[k].last_modified == iso_ms(buckets(rows)[k].last_ms),
        global_projects(rows, ds)[k].message_count == 0,
        global_projects(rows, ds)[k].provider == Some("cursor"@),
        global_projects(rows, ds)[k].storage_type == Some("sqlite"@),
        is_orphan_id(buckets(rows)[k].id) ==> global_projects(rows, ds)[k].name == "Cursor"@
            && global_projects(rows, ds)[k].path == "cursor://workspace/unassigned"@
            && global_projects(rows, ds)[k].actual_path.len() == 0,
{
    lemma_bucket_projects_index(buckets(rows), ds, k);
}

/// The number of live composers of the records that fall in bucket `id`.
pub open spec fn bucket_size(rows: Seq<(Seq<char>, Seq<char>)>, id: Seq<char>) -> nat
    decreases rows.len(),
{
    if rows.len() == 0 {
        0
    } else {
        let m = bucket_size(rows.drop_last(), id);
        match live_composer(rows.last()) {
            Some(c) => if bucket_id(identity_id(c)) == id { m + 1 } else { m },
            None => m,
        }
    }
}

/// The newest composer time among the live composers of the records that fall in
/// bucket `id` (0 when there is none).
pub open spec fn bucket_latest(rows: Seq<(Seq<char>, Seq<char>)>, id: Seq<char>) -> u64
    decreases rows.len(),
{
    if rows.len() == 0 {
        0
    } else {
        let m = bucket_latest(rows.drop_last(), id);
        match live_composer(rows.last()) {
            Some(c) => if bucket_id(identity_id(c)) == id && composer_ms(c) > m { composer_ms(c) } else { m },
            None => m,
        }
    }
}

proof fn lemma_bucket_index_update(bs: Seq<BucketView>, k: int, b: BucketView, id: Seq<char>)
    requires
        0 <= k < bs.len(),
        b.id == bs[k].id,
    ensures
        bucket_index(bs.update(k, b), id) == bucket_index(bs, id),
    decreases bs.len(),
{
    let u = bs.update(k, b);
    assert(u.last().id == bs.last().id);
    if k < bs.len() - 1 {
        assert(u.drop_last() =~= bs.drop_last().update(k, b));
        lemma_bucket_index_update(bs.drop_last(), k, b, id);
    } else {
        assert(u.drop_last() =~= bs.drop_last());
    }
}

/// Each bucket of the global records counts exactly the live composers that fall in
/// it and is dated by the newest of them; an id with no bucket has no live composer.
pub proof fn law_bucket_counts_and_times(rows: Seq<(Seq<char>, Seq<char>)>, id: Seq<char>)
    ensures
        bucket_index(buckets(rows), id) >= 0 ==> {
            &&& buckets(rows)[bucket_index(buckets(rows), id)].count == bucket_size(rows, id)
            &&& buckets(rows)[bucket_index(buckets(rows), id)].last_ms == bucket_latest(rows, id)
        },
        bucket_index(buckets(rows), id) < 0 ==> bucket_size(rows, id) == 0 && bucket_latest(rows, id) == 0,
    decreases rows.len(),
{
    lemma_bucket_index(buckets(rows), id);
    if rows.len() > 0 {
        let prev_rows = rows.drop_last();
        let bs = buckets(prev_rows);
        law_bucket_counts_and_times(prev_rows, id);
        lemma_bucket_index(bs, id);
        match live_composer(rows.last()) {
            Some(c) => {
                let idc = bucket_id(identity_id(c));
                let kc = bucket_index(bs, idc);
                lemma_bucket_index(bs, idc);
                law_bucket_counts_and_times(prev_rows, idc);
                if kc >= 0 {
                    let b = bs[kc];
                    let nb = BucketView {
                        id: idc,
                        folder: if b.folder.len() == 0 && identity_folder(c).len() > 0 { identity_folder(c) } else { b.folder },
                        count: b.count + 1,
                        last_ms: if composer_ms(c) > b.last_ms { composer_ms(c) } else { b.last_ms },
                    };
                    assert(buckets(rows) == bs.update(kc, nb));
                    lemma_bucket_index_update(bs, kc, nb, id);
                } else {
                    let nb = BucketView { id: idc, folder: identity_folder(c), count: 1, last_ms: composer_ms(c) };
                    assert(buckets(rows) == bs.push(nb));
                    assert(bs.push(nb).drop_last() =~= bs);
                }
            },
            None => {},
        }
    }
}

/// The shape of every session a Cursor project lists.
pub open spec fn cursor_session_shape(s: SessionView) -> bool {
    &&& s.actual_session_id.len() > 0
    &&& s.session_id == "cursor://"@ + s.actual_session_id
    &&& s.file_path == s.session_id
    &&& s.provider == Some("cursor"@)
    &&& s.storage_type == Some("sqlite"@)
    &&& s.message_count == 0
    &&& !s.has_errors
}

proof fn lemma_composer_sessions_shape(cs: Seq<JsonView>, name: Seq<char>)
    ensures
        forall|i: int| 0 <= i < composer_sessions(cs, name).len() ==>
            cursor_session_shape(#[trigger] composer_sessions(cs, name)[i])
            && composer_sessions(cs, name)[i].project_name == name
            && exists|c: JsonView| !archived(c) && composer_session(c, name) == Some(composer_sessions(cs, name)[i]),
    decreases cs.len(),
{
    if cs.len() > 0 {
        let prev = composer_sessions(cs.drop_last(), name);
        lemma_composer_sessions_shape(cs.drop_last(), name);
        let all = composer_sessions(cs, name);
        assert forall|i: int| 0 <= i < all.len() implies
            exists|c: JsonView| !archived(c) && composer_session(c, name) == Some(#[trigger] all[i]) by {
            if i < prev.len() {
                assert(all[i] == prev[i]);
            } else {
                assert(!archived(cs.last()) && composer_session(cs.last(), name) == Some(all[i]));
            }
        }
    }
}

/// The sessions a Cursor project lists come newest first; each is a non-archived
/// composer with an id, at `cursor://<id>`, with no message count and no errors, from
/// Cursor's SQLite store; an orphan bucket names all of them `Cursor`.
pub proof fn law_sessions_listed(project_path: Seq<char>, files: WorkspaceStateView, global: GlobalDbView)
    ensures
        cursor_sessions(project_path, files, global) matches Ok(ss) ==> {
            &&& listed_newest_first(ss)
            &&& forall|i: int| 0 <= i < ss.len() ==> cursor_session_shape(#[trigger] ss[i])
            &&& forall|i: int| 0 <= i < ss.len() ==> exists|c: JsonView|
                !archived(c) && composer_session(c, ss[i].project_name) == Some(#[trigger] ss[i])
            &&& ({
                let ws = strip_or_keep(project_path, "cursor://"@);
                has_prefix(ws, "workspace/"@) && is_orphan_id(first_segment(ws.subrange(10, ws.len() as int)))
            }) ==> forall|i: int| 0 <= i < ss.len() ==> (#[trigger] ss[i]).project_name == "Cursor"@
        },
{
    let ws = strip_or_keep(project_path, "cursor://"@);
    let orphan = has_prefix(ws, "workspace/"@) && is_orphan_id(first_segment(ws.subrange(10, ws.len() as int)));
    match cursor_sessions(project_path, files, global) {
        Ok(ss) => {
            let (name, cs): (Seq<char>, Seq<JsonView>) = if has_prefix(ws, "workspace/"@) {
                let id = first_segment(ws.subrange(10, ws.len() as int));
                let name = if is_orphan_id(id) { "Cursor"@ } else { id };
                (name, match workspace_global_composers(global, bucket_id(id)) { Ok(cs) => cs, Err(_) => Seq::empty() })
            } else {
                let name = match folder_of_opt(files.workspace_json) {
                    Some(f) => str_or(file_name(f), "Cursor"@),
                    None => "Cursor"@,
                };
                let cs = match workspace_composers(files.state_db) {
                    Ok(legacy) => if legacy.len() == 0 {
                        match workspace_global_composers(global, bucket_id(str_or(file_name(ws), Seq::empty()))) {
                            Ok(cs) => cs,
                            Err(_) => Seq::empty(),
                        }
                    } else {
                        legacy
                    },
                    Err(_) => Seq::empty(),
                };
                (name, cs)
            };
            assert(ss == newest_first(composer_sessions(cs, name)));
            law_newest_first(composer_sessions(cs, name));
            lemma_composer_sessions_shape(cs, name);
            let p = |s: SessionView| cursor_session_shape(s) && s.project_name == name
                && exists|c: JsonView| !archived(c) && composer_session(c, name) == Some(s);
            assert forall|i: int| 0 <= i < composer_sessions(cs, name).len() implies p(#[trigger] composer_sessions(cs, name)[i]) by {}
            lemma_newest_first_keeps(composer_sessions(cs, name), p);
            assert forall|i: int| 0 <= i < ss.len() implies cursor_session_shape(#[trigger] ss[i])
                && (orphan ==> ss[i].project_name == "Cursor"@)
                && exists|c: JsonView| !archived(c) && composer_session(c, ss[i].project_name) == Some(ss[i]) by {
                assert(p(ss[i]));
            }
        },
        Err(_) => {},
    }
}


/// A composer whose `isArchived` is not true.
pub open spec fn not_archived() -> spec_fn(JsonView) -> bool {
    |c: JsonView| c.get_bool("isArchived"@) != Some(true)
}

proof fn lemma_active_count_filter(cs: Seq<JsonView>)
    ensures
        active_count(cs) == cs.filter(not_archived()).len(),
    decreases cs.len(),
{
    if cs.len() > 0 {
        lemma_active_count_filter(cs.drop_last());
        assert(cs == cs.drop_last().push(cs.last()));
        cs.drop_last().lemma_filter_push(cs.last(), not_archived());
    }
}

/// A workspace directory's project counts as its sessions exactly the composers of
/// its database whose `isArchived` is not true.
pub proof fn law_workspace_sessions_counted(d: WorkspaceDirView)
    ensures
        scanned_workspace(d) matches Some(p) ==> (workspace_composers(d.state.state_db) matches Ok(cs)
            && p.session_count == cs.filter(not_archived()).len() as usize),
{
    match workspace_composers(d.state.state_db) {
        Ok(cs) => lemma_active_count_filter(cs),
        Err(_) => {},
    }
}

} // verus!
