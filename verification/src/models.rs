//! The records the viewer shows: projects, sessions, messages and their metadata.
use vstd::prelude::*;
use crate::json::{Json, JsonView, mentions};
use crate::text::{
    bytes_lt, has_prefix, own, split_first, str_contains, str_eq, str_less, str_lt, str_split_once, str_starts_with,
    str_strip_prefix, str_trim, trim,
};

verus! {

/// Kind of git worktree a project lives in.
#[derive(Debug, Clone, Copy, PartialEq, Eq, Structural)]
pub enum GitWorktreeType {
    /// Main repository (`.git` is a directory).
    Main,
    /// Linked worktree (`.git` is a file).
    Linked,
    /// Not a git repository.
    NotGit,
}

/// Git worktree information of a project.
#[derive(Debug, Clone)]
pub struct GitInfo {
    pub worktree_type: GitWorktreeType,
    /// The main repository's project path, for a linked worktree.
    pub main_project_path: Option<String>,
}

/// Availability of a project's last-known filesystem location. Only an absolute
/// path that does not name a directory is reported, as `Unavailable`.
#[derive(Debug, Clone, Copy, PartialEq, Eq, Structural)]
pub enum ProjectPathStatus {
    Unavailable,
}

/// One project (a working directory) of one provider.
#[derive(Debug, Clone)]
pub struct ClaudeProject {
    pub name: String,
    /// Storage path of the project's sessions (a provider URI such as `cursor://...`).
    pub path: String,
    /// Decoded actual filesystem path.
    pub actual_path: String,
    pub session_count: usize,
    pub message_count: usize,
    pub last_modified: String,
    pub git_info: Option<GitInfo>,
    /// Provider identifier.
    pub provider: Option<String>,
    /// Storage type (json, jsonl, sqlite).
    pub storage_type: Option<String>,
    pub custom_directory_label: Option<String>,
    pub entrypoint: Option<String>,
}

/// One conversation of a project.
#[derive(Debug, Clone)]
pub struct ClaudeSession {
    pub session_id: String,
    pub actual_session_id: String,
    pub file_path: String,
    pub project_name: String,
    pub message_count: usize,
    pub first_message_time: String,
    pub last_message_time: String,
    pub last_modified: String,
    pub has_tool_use: bool,
    pub has_errors: bool,
    pub summary: Option<String>,
    pub is_renamed: bool,
    pub provider: Option<String>,
    pub storage_type: Option<String>,
    pub entrypoint: Option<String>,
}

/// One git commit.
#[derive(Debug, Clone)]
pub struct GitCommit {
    pub hash: String,
    pub author: String,
    pub date: String,
    pub message: String,
    pub timestamp: i64,
}

/// Token counts of one assistant response.
#[derive(Debug, Clone, Copy, PartialEq, Eq, Structural)]
pub struct TokenUsage {
    pub input_tokens: Option<u32>,
    pub output_tokens: Option<u32>,
    pub cache_creation_input_tokens: Option<u32>,
    pub cache_read_input_tokens: Option<u32>,
}

/// One viewer message in the format shared by all providers.
#[derive(Debug)]
pub struct ClaudeMessage {
    pub uuid: String,
    pub session_id: String,
    pub timestamp: String,
    /// `user`, `assistant`, `system` or `tool`.
    pub message_type: String,
    pub role: Option<String>,
    /// The content blocks (an array of JSON objects).
    pub content: Option<Json>,
    pub model: Option<String>,
    pub usage: Option<TokenUsage>,
    pub provider: Option<String>,
    pub project_name: Option<String>,
}

/// A detected provider installation.
#[derive(Debug, Clone)]
pub struct ProviderInfo {
    pub id: String,
    pub display_name: String,
    pub base_path: String,
    pub is_available: bool,
}

pub struct MessageView {
    pub uuid: Seq<char>,
    pub session_id: Seq<char>,
    pub timestamp: Seq<char>,
    pub message_type: Seq<char>,
    pub role: Option<Seq<char>>,
    pub content: Option<JsonView>,
    pub model: Option<Seq<char>>,
    pub usage: Option<TokenUsage>,
    pub provider: Option<Seq<char>>,
    pub project_name: Option<Seq<char>>,
}

pub open spec fn opt_str(o: Option<String>) -> Option<Seq<char>> {
    match o {
        Some(s) => Some(s@),
        None => None,
    }
}

pub open spec fn opt_json(o: Option<Json>) -> Option<JsonView> {
    match o {
        Some(j) => Some(j@),
        None => None,
    }
}

impl View for ClaudeMessage {
    type V = MessageView;

    open spec fn view(&self) -> MessageView {
        MessageView {
            uuid: self.uuid@,
            session_id: self.session_id@,
            timestamp: self.timestamp@,
            message_type: self.message_type@,
            role: opt_str(self.role),
            content: opt_json(self.content),
            model: opt_str(self.model),
            usage: self.usage,
            provider: opt_str(self.provider),
            project_name: opt_str(self.project_name),
        }
    }
}

/// The views of a sequence of messages.
pub open spec fn messages_view(ms: Seq<ClaudeMessage>) -> Seq<MessageView> {
    Seq::new(ms.len(), |i: int| ms[i]@)
}

/// A provider message as the shared builder makes it: no usage and no project name yet.
pub open spec fn provider_message(
    provider: Seq<char>,
    uuid: Seq<char>,
    session_id: Seq<char>,
    timestamp: Seq<char>,
    message_type: Seq<char>,
    role: Option<Seq<char>>,
    content: Option<JsonView>,
    model: Option<Seq<char>>,
) -> MessageView {
    MessageView {
        uuid,
        session_id,
        timestamp,
        message_type,
        role,
        content,
        model,
        usage: None,
        provider: Some(provider),
        project_name: None,
    }
}

pub struct GitInfoView {
    pub worktree_type: GitWorktreeType,
    pub main_project_path: Option<Seq<char>>,
}

/// The view of optional git information.
pub open spec fn git_info_view(g: Option<GitInfo>) -> Option<GitInfoView> {
    match g {
        Some(g) => Some(GitInfoView { worktree_type: g.worktree_type, main_project_path: opt_str(g.main_project_path) }),
        None => None,
    }
}

/// The git information a project directory's `.git` entry gives: a directory marks
/// the main repository; a file holding `gitdir: <main>/.git/worktrees/<name>` marks a
/// linked worktree of `<main>` (no main path when the text does not have that shape
/// or `<main>` is empty; nothing when the file cannot be read or does not start with
/// `gitdir:`); no entry marks a directory outside git.
pub open spec fn git_info_of_entry(dot_git_is_dir: bool, dot_git_is_file: bool, dot_git_text: Option<Seq<char>>)
    -> Option<GitInfoView>
{
    if dot_git_is_dir {
        Some(GitInfoView { worktree_type: GitWorktreeType::Main, main_project_path: None })
    } else if dot_git_is_file {
        match dot_git_text {
            Some(t) => if has_prefix(trim(t), "gitdir:"@) {
                let gitdir = trim(trim(t).subrange(7, trim(t).len() as int));
                Some(GitInfoView {
                    worktree_type: GitWorktreeType::Linked,
                    main_project_path: match split_first(gitdir, "/.git/worktrees/"@) {
                        Some((m, _)) => if m.len() > 0 { Some(m) } else { None },
                        None => None,
                    },
                })
            } else {
                None
            },
            None => None,
        }
    } else {
        Some(GitInfoView { worktree_type: GitWorktreeType::NotGit, main_project_path: None })
    }
}

/// The git information of a project directory from its `.git` entry (see
/// `git_info_of_entry`); the caller passes whether the entry is a directory or a
/// file, and the file's text when it could be read.
pub fn git_info_of(dot_git_is_dir: bool, dot_git_is_file: bool, dot_git_text: Option<&str>) -> (r: Option<GitInfo>)
    ensures
        git_info_view(r) == git_info_of_entry(dot_git_is_dir, dot_git_is_file, match dot_git_text {
            Some(t) => Some(t@),
            None => None,
        }),
{
    if dot_git_is_dir {
        return Some(GitInfo { worktree_type: GitWorktreeType::Main, main_project_path: None });
    }
    if !dot_git_is_file {
        return Some(GitInfo { worktree_type: GitWorktreeType::NotGit, main_project_path: None });
    }
    let text = match dot_git_text {
        Some(t) => t,
        None => {
            return None;
        },
    };
    let trimmed = str_trim(text);
    let rest = match str_strip_prefix(trimmed, "gitdir:") {
        Some(r) => r,
        None => {
            return None;
        },
    };
    proof {
        reveal_strlit("gitdir:");
    }
    let gitdir = str_trim(rest);
    let main = match str_split_once(gitdir, "/.git/worktrees/") {
        Some((m, _)) => if m.is_empty() { None } else { Some(own(m)) },
        None => None,
    };
    Some(GitInfo { worktree_type: GitWorktreeType::Linked, main_project_path: main })
}

pub struct ProjectView {
    pub name: Seq<char>,
    pub path: Seq<char>,
    pub actual_path: Seq<char>,
    pub session_count: usize,
    pub message_count: usize,
    pub last_modified: Seq<char>,
    pub git_info: Option<GitInfoView>,
    pub provider: Option<Seq<char>>,
    pub storage_type: Option<Seq<char>>,
    pub custom_directory_label: Option<Seq<char>>,
    pub entrypoint: Option<Seq<char>>,
}

impl View for ClaudeProject {
    type V = ProjectView;

    open spec fn view(&self) -> ProjectView {
        ProjectView {
            name: self.name@,
            path: self.path@,
            actual_path: self.actual_path@,
            session_count: self.session_count,
            message_count: self.message_count,
            last_modified: self.last_modified@,
            git_info: match self.git_info {
                Some(g) => Some(GitInfoView { worktree_type: g.worktree_type, main_project_path: opt_str(g.main_project_path) }),
                None => None,
            },
            provider: opt_str(self.provider),
            storage_type: opt_str(self.storage_type),
            custom_directory_label: opt_str(self.custom_directory_label),
            entrypoint: opt_str(self.entrypoint),
        }
    }
}

pub struct SessionView {
    pub session_id: Seq<char>,
    pub actual_session_id: Seq<char>,
    pub file_path: Seq<char>,
    pub project_name: Seq<char>,
    pub message_count: usize,
    pub first_message_time: Seq<char>,
    pub last_message_time: Seq<char>,
    pub last_modified: Seq<char>,
    pub has_tool_use: bool,
    pub has_errors: bool,
    pub summary: Option<Seq<char>>,
    pub is_renamed: bool,
    pub provider: Option<Seq<char>>,
    pub storage_type: Option<Seq<char>>,
    pub entrypoint: Option<Seq<char>>,
}

impl View for ClaudeSession {
    type V = SessionView;

    open spec fn view(&self) -> SessionView {
        SessionView {
            session_id: self.session_id@,
            actual_session_id: self.actual_session_id@,
            file_path: self.file_path@,
            project_name: self.project_name@,
            message_count: self.message_count,
            first_message_time: self.first_message_time@,
            last_message_time: self.last_message_time@,
            last_modified: self.last_modified@,
            has_tool_use: self.has_tool_use,
            has_errors: self.has_errors,
            summary: opt_str(self.summary),
            is_renamed: self.is_renamed,
            provider: opt_str(self.provider),
            storage_type: opt_str(self.storage_type),
            entrypoint: opt_str(self.entrypoint),
        }
    }
}

pub open spec fn projects_view(s: Seq<ClaudeProject>) -> Seq<ProjectView> {
    Seq::new(s.len(), |i: int| s[i]@)
}

pub open spec fn sessions_view(s: Seq<ClaudeSession>) -> Seq<SessionView> {
    Seq::new(s.len(), |i: int| s[i]@)
}

/// Records that are listed newest first, by their `last_modified` text.
pub trait Dated {
    spec fn date(self) -> Seq<char>;
}

impl Dated for ProjectView {
    open spec fn date(self) -> Seq<char> {
        self.last_modified
    }
}

impl Dated for SessionView {
    open spec fn date(self) -> Seq<char> {
        self.last_modified
    }
}

/// The index of the first record of `s` dated strictly before `k`, or `s.len()`.
pub open spec fn first_older<V: Dated>(s: Seq<V>, k: Seq<char>) -> int
    decreases s.len(),
{
    if s.len() == 0 {
        0
    } else if str_lt(s[0].date(), k) {
        0
    } else {
        1 + first_older(s.drop_first(), k)
    }
}

/// `s`, newest first: the stable sort by `last_modified`, descending. Records with
/// equal dates keep their order.
pub open spec fn newest_first<V: Dated>(s: Seq<V>) -> Seq<V>
    decreases s.len(),
{
    if s.len() == 0 {
        s
    } else {
        let sorted = newest_first(s.drop_last());
        sorted.insert(first_older(sorted, s.last().date()), s.last())
    }
}

proof fn lemma_first_older_bound<V: Dated>(s: Seq<V>, k: Seq<char>)
    ensures
        0 <= first_older(s, k) <= s.len(),
    decreases s.len(),
{
    if s.len() > 0 {
        lemma_first_older_bound(s.drop_first(), k);
    }
}

proof fn lemma_newest_first_len<V: Dated>(s: Seq<V>)
    ensures
        newest_first(s).len() == s.len(),
    decreases s.len(),
{
    if s.len() > 0 {
        lemma_newest_first_len(s.drop_last());
        lemma_first_older_bound(newest_first(s.drop_last()), s.last().date());
    }
}

proof fn lemma_bytes_lt_trans(a: Seq<u8>, b: Seq<u8>, c: Seq<u8>)
    requires
        bytes_lt(a, b),
        bytes_lt(b, c),
    ensures
        bytes_lt(a, c),
    decreases a.len(),
{
    if a.len() > 0 && b.len() > 0 && c.len() > 0 && a[0] == b[0] && b[0] == c[0] {
        lemma_bytes_lt_trans(a.drop_first(), b.drop_first(), c.drop_first());
    }
}

proof fn lemma_bytes_lt_asym(a: Seq<u8>, b: Seq<u8>)
    requires
        bytes_lt(a, b),
    ensures
        !bytes_lt(b, a),
    decreases a.len(),
{
    if a.len() > 0 && b.len() > 0 && a[0] == b[0] {
        lemma_bytes_lt_asym(a.drop_first(), b.drop_first());
    }
}

/// `str` order is transitive.
pub proof fn lemma_str_lt_trans(a: Seq<char>, b: Seq<char>, c: Seq<char>)
    requires
        str_lt(a, b),
        str_lt(b, c),
    ensures
        str_lt(a, c),
{
    lemma_bytes_lt_trans(vstd::utf8::encode_utf8(a), vstd::utf8::encode_utf8(b), vstd::utf8::encode_utf8(c));
}

/// No text sorts strictly before itself.
pub proof fn lemma_str_lt_irreflexive(a: Seq<char>)
    ensures
        !str_lt(a, a),
{
    if str_lt(a, a) {
        lemma_bytes_lt_asym(vstd::utf8::encode_utf8(a), vstd::utf8::encode_utf8(a));
    }
}

/// Only the empty text does not sort after the empty text.
pub proof fn lemma_str_lt_empty(a: Seq<char>)
    ensures
        !str_lt(Seq::empty(), a) ==> a.len() == 0,
{
    if !str_lt(Seq::empty(), a) {
        assert(vstd::utf8::encode_utf8(Seq::<char>::empty()) =~= Seq::<u8>::empty());
        assert(vstd::utf8::encode_utf8(a).len() == 0);
        vstd::utf8::encode_utf8_decode_utf8(a);
        assert(vstd::utf8::encode_utf8(a) =~= Seq::<u8>::empty());
    }
}

/// No record is newer than one listed before it.
pub open spec fn listed_newest_first<V: Dated>(s: Seq<V>) -> bool {
    forall|i: int, j: int| 0 <= i < j < s.len() ==> !str_lt(#[trigger] s[i].date(), #[trigger] s[j].date())
}

proof fn lemma_first_older<V: Dated>(s: Seq<V>, k: Seq<char>)
    ensures
        0 <= first_older(s, k) <= s.len(),
        forall|i: int| 0 <= i < first_older(s, k) ==> !str_lt(#[trigger] s[i].date(), k),
        first_older(s, k) < s.len() ==> str_lt(s[first_older(s, k)].date(), k),
    decreases s.len(),
{
    if s.len() > 0 && !str_lt(s[0].date(), k) {
        lemma_first_older(s.drop_first(), k);
        assert forall|i: int| 0 <= i < first_older(s, k) implies !str_lt(#[trigger] s[i].date(), k) by {
            if i > 0 {
                assert(s[i] == s.drop_first()[i - 1]);
            }
        }
    }
}

/// Listing newest first gives a list in which no record is newer than one listed
/// before it, holding the same records.
pub proof fn law_newest_first<V: Dated>(s: Seq<V>)
    ensures
        listed_newest_first(newest_first(s)),
        newest_first(s).to_multiset() == s.to_multiset(),
        newest_first(s).len() == s.len(),
    decreases s.len(),
{
    broadcast use vstd::seq_lib::to_multiset_insert, vstd::seq_lib::to_multiset_build;

    if s.len() > 0 {
        let prev = s.drop_last();
        law_newest_first(prev);
        let sorted = newest_first(prev);
        let x = s.last();
        let k = x.date();
        lemma_first_older(sorted, k);
        let p = first_older(sorted, k);
        let r = sorted.insert(p, x);
        assert(r == newest_first(s));
        assert forall|i: int, j: int| 0 <= i < j < r.len() implies !str_lt(#[trigger] r[i].date(), #[trigger] r[j].date()) by {
            if j < p {
                assert(r[i] == sorted[i] && r[j] == sorted[j]);
            } else if j == p {
                assert(r[i] == sorted[i]);
                assert(r[j] == x);
            } else if i == p {
                assert(r[i] == x && r[j] == sorted[j - 1]);
                assert(str_lt(sorted[p].date(), k));
                if j - 1 > p {
                    assert(!str_lt(sorted[p].date(), sorted[j - 1].date()));
                }
                if str_lt(k, sorted[j - 1].date()) {
                    lemma_bytes_lt_trans(vstd::utf8::encode_utf8(sorted[p].date()), vstd::utf8::encode_utf8(k),
                        vstd::utf8::encode_utf8(sorted[j - 1].date()));
                    if j - 1 == p {
                        lemma_bytes_lt_asym(vstd::utf8::encode_utf8(sorted[p].date()), vstd::utf8::encode_utf8(k));
                    }
                }
            } else if i < p {
                assert(r[i] == sorted[i] && r[j] == sorted[j - 1]);
            } else {
                assert(r[i] == sorted[i - 1] && r[j] == sorted[j - 1]);
            }
        }
        assert(s == prev.push(x));
        assert(s.to_multiset() == prev.to_multiset().insert(x));
    }
}

/// Listing newest first keeps every property that all the records have.
pub proof fn lemma_newest_first_keeps<V: Dated>(s: Seq<V>, p: spec_fn(V) -> bool)
    requires
        forall|i: int| 0 <= i < s.len() ==> p(#[trigger] s[i]),
    ensures
        forall|i: int| 0 <= i < newest_first(s).len() ==> p(#[trigger] newest_first(s)[i]),
    decreases s.len(),
{
    if s.len() > 0 {
        let prev = s.drop_last();
        lemma_newest_first_keeps(prev, p);
        let sorted = newest_first(prev);
        let x = s.last();
        lemma_first_older_bound(sorted, x.date());
        let k = first_older(sorted, x.date());
        let r = sorted.insert(k, x);
        assert(r == newest_first(s));
        assert forall|i: int| 0 <= i < r.len() implies p(#[trigger] r[i]) by {
            if i < k {
                assert(r[i] == sorted[i]);
            } else if i > k {
                assert(r[i] == sorted[i - 1]);
            }
        }
    }
}

/// A record has date `d`.
pub open spec fn has_date<V: Dated>(d: Seq<char>) -> spec_fn(V) -> bool {
    |v: V| v.date() == d
}

/// The records of one date, in the order they come.
pub open spec fn dated<V: Dated>(s: Seq<V>, d: Seq<char>) -> Seq<V> {
    s.filter(has_date(d))
}

/// Listing newest first is stable: records with equal dates keep their order.
pub proof fn law_newest_first_is_stable<V: Dated>(s: Seq<V>, d: Seq<char>)
    ensures
        dated(newest_first(s), d) == dated(s, d),
    decreases s.len(),
{
    if s.len() > 0 {
        let pred = has_date::<V>(d);
        let prev = s.drop_last();
        law_newest_first_is_stable(prev, d);
        law_newest_first(prev);
        let sorted = newest_first(prev);
        let x = s.last();
        let k = x.date();
        lemma_first_older(sorted, k);
        let p = first_older(sorted, k);
        assert(newest_first(s) == sorted.insert(p, x));
        let a = sorted.take(p);
        let b = sorted.skip(p);
        assert(sorted =~= a + b);
        assert(sorted.insert(p, x) =~= a.push(x) + b);
        assert(s =~= prev.push(x));
        prev.lemma_filter_push(x, pred);
        a.lemma_filter_push(x, pred);
        Seq::filter_distributes_over_add(a, b, pred);
        Seq::filter_distributes_over_add(a.push(x), b, pred);
        if k == d {
            assert forall|j: int| 0 <= j < b.len() implies !pred(#[trigger] b[j]) by {
                assert(0 <= p + j < sorted.len());
                assert(b[j] == sorted[p + j]);
                if sorted[p + j].date() == k {
                    if j == 0 {
                        lemma_bytes_lt_asym(vstd::utf8::encode_utf8(k), vstd::utf8::encode_utf8(k));
                    } else {
                        assert(!str_lt(sorted[p].date(), sorted[p + j].date()));
                    }
                }
            }
            assert(b.all(|v: V| !pred(v)));
            b.lemma_all_neg_filter_empty(pred);
            assert(b.filter(pred) =~= Seq::<V>::empty());
            assert(a.filter(pred) + Seq::<V>::empty() =~= a.filter(pred));
            assert(a.filter(pred).push(x) + Seq::<V>::empty() =~= a.filter(pred).push(x));
        }
    }
}

/// Projects, newest first (see `newest_first`).
pub fn sort_projects_newest_first(v: Vec<ClaudeProject>) -> (r: Vec<ClaudeProject>)
    ensures
        projects_view(r@) == newest_first(projects_view(v@)),
{
    let ghost pv = projects_view(v@);
    let n = v.len();
    let mut rest = v;
    let mut reversed: Vec<ClaudeProject> = Vec::new();
    while rest.len() > 0
        invariant
            pv.len() == rest@.len() + reversed@.len(),
            forall|j: int| 0 <= j < rest@.len() ==> #[trigger] rest@[j]@ == pv[j],
            forall|j: int| 0 <= j < reversed@.len() ==> #[trigger] reversed@[j]@ == pv[pv.len() - 1 - j],
        decreases rest.len(),
    {
        let x = rest.pop().unwrap();
        reversed.push(x);
    }
    let mut out: Vec<ClaudeProject> = Vec::new();
    let mut done: usize = 0;
    assert(pv.subrange(0, 0) =~= Seq::<ProjectView>::empty());
    assert(projects_view(out@) =~= Seq::<ProjectView>::empty());
    while reversed.len() > 0
        invariant
            done + reversed@.len() == pv.len(),
            pv.len() == n,
            forall|j: int| 0 <= j < reversed@.len() ==> #[trigger] reversed@[j]@ == pv[pv.len() - 1 - j],
            projects_view(out@) == newest_first(pv.subrange(0, done as int)),
        decreases reversed.len(),
    {
        let x = reversed.pop().unwrap();
        let ghost sorted = projects_view(out@);
        proof {
            lemma_newest_first_len(pv.subrange(0, done as int));
            assert(pv.subrange(0, done + 1).drop_last() =~= pv.subrange(0, done as int));
            assert(pv.subrange(0, done + 1).last() == x@);
        }
        let mut j: usize = 0;
        assert(sorted.subrange(0, sorted.len() as int) =~= sorted);
        while j < out.len()
            invariant
                sorted == projects_view(out@),
                j <= out@.len(),
                first_older(sorted, x@.date()) == j + first_older(sorted.subrange(j as int, sorted.len() as int), x@.date()),
            ensures
                j < out@.len() ==> str_lt(sorted[j as int].date(), x@.date()),
            decreases out.len() - j,
        {
            assert(sorted.subrange(j as int, sorted.len() as int)[0] == sorted[j as int]);
            assert(sorted.subrange(j as int, sorted.len() as int).drop_first() =~= sorted.subrange(j + 1, sorted.len() as int));
            if str_less(out[j].last_modified.as_str(), x.last_modified.as_str()) {
                break;
            }
            j = j + 1;
        }
        proof {
            if j < out@.len() {
                assert(str_lt(sorted[j as int].date(), x@.date()));
            } else {
                assert(sorted.subrange(j as int, sorted.len() as int).len() == 0);
            }
        }
        let ghost before = out@;
        out.insert(j, x);
        assert(projects_view(out@) =~= sorted.insert(j as int, x@));
        done = done + 1;
    }
    assert(pv.subrange(0, done as int) =~= pv);
    out
}

/// Sessions, newest first (see `newest_first`).
pub fn sort_sessions_newest_first(v: Vec<ClaudeSession>) -> (r: Vec<ClaudeSession>)
    ensures
        sessions_view(r@) == newest_first(sessions_view(v@)),
{
    let ghost pv = sessions_view(v@);
    let n = v.len();
    let mut rest = v;
    let mut reversed: Vec<ClaudeSession> = Vec::new();
    while rest.len() > 0
        invariant
            pv.len() == rest@.len() + reversed@.len(),
            forall|j: int| 0 <= j < rest@.len() ==> #[trigger] rest@[j]@ == pv[j],
            forall|j: int| 0 <= j < reversed@.len() ==> #[trigger] reversed@[j]@ == pv[pv.len() - 1 - j],
        decreases rest.len(),
    {
        let x = rest.pop().unwrap();
        reversed.push(x);
    }
    let mut out: Vec<ClaudeSession> = Vec::new();
    let mut done: usize = 0;
    assert(pv.subrange(0, 0) =~= Seq::<SessionView>::empty());
    assert(sessions_view(out@) =~= Seq::<SessionView>::empty());
    while reversed.len() > 0
        invariant
            done + reversed@.len() == pv.len(),
            pv.len() == n,
            forall|j: int| 0 <= j < reversed@.len() ==> #[trigger] reversed@[j]@ == pv[pv.len() - 1 - j],
            sessions_view(out@) == newest_first(pv.subrange(0, done as int)),
        decreases reversed.len(),
    {
        let x = reversed.pop().unwrap();
        let ghost sorted = sessions_view(out@);
        proof {
            lemma_newest_first_len(pv.subrange(0, done as int));
            assert(pv.subrange(0, done + 1).drop_last() =~= pv.subrange(0, done as int));
            assert(pv.subrange(0, done + 1).last() == x@);
        }
        let mut j: usize = 0;
        assert(sorted.subrange(0, sorted.len() as int) =~= sorted);
        while j < out.len()
            invariant
                sorted == sessions_view(out@),
                j <= out@.len(),
                first_older(sorted, x@.date()) == j + first_older(sorted.subrange(j as int, sorted.len() as int), x@.date()),
            ensures
                j < out@.len() ==> str_lt(sorted[j as int].date(), x@.date()),
            decreases out.len() - j,
        {
            assert(sorted.subrange(j as int, sorted.len() as int)[0] == sorted[j as int]);
            assert(sorted.subrange(j as int, sorted.len() as int).drop_first() =~= sorted.subrange(j + 1, sorted.len() as int));
            if str_less(out[j].last_modified.as_str(), x.last_modified.as_str()) {
                break;
            }
            j = j + 1;
        }
        proof {
            if j < out@.len() {
                assert(str_lt(sorted[j as int].date(), x@.date()));
            } else {
                assert(sorted.subrange(j as int, sorted.len() as int).len() == 0);
            }
        }
        let ghost before = out@;
        out.insert(j, x);
        assert(sessions_view(out@) =~= sorted.insert(j as int, x@));
        done = done + 1;
    }
    assert(pv.subrange(0, done as int) =~= pv);
    out
}

/// A copy of an optional string.
pub fn clone_opt_string(o: &Option<String>) -> (r: Option<String>)
    ensures
        opt_str(r) == opt_str(*o),
{
    match o {
        Some(s) => Some(s.clone()),
        None => None,
    }
}

/// An owned copy of an optional string slice.
pub fn opt_own(o: Option<&str>) -> (r: Option<String>)
    ensures
        opt_str(r) == match o {
            Some(s) => Some(s@),
            None => None,
        },
{
    match o {
        Some(s) => Some(own(s)),
        None => None,
    }
}

/// The index of the last assistant message, or -1 when there is none.
pub open spec fn last_assistant(ms: Seq<MessageView>) -> int
    decreases ms.len(),
{
    if ms.len() == 0 {
        -1
    } else if ms.last().message_type == "assistant"@ {
        ms.len() - 1
    } else {
        last_assistant(ms.drop_last())
    }
}

pub proof fn lemma_last_assistant(ms: Seq<MessageView>)
    ensures
        -1 <= last_assistant(ms) < ms.len(),
        last_assistant(ms) >= 0 ==> ms[last_assistant(ms)].message_type == "assistant"@,
        last_assistant(ms) == -1 <==> forall|i: int| 0 <= i < ms.len() ==> ms[i].message_type != "assistant"@,
    decreases ms.len(),
{
    if ms.len() > 0 {
        lemma_last_assistant(ms.drop_last());
        if ms.last().message_type != "assistant"@ {
            if last_assistant(ms.drop_last()) == -1 {
                assert forall|i: int| 0 <= i < ms.len() implies ms[i].message_type != "assistant"@ by {
                    if i < ms.len() - 1 {
                        assert(ms.drop_last()[i] == ms[i]);
                    }
                }
            } else {
                let k = last_assistant(ms.drop_last());
                assert(ms.drop_last()[k] == ms[k]);
            }
        }
    }
}

/// The index of the last assistant message (see `last_assistant`).
pub fn last_assistant_index(ms: &Vec<ClaudeMessage>) -> (r: Option<usize>)
    ensures
        match r {
            Some(k) => k as int == last_assistant(messages_view(ms@)) && k < ms@.len(),
            None => last_assistant(messages_view(ms@)) == -1,
        },
{
    let ghost mv = messages_view(ms@);
    let mut i = ms.len();
    assert(mv.subrange(0, i as int) =~= mv);
    while i > 0
        invariant
            mv == messages_view(ms@),
            i <= ms@.len(),
            last_assistant(mv) == last_assistant(mv.subrange(0, i as int)),
        decreases i,
    {
        assert(mv.subrange(0, i as int).last() == ms@[i - 1]@);
        if str_eq(ms[i - 1].message_type.as_str(), "assistant") {
            return Some(i - 1);
        }
        assert(mv.subrange(0, i as int).drop_last() =~= mv.subrange(0, i - 1));
        i = i - 1;
    }
    None
}

/// Replacing the message at `k` replaces its view.
pub proof fn lemma_messages_replace(v: Seq<ClaudeMessage>, k: int, m: ClaudeMessage)
    requires
        0 <= k < v.len(),
    ensures
        messages_view(v.remove(k).insert(k, m)) == messages_view(v).update(k, m@),
{
    assert(messages_view(v.remove(k).insert(k, m)) =~= messages_view(v).update(k, m@));
}

/// A token count of at most `u32::MAX`.
pub open spec fn cap_u32(n: u64) -> u32 {
    if n > u32::MAX { u32::MAX } else { n as u32 }
}

/// A count capped to `u32`.
pub fn capped_u32(n: u64) -> (r: u32)
    ensures
        r == cap_u32(n),
{
    if n > 4294967295u64 { 4294967295u32 } else { n as u32 }
}

/// A usage record with an input count only.
pub open spec fn input_only(tokens: u32) -> TokenUsage {
    TokenUsage {
        input_tokens: Some(tokens),
        output_tokens: None,
        cache_creation_input_tokens: None,
        cache_read_input_tokens: None,
    }
}

/// How many results a search with `limit` returns at most: a limit of 0 still
/// returns the first hit.
pub open spec fn result_cap(limit: usize) -> nat {
    if limit == 0 { 1 } else { limit as nat }
}

/// The first `result_cap(limit)` hits.
pub open spec fn capped(hits: Seq<MessageView>, limit: usize) -> Seq<MessageView> {
    if hits.len() <= result_cap(limit) { hits } else { hits.take(result_cap(limit) as int) }
}

pub proof fn lemma_prefix_trans(a: Seq<MessageView>, b: Seq<MessageView>, c: Seq<MessageView>)
    requires
        a.is_prefix_of(b),
        b.is_prefix_of(c),
    ensures
        a.is_prefix_of(c),
{
    assert(c.take(a.len() as int) =~= b.take(a.len() as int));
}

pub proof fn lemma_prefix_prepend(p: Seq<MessageView>, a: Seq<MessageView>, b: Seq<MessageView>)
    requires
        a.is_prefix_of(b),
    ensures
        (p + a).is_prefix_of(p + b),
{
    assert((p + b).take((p + a).len() as int) =~= p + a);
}

/// A prefix of the hits that is as long as the cap is what the search returns.
pub proof fn lemma_capped_prefix(p: Seq<MessageView>, all: Seq<MessageView>, limit: usize)
    requires
        p.is_prefix_of(all),
        p.len() == result_cap(limit),
    ensures
        capped(all, limit) == p,
{
    assert(all.take(p.len() as int) =~= p);
}

/// A message as a search reports it: a copy of `m` tagged with its project's name.
pub open spec fn tagged(m: MessageView, name: Seq<char>) -> MessageView {
    MessageView { project_name: Some(name), ..m }
}

/// A copy of `m` tagged with the project name `name`.
pub fn with_project_name(m: &ClaudeMessage, name: &str) -> (r: ClaudeMessage)
    ensures
        r@ == tagged(m@, name@),
{
    ClaudeMessage {
        uuid: m.uuid.clone(),
        session_id: m.session_id.clone(),
        timestamp: m.timestamp.clone(),
        message_type: m.message_type.clone(),
        role: clone_opt_string(&m.role),
        content: match &m.content {
            Some(c) => Some(c.duplicate()),
            None => None,
        },
        model: clone_opt_string(&m.model),
        usage: m.usage,
        provider: clone_opt_string(&m.provider),
        project_name: Some(own(name)),
    }
}

/// Whether a message's content mentions the lower-cased query.
pub open spec fn message_matches(m: MessageView, q: Seq<char>) -> bool {
    match m.content {
        Some(c) => mentions(c, q),
        None => false,
    }
}

/// The messages that mention `q`, in order, tagged with the project name `name`.
pub open spec fn message_hits(ms: Seq<MessageView>, q: Seq<char>, name: Seq<char>) -> Seq<MessageView>
    decreases ms.len(),
{
    if ms.len() == 0 {
        Seq::empty()
    } else {
        let prev = message_hits(ms.drop_last(), q, name);
        if message_matches(ms.last(), q) { prev.push(tagged(ms.last(), name)) } else { prev }
    }
}

pub proof fn lemma_message_hits_prefix(ms: Seq<MessageView>, k: int, q: Seq<char>, name: Seq<char>)
    requires
        0 <= k <= ms.len(),
    ensures
        message_hits(ms.take(k), q, name).is_prefix_of(message_hits(ms, q, name)),
    decreases ms.len(),
{
    if k == ms.len() {
        assert(ms.take(k) =~= ms);
        assert(message_hits(ms, q, name).take(message_hits(ms, q, name).len() as int) =~= message_hits(ms, q, name));
    } else {
        assert(ms.drop_last().take(k) =~= ms.take(k));
        lemma_message_hits_prefix(ms.drop_last(), k, q, name);
        let prev = message_hits(ms.drop_last(), q, name);
        assert(prev.is_prefix_of(message_hits(ms, q, name))) by {
            assert(message_hits(ms, q, name).take(prev.len() as int) =~= prev);
        }
        lemma_prefix_trans(message_hits(ms.take(k), q, name), prev, message_hits(ms, q, name));
    }
}

/// Builds a provider message with no usage and no project name.
pub fn build_provider_message(
    provider: &str,
    uuid: String,
    session_id: &str,
    timestamp: String,
    message_type: &str,
    role: Option<&str>,
    content: Option<Json>,
    model: Option<String>,
) -> (m: ClaudeMessage)
    ensures
        m@ == provider_message(
            provider@,
            uuid@,
            session_id@,
            timestamp@,
            message_type@,
            match role {
                Some(r) => Some(r@),
                None => None,
            },
            opt_json(content),
            opt_str(model),
        ),
{
    ClaudeMessage {
        uuid,
        session_id: own(session_id),
        timestamp,
        message_type: own(message_type),
        role: match role {
            Some(r) => Some(own(r)),
            None => None,
        },
        content,
        model,
        usage: None,
        provider: Some(own(provider)),
        project_name: None,
    }
}

/// The path that decides a project's path status: the trimmed actual path, when it is
/// a non-empty absolute filesystem path (not a provider URI such as `x://...`).
pub open spec fn status_path(actual_path: Seq<char>) -> Option<Seq<char>> {
    let p = crate::text::trim(actual_path);
    if p.len() == 0 || crate::text::contains_seq(p, "://"@) || !crate::text::has_prefix(p, "/"@) {
        None
    } else {
        Some(p)
    }
}

/// The path whose existence decides the project's path status, if any.
pub fn project_status_path(actual_path: &str) -> (r: Option<String>)
    ensures
        opt_str(r) == status_path(actual_path@),
{
    let p = str_trim(actual_path);
    if p.is_empty() || str_contains(p, "://") || !str_starts_with(p, "/") {
        None
    } else {
        Some(own(p))
    }
}

/// Path status of a project: `Unavailable` exactly when its actual path is a checkable
/// absolute path (see `status_path`) that does not name a directory. `is_dir` tells
/// whether that path names a directory.
pub fn project_path_status(actual_path: &str, is_dir: bool) -> (r: Option<ProjectPathStatus>)
    ensures
        r == (if status_path(actual_path@) is Some && !is_dir {
            Some(ProjectPathStatus::Unavailable)
        } else {
            None
        }),
{
    match project_status_path(actual_path) {
        Some(_) => if is_dir {
            None
        } else {
            Some(ProjectPathStatus::Unavailable)
        },
        None => None,
    }
}

// ---------------------------------------------------------------------------
// Laws of search results
// ---------------------------------------------------------------------------

/// A search returns at most as many messages as its cap allows, and they are the
/// first hits, in order.
pub proof fn law_capped_results(hits: Seq<MessageView>, limit: usize)
    ensures
        capped(hits, limit).len() <= result_cap(limit),
        capped(hits, limit).is_prefix_of(hits),
        hits.len() <= result_cap(limit) ==> capped(hits, limit) == hits,
{
    if hits.len() <= result_cap(limit) {
        assert(hits.take(hits.len() as int) =~= hits);
    }
}

/// Every hit mentions the query and carries the project name it was found under.
pub proof fn law_message_hits_match(ms: Seq<MessageView>, q: Seq<char>, name: Seq<char>)
    ensures
        message_hits(ms, q, name).len() <= ms.len(),
        forall|i: int| 0 <= i < message_hits(ms, q, name).len() ==> message_matches(#[trigger] message_hits(ms, q, name)[i], q)
            && message_hits(ms, q, name)[i].project_name == Some(name),
    decreases ms.len(),
{
    if ms.len() > 0 {
        law_message_hits_match(ms.drop_last(), q, name);
        let prev = message_hits(ms.drop_last(), q, name);
        assert forall|i: int| 0 <= i < message_hits(ms, q, name).len() implies message_matches(#[trigger] message_hits(ms, q, name)[i], q)
            && message_hits(ms, q, name)[i].project_name == Some(name) by {
            if i < prev.len() {
                assert(message_hits(ms, q, name)[i] == prev[i]);
            }
        }
    }
}

} // verus!
