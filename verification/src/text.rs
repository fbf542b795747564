//! Character-level helpers shared by the providers: the few `str` operations of std
//! that the library relies on, and verified text functions built on top of them.
use vstd::prelude::*;

verus! {

// ---------------------------------------------------------------------------
// Specifications of text shapes
// ---------------------------------------------------------------------------

/// Whether `c` has Unicode's `White_Space` property (the set `char::is_whitespace`
/// tests): tab to carriage return, space, next line, no-break space, ogham space mark,
/// en quad to hair space, line and paragraph separators, narrow no-break space, medium
/// mathematical space and ideographic space.
pub open spec fn is_white_space(c: char) -> bool {
    let u = c as u32;
    ||| 0x09 <= u <= 0x0D
    ||| u == 0x20
    ||| u == 0x85
    ||| u == 0xA0
    ||| u == 0x1680
    ||| 0x2000 <= u <= 0x200A
    ||| u == 0x2028
    ||| u == 0x2029
    ||| u == 0x202F
    ||| u == 0x205F
    ||| u == 0x3000
}

/// The lower-case mapping that `str::to_lowercase` applies to a whole string.
pub uninterp spec fn lowercase(s: Seq<char>) -> Seq<char>;

/// `p` is a prefix of `s`.
pub open spec fn has_prefix(s: Seq<char>, p: Seq<char>) -> bool {
    p.len() <= s.len() && s.subrange(0, p.len() as int) == p
}

/// `p` occurs in `s` starting at index `i`.
pub open spec fn occurs_at(s: Seq<char>, p: Seq<char>, i: int) -> bool {
    0 <= i && i + p.len() <= s.len() && s.subrange(i, i + p.len()) == p
}

/// The first index at or after `i` where `p` occurs in `s`.
pub open spec fn find_from(s: Seq<char>, p: Seq<char>, i: int) -> Option<int>
    decreases s.len() + 1 - i,
{
    if i < 0 || i + p.len() > s.len() {
        None
    } else if occurs_at(s, p, i) {
        Some(i)
    } else {
        find_from(s, p, i + 1)
    }
}

/// `p` occurs somewhere in `s`.
pub open spec fn contains_seq(s: Seq<char>, p: Seq<char>) -> bool {
    find_from(s, p, 0) is Some
}

/// The parts of `s` before and after the first occurrence of `p`.
pub open spec fn split_first(s: Seq<char>, p: Seq<char>) -> Option<(Seq<char>, Seq<char>)> {
    match find_from(s, p, 0) {
        Some(i) => Some((s.subrange(0, i), s.subrange(i + p.len(), s.len() as int))),
        None => None,
    }
}

/// `s` with its leading white space removed.
pub open spec fn trim_start(s: Seq<char>) -> Seq<char>
    decreases s.len(),
{
    if s.len() > 0 && is_white_space(s[0]) {
        trim_start(s.drop_first())
    } else {
        s
    }
}

/// `s` with its trailing white space removed.
pub open spec fn trim_end(s: Seq<char>) -> Seq<char>
    decreases s.len(),
{
    if s.len() > 0 && is_white_space(s.last()) {
        trim_end(s.drop_last())
    } else {
        s
    }
}

/// `s` with leading and trailing white space removed.
pub open spec fn trim(s: Seq<char>) -> Seq<char> {
    trim_end(trim_start(s))
}

/// `s` holds nothing but white space.
pub open spec fn is_blank(s: Seq<char>) -> bool {
    trim(s).len() == 0
}

/// The decimal digits of `n`, most significant first, without leading zeros.
pub open spec fn decimal(n: nat) -> Seq<char>
    decreases n,
{
    if n < 10 {
        seq![digit_char(n)]
    } else {
        decimal(n / 10).push(digit_char(n % 10))
    }
}

pub open spec fn digit_char(d: nat) -> char {
    if d == 0 { '0' }
    else if d == 1 { '1' }
    else if d == 2 { '2' }
    else if d == 3 { '3' }
    else if d == 4 { '4' }
    else if d == 5 { '5' }
    else if d == 6 { '6' }
    else if d == 7 { '7' }
    else if d == 8 { '8' }
    else { '9' }
}

/// `a` sorts strictly before `b` in lexicographic byte order.
pub open spec fn bytes_lt(a: Seq<u8>, b: Seq<u8>) -> bool
    decreases a.len(),
{
    if b.len() == 0 {
        false
    } else if a.len() == 0 {
        true
    } else if a[0] != b[0] {
        a[0] < b[0]
    } else {
        bytes_lt(a.drop_first(), b.drop_first())
    }
}

/// `a` sorts strictly before `b`: `str` order, lexicographic on UTF-8 bytes.
pub open spec fn str_lt(a: Seq<char>, b: Seq<char>) -> bool {
    bytes_lt(vstd::utf8::encode_utf8(a), vstd::utf8::encode_utf8(b))
}

/// The index of the last `/` in `s`, or -1.
pub open spec fn last_slash(s: Seq<char>) -> int
    decreases s.len(),
{
    if s.len() == 0 {
        -1
    } else if s.last() == '/' {
        s.len() - 1
    } else {
        last_slash(s.drop_last())
    }
}

pub proof fn lemma_last_slash_bound(s: Seq<char>)
    ensures
        -1 <= last_slash(s) < s.len(),
        last_slash(s) >= 0 ==> s[last_slash(s)] == '/',
        forall|i: int| last_slash(s) < i < s.len() ==> s[i] != '/',
    decreases s.len(),
{
    if s.len() > 0 && s.last() != '/' {
        lemma_last_slash_bound(s.drop_last());
        assert forall|i: int| last_slash(s) < i < s.len() implies s[i] != '/' by {
            if i < s.len() - 1 {
                assert(s[i] == s.drop_last()[i]);
            }
        }
    }
}

/// The final component of a `/`-separated path, as `Path::file_name` gives it on Unix:
/// empty and `.` components are skipped, and there is none when the path ends in `..`,
/// is a root, or is empty.
pub open spec fn file_name(s: Seq<char>) -> Option<Seq<char>>
    decreases s.len(),
{
    let j = last_slash(s);
    let seg = s.subrange(j + 1, s.len() as int);
    if seg.len() == 0 || seg == seq!['.'] {
        if j < 0 {
            None
        } else {
            proof {
                lemma_last_slash_bound(s);
            }
            file_name(s.subrange(0, j))
        }
    } else if seg == seq!['.', '.'] {
        None
    } else {
        Some(seg)
    }
}

// ---------------------------------------------------------------------------
// std operations on `str` that vstd leaves unspecified
// ---------------------------------------------------------------------------

/// `str::lt`: whether `a` sorts strictly before `b` (lexicographic byte order).
#[verifier::external_body]
pub(crate) fn str_less(a: &str, b: &str) -> (r: bool)
    ensures
        r == str_lt(a@, b@),
{
    a < b
}

/// `str::eq`: two string slices are equal when they hold the same characters.
#[verifier::external_body]
pub(crate) fn str_eq(a: &str, b: &str) -> (r: bool)
    ensures
        r == (a@ == b@),
{
    a == b
}

/// `str::starts_with` with a string pattern: whether `p` is a prefix of `s`.
#[verifier::external_body]
pub(crate) fn str_starts_with(s: &str, p: &str) -> (r: bool)
    ensures
        r == has_prefix(s@, p@),
{
    s.starts_with(p)
}

/// `str::strip_prefix` with a string pattern: the rest of `s` after the prefix `p`,
/// or `None` when `s` does not start with `p`.
#[verifier::external_body]
pub(crate) fn str_strip_prefix<'a>(s: &'a str, p: &str) -> (r: Option<&'a str>)
    ensures
        r is Some <==> has_prefix(s@, p@),
        r matches Some(rest) ==> rest@ == s@.subrange(p@.len() as int, s@.len() as int),
{
    s.strip_prefix(p)
}

/// `str::contains` with a string pattern: whether `p` occurs in `s`.
#[verifier::external_body]
pub(crate) fn str_contains(s: &str, p: &str) -> (r: bool)
    ensures
        r == contains_seq(s@, p@),
{
    s.contains(p)
}

/// `str::split_once` with a string pattern: the parts before and after the first
/// occurrence of `p`, or `None` when `p` does not occur.
#[verifier::external_body]
pub(crate) fn str_split_once<'a>(s: &'a str, p: &str) -> (r: Option<(&'a str, &'a str)>)
    ensures
        r is None <==> split_first(s@, p@) is None,
        r matches Some((a, b)) ==> split_first(s@, p@) == Some((a@, b@)),
{
    s.split_once(p)
}

/// `str::trim`: `s` without leading and trailing white space.
#[verifier::external_body]
pub(crate) fn str_trim(s: &str) -> (r: &str)
    ensures
        r@ == trim(s@),
{
    s.trim()
}

/// `str::to_lowercase`: the lower-case mapping of `s`.
#[verifier::external_body]
pub(crate) fn str_to_lowercase(s: &str) -> (r: String)
    ensures
        r@ == lowercase(s@),
{
    s.to_lowercase()
}

/// `String::push`: appends one character.
#[verifier::external_body]
pub(crate) fn string_push(s: &mut String, c: char)
    ensures
        final(s)@ == old(s)@.push(c),
{
    s.push(c)
}

/// `String::from_utf8`: the decoded text when `bytes` is valid UTF-8, else `None`.
#[verifier::external_body]
pub(crate) fn string_from_utf8(bytes: Vec<u8>) -> (r: Option<String>)
    ensures
        r is Some <==> vstd::utf8::valid_utf8(bytes@),
        r matches Some(s) ==> s@ == vstd::utf8::decode_utf8(bytes@),
{
    String::from_utf8(bytes).ok()
}

// ---------------------------------------------------------------------------
// Verified helpers
// ---------------------------------------------------------------------------

/// An owned copy of `s`.
pub fn own(s: &str) -> (r: String)
    ensures
        r@ == s@,
{
    String::from_str(s)
}

/// The characters of `s`, in order.
pub fn chars_of(s: &str) -> (v: Vec<char>)
    ensures
        v@ == s@,
{
    let mut v: Vec<char> = Vec::new();
    for c in it: s.chars()
        invariant
            v@ == it.seq().take(it.index() as int),
            it.seq() == s@,
    {
        v.push(c);
    }
    v
}

/// A string holding `chars[from..to]`.
pub fn string_of_range(chars: &Vec<char>, from: usize, to: usize) -> (r: String)
    requires
        from <= to <= chars@.len(),
    ensures
        r@ == chars@.subrange(from as int, to as int),
{
    let mut r = String::new();
    let mut i = from;
    while i < to
        invariant
            from <= i <= to <= chars@.len(),
            r@ == chars@.subrange(from as int, i as int),
        decreases to - i,
    {
        string_push(&mut r, chars[i]);
        i = i + 1;
        assert(r@ =~= chars@.subrange(from as int, i as int));
    }
    r
}

/// `a` followed by `b`.
pub fn concat(a: &str, b: &str) -> (r: String)
    ensures
        r@ == a@ + b@,
{
    let mut r = String::from_str(a);
    r.append(b);
    r
}

/// Whether `s` holds nothing but white space.
pub fn blank(s: &str) -> (r: bool)
    ensures
        r == is_blank(s@),
{
    str_trim(s).is_empty()
}

/// The final component of a path (see `file_name`).
pub fn path_file_name(path: &str) -> (r: Option<String>)
    ensures
        match r {
            Some(n) => file_name(path@) == Some(n@),
            None => file_name(path@) is None,
        },
{
    let cs = chars_of(path);
    let mut hi: usize = cs.len();
    assert(cs@.subrange(0, hi as int) =~= cs@);
    loop
        invariant
            cs@ == path@,
            hi <= cs@.len(),
            file_name(path@) == file_name(cs@.subrange(0, hi as int)),
        decreases hi,
    {
        let ghost t = cs@.subrange(0, hi as int);
        let mut k: usize = hi;
        assert(t.subrange(0, k as int) =~= t);
        while k > 0 && cs[k - 1] != '/'
            invariant
                t == cs@.subrange(0, hi as int),
                k <= hi <= cs@.len(),
                last_slash(t) == last_slash(t.subrange(0, k as int)),
                forall|i: int| k <= i < hi ==> cs@[i] != '/',
            decreases k,
        {
            assert(t.subrange(0, k as int).drop_last() =~= t.subrange(0, k - 1));
            k = k - 1;
        }
        proof {
            lemma_last_slash_bound(t);
            if k > 0 {
                assert(t.subrange(0, k as int).last() == '/');
                assert(last_slash(t) == k - 1);
            } else {
                assert(t.subrange(0, 0).len() == 0);
                assert(last_slash(t) == -1);
            }
        }
        let seg_len = hi - k;
        let is_dot = seg_len == 1 && cs[k] == '.';
        let is_dotdot = seg_len == 2 && cs[k] == '.' && cs[k + 1] == '.';
        proof {
            let seg = t.subrange(last_slash(t) + 1, t.len() as int);
            assert(seg =~= cs@.subrange(k as int, hi as int));
            if seg_len == 1 {
                assert(is_dot == (seg == seq!['.'])) by {
                    if seg == seq!['.'] { assert(seg[0] == '.'); }
                    if is_dot { assert(seg =~= seq!['.']); }
                }
            }
            if seg_len == 2 {
                assert(is_dotdot == (seg == seq!['.', '.'])) by {
                    if seg == seq!['.', '.'] { assert(seg[0] == '.' && seg[1] == '.'); }
                    if is_dotdot { assert(seg =~= seq!['.', '.']); }
                }
            }
            if seg_len != 1 { assert(seg.len() != 1); }
            if seg_len != 2 { assert(seg.len() != 2); }
        }
        if seg_len == 0 || is_dot {
            if k == 0 {
                return None;
            }
            assert(t.subrange(0, k - 1) =~= cs@.subrange(0, k - 1));
            hi = k - 1;
        } else if is_dotdot {
            return None;
        } else {
            return Some(string_of_range(&cs, k, hi));
        }
    }
}

/// The decimal digit character of `d`.
fn digit(d: u64) -> (c: char)
    requires
        d < 10,
    ensures
        c == digit_char(d as nat),
{
    if d == 0 { '0' }
    else if d == 1 { '1' }
    else if d == 2 { '2' }
    else if d == 3 { '3' }
    else if d == 4 { '4' }
    else if d == 5 { '5' }
    else if d == 6 { '6' }
    else if d == 7 { '7' }
    else if d == 8 { '8' }
    else { '9' }
}

/// The decimal representation of `n`.
pub fn decimal_string(n: u64) -> (r: String)
    ensures
        r@ == decimal(n as nat),
    decreases n,
{
    if n < 10 {
        let mut r = String::new();
        string_push(&mut r, digit(n));
        assert(r@ =~= decimal(n as nat));
        r
    } else {
        let mut r = decimal_string(n / 10);
        string_push(&mut r, digit(n % 10));
        r
    }
}

} // verus!
