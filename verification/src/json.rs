//! The JSON documents that the providers read and write, as a library type with
//! a mathematical view, plus the two calls into `serde_json` (parse and print).
use vstd::prelude::*;
use crate::text::{contains_seq, lowercase, own, str_contains, str_eq, str_to_lowercase};

verus! {

/// A JSON number, holding what the library reads from it.
#[derive(Debug, Clone, PartialEq)]
pub struct JsonNumber {
    /// The number's canonical JSON text (what `serde_json` prints for it).
    pub text: String,
    /// The value when the number is an integer in `0..=u64::MAX`.
    pub as_u64: Option<u64>,
    /// The number read as a double and cast to `u64` (saturating, negatives give 0).
    pub as_f64_truncated: u64,
}

/// A JSON document. Object entries keep their order; keys are unique in documents
/// that come from a parse, and a lookup finds the first entry with the key.
#[derive(Debug, PartialEq)]
pub enum Json {
    Null,
    Bool(bool),
    Number(JsonNumber),
    Str(String),
    Array(Vec<Json>),
    Object(Vec<(String, Json)>),
}

pub struct NumberView {
    pub text: Seq<char>,
    pub as_u64: Option<u64>,
    pub as_f64_truncated: u64,
}

/// The mathematical value of a JSON document.
pub enum JsonView {
    Null,
    Bool(bool),
    Number(NumberView),
    Str(Seq<char>),
    Array(Seq<JsonView>),
    Object(Seq<(Seq<char>, JsonView)>),
}

impl View for JsonNumber {
    type V = NumberView;

    open spec fn view(&self) -> NumberView {
        NumberView { text: self.text@, as_u64: self.as_u64, as_f64_truncated: self.as_f64_truncated }
    }
}

pub open spec fn json_view(j: Json) -> JsonView
    decreases j,
{
    match j {
        Json::Null => JsonView::Null,
        Json::Bool(b) => JsonView::Bool(b),
        Json::Number(n) => JsonView::Number(n@),
        Json::Str(s) => JsonView::Str(s@),
        Json::Array(items) => JsonView::Array(
            Seq::new(
                items@.len(),
                |i: int|
                    if 0 <= i < items@.len() {
                        json_view(items@[i])
                    } else {
                        JsonView::Null
                    },
            ),
        ),
        Json::Object(entries) => JsonView::Object(
            Seq::new(
                entries@.len(),
                |i: int|
                    if 0 <= i < entries@.len() {
                        (entries@[i].0@, json_view(entries@[i].1))
                    } else {
                        (Seq::empty(), JsonView::Null)
                    },
            ),
        ),
    }
}

impl View for Json {
    type V = JsonView;

    open spec fn view(&self) -> JsonView {
        json_view(*self)
    }
}

/// The views of a sequence of documents.
pub open spec fn items_view(items: Seq<Json>) -> Seq<JsonView> {
    Seq::new(items.len(), |i: int| items[i]@)
}

/// The views of a sequence of object entries.
pub open spec fn entries_view(entries: Seq<(String, Json)>) -> Seq<(Seq<char>, JsonView)> {
    Seq::new(entries.len(), |i: int| (entries[i].0@, entries[i].1@))
}

pub open spec fn opt_view(o: Option<&Json>) -> Option<JsonView> {
    match o {
        Some(j) => Some(j@),
        None => None,
    }
}

pub open spec fn opt_owned_view(o: Option<Json>) -> Option<JsonView> {
    match o {
        Some(j) => Some(j@),
        None => None,
    }
}

/// The value of the first entry of `entries` whose key is `key`.
pub open spec fn lookup(entries: Seq<(Seq<char>, JsonView)>, key: Seq<char>) -> Option<JsonView>
    decreases entries.len(),
{
    if entries.len() == 0 {
        None
    } else if entries[0].0 == key {
        Some(entries[0].1)
    } else {
        lookup(entries.drop_first(), key)
    }
}

impl JsonView {
    /// The member `key` of an object; `None` for a missing key or a non-object.
    pub open spec fn get(self, key: Seq<char>) -> Option<JsonView> {
        match self {
            JsonView::Object(entries) => lookup(entries, key),
            _ => None,
        }
    }

    pub open spec fn as_str(self) -> Option<Seq<char>> {
        match self {
            JsonView::Str(s) => Some(s),
            _ => None,
        }
    }

    pub open spec fn as_u64(self) -> Option<u64> {
        match self {
            JsonView::Number(n) => n.as_u64,
            _ => None,
        }
    }

    /// The number read as a double and cast to an unsigned integer.
    pub open spec fn as_f64_truncated(self) -> Option<u64> {
        match self {
            JsonView::Number(n) => Some(n.as_f64_truncated),
            _ => None,
        }
    }

    pub open spec fn as_bool(self) -> Option<bool> {
        match self {
            JsonView::Bool(b) => Some(b),
            _ => None,
        }
    }

    pub open spec fn as_array(self) -> Option<Seq<JsonView>> {
        match self {
            JsonView::Array(items) => Some(items),
            _ => None,
        }
    }

    pub open spec fn is_null(self) -> bool {
        self is Null
    }

    /// `self.get(key)` read as a string.
    pub open spec fn get_str(self, key: Seq<char>) -> Option<Seq<char>> {
        match self.get(key) {
            Some(v) => v.as_str(),
            None => None,
        }
    }

    /// `self.get(key)` read as an unsigned integer.
    pub open spec fn get_u64(self, key: Seq<char>) -> Option<u64> {
        match self.get(key) {
            Some(v) => v.as_u64(),
            None => None,
        }
    }

    /// `self.get(key)` read as a boolean.
    pub open spec fn get_bool(self, key: Seq<char>) -> Option<bool> {
        match self.get(key) {
            Some(v) => v.as_bool(),
            None => None,
        }
    }

    /// `self.get(key)` read as an array.
    pub open spec fn get_array(self, key: Seq<char>) -> Option<Seq<JsonView>> {
        match self.get(key) {
            Some(v) => v.as_array(),
            None => None,
        }
    }

    /// `self.get(key)` read as a double cast to an unsigned integer.
    pub open spec fn get_f64_truncated(self, key: Seq<char>) -> Option<u64> {
        match self.get(key) {
            Some(v) => v.as_f64_truncated(),
            None => None,
        }
    }
}

/// The member `key` of `v`, when `v` is present.
pub open spec fn member(v: Option<JsonView>, key: Seq<char>) -> Option<JsonView> {
    match v {
        Some(v) => v.get(key),
        None => None,
    }
}

/// The object with the given entries.
pub open spec fn obj(entries: Seq<(Seq<char>, JsonView)>) -> JsonView {
    JsonView::Object(entries)
}

/// A JSON string.
pub open spec fn jstr(s: Seq<char>) -> JsonView {
    JsonView::Str(s)
}

/// `{"type": "text", "text": text}`.
pub open spec fn text_block(text: Seq<char>) -> JsonView {
    obj(seq![("type"@, JsonView::Str("text"@)), ("text"@, JsonView::Str(text))])
}

pub proof fn lemma_array_view(items: Vec<Json>)
    ensures
        Json::Array(items)@ == JsonView::Array(items_view(items@)),
{
    assert(Json::Array(items)@->Array_0 =~= items_view(items@));
}

pub proof fn lemma_object_view(entries: Vec<(String, Json)>)
    ensures
        Json::Object(entries)@ == JsonView::Object(entries_view(entries@)),
{
    assert(Json::Object(entries)@->Object_0 =~= entries_view(entries@));
}

impl Json {
    /// The member `key` of an object.
    pub fn get(&self, key: &str) -> (r: Option<&Json>)
        ensures
            opt_view(r) == self@.get(key@),
    {
        match self {
            Json::Object(entries) => {
                proof {
                    lemma_object_view(*entries);
                    assert(*self == Json::Object(*entries));
                }
                let ghost ev = entries_view(entries@);
                let mut i: usize = 0;
                assert(ev.skip(0) =~= ev);
                while i < entries.len()
                    invariant
                        ev == entries_view(entries@),
                        self@ == JsonView::Object(ev),
                        i <= entries@.len(),
                        lookup(ev, key@) == lookup(ev.skip(i as int), key@),
                    decreases entries.len() - i,
                {
                    assert(ev.skip(i as int)[0] == ev[i as int]);
                    assert(ev.skip(i as int).drop_first() =~= ev.skip(i + 1));
                    if str_eq(entries[i].0.as_str(), key) {
                        assert(ev[i as int] == (entries@[i as int].0@, entries@[i as int].1@));
                        return Some(&entries[i].1);
                    }
                    i = i + 1;
                }
                None
            },
            _ => None,
        }
    }

    pub fn as_str(&self) -> (r: Option<&str>)
        ensures
            r matches Some(s) ==> self@.as_str() == Some(s@),
            r is None ==> self@.as_str() is None,
    {
        match self {
            Json::Str(s) => Some(s.as_str()),
            _ => None,
        }
    }

    pub fn as_u64(&self) -> (r: Option<u64>)
        ensures
            r == self@.as_u64(),
    {
        match self {
            Json::Number(n) => n.as_u64,
            _ => None,
        }
    }

    pub fn as_f64_truncated(&self) -> (r: Option<u64>)
        ensures
            r == self@.as_f64_truncated(),
    {
        match self {
            Json::Number(n) => Some(n.as_f64_truncated),
            _ => None,
        }
    }

    pub fn as_bool(&self) -> (r: Option<bool>)
        ensures
            r == self@.as_bool(),
    {
        match self {
            Json::Bool(b) => Some(*b),
            _ => None,
        }
    }

    pub fn as_array(&self) -> (r: Option<&Vec<Json>>)
        ensures
            r matches Some(items) ==> self@.as_array() == Some(items_view(items@)),
            r is None ==> self@.as_array() is None,
    {
        match self {
            Json::Array(items) => {
                proof {
                    lemma_array_view(*items);
                }
                Some(items)
            },
            _ => None,
        }
    }

    pub fn is_null(&self) -> (r: bool)
        ensures
            r == self@.is_null(),
    {
        match self {
            Json::Null => true,
            _ => false,
        }
    }

    pub fn get_str(&self, key: &str) -> (r: Option<&str>)
        ensures
            r matches Some(s) ==> self@.get_str(key@) == Some(s@),
            r is None ==> self@.get_str(key@) is None,
    {
        match self.get(key) {
            Some(v) => v.as_str(),
            None => None,
        }
    }

    pub fn get_u64(&self, key: &str) -> (r: Option<u64>)
        ensures
            r == self@.get_u64(key@),
    {
        match self.get(key) {
            Some(v) => v.as_u64(),
            None => None,
        }
    }

    pub fn get_bool(&self, key: &str) -> (r: Option<bool>)
        ensures
            r == self@.get_bool(key@),
    {
        match self.get(key) {
            Some(v) => v.as_bool(),
            None => None,
        }
    }

    pub fn get_f64_truncated(&self, key: &str) -> (r: Option<u64>)
        ensures
            r == self@.get_f64_truncated(key@),
    {
        match self.get(key) {
            Some(v) => v.as_f64_truncated(),
            None => None,
        }
    }

    pub fn get_array(&self, key: &str) -> (r: Option<&Vec<Json>>)
        ensures
            r matches Some(items) ==> self@.get_array(key@) == Some(items_view(items@)),
            r is None ==> self@.get_array(key@) is None,
    {
        match self.get(key) {
            Some(v) => v.as_array(),
            None => None,
        }
    }

    /// A deep copy.
    pub fn duplicate(&self) -> (r: Json)
        ensures
            r@ == self@,
        decreases self,
    {
        match self {
            Json::Null => Json::Null,
            Json::Bool(b) => Json::Bool(*b),
            Json::Number(n) => Json::Number(
                JsonNumber { text: n.text.clone(), as_u64: n.as_u64, as_f64_truncated: n.as_f64_truncated },
            ),
            Json::Str(s) => Json::Str(s.clone()),
            Json::Array(items) => {
                let mut out: Vec<Json> = Vec::new();
                let mut i: usize = 0;
                while i < items.len()
                    invariant
                        *self == Json::Array(*items),
                        i <= items@.len(),
                        out@.len() == i,
                        forall|k: int| 0 <= k < i ==> out@[k]@ == items@[k]@,
                    decreases items.len() - i,
                {
                                        assert(decreases_to!(*self => (*self)->Array_0));
                    assert(decreases_to!(*items => items@));
                    assert(decreases_to!(items@ => items@[i as int]));
                    assert(decreases_to!(*self => items@[i as int]));
                    let c = items[i].duplicate();
                    out.push(c);
                    i = i + 1;
                }
                proof {
                    lemma_array_view(*items);
                    lemma_array_view(out);
                    assert(items_view(out@) =~= items_view(items@));
                }
                Json::Array(out)
            },
            Json::Object(entries) => {
                let mut out: Vec<(String, Json)> = Vec::new();
                let mut i: usize = 0;
                while i < entries.len()
                    invariant
                        *self == Json::Object(*entries),
                        i <= entries@.len(),
                        out@.len() == i,
                        forall|k: int| 0 <= k < i ==> out@[k].0@ == entries@[k].0@ && out@[k].1@ == entries@[k].1@,
                    decreases entries.len() - i,
                {
                    assert(decreases_to!(*self => (*self)->Object_0));
                    assert(decreases_to!(*entries => entries@));
                    assert(decreases_to!(entries@ => entries@[i as int]));
                    assert(decreases_to!(entries@[i as int] => entries@[i as int].1));
                    assert(decreases_to!(*self => entries@[i as int].1));
                    let c = entries[i].1.duplicate();
                    out.push((entries[i].0.clone(), c));
                    i = i + 1;
                }
                proof {
                    lemma_object_view(*entries);
                    lemma_object_view(out);
                    assert(entries_view(out@) =~= entries_view(entries@));
                }
                Json::Object(out)
            },
        }
    }

    /// A JSON string holding `s`.
    pub fn string(s: &str) -> (r: Json)
        ensures
            r@ == JsonView::Str(s@),
    {
        Json::Str(own(s))
    }

    /// The object with the given entries.
    pub fn object(entries: Vec<(String, Json)>) -> (r: Json)
        ensures
            r@ == JsonView::Object(entries_view(entries@)),
    {
        proof {
            lemma_object_view(entries);
        }
        Json::Object(entries)
    }

    /// The array with the given items.
    pub fn array(items: Vec<Json>) -> (r: Json)
        ensures
            r@ == JsonView::Array(items_view(items@)),
    {
        proof {
            lemma_array_view(items);
        }
        Json::Array(items)
    }
}

/// `{"type": "text", "text": text}`.
pub fn make_text_block(text: &str) -> (r: Json)
    ensures
        r@ == text_block(text@),
{
    let entries = vec![(own("type"), Json::string("text")), (own("text"), Json::string(text))];
    let r = Json::object(entries);
    assert(entries_view(entries@) =~= seq![("type"@, JsonView::Str("text"@)), ("text"@, JsonView::Str(text@))]);
    r
}

/// An object with one entry.
pub fn obj1(k1: &str, v1: Json) -> (r: Json)
    ensures
        r@ == obj(seq![(k1@, v1@)]),
{
    let entries = vec![(own(k1), v1)];
    let r = Json::object(entries);
    assert(entries_view(entries@) =~= seq![(k1@, v1@)]);
    r
}

/// An object with two entries.
pub fn obj2(k1: &str, v1: Json, k2: &str, v2: Json) -> (r: Json)
    ensures
        r@ == obj(seq![(k1@, v1@), (k2@, v2@)]),
{
    let entries = vec![(own(k1), v1), (own(k2), v2)];
    let r = Json::object(entries);
    assert(entries_view(entries@) =~= seq![(k1@, v1@), (k2@, v2@)]);
    r
}

/// An object with three entries.
pub fn obj3(k1: &str, v1: Json, k2: &str, v2: Json, k3: &str, v3: Json) -> (r: Json)
    ensures
        r@ == obj(seq![(k1@, v1@), (k2@, v2@), (k3@, v3@)]),
{
    let entries = vec![(own(k1), v1), (own(k2), v2), (own(k3), v3)];
    let r = Json::object(entries);
    assert(entries_view(entries@) =~= seq![(k1@, v1@), (k2@, v2@), (k3@, v3@)]);
    r
}

/// An object with four entries.
pub fn obj4(k1: &str, v1: Json, k2: &str, v2: Json, k3: &str, v3: Json, k4: &str, v4: Json) -> (r: Json)
    ensures
        r@ == obj(seq![(k1@, v1@), (k2@, v2@), (k3@, v3@), (k4@, v4@)]),
{
    let entries = vec![(own(k1), v1), (own(k2), v2), (own(k3), v3), (own(k4), v4)];
    let r = Json::object(entries);
    assert(entries_view(entries@) =~= seq![(k1@, v1@), (k2@, v2@), (k3@, v3@), (k4@, v4@)]);
    r
}

/// Some string inside `v` (at any depth, object keys aside) contains `q` once
/// lower-cased.
pub open spec fn mentions(v: JsonView, q: Seq<char>) -> bool
    decreases v,
{
    match v {
        JsonView::Str(s) => contains_seq(lowercase(s), q),
        JsonView::Array(items) => items_mention(items, q),
        JsonView::Object(entries) => entries_mention(entries, q),
        _ => false,
    }
}

/// Some item mentions `q`.
pub open spec fn items_mention(items: Seq<JsonView>, q: Seq<char>) -> bool
    decreases items,
{
    if items.len() == 0 {
        false
    } else {
        items_mention(items.drop_last(), q) || mentions(items.last(), q)
    }
}

/// Some entry's value mentions `q`.
pub open spec fn entries_mention(entries: Seq<(Seq<char>, JsonView)>, q: Seq<char>) -> bool
    decreases entries,
{
    if entries.len() == 0 {
        false
    } else {
        entries_mention(entries.drop_last(), q) || mentions(entries.last().1, q)
    }
}

proof fn lemma_items_mention(s: Seq<JsonView>, q: Seq<char>)
    ensures
        items_mention(s, q) <==> exists|i: int| 0 <= i < s.len() && #[trigger] mentions(s[i], q),
    decreases s.len(),
{
    if s.len() > 0 {
        lemma_items_mention(s.drop_last(), q);
        if items_mention(s.drop_last(), q) {
            let i = choose|i: int| 0 <= i < s.drop_last().len() && #[trigger] mentions(s.drop_last()[i], q);
            assert(s[i] == s.drop_last()[i]);
        }
        if exists|i: int| 0 <= i < s.len() && #[trigger] mentions(s[i], q) {
            let i = choose|i: int| 0 <= i < s.len() && #[trigger] mentions(s[i], q);
            if i < s.len() - 1 {
                assert(s.drop_last()[i] == s[i]);
            } else {
                assert(s.last() == s[i]);
            }
        }
        if mentions(s.last(), q) {
            assert(mentions(s[s.len() - 1], q));
        }
    }
}

proof fn lemma_entries_mention(s: Seq<(Seq<char>, JsonView)>, q: Seq<char>)
    ensures
        entries_mention(s, q) <==> exists|i: int| 0 <= i < s.len() && #[trigger] mentions(s[i].1, q),
    decreases s.len(),
{
    if s.len() > 0 {
        lemma_entries_mention(s.drop_last(), q);
        if entries_mention(s.drop_last(), q) {
            let i = choose|i: int| 0 <= i < s.drop_last().len() && #[trigger] mentions(s.drop_last()[i].1, q);
            assert(s[i] == s.drop_last()[i]);
        }
        if exists|i: int| 0 <= i < s.len() && #[trigger] mentions(s[i].1, q) {
            let i = choose|i: int| 0 <= i < s.len() && #[trigger] mentions(s[i].1, q);
            if i < s.len() - 1 {
                assert(s.drop_last()[i] == s[i]);
            } else {
                assert(s.last() == s[i]);
            }
        }
        if mentions(s.last().1, q) {
            assert(mentions(s[s.len() - 1].1, q));
        }
    }
}

/// Whether some string inside `v` contains `query_lower` once lower-cased.
pub fn json_mentions(v: &Json, query_lower: &str) -> (r: bool)
    ensures
        r == mentions(v@, query_lower@),
    decreases v,
{
    match v {
        Json::Str(s) => {
            let lower = str_to_lowercase(s.as_str());
            str_contains(lower.as_str(), query_lower)
        },
        Json::Array(items) => {
            proof {
                lemma_array_view(*items);
            }
            let mut i: usize = 0;
            while i < items.len()
                invariant
                    *v == Json::Array(*items),
                    v@ == JsonView::Array(items_view(items@)),
                    i <= items@.len(),
                    forall|j: int| 0 <= j < i ==> !mentions(#[trigger] items_view(items@)[j], query_lower@),
                decreases items.len() - i,
            {
                assert(decreases_to!(*v => (*v)->Array_0));
                assert(decreases_to!(*items => items@));
                assert(decreases_to!(items@ => items@[i as int]));
                assert(decreases_to!(*v => items@[i as int]));
                if json_mentions(&items[i], query_lower) {
                    proof {
                        lemma_items_mention(items_view(items@), query_lower@);
                        assert(mentions(items_view(items@)[i as int], query_lower@));
                    }
                    return true;
                }
                i = i + 1;
            }
            proof {
                lemma_items_mention(items_view(items@), query_lower@);
            }
            false
        },
        Json::Object(entries) => {
            proof {
                lemma_object_view(*entries);
            }
            let mut i: usize = 0;
            while i < entries.len()
                invariant
                    *v == Json::Object(*entries),
                    v@ == JsonView::Object(entries_view(entries@)),
                    i <= entries@.len(),
                    forall|j: int| 0 <= j < i ==> !mentions(#[trigger] entries_view(entries@)[j].1, query_lower@),
                decreases entries.len() - i,
            {
                assert(decreases_to!(*v => (*v)->Object_0));
                assert(decreases_to!(*entries => entries@));
                assert(decreases_to!(entries@ => entries@[i as int]));
                assert(decreases_to!(entries@[i as int] => entries@[i as int].1));
                assert(decreases_to!(*v => entries@[i as int].1));
                if json_mentions(&entries[i].1, query_lower) {
                    proof {
                        lemma_entries_mention(entries_view(entries@), query_lower@);
                        assert(mentions(entries_view(entries@)[i as int].1, query_lower@));
                    }
                    return true;
                }
                i = i + 1;
            }
            proof {
                lemma_entries_mention(entries_view(entries@), query_lower@);
            }
            false
        },
        _ => false,
    }
}

/// Deep copies of a sequence of documents.
pub fn duplicate_items(v: &Vec<Json>) -> (r: Vec<Json>)
    ensures
        items_view(r@) == items_view(v@),
{
    let mut out: Vec<Json> = Vec::new();
    let mut i: usize = 0;
    while i < v.len()
        invariant
            i <= v@.len(),
            out@.len() == i,
            forall|j: int| 0 <= j < i ==> (#[trigger] out@[j])@ == v@[j]@,
        decreases v.len() - i,
    {
        out.push(v[i].duplicate());
        i = i + 1;
    }
    assert(items_view(out@) =~= items_view(v@));
    out
}

/// A copy of `v`, or `null` when absent.
pub fn duplicate_or_null(v: Option<&Json>) -> (r: Json)
    ensures
        r@ == (match opt_view(v) {
            Some(x) => x,
            None => JsonView::Null,
        }),
{
    match v {
        Some(x) => x.duplicate(),
        None => Json::Null,
    }
}

/// `s`, or `default` when `s` is absent.
pub open spec fn str_or(s: Option<Seq<char>>, default: Seq<char>) -> Seq<char> {
    match s {
        Some(s) => s,
        None => default,
    }
}

/// `s`, or `default` when `s` is absent.
pub fn str_or_default<'a>(s: Option<&'a str>, default: &'a str) -> (r: &'a str)
    ensures
        r@ == str_or(match s {
            Some(x) => Some(x@),
            None => None,
        }, default@),
{
    match s {
        Some(x) => x,
        None => default,
    }
}

// ---------------------------------------------------------------------------
// serde_json
// ---------------------------------------------------------------------------

#[verifier::external_type_specification]
#[verifier::external_body]
pub struct ExSerdeJsonValue(serde_json::Value);

/// The document that `serde_json` parses from `text`, or `None` when `text` is not JSON.
pub uninterp spec fn parsed_json(text: Seq<char>) -> Option<JsonView>;

/// The compact text that `serde_json` prints for a document.
pub uninterp spec fn printed_json(v: JsonView) -> Seq<char>;

/// `serde_json::from_str::<serde_json::Value>`: the parsed document, converted node for
/// node into a `Json`; `None` when `text` is not a JSON document.
#[verifier::external_body]
pub(crate) fn parse_json(text: &str) -> (r: Option<Json>)
    ensures
        opt_owned_view(r) == parsed_json(text@),
{
    serde_json::from_str::<serde_json::Value>(text).ok().map(from_serde)
}

/// `serde_json::Value::to_string`: the compact JSON text of `v`, after converting it node
/// for node into a `serde_json::Value`.
#[verifier::external_body]
pub(crate) fn print_json(v: &Json) -> (r: String)
    ensures
        r@ == printed_json(v@),
{
    to_serde(v).to_string()
}

/// The message (`Display` of `serde_json::Error`) that `serde_json` reports for a text
/// that is not a JSON document.
pub uninterp spec fn json_error_text(text: Seq<char>) -> Seq<char>;

/// The `Display` text of the error that `serde_json::from_str::<serde_json::Value>`
/// returns for `text`, which is not a JSON document.
#[verifier::external_body]
pub(crate) fn json_parse_error(text: &str) -> (r: String)
    requires
        parsed_json(text@) is None,
    ensures
        r@ == json_error_text(text@),
{
    match serde_json::from_str::<serde_json::Value>(text) {
        Ok(_) => String::new(),
        Err(e) => e.to_string(),
    }
}

/// Node-for-node conversion of a parsed `serde_json::Value` (part of `parse_json`).
#[verifier::external_body]
fn from_serde(value: serde_json::Value) -> Json {
    match value {
        serde_json::Value::Null => Json::Null,
        serde_json::Value::Bool(b) => Json::Bool(b),
        serde_json::Value::Number(n) => Json::Number(JsonNumber {
            text: n.to_string(),
            as_u64: n.as_u64(),
            as_f64_truncated: n.as_f64().map_or(0, |x| x as u64),
        }),
        serde_json::Value::String(s) => Json::Str(s),
        serde_json::Value::Array(a) => Json::Array(a.into_iter().map(from_serde).collect()),
        serde_json::Value::Object(m) => Json::Object(m.into_iter().map(|(k, v)| (k, from_serde(v))).collect()),
    }
}

/// Node-for-node conversion into a `serde_json::Value` (part of `print_json`).
#[verifier::external_body]
fn to_serde(value: &Json) -> serde_json::Value {
    match value {
        Json::Null => serde_json::Value::Null,
        Json::Bool(b) => serde_json::Value::Bool(*b),
        Json::Number(n) => n.text.parse::<serde_json::Number>().map_or(serde_json::Value::Null, serde_json::Value::Number),
        Json::Str(s) => serde_json::Value::String(s.clone()),
        Json::Array(a) => serde_json::Value::Array(a.iter().map(to_serde).collect()),
        Json::Object(m) => serde_json::Value::Object(m.iter().map(|(k, v)| (k.clone(), to_serde(v))).collect()),
    }
}

} // verus!
