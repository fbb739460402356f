//! JSON values as the template engine reads them: a string's contents, the
//! compact text of any other value, and dot-paths through objects and arrays.
//! Each step of a path re-reads the compact text of the value it reached.
use vstd::prelude::*;

use crate::bindings::{json_node, parse_json_node};
use crate::text::{chars_of, parse_unsigned, parse_unsigned_exec, same, split_on, split_on_exec};

verus! {

/// One level of a parsed JSON value.
#[derive(Debug)]
pub enum JsonNode {
    /// A string: its contents.
    Str(String),
    /// `null`, `true`, `false` or a number: its compact text.
    Scalar(String),
    /// An array: the compact texts of its elements, and its own.
    Array(Vec<String>, String),
    /// An object: its member names with the compact texts of their values,
    /// in order, and its own compact text.
    Object(Vec<(String, String)>, String),
}

pub enum JsonNodeV {
    Str(Seq<char>),
    Scalar(Seq<char>),
    Array(Seq<Seq<char>>, Seq<char>),
    Object(Seq<(Seq<char>, Seq<char>)>, Seq<char>),
}

impl View for JsonNode {
    type V = JsonNodeV;

    open spec fn view(&self) -> JsonNodeV {
        match self {
            JsonNode::Str(s) => JsonNodeV::Str(s@),
            JsonNode::Scalar(t) => JsonNodeV::Scalar(t@),
            JsonNode::Array(items, t) => JsonNodeV::Array(items.deep_view(), t@),
            JsonNode::Object(members, t) => JsonNodeV::Object(members.deep_view(), t@),
        }
    }
}

/// The value text of the first member named `key`.
pub open spec fn member(members: Seq<(Seq<char>, Seq<char>)>, key: Seq<char>) -> Option<Seq<char>>
    decreases members.len(),
{
    if members.len() == 0 {
        None
    } else if members[0].0 == key {
        Some(members[0].1)
    } else {
        member(members.drop_first(), key)
    }
}

/// One step of a dot-path from the JSON text `text`: an object member, or an
/// array element whose index is the (decimal) key.
pub open spec fn child(text: Seq<char>, key: Seq<char>) -> Option<Seq<char>> {
    match json_node(text) {
        Some(JsonNodeV::Object(members, _)) => member(members, key),
        Some(JsonNodeV::Array(items, _)) => match parse_unsigned(key, usize::MAX as nat) {
            Some(i) => if i < items.len() {
                Some(items[i as int])
            } else {
                None
            },
            None => None,
        },
        _ => None,
    }
}

pub open spec fn walk(text: Seq<char>, keys: Seq<Seq<char>>) -> Option<Seq<char>>
    decreases keys.len(),
{
    if keys.len() == 0 {
        Some(text)
    } else {
        match child(text, keys[0]) {
            Some(t) => walk(t, keys.drop_first()),
            None => None,
        }
    }
}

/// A value as text: a string's contents, otherwise its JSON text.
pub open spec fn value_text(text: Seq<char>) -> Seq<char> {
    match json_node(text) {
        Some(JsonNodeV::Str(s)) => s,
        _ => text,
    }
}

/// The value at a dot-separated path (e.g. `items.0.id`) in a JSON text.
pub open spec fn json_at(text: Seq<char>, path: Seq<char>) -> Option<Seq<char>> {
    match walk(text, split_on(path, '.')) {
        Some(t) => Some(value_text(t)),
        None => None,
    }
}

fn member_exec(members: &Vec<(String, String)>, key: &[char]) -> (r: Option<String>)
    ensures
        r matches Some(t) ==> member(members.deep_view(), key@) == Some(t@),
        r is None ==> member(members.deep_view(), key@) is None,
{
    let ghost ms = members.deep_view();
    let mut i: usize = 0;
    assert(ms.skip(0) =~= ms);
    while i < members.len()
        invariant
            i <= members@.len(),
            ms == members.deep_view(),
            member(ms, key@) == member(ms.skip(i as int), key@),
        decreases members@.len() - i,
    {
        assert(ms[i as int] == (members@[i as int].0@, members@[i as int].1@));
        assert(ms.skip(i as int)[0] == ms[i as int]);
        assert(ms.skip(i as int).drop_first() =~= ms.skip(i + 1));
        if same(chars_of(members[i].0.as_str()).as_slice(), key) {
            return Some(members[i].1.clone());
        }
        i += 1;
    }
    None
}

fn child_exec(text: &str, key: &[char]) -> (r: Option<String>)
    ensures
        r matches Some(t) ==> child(text@, key@) == Some(t@),
        r is None ==> child(text@, key@) is None,
{
    match parse_json_node(text) {
        Some(JsonNode::Object(members, _)) => member_exec(&members, key),
        Some(JsonNode::Array(items, _)) => match parse_unsigned_exec(key, usize::MAX as u128) {
            Some(i) => {
                if i < items.len() as u128 {
                    assert(items.deep_view()[i as int] == items@[i as int]@);
                    Some(items[i as usize].clone())
                } else {
                    None
                }
            },
            None => None,
        },
        _ => None,
    }
}

fn value_text_exec(text: &str) -> (r: Vec<char>)
    ensures
        r@ == value_text(text@),
{
    match parse_json_node(text) {
        Some(JsonNode::Str(s)) => chars_of(s.as_str()),
        _ => chars_of(text),
    }
}

/// Navigates a dot-separated path through a JSON text. Array indices are
/// numeric path segments (e.g. "items.0.id").
pub fn json_at_exec(text: &str, path: &[char]) -> (r: Option<Vec<char>>)
    ensures
        r matches Some(t) ==> json_at(text@, path@) == Some(t@),
        r is None ==> json_at(text@, path@) is None,
{
    let keys = split_on_exec(path, '.');
    let ghost ks = split_on(path@, '.');
    let mut cur: String = crate::text::string_from(text);
    let mut i: usize = 0;
    assert(ks.skip(0) =~= ks);
    while i < keys.len()
        invariant
            i <= keys@.len(),
            keys.deep_view() == ks,
            ks == split_on(path@, '.'),
            walk(text@, ks) == walk(cur@, ks.skip(i as int)),
        decreases keys@.len() - i,
    {
        assert(keys.deep_view()[i as int] =~= keys@[i as int]@);
        assert(ks.skip(i as int)[0] == ks[i as int]);
        assert(ks.skip(i as int).drop_first() =~= ks.skip(i + 1));
        match child_exec(cur.as_str(), keys[i].as_slice()) {
            Some(next) => {
                cur = next;
            },
            None => {
                return None;
            },
        }
        i += 1;
    }
    assert(ks.skip(keys@.len() as int).len() == 0);
    Some(value_text_exec(cur.as_str()))
}

/// Whether a text is JSON at all.
pub fn is_json(text: &str) -> (r: bool)
    ensures
        r == (json_node(text@) is Some),
{
    parse_json_node(text).is_some()
}

/// Whether a request body is stored in session and preset files as a native
/// JSON value rather than as a string: only when that reads back byte for
/// byte, i.e. the body is an object, array, number or boolean already in
/// compact form (a JSON string would lose its quotes, `null` would read back
/// as no body).
pub open spec fn native_body(body: Seq<char>) -> bool {
    match json_node(body) {
        Some(JsonNodeV::Object(_, t)) => t == body,
        Some(JsonNodeV::Array(_, t)) => t == body,
        Some(JsonNodeV::Scalar(t)) => t == body && body != "null"@,
        _ => false,
    }
}

pub fn body_is_native_json(body: &str) -> (r: bool)
    ensures
        r == native_body(body@),
{
    let b = chars_of(body);
    match parse_json_node(body) {
        Some(JsonNode::Object(_, t)) => same(chars_of(t.as_str()).as_slice(), b.as_slice()),
        Some(JsonNode::Array(_, t)) => same(chars_of(t.as_str()).as_slice(), b.as_slice()),
        Some(JsonNode::Scalar(t)) => same(chars_of(t.as_str()).as_slice(), b.as_slice()) && !same(
            b.as_slice(),
            chars_of("null").as_slice(),
        ),
        _ => false,
    }
}

} // verus!
