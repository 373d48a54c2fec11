//! One level of a JSON document: what a JSON text is at its top, with the
//! texts of its direct children.

use serde_json::Value;
use vstd::prelude::*;

verus! {

/// The top level of a parsed JSON text. The children of arrays and objects
/// are kept as their own compact JSON texts.
pub enum JsonNode {
    Null,
    Bool(bool),
    /// The number as written by the JSON printer.
    Number(String),
    Str(String),
    /// The texts of the elements, in order.
    Array(Vec<String>),
    /// The keys and the texts of the values, in the order the parser yields them.
    Object(Vec<(String, String)>),
}

/// The mathematical form of a [`JsonNode`].
pub enum JsonNodeV {
    Null,
    Bool(bool),
    Number(Seq<char>),
    Str(Seq<char>),
    Array(Seq<Seq<char>>),
    Object(Seq<(Seq<char>, Seq<char>)>),
}

impl View for JsonNode {
    type V = JsonNodeV;

    open spec fn view(&self) -> JsonNodeV {
        match self {
            JsonNode::Null => JsonNodeV::Null,
            JsonNode::Bool(b) => JsonNodeV::Bool(*b),
            JsonNode::Number(t) => JsonNodeV::Number(t@),
            JsonNode::Str(s) => JsonNodeV::Str(s@),
            JsonNode::Array(items) => JsonNodeV::Array(items.deep_view()),
            JsonNode::Object(members) => JsonNodeV::Object(members.deep_view()),
        }
    }
}

/// What `serde_json` makes of a text: its top-level node, or the text of the
/// parse error.
pub uninterp spec fn json_node(text: Seq<char>) -> Result<JsonNodeV, Seq<char>>;

/// The view of a parse result.
pub open spec fn parse_view(r: Result<JsonNode, String>) -> Result<JsonNodeV, Seq<char>> {
    match r {
        Ok(n) => Ok(n@),
        Err(e) => Err(e@),
    }
}

/// Parses `text` with `serde_json::from_str` into a `serde_json::Value` and
/// returns its top level: scalars as they are (numbers by their `Display`
/// text), arrays and objects with each child printed back by `serde_json`'s
/// compact `Display`. On a parse error it returns the error's `Display` text.
/// The contract only names the result: it is a function of the text alone.
#[verifier::external_body]
pub fn parse_json_node(text: &str) -> (r: Result<JsonNode, String>)
    ensures
        parse_view(r) == json_node(text@),
{
    match serde_json::from_str::<Value>(text) {
        Err(e) => Err(e.to_string()),
        Ok(Value::Null) => Ok(JsonNode::Null),
        Ok(Value::Bool(b)) => Ok(JsonNode::Bool(b)),
        Ok(Value::Number(n)) => Ok(JsonNode::Number(n.to_string())),
        Ok(Value::String(s)) => Ok(JsonNode::Str(s)),
        Ok(Value::Array(a)) => Ok(JsonNode::Array(a.iter().map(|x| x.to_string()).collect())),
        Ok(Value::Object(m)) => Ok(JsonNode::Object(m.iter().map(|(k, x)| (k.clone(), x.to_string())).collect())),
    }
}

/// The value text of the first member named `key`.
pub open spec fn member_text(members: Seq<(Seq<char>, Seq<char>)>, key: Seq<char>) -> Option<
    Seq<char>,
>
    decreases members.len(),
{
    if members.len() == 0 {
        None
    } else if members[0].0 == key {
        Some(members[0].1)
    } else {
        member_text(members.drop_first(), key)
    }
}

/// The node of a value given by its text; an absent value, and a text that
/// does not parse, read as `null`.
pub open spec fn node_at(v: Option<Seq<char>>) -> JsonNodeV {
    match v {
        None => JsonNodeV::Null,
        Some(t) => match json_node(t) {
            Ok(n) => n,
            Err(_) => JsonNodeV::Null,
        },
    }
}

/// Indexing a value by a key, as `value[key]` does: the member of an object,
/// absent for a missing member or a value that is not an object.
pub open spec fn index(v: Option<Seq<char>>, key: Seq<char>) -> Option<Seq<char>> {
    match node_at(v) {
        JsonNodeV::Object(members) => member_text(members, key),
        _ => None,
    }
}

/// The value text of the first member named `key`.
pub fn member_text_exec(members: &Vec<(String, String)>, key: &str) -> (r: Option<String>)
    ensures
        match r {
            Some(t) => member_text(members.deep_view(), key@) == Some(t@),
            None => member_text(members.deep_view(), key@) is None,
        },
{
    let ghost ms = members.deep_view();
    let mut i: usize = 0;
    assert(ms.skip(0) =~= ms);
    while i < members.len()
        invariant
            i <= members.len(),
            ms == members.deep_view(),
            member_text(ms, key@) == member_text(ms.skip(i as int), key@),
        decreases members.len() - i,
    {
        assert(ms.skip(i as int)[0] == ms[i as int]);
        assert(ms.skip(i as int).drop_first() =~= ms.skip(i + 1));
        if str_eq(members[i].0.as_str(), key) {
            return Some(members[i].1.clone());
        }
        i = i + 1;
    }
    None
}

/// Whether two strings hold the same characters.
pub fn str_eq(a: &str, b: &str) -> (r: bool)
    ensures
        r == (a@ == b@),
{
    let n = a.unicode_len();
    if n != b.unicode_len() {
        return false;
    }
    let mut i: usize = 0;
    while i < n
        invariant
            n == a@.len(),
            n == b@.len(),
            i <= n,
            forall|j: int| 0 <= j < i ==> a@[j] == b@[j],
        decreases n - i,
    {
        if a.get_char(i) != b.get_char(i) {
            return false;
        }
        i = i + 1;
    }
    assert(a@ =~= b@);
    true
}

/// The node of a value given by its text, as [`node_at`] reads it.
pub fn node_at_exec(v: &Option<String>) -> (r: JsonNode)
    ensures
        r@ == node_at(match v {
            Some(t) => Some(t@),
            None => None,
        }),
{
    match v {
        None => JsonNode::Null,
        Some(t) => match parse_json_node(t.as_str()) {
            Ok(n) => n,
            Err(_) => JsonNode::Null,
        },
    }
}

/// The view of an optional text.
pub open spec fn opt_view(v: Option<String>) -> Option<Seq<char>> {
    match v {
        Some(t) => Some(t@),
        None => None,
    }
}

/// `value[key]`, as [`index`] reads it.
pub fn index_exec(v: &Option<String>, key: &str) -> (r: Option<String>)
    ensures
        opt_view(r) == index(opt_view(*v), key@),
{
    match node_at_exec(v) {
        JsonNode::Object(members) => member_text_exec(&members, key),
        _ => None,
    }
}

} // verus!
