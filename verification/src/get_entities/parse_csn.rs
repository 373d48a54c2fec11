//! An element notation in which every element kind carries its `key` flag,
//! with the defaults its fields take when the JSON leaves them out.

use crate::csn::{
    bool_of, bool_of_exec, cat, default_bool, default_bool_exec, default_i64, default_i64_exec,
    default_string, default_string_exec, invalid_type, invalid_type_exec, opt_field,
    opt_field_exec, rdv, string_of, string_of_exec, tag_of, tag_of_exec, with_end_position,
};
use crate::json::{
    json_node, member_text, member_text_exec, node_at, node_at_exec, opt_view, parse_json_node,
    JsonNode, JsonNodeV,
};
use crate::text::{decimal, decimal_text, end_position, int_value, is_int_text, parse_int_text};
use vstd::prelude::*;

verus! {

#[derive(Debug)]
pub struct Service {
    pub name: String,
}

#[derive(Debug)]
pub struct Entity {
    pub name: String,
    pub elements: Vec<Element>,
}

#[derive(Debug)]
pub struct PrimitiveElementKind<T> {
    pub key: bool,
    pub default: Option<Default<T>>,
}

#[derive(Debug)]
pub enum Default<T> {
    Val(T),
}

#[derive(Debug)]
pub struct StringElementKind {
    pub name: String,
    pub key: bool,
    pub length: Option<u16>,
    pub default: Option<Default<String>>,
}

#[derive(Debug)]
pub struct Element {
    pub name: String,
    pub kind: ElementKind,
}

#[derive(Debug)]
pub enum ElementKind {
    UUID(PrimitiveElementKind<String>),
    Boolean(PrimitiveElementKind<bool>),
    Integer(PrimitiveElementKind<i64>),
    String(StringElementKind),
}

#[derive(Debug)]
pub enum Definition {
    Service(Service),
    Entity(Entity),
}

/// The `key` flag of an element that does not give one.
pub fn make_false() -> (r: bool)
    ensures
        r == false,
{
    false
}

/// The name of a string element that does not give one.
pub fn make__() -> (r: String)
    ensures
        r@ == "_"@,
{
    String::from_str("_")
}

/// The length of a string element that does not give one.
pub fn make_1000() -> (r: u16)
    ensures
        r == 1000,
{
    1000
}


/// The mathematical form of an [`ElementKind`]: the type with its `key`
/// flag and default value (and, for strings, the name and length).
pub enum ElementKindV {
    UUID(bool, Option<Seq<char>>),
    Boolean(bool, Option<bool>),
    Integer(bool, Option<i64>),
    String { name: Seq<char>, key: bool, length: Option<u16>, default: Option<Seq<char>> },
}

pub open spec fn default_v<T: DeepView>(d: Option<Default<T>>) -> Option<T::V> {
    match d {
        Some(Default::Val(v)) => Some(v.deep_view()),
        None => None,
    }
}

impl View for ElementKind {
    type V = ElementKindV;

    open spec fn view(&self) -> ElementKindV {
        match self {
            ElementKind::UUID(p) => ElementKindV::UUID(p.key, default_v(p.default)),
            ElementKind::Boolean(p) => ElementKindV::Boolean(p.key, default_v(p.default)),
            ElementKind::Integer(p) => ElementKindV::Integer(p.key, default_v(p.default)),
            ElementKind::String(p) => ElementKindV::String {
                name: p.name@,
                key: p.key,
                length: p.length,
                default: default_v(p.default),
            },
        }
    }
}

/// The `key` flag of a kind.
pub open spec fn key_flag(k: ElementKindV) -> bool {
    match k {
        ElementKindV::UUID(key, _) => key,
        ElementKindV::Boolean(key, _) => key,
        ElementKindV::Integer(key, _) => key,
        ElementKindV::String { key, .. } => key,
    }
}

pub open spec fn u16_of(n: JsonNodeV) -> Result<u16, Seq<char>> {
    match n {
        JsonNodeV::Number(t) => if is_int_text(t) {
            if 0 <= int_value(t) <= u16::MAX {
                Ok(int_value(t) as u16)
            } else {
                Err("invalid value: integer `"@ + t + "`, expected u16"@)
            }
        } else {
            Err(invalid_type(n, "u16"@))
        },
        _ => Err(invalid_type(n, "u16"@)),
    }
}

/// The `key` field: `false` when absent.
pub open spec fn key_field(v: Option<Seq<char>>) -> Result<bool, Seq<char>> {
    match v {
        None => Ok(false),
        Some(t) => bool_of(node_at(Some(t))),
    }
}

/// The `name` field of a string kind: `_` when absent.
pub open spec fn name_field(v: Option<Seq<char>>) -> Result<Seq<char>, Seq<char>> {
    match v {
        None => Ok("_"@),
        Some(t) => string_of(node_at(Some(t))),
    }
}

/// The `length` field of a string kind: absent and `null` are no length.
pub open spec fn length_field(v: Option<Seq<char>>) -> Result<Option<u16>, Seq<char>> {
    match opt_field(v) {
        None => Ok(None),
        Some(n) => match u16_of(n) {
            Ok(l) => Ok(Some(l)),
            Err(e) => Err(e),
        },
    }
}

/// The primitive kind of variant `tag` (below 3) with the given `key` flag
/// and `default` field.
pub open spec fn with_default(tag: nat, key: bool, d: Option<Seq<char>>) -> Result<ElementKindV, Seq<char>> {
    if tag == 0 {
        match default_string(d) {
            Ok(x) => Ok(ElementKindV::UUID(key, x)),
            Err(e) => Err(e),
        }
    } else if tag == 1 {
        match default_bool(d) {
            Ok(x) => Ok(ElementKindV::Boolean(key, x)),
            Err(e) => Err(e),
        }
    } else {
        match default_i64(d) {
            Ok(x) => Ok(ElementKindV::Integer(key, x)),
            Err(e) => Err(e),
        }
    }
}

/// The kind of variant `tag` from the members of an object, read in the
/// order of their names (`default`, `key`, `length`, `name`), which is the
/// order in which `serde_json` yields the members of an object: the first
/// member that cannot be read gives the error.
pub open spec fn kind_from_map(tag: nat, ms: Seq<(Seq<char>, Seq<char>)>) -> Result<ElementKindV, Seq<char>> {
    let d = member_text(ms, "default"@);
    let k = member_text(ms, "key"@);
    if tag < 3 {
        match key_field(k) {
            Err(e) => match with_default(tag, false, d) {
                Err(e0) => Err(e0),
                Ok(_) => Err(e),
            },
            Ok(key) => with_default(tag, key, d),
        }
    } else {
        match default_string(d) {
            Err(e) => Err(e),
            Ok(default) => match key_field(k) {
                Err(e) => Err(e),
                Ok(key) => match length_field(member_text(ms, "length"@)) {
                    Err(e) => Err(e),
                    Ok(length) => match name_field(member_text(ms, "name"@)) {
                        Err(e) => Err(e),
                        Ok(name) => Ok(ElementKindV::String { name, key, length, default }),
                    },
                },
            },
        }
    }
}

/// The item at `i`, if there is one.
pub open spec fn item(rest: Seq<Seq<char>>, i: int) -> Option<Seq<char>> {
    if 0 <= i < rest.len() {
        Some(rest[i])
    } else {
        None
    }
}

/// The kind of variant `tag` from the fields given in order, as an array:
/// a missing `key` or `name` takes its default, a missing `length` or
/// `default` is an error, and extra items are an error.
pub open spec fn kind_from_seq(tag: nat, rest: Seq<Seq<char>>) -> Result<ElementKindV, Seq<char>> {
    if tag < 3 {
        match key_field(item(rest, 0)) {
            Err(e) => Err(e),
            Ok(key) => if rest.len() < 2 {
                Err("invalid length 1, expected struct PrimitiveElementKind with 2 elements"@)
            } else {
                match with_default(tag, key, Some(rest[1])) {
                    Err(e) => Err(e),
                    Ok(k) => if rest.len() > 2 {
                        Err("invalid length "@ + decimal(rest.len()) + ", expected 2 elements in sequence"@)
                    } else {
                        Ok(k)
                    },
                }
            },
        }
    } else {
        match name_field(item(rest, 0)) {
            Err(e) => Err(e),
            Ok(name) => match key_field(item(rest, 1)) {
                Err(e) => Err(e),
                Ok(key) => if rest.len() < 3 {
                    Err("invalid length 2, expected struct StringElementKind with 4 elements"@)
                } else {
                    match length_field(Some(rest[2])) {
                        Err(e) => Err(e),
                        Ok(length) => if rest.len() < 4 {
                            Err("invalid length 3, expected struct StringElementKind with 4 elements"@)
                        } else {
                            match default_string(Some(rest[3])) {
                                Err(e) => Err(e),
                                Ok(default) => if rest.len() > 4 {
                                    Err("invalid length "@ + decimal(rest.len())
                                        + ", expected 4 elements in sequence"@)
                                } else {
                                    Ok(ElementKindV::String { name, key, length, default })
                                },
                            }
                        },
                    }
                },
            },
        }
    }
}

/// The element kind a JSON text declares: an object whose `type` member
/// names the CDS type (or an array led by that name), with an optional
/// `key` flag and `default` of the form `{"val": value}`, and, for strings,
/// an optional `name` and `length`; other members are ignored.
///
/// The errors are `serde_json`'s texts. A missing `type`, and a text that
/// is neither an object nor an array, carry the position right after the
/// value. Reading happens on the members as `serde_json::Value` holds them
/// (one member per name, in name order), so an error in the `type` tag is
/// reported without the position of the tag in the text, and a duplicated
/// member is read as its last occurrence.
pub open spec fn element_kind_of(text: Seq<char>) -> Result<ElementKindV, Seq<char>> {
    match json_node(text) {
        Err(m) => Err(m),
        Ok(n) => match n {
            JsonNodeV::Object(ms) => match member_text(ms, "type"@) {
                None => Err("missing field `type`"@ + end_position(text)),
                Some(t) => match tag_of(node_at(Some(t))) {
                    Err(e) => Err(e),
                    Ok(tag) => kind_from_map(tag, ms),
                },
            },
            JsonNodeV::Array(items) => if items.len() == 0 {
                Err("missing field `type`"@ + end_position(text))
            } else {
                match tag_of(node_at(Some(items[0]))) {
                    Err(e) => Err(e),
                    Ok(tag) => kind_from_seq(tag, items.skip(1)),
                }
            },
            _ => Err(invalid_type(n, "internally tagged enum ElementKind"@) + end_position(text)),
        },
    }
}


/// The mathematical form of a decoding result.
pub open spec fn kind_view(r: Result<ElementKind, String>) -> Result<ElementKindV, Seq<char>> {
    match r {
        Ok(k) => Ok(k@),
        Err(e) => Err(e@),
    }
}

fn u16_of_exec(n: JsonNode) -> (r: Result<u16, String>)
    ensures
        rdv(r) == u16_of(n@),
{
    match &n {
        JsonNode::Number(t) => match parse_int_text(t.as_str()) {
            Some((neg, Some(m))) => {
                if (!neg || m == 0) && m <= 65535 {
                    Ok(m as u16)
                } else {
                    Err(cat("invalid value: integer `", t.as_str(), "`, expected u16"))
                }
            },
            Some((_, None)) => Err(cat("invalid value: integer `", t.as_str(), "`, expected u16")),
            None => Err(invalid_type_exec(&n, "u16")),
        },
        _ => Err(invalid_type_exec(&n, "u16")),
    }
}

fn key_field_exec(v: &Option<String>) -> (r: Result<bool, String>)
    ensures
        rdv(r) == key_field(opt_view(*v)),
{
    match v {
        None => Ok(false),
        Some(_) => bool_of_exec(node_at_exec(v)),
    }
}

fn name_field_exec(v: &Option<String>) -> (r: Result<String, String>)
    ensures
        rdv(r) == name_field(opt_view(*v)),
{
    match v {
        None => {
            proof {
                reveal_strlit("_");
            }
            Ok(String::from_str("_"))
        },
        Some(_) => string_of_exec(node_at_exec(v)),
    }
}

fn length_field_exec(v: &Option<String>) -> (r: Result<Option<u16>, String>)
    ensures
        rdv(r) == length_field(opt_view(*v)),
{
    match opt_field_exec(v) {
        None => Ok(None),
        Some(n) => match u16_of_exec(n) {
            Ok(l) => Ok(Some(l)),
            Err(e) => Err(e),
        },
    }
}

fn with_default_exec(tag: u8, key: bool, d: &Option<String>) -> (r: Result<ElementKind, String>)
    requires
        tag < 3,
    ensures
        kind_view(r) == with_default(tag as nat, key, opt_view(*d)),
{
    if tag == 0 {
        match default_string_exec(d) {
            Ok(x) => Ok(ElementKind::UUID(PrimitiveElementKind { key, default: match x {
                Some(v) => Some(Default::Val(v)),
                None => None,
            } })),
            Err(e) => Err(e),
        }
    } else if tag == 1 {
        match default_bool_exec(d) {
            Ok(x) => Ok(ElementKind::Boolean(PrimitiveElementKind { key, default: match x {
                Some(v) => Some(Default::Val(v)),
                None => None,
            } })),
            Err(e) => Err(e),
        }
    } else {
        match default_i64_exec(d) {
            Ok(x) => Ok(ElementKind::Integer(PrimitiveElementKind { key, default: match x {
                Some(v) => Some(Default::Val(v)),
                None => None,
            } })),
            Err(e) => Err(e),
        }
    }
}

fn string_kind_of(name: String, key: bool, length: Option<u16>, default: Option<String>) -> (r: ElementKind)
    ensures
        r@ == (ElementKindV::String {
            name: name@,
            key,
            length,
            default: match default {
                Some(v) => Some(v@),
                None => None,
            },
        }),
{
    ElementKind::String(StringElementKind {
        name,
        key,
        length,
        default: match default {
            Some(v) => Some(Default::Val(v)),
            None => None,
        },
    })
}

fn kind_from_map_exec(tag: u8, ms: &Vec<(String, String)>) -> (r: Result<ElementKind, String>)
    requires
        tag < 4,
    ensures
        kind_view(r) == kind_from_map(tag as nat, ms.deep_view()),
{
    let d = member_text_exec(ms, "default");
    let k = member_text_exec(ms, "key");
    if tag < 3 {
        match key_field_exec(&k) {
            Err(e) => match with_default_exec(tag, false, &d) {
                Err(e0) => Err(e0),
                Ok(_) => Err(e),
            },
            Ok(key) => with_default_exec(tag, key, &d),
        }
    } else {
        match default_string_exec(&d) {
            Err(e) => Err(e),
            Ok(default) => match key_field_exec(&k) {
                Err(e) => Err(e),
                Ok(key) => match length_field_exec(&member_text_exec(ms, "length")) {
                    Err(e) => Err(e),
                    Ok(length) => match name_field_exec(&member_text_exec(ms, "name")) {
                        Err(e) => Err(e),
                        Ok(name) => Ok(string_kind_of(name, key, length, default)),
                    },
                },
            },
        }
    }
}

/// The item at `i` of a list, if there is one.
fn item_exec(items: &Vec<String>, i: usize) -> (r: Option<String>)
    ensures
        opt_view(r) == item(items.deep_view(), i as int),
{
    if i < items.len() {
        Some(items[i].clone())
    } else {
        None
    }
}

fn kind_from_seq_exec(tag: u8, items: &Vec<String>) -> (r: Result<ElementKind, String>)
    requires
        tag < 4,
        items.len() > 0,
    ensures
        kind_view(r) == kind_from_seq(tag as nat, items.deep_view().skip(1)),
{
    let ghost rest = items.deep_view().skip(1);
    let n = items.len() - 1;
    assert(rest.len() == n);
    assert(forall|i: int| 0 <= i < n ==> rest[i] == items.deep_view()[i + 1]);
    assert(item(rest, 0) == item(items.deep_view(), 1));
    assert(item(rest, 1) == item(items.deep_view(), 2));
    if tag < 3 {
        match key_field_exec(&item_exec(items, 1)) {
            Err(e) => Err(e),
            Ok(key) => if n < 2 {
                Err(String::from_str("invalid length 1, expected struct PrimitiveElementKind with 2 elements"))
            } else {
                match with_default_exec(tag, key, &Some(items[2].clone())) {
                    Err(e) => Err(e),
                    Ok(k) => if n > 2 {
                        let count = decimal_text(n as u128);
                        Err(cat("invalid length ", count.as_str(), ", expected 2 elements in sequence"))
                    } else {
                        Ok(k)
                    },
                }
            },
        }
    } else {
        match name_field_exec(&item_exec(items, 1)) {
            Err(e) => Err(e),
            Ok(name) => match key_field_exec(&item_exec(items, 2)) {
                Err(e) => Err(e),
                Ok(key) => if n < 3 {
                    Err(String::from_str("invalid length 2, expected struct StringElementKind with 4 elements"))
                } else {
                    match length_field_exec(&Some(items[3].clone())) {
                        Err(e) => Err(e),
                        Ok(length) => if n < 4 {
                            Err(String::from_str("invalid length 3, expected struct StringElementKind with 4 elements"))
                        } else {
                            match default_string_exec(&Some(items[4].clone())) {
                                Err(e) => Err(e),
                                Ok(default) => if n > 4 {
                                    let count = decimal_text(n as u128);
                                    Err(cat("invalid length ", count.as_str(), ", expected 4 elements in sequence"))
                                } else {
                                    Ok(string_kind_of(name, key, length, default))
                                },
                            }
                        },
                    }
                },
            },
        }
    }
}

impl ElementKind {
    /// Reads an element kind from the JSON text of an element declaration,
    /// or gives the text of the error.
    pub fn from_json(text: &str) -> (r: Result<ElementKind, String>)
        ensures
            kind_view(r) == element_kind_of(text@),
    {
        match parse_json_node(text) {
            Err(m) => Err(m),
            Ok(n) => match &n {
                JsonNode::Object(ms) => match member_text_exec(ms, "type") {
                    None => Err(with_end_position("missing field `type`", text)),
                    Some(t) => match tag_of_exec(node_at_exec(&Some(t))) {
                        Err(e) => Err(e),
                        Ok(tag) => kind_from_map_exec(tag, ms),
                    },
                },
                JsonNode::Array(items) => if items.len() == 0 {
                    Err(with_end_position("missing field `type`", text))
                } else {
                    match tag_of_exec(node_at_exec(&Some(items[0].clone()))) {
                        Err(e) => Err(e),
                        Ok(tag) => kind_from_seq_exec(tag, items),
                    }
                },
                _ => {
                    let e = invalid_type_exec(&n, "internally tagged enum ElementKind");
                    Err(with_end_position(e.as_str(), text))
                },
            },
        }
    }
}


/// Members left out take their defaults: a kind read from an object
/// without a `key` member is not a key, and a string kind read from an
/// object without a `name` member is named `_`.
pub proof fn lemma_absent_members_default(text: Seq<char>)
    ensures
        json_node(text) matches Ok(JsonNodeV::Object(ms)) ==> {
            &&& member_text(ms, "key"@) is None ==> (element_kind_of(text) matches Ok(k) ==> !key_flag(k))
            &&& member_text(ms, "name"@) is None ==> (element_kind_of(text) matches Ok(
                ElementKindV::String { name, .. },
            ) ==> name == "_"@)
        },
{
}

} // verus!
