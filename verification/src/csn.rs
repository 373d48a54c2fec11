//! The CDS schema notation (CSN): the services and entities a service
//! definition file declares, and how they are read from its JSON text.

use crate::json::{
    index, index_exec, json_node, member_text, member_text_exec, node_at, node_at_exec, opt_view,
    parse_json_node, JsonNode, JsonNodeV,
};
use crate::text::{
    debug_quoted, debug_quoted_text, decimal, decimal_text, end_position, end_position_exec, int_value, is_int_text, join,
    join_strings, parse_int_text, replace, replace_str,
};

use vstd::prelude::*;

verus! {

/// The service and entity definitions of a CSN document, in the order in
/// which the JSON parser yields the members of `definitions`.
#[derive(Debug)]
pub struct Definitions {
    pub definitions: Vec<Definition>,
}

#[derive(Debug)]
pub struct Service {
    pub name: String,
}

#[derive(Debug)]
pub struct Entity {
    pub name: String,
    pub query: Option<Query>,
    pub elements: Vec<Element>,
}

/// The source an entity is a projection of, as a dotted name.
#[derive(Debug)]
pub struct Query {
    pub from: String,
}

#[derive(Debug)]
pub struct Element {
    pub name: String,
    pub key: bool,
    pub kind: ElementKind,
}

/// The CDS type of an element, with what its declaration adds.
#[derive(Debug)]
pub enum ElementKind {
    UUID(PrimitiveKind<String>),
    Boolean(PrimitiveKind<bool>),
    Integer(PrimitiveKind<i64>),
    String(PrimitiveKindString),
}

#[derive(Debug)]
pub struct PrimitiveKind<T> {
    pub default: Option<Default<T>>,
}

#[derive(Debug)]
pub struct PrimitiveKindString {
    pub default: Option<Default<String>>,
    pub length: Option<u64>,
}

/// A declared default value.
#[derive(Debug)]
pub enum Default<T> {
    Val(T),
}

#[derive(Debug)]
pub enum Definition {
    Service(Service),
    Entity(Entity),
}

#[derive(Debug)]
pub struct DeserializationError {
    pub description: String,
}

/// The mathematical form of an [`ElementKind`]: the type with its default
/// value (and, for strings, its length).
pub enum ElementKindV {
    UUID(Option<Seq<char>>),
    Boolean(Option<bool>),
    Integer(Option<i64>),
    String(Option<Seq<char>>, Option<u64>),
}

pub struct ElementV {
    pub name: Seq<char>,
    pub key: bool,
    pub kind: ElementKindV,
}

pub struct EntityV {
    pub name: Seq<char>,
    pub query: Option<Seq<char>>,
    pub elements: Seq<ElementV>,
}

pub enum DefinitionV {
    Service(Seq<char>),
    Entity(EntityV),
}

pub open spec fn default_view<T: DeepView>(d: Option<Default<T>>) -> Option<T::V> {
    match d {
        Some(Default::Val(v)) => Some(v.deep_view()),
        None => None,
    }
}

impl View for ElementKind {
    type V = ElementKindV;

    open spec fn view(&self) -> ElementKindV {
        match self {
            ElementKind::UUID(p) => ElementKindV::UUID(default_view(p.default)),
            ElementKind::Boolean(p) => ElementKindV::Boolean(default_view(p.default)),
            ElementKind::Integer(p) => ElementKindV::Integer(default_view(p.default)),
            ElementKind::String(p) => ElementKindV::String(default_view(p.default), p.length),
        }
    }
}

impl View for Element {
    type V = ElementV;

    open spec fn view(&self) -> ElementV {
        ElementV { name: self.name@, key: self.key, kind: self.kind@ }
    }
}

impl View for Entity {
    type V = EntityV;

    open spec fn view(&self) -> EntityV {
        EntityV {
            name: self.name@,
            query: match self.query {
                Some(q) => Some(q.from@),
                None => None,
            },
            elements: self.elements@.map_values(|e: Element| e@),
        }
    }
}

impl View for Definition {
    type V = DefinitionV;

    open spec fn view(&self) -> DefinitionV {
        match self {
            Definition::Service(s) => DefinitionV::Service(s.name@),
            Definition::Entity(e) => DefinitionV::Entity(e@),
        }
    }
}

impl View for Definitions {
    type V = Seq<DefinitionV>;

    open spec fn view(&self) -> Seq<DefinitionV> {
        self.definitions@.map_values(|d: Definition| d@)
    }
}

/// The names of the services among `defs`, in order.
pub open spec fn service_names(defs: Seq<DefinitionV>) -> Seq<Seq<char>>
    decreases defs.len(),
{
    if defs.len() == 0 {
        Seq::empty()
    } else {
        let rest = service_names(defs.drop_last());
        match defs.last() {
            DefinitionV::Service(name) => rest.push(name),
            DefinitionV::Entity(_) => rest,
        }
    }
}

impl Definitions {
    /// The names of all service definitions, in the order they are defined.
    pub fn get_service_names(&self) -> (res: Vec<String>)
        ensures
            res.deep_view() == service_names(self@),
    {
        let mut res: Vec<String> = Vec::new();
        let mut i: usize = 0;
        while i < self.definitions.len()
            invariant
                i <= self.definitions.len(),
                res.deep_view() == service_names(self@.take(i as int)),
            decreases self.definitions.len() - i,
        {
            let ghost before = res.deep_view();
            match &self.definitions[i] {
                Definition::Service(srv) => {
                    res.push(srv.name.clone());
                    assert(res.deep_view() =~= before.push(srv.name@));
                },
                Definition::Entity(_) => {},
            }
            assert(self@.take(i + 1).drop_last() =~= self@.take(i as int));
            i = i + 1;
        }
        assert(self@.take(self.definitions.len() as int) =~= self@);
        res
    }
}

impl DeserializationError {
    pub fn new(description: &str) -> (r: DeserializationError)
        ensures
            r.description@ == description@,
    {
        DeserializationError { description: String::from_str(description) }
    }
}

/// How an unexpected JSON value is named in a decoding error, as
/// `serde_json` names it: `null`, a number as `serde_json` prints it, a
/// string as `{:?}` writes it.
pub open spec fn describe(n: JsonNodeV) -> Seq<char> {
    match n {
        JsonNodeV::Null => "null"@,
        JsonNodeV::Bool(b) => if b {
            "boolean `true`"@
        } else {
            "boolean `false`"@
        },
        JsonNodeV::Number(t) => if is_int_text(t) {
            "integer `"@ + t + "`"@
        } else {
            "floating point `"@ + t + "`"@
        },
        JsonNodeV::Str(s) => "string "@ + debug_quoted(s),
        JsonNodeV::Array(_) => "sequence"@,
        JsonNodeV::Object(_) => "map"@,
    }
}

/// The error for a value of the wrong type.
pub open spec fn invalid_type(n: JsonNodeV, expected: Seq<char>) -> Seq<char> {
    "invalid type: "@ + describe(n) + ", expected "@ + expected
}

pub open spec fn string_of(n: JsonNodeV) -> Result<Seq<char>, Seq<char>> {
    match n {
        JsonNodeV::Str(s) => Ok(s),
        _ => Err(invalid_type(n, "a string"@)),
    }
}

pub open spec fn bool_of(n: JsonNodeV) -> Result<bool, Seq<char>> {
    match n {
        JsonNodeV::Bool(b) => Ok(b),
        _ => Err(invalid_type(n, "a boolean"@)),
    }
}

pub open spec fn i64_of(n: JsonNodeV) -> Result<i64, Seq<char>> {
    match n {
        JsonNodeV::Number(t) => if is_int_text(t) {
            if i64::MIN <= int_value(t) <= i64::MAX {
                Ok(int_value(t) as i64)
            } else {
                Err("invalid value: integer `"@ + t + "`, expected i64"@)
            }
        } else {
            Err(invalid_type(n, "i64"@))
        },
        _ => Err(invalid_type(n, "i64"@)),
    }
}

pub open spec fn u64_of(n: JsonNodeV) -> Result<u64, Seq<char>> {
    match n {
        JsonNodeV::Number(t) => if is_int_text(t) {
            if 0 <= int_value(t) <= u64::MAX {
                Ok(int_value(t) as u64)
            } else {
                Err("invalid value: integer `"@ + t + "`, expected u64"@)
            }
        } else {
            Err(invalid_type(n, "u64"@))
        },
        _ => Err(invalid_type(n, "u64"@)),
    }
}

/// An optional field: absent and `null` are both no value.
pub open spec fn opt_field(v: Option<Seq<char>>) -> Option<JsonNodeV> {
    match v {
        None => None,
        Some(t) => match node_at(Some(t)) {
            JsonNodeV::Null => None,
            n => Some(n),
        },
    }
}

/// The error for a variant name that `Default` does not have.
pub open spec fn unknown_val(k: Seq<char>) -> Seq<char> {
    "unknown variant `"@ + k + "`, expected `val`"@
}

/// The value inside a `Default`, written `{"val": value}`.
pub open spec fn default_member(n: JsonNodeV) -> Result<JsonNodeV, Seq<char>> {
    match n {
        JsonNodeV::Object(ms) => if ms.len() != 1 {
            Err("invalid value: map, expected map with a single key"@)
        } else if ms[0].0 == "val"@ {
            Ok(node_at(Some(ms[0].1)))
        } else {
            Err(unknown_val(ms[0].0))
        },
        JsonNodeV::Str(s) => if s == "val"@ {
            Err("invalid type: unit variant, expected newtype variant"@)
        } else {
            Err(unknown_val(s))
        },
        _ => Err(invalid_type(n, "string or map"@)),
    }
}

pub open spec fn default_string(v: Option<Seq<char>>) -> Result<Option<Seq<char>>, Seq<char>> {
    match opt_field(v) {
        None => Ok(None),
        Some(n) => match default_member(n) {
            Err(e) => Err(e),
            Ok(x) => match string_of(x) {
                Ok(s) => Ok(Some(s)),
                Err(e) => Err(e),
            },
        },
    }
}

pub open spec fn default_bool(v: Option<Seq<char>>) -> Result<Option<bool>, Seq<char>> {
    match opt_field(v) {
        None => Ok(None),
        Some(n) => match default_member(n) {
            Err(e) => Err(e),
            Ok(x) => match bool_of(x) {
                Ok(b) => Ok(Some(b)),
                Err(e) => Err(e),
            },
        },
    }
}

pub open spec fn default_i64(v: Option<Seq<char>>) -> Result<Option<i64>, Seq<char>> {
    match opt_field(v) {
        None => Ok(None),
        Some(n) => match default_member(n) {
            Err(e) => Err(e),
            Ok(x) => match i64_of(x) {
                Ok(i) => Ok(Some(i)),
                Err(e) => Err(e),
            },
        },
    }
}

pub open spec fn length_of(v: Option<Seq<char>>) -> Result<Option<u64>, Seq<char>> {
    match opt_field(v) {
        None => Ok(None),
        Some(n) => match u64_of(n) {
            Ok(l) => Ok(Some(l)),
            Err(e) => Err(e),
        },
    }
}

/// The variant a `type` tag names: 0 for `cds.UUID`, 1 for `cds.Boolean`,
/// 2 for `cds.Integer`, 3 for `cds.String`.
pub open spec fn tag_of(n: JsonNodeV) -> Result<nat, Seq<char>> {
    match n {
        JsonNodeV::Str(s) => if s == "cds.UUID"@ {
            Ok(0)
        } else if s == "cds.Boolean"@ {
            Ok(1)
        } else if s == "cds.Integer"@ {
            Ok(2)
        } else if s == "cds.String"@ {
            Ok(3)
        } else {
            Err(
                "unknown variant `"@ + s
                    + "`, expected one of `cds.UUID`, `cds.Boolean`, `cds.Integer`, `cds.String`"@,
            )
        },
        _ => Err(invalid_type(n, "variant identifier"@)),
    }
}

/// The primitive kind of variant `tag` with the given default field.
pub open spec fn primitive_kind(tag: nat, d: Option<Seq<char>>) -> Result<ElementKindV, Seq<char>> {
    if tag == 0 {
        match default_string(d) {
            Ok(x) => Ok(ElementKindV::UUID(x)),
            Err(e) => Err(e),
        }
    } else if tag == 1 {
        match default_bool(d) {
            Ok(x) => Ok(ElementKindV::Boolean(x)),
            Err(e) => Err(e),
        }
    } else {
        match default_i64(d) {
            Ok(x) => Ok(ElementKindV::Integer(x)),
            Err(e) => Err(e),
        }
    }
}

/// The string kind with the given default and length fields.
pub open spec fn string_kind(d: Option<Seq<char>>, l: Option<Seq<char>>) -> Result<ElementKindV, Seq<char>> {
    match default_string(d) {
        Err(e) => Err(e),
        Ok(x) => match length_of(l) {
            Err(e) => Err(e),
            Ok(len) => Ok(ElementKindV::String(x, len)),
        },
    }
}

/// The kind of variant `tag` from the fields of an object.
pub open spec fn kind_from_map(tag: nat, ms: Seq<(Seq<char>, Seq<char>)>) -> Result<ElementKindV, Seq<char>> {
    if tag < 3 {
        primitive_kind(tag, member_text(ms, "default"@))
    } else {
        string_kind(member_text(ms, "default"@), member_text(ms, "length"@))
    }
}

/// The kind of variant `tag` from the fields given in order, as an array.
pub open spec fn kind_from_seq(tag: nat, rest: Seq<Seq<char>>) -> Result<ElementKindV, Seq<char>> {
    if tag < 3 {
        if rest.len() == 0 {
            Err("invalid length 0, expected struct PrimitiveKind with 1 element"@)
        } else {
            match primitive_kind(tag, Some(rest[0])) {
                Err(e) => Err(e),
                Ok(k) => if rest.len() > 1 {
                    Err("invalid length "@ + decimal(rest.len()) + ", expected 1 element in sequence"@)
                } else {
                    Ok(k)
                },
            }
        }
    } else {
        if rest.len() == 0 {
            Err("invalid length 0, expected struct PrimitiveKindString with 2 elements"@)
        } else {
            match default_string(Some(rest[0])) {
                Err(e) => Err(e),
                Ok(x) => if rest.len() == 1 {
                    Err("invalid length 1, expected struct PrimitiveKindString with 2 elements"@)
                } else {
                    match length_of(Some(rest[1])) {
                        Err(e) => Err(e),
                        Ok(len) => if rest.len() > 2 {
                            Err("invalid length "@ + decimal(rest.len())
                                + ", expected 2 elements in sequence"@)
                        } else {
                            Ok(ElementKindV::String(x, len))
                        },
                    }
                },
            }
        }
    }
}

/// The element kind a JSON text declares: an object whose `type` member
/// names the CDS type (or an array led by that name), with an optional
/// `default` of the form `{"val": value}` and, for strings, an optional
/// `length`; other members are ignored.
///
/// The errors are `serde_json`'s texts. A missing `type`, and a text that
/// is neither an object nor an array, carry the position right after the
/// value. Reading happens on the members as `serde_json::Value` holds them
/// (one member per name, in name order), so an error in the `type` tag is
/// reported without the position of the tag in the text, and a duplicated
/// member is read as its last occurrence.
pub open spec fn element_kind_of(text: Seq<char>) -> Result<ElementKindV, Seq<char>> {
    match json_node(text) {
        Err(m) => Err(m),
        Ok(n) => match n {
            JsonNodeV::Object(ms) => match member_text(ms, "type"@) {
                None => Err("missing field `type`"@ + end_position(text)),
                Some(t) => match tag_of(node_at(Some(t))) {
                    Err(e) => Err(e),
                    Ok(tag) => kind_from_map(tag, ms),
                },
            },
            JsonNodeV::Array(items) => if items.len() == 0 {
                Err("missing field `type`"@ + end_position(text))
            } else {
                match tag_of(node_at(Some(items[0]))) {
                    Err(e) => Err(e),
                    Ok(tag) => kind_from_seq(tag, items.skip(1)),
                }
            },
            _ => Err(invalid_type(n, "internally tagged enum ElementKind"@) + end_position(text)),
        },
    }
}

/// The mathematical form of a decoding result.
pub open spec fn rdv<T: DeepView>(r: Result<T, String>) -> Result<T::V, Seq<char>> {
    match r {
        Ok(v) => Ok(v.deep_view()),
        Err(e) => Err(e@),
    }
}

pub(crate) fn cat(a: &str, b: &str, c: &str) -> (r: String)
    ensures
        r@ == a@ + b@ + c@,
{
    let mut r = String::from_str(a);
    r.append(b);
    r.append(c);
    r
}

fn describe_exec(n: &JsonNode) -> (r: String)
    ensures
        r@ == describe(n@),
{
    match n {
        JsonNode::Null => String::from_str("null"),
        JsonNode::Bool(b) => if *b {
            String::from_str("boolean `true`")
        } else {
            String::from_str("boolean `false`")
        },
        JsonNode::Number(t) => if parse_int_text(t.as_str()).is_some() {
            cat("integer `", t.as_str(), "`")
        } else {
            cat("floating point `", t.as_str(), "`")
        },
        JsonNode::Str(s) => {
            let mut r = String::from_str("string ");
            let d = debug_quoted_text(s.as_str());
            r.append(d.as_str());
            r
        },
        JsonNode::Array(_) => String::from_str("sequence"),
        JsonNode::Object(_) => String::from_str("map"),
    }
}

/// `msg` followed by the position right after the JSON value in `text`.
pub(crate) fn with_end_position(msg: &str, text: &str) -> (r: String)
    ensures
        r@ == msg@ + end_position(text@),
{
    let mut r = String::from_str(msg);
    let p = end_position_exec(text);
    r.append(p.as_str());
    r
}

pub(crate) fn invalid_type_exec(n: &JsonNode, expected: &str) -> (r: String)
    ensures
        r@ == invalid_type(n@, expected@),
{
    let d = describe_exec(n);
    let mut r = cat("invalid type: ", d.as_str(), ", expected ");
    r.append(expected);
    r
}

pub(crate) fn string_of_exec(n: JsonNode) -> (r: Result<String, String>)
    ensures
        rdv(r) == string_of(n@),
{
    match n {
        JsonNode::Str(s) => Ok(s),
        _ => Err(invalid_type_exec(&n, "a string")),
    }
}

pub(crate) fn bool_of_exec(n: JsonNode) -> (r: Result<bool, String>)
    ensures
        rdv(r) == bool_of(n@),
{
    match n {
        JsonNode::Bool(b) => Ok(b),
        _ => Err(invalid_type_exec(&n, "a boolean")),
    }
}

fn i64_of_exec(n: JsonNode) -> (r: Result<i64, String>)
    ensures
        rdv(r) == i64_of(n@),
{
    match &n {
        JsonNode::Number(t) => match parse_int_text(t.as_str()) {
            Some((neg, Some(m))) => {
                if neg && m <= 9223372036854775808u64 {
                    if m == 9223372036854775808u64 {
                        Ok(i64::MIN)
                    } else {
                        Ok(-(m as i64))
                    }
                } else if !neg && m <= 9223372036854775807u64 {
                    Ok(m as i64)
                } else {
                    Err(cat("invalid value: integer `", t.as_str(), "`, expected i64"))
                }
            },
            Some((_, None)) => Err(cat("invalid value: integer `", t.as_str(), "`, expected i64")),
            None => Err(invalid_type_exec(&n, "i64")),
        },
        _ => Err(invalid_type_exec(&n, "i64")),
    }
}

fn u64_of_exec(n: JsonNode) -> (r: Result<u64, String>)
    ensures
        rdv(r) == u64_of(n@),
{
    match &n {
        JsonNode::Number(t) => match parse_int_text(t.as_str()) {
            Some((neg, Some(m))) => {
                if !neg || m == 0 {
                    Ok(m)
                } else {
                    Err(cat("invalid value: integer `", t.as_str(), "`, expected u64"))
                }
            },
            Some((_, None)) => Err(cat("invalid value: integer `", t.as_str(), "`, expected u64")),
            None => Err(invalid_type_exec(&n, "u64")),
        },
        _ => Err(invalid_type_exec(&n, "u64")),
    }
}

pub(crate) fn opt_field_exec(v: &Option<String>) -> (r: Option<JsonNode>)
    ensures
        match r {
            Some(n) => opt_field(opt_view(*v)) == Some(n@),
            None => opt_field(opt_view(*v)) is None,
        },
{
    match v {
        None => None,
        Some(_) => match node_at_exec(v) {
            JsonNode::Null => None,
            n => Some(n),
        },
    }
}

fn default_member_exec(n: JsonNode) -> (r: Result<JsonNode, String>)
    ensures
        match r {
            Ok(x) => default_member(n@) == Ok::<JsonNodeV, Seq<char>>(x@),
            Err(e) => default_member(n@) == Err::<JsonNodeV, Seq<char>>(e@),
        },
{
    let val = String::from_str("val");
    match &n {
        JsonNode::Object(ms) => {
            if ms.len() != 1 {
                Err(String::from_str("invalid value: map, expected map with a single key"))
            } else if ms[0].0 == val {
                Ok(node_at_exec(&Some(ms[0].1.clone())))
            } else {
                Err(cat("unknown variant `", ms[0].0.as_str(), "`, expected `val`"))
            }
        },
        JsonNode::Str(s) => {
            if *s == val {
                Err(String::from_str("invalid type: unit variant, expected newtype variant"))
            } else {
                Err(cat("unknown variant `", s.as_str(), "`, expected `val`"))
            }
        },
        _ => Err(invalid_type_exec(&n, "string or map")),
    }
}

pub(crate) fn default_string_exec(v: &Option<String>) -> (r: Result<Option<String>, String>)
    ensures
        rdv(r) == default_string(opt_view(*v)),
{
    match opt_field_exec(v) {
        None => Ok(None),
        Some(n) => match default_member_exec(n) {
            Err(e) => Err(e),
            Ok(x) => match string_of_exec(x) {
                Ok(s) => Ok(Some(s)),
                Err(e) => Err(e),
            },
        },
    }
}

pub(crate) fn default_bool_exec(v: &Option<String>) -> (r: Result<Option<bool>, String>)
    ensures
        rdv(r) == default_bool(opt_view(*v)),
{
    match opt_field_exec(v) {
        None => Ok(None),
        Some(n) => match default_member_exec(n) {
            Err(e) => Err(e),
            Ok(x) => match bool_of_exec(x) {
                Ok(b) => Ok(Some(b)),
                Err(e) => Err(e),
            },
        },
    }
}

pub(crate) fn default_i64_exec(v: &Option<String>) -> (r: Result<Option<i64>, String>)
    ensures
        rdv(r) == default_i64(opt_view(*v)),
{
    match opt_field_exec(v) {
        None => Ok(None),
        Some(n) => match default_member_exec(n) {
            Err(e) => Err(e),
            Ok(x) => match i64_of_exec(x) {
                Ok(i) => Ok(Some(i)),
                Err(e) => Err(e),
            },
        },
    }
}

fn length_of_exec(v: &Option<String>) -> (r: Result<Option<u64>, String>)
    ensures
        rdv(r) == length_of(opt_view(*v)),
{
    match opt_field_exec(v) {
        None => Ok(None),
        Some(n) => match u64_of_exec(n) {
            Ok(l) => Ok(Some(l)),
            Err(e) => Err(e),
        },
    }
}

/// The mathematical form of an element kind result.
pub open spec fn kind_view(r: Result<ElementKind, String>) -> Result<ElementKindV, Seq<char>> {
    match r {
        Ok(k) => Ok(k@),
        Err(e) => Err(e@),
    }
}

pub(crate) fn tag_of_exec(n: JsonNode) -> (r: Result<u8, String>)
    ensures
        match r {
            Ok(t) => tag_of(n@) == Ok::<nat, Seq<char>>(t as nat),
            Err(e) => tag_of(n@) == Err::<nat, Seq<char>>(e@),
        },
{
    match &n {
        JsonNode::Str(s) => {
            if *s == String::from_str("cds.UUID") {
                Ok(0)
            } else if *s == String::from_str("cds.Boolean") {
                Ok(1)
            } else if *s == String::from_str("cds.Integer") {
                Ok(2)
            } else if *s == String::from_str("cds.String") {
                Ok(3)
            } else {
                Err(cat(
                    "unknown variant `",
                    s.as_str(),
                    "`, expected one of `cds.UUID`, `cds.Boolean`, `cds.Integer`, `cds.String`",
                ))
            }
        },
        _ => Err(invalid_type_exec(&n, "variant identifier")),
    }
}

fn primitive_kind_exec(tag: u8, d: &Option<String>) -> (r: Result<ElementKind, String>)
    requires
        tag < 3,
    ensures
        kind_view(r) == primitive_kind(tag as nat, opt_view(*d)),
{
    if tag == 0 {
        match default_string_exec(d) {
            Ok(x) => Ok(ElementKind::UUID(PrimitiveKind { default: match x {
                Some(v) => Some(Default::Val(v)),
                None => None,
            } })),
            Err(e) => Err(e),
        }
    } else if tag == 1 {
        match default_bool_exec(d) {
            Ok(x) => Ok(ElementKind::Boolean(PrimitiveKind { default: match x {
                Some(v) => Some(Default::Val(v)),
                None => None,
            } })),
            Err(e) => Err(e),
        }
    } else {
        match default_i64_exec(d) {
            Ok(x) => Ok(ElementKind::Integer(PrimitiveKind { default: match x {
                Some(v) => Some(Default::Val(v)),
                None => None,
            } })),
            Err(e) => Err(e),
        }
    }
}

fn string_kind_exec(d: &Option<String>, l: &Option<String>) -> (r: Result<ElementKind, String>)
    ensures
        kind_view(r) == string_kind(opt_view(*d), opt_view(*l)),
{
    match default_string_exec(d) {
        Err(e) => Err(e),
        Ok(x) => match length_of_exec(l) {
            Err(e) => Err(e),
            Ok(len) => Ok(ElementKind::String(PrimitiveKindString {
                default: match x {
                    Some(v) => Some(Default::Val(v)),
                    None => None,
                },
                length: len,
            })),
        },
    }
}

fn kind_from_map_exec(tag: u8, ms: &Vec<(String, String)>) -> (r: Result<ElementKind, String>)
    requires
        tag < 4,
    ensures
        kind_view(r) == kind_from_map(tag as nat, ms.deep_view()),
{
    let d = member_text_exec(ms, "default");
    if tag < 3 {
        primitive_kind_exec(tag, &d)
    } else {
        let l = member_text_exec(ms, "length");
        string_kind_exec(&d, &l)
    }
}

fn kind_from_seq_exec(tag: u8, items: &Vec<String>) -> (r: Result<ElementKind, String>)
    requires
        tag < 4,
        items.len() > 0,
    ensures
        kind_view(r) == kind_from_seq(tag as nat, items.deep_view().skip(1)),
{
    let ghost rest = items.deep_view().skip(1);
    let n = items.len() - 1;
    assert(rest.len() == n);
    if tag < 3 {
        if n == 0 {
            Err(String::from_str("invalid length 0, expected struct PrimitiveKind with 1 element"))
        } else {
            assert(rest[0] == items[1]@);
            match primitive_kind_exec(tag, &Some(items[1].clone())) {
                Err(e) => Err(e),
                Ok(k) => if n > 1 {
                    let count = decimal_text(n as u128);
                    Err(cat("invalid length ", count.as_str(), ", expected 1 element in sequence"))
                } else {
                    Ok(k)
                },
            }
        }
    } else {
        if n == 0 {
            Err(String::from_str("invalid length 0, expected struct PrimitiveKindString with 2 elements"))
        } else {
            assert(rest[0] == items[1]@);
            match default_string_exec(&Some(items[1].clone())) {
                Err(e) => Err(e),
                Ok(x) => if n == 1 {
                    Err(String::from_str("invalid length 1, expected struct PrimitiveKindString with 2 elements"))
                } else {
                    assert(rest[1] == items[2]@);
                    match length_of_exec(&Some(items[2].clone())) {
                        Err(e) => Err(e),
                        Ok(len) => if n > 2 {
                            let count = decimal_text(n as u128);
                            Err(cat("invalid length ", count.as_str(), ", expected 2 elements in sequence"))
                        } else {
                            Ok(ElementKind::String(PrimitiveKindString {
                                default: match x {
                                    Some(v) => Some(Default::Val(v)),
                                    None => None,
                                },
                                length: len,
                            }))
                        },
                    }
                },
            }
        }
    }
}

fn element_kind_exec(text: &str) -> (r: Result<ElementKind, String>)
    ensures
        kind_view(r) == element_kind_of(text@),
{
    match parse_json_node(text) {
        Err(m) => Err(m),
        Ok(n) => match &n {
            JsonNode::Object(ms) => match member_text_exec(ms, "type") {
                None => Err(with_end_position("missing field `type`", text)),
                Some(t) => match tag_of_exec(node_at_exec(&Some(t))) {
                    Err(e) => Err(e),
                    Ok(tag) => kind_from_map_exec(tag, ms),
                },
            },
            JsonNode::Array(items) => if items.len() == 0 {
                Err(with_end_position("missing field `type`", text))
            } else {
                match tag_of_exec(node_at_exec(&Some(items[0].clone()))) {
                    Err(e) => Err(e),
                    Ok(tag) => kind_from_seq_exec(tag, items),
                }
            },
            _ => {
                    let e = invalid_type_exec(&n, "internally tagged enum ElementKind");
                    Err(with_end_position(e.as_str(), text))
                },
        },
    }
}

impl ElementKind {
    /// Reads an element kind from the JSON text of an element declaration.
    pub fn from_json(text: &str) -> (r: Result<ElementKind, DeserializationError>)
        ensures
            match r {
                Ok(k) => element_kind_of(text@) == Ok::<ElementKindV, Seq<char>>(k@),
                Err(e) => element_kind_of(text@) == Err::<ElementKindV, Seq<char>>(e.description@),
            },
    {
        match element_kind_exec(text) {
            Ok(k) => Ok(k),
            Err(e) => Err(DeserializationError { description: e }),
        }
    }
}

/// The element declared by the member `name: text` of an `elements` object.
pub open spec fn element_of(name: Seq<char>, text: Seq<char>, kind: ElementKindV) -> ElementV {
    ElementV { name, key: node_at(index(Some(text), "key"@)) == JsonNodeV::Bool(true), kind }
}

/// The elements declared by the members of an `elements` object, in order;
/// the first element whose kind cannot be read gives the error.
pub open spec fn read_elements(els: Seq<(Seq<char>, Seq<char>)>) -> Result<Seq<ElementV>, Seq<char>>
    decreases els.len(),
{
    if els.len() == 0 {
        Ok(Seq::empty())
    } else {
        match element_kind_of(els[0].1) {
            Err(e) => Err(e),
            Ok(k) => match read_elements(els.drop_first()) {
                Err(e) => Err(e),
                Ok(rest) => Ok(seq![element_of(els[0].0, els[0].1, k)] + rest),
            },
        }
    }
}

/// A text with its double quotes taken out.
pub open spec fn unquoted(t: Seq<char>) -> Seq<char> {
    replace_str(t, seq!['"'], Seq::empty())
}

/// The source of an entity definition given by its text: `None` when its
/// `query` is an object whose `SELECT.from.ref` is not an array (reading
/// such a definition is not defined); otherwise the dotted source name, if
/// there is a query.
pub open spec fn query_from(text: Seq<char>) -> Option<Option<Seq<char>>> {
    let query = index(Some(text), "query"@);
    match node_at(query) {
        JsonNodeV::Object(_) => match node_at(index(index(index(query, "SELECT"@), "from"@), "ref"@)) {
            JsonNodeV::Array(items) => Some(Some(join(items.map_values(|it: Seq<char>| unquoted(it)), seq!['.']))),
            _ => None,
        },
        _ => Some(None),
    }
}

/// The definition given by the member `key: text` of `definitions`: a
/// service, an entity, or nothing for other kinds; `None` where reading it
/// is not defined.
pub open spec fn read_definition(key: Seq<char>, text: Seq<char>) -> Option<Result<Option<DefinitionV>, Seq<char>>> {
    let kind = node_at(index(Some(text), "kind"@));
    if kind == JsonNodeV::Str("service"@) {
        Some(Ok(Some(DefinitionV::Service(key))))
    } else if kind == JsonNodeV::Str("entity"@) {
        match node_at(index(Some(text), "elements"@)) {
            JsonNodeV::Object(els) => match read_elements(els) {
                Err(e) => Some(Err(e)),
                Ok(elements) => match query_from(text) {
                    None => None,
                    Some(query) => Some(Ok(Some(DefinitionV::Entity(EntityV { name: key, query, elements })))),
                },
            },
            _ => Some(Err("Cannot find elements"@)),
        }
    } else {
        Some(Ok(None))
    }
}

/// The definitions given by the members of `definitions`, in order; reading
/// stops at the first error.
pub open spec fn read_definitions(ms: Seq<(Seq<char>, Seq<char>)>) -> Option<Result<Seq<DefinitionV>, Seq<char>>>
    decreases ms.len(),
{
    if ms.len() == 0 {
        Some(Ok(Seq::empty()))
    } else {
        match read_definition(ms[0].0, ms[0].1) {
            None => None,
            Some(Err(e)) => Some(Err(e)),
            Some(Ok(d)) => match read_definitions(ms.drop_first()) {
                None => None,
                Some(Err(e)) => Some(Err(e)),
                Some(Ok(rest)) => Some(Ok(match d {
                    Some(x) => seq![x] + rest,
                    None => rest,
                })),
            },
        }
    }
}

/// What a CSN text defines: the JSON parse error, the error of a missing
/// `definitions` object, or the definitions read from it. `None` where
/// reading is not defined.
pub open spec fn csn_definitions(text: Seq<char>) -> Option<Result<Seq<DefinitionV>, Seq<char>>> {
    match json_node(text) {
        Err(m) => Some(Err(m)),
        Ok(top) => {
            let defs = match top {
                JsonNodeV::Object(ms) => member_text(ms, "definitions"@),
                _ => None,
            };
            match node_at(defs) {
                JsonNodeV::Object(ms) => read_definitions(ms),
                _ => Some(Err("Cannot find definitions"@)),
            }
        },
    }
}

/// The view of the result of reading definitions.
pub open spec fn defs_result_view(r: Result<Definitions, DeserializationError>) -> Result<Seq<DefinitionV>, Seq<char>> {
    match r {
        Ok(d) => Ok(d@),
        Err(e) => Err(e.description@),
    }
}

/// Prepends what was read so far to what is read from the rest.
pub open spec fn prepend_elements(acc: Seq<ElementV>, r: Result<Seq<ElementV>, Seq<char>>) -> Result<Seq<ElementV>, Seq<char>> {
    match r {
        Ok(rest) => Ok(acc + rest),
        Err(e) => Err(e),
    }
}

fn read_elements_exec(els: &Vec<(String, String)>) -> (r: Result<Vec<Element>, String>)
    ensures
        match r {
            Ok(v) => read_elements(els.deep_view()) == Ok::<Seq<ElementV>, Seq<char>>(v@.map_values(|e: Element| e@)),
            Err(e) => read_elements(els.deep_view()) == Err::<Seq<ElementV>, Seq<char>>(e@),
        },
{
    let ghost ms = els.deep_view();
    let mut out: Vec<Element> = Vec::new();
    let mut i: usize = 0;
    assert(ms.skip(0) =~= ms);
    assert(out@.map_values(|e: Element| e@) + Seq::<ElementV>::empty() =~= Seq::<ElementV>::empty());
    while i < els.len()
        invariant
            i <= els.len(),
            ms == els.deep_view(),
            read_elements(ms) == prepend_elements(out@.map_values(|e: Element| e@), read_elements(ms.skip(i as int))),
        decreases els.len() - i,
    {
        let ghost rest = ms.skip(i as int);
        assert(rest[0] == ms[i as int]);
        assert(rest.drop_first() =~= ms.skip(i + 1));
        let text = &els[i].1;
        match element_kind_exec(text.as_str()) {
            Err(e) => {
                return Err(e);
            },
            Ok(kind) => {
                let key_node = node_at_exec(&index_exec(&Some(text.clone()), "key"));
                let key = match key_node {
                    JsonNode::Bool(b) => b,
                    _ => false,
                };
                let el = Element { name: els[i].0.clone(), key, kind };
                assert(el@ == element_of(ms[i as int].0, ms[i as int].1, kind@));
                let ghost before = out@.map_values(|e: Element| e@);
                out.push(el);
                assert(out@.map_values(|e: Element| e@) =~= before.push(el@));
                proof {
                    match read_elements(ms.skip(i + 1)) {
                        Ok(r2) => {
                            assert(before + (seq![el@] + r2) =~= before.push(el@) + r2);
                        },
                        Err(_) => {},
                    }
                }
            },
        }
        i = i + 1;
    }
    proof {
        assert(ms.skip(els.len() as int).len() == 0);
        assert(out@.map_values(|e: Element| e@) + Seq::<ElementV>::empty() =~= out@.map_values(|e: Element| e@));
    }
    Ok(out)
}

fn query_from_exec(text: &String) -> (r: Option<Option<String>>)
    ensures
        match r {
            None => query_from(text@) is None,
            Some(q) => query_from(text@) == Some(opt_view(q)),
        },
{
    let query = index_exec(&Some(text.clone()), "query");
    match node_at_exec(&query) {
        JsonNode::Object(_) => {
            let sel = index_exec(&query, "SELECT");
            let from = index_exec(&sel, "from");
            let reference = index_exec(&from, "ref");
            match node_at_exec(&reference) {
                JsonNode::Array(items) => {
                    proof {
                        reveal_strlit("\"");
                        reveal_strlit("");
                        reveal_strlit(".");
                    }
                    let quote = "\"";
                    let nothing = "";
                    let dot = ".";
                    assert(quote@ =~= seq!['"']);
                    assert(nothing@ =~= Seq::<char>::empty());
                    assert(dot@ =~= seq!['.']);
                    let mut parts: Vec<String> = Vec::new();
                    let mut i: usize = 0;
                    while i < items.len()
                        invariant
                            i <= items.len(),
                            quote@ == seq!['"'],
                            nothing@ == Seq::<char>::empty(),
                            parts.deep_view().len() == i,
                            forall|j: int| 0 <= j < i ==> parts.deep_view()[j] == unquoted(items.deep_view()[j]),
                        decreases items.len() - i,
                    {
                        let ghost before = parts.deep_view();
                        let p = replace(items[i].as_str(), quote, nothing);
                        parts.push(p);
                        assert(parts.deep_view() =~= before.push(p@));
                        i = i + 1;
                    }
                    assert(parts.deep_view() =~= items.deep_view().map_values(|it: Seq<char>| unquoted(it)));
                    Some(Some(join_strings(&parts, dot)))
                },
                _ => None,
            }
        },
        _ => Some(None),
    }
}

/// The view of the result of reading one definition.
pub open spec fn def_result_view(r: Option<Result<Option<Definition>, String>>) -> Option<Result<Option<DefinitionV>, Seq<char>>> {
    match r {
        None => None,
        Some(Err(e)) => Some(Err(e@)),
        Some(Ok(None)) => Some(Ok(None)),
        Some(Ok(Some(d))) => Some(Ok(Some(d@))),
    }
}

fn read_definition_exec(key: &String, text: &String) -> (r: Option<Result<Option<Definition>, String>>)
    ensures
        def_result_view(r) == read_definition(key@, text@),
{
    let kind = node_at_exec(&index_exec(&Some(text.clone()), "kind"));
    let is_service = match &kind {
        JsonNode::Str(k) => *k == String::from_str("service"),
        _ => false,
    };
    let is_entity = match &kind {
        JsonNode::Str(k) => *k == String::from_str("entity"),
        _ => false,
    };
    if is_service {
        Some(Ok(Some(Definition::Service(Service { name: key.clone() }))))
    } else if is_entity {
        match node_at_exec(&index_exec(&Some(text.clone()), "elements")) {
            JsonNode::Object(els) => match read_elements_exec(&els) {
                Err(e) => Some(Err(e)),
                Ok(elements) => match query_from_exec(text) {
                    None => None,
                    Some(q) => {
                        let entity = Entity {
                            name: key.clone(),
                            query: match q {
                                Some(from) => Some(Query { from }),
                                None => None,
                            },
                            elements,
                        };
                        Some(Ok(Some(Definition::Entity(entity))))
                    },
                },
            },
            _ => Some(Err(String::from_str("Cannot find elements"))),
        }
    } else {
        Some(Ok(None))
    }
}

/// Prepends what was read so far to what is read from the rest.
pub open spec fn prepend_defs(acc: Seq<DefinitionV>, r: Option<Result<Seq<DefinitionV>, Seq<char>>>) -> Option<Result<Seq<DefinitionV>, Seq<char>>> {
    match r {
        Some(Ok(rest)) => Some(Ok(acc + rest)),
        other => other,
    }
}

fn read_definitions_exec(ms_exec: &Vec<(String, String)>) -> (r: Option<Result<Vec<Definition>, String>>)
    ensures
        match r {
            None => read_definitions(ms_exec.deep_view()) is None,
            Some(Err(e)) => read_definitions(ms_exec.deep_view()) == Some(Err::<Seq<DefinitionV>, Seq<char>>(e@)),
            Some(Ok(v)) => read_definitions(ms_exec.deep_view()) == Some(Ok::<Seq<DefinitionV>, Seq<char>>(v@.map_values(|d: Definition| d@))),
        },
{
    let ghost ms = ms_exec.deep_view();
    let mut out: Vec<Definition> = Vec::new();
    let mut i: usize = 0;
    assert(ms.skip(0) =~= ms);
    proof {
        match read_definitions(ms) {
            Some(Ok(r2)) => {
                assert(out@.map_values(|d: Definition| d@) + r2 =~= r2);
            },
            _ => {},
        }
    }
    while i < ms_exec.len()
        invariant
            i <= ms_exec.len(),
            ms == ms_exec.deep_view(),
            read_definitions(ms) == prepend_defs(out@.map_values(|d: Definition| d@), read_definitions(ms.skip(i as int))),
        decreases ms_exec.len() - i,
    {
        let ghost rest = ms.skip(i as int);
        assert(rest[0] == ms[i as int]);
        assert(rest.drop_first() =~= ms.skip(i + 1));
        let ghost before = out@.map_values(|d: Definition| d@);
        match read_definition_exec(&ms_exec[i].0, &ms_exec[i].1) {
            None => {
                return None;
            },
            Some(Err(e)) => {
                return Some(Err(e));
            },
            Some(Ok(None)) => {},
            Some(Ok(Some(d))) => {
                let ghost dv = d@;
                out.push(d);
                assert(out@.map_values(|x: Definition| x@) =~= before.push(dv));
                proof {
                    match read_definitions(ms.skip(i + 1)) {
                        Some(Ok(r2)) => {
                            assert(before + (seq![dv] + r2) =~= before.push(dv) + r2);
                        },
                        _ => {},
                    }
                }
            },
        }
        i = i + 1;
    }
    proof {
        assert(ms.skip(ms_exec.len() as int).len() == 0);
        assert(out@.map_values(|d: Definition| d@) + Seq::<DefinitionV>::empty() =~= out@.map_values(|d: Definition| d@));
    }
    Some(Ok(out))
}

/// The outcome of reading a CSN text.
pub open spec fn outcome_view(r: Option<Result<Definitions, DeserializationError>>) -> Option<Result<Seq<DefinitionV>, Seq<char>>> {
    match r {
        None => None,
        Some(x) => Some(defs_result_view(x)),
    }
}

impl Definitions {
    /// Reads the definitions from the members of a `definitions` object,
    /// each a name with the JSON text of its value: `None` where reading is
    /// not defined (an entity query without a `ref` array).
    pub fn from_members(members: &Vec<(String, String)>) -> (r: Option<Result<Definitions, DeserializationError>>)
        ensures
            outcome_view(r) == read_definitions(members.deep_view()),
    {
        match read_definitions_exec(members) {
            None => None,
            Some(Err(e)) => Some(Err(DeserializationError { description: e })),
            Some(Ok(definitions)) => Some(Ok(Definitions { definitions })),
        }
    }
}

fn decode_csn(csn: &str) -> (r: Option<Result<Definitions, DeserializationError>>)
    ensures
        outcome_view(r) == csn_definitions(csn@),
{
    match parse_json_node(csn) {
        Err(m) => Some(Err(DeserializationError { description: m })),
        Ok(top) => {
            let defs = match &top {
                JsonNode::Object(ms) => member_text_exec(ms, "definitions"),
                _ => None,
            };
            match node_at_exec(&defs) {
                JsonNode::Object(ms) => Definitions::from_members(&ms),
                _ => Some(Err(DeserializationError::new("Cannot find definitions"))),
            }
        },
    }
}

impl Definitions {
    /// Reads the services and entities that a CSN text defines.
    pub fn from_str(csn: &str) -> (r: Result<Definitions, DeserializationError>)
        requires
            csn_definitions(csn@) is Some,
        ensures
            csn_definitions(csn@) == Some(defs_result_view(r)),
    {
        match decode_csn(csn) {
            Some(r) => r,
            None => {
                proof {
                    assert(false);
                }
                Err(DeserializationError::new(""))
            },
        }
    }

    /// [`Definitions::from_str`] where it is defined, and `None` for a text
    /// with an entity whose `query.SELECT.from.ref` is not an array.
    pub fn from_str_checked(csn: &str) -> (r: Option<Result<Definitions, DeserializationError>>)
        ensures
            outcome_view(r) == csn_definitions(csn@),
    {
        decode_csn(csn)
    }
}

/// The name a definition is given.
pub open spec fn def_name(d: DefinitionV) -> Seq<char> {
    match d {
        DefinitionV::Service(n) => n,
        DefinitionV::Entity(e) => e.name,
    }
}

/// The service names are those of service definitions, no more of them than
/// there are definitions.
pub proof fn lemma_service_names(defs: Seq<DefinitionV>)
    ensures
        service_names(defs).len() <= defs.len(),
        forall|i: int|
            #![trigger service_names(defs)[i]]
            0 <= i < service_names(defs).len() ==> exists|j: int|
                0 <= j < defs.len() && #[trigger] defs[j] == DefinitionV::Service(service_names(defs)[i]),
    decreases defs.len(),
{
    if defs.len() > 0 {
        let prev = defs.drop_last();
        lemma_service_names(prev);
        let names = service_names(defs);
        assert forall|i: int| #![trigger names[i]] 0 <= i < names.len() implies exists|j: int|
            0 <= j < defs.len() && #[trigger] defs[j] == DefinitionV::Service(names[i]) by {
            if i < service_names(prev).len() {
                assert(names[i] == service_names(prev)[i]);
                let j = choose|j: int| 0 <= j < prev.len() && #[trigger] prev[j] == DefinitionV::Service(service_names(prev)[i]);
                assert(defs[j] == prev[j]);
            } else {
                assert(defs[defs.len() - 1] == defs.last());
            }
        }
    }
}

/// Reading never makes up definitions: each one read is named by a member
/// of the `definitions` object, and there are no more of them than members.
pub proof fn lemma_read_definitions_names(ms: Seq<(Seq<char>, Seq<char>)>)
    ensures
        read_definitions(ms) matches Some(Ok(ds)) ==> {
            &&& ds.len() <= ms.len()
            &&& forall|i: int| #![trigger ds[i]] 0 <= i < ds.len() ==> exists|j: int| 0 <= j < ms.len() && #[trigger] ms[j].0 == def_name(ds[i])
        },
    decreases ms.len(),
{
    if ms.len() > 0 {
        let rest = ms.drop_first();
        lemma_read_definitions_names(rest);
        match read_definitions(ms) {
            Some(Ok(ds)) => {
                match read_definition(ms[0].0, ms[0].1) {
                    Some(Ok(d)) => {
                        match read_definitions(rest) {
                            Some(Ok(rds)) => {
                                assert forall|i: int| #![trigger ds[i]] 0 <= i < ds.len() implies exists|j: int|
                                    0 <= j < ms.len() && #[trigger] ms[j].0 == def_name(ds[i]) by {
                                    match d {
                                        Some(x) => {
                                            if i == 0 {
                                                assert(ms[0].0 == def_name(ds[0]));
                                            } else {
                                                assert(ds[i] == rds[i - 1]);
                                                let j = choose|j: int| 0 <= j < rest.len() && #[trigger] rest[j].0 == def_name(rds[i - 1]);
                                                assert(ms[j + 1] == rest[j]);
                                            }
                                        },
                                        None => {
                                            assert(ds[i] == rds[i]);
                                            let j = choose|j: int| 0 <= j < rest.len() && #[trigger] rest[j].0 == def_name(rds[i]);
                                            assert(ms[j + 1] == rest[j]);
                                        },
                                    }
                                }
                            },
                            _ => {},
                        }
                    },
                    _ => {},
                }
            },
            _ => {},
        }
    }
}


/// A declared default `{"val": v}` is kept with its value, whatever the
/// value: a boolean (`true` or `false`), a string, or an integer in range.
pub proof fn lemma_default_kept(dt: Seq<char>, vt: Seq<char>)
    requires
        json_node(dt) == Ok::<JsonNodeV, Seq<char>>(JsonNodeV::Object(seq![("val"@, vt)])),
    ensures
        json_node(vt) matches Ok(JsonNodeV::Bool(b)) ==> default_bool(Some(dt)) == Ok::<
            Option<bool>,
            Seq<char>,
        >(Some(b)),
        json_node(vt) matches Ok(JsonNodeV::Str(v)) ==> default_string(Some(dt)) == Ok::<
            Option<Seq<char>>,
            Seq<char>,
        >(Some(v)),
        json_node(vt) matches Ok(JsonNodeV::Number(t)) ==> (is_int_text(t) && i64::MIN <= int_value(t)
            <= i64::MAX ==> default_i64(Some(dt)) == Ok::<Option<i64>, Seq<char>>(
            Some(int_value(t) as i64),
        )),
{
    let ms = seq![("val"@, vt)];
    assert(ms.len() == 1);
    assert(ms[0].0 == "val"@);
}

/// A Boolean element declared with a default `{"val": b}` is read with that
/// default, for `true` and for `false` alike.
pub proof fn lemma_boolean_default(
    text: Seq<char>,
    ms: Seq<(Seq<char>, Seq<char>)>,
    tt: Seq<char>,
    dt: Seq<char>,
    vt: Seq<char>,
    b: bool,
)
    requires
        json_node(text) == Ok::<JsonNodeV, Seq<char>>(JsonNodeV::Object(ms)),
        member_text(ms, "type"@) == Some(tt),
        json_node(tt) == Ok::<JsonNodeV, Seq<char>>(JsonNodeV::Str("cds.Boolean"@)),
        member_text(ms, "default"@) == Some(dt),
        json_node(dt) == Ok::<JsonNodeV, Seq<char>>(JsonNodeV::Object(seq![("val"@, vt)])),
        json_node(vt) == Ok::<JsonNodeV, Seq<char>>(JsonNodeV::Bool(b)),
    ensures
        element_kind_of(text) == Ok::<ElementKindV, Seq<char>>(ElementKindV::Boolean(Some(b))),
{
    lemma_default_kept(dt, vt);
    reveal_strlit("cds.Boolean");
    reveal_strlit("cds.UUID");
    assert("cds.Boolean"@[4] != "cds.UUID"@[4]);
}

/// Listing the services of two runs of definitions lists those of the
/// first, then those of the second.
pub proof fn lemma_service_names_concat(a: Seq<DefinitionV>, b: Seq<DefinitionV>)
    ensures
        service_names(a + b) == service_names(a) + service_names(b),
    decreases b.len(),
{
    if b.len() == 0 {
        assert(a + b =~= a);
        assert(service_names(a) + service_names(b) =~= service_names(a));
    } else {
        assert((a + b).drop_last() =~= a + b.drop_last());
        assert((a + b).last() == b.last());
        lemma_service_names_concat(a, b.drop_last());
        match b.last() {
            DefinitionV::Service(n) => {
                assert(service_names(a) + service_names(b.drop_last()).push(n) =~= (service_names(a)
                    + service_names(b.drop_last())).push(n));
            },
            DefinitionV::Entity(_) => {},
        }
    }
}

/// A single service definition lists its name; a single entity lists none.
pub proof fn lemma_service_names_single(d: DefinitionV)
    ensures
        service_names(seq![d]) == match d {
            DefinitionV::Service(n) => seq![n],
            DefinitionV::Entity(_) => Seq::<Seq<char>>::empty(),
        },
{
    assert(seq![d].drop_last() =~= Seq::<DefinitionV>::empty());
    assert(seq![d].last() == d);
    assert(service_names(Seq::<DefinitionV>::empty()) == Seq::<Seq<char>>::empty());
    match d {
        DefinitionV::Service(n) => {
            assert(Seq::<Seq<char>>::empty().push(n) =~= seq![n]);
        },
        DefinitionV::Entity(_) => {},
    }
}

/// Every service definition is listed, whatever comes before or after it:
/// the names before it, its name, then the names after it.
pub proof fn lemma_every_service_listed(defs: Seq<DefinitionV>, i: int)
    requires
        0 <= i < defs.len(),
        defs[i] is Service,
    ensures
        service_names(defs) == service_names(defs.take(i)) + seq![defs[i]->Service_0] + service_names(
            defs.skip(i + 1),
        ),
        service_names(defs).contains(defs[i]->Service_0),
{
    assert(defs =~= defs.take(i) + seq![defs[i]] + defs.skip(i + 1));
    lemma_service_names_concat(defs.take(i) + seq![defs[i]], defs.skip(i + 1));
    lemma_service_names_concat(defs.take(i), seq![defs[i]]);
    lemma_service_names_single(defs[i]);
    let k = service_names(defs.take(i)).len() as int;
    assert(service_names(defs)[k] == defs[i]->Service_0);
}

} // verus!
