//! Reading an OData-style request (method, URL path and query, body) into a
//! CQN query.

use crate::cqn::{
    joined_filter, lemma_fresh_select_sql, select_sql, single_ref, str_views, CqnV, IdentifierV, InsertV,
    SelectV,
    CQN, INSERT, SELECT,
};
use crate::text::{
    find, find_str, lemma_split_nonempty, replace, replace_str, split, split_str, substring,
};
use vstd::prelude::*;

verus! {

/// The part of the path the query is about: an entity name, with the keys
/// given in parentheses.
struct Parsed {
    name: String,
    key_vals: Vec<KeyVal>,
}

#[derive(Debug)]
struct KeyVal {
    key: String,
    val: String,
}

pub enum UriError {
    InvalidURI,
    NotImplemented,
}

/// The request methods the service tells apart.
pub enum Method {
    Get,
    Post,
    Other,
}

pub struct ParsedV {
    pub name: Seq<char>,
    pub key_vals: Seq<(Seq<char>, Seq<char>)>,
}

impl View for Parsed {
    type V = ParsedV;

    closed spec fn view(&self) -> ParsedV {
        ParsedV {
            name: self.name@,
            key_vals: self.key_vals@.map_values(|kv: KeyVal| (kv.key@, kv.val@)),
        }
    }
}

/// The segments of a path between its slashes.
pub open spec fn path_segments(path: Seq<char>) -> Seq<Seq<char>> {
    split_str(path, seq!['/'])
}

/// The pieces of a `key=value` item.
pub open spec fn key_val_parts(item: Seq<char>) -> Seq<Seq<char>> {
    split_str(item, seq!['='])
}

/// The comma-separated `key=value` items of a key list.
pub open spec fn key_items(inner: Seq<char>) -> Seq<Seq<char>> {
    split_str(inner, seq![','])
}

/// The key/value pairs of a key list: the text before the first `=` of each
/// item, and the text between its first and second `=`.
pub open spec fn key_vals_of(inner: Seq<char>) -> Seq<(Seq<char>, Seq<char>)> {
    key_items(inner).map_values(|item: Seq<char>| (key_val_parts(item)[0], key_val_parts(item)[1]))
}

/// The third path segment: the entity, with its keys.
pub open spec fn entity_segment(path: Seq<char>) -> Seq<char> {
    path_segments(path)[2]
}

/// Reading the path is defined: it has at least three segments, and where
/// the entity segment has both parentheses, the first `)` follows the first
/// `(` and every item between them holds a `=`.
pub open spec fn parse_path_defined(path: Seq<char>) -> bool {
    &&& path_segments(path).len() >= 3
    &&& match (find_str(entity_segment(path), seq!['(']), find_str(entity_segment(path), seq![')'])) {
        (Some(s), Some(e)) => s < e && forall|i: int|
            0 <= i < key_items(entity_segment(path).subrange(s + 1, e)).len() ==> key_val_parts(
                #[trigger] key_items(entity_segment(path).subrange(s + 1, e))[i],
            ).len() >= 2,
        _ => true,
    }
}

/// The entity segment read: without `(` it is the name alone; with `(` and
/// `)` the name is what comes before `(` and the keys are the items between
/// them; with `(` but no `)` the URI is invalid.
pub open spec fn parse_path_spec(path: Seq<char>) -> Result<ParsedV, ()> {
    let seg = entity_segment(path);
    match find_str(seg, seq!['(']) {
        Some(s) => match find_str(seg, seq![')']) {
            Some(e) => Ok(ParsedV { name: seg.take(s), key_vals: key_vals_of(seg.subrange(s + 1, e)) }),
            None => Err(()),
        },
        None => Ok(ParsedV { name: seg, key_vals: Seq::empty() }),
    }
}

/// The key/value pairs of a key list.
fn parse_key_vals(inner: &str) -> (r: Vec<KeyVal>)
    requires
        forall|i: int|
            0 <= i < key_items(inner@).len() ==> key_val_parts(#[trigger] key_items(inner@)[i]).len() >= 2,
    ensures
        r@.map_values(|kv: KeyVal| (kv.key@, kv.val@)) == key_vals_of(inner@),
{
    proof {
        reveal_strlit(",");
        reveal_strlit("=");
    }
    let comma = ",";
    let eq = "=";
    assert(comma@ =~= seq![',']);
    assert(eq@ =~= seq!['=']);
    let items = split(inner, comma);
    let mut key_vals: Vec<KeyVal> = Vec::new();
    let mut i: usize = 0;
    while i < items.len()
        invariant
            i <= items.len(),
            eq@ == seq!['='],
            items.deep_view() == key_items(inner@),
            forall|j: int|
                0 <= j < items.len() ==> key_val_parts(#[trigger] key_items(inner@)[j]).len() >= 2,
            key_vals@.len() == i,
            forall|j: int|
                0 <= j < i ==> (#[trigger] key_vals@[j].key@, key_vals@[j].val@) == (
                    key_val_parts(key_items(inner@)[j])[0],
                    key_val_parts(key_items(inner@)[j])[1],
                ),
        decreases items.len() - i,
    {
        let parts = split(items[i].as_str(), eq);
        assert(parts.deep_view() == key_val_parts(key_items(inner@)[i as int]));
        let kv = KeyVal { key: parts[0].clone(), val: parts[1].clone() };
        key_vals.push(kv);
        i = i + 1;
    }
    assert(key_vals@.map_values(|kv: KeyVal| (kv.key@, kv.val@)) =~= key_vals_of(inner@));
    key_vals
}

/// Whether reading the path is defined (see [`parse_path_defined`]): the
/// test to make before [`parse`] is given a GET or POST request.
pub fn path_is_readable(path: &str) -> (r: bool)
    ensures
        r == parse_path_defined(path@),
{
    proof {
        reveal_strlit("/");
        reveal_strlit("(");
        reveal_strlit(")");
        reveal_strlit(",");
        reveal_strlit("=");
    }
    let slash = "/";
    assert(slash@ =~= seq!['/']);
    let segments = split(path, slash);
    if segments.len() < 3 {
        return false;
    }
    let seg = segments[2].as_str();
    assert(seg@ == entity_segment(path@));
    let open = "(";
    let close = ")";
    assert(open@ =~= seq!['(']);
    assert(close@ =~= seq![')']);
    match (find(seg, open), find(seg, close)) {
        (Some(s), Some(e)) => {
            if s >= e {
                return false;
            }
            let inner = substring(seg, s + 1, e);
            let comma = ",";
            let eq = "=";
            assert(comma@ =~= seq![',']);
            assert(eq@ =~= seq!['=']);
            let items = split(inner.as_str(), comma);
            let mut i: usize = 0;
            assert(inner@ == entity_segment(path@).subrange(s + 1, e as int));
            while i < items.len()
                invariant
                    i <= items.len(),
                    eq@ == seq!['='],
                    path_segments(path@).len() >= 3,
                    find_str(entity_segment(path@), seq!['(']) == Some(s as int),
                    find_str(entity_segment(path@), seq![')']) == Some(e as int),
                    s < e,
                    inner@ == entity_segment(path@).subrange(s + 1, e as int),
                    items.deep_view() == key_items(inner@),
                    forall|j: int| 0 <= j < i ==> key_val_parts(#[trigger] key_items(inner@)[j]).len() >= 2,
                decreases items.len() - i,
            {
                let parts = split(items[i].as_str(), eq);
                assert(parts.deep_view() == key_val_parts(key_items(inner@)[i as int]));
                if parts.len() < 2 {
                    assert(key_val_parts(key_items(inner@)[i as int]).len() < 2);
                    return false;
                }
                i = i + 1;
            }
            true
        },
        _ => true,
    }
}

fn parse_path(path: &str) -> (r: Result<Parsed, UriError>)
    requires
        parse_path_defined(path@),
    ensures
        match r {
            Ok(p) => parse_path_spec(path@) == Ok::<ParsedV, ()>(p@),
            Err(e) => parse_path_spec(path@) == Err::<ParsedV, ()>(()) && e is InvalidURI,
        },
{
    proof {
        reveal_strlit("/");
        reveal_strlit("(");
        reveal_strlit(")");
        reveal_strlit(",");
        reveal_strlit("=");
    }
    let slash = "/";
    assert(slash@ =~= seq!['/']);
    let segments = split(path, slash);
    let seg = segments[2].as_str();
    assert(seg@ == entity_segment(path@));
    let open = "(";
    let close = ")";
    assert(open@ =~= seq!['(']);
    assert(close@ =~= seq![')']);
    let seg_len = seg.unicode_len();
    match find(seg, open) {
        Some(start_idx) => {
            match find(seg, close) {
                Some(end_idx) => {
                    let name = substring(seg, 0, start_idx);
                    assert(name@ =~= seg@.take(start_idx as int));
                    let inner = substring(seg, start_idx + 1, end_idx);
                    let key_vals = parse_key_vals(inner.as_str());
                    let parsed = Parsed { name, key_vals };
                    Ok(parsed)
                },
                None => Err(UriError::InvalidURI),
            }
        },
        None => {
            let name = String::from_str(seg);
            let parsed = Parsed { name, key_vals: Vec::new() };
            assert(parsed@.key_vals =~= Seq::<(Seq<char>, Seq<char>)>::empty());
            Ok(parsed)
        },
    }
}

/// The filter a key/value pair of the path adds: `key = value`.
pub open spec fn key_filter(kv: (Seq<char>, Seq<char>)) -> Seq<Seq<char>> {
    seq![kv.0, seq!['='], kv.1]
}

/// The query with the filters of the path keys added, one after the other.
pub open spec fn with_key_filters(sel: SelectV, kvs: Seq<(Seq<char>, Seq<char>)>) -> SelectV
    decreases kvs.len(),
{
    if kvs.len() == 0 {
        sel
    } else {
        let s = with_key_filters(sel, kvs.drop_last());
        SelectV { filter: joined_filter(s.filter, key_filter(kvs.last())), ..s }
    }
}

/// A `$filter` value with its operators written as SQL: `eq` becomes `=`,
/// and `gt`, `lt`, `gte`, `lte` between encoded spaces become `>`, `<`,
/// `>=`, `<=`.
pub open spec fn cleaned_filter(v: Seq<char>) -> Seq<char> {
    replace_str(
        replace_str(
            replace_str(
                replace_str(replace_str(v, "eq"@, "="@), "%20gt%20"@, "%20>%20"@),
                "%20lt%20"@,
                "%20<%20"@,
            ),
            "%20gte%20"@,
            "%20>=%20"@,
        ),
        "%20lte%20"@,
        "%20<=%20"@,
    )
}

/// The query with one `param=value` segment of the URL query applied:
/// `$select` adds the comma-separated columns, `$filter` adds the filter
/// split at encoded spaces; other parameters change nothing. The value is
/// the text after the last `=`.
pub open spec fn with_query_segment(sel: SelectV, seg: Seq<char>) -> SelectV {
    let pv = split_str(seg, seq!['=']);
    let param = pv[0];
    let val = pv.last();
    if param == "$select"@ {
        SelectV {
            columns: sel.columns + split_str(val, seq![',']).map_values(|c: Seq<char>| single_ref(c)),
            ..sel
        }
    } else if param == "$filter"@ {
        SelectV { filter: joined_filter(sel.filter, split_str(cleaned_filter(val), "%20"@)), ..sel }
    } else {
        sel
    }
}

/// The query with the segments of the URL query applied, one after the other.
pub open spec fn with_query(sel: SelectV, segs: Seq<Seq<char>>) -> SelectV
    decreases segs.len(),
{
    if segs.len() == 0 {
        sel
    } else {
        with_query_segment(with_query(sel, segs.drop_last()), segs.last())
    }
}

/// The `&`-separated segments of the URL query, if there is one.
pub open spec fn query_segments(query: Option<Seq<char>>) -> Seq<Seq<char>> {
    match query {
        Some(q) => split_str(q, seq!['&']),
        None => Seq::empty(),
    }
}

/// The SELECT a GET request asks for: the entity `service.name` from the
/// path, filtered by the path keys, then shaped by the URL query.
pub open spec fn get_spec(path: Seq<char>, query: Option<Seq<char>>) -> Result<SelectV, UriError> {
    match parse_path_spec(path) {
        Err(_) => Err(UriError::InvalidURI),
        Ok(p) => {
            let base = SelectV {
                entity: single_ref(path_segments(path)[1] + seq!['.'] + p.name),
                columns: Seq::empty(),
                filter: Seq::empty(),
            };
            Ok(with_query(with_key_filters(base, p.key_vals), query_segments(query)))
        },
    }
}

/// The INSERT a POST request asks for: the body into the path's entity.
pub open spec fn post_spec(path: Seq<char>, body: Seq<char>) -> Result<InsertV, UriError> {
    match parse_path_spec(path) {
        Err(_) => Err(UriError::InvalidURI),
        Ok(p) => Ok(InsertV { entity: p.name, data: body, filter: Seq::empty() }),
    }
}

/// The list of string slices of a list of strings.
fn as_strs(v: &Vec<String>) -> (r: Vec<&str>)
    ensures
        str_views(r@) == v.deep_view(),
{
    let mut r: Vec<&str> = Vec::new();
    let mut i: usize = 0;
    while i < v.len()
        invariant
            i <= v.len(),
            r@.len() == i,
            forall|j: int| 0 <= j < i ==> #[trigger] r@[j]@ == v.deep_view()[j],
        decreases v.len() - i,
    {
        r.push(v[i].as_str());
        i = i + 1;
    }
    assert(str_views(r@) =~= v.deep_view());
    r
}

fn get(path: &str, query: Option<&str>) -> (r: Result<SELECT, UriError>)
    requires
        parse_path_defined(path@),
    ensures
        match r {
            Ok(s) => get_spec(path@, match query {
                Some(q) => Some(q@),
                None => None,
            }) == Ok::<SelectV, UriError>(s@),
            Err(e) => get_spec(path@, match query {
                Some(q) => Some(q@),
                None => None,
            }) == Err::<SelectV, UriError>(e),
        },
{
    proof {
        reveal_strlit("/");
        reveal_strlit(".");
        reveal_strlit("=");
        reveal_strlit("&");
        reveal_strlit(",");
        reveal_strlit("eq");
        reveal_strlit("%20gt%20");
        reveal_strlit("%20lt%20");
        reveal_strlit("%20gte%20");
        reveal_strlit("%20lte%20");
        reveal_strlit("%20");
    }
    let ghost q_view: Option<Seq<char>> = match query {
        Some(q) => Some(q@),
        None => None,
    };
    let slash = "/";
    assert(slash@ =~= seq!['/']);
    let segments = split(path, slash);
    let parsed = match parse_path(path) {
        Ok(p) => p,
        Err(e) => {
            return Err(e);
        },
    };
    let mut entity_name = segments[1].clone();
    entity_name.append(".");
    entity_name.append(parsed.name.as_str());
    assert(segments.deep_view()[1] == segments[1]@);
    assert(entity_name@ =~= path_segments(path@)[1] + seq!['.'] + parsed@.name);
    let mut select = SELECT::from(entity_name.as_str());
    let ghost base = select@;
    let ghost kvs = parsed@.key_vals;
    assert(base == SelectV {
        entity: single_ref(path_segments(path@)[1] + seq!['.'] + parsed@.name),
        columns: Seq::empty(),
        filter: Seq::empty(),
    });
    let mut i: usize = 0;
    while i < parsed.key_vals.len()
        invariant
            i <= parsed.key_vals.len(),
            kvs == parsed@.key_vals,
            select@ == with_key_filters(base, kvs.take(i as int)),
        decreases parsed.key_vals.len() - i,
    {
        let kv = &parsed.key_vals[i];
        let eq = "=";
        proof {
            reveal_strlit("=");
        }
        assert(eq@ =~= seq!['=']);
        let mut f: Vec<&str> = Vec::new();
        f.push(kv.key.as_str());
        f.push(eq);
        f.push(kv.val.as_str());
        assert(kvs[i as int] == (kv.key@, kv.val@));
        assert(str_views(f@) =~= key_filter(kvs[i as int]));
        assert(kvs.take(i + 1).drop_last() =~= kvs.take(i as int));
        select.filter(f);
        i = i + 1;
    }
    assert(kvs.take(parsed.key_vals.len() as int) =~= kvs);
    let amp = "&";
    assert(amp@ =~= seq!['&']);
    let segs: Vec<String> = match query {
        Some(q) => split(q, amp),
        None => Vec::new(),
    };
    assert(segs.deep_view() =~= query_segments(q_view));
    let ghost mid = select@;
    let mut k: usize = 0;
    while k < segs.len()
        invariant
            k <= segs.len(),
            select@ == with_query(mid, segs.deep_view().take(k as int)),
        decreases segs.len() - k,
    {
        proof {
            reveal_strlit("=");
            reveal_strlit(",");
            reveal_strlit("eq");
            reveal_strlit("%20gt%20");
            reveal_strlit("%20lt%20");
            reveal_strlit("%20gte%20");
            reveal_strlit("%20lte%20");
            reveal_strlit("%20");
        }
        let ghost seg = segs.deep_view()[k as int];
        assert(segs.deep_view().take(k + 1).drop_last() =~= segs.deep_view().take(k as int));
        let eq = "=";
        assert(eq@ =~= seq!['=']);
        let pv = split(segs[k].as_str(), eq);
        proof {
            lemma_split_nonempty(seg, seq!['=']);
        }
        let param = &pv[0];
        let val = &pv[pv.len() - 1];
        assert(val@ == split_str(seg, seq!['=']).last());
        if *param == String::from_str("$select") {
            let comma = ",";
            assert(comma@ =~= seq![',']);
            let cols = split(val.as_str(), comma);
            let refs = as_strs(&cols);
            select.columns(refs);
        } else if *param == String::from_str("$filter") {
            let c1 = replace(val.as_str(), "eq", "=");
            let c2 = replace(c1.as_str(), "%20gt%20", "%20>%20");
            let c3 = replace(c2.as_str(), "%20lt%20", "%20<%20");
            let c4 = replace(c3.as_str(), "%20gte%20", "%20>=%20");
            let c5 = replace(c4.as_str(), "%20lte%20", "%20<=%20");
            let parts = split(c5.as_str(), "%20");
            let refs = as_strs(&parts);
            select.filter(refs);
        }
        k = k + 1;
    }
    assert(segs.deep_view().take(segs.len() as int) =~= segs.deep_view());
    Ok(select)
}

fn post(path: &str, body: String) -> (r: Result<INSERT, UriError>)
    requires
        parse_path_defined(path@),
    ensures
        match r {
            Ok(i) => post_spec(path@, body@) == Ok::<InsertV, UriError>(i@),
            Err(e) => post_spec(path@, body@) == Err::<InsertV, UriError>(e),
        },
{
    let parsed = match parse_path(path) {
        Ok(p) => p,
        Err(e) => {
            return Err(e);
        },
    };
    let r = INSERT { entity: parsed.name, data: body, filter: Vec::new() };
    assert(r@.filter =~= Seq::<Seq<char>>::empty());
    Ok(r)
}

/// Reading the request is defined: for GET and POST the path can be read,
/// and a POST has a body.
pub open spec fn parse_defined(method: Method, path: Seq<char>, has_body: bool) -> bool {
    match method {
        Method::Get => parse_path_defined(path),
        Method::Post => has_body && parse_path_defined(path),
        Method::Other => true,
    }
}

/// The query a request asks for: a SELECT for GET, an INSERT of the body
/// for POST; other methods are not implemented.
pub open spec fn parse_spec(method: Method, path: Seq<char>, query: Option<Seq<char>>, body: Option<Seq<char>>) -> Result<crate::cqn::CqnV, UriError> {
    match method {
        Method::Get => match get_spec(path, query) {
            Ok(s) => Ok(crate::cqn::CqnV::SELECT(s)),
            Err(e) => Err(e),
        },
        Method::Post => match post_spec(path, body.unwrap()) {
            Ok(i) => Ok(crate::cqn::CqnV::INSERT(i)),
            Err(e) => Err(e),
        },
        Method::Other => Err(UriError::NotImplemented),
    }
}

/// Reads a request, given by its method, its URL path and query, and its
/// JSON body text, into a CQN query.
pub fn parse(method: Method, path: &str, query: Option<&str>, body: Option<String>) -> (r: Result<CQN, UriError>)
    requires
        parse_defined(method, path@, body is Some),
    ensures
        match r {
            Ok(q) => parse_spec(method, path@, match query {
                Some(q) => Some(q@),
                None => None,
            }, match body {
                Some(b) => Some(b@),
                None => None,
            }) == Ok::<crate::cqn::CqnV, UriError>(q@),
            Err(e) => parse_spec(method, path@, match query {
                Some(q) => Some(q@),
                None => None,
            }, match body {
                Some(b) => Some(b@),
                None => None,
            }) == Err::<crate::cqn::CqnV, UriError>(e),
        },
{
    match method {
        Method::Get => match get(path, query) {
            Ok(s) => Ok(CQN::SELECT(s)),
            Err(e) => Err(e),
        },
        Method::Post => match body {
            Some(b) => match post(path, b) {
                Ok(i) => Ok(CQN::INSERT(i)),
                Err(e) => Err(e),
            },
            None => Err(UriError::NotImplemented),
        },
        Method::Other => Err(UriError::NotImplemented),
    }
}

/// A GET request for an entity without keys and without a URL query asks
/// for every row of the table `service_entity`: its SQL text is
/// `SELECT * FROM` the service and entity names joined by a dot, with every
/// dot written as an underscore.
pub proof fn lemma_plain_get_sql(path: Seq<char>, body: Option<Seq<char>>)
    requires
        path_segments(path).len() >= 3,
        find_str(entity_segment(path), seq!['(']) is None,
    ensures
        parse_defined(Method::Get, path, body is Some),
        parse_spec(Method::Get, path, None, body) matches Ok(CqnV::SELECT(s)) && select_sql(s)
            == "SELECT * FROM "@ + crate::text::replace_str(
            path_segments(path)[1] + seq!['.'] + entity_segment(path),
            seq!['.'],
            seq!['_'],
        ),
{
    let name = path_segments(path)[1] + seq!['.'] + entity_segment(path);
    let base = SelectV { entity: single_ref(name), columns: Seq::empty(), filter: Seq::empty() };
    assert(parse_path_spec(path) == Ok::<ParsedV, ()>(ParsedV { name: entity_segment(path), key_vals: Seq::empty() }));
    assert(with_key_filters(base, Seq::empty()) == base);
    assert(with_query(base, Seq::empty()) == base);
    lemma_fresh_select_sql(name);
}

/// Requests with a method other than GET and POST are not implemented,
/// whatever their path, query and body.
pub proof fn lemma_other_methods(path: Seq<char>, query: Option<Seq<char>>, body: Option<Seq<char>>)
    ensures
        parse_defined(Method::Other, path, body is Some),
        parse_spec(Method::Other, path, query, body) == Err::<CqnV, UriError>(UriError::NotImplemented),
{
}


/// A `$select` of a single column `c` adds exactly that column after those
/// already selected; the entity and the filter stay as they are.
pub proof fn lemma_select_one_column(sel: SelectV, c: Seq<char>)
    requires
        !c.contains(','),
        !c.contains('='),
    ensures
        with_query_segment(sel, "$select="@ + c) == (SelectV {
            columns: sel.columns.push(single_ref(c)),
            ..sel
        }),
{
    reveal_strlit("$select=");
    reveal_strlit("$select");
    let name = "$select"@;
    assert("$select="@ =~= name + seq!['=']);
    assert(!name.contains('=')) by {
        assert forall|i: int| 0 <= i < name.len() implies name[i] != '=' by {}
    }
    crate::text::lemma_split_one_sep(name, c, '=');
    assert("$select="@ + c =~= name + seq!['='] + c);
    crate::text::lemma_split_no_sep(c, ',');
    assert(sel.columns + seq![c].map_values(|x: Seq<char>| single_ref(x)) =~= sel.columns.push(
        single_ref(c),
    ));
}

/// A GET of an entity without keys whose URL query is `$select=c` (one
/// column) selects exactly that column of `service.entity`, with no filter.
pub proof fn lemma_get_select_one_column(path: Seq<char>, c: Seq<char>, body: Option<Seq<char>>)
    requires
        path_segments(path).len() >= 3,
        find_str(entity_segment(path), seq!['(']) is None,
        !c.contains(','),
        !c.contains('='),
        !c.contains('&'),
    ensures
        parse_spec(Method::Get, path, Some("$select="@ + c), body) matches Ok(CqnV::SELECT(s)) && s
            == (SelectV {
            entity: single_ref(path_segments(path)[1] + seq!['.'] + entity_segment(path)),
            columns: seq![single_ref(c)],
            filter: Seq::empty(),
        }),
{
    reveal_strlit("$select=");
    let q = "$select="@ + c;
    assert forall|i: int| 0 <= i < q.len() implies q[i] != '&' by {
        if i >= 8 {
            assert(q[i] == c[i - 8]);
        }
    }
    crate::text::lemma_split_no_sep(q, '&');
    let name = path_segments(path)[1] + seq!['.'] + entity_segment(path);
    let base = SelectV { entity: single_ref(name), columns: Seq::empty(), filter: Seq::empty() };
    assert(parse_path_spec(path) == Ok::<ParsedV, ()>(ParsedV { name: entity_segment(path), key_vals: Seq::empty() }));
    assert(with_key_filters(base, Seq::empty()) == base);
    assert(seq![q].drop_last() =~= Seq::<Seq<char>>::empty());
    assert(seq![q].last() == q);
    assert(with_query(base, Seq::<Seq<char>>::empty()) == base);
    assert(with_query(base, seq![q]) == with_query_segment(base, q));
    lemma_select_one_column(base, c);
    assert(Seq::<IdentifierV>::empty().push(single_ref(c)) =~= seq![single_ref(c)]);
}

} // verus!
