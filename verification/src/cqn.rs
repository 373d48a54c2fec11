//! The CDS query notation (CQN): queries built from requests, completed from
//! the service definitions, and printed as SQL.

#![allow(non_camel_case_types)]

use crate::csn::{Definition, DefinitionV, Definitions, EntityV};
use crate::json::{json_node, parse_json_node, JsonNode, JsonNodeV};
use crate::text::{join, join_strings, replace, replace_str};
use vstd::prelude::*;

verus! {

#[derive(Debug)]
pub enum CQN {
    SELECT(SELECT),
    INSERT(INSERT),
}

#[derive(Debug)]
pub struct SELECT {
    pub entity: Identifier,
    pub columns: Vec<Identifier>,
    pub filter: Vec<String>,
}

/// An insertion of the JSON object `data` (kept as its JSON text) into `entity`.
#[derive(Debug)]
pub struct INSERT {
    pub entity: String,
    pub data: String,
    pub filter: Vec<String>,
}

/// A dotted reference, with an optional alias.
#[derive(Debug)]
pub struct Identifier {
    pub reference: Vec<String>,
    pub alias: Option<String>,
}

pub struct IdentifierV {
    pub reference: Seq<Seq<char>>,
    pub alias: Option<Seq<char>>,
}

pub struct SelectV {
    pub entity: IdentifierV,
    pub columns: Seq<IdentifierV>,
    pub filter: Seq<Seq<char>>,
}

pub struct InsertV {
    pub entity: Seq<char>,
    pub data: Seq<char>,
    pub filter: Seq<Seq<char>>,
}

pub enum CqnV {
    SELECT(SelectV),
    INSERT(InsertV),
}

impl View for Identifier {
    type V = IdentifierV;

    open spec fn view(&self) -> IdentifierV {
        IdentifierV {
            reference: self.reference.deep_view(),
            alias: match self.alias {
                Some(a) => Some(a@),
                None => None,
            },
        }
    }
}

impl View for SELECT {
    type V = SelectV;

    open spec fn view(&self) -> SelectV {
        SelectV {
            entity: self.entity@,
            columns: self.columns@.map_values(|c: Identifier| c@),
            filter: self.filter.deep_view(),
        }
    }
}

impl View for INSERT {
    type V = InsertV;

    open spec fn view(&self) -> InsertV {
        InsertV { entity: self.entity@, data: self.data@, filter: self.filter.deep_view() }
    }
}

impl View for CQN {
    type V = CqnV;

    open spec fn view(&self) -> CqnV {
        match self {
            CQN::SELECT(s) => CqnV::SELECT(s@),
            CQN::INSERT(i) => CqnV::INSERT(i@),
        }
    }
}

/// A reference to a single name, without alias.
pub open spec fn single_ref(name: Seq<char>) -> IdentifierV {
    IdentifierV { reference: seq![name], alias: None }
}

/// The views of a list of string slices.
pub open spec fn str_views(v: Seq<&str>) -> Seq<Seq<char>> {
    v.map_values(|s: &str| s@)
}

pub open spec fn and_word() -> Seq<char> {
    seq!['a', 'n', 'd']
}

/// The filter after `added` is joined to `old`: a filter that does not end
/// in `and` is put in parentheses and joined to the new one with `and`.
pub open spec fn joined_filter(old: Seq<Seq<char>>, added: Seq<Seq<char>>) -> Seq<Seq<char>> {
    if old.len() > 0 && old.last() != and_word() {
        seq![seq!['(']] + old + seq![seq![')'], and_word()] + added
    } else {
        old + added
    }
}

/// A reference printed with dots.
pub open spec fn dotted(id: IdentifierV) -> Seq<char> {
    join(id.reference, seq!['.'])
}

/// The SQL text of a SELECT query.
pub open spec fn select_sql(s: SelectV) -> Seq<char> {
    let from_sql = replace_str(dotted(s.entity), seq!['.'], seq!['_']);
    let base = if s.columns.len() > 0 {
        "SELECT "@ + join(s.columns.map_values(|c: IdentifierV| dotted(c)), seq![',']) + " FROM "@
            + from_sql
    } else {
        "SELECT * FROM "@ + from_sql
    };
    if s.filter.len() > 0 {
        base + " WHERE "@ + join(s.filter, seq![' '])
    } else {
        base
    }
}

impl Identifier {
    fn single(name: &str) -> (r: Identifier)
        ensures
            r@ == single_ref(name@),
    {
        let mut reference: Vec<String> = Vec::new();
        reference.push(String::from_str(name));
        assert(reference.deep_view() =~= seq![name@]);
        Identifier { reference, alias: None }
    }

    /// The reference printed with dots.
    fn to_dotted(&self) -> (r: String)
        ensures
            r@ == dotted(self@),
    {
        let dot = ".";
        proof {
            reveal_strlit(".");
        }
        assert(dot@ =~= seq!['.']);
        join_strings(&self.reference, dot)
    }
}

impl SELECT {
    /// A query for all of `entity`, with no columns and no filter.
    pub fn from(entity: &str) -> (r: SELECT)
        ensures
            r@ == (SelectV { entity: single_ref(entity@), columns: Seq::empty(), filter: Seq::empty() }),
    {
        let r = SELECT { entity: Identifier::single(entity), columns: Vec::new(), filter: Vec::new() };
        assert(r@.columns =~= Seq::<IdentifierV>::empty());
        assert(r@.filter =~= Seq::<Seq<char>>::empty());
        r
    }

    /// Adds the given columns after those already selected.
    pub fn columns(&mut self, columns: Vec<&str>) -> (r: &mut Self)
        ensures
            r@ == (SelectV {
                columns: old(self)@.columns + str_views(columns@).map_values(|c: Seq<char>| single_ref(c)),
                ..old(self)@
            }),
            *final(self) == *final(r),
    {
        let mut i: usize = 0;
        let ghost start = self@.columns;
        while i < columns.len()
            invariant
                i <= columns.len(),
                self@.entity == old(self)@.entity,
                self@.filter == old(self)@.filter,
                start == old(self)@.columns,
                self@.columns == start + str_views(columns@).take(i as int).map_values(
                    |c: Seq<char>| single_ref(c),
                ),
            decreases columns.len() - i,
        {
            let ghost before = self@.columns;
            let id = Identifier::single(columns[i]);
            self.columns.push(id);
            assert(self@.columns =~= before.push(id@));
            assert(str_views(columns@).take(i + 1) =~= str_views(columns@).take(i as int).push(
                columns@[i as int]@,
            ));
            i = i + 1;
        }
        assert(str_views(columns@).take(columns.len() as int) =~= str_views(columns@));
        self
    }

    /// Adds a filter: when a filter is already there and does not end with
    /// `and`, the old one is put in parentheses and joined with `and`.
    pub fn filter(&mut self, filter: Vec<&str>) -> (r: &mut Self)
        ensures
            r@ == (SelectV {
                filter: joined_filter(old(self)@.filter, str_views(filter@)),
                ..old(self)@
            }),
            *final(self) == *final(r),
    {
        let and_s = String::from_str("and");
        proof {
            reveal_strlit("and");
            reveal_strlit("(");
            reveal_strlit(")");
        }
        assert(and_s@ =~= and_word());
        let n = self.filter.len();
        let open_p = String::from_str("(");
        let close_p = String::from_str(")");
        assert(open_p@ =~= seq!['(']);
        assert(close_p@ =~= seq![')']);
        let wrap = n > 0 && !(self.filter[n - 1] == and_s);
        if wrap {
            let ghost f0 = self@.filter;
            self.filter.insert(0, open_p);
            assert(self@.filter =~= seq![seq!['(']] + f0);
            self.filter.push(close_p);
            self.filter.push(and_s);
            assert(self@.filter =~= seq![seq!['(']] + f0 + seq![seq![')'], and_word()]);
        }
        let ghost mid = self@.filter;
        assert(mid =~= if old(self)@.filter.len() > 0 && old(self)@.filter.last() != and_word() {
            seq![seq!['(']] + old(self)@.filter + seq![seq![')'], and_word()]
        } else {
            old(self)@.filter
        });
        let mut i: usize = 0;
        while i < filter.len()
            invariant
                i <= filter.len(),
                self@.entity == old(self)@.entity,
                self@.columns == old(self)@.columns,
                self@.filter == mid + str_views(filter@).take(i as int),
            decreases filter.len() - i,
        {
            let ghost before = self@.filter;
            self.filter.push(String::from_str(filter[i]));
            assert(self@.filter =~= before.push(filter@[i as int]@));
            assert(str_views(filter@).take(i + 1) =~= str_views(filter@).take(i as int).push(
                filter@[i as int]@,
            ));
            i = i + 1;
        }
        assert(str_views(filter@).take(filter.len() as int) =~= str_views(filter@));
        assert(self@.filter =~= joined_filter(old(self)@.filter, str_views(filter@)));
        self
    }
}

/// The keys of the members of a JSON object.
pub open spec fn member_keys(members: Seq<(Seq<char>, Seq<char>)>) -> Seq<Seq<char>> {
    members.map_values(|m: (Seq<char>, Seq<char>)| m.0)
}

/// The value texts of the members of a JSON object, each in single quotes.
pub open spec fn quoted_values(members: Seq<(Seq<char>, Seq<char>)>) -> Seq<Seq<char>> {
    members.map_values(|m: (Seq<char>, Seq<char>)| seq!['\''] + m.1 + seq!['\''])
}

/// A parenthesised, comma-separated list; with no items only the closing
/// parenthesis is left.
pub open spec fn paren_list(items: Seq<Seq<char>>) -> Seq<char> {
    if items.len() == 0 {
        seq![')']
    } else {
        seq!['('] + join(items, seq![',']) + seq![')']
    }
}

/// The SQL text of an INSERT of the JSON object with these members: the
/// columns are the keys, the values are the value texts in single quotes,
/// with every double quote taken out.
pub open spec fn insert_sql(i: InsertV, members: Seq<(Seq<char>, Seq<char>)>) -> Seq<char> {
    "INSERT INTO "@ + replace_str(i.entity, seq!['.'], seq!['_']) + seq![' '] + paren_list(
        member_keys(members),
    ) + " VALUES "@ + replace_str(paren_list(quoted_values(members)), seq!['"'], Seq::empty())
}

/// The members of the JSON object that `data` holds, if it holds one.
pub open spec fn data_members(data: Seq<char>) -> Option<Seq<(Seq<char>, Seq<char>)>> {
    match json_node(data) {
        Ok(JsonNodeV::Object(members)) => Some(members),
        _ => None,
    }
}

/// Queries that can be printed as SQL.
pub trait SQL {
    /// The query can be printed.
    spec fn sql_defined(&self) -> bool;

    /// The SQL text of the query.
    spec fn sql(&self) -> Seq<char>;

    fn to_sql(&self) -> (r: String)
        requires
            self.sql_defined(),
        ensures
            r@ == self.sql(),
    ;
}

/// The single-character string `c`.
fn char_string(lit: &str, c: char) -> (r: String)
    requires
        lit@ == seq![c],
    ensures
        r@ == seq![c],
{
    String::from_str(lit)
}

/// The items comma-separated in parentheses, as [`paren_list`] prints them.
fn paren_list_exec(items: &Vec<String>) -> (r: String)
    ensures
        r@ == paren_list(items.deep_view()),
{
    proof {
        reveal_strlit("(");
        reveal_strlit(")");
        reveal_strlit(",");
    }
    let close = ")";
    let open = "(";
    assert(close@ =~= seq![')']);
    assert(open@ =~= seq!['(']);
    if items.len() == 0 {
        char_string(close, ')')
    } else {
        let mut r = char_string(open, '(');
        let comma = ",";
        assert(comma@ =~= seq![',']);
        let inner = join_strings(items, comma);
        r.append(inner.as_str());
        r.append(")");
        assert(r@ =~= paren_list(items.deep_view()));
        r
    }
}

impl SQL for SELECT {
    open spec fn sql_defined(&self) -> bool {
        true
    }

    open spec fn sql(&self) -> Seq<char> {
        select_sql(self@)
    }

    fn to_sql(&self) -> (r: String) {
        proof {
            reveal_strlit(".");
            reveal_strlit("_");
            reveal_strlit(",");
            reveal_strlit(" ");
        }
        let dot = ".";
        let under = "_";
        assert(dot@ =~= seq!['.']);
        assert(under@ =~= seq!['_']);
        let entity = self.entity.to_dotted();
        let from_sql = replace(entity.as_str(), dot, under);
        let mut res = String::new();
        if self.columns.len() > 0 {
            let mut cols: Vec<String> = Vec::new();
            let mut i: usize = 0;
            while i < self.columns.len()
                invariant
                    i <= self.columns.len(),
                    cols.deep_view().len() == i,
                    forall|j: int| 0 <= j < i ==> cols.deep_view()[j] == dotted(self@.columns[j]),
                decreases self.columns.len() - i,
            {
                let ghost before = cols.deep_view();
                let d = self.columns[i].to_dotted();
                cols.push(d);
                assert(cols.deep_view() =~= before.push(d@));
                i = i + 1;
            }
            assert(cols.deep_view() =~= self@.columns.map_values(|c: IdentifierV| dotted(c)));
            let comma = ",";
            assert(comma@ =~= seq![',']);
            let joined = join_strings(&cols, comma);
            res.append("SELECT ");
            res.append(joined.as_str());
            res.append(" FROM ");
            res.append(from_sql.as_str());
        } else {
            res.append("SELECT * FROM ");
            res.append(from_sql.as_str());
        }
        if self.filter.len() > 0 {
            let space = " ";
            assert(space@ =~= seq![' ']);
            let where_part = join_strings(&self.filter, space);
            res.append(" WHERE ");
            res.append(where_part.as_str());
        }
        assert(res@ =~= select_sql(self@));
        res
    }
}

impl INSERT {
    /// The SQL text, or `None` when `data` is not the text of a JSON object.
    pub fn try_to_sql(&self) -> (r: Option<String>)
        ensures
            match r {
                Some(t) => self.sql_defined() && t@ == self.sql(),
                None => !self.sql_defined(),
            },
    {
        match parse_json_node(self.data.as_str()) {
            Ok(JsonNode::Object(members)) => Some(self.sql_of_members(&members)),
            _ => None,
        }
    }

    /// The SQL text of inserting the JSON object with the given members,
    /// each a key with the JSON text of its value.
    pub fn sql_of_members(&self, members: &Vec<(String, String)>) -> (r: String)
        ensures
            r@ == insert_sql(self@, members.deep_view()),
    {
        proof {
            reveal_strlit(".");
            reveal_strlit("_");
            reveal_strlit("'");
            reveal_strlit("\"");
            reveal_strlit("");
            reveal_strlit(" ");
        }
        let mut keys: Vec<String> = Vec::new();
        let mut vals: Vec<String> = Vec::new();
        let mut i: usize = 0;
        while i < members.len()
            invariant
                i <= members.len(),
                keys.deep_view().len() == i,
                vals.deep_view().len() == i,
                forall|j: int| 0 <= j < i ==> keys.deep_view()[j] == members.deep_view()[j].0,
                forall|j: int|
                    0 <= j < i ==> vals.deep_view()[j] == seq!['\''] + members.deep_view()[j].1
                        + seq!['\''],
            decreases members.len() - i,
        {
            let tick = "'";
            proof {
                reveal_strlit("'");
            }
            assert(tick@ =~= seq!['\'']);
            let ghost kb = keys.deep_view();
            let ghost vb = vals.deep_view();
            let k = members[i].0.clone();
            keys.push(k);
            assert(keys.deep_view() =~= kb.push(k@));
            let mut v = char_string(tick, '\'');
            v.append(members[i].1.as_str());
            v.append(tick);
            vals.push(v);
            assert(vals.deep_view() =~= vb.push(v@));
            i = i + 1;
        }
        assert(keys.deep_view() =~= member_keys(members.deep_view()));
        assert(vals.deep_view() =~= quoted_values(members.deep_view()));
        let dot = ".";
        let under = "_";
        let quote = "\"";
        let nothing = "";
        assert(dot@ =~= seq!['.']);
        assert(under@ =~= seq!['_']);
        assert(quote@ =~= seq!['"']);
        assert(nothing@ =~= Seq::<char>::empty());
        let into_sql = replace(self.entity.as_str(), dot, under);
        let cols_sql = paren_list_exec(&keys);
        let vals_list = paren_list_exec(&vals);
        let values_sql = replace(vals_list.as_str(), quote, nothing);
        let mut res = String::new();
        res.append("INSERT INTO ");
        res.append(into_sql.as_str());
        res.append(" ");
        res.append(cols_sql.as_str());
        res.append(" VALUES ");
        res.append(values_sql.as_str());
        assert(res@ =~= insert_sql(self@, members.deep_view()));
        res
    }
}

impl SQL for INSERT {
    open spec fn sql_defined(&self) -> bool {
        data_members(self.data@) is Some
    }

    open spec fn sql(&self) -> Seq<char> {
        insert_sql(self@, data_members(self.data@).unwrap())
    }

    fn to_sql(&self) -> (r: String) {
        match parse_json_node(self.data.as_str()) {
            Ok(JsonNode::Object(members)) => self.sql_of_members(&members),
            _ => {
                proof {
                    assert(false);
                }
                String::new()
            },
        }
    }
}

/// The first entity among `defs` with the given name.
pub open spec fn find_entity(defs: Seq<DefinitionV>, name: Seq<char>) -> Option<EntityV>
    decreases defs.len(),
{
    if defs.len() == 0 {
        None
    } else if defs[0] is Entity && defs[0]->Entity_0.name == name {
        Some(defs[0]->Entity_0)
    } else {
        find_entity(defs.drop_first(), name)
    }
}

/// A SELECT completed from the definitions: when its entity is defined and
/// no column is selected, all elements of the entity are selected.
pub open spec fn crunched_select(s: SelectV, defs: Seq<DefinitionV>) -> SelectV {
    match find_entity(defs, s.entity.reference.last()) {
        Some(e) => if s.columns.len() == 0 {
            SelectV { columns: e.elements.map_values(|el: crate::csn::ElementV| single_ref(el.name)), ..s }
        } else {
            s
        },
        None => s,
    }
}

/// An INSERT completed from the definitions: into an entity that is a
/// projection, it goes to the projection's source.
pub open spec fn crunched_insert(i: InsertV, defs: Seq<DefinitionV>) -> InsertV {
    match find_entity(defs, i.entity) {
        Some(e) => match e.query {
            Some(from) => InsertV { entity: from, ..i },
            None => i,
        },
        None => i,
    }
}

pub open spec fn crunched(q: CqnV, defs: Seq<DefinitionV>) -> CqnV {
    match q {
        CqnV::SELECT(s) => CqnV::SELECT(crunched_select(s, defs)),
        CqnV::INSERT(i) => CqnV::INSERT(crunched_insert(i, defs)),
    }
}

/// Whether some definition is an entity.
pub open spec fn has_entity(defs: Seq<DefinitionV>) -> bool {
    exists|i: int| 0 <= i < defs.len() && #[trigger] defs[i] is Entity
}

/// Without entity definitions, no name finds an entity.
pub proof fn lemma_find_entity_none(defs: Seq<DefinitionV>, name: Seq<char>)
    requires
        !has_entity(defs),
    ensures
        find_entity(defs, name) is None,
    decreases defs.len(),
{
    if defs.len() > 0 {
        assert(!(defs[0] is Entity));
        assert forall|i: int| 0 <= i < defs.drop_first().len() implies !(#[trigger] defs.drop_first()[i] is Entity) by {
            assert(defs.drop_first()[i] == defs[i + 1]);
        }
        lemma_find_entity_none(defs.drop_first(), name);
    }
}

/// Queries that can be completed from the service definitions.
pub trait Crunch {
    /// The query can be completed from these definitions.
    spec fn crunch_defined(&self, definitions: &Definitions) -> bool;

    fn crunch(&mut self, definitions: &Definitions) -> (r: &mut Self)
        requires
            old(self).crunch_defined(definitions),
    ;
}

/// The first entity among the definitions with the given name.
pub fn find_entity_exec<'a>(definitions: &'a Definitions, name: &String) -> (r: Option<
    &'a crate::csn::Entity,
>)
    ensures
        match r {
            Some(e) => find_entity(definitions@, name@) == Some(e@),
            None => find_entity(definitions@, name@) is None,
        },
{
    let mut i: usize = 0;
    assert(definitions@.skip(0) =~= definitions@);
    while i < definitions.definitions.len()
        invariant
            i <= definitions.definitions.len(),
            find_entity(definitions@, name@) == find_entity(definitions@.skip(i as int), name@),
        decreases definitions.definitions.len() - i,
    {
        assert(definitions@.skip(i as int)[0] == definitions@[i as int]);
        assert(definitions@.skip(i as int).drop_first() =~= definitions@.skip(i + 1));
        match &definitions.definitions[i] {
            Definition::Entity(e) => {
                if e.name == *name {
                    return Some(e);
                }
            },
            Definition::Service(_) => {},
        }
        i = i + 1;
    }
    None
}

impl Crunch for CQN {
    /// A SELECT names its entity by a non-empty reference, unless no
    /// definition is an entity (then it is left as it is).
    open spec fn crunch_defined(&self, definitions: &Definitions) -> bool {
        self is SELECT ==> self->SELECT_0.entity.reference.len() > 0 || !has_entity(definitions@)
    }

    fn crunch(&mut self, definitions: &Definitions) -> (r: &mut Self)
        ensures
            r@ == crunched(old(self)@, definitions@),
            *final(self) == *final(r),
    {
        match self {
            CQN::SELECT(select) => {
                let n = select.entity.reference.len();
                if n == 0 {
                    proof {
                        lemma_find_entity_none(definitions@, select@.entity.reference.last());
                    }
                    return self;
                }
                match find_entity_exec(definitions, &select.entity.reference[n - 1]) {
                    Some(entity) => {
                        if select.columns.len() == 0 {
                            let mut all_cols: Vec<&str> = Vec::new();
                            let mut j: usize = 0;
                            while j < entity.elements.len()
                                invariant
                                    j <= entity.elements.len(),
                                    all_cols@.len() == j,
                                    forall|k: int|
                                        0 <= k < j ==> all_cols@[k]@ == entity.elements@[k].name@,
                                decreases entity.elements.len() - j,
                            {
                                all_cols.push(entity.elements[j].name.as_str());
                                j = j + 1;
                            }
                            assert(str_views(all_cols@).map_values(|c: Seq<char>| single_ref(c))
                                =~= entity@.elements.map_values(
                                |el: crate::csn::ElementV| single_ref(el.name),
                            ));
                            select.columns(all_cols);
                        }
                    },
                    None => {},
                }
            },
            CQN::INSERT(insert) => {
                match find_entity_exec(definitions, &insert.entity) {
                    Some(entity) => {
                        match &entity.query {
                            Some(query) => {
                                insert.entity = query.from.clone();
                            },
                            None => {},
                        }
                    },
                    None => {},
                }
            },
        }
        self
    }
}

/// The query with the given columns added, as [`SELECT::columns`] leaves it.
pub open spec fn with_columns(s: SelectV, cols: Seq<Seq<char>>) -> SelectV {
    SelectV { columns: s.columns + cols.map_values(|c: Seq<char>| single_ref(c)), ..s }
}

/// A list of one part is joined to that part.
pub proof fn lemma_join_single(part: Seq<char>, sep: Seq<char>)
    ensures
        join(seq![part], sep) == part,
{
}

/// A fresh query for an entity is printed as `SELECT * FROM` the entity,
/// its dots written as underscores.
pub proof fn lemma_fresh_select_sql(entity: Seq<char>)
    ensures
        select_sql(SelectV { entity: single_ref(entity), columns: Seq::empty(), filter: Seq::empty() })
            == "SELECT * FROM "@ + replace_str(entity, seq!['.'], seq!['_']),
{
    lemma_join_single(entity, seq!['.']);
}

/// Adding columns twice adds them all, in order.
pub proof fn lemma_columns_compose(s: SelectV, a: Seq<Seq<char>>, b: Seq<Seq<char>>)
    ensures
        with_columns(with_columns(s, a), b) == with_columns(s, a + b),
{
    assert((a + b).map_values(|c: Seq<char>| single_ref(c)) =~= a.map_values(|c: Seq<char>| single_ref(c))
        + b.map_values(|c: Seq<char>| single_ref(c)));
    assert(s.columns + a.map_values(|c: Seq<char>| single_ref(c)) + b.map_values(|c: Seq<char>| single_ref(c))
        =~= s.columns + (a + b).map_values(|c: Seq<char>| single_ref(c)));
}

/// The first filter of a query is taken as given; a second one is joined to
/// it with `and`, the first put in parentheses (unless it ends in `and`).
pub proof fn lemma_filter_twice(a: Seq<Seq<char>>, b: Seq<Seq<char>>)
    ensures
        joined_filter(Seq::empty(), a) == a,
        a.len() > 0 && a.last() != and_word() ==> joined_filter(joined_filter(Seq::empty(), a), b)
            == seq![seq!['(']] + a + seq![seq![')'], and_word()] + b,
        a.len() > 0 && a.last() == and_word() ==> joined_filter(joined_filter(Seq::empty(), a), b)
            == a + b,
{
    assert(Seq::<Seq<char>>::empty() + a =~= a);
}

/// Adding a filter keeps the old filter and ends with the new one.
pub proof fn lemma_filter_keeps(old: Seq<Seq<char>>, added: Seq<Seq<char>>)
    ensures
        exists|k: int|
            0 <= k && k + old.len() <= joined_filter(old, added).len()
                && #[trigger] joined_filter(old, added).subrange(k, k + old.len()) == old,
        joined_filter(old, added).len() >= added.len(),
        joined_filter(old, added).skip(joined_filter(old, added).len() - added.len()) == added,
{
    let j = joined_filter(old, added);
    if old.len() > 0 && old.last() != and_word() {
        let k = 1int;
        assert(j.subrange(k, k + old.len()) =~= old);
    } else {
        let k = 0int;
        assert(j.subrange(k, k + old.len()) =~= old);
    }
    assert(j.skip(j.len() - added.len()) =~= added);
}

/// Completing a SELECT twice is completing it once.
pub proof fn lemma_crunch_select_idempotent(s: SelectV, defs: Seq<DefinitionV>)
    requires
        s.entity.reference.len() > 0,
    ensures
        crunched_select(crunched_select(s, defs), defs) == crunched_select(s, defs),
{
    let c = crunched_select(s, defs);
    assert(c.entity == s.entity);
    match find_entity(defs, s.entity.reference.last()) {
        Some(e) => {
            if s.columns.len() == 0 {
                if e.elements.len() == 0 {
                    assert(c.columns =~= s.columns);
                }
            }
        },
        None => {},
    }
}

/// Completing a query leaves a SELECT's entity and filter, and an INSERT's
/// data and filter, as they were; a SELECT that names columns is left whole.
pub proof fn lemma_crunch_keeps(q: CqnV, defs: Seq<DefinitionV>)
    ensures
        match (q, crunched(q, defs)) {
            (CqnV::SELECT(s), CqnV::SELECT(c)) => c.entity == s.entity && c.filter == s.filter
                && (s.columns.len() > 0 ==> c == s),
            (CqnV::INSERT(i), CqnV::INSERT(c)) => c.data == i.data && c.filter == i.filter,
            _ => false,
        },
{
}

/// A text with every double quote replaced by nothing holds no double quote.
pub proof fn lemma_unquoted_has_no_quote(t: Seq<char>)
    ensures
        !replace_str(t, seq!['"'], Seq::empty()).contains('"'),
    decreases t.len(),
{
    let q = seq!['"'];
    let r = replace_str(t, q, Seq::empty());
    match crate::text::find_str(t, q) {
        None => {
            assert(t.skip(0) =~= t);
            crate::text::lemma_replace_last(t, 0, q, Seq::empty());
            assert forall|i: int| 0 <= i < t.len() implies t[i] != '"' by {
                if t[i] == '"' {
                    assert(t.subrange(i, i + 1) =~= q);
                    crate::text::lemma_find_str_some(t, q, i);
                }
            }
        },
        Some(j) => {
            crate::text::lemma_find_str_facts(t, q);
            assert(t.skip(0) =~= t);
            crate::text::lemma_replace_step(t, 0, j, q, Seq::empty());
            lemma_unquoted_has_no_quote(t.skip(j + 1));
            assert forall|i: int| 0 <= i < j implies t[i] != '"' by {
                if t[i] == '"' {
                    assert(t.subrange(i, i + 1) =~= q);
                    assert(crate::text::matches_at(t, i, q));
                }
            }
            let rest = replace_str(t.skip(j + 1), q, Seq::empty());
            assert(r =~= t.subrange(0, j) + rest);
            assert forall|i: int| 0 <= i < r.len() implies r[i] != '"' by {
                if i < j {
                    assert(r[i] == t[i]);
                } else {
                    assert(r[i] == rest[i - j]);
                }
            }
        },
    }
}

/// The values of a printed INSERT hold no double quote: they follow
/// ` VALUES ` and have all double quotes taken out.
pub proof fn lemma_insert_values_unquoted(i: InsertV, members: Seq<(Seq<char>, Seq<char>)>)
    ensures
        insert_sql(i, members) == "INSERT INTO "@ + replace_str(i.entity, seq!['.'], seq!['_']) + seq![' ']
            + paren_list(member_keys(members)) + " VALUES "@ + replace_str(
            paren_list(quoted_values(members)),
            seq!['"'],
            Seq::empty(),
        ),
        !replace_str(paren_list(quoted_values(members)), seq!['"'], Seq::empty()).contains('"'),
{
    lemma_unquoted_has_no_quote(paren_list(quoted_values(members)));
}


/// Completing a SELECT that selects no columns, on an entity that is
/// defined, selects every element of that entity, in order, whatever the
/// filter; the entity and the filter stay as they are.
pub proof fn lemma_crunch_selects_all_elements(s: SelectV, defs: Seq<DefinitionV>, e: EntityV)
    requires
        find_entity(defs, s.entity.reference.last()) == Some(e),
        s.columns.len() == 0,
    ensures
        crunched_select(s, defs).columns.len() == e.elements.len(),
        forall|i: int|
            0 <= i < e.elements.len() ==> #[trigger] crunched_select(s, defs).columns[i] == single_ref(
                e.elements[i].name,
            ),
        crunched_select(s, defs).entity == s.entity,
        crunched_select(s, defs).filter == s.filter,
{
}

/// The name of the table a SELECT reads: its entity's dotted reference with
/// every dot written as an underscore.
pub open spec fn table_name(id: IdentifierV) -> Seq<char> {
    dotted(id).map_values(|c: char| if c == '.' { '_' } else { c })
}

/// A SELECT is printed as `SELECT`, the columns joined by commas (or `*`
/// without columns), `FROM` and the table name, then the filter words after
/// `WHERE` when there is a filter. The table name is the same whether
/// columns are given or not, and holds no dot.
pub proof fn lemma_select_sql_parts(s: SelectV)
    ensures
        select_sql(s) == (if s.columns.len() > 0 {
            "SELECT "@ + join(s.columns.map_values(|c: IdentifierV| dotted(c)), seq![','])
        } else {
            "SELECT *"@
        }) + " FROM "@ + table_name(s.entity) + (if s.filter.len() > 0 {
            " WHERE "@ + join(s.filter, seq![' '])
        } else {
            Seq::empty()
        }),
        !table_name(s.entity).contains('.'),
{
    crate::text::lemma_replace_char(dotted(s.entity), '.', '_');
    let t = table_name(s.entity);
    assert forall|i: int| 0 <= i < t.len() implies t[i] != '.' by {}
    reveal_strlit("SELECT *");
    reveal_strlit("SELECT * FROM ");
    reveal_strlit(" FROM ");
    assert("SELECT * FROM "@ =~= "SELECT *"@ + " FROM "@);
    let w = if s.filter.len() > 0 { " WHERE "@ + join(s.filter, seq![' ']) } else { Seq::<char>::empty() };
    if s.columns.len() > 0 {
        let h = "SELECT "@ + join(s.columns.map_values(|c: IdentifierV| dotted(c)), seq![','])
            + " FROM "@ + t;
        assert(select_sql(s) =~= h + w);
    } else {
        assert(select_sql(s) =~= "SELECT *"@ + " FROM "@ + t + w);
    }
}

} // verus!
