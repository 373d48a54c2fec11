//! Resolving a request path such as `entity1(key1=1,key2=4)` against the
//! known entities.

use crate::entity::{Element, ElementV, Entity, EntityV};
use crate::text::{lemma_split_nonempty, split, split_str};
use vstd::prelude::*;

verus! {

/// A resolved path: the entity it names, with the keys it gives, if any.
pub struct Path<'a>(pub PathElement<'a>);

pub enum PathElement<'a> {
    EntityWithoutKeys(EntityWithoutKeys<'a>),
    EntityWithKeys(EntityWithKeys<'a>),
}

pub struct EntityWithoutKeys<'a> {
    pub entity: &'a Entity,
}

pub struct EntityWithKeys<'a> {
    pub entity: &'a Entity,
    pub keys: Vec<KeyVal<'a>>,
}

/// A key element of the entity with the value the path gives it.
pub struct KeyVal<'a> {
    pub key: &'a Element,
    pub val: String,
}

pub enum PathSerializationError {
    KeyInvald(String),
    EntityNotFound(String),
}

/// The mathematical form of a [`Path`]: the entity, and the keys with their
/// values when the path gives keys.
pub struct PathV {
    pub entity: EntityV,
    pub keys: Option<Seq<(ElementV, Seq<char>)>>,
}

pub enum PathErrV {
    KeyInvald(Seq<char>),
    EntityNotFound(Seq<char>),
}

impl<'a> View for Path<'a> {
    type V = PathV;

    open spec fn view(&self) -> PathV {
        match self.0 {
            PathElement::EntityWithoutKeys(e) => PathV { entity: (*e.entity)@, keys: None },
            PathElement::EntityWithKeys(e) => PathV {
                entity: (*e.entity)@,
                keys: Some(e.keys@.map_values(|kv: KeyVal<'a>| ((*kv.key)@, kv.val@))),
            },
        }
    }
}

impl View for PathSerializationError {
    type V = PathErrV;

    open spec fn view(&self) -> PathErrV {
        match self {
            PathSerializationError::KeyInvald(k) => PathErrV::KeyInvald(k@),
            PathSerializationError::EntityNotFound(n) => PathErrV::EntityNotFound(n@),
        }
    }
}

/// The parts of a path segment between its parentheses: `entity1(k=1)`
/// gives `entity1`, `k=1` and an empty last part.
pub open spec fn bracket_parts(seg: Seq<char>) -> Seq<Seq<char>> {
    split_str(seg, seq!['(']).map_values(|p: Seq<char>| split_str(p, seq![')'])).flatten()
}

/// The first entity with the given name.
pub open spec fn entity_named(es: Seq<EntityV>, name: Seq<char>) -> Option<EntityV>
    decreases es.len(),
{
    if es.len() == 0 {
        None
    } else if es[0].name == name {
        Some(es[0])
    } else {
        entity_named(es.drop_first(), name)
    }
}

/// The first key element with the given name.
pub open spec fn key_element(els: Seq<ElementV>, name: Seq<char>) -> Option<ElementV>
    decreases els.len(),
{
    if els.len() == 0 {
        None
    } else if els[0].is_key && els[0].name == name {
        Some(els[0])
    } else {
        key_element(els.drop_first(), name)
    }
}

/// The keys given by `key=value` items, each a key element of the entity;
/// the first item whose name is not a key gives the error. `None` where an
/// item names a key but holds no `=` (reading it is not defined).
pub open spec fn keys_of(items: Seq<Seq<char>>, e: EntityV) -> Option<Result<Seq<(ElementV, Seq<char>)>, Seq<char>>>
    decreases items.len(),
{
    if items.len() == 0 {
        Some(Ok(Seq::empty()))
    } else {
        let parts = split_str(items[0], seq!['=']);
        match key_element(e.elements, parts[0]) {
            None => Some(Err(parts[0])),
            Some(el) => if parts.len() < 2 {
                None
            } else {
                match keys_of(items.drop_first(), e) {
                    None => None,
                    Some(Err(k)) => Some(Err(k)),
                    Some(Ok(rest)) => Some(Ok(seq![(el, parts[1])] + rest)),
                }
            },
        }
    }
}

/// The path a segment resolves to among the entities: the entity named
/// before the parentheses, with the comma-separated keys inside them.
pub open spec fn path_of(seg: Seq<char>, es: Seq<EntityV>) -> Option<Result<PathV, PathErrV>> {
    let parts = bracket_parts(seg);
    match entity_named(es, parts[0]) {
        None => Some(Err(PathErrV::EntityNotFound(parts[0]))),
        Some(e) => if parts.len() > 1 {
            match keys_of(split_str(parts[1], seq![',']), e) {
                None => None,
                Some(Err(k)) => Some(Err(PathErrV::KeyInvald(k))),
                Some(Ok(keys)) => Some(Ok(PathV { entity: e, keys: Some(keys) })),
            }
        } else {
            Some(Ok(PathV { entity: e, keys: None }))
        },
    }
}

/// The view of a resolution result.
pub open spec fn path_result_view<'a>(r: Result<Path<'a>, PathSerializationError>) -> Result<PathV, PathErrV> {
    match r {
        Ok(p) => Ok(p@),
        Err(e) => Err(e@),
    }
}

pub open spec fn entities_view(es: Seq<Entity>) -> Seq<EntityV> {
    es.map_values(|e: Entity| e@)
}

proof fn lemma_flatten_nonempty<A>(s: Seq<Seq<A>>)
    requires
        s.len() >= 1,
        s[0].len() >= 1,
    ensures
        s.flatten().len() >= 1,
{
    assert(s.flatten() == s.first() + s.drop_first().flatten());
}

/// The parts of a segment between its parentheses.
fn bracket_parts_exec(seg: &str) -> (r: Vec<String>)
    ensures
        r.deep_view() == bracket_parts(seg@),
        r.len() >= 1,
{
    proof {
        reveal_strlit("(");
        reveal_strlit(")");
    }
    let open = "(";
    let close = ")";
    assert(open@ =~= seq!['(']);
    assert(close@ =~= seq![')']);
    let pieces = split(seg, open);
    let ghost mapped = pieces.deep_view().map_values(|p: Seq<char>| split_str(p, seq![')']));
    let mut out: Vec<String> = Vec::new();
    let mut i: usize = 0;
    assert(mapped.take(0).flatten() =~= Seq::<Seq<char>>::empty());
    while i < pieces.len()
        invariant
            i <= pieces.len(),
            close@ == seq![')'],
            mapped == pieces.deep_view().map_values(|p: Seq<char>| split_str(p, seq![')'])),
            out.deep_view() == mapped.take(i as int).flatten(),
        decreases pieces.len() - i,
    {
        let sub = split(pieces[i].as_str(), close);
        let mut j: usize = 0;
        let ghost before = out.deep_view();
        while j < sub.len()
            invariant
                j <= sub.len(),
                out.deep_view() == before + sub.deep_view().take(j as int),
            decreases sub.len() - j,
        {
            let ghost b2 = out.deep_view();
            out.push(sub[j].clone());
            assert(out.deep_view() =~= b2.push(sub.deep_view()[j as int]));
            assert(sub.deep_view().take(j + 1) =~= sub.deep_view().take(j as int).push(sub.deep_view()[j as int]));
            j = j + 1;
        }
        assert(sub.deep_view().take(sub.len() as int) =~= sub.deep_view());
        proof {
            assert(mapped.take(i + 1) =~= mapped.take(i as int).push(mapped[i as int]));
            mapped.take(i as int).lemma_flatten_push(mapped[i as int]);
        }
        i = i + 1;
    }
    assert(mapped.take(pieces.len() as int) =~= mapped);
    proof {
        lemma_split_nonempty(seg@, seq!['(']);
        lemma_split_nonempty(pieces.deep_view()[0], seq![')']);
        lemma_flatten_nonempty(mapped);
    }
    out
}

/// The first entity with the given name.
fn find_entity<'a>(entities: &'a Vec<Entity>, name: &str) -> (r: Option<&'a Entity>)
    ensures
        match r {
            Some(e) => entity_named(entities_view(entities@), name@) == Some(e@),
            None => entity_named(entities_view(entities@), name@) is None,
        },
{
    let ghost es = entities_view(entities@);
    let mut i: usize = 0;
    assert(es.skip(0) =~= es);
    while i < entities.len()
        invariant
            i <= entities.len(),
            es == entities_view(entities@),
            entity_named(es, name@) == entity_named(es.skip(i as int), name@),
        decreases entities.len() - i,
    {
        assert(es.skip(i as int)[0] == entities@[i as int]@);
        assert(es.skip(i as int).drop_first() =~= es.skip(i + 1));
        if crate::json::str_eq(entities[i].name.as_str(), name) {
            return Some(&entities[i]);
        }
        i = i + 1;
    }
    None
}

/// The first key element of the entity with the given name.
fn find_key<'a>(entity: &'a Entity, name: &str) -> (r: Option<&'a Element>)
    ensures
        match r {
            Some(el) => key_element(entity@.elements, name@) == Some(el@),
            None => key_element(entity@.elements, name@) is None,
        },
{
    let ghost els = entity@.elements;
    let mut i: usize = 0;
    assert(els.skip(0) =~= els);
    while i < entity.elements.len()
        invariant
            i <= entity.elements.len(),
            els == entity@.elements,
            key_element(els, name@) == key_element(els.skip(i as int), name@),
        decreases entity.elements.len() - i,
    {
        assert(els.skip(i as int)[0] == entity.elements@[i as int]@);
        assert(els.skip(i as int).drop_first() =~= els.skip(i + 1));
        if entity.elements[i].is_key && crate::json::str_eq(entity.elements[i].name.as_str(), name) {
            return Some(&entity.elements[i]);
        }
        i = i + 1;
    }
    None
}

/// What remains to be read after some keys: the keys read so far come first.
pub open spec fn prepend_keys(acc: Seq<(ElementV, Seq<char>)>, r: Option<Result<Seq<(ElementV, Seq<char>)>, Seq<char>>>) -> Option<Result<Seq<(ElementV, Seq<char>)>, Seq<char>>> {
    match r {
        Some(Ok(rest)) => Some(Ok(acc + rest)),
        other => other,
    }
}

/// The path to the entity with the keys given in `brackets_strs[1]`.
fn get_entity_with_keys<'a>(brackets_strs: &Vec<String>, found_entity_csn: &'a Entity) -> (r: Result<Path<'a>, PathSerializationError>)
    requires
        brackets_strs.len() > 1,
        keys_of(split_str(brackets_strs.deep_view()[1], seq![',']), found_entity_csn@) is Some,
    ensures
        Some(path_result_view(r)) == match keys_of(split_str(brackets_strs.deep_view()[1], seq![',']), found_entity_csn@) {
            None => None,
            Some(Err(k)) => Some(Err(PathErrV::KeyInvald(k))),
            Some(Ok(keys)) => Some(Ok::<PathV, PathErrV>(PathV { entity: found_entity_csn@, keys: Some(keys) })),
        },
{
    proof {
        reveal_strlit(",");
        reveal_strlit("=");
    }
    let comma = ",";
    let eq = "=";
    assert(comma@ =~= seq![',']);
    assert(eq@ =~= seq!['=']);
    let key_val_strs = split(brackets_strs[1].as_str(), comma);
    let ghost items = key_val_strs.deep_view();
    assert(brackets_strs.deep_view()[1] == brackets_strs[1]@);
    assert(items == split_str(brackets_strs.deep_view()[1], seq![',']));
    let ghost e = found_entity_csn@;
    assert(items.skip(0) =~= items);
    let mut keys: Vec<KeyVal<'a>> = Vec::new();
    let mut i: usize = 0;
    assert(keys@.map_values(|kv: KeyVal<'a>| ((*kv.key)@, kv.val@)) =~= Seq::<(ElementV, Seq<char>)>::empty());
    proof {
        match keys_of(items, e) {
            Some(Ok(r2)) => {
                assert(Seq::<(ElementV, Seq<char>)>::empty() + r2 =~= r2);
            },
            _ => {},
        }
    }
    while i < key_val_strs.len()
        invariant
            i <= key_val_strs.len(),
            eq@ == seq!['='],
            items == key_val_strs.deep_view(),
            items == split_str(brackets_strs.deep_view()[1], seq![',']),
            e == found_entity_csn@,
            keys_of(items, e) is Some,
            keys_of(items, e) == prepend_keys(keys@.map_values(|kv: KeyVal<'a>| ((*kv.key)@, kv.val@)), keys_of(items.skip(i as int), e)),
        decreases key_val_strs.len() - i,
    {
        let ghost rest = items.skip(i as int);
        assert(rest[0] == items[i as int]);
        assert(rest.drop_first() =~= items.skip(i + 1));
        let key_val_split = split(key_val_strs[i].as_str(), eq);
        proof {
            lemma_split_nonempty(items[i as int], seq!['=']);
        }
        let key_str = key_val_split[0].as_str();
        assert(key_val_strs[i as int]@ == items[i as int]);
        assert(key_val_split.deep_view() == split_str(rest[0], seq!['=']));
        assert(key_str@ == split_str(rest[0], seq!['='])[0]);
        match find_key(found_entity_csn, key_str) {
            Some(found_key) => {
                let ghost before = keys@.map_values(|kv: KeyVal<'a>| ((*kv.key)@, kv.val@));
                let kv = KeyVal { key: found_key, val: key_val_split[1].clone() };
                let ghost kvv = ((*kv.key)@, kv.val@);
                keys.push(kv);
                assert(keys@.map_values(|kv: KeyVal<'a>| ((*kv.key)@, kv.val@)) =~= before.push(kvv));
                proof {
                    match keys_of(items.skip(i + 1), e) {
                        Some(Ok(r2)) => {
                            assert(before + (seq![kvv] + r2) =~= before.push(kvv) + r2);
                        },
                        _ => {},
                    }
                }
            },
            None => {
                assert(keys_of(rest, e) == Some(Err::<Seq<(ElementV, Seq<char>)>, Seq<char>>(key_str@)));
                return Err(PathSerializationError::KeyInvald(String::from_str(key_str)));
            },
        }
        i = i + 1;
    }
    proof {
        assert(items.skip(key_val_strs.len() as int).len() == 0);
        assert(keys@.map_values(|kv: KeyVal<'a>| ((*kv.key)@, kv.val@)) + Seq::<(ElementV, Seq<char>)>::empty()
            =~= keys@.map_values(|kv: KeyVal<'a>| ((*kv.key)@, kv.val@)));
    }
    let entity = EntityWithKeys { entity: found_entity_csn, keys: keys };
    Ok(Path(PathElement::EntityWithKeys(entity)))
}

/// The path to the entity, without keys.
fn get_entity_without_keys<'a>(found_entity_csn: &'a Entity) -> (r: Result<Path<'a>, PathSerializationError>)
    ensures
        path_result_view(r) == Ok::<PathV, PathErrV>(PathV { entity: found_entity_csn@, keys: None }),
{
    let path = Path(PathElement::EntityWithoutKeys(EntityWithoutKeys { entity: found_entity_csn }));
    Ok(path)
}

/// Resolves one path segment among the entities.
fn get_path<'a>(path_segment: &str, entities: &'a Vec<Entity>) -> (r: Result<Path<'a>, PathSerializationError>)
    requires
        path_of(path_segment@, entities_view(entities@)) is Some,
    ensures
        path_of(path_segment@, entities_view(entities@)) == Some(path_result_view(r)),
{
    let brackets_strs = bracket_parts_exec(path_segment);
    let entity_str = brackets_strs[0].as_str();
    match find_entity(entities, entity_str) {
        Some(found_entity_csn) => {
            if brackets_strs.len() > 1 {
                get_entity_with_keys(&brackets_strs, found_entity_csn)
            } else {
                get_entity_without_keys(found_entity_csn)
            }
        },
        None => Err(PathSerializationError::EntityNotFound(String::from_str(entity_str))),
    }
}

/// Resolving is defined: the path has a segment after its first `/`, and
/// resolving that segment is defined.
pub open spec fn deserialize_path_defined(path: Seq<char>, es: Seq<EntityV>) -> bool {
    split_str(path, seq!['/']).len() >= 2 && path_of(split_str(path, seq!['/'])[1], es) is Some
}

/// Resolves the first segment of a request path, such as
/// `/entity1(key1=1,key2=4)/entity2`, among the entities.
pub fn deserialize_path<'a>(path: &str, entities: &'a Vec<Entity>) -> (r: Result<Path<'a>, PathSerializationError>)
    requires
        deserialize_path_defined(path@, entities_view(entities@)),
    ensures
        path_of(split_str(path@, seq!['/'])[1], entities_view(entities@)) == Some(path_result_view(r)),
{
    proof {
        reveal_strlit("/");
    }
    let slash = "/";
    assert(slash@ =~= seq!['/']);
    let path_segments_str = split(path, slash);
    get_path(path_segments_str[1].as_str(), entities)
}

/// The entity found by name has that name.
pub proof fn lemma_entity_named(es: Seq<EntityV>, name: Seq<char>)
    ensures
        entity_named(es, name) matches Some(e) ==> e.name == name && es.contains(e),
    decreases es.len(),
{
    if es.len() > 0 && !(es[0].name == name) {
        lemma_entity_named(es.drop_first(), name);
        if let Some(e) = entity_named(es.drop_first(), name) {
            let k = choose|k: int| 0 <= k < es.drop_first().len() && es.drop_first()[k] == e;
            assert(es[k + 1] == e);
        }
    } else if es.len() > 0 {
        assert(es[0] == es[0]);
    }
}

/// The key element found by name is a key element of the list, with that name.
pub proof fn lemma_key_element(els: Seq<ElementV>, name: Seq<char>)
    ensures
        key_element(els, name) matches Some(el) ==> el.is_key && el.name == name && els.contains(el),
    decreases els.len(),
{
    if els.len() > 0 && !(els[0].is_key && els[0].name == name) {
        lemma_key_element(els.drop_first(), name);
        if let Some(el) = key_element(els.drop_first(), name) {
            let k = choose|k: int| 0 <= k < els.drop_first().len() && els.drop_first()[k] == el;
            assert(els[k + 1] == el);
        }
    } else if els.len() > 0 {
        assert(els[0] == els[0]);
    }
}

/// Every key read is a key element of the entity.
pub proof fn lemma_keys_of(items: Seq<Seq<char>>, e: EntityV)
    ensures
        keys_of(items, e) matches Some(Ok(ks)) ==> forall|i: int|
            0 <= i < ks.len() ==> (#[trigger] ks[i]).0.is_key && e.elements.contains(ks[i].0),
    decreases items.len(),
{
    if items.len() > 0 {
        let parts = split_str(items[0], seq!['=']);
        lemma_key_element(e.elements, parts[0]);
        lemma_keys_of(items.drop_first(), e);
        if let Some(Ok(ks)) = keys_of(items, e) {
            if let Some(Ok(rest)) = keys_of(items.drop_first(), e) {
                assert forall|i: int| 0 <= i < ks.len() implies (#[trigger] ks[i]).0.is_key && e.elements.contains(ks[i].0) by {
                    if i > 0 {
                        assert(ks[i] == rest[i - 1]);
                    }
                }
            }
        }
    }
}

/// A resolved path is to the entity named before the parentheses, and every
/// key it gives is a key element of that entity.
pub proof fn lemma_path_of(seg: Seq<char>, es: Seq<EntityV>)
    ensures
        path_of(seg, es) matches Some(Ok(p)) ==> {
            &&& p.entity.name == bracket_parts(seg)[0]
            &&& es.contains(p.entity)
            &&& p.keys matches Some(ks) ==> forall|i: int|
                0 <= i < ks.len() ==> (#[trigger] ks[i]).0.is_key && p.entity.elements.contains(ks[i].0)
        },
{
    let parts = bracket_parts(seg);
    lemma_entity_named(es, parts[0]);
    if let Some(e) = entity_named(es, parts[0]) {
        if parts.len() > 1 {
            lemma_keys_of(split_str(parts[1], seq![',']), e);
        }
    }
}

} // verus!
