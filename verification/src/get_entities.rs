//! The entities the service knows of.

pub mod parse_csn;

use crate::entity::{Element, ElementType, ElementV, Entity, EntityV};
use vstd::prelude::*;

verus! {

pub open spec fn element_v(name: Seq<char>, el_type: ElementType, is_key: bool) -> ElementV {
    ElementV { name, el_type, is_key }
}

/// The three known entities: each has a UUID key and one more element.
pub open spec fn known_entities() -> Seq<EntityV> {
    seq![
        EntityV {
            name: "entity1"@,
            elements: seq![
                element_v("sub11"@, ElementType::UUID, true),
                element_v("sub12"@, ElementType::String, false),
            ],
        },
        EntityV {
            name: "entity2"@,
            elements: seq![
                element_v("sub21"@, ElementType::UUID, true),
                element_v("sub22"@, ElementType::Integer, false),
            ],
        },
        EntityV {
            name: "entity3"@,
            elements: seq![
                element_v("sub31"@, ElementType::UUID, true),
                element_v("sub32"@, ElementType::Integer64, false),
            ],
        },
    ]
}

fn entity_of(name: &str, first: Element, second: Element) -> (r: Entity)
    ensures
        r@ == (EntityV { name: name@, elements: seq![first@, second@] }),
{
    let mut elements: Vec<Element> = Vec::new();
    elements.push(first);
    elements.push(second);
    let r = Entity { name: String::from_str(name), elements };
    assert(r@.elements =~= seq![first@, second@]);
    r
}

fn element_of(name: &str, el_type: ElementType, is_key: bool) -> (r: Element)
    ensures
        r@ == element_v(name@, el_type, is_key),
{
    Element { name: String::from_str(name), el_type, is_key }
}

pub fn get_entities() -> (r: Vec<Entity>)
    ensures
        r@.map_values(|e: Entity| e@) == known_entities(),
{
    let mut entities: Vec<Entity> = Vec::new();
    entities.push(entity_of(
        "entity1",
        element_of("sub11", ElementType::UUID, true),
        element_of("sub12", ElementType::String, false),
    ));
    entities.push(entity_of(
        "entity2",
        element_of("sub21", ElementType::UUID, true),
        element_of("sub22", ElementType::Integer, false),
    ));
    entities.push(entity_of(
        "entity3",
        element_of("sub31", ElementType::UUID, true),
        element_of("sub32", ElementType::Integer64, false),
    ));
    assert(entities@.map_values(|e: Entity| e@) =~= known_entities());
    entities
}

} // verus!
