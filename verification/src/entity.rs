//! Entities with typed elements, as routes are resolved against them.

use vstd::prelude::*;

verus! {

#[derive(Debug)]
pub struct Entity {
    pub name: String,
    pub elements: Vec<Element>,
}

#[derive(Debug)]
pub struct Element {
    pub name: String,
    pub el_type: ElementType,
    pub is_key: bool,
}

#[derive(Clone, Copy, Debug, PartialEq, Eq, Structural)]
pub enum ElementType {
    UUID,
    Boolean,
    Integer,
    Integer64,
    Decimal,
    DecimalFloat,
    Double,
    Date,
    Time,
    DateTime,
    Timestamp,
    String,
    Binary,
    LargeBinary,
    LargeString,
}

pub struct ElementV {
    pub name: Seq<char>,
    pub el_type: ElementType,
    pub is_key: bool,
}

pub struct EntityV {
    pub name: Seq<char>,
    pub elements: Seq<ElementV>,
}

impl View for Element {
    type V = ElementV;

    open spec fn view(&self) -> ElementV {
        ElementV { name: self.name@, el_type: self.el_type, is_key: self.is_key }
    }
}

impl View for Entity {
    type V = EntityV;

    open spec fn view(&self) -> EntityV {
        EntityV { name: self.name@, elements: self.elements@.map_values(|e: Element| e@) }
    }
}

} // verus!
