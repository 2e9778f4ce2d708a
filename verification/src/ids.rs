//! Typed identifiers: thin wrappers around a slot index.
use vstd::prelude::*;

verus! {

/// An identifier that is nothing more than an index into a table of slots.
///
/// `new` and `index` are inverse to each other: an identifier is determined
/// by its index and every index names exactly one identifier.
pub trait RegistryID: Copy + Sized {
    /// The slot index this identifier stands for.
    spec fn slot(self) -> nat;

    fn new(index: usize) -> (id: Self)
        ensures
            id.slot() == index as nat,
    ;

    fn index(self) -> (index: usize)
        ensures
            index as nat == self.slot(),
    ;

    /// Two identifiers with the same slot are the same identifier.
    proof fn lemma_slot_injective(a: Self, b: Self)
        requires
            a.slot() == b.slot(),
        ensures
            a == b,
    ;
}

/// Identifies an entity within a database.
///
/// Entity IDs must be unique within a database. Database insertion
/// rejects an entity when another entity already has the same ID.
#[derive(Debug, Clone, Copy, PartialEq, Eq, Structural, PartialOrd, Ord, Hash)]
pub struct EntityID {
    pub index: usize,
}

/// Identifies a tag in the database tag registry.
#[derive(Debug, Clone, Copy, PartialEq, Eq, Structural, PartialOrd, Ord, Hash)]
pub struct TagID {
    pub index: usize,
}

/// Identifies a source in the database source registry.
#[derive(Debug, Clone, Copy, PartialEq, Eq, Structural, PartialOrd, Ord, Hash)]
pub struct SourceID {
    pub index: usize,
}

/// Identifies an attribute key in the attribute-key registry.
#[derive(Debug, Clone, Copy, PartialEq, Eq, Structural, PartialOrd, Ord, Hash)]
pub struct AttributeKeyID {
    pub index: usize,
}

/// Identifies a relationship type in the relationship-type registry.
#[derive(Debug, Clone, Copy, PartialEq, Eq, Structural, PartialOrd, Ord, Hash)]
pub struct RelationshipTypeID {
    pub index: usize,
}

impl EntityID {
    pub fn new(index: usize) -> (id: Self)
        ensures
            id.index == index,
    {
        EntityID { index }
    }

    pub fn index(self) -> (index: usize)
        ensures
            index == self.index,
    {
        self.index
    }
}

impl RegistryID for EntityID {
    open spec fn slot(self) -> nat {
        self.index as nat
    }

    fn new(index: usize) -> (id: Self) {
        EntityID { index }
    }

    fn index(self) -> (index: usize) {
        self.index
    }

    proof fn lemma_slot_injective(a: Self, b: Self) {
    }
}

impl TagID {
    pub fn new(index: usize) -> (id: Self)
        ensures
            id.index == index,
    {
        TagID { index }
    }

    pub fn index(self) -> (index: usize)
        ensures
            index == self.index,
    {
        self.index
    }
}

impl RegistryID for TagID {
    open spec fn slot(self) -> nat {
        self.index as nat
    }

    fn new(index: usize) -> (id: Self) {
        TagID { index }
    }

    fn index(self) -> (index: usize) {
        self.index
    }

    proof fn lemma_slot_injective(a: Self, b: Self) {
    }
}

impl SourceID {
    pub fn new(index: usize) -> (id: Self)
        ensures
            id.index == index,
    {
        SourceID { index }
    }

    pub fn index(self) -> (index: usize)
        ensures
            index == self.index,
    {
        self.index
    }
}

impl RegistryID for SourceID {
    open spec fn slot(self) -> nat {
        self.index as nat
    }

    fn new(index: usize) -> (id: Self) {
        SourceID { index }
    }

    fn index(self) -> (index: usize) {
        self.index
    }

    proof fn lemma_slot_injective(a: Self, b: Self) {
    }
}

impl AttributeKeyID {
    pub fn new(index: usize) -> (id: Self)
        ensures
            id.index == index,
    {
        AttributeKeyID { index }
    }

    pub fn index(self) -> (index: usize)
        ensures
            index == self.index,
    {
        self.index
    }
}

impl RegistryID for AttributeKeyID {
    open spec fn slot(self) -> nat {
        self.index as nat
    }

    fn new(index: usize) -> (id: Self) {
        AttributeKeyID { index }
    }

    fn index(self) -> (index: usize) {
        self.index
    }

    proof fn lemma_slot_injective(a: Self, b: Self) {
    }
}

impl RelationshipTypeID {
    pub fn new(index: usize) -> (id: Self)
        ensures
            id.index == index,
    {
        RelationshipTypeID { index }
    }

    pub fn index(self) -> (index: usize)
        ensures
            index == self.index,
    {
        self.index
    }
}

impl RegistryID for RelationshipTypeID {
    open spec fn slot(self) -> nat {
        self.index as nat
    }

    fn new(index: usize) -> (id: Self) {
        RelationshipTypeID { index }
    }

    fn index(self) -> (index: usize) {
        self.index
    }

    proof fn lemma_slot_injective(a: Self, b: Self) {
    }
}

} // verus!
