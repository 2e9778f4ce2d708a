//! Entity documents and the values they carry.
use vstd::prelude::*;

use crate::ids::{AttributeKeyID, EntityID, RelationshipTypeID, SourceID, TagID};
use crate::text::{decimal, decimal_string, string_from_chars};

verus! {

/// A four-byte entity type code, such as `FOOD`.
pub type EntityType = [u8; 4];

/// An attribute value.
#[derive(Debug, Clone)]
pub enum Value {
    String(String),
    Integer(i64),
}

/// An integer written in decimal, with a `-` in front where it is negative.
pub open spec fn integer_text(n: i64) -> Seq<char> {
    if n < 0 {
        seq!['-'] + decimal((-(n as int)) as nat)
    } else {
        decimal(n as nat)
    }
}

/// The text of a value: a string as it is, an integer in decimal.
pub open spec fn value_text(v: Value) -> Seq<char> {
    match v {
        Value::String(s) => s@,
        Value::Integer(n) => integer_text(n),
    }
}

impl Value {
    /// The text of this value: a string as it is, an integer in decimal.
    pub fn to_text(&self) -> (r: String)
        ensures
            r@ == value_text(*self),
    {
        match self {
            Value::String(s) => s.as_str().to_owned(),
            Value::Integer(n) => {
                let magnitude: u64 = if *n < 0 {
                    (-(*n as i128)) as u64
                } else {
                    *n as u64
                };
                let digits = decimal_string(magnitude);
                if *n < 0 {
                    let mut out: Vec<char> = Vec::new();
                    out.push('-');
                    let mut i: usize = 0;
                    while i < digits.len()
                        invariant
                            i <= digits@.len(),
                            out@ =~= seq!['-'] + digits@.take(i as int),
                        decreases digits.len() - i,
                    {
                        out.push(digits[i]);
                        i += 1;
                    }
                    assert(digits@.take(digits.len() as int) =~= digits@);
                    string_from_chars(out.as_slice())
                } else {
                    string_from_chars(digits.as_slice())
                }
            },
        }
    }
}

/// An attribute: a registered key and its value.
#[derive(Debug, Clone)]
pub struct Attribute {
    pub key: AttributeKeyID,
    pub value: Value,
}

/// The kind of a relationship between two entities.
#[derive(Debug, Clone, Copy, PartialEq, Eq, Structural)]
pub enum RelationshipType {
    MadeBy,
    IsA,
    LocatedIn,
    PartOf,
    SimilarTo,
    Custom(RelationshipTypeID),
}

/// A directed relationship to another entity.
#[derive(Debug, Clone, Copy, PartialEq, Eq, Structural)]
pub struct Relationship {
    pub kind: RelationshipType,
    pub target: EntityID,
}

/// An entity as stored in a database.
#[derive(Debug, Clone)]
pub struct EntityDocument {
    pub id: EntityID,
    pub aliases: Vec<String>,
    pub attributes: Vec<Attribute>,
    pub relationships: Vec<Relationship>,
    pub sources: Vec<SourceID>,
    pub tags: Vec<TagID>,
}

/// Where an entity's data came from, as supplied by a caller.
#[derive(Debug, Clone)]
pub struct SourceInput {
    pub provider: String,
    pub verified: bool,
    pub created: Option<u64>,
    pub updated: Option<u64>,
}

/// An attribute as supplied by a caller: key and value as text.
#[derive(Debug, Clone)]
pub struct AttributesInput {
    pub key: String,
    pub value: String,
}

/// A relationship as supplied by a caller: kind as text.
#[derive(Debug, Clone)]
pub struct RelationshipInput {
    pub kind: String,
    pub target: EntityID,
}

/// An entity as supplied by a caller, before its names are interned.
#[derive(Debug, Clone)]
pub struct EntityInput {
    pub id: EntityID,
    pub aliases: Vec<String>,
    pub tags: Vec<String>,
    pub sources: Vec<SourceInput>,
    pub attributes: Vec<AttributesInput>,
    pub relationships: Vec<RelationshipInput>,
}

} // verus!
