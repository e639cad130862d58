//! The elements an OSM map is made of: nodes, ways, relations and their
//! shared metadata.

use crate::geo::Coordinate;
use vstd::prelude::*;

verus! {

/// A coordinate with metadata.
#[derive(Debug, Eq, PartialEq, Clone)]
pub struct Node {
    pub id: i64,
    pub coordinate: Coordinate,
    pub meta: Meta,
}

/// An ordered group of node references with metadata.
#[derive(Debug, Eq, PartialEq, Clone)]
pub struct Way {
    pub id: i64,
    pub refs: Vec<i64>,
    pub meta: Meta,
}

/// A group of members (nodes, ways or relations) with metadata.
#[derive(Debug, Eq, PartialEq, Clone)]
pub struct Relation {
    pub id: i64,
    pub members: Vec<RelationMember>,
    pub meta: Meta,
}

/// A key/value pair attached to an element. Tags form a sequence, not a set:
/// duplicates are preserved as written.
#[derive(Debug, Eq, PartialEq, Clone)]
pub struct Tag {
    pub key: String,
    pub value: String,
}

/// Metadata shared by every element: its tags, an optional version and, when
/// the producer supplied a timestamp, the author information.
#[derive(Debug, Eq, PartialEq, Clone)]
pub struct Meta {
    pub tags: Vec<Tag>,
    pub version: Option<u32>,
    pub author: Option<AuthorInformation>,
}

/// Who changed an element and when. `created` is Unix seconds.
#[derive(Debug, Eq, PartialEq, Clone)]
pub struct AuthorInformation {
    pub created: i64,
    pub change_set: u64,
    pub uid: u64,
    pub user: String,
}

/// A member of a relation: the referenced element's id and the member's role.
#[derive(Debug, Eq, PartialEq, Clone)]
pub enum RelationMember {
    Node(i64, String),
    Way(i64, String),
    Relation(i64, String),
}

impl Tag {
    /// Build a tag from a key and a value.
    pub fn new(key: &str, value: &str) -> (t: Tag)
        ensures
            t.key@ == key@,
            t.value@ == value@,
    {
        Tag { key: key.to_owned(), value: value.to_owned() }
    }
}

impl RelationMember {
    /// The id this member refers to.
    pub open spec fn spec_ref_id(&self) -> i64 {
        match self {
            RelationMember::Node(id, _) => *id,
            RelationMember::Way(id, _) => *id,
            RelationMember::Relation(id, _) => *id,
        }
    }

    /// The member's role.
    pub open spec fn spec_role(&self) -> Seq<char> {
        match self {
            RelationMember::Node(_, role) => role@,
            RelationMember::Way(_, role) => role@,
            RelationMember::Relation(_, role) => role@,
        }
    }

    pub fn ref_id(&self) -> (id: i64)
        ensures
            id == self.spec_ref_id(),
    {
        match self {
            RelationMember::Node(id, _) => *id,
            RelationMember::Way(id, _) => *id,
            RelationMember::Relation(id, _) => *id,
        }
    }

    pub fn role(&self) -> (role: &str)
        ensures
            role@ == self.spec_role(),
    {
        match self {
            RelationMember::Node(_, role) => role.as_str(),
            RelationMember::Way(_, role) => role.as_str(),
            RelationMember::Relation(_, role) => role.as_str(),
        }
    }
}

impl Default for Node {
    fn default() -> (n: Self)
        ensures
            n.id == 0,
            n.coordinate.lat == 0 && n.coordinate.lon == 0,
            n.meta.tags@.len() == 0 && n.meta.version is None && n.meta.author is None,
    {
        Node { id: 0, coordinate: Coordinate { lat: 0, lon: 0 }, meta: Meta::default() }
    }
}

impl Default for Way {
    fn default() -> (w: Self)
        ensures
            w.id == 0,
            w.refs@.len() == 0,
            w.meta.tags@.len() == 0 && w.meta.version is None && w.meta.author is None,
    {
        Way { id: 0, refs: Vec::new(), meta: Meta::default() }
    }
}

impl Default for Relation {
    fn default() -> (r: Self)
        ensures
            r.id == 0,
            r.members@.len() == 0,
            r.meta.tags@.len() == 0 && r.meta.version is None && r.meta.author is None,
    {
        Relation { id: 0, members: Vec::new(), meta: Meta::default() }
    }
}

impl Default for Meta {
    fn default() -> (m: Self)
        ensures
            m.tags@.len() == 0,
            m.version is None,
            m.author is None,
    {
        Meta { tags: Vec::new(), version: None, author: None }
    }
}

} // verus!
