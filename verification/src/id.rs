//! Stable identity: an entity is named by its hierarchical path, a net by its own name.

use crate::names::Duplicate;
use crate::numbered::Numbered;
use crate::text;
use crate::text::{str_eq, str_lt};
use vstd::prelude::*;

verus! {

/// The identity of an entity: its hierarchical path.
#[derive(Clone, Debug, PartialEq, Eq, PartialOrd, Ord, Hash)]
pub struct EntityId(pub String);

impl View for EntityId {
    type V = Seq<char>;

    open spec fn view(&self) -> Seq<char> {
        self.0@
    }
}

impl Duplicate for EntityId {
    fn duplicate(&self) -> (r: EntityId) {
        EntityId(self.0.clone())
    }
}

impl EntityId {
    /// The entity named `s`.
    pub fn new(s: &str) -> (r: EntityId)
        ensures
            r@ == s@,
    {
        EntityId(s.to_owned())
    }

    /// The path itself.
    pub fn as_str(&self) -> (r: &str)
        ensures
            r@ == self@,
    {
        self.0.as_str()
    }

    /// The path as an owned string.
    pub fn to_string(&self) -> (r: String)
        ensures
            r@ == self@,
    {
        self.0.clone()
    }

    /// Do two identities name the same entity?
    pub fn same(&self, o: &EntityId) -> (r: bool)
        ensures
            r == (self@ == o@),
    {
        str_eq(self.0.as_str(), o.0.as_str())
    }
}

/// The identity of a net, in a name space of its own.
#[derive(Clone, Debug, PartialEq, Eq, PartialOrd, Ord, Hash)]
pub struct NetId(pub String);

impl View for NetId {
    type V = Seq<char>;

    open spec fn view(&self) -> Seq<char> {
        self.0@
    }
}

impl Duplicate for NetId {
    fn duplicate(&self) -> (r: NetId) {
        NetId(self.0.clone())
    }
}

impl NetId {
    /// The net named `s`.
    pub fn new(s: &str) -> (r: NetId)
        ensures
            r@ == s@,
    {
        NetId(s.to_owned())
    }

    /// The name itself.
    pub fn as_str(&self) -> (r: &str)
        ensures
            r@ == self@,
    {
        self.0.as_str()
    }

    /// The name as an owned string.
    pub fn to_string(&self) -> (r: String)
        ensures
            r@ == self@,
    {
        self.0.clone()
    }

    /// Do two identities name the same net?
    pub fn same(&self, o: &NetId) -> (r: bool)
        ensures
            r == (self@ == o@),
    {
        str_eq(self.0.as_str(), o.0.as_str())
    }

    /// Does this net come before `o` in name order?
    pub fn before(&self, o: &NetId) -> (r: bool)
        ensures
            r == text::lex_lt(self@, o@),
    {
        str_lt(self.0.as_str(), o.0.as_str())
    }
}

/// The identity of a routed trace.
#[derive(Clone, Copy, Debug, PartialEq, Eq, PartialOrd, Ord, Hash, Structural)]
pub struct TraceId(pub u64);

impl Numbered for TraceId {
    open spec fn number(self) -> u64 {
        self.0
    }

    fn get_number(self) -> (r: u64) {
        self.0
    }
}

/// The identity of a via.
#[derive(Clone, Copy, Debug, PartialEq, Eq, PartialOrd, Ord, Hash, Structural)]
pub struct ViaId(pub u64);

impl Numbered for ViaId {
    open spec fn number(self) -> u64 {
        self.0
    }

    fn get_number(self) -> (r: u64) {
        self.0
    }
}

} // verus!
