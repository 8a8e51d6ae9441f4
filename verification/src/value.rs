//! Values of the protocol and what is known about them.

use std::collections::BTreeMap;
use uuid::Uuid;
use vstd::prelude::*;

verus! {

/// `uuid::Uuid`, a universally unique identifier of 128 bits. The library
/// carries such values and never looks inside.
#[verifier::external_type_specification]
#[verifier::external_body]
pub struct ExUuid(uuid::Uuid);

/// A simple value, as a field of a structure yields it.
#[derive(Debug, Clone, Copy, PartialEq)]
pub enum Val<'a> {
    /// A boolean value.
    Bool(bool),
    /// A signed integer value.
    I64(i64),
    /// An unsigned integer value.
    U64(u64),
    /// A string value.
    String(&'a str),
    /// A UUID.
    Uuid(Uuid),
}

impl From<u64> for Val<'_> {
    fn from(value: u64) -> (val: Self) {
        Val::U64(value)
    }
}

impl vstd::std_specs::convert::FromSpecImpl<u64> for Val<'_> {
    open spec fn obeys_from_spec() -> bool {
        true
    }

    open spec fn from_spec(value: u64) -> Self {
        Val::U64(value)
    }
}

impl<'a> From<&'a str> for Val<'a> {
    fn from(value: &'a str) -> (val: Self) {
        Val::String(value)
    }
}

impl<'a> vstd::std_specs::convert::FromSpecImpl<&'a str> for Val<'a> {
    open spec fn obeys_from_spec() -> bool {
        true
    }

    open spec fn from_spec(value: &'a str) -> Self {
        Val::String(value)
    }
}

/// Meta information for a data field in the event payload.
#[derive(Clone, Copy, Debug, Default, PartialEq, Eq)]
pub struct Meta {
    /// The length the field had before it was trimmed, if it was.
    pub original_length: Option<u32>,
}

/// Wrapper for data fields with optional meta data.
#[derive(Debug, PartialEq)]
pub struct Annotated<T>(pub Option<T>, pub Meta);

/// Represents a boxed value.
#[derive(Debug, PartialEq)]
pub enum Value {
    /// A boolean value.
    Bool(bool),
    /// A signed integer value.
    I64(i64),
    /// An unsigned integer value.
    U64(u64),
    /// A string value.
    String(String),
    /// An array of annotated values.
    Array(Vec<Annotated<Value>>),
    /// A mapping of strings to annotated values.
    Object(BTreeMap<String, Annotated<Value>>),
}

/// Meta for children.
pub type MetaMap = BTreeMap<String, MetaTree>;

/// Represents a tree of meta objects.
#[derive(Debug, PartialEq)]
pub struct MetaTree {
    /// The node's meta data.
    pub meta: Meta,
    /// References to the children.
    pub children: MetaMap,
}

} // verus!
