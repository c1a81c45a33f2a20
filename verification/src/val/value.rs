//! The values that the catalog and the statements build.
use vstd::prelude::*;

use crate::collections::entries::lookup;
use crate::collections::vec_map::VecMap;
use crate::val::display::DisplayOrder;
use crate::val::object::{Object, ObjectMap};

verus! {

/// The identity of a record: its table, and its key in that table.
#[derive(Debug, PartialEq, Eq, PartialOrd, Ord, Hash)]
pub struct RecordId {
    pub table: String,
    pub key: String,
}

impl Clone for RecordId {
    fn clone(&self) -> (r: Self)
        ensures
            r == *self,
    {
        RecordId { table: self.table.clone(), key: self.key.clone() }
    }
}

/// A value.
#[derive(Debug, PartialEq, Eq, PartialOrd, Ord, Hash)]
pub enum Value {
    /// No value.
    Nil,
    Number(i64),
    Strand(String),
    RecordId(RecordId),
}

impl Clone for Value {
    fn clone(&self) -> (r: Self)
        ensures
            r == *self,
    {
        match self {
            Value::Nil => Value::Nil,
            Value::Number(n) => Value::Number(*n),
            Value::Strand(s) => Value::Strand(s.clone()),
            Value::RecordId(id) => Value::RecordId(id.clone()),
        }
    }
}

impl vstd::std_specs::convert::FromSpecImpl<i64> for Value {
    open spec fn obeys_from_spec() -> bool {
        true
    }

    open spec fn from_spec(v: i64) -> Self {
        Value::Number(v)
    }
}

impl From<i64> for Value {
    fn from(v: i64) -> (r: Self) {
        Value::Number(v)
    }
}

impl vstd::std_specs::convert::FromSpecImpl<String> for Value {
    open spec fn obeys_from_spec() -> bool {
        true
    }

    open spec fn from_spec(v: String) -> Self {
        Value::Strand(v)
    }
}

impl From<String> for Value {
    fn from(v: String) -> (r: Self) {
        Value::Strand(v)
    }
}

impl vstd::std_specs::convert::FromSpecImpl<VecMap<String>> for Object<Value> {
    open spec fn obeys_from_spec() -> bool {
        // The result is fixed by what it holds, which the function's own contract states.
        false
    }

    open spec fn from_spec(v: VecMap<String>) -> Self {
        arbitrary()
    }
}

impl From<VecMap<String>> for Object<Value> {
    /// An object of strings.
    fn from(v: VecMap<String>) -> (r: Self)
        ensures
            v.wf() ==> r.wf(),
            r.plain(),
            r@ == v@.map_values(|e: (Seq<char>, String)| (e.0, Value::Strand(e.1))),
    {
        let r = Object(ObjectMap(v.convert()), DisplayOrder::none());
        assert(r@ == r.0.0@);
        assert(r@ =~= v@.map_values(|e: (Seq<char>, String)| (e.0, Value::Strand(e.1))));
        r
    }
}

impl Object<Value> {
    /// The record id under the key `id`, if there is one.
    pub fn rid(&self) -> (r: Option<RecordId>)
        requires
            self.wf(),
        ensures
            r == (match lookup(self@, "id"@) {
                Some(Value::RecordId(v)) => Some(v),
                _ => None,
            }),
    {
        match self.get("id") {
            Some(Value::RecordId(v)) => Some(v.clone()),
            _ => None,
        }
    }
}

} // verus!
