//! The root of all keys of a namespace: `/*{ns}`.
use vstd::prelude::*;

use crate::catalog::namespace::NamespaceId;
use crate::key::encoding::{be_u32, encode_root, KeyError, SLASH, STAR};

verus! {

/// The bytes before everything in a namespace.
pub open spec fn root_bytes(ns: NamespaceId) -> Seq<u8> {
    seq![SLASH, STAR] + be_u32(ns.0)
}

/// The root of all keys of a namespace.
#[derive(Clone, Copy, Debug, PartialEq, Eq, Structural)]
pub struct NamespaceRoot {
    __: u8,
    _a: u8,
    pub ns: NamespaceId,
}

/// The root of the keys of `ns`.
pub fn new(ns: NamespaceId) -> (r: NamespaceRoot)
    ensures
        r.wf(),
        r.namespace() == ns,
{
    NamespaceRoot { __: SLASH, _a: STAR, ns }
}

impl NamespaceRoot {
    /// The namespace.
    pub closed spec fn namespace(&self) -> NamespaceId {
        self.ns
    }

    /// The fixed bytes are those of a namespace root.
    pub closed spec fn wf(&self) -> bool {
        self.__ == SLASH && self._a == STAR
    }

    /// The root as bytes.
    pub fn encode_key(&self) -> (r: Result<Vec<u8>, KeyError>)
        requires
            self.wf(),
        ensures
            r matches Ok(k) && k@ == root_bytes(self.namespace()),
    {
        match encode_root((self.__, self._a), self.ns.0) {
            Some(k) => Ok(k),
            None => Err(KeyError),
        }
    }
}

/// A root is of the namespace that it holds.
proof fn law_root_holds_its_namespace(root: NamespaceRoot)
    ensures
        root.namespace() == root.ns,
        root.wf() ==> root.__ == '/' as u8 && root._a == '*' as u8,
{
}

} // verus!
