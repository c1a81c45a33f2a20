//! Namespaces in the catalog.
use vstd::prelude::*;

verus! {

/// The identifier of a namespace.
#[derive(Clone, Copy, Debug, PartialEq, Eq, PartialOrd, Ord, Hash, Structural)]
pub struct NamespaceId(pub u32);

} // verus!
