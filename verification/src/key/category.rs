//! What keys are for.
use vstd::prelude::*;

verus! {

/// What a key is for.
#[derive(Clone, Copy, Debug, PartialEq, Eq, Hash, Structural)]
pub enum Category {
    /// The metadata of a branch: `/*{ns}!bm{db}`.
    DatabaseBranchMetadata,
}

} // verus!
