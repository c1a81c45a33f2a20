//! Copy-on-write branch metadata, keyed by namespace and database: `/*{ns}!bm{db}`.
//!
//! The keys of all branches in a namespace stand next to each other, so they can be scanned in
//! one pass, for example to find the branches of a database before it is removed.
use vstd::prelude::*;

use crate::catalog::database::DatabaseId;
use crate::catalog::namespace::NamespaceId;
use crate::key::category::Category;
use crate::key::encoding::{
    be_u32, encode_fields, KeyError, BANG, LETTER_B, LETTER_M, LETTER_N, SLASH, STAR,
};
use crate::key::namespace::all::root_bytes;

verus! {

/// The bytes before the database in every branch-metadata key of `ns`.
pub open spec fn prefix_bytes(ns: NamespaceId) -> Seq<u8> {
    root_bytes(ns) + seq![BANG, LETTER_B, LETTER_M]
}

/// The bytes behind every branch-metadata key of `ns`.
pub open spec fn suffix_bytes(ns: NamespaceId) -> Seq<u8> {
    root_bytes(ns) + seq![BANG, LETTER_B, LETTER_N]
}

/// The branch-metadata key of a database.
pub open spec fn key_bytes(ns: NamespaceId, db: DatabaseId) -> Seq<u8> {
    prefix_bytes(ns) + be_u32(db.0)
}

/// The key of the metadata of a branch.
#[derive(Clone, Debug, PartialEq, Eq, PartialOrd)]
pub struct BranchMetadataKey {
    __: u8,
    _a: u8,
    pub ns: NamespaceId,
    _b: u8,
    _c: u8,
    _d: u8,
    pub db: DatabaseId,
}

/// The key of the metadata of the branch `db`.
pub fn new(ns: NamespaceId, db: DatabaseId) -> (r: BranchMetadataKey)
    ensures
        r.wf(),
        r.namespace() == ns,
        r.database() == db,
{
    BranchMetadataKey::new(ns, db)
}

/// Inclusive-start byte bound covering every branch-metadata key in `ns`.
pub fn prefix(ns: NamespaceId) -> (r: Result<Vec<u8>, KeyError>)
    ensures
        r matches Ok(k) && k@ == prefix_bytes(ns),
{
    let mut k = crate::key::namespace::all::new(ns).encode_key()?;
    k.push(BANG);
    k.push(LETTER_B);
    k.push(LETTER_M);
    assert(k@ =~= prefix_bytes(ns));
    Ok(k)
}

/// Exclusive-end byte bound: `!bn` is the marker immediately after `!bm`, so `[prefix, suffix)`
/// spans all branch-metadata keys regardless of the database.
pub fn suffix(ns: NamespaceId) -> (r: Result<Vec<u8>, KeyError>)
    ensures
        r matches Ok(k) && k@ == suffix_bytes(ns),
{
    let mut k = crate::key::namespace::all::new(ns).encode_key()?;
    k.push(BANG);
    k.push(LETTER_B);
    k.push(LETTER_N);
    assert(k@ =~= suffix_bytes(ns));
    Ok(k)
}

impl BranchMetadataKey {
    /// The namespace.
    pub closed spec fn namespace(&self) -> NamespaceId {
        self.ns
    }

    /// The database.
    pub closed spec fn database(&self) -> DatabaseId {
        self.db
    }

    /// The fixed bytes are those of a branch-metadata key.
    pub closed spec fn wf(&self) -> bool {
        &&& self.__ == SLASH
        &&& self._a == STAR
        &&& self._b == BANG
        &&& self._c == LETTER_B
        &&& self._d == LETTER_M
    }

    /// The key of the metadata of the branch `db`.
    pub fn new(ns: NamespaceId, db: DatabaseId) -> (r: Self)
        ensures
            r.wf(),
            r.namespace() == ns,
            r.database() == db,
    {
        BranchMetadataKey { __: SLASH, _a: STAR, ns, _b: BANG, _c: LETTER_B, _d: LETTER_M, db }
    }

    /// The key as bytes.
    pub fn encode_key(&self) -> (r: Result<Vec<u8>, KeyError>)
        requires
            self.wf(),
        ensures
            r matches Ok(k) && k@ == key_bytes(self.namespace(), self.database()),
    {
        match encode_fields(
            (self.__, self._a),
            self.ns.0,
            (self._b, self._c, self._d),
            self.db.0,
        ) {
            Some(k) => {
                assert(k@ =~= key_bytes(self.ns, self.db));
                Ok(k)
            },
            None => Err(KeyError),
        }
    }

    /// What the key is for.
    pub fn categorise(&self) -> (r: Category)
        ensures
            r == Category::DatabaseBranchMetadata,
    {
        Category::DatabaseBranchMetadata
    }
}

/// A key is of the namespace and of the database that it holds.
proof fn law_key_holds_its_parts(key: BranchMetadataKey)
    ensures
        key.namespace() == key.ns,
        key.database() == key.db,
        key.wf() ==> key.__ == '/' as u8 && key._a == '*' as u8,
        key.wf() ==> key._b == '!' as u8 && key._c == 'b' as u8 && key._d == 'm' as u8,
{
}

} // verus!
