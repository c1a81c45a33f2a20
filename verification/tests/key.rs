//! Branch-metadata keys.
use surreal_branch::catalog::database::DatabaseId;
use surreal_branch::catalog::namespace::NamespaceId;
use surreal_branch::key::category::Category;
use surreal_branch::key::namespace::bm::{new, prefix, suffix, BranchMetadataKey};

#[test]
fn key() {
    let val = BranchMetadataKey::new(NamespaceId(1), DatabaseId(2));
    let enc = BranchMetadataKey::encode_key(&val).unwrap();
    assert_eq!(enc, b"/*\x00\x00\x00\x01!bm\x00\x00\x00\x02");
}

#[test]
fn prefix_suffix_span_db_ids() {
    let p = prefix(NamespaceId(1)).unwrap();
    let s = suffix(NamespaceId(1)).unwrap();
    assert_eq!(p, b"/*\x00\x00\x00\x01!bm");
    assert_eq!(s, b"/*\x00\x00\x00\x01!bn");
    // Concrete keys (incl. db id 0 and a large id) sort within [prefix, suffix).
    for id in [0u32, 2, u32::MAX] {
        let k = BranchMetadataKey::new(NamespaceId(1), DatabaseId(id)).encode_key().unwrap();
        assert!(p[..] <= k[..] && k[..] < s[..], "db id {id} out of [prefix, suffix)");
    }
}

#[test]
fn range_leaves_other_namespaces_out() {
    let p = prefix(NamespaceId(2)).unwrap();
    let s = suffix(NamespaceId(2)).unwrap();
    for ns in [0u32, 1, 3, 0x0200_0000, u32::MAX] {
        let k = new(NamespaceId(ns), DatabaseId(7)).encode_key().unwrap();
        assert!(!(p[..] <= k[..] && k[..] < s[..]), "ns {ns} in the range of another");
    }
    // A string that starts with the prefix is in, whatever follows.
    let mut longer = p.clone();
    longer.extend_from_slice(&[0xff; 9]);
    assert!(p[..] <= longer[..] && longer[..] < s[..]);
}

#[test]
fn keys_sort_as_databases() {
    let ids = [0u32, 1, 255, 256, 65_535, 65_536, 0x0100_0000, u32::MAX];
    let keys: Vec<Vec<u8>> = ids
        .iter()
        .map(|id| new(NamespaceId(9), DatabaseId(*id)).encode_key().unwrap())
        .collect();
    for pair in keys.windows(2) {
        assert!(pair[0] < pair[1]);
    }
}

#[test]
fn new_takes_both_ids() {
    let k = new(NamespaceId(3), DatabaseId(4));
    assert_eq!(k.ns, NamespaceId(3));
    assert_eq!(k.db, DatabaseId(4));
    assert_eq!(k, BranchMetadataKey::new(NamespaceId(3), DatabaseId(4)));
    assert_eq!(k.categorise(), Category::DatabaseBranchMetadata);
}
