//! Laws of the branch-metadata keys.
use vstd::prelude::*;

use crate::bytes::{lemma_lex_common_prefix, lemma_lex_total, lex_le, lex_lt};
use crate::catalog::database::DatabaseId;
use crate::catalog::namespace::NamespaceId;
use crate::key::category::Category;
use crate::key::encoding::{
    be_u32, law_encoding_keeps_order, KeyError, BANG, LETTER_B, LETTER_M, LETTER_N,
};
use crate::key::namespace::all::root_bytes;
use crate::key::namespace::bm::{
    key_bytes, prefix, prefix_bytes, suffix, suffix_bytes, BranchMetadataKey,
};

verus! {

/// `k` lies in the range from the prefix to the suffix of `ns`.
pub open spec fn in_range(ns: NamespaceId, k: Seq<u8>) -> bool {
    lex_le(prefix_bytes(ns), k) && lex_lt(k, suffix_bytes(ns))
}

/// The range of a namespace holds exactly the byte strings that start with its prefix.
pub proof fn law_range_is_prefix(ns: NamespaceId, k: Seq<u8>)
    ensures
        in_range(ns, k) <==> prefix_bytes(ns).is_prefix_of(k),
{
    let p = prefix_bytes(ns);
    let root = root_bytes(ns) + seq![BANG, LETTER_B];
    assert(p =~= root + seq![LETTER_M]);
    assert(suffix_bytes(ns) =~= root + seq![LETTER_N]);
    lemma_between_markers(root, LETTER_M, k);
}

/// Between `root` with the marker `m` behind it and `root` with the next one lies exactly what
/// starts with the first of them.
proof fn lemma_between_markers(root: Seq<u8>, m: u8, k: Seq<u8>)
    requires
        m < 255,
    ensures
        lex_le(root + seq![m], k) && lex_lt(k, root + seq![(m + 1) as u8]) <==> (root
            + seq![m]).is_prefix_of(k),
    decreases root.len(),
{
    let n = (m + 1) as u8;
    let lo = root + seq![m];
    let hi = root + seq![n];
    if root.len() == 0 {
        assert(lo =~= seq![m]);
        assert(hi =~= seq![n]);
        reveal_with_fuel(lex_lt, 3);
        if k.len() > 0 {
            assert(lo.drop_first() =~= Seq::empty());
            assert(hi.drop_first() =~= Seq::empty());
            if k[0] == m {
                assert(lo =~= k.subrange(0, 1));
                if k.len() == 1 {
                    assert(k =~= lo);
                }
            } else {
                assert(lo[0] != k.subrange(0, 1)[0]);
            }
        }
    } else if k.len() > 0 && k[0] == root[0] {
        let root1 = root.drop_first();
        let k1 = k.drop_first();
        assert(lo.drop_first() =~= root1 + seq![m]);
        assert(hi.drop_first() =~= root1 + seq![n]);
        lemma_between_markers(root1, m, k1);
        if lo == k {
            assert(lo.drop_first() == k1);
        }
        if root1 + seq![m] == k1 {
            assert(lo =~= seq![root[0]] + (root1 + seq![m]));
            assert(k =~= seq![k[0]] + k1);
        }
        if lo.is_prefix_of(k) {
            assert(lo =~= k.subrange(0, lo.len() as int));
            assert(root1 + seq![m] =~= k1.subrange(0, (root1 + seq![m]).len() as int));
        }
        if (root1 + seq![m]).is_prefix_of(k1) {
            let t = root1 + seq![m];
            assert(t =~= k1.subrange(0, t.len() as int));
            assert forall|i: int| 0 <= i < lo.len() implies lo[i] == k[i] by {
                if i > 0 {
                    assert(lo[i] == t[i - 1]);
                    assert(k1.subrange(0, t.len() as int)[i - 1] == k[i]);
                }
            }
            assert(lo =~= k.subrange(0, lo.len() as int));
        }
    } else {
        if lo.is_prefix_of(k) {
            assert(lo[0] == k.subrange(0, lo.len() as int)[0]);
        }
    }
}

/// The key of every branch of a namespace lies in the range of that namespace, and no key of a
/// branch of another namespace does.
pub proof fn law_range_spans_namespace(ns: NamespaceId, of: NamespaceId, db: DatabaseId)
    ensures
        in_range(ns, key_bytes(of, db)) <==> of == ns,
{
    let k = key_bytes(of, db);
    let p = prefix_bytes(ns);
    law_range_is_prefix(ns, k);
    assert(k.subrange(0, p.len() as int) =~= prefix_bytes(of));
    if of != ns {
        law_encoding_keeps_order(of.0, ns.0);
        if prefix_bytes(of) == p {
            assert(prefix_bytes(of).subrange(2, 6) =~= be_u32(of.0));
            assert(p.subrange(2, 6) =~= be_u32(ns.0));
        }
    }
}

/// In a namespace, keys are ordered as the databases they are of, and so tell them apart.
pub proof fn law_keys_order_as_databases(ns: NamespaceId, a: DatabaseId, b: DatabaseId)
    ensures
        lex_lt(key_bytes(ns, a), key_bytes(ns, b)) <==> a.0 < b.0,
        key_bytes(ns, a) == key_bytes(ns, b) <==> a == b,
{
    lemma_lex_common_prefix(prefix_bytes(ns), be_u32(a.0), be_u32(b.0));
    law_encoding_keeps_order(a.0, b.0);
    if key_bytes(ns, a) == key_bytes(ns, b) {
        lemma_lex_total(key_bytes(ns, a), key_bytes(ns, b));
        lemma_lex_total(be_u32(a.0), be_u32(b.0));
        lemma_lex_common_prefix(prefix_bytes(ns), be_u32(b.0), be_u32(a.0));
    }
}

/// The layout of keys: `/`, `*`, the namespace, `!`, `b`, `m` and the database. The range of a
/// namespace starts with what stands before the database, and ends where `m` gives way to `n`.
pub proof fn law_key_layout(ns: NamespaceId, db: DatabaseId)
    ensures
        key_bytes(ns, db).len() == 13,
        key_bytes(ns, db)[0] == '/' as u8,
        key_bytes(ns, db)[1] == '*' as u8,
        key_bytes(ns, db).subrange(2, 6) == be_u32(ns.0),
        key_bytes(ns, db)[6] == '!' as u8,
        key_bytes(ns, db)[7] == 'b' as u8,
        key_bytes(ns, db)[8] == 'm' as u8,
        key_bytes(ns, db).subrange(9, 13) == be_u32(db.0),
        root_bytes(ns) == key_bytes(ns, db).take(6),
        prefix_bytes(ns) == key_bytes(ns, db).take(9),
        suffix_bytes(ns) == prefix_bytes(ns).update(8, 'n' as u8),
{
    let k = key_bytes(ns, db);
    assert(k.subrange(2, 6) =~= be_u32(ns.0));
    assert(k.subrange(9, 13) =~= be_u32(db.0));
    assert(root_bytes(ns) =~= k.take(6));
    assert(prefix_bytes(ns) =~= k.take(9));
    assert(suffix_bytes(ns) =~= prefix_bytes(ns).update(8, 'n' as u8));
}

/// The bounds of a namespace take in exactly the keys of its branches, as bytes.
pub proof fn law_bounds_take_in_keys(
    ns: NamespaceId,
    of: NamespaceId,
    db: DatabaseId,
    first: Result<Vec<u8>, KeyError>,
    last: Result<Vec<u8>, KeyError>,
    key: BranchMetadataKey,
    encoded: Result<Vec<u8>, KeyError>,
    category: Category,
)
    requires
        call_ensures(prefix, (ns,), first),
        call_ensures(suffix, (ns,), last),
        call_ensures(BranchMetadataKey::new, (of, db), key),
        call_ensures(BranchMetadataKey::encode_key, (&key,), encoded),
        call_ensures(BranchMetadataKey::categorise, (&key,), category),
    ensures
        first is Ok,
        last is Ok,
        encoded is Ok,
        lex_le(first->Ok_0@, encoded->Ok_0@) && lex_lt(encoded->Ok_0@, last->Ok_0@) <==> of == ns,
        encoded->Ok_0@.len() == 13,
        encoded->Ok_0@[0] == '/' as u8,
        encoded->Ok_0@[1] == '*' as u8,
        encoded->Ok_0@.subrange(2, 6) == be_u32(of.0),
        encoded->Ok_0@[6] == '!' as u8,
        encoded->Ok_0@[7] == 'b' as u8,
        encoded->Ok_0@[8] == 'm' as u8,
        encoded->Ok_0@.subrange(9, 13) == be_u32(db.0),
        category == Category::DatabaseBranchMetadata,
{
    law_range_spans_namespace(ns, of, db);
    law_key_layout(of, db);
}

} // verus!
