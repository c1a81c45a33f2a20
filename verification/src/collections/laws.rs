//! Laws of maps with string keys: what they hold, and how they compare.
use core::cmp::Ordering;
use vstd::prelude::*;
use vstd::std_specs::cmp::{OrdSpec, PartialEqSpec, PartialOrdSpec};
use vstd::utf8::encode_utf8;

use crate::bytes::law_first_difference_decides;
use crate::collections::compare::{entries_eq, entries_order, entries_partial_order, entry_eq};
use crate::collections::entries::{
    converts, entries_cloned, entries_of, entries_of_refs, has_key, key_lt, key_position,
    last_value, lemma_key_order, lemma_key_order_transitive, lemma_lookup_cases,
    lemma_position_unique, lookup, sorted_by_key,
};

verus! {

/// Keys are ordered by the first bytes in which their UTF-8 encodings differ; a key comes before
/// its extensions.
pub proof fn law_keys_order_by_bytes(a: Seq<char>, b: Seq<char>, i: int)
    requires
        0 <= i <= encode_utf8(a).len(),
        i <= encode_utf8(b).len(),
        forall|j: int| 0 <= j < i ==> encode_utf8(a)[j] == encode_utf8(b)[j],
    ensures
        i < encode_utf8(a).len() && i < encode_utf8(b).len() ==> {
            &&& encode_utf8(a)[i] < encode_utf8(b)[i] ==> key_lt(a, b)
            &&& encode_utf8(a)[i] > encode_utf8(b)[i] ==> key_lt(b, a)
        },
        i == encode_utf8(a).len() && i < encode_utf8(b).len() ==> key_lt(a, b),
        i == encode_utf8(a).len() && i == encode_utf8(b).len() ==> a == b,
        !(key_lt(a, b) && key_lt(b, a)),
{
    law_first_difference_decides(encode_utf8(a), encode_utf8(b), i);
    law_first_difference_decides(encode_utf8(b), encode_utf8(a), i);
    lemma_key_order(a, b);
}

/// The entries of a vector are its pairs, one by one.
pub proof fn law_entries_are_the_pairs<V>(s: Seq<(String, V)>, refs: Seq<(&String, &V)>)
    ensures
        entries_of(s).len() == s.len(),
        forall|i: int|
            0 <= i < s.len() ==> (#[trigger] entries_of(s)[i]).0 == s[i].0@ && entries_of(s)[i].1
                == s[i].1,
        entries_of_refs(refs).len() == refs.len(),
        forall|i: int|
            0 <= i < refs.len() ==> (#[trigger] entries_of_refs(refs)[i]).0 == refs[i].0@
                && entries_of_refs(refs)[i].1 == *refs[i].1,
{
}

/// A key is mapped to a value exactly where there is an entry of the two.
pub proof fn law_lookup_finds_entries<V>(s: Seq<(Seq<char>, V)>, k: Seq<char>, v: V)
    requires
        sorted_by_key(s),
    ensures
        lookup(s, k) == Some(v) <==> s.contains((k, v)),
        lookup(s, k) is None <==> forall|w: V| !#[trigger] s.contains((k, w)),
        has_key(s, k) <==> lookup(s, k) is Some,
{
    lemma_lookup_cases(s, k);
    if s.contains((k, v)) {
        let i = choose|i: int| 0 <= i < s.len() && s[i] == (k, v);
        assert(s[i].0 == k);
        lemma_position_unique(s, i);
    }
    if has_key(s, k) {
        let i = key_position(s, k);
        assert(s[i].0 == k);
        assert(s[i] == (k, s[i].1));
        assert(s.contains((k, s[i].1)));
    }
    assert forall|w: V| lookup(s, k) is None implies !#[trigger] s.contains((k, w)) by {
        if s.contains((k, w)) {
            let i = choose|i: int| 0 <= i < s.len() && s[i] == (k, w);
            assert(s[i].0 == k);
        }
    }
}

/// Of several entries for one key, the last one gives the value.
pub proof fn law_last_entry_stands<V>(s: Seq<(Seq<char>, V)>, k: Seq<char>, i: int)
    requires
        0 <= i < s.len(),
        s[i].0 == k,
        forall|j: int| i < j < s.len() ==> (#[trigger] s[j]).0 != k,
    ensures
        last_value(s, k) == Some(s[i].1),
    decreases s.len(),
{
    if i < s.len() - 1 {
        assert(s[s.len() - 1].0 != k);
        assert forall|j: int| i < j < s.drop_last().len() implies (#[trigger] s.drop_last()[j]).0
            != k by {
            assert(s[j].0 != k);
        }
        law_last_entry_stands(s.drop_last(), k, i);
    }
}

/// A key without an entry has no value.
pub proof fn law_no_entry_no_value<V>(s: Seq<(Seq<char>, V)>, k: Seq<char>)
    requires
        forall|j: int| 0 <= j < s.len() ==> (#[trigger] s[j]).0 != k,
    ensures
        last_value(s, k) is None,
    decreases s.len(),
{
    if s.len() > 0 {
        assert(s[s.len() - 1].0 != k);
        assert forall|j: int| 0 <= j < s.drop_last().len() implies (#[trigger] s.drop_last()[j]).0
            != k by {
            assert(s[j].0 != k);
        }
        law_no_entry_no_value(s.drop_last(), k);
    }
}

/// A value may convert exactly where some outcome of its conversion is no failure.
pub proof fn law_converts_without_failure<V, W: TryFrom<V>>(v: V, w: W)
    ensures
        call_ensures(W::try_from, (v,), Ok(w)) ==> converts::<V, W>(v),
        (forall|x: W| !#[trigger] call_ensures(W::try_from, (v,), Ok(x))) ==> !converts::<V, W>(v),
{
}

/// A clone has the same keys at the same positions, with clones of their values.
pub proof fn law_clone_has_the_same_keys<V: Clone>(
    a: Seq<(Seq<char>, V)>,
    b: Seq<(Seq<char>, V)>,
    i: int,
)
    requires
        entries_cloned(a, b),
        0 <= i < a.len(),
    ensures
        a.len() == b.len(),
        a[i].0 == b[i].0,
        cloned(a[i].1, b[i].1),
{
    assert(b[i].0 == a[i].0);
}

/// Maps are equal exactly where they have as many entries, and every key of one is mapped by the
/// other to an equal value.
pub proof fn law_equal_maps_agree_on_keys<V: PartialEq>(
    a: Seq<(Seq<char>, V)>,
    b: Seq<(Seq<char>, V)>,
)
    requires
        sorted_by_key(a),
        sorted_by_key(b),
    ensures
        entries_eq(a, b) <==> {
            &&& a.len() == b.len()
            &&& forall|k: Seq<char>|
                has_key(a, k) ==> has_key(b, k) && (#[trigger] lookup(a, k))->0.eq_spec(
                    &lookup(b, k)->0,
                )
        },
{
    if entries_eq(a, b) {
        assert forall|k: Seq<char>| has_key(a, k) implies has_key(b, k) && (#[trigger] lookup(
            a,
            k,
        ))->0.eq_spec(&lookup(b, k)->0) by {
            let i = key_position(a, k);
            assert(0 <= i < a.len() && a[i].0 == k);
            assert(entry_eq(a[i], b[i]));
            lemma_position_unique(a, i);
            lemma_position_unique(b, i);
        }
    }
    if a.len() == b.len() && (forall|k: Seq<char>|
        has_key(a, k) ==> has_key(b, k) && (#[trigger] lookup(a, k))->0.eq_spec(
            &lookup(b, k)->0,
        )) {
        assert forall|i: int| 0 <= i < a.len() implies entry_eq(#[trigger] a[i], b[i]) by {
            assert forall|k: Seq<char>| #[trigger] has_key(a, k) implies has_key(b, k) by {
                assert(lookup(a, k) == lookup(a, k));
            }
            lemma_same_keys(a, b, i);
            lemma_position_unique(a, i);
            lemma_position_unique(b, i);
            assert(lookup(a, a[i].0)->0.eq_spec(&lookup(b, a[i].0)->0));
        }
    }
}

/// Sorted entries of which one has all the keys of the other, and as many, have the same keys at
/// the same positions.
proof fn lemma_same_keys<V>(a: Seq<(Seq<char>, V)>, b: Seq<(Seq<char>, V)>, i: int)
    requires
        sorted_by_key(a),
        sorted_by_key(b),
        a.len() == b.len(),
        forall|k: Seq<char>| #[trigger] has_key(a, k) ==> has_key(b, k),
        0 <= i < a.len(),
    ensures
        a[i].0 == b[i].0,
{
    lemma_position_grows(a, b, i);
    lemma_position_is_bounded(a, b, i);
    let p = key_position(b, a[i].0);
    lemma_position_unique(a, i);
    assert(has_key(b, a[i].0));
    assert(b[p].0 == a[i].0);
}

/// The `i`-th key of `a` stands at the `i`-th position of `b` or behind it.
proof fn lemma_position_grows<V>(a: Seq<(Seq<char>, V)>, b: Seq<(Seq<char>, V)>, i: int)
    requires
        sorted_by_key(a),
        sorted_by_key(b),
        forall|k: Seq<char>| #[trigger] has_key(a, k) ==> has_key(b, k),
        0 <= i < a.len(),
    ensures
        i <= key_position(b, a[i].0) < b.len(),
    decreases i,
{
    lemma_position_unique(a, i);
    assert(has_key(b, a[i].0));
    let p = key_position(b, a[i].0);
    assert(0 <= p < b.len() && b[p].0 == a[i].0);
    if i > 0 {
        lemma_position_grows(a, b, i - 1);
        lemma_position_unique(a, i - 1);
        assert(has_key(b, a[i - 1].0));
        let q = key_position(b, a[i - 1].0);
        assert(0 <= q < b.len() && b[q].0 == a[i - 1].0);
        assert(key_lt(a[i - 1].0, a[i].0));
        if p <= q {
            if p < q {
                assert(key_lt(b[p].0, b[q].0));
            }
            lemma_key_order(a[i - 1].0, a[i].0);
        }
    }
}

/// As many positions follow that of the `i`-th key in `b` as keys follow it in `a`.
proof fn lemma_position_is_bounded<V>(a: Seq<(Seq<char>, V)>, b: Seq<(Seq<char>, V)>, i: int)
    requires
        sorted_by_key(a),
        sorted_by_key(b),
        a.len() == b.len(),
        forall|k: Seq<char>| #[trigger] has_key(a, k) ==> has_key(b, k),
        0 <= i < a.len(),
    ensures
        key_position(b, a[i].0) <= i,
    decreases a.len() - i,
{
    lemma_position_grows(a, b, i);
    if i < a.len() - 1 {
        lemma_position_is_bounded(a, b, i + 1);
        lemma_position_unique(a, i);
        lemma_position_unique(a, i + 1);
        assert(has_key(b, a[i].0) && has_key(b, a[i + 1].0));
        let p = key_position(b, a[i].0);
        let q = key_position(b, a[i + 1].0);
        assert(0 <= p < b.len() && b[p].0 == a[i].0);
        assert(0 <= q < b.len() && b[q].0 == a[i + 1].0);
        assert(key_lt(a[i].0, a[i + 1].0));
        if q <= p {
            if q < p {
                assert(key_lt(b[q].0, b[p].0));
            }
            lemma_key_order(a[i].0, a[i + 1].0);
        }
    }
}

/// Maps compare as the first entries in which they differ: as their keys, where these differ,
/// and otherwise as their values. Where one of them ends before that, it is the smaller.
pub proof fn law_first_differing_entry_decides<V: Ord>(
    a: Seq<(Seq<char>, V)>,
    b: Seq<(Seq<char>, V)>,
    i: int,
)
    requires
        0 <= i <= a.len(),
        i <= b.len(),
        forall|j: int|
            0 <= j < i ==> (#[trigger] a[j]).0 == b[j].0 && a[j].1.cmp_spec(&b[j].1)
                == Ordering::Equal,
    ensures
        i < a.len() && i < b.len() ==> {
            &&& key_lt(a[i].0, b[i].0) ==> entries_order(a, b) == Ordering::Less
            &&& key_lt(b[i].0, a[i].0) ==> entries_order(a, b) == Ordering::Greater
            &&& a[i].0 == b[i].0 && a[i].1.cmp_spec(&b[i].1) != Ordering::Equal ==> entries_order(
                a,
                b,
            ) == a[i].1.cmp_spec(&b[i].1)
        },
        i == a.len() && i < b.len() ==> entries_order(a, b) == Ordering::Less,
        i < a.len() && i == b.len() ==> entries_order(a, b) == Ordering::Greater,
        i == a.len() && i == b.len() ==> entries_order(a, b) == Ordering::Equal,
    decreases i,
{
    if i > 0 {
        let a1 = a.drop_first();
        let b1 = b.drop_first();
        assert(a[0].0 == b[0].0);
        lemma_key_order(a[0].0, b[0].0);
        assert forall|j: int| 0 <= j < i - 1 implies (#[trigger] a1[j]).0 == b1[j].0
            && a1[j].1.cmp_spec(&b1[j].1) == Ordering::Equal by {
            assert(a1[j] == a[j + 1]);
        }
        law_first_differing_entry_decides(a1, b1, i - 1);
    } else if a.len() > 0 && b.len() > 0 {
        lemma_key_order(a[0].0, b[0].0);
    }
}

/// Where values cannot be compared, neither can maps that first differ in them; otherwise maps
/// compare partially as they do totally.
pub proof fn law_first_differing_entry_decides_partially<V: PartialOrd>(
    a: Seq<(Seq<char>, V)>,
    b: Seq<(Seq<char>, V)>,
    i: int,
)
    requires
        0 <= i <= a.len(),
        i <= b.len(),
        forall|j: int|
            0 <= j < i ==> (#[trigger] a[j]).0 == b[j].0 && a[j].1.partial_cmp_spec(&b[j].1)
                == Some(Ordering::Equal),
    ensures
        i < a.len() && i < b.len() ==> {
            &&& key_lt(a[i].0, b[i].0) ==> entries_partial_order(a, b) == Some(Ordering::Less)
            &&& key_lt(b[i].0, a[i].0) ==> entries_partial_order(a, b) == Some(Ordering::Greater)
            &&& a[i].0 == b[i].0 && a[i].1.partial_cmp_spec(&b[i].1) != Some(Ordering::Equal)
                ==> entries_partial_order(a, b) == a[i].1.partial_cmp_spec(&b[i].1)
        },
        i == a.len() && i < b.len() ==> entries_partial_order(a, b) == Some(Ordering::Less),
        i < a.len() && i == b.len() ==> entries_partial_order(a, b) == Some(Ordering::Greater),
        i == a.len() && i == b.len() ==> entries_partial_order(a, b) == Some(Ordering::Equal),
    decreases i,
{
    if i > 0 {
        let a1 = a.drop_first();
        let b1 = b.drop_first();
        assert(a[0].0 == b[0].0);
        lemma_key_order(a[0].0, b[0].0);
        assert forall|j: int| 0 <= j < i - 1 implies (#[trigger] a1[j]).0 == b1[j].0
            && a1[j].1.partial_cmp_spec(&b1[j].1) == Some(Ordering::Equal) by {
            assert(a1[j] == a[j + 1]);
        }
        law_first_differing_entry_decides_partially(a1, b1, i - 1);
    } else if a.len() > 0 && b.len() > 0 {
        lemma_key_order(a[0].0, b[0].0);
    }
}

/// Of two maps, each compares with the other in the opposite way, where values do.
pub proof fn law_map_order_is_antisymmetric<V: Ord>(
    a: Seq<(Seq<char>, V)>,
    b: Seq<(Seq<char>, V)>,
)
    requires
        forall|x: V, y: V|
            (#[trigger] x.cmp_spec(&y)) == Ordering::Less <==> y.cmp_spec(&x) == Ordering::Greater,
    ensures
        entries_order(a, b) == Ordering::Less <==> entries_order(b, a) == Ordering::Greater,
        entries_order(a, b) == Ordering::Greater <==> entries_order(b, a) == Ordering::Less,
        entries_order(a, b) == Ordering::Equal <==> entries_order(b, a) == Ordering::Equal,
    decreases a.len(),
{
    if a.len() > 0 && b.len() > 0 {
        lemma_key_order(a[0].0, b[0].0);
        let there = a[0].1.cmp_spec(&b[0].1);
        let back = b[0].1.cmp_spec(&a[0].1);
        assert(there == Ordering::Less <==> back == Ordering::Greater);
        assert(back == Ordering::Less <==> there == Ordering::Greater);
        law_map_order_is_antisymmetric(a.drop_first(), b.drop_first());
    }
}

/// Of two maps, each compares partially with the other in the opposite way, where values do.
pub proof fn law_partial_map_order_is_antisymmetric<V: PartialOrd>(
    a: Seq<(Seq<char>, V)>,
    b: Seq<(Seq<char>, V)>,
)
    requires
        forall|x: V, y: V|
            (#[trigger] x.partial_cmp_spec(&y)) == Some(Ordering::Less) <==> y.partial_cmp_spec(&x)
                == Some(Ordering::Greater),
        forall|x: V, y: V|
            (#[trigger] x.partial_cmp_spec(&y)) is None <==> y.partial_cmp_spec(&x) is None,
    ensures
        entries_partial_order(a, b) == Some(Ordering::Less) <==> entries_partial_order(b, a)
            == Some(Ordering::Greater),
        entries_partial_order(a, b) == Some(Ordering::Equal) <==> entries_partial_order(b, a)
            == Some(Ordering::Equal),
        entries_partial_order(a, b) is None <==> entries_partial_order(b, a) is None,
    decreases a.len(),
{
    if a.len() > 0 && b.len() > 0 {
        lemma_key_order(a[0].0, b[0].0);
        let there = a[0].1.partial_cmp_spec(&b[0].1);
        let back = b[0].1.partial_cmp_spec(&a[0].1);
        assert(there == Some(Ordering::Less) <==> back == Some(Ordering::Greater));
        assert(back == Some(Ordering::Less) <==> there == Some(Ordering::Greater));
        assert(there is None <==> back is None);
        law_partial_map_order_is_antisymmetric(a.drop_first(), b.drop_first());
    }
}

/// The order of maps is transitive, where that of values is.
pub proof fn law_map_order_is_transitive<V: Ord>(
    a: Seq<(Seq<char>, V)>,
    b: Seq<(Seq<char>, V)>,
    c: Seq<(Seq<char>, V)>,
)
    requires
        forall|x: V, y: V, z: V|
            (#[trigger] x.cmp_spec(&y)) != Ordering::Greater && (#[trigger] y.cmp_spec(&z))
                != Ordering::Greater ==> {
                &&& x.cmp_spec(&z) != Ordering::Greater
                &&& x.cmp_spec(&z) == Ordering::Equal <==> x.cmp_spec(&y) == Ordering::Equal
                    && y.cmp_spec(&z) == Ordering::Equal
            },
        entries_order(a, b) == Ordering::Less,
        entries_order(b, c) == Ordering::Less,
    ensures
        entries_order(a, c) == Ordering::Less,
    decreases a.len(),
{
    if a.len() > 0 && b.len() > 0 && c.len() > 0 {
        lemma_key_order(a[0].0, b[0].0);
        lemma_key_order(b[0].0, c[0].0);
        lemma_key_order(a[0].0, c[0].0);
        if key_lt(a[0].0, b[0].0) && key_lt(b[0].0, c[0].0) {
            lemma_key_order_transitive(a[0].0, b[0].0, c[0].0);
        }
        if a[0].0 == b[0].0 && b[0].0 == c[0].0 {
            let x = a[0].1;
            let y = b[0].1;
            let z = c[0].1;
            assert(x.cmp_spec(&y) != Ordering::Greater && y.cmp_spec(&z) != Ordering::Greater);
            if x.cmp_spec(&y) == Ordering::Equal && y.cmp_spec(&z) == Ordering::Equal {
                law_map_order_is_transitive(a.drop_first(), b.drop_first(), c.drop_first());
            }
        }
    }
}

} // verus!
