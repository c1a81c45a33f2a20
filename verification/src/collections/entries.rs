//! Entries sorted by key: what a map with string keys holds, and what follows for it.
use vstd::prelude::*;
use vstd::utf8::encode_utf8;

use crate::bytes::{lemma_lex_total, lemma_lex_transitive, lex_lt};

verus! {

/// `a` comes before `b` in the order of strings, which is that of their bytes.
pub open spec fn key_lt(a: Seq<char>, b: Seq<char>) -> bool {
    lex_lt(encode_utf8(a), encode_utf8(b))
}

/// The keys strictly ascend.
pub open spec fn sorted_by_key<V>(s: Seq<(Seq<char>, V)>) -> bool {
    forall|i: int, j: int|
        0 <= i < j < s.len() ==> key_lt((#[trigger] s[i]).0, (#[trigger] s[j]).0)
}

/// The entries of a vector, with the keys by their characters.
pub open spec fn entries_of<V>(s: Seq<(String, V)>) -> Seq<(Seq<char>, V)> {
    Seq::new(s.len(), |i: int| (s[i].0@, s[i].1))
}

/// Some entry has the key `k`.
pub open spec fn has_key<V>(s: Seq<(Seq<char>, V)>, k: Seq<char>) -> bool {
    exists|i: int| 0 <= i < s.len() && (#[trigger] s[i]).0 == k
}

/// The position of the entry with the key `k`.
pub open spec fn key_position<V>(s: Seq<(Seq<char>, V)>, k: Seq<char>) -> int
    recommends
        has_key(s, k),
{
    choose|i: int| 0 <= i < s.len() && (#[trigger] s[i]).0 == k
}

/// The value under the key `k`, if there is one.
pub open spec fn lookup<V>(s: Seq<(Seq<char>, V)>, k: Seq<char>) -> Option<V> {
    if has_key(s, k) {
        Some(s[key_position(s, k)].1)
    } else {
        None
    }
}

/// The entries behind references, with the keys by their characters.
pub open spec fn entries_of_refs<V>(s: Seq<(&String, &V)>) -> Seq<(Seq<char>, V)> {
    Seq::new(s.len(), |i: int| (s[i].0@, *s[i].1))
}

/// `b` comes before every key.
pub open spec fn key_before_all<V>(b: Seq<char>, s: Seq<(Seq<char>, V)>) -> bool {
    forall|j: int| 0 <= j < s.len() ==> key_lt(b, (#[trigger] s[j]).0)
}

/// The value that the last entry for the key `k` gives it, if there is one.
pub open spec fn last_value<V>(s: Seq<(Seq<char>, V)>, k: Seq<char>) -> Option<V>
    decreases s.len(),
{
    if s.len() == 0 {
        None
    } else if s.last().0 == k {
        Some(s.last().1)
    } else {
        last_value(s.drop_last(), k)
    }
}

/// The union of two maps; where both have a key, the value of the second stands.
pub open spec fn merged<V>(lhs: Seq<(Seq<char>, V)>, rhs: Seq<(Seq<char>, V)>) -> Seq<
    (Seq<char>, V),
>
    decreases lhs.len() + rhs.len(),
{
    if lhs.len() == 0 {
        rhs
    } else if rhs.len() == 0 {
        lhs
    } else if lhs[0].0 == rhs[0].0 {
        seq![rhs[0]] + merged(lhs.drop_first(), rhs.drop_first())
    } else if key_lt(lhs[0].0, rhs[0].0) {
        seq![lhs[0]] + merged(lhs.drop_first(), rhs)
    } else {
        seq![rhs[0]] + merged(lhs, rhs.drop_first())
    }
}

/// The value `v` may convert without failure.
pub open spec fn converts<V, W: TryFrom<V>>(v: V) -> bool {
    exists|w: W| call_ensures(W::try_from, (v,), Ok(w))
}

/// The string order is a strict total order.
pub proof fn lemma_key_order(a: Seq<char>, b: Seq<char>)
    ensures
        key_lt(a, b) || a == b || key_lt(b, a),
        !(key_lt(a, b) && key_lt(b, a)),
        key_lt(a, b) ==> a != b,
{
    lemma_lex_total(encode_utf8(a), encode_utf8(b));
    vstd::utf8::encode_utf8_decode_utf8(a);
    vstd::utf8::encode_utf8_decode_utf8(b);
}

/// The string order is transitive.
pub proof fn lemma_key_order_transitive(a: Seq<char>, b: Seq<char>, c: Seq<char>)
    requires
        key_lt(a, b),
        key_lt(b, c),
    ensures
        key_lt(a, c),
{
    lemma_lex_transitive(encode_utf8(a), encode_utf8(b), encode_utf8(c));
}

/// In a sorted sequence, the position of a key is the only one that holds it.
pub proof fn lemma_position_unique<V>(s: Seq<(Seq<char>, V)>, i: int)
    requires
        sorted_by_key(s),
        0 <= i < s.len(),
    ensures
        has_key(s, s[i].0),
        key_position(s, s[i].0) == i,
        lookup(s, s[i].0) == Some(s[i].1),
{
    let j = key_position(s, s[i].0);
    assert(0 <= j < s.len() && s[j].0 == s[i].0);
    lemma_key_order(s[i].0, s[j].0);
}

/// A key that no entry has is found nowhere, and one that an entry has is found there.
pub proof fn lemma_lookup_cases<V>(s: Seq<(Seq<char>, V)>, k: Seq<char>)
    requires
        sorted_by_key(s),
    ensures
        lookup(s, k) is None <==> !has_key(s, k),
        forall|i: int| 0 <= i < s.len() && (#[trigger] s[i]).0 == k ==> lookup(s, k) == Some(s[i].1),
{
    assert forall|i: int| 0 <= i < s.len() && (#[trigger] s[i]).0 == k implies lookup(s, k) == Some(
        s[i].1,
    ) by {
        lemma_position_unique(s, i);
    }
}

/// A map is determined by what its keys are mapped to.
pub proof fn lemma_map_extensional<V>(a: Seq<(Seq<char>, V)>, b: Seq<(Seq<char>, V)>)
    requires
        sorted_by_key(a),
        sorted_by_key(b),
        forall|k: Seq<char>| #[trigger] lookup(a, k) == lookup(b, k),
    ensures
        a == b,
    decreases a.len() + b.len(),
{
    if a.len() > 0 {
        lemma_position_unique(a, 0);
        assert(lookup(a, a[0].0) == lookup(b, a[0].0));
    }
    if b.len() > 0 {
        lemma_position_unique(b, 0);
        assert(lookup(a, b[0].0) == lookup(b, b[0].0));
    }
    if a.len() > 0 && b.len() > 0 {
        let i = key_position(a, b[0].0);
        let j = key_position(b, a[0].0);
        lemma_key_order(a[0].0, b[0].0);
        if i > 0 {
            assert(key_lt(a[0].0, a[i].0));
        }
        if j > 0 {
            assert(key_lt(b[0].0, b[j].0));
        }
        assert(a[0].0 == b[0].0);
        let a1 = a.drop_first();
        let b1 = b.drop_first();
        assert forall|k: Seq<char>| #[trigger] lookup(a1, k) == lookup(b1, k) by {
            lemma_lookup_drop_first(a, k);
            lemma_lookup_drop_first(b, k);
            assert(lookup(a, k) == lookup(b, k));
        }
        lemma_sorted_drop_first(a);
        lemma_sorted_drop_first(b);
        lemma_map_extensional(a1, b1);
        assert(a =~= seq![a[0]] + a1);
        assert(b =~= seq![b[0]] + b1);
    } else {
        assert(a =~= b);
    }
}

/// Dropping the first entry leaves a sorted sequence.
pub proof fn lemma_sorted_drop_first<V>(s: Seq<(Seq<char>, V)>)
    requires
        sorted_by_key(s),
        s.len() > 0,
    ensures
        sorted_by_key(s.drop_first()),
{
    let t = s.drop_first();
    assert forall|i: int, j: int| 0 <= i < j < t.len() implies key_lt(
        (#[trigger] t[i]).0,
        (#[trigger] t[j]).0,
    ) by {
        assert(key_lt(s[i + 1].0, s[j + 1].0));
    }
}

/// Without its first entry, a map has lost just that key.
pub proof fn lemma_lookup_drop_first<V>(s: Seq<(Seq<char>, V)>, k: Seq<char>)
    requires
        sorted_by_key(s),
        s.len() > 0,
    ensures
        lookup(s.drop_first(), k) == if k == s[0].0 {
            None
        } else {
            lookup(s, k)
        },
{
    let t = s.drop_first();
    lemma_sorted_drop_first(s);
    lemma_lookup_cases(s, k);
    lemma_lookup_cases(t, k);
    if has_key(t, k) {
        let i = key_position(t, k);
        assert(t[i].0 == k);
        assert(s[i + 1].0 == k);
        lemma_position_unique(t, i);
        lemma_position_unique(s, i + 1);
        lemma_position_unique(s, 0);
    } else if has_key(s, k) {
        let i = key_position(s, k);
        if i > 0 {
            assert(t[i - 1].0 == k);
        }
    }
}

/// A new entry put where its key belongs: the sequence stays sorted, and just that key is
/// gained.
pub proof fn lemma_insert_at<V>(s: Seq<(Seq<char>, V)>, i: int, k: Seq<char>, v: V)
    requires
        sorted_by_key(s),
        0 <= i <= s.len(),
        forall|j: int| 0 <= j < i ==> key_lt((#[trigger] s[j]).0, k),
        forall|j: int| i <= j < s.len() ==> key_lt(k, (#[trigger] s[j]).0),
    ensures
        sorted_by_key(s.insert(i, (k, v))),
        lookup(s.insert(i, (k, v)), k) == Some(v),
        forall|k2: Seq<char>|
            k2 != k ==> #[trigger] lookup(s.insert(i, (k, v)), k2) == lookup(s, k2),
{
    let t = s.insert(i, (k, v));
    assert forall|a: int, b: int| 0 <= a < b < t.len() implies key_lt(
        (#[trigger] t[a]).0,
        (#[trigger] t[b]).0,
    ) by {
        let a0 = if a < i { a } else { a - 1 };
        let b0 = if b < i { b } else { b - 1 };
        if a != i && b != i {
            assert(t[a] == s[a0]);
            assert(t[b] == s[b0]);
        } else if a == i {
            assert(t[b] == s[b0]);
        } else {
            assert(t[a] == s[a0]);
        }
    }
    lemma_position_unique(t, i);
    assert forall|k2: Seq<char>| k2 != k implies #[trigger] lookup(t, k2) == lookup(s, k2) by {
        lemma_lookup_cases(s, k2);
        lemma_lookup_cases(t, k2);
        if has_key(s, k2) {
            let p = key_position(s, k2);
            assert(s[p].0 == k2);
            let q = if p < i { p } else { p + 1 };
            assert(t[q] == s[p]);
        } else if has_key(t, k2) {
            let q = key_position(t, k2);
            assert(t[q].0 == k2);
            let p = if q < i { q } else { q - 1 };
            assert(t[q] == s[p]);
        }
    }
}

/// An entry taken out: the sequence stays sorted, and just that key is lost.
pub proof fn lemma_remove_at<V>(s: Seq<(Seq<char>, V)>, i: int)
    requires
        sorted_by_key(s),
        0 <= i < s.len(),
    ensures
        sorted_by_key(s.remove(i)),
        lookup(s.remove(i), s[i].0) is None,
        forall|k: Seq<char>|
            k != s[i].0 ==> #[trigger] lookup(s.remove(i), k) == lookup(s, k),
{
    let t = s.remove(i);
    assert forall|a: int, b: int| 0 <= a < b < t.len() implies key_lt(
        (#[trigger] t[a]).0,
        (#[trigger] t[b]).0,
    ) by {
        let a0 = if a < i { a } else { a + 1 };
        let b0 = if b < i { b } else { b + 1 };
        assert(key_lt(s[a0].0, s[b0].0));
    }
    if has_key(t, s[i].0) {
        let q = key_position(t, s[i].0);
        assert(t[q].0 == s[i].0);
        let p = if q < i { q } else { q + 1 };
        assert(t[q] == s[p]);
        lemma_position_unique(s, i);
        lemma_position_unique(s, p);
    }
    assert forall|k: Seq<char>| k != s[i].0 implies #[trigger] lookup(t, k) == lookup(s, k) by {
        lemma_lookup_cases(s, k);
        lemma_lookup_cases(t, k);
        if has_key(s, k) {
            let p = key_position(s, k);
            assert(s[p].0 == k);
            let q = if p < i { p } else { p - 1 };
            assert(t[q] == s[p]);
        } else if has_key(t, k) {
            let q = key_position(t, k);
            assert(t[q].0 == k);
            let p = if q < i { q } else { q + 1 };
            assert(t[q] == s[p]);
        }
    }
}

/// The value of an entry replaced: the sequence stays sorted, and just that key is changed.
pub proof fn lemma_update_at<V>(s: Seq<(Seq<char>, V)>, i: int, v: V)
    requires
        sorted_by_key(s),
        0 <= i < s.len(),
    ensures
        sorted_by_key(s.update(i, (s[i].0, v))),
        lookup(s.update(i, (s[i].0, v)), s[i].0) == Some(v),
        forall|k: Seq<char>|
            k != s[i].0 ==> #[trigger] lookup(s.update(i, (s[i].0, v)), k) == lookup(s, k),
{
    let t = s.update(i, (s[i].0, v));
    assert forall|a: int, b: int| 0 <= a < b < t.len() implies key_lt(
        (#[trigger] t[a]).0,
        (#[trigger] t[b]).0,
    ) by {
        assert(key_lt(s[a].0, s[b].0));
    }
    lemma_position_unique(t, i);
    assert forall|k: Seq<char>| k != s[i].0 implies #[trigger] lookup(t, k) == lookup(s, k) by {
        lemma_lookup_cases(s, k);
        lemma_lookup_cases(t, k);
        if has_key(s, k) {
            let p = key_position(s, k);
            assert(s[p].0 == k);
            assert(t[p] == s[p]);
        } else if has_key(t, k) {
            let p = key_position(t, k);
            assert(t[p].0 == k);
            assert(t[p] == s[p]);
        }
    }
}

/// An entry before all others: the sequence stays sorted, and just that key is gained.
pub proof fn lemma_prepend<V>(e: (Seq<char>, V), s: Seq<(Seq<char>, V)>)
    requires
        sorted_by_key(s),
        forall|j: int| 0 <= j < s.len() ==> key_lt(e.0, (#[trigger] s[j]).0),
    ensures
        sorted_by_key(seq![e] + s),
        lookup(seq![e] + s, e.0) == Some(e.1),
        forall|k: Seq<char>| k != e.0 ==> #[trigger] lookup(seq![e] + s, k) == lookup(s, k),
{
    lemma_insert_at(s, 0, e.0, e.1);
    assert(s.insert(0, e) =~= seq![e] + s);
}

/// What the union of two maps holds: the keys of both, the second's values before the first's,
/// in order.
pub proof fn lemma_merged<V>(lhs: Seq<(Seq<char>, V)>, rhs: Seq<(Seq<char>, V)>)
    requires
        sorted_by_key(lhs),
        sorted_by_key(rhs),
    ensures
        sorted_by_key(merged(lhs, rhs)),
        forall|k: Seq<char>| #[trigger]
            lookup(merged(lhs, rhs), k) == (if has_key(rhs, k) {
                lookup(rhs, k)
            } else {
                lookup(lhs, k)
            }),
        forall|b: Seq<char>|
            #![trigger key_before_all(b, merged(lhs, rhs))]
            key_before_all(b, lhs) && key_before_all(b, rhs) ==> key_before_all(
                b,
                merged(lhs, rhs),
            ),
    decreases lhs.len() + rhs.len(),
{
    let m = merged(lhs, rhs);
    if lhs.len() == 0 {
    } else if rhs.len() == 0 {
    } else {
        lemma_key_order(lhs[0].0, rhs[0].0);
        lemma_sorted_drop_first(lhs);
        lemma_sorted_drop_first(rhs);
        let take_lhs = lhs[0].0 != rhs[0].0 && key_lt(lhs[0].0, rhs[0].0);
        let e = if take_lhs { lhs[0] } else { rhs[0] };
        let l1 = if take_lhs || lhs[0].0 == rhs[0].0 { lhs.drop_first() } else { lhs };
        let r1 = if take_lhs { rhs } else { rhs.drop_first() };
        lemma_merged(l1, r1);
        assert(m == seq![e] + merged(l1, r1));
        assert forall|j: int| 0 <= j < l1.len() implies key_lt(e.0, (#[trigger] l1[j]).0) by {
            if l1 == lhs {
                if j > 0 {
                    lemma_key_order_transitive(e.0, lhs[0].0, lhs[j].0);
                }
            } else {
                assert(l1[j] == lhs[j + 1]);
            }
        }
        assert forall|j: int| 0 <= j < r1.len() implies key_lt(e.0, (#[trigger] r1[j]).0) by {
            if take_lhs {
                if j > 0 {
                    lemma_key_order_transitive(e.0, rhs[0].0, rhs[j].0);
                }
            } else {
                assert(r1[j] == rhs[j + 1]);
            }
        }
        assert(key_before_all(e.0, merged(l1, r1)));
        lemma_prepend(e, merged(l1, r1));
        assert forall|k: Seq<char>| #[trigger]
            lookup(m, k) == (if has_key(rhs, k) {
                lookup(rhs, k)
            } else {
                lookup(lhs, k)
            }) by {
            lemma_lookup_cases(lhs, k);
            lemma_lookup_cases(rhs, k);
            lemma_lookup_cases(l1, k);
            lemma_lookup_cases(r1, k);
            lemma_lookup_drop_first(lhs, k);
            lemma_lookup_drop_first(rhs, k);
            if k == e.0 {
                if take_lhs && has_key(rhs, k) {
                    let j = key_position(rhs, k);
                    assert(key_lt(e.0, r1[j].0));
                    lemma_key_order(e.0, e.0);
                }
            } else {
                assert(lookup(m, k) == lookup(merged(l1, r1), k));
            }
        }
        assert forall|b: Seq<char>|
            #![trigger key_before_all(b, m)]
            key_before_all(b, lhs) && key_before_all(b, rhs) implies key_before_all(b, m) by {
            assert(key_lt(b, lhs[0].0));
            assert(key_lt(b, rhs[0].0));
            assert forall|j: int| 0 <= j < l1.len() implies key_lt(b, (#[trigger] l1[j]).0) by {
                lemma_key_order_transitive(b, e.0, l1[j].0);
            }
            assert forall|j: int| 0 <= j < r1.len() implies key_lt(b, (#[trigger] r1[j]).0) by {
                lemma_key_order_transitive(b, e.0, r1[j].0);
            }
            assert(key_before_all(b, merged(l1, r1)));
            assert forall|j: int| 0 <= j < m.len() implies key_lt(b, (#[trigger] m[j]).0) by {
                if j > 0 {
                    assert(m[j] == merged(l1, r1)[j - 1]);
                }
            }
        }
    }
}

/// One step of the union of the entries `l` and `r` behind those in `out`: the entry with the
/// smaller key goes to `out`, and of two with one key the second.
pub proof fn lemma_merged_step<V>(out: Seq<(String, V)>, l: Seq<(String, V)>, r: Seq<(String, V)>)
    ensures
        l.len() > 0 && (r.len() == 0 || key_lt(l[0].0@, r[0].0@)) ==> entries_of(out) + merged(
            entries_of(l),
            entries_of(r),
        ) == entries_of(out.push(l[0])) + merged(entries_of(l.drop_first()), entries_of(r)),
        r.len() > 0 && (l.len() == 0 || key_lt(r[0].0@, l[0].0@)) ==> entries_of(out) + merged(
            entries_of(l),
            entries_of(r),
        ) == entries_of(out.push(r[0])) + merged(entries_of(l), entries_of(r.drop_first())),
        l.len() > 0 && r.len() > 0 && l[0].0@ == r[0].0@ ==> entries_of(out) + merged(
            entries_of(l),
            entries_of(r),
        ) == entries_of(out.push(r[0])) + merged(
            entries_of(l.drop_first()),
            entries_of(r.drop_first()),
        ),
        l.len() == 0 && r.len() == 0 ==> entries_of(out) + merged(entries_of(l), entries_of(r))
            == entries_of(out),
{
    let el = entries_of(l);
    let er = entries_of(r);
    if l.len() > 0 {
        assert(entries_of(l.drop_first()) =~= el.drop_first());
        assert(entries_of(out.push(l[0])) =~= entries_of(out).push(el[0]));
        assert(el =~= seq![el[0]] + el.drop_first());
    }
    if r.len() > 0 {
        assert(entries_of(r.drop_first()) =~= er.drop_first());
        assert(entries_of(out.push(r[0])) =~= entries_of(out).push(er[0]));
        assert(er =~= seq![er[0]] + er.drop_first());
    }
    if l.len() > 0 && r.len() > 0 {
        lemma_key_order(l[0].0@, r[0].0@);
    }
    assert forall|e: (Seq<char>, V), m: Seq<(Seq<char>, V)>| #[trigger]
        (entries_of(out).push(e) + m) == entries_of(out) + (seq![e] + m) by {
        assert(entries_of(out).push(e) + m =~= entries_of(out) + (seq![e] + m));
    }
    if l.len() > 0 && r.len() == 0 {
        assert(er =~= Seq::empty());
        assert(merged(el.drop_first(), er) =~= el.drop_first());
    }
    if l.len() == 0 {
        assert(el =~= Seq::empty());
        if r.len() == 0 {
            assert(entries_of(out) + er =~= entries_of(out));
        }
    }
}

/// The same keys, with clones of the values.
pub open spec fn entries_cloned<V: Clone>(a: Seq<(Seq<char>, V)>, b: Seq<(Seq<char>, V)>) -> bool {
    &&& a.len() == b.len()
    &&& forall|i: int|
        0 <= i < a.len() ==> (#[trigger] b[i]).0 == a[i].0 && cloned(a[i].1, b[i].1)
}

} // verus!
