//! Laws of objects: what the presentation order changes, and what it does not.
use vstd::prelude::*;
use vstd::std_specs::cmp::{OrdSpec, PartialEqSpec, PartialOrdSpec};

use crate::collections::compare::{entries_eq, entries_order, entries_partial_order, entry_eq};
use crate::collections::entries::{
    has_key, key_lt, key_position, lemma_key_order, lemma_lookup_cases, lemma_map_extensional,
    lemma_merged, lemma_position_unique, lookup, merged, sorted_by_key,
};
use crate::val::display::{
    displayed, is_order, is_permutation, lemma_permutation_mentions, lemma_picked_push, mentions,
    moved_down, moved_up, order_with, order_without, picked, taken,
};
use crate::val::object::{
    first_mentions, lemma_unmentioned, lemma_written_order, unmentioned, written_order, Object,
    ObjectMap,
};

verus! {

/// Two objects that differ only in display order compare alike with every object.
pub proof fn law_comparison_ignores_display_order<V: Ord>(
    a: Object<V>,
    b: Object<V>,
    other: Object<V>,
)
    requires
        a@ == b@,
    ensures
        a.eq_spec(&other) == b.eq_spec(&other),
        other.eq_spec(&a) == other.eq_spec(&b),
        a.partial_cmp_spec(&other) == b.partial_cmp_spec(&other),
        other.partial_cmp_spec(&a) == other.partial_cmp_spec(&b),
        entries_order(a@, other@) == entries_order(b@, other@),
        entries_order(other@, a@) == entries_order(other@, b@),
{
}

/// Two objects that differ only in display order are equal, as far as equal values are.
pub proof fn law_display_order_keeps_equality<V: Ord>(a: Object<V>, b: Object<V>)
    requires
        a@ == b@,
        forall|v: V| #[trigger] v.eq_spec(&v),
        forall|v: V| #[trigger] v.partial_cmp_spec(&v) == Some(core::cmp::Ordering::Equal),
        forall|v: V| #[trigger] v.cmp_spec(&v) == core::cmp::Ordering::Equal,
    ensures
        a.eq_spec(&b),
        a.partial_cmp_spec(&b) == Some(core::cmp::Ordering::Equal),
        entries_order(a@, b@) == core::cmp::Ordering::Equal,
{
    assert forall|i: int| 0 <= i < a@.len() implies entry_eq(#[trigger] a@[i], b@[i]) by {}
    lemma_same_entries_equal(a@);
}

/// The same entries are equal in order.
proof fn lemma_same_entries_equal<V: Ord>(s: Seq<(Seq<char>, V)>)
    requires
        forall|v: V| #[trigger] v.partial_cmp_spec(&v) == Some(core::cmp::Ordering::Equal),
        forall|v: V| #[trigger] v.cmp_spec(&v) == core::cmp::Ordering::Equal,
    ensures
        entries_partial_order(s, s) == Some(core::cmp::Ordering::Equal),
        entries_order(s, s) == core::cmp::Ordering::Equal,
    decreases s.len(),
{
    if s.len() > 0 {
        lemma_key_order(s[0].0, s[0].0);
        lemma_same_entries_equal(s.drop_first());
    }
}

/// Where values have one order, so have objects: the partial order is the total one.
pub proof fn law_partial_order_is_order<V: Ord>(a: Seq<(Seq<char>, V)>, b: Seq<(Seq<char>, V)>)
    requires
        forall|v: V, w: V| #[trigger] v.partial_cmp_spec(&w) == Some(v.cmp_spec(&w)),
    ensures
        entries_partial_order(a, b) == Some(entries_order(a, b)),
    decreases a.len(),
{
    if a.len() > 0 && b.len() > 0 {
        law_partial_order_is_order(a.drop_first(), b.drop_first());
    }
}

/// Objects are equal exactly where their order says so, as far as values are.
pub proof fn law_order_agrees_with_equality<V: Ord>(a: Seq<(Seq<char>, V)>, b: Seq<(Seq<char>, V)>)
    requires
        forall|v: V, w: V|
            #[trigger] v.eq_spec(&w) <==> v.cmp_spec(&w) == core::cmp::Ordering::Equal,
    ensures
        entries_eq(a, b) <==> entries_order(a, b) == core::cmp::Ordering::Equal,
    decreases a.len(),
{
    if a.len() > 0 && b.len() > 0 {
        let a1 = a.drop_first();
        let b1 = b.drop_first();
        lemma_key_order(a[0].0, b[0].0);
        law_order_agrees_with_equality(a1, b1);
        if entries_eq(a, b) {
            assert(entry_eq(a[0], b[0]));
            assert forall|i: int| 0 <= i < a1.len() implies entry_eq(#[trigger] a1[i], b1[i]) by {
                assert(entry_eq(a[i + 1], b[i + 1]));
            }
        }
        if entry_eq(a[0], b[0]) && entries_eq(a1, b1) {
            assert forall|i: int| 0 <= i < a.len() implies entry_eq(#[trigger] a[i], b[i]) by {
                if i > 0 {
                    assert(entry_eq(a1[i - 1], b1[i - 1]));
                }
            }
        }
    }
}

/// Taking out a key that was put in anew gives back what was there before.
pub proof fn law_remove_undoes_insert<V>(
    before: Seq<(Seq<char>, V)>,
    inserted: Seq<(Seq<char>, V)>,
    removed: Seq<(Seq<char>, V)>,
    key: Seq<char>,
)
    requires
        sorted_by_key(before),
        sorted_by_key(removed),
        !has_key(before, key),
        forall|k: Seq<char>| k != key ==> #[trigger] lookup(inserted, k) == lookup(before, k),
        lookup(removed, key) is None,
        forall|k: Seq<char>| k != key ==> #[trigger] lookup(removed, k) == lookup(inserted, k),
    ensures
        removed == before,
{
    assert forall|k: Seq<char>| #[trigger] lookup(removed, k) == lookup(before, k) by {
        if k != key {
            assert(lookup(inserted, k) == lookup(before, k));
        }
    }
    lemma_map_extensional(removed, before);
}

/// The keys of entries.
pub open spec fn keys_of<V>(entries: Seq<(Seq<char>, V)>) -> Seq<Seq<char>> {
    entries.map_values(|e: (Seq<char>, V)| e.0)
}

/// The written keys, by their characters.
pub open spec fn texts(written: Seq<&str>) -> Seq<Seq<char>> {
    written.map_values(|k: &str| k@)
}

/// The written keys that are there, each at its first mention.
pub open spec fn distinct_written<V>(entries: Seq<(Seq<char>, V)>, written: Seq<&str>) -> Seq<
    Seq<char>,
>
    decreases written.len(),
{
    if written.len() == 0 {
        Seq::empty()
    } else {
        let rest = distinct_written(entries, written.drop_last());
        let key = written.last()@;
        if has_key(entries, key) && !rest.contains(key) {
            rest.push(key)
        } else {
            rest
        }
    }
}

/// Where all positions are those of entries, the entries at them are presented one by one.
proof fn lemma_picked_in_range<V>(entries: Seq<(Seq<char>, V)>, order: Seq<u32>)
    requires
        forall|j: int| 0 <= j < order.len() ==> #[trigger] order[j] < entries.len(),
    ensures
        picked(entries, order).len() == order.len(),
        forall|j: int|
            0 <= j < order.len() ==> #[trigger] picked(entries, order)[j] == entries[order[j] as int],
    decreases order.len(),
{
    if order.len() > 0 {
        let rest = order.drop_last();
        lemma_picked_in_range(entries, rest);
        lemma_picked_push(entries, rest, order.last());
        assert(order =~= rest.push(order.last()));
    }
}

/// A presentation by a permutation loses no entry and repeats none.
pub proof fn law_permutation_presents_all<V>(entries: Seq<(Seq<char>, V)>, order: Seq<u32>)
    requires
        is_permutation(order, entries.len()),
    ensures
        displayed(entries, Some(order)).len() == entries.len(),
        forall|j: int|
            0 <= j < entries.len() ==> #[trigger] displayed(entries, Some(order))[j]
                == entries[order[j] as int],
        forall|i: int| 0 <= i < entries.len() ==> #[trigger] mentions(order, i),
{
    lemma_picked_in_range(entries, order);
    lemma_permutation_mentions(order, entries.len());
}

/// Where the positions that were set are a permutation, so is the presentation order, if there is
/// one, whatever became of the entries since.
pub proof fn law_order_is_permutation<V>(object: Object<V>)
    requires
        object.ordered(),
    ensures
        is_order(object.order(), object@.len()),
{
}

/// Whatever keys were written, there is no presentation order or it is a permutation. So every
/// entry is presented, and none twice.
pub proof fn law_written_order_is_permutation<V>(entries: Seq<(Seq<char>, V)>, written: Seq<&str>)
    ensures
        is_order(written_order(entries, written), entries.len()),
{
    lemma_written_order(entries, written);
}

/// The positions of the written keys are those of the distinct ones that are there.
proof fn lemma_first_mentions_keys<V>(entries: Seq<(Seq<char>, V)>, written: Seq<&str>)
    requires
        sorted_by_key(entries),
        entries.len() <= 0x1_0000_0000,
    ensures
        first_mentions(entries, written).len() == distinct_written(entries, written).len(),
        forall|j: int|
            0 <= j < first_mentions(entries, written).len() ==> {
                &&& #[trigger] first_mentions(entries, written)[j] < entries.len()
                &&& entries[first_mentions(entries, written)[j] as int].0 == distinct_written(
                    entries,
                    written,
                )[j]
            },
    decreases written.len(),
{
    if written.len() > 0 {
        let rest = written.drop_last();
        let key = written.last()@;
        lemma_first_mentions_keys(entries, rest);
        let first = first_mentions(entries, rest);
        let keys = distinct_written(entries, rest);
        if has_key(entries, key) {
            let i = key_position(entries, key);
            assert(0 <= i < entries.len() && entries[i].0 == key);
            if mentions(first, i) {
                let p = choose|p: int| 0 <= p < first.len() && #[trigger] first[p] == i;
                assert(keys[p] == key);
            }
            if keys.contains(key) {
                let p = choose|p: int| 0 <= p < keys.len() && keys[p] == key;
                lemma_position_unique(entries, first[p] as int);
                assert(first[p] == i);
            }
        }
    }
}

/// Once the written order is set, the entries are presented as they were written: first the
/// written keys that are there, in the order of their first mentions, and then all others, in
/// sorted order.
pub proof fn law_display_follows_written_order<V>(
    entries: Seq<(Seq<char>, V)>,
    written: Seq<&str>,
)
    requires
        sorted_by_key(entries),
        written_order(entries, written) is Some,
    ensures
        ({
            let shown = keys_of(displayed(entries, written_order(entries, written)));
            let keys = distinct_written(entries, written);
            &&& shown.len() == entries.len()
            &&& keys.len() <= shown.len()
            &&& shown.take(keys.len() as int) == keys
            &&& forall|a: int, b: int|
                keys.len() <= a < b < shown.len() ==> key_lt(#[trigger] shown[a], #[trigger] shown[b])
        }),
{
    let order = written_order(entries, written)->0;
    let first = first_mentions(entries, written);
    let rest = unmentioned(first, entries.len());
    let keys = distinct_written(entries, written);
    let shown = keys_of(displayed(entries, Some(order)));
    lemma_written_order(entries, written);
    law_permutation_presents_all(entries, order);
    lemma_first_mentions_keys(entries, written);
    lemma_unmentioned(first, entries.len());
    assert(order.len() == first.len() + rest.len());
    assert forall|j: int| 0 <= j < keys.len() implies shown[j] == keys[j] by {
        assert(order[j] == first[j]);
        assert(displayed(entries, Some(order))[j] == entries[order[j] as int]);
    }
    assert(shown.take(keys.len() as int) =~= keys);
    assert forall|a: int, b: int| keys.len() <= a < b < shown.len() implies key_lt(
        #[trigger] shown[a],
        #[trigger] shown[b],
    ) by {
        let m = first.len() as int;
        assert(order[a] == rest[a - m] && order[b] == rest[b - m]);
        assert(rest[a - m] < rest[b - m]);
        assert(displayed(entries, Some(order))[a] == entries[order[a] as int]);
        assert(displayed(entries, Some(order))[b] == entries[order[b] as int]);
        assert(rest[b - m] < entries.len());
    }
}

/// Keys written once each, and all of them, are presented exactly as they were written.
pub proof fn law_display_keys_are_written_keys<V>(
    entries: Seq<(Seq<char>, V)>,
    written: Seq<&str>,
)
    requires
        sorted_by_key(entries),
        0 < entries.len() <= 0x1_0000_0000,
        written.len() == entries.len(),
        texts(written).no_duplicates(),
        forall|i: int| 0 <= i < written.len() ==> has_key(entries, #[trigger] texts(written)[i]),
    ensures
        keys_of(displayed(entries, written_order(entries, written))) == texts(written),
{
    lemma_distinct_written(entries, written);
    lemma_first_mentions_keys(entries, written);
    law_display_follows_written_order(entries, written);
    let shown = keys_of(displayed(entries, written_order(entries, written)));
    assert(shown.take(shown.len() as int) =~= shown);
}

/// Keys that are there and are written once each are all distinct.
proof fn lemma_distinct_written<V>(entries: Seq<(Seq<char>, V)>, written: Seq<&str>)
    requires
        texts(written).no_duplicates(),
        forall|i: int| 0 <= i < written.len() ==> has_key(entries, #[trigger] texts(written)[i]),
    ensures
        distinct_written(entries, written) == texts(written),
    decreases written.len(),
{
    if written.len() > 0 {
        let rest = written.drop_last();
        let all = texts(written);
        assert(texts(rest) =~= all.drop_last());
        assert forall|i: int| 0 <= i < rest.len() implies has_key(
            entries,
            #[trigger] texts(rest)[i],
        ) by {
            assert(all[i] == texts(rest)[i]);
        }
        assert(texts(rest).no_duplicates()) by {
            assert forall|a: int, b: int|
                0 <= a < rest.len() && 0 <= b < rest.len() && a != b implies texts(rest)[a]
                != texts(rest)[b] by {
                assert(all[a] != all[b]);
            }
        }
        lemma_distinct_written(entries, rest);
        let key = written.last()@;
        assert(all[written.len() - 1] == key);
        if texts(rest).contains(key) {
            let p = choose|p: int| 0 <= p < texts(rest).len() && texts(rest)[p] == key;
            assert(all[p] != all[written.len() - 1]);
        }
        assert(distinct_written(entries, written) =~= all);
    } else {
        assert(distinct_written(entries, written) =~= texts(written));
    }
}

/// A new entry is presented behind all that were presented before, in whatever order those are.
pub proof fn law_insert_presents_last<V>(
    entries: Seq<(Seq<char>, V)>,
    order: Seq<u32>,
    at: int,
    entry: (Seq<char>, V),
)
    requires
        0 <= at <= entries.len() <= u32::MAX,
    ensures
        displayed(
            entries.insert(at, entry),
            order_with(Some(order), at, entries.len()),
        ) == displayed(entries, Some(order)).push(entry),
{
    let more = entries.insert(at, entry);
    lemma_picked_moved_up(entries, order, at, entry);
    lemma_picked_push(more, moved_up(order, at, entries.len()), at as u32);
}

/// Positions that move up mean the entries that they meant.
proof fn lemma_picked_moved_up<V>(
    entries: Seq<(Seq<char>, V)>,
    order: Seq<u32>,
    at: int,
    entry: (Seq<char>, V),
)
    requires
        0 <= at <= entries.len() <= u32::MAX,
    ensures
        picked(entries.insert(at, entry), moved_up(order, at, entries.len())) == picked(
            entries,
            order,
        ),
    decreases order.len(),
{
    let n = entries.len();
    let more = entries.insert(at, entry);
    let moved = moved_up(order, at, n);
    if order.len() == 0 {
        assert(picked(more, moved) =~= picked(entries, order));
    } else {
        let rest = order.drop_last();
        let i = order.last();
        let before = moved_up(rest, at, n);
        lemma_picked_moved_up(entries, rest, at, entry);
        assert(order =~= rest.push(i));
        lemma_picked_push(entries, rest, i);
        if i < n {
            let y: u32 = if i < at {
                i
            } else {
                (i + 1) as u32
            };
            assert(moved =~= before.push(y));
            lemma_picked_push(more, before, y);
            assert(more[y as int] == entries[i as int]);
        } else {
            assert(moved =~= before);
        }
    }
}

/// Taking out an entry that was put in anew gives back the presentation order that there was.
pub proof fn law_remove_undoes_insert_in_order(order: Option<Seq<u32>>, at: int, n: nat)
    requires
        is_order(order, n),
        0 <= at <= n <= u32::MAX,
    ensures
        order_without(order_with(order, at, n), at, n + 1) == order,
{
    if let Some(positions) = order {
        let moved = moved_up(positions, at, n);
        lemma_moved_back(positions, at, n);
        assert(moved.push(at as u32).drop_last() =~= moved);
        assert(moved_down(moved.push(at as u32), at, n + 1) =~= moved_down(moved, at, n + 1));
    }
}

/// Positions that move up and then down are where they were.
proof fn lemma_moved_back(order: Seq<u32>, at: int, n: nat)
    requires
        0 <= at <= n <= u32::MAX,
        forall|j: int| 0 <= j < order.len() ==> #[trigger] order[j] < n,
    ensures
        moved_down(moved_up(order, at, n), at, n + 1) == order,
    decreases order.len(),
{
    if order.len() == 0 {
        assert(moved_down(moved_up(order, at, n), at, n + 1) =~= order);
    } else {
        let rest = order.drop_last();
        let i = order[order.len() - 1];
        let before = moved_up(rest, at, n);
        lemma_moved_back(rest, at, n);
        let y: u32 = if i < at {
            i
        } else {
            (i + 1) as u32
        };
        assert(moved_up(order, at, n) =~= before.push(y));
        assert(before.push(y).drop_last() =~= before);
        assert(moved_down(before.push(y), at, n + 1) =~= moved_down(before, at, n + 1).push(i));
        assert(order =~= rest.push(i));
    }
}

/// Once an entry is gone, the others are presented as they were, in whatever order that was.
pub proof fn law_remove_keeps_presentation<V>(
    entries: Seq<(Seq<char>, V)>,
    order: Seq<u32>,
    at: int,
)
    requires
        sorted_by_key(entries),
        0 <= at < entries.len(),
    ensures
        displayed(
            entries.remove(at),
            order_without(Some(order), at, entries.len()),
        ) == displayed(entries, Some(order)).filter(
            |e: (Seq<char>, V)| e.0 != entries[at].0,
        ),
    decreases order.len(),
{
    reveal(Seq::filter);
    let n = entries.len();
    let less = entries.remove(at);
    let moved = moved_down(order, at, n);
    let keep = |e: (Seq<char>, V)| e.0 != entries[at].0;
    if order.len() == 0 {
        assert(picked(less, moved) =~= picked(entries, order).filter(keep));
    } else {
        let rest = order.drop_last();
        let i = order.last();
        let before = moved_down(rest, at, n);
        law_remove_keeps_presentation(entries, rest, at);
        assert(order =~= rest.push(i));
        lemma_picked_push(entries, rest, i);
        if i < n {
            let shown = picked(entries, order);
            assert(shown.drop_last() =~= picked(entries, rest));
            assert(shown.last() == entries[i as int]);
            if i == at {
                assert(moved =~= before);
            } else {
                lemma_position_unique(entries, i as int);
                lemma_position_unique(entries, at);
                let y: u32 = if i < at {
                    i
                } else {
                    (i - 1) as u32
                };
                assert(moved =~= before.push(y));
                lemma_picked_push(less, before, y);
                assert(less[y as int] == entries[i as int]);
            }
        } else {
            assert(moved =~= before);
        }
    }
}

/// Without repetition, giving up an object for its entries presents what looking at it does.
pub proof fn law_owned_display_is_display<V>(entries: Seq<(Seq<char>, V)>, order: Seq<u32>)
    requires
        order.no_duplicates(),
    ensures
        taken(entries, order) == picked(entries, order),
    decreases order.len(),
{
    if order.len() == 0 {
        assert(taken(entries, order) =~= picked(entries, order));
    } else {
        let rest = order.drop_last();
        assert(rest.no_duplicates()) by {
            assert forall|a: int, b: int|
                0 <= a < rest.len() && 0 <= b < rest.len() && a != b implies rest[a] != rest[b] by {
                assert(order[a] != order[b]);
            }
        }
        law_owned_display_is_display(entries, rest);
        lemma_picked_push(entries, rest, order.last());
        assert(order =~= rest.push(order.last()));
        if mentions(rest, order.last() as int) {
            let p = choose|p: int| 0 <= p < rest.len() && #[trigger] rest[p] == order.last() as int;
            assert(order[p] != order[order.len() - 1]);
        }
    }
}

/// Entries with the same keys are presented with the same keys by the same order. So an object
/// that is carried over to clients shows its fields in the order that it had.
pub proof fn law_conversion_keeps_display_order<V, P>(
    a: Seq<(Seq<char>, V)>,
    b: Seq<(Seq<char>, P)>,
    order: Option<Seq<u32>>,
)
    requires
        keys_of(a) == keys_of(b),
    ensures
        keys_of(displayed(a, order)) == keys_of(displayed(b, order)),
{
    if let Some(order) = order {
        lemma_picked_same_keys(a, b, order);
    }
}

/// Entries with the same keys are picked with the same keys.
proof fn lemma_picked_same_keys<V, P>(
    a: Seq<(Seq<char>, V)>,
    b: Seq<(Seq<char>, P)>,
    order: Seq<u32>,
)
    requires
        keys_of(a) == keys_of(b),
    ensures
        keys_of(picked(a, order)) == keys_of(picked(b, order)),
    decreases order.len(),
{
    assert(keys_of(a).len() == a.len() && keys_of(b).len() == b.len());
    if order.len() == 0 {
        assert(keys_of(picked(a, order)) =~= keys_of(picked(b, order)));
    } else {
        let rest = order.drop_last();
        let i = order.last();
        lemma_picked_same_keys(a, b, rest);
        lemma_picked_push(a, rest, i);
        lemma_picked_push(b, rest, i);
        assert(order =~= rest.push(i));
        if i < a.len() {
            assert(keys_of(a)[i as int] == a[i as int].0);
            assert(keys_of(b)[i as int] == b[i as int].0);
            assert(keys_of(picked(a, order)) =~= keys_of(picked(a, rest)).push(a[i as int].0));
            assert(keys_of(picked(b, order)) =~= keys_of(picked(b, rest)).push(b[i as int].0));
        }
    }
}

/// The union of objects: nothing is added by an empty one or by an object to itself, and it
/// does not matter how unions are grouped. Where several have a key, the last value stands.
pub proof fn law_union<V>(
    a: Seq<(Seq<char>, V)>,
    b: Seq<(Seq<char>, V)>,
    c: Seq<(Seq<char>, V)>,
)
    requires
        sorted_by_key(a),
        sorted_by_key(b),
        sorted_by_key(c),
    ensures
        merged(a, Seq::empty()) == a,
        merged(Seq::empty(), a) == a,
        merged(a, a) == a,
        merged(merged(a, b), c) == merged(a, merged(b, c)),
{
    lemma_merged(a, a);
    lemma_map_extensional(merged(a, a), a);
    lemma_merged(a, b);
    lemma_merged(b, c);
    lemma_merged(merged(a, b), c);
    lemma_merged(a, merged(b, c));
    let l = merged(merged(a, b), c);
    let r = merged(a, merged(b, c));
    assert forall|k: Seq<char>| #[trigger] lookup(l, k) == lookup(r, k) by {
        lemma_lookup_cases(merged(b, c), k);
        lemma_lookup_cases(merged(a, b), k);
        lemma_lookup_cases(b, k);
        lemma_lookup_cases(c, k);
        assert(lookup(merged(b, c), k) == (if has_key(c, k) {
            lookup(c, k)
        } else {
            lookup(b, k)
        }));
        assert(lookup(merged(a, b), k) == (if has_key(b, k) {
            lookup(b, k)
        } else {
            lookup(a, k)
        }));
    }
    lemma_map_extensional(l, r);
    if a.len() == 0 {
        assert(a =~= Seq::empty());
    }
}

/// Two objects that differ only in display order are encoded to the same bytes, by an encoder
/// that gives one result for one map.
pub proof fn law_encoding_ignores_display_order<
    V,
    T,
    E,
    F: FnOnce(&ObjectMap<V>) -> Result<T, E>,
>(
    a: Object<V>,
    b: Object<V>,
    encode_map: F,
    encoded_a: Result<T, E>,
    encoded_b: Result<T, E>,
)
    requires
        a.0 == b.0,
        forall|map: &ObjectMap<V>, r: Result<T, E>, s: Result<T, E>|
            #[trigger] call_ensures(encode_map, (map,), r) && #[trigger] call_ensures(
                encode_map,
                (map,),
                s,
            ) ==> r == s,
        call_ensures(Object::<V>::encode::<T, E, F>, (&a, encode_map), encoded_a),
        call_ensures(Object::<V>::encode::<T, E, F>, (&b, encode_map), encoded_b),
    ensures
        encoded_a == encoded_b,
{
    assert(call_ensures(encode_map, (&a.0,), encoded_a));
    assert(call_ensures(encode_map, (&b.0,), encoded_b));
}

/// What was encoded is decoded to the same map without a display order, by a decoder that
/// undoes the encoder.
pub proof fn law_decoding_drops_display_order<
    V,
    E,
    F: FnOnce(&ObjectMap<V>) -> Result<Vec<u8>, E>,
    G: FnOnce(&[u8]) -> Result<ObjectMap<V>, E>,
>(
    object: Object<V>,
    encode_map: F,
    decode_map: G,
    bytes: Vec<u8>,
    slice: &[u8],
    decoded: Result<Object<V>, E>,
)
    requires
        slice@ == bytes@,
        forall|map: &ObjectMap<V>, v: Vec<u8>, s: &[u8], r: Result<ObjectMap<V>, E>|
            #[trigger] call_ensures(encode_map, (map,), Ok(v)) && #[trigger] call_ensures(
                decode_map,
                (s,),
                r,
            ) && s@ == v@ ==> r == Ok::<ObjectMap<V>, E>(*map),
        call_ensures(Object::<V>::encode::<Vec<u8>, E, F>, (&object, encode_map), Ok(bytes)),
        call_ensures(Object::<V>::borrow_decode::<&[u8], E, G>, (slice, decode_map), decoded),
    ensures
        decoded matches Ok(o) && o.0 == object.0 && o.plain(),
{
    assert(call_ensures(encode_map, (&object.0,), Ok(bytes)));
    match decoded {
        Ok(o) => {
            assert(call_ensures(decode_map, (slice,), Ok(o.0)));
        },
        Err(e) => {
            assert(call_ensures(decode_map, (slice,), Err(e)));
        },
    }
}

} // verus!
