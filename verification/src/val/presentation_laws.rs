//! Laws of the presentation of objects, position by position.
use vstd::prelude::*;
use vstd::std_specs::cmp::{PartialEqSpec, PartialOrdSpec};
use vstd::std_specs::convert::FromSpec;

use crate::collections::compare::{entries_eq, entries_partial_order};
use crate::collections::entries::has_key;
use crate::collections::vec_map::VecMap;
use crate::types::object::Object as PublicObject;
use crate::val::display::{
    displayed, lemma_mentions_push, lemma_picked_push, lemma_taken_push, mentions, order_with,
    order_without, picked, taken,
};
use crate::val::object::{first_mentions, written_order, Object, ObjectMap};
use crate::val::value::Value;

verus! {

/// Some written key is there.
pub open spec fn any_written<V>(entries: Seq<(Seq<char>, V)>, written: Seq<&str>) -> bool {
    exists|i: int| 0 <= i < written.len() && has_key(entries, (#[trigger] written[i])@)
}

/// Written keys set a presentation order exactly where one of them is there, however many were
/// written.
pub proof fn law_written_keys_set_an_order<V>(entries: Seq<(Seq<char>, V)>, written: Seq<&str>)
    ensures
        entries.len() <= 0x1_0000_0000 ==> (written_order(entries, written) is Some
            <==> any_written(entries, written)),
        entries.len() > 0x1_0000_0000 ==> written_order(entries, written) is None,
{
    lemma_first_mentions_found(entries, written);
}

/// There are first mentions exactly where some written key is there.
proof fn lemma_first_mentions_found<V>(entries: Seq<(Seq<char>, V)>, written: Seq<&str>)
    ensures
        first_mentions(entries, written).len() > 0 <==> any_written(entries, written),
    decreases written.len(),
{
    if written.len() > 0 {
        let rest = written.drop_last();
        lemma_first_mentions_found(entries, rest);
        if any_written(entries, rest) {
            let i = choose|i: int| 0 <= i < rest.len() && has_key(entries, (#[trigger] rest[i])@);
            assert(has_key(entries, written[i]@));
        }
        if any_written(entries, written) {
            let i = choose|i: int|
                0 <= i < written.len() && has_key(entries, (#[trigger] written[i])@);
            if i < rest.len() {
                assert(has_key(entries, rest[i]@));
            }
        }
        if has_key(entries, written.last()@) {
            assert(has_key(entries, written[written.len() - 1]@));
        }
    }
}

/// A key that is not there changes nothing, wherever it is written.
pub proof fn law_absent_keys_are_skipped<V>(
    entries: Seq<(Seq<char>, V)>,
    before: Seq<&str>,
    absent: &str,
    behind: Seq<&str>,
)
    requires
        !has_key(entries, absent@),
    ensures
        written_order(entries, before.push(absent) + behind) == written_order(
            entries,
            before + behind,
        ),
{
    lemma_absent_key(entries, before, absent, behind);
}

/// A key that is not there adds no mention.
proof fn lemma_absent_key<V>(
    entries: Seq<(Seq<char>, V)>,
    before: Seq<&str>,
    absent: &str,
    behind: Seq<&str>,
)
    requires
        !has_key(entries, absent@),
    ensures
        first_mentions(entries, before.push(absent) + behind) == first_mentions(
            entries,
            before + behind,
        ),
    decreases behind.len(),
{
    let with = before.push(absent) + behind;
    let without = before + behind;
    if behind.len() == 0 {
        assert(with.drop_last() =~= before);
        assert(without =~= before);
    } else {
        lemma_absent_key(entries, before, absent, behind.drop_last());
        assert(with.drop_last() =~= before.push(absent) + behind.drop_last());
        assert(without.drop_last() =~= before + behind.drop_last());
        assert(with.last() == without.last());
    }
}

/// Positions present the entries at them one after the other: each its own, and none where it is
/// past the end.
pub proof fn law_positions_present_their_entries<V>(
    entries: Seq<(Seq<char>, V)>,
    x: Seq<u32>,
    y: Seq<u32>,
    i: u32,
)
    ensures
        displayed(entries, None) == entries,
        displayed(entries, Some(Seq::empty())) == Seq::<(Seq<char>, V)>::empty(),
        i < entries.len() ==> displayed(entries, Some(seq![i])) == seq![entries[i as int]],
        i >= entries.len() ==> displayed(entries, Some(seq![i])).len() == 0,
        displayed(entries, Some(x + y)) == displayed(entries, Some(x)) + displayed(
            entries,
            Some(y),
        ),
    decreases y.len(),
{
    let none = Seq::<u32>::empty();
    assert(picked(entries, none) =~= Seq::empty());
    lemma_picked_push(entries, none, i);
    assert(none.push(i) =~= seq![i]);
    assert(picked(entries, none).push(entries[i as int]) =~= seq![entries[i as int]]);
    if y.len() == 0 {
        assert(x + y =~= x);
        assert(y =~= none);
        assert(picked(entries, x) + picked(entries, y) =~= picked(entries, x));
    } else {
        let y1 = y.drop_last();
        law_positions_present_their_entries(entries, x, y1, i);
        lemma_picked_push(entries, x + y1, y.last());
        lemma_picked_push(entries, y1, y.last());
        assert((x + y1).push(y.last()) =~= x + y);
        assert(y1.push(y.last()) =~= y);
        assert(picked(entries, x + y) =~= picked(entries, x) + picked(entries, y));
    }
}

/// Positions that the order does not mention.
pub open spec fn unseen(order: Seq<u32>, positions: Seq<u32>) -> Seq<u32> {
    positions.filter(|i: u32| !mentions(order, i as int))
}

/// Entries that are given away are given once: what was mentioned before is passed over, and
/// everything else comes as it is presented.
pub proof fn law_entries_are_given_once<V>(
    entries: Seq<(Seq<char>, V)>,
    x: Seq<u32>,
    y: Seq<u32>,
    i: u32,
)
    ensures
        taken(entries, Seq::empty()) == Seq::<(Seq<char>, V)>::empty(),
        i < entries.len() ==> taken(entries, seq![i]) == seq![entries[i as int]],
        i >= entries.len() ==> taken(entries, seq![i]).len() == 0,
        taken(entries, x + y) == taken(entries, x) + taken(entries, unseen(x, y)),
    decreases y.len(),
{
    reveal(Seq::filter);
    let none = Seq::<u32>::empty();
    lemma_taken_push(entries, none, i);
    assert(none.push(i) =~= seq![i]);
    assert(taken(entries, none).push(entries[i as int]) =~= seq![entries[i as int]]);
    if y.len() == 0 {
        assert(x + y =~= x);
        assert(unseen(x, y) =~= none);
        assert(taken(entries, x) + taken(entries, none) =~= taken(entries, x));
    } else {
        let y1 = y.drop_last();
        let z = y.last();
        let u1 = unseen(x, y1);
        law_entries_are_given_once(entries, x, y1, i);
        lemma_taken_push(entries, x + y1, z);
        lemma_taken_push(entries, u1, z);
        assert((x + y1).push(z) =~= x + y);
        lemma_mentions_join(x, y1, z as int);
        lemma_mentions_unseen(x, y1, z);
        if mentions(x, z as int) {
            assert(unseen(x, y) =~= u1);
        } else {
            assert(unseen(x, y) =~= u1.push(z));
        }
        assert(taken(entries, x + y) =~= taken(entries, x) + taken(entries, unseen(x, y)));
    }
}

/// Joined orders mention what one of them does.
proof fn lemma_mentions_join(x: Seq<u32>, y: Seq<u32>, j: int)
    ensures
        mentions(x + y, j) <==> mentions(x, j) || mentions(y, j),
{
    let all = x + y;
    if mentions(x, j) {
        let p = choose|p: int| 0 <= p < x.len() && #[trigger] x[p] == j;
        assert(all[p] == j);
    }
    if mentions(y, j) {
        let p = choose|p: int| 0 <= p < y.len() && #[trigger] y[p] == j;
        assert(all[x.len() + p] == j);
    }
    if mentions(all, j) {
        let p = choose|p: int| 0 <= p < all.len() && #[trigger] all[p] == j;
        if p < x.len() {
            assert(x[p] == j);
        } else {
            assert(y[p - x.len()] == j);
        }
    }
}

/// What is left unseen is mentioned as before.
proof fn lemma_mentions_unseen(x: Seq<u32>, y: Seq<u32>, z: u32)
    ensures
        !mentions(x, z as int) ==> (mentions(unseen(x, y), z as int) <==> mentions(y, z as int)),
    decreases y.len(),
{
    reveal(Seq::filter);
    if y.len() > 0 {
        let y1 = y.drop_last();
        lemma_mentions_unseen(x, y1, z);
        assert(y1.push(y.last()) =~= y);
        lemma_mentions_push(y1, y.last());
        lemma_mentions_push(unseen(x, y1), y.last());
    }
}

/// Without a presentation order, entries stay sorted as others come and go.
pub proof fn law_sorted_presentation_stays<V>(
    entries: Seq<(Seq<char>, V)>,
    at: int,
    entry: (Seq<char>, V),
)
    ensures
        displayed(entries.insert(at, entry), order_with(None, at, entries.len())) == entries.insert(
            at,
            entry,
        ),
        displayed(entries.remove(at), order_without(None, at, entries.len())) == entries.remove(at),
{
}

/// The positions that were set are the presentation order where there are as many entries as they
/// speak of; otherwise there is none.
pub proof fn law_order_counts_for_its_entries<V>(stored: Object<V>, client: PublicObject<V>)
    ensures
        stored.span() == stored@.len() ==> stored.order() == stored.positions(),
        stored.span() != stored@.len() ==> stored.order() is None,
        stored.plain() ==> displayed(stored@, stored.order()) == stored@,
        client.span() == client@.len() ==> client.order() == client.positions(),
        client.span() != client@.len() ==> client.order() is None,
        client.plain() ==> displayed(client@, client.order()) == client@,
{
}

/// Objects of either side, and their maps, are equal and compare partially as their sorted
/// entries, and as nothing else.
pub proof fn law_objects_compare_as_their_entries<V: PartialOrd>(
    stored: (Object<V>, Object<V>),
    client: (PublicObject<V>, PublicObject<V>),
    object_maps: (ObjectMap<V>, ObjectMap<V>),
    maps: (VecMap<V>, VecMap<V>),
)
    ensures
        stored.0.eq_spec(&stored.1) == entries_eq(stored.0@, stored.1@),
        client.0.eq_spec(&client.1) == entries_eq(client.0@, client.1@),
        object_maps.0.eq_spec(&object_maps.1) == entries_eq(object_maps.0@, object_maps.1@),
        maps.0.eq_spec(&maps.1) == entries_eq(maps.0@, maps.1@),
        stored.0.partial_cmp_spec(&stored.1) == entries_partial_order(stored.0@, stored.1@),
        client.0.partial_cmp_spec(&client.1) == entries_partial_order(client.0@, client.1@),
        object_maps.0.partial_cmp_spec(&object_maps.1) == entries_partial_order(
            object_maps.0@,
            object_maps.1@,
        ),
        maps.0.partial_cmp_spec(&maps.1) == entries_partial_order(maps.0@, maps.1@),
        V::obeys_eq_spec() ==> {
            &&& Object::<V>::obeys_eq_spec()
            &&& PublicObject::<V>::obeys_eq_spec()
            &&& ObjectMap::<V>::obeys_eq_spec()
            &&& VecMap::<V>::obeys_eq_spec()
        },
        V::obeys_partial_cmp_spec() ==> {
            &&& Object::<V>::obeys_partial_cmp_spec()
            &&& PublicObject::<V>::obeys_partial_cmp_spec()
            &&& ObjectMap::<V>::obeys_partial_cmp_spec()
            &&& VecMap::<V>::obeys_partial_cmp_spec()
        },
{
}

/// An object of a map holds its entries and has no presentation order.
pub proof fn law_object_of_map<V>(object_map: ObjectMap<V>, map: VecMap<V>)
    ensures
        Object::<V>::from_spec(object_map)@ == object_map@,
        Object::<V>::from_spec(object_map).plain(),
        Object::<V>::from_spec(map)@ == map@,
        Object::<V>::from_spec(map).plain(),
        <Object<V> as FromSpec<ObjectMap<V>>>::obeys_from_spec(),
        <Object<V> as FromSpec<VecMap<V>>>::obeys_from_spec(),
{
}

/// A value of a number or of a string is that number or that string.
pub proof fn law_value_of_number_or_string(number: i64, string: String)
    ensures
        Value::from_spec(number) == Value::Number(number),
        Value::from_spec(string) == Value::Strand(string),
        <Value as FromSpec<i64>>::obeys_from_spec(),
        <Value as FromSpec<String>>::obeys_from_spec(),
{
}

} // verus!
