//! Laws of the operations on objects: what comes of a call, and of one call after another.
use core::cmp::Ordering;
use core::ops::Add;
use vstd::prelude::*;
use vstd::std_specs::cmp::{OrdSpec, PartialEqSpec};
use vstd::std_specs::iter::IteratorSpec;

use crate::collections::entries::{
    entries_of, entries_of_refs, has_key, key_lt, key_position, lemma_merged, lemma_update_at,
    lookup, sorted_by_key,
};
use crate::collections::laws::{
    law_equal_maps_agree_on_keys, law_first_differing_entry_decides, law_last_entry_stands,
    law_no_entry_no_value,
};
use crate::types::object::Object as PublicObject;
use crate::val::display::{displayed, is_order};
use crate::val::object::{Entry, Object, ObjectEntry};
use crate::val::object_laws::{
    distinct_written, keys_of, law_display_follows_written_order, law_insert_presents_last,
    law_owned_display_is_display, law_permutation_presents_all, law_remove_keeps_presentation,
};
use crate::val::presentation_laws::{any_written, law_written_keys_set_an_order};
use crate::val::value::{RecordId, Value};

verus! {

/// What is put in is found afterwards under its key, and nothing else changes; what was there
/// before is given back.
pub proof fn law_inserted_value_is_found<V>(
    object: &mut Object<V>,
    key: &str,
    value: V,
    replaced: Option<V>,
    other: &str,
    found: Option<&V>,
    found_before: Option<&V>,
)
    requires
        object.wf(),
        call_ensures(Object::<V>::insert, (object, key, value), replaced),
        call_ensures(Object::<V>::get, (&*object, other), found_before),
        call_ensures(Object::<V>::get, (&*final(object), other), found),
    ensures
        final(object).wf(),
        other@ == key@ ==> found == Some(&value),
        other@ != key@ ==> found == found_before,
        other@ == key@ ==> (replaced is Some <==> found_before is Some),
        other@ == key@ && replaced is Some ==> found_before == Some(&replaced->0),
        has_key(old(object)@, key@) ==> final(object)@.len() == old(object)@.len(),
        !has_key(old(object)@, key@) ==> final(object)@.len() == old(object)@.len() + 1,
{
}

/// What is taken out is given back and is not found afterwards, and nothing else changes.
pub proof fn law_removed_value_is_not_found<V>(
    object: &mut Object<V>,
    key: &str,
    removed: Option<V>,
    other: &str,
    found: Option<&V>,
    found_before: Option<&V>,
)
    requires
        object.wf(),
        call_ensures(Object::<V>::remove, (object, key), removed),
        call_ensures(Object::<V>::get, (&*object, other), found_before),
        call_ensures(Object::<V>::get, (&*final(object), other), found),
    ensures
        final(object).wf(),
        other@ == key@ ==> found is None,
        other@ != key@ ==> found == found_before,
        other@ == key@ ==> (removed is Some <==> found_before is Some),
        other@ == key@ && removed is Some ==> found_before == Some(&removed->0),
        has_key(old(object)@, key@) ==> final(object)@.len() == old(object)@.len() - 1,
        !has_key(old(object)@, key@) ==> final(object)@ == old(object)@,
{
}

/// A key is there exactly where it is mapped to a value.
pub proof fn law_contained_key_has_a_value<V>(
    object: Object<V>,
    key: &str,
    contained: bool,
    found: Option<&V>,
)
    requires
        call_ensures(Object::<V>::contains_key, (&object, key), contained),
        call_ensures(Object::<V>::get, (&object, key), found),
    ensures
        contained <==> found is Some,
        found is Some ==> object@.contains((key@, *found->0)),
{
    if has_key(object@, key@) {
        let i = key_position(object@, key@);
        assert(object@[i].0 == key@);
        assert(object@[i] == (key@, *found->0));
    }
}

/// A new entry is presented last, behind all others as they were presented; one whose key is
/// there keeps its place.
pub proof fn law_inserted_entry_is_presented<V>(
    object: &mut Object<V>,
    key: &str,
    value: V,
    replaced: Option<V>,
)
    requires
        object.wf(),
        object@.len() <= u32::MAX,
        call_ensures(Object::<V>::insert, (object, key, value), replaced),
    ensures
        ({
            let before = displayed(old(object)@, old(object).order());
            let after = displayed(final(object)@, final(object).order());
            &&& !has_key(old(object)@, key@) && old(object).order() is Some ==> after == before.push(
                (key@, value),
            )
            &&& old(object).order() is None ==> after == final(object)@
            &&& has_key(old(object)@, key@) ==> final(object).order() == old(object).order()
        }),
{
    if !has_key(object@, key@) && object.order() is Some {
        let at = key_position(final(object)@, key@);
        law_insert_presents_last(object@, object.order()->0, at, (key@, value));
    }
}

/// Once an entry is taken out, the others are presented as they were.
pub proof fn law_removed_entry_is_not_presented<V>(
    object: &mut Object<V>,
    key: &str,
    removed: Option<V>,
)
    requires
        object.wf(),
        call_ensures(Object::<V>::remove, (object, key), removed),
    ensures
        ({
            let before = displayed(old(object)@, old(object).order());
            let after = displayed(final(object)@, final(object).order());
            &&& has_key(old(object)@, key@) && old(object).order() is Some ==> after == before.filter(
                |e: (Seq<char>, V)| e.0 != key@,
            )
            &&& old(object).order() is None ==> after == final(object)@
            &&& !has_key(old(object)@, key@) ==> after == before
        }),
{
    if has_key(object@, key@) && object.order() is Some {
        let at = key_position(object@, key@);
        assert(object@[at].0 == key@);
        law_remove_keeps_presentation(object@, object.order()->0, at);
        let keep = |e: (Seq<char>, V)| e.0 != object@[at].0;
        assert(keep =~= |e: (Seq<char>, V)| e.0 != key@);
    }
}

/// Once keys are written, the object is presented with those of them that are there first, each
/// at its first mention, and then with all others in sorted order; where none of them is there,
/// it is presented sorted. What it holds stays.
pub proof fn law_written_keys_are_presented<'a, V, I: Iterator<Item = &'a str>>(
    object: &mut Object<V>,
    written_keys: I,
    shown: Vec<(&String, &V)>,
)
    requires
        object.wf(),
        object@.len() <= 0x1_0000_0000,
        call_ensures(Object::<V>::set_written_order::<I>, (object, written_keys), ()),
        call_ensures(Object::<V>::iter_display, (&*final(object),), shown),
    ensures
        final(object)@ == old(object)@,
        is_order(final(object).order(), old(object)@.len()),
        ({
            let keys = keys_of(entries_of_refs(shown@));
            let first = distinct_written(old(object)@, written_keys.remaining());
            &&& keys.len() == old(object)@.len()
            &&& any_written(old(object)@, written_keys.remaining()) ==> {
                &&& first.len() <= keys.len()
                &&& keys.take(first.len() as int) == first
                &&& forall|a: int, b: int|
                    first.len() <= a < b < keys.len() ==> key_lt(
                        #[trigger] keys[a],
                        #[trigger] keys[b],
                    )
            }
            &&& !any_written(old(object)@, written_keys.remaining()) ==> entries_of_refs(shown@)
                == old(object)@
        }),
{
    let written = written_keys.remaining();
    law_written_keys_set_an_order(object@, written);
    if any_written(object@, written) {
        law_display_follows_written_order(object@, written);
    }
}

/// The union of two objects has the keys of both; where both have one, it has the value of the
/// second. It is presented sorted.
pub proof fn law_union_prefers_the_second<V>(
    a: Object<V>,
    b: Object<V>,
    union: Object<V>,
    key: Seq<char>,
)
    requires
        a.wf(),
        b.wf(),
        call_ensures(<Object<V> as Add>::add, (a, b), union),
    ensures
        union.wf(),
        has_key(b@, key) ==> lookup(union@, key) == lookup(b@, key),
        !has_key(b@, key) ==> lookup(union@, key) == lookup(a@, key),
        displayed(union@, union.order()) == union@,
{
    lemma_merged(a@, b@);
}

/// An object of entries maps every key to the last of the values given to it, and has no other
/// keys. It is presented sorted.
pub proof fn law_object_of_entries<V>(entries: Vec<(String, V)>, object: Object<V>, i: int)
    requires
        call_ensures(<Object<V> as From<Vec<(String, V)>>>::from, (entries,), object),
        0 <= i < entries@.len(),
        forall|j: int| i < j < entries@.len() ==> (#[trigger] entries@[j]).0@ != entries@[i].0@,
    ensures
        object.wf(),
        lookup(object@, entries@[i].0@) == Some(entries@[i].1),
        forall|key: Seq<char>|
            (forall|j: int| 0 <= j < entries@.len() ==> (#[trigger] entries@[j]).0@ != key)
                ==> #[trigger] lookup(object@, key) is None,
        displayed(object@, object.order()) == object@,
{
    let given = entries_of(entries@);
    law_last_entry_stands(given, entries@[i].0@, i);
    assert forall|key: Seq<char>|
        (forall|j: int| 0 <= j < entries@.len() ==> (#[trigger] entries@[j]).0@ != key)
            implies #[trigger] lookup(object@, key) is None by {
        assert forall|j: int| 0 <= j < given.len() implies (#[trigger] given[j]).0 != key by {
            assert(entries@[j].0@ != key);
        }
        law_no_entry_no_value(given, key);
    }
}

/// Objects are equal exactly where they have as many entries and map every key to equal values,
/// however they are presented.
pub proof fn law_equal_objects_agree_on_keys<V: PartialEq>(
    a: Object<V>,
    b: Object<V>,
    equal: bool,
)
    requires
        V::obeys_eq_spec(),
        a.wf(),
        b.wf(),
        call_ensures(<Object<V> as PartialEq>::eq, (&a, &b), equal),
    ensures
        equal <==> {
            &&& a@.len() == b@.len()
            &&& forall|k: Seq<char>|
                has_key(a@, k) ==> has_key(b@, k) && (#[trigger] lookup(a@, k))->0.eq_spec(
                    &lookup(b@, k)->0,
                )
        },
{
    law_equal_maps_agree_on_keys(a@, b@);
}

/// Objects compare as the first entries, in the order of their keys, in which they differ.
pub proof fn law_objects_compare_by_first_difference<V: Ord>(
    a: Object<V>,
    b: Object<V>,
    order: Ordering,
    i: int,
)
    requires
        V::obeys_cmp_spec(),
        call_ensures(Object::<V>::cmp, (&a, &b), order),
        0 <= i <= a@.len(),
        i <= b@.len(),
        forall|j: int|
            0 <= j < i ==> (#[trigger] a@[j]).0 == b@[j].0 && a@[j].1.cmp_spec(&b@[j].1)
                == Ordering::Equal,
    ensures
        i < a@.len() && i < b@.len() ==> {
            &&& key_lt(a@[i].0, b@[i].0) ==> order == Ordering::Less
            &&& key_lt(b@[i].0, a@[i].0) ==> order == Ordering::Greater
            &&& a@[i].0 == b@[i].0 && a@[i].1.cmp_spec(&b@[i].1) != Ordering::Equal ==> order
                == a@[i].1.cmp_spec(&b@[i].1)
        },
        i == a@.len() && i < b@.len() ==> order == Ordering::Less,
        i < a@.len() && i == b@.len() ==> order == Ordering::Greater,
        i == a@.len() && i == b@.len() ==> order == Ordering::Equal,
{
    law_first_differing_entry_decides(a@, b@, i);
}

/// The record id of an object is what stands under `id`, where that is one.
pub proof fn law_record_id_stands_under_id(object: Object<Value>, id: Option<RecordId>)
    requires
        call_ensures(Object::<Value>::rid, (&object,), id),
    ensures
        id is Some <==> lookup(object@, "id"@) matches Some(Value::RecordId(_)),
        id is Some ==> lookup(object@, "id"@) == Some(Value::RecordId(id->0)),
{
}

/// What a client puts in is given back by what it then gives up: under its key, last where the
/// key is new and an order is set, and with everything else as it was.
pub proof fn law_client_insert_is_presented<V>(
    object: &mut PublicObject<V>,
    key: &str,
    value: V,
    replaced: Option<V>,
    shown: Vec<(&String, &V)>,
)
    requires
        object.wf(),
        object@.len() <= u32::MAX,
        call_ensures(PublicObject::<V>::insert, (object, key, value), replaced),
        call_ensures(PublicObject::<V>::iter_display, (&*final(object),), shown),
    ensures
        final(object).wf(),
        replaced == lookup(old(object)@, key@),
        lookup(final(object)@, key@) == Some(value),
        forall|k: Seq<char>|
            k != key@ ==> #[trigger] lookup(final(object)@, k) == lookup(old(object)@, k),
        !has_key(old(object)@, key@) && old(object).order() is Some ==> entries_of_refs(shown@) == displayed(
            old(object)@,
            old(object).order(),
        ).push((key@, value)),
        old(object).order() is None ==> entries_of_refs(shown@) == final(object)@,
        has_key(old(object)@, key@) ==> final(object).order() == old(object).order(),
{
    if !has_key(object@, key@) && object.order() is Some {
        let at = key_position(final(object)@, key@);
        law_insert_presents_last(object@, object.order()->0, at, (key@, value));
    }
}

/// By a permutation, a client object is presented with the entry of every position in its turn,
/// looked at or given up alike.
pub proof fn law_client_order_presents_entries<V>(
    object: &mut PublicObject<V>,
    order: Vec<u32>,
    shown: Vec<(&String, &V)>,
    given: Vec<(String, V)>,
    i: int,
)
    requires
        is_order(Some(order@), object@.len()),
        call_ensures(PublicObject::<V>::set_display_order, (object, Some(order)), ()),
        call_ensures(PublicObject::<V>::iter_display, (&*final(object),), shown),
        call_ensures(PublicObject::<V>::into_iter_display, (*final(object),), given),
        0 <= i < object@.len(),
    ensures
        final(object)@ == old(object)@,
        shown@.len() == old(object)@.len(),
        entries_of_refs(shown@)[i] == old(object)@[order@[i] as int],
        entries_of(given@) == entries_of_refs(shown@),
{
    law_permutation_presents_all(object@, order@);
    law_owned_display_is_display(object@, order@);
    assert(shown@.len() == entries_of_refs(shown@).len());
}

/// Without an order, a client object is presented sorted, looked at or given up alike.
pub proof fn law_client_without_order_is_sorted<V>(
    object: PublicObject<V>,
    shown: Vec<(&String, &V)>,
    given: Vec<(String, V)>,
)
    requires
        object.wf(),
        object.plain(),
        call_ensures(PublicObject::<V>::iter_display, (&object,), shown),
        call_ensures(PublicObject::<V>::into_iter_display, (object,), given),
    ensures
        sorted_by_key(entries_of_refs(shown@)),
        entries_of_refs(shown@) == object@,
        entries_of(given@) == object@,
{
}

/// A value that is written in the place of a key is found there; a place that was filled keeps
/// what was in it until then, and one that was not is filled with what is given. Nothing else
/// changes.
pub proof fn law_entry_is_filled<'a, V>(
    object: &mut Object<V>,
    key: &str,
    value: V,
    entry: Entry<'a, V>,
    place: &'a mut V,
)
    requires
        object.wf(),
        call_ensures(Object::<V>::entry, (object, key), entry),
        call_ensures(Entry::<'a, V>::or_insert, (entry, value), place),
    ensures
        has_key(old(object)@, key@) ==> Some(*old(place)) == lookup(old(object)@, key@),
        !has_key(old(object)@, key@) ==> *old(place) == value,
        lookup(final(object)@, key@) == Some(*final(place)),
        forall|k: Seq<char>|
            k != key@ ==> #[trigger] lookup(final(object)@, k) == lookup(old(object)@, k),
        final(object).wf(),
        old(object).ordered() ==> final(object).ordered(),
{
}

/// A value that is looked at for mutation is that under the key, and what is written there is
/// found there; nothing else changes, the presentation included.
pub proof fn law_value_is_mutated_in_place<V>(
    object: &mut Object<V>,
    key: &str,
    place: Option<&mut V>,
    other: Seq<char>,
)
    requires
        object.wf(),
        call_ensures(Object::<V>::get_mut, (object, key), place),
    ensures
        final(object).order() == old(object).order(),
        place is Some <==> has_key(old(object)@, key@),
        place is Some ==> {
            &&& lookup(old(object)@, key@) == Some(*place->0)
            &&& lookup(final(object)@, key@) == Some(*final(place->0))
            &&& other != key@ ==> lookup(final(object)@, other) == lookup(old(object)@, other)
        },
        place is None ==> final(object)@ == old(object)@,
{
    if place is Some {
        let i = key_position(object@, key@);
        assert(object@[i].0 == key@);
        lemma_update_at(object@, i, *final(place->0));
    }
}

/// An object given up for the fields of a literal gives every entry, in the order of the keys.
pub proof fn law_literal_has_every_entry<V, L: From<V>>(
    object: Object<V>,
    fields: Vec<ObjectEntry<L>>,
    i: int,
)
    requires
        call_ensures(Object::<V>::into_literal::<L>, (object,), fields),
        0 <= i < object@.len(),
    ensures
        fields@.len() == object@.len(),
        fields@[i].key@ == object@[i].0,
        call_ensures(L::from, (object@[i].1,), fields@[i].value),
{
}

/// What is carried over to a client has the same keys, their values as they convert, and is
/// presented in the same order.
pub proof fn law_client_object_is_carried_over<V, P: TryFrom<V>>(
    stored: Object<V>,
    carried: Result<PublicObject<P>, P::Error>,
    i: int,
)
    requires
        call_ensures(<PublicObject<P> as TryFrom<Object<V>>>::try_from, (stored,), carried),
        0 <= i < stored@.len(),
    ensures
        carried is Ok ==> {
            &&& carried->Ok_0@.len() == stored@.len()
            &&& carried->Ok_0@[i].0 == stored@[i].0
            &&& call_ensures(P::try_from, (stored@[i].1,), Ok(carried->Ok_0@[i].1))
            &&& carried->Ok_0.order() == stored.order()
        },
        (forall|j: int, e: P::Error|
            0 <= j < stored@.len() ==> !#[trigger] call_ensures(
                P::try_from,
                (stored@[j].1,),
                Err(e),
            )) ==> carried is Ok,
        (forall|p: P| !#[trigger] call_ensures(P::try_from, (stored@[i].1,), Ok(p))) ==> carried
            is Err,
{
    if carried is Ok {
        assert(carried->Ok_0@[i].0 == stored@[i].0);
    }
}

/// What is taken over from a client has the same keys and their values as they convert, and is
/// presented sorted.
pub proof fn law_stored_object_is_taken_over<P, V: From<P>>(
    client: PublicObject<P>,
    stored: Object<V>,
    i: int,
)
    requires
        call_ensures(<Object<V> as From<PublicObject<P>>>::from, (client,), stored),
        0 <= i < client@.len(),
    ensures
        stored@.len() == client@.len(),
        stored@[i].0 == client@[i].0,
        call_ensures(V::from, (client@[i].1,), stored@[i].1),
        displayed(stored@, stored.order()) == stored@,
{
    assert(stored@[i].0 == client@[i].0);
}

/// An object of an optional one is that object, or an empty one.
pub proof fn law_object_of_optional<V>(optional: Option<Object<V>>, object: Object<V>)
    requires
        call_ensures(<Object<V> as From<Option<Object<V>>>>::from, (optional,), object),
    ensures
        optional is Some ==> object == optional->0,
        optional is None ==> object@.len() == 0,
{
}

} // verus!
