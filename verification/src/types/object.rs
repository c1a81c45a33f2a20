//! An object with key-value pairs, as clients see it.
use core::cmp::Ordering;
use core::ops::{Deref, DerefMut};
use vstd::prelude::*;
use vstd::std_specs::cmp::{OrdSpec, PartialEqSpec, PartialOrdSpec};
use vstd::std_specs::iter::IteratorSpec;

use crate::collections::compare::{entries_eq, entries_order, entries_partial_order};
use crate::collections::entries::{
    converts, entries_cloned, entries_of, entries_of_refs, has_key, key_position, last_value,
    lemma_position_unique, lookup, sorted_by_key,
};
use crate::collections::vec_map::VecMap;
use crate::val::display::{
    displayed, is_order, order_with, present, present_owned, taken, DisplayOrder,
};
use crate::val::object::Object as StoredObject;

verus! {

/// An object with key-value pairs.
///
/// Keys are stored canonically sorted. The second field is a presentation order, a permutation
/// of the sorted entries, used only for output: it is left out of equality and of hashing, so
/// two objects that differ only in display order remain equal.
#[derive(Debug, Hash)]
pub struct Object<V>(VecMap<V>, DisplayOrder);

impl<V> View for Object<V> {
    type V = Seq<(Seq<char>, V)>;

    closed spec fn view(&self) -> Seq<(Seq<char>, V)> {
        self.0@
    }
}

impl<V> Object<V> {
    /// The keys strictly ascend.
    pub open spec fn wf(&self) -> bool {
        sorted_by_key(self@)
    }

    /// No positions are set, or they are a permutation. So the presentation order, if there is
    /// one, is a permutation of the entries.
    pub open spec fn ordered(&self) -> bool {
        is_order(self.positions(), self.span())
    }

    /// No presentation order is set.
    pub open spec fn plain(&self) -> bool {
        self.positions() is None
    }

    /// The sorted map.
    pub closed spec fn map(&self) -> VecMap<V> {
        self.0
    }

    /// The positions that were set as the presentation order.
    pub closed spec fn positions(&self) -> Option<Seq<u32>> {
        self.1@
    }

    /// The number of entries that the positions speak of.
    pub closed spec fn span(&self) -> nat {
        self.1.span as nat
    }

    /// The presentation order: the positions, where they speak of as many entries as there are.
    pub open spec fn order(&self) -> Option<Seq<u32>> {
        if self.span() == self@.len() {
            self.positions()
        } else {
            None
        }
    }

    /// An empty object.
    pub fn new() -> (r: Self)
        ensures
            r.wf(),
            r@ == Seq::<(Seq<char>, V)>::empty(),
            r.plain(),
    {
        Object(VecMap::new(), DisplayOrder::none())
    }

    /// An object of entries in any order; of several entries for one key, the last stands.
    pub fn from_iter<I: Iterator<Item = (String, V)>>(entries: I) -> (r: Self)
        requires
            entries.obeys_prophetic_iter_laws(),
            entries.decrease() is Some,
        ensures
            r.wf(),
            r.plain(),
            forall|k: Seq<char>| #[trigger]
                lookup(r@, k) == last_value(entries_of(entries.remaining()), k),
    {
        Object(VecMap::from_iter(entries), DisplayOrder::none())
    }

    /// Maps `key` to `value`, and returns the value that it had. A new entry is presented last;
    /// the others keep their relative order.
    pub fn insert(&mut self, key: &str, value: V) -> (r: Option<V>)
        requires
            old(self).wf(),
        ensures
            final(self).wf(),
            old(self).ordered() ==> final(self).ordered(),
            r == lookup(old(self)@, key@),
            lookup(final(self)@, key@) == Some(value),
            forall|k: Seq<char>|
                k != key@ ==> #[trigger] lookup(final(self)@, k) == lookup(old(self)@, k),
            has_key(final(self)@, key@),
            0 <= key_position(final(self)@, key@) < final(self)@.len(),
            ({
                let at = key_position(final(self)@, key@);
                if has_key(old(self)@, key@) {
                    &&& final(self)@.len() == old(self)@.len()
                    &&& final(self)@ == old(self)@.update(at, (key@, value))
                    &&& final(self).positions() == old(self).positions()
                    &&& final(self).span() == old(self).span()
                    &&& final(self).order() == old(self).order()
                } else {
                    &&& final(self)@.len() == old(self)@.len() + 1
                    &&& final(self)@ == old(self)@.insert(at, (key@, value))
                    &&& final(self).span() == final(self)@.len()
                    &&& final(self).order() == order_with(old(self).order(), at, old(self)@.len())
                }
            }),
    {
        let replaced = self.0.insert(key.to_owned(), value);
        proof {
            if has_key(old(self)@, key@) {
                let i = key_position(old(self)@, key@);
                assert(0 <= i < old(self)@.len());
                lemma_position_unique(self@, i);
            }
        }
        if replaced.is_none() {
            let at: usize = self.0.index_of(key);
            let len = self.0.len();
            self.1.insert(at, len - 1);
        }
        replaced
    }

    /// The value under `key`, for mutation: what is written there takes its place, and nothing
    /// else changes.
    pub fn get_mut(&mut self, key: &str) -> (r: Option<&mut V>)
        requires
            old(self).wf(),
        ensures
            final(self).wf(),
            final(self).positions() == old(self).positions(),
            final(self).span() == old(self).span(),
            final(self).order() == old(self).order(),
            match r {
                Some(v) => {
                    &&& lookup(old(self)@, key@) == Some(*v)
                    &&& final(self)@ == old(self)@.update(
                        key_position(old(self)@, key@),
                        (key@, *final(v)),
                    )
                },
                None => lookup(old(self)@, key@) is None && final(self)@ == old(self)@,
            },
    {
        self.0.get_mut(key)
    }

    /// Gives up the object for its sorted map.
    pub fn into_inner(self) -> (r: VecMap<V>)
        ensures
            r == self.map(),
            r@ == self@,
    {
        self.0
    }

    /// Sets the presentation order: a permutation of the positions in the sorted entries.
    /// Affects only output, never comparison or hashing.
    pub fn set_display_order(&mut self, order: Option<Vec<u32>>)
        ensures
            final(self).map() == old(self).map(),
            final(self)@ == old(self)@,
            final(self).positions() == (match order {
                Some(order) => Some(order@),
                None => None,
            }),
            final(self).span() == final(self)@.len(),
            final(self).order() == final(self).positions(),
    {
        let span = self.0.len();
        self.1 = DisplayOrder { positions: order, span };
    }

    /// Gives up the object for its entries, in presentation order when one is set, otherwise
    /// sorted. An entry that the order mentions more than once comes once, at the first of its
    /// mentions.
    pub fn into_iter_display(self) -> (r: Vec<(String, V)>)
        ensures
            entries_of(r@) == (match self.order() {
                Some(order) => taken(self@, order),
                None => self@,
            }),
    {
        present_owned(self.0, self.1)
    }

    /// The entries in presentation order when one is set, otherwise sorted.
    pub fn iter_display(&self) -> (r: Vec<(&String, &V)>)
        ensures
            entries_of_refs(r@) == displayed(self@, self.order()),
    {
        present(&self.0, &self.1)
    }
}

impl<V: Clone> Clone for Object<V> {
    fn clone(&self) -> (r: Self)
        ensures
            self.wf() ==> r.wf(),
            entries_cloned(self@, r@),
            r.positions() == self.positions(),
            r.span() == self.span(),
    {
        Object(self.0.clone(), self.1.clone())
    }
}

impl<V> Default for Object<V> {
    fn default() -> (r: Self)
        ensures
            r.wf(),
            r@ == Seq::<(Seq<char>, V)>::empty(),
            r.plain(),
    {
        Object::new()
    }
}

impl<V> Deref for Object<V> {
    type Target = VecMap<V>;

    fn deref(&self) -> (r: &VecMap<V>)
        ensures
            *r == self.map(),
            r@ == self@,
    {
        &self.0
    }
}

impl<V> DerefMut for Object<V> {
    /// The sorted map, for mutation. The presentation order stays as it is; it counts while
    /// there are as many entries as it speaks of.
    fn deref_mut(&mut self) -> (r: &mut VecMap<V>)
        ensures
            *r == old(self).map(),
            r@ == old(self)@,
            final(self).map() == *final(r),
            final(self)@ == final(r)@,
            final(self).positions() == old(self).positions(),
            final(self).span() == old(self).span(),
            final(r)@.len() == old(self)@.len() ==> final(self).order() == old(self).order(),
            old(self).ordered() ==> final(self).ordered(),
    {
        &mut self.0
    }
}

impl<V> IntoIterator for Object<V> {
    type Item = (String, V);

    type IntoIter = std::vec::IntoIter<(String, V)>;

    fn into_iter(self) -> (r: std::vec::IntoIter<(String, V)>)
        ensures
            entries_of(r.remaining()) == self@,
            r.obeys_prophetic_iter_laws(),
            r.decrease() is Some,
    {
        self.0.into_entries().into_iter()
    }
}

impl<'a, V> IntoIterator for &'a Object<V> {
    type Item = (&'a String, &'a V);

    type IntoIter = std::vec::IntoIter<(&'a String, &'a V)>;

    /// The entries, in the order of their keys.
    fn into_iter(self) -> (r: std::vec::IntoIter<(&'a String, &'a V)>)
        ensures
            entries_of_refs(r.remaining()) == self@,
            r.obeys_prophetic_iter_laws(),
            r.decrease() is Some,
    {
        self.0.iter().into_iter()
    }
}

impl<'a, V> IntoIterator for &'a mut Object<V> {
    type Item = (&'a String, &'a mut V);

    type IntoIter = std::vec::IntoIter<(&'a String, &'a mut V)>;

    /// The entries, in the order of their keys, with the values for mutation: what is written
    /// there takes their place, and nothing else changes.
    fn into_iter(self) -> (r: std::vec::IntoIter<(&'a String, &'a mut V)>)
        ensures
            r.remaining().len() == old(self)@.len(),
            final(self)@.len() == old(self)@.len(),
            forall|i: int|
                #![trigger r.remaining()[i]]
                #![trigger final(self)@[i]]
                0 <= i < old(self)@.len() ==> {
                    &&& r.remaining()[i].0@ == old(self)@[i].0
                    &&& *r.remaining()[i].1 == old(self)@[i].1
                    &&& final(self)@[i] == (old(self)@[i].0, *final(r.remaining()[i].1))
                },
            final(self).positions() == old(self).positions(),
            final(self).span() == old(self).span(),
            final(self).order() == old(self).order(),
            old(self).wf() ==> final(self).wf(),
            r.obeys_prophetic_iter_laws(),
            r.decrease() is Some,
    {
        self.0.iter_mut().into_iter()
    }
}

impl<V: PartialEq> vstd::std_specs::cmp::PartialEqSpecImpl for Object<V> {
    open spec fn obeys_eq_spec() -> bool {
        V::obeys_eq_spec()
    }

    open spec fn eq_spec(&self, other: &Self) -> bool {
        entries_eq(self@, other@)
    }
}

impl<V: PartialEq> PartialEq for Object<V> {
    fn eq(&self, other: &Self) -> (r: bool) {
        self.0 == other.0
    }
}

impl<V: Eq> Eq for Object<V> {

}

impl<V: PartialOrd> vstd::std_specs::cmp::PartialOrdSpecImpl for Object<V> {
    open spec fn obeys_partial_cmp_spec() -> bool {
        V::obeys_partial_cmp_spec()
    }

    open spec fn partial_cmp_spec(&self, other: &Self) -> Option<Ordering> {
        entries_partial_order(self@, other@)
    }
}

impl<V: PartialOrd> PartialOrd for Object<V> {
    fn partial_cmp(&self, other: &Self) -> (r: Option<Ordering>) {
        self.0.partial_cmp(&other.0)
    }
}

impl<V: Ord> Object<V> {
    /// How this object compares with another: by the sorted entries alone.
    pub fn cmp(&self, other: &Self) -> (r: Ordering)
        ensures
            V::obeys_cmp_spec() ==> r == entries_order(self@, other@),
    {
        self.0.cmp(&other.0)
    }
}

impl<V> vstd::std_specs::convert::FromSpecImpl<Vec<(String, V)>> for Object<V> {
    open spec fn obeys_from_spec() -> bool {
        // The result is fixed by what it holds, which the function's own contract states.
        false
    }

    open spec fn from_spec(v: Vec<(String, V)>) -> Self {
        arbitrary()
    }
}

impl<V> From<Vec<(String, V)>> for Object<V> {
    /// An object of entries in any order; of several entries for one key, the last stands.
    fn from(v: Vec<(String, V)>) -> (r: Self)
        ensures
            r.wf(),
            r.plain(),
            forall|k: Seq<char>| #[trigger] lookup(r@, k) == last_value(entries_of(v@), k),
    {
        Object::from_iter(v.into_iter())
    }
}

impl<V, P: TryFrom<V>> vstd::std_specs::convert::TryFromSpecImpl<StoredObject<V>> for Object<P> {
    open spec fn obeys_try_from_spec() -> bool {
        // The result is fixed by what it holds, which the function's own contract states.
        false
    }

    open spec fn try_from_spec(v: StoredObject<V>) -> Result<Self, P::Error> {
        arbitrary()
    }
}

impl<V, P: TryFrom<V>> TryFrom<StoredObject<V>> for Object<P> {
    type Error = P::Error;

    /// Carries a stored object over to clients, with its presentation order: both sides sort
    /// the same keys identically, so the positions keep their meaning. The first value that
    /// does not convert ends it.
    fn try_from(v: StoredObject<V>) -> (r: Result<Self, P::Error>)
        ensures
            match r {
                Ok(o) => {
                    &&& v.wf() ==> o.wf()
                    &&& o.positions() == v.positions()
                    &&& o.span() == v.span()
                    &&& o.order() == v.order()
                    &&& o@.len() == v@.len()
                    &&& forall|i: int|
                        0 <= i < v@.len() ==> (#[trigger] o@[i]).0 == v@[i].0 && call_ensures(
                            P::try_from,
                            (v@[i].1,),
                            Ok(o@[i].1),
                        )
                },
                Err(e) => exists|i: int|
                    {
                        &&& 0 <= i < v@.len()
                        &&& call_ensures(P::try_from, ((#[trigger] v@[i]).1,), Err(e))
                        &&& forall|j: int|
                            0 <= j < i ==> converts::<V, P>((#[trigger] v@[j]).1)
                    },
            },
    {
        assert(v@ == v.0.0@);
        match v.0.0.try_convert() {
            Ok(map) => {
                let o = Object(map, v.1);
                assert(o@ == map@);
                Ok(o)
            },
            Err(e) => Err(e),
        }
    }
}

} // verus!
