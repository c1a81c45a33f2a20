//! An object value: a sorted map plus an optional presentation order used only for output.
use core::cmp::Ordering;
use core::ops::{Add, Deref, DerefMut};
use vstd::prelude::*;
use vstd::std_specs::cmp::{OrdSpec, PartialEqSpec, PartialOrdSpec};
use vstd::std_specs::iter::IteratorSpec;

use crate::collections::compare::{entries_eq, entries_order, entries_partial_order};
use crate::collections::entries::{
    entries_cloned, entries_of, entries_of_refs, has_key, key_position, last_value,
    lemma_position_unique, lemma_update_at, lookup, merged, sorted_by_key,
};
use crate::collections::vec_map::VecMap;
use crate::types::object::Object as PublicObject;
use crate::val::display::{
    displayed, is_order, lemma_mentions_permutation, lemma_mentions_push, mentions, order_with,
    order_without, present, DisplayOrder,
};

verus! {

/// Canonical, always-sorted object map. The presentation order lives on [`Object`], not here,
/// so storage and comparison are unaffected by it.
#[derive(Debug, Hash)]
pub struct ObjectMap<V>(pub VecMap<V>);

impl<V> View for ObjectMap<V> {
    type V = Seq<(Seq<char>, V)>;

    open spec fn view(&self) -> Seq<(Seq<char>, V)> {
        self.0@
    }
}

impl<V> ObjectMap<V> {
    /// The keys strictly ascend.
    pub open spec fn wf(&self) -> bool {
        self.0.wf()
    }
}

impl<V: Clone> Clone for ObjectMap<V> {
    fn clone(&self) -> (r: Self)
        ensures
            self.wf() ==> r.wf(),
            entries_cloned(self@, r@),
    {
        ObjectMap(self.0.clone())
    }
}

impl<V> Default for ObjectMap<V> {
    fn default() -> (r: Self)
        ensures
            r.wf(),
            r@ == Seq::<(Seq<char>, V)>::empty(),
    {
        ObjectMap(VecMap::new())
    }
}

impl<V> Deref for ObjectMap<V> {
    type Target = VecMap<V>;

    fn deref(&self) -> (r: &VecMap<V>)
        ensures
            *r == self.0,
    {
        &self.0
    }
}

impl<V> DerefMut for ObjectMap<V> {
    fn deref_mut(&mut self) -> (r: &mut VecMap<V>)
        ensures
            *r == old(self).0,
            final(self).0 == *final(r),
    {
        &mut self.0
    }
}

impl<V> IntoIterator for ObjectMap<V> {
    type Item = (String, V);

    type IntoIter = std::vec::IntoIter<(String, V)>;

    fn into_iter(self) -> (r: std::vec::IntoIter<(String, V)>)
        ensures
            entries_of(r.remaining()) == self@,
            r.obeys_prophetic_iter_laws(),
            r.decrease() is Some,
    {
        self.0.into_entries().into_iter()
    }
}

/// An object value: a canonical sorted map plus an optional presentation order used only for
/// output.
///
/// The order, when present, is a permutation of the positions of the sorted entries: the `i`-th
/// of them is the position of the `i`-th field in display order. It is left out of comparison,
/// of hashing and of every encoding.
#[derive(Debug, Hash)]
pub struct Object<V>(pub ObjectMap<V>, pub DisplayOrder);

impl<V> View for Object<V> {
    type V = Seq<(Seq<char>, V)>;

    open spec fn view(&self) -> Seq<(Seq<char>, V)> {
        self.0@
    }
}

impl<V: Clone> Clone for Object<V> {
    fn clone(&self) -> (r: Self)
        ensures
            self.wf() ==> r.wf(),
            entries_cloned(self@, r@),
            r.positions() == self.positions(),
            r.span() == self.span(),
    {
        Object(self.0.clone(), self.1.clone())
    }
}

impl<V> Default for Object<V> {
    fn default() -> (r: Self)
        ensures
            r.wf(),
            r@ == Seq::<(Seq<char>, V)>::empty(),
            r.plain(),
    {
        Object(ObjectMap::default(), DisplayOrder::none())
    }
}

impl<V> Deref for Object<V> {
    type Target = VecMap<V>;

    fn deref(&self) -> (r: &VecMap<V>)
        ensures
            *r == self.0.0,
    {
        &self.0.0
    }
}

impl<V> DerefMut for Object<V> {
    /// The sorted map, for mutation. The presentation order stays as it is; it counts while
    /// there are as many entries as it speaks of.
    fn deref_mut(&mut self) -> (r: &mut VecMap<V>)
        ensures
            *r == old(self).0.0,
            r@ == old(self)@,
            final(self).0.0 == *final(r),
            final(self)@ == final(r)@,
            final(self).positions() == old(self).positions(),
            final(self).span() == old(self).span(),
            final(r)@.len() == old(self)@.len() ==> final(self).order() == old(self).order(),
            old(self).ordered() ==> final(self).ordered(),
    {
        &mut self.0.0
    }
}

impl<V> IntoIterator for Object<V> {
    type Item = (String, V);

    type IntoIter = std::vec::IntoIter<(String, V)>;

    fn into_iter(self) -> (r: std::vec::IntoIter<(String, V)>)
        ensures
            entries_of(r.remaining()) == self@,
            r.obeys_prophetic_iter_laws(),
            r.decrease() is Some,
    {
        self.0.into_iter()
    }
}

/// The positions of the written keys that are there, each at its first mention.
pub open spec fn first_mentions<V>(entries: Seq<(Seq<char>, V)>, written: Seq<&str>) -> Seq<u32>
    decreases written.len(),
{
    if written.len() == 0 {
        Seq::empty()
    } else {
        let rest = first_mentions(entries, written.drop_last());
        let key = written.last()@;
        if has_key(entries, key) && !mentions(rest, key_position(entries, key)) {
            rest.push(key_position(entries, key) as u32)
        } else {
            rest
        }
    }
}

/// The positions below `n` that the order does not mention, ascending.
pub open spec fn unmentioned(order: Seq<u32>, n: nat) -> Seq<u32>
    decreases n,
{
    if n == 0 {
        Seq::empty()
    } else {
        let rest = unmentioned(order, (n - 1) as nat);
        if mentions(order, n - 1) {
            rest
        } else {
            rest.push((n - 1) as u32)
        }
    }
}

/// The presentation order that written keys give to sorted entries: the written keys that are
/// there, in the order of their first mentions, and then all other entries in sorted order.
/// Where no written key is there, there is no order. A position has 32 bits; where these cannot
/// tell the entries apart, there is none either.
pub open spec fn written_order<V>(entries: Seq<(Seq<char>, V)>, written: Seq<&str>) -> Option<
    Seq<u32>,
> {
    let first = first_mentions(entries, written);
    if first.len() == 0 || entries.len() > 0x1_0000_0000 {
        None
    } else {
        Some(first + unmentioned(first, entries.len()))
    }
}

/// The written keys take positions that are there, and none twice.
pub proof fn lemma_first_mentions<V>(entries: Seq<(Seq<char>, V)>, written: Seq<&str>)
    requires
        entries.len() <= 0x1_0000_0000,
    ensures
        first_mentions(entries, written).no_duplicates(),
        forall|j: int|
            0 <= j < first_mentions(entries, written).len() ==> #[trigger] first_mentions(
                entries,
                written,
            )[j] < entries.len(),
    decreases written.len(),
{
    if written.len() > 0 {
        let rest = first_mentions(entries, written.drop_last());
        let all = first_mentions(entries, written);
        lemma_first_mentions(entries, written.drop_last());
        let key = written.last()@;
        if has_key(entries, key) && !mentions(rest, key_position(entries, key)) {
            let i = key_position(entries, key);
            assert(0 <= i < entries.len());
            assert forall|a: int, b: int|
                0 <= a < all.len() && 0 <= b < all.len() && a != b implies all[a] != all[b] by {
                if a < rest.len() && b < rest.len() {
                    assert(rest[a] != rest[b]);
                } else if a < rest.len() {
                    assert(rest[a] != i);
                } else {
                    assert(rest[b] != i);
                }
            }
        }
    }
}

/// The positions that are not mentioned ascend and are in range, and with those that are
/// mentioned they are all.
pub proof fn lemma_unmentioned(order: Seq<u32>, n: nat)
    requires
        n <= 0x1_0000_0000,
    ensures
        forall|j: int|
            0 <= j < unmentioned(order, n).len() ==> {
                &&& #[trigger] unmentioned(order, n)[j] < n
                &&& !mentions(order, unmentioned(order, n)[j] as int)
            },
        forall|a: int, b: int|
            0 <= a < b < unmentioned(order, n).len() ==> #[trigger] unmentioned(order, n)[a]
                < #[trigger] unmentioned(order, n)[b],
        forall|i: int|
            0 <= i < n && !mentions(order, i) ==> #[trigger] mentions(unmentioned(order, n), i),
    decreases n,
{
    if n > 0 {
        let m = (n - 1) as nat;
        let rest = unmentioned(order, m);
        let all = unmentioned(order, n);
        lemma_unmentioned(order, m);
        assert forall|i: int| 0 <= i < n && !mentions(order, i) implies #[trigger] mentions(
            all,
            i,
        ) by {
            if i < m {
                assert(mentions(rest, i));
                let p = choose|p: int| 0 <= p < rest.len() && #[trigger] rest[p] == i;
                assert(all[p] == i);
            } else {
                assert(all[all.len() - 1] == i);
            }
        }
    }
}

/// A written order is a permutation of the positions.
pub proof fn lemma_written_order<V>(entries: Seq<(Seq<char>, V)>, written: Seq<&str>)
    ensures
        is_order(written_order(entries, written), entries.len()),
{
    if let Some(order) = written_order(entries, written) {
        let n = entries.len();
        let first = first_mentions(entries, written);
        let rest = unmentioned(first, n);
        lemma_first_mentions(entries, written);
        lemma_unmentioned(first, n);
        assert forall|a: int, b: int|
            0 <= a < order.len() && 0 <= b < order.len() && a != b implies order[a] != order[b] by {
            let m = first.len() as int;
            if a < m && b < m {
                assert(first[a] != first[b]);
            } else if a < m {
                assert(order[b] == rest[b - m]);
                assert(first[a] == order[a]);
            } else if b < m {
                assert(order[a] == rest[a - m]);
                assert(first[b] == order[b]);
            } else {
                assert(order[a] == rest[a - m] && order[b] == rest[b - m]);
                if a < b {
                    assert(rest[a - m] < rest[b - m]);
                } else {
                    assert(rest[b - m] < rest[a - m]);
                }
            }
        }
        assert forall|j: int| 0 <= j < order.len() implies #[trigger] order[j] < n by {
            if j < first.len() {
                assert(order[j] == first[j]);
            } else {
                assert(order[j] == rest[j - first.len()]);
            }
        }
        assert forall|i: int| 0 <= i < n implies #[trigger] mentions(order, i) by {
            if mentions(first, i) {
                let p = choose|p: int| 0 <= p < first.len() && #[trigger] first[p] == i;
                assert(order[p] == i);
            } else {
                assert(mentions(rest, i));
                let p = choose|p: int| 0 <= p < rest.len() && #[trigger] rest[p] == i;
                assert(order[first.len() + p] == i);
            }
        }
        lemma_mentions_permutation(order, n);
    }
}

/// A field of an object literal.
#[derive(Clone, Debug)]
pub struct ObjectEntry<L> {
    pub key: String,
    pub value: L,
}

impl<V> Object<V> {
    /// The keys strictly ascend.
    pub open spec fn wf(&self) -> bool {
        self.0.wf()
    }

    /// The positions that were set as the presentation order.
    pub open spec fn positions(&self) -> Option<Seq<u32>> {
        self.1@
    }

    /// The number of entries that the positions speak of.
    pub open spec fn span(&self) -> nat {
        self.1.span as nat
    }

    /// The presentation order: the positions, where they speak of as many entries as there are.
    pub open spec fn order(&self) -> Option<Seq<u32>> {
        if self.span() == self@.len() {
            self.positions()
        } else {
            None
        }
    }

    /// No positions are set, or they are a permutation. So the presentation order, if there is
    /// one, is a permutation of the entries.
    pub open spec fn ordered(&self) -> bool {
        is_order(self.positions(), self.span())
    }

    /// No presentation order is set.
    pub open spec fn plain(&self) -> bool {
        self.positions() is None
    }

    /// An object of entries in any order; of several entries for one key, the last stands.
    pub fn from_iter<I: Iterator<Item = (String, V)>>(entries: I) -> (r: Self)
        requires
            entries.obeys_prophetic_iter_laws(),
            entries.decrease() is Some,
        ensures
            r.wf(),
            r.plain(),
            forall|k: Seq<char>| #[trigger]
                lookup(r@, k) == last_value(entries_of(entries.remaining()), k),
    {
        Object(ObjectMap(VecMap::from_iter(entries)), DisplayOrder::none())
    }

    /// Maps `key` to `value`, and returns the value that it had. A new entry is presented last;
    /// the others keep their relative order.
    pub fn insert(&mut self, key: &str, value: V) -> (r: Option<V>)
        requires
            old(self).wf(),
        ensures
            final(self).wf(),
            old(self).ordered() ==> final(self).ordered(),
            r == lookup(old(self)@, key@),
            lookup(final(self)@, key@) == Some(value),
            forall|k: Seq<char>|
                k != key@ ==> #[trigger] lookup(final(self)@, k) == lookup(old(self)@, k),
            has_key(final(self)@, key@),
            0 <= key_position(final(self)@, key@) < final(self)@.len(),
            ({
                let at = key_position(final(self)@, key@);
                if has_key(old(self)@, key@) {
                    &&& final(self)@.len() == old(self)@.len()
                    &&& final(self)@ == old(self)@.update(at, (key@, value))
                    &&& final(self).positions() == old(self).positions()
                    &&& final(self).span() == old(self).span()
                    &&& final(self).order() == old(self).order()
                } else {
                    &&& final(self)@.len() == old(self)@.len() + 1
                    &&& final(self)@ == old(self)@.insert(at, (key@, value))
                    &&& final(self).span() == final(self)@.len()
                    &&& final(self).order() == order_with(old(self).order(), at, old(self)@.len())
                }
            }),
    {
        let replaced = self.0.0.insert(key.to_owned(), value);
        proof {
            if has_key(old(self)@, key@) {
                let i = key_position(old(self)@, key@);
                assert(0 <= i < old(self)@.len());
                lemma_position_unique(self@, i);
            }
        }
        if replaced.is_none() {
            let at: usize = self.0.0.index_of(key);
            let len = self.0.0.len();
            self.1.insert(at, len - 1);
        }
        replaced
    }

    /// The value under `key`.
    pub fn get(&self, key: &str) -> (r: Option<&V>)
        requires
            self.wf(),
        ensures
            r == (match lookup(self@, key@) {
                Some(v) => Some(&v),
                None => None,
            }),
    {
        self.0.0.get(key)
    }

    /// The value under `key`, for mutation: what is written there takes its place, and nothing
    /// else changes.
    pub fn get_mut(&mut self, key: &str) -> (r: Option<&mut V>)
        requires
            old(self).wf(),
        ensures
            final(self).wf(),
            final(self).positions() == old(self).positions(),
            final(self).span() == old(self).span(),
            final(self).order() == old(self).order(),
            match r {
                Some(v) => {
                    &&& lookup(old(self)@, key@) == Some(*v)
                    &&& final(self)@ == old(self)@.update(
                        key_position(old(self)@, key@),
                        (key@, *final(v)),
                    )
                },
                None => lookup(old(self)@, key@) is None && final(self)@ == old(self)@,
            },
    {
        self.0.0.get_mut(key)
    }

    /// Whether there is a value under `key`.
    pub fn contains_key(&self, key: &str) -> (b: bool)
        requires
            self.wf(),
        ensures
            b == has_key(self@, key@),
    {
        self.0.0.contains_key(key)
    }

    /// Takes out and returns the value under `key`. The other entries keep their relative order.
    pub fn remove(&mut self, key: &str) -> (r: Option<V>)
        requires
            old(self).wf(),
        ensures
            final(self).wf(),
            old(self).ordered() ==> final(self).ordered(),
            r == lookup(old(self)@, key@),
            lookup(final(self)@, key@) is None,
            forall|k: Seq<char>|
                k != key@ ==> #[trigger] lookup(final(self)@, k) == lookup(old(self)@, k),
            ({
                let at = key_position(old(self)@, key@);
                if has_key(old(self)@, key@) {
                    &&& final(self)@ == old(self)@.remove(at)
                    &&& final(self).span() == final(self)@.len()
                    &&& final(self).order() == order_without(
                        old(self).order(),
                        at,
                        old(self)@.len(),
                    )
                } else {
                    &&& final(self)@ == old(self)@
                    &&& final(self).positions() == old(self).positions()
                    &&& final(self).span() == old(self).span()
                    &&& final(self).order() == old(self).order()
                }
            }),
    {
        match self.0.0.position(key) {
            Some(at) => {
                let len = self.0.0.len();
                self.1.remove(at, len);
                self.0.0.remove(key)
            },
            None => None,
        }
    }

    /// The place of `key` in the object, filled or not.
    pub fn entry(&mut self, key: &str) -> (r: Entry<'_, V>)
        ensures
            *r.object == *old(self),
            *final(self) == *final(r.object),
            r.key@ == key@,
    {
        Entry { object: self, key: key.to_owned() }
    }

    /// Gives up the object for the fields of an object literal, in the order of their keys.
    pub fn into_literal<L: From<V>>(self) -> (r: Vec<ObjectEntry<L>>)
        ensures
            r@.len() == self@.len(),
            forall|i: int|
                0 <= i < r@.len() ==> (#[trigger] r@[i]).key@ == self@[i].0 && call_ensures(
                    L::from,
                    (self@[i].1,),
                    r@[i].value,
                ),
    {
        let entries = self.0.0.into_entries();
        let mut r: Vec<ObjectEntry<L>> = Vec::new();
        for (key, value) in it: entries
            invariant
                it.seq() == entries@,
                r@.len() == it.index(),
                forall|i: int|
                    0 <= i < r@.len() ==> (#[trigger] r@[i]).key == entries@[i].0 && call_ensures(
                        L::from,
                        (entries@[i].1,),
                        r@[i].value,
                    ),
        {
            r.push(ObjectEntry { key, value: L::from(value) });
        }
        assert forall|i: int| 0 <= i < r@.len() implies (#[trigger] r@[i]).key@ == self@[i].0
            && call_ensures(L::from, (self@[i].1,), r@[i].value) by {
            assert(self@[i] == entries_of(entries@)[i]);
        }
        r
    }

    /// Encodes the object as `encode_map` encodes its sorted map; the presentation order is
    /// never written.
    pub fn encode<T, E, F: FnOnce(&ObjectMap<V>) -> Result<T, E>>(&self, encode_map: F) -> (r:
        Result<T, E>)
        requires
            call_requires(encode_map, (&self.0,)),
        ensures
            call_ensures(encode_map, (&self.0,), r),
    {
        encode_map(&self.0)
    }

    /// Decodes an object as `decode_map` decodes its sorted map; there is no presentation order
    /// to read.
    pub fn borrow_decode<T, E, F: FnOnce(T) -> Result<ObjectMap<V>, E>>(
        source: T,
        decode_map: F,
    ) -> (r: Result<Self, E>)
        requires
            call_requires(decode_map, (source,)),
        ensures
            match r {
                Ok(o) => o.plain() && call_ensures(decode_map, (source,), Ok(o.0)),
                Err(e) => call_ensures(decode_map, (source,), Err(e)),
            },
    {
        match decode_map(source) {
            Ok(map) => Ok(Object(map, DisplayOrder::none())),
            Err(e) => Err(e),
        }
    }

    /// Builds the presentation order from a sequence of keys in the order in which they were
    /// written, recording where each landed in the sorted map. Keys not present are skipped, a
    /// key written again keeps its place, and entries not written follow in sorted order.
    pub fn set_written_order<'a, I>(&mut self, written_keys: I) where I: Iterator<Item = &'a str>
        requires
            old(self).wf(),
            written_keys.obeys_prophetic_iter_laws(),
            written_keys.decrease() is Some,
        ensures
            final(self).0 == old(self).0,
            final(self)@ == old(self)@,
            final(self).ordered(),
            final(self).order() == written_order(old(self)@, written_keys.remaining()),
            final(self).positions() == final(self).order(),
    {
        let len = self.0.0.len();
        if len as u64 > 0x1_0000_0000 {
            self.1 = DisplayOrder::none();
            return ;
        }
        let mut rest = written_keys;
        let mut order: Vec<u32> = Vec::new();
        let mut seen: Vec<bool> = Vec::new();
        while seen.len() < len
            invariant
                seen@.len() <= len,
                forall|j: int| 0 <= j < seen@.len() ==> !#[trigger] seen@[j],
            decreases len - seen@.len(),
        {
            seen.push(false);
        }
        let ghost mut done: Seq<&str> = Seq::empty();
        assert(done + rest.remaining() =~= rest.remaining());
        loop
            invariant
                *self == *old(self),
                self.wf(),
                len == self@.len() <= 0x1_0000_0000,
                seen@.len() == len,
                rest.obeys_prophetic_iter_laws(),
                rest.decrease() is Some,
                done + rest.remaining() == written_keys.remaining(),
                order@ == first_mentions(self@, done),
                forall|j: int| 0 <= j < len ==> #[trigger] seen@[j] == mentions(order@, j),
            ensures
                done == written_keys.remaining(),
            decreases rest.decrease()->0,
        {
            let ghost before = rest.remaining();
            match rest.next() {
                Some(key) => {
                    proof {
                        assert(done + before =~= done.push(key) + rest.remaining());
                        assert(done.push(key).drop_last() =~= done);
                    }
                    if let Some(i) = self.0.0.position(key) {
                        if !seen[i] {
                            proof {
                                lemma_mentions_push(order@, i as u32);
                            }
                            seen.set(i, true);
                            order.push(i as u32);
                        }
                    }
                    proof {
                        done = done.push(key);
                    }
                },
                None => {
                    assert(done + before =~= done);
                    break;
                },
            }
        }
        let ghost first = order@;
        proof {
            lemma_written_order(self@, done);
        }
        if order.len() == 0 {
            self.1 = DisplayOrder::none();
        } else {
            let mut i: usize = 0;
            assert(first + unmentioned(first, 0) =~= first);
            while i < len
                invariant
                    i <= len <= 0x1_0000_0000,
                    seen@.len() == len,
                    forall|j: int| 0 <= j < len ==> #[trigger] seen@[j] == mentions(first, j),
                    order@ == first + unmentioned(first, i as nat),
                decreases len - i,
            {
                if !seen[i] {
                    order.push(i as u32);
                }
                assert(order@ =~= first + unmentioned(first, (i + 1) as nat));
                i = i + 1;
            }
            self.1 = DisplayOrder { positions: Some(order), span: len };
        }
    }

    /// The entries in presentation order when one is set, otherwise in sorted order.
    pub fn iter_display(&self) -> (r: Vec<(&String, &V)>)
        ensures
            entries_of_refs(r@) == displayed(self@, self.order()),
    {
        present(&self.0.0, &self.1)
    }
}

/// The place of a key in an object, filled or not.
pub struct Entry<'a, V> {
    pub object: &'a mut Object<V>,
    pub key: String,
}

impl<'a, V> Entry<'a, V> {
    /// The value in the place, for mutation, once `value` is put there if there was none. A new
    /// entry is presented last; the others keep their relative order.
    pub fn or_insert(self, value: V) -> (r: &'a mut V)
        requires
            old(self.object).wf(),
        ensures
            *r == (match lookup(old(self.object)@, self.key@) {
                Some(v) => v,
                None => value,
            }),
            final(self.object).wf(),
            old(self.object).ordered() ==> final(self.object).ordered(),
            lookup(final(self.object)@, self.key@) == Some(*final(r)),
            forall|k: Seq<char>|
                k != self.key@ ==> #[trigger] lookup(final(self.object)@, k) == lookup(
                    old(self.object)@,
                    k,
                ),
            0 <= key_position(final(self.object)@, self.key@) < final(self.object)@.len(),
            ({
                let at = key_position(final(self.object)@, self.key@);
                if has_key(old(self.object)@, self.key@) {
                    &&& final(self.object)@.len() == old(self.object)@.len()
                    &&& final(self.object)@ == old(self.object)@.update(at, (self.key@, *final(r)))
                    &&& final(self.object).positions() == old(self.object).positions()
                    &&& final(self.object).span() == old(self.object).span()
                    &&& final(self.object).order() == old(self.object).order()
                } else {
                    &&& final(self.object)@.len() == old(self.object)@.len() + 1
                    &&& final(self.object)@ == old(self.object)@.insert(at, (self.key@, *final(r)))
                    &&& final(self.object).span() == final(self.object)@.len()
                    &&& final(self.object).order() == order_with(
                        old(self.object).order(),
                        at,
                        old(self.object)@.len(),
                    )
                }
            }),
    {
        let Entry { object, key } = self;
        let ghost before = object@;
        if !object.contains_key(key.as_str()) {
            object.insert(key.as_str(), value);
        }
        let at: usize = object.0.0.index_of(key.as_str());
        proof {
            let held = object@;
            lemma_position_unique(held, at as int);
            assert forall|v: V|
                #![trigger held.update(at as int, (key@, v))]
                {
                    let after = held.update(at as int, (key@, v));
                    &&& sorted_by_key(after)
                    &&& key_position(after, key@) == at
                    &&& lookup(after, key@) == Some(v)
                    &&& forall|k: Seq<char>|
                        k != key@ ==> #[trigger] lookup(after, k) == lookup(held, k)
                } by {
                lemma_update_at(held, at as int, v);
                lemma_position_unique(held.update(at as int, (key@, v)), at as int);
            }
            if !has_key(before, key@) {
                assert forall|v: V| #[trigger]
                    held.update(at as int, (key@, v)) == before.insert(at as int, (key@, v)) by {
                    assert(held.update(at as int, (key@, v)) =~= before.insert(
                        at as int,
                        (key@, v),
                    ));
                }
            }
        }
        object.0.0.value_at_mut(at)
    }
}

impl<V: PartialEq> vstd::std_specs::cmp::PartialEqSpecImpl for ObjectMap<V> {
    open spec fn obeys_eq_spec() -> bool {
        V::obeys_eq_spec()
    }

    open spec fn eq_spec(&self, other: &Self) -> bool {
        entries_eq(self@, other@)
    }
}

impl<V: PartialEq> PartialEq for ObjectMap<V> {
    fn eq(&self, other: &Self) -> (r: bool) {
        self.0 == other.0
    }
}

impl<V: Eq> Eq for ObjectMap<V> {

}

impl<V: PartialOrd> vstd::std_specs::cmp::PartialOrdSpecImpl for ObjectMap<V> {
    open spec fn obeys_partial_cmp_spec() -> bool {
        V::obeys_partial_cmp_spec()
    }

    open spec fn partial_cmp_spec(&self, other: &Self) -> Option<Ordering> {
        entries_partial_order(self@, other@)
    }
}

impl<V: PartialOrd> PartialOrd for ObjectMap<V> {
    fn partial_cmp(&self, other: &Self) -> (r: Option<Ordering>) {
        self.0.partial_cmp(&other.0)
    }
}

impl<V: PartialEq> vstd::std_specs::cmp::PartialEqSpecImpl for Object<V> {
    open spec fn obeys_eq_spec() -> bool {
        V::obeys_eq_spec()
    }

    open spec fn eq_spec(&self, other: &Self) -> bool {
        entries_eq(self@, other@)
    }
}

impl<V: PartialEq> PartialEq for Object<V> {
    fn eq(&self, other: &Self) -> (r: bool) {
        self.0 == other.0
    }
}

impl<V: Eq> Eq for Object<V> {

}

impl<V: PartialOrd> vstd::std_specs::cmp::PartialOrdSpecImpl for Object<V> {
    open spec fn obeys_partial_cmp_spec() -> bool {
        V::obeys_partial_cmp_spec()
    }

    open spec fn partial_cmp_spec(&self, other: &Self) -> Option<Ordering> {
        entries_partial_order(self@, other@)
    }
}

impl<V: PartialOrd> PartialOrd for Object<V> {
    fn partial_cmp(&self, other: &Self) -> (r: Option<Ordering>) {
        self.0.partial_cmp(&other.0)
    }
}

impl<V: Ord> Object<V> {
    /// How this object compares with another: by the sorted entries alone.
    pub fn cmp(&self, other: &Self) -> (r: Ordering)
        ensures
            V::obeys_cmp_spec() ==> r == entries_order(self@, other@),
    {
        self.0.0.cmp(&other.0.0)
    }
}

impl<V> vstd::std_specs::convert::FromSpecImpl<ObjectMap<V>> for Object<V> {
    open spec fn obeys_from_spec() -> bool {
        true
    }

    open spec fn from_spec(v: ObjectMap<V>) -> Self {
        Object(v, DisplayOrder { positions: None, span: 0 })
    }
}

impl<V> From<ObjectMap<V>> for Object<V> {
    fn from(v: ObjectMap<V>) -> (r: Self) {
        Object(v, DisplayOrder::none())
    }
}

impl<V> vstd::std_specs::convert::FromSpecImpl<VecMap<V>> for Object<V> {
    open spec fn obeys_from_spec() -> bool {
        true
    }

    open spec fn from_spec(v: VecMap<V>) -> Self {
        Object(ObjectMap(v), DisplayOrder { positions: None, span: 0 })
    }
}

impl<V> From<VecMap<V>> for Object<V> {
    fn from(v: VecMap<V>) -> (r: Self) {
        Object(ObjectMap(v), DisplayOrder::none())
    }
}

impl<V> vstd::std_specs::convert::FromSpecImpl<Vec<(String, V)>> for Object<V> {
    open spec fn obeys_from_spec() -> bool {
        // The result is fixed by what it holds, which the function's own contract states.
        false
    }

    open spec fn from_spec(v: Vec<(String, V)>) -> Self {
        arbitrary()
    }
}

impl<V> From<Vec<(String, V)>> for Object<V> {
    /// An object of entries in any order; of several entries for one key, the last stands.
    fn from(v: Vec<(String, V)>) -> (r: Self)
        ensures
            r.wf(),
            r.plain(),
            forall|k: Seq<char>| #[trigger] lookup(r@, k) == last_value(entries_of(v@), k),
    {
        Object::from_iter(v.into_iter())
    }
}

impl<V> vstd::std_specs::convert::FromSpecImpl<Option<Object<V>>> for Object<V> {
    open spec fn obeys_from_spec() -> bool {
        // The result is fixed by what it holds, which the function's own contract states.
        false
    }

    open spec fn from_spec(v: Option<Object<V>>) -> Self {
        arbitrary()
    }
}

impl<V> From<Option<Object<V>>> for Object<V> {
    /// The object, or an empty one where there is none.
    fn from(v: Option<Object<V>>) -> (r: Self)
        ensures
            match v {
                Some(o) => r == o,
                None => r.wf() && r@.len() == 0 && r.plain(),
            },
    {
        match v {
            Some(o) => o,
            None => Object::default(),
        }
    }
}

impl<P, V: From<P>> vstd::std_specs::convert::FromSpecImpl<PublicObject<P>> for Object<V> {
    open spec fn obeys_from_spec() -> bool {
        // The result is fixed by what it holds, which the function's own contract states.
        false
    }

    open spec fn from_spec(v: PublicObject<P>) -> Self {
        arbitrary()
    }
}

impl<P, V: From<P>> From<PublicObject<P>> for Object<V> {
    /// Takes over an object from a client, without its presentation order.
    fn from(v: PublicObject<P>) -> (r: Self)
        ensures
            v.wf() ==> r.wf(),
            r.plain(),
            r@.len() == v@.len(),
            forall|i: int|
                0 <= i < v@.len() ==> (#[trigger] r@[i]).0 == v@[i].0 && call_ensures(
                    V::from,
                    (v@[i].1,),
                    r@[i].1,
                ),
    {
        let map = v.into_inner();
        assert(v@ == map@);
        let r = Object(ObjectMap(map.convert()), DisplayOrder::none());
        assert(r@ == r.0.0@);
        r
    }
}

impl<V> vstd::std_specs::ops::AddSpecImpl for Object<V> {
    open spec fn obeys_add_spec() -> bool {
        // The result is fixed by what it holds, which the function's own contract states.
        false
    }

    open spec fn add_req(self, rhs: Self) -> bool {
        self.wf() && rhs.wf()
    }

    open spec fn add_spec(self, rhs: Self) -> Self {
        arbitrary()
    }
}

impl<V> Add for Object<V> {
    type Output = Self;

    /// The union of two objects, without a presentation order; where both have a key, the
    /// value of `rhs` stands.
    fn add(self, rhs: Self) -> (r: Self)
        ensures
            r.wf(),
            r@ == merged(self@, rhs@),
            r.plain(),
    {
        Object(
            ObjectMap(VecMap::merge_sorted_prefer_rhs(self.0.0, rhs.0.0)),
            DisplayOrder::none(),
        )
    }
}

} // verus!
