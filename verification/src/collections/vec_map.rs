//! A map from strings to values, held as a vector sorted by key.
use vstd::prelude::*;
use vstd::std_specs::iter::IteratorSpec;
use vstd::utf8::encode_utf8;

use crate::bytes::{compare_bytes, lemma_lex_total, Order};
use crate::collections::entries::{
    converts, entries_cloned, entries_of, entries_of_refs, has_key, key_lt, key_position,
    last_value, lemma_insert_at, lemma_key_order, lemma_key_order_transitive, lemma_merged,
    lemma_merged_step, lemma_position_unique, lemma_remove_at, lemma_update_at, lookup, merged,
    sorted_by_key,
};
use crate::peekable::{upcoming, Peekable};

verus! {

/// Compares two strings by their bytes.
pub fn compare_str(a: &str, b: &str) -> (order: Order)
    ensures
        order == Order::Less <==> key_lt(a@, b@),
        order == Order::Equal <==> a@ == b@,
        order == Order::Greater <==> key_lt(b@, a@),
{
    proof {
        lemma_key_order(a@, b@);
        lemma_lex_total(encode_utf8(a@), encode_utf8(b@));
        vstd::utf8::encode_utf8_decode_utf8(a@);
        vstd::utf8::encode_utf8_decode_utf8(b@);
    }
    compare_bytes(a.as_bytes(), b.as_bytes())
}

/// A map from strings to values, held as a vector sorted by key.
#[derive(Debug, Hash)]
pub struct VecMap<V> {
    entries: Vec<(String, V)>,
}

impl<V> View for VecMap<V> {
    type V = Seq<(Seq<char>, V)>;

    closed spec fn view(&self) -> Seq<(Seq<char>, V)> {
        entries_of(self.entries@)
    }
}

impl<V: Clone> Clone for VecMap<V> {
    fn clone(&self) -> (r: Self)
        ensures
            self.wf() ==> r.wf(),
            entries_cloned(self@, r@),
    {
        let mut entries: Vec<(String, V)> = Vec::new();
        let mut i: usize = 0;
        while i < self.entries.len()
            invariant
                i <= self.entries@.len(),
                entries@.len() == i,
                forall|j: int|
                    0 <= j < i ==> (#[trigger] entries@[j]).0@ == self@[j].0 && cloned(
                        self@[j].1,
                        entries@[j].1,
                    ),
            decreases self.entries@.len() - i,
        {
            let e = &self.entries[i];
            entries.push((e.0.clone(), e.1.clone()));
            i = i + 1;
        }
        let r = VecMap { entries };
        assert forall|j: int| 0 <= j < self@.len() implies (#[trigger] r@[j]).0 == self@[j].0
            && cloned(self@[j].1, r@[j].1) by {
            assert(entries@[j].0@ == self@[j].0);
        }
        r
    }
}

impl<V> Default for VecMap<V> {
    fn default() -> (r: Self)
        ensures
            r.wf(),
            r@ == Seq::<(Seq<char>, V)>::empty(),
    {
        VecMap::new()
    }
}

/// References to the entries, with the values for mutation.
fn refer_mut<'a, V>(entries: &'a mut [(String, V)]) -> (r: Vec<(&'a String, &'a mut V)>)
    ensures
        r@.len() == old(entries)@.len(),
        final(entries)@.len() == old(entries)@.len(),
        forall|i: int|
            #![trigger r@[i]]
            #![trigger final(entries)@[i]]
            0 <= i < old(entries)@.len() ==> {
                &&& *r@[i].0 == old(entries)@[i].0
                &&& *r@[i].1 == old(entries)@[i].1
                &&& final(entries)@[i] == (old(entries)@[i].0, *final(r@[i].1))
            },
{
    let ghost held = entries@;
    let ghost end = final(entries)@;
    let mut r: Vec<(&'a String, &'a mut V)> = Vec::new();
    let mut rest: &'a mut [(String, V)] = entries;
    while rest.len() > 0
        invariant
            r@.len() + rest@.len() == held.len(),
            rest@ == held.skip(r@.len() as int),
            end.len() == r@.len() + final(rest)@.len(),
            end.skip(r@.len() as int) == final(rest)@,
            forall|i: int|
                0 <= i < r@.len() ==> {
                    &&& *(#[trigger] r@[i]).0 == held[i].0
                    &&& *r@[i].1 == held[i].1
                    &&& end[i] == (held[i].0, *final(r@[i].1))
                },
        decreases rest@.len(),
    {
        let ghost n = r@.len() as int;
        let ghost ahead = final(rest)@;
        let (head, tail) = rest.split_at_mut(1);
        let ghost first = final(head)@;
        let ghost behind = final(tail)@;
        if let Some(entry) = head.first_mut() {
            let (key, value) = entry;
            r.push((&*key, value));
        }
        rest = tail;
        proof {
            assert(ahead == first + behind);
            assert(first.len() == 1);
            assert(behind =~= ahead.skip(1));
            assert(end.skip(n + 1) =~= end.skip(n).skip(1));
            assert(end[n] == end.skip(n)[0]);
            assert(first[0] == ahead[0]);
            assert(first[0].1 == *final(r@[n].1));
            assert(first[0].0 == *r@[n].0);
        }
    }
    r
}

impl<V> VecMap<V> {
    /// The keys strictly ascend.
    pub open spec fn wf(&self) -> bool {
        sorted_by_key(self@)
    }

    /// An empty map.
    pub fn new() -> (r: Self)
        ensures
            r.wf(),
            r@ == Seq::<(Seq<char>, V)>::empty(),
    {
        let r = VecMap { entries: Vec::new() };
        assert(r@ =~= Seq::<(Seq<char>, V)>::empty());
        r
    }

    /// The number of entries.
    pub fn len(&self) -> (n: usize)
        ensures
            n == self@.len(),
    {
        self.entries.len()
    }

    /// Whether there is no entry.
    pub fn is_empty(&self) -> (b: bool)
        ensures
            b == (self@.len() == 0),
    {
        self.entries.len() == 0
    }

    /// The position of `key`, or else the position at which it belongs.
    fn search(&self, key: &str) -> (r: Result<usize, usize>)
        requires
            self.wf(),
        ensures
            match r {
                Ok(i) => i < self@.len() && self@[i as int].0 == key@,
                Err(i) => {
                    &&& i <= self@.len()
                    &&& !has_key(self@, key@)
                    &&& forall|j: int| 0 <= j < i ==> key_lt((#[trigger] self@[j]).0, key@)
                    &&& forall|j: int| i <= j < self@.len() ==> key_lt(key@, (#[trigger] self@[j]).0)
                },
            },
    {
        let mut lo: usize = 0;
        let mut hi: usize = self.entries.len();
        while lo < hi
            invariant
                self.wf(),
                0 <= lo <= hi <= self@.len(),
                forall|j: int| 0 <= j < lo ==> key_lt((#[trigger] self@[j]).0, key@),
                forall|j: int| hi <= j < self@.len() ==> key_lt(key@, (#[trigger] self@[j]).0),
            decreases hi - lo,
        {
            let mid: usize = lo + (hi - lo) / 2;
            assert(self@[mid as int].0 == self.entries@[mid as int].0@);
            match compare_str(self.entries[mid].0.as_str(), key) {
                Order::Equal => {
                    return Ok(mid);
                },
                Order::Less => {
                    assert forall|j: int| 0 <= j < mid + 1 implies key_lt(
                        (#[trigger] self@[j]).0,
                        key@,
                    ) by {
                        if j < mid {
                            lemma_key_order_transitive(self@[j].0, self@[mid as int].0, key@);
                        }
                    }
                    lo = mid + 1;
                },
                Order::Greater => {
                    assert forall|j: int| mid <= j < self@.len() implies key_lt(
                        key@,
                        (#[trigger] self@[j]).0,
                    ) by {
                        if j > mid {
                            lemma_key_order_transitive(key@, self@[mid as int].0, self@[j].0);
                        }
                    }
                    hi = mid;
                },
            }
        }
        proof {
            assert forall|j: int| 0 <= j < self@.len() implies (#[trigger] self@[j]).0 != key@ by {
                lemma_key_order(self@[j].0, key@);
            }
        }
        Err(lo)
    }

    /// The value under `key`.
    pub fn get(&self, key: &str) -> (r: Option<&V>)
        requires
            self.wf(),
        ensures
            r == (match lookup(self@, key@) {
                Some(v) => Some(&v),
                None => None,
            }),
    {
        match self.search(key) {
            Ok(i) => {
                proof {
                    lemma_position_unique(self@, i as int);
                }
                Some(&self.entries[i].1)
            },
            Err(_) => None,
        }
    }

    /// The value under `key`, for mutation: what is written there takes its place, and nothing
    /// else changes.
    pub fn get_mut(&mut self, key: &str) -> (r: Option<&mut V>)
        requires
            old(self).wf(),
        ensures
            final(self).wf(),
            match r {
                Some(v) => {
                    &&& lookup(old(self)@, key@) == Some(*v)
                    &&& final(self)@ == old(self)@.update(
                        key_position(old(self)@, key@),
                        (key@, *final(v)),
                    )
                },
                None => lookup(old(self)@, key@) is None && final(self)@ == old(self)@,
            },
    {
        match self.search(key) {
            Ok(i) => {
                proof {
                    lemma_position_unique(self@, i as int);
                    let entries = self.entries@;
                    assert forall|e: (String, V)| e.0@ == key@ implies sorted_by_key(
                        #[trigger] entries_of(entries.update(i as int, e)),
                    ) && entries_of(entries.update(i as int, e)) == self@.update(
                        i as int,
                        (key@, e.1),
                    ) by {
                        assert(entries_of(entries.update(i as int, e)) =~= self@.update(
                            i as int,
                            (key@, e.1),
                        ));
                        lemma_update_at(self@, i as int, e.1);
                    }
                }
                Some(&mut self.entries[i].1)
            },
            Err(_) => None,
        }
    }

    /// The value at a position in the order of the keys, for mutation.
    pub fn value_at_mut(&mut self, i: usize) -> (r: &mut V)
        requires
            i < old(self)@.len(),
        ensures
            *r == old(self)@[i as int].1,
            final(self)@ == old(self)@.update(i as int, (old(self)@[i as int].0, *final(r))),
    {
        proof {
            let entries = self.entries@;
            assert forall|e: (String, V)| e.0 == entries[i as int].0 implies entries_of(
                #[trigger] entries.update(i as int, e),
            ) == self@.update(i as int, (self@[i as int].0, e.1)) by {
                assert(entries_of(entries.update(i as int, e)) =~= self@.update(
                    i as int,
                    (self@[i as int].0, e.1),
                ));
            }
        }
        &mut self.entries[i].1
    }

    /// The entries, in the order of their keys, with the values for mutation.
    pub fn iter_mut(&mut self) -> (r: Vec<(&String, &mut V)>)
        ensures
            r@.len() == old(self)@.len(),
            final(self)@.len() == old(self)@.len(),
            forall|i: int|
                #![trigger r@[i]]
                #![trigger final(self)@[i]]
                0 <= i < old(self)@.len() ==> {
                    &&& r@[i].0@ == old(self)@[i].0
                    &&& *r@[i].1 == old(self)@[i].1
                    &&& final(self)@[i] == (old(self)@[i].0, *final(r@[i].1))
                },
            old(self).wf() ==> final(self).wf(),
    {
        proof {
            let held = self@;
            assert forall|after: Seq<(Seq<char>, V)>|
                sorted_by_key(held) && after.len() == held.len() && (forall|i: int|
                    0 <= i < held.len() ==> (#[trigger] after[i]).0 == held[i].0)
                    implies #[trigger] sorted_by_key(after) by {
                assert forall|i: int, j: int| 0 <= i < j < after.len() implies key_lt(
                    (#[trigger] after[i]).0,
                    (#[trigger] after[j]).0,
                ) by {
                    assert(key_lt(held[i].0, held[j].0));
                }
            }
        }
        refer_mut(self.entries.as_mut_slice())
    }

    /// Whether there is an entry for `key`.
    pub fn contains_key(&self, key: &str) -> (b: bool)
        requires
            self.wf(),
        ensures
            b == has_key(self@, key@),
    {
        match self.search(key) {
            Ok(_) => true,
            Err(_) => false,
        }
    }

    /// The position of `key` in the order of the keys.
    pub fn position(&self, key: &str) -> (r: Option<usize>)
        requires
            self.wf(),
        ensures
            match r {
                Some(i) => has_key(self@, key@) && i == key_position(self@, key@),
                None => !has_key(self@, key@),
            },
    {
        match self.search(key) {
            Ok(i) => {
                proof {
                    lemma_position_unique(self@, i as int);
                }
                Some(i)
            },
            Err(_) => None,
        }
    }

    /// The position of a key that is there.
    pub fn index_of(&self, key: &str) -> (i: usize)
        requires
            self.wf(),
            has_key(self@, key@),
        ensures
            i == key_position(self@, key@),
            i < self@.len(),
            self@[i as int].0 == key@,
    {
        match self.search(key) {
            Ok(i) => {
                proof {
                    lemma_position_unique(self@, i as int);
                }
                i
            },
            Err(i) => i,
        }
    }

    /// Maps `key` to `value`, and returns the value that it had.
    pub fn insert(&mut self, key: String, value: V) -> (r: Option<V>)
        requires
            old(self).wf(),
        ensures
            final(self).wf(),
            r == lookup(old(self)@, key@),
            lookup(final(self)@, key@) == Some(value),
            forall|k: Seq<char>|
                k != key@ ==> #[trigger] lookup(final(self)@, k) == lookup(old(self)@, k),
            final(self)@ == (if has_key(old(self)@, key@) {
                old(self)@.update(key_position(old(self)@, key@), (key@, value))
            } else {
                old(self)@.insert(key_position(final(self)@, key@), (key@, value))
            }),
            final(self)@.len() == (if has_key(old(self)@, key@) {
                old(self)@.len()
            } else {
                old(self)@.len() + 1
            }),
            has_key(final(self)@, key@),
            0 <= key_position(final(self)@, key@) < final(self)@.len(),
    {
        match self.search(key.as_str()) {
            Ok(i) => {
                proof {
                    lemma_position_unique(self@, i as int);
                    lemma_update_at(self@, i as int, value);
                }
                let ghost given = value;
                let mut value = value;
                std::mem::swap(&mut self.entries[i].1, &mut value);
                assert(self@ =~= old(self)@.update(i as int, (key@, given)));
                proof {
                    lemma_position_unique(self@, i as int);
                }
                Some(value)
            },
            Err(i) => {
                proof {
                    lemma_insert_at(self@, i as int, key@, value);
                }
                self.entries.insert(i, (key, value));
                assert(self@ =~= old(self)@.insert(i as int, (key@, value)));
                proof {
                    lemma_position_unique(self@, i as int);
                }
                None
            },
        }
    }

    /// Takes out the entry for `key`, and returns its value.
    pub fn remove(&mut self, key: &str) -> (r: Option<V>)
        requires
            old(self).wf(),
        ensures
            final(self).wf(),
            r == lookup(old(self)@, key@),
            lookup(final(self)@, key@) is None,
            forall|k: Seq<char>|
                k != key@ ==> #[trigger] lookup(final(self)@, k) == lookup(old(self)@, k),
            final(self)@ == (if has_key(old(self)@, key@) {
                old(self)@.remove(key_position(old(self)@, key@))
            } else {
                old(self)@
            }),
    {
        match self.search(key) {
            Ok(i) => {
                proof {
                    lemma_position_unique(self@, i as int);
                    lemma_remove_at(self@, i as int);
                }
                let (_, value) = self.entries.remove(i);
                assert(self@ =~= old(self)@.remove(i as int));
                Some(value)
            },
            Err(_) => None,
        }
    }

    /// The entries, in the order of their keys.
    pub fn iter(&self) -> (r: Vec<(&String, &V)>)
        ensures
            entries_of_refs(r@) == self@,
    {
        let mut r: Vec<(&String, &V)> = Vec::new();
        let mut i: usize = 0;
        while i < self.entries.len()
            invariant
                i <= self.entries@.len(),
                r@.len() == i,
                forall|j: int|
                    0 <= j < i ==> (#[trigger] r@[j]).0@ == self@[j].0 && *r@[j].1 == self@[j].1,
            decreases self.entries@.len() - i,
        {
            let e = &self.entries[i];
            r.push((&e.0, &e.1));
            i = i + 1;
        }
        assert(entries_of_refs(r@) =~= self@);
        r
    }

    /// The entry at a position in the order of the keys.
    pub fn entry_at(&self, i: usize) -> (r: (&String, &V))
        requires
            i < self@.len(),
        ensures
            r.0@ == self@[i as int].0,
            *r.1 == self@[i as int].1,
    {
        let e = &self.entries[i];
        (&e.0, &e.1)
    }

    /// The keys, in their order.
    pub fn keys(&self) -> (r: Vec<&String>)
        ensures
            r@.len() == self@.len(),
            forall|j: int| 0 <= j < r@.len() ==> (#[trigger] r@[j])@ == self@[j].0,
    {
        let mut r: Vec<&String> = Vec::new();
        let mut i: usize = 0;
        while i < self.entries.len()
            invariant
                i <= self.entries@.len(),
                r@.len() == i,
                forall|j: int| 0 <= j < i ==> (#[trigger] r@[j])@ == self@[j].0,
            decreases self.entries@.len() - i,
        {
            r.push(&self.entries[i].0);
            i = i + 1;
        }
        r
    }

    /// Gives up the map for its entries, in the order of their keys.
    pub fn into_entries(self) -> (r: Vec<(String, V)>)
        ensures
            entries_of(r@) == self@,
    {
        self.entries
    }

    /// A map of entries whose keys already ascend.
    pub fn from_sorted_vec_unchecked(entries: Vec<(String, V)>) -> (r: Self)
        requires
            sorted_by_key(entries_of(entries@)),
        ensures
            r.wf(),
            r@ == entries_of(entries@),
    {
        VecMap { entries }
    }

    /// A map of entries in any order; of several entries for one key, the last stands.
    pub fn from_iter<I: Iterator<Item = (String, V)>>(entries: I) -> (r: Self)
        requires
            entries.obeys_prophetic_iter_laws(),
            entries.decrease() is Some,
        ensures
            r.wf(),
            forall|k: Seq<char>| #[trigger]
                lookup(r@, k) == last_value(entries_of(entries.remaining()), k),
    {
        let mut rest = entries;
        let mut r: VecMap<V> = VecMap::new();
        let ghost mut done: Seq<(String, V)> = Seq::empty();
        assert(done + rest.remaining() =~= rest.remaining());
        loop
            invariant
                rest.obeys_prophetic_iter_laws(),
                rest.decrease() is Some,
                r.wf(),
                done + rest.remaining() == entries.remaining(),
                forall|k: Seq<char>| #[trigger] lookup(r@, k) == last_value(entries_of(done), k),
            decreases rest.decrease()->0,
        {
            let ghost before = rest.remaining();
            match rest.next() {
                Some((key, value)) => {
                    let ghost item = (key, value);
                    let ghost prior = r@;
                    r.insert(key, value);
                    proof {
                        let more = done.push(item);
                        assert(entries_of(more).drop_last() =~= entries_of(done));
                        assert(entries_of(more).last() == (item.0@, item.1));
                        assert(done + before =~= more + rest.remaining());
                        assert forall|k: Seq<char>| #[trigger]
                            lookup(r@, k) == last_value(entries_of(more), k) by {
                            assert(lookup(prior, k) == last_value(entries_of(done), k));
                        }
                        done = more;
                    }
                },
                None => {
                    assert(done + before =~= done);
                    return r;
                },
            }
        }
    }

    /// The union of two maps; where both have a key, the value of `rhs` stands.
    pub fn merge_sorted_prefer_rhs(lhs: Self, rhs: Self) -> (r: Self)
        requires
            lhs.wf(),
            rhs.wf(),
        ensures
            r.wf(),
            r@ == merged(lhs@, rhs@),
    {
        let mut left = Peekable::new(lhs.entries.into_iter());
        let mut right = Peekable::new(rhs.entries.into_iter());
        let mut out: Vec<(String, V)> = Vec::new();
        proof {
            lemma_merged(lhs@, rhs@);
            assert(entries_of(out@) + merged(lhs@, rhs@) =~= merged(lhs@, rhs@));
        }
        loop
            invariant
                left.lawful(),
                right.lawful(),
                sorted_by_key(merged(lhs@, rhs@)),
                entries_of(out@) + merged(
                    entries_of(upcoming(left.peeked(), left.source().remaining())),
                    entries_of(upcoming(right.peeked(), right.source().remaining())),
                ) == merged(lhs@, rhs@),
            decreases left.fuel() + right.fuel(),
        {
            let step = match (left.peek(), right.peek()) {
                (None, None) => None,
                (Some(_), None) => Some(Order::Less),
                (None, Some(_)) => Some(Order::Greater),
                (Some(l), Some(r)) => Some(compare_str(l.0.as_str(), r.0.as_str())),
            };
            proof {
                lemma_merged_step(
                    out@,
                    upcoming(left.peeked(), left.source().remaining()),
                    upcoming(right.peeked(), right.source().remaining()),
                );
            }
            match step {
                None => {
                    return VecMap { entries: out };
                },
                Some(Order::Less) => {
                    if let Some(e) = left.next() {
                        out.push(e);
                    }
                },
                Some(Order::Greater) => {
                    if let Some(e) = right.next() {
                        out.push(e);
                    }
                },
                Some(Order::Equal) => {
                    let _replaced = left.next();
                    if let Some(e) = right.next() {
                        out.push(e);
                    }
                },
            }
        }
    }

    /// Converts every value, in the order of the keys; the first failure ends it.
    pub fn try_convert<W: TryFrom<V>>(self) -> (r: Result<VecMap<W>, W::Error>)
        ensures
            match r {
                Ok(m) => {
                    &&& self.wf() ==> m.wf()
                    &&& m@.len() == self@.len()
                    &&& forall|i: int|
                        0 <= i < self@.len() ==> (#[trigger] m@[i]).0 == self@[i].0 && call_ensures(
                            W::try_from,
                            (self@[i].1,),
                            Ok(m@[i].1),
                        )
                },
                Err(e) => exists|i: int|
                    {
                        &&& 0 <= i < self@.len()
                        &&& call_ensures(W::try_from, ((#[trigger] self@[i]).1,), Err(e))
                        &&& forall|j: int|
                            0 <= j < i ==> converts::<V, W>((#[trigger] self@[j]).1)
                    },
            },
    {
        let ghost entries = self.entries@;
        let mut out: Vec<(String, W)> = Vec::new();
        for (key, value) in it: self.entries
            invariant
                it.seq() == entries,
                self@ == entries_of(entries),
                out@.len() == it.index(),
                forall|i: int|
                    0 <= i < out@.len() ==> (#[trigger] out@[i]).0 == entries[i].0 && call_ensures(
                        W::try_from,
                        (entries[i].1,),
                        Ok(out@[i].1),
                    ),
        {
            match W::try_from(value) {
                Ok(w) => {
                    out.push((key, w));
                },
                Err(e) => {
                    proof {
                        let ghost at = it.index() as int;
                        assert(entries_of(entries)[at].1 == value);
                        assert forall|j: int| 0 <= j < at implies converts::<V, W>(
                            (#[trigger] entries_of(entries)[j]).1,
                        ) by {
                            assert(out@[j].0 == entries[j].0);
                        }
                    }
                    return Err(e);
                },
            }
        }
        let m = VecMap { entries: out };
        assert forall|i: int| 0 <= i < entries.len() implies (#[trigger] m@[i]).0 == entries_of(
            entries,
        )[i].0 && call_ensures(W::try_from, (entries_of(entries)[i].1,), Ok(m@[i].1)) by {
            assert(out@[i].0 == entries[i].0);
        }
        Ok(m)
    }

    /// Converts every value.
    pub fn convert<W: From<V>>(self) -> (r: VecMap<W>)
        ensures
            self.wf() ==> r.wf(),
            r@.len() == self@.len(),
            forall|i: int|
                0 <= i < self@.len() ==> (#[trigger] r@[i]).0 == self@[i].0 && call_ensures(
                    W::from,
                    (self@[i].1,),
                    r@[i].1,
                ),
    {
        let ghost entries = self.entries@;
        let mut out: Vec<(String, W)> = Vec::new();
        for (key, value) in it: self.entries
            invariant
                it.seq() == entries,
                self@ == entries_of(entries),
                out@.len() == it.index(),
                forall|i: int|
                    0 <= i < out@.len() ==> (#[trigger] out@[i]).0 == entries[i].0 && call_ensures(
                        W::from,
                        (entries[i].1,),
                        out@[i].1,
                    ),
        {
            out.push((key, W::from(value)));
        }
        let r = VecMap { entries: out };
        assert forall|i: int| 0 <= i < entries.len() implies (#[trigger] r@[i]).0 == self@[i].0
            && call_ensures(W::from, (self@[i].1,), r@[i].1) by {
            assert(out@[i].0 == entries[i].0);
        }
        r
    }
}

} // verus!
