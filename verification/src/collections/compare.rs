//! Comparison of maps: entry by entry, in the order of their keys.
use core::cmp::Ordering;
use vstd::prelude::*;
use vstd::std_specs::cmp::{OrdSpec, PartialEqSpec, PartialOrdSpec};

use crate::bytes::Order;
use crate::collections::entries::{key_lt, lemma_key_order};
use crate::collections::vec_map::{compare_str, VecMap};

verus! {

/// The same keys, mapped to equal values.
pub open spec fn entries_eq<V: PartialEq>(a: Seq<(Seq<char>, V)>, b: Seq<(Seq<char>, V)>) -> bool {
    &&& a.len() == b.len()
    &&& forall|i: int| 0 <= i < a.len() ==> entry_eq(#[trigger] a[i], b[i])
}

/// The same key, with equal values.
pub open spec fn entry_eq<V: PartialEq>(a: (Seq<char>, V), b: (Seq<char>, V)) -> bool {
    a.0 == b.0 && a.1.eq_spec(&b.1)
}

/// Lexicographic order of entries, each by its key and then by its value.
pub open spec fn entries_partial_order<V: PartialOrd>(
    a: Seq<(Seq<char>, V)>,
    b: Seq<(Seq<char>, V)>,
) -> Option<Ordering>
    decreases a.len(),
{
    if a.len() == 0 && b.len() == 0 {
        Some(Ordering::Equal)
    } else if a.len() == 0 {
        Some(Ordering::Less)
    } else if b.len() == 0 {
        Some(Ordering::Greater)
    } else if key_lt(a[0].0, b[0].0) {
        Some(Ordering::Less)
    } else if key_lt(b[0].0, a[0].0) {
        Some(Ordering::Greater)
    } else {
        match a[0].1.partial_cmp_spec(&b[0].1) {
            Some(Ordering::Equal) => entries_partial_order(a.drop_first(), b.drop_first()),
            o => o,
        }
    }
}

/// Lexicographic order of entries whose values are totally ordered.
pub open spec fn entries_order<V: Ord>(a: Seq<(Seq<char>, V)>, b: Seq<(Seq<char>, V)>) -> Ordering
    decreases a.len(),
{
    if a.len() == 0 && b.len() == 0 {
        Ordering::Equal
    } else if a.len() == 0 {
        Ordering::Less
    } else if b.len() == 0 {
        Ordering::Greater
    } else if key_lt(a[0].0, b[0].0) {
        Ordering::Less
    } else if key_lt(b[0].0, a[0].0) {
        Ordering::Greater
    } else {
        match a[0].1.cmp_spec(&b[0].1) {
            Ordering::Equal => entries_order(a.drop_first(), b.drop_first()),
            o => o,
        }
    }
}

impl<V: PartialEq> vstd::std_specs::cmp::PartialEqSpecImpl for VecMap<V> {
    open spec fn obeys_eq_spec() -> bool {
        V::obeys_eq_spec()
    }

    open spec fn eq_spec(&self, other: &Self) -> bool {
        entries_eq(self@, other@)
    }
}

impl<V: PartialEq> PartialEq for VecMap<V> {
    fn eq(&self, other: &Self) -> (r: bool) {
        if self.len() != other.len() {
            return false;
        }
        let mut i: usize = 0;
        while i < self.len()
            invariant
                i <= self@.len() == other@.len(),
                V::obeys_eq_spec() ==> forall|j: int|
                    0 <= j < i ==> entry_eq(#[trigger] self@[j], other@[j]),
            decreases self@.len() - i,
        {
            let (ka, va) = self.entry_at(i);
            let (kb, vb) = other.entry_at(i);
            if !(*ka == *kb && *va == *vb) {
                return false;
            }
            i = i + 1;
        }
        true
    }
}

impl<V: Eq> Eq for VecMap<V> {

}

impl<V: PartialOrd> vstd::std_specs::cmp::PartialOrdSpecImpl for VecMap<V> {
    open spec fn obeys_partial_cmp_spec() -> bool {
        V::obeys_partial_cmp_spec()
    }

    open spec fn partial_cmp_spec(&self, other: &Self) -> Option<Ordering> {
        entries_partial_order(self@, other@)
    }
}

impl<V: PartialOrd> PartialOrd for VecMap<V> {
    fn partial_cmp(&self, other: &Self) -> (r: Option<Ordering>) {
        let mut i: usize = 0;
        assert(self@.skip(0int) =~= self@);
        assert(other@.skip(0int) =~= other@);
        while i < self.len() && i < other.len()
            invariant
                i <= self@.len(),
                i <= other@.len(),
                V::obeys_partial_cmp_spec() ==> entries_partial_order(self@, other@)
                    == entries_partial_order(self@.skip(i + 0), other@.skip(i + 0)),
            decreases self@.len() - i,
        {
            let (ka, va) = self.entry_at(i);
            let (kb, vb) = other.entry_at(i);
            proof {
                lemma_key_order(ka@, kb@);
                assert(self@.skip(i + 0).drop_first() =~= self@.skip(i + 1));
                assert(other@.skip(i + 0).drop_first() =~= other@.skip(i + 1));
            }
            match compare_str(ka.as_str(), kb.as_str()) {
                Order::Less => {
                    return Some(Ordering::Less);
                },
                Order::Greater => {
                    return Some(Ordering::Greater);
                },
                Order::Equal => {},
            }
            match va.partial_cmp(vb) {
                Some(Ordering::Equal) => {},
                o => {
                    return o;
                },
            }
            i = i + 1;
        }
        if i < self.len() {
            Some(Ordering::Greater)
        } else if i < other.len() {
            Some(Ordering::Less)
        } else {
            Some(Ordering::Equal)
        }
    }
}

impl<V: Ord> VecMap<V> {
    /// How this map compares with another, in lexicographic order of the entries.
    pub fn cmp(&self, other: &Self) -> (r: Ordering)
        ensures
            V::obeys_cmp_spec() ==> r == entries_order(self@, other@),
    {
        let mut i: usize = 0;
        assert(self@.skip(0int) =~= self@);
        assert(other@.skip(0int) =~= other@);
        while i < self.len() && i < other.len()
            invariant
                i <= self@.len(),
                i <= other@.len(),
                V::obeys_cmp_spec() ==> entries_order(self@, other@) == entries_order(
                    self@.skip(i + 0),
                    other@.skip(i + 0),
                ),
            decreases self@.len() - i,
        {
            let (ka, va) = self.entry_at(i);
            let (kb, vb) = other.entry_at(i);
            proof {
                lemma_key_order(ka@, kb@);
                assert(self@.skip(i + 0).drop_first() =~= self@.skip(i + 1));
                assert(other@.skip(i + 0).drop_first() =~= other@.skip(i + 1));
            }
            match compare_str(ka.as_str(), kb.as_str()) {
                Order::Less => {
                    return Ordering::Less;
                },
                Order::Greater => {
                    return Ordering::Greater;
                },
                Order::Equal => {},
            }
            match va.cmp(vb) {
                Ordering::Equal => {},
                o => {
                    return o;
                },
            }
            i = i + 1;
        }
        if i < self.len() {
            Ordering::Greater
        } else if i < other.len() {
            Ordering::Less
        } else {
            Ordering::Equal
        }
    }
}

} // verus!
