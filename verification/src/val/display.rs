//! The order in which the entries of a map are presented.
//!
//! A presentation order is a permutation of the positions of the sorted entries: `order[i]` is
//! the position of the entry presented as the `i`-th. An order that is given from outside is
//! taken as it is; positions past the end in it are passed over. An order speaks of as many
//! entries as there were when it was set. While there are more or fewer, there is none.
use core::hash::{Hash, Hasher};
use vstd::prelude::*;

use crate::collections::entries::{entries_of, entries_of_refs};
use crate::collections::vec_map::VecMap;

verus! {

/// A presentation order, or none.
///
/// It hashes as nothing, so that a value that carries one hashes as it does without.
#[derive(Debug)]
pub struct DisplayOrder {
    /// The positions.
    pub positions: Option<Vec<u32>>,
    /// The number of entries that they speak of.
    pub span: usize,
}

impl View for DisplayOrder {
    type V = Option<Seq<u32>>;

    open spec fn view(&self) -> Option<Seq<u32>> {
        match self.positions {
            Some(order) => Some(order@),
            None => None,
        }
    }
}

impl Clone for DisplayOrder {
    fn clone(&self) -> (r: Self)
        ensures
            r@ == self@,
            r.span == self.span,
    {
        let positions = match &self.positions {
            Some(order) => {
                let copy = order.clone();
                assert(copy@ =~= order@);
                Some(copy)
            },
            None => None,
        };
        DisplayOrder { positions, span: self.span }
    }
}

impl DisplayOrder {
    /// The order of `n` entries.
    pub open spec fn of(&self, n: nat) -> Option<Seq<u32>> {
        if self.span == n {
            self@
        } else {
            None
        }
    }

    /// No order.
    pub fn none() -> (r: Self)
        ensures
            r == (DisplayOrder { positions: None, span: 0 }),
    {
        DisplayOrder { positions: None, span: 0 }
    }

    /// Whether an order is set.
    pub fn is_some(&self) -> (b: bool)
        ensures
            b == self@ is Some,
    {
        self.positions.is_some()
    }

    /// Whether none is set.
    pub fn is_none(&self) -> (b: bool)
        ensures
            b == self@ is None,
    {
        self.positions.is_none()
    }

    /// Follows the entries as one more comes to stand at the position `at` of `len`.
    pub fn insert(&mut self, at: usize, len: usize)
        requires
            at <= len < usize::MAX,
        ensures
            final(self)@ == order_with(old(self).of(len as nat), at as int, len as nat),
            final(self).span == len + 1,
            is_order(old(self).of(len as nat), len as nat) ==> is_order(
                final(self)@,
                (len + 1) as nat,
            ),
    {
        proof {
            if let Some(order) = self.of(len as nat) {
                if is_permutation(order, len as nat) && len <= u32::MAX {
                    lemma_moved_up(order, at as int, len as nat);
                }
            }
        }
        let stale = self.span != len;
        self.span = len + 1;
        self.positions = match self.positions.take() {
            Some(order) => {
                if stale || len > u32::MAX as usize {
                    None
                } else {
                    let mut moved: Vec<u32> = Vec::new();
                    let mut k: usize = 0;
                    assert(moved@ =~= moved_up(order@.take(0), at as int, len as nat));
                    while k < order.len()
                        invariant
                            k <= order@.len(),
                            at <= len <= u32::MAX,
                            moved@ == moved_up(order@.take(k as int), at as int, len as nat),
                        decreases order@.len() - k,
                    {
                        let i: u32 = order[k];
                        assert(order@.take(k + 1).drop_last() =~= order@.take(k as int));
                        if (i as usize) < at {
                            moved.push(i);
                        } else if (i as usize) < len {
                            moved.push(i + 1);
                        }
                        k = k + 1;
                        assert(moved@ =~= moved_up(order@.take(k as int), at as int, len as nat));
                    }
                    assert(order@.take(k as int) =~= order@);
                    moved.push(at as u32);
                    Some(moved)
                }
            },
            None => None,
        };
    }

    /// Follows the entries as the one at the position `at` of `len` goes.
    pub fn remove(&mut self, at: usize, len: usize)
        requires
            at < len,
        ensures
            final(self)@ == order_without(old(self).of(len as nat), at as int, len as nat),
            final(self).span == len - 1,
            is_order(old(self).of(len as nat), len as nat) ==> is_order(
                final(self)@,
                (len - 1) as nat,
            ),
    {
        proof {
            if let Some(order) = self.of(len as nat) {
                if is_permutation(order, len as nat) {
                    lemma_moved_down(order, at as int, len as nat);
                }
            }
        }
        let stale = self.span != len;
        self.span = len - 1;
        self.positions = match self.positions.take() {
            Some(order) => {
                if stale {
                    None
                } else {
                    let mut moved: Vec<u32> = Vec::new();
                    let mut k: usize = 0;
                    assert(moved@ =~= moved_down(order@.take(0), at as int, len as nat));
                    while k < order.len()
                        invariant
                            k <= order@.len(),
                            at < len,
                            moved@ == moved_down(order@.take(k as int), at as int, len as nat),
                        decreases order@.len() - k,
                    {
                        let i: u32 = order[k];
                        assert(order@.take(k + 1).drop_last() =~= order@.take(k as int));
                        if (i as usize) < at {
                            moved.push(i);
                        } else if at < (i as usize) && (i as usize) < len {
                            moved.push(i - 1);
                        }
                        k = k + 1;
                        assert(moved@ =~= moved_down(
                            order@.take(k as int),
                            at as int,
                            len as nat,
                        ));
                    }
                    assert(order@.take(k as int) =~= order@);
                    Some(moved)
                }
            },
            None => None,
        };
    }
}

impl Hash for DisplayOrder {
    fn hash<H: Hasher>(&self, state: &mut H)
        ensures
            *final(state) == *old(state),
    {
    }
}

/// The order mentions every position of `n` entries, and each of them once.
pub open spec fn is_permutation(order: Seq<u32>, n: nat) -> bool {
    &&& order.len() == n
    &&& order.no_duplicates()
    &&& forall|j: int| 0 <= j < order.len() ==> #[trigger] order[j] < n
}

/// There is no order, or it is a permutation of the positions of `n` entries.
pub open spec fn is_order(order: Option<Seq<u32>>, n: nat) -> bool {
    match order {
        Some(order) => is_permutation(order, n),
        None => true,
    }
}

/// The positions of `n` entries once one more stands at the position `at`: those at or behind
/// it move up.
pub open spec fn moved_up(order: Seq<u32>, at: int, n: nat) -> Seq<u32> {
    order.filter_map(
        |i: u32|
            if i < at {
                Some(i)
            } else if i < n {
                Some((i + 1) as u32)
            } else {
                None
            },
    )
}

/// The positions of `n` entries once the one at the position `at` is gone: those behind it move
/// down.
pub open spec fn moved_down(order: Seq<u32>, at: int, n: nat) -> Seq<u32> {
    order.filter_map(
        |i: u32|
            if i < at {
                Some(i)
            } else if at < i < n {
                Some((i - 1) as u32)
            } else {
                None
            },
    )
}

/// The order of `n` entries once one more stands at the position `at`: it is presented last. A
/// position has 32 bits; where these cannot tell the entries apart, there is no order.
pub open spec fn order_with(order: Option<Seq<u32>>, at: int, n: nat) -> Option<Seq<u32>> {
    match order {
        Some(order) if n <= u32::MAX => Some(moved_up(order, at, n).push(at as u32)),
        _ => None,
    }
}

/// The order of `n` entries once the one at the position `at` is gone.
pub open spec fn order_without(order: Option<Seq<u32>>, at: int, n: nat) -> Option<Seq<u32>> {
    match order {
        Some(order) => Some(moved_down(order, at, n)),
        None => None,
    }
}

/// The entries at the given positions.
pub open spec fn picked<V>(entries: Seq<(Seq<char>, V)>, order: Seq<u32>) -> Seq<(Seq<char>, V)> {
    order.filter_map(
        |i: u32|
            if i < entries.len() {
                Some(entries[i as int])
            } else {
                None
            },
    )
}

/// The entries as they are presented: by the order, or sorted where there is none.
pub open spec fn displayed<V>(entries: Seq<(Seq<char>, V)>, order: Option<Seq<u32>>) -> Seq<
    (Seq<char>, V),
> {
    match order {
        Some(order) => picked(entries, order),
        None => entries,
    }
}

/// The order mentions the position `j`.
pub open spec fn mentions(order: Seq<u32>, j: int) -> bool {
    exists|p: int| 0 <= p < order.len() && #[trigger] order[p] == j
}

/// The entries at the given positions, each at the first of its mentions only.
pub open spec fn taken<V>(entries: Seq<(Seq<char>, V)>, order: Seq<u32>) -> Seq<(Seq<char>, V)>
    decreases order.len(),
{
    if order.len() == 0 {
        Seq::empty()
    } else {
        let rest = order.drop_last();
        if order.last() < entries.len() && !mentions(rest, order.last() as int) {
            taken(entries, rest).push(entries[order.last() as int])
        } else {
            taken(entries, rest)
        }
    }
}

/// A permutation mentions every position.
pub proof fn lemma_permutation_mentions(order: Seq<u32>, n: nat)
    requires
        is_permutation(order, n),
    ensures
        forall|i: int| 0 <= i < n ==> #[trigger] mentions(order, i),
{
    let positions = lemma_positions(order, n);
    let all = vstd::set_lib::set_int_range(0, n as int);
    vstd::set_lib::lemma_int_range(0, n as int);
    vstd::set_lib::lemma_subset_equality(positions.to_set(), all);
    assert forall|i: int| 0 <= i < n implies #[trigger] mentions(order, i) by {
        assert(all.contains(i));
        assert(positions.contains(i));
        let j = choose|j: int| 0 <= j < positions.len() && positions[j] == i;
        assert(order[j] == i);
    }
}

/// What mentions every position, and none twice or past the end, is a permutation.
pub proof fn lemma_mentions_permutation(order: Seq<u32>, n: nat)
    requires
        order.no_duplicates(),
        forall|j: int| 0 <= j < order.len() ==> #[trigger] order[j] < n,
        forall|i: int| 0 <= i < n ==> #[trigger] mentions(order, i),
    ensures
        is_permutation(order, n),
{
    let positions = lemma_positions(order, n);
    let all = vstd::set_lib::set_int_range(0, n as int);
    vstd::set_lib::lemma_int_range(0, n as int);
    assert(all =~= positions.to_set()) by {
        assert forall|i: int| all.contains(i) implies positions.to_set().contains(i) by {
            assert(mentions(order, i));
            let p = choose|p: int| 0 <= p < order.len() && #[trigger] order[p] == i;
            assert(positions[p] == i);
        }
    }
}

/// The positions of an order as integers: as many as it has, all of them in range.
proof fn lemma_positions(order: Seq<u32>, n: nat) -> (positions: Seq<int>)
    requires
        order.no_duplicates(),
        forall|j: int| 0 <= j < order.len() ==> #[trigger] order[j] < n,
    ensures
        positions == order.map_values(|i: u32| i as int),
        positions.to_set().len() == order.len(),
        positions.to_set().finite(),
        positions.to_set().subset_of(vstd::set_lib::set_int_range(0, n as int)),
{
    let positions = order.map_values(|i: u32| i as int);
    assert(positions.no_duplicates()) by {
        assert forall|a: int, b: int|
            0 <= a < positions.len() && 0 <= b < positions.len() && a != b implies positions[a]
            != positions[b] by {
            assert(order[a] != order[b]);
        }
    }
    positions.unique_seq_to_set();
    vstd::seq_lib::seq_to_set_is_finite(positions);
    let all = vstd::set_lib::set_int_range(0, n as int);
    assert forall|x: int| positions.to_set().contains(x) implies all.contains(x) by {
        let j = choose|j: int| 0 <= j < positions.len() && positions[j] == x;
        assert(order[j] == x);
    }
    positions
}

/// Positions that move up stay in their relative order and stay apart.
proof fn lemma_moved_up_positions(order: Seq<u32>, at: int, n: nat)
    requires
        0 <= at <= n <= u32::MAX,
        forall|j: int| 0 <= j < order.len() ==> #[trigger] order[j] < n,
    ensures
        moved_up(order, at, n).len() == order.len(),
        forall|j: int|
            0 <= j < order.len() ==> #[trigger] moved_up(order, at, n)[j] == (if order[j] < at {
                order[j] as int
            } else {
                order[j] + 1
            }),
    decreases order.len(),
{
    if order.len() > 0 {
        let rest = order.drop_last();
        lemma_moved_up_positions(rest, at, n);
        assert(order[order.len() - 1] < n);
        assert forall|j: int| 0 <= j < order.len() implies #[trigger] moved_up(order, at, n)[j] == (
        if order[j] < at {
            order[j] as int
        } else {
            order[j] + 1
        }) by {
            if j < rest.len() {
                assert(moved_up(order, at, n)[j] == moved_up(rest, at, n)[j]);
            }
        }
    }
}

/// A permutation with one more position at its end is a permutation.
proof fn lemma_moved_up(order: Seq<u32>, at: int, n: nat)
    requires
        is_permutation(order, n),
        0 <= at <= n <= u32::MAX,
    ensures
        is_permutation(moved_up(order, at, n).push(at as u32), n + 1),
{
    lemma_moved_up_positions(order, at, n);
    let moved = moved_up(order, at, n);
    let all = moved.push(at as u32);
    assert forall|a: int, b: int| 0 <= a < all.len() && 0 <= b < all.len() && a != b implies all[a]
        != all[b] by {
        if a < order.len() && b < order.len() {
            assert(moved[a] == all[a] && moved[b] == all[b]);
            assert(order[a] != order[b]);
        } else if a < order.len() {
            assert(moved[a] == all[a]);
        } else {
            assert(moved[b] == all[b]);
        }
    }
    assert forall|j: int| 0 <= j < all.len() implies #[trigger] all[j] < n + 1 by {
        if j < order.len() {
            assert(moved[j] == all[j]);
            assert(order[j] < n);
        }
    }
}

/// Positions of which one goes: as many as there were without it, apart and in range.
proof fn lemma_moved_down_positions(order: Seq<u32>, at: int, n: nat)
    requires
        0 <= at < n,
        order.no_duplicates(),
        forall|j: int| 0 <= j < order.len() ==> #[trigger] order[j] < n,
    ensures
        moved_down(order, at, n).len() == order.len() - (if mentions(order, at) {
            1int
        } else {
            0int
        }),
        moved_down(order, at, n).no_duplicates(),
        forall|j: int|
            0 <= j < moved_down(order, at, n).len() ==> #[trigger] moved_down(order, at, n)[j] < n
                - 1,
        forall|i: int|
            #[trigger] mentions(moved_down(order, at, n), i) ==> mentions(
                order,
                if i < at {
                    i
                } else {
                    i + 1
                },
            ),
    decreases order.len(),
{
    let moved = moved_down(order, at, n);
    if order.len() == 0 {
        assert(moved =~= Seq::empty());
    } else {
        let rest = order.drop_last();
        let x = order.last();
        assert(order =~= rest.push(x));
        lemma_mentions_push(rest, x);
        assert(order[order.len() - 1] < n);
        assert(rest.no_duplicates()) by {
            assert forall|a: int, b: int|
                0 <= a < rest.len() && 0 <= b < rest.len() && a != b implies rest[a] != rest[b] by {
                assert(order[a] != order[b]);
            }
        }
        lemma_moved_down_positions(rest, at, n);
        let before = moved_down(rest, at, n);
        if mentions(rest, x as int) {
            let p = choose|p: int| 0 <= p < rest.len() && #[trigger] rest[p] == x as int;
            assert(order[p] != order[order.len() - 1]);
        }
        if x == at {
            assert(moved =~= before);
        } else {
            let y: u32 = if x < at {
                x
            } else {
                (x - 1) as u32
            };
            assert(moved =~= before.push(y));
            lemma_mentions_push(before, y);
            assert(!mentions(before, y as int));
            assert forall|a: int, b: int|
                0 <= a < moved.len() && 0 <= b < moved.len() && a != b implies moved[a]
                != moved[b] by {
                if a < before.len() && b < before.len() {
                    assert(before[a] != before[b]);
                } else if a < before.len() {
                    assert(before[a] == moved[a]);
                } else {
                    assert(before[b] == moved[b]);
                }
            }
            assert forall|j: int| 0 <= j < moved.len() implies #[trigger] moved[j] < n - 1 by {
                if j < before.len() {
                    assert(before[j] == moved[j]);
                }
            }
        }
    }
}

/// A permutation without one of its positions is a permutation.
proof fn lemma_moved_down(order: Seq<u32>, at: int, n: nat)
    requires
        is_permutation(order, n),
        0 <= at < n,
    ensures
        is_permutation(moved_down(order, at, n), (n - 1) as nat),
{
    lemma_permutation_mentions(order, n);
    assert(mentions(order, at));
    lemma_moved_down_positions(order, at, n);
}

/// One more position presents one more entry, or none when it is past the end.
pub proof fn lemma_picked_push<V>(entries: Seq<(Seq<char>, V)>, order: Seq<u32>, i: u32)
    ensures
        picked(entries, order.push(i)) == (if i < entries.len() {
            picked(entries, order).push(entries[i as int])
        } else {
            picked(entries, order)
        }),
{
    assert(order.push(i).drop_last() =~= order);
    assert(picked(entries, order.push(i)) =~= (if i < entries.len() {
        picked(entries, order).push(entries[i as int])
    } else {
        picked(entries, order)
    }));
}

/// The entries of `map` as they are presented.
pub fn present<'a, V>(map: &'a VecMap<V>, order: &DisplayOrder) -> (r: Vec<(&'a String, &'a V)>)
    ensures
        entries_of_refs(r@) == displayed(map@, order.of(map@.len())),
{
    let len = map.len();
    match &order.positions {
        Some(positions) if order.span == len => {
            let order = positions;
            let mut r: Vec<(&String, &V)> = Vec::new();
            let mut n: usize = 0;
            proof {
                assert(order@.take(0) =~= Seq::<u32>::empty());
                assert(entries_of_refs(r@) =~= picked(map@, order@.take(0)));
            }
            while n < order.len()
                invariant
                    n <= order@.len(),
                    entries_of_refs(r@) == picked(map@, order@.take(n as int)),
                decreases order@.len() - n,
            {
                let i: u32 = order[n];
                proof {
                    assert(order@.take(n + 1) =~= order@.take(n as int).push(i));
                    lemma_picked_push(map@, order@.take(n as int), i);
                }
                let ghost before = r@;
                if (i as usize) < map.len() {
                    let e = map.entry_at(i as usize);
                    r.push(e);
                    assert(entries_of_refs(r@) =~= entries_of_refs(before).push(
                        map@[i as int],
                    ));
                }
                n = n + 1;
            }
            assert(order@.take(n as int) =~= order@);
            r
        },
        _ => map.iter(),
    }
}

/// One more position is mentioned.
pub proof fn lemma_mentions_push(order: Seq<u32>, i: u32)
    ensures
        forall|j: int| #[trigger] mentions(order.push(i), j) <==> mentions(order, j) || j == i,
{
    assert forall|j: int| #[trigger] mentions(order.push(i), j) <==> mentions(order, j) || j == i by {
        if mentions(order, j) {
            let p = choose|p: int| 0 <= p < order.len() && #[trigger] order[p] == j;
            assert(order.push(i)[p] == j);
        }
        assert(order.push(i)[order.len() as int] == i);
        if mentions(order.push(i), j) && j != i {
            let p = choose|p: int| 0 <= p < order.push(i).len() && #[trigger] order.push(i)[p] == j;
            assert(order[p] == j);
        }
    }
}

/// One more position takes one more entry, or none when it is past the end or was taken before.
pub proof fn lemma_taken_push<V>(entries: Seq<(Seq<char>, V)>, order: Seq<u32>, i: u32)
    ensures
        taken(entries, order.push(i)) == (if i < entries.len() && !mentions(order, i as int) {
            taken(entries, order).push(entries[i as int])
        } else {
            taken(entries, order)
        }),
{
    assert(order.push(i).drop_last() =~= order);
}

/// Gives up `map` for its entries as they are presented; an entry goes to the first position
/// that mentions it.
pub fn present_owned<V>(map: VecMap<V>, order: DisplayOrder) -> (r: Vec<(String, V)>)
    ensures
        entries_of(r@) == (match order.of(map@.len()) {
            Some(order) => taken(map@, order),
            None => map@,
        }),
{
    let span = order.span;
    let entries = map.into_entries();
    let len = entries.len();
    match order.positions {
        Some(order) if span == len => {
            let ghost held = entries_of(entries@);
            let mut slots: Vec<Option<(String, V)>> = Vec::new();
            for e in it: entries
                invariant
                    it.seq() == entries@,
                    slots@.len() == it.index(),
                    held == entries_of(entries@),
                    forall|j: int| 0 <= j < slots@.len() ==> #[trigger] slots@[j] == Some(entries@[j]),
            {
                slots.push(Some(e));
            }
            let mut r: Vec<(String, V)> = Vec::new();
            let mut n: usize = 0;
            proof {
                assert(order@.take(0) =~= Seq::<u32>::empty());
                assert(entries_of(r@) =~= taken(held, order@.take(0)));
            }
            while n < order.len()
                invariant
                    n <= order@.len(),
                    slots@.len() == held.len(),
                    held == entries_of(entries@),
                    forall|j: int|
                        0 <= j < slots@.len() ==> #[trigger] slots@[j] == (if mentions(
                            order@.take(n as int),
                            j,
                        ) {
                            None
                        } else {
                            Some(entries@[j])
                        }),
                    entries_of(r@) == taken(held, order@.take(n as int)),
                decreases order@.len() - n,
            {
                let i: u32 = order[n];
                proof {
                    assert(order@.take(n + 1) =~= order@.take(n as int).push(i));
                    lemma_taken_push(held, order@.take(n as int), i);
                    lemma_mentions_push(order@.take(n as int), i);
                }
                let ghost before = r@;
                if (i as usize) < slots.len() {
                    let slot = slots[i as usize].take();
                    if let Some(e) = slot {
                        r.push(e);
                        assert(entries_of(r@) =~= entries_of(before).push(held[i as int]));
                    }
                }
                n = n + 1;
            }
            assert(order@.take(n as int) =~= order@);
            r
        },
        _ => entries,
    }
}

} // verus!
