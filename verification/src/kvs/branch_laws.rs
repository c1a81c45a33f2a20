//! What the overlay of a branch over its parent guarantees.
use vstd::prelude::*;
use vstd::std_specs::iter::IteratorSpec;

use crate::bytes::{
    lemma_lex_common_prefix, lemma_lex_total, lemma_lex_transitive, lex_le, lex_lt, lex_order,
};
use crate::key::encoding::STAR;
use crate::kvs::branch::{
    branch_key, entries_view, live_rows, logical, logical_key, next_step, overlay,
    rekey_into_branch, rows_view, BranchEntry, Entry, Key, MergeCursor, Row, Step, Val,
    NSDB_PREFIX_LEN,
};

verus! {

/// The logical key of the `i`-th item of a keyed sequence.
pub open spec fn logical_at<T>(s: Seq<(Seq<u8>, T)>, i: int) -> Seq<u8> {
    logical_key(s[i].0)
}

/// The items ascend by logical key; equal keys may stand side by side.
pub open spec fn ascending<T>(s: Seq<(Seq<u8>, T)>) -> bool {
    forall|i: int, j: int|
        0 <= i < j < s.len() ==> lex_le(#[trigger] logical_at(s, i), #[trigger] logical_at(s, j))
}

/// The items strictly ascend by logical key, as those of one range do.
pub open spec fn strictly_ascending<T>(s: Seq<(Seq<u8>, T)>) -> bool {
    forall|i: int, j: int|
        0 <= i < j < s.len() ==> lex_lt(#[trigger] logical_at(s, i), #[trigger] logical_at(s, j))
}

/// The branch range has an entry, live or tombstone, for the logical row `l`.
pub open spec fn branch_decides(branch: Seq<Entry>, l: Seq<u8>) -> bool {
    exists|i: int| 0 <= i < branch.len() && #[trigger] logical_at(branch, i) == l
}

/// How many items have the logical key `l`.
pub open spec fn count_of<T>(s: Seq<(Seq<u8>, T)>, l: Seq<u8>) -> nat
    decreases s.len(),
{
    if s.len() == 0 {
        0
    } else {
        (if logical_at(s, 0) == l {
            1nat
        } else {
            0nat
        }) + count_of(s.drop_first(), l)
    }
}

/// Of a logical row that the branch range decides, the parent range has no more rows than the
/// branch range has entries. In ranges without repeated keys, it has one at most.
pub open spec fn shadows(branch: Seq<Entry>, parent: Seq<Row>) -> bool {
    forall|l: Seq<u8>| #[trigger]
        count_of(branch, l) > 0 ==> count_of(parent, l) <= count_of(branch, l)
}

/// `row` is a live entry of the branch range.
pub open spec fn is_live_branch_row(branch: Seq<Entry>, row: Row) -> bool {
    branch.contains((row.0, Some(row.1)))
}

/// `row` is the `j`-th parent row in the branch keyspace, and the branch range leaves its
/// logical row alone.
pub open spec fn inherited_at(
    branch: Seq<Entry>,
    parent: Seq<Row>,
    branch_prefix: Seq<u8>,
    row: Row,
    j: int,
) -> bool {
    &&& 0 <= j < parent.len()
    &&& row == (branch_key(branch_prefix, parent[j].0), parent[j].1)
    &&& !branch_decides(branch, logical_at(parent, j))
}

/// `row` is a parent row in the branch keyspace, of a logical row that the branch range
/// leaves alone.
pub open spec fn is_inherited_row(
    branch: Seq<Entry>,
    parent: Seq<Row>,
    branch_prefix: Seq<u8>,
    row: Row,
) -> bool {
    exists|j: int| #[trigger] inherited_at(branch, parent, branch_prefix, row, j)
}

/// Rewriting a parent key into the branch keyspace keeps its logical key.
pub proof fn law_rekeying_keeps_logical_key(branch_prefix: Seq<u8>, parent_key: Seq<u8>)
    requires
        branch_prefix.len() == NSDB_PREFIX_LEN,
    ensures
        logical_key(branch_key(branch_prefix, parent_key)) == logical_key(parent_key),
{
    assert((branch_prefix + logical_key(parent_key)).skip(NSDB_PREFIX_LEN as int) =~= logical_key(
        parent_key,
    ));
}

/// A key that already carries the branch prefix is not changed by rewriting it into the
/// branch keyspace.
pub proof fn law_rekeying_branch_key(branch_prefix: Seq<u8>, key: Seq<u8>)
    requires
        branch_prefix.len() == NSDB_PREFIX_LEN,
        branch_prefix.is_prefix_of(key),
    ensures
        branch_key(branch_prefix, key) == key,
{
    assert(branch_prefix + key.skip(NSDB_PREFIX_LEN as int) =~= key);
}

/// Within one ns+db prefix, ordering by logical key is ordering by raw key.
pub proof fn law_logical_order_is_raw_order(prefix: Seq<u8>, a: Seq<u8>, b: Seq<u8>)
    requires
        prefix.len() == NSDB_PREFIX_LEN,
        prefix.is_prefix_of(a),
        prefix.is_prefix_of(b),
    ensures
        lex_order(a, b) == lex_order(logical_key(a), logical_key(b)),
{
    law_rekeying_branch_key(prefix, a);
    law_rekeying_branch_key(prefix, b);
    lemma_lex_common_prefix(prefix, logical_key(a), logical_key(b));
}

/// Every logical key of `s` is at or after `l`, and after it where `strict`.
spec fn bounded<T>(s: Seq<(Seq<u8>, T)>, l: Seq<u8>, strict: bool) -> bool {
    forall|i: int|
        0 <= i < s.len() ==> lex_le(l, #[trigger] logical_at(s, i)) && (strict ==> l != logical_at(
            s,
            i,
        ))
}

/// An ascending sequence is bounded by what bounds its head.
proof fn lemma_head_bounds<T>(s: Seq<(Seq<u8>, T)>, l: Seq<u8>, strict: bool)
    requires
        ascending(s),
        s.len() > 0 ==> lex_le(l, logical_at(s, 0)),
        s.len() > 0 && strict ==> l != logical_at(s, 0),
    ensures
        bounded(s, l, strict),
{
    assert forall|i: int| 0 <= i < s.len() implies lex_le(l, #[trigger] logical_at(s, i)) && (strict
        ==> l != logical_at(s, i)) by {
        if i > 0 {
            assert(lex_le(logical_at(s, 0), logical_at(s, i)));
            lemma_lex_total(l, logical_at(s, i));
            lemma_lex_total(l, logical_at(s, 0));
            if l != logical_at(s, 0) && logical_at(s, 0) != logical_at(s, i) {
                lemma_lex_transitive(l, logical_at(s, 0), logical_at(s, i));
            }
        }
    }
}

/// What follows the head of a sequence: its items, its order and the bound the head gives.
proof fn lemma_tail<T>(s: Seq<(Seq<u8>, T)>)
    requires
        s.len() > 0,
    ensures
        forall|i: int|
            0 <= i < s.len() - 1 ==> #[trigger] logical_at(s.drop_first(), i) == logical_at(s, i + 1),
        ascending(s) ==> ascending(s.drop_first()) && bounded(
            s.drop_first(),
            logical_at(s, 0),
            false,
        ),
        strictly_ascending(s) ==> strictly_ascending(s.drop_first()) && bounded(
            s.drop_first(),
            logical_at(s, 0),
            true,
        ),
{
    let t = s.drop_first();
    assert forall|i: int| 0 <= i < t.len() implies #[trigger] logical_at(t, i) == logical_at(
        s,
        i + 1,
    ) by {}
    if strictly_ascending(s) {
        assert forall|i: int| 0 <= i < t.len() implies lex_le(
            logical_at(s, 0),
            #[trigger] logical_at(t, i),
        ) && logical_at(s, 0) != logical_at(t, i) by {
            assert(lex_lt(logical_at(s, 0), logical_at(s, i + 1)));
            lemma_lex_total(logical_at(s, 0), logical_at(s, i + 1));
        }
        assert forall|i: int, j: int| 0 <= i < j < t.len() implies lex_lt(
            #[trigger] logical_at(t, i),
            #[trigger] logical_at(t, j),
        ) by {
            assert(lex_lt(logical_at(s, i + 1), logical_at(s, j + 1)));
        }
    }
    if ascending(s) {
        assert forall|i: int| 0 <= i < t.len() implies lex_le(
            logical_at(s, 0),
            #[trigger] logical_at(t, i),
        ) by {
            assert(lex_le(logical_at(s, 0), logical_at(s, i + 1)));
        }
        assert forall|i: int, j: int| 0 <= i < j < t.len() implies lex_le(
            #[trigger] logical_at(t, i),
            #[trigger] logical_at(t, j),
        ) by {
            assert(lex_le(logical_at(s, i + 1), logical_at(s, j + 1)));
        }
    }
}

/// Putting a row in front of rows that its logical key bounds keeps them in order.
proof fn lemma_push_front(row: Row, rest: Seq<Row>, strict: bool)
    requires
        bounded(rest, logical_key(row.0), strict),
    ensures
        ascending(rest) ==> ascending(seq![row] + rest),
        strict && strictly_ascending(rest) ==> strictly_ascending(seq![row] + rest),
{
    let all = seq![row] + rest;
    assert(logical_at(all, 0) == logical_key(row.0));
    assert forall|i: int| 1 <= i < all.len() implies #[trigger] logical_at(all, i) == logical_at(
        rest,
        i - 1,
    ) by {}
    if ascending(rest) {
        assert forall|i: int, j: int| 0 <= i < j < all.len() implies lex_le(
            #[trigger] logical_at(all, i),
            #[trigger] logical_at(all, j),
        ) by {
            if i == 0 {
                assert(lex_le(logical_key(row.0), logical_at(rest, j - 1)));
            } else {
                assert(lex_le(logical_at(rest, i - 1), logical_at(rest, j - 1)));
            }
        }
    }
    if strict && strictly_ascending(rest) {
        assert forall|i: int, j: int| 0 <= i < j < all.len() implies lex_lt(
            #[trigger] logical_at(all, i),
            #[trigger] logical_at(all, j),
        ) by {
            if i == 0 {
                assert(lex_le(logical_key(row.0), logical_at(rest, j - 1)));
            } else {
                assert(lex_lt(logical_at(rest, i - 1), logical_at(rest, j - 1)));
            }
        }
    }
}

/// What bounds both sources bounds their overlay.
proof fn lemma_overlay_bounded(
    branch: Seq<Entry>,
    parent: Seq<Row>,
    branch_prefix: Seq<u8>,
    l: Seq<u8>,
    strict: bool,
)
    requires
        branch_prefix.len() == NSDB_PREFIX_LEN,
        bounded(branch, l, strict),
        bounded(parent, l, strict),
    ensures
        bounded(overlay(branch, parent, branch_prefix), l, strict),
    decreases branch.len() + parent.len(),
{
    let b1 = branch.drop_first();
    let p1 = parent.drop_first();
    if branch.len() > 0 {
        lemma_tail(branch);
        assert(logical_at(branch, 0) == logical_key(branch[0].0));
    }
    if parent.len() > 0 {
        lemma_tail(parent);
        assert(logical_at(parent, 0) == logical_key(parent[0].0));
        law_rekeying_keeps_logical_key(branch_prefix, parent[0].0);
    }
    let (rest, front) = match next_step(branch, parent) {
        Step::Done => (Seq::<Row>::empty(), Seq::<Row>::empty()),
        Step::TakeBranch => {
            lemma_overlay_bounded(b1, parent, branch_prefix, l, strict);
            (overlay(b1, parent, branch_prefix), live_rows(branch[0]))
        },
        Step::TakeParent => {
            lemma_overlay_bounded(branch, p1, branch_prefix, l, strict);
            (
                overlay(branch, p1, branch_prefix),
                seq![(branch_key(branch_prefix, parent[0].0), parent[0].1)],
            )
        },
        Step::TakeBoth => {
            lemma_overlay_bounded(b1, p1, branch_prefix, l, strict);
            (overlay(b1, p1, branch_prefix), live_rows(branch[0]))
        },
    };
    let all = front + rest;
    assert forall|i: int| 0 <= i < all.len() implies lex_le(l, #[trigger] logical_at(all, i)) && (
    strict ==> l != logical_at(all, i)) by {
        if i >= front.len() {
            assert(logical_at(all, i) == logical_at(rest, i - front.len()));
        }
    }
}

/// Sorted sources give a sorted overlay; sources without repeated keys give one without
/// repeated keys.
pub proof fn law_overlay_sorted(branch: Seq<Entry>, parent: Seq<Row>, branch_prefix: Seq<u8>)
    requires
        branch_prefix.len() == NSDB_PREFIX_LEN,
        ascending(branch),
        ascending(parent),
    ensures
        ascending(overlay(branch, parent, branch_prefix)),
        strictly_ascending(branch) && strictly_ascending(parent) ==> strictly_ascending(
            overlay(branch, parent, branch_prefix),
        ),
    decreases branch.len() + parent.len(),
{
    let strict = strictly_ascending(branch) && strictly_ascending(parent);
    let b1 = branch.drop_first();
    let p1 = parent.drop_first();
    if branch.len() > 0 {
        lemma_tail(branch);
        assert(logical_at(branch, 0) == logical_key(branch[0].0));
    }
    if parent.len() > 0 {
        lemma_tail(parent);
        assert(logical_at(parent, 0) == logical_key(parent[0].0));
        law_rekeying_keeps_logical_key(branch_prefix, parent[0].0);
    }
    if branch.len() > 0 && parent.len() > 0 {
        lemma_lex_total(logical_at(branch, 0), logical_at(parent, 0));
    }
    match next_step(branch, parent) {
        Step::Done => {},
        Step::TakeBranch => {
            let rest = overlay(b1, parent, branch_prefix);
            law_overlay_sorted(b1, parent, branch_prefix);
            lemma_head_bounds(parent, logical_at(branch, 0), strict);
            lemma_overlay_bounded(b1, parent, branch_prefix, logical_at(branch, 0), strict);
            match branch[0].1 {
                Some(v) => lemma_push_front((branch[0].0, v), rest, strict),
                None => assert(live_rows(branch[0]) + rest =~= rest),
            }
        },
        Step::TakeParent => {
            let rest = overlay(branch, p1, branch_prefix);
            law_overlay_sorted(branch, p1, branch_prefix);
            lemma_head_bounds(branch, logical_at(parent, 0), strict);
            lemma_overlay_bounded(branch, p1, branch_prefix, logical_at(parent, 0), strict);
            lemma_push_front(
                (branch_key(branch_prefix, parent[0].0), parent[0].1),
                rest,
                strict,
            );
        },
        Step::TakeBoth => {
            let rest = overlay(b1, p1, branch_prefix);
            law_overlay_sorted(b1, p1, branch_prefix);
            lemma_overlay_bounded(b1, p1, branch_prefix, logical_at(branch, 0), strict);
            match branch[0].1 {
                Some(v) => lemma_push_front((branch[0].0, v), rest, strict),
                None => assert(live_rows(branch[0]) + rest =~= rest),
            }
        },
    }
}

/// Exactly the live rows of the branch and the parent rows that the branch leaves alone make
/// up the overlay: the branch wins over the parent, a tombstone hides the parent row beneath
/// it, and everything else falls through.
pub proof fn law_overlay_rows(
    branch: Seq<Entry>,
    parent: Seq<Row>,
    branch_prefix: Seq<u8>,
    row: Row,
)
    requires
        ascending(branch),
        ascending(parent),
        shadows(branch, parent),
    ensures
        overlay(branch, parent, branch_prefix).contains(row) <==> (is_live_branch_row(branch, row)
            || is_inherited_row(branch, parent, branch_prefix, row)),
    decreases branch.len() + parent.len(),
{
    let b1 = branch.drop_first();
    let p1 = parent.drop_first();
    if branch.len() > 0 {
        lemma_tail(branch);
        lemma_contains_head_or_tail(branch, (row.0, Some(row.1)));
        if branch[0] == (row.0, Some(row.1)) {
            assert(live_rows(branch[0])[0] == row);
        }
    }
    if parent.len() > 0 {
        lemma_tail(parent);
    }
    if branch.len() > 0 && parent.len() > 0 {
        lemma_lex_total(logical_at(branch, 0), logical_at(parent, 0));
    }
    match next_step(branch, parent) {
        Step::Done => {},
        Step::TakeBranch => {
            lemma_head_bounds(parent, logical_at(branch, 0), true);
            lemma_shadows_rest(branch, parent);
            law_overlay_rows(b1, parent, branch_prefix, row);
            lemma_front_contains(live_rows(branch[0]), overlay(b1, parent, branch_prefix), row);
            lemma_inherited_same_parent(branch, parent, branch_prefix, row);
        },
        Step::TakeParent => {
            lemma_head_bounds(branch, logical_at(parent, 0), true);
            lemma_shadows_rest(branch, parent);
            law_overlay_rows(branch, p1, branch_prefix, row);
            let front = (branch_key(branch_prefix, parent[0].0), parent[0].1);
            lemma_front_contains(seq![front], overlay(branch, p1, branch_prefix), row);
            lemma_inherited_head_or_tail(branch, parent, branch_prefix, row);
            if row == front {
                assert(seq![front][0] == row);
                assert(inherited_at(branch, parent, branch_prefix, row, 0));
            }
        },
        Step::TakeBoth => {
            lemma_shadows_rest(branch, parent);
            law_overlay_rows(b1, p1, branch_prefix, row);
            lemma_front_contains(live_rows(branch[0]), overlay(b1, p1, branch_prefix), row);
            lemma_inherited_head_or_tail(branch, parent, branch_prefix, row);
            lemma_inherited_same_parent(branch, p1, branch_prefix, row);
            assert(branch_decides(branch, logical_at(branch, 0)));
        },
    }
}

/// There is an item with the logical key `l` where they are counted, and only there.
proof fn lemma_count<T>(s: Seq<(Seq<u8>, T)>, l: Seq<u8>)
    ensures
        count_of(s, l) > 0 <==> exists|i: int| 0 <= i < s.len() && #[trigger] logical_at(s, i) == l,
    decreases s.len(),
{
    if s.len() > 0 {
        let t = s.drop_first();
        lemma_tail(s);
        lemma_count(t, l);
        if exists|i: int| 0 <= i < s.len() && #[trigger] logical_at(s, i) == l {
            let i = choose|i: int| 0 <= i < s.len() && #[trigger] logical_at(s, i) == l;
            if i > 0 {
                assert(logical_at(t, i - 1) == l);
            }
        }
        if count_of(t, l) > 0 {
            let i = choose|i: int| 0 <= i < t.len() && #[trigger] logical_at(t, i) == l;
            assert(logical_at(s, i + 1) == l);
        }
    }
}

/// What a step leaves of two ranges stands in the same relation as they do.
proof fn lemma_shadows_rest(branch: Seq<Entry>, parent: Seq<Row>)
    requires
        ascending(branch),
        ascending(parent),
        shadows(branch, parent),
    ensures
        match next_step(branch, parent) {
            Step::Done => true,
            Step::TakeBranch => shadows(branch.drop_first(), parent),
            Step::TakeParent => shadows(branch, parent.drop_first()),
            Step::TakeBoth => {
                &&& shadows(branch.drop_first(), parent.drop_first())
                &&& forall|j: int|
                    0 <= j < parent.len() - 1 && #[trigger] logical_at(parent.drop_first(), j)
                        == logical_at(branch, 0) ==> branch_decides(
                        branch.drop_first(),
                        logical_at(branch, 0),
                    )
            },
        },
{
    let b1 = branch.drop_first();
    let p1 = parent.drop_first();
    match next_step(branch, parent) {
        Step::Done => {},
        Step::TakeBranch => {
            if parent.len() > 0 {
                lemma_lex_total(logical_at(branch, 0), logical_at(parent, 0));
            }
            lemma_head_bounds(parent, logical_at(branch, 0), true);
            lemma_count(parent, logical_at(branch, 0));
            assert forall|l: Seq<u8>| #[trigger] count_of(b1, l) > 0 implies count_of(parent, l)
                <= count_of(b1, l) by {
                assert(count_of(branch, l) > 0);
            }
        },
        Step::TakeParent => {
            assert forall|l: Seq<u8>| #[trigger] count_of(branch, l) > 0 implies count_of(p1, l)
                <= count_of(branch, l) by {
                assert(count_of(parent, l) <= count_of(branch, l));
            }
        },
        Step::TakeBoth => {
            let head = logical_at(branch, 0);
            assert forall|l: Seq<u8>| #[trigger] count_of(b1, l) > 0 implies count_of(p1, l)
                <= count_of(b1, l) by {
                assert(count_of(branch, l) > 0);
            }
            assert forall|j: int|
                0 <= j < p1.len() && #[trigger] logical_at(p1, j) == head implies branch_decides(
                b1,
                head,
            ) by {
                lemma_count(p1, head);
                assert(count_of(branch, head) > 0);
                lemma_count(b1, head);
            }
        },
    }
}

/// A parent range without repeated keys has no more rows for a logical row than a branch range
/// that decides it.
pub proof fn law_distinct_keys_are_shadowed(branch: Seq<Entry>, parent: Seq<Row>)
    requires
        strictly_ascending(parent),
    ensures
        ascending(parent),
        shadows(branch, parent),
{
    lemma_strict_is_ascending(parent);
    assert forall|l: Seq<u8>| #[trigger] count_of(branch, l) > 0 implies count_of(parent, l)
        <= count_of(branch, l) by {
        lemma_strict_count(parent, l);
    }
}

/// Without repeated keys, a key is counted once at most.
proof fn lemma_strict_count<T>(s: Seq<(Seq<u8>, T)>, l: Seq<u8>)
    requires
        strictly_ascending(s),
    ensures
        count_of(s, l) <= 1,
    decreases s.len(),
{
    if s.len() > 0 {
        lemma_tail(s);
        lemma_strict_count(s.drop_first(), l);
        if logical_at(s, 0) == l {
            lemma_count(s.drop_first(), l);
        }
    }
}

/// A live branch row is in the overlay, and no other row of the overlay is for its logical
/// row.
pub proof fn law_branch_wins(
    branch: Seq<Entry>,
    parent: Seq<Row>,
    branch_prefix: Seq<u8>,
    i: int,
    value: Seq<u8>,
    row: Row,
)
    requires
        branch_prefix.len() == NSDB_PREFIX_LEN,
        strictly_ascending(branch),
        ascending(parent),
        shadows(branch, parent),
        0 <= i < branch.len(),
        branch[i].1 == Some(value),
    ensures
        overlay(branch, parent, branch_prefix).contains((branch[i].0, value)),
        overlay(branch, parent, branch_prefix).contains(row) && logical_key(row.0) == logical_key(
            branch[i].0,
        ) ==> row == (branch[i].0, value),
{
    assert(branch[i] == (branch[i].0, Some(value)));
    lemma_strict_is_ascending(branch);
    law_overlay_rows(branch, parent, branch_prefix, (branch[i].0, value));
    law_overlay_rows(branch, parent, branch_prefix, row);
    if logical_key(row.0) == logical_key(branch[i].0) {
        lemma_row_of_decided_key(branch, parent, branch_prefix, i, row);
    }
}

/// A tombstone keeps every row of its logical row out of the overlay.
pub proof fn law_tombstone_hides(
    branch: Seq<Entry>,
    parent: Seq<Row>,
    branch_prefix: Seq<u8>,
    i: int,
    row: Row,
)
    requires
        branch_prefix.len() == NSDB_PREFIX_LEN,
        strictly_ascending(branch),
        ascending(parent),
        shadows(branch, parent),
        0 <= i < branch.len(),
        branch[i].1 is None,
        logical_key(row.0) == logical_key(branch[i].0),
    ensures
        !overlay(branch, parent, branch_prefix).contains(row),
{
    lemma_strict_is_ascending(branch);
    law_overlay_rows(branch, parent, branch_prefix, row);
    lemma_row_of_decided_key(branch, parent, branch_prefix, i, row);
}

/// A parent row whose logical row the branch leaves alone is in the overlay, in the branch
/// keyspace.
pub proof fn law_parent_falls_through(
    branch: Seq<Entry>,
    parent: Seq<Row>,
    branch_prefix: Seq<u8>,
    j: int,
)
    requires
        0 <= j < parent.len(),
        !branch_decides(branch, logical_key(parent[j].0)),
    ensures
        overlay(branch, parent, branch_prefix).contains(
            (branch_key(branch_prefix, parent[j].0), parent[j].1),
        ),
    decreases branch.len() + parent.len(),
{
    let row = (branch_key(branch_prefix, parent[j].0), parent[j].1);
    let l = logical_key(parent[j].0);
    let b1 = branch.drop_first();
    let p1 = parent.drop_first();
    if branch.len() > 0 {
        lemma_tail(branch);
        assert(logical_at(branch, 0) != l);
        if branch_decides(b1, l) {
            let i = choose|i: int| 0 <= i < b1.len() && #[trigger] logical_at(b1, i) == l;
            assert(logical_at(branch, i + 1) == l);
        }
    }
    match next_step(branch, parent) {
        Step::Done => {},
        Step::TakeBranch => {
            law_parent_falls_through(b1, parent, branch_prefix, j);
            lemma_front_contains(live_rows(branch[0]), overlay(b1, parent, branch_prefix), row);
        },
        Step::TakeParent => {
            let front = (branch_key(branch_prefix, parent[0].0), parent[0].1);
            lemma_front_contains(seq![front], overlay(branch, p1, branch_prefix), row);
            if j > 0 {
                assert(p1[j - 1] == parent[j]);
                law_parent_falls_through(branch, p1, branch_prefix, j - 1);
            } else {
                assert(seq![front][0] == row);
            }
        },
        Step::TakeBoth => {
            assert(j > 0);
            assert(p1[j - 1] == parent[j]);
            law_parent_falls_through(b1, p1, branch_prefix, j - 1);
            lemma_front_contains(live_rows(branch[0]), overlay(b1, p1, branch_prefix), row);
        },
    }
}

/// A key that is shorter than the addressing prefix stands for itself, and that is no logical
/// row of a record unless it starts with the star that stands behind the prefix of a record.
pub proof fn law_short_key_is_no_row(short: Seq<u8>, record: Seq<u8>)
    requires
        short.len() < NSDB_PREFIX_LEN,
        short.len() == 0 || short[0] != STAR,
        record.len() > NSDB_PREFIX_LEN,
        record[NSDB_PREFIX_LEN as int] == STAR,
    ensures
        logical_key(short) == short,
        logical_key(short) != logical_key(record),
{
    assert(logical_key(record)[0] == STAR);
}

/// Where the branch keys carry the branch prefix, so does every key of the overlay.
pub proof fn law_overlay_in_branch_keyspace(
    branch: Seq<Entry>,
    parent: Seq<Row>,
    branch_prefix: Seq<u8>,
)
    requires
        forall|i: int|
            0 <= i < branch.len() ==> branch_prefix.is_prefix_of((#[trigger] branch[i]).0),
    ensures
        forall|i: int|
            0 <= i < overlay(branch, parent, branch_prefix).len() ==> branch_prefix.is_prefix_of(
                (#[trigger] overlay(branch, parent, branch_prefix)[i]).0,
            ),
    decreases branch.len() + parent.len(),
{
    let b1 = branch.drop_first();
    let p1 = parent.drop_first();
    let (front, rest) = match next_step(branch, parent) {
        Step::Done => (Seq::<Row>::empty(), Seq::<Row>::empty()),
        Step::TakeBranch => {
            law_overlay_in_branch_keyspace(b1, parent, branch_prefix);
            (live_rows(branch[0]), overlay(b1, parent, branch_prefix))
        },
        Step::TakeParent => {
            law_overlay_in_branch_keyspace(branch, p1, branch_prefix);
            let key = branch_key(branch_prefix, parent[0].0);
            assert(branch_prefix =~= key.subrange(0, branch_prefix.len() as int));
            (seq![(key, parent[0].1)], overlay(branch, p1, branch_prefix))
        },
        Step::TakeBoth => {
            law_overlay_in_branch_keyspace(b1, p1, branch_prefix);
            (live_rows(branch[0]), overlay(b1, p1, branch_prefix))
        },
    };
    assert(overlay(branch, parent, branch_prefix) =~= front + rest);
    assert forall|i: int|
        0 <= i < overlay(branch, parent, branch_prefix).len() implies branch_prefix.is_prefix_of(
        (#[trigger] overlay(branch, parent, branch_prefix)[i]).0,
    ) by {
        if i >= front.len() {
            assert(overlay(branch, parent, branch_prefix)[i] == rest[i - front.len()]);
        }
    }
}

/// The overlay of a branch range in its own keyspace comes out in the raw key order of the
/// branch keyspace.
pub proof fn law_overlay_in_raw_order(
    branch: Seq<Entry>,
    parent: Seq<Row>,
    branch_prefix: Seq<u8>,
    i: int,
    j: int,
)
    requires
        branch_prefix.len() == NSDB_PREFIX_LEN,
        strictly_ascending(branch),
        strictly_ascending(parent),
        forall|k: int|
            0 <= k < branch.len() ==> branch_prefix.is_prefix_of((#[trigger] branch[k]).0),
        0 <= i < j < overlay(branch, parent, branch_prefix).len(),
    ensures
        lex_lt(
            overlay(branch, parent, branch_prefix)[i].0,
            overlay(branch, parent, branch_prefix)[j].0,
        ),
{
    let out = overlay(branch, parent, branch_prefix);
    lemma_strict_is_ascending(branch);
    lemma_strict_is_ascending(parent);
    law_overlay_sorted(branch, parent, branch_prefix);
    law_overlay_in_branch_keyspace(branch, parent, branch_prefix);
    law_logical_order_is_raw_order(branch_prefix, out[i].0, out[j].0);
    assert(lex_lt(logical_at(out, i), logical_at(out, j)));
    lemma_lex_total(logical_at(out, i), logical_at(out, j));
}

/// A branch that has not diverged shows its parent's rows, all of them and in their order, in
/// its own keyspace.
pub proof fn law_fresh_branch_is_parent(parent: Seq<Row>, branch_prefix: Seq<u8>)
    ensures
        overlay(Seq::empty(), parent, branch_prefix) == Seq::new(
            parent.len(),
            |i: int| (branch_key(branch_prefix, parent[i].0), parent[i].1),
        ),
    decreases parent.len(),
{
    let expected = Seq::new(
        parent.len(),
        |i: int| (branch_key(branch_prefix, parent[i].0), parent[i].1),
    );
    if parent.len() > 0 {
        law_fresh_branch_is_parent(parent.drop_first(), branch_prefix);
    }
    assert(overlay(Seq::empty(), parent, branch_prefix) =~= expected);
}

/// Over an empty parent, the overlay is the live rows of the branch in their order.
pub proof fn law_empty_parent_shows_live_rows(branch: Seq<Entry>, branch_prefix: Seq<u8>)
    ensures
        overlay(branch, Seq::empty(), branch_prefix) == branch.map_values(
            |e: Entry| live_rows(e),
        ).flatten(),
    decreases branch.len(),
{
    let parts = branch.map_values(|e: Entry| live_rows(e));
    if branch.len() > 0 {
        law_empty_parent_shows_live_rows(branch.drop_first(), branch_prefix);
        assert(parts.drop_first() =~= branch.drop_first().map_values(|e: Entry| live_rows(e)));
    }
}

/// Behind an addressing prefix of whatever bytes stands the logical key; a key that is shorter
/// than the prefix is its own.
pub proof fn law_logical_key_stands_behind_prefix(prefix: Seq<u8>, rest: Seq<u8>, short: Seq<u8>)
    requires
        prefix.len() == NSDB_PREFIX_LEN,
        short.len() < NSDB_PREFIX_LEN,
    ensures
        logical_key(prefix + rest) == rest,
        logical_key(short) == short,
{
    assert((prefix + rest).skip(NSDB_PREFIX_LEN as int) =~= rest);
}

/// A parent key in the branch keyspace is the branch prefix and, behind it, the logical key.
pub proof fn law_branch_key_is_prefix_and_logical_key(branch_prefix: Seq<u8>, parent_key: Seq<u8>)
    ensures
        branch_prefix.is_prefix_of(branch_key(branch_prefix, parent_key)),
        branch_key(branch_prefix, parent_key).skip(branch_prefix.len() as int) == logical_key(
            parent_key,
        ),
        branch_key(branch_prefix, parent_key).len() == branch_prefix.len() + logical_key(
            parent_key,
        ).len(),
{
    let key = branch_key(branch_prefix, parent_key);
    assert(branch_prefix =~= key.subrange(0, branch_prefix.len() as int));
    assert(key.skip(branch_prefix.len() as int) =~= logical_key(parent_key));
}

/// A branch entry with a value, whatever it is, is one row; a tombstone is none.
pub proof fn law_live_entry_is_one_row(key: Seq<u8>, value: Seq<u8>)
    ensures
        live_rows((key, Some(value))) == seq![(key, value)],
        live_rows((key, None)).len() == 0,
{
}

/// Ranges whose rows stand before those of other ranges are laid over each other on their own:
/// the overlay of the whole is that of the one part and then that of the other.
pub proof fn law_overlay_of_parts(
    b1: Seq<Entry>,
    b2: Seq<Entry>,
    p1: Seq<Row>,
    p2: Seq<Row>,
    branch_prefix: Seq<u8>,
)
    requires
        forall|i: int, j: int|
            0 <= i < b1.len() && 0 <= j < p2.len() ==> lex_lt(
                #[trigger] logical_at(b1, i),
                #[trigger] logical_at(p2, j),
            ),
        forall|i: int, j: int|
            0 <= i < p1.len() && 0 <= j < b2.len() ==> lex_lt(
                #[trigger] logical_at(p1, i),
                #[trigger] logical_at(b2, j),
            ),
    ensures
        overlay(b1 + b2, p1 + p2, branch_prefix) == overlay(b1, p1, branch_prefix) + overlay(
            b2,
            p2,
            branch_prefix,
        ),
    decreases b1.len() + p1.len(),
{
    let b = b1 + b2;
    let p = p1 + p2;
    let last = overlay(b2, p2, branch_prefix);
    if b1.len() == 0 && p1.len() == 0 {
        assert(b =~= b2 && p =~= p2);
        assert(Seq::<Row>::empty() + last =~= last);
    } else {
        let b_rest = b1.drop_first();
        let p_rest = p1.drop_first();
        if b1.len() > 0 {
            assert(b[0] == b1[0]);
            assert(b.drop_first() =~= b_rest + b2);
            assert forall|i: int| 0 <= i < b_rest.len() implies #[trigger] logical_at(b_rest, i)
                == logical_at(b1, i + 1) by {}
        }
        if p1.len() > 0 {
            assert(p[0] == p1[0]);
            assert(p.drop_first() =~= p_rest + p2);
            assert forall|i: int| 0 <= i < p_rest.len() implies #[trigger] logical_at(p_rest, i)
                == logical_at(p1, i + 1) by {}
        }
        if b1.len() > 0 && p1.len() == 0 && p2.len() > 0 {
            assert(p[0] == p2[0]);
            assert(lex_lt(logical_at(b1, 0), logical_at(p2, 0)));
            lemma_lex_total(logical_at(b1, 0), logical_at(p2, 0));
        }
        if p1.len() > 0 && b1.len() == 0 && b2.len() > 0 {
            assert(b[0] == b2[0]);
            assert(lex_lt(logical_at(p1, 0), logical_at(b2, 0)));
            lemma_lex_total(logical_at(p1, 0), logical_at(b2, 0));
        }
        assert(next_step(b, p) == next_step(b1, p1));
        match next_step(b1, p1) {
            Step::TakeBranch => {
                law_overlay_of_parts(b_rest, b2, p1, p2, branch_prefix);
                assert(overlay(b, p, branch_prefix) =~= (live_rows(b1[0]) + overlay(
                    b_rest,
                    p1,
                    branch_prefix,
                )) + last);
            },
            Step::TakeParent => {
                law_overlay_of_parts(b1, b2, p_rest, p2, branch_prefix);
                let row = (branch_key(branch_prefix, p1[0].0), p1[0].1);
                assert(overlay(b, p, branch_prefix) =~= (seq![row] + overlay(
                    b1,
                    p_rest,
                    branch_prefix,
                )) + last);
            },
            Step::TakeBoth => {
                law_overlay_of_parts(b_rest, b2, p_rest, p2, branch_prefix);
                assert(overlay(b, p, branch_prefix) =~= (live_rows(b1[0]) + overlay(
                    b_rest,
                    p_rest,
                    branch_prefix,
                )) + last);
            },
            Step::Done => {},
        }
    }
}

/// Of one logical row, the branch shows its live entries, and each of its entries takes a parent
/// row away; the parent rows that are left over fall through.
pub proof fn law_overlay_of_one_logical_row(
    branch: Seq<Entry>,
    parent: Seq<Row>,
    branch_prefix: Seq<u8>,
    l: Seq<u8>,
)
    requires
        forall|i: int| 0 <= i < branch.len() ==> #[trigger] logical_at(branch, i) == l,
        forall|i: int| 0 <= i < parent.len() ==> #[trigger] logical_at(parent, i) == l,
    ensures
        parent.len() <= branch.len() ==> overlay(branch, parent, branch_prefix) == overlay(
            branch,
            Seq::empty(),
            branch_prefix,
        ),
        parent.len() > branch.len() ==> overlay(branch, parent, branch_prefix) == overlay(
            branch,
            Seq::empty(),
            branch_prefix,
        ) + overlay(Seq::empty(), parent.skip(branch.len() as int), branch_prefix),
    decreases branch.len(),
{
    if parent.len() == 0 {
        assert(parent =~= Seq::empty());
    } else if branch.len() == 0 {
        assert(branch =~= Seq::empty());
        assert(parent.skip(0) =~= parent);
        let shown = overlay(branch, parent, branch_prefix);
        assert(overlay(branch, Seq::empty(), branch_prefix) + shown =~= shown);
    } else {
        let b1 = branch.drop_first();
        let p1 = parent.drop_first();
        assert(logical_at(branch, 0) == l && logical_at(parent, 0) == l);
        assert forall|i: int| 0 <= i < b1.len() implies #[trigger] logical_at(b1, i) == l by {
            assert(logical_at(branch, i + 1) == l);
        }
        assert forall|i: int| 0 <= i < p1.len() implies #[trigger] logical_at(p1, i) == l by {
            assert(logical_at(parent, i + 1) == l);
        }
        law_overlay_of_one_logical_row(b1, p1, branch_prefix, l);
        if parent.len() > branch.len() {
            assert(p1.skip(b1.len() as int) =~= parent.skip(branch.len() as int));
            assert(overlay(branch, parent, branch_prefix) =~= (live_rows(branch[0]) + overlay(
                b1,
                Seq::empty(),
                branch_prefix,
            )) + overlay(Seq::empty(), parent.skip(branch.len() as int), branch_prefix));
        }
    }
}

/// The step that is called for: nothing where both ranges are done, the range that is left where
/// one is, and otherwise the smaller logical key, or both where it is the same.
pub proof fn law_step_takes_the_smaller_key(branch: Seq<Entry>, parent: Seq<Row>)
    ensures
        next_step(branch, parent) == Step::Done <==> branch.len() == 0 && parent.len() == 0,
        branch.len() > 0 && parent.len() == 0 ==> next_step(branch, parent) == Step::TakeBranch,
        branch.len() == 0 && parent.len() > 0 ==> next_step(branch, parent) == Step::TakeParent,
        branch.len() > 0 && parent.len() > 0 ==> {
            let b = logical_at(branch, 0);
            let p = logical_at(parent, 0);
            &&& next_step(branch, parent) == Step::TakeBranch <==> lex_lt(b, p)
            &&& next_step(branch, parent) == Step::TakeParent <==> lex_lt(p, b)
            &&& next_step(branch, parent) == Step::TakeBoth <==> b == p
        },
{
    if branch.len() > 0 && parent.len() > 0 {
        lemma_lex_total(logical_at(branch, 0), logical_at(parent, 0));
    }
}

/// Whether or not ranges are sorted, a branch entry before the first parent row, or with none
/// left, comes first; so does a parent row before the first branch entry; and a branch entry for
/// the logical row of the first parent row stands for both.
pub proof fn law_overlay_of_heads(
    entry: Entry,
    branch: Seq<Entry>,
    row: Row,
    parent: Seq<Row>,
    branch_prefix: Seq<u8>,
)
    ensures
        ({
            let b = seq![entry] + branch;
            let p = seq![row] + parent;
            let rewritten = (branch_prefix + logical_key(row.0), row.1);
            &&& overlay(b, Seq::empty(), branch_prefix) == live_rows(entry) + overlay(
                branch,
                Seq::empty(),
                branch_prefix,
            )
            &&& overlay(Seq::empty(), p, branch_prefix) == seq![rewritten] + overlay(
                Seq::empty(),
                parent,
                branch_prefix,
            )
            &&& lex_lt(logical_key(entry.0), logical_key(row.0)) ==> overlay(b, p, branch_prefix)
                == live_rows(entry) + overlay(branch, p, branch_prefix)
            &&& lex_lt(logical_key(row.0), logical_key(entry.0)) ==> overlay(b, p, branch_prefix)
                == seq![rewritten] + overlay(b, parent, branch_prefix)
            &&& logical_key(row.0) == logical_key(entry.0) ==> overlay(b, p, branch_prefix)
                == live_rows(entry) + overlay(branch, parent, branch_prefix)
        }),
{
    let b = seq![entry] + branch;
    let p = seq![row] + parent;
    assert(b[0] == entry && b.drop_first() =~= branch);
    assert(p[0] == row && p.drop_first() =~= parent);
    lemma_lex_total(logical_key(entry.0), logical_key(row.0));
}

/// A cursor over two ranges yields, all in all, the overlay of the one over the other.
pub proof fn law_cursor_yields_the_overlay<
    B: Iterator<Item = BranchEntry>,
    P: Iterator<Item = (Key, Val)>,
>(
    branch: B,
    parent: P,
    branch_prefix: Key,
    cursor: MergeCursor<B, P>,
    rows: Vec<(Key, Val)>,
)
    requires
        call_ensures(MergeCursor::<B, P>::new, (branch, parent, branch_prefix), cursor),
        call_ensures(MergeCursor::<B, P>::collect, (cursor,), rows),
    ensures
        rows_view(rows@) == overlay(
            entries_view(branch.remaining()),
            rows_view(parent.remaining()),
            branch_prefix@,
        ),
{
}

/// What the first call of a cursor yields is the first row of the overlay, and what it yields
/// afterwards, all in all, is the rest.
pub proof fn law_cursor_yields_row_by_row<
    B: Iterator<Item = BranchEntry>,
    P: Iterator<Item = (Key, Val)>,
>(
    branch: B,
    parent: P,
    branch_prefix: Key,
    cursor: &mut MergeCursor<B, P>,
    first: Option<(Key, Val)>,
    rest: Vec<(Key, Val)>,
)
    requires
        call_ensures(MergeCursor::<B, P>::new, (branch, parent, branch_prefix), *cursor),
        call_ensures(MergeCursor::<B, P>::next, (cursor,), first),
        call_ensures(MergeCursor::<B, P>::collect, (*final(cursor),), rest),
    ensures
        ({
            let all = overlay(
                entries_view(branch.remaining()),
                rows_view(parent.remaining()),
                branch_prefix@,
            );
            &&& first is None <==> all.len() == 0
            &&& first matches Some(row) ==> all == seq![(row.0@, row.1@)] + rows_view(rest@)
            &&& first is None ==> rest@.len() == 0
        }),
{
    assert(rows_view(rest@).len() == rest@.len());
}

/// The logical part of a key is what stands behind the addressing prefix, and a key in the branch
/// keyspace is the branch prefix with that part behind it.
pub proof fn law_rewritten_key_is_of_the_branch(
    branch_prefix: &[u8],
    parent_key: &[u8],
    rewritten: Key,
    part: &[u8],
    bytes: &[u8],
    part_after: &[u8],
)
    requires
        branch_prefix@.len() == NSDB_PREFIX_LEN,
        call_ensures(rekey_into_branch, (branch_prefix, parent_key), rewritten),
        call_ensures(logical, (parent_key,), part),
        bytes@ == rewritten@,
        call_ensures(logical, (bytes,), part_after),
    ensures
        rewritten@ == branch_prefix@ + part@,
        part_after@ == part@,
        parent_key@.len() >= NSDB_PREFIX_LEN ==> parent_key@.take(NSDB_PREFIX_LEN as int) + part@
            == parent_key@,
        parent_key@.len() < NSDB_PREFIX_LEN ==> part@ == parent_key@,
{
    law_rekeying_keeps_logical_key(branch_prefix@, parent_key@);
    if parent_key@.len() >= NSDB_PREFIX_LEN {
        assert(parent_key@.take(NSDB_PREFIX_LEN as int) + part@ =~= parent_key@);
    }
}

/// Ranges are seen by their bytes, item by item: keys, values and tombstones as they are.
pub proof fn law_ranges_are_seen_by_their_bytes(
    branch: Seq<BranchEntry>,
    parent: Seq<(Key, Val)>,
)
    ensures
        entries_view(branch).len() == branch.len(),
        forall|i: int|
            0 <= i < branch.len() ==> {
                &&& (#[trigger] entries_view(branch)[i]).0 == branch[i].0@
                &&& branch[i].1 matches Some(v) ==> entries_view(branch)[i].1 == Some(v@)
                &&& branch[i].1 is None ==> entries_view(branch)[i].1 is None
            },
        rows_view(parent).len() == parent.len(),
        forall|i: int|
            0 <= i < parent.len() ==> (#[trigger] rows_view(parent)[i]).0 == parent[i].0@
                && rows_view(parent)[i].1 == parent[i].1@,
{
}

/// A row of the overlay whose logical row the `i`-th branch entry decides is that entry.
proof fn lemma_row_of_decided_key(
    branch: Seq<Entry>,
    parent: Seq<Row>,
    branch_prefix: Seq<u8>,
    i: int,
    row: Row,
)
    requires
        branch_prefix.len() == NSDB_PREFIX_LEN,
        strictly_ascending(branch),
        0 <= i < branch.len(),
        logical_key(row.0) == logical_key(branch[i].0),
    ensures
        is_live_branch_row(branch, row) ==> branch[i] == (row.0, Some(row.1)),
        !is_inherited_row(branch, parent, branch_prefix, row),
{
    if is_live_branch_row(branch, row) {
        let k = choose|k: int|
            0 <= k < branch.len() && branch[k] == (row.0, Some(row.1));
        assert(logical_at(branch, k) == logical_at(branch, i));
        lemma_lex_total(logical_at(branch, k), logical_at(branch, i));
        assert(k == i);
    }
    if is_inherited_row(branch, parent, branch_prefix, row) {
        let j = choose|j: int| #[trigger] inherited_at(branch, parent, branch_prefix, row, j);
        law_rekeying_keeps_logical_key(branch_prefix, parent[j].0);
        assert(logical_at(branch, i) == logical_at(parent, j));
        assert(branch_decides(branch, logical_at(parent, j)));
    }
}

/// Strictly ascending is ascending.
proof fn lemma_strict_is_ascending<T>(s: Seq<(Seq<u8>, T)>)
    requires
        strictly_ascending(s),
    ensures
        ascending(s),
{
}

/// A row of a sequence is in its front part or in its back part.
proof fn lemma_front_contains(front: Seq<Row>, rest: Seq<Row>, row: Row)
    ensures
        (front + rest).contains(row) <==> front.contains(row) || rest.contains(row),
{
    let all = front + rest;
    if front.contains(row) {
        let i = choose|i: int| 0 <= i < front.len() && front[i] == row;
        assert(all[i] == row);
    }
    if rest.contains(row) {
        let i = choose|i: int| 0 <= i < rest.len() && rest[i] == row;
        assert(all[front.len() + i] == row);
    }
    if all.contains(row) {
        let i = choose|i: int| 0 <= i < all.len() && all[i] == row;
        if i < front.len() {
            assert(front[i] == row);
        } else {
            assert(rest[i - front.len()] == row);
        }
    }
}

/// An item of a sequence is its head or in its tail.
proof fn lemma_contains_head_or_tail<T>(s: Seq<T>, x: T)
    requires
        s.len() > 0,
    ensures
        s.contains(x) <==> s[0] == x || s.drop_first().contains(x),
{
    let t = s.drop_first();
    if t.contains(x) {
        let i = choose|i: int| 0 <= i < t.len() && t[i] == x;
        assert(s[i + 1] == x);
    }
    if s.contains(x) {
        let i = choose|i: int| 0 <= i < s.len() && s[i] == x;
        if i > 0 {
            assert(t[i - 1] == x);
        }
    }
}

/// The first branch entry does not change which parent rows are inherited where it is before
/// every one of them, or is not the only one for its logical row.
proof fn lemma_inherited_same_parent(
    branch: Seq<Entry>,
    parent: Seq<Row>,
    branch_prefix: Seq<u8>,
    row: Row,
)
    requires
        branch.len() > 0,
        forall|j: int|
            0 <= j < parent.len() && #[trigger] logical_at(parent, j) == logical_at(branch, 0)
                ==> branch_decides(branch.drop_first(), logical_at(branch, 0)),
    ensures
        is_inherited_row(branch, parent, branch_prefix, row) <==> is_inherited_row(
            branch.drop_first(),
            parent,
            branch_prefix,
            row,
        ),
{
    let b1 = branch.drop_first();
    assert forall|j: int| #[trigger]
        inherited_at(branch, parent, branch_prefix, row, j) == inherited_at(
            b1,
            parent,
            branch_prefix,
            row,
            j,
        ) by {
        if 0 <= j < parent.len() {
            let l = logical_at(parent, j);
            if branch_decides(b1, l) {
                let i = choose|i: int| 0 <= i < b1.len() && #[trigger] logical_at(b1, i) == l;
                assert(logical_at(branch, i + 1) == l);
            }
            if branch_decides(branch, l) {
                let i = choose|i: int|
                    0 <= i < branch.len() && #[trigger] logical_at(branch, i) == l;
                if i > 0 {
                    assert(logical_at(b1, i - 1) == l);
                }
            }
        }
    }
    if is_inherited_row(b1, parent, branch_prefix, row) {
        let j = choose|j: int| #[trigger] inherited_at(b1, parent, branch_prefix, row, j);
        assert(inherited_at(branch, parent, branch_prefix, row, j));
    }
}

/// An inherited row is the first parent row or comes from the others.
proof fn lemma_inherited_head_or_tail(
    branch: Seq<Entry>,
    parent: Seq<Row>,
    branch_prefix: Seq<u8>,
    row: Row,
)
    requires
        parent.len() > 0,
    ensures
        is_inherited_row(branch, parent, branch_prefix, row) <==> (inherited_at(
            branch,
            parent,
            branch_prefix,
            row,
            0,
        ) || is_inherited_row(branch, parent.drop_first(), branch_prefix, row)),
{
    let p1 = parent.drop_first();
    if is_inherited_row(branch, p1, branch_prefix, row) {
        let j = choose|j: int| #[trigger] inherited_at(branch, p1, branch_prefix, row, j);
        assert(inherited_at(branch, parent, branch_prefix, row, j + 1));
    }
    if is_inherited_row(branch, parent, branch_prefix, row) {
        let j = choose|j: int| #[trigger] inherited_at(branch, parent, branch_prefix, row, j);
        if j > 0 {
            assert(inherited_at(branch, p1, branch_prefix, row, j - 1));
        }
    }
}

} // verus!
