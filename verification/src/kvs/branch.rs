//! Copy-on-write database branching: the merge cursor.
//!
//! A branch is a database of its own whose keyspace is layered on top of a *parent* database
//! read at a pinned version. The branch range holds only the rows that have diverged:
//! overwrites, inserts, and tombstones (deletes of rows that still exist in the parent).
//! Everything else falls through to the parent.
//!
//! [`MergeCursor`] performs that overlay as a streaming two-way merge of two sorted sources,
//! yielding rows in the *branch* keyspace: the branch wins over the parent, and a tombstone
//! hides the parent row beneath it.
use vstd::prelude::*;
use vstd::std_specs::iter::IteratorSpec;

use crate::bytes::{compare_bytes, lex_order, Order};
use crate::peekable::{upcoming, Peekable};

verus! {

/// A key as it is stored.
pub type Key = Vec<u8>;

/// A value as it is stored.
pub type Val = Vec<u8>;

/// A branch-side entry: a live value, or a tombstone (`None`) marking a row deleted in the
/// branch that still exists in the parent. Tombstones suppress the parent row and are
/// themselves never yielded.
pub type BranchEntry = (Key, Option<Val>);

/// Number of leading bytes of a record key that address the namespace and the database:
/// `/` `*` ns(4) `*` db(4), that is everything up to (but not including) the `*` separator
/// that precedes the table name. Two records in the same namespace that refer to the same
/// logical row differ only within this prefix.
pub const NSDB_PREFIX_LEN: usize = 11;

/// The logical key of a record key: the portion that is identical between a branch row and
/// the parent row it shadows. A key shorter than the addressing prefix stands for itself.
pub open spec fn logical_key(key: Seq<u8>) -> Seq<u8> {
    if key.len() >= NSDB_PREFIX_LEN {
        key.skip(NSDB_PREFIX_LEN as int)
    } else {
        key
    }
}

/// The branch-keyspace key of a parent row.
pub open spec fn branch_key(branch_prefix: Seq<u8>, parent_key: Seq<u8>) -> Seq<u8> {
    branch_prefix + logical_key(parent_key)
}

/// Returns the logical key of `key`, the merge ordering key.
pub fn logical(key: &[u8]) -> (r: &[u8])
    ensures
        r@ == logical_key(key@),
{
    if key.len() >= NSDB_PREFIX_LEN {
        vstd::slice::slice_subrange(key, NSDB_PREFIX_LEN, key.len())
    } else {
        key
    }
}

/// Rewrites a parent-keyspace key into the branch keyspace by splicing the branch's ns+db
/// prefix in front of the parent row's logical portion.
pub fn rekey_into_branch(branch_prefix: &[u8], parent_key: &[u8]) -> (k: Key)
    requires
        branch_prefix.len() == NSDB_PREFIX_LEN,
    ensures
        k@ == branch_key(branch_prefix@, parent_key@),
{
    let mut k: Vec<u8> = Vec::with_capacity(
        NSDB_PREFIX_LEN + parent_key.len().saturating_sub(NSDB_PREFIX_LEN),
    );
    k.extend_from_slice(branch_prefix);
    k.extend_from_slice(logical(parent_key));
    assert(k@ =~= branch_key(branch_prefix@, parent_key@));
    k
}

/// A row as the overlay yields it: key and value.
pub type Row = (Seq<u8>, Seq<u8>);

/// A branch entry by its bytes: key, and value or tombstone.
pub type Entry = (Seq<u8>, Option<Seq<u8>>);

/// The bytes of a branch entry.
pub open spec fn entry_view(e: BranchEntry) -> Entry {
    (
        e.0@,
        match e.1 {
            Some(v) => Some(v@),
            None => None,
        },
    )
}

/// The bytes of branch entries.
pub open spec fn entries_view(s: Seq<BranchEntry>) -> Seq<Entry> {
    Seq::new(s.len(), |i: int| entry_view(s[i]))
}

/// The bytes of a stored row.
pub open spec fn row_view(r: (Key, Val)) -> Row {
    (r.0@, r.1@)
}

/// The bytes of stored rows.
pub open spec fn rows_view(s: Seq<(Key, Val)>) -> Seq<Row> {
    Seq::new(s.len(), |i: int| row_view(s[i]))
}

/// What to do on a single step, decided from the heads of both sources.
#[derive(Clone, Copy, Debug, PartialEq, Eq, Structural)]
pub enum Step {
    TakeBranch,
    TakeParent,
    TakeBoth,
    Done,
}

/// The step that the heads of both sources call for: the smaller logical key first, and both
/// sides together when they hold the same logical row.
pub open spec fn next_step(branch: Seq<Entry>, parent: Seq<Row>) -> Step {
    if branch.len() == 0 && parent.len() == 0 {
        Step::Done
    } else if parent.len() == 0 {
        Step::TakeBranch
    } else if branch.len() == 0 {
        Step::TakeParent
    } else {
        match lex_order(logical_key(branch[0].0), logical_key(parent[0].0)) {
            Order::Less => Step::TakeBranch,
            Order::Greater => Step::TakeParent,
            Order::Equal => Step::TakeBoth,
        }
    }
}

/// The rows a branch entry contributes: itself when live, none when it is a tombstone.
pub open spec fn live_rows(e: Entry) -> Seq<Row> {
    match e.1 {
        Some(v) => seq![(e.0, v)],
        None => Seq::empty(),
    }
}

/// The rows of a branch laid over its parent.
pub open spec fn overlay(branch: Seq<Entry>, parent: Seq<Row>, branch_prefix: Seq<u8>) -> Seq<Row>
    decreases branch.len() + parent.len(),
{
    match next_step(branch, parent) {
        Step::Done => Seq::empty(),
        Step::TakeBranch => live_rows(branch[0]) + overlay(
            branch.drop_first(),
            parent,
            branch_prefix,
        ),
        Step::TakeParent => seq![(branch_key(branch_prefix, parent[0].0), parent[0].1)] + overlay(
            branch,
            parent.drop_first(),
            branch_prefix,
        ),
        Step::TakeBoth => live_rows(branch[0]) + overlay(
            branch.drop_first(),
            parent.drop_first(),
            branch_prefix,
        ),
    }
}

/// Taking the first branch entry takes the first of their bytes.
proof fn lemma_entries_view_drop_first(s: Seq<BranchEntry>)
    requires
        s.len() > 0,
    ensures
        entries_view(s.drop_first()) == entries_view(s).drop_first(),
{
    assert(entries_view(s.drop_first()) =~= entries_view(s).drop_first());
}

/// Taking the first row takes the first of their bytes.
proof fn lemma_rows_view_drop_first(s: Seq<(Key, Val)>)
    requires
        s.len() > 0,
    ensures
        rows_view(s.drop_first()) == rows_view(s).drop_first(),
{
    assert(rows_view(s.drop_first()) =~= rows_view(s).drop_first());
}

/// Streaming copy-on-write overlay of a branch range over a parent range.
///
/// For the result to be the overlay of the two ranges, both inputs must be sorted ascending
/// by their logical key. The cursor yields rows in the branch keyspace.
pub struct MergeCursor<B, P> where
    B: Iterator<Item = BranchEntry>,
    P: Iterator<Item = (Key, Val)>,
 {
    branch: Peekable<B>,
    parent: Peekable<P>,
    branch_prefix: Key,
}

impl<B, P> MergeCursor<B, P> where
    B: Iterator<Item = BranchEntry>,
    P: Iterator<Item = (Key, Val)>,
 {
    /// The branch source.
    pub closed spec fn branch(&self) -> Peekable<B> {
        self.branch
    }

    /// The parent source.
    pub closed spec fn parent(&self) -> Peekable<P> {
        self.parent
    }

    /// The branch's ns+db prefix.
    pub closed spec fn branch_prefix(&self) -> Seq<u8> {
        self.branch_prefix@
    }

    /// Both sources are finite, and the prefix has the length of the ns+db addressing prefix.
    pub open spec fn valid(&self) -> bool {
        &&& self.branch().lawful()
        &&& self.parent().lawful()
        &&& self.branch_prefix().len() == NSDB_PREFIX_LEN
    }

    /// The end of both sources has been seen.
    pub open spec fn exhausted(&self) -> bool {
        &&& self.branch().peeked() == Some(None::<BranchEntry>)
        &&& self.parent().peeked() == Some(None::<(Key, Val)>)
    }

    /// A bound that goes down with every row yielded.
    pub open spec fn fuel(&self) -> nat {
        self.branch().fuel() + self.parent().fuel()
    }

    /// Starts the overlay of `branch` over `parent`; neither is read yet.
    pub fn new(branch: B, parent: P, branch_prefix: Key) -> (r: Self)
        requires
            branch.obeys_prophetic_iter_laws(),
            branch.decrease() is Some,
            parent.obeys_prophetic_iter_laws(),
            parent.decrease() is Some,
            branch_prefix.len() == NSDB_PREFIX_LEN,
        ensures
            r.valid(),
            r.branch_prefix() == branch_prefix@,
            r.branch().source() == branch,
            r.branch().peeked() is None,
            r.parent().source() == parent,
            r.parent().peeked() is None,
    {
        MergeCursor {
            branch: Peekable::new(branch),
            parent: Peekable::new(parent),
            branch_prefix,
        }
    }

    /// Decides the next step by looking at both heads. A source that has been looked at is not
    /// read again.
    pub fn decide(&mut self) -> (step: Step)
        requires
            old(self).valid(),
        ensures
            final(self).valid(),
            final(self).branch_prefix() == old(self).branch_prefix(),
            final(self).branch().fuel() <= old(self).branch().fuel(),
            final(self).parent().fuel() <= old(self).parent().fuel(),
            final(self).branch().peeked() is Some,
            final(self).parent().peeked() is Some,
            old(self).branch().peeked() is Some ==> final(self).branch() == old(self).branch(),
            old(self).parent().peeked() is Some ==> final(self).parent() == old(self).parent(),
            step == Step::Done ==> final(self).exhausted(),
            upcoming(final(self).branch().peeked(), final(self).branch().source().remaining())
                == upcoming(old(self).branch().peeked(), old(self).branch().source().remaining()),
            upcoming(final(self).parent().peeked(), final(self).parent().source().remaining())
                == upcoming(old(self).parent().peeked(), old(self).parent().source().remaining()),
            step == next_step(
                entries_view(
                    upcoming(old(self).branch().peeked(), old(self).branch().source().remaining()),
                ),
                rows_view(
                    upcoming(old(self).parent().peeked(), old(self).parent().source().remaining()),
                ),
            ),
    {
        match (self.branch.peek(), self.parent.peek()) {
            (None, None) => Step::Done,
            (Some(_), None) => Step::TakeBranch,
            (None, Some(_)) => Step::TakeParent,
            (Some(b), Some(p)) => match compare_bytes(logical(&b.0), logical(&p.0)) {
                Order::Less => Step::TakeBranch,
                Order::Greater => Step::TakeParent,
                // The same logical row is present in both ranges: the branch wins, both go.
                Order::Equal => Step::TakeBoth,
            },
        }
    }

    /// Yields the next row of the overlay, or `None` when there is none left. Once it has
    /// returned `None` it does so ever after, and reads neither source again.
    pub fn next(&mut self) -> (r: Option<(Key, Val)>)
        requires
            old(self).valid(),
        ensures
            final(self).valid(),
            final(self).branch_prefix() == old(self).branch_prefix(),
            r is Some ==> final(self).fuel() < old(self).fuel(),
            r is None ==> final(self).exhausted(),
            old(self).exhausted() ==> r is None,
            old(self).branch().peeked() == Some(None::<BranchEntry>) ==> final(self).branch()
                == old(self).branch(),
            old(self).parent().peeked() == Some(None::<(Key, Val)>) ==> final(self).parent()
                == old(self).parent(),
            ({
                let before = overlay(
                    entries_view(
                        upcoming(
                            old(self).branch().peeked(),
                            old(self).branch().source().remaining(),
                        ),
                    ),
                    rows_view(
                        upcoming(
                            old(self).parent().peeked(),
                            old(self).parent().source().remaining(),
                        ),
                    ),
                    old(self).branch_prefix(),
                );
                let after = overlay(
                    entries_view(
                        upcoming(
                            final(self).branch().peeked(),
                            final(self).branch().source().remaining(),
                        ),
                    ),
                    rows_view(
                        upcoming(
                            final(self).parent().peeked(),
                            final(self).parent().source().remaining(),
                        ),
                    ),
                    final(self).branch_prefix(),
                );
                match r {
                    Some(row) => before == seq![row_view(row)] + after,
                    None => before.len() == 0 && after.len() == 0,
                }
            }),
    {
        loop
            invariant
                self.valid(),
                self.branch_prefix() == old(self).branch_prefix(),
                self.fuel() <= old(self).fuel(),
                old(self).branch().peeked() == Some(None::<BranchEntry>) ==> self.branch()
                    == old(self).branch(),
                old(self).parent().peeked() == Some(None::<(Key, Val)>) ==> self.parent()
                    == old(self).parent(),
                overlay(
                    entries_view(
                        upcoming(self.branch().peeked(), self.branch().source().remaining()),
                    ),
                    rows_view(
                        upcoming(self.parent().peeked(), self.parent().source().remaining()),
                    ),
                    self.branch_prefix(),
                ) == overlay(
                    entries_view(
                        upcoming(
                            old(self).branch().peeked(),
                            old(self).branch().source().remaining(),
                        ),
                    ),
                    rows_view(
                        upcoming(
                            old(self).parent().peeked(),
                            old(self).parent().source().remaining(),
                        ),
                    ),
                    old(self).branch_prefix(),
                ),
            decreases self.branch().fuel(),
        {
            let step = self.decide();
            match step {
                Step::Done => {
                    return None;
                },
                Step::TakeBranch => {
                    proof {
                        lemma_entries_view_drop_first(
                            upcoming(self.branch().peeked(), self.branch().source().remaining()),
                        );
                        assert forall|rest: Seq<Row>| #[trigger] (Seq::<Row>::empty() + rest) == rest by {
                            assert(Seq::<Row>::empty() + rest =~= rest);
                        }
                    }
                    if let Some((bk, Some(bv))) = self.branch.next() {
                        return Some((bk, bv));
                    }
                },
                Step::TakeParent => {
                    proof {
                        lemma_rows_view_drop_first(
                            upcoming(self.parent().peeked(), self.parent().source().remaining()),
                        );
                    }
                    if let Some((pk, pv)) = self.parent.next() {
                        return Some((rekey_into_branch(&self.branch_prefix, &pk), pv));
                    }
                },
                Step::TakeBoth => {
                    proof {
                        lemma_entries_view_drop_first(
                            upcoming(self.branch().peeked(), self.branch().source().remaining()),
                        );
                        lemma_rows_view_drop_first(
                            upcoming(self.parent().peeked(), self.parent().source().remaining()),
                        );
                        assert forall|rest: Seq<Row>| #[trigger] (Seq::<Row>::empty() + rest) == rest by {
                            assert(Seq::<Row>::empty() + rest =~= rest);
                        }
                    }
                    let taken = self.branch.next();
                    let _shadowed = self.parent.next();
                    if let Some((bk, Some(bv))) = taken {
                        return Some((bk, bv));
                    }
                },
            }
        }
    }

    /// Yields all rows of the overlay that are left.
    pub fn collect(self) -> (r: Vec<(Key, Val)>)
        requires
            self.valid(),
        ensures
            rows_view(r@) == overlay(
                entries_view(upcoming(self.branch().peeked(), self.branch().source().remaining())),
                rows_view(upcoming(self.parent().peeked(), self.parent().source().remaining())),
                self.branch_prefix(),
            ),
    {
        let mut cursor = self;
        let mut r: Vec<(Key, Val)> = Vec::new();
        assert(rows_view(r@) =~= Seq::empty());
        assert forall|rest: Seq<Row>| #[trigger] (Seq::<Row>::empty() + rest) == rest by {
            assert(Seq::<Row>::empty() + rest =~= rest);
        }
        loop
            invariant
                cursor.valid(),
                rows_view(r@) + overlay(
                    entries_view(
                        upcoming(cursor.branch().peeked(), cursor.branch().source().remaining()),
                    ),
                    rows_view(
                        upcoming(cursor.parent().peeked(), cursor.parent().source().remaining()),
                    ),
                    cursor.branch_prefix(),
                ) == overlay(
                    entries_view(
                        upcoming(self.branch().peeked(), self.branch().source().remaining()),
                    ),
                    rows_view(upcoming(self.parent().peeked(), self.parent().source().remaining())),
                    self.branch_prefix(),
                ),
            decreases cursor.fuel(),
        {
            match cursor.next() {
                Some(row) => {
                    let ghost before = r@;
                    r.push(row);
                    proof {
                        assert(rows_view(r@) =~= rows_view(before).push(row_view(row)));
                        assert forall|rest: Seq<Row>| #[trigger]
                            (rows_view(r@) + rest) == rows_view(before) + (seq![row_view(row)]
                                + rest) by {
                            assert(rows_view(r@) + rest =~= rows_view(before) + (seq![
                                row_view(row),
                            ] + rest));
                        }
                    }
                },
                None => {
                    assert forall|rest: Seq<Row>| rest.len() == 0 implies #[trigger] (rows_view(r@)
                        + rest) == rows_view(r@) by {
                        assert(rows_view(r@) + rest =~= rows_view(r@));
                    }
                    return r;
                },
            }
        }
    }
}

} // verus!
