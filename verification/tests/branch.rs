//! The overlay of a branch over its parent.
use std::cell::Cell;
use std::rc::Rc;

use surreal_branch::bytes::{compare_bytes, Order};
use surreal_branch::kvs::branch::{
    logical, rekey_into_branch, BranchEntry, Key, MergeCursor, Step, Val, NSDB_PREFIX_LEN,
};
use surreal_branch::peekable::Peekable;

const NS: [u8; 4] = [0, 0, 0, 1];

/// Build a record key `/*ns*db*tb\0<id>` for the given database id. The first
/// `NSDB_PREFIX_LEN` bytes are the ns+db addressing prefix.
fn rkey(db: u32, id: &[u8]) -> Key {
    let mut k = Vec::new();
    k.push(b'/');
    k.push(b'*');
    k.extend_from_slice(&NS);
    k.push(b'*');
    k.extend_from_slice(&db.to_be_bytes());
    // the logical portion begins here (index 11)
    k.extend_from_slice(b"*tb\0");
    k.extend_from_slice(id);
    k
}

const PARENT_DB: u32 = 1;
const BRANCH_DB: u32 = 2;

fn branch_prefix() -> Key {
    rkey(BRANCH_DB, b"")[..NSDB_PREFIX_LEN].to_vec()
}

/// Run the merge and return (key, value) pairs with values as UTF-8 for readability.
fn run(branch: Vec<BranchEntry>, parent: Vec<(Key, Val)>) -> Vec<(Key, String)> {
    let mut cursor = MergeCursor::new(branch.into_iter(), parent.into_iter(), branch_prefix());
    let mut out = Vec::new();
    while let Some((k, v)) = cursor.next() {
        out.push((k, String::from_utf8(v).unwrap()));
    }
    // The end stays the end.
    assert!(cursor.next().is_none());
    out
}

fn bval(db: u32, id: &[u8], v: &str) -> BranchEntry {
    (rkey(db, id), Some(v.as_bytes().to_vec()))
}

fn tomb(db: u32, id: &[u8]) -> BranchEntry {
    (rkey(db, id), None)
}

fn pval(db: u32, id: &[u8], v: &str) -> (Key, Val) {
    (rkey(db, id), v.as_bytes().to_vec())
}

#[test]
fn parent_only_falls_through() {
    let out = run(vec![], vec![pval(PARENT_DB, b"a", "pa"), pval(PARENT_DB, b"b", "pb")]);
    // Both parent rows surface, rewritten into the branch keyspace.
    assert_eq!(
        out,
        vec![(rkey(BRANCH_DB, b"a"), "pa".into()), (rkey(BRANCH_DB, b"b"), "pb".into())]
    );
}

#[test]
fn branch_overwrite_wins() {
    let out = run(
        vec![bval(BRANCH_DB, b"b", "branch-b")],
        vec![pval(PARENT_DB, b"a", "pa"), pval(PARENT_DB, b"b", "pb")],
    );
    assert_eq!(
        out,
        vec![
            (rkey(BRANCH_DB, b"a"), "pa".into()),       // fell through from parent
            (rkey(BRANCH_DB, b"b"), "branch-b".into()), // branch shadowed parent's "pb"
        ]
    );
}

#[test]
fn branch_insert_interleaves_in_order() {
    // Branch adds "a0" (before "b", after "a") and "c" (after "b"); parent has "a","b".
    let out = run(
        vec![bval(BRANCH_DB, b"a0", "new-a0"), bval(BRANCH_DB, b"c", "new-c")],
        vec![pval(PARENT_DB, b"a", "pa"), pval(PARENT_DB, b"b", "pb")],
    );
    assert_eq!(
        out,
        vec![
            (rkey(BRANCH_DB, b"a"), "pa".into()),
            (rkey(BRANCH_DB, b"a0"), "new-a0".into()),
            (rkey(BRANCH_DB, b"b"), "pb".into()),
            (rkey(BRANCH_DB, b"c"), "new-c".into()),
        ]
    );
}

#[test]
fn tombstone_hides_parent_row() {
    let out = run(
        vec![tomb(BRANCH_DB, b"b")],
        vec![
            pval(PARENT_DB, b"a", "pa"),
            pval(PARENT_DB, b"b", "pb"),
            pval(PARENT_DB, b"c", "pc"),
        ],
    );
    // "b" is deleted in the branch: only a and c remain.
    assert_eq!(
        out,
        vec![(rkey(BRANCH_DB, b"a"), "pa".into()), (rkey(BRANCH_DB, b"c"), "pc".into())]
    );
}

#[test]
fn tombstone_without_parent_is_noop() {
    // Deleting a row that never existed in the parent yields nothing for that key.
    let out = run(vec![tomb(BRANCH_DB, b"ghost")], vec![pval(PARENT_DB, b"a", "pa")]);
    assert_eq!(out, vec![(rkey(BRANCH_DB, b"a"), "pa".into())]);
}

#[test]
fn both_empty() {
    assert!(run(vec![], vec![]).is_empty());
}

#[test]
fn branch_only_when_parent_empty() {
    let out = run(vec![bval(BRANCH_DB, b"x", "bx"), tomb(BRANCH_DB, b"y")], vec![]);
    // Live branch row surfaces; tombstone over nothing is dropped.
    assert_eq!(out, vec![(rkey(BRANCH_DB, b"x"), "bx".into())]);
}

#[test]
fn mixed_overwrite_insert_delete_fallthrough() {
    // Parent: a,b,c,d.  Branch: overwrite b, delete c, insert b5 (between b and c).
    let out = run(
        vec![bval(BRANCH_DB, b"b", "B!"), bval(BRANCH_DB, b"b5", "B5"), tomb(BRANCH_DB, b"c")],
        vec![
            pval(PARENT_DB, b"a", "pa"),
            pval(PARENT_DB, b"b", "pb"),
            pval(PARENT_DB, b"c", "pc"),
            pval(PARENT_DB, b"d", "pd"),
        ],
    );
    assert_eq!(
        out,
        vec![
            (rkey(BRANCH_DB, b"a"), "pa".into()),  // fall-through
            (rkey(BRANCH_DB, b"b"), "B!".into()),  // overwrite wins
            (rkey(BRANCH_DB, b"b5"), "B5".into()), // branch insert, correctly ordered
            // c deleted by tombstone: absent
            (rkey(BRANCH_DB, b"d"), "pd".into()), // fall-through
        ]
    );
}

#[test]
fn emitted_keys_are_in_branch_keyspace() {
    // Every emitted key must carry the branch db id, never the parent's.
    let out = run(vec![bval(BRANCH_DB, b"b", "bb")], vec![pval(PARENT_DB, b"a", "pa")]);
    for (k, _) in &out {
        assert_eq!(&k[..NSDB_PREFIX_LEN], branch_prefix().as_slice());
        assert_ne!(&k[7..11], &PARENT_DB.to_be_bytes(), "parent db id leaked into output");
    }
    assert_eq!(out.len(), 2);
}

#[test]
fn collecting_yields_what_is_left() {
    let branch = vec![bval(BRANCH_DB, b"b", "B"), tomb(BRANCH_DB, b"c")];
    let parent = vec![
        pval(PARENT_DB, b"a", "pa"),
        pval(PARENT_DB, b"c", "pc"),
        pval(PARENT_DB, b"d", "pd"),
    ];
    let mut cursor = MergeCursor::new(branch.into_iter(), parent.into_iter(), branch_prefix());
    assert_eq!(cursor.next(), Some((rkey(BRANCH_DB, b"a"), b"pa".to_vec())));
    assert_eq!(cursor.collect(), vec![
        (rkey(BRANCH_DB, b"b"), b"B".to_vec()),
        (rkey(BRANCH_DB, b"d"), b"pd".to_vec())
    ]);
}

#[test]
fn repeated_keys_are_matched_one_by_one() {
    // A parent row goes with one branch entry for its logical row; one more parent row shows.
    let out = run(
        vec![tomb(BRANCH_DB, b"a")],
        vec![pval(PARENT_DB, b"a", "first"), pval(PARENT_DB, b"a", "second")],
    );
    assert_eq!(out, vec![(rkey(BRANCH_DB, b"a"), "second".into())]);
    let out = run(
        vec![tomb(BRANCH_DB, b"a"), bval(BRANCH_DB, b"a", "again")],
        vec![pval(PARENT_DB, b"a", "first"), pval(PARENT_DB, b"a", "second")],
    );
    assert_eq!(out, vec![(rkey(BRANCH_DB, b"a"), "again".into())]);
}

#[test]
fn logical_key_starts_behind_the_prefix() {
    assert_eq!(NSDB_PREFIX_LEN, 11);
    assert_eq!(logical(&rkey(BRANCH_DB, b"a")), b"*tb\0a");
    // A key of just the prefix has an empty logical key.
    assert_eq!(logical(&branch_prefix()), b"");
    // A shorter key stands for itself.
    assert_eq!(logical(b"short"), b"short");
}

#[test]
fn rekeying_replaces_the_prefix() {
    let prefix = branch_prefix();
    assert_eq!(rekey_into_branch(&prefix, &rkey(PARENT_DB, b"a")), rkey(BRANCH_DB, b"a"));
    // A branch key stays what it is.
    assert_eq!(rekey_into_branch(&prefix, &rkey(BRANCH_DB, b"a")), rkey(BRANCH_DB, b"a"));
    // A short key is put behind the prefix whole.
    let mut whole = prefix.clone();
    whole.extend_from_slice(b"short");
    assert_eq!(rekey_into_branch(&prefix, b"short"), whole);
}

#[test]
fn decide_looks_at_both_heads() {
    let mut both = MergeCursor::new(
        vec![bval(BRANCH_DB, b"b", "x")].into_iter(),
        vec![pval(PARENT_DB, b"b", "y")].into_iter(),
        branch_prefix(),
    );
    assert_eq!(both.decide(), Step::TakeBoth);
    // Deciding takes nothing.
    assert_eq!(both.decide(), Step::TakeBoth);
    let mut branch_first = MergeCursor::new(
        vec![tomb(BRANCH_DB, b"a")].into_iter(),
        vec![pval(PARENT_DB, b"b", "y")].into_iter(),
        branch_prefix(),
    );
    assert_eq!(branch_first.decide(), Step::TakeBranch);
    let mut parent_first = MergeCursor::new(
        vec![bval(BRANCH_DB, b"c", "x")].into_iter(),
        vec![pval(PARENT_DB, b"b", "y")].into_iter(),
        branch_prefix(),
    );
    assert_eq!(parent_first.decide(), Step::TakeParent);
    let mut done = MergeCursor::new(
        Vec::<BranchEntry>::new().into_iter(),
        Vec::<(Key, Val)>::new().into_iter(),
        branch_prefix(),
    );
    assert_eq!(done.decide(), Step::Done);
}

#[test]
fn fresh_branch_shows_its_parent() {
    let parent = vec![
        pval(PARENT_DB, b"laptop", "1000"),
        pval(PARENT_DB, b"phone", "500"),
        pval(PARENT_DB, b"tablet", "300"),
    ];
    let inherited = run(vec![], parent.clone());
    assert_eq!(inherited.len(), 3);
    // A row of its own makes four, in order; the parent is only read.
    let diverged = run(vec![bval(BRANCH_DB, b"keyboard", "80")], parent);
    assert_eq!(diverged.len(), 4);
    assert_eq!(diverged[0], (rkey(BRANCH_DB, b"keyboard"), "80".into()));
    assert_eq!(&diverged[1..], &inherited[..]);
    for pair in diverged.windows(2) {
        assert!(pair[0].0 < pair[1].0);
    }
}

#[test]
fn bytes_compare_lexicographically() {
    assert_eq!(compare_bytes(b"", b""), Order::Equal);
    assert_eq!(compare_bytes(b"", b"a"), Order::Less);
    assert_eq!(compare_bytes(b"ab", b"a"), Order::Greater);
    assert_eq!(compare_bytes(b"ab", b"b"), Order::Less);
    assert_eq!(compare_bytes(&[0xff], &[0x01, 0x02]), Order::Greater);
}

#[test]
fn peeking_takes_nothing() {
    let mut items = Peekable::new(vec![1, 2].into_iter());
    assert_eq!(items.peek(), Some(&1));
    assert_eq!(items.peek(), Some(&1));
    assert_eq!(items.next(), Some(1));
    assert_eq!(items.next(), Some(2));
    assert_eq!(items.peek(), None);
    assert_eq!(items.next(), None);
}

/// A source that counts how often it is read.
struct Counted<T> {
    items: std::vec::IntoIter<T>,
    reads: Rc<Cell<usize>>,
}

impl<T> Iterator for Counted<T> {
    type Item = T;

    fn next(&mut self) -> Option<T> {
        self.reads.set(self.reads.get() + 1);
        self.items.next()
    }
}

#[test]
fn sources_are_not_read_past_their_end() {
    let branch_reads = Rc::new(Cell::new(0));
    let parent_reads = Rc::new(Cell::new(0));
    let branch =
        Counted { items: vec![bval(2, b"a", "x")].into_iter(), reads: branch_reads.clone() };
    let parent = Counted {
        items: vec![pval(1, b"b", "y"), pval(1, b"c", "z")].into_iter(),
        reads: parent_reads.clone(),
    };
    let mut cursor = MergeCursor::new(branch, parent, branch_prefix());
    assert_eq!((branch_reads.get(), parent_reads.get()), (0, 0));
    // Looking again reads nothing.
    assert!(matches!(cursor.decide(), Step::TakeBranch));
    assert!(matches!(cursor.decide(), Step::TakeBranch));
    assert_eq!((branch_reads.get(), parent_reads.get()), (1, 1));
    while cursor.next().is_some() {}
    assert_eq!((branch_reads.get(), parent_reads.get()), (2, 3));
    // After the end nothing is read at all.
    assert!(cursor.next().is_none());
    assert!(cursor.next().is_none());
    assert!(matches!(cursor.decide(), Step::Done));
    assert_eq!((branch_reads.get(), parent_reads.get()), (2, 3));
}
