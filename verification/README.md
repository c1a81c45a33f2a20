# surreal_branch

Copy-on-write database branching, verified with Verus.

A branch is a database of its own that is layered over a parent database, read at a pinned
version. It holds only what has diverged; everything else falls through to the parent.

- `src/kvs`: the merge cursor that lays a branch range over a parent range, and its laws.
- `src/key`: the keys of branch metadata, their encoding and their ranges.
- `src/catalog`: identifiers, database definitions and branch metadata.
- `src/expr`: the `DEFINE DATABASE` statement, as a machine that asks for what it needs and is
  given replies, and the laws of what it stores.
- `src/val`, `src/types`: objects with a presentation order, a permutation of their sorted entries,
  that comparison and encoding do not see. Of hashing, what is proved is that the order adds
  nothing to a hash; how an object is hashed otherwise is derived.
- `src/collections`, `src/bytes.rs`, `src/peekable.rs`: what these are built on.

`app` holds the wire and client formats of these types and the driver of the statement. The
contracts of functions of other crates stand next to their calls: `val/headers.rs` (`http`),
`key/encoding.rs` (`storekey`) and `catalog/wire.rs` (`revision`).
