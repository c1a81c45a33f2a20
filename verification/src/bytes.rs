//! The order of byte strings: lexicographic, a shorter string before its extensions.
use vstd::prelude::*;

verus! {

/// The outcome of comparing two values.
#[derive(Clone, Copy, Debug, PartialEq, Eq, Structural)]
pub enum Order {
    Less,
    Equal,
    Greater,
}

/// `a` comes before `b` in lexicographic byte order.
pub open spec fn lex_lt(a: Seq<u8>, b: Seq<u8>) -> bool
    decreases a.len(),
{
    if b.len() == 0 {
        false
    } else if a.len() == 0 {
        true
    } else if a[0] != b[0] {
        a[0] < b[0]
    } else {
        lex_lt(a.drop_first(), b.drop_first())
    }
}

/// `a` comes before `b`, or is `b`.
pub open spec fn lex_le(a: Seq<u8>, b: Seq<u8>) -> bool {
    a == b || lex_lt(a, b)
}

/// How `a` compares with `b`.
pub open spec fn lex_order(a: Seq<u8>, b: Seq<u8>) -> Order {
    if a == b {
        Order::Equal
    } else if lex_lt(a, b) {
        Order::Less
    } else {
        Order::Greater
    }
}

/// Exactly one of `a < b`, `a == b` and `b < a` holds.
pub proof fn lemma_lex_total(a: Seq<u8>, b: Seq<u8>)
    ensures
        lex_lt(a, b) || a == b || lex_lt(b, a),
        !(lex_lt(a, b) && lex_lt(b, a)),
        lex_lt(a, b) ==> a != b,
    decreases a.len(),
{
    if a.len() > 0 && b.len() > 0 && a[0] == b[0] {
        lemma_lex_total(a.drop_first(), b.drop_first());
        if a.drop_first() == b.drop_first() {
            assert(a =~= seq![a[0]] + a.drop_first());
            assert(b =~= seq![b[0]] + b.drop_first());
        }
    } else if a.len() == 0 && b.len() == 0 {
        assert(a =~= b);
    }
}

/// Lexicographic order is transitive.
pub proof fn lemma_lex_transitive(a: Seq<u8>, b: Seq<u8>, c: Seq<u8>)
    requires
        lex_lt(a, b),
        lex_lt(b, c),
    ensures
        lex_lt(a, c),
    decreases a.len(),
{
    if a.len() > 0 && a[0] == b[0] && b[0] == c[0] {
        lemma_lex_transitive(a.drop_first(), b.drop_first(), c.drop_first());
    }
}

/// A common prefix does not matter to the order.
pub proof fn lemma_lex_common_prefix(prefix: Seq<u8>, a: Seq<u8>, b: Seq<u8>)
    ensures
        lex_lt(prefix + a, prefix + b) == lex_lt(a, b),
    decreases prefix.len(),
{
    if prefix.len() == 0 {
        assert(prefix + a =~= a);
        assert(prefix + b =~= b);
    } else {
        lemma_lex_common_prefix(prefix.drop_first(), a, b);
        assert((prefix + a).drop_first() =~= prefix.drop_first() + a);
        assert((prefix + b).drop_first() =~= prefix.drop_first() + b);
    }
}

/// Two byte strings compare as the first bytes in which they differ; where one of them ends
/// before that, it is the smaller.
pub proof fn law_first_difference_decides(a: Seq<u8>, b: Seq<u8>, i: int)
    requires
        0 <= i <= a.len(),
        i <= b.len(),
        forall|j: int| 0 <= j < i ==> a[j] == b[j],
    ensures
        i < a.len() && i < b.len() && a[i] < b[i] ==> lex_order(a, b) == Order::Less,
        i < a.len() && i < b.len() && a[i] > b[i] ==> lex_order(a, b) == Order::Greater,
        i == a.len() && i < b.len() ==> lex_order(a, b) == Order::Less,
        i < a.len() && i == b.len() ==> lex_order(a, b) == Order::Greater,
        i == a.len() && i == b.len() ==> lex_order(a, b) == Order::Equal,
        lex_lt(a, b) <==> lex_order(a, b) == Order::Less,
        lex_le(a, b) <==> lex_order(a, b) != Order::Greater,
    decreases i,
{
    lemma_lex_total(a, b);
    if i > 0 {
        let a1 = a.drop_first();
        let b1 = b.drop_first();
        assert forall|j: int| 0 <= j < i - 1 implies a1[j] == b1[j] by {
            assert(a[j + 1] == b[j + 1]);
        }
        assert(a[0] == b[0]);
        law_first_difference_decides(a1, b1, i - 1);
        lemma_lex_total(a1, b1);
        if a1 == b1 {
            assert(a =~= seq![a[0]] + a1);
            assert(b =~= seq![b[0]] + b1);
        }
        assert(i < a.len() ==> a1[i - 1] == a[i]);
        assert(i < b.len() ==> b1[i - 1] == b[i]);
    } else if a.len() == 0 && b.len() == 0 {
        assert(a =~= b);
    }
}

/// Of two byte strings, each compares with the other in the opposite way.
pub proof fn law_byte_order_is_antisymmetric(a: Seq<u8>, b: Seq<u8>)
    ensures
        lex_order(a, b) == Order::Less <==> lex_order(b, a) == Order::Greater,
        lex_order(a, b) == Order::Equal <==> a == b,
{
    lemma_lex_total(a, b);
}

/// What is compared compares as the first bytes in which it differs.
pub proof fn law_compared_by_first_difference(a: &[u8], b: &[u8], order: Order, i: int)
    requires
        call_ensures(compare_bytes, (a, b), order),
        0 <= i <= a@.len(),
        i <= b@.len(),
        forall|j: int| 0 <= j < i ==> a@[j] == b@[j],
    ensures
        i < a@.len() && i < b@.len() && a@[i] < b@[i] ==> order == Order::Less,
        i < a@.len() && i < b@.len() && a@[i] > b@[i] ==> order == Order::Greater,
        i == a@.len() && i < b@.len() ==> order == Order::Less,
        i < a@.len() && i == b@.len() ==> order == Order::Greater,
        i == a@.len() && i == b@.len() ==> order == Order::Equal,
{
    law_first_difference_decides(a@, b@, i);
}

/// Compares two byte strings lexicographically.
pub fn compare_bytes(a: &[u8], b: &[u8]) -> (order: Order)
    ensures
        order == lex_order(a@, b@),
{
    let mut i: usize = 0;
    assert(a@.skip(0) =~= a@);
    assert(b@.skip(0) =~= b@);
    while i < a.len() && i < b.len()
        invariant
            i <= a.len(),
            i <= b.len(),
            forall|j: int| 0 <= j < i ==> a@[j] == b@[j],
            lex_lt(a@, b@) == lex_lt(a@.skip(i as int), b@.skip(i as int)),
        decreases a.len() - i,
    {
        assert(a@.skip(i as int)[0] == a@[i as int]);
        assert(b@.skip(i as int)[0] == b@[i as int]);
        if a[i] < b[i] {
            return Order::Less;
        }
        if b[i] < a[i] {
            return Order::Greater;
        }
        assert(a@.skip(i as int).drop_first() =~= a@.skip(i + 1));
        assert(b@.skip(i as int).drop_first() =~= b@.skip(i + 1));
        i = i + 1;
    }
    if a.len() == b.len() {
        assert(a@ =~= b@);
        Order::Equal
    } else if a.len() < b.len() {
        Order::Less
    } else {
        Order::Greater
    }
}

} // verus!
