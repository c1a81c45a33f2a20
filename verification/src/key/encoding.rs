//! Keys as bytes: their fields one after the other, in an encoding that keeps their order.
use vstd::prelude::*;

use crate::bytes::lex_lt;

verus! {

/// A key could not be encoded.
#[derive(Clone, Copy, Debug, PartialEq, Eq, Structural)]
pub struct KeyError;

/// The byte `/`.
pub const SLASH: u8 = 0x2f;

/// The byte `*`.
pub const STAR: u8 = 0x2a;

/// The byte `!`.
pub const BANG: u8 = 0x21;

/// The byte `b`.
pub const LETTER_B: u8 = 0x62;

/// The byte `m`.
pub const LETTER_M: u8 = 0x6d;

/// The byte `n`.
pub const LETTER_N: u8 = 0x6e;

/// An integer in four bytes, the most significant first.
pub open spec fn be_u32(n: u32) -> Seq<u8> {
    seq![
        (n / 0x100_0000) as u8,
        (n / 0x1_0000 % 0x100) as u8,
        (n / 0x100 % 0x100) as u8,
        (n % 0x100) as u8,
    ]
}

/// Calls `storekey::encode_vec` on two bytes and an integer: the bytes as they are, and the
/// integer in four bytes, the most significant first. It does not fail.
#[verifier::external_body]
pub(crate) fn encode_root(head: (u8, u8), ns: u32) -> (r: Option<Vec<u8>>)
    ensures
        r is Some,
        r->0@ == seq![head.0, head.1] + be_u32(ns),
{
    storekey::encode_vec(&(head, ns)).ok()
}

/// Calls `storekey::encode_vec` on the fields of a key in a namespace, bytes and integers: the
/// bytes as they are, and each integer in four bytes, the most significant first. It does not
/// fail.
#[verifier::external_body]
pub(crate) fn encode_fields(head: (u8, u8), ns: u32, mark: (u8, u8, u8), id: u32) -> (r: Option<
    Vec<u8>,
>)
    ensures
        r is Some,
        r->0@ == seq![head.0, head.1] + be_u32(ns) + seq![mark.0, mark.1, mark.2] + be_u32(id),
{
    storekey::encode_vec(&(head, ns, mark, id)).ok()
}

/// The order of two strings that start with different bytes is that of these bytes.
proof fn lemma_lex_first(x: Seq<u8>, y: Seq<u8>)
    requires
        x.len() > 0,
        y.len() > 0,
    ensures
        x[0] < y[0] ==> lex_lt(x, y),
        y[0] < x[0] ==> !lex_lt(x, y),
        x[0] == y[0] ==> lex_lt(x, y) == lex_lt(x.drop_first(), y.drop_first()),
{
}

/// The encoding keeps the order of integers, and so tells them apart.
pub proof fn law_encoding_keeps_order(a: u32, b: u32)
    ensures
        lex_lt(be_u32(a), be_u32(b)) <==> a < b,
        be_u32(a) == be_u32(b) <==> a == b,
{
    let x = be_u32(a);
    let y = be_u32(b);
    assert(a == x[0] * 0x100_0000 + x[1] * 0x1_0000 + x[2] * 0x100 + x[3]);
    assert(b == y[0] * 0x100_0000 + y[1] * 0x1_0000 + y[2] * 0x100 + y[3]);
    lemma_lex_first(x, y);
    let x1 = x.drop_first();
    let y1 = y.drop_first();
    assert(x1[0] == x[1] && y1[0] == y[1]);
    lemma_lex_first(x1, y1);
    let x2 = x1.drop_first();
    let y2 = y1.drop_first();
    assert(x2[0] == x[2] && y2[0] == y[2]);
    lemma_lex_first(x2, y2);
    let x3 = x2.drop_first();
    let y3 = y2.drop_first();
    assert(x3[0] == x[3] && y3[0] == y[3]);
    lemma_lex_first(x3, y3);
    assert(!lex_lt(x3.drop_first(), y3.drop_first()));
}

/// The four bytes of an integer make it up, the most significant first.
pub proof fn law_encoding_is_big_endian(n: u32)
    ensures
        be_u32(n).len() == 4,
        be_u32(n)[0] * 0x100_0000 + be_u32(n)[1] * 0x1_0000 + be_u32(n)[2] * 0x100 + be_u32(n)[3]
            == n,
{
}

} // verus!
