//! Integers in the revisioned wire format.
use revision::{DeserializeRevisioned, SerializeRevisioned, SkipRevisioned};
use vstd::prelude::*;

verus! {

/// Why bytes could not be read.
#[derive(Clone, Copy, Debug, PartialEq, Eq, Structural)]
pub enum WireError {
    /// The bytes end too early.
    UnexpectedEnd,
    /// The integer is too large.
    IntegerOverflow,
    /// The bytes are no integer.
    InvalidIntegerEncoding,
    /// Any other failure.
    Failed,
}

/// An integer by its bytes, the least significant first.
pub open spec fn from_le(bytes: Seq<u8>) -> int
    decreases bytes.len(),
{
    if bytes.len() == 0 {
        0
    } else {
        bytes[0] + 256 * from_le(bytes.drop_first())
    }
}

/// The first `n` bytes of an integer, the least significant first.
pub open spec fn to_le(v: int, n: nat) -> Seq<u8>
    decreases n,
{
    if n == 0 {
        Seq::empty()
    } else {
        seq![(v % 256) as u8] + to_le(v / 256, (n - 1) as nat)
    }
}

/// An integer in the wire format: in one byte where it is small, otherwise behind a byte that
/// tells its width.
pub open spec fn wire_u32(v: u32) -> Seq<u8> {
    if v < 251 {
        seq![v as u8]
    } else if v < 0x1_0000 {
        seq![251u8] + to_le(v as int, 2)
    } else {
        seq![252u8] + to_le(v as int, 4)
    }
}

/// The number of bytes behind the first byte of an integer.
pub open spec fn wire_width(tag: u8) -> int {
    if tag == 251 {
        2
    } else if tag == 252 {
        4
    } else if tag == 253 {
        8
    } else {
        0
    }
}

/// What is read from bytes: an integer and what is left of them.
pub open spec fn unwire_u32(bytes: Seq<u8>) -> Result<(u32, Seq<u8>), WireError> {
    if bytes.len() == 0 {
        Err(WireError::UnexpectedEnd)
    } else if bytes[0] < 251 {
        Ok((bytes[0] as u32, bytes.skip(1)))
    } else if bytes[0] == 254 {
        Err(WireError::IntegerOverflow)
    } else if bytes[0] == 255 {
        Err(WireError::InvalidIntegerEncoding)
    } else if bytes.len() < 1 + wire_width(bytes[0]) {
        Err(WireError::UnexpectedEnd)
    } else {
        let v = from_le(bytes.subrange(1, 1 + wire_width(bytes[0])));
        if v <= u32::MAX {
            Ok((v as u32, bytes.skip(1 + wire_width(bytes[0]))))
        } else {
            Err(WireError::IntegerOverflow)
        }
    }
}

/// The outcome of reading, with what is left by its bytes.
pub open spec fn outcome(r: Result<(u32, &[u8]), WireError>) -> Result<
    (u32, Seq<u8>),
    WireError,
> {
    match r {
        Ok((v, rest)) => Ok((v, rest@)),
        Err(e) => Err(e),
    }
}

/// Calls `SerializeRevisioned::serialize_revisioned` of `u32`: appends the integer in the wire
/// format, which does not fail on a vector.
#[verifier::external_body]
pub(crate) fn write_u32(v: u32, writer: &mut Vec<u8>) -> (written: bool)
    ensures
        written,
        final(writer)@ == old(writer)@ + wire_u32(v),
{
    SerializeRevisioned::serialize_revisioned(&v, writer).is_ok()
}

/// Calls `DeserializeRevisioned::deserialize_revisioned` of `u32`: reads an integer, and leaves
/// what follows it.
#[verifier::external_body]
pub(crate) fn read_u32(bytes: &[u8]) -> (r: Result<(u32, &[u8]), WireError>)
    ensures
        outcome(r) == unwire_u32(bytes@),
{
    let mut rest: &[u8] = bytes;
    match <u32 as DeserializeRevisioned>::deserialize_revisioned(&mut rest) {
        Ok(v) => Ok((v, rest)),
        Err(revision::Error::Io(_)) => Err(WireError::UnexpectedEnd),
        Err(revision::Error::IntegerOverflow) => Err(WireError::IntegerOverflow),
        Err(revision::Error::InvalidIntegerEncoding) => Err(WireError::InvalidIntegerEncoding),
        Err(_) => Err(WireError::Failed),
    }
}

/// Calls `SkipRevisioned::skip_revisioned` of `u32`: passes over an integer as reading does,
/// and fails as reading does.
#[verifier::external_body]
pub(crate) fn skip_u32(bytes: &[u8]) -> (r: Result<&[u8], WireError>)
    ensures
        match r {
            Ok(rest) => unwire_u32(bytes@) matches Ok((_, left)) && left == rest@,
            Err(e) => unwire_u32(bytes@) matches Err(f) && f == e,
        },
{
    let mut rest: &[u8] = bytes;
    match <u32 as SkipRevisioned>::skip_revisioned(&mut rest) {
        Ok(()) => Ok(rest),
        Err(revision::Error::Io(_)) => Err(WireError::UnexpectedEnd),
        Err(revision::Error::IntegerOverflow) => Err(WireError::IntegerOverflow),
        Err(revision::Error::InvalidIntegerEncoding) => Err(WireError::InvalidIntegerEncoding),
        Err(_) => Err(WireError::Failed),
    }
}

/// An integer is given back by as many of its bytes as it fits in.
pub proof fn lemma_le_round_trip(v: int, n: nat)
    requires
        0 <= v < vstd::arithmetic::power::pow(256, n),
    ensures
        to_le(v, n).len() == n,
        from_le(to_le(v, n)) == v,
    decreases n,
{
    vstd::arithmetic::power::lemma_pow0(256);
    if n > 0 {
        let m = (n - 1) as nat;
        assert(vstd::arithmetic::power::pow(256, n) == 256 * vstd::arithmetic::power::pow(256, m))
            by {
            reveal(vstd::arithmetic::power::pow);
        }
        lemma_le_round_trip(v / 256, m);
        assert(to_le(v, n).drop_first() =~= to_le(v / 256, m));
    }
}

/// What is written is read back, and nothing of what follows it is taken.
pub proof fn law_wire_round_trip(v: u32, rest: Seq<u8>)
    ensures
        unwire_u32(wire_u32(v) + rest) == Ok::<(u32, Seq<u8>), WireError>((v, rest)),
{
    let bytes = wire_u32(v) + rest;
    if v < 251 {
        assert(bytes.skip(1) =~= rest);
    } else {
        let n: nat = if v < 0x1_0000 {
            2
        } else {
            4
        };
        assert(vstd::arithmetic::power::pow(256, 2) == 0x1_0000 && vstd::arithmetic::power::pow(
            256,
            4,
        ) == 0x1_0000_0000) by {
            reveal_with_fuel(vstd::arithmetic::power::pow, 5);
        }
        lemma_le_round_trip(v as int, n);
        assert(bytes.subrange(1, 1 + n as int) =~= to_le(v as int, n));
        assert(bytes.skip(1 + n as int) =~= rest);
    }
}

/// What is cut short is not read.
pub proof fn law_wire_cut_short(v: u32, n: int)
    requires
        0 <= n < wire_u32(v).len(),
    ensures
        unwire_u32(wire_u32(v).take(n)) == Err::<(u32, Seq<u8>), WireError>(
            WireError::UnexpectedEnd,
        ),
{
    assert(vstd::arithmetic::power::pow(256, 2) == 0x1_0000 && vstd::arithmetic::power::pow(256, 4)
        == 0x1_0000_0000) by {
        reveal_with_fuel(vstd::arithmetic::power::pow, 5);
    }
    if v >= 251 {
        let width: nat = if v < 0x1_0000 {
            2
        } else {
            4
        };
        lemma_le_round_trip(v as int, width);
    }
}

} // verus!
