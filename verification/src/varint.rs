//! The variable-length unsigned integer primitive that the schema codecs
//! build on.
//!
//! A value is written in little-endian base-128 groups: every byte carries
//! seven payload bits, and the high bit marks a continuation.  The encoding
//! of any `u64` is self-delimiting; the decoder also accepts non-minimal
//! encodings, reports a cleanly truncated input as `UnexpectedEndOfBytes`,
//! and reports a terminated sequence whose value exceeds `u64` as an
//! integer-overflow error carrying the raw bytes.

use vstd::prelude::*;

use crate::error::SpecParsingError;
use crate::error::SpecParsingErrorView;

verus! {

/// The canonical (minimal-length) encoding of an unsigned integer.
pub open spec fn varint_bytes(n: nat) -> Seq<u8>
    decreases n,
{
    if n < 128 {
        seq![n as u8]
    } else {
        seq![(n % 128 + 128) as u8] + varint_bytes(n / 128)
    }
}

/// Reads one variable-length integer from the front of `bytes` as an
/// unbounded natural number.  `None` means the input ended before the final
/// (continuation-bit-free) byte; otherwise the result carries the value and
/// the number of bytes consumed.
pub open spec fn parse_varint(bytes: Seq<u8>) -> Option<(nat, int)>
    decreases bytes.len(),
{
    if bytes.len() == 0 {
        None
    } else if bytes[0] < 128 {
        Some((bytes[0] as nat, 1))
    } else {
        match parse_varint(bytes.skip(1)) {
            Some((v, used)) => Some((((bytes[0] - 128) + 128 * v) as nat, used + 1)),
            None => None,
        }
    }
}

/// Reads one variable-length integer from the front of `bytes` as a `u64`,
/// with the error taxonomy of the schema decoder: a missing terminator is
/// `UnexpectedEndOfBytes`, and a terminated sequence denoting a value beyond
/// `u64` is an overflow carrying exactly the bytes of that sequence.
pub open spec fn parse_u64(bytes: Seq<u8>) -> Result<(u64, int), SpecParsingErrorView> {
    match parse_varint(bytes) {
        None => Err(SpecParsingErrorView::UnexpectedEndOfBytes),
        Some((v, used)) => if v <= u64::MAX {
            Ok((v as u64, used))
        } else {
            Err(
                SpecParsingErrorView::IntegerOverflowVariableLengthDecodingError(
                    bytes.take(used),
                ),
            )
        },
    }
}

/// The encoding of `n` holds at least one byte.
pub proof fn lemma_varint_bytes_len(n: nat)
    ensures
        1 <= varint_bytes(n).len(),
    decreases n,
{
    if n >= 128 {
        lemma_varint_bytes_len(n / 128);
    }
}

/// Round trip: the decoder reads back exactly the value and length of a
/// canonical encoding, whatever follows it.
pub proof fn lemma_parse_varint_bytes(n: nat, rest: Seq<u8>)
    ensures
        parse_varint(varint_bytes(n) + rest) == Some((n, varint_bytes(n).len() as int)),
    decreases n,
{
    let enc = varint_bytes(n);
    if n < 128 {
        assert((enc + rest)[0] == n as u8);
        assert((n as u8) < 128);
    } else {
        let b0: u8 = (n % 128 + 128) as u8;
        assert(enc == seq![b0] + varint_bytes(n / 128));
        assert((enc + rest)[0] == b0);
        assert(b0 >= 128);
        lemma_parse_varint_bytes(n / 128, rest);
        assert((enc + rest).skip(1) =~= varint_bytes(n / 128) + rest);
        assert((b0 - 128) + 128 * (n / 128) == n) by {
            assert(n % 128 + 128 * (n / 128) == n) by (nonlinear_arith);
        }
    }
}

/// Truncation: every strict prefix of a canonical encoding still waits for
/// its final byte, so parsing it reports end of input.
pub proof fn lemma_parse_varint_bytes_trunc(n: nat, k: int)
    requires
        0 <= k < varint_bytes(n).len(),
    ensures
        parse_varint(varint_bytes(n).take(k)) is None,
    decreases n,
{
    let enc = varint_bytes(n);
    if k == 0 {
        assert(enc.take(0).len() == 0);
    } else {
        let b0: u8 = (n % 128 + 128) as u8;
        assert(enc == seq![b0] + varint_bytes(n / 128));
        assert(enc.take(k)[0] == b0);
        lemma_parse_varint_bytes_trunc(n / 128, k - 1);
        assert(enc.take(k).skip(1) =~= varint_bytes(n / 128).take(k - 1));
    }
}

/// Round trip at the `u64` level: values in range never overflow.
pub proof fn lemma_parse_u64_bytes(n: u64, rest: Seq<u8>)
    ensures
        parse_u64(varint_bytes(n as nat) + rest) == Ok::<(u64, int), SpecParsingErrorView>(
            (n, varint_bytes(n as nat).len() as int),
        ),
{
    lemma_parse_varint_bytes(n as nat, rest);
}

/// Truncation at the `u64` level.
pub proof fn lemma_parse_u64_bytes_trunc(n: u64, k: int)
    requires
        0 <= k < varint_bytes(n as nat).len(),
    ensures
        parse_u64(varint_bytes(n as nat).take(k)) == Err::<(u64, int), SpecParsingErrorView>(
            SpecParsingErrorView::UnexpectedEndOfBytes,
        ),
{
    lemma_parse_varint_bytes_trunc(n as nat, k);
}

/// Appends the canonical encoding of `n` to `out` and reports how many bytes
/// that took.
pub fn encode_varint_u64(n: u64, out: &mut Vec<u8>) -> (written: usize)
    ensures
        final(out)@ == old(out)@ + varint_bytes(n as nat),
        written == varint_bytes(n as nat).len(),
{
    let base = out.len();
    let mut m = n;
    while m >= 128
        invariant
            old(out)@ + varint_bytes(n as nat) == out@ + varint_bytes(m as nat),
            base == old(out)@.len(),
            out@.len() >= base,
        decreases m,
    {
        out.push((m % 128 + 128) as u8);
        assert(varint_bytes(m as nat) == seq![((m as nat) % 128 + 128) as u8] + varint_bytes(
            (m as nat) / 128,
        ));
        assert(out@ + varint_bytes((m as nat) / 128) == old(out)@ + varint_bytes(n as nat));
        m = m / 128;
    }
    out.push(m as u8);
    assert(out@ =~= old(out)@ + varint_bytes(n as nat));
    out.len() - base
}

/// The raw decoding step: `None` is a missing terminator; otherwise the
/// position after the final byte, together with the value when it fits in a
/// `u64` and `None` when the terminated sequence denotes a larger number.
fn decode_varint_raw(input: &[u8], pos: usize) -> (r: Option<(Option<u64>, usize)>)
    requires
        pos <= input@.len(),
    ensures
        match r {
            Some((ov, end)) => {
                &&& pos < end <= input@.len()
                &&& parse_varint(input@.skip(pos as int)) matches Some(p)
                &&& p.1 == end - pos
                &&& match ov {
                    Some(v) => p.0 == v as nat,
                    None => p.0 > u64::MAX,
                }
            },
            None => parse_varint(input@.skip(pos as int)) is None,
        },
    decreases input@.len() - pos,
{
    if pos == input.len() {
        return None;
    }
    let b = input[pos];
    if b < 128 {
        assert(input@.skip(pos as int)[0] == b);
        return Some((Some(b as u64), pos + 1));
    }
    match decode_varint_raw(input, pos + 1) {
        None => {
            assert(input@.skip(pos as int)[0] == b);
            assert(input@.skip(pos as int).skip(1) =~= input@.skip(pos as int + 1));
            None
        },
        Some((ov, end)) => {
            let p = (b - 128) as u64;
            let ghost tail = input@.skip(pos as int);
            assert(tail[0] == b);
            assert(tail.skip(1) =~= input@.skip(pos as int + 1));
            let ghost rv = parse_varint(tail.skip(1))->Some_0.0;
            assert(parse_varint(tail) matches Some(q) && q.0 == ((b - 128) + 128 * rv) as nat
                && q.1 == end - pos);
            let ov2 = match ov {
                None => {
                    proof {
                        assert(128 * rv > u64::MAX) by (nonlinear_arith)
                            requires rv > u64::MAX,
                        ;
                    }
                    None
                },
                Some(v) => {
                    if v <= (u64::MAX - p as u64) / 128 {
                        proof {
                            assert(128 * (v as nat) <= u64::MAX - p) by (nonlinear_arith)
                                requires v as nat <= ((u64::MAX - p) as nat) / 128,
                            ;
                        }
                        Some(p + 128 * v)
                    } else {
                        proof {
                            assert(p + 128 * (v as nat) > u64::MAX) by (nonlinear_arith)
                                requires v as nat > ((u64::MAX - p) as nat) / 128,
                            ;
                        }
                        None
                    }
                },
            };
            Some((ov2, end))
        },
    }
}

/// Reads one variable-length `u64` starting at `pos`, returning the value
/// and the position just past its final byte.
pub fn decode_varint_u64(input: &[u8], pos: usize) -> (r: Result<(u64, usize), SpecParsingError>)
    requires
        pos <= input@.len(),
    ensures
        match r {
            Ok((v, end)) => {
                &&& pos < end <= input@.len()
                &&& parse_u64(input@.skip(pos as int)) == Ok::<(u64, int), SpecParsingErrorView>(
                    (v, end - pos),
                )
            },
            Err(e) => parse_u64(input@.skip(pos as int)) == Err::<(u64, int), SpecParsingErrorView>(
                e@,
            ),
        },
{
    match decode_varint_raw(input, pos) {
        None => Err(SpecParsingError::UnexpectedEndOfBytes),
        Some((Some(v), end)) => Ok((v, end)),
        Some((None, end)) => {
            let raw = vstd::slice::slice_to_vec(vstd::slice::slice_subrange(input, pos, end));
            assert(raw@ =~= input@.skip(pos as int).take(end - pos as int));
            Err(SpecParsingError::IntegerOverflowVariableLengthDecodingError(raw))
        },
    }
}

} // verus!
