//! Variable-length-quantity integers: each byte contributes seven bits of
//! magnitude, low groups first; the high bit of a byte signals continuation.

use vstd::prelude::*;
use crate::instruction::DecodingError;

verus! {

/// Magnitude bound for the tail of a continued quantity: a tail at or above
/// this would overflow 128 bits once shifted by seven.
pub const VLQ_TAIL_LIMIT: u128 = 0x2000000000000000000000000000000;

/// The canonical encoding of `v`, low seven-bit group first.
pub open spec fn spec_vlq_encode(v: u128) -> Seq<u8>
    decreases v,
{
    if v < 128 {
        seq![v as u8]
    } else {
        seq![(128 + v % 128) as u8] + spec_vlq_encode(v / 128)
    }
}

/// Decoding of the quantity starting at `bytes[i]`: the value and the count
/// of bytes consumed, or the decode error.
pub open spec fn spec_vlq_decode(bytes: Seq<u8>, i: int) -> Result<(u128, int), DecodingError>
    decreases bytes.len() - i,
{
    if !(0 <= i < bytes.len()) {
        Err(DecodingError::UnexpectedEOF)
    } else if bytes[i] < 128 {
        Ok(((bytes[i] as u128), 1))
    } else {
        match spec_vlq_decode(bytes, i + 1) {
            Err(e) => Err(e),
            Ok((rest, n)) => if rest >= VLQ_TAIL_LIMIT {
                Err(DecodingError::ConstantTooLong)
            } else {
                Ok((((bytes[i] - 128) + 128 * rest) as u128, n + 1))
            },
        }
    }
}

/// Decoding the canonical encoding of `v`, with anything after it, yields `v`
/// back and consumes exactly the encoding's bytes.
pub proof fn lemma_vlq_round_trip(v: u128, prefix: Seq<u8>, rest: Seq<u8>)
    ensures
        spec_vlq_decode(prefix + spec_vlq_encode(v) + rest, prefix.len() as int) == Ok::<
            (u128, int),
            DecodingError,
        >((v, spec_vlq_encode(v).len() as int)),
    decreases v,
{
    let all = prefix + spec_vlq_encode(v) + rest;
    let i = prefix.len() as int;
    if v < 128 {
        assert(all[i] == v as u8);
    } else {
        let head: u8 = (128 + v % 128) as u8;
        assert(all[i] == head);
        let prefix2 = prefix + seq![head];
        lemma_vlq_round_trip(v / 128, prefix2, rest);
        assert(prefix2 + spec_vlq_encode(v / 128) + rest =~= all);
        assert(v / 128 < VLQ_TAIL_LIMIT);
        assert((head - 128) as u128 + 128 * (v / 128) == v);
    }
}

/// Appends the encoding of `v` to `out`.
pub fn vlq_encode(v: u128, out: &mut Vec<u8>)
    ensures
        final(out)@ == old(out)@ + spec_vlq_encode(v),
    decreases v,
{
    if v < 128 {
        out.push(v as u8);
        assert(out@ =~= old(out)@ + spec_vlq_encode(v));
    } else {
        out.push((128 + v % 128) as u8);
        vlq_encode(v / 128, out);
        assert(out@ =~= old(out)@ + spec_vlq_encode(v));
    }
}

/// Decodes the quantity starting at `bytes[i]`, returning the value and the
/// count of bytes consumed.
pub fn vlq_decode(bytes: &Vec<u8>, i: usize) -> (r: Result<(u128, usize), DecodingError>)
    ensures
        match r {
            Ok((v, n)) => spec_vlq_decode(bytes@, i as int) == Ok::<(u128, int), DecodingError>(
                (v, n as int),
            ) && i + n <= bytes@.len() && n >= 1,
            Err(e) => spec_vlq_decode(bytes@, i as int) == Err::<(u128, int), DecodingError>(e),
        },
    decreases bytes@.len() - i,
{
    if i >= bytes.len() {
        return Err(DecodingError::UnexpectedEOF);
    }
    let b = bytes[i];
    if b < 128 {
        Ok((b as u128, 1))
    } else {
        match vlq_decode(bytes, i + 1) {
            Err(e) => Err(e),
            Ok((rest, n)) => {
                if rest >= VLQ_TAIL_LIMIT {
                    Err(DecodingError::ConstantTooLong)
                } else {
                    Ok(((b - 128) as u128 + 128 * rest, n + 1))
                }
            },
        }
    }
}

} // verus!
