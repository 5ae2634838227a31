//! Bit-length inference for integer literals: the minimal supported bit
//! length — 8, 16, …, 248, or the field width 254 — that holds the
//! literal's value; a literal at or above 2^254 is rejected.

use vstd::prelude::*;
use vstd::arithmetic::power2::pow2;
use vstd::arithmetic::power2::lemma2_to64;
use vstd::arithmetic::power2::lemma_pow2_adds;
use vstd::arithmetic::power2::lemma_pow2_pos;
use vstd::arithmetic::power2::lemma_pow2_strictly_increases;
use crate::value::pow2_i128;

verus! {

/// A lexical integer literal, already validated to hold only digits of its
/// base.
#[derive(Clone, Debug, PartialEq)]
pub enum IntegerLiteral {
    Decimal { value: String },
    Hexadecimal { value: String },
}

/// An inference failure.
#[derive(Clone, Debug, PartialEq)]
pub enum Error {
    /// The literal needs more bits than the field width offers.
    LiteralTooLarge(IntegerLiteral, usize),
}

/// A value of arbitrary width, as little-endian 64-bit limbs with no
/// trailing zero limb.
#[derive(Clone, Debug, PartialEq)]
pub struct IntegerValue {
    pub limbs: Vec<u64>,
}

/// A character is a digit of the base.
pub open spec fn is_digit_of(c: char, base: int) -> bool {
    if base == 10 {
        '0' <= c <= '9'
    } else {
        ('0' <= c <= '9') || ('a' <= c <= 'f') || ('A' <= c <= 'F')
    }
}

/// The numeric value of one digit.
pub open spec fn digit_value(c: char) -> int {
    if '0' <= c <= '9' {
        c as int - '0' as int
    } else if 'a' <= c <= 'f' {
        c as int - 'a' as int + 10
    } else {
        c as int - 'A' as int + 10
    }
}

/// Every character is a digit of the base.
pub open spec fn valid_digits(s: Seq<char>, base: int) -> bool {
    forall|i: int| 0 <= i < s.len() ==> is_digit_of(#[trigger] s[i], base)
}

/// The non-negative integer a digit string denotes in the base.
pub open spec fn radix_value(s: Seq<char>, base: int) -> int
    decreases s.len(),
{
    if s.len() == 0 {
        0
    } else {
        radix_value(s.drop_last(), base) * base + digit_value(s.last())
    }
}

/// The non-negative integer a little-endian limb sequence denotes.
pub open spec fn limbs_value(limbs: Seq<u64>) -> int
    decreases limbs.len(),
{
    if limbs.len() == 0 {
        0
    } else {
        limbs_value(limbs.drop_last()) + (limbs.last() as int) * pow2((64 * (limbs.len() - 1)) as nat)
    }
}

/// The literal's digit string and base.
pub open spec fn literal_digits(l: IntegerLiteral) -> (Seq<char>, int) {
    match l {
        IntegerLiteral::Decimal { value } => (value@, 10),
        IntegerLiteral::Hexadecimal { value } => (value@, 16),
    }
}

/// The value a literal denotes.
pub open spec fn literal_value(l: IntegerLiteral) -> int {
    radix_value(literal_digits(l).0, literal_digits(l).1)
}

/// A well-formed literal: non-empty and made of digits of its base.
pub open spec fn literal_wf(l: IntegerLiteral) -> bool {
    let (s, base) = literal_digits(l);
    s.len() > 0 && valid_digits(s, base)
}

/// The bit length inference assigns to a value: the smallest of
/// 8, 16, …, 248 whose range holds it, the field width 254 as a last
/// resort, and nothing if even that is too narrow.
pub open spec fn spec_inferred_bits(v: int) -> Option<int> {
    if v < pow2(248) {
        Some(spec_min_byte_bits(v, 8))
    } else if v < pow2(254) {
        Some(254)
    } else {
        None
    }
}

/// The smallest multiple of eight bits, at least `lo`, holding `v`.
pub open spec fn spec_min_byte_bits(v: int, lo: int) -> int
    decreases 256 - lo,
{
    if lo >= 248 {
        248
    } else if v < pow2(lo as nat) {
        lo
    } else {
        spec_min_byte_bits(v, lo + 8)
    }
}

/// A structural copy of a literal.
fn clone_literal(l: &IntegerLiteral) -> (r: IntegerLiteral)
    ensures
        r == *l,
{
    match l {
        IntegerLiteral::Decimal { value } => IntegerLiteral::Decimal { value: value.clone() },
        IntegerLiteral::Hexadecimal { value } => IntegerLiteral::Hexadecimal {
            value: value.clone(),
        },
    }
}

/// Relies on `num_bigint::BigUint::from_str_radix` (through
/// `num_traits::Num`) to parse a validated digit string, and on
/// `BigUint::to_u64_digits` for the canonical little-endian 64-bit limbs of
/// the parsed value: no trailing zero limb, and the empty sequence for
/// zero.
#[verifier::external_body]
fn parse_radix(s: &str, base: u32) -> (r: Vec<u64>)
    requires
        base == 10 || base == 16,
        s@.len() > 0,
        valid_digits(s@, base as int),
    ensures
        limbs_value(r@) == radix_value(s@, base as int),
        r@.len() > 0 ==> r@.last() != 0,
{
    let v = <num_bigint::BigUint as num_traits::Num>::from_str_radix(s, base).unwrap();
    v.to_u64_digits()
}

/// Count of significant bits of a limb: the smallest `k` with the limb
/// below 2^k.
fn u64_bits(x: u64) -> (r: u8)
    ensures
        r <= 64,
        (x as int) < pow2(r as nat),
        r > 0 ==> pow2((r - 1) as nat) <= x as int,
{
    let mut k: u8 = 0;
    loop
        invariant
            k <= 64,
            k > 0 ==> pow2((k - 1) as nat) <= x as int,
        decreases 64 - k,
    {
        if (x as i128) < pow2_i128(k) {
            return k;
        }
        if k == 64 {
            proof {
                lemma2_to64();
                vstd::arithmetic::power2::lemma2_to64_rest();
            }
            return k;
        }
        k = k + 1;
    }
}

/// The value of a canonical limb sequence lies between the powers of two
/// its top limb's bit count prescribes.
proof fn lemma_limbs_bracket(limbs: Seq<u64>, top_bits: int)
    requires
        limbs.len() > 0,
        limbs.last() != 0,
        0 < top_bits <= 64,
        (limbs.last() as int) < pow2(top_bits as nat),
        pow2((top_bits - 1) as nat) <= limbs.last() as int,
    ensures
        limbs_value(limbs) < pow2((64 * (limbs.len() - 1) + top_bits) as nat),
        limbs_value(limbs) >= pow2((64 * (limbs.len() - 1) + top_bits - 1) as nat),
        limbs_value(limbs) >= 0,
{
    let rest = limbs.drop_last();
    let shift = (64 * (limbs.len() - 1)) as nat;
    lemma_limbs_nonneg(rest);
    lemma_limbs_upper(rest);
    lemma_pow2_adds(shift, top_bits as nat);
    lemma_pow2_adds(shift, (top_bits - 1) as nat);
    lemma_pow2_pos(shift);
    assert(limbs_value(limbs) == limbs_value(rest) + (limbs.last() as int) * pow2(shift));
    assert(limbs_value(rest) < pow2(shift));
    assert((limbs.last() as int) * pow2(shift) + pow2(shift) <= pow2(top_bits as nat) * pow2(
        shift,
    )) by (nonlinear_arith)
        requires
            (limbs.last() as int) < pow2(top_bits as nat),
            pow2(shift) > 0,
    ;
    assert((limbs.last() as int) * pow2(shift) >= pow2((top_bits - 1) as nat) * pow2(shift))
        by (nonlinear_arith)
        requires
            (limbs.last() as int) >= pow2((top_bits - 1) as nat),
            pow2(shift) > 0,
    ;
    assert(pow2(top_bits as nat) * pow2(shift) == pow2(shift) * pow2(top_bits as nat))
        by (nonlinear_arith);
    assert(pow2((top_bits - 1) as nat) * pow2(shift) == pow2(shift) * pow2((top_bits - 1) as nat))
        by (nonlinear_arith);
    assert((64 * (limbs.len() - 1) + top_bits) as nat == shift + (top_bits as nat));
    assert((64 * (limbs.len() - 1) + top_bits - 1) as nat == shift + ((top_bits - 1) as nat));
    assert(limbs_value(limbs) < pow2(shift) * pow2(top_bits as nat));
    assert(limbs_value(limbs) >= pow2(shift) * pow2((top_bits - 1) as nat)) by {
        assert(pow2((top_bits - 1) as nat) * pow2(shift) == pow2(shift) * pow2(
            (top_bits - 1) as nat,
        )) by (nonlinear_arith);
    }
    assert(pow2(shift) * pow2(top_bits as nat) == pow2(shift + (top_bits as nat)));
    assert(pow2(shift) * pow2((top_bits - 1) as nat) == pow2(shift + ((top_bits - 1) as nat)));
}

/// A limb sequence's value is non-negative.
proof fn lemma_limbs_nonneg(limbs: Seq<u64>)
    ensures
        limbs_value(limbs) >= 0,
    decreases limbs.len(),
{
    if limbs.len() > 0 {
        lemma_limbs_nonneg(limbs.drop_last());
        lemma_pow2_pos((64 * (limbs.len() - 1)) as nat);
        assert((limbs.last() as int) * pow2((64 * (limbs.len() - 1)) as nat) >= 0)
            by (nonlinear_arith)
            requires
                limbs.last() as int >= 0,
                pow2((64 * (limbs.len() - 1)) as nat) > 0,
        ;
    }
}

/// A limb sequence's value is below 2^(64·len).
proof fn lemma_limbs_upper(limbs: Seq<u64>)
    ensures
        limbs_value(limbs) < pow2((64 * limbs.len()) as nat),
    decreases limbs.len(),
{
    lemma_pow2_pos((64 * limbs.len()) as nat);
    if limbs.len() == 0 {
    } else {
        let rest = limbs.drop_last();
        let shift = (64 * (limbs.len() - 1)) as nat;
        lemma_limbs_upper(rest);
        lemma_pow2_adds(shift, 64);
        lemma2_to64();
        vstd::arithmetic::power2::lemma2_to64_rest();
        assert((limbs.last() as int) * pow2(shift) + pow2(shift) <= pow2(64) * pow2(shift))
            by (nonlinear_arith)
            requires
                (limbs.last() as int) < pow2(64),
                pow2(shift) > 0,
        ;
    }
}

/// Converts `literal` to its value and the minimal supported bit length
/// holding it; a literal at or above 2^254 is the `LiteralTooLarge` error,
/// carrying the field width.
pub fn integer_literal(literal: &IntegerLiteral) -> (r: Result<(IntegerValue, usize), Error>)
    requires
        literal_wf(*literal),
    ensures
        match r {
            Ok((value, bits)) => {
                &&& limbs_value(value.limbs@) == literal_value(*literal)
                &&& Some(bits as int) == spec_inferred_bits(literal_value(*literal))
                &&& 8 <= bits <= 254
            },
            Err(e) => e == Error::LiteralTooLarge(*literal, 254usize) && literal_value(*literal)
                >= pow2(254),
        },
{
    let limbs = match literal {
        IntegerLiteral::Decimal { value } => parse_radix(value.as_str(), 10),
        IntegerLiteral::Hexadecimal { value } => parse_radix(value.as_str(), 16),
    };
    let ghost v = limbs_value(limbs@);
    let n = limbs.len();
    if n > 4 {
        let top0 = u64_bits(limbs[n - 1]);
        proof {
            lemma2_to64();
            if top0 == 0 {
                assert((limbs@.last() as int) < pow2(0));
                assert(false);
            }
            lemma_limbs_bracket(limbs@, top0 as int);
            lemma_pow2_strictly_increases(254, (64 * (n - 1)) as nat);
            if 64 * (n - 1) < 64 * (n - 1) + top0 - 1 {
                lemma_pow2_strictly_increases(
                    (64 * (n - 1)) as nat,
                    (64 * (n - 1) + top0 - 1) as nat,
                );
            }
            assert(v >= pow2(254));
        }
        return Err(Error::LiteralTooLarge(clone_literal(literal), 254));
    }
    let total_bits: usize;
    if n == 0 {
        total_bits = 0;
        proof {
            assert(v == 0);
        }
    } else {
        let top = u64_bits(limbs[n - 1]);
        proof {
            assert(limbs@.last() != 0);
            lemma2_to64();
            if top == 0 {
                assert((limbs@.last() as int) < pow2(0));
                assert(false);
            }
            lemma_limbs_bracket(limbs@, top as int);
        }
        total_bits = (n - 1) * 64 + top as usize;
    }
    proof {
        if n > 0 {
            assert(v < pow2(total_bits as nat));
            assert(v >= pow2((total_bits - 1) as nat));
        } else {
            lemma_pow2_pos(total_bits as nat);
        }
    }
    if total_bits > 254 {
        proof {
            if total_bits - 1 > 254 {
                lemma_pow2_strictly_increases(254, (total_bits - 1) as nat);
            }
            assert(v >= pow2(254));
        }
        return Err(Error::LiteralTooLarge(clone_literal(literal), 254));
    }
    if total_bits > 248 {
        // needs the field width, and the value fits it
        proof {
            if total_bits - 1 > 248 {
                lemma_pow2_strictly_increases(248, (total_bits - 1) as nat);
            }
            assert(v >= pow2(248));
            if total_bits < 254 {
                lemma_pow2_strictly_increases(total_bits as nat, 254);
            }
            assert(v < pow2(254));
        }
        return Ok((IntegerValue { limbs }, 254));
    }
    // round up to a whole number of bytes, with a floor of one byte
    let bl: usize = if total_bits <= 8 {
        8
    } else {
        ((total_bits + 7) / 8) * 8
    };
    proof {
        lemma_min_byte_bits(v, bl as int, total_bits as int);
    }
    Ok((IntegerValue { limbs }, bl))
}

/// Rounding the bit count up to whole bytes gives exactly the minimal
/// supported byte-width bit length.
proof fn lemma_min_byte_bits(v: int, bl: int, total_bits: int)
    requires
        0 <= total_bits <= 248,
        v < pow2(total_bits as nat),
        total_bits > 0 ==> v >= pow2((total_bits - 1) as nat),
        total_bits == 0 ==> v == 0,
        bl == if total_bits <= 8 {
            8int
        } else {
            ((total_bits + 7) / 8) * 8
        },
    ensures
        v < pow2(248),
        Some(bl) == spec_inferred_bits(v),
{
    if total_bits < 248 {
        lemma_pow2_strictly_increases(total_bits as nat, 248);
    }
    assert(v < pow2(248));
    lemma_min_byte_bits_rec(v, bl, total_bits, 8);
}

/// The recursive search agrees with the arithmetic rounding.
proof fn lemma_min_byte_bits_rec(v: int, bl: int, total_bits: int, lo: int)
    requires
        0 <= total_bits <= 248,
        v < pow2(total_bits as nat),
        total_bits > 0 ==> v >= pow2((total_bits - 1) as nat),
        total_bits == 0 ==> v == 0,
        bl == if total_bits <= 8 {
            8int
        } else {
            ((total_bits + 7) / 8) * 8
        },
        8 <= lo <= 248,
        lo % 8 == 0,
        lo <= bl,
        lo > 8 ==> v >= pow2((lo - 8) as nat),
    ensures
        spec_min_byte_bits(v, lo) == bl,
    decreases 248 - lo,
{
    lemma_pow2_pos(lo as nat);
    if lo >= 248 {
        assert(bl <= 248);
        assert(bl == 248);
    } else if v < pow2(lo as nat) {
        // the search stops here; show the rounding agrees
        if total_bits <= 8 {
            assert(bl == 8);
            assert(lo == 8);
        } else {
            assert(bl >= total_bits);
            if lo < bl {
                // then lo <= bl - 8 < total_bits, so v >= pow2(lo)
                assert(lo <= bl - 8);
                assert(bl - 8 < total_bits) by {
                    assert(((total_bits + 7) / 8) * 8 < total_bits + 8);
                }
                assert(lo <= total_bits - 1);
                if lo < total_bits - 1 {
                    lemma_pow2_strictly_increases(lo as nat, (total_bits - 1) as nat);
                }
                assert(pow2(lo as nat) <= pow2((total_bits - 1) as nat));
                assert(false);
            }
        }
    } else {
        assert(v >= pow2(lo as nat));
        if bl == lo {
            if total_bits < bl {
                lemma_pow2_strictly_increases(total_bits as nat, bl as nat);
            }
            assert(v < pow2(bl as nat));
            assert(false);
        }
        assert(bl % 8 == 0) by (nonlinear_arith)
            requires
                bl == 8 || bl == ((total_bits + 7) / 8) * 8,
        ;
        assert(lo + 8 <= bl) by (nonlinear_arith)
            requires
                bl % 8 == 0,
                lo % 8 == 0,
                lo < bl,
        ;
        lemma_min_byte_bits_rec(v, bl, total_bits, lo + 8);
    }
}

/// Deduces the bit length enough to represent the biggest literal among
/// `literals`: the maximum of the individual inferences, and zero when the
/// list is empty. The first oversized literal, in list order, is the error.
pub fn enough_bitlength(literals: &Vec<IntegerLiteral>) -> (r: Result<usize, Error>)
    requires
        forall|i: int| 0 <= i < literals@.len() ==> literal_wf(#[trigger] literals@[i]),
    ensures
        match r {
            Ok(bits) => {
                &&& (forall|i: int|
                    0 <= i < literals@.len() ==> spec_inferred_bits(
                        literal_value(#[trigger] literals@[i]),
                    ) is Some)
                &&& (forall|i: int|
                    0 <= i < literals@.len() ==> spec_inferred_bits(
                        literal_value(#[trigger] literals@[i]),
                    )->0 <= bits as int)
                &&& (literals@.len() == 0 ==> bits == 0)
                &&& (literals@.len() > 0 ==> exists|i: int|
                    0 <= i < literals@.len() && spec_inferred_bits(
                        literal_value(#[trigger] literals@[i]),
                    ) == Some(bits as int))
            },
            Err(e) => exists|i: int|
                {
                    &&& 0 <= i < literals@.len()
                    &&& e == Error::LiteralTooLarge(#[trigger] literals@[i], 254usize)
                    &&& literal_value(literals@[i]) >= pow2(254)
                    &&& (forall|k: int|
                        0 <= k < i ==> spec_inferred_bits(
                            literal_value(#[trigger] literals@[k]),
                        ) is Some)
                },
        },
{
    let mut max: usize = 0;
    let mut i: usize = 0;
    while i < literals.len()
        invariant
            i <= literals@.len(),
            forall|k: int| 0 <= k < literals@.len() ==> literal_wf(#[trigger] literals@[k]),
            forall|k: int|
                0 <= k < i ==> spec_inferred_bits(literal_value(#[trigger] literals@[k])) is Some,
            forall|k: int|
                0 <= k < i ==> spec_inferred_bits(literal_value(#[trigger] literals@[k]))->0
                    <= max as int,
            i == 0 ==> max == 0,
            i > 0 ==> exists|k: int|
                0 <= k < i && spec_inferred_bits(literal_value(#[trigger] literals@[k])) == Some(
                    max as int,
                ),
            max <= 254,
        decreases literals@.len() - i,
    {
        let bits = match integer_literal(&literals[i]) {
            Ok((_, b)) => b,
            Err(e) => {
                return Err(e);
            },
        };
        if bits > max {
            max = bits;
        }
        proof {
            if bits > max || max == bits {
            } else {
                let k0 = choose|k: int|
                    0 <= k < i && spec_inferred_bits(literal_value(#[trigger] literals@[k]))
                        == Some(max as int);
                assert(0 <= k0 < i + 1 && spec_inferred_bits(literal_value(literals@[k0]))
                    == Some(max as int));
            }
        }
        i = i + 1;
    }
    Ok(max)
}

} // verus!
