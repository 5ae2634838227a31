//! The primitive value of the virtual machine: a field element carrying an
//! optional concrete integer (present in native execution) and a witness
//! handle into the constraint backend (always present).

use vstd::prelude::*;
use vstd::arithmetic::power2::pow2;
use vstd::arithmetic::power2::lemma2_to64;
use vstd::arithmetic::power2::lemma2_to64_rest;
use vstd::arithmetic::power2::lemma_pow2_adds;
use vstd::arithmetic::power2::lemma_pow2_pos;
use vstd::arithmetic::power2::lemma_pow2_strictly_increases;

verus! {

/// Widest bit length a scalar type may declare. Chosen so that the product of
/// two in-range values always fits in `i128`.
pub const MAX_BIT_LENGTH: u8 = 63;

/// Bit length of the single-bit boolean type.
pub const BOOLEAN_BIT_LENGTH: u8 = 1;

/// pow2(126), needed as a concrete bound in overflow arguments.
pub proof fn lemma_pow2_126()
    ensures
        pow2(126) == 0x40000000000000000000000000000000,
{
    lemma2_to64_rest();
    lemma_pow2_adds(63, 63);
}

/// 2^n for n up to 126, computed executably.
pub fn pow2_i128(n: u8) -> (r: i128)
    requires
        n <= 126,
    ensures
        r == pow2(n as nat),
        r >= 1,
{
    proof {
        lemma_pow2_pos(n as nat);
        lemma2_to64();
    }
    let mut r: i128 = 1;
    let mut i: u8 = 0;
    while i < n
        invariant
            i <= n,
            n <= 126,
            r == pow2(i as nat),
        decreases n - i,
    {
        proof {
            lemma_pow2_126();
            if (i as nat) < 126 {
                lemma_pow2_strictly_increases(i as nat, 126);
            }
            lemma_pow2_adds(i as nat, 1);
            lemma2_to64();
        }
        r = r * 2;
        i = i + 1;
    }
    r
}

/// The scalar type metadata is one the machine supports: a bit length
/// between 1 and `MAX_BIT_LENGTH`, and the single-bit type is unsigned.
pub open spec fn scalar_type_wf(is_signed: bool, bit_length: u8) -> bool {
    &&& 1 <= bit_length <= MAX_BIT_LENGTH
    &&& bit_length == BOOLEAN_BIT_LENGTH ==> !is_signed
}

/// `c` lies in the range the scalar type declares.
pub open spec fn scalar_in_range(is_signed: bool, bit_length: u8, c: i128) -> bool {
    if is_signed {
        -(pow2((bit_length - 1) as nat) as int) <= c < pow2((bit_length - 1) as nat) as int
    } else {
        0 <= c < pow2(bit_length as nat) as int
    }
}

/// Executable form of `scalar_type_wf`.
pub fn check_scalar_type(is_signed: bool, bit_length: u8) -> (r: bool)
    ensures
        r == scalar_type_wf(is_signed, bit_length),
{
    1 <= bit_length && bit_length <= MAX_BIT_LENGTH && !(bit_length == BOOLEAN_BIT_LENGTH
        && is_signed)
}

/// Executable form of `scalar_in_range`.
pub fn check_scalar_range(is_signed: bool, bit_length: u8, c: i128) -> (r: bool)
    requires
        scalar_type_wf(is_signed, bit_length),
    ensures
        r == scalar_in_range(is_signed, bit_length, c),
{
    if is_signed {
        let bound = pow2_i128(bit_length - 1);
        -bound <= c && c < bound
    } else {
        let bound = pow2_i128(bit_length);
        0 <= c && c < bound
    }
}

/// Any concrete half of a well-formed value fits well inside `i128`: its
/// magnitude is at most 2^63.
pub proof fn lemma_value_bound(v: Value)
    requires
        v.wf(),
    ensures
        match v.concrete {
            Some(c) => -0x8000000000000000 <= c < 0x8000000000000000,
            None => true,
        },
{
    lemma2_to64_rest();
    if v.concrete is Some {
        if v.is_signed {
            if v.bit_length < 63 {
                lemma_pow2_strictly_increases((v.bit_length - 1) as nat, 63);
            } else {
                lemma_pow2_strictly_increases(62, 63);
            }
        } else {
            if v.bit_length < 63 {
                lemma_pow2_strictly_increases(v.bit_length as nat, 63);
            }
        }
    }
}

/// A primitive value: concrete half (optional), witness half (an index into
/// the backend's witness table), and its scalar type metadata.
#[derive(Clone, Copy, Debug)]
pub struct Value {
    pub concrete: Option<i128>,
    pub witness: usize,
    pub bit_length: u8,
    pub is_signed: bool,
}

impl Value {
    /// The scalar type metadata is one the machine supports: a bit length
    /// between 1 and `MAX_BIT_LENGTH`, and the single-bit type is unsigned.
    pub open spec fn type_wf(self) -> bool {
        scalar_type_wf(self.is_signed, self.bit_length)
    }

    /// `c` lies in the range the scalar type declares.
    pub open spec fn in_range(self, c: i128) -> bool {
        scalar_in_range(self.is_signed, self.bit_length, c)
    }

    /// A well-formed value: valid type, and a concrete half within range.
    pub open spec fn wf(self) -> bool {
        &&& self.type_wf()
        &&& match self.concrete {
            Some(c) => self.in_range(c),
            None => true,
        }
    }

    /// The value is of the single-bit boolean type.
    pub open spec fn is_boolean(self) -> bool {
        self.bit_length == BOOLEAN_BIT_LENGTH && !self.is_signed
    }

    /// Both values carry the same scalar type.
    pub open spec fn same_type(self, other: Value) -> bool {
        self.bit_length == other.bit_length && self.is_signed == other.is_signed
    }
}

} // verus!
