//! The order-preserving code of a floating-point reading, worked out on the
//! bits of the float.
//!
//! The bits are those of an IEEE 754 double, sign bit first. With the sign bit
//! clear the number is not negative, and a greater number has greater bits;
//! with the sign bit set the number is negative (or the negative zero), and a
//! greater number has lesser bits. The code puts the two halves in one order:
//! the negative numbers below the others, each half in the order of its
//! numbers.

use vstd::prelude::*;

verus! {

/// The sign bit of a double: the highest of its 64 bits.
pub const SIGN_BIT: u64 = 0x8000_0000_0000_0000;

/// The code of the float with the bits `bits`. With the sign bit set all bits
/// are flipped, else only the sign bit is set.
pub open spec fn code_of(bits: u64) -> u64 {
    if bits >= SIGN_BIT {
        (u64::MAX - bits) as u64
    } else {
        (bits + SIGN_BIT) as u64
    }
}

/// The bits of the float with the code `code`.
pub open spec fn bits_of(code: u64) -> u64 {
    if code >= SIGN_BIT {
        (code - SIGN_BIT) as u64
    } else {
        (u64::MAX - code) as u64
    }
}

/// The code of the float with the bits `bits`.
pub fn code_of_bits(bits: u64) -> (code: u64)
    ensures
        code == code_of(bits),
        bits_of(code) == bits,
{
    if bits >= SIGN_BIT {
        u64::MAX - bits
    } else {
        bits + SIGN_BIT
    }
}

/// The bits of the float with the code `code`.
pub fn bits_of_code(code: u64) -> (bits: u64)
    ensures
        bits == bits_of(code),
        code_of(bits) == code,
{
    if code >= SIGN_BIT {
        code - SIGN_BIT
    } else {
        u64::MAX - code
    }
}

/// The code keeps the order of the floats: among bits with the sign bit clear
/// it keeps the order of the bits, among bits with the sign bit set it turns
/// their order round, and it puts all bits with the sign bit set below all
/// others. Different bits have different codes.
pub proof fn lemma_code_keeps_order(a: u64, b: u64)
    ensures
        a < SIGN_BIT && b < SIGN_BIT ==> (code_of(a) < code_of(b) <==> a < b),
        a >= SIGN_BIT && b >= SIGN_BIT ==> (code_of(a) < code_of(b) <==> a > b),
        a >= SIGN_BIT && b < SIGN_BIT ==> code_of(a) < code_of(b),
        code_of(a) == code_of(b) <==> a == b,
{
}

/// Code and bits are each other's inverse.
pub proof fn lemma_code_round_trip(x: u64)
    ensures
        bits_of(code_of(x)) == x,
        code_of(bits_of(x)) == x,
{
}

/// The code in terms of the bits: all bits flipped where the sign bit is set,
/// the sign bit set where it is clear.
pub proof fn lemma_code_flips_bits(bits: u64)
    ensures
        code_of(bits) == if bits >> 63 == 1 {
            !bits
        } else {
            bits | SIGN_BIT
        },
{
    assert(bits >= 0x8000_0000_0000_0000u64 <==> bits >> 63 == 1) by (bit_vector);
    assert(bits >= 0x8000_0000_0000_0000u64 ==> !bits == 0xffff_ffff_ffff_ffffu64 - bits)
        by (bit_vector);
    assert(bits < 0x8000_0000_0000_0000u64 ==> bits | 0x8000_0000_0000_0000u64 == bits
        + 0x8000_0000_0000_0000u64) by (bit_vector);
}

} // verus!
