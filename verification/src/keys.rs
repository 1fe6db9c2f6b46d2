//! Integer keys for ray parameters.
//!
//! A sweep compares the parameters at which a ray meets the surfaces, and
//! never computes with them. A parameter reaches the library as the 64 bits
//! of a binary number in sign and magnitude form: the top bit is the sign,
//! and among numbers of one sign the one with the larger remaining 63 bits
//! is the larger in magnitude. Its key is a signed integer that is larger
//! exactly where the number is.

use vstd::prelude::*;

verus! {

/// The bit that holds the sign.
pub const SIGN_BIT: u64 = 0x8000_0000_0000_0000;

/// Whether the bits stand for a number with the sign set.
pub open spec fn is_negative(bits: u64) -> bool {
    bits >= SIGN_BIT
}

/// The magnitude that the bits hold: the bits without the sign.
pub open spec fn magnitude(bits: u64) -> int {
    if is_negative(bits) {
        bits - SIGN_BIT
    } else {
        bits as int
    }
}

/// The key of the number that the bits stand for: the magnitude for a
/// number without the sign, and below zero by one more than the magnitude
/// for a number with it.
pub open spec fn key_of(bits: u64) -> int {
    if is_negative(bits) {
        -magnitude(bits) - 1
    } else {
        magnitude(bits)
    }
}

/// Whether the number that `a` stands for comes before the one that `b`
/// stands for: a number with the sign before one without, of two without the
/// sign the one of smaller magnitude, of two with the sign the one of larger
/// magnitude.
pub open spec fn comes_before(a: u64, b: u64) -> bool {
    if is_negative(a) && is_negative(b) {
        magnitude(a) > magnitude(b)
    } else if !is_negative(a) && !is_negative(b) {
        magnitude(a) < magnitude(b)
    } else {
        is_negative(a)
    }
}

/// Keys are ordered as the numbers are, and different bits have different
/// keys.
pub proof fn lemma_key_keeps_order(a: u64, b: u64)
    ensures
        key_of(a) < key_of(b) <==> comes_before(a, b),
        key_of(a) == key_of(b) <==> a == b,
{
}

/// The key of the number that the bits stand for.
pub fn order_key(bits: u64) -> (key: i64)
    ensures
        key == key_of(bits),
{
    if bits >= SIGN_BIT {
        let below: i64 = (bits - SIGN_BIT) as i64;
        -below - 1
    } else {
        bits as i64
    }
}

/// The bits of the number with the given key.
pub fn key_bits(key: i64) -> (bits: u64)
    ensures
        key_of(bits) == key,
{
    if key < 0 {
        let below: i64 = -(key + 1);
        below as u64 + SIGN_BIT
    } else {
        key as u64
    }
}

} // verus!
