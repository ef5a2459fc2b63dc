//! Arithmetic in the finite field of 256 elements, as used by the threshold
//! secret-sharing scheme: addition is exclusive or, multiplication reduces
//! modulo the AES polynomial.

use vstd::prelude::*;

verus! {

/// Multiplication by the polynomial x, reduced modulo the field polynomial.
pub open spec fn xtime(a: u8) -> u8 {
    if a >= 128 {
        (((2 * a) % 256) as u8) ^ 27u8
    } else {
        (2 * a) as u8
    }
}

/// Field multiplication, by the shift-and-add recursion.
pub open spec fn gf_mul_spec(a: u8, b: u8) -> u8
    decreases b,
{
    if b == 0 {
        0
    } else {
        (if b % 2 == 1 {
            a
        } else {
            0
        }) ^ gf_mul_spec(xtime(a), b / 2)
    }
}

/// The least multiplicative inverse candidate of `b` at or above `c`.
pub open spec fn gf_inv_from(b: u8, c: int) -> Option<u8>
    decreases 256 - c,
{
    if c < 0 || c > 255 {
        None
    } else if gf_mul_spec(b, c as u8) == 1 {
        Some(c as u8)
    } else {
        gf_inv_from(b, c + 1)
    }
}

/// The least multiplicative inverse of `b`, if one exists.
pub open spec fn gf_inv_spec(b: u8) -> Option<u8> {
    gf_inv_from(b, 0)
}

/// Field multiplication.
pub fn gf_mul(a: u8, b: u8) -> (r: u8)
    ensures
        r == gf_mul_spec(a, b),
    decreases b,
{
    if b == 0 {
        0
    } else {
        let acc: u8 = if b % 2 == 1 {
            a
        } else {
            0
        };
        let x: u8 = if a >= 128 {
            (((2 * (a as u16)) % 256) as u8) ^ 27
        } else {
            2 * a
        };
        proof {
            assert(x == xtime(a));
        }
        acc ^ gf_mul(x, b / 2)
    }
}

/// Searches for the least multiplicative inverse of `b`.
pub fn gf_inv(b: u8) -> (r: Option<u8>)
    ensures
        r == gf_inv_spec(b),
{
    let mut c: usize = 0;
    while c < 256
        invariant
            0 <= c <= 256,
            gf_inv_spec(b) == gf_inv_from(b, c as int),
        decreases 256 - c,
    {
        if gf_mul(b, c as u8) == 1 {
            return Some(c as u8);
        }
        c += 1;
    }
    None
}

/// One is the multiplicative identity on the right.
pub proof fn lemma_gf_mul_one(a: u8)
    ensures
        gf_mul_spec(a, 1) == a,
{
    assert(gf_mul_spec(xtime(a), 0) == 0);
    assert(a ^ 0u8 == a) by (bit_vector);
}

} // verus!
