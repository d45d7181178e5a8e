//! Operand widths and the arithmetic of fixed-width words.
//!
//! An operand is 1, 2, 4 or 8 bytes wide. The functions here relate the bit operations the core
//! runs on 64-bit registers to arithmetic modulo `2^(8 * width)`.
use vstd::prelude::*;

verus! {

/// The operand widths of the integer instruction set, in bytes.
pub open spec fn is_width(size: u8) -> bool {
    size == 1 || size == 2 || size == 4 || size == 8
}

/// The number of values an operand of `size` bytes can hold.
pub open spec fn modulus(size: u8) -> int {
    if size == 1 {
        0x100
    } else if size == 2 {
        0x1_0000
    } else if size == 4 {
        0x1_0000_0000
    } else {
        0x1_0000_0000_0000_0000
    }
}

/// All ones in the low `size` bytes.
pub open spec fn mask_of(size: u8) -> u64 {
    (modulus(size) - 1) as u64
}

/// The low `size` bytes of `v`, read as an unsigned number.
pub open spec fn low(v: u64, size: u8) -> int {
    (v as int) % modulus(size)
}

/// The sign bit of the low `size` bytes of `v`.
pub open spec fn sign_of(v: u64, size: u8) -> bool {
    low(v, size) >= modulus(size) / 2
}

/// The low `size` bytes of `v`, read as a two's complement number.
pub open spec fn signed_of(v: u64, size: u8) -> int {
    if sign_of(v, size) {
        low(v, size) - modulus(size)
    } else {
        low(v, size)
    }
}

/// The number of set bits of a byte.
pub open spec fn ones8(b: u8) -> int {
    (b & 1) + ((b >> 1) & 1) + ((b >> 2) & 1) + ((b >> 3) & 1) + ((b >> 4) & 1) + ((b >> 5) & 1)
        + ((b >> 6) & 1) + ((b >> 7) & 1)
}

/// Whether the low byte of `v` has an even number of set bits (the parity flag's condition).
pub open spec fn even_parity(v: u64) -> bool {
    ones8((v & 0xff) as u8) % 2 == 0
}

pub proof fn lemma_low_bits(v: u64)
    by (bit_vector)
    ensures
        v & 0xff == v % 0x100,
        v & 0xffff == v % 0x1_0000,
        v & 0xffff_ffff == v % 0x1_0000_0000,
        v & 0xffff_ffff_ffff_ffff == v,
        (v >> 7) & 1 == 1 <==> v % 0x100 >= 0x80,
        (v >> 15) & 1 == 1 <==> v % 0x1_0000 >= 0x8000,
        (v >> 31) & 1 == 1 <==> v % 0x1_0000_0000 >= 0x8000_0000,
        (v >> 63) & 1 == 1 <==> v >= 0x8000_0000_0000_0000,
{
}

/// Masking with [`mask_of`] is reduction modulo [`modulus`].
pub proof fn lemma_mask(v: u64, size: u8)
    requires
        is_width(size),
    ensures
        (v & mask_of(size)) as int == low(v, size),
        0 <= low(v, size) < modulus(size),
        modulus(size) <= 0x1_0000_0000_0000_0000,
        low(v & mask_of(size), size) == low(v, size),
{
    lemma_low_bits(v);
}

/// All ones in the low `size` bytes.
pub fn mask(size: u8) -> (m: u64)
    requires
        is_width(size),
    ensures
        m == mask_of(size),
{
    if size == 1 {
        0xff
    } else if size == 2 {
        0xffff
    } else if size == 4 {
        0xffff_ffff
    } else {
        0xffff_ffff_ffff_ffff
    }
}

/// The sign bit of the low `size` bytes of `v`.
pub fn sign(v: u64, size: u8) -> (s: bool)
    requires
        is_width(size),
    ensures
        s == sign_of(v, size),
{
    proof {
        lemma_low_bits(v);
    }
    if size == 1 {
        (v >> 7) & 1 == 1
    } else if size == 2 {
        (v >> 15) & 1 == 1
    } else if size == 4 {
        (v >> 31) & 1 == 1
    } else {
        (v >> 63) & 1 == 1
    }
}

/// Sign-extend the low `size` bytes of `v` to a full `i64`.
pub fn sign_extend(v: u64, size: u8) -> (x: i64)
    requires
        is_width(size),
    ensures
        x == signed_of(v, size),
{
    proof {
        lemma_low_bits(v);
    }
    let w: u64 = v & mask(size);
    if sign(v, size) {
        let full: i128 = if size == 1 {
            0x100
        } else if size == 2 {
            0x1_0000
        } else if size == 4 {
            0x1_0000_0000
        } else {
            0x1_0000_0000_0000_0000
        };
        (w as i128 - full) as i64
    } else {
        w as i64
    }
}

proof fn lemma_parity_fold(b: u8)
    by (bit_vector)
    ensures
        ({
            let p = b ^ (b >> 4);
            let q = p ^ (p >> 2);
            let t = q ^ (q >> 1);
            (t & 1 == 0) <==> ((b & 1) + ((b >> 1) & 1) + ((b >> 2) & 1) + ((b >> 3) & 1) + ((b
                >> 4) & 1) + ((b >> 5) & 1) + ((b >> 6) & 1) + ((b >> 7) & 1)) % 2 == 0
        }),
{
}

/// Whether the low byte of `v` has an even number of set bits.
pub fn parity(v: u64) -> (even: bool)
    ensures
        even == even_parity(v),
{
    let b: u8 = (v & 0xff) as u8;
    proof {
        lemma_parity_fold(b);
    }
    let p: u8 = b ^ (b >> 4);
    let q: u8 = p ^ (p >> 2);
    let t: u8 = q ^ (q >> 1);
    t & 1 == 0
}

} // verus!
