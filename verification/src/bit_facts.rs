//! Facts about words that are decided bit by bit.
use vstd::prelude::*;

verus! {

/// Bytes and parts of words as numbers.
pub proof fn lemma_bytes_of_words(w0: u64, w1: u64, w2: u64, b0: u8, b1: u8, b2: u8, b3: u8)
    by (bit_vector)
    ensures
        (w1 <= 56) && (w0 < 1u64 << w1) ==> ((w0 | ((b0 as u64) << w1)) == w0 + ((b0 as u64) << w1)),
        1u64 << 0 == 1,
        1u64 << 8 == 0x100,
        1u64 << 16 == 0x1_0000,
        1u64 << 24 == 0x100_0000,
        1u64 << 32 == 0x1_0000_0000,
        1u64 << 40 == 0x100_0000_0000,
        1u64 << 48 == 0x1_0000_0000_0000,
        1u64 << 56 == 0x100_0000_0000_0000,
        (b0 as u64) << 0 == b0,
        (b0 as u64) << 8 == b0 * 0x100,
        (b0 as u64) << 16 == b0 * 0x1_0000,
        (b0 as u64) << 24 == b0 * 0x100_0000,
        (b0 as u64) << 32 == b0 * 0x1_0000_0000,
        (b0 as u64) << 40 == b0 * 0x100_0000_0000,
        (b0 as u64) << 48 == b0 * 0x1_0000_0000_0000,
        (b0 as u64) << 56 == b0 * 0x100_0000_0000_0000,
        (w0 >> 0) as u8 == w0 % 0x100,
        (w0 >> 8) as u8 == (w0 / 0x100) % 0x100,
        (w0 >> 16) as u8 == (w0 / 0x1_0000) % 0x100,
        (w0 >> 24) as u8 == (w0 / 0x100_0000) % 0x100,
        (w0 >> 32) as u8 == (w0 / 0x1_0000_0000) % 0x100,
        (w0 >> 40) as u8 == (w0 / 0x100_0000_0000) % 0x100,
        (w0 >> 48) as u8 == (w0 / 0x1_0000_0000_0000) % 0x100,
        (w0 >> 56) as u8 == (w0 / 0x100_0000_0000_0000) % 0x100,
        (w0 >> 8) & 0xff == (w0 / 0x100) % 0x100,
        (w0 & !0xff00) | ((w1 & 0xff) << 8) == w0 - ((w0 / 0x100) % 0x100) * 0x100 + (w1 % 0x100)
            * 0x100,
        (w0 & !0xff) | (w1 & 0xff) == w0 - w0 % 0x100 + w1 % 0x100,
        (w0 & !0xffff) | (w1 & 0xffff) == w0 - w0 % 0x1_0000 + w1 % 0x1_0000,
        w0 & !(0xffff_ffff_ffff_ffffu64 << 0) == 0,
        w0 & !(0xffff_ffff_ffff_ffffu64 << 8) == w0 % 0x100,
        w0 & !(0xffff_ffff_ffff_ffffu64 << 16) == w0 % 0x1_0000,
        w0 & !(0xffff_ffff_ffff_ffffu64 << 24) == w0 % 0x100_0000,
        w0 & !(0xffff_ffff_ffff_ffffu64 << 32) == w0 % 0x1_0000_0000,
        w0 & !(0xffff_ffff_ffff_ffffu64 << 40) == w0 % 0x100_0000_0000,
        w0 & !(0xffff_ffff_ffff_ffffu64 << 48) == w0 % 0x1_0000_0000_0000,
        w0 & !(0xffff_ffff_ffff_ffffu64 << 56) == w0 % 0x100_0000_0000_0000,
        w0 >> 32 == w0 / 0x1_0000_0000,
        (b0 as u16) | ((b1 as u16) << 8) == b0 + b1 * 0x100,
        (b0 as u32) | ((b1 as u32) << 8) | ((b2 as u32) << 16) | ((b3 as u32) << 24) == b0 + b1 * 0x100 + b2
            * 0x1_0000 + b3 * 0x100_0000,
        (w1 < 0x100) && (w2 < 0x100) ==> ((((w0 & !0xffff) | (w1 & 0xff) | ((w2 & 0xff) << 8)) / 0x100) % 0x100 == w2),
        (w1 < 0x100) && (w2 < 0x100) ==> (((w0 & !0xffff) | (w1 & 0xff) | ((w2 & 0xff) << 8)) % 0x100 == w1),
        (w1 < 0x100) && (w2 < 0x100) ==> (((w0 & !0xffff) | (w1 & 0xff) | ((w2 & 0xff) << 8)) % 0x1_0000 == w1 + 0x100 * w2),
        (w1 < 0x100) && (w2 < 0x100) ==> (((w0 & !0xffff) | (w1 & 0xff) | ((w2 & 0xff) << 8)) / 0x1_0000 == w0 / 0x1_0000),
        ((w0 & 0xffff) | ((w0 >> 32) & 0xffff_0000) | ((w1 & 0xffff_ffff) << 32)) == (w0 % 0x1_0000) + (
        w0 / 0x1_0000_0000_0000) * 0x1_0000 + (w1 % 0x1_0000_0000) * 0x1_0000_0000,
        (w0 >> 32) & 0x7 == (w0 / 0x1_0000_0000) % 8,
        w0 & 0xfff8 == (w0 % 0x1_0000) / 8 * 8,
        (w2 & 0x200 != 0) == ((w2 / 0x200) % 2 == 1),
        (((w0 >> 16) & 0xff_ffff) | (((w0 >> 56) & 0xff) << 24) | ((w1 & 0xffff_ffff) << 32)) == ((w0
            / 0x1_0000) % 0x100_0000) + (w0 / 0x100_0000_0000_0000) * 0x100_0000 + (w1 % 0x1_0000_0000)
            * 0x1_0000_0000,
{
}

/// Single bits of words.
pub proof fn lemma_bits_of_words(w0: u64, w1: u64, w2: u64, t0: bool, t1: bool)
    by (bit_vector)
    ensures
        ((w1 >> 0) & 1 == 1) == (w1 & 0x1 != 0),
        ((w1 >> 2) & 1 == 1) == (w1 & 0x4 != 0),
        ((w1 >> 6) & 1 == 1) == (w1 & 0x40 != 0),
        ((w1 >> 7) & 1 == 1) == (w1 & 0x80 != 0),
        ((w1 >> 9) & 1 == 1) == (w1 & 0x200 != 0),
        ((w1 >> 10) & 1 == 1) == (w1 & 0x400 != 0),
        ((w1 >> 11) & 1 == 1) == (w1 & 0x800 != 0),
        w2 < 64 && w2 != 0 && w2 != 2 && w2 != 6 && w2 != 7 && w2 != 11 && w1 & !0x8c5u64 == w0 & !0x8c5u64 ==> ((w1
            >> w2) & 1 == 1) == ((w0 >> w2) & 1 == 1),
        (w0 >> 0) & 1 == w0 & 1,
        ((w0 >> 3) & 1 == 1) == (w0 & 0x8 != 0),
        w0 & 3 == w0 % 4,
        ((w0 & !0x8d5u64) | 0x45) & 0x1 != 0,
        ((w0 & !0x8d5u64) | 0x45) & 0x4 != 0,
        ((w0 & !0x8d5u64) | 0x45) & 0x40 != 0,
        ((w0 & !0x8d5u64) | 0x45) & 0x80 == 0,
        ((w0 & !0x8d5u64) | 0x45) & 0x800 == 0,
        ((w0 & !0x8d5u64) | 0x1) & 0x1 != 0,
        ((w0 & !0x8d5u64) | 0x1) & 0x4 == 0,
        ((w0 & !0x8d5u64) | 0x1) & 0x40 == 0,
        ((w0 & !0x8d5u64) | 0x1) & 0x80 == 0,
        ((w0 & !0x8d5u64) | 0x1) & 0x800 == 0,
        ((w0 & !0x8d5u64) | 0x40) & 0x1 == 0,
        ((w0 & !0x8d5u64) | 0x40) & 0x4 == 0,
        ((w0 & !0x8d5u64) | 0x40) & 0x40 != 0,
        ((w0 & !0x8d5u64) | 0x40) & 0x80 == 0,
        ((w0 & !0x8d5u64) | 0x40) & 0x800 == 0,
        (w0 & !0x8d5u64) & 0x1 == 0,
        (w0 & !0x8d5u64) & 0x4 == 0,
        (w0 & !0x8d5u64) & 0x40 == 0,
        (w0 & !0x8d5u64) & 0x80 == 0,
        (w0 & !0x8d5u64) & 0x800 == 0,
        1u64 << 0 == 1,
        1u64 << 6 == 0x40,
        1u64 << 9 == 0x200,
        1u64 << 10 == 0x400,
        w0 << 0 == w0,
        w0 << 1 == w0 * 2 - (w0 / 0x8000_0000_0000_0000) * 0x1_0000_0000_0000_0000,
        w0 << 2 == w0 * 4 - (w0 / 0x4000_0000_0000_0000) * 0x1_0000_0000_0000_0000,
        w0 << 3 == w0 * 8 - (w0 / 0x2000_0000_0000_0000) * 0x1_0000_0000_0000_0000,
        w0 & 1 == w0 % 2,
        (w0 >> 1) & 1 == (w0 / 2) % 2,
        (w0 >> 2) & 1 == (w0 / 4) % 2,
        (w0 >> 3) & 1 == (w0 / 8) % 2,
        (w0 >> 4) & 1 == (w0 / 16) % 2,
        (w0 >> 5) & 1 == (w0 / 32) % 2,
        (w0 >> 6) & 1 == (w0 / 64) % 2,
        (w0 >> 7) & 1 == (w0 / 128) % 2,
        (w1 < 64) ==> (({
            let c1 = if t0 { w0 | 0x1 } else { w0 & !0x1u64 };
            let c2 = if t1 { c1 | 0x800 } else { c1 & !0x800u64 };
            &&& ((c2 >> 0) & 1 == 1) == t0
            &&& ((c2 >> 11) & 1 == 1) == t1
            &&& w1 != 0 && w1 != 11 ==> ((c2 >> w1) & 1 == 1) == ((w0 >> w1) & 1 == 1)
        })),
        (w2 < 64) ==> ((((w0 | w1) >> w2) & 1 == 1) == ((w0 >> w2) & 1 == 1 || (w1 >> w2) & 1 == 1)),
        (w2 < 64) ==> ((((w0 & w1) >> w2) & 1 == 1) == ((w0 >> w2) & 1 == 1 && (w1 >> w2) & 1 == 1)),
        (w2 < 64) ==> ((((w0 ^ w1) >> w2) & 1 == 1) == (((w0 >> w2) & 1 == 1) != ((w1 >> w2) & 1 == 1))),
        (w2 < 64) ==> ((((!w0) >> w2) & 1 == 1) == !((w0 >> w2) & 1 == 1)),
        (w2 < 64) ==> ((((w0 & 0xff) >> w2) & 1 == 1) == (w2 < 8 && (w0 >> w2) & 1 == 1)),
        (w2 < 64) ==> ((((w0 & 0xffff) >> w2) & 1 == 1) == (w2 < 16 && (w0 >> w2) & 1 == 1)),
        (w2 < 64) ==> ((((w0 & 0xffff_ffff) >> w2) & 1 == 1) == (w2 < 32 && (w0 >> w2) & 1 == 1)),
        (w2 < 64) ==> (w0 & 0xffff_ffff_ffff_ffff == w0),
        (w2 < 64) ==> (((((w1 & !1u64) | (w0 & 1)) >> w2) & 1 == 1) == if w2 == 0 { (w0 >> 0) & 1 == 1 } else { (w1 >> w2) & 1 == 1 }),
        w0 < 0x100 ==> (!w0) & 0xff == 0xff - w0,
        w0 < 0x1_0000 ==> (!w0) & 0xffff == 0xffff - w0,
        w0 < 0x1_0000_0000 ==> (!w0) & 0xffff_ffff == 0xffff_ffff - w0,
        (!w0) & 0xffff_ffff_ffff_ffff == 0xffff_ffff_ffff_ffff - w0,
        (w1 < 64) && (w2 < 64) ==> (w2 >= w1 ==> ((w0 << w1) >> w2) & 1 == (w0 >> ((w2 - w1) as u64)) & 1),
        (w1 < 64) && (w2 < 64) ==> (w2 < w1 ==> ((w0 << w1) >> w2) & 1 == 0),
        (w1 < 64) && (w2 < 64) ==> (w2 + w1 < 64 ==> ((w0 >> w1) >> w2) & 1 == (w0 >> ((w2 + w1) as u64)) & 1),
        (w1 < 64) && (w2 < 64) ==> (w2 + w1 >= 64 ==> ((w0 >> w1) >> w2) & 1 == 0),
        (w1 < 64) && (w2 < 64) ==> ((w0 >> w2) & 1 == 0 || (w0 >> w2) & 1 == 1),
        (w1 < 64) ==> (w0 < 0x100 ==> (((w0 + 0xffff_ffff_ffff_ff00) as u64) >> w1) & 1 == if w1 < 8 { (w0 >> w1) & 1 } else { 1 }),
        (w1 < 64) ==> (w0 < 0x1_0000 ==> (((w0 + 0xffff_ffff_ffff_0000) as u64) >> w1) & 1 == if w1 < 16 { (w0 >> w1) & 1 } else { 1 }),
        (w1 < 64) ==> (w0 < 0x1_0000_0000 ==> (((w0 + 0xffff_ffff_0000_0000) as u64) >> w1) & 1 == if w1 < 32 { (w0 >> w1) & 1 } else { 1 }),
        (w1 < 64) ==> (w0 < 0x100 && w1 >= 8 ==> (w0 >> w1) & 1 == 0),
        (w1 < 64) ==> (w0 < 0x1_0000 && w1 >= 16 ==> (w0 >> w1) & 1 == 0),
        (w1 < 64) ==> (w0 < 0x1_0000_0000 && w1 >= 32 ==> (w0 >> w1) & 1 == 0),
        (w1 < 64) ==> (((w0 >> 7) & 1 == 1) == (w0 % 0x100 >= 0x80)),
        (w1 < 64) ==> (((w0 >> 15) & 1 == 1) == (w0 % 0x1_0000 >= 0x8000)),
        (w1 < 64) ==> (((w0 >> 31) & 1 == 1) == (w0 % 0x1_0000_0000 >= 0x8000_0000)),
        (w1 < 64) ==> (((w0 >> 63) & 1 == 1) == (w0 >= 0x8000_0000_0000_0000)),
        (w0 == 0 || w0 == 1) && (w1 == 0 || w1 == 1) ==> ((w0 ^ w1 != 0) == (w0 != w1)),
        (w0 < 64) && (w1 < 64) ==> ((((1u64 << w0) >> w1) & 1 == 1) == (w1 == w0)),
{
}

/// Words with a sign.
pub proof fn lemma_signed_words(w0: u64, w1: u64, x0: i64)
    by (bit_vector)
    ensures
        x0 >= 0 ==> x0 as u64 == x0,
        x0 < 0 ==> x0 as u64 == x0 + 0x1_0000_0000_0000_0000,
        (w0 < 64) && (w1 < 64) ==> (w1 + w0 < 64 ==> (((x0 >> w0) as u64) >> w1) & 1 == ((x0 as u64) >> ((w1 + w0) as u64)) & 1),
        (w0 < 64) && (w1 < 64) ==> (w1 + w0 >= 64 ==> (((x0 >> w0) as u64) >> w1) & 1 == ((x0 as u64) >> 63) & 1),
{
}

/// Flags set one after another.
pub proof fn lemma_flags_set(w0: u64, t0: bool, t1: bool, t2: bool, t3: bool, t4: bool, t5: bool, t6: bool)
    by (bit_vector)
    ensures
        ({
            let f1 = if t0 { w0 | 0x1 } else { w0 & !0x1u64 };
            let r1 = if t2 { f1 | 0x40 } else { f1 & !0x40u64 };
            let r2 = if t3 { r1 | 0x80 } else { r1 & !0x80u64 };
            let r3 = if t4 { r2 | 0x4 } else { r2 & !0x4u64 };
            let f2 = if t1 { r3 } else { f1 };
            let r5 = if t6 { f2 | 0x800 } else { f2 & !0x800u64 };
            let g = if t5 { r5 } else { f2 };
            &&& (g & 0x1 != 0) == t0
            &&& (g & 0x40 != 0) == if t1 { t2 } else { w0 & 0x40 != 0 }
            &&& (g & 0x80 != 0) == if t1 { t3 } else { w0 & 0x80 != 0 }
            &&& (g & 0x4 != 0) == if t1 { t4 } else { w0 & 0x4 != 0 }
            &&& (g & 0x800 != 0) == if t5 { t6 } else { w0 & 0x800 != 0 }
        }),
{
}

/// Bytes of a 128-bit word that is shifted to the left.
#[verifier::spinoff_prover]
#[verifier::rlimit(80)]
pub proof fn lemma_wide_left(x: u128, k: u128, i: u128)
    by (bit_vector)
    requires
        k < 128,
        i <= 120,
    ensures
        i >= k ==> ((x << k) >> i) & 0xff == (x >> ((i - k) as u128)) & 0xff,
        i + 8 <= k ==> ((x << k) >> i) & 0xff == 0,
{
}

/// Single bits of 128-bit words, and their low parts.
#[verifier::spinoff_prover]
#[verifier::rlimit(80)]
pub proof fn lemma_wide_bits(x: u128, y: u128, i: u128)
    by (bit_vector)
    requires
        i < 128,
    ensures
        (((x | y) >> i) & 1 == 1) == ((x >> i) & 1 == 1 || (y >> i) & 1 == 1),
        (((x & y) >> i) & 1 == 1) == ((x >> i) & 1 == 1 && (y >> i) & 1 == 1),
        (((x ^ y) >> i) & 1 == 1) == (((x >> i) & 1 == 1) != ((y >> i) & 1 == 1)),
        (((!x) >> i) & 1 == 1) == !((x >> i) & 1 == 1),
        0u128 >> i == 0,
        x >> 0 == x,
        x & 0xff == x % 0x100,
        ((x as u64) as u128) == x % 0x1_0000_0000_0000_0000,
{
}

/// A byte or a word put above the bits that are there, read again.
#[verifier::spinoff_prover]
#[verifier::rlimit(80)]
pub proof fn lemma_low_places(x: u128, v: u64, a: u128, b: u128)
    by (bit_vector)
    requires
        a < 128,
        b < 128,
    ensures
        x >> b == 0 && v <= 0xff && b + 8 <= 128 ==> (((x | ((v as u128) << b)) >> b) as u64) & 0xff == v,
        x >> b == 0 && v <= 0xff && b + 8 <= 128 ==> (a + 8 <= b || a >= b + 8 ==> (((x | ((v as u128) << b)) >> a) as u64) & 0xff == ((x >> a) as u64) & 0xff),
        x >> b == 0 && v <= 0xff && b + 8 <= 128 ==> (b + 8 < 128 ==> (x | ((v as u128) << b)) >> ((b + 8) as u128) == 0),
        x >> b == 0 && v <= 0xffff && b + 16 <= 128 ==> (((x | ((v as u128) << b)) >> b) as u64) & 0xffff == v,
        x >> b == 0 && v <= 0xffff && b + 16 <= 128 ==> (a + 16 <= b || a >= b + 16 ==> (((x | ((v as u128) << b)) >> a) as u64) & 0xffff == ((x >> a) as u64) & 0xffff),
        x >> b == 0 && v <= 0xffff && b + 16 <= 128 ==> (b + 16 < 128 ==> (x | ((v as u128) << b)) >> ((b + 16) as u128) == 0),
{
}

/// The same of a doubleword or a quadword.
#[verifier::spinoff_prover]
#[verifier::rlimit(80)]
pub proof fn lemma_high_places(x: u128, v: u64, a: u128, b: u128)
    by (bit_vector)
    requires
        a < 128,
        b < 128,
    ensures
        x >> b == 0 && v <= 0xffff_ffff && b + 32 <= 128 ==> (((x | ((v as u128) << b)) >> b) as u64) & 0xffff_ffff == v,
        x >> b == 0 && v <= 0xffff_ffff && b + 32 <= 128 ==> (a + 32 <= b || a >= b + 32 ==> (((x | ((v as u128) << b)) >> a) as u64) & 0xffff_ffff == ((x >> a) as u64) & 0xffff_ffff),
        x >> b == 0 && v <= 0xffff_ffff && b + 32 <= 128 ==> (b + 32 < 128 ==> (x | ((v as u128) << b)) >> ((b + 32) as u128) == 0),
        x >> b == 0 && v <= 0xffff_ffff_ffff_ffff && b + 64 <= 128 ==> (((x | ((v as u128) << b)) >> b) as u64) & 0xffff_ffff_ffff_ffff == v,
        x >> b == 0 && v <= 0xffff_ffff_ffff_ffff && b + 64 <= 128 ==> (a + 64 <= b || a >= b + 64 ==> (((x | ((v as u128) << b)) >> a) as u64) & 0xffff_ffff_ffff_ffff == ((x >> a) as u64) & 0xffff_ffff_ffff_ffff),
        x >> b == 0 && v <= 0xffff_ffff_ffff_ffff && b + 64 <= 128 ==> (b + 64 < 128 ==> (x | ((v as u128) << b)) >> ((b + 64) as u128) == 0),
{
}

/// Halves of 128-bit words.
pub proof fn lemma_wide_parts(x: u128, v: u64)
    by (bit_vector)
    ensures
        0u128 | x == x,
        (v as u128) >> 64 == 0,
        (v as u128) as u64 == v,
        ((x & !0xffff_ffff_ffff_ffffu128) | (v as u128)) as u64 == v,
        ((x & !0xffff_ffff_ffff_ffffu128) | (v as u128)) >> 64 == x >> 64,
        v <= 0xffff_ffff ==> (((x & !0xffff_ffffu128) | (v as u128)) as u64) & 0xffff_ffff == v,
        v <= 0xffff_ffff ==> ((x & !0xffff_ffffu128) | (v as u128)) / 0x1_0000_0000 == x / 0x1_0000_0000,
        (x as u32) as u64 == (x as u64) & 0xffff_ffff,
        ((x & 0xffff_ffff_ffff_ffffu128) | ((v as u128) << 64)) as u64 == x as u64,
        (((x & 0xffff_ffff_ffff_ffffu128) | ((v as u128) << 64)) >> 64) as u64 == v,
{
}

/// Fields of 16-bit words.
pub proof fn lemma_short_words(w: u16, v: u8, t: u16)
    by (bit_vector)
    ensures
        t < 8 ==> (((w & !0x3800) | (t << 11)) / 0x800) % 8 == t,
        t < 8 ==> ((w & !0x3800) | (t << 11)) % 0x800 == w % 0x800,
        t < 8 ==> ((w & !0x3800) | (t << 11)) / 0x4000 == w / 0x4000,
        ((w & 0x00ff) | ((v as u16) << 8)) & 0x00ff == w & 0x00ff,
        ((w & 0x00ff) | ((v as u16) << 8)) >> 8 == v as u16,
        ((w & 0xff00) | (v as u16)) & 0x00ff == v as u16,
        ((w & 0xff00) | (v as u16)) >> 8 == w >> 8,
        (v as u16) as u8 == v,
        ((w & !0x4500u16) | 0x4500) & 0x4500 == 0x4500,
        ((w & !0x4500u16) | 0x100) & 0x4500 == 0x100,
        ((w & !0x4500u16) | 0x4000) & 0x4500 == 0x4000,
        (w & !0x4500u16) & 0x4500 == 0,
        v & 7 == 0 ==> v & 0xf8 == v,
        t < 0x100 ==> ((((w & 0xff00) | (v as u16)) & 0x00ff) | (t << 8)) == v + t * 0x100,
        0x60u8 | 1u8 == 0x61u8,
        0x60u8 | 0u8 == 0x60u8,
        0x01u8 | 0x20u8 == 0x21u8,
        0x01u8 | 0u8 == 0x01u8,
        1u8 & 1u8 != 0,
{
}

/// The fields of a word of selectors.
pub proof fn lemma_selectors(w: u64, u: u64, v: u16)
    by (bit_vector)
    ensures
        w < 0x1_0000_0000 && u < 0x1_0000_0000 ==> ((w << 32) | u) == w * 0x1_0000_0000 + u,
        0xfee0_0000u64 | 0x900 == 0xfee0_0900,
        w as u8 == w % 0x100,
        (w >> 32) & 0xffff == (w / 0x1_0000_0000) % 0x1_0000,
        (w >> 48) & 0xffff == w / 0x1_0000_0000_0000,
        (v | 3) & 3 == 3,
{
}

/// A word put in the place of another, read again.
#[verifier::spinoff_prover]
#[verifier::rlimit(80)]
pub proof fn lemma_inserted(x: u128, v: u64, a: u128, b: u128)
    by (bit_vector)
    requires
        a <= 112,
        b <= 112,
        a == b || a + 16 <= b || b + 16 <= a,
    ensures
        ((((x & !(0xffffu128 << b)) | (((v as u16) as u128) << b)) >> a) as u64) & 0xffff == if a == b {
            v & 0xffff
        } else {
            ((x >> a) as u64) & 0xffff
        },
{
}

/// The flags that a program may set.
pub proof fn lemma_settable(v: u64, i: u64)
    by (bit_vector)
    requires
        i < 64,
    ensures
        ((((v & 0x0024_4fd5) | 0x2) >> i) & 1 == 1) == (i == 1 || ((v >> i) & 1 == 1 && (i == 0 || i == 2 || i == 4 || (6 <= i && i <= 11) || i == 14 || i == 18 || i == 21))),
{
}

} // verus!
