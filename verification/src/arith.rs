//! Integer arithmetic on operand values: multiplication, division, shifts and rotates, bit and byte
//! operations. Nothing here touches the machine.
use vstd::prelude::*;
use crate::bits::{mask, sign_extend};
use crate::flags::{set_bit, set_carry, CF, OF};
#[allow(unused_imports)]
use crate::bits::{is_width, lemma_mask, low, mask_of, modulus, signed_of};
#[allow(unused_imports)]
use crate::flags::{signed_overflow, with_bit, with_carry, with_result};

verus! {

// ----- multiplication -----

/// Carry and overflow both say whether the high half of a product is significant.
pub open spec fn wide_flags(f: u64, significant: bool) -> u64 {
    with_carry(f, significant, significant)
}

/// The unsigned product: its low and high halves and the flags.
pub open spec fn mul_result(f: u64, a: u64, b: u64, size: u8) -> (u64, u64, u64) {
    let p = low(a, size) * low(b, size);
    let hi = p / modulus(size);
    ((p % modulus(size)) as u64, hi as u64, wide_flags(f, hi != 0))
}

/// The signed product: its low and high halves and the flags, which say whether it fits in the low
/// half.
pub open spec fn imul_result(f: u64, a: u64, b: u64, size: u8) -> (u64, u64, u64) {
    let p = signed_of(a, size) * signed_of(b, size);
    (
        (p % modulus(size)) as u64,
        ((p / modulus(size)) % modulus(size)) as u64,
        wide_flags(f, signed_overflow(p, size)),
    )
}

proof fn lemma_product(a: int, b: int)
    by (nonlinear_arith)
    requires
        0 <= a <= 0xffff_ffff_ffff_ffff,
        0 <= b <= 0xffff_ffff_ffff_ffff,
    ensures
        0 <= a * b <= 0xffff_ffff_ffff_ffff * 0xffff_ffff_ffff_ffff,
{
}

proof fn lemma_high_half(a: int, b: int, m: int)
    by (nonlinear_arith)
    requires
        0 <= a < m,
        0 <= b < m,
    ensures
        0 <= (a * b) / m < m,
{
    assert(a * b < m * m);
}

proof fn lemma_signed_product(a: int, b: int)
    by (nonlinear_arith)
    requires
        -0x8000_0000_0000_0000 <= a <= 0x8000_0000_0000_0000,
        -0x8000_0000_0000_0000 <= b <= 0x8000_0000_0000_0000,
    ensures
        -0x8000_0000_0000_0000 * 0x8000_0000_0000_0000 <= a * b <= 0x8000_0000_0000_0000
            * 0x8000_0000_0000_0000,
{
}

/// The number of values of an operand, as a machine word.
pub fn modulus_of(size: u8) -> (m: u128)
    requires
        is_width(size),
    ensures
        m == modulus(size),
{
    if size == 1 {
        0x100
    } else if size == 2 {
        0x1_0000
    } else if size == 4 {
        0x1_0000_0000
    } else {
        0x1_0000_0000_0000_0000
    }
}

/// The unsigned product of two operands.
pub fn mul_op(f: u64, a: u64, b: u64, size: u8) -> (r: (u64, u64, u64))
    requires
        is_width(size),
    ensures
        r == mul_result(f, a, b, size),
{
    let m: u64 = mask(size);
    let x: u64 = a & m;
    let y: u64 = b & m;
    proof {
        lemma_mask(a, size);
        lemma_mask(b, size);
        lemma_product(x as int, y as int);
        lemma_high_half(x as int, y as int, modulus(size));
    }
    let p: u128 = (x as u128) * (y as u128);
    let n: u128 = modulus_of(size);
    let lo: u128 = p % n;
    let hi: u128 = p / n;
    let g: u64 = set_carry(f, hi != 0, hi != 0);
    (lo as u64, hi as u64, g)
}

proof fn lemma_floor(n: int, m: int)
    requires
        0 <= n,
        m > 0,
    ensures
        (-n - 1) % m == m - 1 - n % m,
        (-n - 1) / m == -(n / m) - 1,
{
    let q = n / m;
    let r = n % m;
    vstd::arithmetic::div_mod::lemma_fundamental_div_mod(n, m);
    assert(-n - 1 == (-q - 1) * m + (m - 1 - r)) by (nonlinear_arith)
        requires
            n == m * q + r,
    ;
    vstd::arithmetic::div_mod::lemma_fundamental_div_mod_converse(-n - 1, m, -q - 1, m - 1 - r);
}

/// The low and high words of a signed number, by the modulus `m`.
pub fn split_signed(p: i128, m: u128) -> (r: (u128, u128))
    requires
        0 < m <= 0x1_0000_0000_0000_0000,
    ensures
        r.0 == p as int % m as int,
        r.1 == (p as int / m as int) % m as int,
{
    if p >= 0 {
        let n: u128 = p as u128;
        (n % m, (n / m) % m)
    } else {
        let n: u128 = (-(p + 1)) as u128;
        proof {
            lemma_floor(n as int, m as int);
            lemma_floor(n as int / m as int, m as int);
        }
        (m - 1 - n % m, m - 1 - (n / m) % m)
    }
}

/// The signed product of two operands.
pub fn imul_op(f: u64, a: u64, b: u64, size: u8) -> (r: (u64, u64, u64))
    requires
        is_width(size),
    ensures
        r == imul_result(f, a, b, size),
{
    let x: i64 = sign_extend(a, size);
    let y: i64 = sign_extend(b, size);
    proof {
        lemma_signed_product(x as int, y as int);
    }
    let p: i128 = (x as i128) * (y as i128);
    let (lo, hi) = split_signed(p, modulus_of(size));
    let half: i128 = (modulus_of(size) / 2) as i128;
    let over: bool = p < -half || p >= half;
    let g: u64 = set_carry(f, over, over);
    (lo as u64, hi as u64, g)
}

// ----- division -----

/// Division that truncates toward zero.
pub open spec fn quotient(n: int, d: int) -> int {
    let q = (if n < 0 { -n } else { n }) / (if d < 0 { -d } else { d });
    if (n < 0) != (d < 0) {
        -q
    } else {
        q
    }
}

/// The remainder of [`quotient`], with the sign of the dividend.
pub open spec fn remainder(n: int, d: int) -> int {
    let r = (if n < 0 { -n } else { n }) % (if d < 0 { -d } else { d });
    if n < 0 {
        -r
    } else {
        r
    }
}

/// The unsigned dividend: `AX`, or the two registers together.
pub open spec fn dividend_of(rax: u64, rdx: u64, size: u8) -> int {
    if size == 1 {
        low(rax, 2)
    } else {
        low(rdx, size) * modulus(size) + low(rax, size)
    }
}

/// The signed dividend.
pub open spec fn signed_dividend_of(rax: u64, rdx: u64, size: u8) -> int {
    if size == 1 {
        signed_of(rax, 2)
    } else {
        signed_of(rdx, size) * modulus(size) + low(rax, size)
    }
}

/// Quotient and remainder of the unsigned division, cut to the operand.
pub open spec fn div_result(rax: u64, rdx: u64, d: u64, size: u8) -> (u64, u64) {
    let n = dividend_of(rax, rdx, size);
    (
        ((n / low(d, size)) % modulus(size)) as u64,
        ((n % low(d, size)) % modulus(size)) as u64,
    )
}

/// Quotient and remainder of the signed division, cut to the operand.
pub open spec fn idiv_result(rax: u64, rdx: u64, d: u64, size: u8) -> (u64, u64) {
    let n = signed_dividend_of(rax, rdx, size);
    let e = signed_of(d, size);
    ((quotient(n, e) % modulus(size)) as u64, (remainder(n, e) % modulus(size)) as u64)
}

/// The unsigned quotient and remainder.
pub fn div_op(rax: u64, rdx: u64, d: u64, size: u8) -> (r: (u64, u64))
    requires
        is_width(size),
        low(d, size) != 0,
    ensures
        r == div_result(rax, rdx, d, size),
{
    proof {
        lemma_mask(rax, size);
        lemma_mask(rax, 2);
        lemma_mask(rdx, size);
        lemma_mask(d, size);
    }
    let m: u64 = mask(size);
    let k: u128 = modulus_of(size);
    let n: u128 = if size == 1 {
        (rax & 0xffff) as u128
    } else {
        (rdx & m) as u128 * k + (rax & m) as u128
    };
    let e: u128 = (d & m) as u128;
    (((n / e) % k) as u64, ((n % e) % k) as u64)
}

proof fn lemma_negated(n: int, m: int)
    requires
        0 <= n,
        m > 0,
    ensures
        (-n) % m == (m - n % m) % m,
{
    vstd::arithmetic::div_mod::lemma_sub_mod_noop(m, n, m);
    vstd::arithmetic::div_mod::lemma_mod_add_multiples_vanish(-n, m);
    vstd::arithmetic::div_mod::lemma_sub_mod_noop_right(m, n, m);
}

/// The signed quotient and remainder.
pub fn idiv_op(rax: u64, rdx: u64, d: u64, size: u8) -> (r: (u64, u64))
    requires
        is_width(size),
        signed_of(d, size) != 0,
    ensures
        r == idiv_result(rax, rdx, d, size),
{
    proof {
        lemma_mask(rax, size);
    }
    let k: u128 = modulus_of(size);
    let n: i128 = if size == 1 {
        sign_extend(rax, 2) as i128
    } else {
        sign_extend(rdx, size) as i128 * k as i128 + (rax & mask(size)) as i128
    };
    let e: i64 = sign_extend(d, size);
    let nm: u128 = if n < 0 { (-(n + 1)) as u128 + 1 } else { n as u128 };
    let em: u128 = if e < 0 { (-(e as i128)) as u128 } else { e as u128 };
    let q: u128 = nm / em;
    let r: u128 = nm % em;
    proof {
        lemma_negated(q as int, k as int);
        lemma_negated(r as int, k as int);
    }
    let qk: u128 = if (n < 0) != (e < 0) { (k - q % k) % k } else { q % k };
    let rk: u128 = if n < 0 { (k - r % k) % k } else { r % k };
    (qk as u64, rk as u64)
}

// ----- shifts and rotates -----

/// The bits of an operand.
pub open spec fn width_bits(size: u8) -> u64 {
    (8 * size) as u64
}

/// The shift count the processor uses: the low six bits for a 64-bit operand, else the low five.
pub open spec fn shift_count(cnt: u8, size: u8) -> u64 {
    if size == 8 {
        (cnt % 64) as u64
    } else {
        (cnt % 32) as u64
    }
}

/// The top bit of an operand.
pub open spec fn top_bit(v: u64, size: u8) -> u64 {
    (v >> ((width_bits(size) - 1) as u64)) & 1
}

/// A rotate to the left by `c` places.
pub open spec fn rotated_left(a: u64, c: u64, size: u8) -> u64 {
    let k = c % width_bits(size);
    if k == 0 {
        a
    } else {
        ((a << k) | (a >> ((width_bits(size) - k) as u64))) & mask_of(size)
    }
}

/// A rotate to the right by `c` places.
pub open spec fn rotated_right(a: u64, c: u64, size: u8) -> u64 {
    let k = c % width_bits(size);
    if k == 0 {
        a
    } else {
        ((a >> k) | (a << ((width_bits(size) - k) as u64))) & mask_of(size)
    }
}

/// A shift to the left: what leaves the operand is lost.
pub open spec fn shifted_left(a: u64, c: u64, size: u8) -> u64 {
    if c >= width_bits(size) {
        0
    } else {
        (a << c) & mask_of(size)
    }
}

/// The last bit a left shift moved out.
pub open spec fn left_carry(a: u64, c: u64, size: u8) -> u64 {
    if c > width_bits(size) {
        0
    } else {
        (a >> ((width_bits(size) - c) as u64)) & 1
    }
}

/// A shift to the right that keeps the sign.
pub open spec fn shifted_signed(a: u64, c: u64, size: u8) -> u64 {
    (((signed_of(a, size) as i64) >> c) as u64) & mask_of(size)
}

/// The result of the shift or rotate `ext` by a count that is not zero, and the bit it carries out:
/// `0` ROL, `1` ROR, `2` RCL, `3` RCR (both rotated without the carry), `4`/`6` SHL, `5` SHR, `7` SAR.
pub open spec fn shift_value(ext: u8, a: u64, c: u64, size: u8) -> (u64, u64) {
    if ext == 0 {
        let r = rotated_left(a, c, size);
        (r, r & 1)
    } else if ext == 1 {
        let r = rotated_right(a, c, size);
        (r, top_bit(r, size))
    } else if ext == 2 {
        let r = rotated_left(a, c, size);
        (r, r & 1)
    } else if ext == 3 {
        let r = rotated_right(a, c, size);
        (r, r & 1)
    } else if ext == 5 {
        (a >> c, (a >> ((c - 1) as u64)) & 1)
    } else if ext == 7 {
        (shifted_signed(a, c, size), (a >> ((c - 1) as u64)) & 1)
    } else {
        (shifted_left(a, c, size), left_carry(a, c, size))
    }
}

/// The overflow flag of a one-place shift or rotate.
pub open spec fn shift_overflow(ext: u8, a: u64, res: u64, carry: u64, size: u8) -> bool {
    if ext == 0 || ext == 4 || ext == 6 {
        top_bit(res, size) ^ carry != 0
    } else if ext == 1 {
        top_bit(res, size) ^ ((res >> ((width_bits(size) - 2) as u64)) & 1) != 0
    } else if ext == 5 {
        top_bit(a, size) != 0
    } else {
        false
    }
}

/// The flags of a shift or rotate by a count that is not zero. Rotates leave zero, sign and parity
/// alone; counts above one leave the overflow flag alone.
pub open spec fn shift_flags(f: u64, ext: u8, a: u64, c: u64, size: u8) -> u64 {
    let (res, carry) = shift_value(ext, a, c, size);
    let f1 = with_bit(f, CF, carry != 0);
    let f2 = if ext >= 4 { with_result(f1, res, size) } else { f1 };
    if c == 1 {
        with_bit(f2, OF, shift_overflow(ext, a, res, carry, size))
    } else {
        f2
    }
}

/// The result and the flags of a shift or rotate.
pub open spec fn shift_result(f: u64, ext: u8, a: u64, c: u64, size: u8) -> (u64, u64) {
    (shift_value(ext, a, c, size).0, shift_flags(f, ext, a, c, size))
}

/// The shift count the processor uses.
pub fn shift_amount(cnt: u8, size: u8) -> (c: u64)
    requires
        is_width(size),
    ensures
        c == shift_count(cnt, size),
        c < 64,
{
    if size == 8 {
        (cnt % 64) as u64
    } else {
        (cnt % 32) as u64
    }
}

fn rotate_left(a: u64, c: u64, size: u8) -> (r: u64)
    requires
        is_width(size),
    ensures
        r == rotated_left(a, c, size),
{
    let bits: u64 = 8 * size as u64;
    let k: u64 = c % bits;
    if k == 0 {
        a
    } else {
        ((a << k) | (a >> (bits - k))) & mask(size)
    }
}

fn rotate_right(a: u64, c: u64, size: u8) -> (r: u64)
    requires
        is_width(size),
    ensures
        r == rotated_right(a, c, size),
{
    let bits: u64 = 8 * size as u64;
    let k: u64 = c % bits;
    if k == 0 {
        a
    } else {
        ((a >> k) | (a << (bits - k))) & mask(size)
    }
}

fn msb(v: u64, size: u8) -> (b: u64)
    requires
        is_width(size),
    ensures
        b == top_bit(v, size),
{
    (v >> (8 * size as u64 - 1)) & 1
}

fn shift_compute(ext: u8, a: u64, c: u64, size: u8) -> (r: (u64, u64))
    requires
        is_width(size),
        0 < c < 64,
    ensures
        r == shift_value(ext, a, c, size),
{
    let bits: u64 = 8 * size as u64;
    if ext == 0 {
        let r: u64 = rotate_left(a, c, size);
        (r, r & 1)
    } else if ext == 1 {
        let r: u64 = rotate_right(a, c, size);
        (r, msb(r, size))
    } else if ext == 2 {
        let r: u64 = rotate_left(a, c, size);
        (r, r & 1)
    } else if ext == 3 {
        let r: u64 = rotate_right(a, c, size);
        (r, r & 1)
    } else if ext == 5 {
        (a >> c, (a >> (c - 1)) & 1)
    } else if ext == 7 {
        let s: i64 = sign_extend(a, size);
        (((s >> c) as u64) & mask(size), (a >> (c - 1)) & 1)
    } else {
        let r: u64 = if c >= bits { 0 } else { (a << c) & mask(size) };
        let carry: u64 = if c > bits {
            0
        } else if c == 0 {
            0
        } else {
            (a >> (bits - c)) & 1
        };
        (r, carry)
    }
}

/// A shift or rotate by a count that is not zero: the result and the flags.
pub fn shift_op(f: u64, ext: u8, a: u64, c: u64, size: u8) -> (r: (u64, u64))
    requires
        is_width(size),
        0 < c < 64,
    ensures
        r == shift_result(f, ext, a, c, size),
{
    let (res, carry) = shift_compute(ext, a, c, size);
    let mut g: u64 = set_bit(f, CF, carry != 0);
    if ext >= 4 {
        g = crate::flags::set_result(g, res, size);
    }
    if c == 1 {
        let over: bool = if ext == 0 || ext == 4 || ext == 6 {
            msb(res, size) ^ carry != 0
        } else if ext == 1 {
            msb(res, size) ^ ((res >> (8 * size as u64 - 2)) & 1) != 0
        } else if ext == 5 {
            msb(a, size) != 0
        } else {
            false
        };
        g = set_bit(g, OF, over);
    }
    (res, g)
}

/// A double-precision shift: the places that open are filled from `src`. Counts beyond the operand
/// move everything of the destination out, and bring in no bit of the source.
pub open spec fn double_shift(dst: u64, src: u64, c: u64, size: u8, right: bool) -> u64 {
    let bits = width_bits(size);
    if c > bits {
        if right {
            (dst >> c) & mask_of(size)
        } else {
            0
        }
    } else if right {
        ((dst >> c) | shl_or_zero(src, (bits - c) as u64)) & mask_of(size)
    } else {
        (shl_or_zero(dst, c) | (src >> ((bits - c) as u64))) & mask_of(size)
    }
}

/// A left shift in a 64-bit word, zero from 64 places on.
pub open spec fn shl_or_zero(v: u64, c: u64) -> u64 {
    if c >= 64 {
        0
    } else {
        v << c
    }
}

/// A double-precision shift.
pub fn double_shift_op(dst: u64, src: u64, c: u64, size: u8, right: bool) -> (r: u64)
    requires
        is_width(size),
        0 < c < 64,
    ensures
        r == double_shift(dst, src, c, size, right),
{
    let bits: u64 = 8 * size as u64;
    if c > bits {
        if right {
            (dst >> c) & mask(size)
        } else {
            0
        }
    } else if right {
        ((dst >> c) | (src << (bits - c))) & mask(size)
    } else {
        ((dst << c) | (src >> (bits - c))) & mask(size)
    }
}

// ----- bits and bytes -----

/// A value with one bit tested and changed: `1` sets it, `2` resets it, `3` complements it.
pub open spec fn bit_changed(v: u64, b: u64, op: u8) -> u64 {
    if op == 1 {
        v | (1u64 << b)
    } else if op == 2 {
        v & !(1u64 << b)
    } else if op == 3 {
        v ^ (1u64 << b)
    } else {
        v
    }
}

/// A value with one bit changed.
pub fn bit_op(v: u64, b: u64, op: u8) -> (r: u64)
    requires
        b < 64,
    ensures
        r == bit_changed(v, b, op),
{
    if op == 1 {
        v | (1u64 << b)
    } else if op == 2 {
        v & !(1u64 << b)
    } else if op == 3 {
        v ^ (1u64 << b)
    } else {
        v
    }
}

/// The four low bytes in reverse order.
pub open spec fn swapped32(v: u64) -> u64 {
    ((v & 0xff) << 24) | (((v >> 8) & 0xff) << 16) | (((v >> 16) & 0xff) << 8) | ((v >> 24) & 0xff)
}

/// The eight bytes in reverse order.
pub open spec fn swapped64(v: u64) -> u64 {
    (swapped32(v) << 32) | swapped32(v >> 32)
}

/// The four low bytes in reverse order.
pub fn swap32(v: u64) -> (r: u64)
    ensures
        r == swapped32(v),
{
    ((v & 0xff) << 24) | (((v >> 8) & 0xff) << 16) | (((v >> 16) & 0xff) << 8) | ((v >> 24) & 0xff)
}

/// The eight bytes in reverse order.
pub fn swap64(v: u64) -> (r: u64)
    ensures
        r == swapped64(v),
{
    (swap32(v) << 32) | swap32(v >> 32)
}

/// Reversing the bytes twice gives the value back.
pub proof fn law_swap_twice(v: u64)
    ensures
        swapped64(swapped64(v)) == v,
{
    lemma_swapped(v);
}

pub proof fn lemma_swapped(v: u64)
    by (bit_vector)
    ensures
        swapped64(swapped64(v)) == v,
        swapped64(v) % 0x100 == (v / 0x100_0000_0000_0000) % 0x100,
        (swapped64(v) / 0x100) % 0x100 == (v / 0x1_0000_0000_0000) % 0x100,
        (swapped64(v) / 0x1_0000) % 0x100 == (v / 0x100_0000_0000) % 0x100,
        (swapped64(v) / 0x100_0000) % 0x100 == (v / 0x1_0000_0000) % 0x100,
        (swapped64(v) / 0x1_0000_0000) % 0x100 == (v / 0x100_0000) % 0x100,
        (swapped64(v) / 0x100_0000_0000) % 0x100 == (v / 0x1_0000) % 0x100,
        (swapped64(v) / 0x1_0000_0000_0000) % 0x100 == (v / 0x100) % 0x100,
        (swapped64(v) / 0x100_0000_0000_0000) % 0x100 == v % 0x100,
        swapped32(v) % 0x100 == (v / 0x100_0000) % 0x100,
        (swapped32(v) / 0x100) % 0x100 == (v / 0x1_0000) % 0x100,
        (swapped32(v) / 0x1_0000) % 0x100 == (v / 0x100) % 0x100,
        (swapped32(v) / 0x100_0000) % 0x100 == v % 0x100,
        swapped32(v) < 0x1_0000_0000,
{
}

} // verus!
