//! Laws of shifts, rotates and single bits: where each bit goes.
use vstd::prelude::*;
#[allow(unused_imports)]
use crate::arith::{
    bit_changed, double_shift, rotated_left, rotated_right, shift_count, shift_overflow,
    shift_result, shift_value, shifted_signed, shl_or_zero, swapped32, swapped64, top_bit,
    width_bits,
};
#[allow(unused_imports)]
use crate::bits::{even_parity, is_width, lemma_mask, low, mask_of, modulus, sign_of, signed_of};
#[allow(unused_imports)]
use crate::cpu::CpuState;
#[allow(unused_imports)]
use crate::decode::{operand_size, Prefix};
#[allow(unused_imports)]
use crate::flags::{with_bit, with_result, CF, OF};
#[allow(unused_imports)]
use crate::group_ops::bit_tested;
#[allow(unused_imports)]
use crate::int_ops::shifted;
#[allow(unused_imports)]
use crate::memory_laws::law_register_write;
#[allow(unused_imports)]
use crate::mmu::{fetch_byte, fetch_bytes};
#[allow(unused_imports)]
use crate::operand::{decode_rm, load_operand, reg_value, sext_of, store_operand, with_flags, Rm};
#[allow(unused_imports)]
use crate::operand_laws::{
    bit_at, law_fetch, law_parity, lemma_bits_of, lemma_decoded, lemma_flags_at, lemma_kept_bit,
    lemma_mod_once, lemma_part, lemma_signed, lemma_stored_part, part, tells,
};
#[allow(unused_imports)]
use crate::step::{executed, map_0f, map_0f_8_b, map_c_d};
#[allow(unused_imports)]
use crate::word_laws::{byte_num, code_number, law_code_number, law_sign_extended};

verus! {

proof fn lemma_moved_bits(a: u64, c: u64, i: u64)
    requires
        c < 64,
        i < 64,
    ensures
        i >= c ==> ((a << c) >> i) & 1 == (a >> ((i - c) as u64)) & 1,
        i < c ==> ((a << c) >> i) & 1 == 0,
        i + c < 64 ==> ((a >> c) >> i) & 1 == (a >> ((i + c) as u64)) & 1,
        i + c >= 64 ==> ((a >> c) >> i) & 1 == 0,
        (a >> i) & 1 == 0 || (a >> i) & 1 == 1,
{
    crate::bit_facts::lemma_bits_of_words(a, c, i, false, false);
}

proof fn lemma_signed_bits(x: i64, c: u64, i: u64)
    requires
        c < 64,
        i < 64,
    ensures
        i + c < 64 ==> (((x >> c) as u64) >> i) & 1 == ((x as u64) >> ((i + c) as u64)) & 1,
        i + c >= 64 ==> (((x >> c) as u64) >> i) & 1 == ((x as u64) >> 63) & 1,
{
    crate::bit_facts::lemma_signed_words(c, i, x);
}

proof fn lemma_extended_bits(a: u64, i: u64)
    requires
        i < 64,
    ensures
        a < 0x100 ==> (((a + 0xffff_ffff_ffff_ff00) as u64) >> i) & 1 == if i < 8 { (a >> i) & 1 } else { 1 },
        a < 0x1_0000 ==> (((a + 0xffff_ffff_ffff_0000) as u64) >> i) & 1 == if i < 16 { (a >> i) & 1 } else { 1 },
        a < 0x1_0000_0000 ==> (((a + 0xffff_ffff_0000_0000) as u64) >> i) & 1 == if i < 32 { (a >> i) & 1 } else { 1 },
        a < 0x100 && i >= 8 ==> (a >> i) & 1 == 0,
        a < 0x1_0000 && i >= 16 ==> (a >> i) & 1 == 0,
        a < 0x1_0000_0000 && i >= 32 ==> (a >> i) & 1 == 0,
        ((a >> 7) & 1 == 1) == (a % 0x100 >= 0x80),
        ((a >> 15) & 1 == 1) == (a % 0x1_0000 >= 0x8000),
        ((a >> 31) & 1 == 1) == (a % 0x1_0000_0000 >= 0x8000_0000),
        ((a >> 63) & 1 == 1) == (a >= 0x8000_0000_0000_0000),
{
    crate::bit_facts::lemma_bits_of_words(a, i, 0, false, false);
}

/// A value extended with its sign repeats its top bit.
pub proof fn law_extended_bit(a: u64, size: u8, i: u64)
    requires
        is_width(size),
        a < modulus(size),
        i < 64,
    ensures
        bit_at(sext_of(a, size), i) == bit_at(a, if i < 8 * size { i } else { (8 * size - 1) as u64 }),
{
    law_sign_extended(a, size);
    lemma_mod_once(a as int, modulus(size));
    lemma_extended_bits(a, i);
    lemma_no_bits(a, size, i);
}

/// An operand has no bits beyond its width.
proof fn lemma_no_bits(a: u64, size: u8, i: u64)
    requires
        is_width(size),
        a < modulus(size),
        i < 64,
    ensures
        i >= 8 * size ==> !bit_at(a, i),
{
    lemma_extended_bits(a, i);
}

// ----- shifts and rotates -----

/// The width of an operand in bits.
pub open spec fn width(size: u8) -> int {
    8 * size
}

/// Where bit `i` of the result of a shift or rotate by `c` places comes from: from a bit of the
/// operand, or from nowhere, as a zero. `0` and `2` rotate left, `1` and `3` right, `4` and `6` shift
/// left, `5` right, and `7` right with the sign.
pub open spec fn source(ext: int, i: int, c: int, size: u8) -> Option<int> {
    let n = width(size);
    if ext == 0 || ext == 2 {
        Some((i - c) % n)
    } else if ext == 1 || ext == 3 {
        Some((i + c) % n)
    } else if ext == 5 {
        if i + c < n { Some(i + c) } else { None }
    } else if ext == 7 {
        Some(if i + c < n { i + c } else { n - 1 })
    } else {
        if i >= c { Some(i - c) } else { None }
    }
}

/// Bit `i` of a word as it comes from another.
pub open spec fn comes(a: u64, from: Option<int>) -> bool {
    from is Some && bit_at(a, from->0 as u64)
}

/// Each bit of a shifted or rotated operand comes from where it should.
pub proof fn law_shifted_bit(ext: u8, a: u64, c: u64, size: u8, i: u64)
    requires
        ext < 8,
        is_width(size),
        a < modulus(size),
        c < 64,
        size < 8 ==> c < 32,
        i < 64,
    ensures
        bit_at(shift_value(ext, a, c, size).0, i) == (i < width(size) && comes(
            a,
            source(ext as int, i as int, c as int, size),
        )),
        shift_value(ext, a, c, size).0 < modulus(size),
{
    let n = width_bits(size);
    if ext == 0 || ext == 2 {
        lemma_left(a, c, size, i);
    } else if ext == 1 || ext == 3 {
        lemma_right(a, c, size, i);
    } else if ext == 5 {
        lemma_moved_bits(a, c, i);
        if i + c < 64 {
            lemma_no_bits(a, size, (i + c) as u64);
        }
        vstd::bits::lemma_u64_shr_is_div(a, c);
        vstd::arithmetic::power2::lemma_pow2_pos(c as nat);
        vstd::arithmetic::div_mod::lemma_div_nonincreasing(a as int, vstd::arithmetic::power2::pow2(c as nat) as int);
    } else if ext == 7 {
        lemma_arithmetic(a, c, size, i);
    } else {
        let x = a << c;
        lemma_mask(x, size);
        lemma_moved_bits(a, c, i);
        lemma_kept_bit(x, size, i);
        lemma_zero_bit(i);
    }
}

/// Zero has no bits.
pub proof fn lemma_zero_bit(i: u64)
    requires
        i < 64,
    ensures
        !bit_at(0, i),
{
    vstd::bits::lemma_u64_shr_is_div(0, i);
    vstd::arithmetic::power2::lemma_pow2_pos(i as nat);
    vstd::arithmetic::div_mod::lemma_div_of0(vstd::arithmetic::power2::pow2(i as nat) as int);
    assert(0u64 >> i == 0);
    lemma_low_bit(0);
    crate::bit_facts::lemma_bits_of_words(0, 0, 0, false, false);
}

/// A shift to the left by the width or more leaves nothing.
pub proof fn lemma_pushed_out(a: u64, c: u64, size: u8, i: u64)
    requires
        is_width(size),
        8 * size <= c < 64,
        i < 8 * size,
    ensures
        !bit_at((a << c) & mask_of(size), i),
{
    lemma_kept_bit(a << c, size, i);
    lemma_moved_bits(a, c, i);
}

proof fn lemma_left(a: u64, c: u64, size: u8, i: u64)
    requires
        is_width(size),
        a < modulus(size),
        c < 64,
        i < 64,
    ensures
        bit_at(rotated_left(a, c, size), i) == (i < width(size) && bit_at(
            a,
            ((i - c) % width(size)) as u64,
        )),
        rotated_left(a, c, size) < modulus(size),
{
    let n = width_bits(size);
    let k = c % n;
    lemma_turn(i as int, c as int, n as int);
    lemma_mask(a, size);
    lemma_no_bits(a, size, i);
    if k != 0 {
        let x = a << k;
        let y = a >> ((n - k) as u64);
        lemma_mask(x | y, size);
        lemma_kept_bit(x | y, size, i);
        lemma_bits_of(x, y, i);
        lemma_moved_bits(a, k, i);
        lemma_moved_bits(a, (n - k) as u64, i);
        if i < n && i + n - k < 64 {
            if i >= k {
                lemma_no_bits(a, size, (i + n - k) as u64);
            }
        }
    }
}

proof fn lemma_right(a: u64, c: u64, size: u8, i: u64)
    requires
        is_width(size),
        a < modulus(size),
        c < 64,
        i < 64,
    ensures
        bit_at(rotated_right(a, c, size), i) == (i < width(size) && bit_at(
            a,
            ((i + c) % width(size)) as u64,
        )),
        rotated_right(a, c, size) < modulus(size),
{
    let n = width_bits(size);
    let k = c % n;
    lemma_turn(i as int, -(c as int), n as int);
    lemma_turn_back(c as int, n as int);
    lemma_mask(a, size);
    lemma_no_bits(a, size, i);
    if k != 0 {
        let x = a >> k;
        let y = a << ((n - k) as u64);
        lemma_mask(x | y, size);
        lemma_kept_bit(x | y, size, i);
        lemma_bits_of(x, y, i);
        lemma_moved_bits(a, k, i);
        lemma_moved_bits(a, (n - k) as u64, i);
        if i < n && i + k >= n && i + k < 64 {
            lemma_no_bits(a, size, (i + k) as u64);
        }
    }
}

/// A turn by `c` is a turn by its remainder.
proof fn lemma_turn(i: int, c: int, n: int)
    requires
        n > 0,
        0 <= i,
    ensures
        i < n ==> (i - c) % n == if i >= c % n { i - c % n } else { i - c % n + n },
{
    let k = c % n;
    let q = c / n;
    vstd::arithmetic::div_mod::lemma_fundamental_div_mod(c, n);
    if i < n {
        if i >= k {
            assert(i - c == (-q) * n + (i - k)) by (nonlinear_arith)
                requires
                    c == n * q + k,
            ;
            vstd::arithmetic::div_mod::lemma_fundamental_div_mod_converse(i - c, n, -q, i - k);
        } else {
            assert(i - c == (-q - 1) * n + (i - k + n)) by (nonlinear_arith)
                requires
                    c == n * q + k,
            ;
            vstd::arithmetic::div_mod::lemma_fundamental_div_mod_converse(i - c, n, -q - 1, i - k + n);
        }
    }
}

proof fn lemma_turn_back(c: int, n: int)
    requires
        n > 0,
    ensures
        (-c) % n == if c % n == 0 { 0 } else { n - c % n },
{
    lemma_turn(0, c, n);
    assert(0 - c == -c);
}

proof fn lemma_arithmetic(a: u64, c: u64, size: u8, i: u64)
    requires
        is_width(size),
        a < modulus(size),
        c < 64,
        size < 8 ==> c < 32,
        i < 64,
    ensures
        bit_at(shifted_signed(a, c, size), i) == (i < width(size) && comes(
            a,
            source(7, i as int, c as int, size),
        )),
        shifted_signed(a, c, size) < modulus(size),
{
    lemma_signed(a, size);
    let x = signed_of(a, size) as i64;
    let y = (x >> c) as u64;
    lemma_mask(y, size);
    lemma_kept_bit(y, size, i);
    lemma_signed_bits(x, c, i);
    crate::word_laws::lemma_negative(x);
    law_sign_extended(a, size);
    lemma_mod_once(a as int, modulus(size));
    assert(x as u64 == sext_of(a, size));
    if i + c < 64 {
        law_extended_bit(a, size, (i + c) as u64);
    } else {
        law_extended_bit(a, size, 63);
    }
}

/// The bit that a shift or rotate moves out last: for rotates the one that came in on the other side.
pub open spec fn moved_out(ext: int, a: u64, r: u64, c: int, size: u8) -> bool {
    if ext == 0 || ext == 2 || ext == 3 {
        bit_at(r, 0)
    } else if ext == 1 {
        bit_at(r, (width(size) - 1) as u64)
    } else if ext == 5 || ext == 7 {
        bit_at(a, (c - 1) as u64)
    } else {
        c <= width(size) && bit_at(a, (width(size) - c) as u64)
    }
}

/// The flags of a shift or rotate by `c` places: the carry is the last bit moved out; zero, sign and
/// parity tell of the result of a shift, and stay for a rotate; a move by one place sets the overflow
/// where the top bit changed (for a right rotate: where the two top bits differ; never for `7`).
pub proof fn law_shift_flags(f: u64, ext: u8, a: u64, c: u64, size: u8)
    requires
        ext < 8,
        is_width(size),
        a < modulus(size),
        0 < c < 64,
        size < 8 ==> c < 32,
    ensures
        ({
            let (r, g) = shift_result(f, ext, a, c, size);
            let n = width(size);
            &&& r == shift_value(ext, a, c, size).0
            &&& bit_at(g, 0) == moved_out(ext as int, a, r, c as int, size)
            &&& ext >= 4 ==> tells(g, r as int, size)
            &&& ext < 4 ==> bit_at(g, 6) == bit_at(f, 6) && bit_at(g, 7) == bit_at(f, 7) && bit_at(g, 2)
                == bit_at(f, 2)
            &&& c > 1 ==> bit_at(g, 11) == bit_at(f, 11)
            &&& c == 1 && (ext == 0 || ext == 4 || ext == 6) ==> bit_at(g, 11) == (bit_at(r, (n - 1) as u64)
                != bit_at(g, 0))
            &&& c == 1 && ext == 1 ==> bit_at(g, 11) == (bit_at(r, (n - 1) as u64) != bit_at(
                r,
                (n - 2) as u64,
            ))
            &&& c == 1 && ext == 5 ==> bit_at(g, 11) == bit_at(a, (n - 1) as u64)
            &&& c == 1 && ext == 7 ==> !bit_at(g, 11)
        }),
{
    let (r, carry) = shift_value(ext, a, c, size);
    let n = width_bits(size);
    law_shifted_bit(ext, a, c, size, 0);
    lemma_one_or_zero(r, 0);
    lemma_one_or_zero(r, (n - 1) as u64);
    lemma_one_or_zero(r, (n - 2) as u64);
    lemma_one_or_zero(a, (n - 1) as u64);
    lemma_one_or_zero(a, (c - 1) as u64);
    lemma_low_bit(r);
    let cf = carry != 0;
    assert(cf == moved_out(ext as int, a, r, c as int, size)) by {
        if ext == 4 || ext == 6 {
            if c <= n && n - c < 64 {
                lemma_one_or_zero(a, (n - c) as u64);
            }
        }
    }
    let f1 = with_bit(f, CF, cf);
    let f2 = if ext >= 4 { with_result(f1, r, size) } else { f1 };
    let o = shift_overflow(ext, a, r, carry, size);
    let g = shift_result(f, ext, a, c, size).1;
    assert(g == if c == 1 { with_bit(f2, OF, o) } else { f2 });
    lemma_xor(top_bit(r, size), carry);
    lemma_xor(top_bit(r, size), (r >> ((n - 2) as u64)) & 1);
    lemma_mod_once(r as int, modulus(size));
    law_parity(r);
    lemma_signed(r, size);
    reveal(tells);
    lemma_shift_flag_bits(f, cf, ext >= 4, low(r, size) == 0, sign_of(r, size), even_parity(r), c == 1, o);
    lemma_flags_at(f, g, 0);
    lemma_flags_at(f, f, 0);
    assert((r as int % modulus(size)) % 0x100 == r as int % 0x100);
}

proof fn lemma_low_bit(r: u64)
    ensures
        (r & 1 != 0) == bit_at(r, 0),
        r & 1 == 0 || r & 1 == 1,
{
    lemma_flags_at(0, r, 0);
    crate::bit_facts::lemma_bits_of_words(r, 0, 0, false, false);
}

proof fn lemma_one_or_zero(a: u64, i: u64)
    requires
        i < 64,
    ensures
        ((a >> i) & 1 != 0) == bit_at(a, i),
        (a >> i) & 1 == 0 || (a >> i) & 1 == 1,
{
    lemma_moved_bits(a, 0, i);
}

proof fn lemma_xor(a: u64, b: u64)
    requires
        a == 0 || a == 1,
        b == 0 || b == 1,
    ensures
        (a ^ b != 0) == (a != b),
{
    crate::bit_facts::lemma_bits_of_words(a, b, 0, false, false);
}

proof fn lemma_shift_flag_bits(f: u64, c: bool, shift: bool, z: bool, n: bool, p: bool, once: bool, o: bool)
    ensures
        ({
            let f1 = if c { f | 0x1 } else { f & !0x1u64 };
            let r1 = if z { f1 | 0x40 } else { f1 & !0x40u64 };
            let r2 = if n { r1 | 0x80 } else { r1 & !0x80u64 };
            let r3 = if p { r2 | 0x4 } else { r2 & !0x4u64 };
            let f2 = if shift { r3 } else { f1 };
            let r5 = if o { f2 | 0x800 } else { f2 & !0x800u64 };
            let g = if once { r5 } else { f2 };
            &&& (g & 0x1 != 0) == c
            &&& (g & 0x40 != 0) == if shift { z } else { f & 0x40 != 0 }
            &&& (g & 0x80 != 0) == if shift { n } else { f & 0x80 != 0 }
            &&& (g & 0x4 != 0) == if shift { p } else { f & 0x4 != 0 }
            &&& (g & 0x800 != 0) == if once { o } else { f & 0x800 != 0 }
        }),
{
    crate::bit_facts::lemma_flags_set(f, c, shift, z, n, p, once, o);
}

/// The shift instructions on a register: by an immediate byte (C0, C1), by one (D0, D1) or by `CL`
/// (D2, D3), modulo 64 for eight-byte operands and modulo 32 for others. A count of zero changes
/// neither the register nor a flag.
pub proof fn law_shift_instruction(s: CpuState, p: Prefix, op: u8)
    requires
        op == 0xc0 || op == 0xc1 || 0xd0 <= op <= 0xd3,
        s.r.len() == 16,
        decode_rm(s, p.rex).1.1 is Reg,
    ensures
        ({
            let size = if op % 2 == 0 { 1u8 } else { operand_size(p) };
            let (s1, (reg, rm)) = decode_rm(s, p.rex);
            let i = rm->Reg_0 as int;
            let count = if op < 0xd0 {
                code_number(s1, 1)
            } else if op < 0xd2 {
                1
            } else {
                s.r[1] as int % 0x100
            };
            let c = count % if size == 8 { 64 } else { 32 };
            let t = executed(s, p, op).0;
            let a = part(s, i, size) as u64;
            &&& c == 0 ==> t.r == s.r && t.rflags == s.rflags
            &&& c != 0 ==> {
                &&& part(t, i, size) == shift_value((reg % 8) as u8, a, c as u64, size).0
                &&& t.rflags == shift_result(s.rflags, (reg % 8) as u8, a, c as u64, size).1
            }
        }),
{
    let size = if op % 2 == 0 { 1u8 } else { operand_size(p) };
    lemma_decoded(s, p.rex);
    let (s1, (reg, rm)) = decode_rm(s, p.rex);
    let i = rm->Reg_0;
    law_fetch(s1, 1);
    law_code_number(s1, 1);
    let s2 = if op < 0xd0 { fetch_bytes(s1, 1).0 } else { s1 };
    let cnt = if op < 0xd0 { fetch_bytes(s1, 1).1 as u8 } else if op < 0xd2 { 1u8 } else { (s1.r[1] & 0xff) as u8 };
    lemma_mask(s1.r[1], 1);
    lemma_shift_form(s, p, op);
    lemma_part(s2, i as int, size);
    lemma_shift_done(s2, (reg % 8) as u8, i, size, cnt);
    assert(part(s2, i as int, size) == part(s, i as int, size));
}

#[verifier::opaque]
spec fn shift_done(s: CpuState, ext: u8, i: usize, size: u8, cnt: u8) -> CpuState {
    shifted(s, ext, Rm::Reg(i), size, cnt)
}

proof fn lemma_shift_form(s: CpuState, p: Prefix, op: u8)
    requires
        op == 0xc0 || op == 0xc1 || 0xd0 <= op <= 0xd3,
        decode_rm(s, p.rex).1.1 is Reg,
    ensures
        ({
            let size = if op % 2 == 0 { 1u8 } else { operand_size(p) };
            let (s1, (reg, rm)) = decode_rm(s, p.rex);
            let s2 = if op < 0xd0 { fetch_bytes(s1, 1).0 } else { s1 };
            let cnt = if op < 0xd0 { fetch_bytes(s1, 1).1 as u8 } else if op < 0xd2 { 1u8 } else { (s1.r[1] & 0xff) as u8 };
            executed(s, p, op).0 == shift_done(s2, (reg % 8) as u8, rm->Reg_0, size, cnt)
        }),
{
    reveal(executed);
    reveal(map_c_d);
    reveal(shift_done);
}

proof fn lemma_shift_done(s: CpuState, ext: u8, i: usize, size: u8, cnt: u8)
    requires
        ext < 8,
        is_width(size),
        s.r.len() == 16,
        i < 16,
    ensures
        ({
            let c = cnt as int % if size == 8 { 64 } else { 32 };
            let t = shift_done(s, ext, i, size, cnt);
            let a = part(s, i as int, size) as u64;
            &&& c == 0 ==> t == s
            &&& c != 0 ==> {
                &&& part(t, i as int, size) == shift_value(ext, a, c as u64, size).0
                &&& t.rflags == shift_result(s.rflags, ext, a, c as u64, size).1
            }
        }),
{
    reveal(shift_done);
    reveal(load_operand);
    let a = reg_value(s, i as int, size);
    lemma_part(s, i as int, size);
    lemma_mask(a, size);
    let c = shift_count(cnt, size);
    if c != 0 {
        assert(a & mask_of(size) == a);
        law_shifted_bit(ext, a, c, size, 0);
        let r = shift_value(ext, a, c, size).0;
        lemma_stored_part(s, i as int, size, r, s.rflags);
        assert(with_flags(s, s.rflags) == s);
        reveal(store_operand);
    }
}

// ----- double shifts -----

/// `SHLD` and `SHRD` by `c` places, at most the width: the bits that move in come from the other
/// operand.
pub proof fn law_double_shift(dst: u64, src: u64, c: u64, size: u8, right: bool, i: u64)
    requires
        is_width(size),
        size > 1,
        dst < modulus(size),
        src < modulus(size),
        0 < c < 64,
        c <= width(size),
        i < 64,
    ensures
        ({
            let n = width(size);
            let r = double_shift(dst, src, c, size, right);
            bit_at(r, i) == (i < n && if right {
                if i + c < n { bit_at(dst, (i + c) as u64) } else { bit_at(src, (i + c - n) as u64) }
            } else {
                if i >= c { bit_at(dst, (i - c) as u64) } else { bit_at(src, (i + n - c) as u64) }
            })
        }),
{
    let n = width_bits(size);
    lemma_no_bits(dst, size, i);
    if right {
        let x = dst >> c;
        let y = shl_or_zero(src, (n - c) as u64);
        lemma_kept_bit(x | y, size, i);
        lemma_bits_of(x, y, i);
        lemma_moved_bits(dst, c, i);
        lemma_moved_bits(src, (n - c) as u64, i);
        if i < n && i + c >= n && i + c < 64 {
            lemma_no_bits(dst, size, (i + c) as u64);
        }
    } else {
        let x = shl_or_zero(dst, c);
        let y = src >> ((n - c) as u64);
        lemma_kept_bit(x | y, size, i);
        lemma_bits_of(x, y, i);
        lemma_moved_bits(dst, c, i);
        lemma_moved_bits(src, (n - c) as u64, i);
        if i < n && i >= c && i + n - c < 64 {
            lemma_no_bits(src, size, (i + n - c) as u64);
        }
    }
}

// ----- single bits -----

/// `BTS` sets the bit, `BTR` clears it, `BTC` turns it, and `BT` leaves it; no other bit changes.
pub proof fn law_bit_changed(v: u64, b: u64, op: u8, i: u64)
    requires
        b < 64,
        i < 64,
        op < 4,
    ensures
        bit_at(bit_changed(v, b, op), i) == if i != b || op == 0 {
            bit_at(v, i)
        } else if op == 1 {
            true
        } else if op == 2 {
            false
        } else {
            !bit_at(v, i)
        },
{
    lemma_one_bit(b, i);
    lemma_bits_of(v, 1u64 << b, i);
    lemma_bits_of(v, !(1u64 << b), i);
    lemma_bits_of(1u64 << b, 0, i);
}

proof fn lemma_one_bit(b: u64, i: u64)
    requires
        b < 64,
        i < 64,
    ensures
        (((1u64 << b) >> i) & 1 == 1) == (i == b),
{
    crate::bit_facts::lemma_bits_of_words(b, i, 0, false, false);
}

/// The bit instructions on a register, with the index in a register (0F A3, AB, B3, BB): the carry is
/// the bit at the index modulo the width, which is then changed.
pub proof fn law_bit_instruction(s: CpuState, rm: usize, size: u8, bit: u64, op: u8)
    requires
        size == 2 || size == 4 || size == 8,
        s.r.len() == 16,
        rm < 16,
        op < 4,
    ensures
        ({
            let t = bit_tested(s, Rm::Reg(rm), size, bit, op);
            let b = bit as int % width(size);
            &&& bit_at(t.rflags, 0) == bit_at(part(s, rm as int, size) as u64, b as u64)
            &&& op == 0 ==> t.r == s.r
            &&& forall|i: u64|
                #![trigger bit_at(part(t, rm as int, size) as u64, i)]
                i < 64 && i != b ==> bit_at(part(t, rm as int, size) as u64, i) == bit_at(
                    part(s, rm as int, size) as u64,
                    i,
                )
            &&& bit_at(part(t, rm as int, size) as u64, b as u64) == if op == 0 {
                bit_at(part(s, rm as int, size) as u64, b as u64)
            } else if op == 1 {
                true
            } else if op == 2 {
                false
            } else {
                !bit_at(part(s, rm as int, size) as u64, b as u64)
            }
        }),
{
    reveal(load_operand);
    reveal(store_operand);
    let b = bit % ((8 * size) as u64);
    let v = reg_value(s, rm as int, size);
    lemma_part(s, rm as int, size);
    lemma_one_or_zero(v, b);
    let g = with_bit(s.rflags, CF, (v >> b) & 1 != 0);
    let s2 = with_flags(s, g);
    let w = bit_changed(v, b, op);
    let t = bit_tested(s, Rm::Reg(rm), size, bit, op);
    law_register_write(s2, rm as int, size, w);
    lemma_flags_at(0, g, 0);
    lemma_carry_bit(s.rflags, (v >> b) & 1 != 0);
    if op != 0 {
        assert(part(t, rm as int, size) == w & mask_of(size));
    }
    let z = part(t, rm as int, size) as u64;
    assert forall|i: u64| #![trigger bit_at(z, i)] i < 64 implies bit_at(z, i) == if i != b || op == 0 {
        bit_at(v, i)
    } else if op == 1 {
        true
    } else if op == 2 {
        false
    } else {
        !bit_at(v, i)
    } by {
        law_bit_changed(v, b, op, i);
        lemma_kept_bit(w, size, i);
        lemma_no_bits(v, size, i);
    }
}

proof fn lemma_carry_bit(f: u64, c: bool)
    ensures
        (with_bit(f, CF, c) & 1 != 0) == c,
{
    lemma_shift_flag_bits(f, c, false, false, false, false, false, false);
}

/// The opcodes of the bit instructions.
pub proof fn law_bit_opcodes(s: CpuState, p: Prefix)
    requires
        ({
            let op = fetch_byte(s).1;
            op == 0xa3 || op == 0xab || op == 0xb3 || op == 0xbb
        }),
    ensures
        ({
            let (s0, op) = fetch_byte(s);
            let (s1, (reg, rm)) = decode_rm(s0, p.rex);
            let size = operand_size(p);
            executed(s, p, 0x0f).0 == bit_tested(
                s1,
                rm,
                size,
                (s1.r[reg as int] as int % modulus(size)) as u64,
                if op == 0xa3 { 0u8 } else if op == 0xab { 1u8 } else if op == 0xb3 { 2u8 } else { 3u8 },
            )
        }),
{
    reveal(executed);
    reveal(map_0f);
    reveal(map_0f_8_b);
    let s0 = fetch_byte(s).0;
    let (s1, (reg, rm)) = decode_rm(s0, p.rex);
    lemma_mask(s1.r[reg as int], operand_size(p));
}

// ----- bytes in reverse -----

/// `BSWAP`: byte `i` of the result is byte `7 - i` of the operand; of four bytes, byte `3 - i`.
pub proof fn law_swapped_bytes(v: u64)
    ensures
        forall|i: int| 0 <= i < 8 ==> #[trigger] byte_num(swapped64(v) as int, i) == byte_num(v as int, 7 - i),
        forall|i: int| 0 <= i < 4 ==> #[trigger] byte_num(swapped32(v) as int, i) == byte_num(v as int, 3 - i),
        swapped32(v) < 0x1_0000_0000,
{
    crate::arith::lemma_swapped(v);
}

} // verus!
