//! Laws of the packed instructions, lane by lane, in plain arithmetic on the registers.
use vstd::prelude::*;
#[allow(unused_imports)]
use crate::arith::width_bits;
#[allow(unused_imports)]
use crate::bit_facts::{lemma_high_places, lemma_low_places, lemma_wide_bits, lemma_wide_left};
#[allow(unused_imports)]
use crate::bits::{is_width, lemma_mask, modulus, signed_of};
#[allow(unused_imports)]
use crate::cpu::CpuState;
#[allow(unused_imports)]
use crate::decode::{FlowState, Prefix};
#[allow(unused_imports)]
use crate::mmu::{fetch_byte, mem_read};
#[allow(unused_imports)]
use crate::operand::{decode_rm, load128, load32, load64, store128, Rm};
#[allow(unused_imports)]
use crate::operand_laws::{
    bit_at, law_fetch, lemma_bits_of, lemma_decoded, lemma_mod_once, lemma_signed, signed,
};
#[allow(unused_imports)]
use crate::shift_laws::law_shifted_bit;
#[allow(unused_imports)]
use crate::simd::{
    chosen, high64, interleaved, joined, lane, lane_count, lane_op_ok, lane_result, lane_shifted,
    lanes, lanes_shifted, narrowed, packed, placed, selector, with_low32, with_low64, LaneOp,
    ShiftOp,
};
#[allow(unused_imports)]
use crate::sse_ops::{
    do_mov_load, do_mov_store, do_mov_whole, do_packed, do_shift_imm, do_shuffle, do_shuffle_pair,
    packed_of, packed_value, shuffled, Packed,
};
#[allow(unused_imports)]
use crate::step::{executed, map_0f, map_0f_c_f, map_0f_low, map_0f_mid};

verus! {

// ----- lanes -----

/// Lane `i` of a 128-bit word, as a number: lanes are counted from the low end.
pub open spec fn lane_num(x: u128, i: int, size: u8) -> int {
    (x as int / vstd::arithmetic::power2::pow2((8 * size * i) as nat) as int) % modulus(size)
}

/// Byte `i` of a 128-bit word.
pub open spec fn xmm_byte(x: u128, i: int) -> int {
    lane_num(x, i, 1)
}

/// Bit `i` of a 128-bit word.
pub open spec fn bit_of(x: u128, i: u128) -> bool {
    (x >> i) & 1 == 1
}

/// A lane is the number in that part of the word.
pub proof fn law_lane(x: u128, i: int, size: u8)
    requires
        is_width(size),
        0 <= i,
        i * size < 16,
    ensures
        lane(x, i, size) == lane_num(x, i, size),
        lane(x, i, size) < modulus(size),
{
    let k = 8 * size * i;
    assert(0 <= k < 128) by (nonlinear_arith)
        requires
            0 <= i,
            i * size < 16,
            k == 8 * size * i,
    ;
    vstd::bits::lemma_u128_shr_is_div(x, k as u128);
    let y = x >> (k as u128);
    lemma_wide_bits(y, 0, 0);
    lemma_mask(y as u64, size);
    let m = 0x1_0000_0000_0000_0000int;
    if size == 1 {
        vstd::arithmetic::div_mod::lemma_mod_mod(y as int, 0x100, 0x100_0000_0000_0000);
    } else if size == 2 {
        vstd::arithmetic::div_mod::lemma_mod_mod(y as int, 0x1_0000, 0x1_0000_0000_0000);
    } else if size == 4 {
        vstd::arithmetic::div_mod::lemma_mod_mod(y as int, 0x1_0000_0000, 0x1_0000_0000);
    }
}

/// No lane from the `n`-th on holds anything.
pub open spec fn clear_from(x: u128, n: int, size: u8) -> bool {
    n * size >= 16 || x >> ((8 * size * n) as u128) == 0
}

/// A value put above the lanes that are there is read again at its place and nowhere else.
pub proof fn lemma_put(x: u128, v: u64, j: int, size: u8, i: int)
    requires
        is_width(size),
        0 <= j,
        j * size < 16,
        0 <= i,
        i * size < 16,
        v < modulus(size),
        clear_from(x, j, size),
    ensures
        lane(x | placed(v, j, size), i, size) == if i == j { v } else { lane(x, i, size) },
        clear_from(x | placed(v, j, size), j + 1, size),
{
    if size == 1 {
        assert(j * size == 1 * j && i * size == 1 * i && (j + 1) * size == 1 * j + 1 && 8 * size * j == 8 * j && 8 * size * i == 8 * i && 8 * size * (j + 1) == 8 * j + 8) by (nonlinear_arith)
            requires
                size == 1,
        ;
    } else if size == 2 {
        assert(j * size == 2 * j && i * size == 2 * i && (j + 1) * size == 2 * j + 2 && 8 * size * j == 16 * j && 8 * size * i == 16 * i && 8 * size * (j + 1) == 16 * j + 16) by (nonlinear_arith)
            requires
                size == 2,
        ;
    } else if size == 4 {
        assert(j * size == 4 * j && i * size == 4 * i && (j + 1) * size == 4 * j + 4 && 8 * size * j == 32 * j && 8 * size * i == 32 * i && 8 * size * (j + 1) == 32 * j + 32) by (nonlinear_arith)
            requires
                size == 4,
        ;
    } else {
        assert(j * size == 8 * j && i * size == 8 * i && (j + 1) * size == 8 * j + 8 && 8 * size * j == 64 * j && 8 * size * i == 64 * i && 8 * size * (j + 1) == 64 * j + 64) by (nonlinear_arith)
            requires
                size == 8,
        ;
    }
    let b = (8 * size * j) as u128;
    let a = (8 * size * i) as u128;
    lemma_low_places(x, v, a, b);
    lemma_high_places(x, v, a, b);
    crate::bits::lemma_low_bits(v);
}

pub proof fn lemma_nothing(size: u8, i: int)
    requires
        is_width(size),
        0 <= i,
        i * size < 16,
    ensures
        lane(0, i, size) == 0,
        clear_from(0, 0, size),
{
    law_lane(0, i, size);
    vstd::arithmetic::power2::lemma_pow2_pos((8 * size * i) as nat);
    vstd::arithmetic::div_mod::lemma_div_of0(vstd::arithmetic::power2::pow2((8 * size * i) as nat) as int);
    lemma_wide_bits(0, 0, 0);
    assert(8 * size * 0 == 0);
}

proof fn lemma_result_fits(op: LaneOp, a: u64, b: u64, size: u8)
    requires
        lane_op_ok(op, size),
        a < modulus(size),
        b < modulus(size),
    ensures
        lane_result(op, a, b, size) < modulus(size),
{
    lemma_mask(a, size);
    lemma_mask(b, size);
    crate::bits::lemma_low_bits(0);
    let m = modulus(size);
    if op is Plus {
        vstd::arithmetic::div_mod::lemma_mod_bound(a + b, m);
    } else if op is Minus {
        vstd::arithmetic::div_mod::lemma_mod_bound(a - b, m);
    } else if op is TimesLow {
        vstd::arithmetic::div_mod::lemma_mod_bound(a * b, m);
    } else if op is TimesHigh {
        assert(0 <= a * b < 0x1_0000 * 0x1_0000) by (nonlinear_arith)
            requires
                0 <= a < 0x1_0000,
                0 <= b < 0x1_0000,
        ;
    } else if op is TimesHighSigned {
        vstd::arithmetic::div_mod::lemma_mod_bound(signed_of(a, size) * signed_of(b, size) / m, m);
    }
}

/// A packed operation works on each lane by itself.
pub proof fn law_lanes(op: LaneOp, a: u128, b: u128, size: u8, n: nat, i: int)
    requires
        lane_op_ok(op, size),
        n * size <= 16,
        0 <= i,
        i * size < 16,
    ensures
        lane(lanes(op, a, b, size, n), i, size) == if i < n {
            lane_result(op, lane(a, i, size), lane(b, i, size), size)
        } else {
            0
        },
        clear_from(lanes(op, a, b, size, n), n as int, size),
    decreases n,
{
    if n == 0 {
        lemma_nothing(size, i);
    } else {
        let j = n - 1;
        assert(j * size < 16) by (nonlinear_arith)
            requires
                (j + 1) * size <= 16,
                size >= 1,
        ;
        law_lanes(op, a, b, size, j as nat, i);
        law_lane(a, j, size);
        law_lane(b, j, size);
        lemma_result_fits(op, lane(a, j, size), lane(b, j, size), size);
        lemma_put(
            lanes(op, a, b, size, j as nat),
            lane_result(op, lane(a, j, size), lane(b, j, size), size),
            j,
            size,
            i,
        );
    }
}

// ----- whole-register shifts -----

proof fn lemma_bytes_right(x: u128, n: int, i: int)
    requires
        0 <= n < 16,
        0 <= i < 16,
    ensures
        xmm_byte(x >> ((n * 8) as u128), i) == if i + n < 16 { xmm_byte(x, i + n) } else { 0 },
{
    let y = x >> ((n * 8) as u128);
    let u = vstd::arithmetic::power2::pow2((8 * n) as nat) as int;
    let w = vstd::arithmetic::power2::pow2((8 * i) as nat) as int;
    vstd::bits::lemma_u128_shr_is_div(x, (n * 8) as u128);
    vstd::arithmetic::power2::lemma_pow2_pos((8 * n) as nat);
    vstd::arithmetic::power2::lemma_pow2_pos((8 * i) as nat);
    vstd::arithmetic::power2::lemma_pow2_adds((8 * n) as nat, (8 * i) as nat);
    vstd::arithmetic::div_mod::lemma_div_denominator(x as int, u, w);
    assert(8 * 1u8 * i == 8 * i && 8 * 1u8 * (i + n) == 8 * n + 8 * i);
    if i + n >= 16 {
        vstd::arithmetic::power2::lemma2_to64();
        vstd::arithmetic::power2::lemma_pow2_adds(64, 64);
        assert(vstd::arithmetic::power2::pow2(128) == 0x1_0000_0000_0000_0000 * 0x1_0000_0000_0000_0000);
        if i + n > 16 {
            vstd::arithmetic::power2::lemma_pow2_strictly_increases(128, (8 * n + 8 * i) as nat);
        }
        vstd::arithmetic::div_mod::lemma_basic_div(x as int, u * w);
    }
}

proof fn lemma_bytes_left(x: u128, n: int, i: int)
    requires
        0 <= n < 16,
        0 <= i < 16,
    ensures
        xmm_byte(x << ((n * 8) as u128), i) == if i >= n { xmm_byte(x, i - n) } else { 0 },
{
    let y = x << ((n * 8) as u128);
    lemma_byte(y, i);
    lemma_wide_left(x, (n * 8) as u128, (8 * i) as u128);
    if i >= n {
        lemma_byte(x, i - n);
    }
}

proof fn lemma_byte(x: u128, i: int)
    requires
        0 <= i < 16,
    ensures
        xmm_byte(x, i) == (x >> ((8 * i) as u128)) & 0xff,
{
    vstd::bits::lemma_u128_shr_is_div(x, (8 * i) as u128);
    lemma_wide_bits(x >> ((8 * i) as u128), 0, 0);
    assert(8 * 1u8 * i == 8 * i);
}

/// `PSRLDQ` and `PSLLDQ` by `n` bytes: byte `i` of the register comes from byte `i + n`, or `i - n`,
/// and is zero where there is no such byte. No other register changes.
pub proof fn law_byte_shift(s: CpuState, p: Prefix, i: int)
    requires
        s.xmm.len() == 16,
        fetch_byte(s).1 == 0x73,
        ({
            let (reg, rm) = decode_rm(fetch_byte(s).0, p.rex).1;
            rm is Reg && (reg % 8 == 3 || reg % 8 == 7)
        }),
        0 <= i < 16,
    ensures
        ({
            let (s1, (reg, rm)) = decode_rm(fetch_byte(s).0, p.rex);
            let k = rm->Reg_0 as int;
            let n = fetch_byte(s1).1 as int;
            let t = executed(s, p, 0x0f).0;
            let from = if reg % 8 == 3 { i + n } else { i - n };
            &&& xmm_byte(t.xmm[k], i) == if 0 <= from < 16 && n < 16 { xmm_byte(s.xmm[k], from) } else { 0 }
            &&& forall|j: int| 0 <= j < 16 && j != k ==> #[trigger] t.xmm[j] == s.xmm[j]
            &&& t.r == s.r
            &&& t.rflags == s.rflags
            &&& executed(s, p, 0x0f).1 is Next
        }),
{
    let s0 = fetch_byte(s).0;
    law_fetch(s, 0);
    lemma_decoded(s0, p.rex);
    let (s1, (reg, rm)) = decode_rm(s0, p.rex);
    law_fetch(s1, 0);
    let k = rm->Reg_0 as int;
    let n = fetch_byte(s1).1 as int;
    reveal(executed);
    reveal(map_0f);
    reveal(map_0f_mid);
    let x = s.xmm[k];
    if n < 16 {
        lemma_bytes_right(x, n, i);
        lemma_bytes_left(x, n, i);
    } else {
        lemma_nothing(1, i);
        law_lane(0, i, 1);
    }
}

// ----- arithmetic on lanes -----

pub proof fn lemma_packed_form(s: CpuState, p: Prefix, k: Packed)
    requires
        s.xmm.len() == 16,
        packed_of(fetch_byte(s).1, p.opsz) == Some(k),
        decode_rm(fetch_byte(s).0, p.rex).1.1 is Reg,
    ensures
        ({
            let (reg, rm) = decode_rm(fetch_byte(s).0, p.rex).1;
            let i = rm->Reg_0 as int;
            let (t, f) = executed(s, p, 0x0f);
            &&& reg < 16
            &&& i < 16
            &&& f is Next
            &&& t.xmm == s.xmm.update(reg as int, packed_value(k, s.xmm[reg as int], s.xmm[i]))
            &&& t.r == s.r
            &&& t.rflags == s.rflags
        }),
{
    let s0 = fetch_byte(s).0;
    law_fetch(s, 0);
    lemma_decoded(s0, p.rex);
    let (s1, (reg, rm)) = decode_rm(s0, p.rex);
    assert(s1.xmm == s.xmm && s1.r == s.r && s1.rflags == s.rflags);
    assert(executed(s, p, 0x0f) == (do_packed(s0, p, k), FlowState::Next)) by {
        reveal(executed);
        reveal(map_0f);
    }
    reveal(load128);
}

/// The registers of a packed instruction between two of them: the one it changes before and after,
/// and the other.
pub open spec fn packed_change(s: CpuState, p: Prefix) -> (u128, u128, u128) {
    let (reg, rm) = decode_rm(fetch_byte(s).0, p.rex).1;
    (s.xmm[reg as int], s.xmm[rm->Reg_0 as int], executed(s, p, 0x0f).0.xmm[reg as int])
}

/// A packed instruction between two registers, by its second opcode byte.
pub open spec fn between_registers(s: CpuState, p: Prefix, op: u8) -> bool {
    &&& s.xmm.len() == 16
    &&& fetch_byte(s).1 == op
    &&& decode_rm(fetch_byte(s).0, p.rex).1.1 is Reg
}

proof fn lemma_lane_change(s: CpuState, p: Prefix, op: u8, f: LaneOp, size: u8, i: int)
    requires
        between_registers(s, p, op),
        packed_of(op, p.opsz) == Some(Packed::Lanes(f, size)),
        lane_op_ok(f, size),
        0 <= i,
        i * size < 16,
    ensures
        ({
            let (a, b, r) = packed_change(s, p);
            lane_num(r, i, size) == lane_result(
                f,
                lane_num(a, i, size) as u64,
                lane_num(b, i, size) as u64,
                size,
            )
        }),
        0 <= lane_num(packed_change(s, p).0, i, size) < modulus(size) <= 0x1_0000_0000_0000_0000,
        0 <= lane_num(packed_change(s, p).1, i, size) < modulus(size),
        0 <= lane_num(packed_change(s, p).2, i, size) < modulus(size),
{
    lemma_packed_form(s, p, Packed::Lanes(f, size));
    let (a, b, r) = packed_change(s, p);
    let n = lane_count(size);
    assert(n * size == 16) by {
        assert(16int / 1 == 16 && 16int / 2 == 8 && 16int / 4 == 4 && 16int / 8 == 2);
        if size == 1 {
        } else if size == 2 {
        } else if size == 4 {
        } else {
        }
    }
    assert(i < n) by (nonlinear_arith)
        requires
            i * size < 16,
            n * size == 16,
            size >= 1,
    ;
    law_lanes(f, a, b, size, n, i);
    law_lane(a, i, size);
    law_lane(b, i, size);
    law_lane(r, i, size);
    lemma_mask(0, size);
}

/// Packed sums and differences (`PADDB` to `PADDQ`, `PSUBB` to `PSUBQ`): each lane is the sum or the
/// difference of the lanes, modulo what a lane holds.
pub proof fn law_packed_sum(s: CpuState, p: Prefix, op: u8, i: int)
    requires
        between_registers(s, p, op),
        0xf8 <= op <= 0xfe || op == 0xd4,
        0 <= i,
        i * sum_size(op) < 16,
    ensures
        ({
            let size = sum_size(op);
            let (a, b, r) = packed_change(s, p);
            let x = lane_num(a, i, size);
            let y = lane_num(b, i, size);
            lane_num(r, i, size) == if 0xf8 <= op <= 0xfb { x - y } else { x + y } % modulus(size)
        }),
{
    let size = sum_size(op);
    let f = if 0xf8 <= op <= 0xfb { LaneOp::Minus } else { LaneOp::Plus };
    lemma_lane_change(s, p, op, f, size, i);
    let (a, b, r) = packed_change(s, p);
    vstd::arithmetic::div_mod::lemma_mod_bound(lane_num(a, i, size) + lane_num(b, i, size), modulus(size));
    vstd::arithmetic::div_mod::lemma_mod_bound(lane_num(a, i, size) - lane_num(b, i, size), modulus(size));
}

/// The lanes of the packed sums and differences.
pub open spec fn sum_size(op: u8) -> u8 {
    if op == 0xf8 || op == 0xfc {
        1
    } else if op == 0xf9 || op == 0xfd {
        2
    } else if op == 0xfa || op == 0xfe {
        4
    } else {
        8
    }
}

/// A number kept between two others.
pub open spec fn kept_between(x: int, lo: int, hi: int) -> int {
    if x < lo {
        lo
    } else if x > hi {
        hi
    } else {
        x
    }
}

/// Saturating sums and differences (`PADDUS`, `PSUBUS`, `PADDS`, `PSUBS` of bytes and words): what the
/// sum or the difference is, kept in the range of a lane.
pub proof fn law_packed_saturating(s: CpuState, p: Prefix, op: u8, i: int)
    requires
        between_registers(s, p, op),
        op == 0xd8 || op == 0xd9 || op == 0xdc || op == 0xdd || op == 0xe8 || op == 0xe9 || op == 0xec
            || op == 0xed,
        0 <= i,
        i * (if op % 2 == 0 { 1u8 } else { 2u8 }) < 16,
    ensures
        ({
            let size = if op % 2 == 0 { 1u8 } else { 2u8 };
            let m = modulus(size);
            let (a, b, r) = packed_change(s, p);
            let x = lane_num(a, i, size);
            let y = lane_num(b, i, size);
            let z = lane_num(r, i, size);
            if op < 0xe0 {
                z == kept_between(if op < 0xdc { x - y } else { x + y }, 0, m - 1)
            } else {
                signed(z, size) == kept_between(
                    if op < 0xec {
                        signed(x, size) - signed(y, size)
                    } else {
                        signed(x, size) + signed(y, size)
                    },
                    -m / 2,
                    m / 2 - 1,
                )
            }
        }),
{
    let size = if op % 2 == 0 { 1u8 } else { 2u8 };
    let f = if op < 0xda {
        LaneOp::MinusUnsigned
    } else if op < 0xe0 {
        LaneOp::PlusUnsigned
    } else if op < 0xec {
        LaneOp::MinusSigned
    } else {
        LaneOp::PlusSigned
    };
    lemma_lane_change(s, p, op, f, size, i);
    let (a, b, r) = packed_change(s, p);
    lemma_signed(lane_num(a, i, size) as u64, size);
    lemma_signed(lane_num(b, i, size) as u64, size);
    lemma_mod_once(lane_num(a, i, size), modulus(size));
    lemma_mod_once(lane_num(b, i, size), modulus(size));
}

/// Comparisons (`PCMPEQ`, `PCMPGT`): all ones where they hold, and zero.
pub proof fn law_packed_compare(s: CpuState, p: Prefix, op: u8, i: int)
    requires
        between_registers(s, p, op),
        0x64 <= op <= 0x66 || 0x74 <= op <= 0x76,
        0 <= i,
        i * compare_size(op) < 16,
    ensures
        ({
            let size = compare_size(op);
            let (a, b, r) = packed_change(s, p);
            let x = lane_num(a, i, size);
            let y = lane_num(b, i, size);
            let holds = if op >= 0x74 { x == y } else { signed(x, size) > signed(y, size) };
            lane_num(r, i, size) == if holds { modulus(size) - 1 } else { 0 }
        }),
{
    let size = compare_size(op);
    lemma_lane_change(s, p, op, if op >= 0x74 { LaneOp::Equal } else { LaneOp::Greater }, size, i);
    let (a, b, r) = packed_change(s, p);
    lemma_signed(lane_num(a, i, size) as u64, size);
    lemma_signed(lane_num(b, i, size) as u64, size);
    lemma_mod_once(lane_num(a, i, size), modulus(size));
    lemma_mod_once(lane_num(b, i, size), modulus(size));
}

/// The lanes of the comparisons.
pub open spec fn compare_size(op: u8) -> u8 {
    if op % 4 == 0 {
        1
    } else if op % 4 == 1 {
        2
    } else {
        4
    }
}

/// Least and greatest lanes (`PMINUB`, `PMAXUB`, `PMINSW`, `PMAXSW`): one of the two, and no other is
/// less, or greater.
pub proof fn law_packed_extremes(s: CpuState, p: Prefix, op: u8, i: int)
    requires
        between_registers(s, p, op),
        op == 0xda || op == 0xde || op == 0xea || op == 0xee,
        0 <= i,
        i * (if op < 0xe0 { 1u8 } else { 2u8 }) < 16,
    ensures
        ({
            let size = if op < 0xe0 { 1u8 } else { 2u8 };
            let (a, b, r) = packed_change(s, p);
            let x = lane_num(a, i, size);
            let y = lane_num(b, i, size);
            let z = lane_num(r, i, size);
            &&& z == x || z == y
            &&& op == 0xda ==> z <= x && z <= y
            &&& op == 0xde ==> z >= x && z >= y
            &&& op == 0xea ==> signed(z, 2) <= signed(x, 2) && signed(z, 2) <= signed(y, 2)
            &&& op == 0xee ==> signed(z, 2) >= signed(x, 2) && signed(z, 2) >= signed(y, 2)
        }),
{
    let size = if op < 0xe0 { 1u8 } else { 2u8 };
    let f = if op == 0xda {
        LaneOp::MinUnsigned
    } else if op == 0xde {
        LaneOp::MaxUnsigned
    } else if op == 0xea {
        LaneOp::MinSigned
    } else {
        LaneOp::MaxSigned
    };
    lemma_lane_change(s, p, op, f, size, i);
    let (a, b, r) = packed_change(s, p);
    lemma_signed(lane_num(a, i, size) as u64, size);
    lemma_signed(lane_num(b, i, size) as u64, size);
    lemma_mod_once(lane_num(a, i, size), modulus(size));
    lemma_mod_once(lane_num(b, i, size), modulus(size));
}

/// Averages (`PAVGB`, `PAVGW`), rounded up, and products of words: the low half (`PMULLW`), and the
/// high half, unsigned (`PMULHUW`) and signed (`PMULHW`).
pub proof fn law_packed_products(s: CpuState, p: Prefix, op: u8, i: int)
    requires
        between_registers(s, p, op),
        op == 0xe0 || op == 0xe3 || op == 0xd5 || op == 0xe4 || op == 0xe5,
        0 <= i,
        i * (if op == 0xe0 { 1u8 } else { 2u8 }) < 16,
    ensures
        ({
            let size = if op == 0xe0 { 1u8 } else { 2u8 };
            let (a, b, r) = packed_change(s, p);
            let x = lane_num(a, i, size);
            let y = lane_num(b, i, size);
            let z = lane_num(r, i, size);
            &&& op == 0xe0 || op == 0xe3 ==> 2 * z == x + y || 2 * z == x + y + 1
            &&& op == 0xd5 ==> z == (x * y) % 0x1_0000
            &&& op == 0xe4 ==> z == (x * y) / 0x1_0000
            &&& op == 0xe5 ==> signed(z, 2) == (signed(x, 2) * signed(y, 2)) / 0x1_0000
        }),
{
    let size = if op == 0xe0 { 1u8 } else { 2u8 };
    let f = if op == 0xe0 || op == 0xe3 {
        LaneOp::Average
    } else if op == 0xd5 {
        LaneOp::TimesLow
    } else if op == 0xe4 {
        LaneOp::TimesHigh
    } else {
        LaneOp::TimesHighSigned
    };
    lemma_lane_change(s, p, op, f, size, i);
    let (a, b, r) = packed_change(s, p);
    let x = lane_num(a, i, size);
    let y = lane_num(b, i, size);
    lemma_signed(x as u64, size);
    lemma_signed(y as u64, size);
    lemma_mod_once(x, modulus(size));
    lemma_mod_once(y, modulus(size));
    if size == 2 {
        crate::simd::lemma_signed_word_product(signed(x, 2), signed(y, 2));
        assert(0 <= x * y < 0x1_0000_0000) by (nonlinear_arith)
            requires
                0 <= x < 0x1_0000,
                0 <= y < 0x1_0000,
        ;
        let h = (signed(x, 2) * signed(y, 2)) / 0x1_0000;
        lemma_mod_once(h, 0x1_0000);
        lemma_mod_once(h + 0x1_0000, 0x1_0000);
        vstd::arithmetic::div_mod::lemma_mod_add_multiples_vanish(h, 0x1_0000);
    }
}

/// The logic on whole registers (`PAND`, `PANDN`, `POR`, `PXOR` and their forms for floats), bit by
/// bit.
pub proof fn law_packed_logic(s: CpuState, p: Prefix, op: u8, i: u128)
    requires
        between_registers(s, p, op),
        0x54 <= op <= 0x57 || op == 0xdb || op == 0xdf || op == 0xeb || op == 0xef,
        i < 128,
    ensures
        ({
            let (a, b, r) = packed_change(s, p);
            let x = bit_of(a, i);
            let y = bit_of(b, i);
            bit_of(r, i) == if op == 0x54 || op == 0xdb {
                x && y
            } else if op == 0x55 || op == 0xdf {
                !x && y
            } else if op == 0x56 || op == 0xeb {
                x || y
            } else {
                x != y
            }
        }),
{
    let k = packed_of(op, p.opsz)->0;
    lemma_packed_form(s, p, k);
    let (a, b, r) = packed_change(s, p);
    lemma_wide_bits(a, b, i);
    lemma_wide_bits(!a, b, i);
}

// ----- lanes moved -----

/// Lanes of two words alternate (`PUNPCKL`, `PUNPCKH`): from the low halves, or from the high ones.
pub proof fn law_interleaved(d: u128, s: u128, size: u8, high: bool, n: nat, i: int)
    requires
        size == 1 || size == 2 || size == 4,
        n * size <= 8,
        0 <= i,
        i * size < 16,
    ensures
        ({
            let base = if high { 8int / size as int } else { 0 };
            lane(interleaved(d, s, size, high, n), i, size) == if i >= 2 * n {
                0
            } else if i % 2 == 0 {
                lane(d, base + i / 2, size)
            } else {
                lane(s, base + i / 2, size)
            }
        }),
        clear_from(interleaved(d, s, size, high, n), 2 * n as int, size),
    decreases n,
{
    let base = if high { 8int / size as int } else { 0 };
    if n == 0 {
        lemma_nothing(size, i);
    } else {
        let j = n - 1;
        lemma_halves(size, base, j);
        law_interleaved(d, s, size, high, j as nat, i);
        law_lane(d, base + j, size);
        law_lane(s, base + j, size);
        let x = interleaved(d, s, size, high, j as nat);
        let v = lane(d, base + j, size);
        let w = lane(s, base + j, size);
        lemma_put(x, v, 2 * j, size, i);
        lemma_put(x | placed(v, 2 * j, size), w, 2 * j + 1, size, i);
    }
}

proof fn lemma_halves(size: u8, base: int, j: int)
    requires
        size == 1 || size == 2 || size == 4,
        base == 0 || base == 8int / size as int,
        0 <= j,
        (j + 1) * size <= 8,
    ensures
        0 <= base + j,
        (base + j) * size < 16,
        (2 * j + 1) * size < 16,
        2 * j * size < 16,
        j * size <= 8,
{
    if size == 1 {
    } else if size == 2 {
    } else {
    }
}

/// `PUNPCKLBW` to `PUNPCKHDQ` between two registers: lanes of the two alternate, the first one's
/// first.
pub proof fn law_unpack(s: CpuState, p: Prefix, op: u8, i: int)
    requires
        between_registers(s, p, op),
        0x60 <= op <= 0x62 || 0x68 <= op <= 0x6a,
        0 <= i,
        i * unpack_size(op) < 16,
    ensures
        ({
            let size = unpack_size(op);
            let (a, b, r) = packed_change(s, p);
            let base = if op >= 0x68 { 8int / size as int } else { 0 };
            lane_num(r, i, size) == lane_num(if i % 2 == 0 { a } else { b }, base + i / 2, size)
        }),
{
    let size = unpack_size(op);
    let high = op >= 0x68;
    lemma_packed_form(s, p, Packed::Interleave(size, high));
    let (a, b, r) = packed_change(s, p);
    let n = (8int / size as int) as nat;
    let base = if high { 8int / size as int } else { 0 };
    assert(n * size == 8 && 0 <= base + i / 2 && (base + i / 2) * size < 16 && i < 2 * n) by {
        if size == 1 {
        } else if size == 2 {
        } else {
        }
    }
    law_interleaved(a, b, size, high, n, i);
    law_lane(r, i, size);
    law_lane(a, base + i / 2, size);
    law_lane(b, base + i / 2, size);
}

/// The lanes of the unpacking instructions.
pub open spec fn unpack_size(op: u8) -> u8 {
    if op % 8 == 0 {
        1
    } else if op % 8 == 1 {
        2
    } else {
        4
    }
}

/// Lanes narrowed to half their width, each kept in its range.
proof fn lemma_packed_lanes(d: u128, s: u128, size: u8, sign: bool, n: nat, i: int)
    requires
        size == 2 || size == 4,
        n * size <= 32,
        0 <= i,
        i * size < 32,
    ensures
        ({
            let k = lane_count(size);
            lane(packed(d, s, size, sign, n), i, (size / 2) as u8) == if i >= n {
                0
            } else {
                narrowed(if i < k { lane(d, i, size) } else { lane(s, i - k, size) }, size, sign)
            }
        }),
        clear_from(packed(d, s, size, sign, n), n as int, (size / 2) as u8),
    decreases n,
{
    let half = (size / 2) as u8;
    if n == 0 {
        assert(i * half < 16) by {
            if size == 2 {
            } else {
            }
        }
        lemma_nothing(half, i);
    } else {
        let j = n - 1;
        let k = lane_count(size);
        assert(j * size <= 32 && j * half < 16 && i * half < 16 && (j < k ==> j * size < 16) && (j >= k ==> 0 <= j
            - k && (j - k) * size < 16)) by {
            if size == 2 {
            } else {
            }
        }
        lemma_packed_lanes(d, s, size, sign, j as nat, i);
        let v = if j < k { lane(d, j, size) } else { lane(s, j - k, size) };
        if j < k {
            law_lane(d, j, size);
        } else {
            law_lane(s, j - k, size);
        }
        lemma_signed(v, size);
        assert(narrowed(v, size, sign) < modulus(half));
        lemma_put(packed(d, s, size, sign, j as nat), narrowed(v, size, sign), j, half, i);
    }
}

/// `PACKSSWB`, `PACKSSDW` and `PACKUSWB`: the lanes of the first register and then those of the second,
/// as signed numbers, each kept in the range of half its width.
pub proof fn law_pack(s: CpuState, p: Prefix, op: u8, i: int)
    requires
        between_registers(s, p, op),
        op == 0x63 || op == 0x67 || op == 0x6b,
        0 <= i,
        i * (if op == 0x6b { 2u8 } else { 1u8 }) < 16,
    ensures
        ({
            let half = if op == 0x6b { 2u8 } else { 1u8 };
            let size = if op == 0x6b { 4u8 } else { 2u8 };
            let n = 16int / size as int;
            let (a, b, r) = packed_change(s, p);
            let x = signed(if i < n { lane_num(a, i, size) } else { lane_num(b, i - n, size) }, size);
            let z = lane_num(r, i, half);
            let m = modulus(half);
            if op == 0x67 {
                z == kept_between(x, 0, m - 1)
            } else {
                signed(z, half) == kept_between(x, -m / 2, m / 2 - 1)
            }
        }),
{
    let half = if op == 0x6b { 2u8 } else { 1u8 };
    let size = if op == 0x6b { 4u8 } else { 2u8 };
    let n = lane_count(size);
    let sign = op != 0x67;
    lemma_packed_form(s, p, Packed::Pack(size, sign));
    let (a, b, r) = packed_change(s, p);
    assert(2 * n * size == 32 && i * size < 32 && i < 2 * n && (i < n ==> i * size < 16) && (i >= n ==> 0 <= i - n
        && (i - n) * size < 16)) by {
        if half == 1 {
            assert(16int / 2 == 8);
            assert(size == 2 && n == 8);
            assert(2 * n * size == 32 && i * half == i && i * size == 2 * i && (i - n) * size == 2 * (i - n)) by (nonlinear_arith)
                requires
                    size == 2,
                    half == 1,
                    n == 8,
            ;
        } else {
            assert(16int / 4 == 4);
            assert(size == 4 && n == 4);
            assert(2 * n * size == 32 && i * half == 2 * i && i * size == 4 * i && (i - n) * size == 4 * (i - n)) by (nonlinear_arith)
                requires
                    size == 4,
                    half == 2,
                    n == 4,
            ;
        }
    }
    lemma_packed_lanes(a, b, size, sign, 2 * n, i);
    law_lane(r, i, half);
    let v = if i < n { lane(a, i, size) } else { lane(b, i - n, size) };
    if i < n {
        law_lane(a, i, size);
    } else {
        law_lane(b, i - n, size);
    }
    lemma_signed(v, size);
    lemma_mod_once(v as int, modulus(size));
}

/// Four lanes chosen by the two-bit fields of an immediate.
proof fn lemma_chosen(d: u128, s: u128, imm: u8, size: u8, i: int)
    requires
        size == 2 || size == 4,
        0 <= i < 4,
    ensures
        lane(chosen(d, s, imm, size), i, size) == lane(if i < 2 { d } else { s }, selector(imm, i), size),
        clear_from(chosen(d, s, imm, size), 4, size),
{
    lemma_nothing(size, i);
    let a = lane(d, selector(imm, 0), size);
    let b = lane(d, selector(imm, 1), size);
    let c = lane(s, selector(imm, 2), size);
    let e = lane(s, selector(imm, 3), size);
    assert(forall|k: int| 0 <= k < 4 ==> #[trigger] (k * size) < 16) by {
        if size == 2 {
        } else {
        }
    }
    assert(0 <= selector(imm, 0) < 4 && 0 <= selector(imm, 1) < 4 && 0 <= selector(imm, 2) < 4 && 0 <= selector(
        imm,
        3,
    ) < 4);
    assert(selector(imm, 0) * size < 16 && selector(imm, 1) * size < 16 && selector(imm, 2) * size < 16
        && selector(imm, 3) * size < 16 && i * size < 16);
    law_lane(d, selector(imm, 0), size);
    law_lane(d, selector(imm, 1), size);
    law_lane(s, selector(imm, 2), size);
    law_lane(s, selector(imm, 3), size);
    let x1 = placed(a, 0, size);
    lemma_put(0, a, 0, size, i);
    lemma_wide_bits(x1, 0, 0);
    assert(0u128 | x1 == x1) by {
        crate::bit_facts::lemma_wide_parts(x1, 0);
    }
    let x2 = x1 | placed(b, 1, size);
    let x3 = x2 | placed(c, 2, size);
    lemma_put(x1, b, 1, size, i);
    lemma_put(x2, c, 2, size, i);
    lemma_put(x3, e, 3, size, i);
}

/// `PSHUFD` between registers: doubleword `i` is the one that the `i`-th two-bit field of the immediate
/// names; `SHUFPS` takes the first two from the register itself.
pub proof fn law_shuffles(s: CpuState, p: Prefix, op: u8, i: int)
    requires
        between_registers(s, p, op),
        op == 0x70 || op == 0xc6,
        op == 0x70 ==> p.rep is Plain,
        op == 0xc6 ==> !p.opsz,
        0 <= i < 4,
    ensures
        ({
            let imm = fetch_byte(decode_rm(fetch_byte(s).0, p.rex).0).1 as int;
            let field = (imm / (if i == 0 { 1int } else if i == 1 { 4 } else if i == 2 { 16 } else { 64 })) % 4;
            let (a, b, r) = packed_change(s, p);
            lane_num(r, i, 4) == lane_num(if op == 0x70 || i >= 2 { b } else { a }, field, 4)
        }),
{
    let s0 = fetch_byte(s).0;
    law_fetch(s, 0);
    lemma_decoded(s0, p.rex);
    let (s1, (reg, rm)) = decode_rm(s0, p.rex);
    law_fetch(s1, 0);
    let imm = fetch_byte(s1).1;
    let k = rm->Reg_0 as int;
    let x = s.xmm[reg as int];
    let y = s.xmm[k];
    assert(executed(s, p, 0x0f).0 == if op == 0x70 { do_shuffle(s0, p) } else { do_shuffle_pair(s0, p) }) by {
        reveal(executed);
        reveal(map_0f);
        reveal(map_0f_mid);
        reveal(map_0f_c_f);
    }
    let d = if op == 0x70 { y } else { x };
    let r = packed_change(s, p).2;
    let s2 = fetch_byte(s1).0;
    assert(s2.xmm == s.xmm);
    reveal(load128);
    assert(r == (if op == 0x70 { shuffled(p.rep, y, imm) } else { chosen(x, y, imm, 4) }));
    assert(r == chosen(d, y, imm, 4));
    lemma_chosen(d, y, imm, 4, i);
    law_lane(r, i, 4);
    law_lane(d, selector(imm, i), 4);
    law_lane(y, selector(imm, i), 4);
}

// ----- shifts of lanes -----

proof fn lemma_shifted_fits(op: ShiftOp, a: u64, cnt: u64, size: u8)
    requires
        is_width(size),
        a < modulus(size),
    ensures
        lane_shifted(op, a, cnt, size) < modulus(size),
{
    let bits = width_bits(size);
    if op is Right && cnt < bits {
        vstd::bits::lemma_u64_shr_is_div(a, cnt);
        vstd::arithmetic::power2::lemma_pow2_pos(cnt as nat);
        vstd::arithmetic::div_mod::lemma_div_nonincreasing(
            a as int,
            vstd::arithmetic::power2::pow2(cnt as nat) as int,
        );
    } else if op is Left {
        lemma_mask(a << cnt, size);
        lemma_mask(0, size);
    } else {
        let c = if cnt >= bits { (bits - 1) as u64 } else { cnt };
        lemma_mask(((signed_of(a, size) as i64) >> c) as u64, size);
    }
}

proof fn lemma_shifted_lanes(op: ShiftOp, x: u128, cnt: u64, size: u8, n: nat, i: int)
    requires
        is_width(size),
        n * size <= 16,
        0 <= i,
        i * size < 16,
    ensures
        lane(lanes_shifted(op, x, cnt, size, n), i, size) == if i < n {
            lane_shifted(op, lane(x, i, size), cnt, size)
        } else {
            0
        },
        clear_from(lanes_shifted(op, x, cnt, size, n), n as int, size),
    decreases n,
{
    if n == 0 {
        lemma_nothing(size, i);
    } else {
        let j = n - 1;
        assert(j * size < 16 && j * size <= 16) by (nonlinear_arith)
            requires
                (j + 1) * size <= 16,
                size >= 1,
        ;
        lemma_shifted_lanes(op, x, cnt, size, j as nat, i);
        law_lane(x, j, size);
        lemma_shifted_fits(op, lane(x, j, size), cnt, size);
        lemma_put(
            lanes_shifted(op, x, cnt, size, j as nat),
            lane_shifted(op, lane(x, j, size), cnt, size),
            j,
            size,
            i,
        );
    }
}

/// Bit `i` of a lane shifted by `c` places: to the left (`4`), to the right (`5`), or to the right with
/// the sign (`7`). Beyond the lane there are zeros, or the sign.
proof fn lemma_lane_shift_bits(op: ShiftOp, a: u64, c: u64, size: u8, i: u64)
    requires
        size == 2 || size == 4 || size == 8,
        a < modulus(size),
        i < 8 * size,
    ensures
        bit_at(lane_shifted(op, a, c, size), i) == shifted_in(op, a, c as int, size, i as int),
{
    let bits = width_bits(size);
    let ext = if op is Left { 4u8 } else if op is Right { 5u8 } else { 7u8 };
    if c < bits {
        law_shifted_bit(ext, a, c, size, i);
    } else if op is RightSigned {
        law_shifted_bit(7, a, (bits - 1) as u64, size, i);
    } else {
        law_shifted_bit(5, 0, 1, size, i);
        crate::shift_laws::lemma_zero_bit(i);
        crate::bits::lemma_low_bits(0);
        lemma_mask(0, size);
        if op is Left && c < 64 {
            crate::shift_laws::lemma_pushed_out(a, c, size, i);
        }
    }
}

/// What bit `i` of a shifted lane holds.
pub open spec fn shifted_in(op: ShiftOp, a: u64, c: int, size: u8, i: int) -> bool {
    let n = 8 * size;
    match op {
        ShiftOp::Left => i >= c && bit_at(a, (i - c) as u64),
        ShiftOp::Right => i + c < n && bit_at(a, (i + c) as u64),
        ShiftOp::RightSigned => bit_at(a, (if i + c < n { i + c } else { n - 1 }) as u64),
    }
}

/// `PSRLW` to `PSLLQ` by an immediate: each lane is shifted by itself, zeros or the sign coming in.
pub proof fn law_lane_shifts(s: CpuState, p: Prefix, op: u8, j: int, i: u64)
    requires
        s.xmm.len() == 16,
        fetch_byte(s).1 == op,
        0x71 <= op <= 0x73,
        ({
            let (reg, rm) = decode_rm(fetch_byte(s).0, p.rex).1;
            rm is Reg && (reg % 8 == 2 || reg % 8 == 4 || reg % 8 == 6)
        }),
        0 <= j,
        j * (if op == 0x71 { 2u8 } else if op == 0x72 { 4u8 } else { 8u8 }) < 16,
        i < 8 * (if op == 0x71 { 2u8 } else if op == 0x72 { 4u8 } else { 8u8 }),
    ensures
        ({
            let size = if op == 0x71 { 2u8 } else if op == 0x72 { 4u8 } else { 8u8 };
            let (s1, (reg, rm)) = decode_rm(fetch_byte(s).0, p.rex);
            let k = rm->Reg_0 as int;
            let c = fetch_byte(s1).1 as int;
            let f = if reg % 8 == 6 { ShiftOp::Left } else if reg % 8 == 2 { ShiftOp::Right } else { ShiftOp::RightSigned };
            let t = executed(s, p, 0x0f).0;
            bit_at(lane_num(t.xmm[k], j, size) as u64, i) == shifted_in(
                f,
                lane_num(s.xmm[k], j, size) as u64,
                c,
                size,
                i as int,
            )
        }),
{
    let size = if op == 0x71 { 2u8 } else if op == 0x72 { 4u8 } else { 8u8 };
    let s0 = fetch_byte(s).0;
    law_fetch(s, 0);
    lemma_decoded(s0, p.rex);
    let (s1, (reg, rm)) = decode_rm(s0, p.rex);
    law_fetch(s1, 0);
    let k = rm->Reg_0 as int;
    let c = fetch_byte(s1).1;
    let f = if reg % 8 == 6 { ShiftOp::Left } else if reg % 8 == 2 { ShiftOp::Right } else { ShiftOp::RightSigned };
    let x = s.xmm[k];
    let n = lane_count(size);
    assert(executed(s, p, 0x0f).0 == do_shift_imm(s0, p, op).0) by {
        reveal(executed);
        reveal(map_0f);
        reveal(map_0f_mid);
    }
    assert(executed(s, p, 0x0f).0.xmm[k] == lanes_shifted(f, x, c as u64, size, n));
    assert(n * size == 16 && j < n) by {
        if size == 2 {
        } else if size == 4 {
        } else {
        }
    }
    lemma_shifted_lanes(f, x, c as u64, size, n, j);
    law_lane(x, j, size);
    law_lane(lanes_shifted(f, x, c as u64, size, n), j, size);
    lemma_lane_shift_bits(f, lane(x, j, size), c as u64, size, i);
}

/// `PSRLW` to `PSLLQ` by a register: the count is the low quadword of the other register.
pub proof fn law_lane_shifts_by_register(s: CpuState, p: Prefix, op: u8, j: int, i: u64)
    requires
        between_registers(s, p, op),
        0xd1 <= op <= 0xd3 || op == 0xe1 || op == 0xe2 || 0xf1 <= op <= 0xf3,
        0 <= j,
        j * (if op % 4 == 1 { 2u8 } else if op % 4 == 2 { 4u8 } else { 8u8 }) < 16,
        i < 8 * (if op % 4 == 1 { 2u8 } else if op % 4 == 2 { 4u8 } else { 8u8 }),
    ensures
        ({
            let size = if op % 4 == 1 { 2u8 } else if op % 4 == 2 { 4u8 } else { 8u8 };
            let f = if op >= 0xf1 { ShiftOp::Left } else if op < 0xe0 { ShiftOp::Right } else { ShiftOp::RightSigned };
            let (a, b, r) = packed_change(s, p);
            bit_at(lane_num(r, j, size) as u64, i) == shifted_in(
                f,
                lane_num(a, j, size) as u64,
                lane_num(b, 0, 8),
                size,
                i as int,
            )
        }),
{
    let size = if op % 4 == 1 { 2u8 } else if op % 4 == 2 { 4u8 } else { 8u8 };
    let f = if op >= 0xf1 { ShiftOp::Left } else if op < 0xe0 { ShiftOp::Right } else { ShiftOp::RightSigned };
    lemma_packed_form(s, p, Packed::Shift(f, size));
    let (a, b, r) = packed_change(s, p);
    let n = lane_count(size);
    assert(n * size == 16 && j < n) by {
        if size == 2 {
        } else if size == 4 {
        } else {
        }
    }
    lemma_low_quad(b);
    lemma_shifted_lanes(f, a, b as u64, size, n, j);
    law_lane(a, j, size);
    law_lane(r, j, size);
    lemma_lane_shift_bits(f, lane(a, j, size), b as u64, size, i);
}

/// The low quadword.
pub proof fn lemma_low_quad(x: u128)
    ensures
        x as u64 == lane_num(x, 0, 8),
        high64(x) == lane_num(x, 1, 8),
{
    law_lane(x, 0, 8);
    law_lane(x, 1, 8);
    lemma_wide_bits(x, 0, 0);
    lemma_bits_of(x as u64, 0, 0);
    lemma_bits_of((x >> 64) as u64, 0, 0);
    assert(8 * 8u8 * 0 == 0 && 8 * 8u8 * 1 == 64);
}

// ----- quadwords -----

pub proof fn lemma_joined(lo: u64, hi: u64)
    ensures
        lane_num(joined(lo, hi), 0, 8) == lo,
        lane_num(joined(lo, hi), 1, 8) == hi,
{
    let x = lo as u128;
    crate::bit_facts::lemma_wide_parts(x, lo);
    crate::bit_facts::lemma_wide_parts(x, hi);
    law_lane(joined(lo, hi), 0, 8);
    law_lane(joined(lo, hi), 1, 8);
    assert(8 * 8u8 * 0 == 0 && 8 * 8u8 * 1 == 64);
    lemma_put(x, hi, 1, 8, 0);
    lemma_put(x, hi, 1, 8, 1);
    law_lane(x, 0, 8);
    lemma_wide_bits(x, 0, 0);
    lemma_bits_of(lo, 0, 0);
}

/// `PUNPCKLQDQ`, `PUNPCKHQDQ` (and `UNPCKLPD`, `UNPCKHPD`) join the low, or high, quadwords of two
/// registers; `PMULUDQ` multiplies the low doublewords of each half.
pub proof fn law_quadwords(s: CpuState, p: Prefix, op: u8)
    requires
        between_registers(s, p, op),
        op == 0x6c || op == 0x6d || op == 0xf4 || (p.opsz && (op == 0x14 || op == 0x15)),
    ensures
        ({
            let (a, b, r) = packed_change(s, p);
            let h = if op == 0x6c || op == 0x14 { 0int } else { 1 };
            &&& op != 0xf4 ==> lane_num(r, 0, 8) == lane_num(a, h, 8) && lane_num(r, 1, 8) == lane_num(b, h, 8)
            &&& op == 0xf4 ==> lane_num(r, 0, 8) == lane_num(a, 0, 4) * lane_num(b, 0, 4)
            &&& op == 0xf4 ==> lane_num(r, 1, 8) == lane_num(a, 2, 4) * lane_num(b, 2, 4)
        }),
{
    let k = packed_of(op, p.opsz)->0;
    lemma_packed_form(s, p, k);
    let (a, b, r) = packed_change(s, p);
    lemma_low_quad(a);
    lemma_low_quad(b);
    law_lane(a, 0, 4);
    law_lane(b, 0, 4);
    law_lane(a, 2, 4);
    law_lane(b, 2, 4);
    let x = lane(a, 0, 4) as int;
    let y = lane(b, 0, 4) as int;
    let z = lane(a, 2, 4) as int;
    let w = lane(b, 2, 4) as int;
    assert(0 <= x * y < 0x1_0000_0000_0000_0000 && 0 <= z * w < 0x1_0000_0000_0000_0000) by (nonlinear_arith)
        requires
            0 <= x < 0x1_0000_0000,
            0 <= y < 0x1_0000_0000,
            0 <= z < 0x1_0000_0000,
            0 <= w < 0x1_0000_0000,
    ;
    lemma_joined(a as u64, b as u64);
    lemma_joined(high64(a), high64(b));
    lemma_joined((x * y) as u64, (z * w) as u64);
}

/// A 128-bit operand in memory: the low quadword stands first.
pub proof fn law_wide_load(s: CpuState, a: u64)
    ensures
        ({
            let (t, x) = load128(s, Rm::Mem(a));
            let (u, lo) = mem_read(s, a, 8);
            &&& lane_num(x, 0, 8) == lo
            &&& lane_num(x, 1, 8) == mem_read(u, a.wrapping_add(8), 8).1
        }),
{
    let (u, lo) = mem_read(s, a, 8);
    let hi = mem_read(u, a.wrapping_add(8), 8).1;
    lemma_joined(lo, hi);
    reveal(load128);
    assert(load128(s, Rm::Mem(a)).1 == joined(lo, hi));
}

// ----- moves -----

/// Whole registers are moved whole, both ways (`MOVAPS`, `MOVDQA`, `MOVUPS`).
pub proof fn law_wide_moves(s: CpuState, p: Prefix, op: u8)
    requires
        between_registers(s, p, op),
        op == 0x28 || op == 0x29 || op == 0x6f || op == 0x7f || (p.rep is Plain && (op == 0x10 || op == 0x11)),
    ensures
        ({
            let (reg, rm) = decode_rm(fetch_byte(s).0, p.rex).1;
            let i = rm->Reg_0 as int;
            let t = executed(s, p, 0x0f).0;
            if op == 0x28 || op == 0x6f || op == 0x10 {
                t.xmm == s.xmm.update(reg as int, s.xmm[i])
            } else {
                t.xmm == s.xmm.update(i, s.xmm[reg as int])
            }
        }),
{
    let s0 = fetch_byte(s).0;
    law_fetch(s, 0);
    lemma_decoded(s0, p.rex);
    assert(executed(s, p, 0x0f).0 == if op == 0x10 {
        do_mov_load(s0, p)
    } else if op == 0x11 {
        do_mov_store(s0, p)
    } else {
        do_mov_whole(s0, p, op == 0x29 || op == 0x7f)
    }) by {
        reveal(executed);
        reveal(map_0f);
        reveal(map_0f_low);
        reveal(map_0f_mid);
    }
    reveal(load128);
    reveal(store128);
}

/// `MOVSD` and `MOVSS` between registers change the low quadword, or doubleword, and nothing else of
/// the register.
pub proof fn law_scalar_moves(s: CpuState, p: Prefix)
    requires
        between_registers(s, p, 0x10),
        p.rep !is Plain,
    ensures
        ({
            let (a, b, r) = packed_change(s, p);
            &&& p.rep is Repne ==> lane_num(r, 0, 8) == lane_num(b, 0, 8) && lane_num(r, 1, 8) == lane_num(a, 1, 8)
            &&& p.rep is Rep ==> lane_num(r, 0, 4) == lane_num(b, 0, 4) && r / 0x1_0000_0000 == a / 0x1_0000_0000
        }),
{
    let s0 = fetch_byte(s).0;
    law_fetch(s, 0);
    lemma_decoded(s0, p.rex);
    assert(executed(s, p, 0x0f).0 == do_mov_load(s0, p)) by {
        reveal(executed);
        reveal(map_0f);
        reveal(map_0f_low);
    }
    let (a, b, r) = packed_change(s, p);
    reveal(load32);
    reveal(load64);
    assert(r == (if p.rep is Rep { with_low32(a, (b as u32) as u64) } else { with_low64(a, b as u64) }));
    lemma_low_quad(a);
    lemma_low_quad(b);
    lemma_low_quad(r);
    crate::bit_facts::lemma_wide_parts(a, b as u64);
    crate::bit_facts::lemma_wide_parts(a, (b as u32) as u64);
    crate::bit_facts::lemma_wide_parts(b, 0);
    law_lane(r, 0, 4);
    law_lane(b, 0, 4);
    lemma_wide_bits(r, 0, 0);
    lemma_wide_bits(b, 0, 0);
    assert(8 * 4u8 * 0 == 0);
}

} // verus!
