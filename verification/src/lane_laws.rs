//! Laws of the instructions that move lanes, and of the requests for floating-point arithmetic.
use vstd::prelude::*;
#[allow(unused_imports)]
use crate::bit_facts::{lemma_inserted, lemma_wide_bits, lemma_wide_parts};
#[allow(unused_imports)]
use crate::bits::{lemma_mask, mask_of, modulus};
#[allow(unused_imports)]
use crate::cpu::CpuState;
#[allow(unused_imports)]
use crate::decode::{wide, FpOp, Prefix};
#[allow(unused_imports)]
use crate::fpu_ops::predicate;
#[allow(unused_imports)]
use crate::memory_laws::law_register_write;
#[allow(unused_imports)]
use crate::mmu::fetch_byte;
#[allow(unused_imports)]
use crate::operand::{decode_rm, load128, load32, load64, load_operand, reg_value, store_operand};
#[allow(unused_imports)]
use crate::operand_laws::{
    bit_at, law_fetch, lemma_bits_of, lemma_decoded, lemma_flags_at, lemma_mod_once, lemma_signed,
    part, signed,
};
#[allow(unused_imports)]
use crate::shift_laws::lemma_zero_bit;
#[allow(unused_imports)]
use crate::simd::{
    byte_distance, high64, lane, multiply_added, placed, top_bits, with_high64, with_low64,
};
#[allow(unused_imports)]
use crate::sse_ops::{
    do_arith, do_extract_word, do_insert_word, do_mov_half_load, do_movd_load, do_movd_store,
    do_move_mask, packed_of,
};
#[allow(unused_imports)]
use crate::step::{executed, map_0f, map_0f_c_f, map_0f_low, map_0f_mid};
#[allow(unused_imports)]
use crate::vector_laws::{
    between_registers, clear_from, lane_num, law_lane, lemma_joined, lemma_low_quad, lemma_nothing,
    lemma_packed_form, lemma_put, packed_change, xmm_byte,
};

verus! {

// ----- bytes and words of a register -----

/// The top bits of the lowest bytes, as the bits of a number.
proof fn lemma_top_bits(x: u128, n: nat, i: u64)
    requires
        n <= 16,
        i < 64,
    ensures
        bit_at(top_bits(x, n), i) == (i < n && xmm_byte(x, i as int) >= 0x80),
    decreases n,
{
    if n == 0 {
        lemma_zero_bit(i);
    } else {
        let j = n - 1;
        lemma_top_bits(x, j as nat, i);
        law_lane(x, j, 1);
        let v = lane(x, j, 1);
        lemma_flags_at(0, v, 0);
        crate::bit_facts::lemma_bits_of_words(v, 0, 0, false, false);
        crate::bit_facts::lemma_bits_of_words(j as u64, i, 0, false, false);
        lemma_bits_of(top_bits(x, j as nat), 1u64 << (j as u64), i);
    }
}

/// `PMOVMSKB`: bit `i` of the general register is the top bit of byte `i`; the bits from 16 on are
/// zero.
pub proof fn law_move_mask(s: CpuState, p: Prefix, i: u64)
    requires
        between_registers(s, p, 0xd7),
        s.r.len() == 16,
        i < 64,
    ensures
        ({
            let (reg, rm) = decode_rm(fetch_byte(s).0, p.rex).1;
            let t = executed(s, p, 0x0f).0;
            bit_at(t.r[reg as int], i) == (i < 16 && xmm_byte(s.xmm[rm->Reg_0 as int], i as int) >= 0x80)
        }),
{
    let s0 = fetch_byte(s).0;
    law_fetch(s, 0);
    lemma_decoded(s0, p.rex);
    let (s1, (reg, rm)) = decode_rm(s0, p.rex);
    assert(executed(s, p, 0x0f).0 == do_move_mask(s0, p)) by {
        reveal(executed);
        reveal(map_0f);
        reveal(map_0f_c_f);
    }
    reveal(load128);
    lemma_top_bits(s.xmm[rm->Reg_0 as int], 16, i);
}

/// `PEXTRW` gives the word that the immediate names.
pub proof fn law_extract_word(s: CpuState, p: Prefix)
    requires
        between_registers(s, p, 0xc5),
        s.r.len() == 16,
    ensures
        ({
            let (s1, (reg, rm)) = decode_rm(fetch_byte(s).0, p.rex);
            let imm = fetch_byte(s1).1 as int;
            let t = executed(s, p, 0x0f).0;
            t.r[reg as int] == lane_num(s.xmm[rm->Reg_0 as int], imm % 8, 2)
        }),
{
    let s0 = fetch_byte(s).0;
    law_fetch(s, 0);
    lemma_decoded(s0, p.rex);
    let (s1, (reg, rm)) = decode_rm(s0, p.rex);
    law_fetch(s1, 0);
    assert(executed(s, p, 0x0f).0 == do_extract_word(s0, p)) by {
        reveal(executed);
        reveal(map_0f);
        reveal(map_0f_c_f);
    }
    reveal(load128);
    law_lane(s.xmm[rm->Reg_0 as int], (fetch_byte(s1).1 % 8) as int, 2);
}

/// `PINSRW` puts the low word of a general register in the place that the immediate names, and leaves
/// the other words.
pub proof fn law_insert_word(s: CpuState, p: Prefix, i: int)
    requires
        between_registers(s, p, 0xc4),
        s.r.len() == 16,
        0 <= i < 8,
    ensures
        ({
            let (s1, (reg, rm)) = decode_rm(fetch_byte(s).0, p.rex);
            let imm = fetch_byte(s1).1 as int;
            let t = executed(s, p, 0x0f).0;
            lane_num(t.xmm[reg as int], i, 2) == if i == imm % 8 {
                s.r[rm->Reg_0 as int] as int % 0x1_0000
            } else {
                lane_num(s.xmm[reg as int], i, 2)
            }
        }),
{
    let s0 = fetch_byte(s).0;
    law_fetch(s, 0);
    lemma_decoded(s0, p.rex);
    let (s1, (reg, rm)) = decode_rm(s0, p.rex);
    law_fetch(s1, 0);
    let imm = fetch_byte(s1).1;
    assert(executed(s, p, 0x0f).0 == do_insert_word(s0, p)) by {
        reveal(executed);
        reveal(map_0f);
        reveal(map_0f_c_f);
    }
    reveal(load_operand);
    let x = s.xmm[reg as int];
    let k = rm->Reg_0 as int;
    let v = reg_value(s1, k, 4);
    let b = ((imm % 8) * 16) as u128;
    let a = (8 * 2u8 * i) as u128;
    assert(8 * 2u8 * i == 16 * i);
    lemma_inserted(x, v, a, b);
    let y = (x & !(0xffffu128 << b)) | (((v as u16) as u128) << b);
    law_lane(y, i, 2);
    law_lane(x, i, 2);
    crate::bits::lemma_low_bits(v);
    crate::bits::lemma_low_bits(s.r[k]);
    vstd::arithmetic::div_mod::lemma_mod_mod(s.r[k] as int, 0x1_0000, 0x1_0000);
}

/// `PMADDWD`: each doubleword is the sum of two products of signed words.
proof fn lemma_multiply_added(a: u128, b: u128, n: nat, i: int)
    requires
        n <= 4,
        0 <= i < 4,
    ensures
        lane(multiply_added(a, b, n), i, 4) == if i < n { pair_sum(a, b, i) % 0x1_0000_0000 } else { 0 },
        clear_from(multiply_added(a, b, n), n as int, 4),
    decreases n,
{
    if n == 0 {
        lemma_nothing(4, i);
    } else {
        let j = n - 1;
        lemma_multiply_added(a, b, j as nat, i);
        law_lane(a, 2 * j, 2);
        law_lane(b, 2 * j, 2);
        law_lane(a, 2 * j + 1, 2);
        law_lane(b, 2 * j + 1, 2);
        lemma_signed(lane(a, 2 * j, 2), 2);
        lemma_signed(lane(b, 2 * j, 2), 2);
        lemma_signed(lane(a, 2 * j + 1, 2), 2);
        lemma_signed(lane(b, 2 * j + 1, 2), 2);
        lemma_mod_once(lane(a, 2 * j, 2) as int, 0x1_0000);
        lemma_mod_once(lane(b, 2 * j, 2) as int, 0x1_0000);
        lemma_mod_once(lane(a, 2 * j + 1, 2) as int, 0x1_0000);
        lemma_mod_once(lane(b, 2 * j + 1, 2) as int, 0x1_0000);
        lemma_put(multiply_added(a, b, j as nat), (pair_sum(a, b, j) % 0x1_0000_0000) as u64, j, 4, i);
    }
}

/// The sum of the products of two neighbouring signed words.
pub open spec fn pair_sum(a: u128, b: u128, i: int) -> int {
    signed(lane_num(a, 2 * i, 2), 2) * signed(lane_num(b, 2 * i, 2), 2) + signed(
        lane_num(a, 2 * i + 1, 2),
        2,
    ) * signed(lane_num(b, 2 * i + 1, 2), 2)
}

/// The sum of the distances of the first `n` bytes from byte `from` on.
pub open spec fn distance_sum(a: u128, b: u128, from: int, n: nat) -> int
    decreases n,
{
    if n == 0 {
        0
    } else {
        let d = xmm_byte(a, from + n - 1) - xmm_byte(b, from + n - 1);
        distance_sum(a, b, from, (n - 1) as nat) + if d < 0 { -d } else { d }
    }
}

proof fn lemma_distance(a: u128, b: u128, from: int, n: nat)
    requires
        0 <= from,
        from + n <= 16,
    ensures
        byte_distance(a, b, from, n) == distance_sum(a, b, from, n),
        0 <= distance_sum(a, b, from, n) <= 0xff * n,
    decreases n,
{
    if n > 0 {
        lemma_distance(a, b, from, (n - 1) as nat);
        law_lane(a, from + n - 1, 1);
        law_lane(b, from + n - 1, 1);
    }
}

/// `PMADDWD` and `PSADBW` between two registers.
pub proof fn law_packed_sums(s: CpuState, p: Prefix, op: u8, i: int)
    requires
        between_registers(s, p, op),
        op == 0xf5 || op == 0xf6,
        0 <= i < if op == 0xf5 { 4int } else { 2 },
    ensures
        ({
            let (a, b, r) = packed_change(s, p);
            &&& op == 0xf5 ==> lane_num(r, i, 4) == pair_sum(a, b, i) % 0x1_0000_0000
            &&& op == 0xf6 ==> lane_num(r, i, 8) == distance_sum(a, b, 8 * i, 8)
        }),
{
    let k = packed_of(op, p.opsz)->0;
    lemma_packed_form(s, p, k);
    let (a, b, r) = packed_change(s, p);
    if op == 0xf5 {
        lemma_multiply_added(a, b, 4, i);
        law_lane(r, i, 4);
    } else {
        lemma_distance(a, b, 0, 8);
        lemma_distance(a, b, 8, 8);
        let lo = byte_distance(a, b, 0, 8) as u64;
        let hi = byte_distance(a, b, 8, 8) as u64;
        lemma_nothing(8, i);
        lemma_put(0, lo, 0, 8, i);
        lemma_wide_parts(placed(lo, 0, 8), 0);
        lemma_put(placed(lo, 0, 8), hi, 1, 8, i);
        law_lane(r, i, 8);
    }
}

// ----- halves -----

/// `MOVHLPS` and `MOVLHPS`: the high quadword of one register goes to the low one of the other, and the
/// low to the high; the other half stays.
pub proof fn law_half_moves(s: CpuState, p: Prefix, op: u8)
    requires
        between_registers(s, p, op),
        op == 0x12 || op == 0x16,
    ensures
        ({
            let (a, b, r) = packed_change(s, p);
            &&& op == 0x12 ==> lane_num(r, 0, 8) == lane_num(b, 1, 8) && lane_num(r, 1, 8) == lane_num(a, 1, 8)
            &&& op == 0x16 ==> lane_num(r, 0, 8) == lane_num(a, 0, 8) && lane_num(r, 1, 8) == lane_num(b, 0, 8)
        }),
{
    let s0 = fetch_byte(s).0;
    law_fetch(s, 0);
    lemma_decoded(s0, p.rex);
    assert(executed(s, p, 0x0f).0 == do_mov_half_load(s0, p, op)) by {
        reveal(executed);
        reveal(map_0f);
        reveal(map_0f_low);
    }
    let (a, b, r) = packed_change(s, p);
    assert(r == (if op == 0x12 { with_low64(a, high64(b)) } else { with_high64(a, b as u64) }));
    lemma_low_quad(a);
    lemma_low_quad(b);
    lemma_low_quad(r);
    lemma_wide_parts(a, high64(b));
    lemma_wide_parts(a, b as u64);
}

/// `MOVD` and `MOVQ` between a general register and a packed one: the low lane is the operand, and what
/// is above it in the packed register is cleared.
pub proof fn law_general_moves(s: CpuState, p: Prefix)
    requires
        s.xmm.len() == 16,
        s.r.len() == 16,
        decode_rm(fetch_byte(s).0, p.rex).1.1 is Reg,
        fetch_byte(s).1 == 0x6e || (fetch_byte(s).1 == 0x7e && p.rep !is Rep),
    ensures
        ({
            let size = if wide(p) { 8u8 } else { 4u8 };
            let (reg, rm) = decode_rm(fetch_byte(s).0, p.rex).1;
            let i = rm->Reg_0 as int;
            let t = executed(s, p, 0x0f).0;
            if fetch_byte(s).1 == 0x6e {
                &&& lane_num(t.xmm[reg as int], 0, 8) == part(s, i, size)
                &&& lane_num(t.xmm[reg as int], 1, 8) == 0
            } else {
                part(t, i, size) == lane_num(s.xmm[reg as int], 0, 8) % modulus(size)
            }
        }),
{
    let size = if wide(p) { 8u8 } else { 4u8 };
    let s0 = fetch_byte(s).0;
    law_fetch(s, 0);
    lemma_decoded(s0, p.rex);
    let (s1, (reg, rm)) = decode_rm(s0, p.rex);
    let i = rm->Reg_0 as int;
    let op = fetch_byte(s).1;
    assert(executed(s, p, 0x0f).0 == if op == 0x6e { do_movd_load(s0, p) } else { do_movd_store(s0, p) }) by {
        reveal(executed);
        reveal(map_0f);
        reveal(map_0f_mid);
    }
    reveal(load_operand);
    if op == 0x6e {
        let v = reg_value(s1, i, size);
        lemma_joined(v, 0);
        lemma_low_quad(v as u128);
        lemma_wide_parts(v as u128, v);
    } else {
        let x = s.xmm[reg as int];
        lemma_low_quad(x);
        let v = (x as u64) & mask_of(size);
        lemma_mask(x as u64, size);
        lemma_mask(v, size);
        reveal(store_operand);
        law_register_write(s1, i, size, v);
    }
}

// ----- requests for arithmetic -----

/// The operation that an opcode asks for, of two numbers.
pub open spec fn asked(op: u8, single: bool) -> FpOp {
    match op {
        0x51 => if single { FpOp::Sqrt32 } else { FpOp::Sqrt64 },
        0x58 => if single { FpOp::Plus32 } else { FpOp::Plus64 },
        0x59 => if single { FpOp::Times32 } else { FpOp::Times64 },
        0x5c => if single { FpOp::Minus32 } else { FpOp::Minus64 },
        0x5e => if single { FpOp::Over32 } else { FpOp::Over64 },
        _ => if single { FpOp::Order32 } else { FpOp::Order64 },
    }
}

/// Packed and scalar arithmetic between registers asks for one result per lane, of the register's own
/// lane and the other's, in this order; without a prefix there are four single lanes, under `66` two
/// double ones, under `F3` and `F2` the lowest one alone. `5D` and `5F` (the least and the greatest) ask
/// for the order.
pub proof fn law_float_requests(s: CpuState, p: Prefix, op: u8, i: int)
    requires
        between_registers(s, p, op),
        op == 0x51 || op == 0x58 || op == 0x59 || 0x5c <= op <= 0x5f,
        0 <= i,
    ensures
        ({
            let (reg, rm) = decode_rm(fetch_byte(s).0, p.rex).1;
            let a = s.xmm[reg as int];
            let b = s.xmm[rm->Reg_0 as int];
            let f = executed(s, p, 0x0f).1;
            let single = p.rep is Rep || (p.rep is Plain && !p.opsz);
            let size = if single { 4u8 } else { 8u8 };
            let n = if p.rep !is Plain { 1int } else if single { 4 } else { 2 };
            &&& f is Ask
            &&& f->Ask_0.op == asked(op, single)
            &&& f->Ask_0.lanes.len() == n
            &&& i < n ==> f->Ask_0.lanes[i].0 == lane_num(a, i, size) && f->Ask_0.lanes[i].1 == lane_num(b, i, size)
            &&& executed(s, p, 0x0f).0.xmm == s.xmm
        }),
{
    let s0 = fetch_byte(s).0;
    law_fetch(s, 0);
    lemma_decoded(s0, p.rex);
    let (s1, (reg, rm)) = decode_rm(s0, p.rex);
    assert(executed(s, p, 0x0f) == do_arith(s0, p, op)) by {
        reveal(executed);
        reveal(map_0f);
        reveal(map_0f_mid);
    }
    reveal(load128);
    reveal(load64);
    reveal(load32);
    let a = s.xmm[reg as int];
    let b = s.xmm[rm->Reg_0 as int];
    lemma_low_quad(a);
    lemma_low_quad(b);
    if i < 4 {
        law_lane(a, i, 4);
        law_lane(b, i, 4);
    }
    lemma_low_double(a);
    lemma_low_double(b);
    lemma_wide_parts(b, (b as u32) as u64);
    lemma_wide_parts(b, b as u64);
}

/// The low doubleword, alone in a word.
proof fn lemma_low_double(x: u128)
    ensures
        lane(((x as u32) as u128), 0, 4) == lane(x, 0, 4),
        ((x as u64) as u128) as u64 == x as u64,
{
    lemma_wide_parts(x, x as u64);
    lemma_wide_parts((x as u32) as u128, (x as u32) as u64);
    lemma_wide_bits(x, 0, 0);
    lemma_wide_bits((x as u32) as u128, 0, 0);
    crate::bits::lemma_low_bits(x as u64);
    crate::bits::lemma_low_bits((x as u32) as u64);
    assert(8 * 4u8 * 0 == 0);
}

/// The eight predicates of a comparison, of an order: less is 1, equal 2, and 3 is none.
pub proof fn law_predicates(o: u64)
    requires
        o < 4,
    ensures
        predicate(0, o) == (o == 2),
        predicate(1, o) == (o == 1),
        predicate(2, o) == (o == 1 || o == 2),
        predicate(3, o) == (o == 3),
        predicate(4, o) == !predicate(0, o),
        predicate(5, o) == !predicate(1, o),
        predicate(6, o) == !predicate(2, o),
        predicate(7, o) == !predicate(3, o),
{
}

} // verus!
