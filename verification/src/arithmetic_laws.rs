//! Laws of the arithmetic instructions on one width: what they leave in registers and flags.
use vstd::prelude::*;
#[allow(unused_imports)]
use crate::bits::{is_width, lemma_mask, low, mask_of, modulus, signed_of};
#[allow(unused_imports)]
use crate::cpu::CpuState;
#[allow(unused_imports)]
use crate::decode::{operand_size, FlowState, Prefix};
#[allow(unused_imports)]
use crate::flags::{add_flags, alu_result, carry_in, signed_overflow, sub_flags, CF};
#[allow(unused_imports)]
use crate::int_ops::{alu_stored, stepped, tested};
#[allow(unused_imports)]
use crate::memory_laws::law_register_write;
#[allow(unused_imports)]
use crate::mmu::{fetch_bytes, fetch_imm};
#[allow(unused_imports)]
use crate::operand::{
    decode_rm, load_operand, reg_value, reg_write, sext_of, store_operand, with_flags, Rm,
};
#[allow(unused_imports)]
use crate::operand_laws::{
    bit_at, fits, law_fetch, lemma_bits_of, lemma_decoded, lemma_fetch_imm, lemma_flags_at,
    lemma_kept_bit, lemma_mod_once, lemma_overflow, lemma_part, lemma_result_flags, lemma_signed,
    lemma_stored_part, other_flags_kept, part, signed, tells,
};
#[allow(unused_imports)]
use crate::step::{executed, map_8_9, map_e_f};
#[allow(unused_imports)]
use crate::word_laws::{code_number, law_code_number, law_immediate, law_sign_extended, signed_code};

verus! {

// ----- the eight arithmetic operations -----

/// What one of the eight operations (`0` ADD, `1` OR, `2` ADC, `3` SBB, `4` AND, `5` SUB, `6` XOR,
/// `7` CMP) makes of the flags `f` and two numbers: a result and new flags.
#[verifier::opaque]
pub open spec fn alu_ok(op: int, f: u64, x: int, y: int, size: u8, r: int, g: u64) -> bool {
    let m = modulus(size);
    let c = if (op == 2 || op == 3) && bit_at(f, 0) { 1int } else { 0 };
    &&& 0 <= r < m
    &&& other_flags_kept(f, g)
    &&& op == 0 || op == 2 ==> {
        &&& r == if bit_at(g, 0) { x + y + c - m } else { x + y + c }
        &&& bit_at(g, 11) == !fits(signed(x, size) + signed(y, size) + c, size)
        &&& tells(g, r, size)
    }
    &&& op == 3 || op == 5 ==> {
        &&& r == if bit_at(g, 0) { x - y - c + m } else { x - y - c }
        &&& bit_at(g, 11) == !fits(signed(x, size) - signed(y, size) - c, size)
        &&& tells(g, r, size)
    }
    &&& op == 7 ==> {
        &&& r == x
        &&& bit_at(g, 0) == (x < y)
        &&& bit_at(g, 11) == !fits(signed(x, size) - signed(y, size), size)
        &&& tells(g, if x < y { x - y + m } else { x - y }, size)
    }
    &&& op == 1 || op == 4 || op == 6 ==> {
        &&& !bit_at(g, 0) && !bit_at(g, 11)
        &&& tells(g, r, size)
        &&& forall|i: u64|
            #![trigger bit_at(r as u64, i)]
            i < 64 ==> bit_at(r as u64, i) == if op == 1 {
                bit_at(x as u64, i) || bit_at(y as u64, i)
            } else if op == 4 {
                bit_at(x as u64, i) && bit_at(y as u64, i)
            } else {
                bit_at(x as u64, i) != bit_at(y as u64, i)
            }
    }
}

/// A sum and its flags.
pub proof fn lemma_sum(f: u64, a: u64, b: u64, c: int, size: u8)
    requires
        is_width(size),
        0 <= c <= 1,
    ensures
        ({
            let m = modulus(size);
            let z = low(a, size) + low(b, size) + c;
            let g = add_flags(f, a, b, c, size);
            &&& z % m == if z >= m { z - m } else { z }
            &&& 0 <= z % m < m
            &&& bit_at(g, 0) == (z >= m)
            &&& bit_at(g, 11) == !fits(signed(low(a, size), size) + signed(low(b, size), size) + c, size)
            &&& tells(g, z % m, size)
            &&& other_flags_kept(f, g)
        }),
{
    let m = modulus(size);
    let z = low(a, size) + low(b, size) + c;
    lemma_signed(a, size);
    lemma_signed(b, size);
    lemma_mod_once(z, m);
    let r = (z % m) as u64;
    lemma_mask(r, size);
    lemma_mod_once(r as int, m);
    let o = signed_of(a, size) + signed_of(b, size) + c;
    lemma_overflow(o, size);
    lemma_result_flags(f, r, size, z >= m, signed_overflow(o, size));
}

/// A difference and its flags.
pub proof fn lemma_difference(f: u64, a: u64, b: u64, c: int, size: u8)
    requires
        is_width(size),
        0 <= c <= 1,
    ensures
        ({
            let m = modulus(size);
            let z = low(a, size) - low(b, size) - c;
            let g = sub_flags(f, a, b, c, size);
            &&& z % m == if z < 0 { z + m } else { z }
            &&& 0 <= z % m < m
            &&& bit_at(g, 0) == (z < 0)
            &&& bit_at(g, 11) == !fits(signed(low(a, size), size) - signed(low(b, size), size) - c, size)
            &&& tells(g, z % m, size)
            &&& other_flags_kept(f, g)
        }),
{
    let m = modulus(size);
    let z = low(a, size) - low(b, size) - c;
    lemma_signed(a, size);
    lemma_signed(b, size);
    lemma_mod_once(z, m);
    let r = (z % m) as u64;
    lemma_mask(r, size);
    lemma_mod_once(r as int, m);
    let o = signed_of(a, size) - signed_of(b, size) - c;
    lemma_overflow(o, size);
    lemma_result_flags(f, r, size, low(a, size) < low(b, size) + c, signed_overflow(o, size));
}

/// The eight operations in plain arithmetic: a carry or borrow is what the result lacks of the true
/// sum or difference, an overflow that the signed one does not fit.
pub proof fn law_arithmetic(op: u8, f: u64, a: u64, b: u64, size: u8)
    requires
        op < 8,
        is_width(size),
    ensures
        alu_ok(
            op as int,
            f,
            low(a, size),
            low(b, size),
            size,
            alu_result(op, f, a, b, size).0 as int,
            alu_result(op, f, a, b, size).1,
        ),
        alu_result(op, f, a, b, size).0 < modulus(size),
{
    reveal(alu_ok);
    let (r, g) = alu_result(op, f, a, b, size);
    let x = low(a, size);
    let y = low(b, size);
    lemma_mask(a, size);
    lemma_mask(b, size);
    lemma_flags_at(f, f, 0);
    if op == 0 || op == 2 {
        lemma_sum(f, a, b, if op == 2 { carry_in(f) } else { 0 }, size);
    } else if op == 3 || op == 5 || op == 7 {
        lemma_difference(f, a, b, if op == 3 { carry_in(f) } else { 0 }, size);
    } else {
        let w = if op == 1 { a | b } else if op == 4 { a & b } else { a ^ b };
        lemma_mask(w, size);
        lemma_result_flags(f, w, size, false, false);
        assert(low(r, size) == r) by {
            lemma_mod_once(r as int, modulus(size));
        }
        assert forall|i: u64| #![trigger bit_at(r, i)] i < 64 implies bit_at(r, i) == if op == 1 {
            bit_at(x as u64, i) || bit_at(y as u64, i)
        } else if op == 4 {
            bit_at(x as u64, i) && bit_at(y as u64, i)
        } else {
            bit_at(x as u64, i) != bit_at(y as u64, i)
        } by {
            lemma_kept_bit(w, size, i);
            lemma_kept_bit(a, size, i);
            lemma_kept_bit(b, size, i);
            lemma_bits_of(a, b, i);
        }
    }
}

/// One of the eight operations done on a register.
#[verifier::opaque]
spec fn alu_done(s: CpuState, k: u8, a: u64, b: u64, i: usize, size: u8) -> CpuState {
    alu_stored(s, k, a, b, Rm::Reg(i), size)
}

proof fn lemma_alu_done(s: CpuState, k: u8, a: u64, b: u64, i: usize, size: u8)
    requires
        k < 8,
        is_width(size),
        s.r.len() == 16,
        i < 16,
        part(s, i as int, size) == low(a, size),
    ensures
        ({
            let t = alu_done(s, k, a, b, i, size);
            &&& alu_ok(
                k as int,
                s.rflags,
                low(a, size),
                low(b, size),
                size,
                part(t, i as int, size),
                t.rflags,
            )
            &&& k == 7 ==> t.r == s.r
            &&& k != 7 ==> t == reg_write(with_flags(s, t.rflags), i as int, size, part(t, i as int, size) as u64)
        }),
{
    reveal(alu_done);
    law_arithmetic(k, s.rflags, a, b, size);
    let (r, g) = alu_result(k, s.rflags, a, b, size);
    lemma_stored_part(s, i as int, size, r, g);
    assert(k == 7 ==> r == low(a, size));
    reveal(store_operand);
}

/// The arithmetic instructions between two registers: opcodes below 0x40, eight for each operation.
/// The first two forms of each work on the operand with the register, the next two the other way.
pub proof fn law_register_arithmetic(s: CpuState, p: Prefix, op: u8)
    requires
        op < 0x40,
        op % 8 < 4,
        s.r.len() == 16,
        decode_rm(s, p.rex).1.1 is Reg,
    ensures
        ({
            let size = if op % 2 == 0 { 1u8 } else { operand_size(p) };
            let reg = decode_rm(s, p.rex).1.0 as int;
            let rm = decode_rm(s, p.rex).1.1->Reg_0 as int;
            let (to, from) = if op % 8 < 2 { (rm, reg) } else { (reg, rm) };
            let t = executed(s, p, op).0;
            &&& alu_ok(
                op as int / 8,
                s.rflags,
                part(s, to, size),
                part(s, from, size),
                size,
                part(t, to, size),
                t.rflags,
            )
            &&& op / 8 == 7 ==> t.r == s.r
            &&& executed(s, p, op).1 is Next
        }),
{
    lemma_decoded(s, p.rex);
    let size = if op % 2 == 0 { 1u8 } else { operand_size(p) };
    let (s1, (reg, rm)) = decode_rm(s, p.rex);
    let i = rm->Reg_0;
    let (to, from) = if op % 8 < 2 { (i, reg) } else { (reg, i) };
    let a = reg_value(s1, to as int, size);
    let b = reg_value(s1, from as int, size);
    lemma_part(s1, to as int, size);
    lemma_part(s1, from as int, size);
    lemma_alu_form(s, p, op);
    lemma_alu_done(s1, op / 8, a, b, to, size);
    assert(part(s1, to as int, size) == part(s, to as int, size));
    assert(part(s1, from as int, size) == part(s, from as int, size));
}

proof fn lemma_alu_form(s: CpuState, p: Prefix, op: u8)
    requires
        op < 0x40,
        op % 8 < 4,
        decode_rm(s, p.rex).1.1 is Reg,
    ensures
        ({
            let size = if op % 2 == 0 { 1u8 } else { operand_size(p) };
            let (s1, (reg, rm)) = decode_rm(s, p.rex);
            let i = rm->Reg_0;
            let (to, from) = if op % 8 < 2 { (i, reg) } else { (reg, i) };
            executed(s, p, op) == (
                alu_done(
                    s1,
                    op / 8,
                    reg_value(s1, to as int, size),
                    reg_value(s1, from as int, size),
                    to,
                    size,
                ),
                FlowState::Next,
            )
        }),
{
    reveal(executed);
    reveal(load_operand);
    reveal(alu_done);
}

/// The forms with the accumulator and an immediate.
pub proof fn law_accumulator_arithmetic(s: CpuState, p: Prefix, op: u8)
    requires
        op < 0x40,
        op % 8 == 4 || op % 8 == 5,
        s.r.len() == 16,
    ensures
        ({
            let size = if op % 2 == 0 { 1u8 } else { operand_size(p) };
            let n = if size == 8 { 4u8 } else { size };
            let t = executed(s, p, op).0;
            let m = modulus(size);
            alu_ok(
                op as int / 8,
                s.rflags,
                s.r[0] as int % m,
                if size == 8 && signed_code(s, 4) < 0 { signed_code(s, 4) + m } else { code_number(s, n as nat) },
                size,
                t.r[0] as int % m,
                t.rflags,
            )
        }),
{
    let size = if op % 2 == 0 { 1u8 } else { operand_size(p) };
    law_fetch(s, 1);
    lemma_fetch_imm(s, size);
    let (s1, b) = if op % 8 == 4 { fetch_bytes(s, 1) } else { fetch_imm(s, size) };
    let a = s1.r[0] & mask_of(size);
    lemma_mask(s1.r[0], size);
    lemma_accumulator_form(s, p, op);
    assert(part(s1, 0, size) == low(a, size)) by {
        lemma_part(s1, 0, size);
    }
    lemma_alu_done(s1, op / 8, a, b, 0, size);
    let t = executed(s, p, op).0;
    assert(part(t, 0, size) == t.r[0] as int % modulus(size)) by {
        lemma_mask(t.r[0], size);
    }
    assert(low(b, size) == if size == 8 && signed_code(s, 4) < 0 {
        signed_code(s, 4) + modulus(size)
    } else {
        code_number(s, if size == 8 { 4 } else { size as nat })
    }) by {
        lemma_immediate_low(s, size);
    }
}

/// An immediate as a number of its width.
proof fn lemma_immediate_low(s: CpuState, size: u8)
    requires
        is_width(size),
    ensures
        ({
            let b = if size == 1 { fetch_bytes(s, 1).1 } else { fetch_imm(s, size).1 };
            low(b, size) == if size == 8 && signed_code(s, 4) < 0 {
                signed_code(s, 4) + modulus(size)
            } else {
                code_number(s, if size == 8 { 4 } else { size as nat })
            }
        }),
{
    law_code_number(s, 1);
    law_code_number(s, 2);
    law_code_number(s, 4);
    if size > 1 {
        law_immediate(s, size);
    }
    let b = if size == 1 { fetch_bytes(s, 1).1 } else { fetch_imm(s, size).1 };
    lemma_mod_once(b as int, modulus(size));
}

proof fn lemma_accumulator_form(s: CpuState, p: Prefix, op: u8)
    requires
        op < 0x40,
        op % 8 == 4 || op % 8 == 5,
    ensures
        ({
            let size = if op % 2 == 0 { 1u8 } else { operand_size(p) };
            let (s1, b) = if op % 8 == 4 { fetch_bytes(s, 1) } else { fetch_imm(s, size) };
            executed(s, p, op).0 == alu_done(s1, op / 8, s1.r[0] & mask_of(size), b, 0, size)
        }),
{
    reveal(executed);
    reveal(alu_done);
}

/// A number of 64 bits with its sign, cut to a width that holds it.
pub proof fn lemma_signed_low(b: u64, x: int, size: u8)
    requires
        is_width(size),
        b == if x < 0 { x + 0x1_0000_0000_0000_0000 } else { x },
        -modulus(size) <= x < modulus(size),
    ensures
        low(b, size) == if x < 0 { x + modulus(size) } else { x },
{
    let m = modulus(size);
    if x < 0 {
        let k: int = if size == 1 {
            0x100_0000_0000_0000
        } else if size == 2 {
            0x1_0000_0000_0000
        } else if size == 4 {
            0x1_0000_0000
        } else {
            1
        };
        assert(k * m == 0x1_0000_0000_0000_0000);
        vstd::arithmetic::div_mod::lemma_mod_multiples_vanish(k, x, m);
        assert(b as int == m * k + x) by (nonlinear_arith)
            requires
                b as int == x + 0x1_0000_0000_0000_0000,
                k * m == 0x1_0000_0000_0000_0000,
        ;
        lemma_mod_once(x, m);
    } else {
        lemma_mod_once(b as int, m);
    }
}

/// The immediate forms on a register: opcode 0x80 takes a byte, 0x81 an immediate of the operand size,
/// 0x83 a byte with its sign. The register field selects the operation.
pub proof fn law_immediate_arithmetic(s: CpuState, p: Prefix, op: u8)
    requires
        op == 0x80 || op == 0x81 || op == 0x83,
        s.r.len() == 16,
        decode_rm(s, p.rex).1.1 is Reg,
    ensures
        ({
            let size = if op == 0x80 { 1u8 } else { operand_size(p) };
            let (s1, (reg, rm)) = decode_rm(s, p.rex);
            let i = rm->Reg_0 as int;
            let t = executed(s, p, op).0;
            let m = modulus(size);
            let imm = if op == 0x83 {
                signed_code(s1, 1)
            } else if op == 0x81 && size == 8 {
                signed_code(s1, 4)
            } else {
                code_number(s1, size as nat)
            };
            &&& alu_ok(
                (reg % 8) as int,
                s.rflags,
                part(s, i, size),
                if imm < 0 { imm + m } else { imm },
                size,
                part(t, i, size),
                t.rflags,
            )
            &&& reg % 8 == 7 ==> t.r == s.r
        }),
{
    let size = if op == 0x80 { 1u8 } else { operand_size(p) };
    lemma_decoded(s, p.rex);
    let (s1, (reg, rm)) = decode_rm(s, p.rex);
    let i = rm->Reg_0;
    law_fetch(s1, 1);
    lemma_fetch_imm(s1, size);
    let (s2, b) = immediate_of(s1, op, size);
    let a = reg_value(s2, i as int, size);
    lemma_part(s2, i as int, size);
    lemma_immediate_form(s, p, op);
    lemma_alu_done(s2, (reg % 8) as u8, a, b, i, size);
    assert(part(s2, i as int, size) == part(s, i as int, size));
    let imm = if op == 0x83 {
        signed_code(s1, 1)
    } else if op == 0x81 && size == 8 {
        signed_code(s1, 4)
    } else {
        code_number(s1, size as nat)
    };
    assert(low(b, size) == if imm < 0 { imm + modulus(size) } else { imm }) by {
        if op == 0x83 {
            law_code_number(s1, 1);
            law_sign_extended(fetch_bytes(s1, 1).1, 1);
            lemma_signed_low(b, imm, size);
        } else {
            lemma_immediate_low(s1, size);
            law_code_number(s1, size as nat);
            law_code_number(s1, 4);
        }
    }
}

/// The immediate of the three opcodes.
spec fn immediate_of(s: CpuState, op: u8, size: u8) -> (CpuState, u64) {
    if op == 0x80 {
        fetch_bytes(s, 1)
    } else if op == 0x81 {
        fetch_imm(s, size)
    } else {
        (fetch_bytes(s, 1).0, sext_of(fetch_bytes(s, 1).1, 1))
    }
}

proof fn lemma_immediate_form(s: CpuState, p: Prefix, op: u8)
    requires
        op == 0x80 || op == 0x81 || op == 0x83,
        decode_rm(s, p.rex).1.1 is Reg,
    ensures
        ({
            let size = if op == 0x80 { 1u8 } else { operand_size(p) };
            let (s1, (reg, rm)) = decode_rm(s, p.rex);
            let i = rm->Reg_0;
            let (s2, b) = immediate_of(s1, op, size);
            executed(s, p, op).0 == alu_done(s2, (reg % 8) as u8, reg_value(s2, i as int, size), b, i, size)
        }),
{
    reveal(executed);
    reveal(map_8_9);
    reveal(load_operand);
    reveal(alu_done);
}

/// `INC` and `DEC` of a register: one more or one less, modulo the width. Zero, sign, parity and
/// overflow tell of the result; the carry stays.
pub proof fn law_increment(s: CpuState, p: Prefix, op: u8)
    requires
        op == 0xfe || op == 0xff,
        s.r.len() == 16,
        decode_rm(s, p.rex).1.1 is Reg,
        decode_rm(s, p.rex).1.0 % 8 < 2,
    ensures
        ({
            let size = if op == 0xfe { 1u8 } else { operand_size(p) };
            let (reg, rm) = decode_rm(s, p.rex).1;
            let i = rm->Reg_0 as int;
            let t = executed(s, p, op).0;
            let d = if reg % 8 == 0 { 1int } else { -1 };
            let x = part(s, i, size);
            let r = part(t, i, size);
            &&& r == x + d || r == x + d - d * modulus(size)
            &&& bit_at(t.rflags, 11) == !fits(signed(x, size) + d, size)
            &&& bit_at(t.rflags, 0) == bit_at(s.rflags, 0)
            &&& tells(t.rflags, r, size)
            &&& other_flags_kept(s.rflags, t.rflags)
        }),
{
    let size = if op == 0xfe { 1u8 } else { operand_size(p) };
    lemma_decoded(s, p.rex);
    let (s1, (reg, rm)) = decode_rm(s, p.rex);
    lemma_part(s1, rm->Reg_0 as int, size);
    lemma_step_form(s, p, op);
    lemma_stepped(s1, rm->Reg_0 as int, size, reg % 8 == 1);
    assert(part(s1, rm->Reg_0 as int, size) == part(s, rm->Reg_0 as int, size));
}

#[verifier::opaque]
spec fn step_done(s: CpuState, i: usize, size: u8, down: bool) -> CpuState {
    stepped(s, Rm::Reg(i), size, down)
}

proof fn lemma_step_form(s: CpuState, p: Prefix, op: u8)
    requires
        op == 0xfe || op == 0xff,
        decode_rm(s, p.rex).1.1 is Reg,
        decode_rm(s, p.rex).1.0 % 8 < 2,
    ensures
        ({
            let size = if op == 0xfe { 1u8 } else { operand_size(p) };
            let (s1, (reg, rm)) = decode_rm(s, p.rex);
            executed(s, p, op).0 == step_done(s1, rm->Reg_0, size, reg % 8 == 1)
        }),
{
    reveal(executed);
    reveal(map_e_f);
    reveal(step_done);
}

proof fn lemma_stepped(s: CpuState, i: int, size: u8, down: bool)
    requires
        is_width(size),
        s.r.len() == 16,
        0 <= i < 16,
    ensures
        ({
            let t = step_done(s, i as usize, size, down);
            let d = if down { -1int } else { 1 };
            let x = part(s, i, size);
            let r = part(t, i, size);
            &&& r == x + d || r == x + d - d * modulus(size)
            &&& bit_at(t.rflags, 11) == !fits(signed(x, size) + d, size)
            &&& bit_at(t.rflags, 0) == bit_at(s.rflags, 0)
            &&& tells(t.rflags, r, size)
            &&& other_flags_kept(s.rflags, t.rflags)
        }),
{
    reveal(step_done);
    reveal(load_operand);
    let a = reg_value(s, i, size);
    lemma_part(s, i, size);
    lemma_mask(1, size);
    lemma_mod_once(1, modulus(size));
    if down {
        lemma_difference(s.rflags, a, 1, 0, size);
    } else {
        lemma_sum(s.rflags, a, 1, 0, size);
    }
    let g = if down { sub_flags(s.rflags, a, 1, 0, size) } else { add_flags(s.rflags, a, 1, 0, size) };
    let h = (g & !CF) | (s.rflags & CF);
    let v = if down { a.wrapping_sub(1) } else { a.wrapping_add(1) };
    let x = part(s, i, size);
    let m = modulus(size);
    lemma_mask(v, size);
    assert(low(1, size) == 1);
    assert(low(v, size) == if down { if x == 0 { m - 1 } else { x - 1 } } else { if x == m - 1 { 0 } else { x + 1 } }) by {
        if down {
            if x == 0 {
                lemma_signed_low(v, -1, size);
            } else {
                lemma_mod_once(v as int, m);
            }
        } else if a != u64::MAX {
            lemma_mod_once(v as int, m);
        }
    }
    reveal(store_operand);
    law_register_write(with_flags(s, h), i, size, v);
    assert forall|j: u64| #![trigger bit_at(h, j)] j < 64 implies bit_at(h, j) == if j == 0 { bit_at(s.rflags, 0) } else { bit_at(g, j) } by {
        lemma_carry_kept(s.rflags, g, j);
    }
    let t = step_done(s, i as usize, size, down);
    assert(t.rflags == h);
    let r = low(v, size);
    assert(part(t, i, size) == r);
    assert(tells(h, r, size) && other_flags_kept(s.rflags, h) && bit_at(h, 11) == bit_at(g, 11) && bit_at(h, 0) == bit_at(s.rflags, 0)) by {
        reveal(tells);
        reveal(other_flags_kept);
        assert(bit_at(h, 6) == bit_at(g, 6) && bit_at(h, 7) == bit_at(g, 7) && bit_at(h, 2) == bit_at(g, 2) && bit_at(h, 11) == bit_at(g, 11) && bit_at(h, 0) == bit_at(s.rflags, 0));
        assert forall|j: u64| #![trigger bit_at(h, j)] j < 64 && j != 0 && j != 2 && j != 6 && j != 7 && j != 11 implies bit_at(h, j) == bit_at(s.rflags, j) by {
            assert(bit_at(h, j) == bit_at(g, j));
        }
    }
}

proof fn lemma_carry_kept(f: u64, g: u64, i: u64)
    requires
        i < 64,
    ensures
        ((((g & !1u64) | (f & 1)) >> i) & 1 == 1) == if i == 0 { (f >> 0) & 1 == 1 } else { (g >> i) & 1 == 1 },
{
    crate::bit_facts::lemma_bits_of_words(f, g, i, false, false);
}

/// `NOT` turns every bit of a register operand and no flag; `NEG` takes it from zero.
pub proof fn law_not_neg(s: CpuState, p: Prefix, op: u8)
    requires
        op == 0xf6 || op == 0xf7,
        s.r.len() == 16,
        decode_rm(s, p.rex).1.1 is Reg,
        decode_rm(s, p.rex).1.0 % 8 == 2 || decode_rm(s, p.rex).1.0 % 8 == 3,
    ensures
        ({
            let size = if op == 0xf6 { 1u8 } else { operand_size(p) };
            let (reg, rm) = decode_rm(s, p.rex).1;
            let i = rm->Reg_0 as int;
            let t = executed(s, p, op).0;
            let m = modulus(size);
            let x = part(s, i, size);
            let r = part(t, i, size);
            &&& reg % 8 == 2 ==> r == m - 1 - x && t.rflags == s.rflags
            &&& reg % 8 == 3 ==> {
                &&& r == if x == 0 { 0 } else { m - x }
                &&& bit_at(t.rflags, 0) == (x != 0)
                &&& bit_at(t.rflags, 11) == (2 * x == m)
                &&& tells(t.rflags, r, size)
                &&& other_flags_kept(s.rflags, t.rflags)
            }
        }),
{
    reveal(executed);
    reveal(map_e_f);
    reveal(load_operand);
    let size = if op == 0xf6 { 1u8 } else { operand_size(p) };
    lemma_decoded(s, p.rex);
    let (s1, (reg, rm)) = decode_rm(s, p.rex);
    let i = rm->Reg_0 as int;
    let a = reg_value(s1, i, size);
    lemma_part(s1, i, size);
    lemma_mask(0, size);
    lemma_mask(a, size);
    let m = modulus(size);
    if reg % 8 == 2 {
        lemma_complement(a);
        let v = !a & mask_of(size);
        reveal(store_operand);
        law_register_write(s1, i, size, v);
        lemma_mask(!a, size);
        lemma_mask(v, size);
    } else {
        lemma_difference(s.rflags, 0, a, 0, size);
        let x = low(a, size);
        let r = ((-x) % m) as u64;
        lemma_signed(0, size);
        lemma_mod_once(0, m);
        assert(0 - x - 0 == -x);
        lemma_stored_part(s1, i, size, r, sub_flags(s.rflags, 0, a, 0, size));
    }
}

proof fn lemma_complement(a: u64)
    ensures
        a < 0x100 ==> (!a) & 0xff == 0xff - a,
        a < 0x1_0000 ==> (!a) & 0xffff == 0xffff - a,
        a < 0x1_0000_0000 ==> (!a) & 0xffff_ffff == 0xffff_ffff - a,
        (!a) & 0xffff_ffff_ffff_ffff == 0xffff_ffff_ffff_ffff - a,
{
    crate::bit_facts::lemma_bits_of_words(a, 0, 0, false, false);
}

/// The flags tell of the conjunction of two numbers.
pub open spec fn conjoined(f: u64, x: int, y: int, size: u8, g: u64) -> bool {
    exists|r: int| #[trigger] alu_ok(4, f, x, y, size, r, g)
}

/// `TEST`: the flags of the conjunction of two registers, and nothing else.
pub proof fn law_test(s: CpuState, p: Prefix, op: u8)
    requires
        op == 0x84 || op == 0x85,
        s.r.len() == 16,
        decode_rm(s, p.rex).1.1 is Reg,
    ensures
        ({
            let size = if op == 0x84 { 1u8 } else { operand_size(p) };
            let (reg, rm) = decode_rm(s, p.rex).1;
            let t = executed(s, p, op).0;
            &&& t.r == s.r
            &&& conjoined(
                s.rflags,
                part(s, rm->Reg_0 as int, size),
                part(s, reg as int, size),
                size,
                t.rflags,
            )
        }),
{
    let size = if op == 0x84 { 1u8 } else { operand_size(p) };
    lemma_decoded(s, p.rex);
    let (s1, (reg, rm)) = decode_rm(s, p.rex);
    let i = rm->Reg_0 as int;
    lemma_part(s1, i, size);
    lemma_part(s1, reg as int, size);
    lemma_test_form(s, p, op);
    lemma_tested(s1, reg_value(s1, i, size), reg_value(s1, reg as int, size), size);
    assert(part(s1, i, size) == part(s, i, size) && part(s1, reg as int, size) == part(s, reg as int, size));
}

#[verifier::opaque]
spec fn test_done(s: CpuState, a: u64, b: u64, size: u8) -> CpuState {
    tested(s, a, b, size)
}

proof fn lemma_test_form(s: CpuState, p: Prefix, op: u8)
    requires
        op == 0x84 || op == 0x85,
        decode_rm(s, p.rex).1.1 is Reg,
    ensures
        ({
            let size = if op == 0x84 { 1u8 } else { operand_size(p) };
            let (s1, (reg, rm)) = decode_rm(s, p.rex);
            executed(s, p, op).0 == test_done(
                s1,
                reg_value(s1, rm->Reg_0 as int, size),
                reg_value(s1, reg as int, size),
                size,
            )
        }),
{
    reveal(executed);
    reveal(map_8_9);
    reveal(load_operand);
    reveal(test_done);
}

proof fn lemma_tested(s: CpuState, a: u64, b: u64, size: u8)
    requires
        is_width(size),
    ensures
        test_done(s, a, b, size).r == s.r,
        conjoined(s.rflags, low(a, size), low(b, size), size, test_done(s, a, b, size).rflags),
{
    reveal(test_done);
    law_arithmetic(4, s.rflags, a, b, size);
    let r = alu_result(4, s.rflags, a, b, size).0;
    assert(alu_ok(4, s.rflags, low(a, size), low(b, size), size, r as int, test_done(s, a, b, size).rflags));
}

} // verus!
