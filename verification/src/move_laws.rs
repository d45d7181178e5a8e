//! Laws of moves, conditions, jumps and the stack, in plain arithmetic on the registers.
use vstd::prelude::*;
#[allow(unused_imports)]
use crate::arith::{double_shift, shift_count, swapped32, swapped64};
#[allow(unused_imports)]
use crate::arithmetic_laws::{lemma_difference, lemma_sum};
#[allow(unused_imports)]
use crate::bits::{is_width, lemma_mask, low, mask_of, modulus, sign_of};
#[allow(unused_imports)]
use crate::cpu::{runnable, CpuState};
#[allow(unused_imports)]
use crate::decode::{operand_size, wide, Prefix};
#[allow(unused_imports)]
use crate::flags::{add_flags, condition, sub_flags, with_bit, ZF};
#[allow(unused_imports)]
use crate::group_ops::{
    do_bit_scan, do_bswap, do_cmov, do_double_shift, do_exchange, do_extend, do_setcc, do_xadd,
};
#[allow(unused_imports)]
use crate::int_ops::{
    do_call, do_extend_acc, do_lea, do_mov, do_mov_imm, do_mov_reg_imm, do_movsxd, do_port, do_ret,
    do_spread_sign, do_xchg, do_xchg_acc, port_of, thunk_reg,
};
#[allow(unused_imports)]
use crate::memory_laws::{law_load_keeps, law_register_write, law_store_keeps};
#[allow(unused_imports)]
use crate::mmu::{fetch_byte, fetch_bytes, fetch_imm, mem_read, mem_write};
#[allow(unused_imports)]
use crate::operand::{
    decode_rm, load_operand, operand_addr, override_base, reg_field, reg_value, sext_of, sib_index,
    stack_pop, stack_push, store_operand, with_flags, with_reg, with_rip, Rm,
};
#[allow(unused_imports)]
use crate::operand_laws::{
    bit_at, law_fetch, lemma_bits_of, lemma_decoded, lemma_fetch_imm, lemma_flags_at,
    lemma_kept_bit, lemma_mod_once, lemma_part, lemma_signed, only_fetched, part, signed, tells,
};
#[allow(unused_imports)]
use crate::shift_laws::{law_double_shift, law_swapped_bytes};
#[allow(unused_imports)]
use crate::step::{
    executed, map_0f, map_0f_8_b, map_0f_c_f, map_0f_mid, map_5_7, map_8_9, map_a_b, map_c_d,
    map_e_f,
};
#[allow(unused_imports)]
use crate::sys::{sys_port_in, sys_port_out};
#[allow(unused_imports)]
use crate::word_laws::{
    byte_num, code_number, law_code_number, law_immediate, law_register_parts, law_sign_extended,
    signed_code,
};

verus! {

// ----- moves -----

/// What is stored in a register is read back, modulo its width, and the other registers stay.
proof fn lemma_put_part(s: CpuState, i: int, size: u8, v: u64)
    requires
        is_width(size),
        s.r.len() == 16,
        0 <= i < 16,
    ensures
        ({
            let t = store_operand(s, Rm::Reg(i as usize), size, v);
            &&& part(t, i, size) == v as int % modulus(size)
            &&& t == (CpuState { r: t.r, ..s })
            &&& t.r.len() == 16
            &&& forall|k: int| 0 <= k < 16 && k != i && size > 1 ==> #[trigger] t.r[k] == s.r[k]
        }),
{
    reveal(store_operand);
    law_register_write(s, i, size, v);
    lemma_mask(v, size);
}

/// `MOV` between two registers: the one holds what the other holds, and no flag changes.
pub proof fn law_mov(s: CpuState, p: Prefix, op: u8)
    requires
        0x88 <= op <= 0x8b,
        s.r.len() == 16,
        decode_rm(s, p.rex).1.1 is Reg,
    ensures
        ({
            let size = if op % 2 == 0 { 1u8 } else { operand_size(p) };
            let (reg, rm) = decode_rm(s, p.rex).1;
            let i = rm->Reg_0 as int;
            let t = executed(s, p, op).0;
            &&& op < 0x8a ==> part(t, i, size) == part(s, reg as int, size)
            &&& op >= 0x8a ==> part(t, reg as int, size) == part(s, i, size)
            &&& t.rflags == s.rflags
        }),
{
    let size = if op % 2 == 0 { 1u8 } else { operand_size(p) };
    lemma_decoded(s, p.rex);
    let (s1, (reg, rm)) = decode_rm(s, p.rex);
    let i = rm->Reg_0 as int;
    assert(executed(s, p, op).0 == do_mov(s, p, op)) by {
        reveal(executed);
        reveal(map_8_9);
    }
    reveal(load_operand);
    assert(part(s1, i, size) == part(s, i, size) && part(s1, reg as int, size) == part(s, reg as int, size));
    lemma_part(s1, i, size);
    lemma_part(s1, reg as int, size);
    lemma_mod_once(part(s1, i, size), modulus(size));
    lemma_mod_once(part(s1, reg as int, size), modulus(size));
    if op < 0x8a {
        lemma_put_part(s1, i, size, reg_value(s1, reg as int, size));
    } else {
        lemma_put_part(s1, reg as int, size, reg_value(s1, i, size));
    }
}

/// `MOV` of an immediate of the full width to the register that the opcode names.
pub proof fn law_mov_immediate(s: CpuState, p: Prefix, op: u8)
    requires
        0xb0 <= op <= 0xbf,
        s.r.len() == 16,
    ensures
        ({
            let size = if op < 0xb8 { 1u8 } else { operand_size(p) };
            let reg = op % 8 + if p.rex % 2 == 1 { 8int } else { 0 };
            let t = executed(s, p, op).0;
            &&& part(t, reg, size) == code_number(s, size as nat)
            &&& t.rflags == s.rflags
            &&& t.rip as int == (s.rip + size) % 0x1_0000_0000_0000_0000
        }),
{
    let size = if op < 0xb8 { 1u8 } else { operand_size(p) };
    law_fetch(s, size as nat);
    law_code_number(s, size as nat);
    assert(executed(s, p, op).0 == do_mov_reg_imm(s, p, op)) by {
        reveal(executed);
        reveal(map_a_b);
    }
    let (s1, v) = fetch_bytes(s, size as nat);
    let reg = reg_field(op, p.rex) as int;
    lemma_put_part(s1, reg, size, v);
    lemma_mask(v, size);
    lemma_mod_once(v as int, modulus(size));
}

/// `MOV` of an immediate to a register operand: a byte, a word or a doubleword as it stands, and for
/// eight bytes four with their sign.
pub proof fn law_mov_immediate_operand(s: CpuState, p: Prefix, op: u8)
    requires
        op == 0xc6 || op == 0xc7,
        s.r.len() == 16,
        decode_rm(s, p.rex).1.1 is Reg,
    ensures
        ({
            let size = if op == 0xc6 { 1u8 } else { operand_size(p) };
            let (s1, (reg, rm)) = decode_rm(s, p.rex);
            let t = executed(s, p, op).0;
            let z = part(t, rm->Reg_0 as int, size);
            &&& size < 8 ==> z == code_number(s1, size as nat)
            &&& size == 8 ==> signed(z, 8) == signed_code(s1, 4)
            &&& t.rflags == s.rflags
        }),
{
    let size = if op == 0xc6 { 1u8 } else { operand_size(p) };
    lemma_decoded(s, p.rex);
    let (s1, (reg, rm)) = decode_rm(s, p.rex);
    let i = rm->Reg_0 as int;
    assert(executed(s, p, op).0 == do_mov_imm(s, p, op)) by {
        reveal(executed);
        reveal(map_c_d);
    }
    law_fetch(s1, 1);
    law_code_number(s1, 1);
    law_code_number(s1, 2);
    law_code_number(s1, 4);
    if size > 1 {
        lemma_fetch_imm(s1, size);
        law_immediate(s1, size);
    }
    let (s2, v) = if op % 2 == 0 { fetch_bytes(s1, 1) } else { fetch_imm(s1, size) };
    lemma_put_part(s2, i, size, v);
    lemma_mask(v, size);
    lemma_mod_once(v as int, modulus(size));
}

/// `XCHG` of two registers of more than a byte: each holds what the other held.
pub proof fn law_xchg(s: CpuState, p: Prefix)
    requires
        s.r.len() == 16,
        decode_rm(s, p.rex).1.1 is Reg,
    ensures
        ({
            let size = operand_size(p);
            let (reg, rm) = decode_rm(s, p.rex).1;
            let i = rm->Reg_0 as int;
            let t = executed(s, p, 0x87).0;
            &&& part(t, i, size) == part(s, reg as int, size)
            &&& part(t, reg as int, size) == part(s, i, size)
            &&& t.rflags == s.rflags
        }),
{
    let size = operand_size(p);
    lemma_decoded(s, p.rex);
    let (s1, (reg, rm)) = decode_rm(s, p.rex);
    let i = rm->Reg_0 as int;
    assert(executed(s, p, 0x87).0 == do_xchg(s, p, 0x87)) by {
        reveal(executed);
        reveal(map_8_9);
    }
    reveal(load_operand);
    let a = reg_value(s1, i, size);
    let b = reg_value(s1, reg as int, size);
    lemma_part(s1, i, size);
    lemma_part(s1, reg as int, size);
    lemma_mod_once(a as int, modulus(size));
    lemma_mod_once(b as int, modulus(size));
    lemma_put_part(s1, i, size, b);
    lemma_put_part(store_operand(s1, rm, size, b), reg as int, size, a);
}

/// `XCHG` with the accumulator (91 to 97): each holds what the other held.
pub proof fn law_xchg_accumulator(s: CpuState, p: Prefix, op: u8)
    requires
        0x90 <= op <= 0x97,
        s.r.len() == 16,
    ensures
        ({
            let size = operand_size(p);
            let reg = op % 8 + if p.rex % 2 == 1 { 8int } else { 0 };
            let t = executed(s, p, op).0;
            &&& part(t, 0, size) == part(s, reg, size)
            &&& part(t, reg, size) == part(s, 0, size)
            &&& t.rflags == s.rflags
        }),
{
    let size = operand_size(p);
    let reg = reg_field(op, p.rex) as int;
    assert(executed(s, p, op).0 == do_xchg_acc(s, p, op)) by {
        reveal(executed);
        reveal(map_8_9);
    }
    lemma_part(s, 0, size);
    lemma_part(s, reg, size);
    let a = s.r[0] & mask_of(size);
    let b = s.r[reg] & mask_of(size);
    lemma_mask(s.r[0], size);
    lemma_mask(s.r[reg], size);
    lemma_mod_once(a as int, modulus(size));
    lemma_mod_once(b as int, modulus(size));
    if reg != 0 {
        lemma_put_part(s, 0, size, b);
        lemma_put_part(store_operand(s, Rm::Reg(0), size, b), reg, size, a);
    }
}

/// A value extended with its sign, cut to a width at least as large, is the same number.
proof fn lemma_extended(v: u64, from: u8, size: u8)
    requires
        is_width(from),
        is_width(size),
        from <= size,
    ensures
        signed((sext_of(v, from) & mask_of(size)) as int, size) == signed(low(v, from), from),
        signed(sext_of(v, from) as int % modulus(size), size) == signed(low(v, from), from),
{
    law_sign_extended(v, from);
    lemma_mask(v, from);
    lemma_mask(sext_of(v, from), size);
}

/// `MOVZX` and `MOVSX` between registers: the same number, unsigned or signed, at a greater width.
pub proof fn law_extending_moves(s: CpuState, p: Prefix, op: u8)
    requires
        op == 0xb6 || op == 0xb7 || op == 0xbe || op == 0xbf,
        s.r.len() == 16,
        fetch_byte(s).1 == op,
        decode_rm(fetch_byte(s).0, p.rex).1.1 is Reg,
    ensures
        ({
            let size = operand_size(p);
            let from = if op % 2 == 0 { 1u8 } else { 2u8 };
            let (reg, rm) = decode_rm(fetch_byte(s).0, p.rex).1;
            let x = part(s, rm->Reg_0 as int, from);
            let t = executed(s, p, 0x0f).0;
            let z = part(t, reg as int, size);
            &&& op < 0xb8 ==> z == x
            &&& op > 0xb8 ==> signed(z, size) == signed(x, from)
            &&& t.rflags == s.rflags
        }),
{
    let size = operand_size(p);
    let from = if op % 2 == 0 { 1u8 } else { 2u8 };
    let s0 = fetch_byte(s).0;
    law_fetch(s, 0);
    lemma_decoded(s0, p.rex);
    let (s1, (reg, rm)) = decode_rm(s0, p.rex);
    let i = rm->Reg_0 as int;
    assert(executed(s, p, 0x0f).0 == do_extend(s0, p, op)) by {
        reveal(executed);
        reveal(map_0f);
        reveal(map_0f_8_b);
    }
    reveal(load_operand);
    let v = reg_value(s1, i, from);
    assert(part(s1, i, from) == part(s, i, from));
    lemma_part(s1, i, from);
    lemma_mod_once(v as int, modulus(from));
    lemma_extended(v, from, size);
    lemma_mask(sext_of(v, from), size);
    lemma_mask(sext_of(v, from) & mask_of(size), size);
    lemma_mod_once(v as int, modulus(size));
    lemma_put_part(s1, reg as int, size, v);
    lemma_put_part(s1, reg as int, size, sext_of(v, from) & mask_of(size));
}

/// `MOVSXD`: a signed doubleword at the operand size.
pub proof fn law_movsxd(s: CpuState, p: Prefix)
    requires
        s.r.len() == 16,
        decode_rm(s, p.rex).1.1 is Reg,
        operand_size(p) >= 4,
    ensures
        ({
            let size = operand_size(p);
            let (reg, rm) = decode_rm(s, p.rex).1;
            let t = executed(s, p, 0x63).0;
            &&& signed(part(t, reg as int, size), size) == signed(part(s, rm->Reg_0 as int, 4), 4)
            &&& t.rflags == s.rflags
        }),
{
    let size = operand_size(p);
    lemma_decoded(s, p.rex);
    let (s1, (reg, rm)) = decode_rm(s, p.rex);
    let i = rm->Reg_0 as int;
    assert(executed(s, p, 0x63).0 == do_movsxd(s, p)) by {
        reveal(executed);
        reveal(map_5_7);
    }
    reveal(load_operand);
    let v = reg_value(s1, i, 4);
    lemma_part(s1, i, 4);
    lemma_extended(v, 4, size);
    lemma_mask(sext_of(v, 4), size);
    lemma_mask(sext_of(v, 4) & mask_of(size), size);
    lemma_put_part(s1, reg as int, size, sext_of(v, 4) & mask_of(size));
}

/// `CBW`, `CWDE`, `CDQE` extend the lower half of the accumulator with its sign; `CWD`, `CDQ`, `CQO`
/// spread its sign over `RDX`.
pub proof fn law_accumulator_sign(s: CpuState, p: Prefix)
    requires
        s.r.len() == 16,
    ensures
        ({
            let size = operand_size(p);
            let half = (size / 2) as u8;
            let t = executed(s, p, 0x98).0;
            let u = executed(s, p, 0x99).0;
            &&& signed(part(t, 0, size), size) == signed(part(s, 0, half), half)
            &&& t.rflags == s.rflags
            &&& part(u, 2, size) == if signed(part(s, 0, size), size) < 0 { modulus(size) - 1 } else { 0 }
            &&& part(u, 0, size) == part(s, 0, size)
            &&& u.rflags == s.rflags
        }),
{
    let size = operand_size(p);
    let half = (size / 2) as u8;
    assert(executed(s, p, 0x98).0 == do_extend_acc(s, p) && executed(s, p, 0x99).0 == do_spread_sign(s, p)) by {
        reveal(executed);
        reveal(map_8_9);
    }
    lemma_part(s, 0, half);
    lemma_part(s, 0, size);
    lemma_mask(s.r[0], half);
    lemma_mask(s.r[0], size);
    lemma_extended(s.r[0], half, size);
    lemma_put_part(s, 0, size, sext_of(s.r[0], half));
    lemma_mask(sext_of(s.r[0], half), size);
    lemma_signed(s.r[0], size);
    let m = if sign_of(s.r[0], size) { mask_of(size) } else { 0 };
    lemma_put_part(s, 2, size, m);
    lemma_mod_once(m as int, modulus(size));
}

// ----- conditions -----

/// What a condition code asks of the flags: overflow, carry, zero, not above, sign, parity, less, not
/// greater; odd codes ask the opposite.
pub open spec fn holds(f: u64, cc: int) -> bool {
    let carry = bit_at(f, 0);
    let parity = bit_at(f, 2);
    let zero = bit_at(f, 6);
    let sign = bit_at(f, 7);
    let overflow = bit_at(f, 11);
    if cc == 0 {
        overflow
    } else if cc == 1 {
        !overflow
    } else if cc == 2 {
        carry
    } else if cc == 3 {
        !carry
    } else if cc == 4 {
        zero
    } else if cc == 5 {
        !zero
    } else if cc == 6 {
        carry || zero
    } else if cc == 7 {
        !carry && !zero
    } else if cc == 8 {
        sign
    } else if cc == 9 {
        !sign
    } else if cc == 10 {
        parity
    } else if cc == 11 {
        !parity
    } else if cc == 12 {
        sign != overflow
    } else if cc == 13 {
        sign == overflow
    } else if cc == 14 {
        zero || sign != overflow
    } else {
        !zero && sign == overflow
    }
}

/// The sixteen condition codes read the flags as they should.
pub proof fn law_conditions(f: u64, cc: u8)
    requires
        cc < 16,
    ensures
        condition(f, cc) == holds(f, cc as int),
{
    lemma_flags_at(0, f, 0);
}

/// `SETcc` on a register: one where the condition holds, and zero.
pub proof fn law_setcc(s: CpuState, p: Prefix, op: u8)
    requires
        0x90 <= op <= 0x9f,
        s.r.len() == 16,
        fetch_byte(s).1 == op,
        decode_rm(fetch_byte(s).0, p.rex).1.1 is Reg,
    ensures
        ({
            let i = decode_rm(fetch_byte(s).0, p.rex).1.1->Reg_0 as int;
            let t = executed(s, p, 0x0f).0;
            &&& part(t, i, 1) == if holds(s.rflags, op - 0x90) { 1int } else { 0 }
            &&& t.rflags == s.rflags
        }),
{
    let s0 = fetch_byte(s).0;
    law_fetch(s, 0);
    lemma_decoded(s0, p.rex);
    let (s1, (reg, rm)) = decode_rm(s0, p.rex);
    assert(executed(s, p, 0x0f).0 == do_setcc(s0, p, op)) by {
        reveal(executed);
        reveal(map_0f);
        reveal(map_0f_8_b);
    }
    law_conditions(s.rflags, (op - 0x90) as u8);
    lemma_put_part(s1, rm->Reg_0 as int, 1, if condition(s1.rflags, (op % 16) as u8) { 1 } else { 0 });
}

/// `CMOVcc` between registers: a move where the condition holds, and no change of the registers
/// elsewhere.
pub proof fn law_cmov(s: CpuState, p: Prefix, op: u8)
    requires
        0x40 <= op <= 0x4f,
        s.r.len() == 16,
        fetch_byte(s).1 == op,
        decode_rm(fetch_byte(s).0, p.rex).1.1 is Reg,
    ensures
        ({
            let size = operand_size(p);
            let (reg, rm) = decode_rm(fetch_byte(s).0, p.rex).1;
            let t = executed(s, p, 0x0f).0;
            &&& holds(s.rflags, op - 0x40) ==> part(t, reg as int, size) == part(s, rm->Reg_0 as int, size)
            &&& !holds(s.rflags, op - 0x40) ==> t.r == s.r
            &&& t.rflags == s.rflags
        }),
{
    let size = operand_size(p);
    let s0 = fetch_byte(s).0;
    law_fetch(s, 0);
    lemma_decoded(s0, p.rex);
    let (s1, (reg, rm)) = decode_rm(s0, p.rex);
    let i = rm->Reg_0 as int;
    assert(executed(s, p, 0x0f).0 == do_cmov(s0, p, op)) by {
        reveal(executed);
        reveal(map_0f);
        reveal(map_0f_mid);
    }
    reveal(load_operand);
    law_conditions(s.rflags, (op - 0x40) as u8);
    lemma_part(s1, i, size);
    lemma_mod_once(part(s1, i, size), modulus(size));
    lemma_put_part(s1, reg as int, size, reg_value(s1, i, size));
}

// ----- jumps -----

proof fn lemma_relative(s: CpuState, n: u8)
    requires
        n == 1 || n == 4,
    ensures
        ({
            let (t, d) = fetch_bytes(s, n as nat);
            let next = (s.rip + n) % 0x1_0000_0000_0000_0000;
            &&& t.rip == next
            &&& t.rip.wrapping_add(sext_of(d, n)) as int == (next + signed_code(s, n))
                % 0x1_0000_0000_0000_0000
            &&& only_fetched(s, t)
        }),
{
    law_fetch(s, n as nat);
    law_code_number(s, n as nat);
    let (t, d) = fetch_bytes(s, n as nat);
    law_sign_extended(d, n);
    lemma_mask(d, n);
    lemma_mod_once(d as int, modulus(n));
    let m = 0x1_0000_0000_0000_0000;
    lemma_mod_once(t.rip + signed_code(s, n), m);
}

/// The opcode of a short jump: conditional, on a zero `RCX`, or always.
pub open spec fn short_jump(s: CpuState, op: u8) -> bool {
    if op == 0xe3 {
        s.r[1] == 0
    } else if op == 0xeb {
        true
    } else {
        holds(s.rflags, op - 0x70)
    }
}

/// Jumps: where they are taken, the signed displacement is added to the address of the next
/// instruction; else that instruction follows.
pub proof fn law_jumps(s: CpuState, p: Prefix, op: u8)
    requires
        0x70 <= op <= 0x7f || op == 0xe3 || op == 0xeb,
    ensures
        ({
            let next = (s.rip + 1) % 0x1_0000_0000_0000_0000;
            let t = executed(s, p, op).0;
            &&& t.rip == if short_jump(s, op) {
                (next + signed_code(s, 1)) % 0x1_0000_0000_0000_0000
            } else {
                next
            }
            &&& t.r == s.r
            &&& t.rflags == s.rflags
        }),
        ({
            let next = (s.rip + 4) % 0x1_0000_0000_0000_0000;
            let t = executed(s, p, 0xe9).0;
            &&& t.rip == (next + signed_code(s, 4)) % 0x1_0000_0000_0000_0000
            &&& t.r == s.r
        }),
{
    lemma_relative(s, 1);
    lemma_relative(s, 4);
    if op < 0x80 {
        law_conditions(s.rflags, (op - 0x70) as u8);
    }
    reveal(executed);
    reveal(map_5_7);
    reveal(map_e_f);
}

/// Conditional jumps with four bytes of displacement.
pub proof fn law_near_jumps(s: CpuState, p: Prefix, op: u8)
    requires
        0x80 <= op <= 0x8f,
        fetch_byte(s).1 == op,
    ensures
        ({
            let s0 = fetch_byte(s).0;
            let next = (s0.rip + 4) % 0x1_0000_0000_0000_0000;
            let t = executed(s, p, 0x0f).0;
            &&& t.rip == if holds(s.rflags, op - 0x80) {
                (next + signed_code(s0, 4)) % 0x1_0000_0000_0000_0000
            } else {
                next
            }
            &&& t.r == s.r
            &&& t.rflags == s.rflags
        }),
{
    law_fetch(s, 0);
    let s0 = fetch_byte(s).0;
    lemma_relative(s0, 4);
    law_conditions(s.rflags, (op - 0x80) as u8);
    reveal(executed);
    reveal(map_0f);
    reveal(map_0f_8_b);
}

/// `CALL` and `RET`: a call pushes the address of the next instruction and goes to the target; a
/// return goes where the top of the stack says, and frees that and the bytes it is told of.
pub proof fn law_call_and_return(s: CpuState, p: Prefix)
    requires
        s.r.len() == 16,
        runnable(s),
    ensures
        ({
            let (s1, d) = fetch_bytes(s, 4);
            let next = (s.rip + 4) % 0x1_0000_0000_0000_0000;
            let target = (next + signed_code(s, 4)) % 0x1_0000_0000_0000_0000;
            let pushed = stack_push(s1, next as u64);
            let t = executed(s, p, 0xe8).0;
            thunk_reg(pushed, target as u64) is None ==> t.rip == target && t == with_rip(pushed, t.rip)
        }),
        ({
            let (s1, v) = stack_pop(s, 8);
            let t = executed(s, p, 0xc3).0;
            t.rip == v && t.r == s1.r
        }),
        ({
            let (s1, v) = stack_pop(fetch_bytes(s, 2).0, 8);
            let t = executed(s, p, 0xc2).0;
            &&& t.rip == v
            &&& t.r[4] as int == (s1.r[4] + code_number(s, 2)) % 0x1_0000_0000_0000_0000
        }),
{
    lemma_relative(s, 4);
    law_fetch(s, 2);
    law_code_number(s, 2);
    let (s1, d) = fetch_bytes(s, 4);
    assert(stack_push(s1, s1.rip).rip == s1.rip) by {
        reveal(stack_push);
        let sp = s1.r[4].wrapping_sub(8);
        law_store_keeps(with_reg(s1, 4, sp), sp, 8, s1.rip);
    }
    let t2 = fetch_bytes(s, 2).0;
    assert(stack_pop(t2, 8).0.r.len() == 16 && stack_pop(s, 8).0.r.len() == 16) by {
        reveal(stack_pop);
        law_load_keeps(t2, t2.r[4], 8);
        law_load_keeps(s, s.r[4], 8);
    }
    let q = stack_pop(s, 8).0;
    assert(q.r.update(4, q.r[4]) =~= q.r);
    assert(executed(s, p, 0xe8).0 == do_call(s) && executed(s, p, 0xc3).0 == do_ret(s, false) && executed(
        s,
        p,
        0xc2,
    ).0 == do_ret(s, true)) by {
        reveal(executed);
        reveal(map_e_f);
        reveal(map_c_d);
    }
}

/// The stack grows down in eights: a push stores below the stack pointer and moves it there, and a
/// pop loads where it points and moves it up.
pub proof fn law_stack_moves(s: CpuState, v: u64)
    requires
        s.r.len() == 16,
        runnable(s),
    ensures
        ({
            let sp = (s.r[4] - 8) % 0x1_0000_0000_0000_0000;
            let t = stack_push(s, v);
            &&& t.r[4] == sp
            &&& t == mem_write(with_reg(s, 4, sp as u64), sp as u64, 8, v)
            &&& forall|k: int| 0 <= k < 16 && k != 4 ==> #[trigger] t.r[k] == s.r[k]
        }),
        ({
            let (t, w) = stack_pop(s, 8);
            &&& w == mem_read(s, s.r[4], 8).1
            &&& t.r[4] as int == (s.r[4] + 8) % 0x1_0000_0000_0000_0000
            &&& forall|k: int| 0 <= k < 16 && k != 4 ==> #[trigger] t.r[k] == s.r[k]
        }),
{
    reveal(stack_push);
    reveal(stack_pop);
    let sp = s.r[4].wrapping_sub(8);
    let s1 = with_reg(s, 4, sp);
    law_store_keeps(s1, sp, 8, v);
    law_load_keeps(s, s.r[4], 8);
    lemma_mod_once(s.r[4] - 8, 0x1_0000_0000_0000_0000);
    lemma_mod_once(s.r[4] + 8, 0x1_0000_0000_0000_0000);
}

/// `PUSH` and `POP` of a register, of an immediate with its sign, and of the flags; `LEAVE` pops
/// `RBP` where `RBP` points.
pub proof fn law_pushes(s: CpuState, p: Prefix, op: u8)
    requires
        0x50 <= op <= 0x5f,
        s.r.len() == 16,
    ensures
        ({
            let reg = op % 8 + if p.rex % 2 == 1 { 8int } else { 0 };
            let t = executed(s, p, op).0;
            &&& op < 0x58 ==> t == stack_push(s, s.r[reg])
            &&& op >= 0x58 ==> t == with_reg(stack_pop(s, 8).0, reg, stack_pop(s, 8).1)
        }),
        executed(s, p, 0x9c).0 == stack_push(s, s.rflags),
        ({
            let (t, v) = stack_pop(with_reg(s, 4, s.r[5]), 8);
            executed(s, p, 0xc9).0 == with_reg(t, 5, v)
        }),
        executed(s, p, 0x6a).0 == stack_push(
            fetch_bytes(s, 1).0,
            (signed_code(s, 1) % 0x1_0000_0000_0000_0000) as u64,
        ),
        executed(s, p, 0x68).0 == stack_push(
            fetch_bytes(s, 4).0,
            (signed_code(s, 4) % 0x1_0000_0000_0000_0000) as u64,
        ),
{
    law_code_number(s, 1);
    law_code_number(s, 4);
    let d = fetch_bytes(s, 1).1;
    let e = fetch_bytes(s, 4).1;
    law_sign_extended(d, 1);
    law_sign_extended(e, 4);
    lemma_mod_once(d as int, 0x100);
    lemma_mod_once(e as int, 0x1_0000_0000);
    lemma_mod_once(signed_code(s, 1), 0x1_0000_0000_0000_0000);
    lemma_mod_once(signed_code(s, 4), 0x1_0000_0000_0000_0000);
    reveal(executed);
    reveal(map_5_7);
    reveal(map_8_9);
    reveal(map_c_d);
}

// ----- single flags -----

/// `CMC`, `CLC`, `STC`, `CLI`, `STI`, `CLD`, `STD` change one flag each and nothing else.
pub proof fn law_flag_instructions(s: CpuState, p: Prefix, op: u8, i: u64)
    requires
        op == 0xf5 || 0xf8 <= op <= 0xfd,
        i < 64,
    ensures
        ({
            let t = executed(s, p, op).0;
            let at: u64 = if op <= 0xf9 { 0 } else if op <= 0xfb { 9 } else { 10 };
            &&& bit_at(t.rflags, i) == if i != at {
                bit_at(s.rflags, i)
            } else if op == 0xf5 {
                !bit_at(s.rflags, i)
            } else {
                op % 2 == 1
            }
            &&& t == with_flags(s, t.rflags)
        }),
{
    reveal(executed);
    reveal(map_e_f);
    let at: u64 = if op <= 0xf9 { 0 } else if op <= 0xfb { 9 } else { 10 };
    let b: u64 = if op <= 0xf9 { 1 } else if op <= 0xfb { 0x200 } else { 0x400 };
    lemma_bits_of(s.rflags, b, i);
    lemma_bits_of(s.rflags, !b, i);
    lemma_bits_of(b, 0, i);
    lemma_flags_at(0, s.rflags, 0);
    crate::bit_facts::lemma_bits_of_words(at, i, 0, false, false);
}

// ----- exchanges -----

/// `XADD` of two different registers of more than a byte: the one holds the sum, with its flags, and
/// the other what the first held.
pub proof fn law_xadd(s: CpuState, p: Prefix)
    requires
        s.r.len() == 16,
        fetch_byte(s).1 == 0xc1,
        ({
            let (reg, rm) = decode_rm(fetch_byte(s).0, p.rex).1;
            rm is Reg && rm->Reg_0 != reg
        }),
    ensures
        ({
            let size = operand_size(p);
            let (reg, rm) = decode_rm(fetch_byte(s).0, p.rex).1;
            let i = rm->Reg_0 as int;
            let x = part(s, i, size);
            let y = part(s, reg as int, size);
            let t = executed(s, p, 0x0f).0;
            &&& part(t, i, size) == (x + y) % modulus(size)
            &&& part(t, reg as int, size) == x
            &&& bit_at(t.rflags, 0) == (x + y >= modulus(size))
            &&& tells(t.rflags, (x + y) % modulus(size), size)
        }),
{
    let size = operand_size(p);
    let s0 = fetch_byte(s).0;
    law_fetch(s, 0);
    lemma_decoded(s0, p.rex);
    let (s1, (reg, rm)) = decode_rm(s0, p.rex);
    let i = rm->Reg_0 as int;
    assert(executed(s, p, 0x0f).0 == do_xadd(s0, p, size)) by {
        reveal(executed);
        reveal(map_0f);
        reveal(map_0f_c_f);
    }
    reveal(load_operand);
    let m = modulus(size);
    let a = reg_value(s1, i, size);
    let dst = a & mask_of(size);
    let src = s1.r[reg as int] & mask_of(size);
    lemma_part(s1, i, size);
    lemma_part(s1, reg as int, size);
    lemma_mask(a, size);
    lemma_mask(s1.r[reg as int], size);
    lemma_mod_once(a as int, m);
    lemma_mod_once(src as int, m);
    lemma_sum(s1.rflags, dst, src, 0, size);
    let sum = ((low(dst, size) + low(src, size)) % m) as u64;
    lemma_mod_once(sum as int, m);
    let s3 = with_flags(s1, add_flags(s1.rflags, dst, src, 0, size));
    lemma_put_part(s3, reg as int, size, dst);
    let s4 = store_operand(s3, Rm::Reg(reg), size, dst);
    lemma_put_part(s4, i, size, sum);
}

/// `CMPXCHG` on a register of more than a byte, not the accumulator: where it equals the accumulator
/// it takes the other register's value, else the accumulator takes its value; the zero flag says
/// which.
pub proof fn law_compare_exchange(s: CpuState, p: Prefix)
    requires
        s.r.len() == 16,
        fetch_byte(s).1 == 0xb1,
        ({
            let (reg, rm) = decode_rm(fetch_byte(s).0, p.rex).1;
            rm is Reg && rm->Reg_0 != 0
        }),
    ensures
        ({
            let size = operand_size(p);
            let (reg, rm) = decode_rm(fetch_byte(s).0, p.rex).1;
            let i = rm->Reg_0 as int;
            let t = executed(s, p, 0x0f).0;
            let same = part(s, 0, size) == part(s, i, size);
            &&& bit_at(t.rflags, 6) == same
            &&& bit_at(t.rflags, 0) == (part(s, 0, size) < part(s, i, size))
            &&& same ==> part(t, i, size) == part(s, reg as int, size) && t.r[0] == s.r[0]
            &&& !same ==> part(t, 0, size) == part(s, i, size) && t.r[i] == s.r[i]
        }),
{
    let size = operand_size(p);
    let s0 = fetch_byte(s).0;
    law_fetch(s, 0);
    lemma_decoded(s0, p.rex);
    let (s1, (reg, rm)) = decode_rm(s0, p.rex);
    let i = rm->Reg_0 as int;
    assert(executed(s, p, 0x0f).0 == do_exchange(s0, p, size)) by {
        reveal(executed);
        reveal(map_0f);
        reveal(map_0f_8_b);
    }
    reveal(load_operand);
    let m = modulus(size);
    let a = reg_value(s1, i, size);
    let dst = a & mask_of(size);
    let acc = s1.r[0] & mask_of(size);
    let src = s1.r[reg as int] & mask_of(size);
    lemma_part(s1, i, size);
    lemma_part(s1, 0, size);
    lemma_part(s1, reg as int, size);
    lemma_mask(a, size);
    lemma_mask(s1.r[0], size);
    lemma_mask(s1.r[reg as int], size);
    lemma_mod_once(a as int, m);
    lemma_mod_once(acc as int, m);
    lemma_mod_once(src as int, m);
    lemma_mod_once(dst as int, m);
    lemma_difference(s1.rflags, acc, dst, 0, size);
    reveal(tells);
    let s3 = with_flags(s1, sub_flags(s1.rflags, acc, dst, 0, size));
    lemma_put_part(s3, i, size, src);
    lemma_put_part(s3, 0, size, dst);
}

/// `BSWAP` reverses the bytes of a register of eight or four bytes.
pub proof fn law_bswap(s: CpuState, p: Prefix, op: u8, k: int)
    requires
        0xc8 <= op <= 0xcf,
        s.r.len() == 16,
        fetch_byte(s).1 == op,
        operand_size(p) >= 4,
        0 <= k < operand_size(p),
    ensures
        ({
            let size = operand_size(p);
            let reg = op % 8 + if p.rex % 2 == 1 { 8int } else { 0 };
            let t = executed(s, p, 0x0f).0;
            &&& byte_num(part(t, reg, size), k) == byte_num(part(s, reg, size), size - 1 - k)
            &&& t.rflags == s.rflags
        }),
{
    let size = operand_size(p);
    let s0 = fetch_byte(s).0;
    law_fetch(s, 0);
    let reg = reg_field(op, p.rex) as int;
    assert(executed(s, p, 0x0f).0 == do_bswap(s0, p, op)) by {
        reveal(executed);
        reveal(map_0f);
        reveal(map_0f_c_f);
    }
    let v = s0.r[reg] & mask_of(size);
    lemma_part(s0, reg, size);
    lemma_mask(s0.r[reg], size);
    law_swapped_bytes(v);
    let w = if size == 8 { swapped64(v) } else { swapped32(v) };
    lemma_put_part(s0, reg, size, w);
    lemma_mod_once(w as int, modulus(size));
}

// ----- addresses -----

/// The address of a memory operand without a SIB byte: a register, or the next instruction where the
/// field says 5 without a displacement, with a signed displacement of one or four bytes, and the base
/// of the segment in use. All of it wraps around at 64 bits.
pub proof fn law_simple_address(s: CpuState, rex: u8)
    requires
        fetch_byte(s).1 / 64 < 3,
        fetch_byte(s).1 % 8 != 4,
    ensures
        ({
            let (s1, m) = fetch_byte(s);
            let (s2, (reg, rm)) = decode_rm(s, rex);
            let md = m / 64;
            let base = s.r[m % 8 + if rex % 2 == 1 { 8int } else { 0 }] as int;
            let seg = override_base(s) as int;
            let big = 0x1_0000_0000_0000_0000;
            let a = operand_addr(s2, rm);
            &&& reg == (m / 8) % 8 + if (rex / 4) % 2 == 1 { 8int } else { 0 }
            &&& a is Some
            &&& a->0 as int == if md == 0 && m % 8 == 5 {
                (s2.rip + signed_code(s1, 4) + seg) % big
            } else if md == 0 {
                (base + seg) % big
            } else {
                (base + signed_code(s1, if md == 1 { 1u8 } else { 4u8 }) + seg) % big
            }
        }),
{
    reveal(decode_rm);
    law_fetch(s, 0);
    let (s1, m) = fetch_byte(s);
    lemma_relative(s1, 1);
    lemma_relative(s1, 4);
    law_code_number(s1, 1);
    law_code_number(s1, 4);
    let s4 = fetch_bytes(s1, 4).0;
    let d1 = fetch_bytes(s1, 1).1;
    let d4 = fetch_bytes(s1, 4).1;
    law_sign_extended(d1, 1);
    law_sign_extended(d4, 4);
    lemma_mod_once(d1 as int, 0x100);
    lemma_mod_once(d4 as int, 0x1_0000_0000);
    let b = s.r[m % 8 + if rex % 2 == 1 { 8int } else { 0 }];
    let seg = override_base(s);
    lemma_three(b, sext_of(d1, 1), signed_code(s1, 1), seg);
    lemma_three(b, sext_of(d4, 4), signed_code(s1, 4), seg);
    lemma_three(s4.rip, sext_of(d4, 4), signed_code(s1, 4), seg);
    lemma_three(b, 0, 0, seg);
}

/// Three words added, the second one signed.
proof fn lemma_three(a: u64, d: u64, x: int, c: u64)
    requires
        d == x || d == x + 0x1_0000_0000_0000_0000,
    ensures
        a.wrapping_add(d).wrapping_add(c) as int == (a + x + c) % 0x1_0000_0000_0000_0000,
{
    let m = 0x1_0000_0000_0000_0000int;
    let y = a + x + c;
    let r = a.wrapping_add(d).wrapping_add(c) as int;
    assert(exists|k: int| -3 <= k <= 3 && y == #[trigger] (k * m) + r) by {
        assert(y == 0 * m + r || y == 1 * m + r || y == 2 * m + r || y == -1 * m + r || y == -2 * m + r);
    }
    let k = choose|k: int| -3 <= k <= 3 && y == #[trigger] (k * m) + r;
    vstd::arithmetic::div_mod::lemma_fundamental_div_mod_converse(y, m, k, r);
}

/// The scaled index of a SIB byte: the register times one, two, four or eight, or nothing for 4.
pub proof fn law_scaled_index(s: CpuState, sib: u8, rex: u8)
    ensures
        ({
            let i = (sib / 8) % 8 + if (rex / 2) % 2 == 1 { 8int } else { 0 };
            let scale = if sib / 64 == 0 { 1int } else if sib / 64 == 1 { 2 } else if sib / 64 == 2 { 4 } else { 8 };
            sib_index(s, sib, rex) as int == if i == 4 {
                0
            } else {
                (s.r[i] * scale) % 0x1_0000_0000_0000_0000
            }
        }),
{
    let i = (sib / 8) % 8 + if (rex / 2) % 2 == 1 { 8int } else { 0 };
    let v = s.r[i];
    let big = 0x1_0000_0000_0000_0000int;
    crate::bit_facts::lemma_bits_of_words(v, 0, 0, false, false);
    vstd::arithmetic::div_mod::lemma_fundamental_div_mod_converse(v as int, big, 0, v as int);
    vstd::arithmetic::div_mod::lemma_fundamental_div_mod_converse(
        v * 2,
        big,
        v as int / 0x8000_0000_0000_0000,
        (v << 1) as int,
    );
    vstd::arithmetic::div_mod::lemma_fundamental_div_mod_converse(
        v * 4,
        big,
        v as int / 0x4000_0000_0000_0000,
        (v << 2) as int,
    );
    vstd::arithmetic::div_mod::lemma_fundamental_div_mod_converse(
        v * 8,
        big,
        v as int / 0x2000_0000_0000_0000,
        (v << 3) as int,
    );
}

/// The address of a memory operand with a SIB byte: a base register, or four bytes where the field
/// says 5 without a displacement, the scaled index, a displacement, and the base of the segment in
/// use.
pub proof fn law_sib_address(s: CpuState, rex: u8)
    requires
        fetch_byte(s).1 / 64 < 3,
        fetch_byte(s).1 % 8 == 4,
    ensures
        ({
            let (s1, m) = fetch_byte(s);
            let (s2, sib) = fetch_byte(s1);
            let (s3, (reg, rm)) = decode_rm(s, rex);
            let md = m / 64;
            let base = s.r[sib % 8 + if rex % 2 == 1 { 8int } else { 0 }] as int;
            let index = sib_index(s, sib, rex) as int;
            let seg = override_base(s) as int;
            let big = 0x1_0000_0000_0000_0000;
            rm matches Rm::Mem(a) && a as int == if md == 0 && sib % 8 == 5 {
                (index + signed_code(s2, 4) + seg) % big
            } else if md == 0 {
                (base + index + seg) % big
            } else {
                (base + index + signed_code(s2, if md == 1 { 1u8 } else { 4u8 }) + seg) % big
            }
        }),
{
    reveal(decode_rm);
    law_fetch(s, 0);
    let (s1, m) = fetch_byte(s);
    law_fetch(s1, 0);
    let (s2, sib) = fetch_byte(s1);
    lemma_relative(s2, 1);
    lemma_relative(s2, 4);
    law_code_number(s2, 1);
    law_code_number(s2, 4);
    let d1 = fetch_bytes(s2, 1).1;
    let d4 = fetch_bytes(s2, 4).1;
    law_sign_extended(d1, 1);
    law_sign_extended(d4, 4);
    lemma_mod_once(d1 as int, 0x100);
    lemma_mod_once(d4 as int, 0x1_0000_0000);
    let b = s.r[sib % 8 + if rex % 2 == 1 { 8int } else { 0 }];
    let index = sib_index(s, sib, rex);
    let seg = override_base(s);
    lemma_three(index, sext_of(d4, 4), signed_code(s2, 4), seg);
    lemma_three(b.wrapping_add(index), 0, 0, seg);
    lemma_three(b, index, index as int, seg);
    lemma_four(b, index, sext_of(d1, 1), signed_code(s2, 1), seg);
    lemma_four(b, index, sext_of(d4, 4), signed_code(s2, 4), seg);
}

proof fn lemma_four(a: u64, b: u64, d: u64, x: int, c: u64)
    requires
        d == x || d == x + 0x1_0000_0000_0000_0000,
    ensures
        a.wrapping_add(b).wrapping_add(d).wrapping_add(c) as int == (a + b + x + c)
            % 0x1_0000_0000_0000_0000,
{
    let m = 0x1_0000_0000_0000_0000int;
    let w = a.wrapping_add(b);
    lemma_three(w, d, x, c);
    let y = w + x + c;
    if w != a + b {
        assert(a + b + x + c == y + m);
        vstd::arithmetic::div_mod::lemma_mod_add_multiples_vanish(y, m);
    }
}

/// `LEA` gives the address itself, at the operand size, and loads nothing.
pub proof fn law_lea(s: CpuState, p: Prefix)
    requires
        s.r.len() == 16,
        decode_rm(s, p.rex).1.1 !is Reg,
    ensures
        ({
            let size = operand_size(p);
            let (s1, (reg, rm)) = decode_rm(s, p.rex);
            let t = executed(s, p, 0x8d).0;
            &&& part(t, reg as int, size) == operand_addr(s1, rm)->0 as int % modulus(size)
            &&& t.rflags == s.rflags
            &&& t.ram == s.ram
        }),
{
    let size = operand_size(p);
    lemma_decoded(s, p.rex);
    let (s1, (reg, rm)) = decode_rm(s, p.rex);
    assert(executed(s, p, 0x8d).0 == do_lea(s, p)) by {
        reveal(executed);
        reveal(map_8_9);
    }
    let a = operand_addr(s1, rm)->0;
    lemma_mask(a, size);
    lemma_put_part(s1, reg as int, size, a & mask_of(size));
    lemma_mod_once((a & mask_of(size)) as int, modulus(size));
}

// ----- bits -----

proof fn lemma_ends(v: u64, i: u64)
    requires
        v != 0,
        i < 64,
    ensures
        vstd::std_specs::bits::u64_trailing_zeros(v) < 64,
        bit_at(v, vstd::std_specs::bits::u64_trailing_zeros(v) as u64),
        i < vstd::std_specs::bits::u64_trailing_zeros(v) ==> !bit_at(v, i),
        0 <= vstd::std_specs::bits::u64_leading_zeros(v) < 64,
        bit_at(v, (63 - vstd::std_specs::bits::u64_leading_zeros(v)) as u64),
        i > 63 - vstd::std_specs::bits::u64_leading_zeros(v) ==> !bit_at(v, i),
{
    broadcast use vstd::std_specs::bits::group_bits_axioms;

    let x = vstd::std_specs::bits::u64_leading_zeros(v);
    assert(0 <= x <= 64);
    assert(((63 - x) as u64) == 63 - x);
    assert((v >> ((63 - x) as u64)) & 1u64 != 0u64);
    crate::bit_facts::lemma_bits_of_words(v, 0, (63 - x) as u64, false, false);
    assert((v >> i) & 1 == (v >> i) & 1);
}

/// `BSF` and `BSR` between registers: the index of the lowest, or highest, set bit. Zero sets the zero
/// flag and leaves the registers.
pub proof fn law_bit_scans(s: CpuState, p: Prefix, op: u8, i: u64)
    requires
        op == 0xbc || op == 0xbd,
        s.r.len() == 16,
        fetch_byte(s).1 == op,
        decode_rm(fetch_byte(s).0, p.rex).1.1 is Reg,
        i < 64,
    ensures
        ({
            let size = operand_size(p);
            let (reg, rm) = decode_rm(fetch_byte(s).0, p.rex).1;
            let v = part(s, rm->Reg_0 as int, size) as u64;
            let t = executed(s, p, 0x0f).0;
            let k = part(t, reg as int, size);
            &&& bit_at(t.rflags, 6) == (v == 0)
            &&& v == 0 ==> t.r == s.r
            &&& v != 0 ==> k < 64 && bit_at(v, k as u64)
            &&& v != 0 && op == 0xbc && i < k ==> !bit_at(v, i)
            &&& v != 0 && op == 0xbd && i > k ==> !bit_at(v, i)
        }),
{
    let size = operand_size(p);
    let s0 = fetch_byte(s).0;
    law_fetch(s, 0);
    lemma_decoded(s0, p.rex);
    let (s1, (reg, rm)) = decode_rm(s0, p.rex);
    let i0 = rm->Reg_0 as int;
    assert(executed(s, p, 0x0f).0 == do_bit_scan(s0, p, op)) by {
        reveal(executed);
        reveal(map_0f);
        reveal(map_0f_8_b);
    }
    reveal(load_operand);
    let w = reg_value(s1, i0, size);
    lemma_part(s1, i0, size);
    lemma_mask(w, size);
    lemma_mod_once(w as int, modulus(size));
    let v = w & mask_of(size);
    assert(v == w);
    let g = with_bit(s1.rflags, ZF, v == 0);
    let s3 = with_flags(s1, g);
    lemma_bits_of(s1.rflags, 0x40, 6);
    lemma_bits_of(s1.rflags, !0x40u64, 6);
    lemma_bits_of(0x40, 0, 6);
    crate::bit_facts::lemma_bits_of_words(6, 6, 0, false, false);
    assert(bit_at(g, 6) == (v == 0));
    if v != 0 {
        lemma_ends(v, i);
        let k = if op == 0xbc { vstd::std_specs::bits::u64_trailing_zeros(v) as u64 } else { (63 - vstd::std_specs::bits::u64_leading_zeros(v)) as u64 };
        lemma_put_part(s3, reg as int, size, k);
        lemma_mod_once(k as int, modulus(size));
    }
}

/// `SHLD` and `SHRD` between registers by at most the width: the bits that leave room are filled from
/// the other register.
pub proof fn law_double_shift_instruction(s: CpuState, p: Prefix, op: u8, j: u64)
    requires
        op == 0xa4 || op == 0xac,
        s.r.len() == 16,
        fetch_byte(s).1 == op,
        decode_rm(fetch_byte(s).0, p.rex).1.1 is Reg,
        j < 8 * operand_size(p),
        ({
            let s1 = decode_rm(fetch_byte(s).0, p.rex).0;
            0 < code_number(s1, 1) % (if wide(p) { 64int } else { 32 }) <= 8 * operand_size(p)
        }),
    ensures
        ({
            let size = operand_size(p);
            let n = 8 * size;
            let (s1, (reg, rm)) = decode_rm(fetch_byte(s).0, p.rex);
            let c = code_number(s1, 1) % (if wide(p) { 64int } else { 32 });
            let x = part(s, rm->Reg_0 as int, size) as u64;
            let y = part(s, reg as int, size) as u64;
            let z = part(executed(s, p, 0x0f).0, rm->Reg_0 as int, size) as u64;
            bit_at(z, j) == if op == 0xac {
                if j + c < n { bit_at(x, (j + c) as u64) } else { bit_at(y, (j + c - n) as u64) }
            } else {
                if j >= c { bit_at(x, (j - c) as u64) } else { bit_at(y, (j + n - c) as u64) }
            }
        }),
{
    let size = operand_size(p);
    let s0 = fetch_byte(s).0;
    law_fetch(s, 0);
    lemma_decoded(s0, p.rex);
    let (s1, (reg, rm)) = decode_rm(s0, p.rex);
    law_fetch(s1, 1);
    law_code_number(s1, 1);
    let (s2, cnt) = fetch_bytes(s1, 1);
    let i = rm->Reg_0 as int;
    assert(executed(s, p, 0x0f).0 == do_double_shift(s0, p, op)) by {
        reveal(executed);
        reveal(map_0f);
        reveal(map_0f_8_b);
    }
    reveal(load_operand);
    let c = shift_count(cnt as u8, size);
    let w = reg_value(s2, i, size);
    lemma_part(s2, i, size);
    lemma_part(s2, reg as int, size);
    lemma_mask(w, size);
    lemma_mask(s2.r[reg as int], size);
    lemma_mod_once(w as int, modulus(size));
    let dst = w & mask_of(size);
    let src = s2.r[reg as int] & mask_of(size);
    law_double_shift(dst, src, c, size, op == 0xac, j);
    let r = double_shift(dst, src, c, size, op == 0xac);
    lemma_put_part(s2, i, size, r);
    lemma_mask(r, size);
    lemma_kept_bit(r, size, j);
    assert(part(executed(s, p, 0x0f).0, i, size) == r & mask_of(size));
}

/// `POPF` takes the flags from the stack: those that a program may set, and bit 1, which is always set.
pub proof fn law_pop_flags(s: CpuState, p: Prefix, i: u64)
    requires
        i < 64,
    ensures
        ({
            let v = stack_pop(s, 8).1;
            let g = executed(s, p, 0x9d).0.rflags;
            bit_at(g, i) == (i == 1 || (bit_at(v, i) && (i == 0 || i == 2 || i == 4 || 6 <= i <= 11 || i == 14 || i
                == 18 || i == 21)))
        }),
{
    reveal(executed);
    reveal(map_8_9);
    crate::bit_facts::lemma_settable(stack_pop(s, 8).1, i);
}

// ----- ports -----

/// `OUT` of a byte to the port in the instruction or in `DX` hands `AL` to that port; `IN` loads `AL`
/// from it.
pub proof fn law_byte_ports(s: CpuState, p: Prefix, op: u8)
    requires
        op == 0xe4 || op == 0xe6 || op == 0xec || op == 0xee,
        s.r.len() == 16,
    ensures
        ({
            let s1 = if op < 0xe8 { fetch_bytes(s, 1).0 } else { s };
            let port = if op < 0xe8 { code_number(s, 1) } else { s.r[2] as int % 0x1_0000 };
            let al = (s.r[0] as int % 0x100) as u8;
            let t = executed(s, p, op).0;
            &&& op % 4 == 2 ==> t.sys == sys_port_out(s1.sys, port as u16, al) && t.r == s.r
            &&& op % 4 == 0 ==> t.sys == sys_port_in(s1.sys, port as u16).0
            &&& op % 4 == 0 ==> part(t, 0, 1) == sys_port_in(s1.sys, port as u16).1
            &&& op % 4 == 0 ==> t.r[0] / 0x100 == s.r[0] / 0x100
        }),
{
    law_fetch(s, 1);
    law_code_number(s, 1);
    crate::bits::lemma_low_bits(s.r[0]);
    crate::bits::lemma_low_bits(s.r[2]);
    assert(executed(s, p, op).0 == do_port(s, p, op)) by {
        reveal(executed);
        reveal(map_e_f);
    }
    let (s1, port) = port_of(s, op);
    let (sys, v) = sys_port_in(s1.sys, port);
    let u = CpuState { sys, ..s1 };
    lemma_put_part(u, 0, 1, v as u64);
    reveal(store_operand);
    law_register_parts(u, 0, 1, v as u64);
    assert(u.r == s.r);
}

} // verus!
