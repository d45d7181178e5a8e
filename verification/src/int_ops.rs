//! The one-byte integer instructions: arithmetic, moves, the stack, jumps and ports.
use vstd::prelude::*;
use crate::arith::{imul_op, shift_amount, shift_op};
use crate::bits::{mask, sign};
use crate::cpu::{Cpu, Halt, Seg, CS, RAX, RBP, RCX, RDX, RSP, SS};
use crate::decode::{Flow, Prefix};
use crate::flags::{add_carry, sub_borrow, CF, RFLAGS_DF, RFLAGS_IF};
use crate::operand::{ext_reg, sext, Rm};
#[allow(unused_imports)]
use crate::arith::{imul_result, shift_count, shift_result};
#[allow(unused_imports)]
use crate::bits::{is_width, mask_of, sign_of};
#[allow(unused_imports)]
use crate::cpu::CpuState;
#[allow(unused_imports)]
use crate::decode::{operand_size, quad_size, FlowState};
#[allow(unused_imports)]
use crate::flags::{alu_result, dec_flags, flag_set, inc_flags, logic_flags, with_bit};
#[allow(unused_imports)]
use crate::interrupt::idled;
#[allow(unused_imports)]
use crate::mmu::{byte_at, fetch_bytes, fetch_imm, translated};
#[allow(unused_imports)]
use crate::operand::{
    decode_rm, load_operand, operand_addr, reg_field, reg_value, rm_ok, sext_of, stack_pop,
    stack_push, store_operand, with_flags, with_reg, with_rip,
};
#[allow(unused_imports)]
use crate::sys::{sys_port_in, sys_port_in_wide, sys_port_out, sys_port_out_wide, SysState};

verus! {

// ----- group 1 arithmetic -----

/// A group-1 operation applied: the flags change, and all but the comparison give a result to store.
pub open spec fn alu_applied(s: CpuState, k: u8, a: u64, b: u64, size: u8) -> (CpuState, u64) {
    let (r, f) = alu_result(k, s.rflags, a, b, size);
    (with_flags(s, f), r)
}

/// The result of a group-1 operation stored, unless it is the comparison.
pub open spec fn alu_stored(s: CpuState, k: u8, a: u64, b: u64, rm: Rm, size: u8) -> CpuState {
    let (t, r) = alu_applied(s, k, a, b, size);
    if k != 7 {
        store_operand(t, rm, size, r)
    } else {
        t
    }
}

/// The six forms of the group-1 instructions below opcode `40`.
pub open spec fn do_alu(s: CpuState, p: Prefix, op: u8) -> CpuState {
    let k = op / 8;
    let form = op % 8;
    let size = if form % 2 == 0 { 1u8 } else { operand_size(p) };
    if form < 2 {
        let (s1, (reg, rm)) = decode_rm(s, p.rex);
        let (s2, a) = load_operand(s1, rm, size);
        alu_stored(s2, k, a, reg_value(s2, reg as int, size), rm, size)
    } else if form < 4 {
        let (s1, (reg, rm)) = decode_rm(s, p.rex);
        let (s2, b) = load_operand(s1, rm, size);
        alu_stored(s2, k, reg_value(s2, reg as int, size), b, Rm::Reg(reg), size)
    } else {
        let (s1, b) = if form == 4 { fetch_bytes(s, 1) } else { fetch_imm(s, size) };
        alu_stored(s1, k, s1.r[0] & mask_of(size), b, Rm::Reg(0), size)
    }
}

/// The immediate forms: opcode `80` is the byte form, `83` sign-extends its byte.
pub open spec fn do_alu_imm(s: CpuState, p: Prefix, op: u8) -> CpuState {
    let size = if op == 0x80 { 1u8 } else { operand_size(p) };
    let (s1, (ext, rm)) = decode_rm(s, p.rex);
    let (s2, b) = if op == 0x80 {
        fetch_bytes(s1, 1)
    } else if op == 0x81 {
        fetch_imm(s1, size)
    } else {
        let (t, v) = fetch_bytes(s1, 1);
        (t, sext_of(v, 1))
    };
    let (s3, a) = load_operand(s2, rm, size);
    alu_stored(s3, (ext % 8) as u8, a, b, rm, size)
}

/// `TEST`: the flags of the conjunction.
pub open spec fn tested(s: CpuState, a: u64, b: u64, size: u8) -> CpuState {
    with_flags(s, logic_flags(s.rflags, a & b, size))
}

pub open spec fn do_test(s: CpuState, p: Prefix, op: u8) -> CpuState {
    let size = if op % 2 == 0 { 1u8 } else { operand_size(p) };
    let (s1, (reg, rm)) = decode_rm(s, p.rex);
    let (s2, a) = load_operand(s1, rm, size);
    tested(s2, a, reg_value(s2, reg as int, size), size)
}

pub open spec fn do_test_imm(s: CpuState, p: Prefix, op: u8) -> CpuState {
    let size = if op % 2 == 0 { 1u8 } else { operand_size(p) };
    let (s1, b) = if op % 2 == 0 { fetch_bytes(s, 1) } else { fetch_imm(s, size) };
    tested(s1, s1.r[0] & mask_of(size), b, size)
}

/// `INC` and `DEC`: the carry flag stays.
pub open spec fn stepped(s: CpuState, rm: Rm, size: u8, down: bool) -> CpuState {
    let (s1, a) = load_operand(s, rm, size);
    let r = if down { a.wrapping_sub(1) } else { a.wrapping_add(1) };
    let f = if down { dec_flags(s1.rflags, a, size) } else { inc_flags(s1.rflags, a, size) };
    store_operand(with_flags(s1, f), rm, size, r)
}

/// `IMUL` into a register: the low half is kept, carry and overflow say whether it is all.
pub open spec fn imul_stored(s: CpuState, reg: int, a: u64, b: u64, size: u8) -> CpuState {
    let (lo, hi, f) = imul_result(s.rflags, a, b, size);
    with_flags(store_operand(s, Rm::Reg(reg as usize), size, lo), f)
}

pub open spec fn do_imul_imm(s: CpuState, p: Prefix, op: u8) -> CpuState {
    let size = operand_size(p);
    let (s1, (reg, rm)) = decode_rm(s, p.rex);
    let (s2, imm) = if op == 0x6b {
        let (t, v) = fetch_bytes(s1, 1);
        (t, sext_of(v, 1))
    } else if size == 2 {
        let (t, v) = fetch_bytes(s1, 2);
        (t, sext_of(v, 2))
    } else {
        let (t, v) = fetch_bytes(s1, 4);
        (t, sext_of(v, 4))
    };
    let (s3, a) = load_operand(s2, rm, size);
    imul_stored(s3, reg as int, a, imm, size)
}

/// A shift or rotate of an operand; a count of zero does nothing at all.
pub open spec fn shifted(s: CpuState, ext: u8, rm: Rm, size: u8, cnt: u8) -> CpuState {
    let c = shift_count(cnt, size);
    if c == 0 {
        s
    } else {
        let (s1, v) = load_operand(s, rm, size);
        let a = v & mask_of(size);
        let s2 = store_operand(s1, rm, size, shift_result(s1.rflags, ext, a, c, size).0);
        with_flags(s2, shift_result(s2.rflags, ext, a, c, size).1)
    }
}

/// The shift group: by an immediate, by one, by `CL`.
pub open spec fn do_shift(s: CpuState, p: Prefix, op: u8) -> CpuState {
    let size = if op % 2 == 0 { 1u8 } else { operand_size(p) };
    let (s1, (ext, rm)) = decode_rm(s, p.rex);
    if op < 0xd0 {
        let (s2, c) = fetch_bytes(s1, 1);
        shifted(s2, (ext % 8) as u8, rm, size, c as u8)
    } else if op < 0xd2 {
        shifted(s1, (ext % 8) as u8, rm, size, 1)
    } else {
        shifted(s1, (ext % 8) as u8, rm, size, (s1.r[1] & 0xff) as u8)
    }
}

// ----- moves -----

/// `MOV` between a register and an operand, in the four forms from `88`.
pub open spec fn do_mov(s: CpuState, p: Prefix, op: u8) -> CpuState {
    let size = if op % 2 == 0 { 1u8 } else { operand_size(p) };
    let (s1, (reg, rm)) = decode_rm(s, p.rex);
    if op < 0x8a {
        store_operand(s1, rm, size, reg_value(s1, reg as int, size))
    } else {
        let (s2, v) = load_operand(s1, rm, size);
        store_operand(s2, Rm::Reg(reg), size, v)
    }
}

/// `MOV` of an immediate to an operand.
pub open spec fn do_mov_imm(s: CpuState, p: Prefix, op: u8) -> CpuState {
    let size = if op % 2 == 0 { 1u8 } else { operand_size(p) };
    let (s1, (_ext, rm)) = decode_rm(s, p.rex);
    let (s2, v) = if op % 2 == 0 { fetch_bytes(s1, 1) } else { fetch_imm(s1, size) };
    store_operand(s2, rm, size, v)
}

/// `MOV` of a full-width immediate to a register.
pub open spec fn do_mov_reg_imm(s: CpuState, p: Prefix, op: u8) -> CpuState {
    let size = if op < 0xb8 { 1u8 } else { operand_size(p) };
    let (s1, v) = fetch_bytes(s, size as nat);
    store_operand(s1, Rm::Reg(reg_field(op, p.rex)), size, v)
}

/// `XCHG` of a register and an operand.
pub open spec fn do_xchg(s: CpuState, p: Prefix, op: u8) -> CpuState {
    let size = if op % 2 == 0 { 1u8 } else { operand_size(p) };
    let (s1, (reg, rm)) = decode_rm(s, p.rex);
    let (s2, a) = load_operand(s1, rm, size);
    let b = reg_value(s2, reg as int, size);
    store_operand(store_operand(s2, rm, size, b), Rm::Reg(reg), size, a)
}

/// `XCHG` with the accumulator; with itself it is `NOP`.
pub open spec fn do_xchg_acc(s: CpuState, p: Prefix, op: u8) -> CpuState {
    let reg = reg_field(op, p.rex);
    let size = operand_size(p);
    if reg == 0 {
        s
    } else {
        let a = s.r[0] & mask_of(size);
        let b = s.r[reg as int] & mask_of(size);
        store_operand(store_operand(s, Rm::Reg(0), size, b), Rm::Reg(reg), size, a)
    }
}

/// A segment selector stored; registers that do not exist store zero.
pub open spec fn do_mov_from_seg(s: CpuState, p: Prefix) -> CpuState {
    let (s1, (reg, rm)) = decode_rm(s, p.rex);
    store_operand(s1, rm, 2, if reg < 6 { s1.seg[reg as int].selector as u64 } else { 0 })
}

/// A segment selector loaded; the base stays.
pub open spec fn do_mov_to_seg(s: CpuState, p: Prefix) -> CpuState {
    let (s1, (reg, rm)) = decode_rm(s, p.rex);
    let (s2, v) = load_operand(s1, rm, 2);
    if reg < 6 {
        CpuState {
            seg: s2.seg.update(reg as int, Seg { selector: v as u16, ..s2.seg[reg as int] }),
            ..s2
        }
    } else {
        s2
    }
}

/// `LEA`: the address itself; a register operand does nothing.
pub open spec fn do_lea(s: CpuState, p: Prefix) -> CpuState {
    let size = operand_size(p);
    let (s1, (reg, rm)) = decode_rm(s, p.rex);
    match operand_addr(s1, rm) {
        Some(a) => store_operand(s1, Rm::Reg(reg), size, a & mask_of(size)),
        None => s1,
    }
}

/// `MOVSXD`.
pub open spec fn do_movsxd(s: CpuState, p: Prefix) -> CpuState {
    let size = operand_size(p);
    let (s1, (reg, rm)) = decode_rm(s, p.rex);
    let (s2, v) = load_operand(s1, rm, 4);
    store_operand(s2, Rm::Reg(reg), size, sext_of(v, 4) & mask_of(size))
}

/// The lower half of the accumulator sign-extended into all of it.
pub open spec fn do_extend_acc(s: CpuState, p: Prefix) -> CpuState {
    let size = operand_size(p);
    store_operand(s, Rm::Reg(0), size, sext_of(s.r[0], (size / 2) as u8))
}

/// The sign of the accumulator spread over `RDX`.
pub open spec fn do_spread_sign(s: CpuState, p: Prefix) -> CpuState {
    let size = operand_size(p);
    store_operand(s, Rm::Reg(2), size, if sign_of(s.r[0], size) { mask_of(size) } else { 0 })
}

// ----- the stack and jumps -----

/// The flags a pop or a return may set; bit 1 is always set.
pub open spec fn settable_flags(v: u64) -> u64 {
    (v & 0x0024_4fd5) | 0x2
}

/// `PUSH` and `POP` of a register.
pub open spec fn do_push_pop(s: CpuState, p: Prefix, op: u8) -> CpuState {
    let reg = reg_field(op, p.rex) as int;
    if op < 0x58 {
        stack_push(s, s.r[reg])
    } else {
        let (s1, v) = stack_pop(s, 8);
        with_reg(s1, reg, v)
    }
}

/// `PUSH` of a sign-extended immediate.
pub open spec fn do_push_imm(s: CpuState, op: u8) -> CpuState {
    let n = if op == 0x68 { 4u8 } else { 1u8 };
    let (s1, v) = fetch_bytes(s, n as nat);
    stack_push(s1, sext_of(v, n))
}

/// `POP` to an operand: the address is computed after the pop.
pub open spec fn do_pop_rm(s: CpuState, p: Prefix) -> CpuState {
    let (s1, v) = stack_pop(s, 8);
    let (s2, (_ext, rm)) = decode_rm(s1, p.rex);
    store_operand(s2, rm, 8, v)
}

/// A relative jump of `n` bytes of displacement, taken or not.
pub open spec fn jumped(s: CpuState, n: u8, taken: bool) -> CpuState {
    let (s1, d) = fetch_bytes(s, n as nat);
    if taken {
        with_rip(s1, s1.rip.wrapping_add(sext_of(d, n)))
    } else {
        s1
    }
}

/// The code byte at an address, looked at without faulting.
pub open spec fn code_byte(s: CpuState, a: u64) -> u8 {
    byte_at(s.ram, translated(s, a) as int)
}

/// The body of an indirect-call thunk stands at `t`: a call over a trap, the register stored over
/// the return address, a jump.
pub open spec fn thunk_at(s: CpuState, t: u64) -> bool {
    &&& code_byte(s, t) == 0xe8
    &&& code_byte(s, t.wrapping_add(1)) == 0x01
    &&& code_byte(s, t.wrapping_add(2)) == 0
    &&& code_byte(s, t.wrapping_add(3)) == 0
    &&& code_byte(s, t.wrapping_add(4)) == 0
    &&& code_byte(s, t.wrapping_add(5)) == 0xcc
    &&& code_byte(s, t.wrapping_add(6)) == 0x48 || code_byte(s, t.wrapping_add(6)) == 0x4c
    &&& code_byte(s, t.wrapping_add(7)) == 0x89
    &&& code_byte(s, t.wrapping_add(8)) / 64 == 0 && code_byte(s, t.wrapping_add(8)) % 8 == 4
    &&& code_byte(s, t.wrapping_add(9)) == 0x24
    &&& code_byte(s, t.wrapping_add(10)) == 0xe9
}

/// The register an indirect-call thunk dispatches through.
pub open spec fn thunk_reg(s: CpuState, t: u64) -> Option<usize> {
    if thunk_at(s, t) {
        Some(
            reg_field(
                code_byte(s, t.wrapping_add(8)) / 8,
                if code_byte(s, t.wrapping_add(6)) == 0x4c { 1 } else { 0 },
            ),
        )
    } else {
        None
    }
}

/// `CALL`: a call of an indirect-call thunk goes straight to the register it dispatches through.
pub open spec fn do_call(s: CpuState) -> CpuState {
    let (s1, d) = fetch_bytes(s, 4);
    let s2 = stack_push(s1, s1.rip);
    let target = s2.rip.wrapping_add(sext_of(d, 4));
    match thunk_reg(s2, target) {
        Some(reg) => with_rip(s2, if s2.cfg.fastpaths { s2.r[reg as int] } else { target }),
        None => with_rip(s2, target),
    }
}

/// `RET`, freeing `n` bytes of arguments.
pub open spec fn do_ret(s: CpuState, free: bool) -> CpuState {
    let (s1, n) = if free { fetch_bytes(s, 2) } else { (s, 0) };
    let (s2, v) = stack_pop(s1, 8);
    with_reg(with_rip(s2, v), 4, s2.r[4].wrapping_add(n))
}

/// `LEAVE`.
pub open spec fn do_leave(s: CpuState) -> CpuState {
    let (s1, v) = stack_pop(with_reg(s, 4, s.r[5]), 8);
    with_reg(s1, 5, v)
}

/// The code segment loaded by a far return.
pub open spec fn code_loaded(s: CpuState, cs: u64) -> CpuState {
    CpuState { seg: s.seg.update(1, Seg { selector: cs as u16, long: true, ..s.seg[1] }), ..s }
}

/// A far return. The form that frees arguments leaves the privilege level alone.
pub open spec fn do_far_ret(s: CpuState, p: Prefix, free: bool) -> CpuState {
    let size = quad_size(p);
    let (s1, n) = if free { fetch_bytes(s, 2) } else { (s, 0) };
    let (s2, rip) = stack_pop(s1, size);
    let (s3, cs) = stack_pop(s2, size);
    let s4 = code_loaded(with_rip(s3, rip), cs);
    if free {
        with_reg(s4, 4, s4.r[4].wrapping_add(n))
    } else {
        CpuState { cpl: (cs & 3) as u8, ..s4 }
    }
}

/// `IRETQ`: instruction pointer, code segment, flags, stack pointer and stack segment come back.
pub open spec fn do_iret(s: CpuState) -> CpuState {
    let (s1, rip) = stack_pop(s, 8);
    let (s2, cs) = stack_pop(s1, 8);
    let (s3, rflags) = stack_pop(s2, 8);
    let (s4, rsp) = stack_pop(s3, 8);
    let (s5, ss) = stack_pop(s4, 8);
    let t = code_loaded(with_rip(s5, rip), cs);
    CpuState {
        cpl: (cs & 3) as u8,
        rflags: settable_flags(rflags),
        r: t.r.update(4, rsp),
        seg: t.seg.update(2, Seg { selector: ss as u16, ..t.seg[2] }),
        ..t
    }
}

/// Opcode `FF`: increment, decrement, call, jump, push; the rest is undefined.
pub open spec fn do_group5(s: CpuState, p: Prefix) -> (CpuState, FlowState) {
    let size = operand_size(p);
    let (s1, (reg, rm)) = decode_rm(s, p.rex);
    let ext = reg % 8;
    if ext == 0 || ext == 1 {
        (stepped(s1, rm, size, ext == 1), FlowState::Next)
    } else if ext == 2 {
        let (s2, t) = load_operand(s1, rm, 8);
        (with_rip(stack_push(s2, s2.rip), t), FlowState::Next)
    } else if ext == 4 {
        let (s2, t) = load_operand(s1, rm, 8);
        (with_rip(s2, t), FlowState::Next)
    } else if ext == 6 {
        let (s2, v) = load_operand(s1, rm, 8);
        (stack_push(s2, v), FlowState::Next)
    } else {
        (s1, FlowState::Stop(Halt::Undefined(p.start)))
    }
}

// ----- ports -----

/// The port of an input or output instruction: an immediate byte, or `DX`.
pub open spec fn port_of(s: CpuState, op: u8) -> (CpuState, u16) {
    if op < 0xe8 {
        let (s1, v) = fetch_bytes(s, 1);
        (s1, v as u16)
    } else {
        (s, (s.r[2] & 0xffff) as u16)
    }
}

/// `IN` and `OUT`, of a byte or of an operand.
pub open spec fn do_port(s: CpuState, p: Prefix, op: u8) -> CpuState {
    let size = operand_size(p);
    let (s1, port) = port_of(s, op);
    if op % 4 == 0 {
        let (sys, v) = sys_port_in(s1.sys, port);
        store_operand(CpuState { sys, ..s1 }, Rm::Reg(0), 1, v as u64)
    } else if op % 4 == 1 {
        let (sys, v) = sys_port_in_wide(s1.sys, port, size);
        store_operand(CpuState { sys, ..s1 }, Rm::Reg(0), size, v)
    } else if op % 4 == 2 {
        CpuState { sys: sys_port_out(s1.sys, port, (s1.r[0] & 0xff) as u8), ..s1 }
    } else {
        CpuState {
            sys: sys_port_out_wide(s1.sys, port, size, s1.r[0] & mask_of(size)),
            ..s1
        }
    }
}

/// `HLT`: with interrupts disabled the machine stops; else time moves on to the next deadline, and
/// the instruction pointer stays past the instruction.
pub open spec fn do_hlt(s: CpuState) -> (CpuState, FlowState) {
    if s.rflags & RFLAGS_IF == 0 {
        (
            CpuState { sys: SysState { halted: true, ..s.sys }, ..s },
            FlowState::Stop(Halt::Halted),
        )
    } else {
        (idled(s), FlowState::Next)
    }
}

/// The instructions that set or clear one flag.
pub open spec fn do_flag(s: CpuState, op: u8) -> CpuState {
    let f = s.rflags;
    with_flags(
        s,
        if op == 0xf5 {
            with_bit(f, CF, !flag_set(f, CF))
        } else if op == 0xf8 {
            with_bit(f, CF, false)
        } else if op == 0xf9 {
            with_bit(f, CF, true)
        } else if op == 0xfa {
            with_bit(f, RFLAGS_IF, false)
        } else if op == 0xfb {
            with_bit(f, RFLAGS_IF, true)
        } else if op == 0xfc {
            with_bit(f, RFLAGS_DF, false)
        } else {
            with_bit(f, RFLAGS_DF, true)
        },
    )
}

impl Cpu {
    fn alu_store(&mut self, k: u8, a: u64, b: u64, rm: Rm, size: u8)
        requires
            old(self).wf(),
            k < 8,
            is_width(size),
            rm_ok(rm),
        ensures
            final(self).wf(),
            final(self)@ == alu_stored(old(self)@, k, a, b, rm, size),
    {
        let r: u64 = self.alu(k, a, b, size);
        if k != 7 {
            self.store_rm(rm, size, r);
        }
    }

    pub fn op_alu(&mut self, p: Prefix, op: u8)
        requires
            old(self).wf(),
            op < 0x40,
            op % 8 < 6,
        ensures
            final(self).wf(),
            final(self)@ == do_alu(old(self)@, p, op),
    {
        let k: u8 = op / 8;
        let form: u8 = op % 8;
        let size: u8 = if form % 2 == 0 { 1 } else { p.size() };
        if form < 2 {
            let (reg, rm) = self.modrm(p.rex);
            let a: u64 = self.load_rm(rm, size);
            let b: u64 = self.reg_at(reg, size);
            self.alu_store(k, a, b, rm, size);
        } else if form < 4 {
            let (reg, rm) = self.modrm(p.rex);
            let b: u64 = self.load_rm(rm, size);
            let a: u64 = self.reg_at(reg, size);
            self.alu_store(k, a, b, Rm::Reg(reg), size);
        } else {
            let b: u64 = if form == 4 { self.fetch(1) } else { self.fetch_imm_z(size) };
            let a: u64 = self.r[RAX] & mask(size);
            self.alu_store(k, a, b, Rm::Reg(RAX), size);
        }
    }

    pub fn op_alu_imm(&mut self, p: Prefix, op: u8)
        requires
            old(self).wf(),
            op == 0x80 || op == 0x81 || op == 0x83,
        ensures
            final(self).wf(),
            final(self)@ == do_alu_imm(old(self)@, p, op),
    {
        let size: u8 = if op == 0x80 { 1 } else { p.size() };
        let (ext, rm) = self.modrm(p.rex);
        let b: u64 = if op == 0x80 {
            self.fetch(1)
        } else if op == 0x81 {
            self.fetch_imm_z(size)
        } else {
            let v: u64 = self.fetch(1);
            sext(v, 1)
        };
        let a: u64 = self.load_rm(rm, size);
        self.alu_store((ext % 8) as u8, a, b, rm, size);
    }

    pub fn op_test(&mut self, p: Prefix, op: u8)
        requires
            old(self).wf(),
        ensures
            final(self).wf(),
            final(self)@ == do_test(old(self)@, p, op),
    {
        let size: u8 = if op % 2 == 0 { 1 } else { p.size() };
        let (reg, rm) = self.modrm(p.rex);
        let a: u64 = self.load_rm(rm, size);
        let b: u64 = self.reg_at(reg, size);
        self.logic(a & b, size);
    }

    pub fn op_test_imm(&mut self, p: Prefix, op: u8)
        requires
            old(self).wf(),
        ensures
            final(self).wf(),
            final(self)@ == do_test_imm(old(self)@, p, op),
    {
        let size: u8 = if op % 2 == 0 { 1 } else { p.size() };
        let b: u64 = if op % 2 == 0 { self.fetch(1) } else { self.fetch_imm_z(size) };
        let a: u64 = self.r[RAX] & mask(size);
        self.logic(a & b, size);
    }

    /// `INC` (`down` false) and `DEC` of an operand.
    pub fn op_step(&mut self, rm: Rm, size: u8, down: bool)
        requires
            old(self).wf(),
            rm_ok(rm),
            is_width(size),
        ensures
            final(self).wf(),
            final(self)@ == stepped(old(self)@, rm, size, down),
    {
        let a: u64 = self.load_rm(rm, size);
        let kept: u64 = self.rflags & CF;
        if down {
            let (_r, f) = sub_borrow(self.rflags, a, 1, false, size);
            self.rflags = (f & !CF) | kept;
            self.store_rm(rm, size, a.wrapping_sub(1));
        } else {
            let (_r, f) = add_carry(self.rflags, a, 1, false, size);
            self.rflags = (f & !CF) | kept;
            self.store_rm(rm, size, a.wrapping_add(1));
        }
    }

    /// `IMUL` into a register.
    pub fn imul_store(&mut self, reg: usize, a: u64, b: u64, size: u8)
        requires
            old(self).wf(),
            reg < 16,
            is_width(size),
        ensures
            final(self).wf(),
            final(self)@ == imul_stored(old(self)@, reg as int, a, b, size),
    {
        let (lo, _hi, f) = imul_op(self.rflags, a, b, size);
        self.store_rm(Rm::Reg(reg), size, lo);
        self.rflags = f;
    }

    pub fn op_imul_imm(&mut self, p: Prefix, op: u8)
        requires
            old(self).wf(),
        ensures
            final(self).wf(),
            final(self)@ == do_imul_imm(old(self)@, p, op),
    {
        let size: u8 = p.size();
        let (reg, rm) = self.modrm(p.rex);
        let imm: u64 = if op == 0x6b {
            let v: u64 = self.fetch(1);
            sext(v, 1)
        } else if size == 2 {
            let v: u64 = self.fetch(2);
            sext(v, 2)
        } else {
            let v: u64 = self.fetch(4);
            sext(v, 4)
        };
        let a: u64 = self.load_rm(rm, size);
        self.imul_store(reg, a, imm, size);
    }

    /// Shift or rotate an operand, masking the count and setting the flags.
    pub fn shift_rotate(&mut self, ext: u8, rm: Rm, size: u8, cnt: u8)
        requires
            old(self).wf(),
            rm_ok(rm),
            is_width(size),
        ensures
            final(self).wf(),
            final(self)@ == shifted(old(self)@, ext, rm, size, cnt),
    {
        let c: u64 = shift_amount(cnt, size);
        if c == 0 {
            return;
        }
        let v: u64 = self.load_rm(rm, size);
        let a: u64 = v & mask(size);
        let (res, _f) = shift_op(self.rflags, ext, a, c, size);
        self.store_rm(rm, size, res);
        let (_r, f) = shift_op(self.rflags, ext, a, c, size);
        self.rflags = f;
    }

    pub fn op_shift(&mut self, p: Prefix, op: u8)
        requires
            old(self).wf(),
        ensures
            final(self).wf(),
            final(self)@ == do_shift(old(self)@, p, op),
    {
        let size: u8 = if op % 2 == 0 { 1 } else { p.size() };
        let (ext, rm) = self.modrm(p.rex);
        let cnt: u8 = if op < 0xd0 {
            self.fetch(1) as u8
        } else if op < 0xd2 {
            1
        } else {
            (self.r[RCX] & 0xff) as u8
        };
        self.shift_rotate((ext % 8) as u8, rm, size, cnt);
    }

    pub fn op_mov(&mut self, p: Prefix, op: u8)
        requires
            old(self).wf(),
        ensures
            final(self).wf(),
            final(self)@ == do_mov(old(self)@, p, op),
    {
        let size: u8 = if op % 2 == 0 { 1 } else { p.size() };
        let (reg, rm) = self.modrm(p.rex);
        if op < 0x8a {
            let v: u64 = self.reg_at(reg, size);
            self.store_rm(rm, size, v);
        } else {
            let v: u64 = self.load_rm(rm, size);
            self.store_rm(Rm::Reg(reg), size, v);
        }
    }

    pub fn op_mov_imm(&mut self, p: Prefix, op: u8)
        requires
            old(self).wf(),
        ensures
            final(self).wf(),
            final(self)@ == do_mov_imm(old(self)@, p, op),
    {
        let size: u8 = if op % 2 == 0 { 1 } else { p.size() };
        let (_ext, rm) = self.modrm(p.rex);
        let v: u64 = if op % 2 == 0 { self.fetch(1) } else { self.fetch_imm_z(size) };
        self.store_rm(rm, size, v);
    }

    pub fn op_mov_reg_imm(&mut self, p: Prefix, op: u8)
        requires
            old(self).wf(),
        ensures
            final(self).wf(),
            final(self)@ == do_mov_reg_imm(old(self)@, p, op),
    {
        let size: u8 = if op < 0xb8 { 1 } else { p.size() };
        let v: u64 = self.fetch(size);
        self.store_rm(Rm::Reg(ext_reg(op, p.rex)), size, v);
    }

    pub fn op_xchg(&mut self, p: Prefix, op: u8)
        requires
            old(self).wf(),
        ensures
            final(self).wf(),
            final(self)@ == do_xchg(old(self)@, p, op),
    {
        let size: u8 = if op % 2 == 0 { 1 } else { p.size() };
        let (reg, rm) = self.modrm(p.rex);
        let a: u64 = self.load_rm(rm, size);
        let b: u64 = self.reg_at(reg, size);
        self.store_rm(rm, size, b);
        self.store_rm(Rm::Reg(reg), size, a);
    }

    pub fn op_xchg_acc(&mut self, p: Prefix, op: u8)
        requires
            old(self).wf(),
        ensures
            final(self).wf(),
            final(self)@ == do_xchg_acc(old(self)@, p, op),
    {
        let reg: usize = ext_reg(op, p.rex);
        if reg != 0 {
            let size: u8 = p.size();
            let a: u64 = self.r[RAX] & mask(size);
            let b: u64 = self.r[reg] & mask(size);
            self.store_rm(Rm::Reg(RAX), size, b);
            self.store_rm(Rm::Reg(reg), size, a);
        }
    }

    pub fn op_mov_from_seg(&mut self, p: Prefix)
        requires
            old(self).wf(),
        ensures
            final(self).wf(),
            final(self)@ == do_mov_from_seg(old(self)@, p),
    {
        let (reg, rm) = self.modrm(p.rex);
        let sel: u64 = if reg < 6 { self.seg[reg].selector as u64 } else { 0 };
        self.store_rm(rm, 2, sel);
    }

    pub fn op_mov_to_seg(&mut self, p: Prefix)
        requires
            old(self).wf(),
        ensures
            final(self).wf(),
            final(self)@ == do_mov_to_seg(old(self)@, p),
    {
        let (reg, rm) = self.modrm(p.rex);
        let v: u64 = self.load_rm(rm, 2);
        if reg < 6 {
            let g: Seg = self.seg[reg];
            self.seg[reg] = Seg { selector: v as u16, base: g.base, long: g.long };
        }
    }

    pub fn op_lea(&mut self, p: Prefix)
        requires
            old(self).wf(),
        ensures
            final(self).wf(),
            final(self)@ == do_lea(old(self)@, p),
    {
        let size: u8 = p.size();
        let (reg, rm) = self.modrm(p.rex);
        if let Some(a) = self.rm_addr(rm) {
            self.store_rm(Rm::Reg(reg), size, a & mask(size));
        }
    }

    pub fn op_movsxd(&mut self, p: Prefix)
        requires
            old(self).wf(),
        ensures
            final(self).wf(),
            final(self)@ == do_movsxd(old(self)@, p),
    {
        let size: u8 = p.size();
        let (reg, rm) = self.modrm(p.rex);
        let v: u64 = self.load_rm(rm, 4);
        self.store_rm(Rm::Reg(reg), size, sext(v, 4) & mask(size));
    }

    pub fn op_extend_acc(&mut self, p: Prefix)
        requires
            old(self).wf(),
        ensures
            final(self).wf(),
            final(self)@ == do_extend_acc(old(self)@, p),
    {
        let size: u8 = p.size();
        let v: u64 = sext(self.r[RAX], size / 2);
        self.store_rm(Rm::Reg(RAX), size, v);
    }

    pub fn op_spread_sign(&mut self, p: Prefix)
        requires
            old(self).wf(),
        ensures
            final(self).wf(),
            final(self)@ == do_spread_sign(old(self)@, p),
    {
        let size: u8 = p.size();
        let v: u64 = if sign(self.r[RAX], size) { mask(size) } else { 0 };
        self.store_rm(Rm::Reg(RDX), size, v);
    }

    pub fn op_push_pop(&mut self, p: Prefix, op: u8)
        requires
            old(self).wf(),
        ensures
            final(self).wf(),
            final(self)@ == do_push_pop(old(self)@, p, op),
    {
        let reg: usize = ext_reg(op, p.rex);
        if op < 0x58 {
            let v: u64 = self.r[reg];
            self.push(v);
        } else {
            let v: u64 = self.pop();
            self.r[reg] = v;
        }
    }

    pub fn op_push_imm(&mut self, op: u8)
        requires
            old(self).wf(),
        ensures
            final(self).wf(),
            final(self)@ == do_push_imm(old(self)@, op),
    {
        let n: u8 = if op == 0x68 { 4 } else { 1 };
        let v: u64 = self.fetch(n);
        self.push(sext(v, n));
    }

    pub fn op_pop_rm(&mut self, p: Prefix)
        requires
            old(self).wf(),
        ensures
            final(self).wf(),
            final(self)@ == do_pop_rm(old(self)@, p),
    {
        let v: u64 = self.pop();
        let (_ext, rm) = self.modrm(p.rex);
        self.store_rm(rm, 8, v);
    }

    /// A relative jump of `n` bytes of displacement.
    pub fn op_jump(&mut self, n: u8, taken: bool)
        requires
            old(self).wf(),
            is_width(n),
        ensures
            final(self).wf(),
            final(self)@ == jumped(old(self)@, n, taken),
    {
        let d: u64 = self.fetch(n);
        if taken {
            self.rip = self.rip.wrapping_add(sext(d, n));
        }
    }

    fn peek(&self, a: u64) -> (b: u8)
        ensures
            b == code_byte(self@, a),
    {
        self.ram_byte(self.translate(a), 0)
    }

    /// The register that an indirect-call thunk at `t` dispatches through. It is matched by content,
    /// and looking at it never faults.
    pub fn retpoline_reg(&self, t: u64) -> (r: Option<usize>)
        ensures
            r == thunk_reg(self@, t),
            r is Some ==> r->0 < 16,
    {
        if self.peek(t) != 0xe8 || self.peek(t.wrapping_add(1)) != 0x01 || self.peek(
            t.wrapping_add(2),
        ) != 0 || self.peek(t.wrapping_add(3)) != 0 || self.peek(t.wrapping_add(4)) != 0
            || self.peek(t.wrapping_add(5)) != 0xcc {
            return None;
        }
        let rex: u8 = self.peek(t.wrapping_add(6));
        let m: u8 = self.peek(t.wrapping_add(8));
        if (rex == 0x48 || rex == 0x4c) && self.peek(t.wrapping_add(7)) == 0x89 && m / 64 == 0 && m
            % 8 == 4 && self.peek(t.wrapping_add(9)) == 0x24 && self.peek(t.wrapping_add(10))
            == 0xe9 {
            Some(ext_reg(m / 8, if rex == 0x4c { 1 } else { 0 }))
        } else {
            None
        }
    }

    pub fn op_call(&mut self)
        requires
            old(self).wf(),
        ensures
            final(self).wf(),
            final(self)@ == do_call(old(self)@),
    {
        let d: u64 = self.fetch(4);
        let ret: u64 = self.rip;
        self.push(ret);
        let target: u64 = self.rip.wrapping_add(sext(d, 4));
        match self.retpoline_reg(target) {
            Some(reg) => {
                self.rip = if self.cfg.fastpaths { self.r[reg] } else { target };
            },
            None => {
                self.rip = target;
            },
        }
    }

    /// `RET`; `free` says that an immediate gives the bytes of arguments to free.
    pub fn op_ret(&mut self, free: bool)
        requires
            old(self).wf(),
        ensures
            final(self).wf(),
            final(self)@ == do_ret(old(self)@, free),
    {
        let n: u64 = if free { self.fetch(2) } else { 0 };
        let v: u64 = self.pop();
        self.rip = v;
        let sp: u64 = self.r[RSP].wrapping_add(n);
        self.r[RSP] = sp;
    }

    pub fn op_leave(&mut self)
        requires
            old(self).wf(),
        ensures
            final(self).wf(),
            final(self)@ == do_leave(old(self)@),
    {
        let bp: u64 = self.r[RBP];
        self.r[RSP] = bp;
        let v: u64 = self.pop();
        self.r[RBP] = v;
    }

    /// Load the code segment of a far return.
    pub fn load_code(&mut self, cs: u64)
        requires
            old(self).wf(),
        ensures
            final(self).wf(),
            final(self)@ == code_loaded(old(self)@, cs),
    {
        let g: Seg = self.seg[CS];
        self.seg[CS] = Seg { selector: cs as u16, base: g.base, long: true };
    }

    pub fn op_far_ret(&mut self, p: Prefix, free: bool)
        requires
            old(self).wf(),
        ensures
            final(self).wf(),
            final(self)@ == do_far_ret(old(self)@, p, free),
    {
        let size: u8 = p.quad();
        let n: u64 = if free { self.fetch(2) } else { 0 };
        let rip: u64 = self.pop_sized(size);
        let cs: u64 = self.pop_sized(size);
        self.rip = rip;
        self.load_code(cs);
        if free {
            let sp: u64 = self.r[RSP].wrapping_add(n);
            self.r[RSP] = sp;
        } else {
            self.cpl = (cs & 3) as u8;
        }
    }

    pub fn op_iret(&mut self)
        requires
            old(self).wf(),
        ensures
            final(self).wf(),
            final(self)@ == do_iret(old(self)@),
    {
        let rip: u64 = self.pop();
        let cs: u64 = self.pop();
        let rflags: u64 = self.pop();
        let rsp: u64 = self.pop();
        let ss: u64 = self.pop();
        self.rip = rip;
        self.load_code(cs);
        self.cpl = (cs & 3) as u8;
        self.rflags = (rflags & 0x0024_4fd5) | 0x2;
        self.r[RSP] = rsp;
        let g: Seg = self.seg[SS];
        self.seg[SS] = Seg { selector: ss as u16, base: g.base, long: g.long };
    }

    pub fn op_group5(&mut self, p: Prefix) -> (f: Flow)
        requires
            old(self).wf(),
        ensures
            final(self).wf(),
            (final(self)@, f@) == do_group5(old(self)@, p),
            f.ok(),
    {
        let size: u8 = p.size();
        let (reg, rm) = self.modrm(p.rex);
        let ext: usize = reg % 8;
        if ext == 0 || ext == 1 {
            self.op_step(rm, size, ext == 1);
            Flow::Next
        } else if ext == 2 {
            let t: u64 = self.load_rm(rm, 8);
            let ret: u64 = self.rip;
            self.push(ret);
            self.rip = t;
            Flow::Next
        } else if ext == 4 {
            let t: u64 = self.load_rm(rm, 8);
            self.rip = t;
            Flow::Next
        } else if ext == 6 {
            let v: u64 = self.load_rm(rm, 8);
            self.push(v);
            Flow::Next
        } else {
            Flow::Stop(Halt::Undefined(p.start))
        }
    }

    pub fn op_port(&mut self, p: Prefix, op: u8)
        requires
            old(self).wf(),
        ensures
            final(self).wf(),
            final(self)@ == do_port(old(self)@, p, op),
    {
        let size: u8 = p.size();
        let port: u16 = if op < 0xe8 {
            self.fetch(1) as u16
        } else {
            (self.r[RDX] & 0xffff) as u16
        };
        if op % 4 == 0 {
            let v: u8 = self.port_in(port);
            self.store_rm(Rm::Reg(RAX), 1, v as u64);
        } else if op % 4 == 1 {
            let v: u64 = self.port_in_wide(port, size);
            self.store_rm(Rm::Reg(RAX), size, v);
        } else if op % 4 == 2 {
            let v: u8 = (self.r[RAX] & 0xff) as u8;
            self.port_out(port, v);
        } else {
            let v: u64 = self.r[RAX] & mask(size);
            self.port_out_wide(port, size, v);
        }
    }

    /// Read a byte from a port.
    pub fn port_in(&mut self, port: u16) -> (v: u8)
        requires
            old(self).wf(),
        ensures
            final(self).wf(),
            v == sys_port_in(old(self)@.sys, port).1,
            final(self)@ == (CpuState { sys: sys_port_in(old(self)@.sys, port).0, ..old(self)@ }),
    {
        self.sys.port_in(port)
    }

    /// Write a byte to a port.
    pub fn port_out(&mut self, port: u16, val: u8)
        requires
            old(self).wf(),
        ensures
            final(self).wf(),
            final(self)@ == (CpuState {
                sys: sys_port_out(old(self)@.sys, port, val),
                ..old(self)@
            }),
    {
        self.sys.port_out(port, val);
    }

    /// Read an operand from ports.
    pub fn port_in_wide(&mut self, port: u16, size: u8) -> (v: u64)
        requires
            old(self).wf(),
            is_width(size),
        ensures
            final(self).wf(),
            v == sys_port_in_wide(old(self)@.sys, port, size).1,
            final(self)@ == (CpuState {
                sys: sys_port_in_wide(old(self)@.sys, port, size).0,
                ..old(self)@
            }),
    {
        self.sys.port_in_wide(port, size)
    }

    /// Write an operand to ports.
    pub fn port_out_wide(&mut self, port: u16, size: u8, val: u64)
        requires
            old(self).wf(),
            is_width(size),
        ensures
            final(self).wf(),
            final(self)@ == (CpuState {
                sys: sys_port_out_wide(old(self)@.sys, port, size, val),
                ..old(self)@
            }),
    {
        self.sys.port_out_wide(port, size, val);
    }

    pub fn op_hlt(&mut self) -> (f: Flow)
        requires
            old(self).wf(),
        ensures
            final(self).wf(),
            (final(self)@, f@) == do_hlt(old(self)@),
            f.ok(),
    {
        if self.rflags & RFLAGS_IF == 0 {
            self.sys.halted = true;
            return Flow::Stop(Halt::Halted);
        }
        self.idle_until_interrupt();
        Flow::Next
    }

    pub fn op_flag(&mut self, op: u8)
        requires
            old(self).wf(),
        ensures
            final(self).wf(),
            final(self)@ == do_flag(old(self)@, op),
    {
        if op == 0xf5 {
            let c: bool = self.rflags & CF != 0;
            self.set(CF, !c);
        } else if op == 0xf8 {
            self.set(CF, false);
        } else if op == 0xf9 {
            self.set(CF, true);
        } else if op == 0xfa {
            self.set(RFLAGS_IF, false);
        } else if op == 0xfb {
            self.set(RFLAGS_IF, true);
        } else if op == 0xfc {
            self.set(RFLAGS_DF, false);
        } else {
            self.set(RFLAGS_DF, true);
        }
    }
}

} // verus!
