//! Operands: the ModRM decode, register and memory operands of each width, and the stack.
use vstd::prelude::*;
use crate::bits::{mask, sign_extend};
use crate::cpu::{Cpu, SegId, FS, GS, RSP};
use crate::flags::{alu_op, cond, flags_logic, set_bit};
#[allow(unused_imports)]
use crate::bits::{is_width, mask_of, signed_of};
#[allow(unused_imports)]
use crate::cpu::CpuState;
#[allow(unused_imports)]
use crate::flags::{alu_result, condition, logic_flags, with_bit};
#[allow(unused_imports)]
use crate::mmu::{fetch_byte, fetch_bytes, mem_read, mem_write};

verus! {

/// A decoded operand: a register, an effective address, or a displacement from the end of the
/// instruction with a segment base, resolved once the whole instruction has been fetched.
#[derive(Clone, Copy, PartialEq, Eq, Structural, Debug)]
pub enum Rm {
    Reg(usize),
    Mem(u64),
    RipRel(u64, u64),
}

/// A register operand names one of the sixteen registers.
pub open spec fn rm_ok(rm: Rm) -> bool {
    match rm {
        Rm::Reg(i) => i < 16,
        _ => true,
    }
}

/// The low `size` bytes of `v`, sign-extended to 64 bits.
pub open spec fn sext_of(v: u64, size: u8) -> u64 {
    signed_of(v, size) as u64
}

/// The low `size` bytes of `v`, sign-extended to 64 bits.
pub fn sext(v: u64, size: u8) -> (r: u64)
    requires
        is_width(size),
    ensures
        r == sext_of(v, size),
{
    sign_extend(v, size) as u64
}

/// A three-bit register field with its extension bit.
pub open spec fn reg_field(low: u8, ext: u8) -> usize {
    (low % 8 + (if ext % 2 == 1 { 8int } else { 0 })) as usize
}

/// A three-bit register field with its extension bit.
pub fn ext_reg(low: u8, ext: u8) -> (r: usize)
    ensures
        r == reg_field(low, ext),
        r < 16,
{
    (low % 8) as usize + (if ext % 2 == 1 { 8usize } else { 0 })
}

/// The base of the segment override in effect.
pub open spec fn override_base(s: CpuState) -> u64 {
    match s.cur_seg {
        Some(SegId::Fs) => s.seg[4].base,
        Some(SegId::Gs) => s.seg[5].base,
        None => 0,
    }
}

/// The scaled index of a SIB byte; index 4 means none.
pub open spec fn sib_index(s: CpuState, sib: u8, rex: u8) -> u64 {
    let index = reg_field(sib / 8, rex / 2);
    if index == 4 {
        0
    } else {
        s.r[index as int] << ((sib / 64) as u64)
    }
}

/// The base part of a memory operand with a SIB byte.
pub open spec fn sib_base(s: CpuState, sib: u8, md: u8, rex: u8) -> (CpuState, u64) {
    let index = sib_index(s, sib, rex);
    if sib % 8 == 5 && md == 0 {
        let (t, d) = fetch_bytes(s, 4);
        (t, index.wrapping_add(sext_of(d, 4)))
    } else {
        (s, s.r[reg_field(sib, rex) as int].wrapping_add(index))
    }
}

/// The displacement that follows: none, one byte or four.
pub open spec fn displacement(s: CpuState, md: u8) -> (CpuState, u64) {
    if md == 1 {
        let (t, d) = fetch_bytes(s, 1);
        (t, sext_of(d, 1))
    } else if md == 2 {
        let (t, d) = fetch_bytes(s, 4);
        (t, sext_of(d, 4))
    } else {
        (s, 0)
    }
}

/// The ModRM byte with what follows it: the register field and the operand.
#[verifier::opaque]
pub open spec fn decode_rm(s: CpuState, rex: u8) -> (CpuState, (usize, Rm)) {
    let (s1, m) = fetch_byte(s);
    let md = m / 64;
    let reg = reg_field(m / 8, rex / 4);
    if md == 3 {
        (s1, (reg, Rm::Reg(reg_field(m, rex))))
    } else if m % 8 == 5 && md == 0 {
        let (s2, d) = fetch_bytes(s1, 4);
        (s2, (reg, Rm::RipRel(sext_of(d, 4), override_base(s2))))
    } else {
        let (s2, base) = if m % 8 == 4 {
            let (t, sib) = fetch_byte(s1);
            sib_base(t, sib, md, rex)
        } else {
            (s1, s1.r[reg_field(m, rex) as int])
        };
        let (s3, d) = displacement(s2, md);
        (s3, (reg, Rm::Mem(base.wrapping_add(d).wrapping_add(override_base(s3)))))
    }
}

/// The effective address of a memory operand.
pub open spec fn operand_addr(s: CpuState, rm: Rm) -> Option<u64> {
    match rm {
        Rm::Reg(_) => None,
        Rm::Mem(a) => Some(a),
        Rm::RipRel(d, seg) => Some(s.rip.wrapping_add(d).wrapping_add(seg)),
    }
}

/// The effective address, or zero for a register.
pub open spec fn addr_or_zero(s: CpuState, rm: Rm) -> u64 {
    match operand_addr(s, rm) {
        Some(a) => a,
        None => 0,
    }
}

/// A byte register without a `REX` prefix: fields 4 to 7 name the high bytes.
pub open spec fn high_byte(s: CpuState, reg: int) -> bool {
    !s.rex_present && 4 <= reg < 8
}

/// The value of a byte register.
pub open spec fn byte_reg(s: CpuState, reg: int) -> u64 {
    if high_byte(s, reg) {
        (s.r[reg - 4] >> 8) & 0xff
    } else {
        s.r[reg] & 0xff
    }
}

/// The value of a register at a width.
pub open spec fn reg_value(s: CpuState, reg: int, size: u8) -> u64 {
    if size == 1 {
        byte_reg(s, reg)
    } else {
        s.r[reg] & mask_of(size)
    }
}

/// A register written at a width: a 32-bit write clears the upper half, narrower ones keep the rest.
pub open spec fn reg_write(s: CpuState, reg: int, size: u8, val: u64) -> CpuState {
    if size == 1 && high_byte(s, reg) {
        CpuState {
            r: s.r.update(reg - 4, (s.r[reg - 4] & !0xff00) | ((val & 0xff) << 8)),
            ..s
        }
    } else if size >= 4 {
        CpuState { r: s.r.update(reg, val & mask_of(size)), ..s }
    } else {
        CpuState {
            r: s.r.update(reg, (s.r[reg] & !mask_of(size)) | (val & mask_of(size))),
            ..s
        }
    }
}

/// A load of an operand.
#[verifier::opaque]
pub open spec fn load_operand(s: CpuState, rm: Rm, size: u8) -> (CpuState, u64) {
    match rm {
        Rm::Reg(i) => (s, reg_value(s, i as int, size)),
        _ => mem_read(s, addr_or_zero(s, rm), size),
    }
}

/// A store of an operand.
#[verifier::opaque]
pub open spec fn store_operand(s: CpuState, rm: Rm, size: u8, val: u64) -> CpuState {
    match rm {
        Rm::Reg(i) => reg_write(s, i as int, size, val),
        _ => mem_write(s, addr_or_zero(s, rm), size, val),
    }
}

/// A 128-bit load: a register, or sixteen bytes of memory.
#[verifier::opaque]
pub open spec fn load128(s: CpuState, rm: Rm) -> (CpuState, u128) {
    match rm {
        Rm::Reg(i) => (s, s.xmm[i as int]),
        _ => {
            let a = addr_or_zero(s, rm);
            let (t, lo) = mem_read(s, a, 8);
            let (u, hi) = mem_read(t, a.wrapping_add(8), 8);
            (u, (lo as u128) | ((hi as u128) << 64))
        },
    }
}

/// A 128-bit store.
#[verifier::opaque]
pub open spec fn store128(s: CpuState, rm: Rm, v: u128) -> CpuState {
    match rm {
        Rm::Reg(i) => CpuState { xmm: s.xmm.update(i as int, v), ..s },
        _ => {
            let a = addr_or_zero(s, rm);
            mem_write(mem_write(s, a, 8, v as u64), a.wrapping_add(8), 8, (v >> 64) as u64)
        },
    }
}

/// The low quadword of a register, or eight bytes of memory.
#[verifier::opaque]
pub open spec fn load64(s: CpuState, rm: Rm) -> (CpuState, u64) {
    match rm {
        Rm::Reg(i) => (s, s.xmm[i as int] as u64),
        _ => mem_read(s, addr_or_zero(s, rm), 8),
    }
}

/// The low doubleword of a register, or four bytes of memory.
#[verifier::opaque]
pub open spec fn load32(s: CpuState, rm: Rm) -> (CpuState, u32) {
    match rm {
        Rm::Reg(i) => (s, s.xmm[i as int] as u32),
        _ => {
            let (t, v) = mem_read(s, addr_or_zero(s, rm), 4);
            (t, v as u32)
        },
    }
}

/// A general-purpose register replaced.
pub open spec fn with_reg(s: CpuState, i: int, v: u64) -> CpuState {
    CpuState { r: s.r.update(i, v), ..s }
}

/// An SSE register replaced.
pub open spec fn with_xmm(s: CpuState, i: int, v: u128) -> CpuState {
    CpuState { xmm: s.xmm.update(i, v), ..s }
}

/// The instruction pointer replaced.
pub open spec fn with_rip(s: CpuState, v: u64) -> CpuState {
    CpuState { rip: v, ..s }
}

/// The flags replaced.
pub open spec fn with_flags(s: CpuState, v: u64) -> CpuState {
    CpuState { rflags: v, ..s }
}

/// A push of eight bytes.
#[verifier::opaque]
pub open spec fn stack_push(s: CpuState, val: u64) -> CpuState {
    let sp = s.r[4].wrapping_sub(8);
    mem_write(with_reg(s, 4, sp), sp, 8, val)
}

/// A pop of `size` bytes.
#[verifier::opaque]
pub open spec fn stack_pop(s: CpuState, size: u8) -> (CpuState, u64) {
    let sp = s.r[4];
    let (t, v) = mem_read(s, sp, size);
    (with_reg(t, 4, sp.wrapping_add(size as u64)), v)
}

impl Cpu {
    /// The base of the segment override in effect; every other segment is flat.
    pub fn seg_base(&self) -> (b: u64)
        ensures
            b == override_base(self@),
    {
        match self.cur_seg {
            Some(SegId::Fs) => self.seg[FS].base,
            Some(SegId::Gs) => self.seg[GS].base,
            None => 0,
        }
    }

    fn sib(&mut self, sib: u8, md: u8, rex: u8) -> (base: u64)
        requires
            old(self).wf(),
        ensures
            final(self).wf(),
            (final(self)@, base) == sib_base(old(self)@, sib, md, rex),
    {
        let index: usize = ext_reg(sib / 8, rex / 2);
        let scaled: u64 = if index == 4 { 0 } else { self.r[index] << ((sib / 64) as u64) };
        if sib % 8 == 5 && md == 0 {
            let d: u64 = self.fetch(4);
            scaled.wrapping_add(sext(d, 4))
        } else {
            self.r[ext_reg(sib, rex)].wrapping_add(scaled)
        }
    }

    fn disp(&mut self, md: u8) -> (d: u64)
        requires
            old(self).wf(),
        ensures
            final(self).wf(),
            (final(self)@, d) == displacement(old(self)@, md),
    {
        if md == 1 {
            let d: u64 = self.fetch(1);
            sext(d, 1)
        } else if md == 2 {
            let d: u64 = self.fetch(4);
            sext(d, 4)
        } else {
            0
        }
    }

    /// Decode the ModRM byte (with SIB and displacement): the register field and the operand.
    pub fn modrm(&mut self, rex: u8) -> (d: (usize, Rm))
        requires
            old(self).wf(),
        ensures
            final(self).wf(),
            (final(self)@, d) == decode_rm(old(self)@, rex),
            d.0 < 16,
            rm_ok(d.1),
    {
        proof {
            reveal(decode_rm);
        }
        let m: u8 = self.fetch_u8();
        let md: u8 = m / 64;
        let reg: usize = ext_reg(m / 8, rex / 4);
        if md == 3 {
            return (reg, Rm::Reg(ext_reg(m, rex)));
        }
        if m % 8 == 5 && md == 0 {
            let d: u64 = self.fetch(4);
            let seg: u64 = self.seg_base();
            return (reg, Rm::RipRel(sext(d, 4), seg));
        }
        let base: u64 = if m % 8 == 4 {
            let sib: u8 = self.fetch_u8();
            self.sib(sib, md, rex)
        } else {
            self.r[ext_reg(m, rex)]
        };
        let d: u64 = self.disp(md);
        (reg, Rm::Mem(base.wrapping_add(d).wrapping_add(self.seg_base())))
    }

    /// The effective address of a memory operand; `None` for a register.
    pub fn rm_addr(&self, rm: Rm) -> (a: Option<u64>)
        ensures
            a == operand_addr(self@, rm),
    {
        match rm {
            Rm::Reg(_) => None,
            Rm::Mem(a) => Some(a),
            Rm::RipRel(d, seg) => Some(self.rip.wrapping_add(d).wrapping_add(seg)),
        }
    }

    /// The effective address of a memory operand; zero for a register.
    pub fn xmm_mem_addr(&self, rm: Rm) -> (a: u64)
        ensures
            a == addr_or_zero(self@, rm),
    {
        match self.rm_addr(rm) {
            Some(a) => a,
            None => 0,
        }
    }

    /// The value of a byte register.
    pub fn reg8(&self, reg: usize) -> (v: u64)
        requires
            reg < 16,
        ensures
            v == byte_reg(self@, reg as int),
    {
        if !self.rex_present && 4 <= reg && reg < 8 {
            (self.r[reg - 4] >> 8) & 0xff
        } else {
            self.r[reg] & 0xff
        }
    }

    /// The value of a register at a width.
    pub fn reg_at(&self, reg: usize, size: u8) -> (v: u64)
        requires
            reg < 16,
            is_width(size),
        ensures
            v == reg_value(self@, reg as int, size),
    {
        if size == 1 {
            self.reg8(reg)
        } else {
            self.r[reg] & mask(size)
        }
    }

    /// Write a register at a width.
    pub fn set_reg(&mut self, reg: usize, size: u8, val: u64)
        requires
            reg < 16,
            is_width(size),
        ensures
            final(self)@ == reg_write(old(self)@, reg as int, size, val),
    {
        if size == 1 && !self.rex_present && 4 <= reg && reg < 8 {
            let v: u64 = (self.r[reg - 4] & !0xff00) | ((val & 0xff) << 8);
            self.r[reg - 4] = v;
        } else if size >= 4 {
            self.r[reg] = val & mask(size);
        } else {
            let m: u64 = mask(size);
            let v: u64 = (self.r[reg] & !m) | (val & m);
            self.r[reg] = v;
        }
    }

    /// Load an operand.
    pub fn load_rm(&mut self, rm: Rm, size: u8) -> (v: u64)
        requires
            old(self).wf(),
            rm_ok(rm),
            is_width(size),
        ensures
            final(self).wf(),
            (final(self)@, v) == load_operand(old(self)@, rm, size),
    {
        proof {
            reveal(load_operand);
        }
        match rm {
            Rm::Reg(i) => self.reg_at(i, size),
            _ => {
                let a: u64 = self.xmm_mem_addr(rm);
                self.rd(a, size)
            },
        }
    }

    /// Store an operand.
    pub fn store_rm(&mut self, rm: Rm, size: u8, val: u64)
        requires
            old(self).wf(),
            rm_ok(rm),
            is_width(size),
        ensures
            final(self).wf(),
            final(self)@ == store_operand(old(self)@, rm, size, val),
    {
        proof {
            reveal(store_operand);
        }
        match rm {
            Rm::Reg(i) => self.set_reg(i, size, val),
            _ => {
                let a: u64 = self.xmm_mem_addr(rm);
                self.wr(a, size, val)
            },
        }
    }

    /// Load a 128-bit operand.
    pub fn xmm_load128(&mut self, rm: Rm) -> (v: u128)
        requires
            old(self).wf(),
            rm_ok(rm),
        ensures
            final(self).wf(),
            (final(self)@, v) == load128(old(self)@, rm),
    {
        proof {
            reveal(load128);
        }
        match rm {
            Rm::Reg(i) => self.xmm[i],
            _ => {
                let a: u64 = self.xmm_mem_addr(rm);
                let lo: u64 = self.rd(a, 8);
                let hi: u64 = self.rd(a.wrapping_add(8), 8);
                (lo as u128) | ((hi as u128) << 64)
            },
        }
    }

    /// Store a 128-bit operand.
    pub fn xmm_store128(&mut self, rm: Rm, v: u128)
        requires
            old(self).wf(),
            rm_ok(rm),
        ensures
            final(self).wf(),
            final(self)@ == store128(old(self)@, rm, v),
    {
        proof {
            reveal(store128);
        }
        match rm {
            Rm::Reg(i) => {
                self.xmm[i] = v;
            },
            _ => {
                let a: u64 = self.xmm_mem_addr(rm);
                self.wr(a, 8, v as u64);
                self.wr(a.wrapping_add(8), 8, (v >> 64) as u64);
            },
        }
    }

    /// Load the low quadword of an SSE operand.
    pub fn xmm_load64(&mut self, rm: Rm) -> (v: u64)
        requires
            old(self).wf(),
            rm_ok(rm),
        ensures
            final(self).wf(),
            (final(self)@, v) == load64(old(self)@, rm),
    {
        proof {
            reveal(load64);
        }
        match rm {
            Rm::Reg(i) => self.xmm[i] as u64,
            _ => {
                let a: u64 = self.xmm_mem_addr(rm);
                self.rd(a, 8)
            },
        }
    }

    /// Load the low doubleword of an SSE operand.
    pub fn xmm_load32(&mut self, rm: Rm) -> (v: u32)
        requires
            old(self).wf(),
            rm_ok(rm),
        ensures
            final(self).wf(),
            (final(self)@, v) == load32(old(self)@, rm),
    {
        proof {
            reveal(load32);
        }
        match rm {
            Rm::Reg(i) => self.xmm[i] as u32,
            _ => {
                let a: u64 = self.xmm_mem_addr(rm);
                self.rd(a, 4) as u32
            },
        }
    }

    /// Push eight bytes.
    pub fn push(&mut self, val: u64)
        requires
            old(self).wf(),
        ensures
            final(self).wf(),
            final(self)@ == stack_push(old(self)@, val),
    {
        proof {
            reveal(stack_push);
        }
        let sp: u64 = self.r[RSP].wrapping_sub(8);
        self.r[RSP] = sp;
        self.wr(sp, 8, val);
    }

    /// Pop eight bytes.
    pub fn pop(&mut self) -> (v: u64)
        requires
            old(self).wf(),
        ensures
            final(self).wf(),
            (final(self)@, v) == stack_pop(old(self)@, 8),
    {
        self.pop_sized(8)
    }

    /// Pop `size` bytes.
    pub fn pop_sized(&mut self, size: u8) -> (v: u64)
        requires
            old(self).wf(),
            is_width(size),
        ensures
            final(self).wf(),
            (final(self)@, v) == stack_pop(old(self)@, size),
    {
        proof {
            reveal(stack_pop);
        }
        let sp: u64 = self.r[RSP];
        let v: u64 = self.rd(sp, size);
        self.r[RSP] = sp.wrapping_add(size as u64);
        v
    }

    /// Set or clear flag bits.
    pub fn set(&mut self, bit: u64, on: bool)
        ensures
            final(self)@ == with_flags(old(self)@, with_bit(old(self)@.rflags, bit, on)),
    {
        self.rflags = set_bit(self.rflags, bit, on);
    }

    /// Set the flags of a logical result.
    pub fn logic(&mut self, res: u64, size: u8)
        requires
            is_width(size),
        ensures
            final(self)@ == with_flags(old(self)@, logic_flags(old(self)@.rflags, res, size)),
    {
        self.rflags = flags_logic(self.rflags, res, size);
    }

    /// One of the eight group-1 operations, setting the flags.
    pub fn alu(&mut self, op: u8, a: u64, b: u64, size: u8) -> (r: u64)
        requires
            op < 8,
            is_width(size),
        ensures
            r == alu_result(op, old(self)@.rflags, a, b, size).0,
            final(self)@ == with_flags(
                old(self)@,
                alu_result(op, old(self)@.rflags, a, b, size).1,
            ),
    {
        let (r, f) = alu_op(op, self.rflags, a, b, size);
        self.rflags = f;
        r
    }

    /// Evaluate a condition code.
    pub fn cond(&self, cc: u8) -> (b: bool)
        ensures
            b == condition(self@.rflags, cc),
    {
        cond(self.rflags, cc)
    }
}

} // verus!
