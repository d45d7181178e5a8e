//! Multiplication and division, double shifts, bit tests, atomic exchanges, and the two-byte integer
//! moves.
use vstd::prelude::*;
use crate::arith::{
    bit_op, div_op, double_shift_op, idiv_op, imul_op, mul_op, shift_amount, swap32, swap64,
};
use crate::bits::{mask, sign_extend};
use crate::cpu::{Cpu, RAX, RBX, RCX, RDX};
use crate::decode::Prefix;
use crate::flags::{add_carry, set_result, sub_borrow, CF, ZF};
use crate::operand::{ext_reg, sext, Rm};
#[allow(unused_imports)]
use crate::arith::{
    bit_changed, div_result, double_shift, idiv_result, imul_result, mul_result, shift_count,
    swapped32, swapped64,
};
#[allow(unused_imports)]
use crate::bits::{is_width, lemma_mask, low, mask_of, signed_of};
#[allow(unused_imports)]
use crate::cpu::CpuState;
#[allow(unused_imports)]
use crate::decode::operand_size;
#[allow(unused_imports)]
use crate::flags::{add_flags, condition, sub_flags, with_bit, with_result};
#[allow(unused_imports)]
use crate::int_ops::{imul_stored, tested};
#[allow(unused_imports)]
use crate::interrupt::raised;
#[allow(unused_imports)]
use crate::mmu::{fetch_bytes, fetch_imm, mem_read, mem_write};
#[allow(unused_imports)]
use crate::operand::{
    addr_or_zero, decode_rm, load_operand, operand_addr, reg_field, rm_ok, sext_of, store_operand,
    with_flags, with_reg,
};
#[allow(unused_imports)]
use vstd::std_specs::bits::{u64_leading_zeros, u64_trailing_zeros};

verus! {

// ----- group 3 -----

/// A double-width result in `AX`, or in the accumulator and `RDX`.
pub open spec fn wide_stored(s: CpuState, lo: u64, hi: u64, size: u8) -> CpuState {
    if size == 1 {
        with_reg(s, 0, (s.r[0] & !0xffff) | (lo & 0xff) | ((hi & 0xff) << 8))
    } else {
        store_operand(store_operand(s, Rm::Reg(0), size, lo), Rm::Reg(2), size, hi)
    }
}

/// `TEST` with an immediate.
pub open spec fn g3_test(s: CpuState, rm: Rm, size: u8) -> CpuState {
    let (s1, imm) = if size == 1 { fetch_bytes(s, 1) } else { fetch_imm(s, size) };
    let (s2, a) = load_operand(s1, rm, size);
    tested(s2, a, imm, size)
}

/// `NOT`, which sets no flags.
pub open spec fn g3_not(s: CpuState, rm: Rm, size: u8) -> CpuState {
    let (s1, a) = load_operand(s, rm, size);
    store_operand(s1, rm, size, !a & mask_of(size))
}

/// `NEG`: the flags of the subtraction from zero.
pub open spec fn g3_neg(s: CpuState, rm: Rm, size: u8) -> CpuState {
    let (s1, a) = load_operand(s, rm, size);
    let r = ((-low(a, size)) % crate::bits::modulus(size)) as u64;
    store_operand(with_flags(s1, sub_flags(s1.rflags, 0, a, 0, size)), rm, size, r)
}

/// `MUL`: the double-width product of the accumulator and the operand.
pub open spec fn g3_mul(s: CpuState, rm: Rm, size: u8) -> CpuState {
    let (s1, b) = load_operand(s, rm, size);
    let (lo, hi, f) = mul_result(s1.rflags, s1.r[0], b, size);
    with_flags(wide_stored(s1, lo, hi, size), f)
}

/// `IMUL`: the same, signed.
pub open spec fn g3_imul(s: CpuState, rm: Rm, size: u8) -> CpuState {
    let (s1, b) = load_operand(s, rm, size);
    let (lo, hi, f) = imul_result(s1.rflags, s1.r[0], b, size);
    with_flags(wide_stored(s1, lo, hi, size), f)
}

/// `DIV`: quotient and remainder, or the divide error for a divisor of zero.
pub open spec fn g3_div(s: CpuState, rm: Rm, size: u8) -> CpuState {
    let (s1, d) = load_operand(s, rm, size);
    if low(d, size) == 0 {
        raised(s1, 0, 0, false)
    } else {
        let (q, r) = div_result(s1.r[0], s1.r[2], d, size);
        wide_stored(s1, q, r, size)
    }
}

/// `IDIV`: the same, signed.
pub open spec fn g3_idiv(s: CpuState, rm: Rm, size: u8) -> CpuState {
    let (s1, d) = load_operand(s, rm, size);
    if signed_of(d, size) == 0 {
        raised(s1, 0, 0, false)
    } else {
        let (q, r) = idiv_result(s1.r[0], s1.r[2], d, size);
        wide_stored(s1, q, r, size)
    }
}

/// Group 3 (`F6` and `F7`).
pub open spec fn do_group3(s: CpuState, p: Prefix, op: u8) -> CpuState {
    let size = if op == 0xf6 { 1u8 } else { operand_size(p) };
    let (s1, (reg, rm)) = decode_rm(s, p.rex);
    let ext = reg % 8;
    if ext < 2 {
        g3_test(s1, rm, size)
    } else if ext == 2 {
        g3_not(s1, rm, size)
    } else if ext == 3 {
        g3_neg(s1, rm, size)
    } else if ext == 4 {
        g3_mul(s1, rm, size)
    } else if ext == 5 {
        g3_imul(s1, rm, size)
    } else if ext == 6 {
        g3_div(s1, rm, size)
    } else {
        g3_idiv(s1, rm, size)
    }
}

// ----- two-byte integer instructions -----

/// `SETcc`.
pub open spec fn do_setcc(s: CpuState, p: Prefix, op: u8) -> CpuState {
    let (s1, (_reg, rm)) = decode_rm(s, p.rex);
    store_operand(s1, rm, 1, if condition(s1.rflags, (op % 16) as u8) { 1 } else { 0 })
}

/// `CMOVcc`: the operand is read whether or not the move happens.
pub open spec fn do_cmov(s: CpuState, p: Prefix, op: u8) -> CpuState {
    let size = operand_size(p);
    let (s1, (reg, rm)) = decode_rm(s, p.rex);
    let (s2, v) = load_operand(s1, rm, size);
    if condition(s2.rflags, (op % 16) as u8) {
        store_operand(s2, Rm::Reg(reg), size, v)
    } else {
        s2
    }
}

/// `MOVZX` and `MOVSX` from a byte or a word.
pub open spec fn do_extend(s: CpuState, p: Prefix, op: u8) -> CpuState {
    let size = operand_size(p);
    let from = if op % 2 == 0 { 1u8 } else { 2u8 };
    let (s1, (reg, rm)) = decode_rm(s, p.rex);
    let (s2, v) = load_operand(s1, rm, from);
    if op < 0xb8 {
        store_operand(s2, Rm::Reg(reg), size, v)
    } else {
        store_operand(s2, Rm::Reg(reg), size, sext_of(v, from) & mask_of(size))
    }
}

/// `IMUL` of a register and an operand.
pub open spec fn do_imul2(s: CpuState, p: Prefix) -> CpuState {
    let size = operand_size(p);
    let (s1, (reg, rm)) = decode_rm(s, p.rex);
    let (s2, b) = load_operand(s1, rm, size);
    imul_stored(s2, reg as int, s2.r[reg as int], b, size)
}

/// A bit of a register operand, the index taken modulo the width; or a bit of memory, which may lie
/// beyond the operand. The bit goes to the carry flag, and is then changed.
pub open spec fn bit_tested(s: CpuState, rm: Rm, size: u8, bit: u64, op: u8) -> CpuState {
    match rm {
        Rm::Reg(_) => {
            let b = bit % ((8 * size) as u64);
            let (s1, v) = load_operand(s, rm, size);
            let s2 = with_flags(s1, with_bit(s1.rflags, CF, (v >> b) & 1 != 0));
            if op != 0 {
                store_operand(s2, rm, size, bit_changed(v, b, op))
            } else {
                s2
            }
        },
        _ => {
            let a = addr_or_zero(s, rm).wrapping_add(bit / 8);
            let b = bit % 8;
            let (s1, v) = mem_read(s, a, 1);
            let s2 = with_flags(s1, with_bit(s1.rflags, CF, (v >> b) & 1 != 0));
            if op != 0 {
                mem_write(s2, a, 1, bit_changed(v, b, op))
            } else {
                s2
            }
        },
    }
}

/// Bit test by a register.
pub open spec fn do_bit_reg(s: CpuState, p: Prefix, op: u8) -> CpuState {
    let size = operand_size(p);
    let (s1, (reg, rm)) = decode_rm(s, p.rex);
    bit_tested(s1, rm, size, s1.r[reg as int] & mask_of(size), ((op / 8) % 4) as u8)
}

/// Bit test by an immediate.
pub open spec fn do_bit_imm(s: CpuState, p: Prefix) -> CpuState {
    let size = operand_size(p);
    let (s1, (reg, rm)) = decode_rm(s, p.rex);
    let (s2, v) = fetch_bytes(s1, 1);
    bit_tested(s2, rm, size, (v as u8) as u64, (reg % 4) as u8)
}

/// `BSF` and `BSR`: the index of the lowest or highest set bit; zero only sets the zero flag.
pub open spec fn do_bit_scan(s: CpuState, p: Prefix, op: u8) -> CpuState {
    let size = operand_size(p);
    let (s1, (reg, rm)) = decode_rm(s, p.rex);
    let (s2, w) = load_operand(s1, rm, size);
    let v = w & mask_of(size);
    let s3 = with_flags(s2, with_bit(s2.rflags, ZF, v == 0));
    if v == 0 {
        s3
    } else if op == 0xbc {
        store_operand(s3, Rm::Reg(reg), size, u64_trailing_zeros(v) as u64)
    } else {
        store_operand(s3, Rm::Reg(reg), size, (63 - u64_leading_zeros(v)) as u64)
    }
}

/// Compare the accumulator with the destination: equal, the source is stored; else the destination
/// is loaded into the accumulator.
pub open spec fn do_exchange(s: CpuState, p: Prefix, size: u8) -> CpuState {
    let (s1, (reg, rm)) = decode_rm(s, p.rex);
    let (s2, w) = load_operand(s1, rm, size);
    let dst = w & mask_of(size);
    let acc = s2.r[0] & mask_of(size);
    let s3 = with_flags(s2, sub_flags(s2.rflags, acc, dst, 0, size));
    if acc == dst {
        store_operand(s3, rm, size, s3.r[reg as int] & mask_of(size))
    } else {
        store_operand(s3, Rm::Reg(0), size, dst)
    }
}

/// The same on two words at once (`size` 4 or 8 each), with `RDX:RAX` and `RCX:RBX`. A register
/// operand does nothing.
pub open spec fn exchange_pair(s: CpuState, rm: Rm, size: u8) -> CpuState {
    match operand_addr(s, rm) {
        None => s,
        Some(a) => {
            let b = a.wrapping_add(size as u64);
            let m = mask_of(size);
            let (s1, lo) = mem_read(s, a, size);
            let (s2, hi) = mem_read(s1, b, size);
            if lo == s2.r[0] & m && hi == s2.r[2] & m {
                let s3 = mem_write(s2, a, size, s2.r[3] & m);
                let s4 = mem_write(s3, b, size, s3.r[1] & m);
                with_flags(s4, with_bit(s4.rflags, ZF, true))
            } else {
                with_flags(
                    with_reg(with_reg(s2, 0, lo), 2, hi),
                    with_bit(s2.rflags, ZF, false),
                )
            }
        },
    }
}

/// `XADD`: the sum goes to the destination, the old destination to the register.
pub open spec fn do_xadd(s: CpuState, p: Prefix, size: u8) -> CpuState {
    let (s1, (reg, rm)) = decode_rm(s, p.rex);
    let (s2, w) = load_operand(s1, rm, size);
    let dst = w & mask_of(size);
    let src = s2.r[reg as int] & mask_of(size);
    let sum = ((low(dst, size) + low(src, size)) % crate::bits::modulus(size)) as u64;
    let s3 = with_flags(s2, add_flags(s2.rflags, dst, src, 0, size));
    store_operand(store_operand(s3, Rm::Reg(reg), size, dst), rm, size, sum)
}

/// `SHLD` and `SHRD`.
pub open spec fn double_shifted(
    s: CpuState,
    rm: Rm,
    reg: int,
    size: u8,
    cnt: u8,
    right: bool,
) -> CpuState {
    let c = shift_count(cnt, size);
    if c == 0 {
        s
    } else {
        let (s1, w) = load_operand(s, rm, size);
        let dst = w & mask_of(size);
        let src = s1.r[reg] & mask_of(size);
        let res = double_shift(dst, src, c, size, right);
        let s2 = store_operand(s1, rm, size, res);
        with_flags(s2, with_result(s2.rflags, res, size))
    }
}

/// `SHLD` and `SHRD` by an immediate or by `CL`.
pub open spec fn do_double_shift(s: CpuState, p: Prefix, op: u8) -> CpuState {
    let size = operand_size(p);
    let (s1, (reg, rm)) = decode_rm(s, p.rex);
    if op % 2 == 0 {
        let (s2, c) = fetch_bytes(s1, 1);
        double_shifted(s2, rm, reg as int, size, c as u8, op >= 0xa8)
    } else {
        double_shifted(s1, rm, reg as int, size, (s1.r[1] & 0xff) as u8, op >= 0xa8)
    }
}

/// `BSWAP`. Without `REX.W` the four low bytes of the operand are reversed.
pub open spec fn do_bswap(s: CpuState, p: Prefix, op: u8) -> CpuState {
    let size = operand_size(p);
    let reg = reg_field(op, p.rex);
    let v = s.r[reg as int] & mask_of(size);
    store_operand(s, Rm::Reg(reg), size, if size == 8 { swapped64(v) } else { swapped32(v) })
}

impl Cpu {
    fn store_wide(&mut self, lo: u64, hi: u64, size: u8)
        requires
            old(self).wf(),
            is_width(size),
        ensures
            final(self).wf(),
            final(self)@ == wide_stored(old(self)@, lo, hi, size),
    {
        if size == 1 {
            let v: u64 = (self.r[RAX] & !0xffff) | (lo & 0xff) | ((hi & 0xff) << 8);
            self.r[RAX] = v;
        } else {
            self.store_rm(Rm::Reg(RAX), size, lo);
            self.store_rm(Rm::Reg(RDX), size, hi);
        }
    }

    fn neg(&mut self, rm: Rm, size: u8)
        requires
            old(self).wf(),
            rm_ok(rm),
            is_width(size),
        ensures
            final(self).wf(),
            final(self)@ == g3_neg(old(self)@, rm, size),
    {
        let a: u64 = self.load_rm(rm, size);
        let (r, f) = sub_borrow(self.rflags, 0, a, false, size);
        self.rflags = f;
        self.store_rm(rm, size, r);
    }

    fn div(&mut self, rm: Rm, size: u8)
        requires
            old(self).wf(),
            rm_ok(rm),
            is_width(size),
        ensures
            final(self).wf(),
            final(self)@ == g3_div(old(self)@, rm, size),
    {
        let d: u64 = self.load_rm(rm, size);
        proof {
            lemma_mask(d, size);
        }
        if d & mask(size) == 0 {
            self.raise_exception(0, 0, false);
            return;
        }
        let (q, r) = div_op(self.r[RAX], self.r[RDX], d, size);
        self.store_wide(q, r, size);
    }

    fn idiv(&mut self, rm: Rm, size: u8)
        requires
            old(self).wf(),
            rm_ok(rm),
            is_width(size),
        ensures
            final(self).wf(),
            final(self)@ == g3_idiv(old(self)@, rm, size),
    {
        let d: u64 = self.load_rm(rm, size);
        if sign_extend(d, size) == 0 {
            self.raise_exception(0, 0, false);
            return;
        }
        let (q, r) = idiv_op(self.r[RAX], self.r[RDX], d, size);
        self.store_wide(q, r, size);
    }

    /// Group 3: `TEST`, `NOT`, `NEG`, `MUL`, `IMUL`, `DIV` and `IDIV`.
    pub fn group3(&mut self, p: Prefix, op: u8)
        requires
            old(self).wf(),
        ensures
            final(self).wf(),
            final(self)@ == do_group3(old(self)@, p, op),
    {
        let size: u8 = if op == 0xf6 { 1 } else { p.size() };
        let (reg, rm) = self.modrm(p.rex);
        let ext: usize = reg % 8;
        if ext < 2 {
            let imm: u64 = if size == 1 { self.fetch(1) } else { self.fetch_imm_z(size) };
            let a: u64 = self.load_rm(rm, size);
            self.logic(a & imm, size);
        } else if ext == 2 {
            let a: u64 = self.load_rm(rm, size);
            self.store_rm(rm, size, !a & mask(size));
        } else if ext == 3 {
            self.neg(rm, size);
        } else if ext == 4 {
            let b: u64 = self.load_rm(rm, size);
            let (lo, hi, f) = mul_op(self.rflags, self.r[RAX], b, size);
            self.store_wide(lo, hi, size);
            self.rflags = f;
        } else if ext == 5 {
            let b: u64 = self.load_rm(rm, size);
            let (lo, hi, f) = imul_op(self.rflags, self.r[RAX], b, size);
            self.store_wide(lo, hi, size);
            self.rflags = f;
        } else if ext == 6 {
            self.div(rm, size);
        } else {
            self.idiv(rm, size);
        }
    }

    pub fn op_setcc(&mut self, p: Prefix, op: u8)
        requires
            old(self).wf(),
        ensures
            final(self).wf(),
            final(self)@ == do_setcc(old(self)@, p, op),
    {
        let (_reg, rm) = self.modrm(p.rex);
        let v: u64 = if self.cond(op % 16) { 1 } else { 0 };
        self.store_rm(rm, 1, v);
    }

    pub fn op_cmov(&mut self, p: Prefix, op: u8)
        requires
            old(self).wf(),
        ensures
            final(self).wf(),
            final(self)@ == do_cmov(old(self)@, p, op),
    {
        let size: u8 = p.size();
        let (reg, rm) = self.modrm(p.rex);
        let v: u64 = self.load_rm(rm, size);
        if self.cond(op % 16) {
            self.store_rm(Rm::Reg(reg), size, v);
        }
    }

    pub fn op_extend(&mut self, p: Prefix, op: u8)
        requires
            old(self).wf(),
        ensures
            final(self).wf(),
            final(self)@ == do_extend(old(self)@, p, op),
    {
        let size: u8 = p.size();
        let from: u8 = if op % 2 == 0 { 1 } else { 2 };
        let (reg, rm) = self.modrm(p.rex);
        let v: u64 = self.load_rm(rm, from);
        if op < 0xb8 {
            self.store_rm(Rm::Reg(reg), size, v);
        } else {
            self.store_rm(Rm::Reg(reg), size, sext(v, from) & mask(size));
        }
    }

    pub fn op_imul2(&mut self, p: Prefix)
        requires
            old(self).wf(),
        ensures
            final(self).wf(),
            final(self)@ == do_imul2(old(self)@, p),
    {
        let size: u8 = p.size();
        let (reg, rm) = self.modrm(p.rex);
        let b: u64 = self.load_rm(rm, size);
        let a: u64 = self.r[reg];
        self.imul_store(reg, a, b, size);
    }

    /// Test a bit, and set, reset or complement it.
    pub fn bit_test(&mut self, rm: Rm, size: u8, bit: u64, op: u8)
        requires
            old(self).wf(),
            rm_ok(rm),
            is_width(size),
        ensures
            final(self).wf(),
            final(self)@ == bit_tested(old(self)@, rm, size, bit, op),
    {
        match rm {
            Rm::Reg(_) => {
                let b: u64 = bit % (8 * size as u64);
                let v: u64 = self.load_rm(rm, size);
                self.set(CF, (v >> b) & 1 != 0);
                if op != 0 {
                    self.store_rm(rm, size, bit_op(v, b, op));
                }
            },
            _ => {
                let a: u64 = self.xmm_mem_addr(rm).wrapping_add(bit / 8);
                let b: u64 = bit % 8;
                let v: u64 = self.rd(a, 1);
                self.set(CF, (v >> b) & 1 != 0);
                if op != 0 {
                    self.wr(a, 1, bit_op(v, b, op));
                }
            },
        }
    }

    pub fn op_bit_reg(&mut self, p: Prefix, op: u8)
        requires
            old(self).wf(),
        ensures
            final(self).wf(),
            final(self)@ == do_bit_reg(old(self)@, p, op),
    {
        let size: u8 = p.size();
        let (reg, rm) = self.modrm(p.rex);
        let bit: u64 = self.r[reg] & mask(size);
        self.bit_test(rm, size, bit, (op / 8) % 4);
    }

    pub fn op_bit_imm(&mut self, p: Prefix)
        requires
            old(self).wf(),
        ensures
            final(self).wf(),
            final(self)@ == do_bit_imm(old(self)@, p),
    {
        let size: u8 = p.size();
        let (reg, rm) = self.modrm(p.rex);
        let v: u64 = self.fetch(1);
        self.bit_test(rm, size, (v as u8) as u64, (reg % 4) as u8);
    }

    pub fn op_bit_scan(&mut self, p: Prefix, op: u8)
        requires
            old(self).wf(),
        ensures
            final(self).wf(),
            final(self)@ == do_bit_scan(old(self)@, p, op),
    {
        let size: u8 = p.size();
        let (reg, rm) = self.modrm(p.rex);
        let w: u64 = self.load_rm(rm, size);
        let v: u64 = w & mask(size);
        self.set(ZF, v == 0);
        if v != 0 {
            if op == 0xbc {
                self.store_rm(Rm::Reg(reg), size, v.trailing_zeros() as u64);
            } else {
                proof {
                    vstd::std_specs::bits::axiom_u64_leading_zeros(v);
                }
                self.store_rm(Rm::Reg(reg), size, (63 - v.leading_zeros()) as u64);
            }
        }
    }

    /// Compare and exchange.
    pub fn op_exchange(&mut self, p: Prefix, size: u8)
        requires
            old(self).wf(),
            is_width(size),
        ensures
            final(self).wf(),
            final(self)@ == do_exchange(old(self)@, p, size),
    {
        let (reg, rm) = self.modrm(p.rex);
        let w: u64 = self.load_rm(rm, size);
        let dst: u64 = w & mask(size);
        let acc: u64 = self.r[RAX] & mask(size);
        let (_r, f) = sub_borrow(self.rflags, acc, dst, false, size);
        self.rflags = f;
        if acc == dst {
            let src: u64 = self.r[reg] & mask(size);
            self.store_rm(rm, size, src);
        } else {
            self.store_rm(Rm::Reg(RAX), size, dst);
        }
    }

    /// Compare and exchange two words at once.
    pub fn op_exchange_pair(&mut self, rm: Rm, size: u8)
        requires
            old(self).wf(),
            is_width(size),
        ensures
            final(self).wf(),
            final(self)@ == exchange_pair(old(self)@, rm, size),
    {
        if let Some(a) = self.rm_addr(rm) {
            let b: u64 = a.wrapping_add(size as u64);
            let m: u64 = mask(size);
            let lo: u64 = self.rd(a, size);
            let hi: u64 = self.rd(b, size);
            if lo == self.r[RAX] & m && hi == self.r[RDX] & m {
                let v: u64 = self.r[RBX] & m;
                self.wr(a, size, v);
                let w: u64 = self.r[RCX] & m;
                self.wr(b, size, w);
                self.set(ZF, true);
            } else {
                self.r[RAX] = lo;
                self.r[RDX] = hi;
                self.set(ZF, false);
            }
        }
    }

    /// Exchange and add.
    pub fn xadd(&mut self, p: Prefix, size: u8)
        requires
            old(self).wf(),
            is_width(size),
        ensures
            final(self).wf(),
            final(self)@ == do_xadd(old(self)@, p, size),
    {
        let (reg, rm) = self.modrm(p.rex);
        let w: u64 = self.load_rm(rm, size);
        let dst: u64 = w & mask(size);
        let src: u64 = self.r[reg] & mask(size);
        let (sum, f) = add_carry(self.rflags, dst, src, false, size);
        self.rflags = f;
        self.store_rm(Rm::Reg(reg), size, dst);
        self.store_rm(rm, size, sum);
    }

    /// A double-precision shift.
    pub fn shld_shrd(&mut self, rm: Rm, reg: usize, size: u8, cnt: u8, right: bool)
        requires
            old(self).wf(),
            rm_ok(rm),
            reg < 16,
            is_width(size),
        ensures
            final(self).wf(),
            final(self)@ == double_shifted(old(self)@, rm, reg as int, size, cnt, right),
    {
        let c: u64 = shift_amount(cnt, size);
        if c == 0 {
            return;
        }
        let w: u64 = self.load_rm(rm, size);
        let dst: u64 = w & mask(size);
        let src: u64 = self.r[reg] & mask(size);
        let res: u64 = double_shift_op(dst, src, c, size, right);
        self.store_rm(rm, size, res);
        self.rflags = set_result(self.rflags, res, size);
    }

    pub fn op_double_shift(&mut self, p: Prefix, op: u8)
        requires
            old(self).wf(),
        ensures
            final(self).wf(),
            final(self)@ == do_double_shift(old(self)@, p, op),
    {
        let size: u8 = p.size();
        let (reg, rm) = self.modrm(p.rex);
        let cnt: u8 = if op % 2 == 0 {
            self.fetch(1) as u8
        } else {
            (self.r[RCX] & 0xff) as u8
        };
        self.shld_shrd(rm, reg, size, cnt, op >= 0xa8);
    }

    pub fn op_bswap(&mut self, p: Prefix, op: u8)
        requires
            old(self).wf(),
        ensures
            final(self).wf(),
            final(self)@ == do_bswap(old(self)@, p, op),
    {
        let size: u8 = p.size();
        let reg: usize = ext_reg(op, p.rex);
        let v: u64 = self.r[reg] & mask(size);
        let w: u64 = if size == 8 { swap64(v) } else { swap32(v) };
        self.store_rm(Rm::Reg(reg), size, w);
    }
}

} // verus!
