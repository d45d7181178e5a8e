//! Laws of control: flags and conditions, system calls, faults, interrupts and the way back.
use vstd::prelude::*;
#[allow(unused_imports)]
use crate::bits::{is_width, lemma_mask, low, modulus, sign_of, signed_of};
#[allow(unused_imports)]
use crate::cpu::{runnable, CpuState};
#[allow(unused_imports)]
use crate::decode::FlowState;
#[allow(unused_imports)]
use crate::flags::{
    alu_result, condition, dec_flags, flag_set, inc_flags, signed_overflow, with_carry, with_result,
    CF, OF, RFLAGS_IF, ZF,
};
#[allow(unused_imports)]
use crate::int_ops::{do_call, settable_flags, thunk_reg};
#[allow(unused_imports)]
use crate::memory_laws::law_store_keeps;
#[allow(unused_imports)]
use crate::mmu::{
    fetch_byte, fetch_bytes, mem_read, mem_write, page_walk, read_bytes, tlb_hit, touched,
    translate_access, write_bytes,
};
#[allow(unused_imports)]
use crate::msr::{
    law_msr_write_read, msr_get, msr_sorted, MSR_KERNEL_GS_BASE, MSR_LSTAR, MSR_SFMASK,
};
#[allow(unused_imports)]
use crate::operand::{load_operand, sext_of, stack_pop, stack_push, with_reg, with_rip, Rm};
#[allow(unused_imports)]
use crate::step::{executed, fault_taken, one_step, opcode_fetched, saved_of, SavedState};
#[allow(unused_imports)]
use crate::system_ops::{do_syscall, do_sysret, gs_swapped};

verus! {

// ----- flags -----

/// The five flags that arithmetic writes.
pub open spec fn arithmetic_flags() -> u64 {
    0x8c5
}

/// The flags that a result, a carry and an overflow write.
pub proof fn lemma_flag_bits(f: u64, z: bool, n: bool, p: bool, c: bool, o: bool)
    by (bit_vector)
    ensures
        ({
            let r1 = if z { f | 0x40 } else { f & !0x40u64 };
            let r2 = if n { r1 | 0x80 } else { r1 & !0x80u64 };
            let r3 = if p { r2 | 0x4 } else { r2 & !0x4u64 };
            let r4 = if c { r3 | 0x1 } else { r3 & !0x1u64 };
            let r5 = if o { r4 | 0x800 } else { r4 & !0x800u64 };
            &&& (r5 & 0x40 != 0) == z
            &&& (r5 & 0x80 != 0) == n
            &&& (r5 & 0x4 != 0) == p
            &&& (r5 & 0x1 != 0) == c
            &&& (r5 & 0x800 != 0) == o
            &&& r5 & !0x8c5u64 == f & !0x8c5u64
            &&& ((r5 & !0x1u64) | (f & 0x1)) & 0x1 == f & 0x1
            &&& ((r5 & !0x1u64) | (f & 0x1)) & !0x8c5u64 == f & !0x8c5u64
            &&& (((r5 & !0x1u64) | (f & 0x1)) & 0x40 != 0) == z
        }),
{
}

/// A comparison orders its operands: the zero flag says that they are equal, the carry flag that the
/// first is below, sign and overflow together that it is less. No flag but the five changes.
pub proof fn law_comparison(f: u64, a: u64, b: u64, size: u8)
    requires
        is_width(size),
    ensures
        flag_set(alu_result(7, f, a, b, size).1, ZF) == (low(a, size) == low(b, size)),
        condition(alu_result(7, f, a, b, size).1, 0x2) == (low(a, size) < low(b, size)),
        condition(alu_result(7, f, a, b, size).1, 0x6) == (low(a, size) <= low(b, size)),
        condition(alu_result(7, f, a, b, size).1, 0xc) == (signed_of(a, size) < signed_of(b, size)),
        condition(alu_result(7, f, a, b, size).1, 0xe) == (signed_of(a, size) <= signed_of(b, size)),
        alu_result(7, f, a, b, size).0 == low(a, size),
        alu_result(7, f, a, b, size).1 == alu_result(5, f, a, b, size).1,
{
    lemma_mask(a, size);
    lemma_mask(b, size);
    let m = modulus(size);
    let r = ((low(a, size) - low(b, size) - 0) % m) as u64;
    let d = low(a, size) - low(b, size);
    assert(0 <= d % m < m);
    assert(r as int == d % m);
    assert(low(r, size) == r as int);
    assert(d >= 0 ==> d % m == d);
    assert(d < 0 ==> d % m == d + m);
    let z = low(r, size) == 0;
    let n = sign_of(r, size);
    let p = crate::bits::even_parity(r);
    let c = low(a, size) < low(b, size) + 0;
    let o = signed_overflow(signed_of(a, size) - signed_of(b, size) - 0, size);
    lemma_flag_bits(f, z, n, p, c, o);
}

/// The opposite of a condition is the condition with its low bit turned.
pub proof fn law_conditions_in_pairs(f: u64, cc: u8)
    requires
        cc < 8,
    ensures
        condition(f, (2 * cc + 1) as u8) == !condition(f, (2 * cc) as u8),
{
}

/// The eight arithmetic operations change no flag but the five of arithmetic; the logical ones clear
/// carry and overflow.
pub proof fn law_arithmetic_flags(op: u8, f: u64, a: u64, b: u64, size: u8)
    ensures
        alu_result(op, f, a, b, size).1 & !arithmetic_flags() == f & !arithmetic_flags(),
        op == 1 || op == 4 || op == 6 ==> !flag_set(alu_result(op, f, a, b, size).1, CF) && !flag_set(
            alu_result(op, f, a, b, size).1,
            OF,
        ),
{
    lemma_carried(op, f, a, b, size);
}

/// Every result's flags come from a result, a carry and an overflow.
proof fn lemma_carried(op: u8, f: u64, a: u64, b: u64, size: u8)
    ensures
        exists|r: u64, c: bool, o: bool|
            alu_result(op, f, a, b, size).1 == #[trigger] with_carry(with_result(f, r, size), c, o),
        alu_result(op, f, a, b, size).1 & !0x8c5u64 == f & !0x8c5u64,
        op == 1 || op == 4 || op == 6 ==> alu_result(op, f, a, b, size).1 & 0x1 == 0 && alu_result(
            op,
            f,
            a,
            b,
            size,
        ).1 & 0x800 == 0,
{
    let g = alu_result(op, f, a, b, size).1;
    if op == 1 {
        lemma_written(f, a | b, size, false, false);
    } else if op == 4 {
        lemma_written(f, a & b, size, false, false);
    } else if op == 6 {
        lemma_written(f, a ^ b, size, false, false);
    } else {
        let k = if op == 2 || op == 3 {
            crate::flags::carry_in(f)
        } else {
            0
        };
        if op == 0 || op == 2 {
            let r = ((low(a, size) + low(b, size) + k) % modulus(size)) as u64;
            let c = low(a, size) + low(b, size) + k >= modulus(size);
            let o = signed_overflow(signed_of(a, size) + signed_of(b, size) + k, size);
            assert(g == with_carry(with_result(f, r, size), c, o));
            lemma_written(f, r, size, c, o);
        } else {
            let r = ((low(a, size) - low(b, size) - k) % modulus(size)) as u64;
            let c = low(a, size) < low(b, size) + k;
            let o = signed_overflow(signed_of(a, size) - signed_of(b, size) - k, size);
            assert(g == with_carry(with_result(f, r, size), c, o));
            lemma_written(f, r, size, c, o);
        }
    }
}

/// The flags written for a result.
proof fn lemma_written(f: u64, r: u64, size: u8, c: bool, o: bool)
    ensures
        ({
            let g = with_carry(with_result(f, r, size), c, o);
            &&& (g & 0x1 != 0) == c
            &&& (g & 0x800 != 0) == o
            &&& g & !0x8c5u64 == f & !0x8c5u64
            &&& ((g & !0x1u64) | (f & 0x1)) & 0x1 == f & 0x1
        }),
{
    lemma_flag_bits(f, low(r, size) == 0, sign_of(r, size), crate::bits::even_parity(r), c, o);
}

/// `INC` and `DEC` leave the carry flag alone.
pub proof fn law_step_keeps_carry(f: u64, a: u64, size: u8)
    ensures
        flag_set(inc_flags(f, a, size), CF) == flag_set(f, CF),
        flag_set(dec_flags(f, a, size), CF) == flag_set(f, CF),
{
    let r = ((low(a, size) + low(1, size) + 0) % modulus(size)) as u64;
    lemma_written(
        f,
        r,
        size,
        low(a, size) + low(1, size) + 0 >= modulus(size),
        signed_overflow(signed_of(a, size) + signed_of(1, size) + 0, size),
    );
    let q = ((low(a, size) - low(1, size) - 0) % modulus(size)) as u64;
    lemma_written(
        f,
        q,
        size,
        low(a, size) < low(1, size) + 0,
        signed_overflow(signed_of(a, size) - signed_of(1, size) - 0, size),
    );
}

// ----- system calls -----

/// `SWAPGS` twice changes nothing that can be read: the segments are as they were, and so is every
/// model-specific register.
pub proof fn law_swapgs_twice(s: CpuState, k: u32)
    requires
        s.seg.len() == 6,
        msr_sorted(s.sys.msr),
    ensures
        gs_swapped(gs_swapped(s)).seg == s.seg,
        msr_get(gs_swapped(gs_swapped(s)).sys.msr, k) == msr_get(s.sys.msr, k),
{
    let t = gs_swapped(s);
    law_msr_write_read(s.sys.msr, MSR_KERNEL_GS_BASE, s.seg[5].base, k);
    law_msr_write_read(t.sys.msr, MSR_KERNEL_GS_BASE, t.seg[5].base, k);
    assert(gs_swapped(t).seg =~= s.seg);
}

/// A system call and its return: execution goes on behind the call in user mode with the flags it
/// had, and every register but the two that carry them is untouched.
pub proof fn law_syscall_sysret(s: CpuState)
    requires
        s.r.len() == 16,
        s.seg.len() == 6,
    ensures
        do_syscall(s).cpl == 0,
        do_syscall(s).rip == msr_get(s.sys.msr, MSR_LSTAR),
        !flag_set(do_syscall(s).rflags, RFLAGS_IF),
        do_sysret(do_syscall(s)).rip == s.rip,
        do_sysret(do_syscall(s)).rflags == settable_flags(s.rflags),
        do_sysret(do_syscall(s)).cpl == 3,
        forall|i: int| 0 <= i < 16 && i != 1 && i != 11 ==> #[trigger] do_sysret(do_syscall(s)).r[i] == s.r[i],
{
    lemma_if_cleared(s.rflags & !msr_get(s.sys.msr, MSR_SFMASK));
}

/// Interrupts off.
pub proof fn lemma_if_cleared(f: u64)
    by (bit_vector)
    ensures
        (f & !0x200u64) & 0x200 == 0,
{
}

// ----- calls -----

/// With the shortcuts on, a call of an indirect-call thunk is the indirect call through the register
/// that the thunk names. The stack pointer is the exception: the call itself moves it.
pub proof fn law_thunk_call(s: CpuState, reg: usize)
    requires
        ({
            let (s1, d) = fetch_bytes(s, 4);
            let s2 = stack_push(s1, s1.rip);
            &&& runnable(s1)
            &&& s1.r.len() == 16
            &&& s2.cfg.fastpaths
            &&& thunk_reg(s2, s2.rip.wrapping_add(sext_of(d, 4))) == Some(reg)
        }),
        reg != 4,
    ensures
        ({
            let s1 = fetch_bytes(s, 4).0;
            do_call(s) == with_rip(
                stack_push(s1, s1.rip),
                load_operand(s1, Rm::Reg(reg), 8).1,
            )
        }),
{
    reveal(stack_push);
    reveal(load_operand);
    let s1 = fetch_bytes(s, 4).0;
    let sp = s1.r[4].wrapping_sub(8);
    law_store_keeps(with_reg(s1, 4, sp), sp, 8, s1.rip);
    lemma_mask(s1.r[reg as int], 8);
}

// ----- faults -----

/// A page fault without a descriptor table: the machine is as it was before the instruction, but for
/// `CR2`, which holds the address, and for what the instruction had already stored.
pub proof fn law_fault_rolls_back(s: CpuState, v: SavedState)
    requires
        s.fault is Some,
        s.sys.idtr.1 == 0,
    ensures
        saved_of(fault_taken(s, v)) == v,
        fault_taken(s, v).cr2 == s.fault->0.addr,
        fault_taken(s, v).fault is None,
        fault_taken(s, v).ram == s.ram,
{
    reveal(fault_taken);
}

/// The state in which the next instruction has come to latch a page fault, if it does: at its opcode,
/// or later on the way to its end.
pub open spec fn faulting(s: CpuState) -> Option<CpuState> {
    let (s1, (p, op)) = opcode_fetched(s);
    if s1.fault is Some {
        Some(s1)
    } else {
        match executed(s1, p, op) {
            (s2, FlowState::Next) => if s2.fault is Some {
                Some(s2)
            } else {
                None
            },
            _ => None,
        }
    }
}

/// A step whose instruction comes to a page fault, without a descriptor table: it is done, with the
/// registers, flags, segments and the privilege level as before it, `CR2` holding the address, and no
/// fault latched. Memory holds what the instruction had already stored.
pub proof fn law_step_rolls_back(s: CpuState)
    requires
        faulting(s) is Some,
        faulting(s)->0.sys.idtr.1 == 0,
    ensures
        one_step(s).1 is Done,
        saved_of(one_step(s).0) == saved_of(s),
        one_step(s).0.cr2 == faulting(s)->0.fault->0.addr,
        one_step(s).0.fault is None,
        one_step(s).0.ram == faulting(s)->0.ram,
{
    reveal(one_step);
    law_fault_rolls_back(faulting(s)->0, saved_of(s));
}

proof fn lemma_bytes_keep_fault(s: CpuState, addr: u64, n: nat, val: u64, user: bool)
    requires
        s.fault is Some,
    ensures
        read_bytes(s, addr, n, user).0.fault == s.fault,
        write_bytes(s, addr, n, val, user).fault == s.fault,
    decreases n,
{
    reveal(translate_access);
    if n > 0 {
        lemma_bytes_keep_fault(s, addr, (n - 1) as nat, val, user);
    }
}

/// The first address that cannot be translated is the one that faults: while its fault is latched, no
/// translation, load, store or fetch puts another in its place.
pub proof fn law_first_fault_kept(
    s: CpuState,
    addr: u64,
    write: bool,
    user: bool,
    size: u8,
    val: u64,
)
    requires
        s.fault is Some,
    ensures
        translate_access(s, addr, write, user) == (s, 0u64),
        mem_read(s, addr, size).0.fault == s.fault,
        mem_write(s, addr, size, val).fault == s.fault,
        fetch_byte(s).0.fault == s.fault,
        stack_push(s, val).fault == s.fault,
        stack_pop(s, size).0.fault == s.fault,
{
    reveal(translate_access);
    reveal(mem_read);
    reveal(mem_write);
    reveal(fetch_byte);
    lemma_bytes_keep_fault(touched(s, 0), addr, size as nat, val, s.cpl == 3);
    let sp = s.r[4].wrapping_sub(8);
    reveal(stack_push);
    reveal(stack_pop);
    lemma_bytes_keep_fault(touched(with_reg(s, 4, sp), 0), sp, 8, val, s.cpl == 3);
    lemma_bytes_keep_fault(touched(s, 0), s.r[4], size as nat, val, s.cpl == 3);
}

/// An access to an address that cannot be translated, where no fault is latched yet, latches that
/// address.
pub proof fn law_untranslatable_faults(s: CpuState, addr: u64, write: bool, user: bool)
    requires
        s.fault is None,
        !tlb_hit(s, addr, write),
        page_walk(s, addr, write, user) is Err,
    ensures
        translate_access(s, addr, write, user).0.fault is Some,
        translate_access(s, addr, write, user).0.fault->0.addr == addr,
{
    reveal(translate_access);
}

} // verus!
