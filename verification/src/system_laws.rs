//! Laws of string elements, system registers, the x87 stack, ports and encodings.
use vstd::prelude::*;
#[allow(unused_imports)]
use crate::arithmetic_laws::lemma_difference;
#[allow(unused_imports)]
use crate::bits::{is_width, lemma_mask, low, mask_of, modulus};
#[allow(unused_imports)]
use crate::cpu::{runnable, CpuState, LAPIC_BASE};
#[allow(unused_imports)]
use crate::decode::{FlowState, FpDest, FpOp, Prefix};
#[allow(unused_imports)]
use crate::flags::{flag_set, sub_flags, RFLAGS_DF};
#[allow(unused_imports)]
use crate::fpu_ops::{
    order_flags, order_status, popped, pushed, st, status_word, with_st, x87_register,
};
#[allow(unused_imports)]
use crate::lapic::{lapic_reg, lapic_store, LapicState};
#[allow(unused_imports)]
use crate::memory_laws::{law_load_keeps, law_register_write, law_store_keeps};
#[allow(unused_imports)]
use crate::mmu::{fetch_byte, mem_read, mem_write};
#[allow(unused_imports)]
use crate::msr::{law_msr_write_read, msr_get, msr_sorted};
#[allow(unused_imports)]
use crate::operand::store_operand;
#[allow(unused_imports)]
use crate::operand_laws::{
    bit_at, law_fetch, lemma_flags_at, lemma_mod_once, other_flags_kept, part, tells,
};
#[allow(unused_imports)]
use crate::pic::line_vector;
#[allow(unused_imports)]
use crate::snap::enc_u64;
#[allow(unused_imports)]
use crate::step::{executed, map_0f, map_0f_low};
#[allow(unused_imports)]
use crate::string_ops::{string_element, StringOp};
#[allow(unused_imports)]
use crate::sys::{sys_port_in, sys_port_out, SysState};
#[allow(unused_imports)]
use crate::system_ops::{do_cpuid, do_msr, do_syscall, do_sysret, group7_mem, msr_read};
#[allow(unused_imports)]
use crate::word_laws::{byte_num, law_register_parts};

verus! {

// ----- string elements -----

/// Where an index register stands after an element: up by its size, or down under the direction flag.
pub open spec fn index_after(s: CpuState, v: u64, size: u8) -> int {
    (if bit_at(s.rflags, 10) { v - size } else { v + size }) % 0x1_0000_0000_0000_0000
}

proof fn lemma_index(s: CpuState, f: u64, v: u64, size: u8)
    requires
        is_width(size),
        flag_set(f, RFLAGS_DF) == flag_set(s.rflags, RFLAGS_DF),
    ensures
        v.wrapping_add(
            if flag_set(f, RFLAGS_DF) { 0u64.wrapping_sub(size as u64) } else { size as u64 },
        ) as int == index_after(s, v, size),
{
    lemma_flags_at(0, s.rflags, 0);
    lemma_mod_once(v - size, 0x1_0000_0000_0000_0000);
    lemma_mod_once(v + size, 0x1_0000_0000_0000_0000);
}

/// `MOVS` stores at `RDI` what it loads at `RSI`, and moves both.
pub proof fn law_movs(s: CpuState, size: u8)
    requires
        is_width(size),
        s.r.len() == 16,
        runnable(s),
    ensures
        ({
            let (u, v) = mem_read(s, s.r[6], size);
            let w = mem_write(u, s.r[7], size, v);
            let t = string_element(s, StringOp::Movs, size);
            &&& t == (CpuState { r: t.r, ..w })
            &&& t.r[6] == index_after(s, s.r[6], size)
            &&& t.r[7] == index_after(s, s.r[7], size)
            &&& forall|k: int| 0 <= k < 16 && k != 6 && k != 7 ==> #[trigger] t.r[k] == s.r[k]
        }),
{
    reveal(string_element);
    let (u, v) = mem_read(s, s.r[6], size);
    law_load_keeps(s, s.r[6], size);
    law_store_keeps(u, u.r[7], size, v);
    lemma_index(s, s.rflags, s.r[6], size);
    lemma_index(s, s.rflags, s.r[7], size);
}

/// `STOS` stores the accumulator at `RDI`; `LODS` loads it at `RSI`. Each moves its register.
pub proof fn law_stos_lods(s: CpuState, size: u8)
    requires
        is_width(size),
        s.r.len() == 16,
        runnable(s),
    ensures
        ({
            let w = mem_write(s, s.r[7], size, (s.r[0] as int % modulus(size)) as u64);
            let t = string_element(s, StringOp::Stos, size);
            &&& t == (CpuState { r: t.r, ..w })
            &&& t.r[7] == index_after(s, s.r[7], size)
            &&& forall|k: int| 0 <= k < 16 && k != 7 ==> #[trigger] t.r[k] == s.r[k]
        }),
        ({
            let (u, v) = mem_read(s, s.r[6], size);
            let t = string_element(s, StringOp::Lods, size);
            &&& part(t, 0, size) == v as int % modulus(size)
            &&& t.r[6] == index_after(s, s.r[6], size)
            &&& forall|k: int| 0 < k < 16 && k != 6 ==> #[trigger] t.r[k] == s.r[k]
        }),
{
    reveal(string_element);
    let (u, v) = mem_read(s, s.r[6], size);
    law_load_keeps(s, s.r[6], size);
    lemma_mask(s.r[0], size);
    law_store_keeps(s, s.r[7], size, s.r[0] & mask_of(size));
    lemma_index(s, s.rflags, s.r[6], size);
    lemma_index(s, s.rflags, s.r[7], size);
    reveal(store_operand);
    law_register_write(u, 0, size, v);
    law_register_parts(u, 0, size, v);
    lemma_mask(v, size);
}

/// `SCAS` compares the accumulator with what is at `RDI`, `CMPS` what is at `RSI` with what is at
/// `RDI`: the zero flag says that they are equal, the carry that the first is less.
pub proof fn law_string_comparisons(s: CpuState, size: u8)
    requires
        is_width(size),
        s.r.len() == 16,
        runnable(s),
    ensures
        ({
            let x = s.r[0] as int % modulus(size);
            let y = low(mem_read(s, s.r[7], size).1, size);
            let t = string_element(s, StringOp::Scas, size);
            &&& bit_at(t.rflags, 6) == (x == y)
            &&& bit_at(t.rflags, 0) == (x < y)
            &&& t.r[7] == index_after(s, s.r[7], size)
        }),
        ({
            let (u, a) = mem_read(s, s.r[6], size);
            let x = low(a, size);
            let y = low(mem_read(u, s.r[7], size).1, size);
            let t = string_element(s, StringOp::Compare, size);
            &&& bit_at(t.rflags, 6) == (x == y)
            &&& bit_at(t.rflags, 0) == (x < y)
            &&& t.r[6] == index_after(s, s.r[6], size)
            &&& t.r[7] == index_after(s, s.r[7], size)
        }),
{
    reveal(string_element);
    reveal(tells);
    reveal(other_flags_kept);
    let (s1, b) = mem_read(s, s.r[7], size);
    law_load_keeps(s, s.r[7], size);
    lemma_mask(s.r[0], size);
    let acc = s.r[0] & mask_of(size);
    lemma_difference(s.rflags, acc, b, 0, size);
    let g = sub_flags(s.rflags, acc, b, 0, size);
    lemma_flags_at(0, g, 0);
    lemma_flags_at(0, s.rflags, 0);
    assert(bit_at(g, 10) == bit_at(s.rflags, 10));
    lemma_index(s, g, s.r[7], size);
    let (u, a) = mem_read(s, s.r[6], size);
    law_load_keeps(s, s.r[6], size);
    let (w, c) = mem_read(u, u.r[7], size);
    law_load_keeps(u, u.r[7], size);
    lemma_difference(s.rflags, a, c, 0, size);
    let h = sub_flags(s.rflags, a, c, 0, size);
    lemma_flags_at(0, h, 0);
    assert(bit_at(h, 10) == bit_at(s.rflags, 10));
    lemma_index(s, h, s.r[6], size);
    lemma_index(s, h, s.r[7], size);
    lemma_mod_once(acc as int, modulus(size));
    lemma_mask(a, size);
    lemma_mask(b, size);
    lemma_mask(c, size);
}

// ----- system registers -----

/// The number in `EDX` and `EAX` together.
pub open spec fn edx_eax(s: CpuState) -> int {
    (s.r[2] as int % 0x1_0000_0000) * 0x1_0000_0000 + s.r[0] as int % 0x1_0000_0000
}

/// `WRMSR` writes the number in `EDX` and `EAX` to the register that `ECX` names: the mode, a segment
/// base, or one kept by number. `RDMSR` gives it back in the same two registers.
pub proof fn law_model_registers(s: CpuState, p: Prefix)
    requires
        s.r.len() == 16,
        s.seg.len() == 6,
        msr_sorted(s.sys.msr),
        fetch_byte(s).1 == 0x30 || fetch_byte(s).1 == 0x32,
    ensures
        ({
            let n = s.r[1] as int % 0x1_0000_0000;
            let v = edx_eax(s);
            let t = executed(s, p, 0x0f).0;
            if fetch_byte(s).1 == 0x30 {
                &&& n == 0xC000_0080 ==> t.efer == v
                &&& n == 0xC000_0100 ==> t.seg[4].base == v
                &&& n == 0xC000_0101 ==> t.seg[5].base == v
                &&& n != 0xC000_0080 && n != 0xC000_0100 && n != 0xC000_0101 ==> msr_get(t.sys.msr, n as u32)
                    == v
                &&& t.r == s.r
            } else {
                &&& n == 0xC000_0080 ==> edx_eax(t) == s.efer
                &&& n == 0xC000_0100 ==> edx_eax(t) == s.seg[4].base
                &&& n == 0xC000_0101 ==> edx_eax(t) == s.seg[5].base
                &&& n == 0x1b ==> edx_eax(t) == 0xfee0_0900
                &&& n != 0xC000_0080 && n != 0xC000_0100 && n != 0xC000_0101 && n != 0x1b ==> edx_eax(t)
                    == msr_get(s.sys.msr, n as u32)
            }
        }),
{
    law_fetch(s, 0);
    let s0 = fetch_byte(s).0;
    let op = fetch_byte(s).1;
    assert(executed(s, p, 0x0f).0 == do_msr(s0, op)) by {
        reveal(executed);
        reveal(map_0f);
        reveal(map_0f_low);
    }
    crate::bits::lemma_low_bits(s.r[0]);
    crate::bits::lemma_low_bits(s.r[1]);
    crate::bits::lemma_low_bits(s.r[2]);
    lemma_pair(s.r[2] & 0xffff_ffff, s.r[0] & 0xffff_ffff, 0);
    let n = (s.r[1] & 0xffff_ffff) as u32;
    let v = ((s.r[2] & 0xffff_ffff) << 32) | (s.r[0] & 0xffff_ffff);
    law_msr_write_read(s0.sys.msr, n, v, n);
    lemma_pair(0, 0, msr_read(s0, n));
    assert(LAPIC_BASE | 0x900 == 0xfee0_0900u64) by {
        crate::bit_facts::lemma_selectors(0, 0, 0);
    }
}

/// Two halves and their word.
proof fn lemma_pair(hi: u64, lo: u64, v: u64)
    requires
        hi < 0x1_0000_0000,
        lo < 0x1_0000_0000,
    ensures
        ((hi << 32) | lo) == hi * 0x1_0000_0000 + lo,
        v & 0xffff_ffff == v % 0x1_0000_0000,
        v >> 32 == v / 0x1_0000_0000,
{
    crate::bit_facts::lemma_selectors(hi, lo, 0);
    crate::bit_facts::lemma_bytes_of_words(v, 0, 0, 0, 0, 0, 0);
    crate::bits::lemma_low_bits(v);
}

/// `RDTSC` gives the time in `EDX` and `EAX`.
pub proof fn law_time_stamp(s: CpuState, p: Prefix)
    requires
        s.r.len() == 16,
        fetch_byte(s).1 == 0x31,
    ensures
        edx_eax(executed(s, p, 0x0f).0) == fetch_byte(s).0.sys.tsc,
{
    law_fetch(s, 0);
    let s0 = fetch_byte(s).0;
    reveal(executed);
    reveal(map_0f);
    reveal(map_0f_low);
    lemma_pair(0, 0, s0.sys.tsc);
}

/// `SYSCALL` goes to the kernel's entry point with the return address in `RCX` and the flags in
/// `R11`, at the kernel's privilege and with its selectors; `SYSRET` goes back to user mode.
pub proof fn law_system_calls(s: CpuState)
    requires
        s.r.len() == 16,
        s.seg.len() == 6,
    ensures
        ({
            let t = do_syscall(s);
            let star = msr_get(s.sys.msr, 0xC000_0081) as int;
            &&& t.rip == msr_get(s.sys.msr, 0xC000_0082)
            &&& t.r[1] == s.rip
            &&& t.r[11] == s.rflags
            &&& t.cpl == 0
            &&& t.seg[1].selector == (star / 0x1_0000_0000) % 0x1_0000
            &&& t.seg[2].selector == ((star / 0x1_0000_0000) % 0x1_0000 + 8) % 0x1_0000
        }),
        ({
            let t = do_sysret(s);
            &&& t.rip == s.r[1]
            &&& t.cpl == 3
            &&& t.seg[1].selector & 3 == 3
            &&& t.seg[2].selector & 3 == 3
        }),
{
    let star = msr_get(s.sys.msr, 0xC000_0081);
    let base = ((star >> 48) & 0xffff) as u16;
    crate::bit_facts::lemma_selectors(star, 0, base.wrapping_add(16));
    crate::bit_facts::lemma_selectors(star, 0, base.wrapping_add(8));
    lemma_mod_once((star as int / 0x1_0000_0000) % 0x1_0000 + 8, 0x1_0000);
}

/// `LGDT` and `LIDT` load two bytes of limit and, after them, eight of base; `SGDT` and `SIDT` store
/// them so.
pub proof fn law_descriptor_tables(s: CpuState, a: u64)
    ensures
        ({
            let (u, limit) = mem_read(s, a, 2);
            let base = mem_read(u, a.wrapping_add(2), 8).1;
            &&& group7_mem(s, 2, a).sys.gdtr == (base, limit as u16)
            &&& group7_mem(s, 3, a).sys.idtr == (base, limit as u16)
            &&& group7_mem(s, 0, a) == mem_write(
                mem_write(s, a, 2, s.sys.gdtr.1 as u64),
                a.wrapping_add(2),
                8,
                s.sys.gdtr.0,
            )
            &&& group7_mem(s, 1, a) == mem_write(
                mem_write(s, a, 2, s.sys.idtr.1 as u64),
                a.wrapping_add(2),
                8,
                s.sys.idtr.0,
            )
        }),
{
}

/// `CPUID` names its vendor in `EBX`, `EDX` and `ECX`, in this order, four letters each.
pub proof fn law_cpu_vendor(s: CpuState, i: int)
    requires
        s.r.len() == 16,
        s.r[0] as int % 0x1_0000_0000 == 0,
        0 <= i < 4,
    ensures
        ({
            let t = do_cpuid(s);
            let name = seq![0x41int, 0x75, 0x74, 0x68, 0x65, 0x6e, 0x74, 0x69, 0x63, 0x41, 0x4d, 0x44];
            &&& byte_num(t.r[3] as int, i) == name[i]
            &&& byte_num(t.r[2] as int, i) == name[4 + i]
            &&& byte_num(t.r[1] as int, i) == name[8 + i]
        }),
{
    crate::bits::lemma_low_bits(s.r[0]);
    let t = do_cpuid(s);
    assert(t.r[3] == 0x6874_7541 && t.r[2] == 0x6974_6e65 && t.r[1] == 0x444d_4163);
    if i == 0 {
    } else if i == 1 {
    } else if i == 2 {
    } else {
    }
}

// ----- the x87 stack -----

/// A push puts a value on top and moves the others down; a pop brings them back.
pub proof fn law_float_stack(s: CpuState, v: u64, i: int)
    requires
        s.fpr.len() == 8,
        s.ftop < 8,
        0 <= i < 7,
    ensures
        st(pushed(s, v), 0) == v,
        st(pushed(s, v), i + 1) == st(s, i),
        st(popped(s), i) == st(s, i + 1),
        popped(pushed(s, v)).ftop == s.ftop,
        pushed(s, v).ftop < 8,
        popped(s).ftop < 8,
{
}

/// Two places of the stack are the same register only where they are the same place.
proof fn lemma_places_apart(top: u8, i: int, j: int)
    requires
        top < 8,
        0 <= i < 8,
        0 <= j < 8,
    ensures
        0 <= (top as int + i) % 8 < 8,
        ((top as int + i) % 8 == (top as int + j) % 8) == (i == j),
        ((top as int + 1) % 8 + i) % 8 == (top as int + i + 1) % 8,
        ((top as int + 7) % 8 + i + 1) % 8 == (top as int + i) % 8,
{
}

/// `FLD` pushes a copy of a register of the stack.
pub proof fn law_float_load(s: CpuState, m: u8, j: int)
    requires
        s.fpr.len() == 8,
        s.ftop < 8,
        0xc0 <= m <= 0xc7,
        0 <= j < 7,
    ensures
        ({
            let t = x87_register(s, 0xd9, m).0;
            &&& st(t, 0) == st(s, (m % 8) as int)
            &&& st(t, j + 1) == st(s, j)
        }),
{
    reveal(x87_register);
    law_float_stack(s, st(s, (m % 8) as int), j);
}

/// `FXCH` changes places with the top.
pub proof fn law_float_exchange(s: CpuState, m: u8, j: int)
    requires
        s.fpr.len() == 8,
        s.ftop < 8,
        0xc8 <= m <= 0xcf,
        0 <= j < 8,
    ensures
        ({
            let i = (m % 8) as int;
            let t = x87_register(s, 0xd9, m).0;
            &&& st(t, 0) == st(s, i)
            &&& st(t, i) == st(s, 0)
            &&& j != 0 && j != i ==> st(t, j) == st(s, j)
            &&& t.ftop == s.ftop
        }),
{
    let i = (m % 8) as int;
    assert(x87_register(s, 0xd9, m).0 == with_st(with_st(s, 0, st(s, i)), i, st(s, 0))) by {
        reveal(x87_register);
    }
    lemma_swapped_places(s, i, j);
}

proof fn lemma_swapped_places(s: CpuState, i: int, j: int)
    requires
        s.fpr.len() == 8,
        s.ftop < 8,
        0 <= i < 8,
        0 <= j < 8,
    ensures
        ({
            let t = with_st(with_st(s, 0, st(s, i)), i, st(s, 0));
            &&& st(t, 0) == st(s, i)
            &&& st(t, i) == st(s, 0)
            &&& j != 0 && j != i ==> st(t, j) == st(s, j)
            &&& t.ftop == s.ftop
        }),
{
    lemma_places_apart(s.ftop, 0, i);
    lemma_places_apart(s.ftop, 0, j);
    lemma_places_apart(s.ftop, i, j);
}

/// `FST` copies the top to a register of the stack; `FSTP` pops it then.
pub proof fn law_float_store(s: CpuState, i: int, j: int)
    requires
        s.fpr.len() == 8,
        s.ftop < 8,
        0 <= i < 8,
        0 <= j < 8,
    ensures
        ({
            let t = x87_register(s, 0xdd, (0xd0 + i) as u8).0;
            let u = x87_register(s, 0xdd, (0xd8 + i) as u8).0;
            &&& st(t, i) == st(s, 0)
            &&& t.ftop == s.ftop
            &&& j != i ==> st(t, j) == st(s, j)
            &&& u == popped(t)
        }),
{
    assert(x87_register(s, 0xdd, (0xd0 + i) as u8).0 == with_st(s, i, st(s, 0)) && x87_register(
        s,
        0xdd,
        (0xd8 + i) as u8,
    ).0 == popped(with_st(s, i, st(s, 0)))) by {
        reveal(x87_register);
    }
    lemma_places_apart(s.ftop, i, j);
    lemma_places_apart(s.ftop, i, 0);
}

/// The status word holds the top of the stack in bits 11 to 13.
pub proof fn law_float_status(s: CpuState)
    requires
        s.ftop < 8,
    ensures
        (status_word(s) / 0x800) % 8 == s.ftop,
        status_word(s) % 0x800 == s.fsw % 0x800,
        status_word(s) / 0x4000 == s.fsw / 0x4000,
{
    crate::bit_facts::lemma_short_words(s.fsw, 0, s.ftop as u16);
}

/// What a subtraction or a division asks for: the minuend or dividend, and the other number.
pub open spec fn first_and_second(f: FlowState) -> (u64, u64) {
    let a = f->Ask_0;
    let (x, y) = a.lanes[0];
    if a.op == FpOp::MinusRev64 || a.op == FpOp::OverRev64 {
        (y, x)
    } else {
        (x, y)
    }
}

/// The x87 subtractions and divisions between registers. Opcode `D8` works on the top (`E0`, `F0` from
/// the top, `E8`, `F8` from the other register); opcodes `DC` and `DE` work on the other register
/// (`E0`, `F0` from the top, `E8`, `F8` from that register), and `DE` pops.
pub proof fn law_float_order(s: CpuState, op: u8, m: u8)
    requires
        op == 0xd8 || op == 0xdc || op == 0xde,
        m >= 0xe0,
    ensures
        ({
            let i = (m % 8) as int;
            let (t, f) = x87_register(s, op, m);
            let a = f->Ask_0;
            let top_first = (m / 8) % 2 == 0;
            &&& t == s
            &&& f is Ask
            &&& (m < 0xf0) == (a.op == FpOp::Minus64 || a.op == FpOp::MinusRev64)
            &&& (m >= 0xf0) == (a.op == FpOp::Over64 || a.op == FpOp::OverRev64)
            &&& first_and_second(f) == if top_first { (st(s, 0), st(s, i)) } else { (st(s, i), st(s, 0)) }
            &&& a.dest == if op == 0xd8 {
                FpDest::St(0, 0)
            } else {
                FpDest::St((m % 8) as usize, if op == 0xde { 1 } else { 0 })
            }
        }),
{
    reveal(x87_register);
}

/// An ordering of two numbers in the flags: the carry for less, zero for equal, and these with parity
/// where they have no order; in the status word, the same three in bits 8, 14 and 10.
pub proof fn law_float_comparison(f: u64, w: u16, o: u64)
    requires
        o < 4,
    ensures
        ({
            let g = order_flags(f, o);
            &&& bit_at(g, 0) == (o == 1 || o == 3)
            &&& bit_at(g, 6) == (o == 2 || o == 3)
            &&& bit_at(g, 2) == (o == 3)
            &&& !bit_at(g, 7) && !bit_at(g, 11)
        }),
        ({
            let v = order_status(w, o);
            v & 0x4500 == if o == 3 { 0x4500u16 } else if o == 1 { 0x100u16 } else if o == 2 { 0x4000u16 } else { 0 }
        }),
{
    lemma_flags_at(0, order_flags(f, o), 0);
    crate::bit_facts::lemma_bits_of_words(f, 0, 0, false, false);
    crate::bit_facts::lemma_short_words(w, 0, 0);
}

// ----- the interrupt controllers -----

/// After its initialisation words a chip delivers its lines from the base it was given, and its mask
/// is what the data port is told next and reads as.
pub proof fn law_controller_words(s: SysState, slave: bool, icw1: u8, base: u8, icw3: u8, icw4: u8, mask: u8, n: u8)
    requires
        icw1 & 0x10 != 0,
        base & 7 == 0,
        n < 8,
    ensures
        ({
            let c: u16 = if slave { 0xa0 } else { 0x20 };
            let d: u16 = if slave { 0xa1 } else { 0x21 };
            let line = if slave { (n + 8) as u8 } else { n };
            let t = sys_port_out(
                sys_port_out(sys_port_out(sys_port_out(s, c, icw1), d, base), d, icw3),
                d,
                icw4,
            );
            let u = sys_port_out(t, d, mask);
            &&& line_vector(t.pic, line) as int == (base + n) % 0x100
            &&& t.pic.mask == s.pic.mask
            &&& line_vector(u.pic, line) as int == (base + n) % 0x100
            &&& sys_port_in(u, d).1 == mask
            &&& sys_port_in(u, if slave { 0x21 } else { 0xa1 }).1 == sys_port_in(
                s,
                if slave { 0x21 } else { 0xa1 },
            ).1
        }),
{
    crate::bit_facts::lemma_short_words(0, base, 0);
    crate::bit_facts::lemma_short_words(s.pic.mask, mask, 0);
    lemma_mod_once(base + n, 0x100);
}

/// The local controller's registers read as they were written, and a new count starts at once.
pub proof fn law_local_registers(l: LapicState, v: u32)
    ensures
        lapic_reg(lapic_store(l, 0x080, v), 0x080) == v,
        lapic_reg(lapic_store(l, 0x0f0, v), 0x0f0) == v,
        lapic_reg(lapic_store(l, 0x320, v), 0x320) == v,
        lapic_reg(lapic_store(l, 0x380, v), 0x380) == v,
        lapic_reg(lapic_store(l, 0x380, v), 0x390) == v,
        lapic_reg(lapic_store(l, 0x3e0, v), 0x3e0) == v,
{
}

// ----- encodings -----

/// Numbers in a snapshot stand with their lowest byte first.
pub proof fn law_encoded_numbers(v: u64, i: int)
    requires
        0 <= i < 8,
    ensures
        enc_u64(v).len() == 8,
        enc_u64(v)[i] == byte_num(v as int, i),
{
    crate::bit_facts::lemma_bytes_of_words(v, 0, 0, 0, 0, 0, 0);
    crate::bit_facts::lemma_selectors(v, 0, 0);
}

} // verus!
