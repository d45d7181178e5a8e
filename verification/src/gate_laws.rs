//! Laws of the interrupt descriptor table: where a gate sends control, and on which stack.
use vstd::prelude::*;
#[allow(unused_imports)]
use crate::cpu::{runnable, CpuState};
#[allow(unused_imports)]
use crate::flags::{flag_set, RFLAGS_IF};
#[allow(unused_imports)]
use crate::interrupt::{
    acknowledged, delivered, gate, interrupted, pending_of, raised, switched, traced, tss_stack_of,
};
#[allow(unused_imports)]
use crate::lapic::{lapic_deliverable, lapic_take};
#[allow(unused_imports)]
use crate::memory_laws::law_store_keeps;
#[allow(unused_imports)]
use crate::mmu::{le_read, mem_write, translated, virt_read};
#[allow(unused_imports)]
use crate::operand::{stack_push, with_reg};
#[allow(unused_imports)]
use crate::pic::{pic_ack, pic_pending};
#[allow(unused_imports)]
use crate::system_ops::task_loaded;
#[allow(unused_imports)]
use crate::word_laws::{law_load_number, number_at, weight};

verus! {

// ----- gates -----

/// The linear address of a vector's gate: sixteen bytes for each vector.
pub open spec fn gate_at(s: CpuState, vector: u8) -> u64 {
    s.sys.idtr.0.wrapping_add((16 * vector) as u64)
}

/// The number that `n` bytes from byte `k` of a quadword hold, where the tables map the quadword.
pub open spec fn field_at(s: CpuState, at: u64, k: int, n: nat) -> int {
    number_at(s.ram, translated(s, at) + k, n)
}

/// A gate holds a handler's address: bits 0 to 15 in its first two bytes, bits 16 to 31 in bytes 6 and
/// 7, bits 32 to 63 in the four bytes of its second quadword.
pub open spec fn gate_names(s: CpuState, vector: u8, h: u64) -> bool {
    let at = gate_at(s, vector);
    &&& field_at(s, at, 0, 2) == h as int % 0x1_0000
    &&& field_at(s, at, 6, 2) == (h as int / 0x1_0000) % 0x1_0000
    &&& field_at(s, at.wrapping_add(8), 0, 4) == h as int / 0x1_0000_0000
}

/// The stack index of a gate: the low three bits of its fifth byte.
pub open spec fn gate_stack(s: CpuState, vector: u8) -> int {
    field_at(s, gate_at(s, vector), 4, 1) % 8
}

/// A quadword of a system table.
pub open spec fn quad_at(s: CpuState, at: u64) -> int {
    field_at(s, at, 0, 8)
}

proof fn lemma_gate_bits(lo: u64, hi: u64, sel: u16, f: u64)
    ensures
        ((lo & 0xffff) | ((lo >> 32) & 0xffff_0000) | ((hi & 0xffff_ffff) << 32)) == (lo % 0x1_0000) + (
        lo / 0x1_0000_0000_0000) * 0x1_0000 + (hi % 0x1_0000_0000) * 0x1_0000_0000,
        (lo >> 32) & 0x7 == (lo / 0x1_0000_0000) % 8,
        (sel & 0xfff8) == sel / 8 * 8,
        (f & 0x200 != 0) == ((f / 0x200) % 2 == 1),
        (((lo >> 16) & 0xff_ffff) | (((lo >> 56) & 0xff) << 24) | ((hi & 0xffff_ffff) << 32)) == ((lo
            / 0x1_0000) % 0x100_0000) + (lo / 0x100_0000_0000_0000) * 0x100_0000 + (hi % 0x1_0000_0000)
            * 0x1_0000_0000,
{
    crate::bit_facts::lemma_bytes_of_words(lo, hi, f, 0, 0, 0, 0);
    crate::bit_facts::lemma_bytes_of_words(sel as u64, 0, 0, 0, 0, 0, 0);
}

/// Parts of a quadword are the numbers of its bytes.
proof fn lemma_quad_fields(ram: Seq<u8>, a: int)
    ensures
        number_at(ram, a, 8) % 0x1_0000 == number_at(ram, a, 2),
        number_at(ram, a, 8) / 0x1_0000_0000_0000 == number_at(ram, a + 6, 2),
        number_at(ram, a, 8) % 0x1_0000_0000 == number_at(ram, a, 4),
        (number_at(ram, a, 8) / 0x1_0000_0000) % 8 == number_at(ram, a + 4, 1) % 8,
        (number_at(ram, a, 8) / 0x1_0000) % 0x100_0000 == number_at(ram, a + 2, 3),
        number_at(ram, a, 8) / 0x100_0000_0000_0000 == number_at(ram, a + 7, 1),
{
    let n = number_at(ram, a, 8);
    let c = number_at(ram, a, 2);
    let d = number_at(ram, a + 2, 2);
    let e = number_at(ram, a + 4, 2);
    let f = number_at(ram, a + 6, 2);
    let g = number_at(ram, a + 4, 1);
    let h = number_at(ram, a + 5, 1);
    let i = number_at(ram, a + 7, 1);
    let j = number_at(ram, a + 6, 1);
    assert(n == c + 0x1_0000 * d + 0x1_0000_0000 * e + 0x1_0000_0000_0000 * f && e == g + 0x100 * h && f
        == j + 0x100 * i && number_at(ram, a, 4) == c + 0x1_0000 * d && number_at(ram, a + 2, 3) == d
        + 0x1_0000 * g) by {
        lemma_steps(ram, a);
        lemma_steps(ram, a + 2);
        lemma_steps(ram, a + 4);
        lemma_steps(ram, a + 6);
    }
    law_load_number(ram, a, 2);
    law_load_number(ram, a + 2, 2);
    law_load_number(ram, a + 2, 3);
    law_load_number(ram, a + 4, 1);
    law_load_number(ram, a + 4, 2);
    law_load_number(ram, a + 5, 1);
    law_load_number(ram, a + 6, 1);
    law_load_number(ram, a + 6, 2);
    law_load_number(ram, a + 7, 1);
    law_load_number(ram, a, 4);
    lemma_part(n, 0x1_0000, d + 0x1_0000 * e + 0x1_0000_0000 * f, c);
    lemma_part(n, 0x1_0000_0000_0000, f, c + 0x1_0000 * d + 0x1_0000_0000 * e);
    lemma_part(n, 0x1_0000_0000, e + 0x1_0000 * f, c + 0x1_0000 * d);
    lemma_part(e + 0x1_0000 * f, 8, g / 8 + 0x20 * h + 0x2000 * f, g % 8);
    lemma_part(d + 0x1_0000 * e + 0x1_0000_0000 * f, 0x100_0000, h + 0x100 * f, d + 0x1_0000 * g);
    lemma_part(n, 0x100_0000_0000_0000, i, c + 0x1_0000 * d + 0x1_0000_0000 * e + 0x1_0000_0000_0000 * j);
}

/// One byte more at a time.
proof fn lemma_steps(ram: Seq<u8>, a: int)
    ensures
        number_at(ram, a, 2) == number_at(ram, a, 1) + 0x100 * number_at(ram, a + 1, 1),
        number_at(ram, a, 3) == number_at(ram, a, 2) + 0x1_0000 * number_at(ram, a + 2, 1),
        number_at(ram, a, 4) == number_at(ram, a, 3) + 0x100_0000 * number_at(ram, a + 3, 1),
        number_at(ram, a, 5) == number_at(ram, a, 4) + 0x1_0000_0000 * number_at(ram, a + 4, 1),
        number_at(ram, a, 6) == number_at(ram, a, 5) + 0x100_0000_0000 * number_at(ram, a + 5, 1),
        number_at(ram, a, 7) == number_at(ram, a, 6) + 0x1_0000_0000_0000 * number_at(ram, a + 6, 1),
        number_at(ram, a, 8) == number_at(ram, a, 7) + 0x100_0000_0000_0000 * number_at(ram, a + 7, 1),
{
    lemma_step(ram, a, 1);
    lemma_step(ram, a, 2);
    lemma_step(ram, a, 3);
    lemma_step(ram, a, 4);
    lemma_step(ram, a, 5);
    lemma_step(ram, a, 6);
    lemma_step(ram, a, 7);
}

proof fn lemma_step(ram: Seq<u8>, a: int, n: nat)
    requires
        1 <= n < 8,
    ensures
        number_at(ram, a, n + 1) == number_at(ram, a, n) + number_at(ram, a + n, 1) * weight(n as int),
{
    assert(number_at(ram, a + n, 0) == 0);
    let b = if 0 <= a + n < ram.len() {
        ram[a + n] as int
    } else {
        0
    };
    assert(number_at(ram, a + n, 1) == b * weight(0));
    assert(weight(0) == 1);
}

proof fn lemma_part(x: int, d: int, q: int, r: int)
    requires
        0 <= r < d,
        x == q * d + r,
    ensures
        x / d == q,
        x % d == r,
{
    vstd::arithmetic::div_mod::lemma_fundamental_div_mod_converse(x, d, q, r);
}

proof fn lemma_gate(s: CpuState, vector: u8, h: u64)
    requires
        s.platform,
    ensures
        gate_names(s, vector, h) ==> gate(s, vector).0 == h,
        gate(s, vector).1 == gate_stack(s, vector),
        0 <= gate_stack(s, vector) < 8,
{
    let at = gate_at(s, vector);
    let lo = virt_read(s, at, 8);
    let hi = virt_read(s, at.wrapping_add(8), 8);
    law_load_number(s.ram, translated(s, at) as int, 8);
    law_load_number(s.ram, translated(s, at.wrapping_add(8)) as int, 8);
    lemma_quad_fields(s.ram, translated(s, at) as int);
    lemma_quad_fields(s.ram, translated(s, at.wrapping_add(8)) as int);
    lemma_gate_bits(lo, hi, 0, 0);
}

/// Delivery goes to the handler that the vector's gate names, whatever its 64-bit address, with
/// interrupts disabled, in the kernel if it comes from outside it.
pub proof fn law_gate_handler(s: CpuState, vector: u8, error: u64, has_error: bool, h: u64)
    requires
        s.platform,
        s.r.len() == 16,
        runnable(s),
        gate_names(s, vector, h),
    ensures
        delivered(s, vector, error, has_error).rip == h,
        !flag_set(delivered(s, vector, error, has_error).rflags, RFLAGS_IF),
        delivered(s, vector, error, has_error).cpl == 0,
{
    reveal(delivered);
    lemma_gate(s, vector, h);
    lemma_delivered(s, vector, error, has_error);
}

/// The stack of a delivery: from user mode, or where the descriptor names a stack, the one that
/// the segment in `TR` holds (`RSP0` at offset 4, the interrupt stacks from offset 0x24), unless that
/// is zero; else the present one. Five quadwords are pushed, six with an error code.
pub open spec fn handler_stack(s: CpuState, vector: u8) -> int {
    let n = gate_stack(s, vector);
    let base = s.sys.tr_base;
    let at = if n == 0 { base.wrapping_add(4) } else { base.wrapping_add((0x24 + 8 * (n - 1)) as u64) };
    if (s.cpl == 0 && n == 0) || base == 0 || quad_at(s, at) == 0 {
        s.r[4] as int
    } else {
        quad_at(s, at)
    }
}

proof fn lemma_push(p: CpuState, v: u64)
    requires
        runnable(p),
        p.r.len() == 16,
    ensures
        ({
            let q = stack_push(p, v);
            &&& q.r == p.r.update(4, p.r[4].wrapping_sub(8))
            &&& q.seg == p.seg
            &&& q.cpl == p.cpl
            &&& q.rip == p.rip
            &&& q.rflags == p.rflags
            &&& q.cr2 == p.cr2
            &&& q.r.len() == 16
            &&& runnable(q)
        }),
{
    reveal(stack_push);
    law_store_keeps(with_reg(p, 4, p.r[4].wrapping_sub(8)), p.r[4].wrapping_sub(8), 8, v);
}

proof fn lemma_delivered(s: CpuState, vector: u8, error: u64, has_error: bool)
    requires
        s.r.len() == 16,
        runnable(s),
    ensures
        ({
            let (handler, ist) = gate(s, vector);
            let t = switched(traced(s, vector, error, handler), ist);
            let d = delivered(s, vector, error, has_error);
            &&& d.r =~= t.r.update(4, t.r[4].wrapping_sub(if has_error { 48 } else { 40 }))
            &&& d.seg == t.seg
            &&& d.cpl == t.cpl
            &&& d.rip == handler
            &&& t.cpl == 0
            &&& d.rflags == s.rflags & !RFLAGS_IF
            &&& d.rflags & RFLAGS_IF == 0
            &&& d.cr2 == s.cr2
        }),
{
    reveal(delivered);
    reveal(switched);
    reveal(traced);
    let (handler, ist) = gate(s, vector);
    let t = switched(traced(s, vector, error, handler), ist);
    assert(runnable(t) && t.r.len() == 16);
    let p1 = stack_push(t, s.seg[2].selector as u64);
    lemma_push(t, s.seg[2].selector as u64);
    let p2 = stack_push(p1, s.r[4]);
    lemma_push(p1, s.r[4]);
    let p3 = stack_push(p2, s.rflags);
    lemma_push(p2, s.rflags);
    let p4 = stack_push(p3, s.seg[1].selector as u64);
    lemma_push(p3, s.seg[1].selector as u64);
    let p5 = stack_push(p4, p4.rip);
    lemma_push(p4, p4.rip);
    lemma_push(p5, error);
    crate::control_laws::lemma_if_cleared(s.rflags);
}

/// Delivery pushes its frame on that stack, leaves every other register alone, and loads the kernel's
/// selectors where it switches: 0x10 for code, 0x18 for the stack.
pub proof fn law_gate_stack(s: CpuState, vector: u8, error: u64, has_error: bool)
    requires
        s.platform,
        s.r.len() == 16,
        s.seg.len() == 6,
        runnable(s),
    ensures
        ({
            let d = delivered(s, vector, error, has_error);
            let n = if has_error { 48int } else { 40 };
            let sp = handler_stack(s, vector);
            &&& d.r[4] == sp - n || d.r[4] == sp - n + 0x1_0000_0000_0000_0000
            &&& forall|i: int| 0 <= i < 16 && i != 4 ==> #[trigger] d.r[i] == s.r[i]
            &&& s.cpl != 0 || gate_stack(s, vector) != 0 ==> d.seg[1].selector == 0x10
                && d.seg[2].selector == 0x18
            &&& s.cpl == 0 && gate_stack(s, vector) == 0 ==> d.seg == s.seg
            &&& d.cr2 == s.cr2
        }),
{
    reveal(switched);
    reveal(traced);
    lemma_gate(s, vector, 0);
    lemma_delivered(s, vector, error, has_error);
    let n = gate_stack(s, vector);
    let base = s.sys.tr_base;
    law_load_number(s.ram, translated(s, base.wrapping_add(4)) as int, 8);
    if n > 0 {
        let at = base.wrapping_add((0x24 + 8 * (n - 1)) as u64);
        assert(base.wrapping_add(0x24).wrapping_add(((n - 1) * 8) as u64) == at);
        law_load_number(s.ram, translated(s, at) as int, 8);
    }
    let t = traced(s, vector, error, gate(s, vector).0);
    assert(tss_stack_of(t, n as u64) == tss_stack_of(s, n as u64)) by {
        assert(translated(t, base.wrapping_add(4)) == translated(s, base.wrapping_add(4))) by {
            crate::memory_laws::lemma_walk_alike(s, t, base.wrapping_add(4), false, false);
        }
        if n > 0 {
            let at = base.wrapping_add((0x24 + 8 * (n - 1)) as u64);
            crate::memory_laws::lemma_walk_alike(s, t, at, false, false);
        }
    }
}

/// An exception without a descriptor table is lost; with one it is delivered.
pub proof fn law_raised(s: CpuState, vector: u8, error: u64, has_error: bool, h: u64)
    requires
        s.platform,
        s.r.len() == 16,
        runnable(s),
        gate_names(s, vector, h),
    ensures
        s.sys.idtr.1 == 0 ==> raised(s, vector, error, has_error) == s,
        s.sys.idtr.1 != 0 ==> raised(s, vector, error, has_error).rip == h,
{
    law_gate_handler(s, vector, error, has_error, h);
}

/// The task register takes its base from the descriptor that its selector names: bits 0 to 23 in bytes
/// 2 to 4, bits 24 to 31 in byte 7, bits 32 to 63 in the four bytes of its second quadword.
pub proof fn law_task_register(s: CpuState, sel: u16, base: u64)
    requires
        s.platform,
        ({
            let at = s.sys.gdtr.0.wrapping_add((sel / 8 * 8) as u64);
            &&& field_at(s, at, 2, 3) == base as int % 0x100_0000
            &&& field_at(s, at, 7, 1) == (base as int / 0x100_0000) % 0x100
            &&& field_at(s, at.wrapping_add(8), 0, 4) == base as int / 0x1_0000_0000
        }),
    ensures
        task_loaded(s, sel).sys.tr_base == base,
        task_loaded(s, sel).r == s.r,
{
    lemma_gate_bits(0, 0, sel, 0);
    let at = s.sys.gdtr.0.wrapping_add((sel / 8 * 8) as u64);
    let lo = virt_read(s, at, 8);
    let hi = virt_read(s, at.wrapping_add(8), 8);
    law_load_number(s.ram, translated(s, at) as int, 8);
    law_load_number(s.ram, translated(s, at.wrapping_add(8)) as int, 8);
    lemma_quad_fields(s.ram, translated(s, at) as int);
    lemma_quad_fields(s.ram, translated(s, at.wrapping_add(8)) as int);
    lemma_gate_bits(lo, hi, 0, 0);
}

// ----- interrupts from outside -----

/// An interrupt from outside is taken exactly when interrupts are enabled, a descriptor table is
/// installed and a source has one. The local APIC comes first. The source that had it is told, and
/// control goes to the handler of its vector.
pub proof fn law_interrupt_taken(s: CpuState, h: u64)
    requires
        runnable(s),
        s.r.len() == 16,
    ensures
        ({
            let (t, taken) = interrupted(s);
            let on = (s.rflags as int / 0x200) % 2 == 1 && s.sys.idtr.1 != 0;
            let local = lapic_deliverable(s.sys.lapic);
            let outer = pic_pending(s.sys.pic);
            &&& taken == (on && (local is Some || outer is Some))
            &&& !taken ==> t == s
            &&& on && local is Some ==> ({
                let q = acknowledged(s, local->0, None);
                &&& q.sys.lapic == lapic_take(s.sys.lapic, local->0)
                &&& q.sys.pic == s.sys.pic
                &&& q.ram == s.ram
                &&& gate_names(q, local->0, h) ==> t.rip == h
            })
            &&& on && local is None && outer is Some ==> ({
                let (line, vector) = outer->0;
                let q = acknowledged(s, vector, Some(line));
                &&& q.sys.pic == pic_ack(s.sys.pic, line)
                &&& q.sys.lapic == s.sys.lapic
                &&& q.ram == s.ram
                &&& gate_names(q, vector, h) ==> t.rip == h
            })
        }),
{
    reveal(interrupted);
    let f = s.rflags;
    lemma_gate_bits(0, 0, 0, f);
    if let Some((v, irq)) = pending_of(s) {
        let q = acknowledged(s, v, irq);
        if gate_names(q, v, h) {
            law_gate_handler(q, v, 0, false, h);
        }
    }
}

} // verus!
