//! Laws of interrupt delivery: what stands on the stack, and what the return gives back.
use vstd::prelude::*;
#[allow(unused_imports)]
use crate::area_laws::{
    at, in_ram, kept, lasts, lemma_kept, lemma_kept_apart, lemma_load_kept, lemma_store_fault,
    lemma_store_in, lemma_store_lasts,
};
#[allow(unused_imports)]
use crate::cpu::{runnable, CpuState};
#[allow(unused_imports)]
use crate::flags::{flag_set, RFLAGS_IF};
#[allow(unused_imports)]
use crate::int_ops::{do_iret, settable_flags};
#[allow(unused_imports)]
use crate::interrupt::{delivered, gate, switched, traced};
#[allow(unused_imports)]
use crate::memory_laws::{
    frames_aligned, held, law_store_keeps, lemma_set_of_line, place, plain, steady,
};
#[allow(unused_imports)]
use crate::mmu::{mem_read, mem_write};
#[allow(unused_imports)]
use crate::operand::{stack_pop, stack_push, with_reg};
#[allow(unused_imports)]
use crate::step::{fault_taken, restored, SavedState};

verus! {

// ----- pushes and pops -----

/// What a push changes.
proof fn lemma_push_shape(p: CpuState, lo: u64, off: int, v: u64)
    requires
        runnable(p),
        p.r.len() == 16,
        0 <= off < 0xff8,
        p.r[4] == at(lo, off + 8),
    ensures
        ({
            let q = stack_push(p, v);
            &&& q == CpuState {
                r: p.r.update(4, at(lo, off)),
                ram: q.ram,
                sys: q.sys,
                tlb: q.tlb,
                fault: q.fault,
                ..p
            }
            &&& q == mem_write(with_reg(p, 4, at(lo, off)), at(lo, off), 8, v)
            &&& runnable(q)
            &&& q.ram.len() == p.ram.len()
        }),
{
    reveal(stack_push);
    assert(p.r[4].wrapping_sub(8) == at(lo, off));
    law_store_keeps(with_reg(p, 4, at(lo, off)), at(lo, off), 8, v);
}

/// A push that succeeds moves nothing that has a place, and found no fault latched.
proof fn lemma_push_lasts(p: CpuState, d: CpuState, lo: u64, n: int, off: int, v: u64)
    requires
        runnable(p),
        p.r.len() == 16,
        0 <= off,
        off + 8 <= n < 0xff8,
        p.r[4] == at(lo, off + 8),
        stack_push(p, v).fault is None,
        lasts(stack_push(p, v), d, lo, n),
    ensures
        p.fault is None,
        lasts(p, d, lo, n),
{
    lemma_push_shape(p, lo, off, v);
    let y = with_reg(p, 4, at(lo, off));
    let q = stack_push(p, v);
    lemma_store_fault(y, at(lo, off), 8, v);
    lemma_store_lasts(y, lo, n, off, 8, v);
    assert forall|i: int, x: u64|
        0 <= i < n && #[trigger] held(p, at(lo, i), x, true) implies held(d, at(lo, i), x, true) by {
        assert(held(y, at(lo, i), x, true));
        assert(held(q, at(lo, i), x, true));
    }
}

/// A push puts its value in the stretch.
proof fn lemma_push(p: CpuState, d: CpuState, lo: u64, n: int, off: int, v: u64)
    requires
        runnable(p),
        p.r.len() == 16,
        frames_aligned(p),
        steady(p),
        0 <= off,
        off + 8 <= n < 0xff8,
        p.r[4] == at(lo, off + 8),
        stack_push(p, v).fault is None,
        lasts(stack_push(p, v), d, lo, n),
        in_ram(d, lo, n),
        d.ram.len() == p.ram.len(),
    ensures
        frames_aligned(stack_push(p, v)),
        kept(stack_push(p, v), lo, off, 8, v),
{
    lemma_push_shape(p, lo, off, v);
    let y = with_reg(p, 4, at(lo, off));
    assert(frames_aligned(y)) by {
        assert(y.tlb == p.tlb);
    }
    lemma_store_in(y, d, lo, n, off, 8, v);
}

/// A push leaves what was pushed before.
proof fn lemma_push_keeps(
    p: CpuState,
    d: CpuState,
    lo: u64,
    n: int,
    off: int,
    v: u64,
    above: int,
    w: u64,
)
    requires
        runnable(p),
        p.r.len() == 16,
        frames_aligned(p),
        steady(p),
        0 <= off,
        off + 8 <= above,
        above + 8 <= n < 0xff8,
        p.r[4] == at(lo, off + 8),
        stack_push(p, v).fault is None,
        lasts(stack_push(p, v), d, lo, n),
        in_ram(d, lo, n),
        d.ram.len() == p.ram.len(),
        kept(p, lo, above, 8, w),
    ensures
        kept(stack_push(p, v), lo, above, 8, w),
{
    lemma_push_shape(p, lo, off, v);
    let y = with_reg(p, 4, at(lo, off));
    assert(frames_aligned(y)) by {
        assert(y.tlb == p.tlb);
    }
    lemma_store_in(y, d, lo, n, off, 8, v);
    lemma_kept_apart(p, y, lo, above, 8, w);
    lemma_kept(y, lo, above, 8, w, off, 8, v);
}

/// A pop gives what stands in the stretch.
proof fn lemma_pop(p: CpuState, lo: u64, off: int, v: u64)
    requires
        runnable(p),
        p.r.len() == 16,
        0 <= off < 0xff8,
        p.r[4] == at(lo, off),
        kept(p, lo, off, 8, v),
        plain(place(p, at(lo, off), 0)),
    ensures
        ({
            let (q, x) = stack_pop(p, 8);
            &&& q == CpuState { r: p.r.update(4, at(lo, off + 8)), sys: q.sys, ..p }
            &&& runnable(q)
            &&& x == v
        }),
{
    reveal(stack_pop);
    lemma_load_kept(p, lo, off, 8, v);
    lemma_set_of_line(place(p, at(lo, off), 0));
    assert(p.r[4].wrapping_add(8) == at(lo, off + 8));
}

// ----- the frame -----

/// The stack that a delivery pushes its frame on.
pub open spec fn frame_stack(s: CpuState, vector: u8, error: u64) -> CpuState {
    let (handler, ist) = gate(s, vector);
    switched(traced(s, vector, error, handler), ist)
}

/// The bytes of a frame.
pub open spec fn frame_size(has_error: bool) -> int {
    if has_error {
        48
    } else {
        40
    }
}

/// Where the frame of a delivery starts.
pub open spec fn frame_low(s: CpuState, vector: u8, error: u64, has_error: bool) -> u64 {
    frame_stack(s, vector, error).r[4].wrapping_sub(frame_size(has_error) as u64)
}

/// A frame stands in memory: from the top the stack segment, the stack pointer, the flags, the code
/// segment and the instruction pointer of a machine.
pub open spec fn frame_of(d: CpuState, lo: u64, n: int, s: CpuState) -> bool {
    &&& kept(d, lo, n - 8, 8, s.seg[2].selector as u64)
    &&& kept(d, lo, n - 16, 8, s.r[4])
    &&& kept(d, lo, n - 24, 8, s.rflags)
    &&& kept(d, lo, n - 32, 8, s.seg[1].selector as u64)
    &&& kept(d, lo, n - 40, 8, s.rip)
}

/// The pushes of a frame, one after the other.
proof fn lemma_frame_pushes(
    t: CpuState,
    d: CpuState,
    lo: u64,
    n: int,
    a: u64,
    b: u64,
    c: u64,
    e: u64,
    f: u64,
)
    requires
        runnable(t),
        t.r.len() == 16,
        frames_aligned(t),
        steady(t),
        40 <= n <= 48,
        t.r[4] == at(lo, n),
        ({
            let p1 = stack_push(t, a);
            let p2 = stack_push(p1, b);
            let p3 = stack_push(p2, c);
            let p4 = stack_push(p3, e);
            let p5 = stack_push(p4, f);
            p5.fault is None && lasts(p5, d, lo, n)
        }),
        in_ram(d, lo, n),
        d.ram.len() == t.ram.len(),
    ensures
        ({
            let p1 = stack_push(t, a);
            let p2 = stack_push(p1, b);
            let p3 = stack_push(p2, c);
            let p4 = stack_push(p3, e);
            let p5 = stack_push(p4, f);
            &&& p5 == CpuState {
                r: t.r.update(4, at(lo, n - 40)),
                ram: p5.ram,
                sys: p5.sys,
                tlb: p5.tlb,
                ..t
            }
            &&& runnable(p5)
            &&& p5.ram.len() == t.ram.len()
            &&& t.fault is None
            &&& frames_aligned(p5)
            &&& kept(p5, lo, n - 8, 8, a)
            &&& kept(p5, lo, n - 16, 8, b)
            &&& kept(p5, lo, n - 24, 8, c)
            &&& kept(p5, lo, n - 32, 8, e)
            &&& kept(p5, lo, n - 40, 8, f)
        }),
{
    let p1 = stack_push(t, a);
    lemma_push_shape(t, lo, n - 8, a);
    let p2 = stack_push(p1, b);
    lemma_push_shape(p1, lo, n - 16, b);
    let p3 = stack_push(p2, c);
    lemma_push_shape(p2, lo, n - 24, c);
    let p4 = stack_push(p3, e);
    lemma_push_shape(p3, lo, n - 32, e);
    let p5 = stack_push(p4, f);
    lemma_push_shape(p4, lo, n - 40, f);
    lemma_push_lasts(p4, d, lo, n, n - 40, f);
    lemma_push_lasts(p3, d, lo, n, n - 32, e);
    lemma_push_lasts(p2, d, lo, n, n - 24, c);
    lemma_push_lasts(p1, d, lo, n, n - 16, b);
    lemma_push_lasts(t, d, lo, n, n - 8, a);
    lemma_push(t, d, lo, n, n - 8, a);
    lemma_push(p1, d, lo, n, n - 16, b);
    lemma_push_keeps(p1, d, lo, n, n - 16, b, n - 8, a);
    lemma_push(p2, d, lo, n, n - 24, c);
    lemma_push_keeps(p2, d, lo, n, n - 24, c, n - 8, a);
    lemma_push_keeps(p2, d, lo, n, n - 24, c, n - 16, b);
    lemma_push(p3, d, lo, n, n - 32, e);
    lemma_push_keeps(p3, d, lo, n, n - 32, e, n - 8, a);
    lemma_push_keeps(p3, d, lo, n, n - 32, e, n - 16, b);
    lemma_push_keeps(p3, d, lo, n, n - 32, e, n - 24, c);
    lemma_push(p4, d, lo, n, n - 40, f);
    lemma_push_keeps(p4, d, lo, n, n - 40, f, n - 8, a);
    lemma_push_keeps(p4, d, lo, n, n - 40, f, n - 16, b);
    lemma_push_keeps(p4, d, lo, n, n - 40, f, n - 24, c);
    lemma_push_keeps(p4, d, lo, n, n - 40, f, n - 32, e);
    assert(p5.r =~= t.r.update(4, at(lo, n - 40)));
}

/// What a delivery leaves: the frame in memory, from the top the stack segment, the stack pointer,
/// the flags, the code segment and the instruction pointer as they were, and an error code if the
/// fault has one, for a load to find; the handler next, with interrupts disabled. The frame goes to
/// RAM, on one page or across two.
pub proof fn law_interrupt_frame(s: CpuState, vector: u8, error: u64, has_error: bool)
    requires
        runnable(s),
        s.r.len() == 16,
        s.seg.len() == 6,
        frames_aligned(s),
        steady(s),
        in_ram(
            delivered(s, vector, error, has_error),
            frame_low(s, vector, error, has_error),
            frame_size(has_error),
        ),
    ensures
        ({
            let n = frame_size(has_error);
            let t = frame_stack(s, vector, error);
            let lo = frame_low(s, vector, error, has_error);
            let d = delivered(s, vector, error, has_error);
            &&& mem_read(d, at(lo, n - 8), 8).1 == s.seg[2].selector
            &&& mem_read(d, at(lo, n - 16), 8).1 == s.r[4]
            &&& mem_read(d, at(lo, n - 24), 8).1 == s.rflags
            &&& mem_read(d, at(lo, n - 32), 8).1 == s.seg[1].selector
            &&& mem_read(d, at(lo, n - 40), 8).1 == s.rip
            &&& has_error ==> mem_read(d, lo, 8).1 == error
            &&& frame_of(d, lo, n, s)
            &&& d.r == t.r.update(4, lo)
            &&& d.rip == gate(s, vector).0
            &&& d.cpl == 0
            &&& !flag_set(d.rflags, RFLAGS_IF)
            &&& d.seg == t.seg
            &&& d.cr2 == s.cr2
            &&& runnable(d)
            &&& d.ram.len() == s.ram.len()
        }),
{
    reveal(delivered);
    reveal(switched);
    reveal(traced);
    let n = frame_size(has_error);
    let t = frame_stack(s, vector, error);
    let lo = frame_low(s, vector, error, has_error);
    let d = delivered(s, vector, error, has_error);
    assert(frames_aligned(t)) by {
        assert(t.tlb == s.tlb);
    }
    assert(t.r[4] == at(lo, n));
    assert(at(lo, 0) == lo);
    let ss = s.seg[2].selector as u64;
    let cs = s.seg[1].selector as u64;
    let p1 = stack_push(t, ss);
    lemma_push_shape(t, lo, n - 8, ss);
    let p2 = stack_push(p1, s.r[4]);
    lemma_push_shape(p1, lo, n - 16, s.r[4]);
    let p3 = stack_push(p2, s.rflags);
    lemma_push_shape(p2, lo, n - 24, s.rflags);
    let p4 = stack_push(p3, cs);
    lemma_push_shape(p3, lo, n - 32, cs);
    let p5 = stack_push(p4, s.rip);
    lemma_push_shape(p4, lo, n - 40, s.rip);
    let p6 = if has_error {
        stack_push(p5, error)
    } else {
        p5
    };
    assert(lasts(p6, d, lo, n)) by {
        assert forall|i: int, x: u64|
            0 <= i < n && #[trigger] held(p6, at(lo, i), x, true) implies held(
            d,
            at(lo, i),
            x,
            true,
        ) by {}
    }
    if has_error {
        lemma_push_shape(p5, lo, 0, error);
        lemma_push_lasts(p5, d, lo, n, 0, error);
    }
    lemma_frame_pushes(t, d, lo, n, ss, s.r[4], s.rflags, cs, s.rip);
    if has_error {
        lemma_push(p5, d, lo, n, 0, error);
        lemma_push_keeps(p5, d, lo, n, 0, error, n - 8, ss);
        lemma_push_keeps(p5, d, lo, n, 0, error, n - 16, s.r[4]);
        lemma_push_keeps(p5, d, lo, n, 0, error, n - 24, s.rflags);
        lemma_push_keeps(p5, d, lo, n, 0, error, n - 32, cs);
        lemma_push_keeps(p5, d, lo, n, 0, error, n - 40, s.rip);
        lemma_kept_apart(p6, d, lo, 0, 8, error);
        lemma_framed(d, lo, n, 0, error);
    }
    lemma_kept_apart(p6, d, lo, n - 8, 8, ss);
    lemma_kept_apart(p6, d, lo, n - 16, 8, s.r[4]);
    lemma_kept_apart(p6, d, lo, n - 24, 8, s.rflags);
    lemma_kept_apart(p6, d, lo, n - 32, 8, cs);
    lemma_kept_apart(p6, d, lo, n - 40, 8, s.rip);
    lemma_framed(d, lo, n, n - 8, ss);
    lemma_framed(d, lo, n, n - 16, s.r[4]);
    lemma_framed(d, lo, n, n - 24, s.rflags);
    lemma_framed(d, lo, n, n - 32, cs);
    lemma_framed(d, lo, n, n - 40, s.rip);
    assert(d.r =~= t.r.update(4, lo));
    crate::control_laws::lemma_if_cleared(p6.rflags);
}

/// A word of the frame is loaded.
proof fn lemma_framed(d: CpuState, lo: u64, n: int, off: int, v: u64)
    requires
        in_ram(d, lo, n),
        0 <= off < n,
        kept(d, lo, off, 8, v),
    ensures
        mem_read(d, at(lo, off), 8).1 == v,
        plain(place(d, at(lo, off), 0)),
{
    assert(plain(place(d, lo, off)));
    assert(place(d, at(lo, off), 0) == place(d, lo, off));
    lemma_load_kept(d, lo, off, 8, v);
}

/// A page fault that is delivered finds on its frame the flags, the instruction pointer and the stack
/// pointer from before the instruction, and `CR2` holds the address.
pub proof fn law_fault_frame(s: CpuState, v: SavedState)
    requires
        s.fault is Some,
        s.sys.idtr.1 != 0,
        runnable(s),
        v.r.len() == 16,
        v.seg.len() == 6,
        frames_aligned(s),
        steady(s),
        in_ram(
            fault_taken(s, v),
            frame_low(
                restored(CpuState { fault: None, cr2: s.fault->0.addr, ..s }, v),
                14,
                s.fault->0.error,
                true,
            ),
            48,
        ),
    ensures
        ({
            let q = restored(CpuState { fault: None, cr2: s.fault->0.addr, ..s }, v);
            let lo = frame_low(q, 14, s.fault->0.error, true);
            let d = fault_taken(s, v);
            &&& mem_read(d, at(lo, 32), 8).1 == v.r[4]
            &&& mem_read(d, at(lo, 24), 8).1 == v.rflags
            &&& mem_read(d, at(lo, 8), 8).1 == v.rip
            &&& mem_read(d, lo, 8).1 == s.fault->0.error
            &&& d.rip == gate(q, 14).0
            &&& d.cr2 == s.fault->0.addr
        }),
{
    reveal(fault_taken);
    let q = restored(CpuState { fault: None, cr2: s.fault->0.addr, ..s }, v);
    assert(frames_aligned(q)) by {
        assert(q.tlb == s.tlb);
    }
    law_interrupt_frame(q, 14, s.fault->0.error, true);
}

/// The return from an interrupt gives back the registers, the instruction pointer, the flags and the
/// segments.
pub proof fn law_interrupt_return(s: CpuState, vector: u8)
    requires
        runnable(s),
        s.r.len() == 16,
        s.seg.len() == 6,
        frames_aligned(s),
        steady(s),
        in_ram(delivered(s, vector, 0, false), frame_low(s, vector, 0, false), 40),
    ensures
        ({
            let r = do_iret(delivered(s, vector, 0, false));
            &&& r.r == s.r
            &&& r.rip == s.rip
            &&& r.rflags == settable_flags(s.rflags)
            &&& r.seg[1].selector == s.seg[1].selector
            &&& r.seg[2].selector == s.seg[2].selector
            &&& r.cpl == (s.seg[1].selector & 3) as u8
        }),
{
    reveal(switched);
    reveal(traced);
    law_interrupt_frame(s, vector, 0, false);
    let t = frame_stack(s, vector, 0);
    let lo = frame_low(s, vector, 0, false);
    let d = delivered(s, vector, 0, false);
    let ss = s.seg[2].selector as u64;
    let cs = s.seg[1].selector as u64;
    assert(at(lo, 0) == lo);
    lemma_framed(d, lo, 40, 32, ss);
    lemma_framed(d, lo, 40, 24, s.r[4]);
    lemma_framed(d, lo, 40, 16, s.rflags);
    lemma_framed(d, lo, 40, 8, cs);
    lemma_framed(d, lo, 40, 0, s.rip);
    let s1 = stack_pop(d, 8).0;
    lemma_pop(d, lo, 0, s.rip);
    lemma_kept_apart(d, s1, lo, 8, 8, cs);
    let s2 = stack_pop(s1, 8).0;
    lemma_pop(s1, lo, 8, cs);
    lemma_kept_apart(d, s2, lo, 16, 8, s.rflags);
    let s3 = stack_pop(s2, 8).0;
    lemma_pop(s2, lo, 16, s.rflags);
    lemma_kept_apart(d, s3, lo, 24, 8, s.r[4]);
    let s4 = stack_pop(s3, 8).0;
    lemma_pop(s3, lo, 24, s.r[4]);
    lemma_kept_apart(d, s4, lo, 32, 8, ss);
    lemma_pop(s4, lo, 32, ss);
    lemma_selector(s.seg[1].selector);
    lemma_selector(s.seg[2].selector);
    let r = do_iret(d);
    assert(r.r =~= s.r);
}

proof fn lemma_selector(x: u16)
    by (bit_vector)
    ensures
        (x as u64) as u16 == x,
        ((x as u64) & 3) as u8 == (x & 3) as u8,
{
}

} // verus!
