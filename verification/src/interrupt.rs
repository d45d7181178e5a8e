//! Interrupt and exception delivery, and the passage of time.
use vstd::prelude::*;
use crate::cpu::{Cpu, Seg, CS, RSP, SS};
use crate::flags::RFLAGS_IF;
use crate::profile::ExcRecord;
#[allow(unused_imports)]
use crate::cpu::CpuState;
#[allow(unused_imports)]
use crate::lapic::{lapic_deliverable, lapic_take};
#[allow(unused_imports)]
use crate::mmu::virt_read;
#[allow(unused_imports)]
use crate::operand::stack_push;
#[allow(unused_imports)]
use crate::pic::{lowest_from, pic_ack, pic_pending};
#[allow(unused_imports)]
use crate::profile::{trace_push, DevState};
#[allow(unused_imports)]
use crate::sys::{sys_idle, sys_step, SysState};

verus! {

/// A gate of the interrupt descriptor table: the handler and the stack index.
pub open spec fn gate(s: CpuState, vector: u8) -> (u64, u64) {
    let desc = s.sys.idtr.0.wrapping_add((vector * 16) as u64);
    let lo = virt_read(s, desc, 8);
    let hi = virt_read(s, desc.wrapping_add(8), 8);
    (
        (lo & 0xffff) | ((lo >> 32) & 0xffff_0000) | ((hi & 0xffff_ffff) << 32),
        (lo >> 32) & 0x7,
    )
}

/// The stack the task state segment gives: `RSP0`, or the indexed interrupt stack. Zero where no
/// segment is loaded.
pub open spec fn tss_stack_of(s: CpuState, ist: u64) -> u64 {
    let base = s.sys.tr_base;
    if base == 0 {
        0
    } else if ist == 0 {
        virt_read(s, base.wrapping_add(4), 8)
    } else {
        virt_read(s, base.wrapping_add(0x24).wrapping_add(((ist - 1) * 8) as u64), 8)
    }
}

/// The record of a processor exception; interrupts from outside leave none.
#[verifier::opaque]
pub open spec fn traced(s: CpuState, vector: u8, error: u64, handler: u64) -> CpuState {
    if vector < 32 {
        CpuState {
            dev: DevState {
                exc_trace: trace_push(
                    s.dev.exc_trace,
                    ExcRecord {
                        vector,
                        error,
                        rip: s.rip,
                        cr2: s.cr2,
                        handler,
                        cpl: s.cpl,
                        rsp: s.r[4],
                    },
                ),
            },
            ..s
        }
    } else {
        s
    }
}

/// The switch to the kernel: a ring change or an interrupt stack loads the stack the task state
/// segment gives, and the kernel's selectors.
#[verifier::opaque]
pub open spec fn switched(s: CpuState, ist: u64) -> CpuState {
    if s.cpl != 0 || ist != 0 {
        let sp = tss_stack_of(s, ist);
        CpuState {
            r: if sp != 0 { s.r.update(4, sp) } else { s.r },
            cpl: 0,
            seg: s.seg.update(1, Seg { selector: 0x10, long: true, ..s.seg[1] }).update(
                2,
                Seg { selector: 0x18, ..s.seg[2] },
            ),
            ..s
        }
    } else {
        s
    }
}

/// Delivery through the interrupt descriptor table: the frame is pushed (stack segment, stack
/// pointer, flags, code segment, instruction pointer, and the error code of the faults that carry
/// one), interrupts are disabled, and the handler runs.
#[verifier::opaque]
pub open spec fn delivered(s: CpuState, vector: u8, error: u64, has_error: bool) -> CpuState {
    let (handler, ist) = gate(s, vector);
    let t = switched(traced(s, vector, error, handler), ist);
    let p1 = stack_push(t, s.seg[2].selector as u64);
    let p2 = stack_push(p1, s.r[4]);
    let p3 = stack_push(p2, s.rflags);
    let p4 = stack_push(p3, s.seg[1].selector as u64);
    let p5 = stack_push(p4, p4.rip);
    let p6 = if has_error { stack_push(p5, error) } else { p5 };
    CpuState { rflags: p6.rflags & !RFLAGS_IF, rip: handler, ..p6 }
}

/// An exception is delivered where a descriptor table is installed, and lost where none is.
pub open spec fn raised(s: CpuState, vector: u8, error: u64, has_error: bool) -> CpuState {
    if s.platform && s.sys.idtr.1 != 0 {
        delivered(s, vector, error, has_error)
    } else {
        s
    }
}

/// The interrupt to take: the local APIC's before the controller pair's.
pub open spec fn pending_of(s: CpuState) -> Option<(u8, Option<u8>)> {
    if s.rflags & RFLAGS_IF == 0 || s.sys.idtr.1 == 0 {
        None
    } else {
        match lapic_deliverable(s.sys.lapic) {
            Some(v) => Some((v, None)),
            None => match pic_pending(s.sys.pic) {
                Some((irq, vec)) => Some((vec, Some(irq))),
                None => None,
            },
        }
    }
}

/// The source of an interrupt told that it is taken.
pub open spec fn acknowledged(s: CpuState, vector: u8, irq: Option<u8>) -> CpuState {
    CpuState {
        sys: match irq {
            Some(n) => SysState { pic: pic_ack(s.sys.pic, n), ..s.sys },
            None => SysState { lapic: lapic_take(s.sys.lapic, vector), ..s.sys },
        },
        ..s
    }
}

/// A pending interrupt taken, if interrupts are enabled and a descriptor table is installed.
#[verifier::opaque]
pub open spec fn interrupted(s: CpuState) -> (CpuState, bool) {
    match pending_of(s) {
        None => (s, false),
        Some((vector, irq)) => (delivered(acknowledged(s, vector, irq), vector, 0, false), true),
    }
}

/// One step of time.
pub open spec fn ticked(s: CpuState) -> CpuState {
    if s.platform {
        CpuState { sys: sys_step(s.sys), ..s }
    } else {
        s
    }
}

/// The jump to the next deadline, where it is switched on.
pub open spec fn idled(s: CpuState) -> CpuState {
    if s.cfg.fast_forward && s.platform {
        CpuState { sys: sys_idle(s.sys), ..s }
    } else {
        s
    }
}

proof fn lemma_lowest_range(x: u16, i: int)
    requires
        0 <= i,
    ensures
        lowest_from(x, i) is Some ==> lowest_from(x, i)->0 < 16,
    decreases 16 - i,
{
    if i < 16 {
        lemma_lowest_range(x, i + 1);
    }
}

proof fn lemma_ist(lo: u64)
    by (bit_vector)
    ensures
        (lo >> 32) & 0x7 <= 7,
{
}

impl Cpu {
    /// Advance the timestamp counter and the platform timers one step, latching a timer interrupt
    /// when one expires. The timers count whether or not interrupts are accepted.
    pub fn sys_tick(&mut self)
        ensures
            final(self)@ == ticked(old(self)@),
            old(self).wf() ==> final(self).wf(),
    {
        if self.platform {
            self.sys.tick();
        }
    }

    /// Advance the timers to the next armed deadline.
    pub fn idle_until_interrupt(&mut self)
        ensures
            final(self)@ == idled(old(self)@),
            old(self).wf() ==> final(self).wf(),
    {
        if self.cfg.fast_forward && self.platform {
            self.sys.idle();
        }
    }

    /// Deliver a pending external interrupt, if interrupts are enabled and a descriptor table is
    /// installed. The result says whether one was taken.
    pub fn take_pending_interrupt(&mut self) -> (taken: bool)
        requires
            old(self).wf(),
        ensures
            final(self).wf(),
            (final(self)@, taken) == interrupted(old(self)@),
    {
        proof {
            reveal(interrupted);
            lemma_lowest_range(self.sys.pic.request & !self.sys.pic.mask, 0);
        }
        if self.rflags & RFLAGS_IF == 0 || self.sys.idtr.1 == 0 {
            return false;
        }
        if let Some(v) = self.sys.lapic.deliverable() {
            self.sys.lapic.take(v);
            self.deliver_interrupt(v, 0, false);
            return true;
        }
        if let Some((irq, vec)) = self.sys.pic.pending() {
            self.sys.pic.ack(irq);
            self.deliver_interrupt(vec, 0, false);
            return true;
        }
        false
    }

    fn trace_exception(&mut self, vector: u8, error: u64, handler: u64)
        requires
            old(self).wf(),
        ensures
            final(self).wf(),
            final(self)@ == traced(old(self)@, vector, error, handler),
    {
        proof {
            reveal(traced);
        }
        if vector < 32 {
            let e: ExcRecord = ExcRecord {
                vector,
                error,
                rip: self.rip,
                cr2: self.cr2,
                handler,
                cpl: self.cpl,
                rsp: self.r[RSP],
            };
            self.dev.exc_trace_push(e);
        }
    }

    fn switch_stack(&mut self, ist: u64)
        requires
            old(self).wf(),
            ist <= 7,
        ensures
            final(self).wf(),
            final(self)@ == switched(old(self)@, ist),
    {
        proof {
            reveal(switched);
        }
        if self.cpl != 0 || ist != 0 {
            let sp: u64 = self.tss_stack(ist);
            if sp != 0 {
                self.r[RSP] = sp;
            }
            self.cpl = 0;
            let cs: Seg = self.seg[CS];
            let ss: Seg = self.seg[SS];
            self.seg[CS] = Seg { selector: 0x10, base: cs.base, long: true };
            self.seg[SS] = Seg { selector: 0x18, base: ss.base, long: ss.long };
        }
    }

    /// Vector through the 64-bit interrupt descriptor table.
    pub fn deliver_interrupt(&mut self, vector: u8, error: u64, has_error: bool)
        requires
            old(self).wf(),
        ensures
            final(self).wf(),
            final(self)@ == delivered(old(self)@, vector, error, has_error),
    {
        proof {
            reveal(delivered);
        }
        let desc: u64 = self.sys.idtr.0.wrapping_add(vector as u64 * 16);
        let lo: u64 = self.rd_virt(desc, 8);
        let hi: u64 = self.rd_virt(desc.wrapping_add(8), 8);
        let off: u64 = (lo & 0xffff) | ((lo >> 32) & 0xffff_0000) | ((hi & 0xffff_ffff) << 32);
        let ist: u64 = (lo >> 32) & 0x7;
        proof {
            lemma_ist(lo);
        }
        let old_cs: u16 = self.seg[CS].selector;
        let old_ss: u16 = self.seg[SS].selector;
        let old_rsp: u64 = self.r[RSP];
        let rflags: u64 = self.rflags;
        self.trace_exception(vector, error, off);
        self.switch_stack(ist);
        self.push(old_ss as u64);
        self.push(old_rsp);
        self.push(rflags);
        self.push(old_cs as u64);
        let rip: u64 = self.rip;
        self.push(rip);
        if has_error {
            self.push(error);
        }
        self.rflags = self.rflags & !RFLAGS_IF;
        self.rip = off;
    }

    /// The kernel stack for a ring transition.
    pub fn tss_stack(&self, ist: u64) -> (sp: u64)
        requires
            ist <= 7,
        ensures
            sp == tss_stack_of(self@, ist),
    {
        let base: u64 = self.sys.tr_base;
        if base == 0 {
            0
        } else if ist == 0 {
            self.rd_virt(base.wrapping_add(4), 8)
        } else {
            self.rd_virt(base.wrapping_add(0x24).wrapping_add((ist - 1) * 8), 8)
        }
    }

    /// Deliver a processor exception; without a descriptor table it is lost.
    pub fn raise_exception(&mut self, vector: u8, error: u64, has_error: bool)
        requires
            old(self).wf(),
        ensures
            final(self).wf(),
            final(self)@ == raised(old(self)@, vector, error, has_error),
    {
        if self.platform && self.sys.idtr.1 != 0 {
            self.deliver_interrupt(vector, error, has_error);
        }
    }
}

} // verus!
