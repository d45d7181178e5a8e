//! The system instructions: control and debug registers, model-specific registers, system calls,
//! descriptor tables, identification and the random-number source.
use vstd::prelude::*;
use crate::cpu::{Cpu, Halt, Seg, CS, FS, GS, LAPIC_BASE, RAX, RBX, RCX, RDX, SS};
use crate::decode::{Flow, Prefix};
use crate::flags::{AF, CF, OF, PF, RFLAGS_AC, RFLAGS_IF, SF, ZF};
use crate::msr::{
    MSR_APIC_BASE, MSR_EFER, MSR_FS_BASE, MSR_GS_BASE, MSR_KERNEL_GS_BASE, MSR_LSTAR, MSR_SFMASK,
    MSR_STAR,
};
use crate::operand::Rm;
#[allow(unused_imports)]
use crate::bits::is_width;
#[allow(unused_imports)]
use crate::cpu::CpuState;
#[allow(unused_imports)]
use crate::decode::{operand_size, wide, FlowState};
#[allow(unused_imports)]
use crate::flags::with_bit;
#[allow(unused_imports)]
use crate::group_ops::exchange_pair;
#[allow(unused_imports)]
use crate::int_ops::{code_byte, settable_flags};
#[allow(unused_imports)]
use crate::interrupt::raised;
#[allow(unused_imports)]
use crate::mmu::{cr_read, cr_write, flushed_pcid, mem_read, mem_write, pcid_of, virt_read};
#[allow(unused_imports)]
use crate::msr::{msr_get, msr_put};
#[allow(unused_imports)]
use crate::operand::{
    addr_or_zero, decode_rm, load_operand, store_operand, with_flags, with_reg, with_rip,
};
#[allow(unused_imports)]
use crate::sys::{sys_random, SysState};

verus! {

/// The two halves of a value in `RDX:RAX`.
pub open spec fn split_stored(s: CpuState, v: u64) -> CpuState {
    with_reg(with_reg(s, 0, v & 0xffff_ffff), 2, v >> 32)
}

/// The value of a model-specific register.
pub open spec fn msr_read(s: CpuState, n: u32) -> u64 {
    if n == MSR_EFER {
        s.efer
    } else if n == MSR_FS_BASE {
        s.seg[4].base
    } else if n == MSR_GS_BASE {
        s.seg[5].base
    } else if n == MSR_APIC_BASE {
        LAPIC_BASE | 0x900
    } else {
        msr_get(s.sys.msr, n)
    }
}

/// A segment base replaced.
pub open spec fn with_base(s: CpuState, i: int, v: u64) -> CpuState {
    CpuState { seg: s.seg.update(i, Seg { base: v, ..s.seg[i] }), ..s }
}

/// A model-specific register kept by number written.
pub open spec fn with_msr(s: CpuState, n: u32, v: u64) -> CpuState {
    CpuState { sys: SysState { msr: msr_put(s.sys.msr, n, v), ..s.sys }, ..s }
}

/// A model-specific register written, with its side effects.
pub open spec fn msr_written(s: CpuState, n: u32, v: u64) -> CpuState {
    if n == MSR_EFER {
        CpuState { efer: v, ..s }
    } else if n == MSR_FS_BASE {
        with_base(s, 4, v)
    } else if n == MSR_GS_BASE {
        with_base(s, 5, v)
    } else {
        with_msr(s, n, v)
    }
}

/// `RDMSR` and `WRMSR`.
pub open spec fn do_msr(s: CpuState, op: u8) -> CpuState {
    let n = (s.r[1] & 0xffff_ffff) as u32;
    if op == 0x30 {
        msr_written(s, n, ((s.r[2] & 0xffff_ffff) << 32) | (s.r[0] & 0xffff_ffff))
    } else {
        split_stored(s, msr_read(s, n))
    }
}

/// `SWAPGS`: the base of `GS` and the kernel's base change places.
pub open spec fn gs_swapped(s: CpuState) -> CpuState {
    with_msr(
        with_base(s, 5, msr_get(s.sys.msr, MSR_KERNEL_GS_BASE)),
        MSR_KERNEL_GS_BASE,
        s.seg[5].base,
    )
}

/// `MOV` with a control register (`20` reads, `22` writes) or a debug register (`21`, `23`). A memory
/// operand does nothing.
pub open spec fn do_mov_cr(s: CpuState, p: Prefix, op: u8) -> CpuState {
    let (s1, (idx, rm)) = decode_rm(s, p.rex);
    match rm {
        Rm::Reg(g) => if op == 0x20 {
            with_reg(s1, g as int, cr_read(s1, idx as int))
        } else if op == 0x22 {
            cr_write(s1, idx as int, s1.r[g as int])
        } else if op == 0x21 {
            with_reg(s1, g as int, s1.dr[(idx % 8) as int])
        } else {
            CpuState { dr: s1.dr.update((idx % 8) as int, s1.r[g as int]), ..s1 }
        },
        _ => s1,
    }
}

/// `SYSCALL`: the return address and the flags are saved in registers, the flags are masked, and the
/// kernel's entry point and selectors are loaded.
pub open spec fn do_syscall(s: CpuState) -> CpuState {
    let star = msr_get(s.sys.msr, MSR_STAR);
    let kcs = ((star >> 32) & 0xffff) as u16;
    CpuState {
        r: s.r.update(1, s.rip).update(11, s.rflags),
        rflags: (s.rflags & !msr_get(s.sys.msr, MSR_SFMASK)) & !RFLAGS_IF,
        seg: s.seg.update(1, Seg { selector: kcs, long: true, ..s.seg[1] }).update(
            2,
            Seg { selector: kcs.wrapping_add(8), ..s.seg[2] },
        ),
        cpl: 0,
        rip: msr_get(s.sys.msr, MSR_LSTAR),
        ..s
    }
}

/// `SYSRET`: the way back, to user mode, with the flags that `SYSCALL` saved.
pub open spec fn do_sysret(s: CpuState) -> CpuState {
    let base = ((msr_get(s.sys.msr, MSR_STAR) >> 48) & 0xffff) as u16;
    CpuState {
        rip: s.r[1],
        rflags: settable_flags(s.r[11]),
        seg: s.seg.update(
            1,
            Seg { selector: base.wrapping_add(16) | 3, long: true, ..s.seg[1] },
        ).update(2, Seg { selector: base.wrapping_add(8) | 3, ..s.seg[2] }),
        cpl: 3,
        ..s
    }
}

/// The register forms of group 7, by the whole ModRM byte: `SWAPGS`, `RDTSCP`, `CLAC`, `STAC`.
pub open spec fn group7_reg(s: CpuState, m: u8) -> CpuState {
    if m == 0xf8 {
        gs_swapped(s)
    } else if m == 0xf9 {
        with_reg(split_stored(s, s.sys.tsc), 1, 0)
    } else if m == 0xca {
        with_flags(s, s.rflags & !RFLAGS_AC)
    } else if m == 0xcb {
        with_flags(s, s.rflags | RFLAGS_AC)
    } else {
        s
    }
}

/// A descriptor-table register read from memory: limit, then base.
pub open spec fn table_read(s: CpuState, a: u64) -> (CpuState, (u64, u16)) {
    let (s1, limit) = mem_read(s, a, 2);
    let (s2, base) = mem_read(s1, a.wrapping_add(2), 8);
    (s2, (base, limit as u16))
}

/// A descriptor-table register written to memory.
pub open spec fn table_written(s: CpuState, a: u64, t: (u64, u16)) -> CpuState {
    mem_write(mem_write(s, a, 2, t.1 as u64), a.wrapping_add(2), 8, t.0)
}

/// The memory forms of group 7: `SGDT`, `SIDT`, `LGDT`, `LIDT`, `INVLPG`.
pub open spec fn group7_mem(s: CpuState, ext: u8, a: u64) -> CpuState {
    if ext == 2 {
        let (s1, t) = table_read(s, a);
        CpuState { sys: SysState { gdtr: t, ..s1.sys }, ..s1 }
    } else if ext == 3 {
        let (s1, t) = table_read(s, a);
        CpuState { sys: SysState { idtr: t, ..s1.sys }, ..s1 }
    } else if ext == 0 {
        table_written(s, a, s.sys.gdtr)
    } else if ext == 1 {
        table_written(s, a, s.sys.idtr)
    } else if ext == 7 {
        flushed_pcid(s, pcid_of(s) as int)
    } else {
        s
    }
}

/// Group 7 (`0F 01`). The ModRM byte is looked at first, without faulting.
pub open spec fn do_group7(s: CpuState, p: Prefix) -> CpuState {
    let m = code_byte(s, s.rip);
    if m / 64 == 3 {
        group7_reg(with_rip(s, s.rip.wrapping_add(1)), m)
    } else {
        let (s1, (_reg, rm)) = decode_rm(s, p.rex);
        group7_mem(s1, (m / 8) % 8, addr_or_zero(s1, rm))
    }
}

/// `LTR`: the base of the task state segment, from its descriptor.
pub open spec fn task_loaded(s: CpuState, sel: u16) -> CpuState {
    let desc = s.sys.gdtr.0.wrapping_add((sel & 0xfff8) as u64);
    let lo = virt_read(s, desc, 8);
    let hi = virt_read(s, desc.wrapping_add(8), 8);
    let base = ((lo >> 16) & 0xff_ffff) | (((lo >> 56) & 0xff) << 24) | ((hi & 0xffff_ffff) << 32);
    CpuState { sys: SysState { tr_base: base, ..s.sys }, ..s }
}

/// Group 6 (`0F 00`): the selector is read, and `LTR` loads the task register.
pub open spec fn do_group6(s: CpuState, p: Prefix) -> CpuState {
    let (s1, (reg, rm)) = decode_rm(s, p.rex);
    let (s2, sel) = load_operand(s1, rm, 2);
    if reg % 8 == 3 {
        task_loaded(s2, sel as u16)
    } else {
        s2
    }
}

/// What `CPUID` reports for a leaf, in `EAX`, `EBX`, `ECX` and `EDX`.
pub open spec fn cpuid_leaf(leaf: u32) -> (u32, u32, u32, u32) {
    if leaf == 0 {
        (0x10, 0x6874_7541, 0x444d_4163, 0x6974_6e65)
    } else if leaf == 1 {
        (0x0000_0600, 0x0000_0800, 0x4002_0000, 0x078b_fbff)
    } else if leaf == 7 {
        (0, 0x4_0000, 0, 0)
    } else if leaf == 0x8000_0000 {
        (0x8000_0008, 0x6874_7541, 0x444d_4163, 0x6974_6e65)
    } else if leaf == 0x8000_0001 {
        (0, 0, 0x0000_0001, 0x2010_0800)
    } else if 0x8000_0002 <= leaf <= 0x8000_0004 {
        (0x6f6c_6f48, 0x6170_7373, 0x2d65_7363, 0x3436_7858)
    } else if leaf == 0x8000_0005 {
        (0, 0, 0x2008_0140, 0x2008_0140)
    } else if leaf == 0x8000_0006 {
        (0, 0, 0x0200_6140, 0)
    } else if leaf == 0x8000_0008 {
        (0x0000_3028, 0, 0, 0)
    } else {
        (0, 0, 0, 0)
    }
}

/// `CPUID`.
pub open spec fn do_cpuid(s: CpuState) -> CpuState {
    let (a, b, c, d) = cpuid_leaf((s.r[0] & 0xffff_ffff) as u32);
    CpuState {
        r: s.r.update(0, a as u64).update(3, b as u64).update(1, c as u64).update(2, d as u64),
        ..s
    }
}

/// The flags a random number sets: the carry says that it is one.
pub open spec fn random_flags(f: u64) -> u64 {
    with_bit(with_bit(with_bit(with_bit(with_bit(f, CF, true), OF, false), SF, false), ZF, false), PF, false)
        & !AF
}

/// `RDRAND` and `RDSEED`.
pub open spec fn random_stored(s: CpuState, reg: int, size: u8) -> CpuState {
    let (sys, z) = sys_random(s.sys);
    let t = store_operand(CpuState { sys, ..s }, Rm::Reg(reg as usize), size, z);
    with_flags(t, random_flags(t.rflags))
}

/// Group 9 (`0F C7`): the paired exchange, or a random number into a register.
pub open spec fn do_group9(s: CpuState, p: Prefix) -> CpuState {
    let (s1, (reg, rm)) = decode_rm(s, p.rex);
    let ext = reg % 8;
    match rm {
        Rm::Reg(g) => if ext >= 6 {
            random_stored(s1, g as int, operand_size(p))
        } else {
            s1
        },
        _ => if ext == 1 {
            exchange_pair(s1, rm, if wide(p) { 8 } else { 4 })
        } else {
            s1
        },
    }
}

/// `UD2`: the undefined-opcode exception at the instruction itself; without a descriptor table the
/// machine stops.
pub open spec fn do_ud2(s: CpuState, p: Prefix) -> (CpuState, FlowState) {
    if s.sys.idtr.1 != 0 {
        (raised(with_rip(s, p.start), 6, 0, false), FlowState::Leave)
    } else {
        (s, FlowState::Stop(Halt::Undefined(p.start)))
    }
}

impl Cpu {
    fn store_split(&mut self, v: u64)
        requires
            old(self).wf(),
        ensures
            final(self).wf(),
            final(self)@ == split_stored(old(self)@, v),
    {
        self.r[RAX] = v & 0xffff_ffff;
        self.r[RDX] = v >> 32;
    }

    /// Read a model-specific register.
    pub fn rdmsr(&self, n: u32) -> (v: u64)
        ensures
            v == msr_read(self@, n),
    {
        if n == MSR_EFER {
            self.efer
        } else if n == MSR_FS_BASE {
            self.seg[FS].base
        } else if n == MSR_GS_BASE {
            self.seg[GS].base
        } else if n == MSR_APIC_BASE {
            LAPIC_BASE | 0x900
        } else {
            self.sys.msr.get(n)
        }
    }

    fn set_base(&mut self, i: usize, v: u64)
        requires
            old(self).wf(),
            i < 6,
        ensures
            final(self).wf(),
            final(self)@ == with_base(old(self)@, i as int, v),
    {
        let g: Seg = self.seg[i];
        self.seg[i] = Seg { selector: g.selector, base: v, long: g.long };
    }

    /// Write a model-specific register, with its side effects.
    pub fn wrmsr(&mut self, n: u32, v: u64)
        requires
            old(self).wf(),
        ensures
            final(self).wf(),
            final(self)@ == msr_written(old(self)@, n, v),
    {
        if n == MSR_EFER {
            self.efer = v;
        } else if n == MSR_FS_BASE {
            self.set_base(FS, v);
        } else if n == MSR_GS_BASE {
            self.set_base(GS, v);
        } else {
            self.sys.msr.insert(n, v);
        }
    }

    pub fn op_msr(&mut self, op: u8)
        requires
            old(self).wf(),
        ensures
            final(self).wf(),
            final(self)@ == do_msr(old(self)@, op),
    {
        let n: u32 = (self.r[RCX] & 0xffff_ffff) as u32;
        if op == 0x30 {
            let v: u64 = ((self.r[RDX] & 0xffff_ffff) << 32) | (self.r[RAX] & 0xffff_ffff);
            self.wrmsr(n, v);
        } else {
            let v: u64 = self.rdmsr(n);
            self.store_split(v);
        }
    }

    /// Exchange the base of `GS` with the kernel's.
    pub fn swapgs(&mut self)
        requires
            old(self).wf(),
        ensures
            final(self).wf(),
            final(self)@ == gs_swapped(old(self)@),
    {
        let cur: u64 = self.seg[GS].base;
        let kern: u64 = self.sys.msr.get(MSR_KERNEL_GS_BASE);
        self.set_base(GS, kern);
        self.sys.msr.insert(MSR_KERNEL_GS_BASE, cur);
    }

    pub fn op_mov_cr(&mut self, p: Prefix, op: u8)
        requires
            old(self).wf(),
        ensures
            final(self).wf(),
            final(self)@ == do_mov_cr(old(self)@, p, op),
    {
        let (idx, rm) = self.modrm(p.rex);
        if let Rm::Reg(g) = rm {
            if op == 0x20 {
                let v: u64 = self.cr(idx);
                self.r[g] = v;
            } else if op == 0x22 {
                let v: u64 = self.r[g];
                self.set_cr(idx, v);
            } else if op == 0x21 {
                let v: u64 = self.dr[idx % 8];
                self.r[g] = v;
            } else {
                let v: u64 = self.r[g];
                self.dr[idx % 8] = v;
            }
        }
    }

    /// The fast system-call entry.
    pub fn syscall_enter(&mut self)
        requires
            old(self).wf(),
        ensures
            final(self).wf(),
            final(self)@ == do_syscall(old(self)@),
    {
        let star: u64 = self.sys.msr.get(MSR_STAR);
        let lstar: u64 = self.sys.msr.get(MSR_LSTAR);
        let sfmask: u64 = self.sys.msr.get(MSR_SFMASK);
        let kcs: u16 = ((star >> 32) & 0xffff) as u16;
        self.r[RCX] = self.rip;
        self.r[11] = self.rflags;
        self.rflags = (self.rflags & !sfmask) & !RFLAGS_IF;
        let cs: Seg = self.seg[CS];
        self.seg[CS] = Seg { selector: kcs, base: cs.base, long: true };
        let ss: Seg = self.seg[SS];
        self.seg[SS] = Seg { selector: kcs.wrapping_add(8), base: ss.base, long: ss.long };
        self.cpl = 0;
        self.rip = lstar;
    }

    /// The fast system-call return.
    pub fn sysret(&mut self)
        requires
            old(self).wf(),
        ensures
            final(self).wf(),
            final(self)@ == do_sysret(old(self)@),
    {
        let base: u16 = ((self.sys.msr.get(MSR_STAR) >> 48) & 0xffff) as u16;
        self.rip = self.r[RCX];
        self.rflags = (self.r[11] & 0x0024_4fd5) | 0x2;
        let cs: Seg = self.seg[CS];
        self.seg[CS] = Seg { selector: base.wrapping_add(16) | 3, base: cs.base, long: true };
        let ss: Seg = self.seg[SS];
        self.seg[SS] = Seg { selector: base.wrapping_add(8) | 3, base: ss.base, long: ss.long };
        self.cpl = 3;
    }

    /// The timestamp counter, as the guest reads it.
    pub fn read_tsc(&self) -> (v: u64)
        ensures
            v == self@.sys.tsc,
    {
        self.sys.tsc
    }

    /// `RDTSC`.
    pub fn op_rdtsc(&mut self)
        requires
            old(self).wf(),
        ensures
            final(self).wf(),
            final(self)@ == split_stored(old(self)@, old(self)@.sys.tsc),
    {
        let v: u64 = self.read_tsc();
        self.store_split(v);
    }

    fn group7_register(&mut self, m: u8)
        requires
            old(self).wf(),
        ensures
            final(self).wf(),
            final(self)@ == group7_reg(old(self)@, m),
    {
        if m == 0xf8 {
            self.swapgs();
        } else if m == 0xf9 {
            self.op_rdtsc();
            self.r[RCX] = 0;
        } else if m == 0xca {
            self.rflags = self.rflags & !RFLAGS_AC;
        } else if m == 0xcb {
            self.rflags = self.rflags | RFLAGS_AC;
        }
    }

    fn read_table(&mut self, a: u64) -> (t: (u64, u16))
        requires
            old(self).wf(),
        ensures
            final(self).wf(),
            (final(self)@, t) == table_read(old(self)@, a),
    {
        let limit: u64 = self.rd(a, 2);
        let base: u64 = self.rd(a.wrapping_add(2), 8);
        (base, limit as u16)
    }

    fn write_table(&mut self, a: u64, t: (u64, u16))
        requires
            old(self).wf(),
        ensures
            final(self).wf(),
            final(self)@ == table_written(old(self)@, a, t),
    {
        self.wr(a, 2, t.1 as u64);
        self.wr(a.wrapping_add(2), 8, t.0);
    }

    /// Group 7: descriptor tables, `SWAPGS`, `RDTSCP` and the access flag.
    pub fn group7(&mut self, p: Prefix)
        requires
            old(self).wf(),
        ensures
            final(self).wf(),
            final(self)@ == do_group7(old(self)@, p),
    {
        let m: u8 = self.ram_byte(self.translate(self.rip), 0);
        if m / 64 == 3 {
            self.rip = self.rip.wrapping_add(1);
            self.group7_register(m);
            return;
        }
        let ext: u8 = (m / 8) % 8;
        let (_reg, rm) = self.modrm(p.rex);
        let a: u64 = self.xmm_mem_addr(rm);
        if ext == 2 {
            let t: (u64, u16) = self.read_table(a);
            self.sys.gdtr = t;
        } else if ext == 3 {
            let t: (u64, u16) = self.read_table(a);
            self.sys.idtr = t;
        } else if ext == 0 {
            let t: (u64, u16) = self.sys.gdtr;
            self.write_table(a, t);
        } else if ext == 1 {
            let t: (u64, u16) = self.sys.idtr;
            self.write_table(a, t);
        } else if ext == 7 {
            let pcid: u16 = self.active_pcid();
            self.flush_pcid(pcid as usize);
        }
    }

    /// Load the task register.
    pub fn load_tr(&mut self, sel: u16)
        requires
            old(self).wf(),
        ensures
            final(self).wf(),
            final(self)@ == task_loaded(old(self)@, sel),
    {
        let desc: u64 = self.sys.gdtr.0.wrapping_add((sel & 0xfff8) as u64);
        let lo: u64 = self.rd_virt(desc, 8);
        let hi: u64 = self.rd_virt(desc.wrapping_add(8), 8);
        self.sys.tr_base = ((lo >> 16) & 0xff_ffff) | (((lo >> 56) & 0xff) << 24) | ((hi
            & 0xffff_ffff) << 32);
    }

    pub fn op_group6(&mut self, p: Prefix)
        requires
            old(self).wf(),
        ensures
            final(self).wf(),
            final(self)@ == do_group6(old(self)@, p),
    {
        let (reg, rm) = self.modrm(p.rex);
        let sel: u64 = self.load_rm(rm, 2);
        if reg % 8 == 3 {
            self.load_tr(sel as u16);
        }
    }

    fn cpuid_of(leaf: u32) -> (r: (u32, u32, u32, u32))
        ensures
            r == cpuid_leaf(leaf),
    {
        if leaf == 0 {
            (0x10, 0x6874_7541, 0x444d_4163, 0x6974_6e65)
        } else if leaf == 1 {
            (0x0000_0600, 0x0000_0800, 0x4002_0000, 0x078b_fbff)
        } else if leaf == 7 {
            (0, 0x4_0000, 0, 0)
        } else if leaf == 0x8000_0000 {
            (0x8000_0008, 0x6874_7541, 0x444d_4163, 0x6974_6e65)
        } else if leaf == 0x8000_0001 {
            (0, 0, 0x0000_0001, 0x2010_0800)
        } else if 0x8000_0002 <= leaf && leaf <= 0x8000_0004 {
            (0x6f6c_6f48, 0x6170_7373, 0x2d65_7363, 0x3436_7858)
        } else if leaf == 0x8000_0005 {
            (0, 0, 0x2008_0140, 0x2008_0140)
        } else if leaf == 0x8000_0006 {
            (0, 0, 0x0200_6140, 0)
        } else if leaf == 0x8000_0008 {
            (0x0000_3028, 0, 0, 0)
        } else {
            (0, 0, 0, 0)
        }
    }

    /// Report the vendor, the features and the cache lines that a boot asks for.
    pub fn cpuid(&mut self)
        requires
            old(self).wf(),
        ensures
            final(self).wf(),
            final(self)@ == do_cpuid(old(self)@),
    {
        let (a, b, c, d) = Self::cpuid_of((self.r[RAX] & 0xffff_ffff) as u32);
        self.r[RAX] = a as u64;
        self.r[RBX] = b as u64;
        self.r[RCX] = c as u64;
        self.r[RDX] = d as u64;
    }

    /// Write a fresh value of the random-number stream to a register and report success.
    pub fn rdrand(&mut self, reg: usize, size: u8)
        requires
            old(self).wf(),
            reg < 16,
            is_width(size),
        ensures
            final(self).wf(),
            final(self)@ == random_stored(old(self)@, reg as int, size),
    {
        let z: u64 = self.sys.random();
        self.store_rm(Rm::Reg(reg), size, z);
        self.set(CF, true);
        self.set(OF, false);
        self.set(SF, false);
        self.set(ZF, false);
        self.set(PF, false);
        self.rflags = self.rflags & !AF;
    }

    pub fn op_group9(&mut self, p: Prefix)
        requires
            old(self).wf(),
        ensures
            final(self).wf(),
            final(self)@ == do_group9(old(self)@, p),
    {
        let (reg, rm) = self.modrm(p.rex);
        let ext: usize = reg % 8;
        match rm {
            Rm::Reg(g) => {
                if ext >= 6 {
                    self.rdrand(g, p.size());
                }
            },
            _ => {
                if ext == 1 {
                    self.op_exchange_pair(rm, p.quad());
                }
            },
        }
    }

    pub fn op_ud2(&mut self, p: Prefix) -> (f: Flow)
        requires
            old(self).wf(),
        ensures
            final(self).wf(),
            (final(self)@, f@) == do_ud2(old(self)@, p),
            f.ok(),
    {
        if self.sys.idtr.1 != 0 {
            self.rip = p.start;
            self.raise_exception(6, 0, false);
            Flow::Leave
        } else {
            Flow::Stop(Halt::Undefined(p.start))
        }
    }
}

} // verus!
