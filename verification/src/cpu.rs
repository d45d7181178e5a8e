//! The machine: registers, memory, translation caches and platform, and their mathematical state.
use vstd::prelude::*;
use crate::profile::Dev;
use crate::snap::{put_flag, put_u16, put_u64, Snap};
use crate::sys::Sys;
#[allow(unused_imports)]
use crate::profile::{fresh_dev, DevState};
#[allow(unused_imports)]
use crate::snap::{
    at, dec_u16, dec_u64, enc_flag, enc_u16, enc_u64, lemma_at_split, lemma_cat, lemma_dec_u16,
    lemma_dec_u64,
};
#[allow(unused_imports)]
use crate::sys::{fresh_sys, SysState};

verus! {

/// Why the core stopped.
#[derive(Clone, Copy, PartialEq, Eq, Structural, Debug)]
pub enum Halt {
    /// The step budget was exhausted (the caller drives more).
    OutOfBudget,
    /// A `hlt` with interrupts disabled: the guest powered off or wedged.
    Halted,
    /// An unsupported or malformed instruction was hit; carries the faulting `rip`.
    Undefined(u64),
}

pub const RAX: usize = 0;
pub const RCX: usize = 1;
pub const RDX: usize = 2;
pub const RBX: usize = 3;
pub const RSP: usize = 4;
pub const RBP: usize = 5;
pub const RSI: usize = 6;
pub const RDI: usize = 7;

/// Indices of the segment registers.
pub const ES: usize = 0;
pub const CS: usize = 1;
pub const SS: usize = 2;
pub const DS: usize = 3;
pub const FS: usize = 4;
pub const GS: usize = 5;

/// `CR4.PCIDE`: process-context identifiers are in use.
pub const CR4_PCIDE: u64 = 0x2_0000;
/// Page fault.
pub const VEC_PAGE_FAULT: u8 = 14;
/// Page-fault error bits: protection violation, write, user mode.
pub const PF_ERR_PRESENT: u64 = 1;
pub const PF_ERR_WRITE: u64 = 2;
pub const PF_ERR_USER: u64 = 4;
/// The local APIC's window.
pub const LAPIC_BASE: u64 = 0xFEE0_0000;
pub const LAPIC_END: u64 = 0xFEE0_1000;
/// Sets of the direct-mapped translation cache.
pub const TLB_SETS: usize = 1024;
/// Process-context identifiers.
pub const PCIDS: usize = 4096;

/// A segment register: the selector and what its descriptor loaded.
#[derive(Clone, Copy, PartialEq, Eq, Structural, Debug)]
pub struct Seg {
    pub selector: u16,
    pub base: u64,
    /// The descriptor's long-mode code attribute.
    pub long: bool,
}

/// A segment override prefix: only `FS` and `GS` have a base in long mode.
#[derive(Clone, Copy, PartialEq, Eq, Structural, Debug)]
pub enum SegId {
    Fs,
    Gs,
}

/// A translation held by the software cache. It is live when its generations are current and its
/// address space is the active one.
#[derive(Clone, Copy, PartialEq, Eq, Structural, Debug)]
pub struct TlbEntry {
    pub tag: u64,
    pub frame: u64,
    pub pcid: u16,
    pub gen: u64,
    pub pgen: u64,
    /// A write walk has succeeded here; other writes walk again, so write protection holds.
    pub writable: bool,
}

/// A page fault latched during an instruction: the linear address and the error code.
#[derive(Clone, Copy, PartialEq, Eq, Structural, Debug)]
pub struct PageFault {
    pub addr: u64,
    pub error: u64,
}

/// Switches that change how fast the machine runs, or what it records.
#[derive(Clone, Copy, PartialEq, Eq, Structural, Debug)]
pub struct Config {
    /// Bulk string operations and the indirect-call shortcut.
    pub fastpaths: bool,
    /// The translation caches.
    pub tlb_cache: bool,
    /// Count user-mode instructions.
    pub boot_diag: bool,
    /// Jump to the next deadline on `hlt`.
    pub fast_forward: bool,
}

/// The x86-64 long-mode machine.
pub struct Cpu {
    /// The general-purpose registers.
    pub r: [u64; 16],
    /// The SSE registers.
    pub xmm: [u128; 16],
    /// The x87 register stack, as the bits of binary64 numbers.
    pub fpr: [u64; 8],
    /// The top of the x87 stack.
    pub ftop: u8,
    pub fcw: u16,
    pub fsw: u16,
    pub rip: u64,
    pub rflags: u64,
    /// Retired instructions.
    pub insns: u64,
    pub cr0: u64,
    pub cr2: u64,
    pub cr3: u64,
    pub cr4: u64,
    pub efer: u64,
    /// The debug registers.
    pub dr: [u64; 8],
    pub seg: [Seg; 6],
    /// The current privilege level.
    pub cpl: u8,
    /// The segment override of the instruction being decoded.
    pub cur_seg: Option<SegId>,
    /// The instruction being decoded has a `REX` prefix.
    pub rex_present: bool,
    /// Guest RAM, from physical address zero.
    pub ram: Vec<u8>,
    /// The page fault latched by the current instruction.
    pub fault: Option<PageFault>,
    pub tlb: Vec<TlbEntry>,
    pub tlb_gen: u64,
    pub ifetch_tag: u64,
    pub ifetch_frame: u64,
    pub ifetch_gen: u64,
    pub ifetch_pgen: u64,
    pub ifetch_pcid: u16,
    /// Flush counter of each address space.
    pub pcid_gen: Vec<u64>,
    /// The machine has a platform.
    pub platform: bool,
    pub sys: Sys,
    pub cfg: Config,
    pub dev: Dev,
}

/// The contents of a [`Cpu`].
#[verifier::ext_equal]
pub ghost struct CpuState {
    pub r: Seq<u64>,
    pub xmm: Seq<u128>,
    pub fpr: Seq<u64>,
    pub ftop: u8,
    pub fcw: u16,
    pub fsw: u16,
    pub rip: u64,
    pub rflags: u64,
    pub insns: u64,
    pub cr0: u64,
    pub cr2: u64,
    pub cr3: u64,
    pub cr4: u64,
    pub efer: u64,
    pub dr: Seq<u64>,
    pub seg: Seq<Seg>,
    pub cpl: u8,
    pub cur_seg: Option<SegId>,
    pub rex_present: bool,
    pub ram: Seq<u8>,
    pub fault: Option<PageFault>,
    pub tlb: Seq<TlbEntry>,
    pub tlb_gen: u64,
    pub ifetch_tag: u64,
    pub ifetch_frame: u64,
    pub ifetch_gen: u64,
    pub ifetch_pgen: u64,
    pub ifetch_pcid: u16,
    pub pcid_gen: Seq<u64>,
    pub platform: bool,
    pub sys: SysState,
    pub cfg: Config,
    pub dev: DevState,
}

impl View for Cpu {
    type V = CpuState;

    open spec fn view(&self) -> CpuState {
        CpuState {
            r: self.r@,
            xmm: self.xmm@,
            fpr: self.fpr@,
            ftop: self.ftop,
            fcw: self.fcw,
            fsw: self.fsw,
            rip: self.rip,
            rflags: self.rflags,
            insns: self.insns,
            cr0: self.cr0,
            cr2: self.cr2,
            cr3: self.cr3,
            cr4: self.cr4,
            efer: self.efer,
            dr: self.dr@,
            seg: self.seg@,
            cpl: self.cpl,
            cur_seg: self.cur_seg,
            rex_present: self.rex_present,
            ram: self.ram@,
            fault: self.fault,
            tlb: self.tlb@,
            tlb_gen: self.tlb_gen,
            ifetch_tag: self.ifetch_tag,
            ifetch_frame: self.ifetch_frame,
            ifetch_gen: self.ifetch_gen,
            ifetch_pgen: self.ifetch_pgen,
            ifetch_pcid: self.ifetch_pcid,
            pcid_gen: self.pcid_gen@,
            platform: self.platform,
            sys: self.sys@,
            cfg: self.cfg,
            dev: self.dev@,
        }
    }
}

/// The state of a machine that can execute: the caches have their sizes, a platform is present, and
/// its data cache has every set.
pub open spec fn runnable(s: CpuState) -> bool {
    &&& s.tlb.len() == TLB_SETS
    &&& s.pcid_gen.len() == PCIDS
    &&& s.platform
    &&& s.sys.dcache.len() >= 512
}

impl Cpu {
    /// The machine can execute.
    pub open spec fn wf(&self) -> bool {
        runnable(self@)
    }
}

// ----- segment registers in snapshots -----

/// The bytes of a snapshot.
pub open spec fn enc_seg(s: Seg) -> Seq<u8> {
    enc_u16(s.selector) + (enc_u64(s.base) + enc_flag(s.long))
}

/// The value found in snapshot bytes.
pub open spec fn dec_seg(b: Seq<u8>, p: int) -> Seg {
    Seg { selector: dec_u16(b, p), base: dec_u64(b, p + 2), long: b[p + 10] != 0 }
}

/// Reading back what was written.
pub proof fn lemma_dec_seg(b: Seq<u8>, p: int, s: Seg)
    requires
        at(b, p, enc_seg(s)),
    ensures
        enc_seg(s).len() == 11,
        dec_seg(b, p) == s,
{
    lemma_at_split(b, p, enc_u16(s.selector), enc_u64(s.base) + enc_flag(s.long));
    lemma_at_split(b, p + 2, enc_u64(s.base), enc_flag(s.long));
    lemma_dec_u16(b, p, s.selector);
    lemma_dec_u64(b, p + 2, s.base);
    assert(b[p + 10 + 0] == enc_flag(s.long)[0]);
}

impl Seg {
    pub fn snap(&self, o: &mut Vec<u8>)
        ensures
            final(o)@ == old(o)@ + enc_seg(*self),
    {
        broadcast use lemma_cat;

        put_u16(o, self.selector);
        put_u64(o, self.base);
        put_flag(o, self.long);
    }

    pub fn unsnap(s: &mut Snap) -> (r: Option<Seg>)
        requires
            old(s).wf(),
        ensures
            final(s).wf(),
            final(s).b@ == old(s).b@,
            match r {
                Some(x) => old(s).has(11) && x == dec_seg(old(s).b@, old(s).p as int)
                    && final(s).moved(old(s), 11),
                None => !old(s).has(11),
            },
    {
        let selector: u16 = s.u16()?;
        let base: u64 = s.u64()?;
        let long: bool = s.flag()?;
        Some(Seg { selector, base, long })
    }
}

/// A null segment register.
pub open spec fn null_seg() -> Seg {
    Seg { selector: 0, base: 0, long: false }
}

/// An empty translation.
pub open spec fn null_entry() -> TlbEntry {
    TlbEntry { tag: 0, frame: 0, pcid: 0, gen: 0, pgen: 0, writable: false }
}

/// The switches as they stand in production.
pub open spec fn default_config() -> Config {
    Config { fastpaths: true, tlb_cache: true, boot_diag: false, fast_forward: true }
}

/// The machine at reset, around the given RAM.
pub open spec fn reset_state(ram: Seq<u8>) -> CpuState {
    CpuState {
        r: Seq::new(16, |i: int| 0u64),
        xmm: Seq::new(16, |i: int| 0u128),
        fpr: Seq::new(8, |i: int| 0u64),
        ftop: 0,
        fcw: 0x037f,
        fsw: 0,
        rip: 0,
        rflags: 0x2,
        insns: 0,
        cr0: 0,
        cr2: 0,
        cr3: 0,
        cr4: 0,
        efer: 0,
        dr: Seq::new(8, |i: int| 0u64),
        seg: Seq::new(6, |i: int| null_seg()),
        cpl: 0,
        cur_seg: None,
        rex_present: false,
        ram,
        fault: None,
        tlb: Seq::new(TLB_SETS as nat, |i: int| null_entry()),
        tlb_gen: 1,
        ifetch_tag: 0,
        ifetch_frame: 0,
        ifetch_gen: 0,
        ifetch_pgen: 0,
        ifetch_pcid: 0,
        pcid_gen: Seq::new(PCIDS as nat, |i: int| 1u64),
        platform: true,
        sys: fresh_sys(),
        cfg: default_config(),
        dev: fresh_dev(),
    }
}

impl Cpu {
    /// A fresh machine with `ram_bytes` of zeroed RAM.
    pub fn new(ram_bytes: usize) -> (c: Cpu)
        ensures
            c@ == reset_state(Seq::new(ram_bytes as nat, |i: int| 0u8)),
            c.wf(),
    {
        let ram: Vec<u8> = vec![0u8; ram_bytes];
        assert(ram@ =~= Seq::new(ram_bytes as nat, |i: int| 0u8));
        Self::around(ram)
    }

    /// A machine at reset around the given RAM.
    pub fn around(ram: Vec<u8>) -> (c: Cpu)
        ensures
            c@ == reset_state(ram@),
            c.wf(),
    {
        let tlb: Vec<TlbEntry> = vec![
            TlbEntry { tag: 0, frame: 0, pcid: 0, gen: 0, pgen: 0, writable: false };
            TLB_SETS
        ];
        assert(tlb@ =~= Seq::new(TLB_SETS as nat, |i: int| null_entry()));
        let pcid_gen: Vec<u64> = vec![1u64; PCIDS];
        assert(pcid_gen@ =~= Seq::new(PCIDS as nat, |i: int| 1u64));
        let c: Cpu = Cpu {
            r: [0; 16],
            xmm: [0; 16],
            fpr: [0; 8],
            ftop: 0,
            fcw: 0x037f,
            fsw: 0,
            rip: 0,
            rflags: 0x2,
            insns: 0,
            cr0: 0,
            cr2: 0,
            cr3: 0,
            cr4: 0,
            efer: 0,
            dr: [0; 8],
            seg: [Seg { selector: 0, base: 0, long: false };6],
            cpl: 0,
            cur_seg: None,
            rex_present: false,
            ram,
            fault: None,
            tlb,
            tlb_gen: 1,
            ifetch_tag: 0,
            ifetch_frame: 0,
            ifetch_gen: 0,
            ifetch_pgen: 0,
            ifetch_pcid: 0,
            pcid_gen,
            platform: true,
            sys: Sys::new(),
            cfg: Config {
                fastpaths: true,
                tlb_cache: true,
                boot_diag: false,
                fast_forward: true,
            },
            dev: Dev::new(),
        };
        proof {
            assert(c@.r =~= Seq::new(16, |i: int| 0u64));
            assert(c@.xmm =~= Seq::new(16, |i: int| 0u128));
            assert(c@.fpr =~= Seq::new(8, |i: int| 0u64));
            assert(c@.dr =~= Seq::new(8, |i: int| 0u64));
            assert(c@.seg =~= Seq::new(6, |i: int| null_seg()));
        }
        c
    }
}

} // verus!
