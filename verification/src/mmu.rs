//! Memory: the page walk, the translation caches, and the loads, stores and fetches built on them.
use vstd::prelude::*;
use crate::cpu::{
    Cpu, PageFault, TlbEntry, CR4_PCIDE, LAPIC_BASE, LAPIC_END, PF_ERR_PRESENT, PF_ERR_USER,
    PF_ERR_WRITE,
};
use crate::virtio::{VIRTIO_BLK_BASE, VIRTIO_INPUT_END};
#[allow(unused_imports)]
use crate::bits::{is_width, signed_of};
use crate::bits::sign_extend;
#[allow(unused_imports)]
use crate::cpu::{runnable, CpuState};
#[allow(unused_imports)]
use crate::lapic::{lapic_reg, lapic_store};
#[allow(unused_imports)]
use crate::sys::{sys_mmio_read, sys_mmio_write, sys_touch, SysState};
#[allow(unused_imports)]
use crate::virtio::in_window;

verus! {

// ----- physical memory -----

/// The byte at a physical address; beyond RAM it reads zero.
pub open spec fn byte_at(ram: Seq<u8>, a: int) -> u8 {
    if 0 <= a < ram.len() {
        ram[a]
    } else {
        0
    }
}

/// RAM with one byte stored; a store beyond RAM is lost.
pub open spec fn with_byte(ram: Seq<u8>, a: int, v: u8) -> Seq<u8> {
    if 0 <= a < ram.len() {
        ram.update(a, v)
    } else {
        ram
    }
}

/// `n` bytes, the first lowest.
pub open spec fn le_read(ram: Seq<u8>, a: int, n: nat) -> u64
    decreases n,
{
    if n == 0 {
        0
    } else {
        le_read(ram, a, (n - 1) as nat) | ((byte_at(ram, a + n - 1) as u64) << ((8 * (n
            - 1)) as u64))
    }
}

/// RAM with the `n` low bytes of `v` stored, the lowest first.
pub open spec fn le_write(ram: Seq<u8>, a: int, n: nat, v: u64) -> Seq<u8>
    decreases n,
{
    if n == 0 {
        ram
    } else {
        with_byte(
            le_write(ram, a, (n - 1) as nat, v),
            a + n - 1,
            (v >> ((8 * (n - 1)) as u64)) as u8,
        )
    }
}

// ----- translation -----

/// Four-level paging is active: `CR0.PG`, `CR4.PAE` and `EFER.LME`.
pub open spec fn paging_on(s: CpuState) -> bool {
    s.cr0 & 0x8000_0000 != 0 && s.cr4 & 0x20 != 0 && s.efer & 0x100 != 0
}

/// The entry a table holds for an address at a level (3 the top, 0 the last).
pub open spec fn table_entry(ram: Seq<u8>, base: u64, vaddr: u64, level: int) -> u64 {
    let shift = (12 + 9 * level) as u64;
    le_read(ram, (base & 0x000f_ffff_ffff_f000) + ((vaddr >> shift) & 0x1ff) * 8, 8)
}

/// The error of a walk that meets an entry that is not present.
pub open spec fn absent_error(write: bool, user: bool) -> u64 {
    (if write { PF_ERR_WRITE } else { 0u64 }) | (if user { PF_ERR_USER } else { 0u64 })
}

/// A present page: a write to one that is read-only faults in user mode, and in kernel mode where
/// `CR0.WP` is set.
pub open spec fn page_access(s: CpuState, pa: u64, writable: bool, write: bool, user: bool) -> Result<
    u64,
    u64,
> {
    if write && !writable && (user || s.cr0 & 0x1_0000 != 0) {
        Err(PF_ERR_PRESENT | PF_ERR_WRITE | (if user { PF_ERR_USER } else { 0u64 }))
    } else {
        Ok(pa)
    }
}

/// The walk of the page tables: the physical address, or the page-fault error code of the first
/// level that is not present or not writable. A page is writable where every level says so.
#[verifier::opaque]
pub open spec fn page_walk(s: CpuState, vaddr: u64, write: bool, user: bool) -> Result<u64, u64> {
    if !paging_on(s) {
        Ok(vaddr)
    } else {
        let e4 = table_entry(s.ram, s.cr3, vaddr, 3);
        let e3 = table_entry(s.ram, e4, vaddr, 2);
        let e2 = table_entry(s.ram, e3, vaddr, 1);
        let e1 = table_entry(s.ram, e2, vaddr, 0);
        let w4 = e4 & 2 != 0;
        let w3 = w4 && e3 & 2 != 0;
        let w2 = w3 && e2 & 2 != 0;
        let w1 = w2 && e1 & 2 != 0;
        if e4 & 1 == 0 || e3 & 1 == 0 {
            Err(absent_error(write, user))
        } else if e3 & 0x80 != 0 {
            page_access(s, (e3 & 0x000f_ffff_c000_0000) | (vaddr & 0x3fff_ffff), w3, write, user)
        } else if e2 & 1 == 0 {
            Err(absent_error(write, user))
        } else if e2 & 0x80 != 0 {
            page_access(s, (e2 & 0x000f_ffff_ffe0_0000) | (vaddr & 0x1f_ffff), w2, write, user)
        } else if e1 & 1 == 0 {
            Err(absent_error(write, user))
        } else {
            page_access(s, (e1 & 0x000f_ffff_ffff_f000) | (vaddr & 0xfff), w1, write, user)
        }
    }
}

/// The physical address a linear address reads at; one that is not mapped stands for itself.
pub open spec fn translated(s: CpuState, vaddr: u64) -> u64 {
    match page_walk(s, vaddr, false, false) {
        Ok(pa) => pa,
        Err(_) => vaddr,
    }
}

/// The active address space: `CR3[11:0]` where identifiers are in use, else zero.
pub open spec fn pcid_of(s: CpuState) -> u16 {
    if s.cr4 & CR4_PCIDE != 0 {
        (s.cr3 & 0xfff) as u16
    } else {
        0
    }
}

/// The set of the cache an address falls in.
pub open spec fn tlb_set(vaddr: u64) -> int {
    ((vaddr >> 12) & 0x3ff) as int
}

/// The cache answers for an access.
pub open spec fn tlb_hit(s: CpuState, vaddr: u64, write: bool) -> bool {
    let e = s.tlb[tlb_set(vaddr)];
    let pcid = pcid_of(s);
    &&& paging_on(s)
    &&& s.cfg.tlb_cache
    &&& e.gen == s.tlb_gen
    &&& e.pcid == pcid
    &&& e.pgen == s.pcid_gen[pcid as int]
    &&& e.tag == vaddr & !0xfff
    &&& !write || e.writable
}

/// What the cache keeps of a successful walk.
pub open spec fn tlb_fill(s: CpuState, vaddr: u64, pa: u64, write: bool) -> CpuState {
    if paging_on(s) {
        let pcid = pcid_of(s);
        CpuState {
            tlb: s.tlb.update(
                tlb_set(vaddr),
                TlbEntry {
                    tag: vaddr & !0xfff,
                    frame: pa & !0xfff,
                    pcid,
                    gen: s.tlb_gen,
                    pgen: s.pcid_gen[pcid as int],
                    writable: write,
                },
            ),
            ..s
        }
    } else {
        s
    }
}

/// Translate for an access. A fault is latched, and until it is taken the access goes to physical
/// zero, which no device occupies.
#[verifier::opaque]
pub open spec fn translate_access(s: CpuState, vaddr: u64, write: bool, user: bool) -> (
    CpuState,
    u64,
) {
    if s.fault is Some {
        (s, 0)
    } else if tlb_hit(s, vaddr, write) {
        (s, s.tlb[tlb_set(vaddr)].frame | (vaddr & 0xfff))
    } else {
        match page_walk(s, vaddr, write, user) {
            Ok(pa) => (tlb_fill(s, vaddr, pa, write), pa),
            Err(e) => (
                CpuState {
                    fault: Some(PageFault { addr: vaddr, error: e | absent_error(write, user) }),
                    ..s
                },
                0,
            ),
        }
    }
}

// ----- control registers -----

/// Drop every cached translation.
pub open spec fn flushed(s: CpuState) -> CpuState {
    CpuState { tlb_gen: s.tlb_gen.wrapping_add(1), ..s }
}

/// Drop the cached translations of one address space.
pub open spec fn flushed_pcid(s: CpuState, pcid: int) -> CpuState {
    CpuState { pcid_gen: s.pcid_gen.update(pcid, s.pcid_gen[pcid].wrapping_add(1)), ..s }
}

/// Read a control register; those that do not exist read zero.
pub open spec fn cr_read(s: CpuState, idx: int) -> u64 {
    if idx == 0 {
        s.cr0
    } else if idx == 2 {
        s.cr2
    } else if idx == 3 {
        s.cr3
    } else if idx == 4 {
        s.cr4
    } else {
        0
    }
}

/// Write a control register. `CR0` and `CR4` change the paging regime and flush everything. `CR3`
/// flushes the address space it loads, unless its top bit asks not to; without identifiers it
/// flushes everything.
pub open spec fn cr_write(s: CpuState, idx: int, val: u64) -> CpuState {
    if idx == 0 {
        flushed(CpuState { cr0: val, ..s })
    } else if idx == 2 {
        CpuState { cr2: val, ..s }
    } else if idx == 3 {
        let t = CpuState { cr3: val & 0x7fff_ffff_ffff_ffff, ..s };
        if s.cr4 & CR4_PCIDE != 0 {
            if val & 0x8000_0000_0000_0000 == 0 {
                flushed_pcid(t, (val & 0xfff) as int)
            } else {
                t
            }
        } else {
            flushed(t)
        }
    } else if idx == 4 {
        flushed(CpuState { cr4: val, ..s })
    } else {
        s
    }
}

// ----- loads and stores -----

/// Both ends of an access lie on one page.
pub open spec fn one_page(addr: u64, size: u8) -> bool {
    addr >> 12 == addr.wrapping_add((size - 1) as u64) >> 12
}

/// Account a RAM access in the data cache.
pub open spec fn touched(s: CpuState, pa: u64) -> CpuState {
    CpuState { sys: sys_touch(s.sys, pa), ..s }
}

/// `n` bytes read one at a time, each translated by itself.
pub open spec fn read_bytes(s: CpuState, addr: u64, n: nat, user: bool) -> (CpuState, u64)
    decreases n,
{
    if n == 0 {
        (s, 0)
    } else {
        let (t, v) = read_bytes(s, addr, (n - 1) as nat, user);
        let (u, pa) = translate_access(t, addr.wrapping_add((n - 1) as u64), false, user);
        (u, v | ((byte_at(u.ram, pa as int) as u64) << ((8 * (n - 1)) as u64)))
    }
}

/// `n` bytes written one at a time, each translated by itself.
pub open spec fn write_bytes(s: CpuState, addr: u64, n: nat, val: u64, user: bool) -> CpuState
    decreases n,
{
    if n == 0 {
        s
    } else {
        let t = write_bytes(s, addr, (n - 1) as nat, val, user);
        let (u, pa) = translate_access(t, addr.wrapping_add((n - 1) as u64), true, user);
        CpuState { ram: with_byte(u.ram, pa as int, (val >> ((8 * (n - 1)) as u64)) as u8), ..u }
    }
}

/// A load: from a device slot, from the local APIC, or from RAM.
#[verifier::opaque]
pub open spec fn mem_read(s: CpuState, addr: u64, size: u8) -> (CpuState, u64) {
    let user = s.cpl == 3;
    let (t, pa) = translate_access(s, addr, false, user);
    if in_window(pa) {
        (t, sys_mmio_read(t.sys, pa))
    } else if LAPIC_BASE <= pa < LAPIC_END {
        (t, lapic_reg(t.sys.lapic, (pa - LAPIC_BASE) as u32) as u64)
    } else {
        let u = touched(t, pa);
        if one_page(addr, size) {
            (u, le_read(u.ram, pa as int, size as nat))
        } else {
            read_bytes(u, addr, size as nat, user)
        }
    }
}

/// A store: to a device slot, to the local APIC, or to RAM.
#[verifier::opaque]
pub open spec fn mem_write(s: CpuState, addr: u64, size: u8, val: u64) -> CpuState {
    let user = s.cpl == 3;
    let (t, pa) = translate_access(s, addr, true, user);
    if in_window(pa) {
        CpuState { sys: sys_mmio_write(t.sys, pa, val), ..t }
    } else if LAPIC_BASE <= pa < LAPIC_END {
        CpuState {
            sys: SysState {
                lapic: lapic_store(t.sys.lapic, (pa - LAPIC_BASE) as u32, val as u32),
                ..t.sys
            },
            ..t
        }
    } else {
        let u = touched(t, pa);
        if one_page(addr, size) {
            CpuState { ram: le_write(u.ram, pa as int, size as nat, val), ..u }
        } else {
            write_bytes(u, addr, size as nat, val, user)
        }
    }
}

/// The processor's own read of a descriptor table: the walk does not fault.
pub open spec fn virt_read(s: CpuState, vaddr: u64, size: u8) -> u64 {
    le_read(s.ram, (if s.platform { translated(s, vaddr) } else { vaddr }) as int, size as nat)
}

// ----- instruction fetch -----

/// The code-page cache answers for the next byte.
pub open spec fn ifetch_hit(s: CpuState) -> bool {
    let pcid = pcid_of(s);
    &&& s.fault is None
    &&& s.cfg.tlb_cache
    &&& s.ifetch_gen == s.tlb_gen
    &&& s.ifetch_tag == s.rip & !0xfff
    &&& s.ifetch_pcid == pcid
    &&& s.ifetch_pgen == s.pcid_gen[pcid as int]
}

/// What the code-page cache keeps of a translation.
pub open spec fn ifetch_fill(s: CpuState, vaddr: u64, pa: u64) -> CpuState {
    if s.fault is None && paging_on(s) {
        CpuState {
            ifetch_tag: vaddr & !0xfff,
            ifetch_frame: pa & !0xfff,
            ifetch_gen: s.tlb_gen,
            ifetch_pcid: pcid_of(s),
            ifetch_pgen: s.pcid_gen[pcid_of(s) as int],
            ..s
        }
    } else {
        s
    }
}

/// The next instruction byte.
#[verifier::opaque]
pub open spec fn fetch_byte(s: CpuState) -> (CpuState, u8) {
    if ifetch_hit(s) {
        let pa = s.ifetch_frame | (s.rip & 0xfff);
        (CpuState { rip: s.rip.wrapping_add(1), ..s }, byte_at(s.ram, pa as int))
    } else {
        let (t, pa) = translate_access(s, s.rip, false, s.cpl == 3);
        let u = ifetch_fill(t, s.rip, pa);
        (CpuState { rip: s.rip.wrapping_add(1), ..u }, byte_at(u.ram, pa as int))
    }
}

/// The next `n` instruction bytes, the first lowest.
pub open spec fn fetch_bytes(s: CpuState, n: nat) -> (CpuState, u64)
    decreases n,
{
    if n == 0 {
        (s, 0)
    } else {
        let (t, v) = fetch_bytes(s, (n - 1) as nat);
        let (u, b) = fetch_byte(t);
        (u, v | ((b as u64) << ((8 * (n - 1)) as u64)))
    }
}

/// The operand-size immediate: two bytes, or four, sign-extended for a 64-bit operand.
pub open spec fn fetch_imm(s: CpuState, size: u8) -> (CpuState, u64) {
    if size == 2 {
        fetch_bytes(s, 2)
    } else {
        let (t, v) = fetch_bytes(s, 4);
        (t, if size == 8 { signed_of(v, 4) as u64 } else { v })
    }
}

proof fn lemma_walk_bounds(e: u64, vaddr: u64, shift: u64)
    by (bit_vector)
    ensures
        e & 0x000f_ffff_ffff_f000 <= 0x000f_ffff_ffff_f000,
        (vaddr >> shift) & 0x1ff <= 0x1ff,
{
}

/// Small facts of addresses, and of zero.
pub proof fn lemma_set_bounds(vaddr: u64)
    by (bit_vector)
    ensures
        (vaddr >> 12) & 0x3ff < 1024,
        vaddr & 0xfff < 4096,
        (vaddr & 0x7fff_ffff_ffff_ffff) & 0xfff == vaddr & 0xfff,
        (0u64 >> 12) & 0x3ff == 0,
        0u64 & 0xfff == 0,
        1u64 | 2u64 | 0u64 == 0x3u64 | 0u64,
        1u64 | 2u64 | 4u64 == 0x3u64 | 4u64,
{
}

impl Cpu {
    /// The byte at `a + i`, or zero beyond RAM.
    pub fn ram_byte(&self, a: u64, i: u64) -> (b: u8)
        ensures
            b == byte_at(self@.ram, a + i),
    {
        let n: u64 = self.ram.len() as u64;
        if a < n && i < n - a {
            self.ram[(a + i) as usize]
        } else {
            0
        }
    }

    fn set_ram_byte(&mut self, a: u64, i: u64, v: u8)
        ensures
            final(self)@ == (CpuState { ram: with_byte(old(self)@.ram, a + i, v), ..old(self)@ }),
    {
        let n: u64 = self.ram.len() as u64;
        if a < n && i < n - a {
            self.ram[(a + i) as usize] = v;
        }
    }

    /// Whether four-level paging is active.
    pub fn paging(&self) -> (b: bool)
        ensures
            b == paging_on(self@),
    {
        self.cr0 & 0x8000_0000 != 0 && self.cr4 & 0x20 != 0 && self.efer & 0x100 != 0
    }

    /// Translate a linear address without faulting; one that is not mapped stands for itself.
    pub fn translate(&self, vaddr: u64) -> (pa: u64)
        ensures
            pa == translated(self@, vaddr),
    {
        match self.walk(vaddr, false, false) {
            Ok(pa) => pa,
            Err(_) => vaddr,
        }
    }

    /// The entry a table holds for an address at a level.
    pub fn entry(&self, base: u64, vaddr: u64, level: u64) -> (e: u64)
        requires
            level <= 3,
        ensures
            e == table_entry(self@.ram, base, vaddr, level as int),
    {
        let shift: u64 = 12 + 9 * level;
        proof {
            lemma_walk_bounds(base, vaddr, shift);
        }
        self.rd_phys((base & 0x000f_ffff_ffff_f000) + ((vaddr >> shift) & 0x1ff) * 8, 8)
    }

    fn access(&self, pa: u64, writable: bool, write: bool, user: bool) -> (r: Result<u64, u64>)
        ensures
            r == page_access(self@, pa, writable, write, user),
    {
        if write && !writable && (user || self.cr0 & 0x1_0000 != 0) {
            Err(PF_ERR_PRESENT | PF_ERR_WRITE | (if user { PF_ERR_USER } else { 0u64 }))
        } else {
            Ok(pa)
        }
    }

    /// Walk the four-level page tables, honouring 2 MiB and 1 GiB pages.
    pub fn walk(&self, vaddr: u64, write: bool, user: bool) -> (r: Result<u64, u64>)
        ensures
            r == page_walk(self@, vaddr, write, user),
    {
        proof {
            reveal(page_walk);
        }
        if !self.paging() {
            return Ok(vaddr);
        }
        let absent: u64 = (if write { PF_ERR_WRITE } else { 0u64 }) | (if user {
            PF_ERR_USER
        } else {
            0u64
        });
        let e4: u64 = self.entry(self.cr3, vaddr, 3);
        if e4 & 1 == 0 {
            return Err(absent);
        }
        let mut writable: bool = e4 & 2 != 0;
        let e3: u64 = self.entry(e4, vaddr, 2);
        if e3 & 1 == 0 {
            return Err(absent);
        }
        writable = writable && e3 & 2 != 0;
        if e3 & 0x80 != 0 {
            return self.access(
                (e3 & 0x000f_ffff_c000_0000) | (vaddr & 0x3fff_ffff),
                writable,
                write,
                user,
            );
        }
        let e2: u64 = self.entry(e3, vaddr, 1);
        if e2 & 1 == 0 {
            return Err(absent);
        }
        writable = writable && e2 & 2 != 0;
        if e2 & 0x80 != 0 {
            return self.access(
                (e2 & 0x000f_ffff_ffe0_0000) | (vaddr & 0x1f_ffff),
                writable,
                write,
                user,
            );
        }
        let e1: u64 = self.entry(e2, vaddr, 0);
        if e1 & 1 == 0 {
            return Err(absent);
        }
        writable = writable && e1 & 2 != 0;
        self.access((e1 & 0x000f_ffff_ffff_f000) | (vaddr & 0xfff), writable, write, user)
    }

    /// Translate a linear address for the executing core, latching a page fault when the walk fails.
    pub fn translate_acc(&mut self, vaddr: u64, write: bool, user: bool) -> (pa: u64)
        requires
            old(self).wf(),
        ensures
            final(self).wf(),
            (final(self)@, pa) == translate_access(old(self)@, vaddr, write, user),
    {
        proof {
            reveal(translate_access);
            lemma_set_bounds(vaddr);
        }
        if self.fault.is_some() {
            return 0;
        }
        let paging: bool = self.paging();
        let pcid: u16 = self.active_pcid();
        let set: usize = ((vaddr >> 12) & 0x3ff) as usize;
        let page: u64 = vaddr & !0xfff;
        if paging && self.cfg.tlb_cache {
            let e: TlbEntry = self.tlb[set];
            if e.gen == self.tlb_gen && e.pcid == pcid && e.pgen == self.pcid_gen[pcid as usize]
                && e.tag == page && (!write || e.writable) {
                return e.frame | (vaddr & 0xfff);
            }
        }
        match self.walk(vaddr, write, user) {
            Ok(pa) => {
                if paging {
                    let pgen: u64 = self.pcid_gen[pcid as usize];
                    self.tlb[set] =
                    TlbEntry {
                        tag: page,
                        frame: pa & !0xfff,
                        pcid,
                        gen: self.tlb_gen,
                        pgen,
                        writable: write,
                    };
                }
                pa
            },
            Err(e) => {
                let bits: u64 = (if write { PF_ERR_WRITE } else { 0u64 }) | (if user {
                    PF_ERR_USER
                } else {
                    0u64
                });
                self.fault = Some(PageFault { addr: vaddr, error: e | bits });
                0
            },
        }
    }

    /// Flush every cached translation.
    pub fn flush_tlb(&mut self)
        ensures
            final(self)@ == flushed(old(self)@),
    {
        self.tlb_gen = self.tlb_gen.wrapping_add(1);
    }

    /// Flush the cached translations of one address space.
    pub fn flush_pcid(&mut self, pcid: usize)
        requires
            old(self).wf(),
            pcid < 4096,
        ensures
            final(self).wf(),
            final(self)@ == flushed_pcid(old(self)@, pcid as int),
    {
        let g: u64 = self.pcid_gen[pcid].wrapping_add(1);
        self.pcid_gen[pcid] = g;
    }

    /// The active address space.
    pub fn active_pcid(&self) -> (p: u16)
        ensures
            p == pcid_of(self@),
            p < 4096,
    {
        proof {
            lemma_set_bounds(self.cr3);
        }
        if self.cr4 & CR4_PCIDE != 0 {
            (self.cr3 & 0xfff) as u16
        } else {
            0
        }
    }

    /// Read a control register.
    pub fn cr(&self, idx: usize) -> (v: u64)
        ensures
            v == cr_read(self@, idx as int),
    {
        if idx == 0 {
            self.cr0
        } else if idx == 2 {
            self.cr2
        } else if idx == 3 {
            self.cr3
        } else if idx == 4 {
            self.cr4
        } else {
            0
        }
    }

    /// Write a control register.
    pub fn set_cr(&mut self, idx: usize, val: u64)
        requires
            old(self).wf(),
        ensures
            final(self).wf(),
            final(self)@ == cr_write(old(self)@, idx as int, val),
    {
        if idx == 0 {
            self.cr0 = val;
            self.flush_tlb();
        } else if idx == 2 {
            self.cr2 = val;
        } else if idx == 3 {
            proof {
                lemma_set_bounds(val);
            }
            self.cr3 = val & 0x7fff_ffff_ffff_ffff;
            if self.cr4 & CR4_PCIDE != 0 {
                if val & 0x8000_0000_0000_0000 == 0 {
                    self.flush_pcid((val & 0xfff) as usize);
                }
            } else {
                self.flush_tlb();
            }
        } else if idx == 4 {
            self.cr4 = val;
            self.flush_tlb();
        }
    }

    /// A raw physical read.
    pub fn rd_phys(&self, addr: u64, size: u8) -> (v: u64)
        requires
            size <= 8,
        ensures
            v == le_read(self@.ram, addr as int, size as nat),
    {
        let mut v: u64 = 0;
        let mut i: u8 = 0;
        while i < size
            invariant
                i <= size <= 8,
                v == le_read(self@.ram, addr as int, i as nat),
            decreases size - i,
        {
            v = v | ((self.ram_byte(addr, i as u64) as u64) << (8 * i as u64));
            i = i + 1;
        }
        v
    }

    /// A raw physical write.
    pub fn wr_phys(&mut self, addr: u64, size: u8, val: u64)
        requires
            size <= 8,
            old(self).wf(),
        ensures
            final(self).wf(),
            final(self)@ == (CpuState {
                ram: le_write(old(self)@.ram, addr as int, size as nat, val),
                ..old(self)@
            }),
    {
        let mut i: u8 = 0;
        while i < size
            invariant
                i <= size <= 8,
                self.wf(),
                self@ == (CpuState {
                    ram: le_write(old(self)@.ram, addr as int, i as nat, val),
                    ..old(self)@
                }),
            decreases size - i,
        {
            self.set_ram_byte(addr, i as u64, (val >> (8 * i as u64)) as u8);
            i = i + 1;
        }
    }

    /// A read of a descriptor table the processor makes on its own behalf.
    pub fn rd_virt(&self, vaddr: u64, size: u8) -> (v: u64)
        requires
            size <= 8,
        ensures
            v == virt_read(self@, vaddr, size),
    {
        let pa: u64 = if self.platform { self.translate(vaddr) } else { vaddr };
        self.rd_phys(pa, size)
    }

    /// Load `size` bytes.
    pub fn rd(&mut self, addr: u64, size: u8) -> (v: u64)
        requires
            old(self).wf(),
            is_width(size),
        ensures
            final(self).wf(),
            (final(self)@, v) == mem_read(old(self)@, addr, size),
    {
        proof {
            reveal(mem_read);
        }
        let user: bool = self.cpl == 3;
        let pa: u64 = self.translate_acc(addr, false, user);
        if VIRTIO_BLK_BASE <= pa && pa < VIRTIO_INPUT_END {
            return self.sys.mmio_read(pa);
        }
        if LAPIC_BASE <= pa && pa < LAPIC_END {
            return self.sys.lapic.read((pa - LAPIC_BASE) as u32) as u64;
        }
        self.sys.touch(pa);
        let last: u64 = addr.wrapping_add((size - 1) as u64);
        if addr >> 12 == last >> 12 {
            return self.rd_phys(pa, size);
        }
        let ghost s0 = self@;
        let mut v: u64 = 0;
        let mut i: u8 = 0;
        while i < size
            invariant
                i <= size <= 8,
                self.wf(),
                (self@, v) == read_bytes(s0, addr, i as nat, user),
            decreases size - i,
        {
            let p: u64 = self.translate_acc(addr.wrapping_add(i as u64), false, user);
            v = v | ((self.ram_byte(p, 0) as u64) << (8 * i as u64));
            i = i + 1;
        }
        v
    }

    /// Store the low `size` bytes of `val`.
    pub fn wr(&mut self, addr: u64, size: u8, val: u64)
        requires
            old(self).wf(),
            is_width(size),
        ensures
            final(self).wf(),
            final(self)@ == mem_write(old(self)@, addr, size, val),
    {
        proof {
            reveal(mem_write);
        }
        let user: bool = self.cpl == 3;
        let pa: u64 = self.translate_acc(addr, true, user);
        if VIRTIO_BLK_BASE <= pa && pa < VIRTIO_INPUT_END {
            self.sys.mmio_write(pa, val);
            return;
        }
        if LAPIC_BASE <= pa && pa < LAPIC_END {
            self.sys.lapic.write((pa - LAPIC_BASE) as u32, val as u32);
            return;
        }
        self.sys.touch(pa);
        let last: u64 = addr.wrapping_add((size - 1) as u64);
        if addr >> 12 == last >> 12 {
            self.wr_phys(pa, size, val);
            return;
        }
        let ghost s0 = self@;
        let mut i: u8 = 0;
        while i < size
            invariant
                i <= size <= 8,
                self.wf(),
                self@ == write_bytes(s0, addr, i as nat, val, user),
            decreases size - i,
        {
            let p: u64 = self.translate_acc(addr.wrapping_add(i as u64), true, user);
            self.set_ram_byte(p, 0, (val >> (8 * i as u64)) as u8);
            i = i + 1;
        }
    }

    /// Fetch the next instruction byte.
    #[verifier::spinoff_prover]
    #[verifier::rlimit(40)]
    pub fn fetch_u8(&mut self) -> (b: u8)
        requires
            old(self).wf(),
        ensures
            final(self).wf(),
            (final(self)@, b) == fetch_byte(old(self)@),
    {
        proof {
            reveal(fetch_byte);
        }
        let vaddr: u64 = self.rip;
        if self.fault.is_none() && self.cfg.tlb_cache {
            let pcid: u16 = self.active_pcid();
            if self.ifetch_gen == self.tlb_gen && self.ifetch_tag == vaddr & !0xfff
                && self.ifetch_pcid == pcid && self.ifetch_pgen == self.pcid_gen[pcid as usize] {
                let p: u64 = self.ifetch_frame | (vaddr & 0xfff);
                let b: u8 = self.ram_byte(p, 0);
                self.rip = vaddr.wrapping_add(1);
                return b;
            }
        }
        let user: bool = self.cpl == 3;
        let pa: u64 = self.translate_acc(vaddr, false, user);
        if self.fault.is_none() && self.paging() {
            let pcid: u16 = self.active_pcid();
            self.ifetch_tag = vaddr & !0xfff;
            self.ifetch_frame = pa & !0xfff;
            self.ifetch_gen = self.tlb_gen;
            self.ifetch_pcid = pcid;
            self.ifetch_pgen = self.pcid_gen[pcid as usize];
        }
        let b: u8 = self.ram_byte(pa, 0);
        self.rip = vaddr.wrapping_add(1);
        b
    }

    /// Fetch the next `n` instruction bytes.
    pub fn fetch(&mut self, n: u8) -> (v: u64)
        requires
            old(self).wf(),
            n <= 8,
        ensures
            final(self).wf(),
            (final(self)@, v) == fetch_bytes(old(self)@, n as nat),
    {
        let mut v: u64 = 0;
        let mut i: u8 = 0;
        while i < n
            invariant
                i <= n <= 8,
                self.wf(),
                (self@, v) == fetch_bytes(old(self)@, i as nat),
            decreases n - i,
        {
            let b: u8 = self.fetch_u8();
            v = v | ((b as u64) << (8 * i as u64));
            i = i + 1;
        }
        v
    }

    /// Fetch the operand-size immediate.
    pub fn fetch_imm_z(&mut self, size: u8) -> (v: u64)
        requires
            old(self).wf(),
        ensures
            final(self).wf(),
            (final(self)@, v) == fetch_imm(old(self)@, size),
    {
        if size == 2 {
            self.fetch(2)
        } else {
            let v: u64 = self.fetch(4);
            if size == 8 {
                sign_extend(v, 4) as u64
            } else {
                v
            }
        }
    }
}

/// Translation changes the translation cache and the latched fault, and nothing else.
pub proof fn law_translate_keeps(s: CpuState, vaddr: u64, write: bool, user: bool)
    requires
        runnable(s),
    ensures
        ({
            let t = translate_access(s, vaddr, write, user).0;
            t == CpuState { tlb: t.tlb, fault: t.fault, ..s } && t.tlb.len() == s.tlb.len()
        }),
{
    reveal(translate_access);
    lemma_set_bounds(vaddr);
}

} // verus!
