//! The 64-bit Linux boot protocol: the kernel image laid out in memory, the zero page with its
//! memory map, a flat descriptor table, identity page tables, and the machine in long mode at the
//! entry point.
use vstd::prelude::*;
#[allow(unused_imports)]
use vstd::string::*;
use crate::cpu::{Cpu, Seg, CS, DS, ES, FS, GS, LAPIC_END, RSI, SS};
use crate::virtio::VIRTIO_BLK_BASE;
#[allow(unused_imports)]
use crate::cpu::{reset_state, CpuState};
#[allow(unused_imports)]
use crate::kappa::put_at;
#[allow(unused_imports)]
use crate::mmu::le_write;
#[allow(unused_imports)]
use crate::snap::{dec_u16, dec_u32, dec_u64};
#[allow(unused_imports)]
use crate::sys::SysState;

verus! {

/// The zero page.
pub const ZERO_PAGE: u64 = 0x7000;
/// The command line.
pub const CMDLINE_ADDR: u64 = 0x2_0000;
/// The boot descriptor table.
pub const BOOT_GDT: u64 = 0x500;
/// The boot page tables.
pub const BOOT_PML4: u64 = 0x9000;
pub const BOOT_PDPT: u64 = 0xa000;
/// The framebuffer, in pixels and bytes.
pub const FB_W: usize = 1280;
pub const FB_H: usize = 800;
pub const FB_SIZE: usize = 4_096_000;

// ----- the kernel image -----

/// Where the `i`-th program header stands.
pub open spec fn ph_at(elf: Seq<u8>, i: int) -> int {
    dec_u64(elf, 32) + i * dec_u16(elf, 54)
}

/// A loadable segment: the file offset, the physical address, and the sizes in file and memory.
#[derive(Clone, Copy, PartialEq, Eq, Structural, Debug)]
pub struct Segment {
    pub offset: u64,
    pub paddr: u64,
    pub filesz: u64,
    pub memsz: u64,
}

/// The segment of a program header.
pub open spec fn segment_at(elf: Seq<u8>, ph: int) -> Segment {
    Segment {
        offset: dec_u64(elf, ph + 8),
        paddr: dec_u64(elf, ph + 24),
        filesz: dec_u64(elf, ph + 32),
        memsz: dec_u64(elf, ph + 40),
    }
}

/// The bytes of the segment that the file has.
pub open spec fn file_bytes(elf: Seq<u8>, g: Segment) -> int {
    if g.filesz <= elf.len() - g.offset {
        g.filesz as int
    } else {
        elf.len() - g.offset
    }
}

/// The segment starts in the file and fits in memory.
pub open spec fn segment_ok(elf: Seq<u8>, g: Segment, ram: int) -> bool {
    g.offset <= elf.len() && g.paddr + g.memsz <= ram && file_bytes(elf, g) <= g.memsz
}

/// The `i`-th program header is in the file, and what it loads fits.
pub open spec fn ph_ok(elf: Seq<u8>, i: int, ram: int) -> bool {
    let ph = ph_at(elf, i);
    &&& ph + 4 <= elf.len()
    &&& dec_u32(elf, ph) == 1 ==> ph + 48 <= elf.len() && segment_ok(
        elf,
        segment_at(elf, ph),
        ram,
    )
}

/// The image is an executable whose segments fit in memory.
pub open spec fn elf_ok(elf: Seq<u8>, ram: int) -> bool {
    &&& elf.len() >= 58
    &&& elf[0] == 0x7f && elf[1] == 0x45 && elf[2] == 0x4c && elf[3] == 0x46
    &&& forall|i: int| 0 <= i < dec_u16(elf, 56) ==> #[trigger] ph_ok(elf, i, ram)
}

/// Memory with a segment laid out: its bytes, then zeros.
pub open spec fn segment_loaded(ram: Seq<u8>, elf: Seq<u8>, g: Segment) -> Seq<u8> {
    let n = file_bytes(elf, g);
    Seq::new(
        ram.len(),
        |k: int|
            if g.paddr <= k < g.paddr + n {
                elf[g.offset + k - g.paddr]
            } else if g.paddr + n <= k < g.paddr + g.memsz {
                0
            } else {
                ram[k]
            },
    )
}

/// Memory with the first `n` program headers' segments laid out.
pub open spec fn elf_loaded(ram: Seq<u8>, elf: Seq<u8>, n: nat) -> Seq<u8>
    decreases n,
{
    if n == 0 {
        ram
    } else {
        let r = elf_loaded(ram, elf, (n - 1) as nat);
        let ph = ph_at(elf, n - 1);
        if dec_u32(elf, ph) == 1 {
            segment_loaded(r, elf, segment_at(elf, ph))
        } else {
            r
        }
    }
}

// ----- tables in memory -----

/// Rows of values written at offsets from a base, each of so many bytes.
pub open spec fn rows_written(ram: Seq<u8>, base: u64, t: Seq<(u64, u8, u64)>, n: nat) -> Seq<u8>
    decreases n,
{
    if n == 0 {
        ram
    } else {
        let row = t[n - 1];
        le_write(
            rows_written(ram, base, t, (n - 1) as nat),
            base + row.0,
            row.1 as nat,
            row.2,
        )
    }
}

/// The setup header: the signature and version, the loader, the command line; no initial ramdisk.
pub open spec fn header_rows() -> Seq<(u64, u8, u64)> {
    seq![
        (0x1f1, 1, 0),
        (0x202, 4, 0x5372_6448),
        (0x206, 2, 0x020f),
        (0x210, 1, 0xff),
        (0x211, 1, 0x81),
        (0x228, 4, CMDLINE_ADDR),
        (0x238, 4, 0x800),
        (0x218, 4, 0),
        (0x21c, 4, 0),
    ]
}

/// The screen: a linear framebuffer of 32-bit pixels.
pub open spec fn screen_rows(fb: u64) -> Seq<(u64, u8, u64)> {
    seq![
        (0x0f, 1, 0x70),
        (0x12, 2, FB_W as u64),
        (0x14, 2, FB_H as u64),
        (0x16, 2, 32),
        (0x18, 4, fb),
        (0x1c, 4, FB_SIZE as u64),
        (0x24, 2, 5120),
        (0x26, 1, 8),
        (0x27, 1, 16),
        (0x28, 1, 8),
        (0x29, 1, 8),
        (0x2a, 1, 8),
        (0x2b, 1, 0),
        (0x2c, 1, 8),
        (0x2d, 1, 24),
        (0x3a, 4, fb >> 32),
    ]
}

/// Where the framebuffer of a memory of that size starts: at the top.
pub open spec fn fb_base_of(ram: u64) -> u64 {
    if ram >= FB_SIZE {
        (ram - FB_SIZE) as u64
    } else {
        0
    }
}

/// Where main memory ends: at the device windows.
pub open spec fn main_end(ram: u64) -> u64 {
    if ram < VIRTIO_BLK_BASE {
        ram
    } else {
        VIRTIO_BLK_BASE
    }
}

/// Where usable main memory ends: at the framebuffer.
pub open spec fn main_top(ram: u64) -> u64 {
    if main_end(ram) < fb_base_of(ram) {
        main_end(ram)
    } else {
        fb_base_of(ram)
    }
}

/// The memory map: start, size, and kind (1 usable, 2 reserved). The framebuffer is reserved
/// wherever it lies.
pub open spec fn memory_map(ram: u64) -> Seq<(u64, u64, u32)> {
    let fb = fb_base_of(ram);
    let top = main_top(ram);
    let low = seq![
        (0u64, 0x9_fc00u64, 1u32),
        (0x9_fc00, 0x400, 2),
        (0xf_0000, 0x1_0000, 2),
        (0x10_0000, (if top >= 0x10_0000 { top - 0x10_0000 } else { 0 }) as u64, 1),
    ];
    let framed = if fb >= top && fb + FB_SIZE <= main_end(ram) {
        low.push((fb, FB_SIZE as u64, 2))
    } else {
        low
    };
    let windows = framed.push((VIRTIO_BLK_BASE, (LAPIC_END - VIRTIO_BLK_BASE) as u64, 2));
    if ram > 0x1_0000_0000 {
        let cut = if fb > 0x1_0000_0000 { fb } else { 0x1_0000_0000 };
        windows.push((0x1_0000_0000, (cut - 0x1_0000_0000) as u64, 1)).push(
            (cut, (ram - cut) as u64, 2),
        )
    } else {
        windows
    }
}

/// The rows of the first `n` entries of a memory map.
pub open spec fn map_rows(m: Seq<(u64, u64, u32)>, n: nat) -> Seq<(u64, u8, u64)>
    decreases n,
{
    if n == 0 {
        Seq::empty()
    } else {
        let off = (0x2d0 + 20 * (n - 1)) as u64;
        let e = m[n - 1];
        map_rows(m, (n - 1) as nat).push((off, 8, e.0)).push(((off + 8) as u64, 8, e.1)).push(
            ((off + 16) as u64, 4, e.2 as u64),
        )
    }
}

/// The rows of the zero page.
pub open spec fn zero_page_rows(ram: u64) -> Seq<(u64, u8, u64)> {
    let m = memory_map(ram);
    header_rows() + screen_rows(fb_base_of(ram)) + seq![(0x1e8u64, 1u8, m.len() as u64)] + map_rows(
        m,
        m.len(),
    )
}

/// The boot descriptors: null, 64-bit code, flat data.
pub open spec fn gdt_rows() -> Seq<(u64, u8, u64)> {
    seq![(0, 8, 0), (0x10, 8, 0x00af_9b00_0000_ffff), (0x18, 8, 0x00cf_9300_0000_ffff)]
}

/// Memory with the first `n` gigabytes mapped to themselves.
pub open spec fn tables_written(ram: Seq<u8>, n: nat) -> Seq<u8>
    decreases n,
{
    if n == 0 {
        le_write(ram, BOOT_PML4 as int, 8, BOOT_PDPT | 0x3)
    } else {
        le_write(
            tables_written(ram, (n - 1) as nat),
            BOOT_PDPT + 8 * (n - 1),
            8,
            (((n - 1) as u64) << 30) | 0x83,
        )
    }
}

// ----- booting -----

/// There is room for the legacy region, the command line and the kernel.
pub open spec fn bootable(ram: int, kernel: Seq<u8>, cmdline: Seq<u8>) -> bool {
    ram > 0x10_0000 && ram >= CMDLINE_ADDR + cmdline.len() + 1 && elf_ok(kernel, ram)
}

/// Memory at the kernel's entry.
#[verifier::opaque]
pub open spec fn boot_ram(ram: nat, kernel: Seq<u8>, cmdline: Seq<u8>) -> Seq<u8> {
    let r0 = Seq::new(ram, |i: int| 0u8);
    let r1 = elf_loaded(r0, kernel, dec_u16(kernel, 56) as nat);
    let r2 = put_at(r1, CMDLINE_ADDR as int, cmdline.push(0u8));
    let rows = zero_page_rows(ram as u64);
    let r3 = rows_written(r2, ZERO_PAGE, rows, rows.len());
    let r4 = rows_written(r3, BOOT_GDT, gdt_rows(), 3);
    tables_written(r4, 512)
}

/// A flat segment.
pub open spec fn flat_seg(selector: u16, long: bool) -> Seg {
    Seg { selector, base: 0, long }
}

/// The machine at the kernel's entry: long mode, flat segments, interrupts off, the zero page in
/// `RSI`.
pub open spec fn boot_state(
    ram: nat,
    kernel: Seq<u8>,
    cmdline: Seq<u8>,
    disk: Option<Seq<u8>>,
) -> CpuState {
    let s = reset_state(boot_ram(ram, kernel, cmdline));
    CpuState {
        cr3: BOOT_PML4,
        cr4: 0x20,
        efer: 0x500,
        cr0: 0x8000_0001,
        seg: seq![
            flat_seg(0x18, false),
            flat_seg(0x10, true),
            flat_seg(0x18, false),
            flat_seg(0x18, false),
            flat_seg(0x18, false),
            flat_seg(0x18, false),
        ],
        r: s.r.update(6, ZERO_PAGE),
        rip: dec_u64(kernel, 24),
        rflags: 0x2,
        cpl: 0,
        sys: SysState { gdtr: (BOOT_GDT, 0x17), disk, ..s.sys },
        ..s
    }
}

// ----- the executable part -----

fn rd16(b: &[u8], o: usize) -> (v: u16)
    requires
        o + 2 <= b@.len(),
    ensures
        v == dec_u16(b@, o as int),
{
    let _n: usize = b.len();
    (b[o] as u16) | ((b[o + 1] as u16) << 8)
}

fn rd32(b: &[u8], o: usize) -> (v: u32)
    requires
        o + 4 <= b@.len(),
    ensures
        v == dec_u32(b@, o as int),
{
    let _n: usize = b.len();
    (b[o] as u32) | ((b[o + 1] as u32) << 8) | ((b[o + 2] as u32) << 16) | ((b[o + 3] as u32) << 24)
}

fn rd64(b: &[u8], o: usize) -> (v: u64)
    requires
        o + 8 <= b@.len(),
    ensures
        v == dec_u64(b@, o as int),
{
    let _n: usize = b.len();
    (b[o] as u64) | ((b[o + 1] as u64) << 8) | ((b[o + 2] as u64) << 16) | ((b[o + 3] as u64) << 24)
        | ((b[o + 4] as u64) << 32) | ((b[o + 5] as u64) << 40) | ((b[o + 6] as u64) << 48) | ((b[o
        + 7] as u64) << 56)
}

proof fn lemma_ph_bounds(i: int, e: int)
    by (nonlinear_arith)
    requires
        0 <= i <= 0xffff,
        0 <= e <= 0xffff,
    ensures
        0 <= i * e <= 0xfffe_0001,
{
}

/// Where the `i`-th program header stands, if that is in the file with so many bytes behind it.
fn ph_offset(elf: &[u8], i: u16) -> (r: Option<usize>)
    requires
        elf@.len() >= 58,
    ensures
        match r {
            Some(p) => p == ph_at(elf@, i as int) && p + 4 <= elf@.len(),
            None => ph_at(elf@, i as int) + 4 > elf@.len(),
        },
{
    let n: usize = elf.len();
    proof {
        lemma_ph_bounds(i as int, dec_u16(elf@, 54) as int);
    }
    let p: u128 = rd64(elf, 32) as u128 + i as u128 * rd16(elf, 54) as u128;
    if p + 4 <= n as u128 {
        Some(p as usize)
    } else {
        None
    }
}

fn read_segment(elf: &[u8], ph: usize) -> (g: Segment)
    requires
        ph + 48 <= elf@.len(),
    ensures
        g == segment_at(elf@, ph as int),
{
    let _n: usize = elf.len();
    Segment {
        offset: rd64(elf, ph + 8),
        paddr: rd64(elf, ph + 24),
        filesz: rd64(elf, ph + 32),
        memsz: rd64(elf, ph + 40),
    }
}

fn segment_fits(elf: &[u8], g: Segment, ram: usize) -> (b: bool)
    ensures
        b == segment_ok(elf@, g, ram as int),
{
    let n: u64 = elf.len() as u64;
    if g.offset > n {
        return false;
    }
    let have: u64 = if g.filesz <= n - g.offset { g.filesz } else { n - g.offset };
    g.paddr <= ram as u64 && g.memsz <= ram as u64 - g.paddr && have <= g.memsz
}

fn header_fits(elf: &[u8], i: u16, ram: usize) -> (b: bool)
    requires
        elf@.len() >= 58,
    ensures
        b == ph_ok(elf@, i as int, ram as int),
{
    match ph_offset(elf, i) {
        None => false,
        Some(p) => {
            if rd32(elf, p) != 1 {
                return true;
            }
            if elf.len() - p < 48 {
                return false;
            }
            segment_fits(elf, read_segment(elf, p), ram)
        },
    }
}

/// The image is an executable whose segments fit in memory of a size.
pub fn elf_fits(elf: &[u8], ram: usize) -> (b: bool)
    ensures
        b == elf_ok(elf@, ram as int),
{
    if elf.len() < 58 {
        return false;
    }
    if !(elf[0] == 0x7f && elf[1] == 0x45 && elf[2] == 0x4c && elf[3] == 0x46) {
        return false;
    }
    let n: u16 = rd16(elf, 56);
    let mut i: u16 = 0;
    while i < n
        invariant
            i <= n,
            n == dec_u16(elf@, 56),
            elf@.len() >= 58,
            forall|k: int| 0 <= k < i ==> #[trigger] ph_ok(elf@, k, ram as int),
        decreases n - i,
    {
        if !header_fits(elf, i, ram) {
            assert(!ph_ok(elf@, i as int, ram as int));
            return false;
        }
        i = i + 1;
    }
    true
}

/// A machine with so much memory can boot the kernel with the command line.
pub fn can_boot(ram_bytes: usize, kernel: &[u8], cmdline: &str) -> (b: bool)
    ensures
        b == bootable(ram_bytes as int, kernel@, cmdline.spec_bytes()),
{
    let n: usize = cmdline.as_bytes().len();
    ram_bytes > 0x10_0000 && n < ram_bytes - 0x2_0000 && elf_fits(
        kernel,
        ram_bytes,
    )
}

fn copy_in(ram: &mut Vec<u8>, at: usize, src: &[u8], from: usize, n: usize)
    requires
        at + n <= old(ram)@.len(),
        from + n <= src@.len(),
    ensures
        final(ram)@.len() == old(ram)@.len(),
        forall|k: int|
            0 <= k < old(ram)@.len() ==> final(ram)@[k] == (if at <= k < at + n {
                src@[from + k - at]
            } else {
                old(ram)@[k]
            }),
{
    let total: usize = ram.len();
    let _len: usize = src.len();
    let mut i: usize = 0;
    while i < n
        invariant
            i <= n,
            ram@.len() == total,
            total == old(ram)@.len(),
            at + n <= total,
            from + n <= src@.len(),
            src@.len() == _len,
            forall|k: int| 0 <= k < total ==> ram@[k] == (if at <= k < at + i {
                src@[from + k - at]
            } else {
                old(ram)@[k]
            }),
        decreases n - i,
    {
        ram[at + i] = src[from + i];
        i = i + 1;
    }
}

fn zero_out(ram: &mut Vec<u8>, at: usize, to: usize)
    requires
        at <= to <= old(ram)@.len(),
    ensures
        final(ram)@.len() == old(ram)@.len(),
        forall|k: int|
            0 <= k < old(ram)@.len() ==> final(ram)@[k] == (if at <= k < to {
                0
            } else {
                old(ram)@[k]
            }),
{
    let mut i: usize = at;
    while i < to
        invariant
            at <= i <= to <= ram@.len(),
            ram@.len() == old(ram)@.len(),
            forall|k: int| 0 <= k < ram@.len() ==> ram@[k] == (if at <= k < i {
                0
            } else {
                old(ram)@[k]
            }),
        decreases to - i,
    {
        ram[i] = 0;
        i = i + 1;
    }
}

fn load_segment(ram: &mut Vec<u8>, elf: &[u8], g: Segment)
    requires
        segment_ok(elf@, g, old(ram)@.len() as int),
    ensures
        final(ram)@ == segment_loaded(old(ram)@, elf@, g),
{
    let total: usize = ram.len();
    let len: usize = elf.len();
    let left: u64 = len as u64 - g.offset;
    let n: usize = (if g.filesz <= left { g.filesz } else { left }) as usize;
    let at: usize = g.paddr as usize;
    let end: usize = (g.paddr + g.memsz) as usize;
    copy_in(ram, at, elf, g.offset as usize, n);
    zero_out(ram, at + n, end);
    assert(ram@ =~= segment_loaded(old(ram)@, elf@, g));
}

/// Loading keeps the size of memory.
pub proof fn lemma_loaded_len(ram: Seq<u8>, elf: Seq<u8>, n: nat)
    ensures
        elf_loaded(ram, elf, n).len() == ram.len(),
    decreases n,
{
    if n > 0 {
        lemma_loaded_len(ram, elf, (n - 1) as nat);
    }
}

/// Lay out the segments of a kernel image. The result is the entry point.
pub fn load_elf64(ram: &mut Vec<u8>, elf: &[u8]) -> (entry: u64)
    requires
        elf_ok(elf@, old(ram)@.len() as int),
    ensures
        final(ram)@ == elf_loaded(old(ram)@, elf@, dec_u16(elf@, 56) as nat),
        entry == dec_u64(elf@, 24),
{
    let n: u16 = rd16(elf, 56);
    let mut i: u16 = 0;
    while i < n
        invariant
            i <= n,
            n == dec_u16(elf@, 56),
            elf_ok(elf@, old(ram)@.len() as int),
            ram@.len() == old(ram)@.len(),
            ram@ == elf_loaded(old(ram)@, elf@, i as nat),
        decreases n - i,
    {
        assert(ph_ok(elf@, i as int, old(ram)@.len() as int));
        match ph_offset(elf, i) {
            Some(p) => {
                if rd32(elf, p) == 1 {
                    load_segment(ram, elf, read_segment(elf, p));
                }
            },
            None => {},
        }
        i = i + 1;
    }
    rd64(elf, 24)
}

fn push_rows(o: &mut Vec<(u64, u8, u64)>, rows: &[(u64, u8, u64)])
    ensures
        final(o)@ == old(o)@ + rows@,
{
    let mut i: usize = 0;
    while i < rows.len()
        invariant
            i <= rows@.len(),
            o@ == old(o)@ + rows@.take(i as int),
        decreases rows@.len() - i,
    {
        o.push(rows[i]);
        assert(rows@.take(i + 1) =~= rows@.take(i as int).push(rows@[i as int]));
        assert(o@ =~= old(o)@ + rows@.take(i + 1));
        i = i + 1;
    }
    assert(rows@.take(rows@.len() as int) =~= rows@);
}

/// The base of the framebuffer.
fn framebuffer_base(ram: u64) -> (fb: u64)
    ensures
        fb == fb_base_of(ram),
{
    if ram >= FB_SIZE as u64 {
        ram - FB_SIZE as u64
    } else {
        0
    }
}

/// The memory map of a machine with so much memory.
pub fn build_memory_map(ram: u64) -> (m: Vec<(u64, u64, u32)>)
    ensures
        m@ == memory_map(ram),
        m@.len() <= 8,
{
    let fb: u64 = framebuffer_base(ram);
    let end: u64 = if ram < VIRTIO_BLK_BASE { ram } else { VIRTIO_BLK_BASE };
    let top: u64 = if end < fb { end } else { fb };
    let mut m: Vec<(u64, u64, u32)> = Vec::new();
    m.push((0, 0x9_fc00, 1));
    m.push((0x9_fc00, 0x400, 2));
    m.push((0xf_0000, 0x1_0000, 2));
    m.push((0x10_0000, if top >= 0x10_0000 { top - 0x10_0000 } else { 0 }, 1));
    if fb >= top && fb <= end && FB_SIZE as u64 <= end - fb {
        m.push((fb, FB_SIZE as u64, 2));
    }
    m.push((VIRTIO_BLK_BASE, LAPIC_END - VIRTIO_BLK_BASE, 2));
    if ram > 0x1_0000_0000 {
        let cut: u64 = if fb > 0x1_0000_0000 { fb } else { 0x1_0000_0000 };
        m.push((0x1_0000_0000, cut - 0x1_0000_0000, 1));
        m.push((cut, ram - cut, 2));
    }
    assert(m@ =~= memory_map(ram));
    m
}

fn push_map(o: &mut Vec<(u64, u8, u64)>, m: &Vec<(u64, u64, u32)>)
    requires
        m@.len() <= 8,
    ensures
        final(o)@ == old(o)@ + map_rows(m@, m@.len()),
{
    let mut i: usize = 0;
    assert(o@ =~= old(o)@ + map_rows(m@, 0));
    while i < m.len()
        invariant
            i <= m@.len() <= 8,
            o@ == old(o)@ + map_rows(m@, i as nat),
        decreases m@.len() - i,
    {
        let off: u64 = 0x2d0 + 20 * i as u64;
        let e: (u64, u64, u32) = m[i];
        o.push((off, 8, e.0));
        o.push((off + 8, 8, e.1));
        o.push((off + 16, 4, e.2 as u64));
        assert(o@ =~= old(o)@ + map_rows(m@, (i + 1) as nat));
        i = i + 1;
    }
}

fn build_zero_page(ram: u64) -> (t: Vec<(u64, u8, u64)>)
    ensures
        t@ == zero_page_rows(ram),
{
    let fb: u64 = framebuffer_base(ram);
    let header: [(u64, u8, u64); 9] = [
        (0x1f1, 1, 0),
        (0x202, 4, 0x5372_6448),
        (0x206, 2, 0x020f),
        (0x210, 1, 0xff),
        (0x211, 1, 0x81),
        (0x228, 4, CMDLINE_ADDR),
        (0x238, 4, 0x800),
        (0x218, 4, 0),
        (0x21c, 4, 0),
    ];
    assert(header@ =~= header_rows());
    let screen: [(u64, u8, u64); 16] = [
        (0x0f, 1, 0x70),
        (0x12, 2, FB_W as u64),
        (0x14, 2, FB_H as u64),
        (0x16, 2, 32),
        (0x18, 4, fb),
        (0x1c, 4, FB_SIZE as u64),
        (0x24, 2, 5120),
        (0x26, 1, 8),
        (0x27, 1, 16),
        (0x28, 1, 8),
        (0x29, 1, 8),
        (0x2a, 1, 8),
        (0x2b, 1, 0),
        (0x2c, 1, 8),
        (0x2d, 1, 24),
        (0x3a, 4, fb >> 32),
    ];
    assert(screen@ =~= screen_rows(fb));
    let m: Vec<(u64, u64, u32)> = build_memory_map(ram);
    let mut t: Vec<(u64, u8, u64)> = Vec::new();
    push_rows(&mut t, &header);
    push_rows(&mut t, &screen);
    t.push((0x1e8, 1, m.len() as u64));
    push_map(&mut t, &m);
    assert(t@ =~= zero_page_rows(ram));
    t
}

impl Cpu {
    fn write_rows(&mut self, base: u64, t: &[(u64, u8, u64)])
        requires
            old(self).wf(),
            forall|i: int|
                0 <= i < t@.len() ==> (#[trigger] t@[i]).1 <= 8 && base + t@[i].0 <= u64::MAX,
        ensures
            final(self).wf(),
            final(self)@ == (CpuState {
                ram: rows_written(old(self)@.ram, base, t@, t@.len()),
                ..old(self)@
            }),
    {
        let mut i: usize = 0;
        while i < t.len()
            invariant
                i <= t@.len(),
                self.wf(),
                forall|k: int|
                    0 <= k < t@.len() ==> (#[trigger] t@[k]).1 <= 8 && base + t@[k].0 <= u64::MAX,
                self@ == (CpuState {
                    ram: rows_written(old(self)@.ram, base, t@, i as nat),
                    ..old(self)@
                }),
            decreases t@.len() - i,
        {
            let row: (u64, u8, u64) = t[i];
            assert(t@[i as int].1 <= 8);
            self.wr_phys(base + row.0, row.1, row.2);
            i = i + 1;
        }
    }

    /// Build the zero page of a machine with `ram_bytes` of memory: the setup header, the screen and
    /// the memory map.
    pub fn build_boot_params(&mut self, ram_bytes: u64)
        requires
            old(self).wf(),
        ensures
            final(self).wf(),
            final(self)@ == (CpuState {
                ram: rows_written(
                    old(self)@.ram,
                    ZERO_PAGE,
                    zero_page_rows(ram_bytes),
                    zero_page_rows(ram_bytes).len(),
                ),
                ..old(self)@
            }),
    {
        let t: Vec<(u64, u8, u64)> = build_zero_page(ram_bytes);
        proof {
            lemma_rows_small(ram_bytes);
        }
        self.write_rows(ZERO_PAGE, t.as_slice());
    }

    fn build_boot_gdt(&mut self)
        requires
            old(self).wf(),
        ensures
            final(self).wf(),
            final(self)@ == (CpuState {
                ram: rows_written(old(self)@.ram, BOOT_GDT, gdt_rows(), 3),
                ..old(self)@
            }),
    {
        let t: [(u64, u8, u64); 3] = [
            (0, 8, 0),
            (0x10, 8, 0x00af_9b00_0000_ffff),
            (0x18, 8, 0x00cf_9300_0000_ffff),
        ];
        assert(t@ =~= gdt_rows());
        self.write_rows(BOOT_GDT, &t);
    }

    fn build_boot_paging(&mut self)
        requires
            old(self).wf(),
        ensures
            final(self).wf(),
            final(self)@ == (CpuState { ram: tables_written(old(self)@.ram, 512), ..old(self)@ }),
    {
        self.wr_phys(BOOT_PML4, 8, BOOT_PDPT | 0x3);
        let mut i: u64 = 0;
        while i < 512
            invariant
                i <= 512,
                self.wf(),
                self@ == (CpuState { ram: tables_written(old(self)@.ram, i as nat), ..old(self)@ }),
            decreases 512 - i,
        {
            self.wr_phys(BOOT_PDPT + 8 * i, 8, (i << 30) | 0x83);
            i = i + 1;
        }
    }

    fn enter_long_mode(&mut self, entry: u64, disk: Option<Vec<u8>>)
        requires
            old(self).wf(),
        ensures
            final(self).wf(),
            final(self)@ == (CpuState {
                cr3: BOOT_PML4,
                cr4: 0x20,
                efer: 0x500,
                cr0: 0x8000_0001,
                seg: seq![
                    flat_seg(0x18, false),
                    flat_seg(0x10, true),
                    flat_seg(0x18, false),
                    flat_seg(0x18, false),
                    flat_seg(0x18, false),
                    flat_seg(0x18, false),
                ],
                r: old(self)@.r.update(6, ZERO_PAGE),
                rip: entry,
                rflags: 0x2,
                cpl: 0,
                sys: SysState {
                    gdtr: (BOOT_GDT, 0x17),
                    disk: crate::sys::disk_view(disk),
                    ..old(self)@.sys
                },
                ..old(self)@
            }),
    {
        self.cr3 = BOOT_PML4;
        self.cr4 = 0x20;
        self.efer = 0x500;
        self.cr0 = 0x8000_0001;
        let data: Seg = Seg { selector: 0x18, base: 0, long: false };
        self.seg[CS] = Seg { selector: 0x10, base: 0, long: true };
        self.seg[DS] = data;
        self.seg[ES] = data;
        self.seg[SS] = data;
        self.seg[FS] = data;
        self.seg[GS] = data;
        assert(self.seg@ =~= seq![
            flat_seg(0x18, false),
            flat_seg(0x10, true),
            flat_seg(0x18, false),
            flat_seg(0x18, false),
            flat_seg(0x18, false),
            flat_seg(0x18, false),
        ]);
        self.sys.gdtr = (BOOT_GDT, 0x17);
        self.r[RSI] = ZERO_PAGE;
        self.rip = entry;
        self.rflags = 0x2;
        self.cpl = 0;
        self.sys.disk = disk;
    }

    fn boot_linux_inner(ram_bytes: usize, kernel: &[u8], cmdline: &str, disk: Option<Vec<u8>>) -> (c:
        Cpu)
        requires
            bootable(ram_bytes as int, kernel@, cmdline.spec_bytes()),
        ensures
            c.wf(),
            c@ == boot_state(
                ram_bytes as nat,
                kernel@,
                cmdline.spec_bytes(),
                crate::sys::disk_view(disk),
            ),
    {
        proof {
            reveal(boot_ram);
        }
        let mut c: Cpu = Cpu::new(ram_bytes);
        let ghost s0 = c@;
        let entry: u64 = load_elf64(&mut c.ram, kernel);
        let ghost r1 = c@.ram;
        proof {
            lemma_loaded_len(s0.ram, kernel@, dec_u16(kernel@, 56) as nat);
        }
        let line: &[u8] = cmdline.as_bytes();
        let n: usize = line.len();
        copy_in(&mut c.ram, CMDLINE_ADDR as usize, line, 0, n);
        c.ram[CMDLINE_ADDR as usize + n] = 0;
        assert(c@.ram =~= put_at(r1, CMDLINE_ADDR as int, cmdline.spec_bytes().push(0u8)));
        c.build_boot_params(c.ram.len() as u64);
        c.build_boot_gdt();
        c.build_boot_paging();
        c.enter_long_mode(entry, disk);
        assert(c@ =~= boot_state(
            ram_bytes as nat,
            kernel@,
            cmdline.spec_bytes(),
            crate::sys::disk_view(disk),
        ));
        c
    }

    /// Boot an uncompressed 64-bit Linux kernel image.
    pub fn boot_linux(ram_bytes: usize, kernel: &[u8], cmdline: &str) -> (c: Cpu)
        requires
            bootable(ram_bytes as int, kernel@, cmdline.spec_bytes()),
        ensures
            c.wf(),
            c@ == boot_state(ram_bytes as nat, kernel@, cmdline.spec_bytes(), None),
    {
        Self::boot_linux_inner(ram_bytes, kernel, cmdline, None)
    }

    /// Boot with a disk attached; its contents stay with the host, which gives the device's state.
    pub fn boot_linux_disk(ram_bytes: usize, kernel: &[u8], disk: Vec<u8>, cmdline: &str) -> (c: Cpu)
        requires
            bootable(ram_bytes as int, kernel@, cmdline.spec_bytes()),
        ensures
            c.wf(),
            c@ == boot_state(ram_bytes as nat, kernel@, cmdline.spec_bytes(), Some(disk@)),
    {
        Self::boot_linux_inner(ram_bytes, kernel, cmdline, Some(disk))
    }
}

proof fn lemma_map_rows_small(m: Seq<(u64, u64, u32)>, n: nat)
    requires
        n <= 8,
    ensures
        forall|i: int|
            0 <= i < map_rows(m, n).len() ==> (#[trigger] map_rows(m, n)[i]).1 <= 8 && map_rows(
                m,
                n,
            )[i].0 <= 0x1000,
    decreases n,
{
    if n > 0 {
        lemma_map_rows_small(m, (n - 1) as nat);
        let w = map_rows(m, (n - 1) as nat);
        let t = map_rows(m, n);
        assert forall|i: int| 0 <= i < t.len() implies (#[trigger] t[i]).1 <= 8 && t[i].0
            <= 0x1000 by {
            if i < w.len() {
                assert(t[i] == w[i]);
            }
        }
    }
}

proof fn lemma_rows_small(ram: u64)
    ensures
        forall|i: int|
            0 <= i < zero_page_rows(ram).len() ==> (#[trigger] zero_page_rows(ram)[i]).1 <= 8
                && zero_page_rows(ram)[i].0 <= 0x1000,
{
    let m = memory_map(ram);
    lemma_map_rows_small(m, m.len());
    let t = zero_page_rows(ram);
    assert forall|i: int| 0 <= i < t.len() implies (#[trigger] t[i]).1 <= 8 && t[i].0 <= 0x1000 by {
        if i >= 26 {
            assert(t[i] == map_rows(m, m.len())[i - 26]);
        }
    }
}

} // verus!
