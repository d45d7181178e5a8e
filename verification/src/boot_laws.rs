//! Laws of booting: what the memory map promises, and how the kernel sees memory at its entry.
use vstd::prelude::*;
#[allow(unused_imports)]
use crate::boot::{
    boot_ram, boot_state, bootable, elf_loaded, fb_base_of, gdt_rows, lemma_loaded_len, memory_map,
    rows_written, tables_written, zero_page_rows, BOOT_GDT, CMDLINE_ADDR, FB_SIZE, ZERO_PAGE,
};
#[allow(unused_imports)]
use crate::kappa::put_at;
#[allow(unused_imports)]
use crate::memory_laws::{law_store_exact, law_store_load, lemma_other_store};
#[allow(unused_imports)]
use crate::mmu::{le_read, page_walk, paging_on, table_entry};
#[allow(unused_imports)]
use crate::snap::dec_u16;
#[allow(unused_imports)]
use crate::virtio::VIRTIO_BLK_BASE;

verus! {

/// The kernel never gets the framebuffer as usable memory, and what it gets as usable lies in RAM.
/// The framebuffer must start above the low memory that the map always gives out.
pub proof fn law_framebuffer_reserved(ram: u64, i: int)
    requires
        ram >= FB_SIZE + 0x9_fc00,
        0 <= i < memory_map(ram).len(),
    ensures
        ({
            let (a, n, kind) = memory_map(ram)[i];
            &&& kind == 1 ==> n == 0 || a + n <= fb_base_of(ram)
            &&& kind == 1 || kind == 2
        }),
{
}

/// Below the device windows the framebuffer has an entry of its own, which reserves it.
pub proof fn law_framebuffer_entry(ram: u64)
    requires
        FB_SIZE <= ram <= VIRTIO_BLK_BASE,
    ensures
        memory_map(ram).contains((fb_base_of(ram), FB_SIZE as u64, 2u32)),
{
    assert(memory_map(ram)[4] == (fb_base_of(ram), FB_SIZE as u64, 2u32));
}

// ----- the identity map -----

proof fn lemma_rows_len(ram: Seq<u8>, base: u64, t: Seq<(u64, u8, u64)>, n: nat)
    ensures
        rows_written(ram, base, t, n).len() == ram.len(),
    decreases n,
{
    if n > 0 {
        lemma_rows_len(ram, base, t, (n - 1) as nat);
        let row = t[n - 1];
        law_store_exact(
            rows_written(ram, base, t, (n - 1) as nat),
            base + row.0,
            row.1 as nat,
            row.2,
        );
    }
}

/// The entry for a gigabyte.
spec fn giga_entry(i: int) -> u64 {
    ((i as u64) << 30) | 0x83
}

proof fn lemma_tables(ram: Seq<u8>, n: nat)
    requires
        n <= 512,
        ram.len() >= 0xb000,
    ensures
        tables_written(ram, n).len() == ram.len(),
        le_read(tables_written(ram, n), 0x9000, 8) == 0xa003,
        forall|i: int|
            0 <= i < n ==> le_read(tables_written(ram, n), 0xa000 + 8 * i, 8) == #[trigger] giga_entry(i),
    decreases n,
{
    lemma_constants();
    if n == 0 {
        law_store_exact(ram, 0x9000, 8, 0xa003);
        law_store_load(ram, 0x9000, 8, 0xa003);
    } else {
        let m = (n - 1) as nat;
        lemma_tables(ram, m);
        let r = tables_written(ram, m);
        let a = 0xa000 + 8 * (n - 1);
        let e = giga_entry(n - 1);
        law_store_exact(r, a, 8, e);
        law_store_load(r, a, 8, e);
        lemma_other_store(r, 0x9000, a, e);
        assert forall|i: int| 0 <= i < n implies le_read(tables_written(ram, n), 0xa000 + 8 * i, 8)
            == #[trigger] giga_entry(i) by {
            if i < m {
                assert(le_read(r, 0xa000 + 8 * i, 8) == giga_entry(i));
                lemma_other_store(r, 0xa000 + 8 * i, a, e);
            }
        }
    }
}

proof fn lemma_constants()
    by (bit_vector)
    ensures
        0xa000u64 | 0x3 == 0xa003,
        0x9000u64 & 0x000f_ffff_ffff_f000 == 0x9000,
        0xa003u64 & 0x000f_ffff_ffff_f000 == 0xa000,
        0xa003u64 & 1 != 0,
        0xa003u64 & 2 != 0,
        0x8000_0001u64 & 0x8000_0000 != 0,
        0x20u64 & 0x20 != 0,
        0x500u64 & 0x100 != 0,
{
}

proof fn lemma_giga(v: u64)
    by (bit_vector)
    requires
        v < 0x80_0000_0000,
    ensures
        (v >> 39) & 0x1ff == 0,
        (v >> 30) & 0x1ff < 512,
        ((((v >> 30) & 0x1ff) << 30) | 0x83) & 1 != 0,
        ((((v >> 30) & 0x1ff) << 30) | 0x83) & 2 != 0,
        ((((v >> 30) & 0x1ff) << 30) | 0x83) & 0x80 != 0,
        (((((v >> 30) & 0x1ff) << 30) | 0x83) & 0x000f_ffff_c000_0000) | (v & 0x3fff_ffff) == v,
{
}

/// At the kernel's entry the first 512 gigabytes are mapped to themselves, for every kind of access.
pub proof fn law_boot_identity(
    ram: nat,
    kernel: Seq<u8>,
    cmdline: Seq<u8>,
    disk: Option<Seq<u8>>,
    v: u64,
    write: bool,
    user: bool,
)
    requires
        bootable(ram as int, kernel, cmdline),
        v < 0x80_0000_0000,
    ensures
        paging_on(boot_state(ram, kernel, cmdline, disk)),
        page_walk(boot_state(ram, kernel, cmdline, disk), v, write, user) == Ok::<u64, u64>(v),
{
    reveal(boot_ram);
    reveal(page_walk);
    let s = boot_state(ram, kernel, cmdline, disk);
    let r0 = Seq::new(ram, |i: int| 0u8);
    lemma_loaded_len(r0, kernel, dec_u16(kernel, 56) as nat);
    let r1 = elf_loaded(r0, kernel, dec_u16(kernel, 56) as nat);
    let r2 = put_at(r1, CMDLINE_ADDR as int, cmdline.push(0u8));
    let rows = zero_page_rows(ram as u64);
    lemma_rows_len(r2, ZERO_PAGE, rows, rows.len());
    let r3 = rows_written(r2, ZERO_PAGE, rows, rows.len());
    lemma_rows_len(r3, BOOT_GDT, gdt_rows(), 3);
    let r4 = rows_written(r3, BOOT_GDT, gdt_rows(), 3);
    lemma_tables(r4, 512);
    lemma_constants();
    lemma_giga(v);
    let i = ((v >> 30) & 0x1ff) as int;
    assert(s.ram == tables_written(r4, 512));
    assert(table_entry(s.ram, s.cr3, v, 3) == 0xa003);
    assert(le_read(s.ram, 0xa000 + 8 * i, 8) == giga_entry(i));
    assert(table_entry(s.ram, 0xa003, v, 2) == giga_entry(i));
}

} // verus!
