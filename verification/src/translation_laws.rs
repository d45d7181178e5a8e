//! Laws of translation: what the page tables in memory make of an address, in plain arithmetic on
//! the entries, and when a cached translation may still answer.
use vstd::prelude::*;
#[allow(unused_imports)]
use crate::cpu::{runnable, CpuState, CR4_PCIDE};
#[allow(unused_imports)]
use crate::memory_laws::{lemma_set_of_line, lemma_walk_alike, plain};
#[allow(unused_imports)]
use crate::mmu::{
    byte_at, cr_write, flushed_pcid, le_read, lemma_set_bounds, mem_read, mem_write, one_page,
    page_walk, paging_on, pcid_of, table_entry, tlb_hit, tlb_set, touched, translate_access,
};
#[allow(unused_imports)]
use crate::walk_laws::{calm, can_load, code_held, lemma_loaded, lemma_translated, loaded, nth, walk_to, walks};
#[allow(unused_imports)]
use crate::word_laws::{law_load_number, number_at};

verus! {

// ----- entries -----

/// Bit `2^k` of a number, given as the power.
pub open spec fn bit_set(v: u64, power: int) -> bool {
    (v as int / power) % 2 == 1
}

/// The address in an entry, cut to a page of so many bytes: the low twelve bits and the bits above the
/// physical address say other things.
#[verifier::opaque]
pub open spec fn frame_in(e: int, page: int) -> int {
    ((e % 0x10_0000_0000_0000) / page) * page
}

/// The entry that a table at `base` holds at an index: eight bytes of memory.
pub open spec fn entry_in(ram: Seq<u8>, base: int, index: int) -> int {
    number_at(ram, frame_in(base, 0x1000) + 8 * index, 8)
}

/// The entries that the four levels hold for an address, from the top.
#[verifier::opaque]
pub open spec fn entries(s: CpuState, v: u64) -> (int, int, int, int) {
    let e4 = entry_in(s.ram, s.cr3 as int, (v as int / 0x80_0000_0000) % 512);
    let e3 = entry_in(s.ram, e4, (v as int / 0x4000_0000) % 512);
    let e2 = entry_in(s.ram, e3, (v as int / 0x20_0000) % 512);
    let e1 = entry_in(s.ram, e2, (v as int / 0x1000) % 512);
    (e4, e3, e2, e1)
}

/// An entry is present, allows writes, or ends the walk with a large page.
#[verifier::opaque]
pub open spec fn present(e: int) -> bool {
    e % 2 == 1
}

#[verifier::opaque]
pub open spec fn allows_write(e: int) -> bool {
    (e / 2) % 2 == 1
}

#[verifier::opaque]
pub open spec fn is_large(e: int) -> bool {
    (e / 0x80) % 2 == 1
}

/// A write goes through: every level allows it, or the kernel writes without the protection of
/// `CR0.WP`.
pub open spec fn write_passes(s: CpuState, user: bool, allowed: bool) -> bool {
    allowed || (!user && !bit_set(s.cr0, 0x1_0000))
}

proof fn lemma_fields(e: u64, v: u64)
    by (bit_vector)
    ensures
        e & 0x000f_ffff_ffff_f000 == ((e % 0x10_0000_0000_0000) / 0x1000) * 0x1000,
        (e & 0x000f_ffff_ffff_f000) | (v & 0xfff) == ((e % 0x10_0000_0000_0000) / 0x1000) * 0x1000 + v
            % 0x1000,
        (e & 0x000f_ffff_ffe0_0000) | (v & 0x1f_ffff) == ((e % 0x10_0000_0000_0000) / 0x20_0000)
            * 0x20_0000 + v % 0x20_0000,
        (e & 0x000f_ffff_c000_0000) | (v & 0x3fff_ffff) == ((e % 0x10_0000_0000_0000) / 0x4000_0000)
            * 0x4000_0000 + v % 0x4000_0000,
        (v >> 12) & 0x1ff == (v / 0x1000) % 512,
        (v >> 21) & 0x1ff == (v / 0x20_0000) % 512,
        (v >> 30) & 0x1ff == (v / 0x4000_0000) % 512,
        (v >> 39) & 0x1ff == (v / 0x80_0000_0000) % 512,
        (e & 1 != 0) == (e % 2 == 1),
        (e & 2 != 0) == ((e / 2) % 2 == 1),
        (e & 0x20 != 0) == ((e / 0x20) % 2 == 1),
        (e & 0x80 != 0) == ((e / 0x80) % 2 == 1),
        (e & 0x100 != 0) == ((e / 0x100) % 2 == 1),
        (e & 0x1_0000 != 0) == ((e / 0x1_0000) % 2 == 1),
        (e & 0x2_0000 != 0) == ((e / 0x2_0000) % 2 == 1),
        (e & 0x8000_0000 != 0) == ((e / 0x8000_0000) % 2 == 1),
        2u64 | 4 == 6,
        2u64 | 0 == 2,
        0u64 | 4 == 4,
        0u64 | 0 == 0,
        1u64 | 2 | 4 == 7,
        1u64 | 2 | 0 == 3,
        e & 0xfff == e % 0x1000,
        e & 0x7fff_ffff_ffff_ffff == e % 0x8000_0000_0000_0000,
        (e & 0x8000_0000_0000_0000 != 0) == (e >= 0x8000_0000_0000_0000),
{
}

proof fn lemma_flags(e: u64)
    ensures
        (e & 1 != 0) == present(e as int),
        (e & 2 != 0) == allows_write(e as int),
        (e & 0x80 != 0) == is_large(e as int),
{
    reveal(present);
    reveal(allows_write);
    reveal(is_large);
    lemma_fields(e, 0);
}

proof fn lemma_frames(e: u64, v: u64)
    ensures
        e & 0x000f_ffff_ffff_f000 == frame_in(e as int, 0x1000),
        (e & 0x000f_ffff_ffff_f000) | (v & 0xfff) == frame_in(e as int, 0x1000) + v % 0x1000,
        (e & 0x000f_ffff_ffe0_0000) | (v & 0x1f_ffff) == frame_in(e as int, 0x20_0000) + v % 0x20_0000,
        (e & 0x000f_ffff_c000_0000) | (v & 0x3fff_ffff) == frame_in(e as int, 0x4000_0000) + v
            % 0x4000_0000,
        0 <= frame_in(e as int, 0x1000) + v % 0x1000 < 0x10_0000_0000_0000,
        0 <= frame_in(e as int, 0x20_0000) + v % 0x20_0000 < 0x10_0000_0000_0000,
        0 <= frame_in(e as int, 0x4000_0000) + v % 0x4000_0000 < 0x10_0000_0000_0000,
{
    reveal(frame_in);
    lemma_fields(e, v);
}

proof fn lemma_protection(s: CpuState)
    ensures
        (s.cr0 & 0x1_0000 != 0) == bit_set(s.cr0, 0x1_0000),
        2u64 | 4 == 6,
        2u64 | 0 == 2,
        0u64 | 4 == 4,
        0u64 | 0 == 0,
        1u64 | 2 | 4 == 7,
        1u64 | 2 | 0 == 3,
{
    lemma_fields(s.cr0, 0);
}

proof fn lemma_indices(v: u64)
    ensures
        (v >> 12) & 0x1ff == (v as int / 0x1000) % 512,
        (v >> 21) & 0x1ff == (v as int / 0x20_0000) % 512,
        (v >> 30) & 0x1ff == (v as int / 0x4000_0000) % 512,
        (v >> 39) & 0x1ff == (v as int / 0x80_0000_0000) % 512,
{
    lemma_fields(0, v);
}

/// Paging is on where `CR0` has bit 31, `CR4` bit 5 and `EFER` bit 8; else every address stands for
/// itself.
pub proof fn law_paging(s: CpuState, v: u64, write: bool, user: bool)
    ensures
        paging_on(s) == (bit_set(s.cr0, 0x8000_0000) && bit_set(s.cr4, 0x20) && bit_set(s.efer, 0x100)),
        !paging_on(s) ==> page_walk(s, v, write, user) == Ok::<u64, u64>(v),
{
    lemma_fields(s.cr0, 0);
    lemma_fields(s.cr4, 0);
    lemma_fields(s.efer, 0);
    reveal(page_walk);
}

proof fn lemma_entries(s: CpuState, v: u64)
    ensures
        ({
            let e4 = table_entry(s.ram, s.cr3, v, 3);
            let e3 = table_entry(s.ram, e4, v, 2);
            let e2 = table_entry(s.ram, e3, v, 1);
            let e1 = table_entry(s.ram, e2, v, 0);
            entries(s, v) == (e4 as int, e3 as int, e2 as int, e1 as int)
        }),
{
    reveal(entries);
    lemma_indices(v);
    lemma_entry(s.ram, s.cr3, v, 3, (v as int / 0x80_0000_0000) % 512);
    let e4 = table_entry(s.ram, s.cr3, v, 3);
    lemma_entry(s.ram, e4, v, 2, (v as int / 0x4000_0000) % 512);
    let e3 = table_entry(s.ram, e4, v, 2);
    lemma_entry(s.ram, e3, v, 1, (v as int / 0x20_0000) % 512);
    let e2 = table_entry(s.ram, e3, v, 1);
    lemma_entry(s.ram, e2, v, 0, (v as int / 0x1000) % 512);
}

proof fn lemma_entry(ram: Seq<u8>, base: u64, v: u64, level: int, index: int)
    requires
        0 <= level < 4,
        (v >> ((12 + 9 * level) as u64)) & 0x1ff == index,
    ensures
        table_entry(ram, base, v, level) == entry_in(ram, base as int, index),
{
    lemma_frames(base, 0);
    law_load_number(ram, frame_in(base as int, 0x1000) + 8 * index, 8);
}

/// A level that is not present ends the walk with a fault whose code tells a write and the user.
pub proof fn law_absent(s: CpuState, v: u64, write: bool, user: bool)
    requires
        paging_on(s),
        ({
            let (e4, e3, e2, e1) = entries(s, v);
            ||| !present(e4)
            ||| !present(e3)
            ||| !is_large(e3) && !present(e2)
            ||| !is_large(e3) && !is_large(e2) && !present(e1)
        }),
    ensures
        page_walk(s, v, write, user) == Err::<u64, u64>(
            (if write { 2int } else { 0 } + if user { 4int } else { 0 }) as u64,
        ),
{
    reveal(page_walk);
    lemma_entries(s, v);
    let (e4, e3, e2, e1) = entries(s, v);
    lemma_flags(e4 as u64);
    lemma_flags(e3 as u64);
    lemma_flags(e2 as u64);
    lemma_flags(e1 as u64);
    lemma_protection(s);
}

/// A present page of the lowest level: its frame, aligned to 4 KiB, plus the low twelve bits of the
/// address. A write that is not allowed faults on a present page.
pub proof fn law_small_page(s: CpuState, v: u64, write: bool, user: bool)
    requires
        paging_on(s),
        ({
            let (e4, e3, e2, e1) = entries(s, v);
            &&& present(e4) && present(e3) && present(e2) && present(e1)
            &&& !is_large(e3) && !is_large(e2)
        }),
    ensures
        ({
            let (e4, e3, e2, e1) = entries(s, v);
            let w = allows_write(e4) && allows_write(e3) && allows_write(e2) && allows_write(e1);
            page_walk(s, v, write, user) == if !write || write_passes(s, user, w) {
                Ok::<u64, u64>((frame_in(e1, 0x1000) + v % 0x1000) as u64)
            } else {
                Err((3 + if user { 4int } else { 0 }) as u64)
            }
        }),
        0 <= frame_in(entries(s, v).3, 0x1000) + v % 0x1000 < 0x10_0000_0000_0000,
{
    reveal(page_walk);
    lemma_entries(s, v);
    let (e4, e3, e2, e1) = entries(s, v);
    lemma_flags(e4 as u64);
    lemma_flags(e3 as u64);
    lemma_flags(e2 as u64);
    lemma_flags(e1 as u64);
    lemma_frames(e1 as u64, v);
    lemma_protection(s);
}

/// A present entry of the page directory with its page-size bit set: its frame, aligned to 2 MiB, plus
/// the low 21 bits of the address.
pub proof fn law_large_page(s: CpuState, v: u64, write: bool, user: bool)
    requires
        paging_on(s),
        ({
            let (e4, e3, e2, e1) = entries(s, v);
            present(e4) && present(e3) && !is_large(e3) && present(e2) && is_large(e2)
        }),
    ensures
        ({
            let (e4, e3, e2, e1) = entries(s, v);
            let w = allows_write(e4) && allows_write(e3) && allows_write(e2);
            page_walk(s, v, write, user) == if !write || write_passes(s, user, w) {
                Ok::<u64, u64>((frame_in(e2, 0x20_0000) + v % 0x20_0000) as u64)
            } else {
                Err((3 + if user { 4int } else { 0 }) as u64)
            }
        }),
        0 <= frame_in(entries(s, v).2, 0x20_0000) + v % 0x20_0000 < 0x10_0000_0000_0000,
{
    reveal(page_walk);
    lemma_entries(s, v);
    let (e4, e3, e2, e1) = entries(s, v);
    lemma_flags(e4 as u64);
    lemma_flags(e3 as u64);
    lemma_flags(e2 as u64);
    lemma_frames(e2 as u64, v);
    lemma_protection(s);
}

/// A present entry of the table above with its page-size bit set: its frame, aligned to 1 GiB, plus
/// the low 30 bits of the address.
pub proof fn law_huge_page(s: CpuState, v: u64, write: bool, user: bool)
    requires
        paging_on(s),
        ({
            let (e4, e3, e2, e1) = entries(s, v);
            present(e4) && present(e3) && is_large(e3)
        }),
    ensures
        ({
            let (e4, e3, e2, e1) = entries(s, v);
            let w = allows_write(e4) && allows_write(e3);
            page_walk(s, v, write, user) == if !write || write_passes(s, user, w) {
                Ok::<u64, u64>((frame_in(e3, 0x4000_0000) + v % 0x4000_0000) as u64)
            } else {
                Err((3 + if user { 4int } else { 0 }) as u64)
            }
        }),
        0 <= frame_in(entries(s, v).1, 0x4000_0000) + v % 0x4000_0000 < 0x10_0000_0000_0000,
{
    reveal(page_walk);
    lemma_entries(s, v);
    let (e4, e3, e2, e1) = entries(s, v);
    lemma_flags(e4 as u64);
    lemma_flags(e3 as u64);
    lemma_frames(e3 as u64, v);
    lemma_protection(s);
}

/// Two addresses in one page translate to physical addresses as far apart as they are: in a page of
/// 2 MiB or 1 GiB that the tables give, and always within 4 KiB.
pub proof fn law_page_moves_whole(s: CpuState, v: u64, w: u64, page: int)
    requires
        paging_on(s),
        v as int / page == w as int / page,
        ({
            let (e4, e3, e2, e1) = entries(s, v);
            &&& present(e4) && present(e3)
            &&& {
                ||| page == 0x4000_0000 && is_large(e3)
                ||| page == 0x20_0000 && !is_large(e3) && present(e2) && is_large(e2)
                ||| page == 0x1000 && !is_large(e3) && present(e2) && !is_large(e2) && present(e1)
            }
        }),
    ensures
        page_walk(s, v, false, false) is Ok,
        page_walk(s, w, false, false) is Ok,
        page_walk(s, w, false, false)->Ok_0 - page_walk(s, v, false, false)->Ok_0 == w - v,
{
    reveal(entries);
    let x = v as int;
    let y = w as int;
    lemma_upper(x);
    lemma_upper(y);
    if page == 0x4000_0000 {
        lemma_offset(x, 0x4000_0000);
        lemma_offset(y, 0x4000_0000);
        law_huge_page(s, v, false, false);
        law_huge_page(s, w, false, false);
        assert(entries(s, v).1 == entries(s, w).1);
    } else if page == 0x20_0000 {
        lemma_offset(x, 0x20_0000);
        lemma_offset(y, 0x20_0000);
        law_large_page(s, v, false, false);
        law_large_page(s, w, false, false);
        assert(entries(s, v).2 == entries(s, w).2);
    } else {
        lemma_offset(x, 0x1000);
        lemma_offset(y, 0x1000);
        law_small_page(s, v, false, false);
        law_small_page(s, w, false, false);
        assert(entries(s, v).3 == entries(s, w).3);
    }
}

proof fn lemma_offset(x: int, page: int)
    requires
        page > 0,
    ensures
        x == (x / page) * page + x % page,
{
    vstd::arithmetic::div_mod::lemma_fundamental_div_mod(x, page);
    assert(page * (x / page) == (x / page) * page) by (nonlinear_arith);
}

/// The index of a level is made of the indices below.
proof fn lemma_upper(x: int)
    requires
        0 <= x,
    ensures
        x / 0x20_0000 == (x / 0x1000) / 512,
        x / 0x4000_0000 == (x / 0x20_0000) / 512,
        x / 0x80_0000_0000 == (x / 0x4000_0000) / 512,
{
    vstd::arithmetic::div_mod::lemma_div_denominator(x, 0x1000, 512);
    vstd::arithmetic::div_mod::lemma_div_denominator(x, 0x20_0000, 512);
    vstd::arithmetic::div_mod::lemma_div_denominator(x, 0x4000_0000, 512);
}

// ----- loads -----

/// A load of a byte of RAM that the tables map reads the byte at the physical address, when the caches
/// agree with the tables.
pub proof fn law_load_walks(s: CpuState, v: u64)
    requires
        calm(s),
        walks(s, v, false),
        plain(walk_to(s, v, false)),
    ensures
        mem_read(s, v, 1).1 == number_at(s.ram, walk_to(s, v, false) as int, 1),
{
    assert(forall|b: int| 0 <= b < 1 ==> #[trigger] nth(v, b) == v);
    lemma_loaded(s, v, 1);
    assert(one_page(v, 1));
    law_load_number(s.ram, walk_to(s, v, false) as int, 1);
}

// ----- when cached translations may answer -----

/// No cached translation, for data or for code, answers any more after a write of `CR0` or `CR4`, and
/// after one of `CR3` without address-space identifiers.
pub proof fn law_regime_flushes(s: CpuState, idx: int, val: u64, v: u64, write: bool)
    requires
        idx == 0 || idx == 4 || (idx == 3 && !bit_set(s.cr4, 0x2_0000)),
    ensures
        tlb_hit(s, v, write) ==> !tlb_hit(cr_write(s, idx, val), v, write),
        code_held(s, v) ==> !code_held(cr_write(s, idx, val), v),
{
    lemma_fields(s.cr4, 0);
}

/// With identifiers, what was cached for one address space does not answer for another; and a write
/// of `CR3` that does not ask to keep them drops the translations of the space it loads.
pub proof fn law_spaces_apart(s: CpuState, val: u64, v: u64, write: bool)
    requires
        bit_set(s.cr4, 0x2_0000),
        s.pcid_gen.len() == 0x1000,
        val % 0x1000 != s.cr3 % 0x1000 || val < 0x8000_0000_0000_0000,
    ensures
        tlb_hit(s, v, write) ==> !tlb_hit(cr_write(s, 3, val), v, write),
        code_held(s, v) ==> !code_held(cr_write(s, 3, val), v),
{
    lemma_fields(s.cr4, 0);
    lemma_fields(val, 0);
    lemma_fields(s.cr3, 0);
    lemma_set_bounds(val);
    assert(val & 0x7fff_ffff_ffff_ffff & 0xfff == val & 0xfff);
}

/// Dropping one space's translations, as `INVLPG` does with the present one.
pub proof fn law_space_flushed(s: CpuState, v: u64, write: bool)
    requires
        s.pcid_gen.len() == 0x1000,
    ensures
        tlb_hit(s, v, write) ==> !tlb_hit(flushed_pcid(s, pcid_of(s) as int), v, write),
        code_held(s, v) ==> !code_held(flushed_pcid(s, pcid_of(s) as int), v),
{
    lemma_set_bounds(s.cr3);
}

/// A control register that was written reads back, `CR3` without its top bit.
pub proof fn law_control_registers(s: CpuState, idx: int, val: u64)
    requires
        idx == 0 || idx == 2 || idx == 3 || idx == 4,
    ensures
        crate::mmu::cr_read(cr_write(s, idx, val), idx) == if idx == 3 {
            val as int % 0x8000_0000_0000_0000
        } else {
            val as int
        },
        forall|k: int| k != idx ==> #[trigger] crate::mmu::cr_read(cr_write(s, idx, val), k)
            == crate::mmu::cr_read(s, k),
        ({
            let t = cr_write(s, idx, val);
            &&& t.cr0 == if idx == 0 { val } else { s.cr0 }
            &&& t.cr2 == if idx == 2 { val } else { s.cr2 }
            &&& t.cr4 == if idx == 4 { val } else { s.cr4 }
            &&& t.r == s.r
            &&& t.ram == s.ram
            &&& t.rip == s.rip
        }),
{
    lemma_fields(val, 0);
}

} // verus!
