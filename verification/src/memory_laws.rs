//! Laws of memory: what a load gives back of a store, and what the translation caches may hold.
use vstd::prelude::*;
#[allow(unused_imports)]
use crate::bits::{is_width, mask_of};
#[allow(unused_imports)]
use crate::cpu::{runnable, CpuState, CR4_PCIDE, LAPIC_BASE, LAPIC_END};
#[allow(unused_imports)]
use crate::mmu::{
    byte_at, cr_write, flushed, le_read, le_write, lemma_set_bounds, mem_read, mem_write, one_page,
    page_walk, paging_on, read_bytes, table_entry, tlb_fill, tlb_hit, tlb_set, touched, translate_access,
    write_bytes,
};
#[allow(unused_imports)]
use crate::operand::{reg_value, reg_write, stack_pop, stack_push, with_reg};
#[allow(unused_imports)]
use crate::sys::SysState;
#[allow(unused_imports)]
use crate::virtio::in_window;

verus! {

// ----- bytes -----

/// The `n` low bytes of a value.
pub open spec fn low_bytes(v: u64, n: nat) -> u64 {
    if n >= 8 {
        v
    } else {
        v & !(0xffff_ffff_ffff_ffffu64 << ((8 * n) as u64))
    }
}

pub proof fn lemma_join(v: u64, k: u64)
    by (bit_vector)
    requires
        k <= 56,
    ensures
        k == 0 ==> v & !(0xffff_ffff_ffff_ffffu64 << k) == 0,
        k < 56 ==> (v & !(0xffff_ffff_ffff_ffffu64 << k)) | ((((v >> k) as u8) as u64) << k) == v & !(
        0xffff_ffff_ffff_ffffu64 << ((k + 8) as u64)),
        k == 56 ==> (v & !(0xffff_ffff_ffff_ffffu64 << k)) | ((((v >> k) as u8) as u64) << k) == v,
        v & !(0xffff_ffff_ffff_ffffu64 << 8) == v & 0xff,
        v & !(0xffff_ffff_ffff_ffffu64 << 16) == v & 0xffff,
        v & !(0xffff_ffff_ffff_ffffu64 << 32) == v & 0xffff_ffff,
        v & 0xffff_ffff_ffff_ffff == v,
{
}

/// The low bytes of an operand are what its mask keeps.
pub proof fn lemma_low_bytes(v: u64, size: u8)
    requires
        is_width(size),
    ensures
        low_bytes(v, size as nat) == v & mask_of(size),
{
    lemma_join(v, 0);
}

/// A store writes exactly its bytes: each holds its part of the value, every other byte stays.
pub proof fn law_store_exact(ram: Seq<u8>, a: int, n: nat, v: u64)
    ensures
        le_write(ram, a, n, v).len() == ram.len(),
        forall|i: int|
            0 <= i < ram.len() ==> #[trigger] le_write(ram, a, n, v)[i] == (if a <= i < a + n {
                (v >> ((8 * (i - a)) as u64)) as u8
            } else {
                ram[i]
            }),
    decreases n,
{
    if n > 0 {
        law_store_exact(ram, a, (n - 1) as nat, v);
    }
}

pub proof fn lemma_read_back(ram: Seq<u8>, a: int, n: nat, v: u64)
    requires
        n <= 8,
        0 <= a,
        a + n <= ram.len(),
        forall|i: int| a <= i < a + n ==> #[trigger] ram[i] == (v >> ((8 * (i - a)) as u64)) as u8,
    ensures
        le_read(ram, a, n) == low_bytes(v, n),
    decreases n,
{
    if n > 0 {
        lemma_read_back(ram, a, (n - 1) as nat, v);
        assert(ram[a + n - 1] == (v >> ((8 * (n - 1)) as u64)) as u8);
        lemma_join(v, (8 * (n - 1)) as u64);
    } else {
        lemma_join(v, 0);
    }
}

/// A read of the bytes just stored gives the stored value's low bytes.
pub proof fn law_store_load(ram: Seq<u8>, a: int, n: nat, v: u64)
    requires
        n <= 8,
        0 <= a,
        a + n <= ram.len(),
    ensures
        le_read(le_write(ram, a, n, v), a, n) == low_bytes(v, n),
{
    law_store_exact(ram, a, n, v);
    lemma_read_back(le_write(ram, a, n, v), a, n, v);
}

/// Equal bytes read equal.
pub proof fn lemma_same_bytes(r: Seq<u8>, q: Seq<u8>, a: int, n: nat)
    requires
        r.len() == q.len(),
        forall|i: int| a <= i < a + n && 0 <= i < r.len() ==> r[i] == q[i],
    ensures
        le_read(r, a, n) == le_read(q, a, n),
    decreases n,
{
    if n > 0 {
        lemma_same_bytes(r, q, a, (n - 1) as nat);
    }
}

/// A quadword stored elsewhere changes nothing here.
pub proof fn lemma_other_store(r: Seq<u8>, a: int, b: int, v: u64)
    requires
        b + 8 <= a || a + 8 <= b,
    ensures
        le_read(le_write(r, b, 8, v), a, 8) == le_read(r, a, 8),
{
    law_store_exact(r, b, 8, v);
    lemma_same_bytes(le_write(r, b, 8, v), r, a, 8);
}

// ----- translation -----

/// The frames that the cache holds are page addresses.
pub open spec fn frames_aligned(s: CpuState) -> bool {
    forall|i: int| 0 <= i < s.tlb.len() ==> (#[trigger] s.tlb[i]).frame & 0xfff == 0
}

/// What was translated once is translated the same way again: there is no paging, or the cache is
/// on.
pub open spec fn steady(s: CpuState) -> bool {
    !paging_on(s) || s.cfg.tlb_cache
}

/// An address further on in a page.
pub proof fn lemma_page(v: u64, d: u64, f: u64)
    by (bit_vector)
    requires
        (v & 0xfff) + d <= 0xfff,
        d <= 0xfff,
        f & 0xfff == 0,
    ensures
        v + d <= 0xffff_ffff_ffff_ffff,
        ((v + d) as u64) & !0xfff == v & !0xfff,
        ((v + d) as u64) >> 12 == v >> 12,
        ((v + d) as u64) & 0xfff == (v & 0xfff) + d,
        (f | (((v + d) as u64) & 0xfff)) == (f | (v & 0xfff)) + d,
        (f | (v & 0xfff)) & 0xfff == v & 0xfff,
        (f | (v & 0xfff)) & !0xfff == f,
{
}

/// Page addresses and offsets.
pub proof fn lemma_frame(e: u64, v: u64)
    by (bit_vector)
    ensures
        v & !0xfff & 0xfff == 0,
        (v & !0xfff) | (v & 0xfff) == v,
        ((e & 0x000f_ffff_c000_0000) | (v & 0x3fff_ffff)) & 0xfff == v & 0xfff,
        ((e & 0x000f_ffff_ffe0_0000) | (v & 0x1f_ffff)) & 0xfff == v & 0xfff,
        ((e & 0x000f_ffff_ffff_f000) | (v & 0xfff)) & 0xfff == v & 0xfff,
{
}

/// A walk keeps the offset in the page.
pub proof fn lemma_walk_offset(s: CpuState, v: u64, write: bool, user: bool)
    ensures
        page_walk(s, v, write, user) matches Ok(pa) ==> pa & 0xfff == v & 0xfff,
{
    reveal(page_walk);
    if paging_on(s) {
        let e4 = table_entry(s.ram, s.cr3, v, 3);
        let e3 = table_entry(s.ram, e4, v, 2);
        let e2 = table_entry(s.ram, e3, v, 1);
        let e1 = table_entry(s.ram, e2, v, 0);
        lemma_frame(e3, v);
        lemma_frame(e2, v);
        lemma_frame(e1, v);
    }
}

/// A walk depends on memory and the control registers.
pub proof fn lemma_walk_alike(a: CpuState, b: CpuState, v: u64, write: bool, user: bool)
    requires
        a.ram == b.ram,
        a.cr0 == b.cr0,
        a.cr3 == b.cr3,
        a.cr4 == b.cr4,
        a.efer == b.efer,
    ensures
        page_walk(a, v, write, user) == page_walk(b, v, write, user),
{
    reveal(page_walk);
}

/// Addresses on one page have one page number.
pub proof fn lemma_page_number(v: u64, w: u64)
    requires
        v & !0xfff == w & !0xfff,
    ensures
        v >> 12 == w >> 12,
{
    lemma_same_page(v, w, 0);
}

pub proof fn lemma_same_page(v: u64, w: u64, e: u64)
    by (bit_vector)
    requires
        v & !0xfff == w & !0xfff,
    ensures
        v >> 12 == w >> 12,
        (v >> 12) & 0x1ff == (w >> 12) & 0x1ff,
        (v >> 21) & 0x1ff == (w >> 21) & 0x1ff,
        (v >> 30) & 0x1ff == (w >> 30) & 0x1ff,
        (v >> 39) & 0x1ff == (w >> 39) & 0x1ff,
        ((e & 0x000f_ffff_c000_0000) | (v & 0x3fff_ffff)) & !0xfff == ((e & 0x000f_ffff_c000_0000)
            | (w & 0x3fff_ffff)) & !0xfff,
        ((e & 0x000f_ffff_ffe0_0000) | (v & 0x1f_ffff)) & !0xfff == ((e & 0x000f_ffff_ffe0_0000)
            | (w & 0x1f_ffff)) & !0xfff,
        ((e & 0x000f_ffff_ffff_f000) | (v & 0xfff)) & !0xfff == ((e & 0x000f_ffff_ffff_f000) | (w
            & 0xfff)) & !0xfff,
{
}

/// Two walks of one page find one frame.
pub proof fn lemma_walk_frame(s: CpuState, v: u64, w: u64, write: bool, user: bool)
    requires
        v & !0xfff == w & !0xfff,
        page_walk(s, v, false, user) is Ok,
        page_walk(s, w, write, user) is Ok,
    ensures
        page_walk(s, v, false, user)->Ok_0 & !0xfff == page_walk(s, w, write, user)->Ok_0 & !0xfff,
{
    reveal(page_walk);
    if paging_on(s) {
        lemma_same_page(v, w, 0);
        let e4 = table_entry(s.ram, s.cr3, v, 3);
        let e3 = table_entry(s.ram, e4, v, 2);
        let e2 = table_entry(s.ram, e3, v, 1);
        let e1 = table_entry(s.ram, e2, v, 0);
        assert(table_entry(s.ram, s.cr3, w, 3) == e4);
        assert(table_entry(s.ram, e4, w, 2) == e3);
        assert(table_entry(s.ram, e3, w, 1) == e2);
        assert(table_entry(s.ram, e2, w, 0) == e1);
        lemma_same_page(v, w, e3);
        lemma_same_page(v, w, e2);
        lemma_same_page(v, w, e1);
    }
}

/// Translation keeps the frames page addresses, and the offset in the page.
pub proof fn law_frames_stay_aligned(s: CpuState, v: u64, write: bool, user: bool)
    requires
        runnable(s),
        frames_aligned(s),
    ensures
        frames_aligned(translate_access(s, v, write, user).0),
        s.fault is None && translate_access(s, v, write, user).0.fault is None
            ==> translate_access(s, v, write, user).1 & 0xfff == v & 0xfff,
{
    reveal(translate_access);
    lemma_set_bounds(v);
    lemma_walk_offset(s, v, write, user);
    if s.fault is None {
        if tlb_hit(s, v, write) {
            let f = s.tlb[tlb_set(v)].frame;
            lemma_frame(f, v);
            assert(f & 0xfff == 0);
            lemma_page(v, 0, f);
        } else if let Ok(pa) = page_walk(s, v, write, user) {
            lemma_frame(0, pa);
            let t = tlb_fill(s, v, pa, write);
            assert forall|i: int| 0 <= i < t.tlb.len() implies (#[trigger] t.tlb[i]).frame & 0xfff
                == 0 by {
                if i != tlb_set(v) {
                    assert(t.tlb[i] == s.tlb[i]);
                }
            }
        }
    }
}

/// The access has been translated to `pa`, and the caches hold what makes a further translation of
/// the same page, for a read or for the same kind of access, give the same frame.
pub open spec fn held(s: CpuState, v: u64, pa: u64, write: bool) -> bool {
    &&& s.fault is None
    &&& if paging_on(s) {
        tlb_hit(s, v, write) && s.tlb[tlb_set(v)].frame & 0xfff == 0 && pa == s.tlb[tlb_set(v)].frame | (v
            & 0xfff)
    } else {
        pa == v
    }
}

/// A translation that succeeds leaves its page in the cache.
pub proof fn lemma_held(s: CpuState, v: u64, write: bool, user: bool)
    requires
        runnable(s),
        frames_aligned(s),
        steady(s),
        s.fault is None,
        translate_access(s, v, write, user).0.fault is None,
    ensures
        held(
            translate_access(s, v, write, user).0,
            v,
            translate_access(s, v, write, user).1,
            write,
        ),
{
    reveal(translate_access);
    lemma_set_bounds(v);
    lemma_walk_offset(s, v, write, user);
    if !tlb_hit(s, v, write) {
        if let Ok(pa) = page_walk(s, v, write, user) {
            lemma_frame(0, pa);
            if !paging_on(s) {
                reveal(page_walk);
            }
        }
    }
}

/// A page that is held is found in the cache: nothing changes, and an address further on in
/// the page lies as far on in the frame.
pub proof fn lemma_held_again(s: CpuState, v: u64, d: u64, pa: u64, wrote: bool, write: bool, user: bool)
    requires
        held(s, v, pa, wrote),
        write ==> wrote,
        (v & 0xfff) + d <= 0xfff,
    ensures
        v + d <= u64::MAX,
        pa + d <= u64::MAX,
        translate_access(s, (v + d) as u64, write, user) == (s, (pa + d) as u64),
{
    reveal(translate_access);
    lemma_set_bounds(v);
    if paging_on(s) {
        lemma_page(v, d, s.tlb[tlb_set(v)].frame);
    } else {
        lemma_frame(0, v);
        lemma_page(v, d, v & !0xfff);
        reveal(page_walk);
    }
}

/// The access lies on one page.
pub proof fn lemma_one_page(v: u64, size: u8)
    requires
        1 <= size <= 8,
    ensures
        (v & 0xfff) + size <= 0x1000 ==> one_page(v, size),
        one_page(v, size) ==> (v & 0xfff) + size <= 0x1000,
{
    lemma_split(v, (size - 1) as u64);
}

proof fn lemma_split(v: u64, d: u64)
    by (bit_vector)
    requires
        d <= 7,
    ensures
        (v & 0xfff) + d <= 0xfff ==> v + d <= 0xffff_ffff_ffff_ffff && v >> 12 == ((v + d) as u64) >> 12,
        (v & 0xfff) + d > 0xfff && v + d <= 0xffff_ffff_ffff_ffff ==> v >> 12 != ((v + d) as u64) >> 12,
        (v & 0xfff) + d > 0xfff && v + d > 0xffff_ffff_ffff_ffff ==> v >> 12 != ((v + d
            - 0x1_0000_0000_0000_0000) as u64) >> 12,
{
}

proof fn lemma_read_bytes_keep(s: CpuState, addr: u64, n: nat, user: bool)
    requires
        runnable(s),
    ensures
        ({
            let t = read_bytes(s, addr, n, user).0;
            t == CpuState { tlb: t.tlb, fault: t.fault, ..s } && t.tlb.len() == s.tlb.len()
        }),
    decreases n,
{
    if n > 0 {
        lemma_read_bytes_keep(s, addr, (n - 1) as nat, user);
        let t = read_bytes(s, addr, (n - 1) as nat, user).0;
        crate::mmu::law_translate_keeps(t, addr.wrapping_add((n - 1) as u64), false, user);
    }
}

pub proof fn lemma_write_bytes_keep(s: CpuState, addr: u64, n: nat, val: u64, user: bool)
    requires
        runnable(s),
    ensures
        ({
            let t = write_bytes(s, addr, n, val, user);
            t == CpuState { tlb: t.tlb, fault: t.fault, ram: t.ram, ..s } && t.tlb.len() == s.tlb.len()
                && t.ram.len() == s.ram.len()
        }),
    decreases n,
{
    if n > 0 {
        lemma_write_bytes_keep(s, addr, (n - 1) as nat, val, user);
        let t = write_bytes(s, addr, (n - 1) as nat, val, user);
        crate::mmu::law_translate_keeps(t, addr.wrapping_add((n - 1) as u64), true, user);
    }
}

/// A fault stays latched.
pub proof fn lemma_write_bytes_fault(s: CpuState, addr: u64, n: nat, val: u64, user: bool)
    ensures
        s.fault is Some ==> write_bytes(s, addr, n, val, user).fault is Some,
    decreases n,
{
    if n > 0 {
        reveal(translate_access);
        lemma_write_bytes_fault(s, addr, (n - 1) as nat, val, user);
    }
}

/// A load changes no register and no memory: only the caches, a latched fault, and time.
pub proof fn law_load_keeps(s: CpuState, addr: u64, size: u8)
    requires
        runnable(s),
    ensures
        ({
            let t = mem_read(s, addr, size).0;
            t == CpuState { tlb: t.tlb, fault: t.fault, sys: t.sys, ..s } && runnable(t)
        }),
{
    reveal(mem_read);
    let user = s.cpl == 3;
    crate::mmu::law_translate_keeps(s, addr, false, user);
    let (t, pa) = translate_access(s, addr, false, user);
    lemma_set_of_line(pa);
    lemma_read_bytes_keep(touched(t, pa), addr, size as nat, user);
}

/// A store changes no register, and memory keeps its size.
pub proof fn law_store_keeps(s: CpuState, addr: u64, size: u8, val: u64)
    requires
        runnable(s),
    ensures
        ({
            let t = mem_write(s, addr, size, val);
            t == CpuState { tlb: t.tlb, fault: t.fault, sys: t.sys, ram: t.ram, ..s } && t.ram.len()
                == s.ram.len() && runnable(t)
        }),
{
    reveal(mem_write);
    let user = s.cpl == 3;
    crate::mmu::law_translate_keeps(s, addr, true, user);
    let (t, pa) = translate_access(s, addr, true, user);
    lemma_set_of_line(pa);
    lemma_write_bytes_keep(touched(t, pa), addr, size as nat, val, user);
    law_store_exact(touched(t, pa).ram, pa as int, size as nat, val);
}

/// The set of the data cache that a line falls in.
pub proof fn lemma_set_of_line(pa: u64)
    ensures
        (pa >> 6) & 511 < 512,
{
    crate::sys::lemma_set(pa >> 6);
}

/// The address is RAM: no device slot, no local APIC.
pub open spec fn plain(pa: u64) -> bool {
    !in_window(pa) && !(LAPIC_BASE <= pa < LAPIC_END)
}

/// On one page of RAM, a store writes its bytes in the frame, and a load gives the value back.
pub proof fn lemma_one_page_store(s: CpuState, addr: u64, size: u8, v: u64)
    requires
        runnable(s),
        frames_aligned(s),
        steady(s),
        is_width(size),
        one_page(addr, size),
        s.fault is None,
        translate_access(s, addr, true, s.cpl == 3).0.fault is None,
        plain(translate_access(s, addr, true, s.cpl == 3).1),
        translate_access(s, addr, true, s.cpl == 3).1 + size <= s.ram.len(),
    ensures
        mem_read(mem_write(s, addr, size, v), addr, size).1 == v & mask_of(size),
        mem_write(s, addr, size, v).ram == le_write(
            s.ram,
            translate_access(s, addr, true, s.cpl == 3).1 as int,
            size as nat,
            v,
        ),
{
    reveal(mem_read);
    reveal(mem_write);
    let user = s.cpl == 3;
    let (t, pa) = translate_access(s, addr, true, user);
    crate::mmu::law_translate_keeps(s, addr, true, user);
    lemma_held(s, addr, true, user);
    lemma_one_page(addr, size);
    let w = mem_write(s, addr, size, v);
    assert(w == CpuState { ram: le_write(t.ram, pa as int, size as nat, v), ..touched(t, pa) });
    assert(held(w, addr, pa, true));
    lemma_held_again(w, addr, 0, pa, true, false, user);
    law_store_load(s.ram, pa as int, size as nat, v);
    lemma_low_bytes(v, size);
}

/// The second of two adjacent pages falls in another set of the cache.
proof fn lemma_next_page(v: u64, k: u64)
    by (bit_vector)
    requires
        k <= 7,
        (v & 0xfff) + k == 0x1000,
    ensures
        v + k <= 0xffff_ffff_ffff_ffff ==> ((v + k) as u64) & 0xfff == 0 && (((v + k) as u64) >> 12) & 0x3ff != (v
            >> 12) & 0x3ff,
        v + k > 0xffff_ffff_ffff_ffff ==> v + k == 0x1_0000_0000_0000_0000 && (v >> 12) & 0x3ff != 0,
{
}

/// The `i`-th byte of a value.
pub open spec fn byte_of(v: u64, i: int) -> u8 {
    (v >> ((8 * i) as u64)) as u8
}

/// One of the first `n` bytes of such an access lies at `x`.
spec fn among(pa: u64, qa: u64, k: int, n: int, x: int) -> bool {
    exists|i: int| 0 <= i < n && x == #[trigger] part_at(pa, qa, k, i)
}

/// Where the `i`-th byte of an access lies whose first `k` bytes are at `pa`, the others at `qa`.
spec fn part_at(pa: u64, qa: u64, k: int, i: int) -> int {
    if i < k {
        pa + i
    } else {
        qa + i - k
    }
}

/// The pages of an access across two pages are held.
spec fn both_held(s: CpuState, addr: u64, k: int, pa: u64, qa: u64) -> bool {
    &&& 1 <= k <= 7
    &&& (addr & 0xfff) + k == 0x1000
    &&& held(s, addr, pa, true)
    &&& held(s, addr.wrapping_add(k as u64), qa, true)
}

proof fn lemma_both(s: CpuState, addr: u64, k: int, pa: u64, qa: u64, i: int, write: bool, user: bool)
    requires
        both_held(s, addr, k, pa, qa),
        0 <= i < 8,
    ensures
        part_at(pa, qa, k, i) <= u64::MAX,
        translate_access(s, addr.wrapping_add(i as u64), write, user) == (
            s,
            part_at(pa, qa, k, i) as u64,
        ),
{
    let b = addr.wrapping_add(k as u64);
    lemma_next_page(addr, k as u64);
    lemma_set_bounds(addr);
    lemma_set_bounds(0);
    if i < k {
        lemma_held_again(s, addr, i as u64, pa, true, write, user);
    } else {
        lemma_held_again(s, b, (i - k) as u64, qa, true, write, user);
    }
}

/// No byte lies where another does.
proof fn lemma_apart(s: CpuState, addr: u64, k: int, pa: u64, qa: u64, i: int, j: int)
    requires
        both_held(s, addr, k, pa, qa),
        0 <= i < j < 8,
    ensures
        part_at(pa, qa, k, i) != part_at(pa, qa, k, j),
{
    let b = addr.wrapping_add(k as u64);
    lemma_next_page(addr, k as u64);
    lemma_set_bounds(0);
    lemma_held_offset(s, addr, pa);
    lemma_held_offset(s, b, qa);
    if i < k && j >= k {
        lemma_frame(0, pa);
        lemma_frame(0, qa);
        lemma_page(pa, i as u64, pa & !0xfff);
        lemma_page(qa, (j - k) as u64, qa & !0xfff);
    }
}

pub proof fn lemma_held_offset(s: CpuState, v: u64, pa: u64)
    requires
        held(s, v, pa, true),
    ensures
        pa & 0xfff == v & 0xfff,
{
    lemma_set_bounds(v);
    if paging_on(s) {
        lemma_page(v, 0, s.tlb[tlb_set(v)].frame);
    }
}

/// Bytes written while both pages are held.
proof fn lemma_write_both(s: CpuState, d: CpuState, addr: u64, k: int, pa: u64, qa: u64, n: nat, v: u64, user: bool)
    requires
        both_held(d, addr, k, pa, qa),
        k < n <= 8,
        d == translate_access(
            write_bytes(s, addr, k as nat, v, user),
            addr.wrapping_add(k as u64),
            true,
            user,
        ).0,
        qa == translate_access(
            write_bytes(s, addr, k as nat, v, user),
            addr.wrapping_add(k as u64),
            true,
            user,
        ).1,
        d.ram == le_write(s.ram, pa as int, k as nat, v),
        forall|i: int| 0 <= i < n ==> 0 <= #[trigger] part_at(pa, qa, k, i) < s.ram.len(),
    ensures
        ({
            let w = write_bytes(s, addr, n, v, user);
            &&& w == CpuState { ram: w.ram, ..d }
            &&& w.ram.len() == s.ram.len()
            &&& forall|i: int|
                0 <= i < n ==> w.ram[#[trigger] part_at(pa, qa, k, i)] == byte_of(v, i)
            &&& forall|x: int|
                0 <= x < s.ram.len() && !#[trigger] among(pa, qa, k, n as int, x) ==> w.ram[x]
                    == s.ram[x]
        }),
    decreases n,
{
    law_store_exact(s.ram, pa as int, k as nat, v);
    let m = (n - 1) as nat;
    let t = if m == k {
        d
    } else {
        write_bytes(s, addr, m, v, user)
    };
    if m > k {
        lemma_write_both(s, d, addr, k, pa, qa, m, v, user);
    } else {
        assert forall|i: int| 0 <= i < m implies t.ram[#[trigger] part_at(pa, qa, k, i)] == byte_of(
            v,
            i,
        ) by {
            assert(0 <= part_at(pa, qa, k, i) < s.ram.len());
        }
    }
    assert(both_held(t, addr, k, pa, qa));
    lemma_both(t, addr, k, pa, qa, m as int, true, user);
    assert(0 <= part_at(pa, qa, k, m as int) < s.ram.len());
    let w = write_bytes(s, addr, n, v, user);
    assert(w.ram == t.ram.update(part_at(pa, qa, k, m as int), byte_of(v, m as int)));
    assert forall|i: int| 0 <= i < n implies w.ram[#[trigger] part_at(pa, qa, k, i)] == byte_of(
        v,
        i,
    ) by {
        assert(0 <= part_at(pa, qa, k, i) < s.ram.len());
        if i < m {
            lemma_apart(t, addr, k, pa, qa, i, m as int);
        }
    }
    assert forall|x: int|
        0 <= x < s.ram.len() && !#[trigger] among(pa, qa, k, n as int, x) implies w.ram[x]
        == s.ram[x] by {
        assert(x != part_at(pa, qa, k, m as int));
        if m > k {
            assert(!among(pa, qa, k, m as int, x)) by {
                if among(pa, qa, k, m as int, x) {
                    let i = choose|i: int| 0 <= i < m && x == #[trigger] part_at(pa, qa, k, i);
                    assert(0 <= i < n && x == part_at(pa, qa, k, i));
                }
            }
        } else {
            if pa <= x < pa + k {
                assert(x == part_at(pa, qa, k, x - pa));
            }
        }
    }
}

/// Bytes written on the first page.
proof fn lemma_write_first(s: CpuState, addr: u64, pa: u64, n: nat, v: u64, user: bool)
    requires
        held(s, addr, pa, true),
        (addr & 0xfff) + n <= 0x1000,
    ensures
        write_bytes(s, addr, n, v, user) == (CpuState {
            ram: le_write(s.ram, pa as int, n, v),
            ..s
        }),
    decreases n,
{
    if n > 0 {
        lemma_write_first(s, addr, pa, (n - 1) as nat, v, user);
        let t = write_bytes(s, addr, (n - 1) as nat, v, user);
        assert(held(t, addr, pa, true));
        lemma_held_again(t, addr, (n - 1) as u64, pa, true, true, user);
    }
}

/// Bytes read while both pages are held.
proof fn lemma_read_both(x: CpuState, addr: u64, k: int, pa: u64, qa: u64, n: nat, v: u64, user: bool)
    requires
        both_held(x, addr, k, pa, qa),
        n <= 8,
        forall|i: int|
            0 <= i < n ==> byte_at(x.ram, #[trigger] part_at(pa, qa, k, i)) == byte_of(v, i),
    ensures
        read_bytes(x, addr, n, user) == (x, low_bytes(v, n)),
    decreases n,
{
    if n > 0 {
        lemma_read_both(x, addr, k, pa, qa, (n - 1) as nat, v, user);
        lemma_both(x, addr, k, pa, qa, n - 1, false, user);
        assert(byte_at(x.ram, part_at(pa, qa, k, n - 1)) == byte_of(v, n - 1));
        lemma_join(v, (8 * (n - 1)) as u64);
    } else {
        lemma_join(v, 0);
    }
}

/// A fault of the first bytes is there after all of them.
proof fn lemma_write_bytes_later(s: CpuState, addr: u64, m: nat, n: nat, val: u64, user: bool)
    requires
        m <= n,
    ensures
        write_bytes(s, addr, m, val, user).fault is Some ==> write_bytes(s, addr, n, val, user).fault is Some,
    decreases n,
{
    if m < n {
        reveal(translate_access);
        lemma_write_bytes_later(s, addr, m, (n - 1) as nat, val, user);
    }
}

/// An access across two pages: what is written is read.
proof fn lemma_cross(u: CpuState, addr: u64, pa: u64, size: u8, v: u64, user: bool)
    requires
        runnable(u),
        frames_aligned(u),
        steady(u),
        is_width(size),
        !one_page(addr, size),
        held(u, addr, pa, true),
        write_bytes(u, addr, size as nat, v, user).fault is None,
        forall|i: int|
            0 <= i < size ==> #[trigger] translate_access(
                write_bytes(u, addr, size as nat, v, user),
                addr.wrapping_add(i as u64),
                false,
                user,
            ).1 < u.ram.len(),
    ensures
        ({
            let w = write_bytes(u, addr, size as nat, v, user);
            held(w, addr, pa, true) && read_bytes(touched(w, pa), addr, size as nat, user).1 == v
                & mask_of(size)
        }),
        user == (u.cpl == 3) ==> spread(
            u,
            write_bytes(u, addr, size as nat, v, user),
            addr,
            size as int,
            v,
        ),
        frames_aligned(write_bytes(u, addr, size as nat, v, user)),
{
    lemma_one_page(addr, size);
    lemma_set_bounds(addr);
    let k = 0x1000 - (addr & 0xfff);
    let b = addr.wrapping_add(k as u64);
    let c = write_bytes(u, addr, k as nat, v, user);
    lemma_write_first(u, addr, pa, k as nat, v, user);
    law_store_exact(u.ram, pa as int, k as nat, v);
    lemma_write_bytes_later(u, addr, (k + 1) as nat, size as nat, v, user);
    assert(frames_aligned(c)) by {
        assert(c.tlb == u.tlb);
    }
    let (d, qa) = translate_access(c, b, true, user);
    lemma_held(c, b, true, user);
    crate::mmu::law_translate_keeps(c, b, true, user);
    lemma_next_page(addr, k as u64);
    assert(tlb_set(b) != tlb_set(addr)) by {
        lemma_set_bounds(0);
    }
    assert(held(d, addr, pa, true)) by {
        lemma_fill_other(c, addr, b, true, user);
    }
    assert(both_held(d, addr, k, pa, qa));
    let w = write_bytes(u, addr, size as nat, v, user);
    lemma_write_bytes_shape(u, d, addr, k, pa, qa, size as nat, v, user);
    assert(both_held(w, addr, k, pa, qa));
    assert forall|i: int| 0 <= i < size implies 0 <= #[trigger] part_at(pa, qa, k, i) < u.ram.len() by {
        lemma_both(w, addr, k, pa, qa, i, false, user);
        assert(translate_access(w, addr.wrapping_add(i as u64), false, user).1 < u.ram.len());
    }
    lemma_write_both(u, d, addr, k, pa, qa, size as nat, v, user);
    let x = touched(w, pa);
    assert(both_held(x, addr, k, pa, qa));
    lemma_read_both(x, addr, k, pa, qa, size as nat, v, user);
    lemma_low_bytes(v, size);
    law_frames_stay_aligned(c, b, true, user);
    assert(frames_aligned(w)) by {
        assert(w.tlb == d.tlb);
    }
    if user == (u.cpl == 3) {
        assert forall|i: int| 0 <= i < size implies settled(w, addr, v, i) by {
            lemma_both(w, addr, k, pa, qa, i, false, user);
            assert(place(w, addr, i) == part_at(pa, qa, k, i));
            if i < k {
                lemma_held_step(w, addr, i as u64, pa);
            } else {
                lemma_set_bounds(0);
                lemma_held_step(w, b, (i - k) as u64, qa);
            }
        }
        assert forall|y: int| 0 <= y < u.ram.len() && !#[trigger] covers(
            w,
            addr,
            size as int,
            y,
        ) implies w.ram[y] == u.ram[y] by {
            if among(pa, qa, k, size as int, y) {
                let i = choose|i: int| 0 <= i < size && y == #[trigger] part_at(pa, qa, k, i);
                lemma_both(w, addr, k, pa, qa, i, false, user);
                assert(place(w, addr, i) == y);
            }
        }
    }
}

/// A page that is held is held at every address of it.
pub proof fn lemma_held_step(s: CpuState, v: u64, d: u64, pa: u64)
    requires
        held(s, v, pa, true),
        (v & 0xfff) + d <= 0xfff,
    ensures
        v + d <= u64::MAX,
        pa + d <= u64::MAX,
        held(s, (v + d) as u64, (pa + d) as u64, true),
{
    lemma_set_bounds(v);
    lemma_held_again(s, v, d, pa, true, true, false);
    lemma_frame(0, v);
    lemma_page(v, d, v & !0xfff);
    if paging_on(s) {
        lemma_page(v, d, s.tlb[tlb_set(v)].frame);
    }
}

/// A translation leaves the other sets alone.
pub proof fn lemma_fill_other(c: CpuState, v: u64, b: u64, write: bool, user: bool)
    requires
        runnable(c),
        tlb_set(b) != tlb_set(v),
    ensures
        translate_access(c, b, write, user).0.tlb[tlb_set(v)] == c.tlb[tlb_set(v)],
{
    reveal(translate_access);
    lemma_set_bounds(v);
    lemma_set_bounds(b);
}

/// The later bytes change memory only.
proof fn lemma_write_bytes_shape(s: CpuState, d: CpuState, addr: u64, k: int, pa: u64, qa: u64, n: nat, v: u64, user: bool)
    requires
        both_held(d, addr, k, pa, qa),
        k < n <= 8,
        d == translate_access(
            write_bytes(s, addr, k as nat, v, user),
            addr.wrapping_add(k as u64),
            true,
            user,
        ).0,
        qa == translate_access(
            write_bytes(s, addr, k as nat, v, user),
            addr.wrapping_add(k as u64),
            true,
            user,
        ).1,
    ensures
        write_bytes(s, addr, n, v, user) == (CpuState {
            ram: write_bytes(s, addr, n, v, user).ram,
            ..d
        }),
    decreases n,
{
    if n > k + 1 {
        lemma_write_bytes_shape(s, d, addr, k, pa, qa, (n - 1) as nat, v, user);
        let t = write_bytes(s, addr, (n - 1) as nat, v, user);
        assert(both_held(t, addr, k, pa, qa));
        lemma_both(t, addr, k, pa, qa, n - 1, true, user);
    }
}

/// Where a load of a byte goes.
pub open spec fn read_at(s: CpuState, addr: u64) -> u64 {
    translate_access(s, addr, false, s.cpl == 3).1
}

/// Where the `i`-th byte from an address is loaded from.
pub open spec fn place(s: CpuState, addr: u64, i: int) -> u64 {
    read_at(s, addr.wrapping_add(i as u64))
}

/// One of the `n` bytes from an address is loaded from `x`.
pub open spec fn covers(s: CpuState, addr: u64, n: int, x: int) -> bool {
    exists|i: int| 0 <= i < n && x == #[trigger] place(s, addr, i)
}

/// The `i`-th byte from an address lies in RAM, on a page that is held, and is that of a value.
pub open spec fn settled(s: CpuState, addr: u64, v: u64, i: int) -> bool {
    &&& held(s, addr.wrapping_add(i as u64), place(s, addr, i), true)
    &&& place(s, addr, i) < s.ram.len()
    &&& s.ram[place(s, addr, i) as int] == byte_of(v, i)
}

/// A store of `n` bytes has settled them, wherever their pages lie, and nothing else in memory.
pub open spec fn spread(before: CpuState, s: CpuState, addr: u64, n: int, v: u64) -> bool {
    &&& s.ram.len() == before.ram.len()
    &&& forall|i: int| 0 <= i < n ==> #[trigger] settled(s, addr, v, i)
    &&& forall|x: int|
        0 <= x < s.ram.len() && !#[trigger] covers(s, addr, n, x) ==> s.ram[x] == before.ram[x]
}

/// A store to RAM leaves the pages of its bytes in the cache.
pub proof fn lemma_store_held(s: CpuState, addr: u64, size: u8, v: u64)
    requires
        runnable(s),
        frames_aligned(s),
        steady(s),
        is_width(size),
        s.fault is None,
        mem_write(s, addr, size, v).fault is None,
        plain(translate_access(s, addr, true, s.cpl == 3).1),
    ensures
        forall|i: int|
            0 <= i < size ==> held(
                mem_write(s, addr, size, v),
                addr.wrapping_add(i as u64),
                #[trigger] place(mem_write(s, addr, size, v), addr, i),
                true,
            ),
{
    reveal(mem_write);
    let user = s.cpl == 3;
    let w = mem_write(s, addr, size, v);
    let (t, pa) = translate_access(s, addr, true, user);
    crate::mmu::law_translate_keeps(s, addr, true, user);
    law_store_keeps(s, addr, size, v);
    law_frames_stay_aligned(s, addr, true, user);
    lemma_one_page(addr, size);
    lemma_set_of_line(pa);
    let u = touched(t, pa);
    lemma_write_bytes_fault(u, addr, size as nat, v, user);
    lemma_held(s, addr, true, user);
    assert(held(u, addr, pa, true));
    if one_page(addr, size) {
        assert(held(w, addr, pa, true));
        assert forall|i: int| 0 <= i < size implies held(
            w,
            addr.wrapping_add(i as u64),
            #[trigger] place(w, addr, i),
            true,
        ) by {
            lemma_held_again(w, addr, i as u64, pa, true, false, user);
            lemma_held_step(w, addr, i as u64, pa);
        }
    } else {
        lemma_set_bounds(addr);
        let k = 0x1000 - (addr & 0xfff);
        let b = addr.wrapping_add(k as u64);
        let c = write_bytes(u, addr, k as nat, v, user);
        lemma_write_first(u, addr, pa, k as nat, v, user);
        lemma_write_bytes_later(u, addr, (k + 1) as nat, size as nat, v, user);
        assert(frames_aligned(c)) by {
            assert(c.tlb == t.tlb);
        }
        law_store_exact(u.ram, pa as int, k as nat, v);
        let (d, qa) = translate_access(c, b, true, user);
        lemma_held(c, b, true, user);
        crate::mmu::law_translate_keeps(c, b, true, user);
        lemma_next_page(addr, k as u64);
        lemma_set_bounds(0);
        lemma_fill_other(c, addr, b, true, user);
        assert(both_held(d, addr, k, pa, qa));
        lemma_write_bytes_shape(u, d, addr, k, pa, qa, size as nat, v, user);
        assert(both_held(w, addr, k, pa, qa));
        assert forall|i: int| 0 <= i < size implies held(
            w,
            addr.wrapping_add(i as u64),
            #[trigger] place(w, addr, i),
            true,
        ) by {
            lemma_both(w, addr, k, pa, qa, i, false, user);
            if i < k {
                lemma_held_step(w, addr, i as u64, pa);
            } else {
                lemma_held_step(w, b, (i - k) as u64, qa);
            }
        }
    }
}

/// A store to RAM settles its bytes.
pub proof fn lemma_store_spread(s: CpuState, addr: u64, size: u8, v: u64)
    requires
        runnable(s),
        frames_aligned(s),
        steady(s),
        is_width(size),
        s.fault is None,
        mem_write(s, addr, size, v).fault is None,
        plain(translate_access(s, addr, true, s.cpl == 3).1),
        forall|i: int|
            0 <= i < size ==> #[trigger] place(mem_write(s, addr, size, v), addr, i) < s.ram.len(),
    ensures
        spread(s, mem_write(s, addr, size, v), addr, size as int, v),
        frames_aligned(mem_write(s, addr, size, v)),
{
    reveal(mem_write);
    let user = s.cpl == 3;
    let w = mem_write(s, addr, size, v);
    let (t, pa) = translate_access(s, addr, true, user);
    crate::mmu::law_translate_keeps(s, addr, true, user);
    law_store_keeps(s, addr, size, v);
    law_frames_stay_aligned(s, addr, true, user);
    lemma_one_page(addr, size);
    lemma_set_of_line(pa);
    let u = touched(t, pa);
    assert(frames_aligned(u)) by {
        assert(u.tlb == t.tlb);
    }
    if one_page(addr, size) {
        lemma_held(s, addr, true, user);
        assert(held(w, addr, pa, true));
        law_store_exact(s.ram, pa as int, size as nat, v);
        assert forall|i: int| 0 <= i < size implies #[trigger] settled(w, addr, v, i) by {
            lemma_held_again(w, addr, i as u64, pa, true, false, user);
            lemma_held_step(w, addr, i as u64, pa);
            assert(place(w, addr, i) < s.ram.len());
        }
        assert forall|x: int| 0 <= x < s.ram.len() && !#[trigger] covers(
            w,
            addr,
            size as int,
            x,
        ) implies w.ram[x] == s.ram[x] by {
            if pa <= x < pa + size {
                lemma_held_again(w, addr, (x - pa) as u64, pa, true, false, user);
                assert(place(w, addr, x - pa) == x);
            }
        }
        assert(frames_aligned(w)) by {
            assert(w.tlb == u.tlb);
        }
    } else {
        lemma_write_bytes_fault(u, addr, size as nat, v, user);
        lemma_held(s, addr, true, user);
        assert(held(u, addr, pa, true));
        assert forall|i: int| 0 <= i < size implies #[trigger] translate_access(
            w,
            addr.wrapping_add(i as u64),
            false,
            user,
        ).1 < u.ram.len() by {
            assert(place(w, addr, i) < s.ram.len());
        }
        lemma_cross(u, addr, pa, size, v, user);
    }
}

/// A load gives back what a store has put at the same address, in RAM, on one page or across two,
/// through the page tables or without them.
pub proof fn law_load_after_store(s: CpuState, addr: u64, size: u8, v: u64)
    requires
        runnable(s),
        frames_aligned(s),
        steady(s),
        is_width(size),
        s.fault is None,
        mem_write(s, addr, size, v).fault is None,
        plain(translate_access(s, addr, true, s.cpl == 3).1),
        forall|i: int|
            0 <= i < size ==> #[trigger] read_at(mem_write(s, addr, size, v), addr.wrapping_add(i as u64))
                < s.ram.len(),
    ensures
        mem_read(mem_write(s, addr, size, v), addr, size).1 == v & mask_of(size),
{
    reveal(mem_read);
    reveal(mem_write);
    let user = s.cpl == 3;
    let w = mem_write(s, addr, size, v);
    let (t, pa) = translate_access(s, addr, true, user);
    crate::mmu::law_translate_keeps(s, addr, true, user);
    law_store_keeps(s, addr, size, v);
    lemma_one_page(addr, size);
    lemma_set_of_line(pa);
    if one_page(addr, size) {
        lemma_held(s, addr, true, user);
        assert(held(w, addr, pa, true));
        lemma_held_again(w, addr, (size - 1) as u64, pa, true, false, user);
        assert(read_at(w, addr.wrapping_add((size - 1) as u64)) < s.ram.len());
        lemma_one_page_store(s, addr, size, v);
    } else {
        let u = touched(t, pa);
        lemma_write_bytes_fault(u, addr, size as nat, v, user);
        lemma_held(s, addr, true, user);
        assert(held(u, addr, pa, true));
        assert(frames_aligned(u)) by {
            law_frames_stay_aligned(s, addr, true, user);
            assert(u.tlb == t.tlb);
        }
        assert forall|i: int| 0 <= i < size implies #[trigger] translate_access(
            w,
            addr.wrapping_add(i as u64),
            false,
            user,
        ).1 < u.ram.len() by {
            assert(read_at(w, addr.wrapping_add(i as u64)) < s.ram.len());
        }
        lemma_cross(u, addr, pa, size, v, user);
        lemma_set_bounds(addr);
        lemma_held_again(w, addr, 0, pa, true, false, user);
    }
}

/// Neighbouring bytes have different offsets in their pages.
proof fn lemma_offsets_differ(v: u64, i: u64, j: u64)
    by (bit_vector)
    requires
        i < j <= 7,
    ensures
        v + j <= 0xffff_ffff_ffff_ffff ==> ((v + i) as u64) & 0xfff != ((v + j) as u64) & 0xfff,
        v + i <= 0xffff_ffff_ffff_ffff && v + j > 0xffff_ffff_ffff_ffff ==> ((v + i) as u64) & 0xfff
            != ((v + j - 0x1_0000_0000_0000_0000) as u64) & 0xfff,
        v + i > 0xffff_ffff_ffff_ffff ==> ((v + i - 0x1_0000_0000_0000_0000) as u64) & 0xfff != ((v
            + j - 0x1_0000_0000_0000_0000) as u64) & 0xfff,
{
}

/// Where the `i`-th byte of a store goes.
pub open spec fn landing(s: CpuState, addr: u64, size: u8, v: u64, i: int) -> u64 {
    let user = s.cpl == 3;
    let (t, pa) = translate_access(s, addr, true, user);
    if one_page(addr, size) {
        (pa + i) as u64
    } else {
        translate_access(
            write_bytes(touched(t, pa), addr, i as nat, v, user),
            addr.wrapping_add(i as u64),
            true,
            user,
        ).1
    }
}

/// With every byte walked by itself, each is where it was put.
proof fn lemma_walked_bytes(u: CpuState, addr: u64, size: nat, v: u64, user: bool, n: nat)
    requires
        runnable(u),
        !u.cfg.tlb_cache,
        n <= size <= 8,
        write_bytes(u, addr, size, v, user).fault is None,
        forall|i: int|
            0 <= i < size ==> (#[trigger] translate_access(
                write_bytes(u, addr, i as nat, v, user),
                addr.wrapping_add(i as u64),
                true,
                user,
            )).1 < u.ram.len(),
    ensures
        forall|i: int|
            0 <= i < n ==> byte_at(
                write_bytes(u, addr, n, v, user).ram,
                (#[trigger] translate_access(
                    write_bytes(u, addr, i as nat, v, user),
                    addr.wrapping_add(i as u64),
                    true,
                    user,
                )).1 as int,
            ) == byte_of(v, i),
    decreases n,
{
    if n > 0 {
        let m = (n - 1) as nat;
        lemma_walked_bytes(u, addr, size, v, user, m);
        lemma_write_bytes_keep(u, addr, m, v, user);
        lemma_write_bytes_later(u, addr, n, size, v, user);
        let b = write_bytes(u, addr, m, v, user);
        let (c, pa) = translate_access(b, addr.wrapping_add(m as u64), true, user);
        crate::mmu::law_translate_keeps(b, addr.wrapping_add(m as u64), true, user);
        lemma_walked_offset(b, addr.wrapping_add(m as u64), user);
        assert forall|i: int| 0 <= i < n implies byte_at(
            write_bytes(u, addr, n, v, user).ram,
            (#[trigger] translate_access(
                write_bytes(u, addr, i as nat, v, user),
                addr.wrapping_add(i as u64),
                true,
                user,
            )).1 as int,
        ) == byte_of(v, i) by {
            if i < m {
                let d = write_bytes(u, addr, i as nat, v, user);
                lemma_write_bytes_keep(u, addr, i as nat, v, user);
                lemma_write_bytes_later(u, addr, (i + 1) as nat, size, v, user);
                lemma_walked_offset(d, addr.wrapping_add(i as u64), user);
                lemma_offsets_differ(addr, i as u64, m as u64);
            }
        }
    }
}

/// A walk that succeeds keeps the offset.
proof fn lemma_walked_offset(b: CpuState, v: u64, user: bool)
    requires
        !b.cfg.tlb_cache,
        translate_access(b, v, true, user).0.fault is None,
    ensures
        translate_access(b, v, true, user).1 & 0xfff == v & 0xfff,
{
    reveal(translate_access);
    lemma_walk_offset(b, v, true, user);
}

/// Bytes read while a walk finds each.
proof fn lemma_read_walked(x: CpuState, addr: u64, n: nat, v: u64, user: bool)
    requires
        runnable(x),
        !x.cfg.tlb_cache,
        x.fault is None,
        n <= 8,
        forall|i: int|
            0 <= i < n ==> (#[trigger] page_walk(x, addr.wrapping_add(i as u64), false, user)) is Ok
                && byte_at(
                x.ram,
                page_walk(x, addr.wrapping_add(i as u64), false, user)->Ok_0 as int,
            ) == byte_of(v, i),
    ensures
        read_bytes(x, addr, n, user).1 == low_bytes(v, n),
        read_bytes(x, addr, n, user).0.fault is None,
    decreases n,
{
    if n > 0 {
        let a = addr.wrapping_add((n - 1) as u64);
        lemma_read_walked(x, addr, (n - 1) as nat, v, user);
        lemma_read_bytes_keep(x, addr, (n - 1) as nat, user);
        let t = read_bytes(x, addr, (n - 1) as nat, user).0;
        assert(page_walk(t, a, false, user) == page_walk(x, a, false, user)) by {
            reveal(page_walk);
        }
        reveal(translate_access);
        lemma_join(v, (8 * (n - 1)) as u64);
    } else {
        lemma_join(v, 0);
    }
}

/// With the translation cache off every access walks the tables anew. A load gives back what a store
/// has put at the same address there too, unless the store has changed where the tables lead.
#[verifier::spinoff_prover]
#[verifier::rlimit(40)]
pub proof fn law_load_after_store_walked(s: CpuState, addr: u64, size: u8, v: u64)
    requires
        runnable(s),
        !s.cfg.tlb_cache,
        is_width(size),
        s.fault is None,
        mem_write(s, addr, size, v).fault is None,
        plain(translate_access(s, addr, true, s.cpl == 3).1),
        forall|i: int|
            0 <= i < size ==> (#[trigger] landing(s, addr, size, v, i)) < s.ram.len() && page_walk(
                mem_write(s, addr, size, v),
                addr.wrapping_add(i as u64),
                false,
                s.cpl == 3,
            ) == Ok::<u64, u64>(landing(s, addr, size, v, i)),
    ensures
        mem_read(mem_write(s, addr, size, v), addr, size).1 == v & mask_of(size),
{
    reveal(mem_read);
    reveal(mem_write);
    let user = s.cpl == 3;
    let w = mem_write(s, addr, size, v);
    let (t, pa) = translate_access(s, addr, true, user);
    let u = touched(t, pa);
    crate::mmu::law_translate_keeps(s, addr, true, user);
    law_store_keeps(s, addr, size, v);
    lemma_set_of_line(pa);
    lemma_one_page(addr, size);
    lemma_low_bytes(v, size);
    assert(addr.wrapping_add(0) == addr);
    assert(landing(s, addr, size, v, 0) == pa) by {
        lemma_write_bytes_fault(u, addr, size as nat, v, user);
        reveal(translate_access);
        reveal(page_walk);
    }
    assert(landing(s, addr, size, v, 0) < s.ram.len());
    let (x, qa) = translate_access(w, addr, false, user);
    assert(qa == pa && x.fault is None) by {
        reveal(translate_access);
    }
    crate::mmu::law_translate_keeps(w, addr, false, user);
    if one_page(addr, size) {
        lemma_walked_offset(s, addr, user);
        lemma_frame(0, pa);
        lemma_page(pa, (size - 1) as u64, pa & !0xfff);
        assert(landing(s, addr, size, v, size - 1) < s.ram.len());
        law_store_load(s.ram, pa as int, size as nat, v);
    } else {
        lemma_write_bytes_fault(u, addr, size as nat, v, user);
        assert forall|i: int| 0 <= i < size implies (#[trigger] translate_access(
            write_bytes(u, addr, i as nat, v, user),
            addr.wrapping_add(i as u64),
            true,
            user,
        )).1 < u.ram.len() by {
            assert(landing(s, addr, size, v, i) < s.ram.len());
        }
        lemma_walked_bytes(u, addr, size as nat, v, user, size as nat);
        let y = touched(x, pa);
        assert forall|i: int| 0 <= i < size implies (#[trigger] page_walk(
            y,
            addr.wrapping_add(i as u64),
            false,
            user,
        )) is Ok && byte_at(
            y.ram,
            page_walk(y, addr.wrapping_add(i as u64), false, user)->Ok_0 as int,
        ) == byte_of(v, i) by {
            let p = landing(s, addr, size, v, i);
            assert(page_walk(w, addr.wrapping_add(i as u64), false, user) == Ok::<u64, u64>(p));
            assert(page_walk(y, addr.wrapping_add(i as u64), false, user) == Ok::<u64, u64>(p)) by {
                reveal(page_walk);
            }
            assert(translate_access(
                write_bytes(u, addr, i as nat, v, user),
                addr.wrapping_add(i as u64),
                true,
                user,
            ).1 == p);
        }
        lemma_read_walked(y, addr, size as nat, v, user);
    }
}

/// A quadword popped is the one pushed last, and the registers are as they were, the stack pointer
/// included: in RAM, on one page or across two.
pub proof fn law_push_pop(s: CpuState, v: u64)
    requires
        runnable(s),
        s.r.len() == 16,
        frames_aligned(s),
        steady(s),
        s.fault is None,
        stack_push(s, v).fault is None,
        plain(translate_access(s, s.r[4].wrapping_sub(8), true, s.cpl == 3).1),
        forall|i: int|
            0 <= i < 8 ==> #[trigger] read_at(
                stack_push(s, v),
                s.r[4].wrapping_sub(8).wrapping_add(i as u64),
            ) < s.ram.len(),
    ensures
        stack_pop(stack_push(s, v), 8).1 == v,
        stack_pop(stack_push(s, v), 8).0.r == s.r,
{
    reveal(stack_push);
    reveal(stack_pop);
    let sp = s.r[4].wrapping_sub(8);
    let s0 = with_reg(s, 4, sp);
    assert(frames_aligned(s0)) by {
        assert(s0.tlb == s.tlb);
    }
    assert(translate_access(s0, sp, true, s.cpl == 3).1 == translate_access(
        s,
        sp,
        true,
        s.cpl == 3,
    ).1) by {
        reveal(translate_access);
        reveal(page_walk);
    }
    let t = mem_write(s0, sp, 8, v);
    law_load_after_store(s0, sp, 8, v);
    lemma_join(v, 0);
    law_store_keeps(s0, sp, 8, v);
    law_load_keeps(t, sp, 8);
    assert(stack_pop(stack_push(s, v), 8).0.r =~= s.r);
}

// ----- what the page tables say -----

/// Write protection: where a write is let through, a read goes to the same place; where only a read
/// is, the fault says that the page is present and read-only. A user's write, and under `CR0.WP`
/// every write, goes only to pages that each level of the tables marks writable.
pub proof fn law_write_protection(s: CpuState, v: u64, user: bool)
    ensures
        page_walk(s, v, true, user) is Ok ==> page_walk(s, v, true, user) == page_walk(s, v, false, user),
        page_walk(s, v, false, user) is Ok && page_walk(s, v, true, user) is Err ==> page_walk(
            s,
            v,
            true,
            user,
        ) == Err::<u64, u64>(0x3 | (if user { 0x4u64 } else { 0u64 })),
        paging_on(s) && (user || s.cr0 & 0x1_0000 != 0) && page_walk(s, v, true, user) is Ok ==> ({
            let e4 = table_entry(s.ram, s.cr3, v, 3);
            let e3 = table_entry(s.ram, e4, v, 2);
            let e2 = table_entry(s.ram, e3, v, 1);
            let e1 = table_entry(s.ram, e2, v, 0);
            &&& e4 & 2 != 0
            &&& e3 & 2 != 0
            &&& e3 & 0x80 == 0 ==> e2 & 2 != 0
            &&& e3 & 0x80 == 0 && e2 & 0x80 == 0 ==> e1 & 2 != 0
        }),
{
    reveal(page_walk);
    lemma_set_bounds(0);
}

/// No cached translation survives a flush, so the next access walks the tables as they are. The
/// cache must hold nothing from a later flush than the last one.
pub proof fn law_flush_walks(s: CpuState, v: u64, write: bool, user: bool)
    requires
        runnable(s),
        s.fault is None,
        forall|i: int| 0 <= i < s.tlb.len() ==> (#[trigger] s.tlb[i]).gen != s.tlb_gen.wrapping_add(1),
    ensures
        page_walk(s, v, write, user) matches Ok(pa) ==> translate_access(
            flushed(s),
            v,
            write,
            user,
        ).1 == pa && translate_access(flushed(s), v, write, user).0.fault is None,
        page_walk(s, v, write, user) is Err ==> translate_access(flushed(s), v, write, user).0.fault is Some,
{
    reveal(translate_access);
    reveal(page_walk);
    lemma_set_bounds(v);
    assert(s.tlb[tlb_set(v)].gen != s.tlb_gen.wrapping_add(1));
}

/// Without paging every address stands for itself.
pub proof fn law_no_paging(s: CpuState, v: u64, write: bool, user: bool)
    requires
        !paging_on(s),
        s.fault is None,
    ensures
        translate_access(s, v, write, user) == (s, v),
{
    reveal(translate_access);
    reveal(page_walk);
}

// ----- registers -----

/// A register written at a width reads back at that width, and no other register changes; a 32-bit
/// write clears the upper half.
pub proof fn law_register_write(s: CpuState, i: int, size: u8, v: u64)
    requires
        is_width(size),
        s.r.len() == 16,
        0 <= i < 16,
    ensures
        reg_value(reg_write(s, i, size, v), i, size) == v & mask_of(size),
        forall|k: int|
            0 <= k < 16 && k != i && (size > 1 || s.rex_present || k != i - 4) ==> #[trigger] reg_write(
                s,
                i,
                size,
                v,
            ).r[k] == s.r[k],
        size == 4 ==> reg_write(s, i, size, v).r[i] == v & 0xffff_ffff,
        reg_write(s, i, size, v) == (CpuState { r: reg_write(s, i, size, v).r, ..s }),
{
    let old = if size == 1 && crate::operand::high_byte(s, i) {
        s.r[i - 4]
    } else {
        s.r[i]
    };
    lemma_merge(old, v);
}

proof fn lemma_merge(old: u64, v: u64)
    by (bit_vector)
    ensures
        (((old & !0xff00) | ((v & 0xff) << 8)) >> 8) & 0xff == v & 0xff,
        ((old & !0xff) | (v & 0xff)) & 0xff == v & 0xff,
        ((old & !0xffff) | (v & 0xffff)) & 0xffff == v & 0xffff,
        (v & 0xffff_ffff) & 0xffff_ffff == v & 0xffff_ffff,
        (v & 0xffff_ffff_ffff_ffff) & 0xffff_ffff_ffff_ffff == v & 0xffff_ffff_ffff_ffff,
{
}

proof fn lemma_latched_bytes(s: CpuState, addr: u64, n: nat, val: u64, user: bool)
    requires
        s.fault is Some,
    ensures
        read_bytes(s, addr, n, user).0 == s,
        ({
            let t = write_bytes(s, addr, n, val, user);
            &&& t == (CpuState { ram: t.ram, ..s })
            &&& t.ram.len() == s.ram.len()
            &&& forall|i: int| 0 < i < s.ram.len() ==> t.ram[i] == s.ram[i]
        }),
    decreases n,
{
    reveal(translate_access);
    if n > 0 {
        lemma_latched_bytes(s, addr, (n - 1) as nat, val, user);
    }
}

/// An access that cannot be translated reaches no device: of the platform only the data cache and the
/// clock that pays for it move, and memory changes at physical zero only.
pub proof fn law_fault_reaches_no_device(s: CpuState, addr: u64, size: u8, val: u64)
    requires
        is_width(size),
        runnable(s),
    ensures
        translate_access(s, addr, true, s.cpl == 3).0.fault is Some ==> {
            let t = mem_write(s, addr, size, val);
            &&& t.sys == (SysState { dcache: t.sys.dcache, tsc: t.sys.tsc, ..s.sys })
            &&& t.ram.len() == s.ram.len()
            &&& forall|i: int| size <= i < s.ram.len() ==> t.ram[i] == s.ram[i]
        },
        translate_access(s, addr, false, s.cpl == 3).0.fault is Some ==> {
            let t = mem_read(s, addr, size).0;
            &&& t.sys == (SysState { dcache: t.sys.dcache, tsc: t.sys.tsc, ..s.sys })
            &&& t.ram == s.ram
        },
{
    reveal(translate_access);
    reveal(mem_write);
    reveal(mem_read);
    let user = s.cpl == 3;
    let (t, pa) = translate_access(s, addr, true, user);
    let (u, qa) = translate_access(s, addr, false, user);
    if t.fault is Some {
        law_store_exact(touched(t, pa).ram, 0, size as nat, val);
        lemma_latched_bytes(touched(t, pa), addr, size as nat, val, user);
    }
    if u.fault is Some {
        lemma_latched_bytes(touched(u, qa), addr, size as nat, val, user);
    }
}

/// A line that the data cache holds costs nothing: the second of two accesses to it changes neither
/// the cache nor the clock.
pub proof fn law_cached_line(s: CpuState, pa: u64, qa: u64)
    requires
        s.sys.dcache.len() >= 512,
        pa >> 6 == qa >> 6,
    ensures
        touched(touched(s, pa), qa) == touched(s, pa),
{
    lemma_set_of_line(pa);
}

/// Switching to another address space and back, without asking for a flush on return, keeps the
/// translations of the first: what was cached still answers, and with the same frame.
pub proof fn law_spaces_kept(s: CpuState, other: u64, back: u64, v: u64, write: bool, user: bool)
    requires
        runnable(s),
        s.fault is None,
        s.cr4 & CR4_PCIDE != 0,
        other & 0xfff != s.cr3 & 0xfff,
        back & 0xfff == s.cr3 & 0xfff,
        back & 0x8000_0000_0000_0000 != 0,
        tlb_hit(s, v, write),
    ensures
        ({
            let t = cr_write(cr_write(s, 3, other), 3, back);
            &&& tlb_hit(t, v, write)
            &&& translate_access(t, v, write, user) == (t, translate_access(s, v, write, user).1)
        }),
{
    reveal(translate_access);
    lemma_set_bounds(other);
    lemma_set_bounds(back);
    lemma_set_bounds(s.cr3);
}

} // verus!
