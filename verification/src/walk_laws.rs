//! Laws of machines whose cached translations agree with the page tables: an access finds its bytes
//! where a walk finds them, whatever the caches hold.
use vstd::prelude::*;
#[allow(unused_imports)]
use crate::cpu::{reset_state, runnable, Config, CpuState};
#[allow(unused_imports)]
use crate::memory_laws::{
    frames_aligned, law_frames_stay_aligned, law_store_exact, lemma_frame, lemma_one_page,
    lemma_page, lemma_same_bytes, lemma_same_page, lemma_set_of_line, lemma_walk_alike,
    lemma_walk_offset, plain,
};
#[allow(unused_imports)]
use crate::mmu::{
    byte_at, fetch_byte, ifetch_fill, ifetch_hit, le_read, le_write, lemma_set_bounds, mem_read,
    mem_write, one_page, page_walk, paging_on, read_bytes, table_entry, tlb_fill, tlb_hit, tlb_set,
    touched, translate_access, with_byte, write_bytes,
};
#[allow(unused_imports)]
use crate::operand::with_rip;

verus! {

// ----- caches that agree with the tables -----

/// The machine without what its translation caches hold, and without the shortcuts.
pub open spec fn erased(s: CpuState) -> CpuState {
    CpuState {
        tlb: Seq::empty(),
        ifetch_tag: 0,
        ifetch_frame: 0,
        ifetch_gen: 0,
        ifetch_pgen: 0,
        ifetch_pcid: 0,
        cfg: Config { fastpaths: false, ..s.cfg },
        ..s
    }
}

/// Two machines that differ in nothing but what their translation caches hold and whether they take
/// the shortcuts.
pub open spec fn like(s: CpuState, t: CpuState) -> bool {
    erased(s) == erased(t)
}

/// The tables map an address for an access at the present privilege.
pub open spec fn walks(s: CpuState, v: u64, write: bool) -> bool {
    page_walk(s, v, write, s.cpl == 3) is Ok
}

/// Where they map it to.
pub open spec fn walk_to(s: CpuState, v: u64, write: bool) -> u64 {
    page_walk(s, v, write, s.cpl == 3)->Ok_0
}

/// The code-page cache answers for an address.
pub open spec fn code_held(s: CpuState, v: u64) -> bool {
    ifetch_hit(CpuState { rip: v, fault: None, ..s })
}

/// What the caches answer is what a walk of the tables gives at the present privilege.
pub open spec fn caches_agree(s: CpuState) -> bool {
    &&& forall|v: u64, w: bool| #[trigger]
        tlb_hit(s, v, w) ==> page_walk(s, v, w, s.cpl == 3) == Ok::<u64, u64>(
            s.tlb[tlb_set(v)].frame | (v & 0xfff),
        )
    &&& forall|v: u64| #[trigger]
        code_held(s, v) ==> page_walk(s, v, false, s.cpl == 3) == Ok::<u64, u64>(
            s.ifetch_frame | (v & 0xfff),
        )
}

/// A machine that can execute, with no fault latched and its caches in order.
pub open spec fn calm(s: CpuState) -> bool {
    &&& s.fault is None
    &&& runnable(s)
    &&& s.r.len() == 16
    &&& frames_aligned(s)
    &&& caches_agree(s)
}

/// A machine at reset is such a machine: its caches hold nothing.
pub proof fn law_reset_calm(ram: Seq<u8>)
    ensures
        calm(reset_state(ram)),
{
    lemma_set_bounds(0);
    let s = reset_state(ram);
    assert forall|v: u64, w: bool| !#[trigger] tlb_hit(s, v, w) by {
        lemma_set_bounds(v);
    }
}

/// A page that is mapped for an access is mapped as a whole, for that access and for reads.
pub proof fn lemma_same_walk(
    s: CpuState,
    v: u64,
    w: u64,
    write: bool,
    other: bool,
    user: bool,
)
    requires
        v & !0xfff == w & !0xfff,
        other ==> write,
        page_walk(s, v, write, user) is Ok,
    ensures
        page_walk(s, w, other, user) == Ok::<u64, u64>(
            (page_walk(s, v, write, user)->Ok_0 & !0xfff) | (w & 0xfff),
        ),
{
    lemma_walk_offset(s, w, other, user);
    reveal(page_walk);
    if paging_on(s) {
        lemma_same_page(v, w, 0);
        let e4 = table_entry(s.ram, s.cr3, v, 3);
        let e3 = table_entry(s.ram, e4, v, 2);
        let e2 = table_entry(s.ram, e3, v, 1);
        let e1 = table_entry(s.ram, e2, v, 0);
        assert(table_entry(s.ram, s.cr3, w, 3) == e4);
        assert(table_entry(s.ram, e4, w, 2) == e3);
        assert(table_entry(s.ram, e3, w, 1) == e2);
        assert(table_entry(s.ram, e2, w, 0) == e1);
        lemma_same_page(v, w, e3);
        lemma_same_page(v, w, e2);
        lemma_same_page(v, w, e1);
    }
    lemma_frame(0, page_walk(s, w, other, user)->Ok_0);
}

/// The caches agree with tables that stay as they are.
pub proof fn lemma_calm(s: CpuState, t: CpuState)
    requires
        calm(s),
        t.fault is None,
        runnable(t),
        t.r.len() == 16,
        t.tlb == s.tlb,
        t.tlb_gen == s.tlb_gen,
        t.pcid_gen == s.pcid_gen,
        t.ifetch_tag == s.ifetch_tag,
        t.ifetch_frame == s.ifetch_frame,
        t.ifetch_gen == s.ifetch_gen,
        t.ifetch_pgen == s.ifetch_pgen,
        t.ifetch_pcid == s.ifetch_pcid,
        t.cfg.tlb_cache == s.cfg.tlb_cache,
        t.cpl == s.cpl,
        tables_kept(s, t),
    ensures
        calm(t),
{
    lemma_tables_kept(s, t);
    assert forall|v: u64, w: bool| #[trigger] tlb_hit(t, v, w) implies page_walk(t, v, w, t.cpl == 3)
        == Ok::<u64, u64>(t.tlb[tlb_set(v)].frame | (v & 0xfff)) by {
        assert(tlb_hit(s, v, w));
    }
    assert forall|v: u64| #[trigger] code_held(t, v) implies page_walk(t, v, false, t.cpl == 3) == Ok::<
        u64,
        u64,
    >(t.ifetch_frame | (v & 0xfff)) by {
        assert(code_held(s, v));
    }
}

/// A translation is the walk, and the caches agree afterwards.
pub proof fn lemma_translated(s: CpuState, v: u64, write: bool)
    requires
        calm(s),
        walks(s, v, write),
    ensures
        translate_access(s, v, write, s.cpl == 3).1 == walk_to(s, v, write),
        translate_access(s, v, write, s.cpl == 3).0 == (CpuState {
            tlb: translate_access(s, v, write, s.cpl == 3).0.tlb,
            ..s
        }),
        calm(translate_access(s, v, write, s.cpl == 3).0),
{
    let user = s.cpl == 3;
    law_frames_stay_aligned(s, v, write, user);
    lemma_set_bounds(v);
    reveal(translate_access);
    let (t, pa) = translate_access(s, v, write, user);
    if !tlb_hit(s, v, write) && paging_on(s) {
        assert(t == tlb_fill(s, v, pa, write));
        assert forall|a: u64, w: bool| #[trigger] tlb_hit(t, a, w) implies page_walk(
            t,
            a,
            w,
            t.cpl == 3,
        ) == Ok::<u64, u64>(t.tlb[tlb_set(a)].frame | (a & 0xfff)) by {
            lemma_walk_alike(s, t, a, w, user);
            lemma_set_bounds(a);
            if tlb_set(a) == tlb_set(v) {
                lemma_same_walk(s, v, a, write, w, user);
            } else {
                assert(t.tlb[tlb_set(a)] == s.tlb[tlb_set(a)]);
                assert(tlb_hit(s, a, w));
            }
        }
        assert forall|a: u64| #[trigger] code_held(t, a) implies page_walk(t, a, false, t.cpl == 3)
            == Ok::<u64, u64>(t.ifetch_frame | (a & 0xfff)) by {
            lemma_walk_alike(s, t, a, false, user);
            assert(code_held(s, a));
        }
    }
}

// ----- what the tables occupy -----

/// Where a table keeps the entry for an address.
pub open spec fn entry_at(base: u64, v: u64, level: int) -> int {
    let shift = (12 + 9 * level) as u64;
    (base & 0x000f_ffff_ffff_f000) + ((v >> shift) & 0x1ff) * 8
}

/// A byte belongs to the entry a table keeps for an address.
pub open spec fn in_entry(base: u64, v: u64, level: int, x: int) -> bool {
    entry_at(base, v, level) <= x < entry_at(base, v, level) + 8
}

/// The walk of an address looks at a byte.
pub open spec fn walk_reads(s: CpuState, v: u64, x: int) -> bool {
    let e4 = table_entry(s.ram, s.cr3, v, 3);
    let e3 = table_entry(s.ram, e4, v, 2);
    let e2 = table_entry(s.ram, e3, v, 1);
    ||| in_entry(s.cr3, v, 3, x)
    ||| e4 & 1 != 0 && in_entry(e4, v, 2, x)
    ||| e4 & 1 != 0 && e3 & 1 != 0 && e3 & 0x80 == 0 && in_entry(e3, v, 1, x)
    ||| e4 & 1 != 0 && e3 & 1 != 0 && e3 & 0x80 == 0 && e2 & 1 != 0 && e2 & 0x80 == 0 && in_entry(
        e2,
        v,
        0,
        x,
    )
}

/// A byte belongs to the page tables: some walk looks at it.
pub open spec fn in_tables(s: CpuState, x: int) -> bool {
    paging_on(s) && exists|v: u64| #[trigger] walk_reads(s, v, x)
}

/// The paging regime and the bytes of the tables are the same.
pub open spec fn tables_kept(s: CpuState, t: CpuState) -> bool {
    &&& t.cr0 == s.cr0
    &&& t.cr3 == s.cr3
    &&& t.cr4 == s.cr4
    &&& t.efer == s.efer
    &&& t.ram.len() == s.ram.len()
    &&& forall|x: int| 0 <= x < s.ram.len() && in_tables(s, x) ==> #[trigger] t.ram[x] == s.ram[x]
}

proof fn lemma_entry_kept(r: Seq<u8>, q: Seq<u8>, base: u64, v: u64, level: int)
    requires
        r.len() == q.len(),
        forall|x: int|
            0 <= x < r.len() && in_entry(base, v, level, x) ==> #[trigger] q[x] == r[x],
    ensures
        table_entry(q, base, v, level) == table_entry(r, base, v, level),
{
    lemma_same_bytes(q, r, entry_at(base, v, level), 8);
}

proof fn lemma_walk_kept(s: CpuState, t: CpuState, v: u64)
    requires
        tables_kept(s, t),
        paging_on(s),
    ensures
        forall|x: int| walk_reads(t, v, x) == #[trigger] walk_reads(s, v, x),
        forall|w: bool, u: bool| #[trigger] page_walk(t, v, w, u) == page_walk(s, v, w, u),
{
    let e4 = table_entry(s.ram, s.cr3, v, 3);
    let e3 = table_entry(s.ram, e4, v, 2);
    let e2 = table_entry(s.ram, e3, v, 1);
    assert forall|x: int| 0 <= x < s.ram.len() && walk_reads(s, v, x) implies #[trigger] t.ram[x]
        == s.ram[x] by {
        assert(in_tables(s, x));
    }
    lemma_entry_kept(s.ram, t.ram, s.cr3, v, 3);
    if e4 & 1 != 0 {
        lemma_entry_kept(s.ram, t.ram, e4, v, 2);
        if e3 & 1 != 0 && e3 & 0x80 == 0 {
            lemma_entry_kept(s.ram, t.ram, e3, v, 1);
            if e2 & 1 != 0 && e2 & 0x80 == 0 {
                lemma_entry_kept(s.ram, t.ram, e2, v, 0);
            }
        }
    }
    assert forall|w: bool, u: bool| #[trigger]
        page_walk(t, v, w, u) == page_walk(s, v, w, u) by {
        reveal(page_walk);
    }
}

/// Tables that stay as they are map every address as before, and occupy the same bytes.
pub proof fn lemma_tables_kept(s: CpuState, t: CpuState)
    requires
        tables_kept(s, t),
    ensures
        forall|v: u64, w: bool, u: bool| #[trigger]
            page_walk(t, v, w, u) == page_walk(s, v, w, u),
        forall|x: int| #[trigger] in_tables(t, x) == in_tables(s, x),
        tables_kept(t, s),
{
    assert forall|v: u64, w: bool, u: bool| #[trigger]
        page_walk(t, v, w, u) == page_walk(s, v, w, u) by {
        if paging_on(s) {
            lemma_walk_kept(s, t, v);
        } else {
            reveal(page_walk);
        }
    }
    assert forall|x: int| #[trigger] in_tables(t, x) == in_tables(s, x) by {
        if in_tables(t, x) {
            let v = choose|v: u64| #[trigger] walk_reads(t, v, x);
            lemma_walk_kept(s, t, v);
            assert(walk_reads(s, v, x));
        }
        if in_tables(s, x) {
            let v = choose|v: u64| #[trigger] walk_reads(s, v, x);
            lemma_walk_kept(s, t, v);
            assert(walk_reads(t, v, x));
        }
    }
    assert forall|x: int| 0 <= x < t.ram.len() && in_tables(t, x) implies #[trigger] s.ram[x]
        == t.ram[x] by {
        assert(in_tables(s, x));
        assert(t.ram[x] == s.ram[x]);
    }
}

// ----- loads and stores -----

/// A byte of an access.
pub open spec fn nth(addr: u64, b: int) -> u64 {
    addr.wrapping_add(b as u64)
}

/// Bytes read one at a time where the tables map them.
pub open spec fn gathered(s: CpuState, addr: u64, n: nat) -> u64
    decreases n,
{
    if n == 0 {
        0
    } else {
        gathered(s, addr, (n - 1) as nat) | ((byte_at(
            s.ram,
            walk_to(s, nth(addr, n - 1), false) as int,
        ) as u64) << ((8 * (n - 1)) as u64))
    }
}

/// Bytes stored one at a time where the tables map them.
pub open spec fn scattered(s: CpuState, addr: u64, n: nat, val: u64) -> Seq<u8>
    decreases n,
{
    if n == 0 {
        s.ram
    } else {
        with_byte(
            scattered(s, addr, (n - 1) as nat, val),
            walk_to(s, nth(addr, n - 1), true) as int,
            (val >> ((8 * (n - 1)) as u64)) as u8,
        )
    }
}

/// What a load through the tables gives.
pub open spec fn loaded(s: CpuState, addr: u64, size: u8) -> u64 {
    if one_page(addr, size) {
        le_read(s.ram, walk_to(s, addr, false) as int, size as nat)
    } else {
        gathered(s, addr, size as nat)
    }
}

/// What a store through the tables makes of memory.
pub open spec fn stored(s: CpuState, addr: u64, size: u8, val: u64) -> Seq<u8> {
    if one_page(addr, size) {
        le_write(s.ram, walk_to(s, addr, true) as int, size as nat, val)
    } else {
        scattered(s, addr, size as nat, val)
    }
}

/// Every byte of a load is mapped, and it begins in RAM.
pub open spec fn can_load(s: CpuState, addr: u64, size: u8) -> bool {
    &&& plain(walk_to(s, addr, false))
    &&& forall|b: int| 0 <= b < size ==> walks(s, #[trigger] nth(addr, b), false)
}

/// Every byte of a store is mapped and lies outside the tables, and it begins in RAM.
pub open spec fn can_store(s: CpuState, addr: u64, size: u8) -> bool {
    &&& plain(walk_to(s, addr, true))
    &&& forall|b: int|
        0 <= b < size ==> walks(s, #[trigger] nth(addr, b), true) && !in_tables(
            s,
            walk_to(s, nth(addr, b), true) as int,
        )
}

/// A byte of memory is one that a store writes.
pub open spec fn stored_at(s: CpuState, addr: u64, size: u8, x: int) -> bool {
    exists|b: int| 0 <= b < size && x == walk_to(s, #[trigger] nth(addr, b), true)
}

proof fn lemma_read_bytes(s: CpuState, addr: u64, n: nat)
    requires
        calm(s),
        forall|b: int| 0 <= b < n ==> walks(s, #[trigger] nth(addr, b), false),
    ensures
        read_bytes(s, addr, n, s.cpl == 3).1 == gathered(s, addr, n),
        read_bytes(s, addr, n, s.cpl == 3).0 == (CpuState {
            tlb: read_bytes(s, addr, n, s.cpl == 3).0.tlb,
            ..s
        }),
        calm(read_bytes(s, addr, n, s.cpl == 3).0),
    decreases n,
{
    if n > 0 {
        let user = s.cpl == 3;
        lemma_read_bytes(s, addr, (n - 1) as nat);
        let t = read_bytes(s, addr, (n - 1) as nat, user).0;
        let a = nth(addr, n - 1);
        assert(walks(s, a, false));
        lemma_walk_alike(s, t, a, false, user);
        lemma_translated(t, a, false);
    }
}

/// A load reads where the tables say.
pub proof fn lemma_loaded(s: CpuState, addr: u64, size: u8)
    requires
        calm(s),
        1 <= size,
        can_load(s, addr, size),
    ensures
        mem_read(s, addr, size).1 == loaded(s, addr, size),
        mem_read(s, addr, size).0 == (CpuState {
            tlb: mem_read(s, addr, size).0.tlb,
            ..touched(s, walk_to(s, addr, false))
        }),
        calm(mem_read(s, addr, size).0),
{
    reveal(mem_read);
    let user = s.cpl == 3;
    assert(nth(addr, 0) == addr);
    lemma_translated(s, addr, false);
    let (t, pa) = translate_access(s, addr, false, user);
    lemma_set_of_line(pa);
    let u = touched(t, pa);
    lemma_calm(t, u);
    if !one_page(addr, size) {
        assert forall|b: int| 0 <= b < size implies walks(u, #[trigger] nth(addr, b), false) by {
            lemma_walk_alike(s, u, nth(addr, b), false, user);
        }
        lemma_read_bytes(u, addr, size as nat);
        lemma_gathered_alike(s, u, addr, size as nat);
    }
}

proof fn lemma_gathered_alike(s: CpuState, t: CpuState, addr: u64, n: nat)
    requires
        t.ram == s.ram,
        t.cpl == s.cpl,
        tables_kept(s, t),
    ensures
        gathered(t, addr, n) == gathered(s, addr, n),
    decreases n,
{
    if n > 0 {
        lemma_gathered_alike(s, t, addr, (n - 1) as nat);
        lemma_walk_alike(s, t, nth(addr, n - 1), false, s.cpl == 3);
    }
}

/// Machines that differ only in their caches load the same.
pub proof fn lemma_loaded_alike(s: CpuState, t: CpuState, addr: u64, size: u8)
    requires
        like(s, t),
    ensures
        loaded(t, addr, size) == loaded(s, addr, size),
        walk_to(t, addr, false) == walk_to(s, addr, false),
{
    assert(erased(s).ram == erased(t).ram && erased(s).cpl == erased(t).cpl);
    lemma_gathered_alike(s, t, addr, size as nat);
    lemma_walk_alike(s, t, addr, false, s.cpl == 3);
}

proof fn lemma_scattered_alike(s: CpuState, t: CpuState, addr: u64, n: nat, val: u64)
    requires
        t.ram == s.ram,
        t.cpl == s.cpl,
        tables_kept(s, t),
    ensures
        scattered(t, addr, n, val) == scattered(s, addr, n, val),
    decreases n,
{
    if n > 0 {
        lemma_scattered_alike(s, t, addr, (n - 1) as nat, val);
        lemma_walk_alike(s, t, nth(addr, n - 1), true, s.cpl == 3);
    }
}

/// Machines that differ only in their caches store the same.
pub proof fn lemma_stored_alike(s: CpuState, t: CpuState, addr: u64, size: u8, val: u64)
    requires
        like(s, t),
    ensures
        stored(t, addr, size, val) == stored(s, addr, size, val),
        walk_to(t, addr, true) == walk_to(s, addr, true),
{
    assert(erased(s).ram == erased(t).ram && erased(s).cpl == erased(t).cpl);
    lemma_scattered_alike(s, t, addr, size as nat, val);
    lemma_walk_alike(s, t, addr, true, s.cpl == 3);
}

proof fn lemma_write_bytes(s: CpuState, addr: u64, n: nat, val: u64)
    requires
        calm(s),
        forall|b: int|
            0 <= b < n ==> walks(s, #[trigger] nth(addr, b), true) && !in_tables(
                s,
                walk_to(s, nth(addr, b), true) as int,
            ),
    ensures
        write_bytes(s, addr, n, val, s.cpl == 3) == (CpuState {
            tlb: write_bytes(s, addr, n, val, s.cpl == 3).tlb,
            ram: scattered(s, addr, n, val),
            ..s
        }),
        calm(write_bytes(s, addr, n, val, s.cpl == 3)),
        tables_kept(s, write_bytes(s, addr, n, val, s.cpl == 3)),
        forall|x: int|
            0 <= x < s.ram.len() && (forall|b: int|
                0 <= b < n ==> x != walk_to(s, #[trigger] nth(addr, b), true)) ==> #[trigger] scattered(
                s,
                addr,
                n,
                val,
            )[x] == s.ram[x],
    decreases n,
{
    if n > 0 {
        let user = s.cpl == 3;
        lemma_write_bytes(s, addr, (n - 1) as nat, val);
        let t = write_bytes(s, addr, (n - 1) as nat, val, user);
        let a = nth(addr, n - 1);
        assert(walks(s, a, true));
        lemma_tables_kept(s, t);
        assert(page_walk(t, a, true, user) == page_walk(s, a, true, user));
        lemma_translated(t, a, true);
        let (u, pa) = translate_access(t, a, true, user);
        let z = write_bytes(s, addr, n, val, user);
        assert(!in_tables(t, pa as int));
        assert forall|x: int| 0 <= x < u.ram.len() && in_tables(u, x) implies #[trigger] z.ram[x]
            == u.ram[x] by {
            lemma_tables_kept(t, u);
            assert(in_tables(t, x));
        }
        lemma_calm(u, z);
        assert forall|x: int| 0 <= x < s.ram.len() && in_tables(s, x) implies #[trigger] z.ram[x]
            == s.ram[x] by {
            assert(in_tables(t, x));
            assert(t.ram[x] == s.ram[x]);
        }
        assert forall|x: int|
            0 <= x < s.ram.len() && (forall|b: int|
                0 <= b < n ==> x != walk_to(s, #[trigger] nth(addr, b), true)) implies #[trigger] scattered(
            s,
            addr,
            n,
            val,
        )[x] == s.ram[x] by {
            assert(x != walk_to(s, nth(addr, n - 1), true));
            assert(scattered(s, addr, (n - 1) as nat, val)[x] == s.ram[x]);
        }
    }
}

/// A store writes where the tables say, and leaves the tables as they are.
pub proof fn lemma_stored(s: CpuState, addr: u64, size: u8, val: u64)
    requires
        calm(s),
        1 <= size <= 8,
        can_store(s, addr, size),
    ensures
        mem_write(s, addr, size, val) == (CpuState {
            tlb: mem_write(s, addr, size, val).tlb,
            ram: stored(s, addr, size, val),
            ..touched(s, walk_to(s, addr, true))
        }),
        calm(mem_write(s, addr, size, val)),
        tables_kept(s, mem_write(s, addr, size, val)),
        forall|x: int|
            0 <= x < s.ram.len() && !stored_at(s, addr, size, x) ==> #[trigger] stored(
                s,
                addr,
                size,
                val,
            )[x] == s.ram[x],
{
    reveal(mem_write);
    let user = s.cpl == 3;
    assert(nth(addr, 0) == addr);
    lemma_translated(s, addr, true);
    let (t, pa) = translate_access(s, addr, true, user);
    lemma_set_of_line(pa);
    let u = touched(t, pa);
    lemma_calm(t, u);
    let z = mem_write(s, addr, size, val);
    lemma_tables_kept(s, u);
    if one_page(addr, size) {
        law_store_exact(s.ram, pa as int, size as nat, val);
        lemma_one_page(addr, size);
        lemma_walk_offset(s, addr, true, user);
        assert forall|x: int| 0 <= x < s.ram.len() && !stored_at(s, addr, size, x) implies #[trigger] stored(
            s,
            addr,
            size,
            val,
        )[x] == s.ram[x] by {
            if pa <= x < pa + size {
                let b = x - pa;
                lemma_byte_place(s, addr, size, true, b);
                assert(x == walk_to(s, nth(addr, b), true));
            }
        }
        assert forall|x: int| 0 <= x < s.ram.len() && in_tables(s, x) implies #[trigger] z.ram[x]
            == s.ram[x] by {
            if stored_at(s, addr, size, x) {
                let b = choose|b: int|
                    0 <= b < size && x == walk_to(s, #[trigger] nth(addr, b), true);
                assert(!in_tables(s, walk_to(s, nth(addr, b), true) as int));
            }
            assert(stored(s, addr, size, val)[x] == s.ram[x]);
        }
        assert(tables_kept(s, z));
        lemma_tables_kept(s, z);
        assert(tables_kept(u, z));
        lemma_calm(u, z);
    } else {
        lemma_write_bytes(u, addr, size as nat, val);
        lemma_scattered_alike(s, u, addr, size as nat, val);
    }
}

/// The bytes of an access on one page lie side by side.
pub proof fn lemma_byte_place(s: CpuState, addr: u64, size: u8, write: bool, b: int)
    requires
        1 <= size <= 8,
        one_page(addr, size),
        walks(s, addr, write),
        0 <= b < size,
    ensures
        walks(s, nth(addr, b), write),
        walk_to(s, nth(addr, b), write) == walk_to(s, addr, write) + b,
{
    let user = s.cpl == 3;
    let pa = walk_to(s, addr, write);
    lemma_one_page(addr, size);
    lemma_walk_offset(s, addr, write, user);
    lemma_frame(0, pa);
    lemma_page(addr, b as u64, pa & !0xfff);
    lemma_same_walk(s, addr, nth(addr, b), write, write, user);
}

// ----- fetching -----

/// The instruction byte the tables give.
pub open spec fn code_byte(s: CpuState, v: u64) -> u8 {
    byte_at(s.ram, walk_to(s, v, false) as int)
}

/// A fetch reads where the tables say.
pub proof fn lemma_fetched(s: CpuState)
    requires
        calm(s),
        walks(s, s.rip, false),
    ensures
        fetch_byte(s).1 == code_byte(s, s.rip),
        like(fetch_byte(s).0, with_rip(s, s.rip.wrapping_add(1))),
        calm(fetch_byte(s).0),
{
    reveal(fetch_byte);
    let user = s.cpl == 3;
    let f = fetch_byte(s).0;
    if ifetch_hit(s) {
        assert(code_held(s, s.rip));
        lemma_calm(s, f);
    } else {
        lemma_translated(s, s.rip, false);
        let (t, pa) = translate_access(s, s.rip, false, user);
        let u = ifetch_fill(t, s.rip, pa);
        if paging_on(t) {
            assert forall|v: u64, w: bool| #[trigger] tlb_hit(u, v, w) implies page_walk(
                u,
                v,
                w,
                u.cpl == 3,
            ) == Ok::<u64, u64>(u.tlb[tlb_set(v)].frame | (v & 0xfff)) by {
                assert(tlb_hit(t, v, w));
                lemma_walk_alike(t, u, v, w, user);
            }
            assert forall|v: u64| #[trigger] code_held(u, v) implies page_walk(
                u,
                v,
                false,
                u.cpl == 3,
            ) == Ok::<u64, u64>(u.ifetch_frame | (v & 0xfff)) by {
                lemma_walk_alike(s, t, s.rip, false, user);
                lemma_same_walk(t, s.rip, v, false, false, user);
                lemma_walk_alike(t, u, v, false, user);
            }
        }
        assert(calm(u));
        lemma_calm(u, f);
    }
}

} // verus!
