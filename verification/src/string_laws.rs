//! The bulk forms of the string instructions do what the element-by-element forms do.
use vstd::prelude::*;
#[allow(unused_imports)]
use crate::bits::{is_width, mask_of};
#[allow(unused_imports)]
use crate::cpu::{runnable, CpuState};
#[allow(unused_imports)]
use crate::decode::RepKind;
#[allow(unused_imports)]
use crate::flags::{flag_set, RFLAGS_DF};
#[allow(unused_imports)]
use crate::memory_laws::{
    frames_aligned, held, law_frames_stay_aligned, law_store_exact, lemma_frame, lemma_held,
    lemma_held_again, lemma_one_page, lemma_page, lemma_page_number, lemma_set_of_line,
    lemma_walk_alike, lemma_walk_frame, plain, steady,
};
#[allow(unused_imports)]
use crate::mmu::{
    le_read, le_write, lemma_set_bounds, mem_read, mem_write, one_page, page_walk, paging_on,
    tlb_fill, tlb_set, touched, translate_access,
};
#[allow(unused_imports)]
use crate::operand::with_reg;
#[allow(unused_imports)]
use crate::string_ops::{
    bulk_movs, bulk_stos, copied, filled, index_moved, string_element, string_repeated, StringOp,
};

verus! {

proof fn lemma_offset(i: int, n: int, size: int)
    by (nonlinear_arith)
    requires
        0 <= i < n <= 0x1000,
        1 <= size <= 8,
    ensures
        0 <= i * size,
        i * size + size <= n * size,
        (i + 1) * size == i * size + size,
{
}

proof fn lemma_devices(pa: u64, d: u64)
    by (bit_vector)
    requires
        (pa & 0xfff) + d <= 0xfff,
        d <= 0xfff,
        !(0xD000_0000 <= pa && pa < 0xD000_0800),
        !(0xFEE0_0000 <= pa && pa < 0xFEE0_1000),
    ensures
        !(0xD000_0000 <= pa + d && pa + d < 0xD000_0800),
        !(0xFEE0_0000 <= pa + d && pa + d < 0xFEE0_1000),
{
}

/// The fill changes memory, the data cache and time.
proof fn lemma_filled(t: CpuState, pa: u64, n: nat, size: u8, val: u64)
    ensures
        filled(t, pa, n, size, val) == (CpuState {
            ram: filled(t, pa, n, size, val).ram,
            sys: filled(t, pa, n, size, val).sys,
            ..t
        }),
        filled(t, pa, n, size, val).ram.len() == t.ram.len(),
    decreases n,
{
    if n > 0 {
        lemma_filled(t, pa, (n - 1) as nat, size, val);
        let u = filled(t, pa, (n - 1) as nat, size, val);
        let a = pa + (n - 1) * size;
        law_store_exact(touched(u, a as u64).ram, a, size as nat, val);
    }
}

/// The machine after `i` of `n` elements have been stored.
spec fn fill_state(t: CpuState, pa: u64, dst: u64, n: int, size: u8, val: u64, i: int) -> CpuState {
    let f = filled(t, pa, i as nat, size, val);
    CpuState {
        r: t.r.update(7, dst.wrapping_add((i * size) as u64)).update(1, (n - i) as u64),
        ..f
    }
}

/// The destination of the element that is due translates as the first one did, and leaves the
/// caches as they are.
spec fn fill_turn(q: CpuState, pa: u64) -> bool {
    translate_access(q, q.r[7], true, q.cpl == 3) == (q, pa)
}

/// The destination of every element translates so.
spec fn fill_turns(t: CpuState, pa: u64, dst: u64, n: int, size: u8, val: u64) -> bool {
    forall|i: int|
        0 <= i < n ==> fill_turn(
            #[trigger] fill_state(t, pa, dst, n, size, val, i),
            (pa + i * size) as u64,
        )
}

/// A page that is held stays so.
proof fn lemma_fill_held(t: CpuState, pa: u64, dst: u64, n: int, size: u8, val: u64)
    requires
        t.r.len() == 16,
        is_width(size),
        0 <= n <= 0x1000,
        held(t, dst, pa, true),
        (dst & 0xfff) + n * size <= 0x1000,
    ensures
        fill_turns(t, pa, dst, n, size, val),
{
    assert forall|i: int| 0 <= i < n implies fill_turn(
        #[trigger] fill_state(t, pa, dst, n, size, val, i),
        (pa + i * size) as u64,
    ) by {
        let q = fill_state(t, pa, dst, n, size, val, i);
        lemma_offset(i, n, size as int);
        lemma_filled(t, pa, i as nat, size, val);
        assert(held(q, dst, pa, true));
        lemma_held_again(q, dst, (i * size) as u64, pa, true, true, q.cpl == 3);
    }
}

/// A page that is walked anew for every element, and is found where it was.
proof fn lemma_fill_walked(t: CpuState, pa: u64, dst: u64, n: int, size: u8, val: u64)
    requires
        runnable(t),
        t.r.len() == 16,
        is_width(size),
        0 <= n <= 0x1000,
        t.fault is None,
        paging_on(t),
        !t.cfg.tlb_cache,
        tlb_fill(t, dst, pa, true) == t,
        pa & 0xfff == dst & 0xfff,
        (dst & 0xfff) + n * size <= 0x1000,
        fill_walks(t, pa, dst, n, size, val),
    ensures
        fill_turns(t, pa, dst, n, size, val),
{
    assert forall|i: int| 0 <= i < n implies fill_turn(
        #[trigger] fill_state(t, pa, dst, n, size, val, i),
        (pa + i * size) as u64,
    ) by {
        let q = fill_state(t, pa, dst, n, size, val, i);
        let f = filled(t, pa, i as nat, size, val);
        let d = (i * size) as u64;
        lemma_offset(i, n, size as int);
        lemma_filled(t, pa, i as nat, size, val);
        lemma_frame(0, dst);
        lemma_frame(0, pa);
        lemma_page(dst, d, dst & !0xfff);
        lemma_page(pa, d, pa & !0xfff);
        lemma_walk_alike(f, q, (dst + d) as u64, true, q.cpl == 3);
        assert(q.r[7] == (dst + d) as u64);
        reveal(translate_access);
        assert(tlb_fill(q, (dst + d) as u64, (pa + d) as u64, true) =~= q);
    }
}

/// One element of the fill.
proof fn lemma_fill_step(t: CpuState, pa: u64, dst: u64, n: int, size: u8, val: u64, i: int)
    requires
        t.r.len() == 16,
        is_width(size),
        0 <= i < n <= 0x1000,
        t.fault is None,
        fill_turns(t, pa, dst, n, size, val),
        pa & 0xfff == dst & 0xfff,
        (dst & 0xfff) + n * size <= 0x1000,
        plain(pa),
        !flag_set(t.rflags, RFLAGS_DF),
        val == t.r[0] & mask_of(size),
    ensures
        ({
            let q = fill_state(t, pa, dst, n, size, val, i);
            with_reg(string_element(q, StringOp::Stos, size), 1, (q.r[1] - 1) as u64) == fill_state(
                t,
                pa,
                dst,
                n,
                size,
                val,
                i + 1,
            ) && string_element(q, StringOp::Stos, size).fault is None
        }),
{
    reveal(string_element);
    reveal(mem_write);
    let q = fill_state(t, pa, dst, n, size, val, i);
    lemma_offset(i, n, size as int);
    lemma_filled(t, pa, i as nat, size, val);
    let d = (i * size) as u64;
    assert(fill_turn(q, (pa + d) as u64));
    lemma_devices(pa, d);
    let v = (dst + d) as u64;
    lemma_frame(0, dst);
    lemma_frame(0, pa);
    lemma_page(dst, d, dst & !0xfff);
    lemma_page(pa, d, pa & !0xfff);
    lemma_one_page(v, size);
    assert(q.r[7] == v);
    assert(q.r[0] == t.r[0]);
    let e = string_element(q, StringOp::Stos, size);
    let w = with_reg(e, 1, (q.r[1] - 1) as u64);
    let z = fill_state(t, pa, dst, n, size, val, i + 1);
    assert(w.r =~= z.r);
    assert(w =~= z);
}

proof fn lemma_fill_all(t: CpuState, pa: u64, dst: u64, n: int, size: u8, val: u64, i: int, rep: RepKind, start: u64, k: nat)
    requires
        t.r.len() == 16,
        is_width(size),
        0 <= i <= n <= 0x1000,
        k >= n - i,
        t.fault is None,
        fill_turns(t, pa, dst, n, size, val),
        pa & 0xfff == dst & 0xfff,
        (dst & 0xfff) + n * size <= 0x1000,
        plain(pa),
        !flag_set(t.rflags, RFLAGS_DF),
        val == t.r[0] & mask_of(size),
    ensures
        string_repeated(
            fill_state(t, pa, dst, n, size, val, i),
            StringOp::Stos,
            size,
            rep,
            start,
            k,
        ) == fill_state(t, pa, dst, n, size, val, n),
    decreases n - i,
{
    let q = fill_state(t, pa, dst, n, size, val, i);
    if i < n {
        lemma_fill_step(t, pa, dst, n, size, val, i);
        lemma_fill_all(t, pa, dst, n, size, val, i + 1, rep, start, (k - 1) as nat);
    }
}

/// A walk at each element's turn finds the destination where the first one was.
pub open spec fn fill_walks(t: CpuState, pa: u64, dst: u64, n: int, size: u8, val: u64) -> bool {
    forall|i: int|
        0 <= i < n ==> page_walk(
            #[trigger] filled(t, pa, i as nat, size, val),
            (dst + i * size) as u64,
            true,
            t.cpl == 3,
        ) == Ok::<u64, u64>((pa + i * size) as u64)
}

/// The store does not change the tables that it is walked by.
pub open spec fn stos_tables_kept(s: CpuState, size: u8) -> bool {
    let (t, pa) = translate_access(s, s.r[7], true, s.cpl == 3);
    fill_walks(t, pa, s.r[7], s.r[1] as int, size, s.r[0] & mask_of(size))
}

/// A repeated store done at once leaves the machine, its data cache and its clock as the element
/// loop does. Where the tables are walked anew for every element, and the fill overwrites the very
/// tables, the two may differ: the translation cache is on, there is no paging, or the tables stay.
pub proof fn law_bulk_stos(s: CpuState, size: u8, rep: RepKind, start: u64)
    requires
        runnable(s),
        s.r.len() == 16,
        frames_aligned(s),
        steady(s) || stos_tables_kept(s, size),
        is_width(size),
        bulk_stos(s, size, rep).1,
    ensures
        bulk_stos(s, size, rep).0 == string_repeated(s, StringOp::Stos, size, rep, start, 0x1000),
{
    reveal(bulk_stos);
    let n = s.r[1] as int;
    let dst = s.r[7];
    let user = s.cpl == 3;
    let (t, pa) = translate_access(s, dst, true, user);
    let val = t.r[0] & mask_of(size);
    assert(s.fault is None) by {
        reveal(translate_access);
    }
    crate::mmu::law_translate_keeps(s, dst, true, user);
    law_frames_stay_aligned(s, dst, true, user);
    if steady(s) {
        lemma_held(s, dst, true, user);
        lemma_fill_held(t, pa, dst, n, size, val);
    } else {
        lemma_set_bounds(dst);
        assert(tlb_fill(t, dst, pa, true) =~= t) by {
            reveal(translate_access);
        }
        lemma_fill_walked(t, pa, dst, n, size, val);
    }
    let q = fill_state(t, pa, dst, n, size, val, 0);
    assert(0 * size == 0) by (nonlinear_arith);
    assert(q.r =~= t.r);
    assert(q =~= t);
    lemma_fill_all(t, pa, dst, n, size, val, 0, rep, start, 0x1000);
    assert(string_element(s, StringOp::Stos, size) == string_element(t, StringOp::Stos, size)) by {
        reveal(string_element);
        reveal(mem_write);
        assert(fill_turn(t, pa));
    }
    lemma_filled(t, pa, n as nat, size, val);
    let z = fill_state(t, pa, dst, n, size, val, n);
    assert(bulk_stos(s, size, rep).0.r =~= z.r);
    assert(bulk_stos(s, size, rep).0 =~= z);
}

// ----- copies -----

/// The copy changes memory, the data cache and time.
proof fn lemma_copied(t: CpuState, spa: u64, dpa: u64, n: nat, size: u8)
    ensures
        copied(t, spa, dpa, n, size) == (CpuState {
            ram: copied(t, spa, dpa, n, size).ram,
            sys: copied(t, spa, dpa, n, size).sys,
            ..t
        }),
        copied(t, spa, dpa, n, size).ram.len() == t.ram.len(),
    decreases n,
{
    if n > 0 {
        lemma_copied(t, spa, dpa, (n - 1) as nat, size);
        let u = copied(t, spa, dpa, (n - 1) as nat, size);
        let a = spa + (n - 1) * size;
        let b = dpa + (n - 1) * size;
        let w = touched(touched(u, a as u64), b as u64);
        law_store_exact(w.ram, b, size as nat, le_read(w.ram, a, size as nat));
    }
}

/// The machine after `i` of `n` elements have been copied.
spec fn copy_state(t: CpuState, spa: u64, dpa: u64, src: u64, dst: u64, n: int, size: u8, i: int) -> CpuState {
    let f = copied(t, spa, dpa, i as nat, size);
    let d = (i * size) as u64;
    CpuState {
        r: t.r.update(6, src.wrapping_add(d)).update(7, dst.wrapping_add(d)).update(1, (n - i) as u64),
        ..f
    }
}

/// What one element of a copy does, once both addresses are translated.
proof fn lemma_movs(q: CpuState, q1: CpuState, q2: CpuState, sa: u64, da: u64, size: u8)
    requires
        runnable(q),
        translate_access(q, q.r[6], false, q.cpl == 3) == (q1, sa),
        translate_access(touched(q1, sa), q.r[7], true, q.cpl == 3) == (q2, da),
        one_page(q.r[6], size),
        one_page(q.r[7], size),
        plain(sa),
        plain(da),
    ensures
        string_element(q, StringOp::Movs, size) == ({
            let x = touched(q2, da);
            let y = CpuState {
                ram: le_write(x.ram, da as int, size as nat, le_read(q1.ram, sa as int, size as nat)),
                ..x
            };
            index_moved(index_moved(y, 6, size), 7, size)
        }),
{
    reveal(string_element);
    reveal(mem_write);
    reveal(mem_read);
    crate::mmu::law_translate_keeps(q, q.r[6], false, q.cpl == 3);
}

/// Both addresses of the element that is due translate as the first ones did, and leave the caches
/// as they are.
spec fn copy_turn(q: CpuState, sa: u64, da: u64) -> bool {
    let (q1, a) = translate_access(q, q.r[6], false, q.cpl == 3);
    a == sa && translate_access(touched(q1, sa), q.r[7], true, q.cpl == 3) == (touched(q, sa), da)
}

/// Both addresses of every element translate so.
spec fn copy_turns(t: CpuState, spa: u64, dpa: u64, src: u64, dst: u64, n: int, size: u8) -> bool {
    forall|i: int|
        0 <= i < n ==> copy_turn(
            #[trigger] copy_state(t, spa, dpa, src, dst, n, size, i),
            (spa + i * size) as u64,
            (dpa + i * size) as u64,
        )
}

/// Pages that are held stay so.
proof fn lemma_copy_held(t: CpuState, spa: u64, dpa: u64, src: u64, dst: u64, n: int, size: u8)
    requires
        t.r.len() == 16,
        is_width(size),
        0 <= n <= 0x1000,
        held(t, src, spa, false),
        held(t, dst, dpa, true),
        (src & 0xfff) + n * size <= 0x1000,
        (dst & 0xfff) + n * size <= 0x1000,
    ensures
        copy_turns(t, spa, dpa, src, dst, n, size),
{
    assert forall|i: int| 0 <= i < n implies copy_turn(
        #[trigger] copy_state(t, spa, dpa, src, dst, n, size, i),
        (spa + i * size) as u64,
        (dpa + i * size) as u64,
    ) by {
        let q = copy_state(t, spa, dpa, src, dst, n, size, i);
        let d = (i * size) as u64;
        lemma_offset(i, n, size as int);
        lemma_copied(t, spa, dpa, i as nat, size);
        assert(held(q, src, spa, false));
        lemma_held_again(q, src, d, spa, false, false, q.cpl == 3);
        let x = touched(q, (spa + d) as u64);
        assert(held(x, dst, dpa, true));
        lemma_held_again(x, dst, d, dpa, true, true, q.cpl == 3);
        assert(q.r[6] == (src + d) as u64);
        assert(q.r[7] == (dst + d) as u64);
    }
}

/// A walk at each element's turn finds both addresses where the first ones were.
pub open spec fn copy_walks(
    t: CpuState,
    spa: u64,
    dpa: u64,
    src: u64,
    dst: u64,
    n: int,
    size: u8,
) -> bool {
    forall|i: int|
        0 <= i < n ==> ({
            let f = #[trigger] copied(t, spa, dpa, i as nat, size);
            let d = i * size;
            &&& page_walk(f, (src + d) as u64, false, t.cpl == 3) == Ok::<u64, u64>(
                (spa + d) as u64,
            )
            &&& page_walk(f, (dst + d) as u64, true, t.cpl == 3) == Ok::<u64, u64>((dpa + d) as u64)
        })
}

/// Pages that are walked anew for every element, since the cache is off or they take each other's
/// place in it, and are found where they were.
proof fn lemma_copy_walked(t: CpuState, spa: u64, dpa: u64, src: u64, dst: u64, n: int, size: u8)
    requires
        runnable(t),
        t.r.len() == 16,
        is_width(size),
        0 <= n <= 0x1000,
        t.fault is None,
        paging_on(t),
        t.cfg.tlb_cache ==> tlb_set(src) == tlb_set(dst) && src & !0xfff != dst & !0xfff,
        tlb_fill(tlb_fill(t, src, spa, false), dst, dpa, true) == t,
        spa & 0xfff == src & 0xfff,
        dpa & 0xfff == dst & 0xfff,
        (src & 0xfff) + n * size <= 0x1000,
        (dst & 0xfff) + n * size <= 0x1000,
        copy_walks(t, spa, dpa, src, dst, n, size),
    ensures
        copy_turns(t, spa, dpa, src, dst, n, size),
{
    lemma_set_bounds(src);
    lemma_set_bounds(dst);
    assert(t.tlb[tlb_set(dst)].tag == dst & !0xfff);
    assert forall|i: int| 0 <= i < n implies copy_turn(
        #[trigger] copy_state(t, spa, dpa, src, dst, n, size, i),
        (spa + i * size) as u64,
        (dpa + i * size) as u64,
    ) by {
        let q = copy_state(t, spa, dpa, src, dst, n, size, i);
        let f = copied(t, spa, dpa, i as nat, size);
        let d = (i * size) as u64;
        let v = (src + d) as u64;
        let w = (dst + d) as u64;
        let sa = (spa + d) as u64;
        let da = (dpa + d) as u64;
        lemma_offset(i, n, size as int);
        lemma_copied(t, spa, dpa, i as nat, size);
        lemma_frame(0, src);
        lemma_frame(0, dst);
        lemma_frame(0, spa);
        lemma_frame(0, dpa);
        lemma_page(src, d, src & !0xfff);
        lemma_page(dst, d, dst & !0xfff);
        lemma_page(spa, d, spa & !0xfff);
        lemma_page(dpa, d, dpa & !0xfff);
        assert(q.r[6] == v);
        assert(q.r[7] == w);
        let q1 = tlb_fill(q, v, sa, false);
        let x = touched(q1, sa);
        lemma_walk_alike(f, q, v, false, q.cpl == 3);
        lemma_walk_alike(f, x, w, true, q.cpl == 3);
        assert(translate_access(q, v, false, q.cpl == 3) == (q1, sa)) by {
            reveal(translate_access);
        }
        assert(translate_access(x, w, true, q.cpl == 3) == (tlb_fill(x, w, da, true), da)) by {
            reveal(translate_access);
        }
        assert(tlb_fill(tlb_fill(t, src, spa, false), dst, dpa, true).tlb =~= t.tlb);
        assert(tlb_fill(x, w, da, true).tlb =~= t.tlb);
        assert(tlb_fill(x, w, da, true) =~= touched(q, sa));
    }
}

/// One element of the copy.
proof fn lemma_copy_step(t: CpuState, spa: u64, dpa: u64, src: u64, dst: u64, n: int, size: u8, i: int)
    requires
        runnable(t),
        t.r.len() == 16,
        is_width(size),
        0 <= i < n <= 0x1000,
        t.fault is None,
        copy_turns(t, spa, dpa, src, dst, n, size),
        spa & 0xfff == src & 0xfff,
        dpa & 0xfff == dst & 0xfff,
        (src & 0xfff) + n * size <= 0x1000,
        (dst & 0xfff) + n * size <= 0x1000,
        plain(spa),
        plain(dpa),
        !flag_set(t.rflags, RFLAGS_DF),
    ensures
        ({
            let q = copy_state(t, spa, dpa, src, dst, n, size, i);
            with_reg(string_element(q, StringOp::Movs, size), 1, (q.r[1] - 1) as u64) == copy_state(
                t,
                spa,
                dpa,
                src,
                dst,
                n,
                size,
                i + 1,
            ) && string_element(q, StringOp::Movs, size).fault is None
        }),
{
    let q = copy_state(t, spa, dpa, src, dst, n, size, i);
    lemma_offset(i, n, size as int);
    lemma_copied(t, spa, dpa, i as nat, size);
    lemma_copied_sys(t, spa, dpa, i as nat, size);
    let d = (i * size) as u64;
    lemma_devices(spa, d);
    lemma_devices(dpa, d);
    lemma_frame(0, src);
    lemma_frame(0, dst);
    lemma_frame(0, spa);
    lemma_frame(0, dpa);
    lemma_page(src, d, src & !0xfff);
    lemma_page(dst, d, dst & !0xfff);
    lemma_page(spa, d, spa & !0xfff);
    lemma_page(dpa, d, dpa & !0xfff);
    lemma_one_page((src + d) as u64, size);
    lemma_one_page((dst + d) as u64, size);
    let sa = (spa + d) as u64;
    let da = (dpa + d) as u64;
    assert(q.r[6] == (src + d) as u64);
    assert(q.r[7] == (dst + d) as u64);
    assert(copy_turn(q, sa, da));
    let q1 = translate_access(q, q.r[6], false, q.cpl == 3).0;
    crate::mmu::law_translate_keeps(q, q.r[6], false, q.cpl == 3);
    lemma_movs(q, q1, touched(q, sa), sa, da, size);
    let e = string_element(q, StringOp::Movs, size);
    let w = with_reg(e, 1, (q.r[1] - 1) as u64);
    let z = copy_state(t, spa, dpa, src, dst, n, size, i + 1);
    assert(w.r =~= z.r);
    assert(w =~= z);
}

/// The data cache keeps its size.
proof fn lemma_copied_sys(t: CpuState, spa: u64, dpa: u64, n: nat, size: u8)
    requires
        t.sys.dcache.len() >= 512,
    ensures
        copied(t, spa, dpa, n, size).sys.dcache.len() == t.sys.dcache.len(),
    decreases n,
{
    if n > 0 {
        lemma_copied_sys(t, spa, dpa, (n - 1) as nat, size);
        lemma_set_of_line((spa + (n - 1) * size) as u64);
        lemma_set_of_line((dpa + (n - 1) * size) as u64);
    }
}

proof fn lemma_copy_all(t: CpuState, spa: u64, dpa: u64, src: u64, dst: u64, n: int, size: u8, i: int, rep: RepKind, start: u64, k: nat)
    requires
        runnable(t),
        t.r.len() == 16,
        is_width(size),
        0 <= i <= n <= 0x1000,
        k >= n - i,
        t.fault is None,
        copy_turns(t, spa, dpa, src, dst, n, size),
        spa & 0xfff == src & 0xfff,
        dpa & 0xfff == dst & 0xfff,
        (src & 0xfff) + n * size <= 0x1000,
        (dst & 0xfff) + n * size <= 0x1000,
        plain(spa),
        plain(dpa),
        !flag_set(t.rflags, RFLAGS_DF),
    ensures
        string_repeated(
            copy_state(t, spa, dpa, src, dst, n, size, i),
            StringOp::Movs,
            size,
            rep,
            start,
            k,
        ) == copy_state(t, spa, dpa, src, dst, n, size, n),
    decreases n - i,
{
    if i < n {
        lemma_copy_step(t, spa, dpa, src, dst, n, size, i);
        lemma_copy_all(t, spa, dpa, src, dst, n, size, i + 1, rep, start, (k - 1) as nat);
    }
}

/// The translation of the destination leaves the source's in the cache.
pub open spec fn source_kept(s: CpuState) -> bool {
    let user = s.cpl == 3;
    let (t, spa) = translate_access(s, s.r[6], false, user);
    held(translate_access(t, s.r[7], true, user).0, s.r[6], spa, false)
}

/// It does so where the two addresses fall in different sets of the cache.
pub proof fn law_source_kept(s: CpuState)
    requires
        runnable(s),
        frames_aligned(s),
        steady(s),
        tlb_set(s.r[6]) != tlb_set(s.r[7]),
        s.fault is None,
        translate_access(s, s.r[6], false, s.cpl == 3).0.fault is None,
        translate_access(
            translate_access(s, s.r[6], false, s.cpl == 3).0,
            s.r[7],
            true,
            s.cpl == 3,
        ).0.fault is None,
    ensures
        source_kept(s),
{
    let user = s.cpl == 3;
    lemma_held(s, s.r[6], false, user);
    crate::mmu::law_translate_keeps(s, s.r[6], false, user);
    reveal(translate_access);
    lemma_set_bounds(s.r[6]);
    lemma_set_bounds(s.r[7]);
}

/// The first element translates both pages.
proof fn lemma_first_copy(s: CpuState, size: u8)
    requires
        runnable(s),
        s.fault is None,
        ({
            let user = s.cpl == 3;
            let (t, spa) = translate_access(s, s.r[6], false, user);
            let (u, dpa) = translate_access(t, s.r[7], true, user);
            t.fault is None && u.fault is None && plain(spa) && plain(dpa) && copy_turn(u, spa, dpa)
        }),
        one_page(s.r[6], size),
        one_page(s.r[7], size),
    ensures
        ({
            let user = s.cpl == 3;
            let t = translate_access(s, s.r[6], false, user).0;
            let u = translate_access(t, s.r[7], true, user).0;
            string_element(s, StringOp::Movs, size) == string_element(u, StringOp::Movs, size)
        }),
{
    let user = s.cpl == 3;
    let (t, spa) = translate_access(s, s.r[6], false, user);
    let (u, dpa) = translate_access(t, s.r[7], true, user);
    crate::mmu::law_translate_keeps(s, s.r[6], false, user);
    crate::mmu::law_translate_keeps(t, s.r[7], true, user);
    let x = touched(u, spa);
    let u1 = translate_access(u, u.r[6], false, user).0;
    crate::mmu::law_translate_keeps(u, u.r[6], false, user);
    assert(translate_access(touched(t, spa), s.r[7], true, user) == (x, dpa)) by {
        reveal(translate_access);
        reveal(page_walk);
    }
    lemma_movs(s, t, x, spa, dpa, size);
    lemma_movs(u, u1, x, spa, dpa, size);
}

/// The copy does not change the tables that it is walked by.
pub open spec fn movs_tables_kept(s: CpuState, size: u8) -> bool {
    let user = s.cpl == 3;
    let (t, spa) = translate_access(s, s.r[6], false, user);
    let (u, dpa) = translate_access(t, s.r[7], true, user);
    copy_walks(u, spa, dpa, s.r[6], s.r[7], s.r[1] as int, size)
}

/// Two addresses on one page share a place in the cache.
proof fn lemma_shared_page(s: CpuState, size: u8)
    requires
        runnable(s),
        frames_aligned(s),
        paging_on(s),
        s.cfg.tlb_cache,
        s.r[6] & !0xfff == s.r[7] & !0xfff,
        s.r[1] > 0,
        movs_tables_kept(s, size),
        s.fault is None,
        translate_access(s, s.r[6], false, s.cpl == 3).0.fault is None,
        translate_access(
            translate_access(s, s.r[6], false, s.cpl == 3).0,
            s.r[7],
            true,
            s.cpl == 3,
        ).0.fault is None,
    ensures
        source_kept(s),
{
    let user = s.cpl == 3;
    let src = s.r[6];
    let dst = s.r[7];
    let (t, spa) = translate_access(s, src, false, user);
    let (u, dpa) = translate_access(t, dst, true, user);
    crate::mmu::law_translate_keeps(s, src, false, user);
    crate::mmu::law_translate_keeps(t, dst, true, user);
    law_frames_stay_aligned(s, src, false, user);
    law_frames_stay_aligned(t, dst, true, user);
    lemma_held(s, src, false, user);
    lemma_held(t, dst, true, user);
    lemma_set_bounds(src);
    lemma_set_bounds(dst);
    assert(0 * size == 0) by (nonlinear_arith);
    let i = 0int;
    assert(copied(u, spa, dpa, i as nat, size) == u);
    assert((src + i * size) as u64 == src);
    assert(page_walk(u, src, false, user) == Ok::<u64, u64>(spa));
    assert(page_walk(u, dst, true, user) == Ok::<u64, u64>(dpa));
    lemma_walk_frame(u, src, dst, true, user);
    lemma_page_number(src, dst);
    assert(tlb_set(src) == tlb_set(dst));
    lemma_frame(0, spa);
    lemma_frame(0, dpa);
    let e = u.tlb[tlb_set(dst)];
    assert(dpa == e.frame | (dst & 0xfff));
    lemma_set_bounds(dst);
    lemma_page(dst, 0, e.frame);
}

/// The tables map both pages alike throughout, so that walking them again changes nothing.
proof fn lemma_copy_walked_first(s: CpuState, size: u8)
    requires
        runnable(s),
        s.r.len() == 16,
        is_width(size),
        frames_aligned(s),
        paging_on(s),
        !source_kept(s) || !s.cfg.tlb_cache,
        movs_tables_kept(s, size),
        s.fault is None,
        0 < s.r[1] <= 0x1000,
        (s.r[6] & 0xfff) + s.r[1] * size <= 0x1000,
        (s.r[7] & 0xfff) + s.r[1] * size <= 0x1000,
        ({
            let (t, spa) = translate_access(s, s.r[6], false, s.cpl == 3);
            let (u, dpa) = translate_access(t, s.r[7], true, s.cpl == 3);
            t.fault is None && u.fault is None
        }),
    ensures
        ({
            let (t, spa) = translate_access(s, s.r[6], false, s.cpl == 3);
            let (u, dpa) = translate_access(t, s.r[7], true, s.cpl == 3);
            copy_turns(u, spa, dpa, s.r[6], s.r[7], s.r[1] as int, size)
        }),
{
    let user = s.cpl == 3;
    let src = s.r[6];
    let dst = s.r[7];
    let (t, spa) = translate_access(s, src, false, user);
    let (u, dpa) = translate_access(t, dst, true, user);
    crate::mmu::law_translate_keeps(s, src, false, user);
    crate::mmu::law_translate_keeps(t, dst, true, user);
    law_frames_stay_aligned(s, src, false, user);
    law_frames_stay_aligned(t, dst, true, user);
    lemma_set_bounds(src);
    lemma_set_bounds(dst);
    if s.cfg.tlb_cache {
        if tlb_set(src) != tlb_set(dst) {
            law_source_kept(s);
        }
        if src & !0xfff == dst & !0xfff {
            lemma_shared_page(s, size);
        }
    }
    assert(tlb_fill(tlb_fill(u, src, spa, false), dst, dpa, true).tlb =~= u.tlb) by {
        reveal(translate_access);
    }
    assert(tlb_fill(tlb_fill(u, src, spa, false), dst, dpa, true) =~= u);
    lemma_copy_walked(u, spa, dpa, src, dst, s.r[1] as int, size);
}

/// A repeated copy done at once leaves the machine, its data cache and its clock as the element loop
/// does. As with a fill, no element may walk tables that the copy itself overwrites: there is no
/// paging, or the translation cache is on and keeps both pages, or the tables stay.
pub proof fn law_bulk_movs(s: CpuState, size: u8, rep: RepKind, start: u64)
    requires
        runnable(s),
        s.r.len() == 16,
        frames_aligned(s),
        (steady(s) && source_kept(s)) || movs_tables_kept(s, size),
        is_width(size),
        bulk_movs(s, size, rep).1,
    ensures
        bulk_movs(s, size, rep).0 == string_repeated(s, StringOp::Movs, size, rep, start, 0x1000),
{
    reveal(bulk_movs);
    let n = s.r[1] as int;
    let src = s.r[6];
    let dst = s.r[7];
    let user = s.cpl == 3;
    let (t, spa) = translate_access(s, src, false, user);
    let (u, dpa) = translate_access(t, dst, true, user);
    assert(s.fault is None) by {
        reveal(translate_access);
    }
    crate::mmu::law_translate_keeps(s, src, false, user);
    crate::mmu::law_translate_keeps(t, dst, true, user);
    law_frames_stay_aligned(s, src, false, user);
    law_frames_stay_aligned(t, dst, true, user);
    if steady(s) && source_kept(s) {
        lemma_held(t, dst, true, user);
        lemma_copy_held(u, spa, dpa, src, dst, n, size);
    } else if paging_on(s) {
        lemma_copy_walked_first(s, size);
    } else {
        lemma_held(s, src, false, user);
        lemma_held(t, dst, true, user);
        lemma_copy_held(u, spa, dpa, src, dst, n, size);
    }
    lemma_offset(0, n, size as int);
    lemma_one_page(src, size);
    lemma_one_page(dst, size);
    let q = copy_state(u, spa, dpa, src, dst, n, size, 0);
    assert(q.r =~= u.r);
    assert(q =~= u);
    lemma_copy_all(u, spa, dpa, src, dst, n, size, 0, rep, start, 0x1000);
    assert(copy_turn(u, spa, dpa));
    lemma_first_copy(s, size);
    lemma_copied(u, spa, dpa, n as nat, size);
    let z = copy_state(u, spa, dpa, src, dst, n, size, n);
    assert(bulk_movs(s, size, rep).0.r =~= z.r);
    assert(bulk_movs(s, size, rep).0 =~= z);
}

} // verus!
