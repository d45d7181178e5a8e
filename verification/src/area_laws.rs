//! A stretch of memory of at most a page's size, wherever its one or two pages lie: what is stored in
//! it stays there until it is overwritten, and is what a load gives back.
use vstd::prelude::*;
#[allow(unused_imports)]
use crate::bits::is_width;
#[allow(unused_imports)]
use crate::cpu::{runnable, CpuState};
#[allow(unused_imports)]
use crate::memory_laws::{
    covers, frames_aligned, held, law_frames_stay_aligned, law_store_keeps, lemma_fill_other,
    lemma_frame, lemma_held, lemma_held_again, lemma_held_offset, lemma_join, lemma_one_page,
    lemma_page_number, lemma_read_back, lemma_set_of_line, lemma_store_held, lemma_store_spread, lemma_walk_alike,
    lemma_walk_frame, lemma_walk_offset, lemma_write_bytes_fault, lemma_write_bytes_keep, low_bytes,
    place, plain, settled, spread, steady,
};
#[allow(unused_imports)]
use crate::mmu::{
    lemma_set_bounds, mem_read, mem_write, one_page, paging_on, read_bytes, tlb_hit, tlb_set, touched,
    translate_access, write_bytes,
};

verus! {

// ----- neighbouring addresses -----

/// Two addresses lie on one page, or in different sets of the translation cache.
pub open spec fn near(v: u64, w: u64) -> bool {
    v & !0xfff == w & !0xfff || tlb_set(v) != tlb_set(w)
}

proof fn lemma_near_bits(v: u64, d: u64)
    by (bit_vector)
    requires
        1 <= d <= 0xfff,
    ensures
        v + d <= 0xffff_ffff_ffff_ffff ==> v & 0xfff != ((v + d) as u64) & 0xfff && (v & !0xfff == ((v
            + d) as u64) & !0xfff || (v >> 12) & 0x3ff != (((v + d) as u64) >> 12) & 0x3ff),
        v + d > 0xffff_ffff_ffff_ffff ==> v & 0xfff != ((v + d - 0x1_0000_0000_0000_0000) as u64)
            & 0xfff && (v & !0xfff == ((v + d - 0x1_0000_0000_0000_0000) as u64) & !0xfff || (v >> 12)
            & 0x3ff != (((v + d - 0x1_0000_0000_0000_0000) as u64) >> 12) & 0x3ff),
{
}

/// The address of the `i`-th byte of a stretch.
pub open spec fn at(lo: u64, i: int) -> u64 {
    lo.wrapping_add(i as u64)
}

/// The bytes of a stretch are near each other, and differ in their offsets.
pub proof fn lemma_near(lo: u64, i: int, j: int)
    requires
        0 <= i < 0x1000,
        0 <= j < 0x1000,
    ensures
        near(at(lo, i), at(lo, j)),
        i != j ==> at(lo, i) & 0xfff != at(lo, j) & 0xfff,
{
    if i < j {
        lemma_near_bits(at(lo, i), (j - i) as u64);
    } else if j < i {
        lemma_near_bits(at(lo, j), (i - j) as u64);
    }
}

// ----- what is held stays held -----

/// A page that is held is found where it is.
pub proof fn lemma_found(s: CpuState, x: u64, p: u64, write: bool, user: bool)
    requires
        held(s, x, p, true),
    ensures
        translate_access(s, x, write, user) == (s, p),
{
    lemma_set_bounds(x);
    lemma_held_again(s, x, 0, p, true, write, user);
}

/// A translation leaves near pages in the cache.
proof fn lemma_translate_holds(s: CpuState, y: u64, x: u64, p: u64, write: bool, user: bool)
    requires
        runnable(s),
        held(s, x, p, true),
        near(x, y),
        translate_access(s, y, write, user).0.fault is None,
    ensures
        held(translate_access(s, y, write, user).0, x, p, true),
{
    crate::mmu::law_translate_keeps(s, y, write, user);
    lemma_set_bounds(x);
    lemma_set_bounds(y);
    if paging_on(s) {
        if tlb_set(x) != tlb_set(y) {
            lemma_fill_other(s, x, y, write, user);
        } else {
            reveal(translate_access);
        }
    }
}

proof fn lemma_write_bytes_holds(
    s: CpuState,
    a: u64,
    n: nat,
    v: u64,
    user: bool,
    x: u64,
    p: u64,
)
    requires
        runnable(s),
        n <= 8,
        held(s, x, p, true),
        forall|i: int| 0 <= i < n ==> near(x, #[trigger] at(a, i)),
        write_bytes(s, a, n, v, user).fault is None,
    ensures
        held(write_bytes(s, a, n, v, user), x, p, true),
    decreases n,
{
    if n > 0 {
        let t = write_bytes(s, a, (n - 1) as nat, v, user);
        assert(t.fault is None) by {
            reveal(translate_access);
        }
        lemma_write_bytes_holds(s, a, (n - 1) as nat, v, user, x, p);
        lemma_write_bytes_keep(s, a, (n - 1) as nat, v, user);
        assert(near(x, at(a, n - 1)));
        lemma_translate_holds(t, at(a, n - 1), x, p, true, user);
    }
}

/// A store leaves near pages in the cache, wherever it goes.
pub proof fn lemma_store_holds(s: CpuState, a: u64, size: u8, v: u64, x: u64, p: u64)
    requires
        runnable(s),
        is_width(size),
        held(s, x, p, true),
        forall|i: int| 0 <= i < size ==> near(x, #[trigger] at(a, i)),
        mem_write(s, a, size, v).fault is None,
    ensures
        held(mem_write(s, a, size, v), x, p, true),
{
    reveal(mem_write);
    let user = s.cpl == 3;
    let (t, pa) = translate_access(s, a, true, user);
    crate::mmu::law_translate_keeps(s, a, true, user);
    lemma_set_of_line(pa);
    lemma_write_bytes_fault(touched(t, pa), a, size as nat, v, user);
    assert(at(a, 0) == a);
    assert(near(x, at(a, 0)));
    lemma_translate_holds(s, a, x, p, true, user);
    let u = touched(t, pa);
    assert(held(u, x, p, true));
    if !one_page(a, size) && plain(pa) {
        lemma_write_bytes_holds(u, a, size as nat, v, user, x, p);
    }
}

/// A fault stays latched through a store.
pub proof fn lemma_store_fault(s: CpuState, a: u64, size: u8, v: u64)
    ensures
        mem_write(s, a, size, v).fault is None ==> s.fault is None,
{
    reveal(mem_write);
    reveal(translate_access);
    let user = s.cpl == 3;
    let (t, pa) = translate_access(s, a, true, user);
    lemma_write_bytes_fault(touched(t, pa), a, size as nat, v, user);
}

// ----- a stretch -----

/// The pages of the `n` bytes from `lo` that are held in `s` are held in `d`, at the same places.
pub open spec fn lasts(s: CpuState, d: CpuState, lo: u64, n: int) -> bool {
    forall|i: int, p: u64|
        0 <= i < n && #[trigger] held(s, at(lo, i), p, true) ==> held(d, at(lo, i), p, true)
}

/// The `n` bytes from `lo` are mapped to RAM.
pub open spec fn in_ram(d: CpuState, lo: u64, n: int) -> bool {
    &&& d.fault is None
    &&& forall|i: int|
        0 <= i < n ==> plain(#[trigger] place(d, lo, i)) && place(d, lo, i) < d.ram.len()
}

/// The value stands in the stretch.
pub open spec fn kept(s: CpuState, lo: u64, off: int, size: int, v: u64) -> bool {
    forall|i: int| 0 <= i < size ==> #[trigger] settled(s, at(lo, off), v, i)
}

/// A byte of an operand is a byte of the stretch.
proof fn lemma_at(lo: u64, off: int, i: int)
    requires
        0 <= off,
        0 <= i,
        off + i < 0x1000,
    ensures
        at(at(lo, off), i) == at(lo, off + i),
{
}

/// A store in the stretch changes no place of it.
pub proof fn lemma_store_lasts(s: CpuState, lo: u64, n: int, off: int, size: u8, v: u64)
    requires
        runnable(s),
        is_width(size),
        0 <= off,
        off + size <= n <= 0x1000,
        mem_write(s, at(lo, off), size, v).fault is None,
    ensures
        lasts(s, mem_write(s, at(lo, off), size, v), lo, n),
{
    let w = mem_write(s, at(lo, off), size, v);
    assert forall|i: int, p: u64|
        0 <= i < n && #[trigger] held(s, at(lo, i), p, true) implies held(w, at(lo, i), p, true) by {
        assert forall|j: int| 0 <= j < size implies near(at(lo, i), #[trigger] at(at(lo, off), j)) by {
            lemma_at(lo, off, j);
            lemma_near(lo, i, off + j);
        }
        lemma_store_holds(s, at(lo, off), size, v, at(lo, i), p);
    }
}

/// A store in the stretch settles its bytes, if the stretch is in RAM in the end.
pub proof fn lemma_store_in(
    s: CpuState,
    d: CpuState,
    lo: u64,
    n: int,
    off: int,
    size: u8,
    v: u64,
)
    requires
        runnable(s),
        frames_aligned(s),
        steady(s),
        is_width(size),
        0 <= off,
        off + size <= n <= 0x1000,
        mem_write(s, at(lo, off), size, v).fault is None,
        lasts(mem_write(s, at(lo, off), size, v), d, lo, n),
        in_ram(d, lo, n),
        d.ram.len() == s.ram.len(),
    ensures
        ({
            let w = mem_write(s, at(lo, off), size, v);
            &&& spread(s, w, at(lo, off), size as int, v)
            &&& kept(w, lo, off, size as int, v)
            &&& frames_aligned(w)
            &&& s.fault is None
        }),
{
    let a = at(lo, off);
    let user = s.cpl == 3;
    let w = mem_write(s, a, size, v);
    lemma_store_fault(s, a, size, v);
    let (t, pa) = translate_access(s, a, true, user);
    assert(t.fault is None) by {
        reveal(mem_write);
        lemma_write_bytes_fault(touched(t, pa), a, size as nat, v, user);
    }
    lemma_held(s, a, true, user);
    crate::mmu::law_translate_keeps(s, a, true, user);
    assert(held(w, a, pa, true)) by {
        lemma_first_holds(s, lo, off, size, v);
    }
    assert(held(d, a, pa, true));
    lemma_found(d, a, pa, false, d.cpl == 3);
    assert(place(d, lo, off) == pa);
    lemma_store_held(s, a, size, v);
    law_store_keeps(s, a, size, v);
    assert forall|i: int| 0 <= i < size implies #[trigger] place(w, a, i) < s.ram.len() by {
        lemma_at(lo, off, i);
        let p = place(w, a, i);
        assert(held(w, at(lo, off + i), p, true));
        assert(held(d, at(lo, off + i), p, true));
        lemma_found(d, at(lo, off + i), p, false, d.cpl == 3);
        assert(place(d, lo, off + i) == p);
    }
    lemma_store_spread(s, a, size, v);
}

/// The page of the first byte of a store is held behind it.
proof fn lemma_first_holds(s: CpuState, lo: u64, off: int, size: u8, v: u64)
    requires
        runnable(s),
        frames_aligned(s),
        steady(s),
        is_width(size),
        0 <= off,
        off + size <= 0x1000,
        s.fault is None,
        translate_access(s, at(lo, off), true, s.cpl == 3).0.fault is None,
        mem_write(s, at(lo, off), size, v).fault is None,
    ensures
        held(
            mem_write(s, at(lo, off), size, v),
            at(lo, off),
            translate_access(s, at(lo, off), true, s.cpl == 3).1,
            true,
        ),
{
    let a = at(lo, off);
    let user = s.cpl == 3;
    let (t, pa) = translate_access(s, a, true, user);
    lemma_held(s, a, true, user);
    crate::mmu::law_translate_keeps(s, a, true, user);
    lemma_set_of_line(pa);
    assert(mem_write(t, a, size, v) == mem_write(s, a, size, v)) by {
        reveal(mem_write);
        lemma_found(t, a, pa, true, user);
    }
    assert forall|j: int| 0 <= j < size implies near(a, #[trigger] at(a, j)) by {
        lemma_at(lo, off, j);
        lemma_near(lo, off, off + j);
    }
    lemma_store_holds(t, a, size, v, a, pa);
}

/// A value stays where it is when another is stored beside it.
pub proof fn lemma_kept(
    s: CpuState,
    lo: u64,
    off: int,
    size: int,
    v: u64,
    other: int,
    width: u8,
    u: u64,
)
    requires
        runnable(s),
        is_width(width),
        0 <= off,
        0 <= size,
        off + size <= 0x1000,
        0 <= other,
        other + width <= 0x1000,
        off + size <= other || other + width <= off,
        kept(s, lo, off, size, v),
        mem_write(s, at(lo, other), width, u).fault is None,
        spread(s, mem_write(s, at(lo, other), width, u), at(lo, other), width as int, u),
    ensures
        kept(mem_write(s, at(lo, other), width, u), lo, off, size, v),
{
    let a = at(lo, off);
    let b = at(lo, other);
    let w = mem_write(s, b, width, u);
    assert forall|i: int| 0 <= i < size implies #[trigger] settled(w, a, v, i) by {
        assert(settled(s, a, v, i));
        lemma_at(lo, off, i);
        let x = at(lo, off + i);
        let p = place(s, a, i);
        assert forall|j: int| 0 <= j < width implies near(x, #[trigger] at(b, j)) by {
            lemma_at(lo, other, j);
            lemma_near(lo, off + i, other + j);
        }
        lemma_store_holds(s, b, width, u, x, p);
        lemma_found(w, x, p, false, w.cpl == 3);
        assert(place(w, a, i) == p);
        lemma_held_offset(w, x, p);
        assert(!covers(w, b, width as int, p as int)) by {
            if covers(w, b, width as int, p as int) {
                let j = choose|j: int| 0 <= j < width && p as int == #[trigger] place(w, b, j);
                assert(settled(w, b, u, j));
                lemma_at(lo, other, j);
                lemma_held_offset(w, at(lo, other + j), place(w, b, j));
                lemma_near(lo, off + i, other + j);
            }
        }
    }
}

proof fn lemma_read_bytes_kept(s: CpuState, a: u64, n: nat, size: int, v: u64)
    requires
        n <= size <= 8,
        forall|i: int| 0 <= i < size ==> #[trigger] settled(s, a, v, i),
    ensures
        read_bytes(s, a, n, s.cpl == 3) == (s, low_bytes(v, n)),
    decreases n,
{
    if n > 0 {
        lemma_read_bytes_kept(s, a, (n - 1) as nat, size, v);
        assert(settled(s, a, v, n - 1));
        lemma_found(s, at(a, n - 1), place(s, a, n - 1), false, s.cpl == 3);
        lemma_join(v, (8 * (n - 1)) as u64);
    } else {
        lemma_join(v, 0);
    }
}

/// A value that stands in the stretch is loaded.
pub proof fn lemma_load_kept(s: CpuState, lo: u64, off: int, size: u8, v: u64)
    requires
        is_width(size),
        kept(s, lo, off, size as int, v),
        plain(place(s, at(lo, off), 0)),
    ensures
        mem_read(s, at(lo, off), size) == (
            touched(s, place(s, at(lo, off), 0)),
            low_bytes(v, size as nat),
        ),
{
    reveal(mem_read);
    let a = at(lo, off);
    let user = s.cpl == 3;
    let pa = place(s, a, 0);
    assert(settled(s, a, v, 0));
    assert(at(a, 0) == a);
    lemma_found(s, a, pa, false, user);
    lemma_one_page(a, size);
    let u = touched(s, pa);
    if one_page(a, size) {
        assert forall|x: int| pa <= x < pa + size implies #[trigger] s.ram[x] == (v >> ((8 * (x
            - pa)) as u64)) as u8 by {
            let i = x - pa;
            assert(settled(s, a, v, i));
            lemma_held_again(s, a, i as u64, pa, true, false, user);
        }
        assert(settled(s, a, v, size - 1));
        lemma_held_again(s, a, (size - 1) as u64, pa, true, false, user);
        lemma_read_back(s.ram, pa as int, size as nat, v);
    } else {
        assert forall|i: int| 0 <= i < size implies #[trigger] settled(u, a, v, i) by {
            assert(settled(s, a, v, i));
            let p = place(s, a, i);
            assert(held(u, at(a, i), p, true));
            lemma_found(u, at(a, i), p, false, user);
        }
        lemma_read_bytes_kept(u, a, size as nat, size as int, v);
    }
}

/// What stands in memory does not depend on the registers, the clock or the data cache.
pub proof fn lemma_kept_apart(s: CpuState, t: CpuState, lo: u64, off: int, size: int, v: u64)
    requires
        kept(s, lo, off, size, v),
        t == (CpuState { r: t.r, rip: t.rip, rflags: t.rflags, sys: t.sys, ..s }),
    ensures
        kept(t, lo, off, size, v),
        size > 0 ==> place(t, at(lo, off), 0) == place(s, at(lo, off), 0),
{
    let a = at(lo, off);
    assert forall|i: int| 0 <= i < size implies #[trigger] settled(t, a, v, i) && place(t, a, i)
        == place(s, a, i) by {
        assert(settled(s, a, v, i));
        let p = place(s, a, i);
        assert(held(t, at(a, i), p, true));
        lemma_found(t, at(a, i), p, false, t.cpl == 3);
    }
    if size > 0 {
        assert(settled(t, a, v, 0));
    }
}

// ----- a stretch that is only read -----

/// A machine loads the `n` bytes from `lo` from where they lie in another.
pub open spec fn found(q: CpuState, d: CpuState, lo: u64, n: int) -> bool {
    &&& q.fault is None
    &&& forall|i: int|
        0 <= i < n ==> {
            let (t, p) = translate_access(q, #[trigger] at(lo, i), false, q.cpl == 3);
            t.fault is None && p == place(d, lo, i)
        }
}

/// A translation of one byte of the stretch leaves the others where they are.
proof fn lemma_look(q: CpuState, d: CpuState, lo: u64, n: int, j: int)
    requires
        runnable(q),
        frames_aligned(q),
        found(q, d, lo, n),
        0 <= j < n <= 0x1000,
    ensures
        ({
            let t = translate_access(q, at(lo, j), false, q.cpl == 3).0;
            &&& t == CpuState { tlb: t.tlb, ..q }
            &&& runnable(t)
            &&& frames_aligned(t)
            &&& found(t, d, lo, n)
        }),
{
    let user = q.cpl == 3;
    let y = at(lo, j);
    let (t, py) = translate_access(q, y, false, user);
    crate::mmu::law_translate_keeps(q, y, false, user);
    law_frames_stay_aligned(q, y, false, user);
    assert(t.fault is None && py == place(d, lo, j));
    lemma_set_bounds(y);
    assert forall|i: int| 0 <= i < n implies {
        let (u, p) = translate_access(t, #[trigger] at(lo, i), false, t.cpl == 3);
        u.fault is None && p == place(d, lo, i)
    } by {
        let x = at(lo, i);
        let (u, px) = translate_access(q, x, false, user);
        assert(u.fault is None && px == place(d, lo, i));
        lemma_near(lo, i, j);
        lemma_set_bounds(x);
        lemma_walk_alike(q, t, x, false, user);
        reveal(translate_access);
        if !tlb_hit(q, y, false) && x & !0xfff == y & !0xfff {
            lemma_page_number(x, y);
            if paging_on(q) {
                lemma_walk_frame(q, x, y, false, user);
                lemma_walk_offset(q, x, false, user);
                lemma_frame(0, px);
            }
        }
    }
}

/// Where a machine loads from does not depend on the registers, the clock or the data cache.
pub proof fn lemma_found_apart(q: CpuState, t: CpuState, d: CpuState, lo: u64, n: int)
    requires
        found(q, d, lo, n),
        t == (CpuState {
            r: t.r,
            xmm: t.xmm,
            fpr: t.fpr,
            ftop: t.ftop,
            fcw: t.fcw,
            fsw: t.fsw,
            sys: t.sys,
            ..q
        }),
    ensures
        found(t, d, lo, n),
{
    assert forall|i: int| 0 <= i < n implies {
        let (u, p) = translate_access(t, #[trigger] at(lo, i), false, t.cpl == 3);
        u.fault is None && p == place(d, lo, i)
    } by {
        let x = at(lo, i);
        let (u, p) = translate_access(q, x, false, q.cpl == 3);
        assert(u.fault is None && p == place(d, lo, i));
        lemma_walk_alike(q, t, x, false, q.cpl == 3);
        reveal(translate_access);
    }
}

proof fn lemma_read_bytes_found(
    q: CpuState,
    d: CpuState,
    lo: u64,
    n: int,
    off: int,
    size: int,
    v: u64,
    k: nat,
)
    requires
        runnable(q),
        frames_aligned(q),
        found(q, d, lo, n),
        q.ram == d.ram,
        0 <= off,
        off + size <= n <= 0x1000,
        k <= size <= 8,
        kept(d, lo, off, size, v),
    ensures
        ({
            let (t, x) = read_bytes(q, at(lo, off), k, q.cpl == 3);
            &&& t == CpuState { tlb: t.tlb, ..q }
            &&& runnable(t)
            &&& frames_aligned(t)
            &&& found(t, d, lo, n)
            &&& x == low_bytes(v, k)
        }),
    decreases k,
{
    if k > 0 {
        lemma_read_bytes_found(q, d, lo, n, off, size, v, (k - 1) as nat);
        let t = read_bytes(q, at(lo, off), (k - 1) as nat, q.cpl == 3).0;
        lemma_at(lo, off, k - 1);
        let p = translate_access(t, at(lo, off + k - 1), false, t.cpl == 3).1;
        assert(p == place(d, lo, off + k - 1));
        assert(settled(d, at(lo, off), v, k - 1));
        lemma_look(t, d, lo, n, off + k - 1);
        lemma_join(v, (8 * (k - 1)) as u64);
    } else {
        lemma_join(v, 0);
    }
}

/// A value that stands in the stretch is loaded by a machine that finds it.
pub proof fn lemma_load_found(q: CpuState, d: CpuState, lo: u64, n: int, off: int, size: u8, v: u64)
    requires
        runnable(q),
        frames_aligned(q),
        found(q, d, lo, n),
        in_ram(d, lo, n),
        q.ram == d.ram,
        is_width(size),
        0 <= off,
        off + size <= n <= 0x1000,
        kept(d, lo, off, size as int, v),
    ensures
        ({
            let (t, x) = mem_read(q, at(lo, off), size);
            &&& t == CpuState { tlb: t.tlb, sys: t.sys, ..q }
            &&& runnable(t)
            &&& frames_aligned(t)
            &&& found(t, d, lo, n)
            &&& x == low_bytes(v, size as nat)
        }),
{
    reveal(mem_read);
    let a = at(lo, off);
    let user = q.cpl == 3;
    let (t, pa) = translate_access(q, a, false, user);
    assert(pa == place(d, lo, off));
    assert(plain(place(d, lo, off)));
    assert(place(d, a, 0) == place(d, lo, off));
    lemma_look(q, d, lo, n, off);
    lemma_set_of_line(pa);
    lemma_one_page(a, size);
    let u = touched(t, pa);
    lemma_found_apart(t, u, d, lo, n);
    assert(frames_aligned(u)) by {
        assert(u.tlb == t.tlb);
    }
    if one_page(a, size) {
        assert(settled(d, a, v, 0));
        assert(at(a, 0) == a);
        assert forall|x: int| pa <= x < pa + size implies #[trigger] d.ram[x] == (v >> ((8 * (x
            - pa)) as u64)) as u8 by {
            let i = x - pa;
            assert(settled(d, a, v, i));
            lemma_held_again(d, a, i as u64, pa, true, false, d.cpl == 3);
        }
        assert(settled(d, a, v, size - 1));
        lemma_held_again(d, a, (size - 1) as u64, pa, true, false, d.cpl == 3);
        lemma_read_back(d.ram, pa as int, size as nat, v);
    } else {
        lemma_read_bytes_found(u, d, lo, n, off, size as int, v, size as nat);
    }
}

} // verus!
