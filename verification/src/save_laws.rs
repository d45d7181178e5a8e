//! The save area of the floating-point and vector registers gives back what was put in it.
use vstd::prelude::*;
#[allow(unused_imports)]
use crate::area_laws::{
    at, found, in_ram, kept, lasts, lemma_found_apart, lemma_kept, lemma_load_found,
    lemma_store_fault, lemma_store_in, lemma_store_lasts,
};
#[allow(unused_imports)]
use crate::bits::is_width;
#[allow(unused_imports)]
use crate::cpu::{runnable, CpuState};
#[allow(unused_imports)]
use crate::decode::{FlowState, FpAskState};
#[allow(unused_imports)]
use crate::fpu_ops::{
    answer, read_numbers, read_xmm, state_read, state_written, status_word, write_head,
    write_numbers, write_xmm,
};
#[allow(unused_imports)]
use crate::memory_laws::{
    frames_aligned, held, law_store_keeps, lemma_low_bytes, low_bytes, steady,
};
#[allow(unused_imports)]
use crate::mmu::{mem_read, mem_write};

verus! {

/// Parts of words put together again.
pub proof fn lemma_words(v: u64, w: u16, x: u128)
    by (bit_vector)
    ensures
        ((x as u64) as u128) | ((((x >> 64) as u64) as u128) << 64) == x,
        ((w as u64) & 0xffff) as u16 == w,
        (v & 0xffff) & 0xffff == v & 0xffff,
        (((v & 0xffff) & 0xffff) as u16) as u64 == v & 0xffff,
        v & 0xffff_ffff_ffff_ffff == v,
{
}

proof fn lemma_status(f: u16, t: u16)
    by (bit_vector)
    requires
        t < 8,
    ensures
        (((f & !0x3800) | (t << 11)) / 2048) % 8 == t,
{
}

// ----- the area written -----

/// Only memory, the caches and time have changed.
spec fn only_memory(s: CpuState, q: CpuState) -> bool {
    &&& q == CpuState { ram: q.ram, sys: q.sys, tlb: q.tlb, fault: q.fault, ..s }
    &&& q.ram.len() == s.ram.len()
    &&& runnable(q)
}

/// Where a store finds itself: its outcome ends up in `d`, where the area is in RAM.
spec fn leads(q: CpuState, d: CpuState, lo: u64, n: int) -> bool {
    &&& q.fault is None
    &&& lasts(q, d, lo, n)
    &&& in_ram(d, lo, n)
    &&& d.ram.len() == q.ram.len()
    &&& n <= 0x1000
}

/// What a store leads to, what is before it leads to.
proof fn lemma_back(q: CpuState, d: CpuState, lo: u64, n: int, off: int, size: u8, v: u64)
    requires
        runnable(q),
        is_width(size),
        0 <= off,
        off + size <= n,
        leads(mem_write(q, at(lo, off), size, v), d, lo, n),
    ensures
        leads(q, d, lo, n),
        only_memory(q, mem_write(q, at(lo, off), size, v)),
{
    let w = mem_write(q, at(lo, off), size, v);
    law_store_keeps(q, at(lo, off), size, v);
    lemma_store_fault(q, at(lo, off), size, v);
    lemma_store_lasts(q, lo, n, off, size, v);
    assert forall|i: int, p: u64|
        0 <= i < n && #[trigger] held(q, at(lo, i), p, true) implies held(d, at(lo, i), p, true) by {
        assert(held(w, at(lo, i), p, true));
    }
}

/// One store: its value stands in the area, and so does what stood beside it.
proof fn lemma_put(q: CpuState, d: CpuState, lo: u64, n: int, off: int, size: u8, v: u64)
    requires
        runnable(q),
        frames_aligned(q),
        steady(q),
        is_width(size),
        0 <= off,
        off + size <= n,
        leads(mem_write(q, at(lo, off), size, v), d, lo, n),
    ensures
        ({
            let w = mem_write(q, at(lo, off), size, v);
            &&& only_memory(q, w)
            &&& frames_aligned(w)
            &&& steady(w)
            &&& kept(w, lo, off, size as int, v)
            &&& forall|o: int, z: int, x: u64|
                0 <= o && 0 <= z && o + z <= 0x1000 && (o + z <= off || off + size <= o)
                    && #[trigger] kept(q, lo, o, z, x) ==> kept(w, lo, o, z, x)
        }),
{
    let w = mem_write(q, at(lo, off), size, v);
    lemma_back(q, d, lo, n, off, size, v);
    lemma_store_in(q, d, lo, n, off, size, v);
    assert forall|o: int, z: int, x: u64|
        0 <= o && 0 <= z && o + z <= 0x1000 && (o + z <= off || off + size <= o)
            && #[trigger] kept(q, lo, o, z, x) implies kept(w, lo, o, z, x) by {
        lemma_kept(q, lo, o, z, x, off, size, v);
    }
}

/// The head of the area.
proof fn lemma_head(s: CpuState, d: CpuState, lo: u64, n: int)
    requires
        runnable(s),
        frames_aligned(s),
        steady(s),
        n >= 512,
        leads(write_head(s, lo), d, lo, n),
    ensures
        ({
            let h = write_head(s, lo);
            &&& only_memory(s, h)
            &&& frames_aligned(h)
            &&& steady(h)
            &&& kept(h, lo, 0, 2, s.fcw as u64)
            &&& kept(h, lo, 2, 2, status_word(s) as u64)
        }),
{
    assert(at(lo, 0) == lo);
    let s1 = mem_write(s, at(lo, 0), 2, s.fcw as u64);
    law_store_keeps(s, at(lo, 0), 2, s.fcw as u64);
    let w = status_word(s1) as u64;
    let s2 = mem_write(s1, at(lo, 2), 2, w);
    law_store_keeps(s1, at(lo, 2), 2, w);
    let s3 = mem_write(s2, at(lo, 4), 1, 0xff);
    law_store_keeps(s2, at(lo, 4), 1, 0xff);
    let s4 = mem_write(s3, at(lo, 24), 4, 0x1f80);
    law_store_keeps(s3, at(lo, 24), 4, 0x1f80);
    lemma_back(s4, d, lo, n, 28, 4, 0xffff);
    lemma_back(s3, d, lo, n, 24, 4, 0x1f80);
    lemma_back(s2, d, lo, n, 4, 1, 0xff);
    lemma_back(s1, d, lo, n, 2, 2, w);
    lemma_put(s, d, lo, n, 0, 2, s.fcw as u64);
    lemma_put(s1, d, lo, n, 2, 2, w);
    lemma_put(s2, d, lo, n, 4, 1, 0xff);
    lemma_put(s3, d, lo, n, 24, 4, 0x1f80);
    lemma_put(s4, d, lo, n, 28, 4, 0xffff);
}

/// A number of the area.
spec fn numbered(q: CpuState, lo: u64, a: FpAskState, res: Seq<u64>, i: int) -> bool {
    &&& kept(q, lo, 32 + 16 * i, 8, answer(a, res, 2 * i))
    &&& kept(q, lo, 40 + 16 * i, 2, answer(a, res, 2 * i + 1) & 0xffff)
}

/// The numbers of the area change memory only.
proof fn lemma_numbers_shape(h: CpuState, lo: u64, a: FpAskState, res: Seq<u64>, k: nat)
    requires
        runnable(h),
    ensures
        only_memory(h, write_numbers(h, lo, a, res, k)),
    decreases k,
{
    if k > 0 {
        lemma_numbers_shape(h, lo, a, res, (k - 1) as nat);
        let q = write_numbers(h, lo, a, res, (k - 1) as nat);
        let base = lo.wrapping_add((32 + (k - 1) * 16) as u64);
        let x = answer(a, res, 2 * (k - 1));
        let r = mem_write(q, base, 8, x);
        law_store_keeps(q, base, 8, x);
        law_store_keeps(r, base.wrapping_add(8), 2, answer(a, res, 2 * (k - 1) + 1) & 0xffff);
    }
}

/// The numbers of the area.
proof fn lemma_numbers(
    h: CpuState,
    d: CpuState,
    lo: u64,
    n: int,
    a: FpAskState,
    res: Seq<u64>,
    k: nat,
)
    requires
        runnable(h),
        frames_aligned(h),
        steady(h),
        n >= 512,
        k <= 8,
        leads(write_numbers(h, lo, a, res, k), d, lo, n),
    ensures
        ({
            let q = write_numbers(h, lo, a, res, k);
            &&& frames_aligned(q)
            &&& steady(q)
            &&& leads(h, d, lo, n)
            &&& forall|i: int| 0 <= i < k ==> #[trigger] numbered(q, lo, a, res, i)
            &&& forall|o: int, z: int, x: u64|
                0 <= o && 0 <= z && o + z <= 32 && #[trigger] kept(h, lo, o, z, x) ==> kept(
                    q,
                    lo,
                    o,
                    z,
                    x,
                )
        }),
    decreases k,
{
    lemma_numbers_shape(h, lo, a, res, k);
    if k > 0 {
        let m = (k - 1) as nat;
        lemma_numbers_shape(h, lo, a, res, m);
        let q = write_numbers(h, lo, a, res, m);
        let off = 32 + 16 * (k - 1);
        let base = at(lo, off);
        let x = answer(a, res, 2 * (k - 1));
        let y = answer(a, res, 2 * (k - 1) + 1) & 0xffff;
        let r1 = mem_write(q, base, 8, x);
        law_store_keeps(q, base, 8, x);
        assert(base.wrapping_add(8) == at(lo, off + 8));
        let r2 = mem_write(r1, at(lo, off + 8), 2, y);
        assert(r2 == write_numbers(h, lo, a, res, k));
        lemma_back(r1, d, lo, n, off + 8, 2, y);
        lemma_back(q, d, lo, n, off, 8, x);
        lemma_numbers(h, d, lo, n, a, res, m);
        lemma_put(q, d, lo, n, off, 8, x);
        lemma_put(r1, d, lo, n, off + 8, 2, y);
        assert forall|i: int| 0 <= i < k implies #[trigger] numbered(r2, lo, a, res, i) by {
            if i < m {
                assert(numbered(q, lo, a, res, i));
                assert(numbered(r1, lo, a, res, i));
            }
        }
        assert forall|o: int, z: int, v: u64|
            0 <= o && 0 <= z && o + z <= 32 && #[trigger] kept(h, lo, o, z, v) implies kept(
            r2,
            lo,
            o,
            z,
            v,
        ) by {
            assert(kept(q, lo, o, z, v));
            assert(kept(r1, lo, o, z, v));
        }
    }
}

/// A vector register of the area.
spec fn vectored(q: CpuState, lo: u64, x: u128, i: int) -> bool {
    &&& kept(q, lo, 160 + 16 * i, 8, x as u64)
    &&& kept(q, lo, 168 + 16 * i, 8, (x >> 64) as u64)
}

/// The vector registers of the area change memory only.
proof fn lemma_vectors_shape(h: CpuState, lo: u64, k: nat)
    requires
        runnable(h),
    ensures
        only_memory(h, write_xmm(h, lo, k)),
    decreases k,
{
    if k > 0 {
        lemma_vectors_shape(h, lo, (k - 1) as nat);
        let q = write_xmm(h, lo, (k - 1) as nat);
        let base = lo.wrapping_add((160 + (k - 1) * 16) as u64);
        let x = q.xmm[k - 1];
        let r = mem_write(q, base, 8, x as u64);
        law_store_keeps(q, base, 8, x as u64);
        law_store_keeps(r, base.wrapping_add(8), 8, (x >> 64) as u64);
    }
}

/// The vector registers of the area.
proof fn lemma_vectors(h: CpuState, d: CpuState, lo: u64, n: int, k: nat)
    requires
        runnable(h),
        frames_aligned(h),
        steady(h),
        n >= 512,
        k <= 16,
        leads(write_xmm(h, lo, k), d, lo, n),
    ensures
        ({
            let q = write_xmm(h, lo, k);
            &&& frames_aligned(q)
            &&& steady(q)
            &&& leads(h, d, lo, n)
            &&& forall|i: int| 0 <= i < k ==> #[trigger] vectored(q, lo, h.xmm[i], i)
            &&& forall|o: int, z: int, x: u64|
                0 <= o && 0 <= z && o + z <= 160 && #[trigger] kept(h, lo, o, z, x) ==> kept(
                    q,
                    lo,
                    o,
                    z,
                    x,
                )
        }),
    decreases k,
{
    lemma_vectors_shape(h, lo, k);
    if k > 0 {
        let m = (k - 1) as nat;
        lemma_vectors_shape(h, lo, m);
        let q = write_xmm(h, lo, m);
        let off = 160 + 16 * (k - 1);
        let base = at(lo, off);
        let v = h.xmm[k - 1];
        let x = v as u64;
        let y = (v >> 64) as u64;
        let r1 = mem_write(q, base, 8, x);
        law_store_keeps(q, base, 8, x);
        assert(base.wrapping_add(8) == at(lo, off + 8));
        let r2 = mem_write(r1, at(lo, off + 8), 8, y);
        assert(r2 == write_xmm(h, lo, k));
        lemma_back(r1, d, lo, n, off + 8, 8, y);
        lemma_back(q, d, lo, n, off, 8, x);
        lemma_vectors(h, d, lo, n, m);
        lemma_put(q, d, lo, n, off, 8, x);
        lemma_put(r1, d, lo, n, off + 8, 8, y);
        assert forall|i: int| 0 <= i < k implies #[trigger] vectored(r2, lo, h.xmm[i], i) by {
            if i < m {
                assert(vectored(q, lo, h.xmm[i], i));
                assert(vectored(r1, lo, h.xmm[i], i));
            }
        }
        assert forall|o: int, z: int, u: u64|
            0 <= o && 0 <= z && o + z <= 160 && #[trigger] kept(h, lo, o, z, u) implies kept(
            r2,
            lo,
            o,
            z,
            u,
        ) by {
            assert(kept(q, lo, o, z, u));
            assert(kept(r1, lo, o, z, u));
        }
    }
}

/// The bytes of the area; the extended header follows the rest.
pub open spec fn area_size(header: bool) -> int {
    if header {
        528
    } else {
        512
    }
}

/// The area with everything in it.
proof fn lemma_area(s: CpuState, lo: u64, header: bool, a: FpAskState, res: Seq<u64>)
    requires
        runnable(s),
        frames_aligned(s),
        steady(s),
        in_ram(state_written(s, lo, header, a, res), lo, area_size(header)),
    ensures
        ({
            let d = state_written(s, lo, header, a, res);
            &&& kept(d, lo, 0, 2, s.fcw as u64)
            &&& kept(d, lo, 2, 2, status_word(s) as u64)
            &&& forall|i: int| 0 <= i < 8 ==> #[trigger] numbered(d, lo, a, res, i)
            &&& forall|i: int| 0 <= i < 16 ==> #[trigger] vectored(d, lo, s.xmm[i], i)
        }),
{
    reveal(state_written);
    let n = area_size(header);
    let d = state_written(s, lo, header, a, res);
    assert(at(lo, 0) == lo);
    let h = write_head(s, lo);
    lemma_head_shape(s, lo);
    let w = write_numbers(h, lo, a, res, 8);
    lemma_numbers_shape(h, lo, a, res, 8);
    let x = write_xmm(w, lo, 16);
    lemma_vectors_shape(w, lo, 16);
    let y = mem_write(x, at(lo, 512), 8, 3);
    law_store_keeps(x, at(lo, 512), 8, 3);
    law_store_keeps(y, at(lo, 520), 8, 0);
    assert(leads(d, d, lo, n));
    if header {
        lemma_back(y, d, lo, n, 520, 8, 0);
        lemma_back(x, d, lo, n, 512, 8, 3);
    }
    lemma_xmm_back(w, d, lo, n, 16);
    lemma_numbers_back(h, d, lo, n, a, res, 8);
    lemma_head(s, d, lo, n);
    lemma_numbers(h, d, lo, n, a, res, 8);
    lemma_vectors(w, d, lo, n, 16);
    assert(kept(w, lo, 0, 2, s.fcw as u64));
    assert(kept(w, lo, 2, 2, status_word(s) as u64));
    assert forall|i: int| 0 <= i < 8 implies #[trigger] numbered(x, lo, a, res, i) by {
        assert(numbered(w, lo, a, res, i));
    }
    assert forall|i: int| 0 <= i < 16 implies #[trigger] vectored(x, lo, s.xmm[i], i) by {
        assert(vectored(x, lo, w.xmm[i], i));
    }
    if header {
        lemma_put(x, d, lo, n, 512, 8, 3);
        lemma_put(y, d, lo, n, 520, 8, 0);
        assert(kept(y, lo, 0, 2, s.fcw as u64));
        assert(kept(y, lo, 2, 2, status_word(s) as u64));
        assert forall|i: int| 0 <= i < 8 implies #[trigger] numbered(d, lo, a, res, i) by {
            assert(numbered(x, lo, a, res, i));
            assert(numbered(y, lo, a, res, i));
        }
        assert forall|i: int| 0 <= i < 16 implies #[trigger] vectored(d, lo, s.xmm[i], i) by {
            assert(vectored(x, lo, s.xmm[i], i));
            assert(vectored(y, lo, s.xmm[i], i));
        }
    }
}

proof fn lemma_head_shape(s: CpuState, lo: u64)
    requires
        runnable(s),
    ensures
        only_memory(s, write_head(s, lo)),
{
    let s1 = mem_write(s, lo, 2, s.fcw as u64);
    law_store_keeps(s, lo, 2, s.fcw as u64);
    let s2 = mem_write(s1, lo.wrapping_add(2), 2, status_word(s1) as u64);
    law_store_keeps(s1, lo.wrapping_add(2), 2, status_word(s1) as u64);
    let s3 = mem_write(s2, lo.wrapping_add(4), 1, 0xff);
    law_store_keeps(s2, lo.wrapping_add(4), 1, 0xff);
    let s4 = mem_write(s3, lo.wrapping_add(24), 4, 0x1f80);
    law_store_keeps(s3, lo.wrapping_add(24), 4, 0x1f80);
    law_store_keeps(s4, lo.wrapping_add(28), 4, 0xffff);
}

/// What the vector registers lead to, what is before them leads to.
proof fn lemma_xmm_back(h: CpuState, d: CpuState, lo: u64, n: int, k: nat)
    requires
        runnable(h),
        n >= 512,
        k <= 16,
        leads(write_xmm(h, lo, k), d, lo, n),
    ensures
        leads(h, d, lo, n),
    decreases k,
{
    if k > 0 {
        let m = (k - 1) as nat;
        lemma_vectors_shape(h, lo, m);
        let q = write_xmm(h, lo, m);
        let off = 160 + 16 * (k - 1);
        let v = h.xmm[k - 1];
        let r1 = mem_write(q, at(lo, off), 8, v as u64);
        law_store_keeps(q, at(lo, off), 8, v as u64);
        assert(at(lo, off).wrapping_add(8) == at(lo, off + 8));
        lemma_back(r1, d, lo, n, off + 8, 8, (v >> 64) as u64);
        lemma_back(q, d, lo, n, off, 8, v as u64);
        lemma_xmm_back(h, d, lo, n, m);
    }
}

/// What the numbers lead to, what is before them leads to.
proof fn lemma_numbers_back(
    h: CpuState,
    d: CpuState,
    lo: u64,
    n: int,
    a: FpAskState,
    res: Seq<u64>,
    k: nat,
)
    requires
        runnable(h),
        n >= 512,
        k <= 8,
        leads(write_numbers(h, lo, a, res, k), d, lo, n),
    ensures
        leads(h, d, lo, n),
    decreases k,
{
    if k > 0 {
        let m = (k - 1) as nat;
        lemma_numbers_shape(h, lo, a, res, m);
        let q = write_numbers(h, lo, a, res, m);
        let off = 32 + 16 * (k - 1);
        let x = answer(a, res, 2 * (k - 1));
        let y = answer(a, res, 2 * (k - 1) + 1) & 0xffff;
        let r1 = mem_write(q, at(lo, off), 8, x);
        law_store_keeps(q, at(lo, off), 8, x);
        assert(at(lo, off).wrapping_add(8) == at(lo, off + 8));
        lemma_back(r1, d, lo, n, off + 8, 2, y);
        lemma_back(q, d, lo, n, off, 8, x);
        lemma_numbers_back(h, d, lo, n, a, res, m);
    }
}

// ----- the area read -----

/// A machine that finds the area where it was written.
spec fn reads(q: CpuState, d: CpuState, lo: u64) -> bool {
    &&& runnable(q)
    &&& frames_aligned(q)
    &&& found(q, d, lo, 512)
    &&& in_ram(d, lo, 512)
    &&& q.ram == d.ram
}

/// One load.
proof fn lemma_get(q: CpuState, d: CpuState, lo: u64, off: int, size: u8, v: u64)
    requires
        reads(q, d, lo),
        is_width(size),
        0 <= off,
        off + size <= 512,
        kept(d, lo, off, size as int, v),
    ensures
        ({
            let (r, x) = mem_read(q, at(lo, off), size);
            &&& r == CpuState { tlb: r.tlb, sys: r.sys, ..q }
            &&& reads(r, d, lo)
            &&& x == low_bytes(v, size as nat)
        }),
{
    lemma_load_found(q, d, lo, 512, off, size, v);
}

/// The numbers read.
proof fn lemma_read_numbers(
    q: CpuState,
    d: CpuState,
    lo: u64,
    a: FpAskState,
    res: Seq<u64>,
    k: nat,
)
    requires
        reads(q, d, lo),
        k <= 8,
        forall|i: int| 0 <= i < 8 ==> #[trigger] numbered(d, lo, a, res, i),
    ensures
        ({
            let (r, l) = read_numbers(q, lo, k);
            &&& r == CpuState { tlb: r.tlb, sys: r.sys, ..q }
            &&& reads(r, d, lo)
            &&& l.len() == k
            &&& forall|i: int|
                0 <= i < k ==> #[trigger] l[i] == (
                    answer(a, res, 2 * i),
                    answer(a, res, 2 * i + 1) & 0xffff,
                )
        }),
    decreases k,
{
    if k > 0 {
        lemma_read_numbers(q, d, lo, a, res, (k - 1) as nat);
        let (t, l) = read_numbers(q, lo, (k - 1) as nat);
        let off = 32 + 16 * (k - 1);
        let x = answer(a, res, 2 * (k - 1));
        let y = answer(a, res, 2 * (k - 1) + 1);
        assert(numbered(d, lo, a, res, k - 1));
        lemma_get(t, d, lo, off, 8, x);
        let u = mem_read(t, at(lo, off), 8).0;
        assert(at(lo, off).wrapping_add(8) == at(lo, off + 8));
        lemma_get(u, d, lo, off + 8, 2, y & 0xffff);
        lemma_low_bytes(y & 0xffff, 2);
        lemma_words(y, 0, 0);
    }
}

/// The vector registers read.
proof fn lemma_read_vectors(q: CpuState, d: CpuState, lo: u64, s: CpuState, k: nat)
    requires
        reads(q, d, lo),
        q.xmm.len() == 16,
        k <= 16,
        forall|i: int| 0 <= i < 16 ==> #[trigger] vectored(d, lo, s.xmm[i], i),
    ensures
        ({
            let r = read_xmm(q, lo, k);
            &&& r == CpuState { tlb: r.tlb, sys: r.sys, xmm: r.xmm, ..q }
            &&& reads(r, d, lo)
            &&& r.xmm.len() == 16
            &&& forall|i: int| 0 <= i < k ==> #[trigger] r.xmm[i] == s.xmm[i]
        }),
    decreases k,
{
    if k > 0 {
        lemma_read_vectors(q, d, lo, s, (k - 1) as nat);
        let t = read_xmm(q, lo, (k - 1) as nat);
        let off = 160 + 16 * (k - 1);
        let v = s.xmm[k - 1];
        assert(vectored(d, lo, v, k - 1));
        lemma_get(t, d, lo, off, 8, v as u64);
        let u = mem_read(t, at(lo, off), 8).0;
        assert(at(lo, off).wrapping_add(8) == at(lo, off + 8));
        lemma_get(u, d, lo, off + 8, 8, (v >> 64) as u64);
        let w = mem_read(u, at(lo, off + 8), 8).0;
        lemma_words(0, 0, v);
        let r = read_xmm(q, lo, k);
        lemma_found_apart(w, r, d, lo, 512);
        assert(frames_aligned(r)) by {
            assert(r.tlb == w.tlb);
        }
    }
}

/// A restore from an area in RAM that a save has filled, with or without the extended header, on one
/// page or across two, gives back the vector registers, the control word, the stack top and the
/// status word, and asks for the very numbers that were stored. The machine may hold anything by
/// then, but for the memory of the area, which it finds where the save has put it.
pub proof fn law_save_restore(
    s: CpuState,
    q: CpuState,
    addr: u64,
    header: bool,
    a: FpAskState,
    res: Seq<u64>,
)
    requires
        runnable(s),
        frames_aligned(s),
        steady(s),
        s.xmm.len() == 16,
        in_ram(state_written(s, addr, header, a, res), addr, area_size(header)),
        runnable(q),
        frames_aligned(q),
        q.xmm.len() == 16,
        q.ram == state_written(s, addr, header, a, res).ram,
        found(q, state_written(s, addr, header, a, res), addr, 512),
    ensures
        ({
            let (r, f) = state_read(q, addr);
            &&& r.xmm == s.xmm
            &&& r.fcw == s.fcw
            &&& r.fsw == status_word(s)
            &&& r.ftop == s.ftop % 8
            &&& f matches FlowState::Ask(x) && x.lanes == Seq::new(
                8,
                |i: int| (answer(a, res, 2 * i), answer(a, res, 2 * i + 1) & 0xffff),
            )
        }),
{
    reveal(state_read);
    let d = state_written(s, addr, header, a, res);
    lemma_area(s, addr, header, a, res);
    assert(at(addr, 0) == addr);
    assert(in_ram(d, addr, 512));
    lemma_get(q, d, addr, 0, 2, s.fcw as u64);
    lemma_low_bytes(s.fcw as u64, 2);
    lemma_words(0, s.fcw, 0);
    let (q1, cw) = mem_read(q, addr, 2);
    let q2 = CpuState { fcw: cw as u16, ..q1 };
    lemma_found_apart(q1, q2, d, addr, 512);
    assert(frames_aligned(q2)) by {
        assert(q2.tlb == q1.tlb);
    }
    lemma_get(q2, d, addr, 2, 2, status_word(s) as u64);
    lemma_low_bytes(status_word(s) as u64, 2);
    lemma_words(0, status_word(s), 0);
    lemma_status(s.fsw, (s.ftop % 8) as u16);
    let (q3, sw) = mem_read(q2, addr.wrapping_add(2), 2);
    let v = sw as u16;
    let q4 = CpuState { fsw: v, ftop: ((v / 2048) % 8) as u8, ..q3 };
    lemma_found_apart(q3, q4, d, addr, 512);
    assert(frames_aligned(q4)) by {
        assert(q4.tlb == q3.tlb);
    }
    lemma_read_numbers(q4, d, addr, a, res, 8);
    let (q5, l) = read_numbers(q4, addr, 8);
    lemma_read_vectors(q5, d, addr, s, 16);
    let (r, f) = state_read(q, addr);
    assert(r.xmm =~= s.xmm);
    assert(l =~= Seq::new(
        8,
        |i: int| (answer(a, res, 2 * i), answer(a, res, 2 * i + 1) & 0xffff),
    ));
}

} // verus!
