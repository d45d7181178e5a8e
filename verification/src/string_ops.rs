//! The string instructions, with their repeat prefixes and their bulk forms.
use vstd::prelude::*;
use crate::bits::mask;
use crate::cpu::{Cpu, LAPIC_BASE, LAPIC_END, RAX, RCX, RDI, RSI};
use crate::decode::RepKind;
use crate::flags::{sub_borrow, RFLAGS_DF, ZF};
use crate::operand::Rm;
use crate::virtio::{VIRTIO_BLK_BASE, VIRTIO_INPUT_END};
#[allow(unused_imports)]
use crate::bits::{is_width, mask_of};
#[allow(unused_imports)]
use crate::cpu::CpuState;
#[allow(unused_imports)]
use crate::flags::{flag_set, sub_flags};
#[allow(unused_imports)]
use crate::mmu::{le_read, le_write, mem_read, mem_write, page_walk, touched, translate_access};
#[allow(unused_imports)]
use crate::operand::{store_operand, with_flags, with_reg, with_rip};
#[allow(unused_imports)]
use crate::virtio::in_window;

verus! {

/// The string instructions.
#[derive(Clone, Copy, PartialEq, Eq, Structural, Debug)]
pub enum StringOp {
    Movs,
    Stos,
    Lods,
    Scas,
    /// `CMPS`.
    Compare,
}

/// How far an index register moves: up, or down where the direction flag is set.
pub open spec fn string_step(s: CpuState, size: u8) -> u64 {
    if flag_set(s.rflags, RFLAGS_DF) {
        0u64.wrapping_sub(size as u64)
    } else {
        size as u64
    }
}

/// An index register moved by one element.
pub open spec fn index_moved(s: CpuState, reg: int, size: u8) -> CpuState {
    with_reg(s, reg, s.r[reg].wrapping_add(string_step(s, size)))
}

/// One element of a string instruction.
#[verifier::opaque]
pub open spec fn string_element(s: CpuState, kind: StringOp, size: u8) -> CpuState {
    match kind {
        StringOp::Movs => {
            let (s1, v) = mem_read(s, s.r[6], size);
            let s2 = mem_write(s1, s1.r[7], size, v);
            index_moved(index_moved(s2, 6, size), 7, size)
        },
        StringOp::Stos => {
            let s1 = mem_write(s, s.r[7], size, s.r[0] & mask_of(size));
            index_moved(s1, 7, size)
        },
        StringOp::Lods => {
            let (s1, v) = mem_read(s, s.r[6], size);
            index_moved(store_operand(s1, Rm::Reg(0), size, v), 6, size)
        },
        StringOp::Scas => {
            let (s1, b) = mem_read(s, s.r[7], size);
            let a = s1.r[0] & mask_of(size);
            index_moved(with_flags(s1, sub_flags(s1.rflags, a, b, 0, size)), 7, size)
        },
        StringOp::Compare => {
            let (s1, a) = mem_read(s, s.r[6], size);
            let (s2, b) = mem_read(s1, s1.r[7], size);
            let s3 = with_flags(s2, sub_flags(s2.rflags, a, b, 0, size));
            index_moved(index_moved(s3, 6, size), 7, size)
        },
    }
}

/// A conditional repeat ends on the zero flag.
pub open spec fn repeat_ends(s: CpuState, kind: StringOp, rep: RepKind) -> bool {
    (kind == StringOp::Scas || kind == StringOp::Compare) && ((rep == RepKind::Rep && !flag_set(
        s.rflags,
        ZF,
    )) || (rep == RepKind::Repne && flag_set(s.rflags, ZF)))
}

/// At most `n` elements of a repeat. It ends when the count or the condition says so; a fault ends
/// it too, and leaves the rest for the restart. Where elements are left over, the instruction
/// pointer goes back to the start, so that interrupts are served between one step and the next.
pub open spec fn string_repeated(
    s: CpuState,
    kind: StringOp,
    size: u8,
    rep: RepKind,
    start: u64,
    n: nat,
) -> CpuState
    decreases n,
{
    if s.r[1] == 0 {
        s
    } else if n == 0 {
        with_rip(s, start)
    } else {
        let count = (s.r[1] - 1) as u64;
        let t = string_element(s, kind, size);
        if t.fault is Some {
            t
        } else {
            let u = with_reg(t, 1, count);
            if repeat_ends(u, kind, rep) {
                u
            } else {
                string_repeated(u, kind, size, rep, start, (n - 1) as nat)
            }
        }
    }
}

/// The first address of the page behind the one that holds an address.
pub open spec fn page_behind(v: u64) -> u64 {
    v.wrapping_add((0x1000 - (v & 0xfff)) as u64)
}

/// How many elements from an address lie on its page.
pub open spec fn room_on_page(v: u64, size: u8) -> int {
    (0x1000 - (v & 0xfff)) / size as int
}

/// The stores of a repeat go forward off their page, into one that cannot be written.
pub open spec fn gap_ahead(s: CpuState, kind: StringOp, size: u8) -> bool {
    &&& kind == StringOp::Movs || kind == StringOp::Stos
    &&& !flag_set(s.rflags, RFLAGS_DF)
    &&& 0 < room_on_page(s.r[7], size) < s.r[1]
    &&& page_walk(s, page_behind(s.r[7]), true, s.cpl == 3) is Err
}

/// How many elements a step of a repeat does at most: one. A store that runs into a page which cannot
/// be written meets it in one step, so that the fault gives back the whole repeat.
pub open spec fn elements_due(s: CpuState, kind: StringOp, size: u8) -> nat {
    if gap_ahead(s, kind, size) {
        (room_on_page(s.r[7], size) + 1) as nat
    } else {
        1
    }
}

/// One step of a string instruction. A repeat is done element by element, so that interrupts are
/// served in between however large the count.
pub open spec fn string_stepped(
    s: CpuState,
    kind: StringOp,
    size: u8,
    rep: RepKind,
    start: u64,
) -> CpuState {
    if rep == RepKind::Plain {
        string_element(s, kind, size)
    } else {
        string_repeated(s, kind, size, rep, start, elements_due(s, kind, size))
    }
}

/// `n` elements from `a` lie on one page.
pub open spec fn within_page(a: u64, n: u64, size: u8) -> bool {
    n <= 0x1000 && (a & 0xfff) + n * size <= 0x1000
}

/// `n` elements from `pa` lie in RAM, outside the device windows.
pub open spec fn plain_ram(s: CpuState, pa: u64, n: u64, size: u8) -> bool {
    !in_window(pa) && !(LAPIC_BASE <= pa < LAPIC_END) && pa + n * size <= s.ram.len()
}

/// `n` elements stored from `pa` upward, each accounted in the data cache.
pub open spec fn filled(s: CpuState, pa: u64, n: nat, size: u8, val: u64) -> CpuState
    decreases n,
{
    if n == 0 {
        s
    } else {
        let t = filled(s, pa, (n - 1) as nat, size, val);
        let a = pa + (n - 1) * size;
        let u = touched(t, a as u64);
        CpuState { ram: le_write(u.ram, a, size as nat, val), ..u }
    }
}

/// `n` elements copied from `spa` to `dpa` upward, each accounted in the data cache.
pub open spec fn copied(s: CpuState, spa: u64, dpa: u64, n: nat, size: u8) -> CpuState
    decreases n,
{
    if n == 0 {
        s
    } else {
        let t = copied(s, spa, dpa, (n - 1) as nat, size);
        let a = spa + (n - 1) * size;
        let b = dpa + (n - 1) * size;
        let u = touched(touched(t, a as u64), b as u64);
        CpuState { ram: le_write(u.ram, b, size as nat, le_read(u.ram, a, size as nat)), ..u }
    }
}

/// The conditions of the bulk forms that do not look at memory.
pub open spec fn bulk_wanted(s: CpuState, rep: RepKind) -> bool {
    s.cfg.fastpaths && rep != RepKind::Plain && !flag_set(s.rflags, RFLAGS_DF) && s.r[1] != 0
}

/// A repeated `STOS` whose destination lies on one page of RAM, done at once. The flag says whether
/// it was; the translation has happened either way.
#[verifier::opaque]
pub open spec fn bulk_stos(s: CpuState, size: u8, rep: RepKind) -> (CpuState, bool) {
    let n = s.r[1];
    let dst = s.r[7];
    if !bulk_wanted(s, rep) || !within_page(dst, n, size) {
        (s, false)
    } else {
        let (t, pa) = translate_access(s, dst, true, s.cpl == 3);
        if t.fault is Some || !plain_ram(t, pa, n, size) {
            (t, false)
        } else {
            let u = filled(t, pa, n as nat, size, t.r[0] & mask_of(size));
            (with_reg(with_reg(u, 7, dst.wrapping_add((n * size) as u64)), 1, 0), true)
        }
    }
}

/// A repeated `MOVS` between two places of RAM that do not overlap, each on one page, done at once.
#[verifier::opaque]
pub open spec fn bulk_movs(s: CpuState, size: u8, rep: RepKind) -> (CpuState, bool) {
    let n = s.r[1];
    let src = s.r[6];
    let dst = s.r[7];
    if !bulk_wanted(s, rep) || !within_page(src, n, size) || !within_page(dst, n, size) {
        (s, false)
    } else {
        let (t, spa) = translate_access(s, src, false, s.cpl == 3);
        if t.fault is Some {
            (t, false)
        } else {
            let (u, dpa) = translate_access(t, dst, true, s.cpl == 3);
            if u.fault is Some || !plain_ram(u, spa, n, size) || !plain_ram(u, dpa, n, size) || !(
            dpa + n * size <= spa || spa + n * size <= dpa) {
                (u, false)
            } else {
                let v = copied(u, spa, dpa, n as nat, size);
                let d = (n * size) as u64;
                (
                    with_reg(
                        with_reg(with_reg(v, 6, src.wrapping_add(d)), 7, dst.wrapping_add(d)),
                        1,
                        0,
                    ),
                    true,
                )
            }
        }
    }
}

/// A string instruction: at once where it can be, else one step.
#[verifier::opaque]
pub open spec fn do_string(
    s: CpuState,
    kind: StringOp,
    size: u8,
    rep: RepKind,
    start: u64,
) -> CpuState {
    let (t, done) = match kind {
        StringOp::Stos => bulk_stos(s, size, rep),
        StringOp::Movs => bulk_movs(s, size, rep),
        _ => (s, false),
    };
    if done {
        t
    } else {
        string_stepped(t, kind, size, rep, start)
    }
}

proof fn lemma_span(i: int, n: int, size: int)
    by (nonlinear_arith)
    requires
        0 <= i <= n <= 0x1000,
        1 <= size <= 8,
    ensures
        0 <= i * size <= n * size <= 0x8000,
{
}

impl Cpu {
    fn move_index(&mut self, reg: usize, size: u8)
        requires
            old(self).wf(),
            reg < 16,
        ensures
            final(self).wf(),
            final(self)@ == index_moved(old(self)@, reg as int, size),
    {
        let step: u64 = if self.rflags & RFLAGS_DF != 0 {
            0u64.wrapping_sub(size as u64)
        } else {
            size as u64
        };
        let v: u64 = self.r[reg].wrapping_add(step);
        self.r[reg] = v;
    }

    fn string_one(&mut self, kind: StringOp, size: u8)
        requires
            old(self).wf(),
            is_width(size),
        ensures
            final(self).wf(),
            final(self)@ == string_element(old(self)@, kind, size),
    {
        proof {
            reveal(string_element);
        }
        match kind {
            StringOp::Movs => {
                let src: u64 = self.r[RSI];
                let v: u64 = self.rd(src, size);
                let dst: u64 = self.r[RDI];
                self.wr(dst, size, v);
                self.move_index(RSI, size);
                self.move_index(RDI, size);
            },
            StringOp::Stos => {
                let dst: u64 = self.r[RDI];
                let v: u64 = self.r[RAX] & mask(size);
                self.wr(dst, size, v);
                self.move_index(RDI, size);
            },
            StringOp::Lods => {
                let src: u64 = self.r[RSI];
                let v: u64 = self.rd(src, size);
                self.store_rm(Rm::Reg(RAX), size, v);
                self.move_index(RSI, size);
            },
            StringOp::Scas => {
                let dst: u64 = self.r[RDI];
                let b: u64 = self.rd(dst, size);
                let a: u64 = self.r[RAX] & mask(size);
                let (_r, f) = sub_borrow(self.rflags, a, b, false, size);
                self.rflags = f;
                self.move_index(RDI, size);
            },
            StringOp::Compare => {
                let src: u64 = self.r[RSI];
                let a: u64 = self.rd(src, size);
                let dst: u64 = self.r[RDI];
                let b: u64 = self.rd(dst, size);
                let (_r, f) = sub_borrow(self.rflags, a, b, false, size);
                self.rflags = f;
                self.move_index(RSI, size);
                self.move_index(RDI, size);
            },
        }
    }

    fn in_page(a: u64, n: u64, size: u8) -> (b: bool)
        requires
            is_width(size),
        ensures
            b == within_page(a, n, size),
    {
        if n > 0x1000 {
            return false;
        }
        proof {
            crate::mmu::lemma_set_bounds(a);
            lemma_span(0, n as int, size as int);
        }
        (a & 0xfff) + n * size as u64 <= 0x1000
    }

    fn is_plain(&self, pa: u64, n: u64, size: u8) -> (b: bool)
        requires
            is_width(size),
            n <= 0x1000,
        ensures
            b == plain_ram(self@, pa, n, size),
    {
        proof {
            lemma_span(0, n as int, size as int);
        }
        let len: u64 = n * size as u64;
        let ram: u64 = self.ram.len() as u64;
        !(VIRTIO_BLK_BASE <= pa && pa < VIRTIO_INPUT_END) && !(LAPIC_BASE <= pa && pa < LAPIC_END)
            && len <= ram && pa <= ram - len
    }

    fn fill(&mut self, pa: u64, n: u64, size: u8, val: u64)
        requires
            old(self).wf(),
            is_width(size),
            n <= 0x1000,
            pa + n * size <= old(self)@.ram.len(),
            old(self)@.ram.len() <= u64::MAX,
        ensures
            final(self).wf(),
            final(self)@ == filled(old(self)@, pa, n as nat, size, val),
    {
        let mut i: u64 = 0;
        while i < n
            invariant
                i <= n <= 0x1000,
                is_width(size),
                self.wf(),
                pa + n * size <= u64::MAX,
                self@ == filled(old(self)@, pa, i as nat, size, val),
            decreases n - i,
        {
            proof {
                lemma_span(i as int, n as int, size as int);
            }
            let a: u64 = pa + i * size as u64;
            self.sys.touch(a);
            self.wr_phys(a, size, val);
            i = i + 1;
        }
    }

    fn copy(&mut self, spa: u64, dpa: u64, n: u64, size: u8)
        requires
            old(self).wf(),
            is_width(size),
            n <= 0x1000,
            spa + n * size <= u64::MAX,
            dpa + n * size <= u64::MAX,
        ensures
            final(self).wf(),
            final(self)@ == copied(old(self)@, spa, dpa, n as nat, size),
    {
        let mut i: u64 = 0;
        while i < n
            invariant
                i <= n <= 0x1000,
                is_width(size),
                self.wf(),
                spa + n * size <= u64::MAX,
                dpa + n * size <= u64::MAX,
                self@ == copied(old(self)@, spa, dpa, i as nat, size),
            decreases n - i,
        {
            proof {
                lemma_span(i as int, n as int, size as int);
            }
            let a: u64 = spa + i * size as u64;
            let b: u64 = dpa + i * size as u64;
            self.sys.touch(a);
            self.sys.touch(b);
            let v: u64 = self.rd_phys(a, size);
            self.wr_phys(b, size, v);
            i = i + 1;
        }
    }

    fn try_bulk_stos(&mut self, size: u8, rep: RepKind) -> (done: bool)
        requires
            old(self).wf(),
            is_width(size),
        ensures
            final(self).wf(),
            (final(self)@, done) == bulk_stos(old(self)@, size, rep),
    {
        proof {
            reveal(bulk_stos);
        }
        let n: u64 = self.r[RCX];
        let dst: u64 = self.r[RDI];
        if !self.cfg.fastpaths || rep == RepKind::Plain || self.rflags & RFLAGS_DF != 0 || n == 0
            || !Self::in_page(dst, n, size) {
            return false;
        }
        let user: bool = self.cpl == 3;
        let pa: u64 = self.translate_acc(dst, true, user);
        if self.fault.is_some() || !self.is_plain(pa, n, size) {
            return false;
        }
        let _len: usize = self.ram.len();
        proof {
            lemma_span(0, n as int, size as int);
        }
        let val: u64 = self.r[RAX] & mask(size);
        self.fill(pa, n, size, val);
        self.r[RDI] = dst.wrapping_add(n * size as u64);
        self.r[RCX] = 0;
        true
    }

    fn try_bulk_movs(&mut self, size: u8, rep: RepKind) -> (done: bool)
        requires
            old(self).wf(),
            is_width(size),
        ensures
            final(self).wf(),
            (final(self)@, done) == bulk_movs(old(self)@, size, rep),
    {
        proof {
            reveal(bulk_movs);
        }
        let n: u64 = self.r[RCX];
        let src: u64 = self.r[RSI];
        let dst: u64 = self.r[RDI];
        if !self.cfg.fastpaths || rep == RepKind::Plain || self.rflags & RFLAGS_DF != 0 || n == 0
            || !Self::in_page(src, n, size) || !Self::in_page(dst, n, size) {
            return false;
        }
        let user: bool = self.cpl == 3;
        let spa: u64 = self.translate_acc(src, false, user);
        if self.fault.is_some() {
            return false;
        }
        let dpa: u64 = self.translate_acc(dst, true, user);
        if self.fault.is_some() || !self.is_plain(spa, n, size) || !self.is_plain(dpa, n, size) {
            return false;
        }
        let _len: usize = self.ram.len();
        proof {
            lemma_span(0, n as int, size as int);
        }
        let len: u64 = n * size as u64;
        if !(dpa + len <= spa || spa + len <= dpa) {
            return false;
        }
        self.copy(spa, dpa, n, size);
        self.r[RSI] = src.wrapping_add(len);
        self.r[RDI] = dst.wrapping_add(len);
        self.r[RCX] = 0;
        true
    }

    fn due(&self, kind: StringOp, size: u8) -> (n: u64)
        requires
            is_width(size),
        ensures
            n == elements_due(self@, kind, size),
            n <= 0x1001,
    {
        if !(kind == StringOp::Movs || kind == StringOp::Stos) || self.rflags & RFLAGS_DF != 0 {
            return 1;
        }
        let dst: u64 = self.r[RDI];
        proof {
            crate::mmu::lemma_set_bounds(dst);
        }
        let room: u64 = (0x1000 - (dst & 0xfff)) / size as u64;
        assert(room <= 0x1000) by (nonlinear_arith)
            requires
                room == (0x1000 - (dst & 0xfff)) / size as int,
                size >= 1,
                dst & 0xfff <= 0xfff,
        ;
        if room == 0 || room >= self.r[RCX] {
            return 1;
        }
        match self.walk(dst.wrapping_add(0x1000 - (dst & 0xfff)), true, self.cpl == 3) {
            Err(_) => room + 1,
            Ok(_) => 1,
        }
    }

    fn string_slow(&mut self, kind: StringOp, size: u8, rep: RepKind, start: u64)
        requires
            old(self).wf(),
            is_width(size),
        ensures
            final(self).wf(),
            final(self)@ == string_stepped(old(self)@, kind, size, rep, start),
    {
        if rep == RepKind::Plain {
            self.string_one(kind, size);
            return;
        }
        let n: u64 = self.due(kind, size);
        let mut left: u64 = n;
        while left > 0 && self.r[RCX] != 0
            invariant
                left <= n,
                n == elements_due(old(self)@, kind, size),
                self.wf(),
                is_width(size),
                rep != RepKind::Plain,
                string_repeated(old(self)@, kind, size, rep, start, n as nat) == string_repeated(
                    self@,
                    kind,
                    size,
                    rep,
                    start,
                    left as nat,
                ),
            decreases left,
        {
            let count: u64 = self.r[RCX] - 1;
            self.string_one(kind, size);
            if self.fault.is_some() {
                return;
            }
            self.r[RCX] = count;
            let zf: bool = self.rflags & ZF != 0;
            if (kind == StringOp::Scas || kind == StringOp::Compare) && ((rep == RepKind::Rep
                && !zf) || (rep == RepKind::Repne && zf)) {
                return;
            }
            left = left - 1;
        }
        if self.r[RCX] != 0 {
            self.rip = start;
        }
    }

    /// Execute a string instruction of element size `size`, honouring a repeat prefix and the
    /// direction flag.
    pub fn string_op(&mut self, kind: StringOp, size: u8, rep: RepKind, start: u64)
        requires
            old(self).wf(),
            is_width(size),
        ensures
            final(self).wf(),
            final(self)@ == do_string(old(self)@, kind, size, rep, start),
    {
        proof {
            reveal(do_string);
        }
        let done: bool = match kind {
            StringOp::Stos => self.try_bulk_stos(size, rep),
            StringOp::Movs => self.try_bulk_movs(size, rep),
            _ => false,
        };
        if !done {
            self.string_slow(kind, size, rep, start);
        }
    }
}

} // verus!
