//! The local APIC of a uniprocessor: the timer, the request and in-service registers, and the
//! registers a boot drives.
use vstd::prelude::*;
use crate::snap::{put_u32, put_u64, Snap};
#[allow(unused_imports)]
use crate::snap::{
    at, dec_u32, dec_u64, enc_u32, enc_u64, lemma_at_split, lemma_cat, lemma_dec_u32, lemma_dec_u64,
};

verus! {

/// The local APIC (memory-mapped at the default `0xFEE0_0000`).
pub struct Lapic {
    /// Spurious-interrupt vector register; bit 8 is the software enable.
    pub svr: u32,
    /// LVT timer entry: the vector (low 8 bits), mask (bit 16), mode (bit 17 = periodic).
    pub lvt_timer: u32,
    pub initial_count: u32,
    pub current_count: u32,
    pub divide: u32,
    /// The task-priority register: interrupts at or below its class are deferred.
    pub tpr: u32,
    /// Interrupt Request Register: the 256-bit bitmap of pending vectors.
    pub irr: [u64; 4],
    /// In-Service Register: the vectors being handled, cleared on `EOI`.
    pub isr: [u64; 4],
}

/// The contents of a [`Lapic`].
#[verifier::ext_equal]
pub ghost struct LapicState {
    pub svr: u32,
    pub lvt_timer: u32,
    pub initial_count: u32,
    pub current_count: u32,
    pub divide: u32,
    pub tpr: u32,
    pub irr: Seq<u64>,
    pub isr: Seq<u64>,
}

impl View for Lapic {
    type V = LapicState;

    open spec fn view(&self) -> LapicState {
        LapicState {
            svr: self.svr,
            lvt_timer: self.lvt_timer,
            initial_count: self.initial_count,
            current_count: self.current_count,
            divide: self.divide,
            tpr: self.tpr,
            irr: self.irr@,
            isr: self.isr@,
        }
    }
}

/// Both registers have their 256 bits.
pub open spec fn lapic_sized(l: LapicState) -> bool {
    l.irr.len() == 4 && l.isr.len() == 4
}

/// Bit `v` of a 256-bit register.
pub open spec fn vec_bit(reg: Seq<u64>, v: int) -> bool {
    reg[v / 64] & (1u64 << (v % 64)) != 0
}

/// The highest set bit at or below `v`.
pub open spec fn highest_from(reg: Seq<u64>, v: int) -> Option<u8>
    decreases v + 1,
{
    if v < 0 {
        None
    } else if vec_bit(reg, v) {
        Some(v as u8)
    } else {
        highest_from(reg, v - 1)
    }
}

/// The highest set vector of a 256-bit register.
pub open spec fn highest_bit(reg: Seq<u64>) -> Option<u8> {
    highest_from(reg, 255)
}

/// A register with bit `v` set.
pub open spec fn set_vec(reg: Seq<u64>, v: u8) -> Seq<u64> {
    reg.update((v >> 6) as int, reg[(v >> 6) as int] | (1u64 << (v & 63)))
}

/// A register with bit `v` cleared.
pub open spec fn clear_vec(reg: Seq<u64>, v: u8) -> Seq<u64> {
    reg.update((v >> 6) as int, reg[(v >> 6) as int] & !(1u64 << (v & 63)))
}

/// The software enable.
pub open spec fn lapic_enabled(l: LapicState) -> bool {
    l.svr & 0x100 != 0
}

/// Make a vector pending.
pub open spec fn lapic_set_irr(l: LapicState, v: u8) -> LapicState {
    LapicState { irr: set_vec(l.irr, v), ..l }
}

/// The priority class of the highest vector in service.
pub open spec fn service_class(l: LapicState) -> u8 {
    match highest_bit(l.isr) {
        Some(i) => i >> 4,
        None => 0,
    }
}

/// The highest pending vector, if its class exceeds the task priority and what is in service.
pub open spec fn lapic_deliverable(l: LapicState) -> Option<u8> {
    match highest_bit(l.irr) {
        Some(v) => if v >> 4 > service_class(l) && (v >> 4) as u32 > l.tpr >> 4 {
            Some(v)
        } else {
            None
        },
        None => None,
    }
}

/// Move a delivered vector from pending to in-service.
pub open spec fn lapic_take(l: LapicState, v: u8) -> LapicState {
    LapicState { irr: clear_vec(l.irr, v), isr: set_vec(l.isr, v), ..l }
}

/// End of interrupt: clear the highest in-service vector.
pub open spec fn lapic_eoi(l: LapicState) -> LapicState {
    match highest_bit(l.isr) {
        Some(v) => LapicState { isr: clear_vec(l.isr, v), ..l },
        None => l,
    }
}

/// The timer is counting.
pub open spec fn timer_running(l: LapicState) -> bool {
    lapic_enabled(l) && l.initial_count != 0 && l.lvt_timer & 0x1_0000 == 0
}

/// One count of the timer: at zero the vector becomes pending and a periodic timer reloads.
pub open spec fn lapic_tick(l: LapicState) -> LapicState {
    if !timer_running(l) {
        l
    } else {
        let from = if l.current_count == 0 { l.initial_count } else { l.current_count };
        let left = (from - 1) as u32;
        if left == 0 {
            lapic_set_irr(
                LapicState {
                    current_count: if l.lvt_timer & 0x2_0000 != 0 { l.initial_count } else { 0 },
                    ..l
                },
                (l.lvt_timer & 0xff) as u8,
            )
        } else {
            LapicState { current_count: left, ..l }
        }
    }
}

/// The APIC timer after `n` counts at once, of the `left` until it fires.
pub open spec fn apic_jump(l: LapicState, left: u64, n: u64) -> LapicState {
    if left == n {
        lapic_set_irr(
            LapicState {
                current_count: if l.lvt_timer & 0x2_0000 != 0 { l.initial_count } else { 0 },
                ..l
            },
            (l.lvt_timer & 0xff) as u8,
        )
    } else {
        LapicState { current_count: (left - n) as u32, ..l }
    }
}

/// A register read.
pub open spec fn lapic_reg(l: LapicState, off: u32) -> u32 {
    if off == 0x030 {
        0x0005_0014
    } else if off == 0x080 {
        l.tpr
    } else if off == 0x0f0 {
        l.svr
    } else if off == 0x320 {
        l.lvt_timer
    } else if off == 0x380 {
        l.initial_count
    } else if off == 0x390 {
        l.current_count
    } else if off == 0x3e0 {
        l.divide
    } else if 0x100 <= off <= 0x170 && off & 0xf == 0 {
        let k = (off - 0x100) / 0x10;
        (l.isr[k / 2] >> ((32 * (k % 2)) as u32)) as u32
    } else if 0x200 <= off <= 0x270 && off & 0xf == 0 {
        let k = (off - 0x200) / 0x10;
        (l.irr[k / 2] >> ((32 * (k % 2)) as u32)) as u32
    } else {
        0
    }
}

/// A register write. Offset `0x300` sends an interrupt: a fixed one that does not leave out the
/// sender is delivered here, there being no other processor.
pub open spec fn lapic_store(l: LapicState, off: u32, val: u32) -> LapicState {
    if off == 0x080 {
        LapicState { tpr: val, ..l }
    } else if off == 0x0b0 {
        lapic_eoi(l)
    } else if off == 0x0f0 {
        LapicState { svr: val, ..l }
    } else if off == 0x320 {
        LapicState { lvt_timer: val, ..l }
    } else if off == 0x380 {
        LapicState { initial_count: val, current_count: val, ..l }
    } else if off == 0x3e0 {
        LapicState { divide: val, ..l }
    } else if off == 0x300 && (val >> 8) & 7 == 0 && (val >> 18) & 3 != 3 {
        lapic_set_irr(l, (val & 0xff) as u8)
    } else {
        l
    }
}

/// The bytes of a snapshot.
#[verifier::opaque]
pub open spec fn enc_lapic(l: LapicState) -> Seq<u8> {
    enc_u32(l.svr) + (enc_u32(l.lvt_timer) + (enc_u32(l.initial_count) + (enc_u32(l.current_count)
        + (enc_u32(l.divide) + (enc_u32(l.tpr) + (enc_u64(l.irr[0]) + (enc_u64(l.irr[1]) + (enc_u64(
        l.irr[2],
    ) + (enc_u64(l.irr[3]) + (enc_u64(l.isr[0]) + (enc_u64(l.isr[1]) + (enc_u64(l.isr[2])
        + enc_u64(l.isr[3])))))))))))))
}

/// The value found in snapshot bytes.
#[verifier::opaque]
pub open spec fn dec_lapic(b: Seq<u8>, p: int) -> LapicState {
    LapicState {
        svr: dec_u32(b, p),
        lvt_timer: dec_u32(b, p + 4),
        initial_count: dec_u32(b, p + 8),
        current_count: dec_u32(b, p + 12),
        divide: dec_u32(b, p + 16),
        tpr: dec_u32(b, p + 20),
        irr: seq![dec_u64(b, p + 24), dec_u64(b, p + 32), dec_u64(b, p + 40), dec_u64(b, p + 48)],
        isr: seq![dec_u64(b, p + 56), dec_u64(b, p + 64), dec_u64(b, p + 72), dec_u64(b, p + 80)],
    }
}

/// Reading back what was written.
pub proof fn lemma_dec_lapic(b: Seq<u8>, p: int, l: LapicState)
    requires
        lapic_sized(l),
        at(b, p, enc_lapic(l)),
    ensures
        enc_lapic(l).len() == 88,
        dec_lapic(b, p) == l,
{
    reveal(enc_lapic);
    reveal(dec_lapic);
    let e13 = enc_u64(l.isr[2]) + enc_u64(l.isr[3]);
    let e12 = enc_u64(l.isr[1]) + e13;
    let e11 = enc_u64(l.isr[0]) + e12;
    let e10 = enc_u64(l.irr[3]) + e11;
    let e9 = enc_u64(l.irr[2]) + e10;
    let e8 = enc_u64(l.irr[1]) + e9;
    let e7 = enc_u64(l.irr[0]) + e8;
    let e6 = enc_u32(l.tpr) + e7;
    let e5 = enc_u32(l.divide) + e6;
    let e4 = enc_u32(l.current_count) + e5;
    let e3 = enc_u32(l.initial_count) + e4;
    let e2 = enc_u32(l.lvt_timer) + e3;
    lemma_at_split(b, p, enc_u32(l.svr), e2);
    lemma_at_split(b, p + 4, enc_u32(l.lvt_timer), e3);
    lemma_at_split(b, p + 8, enc_u32(l.initial_count), e4);
    lemma_at_split(b, p + 12, enc_u32(l.current_count), e5);
    lemma_at_split(b, p + 16, enc_u32(l.divide), e6);
    lemma_at_split(b, p + 20, enc_u32(l.tpr), e7);
    lemma_at_split(b, p + 24, enc_u64(l.irr[0]), e8);
    lemma_at_split(b, p + 32, enc_u64(l.irr[1]), e9);
    lemma_at_split(b, p + 40, enc_u64(l.irr[2]), e10);
    lemma_at_split(b, p + 48, enc_u64(l.irr[3]), e11);
    lemma_at_split(b, p + 56, enc_u64(l.isr[0]), e12);
    lemma_at_split(b, p + 64, enc_u64(l.isr[1]), e13);
    lemma_at_split(b, p + 72, enc_u64(l.isr[2]), enc_u64(l.isr[3]));
    lemma_dec_u32(b, p, l.svr);
    lemma_dec_u32(b, p + 4, l.lvt_timer);
    lemma_dec_u32(b, p + 8, l.initial_count);
    lemma_dec_u32(b, p + 12, l.current_count);
    lemma_dec_u32(b, p + 16, l.divide);
    lemma_dec_u32(b, p + 20, l.tpr);
    lemma_dec_u64(b, p + 24, l.irr[0]);
    lemma_dec_u64(b, p + 32, l.irr[1]);
    lemma_dec_u64(b, p + 40, l.irr[2]);
    lemma_dec_u64(b, p + 48, l.irr[3]);
    lemma_dec_u64(b, p + 56, l.isr[0]);
    lemma_dec_u64(b, p + 64, l.isr[1]);
    lemma_dec_u64(b, p + 72, l.isr[2]);
    lemma_dec_u64(b, p + 80, l.isr[3]);
    assert(dec_lapic(b, p).irr =~= l.irr);
    assert(dec_lapic(b, p).isr =~= l.isr);
}

proof fn lemma_vec_index(v: u8)
    by (bit_vector)
    ensures
        v >> 6 == v / 64,
        v & 63 == v % 64,
        v >> 6 < 4,
        v & 63 < 64,
        v >> 4 == v / 16,
{
}

proof fn lemma_highest_skip(reg: Seq<u64>, w: int, v: int)
    requires
        reg.len() == 4,
        0 <= w < 4,
        reg[w] == 0,
        64 * w - 1 <= v < 64 * w + 64,
    ensures
        highest_from(reg, v) == highest_from(reg, 64 * w - 1),
    decreases v + 1,
{
    if v >= 64 * w {
        let k = (v % 64) as u64;
        assert(v / 64 == w);
        lemma_bits(0, k, if k == 0 { 1 } else { 0 });
        lemma_highest_skip(reg, w, v - 1);
    }
}

proof fn lemma_highest(reg: Seq<u64>, v: int)
    requires
        v <= 255,
    ensures
        match highest_from(reg, v) {
            Some(n) => 0 <= n <= v && vec_bit(reg, n as int) && (forall|k: int|
                n < k <= v ==> !#[trigger] vec_bit(reg, k)),
            None => forall|k: int| 0 <= k <= v ==> !#[trigger] vec_bit(reg, k),
        },
    decreases v + 1,
{
    if v >= 0 {
        lemma_highest(reg, v - 1);
    }
}

impl Lapic {
    /// The APIC at reset: disabled, the timer masked.
    pub fn new() -> (l: Lapic)
        ensures
            l@ == (LapicState {
                svr: 0xff,
                lvt_timer: 0x1_0000,
                initial_count: 0,
                current_count: 0,
                divide: 1,
                tpr: 0,
                irr: seq![0, 0, 0, 0],
                isr: seq![0, 0, 0, 0],
            }),
    {
        Lapic {
            svr: 0xff,
            lvt_timer: 0x1_0000,
            initial_count: 0,
            current_count: 0,
            divide: 1,
            tpr: 0,
            irr: [0, 0, 0, 0],
            isr: [0, 0, 0, 0],
        }
    }

    pub fn enabled(&self) -> (b: bool)
        ensures
            b == lapic_enabled(self@),
    {
        self.svr & 0x100 != 0
    }

    /// Set an Interrupt Request Register bit (a pending vector).
    pub fn set_irr(&mut self, vec: u8)
        ensures
            final(self)@ == lapic_set_irr(old(self)@, vec),
    {
        proof {
            lemma_vec_index(vec);
        }
        let w: usize = (vec >> 6) as usize;
        let v: u64 = self.irr[w] | (1u64 << (vec & 63));
        self.irr[w] = v;
    }

    /// The highest set vector in a 256-bit register.
    pub fn highest(reg: &[u64; 4]) -> (r: Option<u8>)
        ensures
            r == highest_bit(reg@),
    {
        let mut w: usize = 4;
        while w > 0
            invariant
                w <= 4,
                highest_bit(reg@) == highest_from(reg@, 64 * w - 1),
            decreases w,
        {
            let word: u64 = reg[w - 1];
            if word != 0 {
                let mut k: u8 = 64;
                while k > 0
                    invariant
                        k <= 64,
                        1 <= w <= 4,
                        word == reg@[w - 1],
                        highest_bit(reg@) == highest_from(reg@, 64 * (w - 1) + k - 1),
                    decreases k,
                {
                    let v: u8 = (w - 1) as u8 * 64 + (k - 1);
                    assert((v as int) / 64 == w - 1 && (v as int) % 64 == k - 1);
                    if word & (1u64 << (k - 1)) != 0 {
                        return Some(v);
                    }
                    k = k - 1;
                }
            } else {
                proof {
                    lemma_highest_skip(reg@, w - 1, 64 * w - 1);
                }
            }
            w = w - 1;
        }
        None
    }

    /// The highest pending vector deliverable now: its priority class (`vec >> 4`) must exceed both
    /// the TPR class and any in-service vector's class.
    pub fn deliverable(&self) -> (r: Option<u8>)
        ensures
            r == lapic_deliverable(self@),
    {
        let v: u8 = match Self::highest(&self.irr) {
            Some(v) => v,
            None => {
                return None;
            },
        };
        let class: u8 = match Self::highest(&self.isr) {
            Some(i) => i >> 4,
            None => 0,
        };
        if v >> 4 > class && (v >> 4) as u32 > self.tpr >> 4 {
            Some(v)
        } else {
            None
        }
    }

    /// Move a delivered vector from the request to the in-service register.
    pub fn take(&mut self, vec: u8)
        ensures
            final(self)@ == lapic_take(old(self)@, vec),
    {
        proof {
            lemma_vec_index(vec);
        }
        let w: usize = (vec >> 6) as usize;
        let p: u64 = self.irr[w] & !(1u64 << (vec & 63));
        self.irr[w] = p;
        let q: u64 = self.isr[w] | (1u64 << (vec & 63));
        self.isr[w] = q;
    }

    /// End of interrupt: clear the highest in-service vector.
    pub fn eoi(&mut self)
        ensures
            final(self)@ == lapic_eoi(old(self)@),
    {
        if let Some(v) = Self::highest(&self.isr) {
            proof {
                lemma_vec_index(v);
            }
            let w: usize = (v >> 6) as usize;
            let q: u64 = self.isr[w] & !(1u64 << (v & 63));
            self.isr[w] = q;
        }
    }

    /// One count of the timer.
    pub fn tick(&mut self)
        ensures
            final(self)@ == lapic_tick(old(self)@),
    {
        if self.enabled() && self.initial_count != 0 && self.lvt_timer & 0x1_0000 == 0 {
            if self.current_count == 0 {
                self.current_count = self.initial_count;
            }
            self.current_count = self.current_count - 1;
            if self.current_count == 0 {
                if self.lvt_timer & 0x2_0000 != 0 {
                    self.current_count = self.initial_count;
                }
                self.set_irr((self.lvt_timer & 0xff) as u8);
            }
        }
    }

    /// `n` counts of the timer at once, of the `left` until it fires.
    pub fn jump(&mut self, left: u64, n: u64)
        requires
            n <= left <= u32::MAX,
        ensures
            final(self)@ == apic_jump(old(self)@, left, n),
    {
        if left == n {
            self.current_count = if self.lvt_timer & 0x2_0000 != 0 { self.initial_count } else { 0 };
            self.set_irr((self.lvt_timer & 0xff) as u8);
        } else {
            self.current_count = (left - n) as u32;
        }
    }

    /// Read the register at byte offset `off`. Only the registers a uniprocessor boot reads are
    /// modelled; the others read zero.
    pub fn read(&self, off: u32) -> (v: u32)
        ensures
            v == lapic_reg(self@, off),
    {
        if off == 0x030 {
            0x0005_0014
        } else if off == 0x080 {
            self.tpr
        } else if off == 0x0f0 {
            self.svr
        } else if off == 0x320 {
            self.lvt_timer
        } else if off == 0x380 {
            self.initial_count
        } else if off == 0x390 {
            self.current_count
        } else if off == 0x3e0 {
            self.divide
        } else if 0x100 <= off && off <= 0x170 && off & 0xf == 0 {
            let k: u32 = (off - 0x100) / 0x10;
            (self.isr[(k / 2) as usize] >> (32 * (k % 2))) as u32
        } else if 0x200 <= off && off <= 0x270 && off & 0xf == 0 {
            let k: u32 = (off - 0x200) / 0x10;
            (self.irr[(k / 2) as usize] >> (32 * (k % 2))) as u32
        } else {
            0
        }
    }

    /// Write the register at byte offset `off`.
    pub fn write(&mut self, off: u32, val: u32)
        ensures
            final(self)@ == lapic_store(old(self)@, off, val),
    {
        if off == 0x080 {
            self.tpr = val;
        } else if off == 0x0b0 {
            self.eoi();
        } else if off == 0x0f0 {
            self.svr = val;
        } else if off == 0x320 {
            self.lvt_timer = val;
        } else if off == 0x380 {
            self.initial_count = val;
            self.current_count = val;
        } else if off == 0x3e0 {
            self.divide = val;
        } else if off == 0x300 && (val >> 8) & 7 == 0 && (val >> 18) & 3 != 3 {
            self.set_irr((val & 0xff) as u8);
        }
    }

    pub fn snap(&self, o: &mut Vec<u8>)
        ensures
            final(o)@ == old(o)@ + enc_lapic(self@),
    {
        proof {
            reveal(enc_lapic);
        }
        broadcast use lemma_cat;

        put_u32(o, self.svr);
        put_u32(o, self.lvt_timer);
        put_u32(o, self.initial_count);
        put_u32(o, self.current_count);
        put_u32(o, self.divide);
        put_u32(o, self.tpr);
        put_u64(o, self.irr[0]);
        put_u64(o, self.irr[1]);
        put_u64(o, self.irr[2]);
        put_u64(o, self.irr[3]);
        put_u64(o, self.isr[0]);
        put_u64(o, self.isr[1]);
        put_u64(o, self.isr[2]);
        put_u64(o, self.isr[3]);
    }

    pub fn unsnap(s: &mut Snap) -> (r: Option<Lapic>)
        requires
            old(s).wf(),
        ensures
            final(s).wf(),
            final(s).b@ == old(s).b@,
            match r {
                Some(x) => old(s).has(88) && x@ == dec_lapic(old(s).b@, old(s).p as int)
                    && final(s).moved(old(s), 88),
                None => !old(s).has(88),
            },
    {
        proof {
            reveal(dec_lapic);
        }
        let svr: u32 = s.u32()?;
        let lvt_timer: u32 = s.u32()?;
        let initial_count: u32 = s.u32()?;
        let current_count: u32 = s.u32()?;
        let divide: u32 = s.u32()?;
        let tpr: u32 = s.u32()?;
        let i0: u64 = s.u64()?;
        let i1: u64 = s.u64()?;
        let i2: u64 = s.u64()?;
        let i3: u64 = s.u64()?;
        let s0: u64 = s.u64()?;
        let s1: u64 = s.u64()?;
        let s2: u64 = s.u64()?;
        let s3: u64 = s.u64()?;
        Some(
            Lapic {
                svr,
                lvt_timer,
                initial_count,
                current_count,
                divide,
                tpr,
                irr: [i0, i1, i2, i3],
                isr: [s0, s1, s2, s3],
            },
        )
    }
}

pub proof fn lemma_bits(w: u64, k: u64, j: u64)
    by (bit_vector)
    requires
        k < 64,
        j < 64,
        k != j,
    ensures
        (w | (1u64 << k)) & (1u64 << k) != 0,
        (w & !(1u64 << k)) & (1u64 << k) == 0,
        (w | (1u64 << k)) & (1u64 << j) == w & (1u64 << j),
        (w & !(1u64 << k)) & (1u64 << j) == w & (1u64 << j),
        0u64 & (1u64 << k) == 0,
{
}

proof fn lemma_vec_update(reg: Seq<u64>, v: u8, k: int)
    requires
        reg.len() == 4,
        0 <= k < 256,
    ensures
        vec_bit(set_vec(reg, v), k) == (k == v || vec_bit(reg, k)),
        vec_bit(clear_vec(reg, v), k) == (k != v && vec_bit(reg, k)),
{
    lemma_vec_index(v);
    let w = (v >> 6) as int;
    let j = k % 64;
    let i = (v & 63) as int;
    if k / 64 == w {
        if j == i {
            let o: u64 = if i == 0 { 1 } else { 0 };
            lemma_bits(reg[w], i as u64, o);
        } else {
            lemma_bits(reg[w], i as u64, j as u64);
        }
    }
}

/// A deliverable vector is pending, no higher vector is, and its priority class is above the task
/// priority and above every vector in service.
pub proof fn law_lapic_priority(l: LapicState)
    requires
        lapic_sized(l),
    ensures
        match lapic_deliverable(l) {
            Some(v) => vec_bit(l.irr, v as int) && (v >> 4) as u32 > l.tpr >> 4 && (forall|k: int|
                v < k < 256 ==> !#[trigger] vec_bit(l.irr, k)) && (forall|k: int|
                0 <= k < 256 && #[trigger] vec_bit(l.isr, k) ==> k / 16 < v / 16),
            None => true,
        },
{
    lemma_highest(l.irr, 255);
    lemma_highest(l.isr, 255);
    if let Some(v) = lapic_deliverable(l) {
        lemma_vec_index(v);
        if let Some(i) = highest_bit(l.isr) {
            lemma_vec_index(i);
        }
    }
}

/// Taking a deliverable vector moves it from pending to in-service, and an `EOI` right after undoes
/// the in-service bit: it ends this interrupt, not one that it interrupted.
pub proof fn law_lapic_take_eoi(l: LapicState, v: u8)
    requires
        lapic_sized(l),
        lapic_deliverable(l) == Some(v),
    ensures
        !vec_bit(lapic_take(l, v).irr, v as int),
        vec_bit(lapic_take(l, v).isr, v as int),
        lapic_deliverable(lapic_take(l, v)) != Some(v),
        forall|k: int|
            0 <= k < 256 ==> #[trigger] vec_bit(lapic_eoi(lapic_take(l, v)).isr, k) == vec_bit(
                l.isr,
                k,
            ),
{
    law_lapic_priority(l);
    let t = lapic_take(l, v);
    lemma_vec_update(l.irr, v, v as int);
    lemma_vec_update(l.isr, v, v as int);
    lemma_highest(t.isr, 255);
    lemma_highest(t.irr, 255);
    assert forall|k: int| v < k < 256 implies !#[trigger] vec_bit(t.isr, k) by {
        lemma_vec_update(l.isr, v, k);
    }
    assert(highest_bit(t.isr) == Some(v));
    lemma_vec_index(v);
    assert(t.isr.len() == 4);
    assert forall|k: int| 0 <= k < 256 implies #[trigger] vec_bit(lapic_eoi(t).isr, k) == vec_bit(
        l.isr,
        k,
    ) by {
        lemma_vec_update(l.isr, v, k);
        lemma_vec_update(t.isr, v, k);
        if k == v {
            assert(!vec_bit(l.isr, k));
        }
    }
}

/// The count the timer goes on from.
pub open spec fn timer_start(l: LapicState) -> u32 {
    if l.current_count == 0 {
        l.initial_count
    } else {
        l.current_count
    }
}

/// The controller after `n` counts of its timer.
pub open spec fn lapic_after(l: LapicState, n: nat) -> LapicState
    decreases n,
{
    if n == 0 {
        l
    } else {
        lapic_tick(lapic_after(l, (n - 1) as nat))
    }
}

/// A running timer makes its vector pending when its count is done, and nothing before. A periodic
/// one then has its initial count again.
pub proof fn law_apic_timer(l: LapicState, n: nat)
    requires
        timer_running(l),
        n <= timer_start(l),
    ensures
        0 < n < timer_start(l) ==> lapic_after(l, n) == (LapicState {
            current_count: (timer_start(l) - n) as u32,
            ..l
        }),
        n == timer_start(l) ==> lapic_after(l, n) == lapic_set_irr(
            LapicState {
                current_count: if l.lvt_timer & 0x2_0000 != 0 { l.initial_count } else { 0 },
                ..l
            },
            (l.lvt_timer & 0xff) as u8,
        ),
    decreases n,
{
    if n > 0 {
        let m = (n - 1) as nat;
        law_apic_timer(l, m);
        let q = lapic_after(l, m);
        assert(q == l || m > 0);
        assert(lapic_after(l, n) == lapic_tick(q));
        assert(timer_running(q));
        assert(timer_start(q) == timer_start(l) - m);
    }
}

} // verus!
