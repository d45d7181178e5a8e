//! The legacy 8259A interrupt controller pair (master and slave).
//!
//! The mask and the request latches are modelled, and the initialisation sequence that remaps the
//! vectors: enough to vector the timer tick, the console and the `virtio` lines through the IDT.
use vstd::prelude::*;
use crate::snap::{put_u16, Snap};
#[allow(unused_imports)]
use crate::snap::{at, dec_u16, enc_u16, lemma_at_split, lemma_dec_u16};

verus! {

/// The 8259A pair.
#[derive(Clone, Copy, PartialEq, Eq, Structural, Debug)]
pub struct Pic {
    /// IRQ mask (1 = masked), master IRQs 0..8 in the low byte, slave 8..16 high.
    pub mask: u16,
    /// Pending (requested) IRQ lines.
    pub request: u16,
    /// The vector offset the master was remapped to (ICW2).
    pub base_master: u8,
    /// The vector offset the slave was remapped to (ICW2).
    pub base_slave: u8,
    /// Initialisation step of the master (0 = idle).
    pub init_master: u8,
    /// Initialisation step of the slave (0 = idle).
    pub init_slave: u8,
}

/// The lowest set bit of `x` at or above `i`, below 16.
pub open spec fn lowest_from(x: u16, i: int) -> Option<u8>
    decreases 16 - i,
{
    if i >= 16 {
        None
    } else if x & (1u16 << i) != 0 {
        Some(i as u8)
    } else {
        lowest_from(x, i + 1)
    }
}

/// A line is requested and not masked.
pub open spec fn line_active(p: Pic, i: int) -> bool {
    0 <= i < 16 && (p.request & !p.mask) & (1u16 << i) != 0
}

/// The vector a line is delivered at.
pub open spec fn line_vector(p: Pic, irq: u8) -> u8 {
    if irq < 8 {
        p.base_master.wrapping_add(irq)
    } else {
        p.base_slave.wrapping_add((irq - 8) as u8)
    }
}

/// The highest-priority active line (the lowest number) with its vector.
pub open spec fn pic_pending(p: Pic) -> Option<(u8, u8)> {
    match lowest_from(p.request & !p.mask, 0) {
        Some(irq) => Some((irq, line_vector(p, irq))),
        None => None,
    }
}

/// Latch line `n` as requested; lines from 16 up do not exist.
pub open spec fn pic_raise(p: Pic, n: u8) -> Pic {
    if n < 16 {
        Pic { request: p.request | (1u16 << n), ..p }
    } else {
        p
    }
}

/// Drop the request of a line.
pub open spec fn pic_ack(p: Pic, n: u8) -> Pic {
    Pic { request: p.request & !(1u16 << n), ..p }
}

/// A write to a command port: bit 4 begins the initialisation of that chip.
pub open spec fn pic_command(p: Pic, slave: bool, val: u8) -> Pic {
    if val & 0x10 != 0 {
        if slave {
            Pic { init_slave: 1, ..p }
        } else {
            Pic { init_master: 1, ..p }
        }
    } else {
        p
    }
}

/// The initialisation step after one more word of the sequence: ICW3, ICW4, done.
pub open spec fn next_init(step: u8) -> u8 {
    if step >= 3 {
        0
    } else {
        (step + 1) as u8
    }
}

/// A write to a data port: the vector base, the rest of the initialisation, or the mask.
pub open spec fn pic_data(p: Pic, slave: bool, val: u8) -> Pic {
    let step = if slave { p.init_slave } else { p.init_master };
    if step == 1 {
        if slave {
            Pic { base_slave: val & 0xf8, init_slave: 2, ..p }
        } else {
            Pic { base_master: val & 0xf8, init_master: 2, ..p }
        }
    } else if step == 2 || step == 3 {
        if slave {
            Pic { init_slave: next_init(step), ..p }
        } else {
            Pic { init_master: next_init(step), ..p }
        }
    } else {
        if slave {
            Pic { mask: (p.mask & 0x00ff) | ((val as u16) << 8), ..p }
        } else {
            Pic { mask: (p.mask & 0xff00) | (val as u16), ..p }
        }
    }
}

/// The bytes of a snapshot.
#[verifier::opaque]
pub open spec fn enc_pic(p: Pic) -> Seq<u8> {
    enc_u16(p.mask) + enc_u16(p.request) + seq![
        p.base_master,
        p.base_slave,
        p.init_master,
        p.init_slave,
    ]
}

/// The value found in snapshot bytes.
#[verifier::opaque]
pub open spec fn dec_pic(b: Seq<u8>, p: int) -> Pic {
    Pic {
        mask: dec_u16(b, p),
        request: dec_u16(b, p + 2),
        base_master: b[p + 4],
        base_slave: b[p + 5],
        init_master: b[p + 6],
        init_slave: b[p + 7],
    }
}

/// Reading back what was written.
pub proof fn lemma_dec_pic(b: Seq<u8>, p: int, x: Pic)
    requires
        at(b, p, enc_pic(x)),
    ensures
        enc_pic(x).len() == 8,
        dec_pic(b, p) == x,
{
    reveal(enc_pic);
    reveal(dec_pic);
    let tail = seq![x.base_master, x.base_slave, x.init_master, x.init_slave];
    lemma_at_split(b, p, enc_u16(x.mask) + enc_u16(x.request), tail);
    lemma_at_split(b, p, enc_u16(x.mask), enc_u16(x.request));
    lemma_dec_u16(b, p, x.mask);
    lemma_dec_u16(b, p + 2, x.request);
    assert(b[p + 4 + 0] == tail[0] && b[p + 4 + 1] == tail[1]);
    assert(b[p + 4 + 2] == tail[2] && b[p + 4 + 3] == tail[3]);
}

impl Pic {
    /// The controller at reset: every line masked.
    pub fn new() -> (p: Pic)
        ensures
            p == (Pic {
                mask: 0xffff,
                request: 0,
                base_master: 0x08,
                base_slave: 0x70,
                init_master: 0,
                init_slave: 0,
            }),
    {
        Pic {
            mask: 0xffff,
            request: 0,
            base_master: 0x08,
            base_slave: 0x70,
            init_master: 0,
            init_slave: 0,
        }
    }

    /// Raise IRQ line `n`: latch it as requested.
    pub fn raise(&mut self, n: u8)
        ensures
            *final(self) == pic_raise(*old(self), n),
    {
        if n < 16 {
            self.request = self.request | (1u16 << n);
        }
    }

    /// The highest-priority unmasked pending IRQ and its vector.
    pub fn pending(&self) -> (r: Option<(u8, u8)>)
        ensures
            r == pic_pending(*self),
    {
        let active: u16 = self.request & !self.mask;
        if active == 0 {
            proof {
                lemma_none_active(0);
            }
            return None;
        }
        let mut i: u8 = 0;
        while i < 16
            invariant
                0 <= i <= 16,
                active == self.request & !self.mask,
                lowest_from(active, 0) == lowest_from(active, i as int),
            decreases 16 - i,
        {
            if active & (1u16 << i) != 0 {
                let vec: u8 = if i < 8 {
                    self.base_master.wrapping_add(i)
                } else {
                    self.base_slave.wrapping_add(i - 8)
                };
                return Some((i, vec));
            }
            i = i + 1;
        }
        None
    }

    /// The request of line `irq` has been taken.
    pub fn ack(&mut self, irq: u8)
        requires
            irq < 16,
        ensures
            *final(self) == pic_ack(*old(self), irq),
    {
        self.request = self.request & !(1u16 << irq);
    }

    /// Program an 8259 command port: ICW1 begins initialisation. An end-of-interrupt command has
    /// nothing left to do: the request is dropped when the interrupt is taken.
    pub fn command(&mut self, slave: bool, val: u8)
        ensures
            *final(self) == pic_command(*old(self), slave, val),
    {
        if val & 0x10 != 0 {
            if slave {
                self.init_slave = 1;
            } else {
                self.init_master = 1;
            }
        }
    }

    /// Program an 8259 data port: ICW2 (vector base), ICW3/ICW4 during initialisation, otherwise the
    /// IRQ mask (OCW1).
    pub fn data(&mut self, slave: bool, val: u8)
        ensures
            *final(self) == pic_data(*old(self), slave, val),
    {
        let step: u8 = if slave { self.init_slave } else { self.init_master };
        if step == 1 {
            if slave {
                self.base_slave = val & 0xf8;
                self.init_slave = 2;
            } else {
                self.base_master = val & 0xf8;
                self.init_master = 2;
            }
        } else if step == 2 || step == 3 {
            let next: u8 = if step >= 3 { 0 } else { step + 1 };
            if slave {
                self.init_slave = next;
            } else {
                self.init_master = next;
            }
        } else {
            if slave {
                self.mask = (self.mask & 0x00ff) | ((val as u16) << 8);
            } else {
                self.mask = (self.mask & 0xff00) | (val as u16);
            }
        }
    }

    pub fn snap(&self, o: &mut Vec<u8>)
        ensures
            final(o)@ == old(o)@ + enc_pic(*self),
    {
        proof {
            reveal(enc_pic);
        }
        put_u16(o, self.mask);
        put_u16(o, self.request);
        o.push(self.base_master);
        o.push(self.base_slave);
        o.push(self.init_master);
        o.push(self.init_slave);
        assert(o@ =~= old(o)@ + enc_pic(*self));
    }

    pub fn unsnap(s: &mut Snap) -> (r: Option<Pic>)
        requires
            old(s).wf(),
        ensures
            final(s).wf(),
            final(s).b@ == old(s).b@,
            match r {
                Some(x) => old(s).has(8) && x == dec_pic(old(s).b@, old(s).p as int)
                    && final(s).moved(old(s), 8),
                None => !old(s).has(8),
            },
    {
        proof {
            reveal(dec_pic);
        }
        let mask: u16 = s.u16()?;
        let request: u16 = s.u16()?;
        let base_master: u8 = s.u8()?;
        let base_slave: u8 = s.u8()?;
        let init_master: u8 = s.u8()?;
        let init_slave: u8 = s.u8()?;
        Some(Pic { mask, request, base_master, base_slave, init_master, init_slave })
    }
}

proof fn lemma_none_active(i: int)
    requires
        0 <= i,
    ensures
        lowest_from(0, i) is None,
    decreases 16 - i,
{
    if i < 16 {
        let k = i as u16;
        lemma_masked(0, 0, k);
        lemma_none_active(i + 1);
    }
}

proof fn lemma_lowest(x: u16, i: int)
    requires
        0 <= i <= 16,
    ensures
        match lowest_from(x, i) {
            Some(n) => i <= n < 16 && x & (1u16 << (n as int)) != 0 && (forall|k: int|
                i <= k < n ==> #[trigger] (x & (1u16 << k)) == 0),
            None => forall|k: int| i <= k < 16 ==> #[trigger] (x & (1u16 << k)) == 0,
        },
    decreases 16 - i,
{
    if i < 16 {
        lemma_lowest(x, i + 1);
    }
}

/// The line delivered is active, and no line with a lower number is: priority goes by number, and
/// nothing is delivered exactly when no line is active.
pub proof fn law_pic_priority(p: Pic)
    ensures
        match pic_pending(p) {
            Some((irq, vec)) => line_active(p, irq as int) && vec == line_vector(p, irq)
                && (forall|k: int| 0 <= k < irq ==> !#[trigger] line_active(p, k)),
            None => forall|k: int| 0 <= k < 16 ==> !#[trigger] line_active(p, k),
        },
{
    lemma_lowest(p.request & !p.mask, 0);
}

proof fn lemma_raise_bits(request: u16, mask: u16, n: u16)
    by (bit_vector)
    requires
        n < 16,
    ensures
        ((request | (1u16 << n)) & !mask) & (1u16 << n) != 0 <==> mask & (1u16 << n) == 0,
        ((request & !(1u16 << n)) & !mask) & (1u16 << n) == 0,
{
}

/// A raised line is active exactly when it is not masked, and acknowledging it makes it inactive.
pub proof fn law_pic_raise_ack(p: Pic, n: u8)
    requires
        n < 16,
    ensures
        line_active(pic_raise(p, n), n as int) <==> p.mask & (1u16 << (n as int)) == 0,
        !line_active(pic_ack(p, n), n as int),
{
    lemma_raise_bits(p.request, p.mask, n as u16);
}

/// Up to `n` rounds of taking the pending line and acknowledging it: the lines in the order they
/// were taken, and the controller left.
pub open spec fn lines_served(p: Pic, n: nat) -> (Seq<u8>, Pic)
    decreases n,
{
    match pic_pending(p) {
        Some((irq, _)) if n > 0 => {
            let (l, q) = lines_served(pic_ack(p, irq), (n - 1) as nat);
            (seq![irq] + l, q)
        },
        _ => (Seq::empty(), p),
    }
}

proof fn lemma_ack_bits(request: u16, mask: u16, n: u16, k: u16)
    by (bit_vector)
    requires
        n < 16,
        k < 16,
        (request & !mask) & (1u16 << n) != 0,
    ensures
        n != k ==> ((request & !(1u16 << n)) & !mask) & (1u16 << k) == (request & !mask) & (1u16 << k),
        (request & !(1u16 << n)) & mask == request & mask,
{
}

proof fn lemma_no_bits(request: u16, mask: u16)
    by (bit_vector)
    requires
        (request & !mask) & (1u16 << 0) == 0,
        (request & !mask) & (1u16 << 1) == 0,
        (request & !mask) & (1u16 << 2) == 0,
        (request & !mask) & (1u16 << 3) == 0,
        (request & !mask) & (1u16 << 4) == 0,
        (request & !mask) & (1u16 << 5) == 0,
        (request & !mask) & (1u16 << 6) == 0,
        (request & !mask) & (1u16 << 7) == 0,
        (request & !mask) & (1u16 << 8) == 0,
        (request & !mask) & (1u16 << 9) == 0,
        (request & !mask) & (1u16 << 10) == 0,
        (request & !mask) & (1u16 << 11) == 0,
        (request & !mask) & (1u16 << 12) == 0,
        (request & !mask) & (1u16 << 13) == 0,
        (request & !mask) & (1u16 << 14) == 0,
        (request & !mask) & (1u16 << 15) == 0,
    ensures
        request == request & mask,
{
}

proof fn lemma_lines_served(p: Pic, n: nat, lo: int)
    requires
        0 <= lo <= 16,
        n >= 16 - lo,
        forall|k: int| 0 <= k < lo ==> !#[trigger] line_active(p, k),
    ensures
        ({
            let (l, q) = lines_served(p, n);
            &&& forall|i: int, j: int| 0 <= i < j < l.len() ==> l[i] < l[j]
            &&& forall|i: int| 0 <= i < l.len() ==> lo <= #[trigger] l[i]
            &&& forall|k: u8| #[trigger] l.contains(k) <==> line_active(p, k as int)
            &&& q == (Pic { request: p.request & p.mask, ..p })
        }),
    decreases 16 - lo,
{
    law_pic_priority(p);
    match pic_pending(p) {
        Some((irq, _)) => {
            let p1 = pic_ack(p, irq);
            assert(irq >= lo);
            assert forall|k: int| 0 <= k < 16 && k != irq implies line_active(p1, k)
                == #[trigger] line_active(p, k) by {
                lemma_ack_bits(p.request, p.mask, irq as u16, k as u16);
            }
            lemma_ack_bits(p.request, p.mask, irq as u16, 0);
            law_pic_raise_ack(p, irq);
            assert forall|k: int| 0 <= k < irq + 1 implies !#[trigger] line_active(p1, k) by {
                if k < irq {
                    assert(!line_active(p, k));
                }
            }
            lemma_lines_served(p1, (n - 1) as nat, irq + 1);
            let (l1, q) = lines_served(p1, (n - 1) as nat);
            let l = seq![irq] + l1;
            assert(lines_served(p, n) == (l, q));
            assert forall|k: u8| #[trigger] l.contains(k) <==> line_active(p, k as int) by {
                if l.contains(k) {
                    let i = choose|i: int| 0 <= i < l.len() && l[i] == k;
                    if i > 0 {
                        assert(l1[i - 1] == k);
                        assert(l1.contains(k));
                        assert(line_active(p1, k as int));
                        assert(k != irq);
                        assert(line_active(p, k as int));
                    }
                }
                if line_active(p, k as int) {
                    if k == irq {
                        assert(l[0] == k);
                    } else {
                        assert(line_active(p1, k as int));
                        assert(l1.contains(k));
                        let i = choose|i: int| 0 <= i < l1.len() && l1[i] == k;
                        assert(l[i + 1] == k);
                    }
                }
            }
        },
        None => {
            assert(!line_active(p, 0) && !line_active(p, 1) && !line_active(p, 2) && !line_active(p, 3));
            assert(!line_active(p, 4) && !line_active(p, 5) && !line_active(p, 6) && !line_active(p, 7));
            assert(!line_active(p, 8) && !line_active(p, 9) && !line_active(p, 10));
            assert(!line_active(p, 11) && !line_active(p, 12) && !line_active(p, 13));
            assert(!line_active(p, 14) && !line_active(p, 15));
            lemma_no_bits(p.request, p.mask);
        },
    }
}

/// Taking the pending line and acknowledging it, over and over, hands out the lines that were active,
/// each once and in ascending order. What is masked stays requested.
pub proof fn law_pic_drained(p: Pic)
    ensures
        ({
            let (l, q) = lines_served(p, 16);
            &&& forall|i: int, j: int| 0 <= i < j < l.len() ==> l[i] < l[j]
            &&& forall|k: u8| #[trigger] l.contains(k) <==> line_active(p, k as int)
            &&& q == (Pic { request: p.request & p.mask, ..p })
            &&& pic_pending(q) is None
        }),
{
    lemma_lines_served(p, 16, 0);
    let q = lines_served(p, 16).1;
    law_pic_priority(q);
    if let Some((irq, _)) = pic_pending(q) {
        lemma_masked(p.request, p.mask, irq as u16);
    }
}

proof fn lemma_masked(request: u16, mask: u16, n: u16)
    by (bit_vector)
    ensures
        ((request & mask) & !mask) & (1u16 << n) == 0,
        0u16 & (1u16 << n) == 0,
{
}

} // verus!
