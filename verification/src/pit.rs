//! The 8254 interval timer: channel 0 (the tick) and channel 2 (the calibration one-shot).
use vstd::prelude::*;
use crate::snap::{put_flag, put_u16, put_u32, Snap};
#[allow(unused_imports)]
use crate::snap::{
    at, dec_u16, dec_u32, enc_flag, enc_u16, enc_u32, lemma_at_split, lemma_cat, lemma_dec_u16,
    lemma_dec_u32,
};
#[allow(unused_imports)]
use crate::uart::lemma_halves;

verus! {

/// The 8254 timer.
#[derive(Clone, Copy, PartialEq, Eq, Structural, Debug)]
pub struct Pit {
    /// Channel 0 reload value.
    pub reload: u16,
    /// Channel 0 down-counter.
    pub counter: u32,
    /// The next channel 0 write is the high byte.
    pub write_hi: bool,
    /// Channel 0 is counting.
    pub enabled: bool,
    /// Channel 0 reloads by itself (`false`: it fires once and idles).
    pub ch0_periodic: bool,
    /// Channel 2 reload value.
    pub ch2_reload: u16,
    /// Channel 2 down-counter.
    pub ch2_counter: u32,
    /// The next channel 2 access is the high byte.
    pub ch2_write_hi: bool,
    /// Channel 2 gate (port `0x61` bit 0).
    pub ch2_gate: bool,
    /// Channel 2 has expired (port `0x61` bit 5).
    pub ch2_out: bool,
}

/// One count of channel 2: it runs while gated and expires once.
pub open spec fn ch2_tick(p: Pit) -> Pit {
    if p.ch2_gate && !p.ch2_out && p.ch2_counter > 0 {
        Pit { ch2_counter: (p.ch2_counter - 1) as u32, ch2_out: p.ch2_counter == 1, ..p }
    } else {
        p
    }
}

/// The value channel 0 counts down from: an idle counter starts at the reload value.
pub open spec fn ch0_start(p: Pit) -> u32 {
    if p.counter == 0 {
        p.reload as u32
    } else {
        p.counter
    }
}

/// Channel 0 reaches zero on this count.
pub open spec fn ch0_fires(p: Pit) -> bool {
    p.enabled && p.reload != 0 && ch0_start(p) == 1
}

/// One count of channel 0.
pub open spec fn ch0_tick(p: Pit) -> Pit {
    if !p.enabled || p.reload == 0 {
        p
    } else if ch0_start(p) > 1 {
        Pit { counter: (ch0_start(p) - 1) as u32, ..p }
    } else if p.ch0_periodic {
        Pit { counter: p.reload as u32, ..p }
    } else {
        Pit { counter: 0, enabled: false, ..p }
    }
}

/// Channel 2 after `n` counts at once.
pub open spec fn ch2_jump(p: Pit, n: u64) -> Pit {
    if p.ch2_gate && !p.ch2_out && p.ch2_counter > 0 {
        if p.ch2_counter <= n {
            Pit { ch2_counter: 0, ch2_out: true, ..p }
        } else {
            Pit { ch2_counter: (p.ch2_counter - n) as u32, ..p }
        }
    } else {
        p
    }
}

/// Channel 0 after `n` counts at once, of the `left` until it fires.
pub open spec fn ch0_jump(p: Pit, left: u64, n: u64) -> Pit {
    if left == n {
        if p.ch0_periodic {
            Pit { counter: p.reload as u32, ..p }
        } else {
            Pit { counter: 0, enabled: false, ..p }
        }
    } else {
        Pit { counter: (left - n) as u32, ..p }
    }
}

/// A write to the mode port.
pub open spec fn pit_mode(p: Pit, val: u8) -> Pit {
    if val >> 6 == 0 {
        let mode = (val >> 1) & 0x7;
        Pit { write_hi: false, ch0_periodic: mode == 2 || mode == 3 || mode == 6 || mode == 7, ..p }
    } else if val >> 6 == 2 {
        Pit { ch2_write_hi: false, ch2_out: false, ..p }
    } else {
        p
    }
}

/// A write to the channel 0 port: low byte, then high byte, which arms the counter.
pub open spec fn pit_ch0_write(p: Pit, val: u8) -> Pit {
    if p.write_hi {
        let reload = (p.reload & 0x00ff) | ((val as u16) << 8);
        Pit { reload, enabled: true, counter: reload as u32, write_hi: false, ..p }
    } else {
        Pit { reload: (p.reload & 0xff00) | (val as u16), write_hi: true, ..p }
    }
}

/// A write to the channel 2 port: low byte, then high byte, which loads the one-shot.
pub open spec fn pit_ch2_write(p: Pit, val: u8) -> Pit {
    if p.ch2_write_hi {
        let reload = (p.ch2_reload & 0x00ff) | ((val as u16) << 8);
        Pit {
            ch2_reload: reload,
            ch2_write_hi: false,
            ch2_counter: reload as u32,
            ch2_out: false,
            ..p
        }
    } else {
        Pit { ch2_reload: (p.ch2_reload & 0xff00) | (val as u16), ch2_write_hi: true, ..p }
    }
}

/// A write to port `0x61`: bit 0 starts channel 2, and a rising edge loads its counter.
pub open spec fn pit_gate(p: Pit, val: u8) -> Pit {
    let gate = val & 1 != 0;
    if gate && !p.ch2_gate {
        Pit { ch2_counter: p.ch2_reload as u32, ch2_out: false, ch2_gate: gate, ..p }
    } else {
        Pit { ch2_gate: gate, ..p }
    }
}

/// A read of port `0x61`: whether channel 2 runs, and whether it has expired.
pub open spec fn pit_status(p: Pit) -> u8 {
    (if p.ch2_gate { 0x01u8 } else { 0u8 }) | (if p.ch2_out { 0x20u8 } else { 0u8 })
}

/// A read of the channel 2 port: low byte, then high byte, by the toggle that writes share.
pub open spec fn pit_ch2_read(p: Pit) -> (Pit, u8) {
    (
        Pit { ch2_write_hi: !p.ch2_write_hi, ..p },
        if p.ch2_write_hi { (p.ch2_counter >> 8) as u8 } else { (p.ch2_counter & 0xff) as u8 },
    )
}

/// The bytes of a snapshot.
#[verifier::opaque]
pub open spec fn enc_pit(p: Pit) -> Seq<u8> {
    enc_u16(p.reload) + (enc_u32(p.counter) + (enc_flag(p.write_hi) + (enc_flag(p.enabled) + (
    enc_flag(p.ch0_periodic) + (enc_u16(p.ch2_reload) + (enc_u32(p.ch2_counter) + (enc_flag(
        p.ch2_write_hi,
    ) + (enc_flag(p.ch2_gate) + enc_flag(p.ch2_out)))))))))
}

/// The value found in snapshot bytes.
#[verifier::opaque]
pub open spec fn dec_pit(b: Seq<u8>, p: int) -> Pit {
    Pit {
        reload: dec_u16(b, p),
        counter: dec_u32(b, p + 2),
        write_hi: b[p + 6] != 0,
        enabled: b[p + 7] != 0,
        ch0_periodic: b[p + 8] != 0,
        ch2_reload: dec_u16(b, p + 9),
        ch2_counter: dec_u32(b, p + 11),
        ch2_write_hi: b[p + 15] != 0,
        ch2_gate: b[p + 16] != 0,
        ch2_out: b[p + 17] != 0,
    }
}

/// Reading back what was written.
pub proof fn lemma_dec_pit(b: Seq<u8>, p: int, x: Pit)
    requires
        at(b, p, enc_pit(x)),
    ensures
        enc_pit(x).len() == 18,
        dec_pit(b, p) == x,
{
    reveal(enc_pit);
    reveal(dec_pit);
    let e9 = enc_flag(x.ch2_gate) + enc_flag(x.ch2_out);
    let e8 = enc_flag(x.ch2_write_hi) + e9;
    let e7 = enc_u32(x.ch2_counter) + e8;
    let e6 = enc_u16(x.ch2_reload) + e7;
    let e5 = enc_flag(x.ch0_periodic) + e6;
    let e4 = enc_flag(x.enabled) + e5;
    let e3 = enc_flag(x.write_hi) + e4;
    let e2 = enc_u32(x.counter) + e3;
    lemma_at_split(b, p, enc_u16(x.reload), e2);
    lemma_at_split(b, p + 2, enc_u32(x.counter), e3);
    lemma_at_split(b, p + 6, enc_flag(x.write_hi), e4);
    lemma_at_split(b, p + 7, enc_flag(x.enabled), e5);
    lemma_at_split(b, p + 8, enc_flag(x.ch0_periodic), e6);
    lemma_at_split(b, p + 9, enc_u16(x.ch2_reload), e7);
    lemma_at_split(b, p + 11, enc_u32(x.ch2_counter), e8);
    lemma_at_split(b, p + 15, enc_flag(x.ch2_write_hi), e9);
    lemma_at_split(b, p + 16, enc_flag(x.ch2_gate), enc_flag(x.ch2_out));
    lemma_dec_u16(b, p, x.reload);
    lemma_dec_u32(b, p + 2, x.counter);
    lemma_dec_u16(b, p + 9, x.ch2_reload);
    lemma_dec_u32(b, p + 11, x.ch2_counter);
    assert(b[p + 6 + 0] == enc_flag(x.write_hi)[0]);
    assert(b[p + 7 + 0] == enc_flag(x.enabled)[0]);
    assert(b[p + 8 + 0] == enc_flag(x.ch0_periodic)[0]);
    assert(b[p + 15 + 0] == enc_flag(x.ch2_write_hi)[0]);
    assert(b[p + 16 + 0] == enc_flag(x.ch2_gate)[0]);
    assert(b[p + 17 + 0] == enc_flag(x.ch2_out)[0]);
}

impl Pit {
    /// The timer at reset.
    pub fn new() -> (p: Pit)
        ensures
            p == (Pit {
                reload: 0,
                counter: 0,
                write_hi: false,
                enabled: false,
                ch0_periodic: true,
                ch2_reload: 0,
                ch2_counter: 0,
                ch2_write_hi: false,
                ch2_gate: false,
                ch2_out: false,
            }),
    {
        Pit {
            reload: 0,
            counter: 0,
            write_hi: false,
            enabled: false,
            ch0_periodic: true,
            ch2_reload: 0,
            ch2_counter: 0,
            ch2_write_hi: false,
            ch2_gate: false,
            ch2_out: false,
        }
    }

    /// One count of both channels; the result says whether channel 0 fired.
    pub fn tick(&mut self) -> (fired: bool)
        ensures
            *final(self) == ch0_tick(ch2_tick(*old(self))),
            fired == ch0_fires(ch2_tick(*old(self))),
    {
        if self.ch2_gate && !self.ch2_out && self.ch2_counter > 0 {
            self.ch2_counter = self.ch2_counter - 1;
            if self.ch2_counter == 0 {
                self.ch2_out = true;
            }
        }
        let mut fired: bool = false;
        if self.enabled && self.reload != 0 {
            if self.counter == 0 {
                self.counter = self.reload as u32;
            }
            self.counter = self.counter - 1;
            if self.counter == 0 {
                fired = true;
                if self.ch0_periodic {
                    self.counter = self.reload as u32;
                } else {
                    self.enabled = false;
                }
            }
        }
        fired
    }

    /// `n` counts of channel 2 at once.
    pub fn jump_ch2(&mut self, n: u64)
        ensures
            *final(self) == ch2_jump(*old(self), n),
    {
        if self.ch2_gate && !self.ch2_out && self.ch2_counter > 0 {
            if self.ch2_counter as u64 <= n {
                self.ch2_counter = 0;
                self.ch2_out = true;
            } else {
                self.ch2_counter = self.ch2_counter - n as u32;
            }
        }
    }

    /// `n` counts of channel 0 at once, of the `left` until it fires.
    pub fn jump_ch0(&mut self, left: u64, n: u64)
        requires
            n <= left <= u32::MAX,
        ensures
            *final(self) == ch0_jump(*old(self), left, n),
    {
        if left == n {
            if self.ch0_periodic {
                self.counter = self.reload as u32;
            } else {
                self.counter = 0;
                self.enabled = false;
            }
        } else {
            self.counter = (left - n) as u32;
        }
    }

    /// Port `0x43`: select a channel's mode.
    pub fn mode(&mut self, val: u8)
        ensures
            *final(self) == pit_mode(*old(self), val),
    {
        let ch: u8 = val >> 6;
        if ch == 0 {
            self.write_hi = false;
            let mode: u8 = (val >> 1) & 0x7;
            self.ch0_periodic = mode == 2 || mode == 3 || mode == 6 || mode == 7;
        } else if ch == 2 {
            self.ch2_write_hi = false;
            self.ch2_out = false;
        }
    }

    /// Port `0x40`: one byte of the channel 0 reload value.
    pub fn ch0_write(&mut self, val: u8)
        ensures
            *final(self) == pit_ch0_write(*old(self), val),
    {
        if self.write_hi {
            self.reload = (self.reload & 0x00ff) | ((val as u16) << 8);
            self.enabled = true;
            self.counter = self.reload as u32;
        } else {
            self.reload = (self.reload & 0xff00) | (val as u16);
        }
        self.write_hi = !self.write_hi;
    }

    /// Port `0x42`: one byte of the channel 2 reload value.
    pub fn ch2_write(&mut self, val: u8)
        ensures
            *final(self) == pit_ch2_write(*old(self), val),
    {
        if self.ch2_write_hi {
            self.ch2_reload = (self.ch2_reload & 0x00ff) | ((val as u16) << 8);
        } else {
            self.ch2_reload = (self.ch2_reload & 0xff00) | (val as u16);
        }
        self.ch2_write_hi = !self.ch2_write_hi;
        if !self.ch2_write_hi {
            self.ch2_counter = self.ch2_reload as u32;
            self.ch2_out = false;
        }
    }

    /// Port `0x61`: the channel 2 gate.
    pub fn gate(&mut self, val: u8)
        ensures
            *final(self) == pit_gate(*old(self), val),
    {
        let gate: bool = val & 1 != 0;
        if gate && !self.ch2_gate {
            self.ch2_counter = self.ch2_reload as u32;
            self.ch2_out = false;
        }
        self.ch2_gate = gate;
    }

    /// A read of port `0x61`.
    pub fn status(&self) -> (v: u8)
        ensures
            v == pit_status(*self),
    {
        (if self.ch2_gate { 0x01u8 } else { 0u8 }) | (if self.ch2_out { 0x20u8 } else { 0u8 })
    }

    /// A read of port `0x42`.
    pub fn ch2_read(&mut self) -> (v: u8)
        ensures
            (*final(self), v) == pit_ch2_read(*old(self)),
    {
        let high: bool = self.ch2_write_hi;
        self.ch2_write_hi = !self.ch2_write_hi;
        if high {
            (self.ch2_counter >> 8) as u8
        } else {
            (self.ch2_counter & 0xff) as u8
        }
    }

    pub fn snap(&self, o: &mut Vec<u8>)
        ensures
            final(o)@ == old(o)@ + enc_pit(*self),
    {
        proof {
            reveal(enc_pit);
        }
        broadcast use lemma_cat;

        put_u16(o, self.reload);
        put_u32(o, self.counter);
        put_flag(o, self.write_hi);
        put_flag(o, self.enabled);
        put_flag(o, self.ch0_periodic);
        put_u16(o, self.ch2_reload);
        put_u32(o, self.ch2_counter);
        put_flag(o, self.ch2_write_hi);
        put_flag(o, self.ch2_gate);
        put_flag(o, self.ch2_out);
    }

    pub fn unsnap(s: &mut Snap) -> (r: Option<Pit>)
        requires
            old(s).wf(),
        ensures
            final(s).wf(),
            final(s).b@ == old(s).b@,
            match r {
                Some(x) => old(s).has(18) && x == dec_pit(old(s).b@, old(s).p as int)
                    && final(s).moved(old(s), 18),
                None => !old(s).has(18),
            },
    {
        proof {
            reveal(dec_pit);
        }
        let reload: u16 = s.u16()?;
        let counter: u32 = s.u32()?;
        let write_hi: bool = s.flag()?;
        let enabled: bool = s.flag()?;
        let ch0_periodic: bool = s.flag()?;
        let ch2_reload: u16 = s.u16()?;
        let ch2_counter: u32 = s.u32()?;
        let ch2_write_hi: bool = s.flag()?;
        let ch2_gate: bool = s.flag()?;
        let ch2_out: bool = s.flag()?;
        Some(
            Pit {
                reload,
                counter,
                write_hi,
                enabled,
                ch0_periodic,
                ch2_reload,
                ch2_counter,
                ch2_write_hi,
                ch2_gate,
                ch2_out,
            },
        )
    }
}

/// The count of channel 2 reads back as it was written, low byte first.
pub proof fn law_count_reads_back(p: Pit, a: u8, b: u8)
    requires
        !p.ch2_write_hi,
    ensures
        ({
            let t = pit_ch2_write(pit_ch2_write(p, a), b);
            let (u, lo) = pit_ch2_read(t);
            let (v, hi) = pit_ch2_read(u);
            lo == a && hi == b && v == t
        }),
{
    lemma_halves(p.ch2_reload, a, b);
    let c = (((p.ch2_reload & 0xff00) | (a as u16)) & 0x00ff) | ((b as u16) << 8);
    assert(c as u32 & 0xff == (c & 0xff) as u32);
    assert(c as u32 >> 8 == (c >> 8) as u32);
}

/// Channel 0 after `n` counts.
pub open spec fn ch0_after(p: Pit, n: nat) -> Pit
    decreases n,
{
    if n == 0 {
        p
    } else {
        ch0_tick(ch0_after(p, (n - 1) as nat))
    }
}

proof fn lemma_ch0_counts(p: Pit, n: nat)
    requires
        p.enabled,
        p.reload != 0,
        n < ch0_start(p),
    ensures
        ch0_start(ch0_after(p, n)) == ch0_start(p) - n,
        ch0_after(p, n) == (Pit { counter: ch0_after(p, n).counter, ..p }),
    decreases n,
{
    if n > 0 {
        lemma_ch0_counts(p, (n - 1) as nat);
    }
}

/// Armed, channel 0 fires when its count is done and not before. A periodic one then counts its
/// reload value again; a one-shot idles, until it is armed anew.
pub proof fn law_channel_0(p: Pit, n: nat)
    requires
        p.enabled,
        p.reload != 0,
    ensures
        n + 1 < ch0_start(p) ==> !ch0_fires(ch0_after(p, n)),
        n + 1 == ch0_start(p) ==> ch0_fires(ch0_after(p, n)),
        n == ch0_start(p) && p.ch0_periodic ==> ch0_after(p, n) == (Pit {
            counter: p.reload as u32,
            ..p
        }),
        n >= ch0_start(p) && !p.ch0_periodic ==> ch0_after(p, n) == (Pit {
            counter: 0,
            enabled: false,
            ..p
        }) && !ch0_fires(ch0_after(p, n)),
    decreases n,
{
    if n < ch0_start(p) {
        lemma_ch0_counts(p, n);
    } else {
        law_channel_0(p, (n - 1) as nat);
        lemma_ch0_counts(p, (ch0_start(p) - 1) as nat);
    }
}

} // verus!
