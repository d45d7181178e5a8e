//! The legacy `16550` UART: the serial console at I/O port `0x3f8`.
use vstd::prelude::*;
use crate::snap::{put_blob, put_flag, put_u16, put_u64, Snap};
#[allow(unused_imports)]
use crate::snap::{
    at, dec_u16, dec_u64, enc_blob, enc_flag, enc_u16, enc_u64, lemma_at_split, lemma_at_subrange,
    lemma_cat, lemma_dec_u16, lemma_dec_u64,
};

verus! {

/// The serial console. Output is buffered for the host; input is the terminal channel.
pub struct Uart {
    pub output: Vec<u8>,
    pub input: Vec<u8>,
    /// How much of the input the guest has read.
    pub in_cursor: u64,
    /// Line Control Register: bit 7 (`DLAB`) selects the divisor latch.
    pub lcr: u8,
    /// Interrupt Enable Register.
    pub ier: u8,
    /// Modem Control Register: bit 4 (`LOOP`) loops the transmitter back to the receiver.
    pub mcr: u8,
    /// Scratch register.
    pub scratch: u8,
    /// FIFO Control Register.
    pub fcr: u8,
    /// The divisor latch.
    pub divisor: u16,
    /// The transmitter-empty interrupt is pending: set on a transition to empty, cleared when the
    /// interrupt identification is read.
    pub thre_pending: bool,
}

/// The contents of a [`Uart`].
#[verifier::ext_equal]
pub ghost struct UartState {
    pub output: Seq<u8>,
    pub input: Seq<u8>,
    pub in_cursor: u64,
    pub lcr: u8,
    pub ier: u8,
    pub mcr: u8,
    pub scratch: u8,
    pub fcr: u8,
    pub divisor: u16,
    pub thre_pending: bool,
}

impl View for Uart {
    type V = UartState;

    open spec fn view(&self) -> UartState {
        UartState {
            output: self.output@,
            input: self.input@,
            in_cursor: self.in_cursor,
            lcr: self.lcr,
            ier: self.ier,
            mcr: self.mcr,
            scratch: self.scratch,
            fcr: self.fcr,
            divisor: self.divisor,
            thre_pending: self.thre_pending,
        }
    }
}

/// A received byte waits to be read.
pub open spec fn data_ready(u: UartState) -> bool {
    u.in_cursor < u.input.len()
}

/// The divisor latch is selected.
pub open spec fn dlab(u: UartState) -> bool {
    u.lcr & 0x80 != 0
}

/// A write to the data port: the divisor's low byte, a looped-back byte, or console output. The
/// flag says whether the console interrupt is raised.
pub open spec fn uart_data(u: UartState, val: u8) -> (UartState, bool) {
    if dlab(u) {
        (UartState { divisor: (u.divisor & 0xff00) | (val as u16), ..u }, false)
    } else if u.mcr & 0x10 != 0 {
        (UartState { input: u.input.push(val), ..u }, false)
    } else if u.ier & 0x02 != 0 {
        (UartState { output: u.output.push(val), thre_pending: true, ..u }, true)
    } else {
        (UartState { output: u.output.push(val), ..u }, false)
    }
}

/// A write to the interrupt-enable port: the divisor's high byte, or the enables. Enabling the
/// transmitter interrupt asserts it; enabling the receiver interrupt asserts it if a byte waits.
pub open spec fn uart_enable(u: UartState, val: u8) -> (UartState, bool) {
    if dlab(u) {
        (UartState { divisor: (u.divisor & 0x00ff) | ((val as u16) << 8), ..u }, false)
    } else {
        (
            UartState { ier: val, thre_pending: u.thre_pending || val & 0x02 != 0, ..u },
            val & 0x02 != 0 || (val & 0x01 != 0 && data_ready(u)),
        )
    }
}

/// A write to a port of the UART.
pub open spec fn uart_out(u: UartState, port: u16, val: u8) -> (UartState, bool) {
    if port == 0x3f8 {
        uart_data(u, val)
    } else if port == 0x3f9 {
        uart_enable(u, val)
    } else if port == 0x3fa {
        (UartState { fcr: val, ..u }, false)
    } else if port == 0x3fb {
        (UartState { lcr: val, ..u }, false)
    } else if port == 0x3fc {
        (UartState { mcr: val, ..u }, false)
    } else if port == 0x3ff {
        (UartState { scratch: val, ..u }, false)
    } else {
        (u, false)
    }
}

/// The interrupt identification: received data first, then transmitter empty (which the read
/// clears), else none.
pub open spec fn uart_ident(u: UartState) -> (UartState, u8) {
    if u.ier & 0x01 != 0 && data_ready(u) {
        (u, 0x04u8 | (u.fcr & 0xc0))
    } else if u.ier & 0x02 != 0 && u.thre_pending {
        (UartState { thre_pending: false, ..u }, 0x02u8 | (u.fcr & 0xc0))
    } else {
        (u, 0x01u8 | (u.fcr & 0xc0))
    }
}

/// The modem status: the outputs looped back, or a ready line.
pub open spec fn uart_modem(u: UartState) -> u8 {
    if u.mcr & 0x10 != 0 {
        ((u.mcr & 0x02) << 3) | ((u.mcr & 0x01) << 5) | ((u.mcr & 0x04) << 4) | ((u.mcr & 0x08)
            << 4)
    } else {
        0xb0
    }
}

/// A read of a port of the UART.
pub open spec fn uart_in(u: UartState, port: u16) -> (UartState, u8) {
    if port == 0x3f8 {
        if dlab(u) {
            (u, (u.divisor & 0xff) as u8)
        } else if data_ready(u) {
            (UartState { in_cursor: (u.in_cursor + 1) as u64, ..u }, u.input[u.in_cursor as int])
        } else {
            (u, 0)
        }
    } else if port == 0x3f9 {
        if dlab(u) {
            (u, (u.divisor >> 8) as u8)
        } else {
            (u, u.ier)
        }
    } else if port == 0x3fa {
        uart_ident(u)
    } else if port == 0x3fb {
        (u, u.lcr)
    } else if port == 0x3fc {
        (u, u.mcr)
    } else if port == 0x3fd {
        (u, 0x60u8 | (if data_ready(u) { 1u8 } else { 0u8 }))
    } else if port == 0x3fe {
        (u, uart_modem(u))
    } else if port == 0x3ff {
        (u, u.scratch)
    } else {
        (u, 0)
    }
}

/// The bytes of a snapshot.
#[verifier::opaque]
pub open spec fn enc_uart(u: UartState) -> Seq<u8> {
    enc_blob(u.output) + (enc_blob(u.input) + (enc_u64(u.in_cursor) + (seq![
        u.lcr,
        u.ier,
        u.mcr,
        u.scratch,
        u.fcr,
    ] + (enc_u16(u.divisor) + enc_flag(u.thre_pending)))))
}

/// The value and its length found in snapshot bytes, or `None` where they are truncated.
#[verifier::opaque]
pub open spec fn dec_uart(b: Seq<u8>, p: int) -> Option<(UartState, int)> {
    let n1 = dec_u64(b, p);
    let p1 = p + 8 + n1;
    let n2 = dec_u64(b, p1);
    let p2 = p1 + 8 + n2;
    if p + 8 > b.len() || p1 > b.len() || p1 + 8 > b.len() || p2 > b.len() || p2 + 16 > b.len() {
        None
    } else {
        Some(
            (
                UartState {
                    output: b.subrange(p + 8, p1),
                    input: b.subrange(p1 + 8, p2),
                    in_cursor: dec_u64(b, p2),
                    lcr: b[p2 + 8],
                    ier: b[p2 + 9],
                    mcr: b[p2 + 10],
                    scratch: b[p2 + 11],
                    fcr: b[p2 + 12],
                    divisor: dec_u16(b, p2 + 13),
                    thre_pending: b[p2 + 15] != 0,
                },
                p2 + 16 - p,
            ),
        )
    }
}

/// The buffers' lengths fit their length prefix.
pub open spec fn uart_sized(u: UartState) -> bool {
    u.output.len() <= u64::MAX && u.input.len() <= u64::MAX
}

/// Reading back what was written.
pub proof fn lemma_dec_uart(b: Seq<u8>, p: int, u: UartState)
    requires
        uart_sized(u),
        at(b, p, enc_uart(u)),
    ensures
        dec_uart(b, p) == Some((u, enc_uart(u).len() as int)),
{
    reveal(enc_uart);
    reveal(dec_uart);
    let regs = seq![u.lcr, u.ier, u.mcr, u.scratch, u.fcr];
    let e5 = enc_u16(u.divisor) + enc_flag(u.thre_pending);
    let e4 = regs + e5;
    let e3 = enc_u64(u.in_cursor) + e4;
    let e2 = enc_blob(u.input) + e3;
    lemma_at_split(b, p, enc_blob(u.output), e2);
    lemma_at_split(b, p, enc_u64(u.output.len() as u64), u.output);
    lemma_dec_u64(b, p, u.output.len() as u64);
    lemma_at_subrange(b, p + 8, u.output);
    let p1 = p + 8 + u.output.len();
    lemma_at_split(b, p1, enc_blob(u.input), e3);
    lemma_at_split(b, p1, enc_u64(u.input.len() as u64), u.input);
    lemma_dec_u64(b, p1, u.input.len() as u64);
    lemma_at_subrange(b, p1 + 8, u.input);
    let p2 = p1 + 8 + u.input.len();
    lemma_at_split(b, p2, enc_u64(u.in_cursor), e4);
    lemma_dec_u64(b, p2, u.in_cursor);
    lemma_at_split(b, p2 + 8, regs, e5);
    assert(b[p2 + 8 + 0] == regs[0] && b[p2 + 8 + 1] == regs[1] && b[p2 + 8 + 2] == regs[2]);
    assert(b[p2 + 8 + 3] == regs[3] && b[p2 + 8 + 4] == regs[4]);
    lemma_at_split(b, p2 + 13, enc_u16(u.divisor), enc_flag(u.thre_pending));
    lemma_dec_u16(b, p2 + 13, u.divisor);
    assert(b[p2 + 15 + 0] == enc_flag(u.thre_pending)[0]);
}

impl Uart {
    /// The UART at reset.
    pub fn new() -> (u: Uart)
        ensures
            u@ == (UartState {
                output: Seq::empty(),
                input: Seq::empty(),
                in_cursor: 0,
                lcr: 0,
                ier: 0,
                mcr: 0,
                scratch: 0,
                fcr: 0,
                divisor: 1,
                thre_pending: false,
            }),
    {
        Uart {
            output: Vec::new(),
            input: Vec::new(),
            in_cursor: 0,
            lcr: 0,
            ier: 0,
            mcr: 0,
            scratch: 0,
            fcr: 0,
            divisor: 1,
            thre_pending: false,
        }
    }

    /// A received byte waits to be read.
    pub fn ready(&self) -> (b: bool)
        ensures
            b == data_ready(self@),
    {
        self.in_cursor < self.input.len() as u64
    }

    /// Write a port of the UART; the result says whether its interrupt is raised.
    pub fn port_out(&mut self, port: u16, val: u8) -> (raise: bool)
        ensures
            (final(self)@, raise) == uart_out(old(self)@, port, val),
    {
        let latch: bool = self.lcr & 0x80 != 0;
        if port == 0x3f8 {
            if latch {
                self.divisor = (self.divisor & 0xff00) | (val as u16);
                false
            } else if self.mcr & 0x10 != 0 {
                self.input.push(val);
                false
            } else {
                self.output.push(val);
                if self.ier & 0x02 != 0 {
                    self.thre_pending = true;
                    true
                } else {
                    false
                }
            }
        } else if port == 0x3f9 {
            if latch {
                self.divisor = (self.divisor & 0x00ff) | ((val as u16) << 8);
                false
            } else {
                self.ier = val;
                let dr: bool = self.ready();
                if val & 0x02 != 0 {
                    self.thre_pending = true;
                }
                val & 0x02 != 0 || (val & 0x01 != 0 && dr)
            }
        } else if port == 0x3fa {
            self.fcr = val;
            false
        } else if port == 0x3fb {
            self.lcr = val;
            false
        } else if port == 0x3fc {
            self.mcr = val;
            false
        } else if port == 0x3ff {
            self.scratch = val;
            false
        } else {
            false
        }
    }

    /// Read a port of the UART.
    pub fn port_in(&mut self, port: u16) -> (v: u8)
        ensures
            (final(self)@, v) == uart_in(old(self)@, port),
    {
        let received: usize = self.input.len();
        let latch: bool = self.lcr & 0x80 != 0;
        if port == 0x3f8 {
            if latch {
                (self.divisor & 0xff) as u8
            } else if self.in_cursor < received as u64 {
                let b: u8 = self.input[self.in_cursor as usize];
                self.in_cursor = self.in_cursor + 1;
                b
            } else {
                0
            }
        } else if port == 0x3f9 {
            if latch {
                (self.divisor >> 8) as u8
            } else {
                self.ier
            }
        } else if port == 0x3fa {
            let dr: bool = self.ready();
            let id: u8 = if self.ier & 0x01 != 0 && dr {
                0x04
            } else if self.ier & 0x02 != 0 && self.thre_pending {
                self.thre_pending = false;
                0x02
            } else {
                0x01
            };
            id | (self.fcr & 0xc0)
        } else if port == 0x3fb {
            self.lcr
        } else if port == 0x3fc {
            self.mcr
        } else if port == 0x3fd {
            0x60u8 | (if self.ready() { 1u8 } else { 0u8 })
        } else if port == 0x3fe {
            if self.mcr & 0x10 != 0 {
                let m: u8 = self.mcr;
                ((m & 0x02) << 3) | ((m & 0x01) << 5) | ((m & 0x04) << 4) | ((m & 0x08) << 4)
            } else {
                0xb0
            }
        } else if port == 0x3ff {
            self.scratch
        } else {
            0
        }
    }

    pub fn snap(&self, o: &mut Vec<u8>)
        ensures
            final(o)@ == old(o)@ + enc_uart(self@),
    {
        proof {
            reveal(enc_uart);
        }
        broadcast use lemma_cat;

        put_blob(o, self.output.as_slice());
        put_blob(o, self.input.as_slice());
        put_u64(o, self.in_cursor);
        let ghost o1 = o@;
        o.push(self.lcr);
        o.push(self.ier);
        o.push(self.mcr);
        o.push(self.scratch);
        o.push(self.fcr);
        assert(o@ =~= o1 + seq![self.lcr, self.ier, self.mcr, self.scratch, self.fcr]);
        put_u16(o, self.divisor);
        put_flag(o, self.thre_pending);
    }

    pub fn unsnap(s: &mut Snap) -> (r: Option<Uart>)
        requires
            old(s).wf(),
        ensures
            final(s).wf(),
            final(s).b@ == old(s).b@,
            match r {
                Some(x) => dec_uart(old(s).b@, old(s).p as int) == Some(
                    (x@, final(s).p - old(s).p),
                ),
                None => dec_uart(old(s).b@, old(s).p as int) is None,
            },
    {
        proof {
            reveal(dec_uart);
        }
        let output: Vec<u8> = s.blob()?;
        let input: Vec<u8> = s.blob()?;
        let in_cursor: u64 = s.u64()?;
        let lcr: u8 = s.u8()?;
        let ier: u8 = s.u8()?;
        let mcr: u8 = s.u8()?;
        let scratch: u8 = s.u8()?;
        let fcr: u8 = s.u8()?;
        let divisor: u16 = s.u16()?;
        let thre_pending: bool = s.flag()?;
        Some(
            Uart {
                output,
                input,
                in_cursor,
                lcr,
                ier,
                mcr,
                scratch,
                fcr,
                divisor,
                thre_pending,
            },
        )
    }
}

/// The transmitter interrupt is identified once for each time it is raised: a read that names it
/// clears it, and the next read names it no more.
pub proof fn law_transmitter_once(u: UartState)
    ensures
        u.ier & 0x01 == 0 || !data_ready(u) ==> !(uart_ident(u).0.thre_pending && u.ier & 0x02 != 0),
        uart_ident(uart_ident(u).0).0 == uart_ident(u).0,
{
}

/// What was written to the scratch register, or, with the latch selected, to the divisor, is read
/// back.
pub proof fn law_uart_registers(u: UartState, a: u8, b: u8)
    ensures
        uart_in(uart_out(u, 0x3ff, a).0, 0x3ff).1 == a,
        dlab(u) ==> ({
            let t = uart_out(uart_out(u, 0x3f8, a).0, 0x3f9, b).0;
            uart_in(t, 0x3f8).1 == a && uart_in(t, 0x3f9).1 == b
        }),
{
    lemma_halves(u.divisor, a, b);
}

/// A word put together from a low and a high byte has them as its halves.
pub proof fn lemma_halves(d: u16, a: u8, b: u8)
    by (bit_vector)
    ensures
        ((((d & 0xff00) | (a as u16)) & 0x00ff) | ((b as u16) << 8)) & 0xff == a,
        ((((d & 0xff00) | (a as u16)) & 0x00ff) | ((b as u16) << 8)) >> 8 == b,
{
}

/// The guest reads the bytes of the terminal in the order in which they came.
pub proof fn law_terminal_order(u: UartState)
    requires
        !dlab(u),
        u.in_cursor < u64::MAX,
    ensures
        data_ready(u) ==> uart_in(u, 0x3f8).1 == u.input[u.in_cursor as int] && uart_in(u, 0x3f8).0.in_cursor
            == u.in_cursor + 1 && uart_in(u, 0x3f8).0.input == u.input,
{
}

} // verus!
