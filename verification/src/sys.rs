//! The platform around the core: console, interrupt controllers, timers, device slots, the
//! model-specific registers and the modelled data cache.
use vstd::prelude::*;
use crate::bits::mask;
use crate::lapic::Lapic;
use crate::msr::Msrs;
use crate::pic::Pic;
use crate::pit::Pit;
use crate::snap::{put_blob, put_flag, put_u16, put_u32, put_u64, put_words, Snap};
use crate::uart::Uart;
use crate::virtio::{
    slot_at, InputEvent, InputRegs, MmioWrite, NetRegs, Slot, VIRTIO_BLK_BASE, VIRTIO_WINDOW,
};
#[allow(unused_imports)]
use crate::bits::{is_width, mask_of};
#[allow(unused_imports)]
use crate::lapic::{
    apic_jump, dec_lapic, enc_lapic, lapic_sized, lapic_tick, lemma_dec_lapic, timer_running,
    LapicState,
};
#[allow(unused_imports)]
use crate::msr::{dec_regs, enc_regs, lemma_dec_regs, lemma_enc_regs_len, msr_sorted};
#[allow(unused_imports)]
use crate::pic::{dec_pic, enc_pic, lemma_dec_pic, pic_command, pic_data, pic_raise};
#[allow(unused_imports)]
use crate::pit::{
    ch0_fires, ch0_jump, ch0_start, ch0_tick, ch2_jump, ch2_tick, dec_pit, enc_pit, lemma_dec_pit,
    pit_ch0_write, pit_ch2_read, pit_ch2_write, pit_gate, pit_mode, pit_status,
};
#[allow(unused_imports)]
use crate::snap::{
    at, dec_u16, dec_u32, dec_u64, dec_words, enc_blob, enc_flag, enc_u16, enc_u32, enc_u64,
    enc_words, lemma_at_split, lemma_at_subrange, lemma_cat, lemma_dec_u16, lemma_dec_u32,
    lemma_dec_u64, lemma_dec_words, lemma_enc_words_len,
};
#[allow(unused_imports)]
use crate::uart::{dec_uart, enc_uart, lemma_dec_uart, uart_in, uart_out, uart_sized, UartState};
#[allow(unused_imports)]
use crate::virtio::{
    dec_input, dec_net, enc_input, enc_net, in_window, lemma_dec_input, lemma_dec_net, slot_base,
    slot_of,
};

verus! {

/// Emulator steps per count of the platform timers: one shared rate for all of them.
pub const TICK_DIV: u64 = 16;
/// Timestamp-counter ticks per emulator step.
pub const TSC_PER_STEP: u64 = 128;
/// Lines of the modelled data cache (direct-mapped, 64-byte lines).
pub const DCACHE_LINES: usize = 512;
/// Timestamp-counter cycles charged on a data-cache miss.
pub const DCACHE_MISS_CYCLES: u64 = 32;
/// The first state of the random-number stream.
pub const RNG_SEED: u64 = 0x9e37_79b9_7f4a_7c15;

/// The platform the core drives.
pub struct Sys {
    pub uart: Uart,
    /// The serialised disk device, when a disk is attached.
    pub disk: Option<Vec<u8>>,
    /// A workspace filesystem is attached.
    pub p9: bool,
    /// The network device, when attached.
    pub net: Option<NetRegs>,
    /// The input device, when attached.
    pub input: Option<InputRegs>,
    /// `IDTR`: base and limit.
    pub idtr: (u64, u16),
    /// `GDTR`: base and limit.
    pub gdtr: (u64, u16),
    /// The base of the task state segment `LTR` loaded.
    pub tr_base: u64,
    pub msr: Msrs,
    pub pic: Pic,
    pub pit: Pit,
    pub lapic: Lapic,
    /// The timestamp counter.
    pub tsc: u64,
    /// The machine has halted for good.
    pub halted: bool,
    /// State of the random-number stream.
    pub rng: u64,
    /// Step counter pacing the down-counters.
    pub tdiv: u64,
    /// The PCI configuration address latch.
    pub pci_addr: u32,
    /// Tags of the modelled data cache: one line number per set.
    pub dcache: Vec<u64>,
    /// What each register of the device window reads as.
    pub mmio: Vec<u64>,
    /// Device register writes the host has not serviced yet.
    pub outbox: Vec<MmioWrite>,
    /// Input events the host has not delivered yet.
    pub events: Vec<InputEvent>,
}

/// The contents of a [`Sys`].
#[verifier::ext_equal]
pub ghost struct SysState {
    pub uart: UartState,
    pub disk: Option<Seq<u8>>,
    pub p9: bool,
    pub net: Option<NetRegs>,
    pub input: Option<InputRegs>,
    pub idtr: (u64, u16),
    pub gdtr: (u64, u16),
    pub tr_base: u64,
    pub msr: Seq<(u32, u64)>,
    pub pic: Pic,
    pub pit: Pit,
    pub lapic: LapicState,
    pub tsc: u64,
    pub halted: bool,
    pub rng: u64,
    pub tdiv: u64,
    pub pci_addr: u32,
    pub dcache: Seq<u64>,
    pub mmio: Seq<u64>,
    pub outbox: Seq<MmioWrite>,
    pub events: Seq<InputEvent>,
}

/// The bytes of an optional byte string.
pub open spec fn disk_view(d: Option<Vec<u8>>) -> Option<Seq<u8>> {
    match d {
        Some(v) => Some(v@),
        None => None,
    }
}

impl View for Sys {
    type V = SysState;

    open spec fn view(&self) -> SysState {
        SysState {
            uart: self.uart@,
            disk: disk_view(self.disk),
            p9: self.p9,
            net: self.net,
            input: self.input,
            idtr: self.idtr,
            gdtr: self.gdtr,
            tr_base: self.tr_base,
            msr: self.msr@,
            pic: self.pic,
            pit: self.pit,
            lapic: self.lapic@,
            tsc: self.tsc,
            halted: self.halted,
            rng: self.rng,
            tdiv: self.tdiv,
            pci_addr: self.pci_addr,
            dcache: self.dcache@,
            mmio: self.mmio@,
            outbox: self.outbox@,
            events: self.events@,
        }
    }
}

/// The platform at reset.
pub open spec fn fresh_sys() -> SysState {
    SysState {
        uart: UartState {
            output: Seq::empty(),
            input: Seq::empty(),
            in_cursor: 0,
            lcr: 0,
            ier: 0,
            mcr: 0,
            scratch: 0,
            fcr: 0,
            divisor: 1,
            thre_pending: false,
        },
        disk: None,
        p9: false,
        net: None,
        input: None,
        idtr: (0, 0),
        gdtr: (0, 0),
        tr_base: 0,
        msr: Seq::empty(),
        pic: Pic {
            mask: 0xffff,
            request: 0,
            base_master: 0x08,
            base_slave: 0x70,
            init_master: 0,
            init_slave: 0,
        },
        pit: Pit {
            reload: 0,
            counter: 0,
            write_hi: false,
            enabled: false,
            ch0_periodic: true,
            ch2_reload: 0,
            ch2_counter: 0,
            ch2_write_hi: false,
            ch2_gate: false,
            ch2_out: false,
        },
        lapic: LapicState {
            svr: 0xff,
            lvt_timer: 0x1_0000,
            initial_count: 0,
            current_count: 0,
            divide: 1,
            tpr: 0,
            irr: seq![0, 0, 0, 0],
            isr: seq![0, 0, 0, 0],
        },
        tsc: 0,
        halted: false,
        rng: RNG_SEED,
        tdiv: 0,
        pci_addr: 0,
        dcache: Seq::new(512, |i: int| u64::MAX),
        mmio: blank_mmio(),
        outbox: Seq::empty(),
        events: Seq::empty(),
    }
}

// ----- ports -----

/// Raise a line of the interrupt controller.
pub open spec fn sys_raise(s: SysState, n: u8) -> SysState {
    SysState { pic: pic_raise(s.pic, n), ..s }
}

/// The port belongs to the UART.
pub open spec fn uart_port(port: u16) -> bool {
    0x3f8 <= port <= 0x3ff
}

/// A byte written to a port. Ports that nothing answers are ignored.
pub open spec fn sys_port_out(s: SysState, port: u16, val: u8) -> SysState {
    if uart_port(port) {
        let (uart, raise) = uart_out(s.uart, port, val);
        let t = SysState { uart, ..s };
        if raise {
            sys_raise(t, 4)
        } else {
            t
        }
    } else if port == 0x20 || port == 0xa0 {
        SysState { pic: pic_command(s.pic, port == 0xa0, val), ..s }
    } else if port == 0x21 || port == 0xa1 {
        SysState { pic: pic_data(s.pic, port == 0xa1, val), ..s }
    } else if port == 0x43 {
        SysState { pit: pit_mode(s.pit, val), ..s }
    } else if port == 0x40 {
        SysState { pit: pit_ch0_write(s.pit, val), ..s }
    } else if port == 0x42 {
        SysState { pit: pit_ch2_write(s.pit, val), ..s }
    } else if port == 0x61 {
        SysState { pit: pit_gate(s.pit, val), ..s }
    } else {
        s
    }
}

/// A byte read from a port. Ports that nothing answers read zero.
pub open spec fn sys_port_in(s: SysState, port: u16) -> (SysState, u8) {
    if uart_port(port) {
        let (uart, v) = uart_in(s.uart, port);
        (SysState { uart, ..s }, v)
    } else if port == 0x21 {
        (s, (s.pic.mask & 0xff) as u8)
    } else if port == 0xa1 {
        (s, (s.pic.mask >> 8) as u8)
    } else if port == 0x61 {
        (s, pit_status(s.pit))
    } else if port == 0x42 {
        let (pit, v) = pit_ch2_read(s.pit);
        (SysState { pit, ..s }, v)
    } else {
        (s, 0)
    }
}

/// The PCI configuration register an address selects: a host bridge at bus 0, device 0, function 0,
/// and nothing anywhere else.
pub open spec fn pci_config(pci_addr: u32) -> u32 {
    if (pci_addr >> 16) & 0xff != 0 || (pci_addr >> 11) & 0x1f != 0 || (pci_addr >> 8) & 0x7 != 0 {
        0xffff_ffff
    } else if pci_addr & 0xfc == 0x00 {
        0x7190_8086
    } else if pci_addr & 0xfc == 0x08 {
        0x0600_0000
    } else {
        0
    }
}

/// `n` consecutive ports read a byte each, the lowest port first and lowest in the result.
pub open spec fn sys_port_in_bytes(s: SysState, port: u16, n: nat) -> (SysState, u64)
    decreases n,
{
    if n == 0 {
        (s, 0)
    } else {
        let (t, v) = sys_port_in_bytes(s, port, (n - 1) as nat);
        let (u, b) = sys_port_in(t, port.wrapping_add((n - 1) as u16));
        (u, v | ((b as u64) << ((8 * (n - 1)) as u64)))
    }
}

/// `n` consecutive ports written a byte each, the lowest port first with the lowest byte.
pub open spec fn sys_port_out_bytes(s: SysState, port: u16, n: nat, val: u64) -> SysState
    decreases n,
{
    if n == 0 {
        s
    } else {
        sys_port_out(
            sys_port_out_bytes(s, port, (n - 1) as nat, val),
            port.wrapping_add((n - 1) as u16),
            (val >> ((8 * (n - 1)) as u64)) as u8,
        )
    }
}

/// A read of several bytes: the PCI configuration address and data, or bytes of ports.
pub open spec fn sys_port_in_wide(s: SysState, port: u16, size: u8) -> (SysState, u64) {
    if port == 0xcf8 {
        (s, s.pci_addr as u64)
    } else if 0xcfc <= port <= 0xcff {
        let shift = (8 * (port - 0xcfc)) as u32;
        (s, ((pci_config(s.pci_addr) >> shift) as u64) & mask_of(size))
    } else {
        sys_port_in_bytes(s, port, size as nat)
    }
}

/// A write of several bytes: the PCI configuration address is latched, its data is discarded.
pub open spec fn sys_port_out_wide(s: SysState, port: u16, size: u8, val: u64) -> SysState {
    if port == 0xcf8 {
        SysState { pci_addr: val as u32, ..s }
    } else if 0xcfc <= port <= 0xcff {
        s
    } else {
        sys_port_out_bytes(s, port, size as nat, val)
    }
}

// ----- devices -----

/// A device is attached at the slot.
pub open spec fn slot_attached(s: SysState, slot: Slot) -> bool {
    match slot {
        Slot::Blk => s.disk is Some,
        Slot::P9 => s.p9,
        Slot::Net => s.net is Some,
        Slot::Input => s.input is Some,
    }
}

/// What a register of the device window reads as.
pub open spec fn sys_mmio_read(s: SysState, pa: u64) -> u64 {
    let i = pa - VIRTIO_BLK_BASE;
    if in_window(pa) && i < s.mmio.len() {
        s.mmio[i]
    } else {
        0
    }
}

/// A register write is queued for the host; a slot without a device ignores it.
pub open spec fn sys_mmio_write(s: SysState, pa: u64, value: u64) -> SysState {
    let slot = slot_of(pa);
    if in_window(pa) && slot_attached(s, slot) {
        SysState {
            outbox: s.outbox.push(
                MmioWrite { slot, off: (pa - slot_base(slot)) as u64, value: value as u32 },
            ),
            ..s
        }
    } else {
        s
    }
}

/// The events of one input packet, closed by the synchronisation report; without an input device
/// they are dropped.
pub open spec fn sys_input(s: SysState, packet: Seq<InputEvent>) -> SysState {
    if s.input is Some {
        SysState {
            events: s.events + packet.push(InputEvent { kind: 0, code: 0, value: 0 }),
            ..s
        }
    } else {
        s
    }
}

// ----- time -----

/// Account a RAM access in the modelled data cache: a miss takes the set over and costs cycles.
pub open spec fn sys_touch(s: SysState, pa: u64) -> SysState {
    let line = pa >> 6;
    let i = (line & 511) as int;
    if s.dcache[i] != line {
        SysState {
            dcache: s.dcache.update(i, line),
            tsc: s.tsc.wrapping_add(DCACHE_MISS_CYCLES),
            ..s
        }
    } else {
        s
    }
}

/// One count of every platform timer.
pub open spec fn sys_count(s: SysState) -> SysState {
    let p2 = ch2_tick(s.pit);
    SysState {
        pit: ch0_tick(p2),
        pic: if ch0_fires(p2) { pic_raise(s.pic, 0) } else { s.pic },
        lapic: lapic_tick(s.lapic),
        ..s
    }
}

/// One step of time: the timestamp counter advances, and every sixteenth step the timers count.
pub open spec fn sys_step(s: SysState) -> SysState {
    let t = SysState {
        tsc: s.tsc.wrapping_add(TSC_PER_STEP),
        tdiv: s.tdiv.wrapping_add(1),
        ..s
    };
    if t.tdiv % TICK_DIV == 0 {
        sys_count(t)
    } else {
        t
    }
}

/// Counts left until channel 0 fires.
pub open spec fn pit_left(s: SysState) -> Option<u64> {
    if s.pit.enabled && s.pit.reload != 0 {
        Some(ch0_start(s.pit) as u64)
    } else {
        None
    }
}

/// Counts left until the APIC timer fires.
pub open spec fn apic_left(s: SysState) -> Option<u64> {
    if timer_running(s.lapic) {
        Some(
            if s.lapic.current_count == 0 {
                s.lapic.initial_count as u64
            } else {
                s.lapic.current_count as u64
            },
        )
    } else {
        None
    }
}

/// Counts left until the nearest armed timer fires.
pub open spec fn ticks_left(s: SysState) -> Option<u64> {
    match (pit_left(s), apic_left(s)) {
        (Some(a), Some(b)) => Some(if b < a { b } else { a }),
        (Some(a), None) => Some(a),
        (None, b) => b,
    }
}

/// The jump to the nearest armed deadline. With no timer armed nothing moves.
pub open spec fn sys_idle(s: SysState) -> SysState {
    match ticks_left(s) {
        None => s,
        Some(n) => {
            let p2 = ch2_jump(s.pit, n);
            SysState {
                tsc: s.tsc.wrapping_add((n * TICK_DIV * TSC_PER_STEP) as u64),
                tdiv: s.tdiv.wrapping_add((n * TICK_DIV) as u64),
                pit: match pit_left(s) {
                    Some(left) => ch0_jump(p2, left, n),
                    None => p2,
                },
                pic: if pit_left(s) == Some(n) { pic_raise(s.pic, 0) } else { s.pic },
                lapic: match apic_left(s) {
                    Some(left) => apic_jump(s.lapic, left, n),
                    None => s.lapic,
                },
                ..s
            }
        },
    }
}

/// The next value of the random-number stream, perturbed by the timestamp counter.
pub open spec fn sys_random(s: SysState) -> (SysState, u64) {
    let rng = s.rng.wrapping_add(RNG_SEED ^ s.tsc);
    let z1 = (rng ^ (rng >> 30)).wrapping_mul(0xbf58_476d_1ce4_e5b9);
    let z2 = (z1 ^ (z1 >> 27)).wrapping_mul(0x94d0_49bb_1331_11eb);
    (SysState { rng, ..s }, z2 ^ (z2 >> 31))
}

// ----- snapshots -----

#[verifier::opaque]
pub open spec fn enc_disk(d: Option<Seq<u8>>) -> Seq<u8> {
    match d {
        None => seq![0u8],
        Some(v) => seq![1u8] + enc_blob(v),
    }
}

#[verifier::opaque]
pub open spec fn enc_input_slot(d: Option<InputRegs>) -> Seq<u8> {
    match d {
        None => seq![0u8],
        Some(v) => seq![1u8] + enc_input(v),
    }
}

#[verifier::opaque]
pub open spec fn enc_net_slot(d: Option<NetRegs>) -> Seq<u8> {
    match d {
        None => seq![0u8],
        Some(v) => seq![1u8] + enc_net(v),
    }
}

/// The descriptor-table registers.
#[verifier::opaque]
pub open spec fn enc_tables(s: SysState) -> Seq<u8> {
    enc_u64(s.idtr.0) + (enc_u16(s.idtr.1) + (enc_u64(s.gdtr.0) + (enc_u16(s.gdtr.1) + enc_u64(
        s.tr_base,
    ))))
}

/// The counters and latches.
#[verifier::opaque]
pub open spec fn enc_counters(s: SysState) -> Seq<u8> {
    enc_u64(s.tsc) + (enc_flag(s.halted) + (enc_u64(s.rng) + (enc_u64(s.tdiv) + enc_u32(
        s.pci_addr,
    ))))
}

#[verifier::opaque]
pub open spec fn enc_msrs(m: Seq<(u32, u64)>) -> Seq<u8> {
    enc_u64(m.len() as u64) + enc_regs(m)
}

#[verifier::opaque]
pub open spec fn enc_dcache(d: Seq<u64>) -> Seq<u8> {
    enc_u64(d.len() as u64) + enc_words(d)
}

/// What follows the devices in a snapshot of the platform.
pub open spec fn enc_behind(s: SysState) -> Seq<u8> {
    enc_uart(s.uart) + (enc_tables(s) + (enc_msrs(s.msr) + (enc_pic(s.pic) + (enc_pit(s.pit) + (
    enc_lapic(s.lapic) + (enc_counters(s) + enc_dcache(s.dcache)))))))
}

/// The bytes of a snapshot of the platform.
#[verifier::opaque]
pub open spec fn enc_sys(s: SysState) -> Seq<u8> {
    enc_disk(s.disk) + (enc_input_slot(s.input) + (enc_net_slot(s.net) + enc_behind(s)))
}

/// The bytes of a platform in the earlier format, which has no slot for a network device.
pub open spec fn enc_sys_earlier(s: SysState) -> Seq<u8> {
    enc_disk(s.disk) + (enc_input_slot(s.input) + enc_behind(s))
}

/// The disk of a snapshot. Its bytes are for the disk's own reader, whose verdict on them is
/// `disk_ok`; what it refuses is refused.
#[verifier::opaque]
pub open spec fn dec_disk(b: Seq<u8>, p: int, disk_ok: bool) -> Option<(Option<Seq<u8>>, int)> {
    if p >= b.len() {
        None
    } else if b[p] == 0 {
        Some((None, 1))
    } else {
        let n = dec_u64(b, p + 1);
        if p + 9 > b.len() || p + 9 + n > b.len() || !disk_ok {
            None
        } else {
            Some((Some(b.subrange(p + 9, p + 9 + n)), 9 + n))
        }
    }
}

#[verifier::opaque]
pub open spec fn dec_input_slot(b: Seq<u8>, p: int) -> Option<(Option<InputRegs>, int)> {
    if p >= b.len() {
        None
    } else if b[p] == 0 {
        Some((None, 1))
    } else if p + 99 > b.len() {
        None
    } else {
        Some((Some(dec_input(b, p + 1)), 99))
    }
}

/// The network device of a snapshot; the earlier format has none and spends no byte on it.
#[verifier::opaque]
pub open spec fn dec_net_slot(b: Seq<u8>, p: int, has_net: bool) -> Option<(Option<NetRegs>, int)> {
    if !has_net {
        Some((None, 0))
    } else if p >= b.len() {
        None
    } else if b[p] == 0 {
        Some((None, 1))
    } else if p + 103 > b.len() {
        None
    } else {
        Some((Some(dec_net(b, p + 1)), 103))
    }
}

/// An all-zero register image.
pub open spec fn blank_mmio() -> Seq<u64> {
    Seq::new(VIRTIO_WINDOW as nat, |i: int| 0u64)
}

/// What is found after the console in snapshot bytes.
#[verifier::opaque]
pub open spec fn dec_rest(
    b: Seq<u8>,
    p: int,
    disk: Option<Seq<u8>>,
    input: Option<InputRegs>,
    net: Option<NetRegs>,
    uart: UartState,
) -> Option<(SysState, int)> {
    let n = dec_u64(b, p + 28);
    let q = p + 36 + 12 * n;
    let m = dec_u64(b, q + 143);
    let end = q + 151 + 8 * m;
    if p + 36 > b.len() || q > b.len() || q + 151 > b.len() || end > b.len() {
        None
    } else {
        Some(
            (
                SysState {
                    uart,
                    disk,
                    p9: false,
                    net,
                    input,
                    idtr: (dec_u64(b, p), dec_u16(b, p + 8)),
                    gdtr: (dec_u64(b, p + 10), dec_u16(b, p + 18)),
                    tr_base: dec_u64(b, p + 20),
                    msr: dec_regs(b, p + 36, n as nat),
                    pic: dec_pic(b, q),
                    pit: dec_pit(b, q + 8),
                    lapic: dec_lapic(b, q + 26),
                    tsc: dec_u64(b, q + 114),
                    halted: b[q + 122] != 0,
                    rng: dec_u64(b, q + 123),
                    tdiv: dec_u64(b, q + 131),
                    pci_addr: dec_u32(b, q + 139),
                    dcache: dec_words(b, q + 151, m as nat),
                    mmio: blank_mmio(),
                    outbox: Seq::empty(),
                    events: Seq::empty(),
                },
                end - p,
            ),
        )
    }
}

/// The platform and its length found in snapshot bytes, or `None` where they are truncated or the
/// disk is refused.
#[verifier::opaque]
pub open spec fn dec_sys(b: Seq<u8>, p: int, has_net: bool, disk_ok: bool) -> Option<
    (SysState, int),
> {
    match dec_disk(b, p, disk_ok) {
        None => None,
        Some((disk, n1)) => match dec_input_slot(b, p + n1) {
            None => None,
            Some((input, n2)) => match dec_net_slot(b, p + n1 + n2, has_net) {
                None => None,
                Some((net, n3)) => match dec_uart(b, p + n1 + n2 + n3) {
                    None => None,
                    Some((uart, n4)) => match dec_rest(
                        b,
                        p + n1 + n2 + n3 + n4,
                        disk,
                        input,
                        net,
                        uart,
                    ) {
                        None => None,
                        Some((s, n5)) => Some((s, n1 + n2 + n3 + n4 + n5)),
                    },
                },
            },
        },
    }
}

/// What of a platform a snapshot keeps: everything but the workspace filesystem, the register image
/// and what waits for the host.
pub open spec fn sys_kept(s: SysState) -> SysState {
    SysState {
        p9: false,
        mmio: blank_mmio(),
        outbox: Seq::empty(),
        events: Seq::empty(),
        ..s
    }
}

/// The lengths fit their prefixes, the registers are in order.
pub open spec fn sys_sized(s: SysState) -> bool {
    &&& uart_sized(s.uart)
    &&& s.disk is Some ==> s.disk->0.len() <= u64::MAX
    &&& s.msr.len() <= u64::MAX
    &&& msr_sorted(s.msr)
    &&& lapic_sized(s.lapic)
    &&& s.dcache.len() <= u64::MAX
}

proof fn lemma_dec_disk(b: Seq<u8>, p: int, d: Option<Seq<u8>>, disk_ok: bool)
    requires
        d is Some ==> disk_ok,
        d is Some ==> d->0.len() <= u64::MAX,
        at(b, p, enc_disk(d)),
    ensures
        dec_disk(b, p, disk_ok) == Some((d, enc_disk(d).len() as int)),
{
    reveal(enc_disk);
    reveal(dec_disk);
    assert(b[p + 0] == enc_disk(d)[0]);
    if let Some(v) = d {
        lemma_at_split(b, p, seq![1u8], enc_blob(v));
        lemma_at_split(b, p + 1, enc_u64(v.len() as u64), v);
        lemma_dec_u64(b, p + 1, v.len() as u64);
        lemma_at_subrange(b, p + 9, v);
    }
}

proof fn lemma_dec_input_slot(b: Seq<u8>, p: int, d: Option<InputRegs>)
    requires
        at(b, p, enc_input_slot(d)),
    ensures
        dec_input_slot(b, p) == Some((d, enc_input_slot(d).len() as int)),
{
    reveal(enc_input_slot);
    reveal(dec_input_slot);
    assert(b[p + 0] == enc_input_slot(d)[0]);
    if let Some(v) = d {
        lemma_at_split(b, p, seq![1u8], enc_input(v));
        lemma_dec_input(b, p + 1, v);
    }
}

proof fn lemma_dec_net_slot(b: Seq<u8>, p: int, d: Option<NetRegs>)
    requires
        at(b, p, enc_net_slot(d)),
    ensures
        dec_net_slot(b, p, true) == Some((d, enc_net_slot(d).len() as int)),
{
    reveal(enc_net_slot);
    reveal(dec_net_slot);
    assert(b[p + 0] == enc_net_slot(d)[0]);
    if let Some(v) = d {
        lemma_at_split(b, p, seq![1u8], enc_net(v));
        lemma_dec_net(b, p + 1, v);
    }
}

proof fn lemma_dec_tables(b: Seq<u8>, p: int, s: SysState)
    requires
        at(b, p, enc_tables(s)),
    ensures
        enc_tables(s).len() == 28,
        (dec_u64(b, p), dec_u16(b, p + 8)) == s.idtr,
        (dec_u64(b, p + 10), dec_u16(b, p + 18)) == s.gdtr,
        dec_u64(b, p + 20) == s.tr_base,
{
    reveal(enc_tables);
    let e4 = enc_u16(s.gdtr.1) + enc_u64(s.tr_base);
    let e3 = enc_u64(s.gdtr.0) + e4;
    let e2 = enc_u16(s.idtr.1) + e3;
    lemma_at_split(b, p, enc_u64(s.idtr.0), e2);
    lemma_at_split(b, p + 8, enc_u16(s.idtr.1), e3);
    lemma_at_split(b, p + 10, enc_u64(s.gdtr.0), e4);
    lemma_at_split(b, p + 18, enc_u16(s.gdtr.1), enc_u64(s.tr_base));
    lemma_dec_u64(b, p, s.idtr.0);
    lemma_dec_u16(b, p + 8, s.idtr.1);
    lemma_dec_u64(b, p + 10, s.gdtr.0);
    lemma_dec_u16(b, p + 18, s.gdtr.1);
    lemma_dec_u64(b, p + 20, s.tr_base);
}

proof fn lemma_dec_counters(b: Seq<u8>, p: int, s: SysState)
    requires
        at(b, p, enc_counters(s)),
    ensures
        enc_counters(s).len() == 29,
        dec_u64(b, p) == s.tsc,
        (b[p + 8] != 0) == s.halted,
        dec_u64(b, p + 9) == s.rng,
        dec_u64(b, p + 17) == s.tdiv,
        dec_u32(b, p + 25) == s.pci_addr,
{
    reveal(enc_counters);
    let e4 = enc_u64(s.tdiv) + enc_u32(s.pci_addr);
    let e3 = enc_u64(s.rng) + e4;
    let e2 = enc_flag(s.halted) + e3;
    lemma_at_split(b, p, enc_u64(s.tsc), e2);
    lemma_at_split(b, p + 8, enc_flag(s.halted), e3);
    lemma_at_split(b, p + 9, enc_u64(s.rng), e4);
    lemma_at_split(b, p + 17, enc_u64(s.tdiv), enc_u32(s.pci_addr));
    lemma_dec_u64(b, p, s.tsc);
    assert(b[p + 8 + 0] == enc_flag(s.halted)[0]);
    lemma_dec_u64(b, p + 9, s.rng);
    lemma_dec_u64(b, p + 17, s.tdiv);
    lemma_dec_u32(b, p + 25, s.pci_addr);
}

proof fn lemma_dec_behind(
    b: Seq<u8>,
    p: int,
    s: SysState,
    disk: Option<Seq<u8>>,
    input: Option<InputRegs>,
    net: Option<NetRegs>,
)
    requires
        sys_sized(s),
        at(b, p, enc_behind(s)),
    ensures
        dec_uart(b, p) == Some((s.uart, enc_uart(s.uart).len() as int)),
        dec_rest(b, p + enc_uart(s.uart).len(), disk, input, net, s.uart) == Some(
            (
                SysState { disk, input, net, ..sys_kept(s) },
                enc_behind(s).len() - enc_uart(s.uart).len(),
            ),
        ),
{
    reveal(enc_msrs);
    reveal(enc_dcache);
    reveal(dec_rest);
    let e10 = enc_counters(s) + enc_dcache(s.dcache);
    let e9 = enc_lapic(s.lapic) + e10;
    let e8 = enc_pit(s.pit) + e9;
    let e7 = enc_pic(s.pic) + e8;
    let e6 = enc_msrs(s.msr) + e7;
    let e5 = enc_tables(s) + e6;
    lemma_at_split(b, p, enc_uart(s.uart), e5);
    lemma_dec_uart(b, p, s.uart);
    let p4 = p + enc_uart(s.uart).len();
    lemma_at_split(b, p4, enc_tables(s), e6);
    lemma_dec_tables(b, p4, s);
    let n = s.msr.len();
    lemma_at_split(b, p4 + 28, enc_msrs(s.msr), e7);
    lemma_at_split(b, p4 + 28, enc_u64(n as u64), enc_regs(s.msr));
    lemma_dec_u64(b, p4 + 28, n as u64);
    lemma_enc_regs_len(s.msr);
    lemma_dec_regs(b, p4 + 36, s.msr);
    let q = p4 + 36 + 12 * n;
    lemma_at_split(b, q, enc_pic(s.pic), e8);
    lemma_dec_pic(b, q, s.pic);
    lemma_at_split(b, q + 8, enc_pit(s.pit), e9);
    lemma_dec_pit(b, q + 8, s.pit);
    lemma_at_split(b, q + 26, enc_lapic(s.lapic), e10);
    lemma_dec_lapic(b, q + 26, s.lapic);
    lemma_at_split(b, q + 114, enc_counters(s), enc_dcache(s.dcache));
    lemma_dec_counters(b, q + 114, s);
    let m = s.dcache.len();
    lemma_at_split(b, q + 143, enc_u64(m as u64), enc_words(s.dcache));
    lemma_dec_u64(b, q + 143, m as u64);
    lemma_enc_words_len(s.dcache);
    lemma_dec_words(b, q + 151, s.dcache);
}

/// A snapshot of a platform reads back as that platform.
pub proof fn law_sys_round_trip(b: Seq<u8>, p: int, s: SysState, disk_ok: bool)
    requires
        sys_sized(s),
        s.disk is Some ==> disk_ok,
        at(b, p, enc_sys(s)),
    ensures
        dec_sys(b, p, true, disk_ok) == Some((sys_kept(s), enc_sys(s).len() as int)),
{
    reveal(enc_sys);
    reveal(dec_sys);
    let e3 = enc_net_slot(s.net) + enc_behind(s);
    let e2 = enc_input_slot(s.input) + e3;
    lemma_at_split(b, p, enc_disk(s.disk), e2);
    lemma_dec_disk(b, p, s.disk, disk_ok);
    let p1 = p + enc_disk(s.disk).len();
    lemma_at_split(b, p1, enc_input_slot(s.input), e3);
    lemma_dec_input_slot(b, p1, s.input);
    let p2 = p1 + enc_input_slot(s.input).len();
    lemma_at_split(b, p2, enc_net_slot(s.net), enc_behind(s));
    lemma_dec_net_slot(b, p2, s.net);
    let p3 = p2 + enc_net_slot(s.net).len();
    lemma_dec_behind(b, p3, s, s.disk, s.input, s.net);
}

/// A snapshot of a platform without a network device holds one byte for it, a zero. Without that
/// byte it is a snapshot in the earlier format, and reads back as the same platform.
pub proof fn law_sys_earlier(b: Seq<u8>, p: int, s: SysState, disk_ok: bool)
    requires
        sys_sized(s),
        s.disk is Some ==> disk_ok,
        s.net is None,
        at(b, p, enc_sys_earlier(s)),
    ensures
        dec_sys(b, p, false, disk_ok) == Some((sys_kept(s), enc_sys_earlier(s).len() as int)),
        ({
            let k = (enc_disk(s.disk).len() + enc_input_slot(s.input).len()) as int;
            &&& k < enc_sys(s).len()
            &&& enc_sys(s)[k] == 0
            &&& enc_sys(s).remove(k) == enc_sys_earlier(s)
        }),
{
    reveal(enc_sys);
    reveal(enc_net_slot);
    reveal(dec_sys);
    reveal(dec_net_slot);
    let e2 = enc_input_slot(s.input) + enc_behind(s);
    lemma_at_split(b, p, enc_disk(s.disk), e2);
    lemma_dec_disk(b, p, s.disk, disk_ok);
    let p1 = p + enc_disk(s.disk).len();
    lemma_at_split(b, p1, enc_input_slot(s.input), enc_behind(s));
    lemma_dec_input_slot(b, p1, s.input);
    let p2 = p1 + enc_input_slot(s.input).len();
    lemma_dec_behind(b, p2, s, s.disk, s.input, None);
    let k = (enc_disk(s.disk).len() + enc_input_slot(s.input).len()) as int;
    assert(enc_net_slot(s.net) =~= seq![0u8]);
    assert(enc_sys(s).remove(k) =~= enc_sys_earlier(s));
}

// ----- the executable platform -----

/// The PCI configuration register an address selects.
pub fn pci_config_dword(pci_addr: u32) -> (v: u32)
    ensures
        v == pci_config(pci_addr),
{
    let bus: u32 = (pci_addr >> 16) & 0xff;
    let dev: u32 = (pci_addr >> 11) & 0x1f;
    let func: u32 = (pci_addr >> 8) & 0x7;
    if bus != 0 || dev != 0 || func != 0 {
        return 0xffff_ffff;
    }
    let reg: u32 = pci_addr & 0xfc;
    if reg == 0x00 {
        0x7190_8086
    } else if reg == 0x08 {
        0x0600_0000
    } else {
        0
    }
}

/// The set of the data cache that a line falls in.
pub proof fn lemma_set(line: u64)
    by (bit_vector)
    ensures
        line & 511 < 512,
{
}

impl Sys {
    /// The platform at reset.
    pub fn new() -> (s: Sys)
        ensures
            s@ == fresh_sys(),
    {
        let dcache: Vec<u64> = vec![u64::MAX; DCACHE_LINES];
        assert(dcache@ =~= Seq::new(512, |i: int| u64::MAX));
        let mmio: Vec<u64> = vec![0u64; VIRTIO_WINDOW];
        assert(mmio@ =~= blank_mmio());
        Sys {
            uart: Uart::new(),
            disk: None,
            p9: false,
            net: None,
            input: None,
            idtr: (0, 0),
            gdtr: (0, 0),
            tr_base: 0,
            msr: Msrs::new(),
            pic: Pic::new(),
            pit: Pit::new(),
            lapic: Lapic::new(),
            tsc: 0,
            halted: false,
            rng: RNG_SEED,
            tdiv: 0,
            pci_addr: 0,
            dcache,
            mmio,
            outbox: Vec::new(),
            events: Vec::new(),
        }
    }

    /// Write a byte to a port: the serial console, the interrupt controllers, the timer. Other
    /// ports are ignored.
    pub fn port_out(&mut self, port: u16, val: u8)
        ensures
            final(self)@ == sys_port_out(old(self)@, port, val),
            final(self).dcache@ == old(self).dcache@,
    {
        if 0x3f8 <= port && port <= 0x3ff {
            if self.uart.port_out(port, val) {
                self.pic.raise(4);
            }
        } else if port == 0x20 || port == 0xa0 {
            self.pic.command(port == 0xa0, val);
        } else if port == 0x21 || port == 0xa1 {
            self.pic.data(port == 0xa1, val);
        } else if port == 0x43 {
            self.pit.mode(val);
        } else if port == 0x40 {
            self.pit.ch0_write(val);
        } else if port == 0x42 {
            self.pit.ch2_write(val);
        } else if port == 0x61 {
            self.pit.gate(val);
        }
    }

    /// Read a byte from a port.
    pub fn port_in(&mut self, port: u16) -> (v: u8)
        ensures
            (final(self)@, v) == sys_port_in(old(self)@, port),
            final(self).dcache@ == old(self).dcache@,
    {
        if 0x3f8 <= port && port <= 0x3ff {
            self.uart.port_in(port)
        } else if port == 0x21 {
            (self.pic.mask & 0xff) as u8
        } else if port == 0xa1 {
            (self.pic.mask >> 8) as u8
        } else if port == 0x61 {
            self.pit.status()
        } else if port == 0x42 {
            self.pit.ch2_read()
        } else {
            0
        }
    }

    /// A word or doubleword port read.
    pub fn port_in_wide(&mut self, port: u16, size: u8) -> (v: u64)
        requires
            is_width(size),
        ensures
            (final(self)@, v) == sys_port_in_wide(old(self)@, port, size),
            final(self).dcache@ == old(self).dcache@,
    {
        if port == 0xcf8 {
            return self.pci_addr as u64;
        }
        if 0xcfc <= port && port <= 0xcff {
            let dword: u32 = pci_config_dword(self.pci_addr);
            let shift: u32 = 8 * (port - 0xcfc) as u32;
            return ((dword >> shift) as u64) & mask(size);
        }
        let mut v: u64 = 0;
        let mut i: u8 = 0;
        while i < size
            invariant
                0 <= i <= size,
                is_width(size),
                (self@, v) == sys_port_in_bytes(old(self)@, port, i as nat),
                self.dcache@ == old(self).dcache@,
            decreases size - i,
        {
            let b: u8 = self.port_in(port.wrapping_add(i as u16));
            v = v | ((b as u64) << (8 * i as u64));
            i = i + 1;
        }
        v
    }

    /// A word or doubleword port write.
    pub fn port_out_wide(&mut self, port: u16, size: u8, val: u64)
        requires
            is_width(size),
        ensures
            final(self)@ == sys_port_out_wide(old(self)@, port, size, val),
            final(self).dcache@ == old(self).dcache@,
    {
        if port == 0xcf8 {
            self.pci_addr = val as u32;
            return;
        }
        if 0xcfc <= port && port <= 0xcff {
            return;
        }
        let mut i: u8 = 0;
        while i < size
            invariant
                0 <= i <= size,
                is_width(size),
                self@ == sys_port_out_bytes(old(self)@, port, i as nat, val),
                self.dcache@ == old(self).dcache@,
            decreases size - i,
        {
            self.port_out(port.wrapping_add(i as u16), (val >> (8 * i as u64)) as u8);
            i = i + 1;
        }
    }

    /// Read a register of the device window.
    pub fn mmio_read(&self, pa: u64) -> (v: u64)
        requires
            in_window(pa),
        ensures
            v == sys_mmio_read(self@, pa),
    {
        let i: u64 = pa - VIRTIO_BLK_BASE;
        if i < self.mmio.len() as u64 {
            self.mmio[i as usize]
        } else {
            0
        }
    }

    /// A device is attached at the slot.
    pub fn attached(&self, slot: Slot) -> (b: bool)
        ensures
            b == slot_attached(self@, slot),
    {
        match slot {
            Slot::Blk => self.disk.is_some(),
            Slot::P9 => self.p9,
            Slot::Net => self.net.is_some(),
            Slot::Input => self.input.is_some(),
        }
    }

    /// Write a register of the device window: the write waits for the host.
    pub fn mmio_write(&mut self, pa: u64, value: u64)
        requires
            in_window(pa),
        ensures
            final(self)@ == sys_mmio_write(old(self)@, pa, value),
    {
        let slot: Slot = slot_at(pa);
        if self.attached(slot) {
            self.outbox.push(MmioWrite { slot, off: pa - slot.base(), value: value as u32 });
        }
    }

    /// Account a RAM access in the modelled data cache.
    pub fn touch(&mut self, pa: u64)
        requires
            old(self).dcache@.len() >= 512,
        ensures
            final(self)@ == sys_touch(old(self)@, pa),
            final(self).dcache@.len() == old(self).dcache@.len(),
    {
        let line: u64 = pa >> 6;
        proof {
            lemma_set(line);
        }
        let i: usize = (line & 511) as usize;
        if self.dcache[i] != line {
            self.dcache[i] = line;
            self.tsc = self.tsc.wrapping_add(DCACHE_MISS_CYCLES);
        }
    }

    /// One count of the platform timers: the interval timer and the APIC timer, raising their
    /// interrupts when they expire.
    pub fn tick_down_counters(&mut self)
        ensures
            final(self)@ == sys_count(old(self)@),
    {
        if self.pit.tick() {
            self.pic.raise(0);
        }
        self.lapic.tick();
    }

    /// One step of time.
    pub fn tick(&mut self)
        ensures
            final(self)@ == sys_step(old(self)@),
            final(self).dcache@.len() == old(self).dcache@.len(),
    {
        self.tsc = self.tsc.wrapping_add(TSC_PER_STEP);
        self.tdiv = self.tdiv.wrapping_add(1);
        if self.tdiv % TICK_DIV == 0 {
            self.tick_down_counters();
        }
    }

    fn pit_remaining(&self) -> (r: Option<u64>)
        ensures
            r == pit_left(self@),
            r is Some ==> 0 < r->0 <= u32::MAX,
    {
        if self.pit.enabled && self.pit.reload != 0 {
            Some(
                if self.pit.counter == 0 {
                    self.pit.reload as u64
                } else {
                    self.pit.counter as u64
                },
            )
        } else {
            None
        }
    }

    fn apic_remaining(&self) -> (r: Option<u64>)
        ensures
            r == apic_left(self@),
            r is Some ==> 0 < r->0 <= u32::MAX,
    {
        if self.lapic.enabled() && self.lapic.initial_count != 0 && self.lapic.lvt_timer & 0x1_0000
            == 0 {
            Some(
                if self.lapic.current_count == 0 {
                    self.lapic.initial_count as u64
                } else {
                    self.lapic.current_count as u64
                },
            )
        } else {
            None
        }
    }

    /// Advance the timers to the next armed deadline and latch its interrupt. The wake time comes
    /// from the guest's own counters, so no bound is needed.
    pub fn idle(&mut self)
        ensures
            final(self)@ == sys_idle(old(self)@),
            final(self).dcache@.len() == old(self).dcache@.len(),
    {
        let pit: Option<u64> = self.pit_remaining();
        let apic: Option<u64> = self.apic_remaining();
        let n: u64 = match (pit, apic) {
            (Some(a), Some(b)) => if b < a { b } else { a },
            (Some(a), None) => a,
            (None, Some(b)) => b,
            (None, None) => {
                return;
            },
        };
        let steps: u64 = n * TICK_DIV;
        self.tsc = self.tsc.wrapping_add(steps * TSC_PER_STEP);
        self.tdiv = self.tdiv.wrapping_add(steps);
        self.pit.jump_ch2(n);
        if let Some(left) = pit {
            self.pit.jump_ch0(left, n);
            if left == n {
                self.pic.raise(0);
            }
        }
        if let Some(left) = apic {
            self.lapic.jump(left, n);
        }
    }

    /// The next value of the random-number stream.
    pub fn random(&mut self) -> (z: u64)
        ensures
            (final(self)@, z) == sys_random(old(self)@),
            final(self).dcache@.len() == old(self).dcache@.len(),
    {
        self.rng = self.rng.wrapping_add(RNG_SEED ^ self.tsc);
        let z0: u64 = self.rng;
        let z1: u64 = (z0 ^ (z0 >> 30)).wrapping_mul(0xbf58_476d_1ce4_e5b9);
        let z2: u64 = (z1 ^ (z1 >> 27)).wrapping_mul(0x94d0_49bb_1331_11eb);
        z2 ^ (z2 >> 31)
    }

    fn snap_slots(&self, o: &mut Vec<u8>)
        ensures
            final(o)@ == old(o)@ + (enc_disk(self@.disk) + (enc_input_slot(self@.input)
                + enc_net_slot(self@.net))),
    {
        broadcast use lemma_cat;

        proof {
            reveal(enc_disk);
            reveal(enc_input_slot);
            reveal(enc_net_slot);
        }
        match &self.disk {
            None => {
                o.push(0);
                assert(o@ =~= old(o)@ + enc_disk(self@.disk));
            },
            Some(d) => {
                o.push(1);
                assert(o@ =~= old(o)@ + seq![1u8]);
                put_blob(o, d.as_slice());
                assert(o@ == old(o)@ + enc_disk(self@.disk));
            },
        }
        let ghost o1 = o@;
        match &self.input {
            None => {
                o.push(0);
                assert(o@ =~= o1 + enc_input_slot(self@.input));
            },
            Some(d) => {
                o.push(1);
                assert(o@ =~= o1 + seq![1u8]);
                d.snap(o);
                assert(o@ == o1 + enc_input_slot(self@.input));
            },
        }
        let ghost o2 = o@;
        match &self.net {
            None => {
                o.push(0);
                assert(o@ =~= o2 + enc_net_slot(self@.net));
            },
            Some(d) => {
                o.push(1);
                assert(o@ =~= o2 + seq![1u8]);
                d.snap(o);
                assert(o@ == o2 + enc_net_slot(self@.net));
            },
        }
    }

    fn snap_tables(&self, o: &mut Vec<u8>)
        ensures
            final(o)@ == old(o)@ + enc_tables(self@),
    {
        broadcast use lemma_cat;

        proof {
            reveal(enc_tables);
        }
        put_u64(o, self.idtr.0);
        put_u16(o, self.idtr.1);
        put_u64(o, self.gdtr.0);
        put_u16(o, self.gdtr.1);
        put_u64(o, self.tr_base);
    }

    fn snap_counters(&self, o: &mut Vec<u8>)
        ensures
            final(o)@ == old(o)@ + enc_counters(self@),
    {
        broadcast use lemma_cat;

        proof {
            reveal(enc_counters);
        }
        put_u64(o, self.tsc);
        put_flag(o, self.halted);
        put_u64(o, self.rng);
        put_u64(o, self.tdiv);
        put_u32(o, self.pci_addr);
    }

    fn snap_dcache(&self, o: &mut Vec<u8>)
        ensures
            final(o)@ == old(o)@ + enc_dcache(self@.dcache),
    {
        broadcast use lemma_cat;

        proof {
            reveal(enc_dcache);
        }
        put_u64(o, self.dcache.len() as u64);
        put_words(o, self.dcache.as_slice());
    }

    /// Append the platform to a snapshot.
    pub fn snap(&self, o: &mut Vec<u8>)
        ensures
            final(o)@ == old(o)@ + enc_sys(self@),
    {
        broadcast use lemma_cat;

        proof {
            reveal(enc_sys);
            reveal(enc_msrs);
        }
        self.snap_slots(o);
        self.uart.snap(o);
        self.snap_tables(o);
        self.msr.snap(o);
        self.pic.snap(o);
        self.pit.snap(o);
        self.lapic.snap(o);
        self.snap_counters(o);
        self.snap_dcache(o);
    }

    fn unsnap_disk(s: &mut Snap, disk_ok: bool) -> (r: Option<Option<Vec<u8>>>)
        requires
            old(s).wf(),
        ensures
            final(s).wf(),
            final(s).b@ == old(s).b@,
            match r {
                Some(d) => dec_disk(old(s).b@, old(s).p as int, disk_ok) == Some(
                    (disk_view(d), final(s).p - old(s).p),
                ),
                None => dec_disk(old(s).b@, old(s).p as int, disk_ok) is None,
            },
    {
        proof {
            reveal(dec_disk);
        }
        if s.u8()? == 0 {
            return Some(None);
        }
        let d: Vec<u8> = s.blob()?;
        if !disk_ok {
            return None;
        }
        Some(Some(d))
    }

    fn unsnap_input(s: &mut Snap) -> (r: Option<Option<InputRegs>>)
        requires
            old(s).wf(),
        ensures
            final(s).wf(),
            final(s).b@ == old(s).b@,
            match r {
                Some(d) => dec_input_slot(old(s).b@, old(s).p as int) == Some(
                    (d, final(s).p - old(s).p),
                ),
                None => dec_input_slot(old(s).b@, old(s).p as int) is None,
            },
    {
        proof {
            reveal(dec_input_slot);
        }
        if s.u8()? == 0 {
            return Some(None);
        }
        let d: InputRegs = InputRegs::unsnap(s)?;
        Some(Some(d))
    }

    fn unsnap_net(s: &mut Snap, has_net: bool) -> (r: Option<Option<NetRegs>>)
        requires
            old(s).wf(),
        ensures
            final(s).wf(),
            final(s).b@ == old(s).b@,
            match r {
                Some(d) => dec_net_slot(old(s).b@, old(s).p as int, has_net) == Some(
                    (d, final(s).p - old(s).p),
                ),
                None => dec_net_slot(old(s).b@, old(s).p as int, has_net) is None,
            },
    {
        proof {
            reveal(dec_net_slot);
        }
        if !has_net {
            return Some(None);
        }
        if s.u8()? == 0 {
            return Some(None);
        }
        let d: NetRegs = NetRegs::unsnap(s)?;
        Some(Some(d))
    }

    fn unsnap_rest(
        s: &mut Snap,
        disk: Option<Vec<u8>>,
        input: Option<InputRegs>,
        net: Option<NetRegs>,
        uart: Uart,
    ) -> (r: Option<Sys>)
        requires
            old(s).wf(),
        ensures
            final(s).wf(),
            final(s).b@ == old(s).b@,
            match r {
                Some(x) => dec_rest(
                    old(s).b@,
                    old(s).p as int,
                    disk_view(disk),
                    input,
                    net,
                    uart@,
                ) == Some((x@, final(s).p - old(s).p)),
                None => dec_rest(
                    old(s).b@,
                    old(s).p as int,
                    disk_view(disk),
                    input,
                    net,
                    uart@,
                ) is None,
            },
    {
        proof {
            reveal(dec_rest);
        }
        let idtr: (u64, u16) = (s.u64()?, s.u16()?);
        let gdtr: (u64, u16) = (s.u64()?, s.u16()?);
        let tr_base: u64 = s.u64()?;
        let nmsr: u64 = s.u64()?;
        let msr: Msrs = Msrs::unsnap(s, nmsr)?;
        let pic: Pic = Pic::unsnap(s)?;
        let pit: Pit = Pit::unsnap(s)?;
        let lapic: Lapic = Lapic::unsnap(s)?;
        let tsc: u64 = s.u64()?;
        let halted: bool = s.flag()?;
        let rng: u64 = s.u64()?;
        let tdiv: u64 = s.u64()?;
        let pci_addr: u32 = s.u32()?;
        let ndc: u64 = s.u64()?;
        let dcache: Vec<u64> = s.words(ndc)?;
        let mmio: Vec<u64> = vec![0u64; VIRTIO_WINDOW];
        assert(mmio@ =~= blank_mmio());
        Some(
            Sys {
                uart,
                disk,
                p9: false,
                net,
                input,
                idtr,
                gdtr,
                tr_base,
                msr,
                pic,
                pit,
                lapic,
                tsc,
                halted,
                rng,
                tdiv,
                pci_addr,
                dcache,
                mmio,
                outbox: Vec::new(),
                events: Vec::new(),
            },
        )
    }

    /// Read a platform from a snapshot; the earlier format (`has_net` false) has no network device.
    /// A disk is refused where its own reader refuses its bytes (`disk_ok` false).
    pub fn unsnap(s: &mut Snap, has_net: bool, disk_ok: bool) -> (r: Option<Sys>)
        requires
            old(s).wf(),
        ensures
            final(s).wf(),
            final(s).b@ == old(s).b@,
            match r {
                Some(x) => dec_sys(old(s).b@, old(s).p as int, has_net, disk_ok) == Some(
                    (x@, final(s).p - old(s).p),
                ),
                None => dec_sys(old(s).b@, old(s).p as int, has_net, disk_ok) is None,
            },
    {
        proof {
            reveal(dec_sys);
        }
        let disk: Option<Vec<u8>> = Self::unsnap_disk(s, disk_ok)?;
        let input: Option<InputRegs> = Self::unsnap_input(s)?;
        let net: Option<NetRegs> = Self::unsnap_net(s, has_net)?;
        let uart: Uart = Uart::unsnap(s)?;
        Self::unsnap_rest(s, disk, input, net, uart)
    }
}

} // verus!
