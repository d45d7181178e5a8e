//! The register state of the `virtio-mmio` devices that a snapshot carries, and the transport slots.
//!
//! The device models themselves live with the host: a register read is answered from the image of
//! the slot the host keeps current, and a register write is queued for the host.
use vstd::prelude::*;
use crate::snap::{put_u16, put_u32, put_u64, Snap};
#[allow(unused_imports)]
use crate::snap::{
    at, dec_u16, dec_u32, dec_u64, enc_u16, enc_u32, enc_u64, lemma_at_split, lemma_cat,
    lemma_dec_u16, lemma_dec_u32, lemma_dec_u64,
};

verus! {

/// The `virtio-mmio` slots sit in a high window above any guest RAM.
pub const VIRTIO_BLK_BASE: u64 = 0xD000_0000;
pub const VIRTIO_9P_BASE: u64 = 0xD000_0200;
pub const VIRTIO_NET_BASE: u64 = 0xD000_0400;
pub const VIRTIO_NET_END: u64 = 0xD000_0600;
pub const VIRTIO_INPUT_BASE: u64 = 0xD000_0600;
pub const VIRTIO_INPUT_END: u64 = 0xD000_0800;
/// The bytes of the whole window.
pub const VIRTIO_WINDOW: usize = 0x800;

/// The IRQ line of the disk.
pub const VIRTIO_BLK_IRQ: u8 = 11;
/// The IRQ line of the workspace filesystem.
pub const VIRTIO_9P_IRQ: u8 = 10;
/// The IRQ line of the network device.
pub const VIRTIO_NET_IRQ: u8 = 12;
/// The IRQ line of the input device.
pub const VIRTIO_INPUT_IRQ: u8 = 5;

/// A device slot.
#[derive(Clone, Copy, PartialEq, Eq, Structural, Debug)]
pub enum Slot {
    Blk,
    P9,
    Net,
    Input,
}

/// A register write waiting for the host to service it.
#[derive(Clone, Copy, PartialEq, Eq, Structural, Debug)]
pub struct MmioWrite {
    pub slot: Slot,
    /// The register's offset in its slot.
    pub off: u64,
    pub value: u32,
}

/// An input event: an evdev type, code and value.
#[derive(Clone, Copy, PartialEq, Eq, Structural, Debug)]
pub struct InputEvent {
    pub kind: u16,
    pub code: u16,
    pub value: i32,
}

/// What a device model says of a register write: whether a queue was notified, and which.
#[derive(Clone, Copy, PartialEq, Eq, Structural, Debug)]
pub enum Notice {
    Quiet,
    /// The only queue of the disk, or of the workspace filesystem.
    Queue,
    /// The transmit queue of the network device.
    Transmit,
    /// The receive queue of the network device.
    Receive,
    /// A queue of the input device.
    Input(u32),
}

/// What a device model is asked to do. Each says whether it has an interrupt for the guest.
#[derive(Clone, Copy, PartialEq, Eq, Structural, Debug)]
pub enum Work {
    /// Serve the requests for sectors.
    Sectors,
    /// Serve the requests for files.
    Files,
    /// Send what the guest transmits.
    Send,
    /// Hand the guest what has arrived.
    Pump,
    /// Hand the guest its input events.
    Events,
    /// Take what the guest says of the input device.
    Status,
}

/// The work that a notice makes, in order.
pub open spec fn work_of(slot: Slot, n: Notice) -> Seq<Work> {
    match (slot, n) {
        (Slot::Blk, Notice::Queue) => seq![Work::Sectors],
        (Slot::P9, Notice::Queue) => seq![Work::Files],
        (Slot::Net, Notice::Transmit) => seq![Work::Send, Work::Pump],
        (Slot::Net, Notice::Receive) => seq![Work::Pump],
        (Slot::Input, Notice::Input(q)) => seq![if q == 1 { Work::Status } else { Work::Events }],
        _ => Seq::empty(),
    }
}

/// The slot an address of the window belongs to.
pub open spec fn slot_of(pa: u64) -> Slot {
    if pa < VIRTIO_9P_BASE {
        Slot::Blk
    } else if pa < VIRTIO_NET_BASE {
        Slot::P9
    } else if pa < VIRTIO_INPUT_BASE {
        Slot::Net
    } else {
        Slot::Input
    }
}

/// The first address of a slot.
pub open spec fn slot_base(s: Slot) -> u64 {
    match s {
        Slot::Blk => VIRTIO_BLK_BASE,
        Slot::P9 => VIRTIO_9P_BASE,
        Slot::Net => VIRTIO_NET_BASE,
        Slot::Input => VIRTIO_INPUT_BASE,
    }
}

/// The IRQ line of a slot.
pub open spec fn slot_irq(s: Slot) -> u8 {
    match s {
        Slot::Blk => VIRTIO_BLK_IRQ,
        Slot::P9 => VIRTIO_9P_IRQ,
        Slot::Net => VIRTIO_NET_IRQ,
        Slot::Input => VIRTIO_INPUT_IRQ,
    }
}

/// The address lies in the window.
pub open spec fn in_window(pa: u64) -> bool {
    VIRTIO_BLK_BASE <= pa < VIRTIO_INPUT_END
}

/// The slot an address of the window belongs to.
pub fn slot_at(pa: u64) -> (s: Slot)
    requires
        in_window(pa),
    ensures
        s == slot_of(pa),
        slot_base(s) <= pa,
{
    if pa < VIRTIO_9P_BASE {
        Slot::Blk
    } else if pa < VIRTIO_NET_BASE {
        Slot::P9
    } else if pa < VIRTIO_INPUT_BASE {
        Slot::Net
    } else {
        Slot::Input
    }
}

impl Slot {
    /// The work that a notice from the device of the slot makes, in order.
    pub fn work(self, n: Notice) -> (w: Vec<Work>)
        ensures
            w@ == work_of(self, n),
    {
        let mut w: Vec<Work> = Vec::new();
        match (self, n) {
            (Slot::Blk, Notice::Queue) => w.push(Work::Sectors),
            (Slot::P9, Notice::Queue) => w.push(Work::Files),
            (Slot::Net, Notice::Transmit) => {
                w.push(Work::Send);
                w.push(Work::Pump);
            },
            (Slot::Net, Notice::Receive) => w.push(Work::Pump),
            (Slot::Input, Notice::Input(q)) => w.push(
                if q == 1 { Work::Status } else { Work::Events },
            ),
            _ => {},
        }
        assert(w@ =~= work_of(self, n));
        w
    }

    /// The first address of the slot.
    pub fn base(self) -> (b: u64)
        ensures
            b == slot_base(self),
    {
        match self {
            Slot::Blk => VIRTIO_BLK_BASE,
            Slot::P9 => VIRTIO_9P_BASE,
            Slot::Net => VIRTIO_NET_BASE,
            Slot::Input => VIRTIO_INPUT_BASE,
        }
    }

    /// The IRQ line of the slot.
    pub fn irq(self) -> (n: u8)
        ensures
            n == slot_irq(self),
    {
        match self {
            Slot::Blk => VIRTIO_BLK_IRQ,
            Slot::P9 => VIRTIO_9P_IRQ,
            Slot::Net => VIRTIO_NET_IRQ,
            Slot::Input => VIRTIO_INPUT_IRQ,
        }
    }
}

/// The registers the input and network devices share: negotiation, the two queues, the interrupt
/// status.
#[derive(Clone, Copy, PartialEq, Eq, Debug)]
pub struct QueueRegs {
    pub status: u32,
    pub device_features_sel: u32,
    pub driver_features_sel: u32,
    pub driver_features: (u32, u32),
    pub queue_sel: u32,
    pub queue_num: (u32, u32),
    pub queue_ready: (u32, u32),
    pub desc_addr: (u64, u64),
    pub avail_addr: (u64, u64),
    pub used_addr: (u64, u64),
    /// The consumed position of each queue.
    pub last_avail: (u16, u16),
    pub interrupt_status: u32,
}

/// The input device: its registers and the selection of its configuration space. Events in flight
/// are not part of a snapshot.
#[derive(Clone, Copy, PartialEq, Eq, Debug)]
pub struct InputRegs {
    pub regs: QueueRegs,
    pub cfg_select: u8,
    pub cfg_subsel: u8,
}

/// The network device: its address and its registers. The transports are attached afresh by the
/// host that resumes a snapshot.
#[derive(Clone, Copy, PartialEq, Eq, Debug)]
pub struct NetRegs {
    pub mac: (u8, u8, u8, u8, u8, u8),
    pub regs: QueueRegs,
}

/// Registers at reset.
pub open spec fn fresh_regs() -> QueueRegs {
    QueueRegs {
        status: 0,
        device_features_sel: 0,
        driver_features_sel: 0,
        driver_features: (0, 0),
        queue_sel: 0,
        queue_num: (0, 0),
        queue_ready: (0, 0),
        desc_addr: (0, 0),
        avail_addr: (0, 0),
        used_addr: (0, 0),
        last_avail: (0, 0),
        interrupt_status: 0,
    }
}

pub open spec fn enc_pair32(v: (u32, u32)) -> Seq<u8> {
    enc_u32(v.0) + enc_u32(v.1)
}

pub open spec fn enc_pair64(v: (u64, u64)) -> Seq<u8> {
    enc_u64(v.0) + enc_u64(v.1)
}

pub open spec fn enc_pair16(v: (u16, u16)) -> Seq<u8> {
    enc_u16(v.0) + enc_u16(v.1)
}

/// The bytes of a snapshot.
#[verifier::opaque]
pub open spec fn enc_queue_regs(q: QueueRegs) -> Seq<u8> {
    enc_u32(q.status) + (enc_u32(q.device_features_sel) + (enc_u32(q.driver_features_sel) + (
    enc_pair32(q.driver_features) + (enc_u32(q.queue_sel) + (enc_pair32(q.queue_num) + (enc_pair32(
        q.queue_ready,
    ) + (enc_pair64(q.desc_addr) + (enc_pair64(q.avail_addr) + (enc_pair64(q.used_addr) + (
    enc_pair16(q.last_avail) + enc_u32(q.interrupt_status)))))))))))
}

pub open spec fn dec_pair32(b: Seq<u8>, p: int) -> (u32, u32) {
    (dec_u32(b, p), dec_u32(b, p + 4))
}

pub open spec fn dec_pair64(b: Seq<u8>, p: int) -> (u64, u64) {
    (dec_u64(b, p), dec_u64(b, p + 8))
}

pub open spec fn dec_pair16(b: Seq<u8>, p: int) -> (u16, u16) {
    (dec_u16(b, p), dec_u16(b, p + 2))
}

/// The value found in snapshot bytes.
#[verifier::opaque]
pub open spec fn dec_queue_regs(b: Seq<u8>, p: int) -> QueueRegs {
    QueueRegs {
        status: dec_u32(b, p),
        device_features_sel: dec_u32(b, p + 4),
        driver_features_sel: dec_u32(b, p + 8),
        driver_features: dec_pair32(b, p + 12),
        queue_sel: dec_u32(b, p + 20),
        queue_num: dec_pair32(b, p + 24),
        queue_ready: dec_pair32(b, p + 32),
        desc_addr: dec_pair64(b, p + 40),
        avail_addr: dec_pair64(b, p + 56),
        used_addr: dec_pair64(b, p + 72),
        last_avail: dec_pair16(b, p + 88),
        interrupt_status: dec_u32(b, p + 92),
    }
}

/// The bytes of the input device in a snapshot.
#[verifier::opaque]
pub open spec fn enc_input(d: InputRegs) -> Seq<u8> {
    enc_queue_regs(d.regs) + seq![d.cfg_select, d.cfg_subsel]
}

/// The input device found in snapshot bytes.
#[verifier::opaque]
pub open spec fn dec_input(b: Seq<u8>, p: int) -> InputRegs {
    InputRegs { regs: dec_queue_regs(b, p), cfg_select: b[p + 96], cfg_subsel: b[p + 97] }
}

/// The bytes of the network device in a snapshot.
#[verifier::opaque]
pub open spec fn enc_net(d: NetRegs) -> Seq<u8> {
    seq![d.mac.0, d.mac.1, d.mac.2, d.mac.3, d.mac.4, d.mac.5] + enc_queue_regs(d.regs)
}

/// The network device found in snapshot bytes.
#[verifier::opaque]
pub open spec fn dec_net(b: Seq<u8>, p: int) -> NetRegs {
    NetRegs {
        mac: (b[p], b[p + 1], b[p + 2], b[p + 3], b[p + 4], b[p + 5]),
        regs: dec_queue_regs(b, p + 6),
    }
}

proof fn lemma_pair32(b: Seq<u8>, p: int, v: (u32, u32))
    requires
        at(b, p, enc_pair32(v)),
    ensures
        dec_pair32(b, p) == v,
{
    lemma_at_split(b, p, enc_u32(v.0), enc_u32(v.1));
    lemma_dec_u32(b, p, v.0);
    lemma_dec_u32(b, p + 4, v.1);
}

proof fn lemma_pair64(b: Seq<u8>, p: int, v: (u64, u64))
    requires
        at(b, p, enc_pair64(v)),
    ensures
        dec_pair64(b, p) == v,
{
    lemma_at_split(b, p, enc_u64(v.0), enc_u64(v.1));
    lemma_dec_u64(b, p, v.0);
    lemma_dec_u64(b, p + 8, v.1);
}

proof fn lemma_pair16(b: Seq<u8>, p: int, v: (u16, u16))
    requires
        at(b, p, enc_pair16(v)),
    ensures
        dec_pair16(b, p) == v,
{
    lemma_at_split(b, p, enc_u16(v.0), enc_u16(v.1));
    lemma_dec_u16(b, p, v.0);
    lemma_dec_u16(b, p + 2, v.1);
}

/// Reading back what was written.
pub proof fn lemma_dec_queue_regs(b: Seq<u8>, p: int, q: QueueRegs)
    requires
        at(b, p, enc_queue_regs(q)),
    ensures
        enc_queue_regs(q).len() == 96,
        dec_queue_regs(b, p) == q,
{
    reveal(enc_queue_regs);
    reveal(dec_queue_regs);
    let e11 = enc_pair16(q.last_avail) + enc_u32(q.interrupt_status);
    let e10 = enc_pair64(q.used_addr) + e11;
    let e9 = enc_pair64(q.avail_addr) + e10;
    let e8 = enc_pair64(q.desc_addr) + e9;
    let e7 = enc_pair32(q.queue_ready) + e8;
    let e6 = enc_pair32(q.queue_num) + e7;
    let e5 = enc_u32(q.queue_sel) + e6;
    let e4 = enc_pair32(q.driver_features) + e5;
    let e3 = enc_u32(q.driver_features_sel) + e4;
    let e2 = enc_u32(q.device_features_sel) + e3;
    lemma_at_split(b, p, enc_u32(q.status), e2);
    lemma_at_split(b, p + 4, enc_u32(q.device_features_sel), e3);
    lemma_at_split(b, p + 8, enc_u32(q.driver_features_sel), e4);
    lemma_at_split(b, p + 12, enc_pair32(q.driver_features), e5);
    lemma_at_split(b, p + 20, enc_u32(q.queue_sel), e6);
    lemma_at_split(b, p + 24, enc_pair32(q.queue_num), e7);
    lemma_at_split(b, p + 32, enc_pair32(q.queue_ready), e8);
    lemma_at_split(b, p + 40, enc_pair64(q.desc_addr), e9);
    lemma_at_split(b, p + 56, enc_pair64(q.avail_addr), e10);
    lemma_at_split(b, p + 72, enc_pair64(q.used_addr), e11);
    lemma_at_split(b, p + 88, enc_pair16(q.last_avail), enc_u32(q.interrupt_status));
    lemma_dec_u32(b, p, q.status);
    lemma_dec_u32(b, p + 4, q.device_features_sel);
    lemma_dec_u32(b, p + 8, q.driver_features_sel);
    lemma_pair32(b, p + 12, q.driver_features);
    lemma_dec_u32(b, p + 20, q.queue_sel);
    lemma_pair32(b, p + 24, q.queue_num);
    lemma_pair32(b, p + 32, q.queue_ready);
    lemma_pair64(b, p + 40, q.desc_addr);
    lemma_pair64(b, p + 56, q.avail_addr);
    lemma_pair64(b, p + 72, q.used_addr);
    lemma_pair16(b, p + 88, q.last_avail);
    lemma_dec_u32(b, p + 92, q.interrupt_status);
}

/// Reading back what was written.
pub proof fn lemma_dec_input(b: Seq<u8>, p: int, d: InputRegs)
    requires
        at(b, p, enc_input(d)),
    ensures
        enc_input(d).len() == 98,
        dec_input(b, p) == d,
{
    reveal(enc_input);
    reveal(dec_input);
    let tail = seq![d.cfg_select, d.cfg_subsel];
    lemma_at_split(b, p, enc_queue_regs(d.regs), tail);
    lemma_dec_queue_regs(b, p, d.regs);
    assert(b[p + 96 + 0] == tail[0] && b[p + 96 + 1] == tail[1]);
}

/// Reading back what was written.
pub proof fn lemma_dec_net(b: Seq<u8>, p: int, d: NetRegs)
    requires
        at(b, p, enc_net(d)),
    ensures
        enc_net(d).len() == 102,
        dec_net(b, p) == d,
{
    reveal(enc_net);
    reveal(dec_net);
    let mac = seq![d.mac.0, d.mac.1, d.mac.2, d.mac.3, d.mac.4, d.mac.5];
    lemma_at_split(b, p, mac, enc_queue_regs(d.regs));
    lemma_dec_queue_regs(b, p + 6, d.regs);
    assert(b[p + 0] == mac[0] && b[p + 1] == mac[1] && b[p + 2] == mac[2]);
    assert(b[p + 3] == mac[3] && b[p + 4] == mac[4] && b[p + 5] == mac[5]);
}

impl QueueRegs {
    /// Registers at reset.
    pub fn new() -> (q: QueueRegs)
        ensures
            q == fresh_regs(),
    {
        QueueRegs {
            status: 0,
            device_features_sel: 0,
            driver_features_sel: 0,
            driver_features: (0, 0),
            queue_sel: 0,
            queue_num: (0, 0),
            queue_ready: (0, 0),
            desc_addr: (0, 0),
            avail_addr: (0, 0),
            used_addr: (0, 0),
            last_avail: (0, 0),
            interrupt_status: 0,
        }
    }

    pub fn snap(&self, o: &mut Vec<u8>)
        ensures
            final(o)@ == old(o)@ + enc_queue_regs(*self),
    {
        proof {
            reveal(enc_queue_regs);
        }
        broadcast use lemma_cat;

        put_u32(o, self.status);
        put_u32(o, self.device_features_sel);
        put_u32(o, self.driver_features_sel);
        put_u32(o, self.driver_features.0);
        put_u32(o, self.driver_features.1);
        put_u32(o, self.queue_sel);
        put_u32(o, self.queue_num.0);
        put_u32(o, self.queue_num.1);
        put_u32(o, self.queue_ready.0);
        put_u32(o, self.queue_ready.1);
        put_u64(o, self.desc_addr.0);
        put_u64(o, self.desc_addr.1);
        put_u64(o, self.avail_addr.0);
        put_u64(o, self.avail_addr.1);
        put_u64(o, self.used_addr.0);
        put_u64(o, self.used_addr.1);
        put_u16(o, self.last_avail.0);
        put_u16(o, self.last_avail.1);
        put_u32(o, self.interrupt_status);
    }

    pub fn unsnap(s: &mut Snap) -> (r: Option<QueueRegs>)
        requires
            old(s).wf(),
        ensures
            final(s).wf(),
            final(s).b@ == old(s).b@,
            match r {
                Some(x) => old(s).has(96) && x == dec_queue_regs(old(s).b@, old(s).p as int)
                    && final(s).moved(old(s), 96),
                None => !old(s).has(96),
            },
    {
        proof {
            reveal(dec_queue_regs);
        }
        let status: u32 = s.u32()?;
        let device_features_sel: u32 = s.u32()?;
        let driver_features_sel: u32 = s.u32()?;
        let driver_features: (u32, u32) = (s.u32()?, s.u32()?);
        let queue_sel: u32 = s.u32()?;
        let queue_num: (u32, u32) = (s.u32()?, s.u32()?);
        let queue_ready: (u32, u32) = (s.u32()?, s.u32()?);
        let desc_addr: (u64, u64) = (s.u64()?, s.u64()?);
        let avail_addr: (u64, u64) = (s.u64()?, s.u64()?);
        let used_addr: (u64, u64) = (s.u64()?, s.u64()?);
        let last_avail: (u16, u16) = (s.u16()?, s.u16()?);
        let interrupt_status: u32 = s.u32()?;
        Some(
            QueueRegs {
                status,
                device_features_sel,
                driver_features_sel,
                driver_features,
                queue_sel,
                queue_num,
                queue_ready,
                desc_addr,
                avail_addr,
                used_addr,
                last_avail,
                interrupt_status,
            },
        )
    }
}

impl InputRegs {
    pub fn snap(&self, o: &mut Vec<u8>)
        ensures
            final(o)@ == old(o)@ + enc_input(*self),
    {
        proof {
            reveal(enc_input);
        }
        self.regs.snap(o);
        o.push(self.cfg_select);
        o.push(self.cfg_subsel);
        assert(o@ =~= old(o)@ + enc_input(*self));
    }

    pub fn unsnap(s: &mut Snap) -> (r: Option<InputRegs>)
        requires
            old(s).wf(),
        ensures
            final(s).wf(),
            final(s).b@ == old(s).b@,
            match r {
                Some(x) => old(s).has(98) && x == dec_input(old(s).b@, old(s).p as int)
                    && final(s).moved(old(s), 98),
                None => !old(s).has(98),
            },
    {
        proof {
            reveal(dec_input);
        }
        let regs: QueueRegs = QueueRegs::unsnap(s)?;
        let cfg_select: u8 = s.u8()?;
        let cfg_subsel: u8 = s.u8()?;
        Some(InputRegs { regs, cfg_select, cfg_subsel })
    }
}

impl NetRegs {
    pub fn snap(&self, o: &mut Vec<u8>)
        ensures
            final(o)@ == old(o)@ + enc_net(*self),
    {
        proof {
            reveal(enc_net);
        }
        broadcast use lemma_cat;

        o.push(self.mac.0);
        o.push(self.mac.1);
        o.push(self.mac.2);
        o.push(self.mac.3);
        o.push(self.mac.4);
        o.push(self.mac.5);
        assert(o@ =~= old(o)@ + seq![
            self.mac.0,
            self.mac.1,
            self.mac.2,
            self.mac.3,
            self.mac.4,
            self.mac.5,
        ]);
        self.regs.snap(o);
    }

    pub fn unsnap(s: &mut Snap) -> (r: Option<NetRegs>)
        requires
            old(s).wf(),
        ensures
            final(s).wf(),
            final(s).b@ == old(s).b@,
            match r {
                Some(x) => old(s).has(102) && x == dec_net(old(s).b@, old(s).p as int)
                    && final(s).moved(old(s), 102),
                None => !old(s).has(102),
            },
    {
        proof {
            reveal(dec_net);
        }
        let mac: (u8, u8, u8, u8, u8, u8) = (s.u8()?, s.u8()?, s.u8()?, s.u8()?, s.u8()?, s.u8()?);
        let regs: QueueRegs = QueueRegs::unsnap(s)?;
        Some(NetRegs { mac, regs })
    }
}

} // verus!
