//! What the host sees of the machine: memory, registers, console, framebuffer, input, and the
//! devices it serves.
use vstd::prelude::*;
use vstd::slice::{slice_subrange, slice_to_vec};
use crate::boot::FB_SIZE;
use crate::cpu::{Config, Cpu, RSP};
use crate::virtio::{
    InputEvent, InputRegs, MmioWrite, NetRegs, Slot, VIRTIO_9P_BASE, VIRTIO_BLK_BASE,
    VIRTIO_INPUT_END, VIRTIO_NET_BASE,
};
#[allow(unused_imports)]
use crate::boot::fb_base_of;
#[allow(unused_imports)]
use crate::cpu::CpuState;
#[allow(unused_imports)]
use crate::kappa::put_at;
#[allow(unused_imports)]
use crate::mmu::{table_entry, virt_read};
#[allow(unused_imports)]
use crate::sys::{sys_input, sys_mmio_read, sys_mmio_write, sys_raise, SysState};
#[allow(unused_imports)]
use crate::uart::UartState;
#[allow(unused_imports)]
use crate::virtio::{slot_base, slot_irq};

verus! {

/// Switch the shortcuts of the interpreter (bulk string operations, indirect-call thunks) on or off.
pub fn set_fastpaths(cfg: &mut Config, on: bool)
    ensures
        *final(cfg) == (Config { fastpaths: on, ..*old(cfg) }),
{
    cfg.fastpaths = on;
}

/// The bytes read from linear memory, one by one.
pub open spec fn peeked(s: CpuState, vaddr: u64, n: nat) -> Seq<u8> {
    Seq::new(n, |i: int| virt_read(s, vaddr.wrapping_add(i as u64), 1) as u8)
}

/// Terminal input received; the console interrupt is raised where the driver asked for it.
pub open spec fn console_fed(s: SysState, bytes: Seq<u8>) -> SysState {
    let t = SysState { uart: UartState { input: s.uart.input + bytes, ..s.uart }, ..s };
    if s.uart.ier & 0x01 != 0 {
        sys_raise(t, 4)
    } else {
        t
    }
}

/// The events of a pointer motion: the axes that moved.
pub open spec fn motion_events(dx: i32, dy: i32) -> Seq<InputEvent> {
    let x = InputEvent { kind: 2, code: 0, value: dx };
    let y = InputEvent { kind: 2, code: 1, value: dy };
    if dx != 0 && dy != 0 {
        seq![x, y]
    } else if dx != 0 {
        seq![x]
    } else if dy != 0 {
        seq![y]
    } else {
        Seq::empty()
    }
}

/// The machine with its platform replaced.
pub open spec fn with_sys(s: CpuState, sys: SysState) -> CpuState {
    CpuState { sys, ..s }
}

/// The same, where there is a platform; a machine without one stays as it is.
pub open spec fn on_platform(s: CpuState, sys: SysState) -> CpuState {
    if s.platform {
        with_sys(s, sys)
    } else {
        s
    }
}

/// What was written to the framebuffer is what it shows; the rest of memory stays.
pub proof fn law_framebuffer(ram: Seq<u8>, bytes: Seq<u8>)
    requires
        bytes.len() <= ram.len() - fb_base_of(ram.len() as u64),
        ram.len() <= u64::MAX,
    ensures
        ({
            let base = fb_base_of(ram.len() as u64) as int;
            let after = put_at(ram, base, bytes);
            &&& after.subrange(base, ram.len() as int).take(bytes.len() as int) == bytes
            &&& after.take(base) == ram.take(base)
            &&& after.len() == ram.len()
        }),
{
    let base = fb_base_of(ram.len() as u64) as int;
    let after = put_at(ram, base, bytes);
    assert(after.subrange(base, ram.len() as int).take(bytes.len() as int) =~= bytes);
    assert(after.take(base) =~= ram.take(base));
}

impl Cpu {
    fn put_ram(&mut self, at: usize, bytes: &[u8])
        requires
            at <= old(self)@.ram.len(),
        ensures
            final(self)@ == (CpuState {
                ram: put_at(old(self)@.ram, at as int, bytes@),
                ..old(self)@
            }),
    {
        let total: usize = self.ram.len();
        let n: usize = if bytes.len() <= total - at { bytes.len() } else { total - at };
        let mut i: usize = 0;
        while i < n
            invariant
                i <= n,
                n <= bytes@.len(),
                at + n <= total,
                total == old(self)@.ram.len(),
                self@ == (CpuState { ram: self@.ram, ..old(self)@ }),
                self@.ram.len() == total,
                forall|k: int| 0 <= k < total ==> self@.ram[k] == (if at <= k < at + i {
                    bytes@[k - at]
                } else {
                    old(self)@.ram[k]
                }),
            decreases n - i,
        {
            self.ram[at + i] = bytes[i];
            i = i + 1;
        }
        assert(self@.ram =~= put_at(old(self)@.ram, at as int, bytes@));
    }

    /// Put code at a physical address, as far as it fits, and set the instruction pointer to it and
    /// the stack to the top of memory.
    pub fn load_at(&mut self, addr: u64, image: &[u8])
        requires
            addr <= old(self)@.ram.len(),
        ensures
            final(self)@ == (CpuState {
                ram: put_at(old(self)@.ram, addr as int, image@),
                rip: addr,
                r: old(self)@.r.update(4, old(self)@.ram.len() as u64),
                ..old(self)@
            }),
    {
        let total: usize = self.ram.len();
        self.put_ram(addr as usize, image);
        self.rip = addr;
        self.r[RSP] = total as u64;
    }

    /// What the guest wrote to the serial console.
    pub fn console(&self) -> (b: &[u8])
        ensures
            b@ == self@.sys.uart.output,
    {
        self.sys.uart.output.as_slice()
    }

    /// Bytes of linear memory, through the current page tables.
    pub fn peek_code(&self, vaddr: u64, n: usize) -> (v: Vec<u8>)
        ensures
            v@ == peeked(self@, vaddr, n as nat),
    {
        let mut v: Vec<u8> = Vec::new();
        let mut i: usize = 0;
        while i < n
            invariant
                i <= n,
                v@ =~= peeked(self@, vaddr, i as nat),
            decreases n - i,
        {
            let w: u64 = self.rd_virt(vaddr.wrapping_add(i as u64), 1);
            v.push(w as u8);
            i = i + 1;
        }
        v
    }

    /// The physical base of the framebuffer: the top of memory.
    pub fn fb_phys_base(&self) -> (b: u64)
        ensures
            b == fb_base_of(self@.ram.len() as u64),
            b <= self@.ram.len(),
    {
        let n: usize = self.ram.len();
        if n >= FB_SIZE {
            (n - FB_SIZE) as u64
        } else {
            0
        }
    }

    /// The framebuffer.
    pub fn read_framebuffer(&self) -> (v: Vec<u8>)
        ensures
            v@ == self@.ram.subrange(
                fb_base_of(self@.ram.len() as u64) as int,
                self@.ram.len() as int,
            ),
    {
        let n: usize = self.ram.len();
        let from: usize = self.fb_phys_base() as usize;
        slice_to_vec(slice_subrange(self.ram.as_slice(), from, n))
    }

    /// Write to the framebuffer from its start, as far as it reaches.
    pub fn write_framebuffer(&mut self, bytes: &[u8])
        ensures
            final(self)@ == (CpuState {
                ram: put_at(
                    old(self)@.ram,
                    fb_base_of(old(self)@.ram.len() as u64) as int,
                    bytes@,
                ),
                ..old(self)@
            }),
    {
        let _n: usize = self.ram.len();
        let from: usize = self.fb_phys_base() as usize;
        self.put_ram(from, bytes);
    }

    /// Guest memory.
    pub fn ram(&self) -> (b: &[u8])
        ensures
            b@ == self@.ram,
    {
        self.ram.as_slice()
    }

    /// Feed terminal input to the serial console.
    pub fn feed_console(&mut self, bytes: &[u8])
        ensures
            final(self)@ == on_platform(old(self)@, console_fed(old(self)@.sys, bytes@)),
    {
        if self.platform {
            self.sys.uart.input.extend_from_slice(bytes);
            assert(self.sys.uart.input@ =~= old(self).sys.uart.input@ + bytes@);
            if self.sys.uart.ier & 0x01 != 0 {
                self.sys.pic.raise(4);
            }
        }
    }

    /// A general-purpose register.
    pub fn reg(&self, i: usize) -> (v: u64)
        ensures
            v == self@.r[i as int % 16],
    {
        self.r[i % 16]
    }

    pub fn rflags(&self) -> (v: u64)
        ensures
            v == self@.rflags,
    {
        self.rflags
    }

    pub fn rip(&self) -> (v: u64)
        ensures
            v == self@.rip,
    {
        self.rip
    }

    /// The general-purpose registers.
    pub fn regs(&self) -> (v: [u64; 16])
        ensures
            v@ == self@.r,
    {
        self.r
    }

    /// Retired instructions.
    pub fn insns(&self) -> (n: u64)
        ensures
            n == self@.insns,
    {
        self.insns
    }

    // ----- devices -----

    /// Attach a disk; its contents stay with the host, which gives the device's state.
    pub fn attach_disk(&mut self, disk: Vec<u8>)
        ensures
            final(self)@ == on_platform(
                old(self)@,
                (SysState { disk: Some(disk@), ..old(self)@.sys }),
            ),
    {
        if self.platform {
            self.sys.disk = Some(disk);
        }
    }

    /// Attach the workspace filesystem; its files stay with the host.
    pub fn attach_workspace(&mut self)
        ensures
            final(self)@ == on_platform(old(self)@, (SysState { p9: true, ..old(self)@.sys })),
    {
        if self.platform {
            self.sys.p9 = true;
        }
    }

    /// Attach the input device with the given registers.
    pub fn attach_virtio_input(&mut self, regs: InputRegs)
        ensures
            final(self)@ == on_platform(
                old(self)@,
                (SysState { input: Some(regs), ..old(self)@.sys }),
            ),
    {
        if self.platform {
            self.sys.input = Some(regs);
        }
    }

    /// Attach the network device with the given registers; its transports stay with the host.
    pub fn attach_net(&mut self, regs: NetRegs)
        ensures
            final(self)@ == on_platform(old(self)@, (SysState { net: Some(regs), ..old(self)@.sys })),
    {
        if self.platform {
            self.sys.net = Some(regs);
        }
    }

    /// The registers of a network device that a snapshot gave back, for the host to go on from;
    /// `None` where there is none.
    pub fn reattach_net_forward(&self) -> (r: Option<NetRegs>)
        ensures
            r == (if self@.platform { self@.sys.net } else { None }),
    {
        if self.platform {
            self.sys.net
        } else {
            None
        }
    }

    /// The device writes that wait for the host, oldest first; none stays.
    pub fn take_writes(&mut self) -> (w: Vec<MmioWrite>)
        ensures
            w@ == old(self)@.sys.outbox,
            final(self)@ == with_sys(
                old(self)@,
                (SysState { outbox: Seq::empty(), ..old(self)@.sys }),
            ),
    {
        let mut w: Vec<MmioWrite> = Vec::new();
        std::mem::swap(&mut w, &mut self.sys.outbox);
        w
    }

    /// Set what a device register reads as.
    pub fn set_register(&mut self, slot: Slot, off: usize, value: u64)
        requires
            off < 0x200,
            old(self)@.sys.mmio.len() == 0x800,
        ensures
            final(self)@ == with_sys(
                old(self)@,
                (SysState {
                    mmio: old(self)@.sys.mmio.update(
                        slot_base(slot) - VIRTIO_BLK_BASE + off,
                        value,
                    ),
                    ..old(self)@.sys
                }),
            ),
    {
        let i: usize = (slot.base() - VIRTIO_BLK_BASE) as usize + off;
        self.sys.mmio[i] = value;
    }

    /// A device has done its work: its interrupt is raised if it has one for the guest.
    pub fn device_served(&mut self, slot: Slot, raise: bool)
        requires
            old(self)@.platform,
        ensures
            final(self)@ == (if raise {
                with_sys(old(self)@, sys_raise(old(self)@.sys, slot_irq(slot)))
            } else {
                old(self)@
            }),
    {
        if raise {
            let n: u8 = slot.irq();
            self.sys.pic.raise(n);
        }
    }

    // ----- input -----

    fn push_events(&mut self, a: Option<InputEvent>, b: Option<InputEvent>)
        ensures
            ({
                let l = if a is Some { seq![a->0] } else { Seq::empty() };
                let m = if b is Some { l.push(b->0) } else { l };
                final(self)@ == with_sys(old(self)@, sys_input(old(self)@.sys, m))
            }),
    {
        let ghost e = self.sys.events@;
        let ghost l = if a is Some { seq![a->0] } else { Seq::empty() };
        let ghost m = if b is Some { l.push(b->0) } else { l };
        if self.sys.input.is_some() {
            match a {
                Some(x) => self.sys.events.push(x),
                None => {},
            }
            match b {
                Some(x) => self.sys.events.push(x),
                None => {},
            }
            self.sys.events.push(InputEvent { kind: 0, code: 0, value: 0 });
            assert(self.sys.events@ =~= e + m.push(InputEvent { kind: 0, code: 0, value: 0 }));
        }
    }

    /// Queue a key or button event and its report. Without an input device nothing happens.
    pub fn input_key(&mut self, code: u16, down: bool)
        requires
            old(self)@.platform,
        ensures
            final(self)@ == with_sys(
                old(self)@,
                sys_input(
                    old(self)@.sys,
                    seq![InputEvent { kind: 1, code, value: if down { 1 } else { 0 } }],
                ),
            ),
    {
        let value: i32 = if down { 1 } else { 0 };
        self.push_events(Some(InputEvent { kind: 1, code, value }), None);
    }

    /// Queue a pointer motion and its report.
    pub fn input_motion(&mut self, dx: i32, dy: i32)
        requires
            old(self)@.platform,
        ensures
            final(self)@ == with_sys(
                old(self)@,
                sys_input(old(self)@.sys, motion_events(dx, dy)),
            ),
    {
        let x: Option<InputEvent> = if dx != 0 {
            Some(InputEvent { kind: 2, code: 0, value: dx })
        } else {
            None
        };
        let y: Option<InputEvent> = if dy != 0 {
            Some(InputEvent { kind: 2, code: 1, value: dy })
        } else {
            None
        };
        proof {
            let l = if x is Some { seq![x->0] } else { Seq::empty() };
            let m = if y is Some { l.push(y->0) } else { l };
            assert(m =~= motion_events(dx, dy));
        }
        self.push_events(x, y);
    }

    /// Queue a step of the wheel and its report.
    pub fn input_wheel(&mut self, clicks: i32)
        requires
            old(self)@.platform,
        ensures
            final(self)@ == with_sys(
                old(self)@,
                sys_input(
                    old(self)@.sys,
                    seq![InputEvent { kind: 2, code: 8, value: clicks }],
                ),
            ),
    {
        self.push_events(Some(InputEvent { kind: 2, code: 8, value: clicks }), None);
    }

    /// The input events that wait for the host, oldest first; none stays.
    pub fn take_events(&mut self) -> (e: Vec<InputEvent>)
        ensures
            e@ == old(self)@.sys.events,
            final(self)@ == with_sys(
                old(self)@,
                (SysState { events: Seq::empty(), ..old(self)@.sys }),
            ),
    {
        let mut e: Vec<InputEvent> = Vec::new();
        std::mem::swap(&mut e, &mut self.sys.events);
        e
    }

    // ----- driving devices without a guest -----

    /// A device store at a physical address, as the guest's driver makes it. Outside the device
    /// window nothing happens.
    pub fn vv_mmio_write(&mut self, pa: u64, value: u64)
        requires
            old(self)@.platform,
        ensures
            final(self)@ == with_sys(old(self)@, sys_mmio_write(old(self)@.sys, pa, value)),
    {
        if VIRTIO_BLK_BASE <= pa && pa < VIRTIO_INPUT_END {
            self.sys.mmio_write(pa, value);
        }
    }

    /// A device load at a physical address; outside the device window it reads zero.
    pub fn vv_mmio_read(&self, pa: u64) -> (v: u64)
        requires
            self@.platform,
        ensures
            v == sys_mmio_read(self@.sys, pa),
    {
        if VIRTIO_BLK_BASE <= pa && pa < VIRTIO_INPUT_END {
            self.sys.mmio_read(pa)
        } else {
            0
        }
    }

    /// Write to guest memory at a physical address.
    pub fn vv_ram_write(&mut self, pa: u64, bytes: &[u8])
        requires
            pa + bytes@.len() <= old(self)@.ram.len(),
        ensures
            final(self)@ == (CpuState {
                ram: put_at(old(self)@.ram, pa as int, bytes@),
                ..old(self)@
            }),
    {
        let _n: usize = self.ram.len();
        self.put_ram(pa as usize, bytes);
    }

    /// Read guest memory at a physical address.
    pub fn vv_ram_read(&self, pa: u64, len: usize) -> (v: Vec<u8>)
        requires
            pa + len <= self@.ram.len(),
        ensures
            v@ == self@.ram.subrange(pa as int, pa + len),
    {
        let _n: usize = self.ram.len();
        slice_to_vec(slice_subrange(self.ram.as_slice(), pa as usize, pa as usize + len))
    }

    /// The top two page-table entries of an address; the second only where the first is present.
    pub fn vv_dbg(&self, vaddr: u64) -> (r: (u64, Option<u64>))
        ensures
            r.0 == table_entry(self@.ram, self@.cr3, vaddr, 3),
            r.1 == (if r.0 & 1 == 0 {
                None
            } else {
                Some(table_entry(self@.ram, r.0, vaddr, 2))
            }),
    {
        let e4: u64 = self.entry(self.cr3, vaddr, 3);
        if e4 & 1 == 0 {
            return (e4, None);
        }
        (e4, Some(self.entry(e4, vaddr, 2)))
    }

    pub fn vv_virtio_9p_base() -> (a: u64)
        ensures
            a == slot_base(Slot::P9),
    {
        VIRTIO_9P_BASE
    }

    pub fn vv_virtio_net_base() -> (a: u64)
        ensures
            a == slot_base(Slot::Net),
    {
        VIRTIO_NET_BASE
    }

    pub fn vv_virtio_blk_base() -> (a: u64)
        ensures
            a == slot_base(Slot::Blk),
    {
        VIRTIO_BLK_BASE
    }
}

} // verus!
