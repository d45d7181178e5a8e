//! The machine around the core: booting, the framebuffer, devices, time, and statistics.
use holospaces::boot::{
    build_memory_map, can_boot, load_elf64, CMDLINE_ADDR, FB_H, FB_SIZE, FB_W, ZERO_PAGE,
};
use holospaces::cpu::{Cpu, Halt, RAX, RBX, RCX, RDI, RDX, RSI, RSP};
use holospaces::jit::Jit;
use holospaces::machine::set_fastpaths;
use holospaces::profile::{
    drain_blockprof, drain_exc_trace, drain_hotprof, drain_ophist, drain_user_pages, reset_ophist,
    reset_user_insns, set_blockprof, user_insns_seen, Prof,
};
use holospaces::run::{Event, Run};
use holospaces::step::Step;
use holospaces::virtio::{
    InputRegs, MmioWrite, NetRegs, Notice, QueueRegs, Slot, Work, VIRTIO_9P_BASE, VIRTIO_BLK_BASE,
    VIRTIO_NET_BASE,
};

fn drive(cpu: &mut Cpu, n: u64) -> Halt {
    match cpu.run(&mut Jit::new(), &mut Run::new(n)) {
        Event::Halt(h) => h,
        _ => panic!("the host has nothing to do here"),
    }
}

/// The framebuffer lies at the top of memory, and gives back what was written.
#[test]
fn x64_framebuffer_reserved_at_top_of_ram() {
    let ram = 64 * 1024 * 1024;
    let mut cpu = Cpu::new(ram);
    assert_eq!(FB_SIZE, FB_W * FB_H * 4);
    assert_eq!(cpu.fb_phys_base(), (ram - FB_SIZE) as u64);
    let mut pat = vec![0u8; FB_SIZE];
    for (i, b) in pat.iter_mut().enumerate() {
        *b = (i as u8).wrapping_mul(31).wrapping_add(7);
    }
    cpu.write_framebuffer(&pat);
    assert_eq!(cpu.read_framebuffer(), pat, "framebuffer round-trips");
    let base = cpu.fb_phys_base() as usize;
    assert_eq!(&cpu.ram()[base..base + FB_SIZE], &pat[..]);
}

/// The zero page describes the framebuffer, and the memory map reserves it.
#[test]
fn x64_boot_params_advertise_framebuffer() {
    let ram = 128 * 1024 * 1024u64;
    let mut cpu = Cpu::new(ram as usize);
    cpu.build_boot_params(ram);
    let zp = ZERO_PAGE as usize;
    let r = cpu.ram();
    let u16at = |o: usize| u16::from_le_bytes(r[zp + o..zp + o + 2].try_into().unwrap());
    let u32at = |o: usize| u32::from_le_bytes(r[zp + o..zp + o + 4].try_into().unwrap());
    let fb_base = (ram as usize - FB_SIZE) as u32;
    assert_eq!(r[zp + 0x0f], 0x70, "orig_video_isVGA = VIDEO_TYPE_EFI");
    assert_eq!(u16at(0x12), FB_W as u16, "lfb_width");
    assert_eq!(u16at(0x14), FB_H as u16, "lfb_height");
    assert_eq!(u16at(0x16), 32, "lfb_depth");
    assert_eq!(u32at(0x18), fb_base, "lfb_base = fb_phys_base");
    assert_eq!(u16at(0x24), (FB_W * 4) as u16, "lfb_linelength");
    let n = r[zp + 0x1e8] as usize;
    let mut found_fb = false;
    let mut covers_fb_as_ram = false;
    for i in 0..n {
        let off = zp + 0x2d0 + i * 20;
        let addr = u64::from_le_bytes(r[off..off + 8].try_into().unwrap());
        let size = u64::from_le_bytes(r[off + 8..off + 16].try_into().unwrap());
        let ty = u32::from_le_bytes(r[off + 16..off + 20].try_into().unwrap());
        if ty == 2 && addr == u64::from(fb_base) && size == FB_SIZE as u64 {
            found_fb = true;
        }
        if ty == 1 && addr <= u64::from(fb_base) && addr + size > u64::from(fb_base) {
            covers_fb_as_ram = true;
        }
    }
    assert!(found_fb, "e820 reserves the framebuffer region");
    assert!(!covers_fb_as_ram, "no usable-RAM e820 entry overlaps the framebuffer");
}

/// The map of a machine with more than four gigabytes keeps its framebuffer out of usable memory.
#[test]
fn a_large_memory_map_reserves_the_framebuffer() {
    let ram = 0x1_8000_0000u64;
    let fb = ram - FB_SIZE as u64;
    for (a, n, kind) in build_memory_map(ram) {
        assert!(kind == 2 || a + n <= fb || a >= ram);
    }
}

/// A 64-bit image with one loadable segment.
fn elf(entry: u64, at: u64, code: &[u8], memsz: u64) -> Vec<u8> {
    let mut e = vec![0u8; 64 + 56];
    e[0..4].copy_from_slice(b"\x7fELF");
    e[4] = 2;
    e[24..32].copy_from_slice(&entry.to_le_bytes());
    e[32..40].copy_from_slice(&64u64.to_le_bytes());
    e[54..56].copy_from_slice(&56u16.to_le_bytes());
    e[56..58].copy_from_slice(&1u16.to_le_bytes());
    let ph = 64;
    e[ph..ph + 4].copy_from_slice(&1u32.to_le_bytes());
    e[ph + 8..ph + 16].copy_from_slice(&120u64.to_le_bytes());
    e[ph + 24..ph + 32].copy_from_slice(&at.to_le_bytes());
    e[ph + 32..ph + 40].copy_from_slice(&(code.len() as u64).to_le_bytes());
    e[ph + 40..ph + 48].copy_from_slice(&memsz.to_le_bytes());
    e.extend_from_slice(code);
    e
}

/// A kernel image boots in long mode with its command line and the zero page at hand.
#[test]
fn a_kernel_image_boots() {
    // mov al,[rsi+0x211]; mov dx,0x3f8; mov al,'!'; out dx,al; hlt
    let code = [0x8a, 0x86, 0x11, 0x02, 0, 0, 0x88, 0xc3, 0x66, 0xba, 0xf8, 0x03, 0xb0, b'!', 0xee, 0xf4];
    let image = elf(0x100_0000, 0x100_0000, &code, 0x1000);
    let ram = 32 * 1024 * 1024;
    assert!(can_boot(ram, &image, "console=ttyS0"));
    let mut cpu = Cpu::boot_linux(ram, &image, "console=ttyS0");
    assert!(cpu.ready());
    assert_eq!((cpu.rip(), cpu.reg(RSI)), (0x100_0000, ZERO_PAGE));
    let line = CMDLINE_ADDR as usize;
    assert_eq!(&cpu.ram()[line..line + 14], b"console=ttyS0\0");
    assert_eq!(drive(&mut cpu, 100), Halt::Halted);
    assert_eq!(cpu.console(), b"!");
    assert_eq!(cpu.reg(RBX) & 0xff, 0x81, "loadflags through the identity map");

    assert!(!can_boot(0x10_0000, &image, ""), "no room for the legacy region");
    assert!(!can_boot(ram, b"not an image", ""));
    assert!(!can_boot(0x100_0000, &image, ""), "the segment does not fit");
    assert!(!can_boot(ram, &image[..100], ""), "a truncated image");

    let disk = Cpu::boot_linux_disk(ram, &image, vec![1, 2, 3], "");
    assert_eq!(disk.sys.disk, Some(vec![1, 2, 3]));
}

/// Loading copies the file part of a segment and clears the rest of it.
#[test]
fn loading_clears_the_rest_of_a_segment() {
    let image = elf(0x42, 0x100, &[1, 2, 3], 8);
    let mut ram = vec![0xffu8; 0x1000];
    assert_eq!(load_elf64(&mut ram, &image), 0x42);
    assert_eq!(ram[0xff..0x109], [0xff, 1, 2, 3, 0, 0, 0, 0, 0, 0xff]);
}

fn regs() -> QueueRegs {
    QueueRegs::new()
}

/// A guest store to a device comes to the host, and the host's answer to the guest.
#[test]
fn device_registers_go_through_the_host() {
    let mut cpu = Cpu::new(64 * 1024);
    cpu.attach_net(NetRegs { mac: (2, 0, 0, 0, 0, 1), regs: regs() });
    // mov rbx, VIRTIO_NET_BASE + 0x70; mov dword [rbx], 5; mov eax, [rbx]; hlt
    let mut code = vec![0x48, 0xbb];
    code.extend((VIRTIO_NET_BASE + 0x70).to_le_bytes());
    code.extend([0xc7, 0x03, 5, 0, 0, 0, 0x8b, 0x03, 0xf4]);
    cpu.load_at(0, &code);
    cpu.rflags = 0x2;
    let mut jit = Jit::new();
    let mut run = Run::new(100);
    let mut pumps = 0;
    loop {
        match cpu.run(&mut jit, &mut run) {
            Event::Halt(h) => {
                assert_eq!(h, Halt::Halted);
                break;
            },
            Event::Pump => pumps += 1,
            Event::Devices => {
                assert_eq!(cpu.take_writes(), vec![MmioWrite { slot: Slot::Net, off: 0x70, value: 5 }]);
                cpu.set_register(Slot::Net, 0x70, 0xb);
                cpu.device_served(Slot::Net, true);
            },
            _ => panic!("no arithmetic, no compiler"),
        }
    }
    assert_eq!(pumps, 1);
    assert_eq!(cpu.reg(RAX), 0xb);
    assert_eq!(cpu.vv_mmio_read(VIRTIO_NET_BASE + 0x70), 0xb);
    assert_eq!(cpu.vv_mmio_read(VIRTIO_NET_BASE + 0x74), 0);
    assert_eq!(cpu.sys.pic.request & 1 << 12, 1 << 12);
    assert_eq!(cpu.reattach_net_forward().map(|n| n.mac), Some((2, 0, 0, 0, 0, 1)));
    assert_eq!(Cpu::vv_virtio_net_base(), VIRTIO_NET_BASE);
    assert_eq!(Cpu::vv_virtio_9p_base(), VIRTIO_9P_BASE);
    assert_eq!(Cpu::vv_virtio_blk_base(), VIRTIO_BLK_BASE);
}

/// A notified queue makes work for its device only, and a device without an interrupt raises none.
#[test]
fn notices_make_work() {
    assert_eq!(Slot::Blk.work(Notice::Queue), vec![Work::Sectors]);
    assert_eq!(Slot::P9.work(Notice::Queue), vec![Work::Files]);
    assert_eq!(Slot::Net.work(Notice::Transmit), vec![Work::Send, Work::Pump]);
    assert_eq!(Slot::Net.work(Notice::Receive), vec![Work::Pump]);
    assert_eq!(Slot::Input.work(Notice::Input(0)), vec![Work::Events]);
    assert_eq!(Slot::Input.work(Notice::Input(1)), vec![Work::Status]);
    assert_eq!(Slot::Blk.work(Notice::Quiet), vec![]);
    assert_eq!(Slot::Net.work(Notice::Queue), vec![]);
    let mut cpu = Cpu::new(64 * 1024);
    cpu.device_served(Slot::Input, false);
    assert_eq!(cpu.sys.pic.request, 0);
    cpu.device_served(Slot::Input, true);
    assert_eq!(cpu.sys.pic.request, 1 << 5);
}

/// A device is served before the budget ends the run.
#[test]
fn devices_are_served_within_the_budget() {
    let mut cpu = Cpu::new(64 * 1024);
    cpu.attach_disk(vec![0; 512]);
    // mov dword [rbx],5
    cpu.load_at(0, &[0xc7, 0x03, 5, 0, 0, 0]);
    cpu.r[RBX] = VIRTIO_BLK_BASE + 0x50;
    let mut jit = Jit::new();
    let mut run = Run::new(1);
    assert!(matches!(cpu.run(&mut jit, &mut run), Event::Devices));
    assert_eq!(cpu.take_writes(), vec![MmioWrite { slot: Slot::Blk, off: 0x50, value: 5 }]);
    assert!(matches!(cpu.run(&mut jit, &mut run), Event::Halt(Halt::OutOfBudget)));
}

/// A store to a slot without a device goes nowhere.
#[test]
fn absent_devices_take_no_writes() {
    let mut cpu = Cpu::new(64 * 1024);
    cpu.vv_mmio_write(VIRTIO_BLK_BASE + 0x50, 1);
    assert_eq!(cpu.take_writes(), vec![]);
    cpu.attach_disk(vec![0; 512]);
    cpu.attach_workspace();
    cpu.vv_mmio_write(VIRTIO_BLK_BASE + 0x50, 1);
    cpu.vv_mmio_write(VIRTIO_9P_BASE + 0x50, 2);
    assert_eq!(
        cpu.take_writes(),
        vec![
            MmioWrite { slot: Slot::Blk, off: 0x50, value: 1 },
            MmioWrite { slot: Slot::P9, off: 0x50, value: 2 },
        ]
    );
    cpu.vv_ram_write(0x100, &[1, 2, 3]);
    assert_eq!(cpu.vv_ram_read(0xff, 5), vec![0, 1, 2, 3, 0]);
}

/// Input events are queued with their report, where there is an input device.
#[test]
fn input_events_are_queued_with_their_report() {
    let mut cpu = Cpu::new(64 * 1024);
    cpu.input_key(30, true);
    assert!(cpu.take_events().is_empty());
    cpu.attach_virtio_input(InputRegs { regs: regs(), cfg_select: 0, cfg_subsel: 0 });
    cpu.input_key(30, true);
    cpu.input_motion(3, 0);
    cpu.input_wheel(-1);
    let got: Vec<(u16, u16, i32)> = cpu.take_events().iter().map(|e| (e.kind, e.code, e.value)).collect();
    assert_eq!(got, vec![(1, 30, 1), (0, 0, 0), (2, 0, 3), (0, 0, 0), (2, 8, -1), (0, 0, 0)]);
    assert!(cpu.take_events().is_empty());
}

/// Typed characters come to the guest.
#[test]
fn console_input_reaches_the_guest() {
    let mut cpu = Cpu::new(64 * 1024);
    cpu.feed_console(b"k");
    // mov dx,0x3f8; in al,dx; out dx,al; hlt
    cpu.load_at(0, &[0x66, 0xba, 0xf8, 0x03, 0xec, 0xee, 0xf4]);
    cpu.rflags = 0x2;
    assert_eq!(drive(&mut cpu, 100), Halt::Halted);
    assert_eq!(cpu.console(), b"k");
    assert_eq!(cpu.peek_code(4, 3), vec![0xec, 0xee, 0xf4]);
}

/// A timer interrupt wakes a halted guest, which returns from its handler to where it was.
#[test]
fn a_timer_interrupt_is_delivered_and_returned_from() {
    let mut cpu = Cpu::new(64 * 1024);
    // An interrupt descriptor for vector 0x20, with code selector 0x10.
    let at = 0x3000 + 0x20 * 16;
    let entry: u64 = 0x4000 | 0x10 << 16 | 0x8e00 << 32;
    cpu.ram[at..at + 8].copy_from_slice(&entry.to_le_bytes());
    cpu.sys.idtr = (0x3000, 0xfff);
    // Handler: inc rbx; mov al,0x20; out 0x20,al; iretq
    cpu.load_at(0x4000, &[0x48, 0xff, 0xc3, 0xb0, 0x20, 0xe6, 0x20, 0x48, 0xcf]);
    // Main: hlt; cli; hlt
    cpu.load_at(0, &[0xf4, 0xfa, 0xf4]);
    cpu.sys.pic.base_master = 0x20;
    cpu.sys.pic.mask = 0xfffe;
    cpu.sys.pit.reload = 100;
    cpu.sys.pit.enabled = true;
    cpu.rflags = 0x202;
    cpu.r[RSP] = 0x8000;
    assert_eq!(drive(&mut cpu, 100), Halt::Halted);
    assert_eq!(cpu.reg(RBX), 1);
    assert_eq!(cpu.reg(RSP), 0x8000);
    assert!(cpu.sys.tsc > 0);
}

/// The count of timer channel 2 reads back low byte first.
#[test]
fn the_calibration_count_reads_back() {
    let mut cpu = Cpu::new(64 * 1024);
    cpu.sys.port_out(0x43, 0xb0);
    cpu.sys.port_out(0x42, 0x34);
    cpu.sys.port_out(0x42, 0x12);
    assert_eq!(cpu.sys.port_in(0x42), 0x34);
    assert_eq!(cpu.sys.port_in(0x42), 0x12);
    assert_eq!(cpu.sys.port_in_wide(0x42, 1), 0x34);
}

/// An instruction outside the supported set stops the machine where it stands.
#[test]
fn an_unknown_opcode_is_reported() {
    let mut cpu = Cpu::new(64 * 1024);
    cpu.load_at(0x100, &[0x0e]);
    cpu.rip = 0x100;
    assert!(matches!(cpu.step(&mut Prof::new()), Step::Stopped(Halt::Undefined(0x100))));
}

/// The bulk paths change nothing but the speed.
#[test]
fn bulk_paths_equal_the_element_loop() {
    for (code, rcx) in [(&[0xf3u8, 0x48, 0xab][..], 300u64), (&[0xf3, 0xa4][..], 3000), (&[0xf3, 0xaa][..], 4096)] {
        let mut both = Vec::new();
        for fast in [true, false] {
            let mut cpu = Cpu::new(0x40000);
            set_fastpaths(&mut cpu.cfg, fast);
            cpu.load_at(0x100, code);
            for i in 0..0x1000 {
                cpu.ram[0x10000 + i] = (i * 7) as u8;
            }
            cpu.rip = 0x100;
            cpu.rflags = 0x2;
            cpu.r[RAX] = 0x1122_3344_5566_7788;
            cpu.r[RCX] = rcx;
            cpu.r[RSI] = 0x10000;
            cpu.r[RDI] = 0x20000;
            let start = cpu.rip;
            while cpu.rip == start {
                assert!(matches!(cpu.step(&mut Prof::new()), Step::Done));
            }
            cpu.cfg.fastpaths = true;
            both.push(cpu.snapshot());
        }
        assert!(both[0] == both[1]);
    }
}

/// `SYSCALL` and `SYSRET` go to the kernel and back.
#[test]
fn syscall_and_sysret_go_there_and_back() {
    let mut cpu = Cpu::new(64 * 1024);
    cpu.load_at(0x1000, &[0x0f, 0x05, 0x90]);
    cpu.load_at(0x2000, &[0x48, 0x0f, 0x07]);
    cpu.sys.msr.insert(0xC000_0081, 0x0023_0010_0000_0000);
    cpu.sys.msr.insert(0xC000_0082, 0x2000);
    cpu.sys.msr.insert(0xC000_0084, 0x200);
    cpu.cpl = 3;
    cpu.rip = 0x1000;
    cpu.rflags = 0x246;
    assert!(matches!(cpu.step(&mut Prof::new()), Step::Done));
    assert_eq!((cpu.rip(), cpu.cpl, cpu.reg(RCX), cpu.reg(11)), (0x2000, 0, 0x1002, 0x246));
    assert_eq!(cpu.rflags(), 0x46, "masked");
    assert!(matches!(cpu.step(&mut Prof::new()), Step::Done));
    assert_eq!((cpu.rip(), cpu.cpl, cpu.rflags()), (0x1002, 3, 0x246));
}

/// The statistics count, and are drained.
#[test]
fn statistics_are_counted_and_drained() {
    let mut cpu = Cpu::new(64 * 1024);
    cpu.cfg.boot_diag = true;
    let mut jit = Jit::new();
    reset_ophist(&mut jit.prof);
    set_blockprof(&mut jit.prof, true);
    cpu.cpl = 3;
    // nop; jmp 0x23; nop; nop
    cpu.load_at(0x23, &[0x90; 16]);
    cpu.load_at(0, &[0x90, 0xeb, 0x20]);
    cpu.rflags = 0x2;
    assert!(matches!(cpu.run(&mut jit, &mut Run::new(4)), Event::Halt(Halt::OutOfBudget)));
    assert_eq!(cpu.insns(), 4);
    assert_eq!(user_insns_seen(&jit.prof), 4);
    reset_user_insns(&mut jit.prof);
    assert_eq!(user_insns_seen(&jit.prof), 0);
    assert_eq!(drain_hotprof(&mut jit.prof), vec![(0, 1)]);
    assert_eq!(drain_hotprof(&mut jit.prof), vec![]);
    assert_eq!(drain_user_pages(&mut jit.prof).len(), 1);
    assert_eq!(drain_blockprof(&mut jit.prof), (1, vec![]), "one entry in sixty-four is sampled");
    for _ in 0..64 {
        jit.prof.blockprof_entry(0x23);
    }
    assert_eq!(drain_blockprof(&mut jit.prof), (64, vec![(0x23, 1)]));
    let (one, two) = drain_ophist(&mut jit.prof);
    assert!(one.contains(&(0x90, 3)) && one.contains(&(0xeb, 1)));
    assert!(two.is_empty());
    reset_ophist(&mut jit.prof);
    assert!(drain_exc_trace(&mut cpu.dev).is_empty());
}

/// A refused restore leaves what was read of it: the registers as far as the bytes go, the platform
/// once the state is whole, never the memory.
#[test]
fn a_refused_restore_leaves_what_was_read() {
    let mut a = Cpu::new(0x2000);
    for i in 0..16 {
        a.r[i] = 0x100 + i as u64;
    }
    a.rip = 0x1234;
    a.cpl = 3;
    a.sys.tsc = 77;
    a.ram[5] = 0xaa;
    let snap = a.snapshot();

    let mut b = Cpu::new(0x1000);
    b.r = [7; 16];
    b.ram[5] = 0xbb;
    let own = b.snapshot();
    assert!(!b.restore(b"", true));
    assert_eq!(b.snapshot(), own);
    assert!(!b.restore(&snap[..100], true));
    assert_eq!(&b.r[..12], &a.r[..12], "twelve whole registers stand in a hundred bytes");
    assert_eq!(&b.r[12..], &[7; 4]);
    assert_eq!((b.rip, b.cpl, b.sys.tsc), (0, 0, 0));
    assert!(!b.restore(&snap[..140], true));
    assert_eq!((b.r, b.rip, b.rflags), (a.r, 0x1234, Cpu::new(0x1000).rflags));
    assert!(!b.restore(&snap[..648], true));
    assert_eq!((b.cpl, b.sys.tsc), (3, 0), "the platform is not there");
    assert!(!b.restore(&snap[..snap.len() - 1], true));
    assert_eq!((b.cpl, b.sys.tsc), (3, 77), "the platform is there, the memory is not");
    assert_eq!((b.ram.len(), b.ram[5]), (0x1000, 0xbb));
}

/// A repeat that no shortcut takes does one element a step, and counts each.
#[test]
fn a_repeat_does_one_element_a_step() {
    for (code, fast, steps) in [
        ([0xf3u8, 0xaa], false, 5u64),
        ([0xf3, 0xaa], true, 1),
        ([0xf3, 0xa4], false, 5),
        ([0xf3, 0xa4], true, 1),
        ([0xf3, 0xac], true, 5),
        ([0xf3, 0xa6], true, 5),
    ] {
        let mut cpu = Cpu::new(0x10000);
        cpu.cfg.fastpaths = fast;
        cpu.load_at(0x100, &code);
        cpu.rip = 0x100;
        cpu.rflags = 0x2;
        cpu.r[RCX] = 5;
        cpu.r[RSI] = 0x2000;
        cpu.r[RDI] = 0x3000;
        assert_eq!(drive(&mut cpu, steps - 1), Halt::OutOfBudget);
        assert_eq!((cpu.rip, cpu.r[RCX]), (0x100, 6 - steps), "{code:?}");
        assert_eq!(drive(&mut cpu, 1), Halt::OutOfBudget);
        assert_eq!((cpu.rip, cpu.r[RCX]), (0x102, 0), "{code:?}");
        assert_eq!(cpu.insns, steps);
    }
}
