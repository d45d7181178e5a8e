//! The laws on concrete values.
use holospaces::cpu::{Cpu, Halt, RAX, RBX, RCX, RDI, RSI, RSP};
use holospaces::flags::{CF, OF, SF, ZF};
use holospaces::jit::Jit;
use holospaces::run::{Event, Run};
use holospaces::step::Step;
use holospaces::sys::Sys;
use holospaces::uart::Uart;
use holospaces::profile::Prof;

fn put(cpu: &mut Cpu, at: usize, v: u64) {
    cpu.ram[at..at + 8].copy_from_slice(&v.to_le_bytes());
}

/// Tables that map the pages of `map` (address, entry), below two megabytes.
fn paged(map: &[(u64, u64)]) -> Cpu {
    let mut cpu = Cpu::new(0x40000);
    put(&mut cpu, 0x1000, 0x2003);
    put(&mut cpu, 0x2000, 0x3003);
    put(&mut cpu, 0x3000, 0x4003);
    for &(va, e) in map {
        put(&mut cpu, 0x4000 + (va >> 12) as usize * 8, e);
    }
    cpu.cr3 = 0x1000;
    cpu.cr4 = 1 << 5;
    cpu.efer = 1 << 8;
    cpu.cr0 = 1 << 31;
    cpu
}

fn same_platform(a: &Sys, b: &Sys) -> bool {
    let (mut x, mut y) = (Vec::new(), Vec::new());
    a.snap(&mut x);
    b.snap(&mut y);
    x == y
}

/// Jumping to a deadline is waiting for it.
#[test]
fn idling_is_waiting() {
    for (pit, apic, periodic, phase) in [(7u16, 0u32, true, 3u64), (0, 9, false, 15), (12, 5, true, 0), (6, 6, false, 1)] {
        let build = || {
            let mut s = Sys::new();
            s.tdiv = phase;
            s.pit.reload = pit;
            s.pit.enabled = pit != 0;
            s.pit.ch0_periodic = periodic;
            s.pit.ch2_gate = true;
            s.pit.ch2_counter = 8;
            s.lapic.svr = 0x1ff;
            s.lapic.initial_count = apic;
            s.lapic.lvt_timer = if periodic { 0x2_0040 } else { 0x40 };
            s
        };
        let mut jumped = build();
        jumped.idle();
        let mut waited = build();
        let n = [u64::from(pit), u64::from(apic)].into_iter().filter(|n| *n != 0).min().unwrap();
        for _ in 0..16 * n {
            waited.tick();
        }
        assert!(same_platform(&jumped, &waited), "{pit} {apic} {periodic} {phase}");
    }
    let mut still = Sys::new();
    still.idle();
    assert!(same_platform(&still, &Sys::new()));
}

/// A store across two frames is read back, and nothing else changes.
#[test]
fn a_load_gives_back_a_store() {
    for cached in [true, false] {
        let mut cpu = paged(&[(0x10000, 0x20003), (0x11000, 0x30003)]);
        cpu.cfg.tlb_cache = cached;
        let before = cpu.ram.clone();
        for (addr, size, v) in [
            (0x10100u64, 8u8, 0x0102_0304_0506_0708u64),
            (0x10ffd, 8, 0x1112_1314_1516_1718),
            (0x10fff, 2, 0x2122),
        ] {
            cpu.wr(addr, size, v);
            assert_eq!(cpu.rd(addr, size), v);
        }
        let changed = cpu.ram.iter().zip(&before).filter(|(a, b)| a != b).count();
        assert_eq!(changed, 8 + 8);
        assert!(cpu.fault.is_none());
    }
}

/// A copy between two pages that take each other's place in the translation cache, and one without
/// the cache, are done at once as they are element by element.
#[test]
fn bulk_copies_walk_alike() {
    for (dst, cached) in [(0x41_0000u64, true), (0x41_0000, false), (0x1_1000, false)] {
        let mut both = Vec::new();
        for fast in [true, false] {
            let mut cpu = paged(&[(0, 0x3), (0x1_0000, 0x20003), (0x1_1000, 0x30003)]);
            put(&mut cpu, 0x3000 + 2 * 8, 0x5003);
            put(&mut cpu, 0x5000 + 0x10 * 8, 0x31003);
            cpu.cfg.tlb_cache = cached;
            cpu.cfg.fastpaths = fast;
            cpu.load_at(0x100, &[0xf3, 0xa4]);
            for i in 0..0x200 {
                cpu.ram[0x20000 + i] = (i * 3) as u8;
            }
            cpu.rflags = 0x2;
            cpu.r[RCX] = 0x180;
            cpu.r[RSI] = 0x1_0010;
            cpu.r[RDI] = dst + 0x20;
            let start = cpu.rip;
            while cpu.rip == start {
                assert!(matches!(cpu.step(&mut Prof::new()), Step::Done));
            }
            assert_eq!(cpu.reg(RCX), 0);
            assert_eq!(cpu.rd(dst + 0x20 + 0x17f, 1), u64::from((0x18fu64 * 3) as u8));
            both.push(cpu.snapshot());
        }
        assert!(both[0] == both[1], "{dst:#x} {cached}");
    }
}

/// Read-only pages, and pages that are not there, fault with their error codes.
#[test]
fn write_protection_faults() {
    for (entry, write, user, wp, want) in [
        (0x20003u64, true, true, false, None),
        (0x20001, false, true, false, None),
        (0x20001, true, true, false, Some(7)),
        (0x20001, true, false, false, None),
        (0x20001, true, false, true, Some(3)),
        (0x20002, false, true, false, Some(4)),
        (0x20002, true, false, false, Some(2)),
    ] {
        let mut cpu = paged(&[(0x10000, entry)]);
        if wp {
            cpu.cr0 |= 1 << 16;
        }
        let pa = cpu.translate_acc(0x10123, write, user);
        match want {
            None => {
                assert_eq!(pa, 0x20123);
                assert!(cpu.fault.is_none());
            },
            Some(e) => assert_eq!(cpu.fault.map(|f| (f.addr, f.error)), Some((0x10123, e))),
        }
    }
}

/// A comparison orders its operands, as unsigned and as signed numbers.
#[test]
fn comparisons_order() {
    let vals = [0u64, 1, 0x7f, 0x80, 0xff];
    for a in vals {
        for b in vals {
            let mut cpu = Cpu::new(0x2000);
            cpu.alu(7, a, b, 1);
            let (x, y) = (a as u8, b as u8);
            assert_eq!(cpu.cond(0x4), x == y);
            assert_eq!(cpu.cond(0x2), x < y);
            assert_eq!(cpu.cond(0x6), x <= y);
            assert_eq!(cpu.cond(0xc), (x as i8) < (y as i8));
            assert_eq!(cpu.cond(0xf), (x as i8) > (y as i8));
            for cc in 0..8 {
                assert_ne!(cpu.cond(2 * cc), cpu.cond(2 * cc + 1));
            }
        }
    }
}

/// Logical operations clear carry and overflow; nothing touches the other flags.
#[test]
fn arithmetic_writes_its_flags_only() {
    for op in 0..8u8 {
        let mut cpu = Cpu::new(0x2000);
        cpu.rflags = 0xffff_ffff_ffff_ffff;
        cpu.alu(op, 0x1234, 0xffee, 2);
        assert_eq!(cpu.rflags | 0x8c5, u64::MAX);
        if op == 1 || op == 4 || op == 6 {
            assert_eq!(cpu.rflags & (CF | OF), 0);
        }
        let _ = (SF, ZF);
    }
}

/// `SWAPGS` twice, and a push with its pop, change nothing.
#[test]
fn there_and_back() {
    let mut cpu = Cpu::new(0x10000);
    cpu.seg[5].base = 0x1111;
    cpu.sys.msr.insert(0xC000_0102, 0x2222);
    // swapgs; swapgs; push rbx; pop rcx
    cpu.load_at(0x100, &[0x0f, 0x01, 0xf8, 0x0f, 0x01, 0xf8, 0x53, 0x59]);
    cpu.r[RSP] = 0x8000;
    cpu.r[RBX] = 0xdead_beef_0bad_f00d;
    assert!(matches!(cpu.step(&mut Prof::new()), Step::Done));
    assert_eq!((cpu.seg[5].base, cpu.rdmsr(0xC000_0102)), (0x2222, 0x1111));
    assert!(matches!(cpu.step(&mut Prof::new()), Step::Done));
    assert_eq!((cpu.seg[5].base, cpu.rdmsr(0xC000_0102)), (0x1111, 0x2222));
    for _ in 0..2 {
        assert!(matches!(cpu.step(&mut Prof::new()), Step::Done));
    }
    assert_eq!((cpu.r[RCX], cpu.r[RSP]), (0xdead_beef_0bad_f00d, 0x8000));
}

/// An interrupt frame goes to the stack, across two frames of memory, and the return takes it back.
#[test]
fn a_frame_across_two_pages_returns() {
    let mut cpu = paged(&[(0, 0x3), (0x1_0000, 0x20003), (0x1_1000, 0x30003)]);
    // int 0x30; handler: iretq
    cpu.load_at(0x600, &[0x48, 0xcf]);
    cpu.load_at(0x100, &[0xcd, 0x30]);
    put(&mut cpu, 0x200 + 0x30 * 16, 0x600 | 0x10 << 16 | 0x8e00 << 32);
    cpu.sys.idtr = (0x200, 0xfff);
    cpu.seg[1].selector = 0x10;
    cpu.seg[2].selector = 0x18;
    cpu.rflags = 0x246;
    cpu.r[RSP] = 0x1_101b;
    let before = cpu.regs();
    assert!(matches!(cpu.step(&mut Prof::new()), Step::Done));
    assert_eq!((cpu.rip, cpu.rflags, cpu.reg(RSP)), (0x600, 0x46, 0x1_0ff3));
    let frame: Vec<u64> = (0..5).map(|i| cpu.rd(0x1_0ff3 + 8 * i, 8)).collect();
    assert_eq!(frame, vec![0x102, 0x10, 0x246, 0x1_101b, 0x18]);
    assert_eq!(cpu.ram[0x20ff3], 0x02);
    assert_eq!(cpu.ram[0x30013], 0x18);
    assert!(matches!(cpu.step(&mut Prof::new()), Step::Done));
    assert_eq!((cpu.rip, cpu.rflags), (0x102, 0x246));
    assert_eq!(cpu.regs(), before);
    assert_eq!((cpu.seg[1].selector, cpu.seg[2].selector, cpu.cpl), (0x10, 0x18, 0));
}

/// At the kernel's entry memory is mapped to itself.
#[test]
fn the_boot_tables_map_memory_to_itself() {
    let mut image = vec![0u8; 64];
    image[0..4].copy_from_slice(b"\x7fELF");
    let mut cpu = Cpu::boot_linux(0x20_0000, &image, "x");
    for v in [0u64, 0x1234, 0x1f_ffff, 0x4000_0000, 0x7f_ffff_ffff] {
        assert_eq!(cpu.translate_acc(v, true, true), v);
        assert!(cpu.fault.is_none());
    }
    cpu.translate_acc(0x80_0000_0000, false, false);
    assert!(cpu.fault.is_some());
}

/// Two machines that start alike end alike.
#[test]
fn runs_are_deterministic() {
    let go = || {
        let mut cpu = Cpu::new(0x10000);
        // rdrand rax; out of the loop after eight rounds
        cpu.load_at(0, &[0x48, 0x0f, 0xc7, 0xf0, 0x48, 0x01, 0xc3, 0x48, 0xff, 0xc1, 0x48, 0x83, 0xf9, 0x08, 0x75, 0xf0, 0xf4]);
        cpu.rflags = 0x2;
        let h = match cpu.run(&mut Jit::new(), &mut Run::new(1000)) {
            Event::Halt(h) => h,
            _ => panic!("nothing for the host"),
        };
        assert_eq!(h, Halt::Halted);
        cpu
    };
    let (a, b) = (go(), go());
    assert_eq!(a.r[RCX], 8);
    assert_ne!(a.r[RAX], 0);
    assert_eq!(a.snapshot(), b.snapshot());
}

/// The transmitter interrupt is named once.
#[test]
fn the_transmitter_interrupt_is_named_once() {
    let mut u = Uart::new();
    assert!(u.port_out(0x3f9, 0x02));
    assert_eq!(u.port_in(0x3fa) & 0x0f, 0x02);
    assert_eq!(u.port_in(0x3fa) & 0x0f, 0x01);
    assert!(u.port_out(0x3f8, b'x'));
    assert_eq!(u.port_in(0x3fa) & 0x0f, 0x02);
    u.port_out(0x3ff, 0x5a);
    assert_eq!(u.port_in(0x3ff), 0x5a);
    u.port_out(0x3fb, 0x80);
    u.port_out(0x3f8, 0x34);
    u.port_out(0x3f9, 0x12);
    assert_eq!((u.port_in(0x3f8), u.port_in(0x3f9)), (0x34, 0x12));
}
