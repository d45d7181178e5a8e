//! The laws of whole runs, fetches, scans and counters, on concrete values.
use holospaces::cpu::{Cpu, Halt, RAX, RCX, RDI, RSI};
use holospaces::fetch::Fetching;
use holospaces::flags::ZF;
use holospaces::jit::{
    drain_region_divergence, set_region_executor, set_region_jit_on, set_region_notrust, Jit,
};
use holospaces::kappa::{KappaSnapshot, KAPPA_PAGE};
use holospaces::lapic::Lapic;
use holospaces::pic::Pic;
use holospaces::pit::Pit;
use holospaces::profile::{
    drain_blockprof, drain_exc_trace, drain_hotprof, drain_ophist, drain_user_pages, reset_ophist,
    user_insns_seen, Dev, ExcRecord, Prof, EXC_TRACE_MAX,
};
use holospaces::run::{Event, Run};
use holospaces::snap::Snap;
use holospaces::snapshot::snapshot_disk;
use holospaces::step::Step;
use holospaces::sys::Sys;

fn run(cpu: &mut Cpu, n: u64) -> Halt {
    match cpu.run(&mut Jit::new(), &mut Run::new(n)) {
        Event::Halt(h) => h,
        _ => panic!("the host has nothing to do here"),
    }
}

/// A read that fails leaves the cursor where it was; a length that was read is passed over.
#[test]
fn a_failed_read_keeps_the_cursor() {
    let bytes = [5u8, 0, 0, 0, 0, 0, 0, 0, 1, 2, 3];
    let mut s = Snap::new(&bytes);
    assert_eq!(s.take(3), Some(vec![5, 0, 0]));
    assert_eq!(s.p, 3);
    assert_eq!(s.take(9), None);
    assert_eq!(s.p, 3);
    assert_eq!(s.take(8), Some(vec![0, 0, 0, 0, 0, 1, 2, 3]));
    assert_eq!((s.u8(), s.flag(), s.u16(), s.u32(), s.u64(), s.p), (None, None, None, None, None, 11));
    let mut s = Snap::new(&bytes);
    assert_eq!(s.blob(), None);
    assert_eq!(s.p, 8);
    let mut s = Snap::new(&bytes[..7]);
    assert_eq!(s.blob(), None);
    assert_eq!(s.p, 0);
    let mut s = Snap::new(&bytes);
    assert_eq!(s.words(2), None);
    assert_eq!(s.p, 8);
}

/// A fetch asks for each label once, and ends at the first page that is missing or forged.
#[test]
fn a_fetch_ends_at_the_first_bad_page() {
    let mut a = Cpu::new(6 * KAPPA_PAGE);
    for i in 0..5 {
        a.ram[i * KAPPA_PAGE] = i as u8 + 1;
    }
    a.ram[5 * KAPPA_PAGE] = 1;
    let store = a.kappa_ram_pages();
    assert_eq!(store.len(), 5);
    let manifest = a.snapshot_kappa_manifest();
    let snap = KappaSnapshot::from_manifest_bytes(&manifest).unwrap();
    for (bad, answer) in [(5usize, None), (2, None), (2, Some(vec![0xaau8; KAPPA_PAGE])), (0, None)] {
        let mut f = Fetching::new(&snap);
        let mut asked = Vec::new();
        while let Some(label) = f.next() {
            asked.push(label);
            let page = store.iter().find(|p| p.label == label).unwrap();
            f.receive(if asked.len() == bad + 1 { answer.clone() } else { Some(page.bytes.clone()) });
        }
        assert_eq!(asked.len(), if bad < 5 { bad + 1 } else { 5 });
        assert_eq!(f.pages.len(), bad);
        assert_eq!(f.stopped, bad < 5);
        f.receive(Some(vec![1]));
        assert_eq!(f.pages.len(), bad, "nothing more is taken");
        let mut b = Cpu::new(KAPPA_PAGE);
        let before = b.snapshot();
        assert_eq!(b.restore_kappa_streaming(&manifest, &f.pages, true), bad == 5);
        assert_eq!(b.snapshot(), if bad == 5 { a.snapshot() } else { before });
    }
}

/// A disk that its reader refuses refuses the snapshot, in every form; the registers before it are
/// read by then.
#[test]
fn a_refused_disk_refuses_the_snapshot() {
    let mut a = Cpu::new(KAPPA_PAGE);
    a.r[3] = 5;
    a.ram[0] = 1;
    a.attach_disk(vec![7, 8, 9]);
    let snap = a.snapshot();
    assert_eq!(snapshot_disk(&snap, true), Some(vec![7, 8, 9]));
    let (manifest, pages) = (a.snapshot_kappa_manifest(), a.kappa_ram_pages());
    for form in 0..4 {
        let mut b = Cpu::new(KAPPA_PAGE);
        assert!(!match form {
            0 => b.restore(&snap, false),
            1 => b.restore_kappa_blob(&a.snapshot_kappa_blob(), false),
            2 => b.restore_kappa(&a.snapshot_kappa(), &pages, false),
            _ => b.restore_kappa_streaming(&manifest, &pages, false),
        });
        assert_eq!((b.r[3], b.ram[0], b.sys.disk), (5, 0, None), "{form}");
    }
    let mut b = Cpu::new(KAPPA_PAGE);
    assert!(b.restore(&snap, true));
    assert_eq!(b.snapshot(), snap);
    let plain = Cpu::new(KAPPA_PAGE).snapshot();
    assert_eq!(snapshot_disk(&plain, true), None);
    assert!(b.restore(&plain, false), "without a disk there is nothing to refuse");
}

/// A resume without one of its pages leaves the state over the old memory; a stream, whose pages come
/// first, leaves nothing, and neither does a label that is another's.
#[test]
fn a_missing_page_leaves_the_state() {
    let mut a = Cpu::new(2 * KAPPA_PAGE);
    a.r[3] = 5;
    a.sys.tsc = 9;
    a.ram[0] = 1;
    a.ram[KAPPA_PAGE] = 2;
    let mut pages = a.kappa_ram_pages();
    pages.pop();
    let (label, manifest) = a.seal_kappa();
    let (left, kept) = ((5, 9, KAPPA_PAGE, 0), (0, 0, KAPPA_PAGE, 0));
    let seen = |b: &Cpu| (b.r[3], b.sys.tsc, b.ram.len(), b.ram[0]);
    let mut b = Cpu::new(KAPPA_PAGE);
    assert!(!b.restore_kappa(&a.snapshot_kappa(), &pages, true));
    assert_eq!(seen(&b), left);
    let mut b = Cpu::new(KAPPA_PAGE);
    assert!(!b.resume_kappa(&label, &manifest, &pages, true));
    assert_eq!(seen(&b), left);
    let mut b = Cpu::new(KAPPA_PAGE);
    assert!(!b.resume_kappa(&pages[0].label, &manifest, &pages, true));
    assert_eq!(seen(&b), kept);
    assert!(!b.restore_kappa_streaming(&manifest, &pages, true));
    assert_eq!(seen(&b), kept);
}

/// A platform without a network device reads back from the layout that has no slot for one.
#[test]
fn the_earlier_layout_reads_back() {
    let mut sys = Sys::new();
    sys.tsc = 0x1234;
    sys.rng = 77;
    sys.disk = Some(vec![1, 2]);
    let mut now = Vec::new();
    sys.snap(&mut now);
    let slot = 1 + 8 + 2 + 1;
    assert_eq!(now[slot], 0);
    let mut earlier = now.clone();
    earlier.remove(slot);
    let mut s = Snap::new(&earlier);
    let back = Sys::unsnap(&mut s, false, true).expect("the earlier layout");
    assert_eq!(s.p, earlier.len());
    let mut again = Vec::new();
    back.snap(&mut again);
    assert_eq!(again, now);
    assert!(Sys::unsnap(&mut Snap::new(&earlier), false, false).is_none());
}

/// The active lines come out once each, in order, and the masked ones stay.
#[test]
fn pending_lines_drain_in_order() {
    let mut p = Pic::new();
    p.mask = 0x0410;
    for n in [14u8, 4, 0, 10, 7] {
        p.raise(n);
    }
    let mut taken = Vec::new();
    while let Some((irq, _)) = p.pending() {
        taken.push(irq);
        p.ack(irq);
    }
    assert_eq!(taken, vec![0, 7, 14]);
    assert_eq!(p.request, 0x0410);
}

/// The trace keeps the latest exceptions, and a second drain finds none.
#[test]
fn the_trace_keeps_the_latest() {
    let mut dev = Dev::new();
    for i in 0..EXC_TRACE_MAX as u64 + 76 {
        dev.exc_trace_push(ExcRecord { vector: 14, error: i, rip: 0, cr2: 0, handler: 0, cpl: 0, rsp: 0 });
    }
    let r = drain_exc_trace(&mut dev);
    assert_eq!(r.len(), EXC_TRACE_MAX);
    assert_eq!((r[0].error, r[EXC_TRACE_MAX - 1].error), (76, EXC_TRACE_MAX as u64 + 75));
    assert!(drain_exc_trace(&mut dev).is_empty());
}

/// The counters add up: opcodes to the steps, pages to the samples, blocks to every sixty-fourth.
#[test]
fn the_counters_add_up() {
    let mut cpu = Cpu::new(64 * 1024);
    // nop; cpuid; nop; cpuid; jmp back
    cpu.load_at(0, &[0x90, 0x0f, 0xa2, 0x90, 0x0f, 0xa2, 0xeb, 0xf8]);
    let mut prof = Prof::new();
    reset_ophist(&mut prof);
    for _ in 0..23 {
        assert!(matches!(cpu.step(&mut prof), Step::Done));
    }
    let (p, s) = drain_ophist(&mut prof);
    assert_eq!(p.iter().map(|e| e.1).sum::<u64>(), 23);
    let after = p.iter().find(|e| e.0 == 0x0f).unwrap().1;
    assert_eq!(s, vec![(0xa2, after)]);

    for rip in [0x1000u64, 0x2fff, 0x1fff, 0x1001] {
        prof.hotprof_sample(rip);
    }
    assert_eq!(drain_hotprof(&mut prof), vec![(0x1000, 3), (0x2000, 1)]);
    for rip in [0x5123u64, 0x5456, 0x6000] {
        prof.user_sample(rip);
    }
    assert_eq!(user_insns_seen(&prof), 3);
    assert_eq!(drain_user_pages(&mut prof), vec![(0x5000, 2), (0x6000, 1)]);

    for i in 1..=200u64 {
        prof.blockprof_entry(if i % 64 == 0 { 0x100 + i / 128 } else { 0x7 });
    }
    assert_eq!(drain_blockprof(&mut prof), (200, vec![(0x101, 2), (0x100, 1)]));
}

/// Running a budget in two parts is running it at once.
#[test]
fn a_budget_can_be_cut() {
    // inc rax; add rbx, rax; jmp back
    let code = [0x48, 0xff, 0xc0, 0x48, 0x01, 0xc3, 0xeb, 0xf8];
    for (a, b) in [(0u64, 7u64), (1, 2000), (1023, 1025), (1024, 3), (700, 0)] {
        let mut once = Cpu::new(64 * 1024);
        once.load_at(0, &code);
        let mut twice = Cpu::new(64 * 1024);
        twice.load_at(0, &code);
        let end = run(&mut once, a + b);
        assert_eq!(run(&mut twice, a), Halt::OutOfBudget);
        assert_eq!(run(&mut twice, b), end);
        assert_eq!(once.snapshot(), twice.snapshot(), "{a} {b}");
    }
}

/// A halted machine stays as it is, but for its clocks.
#[test]
fn a_halted_machine_stays_halted() {
    let mut cpu = Cpu::new(64 * 1024);
    cpu.load_at(0, &[0x48, 0xff, 0xc0, 0xf4]);
    cpu.rflags = 0x2;
    assert_eq!(run(&mut cpu, 100), Halt::Halted);
    let before = (cpu.r, cpu.rflags, cpu.rip, cpu.insns, cpu.ram.clone());
    for n in [1u64, 50] {
        assert_eq!(run(&mut cpu, n), Halt::Halted);
        assert_eq!((cpu.r, cpu.rflags, cpu.rip, cpu.insns, cpu.ram.clone()), before);
    }
}

/// A scan stops at the first match; without one the count runs out.
#[test]
fn a_scan_stops_at_the_first_match() {
    for (len, hit) in [(10u64, Some(3u64)), (10, Some(9)), (10, None), (10, Some(0)), (5000, Some(4500))] {
        let mut cpu = Cpu::new(64 * 1024);
        cpu.load_at(0x100, &[0xf2, 0xae]);
        cpu.rip = 0x100;
        cpu.rflags = 0x2;
        cpu.r[RAX] = 0x1177;
        cpu.r[RCX] = len;
        cpu.r[RDI] = 0x2000;
        if let Some(k) = hit {
            cpu.ram[0x2000 + k as usize] = 0x77;
            cpu.ram[0x2000 + len as usize] = 0x77;
        }
        while cpu.rip == 0x100 {
            assert!(matches!(cpu.step(&mut Prof::new()), Step::Done));
        }
        let done = hit.map_or(len, |k| k + 1);
        assert_eq!((cpu.r[RCX], cpu.r[RDI]), (len - done, 0x2000 + done));
        assert_eq!(cpu.rflags & ZF != 0, hit.is_some());
    }
}

/// The shortcuts change nothing over a whole repeated instruction.
#[test]
fn shortcuts_change_nothing() {
    for (code, count) in [([0xf3u8, 0xa4], 9000u64), ([0xf3, 0xa4], 100), ([0xf3, 0xaa], 9000), ([0xf3, 0xab], 64)] {
        let mut both = Vec::new();
        for fast in [true, false] {
            let mut cpu = Cpu::new(256 * 1024);
            cpu.cfg.fastpaths = fast;
            cpu.load_at(0x100, &code);
            cpu.rip = 0x100;
            cpu.rflags = 0x2;
            for i in 0..0x3000 {
                cpu.ram[0x1_0000 + i] = (i * 7) as u8;
            }
            cpu.r[RAX] = 0x1122_3344;
            cpu.r[RCX] = count;
            cpu.r[RSI] = 0x1_0000;
            cpu.r[RDI] = 0x2_0000;
            while cpu.rip == 0x100 {
                assert!(matches!(cpu.step(&mut Prof::new()), Step::Done));
            }
            assert_eq!(cpu.r[RCX], 0);
            both.push(cpu.snapshot());
        }
        assert!(both[0] == both[1], "{code:?} {count}");
    }
}

/// Four levels of tables at `0x1000` that map the first pages of memory, and paging on.
fn paged(cpu: &mut Cpu, pages: usize, flags: u64) {
    let mut put = |at: usize, v: u64| cpu.ram[at..at + 8].copy_from_slice(&v.to_le_bytes());
    for (at, v) in [(0x1000usize, 0x2007u64), (0x2000, 0x3007), (0x3000, 0x4007)] {
        put(at, v);
    }
    for i in 0..pages {
        put(0x4000 + i * 8, (i as u64) << 12 | flags);
    }
    cpu.cr3 = 0x1000;
    cpu.cr4 = 0x20;
    cpu.efer = 0x500;
    cpu.cr0 = 0x8000_0001;
}

/// With paging too the shortcuts change nothing, whether or not translations are cached.
#[test]
fn shortcuts_change_nothing_under_paging() {
    for (code, count) in [([0xf3u8, 0xa4], 9000u64), ([0xf3, 0xaa], 100), ([0xf3, 0xab], 2000)] {
        let mut seen = Vec::new();
        for (fast, cached) in [(true, true), (false, true), (true, false), (false, false)] {
            let mut cpu = Cpu::new(256 * 1024);
            cpu.cfg.fastpaths = fast;
            cpu.cfg.tlb_cache = cached;
            paged(&mut cpu, 64, 7);
            cpu.load_at(0x8100, &code);
            cpu.rip = 0x8100;
            cpu.rflags = 0x2;
            for i in 0..0x3000 {
                cpu.ram[0x1_0000 + i] = (i * 7) as u8;
            }
            cpu.r[RAX] = 0x1122_3344;
            cpu.r[RCX] = count;
            cpu.r[RSI] = 0x1_0000;
            cpu.r[RDI] = 0x2_0ffd;
            let mut steps = 0;
            while cpu.rip == 0x8100 {
                assert!(matches!(cpu.step(&mut Prof::new()), Step::Done));
                steps += 1;
            }
            assert!(steps <= count && (fast || steps == count));
            assert_eq!((cpu.rip, cpu.r[RCX]), (0x8102, 0));
            seen.push((cpu.r, cpu.rflags, cpu.rip, cpu.ram.clone(), cpu.sys.tsc));
        }
        assert!(seen.iter().all(|x| *x == seen[0]), "{code:?} {count}");
    }
}

/// A run under a region compiler that is not trusted is a run without it.
#[test]
fn untrusted_regions_change_nothing() {
    // inc rax; jmp back
    let code = [0x48, 0xff, 0xc0, 0xeb, 0xfb];
    // Without paging; for user code on a user page; for user code on a supervisor page.
    for (paging, cpl, flags) in [(false, 0, 0u64), (true, 3, 7), (true, 3, 3), (true, 0, 3)] {
        let machine = || {
            let mut cpu = Cpu::new(64 * 1024);
            if paging {
                paged(&mut cpu, 16, flags);
            }
            cpu.load_at(0x8000, &code);
            cpu.rip = 0x8000;
            cpu.cpl = cpl;
            cpu
        };
        let mut plain = machine();
        assert_eq!(run(&mut plain, 500), Halt::OutOfBudget);

        let mut jit = Jit::new();
        set_region_executor(&mut jit);
        set_region_jit_on(&mut jit, true);
        set_region_notrust(&mut jit, true);
        let mut cpu = machine();
        let mut r = Run::new(500);
        let mut asked = 0;
        loop {
            match cpu.run(&mut jit, &mut r) {
                Event::Halt(h) => {
                    assert_eq!(h, Halt::OutOfBudget);
                    break;
                },
                Event::Discover(_) => {
                    asked += 1;
                    assert!(cpu.region_found(&jit, &mut r, Vec::new()).is_none());
                },
                _ => panic!("the host has nothing to do here"),
            }
        }
        assert!(asked > 0);
        assert_eq!(cpu.r[RAX], 250);
        assert_eq!(cpu.snapshot(), plain.snapshot());
        assert_eq!(cpu.insns, plain.insns);
        set_region_notrust(&mut jit, false);
        assert!(drain_region_divergence(&mut jit).is_none());
    }
}

/// A step that faults gives everything back but `CR2`.
#[test]
fn a_faulting_step_rolls_back() {
    let mut cpu = Cpu::new(0x40000);
    // Four levels at 0x1000; the first page maps itself, nothing else is there.
    for (at, v) in [(0x1000usize, 0x2003u64), (0x2000, 0x3003), (0x3000, 0x4003), (0x4000, 0x3)] {
        cpu.ram[at..at + 8].copy_from_slice(&v.to_le_bytes());
    }
    cpu.cr3 = 0x1000;
    cpu.cr4 = 0x20;
    cpu.efer = 0x500;
    cpu.cr0 = 0x8000_0001;
    // push [0x9000]
    cpu.load_at(0x100, &[0xff, 0x34, 0x25, 0x00, 0x90, 0x00, 0x00]);
    cpu.rip = 0x100;
    cpu.r[4] = 0x8008;
    let before = (cpu.r, cpu.rflags, cpu.rip, cpu.cpl, cpu.xmm);
    assert!(matches!(cpu.step(&mut Prof::new()), Step::Done));
    assert_eq!((cpu.r, cpu.rflags, cpu.rip, cpu.cpl, cpu.xmm), before);
    assert_eq!(cpu.cr2, 0x9000, "the load comes before the store");
    assert!(cpu.fault.is_none());
}

/// A changed byte of any page is refused.
#[test]
fn a_changed_page_is_refused() {
    let mut a = Cpu::new(3 * KAPPA_PAGE);
    a.ram[KAPPA_PAGE] = 1;
    a.ram[2 * KAPPA_PAGE] = 2;
    let blob = a.snapshot_kappa_blob();
    let pages = 3 * (71 + 4 + KAPPA_PAGE);
    for i in 0..3 {
        for k in [0, 1, KAPPA_PAGE - 1] {
            let mut bad = blob.clone();
            let at = blob.len() - pages + i * (75 + KAPPA_PAGE) + 75 + k;
            bad[at] ^= 0x40;
            assert!(!Cpu::new(KAPPA_PAGE).restore_kappa_blob(&bad, true), "{i} {k}");
        }
    }
    assert!(Cpu::new(KAPPA_PAGE).restore_kappa_blob(&blob, true));
}

/// A self-contained snapshot of the version before, which has no slot for a network device, resumes.
#[test]
fn an_earlier_blob_resumes() {
    let mut a = Cpu::new(2 * KAPPA_PAGE);
    a.r[3] = 0xabcd;
    a.sys.tsc = 99;
    a.ram[KAPPA_PAGE] = 3;
    let mut blob = a.snapshot_kappa_blob();
    // The state stands behind the magic and two lengths; the slot behind its registers, the
    // platform's flag, and the slots of the disk and of the input device.
    let slot = 24 + 648 + 1 + 2;
    assert_eq!(blob.remove(slot), 0);
    let len = u64::from_le_bytes(blob[16..24].try_into().unwrap()) - 1;
    blob[16..24].copy_from_slice(&len.to_le_bytes());
    blob[7] = b'2';
    let mut b = Cpu::new(KAPPA_PAGE);
    assert!(b.restore_kappa_blob(&blob, true));
    assert_eq!(b.snapshot(), a.snapshot());
}

/// A one-shot timer fires once and idles; a periodic one fires every time its count is done.
#[test]
fn timers_fire_when_their_count_is_done() {
    for (mode, want) in [(0x30u8, vec![5u32]), (0x34, vec![5, 10, 15])] {
        let mut p = Pit::new();
        p.mode(mode);
        p.ch0_write(5);
        p.ch0_write(0);
        let fired: Vec<u32> = (1..=18).filter(|_| p.tick()).collect();
        assert_eq!(fired, want, "{mode:#x}");
    }
}

/// Every instruction of a run is counted.
#[test]
fn instructions_are_counted() {
    let mut cpu = Cpu::new(64 * 1024);
    cpu.load_at(0, &[0x90, 0xeb, 0xfd]);
    cpu.insns = 40;
    assert_eq!(run(&mut cpu, 1234), Halt::OutOfBudget);
    assert_eq!(cpu.insns, 1274);
}

/// A store that faults reaches no device and writes at physical zero only.
#[test]
fn a_faulting_store_reaches_no_device() {
    let mut cpu = Cpu::new(0x40000);
    cpu.attach_workspace();
    cpu.cr3 = 0x1000;
    cpu.cr4 = 0x20;
    cpu.efer = 0x500;
    cpu.cr0 = 0x8000_0001;
    cpu.wr(0xd000_0050, 4, 0xffff_ffff);
    assert_eq!(cpu.fault.map(|f| f.addr), Some(0xd000_0050));
    cpu.wr(0xfee0_0080, 4, 0x11);
    assert_eq!(cpu.fault.map(|f| f.addr), Some(0xd000_0050), "the first fault stands");
    assert!(cpu.sys.outbox.is_empty());
    assert_eq!(cpu.sys.lapic.tpr, 0);
    assert!(cpu.ram[4..].iter().all(|b| *b == 0));
}

/// A line in the data cache costs nothing more.
#[test]
fn a_cached_line_is_free() {
    let mut sys = Sys::new();
    sys.touch(0x1234);
    let (tsc, tags) = (sys.tsc, sys.dcache.clone());
    sys.touch(0x1200);
    sys.touch(0x123f);
    assert_eq!((sys.tsc, sys.dcache.clone()), (tsc, tags));
    sys.touch(0x1240);
    assert!(sys.tsc > tsc);
}

/// Another address space and back: the translations of the first still answer.
#[test]
fn address_spaces_keep_their_translations() {
    let mut cpu = Cpu::new(0x40000);
    for (at, v) in [(0x1000usize, 0x2003u64), (0x2000, 0x3003), (0x3000, 0x4003), (0x4000 + 8 * 8, 0x9003)] {
        cpu.ram[at..at + 8].copy_from_slice(&v.to_le_bytes());
    }
    cpu.cr3 = 0x1001;
    cpu.cr4 = 0x2_0020;
    cpu.efer = 0x500;
    cpu.cr0 = 0x8000_0001;
    cpu.ram[0x9010] = 0x5a;
    cpu.ram[0xa010] = 0xa5;
    assert_eq!(cpu.rd(0x8010, 1), 0x5a);
    // The tables change behind the cache.
    cpu.ram[0x4000 + 8 * 8..0x4000 + 8 * 8 + 8].copy_from_slice(&0xa003u64.to_le_bytes());
    cpu.set_cr(3, 0x1002);
    cpu.set_cr(3, 0x8000_0000_0000_1001);
    assert_eq!(cpu.rd(0x8010, 1), 0x5a, "still cached");
    cpu.set_cr(3, 0x1001);
    assert_eq!(cpu.rd(0x8010, 1), 0xa5, "flushed, and walked anew");
}

/// The APIC timer makes its vector pending when its count is done.
#[test]
fn the_apic_timer_fires_when_its_count_is_done() {
    let mut l = Lapic::new();
    l.write(0xf0, 0x1ff);
    l.write(0x320, 0x2_0040);
    l.write(0x380, 3);
    for left in [2u32, 1] {
        l.tick();
        assert_eq!((l.current_count, l.deliverable()), (left, None));
    }
    l.tick();
    assert_eq!((l.current_count, l.deliverable()), (3, Some(0x40)));
}
