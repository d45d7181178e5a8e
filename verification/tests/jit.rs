//! The trust protocol around compiled code, with a host whose engine interprets a scratch machine.
use holospaces::cpu::{Cpu, Halt};
use holospaces::jit::{
    drain_jit_diag, drain_jit_stats, drain_region_divergence, set_jit_on, set_region_executor,
    set_region_jit_on, set_region_notrust, Jit, Outcome, Page, RegionBlock, Term, JIT_TRUST_K,
};
use holospaces::run::{Event, Run};
use holospaces::step::Step;
use holospaces::profile::Prof;

/// Map the page at zero to frame `0x5000`, with code in it.
fn paged(cpu: &mut Cpu, code: &[u8]) {
    let put = |cpu: &mut Cpu, at: usize, e: u64| {
        cpu.ram[at..at + 8].copy_from_slice(&e.to_le_bytes());
    };
    put(cpu, 0x1000, 0x2000 | 1);
    put(cpu, 0x2000, 0x3000 | 1);
    put(cpu, 0x3000, 0x4000 | 1);
    put(cpu, 0x4000, 0x5000 | 1);
    cpu.ram[0x5000..0x5000 + code.len()].copy_from_slice(code);
    cpu.cr3 = 0x1000;
    cpu.cr4 = 1 << 5;
    cpu.efer = 1 << 8;
    cpu.cr0 = 1 << 31;
    cpu.rip = 0;
}

/// A machine with the same contents.
fn scratch(cpu: &Cpu) -> Cpu {
    let mut c = Cpu::new(4096);
    assert!(c.restore(&cpu.snapshot(), true));
    c
}

/// Run a scratch machine from here until it leaves the bytes `from..to`.
fn engine(cpu: &Cpu, from: u64, to: u64) -> Outcome {
    let mut c = scratch(cpu);
    while c.rip >= from && c.rip < to {
        assert!(matches!(c.step(&mut Prof::new()), Step::Done));
    }
    let mut dirty = Vec::new();
    for i in 0..c.ram.len() / 4096 {
        let page = &c.ram[i * 4096..(i + 1) * 4096];
        if page != &cpu.ram[i * 4096..(i + 1) * 4096] {
            dirty.push(Page { pa: (i * 4096) as u64, bytes: page.to_vec() });
        }
    }
    Outcome { regs: c.r, rflags: c.rflags, dirty, exit: c.rip }
}

/// `top: add rax,rcx ; sub rbx,rdx ; jnz top`
const LOOP: [u8; 8] = [0x48, 0x01, 0xc8, 0x48, 0x29, 0xd3, 0x75, 0xf8];

fn loop_blocks() -> Vec<RegionBlock> {
    vec![RegionBlock { start: 0, len: 8, term: Term::Jcc(0, 8), ops: vec![1, 2, 3] }]
}

/// Offer the loop at the instruction pointer; whether it was committed, and whether the engine ran.
fn run_region(cpu: &mut Cpu, jit: &mut Jit) -> (bool, bool) {
    let Some((off, room)) = cpu.jit_window() else {
        return (false, false);
    };
    match cpu.jit_order_region(jit, off, room, loop_blocks()) {
        Some(order) => {
            let res = engine(cpu, 0, 8);
            (cpu.jit_apply_region(jit, order, Some(res)), true)
        },
        None => (false, false),
    }
}

/// Run with an engine that knows the loop; how often the engine ran.
fn drive(cpu: &mut Cpu, jit: &mut Jit, n: u64) -> (Halt, usize) {
    let mut run = Run::new(n);
    let mut calls = 0;
    loop {
        match cpu.run(jit, &mut run) {
            Event::Halt(h) => return (h, calls),
            Event::Discover(code) => {
                let blocks = if code[..8] == LOOP { loop_blocks() } else { Vec::new() };
                if cpu.region_found(jit, &mut run, blocks).is_some() {
                    calls += 1;
                    let res = engine(cpu, 0, 8);
                    cpu.region_ran(jit, &mut run, Some(res));
                }
            },
            _ => panic!("the host has nothing to do here"),
        }
    }
}

fn loop_setup(cpu: &mut Cpu, code: &[u8], n: u64) {
    paged(cpu, code);
    cpu.r[0] = 0;
    cpu.r[1] = 5;
    cpu.r[3] = n;
    cpu.r[2] = 1;
}

/// A loop is compared with the interpreter until it is trusted, then committed in one go.
#[test]
fn jit_run_region_shadow_trust_commit_on_a_loop() {
    let n = 200u64;
    let mut plain = Jit::new();
    let mut interp = Cpu::new(64 * 1024);
    loop_setup(&mut interp, &LOOP, n);
    drive(&mut interp, &mut plain, n * 3);

    let mut jit = Jit::new();
    set_region_executor(&mut jit);
    for round in 0..JIT_TRUST_K {
        let mut cpu = Cpu::new(64 * 1024);
        loop_setup(&mut cpu, &LOOP, n);
        let entry = cpu.rip;
        assert_eq!(run_region(&mut cpu, &mut jit), (false, true), "round {round}: an untrusted region is not committed");
        assert_eq!(cpu.rip, entry, "rip stays");
        drive(&mut cpu, &mut plain, n * 3);
        cpu.jit_region_shadow_check(&mut jit);
    }
    let mut cpu = Cpu::new(64 * 1024);
    loop_setup(&mut cpu, &LOOP, n);
    assert_eq!(run_region(&mut cpu, &mut jit), (true, true), "the trusted region commits in one call");
    assert_eq!(cpu.r, interp.r, "committed registers");
    assert_eq!(cpu.rflags, interp.rflags, "committed rflags");
    assert_eq!(cpu.rip, interp.rip, "committed rip");
    assert_eq!(cpu.r[0], n * 5, "rax = n * rcx");
    assert_eq!(cpu.r[3], 0, "rbx counted to 0");
}

/// Regions go to the host's engine, once it has said that it has one.
#[test]
fn region_executor_seam_routes_through_the_injected_executor() {
    let mut cpu = Cpu::new(64 * 1024);
    loop_setup(&mut cpu, &LOOP, 8);
    let mut jit = Jit::new();
    assert_eq!(run_region(&mut cpu, &mut jit), (false, false), "no engine");
    set_region_executor(&mut jit);
    let (_, called) = run_region(&mut cpu, &mut jit);
    assert!(called, "the region goes to the host's engine");
}

/// A loop run with the region compiler on ends as it does without.
#[test]
fn run_loop_through_region_jit_matches_interpreter() {
    let mut code = LOOP.to_vec();
    code.extend([0x90; 220]);
    let n = 20u64;
    let budget = 200u64;
    let mut interp = Cpu::new(64 * 1024);
    loop_setup(&mut interp, &code, n);
    drive(&mut interp, &mut Jit::new(), budget);

    let mut jit = Jit::new();
    set_region_executor(&mut jit);
    set_region_jit_on(&mut jit, true);
    let mut cpu = Cpu::new(64 * 1024);
    loop_setup(&mut cpu, &code, n);
    let (_, calls) = drive(&mut cpu, &mut jit, budget);
    assert!(calls > 0, "the loop got hot");
    assert_eq!(cpu.r, interp.r, "registers");
    assert_eq!(cpu.rflags, interp.rflags, "rflags");
    assert_eq!(cpu.rip, interp.rip, "rip");
    assert_eq!(cpu.r[0], n * 5, "loop result rax = n * rcx");
}

/// A region that disagrees with the interpreter is refused for good; the report tells where.
#[test]
fn a_diverging_region_is_refused_and_reported() {
    let n = 200u64;
    let mut jit = Jit::new();
    set_region_executor(&mut jit);
    set_region_notrust(&mut jit, true);
    let mut cpu = Cpu::new(64 * 1024);
    loop_setup(&mut cpu, &LOOP, n);
    let (off, room) = cpu.jit_window().unwrap();
    let order = cpu.jit_order_region(&jit, off, room, loop_blocks()).unwrap();
    let mut res = engine(&cpu, 0, 8);
    res.regs[0] ^= 1;
    assert!(!cpu.jit_apply_region(&mut jit, order, Some(res)));
    drive(&mut cpu, &mut Jit::new(), n * 3);
    cpu.jit_region_shadow_check(&mut jit);
    let d = drain_region_divergence(&mut jit).expect("a divergence");
    assert_eq!((d.start, d.exit), (0, 8));
    assert_eq!(d.regs, vec![(0usize, n * 5 ^ 1, n * 5)]);
    assert!(drain_region_divergence(&mut jit).is_none());
    let mut again = Cpu::new(64 * 1024);
    loop_setup(&mut again, &LOOP, n);
    assert_eq!(run_region(&mut again, &mut jit), (false, false), "refused");
}

/// Under `notrust` even trusted code is only compared.
#[test]
fn notrust_never_commits() {
    let n = 200u64;
    let mut jit = Jit::new();
    set_region_executor(&mut jit);
    set_region_notrust(&mut jit, true);
    for _ in 0..JIT_TRUST_K + 2 {
        let mut cpu = Cpu::new(64 * 1024);
        loop_setup(&mut cpu, &LOOP, n);
        assert_eq!(run_region(&mut cpu, &mut jit), (false, true));
        drive(&mut cpu, &mut Jit::new(), n * 3);
        cpu.jit_region_shadow_check(&mut jit);
    }
    assert!(drain_region_divergence(&mut jit).is_none());
}

/// A loop too short to pay for its crossing is refused though it agrees.
#[test]
fn a_short_region_is_refused() {
    let mut jit = Jit::new();
    set_region_executor(&mut jit);
    let mut cpu = Cpu::new(64 * 1024);
    loop_setup(&mut cpu, &LOOP, 8);
    assert_eq!(run_region(&mut cpu, &mut jit), (false, true));
    drive(&mut cpu, &mut Jit::new(), 8 * 3);
    cpu.jit_region_shadow_check(&mut jit);
    let mut again = Cpu::new(64 * 1024);
    loop_setup(&mut again, &LOOP, 8);
    assert_eq!(run_region(&mut again, &mut jit), (false, false));
}

/// Blocks are compared, trusted after enough matches, and committed.
#[test]
fn blocks_are_trusted_after_enough_matches() {
    let mut code = Vec::new();
    for _ in 0..8 {
        code.extend([0x48, 0xff, 0xc0]); // inc rax
    }
    code.extend([0xeb, 0xe6]); // back to the start
    let mut jit = Jit::new();
    set_jit_on(&mut jit, true);
    let mut cpu = Cpu::new(64 * 1024);
    cpu.load_at(0, &code);
    let mut run = Run::new(200);
    loop {
        match cpu.run(&mut jit, &mut run) {
            Event::Halt(h) => {
                assert_eq!(h, Halt::OutOfBudget);
                break;
            },
            Event::Decode(bytes) => {
                let found = if bytes[..code.len()] == code[..] { (8, 24) } else { (0, 0) };
                if let Some((_, go)) = cpu.block_found(&mut jit, &mut run, found.0, found.1, false) {
                    assert!(go);
                    let res = engine(&cpu, 0, 24);
                    cpu.block_ran(&mut jit, &mut run, true, Some(res));
                }
            },
            _ => panic!("the host has nothing to do here"),
        }
    }
    let (decoded, seen, compiled, matched, mismatched, trusted, refused, committed) = drain_jit_stats(&mut jit);
    assert_eq!((seen, compiled, trusted, refused, mismatched), (1, 1, 1, 0, 0));
    assert_eq!(matched, u64::from(JIT_TRUST_K));
    assert_eq!(decoded, matched + committed);
    assert!(committed > 0);
    let mut plain = Cpu::new(64 * 1024);
    plain.load_at(0, &code);
    drive(&mut plain, &mut Jit::new(), cpu.insns);
    assert_eq!((cpu.r, cpu.rip, cpu.rflags), (plain.r, plain.rip, plain.rflags));
    assert_eq!(drain_jit_diag(&mut jit), (0, 0, 0, 0));
}

/// A block that disagrees is counted by what differs, and never run again.
#[test]
fn a_diverging_block_is_counted_and_refused() {
    let mut code = Vec::new();
    for _ in 0..8 {
        code.extend([0x48, 0xff, 0xc0]);
    }
    code.push(0xf4);
    let mut jit = Jit::new();
    let mut cpu = Cpu::new(64 * 1024);
    cpu.load_at(0, &code);
    let (off, room) = cpu.jit_window().unwrap();
    assert!(cpu.jit_order_block(&mut jit, off, room, 7, 21, false).is_none(), "too short");
    let order = cpu.jit_order_block(&mut jit, off, room, 8, 24, true).unwrap();
    assert!(order.run);
    let mut res = engine(&cpu, 0, 24);
    res.regs[1] = 77;
    res.rflags ^= 1;
    assert!(!cpu.jit_apply_block(&mut jit, &order, true, Some(res)));
    for _ in 0..8 {
        cpu.jit_shadow_check(&mut jit);
        assert!(matches!(cpu.step(&mut Prof::new()), Step::Done));
    }
    cpu.jit_shadow_check(&mut jit);
    assert_eq!(drain_jit_diag(&mut jit), (1, 1, 0, 1));
    cpu.rip = 0;
    let again = cpu.jit_order_block(&mut jit, off, room, 8, 24, true).unwrap();
    assert!(!again.run);
}
