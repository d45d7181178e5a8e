//! Floating-point instructions, with a host that does the arithmetic.
use holospaces::cpu::{Cpu, Halt};
use holospaces::decode::{Conv, FpAsk, FpOp, Round};
use holospaces::flags::{CF, PF, ZF};
use holospaces::jit::Jit;
use holospaces::run::{Event, Run};

fn rounded(v: f64, mode: Round) -> f64 {
    match mode {
        Round::Nearest => v.round_ties_even(),
        Round::Down => v.floor(),
        Round::Up => v.ceil(),
        Round::Zero => v.trunc(),
    }
}

fn to_i64(v: f64, mode: Round) -> i64 {
    let r = rounded(v, mode);
    if r.is_nan() || r >= 9.223_372_036_854_776e18 || r < -9.223_372_036_854_776e18 {
        i64::MIN
    } else {
        r as i64
    }
}

fn to_i32(v: f64, mode: Round) -> i32 {
    let r = rounded(v, mode);
    if r.is_nan() || r >= 2_147_483_648.0 || r < -2_147_483_648.0 {
        i32::MIN
    } else {
        r as i32
    }
}

fn order(x: f64, y: f64) -> u64 {
    if x.is_nan() || y.is_nan() {
        3
    } else if x > y {
        0
    } else if x < y {
        1
    } else {
        2
    }
}

fn pow2(k: i32) -> f64 {
    if k >= 1024 {
        f64::INFINITY
    } else if k < -1022 {
        0.0
    } else {
        f64::from_bits(((k + 1023) as u64) << 52)
    }
}

/// Answer a request.
fn answers(a: &FpAsk) -> Vec<u64> {
    let mut out = Vec::new();
    for &(x, y) in &a.lanes {
        let x64 = f64::from_bits(x);
        let y64 = match a.conv {
            Conv::Same => f64::from_bits(y),
            Conv::Single => f64::from(f32::from_bits(y as u32)),
            Conv::Int => y as i64 as f64,
        };
        let x32 = f32::from_bits(x as u32);
        let y32 = f32::from_bits(y as u32);
        let single = |v: f32| u64::from(v.to_bits());
        let r = match a.op {
            FpOp::Take64 => y64.to_bits(),
            FpOp::Plus64 => (x64 + y64).to_bits(),
            FpOp::Minus64 => (x64 - y64).to_bits(),
            FpOp::MinusRev64 => (y64 - x64).to_bits(),
            FpOp::Times64 => (x64 * y64).to_bits(),
            FpOp::Over64 => (x64 / y64).to_bits(),
            FpOp::OverRev64 => (y64 / x64).to_bits(),
            FpOp::Rem64 => (x64 % y64).to_bits(),
            FpOp::Order64 => order(x64, y64),
            FpOp::Sqrt64 => y64.sqrt().to_bits(),
            FpOp::Sin64 => y64.sin().to_bits(),
            FpOp::Cos64 => y64.cos().to_bits(),
            FpOp::Exp2Less1 => (y64.exp2() - 1.0).to_bits(),
            FpOp::Plus32 => single(x32 + y32),
            FpOp::Minus32 => single(x32 - y32),
            FpOp::Times32 => single(x32 * y32),
            FpOp::Over32 => single(x32 / y32),
            FpOp::Order32 => order(f64::from(x32), f64::from(y32)),
            FpOp::Sqrt32 => single(y32.sqrt()),
            FpOp::Narrow => single(y64 as f32),
            FpOp::IntTo32 => single(y as i64 as f32),
            FpOp::ToI64(m) => to_i64(y64, m) as u64,
            FpOp::ToI32(m) => to_i32(y64, m) as u32 as u64,
            FpOp::RoundInt(m) => (to_i64(y64, m) as f64).to_bits(),
            FpOp::From80 => {
                let sign = if y & 0x8000 != 0 { -1.0 } else { 1.0 };
                let exp = (y & 0x7fff) as i32;
                let v = if exp == 0 && x == 0 {
                    sign * 0.0
                } else if exp == 0x7fff {
                    if x << 1 == 0 { sign * f64::INFINITY } else { f64::NAN }
                } else {
                    sign * (x as f64) * pow2(exp - 16383 - 63)
                };
                v.to_bits()
            },
            FpOp::To80 => {
                let sign = if y64.is_sign_negative() { 0x8000 } else { 0 };
                let v = y64.abs();
                let (m, e) = if v == 0.0 {
                    (0, 0)
                } else if v.is_infinite() {
                    (0x8000_0000_0000_0000, 0x7fff)
                } else if v.is_nan() {
                    (0xC000_0000_0000_0000, 0x7fff)
                } else {
                    let e = v.log2().floor() as i32;
                    ((v * pow2(63 - e)).round() as u64, (e + 16383) as u64)
                };
                out.push(m);
                sign | e
            },
        };
        out.push(r);
    }
    out
}

fn drive(cpu: &mut Cpu, n: u64) -> Halt {
    let mut run = Run::new(n);
    loop {
        match cpu.run(&mut Jit::new(), &mut run) {
            Event::Halt(h) => return h,
            Event::Fp(ask, saved) => {
                let res = answers(&ask);
                cpu.complete(&ask, saved, &res);
            },
            _ => panic!("only arithmetic is asked for here"),
        }
    }
}

/// Run one instruction at `0x1000` on a prepared machine.
fn exec(code: &[u8], setup: impl FnOnce(&mut Cpu)) -> Cpu {
    let mut cpu = Cpu::new(0x10000);
    cpu.load_at(0x1000, code);
    cpu.rip = 0x1000;
    cpu.rflags = 0x2;
    setup(&mut cpu);
    assert_eq!(drive(&mut cpu, 1), Halt::OutOfBudget);
    assert_eq!(cpu.rip, 0x1000 + code.len() as u64);
    cpu
}

fn two(a: f64, b: f64) -> u128 {
    u128::from(a.to_bits()) | u128::from(b.to_bits()) << 64
}

fn four(v: [f32; 4]) -> u128 {
    v.iter().rev().fold(0, |w, x| w << 32 | u128::from(x.to_bits()))
}

#[test]
fn scalar_and_packed_arithmetic() {
    // addsd xmm0, xmm1: the upper half stays
    let c = exec(&[0xf2, 0x0f, 0x58, 0xc1], |c| { c.xmm[0] = two(1.5, 9.0); c.xmm[1] = two(2.25, 7.0); });
    assert_eq!(c.xmm[0], two(3.75, 9.0));
    // mulpd
    let c = exec(&[0x66, 0x0f, 0x59, 0xc1], |c| { c.xmm[0] = two(1.5, 9.0); c.xmm[1] = two(2.0, -1.0); });
    assert_eq!(c.xmm[0], two(3.0, -9.0));
    // subps
    let c = exec(&[0x0f, 0x5c, 0xc1], |c| { c.xmm[0] = four([1.0, 2.0, 3.0, 4.0]); c.xmm[1] = four([4.0, 3.0, 2.0, 1.0]); });
    assert_eq!(c.xmm[0], four([-3.0, -1.0, 1.0, 3.0]));
    // divss: three lanes stay
    let c = exec(&[0xf3, 0x0f, 0x5e, 0xc1], |c| { c.xmm[0] = four([1.0, 2.0, 3.0, 4.0]); c.xmm[1] = four([4.0, 3.0, 2.0, 1.0]); });
    assert_eq!(c.xmm[0], four([0.25, 2.0, 3.0, 4.0]));
    // sqrtsd
    let c = exec(&[0xf2, 0x0f, 0x51, 0xc1], |c| { c.xmm[1] = two(6.25, 0.0); });
    assert_eq!(c.xmm[0], two(2.5, 0.0));
}

#[test]
fn minimum_and_maximum_take_the_source_when_unordered() {
    // minsd, maxsd
    for (op, want) in [(0x5d, -1.0), (0x5f, 2.0)] {
        let c = exec(&[0xf2, 0x0f, op, 0xc1], |c| { c.xmm[0] = two(-1.0, 0.0); c.xmm[1] = two(2.0, 0.0); });
        assert_eq!(c.xmm[0], two(want, 0.0));
        let c = exec(&[0xf2, 0x0f, op, 0xc1], |c| { c.xmm[0] = two(f64::NAN, 0.0); c.xmm[1] = two(2.0, 0.0); });
        assert_eq!(c.xmm[0], two(2.0, 0.0));
    }
}

#[test]
fn ordered_comparisons_set_the_flags() {
    // ucomisd xmm0, xmm1
    for (a, b, want) in [
        (2.0, 1.0, 0),
        (1.0, 2.0, CF),
        (1.0, 1.0, ZF),
        (f64::INFINITY, f64::INFINITY, ZF),
        (f64::NAN, 1.0, ZF | PF | CF),
    ] {
        let c = exec(&[0x66, 0x0f, 0x2e, 0xc1], |c| { c.xmm[0] = two(a, 0.0); c.xmm[1] = two(b, 0.0); });
        assert_eq!(c.rflags & (CF | PF | ZF), want, "{a} {b}");
    }
    // cmppd with the predicates lt and unord
    let c = exec(&[0x66, 0x0f, 0xc2, 0xc1, 1], |c| { c.xmm[0] = two(1.0, 5.0); c.xmm[1] = two(2.0, 5.0); });
    assert_eq!(c.xmm[0], u128::from(u64::MAX));
    let c = exec(&[0x66, 0x0f, 0xc2, 0xc1, 3], |c| { c.xmm[0] = two(1.0, 5.0); c.xmm[1] = two(2.0, f64::NAN); });
    assert_eq!(c.xmm[0], u128::from(u64::MAX) << 64);
}

#[test]
fn conversions() {
    // cvtsi2sd xmm0, rcx
    let c = exec(&[0xf2, 0x48, 0x0f, 0x2a, 0xc1], |c| c.r[1] = -7i64 as u64);
    assert_eq!(c.xmm[0], two(-7.0, 0.0));
    // cvttsd2si rax, xmm1 and cvtsd2si rax, xmm1
    let c = exec(&[0xf2, 0x48, 0x0f, 0x2c, 0xc1], |c| c.xmm[1] = two(-2.5, 0.0));
    assert_eq!(c.r[0] as i64, -2);
    let c = exec(&[0xf2, 0x48, 0x0f, 0x2d, 0xc1], |c| c.xmm[1] = two(3.5, 0.0));
    assert_eq!(c.r[0], 4);
    // cvttsd2si eax, xmm1 on what does not fit
    for v in [1e20, f64::NAN] {
        let c = exec(&[0xf2, 0x0f, 0x2c, 0xc1], |c| { c.r[0] = u64::MAX; c.xmm[1] = two(v, 0.0); });
        assert_eq!(c.r[0], 0x8000_0000);
    }
    // cvtss2sd, cvtsd2ss
    let c = exec(&[0xf3, 0x0f, 0x5a, 0xc1], |c| c.xmm[1] = four([0.5, 0.0, 0.0, 0.0]));
    assert_eq!(c.xmm[0], two(0.5, 0.0));
    let c = exec(&[0xf2, 0x0f, 0x5a, 0xc1], |c| c.xmm[1] = two(-0.5, 0.0));
    assert_eq!(c.xmm[0], four([-0.5, 0.0, 0.0, 0.0]));
    // cvttps2dq
    let c = exec(&[0xf3, 0x0f, 0x5b, 0xc1], |c| c.xmm[1] = four([1.9, -1.9, 0.0, 1e20]));
    assert_eq!(c.xmm[0], 0x8000_0000_0000_0000_ffff_ffff_0000_0001);
}

#[test]
fn the_x87_stack() {
    // fld qword [0x2000]; fadd qword [0x2008]; fstp qword [0x2010]; hlt
    let code = [
        0xdd, 0x04, 0x25, 0x00, 0x20, 0, 0, // fld
        0xdc, 0x04, 0x25, 0x08, 0x20, 0, 0, // fadd
        0xdd, 0x1c, 0x25, 0x10, 0x20, 0, 0, // fstp
        0xf4,
    ];
    let mut cpu = Cpu::new(0x10000);
    cpu.load_at(0, &code);
    cpu.rflags = 0x2;
    cpu.ram[0x2000..0x2008].copy_from_slice(&2.5f64.to_le_bytes());
    cpu.ram[0x2008..0x2010].copy_from_slice(&0.25f64.to_le_bytes());
    let top = cpu.ftop;
    assert_eq!(drive(&mut cpu, 100), Halt::Halted);
    assert_eq!(cpu.ram[0x2010..0x2018], 2.75f64.to_le_bytes());
    assert_eq!(cpu.ftop, top, "the push was popped");
}

#[test]
fn extended_precision_and_integers_on_the_x87_stack() {
    // fild dword [0x2000]; fstp tbyte [0x2010]; fld tbyte [0x2010]; fistp qword [0x2020]; hlt
    let code = [
        0xdb, 0x04, 0x25, 0x00, 0x20, 0, 0,
        0xdb, 0x3c, 0x25, 0x10, 0x20, 0, 0,
        0xdb, 0x2c, 0x25, 0x10, 0x20, 0, 0,
        0xdf, 0x3c, 0x25, 0x20, 0x20, 0, 0,
        0xf4,
    ];
    let mut cpu = Cpu::new(0x10000);
    cpu.load_at(0, &code);
    cpu.rflags = 0x2;
    cpu.ram[0x2000..0x2004].copy_from_slice(&(-12i32).to_le_bytes());
    assert_eq!(drive(&mut cpu, 100), Halt::Halted);
    // -12 is -1.5 * 2^3
    assert_eq!(cpu.ram[0x2010..0x2018], 0xc000_0000_0000_0000u64.to_le_bytes());
    assert_eq!(cpu.ram[0x2018..0x201a], (0x8000u16 | (16383 + 3)).to_le_bytes());
    assert_eq!(cpu.ram[0x2020..0x2028], (-12i64).to_le_bytes());
}

/// The save area gives back what it was given.
#[test]
fn save_and_restore_of_the_vector_state() {
// fxsave and fxrstor, xsave and xrstor, on one page and across two that lie apart
    for (save, back, at) in [(0x04, 0x0c, 0x2000u16), (0x24, 0x2c, 0x2000), (0x04, 0x0c, 0x2f10), (0x24, 0x2c, 0x2e04)] {
        let [lo, hi] = at.to_le_bytes();
        let mut cpu = Cpu::new(0x10000);
        cpu.load_at(0x1000, &[0x0f, 0xae, save, 0x25, lo, hi, 0, 0]);
        cpu.load_at(0x1100, &[0x0f, 0xae, back, 0x25, lo, hi, 0, 0]);
        for (at, entry) in [
            (0x4000, 0x5003u64),
            (0x5000, 0x6003),
            (0x6000, 0x7003),
            (0x7000 + 8, 0x1003),
            (0x7000 + 16, 0xc003),
            (0x7000 + 24, 0x8003),
        ] {
            cpu.ram[at..at + 8].copy_from_slice(&entry.to_le_bytes());
        }
        cpu.cr3 = 0x4000;
        cpu.cr4 = 1 << 5;
        cpu.efer = 1 << 8;
        cpu.cr0 = 1 << 31;
        for i in 0..16 {
            cpu.xmm[i] = 0x1111_2222_3333_4444_5555_6666_7777_0000 + i as u128;
        }
        cpu.fpr = [1.0f64, -2.5, 3.0, 0.0, 1e9, 0.125, 42.0, 7.0].map(f64::to_bits);
        cpu.ftop = 3;
        cpu.fcw = 0x27f;
        let (x, f) = (cpu.xmm, cpu.fpr);
        cpu.rip = 0x1000;
        drive(&mut cpu, 1);
        cpu.xmm = [0; 16];
        cpu.fpr = [0; 8];
        cpu.ftop = 0;
        cpu.fcw = 0;
        cpu.rip = 0x1100;
        drive(&mut cpu, 1);
        assert_eq!(cpu.xmm, x);
        assert_eq!(cpu.fpr, f);
        assert_eq!((cpu.ftop, cpu.fcw), (3, 0x27f));
    }
}
