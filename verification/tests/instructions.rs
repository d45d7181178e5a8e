//! Single instructions and short programs.
use holospaces::cpu::{Cpu, Halt, Seg, CS, RAX, RCX, RDI, RDX, RSI, RSP};
use holospaces::decode::RepKind;
use holospaces::flags::{CF, RFLAGS_AC, RFLAGS_DF, ZF};
use holospaces::jit::Jit;
use holospaces::run::{Event, Run};
use holospaces::step::Step;
use holospaces::string_ops::StringOp;
use holospaces::profile::Prof;

/// Run at most `n` steps of a machine without devices or floating point.
fn drive(cpu: &mut Cpu, n: u64) -> Halt {
    match cpu.run(&mut Jit::new(), &mut Run::new(n)) {
        Event::Halt(h) => h,
        _ => panic!("the host has nothing to do here"),
    }
}

/// One instruction, which must not stop the machine.
fn stepped(cpu: &mut Cpu) {
    assert!(matches!(cpu.step(&mut Prof::new()), Step::Done));
}

/// Load a flat program and run it; it must stop cleanly.
fn run(code: &[u8]) -> Cpu {
    let mut cpu = Cpu::new(64 * 1024);
    cpu.load_at(0, code);
    let h = drive(&mut cpu, 100_000);
    assert!(matches!(h, Halt::Halted | Halt::OutOfBudget), "unexpected halt: {h:?}");
    cpu
}

/// `CMPXCHG`, `XADD` and `XCHG` on registers, against a model of each.
#[test]
fn atomic_ops_match_reference() {
    const ZF: u64 = 1 << 6;
    let run = |bytes: &[u8], eax: u64, ebx: u64, ecx: u64| -> (u64, u64, u64, bool) {
        let mut cpu = Cpu::new(0x10000);
        cpu.ram[0x1000..0x1000 + bytes.len()].copy_from_slice(bytes);
        cpu.rip = 0x1000;
        cpu.rflags = 0x2;
        cpu.r[RAX] = eax; cpu.r[3] = ebx; cpu.r[RCX] = ecx;
        let _ = cpu.step(&mut Prof::new());
        (cpu.r[RAX] & 0xffff_ffff, cpu.r[3] & 0xffff_ffff, cpu.r[RCX] & 0xffff_ffff, cpu.rflags & ZF != 0)
    };
    let mut fails: Vec<String> = Vec::new();
    for (eax, ebx, ecx) in [(5u64,5u64,9u64),(5,7,9),(0,0,1),(0xffffffff,0xffffffff,1),(0x80000000,0x80000000,2),(1,2,3)] {
        let (ra, rb, _rc, zf) = run(&[0x0f, 0xb1, 0xcb], eax, ebx, ecx);
        let (wa, wb, wzf) = if eax == ebx { (eax, ecx, true) } else { (ebx, ebx, false) };
        if ra != wa || rb != wb || zf != wzf {
            fails.push(format!("cmpxchg eax={eax:#x} ebx={ebx:#x} ecx={ecx:#x}: emu(eax={ra:#x},ebx={rb:#x},zf={zf}) ref(eax={wa:#x},ebx={wb:#x},zf={wzf})"));
        }
        let (_ra, rb, rc, _zf) = run(&[0x0f, 0xc1, 0xcb], eax, ebx, ecx);
        let (wb, wc) = ((ebx + ecx) & 0xffff_ffff, ebx);
        if rb != wb || rc != wc {
            fails.push(format!("xadd ebx={ebx:#x} ecx={ecx:#x}: emu(ebx={rb:#x},ecx={rc:#x}) ref(ebx={wb:#x},ecx={wc:#x})"));
        }
        let (_ra, rb, rc, _zf) = run(&[0x87, 0xcb], eax, ebx, ecx);
        if rb != ecx || rc != ebx {
            fails.push(format!("xchg ebx={ebx:#x} ecx={ecx:#x}: emu(ebx={rb:#x},ecx={rc:#x})"));
        }
    }
    assert!(fails.is_empty(), "{} atomic mismatches:\n{}", fails.len(), fails.join("\n"));
}

/// The packed-integer operations, lane by lane, against a model of each.
#[test]
fn simd_ops_match_reference() {
    fn emu(bytes: &[u8], a: u128, b: u128) -> u128 {
        let mut cpu = Cpu::new(0x10000);
        cpu.ram[0x1000..0x1000 + bytes.len()].copy_from_slice(bytes);
        cpu.rip = 0x1000;
        cpu.rflags = 0x2;
        cpu.xmm[0] = a;
        cpu.xmm[1] = b;
        let _ = cpu.step(&mut Prof::new());
        cpu.xmm[0]
    }
    let lanes = |v: u128, sz: usize| -> Vec<u64> {
        (0..16 / sz).map(|i| {
            let mut x = 0u64;
            for k in 0..sz { x |= (((v >> (8 * (i * sz + k))) & 0xff) as u64) << (8 * k); }
            x
        }).collect()
    };
    let pack = |ls: &[u64], sz: usize| -> u128 {
        let mut v = 0u128;
        for (i, &x) in ls.iter().enumerate() {
            for k in 0..sz { v |= (u128::from((x >> (8 * k)) & 0xff)) << (8 * (i * sz + k)); }
        }
        v
    };
    let sx = |x: u64, sz: usize| -> i64 { let s = 64 - sz * 8; ((x << s) as i64) >> s };
    let binlane = |a: u128, b: u128, sz: usize, f: &dyn Fn(u64, u64) -> u64| -> u128 {
        let (la, lb) = (lanes(a, sz), lanes(b, sz));
        pack(&la.iter().zip(&lb).map(|(&x, &y)| f(x, y) & ((1u128 << (8 * sz)) - 1) as u64).collect::<Vec<_>>(), sz)
    };
    let mask = |sz: usize| -> u64 { if sz == 8 { u64::MAX } else { (1u64 << (8 * sz)) - 1 } };

    let vecs: [u128; 8] = [
        0,
        u128::MAX,
        0x0102_0304_0506_0708_090a_0b0c_0d0e_0f10,
        0x8080_8080_8080_8080_8080_8080_8080_8080,
        0x7fff_7fff_7fff_7fff_7fff_7fff_7fff_7fff,
        0xffff_0001_8000_7fff_0000_ffff_1234_abcd,
        0xdead_beef_cafe_babe_0bad_f00d_1337_c0de,
        0x00ff_00ff_00ff_00ff_00ff_00ff_00ff_00ff,
    ];
    let mut fails: Vec<String> = Vec::new();
    let mut chk = |name: &str, bytes: &[u8], a: u128, b: u128, want: u128| {
        let got = emu(bytes, a, b);
        if got != want {
            fails.push(format!("{name} a={a:032x} b={b:032x}: emu={got:032x} ref={want:032x}"));
        }
    };

    for &a in &vecs {
        for &b in &vecs {
            for (nm, op, sz) in [("paddb",0xfc,1),("paddw",0xfd,2),("paddd",0xfe,4),("paddq",0xd4,8)] {
                chk(nm, &[0x66,0x0f,op,0xc1], a, b, binlane(a,b,sz,&|x,y| x.wrapping_add(y)));
            }
            for (nm, op, sz) in [("psubb",0xf8,1),("psubw",0xf9,2),("psubd",0xfa,4),("psubq",0xfb,8)] {
                chk(nm, &[0x66,0x0f,op,0xc1], a, b, binlane(a,b,sz,&|x,y| x.wrapping_sub(y)));
            }
            for (nm, op, sz) in [("pcmpeqb",0x74,1),("pcmpeqw",0x75,2),("pcmpeqd",0x76,4)] {
                let m = mask(sz);
                chk(nm, &[0x66,0x0f,op,0xc1], a, b, binlane(a,b,sz,&|x,y| if x==y {m} else {0}));
            }
            for (nm, op, sz) in [("pcmpgtb",0x64,1),("pcmpgtw",0x65,2),("pcmpgtd",0x66,4)] {
                let m = mask(sz);
                chk(nm, &[0x66,0x0f,op,0xc1], a, b, binlane(a,b,sz,&|x,y| if sx(x,sz) > sx(y,sz) {m} else {0}));
            }
            chk("pand", &[0x66,0x0f,0xdb,0xc1], a, b, a & b);
            chk("pandn", &[0x66,0x0f,0xdf,0xc1], a, b, !a & b);
            chk("por", &[0x66,0x0f,0xeb,0xc1], a, b, a | b);
            chk("pxor", &[0x66,0x0f,0xef,0xc1], a, b, a ^ b);
            chk("pmullw", &[0x66,0x0f,0xd5,0xc1], a, b, binlane(a,b,2,&|x,y| (x.wrapping_mul(y)) & 0xffff));
            chk("pmulhw", &[0x66,0x0f,0xe5,0xc1], a, b, binlane(a,b,2,&|x,y| ((sx(x,2)*sx(y,2)) >> 16) as u64 & 0xffff));
            chk("pmulhuw", &[0x66,0x0f,0xe4,0xc1], a, b, binlane(a,b,2,&|x,y| ((x*y) >> 16) & 0xffff));
            chk("pminub", &[0x66,0x0f,0xda,0xc1], a, b, binlane(a,b,1,&|x,y| x.min(y)));
            chk("pmaxub", &[0x66,0x0f,0xde,0xc1], a, b, binlane(a,b,1,&|x,y| x.max(y)));
            chk("pminsw", &[0x66,0x0f,0xea,0xc1], a, b, binlane(a,b,2,&|x,y| (sx(x,2).min(sx(y,2))) as u64 & 0xffff));
            chk("pmaxsw", &[0x66,0x0f,0xee,0xc1], a, b, binlane(a,b,2,&|x,y| (sx(x,2).max(sx(y,2))) as u64 & 0xffff));
            chk("paddusb", &[0x66,0x0f,0xdc,0xc1], a, b, binlane(a,b,1,&|x,y| (x+y).min(0xff)));
            chk("paddusw", &[0x66,0x0f,0xdd,0xc1], a, b, binlane(a,b,2,&|x,y| (x+y).min(0xffff)));
            chk("psubusb", &[0x66,0x0f,0xd8,0xc1], a, b, binlane(a,b,1,&|x,y| x.saturating_sub(y)));
            chk("psubusw", &[0x66,0x0f,0xd9,0xc1], a, b, binlane(a,b,2,&|x,y| x.saturating_sub(y)));
            chk("paddsb", &[0x66,0x0f,0xec,0xc1], a, b, binlane(a,b,1,&|x,y| (sx(x,1)+sx(y,1)).clamp(-128,127) as u64 & 0xff));
            chk("paddsw", &[0x66,0x0f,0xed,0xc1], a, b, binlane(a,b,2,&|x,y| (sx(x,2)+sx(y,2)).clamp(-32768,32767) as u64 & 0xffff));
            chk("psubsb", &[0x66,0x0f,0xe8,0xc1], a, b, binlane(a,b,1,&|x,y| (sx(x,1)-sx(y,1)).clamp(-128,127) as u64 & 0xff));
            chk("psubsw", &[0x66,0x0f,0xe9,0xc1], a, b, binlane(a,b,2,&|x,y| (sx(x,2)-sx(y,2)).clamp(-32768,32767) as u64 & 0xffff));
            chk("pavgb", &[0x66,0x0f,0xe0,0xc1], a, b, binlane(a,b,1,&|x,y| (x+y+1) >> 1));
            chk("pavgw", &[0x66,0x0f,0xe3,0xc1], a, b, binlane(a,b,2,&|x,y| (x+y+1) >> 1));
            {
                let (lb_, hb_) = (lanes(a,1), lanes(b,1));
                let lo: Vec<u64> = (0..8).flat_map(|i| [lb_[i], hb_[i]]).collect();
                chk("punpcklbw", &[0x66,0x0f,0x60,0xc1], a, b, pack(&lo,1));
                let hi: Vec<u64> = (8..16).flat_map(|i| [lb_[i], hb_[i]]).collect();
                chk("punpckhbw", &[0x66,0x0f,0x68,0xc1], a, b, pack(&hi,1));
                let (lw, hw) = (lanes(a,2), lanes(b,2));
                let lo: Vec<u64> = (0..4).flat_map(|i| [lw[i], hw[i]]).collect();
                chk("punpcklwd", &[0x66,0x0f,0x61,0xc1], a, b, pack(&lo,2));
                let (ld, hd) = (lanes(a,4), lanes(b,4));
                let lo: Vec<u64> = (0..2).flat_map(|i| [ld[i], hd[i]]).collect();
                chk("punpckldq", &[0x66,0x0f,0x62,0xc1], a, b, pack(&lo,4));
            }
            {
                let usb = |w: i64| w.clamp(0,255) as u64;
                let mut o: Vec<u64> = lanes(a,2).iter().map(|&x| usb(sx(x,2))).collect();
                o.extend(lanes(b,2).iter().map(|&y| usb(sx(y,2))));
                chk("packuswb", &[0x66,0x0f,0x67,0xc1], a, b, pack(&o,1));
                let ssb = |w: i64| w.clamp(-128,127) as u64 & 0xff;
                let mut o: Vec<u64> = lanes(a,2).iter().map(|&x| ssb(sx(x,2))).collect();
                o.extend(lanes(b,2).iter().map(|&y| ssb(sx(y,2))));
                chk("packsswb", &[0x66,0x0f,0x63,0xc1], a, b, pack(&o,1));
                let ssw = |d: i64| d.clamp(-32768,32767) as u64 & 0xffff;
                let mut o: Vec<u64> = lanes(a,4).iter().map(|&x| ssw(sx(x,4))).collect();
                o.extend(lanes(b,4).iter().map(|&y| ssw(sx(y,4))));
                chk("packssdw", &[0x66,0x0f,0x6b,0xc1], a, b, pack(&o,2));
            }
            {
                let (la, lb) = (lanes(a,2), lanes(b,2));
                let mut o = [0u64; 4];
                for j in 0..4 { o[j] = ((sx(la[2*j],2)*sx(lb[2*j],2) + sx(la[2*j+1],2)*sx(lb[2*j+1],2)) as u64) & 0xffff_ffff; }
                chk("pmaddwd", &[0x66,0x0f,0xf5,0xc1], a, b, pack(&o,4));
            }
            {
                let (la, lb) = (lanes(a,1), lanes(b,1));
                let mut o = [0u64; 2];
                for h in 0..2 { let mut s=0u64; for k in 0..8 { s += (la[h*8+k] as i64 - lb[h*8+k] as i64).unsigned_abs(); } o[h]=s; }
                chk("psadbw", &[0x66,0x0f,0xf6,0xc1], a, b, pack(&o,8));
            }
            {
                let ld = lanes(b,4);
                let imm = 0x1bu8;
                let o: Vec<u64> = (0..4).map(|i| ld[((imm >> (2*i)) & 3) as usize]).collect();
                chk("pshufd", &[0x66,0x0f,0x70,0xc1,imm], a, b, pack(&o,4));
            }
        }
    }
    for &a in &vecs {
        let mut cpu = Cpu::new(0x10000);
        cpu.ram[0x1000..0x1004].copy_from_slice(&[0x66,0x0f,0xd7,0xc1]);
        cpu.rip = 0x1000; cpu.rflags = 0x2; cpu.xmm[1] = a;
        let _ = cpu.step(&mut Prof::new());
        let mut want = 0u64;
        for i in 0..16 { if (a >> (8*i+7)) & 1 == 1 { want |= 1 << i; } }
        if cpu.r[RAX] != want { fails.push(format!("pmovmskb a={a:032x}: emu={:#x} ref={want:#x}", cpu.r[RAX])); }
    }
    assert!(fails.is_empty(), "{} SIMD mismatches:\n{}", fails.len(), fails.join("\n"));
}

/// The integer operations and their flags, against a model of each.
#[test]
fn integer_ops_match_reference() {
    const CF: u64 = 1 << 0;
    const PF: u64 = 1 << 2;
    const AF: u64 = 1 << 4;
    const ZF: u64 = 1 << 6;
    const SF: u64 = 1 << 7;
    const OF: u64 = 1 << 11;
    const ALL: u64 = CF | PF | ZF | SF | OF;
    let _ = AF;
    let msb = 0x8000_0000u32;
    let par = |r: u32| (r as u8).count_ones() % 2 == 0;
    let mk = |r: u32, cf: bool, af: bool, of: bool| -> u64 {
        u64::from(cf) | (u64::from(par(r)) << 2) | (u64::from(af) << 4)
            | (u64::from(r == 0) << 6) | (u64::from(r >> 31) << 7) | (u64::from(of) << 11)
    };

    fn emu(bytes: &[u8], a: u64, b: u64) -> (u64, u64) {
        let mut cpu = Cpu::new(0x10000);
        cpu.ram[0x1000..0x1000 + bytes.len()].copy_from_slice(bytes);
        cpu.rip = 0x1000;
        cpu.rflags = 0x2;
        cpu.r[RAX] = a;
        cpu.r[RCX] = b;
        let _ = cpu.step(&mut Prof::new());
        (cpu.r[RAX] & 0xffff_ffff, cpu.rflags)
    }

    let vals: [u32; 16] = [
        0, 1, 2, 7, 8, 0x0f, 0x10, 0x55, 0x7fff_ffff, 0x8000_0000, 0xffff_ffff, 0xdead_beef,
        0x0cfd_63ac, 0x1234_5678, 0x8000_0001, 0xaaaa_aaaa,
    ];
    let mut fails: Vec<String> = Vec::new();
    let mut check = |name: &str, a: u32, b: u32, bytes: &[u8], rref: u32, fref: u64, defined: u64, cmp_res: bool| {
        let (er, ef) = emu(bytes, u64::from(a), u64::from(b));
        let res_bad = cmp_res && er != u64::from(rref);
        let flag_bad = (ef ^ fref) & defined != 0;
        if res_bad || flag_bad {
            fails.push(format!(
                "{name} a={a:#010x} b={b:#010x}: emu=({er:#010x},f {:#05x}) ref=({rref:#010x},f {:#05x}) def={defined:#05x}{}{}",
                ef & defined, fref & defined,
                if res_bad { " RESULT" } else { "" }, if flag_bad { " FLAGS" } else { "" },
            ));
        }
    };

    for &a in &vals {
        for &b in &vals {
            let r = a.wrapping_add(b);
            let cf = u64::from(a) + u64::from(b) > 0xffff_ffff;
            let af = (a & 0xf) + (b & 0xf) > 0xf;
            let of = (a ^ r) & (b ^ r) & msb != 0;
            check("add", a, b, &[0x01, 0xc8], r, mk(r, cf, af, of), ALL, true);
            let r = a.wrapping_sub(b);
            let cf = a < b;
            let af = (a & 0xf) < (b & 0xf);
            let of = (a ^ b) & (a ^ r) & msb != 0;
            check("sub", a, b, &[0x29, 0xc8], r, mk(r, cf, af, of), ALL, true);
            check("cmp", a, b, &[0x39, 0xc8], r, mk(r, cf, af, of), ALL, false);
            let r = a & b;
            check("and", a, b, &[0x21, 0xc8], r, mk(r, false, false, false), ALL & !AF, true);
            check("test", a, b, &[0x85, 0xc8], r, mk(r, false, false, false), ALL & !AF, false);
            let r = a | b;
            check("or", a, b, &[0x09, 0xc8], r, mk(r, false, false, false), ALL & !AF, true);
            let r = a ^ b;
            check("xor", a, b, &[0x31, 0xc8], r, mk(r, false, false, false), ALL & !AF, true);
            let full = i64::from(a as i32) * i64::from(b as i32);
            let r = full as u32;
            let ov = full != i64::from(r as i32);
            check("imul", a, b, &[0x0f, 0xaf, 0xc1], r, mk(r, ov, false, ov), CF | OF, true);
            let rr = if b == 0 { 0 } else { 31 - b.leading_zeros() };
            check("bsr", a, b, &[0x0f, 0xbd, 0xc1], rr, u64::from(b == 0) << 6, ZF, b != 0);
            let rr = if b == 0 { 0 } else { b.trailing_zeros() };
            check("bsf", a, b, &[0x0f, 0xbc, 0xc1], rr, u64::from(b == 0) << 6, ZF, b != 0);
            let cf = (a >> (b & 31)) & 1 == 1;
            check("bt", a, b, &[0x0f, 0xa3, 0xc8], a, u64::from(cf), CF, false);
            let c = b & 0x1f;
            let shl = if c == 0 { a } else { a.wrapping_shl(c) };
            let shl_cf = c != 0 && (a >> (32 - c)) & 1 == 1;
            let shl_of = ((shl >> 31) & 1 == 1) ^ shl_cf;
            let shr = a >> c;
            let shr_cf = c != 0 && (a >> (c - 1).min(31)) & 1 == 1;
            let shr_of = (a >> 31) & 1 == 1;
            let sar = ((a as i32) >> c) as u32;
            let sar_cf = c != 0 && (a >> (c - 1).min(31)) & 1 == 1;
            let sh_def = if c == 0 { 0 } else if c == 1 { ALL & !AF } else { ZF | SF | PF };
            check("shl", a, b, &[0xd3, 0xe0], shl, mk(shl, shl_cf, false, shl_of), sh_def, true);
            check("shr", a, b, &[0xd3, 0xe8], shr, mk(shr, shr_cf, false, shr_of), sh_def, true);
            check("sar", a, b, &[0xd3, 0xf8], sar, mk(sar, sar_cf, false, false), sh_def, true);
            let rol = a.rotate_left(c);
            let rol_cf = rol & 1 == 1;
            let rol_of = ((rol >> 31) & 1 == 1) ^ rol_cf;
            let ror = a.rotate_right(c);
            let ror_cf = (ror >> 31) & 1 == 1;
            let ror_of = ((ror >> 31) & 1) ^ ((ror >> 30) & 1) == 1;
            let rot_def = if c == 0 { 0 } else if c == 1 { CF | OF } else { CF };
            check("rol", a, b, &[0xd3, 0xc0], rol, mk(rol, rol_cf, false, rol_of), rot_def, true);
            check("ror", a, b, &[0xd3, 0xc8], ror, mk(ror, ror_cf, false, ror_of), rot_def, true);
        }
        let r = a.wrapping_add(1);
        check("inc", a, 0, &[0xff, 0xc0], r, mk(r, false, (a & 0xf) == 0xf, a == 0x7fff_ffff), ALL & !CF, true);
        let r = a.wrapping_sub(1);
        check("dec", a, 0, &[0xff, 0xc8], r, mk(r, false, (a & 0xf) == 0, a == 0x8000_0000), ALL & !CF, true);
        let r = 0u32.wrapping_sub(a);
        check("neg", a, 0, &[0xf7, 0xd8], r, mk(r, a != 0, (a & 0xf) != 0, a == 0x8000_0000), ALL, true);
    }

    let emu_f = |bytes: &[u8], a: u64, b: u64, fin: u64| -> (u64, u64) {
        let mut cpu = Cpu::new(0x10000);
        cpu.ram[0x1000..0x1000 + bytes.len()].copy_from_slice(bytes);
        cpu.rip = 0x1000;
        cpu.rflags = fin;
        cpu.r[RAX] = a;
        cpu.r[RCX] = b;
        let _ = cpu.step(&mut Prof::new());
        (cpu.r[RAX] & 0xffff_ffff, cpu.rflags)
    };
    for &a in &vals {
        for &b in &vals {
            for ci in 0u64..2 {
                let fin = 0x2 | ci;
                let r = a.wrapping_add(b).wrapping_add(ci as u32);
                let cf = u64::from(a) + u64::from(b) + ci > 0xffff_ffff;
                let of = (a ^ r) & (b ^ r) & msb != 0;
                let (er, ef) = emu_f(&[0x11, 0xc8], u64::from(a), u64::from(b), fin);
                if er != u64::from(r) || (ef ^ mk(r, cf, false, of)) & ALL != 0 {
                    fails.push(format!("adc ci={ci} a={a:#010x} b={b:#010x}: emu=({er:#010x},f {:#05x}) ref=({r:#010x},f {:#05x})", ef & ALL, mk(r, cf, false, of) & ALL));
                }
                let r = a.wrapping_sub(b).wrapping_sub(ci as u32);
                let cf = u64::from(a) < u64::from(b) + ci;
                let of = (a ^ b) & (a ^ r) & msb != 0;
                let (er, ef) = emu_f(&[0x19, 0xc8], u64::from(a), u64::from(b), fin);
                if er != u64::from(r) || (ef ^ mk(r, cf, false, of)) & ALL != 0 {
                    fails.push(format!("sbb ci={ci} a={a:#010x} b={b:#010x}: emu=({er:#010x},f {:#05x}) ref=({r:#010x},f {:#05x})", ef & ALL, mk(r, cf, false, of) & ALL));
                }
            }
            let chk = |name: &str, bytes: &[u8], want: u32| {
                let (er, _) = emu(bytes, u64::from(a), u64::from(b));
                if er != u64::from(want) { Some(format!("{name} a={a:#010x} b={b:#010x}: emu={er:#010x} ref={want:#010x}")) } else { None }
            };
            if let Some(m) = chk("lea*5", &[0x8d, 0x04, 0x89], b.wrapping_mul(5)) { fails.push(m); }
            if let Some(m) = chk("movzx8", &[0x0f, 0xb6, 0xc1], b & 0xff) { fails.push(m); }
            if let Some(m) = chk("movzx16", &[0x0f, 0xb7, 0xc1], b & 0xffff) { fails.push(m); }
            if let Some(m) = chk("movsx8", &[0x0f, 0xbe, 0xc1], b as u8 as i8 as i32 as u32) { fails.push(m); }
            if let Some(m) = chk("movsx16", &[0x0f, 0xbf, 0xc1], b as u16 as i16 as i32 as u32) { fails.push(m); }
        }
    }

    for (name, bytes) in [
        ("mov", &[0x89u8, 0xc8][..]),
        ("lea", &[0x8d, 0x04, 0x89]),
        ("movzx8", &[0x0f, 0xb6, 0xc1]),
        ("movzx16", &[0x0f, 0xb7, 0xc1]),
        ("movsx8", &[0x0f, 0xbe, 0xc1]),
        ("movsx16", &[0x0f, 0xbf, 0xc1]),
        ("movsxd", &[0x48, 0x63, 0xc1]),
        ("push", &[0x50]),
        ("nop", &[0x90]),
    ] {
        let (_, ef) = emu_f(bytes, 0x1234_5678, 0x9abc_def0, 0x2 | ALL);
        if ef & ALL != ALL {
            fails.push(format!("{name} clobbered flags: got {:#05x} want {:#05x}", ef & ALL, ALL));
        }
    }

    for combo in 0u32..32 {
        let cf = combo & 1 != 0;
        let pf = combo & 2 != 0;
        let zf = combo & 4 != 0;
        let sf = combo & 8 != 0;
        let of = combo & 16 != 0;
        let rflags = 0x2 | u64::from(cf) | (u64::from(pf) << 2) | (u64::from(zf) << 6)
            | (u64::from(sf) << 7) | (u64::from(of) << 11);
        for cc in 0u8..16 {
            let want = match cc {
                0x0 => of, 0x1 => !of, 0x2 => cf, 0x3 => !cf, 0x4 => zf, 0x5 => !zf,
                0x6 => cf || zf, 0x7 => !(cf || zf), 0x8 => sf, 0x9 => !sf, 0xa => pf, 0xb => !pf,
                0xc => sf != of, 0xd => sf == of, 0xe => zf || (sf != of), _ => !(zf || (sf != of)),
            };
            let mut cpu = Cpu::new(0x10000);
            cpu.ram[0x1000..0x1003].copy_from_slice(&[0x0f, 0x90 + cc, 0xc0]); // SETcc al
            cpu.rip = 0x1000;
            cpu.rflags = rflags;
            let _ = cpu.step(&mut Prof::new());
            let got = cpu.r[RAX] & 1 == 1;
            if got != want {
                fails.push(format!("setcc cc={cc:#x} flags={rflags:#05x}: emu={got} ref={want}"));
            }
        }
    }
    assert!(fails.is_empty(), "{} reference-vs-emulator mismatches:\n{}", fails.len(), fails.join("\n"));
}

/// Repeated stores and copies move exactly the counted elements, across pages too.
#[test]
fn rep_string_ops_match_reference() {
    fn run_to_done(bytes: &[u8], setup: impl FnOnce(&mut Cpu)) -> Cpu {
        let mut cpu = Cpu::new(0x20000);
        cpu.ram[0x100..0x100 + bytes.len()].copy_from_slice(bytes);
        cpu.rip = 0x100;
        cpu.rflags = 0x2; // DF=0
        setup(&mut cpu);
        for _ in 0..2_000_000 {
            if cpu.rip != 0x100 { break; }
            let _ = cpu.step(&mut Prof::new());
        }
        cpu
    }
    let mut fails: Vec<String> = Vec::new();
    for &n in &[0u64, 1, 5, 255, 256, 4096, 5000] {
        for &dst in &[0x8000u64, 0x8001, 0x8ffe, 0x9ffd] { // incl. page-crossing dst (slow path)
            let cpu = run_to_done(&[0xf3, 0xaa], |c| { c.r[7] = dst; c.r[RCX] = n; c.r[RAX] = 0xcd; });
            let bad = (0..n as usize).any(|i| cpu.ram[dst as usize + i] != 0xcd);
            if bad || cpu.r[RCX] != 0 || cpu.r[7] != dst + n {
                fails.push(format!("rep stosb n={n} dst={dst:#x}: fill_bad={bad} rcx={:#x} rdi={:#x} (want rcx=0 rdi={:#x})", cpu.r[RCX], cpu.r[7], dst + n));
            }
            if cpu.ram[dst as usize + n as usize] != 0 {
                fails.push(format!("rep stosb n={n} dst={dst:#x}: overran into [{:#x}]={:#04x}", dst + n, cpu.ram[dst as usize + n as usize]));
            }
            let cpu = run_to_done(&[0xf3, 0x48, 0xab], |c| { c.r[7] = dst; c.r[RCX] = n; c.r[RAX] = 0x1122_3344_5566_7788; });
            let qbad = (0..n as usize).any(|i| {
                let o = dst as usize + i * 8;
                cpu.ram[o..o + 8] != 0x1122_3344_5566_7788u64.to_le_bytes()
            });
            if qbad || cpu.r[RCX] != 0 || cpu.r[7] != dst + n * 8 {
                fails.push(format!("rep stosq n={n} dst={dst:#x}: fill_bad={qbad} rcx={:#x} rdi={:#x}", cpu.r[RCX], cpu.r[7]));
            }
        }
    }
    for &n in &[0u64, 1, 5, 256, 5000] {
        let (src, dst) = (0x4000u64, 0xc000u64);
        let cpu = run_to_done(&[0xf3, 0xa4], |c| {
            for i in 0..n as usize { c.ram[src as usize + i] = (i as u8).wrapping_mul(7).wrapping_add(1); }
            c.r[6] = src; c.r[7] = dst; c.r[RCX] = n;
        });
        let bad = (0..n as usize).any(|i| cpu.ram[dst as usize + i] != (i as u8).wrapping_mul(7).wrapping_add(1));
        if bad || cpu.r[RCX] != 0 || cpu.r[7] != dst + n || cpu.r[6] != src + n {
            fails.push(format!("rep movsb n={n}: copy_bad={bad} rcx={:#x} rdi={:#x} rsi={:#x}", cpu.r[RCX], cpu.r[7], cpu.r[6]));
        }
    }
    assert!(fails.is_empty(), "{} rep mismatches:\n{}", fails.len(), fails.join("\n"));
}

/// A changed page table takes effect on `INVLPG` and on a full flush.
#[test]
fn tlb_invalidation_is_coherent() {
    fn pte(ram: &mut [u8], table: usize, idx: usize, e: u64) {
        ram[table + idx * 8..table + idx * 8 + 8].copy_from_slice(&e.to_le_bytes());
    }
    let mut cpu = Cpu::new(0x100000);
    pte(&mut cpu.ram, 0x10000, 0, 0x11000 | 0x3);
    pte(&mut cpu.ram, 0x11000, 0, 0x12000 | 0x3);
    pte(&mut cpu.ram, 0x12000, 2, 0x13000 | 0x3);
    pte(&mut cpu.ram, 0x13000, 0, 0x40000 | 0x3); // VA 0x400000 -> phys 0x40000
    pte(&mut cpu.ram, 0x13000, 2, 0x14000 | 0x3); // VA 0x402000 -> phys 0x14000 (code)
    cpu.ram[0x40000] = 0x11;
    cpu.ram[0x50000] = 0x22;
    cpu.ram[0x14000..0x14000 + 11].copy_from_slice(&[0x8a, 0x03, 0x8a, 0x23, 0x0f, 0x01, 0x3b, 0x8a, 0x0b, 0x8a, 0x13]);
    cpu.cr3 = 0x10000;
    cpu.cr4 = 1 << 5;
    cpu.efer = (1 << 8) | (1 << 10);
    cpu.cr0 = (1 << 0) | (1 << 31);
    cpu.seg[CS] = Seg { selector: 0x10, base: 0, long: true };
    cpu.rip = 0x402000;
    cpu.rflags = 0x2;
    cpu.r[3] = 0x400000; // rbx

    let mut fails: Vec<String> = Vec::new();
    let _ = cpu.step(&mut Prof::new()); // mov al,[rbx] -> caches the TLB entry; al should be 0x11
    if cpu.r[RAX] & 0xff != 0x11 { fails.push(format!("initial load al={:#04x} want 0x11", cpu.r[RAX] & 0xff)); }
    pte(&mut cpu.ram, 0x13000, 0, 0x50000 | 0x3);
    let _ = cpu.step(&mut Prof::new()); // mov ah,[rbx]: a stale translation may still be used
    let _ = cpu.step(&mut Prof::new()); // invlpg [rbx]
    let _ = cpu.step(&mut Prof::new()); // mov cl,[rbx]: the new mapping
    if cpu.r[RCX] & 0xff != 0x22 {
        fails.push(format!("after INVLPG cl={:#04x} want 0x22 (TLB not invalidated)", cpu.r[RCX] & 0xff));
    }
    pte(&mut cpu.ram, 0x13000, 0, 0x40000 | 0x3);
    cpu.cr3 = cpu.cr3; // not a flush by itself; emulate the kernel's `mov cr3` via the real path:
    cpu.rip = 0x402000 + 9; // point at the last `mov dl,[rbx]`
    cpu.flush_tlb();
    let _ = cpu.step(&mut Prof::new()); // mov dl,[rbx] -> 0x11
    if cpu.r[RDX] & 0xff != 0x11 {
        fails.push(format!("after CR3-flush dl={:#04x} want 0x11", cpu.r[RDX] & 0xff));
    }
    assert!(fails.is_empty(), "TLB coherency:\n{}", fails.join("\n"));
}

/// An access across a page boundary goes to both frames, wherever they are.
#[test]
fn paged_cross_page_memory_is_correct() {
    fn pte(ram: &mut [u8], table: usize, idx: usize, e: u64) {
        ram[table + idx * 8..table + idx * 8 + 8].copy_from_slice(&e.to_le_bytes());
    }
    fn paged(code: &[u8], setup: impl FnOnce(&mut Cpu)) -> Cpu {
        let mut cpu = Cpu::new(0x100000); // 1 MiB phys
        pte(&mut cpu.ram, 0x10000, 0, 0x11000 | 0x3); // PML4[0] -> PDPT
        pte(&mut cpu.ram, 0x11000, 0, 0x12000 | 0x3); // PDPT[0] -> PD
        pte(&mut cpu.ram, 0x12000, 2, 0x13000 | 0x3); // PD[2] -> PT  (covers 0x400000..)
        pte(&mut cpu.ram, 0x13000, 0, 0x40000 | 0x3); // VA 0x400000 -> phys 0x40000
        pte(&mut cpu.ram, 0x13000, 1, 0x50000 | 0x3); // VA 0x401000 -> phys 0x50000 (non-adjacent!)
        pte(&mut cpu.ram, 0x13000, 2, 0x14000 | 0x3); // VA 0x402000 -> phys 0x14000 (code)
        cpu.ram[0x14000..0x14000 + code.len()].copy_from_slice(code);
        cpu.cr3 = 0x10000;
        cpu.cr4 = 1 << 5; // PAE
        cpu.efer = (1 << 8) | (1 << 10); // LME|LMA
        cpu.cr0 = (1 << 0) | (1 << 31); // PE|PG
        cpu.seg[CS] = Seg { selector: 0x10, base: 0, long: true };
        cpu.rip = 0x402000;
        cpu.rflags = 0x2;
        setup(&mut cpu);
        let _ = cpu.step(&mut Prof::new());
        cpu
    }
    let mut fails: Vec<String> = Vec::new();
    let val: u64 = 0x1122_3344_5566_7788;
    let cpu = paged(&[0x48, 0x89, 0x03], |c| {
        for b in &mut c.ram[0x40000..0x51000] { *b = 0xAA; }
        c.r[3] = 0x400ffe;
        c.r[RAX] = val;
    });
    let lo = &cpu.ram[0x40ffe..0x41000]; // first page tail
    let hi = &cpu.ram[0x50000..0x50006]; // second page head
    let wb = val.to_le_bytes();
    if lo != &wb[0..2] {
        fails.push(format!("cross-store low(phys 0x40ffe)={lo:02x?} want {:02x?}", &wb[0..2]));
    }
    if hi != &wb[2..8] {
        fails.push(format!("cross-store high(phys 0x50000)={hi:02x?} want {:02x?}", &wb[2..8]));
    }
    if cpu.ram[0x41000] != 0xAA {
        fails.push(format!("cross-store bled into contiguous phys 0x41000={:#04x} (split bug)", cpu.ram[0x41000]));
    }
    let cpu = paged(&[0x48, 0x8b, 0x03], |c| {
        c.ram[0x40ffe] = 0xde; c.ram[0x40fff] = 0xc0;
        c.ram[0x50000..0x50006].copy_from_slice(&[0xad, 0x0b, 0xfe, 0xca, 0xef, 0xbe]);
        c.r[3] = 0x400ffe;
    });
    let want = u64::from_le_bytes([0xde, 0xc0, 0xad, 0x0b, 0xfe, 0xca, 0xef, 0xbe]);
    if cpu.r[RAX] != want {
        fails.push(format!("cross-load rax={:#018x} want {want:#018x}", cpu.r[RAX]));
    }
    assert!(fails.is_empty(), "{} cross-page mismatches:\n{}", fails.len(), fails.join("\n"));
}

/// Stores write exactly their width; loads extend as they should.
#[test]
fn memory_store_load_match_reference() {
    fn run(setup: impl FnOnce(&mut Cpu), bytes: &[u8]) -> Cpu {
        let mut cpu = Cpu::new(0x10000);
        cpu.ram[0x1000..0x1000 + bytes.len()].copy_from_slice(bytes);
        cpu.rip = 0x1000;
        cpu.rflags = 0x2;
        setup(&mut cpu);
        let _ = cpu.step(&mut Prof::new());
        cpu
    }
    let mut fails: Vec<String> = Vec::new();
    let val: u64 = 0x1122_3344_5566_7788;
    let stores: &[(&str, &[u8], usize)] = &[
        ("mov[rbx],al", &[0x88, 0x03], 1),
        ("mov[rbx],ax", &[0x66, 0x89, 0x03], 2),
        ("mov[rbx],eax", &[0x89, 0x03], 4),
        ("mov[rbx],rax", &[0x48, 0x89, 0x03], 8),
    ];
    for &addr in &[0x3000u64, 0x3001, 0x3003, 0x3007, 0x2ffd, 0x2ffe, 0x2fff] {
        for &(name, bytes, n) in stores {
            let cpu = run(|c| {
                for b in &mut c.ram[0x2fe0..0x3030] { *b = 0xAA; }
                c.r[3] = addr; // rbx
                c.r[RAX] = val;
            }, bytes);
            let want = &val.to_le_bytes()[..n];
            let got = &cpu.ram[addr as usize..addr as usize + n];
            if got != want {
                fails.push(format!("{name}@{addr:#x}: wrote {got:02x?} want {want:02x?}"));
            }
            if cpu.ram[addr as usize - 1] != 0xAA || cpu.ram[addr as usize + n] != 0xAA {
                fails.push(format!("{name}@{addr:#x}: clobbered neighbour prev={:#04x} next={:#04x}",
                    cpu.ram[addr as usize - 1], cpu.ram[addr as usize + n]));
            }
        }
    }
    let pat: [u8; 8] = [0x90, 0xa1, 0xb2, 0xc3, 0xd4, 0xe5, 0xf6, 0x07];
    let loads: &[(&str, &[u8], u64)] = &[
        ("movzx8", &[0x0f, 0xb6, 0x03], u64::from(pat[0])),
        ("movsx8", &[0x0f, 0xbe, 0x03], u64::from(pat[0] as i8 as i32 as u32)),
        ("movzx16", &[0x0f, 0xb7, 0x03], u64::from(u16::from_le_bytes([pat[0], pat[1]]))),
        ("movsx16", &[0x0f, 0xbf, 0x03], u64::from(i16::from_le_bytes([pat[0], pat[1]]) as i32 as u32)),
        ("mov32", &[0x8b, 0x03], u64::from(u32::from_le_bytes([pat[0], pat[1], pat[2], pat[3]]))),
        ("mov64", &[0x48, 0x8b, 0x03], u64::from_le_bytes(pat)),
    ];
    for &addr in &[0x3000u64, 0x3001, 0x3003, 0x2ffe, 0x2fff] {
        for &(name, bytes, want) in loads {
            let cpu = run(|c| {
                c.ram[addr as usize..addr as usize + 8].copy_from_slice(&pat);
                c.r[3] = addr;
                c.r[RAX] = 0xdead_beef_dead_beef;
            }, bytes);
            let mask = if name == "mov64" { u64::MAX } else { 0xffff_ffff };
            if cpu.r[RAX] & mask != want {
                fails.push(format!("{name}@{addr:#x}: loaded {:#018x} want {want:#018x}", cpu.r[RAX] & mask));
            }
        }
    }
    assert!(fails.is_empty(), "{} memory mismatches:\n{}", fails.len(), fails.join("\n"));
}

#[test]
fn adds_two_registers() {
    let code = [
        0x48, 0xc7, 0xc0, 0x05, 0, 0, 0, // mov rax, 5
        0x48, 0xc7, 0xc3, 0x07, 0, 0, 0, // mov rbx, 7
        0x48, 0x01, 0xd8, // add rax, rbx
        0xf4, // hlt
    ];
    assert_eq!(run(&code).reg(0), 12);
}

/// A 32-bit destination clears the upper half of its register; `DEC` keeps the carry.
#[test]
fn printf_escape_path_instructions_zero_extend_to_64() {
    let c = [
        0x48, 0xba, 0x60, 0, 0, 0, 0xff, 0xff, 0xff, 0xff, // movabs rdx, 0xffffffff_00000060
        0x8d, 0x72, 0xa9, // lea esi, [rdx-0x57]
        0xf4,
    ];
    assert_eq!(run(&c).reg(6), 0x09, "32-bit LEA must zero-extend rsi");

    let c = [
        0x48, 0xb8, 0x80, 0, 0, 0, 0xff, 0xff, 0xff, 0xff, // movabs rax, 0xffffffff_00000080
        0x0f, 0xb6, 0xc8, // movzx ecx, al
        0xf4,
    ];
    assert_eq!(run(&c).reg(1), 0x80, "MOVZX must zero-extend the byte into a clean rcx");

    let c = [
        0x48, 0xbe, 0x35, 0, 0, 0, 0xff, 0xff, 0xff, 0xff, // movabs rsi, 0xffffffff_00000035
        0x83, 0xee, 0x30, // sub esi, 0x30
        0xf4,
    ];
    assert_eq!(run(&c).reg(6), 0x05, "SUB r32,imm8 must zero-extend rsi");

    let c = [
        0x48, 0xba, 0x41, 0, 0, 0, 0xff, 0xff, 0xff, 0xff, // movabs rdx, 0xffffffff_00000041
        0x83, 0xca, 0x20, // or edx, 0x20
        0xf4,
    ];
    assert_eq!(run(&c).reg(2), 0x61, "OR r32,imm8 must zero-extend rdx");

    let c = [
        0x49, 0xb8, 0x99, 0, 0, 0, 0xff, 0xff, 0xff, 0xff, // movabs r8, 0xffffffff_00000099
        0x44, 0x89, 0xc2, // mov edx, r8d  -> edx=0x99, rdx upper clear
        0xf4,
    ];
    assert_eq!(run(&c).reg(2), 0x99, "32-bit reg->reg mov must zero-extend rdx");

    let c = [
        0xf9, // stc -> CF=1
        0x48, 0xc7, 0xc0, 0x05, 0, 0, 0, // mov rax, 5
        0x48, 0x89, 0x04, 0x25, 0x00, 0x04, 0, 0, // mov [0x400], rax
        0x48, 0xff, 0x0c, 0x25, 0x00, 0x04, 0, 0, // dec qword [0x400]
        0x48, 0x8b, 0x1c, 0x25, 0x00, 0x04, 0, 0, // mov rbx, [0x400]
        0xf4,
    ];
    let cpu = run(&c);
    assert_eq!(cpu.reg(3), 4, "DEC qword[mem] decremented in memory");
    assert!(cpu.rflags() & CF != 0, "DEC must NOT clear CF (only SUB does)");

    let c = [
        0x48, 0xc7, 0xc2, 0x6e, 0, 0, 0, // mov rdx, 0x6e ('n')
        0x80, 0xfa, 0x60, // cmp dl, 0x60
        0xf4,
    ];
    let f = run(&c).rflags();
    assert_eq!(f & CF, 0, "cmp 0x6e,0x60: no borrow -> CF=0");
    assert_eq!(f & ZF, 0, "cmp 0x6e,0x60: not equal -> ZF=0");

    let c = [
        0x48, 0xc7, 0xc2, 0x40, 0, 0, 0, // mov rdx, 0x40
        0x80, 0xfa, 0x60, // cmp dl, 0x60
        0xf4,
    ];
    assert!(run(&c).rflags() & CF != 0, "cmp 0x40,0x60: borrow -> CF=1");
}

/// `PMOVMSKB` gathers the sign bit of each byte.
#[test]
fn pmovmskb_extracts_the_per_byte_sign_mask() {
    let c = [
        0x48, 0xb8, 0x00, 0x80, 0x00, 0x80, 0x00, 0x80, 0x00, 0x80, // movabs rax, 0x8000800080008000
        0x66, 0x48, 0x0f, 0x6e, 0xc0, // movq xmm0, rax       (low 64)
        0x66, 0x0f, 0x6c, 0xc0, // punpcklqdq xmm0, xmm0       (low -> high)
        0x66, 0x0f, 0xd7, 0xc0, // pmovmskb eax, xmm0
        0xf4,
    ];
    assert_eq!(run(&c).reg(0), 0xAAAA, "PMOVMSKB: bit i = sign bit of byte i");

    let c = [
        0x48, 0xb8, 0x80, 0x80, 0x80, 0x80, 0x80, 0x80, 0x80, 0x80, // movabs rax, 0x8080808080808080
        0x66, 0x48, 0x0f, 0x6e, 0xc0,
        0x66, 0x0f, 0x6c, 0xc0,
        0x66, 0x0f, 0xd7, 0xc0,
        0xf4,
    ];
    assert_eq!(run(&c).reg(0), 0xFFFF, "PMOVMSKB all sign bits -> 0xFFFF");
}

/// The vector loads read the bytes at their address, aligned or not.
#[test]
fn sse_loads_read_the_exact_bytes() {
    let stage = |addr: u32| -> Vec<u8> {
        let mut v = vec![
            0x48, 0xb8, 0x01, 0x02, 0x03, 0x04, 0x05, 0x06, 0x07, 0x08, // movabs rax, 0x0807060504030201
            0x48, 0x89, 0x04, 0x25,
        ];
        v.extend_from_slice(&addr.to_le_bytes()); // mov [addr], rax
        v.extend_from_slice(&[
            0x48, 0xb8, 0x09, 0x0a, 0x0b, 0x0c, 0x0d, 0x0e, 0x0f, 0x10, // movabs rax, 0x100f0e0d0c0b0a09
            0x48, 0x89, 0x04, 0x25,
        ]);
        v.extend_from_slice(&(addr + 8).to_le_bytes()); // mov [addr+8], rax
        v
    };
    let load_extract = |addr: u32, aligned: bool| -> u64 {
        let mut c = stage(addr);
        if aligned {
            c.extend_from_slice(&[0x66, 0x0f, 0x6f, 0x04, 0x25]); // movdqa xmm0,[addr]
        } else {
            c.extend_from_slice(&[0xf3, 0x0f, 0x6f, 0x04, 0x25]); // movdqu xmm0,[addr]
        }
        c.extend_from_slice(&addr.to_le_bytes());
        c.extend_from_slice(&[0x66, 0x48, 0x0f, 0x7e, 0xc3, 0xf4]); // movq rbx,xmm0 ; hlt
        run(&c).reg(3)
    };
    assert_eq!(load_extract(0x200, true), 0x0807_0605_0403_0201, "movdqa aligned load");
    assert_eq!(load_extract(0x207, false), 0x0807_0605_0403_0201, "movdqu unaligned load");
}

#[test]
fn countdown_loop_sets_the_zero_flag() {
    let code = [
        0x48, 0xc7, 0xc1, 0x03, 0, 0, 0, // mov rcx, 3
        0x48, 0xff, 0xc9, // dec rcx
        0x75, 0xfb, // jnz -5 (back to dec)
        0xf4, // hlt
    ];
    let cpu = run(&code);
    assert_eq!(cpu.reg(1), 0, "the loop ran to zero");
    assert!(cpu.rflags() & ZF != 0, "ZF set at zero");
}

#[test]
fn writes_to_the_serial_console() {
    let code = [
        0x66, 0xba, 0xf8, 0x03, // mov dx, 0x3f8 (the 16550 THR port)
        0xb0, b'h', 0xee, // mov al,'h' ; out dx,al
        0xb0, b'i', 0xee, // mov al,'i' ; out dx,al
        0xf4, // hlt
    ];
    assert_eq!(run(&code).console(), b"hi");
}

#[test]
fn long_mode_paging_translates_through_four_levels() {
    let mut cpu = Cpu::new(64 * 1024);
    let put = |cpu: &mut Cpu, at: usize, e: u64| {
        cpu.ram[at..at + 8].copy_from_slice(&e.to_le_bytes());
    };
    put(&mut cpu, 0x1000, 0x2000 | 1); // PML4[0] -> PDPT, present
    put(&mut cpu, 0x2000, 0x3000 | 1); // PDPT[0] -> PD
    put(&mut cpu, 0x3000, 0x4000 | 1); // PD[0]   -> PT
    put(&mut cpu, 0x4000, 0x5000 | 1); // PT[0]   -> frame 0x5000
    cpu.cr3 = 0x1000;
    cpu.cr4 = 1 << 5; // PAE
    cpu.efer = 1 << 8; // LME
    assert_eq!(cpu.translate(0x123), 0x123, "paging off -> identity");
    cpu.cr0 = 1 << 31; // PG -> paging on
    assert_eq!(cpu.translate(0x123), 0x5123, "VA 0x123 maps to PA 0x5123");
    cpu.wr(0x40, 4, 0xdead_beef);
    assert_eq!(
        cpu.rd_phys(0x5040, 4),
        0xdead_beef,
        "the write hit frame 0x5000"
    );
}

#[test]
fn mov_cr_and_wrmsr_set_up_long_mode() {
    let code = [
        0x48, 0xc7, 0xc0, 0x00, 0x10, 0, 0, // mov rax, 0x1000
        0x0f, 0x22, 0xd8, // mov cr3, rax
        0xb9, 0x80, 0x00, 0x00, 0xc0, // mov ecx, 0xC0000080
        0xb8, 0x00, 0x01, 0x00, 0x00, // mov eax, 0x100 (LME)
        0x31, 0xd2, // xor edx, edx
        0x0f, 0x30, // wrmsr -> EFER = 0x100
        0x0f, 0x32, // rdmsr -> eax = EFER low
        0xf4, // hlt
    ];
    let cpu = run(&code);
    assert_eq!(cpu.cr3, 0x1000, "mov cr3 installed the PML4 base");
    assert_eq!(cpu.efer, 0x100, "wrmsr set EFER.LME");
    assert_eq!(
        cpu.reg(0) & 0xffff_ffff,
        0x100,
        "rdmsr read EFER back into eax"
    );
}

/// A repeated copy into an absent page faults on its boundary byte, gives the registers back, and completes once the page is there.
#[test]
fn rep_movsb_faults_on_a_page_boundary_then_restarts_and_completes() {
    let mut cpu = Cpu::new(64 * 1024);
    let put = |cpu: &mut Cpu, at: usize, e: u64| {
        cpu.ram[at..at + 8].copy_from_slice(&e.to_le_bytes());
    };
    put(&mut cpu, 0x1000, 0x2000 | 0b11); // PML4[0] -> PDPT  (present|write)
    put(&mut cpu, 0x2000, 0x3000 | 0b11); // PDPT[0] -> PD
    put(&mut cpu, 0x3000, 0x4000 | 0b11); // PD[0]   -> PT
    let map = |cpu: &mut Cpu, va: u64, pa: u64| {
        put(cpu, 0x4000 + ((va >> 12) as usize) * 8, pa | 0b11);
    };
    map(&mut cpu, 0x5000, 0x5000); // code
    map(&mut cpu, 0x6000, 0x6000); // source page
    map(&mut cpu, 0x7000, 0x7000); // destination page 1 (present)
    cpu.cr3 = 0x1000;
    cpu.cr4 = 1 << 5; // PAE
    cpu.efer = 1 << 8; // LME
    cpu.cr0 = 1 << 31; // PG

    let src: [u8; 8] = [0x11, 0x22, 0x33, 0x44, 0x55, 0x66, 0x77, 0x88];
    cpu.ram[0x6000..0x6008].copy_from_slice(&src);
    cpu.ram[0] = 0xAB;

    cpu.ram[0x5000..0x5003].copy_from_slice(&[0xF3, 0xA4, 0xF4]);
    cpu.rip = 0x5000;
    cpu.r[RCX] = 8;
    cpu.r[RSI] = 0x6000;
    cpu.r[RDI] = 0x7FFE; // 2 bytes fit in page 1, then crosses into absent 0x8000
    cpu.rflags &= !RFLAGS_DF; // forward

    stepped(&mut cpu);

    assert_eq!(cpu.cr2, 0x8000, "CR2 = first byte in the not-present page");
    assert_eq!(cpu.rip, 0x5000, "RIP rolled back to the faulting instruction");
    assert_eq!(cpu.r[RCX], 8, "RCX restored (the REP restarts whole)");
    assert_eq!(cpu.r[RSI], 0x6000, "RSI restored");
    assert_eq!(cpu.r[RDI], 0x7FFE, "RDI restored");
    assert_eq!(cpu.ram[0x7FFE], 0x11, "byte 0 landed in the present page");
    assert_eq!(cpu.ram[0x7FFF], 0x22, "byte 1 landed in the present page");
    assert_eq!(
        cpu.ram[0], 0x33,
        "the faulting element wrote the phys-0 scratch exactly once (REP stopped)"
    );

    map(&mut cpu, 0x8000, 0x9000); // page 2 -> frame 0x9000 (present)
    cpu.flush_tlb();
    cpu.fault = None;
    for _ in 0..4 {
        if matches!(drive(&mut cpu, 1), Halt::Halted) {
            break;
        }
    }
    assert_eq!(cpu.r[RCX], 0, "the REP ran to completion after the page was mapped");
    assert_eq!(&cpu.ram[0x7FFE..0x8000], &src[0..2], "page-1 half of the copy");
    assert_eq!(&cpu.ram[0x9000..0x9006], &src[2..8], "page-2 half of the copy");
}

#[test]
fn rep_stos_bulk_fast_path_fills_a_page_like_the_per_element_loop() {
    let mut cpu = Cpu::new(256 * 1024);
    let dst = 0x10_000usize;
    cpu.ram[dst..dst + 4096].fill(0xCD); // poison so a missed byte is visible
    cpu.r[RDI] = dst as u64;
    cpu.r[RCX] = 512; // 512 x 8 B = one 4 KiB page
    cpu.r[RAX] = 0; // clear_page zeroes
    cpu.rflags &= !RFLAGS_DF; // forward
    cpu.string_op(StringOp::Stos, 8, RepKind::Rep, cpu.rip);
    assert_eq!(cpu.r[RCX], 0, "REP consumed the whole count");
    assert_eq!(cpu.r[RDI], (dst + 4096) as u64, "RDI advanced by the byte length");
    assert!(
        cpu.ram[dst..dst + 4096].iter().all(|&b| b == 0),
        "the whole page was zeroed (clear_page)"
    );

    cpu.ram[dst..dst + 4096].fill(0);
    cpu.r[RDI] = dst as u64;
    cpu.r[RCX] = 4096;
    cpu.r[RAX] = 0xAB;
    cpu.rflags &= !RFLAGS_DF;
    cpu.string_op(StringOp::Stos, 1, RepKind::Rep, cpu.rip);
    assert_eq!(cpu.r[RDI], (dst + 4096) as u64);
    assert!(
        cpu.ram[dst..dst + 4096].iter().all(|&b| b == 0xAB),
        "byte-granular fill covered the page"
    );

    cpu.ram[dst..dst + 4096].fill(0);
    cpu.r[RDI] = dst as u64;
    cpu.r[RCX] = 10;
    cpu.r[RAX] = 0xFFFF_FFFF_FFFF_FFFF;
    cpu.string_op(StringOp::Stos, 8, RepKind::Rep, cpu.rip);
    assert!(cpu.ram[dst..dst + 80].iter().all(|&b| b == 0xFF), "10 qwords filled");
    assert_eq!(cpu.ram[dst + 80], 0, "the byte past the fill is untouched");
}

#[test]
fn rep_movs_bulk_fast_path_copies_like_the_per_element_loop() {
    let mut cpu = Cpu::new(256 * 1024);
    let (src, dst) = (0x10_000usize, 0x20_000usize); // non-overlapping, distinct pages
    for i in 0..4096 {
        cpu.ram[src + i] = (i as u8).wrapping_mul(7).wrapping_add(1);
    }
    cpu.ram[dst..dst + 4096].fill(0);
    cpu.r[RSI] = src as u64;
    cpu.r[RDI] = dst as u64;
    cpu.r[RCX] = 512; // 512 x 8 B = 4 KiB
    cpu.rflags &= !RFLAGS_DF;
    cpu.string_op(StringOp::Movs, 8, RepKind::Rep, cpu.rip);
    assert_eq!(cpu.r[RCX], 0, "REP consumed the whole count");
    assert_eq!(cpu.r[RSI], (src + 4096) as u64, "RSI advanced");
    assert_eq!(cpu.r[RDI], (dst + 4096) as u64, "RDI advanced");
    let (a, b) = cpu.ram.split_at(0x18_000);
    assert_eq!(&a[src..src + 4096], &b[0x8000..0x8000 + 4096], "dst == src after copy");

    cpu.ram[dst..dst + 4096].fill(0xEE);
    cpu.r[RSI] = src as u64;
    cpu.r[RDI] = dst as u64;
    cpu.r[RCX] = 13;
    cpu.string_op(StringOp::Movs, 1, RepKind::Rep, cpu.rip);
    assert_eq!(cpu.r[RDI], (dst + 13) as u64);
    for i in 0..13 {
        assert_eq!(cpu.ram[dst + i], cpu.ram[src + i], "byte {i} copied");
    }
    assert_eq!(cpu.ram[dst + 13], 0xEE, "the byte past the copy is untouched");
}

#[test]
fn call_to_a_retpoline_thunk_fast_paths_to_the_register() {
    let mut cpu = Cpu::new(64 * 1024); // paging off -> identity translate
    cpu.ram[0x6000..0x600b]
        .copy_from_slice(&[0xe8, 0x01, 0, 0, 0, 0xcc, 0x48, 0x89, 0x04, 0x24, 0xe9]);
    let rel = (0x6000i64 - 0x5005) as i32;
    cpu.ram[0x5000] = 0xe8;
    cpu.ram[0x5001..0x5005].copy_from_slice(&rel.to_le_bytes());
    cpu.rip = 0x5000;
    cpu.r[RAX] = 0x7000; // the indirect target
    cpu.r[RSP] = 0x4000;
    stepped(&mut cpu);
    assert_eq!(cpu.rip, 0x7000, "fast-pathed straight to RAX (== call *rax), skipping the thunk");
    assert_eq!(cpu.r[RSP], 0x3ff8, "the outer return address was pushed (rsp -= 8)");
    assert_eq!(
        u64::from_le_bytes(cpu.ram[0x3ff8..0x4000].try_into().unwrap()),
        0x5005,
        "the pushed value is the return address (the instruction after the call)"
    );

    cpu.ram[0x8000] = 0x90; // nop: not a thunk body
    let rel2 = (0x8000i64 - 0x5005) as i32;
    cpu.ram[0x5001..0x5005].copy_from_slice(&rel2.to_le_bytes());
    cpu.rip = 0x5000;
    cpu.r[RSP] = 0x4000;
    stepped(&mut cpu);
    assert_eq!(cpu.rip, 0x8000, "a non-retpoline call jumps to its target normally");
}

/// `STAC` sets the access-control flag, `CLAC` clears it.
#[test]
fn stac_and_clac_drive_the_ac_flag() {
    let mut cpu = Cpu::new(64 * 1024);
    cpu.ram[0..3].copy_from_slice(&[0x0f, 0x01, 0xcb]); // STAC
    cpu.rip = 0;
    cpu.rflags &= !RFLAGS_AC;
    stepped(&mut cpu);
    assert!(cpu.rflags & RFLAGS_AC != 0, "STAC set RFLAGS.AC");

    cpu.ram[0..3].copy_from_slice(&[0x0f, 0x01, 0xca]); // CLAC
    cpu.rip = 0;
    stepped(&mut cpu);
    assert_eq!(cpu.rflags & RFLAGS_AC, 0, "CLAC cleared RFLAGS.AC");
}

/// A fault inside a `STAC` bracket saves the access-control flag on the exception frame.
#[test]
fn execve_smap_copy_to_user_fault_delivers_ac_on_the_pf_frame() {
    let mut cpu = Cpu::new(256 * 1024);
    let put = |cpu: &mut Cpu, at: usize, e: u64| {
        cpu.ram[at..at + 8].copy_from_slice(&e.to_le_bytes());
    };
    put(&mut cpu, 0x1000, 0x2000 | 0b11); // PML4[0] -> PDPT
    put(&mut cpu, 0x2000, 0x3000 | 0b11); // PDPT[0] -> PD
    put(&mut cpu, 0x3000, 0x4000 | 0b11); // PD[0]   -> PT
    let map = |cpu: &mut Cpu, va: u64, pa: u64| {
        put(cpu, 0x4000 + ((va >> 12) as usize) * 8, pa | 0b11);
    };
    map(&mut cpu, 0x5000, 0x5000); // code
    map(&mut cpu, 0x6000, 0x6000); // source page
    map(&mut cpu, 0x7000, 0x7000); // destination page 1 (present)
    map(&mut cpu, 0xA000, 0xA000); // #PF handler
    map(&mut cpu, 0xB000, 0xB000); // IDT
    map(&mut cpu, 0xC000, 0xC000); // kernel stack
    cpu.cr3 = 0x1000;
    cpu.cr4 = (1 << 5) | (1 << 21); // PAE | SMAP
    cpu.efer = 1 << 8; // LME
    cpu.cr0 = 1 << 31; // PG

    put(&mut cpu, 0xB000 + 14 * 16, 0xA000); // lo: offset[0..16] = 0xA000
    put(&mut cpu, 0xB000 + 14 * 16 + 8, 0); // hi
    cpu.ram[0xA000] = 0xF4; // handler: hlt
    cpu.sys.idtr = (0xB000, 0x0FFF);

    cpu.ram[0x5000..0x5006].copy_from_slice(&[0x0f, 0x01, 0xcb, 0xf3, 0xa4, 0xf4]);
    cpu.ram[0x6000..0x6008].copy_from_slice(&[0x11, 0x22, 0x33, 0x44, 0x55, 0x66, 0x77, 0x88]);
    cpu.rip = 0x5000;
    cpu.cpl = 0; // kernel doing copy_to_user
    cpu.rflags &= !RFLAGS_AC; // AC starts clear (SMAP enforcing)
    cpu.r[RSP] = 0xCFF0; // kernel stack (present, identity-mapped)
    cpu.r[RCX] = 8;
    cpu.r[RSI] = 0x6000;
    cpu.r[RDI] = 0x7FFE; // 2 bytes in page 1, then crosses into absent 0x8000
    cpu.rflags &= !RFLAGS_DF;

    stepped(&mut cpu); // sets AC
    assert!(cpu.rflags & RFLAGS_AC != 0, "STAC set AC before the copy");

    let kstack = cpu.r[RSP]; // RSP before the fault's pushes
    stepped(&mut cpu);

    assert_eq!(cpu.cr2, 0x8000, "CR2 = the not-present user page");
    assert_eq!(cpu.rip, 0xA000, "#PF vectored to the IDT handler");
    let frame_rflags = u64::from_le_bytes(
        cpu.ram[(kstack as usize - 24)..(kstack as usize - 16)].try_into().unwrap(),
    );
    assert!(
        frame_rflags & RFLAGS_AC != 0,
        "the saved flags carry AC (got {frame_rflags:#x})"
    );
}

#[test]
fn call_and_ret_use_the_stack() {
    let code = [
        0x48, 0xc7, 0xc0, 0x34, 0x12, 0, 0,    // mov rax, 0x1234
        0x50, // push rax
        0x5b, // pop rbx
        0xf4, // hlt
    ];
    assert_eq!(run(&code).reg(3), 0x1234);
}

