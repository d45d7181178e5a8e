//! The x87 instructions, the save area of the floating-point state, and what becomes of the results
//! of floating-point arithmetic.
use vstd::prelude::*;
use crate::cpu::{Cpu, RAX};
use crate::decode::{ask_one, Conv, Flow, Form, FpAsk, FpDest, FpOp, Prefix, Round};
use crate::operand::{sext, Rm};
#[allow(unused_imports)]
use crate::bits::mask_of;
use crate::bits::mask;
#[allow(unused_imports)]
use crate::cpu::CpuState;
#[allow(unused_imports)]
use crate::decode::{ask1, dest_ok, FlowState, FpAskState};
#[allow(unused_imports)]
use crate::mmu::{fetch_byte, mem_read, mem_write};
#[allow(unused_imports)]
use crate::operand::{
    addr_or_zero, decode_rm, reg_write, sext_of, with_flags, with_reg, with_rip, with_xmm,
};
#[allow(unused_imports)]
use crate::simd::{joined, with_low32, with_low64};

verus! {

// ----- the register stack -----

/// `st(i)`: the `i`-th register from the top.
pub open spec fn st(s: CpuState, i: int) -> u64 {
    s.fpr[(s.ftop as int + i) % 8]
}

/// `st(i)` replaced.
pub open spec fn with_st(s: CpuState, i: int, v: u64) -> CpuState {
    CpuState { fpr: s.fpr.update((s.ftop as int + i) % 8, v), ..s }
}

/// A value pushed: the top moves down.
pub open spec fn pushed(s: CpuState, v: u64) -> CpuState {
    let top = (s.ftop as int + 7) % 8;
    CpuState { ftop: top as u8, fpr: s.fpr.update(top, v), ..s }
}

/// The top popped.
pub open spec fn popped(s: CpuState) -> CpuState {
    CpuState { ftop: ((s.ftop as int + 1) % 8) as u8, ..s }
}

/// The top popped so many times.
pub open spec fn popped_n(s: CpuState, n: nat) -> CpuState
    decreases n,
{
    if n == 0 {
        s
    } else {
        popped(popped_n(s, (n - 1) as nat))
    }
}

/// The status word, with the top in its field.
pub open spec fn status_word(s: CpuState) -> u16 {
    (s.fsw & !0x3800) | (((s.ftop % 8) as u16) << 11)
}

/// The rounding mode of the control word.
pub open spec fn rounding(s: CpuState) -> Round {
    let rc = (s.fcw / 1024) % 4;
    if rc == 0 {
        Round::Nearest
    } else if rc == 1 {
        Round::Down
    } else if rc == 2 {
        Round::Up
    } else {
        Round::Zero
    }
}

// ----- the instructions -----

/// The arithmetic that the register field selects, on the top and an operand; two of the eight
/// compare.
pub open spec fn field_op(g: int) -> FpOp {
    if g == 0 {
        FpOp::Plus64
    } else if g == 1 {
        FpOp::Times64
    } else if g == 2 || g == 3 {
        FpOp::Order64
    } else if g == 4 {
        FpOp::Minus64
    } else if g == 5 {
        FpOp::MinusRev64
    } else if g == 6 {
        FpOp::Over64
    } else {
        FpOp::OverRev64
    }
}

/// Where the result of that arithmetic goes.
pub open spec fn field_dest(g: int) -> FpDest {
    if g == 2 {
        FpDest::Status(0)
    } else if g == 3 {
        FpDest::Status(1)
    } else {
        FpDest::St(0, 0)
    }
}

/// The arithmetic that the register field selects, on `st(i)` and the top.
pub open spec fn field_op_reverse(g: int) -> FpOp {
    if g == 0 {
        FpOp::Plus64
    } else if g == 1 {
        FpOp::Times64
    } else if g == 4 {
        FpOp::MinusRev64
    } else if g == 5 {
        FpOp::Minus64
    } else if g == 6 {
        FpOp::OverRev64
    } else {
        FpOp::Over64
    }
}

/// Loads onto the stack.
pub open spec fn x87_load(s: CpuState, op: u8, g: u8, addr: u64) -> (CpuState, FlowState) {
    if op == 0xd9 {
        let (t, v) = mem_read(s, addr, 4);
        (t, ask1(FpOp::Take64, Conv::Single, 0, (v as u32) as u64, FpDest::Push))
    } else if op == 0xdd {
        let (t, v) = mem_read(s, addr, 8);
        (pushed(t, v), FlowState::Next)
    } else if op == 0xdb && g == 5 {
        let (t, m) = mem_read(s, addr, 8);
        let (u, e) = mem_read(t, addr.wrapping_add(8), 2);
        (u, ask1(FpOp::From80, Conv::Same, m, (e as u16) as u64, FpDest::Push))
    } else if op == 0xdf && g == 0 {
        let (t, v) = mem_read(s, addr, 2);
        (t, ask1(FpOp::Take64, Conv::Int, 0, sext_of(v, 2), FpDest::Push))
    } else if op == 0xdb {
        let (t, v) = mem_read(s, addr, 4);
        (t, ask1(FpOp::Take64, Conv::Int, 0, sext_of(v, 4), FpDest::Push))
    } else {
        let (t, v) = mem_read(s, addr, 8);
        (t, ask1(FpOp::Take64, Conv::Int, 0, v, FpDest::Push))
    }
}

/// The opcode and register field are those of a load.
pub open spec fn is_load(op: u8, g: u8) -> bool {
    (g == 0 && (op == 0xd9 || op == 0xdd || op == 0xdf || op == 0xdb)) || (g == 5 && (op == 0xdb
        || op == 0xdf))
}

/// The width and pops of a store of the top as an integer, if it is one.
pub open spec fn int_store(op: u8, g: u8) -> Option<(u8, u8)> {
    if g == 1 && (op == 0xdd || op == 0xdb || op == 0xdf || op == 0xd9) {
        Some((if op == 0xdf { 2u8 } else { 4u8 }, 1u8))
    } else if op == 0xdf && (g == 2 || g == 3) {
        Some((2u8, if g == 3 { 1u8 } else { 0u8 }))
    } else if op == 0xdb && (g == 2 || g == 3) {
        Some((4u8, if g == 3 { 1u8 } else { 0u8 }))
    } else if op == 0xdf && g == 7 {
        Some((8u8, 1u8))
    } else {
        None
    }
}

/// Arithmetic on the top and a memory operand.
pub open spec fn x87_memory_arith(s: CpuState, op: u8, g: u8, addr: u64) -> (CpuState, FlowState) {
    let f = field_op(g as int);
    let d = field_dest(g as int);
    if op == 0xd8 {
        let (t, v) = mem_read(s, addr, 4);
        (t, ask1(f, Conv::Single, st(t, 0), (v as u32) as u64, d))
    } else if op == 0xdc {
        let (t, v) = mem_read(s, addr, 8);
        (t, ask1(f, Conv::Same, st(t, 0), v, d))
    } else if op == 0xda {
        let (t, v) = mem_read(s, addr, 4);
        (t, ask1(f, Conv::Int, st(t, 0), sext_of(v, 4), d))
    } else {
        let (t, v) = mem_read(s, addr, 2);
        (t, ask1(f, Conv::Int, st(t, 0), sext_of(v, 2), d))
    }
}

/// The forms with a memory operand.
#[verifier::opaque]
pub open spec fn x87_memory(s: CpuState, op: u8, g: u8, addr: u64) -> (CpuState, FlowState) {
    if op == 0xd8 || op == 0xdc || op == 0xda || op == 0xde {
        x87_memory_arith(s, op, g, addr)
    } else if is_load(op, g) {
        x87_load(s, op, g, addr)
    } else if int_store(op, g) is Some {
        let (size, pops) = int_store(op, g)->0;
        (
            s,
            ask1(
                FpOp::ToI64(rounding(s)),
                Conv::Same,
                0,
                st(s, 0),
                FpDest::Mem(addr, size, pops),
            ),
        )
    } else if op == 0xd9 && (g == 2 || g == 3) {
        (
            s,
            ask1(
                FpOp::Narrow,
                Conv::Same,
                0,
                st(s, 0),
                FpDest::Mem(addr, 4, if g == 3 { 1 } else { 0 }),
            ),
        )
    } else if op == 0xdd && g == 2 {
        (mem_write(s, addr, 8, st(s, 0)), FlowState::Next)
    } else if op == 0xdd && g == 3 {
        (popped(mem_write(s, addr, 8, st(s, 0))), FlowState::Next)
    } else if op == 0xdb && g == 7 {
        (s, ask1(FpOp::To80, Conv::Same, 0, st(s, 0), FpDest::Mem80(addr)))
    } else if op == 0xd9 && g == 5 {
        let (t, v) = mem_read(s, addr, 2);
        (CpuState { fcw: v as u16, ..t }, FlowState::Next)
    } else if op == 0xd9 && g == 7 {
        (mem_write(s, addr, 2, s.fcw as u64), FlowState::Next)
    } else if op == 0xdd && g == 7 {
        (mem_write(s, addr, 2, status_word(s) as u64), FlowState::Next)
    } else {
        (s, FlowState::Next)
    }
}

/// The constants that opcode `D9` loads, as the bits of binary64 numbers.
pub open spec fn x87_constant(m: u8) -> Option<u64> {
    if m == 0xe8 {
        Some(0x3ff0_0000_0000_0000)
    } else if m == 0xe9 {
        Some(0x400a_934f_0979_a371)
    } else if m == 0xea {
        Some(0x3ff7_1547_652b_82fe)
    } else if m == 0xeb {
        Some(0x4009_21fb_5444_2d18)
    } else if m == 0xec {
        Some(0x3fd3_4413_509f_79ff)
    } else if m == 0xed {
        Some(0x3fe6_2e42_fefa_39ef)
    } else if m == 0xee {
        Some(0)
    } else {
        None
    }
}

/// The arithmetic on the top alone.
pub open spec fn x87_unary(s: CpuState, m: u8) -> Option<FpOp> {
    if m == 0xf0 {
        Some(FpOp::Exp2Less1)
    } else if m == 0xfa {
        Some(FpOp::Sqrt64)
    } else if m == 0xfc {
        Some(FpOp::RoundInt(rounding(s)))
    } else if m == 0xfe {
        Some(FpOp::Sin64)
    } else if m == 0xff {
        Some(FpOp::Cos64)
    } else {
        None
    }
}

/// The register forms of opcode `D9`.
pub open spec fn x87_d9(s: CpuState, m: u8) -> (CpuState, FlowState) {
    let i = (m % 8) as int;
    if 0xc0 <= m <= 0xc7 {
        (pushed(s, st(s, i)), FlowState::Next)
    } else if 0xc8 <= m <= 0xcf {
        (with_st(with_st(s, 0, st(s, i)), i, st(s, 0)), FlowState::Next)
    } else if m == 0xe0 {
        (with_st(s, 0, st(s, 0) ^ 0x8000_0000_0000_0000), FlowState::Next)
    } else if m == 0xe1 {
        (with_st(s, 0, st(s, 0) & 0x7fff_ffff_ffff_ffff), FlowState::Next)
    } else if m == 0xe4 {
        (s, ask1(FpOp::Order64, Conv::Same, st(s, 0), 0, FpDest::Status(0)))
    } else if x87_constant(m) is Some {
        (pushed(s, x87_constant(m)->0), FlowState::Next)
    } else if m == 0xf8 {
        (s, ask1(FpOp::Rem64, Conv::Same, st(s, 0), st(s, 1), FpDest::St(1, 1)))
    } else if x87_unary(s, m) is Some {
        (s, ask1(x87_unary(s, m)->0, Conv::Same, 0, st(s, 0), FpDest::St(0, 0)))
    } else {
        (s, FlowState::Next)
    }
}

/// The register forms of the other opcodes.
pub open spec fn x87_other(s: CpuState, op: u8, m: u8) -> (CpuState, FlowState) {
    let i = (m % 8) as int;
    let g = ((m / 8) % 8) as int;
    let top = st(s, 0);
    if op == 0xd8 {
        (s, ask1(field_op(g), Conv::Same, top, st(s, i), field_dest(g)))
    } else if (op == 0xdc || op == 0xde) && g != 2 && g != 3 {
        (
            s,
            ask1(
                field_op_reverse(g),
                Conv::Same,
                st(s, i),
                top,
                FpDest::St((m % 8) as usize, if op == 0xde { 1 } else { 0 }),
            ),
        )
    } else if (op == 0xde && m == 0xd9) || (op == 0xda && m == 0xe9) {
        (s, ask1(FpOp::Order64, Conv::Same, top, st(s, 1), FpDest::Status(2)))
    } else if op == 0xdd && g == 2 {
        (with_st(s, i, top), FlowState::Next)
    } else if op == 0xdd && g == 3 {
        (popped(with_st(s, i, top)), FlowState::Next)
    } else if op == 0xdd && (g == 4 || g == 5) {
        (
            s,
            ask1(
                FpOp::Order64,
                Conv::Same,
                top,
                st(s, i),
                FpDest::Status(if g == 5 { 1 } else { 0 }),
            ),
        )
    } else if op == 0xdb && m == 0xe3 {
        (CpuState { ftop: 0, fcw: 0x037f, fsw: 0, ..s }, FlowState::Next)
    } else if (op == 0xdb || op == 0xdf) && (g == 5 || g == 6) {
        (s, ask1(FpOp::Order64, Conv::Same, top, st(s, i), FpDest::Flags(op == 0xdf)))
    } else if op == 0xdf && m == 0xe0 {
        (with_reg(s, 0, (s.r[0] & !0xffff) | (status_word(s) as u64)), FlowState::Next)
    } else {
        (s, FlowState::Next)
    }
}

/// The forms with registers only.
#[verifier::opaque]
pub open spec fn x87_register(s: CpuState, op: u8, m: u8) -> (CpuState, FlowState) {
    if op == 0xd9 {
        x87_d9(s, m)
    } else {
        x87_other(s, op, m)
    }
}

/// One x87 instruction: encodings without an effect here change nothing.
pub open spec fn do_x87(s: CpuState, p: Prefix, op: u8) -> (CpuState, FlowState) {
    let (s1, m) = fetch_byte(s);
    if m < 0xc0 {
        let (s2, (_, rm)) = decode_rm(with_rip(s1, s1.rip.wrapping_sub(1)), p.rex);
        x87_memory(s2, op, (m / 8) % 8, addr_or_zero(s2, rm))
    } else {
        x87_register(s1, op, m)
    }
}

// ----- the save area -----

/// Eight extended-precision numbers read, sixteen bytes apart.
pub open spec fn read_numbers(s: CpuState, addr: u64, n: nat) -> (CpuState, Seq<(u64, u64)>)
    decreases n,
{
    if n == 0 {
        (s, Seq::empty())
    } else {
        let (t, l) = read_numbers(s, addr, (n - 1) as nat);
        let a = addr.wrapping_add((32 + (n - 1) * 16) as u64);
        let (u, m) = mem_read(t, a, 8);
        let (v, e) = mem_read(u, a.wrapping_add(8), 2);
        (v, l.push((m, (e as u16) as u64)))
    }
}

/// The SSE registers read.
pub open spec fn read_xmm(s: CpuState, addr: u64, n: nat) -> CpuState
    decreases n,
{
    if n == 0 {
        s
    } else {
        let t = read_xmm(s, addr, (n - 1) as nat);
        let a = addr.wrapping_add((160 + (n - 1) * 16) as u64);
        let (u, lo) = mem_read(t, a, 8);
        let (v, hi) = mem_read(u, a.wrapping_add(8), 8);
        with_xmm(v, n - 1, joined(lo, hi))
    }
}

/// The save area read: the registers, and a request for the x87 numbers.
#[verifier::opaque]
pub open spec fn state_read(s: CpuState, addr: u64) -> (CpuState, FlowState) {
    let (s1, cw) = mem_read(s, addr, 2);
    let (s2, sw) = mem_read(CpuState { fcw: cw as u16, ..s1 }, addr.wrapping_add(2), 2);
    let w = sw as u16;
    let (s3, l) = read_numbers(
        CpuState { fsw: w, ftop: ((w / 2048) % 8) as u8, ..s2 },
        addr,
        8,
    );
    (
        read_xmm(s3, addr, 16),
        FlowState::Ask(
            FpAskState { op: FpOp::From80, conv: Conv::Same, lanes: l, dest: FpDest::Restore },
        ),
    )
}

/// The request that precedes a save.
pub open spec fn state_ask(s: CpuState, addr: u64, header: bool) -> FlowState {
    FlowState::Ask(
        FpAskState {
            op: FpOp::To80,
            conv: Conv::Same,
            lanes: Seq::new(8, |i: int| (0u64, s.fpr[i])),
            dest: FpDest::Save(addr, header),
        },
    )
}

/// The `0F AE` group: fences, the save area, and the SSE control word, which always has its default.
pub open spec fn do_state(s: CpuState, p: Prefix) -> (CpuState, FlowState) {
    let (s1, (reg, rm)) = decode_rm(s, p.rex);
    let addr = addr_or_zero(s1, rm);
    let ext = reg % 8;
    if rm is Reg {
        (s1, FlowState::Next)
    } else if ext == 0 || ext == 4 {
        (s1, state_ask(s1, addr, ext == 4))
    } else if ext == 1 || ext == 5 {
        state_read(s1, addr)
    } else if ext == 3 {
        (mem_write(s1, addr, 4, 0x1f80), FlowState::Next)
    } else if ext == 2 {
        (mem_read(s1, addr, 4).0, FlowState::Next)
    } else {
        (s1, FlowState::Next)
    }
}

// ----- the results of a request -----

/// How many results a request has.
pub open spec fn result_count(a: FpAskState) -> nat {
    if a.op is To80 {
        2 * a.lanes.len()
    } else {
        a.lanes.len()
    }
}

/// The `i`-th result; a missing one is zero.
pub open spec fn answer(a: FpAskState, res: Seq<u64>, i: int) -> u64 {
    if 0 <= i < res.len() && i < result_count(a) {
        res[i]
    } else {
        0
    }
}

/// A comparison predicate of an ordering.
pub open spec fn predicate(pred: u8, o: u64) -> bool {
    if pred == 0 {
        o == 2
    } else if pred == 1 {
        o == 1
    } else if pred == 2 {
        o == 1 || o == 2
    } else if pred == 3 {
        o == 3
    } else if pred == 4 {
        o != 2
    } else if pred == 5 {
        o != 1
    } else if pred == 6 {
        o != 1 && o != 2
    } else {
        o != 3
    }
}

/// What goes into lane `i` of an SSE register.
pub open spec fn settled(a: FpAskState, res: Seq<u64>, i: int) -> u64 {
    let o = answer(a, res, i);
    match a.dest {
        FpDest::Select(_, _, max) => if i < a.lanes.len() {
            if o == (if max { 0u64 } else { 1u64 }) {
                a.lanes[i].0
            } else {
                a.lanes[i].1
            }
        } else {
            0
        },
        FpDest::Mask(_, _, pred) => if i < a.lanes.len() && predicate(pred, o) {
            u64::MAX
        } else {
            0
        },
        _ => o,
    }
}

/// The low doubleword.
pub open spec fn low32(v: u64) -> u64 {
    v & 0xffff_ffff
}

/// An SSE register with the results in place.
pub open spec fn form_value(x: u128, f: Form, a: FpAskState, res: Seq<u64>) -> u128 {
    match f {
        Form::Low32 => with_low32(x, low32(settled(a, res, 0))),
        Form::Low64 => with_low64(x, settled(a, res, 0)),
        Form::Packed32 => joined(
            low32(settled(a, res, 0)) | (low32(settled(a, res, 1)) << 32),
            low32(settled(a, res, 2)) | (low32(settled(a, res, 3)) << 32),
        ),
        Form::Packed64 => joined(settled(a, res, 0), settled(a, res, 1)),
    }
}

/// An ordering in the flags: the zero, parity and carry flags, the other arithmetic flags cleared.
pub open spec fn order_flags(f: u64, o: u64) -> u64 {
    let c = f & !0x8d5;
    if o == 3 {
        c | 0x45
    } else if o == 1 {
        c | 0x1
    } else if o == 2 {
        c | 0x40
    } else {
        c
    }
}

/// An ordering in the condition codes of the status word.
pub open spec fn order_status(w: u16, o: u64) -> u16 {
    let c = w & !0x4500;
    if o == 3 {
        c | 0x4500
    } else if o == 1 {
        c | 0x100
    } else if o == 2 {
        c | 0x4000
    } else {
        c
    }
}

/// A number stored in extended precision.
pub open spec fn write_number(s: CpuState, addr: u64, m: u64, e: u64) -> CpuState {
    mem_write(mem_write(s, addr, 8, m), addr.wrapping_add(8), 2, e & 0xffff)
}

/// The x87 numbers stored.
pub open spec fn write_numbers(
    s: CpuState,
    addr: u64,
    a: FpAskState,
    res: Seq<u64>,
    n: nat,
) -> CpuState
    decreases n,
{
    if n == 0 {
        s
    } else {
        write_number(
            write_numbers(s, addr, a, res, (n - 1) as nat),
            addr.wrapping_add((32 + (n - 1) * 16) as u64),
            answer(a, res, 2 * (n - 1)),
            answer(a, res, 2 * (n - 1) + 1),
        )
    }
}

/// The SSE registers stored.
pub open spec fn write_xmm(s: CpuState, addr: u64, n: nat) -> CpuState
    decreases n,
{
    if n == 0 {
        s
    } else {
        let t = write_xmm(s, addr, (n - 1) as nat);
        let a = addr.wrapping_add((160 + (n - 1) * 16) as u64);
        let u = mem_write(t, a, 8, t.xmm[n - 1] as u64);
        mem_write(u, a.wrapping_add(8), 8, (u.xmm[n - 1] >> 64) as u64)
    }
}

/// The head of the save area: control and status words, and the SSE defaults.
pub open spec fn write_head(s: CpuState, addr: u64) -> CpuState {
    let s1 = mem_write(s, addr, 2, s.fcw as u64);
    let s2 = mem_write(s1, addr.wrapping_add(2), 2, status_word(s1) as u64);
    let s3 = mem_write(s2, addr.wrapping_add(4), 1, 0xff);
    let s4 = mem_write(s3, addr.wrapping_add(24), 4, 0x1f80);
    mem_write(s4, addr.wrapping_add(28), 4, 0xffff)
}

/// The save area written; the extended header names the two components present.
#[verifier::opaque]
pub open spec fn state_written(
    s: CpuState,
    addr: u64,
    header: bool,
    a: FpAskState,
    res: Seq<u64>,
) -> CpuState {
    let t = write_xmm(write_numbers(write_head(s, addr), addr, a, res, 8), addr, 16);
    if header {
        mem_write(mem_write(t, addr.wrapping_add(512), 8, 3), addr.wrapping_add(520), 8, 0)
    } else {
        t
    }
}

/// The results of a request put where they belong.
#[verifier::opaque]
pub open spec fn fp_done(s: CpuState, a: FpAskState, res: Seq<u64>) -> CpuState {
    match a.dest {
        FpDest::Xmm(r, f) => with_xmm(s, r as int, form_value(s.xmm[r as int], f, a, res)),
        FpDest::Select(r, f, _) => with_xmm(s, r as int, form_value(s.xmm[r as int], f, a, res)),
        FpDest::Mask(r, f, _) => with_xmm(s, r as int, form_value(s.xmm[r as int], f, a, res)),
        FpDest::Gpr(r, size) => reg_write(s, r as int, size, answer(a, res, 0)),
        FpDest::Flags(pop) => {
            let t = with_flags(s, order_flags(s.rflags, answer(a, res, 0)));
            if pop {
                popped(t)
            } else {
                t
            }
        },
        FpDest::Push => pushed(s, answer(a, res, 0)),
        FpDest::St(i, pops) => popped_n(with_st(s, i as int, answer(a, res, 0)), pops as nat),
        FpDest::Status(pops) => popped_n(
            CpuState { fsw: order_status(s.fsw, answer(a, res, 0)), ..s },
            pops as nat,
        ),
        FpDest::Mem(addr, size, pops) => popped_n(
            mem_write(s, addr, size, answer(a, res, 0) & mask_of(size)),
            pops as nat,
        ),
        FpDest::Mem80(addr) => popped(
            write_number(s, addr, answer(a, res, 0), answer(a, res, 1)),
        ),
        FpDest::Save(addr, header) => state_written(s, addr, header, a, res),
        FpDest::Restore => CpuState { fpr: Seq::new(8, |i: int| answer(a, res, i)), ..s },
    }
}

// ----- the executable instructions -----

fn field_select(g: u8) -> (r: (FpOp, FpDest))
    ensures
        r.0 == field_op(g as int),
        r.1 == field_dest(g as int),
        dest_ok(r.1),
{
    let op: FpOp = if g == 0 {
        FpOp::Plus64
    } else if g == 1 {
        FpOp::Times64
    } else if g == 2 || g == 3 {
        FpOp::Order64
    } else if g == 4 {
        FpOp::Minus64
    } else if g == 5 {
        FpOp::MinusRev64
    } else if g == 6 {
        FpOp::Over64
    } else {
        FpOp::OverRev64
    };
    let dest: FpDest = if g == 2 {
        FpDest::Status(0)
    } else if g == 3 {
        FpDest::Status(1)
    } else {
        FpDest::St(0, 0)
    };
    (op, dest)
}

fn field_select_reverse(g: u8) -> (op: FpOp)
    ensures
        op == field_op_reverse(g as int),
{
    if g == 0 {
        FpOp::Plus64
    } else if g == 1 {
        FpOp::Times64
    } else if g == 4 {
        FpOp::MinusRev64
    } else if g == 5 {
        FpOp::Minus64
    } else if g == 6 {
        FpOp::OverRev64
    } else {
        FpOp::Over64
    }
}

fn store_width(op: u8, g: u8) -> (r: Option<(u8, u8)>)
    ensures
        r == int_store(op, g),
        r matches Some((size, _)) ==> size == 2 || size == 4 || size == 8,
{
    if g == 1 && (op == 0xdd || op == 0xdb || op == 0xdf || op == 0xd9) {
        Some((if op == 0xdf { 2u8 } else { 4u8 }, 1u8))
    } else if op == 0xdf && (g == 2 || g == 3) {
        Some((2u8, if g == 3 { 1u8 } else { 0u8 }))
    } else if op == 0xdb && (g == 2 || g == 3) {
        Some((4u8, if g == 3 { 1u8 } else { 0u8 }))
    } else if op == 0xdf && g == 7 {
        Some((8u8, 1u8))
    } else {
        None
    }
}

fn constant(m: u8) -> (r: Option<u64>)
    ensures
        r == x87_constant(m),
{
    if m == 0xe8 {
        Some(0x3ff0_0000_0000_0000)
    } else if m == 0xe9 {
        Some(0x400a_934f_0979_a371)
    } else if m == 0xea {
        Some(0x3ff7_1547_652b_82fe)
    } else if m == 0xeb {
        Some(0x4009_21fb_5444_2d18)
    } else if m == 0xec {
        Some(0x3fd3_4413_509f_79ff)
    } else if m == 0xed {
        Some(0x3fe6_2e42_fefa_39ef)
    } else if m == 0xee {
        Some(0)
    } else {
        None
    }
}

fn ordered_flags(f: u64, o: u64) -> (r: u64)
    ensures
        r == order_flags(f, o),
{
    let c: u64 = f & !0x8d5;
    if o == 3 {
        c | 0x45
    } else if o == 1 {
        c | 0x1
    } else if o == 2 {
        c | 0x40
    } else {
        c
    }
}

fn ordered_status(w: u16, o: u64) -> (r: u16)
    ensures
        r == order_status(w, o),
{
    let c: u16 = w & !0x4500;
    if o == 3 {
        c | 0x4500
    } else if o == 1 {
        c | 0x100
    } else if o == 2 {
        c | 0x4000
    } else {
        c
    }
}

fn holds(pred: u8, o: u64) -> (b: bool)
    ensures
        b == predicate(pred, o),
{
    if pred == 0 {
        o == 2
    } else if pred == 1 {
        o == 1
    } else if pred == 2 {
        o == 1 || o == 2
    } else if pred == 3 {
        o == 3
    } else if pred == 4 {
        o != 2
    } else if pred == 5 {
        o != 1
    } else if pred == 6 {
        o != 1 && o != 2
    } else {
        o != 3
    }
}

impl FpAsk {
    fn answer(&self, res: &Vec<u64>, i: usize) -> (v: u64)
        ensures
            v == answer(self@, res@, i as int),
    {
        let two: bool = match self.op {
            FpOp::To80 => true,
            _ => false,
        };
        let lanes: usize = self.lanes.len();
        if i < res.len() && ((two && i / 2 < lanes) || (!two && i < lanes)) {
            res[i]
        } else {
            0
        }
    }

    fn settle(&self, res: &Vec<u64>, i: usize) -> (v: u64)
        ensures
            v == settled(self@, res@, i as int),
    {
        let o: u64 = self.answer(res, i);
        match self.dest {
            FpDest::Select(_, _, max) => if i < self.lanes.len() {
                let pair: (u64, u64) = self.lanes[i];
                if o == (if max { 0u64 } else { 1u64 }) {
                    pair.0
                } else {
                    pair.1
                }
            } else {
                0
            },
            FpDest::Mask(_, _, pred) => if i < self.lanes.len() && holds(pred, o) {
                u64::MAX
            } else {
                0
            },
            _ => o,
        }
    }

    fn form(&self, x: u128, f: Form, res: &Vec<u64>) -> (v: u128)
        ensures
            v == form_value(x, f, self@, res@),
    {
        let a: u64 = self.settle(res, 0);
        let b: u64 = self.settle(res, 1);
        match f {
            Form::Low32 => (x & !0xffff_ffffu128) | ((a & 0xffff_ffff) as u128),
            Form::Low64 => (x & !0xffff_ffff_ffff_ffffu128) | (a as u128),
            Form::Packed32 => {
                let lo: u64 = (a & 0xffff_ffff) | ((b & 0xffff_ffff) << 32);
                let c: u64 = self.settle(res, 2);
                let d: u64 = self.settle(res, 3);
                let hi: u64 = (c & 0xffff_ffff) | ((d & 0xffff_ffff) << 32);
                (lo as u128) | ((hi as u128) << 64)
            },
            Form::Packed64 => (a as u128) | ((b as u128) << 64),
        }
    }
}

impl Cpu {
    fn fst(&self, i: usize) -> (v: u64)
        requires
            i < 8,
        ensures
            v == st(self@, i as int),
    {
        self.fpr[(self.ftop as usize + i) % 8]
    }

    fn fsetst(&mut self, i: usize, v: u64)
        requires
            old(self).wf(),
            i < 8,
        ensures
            final(self).wf(),
            final(self)@ == with_st(old(self)@, i as int, v),
    {
        self.fpr[(self.ftop as usize + i) % 8] = v;
    }

    fn fpush(&mut self, v: u64)
        requires
            old(self).wf(),
        ensures
            final(self).wf(),
            final(self)@ == pushed(old(self)@, v),
    {
        let top: usize = (self.ftop as usize + 7) % 8;
        self.ftop = top as u8;
        self.fpr[top] = v;
    }

    fn fpop(&mut self)
        requires
            old(self).wf(),
        ensures
            final(self).wf(),
            final(self)@ == popped(old(self)@),
    {
        self.ftop = (self.ftop % 8 + 1) % 8;
    }

    fn fpop_n(&mut self, n: u8)
        requires
            old(self).wf(),
        ensures
            final(self).wf(),
            final(self)@ == popped_n(old(self)@, n as nat),
    {
        let mut i: u8 = 0;
        while i < n
            invariant
                i <= n,
                self.wf(),
                self@ == popped_n(old(self)@, i as nat),
            decreases n - i,
        {
            self.fpop();
            i = i + 1;
        }
    }

    fn status_word(&self) -> (w: u16)
        ensures
            w == status_word(self@),
    {
        (self.fsw & !0x3800) | (((self.ftop % 8) as u16) << 11)
    }

    fn rounding(&self) -> (r: Round)
        ensures
            r == rounding(self@),
    {
        let rc: u16 = (self.fcw / 1024) % 4;
        if rc == 0 {
            Round::Nearest
        } else if rc == 1 {
            Round::Down
        } else if rc == 2 {
            Round::Up
        } else {
            Round::Zero
        }
    }

    fn fload(&mut self, op: u8, g: u8, addr: u64) -> (f: Flow)
        requires
            old(self).wf(),
        ensures
            final(self).wf(),
            (final(self)@, f@) == x87_load(old(self)@, op, g, addr),
            f.ok(),
    {
        if op == 0xd9 {
            let v: u64 = self.rd(addr, 4);
            ask_one(FpOp::Take64, Conv::Single, 0, (v as u32) as u64, FpDest::Push)
        } else if op == 0xdd {
            let v: u64 = self.rd(addr, 8);
            self.fpush(v);
            Flow::Next
        } else if op == 0xdb && g == 5 {
            let m: u64 = self.rd(addr, 8);
            let e: u64 = self.rd(addr.wrapping_add(8), 2);
            ask_one(FpOp::From80, Conv::Same, m, (e as u16) as u64, FpDest::Push)
        } else if op == 0xdf && g == 0 {
            let v: u64 = self.rd(addr, 2);
            ask_one(FpOp::Take64, Conv::Int, 0, sext(v, 2), FpDest::Push)
        } else if op == 0xdb {
            let v: u64 = self.rd(addr, 4);
            ask_one(FpOp::Take64, Conv::Int, 0, sext(v, 4), FpDest::Push)
        } else {
            let v: u64 = self.rd(addr, 8);
            ask_one(FpOp::Take64, Conv::Int, 0, v, FpDest::Push)
        }
    }

    fn farith_mem(&mut self, op: u8, g: u8, addr: u64) -> (f: Flow)
        requires
            old(self).wf(),
        ensures
            final(self).wf(),
            (final(self)@, f@) == x87_memory_arith(old(self)@, op, g, addr),
            f.ok(),
    {
        let (o, d) = field_select(g);
        if op == 0xd8 {
            let v: u64 = self.rd(addr, 4);
            ask_one(o, Conv::Single, self.fst(0), (v as u32) as u64, d)
        } else if op == 0xdc {
            let v: u64 = self.rd(addr, 8);
            ask_one(o, Conv::Same, self.fst(0), v, d)
        } else if op == 0xda {
            let v: u64 = self.rd(addr, 4);
            ask_one(o, Conv::Int, self.fst(0), sext(v, 4), d)
        } else {
            let v: u64 = self.rd(addr, 2);
            ask_one(o, Conv::Int, self.fst(0), sext(v, 2), d)
        }
    }

    fn x87_mem(&mut self, op: u8, g: u8, addr: u64) -> (f: Flow)
        requires
            old(self).wf(),
        ensures
            final(self).wf(),
            (final(self)@, f@) == x87_memory(old(self)@, op, g, addr),
            f.ok(),
    {
        proof {
            reveal(x87_memory);
        }
        let top: u64 = self.fst(0);
        if op == 0xd8 || op == 0xdc || op == 0xda || op == 0xde {
            return self.farith_mem(op, g, addr);
        }
        if (g == 0 && (op == 0xd9 || op == 0xdd || op == 0xdf || op == 0xdb)) || (g == 5 && (op
            == 0xdb || op == 0xdf)) {
            return self.fload(op, g, addr);
        }
        match store_width(op, g) {
            Some((size, pops)) => {
                let mode: Round = self.rounding();
                return ask_one(
                    FpOp::ToI64(mode),
                    Conv::Same,
                    0,
                    top,
                    FpDest::Mem(addr, size, pops),
                );
            },
            None => {},
        }
        if op == 0xd9 && (g == 2 || g == 3) {
            let pops: u8 = if g == 3 { 1 } else { 0 };
            ask_one(FpOp::Narrow, Conv::Same, 0, top, FpDest::Mem(addr, 4, pops))
        } else if op == 0xdd && g == 2 {
            self.wr(addr, 8, top);
            Flow::Next
        } else if op == 0xdd && g == 3 {
            self.wr(addr, 8, top);
            self.fpop();
            Flow::Next
        } else if op == 0xdb && g == 7 {
            ask_one(FpOp::To80, Conv::Same, 0, top, FpDest::Mem80(addr))
        } else if op == 0xd9 && g == 5 {
            let v: u64 = self.rd(addr, 2);
            self.fcw = v as u16;
            Flow::Next
        } else if op == 0xd9 && g == 7 {
            let v: u64 = self.fcw as u64;
            self.wr(addr, 2, v);
            Flow::Next
        } else if op == 0xdd && g == 7 {
            let v: u64 = self.status_word() as u64;
            self.wr(addr, 2, v);
            Flow::Next
        } else {
            Flow::Next
        }
    }

    fn x87_unary(&self, m: u8) -> (r: Option<FpOp>)
        ensures
            r == x87_unary(self@, m),
    {
        if m == 0xf0 {
            Some(FpOp::Exp2Less1)
        } else if m == 0xfa {
            Some(FpOp::Sqrt64)
        } else if m == 0xfc {
            Some(FpOp::RoundInt(self.rounding()))
        } else if m == 0xfe {
            Some(FpOp::Sin64)
        } else if m == 0xff {
            Some(FpOp::Cos64)
        } else {
            None
        }
    }

    fn x87_d9(&mut self, m: u8) -> (f: Flow)
        requires
            old(self).wf(),
        ensures
            final(self).wf(),
            (final(self)@, f@) == x87_d9(old(self)@, m),
            f.ok(),
    {
        let i: usize = (m % 8) as usize;
        let top: u64 = self.fst(0);
        if 0xc0 <= m && m <= 0xc7 {
            let v: u64 = self.fst(i);
            self.fpush(v);
            return Flow::Next;
        }
        if 0xc8 <= m && m <= 0xcf {
            let v: u64 = self.fst(i);
            self.fsetst(0, v);
            self.fsetst(i, top);
            return Flow::Next;
        }
        if m == 0xe0 {
            self.fsetst(0, top ^ 0x8000_0000_0000_0000);
            return Flow::Next;
        }
        if m == 0xe1 {
            self.fsetst(0, top & 0x7fff_ffff_ffff_ffff);
            return Flow::Next;
        }
        if m == 0xe4 {
            return ask_one(FpOp::Order64, Conv::Same, top, 0, FpDest::Status(0));
        }
        match constant(m) {
            Some(v) => {
                self.fpush(v);
                return Flow::Next;
            },
            None => {},
        }
        if m == 0xf8 {
            return ask_one(FpOp::Rem64, Conv::Same, top, self.fst(1), FpDest::St(1, 1));
        }
        match self.x87_unary(m) {
            Some(o) => ask_one(o, Conv::Same, 0, top, FpDest::St(0, 0)),
            None => Flow::Next,
        }
    }

    fn x87_other(&mut self, op: u8, m: u8) -> (f: Flow)
        requires
            old(self).wf(),
        ensures
            final(self).wf(),
            (final(self)@, f@) == x87_other(old(self)@, op, m),
            f.ok(),
    {
        let i: usize = (m % 8) as usize;
        let g: u8 = (m / 8) % 8;
        let top: u64 = self.fst(0);
        if op == 0xd8 {
            let (o, d) = field_select(g);
            ask_one(o, Conv::Same, top, self.fst(i), d)
        } else if (op == 0xdc || op == 0xde) && g != 2 && g != 3 {
            let pops: u8 = if op == 0xde { 1 } else { 0 };
            ask_one(field_select_reverse(g), Conv::Same, self.fst(i), top, FpDest::St(i, pops))
        } else if (op == 0xde && m == 0xd9) || (op == 0xda && m == 0xe9) {
            ask_one(FpOp::Order64, Conv::Same, top, self.fst(1), FpDest::Status(2))
        } else if op == 0xdd && g == 2 {
            self.fsetst(i, top);
            Flow::Next
        } else if op == 0xdd && g == 3 {
            self.fsetst(i, top);
            self.fpop();
            Flow::Next
        } else if op == 0xdd && (g == 4 || g == 5) {
            let pops: u8 = if g == 5 { 1 } else { 0 };
            ask_one(FpOp::Order64, Conv::Same, top, self.fst(i), FpDest::Status(pops))
        } else if op == 0xdb && m == 0xe3 {
            self.ftop = 0;
            self.fcw = 0x037f;
            self.fsw = 0;
            Flow::Next
        } else if (op == 0xdb || op == 0xdf) && (g == 5 || g == 6) {
            ask_one(FpOp::Order64, Conv::Same, top, self.fst(i), FpDest::Flags(op == 0xdf))
        } else if op == 0xdf && m == 0xe0 {
            let v: u64 = (self.r[RAX] & !0xffff) | (self.status_word() as u64);
            self.r[RAX] = v;
            Flow::Next
        } else {
            Flow::Next
        }
    }

    fn x87_reg(&mut self, op: u8, m: u8) -> (f: Flow)
        requires
            old(self).wf(),
        ensures
            final(self).wf(),
            (final(self)@, f@) == x87_register(old(self)@, op, m),
            f.ok(),
    {
        proof {
            reveal(x87_register);
        }
        if op == 0xd9 {
            self.x87_d9(m)
        } else {
            self.x87_other(op, m)
        }
    }

    /// One x87 instruction (opcodes `D8` to `DF`).
    pub fn x87(&mut self, p: Prefix, op: u8) -> (f: Flow)
        requires
            old(self).wf(),
        ensures
            final(self).wf(),
            (final(self)@, f@) == do_x87(old(self)@, p, op),
            f.ok(),
    {
        let m: u8 = self.fetch_u8();
        if m < 0xc0 {
            self.rip = self.rip.wrapping_sub(1);
            let (_, rm) = self.modrm(p.rex);
            let addr: u64 = self.xmm_mem_addr(rm);
            self.x87_mem(op, (m / 8) % 8, addr)
        } else {
            self.x87_reg(op, m)
        }
    }

    fn load_numbers(&mut self, addr: u64) -> (l: Vec<(u64, u64)>)
        requires
            old(self).wf(),
        ensures
            final(self).wf(),
            (final(self)@, l@) == read_numbers(old(self)@, addr, 8),
    {
        let mut l: Vec<(u64, u64)> = Vec::new();
        let mut i: u64 = 0;
        while i < 8
            invariant
                i <= 8,
                self.wf(),
                (self@, l@) == read_numbers(old(self)@, addr, i as nat),
            decreases 8 - i,
        {
            let a: u64 = addr.wrapping_add(32 + i * 16);
            let m: u64 = self.rd(a, 8);
            let e: u64 = self.rd(a.wrapping_add(8), 2);
            l.push((m, (e as u16) as u64));
            i = i + 1;
        }
        l
    }

    fn load_xmm(&mut self, addr: u64)
        requires
            old(self).wf(),
        ensures
            final(self).wf(),
            final(self)@ == read_xmm(old(self)@, addr, 16),
    {
        let mut i: usize = 0;
        while i < 16
            invariant
                i <= 16,
                self.wf(),
                self@ == read_xmm(old(self)@, addr, i as nat),
            decreases 16 - i,
        {
            let a: u64 = addr.wrapping_add(160 + i as u64 * 16);
            let lo: u64 = self.rd(a, 8);
            let hi: u64 = self.rd(a.wrapping_add(8), 8);
            self.xmm[i] = (lo as u128) | ((hi as u128) << 64);
            i = i + 1;
        }
    }

    fn load_state(&mut self, addr: u64) -> (f: Flow)
        requires
            old(self).wf(),
        ensures
            final(self).wf(),
            (final(self)@, f@) == state_read(old(self)@, addr),
            f.ok(),
    {
        proof {
            reveal(state_read);
        }
        let cw: u64 = self.rd(addr, 2);
        self.fcw = cw as u16;
        let sw: u64 = self.rd(addr.wrapping_add(2), 2);
        let w: u16 = sw as u16;
        self.fsw = w;
        self.ftop = ((w / 2048) % 8) as u8;
        let lanes: Vec<(u64, u64)> = self.load_numbers(addr);
        self.load_xmm(addr);
        Flow::Ask(FpAsk { op: FpOp::From80, conv: Conv::Same, lanes, dest: FpDest::Restore })
    }

    fn ask_state(&self, addr: u64, header: bool) -> (f: Flow)
        ensures
            f@ == state_ask(self@, addr, header),
            f.ok(),
    {
        let mut lanes: Vec<(u64, u64)> = Vec::new();
        let mut i: usize = 0;
        while i < 8
            invariant
                i <= 8,
                lanes@ =~= Seq::new(i as nat, |k: int| (0u64, self@.fpr[k])),
            decreases 8 - i,
        {
            lanes.push((0, self.fpr[i]));
            i = i + 1;
        }
        Flow::Ask(
            FpAsk { op: FpOp::To80, conv: Conv::Same, lanes, dest: FpDest::Save(addr, header) },
        )
    }

    /// The `0F AE` group.
    pub fn op_state(&mut self, p: Prefix) -> (f: Flow)
        requires
            old(self).wf(),
        ensures
            final(self).wf(),
            (final(self)@, f@) == do_state(old(self)@, p),
            f.ok(),
    {
        let (reg, rm) = self.modrm(p.rex);
        let in_reg: bool = match rm {
            Rm::Reg(_) => true,
            _ => false,
        };
        let addr: u64 = self.xmm_mem_addr(rm);
        let ext: usize = reg % 8;
        if in_reg {
            Flow::Next
        } else if ext == 0 || ext == 4 {
            self.ask_state(addr, ext == 4)
        } else if ext == 1 || ext == 5 {
            self.load_state(addr)
        } else if ext == 3 {
            self.wr(addr, 4, 0x1f80);
            Flow::Next
        } else if ext == 2 {
            let _: u64 = self.rd(addr, 4);
            Flow::Next
        } else {
            Flow::Next
        }
    }

    fn store_number(&mut self, addr: u64, m: u64, e: u64)
        requires
            old(self).wf(),
        ensures
            final(self).wf(),
            final(self)@ == write_number(old(self)@, addr, m, e),
    {
        self.wr(addr, 8, m);
        self.wr(addr.wrapping_add(8), 2, e & 0xffff);
    }

    fn store_head(&mut self, addr: u64)
        requires
            old(self).wf(),
        ensures
            final(self).wf(),
            final(self)@ == write_head(old(self)@, addr),
    {
        let cw: u64 = self.fcw as u64;
        self.wr(addr, 2, cw);
        let sw: u64 = self.status_word() as u64;
        self.wr(addr.wrapping_add(2), 2, sw);
        self.wr(addr.wrapping_add(4), 1, 0xff);
        self.wr(addr.wrapping_add(24), 4, 0x1f80);
        self.wr(addr.wrapping_add(28), 4, 0xffff);
    }

    fn store_numbers(&mut self, addr: u64, a: &FpAsk, res: &Vec<u64>)
        requires
            old(self).wf(),
        ensures
            final(self).wf(),
            final(self)@ == write_numbers(old(self)@, addr, a@, res@, 8),
    {
        let mut i: usize = 0;
        while i < 8
            invariant
                i <= 8,
                self.wf(),
                self@ == write_numbers(old(self)@, addr, a@, res@, i as nat),
            decreases 8 - i,
        {
            let m: u64 = a.answer(res, 2 * i);
            let e: u64 = a.answer(res, 2 * i + 1);
            self.store_number(addr.wrapping_add(32 + i as u64 * 16), m, e);
            i = i + 1;
        }
    }

    fn store_xmm(&mut self, addr: u64)
        requires
            old(self).wf(),
        ensures
            final(self).wf(),
            final(self)@ == write_xmm(old(self)@, addr, 16),
    {
        let mut i: usize = 0;
        while i < 16
            invariant
                i <= 16,
                self.wf(),
                self@ == write_xmm(old(self)@, addr, i as nat),
            decreases 16 - i,
        {
            let a: u64 = addr.wrapping_add(160 + i as u64 * 16);
            let lo: u64 = self.xmm[i] as u64;
            self.wr(a, 8, lo);
            let hi: u64 = (self.xmm[i] >> 64) as u64;
            self.wr(a.wrapping_add(8), 8, hi);
            i = i + 1;
        }
    }

    fn store_state(&mut self, addr: u64, header: bool, a: &FpAsk, res: &Vec<u64>)
        requires
            old(self).wf(),
        ensures
            final(self).wf(),
            final(self)@ == state_written(old(self)@, addr, header, a@, res@),
    {
        proof {
            reveal(state_written);
        }
        self.store_head(addr);
        self.store_numbers(addr, a, res);
        self.store_xmm(addr);
        if header {
            self.wr(addr.wrapping_add(512), 8, 3);
            self.wr(addr.wrapping_add(520), 8, 0);
        }
    }

    /// Put the results of a request where they belong. A missing result counts as zero.
    pub fn fp_put(&mut self, a: &FpAsk, res: &Vec<u64>)
        requires
            old(self).wf(),
            dest_ok(a.dest),
        ensures
            final(self).wf(),
            final(self)@ == fp_done(old(self)@, a@, res@),
    {
        proof {
            reveal(fp_done);
        }
        let v: u64 = a.answer(res, 0);
        match a.dest {
            FpDest::Xmm(r, f) => {
                let x: u128 = a.form(self.xmm[r], f, res);
                self.xmm[r] = x;
            },
            FpDest::Select(r, f, _) => {
                let x: u128 = a.form(self.xmm[r], f, res);
                self.xmm[r] = x;
            },
            FpDest::Mask(r, f, _) => {
                let x: u128 = a.form(self.xmm[r], f, res);
                self.xmm[r] = x;
            },
            FpDest::Gpr(r, size) => self.set_reg(r, size, v),
            FpDest::Flags(pop) => {
                self.rflags = ordered_flags(self.rflags, v);
                if pop {
                    self.fpop();
                }
            },
            FpDest::Push => self.fpush(v),
            FpDest::St(i, pops) => {
                self.fsetst(i, v);
                self.fpop_n(pops);
            },
            FpDest::Status(pops) => {
                self.fsw = ordered_status(self.fsw, v);
                self.fpop_n(pops);
            },
            FpDest::Mem(addr, size, pops) => {
                self.wr(addr, size, v & mask(size));
                self.fpop_n(pops);
            },
            FpDest::Mem80(addr) => {
                let e: u64 = a.answer(res, 1);
                self.store_number(addr, v, e);
                self.fpop();
            },
            FpDest::Save(addr, header) => self.store_state(addr, header, a, res),
            FpDest::Restore => self.set_numbers(a, res),
        }
    }

    fn set_numbers(&mut self, a: &FpAsk, res: &Vec<u64>)
        requires
            old(self).wf(),
        ensures
            final(self).wf(),
            final(self)@ == (CpuState {
                fpr: Seq::new(8, |i: int| answer(a@, res@, i)),
                ..old(self)@
            }),
    {
        self.fpr = [
            a.answer(res, 0),
            a.answer(res, 1),
            a.answer(res, 2),
            a.answer(res, 3),
            a.answer(res, 4),
            a.answer(res, 5),
            a.answer(res, 6),
            a.answer(res, 7),
        ];
        assert(self@.fpr =~= Seq::new(8, |i: int| answer(a@, res@, i)));
    }
}

} // verus!
