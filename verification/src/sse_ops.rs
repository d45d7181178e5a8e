//! The SSE instructions: moves, logic, packed integers, shuffles, and the requests for
//! floating-point arithmetic.
use vstd::prelude::*;
use crate::bits::mask;
use crate::cpu::{Cpu, Halt};
use crate::decode::{ask_one, Conv, Flow, Form, FpAsk, FpDest, FpOp, Prefix, RepKind, Round};
use crate::operand::{sext, Rm};
use crate::simd::{
    choose_lanes, distance, interleave, lane_at, lanes_apply, lanes_shift, move_mask, multiply_add,
    pack, LaneOp, ShiftOp,
};
#[allow(unused_imports)]
use crate::bits::{is_width, mask_of};
#[allow(unused_imports)]
use crate::cpu::CpuState;
#[allow(unused_imports)]
use crate::decode::{ask1, dest_ok, quad_size, FlowState, FpAskState};
#[allow(unused_imports)]
use crate::mmu::{fetch_byte, mem_write};
#[allow(unused_imports)]
use crate::operand::{
    addr_or_zero, decode_rm, load128, load32, load64, load_operand, rm_ok, sext_of, store128,
    store_operand, with_reg, with_xmm,
};
#[allow(unused_imports)]
use crate::simd::{
    chosen, distances, high64, interleaved, joined, lane, lane_count, lane_op_ok, lanes,
    lanes_shifted, multiply_added, packed, top_bits, with_high64, with_low32, with_low64,
};

verus! {

// ----- packed integers -----

/// The packed instructions that combine a register with a 128-bit operand.
#[derive(Clone, Copy, PartialEq, Eq, Structural, Debug)]
pub enum Packed {
    Lanes(LaneOp, u8),
    /// Every lane shifted by the low quadword of the operand.
    Shift(ShiftOp, u8),
    Interleave(u8, bool),
    /// Narrowing, from a width, signed or not.
    Pack(u8, bool),
    And,
    AndNot,
    Or,
    Xor,
    /// The low, or high, quadwords of both.
    LowPair,
    HighPair,
    /// The products of the low doublewords of each half.
    TimesWide,
    MultiplyAdd,
    Distance,
}

/// The packed instruction of an opcode after `0F`.
pub open spec fn packed_of(op: u8, opsz: bool) -> Option<Packed> {
    match op {
        0x14 => Some(if opsz { Packed::LowPair } else { Packed::Interleave(4, false) }),
        0x15 => Some(if opsz { Packed::HighPair } else { Packed::Interleave(4, true) }),
        0x54 | 0xdb => Some(Packed::And),
        0x55 | 0xdf => Some(Packed::AndNot),
        0x56 | 0xeb => Some(Packed::Or),
        0x57 | 0xef => Some(Packed::Xor),
        0x60 => Some(Packed::Interleave(1, false)),
        0x61 => Some(Packed::Interleave(2, false)),
        0x62 => Some(Packed::Interleave(4, false)),
        0x63 => Some(Packed::Pack(2, true)),
        0x64 => Some(Packed::Lanes(LaneOp::Greater, 1)),
        0x65 => Some(Packed::Lanes(LaneOp::Greater, 2)),
        0x66 => Some(Packed::Lanes(LaneOp::Greater, 4)),
        0x67 => Some(Packed::Pack(2, false)),
        0x68 => Some(Packed::Interleave(1, true)),
        0x69 => Some(Packed::Interleave(2, true)),
        0x6a => Some(Packed::Interleave(4, true)),
        0x6b => Some(Packed::Pack(4, true)),
        0x6c => Some(Packed::LowPair),
        0x6d => Some(Packed::HighPair),
        0x74 => Some(Packed::Lanes(LaneOp::Equal, 1)),
        0x75 => Some(Packed::Lanes(LaneOp::Equal, 2)),
        0x76 => Some(Packed::Lanes(LaneOp::Equal, 4)),
        0xd1 => Some(Packed::Shift(ShiftOp::Right, 2)),
        0xd2 => Some(Packed::Shift(ShiftOp::Right, 4)),
        0xd3 => Some(Packed::Shift(ShiftOp::Right, 8)),
        0xd4 => Some(Packed::Lanes(LaneOp::Plus, 8)),
        0xd5 => Some(Packed::Lanes(LaneOp::TimesLow, 2)),
        0xd8 => Some(Packed::Lanes(LaneOp::MinusUnsigned, 1)),
        0xd9 => Some(Packed::Lanes(LaneOp::MinusUnsigned, 2)),
        0xda => Some(Packed::Lanes(LaneOp::MinUnsigned, 1)),
        0xdc => Some(Packed::Lanes(LaneOp::PlusUnsigned, 1)),
        0xdd => Some(Packed::Lanes(LaneOp::PlusUnsigned, 2)),
        0xde => Some(Packed::Lanes(LaneOp::MaxUnsigned, 1)),
        0xe0 => Some(Packed::Lanes(LaneOp::Average, 1)),
        0xe1 => Some(Packed::Shift(ShiftOp::RightSigned, 2)),
        0xe2 => Some(Packed::Shift(ShiftOp::RightSigned, 4)),
        0xe3 => Some(Packed::Lanes(LaneOp::Average, 2)),
        0xe4 => Some(Packed::Lanes(LaneOp::TimesHigh, 2)),
        0xe5 => Some(Packed::Lanes(LaneOp::TimesHighSigned, 2)),
        0xe8 => Some(Packed::Lanes(LaneOp::MinusSigned, 1)),
        0xe9 => Some(Packed::Lanes(LaneOp::MinusSigned, 2)),
        0xea => Some(Packed::Lanes(LaneOp::MinSigned, 2)),
        0xec => Some(Packed::Lanes(LaneOp::PlusSigned, 1)),
        0xed => Some(Packed::Lanes(LaneOp::PlusSigned, 2)),
        0xee => Some(Packed::Lanes(LaneOp::MaxSigned, 2)),
        0xf1 => Some(Packed::Shift(ShiftOp::Left, 2)),
        0xf2 => Some(Packed::Shift(ShiftOp::Left, 4)),
        0xf3 => Some(Packed::Shift(ShiftOp::Left, 8)),
        0xf4 => Some(Packed::TimesWide),
        0xf5 => Some(Packed::MultiplyAdd),
        0xf6 => Some(Packed::Distance),
        0xf8 => Some(Packed::Lanes(LaneOp::Minus, 1)),
        0xf9 => Some(Packed::Lanes(LaneOp::Minus, 2)),
        0xfa => Some(Packed::Lanes(LaneOp::Minus, 4)),
        0xfb => Some(Packed::Lanes(LaneOp::Minus, 8)),
        0xfc => Some(Packed::Lanes(LaneOp::Plus, 1)),
        0xfd => Some(Packed::Lanes(LaneOp::Plus, 2)),
        0xfe => Some(Packed::Lanes(LaneOp::Plus, 4)),
        _ => None,
    }
}

/// The widths of a packed instruction are ones it is defined at.
pub open spec fn packed_ok(k: Packed) -> bool {
    match k {
        Packed::Lanes(op, size) => lane_op_ok(op, size),
        Packed::Shift(_, size) => is_width(size),
        Packed::Interleave(size, _) => size == 1 || size == 2 || size == 4,
        Packed::Pack(size, signed) => size == 2 || (size == 4 && signed),
        _ => true,
    }
}

/// What a packed instruction computes from the register and the operand.
pub open spec fn packed_value(k: Packed, x: u128, b: u128) -> u128 {
    match k {
        Packed::Lanes(op, size) => lanes(op, x, b, size, lane_count(size)),
        Packed::Shift(op, size) => lanes_shifted(op, x, b as u64, size, lane_count(size)),
        Packed::Interleave(size, high) => interleaved(
            x,
            b,
            size,
            high,
            (8int / size as int) as nat,
        ),
        Packed::Pack(size, signed) => packed(x, b, size, signed, 2 * lane_count(size)),
        Packed::And => x & b,
        Packed::AndNot => !x & b,
        Packed::Or => x | b,
        Packed::Xor => x ^ b,
        Packed::LowPair => joined(x as u64, b as u64),
        Packed::HighPair => joined(high64(x), high64(b)),
        Packed::TimesWide => joined(
            (lane(x, 0, 4) * lane(b, 0, 4)) as u64,
            (lane(x, 2, 4) * lane(b, 2, 4)) as u64,
        ),
        Packed::MultiplyAdd => multiply_added(x, b, 4),
        Packed::Distance => distances(x, b),
    }
}

/// A packed instruction.
pub open spec fn do_packed(s: CpuState, p: Prefix, k: Packed) -> CpuState {
    let (s1, (reg, rm)) = decode_rm(s, p.rex);
    let (s2, b) = load128(s1, rm);
    with_xmm(s2, reg as int, packed_value(k, s2.xmm[reg as int], b))
}

// ----- moves -----

/// The low part of a register, or the whole, replaced by what was loaded: a load from memory clears
/// the rest.
pub open spec fn do_mov_load(s: CpuState, p: Prefix) -> CpuState {
    let (s1, (reg, rm)) = decode_rm(s, p.rex);
    let i = reg as int;
    match p.rep {
        RepKind::Rep => {
            let (s2, v) = load32(s1, rm);
            with_xmm(
                s2,
                i,
                if rm is Reg { with_low32(s2.xmm[i], v as u64) } else { v as u128 },
            )
        },
        RepKind::Repne => {
            let (s2, v) = load64(s1, rm);
            with_xmm(s2, i, if rm is Reg { with_low64(s2.xmm[i], v) } else { v as u128 })
        },
        RepKind::Plain => {
            let (s2, v) = load128(s1, rm);
            with_xmm(s2, i, v)
        },
    }
}

/// The store form.
pub open spec fn do_mov_store(s: CpuState, p: Prefix) -> CpuState {
    let (s1, (reg, rm)) = decode_rm(s, p.rex);
    let x = s1.xmm[reg as int];
    match p.rep {
        RepKind::Rep => match rm {
            Rm::Reg(i) => with_xmm(
                s1,
                i as int,
                with_low32(s1.xmm[i as int], (x as u32) as u64),
            ),
            _ => mem_write(s1, addr_or_zero(s1, rm), 4, (x as u32) as u64),
        },
        RepKind::Repne => match rm {
            Rm::Reg(i) => with_xmm(s1, i as int, with_low64(s1.xmm[i as int], x as u64)),
            _ => mem_write(s1, addr_or_zero(s1, rm), 8, x as u64),
        },
        RepKind::Plain => store128(s1, rm, x),
    }
}

/// Whole-register moves: a load, or a store.
pub open spec fn do_mov_whole(s: CpuState, p: Prefix, store: bool) -> CpuState {
    let (s1, (reg, rm)) = decode_rm(s, p.rex);
    if store {
        store128(s1, rm, s1.xmm[reg as int])
    } else {
        let (s2, v) = load128(s1, rm);
        with_xmm(s2, reg as int, v)
    }
}

/// A half loaded (`12` low, `16` high): from memory, or from the other, or same, half of a register.
pub open spec fn do_mov_half_load(s: CpuState, p: Prefix, op: u8) -> CpuState {
    let (s1, (reg, rm)) = decode_rm(s, p.rex);
    let i = reg as int;
    let (s2, v) = match rm {
        Rm::Reg(k) => (
            s1,
            if op == 0x12 { high64(s1.xmm[k as int]) } else { s1.xmm[k as int] as u64 },
        ),
        _ => load64(s1, rm),
    };
    if op == 0x12 {
        with_xmm(s2, i, with_low64(s2.xmm[i], v))
    } else {
        with_xmm(s2, i, with_high64(s2.xmm[i], v))
    }
}

/// A half stored (`13` low, `17` high).
pub open spec fn do_mov_half_store(s: CpuState, p: Prefix, op: u8) -> CpuState {
    let (s1, (reg, rm)) = decode_rm(s, p.rex);
    let x = s1.xmm[reg as int];
    mem_write(s1, addr_or_zero(s1, rm), 8, if op == 0x13 { x as u64 } else { high64(x) })
}

/// `MOVD` and `MOVQ` from a general-purpose register or memory.
pub open spec fn do_movd_load(s: CpuState, p: Prefix) -> CpuState {
    let (s1, (reg, rm)) = decode_rm(s, p.rex);
    let (s2, v) = load_operand(s1, rm, quad_size(p));
    with_xmm(s2, reg as int, v as u128)
}

/// Opcode `7E`: a quadword load, or `MOVD` and `MOVQ` to a general-purpose register or memory.
pub open spec fn do_movd_store(s: CpuState, p: Prefix) -> CpuState {
    let (s1, (reg, rm)) = decode_rm(s, p.rex);
    if p.rep == RepKind::Rep {
        let (s2, v) = load64(s1, rm);
        with_xmm(s2, reg as int, v as u128)
    } else {
        let size = quad_size(p);
        store_operand(s1, rm, size, (s1.xmm[reg as int] as u64) & mask_of(size))
    }
}

/// `MOVQ` of the low quadword to a register, whose rest is cleared, or to memory.
pub open spec fn do_movq_store(s: CpuState, p: Prefix) -> CpuState {
    let (s1, (reg, rm)) = decode_rm(s, p.rex);
    let v = s1.xmm[reg as int] as u64;
    match rm {
        Rm::Reg(i) => with_xmm(s1, i as int, v as u128),
        _ => mem_write(s1, addr_or_zero(s1, rm), 8, v),
    }
}

// ----- shuffles and lane access -----

/// `PSHUFD`, `PSHUFHW` or `PSHUFLW` of a word.
pub open spec fn shuffled(rep: RepKind, x: u128, imm: u8) -> u128 {
    match rep {
        RepKind::Rep => (x & 0xffff_ffff_ffff_ffffu128) | (chosen(
            high64(x) as u128,
            high64(x) as u128,
            imm,
            2,
        ) << 64),
        RepKind::Repne => (x & 0xffff_ffff_ffff_ffff_0000_0000_0000_0000u128) | chosen(
            (x as u64) as u128,
            (x as u64) as u128,
            imm,
            2,
        ),
        RepKind::Plain => chosen(x, x, imm, 4),
    }
}

pub open spec fn do_shuffle(s: CpuState, p: Prefix) -> CpuState {
    let (s1, (reg, rm)) = decode_rm(s, p.rex);
    let (s2, imm) = fetch_byte(s1);
    let (s3, x) = load128(s2, rm);
    with_xmm(s3, reg as int, shuffled(p.rep, x, imm))
}

/// `SHUFPS` and `SHUFPD`.
pub open spec fn do_shuffle_pair(s: CpuState, p: Prefix) -> CpuState {
    let (s1, (reg, rm)) = decode_rm(s, p.rex);
    let (s2, imm) = fetch_byte(s1);
    let (s3, b) = load128(s2, rm);
    let d = s3.xmm[reg as int];
    with_xmm(
        s3,
        reg as int,
        if p.opsz {
            joined(
                if imm % 2 == 0 { d as u64 } else { high64(d) },
                if (imm / 2) % 2 == 0 { b as u64 } else { high64(b) },
            )
        } else {
            chosen(d, b, imm, 4)
        },
    )
}

/// `PINSRW`.
pub open spec fn do_insert_word(s: CpuState, p: Prefix) -> CpuState {
    let (s1, (reg, rm)) = decode_rm(s, p.rex);
    let (s2, imm) = fetch_byte(s1);
    let (s3, v) = load_operand(s2, rm, 4);
    let sh = ((imm % 8) * 16) as u128;
    with_xmm(
        s3,
        reg as int,
        (s3.xmm[reg as int] & !(0xffffu128 << sh)) | (((v as u16) as u128) << sh),
    )
}

/// `PEXTRW`.
pub open spec fn do_extract_word(s: CpuState, p: Prefix) -> CpuState {
    let (s1, (reg, rm)) = decode_rm(s, p.rex);
    let (s2, imm) = fetch_byte(s1);
    let (s3, x) = load128(s2, rm);
    with_reg(s3, reg as int, lane(x, (imm % 8) as int, 2))
}

/// `PMOVMSKB`.
pub open spec fn do_move_mask(s: CpuState, p: Prefix) -> CpuState {
    let (s1, (reg, rm)) = decode_rm(s, p.rex);
    let (s2, x) = load128(s1, rm);
    with_reg(s2, reg as int, top_bits(x, 16))
}

/// The packed shifts by an immediate: the operation by opcode and extension, or `None`.
pub open spec fn shift_imm_value(op: u8, ext: int, x: u128, imm: u8) -> Option<u128> {
    let size = if op == 0x71 { 2u8 } else if op == 0x72 { 4u8 } else { 8u8 };
    let n = lane_count(size);
    if op == 0x73 && ext == 3 {
        Some(if imm >= 16 { 0 } else { x >> ((imm * 8) as u128) })
    } else if op == 0x73 && ext == 7 {
        Some(if imm >= 16 { 0 } else { x << ((imm * 8) as u128) })
    } else if ext == 2 {
        Some(lanes_shifted(ShiftOp::Right, x, imm as u64, size, n))
    } else if ext == 4 {
        Some(lanes_shifted(ShiftOp::RightSigned, x, imm as u64, size, n))
    } else if ext == 6 {
        Some(lanes_shifted(ShiftOp::Left, x, imm as u64, size, n))
    } else {
        None
    }
}

pub open spec fn do_shift_imm(s: CpuState, p: Prefix, op: u8) -> (CpuState, FlowState) {
    let (s1, (reg, rm)) = decode_rm(s, p.rex);
    let (s2, imm) = fetch_byte(s1);
    match rm {
        Rm::Reg(i) => match shift_imm_value(op, (reg % 8) as int, s2.xmm[i as int], imm) {
            Some(v) => (with_xmm(s2, i as int, v), FlowState::Next),
            None => (s2, FlowState::Stop(Halt::Undefined(p.start))),
        },
        _ => (s2, FlowState::Stop(Halt::Undefined(p.start))),
    }
}

// ----- requests for floating-point arithmetic -----

/// The form a prefix selects.
pub open spec fn form_of(p: Prefix) -> Form {
    match p.rep {
        RepKind::Rep => Form::Low32,
        RepKind::Repne => Form::Low64,
        RepKind::Plain => if p.opsz { Form::Packed64 } else { Form::Packed32 },
    }
}

/// The lanes of two operands in a form.
pub open spec fn form_lanes(f: Form, x: u128, y: u128) -> Seq<(u64, u64)> {
    match f {
        Form::Low32 => seq![(lane(x, 0, 4), lane(y, 0, 4))],
        Form::Low64 => seq![(x as u64, y as u64)],
        Form::Packed32 => seq![
            (lane(x, 0, 4), lane(y, 0, 4)),
            (lane(x, 1, 4), lane(y, 1, 4)),
            (lane(x, 2, 4), lane(y, 2, 4)),
            (lane(x, 3, 4), lane(y, 3, 4)),
        ],
        Form::Packed64 => seq![(x as u64, y as u64), (high64(x), high64(y))],
    }
}

/// The operand loaded in a form.
pub open spec fn form_load(s: CpuState, rm: Rm, f: Form) -> (CpuState, u128) {
    match f {
        Form::Low32 => {
            let (t, v) = load32(s, rm);
            (t, v as u128)
        },
        Form::Low64 => {
            let (t, v) = load64(s, rm);
            (t, v as u128)
        },
        _ => load128(s, rm),
    }
}

/// The lane is a binary32 number.
pub open spec fn is_single(f: Form) -> bool {
    f == Form::Low32 || f == Form::Packed32
}

/// The operation of an arithmetic opcode; minimum and maximum ask for the order.
pub open spec fn arith_op(op: u8, single: bool) -> FpOp {
    if op == 0x51 {
        if single { FpOp::Sqrt32 } else { FpOp::Sqrt64 }
    } else if op == 0x58 {
        if single { FpOp::Plus32 } else { FpOp::Plus64 }
    } else if op == 0x59 {
        if single { FpOp::Times32 } else { FpOp::Times64 }
    } else if op == 0x5c {
        if single { FpOp::Minus32 } else { FpOp::Minus64 }
    } else if op == 0x5e {
        if single { FpOp::Over32 } else { FpOp::Over64 }
    } else {
        if single { FpOp::Order32 } else { FpOp::Order64 }
    }
}

/// Arithmetic on a register and an operand.
pub open spec fn do_arith(s: CpuState, p: Prefix, op: u8) -> (CpuState, FlowState) {
    let f = form_of(p);
    let (s1, (reg, rm)) = decode_rm(s, p.rex);
    let (s2, b) = form_load(s1, rm, f);
    let dest = if op == 0x5d {
        FpDest::Select(reg, f, false)
    } else if op == 0x5f {
        FpDest::Select(reg, f, true)
    } else {
        FpDest::Xmm(reg, f)
    };
    (
        s2,
        FlowState::Ask(
            FpAskState {
                op: arith_op(op, is_single(f)),
                conv: Conv::Same,
                lanes: form_lanes(f, s2.xmm[reg as int], b),
                dest,
            },
        ),
    )
}

/// The comparison that makes a mask.
pub open spec fn do_mask_compare(s: CpuState, p: Prefix) -> (CpuState, FlowState) {
    let f = form_of(p);
    let (s1, (reg, rm)) = decode_rm(s, p.rex);
    let (s2, imm) = fetch_byte(s1);
    let (s3, b) = form_load(s2, rm, f);
    (
        s3,
        FlowState::Ask(
            FpAskState {
                op: if is_single(f) { FpOp::Order32 } else { FpOp::Order64 },
                conv: Conv::Same,
                lanes: form_lanes(f, s3.xmm[reg as int], b),
                dest: FpDest::Mask(reg, f, imm % 8),
            },
        ),
    )
}

/// The comparison that sets flags.
pub open spec fn do_flag_compare(s: CpuState, p: Prefix) -> (CpuState, FlowState) {
    let f = if p.opsz { Form::Low64 } else { Form::Low32 };
    let (s1, (reg, rm)) = decode_rm(s, p.rex);
    let (s2, b) = form_load(s1, rm, f);
    (
        s2,
        FlowState::Ask(
            FpAskState {
                op: if p.opsz { FpOp::Order64 } else { FpOp::Order32 },
                conv: Conv::Same,
                lanes: form_lanes(f, s2.xmm[reg as int], b),
                dest: FpDest::Flags(false),
            },
        ),
    )
}

/// A signed integer converted to a number in the low lane.
pub open spec fn do_from_int(s: CpuState, p: Prefix) -> (CpuState, FlowState) {
    let size = quad_size(p);
    let (s1, (reg, rm)) = decode_rm(s, p.rex);
    let (s2, v) = load_operand(s1, rm, size);
    (
        s2,
        if p.rep == RepKind::Rep {
            ask1(FpOp::IntTo32, Conv::Same, 0, sext_of(v, size), FpDest::Xmm(reg, Form::Low32))
        } else {
            ask1(FpOp::Take64, Conv::Int, 0, sext_of(v, size), FpDest::Xmm(reg, Form::Low64))
        },
    )
}

/// A number converted to a signed integer: `2C` truncates, `2D` rounds.
pub open spec fn do_to_int(s: CpuState, p: Prefix, op: u8) -> (CpuState, FlowState) {
    let size = quad_size(p);
    let f = if p.rep == RepKind::Rep { Form::Low32 } else { Form::Low64 };
    let mode = if op == 0x2c { Round::Zero } else { Round::Nearest };
    let (s1, (reg, rm)) = decode_rm(s, p.rex);
    let (s2, v) = form_load(s1, rm, f);
    (
        s2,
        ask1(
            if size == 8 { FpOp::ToI64(mode) } else { FpOp::ToI32(mode) },
            if f == Form::Low32 { Conv::Single } else { Conv::Same },
            0,
            v as u64,
            FpDest::Gpr(reg, size),
        ),
    )
}

/// A conversion of the two low lanes of a word.
pub open spec fn ask_pair(op: FpOp, conv: Conv, a: u64, b: u64, dest: FpDest) -> FlowState {
    FlowState::Ask(FpAskState { op, conv, lanes: seq![(0, a), (0, b)], dest })
}

/// Conversions between the two precisions.
pub open spec fn do_convert(s: CpuState, p: Prefix) -> (CpuState, FlowState) {
    let (s1, (reg, rm)) = decode_rm(s, p.rex);
    match p.rep {
        RepKind::Rep => {
            let (s2, v) = load32(s1, rm);
            (s2, ask1(FpOp::Take64, Conv::Single, 0, v as u64, FpDest::Xmm(reg, Form::Low64)))
        },
        RepKind::Repne => {
            let (s2, v) = load64(s1, rm);
            (s2, ask1(FpOp::Narrow, Conv::Same, 0, v, FpDest::Xmm(reg, Form::Low32)))
        },
        RepKind::Plain => {
            let (s2, x) = load128(s1, rm);
            if p.opsz {
                (
                    s2,
                    ask_pair(
                        FpOp::Narrow,
                        Conv::Same,
                        x as u64,
                        high64(x),
                        FpDest::Xmm(reg, Form::Packed32),
                    ),
                )
            } else {
                (
                    s2,
                    ask_pair(
                        FpOp::Take64,
                        Conv::Single,
                        lane(x, 0, 4),
                        lane(x, 1, 4),
                        FpDest::Xmm(reg, Form::Packed64),
                    ),
                )
            }
        },
    }
}

/// Four lanes of one operand.
pub open spec fn four_lanes(x: u128, signed: bool) -> Seq<(u64, u64)> {
    if signed {
        seq![
            (0, sext_of(lane(x, 0, 4), 4)),
            (0, sext_of(lane(x, 1, 4), 4)),
            (0, sext_of(lane(x, 2, 4), 4)),
            (0, sext_of(lane(x, 3, 4), 4)),
        ]
    } else {
        seq![(0, lane(x, 0, 4)), (0, lane(x, 1, 4)), (0, lane(x, 2, 4)), (0, lane(x, 3, 4))]
    }
}

/// Conversions between four integers and four numbers; `F2` has none.
pub open spec fn do_convert_int4(s: CpuState, p: Prefix) -> (CpuState, FlowState) {
    let (s1, (reg, rm)) = decode_rm(s, p.rex);
    let (s2, x) = load128(s1, rm);
    let dest = FpDest::Xmm(reg, Form::Packed32);
    if p.rep == RepKind::Repne {
        (s2, FlowState::Stop(Halt::Undefined(p.start)))
    } else if p.rep == RepKind::Plain && !p.opsz {
        (
            s2,
            FlowState::Ask(
                FpAskState {
                    op: FpOp::IntTo32,
                    conv: Conv::Same,
                    lanes: four_lanes(x, true),
                    dest,
                },
            ),
        )
    } else {
        let mode = if p.rep == RepKind::Rep { Round::Zero } else { Round::Nearest };
        (
            s2,
            FlowState::Ask(
                FpAskState {
                    op: FpOp::ToI32(mode),
                    conv: Conv::Single,
                    lanes: four_lanes(x, false),
                    dest,
                },
            ),
        )
    }
}

/// Conversions between two integers and two binary64 numbers.
pub open spec fn do_convert_int2(s: CpuState, p: Prefix) -> (CpuState, FlowState) {
    let (s1, (reg, rm)) = decode_rm(s, p.rex);
    let (s2, x) = load128(s1, rm);
    if p.rep == RepKind::Rep {
        (
            s2,
            ask_pair(
                FpOp::Take64,
                Conv::Int,
                sext_of(lane(x, 0, 4), 4),
                sext_of(lane(x, 1, 4), 4),
                FpDest::Xmm(reg, Form::Packed64),
            ),
        )
    } else {
        let mode = if p.opsz { Round::Zero } else { Round::Nearest };
        (
            s2,
            ask_pair(
                FpOp::ToI32(mode),
                Conv::Same,
                x as u64,
                high64(x),
                FpDest::Xmm(reg, Form::Packed32),
            ),
        )
    }
}

// ----- the executable instructions -----

/// The packed instruction of an opcode after `0F`.
pub fn packed_decode(op: u8, opsz: bool) -> (k: Option<Packed>)
    ensures
        k == packed_of(op, opsz),
        k is Some ==> packed_ok(k->0),
{
    match op {
        0x14 => Some(if opsz { Packed::LowPair } else { Packed::Interleave(4, false) }),
        0x15 => Some(if opsz { Packed::HighPair } else { Packed::Interleave(4, true) }),
        0x54 | 0xdb => Some(Packed::And),
        0x55 | 0xdf => Some(Packed::AndNot),
        0x56 | 0xeb => Some(Packed::Or),
        0x57 | 0xef => Some(Packed::Xor),
        0x60 => Some(Packed::Interleave(1, false)),
        0x61 => Some(Packed::Interleave(2, false)),
        0x62 => Some(Packed::Interleave(4, false)),
        0x63 => Some(Packed::Pack(2, true)),
        0x64 => Some(Packed::Lanes(LaneOp::Greater, 1)),
        0x65 => Some(Packed::Lanes(LaneOp::Greater, 2)),
        0x66 => Some(Packed::Lanes(LaneOp::Greater, 4)),
        0x67 => Some(Packed::Pack(2, false)),
        0x68 => Some(Packed::Interleave(1, true)),
        0x69 => Some(Packed::Interleave(2, true)),
        0x6a => Some(Packed::Interleave(4, true)),
        0x6b => Some(Packed::Pack(4, true)),
        0x6c => Some(Packed::LowPair),
        0x6d => Some(Packed::HighPair),
        0x74 => Some(Packed::Lanes(LaneOp::Equal, 1)),
        0x75 => Some(Packed::Lanes(LaneOp::Equal, 2)),
        0x76 => Some(Packed::Lanes(LaneOp::Equal, 4)),
        0xd1 => Some(Packed::Shift(ShiftOp::Right, 2)),
        0xd2 => Some(Packed::Shift(ShiftOp::Right, 4)),
        0xd3 => Some(Packed::Shift(ShiftOp::Right, 8)),
        0xd4 => Some(Packed::Lanes(LaneOp::Plus, 8)),
        0xd5 => Some(Packed::Lanes(LaneOp::TimesLow, 2)),
        0xd8 => Some(Packed::Lanes(LaneOp::MinusUnsigned, 1)),
        0xd9 => Some(Packed::Lanes(LaneOp::MinusUnsigned, 2)),
        0xda => Some(Packed::Lanes(LaneOp::MinUnsigned, 1)),
        0xdc => Some(Packed::Lanes(LaneOp::PlusUnsigned, 1)),
        0xdd => Some(Packed::Lanes(LaneOp::PlusUnsigned, 2)),
        0xde => Some(Packed::Lanes(LaneOp::MaxUnsigned, 1)),
        0xe0 => Some(Packed::Lanes(LaneOp::Average, 1)),
        0xe1 => Some(Packed::Shift(ShiftOp::RightSigned, 2)),
        0xe2 => Some(Packed::Shift(ShiftOp::RightSigned, 4)),
        0xe3 => Some(Packed::Lanes(LaneOp::Average, 2)),
        0xe4 => Some(Packed::Lanes(LaneOp::TimesHigh, 2)),
        0xe5 => Some(Packed::Lanes(LaneOp::TimesHighSigned, 2)),
        0xe8 => Some(Packed::Lanes(LaneOp::MinusSigned, 1)),
        0xe9 => Some(Packed::Lanes(LaneOp::MinusSigned, 2)),
        0xea => Some(Packed::Lanes(LaneOp::MinSigned, 2)),
        0xec => Some(Packed::Lanes(LaneOp::PlusSigned, 1)),
        0xed => Some(Packed::Lanes(LaneOp::PlusSigned, 2)),
        0xee => Some(Packed::Lanes(LaneOp::MaxSigned, 2)),
        0xf1 => Some(Packed::Shift(ShiftOp::Left, 2)),
        0xf2 => Some(Packed::Shift(ShiftOp::Left, 4)),
        0xf3 => Some(Packed::Shift(ShiftOp::Left, 8)),
        0xf4 => Some(Packed::TimesWide),
        0xf5 => Some(Packed::MultiplyAdd),
        0xf6 => Some(Packed::Distance),
        0xf8 => Some(Packed::Lanes(LaneOp::Minus, 1)),
        0xf9 => Some(Packed::Lanes(LaneOp::Minus, 2)),
        0xfa => Some(Packed::Lanes(LaneOp::Minus, 4)),
        0xfb => Some(Packed::Lanes(LaneOp::Minus, 8)),
        0xfc => Some(Packed::Lanes(LaneOp::Plus, 1)),
        0xfd => Some(Packed::Lanes(LaneOp::Plus, 2)),
        0xfe => Some(Packed::Lanes(LaneOp::Plus, 4)),
        _ => None,
    }
}

proof fn lemma_wide_product(a: int, b: int)
    by (nonlinear_arith)
    requires
        0 <= a < 0x1_0000_0000,
        0 <= b < 0x1_0000_0000,
    ensures
        0 <= a * b <= 0xffff_ffff_ffff_ffff,
{
}

/// What a packed instruction computes.
pub fn packed_apply(k: Packed, x: u128, b: u128) -> (r: u128)
    requires
        packed_ok(k),
    ensures
        r == packed_value(k, x, b),
{
    match k {
        Packed::Lanes(op, size) => lanes_apply(op, x, b, size),
        Packed::Shift(op, size) => lanes_shift(op, x, b as u64, size),
        Packed::Interleave(size, high) => interleave(x, b, size, high),
        Packed::Pack(size, signed) => pack(x, b, size, signed),
        Packed::And => x & b,
        Packed::AndNot => !x & b,
        Packed::Or => x | b,
        Packed::Xor => x ^ b,
        Packed::LowPair => ((x as u64) as u128) | (((b as u64) as u128) << 64),
        Packed::HighPair => (((x >> 64) as u64) as u128) | ((((b >> 64) as u64) as u128) << 64),
        Packed::TimesWide => {
            let a0: u64 = lane_at(x, 0, 4);
            let b0: u64 = lane_at(b, 0, 4);
            let a1: u64 = lane_at(x, 2, 4);
            let b1: u64 = lane_at(b, 2, 4);
            proof {
                lemma_wide_product(a0 as int, b0 as int);
                lemma_wide_product(a1 as int, b1 as int);
            }
            ((a0 * b0) as u128) | (((a1 * b1) as u128) << 64)
        },
        Packed::MultiplyAdd => multiply_add(x, b),
        Packed::Distance => distance(x, b),
    }
}

/// The form a prefix selects.
pub fn form_select(p: Prefix) -> (f: Form)
    ensures
        f == form_of(p),
{
    match p.rep {
        RepKind::Rep => Form::Low32,
        RepKind::Repne => Form::Low64,
        RepKind::Plain => if p.opsz { Form::Packed64 } else { Form::Packed32 },
    }
}

fn single_form(f: Form) -> (b: bool)
    ensures
        b == is_single(f),
{
    f == Form::Low32 || f == Form::Packed32
}

fn lanes_of(f: Form, x: u128, y: u128) -> (l: Vec<(u64, u64)>)
    ensures
        l@ == form_lanes(f, x, y),
{
    let mut l: Vec<(u64, u64)> = Vec::new();
    match f {
        Form::Low32 => {
            l.push((lane_at(x, 0, 4), lane_at(y, 0, 4)));
        },
        Form::Low64 => {
            l.push((x as u64, y as u64));
        },
        Form::Packed32 => {
            l.push((lane_at(x, 0, 4), lane_at(y, 0, 4)));
            l.push((lane_at(x, 1, 4), lane_at(y, 1, 4)));
            l.push((lane_at(x, 2, 4), lane_at(y, 2, 4)));
            l.push((lane_at(x, 3, 4), lane_at(y, 3, 4)));
        },
        Form::Packed64 => {
            l.push((x as u64, y as u64));
            l.push(((x >> 64) as u64, (y >> 64) as u64));
        },
    }
    l
}

fn pair_request(op: FpOp, conv: Conv, a: u64, b: u64, dest: FpDest) -> (f: Flow)
    requires
        dest_ok(dest),
    ensures
        f@ == ask_pair(op, conv, a, b, dest),
        f.ok(),
{
    let mut lanes: Vec<(u64, u64)> = Vec::new();
    lanes.push((0, a));
    lanes.push((0, b));
    let f: Flow = Flow::Ask(FpAsk { op, conv, lanes, dest });
    assert(f@ =~= ask_pair(op, conv, a, b, dest));
    f
}

fn arith_select(op: u8, single: bool) -> (r: FpOp)
    ensures
        r == arith_op(op, single),
{
    if op == 0x51 {
        if single { FpOp::Sqrt32 } else { FpOp::Sqrt64 }
    } else if op == 0x58 {
        if single { FpOp::Plus32 } else { FpOp::Plus64 }
    } else if op == 0x59 {
        if single { FpOp::Times32 } else { FpOp::Times64 }
    } else if op == 0x5c {
        if single { FpOp::Minus32 } else { FpOp::Minus64 }
    } else if op == 0x5e {
        if single { FpOp::Over32 } else { FpOp::Over64 }
    } else {
        if single { FpOp::Order32 } else { FpOp::Order64 }
    }
}

fn shuffle(rep: RepKind, x: u128, imm: u8) -> (r: u128)
    ensures
        r == shuffled(rep, x, imm),
{
    match rep {
        RepKind::Rep => {
            let h: u128 = ((x >> 64) as u64) as u128;
            (x & 0xffff_ffff_ffff_ffffu128) | (choose_lanes(h, h, imm, 2) << 64)
        },
        RepKind::Repne => {
            let l: u128 = (x as u64) as u128;
            (x & 0xffff_ffff_ffff_ffff_0000_0000_0000_0000u128) | choose_lanes(l, l, imm, 2)
        },
        RepKind::Plain => choose_lanes(x, x, imm, 4),
    }
}

fn shift_by_imm(op: u8, ext: usize, x: u128, imm: u8) -> (r: Option<u128>)
    ensures
        r == shift_imm_value(op, ext as int, x, imm),
{
    let size: u8 = if op == 0x71 { 2 } else if op == 0x72 { 4 } else { 8 };
    if op == 0x73 && ext == 3 {
        Some(if imm >= 16 { 0 } else { x >> ((imm * 8) as u128) })
    } else if op == 0x73 && ext == 7 {
        Some(if imm >= 16 { 0 } else { x << ((imm * 8) as u128) })
    } else if ext == 2 {
        Some(lanes_shift(ShiftOp::Right, x, imm as u64, size))
    } else if ext == 4 {
        Some(lanes_shift(ShiftOp::RightSigned, x, imm as u64, size))
    } else if ext == 6 {
        Some(lanes_shift(ShiftOp::Left, x, imm as u64, size))
    } else {
        None
    }
}

impl Cpu {
    pub fn op_packed(&mut self, p: Prefix, k: Packed)
        requires
            old(self).wf(),
            packed_ok(k),
        ensures
            final(self).wf(),
            final(self)@ == do_packed(old(self)@, p, k),
    {
        let (reg, rm) = self.modrm(p.rex);
        let b: u128 = self.xmm_load128(rm);
        let v: u128 = packed_apply(k, self.xmm[reg], b);
        self.xmm[reg] = v;
    }

    pub fn op_mov_load(&mut self, p: Prefix)
        requires
            old(self).wf(),
        ensures
            final(self).wf(),
            final(self)@ == do_mov_load(old(self)@, p),
    {
        let (reg, rm) = self.modrm(p.rex);
        let in_reg: bool = match rm {
            Rm::Reg(_) => true,
            _ => false,
        };
        match p.rep {
            RepKind::Rep => {
                let v: u32 = self.xmm_load32(rm);
                let x: u128 = if in_reg {
                    (self.xmm[reg] & !0xffff_ffffu128) | ((v as u64) as u128)
                } else {
                    v as u128
                };
                self.xmm[reg] = x;
            },
            RepKind::Repne => {
                let v: u64 = self.xmm_load64(rm);
                let x: u128 = if in_reg {
                    (self.xmm[reg] & !0xffff_ffff_ffff_ffffu128) | (v as u128)
                } else {
                    v as u128
                };
                self.xmm[reg] = x;
            },
            RepKind::Plain => {
                let v: u128 = self.xmm_load128(rm);
                self.xmm[reg] = v;
            },
        }
    }

    pub fn op_mov_store(&mut self, p: Prefix)
        requires
            old(self).wf(),
        ensures
            final(self).wf(),
            final(self)@ == do_mov_store(old(self)@, p),
    {
        let (reg, rm) = self.modrm(p.rex);
        let x: u128 = self.xmm[reg];
        match p.rep {
            RepKind::Rep => match rm {
                Rm::Reg(i) => {
                    let v: u128 = (self.xmm[i] & !0xffff_ffffu128) | (((x as u32) as u64) as u128);
                    self.xmm[i] = v;
                },
                _ => {
                    let a: u64 = self.xmm_mem_addr(rm);
                    self.wr(a, 4, (x as u32) as u64);
                },
            },
            RepKind::Repne => match rm {
                Rm::Reg(i) => {
                    let v: u128 = (self.xmm[i] & !0xffff_ffff_ffff_ffffu128) | ((x as u64) as u128);
                    self.xmm[i] = v;
                },
                _ => {
                    let a: u64 = self.xmm_mem_addr(rm);
                    self.wr(a, 8, x as u64);
                },
            },
            RepKind::Plain => self.xmm_store128(rm, x),
        }
    }

    pub fn op_mov_whole(&mut self, p: Prefix, store: bool)
        requires
            old(self).wf(),
        ensures
            final(self).wf(),
            final(self)@ == do_mov_whole(old(self)@, p, store),
    {
        let (reg, rm) = self.modrm(p.rex);
        if store {
            let v: u128 = self.xmm[reg];
            self.xmm_store128(rm, v);
        } else {
            let v: u128 = self.xmm_load128(rm);
            self.xmm[reg] = v;
        }
    }

    pub fn op_mov_half_load(&mut self, p: Prefix, op: u8)
        requires
            old(self).wf(),
        ensures
            final(self).wf(),
            final(self)@ == do_mov_half_load(old(self)@, p, op),
    {
        let (reg, rm) = self.modrm(p.rex);
        let v: u64 = match rm {
            Rm::Reg(k) => if op == 0x12 { (self.xmm[k] >> 64) as u64 } else { self.xmm[k] as u64 },
            _ => self.xmm_load64(rm),
        };
        if op == 0x12 {
            let x: u128 = (self.xmm[reg] & !0xffff_ffff_ffff_ffffu128) | (v as u128);
            self.xmm[reg] = x;
        } else {
            let x: u128 = (self.xmm[reg] & 0xffff_ffff_ffff_ffffu128) | ((v as u128) << 64);
            self.xmm[reg] = x;
        }
    }

    pub fn op_mov_half_store(&mut self, p: Prefix, op: u8)
        requires
            old(self).wf(),
        ensures
            final(self).wf(),
            final(self)@ == do_mov_half_store(old(self)@, p, op),
    {
        let (reg, rm) = self.modrm(p.rex);
        let x: u128 = self.xmm[reg];
        let a: u64 = self.xmm_mem_addr(rm);
        self.wr(a, 8, if op == 0x13 { x as u64 } else { (x >> 64) as u64 });
    }

    pub fn op_movd_load(&mut self, p: Prefix)
        requires
            old(self).wf(),
        ensures
            final(self).wf(),
            final(self)@ == do_movd_load(old(self)@, p),
    {
        let (reg, rm) = self.modrm(p.rex);
        let v: u64 = self.load_rm(rm, p.quad());
        self.xmm[reg] = v as u128;
    }

    pub fn op_movd_store(&mut self, p: Prefix)
        requires
            old(self).wf(),
        ensures
            final(self).wf(),
            final(self)@ == do_movd_store(old(self)@, p),
    {
        let (reg, rm) = self.modrm(p.rex);
        if p.rep == RepKind::Rep {
            let v: u64 = self.xmm_load64(rm);
            self.xmm[reg] = v as u128;
        } else {
            let size: u8 = p.quad();
            let v: u64 = (self.xmm[reg] as u64) & mask(size);
            self.store_rm(rm, size, v);
        }
    }

    pub fn op_movq_store(&mut self, p: Prefix)
        requires
            old(self).wf(),
        ensures
            final(self).wf(),
            final(self)@ == do_movq_store(old(self)@, p),
    {
        let (reg, rm) = self.modrm(p.rex);
        let v: u64 = self.xmm[reg] as u64;
        match rm {
            Rm::Reg(i) => {
                self.xmm[i] = v as u128;
            },
            _ => {
                let a: u64 = self.xmm_mem_addr(rm);
                self.wr(a, 8, v);
            },
        }
    }

    pub fn op_shuffle(&mut self, p: Prefix)
        requires
            old(self).wf(),
        ensures
            final(self).wf(),
            final(self)@ == do_shuffle(old(self)@, p),
    {
        let (reg, rm) = self.modrm(p.rex);
        let imm: u8 = self.fetch_u8();
        let x: u128 = self.xmm_load128(rm);
        self.xmm[reg] = shuffle(p.rep, x, imm);
    }

    pub fn op_shuffle_pair(&mut self, p: Prefix)
        requires
            old(self).wf(),
        ensures
            final(self).wf(),
            final(self)@ == do_shuffle_pair(old(self)@, p),
    {
        let (reg, rm) = self.modrm(p.rex);
        let imm: u8 = self.fetch_u8();
        let b: u128 = self.xmm_load128(rm);
        let d: u128 = self.xmm[reg];
        let v: u128 = if p.opsz {
            let lo: u64 = if imm % 2 == 0 { d as u64 } else { (d >> 64) as u64 };
            let hi: u64 = if (imm / 2) % 2 == 0 { b as u64 } else { (b >> 64) as u64 };
            (lo as u128) | ((hi as u128) << 64)
        } else {
            choose_lanes(d, b, imm, 4)
        };
        self.xmm[reg] = v;
    }

    pub fn op_insert_word(&mut self, p: Prefix)
        requires
            old(self).wf(),
        ensures
            final(self).wf(),
            final(self)@ == do_insert_word(old(self)@, p),
    {
        let (reg, rm) = self.modrm(p.rex);
        let imm: u8 = self.fetch_u8();
        let v: u64 = self.load_rm(rm, 4);
        let sh: u128 = ((imm % 8) * 16) as u128;
        let x: u128 = (self.xmm[reg] & !(0xffffu128 << sh)) | (((v as u16) as u128) << sh);
        self.xmm[reg] = x;
    }

    pub fn op_extract_word(&mut self, p: Prefix)
        requires
            old(self).wf(),
        ensures
            final(self).wf(),
            final(self)@ == do_extract_word(old(self)@, p),
    {
        let (reg, rm) = self.modrm(p.rex);
        let imm: u8 = self.fetch_u8();
        let x: u128 = self.xmm_load128(rm);
        self.r[reg] = lane_at(x, imm % 8, 2);
    }

    pub fn op_move_mask(&mut self, p: Prefix)
        requires
            old(self).wf(),
        ensures
            final(self).wf(),
            final(self)@ == do_move_mask(old(self)@, p),
    {
        let (reg, rm) = self.modrm(p.rex);
        let x: u128 = self.xmm_load128(rm);
        self.r[reg] = move_mask(x);
    }

    pub fn op_shift_imm(&mut self, p: Prefix, op: u8) -> (f: Flow)
        requires
            old(self).wf(),
        ensures
            final(self).wf(),
            (final(self)@, f@) == do_shift_imm(old(self)@, p, op),
            f.ok(),
    {
        let (reg, rm) = self.modrm(p.rex);
        let imm: u8 = self.fetch_u8();
        match rm {
            Rm::Reg(i) => match shift_by_imm(op, reg % 8, self.xmm[i], imm) {
                Some(v) => {
                    self.xmm[i] = v;
                    Flow::Next
                },
                None => Flow::Stop(Halt::Undefined(p.start)),
            },
            _ => Flow::Stop(Halt::Undefined(p.start)),
        }
    }

    fn load_form(&mut self, rm: Rm, f: Form) -> (v: u128)
        requires
            old(self).wf(),
            rm_ok(rm),
        ensures
            final(self).wf(),
            (final(self)@, v) == form_load(old(self)@, rm, f),
    {
        match f {
            Form::Low32 => self.xmm_load32(rm) as u128,
            Form::Low64 => self.xmm_load64(rm) as u128,
            _ => self.xmm_load128(rm),
        }
    }

    pub fn op_arith(&mut self, p: Prefix, op: u8) -> (f: Flow)
        requires
            old(self).wf(),
        ensures
            final(self).wf(),
            (final(self)@, f@) == do_arith(old(self)@, p, op),
            f.ok(),
    {
        let form: Form = form_select(p);
        let (reg, rm) = self.modrm(p.rex);
        let b: u128 = self.load_form(rm, form);
        let dest: FpDest = if op == 0x5d {
            FpDest::Select(reg, form, false)
        } else if op == 0x5f {
            FpDest::Select(reg, form, true)
        } else {
            FpDest::Xmm(reg, form)
        };
        let lanes: Vec<(u64, u64)> = lanes_of(form, self.xmm[reg], b);
        Flow::Ask(
            FpAsk { op: arith_select(op, single_form(form)), conv: Conv::Same, lanes, dest },
        )
    }

    pub fn op_mask_compare(&mut self, p: Prefix) -> (f: Flow)
        requires
            old(self).wf(),
        ensures
            final(self).wf(),
            (final(self)@, f@) == do_mask_compare(old(self)@, p),
            f.ok(),
    {
        let form: Form = form_select(p);
        let (reg, rm) = self.modrm(p.rex);
        let imm: u8 = self.fetch_u8();
        let b: u128 = self.load_form(rm, form);
        let lanes: Vec<(u64, u64)> = lanes_of(form, self.xmm[reg], b);
        let op: FpOp = if single_form(form) { FpOp::Order32 } else { FpOp::Order64 };
        Flow::Ask(
            FpAsk { op, conv: Conv::Same, lanes, dest: FpDest::Mask(reg, form, imm % 8) },
        )
    }

    pub fn op_flag_compare(&mut self, p: Prefix) -> (f: Flow)
        requires
            old(self).wf(),
        ensures
            final(self).wf(),
            (final(self)@, f@) == do_flag_compare(old(self)@, p),
            f.ok(),
    {
        let form: Form = if p.opsz { Form::Low64 } else { Form::Low32 };
        let (reg, rm) = self.modrm(p.rex);
        let b: u128 = self.load_form(rm, form);
        let lanes: Vec<(u64, u64)> = lanes_of(form, self.xmm[reg], b);
        let op: FpOp = if p.opsz { FpOp::Order64 } else { FpOp::Order32 };
        Flow::Ask(FpAsk { op, conv: Conv::Same, lanes, dest: FpDest::Flags(false) })
    }

    pub fn op_from_int(&mut self, p: Prefix) -> (f: Flow)
        requires
            old(self).wf(),
        ensures
            final(self).wf(),
            (final(self)@, f@) == do_from_int(old(self)@, p),
            f.ok(),
    {
        let size: u8 = p.quad();
        let (reg, rm) = self.modrm(p.rex);
        let v: u64 = self.load_rm(rm, size);
        if p.rep == RepKind::Rep {
            ask_one(FpOp::IntTo32, Conv::Same, 0, sext(v, size), FpDest::Xmm(reg, Form::Low32))
        } else {
            ask_one(FpOp::Take64, Conv::Int, 0, sext(v, size), FpDest::Xmm(reg, Form::Low64))
        }
    }

    pub fn op_to_int(&mut self, p: Prefix, op: u8) -> (f: Flow)
        requires
            old(self).wf(),
        ensures
            final(self).wf(),
            (final(self)@, f@) == do_to_int(old(self)@, p, op),
            f.ok(),
    {
        let size: u8 = p.quad();
        let single: bool = p.rep == RepKind::Rep;
        let mode: Round = if op == 0x2c { Round::Zero } else { Round::Nearest };
        let (reg, rm) = self.modrm(p.rex);
        let v: u128 = self.load_form(rm, if single { Form::Low32 } else { Form::Low64 });
        ask_one(
            if size == 8 { FpOp::ToI64(mode) } else { FpOp::ToI32(mode) },
            if single { Conv::Single } else { Conv::Same },
            0,
            v as u64,
            FpDest::Gpr(reg, size),
        )
    }

    pub fn op_convert(&mut self, p: Prefix) -> (f: Flow)
        requires
            old(self).wf(),
        ensures
            final(self).wf(),
            (final(self)@, f@) == do_convert(old(self)@, p),
            f.ok(),
    {
        let (reg, rm) = self.modrm(p.rex);
        match p.rep {
            RepKind::Rep => {
                let v: u32 = self.xmm_load32(rm);
                ask_one(FpOp::Take64, Conv::Single, 0, v as u64, FpDest::Xmm(reg, Form::Low64))
            },
            RepKind::Repne => {
                let v: u64 = self.xmm_load64(rm);
                ask_one(FpOp::Narrow, Conv::Same, 0, v, FpDest::Xmm(reg, Form::Low32))
            },
            RepKind::Plain => {
                let x: u128 = self.xmm_load128(rm);
                if p.opsz {
                    pair_request(
                        FpOp::Narrow,
                        Conv::Same,
                        x as u64,
                        (x >> 64) as u64,
                        FpDest::Xmm(reg, Form::Packed32),
                    )
                } else {
                    pair_request(
                        FpOp::Take64,
                        Conv::Single,
                        lane_at(x, 0, 4),
                        lane_at(x, 1, 4),
                        FpDest::Xmm(reg, Form::Packed64),
                    )
                }
            },
        }
    }

    pub fn op_convert_int4(&mut self, p: Prefix) -> (f: Flow)
        requires
            old(self).wf(),
        ensures
            final(self).wf(),
            (final(self)@, f@) == do_convert_int4(old(self)@, p),
            f.ok(),
    {
        let (reg, rm) = self.modrm(p.rex);
        let x: u128 = self.xmm_load128(rm);
        let dest: FpDest = FpDest::Xmm(reg, Form::Packed32);
        if p.rep == RepKind::Repne {
            return Flow::Stop(Halt::Undefined(p.start));
        }
        let mut lanes: Vec<(u64, u64)> = Vec::new();
        if p.rep == RepKind::Plain && !p.opsz {
            lanes.push((0, sext(lane_at(x, 0, 4), 4)));
            lanes.push((0, sext(lane_at(x, 1, 4), 4)));
            lanes.push((0, sext(lane_at(x, 2, 4), 4)));
            lanes.push((0, sext(lane_at(x, 3, 4), 4)));
            assert(lanes@ =~= four_lanes(x, true));
            Flow::Ask(FpAsk { op: FpOp::IntTo32, conv: Conv::Same, lanes, dest })
        } else {
            let mode: Round = if p.rep == RepKind::Rep { Round::Zero } else { Round::Nearest };
            lanes.push((0, lane_at(x, 0, 4)));
            lanes.push((0, lane_at(x, 1, 4)));
            lanes.push((0, lane_at(x, 2, 4)));
            lanes.push((0, lane_at(x, 3, 4)));
            assert(lanes@ =~= four_lanes(x, false));
            Flow::Ask(FpAsk { op: FpOp::ToI32(mode), conv: Conv::Single, lanes, dest })
        }
    }

    pub fn op_convert_int2(&mut self, p: Prefix) -> (f: Flow)
        requires
            old(self).wf(),
        ensures
            final(self).wf(),
            (final(self)@, f@) == do_convert_int2(old(self)@, p),
            f.ok(),
    {
        let (reg, rm) = self.modrm(p.rex);
        let x: u128 = self.xmm_load128(rm);
        if p.rep == RepKind::Rep {
            pair_request(
                FpOp::Take64,
                Conv::Int,
                sext(lane_at(x, 0, 4), 4),
                sext(lane_at(x, 1, 4), 4),
                FpDest::Xmm(reg, Form::Packed64),
            )
        } else {
            let mode: Round = if p.opsz { Round::Zero } else { Round::Nearest };
            pair_request(
                FpOp::ToI32(mode),
                Conv::Same,
                x as u64,
                (x >> 64) as u64,
                FpDest::Xmm(reg, Form::Packed32),
            )
        }
    }
}

} // verus!
