//! Decode and execute one instruction: the opcode maps, and the page fault that ends an instruction.
use vstd::prelude::*;
use crate::cpu::{Cpu, Halt, Seg, VEC_PAGE_FAULT};
use crate::decode::{Flow, FpAsk, Prefix, RepKind};
use crate::operand::Rm;
use crate::profile::Prof;
use crate::sse_ops::packed_decode;
use crate::string_ops::StringOp;
#[allow(unused_imports)]
use crate::cpu::CpuState;
#[allow(unused_imports)]
use crate::decode::{dest_ok, operand_size, prefix_bound, prefixes, FlowState, FpAskState};
#[allow(unused_imports)]
use crate::flags::condition;
#[allow(unused_imports)]
use crate::fpu_ops::{do_state, do_x87, fp_done};
#[allow(unused_imports)]
use crate::group_ops::{
    do_bit_imm, do_bit_reg, do_bit_scan, do_bswap, do_cmov, do_double_shift, do_exchange, do_extend,
    do_group3, do_imul2, do_setcc, do_xadd,
};
#[allow(unused_imports)]
use crate::int_ops::{
    do_alu, do_alu_imm, do_call, do_extend_acc, do_far_ret, do_flag, do_group5, do_hlt, do_imul_imm,
    do_iret, do_lea, do_leave, do_mov, do_mov_from_seg, do_mov_imm, do_mov_reg_imm, do_mov_to_seg,
    do_movsxd, do_pop_rm, do_port, do_push_imm, do_push_pop, do_ret, do_shift, do_spread_sign,
    do_test, do_test_imm, do_xchg, do_xchg_acc, jumped, settable_flags, stepped,
};
#[allow(unused_imports)]
use crate::interrupt::{delivered, raised};
#[allow(unused_imports)]
use crate::mmu::fetch_byte;
#[allow(unused_imports)]
use crate::operand::{decode_rm, stack_pop, stack_push, with_flags};
#[allow(unused_imports)]
use crate::profile::{count_primary, count_secondary, ProfState};
#[allow(unused_imports)]
use crate::sse_ops::{
    do_arith, do_convert, do_convert_int2, do_convert_int4, do_extract_word, do_flag_compare,
    do_from_int, do_insert_word, do_mask_compare, do_mov_half_load, do_mov_half_store, do_mov_load,
    do_mov_store, do_mov_whole, do_move_mask, do_movd_load, do_movd_store, do_movq_store, do_packed,
    do_shift_imm, do_shuffle, do_shuffle_pair, do_to_int, packed_of,
};
#[allow(unused_imports)]
use crate::string_ops::do_string;
#[allow(unused_imports)]
use crate::system_ops::{
    do_cpuid, do_group6, do_group7, do_group9, do_mov_cr, do_msr, do_syscall, do_sysret, do_ud2,
    split_stored,
};

verus! {

/// An instruction that ends plainly.
pub open spec fn plainly(s: CpuState) -> (CpuState, FlowState) {
    (s, FlowState::Next)
}

/// No such instruction.
pub open spec fn undefined(s: CpuState, p: Prefix) -> (CpuState, FlowState) {
    (s, FlowState::Stop(Halt::Undefined(p.start)))
}

// ----- the primary opcode map -----

/// Opcodes `50` to `7F`.
#[verifier::opaque]
pub open spec fn map_5_7(s: CpuState, p: Prefix, op: u8) -> (CpuState, FlowState) {
    if 0x50 <= op < 0x60 {
        plainly(do_push_pop(s, p, op))
    } else if op == 0x63 {
        plainly(do_movsxd(s, p))
    } else if op == 0x68 || op == 0x6a {
        plainly(do_push_imm(s, op))
    } else if op == 0x69 || op == 0x6b {
        plainly(do_imul_imm(s, p, op))
    } else if 0x70 <= op < 0x80 {
        plainly(jumped(s, 1, condition(s.rflags, (op - 0x70) as u8)))
    } else {
        undefined(s, p)
    }
}

/// Opcodes `80` to `9F`.
#[verifier::opaque]
pub open spec fn map_8_9(s: CpuState, p: Prefix, op: u8) -> (CpuState, FlowState) {
    if op == 0x80 || op == 0x81 || op == 0x83 {
        plainly(do_alu_imm(s, p, op))
    } else if op == 0x84 || op == 0x85 {
        plainly(do_test(s, p, op))
    } else if op == 0x86 || op == 0x87 {
        plainly(do_xchg(s, p, op))
    } else if 0x88 <= op <= 0x8b {
        plainly(do_mov(s, p, op))
    } else if op == 0x8c {
        plainly(do_mov_from_seg(s, p))
    } else if op == 0x8d {
        plainly(do_lea(s, p))
    } else if op == 0x8e {
        plainly(do_mov_to_seg(s, p))
    } else if op == 0x8f {
        plainly(do_pop_rm(s, p))
    } else if 0x90 <= op <= 0x97 {
        plainly(do_xchg_acc(s, p, op))
    } else if op == 0x98 {
        plainly(do_extend_acc(s, p))
    } else if op == 0x99 {
        plainly(do_spread_sign(s, p))
    } else if op == 0x9b {
        plainly(s)
    } else if op == 0x9c {
        plainly(stack_push(s, s.rflags))
    } else if op == 0x9d {
        let (t, v) = stack_pop(s, 8);
        plainly(with_flags(t, settable_flags(v)))
    } else {
        undefined(s, p)
    }
}

/// The string instruction of an opcode.
pub open spec fn string_kind(op: u8) -> Option<StringOp> {
    if op == 0xa4 || op == 0xa5 {
        Some(StringOp::Movs)
    } else if op == 0xa6 || op == 0xa7 {
        Some(StringOp::Compare)
    } else if op == 0xaa || op == 0xab {
        Some(StringOp::Stos)
    } else if op == 0xac || op == 0xad {
        Some(StringOp::Lods)
    } else if op == 0xae || op == 0xaf {
        Some(StringOp::Scas)
    } else {
        None
    }
}

/// Opcodes `A0` to `BF`.
#[verifier::opaque]
pub open spec fn map_a_b(s: CpuState, p: Prefix, op: u8) -> (CpuState, FlowState) {
    if string_kind(op) is Some {
        let size = if op % 2 == 0 { 1u8 } else { operand_size(p) };
        plainly(do_string(s, string_kind(op)->0, size, p.rep, p.start))
    } else if op == 0xa8 || op == 0xa9 {
        plainly(do_test_imm(s, p, op))
    } else if 0xb0 <= op <= 0xbf {
        plainly(do_mov_reg_imm(s, p, op))
    } else {
        undefined(s, p)
    }
}

/// Opcodes `C0` to `DF`.
#[verifier::opaque]
pub open spec fn map_c_d(s: CpuState, p: Prefix, op: u8) -> (CpuState, FlowState) {
    if op == 0xc0 || op == 0xc1 || 0xd0 <= op <= 0xd3 {
        plainly(do_shift(s, p, op))
    } else if op == 0xc2 || op == 0xc3 {
        plainly(do_ret(s, op == 0xc2))
    } else if op == 0xc6 || op == 0xc7 {
        plainly(do_mov_imm(s, p, op))
    } else if op == 0xc9 {
        plainly(do_leave(s))
    } else if op == 0xca || op == 0xcb {
        plainly(do_far_ret(s, p, op == 0xca))
    } else if op == 0xcc {
        plainly(delivered(s, 3, 0, false))
    } else if op == 0xcd {
        let (t, v) = fetch_byte(s);
        plainly(delivered(t, v, 0, false))
    } else if op == 0xcf {
        plainly(do_iret(s))
    } else if 0xd8 <= op <= 0xdf {
        do_x87(s, p, op)
    } else {
        undefined(s, p)
    }
}

/// `INC` and `DEC` of a byte operand.
pub open spec fn do_group4(s: CpuState, p: Prefix) -> CpuState {
    let (s1, (ext, rm)) = decode_rm(s, p.rex);
    stepped(s1, rm, 1, ext % 8 == 1)
}

/// Opcodes `E0` to `FF`.
#[verifier::opaque]
pub open spec fn map_e_f(s: CpuState, p: Prefix, op: u8) -> (CpuState, FlowState) {
    if op == 0xe3 {
        plainly(jumped(s, 1, s.r[1] == 0))
    } else if 0xe4 <= op <= 0xe7 || 0xec <= op <= 0xef {
        plainly(do_port(s, p, op))
    } else if op == 0xe8 {
        plainly(do_call(s))
    } else if op == 0xe9 {
        plainly(jumped(s, 4, true))
    } else if op == 0xeb {
        plainly(jumped(s, 1, true))
    } else if op == 0xf4 {
        do_hlt(s)
    } else if op == 0xf5 || 0xf8 <= op <= 0xfd {
        plainly(do_flag(s, op))
    } else if op == 0xf6 || op == 0xf7 {
        plainly(do_group3(s, p, op))
    } else if op == 0xfe {
        plainly(do_group4(s, p))
    } else if op == 0xff {
        do_group5(s, p)
    } else {
        undefined(s, p)
    }
}

// ----- the opcode map after `0F` -----

/// Bytes below `40`.
#[verifier::opaque]
pub open spec fn map_0f_low(s: CpuState, p: Prefix, op: u8) -> (CpuState, FlowState) {
    if op == 0x00 {
        plainly(do_group6(s, p))
    } else if op == 0x01 {
        plainly(do_group7(s, p))
    } else if op == 0x05 {
        plainly(do_syscall(s))
    } else if op == 0x07 {
        plainly(do_sysret(s))
    } else if op == 0x09 || op == 0x0e {
        plainly(s)
    } else if op == 0x0b {
        do_ud2(s, p)
    } else if op == 0x0d || 0x18 <= op <= 0x1f {
        plainly(decode_rm(s, p.rex).0)
    } else if op == 0x10 {
        plainly(do_mov_load(s, p))
    } else if op == 0x11 {
        plainly(do_mov_store(s, p))
    } else if op == 0x12 || op == 0x16 {
        plainly(do_mov_half_load(s, p, op))
    } else if op == 0x13 || op == 0x17 {
        plainly(do_mov_half_store(s, p, op))
    } else if 0x20 <= op <= 0x23 {
        plainly(do_mov_cr(s, p, op))
    } else if op == 0x28 || op == 0x29 {
        plainly(do_mov_whole(s, p, op == 0x29))
    } else if op == 0x2a {
        do_from_int(s, p)
    } else if op == 0x2c || op == 0x2d {
        do_to_int(s, p, op)
    } else if op == 0x2e || op == 0x2f {
        do_flag_compare(s, p)
    } else if op == 0x30 || op == 0x32 {
        plainly(do_msr(s, op))
    } else if op == 0x31 {
        plainly(split_stored(s, s.sys.tsc))
    } else {
        undefined(s, p)
    }
}

/// Bytes `40` to `7F`.
#[verifier::opaque]
pub open spec fn map_0f_mid(s: CpuState, p: Prefix, op: u8) -> (CpuState, FlowState) {
    if 0x40 <= op < 0x50 {
        plainly(do_cmov(s, p, op))
    } else if op == 0x51 || op == 0x58 || op == 0x59 || 0x5c <= op <= 0x5f {
        do_arith(s, p, op)
    } else if op == 0x5a {
        do_convert(s, p)
    } else if op == 0x5b {
        do_convert_int4(s, p)
    } else if op == 0x6e {
        plainly(do_movd_load(s, p))
    } else if op == 0x6f || op == 0x7f {
        plainly(do_mov_whole(s, p, op == 0x7f))
    } else if op == 0x70 {
        plainly(do_shuffle(s, p))
    } else if 0x71 <= op <= 0x73 {
        do_shift_imm(s, p, op)
    } else if op == 0x77 {
        plainly(s)
    } else if op == 0x7e {
        plainly(do_movd_store(s, p))
    } else {
        undefined(s, p)
    }
}

/// Bytes `80` to `BF`.
#[verifier::opaque]
pub open spec fn map_0f_8_b(s: CpuState, p: Prefix, op: u8) -> (CpuState, FlowState) {
    if 0x80 <= op < 0x90 {
        plainly(jumped(s, 4, condition(s.rflags, (op - 0x80) as u8)))
    } else if 0x90 <= op < 0xa0 {
        plainly(do_setcc(s, p, op))
    } else if op == 0xa2 {
        plainly(do_cpuid(s))
    } else if op == 0xa3 || op == 0xab || op == 0xb3 || op == 0xbb {
        plainly(do_bit_reg(s, p, op))
    } else if op == 0xa4 || op == 0xa5 || op == 0xac || op == 0xad {
        plainly(do_double_shift(s, p, op))
    } else if op == 0xae {
        do_state(s, p)
    } else if op == 0xaf {
        plainly(do_imul2(s, p))
    } else if op == 0xb0 || op == 0xb1 {
        plainly(do_exchange(s, p, if op == 0xb0 { 1 } else { operand_size(p) }))
    } else if op == 0xb6 || op == 0xb7 || op == 0xbe || op == 0xbf {
        plainly(do_extend(s, p, op))
    } else if op == 0xba {
        plainly(do_bit_imm(s, p))
    } else if op == 0xbc || op == 0xbd {
        plainly(do_bit_scan(s, p, op))
    } else {
        undefined(s, p)
    }
}

/// Bytes `C0` to `FF`.
#[verifier::opaque]
pub open spec fn map_0f_c_f(s: CpuState, p: Prefix, op: u8) -> (CpuState, FlowState) {
    if op == 0xc0 || op == 0xc1 {
        plainly(do_xadd(s, p, if op == 0xc0 { 1 } else { operand_size(p) }))
    } else if op == 0xc2 {
        do_mask_compare(s, p)
    } else if op == 0xc4 {
        plainly(do_insert_word(s, p))
    } else if op == 0xc5 {
        plainly(do_extract_word(s, p))
    } else if op == 0xc6 {
        plainly(do_shuffle_pair(s, p))
    } else if op == 0xc7 {
        plainly(do_group9(s, p))
    } else if 0xc8 <= op <= 0xcf {
        plainly(do_bswap(s, p, op))
    } else if op == 0xd6 {
        plainly(do_movq_store(s, p))
    } else if op == 0xd7 {
        plainly(do_move_mask(s, p))
    } else if op == 0xe6 {
        do_convert_int2(s, p)
    } else {
        undefined(s, p)
    }
}

/// An instruction of two opcode bytes.
#[verifier::opaque]
pub open spec fn map_0f(s: CpuState, p: Prefix) -> (CpuState, FlowState) {
    let (s1, op) = fetch_byte(s);
    match packed_of(op, p.opsz) {
        Some(k) => plainly(do_packed(s1, p, k)),
        None => if op < 0x40 {
            map_0f_low(s1, p, op)
        } else if op < 0x80 {
            map_0f_mid(s1, p, op)
        } else if op < 0xc0 {
            map_0f_8_b(s1, p, op)
        } else {
            map_0f_c_f(s1, p, op)
        },
    }
}

/// The instruction of an opcode.
#[verifier::opaque]
pub open spec fn executed(s: CpuState, p: Prefix, op: u8) -> (CpuState, FlowState) {
    if op < 0x40 {
        if op % 8 < 6 {
            plainly(do_alu(s, p, op))
        } else if op == 0x0f {
            map_0f(s, p)
        } else {
            undefined(s, p)
        }
    } else if op < 0x50 {
        undefined(s, p)
    } else if op < 0x80 {
        map_5_7(s, p, op)
    } else if op < 0xa0 {
        map_8_9(s, p, op)
    } else if op < 0xc0 {
        map_a_b(s, p, op)
    } else if op < 0xe0 {
        map_c_d(s, p, op)
    } else {
        map_e_f(s, p, op)
    }
}

// ----- one instruction -----

/// The registers that a page fault gives back, as they were before the instruction.
#[verifier::ext_equal]
pub ghost struct SavedState {
    pub r: Seq<u64>,
    pub xmm: Seq<u128>,
    pub fpr: Seq<u64>,
    pub ftop: u8,
    pub fcw: u16,
    pub fsw: u16,
    pub rip: u64,
    pub rflags: u64,
    pub seg: Seq<Seg>,
    pub cpl: u8,
}

/// The registers of a state.
pub open spec fn saved_of(s: CpuState) -> SavedState {
    SavedState {
        r: s.r,
        xmm: s.xmm,
        fpr: s.fpr,
        ftop: s.ftop,
        fcw: s.fcw,
        fsw: s.fsw,
        rip: s.rip,
        rflags: s.rflags,
        seg: s.seg,
        cpl: s.cpl,
    }
}

/// The registers given back.
pub open spec fn restored(s: CpuState, v: SavedState) -> CpuState {
    CpuState {
        r: v.r,
        xmm: v.xmm,
        fpr: v.fpr,
        ftop: v.ftop,
        fcw: v.fcw,
        fsw: v.fsw,
        rip: v.rip,
        rflags: v.rflags,
        seg: v.seg,
        cpl: v.cpl,
        ..s
    }
}

/// A latched page fault taken: the registers are as before the instruction, `CR2` holds the address,
/// and the fault is delivered.
#[verifier::opaque]
pub open spec fn fault_taken(s: CpuState, v: SavedState) -> CpuState {
    match s.fault {
        Some(pf) => raised(
            restored(CpuState { fault: None, cr2: pf.addr, ..s }, v),
            14,
            pf.error,
            true,
        ),
        None => s,
    }
}

/// How one instruction went.
#[verifier::ext_equal]
pub ghost enum StepState {
    Done,
    Stopped(Halt),
    /// The instruction waits for floating-point arithmetic.
    Ask(FpAskState, SavedState),
}

/// The decoder before an instruction.
pub open spec fn decoding(s: CpuState) -> CpuState {
    CpuState { cur_seg: None, rex_present: false, ..s }
}

/// No prefix seen yet.
pub open spec fn no_prefix(start: u64) -> Prefix {
    Prefix { rex: 0, opsz: false, rep: RepKind::Plain, start }
}

/// The opcode fetched, after the prefixes.
#[verifier::opaque]
pub open spec fn opcode_fetched(s: CpuState) -> (CpuState, (Prefix, u8)) {
    let (s1, p) = prefixes(decoding(s), no_prefix(s.rip), prefix_bound());
    let (s2, op) = fetch_byte(s1);
    (s2, (p, op))
}

/// The opcode bytes of the next instruction counted: the first, and the second after a `0F` that
/// could be fetched.
#[verifier::opaque]
pub open spec fn ops_counted(d: ProfState, s: CpuState) -> ProfState {
    let (s1, (_, op)) = opcode_fetched(s);
    let d1 = count_primary(d, op);
    if s1.fault is None && op == 0x0f {
        count_secondary(d1, fetch_byte(s1).1)
    } else {
        d1
    }
}

/// One instruction.
#[verifier::opaque]
pub open spec fn one_step(s: CpuState) -> (CpuState, StepState) {
    let v = saved_of(s);
    let (s1, (p, op)) = opcode_fetched(s);
    if s1.fault is Some {
        (fault_taken(s1, v), StepState::Done)
    } else {
        let (s2, f) = executed(s1, p, op);
        match f {
            FlowState::Next => (fault_taken(s2, v), StepState::Done),
            FlowState::Leave => (s2, StepState::Done),
            FlowState::Stop(h) => (s2, StepState::Stopped(h)),
            FlowState::Ask(a) => (s2, StepState::Ask(a, v)),
        }
    }
}

/// An instruction that waited for floating-point arithmetic, completed.
#[verifier::opaque]
pub open spec fn completed(s: CpuState, a: FpAskState, v: SavedState, res: Seq<u64>) -> CpuState {
    fault_taken(fp_done(s, a, res), v)
}

/// The registers that a page fault gives back.
#[derive(Clone, Copy)]
pub struct Saved {
    pub r: [u64; 16],
    pub xmm: [u128; 16],
    pub fpr: [u64; 8],
    pub ftop: u8,
    pub fcw: u16,
    pub fsw: u16,
    pub rip: u64,
    pub rflags: u64,
    pub seg: [Seg; 6],
    pub cpl: u8,
}

impl View for Saved {
    type V = SavedState;

    open spec fn view(&self) -> SavedState {
        SavedState {
            r: self.r@,
            xmm: self.xmm@,
            fpr: self.fpr@,
            ftop: self.ftop,
            fcw: self.fcw,
            fsw: self.fsw,
            rip: self.rip,
            rflags: self.rflags,
            seg: self.seg@,
            cpl: self.cpl,
        }
    }
}

/// How one instruction went.
pub enum Step {
    Done,
    Stopped(Halt),
    /// The instruction waits for floating-point arithmetic; [`Cpu::complete`] ends it.
    Ask(FpAsk, Saved),
}

impl View for Step {
    type V = StepState;

    open spec fn view(&self) -> StepState {
        match self {
            Step::Done => StepState::Done,
            Step::Stopped(h) => StepState::Stopped(*h),
            Step::Ask(a, v) => StepState::Ask(a@, v@),
        }
    }
}

impl Step {
    /// The registers a continuation writes exist.
    pub open spec fn ok(&self) -> bool {
        match self {
            Step::Ask(a, _) => dest_ok(a.dest),
            _ => true,
        }
    }
}

/// The string instruction of an opcode.
fn string_decode(op: u8) -> (k: Option<StringOp>)
    ensures
        k == string_kind(op),
{
    if op == 0xa4 || op == 0xa5 {
        Some(StringOp::Movs)
    } else if op == 0xa6 || op == 0xa7 {
        Some(StringOp::Compare)
    } else if op == 0xaa || op == 0xab {
        Some(StringOp::Stos)
    } else if op == 0xac || op == 0xad {
        Some(StringOp::Lods)
    } else if op == 0xae || op == 0xaf {
        Some(StringOp::Scas)
    } else {
        None
    }
}

fn no_instruction(p: Prefix) -> (f: Flow)
    ensures
        f@ == FlowState::Stop(Halt::Undefined(p.start)),
        f.ok(),
{
    Flow::Stop(Halt::Undefined(p.start))
}

impl Cpu {
    fn run_5_7(&mut self, p: Prefix, op: u8) -> (f: Flow)
        requires
            old(self).wf(),
        ensures
            final(self).wf(),
            (final(self)@, f@) == map_5_7(old(self)@, p, op),
            f.ok(),
    {
        proof {
            reveal(map_5_7);
        }
        if 0x50 <= op && op < 0x60 {
            self.op_push_pop(p, op);
        } else if op == 0x63 {
            self.op_movsxd(p);
        } else if op == 0x68 || op == 0x6a {
            self.op_push_imm(op);
        } else if op == 0x69 || op == 0x6b {
            self.op_imul_imm(p, op);
        } else if 0x70 <= op && op < 0x80 {
            let taken: bool = self.cond(op - 0x70);
            self.op_jump(1, taken);
        } else {
            return no_instruction(p);
        }
        Flow::Next
    }

    fn run_8_9(&mut self, p: Prefix, op: u8) -> (f: Flow)
        requires
            old(self).wf(),
        ensures
            final(self).wf(),
            (final(self)@, f@) == map_8_9(old(self)@, p, op),
            f.ok(),
    {
        proof {
            reveal(map_8_9);
        }
        if op == 0x80 || op == 0x81 || op == 0x83 {
            self.op_alu_imm(p, op);
        } else if op == 0x84 || op == 0x85 {
            self.op_test(p, op);
        } else if op == 0x86 || op == 0x87 {
            self.op_xchg(p, op);
        } else if 0x88 <= op && op <= 0x8b {
            self.op_mov(p, op);
        } else if op == 0x8c {
            self.op_mov_from_seg(p);
        } else if op == 0x8d {
            self.op_lea(p);
        } else if op == 0x8e {
            self.op_mov_to_seg(p);
        } else if op == 0x8f {
            self.op_pop_rm(p);
        } else if 0x90 <= op && op <= 0x97 {
            self.op_xchg_acc(p, op);
        } else if op == 0x98 {
            self.op_extend_acc(p);
        } else if op == 0x99 {
            self.op_spread_sign(p);
        } else if op == 0x9b {
            return Flow::Next;
        } else if op == 0x9c {
            let v: u64 = self.rflags;
            self.push(v);
        } else if op == 0x9d {
            let v: u64 = self.pop();
            self.rflags = (v & 0x0024_4fd5) | 0x2;
        } else {
            return no_instruction(p);
        }
        Flow::Next
    }

    fn run_a_b(&mut self, p: Prefix, op: u8) -> (f: Flow)
        requires
            old(self).wf(),
        ensures
            final(self).wf(),
            (final(self)@, f@) == map_a_b(old(self)@, p, op),
            f.ok(),
    {
        proof {
            reveal(map_a_b);
        }
        match string_decode(op) {
            Some(kind) => {
                let size: u8 = if op % 2 == 0 { 1 } else { p.size() };
                self.string_op(kind, size, p.rep, p.start);
            },
            None => if op == 0xa8 || op == 0xa9 {
                self.op_test_imm(p, op);
            } else if 0xb0 <= op && op <= 0xbf {
                self.op_mov_reg_imm(p, op);
            } else {
                return no_instruction(p);
            },
        }
        Flow::Next
    }

    fn run_c_d(&mut self, p: Prefix, op: u8) -> (f: Flow)
        requires
            old(self).wf(),
        ensures
            final(self).wf(),
            (final(self)@, f@) == map_c_d(old(self)@, p, op),
            f.ok(),
    {
        proof {
            reveal(map_c_d);
        }
        if op == 0xc0 || op == 0xc1 || (0xd0 <= op && op <= 0xd3) {
            self.op_shift(p, op);
        } else if op == 0xc2 || op == 0xc3 {
            self.op_ret(op == 0xc2);
        } else if op == 0xc6 || op == 0xc7 {
            self.op_mov_imm(p, op);
        } else if op == 0xc9 {
            self.op_leave();
        } else if op == 0xca || op == 0xcb {
            self.op_far_ret(p, op == 0xca);
        } else if op == 0xcc {
            self.deliver_interrupt(3, 0, false);
        } else if op == 0xcd {
            let v: u8 = self.fetch_u8();
            self.deliver_interrupt(v, 0, false);
        } else if op == 0xcf {
            self.op_iret();
        } else if 0xd8 <= op && op <= 0xdf {
            return self.x87(p, op);
        } else {
            return no_instruction(p);
        }
        Flow::Next
    }

    fn op_group4(&mut self, p: Prefix)
        requires
            old(self).wf(),
        ensures
            final(self).wf(),
            final(self)@ == do_group4(old(self)@, p),
    {
        let (ext, rm) = self.modrm(p.rex);
        self.op_step(rm, 1, ext % 8 == 1);
    }

    fn run_e_f(&mut self, p: Prefix, op: u8) -> (f: Flow)
        requires
            old(self).wf(),
        ensures
            final(self).wf(),
            (final(self)@, f@) == map_e_f(old(self)@, p, op),
            f.ok(),
    {
        proof {
            reveal(map_e_f);
        }
        if op == 0xe3 {
            let taken: bool = self.r[1] == 0;
            self.op_jump(1, taken);
        } else if (0xe4 <= op && op <= 0xe7) || (0xec <= op && op <= 0xef) {
            self.op_port(p, op);
        } else if op == 0xe8 {
            self.op_call();
        } else if op == 0xe9 {
            self.op_jump(4, true);
        } else if op == 0xeb {
            self.op_jump(1, true);
        } else if op == 0xf4 {
            return self.op_hlt();
        } else if op == 0xf5 || (0xf8 <= op && op <= 0xfd) {
            self.op_flag(op);
        } else if op == 0xf6 || op == 0xf7 {
            self.group3(p, op);
        } else if op == 0xfe {
            self.op_group4(p);
        } else if op == 0xff {
            return self.op_group5(p);
        } else {
            return no_instruction(p);
        }
        Flow::Next
    }

    fn run_0f_low(&mut self, p: Prefix, op: u8) -> (f: Flow)
        requires
            old(self).wf(),
        ensures
            final(self).wf(),
            (final(self)@, f@) == map_0f_low(old(self)@, p, op),
            f.ok(),
    {
        proof {
            reveal(map_0f_low);
        }
        if op == 0x00 {
            self.op_group6(p);
        } else if op == 0x01 {
            self.group7(p);
        } else if op == 0x05 {
            self.syscall_enter();
        } else if op == 0x07 {
            self.sysret();
        } else if op == 0x09 || op == 0x0e {
            return Flow::Next;
        } else if op == 0x0b {
            return self.op_ud2(p);
        } else if op == 0x0d || (0x18 <= op && op <= 0x1f) {
            let _: (usize, Rm) = self.modrm(p.rex);
        } else if op == 0x10 {
            self.op_mov_load(p);
        } else if op == 0x11 {
            self.op_mov_store(p);
        } else if op == 0x12 || op == 0x16 {
            self.op_mov_half_load(p, op);
        } else if op == 0x13 || op == 0x17 {
            self.op_mov_half_store(p, op);
        } else if 0x20 <= op && op <= 0x23 {
            self.op_mov_cr(p, op);
        } else if op == 0x28 || op == 0x29 {
            self.op_mov_whole(p, op == 0x29);
        } else if op == 0x2a {
            return self.op_from_int(p);
        } else if op == 0x2c || op == 0x2d {
            return self.op_to_int(p, op);
        } else if op == 0x2e || op == 0x2f {
            return self.op_flag_compare(p);
        } else if op == 0x30 || op == 0x32 {
            self.op_msr(op);
        } else if op == 0x31 {
            self.op_rdtsc();
        } else {
            return no_instruction(p);
        }
        Flow::Next
    }

    fn run_0f_mid(&mut self, p: Prefix, op: u8) -> (f: Flow)
        requires
            old(self).wf(),
        ensures
            final(self).wf(),
            (final(self)@, f@) == map_0f_mid(old(self)@, p, op),
            f.ok(),
    {
        proof {
            reveal(map_0f_mid);
        }
        if 0x40 <= op && op < 0x50 {
            self.op_cmov(p, op);
        } else if op == 0x51 || op == 0x58 || op == 0x59 || (0x5c <= op && op <= 0x5f) {
            return self.op_arith(p, op);
        } else if op == 0x5a {
            return self.op_convert(p);
        } else if op == 0x5b {
            return self.op_convert_int4(p);
        } else if op == 0x6e {
            self.op_movd_load(p);
        } else if op == 0x6f || op == 0x7f {
            self.op_mov_whole(p, op == 0x7f);
        } else if op == 0x70 {
            self.op_shuffle(p);
        } else if 0x71 <= op && op <= 0x73 {
            return self.op_shift_imm(p, op);
        } else if op == 0x77 {
            return Flow::Next;
        } else if op == 0x7e {
            self.op_movd_store(p);
        } else {
            return no_instruction(p);
        }
        Flow::Next
    }

    fn run_0f_8_b(&mut self, p: Prefix, op: u8) -> (f: Flow)
        requires
            old(self).wf(),
        ensures
            final(self).wf(),
            (final(self)@, f@) == map_0f_8_b(old(self)@, p, op),
            f.ok(),
    {
        proof {
            reveal(map_0f_8_b);
        }
        if 0x80 <= op && op < 0x90 {
            let taken: bool = self.cond(op - 0x80);
            self.op_jump(4, taken);
        } else if 0x90 <= op && op < 0xa0 {
            self.op_setcc(p, op);
        } else if op == 0xa2 {
            self.cpuid();
        } else if op == 0xa3 || op == 0xab || op == 0xb3 || op == 0xbb {
            self.op_bit_reg(p, op);
        } else if op == 0xa4 || op == 0xa5 || op == 0xac || op == 0xad {
            self.op_double_shift(p, op);
        } else if op == 0xae {
            return self.op_state(p);
        } else if op == 0xaf {
            self.op_imul2(p);
        } else if op == 0xb0 || op == 0xb1 {
            self.op_exchange(p, if op == 0xb0 { 1 } else { p.size() });
        } else if op == 0xb6 || op == 0xb7 || op == 0xbe || op == 0xbf {
            self.op_extend(p, op);
        } else if op == 0xba {
            self.op_bit_imm(p);
        } else if op == 0xbc || op == 0xbd {
            self.op_bit_scan(p, op);
        } else {
            return no_instruction(p);
        }
        Flow::Next
    }

    fn run_0f_c_f(&mut self, p: Prefix, op: u8) -> (f: Flow)
        requires
            old(self).wf(),
        ensures
            final(self).wf(),
            (final(self)@, f@) == map_0f_c_f(old(self)@, p, op),
            f.ok(),
    {
        proof {
            reveal(map_0f_c_f);
        }
        if op == 0xc0 || op == 0xc1 {
            self.xadd(p, if op == 0xc0 { 1 } else { p.size() });
        } else if op == 0xc2 {
            return self.op_mask_compare(p);
        } else if op == 0xc4 {
            self.op_insert_word(p);
        } else if op == 0xc5 {
            self.op_extract_word(p);
        } else if op == 0xc6 {
            self.op_shuffle_pair(p);
        } else if op == 0xc7 {
            self.op_group9(p);
        } else if 0xc8 <= op && op <= 0xcf {
            self.op_bswap(p, op);
        } else if op == 0xd6 {
            self.op_movq_store(p);
        } else if op == 0xd7 {
            self.op_move_mask(p);
        } else if op == 0xe6 {
            return self.op_convert_int2(p);
        } else {
            return no_instruction(p);
        }
        Flow::Next
    }

    fn run_0f(&mut self, p: Prefix, prof: &mut Prof) -> (f: Flow)
        requires
            old(self).wf(),
        ensures
            final(self).wf(),
            (final(self)@, f@) == map_0f(old(self)@, p),
            final(prof)@ == count_secondary(old(prof)@, fetch_byte(old(self)@).1),
            f.ok(),
    {
        proof {
            reveal(map_0f);
        }
        let op: u8 = self.fetch_u8();
        prof.count_op_0f(op);
        match packed_decode(op, p.opsz) {
            Some(k) => {
                self.op_packed(p, k);
                Flow::Next
            },
            None => if op < 0x40 {
                self.run_0f_low(p, op)
            } else if op < 0x80 {
                self.run_0f_mid(p, op)
            } else if op < 0xc0 {
                self.run_0f_8_b(p, op)
            } else {
                self.run_0f_c_f(p, op)
            },
        }
    }

    fn execute(&mut self, p: Prefix, op: u8, prof: &mut Prof) -> (f: Flow)
        requires
            old(self).wf(),
        ensures
            final(self).wf(),
            (final(self)@, f@) == executed(old(self)@, p, op),
            final(prof)@ == (if op == 0x0f {
                count_secondary(old(prof)@, fetch_byte(old(self)@).1)
            } else {
                old(prof)@
            }),
            f.ok(),
    {
        proof {
            reveal(executed);
        }
        if op < 0x40 {
            if op % 8 < 6 {
                self.op_alu(p, op);
                Flow::Next
            } else if op == 0x0f {
                self.run_0f(p, prof)
            } else {
                no_instruction(p)
            }
        } else if op < 0x50 {
            no_instruction(p)
        } else if op < 0x80 {
            self.run_5_7(p, op)
        } else if op < 0xa0 {
            self.run_8_9(p, op)
        } else if op < 0xc0 {
            self.run_a_b(p, op)
        } else if op < 0xe0 {
            self.run_c_d(p, op)
        } else {
            self.run_e_f(p, op)
        }
    }

    /// The registers that a page fault gives back.
    pub fn reg_snapshot(&self) -> (v: Saved)
        ensures
            v@ == saved_of(self@),
    {
        Saved {
            r: self.r,
            xmm: self.xmm,
            fpr: self.fpr,
            ftop: self.ftop,
            fcw: self.fcw,
            fsw: self.fsw,
            rip: self.rip,
            rflags: self.rflags,
            seg: self.seg,
            cpl: self.cpl,
        }
    }

    /// Give the registers back.
    pub fn restore_snapshot(&mut self, v: Saved)
        requires
            old(self).wf(),
        ensures
            final(self).wf(),
            final(self)@ == restored(old(self)@, v@),
    {
        self.r = v.r;
        self.xmm = v.xmm;
        self.fpr = v.fpr;
        self.ftop = v.ftop;
        self.fcw = v.fcw;
        self.fsw = v.fsw;
        self.rip = v.rip;
        self.rflags = v.rflags;
        self.seg = v.seg;
        self.cpl = v.cpl;
    }

    fn take_fault(&mut self, v: Saved)
        requires
            old(self).wf(),
        ensures
            final(self).wf(),
            final(self)@ == fault_taken(old(self)@, v@),
    {
        proof {
            reveal(fault_taken);
        }
        match self.fault {
            Some(pf) => {
                self.fault = None;
                self.cr2 = pf.addr;
                self.restore_snapshot(v);
                self.raise_exception(VEC_PAGE_FAULT, pf.error, true);
            },
            None => {},
        }
    }

    fn fetch_opcode(&mut self) -> (r: (Prefix, u8))
        requires
            old(self).wf(),
        ensures
            final(self).wf(),
            (final(self)@, r) == opcode_fetched(old(self)@),
    {
        proof {
            reveal(opcode_fetched);
        }
        let p0: Prefix = Prefix { rex: 0, opsz: false, rep: RepKind::Plain, start: self.rip };
        self.cur_seg = None;
        self.rex_present = false;
        let p: Prefix = self.read_prefixes(p0);
        let op: u8 = self.fetch_u8();
        (p, op)
    }

    /// Decode and execute one instruction. A page fault on the way restores the registers, loads
    /// `CR2` and enters the handler, so that the instruction runs again. The opcode is counted.
    pub fn step(&mut self, prof: &mut Prof) -> (f: Step)
        requires
            old(self).wf(),
        ensures
            final(self).wf(),
            (final(self)@, f@) == one_step(old(self)@),
            final(prof)@ == ops_counted(old(prof)@, old(self)@),
            f.ok(),
    {
        proof {
            reveal(one_step);
            reveal(ops_counted);
        }
        let v: Saved = self.reg_snapshot();
        let (p, op) = self.fetch_opcode();
        prof.count_op(op);
        if self.fault.is_some() {
            self.take_fault(v);
            return Step::Done;
        }
        match self.execute(p, op, prof) {
            Flow::Next => {
                self.take_fault(v);
                Step::Done
            },
            Flow::Leave => Step::Done,
            Flow::Stop(h) => Step::Stopped(h),
            Flow::Ask(a) => Step::Ask(a, v),
        }
    }

    /// Complete an instruction that waited for floating-point arithmetic.
    pub fn complete(&mut self, a: &FpAsk, v: Saved, res: &Vec<u64>)
        requires
            old(self).wf(),
            dest_ok(a.dest),
        ensures
            final(self).wf(),
            final(self)@ == completed(old(self)@, a@, v@, res@),
    {
        proof {
            reveal(completed);
        }
        self.fp_put(a, res);
        self.take_fault(v);
    }
}

} // verus!
