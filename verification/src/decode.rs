//! What the decoder hands to the instructions, and what they hand back.
//!
//! Floating-point arithmetic is done by the host: an instruction that needs it ends with a request,
//! which names the operation, the operands as bits, and what is to become of the results.
use vstd::prelude::*;
use crate::cpu::{Cpu, Halt, SegId};
#[allow(unused_imports)]
use crate::cpu::CpuState;
#[allow(unused_imports)]
use crate::mmu::{byte_at, translate_access};

verus! {

/// A repeat prefix (`F3` and `F2`), which also selects the form of SSE instructions.
#[derive(Clone, Copy, PartialEq, Eq, Structural, Debug)]
pub enum RepKind {
    /// No repeat prefix.
    Plain,
    Rep,
    Repne,
}

/// The prefixes of an instruction.
#[derive(Clone, Copy, PartialEq, Eq, Structural, Debug)]
pub struct Prefix {
    /// The `REX` byte, or zero.
    pub rex: u8,
    /// The operand-size override (`66`).
    pub opsz: bool,
    pub rep: RepKind,
    /// Where the instruction starts.
    pub start: u64,
}

/// `REX.W`.
pub open spec fn wide(p: Prefix) -> bool {
    p.rex & 8 != 0
}

/// The operand size: eight bytes under `REX.W`, two under the override, else four.
pub open spec fn operand_size(p: Prefix) -> u8 {
    if wide(p) {
        8
    } else if p.opsz {
        2
    } else {
        4
    }
}

/// Eight bytes under `REX.W`, else four.
pub open spec fn quad_size(p: Prefix) -> u8 {
    if wide(p) {
        8
    } else {
        4
    }
}

/// A rounding mode.
#[derive(Clone, Copy, PartialEq, Eq, Structural, Debug)]
pub enum Round {
    Nearest,
    Down,
    Up,
    Zero,
}

/// What is done with each lane of a request. `x` and `y` are its operands, `y` after conversion; the
/// operations on one operand take `y`.
#[derive(Clone, Copy, PartialEq, Eq, Structural, Debug)]
pub enum FpOp {
    /// `y` itself, as binary64.
    Take64,
    /// Binary64 `x + y`, and so on; the `Rev` forms take the operands the other way round.
    Plus64,
    Minus64,
    MinusRev64,
    Times64,
    Over64,
    OverRev64,
    /// The remainder of the truncated quotient of `x` by `y`.
    Rem64,
    /// How `x` stands to `y`: `0` greater, `1` less, `2` equal, `3` unordered.
    Order64,
    Sqrt64,
    Sin64,
    Cos64,
    /// `2^y - 1`.
    Exp2Less1,
    Plus32,
    Minus32,
    Times32,
    Over32,
    Order32,
    Sqrt32,
    /// Binary64 to binary32.
    Narrow,
    /// A signed integer to binary32.
    IntTo32,
    /// Binary64 to a signed integer, rounded; the most negative integer where it does not fit.
    ToI64(Round),
    ToI32(Round),
    /// Binary64 rounded to a signed 64-bit integer and back.
    RoundInt(Round),
    /// Extended precision (significand `x`, sign and exponent `y`) to binary64.
    From80,
    /// Binary64 to extended precision: two results, the significand, then sign and exponent.
    To80,
}

/// How the second operand of each lane is read.
#[derive(Clone, Copy, PartialEq, Eq, Structural, Debug)]
pub enum Conv {
    /// As the bits of a number of the operation's own precision.
    Same,
    /// As the bits of a binary32 number, widened.
    Single,
    /// As a signed integer, converted.
    Int,
}

/// The shape of an SSE operand.
#[derive(Clone, Copy, PartialEq, Eq, Structural, Debug)]
pub enum Form {
    /// The low doubleword or quadword; the rest of the destination stays.
    Low32,
    Low64,
    /// All four doublewords or both quadwords.
    Packed32,
    Packed64,
}

/// What becomes of the results.
#[derive(Clone, Copy, PartialEq, Eq, Structural, Debug)]
pub enum FpDest {
    /// Into an SSE register.
    Xmm(usize, Form),
    /// The operand an ordering selects, lane by lane: the greater one, or the lesser.
    Select(usize, Form, bool),
    /// All ones or zero by a comparison predicate, lane by lane.
    Mask(usize, Form, u8),
    /// Into a general-purpose register, at a width.
    Gpr(usize, u8),
    /// The ordering into the zero, parity and carry flags; the flag says to pop the x87 stack.
    Flags(bool),
    /// Onto the x87 stack.
    Push,
    /// Into `st(i)`, then pop so many times.
    St(usize, u8),
    /// The ordering into the x87 condition codes, then pop so many times.
    Status(u8),
    /// To memory at a width, then pop so many times.
    Mem(u64, u8, u8),
    /// To memory in extended precision, then pop.
    Mem80(u64),
    /// Into the save area at an address; the flag says that it has the extended header.
    Save(u64, bool),
    /// Into the x87 registers.
    Restore,
}

/// A request for floating-point arithmetic.
pub struct FpAsk {
    pub op: FpOp,
    pub conv: Conv,
    pub lanes: Vec<(u64, u64)>,
    pub dest: FpDest,
}

/// The contents of an [`FpAsk`].
#[verifier::ext_equal]
pub ghost struct FpAskState {
    pub op: FpOp,
    pub conv: Conv,
    pub lanes: Seq<(u64, u64)>,
    pub dest: FpDest,
}

impl View for FpAsk {
    type V = FpAskState;

    open spec fn view(&self) -> FpAskState {
        FpAskState { op: self.op, conv: self.conv, lanes: self.lanes@, dest: self.dest }
    }
}

/// How an instruction ends.
pub enum Flow {
    /// Done; a latched page fault is still to be taken.
    Next,
    /// Done, with nothing left to do.
    Leave,
    /// The machine stops.
    Stop(Halt),
    /// Floating-point arithmetic is needed.
    Ask(FpAsk),
}

/// The contents of a [`Flow`].
#[verifier::ext_equal]
pub ghost enum FlowState {
    Next,
    Leave,
    Stop(Halt),
    Ask(FpAskState),
}

impl View for Flow {
    type V = FlowState;

    open spec fn view(&self) -> FlowState {
        match self {
            Flow::Next => FlowState::Next,
            Flow::Leave => FlowState::Leave,
            Flow::Stop(h) => FlowState::Stop(*h),
            Flow::Ask(a) => FlowState::Ask(a@),
        }
    }
}

impl Flow {
    /// The registers a continuation writes exist.
    pub open spec fn ok(&self) -> bool {
        match self {
            Flow::Ask(a) => dest_ok(a.dest),
            _ => true,
        }
    }
}

/// The registers a destination names exist, and its width is one.
pub open spec fn dest_ok(d: FpDest) -> bool {
    match d {
        FpDest::Xmm(r, _) => r < 16,
        FpDest::Select(r, _, _) => r < 16,
        FpDest::Mask(r, _, _) => r < 16,
        FpDest::Gpr(r, size) => r < 16 && (size == 4 || size == 8),
        FpDest::St(i, _) => i < 8,
        FpDest::Mem(_, size, _) => size == 2 || size == 4 || size == 8,
        _ => true,
    }
}

/// A request with one lane.
pub open spec fn ask1(op: FpOp, conv: Conv, x: u64, y: u64, dest: FpDest) -> FlowState {
    FlowState::Ask(FpAskState { op, conv, lanes: seq![(x, y)], dest })
}

/// A request with one lane.
pub fn ask_one(op: FpOp, conv: Conv, x: u64, y: u64, dest: FpDest) -> (f: Flow)
    requires
        dest_ok(dest),
    ensures
        f@ == ask1(op, conv, x, y, dest),
        f.ok(),
{
    let mut lanes: Vec<(u64, u64)> = Vec::new();
    lanes.push((x, y));
    let f: Flow = Flow::Ask(FpAsk { op, conv, lanes, dest });
    assert(f@ =~= ask1(op, conv, x, y, dest));
    f
}

// ----- prefixes -----

/// A byte that the decoder takes as a prefix.
pub open spec fn is_prefix(b: u8) -> bool {
    b == 0x66 || b == 0xf3 || b == 0xf2 || b == 0x64 || b == 0x65 || b == 0x67 || b == 0xf0 || b
        == 0x2e || b == 0x36 || b == 0x3e || b == 0x26 || 0x40 <= b <= 0x4f
}

/// What a prefix byte changes of the prefixes seen.
pub open spec fn prefix_seen(p: Prefix, b: u8) -> Prefix {
    if b == 0x66 {
        Prefix { opsz: true, ..p }
    } else if b == 0xf3 {
        Prefix { rep: RepKind::Rep, ..p }
    } else if b == 0xf2 {
        Prefix { rep: RepKind::Repne, ..p }
    } else if 0x40 <= b <= 0x4f {
        Prefix { rex: b, ..p }
    } else {
        p
    }
}

/// What a prefix byte changes of the machine: the segment override, the presence of `REX`, and the
/// instruction pointer.
pub open spec fn prefix_taken(s: CpuState, b: u8) -> CpuState {
    CpuState {
        cur_seg: if b == 0x64 {
            Some(SegId::Fs)
        } else if b == 0x65 {
            Some(SegId::Gs)
        } else {
            s.cur_seg
        },
        rex_present: s.rex_present || 0x40 <= b <= 0x4f,
        rip: s.rip.wrapping_add(1),
        ..s
    }
}

/// The prefixes read, at most `n` of them. `REX` is the last one, and a fault ends the reading.
pub open spec fn prefixes(s: CpuState, p: Prefix, n: nat) -> (CpuState, Prefix)
    decreases n,
{
    if n == 0 {
        (s, p)
    } else {
        let (t, pa) = translate_access(s, s.rip, false, s.cpl == 3);
        let b = byte_at(t.ram, pa as int);
        if t.fault is Some || !is_prefix(b) {
            (t, p)
        } else if 0x40 <= b <= 0x4f {
            (prefix_taken(t, b), prefix_seen(p, b))
        } else {
            prefixes(prefix_taken(t, b), prefix_seen(p, b), (n - 1) as nat)
        }
    }
}

/// More prefixes than there are addresses.
pub open spec fn prefix_bound() -> nat {
    0x1_0000_0000_0000_0000
}

impl Prefix {
    /// `REX.W`.
    pub fn wide(self) -> (b: bool)
        ensures
            b == wide(self),
    {
        self.rex & 8 != 0
    }

    /// The operand size.
    pub fn size(self) -> (n: u8)
        ensures
            n == operand_size(self),
    {
        if self.rex & 8 != 0 {
            8
        } else if self.opsz {
            2
        } else {
            4
        }
    }

    /// Eight bytes under `REX.W`, else four.
    pub fn quad(self) -> (n: u8)
        ensures
            n == quad_size(self),
    {
        if self.rex & 8 != 0 {
            8
        } else {
            4
        }
    }
}

impl Cpu {
    fn take_prefix(&mut self, p: Prefix, b: u8) -> (q: Prefix)
        requires
            old(self).wf(),
            is_prefix(b),
        ensures
            final(self).wf(),
            final(self)@ == prefix_taken(old(self)@, b),
            q == prefix_seen(p, b),
    {
        let mut q: Prefix = p;
        if b == 0x66 {
            q.opsz = true;
        } else if b == 0xf3 {
            q.rep = RepKind::Rep;
        } else if b == 0xf2 {
            q.rep = RepKind::Repne;
        } else if b == 0x64 {
            self.cur_seg = Some(SegId::Fs);
        } else if b == 0x65 {
            self.cur_seg = Some(SegId::Gs);
        } else if 0x40 <= b && b <= 0x4f {
            q.rex = b;
            self.rex_present = true;
        }
        self.rip = self.rip.wrapping_add(1);
        q
    }

    /// Read the prefixes of an instruction.
    pub fn read_prefixes(&mut self, p: Prefix) -> (q: Prefix)
        requires
            old(self).wf(),
        ensures
            final(self).wf(),
            (final(self)@, q) == prefixes(old(self)@, p, prefix_bound()),
    {
        let mut q: Prefix = p;
        let mut left: u128 = 0x1_0000_0000_0000_0000;
        while left > 0
            invariant
                self.wf(),
                prefixes(old(self)@, p, prefix_bound()) == prefixes(self@, q, left as nat),
            decreases left,
        {
            let user: bool = self.cpl == 3;
            let rip: u64 = self.rip;
            let pa: u64 = self.translate_acc(rip, false, user);
            let b: u8 = self.ram_byte(pa, 0);
            let prefix: bool = b == 0x66 || b == 0xf3 || b == 0xf2 || b == 0x64 || b == 0x65 || b
                == 0x67 || b == 0xf0 || b == 0x2e || b == 0x36 || b == 0x3e || b == 0x26 || (0x40
                <= b && b <= 0x4f);
            if self.fault.is_some() || !prefix {
                return q;
            }
            q = self.take_prefix(q, b);
            if 0x40 <= b && b <= 0x4f {
                return q;
            }
            left = left - 1;
        }
        q
    }
}

} // verus!
