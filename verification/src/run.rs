//! The run loop: time, interrupts, compiled code and instructions, up to a budget. What the host has
//! to do on the way (floating-point arithmetic, devices, compilation) ends a call; the next one goes
//! on from there.
use vstd::prelude::*;
use vstd::slice::{slice_subrange, slice_to_vec};
use crate::cpu::{Cpu, Halt};
use crate::decode::FpAsk;
use crate::jit::{BlockOrder, Choice, Jit, Outcome, RegionBlock, RegionOrder};
use crate::profile::Prof;
use crate::step::{Saved, Step};
use crate::virtio::Slot;
#[allow(unused_imports)]
use crate::cpu::CpuState;
#[allow(unused_imports)]
use crate::decode::{dest_ok, FpAskState};
#[allow(unused_imports)]
use crate::interrupt::{interrupted, ticked};
#[allow(unused_imports)]
use crate::jit::{
    block_applied, block_ordered, blocks_of, jit_after, jit_choice, outcome_of, region_applied,
    region_ordered, stretch, transferred, BlockOrderState, BlockState, ChoiceState, JitState,
    OutcomeState, RegionOrderState,
};
#[allow(unused_imports)]
use crate::profile::{entry_counted, page_sampled, user_sampled, ProfState};
#[allow(unused_imports)]
use crate::step::{one_step, ops_counted, SavedState, StepState};
#[allow(unused_imports)]
use crate::sys::slot_attached;

verus! {

/// Where a run stands within an iteration.
pub enum Stage {
    /// Before everything.
    Top,
    /// The network has been served.
    Begin,
    /// The compiler decides.
    Choose,
    /// An instruction is due; the address it starts at.
    Exec(u64),
    /// An instruction, or compiled code, has run from there; the flag says it was compiled code.
    After(u64, bool),
    /// The host decodes the block at a physical address, of so many bytes.
    Block(u64, u64, u64),
    /// The host runs a block.
    BlockRun(BlockOrder),
    /// The host looks for a region.
    Region(u64, u64, u64),
    /// The host runs a region.
    RegionRun(RegionOrder),
}

/// The contents of a [`Stage`].
#[verifier::ext_equal]
pub ghost enum StageState {
    Top,
    Begin,
    Choose,
    Exec(u64),
    After(u64, bool),
    Block(u64, u64, u64),
    BlockRun(BlockOrderState),
    Region(u64, u64, u64),
    RegionRun(RegionOrderState),
}

impl View for Stage {
    type V = StageState;

    open spec fn view(&self) -> StageState {
        match self {
            Stage::Top => StageState::Top,
            Stage::Begin => StageState::Begin,
            Stage::Choose => StageState::Choose,
            Stage::Exec(a) => StageState::Exec(*a),
            Stage::After(a, h) => StageState::After(*a, *h),
            Stage::Block(a, o, n) => StageState::Block(*a, *o, *n),
            Stage::BlockRun(o) => StageState::BlockRun(o@),
            Stage::Region(a, o, n) => StageState::Region(*a, *o, *n),
            Stage::RegionRun(o) => StageState::RegionRun(o@),
        }
    }
}

/// A run: how many of its iterations are done, how many there are, and where it stands.
pub struct Run {
    pub done: u64,
    pub max: u64,
    pub stage: Stage,
}

/// The contents of a [`Run`].
#[verifier::ext_equal]
pub ghost struct RunState {
    pub done: u64,
    pub max: u64,
    pub stage: StageState,
}

impl View for Run {
    type V = RunState;

    open spec fn view(&self) -> RunState {
        RunState { done: self.done, max: self.max, stage: self.stage@ }
    }
}

/// Why a run came back.
pub enum Event {
    /// The machine stopped, or the budget is exhausted.
    Halt(Halt),
    /// The host gives the network its turn.
    Pump,
    /// The guest wrote to devices that the host serves.
    Devices,
    /// Floating-point arithmetic; [`Cpu::complete`] takes the results.
    Fp(FpAsk, Saved),
    /// The host decodes a block; [`Cpu::block_found`] takes what it found.
    Decode(Vec<u8>),
    /// The host looks for a region; [`Cpu::region_found`] takes its blocks.
    Discover(Vec<u8>),
}

/// The contents of an [`Event`].
#[verifier::ext_equal]
pub ghost enum EventState {
    Halt(Halt),
    Pump,
    Devices,
    Fp(FpAskState, SavedState),
    Decode(Seq<u8>),
    Discover(Seq<u8>),
}

impl View for Event {
    type V = EventState;

    open spec fn view(&self) -> EventState {
        match self {
            Event::Halt(h) => EventState::Halt(*h),
            Event::Pump => EventState::Pump,
            Event::Devices => EventState::Devices,
            Event::Fp(a, v) => EventState::Fp(a@, v@),
            Event::Decode(b) => EventState::Decode(b@),
            Event::Discover(b) => EventState::Discover(b@),
        }
    }
}

impl Event {
    /// The registers a continuation writes exist.
    pub open spec fn ok(&self) -> bool {
        match self {
            Event::Fp(a, _) => dest_ok(a.dest),
            _ => true,
        }
    }
}

/// The code page sampled every 1024 iterations, and a user-mode instruction counted when that is on.
pub open spec fn sampled(d: ProfState, s: CpuState, i: u64) -> ProfState {
    let d1 = if i % 1024 == 0 {
        page_sampled(d, s.rip)
    } else {
        d
    };
    if s.cpl == 3 && s.cfg.boot_diag {
        user_sampled(d1, s.rip)
    } else {
        d1
    }
}

/// The start of an iteration: the timers advance, and a pending interrupt is taken. A halted
/// platform ends the run.
#[verifier::opaque]
pub open spec fn begun(s: CpuState) -> (CpuState, bool) {
    let t = ticked(s);
    if t.sys.halted {
        (t, false)
    } else {
        (interrupted(t).0, true)
    }
}

/// An instruction retired; compiled code counts its own.
pub open spec fn retired(s: CpuState, handled: bool) -> CpuState {
    if handled {
        s
    } else {
        CpuState { insns: s.insns.wrapping_add(1), ..s }
    }
}

/// The block profile after an instruction at an address, when it is on.
pub open spec fn block_noted(d: ProfState, from: u64, rip: u64) -> ProfState {
    if d.blockprof_on && transferred(from, rip) {
        entry_counted(d, rip)
    } else {
        d
    }
}

/// The end of an iteration: the compiler and the block profile look at where the instruction went.
#[verifier::opaque]
pub open spec fn ended(s: CpuState, j: JitState, from: u64, handled: bool) -> JitState {
    let j1 = jit_after(s, j, from, handled);
    JitState { prof: block_noted(j1.prof, from, s.rip), ..j1 }
}

/// A run at a stage.
pub open spec fn at_stage(r: RunState, stage: StageState) -> RunState {
    RunState { stage, ..r }
}

/// How far a stage is from the end of its iteration.
pub open spec fn stage_rank(g: StageState) -> int {
    match g {
        StageState::Top => 5,
        StageState::Begin => 4,
        StageState::Choose => 3,
        StageState::Block(_, _, _) => 2,
        StageState::BlockRun(_) => 2,
        StageState::Region(_, _, _) => 2,
        StageState::RegionRun(_) => 2,
        StageState::Exec(_) => 1,
        StageState::After(_, _) => 0,
    }
}

/// A run, up to the next thing the host has to do. A decision of the host's that did not come counts
/// as declined.
pub open spec fn ran(s: CpuState, j: JitState, r: RunState) -> (
    CpuState,
    JitState,
    RunState,
    EventState,
)
    decreases r.max - r.done, stage_rank(r.stage),
{
    match r.stage {
        StageState::Top => if s.sys.outbox.len() > 0 {
            (s, j, r, EventState::Devices)
        } else if r.done >= r.max {
            (s, j, r, EventState::Halt(Halt::OutOfBudget))
        } else if r.done % 1024 == 0 && slot_attached(s.sys, Slot::Net) {
            (s, j, at_stage(r, StageState::Begin), EventState::Pump)
        } else {
            ran(s, j, at_stage(r, StageState::Begin))
        },
        StageState::Begin => {
            let (t, on) = begun(s);
            let j1 = JitState { prof: sampled(j.prof, s, r.done), ..j };
            if on {
                ran(t, j1, at_stage(r, StageState::Choose))
            } else {
                (t, j1, at_stage(r, StageState::Top), EventState::Halt(Halt::Halted))
            }
        },
        StageState::Choose => {
            let (t, j1, c) = jit_choice(s, j);
            match c {
                ChoiceState::Interpret => ran(t, j1, at_stage(r, StageState::Exec(s.rip))),
                ChoiceState::Block(off, n) => (
                    t,
                    j1,
                    at_stage(r, StageState::Block(s.rip, off, n)),
                    EventState::Decode(stretch(t.ram, off, n)),
                ),
                ChoiceState::Region(off, n) => (
                    t,
                    j1,
                    at_stage(r, StageState::Region(s.rip, off, n)),
                    EventState::Discover(stretch(t.ram, off, n)),
                ),
            }
        },
        StageState::Block(from, _, _) => ran(s, j, at_stage(r, StageState::Exec(from))),
        StageState::BlockRun(o) => ran(s, j, at_stage(r, StageState::Exec(o.rip))),
        StageState::Region(from, _, _) => ran(s, j, at_stage(r, StageState::Exec(from))),
        StageState::RegionRun(o) => ran(s, j, at_stage(r, StageState::Exec(o.rip))),
        StageState::Exec(from) => {
            let (t, f) = one_step(s);
            let j1 = JitState { prof: ops_counted(j.prof, s), ..j };
            let next = at_stage(r, StageState::After(from, false));
            match f {
                StepState::Done => ran(t, j1, next),
                StepState::Stopped(h) => (t, j1, at_stage(r, StageState::Top), EventState::Halt(h)),
                StepState::Ask(a, v) => (t, j1, next, EventState::Fp(a, v)),
            }
        },
        StageState::After(from, handled) => {
            let t = retired(s, handled);
            let j1 = ended(t, j, from, handled);
            if r.done < r.max {
                ran(t, j1, RunState { done: (r.done + 1) as u64, max: r.max, stage: StageState::Top })
            } else {
                (t, j1, at_stage(r, StageState::Top), EventState::Halt(Halt::OutOfBudget))
            }
        },
    }
}

/// What the host decoded, put to the compiler: the block to run, if it is worth it.
pub open spec fn found_block(
    s: CpuState,
    j: JitState,
    r: RunState,
    ops: u64,
    len: u64,
    shift: bool,
) -> (JitState, RunState, Option<BlockOrderState>) {
    match r.stage {
        StageState::Block(from, off, room) => {
            let (j1, o) = block_ordered(s, j, off, room, ops, len, shift);
            match o {
                Some(x) => (j1, at_stage(r, StageState::BlockRun(x)), o),
                None => (j1, at_stage(r, StageState::Exec(from)), o),
            }
        },
        _ => (j, r, None),
    }
}

/// What the host's run of a block gave, put to the compiler.
pub open spec fn ran_block(
    s: CpuState,
    j: JitState,
    r: RunState,
    compiled: bool,
    res: Option<OutcomeState>,
) -> (CpuState, JitState, RunState) {
    match r.stage {
        StageState::BlockRun(o) => {
            let (t, j1, handled) = block_applied(s, j, o, compiled, res);
            let stage = if handled {
                StageState::After(o.rip, true)
            } else {
                StageState::Exec(o.rip)
            };
            (t, j1, at_stage(r, stage))
        },
        _ => (s, j, r),
    }
}

/// What the host discovered, put to the compiler: the region to run, if it is worth it.
pub open spec fn found_region(s: CpuState, j: JitState, r: RunState, l: Seq<BlockState>) -> (
    RunState,
    Option<Seq<u8>>,
) {
    match r.stage {
        StageState::Region(from, off, room) => match region_ordered(s, j, off, room, l) {
            Some(x) => (at_stage(r, StageState::RegionRun(x)), Some(x.key)),
            None => (at_stage(r, StageState::Exec(from)), None),
        },
        _ => (r, None),
    }
}

/// What the host's run of a region gave, put to the compiler.
pub open spec fn ran_region(s: CpuState, j: JitState, r: RunState, res: Option<OutcomeState>) -> (
    CpuState,
    JitState,
    RunState,
) {
    match r.stage {
        StageState::RegionRun(o) => {
            let (t, j1, handled) = region_applied(s, j, o, res);
            let stage = if handled {
                StageState::After(o.rip, true)
            } else {
                StageState::Exec(o.rip)
            };
            (t, j1, at_stage(r, stage))
        },
        _ => (s, j, r),
    }
}

impl Run {
    /// A run of at most `max` iterations.
    pub fn new(max: u64) -> (r: Run)
        ensures
            r@ == (RunState { done: 0, max, stage: StageState::Top }),
    {
        Run { done: 0, max, stage: Stage::Top }
    }
}

impl Cpu {
    fn begin(&mut self, prof: &mut Prof, i: u64) -> (on: bool)
        requires
            old(self).wf(),
        ensures
            final(self).wf(),
            (final(self)@, on) == begun(old(self)@),
            final(prof)@ == sampled(old(prof)@, old(self)@, i),
    {
        proof {
            reveal(begun);
        }
        let rip: u64 = self.rip;
        if i % 1024 == 0 {
            prof.hotprof_sample(rip);
        }
        if self.cpl == 3 && self.cfg.boot_diag {
            prof.user_sample(rip);
        }
        self.sys_tick();
        if self.sys.halted {
            return false;
        }
        let _: bool = self.take_pending_interrupt();
        true
    }

    fn end(&mut self, j: &mut Jit, from: u64, handled: bool)
        requires
            old(self).wf(),
        ensures
            final(self).wf(),
            final(self)@ == retired(old(self)@, handled),
            final(j)@ == ended(final(self)@, old(j)@, from, handled),
    {
        proof {
            reveal(ended);
        }
        if !handled {
            self.insns = self.insns.wrapping_add(1);
        }
        self.jit_note(j, from, handled);
        let rip: u64 = self.rip;
        if j.prof.blockprof_on && (rip < from || rip > from.wrapping_add(15)) {
            j.prof.blockprof_entry(rip);
        }
    }

    fn copy_stretch(&self, off: u64, n: u64) -> (v: Vec<u8>)
        requires
            off + n <= self@.ram.len(),
        ensures
            v@ == stretch(self@.ram, off, n),
    {
        let _total: usize = self.ram.len();
        slice_to_vec(slice_subrange(self.ram.as_slice(), off as usize, (off + n) as usize))
    }

    /// Run until the budget is exhausted, the machine stops, or the host has something to do.
    pub fn run(&mut self, j: &mut Jit, r: &mut Run) -> (e: Event)
        requires
            old(self).wf(),
        ensures
            final(self).wf(),
            (final(self)@, final(j)@, final(r)@, e@) == ran(old(self)@, old(j)@, old(r)@),
            e.ok(),
    {
        loop
            invariant
                self.wf(),
                ran(old(self)@, old(j)@, old(r)@) == ran(self@, j@, r@),
            decreases r.max - r.done, stage_rank(r.stage@),
        {
            match &r.stage {
                Stage::Top => {
                    if self.sys.outbox.len() > 0 {
                        return Event::Devices;
                    }
                    if r.done >= r.max {
                        return Event::Halt(Halt::OutOfBudget);
                    }
                    let pump: bool = r.done % 1024 == 0 && self.sys.attached(Slot::Net);
                    r.stage = Stage::Begin;
                    if pump {
                        return Event::Pump;
                    }
                },
                Stage::Begin => {
                    if self.begin(&mut j.prof, r.done) {
                        r.stage = Stage::Choose;
                    } else {
                        r.stage = Stage::Top;
                        return Event::Halt(Halt::Halted);
                    }
                },
                Stage::Choose => {
                    let from: u64 = self.rip;
                    match self.jit_choose(j) {
                        Choice::Interpret => {
                            r.stage = Stage::Exec(from);
                        },
                        Choice::Block(off, n) => {
                            r.stage = Stage::Block(from, off, n);
                            return Event::Decode(self.copy_stretch(off, n));
                        },
                        Choice::Region(off, n) => {
                            r.stage = Stage::Region(from, off, n);
                            return Event::Discover(self.copy_stretch(off, n));
                        },
                    }
                },
                Stage::Block(from, _, _) => {
                    r.stage = Stage::Exec(*from);
                },
                Stage::BlockRun(o) => {
                    r.stage = Stage::Exec(o.rip);
                },
                Stage::Region(from, _, _) => {
                    r.stage = Stage::Exec(*from);
                },
                Stage::RegionRun(o) => {
                    r.stage = Stage::Exec(o.rip);
                },
                Stage::Exec(from) => {
                    let from: u64 = *from;
                    match self.step(&mut j.prof) {
                        Step::Done => {
                            r.stage = Stage::After(from, false);
                        },
                        Step::Stopped(h) => {
                            r.stage = Stage::Top;
                            return Event::Halt(h);
                        },
                        Step::Ask(a, v) => {
                            r.stage = Stage::After(from, false);
                            return Event::Fp(a, v);
                        },
                    }
                },
                Stage::After(from, handled) => {
                    self.end(j, *from, *handled);
                    r.stage = Stage::Top;
                    if r.done < r.max {
                        r.done = r.done + 1;
                    } else {
                        return Event::Halt(Halt::OutOfBudget);
                    }
                },
            }
        }
    }

    /// Go on from [`Event::Decode`]: the block has `ops` operations in `len` bytes. The result is the
    /// digest of the block to run, and whether it may be run or is only counted.
    pub fn block_found(&self, j: &mut Jit, r: &mut Run, ops: u64, len: u64, shift: bool) -> (o:
        Option<([u8; 32], bool)>)
        ensures
            final(j)@ == found_block(self@, old(j)@, old(r)@, ops, len, shift).0,
            final(r)@ == found_block(self@, old(j)@, old(r)@, ops, len, shift).1,
            match found_block(self@, old(j)@, old(r)@, ops, len, shift).2 {
                Some(x) => o matches Some((key, run)) && key@ == x.key && run == x.run,
                None => o is None,
            },
    {
        match &r.stage {
            Stage::Block(from, off, room) => {
                let from: u64 = *from;
                match self.jit_order_block(j, *off, *room, ops, len, shift) {
                    Some(o) => {
                        let key: [u8; 32] = o.key;
                        let run: bool = o.run;
                        r.stage = Stage::BlockRun(o);
                        Some((key, run))
                    },
                    None => {
                        r.stage = Stage::Exec(from);
                        None
                    },
                }
            },
            _ => None,
        }
    }

    /// Go on after a block: the host says whether it is compiled, and what running it gave.
    pub fn block_ran(&mut self, j: &mut Jit, r: &mut Run, compiled: bool, res: Option<Outcome>)
        requires
            old(self).wf(),
        ensures
            final(self).wf(),
            (final(self)@, final(j)@, final(r)@) == ran_block(
                old(self)@,
                old(j)@,
                old(r)@,
                compiled,
                outcome_of(res),
            ),
    {
        match &r.stage {
            Stage::BlockRun(o) => {
                let from: u64 = o.rip;
                let handled: bool = self.jit_apply_block(j, o, compiled, res);
                r.stage = if handled { Stage::After(from, true) } else { Stage::Exec(from) };
            },
            _ => {},
        }
    }

    /// Go on from [`Event::Discover`] with the blocks of the region, the entry first. The result is
    /// the digest of the region to run.
    pub fn region_found(&self, j: &Jit, r: &mut Run, blocks: Vec<RegionBlock>) -> (o: Option<
        [u8; 32],
    >)
        ensures
            final(r)@ == found_region(self@, j@, old(r)@, blocks_of(blocks@)).0,
            match found_region(self@, j@, old(r)@, blocks_of(blocks@)).1 {
                Some(k) => o matches Some(key) && key@ == k,
                None => o is None,
            },
    {
        match &r.stage {
            Stage::Region(from, off, room) => {
                let from: u64 = *from;
                match self.jit_order_region(j, *off, *room, blocks) {
                    Some(o) => {
                        let key: [u8; 32] = o.key;
                        r.stage = Stage::RegionRun(o);
                        Some(key)
                    },
                    None => {
                        r.stage = Stage::Exec(from);
                        None
                    },
                }
            },
            _ => None,
        }
    }

    /// Go on after a region: what running it gave, if it was run to an exit.
    pub fn region_ran(&mut self, j: &mut Jit, r: &mut Run, res: Option<Outcome>)
        requires
            old(self).wf(),
        ensures
            final(self).wf(),
            (final(self)@, final(j)@, final(r)@) == ran_region(
                old(self)@,
                old(j)@,
                old(r)@,
                outcome_of(res),
            ),
    {
        let mut stage: Stage = Stage::Top;
        std::mem::swap(&mut stage, &mut r.stage);
        match stage {
            Stage::RegionRun(o) => {
                let from: u64 = o.rip;
                let handled: bool = self.jit_apply_region(j, o, res);
                r.stage = if handled { Stage::After(from, true) } else { Stage::Exec(from) };
            },
            other => {
                r.stage = other;
            },
        }
    }
}

/// The machine is deterministic: two machines that agree, under compilers and runs that agree, come
/// to the same event in the same state, with the same output on their consoles.
pub proof fn law_deterministic(a: Cpu, b: Cpu, j: Jit, k: Jit, r: Run, q: Run)
    requires
        a@ == b@,
        j@ == k@,
        r@ == q@,
    ensures
        ran(a@, j@, r@) == ran(b@, k@, q@),
{
}

/// A run stops within its budget: whatever comes back, no more iterations have been done than it
/// allows.
pub proof fn law_within_budget(s: CpuState, j: JitState, r: RunState)
    requires
        r.done <= r.max,
    ensures
        r.done <= ran(s, j, r).2.done <= ran(s, j, r).2.max,
        ran(s, j, r).2.max == r.max,
    decreases r.max - r.done, stage_rank(r.stage),
{
    match r.stage {
        StageState::Top => {
            law_within_budget(s, j, at_stage(r, StageState::Begin));
        },
        StageState::Begin => {
            let j1 = JitState { prof: sampled(j.prof, s, r.done), ..j };
            law_within_budget(begun(s).0, j1, at_stage(r, StageState::Choose));
        },
        StageState::Choose => {
            let (t, j1, _) = jit_choice(s, j);
            law_within_budget(t, j1, at_stage(r, StageState::Exec(s.rip)));
        },
        StageState::Block(from, _, _) => {
            law_within_budget(s, j, at_stage(r, StageState::Exec(from)));
        },
        StageState::BlockRun(o) => {
            law_within_budget(s, j, at_stage(r, StageState::Exec(o.rip)));
        },
        StageState::Region(from, _, _) => {
            law_within_budget(s, j, at_stage(r, StageState::Exec(from)));
        },
        StageState::RegionRun(o) => {
            law_within_budget(s, j, at_stage(r, StageState::Exec(o.rip)));
        },
        StageState::Exec(from) => {
            let j1 = JitState { prof: ops_counted(j.prof, s), ..j };
            law_within_budget(one_step(s).0, j1, at_stage(r, StageState::After(from, false)));
        },
        StageState::After(from, handled) => {
            if r.done < r.max {
                let t = retired(s, handled);
                law_within_budget(
                    t,
                    ended(t, j, from, handled),
                    RunState { done: (r.done + 1) as u64, stage: StageState::Top, ..r },
                );
            }
        },
    }
}

} // verus!
