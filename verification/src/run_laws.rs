//! Laws of whole runs: what a budget cut in two comes to, what a halted machine does, and what a
//! region compiler that is not trusted changes.
use vstd::prelude::*;
#[allow(unused_imports)]
use crate::cpu::{runnable, CpuState, Halt, TLB_SETS};
#[allow(unused_imports)]
use crate::decode::{prefix_bound, prefixes, FlowState, FpAskState, Prefix};
#[allow(unused_imports)]
use crate::fpu_ops::{do_state, do_x87, state_read, x87_memory, x87_register};
#[allow(unused_imports)]
use crate::frame_laws::{frame_delivered, law_completion_keeps, law_step_keeps};
#[allow(unused_imports)]
use crate::interrupt::interrupted;
#[allow(unused_imports)]
use crate::jit::{
    block_checked, code_window, jit_choice, region_checked, BlockState, ChoiceState, JitState,
    OutcomeState,
};
#[allow(unused_imports)]
use crate::memory_laws::{lemma_frame, lemma_walk_alike, lemma_walk_offset};
#[allow(unused_imports)]
use crate::mmu::{
    fetch_byte, law_translate_keeps, lemma_set_bounds, page_walk, tlb_fill, tlb_hit,
    translate_access,
};
#[allow(unused_imports)]
use crate::profile::ProfState;
#[allow(unused_imports)]
use crate::run::{
    at_stage, begun, ended, found_region, ran, ran_region, retired, sampled, EventState, RunState,
    StageState,
};
#[allow(unused_imports)]
use crate::snapshot::enc_snapshot;
#[allow(unused_imports)]
use crate::sse_ops::{
    do_arith, do_convert, do_convert_int2, do_convert_int4, do_flag_compare, do_from_int,
    do_mask_compare, do_shift_imm, do_to_int,
};
#[allow(unused_imports)]
use crate::step::{
    completed, decoding, executed, map_0f, map_0f_8_b, map_0f_c_f, map_0f_low, map_0f_mid, map_5_7,
    map_8_9, map_a_b, map_c_d, map_e_f, no_prefix, one_step, opcode_fetched, ops_counted, saved_of,
    StepState,
};

verus! {

/// A host: the floating-point arithmetic it does, and what it finds of regions and gets from running
/// them.
#[verifier::ext_equal]
pub ghost struct HostModel {
    pub fp: spec_fn(FpAskState) -> Seq<u64>,
    pub regions: spec_fn(CpuState) -> (Seq<BlockState>, Option<OutcomeState>),
}

/// A run driven through at most `n` turns of the host: arithmetic, regions, and turns of a network
/// that is silent. It ends at anything else the host has to do.
pub open spec fn driven(s: CpuState, j: JitState, r: RunState, h: HostModel, n: nat) -> (
    CpuState,
    JitState,
    RunState,
    EventState,
)
    decreases n,
{
    let (t, j1, r1, e) = ran(s, j, r);
    if n == 0 {
        (t, j1, r1, e)
    } else {
        match e {
            EventState::Pump => driven(t, j1, r1, h, (n - 1) as nat),
            EventState::Fp(a, v) => driven(
                completed(t, a, v, (h.fp)(a)),
                j1,
                r1,
                h,
                (n - 1) as nat,
            ),
            EventState::Discover(_) => {
                let (l, res) = (h.regions)(t);
                let (r2, o) = found_region(t, j1, r1, l);
                match o {
                    Some(_) => {
                        let (u, j2, r3) = ran_region(t, j1, r2, res);
                        driven(u, j2, r3, h, (n - 1) as nat)
                    },
                    None => driven(t, j1, r2, h, (n - 1) as nat),
                }
            },
            _ => (t, j1, r1, e),
        }
    }
}

/// A run with a budget, driven to its end: an iteration takes the host no more than three turns.
pub open spec fn whole_run(s: CpuState, j: JitState, max: u64, h: HostModel) -> (
    CpuState,
    JitState,
    RunState,
    EventState,
) {
    driven(s, j, RunState { done: 0, max, stage: StageState::Top }, h, 3 * max as nat)
}

/// `k` iterations of the interpreter alone.
pub open spec fn interpreted(s: CpuState, h: HostModel, k: nat) -> (CpuState, EventState)
    decreases k,
{
    if s.sys.outbox.len() > 0 {
        (s, EventState::Devices)
    } else if k == 0 {
        (s, EventState::Halt(Halt::OutOfBudget))
    } else {
        let (t, on) = begun(s);
        if !on {
            (t, EventState::Halt(Halt::Halted))
        } else {
            let (u, f) = one_step(t);
            match f {
                StepState::Done => interpreted(retired(u, false), h, (k - 1) as nat),
                StepState::Stopped(x) => (u, EventState::Halt(x)),
                StepState::Ask(a, v) => interpreted(
                    retired(completed(u, a, v, (h.fp)(a)), false),
                    h,
                    (k - 1) as nat,
                ),
            }
        }
    }
}

/// The compilers are off.
pub open spec fn compilers_off(j: JitState) -> bool {
    !j.on && !j.region_on
}

/// No compiled code is committed: blocks are off, and regions are off or not trusted.
pub open spec fn nothing_committed(j: JitState) -> bool {
    !j.on && (j.region_on ==> j.notrust)
}

/// The switches of the compilers are the same, and nothing was committed in between.
pub open spec fn same_switches(j: JitState, k: JitState) -> bool {
    j.on == k.on && j.region_on == k.region_on && j.notrust == k.notrust && j.committed
        == k.committed
}

proof fn lemma_driven_on(
    s: CpuState,
    j: JitState,
    r: RunState,
    t: CpuState,
    k: JitState,
    q: RunState,
    h: HostModel,
    n: nat,
)
    requires
        ran(s, j, r) == ran(t, k, q),
    ensures
        driven(s, j, r, h, n) == driven(t, k, q, h, n),
{
}

/// A look at the code may fill the translation cache, and changes nothing else: no fault stays.
pub proof fn law_look_is_a_probe(s: CpuState)
    requires
        runnable(s),
    ensures
        code_window(s).0 == (CpuState { tlb: code_window(s).0.tlb, ..s }),
{
    reveal(code_window);
    law_translate_keeps(s, s.rip, false, false);
    if s.fault is None {
        reveal(translate_access);
    }
}

/// The privilege does not decide whether an address can be read.
proof fn lemma_read_walk(s: CpuState, v: u64)
    ensures
        page_walk(s, v, false, true) is Ok == page_walk(s, v, false, false) is Ok,
        page_walk(s, v, false, true) is Ok ==> page_walk(s, v, false, true) == page_walk(
            s,
            v,
            false,
            false,
        ),
{
    reveal(page_walk);
}

/// What an instruction begins with is the translation that a look at its code makes.
proof fn lemma_look_again(s: CpuState)
    requires
        s.tlb.len() == TLB_SETS,
    ensures
        ({
            let t = code_window(s).0;
            let user = s.cpl == 3;
            &&& t == (CpuState { tlb: t.tlb, ..s })
            &&& translate_access(decoding(t), s.rip, false, user) == translate_access(
                decoding(s),
                s.rip,
                false,
                user,
            )
        }),
{
    reveal(code_window);
    reveal(translate_access);
    let v = s.rip;
    let user = s.cpl == 3;
    let t = code_window(s).0;
    let a = decoding(s);
    let b = decoding(t);
    lemma_set_bounds(v);
    lemma_read_walk(s, v);
    lemma_walk_alike(s, a, v, false, user);
    if s.fault is None && !tlb_hit(s, v, false) {
        if let Ok(pa) = page_walk(s, v, false, false) {
            lemma_walk_offset(s, v, false, false);
            lemma_frame(0, pa);
            lemma_walk_alike(s, b, v, false, user);
            assert(t == tlb_fill(s, v, pa, false));
            assert(tlb_fill(a, v, pa, false) =~= b);
            assert(tlb_fill(b, v, pa, false).tlb =~= b.tlb);
            assert(tlb_fill(b, v, pa, false) =~= b);
        }
    }
}

/// A look at the code is a part of the instruction there: the instruction after the look does what it
/// does without, to the machine, its caches and its counters.
pub proof fn law_look_changes_nothing(s: CpuState, d: ProfState)
    requires
        s.tlb.len() == TLB_SETS,
    ensures
        one_step(code_window(s).0) == one_step(s),
        ops_counted(d, code_window(s).0) == ops_counted(d, s),
{
    reveal(one_step);
    reveal(ops_counted);
    reveal(opcode_fetched);
    lemma_look_again(s);
    let t = code_window(s).0;
    assert(saved_of(t) == saved_of(s));
    assert(prefixes(decoding(t), no_prefix(s.rip), prefix_bound()) == prefixes(
        decoding(s),
        no_prefix(s.rip),
        prefix_bound(),
    ));
}

proof fn lemma_switches(s: CpuState, j: JitState, from: u64)
    ensures
        same_switches(j, jit_choice(s, j).1),
        same_switches(j, ended(s, j, from, false)),
{
    reveal(jit_choice);
    reveal(ended);
    reveal(block_checked);
    reveal(region_checked);
}

/// From the choice of an iteration to its instruction: without committed code the machine is not
/// touched, and at most one turn of the host is spent.
proof fn lemma_chosen(s: CpuState, j: JitState, r: RunState, h: HostModel, n: nat) -> (x: (
    JitState,
    nat,
))
    requires
        r.stage is Choose,
        n >= 1,
        nothing_committed(j),
        j.region_on ==> s.tlb.len() == TLB_SETS,
    ensures
        same_switches(j, x.0),
        n - 1 <= x.1 <= n,
        driven(s, j, r, h, n) == driven(s, x.0, at_stage(r, StageState::Exec(s.rip)), h, x.1),
{
    reveal(jit_choice);
    let (t, j1, c) = jit_choice(s, j);
    lemma_switches(s, j, 0);
    assert(t == s || t == code_window(s).0);
    if j.region_on {
        lemma_look_again(s);
    }
    let re = at_stage(r, StageState::Exec(s.rip));
    match c {
        ChoiceState::Interpret => {
            if j.region_on {
                law_look_changes_nothing(s, j1.prof);
            }
            assert(ran(t, j1, re) == ran(s, j1, re));
            lemma_driven_on(s, j, r, s, j1, re, h, n);
            (j1, n)
        },
        ChoiceState::Block(_, _) => (j1, n),
        ChoiceState::Region(off, room) => {
            let rr = at_stage(r, StageState::Region(s.rip, off, room));
            let (l, res) = (h.regions)(t);
            let (r2, o) = found_region(t, j1, rr, l);
            let m = (n - 1) as nat;
            let j2 = if o is Some {
                ran_region(t, j1, r2, res).1
            } else {
                j1
            };
            if o is Some {
                let (u, _, r3) = ran_region(t, j1, r2, res);
                assert(u == t);
                assert(r3 == re);
            } else {
                assert(r2 == re);
            }
            assert(driven(s, j, r, h, n) == driven(t, j2, re, h, m));
            law_look_changes_nothing(s, j2.prof);
            assert(ran(t, j2, re) == ran(s, j2, re));
            lemma_driven_on(t, j2, re, s, j2, re, h, m);
            (j2, m)
        },
    }
}

/// A run in which no compiled code is committed is one of the interpreter alone.
proof fn lemma_driven(s: CpuState, j: JitState, r: RunState, h: HostModel, n: nat)
    requires
        r.stage is Top,
        r.done <= r.max,
        n >= 3 * (r.max - r.done),
        nothing_committed(j),
        j.region_on ==> s.tlb.len() == TLB_SETS,
    ensures
        driven(s, j, r, h, n).0 == interpreted(s, h, (r.max - r.done) as nat).0,
        driven(s, j, r, h, n).3 == interpreted(s, h, (r.max - r.done) as nat).1,
        same_switches(j, driven(s, j, r, h, n).1),
    decreases r.max - r.done,
{
    let k = (r.max - r.done) as nat;
    if s.sys.outbox.len() == 0 && k > 0 {
        let rb = at_stage(r, StageState::Begin);
        let n1 = if ran(s, j, r).3 is Pump && ran(s, j, r) == (s, j, rb, EventState::Pump) {
            (n - 1) as nat
        } else {
            lemma_driven_on(s, j, r, s, j, rb, h, n);
            n
        };
        assert(driven(s, j, r, h, n) == driven(s, j, rb, h, n1));
        let (t, on) = begun(s);
        lemma_begun_keeps(s);
        let j1 = JitState { prof: sampled(j.prof, s, r.done), ..j };
        if on {
            law_step_keeps(t);
            let rc = at_stage(r, StageState::Choose);
            lemma_driven_on(s, j, rb, t, j1, rc, h, n1);
            let (j2, n2) = lemma_chosen(t, j1, rc, h, n1);
            let re = at_stage(r, StageState::Exec(t.rip));
            assert(at_stage(rc, StageState::Exec(t.rip)) == re);
            let (u, f) = one_step(t);
            let j3 = JitState { prof: ops_counted(j2.prof, t), ..j2 };
            let ra = at_stage(r, StageState::After(t.rip, false));
            let rn = RunState { done: (r.done + 1) as u64, max: r.max, stage: StageState::Top };
            match f {
                StepState::Done => {
                    lemma_driven_on(t, j2, re, u, j3, ra, h, n2);
                    let v = retired(u, false);
                    let j4 = ended(v, j3, t.rip, false);
                    lemma_switches(v, j3, t.rip);
                    lemma_driven_on(u, j3, ra, v, j4, rn, h, n2);
                    lemma_driven(v, j4, rn, h, n2);
                },
                StepState::Stopped(_) => {},
                StepState::Ask(a, w) => {
                    let c = completed(u, a, w, (h.fp)(a));
                    law_completion_keeps(u, a, w, (h.fp)(a));
                    let n3 = (n2 - 1) as nat;
                    assert(driven(t, j2, re, h, n2) == driven(c, j3, ra, h, n3));
                    let v = retired(c, false);
                    let j4 = ended(v, j3, t.rip, false);
                    lemma_switches(v, j3, t.rip);
                    lemma_driven_on(c, j3, ra, v, j4, rn, h, n3);
                    lemma_driven(v, j4, rn, h, n3);
                },
            }
        }
    }
}

/// A run with the compilers off is one of the interpreter alone.
pub proof fn law_interpreted(s: CpuState, j: JitState, max: u64, h: HostModel)
    requires
        compilers_off(j),
    ensures
        whole_run(s, j, max, h).0 == interpreted(s, h, max as nat).0,
        whole_run(s, j, max, h).3 == interpreted(s, h, max as nat).1,
{
    lemma_driven(s, j, RunState { done: 0, max, stage: StageState::Top }, h, 3 * max as nat);
}

/// The end of an instruction is not the end of a budget.
pub open spec fn no_budget_end(f: FlowState) -> bool {
    f matches FlowState::Stop(x) ==> x is Undefined || x is Halted
}

proof fn lemma_x87_ends(s: CpuState, p: Prefix, op: u8)
    ensures
        no_budget_end(do_x87(s, p, op).1),
        no_budget_end(do_state(s, p).1),
{
    reveal(x87_memory);
    reveal(x87_register);
    reveal(state_read);
}

proof fn lemma_sse_ends(s: CpuState, p: Prefix, op: u8)
    ensures
        no_budget_end(do_shift_imm(s, p, op).1),
        no_budget_end(do_arith(s, p, op).1),
        no_budget_end(do_mask_compare(s, p).1),
        no_budget_end(do_flag_compare(s, p).1),
        no_budget_end(do_from_int(s, p).1),
        no_budget_end(do_to_int(s, p, op).1),
        no_budget_end(do_convert(s, p).1),
        no_budget_end(do_convert_int4(s, p).1),
        no_budget_end(do_convert_int2(s, p).1),
{
}

proof fn lemma_0f_ends(s: CpuState, p: Prefix)
    ensures
        no_budget_end(map_0f(s, p).1),
{
    reveal(map_0f);
    reveal(map_0f_low);
    reveal(map_0f_mid);
    reveal(map_0f_8_b);
    reveal(map_0f_c_f);
    let (s1, op) = fetch_byte(s);
    lemma_x87_ends(s1, p, op);
    lemma_sse_ends(s1, p, op);
}

proof fn lemma_ends(s: CpuState, p: Prefix, op: u8)
    ensures
        no_budget_end(executed(s, p, op).1),
{
    reveal(executed);
    reveal(map_5_7);
    reveal(map_8_9);
    reveal(map_a_b);
    reveal(map_c_d);
    reveal(map_e_f);
    lemma_0f_ends(s, p);
    lemma_x87_ends(s, p, op);
}

/// A step never ends for want of budget.
pub proof fn law_step_ends(s: CpuState)
    ensures
        one_step(s).1 matches StepState::Stopped(x) ==> x is Undefined || x is Halted,
{
    reveal(one_step);
    let (s1, (p, op)) = opcode_fetched(s);
    lemma_ends(s1, p, op);
}

proof fn lemma_cut(s: CpuState, h: HostModel, a: nat, b: nat)
    requires
        interpreted(s, h, a).1 == EventState::Halt(Halt::OutOfBudget),
    ensures
        interpreted(s, h, a + b) == interpreted(interpreted(s, h, a).0, h, b),
    decreases a,
{
    if a > 0 && s.sys.outbox.len() == 0 {
        let (t, on) = begun(s);
        if on {
            law_step_ends(t);
            match one_step(t) {
                (u, StepState::Done) => {
                    lemma_cut(retired(u, false), h, (a - 1) as nat, b);
                },
                (u, StepState::Ask(x, v)) => {
                    lemma_cut(retired(completed(u, x, v, (h.fp)(x)), false), h, (a - 1) as nat, b);
                },
                _ => {},
            }
        }
    }
}

/// Running a budget out and then running another comes to the same machine, and the same end, as
/// running both at once.
pub proof fn law_budget_cut(
    s: CpuState,
    j: JitState,
    k: JitState,
    l: JitState,
    a: u64,
    b: u64,
    h: HostModel,
)
    requires
        compilers_off(j),
        compilers_off(k),
        compilers_off(l),
        a + b <= u64::MAX,
        whole_run(s, j, a, h).3 == EventState::Halt(Halt::OutOfBudget),
    ensures
        ({
            let once = whole_run(s, k, (a + b) as u64, h);
            let twice = whole_run(whole_run(s, j, a, h).0, l, b, h);
            &&& once.0 == twice.0
            &&& once.3 == twice.3
            &&& enc_snapshot(once.0) == enc_snapshot(twice.0)
        }),
{
    law_interpreted(s, j, a, h);
    law_interpreted(s, k, (a + b) as u64, h);
    law_interpreted(whole_run(s, j, a, h).0, l, b, h);
    lemma_cut(s, h, a as nat, b as nat);
}

/// A halted machine stays halted: every run with a budget ends at once, nothing but the clocks moves,
/// and it is halted still.
pub proof fn law_halted_stays(s: CpuState, j: JitState, max: u64, h: HostModel)
    requires
        s.platform,
        s.sys.halted,
        s.sys.outbox.len() == 0,
        max > 0,
    ensures
        ({
            let (t, _, _, e) = whole_run(s, j, max, h);
            &&& e == EventState::Halt(Halt::Halted)
            &&& t == (CpuState { sys: t.sys, ..s })
            &&& t.sys.halted
            &&& t.sys.outbox == s.sys.outbox
        }),
{
    reveal(begun);
    let r = RunState { done: 0, max, stage: StageState::Top };
    let rb = at_stage(r, StageState::Begin);
    let n = 3 * max as nat;
    if ran(s, j, r) == (s, j, rb, EventState::Pump) {
        assert(driven(s, j, r, h, n) == driven(s, j, rb, h, (n - 1) as nat));
    } else {
        lemma_driven_on(s, j, r, s, j, rb, h, n);
    }
}

/// A region compiler that is not trusted changes nothing: a run under it, with whatever the host finds
/// and gets, commits no region, and comes to the same machine and the same end as a run without.
pub proof fn law_untrusted_regions(s: CpuState, j: JitState, k: JitState, max: u64, h: HostModel)
    requires
        s.tlb.len() == TLB_SETS,
        !j.on,
        j.notrust,
        compilers_off(k),
    ensures
        whole_run(s, j, max, h).0 == whole_run(s, k, max, h).0,
        whole_run(s, j, max, h).3 == whole_run(s, k, max, h).3,
        whole_run(s, j, max, h).1.committed == j.committed,
        whole_run(s, j, max, h).1.notrust,
{
    lemma_driven(s, j, RunState { done: 0, max, stage: StageState::Top }, h, 3 * max as nat);
    law_interpreted(s, k, max, h);
}

proof fn lemma_begun_keeps(s: CpuState)
    ensures
        begun(s).0.insns == s.insns,
        s.tlb.len() == TLB_SETS ==> begun(s).0.tlb.len() == TLB_SETS,
{
    broadcast use frame_delivered;

    reveal(begun);
    reveal(interrupted);
}

/// The instructions of a run are counted one by one: when the budget has run out, as many have been
/// retired as it allowed.
pub proof fn law_insns_counted(s: CpuState, h: HostModel, k: nat)
    requires
        interpreted(s, h, k).1 == EventState::Halt(Halt::OutOfBudget),
        s.insns + k <= u64::MAX,
    ensures
        interpreted(s, h, k).0.insns == s.insns + k,
    decreases k,
{
    if k > 0 && s.sys.outbox.len() == 0 {
        let (t, on) = begun(s);
        lemma_begun_keeps(s);
        if on {
            law_step_ends(t);
            law_step_keeps(t);
            match one_step(t) {
                (u, StepState::Done) => {
                    law_insns_counted(retired(u, false), h, (k - 1) as nat);
                },
                (u, StepState::Ask(x, v)) => {
                    law_completion_keeps(u, x, v, (h.fp)(x));
                    law_insns_counted(
                        retired(completed(u, x, v, (h.fp)(x)), false),
                        h,
                        (k - 1) as nat,
                    );
                },
                _ => {},
            }
        }
    }
}

} // verus!
