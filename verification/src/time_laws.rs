//! The jump to the next deadline is what waiting for it would have been.
use vstd::prelude::*;
#[allow(unused_imports)]
use crate::lapic::LapicState;
#[allow(unused_imports)]
use crate::pit::{ch2_jump, Pit};
#[allow(unused_imports)]
use crate::sys::{apic_left, pit_left, sys_count, sys_idle, sys_step, ticks_left, SysState};

verus! {

/// So many steps of time.
pub open spec fn steps(s: SysState, n: nat) -> SysState
    decreases n,
{
    if n == 0 {
        s
    } else {
        sys_step(steps(s, (n - 1) as nat))
    }
}

/// So many counts of the timers.
pub open spec fn counts(s: SysState, n: nat) -> SysState
    decreases n,
{
    if n == 0 {
        s
    } else {
        sys_count(counts(s, (n - 1) as nat))
    }
}

proof fn lemma_steps_add(s: SysState, a: nat, b: nat)
    ensures
        steps(s, a + b) == steps(steps(s, a), b),
    decreases b,
{
    if b > 0 {
        lemma_steps_add(s, a, (b - 1) as nat);
    }
}

/// Fewer than seventeen steps: the timers count once if a sixteenth step is among them.
proof fn lemma_some_steps(s: SysState, j: nat)
    requires
        j <= 16,
    ensures
        steps(s, j) == ({
            let c = if s.tdiv % 16 + j >= 16 {
                sys_count(s)
            } else {
                s
            };
            SysState {
                tsc: s.tsc.wrapping_add((128 * j) as u64),
                tdiv: s.tdiv.wrapping_add(j as u64),
                ..c
            }
        }),
    decreases j,
{
    if j > 0 {
        lemma_some_steps(s, (j - 1) as nat);
    }
}

/// Sixteen steps for every count.
proof fn lemma_steps_counts(s: SysState, n: nat)
    requires
        n <= 0x1_0000_0000,
    ensures
        steps(s, 16 * n) == (SysState {
            tsc: s.tsc.wrapping_add((2048 * n) as u64),
            tdiv: s.tdiv.wrapping_add((16 * n) as u64),
            ..counts(s, n)
        }),
    decreases n,
{
    if n > 0 {
        let m = (n - 1) as nat;
        lemma_steps_counts(s, m);
        lemma_steps_add(s, 16 * m, 16);
        lemma_some_steps(steps(s, 16 * m), 16);
    }
}

/// The timers after `k` counts, none of which reaches the deadline.
proof fn lemma_counts_before(s: SysState, n: u64, k: nat)
    requires
        ticks_left(s) == Some(n),
        k < n,
    ensures
        counts(s, k) == (SysState {
            pit: match pit_left(s) {
                Some(left) if k > 0 => Pit { counter: (left - k) as u32, ..ch2_jump(s.pit, k as u64) },
                _ => ch2_jump(s.pit, k as u64),
            },
            lapic: match apic_left(s) {
                Some(left) if k > 0 => LapicState { current_count: (left - k) as u32, ..s.lapic },
                _ => s.lapic,
            },
            ..s
        }),
    decreases k,
{
    if k > 0 {
        lemma_counts_before(s, n, (k - 1) as nat);
    }
}

/// Waiting for the nearest deadline by jumping to it leaves the platform exactly as stepping to it
/// does: the same clocks, the same counters, the same interrupts latched.
pub proof fn law_idle_is_waiting(s: SysState)
    ensures
        ticks_left(s) matches Some(n) ==> sys_idle(s) == steps(s, (16 * n) as nat),
        ticks_left(s) is None ==> sys_idle(s) == s,
{
    if let Some(n) = ticks_left(s) {
        assert(0 < n <= 0xffff_ffff);
        lemma_steps_counts(s, n as nat);
        lemma_counts_before(s, n, (n - 1) as nat);
        let c = counts(s, (n - 1) as nat);
        assert(sys_idle(s).pit == sys_count(c).pit);
        assert(sys_idle(s).lapic == sys_count(c).lapic);
        assert(sys_idle(s).pic == sys_count(c).pic);
    }
}

} // verus!
