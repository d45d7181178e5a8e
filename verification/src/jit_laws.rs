//! Laws of the trust protocol: compiled code changes the machine only once it has agreed with the
//! interpreter often enough, and never again once it has disagreed.
use vstd::prelude::*;
#[allow(unused_imports)]
use crate::cpu::CpuState;
#[allow(unused_imports)]
use crate::jit::{
    block_applied, block_checked, block_compared, block_ordered, count_bump, count_next, count_slot,
    divergence_at, fresh_jit, jit_after, jit_choice, pages_match, region_applied, region_checked,
    region_compared, region_ordered, with_key, BlockOrderState, BlockState, JitState, OutcomeState,
    RegionOrderState, RegionPendingState, JIT_TRUST_K,
};

verus! {

// ----- counting -----

/// How often a key has been counted.
pub open spec fn count_of(l: Seq<(Seq<u8>, u32)>, k: Seq<u8>) -> u32 {
    let i = count_slot(l, k, 0);
    if i < l.len() {
        l[i].1
    } else {
        0
    }
}

proof fn lemma_slot(l: Seq<(Seq<u8>, u32)>, k: Seq<u8>, i: int)
    requires
        0 <= i <= l.len(),
    ensures
        i <= count_slot(l, k, i) <= l.len(),
        count_slot(l, k, i) < l.len() ==> l[count_slot(l, k, i)].0 == k,
        forall|a: int| i <= a < count_slot(l, k, i) ==> (#[trigger] l[a]).0 != k,
    decreases l.len() - i,
{
    if i < l.len() && l[i].0 != k {
        lemma_slot(l, k, i + 1);
    }
}

proof fn lemma_slot_is(l: Seq<(Seq<u8>, u32)>, k: Seq<u8>, i: int, at: int)
    requires
        0 <= i <= at <= l.len(),
        forall|a: int| i <= a < at ==> (#[trigger] l[a]).0 != k,
        at < l.len() ==> l[at].0 == k,
    ensures
        count_slot(l, k, i) == at,
    decreases at - i,
{
    if i < at {
        lemma_slot_is(l, k, i + 1, at);
    }
}

/// Counting a key adds one to its count, up to the largest number, and changes no other.
pub proof fn law_count(l: Seq<(Seq<u8>, u32)>, k: Seq<u8>, other: Seq<u8>)
    ensures
        count_of(count_bump(l, k), k) == count_next(l, k),
        count_next(l, k) == (if count_of(l, k) == u32::MAX { u32::MAX as int } else { count_of(l, k) + 1 }),
        other != k ==> count_of(count_bump(l, k), other) == count_of(l, other),
{
    let i = count_slot(l, k, 0);
    let m = count_bump(l, k);
    lemma_slot(l, k, 0);
    lemma_slot_is(m, k, 0, i);
    if other != k {
        let o = count_slot(l, other, 0);
        lemma_slot(l, other, 0);
        if o < l.len() {
            assert(m[o] == l[o]);
            lemma_slot_is(m, other, 0, o);
        } else {
            assert forall|a: int| 0 <= a < m.len() implies (#[trigger] m[a]).0 != other by {
                if a < l.len() && a != i {
                    assert(m[a] == l[a]);
                }
            }
            lemma_slot_is(m, other, 0, m.len() as int);
        }
    }
}

proof fn lemma_with_key(l: Seq<Seq<u8>>, k: Seq<u8>)
    ensures
        with_key(l, k).contains(k),
        forall|x: Seq<u8>| l.contains(x) ==> #[trigger] with_key(l, k).contains(x),
        forall|x: Seq<u8>| #[trigger] with_key(l, k).contains(x) ==> x == k || l.contains(x),
{
    let m = with_key(l, k);
    if !l.contains(k) {
        assert(m[l.len() as int] == k);
        assert forall|x: Seq<u8>| l.contains(x) implies #[trigger] m.contains(x) by {
            let i = choose|i: int| 0 <= i < l.len() && l[i] == x;
            assert(m[i] == x);
        }
        assert forall|x: Seq<u8>| #[trigger] m.contains(x) implies x == k || l.contains(x) by {
            let i = choose|i: int| 0 <= i < m.len() && m[i] == x;
            if i < l.len() {
                assert(l[i] == x);
            }
        }
    }
}

// ----- trust -----

/// Whatever is trusted has agreed with the interpreter often enough.
pub open spec fn earned(j: JitState) -> bool {
    forall|k: Seq<u8>|
        #[trigger] j.trusted.contains(k) ==> count_of(j.count, k) >= JIT_TRUST_K || count_of(j.region_count, k)
            >= JIT_TRUST_K
}

/// Nothing that was refused has been forgotten.
pub open spec fn still_refused(j: JitState, t: JitState) -> bool {
    forall|k: Seq<u8>| j.refused.contains(k) ==> #[trigger] t.refused.contains(k)
}

/// A comparison keeps trust earned and refusals standing.
pub proof fn law_block_check(s: CpuState, j: JitState)
    requires
        earned(j),
    ensures
        earned(block_checked(s, j)),
        still_refused(j, block_checked(s, j)),
{
    reveal(block_checked);
    if let Some(p) = j.pending {
        let t = block_compared(s, j, p);
        lemma_with_key(j.trusted, p.key);
        lemma_with_key(j.refused, p.key);
        assert forall|k: Seq<u8>| #[trigger] t.trusted.contains(k) implies count_of(t.count, k)
            >= JIT_TRUST_K || count_of(t.region_count, k) >= JIT_TRUST_K by {
            law_count(j.count, p.key, k);
        }
    }
}

/// The same for regions.
pub proof fn law_region_check(s: CpuState, j: JitState)
    requires
        earned(j),
    ensures
        earned(region_checked(s, j)),
        still_refused(j, region_checked(s, j)),
{
    reveal(region_checked);
    if let Some(p) = j.region {
        let t = region_compared(s, j, p);
        lemma_with_key(j.trusted, p.key);
        lemma_with_key(j.refused, p.key);
        assert forall|k: Seq<u8>| #[trigger] t.trusted.contains(k) implies count_of(t.count, k)
            >= JIT_TRUST_K || count_of(t.region_count, k) >= JIT_TRUST_K by {
            law_count(j.region_count, p.key, k);
        }
    }
}

/// Trust is earned at the start, and stays earned whatever the compiler does: through orders,
/// results, choices and instructions. No refusal is ever taken back.
pub proof fn law_trust_is_earned(
    s: CpuState,
    j: JitState,
    off: u64,
    room: u64,
    ops: u64,
    len: u64,
    shift: bool,
    block: BlockOrderState,
    compiled: bool,
    region: RegionOrderState,
    res: Option<OutcomeState>,
    from: u64,
    handled: bool,
)
    requires
        earned(j),
    ensures
        earned(fresh_jit()),
        earned(block_ordered(s, j, off, room, ops, len, shift).0),
        earned(block_applied(s, j, block, compiled, res).1),
        earned(region_applied(s, j, region, res).1),
        earned(jit_choice(s, j).1),
        earned(jit_after(s, j, from, handled)),
        still_refused(j, block_ordered(s, j, off, room, ops, len, shift).0),
        still_refused(j, block_applied(s, j, block, compiled, res).1),
        still_refused(j, region_applied(s, j, region, res).1),
        still_refused(j, jit_choice(s, j).1),
        still_refused(j, jit_after(s, j, from, handled)),
{
    reveal(jit_choice);
    let j1 = JitState { at_entry: crate::jit::transferred(from, s.rip), ..j };
    assert(earned(j1)) by {
        assert(j1.trusted == j.trusted);
    }
    law_block_check(s, j1);
    let j2 = if j1.on {
        block_checked(s, j1)
    } else {
        j1
    };
    law_region_check(s, j2);
}

/// Code that is not trusted does not change the machine: its result waits for the interpreter.
pub proof fn law_untrusted_runs_dry(
    s: CpuState,
    j: JitState,
    block: BlockOrderState,
    compiled: bool,
    region: RegionOrderState,
    res: Option<OutcomeState>,
)
    ensures
        !j.trusted.contains(block.key) ==> block_applied(s, j, block, compiled, res).0 == s
            && !block_applied(s, j, block, compiled, res).2,
        !j.trusted.contains(region.key) || j.notrust ==> region_applied(s, j, region, res).0 == s
            && !region_applied(s, j, region, res).2,
{
}

/// Refused code is not run: a block is handed out for counting only and never committed, and a
/// region is not handed out.
pub proof fn law_refused_is_not_run(
    s: CpuState,
    j: JitState,
    off: u64,
    room: u64,
    ops: u64,
    len: u64,
    shift: bool,
    l: Seq<BlockState>,
    compiled: bool,
    res: Option<OutcomeState>,
)
    ensures
        block_ordered(s, j, off, room, ops, len, shift).1 matches Some(o) ==> (j.refused.contains(o.key)
            ==> block_applied(s, j, o, compiled, res).0 == s),
        region_ordered(s, j, off, room, l) matches Some(o) ==> !j.refused.contains(o.key),
{
}

/// A disagreement refuses the code: the next comparison of a result that differs from the
/// interpreter's registers, flags or memory puts its key among the refused.
pub proof fn law_disagreement_refuses(s: CpuState, j: JitState)
    ensures
        j.pending matches Some(p) ==> s.rip == p.end && !(s.r == p.regs && s.rflags == p.rflags
            && pages_match(s.ram, p.dirty)) ==> block_checked(s, j).refused.contains(p.key)
            && block_checked(s, j).trusted == j.trusted,
        j.region matches Some(p) ==> s.rip == p.exit && !(s.r == p.regs && s.rflags == p.rflags
            && pages_match(s.ram, p.dirty)) ==> region_checked(s, j).refused.contains(p.key)
            && region_checked(s, j).trusted == j.trusted,
{
    reveal(block_checked);
    reveal(region_checked);
    if let Some(p) = j.pending {
        lemma_with_key(j.refused, p.key);
    }
    if let Some(p) = j.region {
        lemma_with_key(j.refused, p.key);
    }
}

/// A region's result differs from the interpreter's, and the blocks were kept to show it.
pub open spec fn diverges(s: CpuState, p: RegionPendingState) -> bool {
    p.blocks.len() > 0 && !(s.r == p.regs && s.rflags == p.rflags && pages_match(s.ram, p.dirty))
}

/// A sequence of comparisons, each of a region with the state at its exit.
pub open spec fn all_compared(j: JitState, l: Seq<(CpuState, RegionPendingState)>) -> JitState
    decreases l.len(),
{
    if l.len() == 0 {
        j
    } else {
        region_compared(l.last().0, all_compared(j, l.drop_last()), l.last().1)
    }
}

/// Of several divergences the first is kept, until it is drained; without one, none is found.
pub proof fn law_first_divergence(j: JitState, l: Seq<(CpuState, RegionPendingState)>, i: int)
    requires
        j.divergence is None,
        0 <= i <= l.len(),
        forall|k: int| 0 <= k < i ==> !diverges((#[trigger] l[k]).0, l[k].1),
        i < l.len() ==> diverges(l[i].0, l[i].1),
    ensures
        i == l.len() ==> all_compared(j, l).divergence is None,
        i < l.len() ==> all_compared(j, l).divergence == Some(divergence_at(l[i].0, l[i].1)),
    decreases l.len(),
{
    if l.len() > 0 {
        let w = l.drop_last();
        if i == l.len() {
            assert(!diverges(l[i - 1].0, l[i - 1].1));
            assert forall|k: int| 0 <= k < i - 1 implies !diverges((#[trigger] w[k]).0, w[k].1) by {
                assert(!diverges(l[k].0, l[k].1));
            }
            law_first_divergence(j, w, i - 1);
        } else {
            assert forall|k: int| 0 <= k < i implies !diverges((#[trigger] w[k]).0, w[k].1) by {
                assert(!diverges(l[k].0, l[k].1));
            }
            law_first_divergence(j, w, i);
        }
    }
}

/// Nothing that the compiler does puts another divergence in the place of one that was found.
pub proof fn law_divergence_kept(
    s: CpuState,
    j: JitState,
    off: u64,
    room: u64,
    ops: u64,
    len: u64,
    shift: bool,
    block: BlockOrderState,
    compiled: bool,
    region: RegionOrderState,
    res: Option<OutcomeState>,
    from: u64,
    handled: bool,
)
    requires
        j.divergence is Some,
    ensures
        block_ordered(s, j, off, room, ops, len, shift).0.divergence == j.divergence,
        block_applied(s, j, block, compiled, res).1.divergence == j.divergence,
        region_applied(s, j, region, res).1.divergence == j.divergence,
        jit_choice(s, j).1.divergence == j.divergence,
        jit_after(s, j, from, handled).divergence == j.divergence,
{
    reveal(jit_choice);
    reveal(block_checked);
    reveal(region_checked);
}

} // verus!
