//! What the drained counters say of a run: the exceptions, code pages, opcodes and blocks that went
//! into them.
use vstd::prelude::*;
#[allow(unused_imports)]
use vstd::seq_lib::group_to_multiset_ensures;
#[allow(unused_imports)]
use crate::cpu::CpuState;
#[allow(unused_imports)]
use crate::mmu::fetch_byte;
#[allow(unused_imports)]
use crate::profile::{
    drained, entry_counted, hist_bump, hist_count, hist_distinct, hist_slot, law_hist_bump,
    lemma_hist_slot, op_drained, page_sampled, trace_push, user_sampled, zero_ops, ExcRecord,
    ProfState, EXC_TRACE_MAX,
};
#[allow(unused_imports)]
use crate::step::{opcode_fetched, ops_counted};

verus! {

// ----- the exception trace -----

/// A trace after a sequence of exceptions.
pub open spec fn all_pushed(t: Seq<ExcRecord>, e: Seq<ExcRecord>) -> Seq<ExcRecord>
    decreases e.len(),
{
    if e.len() == 0 {
        t
    } else {
        trace_push(all_pushed(t, e.drop_last()), e.last())
    }
}

/// The last `n` of a sequence, or all of it.
pub open spec fn last_of<T>(s: Seq<T>, n: int) -> Seq<T> {
    if s.len() <= n {
        s
    } else {
        s.subrange(s.len() - n, s.len() as int)
    }
}

/// The trace holds the latest exceptions, oldest first: what it held and what came, cut to its
/// bound.
pub proof fn law_trace_latest(t: Seq<ExcRecord>, e: Seq<ExcRecord>)
    requires
        t.len() <= EXC_TRACE_MAX,
    ensures
        all_pushed(t, e) == last_of(t + e, EXC_TRACE_MAX as int),
        t.len() == 0 ==> all_pushed(t, e) == last_of(e, EXC_TRACE_MAX as int),
    decreases e.len(),
{
    assert(t.len() == 0 ==> t + e =~= e);
    if e.len() > 0 {
        law_trace_latest(t, e.drop_last());
        assert((t + e.drop_last()).push(e.last()) =~= t + e);
        assert(all_pushed(t, e) =~= last_of(t + e, EXC_TRACE_MAX as int));
    } else {
        assert(t + e =~= t);
    }
}

// ----- tallies -----

/// A histogram after a sequence of keys.
pub open spec fn tallied(h: Seq<(u64, u64)>, keys: Seq<u64>) -> Seq<(u64, u64)>
    decreases keys.len(),
{
    if keys.len() == 0 {
        h
    } else {
        hist_bump(tallied(h, keys.drop_last()), keys.last())
    }
}

/// How often a key occurs.
pub open spec fn occurs(keys: Seq<u64>, key: u64) -> nat
    decreases keys.len(),
{
    if keys.len() == 0 {
        0
    } else {
        occurs(keys.drop_last(), key) + if keys.last() == key {
            1nat
        } else {
            0nat
        }
    }
}

/// The counts of a histogram added up.
pub open spec fn total(h: Seq<(u64, u64)>) -> int
    decreases h.len(),
{
    if h.len() == 0 {
        0
    } else {
        total(h.drop_last()) + h.last().1
    }
}

/// The entries of a histogram are those of a sequence of keys: each key once, with the number of its
/// occurrences, and the numbers add up to the length of the sequence.
pub open spec fn tally_of(r: Seq<(u64, u64)>, keys: Seq<u64>) -> bool {
    &&& forall|i: int, j: int| 0 <= i < j < r.len() ==> r[i].0 != r[j].0
    &&& forall|i: int| 0 <= i < r.len() ==> (#[trigger] r[i]).1 == occurs(keys, r[i].0) && r[i].1 > 0
    &&& forall|i: int|
        0 <= i < keys.len() ==> exists|k: int| 0 <= k < r.len() && #[trigger] r[k].0 == #[trigger] keys[i]
    &&& total(r) == keys.len()
}

proof fn lemma_occurs(keys: Seq<u64>, key: u64)
    ensures
        occurs(keys, key) <= keys.len(),
        occurs(keys, key) > 0 <==> keys.contains(key),
    decreases keys.len(),
{
    if keys.len() > 0 {
        let w = keys.drop_last();
        lemma_occurs(w, key);
        if w.contains(key) {
            let i = choose|i: int| 0 <= i < w.len() && w[i] == key;
            assert(keys[i] == key);
        }
        if keys.last() == key {
            assert(keys[keys.len() - 1] == key);
        }
        if keys.contains(key) && keys.last() != key {
            let i = choose|i: int| 0 <= i < keys.len() && keys[i] == key;
            assert(w[i] == key);
        }
    }
}

proof fn lemma_tallied(keys: Seq<u64>, key: u64)
    requires
        keys.len() <= u64::MAX,
    ensures
        hist_distinct(tallied(Seq::empty(), keys)),
        hist_count(tallied(Seq::empty(), keys), key) == occurs(keys, key),
    decreases keys.len(),
{
    if keys.len() > 0 {
        let w = keys.drop_last();
        lemma_tallied(w, key);
        lemma_tallied(w, keys.last());
        lemma_occurs(w, key);
        lemma_occurs(w, keys.last());
        law_hist_bump(tallied(Seq::empty(), w), keys.last(), key);
    }
}

proof fn lemma_total_update(h: Seq<(u64, u64)>, i: int, e: (u64, u64))
    requires
        0 <= i < h.len(),
    ensures
        total(h.update(i, e)) == total(h) - h[i].1 + e.1,
    decreases h.len(),
{
    let g = h.update(i, e);
    if i < h.len() - 1 {
        assert(g.drop_last() =~= h.drop_last().update(i, e));
        lemma_total_update(h.drop_last(), i, e);
    } else {
        assert(g.drop_last() =~= h.drop_last());
    }
}

proof fn lemma_total_remove(h: Seq<(u64, u64)>, i: int)
    requires
        0 <= i < h.len(),
    ensures
        total(h.remove(i)) == total(h) - h[i].1,
    decreases h.len(),
{
    if i < h.len() - 1 {
        assert(h.remove(i).drop_last() =~= h.drop_last().remove(i));
        lemma_total_remove(h.drop_last(), i);
    } else {
        assert(h.remove(i) =~= h.drop_last());
    }
}

proof fn lemma_total_alike(r: Seq<(u64, u64)>, h: Seq<(u64, u64)>)
    requires
        r.to_multiset() == h.to_multiset(),
    ensures
        total(r) == total(h),
    decreases h.len(),
{
    broadcast use group_to_multiset_ensures;

    vstd::seq_lib::to_multiset_len(r);
    vstd::seq_lib::to_multiset_len(h);
    assert(r.len() == h.len());
    if h.len() > 0 {
        let e = h.last();
        assert(h.contains(e));
        assert(h.to_multiset().count(e) > 0);
        assert(r.contains(e));
        let i = choose|i: int| 0 <= i < r.len() && r[i] == e;
        vstd::seq_lib::to_multiset_remove(r, i);
        vstd::seq_lib::to_multiset_remove(h, h.len() - 1);
        assert(h.remove(h.len() - 1) =~= h.drop_last());
        lemma_total_remove(r, i);
        lemma_total_alike(r.remove(i), h.drop_last());
    }
}

proof fn lemma_total_tallied(keys: Seq<u64>)
    requires
        keys.len() <= u64::MAX,
    ensures
        total(tallied(Seq::empty(), keys)) == keys.len(),
    decreases keys.len(),
{
    if keys.len() > 0 {
        let w = keys.drop_last();
        let h = tallied(Seq::empty(), w);
        let k = keys.last();
        lemma_total_tallied(w);
        lemma_tallied(w, k);
        lemma_occurs(w, k);
        lemma_hist_slot(h, k, 0);
        let i = hist_slot(h, k, 0);
        if i < h.len() {
            lemma_total_update(h, i, (k, h[i].1.wrapping_add(1)));
        } else {
            assert(h.push((k, 1u64)).drop_last() =~= h);
        }
    }
}

proof fn lemma_tallied_keys(keys: Seq<u64>)
    requires
        keys.len() <= u64::MAX,
    ensures
        forall|i: int|
            0 <= i < tallied(Seq::empty(), keys).len() ==> keys.contains(
                (#[trigger] tallied(Seq::empty(), keys)[i]).0,
            ),
    decreases keys.len(),
{
    if keys.len() > 0 {
        let w = keys.drop_last();
        let g = tallied(Seq::empty(), w);
        let h = tallied(Seq::empty(), keys);
        lemma_tallied_keys(w);
        lemma_hist_slot(g, keys.last(), 0);
        assert forall|i: int| 0 <= i < h.len() implies keys.contains((#[trigger] h[i]).0) by {
            if i < g.len() && h[i].0 == g[i].0 {
                assert(w.contains(g[i].0));
                let k = choose|k: int| 0 <= k < w.len() && w[k] == g[i].0;
                assert(keys[k] == h[i].0);
            } else {
                assert(keys[keys.len() - 1] == h[i].0);
            }
        }
    }
}

/// What is drained of a histogram that counted a sequence of keys is the tally of that sequence.
pub proof fn law_drained_tally(r: Seq<(u64, u64)>, keys: Seq<u64>)
    requires
        keys.len() <= u64::MAX,
        drained(r, tallied(Seq::empty(), keys)),
    ensures
        tally_of(r, keys),
{
    broadcast use group_to_multiset_ensures;

    let h = tallied(Seq::empty(), keys);
    lemma_tallied(keys, 0);
    lemma_tallied_keys(keys);
    lemma_total_tallied(keys);
    lemma_total_alike(r, h);
    assert(h.no_duplicates());
    h.lemma_multiset_has_no_duplicates();
    r.lemma_multiset_has_no_duplicates_conv();
    assert forall|i: int| 0 <= i < r.len() implies h.contains(#[trigger] r[i]) by {
        assert(r.contains(r[i]));
        assert(r.to_multiset().count(r[i]) > 0);
    }
    assert forall|i: int| 0 <= i < r.len() implies (#[trigger] r[i]).1 == occurs(keys, r[i].0)
        && r[i].1 > 0 by {
        let k = choose|k: int| 0 <= k < h.len() && h[k] == r[i];
        lemma_hist_slot(h, r[i].0, 0);
        lemma_tallied(keys, r[i].0);
        lemma_occurs(keys, r[i].0);
        assert(keys.contains(h[k].0));
        let at = hist_slot(h, r[i].0, 0);
        assert(at <= k);
        assert(h[at].0 == h[k].0);
    }
    assert forall|i: int, j: int| 0 <= i < j < r.len() implies r[i].0 != r[j].0 by {
        if r[i].0 == r[j].0 {
            assert(r[i].1 == r[j].1);
            assert(r[i] == r[j]);
        }
    }
    assert forall|i: int| 0 <= i < keys.len() implies exists|k: int|
        0 <= k < r.len() && #[trigger] r[k].0 == #[trigger] keys[i] by {
        let key = keys[i];
        assert(keys.contains(key));
        lemma_occurs(keys, key);
        lemma_tallied(keys, key);
        lemma_hist_slot(h, key, 0);
        let at = hist_slot(h, key, 0);
        assert(h.contains(h[at]));
        assert(h.to_multiset().count(h[at]) > 0);
        assert(r.contains(h[at]));
        let k = choose|k: int| 0 <= k < r.len() && r[k] == h[at];
        assert(r[k].0 == key);
    }
}

// ----- code pages -----

/// The counters after samples at a sequence of addresses.
pub open spec fn pages_sampled(d: ProfState, rips: Seq<u64>) -> ProfState
    decreases rips.len(),
{
    if rips.len() == 0 {
        d
    } else {
        page_sampled(pages_sampled(d, rips.drop_last()), rips.last())
    }
}

/// The code pages of a sequence of addresses.
pub open spec fn code_pages(rips: Seq<u64>) -> Seq<u64> {
    Seq::new(rips.len(), |i: int| rips[i] & !0xfff)
}

proof fn lemma_pages_sampled(d: ProfState, rips: Seq<u64>)
    ensures
        pages_sampled(d, rips) == (ProfState {
            hotprof: tallied(d.hotprof, code_pages(rips)),
            ..d
        }),
    decreases rips.len(),
{
    if rips.len() > 0 {
        lemma_pages_sampled(d, rips.drop_last());
        assert(code_pages(rips).drop_last() =~= code_pages(rips.drop_last()));
    }
}

/// The drained code pages are the tally of the pages of the samples since the last drain.
pub proof fn law_hot_pages(d: ProfState, rips: Seq<u64>, r: Seq<(u64, u64)>)
    requires
        d.hotprof.len() == 0,
        rips.len() <= u64::MAX,
        drained(r, pages_sampled(d, rips).hotprof),
    ensures
        tally_of(r, code_pages(rips)),
{
    lemma_pages_sampled(d, rips);
    assert(d.hotprof =~= Seq::empty());
    law_drained_tally(r, code_pages(rips));
}

/// The counters after user-mode instructions at a sequence of addresses.
pub open spec fn all_user_sampled(d: ProfState, rips: Seq<u64>) -> ProfState
    decreases rips.len(),
{
    if rips.len() == 0 {
        d
    } else {
        user_sampled(all_user_sampled(d, rips.drop_last()), rips.last())
    }
}

proof fn lemma_user_sampled(d: ProfState, rips: Seq<u64>)
    requires
        d.user_insns + rips.len() <= u64::MAX,
    ensures
        all_user_sampled(d, rips) == (ProfState {
            user_insns: (d.user_insns + rips.len()) as u64,
            user_pages: tallied(d.user_pages, code_pages(rips)),
            ..d
        }),
    decreases rips.len(),
{
    if rips.len() > 0 {
        lemma_user_sampled(d, rips.drop_last());
        assert(code_pages(rips).drop_last() =~= code_pages(rips.drop_last()));
    }
}

/// The user-mode instructions since the last reset are counted one by one, and the drained pages are
/// the tally of theirs.
pub proof fn law_user_pages(d: ProfState, rips: Seq<u64>, r: Seq<(u64, u64)>)
    requires
        d.user_insns == 0,
        d.user_pages.len() == 0,
        rips.len() <= u64::MAX,
        drained(r, all_user_sampled(d, rips).user_pages),
    ensures
        all_user_sampled(d, rips).user_insns == rips.len(),
        tally_of(r, code_pages(rips)),
{
    lemma_user_sampled(d, rips);
    assert(d.user_pages =~= Seq::empty());
    law_drained_tally(r, code_pages(rips));
}

// ----- blocks -----

/// The counters after the entry of a sequence of blocks.
pub open spec fn blocks_entered(d: ProfState, targets: Seq<u64>) -> ProfState
    decreases targets.len(),
{
    if targets.len() == 0 {
        d
    } else {
        entry_counted(blocks_entered(d, targets.drop_last()), targets.last())
    }
}

/// Every sixty-fourth of a sequence.
pub open spec fn every_64th(targets: Seq<u64>) -> Seq<u64> {
    Seq::new((targets.len() / 64) as nat, |k: int| targets[64 * k + 63])
}

proof fn lemma_every_64(n: u64)
    by (bit_vector)
    ensures
        (n & 0x3f == 0) == (n % 64 == 0),
{
}

proof fn lemma_blocks_entered(d: ProfState, targets: Seq<u64>)
    requires
        d.block_entries == 0,
        d.blockprof.len() == 0,
        targets.len() <= u64::MAX,
    ensures
        blocks_entered(d, targets) == (ProfState {
            block_entries: targets.len() as u64,
            blockprof: tallied(Seq::empty(), every_64th(targets)),
            ..d
        }),
    decreases targets.len(),
{
    if targets.len() > 0 {
        let w = targets.drop_last();
        lemma_blocks_entered(d, w);
        lemma_every_64(targets.len() as u64);
        if targets.len() % 64 == 0 {
            assert(every_64th(targets).drop_last() =~= every_64th(w));
            assert(every_64th(targets).last() == targets.last());
        } else {
            assert(every_64th(targets) =~= every_64th(w));
        }
    } else {
        assert(d.blockprof =~= Seq::empty());
        assert(every_64th(targets) =~= Seq::empty());
    }
}

/// The block profile counts every entry since the last drain, and its samples are the tally of every
/// sixty-fourth.
pub proof fn law_block_samples(d: ProfState, targets: Seq<u64>, r: Seq<(u64, u64)>)
    requires
        d.block_entries == 0,
        d.blockprof.len() == 0,
        targets.len() <= u64::MAX,
        drained(r, blocks_entered(d, targets).blockprof),
    ensures
        blocks_entered(d, targets).block_entries == targets.len(),
        tally_of(r, every_64th(targets)),
        total(r) == targets.len() / 64,
{
    lemma_blocks_entered(d, targets);
    law_drained_tally(r, every_64th(targets));
}

// ----- opcodes -----

/// The counters after steps from a sequence of states.
pub open spec fn all_counted(d: ProfState, states: Seq<CpuState>) -> ProfState
    decreases states.len(),
{
    if states.len() == 0 {
        d
    } else {
        ops_counted(all_counted(d, states.drop_last()), states.last())
    }
}

/// Words added up.
pub open spec fn sum(h: Seq<u64>) -> int
    decreases h.len(),
{
    if h.len() == 0 {
        0
    } else {
        sum(h.drop_last()) + h.last()
    }
}

/// The counts of drained opcodes added up.
pub open spec fn op_total(r: Seq<(u8, u64)>) -> int
    decreases r.len(),
{
    if r.len() == 0 {
        0
    } else {
        op_total(r.drop_last()) + r.last().1
    }
}

proof fn lemma_sum_update(h: Seq<u64>, i: int, v: u64)
    requires
        0 <= i < h.len(),
    ensures
        sum(h.update(i, v)) == sum(h) - h[i] + v,
    decreases h.len(),
{
    let g = h.update(i, v);
    if i < h.len() - 1 {
        assert(g.drop_last() =~= h.drop_last().update(i, v));
        lemma_sum_update(h.drop_last(), i, v);
    } else {
        assert(g.drop_last() =~= h.drop_last());
    }
}

proof fn lemma_sum_bound(h: Seq<u64>, i: int)
    requires
        0 <= i < h.len(),
    ensures
        h[i] <= sum(h),
        sum(h.drop_last()) >= 0,
    decreases h.len(),
{
    reveal_with_fuel(sum, 2);
    if h.len() > 1 {
        lemma_sum_bound(h.drop_last(), if i < h.len() - 1 { i } else { 0 });
    }
}

proof fn lemma_sum_zero(h: Seq<u64>)
    requires
        forall|i: int| 0 <= i < h.len() ==> h[i] == 0,
    ensures
        sum(h) == 0,
    decreases h.len(),
{
    if h.len() > 0 {
        lemma_sum_zero(h.drop_last());
    }
}

proof fn lemma_op_total(r: Seq<(u8, u64)>, h: Seq<u64>)
    requires
        h.len() == 256,
        forall|i: int, j: int| 0 <= i < j < r.len() ==> r[i].0 != r[j].0,
        forall|i: int| 0 <= i < r.len() ==> (#[trigger] r[i]).1 == h[r[i].0 as int],
        forall|op: int|
            0 <= op < 256 && #[trigger] h[op] > 0 ==> exists|i: int|
                0 <= i < r.len() && #[trigger] r[i].0 == op,
    ensures
        op_total(r) == sum(h),
    decreases r.len(),
{
    if r.len() == 0 {
        assert forall|i: int| 0 <= i < h.len() implies h[i] == 0 by {}
        lemma_sum_zero(h);
    } else {
        let w = r.drop_last();
        let e = r.last();
        let g = h.update(e.0 as int, 0);
        lemma_sum_update(h, e.0 as int, 0);
        assert(r[r.len() - 1].1 == h[e.0 as int]);
        assert forall|op: int| 0 <= op < 256 && #[trigger] g[op] > 0 implies exists|i: int|
            0 <= i < w.len() && #[trigger] w[i].0 == op by {
            assert(h[op] > 0);
            let i = choose|i: int| 0 <= i < r.len() && #[trigger] r[i].0 == op;
            assert(w[i].0 == op);
        }
        assert forall|i: int| 0 <= i < w.len() implies (#[trigger] w[i]).1 == g[w[i].0 as int] by {
            assert(r[i].1 == h[r[i].0 as int]);
            assert(r[i].0 != r[r.len() - 1].0);
        }
        lemma_op_total(w, g);
    }
}

proof fn lemma_drained_ops(r: Seq<(u8, u64)>, h: Seq<u64>)
    requires
        h.len() == 256,
        op_drained(r, h),
    ensures
        op_total(r) == sum(h),
{
    assert forall|i: int, j: int| 0 <= i < j < r.len() implies r[i].0 != r[j].0 by {
        assert(r[i].1 == h[r[i].0 as int]);
        assert(r[j].1 == h[r[j].0 as int]);
    }
    assert forall|op: int| 0 <= op < 256 && #[trigger] h[op] > 0 implies exists|i: int|
        0 <= i < r.len() && #[trigger] r[i].0 == op by {
        let i = choose|i: int| 0 <= i < r.len() && #[trigger] r[i] == (op as u8, h[op]);
        assert(r[i].0 == op);
    }
    lemma_op_total(r, h);
}

/// The opcode of a state's next instruction can be fetched.
pub open spec fn fetchable(s: CpuState) -> bool {
    opcode_fetched(s).0.fault is None
}

proof fn lemma_all_counted(d: ProfState, states: Seq<CpuState>)
    requires
        d.ophist_on,
        d.ophist == zero_ops(),
        d.ophist_0f == zero_ops(),
        states.len() <= u64::MAX,
        forall|i: int| 0 <= i < states.len() ==> fetchable(#[trigger] states[i]),
    ensures
        ({
            let e = all_counted(d, states);
            &&& e.ophist_on
            &&& e.ophist.len() == 256
            &&& e.ophist_0f.len() == 256
            &&& sum(e.ophist) == states.len()
            &&& sum(e.ophist_0f) == e.ophist[0x0f]
        }),
    decreases states.len(),
{
    reveal(ops_counted);
    if states.len() > 0 {
        let w = states.drop_last();
        let s = states.last();
        assert forall|i: int| 0 <= i < w.len() implies fetchable(#[trigger] w[i]) by {
            assert(fetchable(states[i]));
        }
        lemma_all_counted(d, w);
        assert(fetchable(states[states.len() - 1]));
        let e = all_counted(d, w);
        let (s1, (_, op)) = opcode_fetched(s);
        lemma_sum_bound(e.ophist, op as int);
        lemma_sum_update(e.ophist, op as int, e.ophist[op as int].wrapping_add(1));
        if op == 0x0f {
            let b = fetch_byte(s1).1;
            lemma_sum_bound(e.ophist_0f, b as int);
            lemma_sum_update(e.ophist_0f, b as int, e.ophist_0f[b as int].wrapping_add(1));
        }
    } else {
        lemma_sum_zero(zero_ops());
    }
}

/// After the opcode counters are reset and steps are made whose opcodes can be fetched, the drained
/// counts add up to the number of the steps, and those of the bytes after `0F` to the count of `0F`.
pub proof fn law_opcode_counts(
    d: ProfState,
    states: Seq<CpuState>,
    r: Seq<(u8, u64)>,
    r0f: Seq<(u8, u64)>,
)
    requires
        d.ophist_on,
        d.ophist == zero_ops(),
        d.ophist_0f == zero_ops(),
        states.len() <= u64::MAX,
        forall|i: int| 0 <= i < states.len() ==> fetchable(#[trigger] states[i]),
        op_drained(r, all_counted(d, states).ophist),
        op_drained(r0f, all_counted(d, states).ophist_0f),
    ensures
        op_total(r) == states.len(),
        op_total(r0f) == all_counted(d, states).ophist[0x0f],
        forall|i: int| 0 <= i < r.len() && (#[trigger] r[i]).0 == 0x0f ==> op_total(r0f) == r[i].1,
        (forall|i: int| 0 <= i < r.len() ==> (#[trigger] r[i]).0 != 0x0f) ==> op_total(r0f) == 0,
{
    let e = all_counted(d, states);
    lemma_all_counted(d, states);
    lemma_drained_ops(r, e.ophist);
    lemma_drained_ops(r0f, e.ophist_0f);
    if e.ophist[0x0f] > 0 {
        let i = choose|i: int| 0 <= i < r.len() && #[trigger] r[i] == (0x0fu8, e.ophist[0x0f]);
        assert(r[i].0 == 0x0f);
    }
}

} // verus!
