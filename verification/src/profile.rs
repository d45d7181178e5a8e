//! Instrumentation of the core: the exception trace, the code-page and opcode histograms, and the
//! block profile. None of it feeds back into what the machine computes.
use vstd::prelude::*;
#[allow(unused_imports)]
use vstd::seq_lib::group_to_multiset_ensures;

verus! {

/// The most exceptions the trace keeps.
pub const EXC_TRACE_MAX: usize = 1024;

/// A delivered processor exception.
#[derive(Clone, Copy, PartialEq, Eq, Structural, Debug)]
pub struct ExcRecord {
    pub vector: u8,
    pub error: u64,
    pub rip: u64,
    pub cr2: u64,
    pub handler: u64,
    pub cpl: u8,
    pub rsp: u64,
}

/// What a machine records of itself for a developer.
pub struct Dev {
    /// The most recent exceptions, oldest first.
    pub exc_trace: Vec<ExcRecord>,
}

/// The contents of a [`Dev`].
#[verifier::ext_equal]
pub ghost struct DevState {
    pub exc_trace: Seq<ExcRecord>,
}

impl View for Dev {
    type V = DevState;

    open spec fn view(&self) -> DevState {
        DevState { exc_trace: self.exc_trace@ }
    }
}

/// The counters of a run.
pub struct Prof {
    /// Samples per code page.
    pub hotprof: Vec<(u64, u64)>,
    /// Instructions retired in user mode.
    pub user_insns: u64,
    /// User-mode instructions per code page.
    pub user_pages: Vec<(u64, u64)>,
    /// Opcode counting is on.
    pub ophist_on: bool,
    /// Executed instructions per primary opcode byte.
    pub ophist: [u64; 256],
    /// Executed instructions per second byte after `0F`.
    pub ophist_0f: [u64; 256],
    /// Block profiling is on.
    pub blockprof_on: bool,
    /// Basic blocks entered.
    pub block_entries: u64,
    /// Samples per block start.
    pub blockprof: Vec<(u64, u64)>,
}

/// The contents of a [`Prof`].
#[verifier::ext_equal]
pub ghost struct ProfState {
    pub hotprof: Seq<(u64, u64)>,
    pub user_insns: u64,
    pub user_pages: Seq<(u64, u64)>,
    pub ophist_on: bool,
    pub ophist: Seq<u64>,
    pub ophist_0f: Seq<u64>,
    pub blockprof_on: bool,
    pub block_entries: u64,
    pub blockprof: Seq<(u64, u64)>,
}

impl View for Prof {
    type V = ProfState;

    open spec fn view(&self) -> ProfState {
        ProfState {
            hotprof: self.hotprof@,
            user_insns: self.user_insns,
            user_pages: self.user_pages@,
            ophist_on: self.ophist_on,
            ophist: self.ophist@,
            ophist_0f: self.ophist_0f@,
            blockprof_on: self.blockprof_on,
            block_entries: self.block_entries,
            blockprof: self.blockprof@,
        }
    }
}

// ----- histograms -----

/// The position of `key` at or after `i`, or the length.
pub open spec fn hist_slot(h: Seq<(u64, u64)>, key: u64, i: int) -> int
    decreases h.len() - i,
{
    if i >= h.len() || h[i].0 == key {
        i
    } else {
        hist_slot(h, key, i + 1)
    }
}

/// The count of `key`; a key never seen counts zero.
pub open spec fn hist_count(h: Seq<(u64, u64)>, key: u64) -> u64 {
    let i = hist_slot(h, key, 0);
    if i < h.len() {
        h[i].1
    } else {
        0
    }
}

/// One more of `key`.
pub open spec fn hist_bump(h: Seq<(u64, u64)>, key: u64) -> Seq<(u64, u64)> {
    let i = hist_slot(h, key, 0);
    if i < h.len() {
        h.update(i, (key, h[i].1.wrapping_add(1)))
    } else {
        h.push((key, 1))
    }
}

/// No key occurs twice.
pub open spec fn hist_distinct(h: Seq<(u64, u64)>) -> bool {
    forall|i: int, j: int| 0 <= i < j < h.len() ==> h[i].0 != h[j].0
}

/// Counts never rise along the sequence.
pub open spec fn hottest_first(h: Seq<(u64, u64)>) -> bool {
    forall|i: int, j: int| 0 <= i < j < h.len() ==> h[i].1 >= h[j].1
}

/// The entries of `r` are those of `h`, hottest first. Entries with equal counts come in some order.
pub open spec fn drained(r: Seq<(u64, u64)>, h: Seq<(u64, u64)>) -> bool {
    hottest_first(r) && r.to_multiset() == h.to_multiset()
}

/// The opcode counts, hottest first and equal counts in opcode order, with zero counts left out.
pub open spec fn op_drained(r: Seq<(u8, u64)>, h: Seq<u64>) -> bool {
    &&& forall|i: int, j: int|
        0 <= i < j < r.len() ==> r[i].1 > r[j].1 || (r[i].1 == r[j].1 && r[i].0 < r[j].0)
    &&& forall|i: int| 0 <= i < r.len() ==> (#[trigger] r[i]).1 > 0 && r[i].1 == h[r[i].0 as int]
    &&& forall|op: int|
        0 <= op < 256 && #[trigger] h[op] > 0 ==> exists|i: int|
            0 <= i < r.len() && #[trigger] r[i] == (op as u8, h[op])
}

/// All counts zero.
pub open spec fn zero_ops() -> Seq<u64> {
    Seq::new(256, |i: int| 0u64)
}

/// An exception goes to the end of the trace, which keeps the latest.
pub open spec fn trace_push(t: Seq<ExcRecord>, e: ExcRecord) -> Seq<ExcRecord> {
    let n = t.push(e);
    if n.len() > EXC_TRACE_MAX {
        n.subrange(n.len() - EXC_TRACE_MAX, n.len() as int)
    } else {
        n
    }
}

pub proof fn lemma_hist_slot(h: Seq<(u64, u64)>, key: u64, i: int)
    requires
        0 <= i <= h.len(),
    ensures
        i <= hist_slot(h, key, i) <= h.len(),
        forall|j: int| i <= j < hist_slot(h, key, i) ==> (#[trigger] h[j]).0 != key,
        hist_slot(h, key, i) < h.len() ==> h[hist_slot(h, key, i)].0 == key,
    decreases h.len() - i,
{
    if i < h.len() && h[i].0 != key {
        lemma_hist_slot(h, key, i + 1);
    }
}

proof fn lemma_hist_slot_is(h: Seq<(u64, u64)>, key: u64, i: int, at: int)
    requires
        0 <= i <= at <= h.len(),
        forall|j: int| i <= j < at ==> (#[trigger] h[j]).0 != key,
        at < h.len() ==> h[at].0 == key,
    ensures
        hist_slot(h, key, i) == at,
    decreases at - i,
{
    if i < at {
        lemma_hist_slot_is(h, key, i + 1, at);
    }
}

/// Counting a key raises its count by one, leaves every other count alone, and no key comes to occur
/// twice.
pub proof fn law_hist_bump(h: Seq<(u64, u64)>, key: u64, other: u64)
    requires
        hist_distinct(h),
    ensures
        hist_distinct(hist_bump(h, key)),
        hist_count(hist_bump(h, key), key) == hist_count(h, key).wrapping_add(1),
        other != key ==> hist_count(hist_bump(h, key), other) == hist_count(h, other),
{
    let i = hist_slot(h, key, 0);
    let g = hist_bump(h, key);
    lemma_hist_slot(h, key, 0);
    lemma_hist_slot_is(g, key, 0, i);
    if other != key {
        lemma_hist_slot(h, other, 0);
        let k = hist_slot(h, other, 0);
        if i < h.len() {
            lemma_hist_slot_is(g, other, 0, k);
        } else if k < h.len() {
            lemma_hist_slot_is(g, other, 0, k);
        } else {
            lemma_hist_slot_is(g, other, 0, g.len() as int);
        }
    }
}

fn hist_add(h: &mut Vec<(u64, u64)>, key: u64)
    ensures
        final(h)@ == hist_bump(old(h)@, key),
{
    let mut i: usize = 0;
    while i < h.len() && h[i].0 != key
        invariant
            0 <= i <= h@.len(),
            h@ == old(h)@,
            hist_slot(h@, key, 0) == hist_slot(h@, key, i as int),
        decreases h.len() - i,
    {
        i = i + 1;
    }
    if i < h.len() {
        let c: u64 = h[i].1.wrapping_add(1);
        h[i] = (key, c);
    } else {
        h.push((key, 1));
    }
}

/// Sort by count, hottest first.
fn hottest(h: Vec<(u64, u64)>) -> (r: Vec<(u64, u64)>)
    ensures
        drained(r@, h@),
{
    broadcast use group_to_multiset_ensures;

    let mut r: Vec<(u64, u64)> = Vec::new();
    let mut i: usize = 0;
    assert(h@.take(0) =~= r@);
    while i < h.len()
        invariant
            0 <= i <= h@.len(),
            hottest_first(r@),
            r@.to_multiset() == h@.take(i as int).to_multiset(),
        decreases h.len() - i,
    {
        let e: (u64, u64) = h[i];
        let mut k: usize = 0;
        while k < r.len() && r[k].1 >= e.1
            invariant
                0 <= k <= r@.len(),
                hottest_first(r@),
                forall|j: int| 0 <= j < k ==> (#[trigger] r@[j]).1 >= e.1,
            decreases r.len() - k,
        {
            k = k + 1;
        }
        let ghost r0 = r@;
        r.insert(k, e);
        proof {
            assert(h@.take(i + 1) =~= h@.take(i as int).push(e));
            assert(r@ == r0.insert(k as int, e));
            vstd::seq_lib::to_multiset_insert(r0, k as int, e);
            vstd::seq_lib::to_multiset_build(h@.take(i as int), e);
            assert forall|a: int, b: int| 0 <= a < b < r@.len() implies r@[a].1 >= r@[b].1 by {
                if a == k {
                    assert(r0[b - 1].1 <= r0[k as int].1);
                }
            }
        }
        i = i + 1;
    }
    assert(h@.take(h@.len() as int) =~= h@);
    r
}

/// The counted opcodes, hottest first.
fn hottest_ops(h: &[u64; 256]) -> (r: Vec<(u8, u64)>)
    ensures
        op_drained(r@, h@),
{
    let mut r: Vec<(u8, u64)> = Vec::new();
    let mut op: usize = 0;
    while op < 256
        invariant
            0 <= op <= 256,
            h@.len() == 256,
            forall|i: int, j: int|
                0 <= i < j < r@.len() ==> r@[i].1 > r@[j].1 || (r@[i].1 == r@[j].1 && r@[i].0
                    < r@[j].0),
            forall|i: int|
                0 <= i < r@.len() ==> (#[trigger] r@[i]).1 > 0 && r@[i].1 == h@[r@[i].0 as int]
                    && r@[i].0 < op,
            forall|o: int|
                0 <= o < op && #[trigger] h@[o] > 0 ==> exists|i: int|
                    0 <= i < r@.len() && #[trigger] r@[i] == (o as u8, h@[o]),
        decreases 256 - op,
    {
        let c: u64 = h[op];
        if c > 0 {
            let mut k: usize = 0;
            while k < r.len() && r[k].1 >= c
                invariant
                    0 <= k <= r@.len(),
                    forall|j: int| 0 <= j < k ==> (#[trigger] r@[j]).1 >= c,
                decreases r.len() - k,
            {
                k = k + 1;
            }
            let ghost r0 = r@;
            r.insert(k, (op as u8, c));
            proof {
                assert forall|o: int| 0 <= o < op + 1 && #[trigger] h@[o] > 0 implies exists|i: int|
                    0 <= i < r@.len() && #[trigger] r@[i] == (o as u8, h@[o]) by {
                    if o < op {
                        let i = choose|i: int| 0 <= i < r0.len() && #[trigger] r0[i] == (o as u8, h@[o]);
                        let i2 = if i < k { i } else { i + 1 };
                        assert(r@[i2] == (o as u8, h@[o]));
                    } else {
                        assert(r@[k as int] == (o as u8, h@[o]));
                    }
                }
                assert forall|i: int, j: int| 0 <= i < j < r@.len() implies r@[i].1 > r@[j].1 || (
                r@[i].1 == r@[j].1 && r@[i].0 < r@[j].0) by {
                    let i0 = if i < k { i } else { i - 1 };
                    let j0 = if j < k { j } else { j - 1 };
                    if i == k {
                        assert(r@[j] == r0[j - 1]);
                        assert(r0[k as int].1 < c);
                        if j - 1 > k {
                            assert(r0[k as int].1 >= r0[j - 1].1);
                        }
                    } else if j == k {
                        assert(r@[i] == r0[i]);
                    } else {
                        assert(r@[i] == r0[i0] && r@[j] == r0[j0]);
                    }
                }
                assert forall|i: int| 0 <= i < r@.len() implies (#[trigger] r@[i]).1 > 0 && r@[i].1
                    == h@[r@[i].0 as int] && r@[i].0 < op + 1 by {
                    if i != k {
                        let i0 = if i < k { i } else { i - 1 };
                        assert(r@[i] == r0[i0]);
                    }
                }
            }
        }
        op = op + 1;
    }
    r
}

/// Nothing recorded yet.
pub open spec fn fresh_dev() -> DevState {
    DevState { exc_trace: Seq::empty() }
}

/// Nothing counted yet.
pub open spec fn fresh_prof() -> ProfState {
    ProfState {
        hotprof: Seq::empty(),
        user_insns: 0,
        user_pages: Seq::empty(),
        ophist_on: false,
        ophist: zero_ops(),
        ophist_0f: zero_ops(),
        blockprof_on: false,
        block_entries: 0,
        blockprof: Seq::empty(),
    }
}

impl Dev {
    /// Nothing recorded yet.
    pub fn new() -> (d: Dev)
        ensures
            d@ == fresh_dev(),
    {
        Dev { exc_trace: Vec::new() }
    }

    /// Record a delivered exception, dropping the oldest beyond the bound.
    pub fn exc_trace_push(&mut self, e: ExcRecord)
        ensures
            final(self)@ == (DevState { exc_trace: trace_push(old(self)@.exc_trace, e) }),
    {
        self.exc_trace.push(e);
        let n: usize = self.exc_trace.len();
        if n > EXC_TRACE_MAX {
            let mut kept: Vec<ExcRecord> = Vec::new();
            let ghost t = self.exc_trace@;
            let from: usize = n - EXC_TRACE_MAX;
            let mut i: usize = from;
            while i < n
                invariant
                    from <= i <= n,
                    n == t.len(),
                    self.exc_trace@ == t,
                    kept@ == t.subrange(from as int, i as int),
                decreases n - i,
            {
                kept.push(self.exc_trace[i]);
                assert(kept@ =~= t.subrange(from as int, i + 1));
                i = i + 1;
            }
            self.exc_trace = kept;
        }
    }
}

impl Prof {
    /// Nothing counted yet.
    pub fn new() -> (d: Prof)
        ensures
            d@ == fresh_prof(),
    {
        let a: [u64; 256] = [0u64; 256];
        let b: [u64; 256] = [0u64; 256];
        assert(a@ =~= zero_ops() && b@ =~= zero_ops());
        Prof {
            hotprof: Vec::new(),
            user_insns: 0,
            user_pages: Vec::new(),
            ophist_on: false,
            ophist: a,
            ophist_0f: b,
            blockprof_on: false,
            block_entries: 0,
            blockprof: Vec::new(),
        }
    }

    /// Sample the code page of `rip`.
    pub fn hotprof_sample(&mut self, rip: u64)
        ensures
            final(self)@ == page_sampled(old(self)@, rip),
    {
        hist_add(&mut self.hotprof, rip & !0xfff);
    }

    /// Count a user-mode instruction.
    pub fn user_sample(&mut self, rip: u64)
        ensures
            final(self)@ == user_sampled(old(self)@, rip),
    {
        self.user_insns = self.user_insns.wrapping_add(1);
        hist_add(&mut self.user_pages, rip & !0xfff);
    }

    /// Enter a basic block: every sixty-fourth entry is sampled.
    pub fn blockprof_entry(&mut self, target: u64)
        ensures
            final(self)@ == entry_counted(old(self)@, target),
    {
        self.block_entries = self.block_entries.wrapping_add(1);
        if self.block_entries & 0x3f == 0 {
            hist_add(&mut self.blockprof, target);
        }
    }

    /// Count a primary opcode, when counting is on.
    pub fn count_op(&mut self, op: u8)
        ensures
            final(self)@ == count_primary(old(self)@, op),
    {
        if self.ophist_on {
            let c: u64 = self.ophist[op as usize].wrapping_add(1);
            self.ophist[op as usize] = c;
        }
    }

    /// Count the byte after `0F`, when counting is on.
    pub fn count_op_0f(&mut self, op: u8)
        ensures
            final(self)@ == count_secondary(old(self)@, op),
    {
        if self.ophist_on {
            let c: u64 = self.ophist_0f[op as usize].wrapping_add(1);
            self.ophist_0f[op as usize] = c;
        }
    }
}

/// The code page of an address sampled.
pub open spec fn page_sampled(d: ProfState, rip: u64) -> ProfState {
    ProfState { hotprof: hist_bump(d.hotprof, rip & !0xfff), ..d }
}

/// A user-mode instruction counted.
pub open spec fn user_sampled(d: ProfState, rip: u64) -> ProfState {
    ProfState {
        user_insns: d.user_insns.wrapping_add(1),
        user_pages: hist_bump(d.user_pages, rip & !0xfff),
        ..d
    }
}

/// A basic block entered: every sixty-fourth entry is sampled.
pub open spec fn entry_counted(d: ProfState, target: u64) -> ProfState {
    let n = d.block_entries.wrapping_add(1);
    ProfState {
        block_entries: n,
        blockprof: if n & 0x3f == 0 {
            hist_bump(d.blockprof, target)
        } else {
            d.blockprof
        },
        ..d
    }
}

/// A primary opcode counted, when counting is on.
pub open spec fn count_primary(d: ProfState, op: u8) -> ProfState {
    if d.ophist_on {
        ProfState { ophist: d.ophist.update(op as int, d.ophist[op as int].wrapping_add(1)), ..d }
    } else {
        d
    }
}

/// A byte after `0F` counted, when counting is on.
pub open spec fn count_secondary(d: ProfState, op: u8) -> ProfState {
    if d.ophist_on {
        ProfState {
            ophist_0f: d.ophist_0f.update(op as int, d.ophist_0f[op as int].wrapping_add(1)),
            ..d
        }
    } else {
        d
    }
}

/// Drain the exception trace (the most recent processor exceptions, oldest first).
pub fn drain_exc_trace(dev: &mut Dev) -> (r: Vec<ExcRecord>)
    ensures
        r@ == old(dev)@.exc_trace,
        final(dev)@ == (DevState { exc_trace: Seq::empty() }),
{
    let mut r: Vec<ExcRecord> = Vec::new();
    std::mem::swap(&mut r, &mut dev.exc_trace);
    r
}

/// Drain the user-mode code-page histogram, hottest first.
pub fn drain_user_pages(prof: &mut Prof) -> (r: Vec<(u64, u64)>)
    ensures
        drained(r@, old(prof)@.user_pages),
        final(prof)@ == (ProfState { user_pages: Seq::empty(), ..old(prof)@ }),
{
    let mut h: Vec<(u64, u64)> = Vec::new();
    std::mem::swap(&mut h, &mut prof.user_pages);
    hottest(h)
}

/// Reset and arm the opcode histograms.
pub fn reset_ophist(prof: &mut Prof)
    ensures
        final(prof)@ == (ProfState {
            ophist: zero_ops(),
            ophist_0f: zero_ops(),
            ophist_on: true,
            ..old(prof)@
        }),
{
    let a: [u64; 256] = [0u64; 256];
    let b: [u64; 256] = [0u64; 256];
    assert(a@ =~= zero_ops() && b@ =~= zero_ops());
    prof.ophist = a;
    prof.ophist_0f = b;
    prof.ophist_on = true;
}

/// Drain and disarm the opcode histograms: the primary opcodes, and the second bytes after `0F`.
pub fn drain_ophist(prof: &mut Prof) -> (r: (Vec<(u8, u64)>, Vec<(u8, u64)>))
    ensures
        op_drained(r.0@, old(prof)@.ophist),
        op_drained(r.1@, old(prof)@.ophist_0f),
        final(prof)@ == (ProfState {
            ophist: zero_ops(),
            ophist_0f: zero_ops(),
            ophist_on: false,
            ..old(prof)@
        }),
{
    let r0: Vec<(u8, u64)> = hottest_ops(&prof.ophist);
    let r1: Vec<(u8, u64)> = hottest_ops(&prof.ophist_0f);
    reset_ophist(prof);
    prof.ophist_on = false;
    (r0, r1)
}

/// User-mode instructions retired since the last reset.
pub fn user_insns_seen(prof: &Prof) -> (n: u64)
    ensures
        n == prof@.user_insns,
{
    prof.user_insns
}

/// Reset the user-mode instruction counter.
pub fn reset_user_insns(prof: &mut Prof)
    ensures
        final(prof)@ == (ProfState { user_insns: 0, ..old(prof)@ }),
{
    prof.user_insns = 0;
}

/// Drain the hot-code profile: code pages and their samples, hottest first.
pub fn drain_hotprof(prof: &mut Prof) -> (r: Vec<(u64, u64)>)
    ensures
        drained(r@, old(prof)@.hotprof),
        final(prof)@ == (ProfState { hotprof: Seq::empty(), ..old(prof)@ }),
{
    let mut h: Vec<(u64, u64)> = Vec::new();
    std::mem::swap(&mut h, &mut prof.hotprof);
    hottest(h)
}

/// Arm or disarm block profiling.
pub fn set_blockprof(prof: &mut Prof, on: bool)
    ensures
        final(prof)@ == (ProfState { blockprof_on: on, ..old(prof)@ }),
{
    prof.blockprof_on = on;
}

/// Drain the block profile: the number of blocks entered, and the sampled block starts, hottest
/// first.
pub fn drain_blockprof(prof: &mut Prof) -> (r: (u64, Vec<(u64, u64)>))
    ensures
        r.0 == old(prof)@.block_entries,
        drained(r.1@, old(prof)@.blockprof),
        final(prof)@ == (ProfState { block_entries: 0, blockprof: Seq::empty(), ..old(prof)@ }),
{
    let entries: u64 = prof.block_entries;
    prof.block_entries = 0;
    let mut h: Vec<(u64, u64)> = Vec::new();
    std::mem::swap(&mut h, &mut prof.blockprof);
    (entries, hottest(h))
}

} // verus!
