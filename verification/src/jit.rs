//! The just-in-time compiler's decisions: which code to hand out, when a compiled result may be
//! committed, and how a result that ran dry is compared with the interpreter.
//!
//! Decoding, compiling and running the compiled code is the host's work. Code is known by the digest
//! of its bytes, so changed code is other code.
use vstd::prelude::*;
use vstd::slice::{slice_subrange, slice_to_vec};
use crate::cpu::Cpu;
use crate::digest::{digest, same_digest};
use crate::profile::Prof;
#[allow(unused_imports)]
use crate::cpu::CpuState;
#[allow(unused_imports)]
use crate::digest::blake3_digest;
#[allow(unused_imports)]
use crate::mmu::{page_walk, translate_access};
#[allow(unused_imports)]
use crate::profile::{fresh_prof, ProfState};

verus! {

/// Matches with the interpreter after which code is trusted.
pub const JIT_TRUST_K: u32 = 4;
/// The least instructions a region must retire per entry to be worth committing.
pub const REGION_MIN_INSNS: u64 = 512;
/// The least operations of a block worth compiling.
pub const JIT_MIN_OPS: u64 = 8;
/// Entries after which a region is looked for.
pub const REGION_HOT: u32 = 8;

// ----- sets and counts of keys -----

/// A set of digests, in the order they came.
pub struct KeyList {
    pub v: Vec<[u8; 32]>,
}

impl View for KeyList {
    type V = Seq<Seq<u8>>;

    open spec fn view(&self) -> Seq<Seq<u8>> {
        Seq::new(self.v@.len(), |i: int| self.v@[i]@)
    }
}

/// A key joins, unless it is there.
pub open spec fn with_key(l: Seq<Seq<u8>>, k: Seq<u8>) -> Seq<Seq<u8>> {
    if l.contains(k) {
        l
    } else {
        l.push(k)
    }
}

impl KeyList {
    pub fn new() -> (l: KeyList)
        ensures
            l@ == Seq::<Seq<u8>>::empty(),
    {
        let l: KeyList = KeyList { v: Vec::new() };
        assert(l@ =~= Seq::<Seq<u8>>::empty());
        l
    }

    /// The key is there.
    pub fn holds(&self, k: &[u8; 32]) -> (b: bool)
        ensures
            b == self@.contains(k@),
    {
        let mut i: usize = 0;
        while i < self.v.len()
            invariant
                i <= self.v@.len(),
                forall|j: int| 0 <= j < i ==> #[trigger] self@[j] != k@,
            decreases self.v@.len() - i,
        {
            if same_digest(&self.v[i], k) {
                assert(self@[i as int] == k@);
                return true;
            }
            assert(self@[i as int] == self.v@[i as int]@);
            i = i + 1;
        }
        false
    }

    /// Add a key, unless it is there.
    pub fn insert(&mut self, k: &[u8; 32])
        ensures
            final(self)@ == with_key(old(self)@, k@),
    {
        if !self.holds(k) {
            self.v.push(*k);
            assert(self@ =~= old(self)@.push(k@));
        }
    }
}

/// Counts of digests.
pub struct KeyCounts {
    pub v: Vec<([u8; 32], u32)>,
}

impl View for KeyCounts {
    type V = Seq<(Seq<u8>, u32)>;

    open spec fn view(&self) -> Seq<(Seq<u8>, u32)> {
        Seq::new(self.v@.len(), |i: int| (self.v@[i].0@, self.v@[i].1))
    }
}

/// Where a key is counted, at or after `i`, or the length.
pub open spec fn count_slot(l: Seq<(Seq<u8>, u32)>, k: Seq<u8>, i: int) -> int
    decreases l.len() - i,
{
    if i >= l.len() || l[i].0 == k {
        i
    } else {
        count_slot(l, k, i + 1)
    }
}

/// The count with one more.
pub open spec fn count_next(l: Seq<(Seq<u8>, u32)>, k: Seq<u8>) -> u32 {
    let i = count_slot(l, k, 0);
    if i < l.len() {
        if l[i].1 == u32::MAX { u32::MAX } else { (l[i].1 + 1) as u32 }
    } else {
        1
    }
}

/// One more of a key.
pub open spec fn count_bump(l: Seq<(Seq<u8>, u32)>, k: Seq<u8>) -> Seq<(Seq<u8>, u32)> {
    let i = count_slot(l, k, 0);
    if i < l.len() {
        l.update(i, (k, count_next(l, k)))
    } else {
        l.push((k, 1))
    }
}

impl KeyCounts {
    pub fn new() -> (l: KeyCounts)
        ensures
            l@ == Seq::<(Seq<u8>, u32)>::empty(),
    {
        let l: KeyCounts = KeyCounts { v: Vec::new() };
        assert(l@ =~= Seq::<(Seq<u8>, u32)>::empty());
        l
    }

    /// Count a key once more.
    pub fn bump(&mut self, k: &[u8; 32]) -> (n: u32)
        ensures
            n == count_next(old(self)@, k@),
            final(self)@ == count_bump(old(self)@, k@),
    {
        let mut i: usize = 0;
        while i < self.v.len()
            invariant
                i <= self.v@.len(),
                self@ == old(self)@,
                count_slot(self@, k@, 0) == count_slot(self@, k@, i as int),
            decreases self.v@.len() - i,
        {
            if same_digest(&self.v[i].0, k) {
                let n: u32 = self.v[i].1.saturating_add(1);
                self.v[i] = (*k, n);
                assert(self@ =~= count_bump(old(self)@, k@));
                return n;
            }
            i = i + 1;
        }
        self.v.push((*k, 1));
        assert(self@ =~= count_bump(old(self)@, k@));
        1
    }
}

/// Where an address is counted, at or after `i`, or the length.
pub open spec fn hot_slot(l: Seq<(u64, u32)>, a: u64, i: int) -> int
    decreases l.len() - i,
{
    if i >= l.len() || l[i].0 == a {
        i
    } else {
        hot_slot(l, a, i + 1)
    }
}

/// The count of an address with one more.
pub open spec fn hot_next(l: Seq<(u64, u32)>, a: u64) -> u32 {
    let i = hot_slot(l, a, 0);
    if i < l.len() {
        if l[i].1 == u32::MAX { u32::MAX } else { (l[i].1 + 1) as u32 }
    } else {
        1
    }
}

/// One more of an address.
pub open spec fn hot_bump(l: Seq<(u64, u32)>, a: u64) -> Seq<(u64, u32)> {
    let i = hot_slot(l, a, 0);
    if i < l.len() {
        l.update(i, (a, hot_next(l, a)))
    } else {
        l.push((a, 1))
    }
}

fn hot_add(l: &mut Vec<(u64, u32)>, a: u64) -> (n: u32)
    ensures
        n == hot_next(old(l)@, a),
        final(l)@ == hot_bump(old(l)@, a),
{
    let mut i: usize = 0;
    while i < l.len()
        invariant
            i <= l@.len(),
            l@ == old(l)@,
            hot_slot(l@, a, 0) == hot_slot(l@, a, i as int),
        decreases l@.len() - i,
    {
        if l[i].0 == a {
            let n: u32 = l[i].1.saturating_add(1);
            l[i] = (a, n);
            return n;
        }
        i = i + 1;
    }
    l.push((a, 1));
    1
}

// ----- results of compiled code -----

/// A page that compiled code wrote.
pub struct Page {
    pub pa: u64,
    pub bytes: Vec<u8>,
}

/// The contents of a [`Page`].
#[verifier::ext_equal]
pub ghost struct PageState {
    pub pa: u64,
    pub bytes: Seq<u8>,
}

impl View for Page {
    type V = PageState;

    open spec fn view(&self) -> PageState {
        PageState { pa: self.pa, bytes: self.bytes@ }
    }
}

/// The contents of a list of pages.
pub open spec fn pages_of(v: Seq<Page>) -> Seq<PageState> {
    Seq::new(v.len(), |i: int| v[i]@)
}

/// What compiled code computed; a block runs to its end, a region tells where it left.
pub struct Outcome {
    pub regs: [u64; 16],
    pub rflags: u64,
    pub dirty: Vec<Page>,
    pub exit: u64,
}

/// The contents of an [`Outcome`].
#[verifier::ext_equal]
pub ghost struct OutcomeState {
    pub regs: Seq<u64>,
    pub rflags: u64,
    pub dirty: Seq<PageState>,
    pub exit: u64,
}

impl View for Outcome {
    type V = OutcomeState;

    open spec fn view(&self) -> OutcomeState {
        OutcomeState {
            regs: self.regs@,
            rflags: self.rflags,
            dirty: pages_of(self.dirty@),
            exit: self.exit,
        }
    }
}

/// A page lies in memory.
pub open spec fn page_fits(ram: Seq<u8>, p: PageState) -> bool {
    p.pa + p.bytes.len() <= ram.len()
}

/// Memory holds what the page says.
pub open spec fn page_matches(ram: Seq<u8>, p: PageState) -> bool {
    page_fits(ram, p) && ram.subrange(p.pa as int, p.pa + p.bytes.len()) == p.bytes
}

/// Memory with a page written; one that does not fit is left out.
pub open spec fn page_written(ram: Seq<u8>, p: PageState) -> Seq<u8> {
    if page_fits(ram, p) {
        Seq::new(
            ram.len(),
            |k: int|
                if p.pa <= k < p.pa + p.bytes.len() { p.bytes[k - p.pa] } else { ram[k] },
        )
    } else {
        ram
    }
}

/// Memory with pages written in turn.
pub open spec fn pages_written(ram: Seq<u8>, l: Seq<PageState>, n: nat) -> Seq<u8>
    decreases n,
{
    if n == 0 {
        ram
    } else {
        page_written(pages_written(ram, l, (n - 1) as nat), l[n - 1])
    }
}

/// Memory holds what every page says.
pub open spec fn pages_match(ram: Seq<u8>, l: Seq<PageState>) -> bool {
    forall|i: int| 0 <= i < l.len() ==> #[trigger] page_matches(ram, l[i])
}

// ----- blocks and regions -----

/// How a block of a region ends.
#[derive(Clone, Copy, PartialEq, Eq, Structural, Debug)]
pub enum Term {
    Jmp(u64),
    /// A conditional jump: where it goes taken, and where it falls through.
    Jcc(u64, u64),
    Exit,
}

/// A block of a region, as the host decoded it.
pub struct RegionBlock {
    pub start: u64,
    pub len: u64,
    pub term: Term,
    /// The operations, in the host's own words.
    pub ops: Vec<u8>,
}

/// The contents of a [`RegionBlock`].
#[verifier::ext_equal]
pub ghost struct BlockState {
    pub start: u64,
    pub len: u64,
    pub term: Term,
    pub ops: Seq<u8>,
}

impl View for RegionBlock {
    type V = BlockState;

    open spec fn view(&self) -> BlockState {
        BlockState { start: self.start, len: self.len, term: self.term, ops: self.ops@ }
    }
}

/// The contents of a list of blocks.
pub open spec fn blocks_of(v: Seq<RegionBlock>) -> Seq<BlockState> {
    Seq::new(v.len(), |i: int| v[i]@)
}

/// A block of the region starts there.
pub open spec fn in_region(l: Seq<BlockState>, a: u64) -> bool {
    exists|i: int| 0 <= i < l.len() && #[trigger] l[i].start == a
}

/// The block jumps back into the region.
pub open spec fn links(l: Seq<BlockState>, t: Term) -> bool {
    match t {
        Term::Jmp(a) => in_region(l, a),
        Term::Jcc(a, b) => in_region(l, a) || in_region(l, b),
        Term::Exit => false,
    }
}

/// Some block jumps back into the region.
pub open spec fn region_loops(l: Seq<BlockState>) -> bool {
    exists|i: int| 0 <= i < l.len() && links(l, (#[trigger] l[i]).term)
}

/// How far a block reaches past an address.
pub open spec fn reach(b: BlockState, rip: u64) -> int {
    let end = if b.start + b.len > u64::MAX { u64::MAX as int } else { b.start + b.len };
    if end > rip {
        end - rip
    } else {
        0
    }
}

/// How far the first `n` blocks reach.
pub open spec fn furthest(l: Seq<BlockState>, rip: u64, n: nat) -> int
    decreases n,
{
    if n == 0 {
        0
    } else {
        let f = furthest(l, rip, (n - 1) as nat);
        let r = reach(l[n - 1], rip);
        if r > f {
            r
        } else {
            f
        }
    }
}

/// A block to run: its code is known by its digest.
pub struct BlockOrder {
    /// Where the block starts.
    pub rip: u64,
    pub key: [u8; 32],
    pub len: u64,
    pub ops: u64,
    /// The block holds a shift.
    pub shift: bool,
    /// The block may be run; one that once diverged may not.
    pub run: bool,
}

/// The contents of a [`BlockOrder`].
#[verifier::ext_equal]
pub ghost struct BlockOrderState {
    pub rip: u64,
    pub key: Seq<u8>,
    pub len: u64,
    pub ops: u64,
    pub shift: bool,
    pub run: bool,
}

impl View for BlockOrder {
    type V = BlockOrderState;

    open spec fn view(&self) -> BlockOrderState {
        BlockOrderState {
            rip: self.rip,
            key: self.key@,
            len: self.len,
            ops: self.ops,
            shift: self.shift,
            run: self.run,
        }
    }
}

/// A region to run.
pub struct RegionOrder {
    pub rip: u64,
    pub key: [u8; 32],
    /// The bytes from the entry to the end of the furthest block.
    pub span: u64,
    pub blocks: Vec<RegionBlock>,
}

/// The contents of a [`RegionOrder`].
#[verifier::ext_equal]
pub ghost struct RegionOrderState {
    pub rip: u64,
    pub key: Seq<u8>,
    pub span: u64,
    pub blocks: Seq<BlockState>,
}

impl View for RegionOrder {
    type V = RegionOrderState;

    open spec fn view(&self) -> RegionOrderState {
        RegionOrderState {
            rip: self.rip,
            key: self.key@,
            span: self.span,
            blocks: blocks_of(self.blocks@),
        }
    }
}

/// A block whose result waits for the interpreter to get to its end.
pub struct JitPending {
    pub key: [u8; 32],
    pub start: u64,
    pub end: u64,
    pub regs: [u64; 16],
    pub rflags: u64,
    pub dirty: Vec<Page>,
    pub has_shift: bool,
}

/// The contents of a [`JitPending`].
#[verifier::ext_equal]
pub ghost struct PendingState {
    pub key: Seq<u8>,
    pub start: u64,
    pub end: u64,
    pub regs: Seq<u64>,
    pub rflags: u64,
    pub dirty: Seq<PageState>,
    pub has_shift: bool,
}

impl View for JitPending {
    type V = PendingState;

    open spec fn view(&self) -> PendingState {
        PendingState {
            key: self.key@,
            start: self.start,
            end: self.end,
            regs: self.regs@,
            rflags: self.rflags,
            dirty: pages_of(self.dirty@),
            has_shift: self.has_shift,
        }
    }
}

/// A region whose result waits for the interpreter to get to its exit.
pub struct JitRegionPending {
    pub key: [u8; 32],
    pub start: u64,
    pub span_end: u64,
    pub exit: u64,
    pub regs: [u64; 16],
    pub rflags: u64,
    pub dirty: Vec<Page>,
    /// The retired instructions when the region was entered.
    pub entry_insns: u64,
    /// The blocks, while divergences are looked for; else none.
    pub blocks: Vec<RegionBlock>,
}

/// The contents of a [`JitRegionPending`].
#[verifier::ext_equal]
pub ghost struct RegionPendingState {
    pub key: Seq<u8>,
    pub start: u64,
    pub span_end: u64,
    pub exit: u64,
    pub regs: Seq<u64>,
    pub rflags: u64,
    pub dirty: Seq<PageState>,
    pub entry_insns: u64,
    pub blocks: Seq<BlockState>,
}

impl View for JitRegionPending {
    type V = RegionPendingState;

    open spec fn view(&self) -> RegionPendingState {
        RegionPendingState {
            key: self.key@,
            start: self.start,
            span_end: self.span_end,
            exit: self.exit,
            regs: self.regs@,
            rflags: self.rflags,
            dirty: pages_of(self.dirty@),
            entry_insns: self.entry_insns,
            blocks: blocks_of(self.blocks@),
        }
    }
}

/// A region whose result differed from the interpreter's.
pub struct Divergence {
    pub exit: u64,
    pub start: u64,
    /// The registers that differ: number, compiled value, interpreted value.
    pub regs: Vec<(usize, u64, u64)>,
    pub rflags_compiled: u64,
    pub rflags_interpreted: u64,
    /// The pages that differ.
    pub pages: Vec<u64>,
    pub blocks: Vec<RegionBlock>,
}

/// The contents of a [`Divergence`].
#[verifier::ext_equal]
pub ghost struct DivergenceState {
    pub exit: u64,
    pub start: u64,
    pub regs: Seq<(usize, u64, u64)>,
    pub rflags_compiled: u64,
    pub rflags_interpreted: u64,
    pub pages: Seq<u64>,
    pub blocks: Seq<BlockState>,
}

impl View for Divergence {
    type V = DivergenceState;

    open spec fn view(&self) -> DivergenceState {
        DivergenceState {
            exit: self.exit,
            start: self.start,
            regs: self.regs@,
            rflags_compiled: self.rflags_compiled,
            rflags_interpreted: self.rflags_interpreted,
            pages: self.pages@,
            blocks: blocks_of(self.blocks@),
        }
    }
}

/// The registers among the first `n` that differ.
pub open spec fn reg_differences(jit: Seq<u64>, own: Seq<u64>, n: nat) -> Seq<(usize, u64, u64)>
    decreases n,
{
    if n == 0 {
        Seq::empty()
    } else {
        let l = reg_differences(jit, own, (n - 1) as nat);
        if jit[n - 1] != own[n - 1] {
            l.push(((n - 1) as usize, jit[n - 1], own[n - 1]))
        } else {
            l
        }
    }
}

/// The pages among the first `n` that differ.
pub open spec fn page_differences(ram: Seq<u8>, l: Seq<PageState>, n: nat) -> Seq<u64>
    decreases n,
{
    if n == 0 {
        Seq::empty()
    } else {
        let d = page_differences(ram, l, (n - 1) as nat);
        if page_matches(ram, l[n - 1]) {
            d
        } else {
            d.push(l[n - 1].pa)
        }
    }
}

// ----- the compiler's state -----

/// The compiler's bookkeeping.
pub struct Jit {
    /// Blocks are compiled.
    pub on: bool,
    /// The next instruction starts a basic block.
    pub at_entry: bool,
    /// Regions are compiled.
    pub region_on: bool,
    /// No region is committed: every one is compared.
    pub notrust: bool,
    /// The host can run regions.
    pub executor: bool,
    /// Blocks handed out.
    pub decoded: u64,
    pub matched: u64,
    pub mismatched: u64,
    pub committed: u64,
    /// Divergences in registers, flags and memory, and of blocks with a shift.
    pub mm_regs: u64,
    pub mm_rflags: u64,
    pub mm_mem: u64,
    pub mm_shift: u64,
    pub seen: KeyList,
    pub compiled: KeyList,
    pub trusted: KeyList,
    pub refused: KeyList,
    pub count: KeyCounts,
    pub region_count: KeyCounts,
    /// Block entries per address.
    pub hot: Vec<(u64, u32)>,
    pub pending: Option<JitPending>,
    pub region: Option<JitRegionPending>,
    pub divergence: Option<Divergence>,
    /// The counters.
    pub prof: Prof,
}

/// The contents of a [`Jit`].
#[verifier::ext_equal]
pub ghost struct JitState {
    pub on: bool,
    pub at_entry: bool,
    pub region_on: bool,
    pub notrust: bool,
    pub executor: bool,
    pub decoded: u64,
    pub matched: u64,
    pub mismatched: u64,
    pub committed: u64,
    pub mm_regs: u64,
    pub mm_rflags: u64,
    pub mm_mem: u64,
    pub mm_shift: u64,
    pub seen: Seq<Seq<u8>>,
    pub compiled: Seq<Seq<u8>>,
    pub trusted: Seq<Seq<u8>>,
    pub refused: Seq<Seq<u8>>,
    pub count: Seq<(Seq<u8>, u32)>,
    pub region_count: Seq<(Seq<u8>, u32)>,
    pub hot: Seq<(u64, u32)>,
    pub pending: Option<PendingState>,
    pub region: Option<RegionPendingState>,
    pub divergence: Option<DivergenceState>,
    pub prof: ProfState,
}

/// The contents of an optional block result.
pub open spec fn pending_of(p: Option<JitPending>) -> Option<PendingState> {
    match p {
        Some(x) => Some(x@),
        None => None,
    }
}

/// The contents of an optional region result.
pub open spec fn region_of(p: Option<JitRegionPending>) -> Option<RegionPendingState> {
    match p {
        Some(x) => Some(x@),
        None => None,
    }
}

/// The contents of an optional divergence.
pub open spec fn divergence_of(p: Option<Divergence>) -> Option<DivergenceState> {
    match p {
        Some(x) => Some(x@),
        None => None,
    }
}

/// The contents of an optional outcome.
pub open spec fn outcome_of(p: Option<Outcome>) -> Option<OutcomeState> {
    match p {
        Some(x) => Some(x@),
        None => None,
    }
}

impl View for Jit {
    type V = JitState;

    open spec fn view(&self) -> JitState {
        JitState {
            on: self.on,
            at_entry: self.at_entry,
            region_on: self.region_on,
            notrust: self.notrust,
            executor: self.executor,
            decoded: self.decoded,
            matched: self.matched,
            mismatched: self.mismatched,
            committed: self.committed,
            mm_regs: self.mm_regs,
            mm_rflags: self.mm_rflags,
            mm_mem: self.mm_mem,
            mm_shift: self.mm_shift,
            seen: self.seen@,
            compiled: self.compiled@,
            trusted: self.trusted@,
            refused: self.refused@,
            count: self.count@,
            region_count: self.region_count@,
            hot: self.hot@,
            pending: pending_of(self.pending),
            region: region_of(self.region),
            divergence: divergence_of(self.divergence),
            prof: self.prof@,
        }
    }
}

/// Nothing compiled, nothing switched on.
pub open spec fn fresh_jit() -> JitState {
    JitState {
        on: false,
        at_entry: true,
        region_on: false,
        notrust: false,
        executor: false,
        decoded: 0,
        matched: 0,
        mismatched: 0,
        committed: 0,
        mm_regs: 0,
        mm_rflags: 0,
        mm_mem: 0,
        mm_shift: 0,
        seen: Seq::empty(),
        compiled: Seq::empty(),
        trusted: Seq::empty(),
        refused: Seq::empty(),
        count: Seq::empty(),
        region_count: Seq::empty(),
        hot: Seq::empty(),
        pending: None,
        region: None,
        divergence: None,
        prof: fresh_prof(),
    }
}

// ----- decisions -----

/// The code from the instruction pointer to the end of its page: the physical address, and how many
/// bytes. Where the page is not mapped there is none, and no fault stays.
#[verifier::opaque]
pub open spec fn code_window(s: CpuState) -> (CpuState, Option<(u64, u64)>) {
    if s.fault is Some {
        (s, None)
    } else {
        let (t, pa) = translate_access(s, s.rip, false, false);
        if t.fault is Some {
            (CpuState { fault: None, ..t }, None)
        } else if pa >= t.ram.len() {
            (t, None)
        } else {
            let room = 4096 - pa as int % 4096;
            let left = t.ram.len() - pa;
            (t, Some((pa, (if room <= left { room } else { left }) as u64)))
        }
    }
}

/// The bytes of a stretch of memory.
pub open spec fn stretch(ram: Seq<u8>, off: u64, n: u64) -> Seq<u8> {
    ram.subrange(off as int, off + n)
}

/// A decoded block is handed out when it is long enough to be worth it.
pub open spec fn block_ordered(
    s: CpuState,
    j: JitState,
    off: u64,
    room: u64,
    ops: u64,
    len: u64,
    shift: bool,
) -> (JitState, Option<BlockOrderState>) {
    if ops < JIT_MIN_OPS || len == 0 || len > room || off + len > s.ram.len() {
        (j, None)
    } else {
        let key = blake3_digest(stretch(s.ram, off, len));
        (
            JitState {
                decoded: j.decoded.wrapping_add(1),
                seen: with_key(j.seen, key),
                ..j
            },
            Some(
                BlockOrderState {
                    rip: s.rip,
                    key,
                    len,
                    ops,
                    shift,
                    run: !j.refused.contains(key),
                },
            ),
        )
    }
}

/// A compiled result committed.
pub open spec fn outcome_committed(s: CpuState, r: OutcomeState, rip: u64) -> CpuState {
    CpuState {
        r: r.regs,
        rflags: r.rflags,
        ram: pages_written(s.ram, r.dirty, r.dirty.len()),
        rip,
        ..s
    }
}

/// What becomes of a block's result: trusted code is committed, other code waits for the
/// interpreter.
pub open spec fn block_applied(
    s: CpuState,
    j: JitState,
    o: BlockOrderState,
    compiled: bool,
    res: Option<OutcomeState>,
) -> (CpuState, JitState, bool) {
    let j1 = if compiled {
        JitState { compiled: with_key(j.compiled, o.key), ..j }
    } else {
        j
    };
    match res {
        Some(r) if compiled && o.run => {
            let end = o.rip.wrapping_add(o.len);
            if j1.trusted.contains(o.key) {
                let t = outcome_committed(s, r, end);
                (
                    CpuState { insns: t.insns.wrapping_add(o.ops), ..t },
                    JitState { committed: j1.committed.wrapping_add(1), ..j1 },
                    true,
                )
            } else {
                (
                    s,
                    JitState {
                        pending: Some(
                            PendingState {
                                key: o.key,
                                start: o.rip,
                                end,
                                regs: r.regs,
                                rflags: r.rflags,
                                dirty: r.dirty,
                                has_shift: o.shift,
                            },
                        ),
                        ..j1
                    },
                    false,
                )
            }
        },
        _ => (s, j1, false),
    }
}

/// A region is handed out when it has several blocks or loops, it never diverged, and the host can
/// run it.
pub open spec fn region_ordered(
    s: CpuState,
    j: JitState,
    off: u64,
    room: u64,
    l: Seq<BlockState>,
) -> Option<RegionOrderState> {
    let far = furthest(l, s.rip, l.len());
    let span = if far < room { far } else { room as int };
    if l.len() < 2 && !region_loops(l) {
        None
    } else if span == 0 || off + span > s.ram.len() {
        None
    } else {
        let key = blake3_digest(stretch(s.ram, off, span as u64));
        if j.refused.contains(key) || !j.executor {
            None
        } else {
            Some(RegionOrderState { rip: s.rip, key, span: span as u64, blocks: l })
        }
    }
}

/// What becomes of a region's result.
pub open spec fn region_applied(
    s: CpuState,
    j: JitState,
    o: RegionOrderState,
    res: Option<OutcomeState>,
) -> (CpuState, JitState, bool) {
    match res {
        Some(r) => if !j.notrust && j.trusted.contains(o.key) {
            (
                outcome_committed(s, r, r.exit),
                JitState { committed: j.committed.wrapping_add(1), ..j },
                true,
            )
        } else {
            (
                s,
                JitState {
                    region: Some(
                        RegionPendingState {
                            key: o.key,
                            start: o.rip,
                            span_end: o.rip.wrapping_add(o.span),
                            exit: r.exit,
                            regs: r.regs,
                            rflags: r.rflags,
                            dirty: r.dirty,
                            entry_insns: s.insns,
                            blocks: if j.notrust { o.blocks } else { Seq::empty() },
                        },
                    ),
                    ..j
                },
                false,
            )
        },
        None => (s, j, false),
    }
}

/// One more if the condition holds.
pub open spec fn tally(n: u64, b: bool) -> u64 {
    if b {
        n.wrapping_add(1)
    } else {
        n
    }
}

/// A block's result compared with the interpreter's.
pub open spec fn block_compared(s: CpuState, j: JitState, p: PendingState) -> JitState {
    let regs = s.r == p.regs;
    let flags = s.rflags == p.rflags;
    let mem = pages_match(s.ram, p.dirty);
    if regs && flags && mem {
        let n = count_next(j.count, p.key);
        JitState {
            pending: None,
            matched: j.matched.wrapping_add(1),
            count: count_bump(j.count, p.key),
            trusted: if n >= JIT_TRUST_K { with_key(j.trusted, p.key) } else { j.trusted },
            ..j
        }
    } else {
        JitState {
            pending: None,
            mismatched: j.mismatched.wrapping_add(1),
            mm_regs: tally(j.mm_regs, !regs),
            mm_rflags: tally(j.mm_rflags, !flags),
            mm_mem: tally(j.mm_mem, !mem),
            mm_shift: tally(j.mm_shift, p.has_shift),
            refused: with_key(j.refused, p.key),
            ..j
        }
    }
}

/// After an instruction: a block is compared when the interpreter has got to its end, kept while it
/// is inside, and dropped where it went elsewhere.
#[verifier::opaque]
pub open spec fn block_checked(s: CpuState, j: JitState) -> JitState {
    match j.pending {
        None => j,
        Some(p) => if s.rip == p.end {
            block_compared(s, j, p)
        } else if p.start <= s.rip < p.end {
            j
        } else {
            JitState { pending: None, ..j }
        },
    }
}

/// How a region's result differs from the interpreter's.
pub open spec fn divergence_at(s: CpuState, p: RegionPendingState) -> DivergenceState {
    DivergenceState {
        exit: p.exit,
        start: p.start,
        regs: reg_differences(p.regs, s.r, 16),
        rflags_compiled: p.rflags,
        rflags_interpreted: s.rflags,
        pages: page_differences(s.ram, p.dirty, p.dirty.len()),
        blocks: p.blocks,
    }
}

/// A region's result compared with the interpreter's. One that is right but short is refused: it is
/// not worth committing.
pub open spec fn region_compared(s: CpuState, j: JitState, p: RegionPendingState) -> JitState {
    if s.r == p.regs && s.rflags == p.rflags && pages_match(s.ram, p.dirty) {
        if s.insns.wrapping_sub(p.entry_insns) < REGION_MIN_INSNS {
            JitState { region: None, refused: with_key(j.refused, p.key), ..j }
        } else {
            let n = count_next(j.region_count, p.key);
            JitState {
                region: None,
                region_count: count_bump(j.region_count, p.key),
                trusted: if n >= JIT_TRUST_K { with_key(j.trusted, p.key) } else { j.trusted },
                ..j
            }
        }
    } else {
        JitState {
            region: None,
            refused: with_key(j.refused, p.key),
            divergence: if p.blocks.len() > 0 && j.divergence is None {
                Some(divergence_at(s, p))
            } else {
                j.divergence
            },
            ..j
        }
    }
}

/// After an instruction: the same for a region.
#[verifier::opaque]
pub open spec fn region_checked(s: CpuState, j: JitState) -> JitState {
    match j.region {
        None => j,
        Some(p) => if s.rip == p.exit {
            region_compared(s, j, p)
        } else if p.start <= s.rip < p.span_end {
            j
        } else {
            JitState { region: None, ..j }
        },
    }
}

/// What the compiler does before an instruction.
#[verifier::ext_equal]
pub ghost enum ChoiceState {
    /// Nothing: the interpreter goes on.
    Interpret,
    /// Look at the block there, of so many bytes.
    Block(u64, u64),
    /// Look for a region there.
    Region(u64, u64),
}

/// What the compiler does at the instruction pointer. A region is looked for once the entry is hot
/// and no other region waits.
#[verifier::opaque]
pub open spec fn jit_choice(s: CpuState, j: JitState) -> (CpuState, JitState, ChoiceState) {
    if j.region_on && j.at_entry {
        let n = hot_next(j.hot, s.rip);
        let j1 = JitState { hot: hot_bump(j.hot, s.rip), ..j };
        if n >= REGION_HOT && j1.region is None {
            let (t, w) = code_window(s);
            match w {
                Some((off, room)) => (t, j1, ChoiceState::Region(off, room)),
                None => (t, j1, ChoiceState::Interpret),
            }
        } else {
            (s, j1, ChoiceState::Interpret)
        }
    } else if j.on && j.at_entry {
        let (t, w) = code_window(s);
        match w {
            Some((off, room)) => (t, j, ChoiceState::Block(off, room)),
            None => (t, j, ChoiceState::Interpret),
        }
    } else {
        (s, j, ChoiceState::Interpret)
    }
}

/// The memory page behind an address, for compiled code to read.
pub open spec fn code_page(s: CpuState, va: u64) -> Option<PageState> {
    match page_walk(s, va, false, false) {
        Ok(pa) => {
            let f = pa & !0xfff;
            if f + 0x1000 <= s.ram.len() {
                Some(PageState { pa: f, bytes: s.ram.subrange(f as int, f + 0x1000) })
            } else {
                None
            }
        },
        Err(_) => None,
    }
}

/// An instruction went from one address to another that does not follow it.
pub open spec fn transferred(from: u64, to: u64) -> bool {
    to < from || to > from.wrapping_add(15)
}

/// The compiler after an instruction at `from`.
pub open spec fn jit_after(s: CpuState, j: JitState, from: u64, handled: bool) -> JitState {
    if j.on || j.region_on {
        let j1 = JitState { at_entry: transferred(from, s.rip), ..j };
        if handled {
            j1
        } else {
            let j2 = if j1.on { block_checked(s, j1) } else { j1 };
            if j2.region_on {
                region_checked(s, j2)
            } else {
                j2
            }
        }
    } else {
        j
    }
}

// ----- the executable part -----

fn same_regs(a: &[u64; 16], b: &[u64; 16]) -> (r: bool)
    ensures
        r == (a@ == b@),
{
    let mut i: usize = 0;
    while i < 16
        invariant
            i <= 16,
            forall|k: int| 0 <= k < i ==> a@[k] == b@[k],
        decreases 16 - i,
    {
        if a[i] != b[i] {
            assert(a@[i as int] != b@[i as int]);
            return false;
        }
        i = i + 1;
    }
    assert(a@ =~= b@);
    true
}

/// The page lies in memory.
fn fits(ram: &Vec<u8>, p: &Page) -> (b: bool)
    ensures
        b == page_fits(ram@, p@),
{
    p.pa <= ram.len() as u64 && p.bytes.len() as u64 <= ram.len() as u64 - p.pa
}

/// Memory holds what the page says.
fn matches_page(ram: &Vec<u8>, p: &Page) -> (b: bool)
    ensures
        b == page_matches(ram@, p@),
{
    if !fits(ram, p) {
        return false;
    }
    let total: usize = ram.len();
    let base: usize = p.pa as usize;
    let n: usize = p.bytes.len();
    let mut i: usize = 0;
    while i < n
        invariant
            i <= n,
            n == p.bytes@.len(),
            base == p.pa,
            ram@.len() == total,
            base + n <= total,
            forall|k: int| 0 <= k < i ==> ram@[base + k] == p.bytes@[k],
        decreases n - i,
    {
        if ram[base + i] != p.bytes[i] {
            assert(ram@.subrange(base as int, base + n)[i as int] != p.bytes@[i as int]);
            return false;
        }
        i = i + 1;
    }
    assert(ram@.subrange(base as int, base + n) =~= p.bytes@);
    true
}

/// Memory holds what every page says.
fn matches_pages(ram: &Vec<u8>, l: &Vec<Page>) -> (b: bool)
    ensures
        b == pages_match(ram@, pages_of(l@)),
{
    let mut i: usize = 0;
    while i < l.len()
        invariant
            i <= l@.len(),
            forall|k: int| 0 <= k < i ==> page_matches(ram@, #[trigger] pages_of(l@)[k]),
        decreases l@.len() - i,
    {
        if !matches_page(ram, &l[i]) {
            assert(!page_matches(ram@, pages_of(l@)[i as int]));
            return false;
        }
        i = i + 1;
    }
    true
}

/// Write a page to memory; one that does not fit is left out.
fn write_page(ram: &mut Vec<u8>, p: &Page)
    ensures
        final(ram)@ == page_written(old(ram)@, p@),
{
    if !fits(ram, p) {
        return;
    }
    let total: usize = ram.len();
    let base: usize = p.pa as usize;
    let n: usize = p.bytes.len();
    let mut i: usize = 0;
    while i < n
        invariant
            i <= n,
            n == p.bytes@.len(),
            base == p.pa,
            ram@.len() == old(ram)@.len(),
            ram@.len() == total,
            base + n <= total,
            forall|k: int| 0 <= k < ram@.len() ==> ram@[k] == (if base <= k < base + i {
                p.bytes@[k - base]
            } else {
                old(ram)@[k]
            }),
        decreases n - i,
    {
        ram[base + i] = p.bytes[i];
        i = i + 1;
    }
    assert(ram@ =~= page_written(old(ram)@, p@));
}

/// Write pages to memory in turn.
fn write_pages(ram: &mut Vec<u8>, l: &Vec<Page>)
    ensures
        final(ram)@ == pages_written(old(ram)@, pages_of(l@), l@.len()),
{
    let mut i: usize = 0;
    while i < l.len()
        invariant
            i <= l@.len(),
            ram@ == pages_written(old(ram)@, pages_of(l@), i as nat),
        decreases l@.len() - i,
    {
        write_page(ram, &l[i]);
        assert(pages_of(l@)[i as int] == l@[i as int]@);
        i = i + 1;
    }
}

fn starts_there(l: &Vec<RegionBlock>, a: u64) -> (b: bool)
    ensures
        b == in_region(blocks_of(l@), a),
{
    let mut i: usize = 0;
    while i < l.len()
        invariant
            i <= l@.len(),
            forall|k: int| 0 <= k < i ==> (#[trigger] blocks_of(l@)[k]).start != a,
        decreases l@.len() - i,
    {
        if l[i].start == a {
            assert(blocks_of(l@)[i as int].start == a);
            return true;
        }
        i = i + 1;
    }
    false
}

fn loops(l: &Vec<RegionBlock>) -> (b: bool)
    ensures
        b == region_loops(blocks_of(l@)),
{
    let mut i: usize = 0;
    while i < l.len()
        invariant
            i <= l@.len(),
            forall|k: int|
                0 <= k < i ==> !links(blocks_of(l@), (#[trigger] blocks_of(l@)[k]).term),
        decreases l@.len() - i,
    {
        let back: bool = match l[i].term {
            Term::Jmp(a) => starts_there(l, a),
            Term::Jcc(a, b) => starts_there(l, a) || starts_there(l, b),
            Term::Exit => false,
        };
        if back {
            assert(links(blocks_of(l@), blocks_of(l@)[i as int].term));
            return true;
        }
        i = i + 1;
    }
    false
}

fn furthest_reach(l: &Vec<RegionBlock>, rip: u64) -> (f: u64)
    ensures
        f == furthest(blocks_of(l@), rip, l@.len()),
{
    let mut f: u64 = 0;
    let mut i: usize = 0;
    while i < l.len()
        invariant
            i <= l@.len(),
            f == furthest(blocks_of(l@), rip, i as nat),
        decreases l@.len() - i,
    {
        let end: u64 = l[i].start.saturating_add(l[i].len);
        let r: u64 = if end > rip { end - rip } else { 0 };
        assert(r == reach(blocks_of(l@)[i as int], rip));
        if r > f {
            f = r;
        }
        i = i + 1;
    }
    f
}

fn differing_regs(jit: &[u64; 16], own: &[u64; 16]) -> (l: Vec<(usize, u64, u64)>)
    ensures
        l@ == reg_differences(jit@, own@, 16),
{
    let mut l: Vec<(usize, u64, u64)> = Vec::new();
    let mut i: usize = 0;
    while i < 16
        invariant
            i <= 16,
            l@ == reg_differences(jit@, own@, i as nat),
        decreases 16 - i,
    {
        if jit[i] != own[i] {
            l.push((i, jit[i], own[i]));
        }
        i = i + 1;
    }
    l
}

fn differing_pages(ram: &Vec<u8>, l: &Vec<Page>) -> (d: Vec<u64>)
    ensures
        d@ == page_differences(ram@, pages_of(l@), l@.len()),
{
    let mut d: Vec<u64> = Vec::new();
    let mut i: usize = 0;
    while i < l.len()
        invariant
            i <= l@.len(),
            d@ == page_differences(ram@, pages_of(l@), i as nat),
        decreases l@.len() - i,
    {
        assert(pages_of(l@)[i as int] == l@[i as int]@);
        if !matches_page(ram, &l[i]) {
            d.push(l[i].pa);
        }
        i = i + 1;
    }
    d
}

impl Jit {
    /// Nothing compiled, nothing switched on.
    pub fn new() -> (j: Jit)
        ensures
            j@ == fresh_jit(),
    {
        Jit {
            on: false,
            at_entry: true,
            region_on: false,
            notrust: false,
            executor: false,
            decoded: 0,
            matched: 0,
            mismatched: 0,
            committed: 0,
            mm_regs: 0,
            mm_rflags: 0,
            mm_mem: 0,
            mm_shift: 0,
            seen: KeyList::new(),
            compiled: KeyList::new(),
            trusted: KeyList::new(),
            refused: KeyList::new(),
            count: KeyCounts::new(),
            region_count: KeyCounts::new(),
            hot: Vec::new(),
            pending: None,
            region: None,
            divergence: None,
            prof: Prof::new(),
        }
    }

    /// A match counted; the fourth makes the code trusted.
    fn count_match(&mut self, key: &[u8; 32])
        ensures
            final(self)@ == (JitState {
                matched: old(self)@.matched.wrapping_add(1),
                count: count_bump(old(self)@.count, key@),
                trusted: if count_next(old(self)@.count, key@) >= JIT_TRUST_K {
                    with_key(old(self)@.trusted, key@)
                } else {
                    old(self)@.trusted
                },
                ..old(self)@
            }),
    {
        self.matched = self.matched.wrapping_add(1);
        let n: u32 = self.count.bump(key);
        if n >= JIT_TRUST_K {
            self.trusted.insert(key);
        }
    }

    fn count_region_match(&mut self, key: &[u8; 32])
        ensures
            final(self)@ == (JitState {
                region_count: count_bump(old(self)@.region_count, key@),
                trusted: if count_next(old(self)@.region_count, key@) >= JIT_TRUST_K {
                    with_key(old(self)@.trusted, key@)
                } else {
                    old(self)@.trusted
                },
                ..old(self)@
            }),
    {
        let n: u32 = self.region_count.bump(key);
        if n >= JIT_TRUST_K {
            self.trusted.insert(key);
        }
    }
}

/// What the compiler does before an instruction.
pub enum Choice {
    Interpret,
    Block(u64, u64),
    Region(u64, u64),
}

impl View for Choice {
    type V = ChoiceState;

    open spec fn view(&self) -> ChoiceState {
        match self {
            Choice::Interpret => ChoiceState::Interpret,
            Choice::Block(a, n) => ChoiceState::Block(*a, *n),
            Choice::Region(a, n) => ChoiceState::Region(*a, *n),
        }
    }
}

impl Cpu {
    /// The code at the instruction pointer.
    pub fn jit_window(&mut self) -> (w: Option<(u64, u64)>)
        requires
            old(self).wf(),
        ensures
            final(self).wf(),
            (final(self)@, w) == code_window(old(self)@),
            w matches Some((off, room)) ==> off + room <= final(self)@.ram.len(),
    {
        proof {
            reveal(code_window);
        }
        if self.fault.is_some() {
            return None;
        }
        let rip: u64 = self.rip;
        let pa: u64 = self.translate_acc(rip, false, false);
        if self.fault.is_some() {
            self.fault = None;
            return None;
        }
        let len: u64 = self.ram.len() as u64;
        if pa >= len {
            return None;
        }
        let room: u64 = 4096 - pa % 4096;
        let left: u64 = len - pa;
        Some((pa, if room <= left { room } else { left }))
    }

    /// The memory page behind an address, for compiled code to read. Nothing changes.
    pub fn jit_page(&self, va: u64) -> (p: Option<Page>)
        requires
            self.wf(),
        ensures
            match code_page(self@, va) {
                Some(x) => p is Some && p->0@ == x,
                None => p is None,
            },
    {
        match self.walk(va, false, false) {
            Ok(pa) => {
                let f: u64 = pa & !0xfff;
                let total: usize = self.ram.len();
                if f <= total as u64 && 0x1000 <= total as u64 - f {
                    let from: usize = f as usize;
                    let bytes: Vec<u8> = slice_to_vec(
                        slice_subrange(self.ram.as_slice(), from, from + 0x1000),
                    );
                    Some(Page { pa: f, bytes })
                } else {
                    None
                }
            },
            Err(_) => None,
        }
    }

    /// What the compiler does at the instruction pointer.
    pub fn jit_choose(&mut self, j: &mut Jit) -> (c: Choice)
        requires
            old(self).wf(),
        ensures
            final(self).wf(),
            (final(self)@, final(j)@, c@) == jit_choice(old(self)@, old(j)@),
            match c {
                Choice::Interpret => true,
                Choice::Block(off, n) => off + n <= final(self)@.ram.len(),
                Choice::Region(off, n) => off + n <= final(self)@.ram.len(),
            },
    {
        proof {
            reveal(jit_choice);
        }
        if j.region_on && j.at_entry {
            let n: u32 = hot_add(&mut j.hot, self.rip);
            if n >= REGION_HOT && j.region.is_none() {
                match self.jit_window() {
                    Some((off, room)) => Choice::Region(off, room),
                    None => Choice::Interpret,
                }
            } else {
                Choice::Interpret
            }
        } else if j.on && j.at_entry {
            match self.jit_window() {
                Some((off, room)) => Choice::Block(off, room),
                None => Choice::Interpret,
            }
        } else {
            Choice::Interpret
        }
    }

    /// Decide on a decoded block of `ops` operations in `len` bytes.
    pub fn jit_order_block(
        &self,
        j: &mut Jit,
        off: u64,
        room: u64,
        ops: u64,
        len: u64,
        shift: bool,
    ) -> (o: Option<BlockOrder>)
        ensures
            final(j)@ == block_ordered(self@, old(j)@, off, room, ops, len, shift).0,
            match block_ordered(self@, old(j)@, off, room, ops, len, shift).1 {
                Some(x) => o is Some && o->0@ == x,
                None => o is None,
            },
    {
        let total: u64 = self.ram.len() as u64;
        if ops < JIT_MIN_OPS || len == 0 || len > room || off > total || len > total - off {
            return None;
        }
        let key: [u8; 32] = digest(
            slice_subrange(self.ram.as_slice(), off as usize, (off + len) as usize),
        );
        j.decoded = j.decoded.wrapping_add(1);
        let run: bool = !j.refused.holds(&key);
        j.seen.insert(&key);
        Some(BlockOrder { rip: self.rip, key, len, ops, shift, run })
    }

    fn commit(&mut self, r: Outcome, rip: u64)
        requires
            old(self).wf(),
        ensures
            final(self).wf(),
            final(self)@ == outcome_committed(old(self)@, r@, rip),
    {
        self.r = r.regs;
        self.rflags = r.rflags;
        write_pages(&mut self.ram, &r.dirty);
        self.rip = rip;
    }

    /// Decide on the result of a block.
    pub fn jit_apply_block(
        &mut self,
        j: &mut Jit,
        o: &BlockOrder,
        compiled: bool,
        res: Option<Outcome>,
    ) -> (handled: bool)
        requires
            old(self).wf(),
        ensures
            final(self).wf(),
            (final(self)@, final(j)@, handled) == block_applied(
                old(self)@,
                old(j)@,
                o@,
                compiled,
                outcome_of(res),
            ),
    {
        if compiled {
            j.compiled.insert(&o.key);
        }
        match res {
            Some(r) => {
                if !compiled || !o.run {
                    return false;
                }
                let end: u64 = o.rip.wrapping_add(o.len);
                if j.trusted.holds(&o.key) {
                    self.commit(r, end);
                    self.insns = self.insns.wrapping_add(o.ops);
                    j.committed = j.committed.wrapping_add(1);
                    true
                } else {
                    j.pending = Some(
                        JitPending {
                            key: o.key,
                            start: o.rip,
                            end,
                            regs: r.regs,
                            rflags: r.rflags,
                            dirty: r.dirty,
                            has_shift: o.shift,
                        },
                    );
                    false
                }
            },
            None => false,
        }
    }

    /// Decide on a discovered region.
    pub fn jit_order_region(&self, j: &Jit, off: u64, room: u64, blocks: Vec<RegionBlock>) -> (o:
        Option<RegionOrder>)
        ensures
            match region_ordered(self@, j@, off, room, blocks_of(blocks@)) {
                Some(x) => o is Some && o->0@ == x,
                None => o is None,
            },
    {
        let far: u64 = furthest_reach(&blocks, self.rip);
        let span: u64 = if far < room { far } else { room };
        let total: u64 = self.ram.len() as u64;
        if blocks.len() < 2 && !loops(&blocks) {
            return None;
        }
        if span == 0 || off > total || span > total - off {
            return None;
        }
        let key: [u8; 32] = digest(
            slice_subrange(self.ram.as_slice(), off as usize, (off + span) as usize),
        );
        if j.refused.holds(&key) || !j.executor {
            return None;
        }
        Some(RegionOrder { rip: self.rip, key, span, blocks })
    }

    /// Decide on the result of a region.
    pub fn jit_apply_region(&mut self, j: &mut Jit, o: RegionOrder, res: Option<Outcome>) -> (handled:
        bool)
        requires
            old(self).wf(),
        ensures
            final(self).wf(),
            (final(self)@, final(j)@, handled) == region_applied(
                old(self)@,
                old(j)@,
                o@,
                outcome_of(res),
            ),
    {
        match res {
            Some(r) => {
                if !j.notrust && j.trusted.holds(&o.key) {
                    let exit: u64 = r.exit;
                    self.commit(r, exit);
                    j.committed = j.committed.wrapping_add(1);
                    true
                } else {
                    let blocks: Vec<RegionBlock> = if j.notrust { o.blocks } else { Vec::new() };
                    assert(blocks_of(blocks@) =~= (if j.notrust {
                        o@.blocks
                    } else {
                        Seq::empty()
                    }));
                    j.region = Some(
                        JitRegionPending {
                            key: o.key,
                            start: o.rip,
                            span_end: o.rip.wrapping_add(o.span),
                            exit: r.exit,
                            regs: r.regs,
                            rflags: r.rflags,
                            dirty: r.dirty,
                            entry_insns: self.insns,
                            blocks,
                        },
                    );
                    false
                }
            },
            None => false,
        }
    }

    fn compare_block(&self, j: &mut Jit, p: JitPending)
        requires
            old(j)@.pending is None,
        ensures
            final(j)@ == block_compared(self@, old(j)@, p@),
    {
        let regs: bool = same_regs(&self.r, &p.regs);
        let flags: bool = self.rflags == p.rflags;
        let mem: bool = matches_pages(&self.ram, &p.dirty);
        if regs && flags && mem {
            j.count_match(&p.key);
        } else {
            j.mismatched = j.mismatched.wrapping_add(1);
            if !regs {
                j.mm_regs = j.mm_regs.wrapping_add(1);
            }
            if !flags {
                j.mm_rflags = j.mm_rflags.wrapping_add(1);
            }
            if !mem {
                j.mm_mem = j.mm_mem.wrapping_add(1);
            }
            if p.has_shift {
                j.mm_shift = j.mm_shift.wrapping_add(1);
            }
            j.refused.insert(&p.key);
        }
    }

    /// Compare a block that ran dry with the interpreter, once it has got to the block's end.
    pub fn jit_shadow_check(&self, j: &mut Jit)
        ensures
            final(j)@ == block_checked(self@, old(j)@),
    {
        proof {
            reveal(block_checked);
        }
        match j.pending.take() {
            None => {},
            Some(p) => {
                if self.rip == p.end {
                    self.compare_block(j, p);
                } else if p.start <= self.rip && self.rip < p.end {
                    j.pending = Some(p);
                }
            },
        }
    }

    fn diverge(&self, j: &mut Jit, p: JitRegionPending)
        ensures
            final(j)@ == (JitState {
                divergence: Some(
                    DivergenceState {
                        exit: p@.exit,
                        start: p@.start,
                        regs: reg_differences(p@.regs, self@.r, 16),
                        rflags_compiled: p@.rflags,
                        rflags_interpreted: self@.rflags,
                        pages: page_differences(self@.ram, p@.dirty, p@.dirty.len()),
                        blocks: p@.blocks,
                    },
                ),
                ..old(j)@
            }),
    {
        let regs: Vec<(usize, u64, u64)> = differing_regs(&p.regs, &self.r);
        let pages: Vec<u64> = differing_pages(&self.ram, &p.dirty);
        j.divergence = Some(
            Divergence {
                exit: p.exit,
                start: p.start,
                regs,
                rflags_compiled: p.rflags,
                rflags_interpreted: self.rflags,
                pages,
                blocks: p.blocks,
            },
        );
    }

    fn compare_region(&self, j: &mut Jit, p: JitRegionPending)
        requires
            old(j)@.region is None,
        ensures
            final(j)@ == region_compared(self@, old(j)@, p@),
    {
        let ok: bool = same_regs(&self.r, &p.regs) && self.rflags == p.rflags && matches_pages(
            &self.ram,
            &p.dirty,
        );
        if ok {
            if self.insns.wrapping_sub(p.entry_insns) < REGION_MIN_INSNS {
                j.refused.insert(&p.key);
            } else {
                j.count_region_match(&p.key);
            }
        } else {
            j.refused.insert(&p.key);
            if p.blocks.len() > 0 && j.divergence.is_none() {
                self.diverge(j, p);
            }
        }
    }

    /// Compare a region that ran dry with the interpreter, once it has got to the region's exit.
    pub fn jit_region_shadow_check(&self, j: &mut Jit)
        ensures
            final(j)@ == region_checked(self@, old(j)@),
    {
        proof {
            reveal(region_checked);
        }
        match j.region.take() {
            None => {},
            Some(p) => {
                if self.rip == p.exit {
                    self.compare_region(j, p);
                } else if p.start <= self.rip && self.rip < p.span_end {
                    j.region = Some(p);
                }
            },
        }
    }

    /// The compiler after an instruction at `from`.
    pub fn jit_note(&self, j: &mut Jit, from: u64, handled: bool)
        ensures
            final(j)@ == jit_after(self@, old(j)@, from, handled),
    {
        if j.on || j.region_on {
            j.at_entry = self.rip < from || self.rip > from.wrapping_add(15);
            if !handled {
                if j.on {
                    self.jit_shadow_check(j);
                }
                if j.region_on {
                    self.jit_region_shadow_check(j);
                }
            }
        }
    }
}

// ----- switches and statistics -----

/// Arm or disarm the block compiler.
pub fn set_jit_on(j: &mut Jit, on: bool)
    ensures
        final(j)@ == (JitState { on, ..old(j)@ }),
{
    j.on = on;
}

/// Arm or disarm the region compiler; disarming forgets how hot the entries were.
pub fn set_region_jit_on(j: &mut Jit, on: bool)
    ensures
        final(j)@ == (JitState {
            region_on: on,
            hot: if on { old(j)@.hot } else { Seq::empty() },
            ..old(j)@
        }),
{
    j.region_on = on;
    if !on {
        j.hot = Vec::new();
    }
}

/// Say that the host can run regions: until it does, none is handed out.
pub fn set_region_executor(j: &mut Jit)
    ensures
        final(j)@ == (JitState { executor: true, ..old(j)@ }),
{
    j.executor = true;
}

/// Never commit a region, so that every one is compared; switching it off drops the divergence found.
pub fn set_region_notrust(j: &mut Jit, on: bool)
    ensures
        final(j)@ == (JitState {
            notrust: on,
            divergence: if on { old(j)@.divergence } else { None },
            ..old(j)@
        }),
{
    j.notrust = on;
    if !on {
        j.divergence = None;
    }
}

/// Take the first divergence found.
pub fn drain_region_divergence(j: &mut Jit) -> (d: Option<Divergence>)
    ensures
        divergence_of(d) == old(j)@.divergence,
        final(j)@ == (JitState { divergence: None, ..old(j)@ }),
{
    j.divergence.take()
}

/// Take the counts of divergences: in registers, in flags, in memory, and of blocks with a shift.
pub fn drain_jit_diag(j: &mut Jit) -> (r: (u64, u64, u64, u64))
    ensures
        r == (old(j)@.mm_regs, old(j)@.mm_rflags, old(j)@.mm_mem, old(j)@.mm_shift),
        final(j)@ == (JitState { mm_regs: 0, mm_rflags: 0, mm_mem: 0, mm_shift: 0, ..old(j)@ }),
{
    let r: (u64, u64, u64, u64) = (j.mm_regs, j.mm_rflags, j.mm_mem, j.mm_shift);
    j.mm_regs = 0;
    j.mm_rflags = 0;
    j.mm_mem = 0;
    j.mm_shift = 0;
    r
}

/// Take the statistics: blocks handed out, distinct ones, compiled ones, matches, mismatches,
/// trusted, refused, and commits. The sizes of the sets stay.
pub fn drain_jit_stats(j: &mut Jit) -> (r: (u64, usize, usize, u64, u64, usize, usize, u64))
    ensures
        r.0 == old(j)@.decoded,
        r.1 == old(j)@.seen.len(),
        r.2 == old(j)@.compiled.len(),
        r.3 == old(j)@.matched,
        r.4 == old(j)@.mismatched,
        r.5 == old(j)@.trusted.len(),
        r.6 == old(j)@.refused.len(),
        r.7 == old(j)@.committed,
        final(j)@ == (JitState {
            decoded: 0,
            matched: 0,
            mismatched: 0,
            committed: 0,
            ..old(j)@
        }),
{
    let r: (u64, usize, usize, u64, u64, usize, usize, u64) = (
        j.decoded,
        j.seen.v.len(),
        j.compiled.v.len(),
        j.matched,
        j.mismatched,
        j.trusted.v.len(),
        j.refused.v.len(),
        j.committed,
    );
    j.decoded = 0;
    j.matched = 0;
    j.mismatched = 0;
    j.committed = 0;
    r
}

} // verus!
