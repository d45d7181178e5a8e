//! Snapshots of the whole machine: identical machines give identical bytes, and the bytes give the
//! machine back. The translation caches are not part of a snapshot; they refill after a restore.
use vstd::prelude::*;
use crate::cpu::{Cpu, Seg, PCIDS, TLB_SETS};
use crate::snap::{put_blob, put_u16, put_words, Snap};
use crate::sys::Sys;
#[allow(unused_imports)]
use crate::cpu::{dec_seg, enc_seg, lemma_dec_seg, CpuState};
#[allow(unused_imports)]
use crate::simd::{high64, joined};
#[allow(unused_imports)]
use crate::snap::{
    at, dec_u16, dec_u64, dec_words, enc_blob, enc_u16, enc_u64, enc_words, lemma_at_self,
    lemma_at_split, lemma_at_subrange, lemma_cat, lemma_dec_u16, lemma_dec_u64, lemma_dec_words,
    lemma_enc_words_len,
};
#[allow(unused_imports)]
use crate::sys::{
    dec_disk, dec_input_slot, dec_net_slot, dec_rest, dec_sys, disk_view, enc_sys, enc_sys_earlier,
    fresh_sys, law_sys_earlier, law_sys_round_trip, sys_kept, sys_sized, SysState,
};
#[allow(unused_imports)]
use crate::uart::dec_uart;

verus! {

/// The words at the head of a snapshot.
pub const HEAD_WORDS: u64 = 72;

/// Both halves of every SSE register.
pub open spec fn xmm_words(x: Seq<u128>) -> Seq<u64> {
    Seq::new(2 * x.len(), |i: int| if i % 2 == 0 { x[i / 2] as u64 } else { high64(x[i / 2]) })
}

/// The single registers of a snapshot's head.
pub open spec fn single_words(s: CpuState) -> Seq<u64> {
    seq![s.rip, s.rflags, s.insns, s.cr0, s.cr2, s.cr3, s.cr4, s.efer]
}

/// The words of a snapshot's head.
pub open spec fn machine_words(s: CpuState) -> Seq<u64> {
    s.r + (single_words(s) + (s.dr + (xmm_words(s.xmm) + s.fpr)))
}

/// The segment registers, one after the other.
pub open spec fn enc_segs(v: Seq<Seg>) -> Seq<u8>
    decreases v.len(),
{
    if v.len() == 0 {
        Seq::empty()
    } else {
        enc_segs(v.drop_last()) + enc_seg(v.last())
    }
}

/// The segment registers found at a position.
pub open spec fn dec_segs(b: Seq<u8>, p: int, n: nat) -> Seq<Seg> {
    Seq::new(n, |i: int| dec_seg(b, p + 11 * i))
}

/// The platform, behind a flag that says whether there is one.
#[verifier::opaque]
pub open spec fn enc_platform(s: CpuState) -> Seq<u8> {
    if s.platform {
        seq![1u8] + enc_sys(s.sys)
    } else {
        seq![0u8]
    }
}

/// The same in the earlier format, which has no slot for a network device.
#[verifier::opaque]
pub open spec fn enc_platform_earlier(s: CpuState) -> Seq<u8> {
    if s.platform {
        seq![1u8] + enc_sys_earlier(s.sys)
    } else {
        seq![0u8]
    }
}

/// The registers of a machine, and what follows them.
pub open spec fn enc_registers(s: CpuState, rest: Seq<u8>) -> Seq<u8> {
    enc_words(machine_words(s)) + (seq![s.ftop] + (enc_u16(s.fcw) + (enc_u16(s.fsw) + (enc_segs(
        s.seg,
    ) + (seq![s.cpl] + rest)))))
}

/// The bytes of a machine without its memory.
#[verifier::opaque]
pub open spec fn enc_machine(s: CpuState) -> Seq<u8> {
    enc_registers(s, enc_platform(s))
}

/// The same in the earlier format.
#[verifier::opaque]
pub open spec fn enc_machine_earlier(s: CpuState) -> Seq<u8> {
    enc_registers(s, enc_platform_earlier(s))
}

/// The bytes of a machine with its memory.
pub open spec fn enc_snapshot(s: CpuState) -> Seq<u8> {
    enc_machine(s) + enc_blob(s.ram)
}

/// What a snapshot holds of a machine, apart from memory.
#[verifier::ext_equal]
pub ghost struct FrozenState {
    pub words: Seq<u64>,
    pub ftop: u8,
    pub fcw: u16,
    pub fsw: u16,
    pub seg: Seq<Seg>,
    pub cpl: u8,
    pub sys: Option<SysState>,
}

/// What a snapshot holds of a state.
pub open spec fn frozen_of(s: CpuState) -> FrozenState {
    FrozenState {
        words: machine_words(s),
        ftop: s.ftop,
        fcw: s.fcw,
        fsw: s.fsw,
        seg: s.seg,
        cpl: s.cpl,
        sys: if s.platform { Some(sys_kept(s.sys)) } else { None },
    }
}

/// The platform found at a position.
#[verifier::opaque]
pub open spec fn dec_platform(b: Seq<u8>, p: int, has_net: bool, disk_ok: bool) -> Option<
    (Option<SysState>, int),
> {
    if p >= b.len() {
        None
    } else if b[p] == 0 {
        Some((None, 1))
    } else {
        match dec_sys(b, p + 1, has_net, disk_ok) {
            Some((s, n)) => Some((Some(s), n + 1)),
            None => None,
        }
    }
}

/// The machine found at a position, with its length, or `None` where the bytes are truncated or the
/// disk is refused.
#[verifier::opaque]
pub open spec fn dec_machine(b: Seq<u8>, p: int, has_net: bool, disk_ok: bool) -> Option<
    (FrozenState, int),
> {
    if p + 648 > b.len() {
        None
    } else {
        match dec_platform(b, p + 648, has_net, disk_ok) {
            Some((sys, n)) => Some(
                (
                    FrozenState {
                        words: dec_words(b, p, 72),
                        ftop: b[p + 576],
                        fcw: dec_u16(b, p + 577),
                        fsw: dec_u16(b, p + 579),
                        seg: dec_segs(b, p + 581, 6),
                        cpl: b[p + 647],
                        sys,
                    },
                    648 + n,
                ),
            ),
            None => None,
        }
    }
}

/// The machine and the memory found in snapshot bytes.
pub open spec fn dec_snapshot(b: Seq<u8>, disk_ok: bool) -> Option<(FrozenState, Seq<u8>)> {
    match dec_machine(b, 0, true, disk_ok) {
        None => None,
        Some((f, n)) => {
            let m = dec_u64(b, n);
            if n + 8 > b.len() || n + 8 + m > b.len() {
                None
            } else {
                Some((f, b.subrange(n + 8, n + 8 + m)))
            }
        },
    }
}

/// A machine with the words of a snapshot's head in its registers.
pub open spec fn head_taken(s: CpuState, words: Seq<u64>) -> CpuState {
    CpuState {
        r: words.subrange(0, 16),
        rip: words[16],
        rflags: words[17],
        insns: words[18],
        cr0: words[19],
        cr2: words[20],
        cr3: words[21],
        cr4: words[22],
        efer: words[23],
        dr: words.subrange(24, 32),
        xmm: Seq::new(16, |i: int| joined(words[32 + 2 * i], words[33 + 2 * i])),
        fpr: words.subrange(64, 72),
        ..s
    }
}

/// A machine with the registers and the platform of a snapshot in place, over its own memory.
#[verifier::opaque]
pub open spec fn state_taken(s: CpuState, f: FrozenState) -> CpuState {
    CpuState {
        ftop: f.ftop,
        fcw: f.fcw,
        fsw: f.fsw,
        seg: f.seg,
        cpl: f.cpl,
        platform: f.sys is Some,
        sys: if f.sys is Some { f.sys->0 } else { fresh_sys() },
        ..head_taken(s, f.words)
    }
}

/// A machine with what a snapshot holds in place; the translation caches are stale from here on.
#[verifier::opaque]
pub open spec fn thawed(s: CpuState, f: FrozenState, ram: Seq<u8>) -> CpuState {
    CpuState {
        ram,
        tlb_gen: s.tlb_gen.wrapping_add(1),
        ifetch_gen: 0,
        ..state_taken(s, f)
    }
}

/// How many bytes a word of a snapshot's head ends at; an SSE register takes both of its halves.
pub open spec fn word_end(i: int) -> int {
    if 32 <= i < 64 && i % 2 == 0 {
        8 * (i + 2)
    } else {
        8 * (i + 1)
    }
}

/// The words of a machine, but for those that stand in the bytes.
pub open spec fn words_there(s: CpuState, b: Seq<u8>) -> Seq<u64> {
    Seq::new(
        72,
        |i: int| if word_end(i) <= b.len() { dec_u64(b, 8 * i) } else { machine_words(s)[i] },
    )
}

/// The segment registers of a machine, but for those that stand in the bytes.
pub open spec fn segs_there(s: CpuState, b: Seq<u8>) -> Seq<Seg> {
    Seq::new(
        6,
        |i: int| if 592 + 11 * i <= b.len() { dec_seg(b, 581 + 11 * i) } else { s.seg[i] },
    )
}

/// A machine whose state could not be read to its end: each register is the one in the bytes, as far
/// as they go, and the platform is its own.
#[verifier::opaque]
pub open spec fn state_begun(s: CpuState, b: Seq<u8>) -> CpuState {
    CpuState {
        ftop: if b.len() >= 577 { b[576] } else { s.ftop },
        fcw: if b.len() >= 579 { dec_u16(b, 577) } else { s.fcw },
        fsw: if b.len() >= 581 { dec_u16(b, 579) } else { s.fsw },
        seg: segs_there(s, b),
        cpl: if b.len() >= 648 { b[647] } else { s.cpl },
        ..head_taken(s, words_there(s, b))
    }
}

/// What reading a state makes of a machine, before its memory comes: all of the state, or as much as
/// there is.
pub open spec fn state_left(s: CpuState, b: Seq<u8>, has_net: bool, disk_ok: bool) -> CpuState {
    match dec_machine(b, 0, has_net, disk_ok) {
        Some((f, _)) => state_taken(s, f),
        None => state_begun(s, b),
    }
}

// ----- laws -----

/// The disk of a machine, if it has one, is one that its reader takes.
pub open spec fn disk_taken(s: CpuState, disk_ok: bool) -> bool {
    s.platform && s.sys.disk is Some ==> disk_ok
}

/// The register files have their sizes.
pub open spec fn shaped(s: CpuState) -> bool {
    s.r.len() == 16 && s.dr.len() == 8 && s.xmm.len() == 16 && s.fpr.len() == 8 && s.seg.len() == 6
}

proof fn lemma_enc_segs_len(v: Seq<Seg>)
    ensures
        enc_segs(v).len() == 11 * v.len(),
    decreases v.len(),
{
    if v.len() > 0 {
        lemma_enc_segs_len(v.drop_last());
    }
}

proof fn lemma_dec_segs(b: Seq<u8>, p: int, v: Seq<Seg>)
    requires
        at(b, p, enc_segs(v)),
    ensures
        dec_segs(b, p, v.len()) == v,
    decreases v.len(),
{
    if v.len() > 0 {
        let w = v.drop_last();
        lemma_enc_segs_len(w);
        lemma_at_split(b, p, enc_segs(w), enc_seg(v.last()));
        lemma_dec_segs(b, p, w);
        lemma_dec_seg(b, p + 11 * w.len(), v.last());
        assert forall|i: int| 0 <= i < v.len() implies dec_segs(b, p, v.len())[i] == v[i] by {
            if i < w.len() {
                assert(dec_segs(b, p, w.len())[i] == w[i]);
            }
        }
    }
    assert(dec_segs(b, p, v.len()) =~= v);
}

proof fn lemma_dec_platform(b: Seq<u8>, p: int, s: CpuState, disk_ok: bool)
    requires
        s.platform ==> sys_sized(s.sys),
        disk_taken(s, disk_ok),
        at(b, p, enc_platform(s)),
    ensures
        dec_platform(b, p, true, disk_ok) == Some((frozen_of(s).sys, enc_platform(s).len() as int)),
{
    reveal(enc_platform);
    reveal(dec_platform);
    assert(b[p + 0] == enc_platform(s)[0]);
    if s.platform {
        lemma_at_split(b, p, seq![1u8], enc_sys(s.sys));
        law_sys_round_trip(b, p + 1, s.sys, disk_ok);
    }
}

/// A machine reads back from its snapshot, wherever the snapshot stands.
pub proof fn law_machine_round_trip(b: Seq<u8>, p: int, s: CpuState, disk_ok: bool)
    requires
        shaped(s),
        s.platform ==> sys_sized(s.sys),
        disk_taken(s, disk_ok),
        at(b, p, enc_machine(s)),
    ensures
        dec_machine(b, p, true, disk_ok) == Some((frozen_of(s), enc_machine(s).len() as int)),
{
    reveal(enc_machine);
    lemma_at_rest(b, p, s, enc_platform(s));
    lemma_dec_platform(b, p + 648, s, disk_ok);
    lemma_dec_registers(b, p, s, enc_platform(s), true, disk_ok);
}

/// A machine without a network device reads back from its bytes in the earlier format.
pub proof fn law_machine_earlier(b: Seq<u8>, p: int, s: CpuState, disk_ok: bool)
    requires
        shaped(s),
        s.platform ==> sys_sized(s.sys) && s.sys.net is None,
        disk_taken(s, disk_ok),
        at(b, p, enc_machine_earlier(s)),
    ensures
        dec_machine(b, p, false, disk_ok) == Some((frozen_of(s), enc_machine_earlier(s).len() as int)),
{
    reveal(enc_machine_earlier);
    lemma_at_rest(b, p, s, enc_platform_earlier(s));
    assert(dec_platform(b, p + 648, false, disk_ok) == Some(
        (frozen_of(s).sys, enc_platform_earlier(s).len() as int),
    )) by {
        reveal(enc_platform_earlier);
        reveal(dec_platform);
        assert(b[p + 648 + 0] == enc_platform_earlier(s)[0]);
        if s.platform {
            lemma_at_split(b, p + 648, seq![1u8], enc_sys_earlier(s.sys));
            law_sys_earlier(b, p + 649, s.sys, disk_ok);
        }
    }
    lemma_dec_registers(b, p, s, enc_platform_earlier(s), false, disk_ok);
}

proof fn lemma_at_rest(b: Seq<u8>, p: int, s: CpuState, rest: Seq<u8>)
    requires
        shaped(s),
        at(b, p, enc_registers(s, rest)),
    ensures
        at(b, p + 648, rest),
{
    let w = machine_words(s);
    let e6 = seq![s.cpl] + rest;
    let e5 = enc_segs(s.seg) + e6;
    let e4 = enc_u16(s.fsw) + e5;
    let e3 = enc_u16(s.fcw) + e4;
    let e2 = seq![s.ftop] + e3;
    lemma_enc_words_len(w);
    lemma_enc_segs_len(s.seg);
    lemma_at_split(b, p, enc_words(w), e2);
    lemma_at_split(b, p + 576, seq![s.ftop], e3);
    lemma_at_split(b, p + 577, enc_u16(s.fcw), e4);
    lemma_at_split(b, p + 579, enc_u16(s.fsw), e5);
    lemma_at_split(b, p + 581, enc_segs(s.seg), e6);
    lemma_at_split(b, p + 647, seq![s.cpl], rest);
}

proof fn lemma_dec_registers(
    b: Seq<u8>,
    p: int,
    s: CpuState,
    rest: Seq<u8>,
    has_net: bool,
    disk_ok: bool,
)
    requires
        shaped(s),
        at(b, p, enc_registers(s, rest)),
        dec_platform(b, p + 648, has_net, disk_ok) == Some((frozen_of(s).sys, rest.len() as int)),
    ensures
        dec_machine(b, p, has_net, disk_ok) == Some((frozen_of(s), enc_registers(s, rest).len() as int)),
{
    reveal(dec_machine);
    let w = machine_words(s);
    let e6 = seq![s.cpl] + rest;
    let e5 = enc_segs(s.seg) + e6;
    let e4 = enc_u16(s.fsw) + e5;
    let e3 = enc_u16(s.fcw) + e4;
    let e2 = seq![s.ftop] + e3;
    lemma_enc_words_len(w);
    lemma_enc_segs_len(s.seg);
    lemma_at_split(b, p, enc_words(w), e2);
    lemma_dec_words(b, p, w);
    lemma_at_split(b, p + 576, seq![s.ftop], e3);
    assert(b[p + 576 + 0] == seq![s.ftop][0]);
    lemma_at_split(b, p + 577, enc_u16(s.fcw), e4);
    lemma_dec_u16(b, p + 577, s.fcw);
    lemma_at_split(b, p + 579, enc_u16(s.fsw), e5);
    lemma_dec_u16(b, p + 579, s.fsw);
    lemma_at_split(b, p + 581, enc_segs(s.seg), e6);
    lemma_dec_segs(b, p + 581, s.seg);
    lemma_at_split(b, p + 647, seq![s.cpl], rest);
    assert(b[p + 647 + 0] == seq![s.cpl][0]);
}

/// A snapshot read back gives the machine and its memory.
pub proof fn law_snapshot_round_trip(s: CpuState, disk_ok: bool)
    requires
        shaped(s),
        s.platform ==> sys_sized(s.sys),
        disk_taken(s, disk_ok),
        s.ram.len() <= u64::MAX,
    ensures
        dec_snapshot(enc_snapshot(s), disk_ok) == Some((frozen_of(s), s.ram)),
{
    let b = enc_snapshot(s);
    let n = enc_machine(s).len() as int;
    lemma_at_self(b);
    lemma_at_split(b, 0, enc_machine(s), enc_blob(s.ram));
    law_machine_round_trip(b, 0, s, disk_ok);
    lemma_at_split(b, n, enc_u64(s.ram.len() as u64), s.ram);
    lemma_dec_u64(b, n, s.ram.len() as u64);
    lemma_at_subrange(b, n + 8, s.ram);
}

/// A snapshot of a machine whose disk its reader refuses is refused.
pub proof fn law_refused_disk(s: CpuState)
    requires
        shaped(s),
        s.platform && sys_sized(s.sys),
        s.sys.disk is Some,
    ensures
        disk_in(enc_snapshot(s), true) == s.sys.disk,
        dec_snapshot(enc_snapshot(s), false) is None,
{
    let b = enc_snapshot(s);
    lemma_at_self(b);
    lemma_at_split(b, 0, enc_machine(s), enc_blob(s.ram));
    law_machine_round_trip(b, 0, s, true);
    reveal(dec_machine);
    reveal(dec_platform);
    reveal(dec_sys);
    reveal(dec_disk);
    assert(b[648] != 0 && b[649] != 0) by {
        if b[648] == 0 {
            assert((dec_machine(b, 0, true, true)->0).0.sys is None);
        } else if b[649] == 0 {
            reveal(dec_rest);
        }
    }
}

/// A refused snapshot changes neither memory nor the translation caches nor the switches; without a
/// byte of it nothing changes at all.
pub proof fn law_refused_keeps(s: CpuState, b: Seq<u8>, has_net: bool, disk_ok: bool)
    requires
        shaped(s),
    ensures
        ({
            let t = state_left(s, b, has_net, disk_ok);
            &&& t.ram == s.ram
            &&& t.tlb == s.tlb && t.tlb_gen == s.tlb_gen && t.ifetch_gen == s.ifetch_gen
            &&& t.cfg == s.cfg
            &&& shaped(t)
            &&& b.len() == 0 ==> t == s
        }),
{
    reveal(state_taken);
    reveal(state_begun);
    reveal(dec_machine);
    if b.len() == 0 {
        let t = state_begun(s, b);
        let w = words_there(s, b);
        assert(w =~= machine_words(s));
        assert(w.subrange(0, 16) =~= s.r);
        assert(w.subrange(24, 32) =~= s.dr);
        assert(w.subrange(64, 72) =~= s.fpr);
        assert(t.xmm =~= s.xmm) by {
            assert forall|i: int| 0 <= i < 16 implies t.xmm[i] == s.xmm[i] by {
                crate::save_laws::lemma_words(0, 0, s.xmm[i]);
                assert(w[32 + 2 * i] == xmm_words(s.xmm)[2 * i]);
                assert(w[33 + 2 * i] == xmm_words(s.xmm)[2 * i + 1]);
            }
        }
        assert(t.seg =~= s.seg);
    }
}

/// A machine restored from another's snapshot is that machine: registers, segments, memory and
/// platform. Only the translation caches, the switches and the counters are its own, and of the
/// platform it lacks what a snapshot does not hold.
pub proof fn law_restored_machine(m: CpuState, s: CpuState)
    requires
        shaped(s),
        s.platform,
    ensures
        thawed(m, frozen_of(s), s.ram) == (CpuState {
            cur_seg: m.cur_seg,
            rex_present: m.rex_present,
            fault: m.fault,
            tlb: m.tlb,
            tlb_gen: m.tlb_gen.wrapping_add(1),
            ifetch_tag: m.ifetch_tag,
            ifetch_frame: m.ifetch_frame,
            ifetch_gen: 0,
            ifetch_pgen: m.ifetch_pgen,
            ifetch_pcid: m.ifetch_pcid,
            pcid_gen: m.pcid_gen,
            cfg: m.cfg,
            dev: m.dev,
            sys: sys_kept(s.sys),
            ..s
        }),
{
    reveal(thawed);
    reveal(state_taken);
    let w = machine_words(s);
    let t = thawed(m, frozen_of(s), s.ram);
    assert(w.len() == 72);
    assert(w.subrange(0, 16) =~= s.r);
    assert(w.subrange(24, 32) =~= s.dr);
    assert(w.subrange(64, 72) =~= s.fpr);
    assert(t.xmm =~= s.xmm) by {
        assert forall|i: int| 0 <= i < 16 implies t.xmm[i] == s.xmm[i] by {
            crate::save_laws::lemma_words(0, 0, s.xmm[i]);
            assert(w[32 + 2 * i] == xmm_words(s.xmm)[2 * i]);
            assert(w[33 + 2 * i] == xmm_words(s.xmm)[2 * i + 1]);
        }
    }
}

/// Restoring and taking a snapshot again gives the same bytes.
pub proof fn law_snapshot_again(m: CpuState, s: CpuState)
    requires
        shaped(s),
        s.platform,
    ensures
        enc_snapshot(thawed(m, frozen_of(s), s.ram)) == enc_snapshot(s),
{
    law_restored_machine(m, s);
    reveal(enc_machine);
    reveal(enc_platform);
    reveal(enc_sys);
    reveal(crate::sys::enc_tables);
    reveal(crate::sys::enc_counters);
}

proof fn lemma_word_prefix(b: Seq<u8>, n: int, p: int)
    requires
        0 <= p,
        p + 8 <= n <= b.len(),
    ensures
        dec_u64(b.take(n), p) == dec_u64(b, p),
{
}

/// The length of a decoded part, if it can be decoded.
pub open spec fn length_of<T>(r: Option<(T, int)>) -> Option<int> {
    match r {
        Some((_, n)) => Some(n),
        None => None,
    }
}

proof fn lemma_disk_prefix(b: Seq<u8>, n: int, p: int, disk_ok: bool)
    requires
        0 <= p,
        0 <= n <= b.len(),
        dec_disk(b.take(n), p, disk_ok) is Some,
    ensures
        length_of(dec_disk(b, p, true)) == length_of(dec_disk(b.take(n), p, disk_ok)),
        p + (dec_disk(b.take(n), p, disk_ok)->0).1 <= n,
        (dec_disk(b.take(n), p, disk_ok)->0).1 >= 0,
{
    reveal(dec_disk);
    if b.take(n)[p] != 0 {
        lemma_word_prefix(b, n, p + 1);
    }
}

proof fn lemma_slots_prefix(b: Seq<u8>, n: int, p: int)
    requires
        0 <= p,
        0 <= n <= b.len(),
    ensures
        dec_input_slot(b.take(n), p) is Some ==> {
            &&& length_of(dec_input_slot(b, p)) == length_of(dec_input_slot(b.take(n), p))
            &&& 0 <= p + (dec_input_slot(b.take(n), p)->0).1 <= n
            &&& (dec_input_slot(b.take(n), p)->0).1 >= 0
        },
        dec_net_slot(b.take(n), p, true) is Some ==> {
            &&& length_of(dec_net_slot(b, p, true)) == length_of(dec_net_slot(b.take(n), p, true))
            &&& 0 <= p + (dec_net_slot(b.take(n), p, true)->0).1 <= n
            &&& (dec_net_slot(b.take(n), p, true)->0).1 >= 0
        },
{
    reveal(dec_input_slot);
    reveal(dec_net_slot);
}

proof fn lemma_uart_prefix(b: Seq<u8>, n: int, p: int)
    requires
        0 <= p,
        0 <= n <= b.len(),
        dec_uart(b.take(n), p) is Some,
    ensures
        length_of(dec_uart(b, p)) == length_of(dec_uart(b.take(n), p)),
        p + (dec_uart(b.take(n), p)->0).1 <= n,
        (dec_uart(b.take(n), p)->0).1 >= 0,
{
    reveal(dec_uart);
    lemma_word_prefix(b, n, p);
    lemma_word_prefix(b, n, p + 8 + dec_u64(b.take(n), p));
}

proof fn lemma_sys_prefix(b: Seq<u8>, n: int, p: int, disk_ok: bool)
    requires
        0 <= p,
        0 <= n <= b.len(),
        dec_sys(b.take(n), p, true, disk_ok) is Some,
    ensures
        length_of(dec_sys(b, p, true, true)) == length_of(dec_sys(b.take(n), p, true, disk_ok)),
        p + (dec_sys(b.take(n), p, true, disk_ok)->0).1 <= n,
        (dec_sys(b.take(n), p, true, disk_ok)->0).1 >= 0,
{
    reveal(dec_sys);
    let a = b.take(n);
    lemma_disk_prefix(b, n, p, disk_ok);
    let n1 = (dec_disk(a, p, disk_ok)->0).1;
    lemma_slots_prefix(b, n, p + n1);
    let n2 = (dec_input_slot(a, p + n1)->0).1;
    lemma_slots_prefix(b, n, p + n1 + n2);
    let n3 = (dec_net_slot(a, p + n1 + n2, true)->0).1;
    let p3 = p + n1 + n2 + n3;
    lemma_uart_prefix(b, n, p3);
    let p4 = p3 + (dec_uart(a, p3)->0).1;
    reveal(dec_rest);
    lemma_word_prefix(b, n, p4 + 28);
    let q = p4 + 36 + 12 * dec_u64(a, p4 + 28);
    lemma_word_prefix(b, n, q + 143);
}

/// A snapshot cut short anywhere is refused, whatever the disk's reader says.
pub proof fn law_truncated_snapshot(s: CpuState, n: int, disk_ok: bool)
    requires
        shaped(s),
        s.platform ==> sys_sized(s.sys),
        s.ram.len() <= u64::MAX,
        0 <= n < enc_snapshot(s).len(),
    ensures
        dec_snapshot(enc_snapshot(s).take(n), disk_ok) is None,
{
    let b = enc_snapshot(s);
    let a = b.take(n);
    let k = enc_machine(s).len() as int;
    lemma_at_self(b);
    lemma_at_split(b, 0, enc_machine(s), enc_blob(s.ram));
    law_machine_round_trip(b, 0, s, true);
    lemma_at_split(b, k, enc_u64(s.ram.len() as u64), s.ram);
    lemma_dec_u64(b, k, s.ram.len() as u64);
    if dec_snapshot(a, disk_ok) is Some {
        reveal(dec_machine);
        reveal(dec_platform);
        if a[648] != 0 {
            lemma_sys_prefix(b, n, 649, disk_ok);
        }
        assert((dec_machine(a, 0, true, disk_ok)->0).1 == k);
        lemma_word_prefix(b, n, k);
        assert(false);
    }
}

// ----- the executable part -----

/// What a snapshot holds of a machine, apart from memory.
pub struct Frozen {
    pub words: Vec<u64>,
    pub ftop: u8,
    pub fcw: u16,
    pub fsw: u16,
    pub seg: Vec<Seg>,
    pub cpl: u8,
    pub sys: Option<Sys>,
}

/// The contents of an optional platform.
pub open spec fn platform_of(s: Option<Sys>) -> Option<SysState> {
    match s {
        Some(x) => Some(x@),
        None => None,
    }
}

impl View for Frozen {
    type V = FrozenState;

    open spec fn view(&self) -> FrozenState {
        FrozenState {
            words: self.words@,
            ftop: self.ftop,
            fcw: self.fcw,
            fsw: self.fsw,
            seg: self.seg@,
            cpl: self.cpl,
            sys: platform_of(self.sys),
        }
    }
}

impl Frozen {
    fn read_segs(s: &mut Snap) -> (r: Option<Vec<Seg>>)
        requires
            old(s).wf(),
        ensures
            final(s).wf(),
            final(s).b@ == old(s).b@,
            match r {
                Some(v) => old(s).has(66) && v@ == dec_segs(old(s).b@, old(s).p as int, 6)
                    && final(s).moved(old(s), 66),
                None => !old(s).has(66),
            },
    {
        let mut v: Vec<Seg> = Vec::new();
        let mut i: usize = 0;
        while i < 6
            invariant
                i <= 6,
                s.wf(),
                s.moved(old(s), 11 * i),
                old(s).has(11 * i),
                v@ == dec_segs(old(s).b@, old(s).p as int, i as nat),
            decreases 6 - i,
        {
            match Seg::unsnap(s) {
                Some(g) => {
                    v.push(g);
                    assert(v@ =~= dec_segs(old(s).b@, old(s).p as int, (i + 1) as nat));
                    i = i + 1;
                },
                None => {
                    return None;
                },
            }
        }
        Some(v)
    }

    fn read_platform(s: &mut Snap, has_net: bool, disk_ok: bool) -> (r: Option<Option<Sys>>)
        requires
            old(s).wf(),
        ensures
            final(s).wf(),
            final(s).b@ == old(s).b@,
            match r {
                Some(x) => dec_platform(old(s).b@, old(s).p as int, has_net, disk_ok) == Some(
                    (platform_of(x), final(s).p - old(s).p),
                ),
                None => dec_platform(old(s).b@, old(s).p as int, has_net, disk_ok) is None,
            },
    {
        proof {
            reveal(dec_platform);
        }
        let flag: u8 = s.u8()?;
        if flag == 0 {
            Some(None)
        } else {
            let sys: Sys = Sys::unsnap(s, has_net, disk_ok)?;
            Some(Some(sys))
        }
    }

    /// Read a machine from snapshot bytes; the earlier format (`has_net` false) has no network device.
    /// A disk that its own reader refuses (`disk_ok` false) is refused.
    pub fn read(s: &mut Snap, has_net: bool, disk_ok: bool) -> (r: Option<Frozen>)
        requires
            old(s).wf(),
        ensures
            final(s).wf(),
            final(s).b@ == old(s).b@,
            match r {
                Some(x) => dec_machine(old(s).b@, old(s).p as int, has_net, disk_ok) == Some(
                    (x@, final(s).p - old(s).p),
                ),
                None => dec_machine(old(s).b@, old(s).p as int, has_net, disk_ok) is None,
            },
    {
        proof {
            reveal(dec_machine);
        }
        let words: Vec<u64> = s.words(HEAD_WORDS)?;
        let ftop: u8 = s.u8()?;
        let fcw: u16 = s.u16()?;
        let fsw: u16 = s.u16()?;
        let seg: Vec<Seg> = Self::read_segs(s)?;
        let cpl: u8 = s.u8()?;
        let sys: Option<Sys> = Self::read_platform(s, has_net, disk_ok)?;
        Some(Frozen { words, ftop, fcw, fsw, seg, cpl, sys })
    }
}

/// The disk that stands in a machine's snapshot bytes.
pub open spec fn disk_in(b: Seq<u8>, has_net: bool) -> Option<Seq<u8>> {
    match dec_machine(b, 0, has_net, true) {
        Some((f, _)) => match f.sys {
            Some(sys) => sys.disk,
            None => None,
        },
        None => None,
    }
}

/// The bytes of the disk in a snapshot, or in the state of a manifest or a self-contained snapshot,
/// for the disk's own reader; the earlier format (`has_net` false) has no network device.
pub fn snapshot_disk(state: &[u8], has_net: bool) -> (d: Option<Vec<u8>>)
    ensures
        disk_view(d) == disk_in(state@, has_net),
{
    let mut s: Snap = Snap::new(state);
    match Frozen::read(&mut s, has_net, true) {
        Some(f) => match f.sys {
            Some(sys) => sys.disk,
            None => None,
        },
        None => None,
    }
}

fn words16(w: &Vec<u64>, from: usize) -> (a: [u64; 16])
    requires
        from + 16 <= w@.len(),
    ensures
        a@ == w@.subrange(from as int, from + 16),
{
    let mut a: [u64; 16] = [0; 16];
    let mut i: usize = 0;
    while i < 16
        invariant
            i <= 16,
            from + 16 <= w@.len(),
            forall|k: int| 0 <= k < i ==> a@[k] == w@[from + k],
        decreases 16 - i,
    {
        let _n: usize = w.len();
        a[i] = w[from + i];
        i = i + 1;
    }
    assert(a@ =~= w@.subrange(from as int, from + 16));
    a
}

fn words8(w: &Vec<u64>, from: usize) -> (a: [u64; 8])
    requires
        from + 8 <= w@.len(),
    ensures
        a@ == w@.subrange(from as int, from + 8),
{
    let mut a: [u64; 8] = [0; 8];
    let mut i: usize = 0;
    while i < 8
        invariant
            i <= 8,
            from + 8 <= w@.len(),
            forall|k: int| 0 <= k < i ==> a@[k] == w@[from + k],
        decreases 8 - i,
    {
        let _n: usize = w.len();
        a[i] = w[from + i];
        i = i + 1;
    }
    assert(a@ =~= w@.subrange(from as int, from + 8));
    a
}

fn xmm16(w: &Vec<u64>) -> (a: [u128; 16])
    requires
        w@.len() == 72,
    ensures
        a@ == Seq::new(16, |i: int| joined(w@[32 + 2 * i], w@[33 + 2 * i])),
{
    let mut a: [u128; 16] = [0; 16];
    let mut i: usize = 0;
    while i < 16
        invariant
            i <= 16,
            w@.len() == 72,
            forall|k: int| 0 <= k < i ==> a@[k] == joined(w@[32 + 2 * k], w@[33 + 2 * k]),
        decreases 16 - i,
    {
        a[i] = (w[32 + 2 * i] as u128) | ((w[33 + 2 * i] as u128) << 64);
        i = i + 1;
    }
    assert(a@ =~= Seq::new(16, |i: int| joined(w@[32 + 2 * i], w@[33 + 2 * i])));
    a
}

fn push_all(o: &mut Vec<u64>, v: &[u64])
    ensures
        final(o)@ == old(o)@ + v@,
{
    o.extend_from_slice(v);
    assert(o@ =~= old(o)@ + v@);
}

impl Cpu {
    fn xmm_halves(&self) -> (v: Vec<u64>)
        ensures
            v@ == xmm_words(self@.xmm),
    {
        let mut v: Vec<u64> = Vec::new();
        let mut i: usize = 0;
        while i < 16
            invariant
                i <= 16,
                v@.len() == 2 * i,
                forall|k: int| 0 <= k < 2 * i ==> v@[k] == xmm_words(self@.xmm)[k],
            decreases 16 - i,
        {
            v.push(self.xmm[i] as u64);
            v.push((self.xmm[i] >> 64) as u64);
            i = i + 1;
        }
        assert(v@ =~= xmm_words(self@.xmm));
        v
    }

    fn head_words(&self) -> (v: Vec<u64>)
        ensures
            v@ == machine_words(self@),
    {
        let mut v: Vec<u64> = Vec::new();
        push_all(&mut v, &self.r);
        let single: [u64; 8] = [
            self.rip,
            self.rflags,
            self.insns,
            self.cr0,
            self.cr2,
            self.cr3,
            self.cr4,
            self.efer,
        ];
        assert(single@ =~= single_words(self@));
        push_all(&mut v, &single);
        push_all(&mut v, &self.dr);
        let x: Vec<u64> = self.xmm_halves();
        push_all(&mut v, x.as_slice());
        push_all(&mut v, &self.fpr);
        assert(v@ =~= machine_words(self@));
        v
    }

    fn put_segs(&self, o: &mut Vec<u8>)
        ensures
            final(o)@ == old(o)@ + enc_segs(self@.seg),
    {
        let mut i: usize = 0;
        while i < 6
            invariant
                i <= 6,
                o@ == old(o)@ + enc_segs(self@.seg.take(i as int)),
            decreases 6 - i,
        {
            let ghost before = o@;
            self.seg[i].snap(o);
            proof {
                assert(self@.seg.take(i + 1).drop_last() =~= self@.seg.take(i as int));
                assert(self@.seg.take(i + 1).last() == self@.seg[i as int]);
                lemma_cat(
                    old(o)@,
                    enc_segs(self@.seg.take(i as int)),
                    enc_seg(self@.seg[i as int]),
                );
            }
            i = i + 1;
        }
        assert(self@.seg.take(6) =~= self@.seg);
    }

    fn put_platform(&self, o: &mut Vec<u8>)
        ensures
            final(o)@ == old(o)@ + enc_platform(self@),
    {
        broadcast use lemma_cat;

        proof {
            reveal(enc_platform);
        }
        if self.platform {
            o.push(1);
            assert(o@ =~= old(o)@ + seq![1u8]);
            self.sys.snap(o);
        } else {
            o.push(0);
            assert(o@ =~= old(o)@ + seq![0u8]);
        }
    }

    /// The machine without its memory, as bytes.
    pub fn snapshot_state(&self) -> (o: Vec<u8>)
        ensures
            o@ == enc_machine(self@),
    {
        broadcast use lemma_cat;

        proof {
            reveal(enc_machine);
        }
        let mut o: Vec<u8> = Vec::new();
        let w: Vec<u64> = self.head_words();
        put_words(&mut o, w.as_slice());
        let ghost o1 = o@;
        o.push(self.ftop);
        assert(o@ =~= o1 + seq![self@.ftop]);
        put_u16(&mut o, self.fcw);
        put_u16(&mut o, self.fsw);
        self.put_segs(&mut o);
        let ghost o2 = o@;
        o.push(self.cpl);
        assert(o@ =~= o2 + seq![self@.cpl]);
        self.put_platform(&mut o);
        assert(o@ =~= enc_machine(self@));
        o
    }

    /// The machine with its memory, as bytes: identical machines give identical bytes.
    pub fn snapshot(&self) -> (o: Vec<u8>)
        ensures
            o@ == enc_snapshot(self@),
    {
        let mut o: Vec<u8> = self.snapshot_state();
        put_blob(&mut o, self.ram.as_slice());
        o
    }

    fn take_head(&mut self, w: &Vec<u64>)
        requires
            w@.len() == 72,
        ensures
            final(self)@ == head_taken(old(self)@, w@),
    {
        self.r = words16(w, 0);
        self.rip = w[16];
        self.rflags = w[17];
        self.insns = w[18];
        self.cr0 = w[19];
        self.cr2 = w[20];
        self.cr3 = w[21];
        self.cr4 = w[22];
        self.efer = w[23];
        self.dr = words8(w, 24);
        self.xmm = xmm16(w);
        self.fpr = words8(w, 64);
    }

    /// Put the registers and the platform that a snapshot holds in place.
    pub fn take_state(&mut self, f: Frozen)
        requires
            f.words@.len() == 72,
            f.seg@.len() == 6,
        ensures
            final(self)@ == state_taken(old(self)@, f@),
    {
        proof {
            reveal(state_taken);
        }
        self.take_head(&f.words);
        self.ftop = f.ftop;
        self.fcw = f.fcw;
        self.fsw = f.fsw;
        self.seg = [f.seg[0], f.seg[1], f.seg[2], f.seg[3], f.seg[4], f.seg[5]];
        assert(self.seg@ =~= f.seg@);
        self.cpl = f.cpl;
        match f.sys {
            Some(sys) => {
                self.platform = true;
                self.sys = sys;
            },
            None => {
                self.platform = false;
                self.sys = Sys::new();
            },
        }
    }

    /// Put the registers in place that stand in the bytes of a state, which cannot be read to its end.
    pub fn begin_state(&mut self, b: &[u8])
        ensures
            final(self)@ == state_begun(old(self)@, b@),
    {
        proof {
            reveal(state_begun);
        }
        let mut w: Vec<u64> = self.head_words();
        let mut i: usize = 0;
        while i < 72
            invariant
                i <= 72,
                w@.len() == 72,
                forall|k: int| 0 <= k < i ==> w@[k] == words_there(self@, b@)[k],
                forall|k: int| i <= k < 72 ==> w@[k] == machine_words(self@)[k],
                self@ == old(self)@,
            decreases 72 - i,
        {
            let end: usize = if 32 <= i && i < 64 && i % 2 == 0 { 8 * (i + 2) } else { 8 * (i + 1) };
            if end <= b.len() {
                let mut s: Snap = Snap { b, p: 8 * i };
                if let Some(v) = s.u64() {
                    w.set(i, v);
                }
            }
            i = i + 1;
        }
        assert(w@ =~= words_there(old(self)@, b@));
        self.take_head(&w);
        if b.len() >= 577 {
            self.ftop = b[576];
        }
        if b.len() >= 579 {
            let mut s: Snap = Snap { b, p: 577 };
            if let Some(v) = s.u16() {
                self.fcw = v;
            }
        }
        if b.len() >= 581 {
            let mut s: Snap = Snap { b, p: 579 };
            if let Some(v) = s.u16() {
                self.fsw = v;
            }
        }
        self.begin_segs(b);
        if b.len() >= 648 {
            self.cpl = b[647];
        }
    }

    fn begin_segs(&mut self, b: &[u8])
        ensures
            final(self)@ == (CpuState { seg: segs_there(old(self)@, b@), ..old(self)@ }),
    {
        let ghost before = self@;
        let mut i: usize = 0;
        while i < 6
            invariant
                i <= 6,
                before == old(self)@,
                self@ == (CpuState { seg: self@.seg, ..before }),
                forall|k: int| 0 <= k < i ==> self@.seg[k] == segs_there(before, b@)[k],
                forall|k: int| i <= k < 6 ==> self@.seg[k] == before.seg[k],
            decreases 6 - i,
        {
            if 592 + 11 * i <= b.len() {
                let mut s: Snap = Snap { b, p: 581 + 11 * i };
                if let Some(g) = Seg::unsnap(&mut s) {
                    self.seg[i] = g;
                }
            }
            i = i + 1;
        }
        assert(self@.seg =~= segs_there(before, b@));
    }

    /// Put what a snapshot holds in place. The translation caches refill from here on.
    pub fn thaw(&mut self, f: Frozen, ram: Vec<u8>)
        requires
            f.words@.len() == 72,
            f.seg@.len() == 6,
        ensures
            final(self)@ == thawed(old(self)@, f@, ram@),
    {
        proof {
            reveal(thawed);
            reveal(state_taken);
        }
        self.take_state(f);
        self.ram = ram;
        self.tlb_gen = self.tlb_gen.wrapping_add(1);
        self.ifetch_gen = 0;
    }

    /// Take over the machine of a [`Cpu::snapshot`]. Truncated bytes are refused, and so is a disk
    /// whose own reader refuses its bytes, which are those of [`snapshot_disk`]. The registers come
    /// as they are read, so that a refused machine has those that were there, over its own memory.
    pub fn restore(&mut self, snap: &[u8], disk_ok: bool) -> (done: bool)
        ensures
            match dec_snapshot(snap@, disk_ok) {
                Some((f, ram)) => done && final(self)@ == thawed(old(self)@, f, ram),
                None => !done && final(self)@ == state_left(old(self)@, snap@, true, disk_ok),
            },
    {
        let mut s: Snap = Snap::new(snap);
        let f: Frozen = match Frozen::read(&mut s, true, disk_ok) {
            Some(f) => f,
            None => {
                self.begin_state(snap);
                return false;
            },
        };
        proof {
            reveal(dec_machine);
        }
        match s.blob() {
            Some(ram) => {
                self.thaw(f, ram);
                true
            },
            None => {
                self.take_state(f);
                false
            },
        }
    }

    /// The machine can execute: it has a platform, with every set of its data cache.
    pub fn ready(&self) -> (b: bool)
        ensures
            b == self.wf(),
    {
        self.tlb.len() == TLB_SETS && self.pcid_gen.len() == PCIDS && self.platform
            && self.sys.dcache.len() >= 512
    }
}

} // verus!
