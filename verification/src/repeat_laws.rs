//! Laws of the repeated string instructions as a whole: a scan stops at the first match, a repeat
//! that is done in steps is the repeat done at once, and the shortcuts change nothing.
use vstd::prelude::*;
#[allow(unused_imports)]
use crate::bits::{is_width, lemma_mask, low, mask_of};
#[allow(unused_imports)]
use crate::control_laws::{law_arithmetic_flags, law_comparison};
#[allow(unused_imports)]
use crate::cpu::{Config, CpuState};
#[allow(unused_imports)]
use crate::decode::{
    is_prefix, operand_size, prefix_bound, prefix_seen, prefix_taken, prefixes, Prefix, RepKind,
};
#[allow(unused_imports)]
use crate::flags::{flag_set, sub_flags, RFLAGS_DF, ZF};
#[allow(unused_imports)]
use crate::memory_laws::{
    law_store_exact, lemma_frame, lemma_page, lemma_set_of_line, lemma_walk_alike,
    lemma_walk_offset, plain,
};
#[allow(unused_imports)]
use crate::mmu::{
    le_read, lemma_set_bounds, mem_read, mem_write, page_walk, paging_on, read_bytes, touched,
    translate_access, write_bytes,
};
#[allow(unused_imports)]
use crate::operand::{store_operand, with_reg, with_rip};
#[allow(unused_imports)]
use crate::step::{
    decoding, executed, fault_taken, map_a_b, no_prefix, one_step, opcode_fetched, string_kind,
    StepState,
};
#[allow(unused_imports)]
use crate::string_laws::{
    copy_walks, fill_walks, law_bulk_movs, law_bulk_stos, movs_tables_kept, stos_tables_kept,
};
#[allow(unused_imports)]
use crate::string_ops::{
    bulk_movs, bulk_stos, copied, do_string, elements_due, filled, gap_ahead, page_behind,
    repeat_ends, room_on_page, string_element, string_repeated, string_step, within_page, StringOp,
};
#[allow(unused_imports)]
use crate::walk_laws::{
    calm, can_load, can_store, code_byte, erased, in_tables, lemma_calm, lemma_fetched,
    lemma_loaded, lemma_loaded_alike, lemma_same_walk, lemma_stored, lemma_stored_alike,
    lemma_tables_kept, lemma_translated, like, nth, stored, stored_at, tables_kept, walk_to, walks,
};

verus! {

// ----- without paging -----

/// A machine without paging, and without a latched fault, its registers and its data cache in order.
pub open spec fn flat(s: CpuState) -> bool {
    !paging_on(s) && s.fault is None && s.r.len() == 16 && s.sys.dcache.len() >= 512
}

/// Without paging every address stands for itself, and no cache changes.
proof fn lemma_flat(s: CpuState, v: u64, write: bool, user: bool)
    requires
        flat(s),
    ensures
        translate_access(s, v, write, user) == (s, v),
{
    reveal(translate_access);
    reveal(page_walk);
}

/// The same machine but for the registers, flags, memory and platform.
pub open spec fn data_only(s: CpuState, t: CpuState) -> bool {
    &&& t == (CpuState { r: t.r, rflags: t.rflags, ram: t.ram, sys: t.sys, ..s })
    &&& t.r.len() == s.r.len()
    &&& t.sys.dcache.len() == s.sys.dcache.len()
}

// ----- decoding through the tables -----

/// The prefixes as the tables give their bytes.
pub open spec fn seen_prefixes(s: CpuState, p: Prefix, n: nat) -> (CpuState, Prefix)
    decreases n,
{
    if n == 0 {
        (s, p)
    } else {
        let b = code_byte(s, s.rip);
        if !is_prefix(b) {
            (s, p)
        } else if 0x40 <= b <= 0x4f {
            (prefix_taken(s, b), prefix_seen(p, b))
        } else {
            seen_prefixes(prefix_taken(s, b), prefix_seen(p, b), (n - 1) as nat)
        }
    }
}

/// The prefixes and the opcode are mapped.
pub open spec fn code_there(s: CpuState, n: nat) -> bool
    decreases n,
{
    let b = code_byte(s, s.rip);
    &&& walks(s, s.rip, false)
    &&& n > 0 && is_prefix(b) ==> if 0x40 <= b <= 0x4f {
        walks(s, s.rip.wrapping_add(1), false)
    } else {
        code_there(prefix_taken(s, b), (n - 1) as nat)
    }
}

/// A byte of memory belongs to the prefixes or is the opcode.
pub open spec fn code_at(s: CpuState, n: nat, x: int) -> bool
    decreases n,
{
    let b = code_byte(s, s.rip);
    ||| x == walk_to(s, s.rip, false)
    ||| n > 0 && is_prefix(b) && if 0x40 <= b <= 0x4f {
        x == walk_to(s, s.rip.wrapping_add(1), false)
    } else {
        code_at(prefix_taken(s, b), (n - 1) as nat, x)
    }
}

/// The opcode as the tables give it, after the prefixes.
pub open spec fn seen_opcode(s: CpuState) -> (CpuState, (Prefix, u8)) {
    let (a, p) = seen_prefixes(decoding(s), no_prefix(s.rip), prefix_bound());
    (with_rip(a, a.rip.wrapping_add(1)), (p, code_byte(a, a.rip)))
}

/// The instruction is mapped.
pub open spec fn instruction_there(s: CpuState) -> bool {
    code_there(decoding(s), prefix_bound())
}

/// A byte of memory belongs to the instruction.
pub open spec fn instruction_byte(s: CpuState, x: int) -> bool {
    code_at(decoding(s), prefix_bound(), x)
}

/// The same machine but for where it decodes.
pub open spec fn decode_only(s: CpuState, t: CpuState) -> bool {
    t == (CpuState { rip: t.rip, cur_seg: t.cur_seg, rex_present: t.rex_present, ..s })
}

/// Another state of memory in which the tables and an instruction are the same.
spec fn code_kept(o: CpuState, s: CpuState, n: nat) -> bool {
    &&& s.rip == o.rip
    &&& s.cpl == o.cpl
    &&& s.cur_seg == o.cur_seg
    &&& s.rex_present == o.rex_present
    &&& tables_kept(o, s)
    &&& forall|x: int| 0 <= x < o.ram.len() && code_at(o, n, x) ==> #[trigger] s.ram[x] == o.ram[x]
}

/// What is decoded depends on the bytes of the instruction.
proof fn lemma_seen_again(o: CpuState, s: CpuState, p: Prefix, n: nat)
    requires
        code_kept(o, s, n),
    ensures
        ({
            let (a, q) = seen_prefixes(o, p, n);
            let t = seen_prefixes(s, p, n).0;
            &&& seen_prefixes(s, p, n).1 == q
            &&& q.start == p.start
            &&& decode_only(s, t)
            &&& decode_only(o, a)
            &&& t.rip == a.rip
            &&& t.cur_seg == a.cur_seg
            &&& t.rex_present == a.rex_present
            &&& code_byte(s, t.rip) == code_byte(o, t.rip)
        }),
        code_there(s, n) == code_there(o, n),
        code_there(o, n) ==> walks(o, seen_prefixes(o, p, n).0.rip, false),
    decreases n,
{
    lemma_tables_kept(o, s);
    assert(page_walk(s, s.rip, false, s.cpl == 3) == page_walk(o, o.rip, false, o.cpl == 3));
    let x = walk_to(o, o.rip, false) as int;
    assert(code_at(o, n, x));
    assert(code_byte(s, s.rip) == code_byte(o, o.rip)) by {
        if x < o.ram.len() {
            assert(s.ram[x] == o.ram[x]);
        }
    }
    let b = code_byte(o, o.rip);
    if n > 0 && is_prefix(b) {
        let o1 = prefix_taken(o, b);
        let s1 = prefix_taken(s, b);
        if 0x40 <= b <= 0x4f {
            let v = o.rip.wrapping_add(1);
            assert(page_walk(s, v, false, s.cpl == 3) == page_walk(o, v, false, o.cpl == 3));
            let y = walk_to(o, v, false) as int;
            assert(code_at(o, n, y));
            assert(code_byte(s, v) == code_byte(o, v)) by {
                if y < o.ram.len() {
                    assert(s.ram[y] == o.ram[y]);
                }
            }
        } else {
            lemma_taken_kept(o, s, b);
            assert forall|y: int| 0 <= y < o1.ram.len() && code_at(o1, (n - 1) as nat, y) implies #[trigger] s1.ram[y]
                == o1.ram[y] by {
                assert(code_at(o, n, y));
            }
            lemma_seen_again(o1, s1, prefix_seen(p, b), (n - 1) as nat);
            let a = seen_prefixes(o, p, n).0;
            lemma_walk_alike(o, o1, a.rip, false, o.cpl == 3);
            lemma_walk_alike(s, s1, a.rip, false, s.cpl == 3);
        }
    }
}

proof fn lemma_taken_kept(o: CpuState, s: CpuState, b: u8)
    requires
        tables_kept(o, s),
    ensures
        tables_kept(prefix_taken(o, b), prefix_taken(s, b)),
{
    let o1 = prefix_taken(o, b);
    let s1 = prefix_taken(s, b);
    lemma_tables_kept(o, o1);
    assert forall|x: int| 0 <= x < o1.ram.len() && in_tables(o1, x) implies #[trigger] s1.ram[x]
        == o1.ram[x] by {
        assert(in_tables(o, x));
        assert(s.ram[x] == o.ram[x]);
    }
}

/// The prefixes are read where the tables say.
proof fn lemma_prefixes_seen(s: CpuState, p: Prefix, n: nat)
    requires
        calm(s),
        code_there(s, n),
    ensures
        prefixes(s, p, n).1 == seen_prefixes(s, p, n).1,
        like(prefixes(s, p, n).0, seen_prefixes(s, p, n).0),
        calm(prefixes(s, p, n).0),
    decreases n,
{
    if n > 0 {
        lemma_translated(s, s.rip, false);
        let t = translate_access(s, s.rip, false, s.cpl == 3).0;
        let b = code_byte(s, s.rip);
        let u = prefix_taken(t, b);
        let v = prefix_taken(s, b);
        lemma_calm(t, u);
        if is_prefix(b) && !(0x40 <= b <= 0x4f) {
            lemma_seen_again(v, u, prefix_seen(p, b), (n - 1) as nat);
            lemma_prefixes_seen(u, prefix_seen(p, b), (n - 1) as nat);
        }
    }
}

/// The opcode is fetched where the tables say.
proof fn lemma_opcode_seen(s: CpuState)
    requires
        calm(s),
        instruction_there(s),
    ensures
        opcode_fetched(s).1 == seen_opcode(s).1,
        like(opcode_fetched(s).0, seen_opcode(s).0),
        calm(opcode_fetched(s).0),
        decode_only(s, seen_opcode(s).0),
        seen_opcode(s).1.0.start == s.rip,
{
    reveal(opcode_fetched);
    let d = decoding(s);
    let p = no_prefix(s.rip);
    lemma_calm(s, d);
    lemma_prefixes_seen(d, p, prefix_bound());
    lemma_seen_again(d, d, p, prefix_bound());
    let a = seen_prefixes(d, p, prefix_bound()).0;
    let t = prefixes(d, p, prefix_bound()).0;
    assert(erased(t).rip == erased(a).rip && erased(t).cpl == erased(a).cpl);
    lemma_walk_alike(d, t, a.rip, false, s.cpl == 3);
    lemma_walk_alike(d, a, a.rip, false, s.cpl == 3);
    lemma_fetched(t);
}

/// A later state of memory decodes as the first one did.
proof fn lemma_opcode_again(o: CpuState, s: CpuState)
    requires
        s.rip == o.rip,
        s.cpl == o.cpl,
        tables_kept(o, s),
        forall|x: int|
            0 <= x < o.ram.len() && instruction_byte(o, x) ==> #[trigger] s.ram[x] == o.ram[x],
    ensures
        seen_opcode(s).1 == seen_opcode(o).1,
        decode_only(s, seen_opcode(s).0),
        seen_opcode(s).0.rip == seen_opcode(o).0.rip,
        seen_opcode(s).0.cur_seg == seen_opcode(o).0.cur_seg,
        seen_opcode(s).0.rex_present == seen_opcode(o).0.rex_present,
        instruction_there(s) == instruction_there(o),
{
    let d = decoding(o);
    let e = decoding(s);
    let p = no_prefix(o.rip);
    assert(tables_kept(d, e)) by {
        lemma_tables_kept(o, d);
        assert forall|x: int| 0 <= x < d.ram.len() && in_tables(d, x) implies #[trigger] e.ram[x]
            == d.ram[x] by {
            assert(in_tables(o, x));
            assert(s.ram[x] == o.ram[x]);
        }
    }
    assert(code_kept(d, e, prefix_bound())) by {
        assert forall|x: int| 0 <= x < d.ram.len() && code_at(d, prefix_bound(), x) implies #[trigger] e.ram[x]
            == d.ram[x] by {
            assert(instruction_byte(o, x));
            assert(s.ram[x] == o.ram[x]);
        }
    }
    lemma_seen_again(d, e, p, prefix_bound());
    let a = seen_prefixes(d, p, prefix_bound()).0;
    let b = seen_prefixes(e, p, prefix_bound()).0;
    lemma_walk_alike(d, a, a.rip, false, o.cpl == 3);
    lemma_walk_alike(e, b, b.rip, false, o.cpl == 3);
}

// ----- one element through the tables -----

/// The instruction loads from where `RSI` points.
pub open spec fn loads_source(kind: StringOp) -> bool {
    kind == StringOp::Movs || kind == StringOp::Lods || kind == StringOp::Compare
}

/// The instruction loads from where `RDI` points.
pub open spec fn loads_target(kind: StringOp) -> bool {
    kind == StringOp::Scas || kind == StringOp::Compare
}

/// The instruction stores to where `RDI` points.
pub open spec fn stores_target(kind: StringOp) -> bool {
    kind == StringOp::Movs || kind == StringOp::Stos
}

/// An address moved by some elements.
pub open spec fn step_at(a: u64, step: u64, k: nat) -> u64
    decreases k,
{
    if k == 0 {
        a
    } else {
        step_at(a.wrapping_add(step), step, (k - 1) as nat)
    }
}

/// An element of a repeat is mapped and lies in RAM. What it stores lies outside the page tables, and
/// outside the instruction that stands where `o` has it.
pub open spec fn element_fits(s: CpuState, o: CpuState, kind: StringOp, size: u8, k: int) -> bool {
    let src = step_at(s.r[6], string_step(s, size), k as nat);
    let dst = step_at(s.r[7], string_step(s, size), k as nat);
    &&& loads_source(kind) ==> can_load(s, src, size)
    &&& loads_target(kind) ==> can_load(s, dst, size)
    &&& stores_target(kind) ==> can_store(s, dst, size) && forall|x: int| #[trigger]
        stored_at(s, dst, size, x) ==> !instruction_byte(o, x)
}

/// Every element of a repeat does.
pub open spec fn repeat_fits(s: CpuState, o: CpuState, kind: StringOp, size: u8) -> bool {
    forall|k: int| 0 <= k < s.r[1] ==> #[trigger] element_fits(s, o, kind, size, k)
}

proof fn lemma_access_kept(s: CpuState, t: CpuState, addr: u64, size: u8)
    requires
        t.cpl == s.cpl,
        tables_kept(s, t),
    ensures
        can_load(t, addr, size) == can_load(s, addr, size),
        can_store(t, addr, size) == can_store(s, addr, size),
        forall|x: int| #[trigger] stored_at(t, addr, size, x) == stored_at(s, addr, size, x),
{
    lemma_tables_kept(s, t);
    assert(page_walk(t, addr, false, s.cpl == 3) == page_walk(s, addr, false, s.cpl == 3));
    assert(page_walk(t, addr, true, s.cpl == 3) == page_walk(s, addr, true, s.cpl == 3));
    assert forall|b: int| walks(t, #[trigger] nth(addr, b), false) == walks(s, nth(addr, b), false)
        && walks(t, nth(addr, b), true) == walks(s, nth(addr, b), true) && walk_to(
        t,
        nth(addr, b),
        true,
    ) == walk_to(s, nth(addr, b), true) by {
        let v = nth(addr, b);
        assert(page_walk(t, v, false, s.cpl == 3) == page_walk(s, v, false, s.cpl == 3));
        assert(page_walk(t, v, true, s.cpl == 3) == page_walk(s, v, true, s.cpl == 3));
    }
    assert forall|b: int| in_tables(t, walk_to(t, #[trigger] nth(addr, b), true) as int)
        == in_tables(s, walk_to(s, nth(addr, b), true) as int) by {
        assert(walk_to(t, nth(addr, b), true) == walk_to(s, nth(addr, b), true));
    }
    assert forall|x: int| #[trigger]
        stored_at(t, addr, size, x) == stored_at(s, addr, size, x) by {
        if stored_at(t, addr, size, x) {
            let b = choose|b: int| 0 <= b < size && x == walk_to(t, #[trigger] nth(addr, b), true);
            assert(x == walk_to(s, nth(addr, b), true));
        }
        if stored_at(s, addr, size, x) {
            let b = choose|b: int| 0 <= b < size && x == walk_to(s, #[trigger] nth(addr, b), true);
            assert(x == walk_to(t, nth(addr, b), true));
        }
    }
    if can_load(s, addr, size) {
        assert forall|b: int| 0 <= b < size implies walks(t, #[trigger] nth(addr, b), false) by {
            assert(walks(s, nth(addr, b), false));
        }
    }
    if can_load(t, addr, size) {
        assert forall|b: int| 0 <= b < size implies walks(s, #[trigger] nth(addr, b), false) by {
            assert(walks(t, nth(addr, b), false));
        }
    }
    if can_store(s, addr, size) {
        assert forall|b: int| 0 <= b < size implies walks(t, #[trigger] nth(addr, b), true)
            && !in_tables(t, walk_to(t, nth(addr, b), true) as int) by {
            assert(walks(s, nth(addr, b), true));
        }
    }
    if can_store(t, addr, size) {
        assert forall|b: int| 0 <= b < size implies walks(s, #[trigger] nth(addr, b), true)
            && !in_tables(s, walk_to(s, nth(addr, b), true) as int) by {
            assert(walks(t, nth(addr, b), true));
        }
    }
}

/// What one element of a string instruction changes.
spec fn element_done(s: CpuState, t: CpuState, kind: StringOp, size: u8) -> bool {
    let step = string_step(s, size);
    &&& t == (CpuState { r: t.r, rflags: t.rflags, ram: t.ram, sys: t.sys, tlb: t.tlb, ..s })
    &&& t.r.len() == 16
    &&& t.r[1] == s.r[1]
    &&& t.r[6] == if loads_source(kind) { s.r[6].wrapping_add(step) } else { s.r[6] }
    &&& t.r[7] == if kind != StringOp::Lods { s.r[7].wrapping_add(step) } else { s.r[7] }
    &&& string_step(t, size) == step
    &&& tables_kept(s, t)
    &&& forall|x: int|
        0 <= x < s.ram.len() && !(stores_target(kind) && stored_at(s, s.r[7], size, x)) ==> #[trigger] t.ram[x]
            == s.ram[x]
}

proof fn lemma_loads(s: CpuState, z: CpuState, addr: u64, size: u8)
    requires
        calm(s),
        calm(z),
        like(s, z),
        is_width(size),
        can_load(s, addr, size),
    ensures
        ({
            let (t, v) = mem_read(s, addr, size);
            let (u, w) = mem_read(z, addr, size);
            &&& w == v
            &&& like(t, u)
            &&& calm(t)
            &&& calm(u)
            &&& t == (CpuState { sys: t.sys, tlb: t.tlb, ..s })
            &&& tables_kept(s, t)
        }),
{
    assert(erased(s).ram == erased(z).ram);
    assert(tables_kept(s, z));
    lemma_access_kept(s, z, addr, size);
    lemma_loaded(s, addr, size);
    lemma_loaded(z, addr, size);
    lemma_loaded_alike(s, z, addr, size);
}

proof fn lemma_stores(s: CpuState, z: CpuState, addr: u64, size: u8, val: u64)
    requires
        calm(s),
        calm(z),
        like(s, z),
        is_width(size),
        can_store(s, addr, size),
    ensures
        ({
            let t = mem_write(s, addr, size, val);
            let u = mem_write(z, addr, size, val);
            &&& like(t, u)
            &&& calm(t)
            &&& calm(u)
            &&& t == (CpuState { ram: t.ram, sys: t.sys, tlb: t.tlb, ..s })
            &&& tables_kept(s, t)
            &&& forall|x: int|
                0 <= x < s.ram.len() && !stored_at(s, addr, size, x) ==> #[trigger] t.ram[x]
                    == s.ram[x]
        }),
{
    assert(erased(s).ram == erased(z).ram);
    assert(tables_kept(s, z));
    lemma_access_kept(s, z, addr, size);
    lemma_stored(s, addr, size, val);
    lemma_stored(z, addr, size, val);
    lemma_stored_alike(s, z, addr, size, val);
}

proof fn lemma_step_kept(f: u64, a: u64, b: u64, size: u8)
    ensures
        flag_set(sub_flags(f, a, b, 0, size), RFLAGS_DF) == flag_set(f, RFLAGS_DF),
{
    law_arithmetic_flags(7, f, a, b, size);
    lemma_direction(sub_flags(f, a, b, 0, size), f);
}

/// Machines that differ only in their caches do one element alike.
#[verifier::spinoff_prover]
#[verifier::rlimit(60)]
proof fn lemma_element(s: CpuState, z: CpuState, o: CpuState, kind: StringOp, size: u8)
    requires
        calm(s),
        calm(z),
        like(s, z),
        is_width(size),
        element_fits(s, o, kind, size, 0),
    ensures
        like(string_element(s, kind, size), string_element(z, kind, size)),
        calm(string_element(s, kind, size)),
        calm(string_element(z, kind, size)),
        element_done(s, string_element(s, kind, size), kind, size),
{
    reveal(string_element);
    reveal(store_operand);
    assert(erased(s).r == erased(z).r);
    let t = string_element(s, kind, size);
    let u = string_element(z, kind, size);
    match kind {
        StringOp::Movs => {
            lemma_loads(s, z, s.r[6], size);
            let (s1, v) = mem_read(s, s.r[6], size);
            let (z1, w) = mem_read(z, z.r[6], size);
            lemma_access_kept(s, s1, s.r[7], size);
            lemma_stores(s1, z1, s.r[7], size, v);
            let s2 = mem_write(s1, s.r[7], size, v);
            let z2 = mem_write(z1, s.r[7], size, v);
            lemma_tables_kept(s, s1);
            assert(tables_kept(s, s2));
            assert(tables_kept(s2, t));
            assert(tables_kept(z2, u));
            lemma_calm(s2, t);
            lemma_calm(z2, u);
        },
        StringOp::Stos => {
            let val = s.r[0] & mask_of(size);
            lemma_stores(s, z, s.r[7], size, val);
            let s1 = mem_write(s, s.r[7], size, val);
            let z1 = mem_write(z, s.r[7], size, val);
            assert(tables_kept(s1, t));
            assert(tables_kept(z1, u));
            lemma_calm(s1, t);
            lemma_calm(z1, u);
        },
        StringOp::Lods => {
            lemma_loads(s, z, s.r[6], size);
            let s1 = mem_read(s, s.r[6], size).0;
            let z1 = mem_read(z, s.r[6], size).0;
            lemma_calm(s1, t);
            lemma_calm(z1, u);
        },
        StringOp::Scas => {
            lemma_loads(s, z, s.r[7], size);
            let (s1, b) = mem_read(s, s.r[7], size);
            let z1 = mem_read(z, s.r[7], size).0;
            lemma_step_kept(s.rflags, s.r[0] & mask_of(size), b, size);
            lemma_calm(s1, t);
            lemma_calm(z1, u);
        },
        StringOp::Compare => {
            lemma_loads(s, z, s.r[6], size);
            let (s1, a) = mem_read(s, s.r[6], size);
            let z1 = mem_read(z, s.r[6], size).0;
            lemma_access_kept(s, s1, s.r[7], size);
            lemma_loads(s1, z1, s.r[7], size);
            let (s2, b) = mem_read(s1, s.r[7], size);
            let z2 = mem_read(z1, s.r[7], size).0;
            lemma_step_kept(s.rflags, a, b, size);
            lemma_calm(s2, t);
            lemma_calm(z2, u);
        },
    }
}

/// The rest of a repeat fits as the whole did.
proof fn lemma_rest_fits(s: CpuState, t: CpuState, o: CpuState, kind: StringOp, size: u8)
    requires
        s.r[1] > 0,
        t.cpl == s.cpl,
        t.r[1] == s.r[1] - 1,
        loads_source(kind) ==> t.r[6] == s.r[6].wrapping_add(string_step(s, size)),
        kind != StringOp::Lods ==> t.r[7] == s.r[7].wrapping_add(string_step(s, size)),
        string_step(t, size) == string_step(s, size),
        tables_kept(s, t),
        repeat_fits(s, o, kind, size),
    ensures
        repeat_fits(t, o, kind, size),
{
    assert forall|k: int| 0 <= k < t.r[1] implies #[trigger] element_fits(t, o, kind, size, k) by {
        let step = string_step(s, size);
        assert(element_fits(s, o, kind, size, k + 1));
        lemma_access_kept(s, t, step_at(t.r[6], step, k as nat), size);
        lemma_access_kept(s, t, step_at(t.r[7], step, k as nat), size);
    }
}

/// Nor does it matter in which of two such machines.
proof fn lemma_fits_alike(s: CpuState, t: CpuState, o: CpuState, kind: StringOp, size: u8)
    requires
        t.cpl == s.cpl,
        t.r == s.r,
        t.rflags == s.rflags,
        tables_kept(s, t),
        repeat_fits(s, o, kind, size),
    ensures
        repeat_fits(t, o, kind, size),
{
    assert forall|k: int| 0 <= k < t.r[1] implies #[trigger] element_fits(t, o, kind, size, k) by {
        let step = string_step(s, size);
        assert(element_fits(s, o, kind, size, k));
        lemma_access_kept(s, t, step_at(t.r[6], step, k as nat), size);
        lemma_access_kept(s, t, step_at(t.r[7], step, k as nat), size);
    }
}

/// Machines that differ only in their caches do a repeat alike; with steps enough it is done, and
/// more of them change nothing.
proof fn lemma_repeated_alike(
    s: CpuState,
    z: CpuState,
    o: CpuState,
    kind: StringOp,
    size: u8,
    rep: RepKind,
    start: u64,
    n: nat,
)
    requires
        calm(s),
        calm(z),
        like(s, z),
        is_width(size),
        repeat_fits(s, o, kind, size),
        n >= s.r[1],
    ensures
        ({
            let t = string_repeated(s, kind, size, rep, start, n);
            &&& like(t, string_repeated(z, kind, size, rep, start, n))
            &&& t == string_repeated(s, kind, size, rep, start, s.r[1] as nat)
            &&& t.rip == s.rip
            &&& t.fault is None
        }),
    decreases n,
{
    assert(erased(s).r == erased(z).r);
    if s.r[1] > 0 {
        assert(element_fits(s, o, kind, size, 0));
        lemma_element(s, z, o, kind, size);
        let t = string_element(s, kind, size);
        let t2 = string_element(z, kind, size);
        let u = with_reg(t, 1, (s.r[1] - 1) as u64);
        let u2 = with_reg(t2, 1, (s.r[1] - 1) as u64);
        lemma_calm(t, u);
        lemma_calm(t2, u2);
        assert(like(u, u2)) by {
            assert(erased(t).r == erased(t2).r);
        }
        assert(erased(u).rflags == erased(u2).rflags);
        if !repeat_ends(u, kind, rep) {
            lemma_tables_kept(s, t);
            lemma_rest_fits(s, u, o, kind, size);
            lemma_repeated_alike(u, u2, o, kind, size, rep, start, (n - 1) as nat);
        }
    }
}

// ----- the shortcuts through the tables -----

/// Further on in a mapped page.
proof fn lemma_along(s: CpuState, v: u64, d: int, write: bool)
    requires
        walks(s, v, write),
        0 <= d,
        (v & 0xfff) + d <= 0xfff,
    ensures
        v + d <= u64::MAX,
        page_walk(s, (v + d) as u64, write, s.cpl == 3) == Ok::<u64, u64>(
            (walk_to(s, v, write) + d) as u64,
        ),
        walk_to(s, v, write) + d <= u64::MAX,
{
    let user = s.cpl == 3;
    let pa = walk_to(s, v, write);
    lemma_walk_offset(s, v, write, user);
    lemma_frame(0, pa);
    lemma_page(v, d as u64, pa & !0xfff);
    lemma_same_walk(s, v, (v + d) as u64, write, write, user);
}

proof fn lemma_step_at(a: u64, size: u8, k: nat)
    requires
        a + k * size <= u64::MAX,
    ensures
        step_at(a, size as u64, k) == a + k * size,
    decreases k,
{
    if k > 0 {
        assert(k * size == (k - 1) * size + size) by (nonlinear_arith);
        assert((k - 1) * size >= 0) by (nonlinear_arith)
            requires
                k >= 1,
        ;
        lemma_step_at((a + size) as u64, size, (k - 1) as nat);
    } else {
        assert(0 * size == 0) by (nonlinear_arith);
    }
}

proof fn lemma_part(i: int, n: int, size: int)
    by (nonlinear_arith)
    requires
        0 <= i < n,
        1 <= size,
    ensures
        0 <= i * size,
        i * size + size <= n * size,
{
}

proof fn lemma_split_place(j: int, n: int, size: int) -> (p: (int, int))
    requires
        0 <= j < n * size,
        1 <= size,
    ensures
        0 <= p.0 < n,
        0 <= p.1 < size,
        j == p.0 * size + p.1,
{
    let k = j / size;
    let b = j % size;
    assert(j == k * size + b && 0 <= b < size && 0 <= k < n) by (nonlinear_arith)
        requires
            k == j / size,
            b == j % size,
            0 <= j < n * size,
            1 <= size,
    ;
    (k, b)
}

/// What a store on one page writes lies outside the tables.
proof fn lemma_target_free(s: CpuState, t: CpuState, o: CpuState, kind: StringOp, size: u8)
    requires
        is_width(size),
        stores_target(kind),
        !flag_set(s.rflags, RFLAGS_DF),
        within_page(s.r[7], s.r[1], size),
        s.r[1] > 0,
        repeat_fits(s, o, kind, size),
        t.cpl == s.cpl,
        tables_kept(s, t),
    ensures
        walks(t, s.r[7], true),
        walk_to(t, s.r[7], true) + s.r[1] * size <= u64::MAX + 1,
        forall|x: int|
            walk_to(t, s.r[7], true) <= x < walk_to(t, s.r[7], true) + s.r[1] * size
                ==> !#[trigger] in_tables(t, x),
{
    let dst = s.r[7];
    let n = s.r[1] as int;
    lemma_tables_kept(s, t);
    assert(page_walk(t, dst, true, s.cpl == 3) == page_walk(s, dst, true, s.cpl == 3));
    assert(element_fits(s, o, kind, size, 0));
    assert(nth(dst, 0) == dst);
    lemma_part(0, n, size as int);
    lemma_along(s, dst, n * size - 1, true);
    let pa = walk_to(s, dst, true);
    assert forall|x: int| pa <= x < pa + n * size implies !#[trigger] in_tables(t, x) by {
        let (k, b) = lemma_split_place(x - pa, n, size as int);
        lemma_part(k, n, size as int);
        lemma_along(s, dst, x - pa, true);
        lemma_step_at(dst, size, k as nat);
        assert(element_fits(s, o, kind, size, k));
        let a = step_at(dst, size as u64, k as nat);
        assert(nth(a, b) == dst + (x - pa));
        assert(!in_tables(s, walk_to(s, nth(a, b), true) as int));
    }
}

proof fn lemma_write_keeps(t: CpuState, f: CpuState, g: CpuState, a: int, size: u8, val: u64)
    requires
        tables_kept(t, f),
        g == (CpuState {
            ram: crate::mmu::le_write(f.ram, a, size as nat, val),
            sys: g.sys,
            ..f
        }),
        forall|x: int| a <= x < a + size ==> !#[trigger] in_tables(t, x),
    ensures
        tables_kept(t, g),
{
    law_store_exact(f.ram, a, size as nat, val);
    assert forall|x: int| 0 <= x < t.ram.len() && in_tables(t, x) implies #[trigger] g.ram[x]
        == t.ram[x] by {
        assert(f.ram[x] == t.ram[x]);
    }
}

proof fn lemma_fill_keeps(t: CpuState, pa: u64, i: nat, n: int, size: u8, val: u64)
    requires
        1 <= size,
        i <= n,
        forall|x: int| pa <= x < pa + n * size ==> !#[trigger] in_tables(t, x),
    ensures
        tables_kept(t, filled(t, pa, i, size, val)),
        filled(t, pa, i, size, val).cpl == t.cpl,
    decreases i,
{
    if i > 0 {
        lemma_fill_keeps(t, pa, (i - 1) as nat, n, size, val);
        lemma_part(i - 1, n, size as int);
        let f = filled(t, pa, (i - 1) as nat, size, val);
        let g = filled(t, pa, i, size, val);
        lemma_write_keeps(t, f, g, pa + (i - 1) * size, size, val);
    }
}

proof fn lemma_copy_keeps(t: CpuState, spa: u64, dpa: u64, i: nat, n: int, size: u8)
    requires
        1 <= size,
        i <= n,
        forall|x: int| dpa <= x < dpa + n * size ==> !#[trigger] in_tables(t, x),
    ensures
        tables_kept(t, copied(t, spa, dpa, i, size)),
        copied(t, spa, dpa, i, size).cpl == t.cpl,
    decreases i,
{
    if i > 0 {
        lemma_copy_keeps(t, spa, dpa, (i - 1) as nat, n, size);
        lemma_part(i - 1, n, size as int);
        let f = copied(t, spa, dpa, (i - 1) as nat, size);
        let g = copied(t, spa, dpa, i, size);
        let v = le_read(f.ram, spa + (i - 1) * size, size as nat);
        lemma_write_keeps(t, f, g, dpa + (i - 1) * size, size, v);
    }
}

/// A fill that was done at once is the repeat; one that was not has only translated.
proof fn lemma_fill_shortcut(s: CpuState, o: CpuState, size: u8, rep: RepKind, start: u64)
    requires
        calm(s),
        is_width(size),
        s.r[1] > 0,
        repeat_fits(s, o, StringOp::Stos, size),
    ensures
        ({
            let (t, done) = bulk_stos(s, size, rep);
            if done {
                t == string_repeated(s, StringOp::Stos, size, rep, start, 0x1000) && s.r[1] <= 0x1000
            } else {
                calm(t) && t == (CpuState { tlb: t.tlb, ..s })
            }
        }),
{
    reveal(bulk_stos);
    let dst = s.r[7];
    let n = s.r[1] as int;
    assert(element_fits(s, o, StringOp::Stos, size, 0));
    assert(nth(dst, 0) == dst);
    lemma_translated(s, dst, true);
    let (t, pa) = translate_access(s, dst, true, s.cpl == 3);
    if bulk_stos(s, size, rep).1 {
        let val = s.r[0] & mask_of(size);
        lemma_target_free(s, t, o, StringOp::Stos, size);
        lemma_walk_alike(s, t, dst, true, s.cpl == 3);
        assert(fill_walks(t, pa, dst, n, size, val)) by {
            assert forall|i: int| 0 <= i < n implies page_walk(
                #[trigger] filled(t, pa, i as nat, size, val),
                (dst + i * size) as u64,
                true,
                t.cpl == 3,
            ) == Ok::<u64, u64>((pa + i * size) as u64) by {
                lemma_fill_keeps(t, pa, i as nat, n, size, val);
                lemma_tables_kept(t, filled(t, pa, i as nat, size, val));
                lemma_part(i, n, size as int);
                lemma_along(t, dst, i * size, true);
            }
        }
        assert(stos_tables_kept(s, size));
        law_bulk_stos(s, size, rep, start);
    }
}

/// A copy that was done at once is the repeat; one that was not has only translated.
proof fn lemma_copy_shortcut(s: CpuState, o: CpuState, size: u8, rep: RepKind, start: u64)
    requires
        calm(s),
        is_width(size),
        s.r[1] > 0,
        repeat_fits(s, o, StringOp::Movs, size),
    ensures
        ({
            let (t, done) = bulk_movs(s, size, rep);
            if done {
                t == string_repeated(s, StringOp::Movs, size, rep, start, 0x1000) && s.r[1] <= 0x1000
            } else {
                calm(t) && t == (CpuState { tlb: t.tlb, ..s })
            }
        }),
{
    reveal(bulk_movs);
    let user = s.cpl == 3;
    let src = s.r[6];
    let dst = s.r[7];
    let n = s.r[1] as int;
    assert(element_fits(s, o, StringOp::Movs, size, 0));
    assert(nth(dst, 0) == dst);
    assert(nth(src, 0) == src);
    lemma_translated(s, src, false);
    let (t, spa) = translate_access(s, src, false, user);
    lemma_walk_alike(s, t, dst, true, user);
    lemma_translated(t, dst, true);
    let (u, dpa) = translate_access(t, dst, true, user);
    if bulk_movs(s, size, rep).1 {
        assert(tables_kept(s, u));
        lemma_target_free(s, u, o, StringOp::Movs, size);
        lemma_walk_alike(s, u, dst, true, user);
        lemma_walk_alike(s, u, src, false, user);
        assert(copy_walks(u, spa, dpa, src, dst, n, size)) by {
            assert forall|i: int| 0 <= i < n implies ({
                let f = #[trigger] copied(u, spa, dpa, i as nat, size);
                let d = i * size;
                &&& page_walk(f, (src + d) as u64, false, u.cpl == 3) == Ok::<u64, u64>(
                    (spa + d) as u64,
                )
                &&& page_walk(f, (dst + d) as u64, true, u.cpl == 3) == Ok::<u64, u64>(
                    (dpa + d) as u64,
                )
            }) by {
                lemma_copy_keeps(u, spa, dpa, i as nat, n, size);
                lemma_tables_kept(u, copied(u, spa, dpa, i as nat, size));
                lemma_part(i, n, size as int);
                lemma_along(u, src, i * size, false);
                lemma_along(u, dst, i * size, true);
            }
        }
        assert(movs_tables_kept(s, size));
        law_bulk_movs(s, size, rep, start);
    }
}

/// Where every element is mapped, a step does one.
proof fn lemma_one_due(s: CpuState, o: CpuState, kind: StringOp, size: u8)
    requires
        is_width(size),
        repeat_fits(s, o, kind, size),
    ensures
        elements_due(s, kind, size) == 1,
{
    if gap_ahead(s, kind, size) {
        let dst = s.r[7];
        let room = room_on_page(dst, size);
        let d = 0x1000 - (dst & 0xfff);
        lemma_set_bounds(dst);
        assert(room * size <= d < room * size + size) by (nonlinear_arith)
            requires
                room == d / size as int,
                size >= 1,
        ;
        let b = d - room * size;
        assert(element_fits(s, o, kind, size, room));
        lemma_step_wraps(dst, size, room as nat);
        let a = step_at(dst, size as u64, room as nat);
        assert(nth(a, b) == page_behind(dst));
        assert(walks(s, nth(a, b), true));
    }
}

proof fn lemma_step_wraps(a: u64, size: u8, k: nat)
    requires
        k * size <= 0x1000,
    ensures
        step_at(a, size as u64, k) == a.wrapping_add((k * size) as u64),
    decreases k,
{
    if k > 0 {
        assert(k * size == (k - 1) * size + size) by (nonlinear_arith);
        assert((k - 1) * size >= 0) by (nonlinear_arith)
            requires
                k >= 1,
        ;
        lemma_step_wraps(a.wrapping_add(size as u64), size, (k - 1) as nat);
    } else {
        assert(0 * size == 0) by (nonlinear_arith);
    }
}

// ----- stepping through a repeat -----

/// The machine stepped until its instruction pointer leaves an instruction, in at most `n` steps.
pub open spec fn stepped_out(s: CpuState, n: nat) -> CpuState
    decreases n,
{
    if n == 0 {
        s
    } else {
        let t = one_step(s).0;
        if t.rip != s.rip {
            t
        } else {
            stepped_out(t, (n - 1) as nat)
        }
    }
}

/// The string instruction that the machine stands at, and its operand size.
pub open spec fn next_string(s: CpuState) -> (StringOp, u8) {
    let (p, op) = seen_opcode(s).1;
    (string_kind(op)->0, if op % 2 == 0 { 1u8 } else { operand_size(p) })
}

/// The machine stands at a repeated string instruction, which is mapped, and which the repeat neither
/// overwrites nor leaves RAM from: every element is mapped and lies in RAM, and what is stored lies
/// outside the instruction and outside the page tables.
pub open spec fn at_repeat(s: CpuState) -> bool {
    let (p, op) = seen_opcode(s).1;
    &&& calm(s)
    &&& instruction_there(s)
    &&& string_kind(op) is Some
    &&& p.rep != RepKind::Plain
    &&& seen_opcode(s).0.rip != s.rip
    &&& repeat_fits(s, s, next_string(s).0, next_string(s).1)
}

proof fn lemma_string_step(s: CpuState)
    requires
        calm(s),
        instruction_there(s),
        string_kind(seen_opcode(s).1.1) is Some,
    ensures
        ({
            let (p, op) = seen_opcode(s).1;
            let t = do_string(
                opcode_fetched(s).0,
                next_string(s).0,
                next_string(s).1,
                p.rep,
                s.rip,
            );
            t.fault is None ==> one_step(s) == (t, StepState::Done)
        }),
{
    reveal(one_step);
    reveal(executed);
    reveal(map_a_b);
    reveal(fault_taken);
    lemma_opcode_seen(s);
    let op = seen_opcode(s).1.1;
    assert(0xa0 <= op < 0xc0);
}

/// One step of a repeat: either it ends the repeat, or it does the first element and goes back. The
/// state in which the element was done, and the one it leaves, come with the second case.
#[verifier::spinoff_prover]
#[verifier::rlimit(60)]
proof fn lemma_repeat_step(
    s: CpuState,
    o: CpuState,
    kind: StringOp,
    size: u8,
    rep: RepKind,
    start: u64,
) -> (left: Option<(CpuState, CpuState)>)
    requires
        calm(s),
        is_width(size),
        rep != RepKind::Plain,
        repeat_fits(s, o, kind, size),
    ensures
        ({
            let z = do_string(s, kind, size, rep, start);
            let whole = string_repeated(s, kind, size, rep, start, s.r[1] as nat);
            match left {
                None => like(z, whole) && z.rip == s.rip && z.fault is None,
                Some((t, u)) => {
                    let e = string_element(t, kind, size);
                    let v = with_reg(e, 1, (s.r[1] - 1) as u64);
                    &&& s.r[1] > 1
                    &&& t == (CpuState { tlb: t.tlb, ..s })
                    &&& calm(t)
                    &&& calm(u)
                    &&& calm(v)
                    &&& like(u, v)
                    &&& element_done(t, e, kind, size)
                    &&& z == with_rip(v, start)
                    &&& whole == string_repeated(u, kind, size, rep, start, (s.r[1] - 1) as nat)
                },
            }
        }),
{
    let count = s.r[1];
    lemma_repeated_alike(s, s, o, kind, size, rep, start, count as nat);
    reveal(do_string);
    if count == 0 {
        reveal(bulk_stos);
        reveal(bulk_movs);
        None
    } else {
        if kind == StringOp::Stos {
            lemma_fill_shortcut(s, o, size, rep, start);
        } else if kind == StringOp::Movs {
            lemma_copy_shortcut(s, o, size, rep, start);
        }
        let (t, done) = match kind {
            StringOp::Stos => bulk_stos(s, size, rep),
            StringOp::Movs => bulk_movs(s, size, rep),
            _ => (s, false),
        };
        if done {
            lemma_repeated_alike(s, s, o, kind, size, rep, start, 0x1000);
            None
        } else {
            lemma_fits_alike(s, t, o, kind, size);
            lemma_one_due(t, o, kind, size);
            assert(element_fits(s, o, kind, size, 0));
            assert(element_fits(t, o, kind, size, 0));
            lemma_element(s, t, o, kind, size);
            lemma_element(t, t, o, kind, size);
            let d = string_element(s, kind, size);
            let e = string_element(t, kind, size);
            let u = with_reg(d, 1, (count - 1) as u64);
            let v = with_reg(e, 1, (count - 1) as u64);
            lemma_calm(d, u);
            lemma_calm(e, v);
            assert(like(u, v)) by {
                assert(erased(d).r == erased(e).r);
            }
            assert(erased(u).rflags == erased(v).rflags);
            reveal_with_fuel(string_repeated, 2);
            if repeat_ends(v, kind, rep) || count == 1 {
                None
            } else {
                Some((t, u))
            }
        }
    }
}

#[verifier::spinoff_prover]
#[verifier::rlimit(60)]
proof fn lemma_stepping(o: CpuState, s: CpuState, n: nat)
    requires
        calm(s),
        s.rip == o.rip,
        s.cpl == o.cpl,
        tables_kept(o, s),
        forall|x: int|
            0 <= x < o.ram.len() && instruction_byte(o, x) ==> #[trigger] s.ram[x] == o.ram[x],
        instruction_there(o),
        string_kind(seen_opcode(o).1.1) is Some,
        seen_opcode(o).1.0.rep != RepKind::Plain,
        seen_opcode(o).0.rip != o.rip,
        repeat_fits(s, o, next_string(o).0, next_string(o).1),
        n >= 1,
        n >= s.r[1],
    ensures
        like(
            stepped_out(s, n),
            string_repeated(
                opcode_fetched(s).0,
                next_string(o).0,
                next_string(o).1,
                seen_opcode(o).1.0.rep,
                o.rip,
                s.r[1] as nat,
            ),
        ),
        stepped_out(s, n).rip == seen_opcode(o).0.rip,
    decreases n,
{
    let (kind, size) = next_string(o);
    let rep = seen_opcode(o).1.0.rep;
    let start = o.rip;
    lemma_opcode_again(o, s);
    lemma_opcode_seen(s);
    lemma_string_step(s);
    let s1 = opcode_fetched(s).0;
    let d = seen_opcode(s).0;
    lemma_like_decoded(s, d, s1);
    lemma_fits_alike(s, s1, o, kind, size);
    let count = s.r[1];
    let left = lemma_repeat_step(s1, o, kind, size, rep, start);
    if let Some((t, u)) = left {
        let e = string_element(t, kind, size);
        let v = with_reg(e, 1, (count - 1) as u64);
        let z = with_rip(v, start);
        lemma_calm(v, z);
        lemma_fits_alike(s1, t, o, kind, size);
        assert(tables_kept(s, t));
        lemma_left_over(o, s, t, e, z, kind, size);
        lemma_stepping(o, z, (n - 1) as nat);
        lemma_opcode_again(o, z);
        lemma_opcode_seen(z);
        let y = opcode_fetched(z).0;
        let c = seen_opcode(z).0;
        lemma_like_decoded(z, c, y);
        assert(c == v) by {
            assert(v.rip == c.rip && v.cur_seg == c.cur_seg && v.rex_present == c.rex_present);
        }
        assert(like(y, u));
        lemma_fits_alike(z, y, o, kind, size);
        lemma_repeated_alike(y, u, o, kind, size, rep, start, (count - 1) as nat);
    }
}

/// The machine that decoded has the tables, the registers and the memory it had.
proof fn lemma_like_decoded(s: CpuState, d: CpuState, t: CpuState)
    requires
        decode_only(s, d),
        like(t, d),
    ensures
        t.r == s.r,
        t.ram == s.ram,
        t.rflags == s.rflags,
        t.cpl == s.cpl,
        t.rip == d.rip,
        t.cur_seg == d.cur_seg,
        t.rex_present == d.rex_present,
        tables_kept(s, t),
{
    let a = erased(t);
    let b = erased(d);
    assert(a.r == b.r && a.ram == b.ram && a.rflags == b.rflags && a.cpl == b.cpl && a.rip == b.rip);
    assert(a.cur_seg == b.cur_seg && a.rex_present == b.rex_present && a.cr0 == b.cr0);
}

/// What is left over after one element stands as the repeat stood before it.
proof fn lemma_left_over(
    o: CpuState,
    s: CpuState,
    t: CpuState,
    e: CpuState,
    z: CpuState,
    kind: StringOp,
    size: u8,
)
    requires
        s.r[1] > 0,
        s.r.len() == 16,
        tables_kept(o, s),
        forall|x: int|
            0 <= x < o.ram.len() && instruction_byte(o, x) ==> #[trigger] s.ram[x] == o.ram[x],
        repeat_fits(s, o, kind, size),
        t.r == s.r,
        t.ram == s.ram,
        t.rflags == s.rflags,
        t.cpl == s.cpl,
        tables_kept(s, t),
        repeat_fits(t, o, kind, size),
        element_done(t, e, kind, size),
        z == with_rip(with_reg(e, 1, (s.r[1] - 1) as u64), o.rip),
    ensures
        tables_kept(o, z),
        forall|x: int|
            0 <= x < o.ram.len() && instruction_byte(o, x) ==> #[trigger] z.ram[x] == o.ram[x],
        repeat_fits(z, o, kind, size),
{
    lemma_tables_kept(o, s);
    lemma_tables_kept(s, t);
    assert(tables_kept(t, z));
    lemma_rest_fits(t, z, o, kind, size);
    assert forall|x: int| 0 <= x < o.ram.len() && in_tables(o, x) implies #[trigger] z.ram[x]
        == o.ram[x] by {
        assert(in_tables(s, x) && in_tables(t, x));
        assert(s.ram[x] == o.ram[x] && e.ram[x] == t.ram[x]);
    }
    assert(element_fits(t, o, kind, size, 0));
    assert forall|x: int| 0 <= x < o.ram.len() && instruction_byte(o, x) implies #[trigger] z.ram[x]
        == o.ram[x] by {
        assert(s.ram[x] == o.ram[x]);
        assert(!(stores_target(kind) && stored_at(t, t.r[7], size, x)));
        assert(e.ram[x] == t.ram[x]);
    }
}

/// A repeated string instruction, stepped until the instruction pointer leaves it, is the repeat done
/// at once: it takes no more steps than there are elements, whether or not the shortcuts are on and
/// whatever the caches hold.
pub proof fn law_repeat_stepped(s: CpuState, n: nat)
    requires
        at_repeat(s),
        n >= 1,
        n >= s.r[1],
    ensures
        like(
            stepped_out(s, n),
            string_repeated(
                seen_opcode(s).0,
                next_string(s).0,
                next_string(s).1,
                seen_opcode(s).1.0.rep,
                s.rip,
                s.r[1] as nat,
            ),
        ),
        stepped_out(s, n).rip == seen_opcode(s).0.rip,
{
    lemma_stepping(s, s, n);
    lemma_opcode_seen(s);
    let (kind, size) = next_string(s);
    let s1 = opcode_fetched(s).0;
    let d = seen_opcode(s).0;
    lemma_calm(s, d);
    assert(erased(s1).r == erased(d).r);
    lemma_fits_alike(s, d, s, kind, size);
    lemma_repeated_alike(d, s1, s, kind, size, seen_opcode(s).1.0.rep, s.rip, s.r[1] as nat);
}

/// The machine with the shortcuts switched.
pub open spec fn with_shortcuts(s: CpuState, on: bool) -> CpuState {
    CpuState { cfg: Config { fastpaths: on, ..s.cfg }, ..s }
}

/// The shortcuts change no register, no flag, no memory and no clock over a whole repeated string
/// instruction, however many steps it takes with them and without: the two machines differ in nothing
/// but their translation caches.
pub proof fn law_shortcuts_change_nothing(s: CpuState, n: nat, m: nat)
    requires
        at_repeat(s),
        n >= 1,
        n >= s.r[1],
        m >= 1,
        m >= s.r[1],
    ensures
        ({
            let fast = stepped_out(with_shortcuts(s, true), n);
            let slow = stepped_out(with_shortcuts(s, false), m);
            &&& like(fast, slow)
            &&& fast.r == slow.r
            &&& fast.rflags == slow.rflags
            &&& fast.rip == slow.rip
            &&& fast.rip != s.rip
            &&& fast.ram == slow.ram
            &&& fast.sys == slow.sys
        }),
{
    let fast = with_shortcuts(s, true);
    let slow = with_shortcuts(s, false);
    lemma_switched(s, true);
    lemma_switched(s, false);
    law_repeat_stepped(fast, n);
    law_repeat_stepped(slow, m);
    let (kind, size) = next_string(s);
    let a = seen_opcode(fast).0;
    let b = seen_opcode(slow).0;
    assert(like(a, b));
    lemma_calm(fast, a);
    lemma_calm(slow, b);
    lemma_fits_alike(fast, a, fast, kind, size);
    lemma_repeated_alike(a, b, fast, kind, size, seen_opcode(s).1.0.rep, s.rip, s.r[1] as nat);
    let x = stepped_out(fast, n);
    let y = stepped_out(slow, m);
    assert(erased(x).r == erased(y).r);
}

proof fn lemma_switched(s: CpuState, on: bool)
    requires
        at_repeat(s),
    ensures
        at_repeat(with_shortcuts(s, on)),
        seen_opcode(with_shortcuts(s, on)).1 == seen_opcode(s).1,
        decode_only(with_shortcuts(s, on), seen_opcode(with_shortcuts(s, on)).0),
        seen_opcode(with_shortcuts(s, on)).0.rip == seen_opcode(s).0.rip,
        seen_opcode(with_shortcuts(s, on)).0.cur_seg == seen_opcode(s).0.cur_seg,
        seen_opcode(with_shortcuts(s, on)).0.rex_present == seen_opcode(s).0.rex_present,
{
    let z = with_shortcuts(s, on);
    let (kind, size) = next_string(s);
    assert(tables_kept(s, z));
    lemma_calm(s, z);
    lemma_opcode_again(s, z);
    lemma_fits_alike(s, z, s, kind, size);
    lemma_byte_alike(decoding(s), decoding(z), prefix_bound());
    assert forall|k: int| 0 <= k < z.r[1] implies #[trigger] element_fits(z, z, kind, size, k) by {
        assert(element_fits(z, s, kind, size, k));
        assert forall|x: int| #[trigger]
            stored_at(z, step_at(z.r[7], string_step(z, size), k as nat), size, x)
                && stores_target(kind) implies !instruction_byte(z, x) by {
            assert(!instruction_byte(s, x));
        }
    }
}

/// Which bytes an instruction has does not depend on the caches.
proof fn lemma_byte_alike(s: CpuState, t: CpuState, n: nat)
    requires
        like(s, t),
    ensures
        forall|x: int| #[trigger] code_at(t, n, x) == code_at(s, n, x),
    decreases n,
{
    assert(erased(s).ram == erased(t).ram);
    lemma_walk_alike(s, t, s.rip, false, s.cpl == 3);
    lemma_walk_alike(s, t, s.rip.wrapping_add(1), false, s.cpl == 3);
    let b = code_byte(s, s.rip);
    assert(code_byte(t, t.rip) == b);
    if n > 0 && is_prefix(b) && !(0x40 <= b <= 0x4f) {
        let s1 = prefix_taken(s, b);
        let t1 = prefix_taken(t, b);
        lemma_byte_alike(s1, t1, (n - 1) as nat);
        assert forall|x: int| #[trigger] code_at(t, n, x) == code_at(s, n, x) by {
            assert(code_at(t1, (n - 1) as nat, x) == code_at(s1, (n - 1) as nat, x));
        }
    }
}

// ----- repeats in steps -----

proof fn lemma_bytes_keep_rip(s: CpuState, addr: u64, n: nat, val: u64, user: bool)
    ensures
        read_bytes(s, addr, n, user).0.rip == s.rip,
        write_bytes(s, addr, n, val, user).rip == s.rip,
    decreases n,
{
    reveal(translate_access);
    if n > 0 {
        lemma_bytes_keep_rip(s, addr, (n - 1) as nat, val, user);
    }
}

proof fn lemma_access_keeps_rip(s: CpuState, addr: u64, size: u8, val: u64)
    ensures
        mem_read(s, addr, size).0.rip == s.rip,
        mem_write(s, addr, size, val).rip == s.rip,
{
    reveal(mem_read);
    reveal(mem_write);
    reveal(translate_access);
    let user = s.cpl == 3;
    let (t, pa) = translate_access(s, addr, false, user);
    lemma_bytes_keep_rip(touched(t, pa), addr, size as nat, val, user);
    let (u, qa) = translate_access(s, addr, true, user);
    lemma_bytes_keep_rip(touched(u, qa), addr, size as nat, val, user);
}

proof fn lemma_element_keeps_rip(s: CpuState, kind: StringOp, size: u8)
    ensures
        string_element(s, kind, size).rip == s.rip,
{
    reveal(string_element);
    reveal(crate::operand::store_operand);
    lemma_access_keeps_rip(s, s.r[6], size, 0);
    lemma_access_keeps_rip(s, s.r[7], size, s.r[0] & mask_of(size));
    let (s1, v) = mem_read(s, s.r[6], size);
    lemma_access_keeps_rip(s1, s1.r[7], size, v);
}

/// A repeat that goes on where it left off, with the instruction pointer back at the instruction, is
/// the repeat done at once.
pub proof fn law_repeat_in_steps(
    s: CpuState,
    kind: StringOp,
    size: u8,
    rep: RepKind,
    start: u64,
    a: nat,
    b: nat,
)
    requires
        start != s.rip,
    ensures
        ({
            let t = string_repeated(s, kind, size, rep, start, a);
            string_repeated(s, kind, size, rep, start, a + b) == if t.rip == start {
                string_repeated(with_rip(t, s.rip), kind, size, rep, start, b)
            } else {
                t
            }
        }),
    decreases a,
{
    if s.r[1] == 0 {
    } else if a == 0 {
        assert(with_rip(with_rip(s, start), s.rip) == s);
    } else {
        lemma_element_keeps_rip(s, kind, size);
        let t = string_element(s, kind, size);
        let u = with_reg(t, 1, (s.r[1] - 1) as u64);
        if t.fault is None && !repeat_ends(u, kind, rep) {
            law_repeat_in_steps(u, kind, size, rep, start, (a - 1) as nat, b);
        }
    }
}

// ----- scans -----

/// A machine about to scan upward through plain RAM.
pub open spec fn scan_ready(s: CpuState) -> bool {
    &&& flat(s)
    &&& !flag_set(s.rflags, RFLAGS_DF)
    &&& s.r[7] + s.r[1] <= s.ram.len()
    &&& s.r[7] + s.r[1] <= u64::MAX
    &&& forall|i: int| 0 <= i < s.r[1] ==> plain(#[trigger] scan_at(s, i))
}

/// The address of an element of a scan.
pub open spec fn scan_at(s: CpuState, i: int) -> u64 {
    (s.r[7] + i) as u64
}

/// An element of a scan is the one looked for.
pub open spec fn scan_matches(s: CpuState, i: int) -> bool {
    s.ram[s.r[7] + i] == low(s.r[0], 1)
}

proof fn lemma_direction(f: u64, g: u64)
    by (bit_vector)
    requires
        f & !0x8c5u64 == g & !0x8c5u64,
    ensures
        f & 0x400 == g & 0x400,
{
}

proof fn lemma_scan_element(s: CpuState)
    requires
        scan_ready(s),
        s.r[1] > 0,
    ensures
        ({
            let t = string_element(s, StringOp::Scas, 1);
            &&& data_only(s, t)
            &&& t.r == s.r.update(7, (s.r[7] + 1) as u64)
            &&& t.ram == s.ram
            &&& !flag_set(t.rflags, RFLAGS_DF)
            &&& flag_set(t.rflags, ZF) == scan_matches(s, 0)
        }),
{
    reveal(string_element);
    reveal(mem_read);
    let di = s.r[7];
    assert(plain(scan_at(s, 0)));
    lemma_flat(s, di, false, s.cpl == 3);
    lemma_set_of_line(di);
    let (s1, b) = mem_read(s, di, 1);
    assert(s1 == touched(s, di));
    lemma_scan_byte(s.ram[di as int]);
    reveal_with_fuel(le_read, 2);
    assert(b == s.ram[di as int]);
    let a = s1.r[0] & mask_of(1);
    lemma_mask(s.r[0], 1);
    lemma_mask(a, 1);
    lemma_mask(b, 1);
    law_comparison(s.rflags, a, b, 1);
    law_arithmetic_flags(7, s.rflags, a, b, 1);
    lemma_direction(sub_flags(s.rflags, a, b, 0, 1), s.rflags);
}

proof fn lemma_scan_byte(b: u8)
    by (bit_vector)
    ensures
        0u64 | ((b as u64) << 0u64) == b as u64,
{
}

/// A repeated scan for a byte stops at the first match. The index is then one past it, the count is
/// what was left of the elements behind it, and the zero flag is set; without a match the count runs
/// out and the zero flag is clear. No other register and no memory changes.
pub proof fn law_scan_first_match(s: CpuState, start: u64, k: int, m: nat)
    requires
        scan_ready(s),
        0 <= k <= s.r[1],
        forall|i: int| 0 <= i < k ==> !#[trigger] scan_matches(s, i),
        k < s.r[1] ==> scan_matches(s, k),
        m >= (if k < s.r[1] { k + 1 } else { k }),
    ensures
        ({
            let t = string_repeated(s, StringOp::Scas, 1, RepKind::Repne, start, m);
            let done = if k < s.r[1] { k + 1 } else { k };
            &&& t.r == s.r.update(7, (s.r[7] + done) as u64).update(1, (s.r[1] - done) as u64)
            &&& s.r[1] > 0 ==> flag_set(t.rflags, ZF) == (k < s.r[1])
            &&& data_only(s, t)
            &&& t.ram == s.ram
        }),
    decreases k,
{
    let t = string_repeated(s, StringOp::Scas, 1, RepKind::Repne, start, m);
    if s.r[1] == 0 {
        assert(s.r.update(7, s.r[7]).update(1, 0) =~= s.r);
    } else {
        lemma_scan_element(s);
        let e = string_element(s, StringOp::Scas, 1);
        let u = with_reg(e, 1, (s.r[1] - 1) as u64);
        assert forall|i: int| 0 <= i < k - 1 implies !#[trigger] scan_matches(u, i) by {
            assert(!scan_matches(s, i + 1));
        }
        assert forall|i: int| 0 <= i < u.r[1] implies plain(#[trigger] scan_at(u, i)) by {
            assert(plain(scan_at(s, i + 1)));
        }
        if k > 0 {
            assert(!scan_matches(s, 0));
            law_scan_first_match(u, start, k - 1, (m - 1) as nat);
        }
        let done = if k < s.r[1] { k + 1 } else { k };
        assert(t.r =~= s.r.update(7, (s.r[7] + done) as u64).update(1, (s.r[1] - done) as u64));
    }
}

proof fn lemma_flat_code(s: CpuState, n: nat)
    requires
        !paging_on(s),
    ensures
        code_there(s, n),
    decreases n,
{
    reveal(page_walk);
    let b = code_byte(s, s.rip);
    if n > 0 && is_prefix(b) && !(0x40 <= b <= 0x4f) {
        lemma_flat_code(prefix_taken(s, b), (n - 1) as nat);
    }
}

proof fn lemma_flat_access(s: CpuState, addr: u64, size: u8)
    requires
        !paging_on(s),
        1 <= size,
        plain(addr),
    ensures
        can_load(s, addr, size),
        can_store(s, addr, size),
        forall|x: int| #[trigger]
            stored_at(s, addr, size, x) ==> exists|b: int|
                0 <= b < size && x == #[trigger] nth(addr, b),
{
    reveal(page_walk);
    assert forall|x: int| #[trigger] stored_at(s, addr, size, x) implies exists|b: int|
        0 <= b < size && x == #[trigger] nth(addr, b) by {
        let b = choose|b: int| 0 <= b < size && x == walk_to(s, #[trigger] nth(addr, b), true);
        assert(x == nth(addr, b));
    }
}

/// The same of the instruction itself: stepped until the instruction pointer leaves it, the scan has
/// stopped at the first match.
pub proof fn law_scan_instruction(s: CpuState, k: int, n: nat)
    requires
        scan_ready(s),
        calm(s),
        seen_opcode(s).1.1 == 0xae,
        seen_opcode(s).1.0.rep == RepKind::Repne,
        seen_opcode(s).0.rip != s.rip,
        0 <= k <= s.r[1],
        forall|i: int| 0 <= i < k ==> !#[trigger] scan_matches(s, i),
        k < s.r[1] ==> scan_matches(s, k),
        n >= 1,
        n >= s.r[1],
    ensures
        ({
            let t = stepped_out(s, n);
            let done = if k < s.r[1] { k + 1 } else { k };
            &&& t.r == s.r.update(7, (s.r[7] + done) as u64).update(1, (s.r[1] - done) as u64)
            &&& s.r[1] > 0 ==> flag_set(t.rflags, ZF) == (k < s.r[1])
            &&& t.rip == seen_opcode(s).0.rip
            &&& t.ram == s.ram
        }),
{
    lemma_flat_code(decoding(s), prefix_bound());
    assert forall|i: int| 0 <= i < s.r[1] implies #[trigger] element_fits(
        s,
        s,
        StringOp::Scas,
        1,
        i,
    ) by {
        assert(plain(scan_at(s, i)));
        assert(i * 1 == i) by (nonlinear_arith);
        lemma_step_at(s.r[7], 1, i as nat);
        lemma_flat_access(s, scan_at(s, i), 1);
    }
    assert(next_string(s) == (StringOp::Scas, 1u8));
    law_repeat_stepped(s, n);
    lemma_opcode_seen(s);
    let d = seen_opcode(s).0;
    assert forall|i: int| 0 <= i < d.r[1] implies plain(#[trigger] scan_at(d, i)) by {
        assert(plain(scan_at(s, i)));
    }
    assert forall|i: int| 0 <= i < k implies !#[trigger] scan_matches(d, i) by {
        assert(!scan_matches(s, i));
    }
    assert(k < s.r[1] ==> scan_matches(d, k)) by {
        assert(k < s.r[1] ==> scan_matches(s, k));
    }
    law_scan_first_match(d, s.rip, k, s.r[1] as nat);
    let t = stepped_out(s, n);
    let w = string_repeated(d, StringOp::Scas, 1, RepKind::Repne, s.rip, s.r[1] as nat);
    assert(erased(t).r == erased(w).r);
}

/// A byte that a repeated copy or store reads or writes without paging.
pub open spec fn byte_of(s: CpuState, reg: int, size: u8, k: int, b: int) -> u64 {
    nth(step_at(s.r[reg], string_step(s, size), k as nat), b)
}

/// Without paging the bytes that a repeated copy or store touches are RAM, and those it writes are not
/// the instruction's.
pub open spec fn touches_plain(s: CpuState, kind: StringOp, size: u8) -> bool {
    forall|k: int, b: int|
        #![trigger byte_of(s, 7, size, k, b)]
        0 <= k < s.r[1] && 0 <= b < size ==> {
            &&& plain(byte_of(s, 7, size, k, b))
            &&& !instruction_byte(s, byte_of(s, 7, size, k, b) as int)
            &&& kind == StringOp::Movs ==> plain(byte_of(s, 6, size, k, b))
        }
}

/// The shortcuts change nothing without paging: a repeated copy or store between bytes of RAM, none of
/// which is the instruction's own, ends with equal registers, flags, memory and platform.
pub proof fn law_shortcuts_without_paging(s: CpuState, n: nat, m: nat)
    requires
        calm(s),
        !paging_on(s),
        string_kind(seen_opcode(s).1.1) is Some,
        stores_target(next_string(s).0),
        seen_opcode(s).1.0.rep != RepKind::Plain,
        seen_opcode(s).0.rip != s.rip,
        touches_plain(s, next_string(s).0, next_string(s).1),
        n >= 1,
        n >= s.r[1],
        m >= 1,
        m >= s.r[1],
    ensures
        ({
            let fast = stepped_out(with_shortcuts(s, true), n);
            let slow = stepped_out(with_shortcuts(s, false), m);
            &&& fast.r == slow.r
            &&& fast.rflags == slow.rflags
            &&& fast.rip == slow.rip
            &&& fast.rip != s.rip
            &&& fast.ram == slow.ram
            &&& fast.sys == slow.sys
        }),
{
    let (kind, size) = next_string(s);
    lemma_flat_code(decoding(s), prefix_bound());
    assert forall|k: int| 0 <= k < s.r[1] implies #[trigger] element_fits(s, s, kind, size, k) by {
        let src = step_at(s.r[6], string_step(s, size), k as nat);
        let dst = step_at(s.r[7], string_step(s, size), k as nat);
        assert(byte_of(s, 7, size, k, 0) == dst);
        assert(byte_of(s, 6, size, k, 0) == src);
        lemma_flat_access(s, dst, size);
        if kind == StringOp::Movs {
            lemma_flat_access(s, src, size);
        }
        assert forall|x: int| #[trigger] stored_at(s, dst, size, x) implies !instruction_byte(s, x) by {
            let b = choose|b: int| 0 <= b < size && x == #[trigger] nth(dst, b);
            assert(byte_of(s, 7, size, k, b) == x);
        }
    }
    law_shortcuts_change_nothing(s, n, m);
}

} // verus!
