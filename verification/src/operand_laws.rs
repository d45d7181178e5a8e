//! What decoding and loading operands leave alone, and what single bits and flags say.
use vstd::prelude::*;
#[allow(unused_imports)]
use crate::bits::{
    even_parity, is_width, lemma_mask, low, mask_of, modulus, ones8, sign_of, signed_of,
};
#[allow(unused_imports)]
use crate::control_laws::lemma_flag_bits;
#[allow(unused_imports)]
use crate::cpu::{runnable, CpuState};
#[allow(unused_imports)]
use crate::flags::{signed_overflow, with_carry, with_result};
#[allow(unused_imports)]
use crate::memory_laws::{law_load_keeps, law_register_write};
#[allow(unused_imports)]
use crate::mmu::{fetch_byte, fetch_bytes, fetch_imm, translate_access};
#[allow(unused_imports)]
use crate::operand::{decode_rm, load_operand, reg_value, store_operand, with_flags, Rm};

verus! {

// ----- what fetching leaves alone -----

/// Only the instruction pointer, the caches and a latched fault have changed.
pub open spec fn only_fetched(s: CpuState, t: CpuState) -> bool {
    &&& t == (CpuState {
        rip: t.rip,
        tlb: t.tlb,
        fault: t.fault,
        ifetch_tag: t.ifetch_tag,
        ifetch_frame: t.ifetch_frame,
        ifetch_gen: t.ifetch_gen,
        ifetch_pgen: t.ifetch_pgen,
        ifetch_pcid: t.ifetch_pcid,
        ..s
    })
    &&& runnable(s) ==> runnable(t)
}

/// Fetching moves the instruction pointer on by the bytes fetched, and changes nothing of the machine
/// but its caches.
pub proof fn law_fetch(s: CpuState, n: nat)
    ensures
        only_fetched(s, fetch_byte(s).0),
        fetch_byte(s).0.rip == s.rip.wrapping_add(1),
        only_fetched(s, fetch_bytes(s, n).0),
        fetch_bytes(s, n).0.rip as int == (s.rip + n) % 0x1_0000_0000_0000_0000,
    decreases n,
{
    lemma_fetch_byte(s);
    if n > 0 {
        law_fetch(s, (n - 1) as nat);
        lemma_fetch_byte(fetch_bytes(s, (n - 1) as nat).0);
    }
}

proof fn lemma_fetch_byte(s: CpuState)
    ensures
        only_fetched(s, fetch_byte(s).0),
        fetch_byte(s).0.rip == s.rip.wrapping_add(1),
{
    reveal(fetch_byte);
    reveal(translate_access);
    crate::mmu::lemma_set_bounds(s.rip);
}

pub proof fn lemma_fetch_imm(s: CpuState, size: u8)
    ensures
        only_fetched(s, fetch_imm(s, size).0),
{
    law_fetch(s, 2);
    law_fetch(s, 4);
}

/// Decoding an operand does no more, and names one of sixteen registers.
pub proof fn lemma_decoded(s: CpuState, rex: u8)
    ensures
        only_fetched(s, decode_rm(s, rex).0),
        decode_rm(s, rex).1.0 < 16,
        decode_rm(s, rex).1.1 matches Rm::Reg(i) ==> i < 16,
{
    reveal(decode_rm);
    let s1 = fetch_byte(s).0;
    lemma_fetch_byte(s);
    lemma_fetch_byte(s1);
    let s2 = fetch_byte(s1).0;
    law_fetch(s1, 4);
    law_fetch(s1, 1);
    law_fetch(s2, 4);
    law_fetch(s2, 1);
    law_fetch(fetch_bytes(s2, 4).0, 1);
    law_fetch(fetch_bytes(s2, 4).0, 4);
}

/// Loading an operand changes no register and no flag.
pub proof fn lemma_operand(s: CpuState, rm: Rm, size: u8)
    requires
        runnable(s),
    ensures
        ({
            let t = load_operand(s, rm, size).0;
            &&& t == (CpuState { tlb: t.tlb, fault: t.fault, sys: t.sys, ..s })
            &&& runnable(t)
        }),
{
    reveal(load_operand);
    law_load_keeps(s, crate::operand::addr_or_zero(s, rm), size);
}

// ----- bits and flags -----

/// Bit `i` of a word.
pub open spec fn bit_at(v: u64, i: u64) -> bool {
    (v >> i) & 1 == 1
}

/// How many of the low `n` bits of a number are set.
pub open spec fn ones(v: int, n: nat) -> int
    decreases n,
{
    if n == 0 {
        0
    } else {
        v % 2 + ones(v / 2, (n - 1) as nat)
    }
}

/// A number of a width with its sign.
pub open spec fn signed(x: int, size: u8) -> int {
    if 2 * x >= modulus(size) {
        x - modulus(size)
    } else {
        x
    }
}

/// A signed number that an operand of that width can hold.
pub open spec fn fits(x: int, size: u8) -> bool {
    -modulus(size) <= 2 * x < modulus(size)
}

/// The zero, sign and parity flags say what they should of a result.
#[verifier::opaque]
pub open spec fn tells(g: u64, r: int, size: u8) -> bool {
    &&& bit_at(g, 6) == (r == 0)
    &&& bit_at(g, 7) == (2 * r >= modulus(size))
    &&& bit_at(g, 2) == (ones(r % 0x100, 8) % 2 == 0)
}

/// No flag but carry, parity, zero, sign and overflow has changed.
#[verifier::opaque]
pub open spec fn other_flags_kept(f: u64, g: u64) -> bool {
    forall|i: u64|
        #![trigger bit_at(g, i)]
        i < 64 && i != 0 && i != 2 && i != 6 && i != 7 && i != 11 ==> bit_at(g, i) == bit_at(f, i)
}

pub proof fn lemma_flags_at(f: u64, g: u64, i: u64)
    ensures
        ((g >> 0) & 1 == 1) == (g & 0x1 != 0),
        ((g >> 2) & 1 == 1) == (g & 0x4 != 0),
        ((g >> 6) & 1 == 1) == (g & 0x40 != 0),
        ((g >> 7) & 1 == 1) == (g & 0x80 != 0),
        ((g >> 9) & 1 == 1) == (g & 0x200 != 0),
        ((g >> 10) & 1 == 1) == (g & 0x400 != 0),
        ((g >> 11) & 1 == 1) == (g & 0x800 != 0),
        i < 64 && i != 0 && i != 2 && i != 6 && i != 7 && i != 11 && g & !0x8c5u64 == f & !0x8c5u64 ==> ((g
            >> i) & 1 == 1) == ((f >> i) & 1 == 1),
{
    crate::bit_facts::lemma_bits_of_words(f, g, i, false, false);
}

proof fn lemma_ones(b: u8)
    ensures
        b & 1 == b % 2,
        (b >> 1) & 1 == (b / 2) % 2,
        (b >> 2) & 1 == (b / 4) % 2,
        (b >> 3) & 1 == (b / 8) % 2,
        (b >> 4) & 1 == (b / 16) % 2,
        (b >> 5) & 1 == (b / 32) % 2,
        (b >> 6) & 1 == (b / 64) % 2,
        (b >> 7) & 1 == (b / 128) % 2,
{
    crate::bit_facts::lemma_bits_of_words(b as u64, 0, 0, false, false);
}

/// The parity flag's condition counts the set bits of the low byte.
pub proof fn law_parity(v: u64)
    ensures
        even_parity(v) == (ones(v as int % 0x100, 8) % 2 == 0),
{
    crate::bits::lemma_low_bits(v);
    let b = (v & 0xff) as u8;
    lemma_ones(b);
    let x = b as int;
    assert(ones8(b) == ones(x, 8)) by {
        reveal_with_fuel(ones, 9);
        assert(x / 2 / 2 == x / 4 && x / 4 / 2 == x / 8 && x / 8 / 2 == x / 16 && x / 16 / 2 == x / 32
            && x / 32 / 2 == x / 64 && x / 64 / 2 == x / 128);
    }
}

/// The flags after a result with a carry and an overflow.
pub proof fn lemma_result_flags(f: u64, r: u64, size: u8, c: bool, o: bool)
    requires
        is_width(size),
    ensures
        ({
            let g = with_carry(with_result(f, r, size), c, o);
            &&& bit_at(g, 0) == c
            &&& bit_at(g, 11) == o
            &&& tells(g, low(r, size), size)
            &&& other_flags_kept(f, g)
        }),
{
    reveal(tells);
    reveal(other_flags_kept);
    let g = with_carry(with_result(f, r, size), c, o);
    lemma_mask(r, size);
    law_parity(r);
    lemma_flag_bits(f, low(r, size) == 0, sign_of(r, size), even_parity(r), c, o);
    lemma_flags_at(f, g, 0);
    assert forall|i: u64|
        #![trigger bit_at(g, i)]
        i < 64 && i != 0 && i != 2 && i != 6 && i != 7 && i != 11 implies bit_at(g, i) == bit_at(f, i) by {
        lemma_flags_at(f, g, i);
    }
    assert((r as int % modulus(size)) % 0x100 == r as int % 0x100) by {
        if size == 2 {
            vstd::arithmetic::div_mod::lemma_mod_mod(r as int, 0x100, 0x100);
        } else if size == 4 {
            vstd::arithmetic::div_mod::lemma_mod_mod(r as int, 0x100, 0x100_0000);
        }
    }
}

/// Carry and overflow alone.
pub proof fn lemma_carry_flags(f: u64, c: bool, o: bool)
    ensures
        ({
            let g = with_carry(f, c, o);
            &&& bit_at(g, 0) == c
            &&& bit_at(g, 11) == o
            &&& forall|i: u64|
                #![trigger bit_at(g, i)]
                i < 64 && i != 0 && i != 11 ==> bit_at(g, i) == bit_at(f, i)
        }),
{
    let g = with_carry(f, c, o);
    assert forall|i: u64| #![trigger bit_at(g, i)] i < 64 implies (i != 0 && i != 11 ==> bit_at(g, i) == bit_at(f, i)) && bit_at(g, 0) == c
        && bit_at(g, 11) == o by {
        lemma_two_bits(f, c, o, i);
    }
    assert(bit_at(g, 1) == bit_at(f, 1));
}

proof fn lemma_two_bits(f: u64, c: bool, o: bool, i: u64)
    requires
        i < 64,
    ensures
        ({
            let r = if c { f | 0x1 } else { f & !0x1u64 };
            let g = if o { r | 0x800 } else { r & !0x800u64 };
            &&& ((g >> 0) & 1 == 1) == c
            &&& ((g >> 11) & 1 == 1) == o
            &&& i != 0 && i != 11 ==> ((g >> i) & 1 == 1) == ((f >> i) & 1 == 1)
        }),
{
    crate::bit_facts::lemma_bits_of_words(f, i, 0, c, o);
}

pub proof fn lemma_bits_of(x: u64, y: u64, i: u64)
    requires
        i < 64,
    ensures
        (((x | y) >> i) & 1 == 1) == ((x >> i) & 1 == 1 || (y >> i) & 1 == 1),
        (((x & y) >> i) & 1 == 1) == ((x >> i) & 1 == 1 && (y >> i) & 1 == 1),
        (((x ^ y) >> i) & 1 == 1) == (((x >> i) & 1 == 1) != ((y >> i) & 1 == 1)),
        (((!x) >> i) & 1 == 1) == !((x >> i) & 1 == 1),
        (((x & 0xff) >> i) & 1 == 1) == (i < 8 && (x >> i) & 1 == 1),
        (((x & 0xffff) >> i) & 1 == 1) == (i < 16 && (x >> i) & 1 == 1),
        (((x & 0xffff_ffff) >> i) & 1 == 1) == (i < 32 && (x >> i) & 1 == 1),
        x & 0xffff_ffff_ffff_ffff == x,
{
    crate::bit_facts::lemma_bits_of_words(x, y, i, false, false);
}

/// The bits that an operand of a width keeps.
pub proof fn lemma_kept_bit(x: u64, size: u8, i: u64)
    requires
        is_width(size),
        i < 64,
    ensures
        bit_at(x & mask_of(size), i) == (i < 8 * size && bit_at(x, i)),
        low(x, size) as u64 == x & mask_of(size),
{
    lemma_bits_of(x, 0, i);
    lemma_mask(x, size);
}

/// What a register holds at a width.
pub open spec fn part(s: CpuState, i: int, size: u8) -> int {
    reg_value(s, i, size) as int
}

/// A stored register is read back, and the flags do not matter to it.
pub proof fn lemma_stored_part(s: CpuState, i: int, size: u8, v: u64, g: u64)
    requires
        is_width(size),
        s.r.len() == 16,
        0 <= i < 16,
        v < modulus(size),
    ensures
        part(store_operand(with_flags(s, g), Rm::Reg(i as usize), size, v), i, size) == v,
        store_operand(with_flags(s, g), Rm::Reg(i as usize), size, v).rflags == g,
        store_operand(with_flags(s, g), Rm::Reg(i as usize), size, v).r.len() == 16,
{
    reveal(store_operand);
    law_register_write(with_flags(s, g), i, size, v);
    lemma_mask(v, size);
}

/// What is read of a register fits its width.
pub proof fn lemma_part(s: CpuState, i: int, size: u8)
    requires
        is_width(size),
    ensures
        0 <= part(s, i, size) < modulus(size),
        low(reg_value(s, i, size), size) == part(s, i, size),
{
    crate::bits::lemma_low_bits(s.r[i]);
    crate::bits::lemma_low_bits(s.r[i - 4] >> 8);
    if size != 1 {
        lemma_mask(s.r[i], size);
    }
}

/// One turn around a modulus at most.
pub proof fn lemma_mod_once(z: int, m: int)
    requires
        m > 0,
        -m <= z < 2 * m,
    ensures
        z % m == if z < 0 {
            z + m
        } else if z < m {
            z
        } else {
            z - m
        },
        0 <= z % m < m,
{
    let q: int = if z < 0 {
        -1
    } else if z < m {
        0
    } else {
        1
    };
    vstd::arithmetic::div_mod::lemma_fundamental_div_mod_converse(z, m, q, z - q * m);
}

/// The signed reading of a word.
pub proof fn lemma_signed(a: u64, size: u8)
    requires
        is_width(size),
    ensures
        signed_of(a, size) == signed(low(a, size), size),
        sign_of(a, size) == (2 * low(a, size) >= modulus(size)),
        0 <= low(a, size) < modulus(size),
        fits(signed_of(a, size), size),
        modulus(size) % 2 == 0,
        modulus(size) > 0,
{
    lemma_mask(a, size);
}

/// A signed overflow is a number that does not fit.
pub proof fn lemma_overflow(x: int, size: u8)
    requires
        is_width(size),
    ensures
        signed_overflow(x, size) == !fits(x, size),
{
}

} // verus!
