//! Words as numbers: bytes in memory, parts of registers, and single bits, in plain arithmetic.
use vstd::prelude::*;
#[allow(unused_imports)]
use crate::bits::{is_width, lemma_mask, low, mask_of, modulus, sign_of, signed_of};
#[allow(unused_imports)]
use crate::cpu::CpuState;
#[allow(unused_imports)]
use crate::mmu::{byte_at, fetch_byte, fetch_bytes, fetch_imm, le_read, le_write};
#[allow(unused_imports)]
use crate::operand::{reg_value, reg_write, sext_of};

verus! {

// ----- bytes -----

/// `256` to the `i`-th power, up to the eighth.
pub open spec fn weight(i: int) -> int {
    if i <= 0 {
        1
    } else if i == 1 {
        0x100
    } else if i == 2 {
        0x1_0000
    } else if i == 3 {
        0x100_0000
    } else if i == 4 {
        0x1_0000_0000
    } else if i == 5 {
        0x100_0000_0000
    } else if i == 6 {
        0x1_0000_0000_0000
    } else if i == 7 {
        0x100_0000_0000_0000
    } else {
        0x1_0000_0000_0000_0000
    }
}

/// The number that `n` bytes of memory hold, the lowest first; beyond the end they are zero.
pub open spec fn number_at(ram: Seq<u8>, a: int, n: nat) -> int
    decreases n,
{
    if n == 0 {
        0
    } else {
        number_at(ram, a, (n - 1) as nat) + (if 0 <= a + n - 1 < ram.len() {
            ram[a + n - 1] as int
        } else {
            0
        }) * weight(n - 1)
    }
}

/// Byte `i` of a number.
pub open spec fn byte_num(v: int, i: int) -> int {
    (v / weight(i)) % 0x100
}

pub proof fn lemma_places(x: u64, b: u8, k: u64)
    requires
        k <= 56,
        x < 1u64 << k,
    ensures
        (x | ((b as u64) << k)) == x + ((b as u64) << k),
{
    crate::bit_facts::lemma_bytes_of_words(x, k, 0, b, 0, 0, 0);
}

/// A byte put at its place above the bytes that are there.
pub proof fn lemma_add_byte(x: u64, b: u8, i: int)
    requires
        0 <= i < 8,
        x < weight(i),
    ensures
        (x | ((b as u64) << ((8 * i) as u64))) == x + b * weight(i),
        x + b * weight(i) < weight(i + 1),
{
    lemma_byte_bits(0, b);
    lemma_places(x, b, (8 * i) as u64);
}

/// A load of up to eight bytes gives the number they hold.
pub proof fn law_load_number(ram: Seq<u8>, a: int, n: nat)
    requires
        n <= 8,
    ensures
        le_read(ram, a, n) == number_at(ram, a, n),
        0 <= number_at(ram, a, n) < weight(n as int),
    decreases n,
{
    if n > 0 {
        law_load_number(ram, a, (n - 1) as nat);
        let b = byte_at(ram, a + n - 1);
        lemma_add_byte(le_read(ram, a, (n - 1) as nat), b, n - 1);
    }
}

proof fn lemma_byte_bits(v: u64, b: u8)
    ensures
        1u64 << 0 == 1,
        1u64 << 8 == 0x100,
        1u64 << 16 == 0x1_0000,
        1u64 << 24 == 0x100_0000,
        1u64 << 32 == 0x1_0000_0000,
        1u64 << 40 == 0x100_0000_0000,
        1u64 << 48 == 0x1_0000_0000_0000,
        1u64 << 56 == 0x100_0000_0000_0000,
        (b as u64) << 0 == b,
        (b as u64) << 8 == b * 0x100,
        (b as u64) << 16 == b * 0x1_0000,
        (b as u64) << 24 == b * 0x100_0000,
        (b as u64) << 32 == b * 0x1_0000_0000,
        (b as u64) << 40 == b * 0x100_0000_0000,
        (b as u64) << 48 == b * 0x1_0000_0000_0000,
        (b as u64) << 56 == b * 0x100_0000_0000_0000,
        (v >> 0) as u8 == v % 0x100,
        (v >> 8) as u8 == (v / 0x100) % 0x100,
        (v >> 16) as u8 == (v / 0x1_0000) % 0x100,
        (v >> 24) as u8 == (v / 0x100_0000) % 0x100,
        (v >> 32) as u8 == (v / 0x1_0000_0000) % 0x100,
        (v >> 40) as u8 == (v / 0x100_0000_0000) % 0x100,
        (v >> 48) as u8 == (v / 0x1_0000_0000_0000) % 0x100,
        (v >> 56) as u8 == (v / 0x100_0000_0000_0000) % 0x100,
{
    crate::bit_facts::lemma_bytes_of_words(v, 0, 0, b, 0, 0, 0);
}

/// A store of up to eight bytes puts each byte of the value at its place, the lowest first, and
/// leaves the rest of memory alone.
pub proof fn law_store_number(ram: Seq<u8>, a: int, n: nat, v: u64, i: int)
    requires
        n <= 8,
        0 <= i < ram.len(),
    ensures
        le_write(ram, a, n, v).len() == ram.len(),
        le_write(ram, a, n, v)[i] == if a <= i < a + n {
            byte_num(v as int, i - a)
        } else {
            ram[i] as int
        },
{
    crate::memory_laws::law_store_exact(ram, a, n, v);
    lemma_byte_bits(v, 0);
}

// ----- instruction bytes -----

/// The next byte of the instruction stream, and the one after.
pub open spec fn code_number(s: CpuState, n: nat) -> int
    decreases n,
{
    if n == 0 {
        0
    } else {
        code_number(s, (n - 1) as nat) + fetch_byte(fetch_bytes(s, (n - 1) as nat).0).1 * weight(
            n - 1,
        )
    }
}

/// An immediate or a displacement of up to eight bytes is the number its bytes make.
pub proof fn law_code_number(s: CpuState, n: nat)
    requires
        n <= 8,
    ensures
        fetch_bytes(s, n).1 == code_number(s, n),
        0 <= code_number(s, n) < weight(n as int),
    decreases n,
{
    if n > 0 {
        law_code_number(s, (n - 1) as nat);
        let t = fetch_bytes(s, (n - 1) as nat).0;
        lemma_add_byte(fetch_bytes(s, (n - 1) as nat).1, fetch_byte(t).1, n - 1);
    }
}

/// A number of four bytes with its sign.
pub open spec fn signed_code(s: CpuState, n: u8) -> int {
    let v = code_number(s, n as nat);
    if v >= weight(n as int) / 2 {
        v - weight(n as int)
    } else {
        v
    }
}

/// The immediate of the operand size has at most four bytes; those of a 64-bit operand carry their
/// sign into it.
pub proof fn law_immediate(s: CpuState, size: u8)
    requires
        size == 2 || size == 4 || size == 8,
    ensures
        size < 8 ==> fetch_imm(s, size).1 == code_number(s, size as nat),
        size == 8 ==> fetch_imm(s, size).1 as int == signed_code(s, 4) || fetch_imm(s, size).1
            == signed_code(s, 4) + 0x1_0000_0000_0000_0000,
        size == 8 ==> (fetch_imm(s, size).1 as int == signed_code(s, 4)) == (signed_code(s, 4) >= 0),
{
    law_code_number(s, 2);
    law_code_number(s, 4);
    if size == 8 {
        law_sign_extended(fetch_bytes(s, 4).1, 4);
    }
}

// ----- signs -----

/// A signed word as its bits.
pub proof fn lemma_negative(x: i64)
    ensures
        x >= 0 ==> x as u64 == x,
        x < 0 ==> x as u64 == x + 0x1_0000_0000_0000_0000,
{
    crate::bit_facts::lemma_signed_words(0, 0, x);
}

/// A value extended with its sign is the same number, modulo the full width.
pub proof fn law_sign_extended(v: u64, size: u8)
    requires
        is_width(size),
    ensures
        ({
            let h = v as int % modulus(size);
            let x = if h >= modulus(size) / 2 { h - modulus(size) } else { h };
            sext_of(v, size) == if x >= 0 { x } else { x + 0x1_0000_0000_0000_0000 }
        }),
{
    lemma_mask(v, size);
    lemma_negative(signed_of(v, size) as i64);
}

// ----- parts of registers -----

/// Where the part of a register that a field names at a width begins: the high bytes are the second
/// bytes of the first four registers.
pub open spec fn part_at(s: CpuState, i: int, size: u8) -> (int, int) {
    if size == 1 && !s.rex_present && 4 <= i < 8 {
        (i - 4, 1)
    } else {
        (i, 0)
    }
}

proof fn lemma_parts(old: u64, v: u64)
    ensures
        (old >> 8) & 0xff == (old / 0x100) % 0x100,
        (old & !0xff00) | ((v & 0xff) << 8) == old - ((old / 0x100) % 0x100) * 0x100 + (v % 0x100)
            * 0x100,
        (old & !0xff) | (v & 0xff) == old - old % 0x100 + v % 0x100,
        (old & !0xffff) | (v & 0xffff) == old - old % 0x1_0000 + v % 0x1_0000,
{
    crate::bit_facts::lemma_bytes_of_words(old, v, 0, 0, 0, 0, 0);
}

/// A register is read at a width as the number in that part of it.
pub proof fn law_register_part(s: CpuState, i: int, size: u8)
    requires
        is_width(size),
        0 <= i < 16,
    ensures
        ({
            let (k, b) = part_at(s, i, size);
            reg_value(s, i, size) == (s.r[k] as int / weight(b)) % modulus(size)
        }),
{
    let (k, b) = part_at(s, i, size);
    lemma_parts(s.r[k], 0);
    lemma_mask(s.r[k], size);
}

/// A register is written at a width in that part of it. One and two bytes leave the rest of the
/// register as it was; four bytes clear it. No other register changes.
pub proof fn law_register_parts(s: CpuState, i: int, size: u8, v: u64)
    requires
        is_width(size),
        s.r.len() == 16,
        0 <= i < 16,
    ensures
        ({
            let (k, b) = part_at(s, i, size);
            let t = reg_write(s, i, size, v);
            let new = v as int % modulus(size);
            let old = (s.r[k] as int / weight(b)) % modulus(size);
            &&& size < 4 && b == 0 ==> t.r[k] as int == s.r[k] - old + new
            &&& size < 4 && b == 1 ==> t.r[k] as int == s.r[k] - 0x100 * old + 0x100 * new
            &&& size >= 4 ==> t.r[k] as int == new
            &&& forall|j: int| 0 <= j < 16 && j != k ==> #[trigger] t.r[j] == s.r[j]
            &&& t == (CpuState { r: t.r, ..s })
            &&& t.r.len() == 16
        }),
{
    let (k, b) = part_at(s, i, size);
    lemma_parts(s.r[k], v);
    lemma_mask(v, size);
}

} // verus!
