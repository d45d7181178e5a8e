//! `RFLAGS`: the status bits the integer instructions set and the conditions that read them.
use vstd::prelude::*;
use crate::bits::{mask, parity, sign};
#[allow(unused_imports)]
use crate::bits::{even_parity, is_width, lemma_mask, low, modulus, sign_of, signed_of};

verus! {

/// Carry.
pub const CF: u64 = 0x1;
/// Parity.
pub const PF: u64 = 0x4;
/// Auxiliary carry (cleared by the instructions that define it, never set).
pub const AF: u64 = 0x10;
/// Zero.
pub const ZF: u64 = 0x40;
/// Sign.
pub const SF: u64 = 0x80;
/// Interrupt enable.
pub const RFLAGS_IF: u64 = 0x200;
/// Direction of the string instructions.
pub const RFLAGS_DF: u64 = 0x400;
/// Overflow.
pub const OF: u64 = 0x800;
/// Alignment check, the access bit of the supervisor-mode access prevention.
pub const RFLAGS_AC: u64 = 0x4_0000;

/// `f` with the bits of `bit` set or cleared.
pub open spec fn with_bit(f: u64, bit: u64, on: bool) -> u64 {
    if on {
        f | bit
    } else {
        f & !bit
    }
}

/// Whether any of the bits of `bit` is set.
pub open spec fn flag_set(f: u64, bit: u64) -> bool {
    f & bit != 0
}

/// The zero, sign and parity flags of a result.
pub open spec fn with_result(f: u64, r: u64, size: u8) -> u64 {
    with_bit(with_bit(with_bit(f, ZF, low(r, size) == 0), SF, sign_of(r, size)), PF, even_parity(r))
}

/// Carry and overflow.
pub open spec fn with_carry(f: u64, cf: bool, of: bool) -> u64 {
    with_bit(with_bit(f, CF, cf), OF, of)
}

/// The flags of a logical result: zero, sign and parity from the result, no carry, no overflow.
pub open spec fn logic_flags(f: u64, r: u64, size: u8) -> u64 {
    with_carry(with_result(f, r, size), false, false)
}

/// Whether an integer is out of the range of a signed operand of `size` bytes.
pub open spec fn signed_overflow(x: int, size: u8) -> bool {
    x < -(modulus(size) / 2) || x >= modulus(size) / 2
}

/// The flags of `a + b + carry`.
pub open spec fn add_flags(f: u64, a: u64, b: u64, carry: int, size: u8) -> u64 {
    let r = ((low(a, size) + low(b, size) + carry) % modulus(size)) as u64;
    with_carry(
        with_result(f, r, size),
        low(a, size) + low(b, size) + carry >= modulus(size),
        signed_overflow(signed_of(a, size) + signed_of(b, size) + carry, size),
    )
}

/// The flags of `a - b - borrow`.
pub open spec fn sub_flags(f: u64, a: u64, b: u64, borrow: int, size: u8) -> u64 {
    let r = ((low(a, size) - low(b, size) - borrow) % modulus(size)) as u64;
    with_carry(
        with_result(f, r, size),
        low(a, size) < low(b, size) + borrow,
        signed_overflow(signed_of(a, size) - signed_of(b, size) - borrow, size),
    )
}

/// The carry flag as a number.
pub open spec fn carry_in(f: u64) -> int {
    if flag_set(f, CF) {
        1
    } else {
        0
    }
}

/// The eight group-1 operations: the `size`-byte result and the new flags.
///
/// `0` ADD, `1` OR, `2` ADC, `3` SBB, `4` AND, `5` SUB, `6` XOR, `7` CMP, whose result is its
/// first operand.
pub open spec fn alu_result(op: u8, f: u64, a: u64, b: u64, size: u8) -> (u64, u64) {
    if op == 0 {
        (((low(a, size) + low(b, size)) % modulus(size)) as u64, add_flags(f, a, b, 0, size))
    } else if op == 1 {
        (low(a | b, size) as u64, logic_flags(f, a | b, size))
    } else if op == 2 {
        (
            ((low(a, size) + low(b, size) + carry_in(f)) % modulus(size)) as u64,
            add_flags(f, a, b, carry_in(f), size),
        )
    } else if op == 3 {
        (
            ((low(a, size) - low(b, size) - carry_in(f)) % modulus(size)) as u64,
            sub_flags(f, a, b, carry_in(f), size),
        )
    } else if op == 4 {
        (low(a & b, size) as u64, logic_flags(f, a & b, size))
    } else if op == 5 {
        (((low(a, size) - low(b, size)) % modulus(size)) as u64, sub_flags(f, a, b, 0, size))
    } else if op == 6 {
        (low(a ^ b, size) as u64, logic_flags(f, a ^ b, size))
    } else {
        (low(a, size) as u64, sub_flags(f, a, b, 0, size))
    }
}

/// `INC`: add one, leaving the carry flag alone.
pub open spec fn inc_flags(f: u64, a: u64, size: u8) -> u64 {
    (add_flags(f, a, 1, 0, size) & !CF) | (f & CF)
}

/// `DEC`: subtract one, leaving the carry flag alone.
pub open spec fn dec_flags(f: u64, a: u64, size: u8) -> u64 {
    (sub_flags(f, a, 1, 0, size) & !CF) | (f & CF)
}

/// The sixteen condition codes of `Jcc`, `SETcc` and `CMOVcc`.
pub open spec fn condition(f: u64, cc: u8) -> bool {
    let base = if cc / 2 == 0 {
        flag_set(f, OF)
    } else if cc / 2 == 1 {
        flag_set(f, CF)
    } else if cc / 2 == 2 {
        flag_set(f, ZF)
    } else if cc / 2 == 3 {
        flag_set(f, CF) || flag_set(f, ZF)
    } else if cc / 2 == 4 {
        flag_set(f, SF)
    } else if cc / 2 == 5 {
        flag_set(f, PF)
    } else if cc / 2 == 6 {
        flag_set(f, SF) != flag_set(f, OF)
    } else {
        flag_set(f, SF) != flag_set(f, OF) || flag_set(f, ZF)
    };
    if cc % 2 == 1 {
        !base
    } else {
        base
    }
}

/// Set or clear flag bits.
pub fn set_bit(f: u64, bit: u64, on: bool) -> (r: u64)
    ensures
        r == with_bit(f, bit, on),
{
    if on {
        f | bit
    } else {
        f & !bit
    }
}

/// Set the zero, sign and parity flags from a result.
pub fn set_result(f: u64, r: u64, size: u8) -> (g: u64)
    requires
        is_width(size),
    ensures
        g == with_result(f, r, size),
{
    proof {
        lemma_mask(r, size);
    }
    let m: u64 = mask(size);
    let g1: u64 = set_bit(f, ZF, r & m == 0);
    let g2: u64 = set_bit(g1, SF, sign(r, size));
    set_bit(g2, PF, parity(r))
}

/// Set the carry and overflow flags.
pub fn set_carry(f: u64, cf: bool, of: bool) -> (g: u64)
    ensures
        g == with_carry(f, cf, of),
{
    let g1: u64 = set_bit(f, CF, cf);
    set_bit(g1, OF, of)
}

/// Set the flags of a logical result.
pub fn flags_logic(f: u64, r: u64, size: u8) -> (g: u64)
    requires
        is_width(size),
    ensures
        g == logic_flags(f, r, size),
{
    let g1: u64 = set_result(f, r, size);
    set_carry(g1, false, false)
}

/// Add with a carry: the result and its flags.
pub fn add_carry(f: u64, a: u64, b: u64, carry: bool, size: u8) -> (res: (u64, u64))
    requires
        is_width(size),
    ensures
        res.0 == (low(a, size) + low(b, size) + (if carry { 1int } else { 0 })) % modulus(size),
        res.1 == add_flags(f, a, b, if carry { 1 } else { 0 }, size),
{
    let m: u64 = mask(size);
    let c: u64 = if carry { 1 } else { 0 };
    let t: u64 = a.wrapping_add(b).wrapping_add(c);
    let r: u64 = t & m;
    proof {
        lemma_mask(a, size);
        lemma_mask(b, size);
        lemma_mask(t, size);
        lemma_sum(a, b, c as int, t, size);
        assert(low(r, size) == r);
    }
    let cf: bool = r < (a & m) || (carry && r == (a & m));
    let of: bool = sign(a, size) == sign(b, size) && sign(a, size) != sign(r, size);
    let g: u64 = set_result(f, r, size);
    (r, set_carry(g, cf, of))
}

proof fn lemma_sum(a: u64, b: u64, c: int, t: u64, size: u8)
    requires
        is_width(size),
        0 <= c <= 1,
        t == a + b + c || t == a + b + c - 0x1_0000_0000_0000_0000,
    ensures
        low(t, size) == (low(a, size) + low(b, size) + c) % modulus(size),
{
    let m = modulus(size);
    lemma_wrap(a + b + c, size);
    vstd::arithmetic::div_mod::lemma_add_mod_noop(a as int, b as int, m);
    vstd::arithmetic::div_mod::lemma_add_mod_noop(a + b, c, m);
    vstd::arithmetic::div_mod::lemma_add_mod_noop(low(a, size) + low(b, size), c, m);
}

/// Adding or taking away the 64-bit modulus leaves the low bytes alone.
proof fn lemma_wrap(x: int, size: u8)
    requires
        is_width(size),
    ensures
        (x - 0x1_0000_0000_0000_0000) % modulus(size) == x % modulus(size),
        (x + 0x1_0000_0000_0000_0000) % modulus(size) == x % modulus(size),
{
    let q: int = if size == 1 {
        0x100_0000_0000_0000
    } else if size == 2 {
        0x1_0000_0000_0000
    } else if size == 4 {
        0x1_0000_0000
    } else {
        1
    };
    vstd::arithmetic::div_mod::lemma_mod_multiples_vanish(q, x, modulus(size));
    vstd::arithmetic::div_mod::lemma_mod_multiples_vanish(-q, x, modulus(size));
}

proof fn lemma_difference(a: u64, b: u64, c: int, t: u64, size: u8)
    requires
        is_width(size),
        0 <= c <= 1,
        t == a - b - c || t == a - b - c + 0x1_0000_0000_0000_0000,
    ensures
        low(t, size) == (low(a, size) - low(b, size) - c) % modulus(size),
{
    let m = modulus(size);
    lemma_wrap(a - b - c, size);
    vstd::arithmetic::div_mod::lemma_sub_mod_noop(a as int, b as int, m);
    vstd::arithmetic::div_mod::lemma_sub_mod_noop(a - b, c, m);
    vstd::arithmetic::div_mod::lemma_sub_mod_noop(low(a, size) - low(b, size), c, m);
}

/// Subtract with a borrow: the result and its flags.
pub fn sub_borrow(f: u64, a: u64, b: u64, borrow: bool, size: u8) -> (res: (u64, u64))
    requires
        is_width(size),
    ensures
        res.0 == (low(a, size) - low(b, size) - (if borrow { 1int } else { 0 })) % modulus(size),
        res.1 == sub_flags(f, a, b, if borrow { 1 } else { 0 }, size),
{
    let m: u64 = mask(size);
    let c: u64 = if borrow { 1 } else { 0 };
    let t: u64 = a.wrapping_sub(b).wrapping_sub(c);
    let r: u64 = t & m;
    proof {
        lemma_mask(a, size);
        lemma_mask(b, size);
        lemma_mask(t, size);
        lemma_difference(a, b, c as int, t, size);
        assert(low(r, size) == r);
    }
    let cf: bool = (a & m) < (b & m) || (borrow && (a & m) == (b & m));
    let of: bool = sign(a, size) != sign(b, size) && sign(a, size) != sign(r, size);
    let g: u64 = set_result(f, r, size);
    (r, set_carry(g, cf, of))
}

/// One of the eight group-1 operations on `a` and `b`: the result and the new flags.
pub fn alu_op(op: u8, f: u64, a: u64, b: u64, size: u8) -> (res: (u64, u64))
    requires
        op < 8,
        is_width(size),
    ensures
        res == alu_result(op, f, a, b, size),
{
    let m: u64 = mask(size);
    proof {
        lemma_mask(a, size);
        lemma_mask(a | b, size);
        lemma_mask(a & b, size);
        lemma_mask(a ^ b, size);
    }
    if op == 0 {
        add_carry(f, a, b, false, size)
    } else if op == 1 {
        ((a | b) & m, flags_logic(f, a | b, size))
    } else if op == 2 {
        add_carry(f, a, b, f & CF != 0, size)
    } else if op == 3 {
        sub_borrow(f, a, b, f & CF != 0, size)
    } else if op == 4 {
        ((a & b) & m, flags_logic(f, a & b, size))
    } else if op == 5 {
        sub_borrow(f, a, b, false, size)
    } else if op == 6 {
        ((a ^ b) & m, flags_logic(f, a ^ b, size))
    } else {
        let (r, g) = sub_borrow(f, a, b, false, size);
        (a & m, g)
    }
}

/// Evaluate a condition code.
pub fn cond(f: u64, cc: u8) -> (b: bool)
    ensures
        b == condition(f, cc),
{
    let zf: bool = f & ZF != 0;
    let cf: bool = f & CF != 0;
    let sf: bool = f & SF != 0;
    let of: bool = f & OF != 0;
    let pf: bool = f & PF != 0;
    let k: u8 = cc / 2;
    let base: bool = if k == 0 {
        of
    } else if k == 1 {
        cf
    } else if k == 2 {
        zf
    } else if k == 3 {
        cf || zf
    } else if k == 4 {
        sf
    } else if k == 5 {
        pf
    } else if k == 6 {
        sf != of
    } else {
        (sf != of) || zf
    };
    if cc % 2 == 1 {
        !base
    } else {
        base
    }
}

} // verus!
