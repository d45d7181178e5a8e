//! Laws of multiplication and division.
use vstd::prelude::*;
#[allow(unused_imports)]
use crate::arith::{
    div_result, dividend_of, idiv_result, imul_result, mul_result, quotient, remainder,
    signed_dividend_of,
};
#[allow(unused_imports)]
use crate::bits::{is_width, lemma_mask, low, modulus, signed_of};
#[allow(unused_imports)]
use crate::cpu::{runnable, CpuState};
#[allow(unused_imports)]
use crate::decode::{operand_size, Prefix};
#[allow(unused_imports)]
use crate::flags::signed_overflow;
#[allow(unused_imports)]
use crate::group_ops::wide_stored;
#[allow(unused_imports)]
use crate::int_ops::imul_stored;
#[allow(unused_imports)]
use crate::memory_laws::law_register_write;
#[allow(unused_imports)]
use crate::mmu::fetch_bytes;
#[allow(unused_imports)]
use crate::operand::{decode_rm, load_operand, reg_value, sext_of, store_operand, with_flags, Rm};
#[allow(unused_imports)]
use crate::operand_laws::{
    bit_at, fits, law_fetch, lemma_carry_flags, lemma_decoded, lemma_mod_once, lemma_operand,
    lemma_overflow, lemma_part, lemma_signed, lemma_stored_part, part, signed,
};
#[allow(unused_imports)]
use crate::step::{executed, map_5_7, map_e_f};
#[allow(unused_imports)]
use crate::word_laws::{law_code_number, law_sign_extended, signed_code};

verus! {

// ----- group 3 -----

/// The operand of a group-3 instruction.
pub open spec fn group3_operand(s: CpuState, p: Prefix, op: u8) -> u64 {
    let size = if op == 0xf6 { 1u8 } else { operand_size(p) };
    let (s1, (_, rm)) = decode_rm(s, p.rex);
    load_operand(s1, rm, size).1
}

/// The double-width number in `AX`, or in `RDX` and the accumulator.
pub open spec fn pair(s: CpuState, size: u8) -> int {
    if size == 1 {
        s.r[0] as int % 0x1_0000
    } else {
        (s.r[2] as int % modulus(size)) * modulus(size) + s.r[0] as int % modulus(size)
    }
}

/// The upper part of it: `AH`, or `RDX`.
pub open spec fn upper(s: CpuState, size: u8) -> int {
    if size == 1 {
        (s.r[0] as int / 0x100) % 0x100
    } else {
        s.r[2] as int % modulus(size)
    }
}

/// The lower part: `AL`, or the accumulator.
pub open spec fn lower(s: CpuState, size: u8) -> int {
    s.r[0] as int % modulus(size)
}

proof fn lemma_ah(old: u64, lo: u64, hi: u64)
    requires
        lo < 0x100,
        hi < 0x100,
    ensures
        (((old & !0xffff) | (lo & 0xff) | ((hi & 0xff) << 8)) / 0x100) % 0x100 == hi,
        ((old & !0xffff) | (lo & 0xff) | ((hi & 0xff) << 8)) % 0x100 == lo,
        ((old & !0xffff) | (lo & 0xff) | ((hi & 0xff) << 8)) % 0x1_0000 == lo + 0x100 * hi,
        ((old & !0xffff) | (lo & 0xff) | ((hi & 0xff) << 8)) / 0x1_0000 == old / 0x1_0000,
{
    crate::bit_facts::lemma_bytes_of_words(old, lo, hi, 0, 0, 0, 0);
}

proof fn lemma_wide(s: CpuState, lo: u64, hi: u64, size: u8)
    requires
        is_width(size),
        s.r.len() == 16,
        lo < modulus(size),
        hi < modulus(size),
    ensures
        ({
            let t = wide_stored(s, lo, hi, size);
            &&& lower(t, size) == lo
            &&& upper(t, size) == hi
            &&& pair(t, size) == hi * modulus(size) + lo
            &&& forall|i: int| 0 <= i < 16 && i != 0 && i != 2 ==> #[trigger] t.r[i] == s.r[i]
            &&& size == 1 ==> t.r[2] == s.r[2]
            &&& size == 4 ==> t.r[0] == lo && t.r[2] == hi
            &&& t == (CpuState { r: t.r, ..s })
        }),
{
    if size == 1 {
        lemma_ah(s.r[0], lo, hi);
    }
    reveal(store_operand);
    let t = wide_stored(s, lo, hi, size);
    if size != 1 {
        let u = store_operand(s, Rm::Reg(0), size, lo);
        law_register_write(s, 0, size, lo);
        law_register_write(u, 2, size, hi);
        lemma_mask(lo, size);
        lemma_mask(hi, size);
        lemma_mask(u.r[0], size);
        lemma_mask(t.r[2], size);
        assert(t.r[0] == u.r[0]);
    }
}

/// Group 3 with one of its last four instructions: what it computes from.
proof fn lemma_group3(s: CpuState, p: Prefix, op: u8) -> (s2: CpuState)
    requires
        op == 0xf6 || op == 0xf7,
        runnable(s),
        s.r.len() == 16,
    ensures
        ({
            let size = if op == 0xf6 { 1u8 } else { operand_size(p) };
            let (s1, (reg, rm)) = decode_rm(s, p.rex);
            let d = group3_operand(s, p, op);
            let k = reg % 8;
            &&& s2.r == s.r
            &&& s2.rflags == s.rflags
            &&& runnable(s2)
            &&& s2.sys.idtr == load_operand(s1, rm, size).0.sys.idtr
            &&& executed(s, p, op).1 is Next
            &&& k == 4 ==> executed(s, p, op).0 == ({
                let (lo, hi, f) = mul_result(s.rflags, s.r[0], d, size);
                with_flags(wide_stored(s2, lo, hi, size), f)
            })
            &&& k == 5 ==> executed(s, p, op).0 == ({
                let (lo, hi, f) = imul_result(s.rflags, s.r[0], d, size);
                with_flags(wide_stored(s2, lo, hi, size), f)
            })
            &&& k == 6 && low(d, size) != 0 ==> executed(s, p, op).0 == ({
                let (q, r) = div_result(s.r[0], s.r[2], d, size);
                wide_stored(s2, q, r, size)
            })
            &&& k == 7 && signed_of(d, size) != 0 ==> executed(s, p, op).0 == ({
                let (q, r) = idiv_result(s.r[0], s.r[2], d, size);
                wide_stored(s2, q, r, size)
            })
            &&& (k == 6 && low(d, size) == 0) || (k == 7 && signed_of(d, size) == 0)
                ==> executed(s, p, op).0 == crate::interrupt::raised(s2, 0, 0, false)
        }),
{
    reveal(executed);
    reveal(map_e_f);
    let size = if op == 0xf6 { 1u8 } else { operand_size(p) };
    lemma_decoded(s, p.rex);
    let (s1, (reg, rm)) = decode_rm(s, p.rex);
    lemma_operand(s1, rm, size);
    load_operand(s1, rm, size).0
}

/// `MUL`: the double-width product of the accumulator and the operand. Carry and overflow say whether
/// its upper half is used; no other flag changes, and no other register.
pub proof fn law_mul(s: CpuState, p: Prefix, op: u8)
    requires
        op == 0xf6 || op == 0xf7,
        runnable(s),
        s.r.len() == 16,
        decode_rm(s, p.rex).1.0 % 8 == 4,
    ensures
        ({
            let size = if op == 0xf6 { 1u8 } else { operand_size(p) };
            let d = group3_operand(s, p, op) as int % modulus(size);
            let t = executed(s, p, op).0;
            &&& pair(t, size) == lower(s, size) * d
            &&& bit_at(t.rflags, 0) == (upper(t, size) != 0)
            &&& bit_at(t.rflags, 11) == (upper(t, size) != 0)
            &&& forall|i: u64|
                #![trigger bit_at(t.rflags, i)]
                i < 64 && i != 0 && i != 11 ==> bit_at(t.rflags, i) == bit_at(s.rflags, i)
            &&& forall|i: int| 0 <= i < 16 && i != 0 && i != 2 ==> #[trigger] t.r[i] == s.r[i]
        }),
{
    let size = if op == 0xf6 { 1u8 } else { operand_size(p) };
    let s2 = lemma_group3(s, p, op);
    let d = group3_operand(s, p, op);
    let m = modulus(size);
    let (lo, hi, f) = mul_result(s.rflags, s.r[0], d, size);
    let prod = low(s.r[0], size) * low(d, size);
    lemma_mask(s.r[0], size);
    lemma_mask(d, size);
    lemma_product(low(s.r[0], size), low(d, size), m);
    lemma_wide(s2, lo, hi, size);
    lemma_carry_flags(s.rflags, hi != 0, hi != 0);
}

proof fn lemma_product(a: int, b: int, m: int)
    requires
        0 <= a < m,
        0 <= b < m,
    ensures
        0 <= a * b,
        0 <= (a * b) / m < m,
        0 <= (a * b) % m < m,
        ((a * b) / m) * m + (a * b) % m == a * b,
{
    assert(0 <= a * b < m * m) by (nonlinear_arith)
        requires
            0 <= a < m,
            0 <= b < m,
    ;
    let x = a * b;
    vstd::arithmetic::div_mod::lemma_fundamental_div_mod(x, m);
    assert(0 <= x / m < m && (x / m) * m + x % m == x) by (nonlinear_arith)
        requires
            0 <= x < m * m,
            x == m * (x / m) + x % m,
            0 <= x % m < m,
            m > 0,
    ;
}

/// The one-operand `IMUL`: the signed double-width product. Carry and overflow say that it does not
/// fit in the lower half.
pub proof fn law_imul(s: CpuState, p: Prefix, op: u8)
    requires
        op == 0xf6 || op == 0xf7,
        runnable(s),
        s.r.len() == 16,
        decode_rm(s, p.rex).1.0 % 8 == 5,
    ensures
        ({
            let size = if op == 0xf6 { 1u8 } else { operand_size(p) };
            let m = modulus(size);
            let d = signed(group3_operand(s, p, op) as int % m, size);
            let t = executed(s, p, op).0;
            let product = signed(lower(s, size), size) * d;
            &&& signed(upper(t, size), size) * m + lower(t, size) == product
            &&& bit_at(t.rflags, 0) == !fits(product, size)
            &&& bit_at(t.rflags, 11) == !fits(product, size)
            &&& forall|i: u64|
                #![trigger bit_at(t.rflags, i)]
                i < 64 && i != 0 && i != 11 ==> bit_at(t.rflags, i) == bit_at(s.rflags, i)
            &&& forall|i: int| 0 <= i < 16 && i != 0 && i != 2 ==> #[trigger] t.r[i] == s.r[i]
        }),
{
    let size = if op == 0xf6 { 1u8 } else { operand_size(p) };
    let s2 = lemma_group3(s, p, op);
    let d = group3_operand(s, p, op);
    let m = modulus(size);
    let (lo, hi, f) = imul_result(s.rflags, s.r[0], d, size);
    lemma_signed(s.r[0], size);
    lemma_signed(d, size);
    let x = signed_of(s.r[0], size);
    let y = signed_of(d, size);
    let prod = x * y;
    lemma_signed_product(x, y, m);
    lemma_wide(s2, lo, hi, size);
    lemma_overflow(prod, size);
    lemma_carry_flags(s.rflags, signed_overflow(prod, size), signed_overflow(prod, size));
    let q = prod / m;
    lemma_mod_once(q, m);
    assert(signed(hi as int, size) == q);
}

proof fn lemma_signed_product(a: int, b: int, m: int)
    requires
        m % 2 == 0,
        m > 0,
        -m <= 2 * a < m,
        -m <= 2 * b < m,
    ensures
        (a * b) / m * m + (a * b) % m == a * b,
        0 <= (a * b) % m < m,
        -m <= 2 * ((a * b) / m) < m,
{
    let x = a * b;
    vstd::arithmetic::div_mod::lemma_fundamental_div_mod(x, m);
    let h = m / 2;
    assert(-(h * h) <= x <= h * h) by (nonlinear_arith)
        requires
            x == a * b,
            -h <= a <= h,
            -h <= b <= h,
    ;
    let q = x / m;
    assert(q * m + x % m == x && -m <= 2 * q < m) by (nonlinear_arith)
        requires
            x == m * q + x % m,
            0 <= x % m < m,
            -(h * h) <= x <= h * h,
            m == 2 * h,
            h >= 1,
    ;
}

/// `IMUL` into a register, from an operand or an operand and an immediate: the product modulo the
/// width. Carry and overflow say that it did not fit.
pub proof fn law_imul_register(f: u64, a: u64, b: u64, size: u8)
    requires
        is_width(size),
    ensures
        ({
            let m = modulus(size);
            let (lo, _, g) = imul_result(f, a, b, size);
            let product = signed(a as int % m, size) * signed(b as int % m, size);
            &&& exists|k: int| lo == product - #[trigger] (k * m)
            &&& 0 <= lo < m
            &&& fits(product, size) ==> signed(lo as int, size) == product
            &&& bit_at(g, 0) == !fits(product, size)
            &&& bit_at(g, 11) == !fits(product, size)
        }),
{
    let m = modulus(size);
    lemma_signed(a, size);
    lemma_signed(b, size);
    let x = signed_of(a, size);
    let y = signed_of(b, size);
    let prod = x * y;
    lemma_signed_product(x, y, m);
    lemma_overflow(prod, size);
    lemma_carry_flags(f, signed_overflow(prod, size), signed_overflow(prod, size));
    let (lo, _, g) = imul_result(f, a, b, size);
    let k = prod / m;
    assert(lo == prod - k * m);
    if fits(prod, size) {
        lemma_mod_once(prod, m);
    }
}

/// The two-operand and three-operand forms put that product in the register that the register field
/// names: of the register and the operand (0F AF), or of the operand and an immediate with its sign
/// (69 with the operand size, 6B with a byte).
pub proof fn law_imul_forms(s: CpuState, p: Prefix, op: u8)
    requires
        runnable(s),
        s.r.len() == 16,
        op == 0x69 || op == 0x6b,
        decode_rm(s, p.rex).1.1 is Reg,
    ensures
        ({
            let size = operand_size(p);
            let (s1, (reg, rm)) = decode_rm(s, p.rex);
            let i = rm->Reg_0 as int;
            let t = executed(s, p, op).0;
            let n = if op == 0x6b { 1u8 } else if size == 2 { 2u8 } else { 4u8 };
            let product = signed(part(s, i, size), size) * signed_code(s1, n);
            &&& exists|k: int| part(t, reg as int, size) == product - #[trigger] (k * modulus(size))
            &&& bit_at(t.rflags, 0) == !fits(product, size)
            &&& bit_at(t.rflags, 11) == !fits(product, size)
        }),
{
    let size = operand_size(p);
    lemma_decoded(s, p.rex);
    let (s1, (reg, rm)) = decode_rm(s, p.rex);
    let i = rm->Reg_0 as int;
    let n = if op == 0x6b { 1u8 } else if size == 2 { 2u8 } else { 4u8 };
    law_fetch(s1, n as nat);
    let (s2, v) = fetch_bytes(s1, n as nat);
    let b = sext_of(v, n);
    let a = reg_value(s2, i, size);
    lemma_part(s2, i, size);
    lemma_imul_form(s, p, op);
    lemma_imul_done(s2, reg as int, a, b, size);
    assert(signed(b as int % modulus(size), size) == signed_code(s1, n)) by {
        law_code_number(s1, n as nat);
        law_sign_extended(v, n);
        crate::arithmetic_laws::lemma_signed_low(b, signed_code(s1, n), size);
    }
    assert(part(s2, i, size) == part(s, i, size));
}

#[verifier::opaque]
spec fn imul_done(s: CpuState, reg: int, a: u64, b: u64, size: u8) -> CpuState {
    imul_stored(s, reg, a, b, size)
}

proof fn lemma_imul_form(s: CpuState, p: Prefix, op: u8)
    requires
        op == 0x69 || op == 0x6b,
        decode_rm(s, p.rex).1.1 is Reg,
    ensures
        ({
            let size = operand_size(p);
            let (s1, (reg, rm)) = decode_rm(s, p.rex);
            let n = if op == 0x6b { 1u8 } else if size == 2 { 2u8 } else { 4u8 };
            let (s2, v) = fetch_bytes(s1, n as nat);
            executed(s, p, op).0 == imul_done(s2, reg as int, reg_value(s2, rm->Reg_0 as int, size), sext_of(v, n), size)
        }),
{
    reveal(executed);
    reveal(map_5_7);
    reveal(load_operand);
    reveal(imul_done);
}

proof fn lemma_imul_done(s: CpuState, reg: int, a: u64, b: u64, size: u8)
    requires
        is_width(size),
        s.r.len() == 16,
        0 <= reg < 16,
    ensures
        ({
            let m = modulus(size);
            let t = imul_done(s, reg, a, b, size);
            let product = signed(a as int % m, size) * signed(b as int % m, size);
            &&& exists|k: int| part(t, reg, size) == product - #[trigger] (k * m)
            &&& bit_at(t.rflags, 0) == !fits(product, size)
            &&& bit_at(t.rflags, 11) == !fits(product, size)
        }),
{
    reveal(imul_done);
    law_imul_register(s.rflags, a, b, size);
    let (lo, hi, g) = imul_result(s.rflags, a, b, size);
    lemma_stored_part(s, reg, size, lo, s.rflags);
    let t = imul_done(s, reg, a, b, size);
    assert(with_flags(s, s.rflags) == s);
    reveal(store_operand);
    assert(part(t, reg, size) == lo);
}

/// `DIV` by a divisor that is not zero, where the quotient fits: quotient times divisor and the
/// remainder make up the dividend, and the remainder is less than the divisor. No flag changes, and no
/// other register.
pub proof fn law_div(s: CpuState, p: Prefix, op: u8)
    requires
        op == 0xf6 || op == 0xf7,
        runnable(s),
        s.r.len() == 16,
        decode_rm(s, p.rex).1.0 % 8 == 6,
        ({
            let size = if op == 0xf6 { 1u8 } else { operand_size(p) };
            let d = group3_operand(s, p, op) as int % modulus(size);
            d != 0 && upper(s, size) < d
        }),
    ensures
        ({
            let size = if op == 0xf6 { 1u8 } else { operand_size(p) };
            let d = group3_operand(s, p, op) as int % modulus(size);
            let t = executed(s, p, op).0;
            &&& lower(t, size) * d + upper(t, size) == pair(s, size)
            &&& upper(t, size) < d
            &&& t.rflags == s.rflags
            &&& forall|i: int| 0 <= i < 16 && i != 0 && i != 2 ==> #[trigger] t.r[i] == s.r[i]
        }),
{
    let size = if op == 0xf6 { 1u8 } else { operand_size(p) };
    let s2 = lemma_group3(s, p, op);
    let d = group3_operand(s, p, op);
    let m = modulus(size);
    lemma_mask(d, size);
    lemma_mask(s.r[0], size);
    lemma_mask(s.r[2], size);
    let e = low(d, size);
    let n = pair(s, size);
    if size == 1 {
        lemma_byte_pair(s.r[0]);
    }
    assert(n == upper(s, size) * m + lower(s, size));
    assert(dividend_of(s.r[0], s.r[2], size) == n);
    let (q, r) = div_result(s.r[0], s.r[2], d, size);
    lemma_quotient_fits(n, e, upper(s, size), lower(s, size), m);
    assert(q == n / e && r == n % e) by {
        lemma_mod_once(n / e, m);
        lemma_mod_once(n % e, m);
    }
    lemma_wide(s2, q, r, size);
}

proof fn lemma_byte_pair(v: u64)
    ensures
        v as int % 0x1_0000 == ((v as int / 0x100) % 0x100) * 0x100 + v as int % 0x100,
{
    vstd::arithmetic::div_mod::lemma_mod_breakdown(v as int, 0x100, 0x100);
}

proof fn lemma_quotient_fits(n: int, e: int, u: int, l: int, m: int)
    requires
        0 < e <= m,
        0 <= u < e,
        0 <= l < m,
        n == u * m + l,
    ensures
        0 <= n / e < m,
        0 <= n % e < e,
        (n / e) * e + n % e == n,
{
    vstd::arithmetic::div_mod::lemma_fundamental_div_mod(n, e);
    let q = n / e;
    assert(0 <= n < e * m) by (nonlinear_arith)
        requires
            n == u * m + l,
            0 <= u <= e - 1,
            0 <= l < m,
            m > 0,
    ;
    assert(0 <= q < m && q * e + n % e == n) by (nonlinear_arith)
        requires
            n == e * q + n % e,
            0 <= n % e < e,
            0 <= n < e * m,
            e > 0,
    ;
}

/// `IDIV` by a divisor that is not zero, where the quotient fits: the quotient is cut toward zero, so
/// that the remainder has the sign of the dividend.
pub proof fn law_idiv(s: CpuState, p: Prefix, op: u8)
    requires
        op == 0xf6 || op == 0xf7,
        runnable(s),
        s.r.len() == 16,
        decode_rm(s, p.rex).1.0 % 8 == 7,
        ({
            let size = if op == 0xf6 { 1u8 } else { operand_size(p) };
            let m = modulus(size);
            let d = signed(group3_operand(s, p, op) as int % m, size);
            let n = signed(upper(s, size), size) * m + lower(s, size);
            &&& d != 0
            &&& fits(quotient(n, d), size)
        }),
    ensures
        ({
            let size = if op == 0xf6 { 1u8 } else { operand_size(p) };
            let m = modulus(size);
            let d = signed(group3_operand(s, p, op) as int % m, size);
            let n = signed(upper(s, size), size) * m + lower(s, size);
            let t = executed(s, p, op).0;
            let q = signed(lower(t, size), size);
            let r = signed(upper(t, size), size);
            &&& q * d + r == n
            &&& -(if d < 0 { -d } else { d }) < r < if d < 0 { -d } else { d }
            &&& r != 0 ==> (r < 0) == (n < 0)
            &&& t.rflags == s.rflags
            &&& forall|i: int| 0 <= i < 16 && i != 0 && i != 2 ==> #[trigger] t.r[i] == s.r[i]
        }),
{
    let size = if op == 0xf6 { 1u8 } else { operand_size(p) };
    let s2 = lemma_group3(s, p, op);
    let d = group3_operand(s, p, op);
    lemma_signed(d, size);
    let (q, r) = lemma_idiv_result(s.r[0], s.r[2], d, size);
    lemma_wide(s2, q, r, size);
}

proof fn lemma_idiv_result(a: u64, c: u64, d: u64, size: u8) -> (out: (u64, u64))
    requires
        is_width(size),
        signed(d as int % modulus(size), size) != 0,
        ({
            let u = if size == 1 { (a as int / 0x100) % 0x100 } else { c as int % modulus(size) };
            let n = signed(u, size) * modulus(size) + a as int % modulus(size);
            fits(quotient(n, signed(d as int % modulus(size), size)), size)
        }),
    ensures
        out == idiv_result(a, c, d, size),
        out.0 < modulus(size),
        out.1 < modulus(size),
        ({
            let m = modulus(size);
            let u = if size == 1 { (a as int / 0x100) % 0x100 } else { c as int % m };
            let n = signed(u, size) * m + a as int % m;
            let e = signed(d as int % m, size);
            let q = signed(out.0 as int, size);
            let r = signed(out.1 as int, size);
            &&& q * e + r == n
            &&& -(if e < 0 { -e } else { e }) < r < if e < 0 { -e } else { e }
            &&& r != 0 ==> (r < 0) == (n < 0)
        }),
{
    let m = modulus(size);
    lemma_signed(d, size);
    lemma_signed(a, size);
    lemma_signed(c, size);
    lemma_signed(a, 2);
    let e = signed_of(d, size);
    let u = if size == 1 { (a as int / 0x100) % 0x100 } else { c as int % m };
    let n = signed(u, size) * m + a as int % m;
    if size == 1 {
        lemma_byte_pair(a);
    }
    assert(signed_dividend_of(a, c, size) == n);
    let x = quotient(n, e);
    let y = remainder(n, e);
    lemma_truncated(n, e);
    lemma_mod_once(x, m);
    lemma_mod_once(y, m);
    idiv_result(a, c, d, size)
}

/// The truncated quotient and its remainder make up the dividend.
proof fn lemma_truncated(n: int, d: int)
    requires
        d != 0,
    ensures
        ({
            let q = quotient(n, d);
            let r = remainder(n, d);
            let e = if d < 0 { -d } else { d };
            &&& q * d + r == n
            &&& -e < r < e
            &&& r != 0 ==> (r < 0) == (n < 0)
        }),
{
    let e = if d < 0 { -d } else { d };
    let a = if n < 0 { -n } else { n };
    vstd::arithmetic::div_mod::lemma_fundamental_div_mod(a, e);
    let k = a / e;
    let j = a % e;
    let q = quotient(n, d);
    let r = remainder(n, d);
    assert(q * d + r == n) by (nonlinear_arith)
        requires
            a == e * k + j,
            e == if d < 0 { -d } else { d },
            a == if n < 0 { -n } else { n },
            q == if (n < 0) != (d < 0) { -k } else { k },
            r == if n < 0 { -j } else { j },
    ;
}

/// A division by zero goes through gate 0, and stores nothing.
pub proof fn law_divide_error(s: CpuState, p: Prefix, op: u8)
    requires
        op == 0xf6 || op == 0xf7,
        runnable(s),
        s.r.len() == 16,
        decode_rm(s, p.rex).1.0 % 8 >= 6,
        group3_operand(s, p, op) as int % modulus(if op == 0xf6 { 1u8 } else { operand_size(p) }) == 0,
    ensures
        ({
            let t = executed(s, p, op).0;
            exists|u: CpuState|
                u.r == s.r && u.rflags == s.rflags && t == #[trigger] crate::interrupt::raised(
                    u,
                    0,
                    0,
                    false,
                )
        }),
{
    let size = if op == 0xf6 { 1u8 } else { operand_size(p) };
    let s2 = lemma_group3(s, p, op);
    lemma_mask(group3_operand(s, p, op), size);
    assert(executed(s, p, op).0 == crate::interrupt::raised(s2, 0, 0, false));
}

} // verus!
