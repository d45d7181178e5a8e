//! Lane arithmetic on 128-bit words.
use vstd::prelude::*;
use crate::arith::{modulus_of, split_signed};
use crate::bits::{mask, sign_extend};
#[allow(unused_imports)]
use crate::arith::{shifted_left, shifted_signed, width_bits};
#[allow(unused_imports)]
use crate::bits::{is_width, lemma_mask, mask_of, modulus, signed_of};

verus! {

/// What is done lane by lane.
#[derive(Clone, Copy, PartialEq, Eq, Structural, Debug)]
pub enum LaneOp {
    /// All ones where the lanes are equal, or the first is greater (signed).
    Equal,
    Greater,
    /// Sum and difference, modulo the lane.
    Plus,
    Minus,
    /// Sum and difference kept in the unsigned or signed range.
    PlusUnsigned,
    MinusUnsigned,
    PlusSigned,
    MinusSigned,
    MinUnsigned,
    MaxUnsigned,
    MinSigned,
    MaxSigned,
    /// The average, rounded up.
    Average,
    /// The low half of the product, and the high half, unsigned and signed.
    TimesLow,
    TimesHigh,
    TimesHighSigned,
}

/// A shift of every lane.
#[derive(Clone, Copy, PartialEq, Eq, Structural, Debug)]
pub enum ShiftOp {
    Left,
    Right,
    /// To the right, keeping the sign.
    RightSigned,
}

/// The lanes of a 128-bit word.
pub open spec fn lane_count(size: u8) -> nat {
    (16int / size as int) as nat
}

/// Lane `i`.
pub open spec fn lane(x: u128, i: int, size: u8) -> u64 {
    ((x >> ((8 * size * i) as u128)) as u64) & mask_of(size)
}

/// A value put at lane `i`.
pub open spec fn placed(v: u64, i: int, size: u8) -> u128 {
    (v as u128) << ((8 * size * i) as u128)
}

/// A number brought into the signed range of a lane.
pub open spec fn clamp_signed(x: int, size: u8) -> int {
    let h = modulus(size) / 2;
    if x < -h {
        -h
    } else if x >= h {
        h - 1
    } else {
        x
    }
}

/// A number brought into the unsigned range of a lane.
pub open spec fn clamp_unsigned(x: int, size: u8) -> int {
    if x < 0 {
        0
    } else if x >= modulus(size) {
        modulus(size) - 1
    } else {
        x
    }
}

/// A signed number as the bits of a lane.
pub open spec fn as_lane(x: int, size: u8) -> u64 {
    (if x < 0 { x + modulus(size) } else { x }) as u64
}

/// The operation on one lane.
pub open spec fn lane_result(op: LaneOp, a: u64, b: u64, size: u8) -> u64 {
    let sa = signed_of(a, size);
    let sb = signed_of(b, size);
    match op {
        LaneOp::Equal => if a == b { mask_of(size) } else { 0 },
        LaneOp::Greater => if sa > sb { mask_of(size) } else { 0 },
        LaneOp::Plus => ((a + b) % modulus(size)) as u64,
        LaneOp::Minus => ((a - b) % modulus(size)) as u64,
        LaneOp::PlusUnsigned => clamp_unsigned(a + b, size) as u64,
        LaneOp::MinusUnsigned => clamp_unsigned(a - b, size) as u64,
        LaneOp::PlusSigned => as_lane(clamp_signed(sa + sb, size), size),
        LaneOp::MinusSigned => as_lane(clamp_signed(sa - sb, size), size),
        LaneOp::MinUnsigned => if a < b { a } else { b },
        LaneOp::MaxUnsigned => if a < b { b } else { a },
        LaneOp::MinSigned => if sa < sb { a } else { b },
        LaneOp::MaxSigned => if sa < sb { b } else { a },
        LaneOp::Average => ((a + b + 1) / 2) as u64,
        LaneOp::TimesLow => ((a * b) % modulus(size)) as u64,
        LaneOp::TimesHigh => ((a * b) / modulus(size)) as u64,
        LaneOp::TimesHighSigned => (((sa * sb) / modulus(size)) % modulus(size)) as u64,
    }
}

/// The shift of one lane; a count beyond the lane leaves zeros, or the sign.
pub open spec fn lane_shifted(op: ShiftOp, a: u64, cnt: u64, size: u8) -> u64 {
    let bits = width_bits(size);
    match op {
        ShiftOp::Left => shifted_left(a, cnt, size),
        ShiftOp::Right => if cnt >= bits { 0 } else { a >> cnt },
        ShiftOp::RightSigned => shifted_signed(
            a,
            if cnt >= bits { (bits - 1) as u64 } else { cnt },
            size,
        ),
    }
}

/// The operation on the lowest `n` lanes.
pub open spec fn lanes(op: LaneOp, a: u128, b: u128, size: u8, n: nat) -> u128
    decreases n,
{
    if n == 0 {
        0
    } else {
        lanes(op, a, b, size, (n - 1) as nat) | placed(
            lane_result(op, lane(a, n - 1, size), lane(b, n - 1, size), size),
            n - 1,
            size,
        )
    }
}

/// The shift of the lowest `n` lanes.
pub open spec fn lanes_shifted(op: ShiftOp, x: u128, cnt: u64, size: u8, n: nat) -> u128
    decreases n,
{
    if n == 0 {
        0
    } else {
        lanes_shifted(op, x, cnt, size, (n - 1) as nat) | placed(
            lane_shifted(op, lane(x, n - 1, size), cnt, size),
            n - 1,
            size,
        )
    }
}

/// Lanes of the halves of two words, alternating: the lowest `n` pairs.
pub open spec fn interleaved(d: u128, s: u128, size: u8, high: bool, n: nat) -> u128
    decreases n,
{
    if n == 0 {
        0
    } else {
        let base = if high { 8int / size as int } else { 0 };
        interleaved(d, s, size, high, (n - 1) as nat) | placed(
            lane(d, base + n - 1, size),
            2 * (n - 1),
            size,
        ) | placed(lane(s, base + n - 1, size), 2 * (n - 1) + 1, size)
    }
}

/// A lane brought into the range of one half as wide.
pub open spec fn narrowed(v: u64, size: u8, signed: bool) -> u64 {
    let half = (size / 2) as u8;
    if signed {
        as_lane(clamp_signed(signed_of(v, size), half), half)
    } else {
        clamp_unsigned(signed_of(v, size), half) as u64
    }
}

/// The lanes of two words narrowed into one: the lowest `n` results.
pub open spec fn packed(d: u128, s: u128, size: u8, signed: bool, n: nat) -> u128
    decreases n,
{
    if n == 0 {
        0
    } else {
        let k = lane_count(size);
        let i = n - 1;
        let v = if i < k { lane(d, i, size) } else { lane(s, i - k, size) };
        packed(d, s, size, signed, i as nat) | placed(
            narrowed(v, size, signed),
            i,
            (size / 2) as u8,
        )
    }
}

/// Products of neighbouring signed words, added in pairs: the lowest `n` sums.
pub open spec fn multiply_added(a: u128, b: u128, n: nat) -> u128
    decreases n,
{
    if n == 0 {
        0
    } else {
        let i = n - 1;
        let sum = signed_of(lane(a, 2 * i, 2), 2) * signed_of(lane(b, 2 * i, 2), 2) + signed_of(
            lane(a, 2 * i + 1, 2),
            2,
        ) * signed_of(lane(b, 2 * i + 1, 2), 2);
        multiply_added(a, b, i as nat) | placed((sum % 0x1_0000_0000) as u64, i, 4)
    }
}

/// The sum of the distances of the `n` bytes from byte `from`.
pub open spec fn byte_distance(a: u128, b: u128, from: int, n: nat) -> int
    decreases n,
{
    if n == 0 {
        0
    } else {
        let x = lane(a, from + n - 1, 1) as int;
        let y = lane(b, from + n - 1, 1) as int;
        byte_distance(a, b, from, (n - 1) as nat) + (if x < y { y - x } else { x - y })
    }
}

/// The sum of the byte distances of each half.
pub open spec fn distances(a: u128, b: u128) -> u128 {
    placed(byte_distance(a, b, 0, 8) as u64, 0, 8) | placed(
        byte_distance(a, b, 8, 8) as u64,
        1,
        8,
    )
}

/// The top bit of each of the lowest `n` bytes.
pub open spec fn top_bits(x: u128, n: nat) -> u64
    decreases n,
{
    if n == 0 {
        0
    } else if lane(x, n - 1, 1) & 0x80 != 0 {
        top_bits(x, (n - 1) as nat) | (1u64 << ((n - 1) as u64))
    } else {
        top_bits(x, (n - 1) as nat)
    }
}

/// The two-bit field `i` of a shuffle immediate.
pub open spec fn selector(imm: u8, i: int) -> int {
    if i == 0 {
        (imm % 4) as int
    } else if i == 1 {
        ((imm / 4) % 4) as int
    } else if i == 2 {
        ((imm / 16) % 4) as int
    } else {
        (imm / 64) as int
    }
}

/// Four lanes chosen by a shuffle immediate, the first two from `d` and the others from `s`.
pub open spec fn chosen(d: u128, s: u128, imm: u8, size: u8) -> u128 {
    placed(lane(d, selector(imm, 0), size), 0, size) | placed(
        lane(d, selector(imm, 1), size),
        1,
        size,
    ) | placed(lane(s, selector(imm, 2), size), 2, size) | placed(
        lane(s, selector(imm, 3), size),
        3,
        size,
    )
}

/// The low quadword replaced.
pub open spec fn with_low64(x: u128, v: u64) -> u128 {
    (x & !0xffff_ffff_ffff_ffffu128) | (v as u128)
}

/// The low doubleword replaced.
pub open spec fn with_low32(x: u128, v: u64) -> u128 {
    (x & !0xffff_ffffu128) | (v as u128)
}

/// The high quadword replaced.
pub open spec fn with_high64(x: u128, v: u64) -> u128 {
    (x & 0xffff_ffff_ffff_ffffu128) | ((v as u128) << 64)
}

/// Two quadwords together.
pub open spec fn joined(lo: u64, hi: u64) -> u128 {
    (lo as u128) | ((hi as u128) << 64)
}

/// The high quadword.
pub open spec fn high64(x: u128) -> u64 {
    (x >> 64) as u64
}

proof fn lemma_lane_shift(size: u8, i: int)
    by (nonlinear_arith)
    requires
        is_width(size),
        0 <= i,
        i * size < 16,
    ensures
        0 <= 8 * size * i < 128,
{
}

/// Lane `i`.
pub fn lane_at(x: u128, i: u8, size: u8) -> (v: u64)
    requires
        is_width(size),
        i * size < 16,
    ensures
        v == lane(x, i as int, size),
        v < modulus(size),
{
    proof {
        lemma_lane_shift(size, i as int);
        lemma_mask((x >> ((8 * size * i) as u128)) as u64, size);
    }
    let sh: u128 = 8 * size as u128 * i as u128;
    ((x >> sh) as u64) & mask(size)
}

/// A value put at lane `i`.
pub fn place(v: u64, i: u8, size: u8) -> (r: u128)
    requires
        is_width(size),
        i * size < 16,
    ensures
        r == placed(v, i as int, size),
{
    proof {
        lemma_lane_shift(size, i as int);
    }
    let sh: u128 = 8 * size as u128 * i as u128;
    (v as u128) << sh
}

proof fn lemma_word_product(a: int, b: int)
    by (nonlinear_arith)
    requires
        0 <= a < 0x1_0000,
        0 <= b < 0x1_0000,
    ensures
        0 <= a * b <= 0xfffe_0001,
{
}

pub proof fn lemma_signed_word_product(a: int, b: int)
    by (nonlinear_arith)
    requires
        -0x8000 <= a < 0x8000,
        -0x8000 <= b < 0x8000,
    ensures
        -0x4000_0000 <= a * b <= 0x4000_0000,
{
}

/// Whether an operation is defined at a width: products are of words, averages and saturating sums
/// of bytes and words.
pub open spec fn lane_op_ok(op: LaneOp, size: u8) -> bool {
    is_width(size) && match op {
        LaneOp::TimesLow | LaneOp::TimesHigh | LaneOp::TimesHighSigned => size == 2,
        LaneOp::Average
        | LaneOp::PlusUnsigned
        | LaneOp::MinusUnsigned
        | LaneOp::PlusSigned
        | LaneOp::MinusSigned => size <= 2,
        _ => true,
    }
}

fn clamp_to_lane(x: i64, size: u8) -> (r: u64)
    requires
        size == 1 || size == 2,
        -0x2_0000 <= x <= 0x2_0000,
    ensures
        r == as_lane(clamp_signed(x as int, size), size),
{
    let m: i64 = if size == 1 { 0x100 } else { 0x1_0000 };
    let h: i64 = m / 2;
    let c: i64 = if x < -h {
        -h
    } else if x >= h {
        h - 1
    } else {
        x
    };
    (if c < 0 { c + m } else { c }) as u64
}

/// The operation on one lane.
pub fn lane_apply(op: LaneOp, a: u64, b: u64, size: u8) -> (r: u64)
    requires
        lane_op_ok(op, size),
        a < modulus(size),
        b < modulus(size),
    ensures
        r == lane_result(op, a, b, size),
{
    let m: u128 = modulus_of(size);
    match op {
        LaneOp::Equal => if a == b { mask(size) } else { 0 },
        LaneOp::Greater => if sign_extend(a, size) > sign_extend(b, size) { mask(size) } else { 0 },
        LaneOp::Plus => ((a as u128 + b as u128) % m) as u64,
        LaneOp::Minus => {
            proof {
                vstd::arithmetic::div_mod::lemma_mod_add_multiples_vanish(a - b, m as int);
            }
            ((a as u128 + m - b as u128) % m) as u64
        },
        LaneOp::PlusUnsigned => {
            let x: u64 = a + b;
            if x as u128 >= m { mask(size) } else { x }
        },
        LaneOp::MinusUnsigned => if a < b { 0 } else { a - b },
        LaneOp::PlusSigned => clamp_to_lane(sign_extend(a, size) + sign_extend(b, size), size),
        LaneOp::MinusSigned => clamp_to_lane(sign_extend(a, size) - sign_extend(b, size), size),
        LaneOp::MinUnsigned => if a < b { a } else { b },
        LaneOp::MaxUnsigned => if a < b { b } else { a },
        LaneOp::MinSigned => if sign_extend(a, size) < sign_extend(b, size) { a } else { b },
        LaneOp::MaxSigned => if sign_extend(a, size) < sign_extend(b, size) { b } else { a },
        LaneOp::Average => (a + b + 1) / 2,
        LaneOp::TimesLow => {
            proof {
                lemma_word_product(a as int, b as int);
            }
            (a * b) % 0x1_0000
        },
        LaneOp::TimesHigh => {
            proof {
                lemma_word_product(a as int, b as int);
            }
            (a * b) / 0x1_0000
        },
        LaneOp::TimesHighSigned => {
            let x: i64 = sign_extend(a, 2);
            let y: i64 = sign_extend(b, 2);
            proof {
                lemma_signed_word_product(x as int, y as int);
            }
            let (_lo, hi) = split_signed((x * y) as i128, 0x1_0000);
            hi as u64
        },
    }
}

/// The operation on every lane.
pub fn lanes_apply(op: LaneOp, a: u128, b: u128, size: u8) -> (r: u128)
    requires
        lane_op_ok(op, size),
    ensures
        r == lanes(op, a, b, size, lane_count(size)),
{
    let n: u8 = 16 / size;
    let mut r: u128 = 0;
    let mut i: u8 = 0;
    while i < n
        invariant
            i <= n,
            n == 16int / size as int,
            lane_op_ok(op, size),
            r == lanes(op, a, b, size, i as nat),
        decreases n - i,
    {
        proof {
            lemma_lane_in(i as int, size);
        }
        let v: u64 = lane_apply(op, lane_at(a, i, size), lane_at(b, i, size), size);
        r = r | place(v, i, size);
        i = i + 1;
    }
    r
}

proof fn lemma_lane_in(i: int, size: u8)
    requires
        is_width(size),
        0 <= i < 16int / size as int,
    ensures
        i * size < 16,
{
    assert(i * size < 16) by (nonlinear_arith)
        requires
            is_width(size),
            0 <= i < 16int / size as int,
    {
        assert(size == 1 ==> i < 16);
        assert(size == 2 ==> i < 8);
        assert(size == 4 ==> i < 4);
        assert(size == 8 ==> i < 2);
    }
}

/// The shift of one lane.
pub fn lane_shift(op: ShiftOp, a: u64, cnt: u64, size: u8) -> (r: u64)
    requires
        is_width(size),
    ensures
        r == lane_shifted(op, a, cnt, size),
{
    let bits: u64 = 8 * size as u64;
    match op {
        ShiftOp::Left => if cnt >= bits { 0 } else { (a << cnt) & mask(size) },
        ShiftOp::Right => if cnt >= bits { 0 } else { a >> cnt },
        ShiftOp::RightSigned => {
            let c: u64 = if cnt >= bits { bits - 1 } else { cnt };
            ((sign_extend(a, size) >> c) as u64) & mask(size)
        },
    }
}

/// The shift of every lane.
pub fn lanes_shift(op: ShiftOp, x: u128, cnt: u64, size: u8) -> (r: u128)
    requires
        is_width(size),
    ensures
        r == lanes_shifted(op, x, cnt, size, lane_count(size)),
{
    let n: u8 = 16 / size;
    let mut r: u128 = 0;
    let mut i: u8 = 0;
    while i < n
        invariant
            i <= n,
            n == 16int / size as int,
            is_width(size),
            r == lanes_shifted(op, x, cnt, size, i as nat),
        decreases n - i,
    {
        proof {
            lemma_lane_in(i as int, size);
        }
        r = r | place(lane_shift(op, lane_at(x, i, size), cnt, size), i, size);
        i = i + 1;
    }
    r
}

/// Interleave the lanes of the low or high halves.
pub fn interleave(d: u128, s: u128, size: u8, high: bool) -> (r: u128)
    requires
        size == 1 || size == 2 || size == 4,
    ensures
        r == interleaved(d, s, size, high, (8int / size as int) as nat),
{
    let n: u8 = 8 / size;
    let base: u8 = if high { n } else { 0 };
    let mut r: u128 = 0;
    let mut i: u8 = 0;
    while i < n
        invariant
            i <= n,
            n == 8int / size as int,
            size == 1 || size == 2 || size == 4,
            base == if high { n } else { 0u8 },
            r == interleaved(d, s, size, high, i as nat),
        decreases n - i,
    {
        proof {
            lemma_lane_in(base + i, size);
            lemma_lane_in(2 * i + 1, size);
            lemma_lane_in(2 * i, size);
        }
        let x: u128 = place(lane_at(d, base + i, size), 2 * i, size);
        let y: u128 = place(lane_at(s, base + i, size), 2 * i + 1, size);
        r = r | x | y;
        i = i + 1;
    }
    r
}

/// A lane brought into the range of one half as wide.
pub fn narrow(v: u64, size: u8, signed: bool) -> (r: u64)
    requires
        size == 2 || (size == 4 && signed),
    ensures
        r == narrowed(v, size, signed),
{
    let x: i64 = sign_extend(v, size);
    let m: i64 = if size == 2 { 0x100 } else { 0x1_0000 };
    let h: i64 = m / 2;
    if signed {
        let c: i64 = if x < -h {
            -h
        } else if x >= h {
            h - 1
        } else {
            x
        };
        (if c < 0 { c + m } else { c }) as u64
    } else {
        (if x < 0 {
            0
        } else if x >= m {
            m - 1
        } else {
            x
        }) as u64
    }
}

/// Narrow the lanes of two words into one.
pub fn pack(d: u128, s: u128, size: u8, signed: bool) -> (r: u128)
    requires
        size == 2 || (size == 4 && signed),
    ensures
        r == packed(d, s, size, signed, 2 * lane_count(size)),
{
    let k: u8 = 16 / size;
    let half: u8 = size / 2;
    let mut r: u128 = 0;
    let mut i: u8 = 0;
    while i < 2 * k
        invariant
            i <= 2 * k,
            k == 16int / size as int,
            half == size / 2,
            size == 2 || (size == 4 && signed),
            r == packed(d, s, size, signed, i as nat),
        decreases 2 * k - i,
    {
        proof {
            lemma_lane_in(i as int, half);
            if i < k {
                lemma_lane_in(i as int, size);
            } else {
                lemma_lane_in(i - k, size);
            }
        }
        let v: u64 = if i < k { lane_at(d, i, size) } else { lane_at(s, i - k, size) };
        r = r | place(narrow(v, size, signed), i, half);
        i = i + 1;
    }
    r
}

/// Multiply neighbouring signed words and add in pairs.
pub fn multiply_add(a: u128, b: u128) -> (r: u128)
    ensures
        r == multiply_added(a, b, 4),
{
    let mut r: u128 = 0;
    let mut i: u8 = 0;
    while i < 4
        invariant
            i <= 4,
            r == multiply_added(a, b, i as nat),
        decreases 4 - i,
    {
        let a0: i64 = sign_extend(lane_at(a, 2 * i, 2), 2);
        let b0: i64 = sign_extend(lane_at(b, 2 * i, 2), 2);
        let a1: i64 = sign_extend(lane_at(a, 2 * i + 1, 2), 2);
        let b1: i64 = sign_extend(lane_at(b, 2 * i + 1, 2), 2);
        proof {
            lemma_signed_word_product(a0 as int, b0 as int);
            lemma_signed_word_product(a1 as int, b1 as int);
        }
        let sum: i64 = a0 * b0 + a1 * b1;
        let (lo, _hi) = split_signed(sum as i128, 0x1_0000_0000);
        r = r | place(lo as u64, i, 4);
        i = i + 1;
    }
    r
}

/// Sum the byte distances of each half.
pub fn distance(a: u128, b: u128) -> (r: u128)
    ensures
        r == distances(a, b),
{
    let lo: u64 = half_distance(a, b, 0);
    let hi: u64 = half_distance(a, b, 8);
    place(lo, 0, 8) | place(hi, 1, 8)
}

fn half_distance(a: u128, b: u128, from: u8) -> (sum: u64)
    requires
        from == 0 || from == 8,
    ensures
        sum == byte_distance(a, b, from as int, 8),
{
    let mut sum: u64 = 0;
    let mut i: u8 = 0;
    while i < 8
        invariant
            i <= 8,
            from == 0 || from == 8,
            sum == byte_distance(a, b, from as int, i as nat),
            sum <= 256 * i,
        decreases 8 - i,
    {
        let x: u64 = lane_at(a, from + i, 1);
        let y: u64 = lane_at(b, from + i, 1);
        sum = sum + (if x < y { y - x } else { x - y });
        i = i + 1;
    }
    sum
}

/// The top bit of each byte.
pub fn move_mask(x: u128) -> (r: u64)
    ensures
        r == top_bits(x, 16),
{
    let mut r: u64 = 0;
    let mut i: u8 = 0;
    while i < 16
        invariant
            i <= 16,
            r == top_bits(x, i as nat),
        decreases 16 - i,
    {
        if lane_at(x, i, 1) & 0x80 != 0 {
            r = r | (1u64 << (i as u64));
        }
        i = i + 1;
    }
    r
}

/// Choose four lanes by a shuffle immediate.
pub fn choose_lanes(d: u128, s: u128, imm: u8, size: u8) -> (r: u128)
    requires
        size == 2 || size == 4,
    ensures
        r == chosen(d, s, imm, size),
{
    let s0: u8 = imm % 4;
    let s1: u8 = (imm / 4) % 4;
    let s2: u8 = (imm / 16) % 4;
    let s3: u8 = imm / 64;
    place(lane_at(d, s0, size), 0, size) | place(lane_at(d, s1, size), 1, size) | place(
        lane_at(s, s2, size),
        2,
        size,
    ) | place(lane_at(s, s3, size), 3, size)
}

} // verus!
