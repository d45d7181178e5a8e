//! The little-endian byte encoding of a machine snapshot, and the cursor that reads it back.
//!
//! Every reader returns `None` on truncation, so a malformed snapshot is rejected. The specification
//! functions named `enc_*` give the bytes a value is written as; those named `dec_*` give the value
//! found at a position.
use vstd::prelude::*;
use vstd::slice::{slice_subrange, slice_to_vec};

verus! {

// ----- encodings -----

pub open spec fn enc_flag(v: bool) -> Seq<u8> {
    seq![if v { 1u8 } else { 0u8 }]
}

pub open spec fn enc_u16(v: u16) -> Seq<u8> {
    seq![v as u8, (v >> 8) as u8]
}

pub open spec fn enc_u32(v: u32) -> Seq<u8> {
    seq![v as u8, (v >> 8) as u8, (v >> 16) as u8, (v >> 24) as u8]
}

pub open spec fn enc_u64(v: u64) -> Seq<u8> {
    seq![
        v as u8,
        (v >> 8) as u8,
        (v >> 16) as u8,
        (v >> 24) as u8,
        (v >> 32) as u8,
        (v >> 40) as u8,
        (v >> 48) as u8,
        (v >> 56) as u8,
    ]
}

/// A length-prefixed byte string.
pub open spec fn enc_blob(v: Seq<u8>) -> Seq<u8> {
    enc_u64(v.len() as u64) + v
}

/// The words of a sequence, one after the other.
pub open spec fn enc_words(v: Seq<u64>) -> Seq<u8>
    decreases v.len(),
{
    if v.len() == 0 {
        Seq::empty()
    } else {
        enc_words(v.drop_last()) + enc_u64(v.last())
    }
}

pub open spec fn dec_u16(b: Seq<u8>, p: int) -> u16 {
    (b[p] as u16) | ((b[p + 1] as u16) << 8)
}

pub open spec fn dec_u32(b: Seq<u8>, p: int) -> u32 {
    (b[p] as u32) | ((b[p + 1] as u32) << 8) | ((b[p + 2] as u32) << 16) | ((b[p + 3] as u32) << 24)
}

pub open spec fn dec_u64(b: Seq<u8>, p: int) -> u64 {
    (b[p] as u64) | ((b[p + 1] as u64) << 8) | ((b[p + 2] as u64) << 16) | ((b[p + 3] as u64) << 24)
        | ((b[p + 4] as u64) << 32) | ((b[p + 5] as u64) << 40) | ((b[p + 6] as u64) << 48) | ((b[p
        + 7] as u64) << 56)
}

/// The `n` words found at position `p`.
pub open spec fn dec_words(b: Seq<u8>, p: int, n: nat) -> Seq<u64> {
    Seq::new(n, |i: int| dec_u64(b, p + 8 * i))
}

/// The bytes `e` stand in `b` at position `p`.
pub open spec fn at(b: Seq<u8>, p: int, e: Seq<u8>) -> bool {
    &&& 0 <= p
    &&& p + e.len() <= b.len()
    &&& forall|i: int| 0 <= i < e.len() ==> #[trigger] b[p + i] == e[i]
}

// ----- facts about the encodings -----

/// Concatenation is associative; brings the bytes written so far to the form of the encodings.
pub broadcast proof fn lemma_cat(a: Seq<u8>, b: Seq<u8>, c: Seq<u8>)
    ensures
        #[trigger] ((a + b) + c) == a + (b + c),
{
    assert((a + b) + c =~= a + (b + c));
}

pub proof fn lemma_at_split(b: Seq<u8>, p: int, e1: Seq<u8>, e2: Seq<u8>)
    requires
        at(b, p, e1 + e2),
    ensures
        at(b, p, e1),
        at(b, p + e1.len(), e2),
{
    assert forall|i: int| 0 <= i < e1.len() implies #[trigger] b[p + i] == e1[i] by {
        assert((e1 + e2)[i] == e1[i]);
    }
    assert forall|i: int| 0 <= i < e2.len() implies #[trigger] b[p + e1.len() + i] == e2[i] by {
        assert((e1 + e2)[e1.len() + i] == e2[i]);
        assert(b[p + (e1.len() + i)] == e2[i]);
    }
}

/// A sequence stands in itself at position zero.
pub proof fn lemma_at_self(b: Seq<u8>)
    ensures
        at(b, 0, b),
{
}

/// Words are their bytes put together.
proof fn lemma_bytes(a: u16, b: u32, v: u64)
    by (bit_vector)
    ensures
        ((a as u8) as u16) | (((a >> 8) as u8 as u16) << 8) == a,
        ((b as u8) as u32) | (((b >> 8) as u8 as u32) << 8) | (((b >> 16) as u8 as u32) << 16) | (((
        b >> 24) as u8 as u32) << 24) == b,
        ((v as u8) as u64) | (((v >> 8) as u8 as u64) << 8) | (((v >> 16) as u8 as u64) << 16) | (((
        v >> 24) as u8 as u64) << 24) | (((v >> 32) as u8 as u64) << 32) | (((v >> 40) as u8 as u64)
            << 40) | (((v >> 48) as u8 as u64) << 48) | (((v >> 56) as u8 as u64) << 56) == v,
{
}

pub proof fn lemma_bytes_64(v: u64)
    ensures
        ((v as u8) as u64) | (((v >> 8) as u8 as u64) << 8) | (((v >> 16) as u8 as u64) << 16) | (((
        v >> 24) as u8 as u64) << 24) | (((v >> 32) as u8 as u64) << 32) | (((v >> 40) as u8 as u64)
            << 40) | (((v >> 48) as u8 as u64) << 48) | (((v >> 56) as u8 as u64) << 56) == v,
{
    lemma_bytes(0, 0, v);
}

/// Reading a 16-bit word back gives the word that was written.
pub proof fn lemma_dec_u16(b: Seq<u8>, p: int, v: u16)
    requires
        at(b, p, enc_u16(v)),
    ensures
        dec_u16(b, p) == v,
{
    lemma_bytes(v, 0, 0);
    assert(b[p + 0] == enc_u16(v)[0] && b[p + 1] == enc_u16(v)[1]);
}

/// Reading a 32-bit word back gives the word that was written.
pub proof fn lemma_dec_u32(b: Seq<u8>, p: int, v: u32)
    requires
        at(b, p, enc_u32(v)),
    ensures
        dec_u32(b, p) == v,
{
    lemma_bytes(0, v, 0);
    let e = enc_u32(v);
    assert(b[p + 0] == e[0] && b[p + 1] == e[1] && b[p + 2] == e[2] && b[p + 3] == e[3]);
}

/// Reading a 64-bit word back gives the word that was written.
pub proof fn lemma_dec_u64(b: Seq<u8>, p: int, v: u64)
    requires
        at(b, p, enc_u64(v)),
    ensures
        dec_u64(b, p) == v,
{
    lemma_bytes_64(v);
    let e = enc_u64(v);
    assert(b[p + 0] == e[0] && b[p + 1] == e[1] && b[p + 2] == e[2] && b[p + 3] == e[3]);
    assert(b[p + 4] == e[4] && b[p + 5] == e[5] && b[p + 6] == e[6] && b[p + 7] == e[7]);
}

pub proof fn lemma_enc_words_len(v: Seq<u64>)
    ensures
        enc_words(v).len() == 8 * v.len(),
    decreases v.len(),
{
    if v.len() > 0 {
        lemma_enc_words_len(v.drop_last());
    }
}

/// Reading words back gives the words that were written.
pub proof fn lemma_dec_words(b: Seq<u8>, p: int, v: Seq<u64>)
    requires
        at(b, p, enc_words(v)),
    ensures
        dec_words(b, p, v.len()) == v,
    decreases v.len(),
{
    lemma_enc_words_len(v);
    if v.len() > 0 {
        let w = v.drop_last();
        lemma_enc_words_len(w);
        lemma_at_split(b, p, enc_words(w), enc_u64(v.last()));
        lemma_dec_words(b, p, w);
        lemma_dec_u64(b, p + 8 * w.len(), v.last());
        assert forall|i: int| 0 <= i < v.len() implies dec_words(b, p, v.len())[i] == v[i] by {
            if i < w.len() {
                assert(dec_words(b, p, w.len())[i] == w[i]);
            }
        }
    }
    assert(dec_words(b, p, v.len()) =~= v);
}

/// A byte string stands at `p` exactly where the subrange is that string.
pub proof fn lemma_at_subrange(b: Seq<u8>, p: int, e: Seq<u8>)
    requires
        at(b, p, e),
    ensures
        b.subrange(p, p + e.len()) == e,
{
    assert(b.subrange(p, p + e.len()) =~= e) by {
        assert forall|i: int| 0 <= i < e.len() implies b.subrange(p, p + e.len())[i] == e[i] by {
            assert(b[p + i] == e[i]);
        }
    }
}

// ----- writers -----

pub fn put_flag(o: &mut Vec<u8>, v: bool)
    ensures
        final(o)@ == old(o)@ + enc_flag(v),
{
    o.push(if v { 1 } else { 0 });
}

pub fn put_u16(o: &mut Vec<u8>, v: u16)
    ensures
        final(o)@ == old(o)@ + enc_u16(v),
{
    o.push(v as u8);
    o.push((v >> 8) as u8);
}

pub fn put_u32(o: &mut Vec<u8>, v: u32)
    ensures
        final(o)@ == old(o)@ + enc_u32(v),
{
    o.push(v as u8);
    o.push((v >> 8) as u8);
    o.push((v >> 16) as u8);
    o.push((v >> 24) as u8);
}

pub fn put_u64(o: &mut Vec<u8>, v: u64)
    ensures
        final(o)@ == old(o)@ + enc_u64(v),
{
    o.push(v as u8);
    o.push((v >> 8) as u8);
    o.push((v >> 16) as u8);
    o.push((v >> 24) as u8);
    o.push((v >> 32) as u8);
    o.push((v >> 40) as u8);
    o.push((v >> 48) as u8);
    o.push((v >> 56) as u8);
}

/// Append bytes.
pub fn put_bytes(o: &mut Vec<u8>, v: &[u8])
    ensures
        final(o)@ == old(o)@ + v@,
{
    o.extend_from_slice(v);
    assert(o@ =~= old(o)@ + v@);
}

/// Append a length-prefixed byte string.
pub fn put_blob(o: &mut Vec<u8>, v: &[u8])
    ensures
        final(o)@ == old(o)@ + enc_blob(v@),
{
    put_u64(o, v.len() as u64);
    put_bytes(o, v);
}

/// Append words.
pub fn put_words(o: &mut Vec<u8>, v: &[u64])
    ensures
        final(o)@ == old(o)@ + enc_words(v@),
{
    let mut i: usize = 0;
    while i < v.len()
        invariant
            0 <= i <= v.len(),
            o@ == old(o)@ + enc_words(v@.take(i as int)),
        decreases v.len() - i,
    {
        put_u64(o, v[i]);
        proof {
            assert(v@.take(i + 1).drop_last() =~= v@.take(i as int));
            assert(v@.take(i + 1).last() == v@[i as int]);
        }
        i = i + 1;
    }
    assert(v@.take(v.len() as int) =~= v@);
}

// ----- the reader -----

/// A little-endian read cursor over snapshot bytes.
pub struct Snap<'a> {
    pub b: &'a [u8],
    pub p: usize,
}

impl<'a> Snap<'a> {
    /// The cursor stands inside the bytes or at their end.
    pub open spec fn wf(&self) -> bool {
        self.p <= self.b@.len()
    }

    /// Whether `n` more bytes can be read.
    pub open spec fn has(&self, n: int) -> bool {
        self.p + n <= self.b@.len()
    }

    /// The cursor moved over `n` bytes from `from`.
    pub open spec fn moved(&self, from: &Snap<'a>, n: int) -> bool {
        self.b@ == from.b@ && self.p == from.p + n && self.wf()
    }

    pub fn new(b: &'a [u8]) -> (s: Snap<'a>)
        ensures
            s.b@ == b@,
            s.p == 0,
            s.wf(),
    {
        Snap { b, p: 0 }
    }

    pub fn u8(&mut self) -> (r: Option<u8>)
        requires
            old(self).wf(),
        ensures
            final(self).wf(),
            final(self).b@ == old(self).b@,
            match r {
                Some(v) => old(self).has(1) && v == old(self).b@[old(self).p as int]
                    && final(self).moved(old(self), 1),
                None => !old(self).has(1) && final(self).p == old(self).p,
            },
    {
        if self.p >= self.b.len() {
            return None;
        }
        let v: u8 = self.b[self.p];
        self.p = self.p + 1;
        Some(v)
    }

    pub fn flag(&mut self) -> (r: Option<bool>)
        requires
            old(self).wf(),
        ensures
            final(self).wf(),
            final(self).b@ == old(self).b@,
            match r {
                Some(v) => old(self).has(1) && v == (old(self).b@[old(self).p as int] != 0)
                    && final(self).moved(old(self), 1),
                None => !old(self).has(1) && final(self).p == old(self).p,
            },
    {
        match self.u8() {
            Some(v) => Some(v != 0),
            None => None,
        }
    }

    pub fn u16(&mut self) -> (r: Option<u16>)
        requires
            old(self).wf(),
        ensures
            final(self).wf(),
            final(self).b@ == old(self).b@,
            match r {
                Some(v) => old(self).has(2) && v == dec_u16(old(self).b@, old(self).p as int)
                    && final(self).moved(old(self), 2),
                None => !old(self).has(2) && final(self).p == old(self).p,
            },
    {
        if self.b.len() - self.p < 2 {
            return None;
        }
        let p: usize = self.p;
        let b: &[u8] = self.b;
        self.p = p + 2;
        Some((b[p] as u16) | ((b[p + 1] as u16) << 8))
    }

    pub fn u32(&mut self) -> (r: Option<u32>)
        requires
            old(self).wf(),
        ensures
            final(self).wf(),
            final(self).b@ == old(self).b@,
            match r {
                Some(v) => old(self).has(4) && v == dec_u32(old(self).b@, old(self).p as int)
                    && final(self).moved(old(self), 4),
                None => !old(self).has(4) && final(self).p == old(self).p,
            },
    {
        if self.b.len() - self.p < 4 {
            return None;
        }
        let p: usize = self.p;
        let b: &[u8] = self.b;
        self.p = p + 4;
        Some(
            (b[p] as u32) | ((b[p + 1] as u32) << 8) | ((b[p + 2] as u32) << 16) | ((b[p + 3] as u32)
                << 24),
        )
    }

    pub fn u64(&mut self) -> (r: Option<u64>)
        requires
            old(self).wf(),
        ensures
            final(self).wf(),
            final(self).b@ == old(self).b@,
            match r {
                Some(v) => old(self).has(8) && v == dec_u64(old(self).b@, old(self).p as int)
                    && final(self).moved(old(self), 8),
                None => !old(self).has(8) && final(self).p == old(self).p,
            },
    {
        if self.b.len() - self.p < 8 {
            return None;
        }
        let p: usize = self.p;
        let b: &[u8] = self.b;
        self.p = p + 8;
        Some(
            (b[p] as u64) | ((b[p + 1] as u64) << 8) | ((b[p + 2] as u64) << 16) | ((b[p + 3] as u64)
                << 24) | ((b[p + 4] as u64) << 32) | ((b[p + 5] as u64) << 40) | ((b[p + 6] as u64)
                << 48) | ((b[p + 7] as u64) << 56),
        )
    }

    /// `n` raw bytes (no length prefix).
    pub fn take(&mut self, n: u64) -> (r: Option<Vec<u8>>)
        requires
            old(self).wf(),
        ensures
            final(self).wf(),
            final(self).b@ == old(self).b@,
            match r {
                Some(v) => old(self).has(n as int) && v@ == old(self).b@.subrange(
                    old(self).p as int,
                    old(self).p + n,
                ) && final(self).moved(old(self), n as int),
                None => !old(self).has(n as int) && final(self).p == old(self).p,
            },
    {
        let left: usize = self.b.len() - self.p;
        if (left as u64) < n {
            return None;
        }
        let from: usize = self.p;
        let to: usize = from + n as usize;
        self.p = to;
        Some(slice_to_vec(slice_subrange(self.b, from, to)))
    }

    /// A length-prefixed byte string. A length that can be read is passed over, also where fewer
    /// bytes follow than it says.
    pub fn blob(&mut self) -> (r: Option<Vec<u8>>)
        requires
            old(self).wf(),
        ensures
            final(self).wf(),
            final(self).b@ == old(self).b@,
            match r {
                Some(v) => ({
                    let n = dec_u64(old(self).b@, old(self).p as int);
                    old(self).has(8 + n) && v@ == old(self).b@.subrange(
                        old(self).p + 8,
                        old(self).p + 8 + n,
                    ) && final(self).moved(old(self), 8 + n)
                }),
                None => if old(self).has(8) {
                    !old(self).has(8 + dec_u64(old(self).b@, old(self).p as int))
                        && final(self).p == old(self).p + 8
                } else {
                    final(self).p == old(self).p
                },
            },
    {
        match self.u64() {
            Some(n) => self.take(n),
            None => None,
        }
    }

    /// `n` words. Where there are fewer, those that are there are passed over.
    pub fn words(&mut self, n: u64) -> (r: Option<Vec<u64>>)
        requires
            old(self).wf(),
        ensures
            final(self).wf(),
            final(self).b@ == old(self).b@,
            match r {
                Some(v) => old(self).has(8 * n) && v@ == dec_words(
                    old(self).b@,
                    old(self).p as int,
                    n as nat,
                ) && final(self).moved(old(self), 8 * n),
                None => !old(self).has(8 * n) && final(self).p == old(self).p + (old(self).b@.len()
                    - old(self).p) / 8 * 8,
            },
    {
        let mut v: Vec<u64> = Vec::new();
        let mut i: u64 = 0;
        while i < n
            invariant
                0 <= i <= n,
                self.wf(),
                self.moved(old(self), 8 * i),
                old(self).has(8 * i),
                v@ == dec_words(old(self).b@, old(self).p as int, i as nat),
            decreases n - i,
        {
            match self.u64() {
                Some(w) => {
                    v.push(w);
                    assert(v@ =~= dec_words(old(self).b@, old(self).p as int, (i + 1) as nat));
                    i = i + 1;
                },
                None => {
                    return None;
                },
            }
        }
        Some(v)
    }
}

} // verus!
