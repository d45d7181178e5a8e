//! The model-specific registers beyond those with a field of their own, kept in order of their
//! number.
use vstd::prelude::*;
use crate::snap::{put_u32, put_u64, Snap};
#[allow(unused_imports)]
use crate::snap::{
    at, dec_u32, dec_u64, enc_u32, enc_u64, lemma_at_split, lemma_cat, lemma_dec_u32, lemma_dec_u64,
};

verus! {

pub const MSR_EFER: u32 = 0xC000_0080;
pub const MSR_STAR: u32 = 0xC000_0081;
pub const MSR_LSTAR: u32 = 0xC000_0082;
pub const MSR_SFMASK: u32 = 0xC000_0084;
pub const MSR_FS_BASE: u32 = 0xC000_0100;
pub const MSR_GS_BASE: u32 = 0xC000_0101;
pub const MSR_KERNEL_GS_BASE: u32 = 0xC000_0102;
pub const MSR_APIC_BASE: u32 = 0x1B;

/// The registers written so far: number and value, in strictly ascending order of the number.
pub struct Msrs {
    pub regs: Vec<(u32, u64)>,
}

impl View for Msrs {
    type V = Seq<(u32, u64)>;

    open spec fn view(&self) -> Seq<(u32, u64)> {
        self.regs@
    }
}

/// Strictly ascending numbers: no register occurs twice.
pub open spec fn msr_sorted(s: Seq<(u32, u64)>) -> bool {
    forall|i: int, j: int| 0 <= i < j < s.len() ==> s[i].0 < s[j].0
}

/// The first position at or after `i` whose number is at least `k`.
pub open spec fn msr_slot(s: Seq<(u32, u64)>, k: u32, i: int) -> int
    decreases s.len() - i,
{
    if i >= s.len() || s[i].0 >= k {
        i
    } else {
        msr_slot(s, k, i + 1)
    }
}

/// The value of register `k`; a register never written reads zero.
pub open spec fn msr_get(s: Seq<(u32, u64)>, k: u32) -> u64 {
    let i = msr_slot(s, k, 0);
    if i < s.len() && s[i].0 == k {
        s[i].1
    } else {
        0
    }
}

/// The registers after writing `v` to register `k`.
pub open spec fn msr_put(s: Seq<(u32, u64)>, k: u32, v: u64) -> Seq<(u32, u64)> {
    let i = msr_slot(s, k, 0);
    if i < s.len() && s[i].0 == k {
        s.update(i, (k, v))
    } else {
        s.insert(i, (k, v))
    }
}

/// The bytes of a snapshot: number and value of each register.
pub open spec fn enc_regs(s: Seq<(u32, u64)>) -> Seq<u8>
    decreases s.len(),
{
    if s.len() == 0 {
        Seq::empty()
    } else {
        enc_regs(s.drop_last()) + (enc_u32(s.last().0) + enc_u64(s.last().1))
    }
}

/// The registers found in snapshot bytes: each of the `n` entries is written in turn.
pub open spec fn dec_regs(b: Seq<u8>, p: int, n: nat) -> Seq<(u32, u64)>
    decreases n,
{
    if n == 0 {
        Seq::empty()
    } else {
        let q = p + 12 * (n - 1);
        msr_put(dec_regs(b, p, (n - 1) as nat), dec_u32(b, q), dec_u64(b, q + 4))
    }
}

proof fn lemma_slot(s: Seq<(u32, u64)>, k: u32, i: int)
    requires
        0 <= i <= s.len(),
    ensures
        i <= msr_slot(s, k, i) <= s.len(),
        forall|j: int| i <= j < msr_slot(s, k, i) ==> #[trigger] s[j].0 < k,
        msr_slot(s, k, i) < s.len() ==> s[msr_slot(s, k, i)].0 >= k,
    decreases s.len() - i,
{
    if i < s.len() && s[i].0 < k {
        lemma_slot(s, k, i + 1);
    }
}

proof fn lemma_slot_unique(s: Seq<(u32, u64)>, k: u32, i: int, at: int)
    requires
        0 <= i <= at <= s.len(),
        forall|j: int| i <= j < at ==> #[trigger] s[j].0 < k,
        at < s.len() ==> s[at].0 >= k,
    ensures
        msr_slot(s, k, i) == at,
    decreases at - i,
{
    if i < at {
        lemma_slot_unique(s, k, i + 1, at);
    }
}

/// A write keeps the registers in order, a read of the register gives the value written, and a read
/// of any other register gives what it gave before.
pub proof fn law_msr_write_read(s: Seq<(u32, u64)>, k: u32, v: u64, other: u32)
    requires
        msr_sorted(s),
    ensures
        msr_sorted(msr_put(s, k, v)),
        msr_get(msr_put(s, k, v), k) == v,
        other != k ==> msr_get(msr_put(s, k, v), other) == msr_get(s, other),
{
    let i = msr_slot(s, k, 0);
    let t = msr_put(s, k, v);
    lemma_slot(s, k, 0);
    assert(msr_sorted(t)) by {
        assert forall|a: int, c: int| 0 <= a < c < t.len() implies t[a].0 < t[c].0 by {
            if !(i < s.len() && s[i].0 == k) {
                let a0 = if a <= i { a } else { a - 1 };
                let c0 = if c <= i { c } else { c - 1 };
                if a < i && c > i {
                    assert(s[a].0 < k);
                } else if a == i {
                    assert(s[c - 1].0 >= s[i].0);
                } else if c == i {
                    assert(s[a].0 < k);
                }
            }
        }
    }
    assert forall|j: int| 0 <= j < i implies #[trigger] t[j].0 < k by {
        assert(s[j].0 < k);
    }
    assert(t[i] == (k, v));
    lemma_slot_unique(t, k, 0, i);
    if other != k {
        lemma_slot(s, other, 0);
        lemma_slot(t, other, 0);
        let a = msr_slot(s, other, 0);
        if i < s.len() && s[i].0 == k {
            assert forall|j: int| 0 <= j < a implies #[trigger] t[j].0 < other by {
                assert(s[j].0 < other);
            }
            lemma_slot_unique(t, other, 0, a);
        } else {
            let c = if other < k { a } else { a + 1 };
            if other < k {
                if a > i {
                    assert(s[i].0 < other);
                }
                assert(a <= i);
            } else {
                if a < i {
                    assert(s[a].0 < k);
                }
                assert(a >= i);
            }
            assert forall|j: int| 0 <= j < c implies #[trigger] t[j].0 < other by {
                if j < i {
                    assert(s[j].0 < other || s[j].0 < k);
                } else if j > i {
                    assert(s[j - 1].0 < other);
                }
            }
            lemma_slot_unique(t, other, 0, c);
        }
    }
}

pub proof fn lemma_enc_regs_len(s: Seq<(u32, u64)>)
    ensures
        enc_regs(s).len() == 12 * s.len(),
    decreases s.len(),
{
    if s.len() > 0 {
        lemma_enc_regs_len(s.drop_last());
    }
}

/// Reading back what was written.
pub proof fn lemma_dec_regs(b: Seq<u8>, p: int, s: Seq<(u32, u64)>)
    requires
        msr_sorted(s),
        at(b, p, enc_regs(s)),
    ensures
        dec_regs(b, p, s.len()) == s,
    decreases s.len(),
{
    if s.len() > 0 {
        let t = s.drop_last();
        let k = s.last().0;
        let v = s.last().1;
        lemma_enc_regs_len(t);
        lemma_at_split(b, p, enc_regs(t), enc_u32(k) + enc_u64(v));
        lemma_dec_regs(b, p, t);
        let q = p + 12 * t.len();
        lemma_at_split(b, q, enc_u32(k), enc_u64(v));
        lemma_dec_u32(b, q, k);
        lemma_dec_u64(b, q + 4, v);
        assert forall|j: int| 0 <= j < t.len() implies #[trigger] t[j].0 < k by {
            assert(t[j] == s[j]);
        }
        lemma_slot_unique(t, k, 0, t.len() as int);
        assert(msr_put(t, k, v) =~= s);
    } else {
        assert(s =~= Seq::empty());
    }
}

impl Msrs {
    /// No register written yet.
    pub fn new() -> (m: Msrs)
        ensures
            m@ == Seq::<(u32, u64)>::empty(),
    {
        Msrs { regs: Vec::new() }
    }

    fn slot(&self, k: u32) -> (i: usize)
        ensures
            i == msr_slot(self@, k, 0),
            0 <= i <= self@.len(),
    {
        let mut i: usize = 0;
        while i < self.regs.len() && self.regs[i].0 < k
            invariant
                0 <= i <= self.regs@.len(),
                msr_slot(self@, k, 0) == msr_slot(self@, k, i as int),
            decreases self.regs.len() - i,
        {
            i = i + 1;
        }
        i
    }

    /// The value of register `k`; a register never written reads zero.
    pub fn get(&self, k: u32) -> (v: u64)
        ensures
            v == msr_get(self@, k),
    {
        let i: usize = self.slot(k);
        if i < self.regs.len() && self.regs[i].0 == k {
            self.regs[i].1
        } else {
            0
        }
    }

    /// Write register `k`.
    pub fn insert(&mut self, k: u32, v: u64)
        ensures
            final(self)@ == msr_put(old(self)@, k, v),
    {
        let i: usize = self.slot(k);
        if i < self.regs.len() && self.regs[i].0 == k {
            self.regs[i] = (k, v);
        } else {
            self.regs.insert(i, (k, v));
        }
    }

    /// Append the registers to a snapshot.
    pub fn snap(&self, o: &mut Vec<u8>)
        ensures
            final(o)@ == old(o)@ + (enc_u64(self@.len() as u64) + enc_regs(self@)),
    {
        broadcast use lemma_cat;

        put_u64(o, self.regs.len() as u64);
        let mut i: usize = 0;
        while i < self.regs.len()
            invariant
                0 <= i <= self.regs@.len(),
                o@ == old(o)@ + (enc_u64(self@.len() as u64) + enc_regs(self@.take(i as int))),
            decreases self.regs.len() - i,
        {
            put_u32(o, self.regs[i].0);
            put_u64(o, self.regs[i].1);
            proof {
                assert(self@.take(i + 1).drop_last() =~= self@.take(i as int));
                assert(self@.take(i + 1).last() == self@[i as int]);
            }
            i = i + 1;
        }
        assert(self@.take(self@.len() as int) =~= self@);
    }

    /// Read the `n` registers of a snapshot.
    pub fn unsnap(s: &mut Snap, n: u64) -> (r: Option<Msrs>)
        requires
            old(s).wf(),
        ensures
            final(s).wf(),
            final(s).b@ == old(s).b@,
            match r {
                Some(m) => old(s).has(12 * n) && m@ == dec_regs(
                    old(s).b@,
                    old(s).p as int,
                    n as nat,
                ) && final(s).moved(old(s), 12 * n),
                None => !old(s).has(12 * n),
            },
    {
        let mut m: Msrs = Msrs::new();
        let mut i: u64 = 0;
        while i < n
            invariant
                0 <= i <= n,
                s.wf(),
                s.moved(old(s), 12 * i),
                old(s).has(12 * i),
                m@ == dec_regs(old(s).b@, old(s).p as int, i as nat),
            decreases n - i,
        {
            let k: u32 = s.u32()?;
            let v: u64 = s.u64()?;
            m.insert(k, v);
            i = i + 1;
        }
        Some(m)
    }
}

} // verus!
