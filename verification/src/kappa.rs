//! Content-addressed snapshots: memory as a manifest of page labels, and every page checked against
//! its label before it is used.
//!
//! A label names content by its digest. Equal pages have one label and are kept once.
use vstd::prelude::*;
use vstd::slice::{slice_subrange, slice_to_vec};
use crate::digest::digest;
use crate::snap::{put_blob, put_bytes, put_u64, Snap};
#[allow(unused_imports)]
use crate::cpu::CpuState;
#[allow(unused_imports)]
use crate::digest::blake3_digest;
#[allow(unused_imports)]
use crate::snap::{at, dec_u64, enc_blob, enc_u64, lemma_cat};
#[allow(unused_imports)]
use crate::snapshot::enc_machine;

verus! {

/// The bytes of a page.
pub const KAPPA_PAGE: usize = 0x1000;
/// The bytes of a label: `blake3:` and 64 hexadecimal digits.
pub const KAPPA_LABEL_LEN: usize = 71;
/// The version of the snapshot format, the last byte of its magics.
pub const SNAPSHOT_FORMAT_VERSION: u8 = 0x33;
/// The version before, which has no network device.
pub const SNAPSHOT_FORMAT_VERSION_PREV: u8 = 0x32;

// ----- labels -----

/// A hexadecimal digit.
pub open spec fn hex_digit(n: u8) -> u8 {
    if n < 10 {
        (48 + n) as u8
    } else {
        (87 + n) as u8
    }
}

/// The hexadecimal digits of a digest's 32 bytes.
pub open spec fn hex_of(d: Seq<u8>) -> Seq<u8> {
    Seq::new(
        64,
        |i: int| hex_digit(if i % 2 == 0 { d[i / 2] / 16 } else { d[i / 2] % 16 }),
    )
}

/// `blake3:`.
pub open spec fn label_prefix() -> Seq<u8> {
    seq![98u8, 108, 97, 107, 101, 51, 58]
}

/// The label of content.
pub open spec fn kappa_label(data: Seq<u8>) -> Seq<u8> {
    label_prefix() + hex_of(blake3_digest(data))
}

/// A byte that is a digit of a label.
pub open spec fn is_hex(c: u8) -> bool {
    48 <= c <= 57 || 97 <= c <= 102
}

/// The bytes have the form of a label.
pub open spec fn label_ok(l: Seq<u8>) -> bool {
    &&& l.len() == KAPPA_LABEL_LEN
    &&& l.subrange(0, 7) == label_prefix()
    &&& forall|i: int| 7 <= i < 71 ==> is_hex(#[trigger] l[i])
}

// ----- pages -----

/// How many pages memory of a length has; the last may be short.
pub open spec fn page_count(len: nat) -> nat {
    ((len + 4095) / 4096) as nat
}

/// The `i`-th page.
pub open spec fn page_of(ram: Seq<u8>, i: int) -> Seq<u8> {
    ram.subrange(
        4096 * i,
        if 4096 * i + 4096 <= ram.len() { 4096 * i + 4096 } else { ram.len() as int },
    )
}

/// The labels of the pages, in order.
pub open spec fn page_labels(ram: Seq<u8>) -> Seq<Seq<u8>> {
    Seq::new(page_count(ram.len()), |i: int| kappa_label(page_of(ram, i)))
}

/// A page under its label.
#[verifier::ext_equal]
pub ghost struct KappaPageState {
    pub label: Seq<u8>,
    pub bytes: Seq<u8>,
}

/// Some page among the first `n` has the label.
pub open spec fn has_label(l: Seq<KappaPageState>, label: Seq<u8>) -> bool {
    exists|i: int| 0 <= i < l.len() && #[trigger] l[i].label == label
}

/// The first `n` pages, each label once, in the order they first occur.
pub open spec fn unique_pages(ram: Seq<u8>, n: nat) -> Seq<KappaPageState>
    decreases n,
{
    if n == 0 {
        Seq::empty()
    } else {
        let u = unique_pages(ram, (n - 1) as nat);
        let bytes = page_of(ram, n - 1);
        let label = kappa_label(bytes);
        if has_label(u, label) {
            u
        } else {
            u.push(KappaPageState { label, bytes })
        }
    }
}

/// The page kept under a label; a later one counts.
pub open spec fn lookup(l: Seq<KappaPageState>, label: Seq<u8>, n: nat) -> Option<Seq<u8>>
    decreases n,
{
    if n == 0 {
        None
    } else if l[n - 1].label == label {
        Some(l[n - 1].bytes)
    } else {
        lookup(l, label, (n - 1) as nat)
    }
}

/// Bytes put into memory at an offset; what does not fit is cut off.
pub open spec fn put_at(ram: Seq<u8>, off: int, bytes: Seq<u8>) -> Seq<u8> {
    Seq::new(ram.len(), |k: int| if off <= k < off + bytes.len() { bytes[k - off] } else { ram[k] })
}

/// Memory rebuilt from the first `n` labels: every page must be there, have its label, and lie in
/// memory.
pub open spec fn rebuilt(
    len: nat,
    labels: Seq<Seq<u8>>,
    store: Seq<KappaPageState>,
    n: nat,
) -> Option<Seq<u8>>
    decreases n,
{
    if n == 0 {
        Some(Seq::new(len, |i: int| 0u8))
    } else {
        match rebuilt(len, labels, store, (n - 1) as nat) {
            None => None,
            Some(ram) => match lookup(store, labels[n - 1], store.len()) {
                None => None,
                Some(bytes) => if kappa_label(bytes) != labels[n - 1] || 4096 * (n - 1) > len {
                    None
                } else {
                    Some(put_at(ram, 4096 * (n - 1), bytes))
                },
            },
        }
    }
}

// ----- manifests -----

/// What a manifest holds.
#[verifier::ext_equal]
pub ghost struct KappaState {
    pub state: Seq<u8>,
    pub ram_pages: Seq<Seq<u8>>,
    pub ram_len: usize,
}

/// The magic of a manifest.
pub open spec fn manifest_magic() -> Seq<u8> {
    seq![0x48u8, 0x4f, 0x4c, 0x4f, 0x4b, 0x53, 0x4e, SNAPSHOT_FORMAT_VERSION]
}

/// The magic of a self-contained snapshot.
pub open spec fn blob_magic(version: u8) -> Seq<u8> {
    seq![0x48u8, 0x4f, 0x4c, 0x4f, 0x4b, 0x53, 0x42, version]
}

/// Labels, one after the other.
pub open spec fn enc_labels(l: Seq<Seq<u8>>) -> Seq<u8>
    decreases l.len(),
{
    if l.len() == 0 {
        Seq::empty()
    } else {
        enc_labels(l.drop_last()) + l.last()
    }
}

/// The labels found at a position.
pub open spec fn dec_labels(b: Seq<u8>, p: int, n: nat) -> Seq<Seq<u8>> {
    Seq::new(n, |i: int| b.subrange(p + 71 * i, p + 71 * i + 71))
}

/// The bytes of a manifest.
#[verifier::opaque]
pub open spec fn enc_manifest(k: KappaState) -> Seq<u8> {
    manifest_magic() + (enc_u64(k.ram_len as u64) + (enc_blob(k.state) + (enc_u64(
        k.ram_pages.len() as u64,
    ) + enc_labels(k.ram_pages))))
}

/// Every label has its form.
pub open spec fn labels_ok(l: Seq<Seq<u8>>) -> bool {
    forall|i: int| 0 <= i < l.len() ==> label_ok(#[trigger] l[i])
}

/// The manifest found in bytes, or `None` where the magic or a label is not one, or the bytes are
/// truncated.
#[verifier::opaque]
pub open spec fn dec_manifest(b: Seq<u8>) -> Option<KappaState> {
    let n = dec_u64(b, 16);
    let p = 24 + n;
    let m = dec_u64(b, p);
    let labels = dec_labels(b, p + 8, m as nat);
    if b.len() < 8 || b.subrange(0, 8) != manifest_magic() {
        None
    } else if 16 > b.len() || 24 > b.len() || p > b.len() || p + 8 > b.len() || p + 8 + 71 * m
        > b.len() {
        None
    } else if !labels_ok(labels) || dec_u64(b, 8) > usize::MAX {
        None
    } else {
        Some(
            KappaState {
                state: b.subrange(24, p),
                ram_pages: labels,
                ram_len: dec_u64(b, 8) as usize,
            },
        )
    }
}

/// The manifest of a machine.
pub open spec fn kappa_of(s: CpuState) -> KappaState {
    KappaState {
        state: enc_machine(s),
        ram_pages: page_labels(s.ram),
        ram_len: s.ram.len() as usize,
    }
}

// ----- executable labels and pages -----

fn hex(n: u8) -> (c: u8)
    requires
        n < 16,
    ensures
        c == hex_digit(n),
{
    if n < 10 {
        48 + n
    } else {
        87 + n
    }
}

/// The label of content.
pub fn address_bytes(data: &[u8]) -> (l: [u8; 71])
    ensures
        l@ == kappa_label(data@),
{
    let d: [u8; 32] = digest(data);
    let mut l: [u8; 71] = [0; 71];
    l[0] = 98;
    l[1] = 108;
    l[2] = 97;
    l[3] = 107;
    l[4] = 101;
    l[5] = 51;
    l[6] = 58;
    let mut i: usize = 0;
    while i < 32
        invariant
            i <= 32,
            d@ == blake3_digest(data@),
            forall|k: int| 0 <= k < 7 ==> l@[k] == label_prefix()[k],
            forall|k: int| 0 <= k < 2 * i ==> l@[7 + k] == hex_of(d@)[k],
        decreases 32 - i,
    {
        l[7 + 2 * i] = hex(d[i] / 16);
        l[8 + 2 * i] = hex(d[i] % 16);
        assert forall|k: int| 0 <= k < 2 * i + 2 implies l@[7 + k] == hex_of(d@)[k] by {
            if k >= 2 * i {
                assert(k / 2 == i);
            }
        }
        i = i + 1;
    }
    assert(l@ =~= kappa_label(data@)) by {
        assert forall|k: int| 0 <= k < 71 implies l@[k] == kappa_label(data@)[k] by {
            if k >= 7 {
                assert(l@[7 + (k - 7)] == hex_of(d@)[k - 7]);
            }
        }
    }
    l
}

/// Two labels are the same.
pub fn same_label(a: &[u8; 71], b: &[u8; 71]) -> (r: bool)
    ensures
        r == (a@ == b@),
{
    let mut i: usize = 0;
    while i < 71
        invariant
            i <= 71,
            forall|k: int| 0 <= k < i ==> a@[k] == b@[k],
        decreases 71 - i,
    {
        if a[i] != b[i] {
            assert(a@[i as int] != b@[i as int]);
            return false;
        }
        i = i + 1;
    }
    assert(a@ =~= b@);
    true
}

/// The content has the label.
pub fn verify_kappa(data: &[u8], label: &[u8; 71]) -> (r: bool)
    ensures
        r == (kappa_label(data@) == label@),
{
    let own: [u8; 71] = address_bytes(data);
    same_label(&own, label)
}

/// The bytes have the form of a label.
pub fn well_formed_label(l: &[u8; 71]) -> (r: bool)
    ensures
        r == label_ok(l@),
{
    if !(l[0] == 98 && l[1] == 108 && l[2] == 97 && l[3] == 107 && l[4] == 101 && l[5] == 51 && l[6]
        == 58) {
        assert(!label_ok(l@)) by {
            assert forall|k: int| 0 <= k < 7 implies l@[k] == l@.subrange(0, 7)[k] by {}
            if l@.subrange(0, 7) == label_prefix() {
                assert(l@.subrange(0, 7)[0] == 98 && l@.subrange(0, 7)[1] == 108);
                assert(l@.subrange(0, 7)[2] == 97 && l@.subrange(0, 7)[3] == 107);
                assert(l@.subrange(0, 7)[4] == 101 && l@.subrange(0, 7)[5] == 51);
                assert(l@.subrange(0, 7)[6] == 58);
            }
        }
        return false;
    }
    assert(l@.subrange(0, 7) =~= label_prefix());
    let mut i: usize = 7;
    while i < 71
        invariant
            7 <= i <= 71,
            forall|k: int| 7 <= k < i ==> is_hex(#[trigger] l@[k]),
        decreases 71 - i,
    {
        let c: u8 = l[i];
        if !((48 <= c && c <= 57) || (97 <= c && c <= 102)) {
            assert(!is_hex(l@[i as int]));
            return false;
        }
        i = i + 1;
    }
    true
}

/// A page under its label.
pub struct KappaPage {
    pub label: [u8; 71],
    pub bytes: Vec<u8>,
}

impl View for KappaPage {
    type V = KappaPageState;

    open spec fn view(&self) -> KappaPageState {
        KappaPageState { label: self.label@, bytes: self.bytes@ }
    }
}

/// The contents of a list of pages.
pub open spec fn store_of(v: Seq<KappaPage>) -> Seq<KappaPageState> {
    Seq::new(v.len(), |i: int| v[i]@)
}

/// The contents of a list of labels.
pub open spec fn labels_of(v: Seq<[u8; 71]>) -> Seq<Seq<u8>> {
    Seq::new(v.len(), |i: int| v[i]@)
}

/// How many pages memory of a length has.
fn pages_in(len: usize) -> (n: usize)
    ensures
        n == page_count(len as nat),
{
    len / KAPPA_PAGE + (if len % KAPPA_PAGE == 0 { 0usize } else { 1usize })
}

/// The `i`-th page.
fn page_slice(ram: &Vec<u8>, i: usize) -> (p: &[u8])
    requires
        i < page_count(ram@.len()),
    ensures
        p@ == page_of(ram@, i as int),
{
    let n: usize = ram.len();
    let from: usize = KAPPA_PAGE * i;
    let to: usize = if n - from >= KAPPA_PAGE { from + KAPPA_PAGE } else { n };
    slice_subrange(ram.as_slice(), from, to)
}

/// The labels of the pages of memory, in order.
pub fn label_pages(ram: &Vec<u8>) -> (v: Vec<[u8; 71]>)
    ensures
        labels_of(v@) == page_labels(ram@),
{
    let n: usize = pages_in(ram.len());
    let mut v: Vec<[u8; 71]> = Vec::new();
    let mut i: usize = 0;
    while i < n
        invariant
            i <= n,
            n == page_count(ram@.len()),
            v@.len() == i,
            forall|k: int| 0 <= k < i ==> (#[trigger] v@[k])@ == page_labels(ram@)[k],
        decreases n - i,
    {
        v.push(address_bytes(page_slice(ram, i)));
        i = i + 1;
    }
    assert(labels_of(v@) =~= page_labels(ram@));
    v
}

fn holds_label(l: &Vec<KappaPage>, label: &[u8; 71]) -> (b: bool)
    ensures
        b == has_label(store_of(l@), label@),
{
    let mut i: usize = 0;
    while i < l.len()
        invariant
            i <= l@.len(),
            forall|k: int| 0 <= k < i ==> (#[trigger] store_of(l@)[k]).label != label@,
        decreases l@.len() - i,
    {
        if same_label(&l[i].label, label) {
            assert(store_of(l@)[i as int].label == label@);
            return true;
        }
        i = i + 1;
    }
    false
}

/// The pages of memory, each label once.
pub fn collect_pages(ram: &Vec<u8>) -> (u: Vec<KappaPage>)
    ensures
        store_of(u@) == unique_pages(ram@, page_count(ram@.len())),
{
    let n: usize = pages_in(ram.len());
    let mut u: Vec<KappaPage> = Vec::new();
    assert(store_of(u@) =~= Seq::<KappaPageState>::empty());
    let mut i: usize = 0;
    while i < n
        invariant
            i <= n,
            n == page_count(ram@.len()),
            store_of(u@) == unique_pages(ram@, i as nat),
        decreases n - i,
    {
        let page: &[u8] = page_slice(ram, i);
        let label: [u8; 71] = address_bytes(page);
        let ghost before = store_of(u@);
        if !holds_label(&u, &label) {
            u.push(KappaPage { label, bytes: slice_to_vec(page) });
            assert(store_of(u@) =~= before.push(
                KappaPageState { label: label@, bytes: page@ },
            ));
        }
        i = i + 1;
    }
    u
}

/// Where the page kept under a label is.
fn find_page(l: &Vec<KappaPage>, label: &[u8; 71]) -> (r: Option<usize>)
    ensures
        match r {
            Some(i) => i < l@.len() && lookup(store_of(l@), label@, l@.len()) == Some(
                l@[i as int].bytes@,
            ),
            None => lookup(store_of(l@), label@, l@.len()) is None,
        },
{
    let mut i: usize = l.len();
    while i > 0
        invariant
            i <= l@.len(),
            lookup(store_of(l@), label@, l@.len()) == lookup(store_of(l@), label@, i as nat),
        decreases i,
    {
        assert(store_of(l@)[i - 1] == l@[i - 1]@);
        if same_label(&l[i - 1].label, label) {
            return Some(i - 1);
        }
        i = i - 1;
    }
    None
}

fn put_page(ram: &mut Vec<u8>, off: usize, bytes: &Vec<u8>)
    requires
        off <= old(ram)@.len(),
    ensures
        final(ram)@ == put_at(old(ram)@, off as int, bytes@),
{
    let total: usize = ram.len();
    let n: usize = if bytes.len() <= total - off { bytes.len() } else { total - off };
    let mut i: usize = 0;
    while i < n
        invariant
            i <= n,
            n <= bytes@.len(),
            ram@.len() == total,
            total == old(ram)@.len(),
            off + n <= total,
            forall|k: int| 0 <= k < total ==> ram@[k] == (if off <= k < off + i {
                bytes@[k - off]
            } else {
                old(ram)@[k]
            }),
        decreases n - i,
    {
        ram[off + i] = bytes[i];
        i = i + 1;
    }
    assert(ram@ =~= put_at(old(ram)@, off as int, bytes@));
}

proof fn lemma_rebuilt_none(
    len: nat,
    labels: Seq<Seq<u8>>,
    store: Seq<KappaPageState>,
    i: nat,
    n: nat,
)
    requires
        i <= n,
        rebuilt(len, labels, store, i) is None,
    ensures
        rebuilt(len, labels, store, n) is None,
    decreases n,
{
    if i < n {
        lemma_rebuilt_none(len, labels, store, i, (n - 1) as nat);
    }
}

proof fn lemma_rebuilt_len(len: nat, labels: Seq<Seq<u8>>, store: Seq<KappaPageState>, n: nat)
    ensures
        rebuilt(len, labels, store, n) matches Some(r) ==> r.len() == len,
    decreases n,
{
    if n > 0 {
        lemma_rebuilt_len(len, labels, store, (n - 1) as nat);
    }
}

/// Rebuild memory from labels and the pages kept under them.
pub fn rebuild(len: usize, labels: &Vec<[u8; 71]>, store: &Vec<KappaPage>) -> (r: Option<Vec<u8>>)
    ensures
        match rebuilt(len as nat, labels_of(labels@), store_of(store@), labels@.len()) {
            Some(x) => r matches Some(v) && v@ == x,
            None => r is None,
        },
{
    let mut ram: Vec<u8> = vec![0u8; len];
    assert(ram@ =~= Seq::new(len as nat, |i: int| 0u8));
    let mut i: usize = 0;
    while i < labels.len()
        invariant
            i <= labels@.len(),
            ram@.len() == len,
            rebuilt(len as nat, labels_of(labels@), store_of(store@), i as nat) == Some(ram@),
        decreases labels@.len() - i,
    {
        assert(labels_of(labels@)[i as int] == labels@[i as int]@);
        proof {
            if rebuilt(len as nat, labels_of(labels@), store_of(store@), (i + 1) as nat) is None {
                lemma_rebuilt_none(
                    len as nat,
                    labels_of(labels@),
                    store_of(store@),
                    (i + 1) as nat,
                    labels@.len(),
                );
            }
        }
        let at: usize = match find_page(store, &labels[i]) {
            Some(at) => at,
            None => {
                return None;
            },
        };
        let bytes: &Vec<u8> = &store[at].bytes;
        if !verify_kappa(bytes.as_slice(), &labels[i]) {
            return None;
        }
        if i > len / KAPPA_PAGE {
            return None;
        }
        put_page(&mut ram, KAPPA_PAGE * i, bytes);
        i = i + 1;
    }
    Some(ram)
}

// ----- manifests -----

/// A machine's state and the labels of its memory pages.
pub struct KappaSnapshot {
    pub state: Vec<u8>,
    pub ram_pages: Vec<[u8; 71]>,
    pub ram_len: usize,
}

impl View for KappaSnapshot {
    type V = KappaState;

    open spec fn view(&self) -> KappaState {
        KappaState {
            state: self.state@,
            ram_pages: labels_of(self.ram_pages@),
            ram_len: self.ram_len,
        }
    }
}

pub fn put_labels(o: &mut Vec<u8>, l: &Vec<[u8; 71]>)
    ensures
        final(o)@ == old(o)@ + enc_labels(labels_of(l@)),
{
    let ghost all = labels_of(l@);
    let mut i: usize = 0;
    while i < l.len()
        invariant
            i <= l@.len(),
            all == labels_of(l@),
            o@ == old(o)@ + enc_labels(all.take(i as int)),
        decreases l@.len() - i,
    {
        put_bytes(o, &l[i]);
        proof {
            assert(all.take(i + 1).drop_last() =~= all.take(i as int));
            assert(all.take(i + 1).last() == l@[i as int]@);
            lemma_cat(old(o)@, enc_labels(all.take(i as int)), l@[i as int]@);
        }
        i = i + 1;
    }
    assert(all.take(l@.len() as int) =~= all);
}

fn to_label(v: &Vec<u8>) -> (l: [u8; 71])
    requires
        v@.len() == 71,
    ensures
        l@ == v@,
{
    let mut l: [u8; 71] = [0; 71];
    let mut i: usize = 0;
    while i < 71
        invariant
            i <= 71,
            v@.len() == 71,
            forall|k: int| 0 <= k < i ==> l@[k] == v@[k],
        decreases 71 - i,
    {
        l[i] = v[i];
        i = i + 1;
    }
    assert(l@ =~= v@);
    l
}

pub fn read_label(s: &mut Snap) -> (r: Option<[u8; 71]>)
    requires
        old(s).wf(),
    ensures
        final(s).wf(),
        final(s).b@ == old(s).b@,
        match r {
            Some(l) => old(s).has(71) && l@ == old(s).b@.subrange(
                old(s).p as int,
                old(s).p + 71,
            ) && final(s).moved(old(s), 71),
            None => !old(s).has(71),
        },
{
    let v: Vec<u8> = s.take(71)?;
    Some(to_label(&v))
}

/// Read `n` labels.
pub fn read_labels(s: &mut Snap, n: u64) -> (r: Option<Vec<[u8; 71]>>)
    requires
        old(s).wf(),
    ensures
        final(s).wf(),
        final(s).b@ == old(s).b@,
        match r {
            Some(v) => old(s).has(71 * n) && labels_of(v@) == dec_labels(
                old(s).b@,
                old(s).p as int,
                n as nat,
            ) && final(s).moved(old(s), 71 * n),
            None => !old(s).has(71 * n),
        },
{
    let mut v: Vec<[u8; 71]> = Vec::new();
    assert(labels_of(v@) =~= dec_labels(s.b@, s.p as int, 0));
    let mut i: u64 = 0;
    while i < n
        invariant
            i <= n,
            s.wf(),
            s.moved(old(s), 71 * i),
            old(s).has(71 * i),
            labels_of(v@) == dec_labels(old(s).b@, old(s).p as int, i as nat),
        decreases n - i,
    {
        match read_label(s) {
            Some(l) => {
                let ghost before = labels_of(v@);
                v.push(l);
                assert(labels_of(v@) =~= before.push(l@));
                assert(labels_of(v@) =~= dec_labels(old(s).b@, old(s).p as int, (i + 1) as nat));
                i = i + 1;
            },
            None => {
                return None;
            },
        }
    }
    Some(v)
}

fn all_well_formed(l: &Vec<[u8; 71]>) -> (b: bool)
    ensures
        b == labels_ok(labels_of(l@)),
{
    let mut i: usize = 0;
    while i < l.len()
        invariant
            i <= l@.len(),
            forall|k: int| 0 <= k < i ==> label_ok(#[trigger] labels_of(l@)[k]),
        decreases l@.len() - i,
    {
        assert(labels_of(l@)[i as int] == l@[i as int]@);
        if !well_formed_label(&l[i]) {
            return false;
        }
        i = i + 1;
    }
    true
}

/// The eight bytes of a magic: the family, its letter, and the version.
pub fn is_magic(b: &Vec<u8>, letter: u8, version: u8) -> (r: bool)
    requires
        b@.len() == 8,
    ensures
        r == (b@ == seq![0x48u8, 0x4f, 0x4c, 0x4f, 0x4b, 0x53, letter, version]),
{
    let r: bool = b[0] == 0x48 && b[1] == 0x4f && b[2] == 0x4c && b[3] == 0x4f && b[4] == 0x4b
        && b[5] == 0x53 && b[6] == letter && b[7] == version;
    proof {
        let m = seq![0x48u8, 0x4f, 0x4c, 0x4f, 0x4b, 0x53, letter, version];
        if r {
            assert(b@ =~= m);
        } else if b@ == m {
            assert(b@[0] == m[0] && b@[1] == m[1] && b@[2] == m[2] && b@[3] == m[3]);
            assert(b@[4] == m[4] && b@[5] == m[5] && b@[6] == m[6] && b@[7] == m[7]);
        }
    }
    r
}

pub fn put_magic(o: &mut Vec<u8>, letter: u8)
    ensures
        final(o)@ == old(o)@ + seq![
            0x48u8,
            0x4f,
            0x4c,
            0x4f,
            0x4b,
            0x53,
            letter,
            SNAPSHOT_FORMAT_VERSION,
        ],
{
    let m: [u8; 8] = [0x48, 0x4f, 0x4c, 0x4f, 0x4b, 0x53, letter, SNAPSHOT_FORMAT_VERSION];
    assert(m@ =~= seq![0x48u8, 0x4f, 0x4c, 0x4f, 0x4b, 0x53, letter, SNAPSHOT_FORMAT_VERSION]);
    put_bytes(o, &m);
}

impl KappaSnapshot {
    /// The number of memory pages.
    pub fn page_count(&self) -> (n: usize)
        ensures
            n == self@.ram_pages.len(),
    {
        self.ram_pages.len()
    }

    /// The bytes of memory the snapshot gives back.
    pub fn ram_len(&self) -> (n: usize)
        ensures
            n == self@.ram_len,
    {
        self.ram_len
    }

    /// The bytes of the state without memory.
    pub fn state_len(&self) -> (n: usize)
        ensures
            n == self@.state.len(),
    {
        self.state.len()
    }

    /// The labels of the memory pages, in order.
    pub fn page_kappas(&self) -> (l: &Vec<[u8; 71]>)
        ensures
            labels_of(l@) == self@.ram_pages,
    {
        &self.ram_pages
    }

    /// The manifest as bytes.
    pub fn to_manifest_bytes(&self) -> (o: Vec<u8>)
        ensures
            o@ == enc_manifest(self@),
    {
        broadcast use lemma_cat;

        proof {
            reveal(enc_manifest);
        }
        let mut o: Vec<u8> = Vec::new();
        put_magic(&mut o, 0x4e);
        put_u64(&mut o, self.ram_len as u64);
        put_blob(&mut o, self.state.as_slice());
        put_u64(&mut o, self.ram_pages.len() as u64);
        put_labels(&mut o, &self.ram_pages);
        assert(o@ =~= enc_manifest(self@));
        o
    }

    /// The manifest read back, or `None` where the bytes are not one.
    pub fn from_manifest_bytes(b: &[u8]) -> (r: Option<KappaSnapshot>)
        ensures
            match dec_manifest(b@) {
                Some(k) => r is Some && r->0@ == k,
                None => r is None,
            },
    {
        proof {
            reveal(dec_manifest);
        }
        let mut s: Snap = Snap::new(b);
        let magic: Vec<u8> = s.take(8)?;
        if !is_magic(&magic, 0x4e, SNAPSHOT_FORMAT_VERSION) {
            return None;
        }
        let ram_len: u64 = s.u64()?;
        let state: Vec<u8> = s.blob()?;
        let n: u64 = s.u64()?;
        let ram_pages: Vec<[u8; 71]> = read_labels(&mut s, n)?;
        if !all_well_formed(&ram_pages) || ram_len > usize::MAX as u64 {
            return None;
        }
        Some(KappaSnapshot { state, ram_pages, ram_len: ram_len as usize })
    }
}

} // verus!
