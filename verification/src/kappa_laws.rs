//! What content addressing promises: manifests and self-contained snapshots read back, the machine
//! resumes as it was, and nothing is used that is not what its label says.
use vstd::prelude::*;
#[allow(unused_imports)]
use crate::cpu::CpuState;
#[allow(unused_imports)]
use crate::kappa::{
    blob_magic, dec_labels, dec_manifest, enc_labels, enc_manifest, has_label, hex_of, is_hex,
    kappa_label, kappa_of, label_ok, label_prefix, labels_ok, lookup, manifest_magic, page_count,
    page_labels, page_of, put_at, rebuilt, unique_pages, KappaPageState, KappaState,
    SNAPSHOT_FORMAT_VERSION, SNAPSHOT_FORMAT_VERSION_PREV,
};
#[allow(unused_imports)]
use crate::resume::{
    blob_format, blob_resumed, dec_kappa_blob, dec_pages, enc_blob_form, enc_kappa_blob,
    enc_kappa_blob_earlier, enc_page, enc_pages, manifest_resumed,
};
#[allow(unused_imports)]
use crate::snap::{
    at, dec_u32, dec_u64, enc_blob, enc_u32, enc_u64, lemma_at_self, lemma_at_split,
    lemma_at_subrange, lemma_dec_u32, lemma_dec_u64,
};
#[allow(unused_imports)]
use crate::snapshot::{
    disk_taken, enc_machine, enc_machine_earlier, frozen_of, law_machine_earlier,
    law_machine_round_trip, shaped, thawed,
};
#[allow(unused_imports)]
use crate::sys::sys_sized;

verus! {

// ----- manifests -----

/// The label of content has the form of a label.
pub proof fn law_label_form(data: Seq<u8>)
    ensures
        label_ok(kappa_label(data)),
{
    let l = kappa_label(data);
    assert(l.subrange(0, 7) =~= label_prefix());
    assert forall|i: int| 7 <= i < 71 implies is_hex(#[trigger] l[i]) by {
        assert(l[i] == hex_of(crate::digest::blake3_digest(data))[i - 7]);
    }
}

proof fn lemma_enc_labels_len(l: Seq<Seq<u8>>)
    requires
        labels_ok(l),
    ensures
        enc_labels(l).len() == 71 * l.len(),
    decreases l.len(),
{
    if l.len() > 0 {
        assert(label_ok(l[l.len() - 1]));
        assert(labels_ok(l.drop_last()));
        lemma_enc_labels_len(l.drop_last());
    }
}

proof fn lemma_dec_labels(b: Seq<u8>, p: int, l: Seq<Seq<u8>>)
    requires
        labels_ok(l),
        at(b, p, enc_labels(l)),
    ensures
        dec_labels(b, p, l.len()) == l,
    decreases l.len(),
{
    if l.len() > 0 {
        let w = l.drop_last();
        assert(label_ok(l[l.len() - 1]));
        assert(labels_ok(w));
        lemma_enc_labels_len(w);
        lemma_at_split(b, p, enc_labels(w), l.last());
        lemma_dec_labels(b, p, w);
        lemma_at_subrange(b, p + 71 * w.len(), l.last());
        assert forall|i: int| 0 <= i < l.len() implies dec_labels(b, p, l.len())[i] == l[i] by {
            if i < w.len() {
                assert(dec_labels(b, p, w.len())[i] == w[i]);
            }
        }
    }
    assert(dec_labels(b, p, l.len()) =~= l);
}

/// A manifest reads back.
pub proof fn law_manifest_round_trip(k: KappaState)
    requires
        k.state.len() <= u64::MAX,
        k.ram_pages.len() <= u64::MAX,
        k.ram_len <= u64::MAX,
        labels_ok(k.ram_pages),
    ensures
        dec_manifest(enc_manifest(k)) == Some(k),
{
    reveal(enc_manifest);
    reveal(dec_manifest);
    let b = enc_manifest(k);
    let n = k.state.len() as int;
    let m = k.ram_pages.len() as int;
    let e4 = enc_u64(m as u64) + enc_labels(k.ram_pages);
    let e3 = enc_blob(k.state) + e4;
    let e2 = enc_u64(k.ram_len as u64) + e3;
    lemma_at_self(b);
    lemma_at_split(b, 0, manifest_magic(), e2);
    lemma_at_subrange(b, 0, manifest_magic());
    lemma_at_split(b, 8, enc_u64(k.ram_len as u64), e3);
    lemma_dec_u64(b, 8, k.ram_len as u64);
    lemma_at_split(b, 16, enc_blob(k.state), e4);
    lemma_at_split(b, 16, enc_u64(n as u64), k.state);
    lemma_dec_u64(b, 16, n as u64);
    lemma_at_subrange(b, 24, k.state);
    lemma_at_split(b, 24 + n, enc_u64(m as u64), enc_labels(k.ram_pages));
    lemma_dec_u64(b, 24 + n, m as u64);
    lemma_enc_labels_len(k.ram_pages);
    lemma_dec_labels(b, 32 + n, k.ram_pages);
}

// ----- rebuilding memory -----

/// The pages at hand hold every page of the memory under its label.
pub open spec fn holds_pages(store: Seq<KappaPageState>, ram: Seq<u8>) -> bool {
    forall|i: int|
        0 <= i < page_count(ram.len()) ==> lookup(
            store,
            kappa_label(#[trigger] page_of(ram, i)),
            store.len(),
        ) == Some(page_of(ram, i))
}

/// Different pages of the memory have different labels.
pub open spec fn no_clash(ram: Seq<u8>) -> bool {
    forall|i: int, j: int|
        0 <= i < page_count(ram.len()) && 0 <= j < page_count(ram.len()) && kappa_label(
            #[trigger] page_of(ram, i),
        ) == kappa_label(#[trigger] page_of(ram, j)) ==> page_of(ram, i) == page_of(ram, j)
}

proof fn lemma_rebuilt_prefix(store: Seq<KappaPageState>, ram: Seq<u8>, n: nat)
    requires
        holds_pages(store, ram),
        n <= page_count(ram.len()),
    ensures
        rebuilt(ram.len(), page_labels(ram), store, n) == Some(
            Seq::new(ram.len(), |k: int| if k < 4096 * n { ram[k] } else { 0u8 }),
        ),
    decreases n,
{
    if n == 0 {
        assert(Seq::new(ram.len(), |i: int| 0u8) =~= Seq::new(
            ram.len(),
            |k: int| if k < 4096 * n { ram[k] } else { 0u8 },
        ));
    } else {
        let i = n - 1;
        lemma_rebuilt_prefix(store, ram, (n - 1) as nat);
        let before = Seq::new(ram.len(), |k: int| if k < 4096 * i { ram[k] } else { 0u8 });
        let page = page_of(ram, i);
        assert(page_labels(ram)[i] == kappa_label(page));
        assert(4096 * i < ram.len());
        assert(put_at(before, 4096 * i, page) =~= Seq::new(
            ram.len(),
            |k: int| if k < 4096 * n { ram[k] } else { 0u8 },
        )) by {
            assert forall|k: int| 0 <= k < ram.len() implies put_at(before, 4096 * i, page)[k] == (
            if k < 4096 * n { ram[k] } else { 0u8 }) by {
                if 4096 * i <= k < 4096 * i + page.len() {
                    assert(page[k - 4096 * i] == ram[k]);
                }
            }
        }
    }
}

/// Memory is rebuilt exactly from its labels and the pages under them.
pub proof fn law_rebuild(store: Seq<KappaPageState>, ram: Seq<u8>)
    ensures
        holds_pages(store, ram) ==> rebuilt(
            ram.len(),
            page_labels(ram),
            store,
            page_labels(ram).len(),
        ) == Some(ram),
{
    if holds_pages(store, ram) {
        let n = page_count(ram.len());
        lemma_rebuilt_prefix(store, ram, n);
        assert(Seq::new(ram.len(), |k: int| if k < 4096 * n { ram[k] } else { 0u8 }) =~= ram);
    }
}

/// Memory that was rebuilt came from pages that are what their labels say: a missing or altered page
/// is refused.
pub proof fn law_rebuilt_checked(
    len: nat,
    labels: Seq<Seq<u8>>,
    store: Seq<KappaPageState>,
    n: nat,
    i: int,
)
    requires
        0 <= i < n,
    ensures
        rebuilt(len, labels, store, n) is Some ==> (lookup(store, labels[i], store.len()) matches Some(
            bytes,
        ) && kappa_label(bytes) == labels[i]),
    decreases n,
{
    if i < n - 1 {
        law_rebuilt_checked(len, labels, store, (n - 1) as nat, i);
    }
}

proof fn lemma_labels_ok(ram: Seq<u8>)
    ensures
        labels_ok(page_labels(ram)),
{
    assert forall|i: int| 0 <= i < page_labels(ram).len() implies label_ok(
        #[trigger] page_labels(ram)[i],
    ) by {
        law_label_form(page_of(ram, i));
    }
}

/// Resuming a machine's manifest gives that machine, when the pages are at hand.
pub proof fn law_manifest_resume(
    m: CpuState,
    s: CpuState,
    store: Seq<KappaPageState>,
    disk_ok: bool,
)
    requires
        shaped(s),
        s.platform ==> sys_sized(s.sys),
        disk_taken(s, disk_ok),
        s.ram.len() <= usize::MAX,
        s.ram.len() <= u64::MAX,
        enc_machine(s).len() <= u64::MAX,
    ensures
        holds_pages(store, s.ram) ==> manifest_resumed(
            m,
            enc_manifest(kappa_of(s)),
            store,
            disk_ok,
        ) == Some(thawed(m, frozen_of(s), s.ram)),
{
    let k = kappa_of(s);
    lemma_labels_ok(s.ram);
    law_manifest_round_trip(k);
    lemma_at_self(k.state);
    law_machine_round_trip(k.state, 0, s, disk_ok);
    law_rebuild(store, s.ram);
}

// ----- self-contained snapshots -----

proof fn lemma_unique_found(ram: Seq<u8>, n: nat, i: int)
    requires
        0 <= i < n <= page_count(ram.len()),
    ensures
        has_label(unique_pages(ram, n), kappa_label(page_of(ram, i))),
    decreases n,
{
    let u = unique_pages(ram, (n - 1) as nat);
    let w = unique_pages(ram, n);
    let label = kappa_label(page_of(ram, i));
    if i < n - 1 {
        lemma_unique_found(ram, (n - 1) as nat, i);
        let k = choose|k: int| 0 <= k < u.len() && #[trigger] u[k].label == label;
        assert(w[k].label == label);
    } else if !has_label(u, label) {
        assert(w[u.len() as int].label == label);
    }
}

/// Every page kept is a page of the memory under its label.
proof fn lemma_unique_pages(ram: Seq<u8>, n: nat, k: int) -> (i: int)
    requires
        0 <= k < unique_pages(ram, n).len(),
        n <= page_count(ram.len()),
    ensures
        0 <= i < n,
        unique_pages(ram, n)[k].bytes == page_of(ram, i),
        unique_pages(ram, n)[k].label == kappa_label(page_of(ram, i)),
    decreases n,
{
    let u = unique_pages(ram, (n - 1) as nat);
    if k < u.len() {
        lemma_unique_pages(ram, (n - 1) as nat, k)
    } else {
        n - 1
    }
}

proof fn lemma_lookup(store: Seq<KappaPageState>, label: Seq<u8>, n: nat) -> (k: int)
    requires
        n <= store.len(),
        exists|j: int| 0 <= j < n && #[trigger] store[j].label == label,
    ensures
        0 <= k < n,
        store[k].label == label,
        lookup(store, label, n) == Some(store[k].bytes),
    decreases n,
{
    if store[n - 1].label == label {
        n - 1
    } else {
        let j = choose|j: int| 0 <= j < n && #[trigger] store[j].label == label;
        assert(j < n - 1);
        lemma_lookup(store, label, (n - 1) as nat)
    }
}

/// The pages that are kept once are all that a resume needs, unless two different pages have one
/// label.
pub proof fn law_unique_pages(ram: Seq<u8>)
    ensures
        no_clash(ram) ==> holds_pages(unique_pages(ram, page_count(ram.len())), ram),
{
    let n = page_count(ram.len());
    let u = unique_pages(ram, n);
    if no_clash(ram) {
        assert forall|i: int| 0 <= i < n implies lookup(
            u,
            kappa_label(#[trigger] page_of(ram, i)),
            u.len(),
        ) == Some(page_of(ram, i)) by {
            let label = kappa_label(page_of(ram, i));
            lemma_unique_found(ram, n, i);
            let k = lemma_lookup(u, label, u.len());
            let j = lemma_unique_pages(ram, n, k);
            assert(page_of(ram, i) == page_of(ram, j));
        }
    }
}

/// A page that can be kept: its label is its own, and its length fits.
pub open spec fn page_ok(p: KappaPageState) -> bool {
    p.label == kappa_label(p.bytes) && p.bytes.len() <= u32::MAX
}

proof fn lemma_dec_pages(b: Seq<u8>, p: int, l: Seq<KappaPageState>)
    requires
        forall|i: int| 0 <= i < l.len() ==> page_ok(#[trigger] l[i]),
        at(b, p, enc_pages(l)),
    ensures
        dec_pages(b, p, l.len()) == Some((l, p + enc_pages(l).len())),
    decreases l.len(),
{
    if l.len() > 0 {
        let w = l.drop_last();
        let x = l.last();
        assert(page_ok(l[l.len() - 1]));
        assert forall|i: int| 0 <= i < w.len() implies page_ok(#[trigger] w[i]) by {
            assert(w[i] == l[i]);
        }
        lemma_at_split(b, p, enc_pages(w), enc_page(x));
        lemma_dec_pages(b, p, w);
        let q = p + enc_pages(w).len();
        law_label_form(x.bytes);
        lemma_at_split(b, q, x.label, enc_u32(x.bytes.len() as u32) + x.bytes);
        lemma_at_subrange(b, q, x.label);
        lemma_at_split(b, q + 71, enc_u32(x.bytes.len() as u32), x.bytes);
        lemma_dec_u32(b, q + 71, x.bytes.len() as u32);
        lemma_at_subrange(b, q + 75, x.bytes);
        assert(w.push(x) =~= l);
    }
}

/// Where the parts of a self-contained snapshot stand.
proof fn lemma_blob_layout(version: u8, state: Seq<u8>, ram: Seq<u8>) -> (r: (int, int))
    requires
        version == SNAPSHOT_FORMAT_VERSION || version == SNAPSHOT_FORMAT_VERSION_PREV,
        ram.len() <= u64::MAX,
        state.len() <= u64::MAX,
    ensures
        ({
            let b = enc_blob_form(version, state, ram);
            let labels = page_labels(ram);
            let unique = unique_pages(ram, page_count(ram.len()));
            &&& r.0 == 24 + state.len()
            &&& r.1 == r.0 + 8 + 71 * labels.len()
            &&& blob_format(b) == Some(version == SNAPSHOT_FORMAT_VERSION)
            &&& dec_u64(b, 8) == ram.len()
            &&& dec_u64(b, 16) == state.len()
            &&& b.subrange(24, r.0) == state
            &&& dec_u64(b, r.0) == labels.len()
            &&& dec_labels(b, r.0 + 8, labels.len()) == labels
            &&& dec_u64(b, r.1) == unique.len()
            &&& dec_pages(b, r.1 + 8, unique.len()) == Some((unique, b.len() as int))
            &&& r.1 + 8 <= b.len()
        }),
{
    reveal(enc_blob_form);
    let b = enc_blob_form(version, state, ram);
    let labels = page_labels(ram);
    let count = page_count(ram.len());
    let unique = unique_pages(ram, count);
    let n = state.len() as int;
    let m = labels.len() as int;
    let e6 = enc_u64(unique.len() as u64) + enc_pages(unique);
    let e5 = enc_labels(labels) + e6;
    let e4 = enc_u64(m as u64) + e5;
    let e3 = enc_blob(state) + e4;
    let e2 = enc_u64(ram.len() as u64) + e3;
    lemma_labels_ok(ram);
    lemma_enc_labels_len(labels);
    lemma_at_self(b);
    lemma_at_split(b, 0, blob_magic(version), e2);
    lemma_at_subrange(b, 0, blob_magic(version));
    assert(blob_magic(SNAPSHOT_FORMAT_VERSION)[7] != blob_magic(SNAPSHOT_FORMAT_VERSION_PREV)[7]);
    lemma_at_split(b, 8, enc_u64(ram.len() as u64), e3);
    lemma_dec_u64(b, 8, ram.len() as u64);
    lemma_at_split(b, 16, enc_blob(state), e4);
    lemma_at_split(b, 16, enc_u64(n as u64), state);
    lemma_dec_u64(b, 16, n as u64);
    lemma_at_subrange(b, 24, state);
    lemma_at_split(b, 24 + n, enc_u64(m as u64), e5);
    lemma_dec_u64(b, 24 + n, m as u64);
    lemma_at_split(b, 32 + n, enc_labels(labels), e6);
    lemma_dec_labels(b, 32 + n, labels);
    let q = 32 + n + 71 * m;
    lemma_at_split(b, q, enc_u64(unique.len() as u64), enc_pages(unique));
    lemma_unique_count(ram, count);
    lemma_dec_u64(b, q, unique.len() as u64);
    assert forall|i: int| 0 <= i < unique.len() implies page_ok(#[trigger] unique[i]) by {
        let j = lemma_unique_pages(ram, count, i);
        assert(page_of(ram, j).len() <= 4096);
    }
    lemma_dec_pages(b, q + 8, unique);
    (24 + n, q)
}

proof fn lemma_unique_count(ram: Seq<u8>, n: nat)
    ensures
        unique_pages(ram, n).len() <= n,
    decreases n,
{
    if n > 0 {
        lemma_unique_count(ram, (n - 1) as nat);
    }
}

/// Resuming a machine's self-contained snapshot gives that machine, unless two different pages of
/// its memory have one label.
pub proof fn law_blob_resume(m: CpuState, s: CpuState, disk_ok: bool)
    requires
        shaped(s),
        s.platform ==> sys_sized(s.sys),
        disk_taken(s, disk_ok),
        s.ram.len() <= usize::MAX,
        s.ram.len() <= u64::MAX,
        enc_machine(s).len() <= u64::MAX,
    ensures
        no_clash(s.ram) ==> blob_resumed(m, enc_kappa_blob(s), disk_ok) == Some(
            thawed(m, frozen_of(s), s.ram),
        ),
{
    if no_clash(s.ram) {
        reveal(dec_kappa_blob);
        let (p, q) = lemma_blob_layout(SNAPSHOT_FORMAT_VERSION, enc_machine(s), s.ram);
        law_unique_pages(s.ram);
        law_rebuild(unique_pages(s.ram, page_count(s.ram.len())), s.ram);
        lemma_at_self(enc_machine(s));
        law_machine_round_trip(enc_machine(s), 0, s, disk_ok);
    }
}

/// A self-contained snapshot in the earlier format resumes the same machine: what has no network
/// device loses nothing by it.
pub proof fn law_earlier_blob_resume(m: CpuState, s: CpuState, disk_ok: bool)
    requires
        shaped(s),
        s.platform ==> sys_sized(s.sys) && s.sys.net is None,
        disk_taken(s, disk_ok),
        s.ram.len() <= usize::MAX,
        s.ram.len() <= u64::MAX,
        enc_machine_earlier(s).len() <= u64::MAX,
    ensures
        no_clash(s.ram) ==> blob_resumed(m, enc_kappa_blob_earlier(s), disk_ok) == Some(
            thawed(m, frozen_of(s), s.ram),
        ),
{
    if no_clash(s.ram) {
        reveal(dec_kappa_blob);
        let (p, q) = lemma_blob_layout(SNAPSHOT_FORMAT_VERSION_PREV, enc_machine_earlier(s), s.ram);
        law_unique_pages(s.ram);
        law_rebuild(unique_pages(s.ram, page_count(s.ram.len())), s.ram);
        lemma_at_self(enc_machine_earlier(s));
        law_machine_earlier(enc_machine_earlier(s), 0, s, disk_ok);
    }
}

proof fn lemma_pages_prefix(b: Seq<u8>, n: int, p: int, k: nat)
    requires
        0 <= p,
        0 <= n <= b.len(),
        p <= n,
        dec_pages(b.take(n), p, k) is Some,
    ensures
        dec_pages(b, p, k) == dec_pages(b.take(n), p, k),
        p <= (dec_pages(b.take(n), p, k)->0).1 <= n,
    decreases k,
{
    if k > 0 {
        let a = b.take(n);
        lemma_pages_prefix(b, n, p, (k - 1) as nat);
        let (l, q) = dec_pages(a, p, (k - 1) as nat)->0;
        assert(dec_u32(a, q + 71) == dec_u32(b, q + 71));
        let len = dec_u32(b, q + 71);
        assert(a.subrange(q, q + 71) =~= b.subrange(q, q + 71));
        assert(a.subrange(q + 75, q + 75 + len) =~= b.subrange(q + 75, q + 75 + len));
    }
}

proof fn lemma_word_prefix(b: Seq<u8>, n: int, p: int)
    requires
        0 <= p,
        p + 8 <= n <= b.len(),
    ensures
        dec_u64(b.take(n), p) == dec_u64(b, p),
{
}

/// A self-contained snapshot cut short anywhere is refused.
pub proof fn law_truncated_blob(s: CpuState, n: int)
    requires
        s.ram.len() <= u64::MAX,
        enc_machine(s).len() <= u64::MAX,
        0 <= n < enc_kappa_blob(s).len(),
    ensures
        dec_kappa_blob(enc_kappa_blob(s).take(n)) is None,
{
    let b = enc_kappa_blob(s);
    let a = b.take(n);
    if dec_kappa_blob(a) is Some {
        reveal(dec_kappa_blob);
        let (p, q) = lemma_blob_layout(SNAPSHOT_FORMAT_VERSION, enc_machine(s), s.ram);
        lemma_word_prefix(b, n, 16);
        lemma_word_prefix(b, n, p);
        lemma_word_prefix(b, n, q);
        lemma_pages_prefix(b, n, q + 8, dec_u64(b, q) as nat);
        assert(false);
    }
}

/// Only the current format and the one before are read; what another version wrote is refused.
pub proof fn law_other_version(b: Seq<u8>)
    ensures
        dec_kappa_blob(b) is Some ==> b.len() >= 8 && (b.subrange(0, 8) == blob_magic(
            SNAPSHOT_FORMAT_VERSION,
        ) || b.subrange(0, 8) == blob_magic(SNAPSHOT_FORMAT_VERSION_PREV)),
{
    reveal(dec_kappa_blob);
}

/// Every page in an accepted self-contained snapshot is what its label says.
pub proof fn law_blob_checked(b: Seq<u8>, p: int, n: nat, i: int)
    ensures
        dec_pages(b, p, n) matches Some((l, _)) ==> (0 <= i < l.len() ==> kappa_label(l[i].bytes)
            == l[i].label),
    decreases n,
{
    if n > 0 {
        law_blob_checked(b, p, (n - 1) as nat, i);
    }
}

/// Where the pages begin in a self-contained snapshot.
pub open spec fn pages_start(b: Seq<u8>) -> int {
    24 + dec_u64(b, 16) + 8 + 71 * dec_u64(b, 24 + dec_u64(b, 16)) + 8
}

/// Where the page with an index begins in a self-contained snapshot: its label, four bytes of length,
/// and its bytes.
pub open spec fn page_start(b: Seq<u8>, i: nat) -> int {
    (dec_pages(b, pages_start(b), i)->0).1
}

/// How many pages a self-contained snapshot holds.
pub open spec fn pages_held(b: Seq<u8>) -> nat {
    dec_u64(b, pages_start(b) - 8) as nat
}

proof fn lemma_pages_before(b: Seq<u8>, p: int, i: nat, n: nat)
    requires
        i <= n,
        dec_pages(b, p, n) is Some,
    ensures
        dec_pages(b, p, i) is Some,
        p <= (dec_pages(b, p, i)->0).1 <= (dec_pages(b, p, n)->0).1,
    decreases n,
{
    if n > 0 {
        lemma_pages_before(b, p, if i < n { i } else { (n - 1) as nat }, (n - 1) as nat);
    }
}

proof fn lemma_pages_alike(a: Seq<u8>, b: Seq<u8>, p: int, n: nat, end: int)
    requires
        0 <= p,
        a.len() == b.len(),
        forall|i: int| 0 <= i < end ==> a[i] == b[i],
        end <= b.len(),
        dec_pages(b, p, n) is Some,
        (dec_pages(b, p, n)->0).1 <= end,
    ensures
        dec_pages(a, p, n) == dec_pages(b, p, n),
    decreases n,
{
    if n > 0 {
        lemma_pages_before(b, p, (n - 1) as nat, n);
        lemma_pages_alike(a, b, p, (n - 1) as nat, end);
        let (l, q) = dec_pages(b, p, (n - 1) as nat)->0;
        assert(dec_u32(a, q + 71) == dec_u32(b, q + 71));
        let len = dec_u32(b, q + 71);
        assert(a.subrange(q, q + 71) =~= b.subrange(q, q + 71));
        assert(a.subrange(q + 75, q + 75 + len) =~= b.subrange(q + 75, q + 75 + len));
    }
}

/// A self-contained snapshot in which one byte of a page was changed is refused, unless the changed
/// page has the label of the page that it was.
pub proof fn law_changed_page(m: CpuState, b: Seq<u8>, i: nat, j: int, c: u8, disk_ok: bool)
    requires
        dec_kappa_blob(b) is Some,
        i < pages_held(b),
        page_start(b, i) + 75 <= j < page_start(b, i + 1),
        ({
            let lo = page_start(b, i) + 75;
            let hi = page_start(b, i + 1);
            kappa_label(b.update(j, c).subrange(lo, hi)) != kappa_label(b.subrange(lo, hi))
        }),
    ensures
        dec_kappa_blob(b.update(j, c)) is None,
        blob_resumed(m, b.update(j, c), disk_ok) is None,
{
    reveal(dec_kappa_blob);
    let a = b.update(j, c);
    let p = pages_start(b);
    let n = pages_held(b);
    let lo = page_start(b, i) + 75;
    let hi = page_start(b, i + 1);
    lemma_pages_before(b, p, i, n);
    lemma_pages_before(b, p, i + 1, n);
    lemma_pages_before(b, p, i, i + 1);
    assert(hi <= b.len());
    assert(a.subrange(0, 8) =~= b.subrange(0, 8));
    assert(dec_u64(a, 8) == dec_u64(b, 8));
    assert(dec_u64(a, 16) == dec_u64(b, 16));
    assert(dec_u64(a, 24 + dec_u64(b, 16)) == dec_u64(b, 24 + dec_u64(b, 16)));
    assert(dec_u64(a, p - 8) == dec_u64(b, p - 8));
    lemma_pages_alike(a, b, p, i, page_start(b, i));
    assert(dec_u32(a, page_start(b, i) + 71) == dec_u32(b, page_start(b, i) + 71));
    assert(a.subrange(page_start(b, i), page_start(b, i) + 71) =~= b.subrange(
        page_start(b, i),
        page_start(b, i) + 71,
    ));
    assert(hi == lo + dec_u32(b, page_start(b, i) + 71));
    assert(dec_pages(a, p, i + 1) is None);
    if dec_pages(a, p, n) is Some {
        lemma_pages_before(a, p, i + 1, n);
    }
}

} // verus!
