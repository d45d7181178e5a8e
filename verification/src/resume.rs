//! Content-addressed snapshots of the machine: sealing it under one label, self-contained blobs, and
//! resuming with every page checked before use.
use vstd::prelude::*;
use crate::cpu::Cpu;
use crate::kappa::{
    address_bytes, collect_pages, is_magic, label_pages, put_labels, put_magic, read_label,
    read_labels, rebuild, same_label, verify_kappa, KappaPage, KappaSnapshot,
    SNAPSHOT_FORMAT_VERSION, SNAPSHOT_FORMAT_VERSION_PREV,
};
use crate::snap::{put_blob, put_bytes, put_u32, put_u64, Snap};
use crate::snapshot::Frozen;
#[allow(unused_imports)]
use crate::cpu::CpuState;
#[allow(unused_imports)]
use crate::kappa::{
    blob_magic, dec_labels, dec_manifest, enc_labels, enc_manifest, kappa_label, kappa_of,
    labels_of, page_count, page_labels, rebuilt, store_of, unique_pages, KappaPageState, KappaState,
};
#[allow(unused_imports)]
use crate::snap::{dec_u32, dec_u64, enc_blob, enc_u32, enc_u64, lemma_cat};
#[allow(unused_imports)]
use crate::snapshot::{
    dec_machine, enc_machine, enc_machine_earlier, state_begun, state_left, thawed,
};
#[allow(unused_imports)]
use crate::sys::SysState;

verus! {

// ----- self-contained snapshots -----

/// A page in a self-contained snapshot: its label, its length, its bytes.
pub open spec fn enc_page(p: KappaPageState) -> Seq<u8> {
    p.label + (enc_u32(p.bytes.len() as u32) + p.bytes)
}

/// Pages, one after the other.
pub open spec fn enc_pages(l: Seq<KappaPageState>) -> Seq<u8>
    decreases l.len(),
{
    if l.len() == 0 {
        Seq::empty()
    } else {
        enc_pages(l.drop_last()) + enc_page(l.last())
    }
}

/// The bytes of a self-contained snapshot of a version: the manifest of a state and a memory, and
/// every page once.
#[verifier::opaque]
pub open spec fn enc_blob_form(version: u8, state: Seq<u8>, ram: Seq<u8>) -> Seq<u8> {
    let labels = page_labels(ram);
    let unique = unique_pages(ram, page_count(ram.len()));
    blob_magic(version) + (enc_u64(ram.len() as u64) + (enc_blob(state) + (enc_u64(
        labels.len() as u64,
    ) + (enc_labels(labels) + (enc_u64(unique.len() as u64) + enc_pages(unique))))))
}

/// The bytes of a machine's self-contained snapshot.
pub open spec fn enc_kappa_blob(s: CpuState) -> Seq<u8> {
    enc_blob_form(SNAPSHOT_FORMAT_VERSION, enc_machine(s), s.ram)
}

/// The same in the earlier format.
pub open spec fn enc_kappa_blob_earlier(s: CpuState) -> Seq<u8> {
    enc_blob_form(SNAPSHOT_FORMAT_VERSION_PREV, enc_machine_earlier(s), s.ram)
}

/// The `n` pages found at a position, and where they end. A page that does not have its label is
/// refused.
pub open spec fn dec_pages(b: Seq<u8>, p: int, n: nat) -> Option<(Seq<KappaPageState>, int)>
    decreases n,
{
    if n == 0 {
        Some((Seq::empty(), p))
    } else {
        match dec_pages(b, p, (n - 1) as nat) {
            None => None,
            Some((l, q)) => {
                let len = dec_u32(b, q + 71);
                let label = b.subrange(q, q + 71);
                let bytes = b.subrange(q + 75, q + 75 + len);
                if q + 71 > b.len() || q + 75 > b.len() || q + 75 + len > b.len() {
                    None
                } else if kappa_label(bytes) != label {
                    None
                } else {
                    Some((l.push(KappaPageState { label, bytes }), q + 75 + len))
                }
            },
        }
    }
}

/// What a self-contained snapshot holds: whether it is of the format with a network device, the
/// state, and memory.
#[verifier::ext_equal]
pub ghost struct BlobState {
    pub has_net: bool,
    pub state: Seq<u8>,
    pub ram: Seq<u8>,
}

/// The format of a self-contained snapshot, if it is one of the two that can be read.
pub open spec fn blob_format(b: Seq<u8>) -> Option<bool> {
    if b.len() < 8 {
        None
    } else if b.subrange(0, 8) == blob_magic(SNAPSHOT_FORMAT_VERSION) {
        Some(true)
    } else if b.subrange(0, 8) == blob_magic(SNAPSHOT_FORMAT_VERSION_PREV) {
        Some(false)
    } else {
        None
    }
}

/// What is found behind the magic.
pub open spec fn dec_blob_body(b: Seq<u8>, has_net: bool) -> Option<BlobState> {
    let n = dec_u64(b, 16);
    let p = 24 + n;
    let m = dec_u64(b, p);
    let q = p + 8 + 71 * m;
    let k = dec_u64(b, q);
    if 16 > b.len() || 24 > b.len() || p > b.len() || p + 8 > b.len() || q > b.len() || q + 8
        > b.len() || dec_u64(b, 8) > usize::MAX {
        None
    } else {
        match dec_pages(b, q + 8, k as nat) {
            None => None,
            Some((pages, _)) => match rebuilt(
                dec_u64(b, 8) as nat,
                dec_labels(b, p + 8, m as nat),
                pages,
                m as nat,
            ) {
                None => None,
                Some(ram) => Some(BlobState { has_net, state: b.subrange(24, p), ram }),
            },
        }
    }
}

/// What a self-contained snapshot holds, or `None` where it is not one, is truncated, or holds a
/// page that is missing or not what its label says.
#[verifier::opaque]
pub open spec fn dec_kappa_blob(b: Seq<u8>) -> Option<BlobState> {
    match blob_format(b) {
        Some(has_net) => dec_blob_body(b, has_net),
        None => None,
    }
}

// ----- resuming -----

/// A machine with a manifest's state, and memory from the pages at hand; `None` where the state is
/// malformed, its disk is refused, or a page is missing or not what its label says.
pub open spec fn kappa_resumed(
    s: CpuState,
    k: KappaState,
    store: Seq<KappaPageState>,
    disk_ok: bool,
) -> Option<CpuState> {
    match dec_machine(k.state, 0, true, disk_ok) {
        None => None,
        Some((f, _)) => match rebuilt(k.ram_len as nat, k.ram_pages, store, k.ram_pages.len()) {
            None => None,
            Some(ram) => Some(thawed(s, f, ram)),
        },
    }
}

/// The same from the bytes of a manifest.
pub open spec fn manifest_resumed(
    s: CpuState,
    b: Seq<u8>,
    store: Seq<KappaPageState>,
    disk_ok: bool,
) -> Option<CpuState> {
    match dec_manifest(b) {
        None => None,
        Some(k) => kappa_resumed(s, k, store, disk_ok),
    }
}

/// The same from a self-contained snapshot.
pub open spec fn blob_resumed(s: CpuState, b: Seq<u8>, disk_ok: bool) -> Option<CpuState> {
    match dec_kappa_blob(b) {
        None => None,
        Some(x) => match dec_machine(x.state, 0, x.has_net, disk_ok) {
            None => None,
            Some((f, _)) => Some(thawed(s, f, x.ram)),
        },
    }
}

/// The machine that a refused manifest leaves: its registers and its platform come before its pages
/// are looked at.
pub open spec fn manifest_refused(s: CpuState, b: Seq<u8>, disk_ok: bool) -> CpuState {
    match dec_manifest(b) {
        None => s,
        Some(k) => state_left(s, k.state, true, disk_ok),
    }
}

/// The machine that a refused stream leaves: its pages come first, and its registers as they are
/// read.
pub open spec fn stream_refused(s: CpuState, b: Seq<u8>, store: Seq<KappaPageState>) -> CpuState {
    match dec_manifest(b) {
        None => s,
        Some(k) => match rebuilt(k.ram_len as nat, k.ram_pages, store, k.ram_pages.len()) {
            None => s,
            Some(_) => state_begun(s, k.state),
        },
    }
}

/// The machine that a refused self-contained snapshot leaves.
pub open spec fn blob_refused(s: CpuState, b: Seq<u8>) -> CpuState {
    match dec_kappa_blob(b) {
        None => s,
        Some(x) => state_begun(s, x.state),
    }
}

/// A machine whose disk is another.
pub open spec fn with_disk(s: CpuState, disk: Seq<u8>) -> CpuState {
    CpuState {
        sys: SysState {
            disk: if s.sys.disk is Some { Some(disk) } else { None },
            ..s.sys
        },
        ..s
    }
}

/// The manifest of a machine whose disk is kept in another form.
pub open spec fn kappa_with_disk(s: CpuState, disk: Seq<u8>) -> KappaState {
    KappaState { state: enc_machine(with_disk(s, disk)), ..kappa_of(s) }
}

/// The first `n` labels, each once.
pub open spec fn unique_labels(l: Seq<Seq<u8>>, n: nat) -> Seq<Seq<u8>>
    decreases n,
{
    if n == 0 {
        Seq::empty()
    } else {
        let u = unique_labels(l, (n - 1) as nat);
        if u.contains(l[n - 1]) {
            u
        } else {
            u.push(l[n - 1])
        }
    }
}

// ----- the executable part -----

fn put_pages(o: &mut Vec<u8>, l: &Vec<KappaPage>)
    ensures
        final(o)@ == old(o)@ + enc_pages(store_of(l@)),
{
    let ghost all = store_of(l@);
    let mut i: usize = 0;
    while i < l.len()
        invariant
            i <= l@.len(),
            all == store_of(l@),
            o@ == old(o)@ + enc_pages(all.take(i as int)),
        decreases l@.len() - i,
    {
        let ghost before = o@;
        put_bytes(o, &l[i].label);
        put_u32(o, l[i].bytes.len() as u32);
        put_bytes(o, l[i].bytes.as_slice());
        proof {
            let x = l@[i as int]@;
            lemma_cat(before, x.label, enc_u32(x.bytes.len() as u32));
            lemma_cat(before, x.label + enc_u32(x.bytes.len() as u32), x.bytes);
            lemma_cat(x.label, enc_u32(x.bytes.len() as u32), x.bytes);
            assert(o@ =~= before + enc_page(x));
            assert(all.take(i + 1).drop_last() =~= all.take(i as int));
            assert(all.take(i + 1).last() == x);
            lemma_cat(old(o)@, enc_pages(all.take(i as int)), enc_page(x));
        }
        i = i + 1;
    }
    assert(all.take(l@.len() as int) =~= all);
}

proof fn lemma_pages_none(b: Seq<u8>, p: int, i: nat, n: nat)
    requires
        i <= n,
        dec_pages(b, p, i) is None,
    ensures
        dec_pages(b, p, n) is None,
    decreases n,
{
    if i < n {
        lemma_pages_none(b, p, i, (n - 1) as nat);
    }
}

/// Read one page, and check it.
fn read_page(s: &mut Snap) -> (r: Option<KappaPage>)
    requires
        old(s).wf(),
    ensures
        final(s).wf(),
        final(s).b@ == old(s).b@,
        ({
            let b = old(s).b@;
            let q = old(s).p as int;
            let len = dec_u32(b, q + 71);
            let bytes = b.subrange(q + 75, q + 75 + len);
            match r {
                Some(x) => old(s).has(75 + len) && x.label@ == b.subrange(q, q + 71) && x.bytes@
                    == bytes && kappa_label(bytes) == x.label@ && final(s).moved(old(s), 75 + len),
                None => !old(s).has(71) || !old(s).has(75) || !old(s).has(75 + len) || kappa_label(
                    bytes,
                ) != b.subrange(q, q + 71),
            }
        }),
{
    let label: [u8; 71] = read_label(s)?;
    let len: u32 = s.u32()?;
    let bytes: Vec<u8> = s.take(len as u64)?;
    if !verify_kappa(bytes.as_slice(), &label) {
        return None;
    }
    Some(KappaPage { label, bytes })
}

/// Read `n` pages, and check each.
fn read_pages(s: &mut Snap, n: u64) -> (r: Option<Vec<KappaPage>>)
    requires
        old(s).wf(),
    ensures
        final(s).wf(),
        final(s).b@ == old(s).b@,
        match r {
            Some(v) => dec_pages(old(s).b@, old(s).p as int, n as nat) == Some(
                (store_of(v@), final(s).p as int),
            ),
            None => dec_pages(old(s).b@, old(s).p as int, n as nat) is None,
        },
{
    let mut v: Vec<KappaPage> = Vec::new();
    assert(store_of(v@) =~= Seq::<KappaPageState>::empty());
    let mut i: u64 = 0;
    while i < n
        invariant
            i <= n,
            s.wf(),
            s.b@ == old(s).b@,
            dec_pages(old(s).b@, old(s).p as int, i as nat) == Some((store_of(v@), s.p as int)),
        decreases n - i,
    {
        let ghost before = store_of(v@);
        match read_page(s) {
            Some(x) => {
                v.push(x);
                assert(store_of(v@) =~= before.push(x@));
                i = i + 1;
            },
            None => {
                proof {
                    assert(dec_pages(old(s).b@, old(s).p as int, (i + 1) as nat) is None);
                    lemma_pages_none(old(s).b@, old(s).p as int, (i + 1) as nat, n as nat);
                }
                return None;
            },
        }
    }
    Some(v)
}

/// What a self-contained snapshot holds.
pub struct Blob {
    pub has_net: bool,
    pub state: Vec<u8>,
    pub ram: Vec<u8>,
}

impl View for Blob {
    type V = BlobState;

    open spec fn view(&self) -> BlobState {
        BlobState { has_net: self.has_net, state: self.state@, ram: self.ram@ }
    }
}

fn read_body(b: &[u8], has_net: bool) -> (r: Option<Blob>)
    requires
        b@.len() >= 8,
    ensures
        match dec_blob_body(b@, has_net) {
            Some(x) => r is Some && r->0@ == x,
            None => r is None,
        },
{
    let mut s: Snap = Snap { b, p: 8 };
    let ram_len: u64 = s.u64()?;
    let state: Vec<u8> = s.blob()?;
    let m: u64 = s.u64()?;
    let labels: Vec<[u8; 71]> = read_labels(&mut s, m)?;
    assert(labels_of(labels@).len() == labels@.len());
    let k: u64 = s.u64()?;
    if ram_len > usize::MAX as u64 {
        return None;
    }
    let pages: Vec<KappaPage> = read_pages(&mut s, k)?;
    let ram: Vec<u8> = rebuild(ram_len as usize, &labels, &pages)?;
    Some(Blob { has_net, state, ram })
}

/// Read a self-contained snapshot, checking every page.
pub fn read_blob(b: &[u8]) -> (r: Option<Blob>)
    ensures
        match dec_kappa_blob(b@) {
            Some(x) => r is Some && r->0@ == x,
            None => r is None,
        },
{
    proof {
        reveal(dec_kappa_blob);
    }
    let mut s: Snap = Snap::new(b);
    let magic: Vec<u8> = s.take(8)?;
    if is_magic(&magic, 0x42, SNAPSHOT_FORMAT_VERSION) {
        read_body(b, true)
    } else if is_magic(&magic, 0x42, SNAPSHOT_FORMAT_VERSION_PREV) {
        read_body(b, false)
    } else {
        None
    }
}

fn holds(l: &Vec<[u8; 71]>, x: &[u8; 71]) -> (r: bool)
    ensures
        r == labels_of(l@).contains(x@),
{
    let mut i: usize = 0;
    while i < l.len()
        invariant
            i <= l@.len(),
            forall|k: int| 0 <= k < i ==> #[trigger] labels_of(l@)[k] != x@,
        decreases l@.len() - i,
    {
        assert(labels_of(l@)[i as int] == l@[i as int]@);
        if same_label(&l[i], x) {
            return true;
        }
        i = i + 1;
    }
    false
}

impl KappaSnapshot {
    /// The labels of the pages a resume needs, each once.
    pub fn wanted(&self) -> (u: Vec<[u8; 71]>)
        ensures
            labels_of(u@) == unique_labels(self@.ram_pages, self@.ram_pages.len()),
    {
        let mut u: Vec<[u8; 71]> = Vec::new();
        assert(labels_of(u@) =~= Seq::<Seq<u8>>::empty());
        let mut i: usize = 0;
        while i < self.ram_pages.len()
            invariant
                i <= self.ram_pages@.len(),
                labels_of(u@) == unique_labels(self@.ram_pages, i as nat),
            decreases self.ram_pages@.len() - i,
        {
            let ghost before = labels_of(u@);
            assert(self@.ram_pages[i as int] == self.ram_pages@[i as int]@);
            if !holds(&u, &self.ram_pages[i]) {
                u.push(self.ram_pages[i]);
                assert(labels_of(u@) =~= before.push(self.ram_pages@[i as int]@));
            }
            i = i + 1;
        }
        u
    }
}

impl Cpu {
    /// The machine as a manifest: its state, and the labels of its memory pages. The pages are those
    /// of [`Cpu::kappa_ram_pages`].
    pub fn snapshot_kappa(&self) -> (k: KappaSnapshot)
        ensures
            k@ == kappa_of(self@),
    {
        let state: Vec<u8> = self.snapshot_state();
        let ram_pages: Vec<[u8; 71]> = label_pages(&self.ram);
        KappaSnapshot { state, ram_pages, ram_len: self.ram.len() }
    }

    /// The memory pages under their labels, each once.
    pub fn kappa_ram_pages(&self) -> (u: Vec<KappaPage>)
        ensures
            store_of(u@) == unique_pages(self@.ram, page_count(self@.ram.len())),
    {
        collect_pages(&self.ram)
    }

    /// The bytes of the manifest.
    pub fn snapshot_kappa_manifest(&self) -> (o: Vec<u8>)
        ensures
            o@ == enc_manifest(kappa_of(self@)),
    {
        self.snapshot_kappa().to_manifest_bytes()
    }

    /// The bytes of the manifest with the disk in the given form, such as an index of its sectors.
    /// A machine without a disk has none in the manifest either.
    pub fn snapshot_kappa_manifest_streaming_disk(&mut self, disk: Vec<u8>) -> (o: Vec<u8>)
        ensures
            o@ == enc_manifest(kappa_with_disk(old(self)@, disk@)),
            final(self)@ == old(self)@,
    {
        let mut other: Option<Vec<u8>> = match &self.sys.disk {
            Some(_) => Some(disk),
            None => None,
        };
        std::mem::swap(&mut other, &mut self.sys.disk);
        assert(self@ =~= with_disk(old(self)@, disk@));
        let state: Vec<u8> = self.snapshot_state();
        std::mem::swap(&mut other, &mut self.sys.disk);
        assert(self@ =~= old(self)@);
        let ram_pages: Vec<[u8; 71]> = label_pages(&self.ram);
        let k: KappaSnapshot = KappaSnapshot { state, ram_pages, ram_len: self.ram.len() };
        k.to_manifest_bytes()
    }

    /// Seal the machine under one label: the label of the manifest, which names every page. The
    /// manifest comes with it.
    pub fn seal_kappa(&self) -> (r: ([u8; 71], Vec<u8>))
        ensures
            r.1@ == enc_manifest(kappa_of(self@)),
            r.0@ == kappa_label(r.1@),
    {
        let manifest: Vec<u8> = self.snapshot_kappa_manifest();
        let label: [u8; 71] = address_bytes(manifest.as_slice());
        (label, manifest)
    }

    /// Resume a manifest with the pages at hand, each checked before use. A malformed state, or a
    /// page that is missing or not what its label says, is refused; the state is in place by the time
    /// the pages are looked at, and memory stays as it was. The verdict of the disk's reader on the
    /// disk in the state is `disk_ok`.
    pub fn restore_kappa(&mut self, k: &KappaSnapshot, store: &Vec<KappaPage>, disk_ok: bool) -> (done:
        bool)
        ensures
            match kappa_resumed(old(self)@, k@, store_of(store@), disk_ok) {
                Some(s) => done && final(self)@ == s,
                None => !done && final(self)@ == state_left(old(self)@, k@.state, true, disk_ok),
            },
    {
        let mut s: Snap = Snap::new(k.state.as_slice());
        let f: Frozen = match Frozen::read(&mut s, true, disk_ok) {
            Some(f) => f,
            None => {
                self.begin_state(k.state.as_slice());
                return false;
            },
        };
        proof {
            reveal(dec_machine);
        }
        match rebuild(k.ram_len, &k.ram_pages, store) {
            Some(ram) => {
                self.thaw(f, ram);
                true
            },
            None => {
                self.take_state(f);
                false
            },
        }
    }

    /// Resume from the bytes of a manifest with the pages at hand, each checked before use; `disk_ok`
    /// is the verdict of the disk's reader. A page that is missing or not what its label says leaves
    /// the machine as it was; a malformed state leaves the registers that were there.
    pub fn restore_kappa_streaming(
        &mut self,
        manifest: &[u8],
        store: &Vec<KappaPage>,
        disk_ok: bool,
    ) -> (done: bool)
        ensures
            match manifest_resumed(old(self)@, manifest@, store_of(store@), disk_ok) {
                Some(s) => done && final(self)@ == s,
                None => !done && final(self)@ == stream_refused(
                    old(self)@,
                    manifest@,
                    store_of(store@),
                ),
            },
    {
        let k: KappaSnapshot = match KappaSnapshot::from_manifest_bytes(manifest) {
            Some(k) => k,
            None => {
                return false;
            },
        };
        let ram: Vec<u8> = match rebuild(k.ram_len, &k.ram_pages, store) {
            Some(ram) => ram,
            None => {
                return false;
            },
        };
        let mut s: Snap = Snap::new(k.state.as_slice());
        match Frozen::read(&mut s, true, disk_ok) {
            Some(f) => {
                proof {
                    reveal(dec_machine);
                }
                self.thaw(f, ram);
                true
            },
            None => {
                self.begin_state(k.state.as_slice());
                false
            },
        }
    }

    /// Resume a sealed machine: the manifest is checked against the label, then the pages against
    /// theirs; `disk_ok` is the verdict of the disk's reader.
    pub fn resume_kappa(
        &mut self,
        label: &[u8; 71],
        manifest: &[u8],
        store: &Vec<KappaPage>,
        disk_ok: bool,
    ) -> (done: bool)
        ensures
            kappa_label(manifest@) != label@ ==> !done && final(self)@ == old(self)@,
            kappa_label(manifest@) == label@ ==> match manifest_resumed(
                old(self)@,
                manifest@,
                store_of(store@),
                disk_ok,
            ) {
                Some(s) => done && final(self)@ == s,
                None => !done && final(self)@ == manifest_refused(old(self)@, manifest@, disk_ok),
            },
    {
        if !verify_kappa(manifest, label) {
            return false;
        }
        match KappaSnapshot::from_manifest_bytes(manifest) {
            Some(k) => self.restore_kappa(&k, store, disk_ok),
            None => false,
        }
    }

    /// The machine as one self-contained snapshot: the manifest, and every page once.
    pub fn snapshot_kappa_blob(&self) -> (o: Vec<u8>)
        ensures
            o@ == enc_kappa_blob(self@),
    {
        broadcast use lemma_cat;

        proof {
            reveal(enc_blob_form);
        }
        let state: Vec<u8> = self.snapshot_state();
        let labels: Vec<[u8; 71]> = label_pages(&self.ram);
        let unique: Vec<KappaPage> = collect_pages(&self.ram);
        let mut o: Vec<u8> = Vec::new();
        put_magic(&mut o, 0x42);
        put_u64(&mut o, self.ram.len() as u64);
        put_blob(&mut o, state.as_slice());
        put_u64(&mut o, labels.len() as u64);
        put_labels(&mut o, &labels);
        put_u64(&mut o, unique.len() as u64);
        put_pages(&mut o, &unique);
        assert(o@ =~= enc_kappa_blob(self@));
        o
    }

    /// What a self-contained snapshot's magic says: current, of another version, or no snapshot at
    /// all.
    pub fn classify_kappa_blob(blob: &[u8]) -> (r: Result<(), Option<u8>>)
        ensures
            r is Ok <==> blob@.len() >= 8 && blob@.subrange(0, 8) == blob_magic(
                SNAPSHOT_FORMAT_VERSION,
            ),
            r matches Err(Some(v)) ==> blob@.len() >= 8 && v == blob@[7] && blob@.subrange(0, 8)
                == blob_magic(v),
            r matches Err(None) ==> blob@.len() < 8 || blob@.subrange(0, 8) != blob_magic(blob@[7]),
    {
        let mut s: Snap = Snap::new(blob);
        match s.take(8) {
            None => Err(None),
            Some(magic) => {
                let v: u8 = magic[7];
                if is_magic(&magic, 0x42, SNAPSHOT_FORMAT_VERSION) {
                    Ok(())
                } else if is_magic(&magic, 0x42, v) {
                    Err(Some(v))
                } else {
                    Err(None)
                }
            },
        }
    }

    /// Resume a self-contained snapshot, every page checked before use; `disk_ok` is the verdict of the
    /// disk's reader on the disk in its state. What is refused before its state leaves the machine as
    /// it was; a malformed state leaves the registers that were there.
    pub fn restore_kappa_blob(&mut self, blob: &[u8], disk_ok: bool) -> (done: bool)
        ensures
            match blob_resumed(old(self)@, blob@, disk_ok) {
                Some(s) => done && final(self)@ == s,
                None => !done && final(self)@ == blob_refused(old(self)@, blob@),
            },
    {
        let x: Blob = match read_blob(blob) {
            Some(x) => x,
            None => {
                return false;
            },
        };
        let mut s: Snap = Snap::new(x.state.as_slice());
        match Frozen::read(&mut s, x.has_net, disk_ok) {
            Some(f) => {
                proof {
                    reveal(dec_machine);
                }
                self.thaw(f, x.ram);
                true
            },
            None => {
                self.begin_state(x.state.as_slice());
                false
            },
        }
    }
}

} // verus!
