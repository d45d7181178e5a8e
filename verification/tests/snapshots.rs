//! Snapshots, content-addressed and flat.
use holospaces::cpu::{Cpu, Seg};
use holospaces::kappa::{address_bytes, verify_kappa, KappaPage, KappaSnapshot, KAPPA_PAGE};
use holospaces::virtio::{InputRegs, QueueRegs};

/// A content-addressed store: what is put is kept once, under its label.
struct Store {
    blobs: Vec<KappaPage>,
}

impl Store {
    fn new() -> Store {
        Store { blobs: Vec::new() }
    }

    fn contains(&self, label: &[u8; 71]) -> bool {
        self.blobs.iter().any(|b| b.label == *label)
    }

    fn put(&mut self, bytes: &[u8]) -> [u8; 71] {
        let label = address_bytes(bytes);
        if !self.contains(&label) {
            self.blobs.push(KappaPage { label, bytes: bytes.to_vec() });
        }
        label
    }

    fn get(&self, label: &[u8; 71]) -> Option<Vec<u8>> {
        self.blobs.iter().find(|b| b.label == *label).map(|b| b.bytes.clone())
    }

    /// Snapshot a machine, its pages into the store.
    fn snapshot(&mut self, cpu: &Cpu) -> KappaSnapshot {
        for p in cpu.kappa_ram_pages() {
            assert_eq!(self.put(&p.bytes), p.label);
        }
        cpu.snapshot_kappa()
    }

    /// Seal a machine, its pages and its manifest into the store.
    fn seal(&mut self, cpu: &Cpu) -> [u8; 71] {
        for p in cpu.kappa_ram_pages() {
            self.put(&p.bytes);
        }
        let (label, manifest) = cpu.seal_kappa();
        assert_eq!(self.put(&manifest), label);
        label
    }

    /// Resume a machine from one label.
    fn resume(&self, cpu: &mut Cpu, label: &[u8; 71]) -> bool {
        match self.get(label) {
            Some(manifest) => cpu.resume_kappa(label, &manifest, &self.blobs, true),
            None => false,
        }
    }
}

/// Fetch the wanted pages of a manifest one by one, and count the fetches.
fn fetch(manifest: &[u8], mut get: impl FnMut(&[u8; 71]) -> Option<Vec<u8>>) -> (Vec<KappaPage>, usize) {
    let mut pages = Vec::new();
    let mut n = 0;
    for label in KappaSnapshot::from_manifest_bytes(manifest).expect("manifest").wanted() {
        n += 1;
        if let Some(bytes) = get(&label) {
            pages.push(KappaPage { label, bytes });
        }
    }
    (pages, n)
}

/// The whole machine comes back from a flat snapshot, byte for byte.
#[test]
fn snapshot_restores_core_cpu_state_and_ram() {
    let mut a = Cpu::new(64 * 1024);
    for (i, r) in a.r.iter_mut().enumerate() {
        *r = 0x1111_0000 + i as u64;
    }
    a.rip = 0xdead_beef;
    a.rflags = 0x2 | (1 << 9);
    a.insns = 12345;
    a.cr0 = 0x8000_0011;
    a.cr2 = 0xcafe;
    a.cr3 = 0x1000;
    a.cr4 = 0x20;
    a.efer = 0x500;
    for (i, d) in a.dr.iter_mut().enumerate() {
        *d = 0xd0 + i as u64;
    }
    for (i, x) in a.xmm.iter_mut().enumerate() {
        *x = (0xfeed_0000_0000_0000_0000_0000_0000_0000u128) | (i as u128) << 64 | i as u128;
    }
    a.fpr = [1.5f64, -2.25, 3.0, 0.0, 1e9, -1e-9, 42.0, 7.0].map(f64::to_bits);
    a.ftop = 5;
    a.fcw = 0x027f;
    a.fsw = 0x3800;
    a.ram[0x2000..0x2008].copy_from_slice(&0x0102_0304_0506_0708u64.to_le_bytes());
    a.seg[1] = Seg { selector: 0x10, base: 0, long: true };
    a.cpl = 3;
    a.sys.tsc = 0x1234_5678;
    a.sys.msr.insert(0xC000_0080, 0x500);
    a.sys.msr.insert(0xC000_0100, 0xffff_8000_0000_0000);
    a.sys.uart.output.extend_from_slice(b"early boot log");
    a.sys.pic.request = 0x42;
    a.sys.lapic.svr = 0x1ff;
    a.sys.pit.counter = 0x9999;
    a.sys.dcache = vec![1, 2, 3, 4, 5];
    a.attach_virtio_input(InputRegs {
        regs: QueueRegs {
            status: 0xf,
            device_features_sel: 1,
            driver_features_sel: 1,
            driver_features: (0, 1),
            queue_sel: 1,
            queue_num: (256, 64),
            queue_ready: (1, 1),
            desc_addr: (0x9000, 0xa000),
            avail_addr: (0x9100, 0xa100),
            used_addr: (0x9200, 0xa200),
            last_avail: (7, 3),
            interrupt_status: 1,
        },
        cfg_select: 0x11,
        cfg_subsel: 0x01,
    });

    let snap = a.snapshot();
    // A machine of another size takes it: memory is resized to match.
    let mut b = Cpu::new(4096);
    assert!(b.restore(&snap, true), "snapshot round-trips");

    assert_eq!(b.r, a.r, "GP registers");
    assert_eq!((b.rip, b.rflags, b.insns), (a.rip, a.rflags, a.insns));
    assert_eq!((b.cr0, b.cr2, b.cr3, b.cr4, b.efer), (a.cr0, a.cr2, a.cr3, a.cr4, a.efer));
    assert_eq!(b.dr, a.dr, "debug registers");
    assert_eq!(b.xmm, a.xmm, "SSE registers");
    assert_eq!(b.fpr, a.fpr, "x87 stack");
    assert_eq!((b.ftop, b.fcw, b.fsw), (a.ftop, a.fcw, a.fsw), "x87 TOP + control/status");
    assert_eq!(b.cpl, a.cpl, "CPL");
    let bi = b.sys.input.expect("virtio-input survives resume");
    assert_eq!(
        (bi.regs.queue_ready, bi.regs.desc_addr, bi.regs.last_avail, bi.cfg_select, bi.regs.status),
        ((1, 1), (0x9000, 0xa000), (7, 3), 0x11, 0xf),
        "virtio-input queue registers round-trip",
    );
    assert_eq!(b.ram, a.ram, "RAM restored byte-for-byte (and resized)");
    assert_eq!(b.snapshot(), snap, "the full machine round-trips identically");
    assert!(!b.restore(&snap[..snap.len() - 1], true), "a truncated snapshot is rejected");
}

/// Equal pages are stored once; a resume rebuilds memory exactly, or is refused.
#[test]
fn kappa_snapshot_dedups_ram_and_restores_bit_exact() {
    let mut a = Cpu::new(16 * KAPPA_PAGE);
    a.r[0] = 0x0abc;
    a.rip = 0x4000;
    a.cpl = 3;
    a.sys.tsc = 777;
    a.sys.uart.output.extend_from_slice(b"hi");
    // Page 0 is unique, pages 1 to 14 are zero, page 15 is a copy of page 0.
    a.ram[0..8].copy_from_slice(&0xdead_beef_cafe_babeu64.to_le_bytes());
    let p0 = a.ram[0..KAPPA_PAGE].to_vec();
    a.ram[15 * KAPPA_PAGE..16 * KAPPA_PAGE].copy_from_slice(&p0);

    let mut store = Store::new();
    let snap = store.snapshot(&a);
    assert_eq!(snap.page_count(), 16, "16-page manifest");
    assert_eq!(store.blobs.len(), 2, "16 pages are two distinct ones");

    let mut b = Cpu::new(KAPPA_PAGE);
    assert!(b.restore_kappa(&snap, &store.blobs, true), "the resume verifies and rebuilds");
    assert_eq!(b.ram, a.ram, "RAM rebuilt byte for byte");
    assert_eq!(b.snapshot(), a.snapshot(), "full machine identical");

    let mut c = Cpu::new(KAPPA_PAGE);
    assert!(!c.restore_kappa(&snap, &Store::new().blobs, true), "missing pages are refused");
}

/// A machine is sealed into one label, and resumes from it.
#[test]
fn kappa_snapshot_seal_and_resume_from_one_kappa() {
    let mut a = Cpu::new(16 * KAPPA_PAGE);
    a.r[3] = 0xfeed;
    a.rip = 0x8000;
    a.cpl = 3;
    a.sys.tsc = 4242;
    a.ram[0..8].copy_from_slice(&0x1122_3344_5566_7788u64.to_le_bytes());
    a.ram[15 * KAPPA_PAGE..15 * KAPPA_PAGE + 8].copy_from_slice(&0x99u64.to_le_bytes());

    let mut store = Store::new();
    let snap = store.snapshot(&a);
    let manifest = snap.to_manifest_bytes();
    let reparsed = KappaSnapshot::from_manifest_bytes(&manifest).expect("manifest parses");
    assert_eq!(reparsed.to_manifest_bytes(), manifest, "manifest round-trips");
    assert_eq!(reparsed.page_count(), snap.page_count());

    let kappa = store.seal(&a);
    let mut b = Cpu::new(KAPPA_PAGE);
    assert!(store.resume(&mut b, &kappa), "resume from the sealed label");
    assert_eq!(b.ram, a.ram, "RAM bit-exact");
    assert_eq!(b.snapshot(), a.snapshot(), "full machine identical");

    let mut c = Cpu::new(KAPPA_PAGE);
    let not_a_manifest = store.put(b"not a manifest");
    assert!(!store.resume(&mut c, &not_a_manifest), "a label of something else is refused");

    let mut d = Cpu::new(KAPPA_PAGE);
    assert!(!Store::new().resume(&mut d, &kappa), "a label missing from the store is refused");
}

/// A second host pulls manifest and pages by label, checks each on receipt, and resumes; what a
/// forger serves is refused.
#[test]
fn kappa_snapshot_resumes_on_a_second_peer_over_content_net() {
    fn receive(label: &[u8; 71], served: Option<Vec<u8>>) -> Option<Vec<u8>> {
        served.filter(|b| verify_kappa(b, label))
    }

    let mut a = Cpu::new(16 * KAPPA_PAGE);
    a.r[5] = 0x00c0_ffee;
    a.rip = 0x1234;
    a.sys.tsc = 1000;
    a.ram[0..8].copy_from_slice(&0xabad_1dea_dead_c0deu64.to_le_bytes());
    a.ram[7 * KAPPA_PAGE..7 * KAPPA_PAGE + 4].copy_from_slice(&[1, 2, 3, 4]);

    let mut a_store = Store::new();
    let snapshot_kappa = a_store.seal(&a);

    let mut b_store = Store::new();
    let manifest = receive(&snapshot_kappa, a_store.get(&snapshot_kappa)).expect("fetch manifest");
    b_store.put(&manifest);
    let snap = KappaSnapshot::from_manifest_bytes(&manifest).expect("manifest");
    let mut fetched = 0usize;
    for k in snap.page_kappas() {
        if b_store.contains(k) {
            continue;
        }
        let page = receive(k, a_store.get(k)).expect("fetch page");
        b_store.put(&page);
        fetched += 1;
    }

    let mut b = Cpu::new(KAPPA_PAGE);
    assert!(b_store.resume(&mut b, &snapshot_kappa), "B resumes");
    assert_eq!(b.ram, a.ram, "B's RAM is byte-identical to A");
    assert_eq!(b.snapshot(), a.snapshot(), "B is A");
    assert!(fetched < snap.page_count(), "{fetched} unique pages fetched");

    let forged = Some(b"forged-bytes".to_vec());
    assert!(receive(&snapshot_kappa, forged.clone()).is_none(), "forged bytes are refused on receipt");
    let mut victim = Cpu::new(KAPPA_PAGE);
    let before = victim.snapshot();
    assert!(!victim.resume_kappa(&snapshot_kappa, &forged.unwrap(), &a_store.blobs, true));
    assert_eq!(victim.snapshot(), before, "a refused resume changes nothing");
}

/// The self-contained form is smaller than the flat one, and checks its pages.
#[test]
fn kappa_snapshot_blob_dedups_and_restores_bit_exact() {
    let mut a = Cpu::new(16 * KAPPA_PAGE);
    a.r[2] = 0xbeef;
    a.rip = 0x5000;
    a.sys.tsc = 55;
    a.ram[0..8].copy_from_slice(&0xfeed_face_dead_beefu64.to_le_bytes());
    a.ram[9 * KAPPA_PAGE..9 * KAPPA_PAGE + 8].copy_from_slice(&0x42u64.to_le_bytes());

    let blob = a.snapshot_kappa_blob();
    let flat = a.snapshot();
    assert!(blob.len() < flat.len(), "the blob ({}) is smaller than the flat snapshot ({})", blob.len(), flat.len());

    let mut b = Cpu::new(KAPPA_PAGE);
    assert!(b.restore_kappa_blob(&blob, true), "the blob resumes");
    assert_eq!(b.ram, a.ram, "RAM rebuilt byte for byte");
    assert_eq!(b.snapshot(), flat, "full machine identical");

    let mut tampered = blob.clone();
    let last = tampered.len() - 1;
    tampered[last] ^= 0xff;
    assert!(!Cpu::new(KAPPA_PAGE).restore_kappa_blob(&tampered, true), "a tampered blob is refused");
    assert!(!Cpu::new(KAPPA_PAGE).restore_kappa_blob(&blob[..blob.len() / 2], true), "a truncated blob is refused");
}

/// Pages are fetched one by one and checked on receipt; forged and missing pages are refused.
#[test]
fn kappa_streaming_resume_fetches_by_kappa_and_refuses_forgery() {
    let mut a = Cpu::new(16 * KAPPA_PAGE);
    a.r[1] = 0xcafe;
    a.rip = 0x6000;
    a.sys.tsc = 7;
    a.ram[0..8].copy_from_slice(&0x1111_2222_3333_4444u64.to_le_bytes());
    a.ram[5 * KAPPA_PAGE..5 * KAPPA_PAGE + 4].copy_from_slice(&[9, 8, 7, 6]);

    let mut store = Store::new();
    let snap = store.snapshot(&a);
    let manifest = a.snapshot_kappa_manifest();
    assert_eq!(manifest, snap.to_manifest_bytes(), "manifest matches the seal");

    let (pages, fetched) = fetch(&manifest, |k| store.get(k));
    let mut b = Cpu::new(KAPPA_PAGE);
    assert!(b.restore_kappa_streaming(&manifest, &pages, true), "streaming resume rebuilds");
    assert_eq!(b.ram, a.ram, "RAM bit-exact via streamed pages");
    assert_eq!(b.snapshot(), a.snapshot(), "full machine identical after a streamed resume");
    assert!(fetched < a.ram.len() / KAPPA_PAGE, "{fetched} unique fetches < 16 pages");

    let (pages, _) = fetch(&manifest, |_| Some(vec![0xaau8; KAPPA_PAGE]));
    let mut c = Cpu::new(KAPPA_PAGE);
    assert!(!c.restore_kappa_streaming(&manifest, &pages, true), "forged pages are refused");
    let (pages, _) = fetch(&manifest, |_| None);
    let mut d = Cpu::new(KAPPA_PAGE);
    assert!(!d.restore_kappa_streaming(&manifest, &pages, true), "a missing page is refused");
}

/// The label is the published BLAKE3 digest, in lower-case hexadecimal.
#[test]
fn labels_are_blake3_digests() {
    let empty = address_bytes(&[]);
    assert_eq!(
        &empty[..],
        &b"blake3:af1349b9f5f9a1a6a0404dea36dcc9499bcb25c9adc112b7cc9a93cae41f3262"[..]
    );
    assert!(verify_kappa(&[], &empty));
    assert!(!verify_kappa(b"x", &empty));
}

/// An older version is told apart from damage.
#[test]
fn other_versions_are_classified() {
    let a = Cpu::new(KAPPA_PAGE);
    let blob = a.snapshot_kappa_blob();
    assert_eq!(Cpu::classify_kappa_blob(&blob), Ok(()));
    let mut older = blob.clone();
    older[7] = 0x32;
    assert_eq!(Cpu::classify_kappa_blob(&older), Err(Some(0x32)));
    assert!(!Cpu::new(KAPPA_PAGE).restore_kappa_blob(&older, true));
    assert_eq!(Cpu::classify_kappa_blob(b"short"), Err(None));
    let mut other = blob.clone();
    other[0] ^= 1;
    assert_eq!(Cpu::classify_kappa_blob(&other), Err(None));
}

/// Malformed manifests are refused.
#[test]
fn malformed_manifests_are_refused() {
    let a = Cpu::new(2 * KAPPA_PAGE);
    let m = a.snapshot_kappa_manifest();
    assert!(KappaSnapshot::from_manifest_bytes(&m).is_some());
    assert!(KappaSnapshot::from_manifest_bytes(&m[..m.len() - 1]).is_none());
    assert!(KappaSnapshot::from_manifest_bytes(b"").is_none());
    let mut bad = m.clone();
    bad[0] ^= 1;
    assert!(KappaSnapshot::from_manifest_bytes(&bad).is_none());
    let mut label = m.clone();
    let n = label.len();
    label[n - 1] = b'G';
    assert!(KappaSnapshot::from_manifest_bytes(&label).is_none());
}
