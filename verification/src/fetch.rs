//! Fetching the pages of a snapshot over a transport, one label at a time. Each page is checked as it
//! comes, and the first that does not come, or is not what its label says, ends the fetch.
use vstd::prelude::*;
use crate::kappa::{verify_kappa, KappaPage, KappaSnapshot};
#[allow(unused_imports)]
use crate::cpu::CpuState;
#[allow(unused_imports)]
use crate::kappa::{kappa_label, labels_of, lookup, rebuilt, store_of, KappaPageState, KappaState};
#[allow(unused_imports)]
use crate::resume::{kappa_resumed, unique_labels};

verus! {

/// How far a fetch has come: the labels to ask for, the pages that came, and whether it has ended
/// early.
#[verifier::ext_equal]
pub ghost struct FetchState {
    pub wanted: Seq<Seq<u8>>,
    pub pages: Seq<KappaPageState>,
    pub stopped: bool,
}

/// The fetch of a snapshot, before the first page: every label once.
pub open spec fn fetch_begun(k: KappaState) -> FetchState {
    FetchState {
        wanted: unique_labels(k.ram_pages, k.ram_pages.len()),
        pages: Seq::empty(),
        stopped: false,
    }
}

/// The label to ask for next, or `None` where nothing is left to ask for.
pub open spec fn next_label(f: FetchState) -> Option<Seq<u8>> {
    if f.stopped || f.pages.len() >= f.wanted.len() {
        None
    } else {
        Some(f.wanted[f.pages.len() as int])
    }
}

/// The fetch after the answer to its next label.
pub open spec fn fetch_received(f: FetchState, got: Option<Seq<u8>>) -> FetchState {
    match next_label(f) {
        None => f,
        Some(label) => match got {
            Some(bytes) => if kappa_label(bytes) == label {
                FetchState { pages: f.pages.push(KappaPageState { label, bytes }), ..f }
            } else {
                FetchState { stopped: true, ..f }
            },
            None => FetchState { stopped: true, ..f },
        },
    }
}

/// The fetch after a sequence of answers.
pub open spec fn fetched(f: FetchState, got: Seq<Option<Seq<u8>>>) -> FetchState
    decreases got.len(),
{
    if got.len() == 0 {
        f
    } else {
        fetch_received(fetched(f, got.drop_last()), got.last())
    }
}

/// The pages are those of the first labels, in order, each what its label says.
pub open spec fn fetch_sound(f: FetchState) -> bool {
    &&& f.pages.len() <= f.wanted.len()
    &&& f.stopped ==> f.pages.len() < f.wanted.len()
    &&& forall|i: int| 0 <= i < f.pages.len() ==> (#[trigger] f.pages[i]).label == f.wanted[i]
    &&& forall|i: int|
        0 <= i < f.pages.len() ==> kappa_label((#[trigger] f.pages[i]).bytes) == f.pages[i].label
}

/// The bytes of an answer.
pub open spec fn answer_of(got: Option<Vec<u8>>) -> Option<Seq<u8>> {
    match got {
        Some(v) => Some(v@),
        None => None,
    }
}

proof fn lemma_unique_labels(l: Seq<Seq<u8>>, n: nat)
    requires
        n <= l.len(),
    ensures
        forall|i: int, j: int|
            0 <= i < j < unique_labels(l, n).len() ==> #[trigger] unique_labels(l, n)[i]
                != #[trigger] unique_labels(l, n)[j],
        forall|i: int| 0 <= i < n ==> unique_labels(l, n).contains(#[trigger] l[i]),
        forall|i: int|
            0 <= i < unique_labels(l, n).len() ==> l.take(n as int).contains(
                #[trigger] unique_labels(l, n)[i],
            ),
    decreases n,
{
    if n > 0 {
        let m = (n - 1) as nat;
        let u = unique_labels(l, m);
        let v = unique_labels(l, n);
        lemma_unique_labels(l, m);
        assert forall|i: int| 0 <= i < n implies v.contains(#[trigger] l[i]) by {
            if i < m {
                assert(u.contains(l[i]));
                let k = choose|k: int| 0 <= k < u.len() && u[k] == l[i];
                assert(v[k] == l[i]);
            } else if !u.contains(l[i]) {
                assert(v[u.len() as int] == l[i]);
            }
        }
        assert forall|i: int| 0 <= i < v.len() implies l.take(n as int).contains(#[trigger] v[i]) by {
            if i < u.len() {
                assert(l.take(m as int).contains(u[i]));
                let k = choose|k: int| 0 <= k < m && l.take(m as int)[k] == u[i];
                assert(l.take(n as int)[k] == v[i]);
            } else {
                assert(l.take(n as int)[n - 1] == v[i]);
            }
        }
        if !u.contains(l[n - 1]) {
            assert forall|i: int, j: int| 0 <= i < j < v.len() implies #[trigger] v[i]
                != #[trigger] v[j] by {
                if j == u.len() {
                    assert(u[i] != l[n - 1]);
                }
            }
        }
    }
}

/// A fetch asks for every label of the snapshot's pages, and for none twice.
pub proof fn law_fetch_each_once(k: KappaState)
    ensures
        forall|i: int, j: int|
            0 <= i < j < fetch_begun(k).wanted.len() ==> #[trigger] fetch_begun(k).wanted[i]
                != #[trigger] fetch_begun(k).wanted[j],
        forall|l: Seq<u8>|
            #[trigger] fetch_begun(k).wanted.contains(l) <==> k.ram_pages.contains(l),
{
    let n = k.ram_pages.len();
    let u = unique_labels(k.ram_pages, n);
    lemma_unique_labels(k.ram_pages, n);
    assert(k.ram_pages.take(n as int) =~= k.ram_pages);
    assert forall|l: Seq<u8>| #[trigger] u.contains(l) implies k.ram_pages.contains(l) by {
        let i = choose|i: int| 0 <= i < u.len() && u[i] == l;
        assert(k.ram_pages.take(n as int).contains(u[i]));
    }
    assert forall|l: Seq<u8>| k.ram_pages.contains(l) implies #[trigger] u.contains(l) by {
        let i = choose|i: int| 0 <= i < n && k.ram_pages[i] == l;
        assert(u.contains(k.ram_pages[i]));
    }
}

/// Whatever comes, the pages of a fetch are the first of those asked for, each checked, and a fetch
/// that has ended asks for nothing more and takes nothing more.
pub proof fn law_fetch_sound(k: KappaState, got: Seq<Option<Seq<u8>>>, more: Option<Seq<u8>>)
    ensures
        fetch_sound(fetched(fetch_begun(k), got)),
        fetched(fetch_begun(k), got).wanted == fetch_begun(k).wanted,
        next_label(fetched(fetch_begun(k), got)) is None ==> fetched(
            fetch_begun(k),
            got.push(more),
        ) == fetched(fetch_begun(k), got),
    decreases got.len(),
{
    if got.len() > 0 {
        law_fetch_sound(k, got.drop_last(), got.last());
    }
    assert(got.push(more).drop_last() =~= got);
}

/// An answer is taken as it comes: a page that is what its label says is kept, and any other answer
/// to a label ends the fetch there.
pub proof fn law_fetch_stops(k: KappaState, got: Seq<Option<Seq<u8>>>, i: int)
    requires
        0 <= i < got.len(),
        next_label(fetched(fetch_begun(k), got.take(i))) is Some,
        got[i] is Some ==> kappa_label(got[i]->0) != next_label(
            fetched(fetch_begun(k), got.take(i)),
        )->0,
    ensures
        fetched(fetch_begun(k), got).stopped,
        fetched(fetch_begun(k), got).pages == fetched(fetch_begun(k), got.take(i)).pages,
        next_label(fetched(fetch_begun(k), got)) is None,
    decreases got.len(),
{
    if i == got.len() - 1 {
        assert(got.drop_last() =~= got.take(i));
    } else {
        assert(got.drop_last().take(i) =~= got.take(i));
        law_fetch_stops(k, got.drop_last(), i);
    }
}

proof fn lemma_not_there(l: Seq<KappaPageState>, label: Seq<u8>, n: nat)
    requires
        n <= l.len(),
        forall|i: int| 0 <= i < l.len() ==> (#[trigger] l[i]).label != label,
    ensures
        lookup(l, label, n) is None,
    decreases n,
{
    if n > 0 {
        lemma_not_there(l, label, (n - 1) as nat);
    }
}

proof fn lemma_there(l: Seq<KappaPageState>, label: Seq<u8>, n: nat, i: int)
    requires
        0 <= i < n <= l.len(),
        l[i].label == label,
        forall|j: int| 0 <= j < l.len() ==> kappa_label((#[trigger] l[j]).bytes) == l[j].label,
    ensures
        lookup(l, label, n) is Some,
        kappa_label(lookup(l, label, n)->0) == label,
    decreases n,
{
    if l[n - 1].label != label {
        lemma_there(l, label, (n - 1) as nat, i);
    }
}

proof fn lemma_lacking(len: nat, labels: Seq<Seq<u8>>, store: Seq<KappaPageState>, n: nat, i: int)
    requires
        0 <= i < n <= labels.len(),
        lookup(store, labels[i], store.len()) is None,
    ensures
        rebuilt(len, labels, store, n) is None,
    decreases n,
{
    if i < n - 1 {
        lemma_lacking(len, labels, store, (n - 1) as nat, i);
    }
}

proof fn lemma_complete(len: nat, labels: Seq<Seq<u8>>, store: Seq<KappaPageState>, n: nat)
    requires
        n <= labels.len(),
        4096 * (n - 1) <= len,
        forall|i: int|
            0 <= i < labels.len() ==> lookup(store, #[trigger] labels[i], store.len()) is Some
                && kappa_label(lookup(store, labels[i], store.len())->0) == labels[i],
    ensures
        rebuilt(len, labels, store, n) is Some,
    decreases n,
{
    if n > 0 {
        lemma_complete(len, labels, store, (n - 1) as nat);
        assert(lookup(store, labels[n - 1], store.len()) is Some);
    }
}

/// A fetch that has ended early is no snapshot: its pages resume nothing.
pub proof fn law_fetch_refused(
    s: CpuState,
    k: KappaState,
    got: Seq<Option<Seq<u8>>>,
    disk_ok: bool,
)
    requires
        fetched(fetch_begun(k), got).stopped,
    ensures
        kappa_resumed(s, k, fetched(fetch_begun(k), got).pages, disk_ok) is None,
{
    let f = fetched(fetch_begun(k), got);
    law_fetch_sound(k, got, None);
    law_fetch_each_once(k);
    let l = f.wanted[f.pages.len() as int];
    assert(f.wanted.contains(l));
    let i = choose|i: int| 0 <= i < k.ram_pages.len() && k.ram_pages[i] == l;
    assert forall|j: int| 0 <= j < f.pages.len() implies (#[trigger] f.pages[j]).label != l by {
        assert(f.wanted[j] != f.wanted[f.pages.len() as int]);
    }
    lemma_not_there(f.pages, l, f.pages.len());
    lemma_lacking(k.ram_len as nat, k.ram_pages, f.pages, k.ram_pages.len(), i);
}

/// A fetch that has come to its end holds every page of memory, each what its label says: memory can
/// be rebuilt from it wherever the pages lie in memory.
pub proof fn law_fetch_complete(k: KappaState, got: Seq<Option<Seq<u8>>>)
    requires
        next_label(fetched(fetch_begun(k), got)) is None,
        !fetched(fetch_begun(k), got).stopped,
        4096 * (k.ram_pages.len() - 1) <= k.ram_len,
    ensures
        rebuilt(
            k.ram_len as nat,
            k.ram_pages,
            fetched(fetch_begun(k), got).pages,
            k.ram_pages.len(),
        ) is Some,
{
    let f = fetched(fetch_begun(k), got);
    law_fetch_sound(k, got, None);
    law_fetch_each_once(k);
    assert forall|i: int| 0 <= i < k.ram_pages.len() implies lookup(
        f.pages,
        #[trigger] k.ram_pages[i],
        f.pages.len(),
    ) is Some && kappa_label(lookup(f.pages, k.ram_pages[i], f.pages.len())->0) == k.ram_pages[i] by {
        assert(k.ram_pages.contains(k.ram_pages[i]));
        assert(f.wanted.contains(k.ram_pages[i]));
        let j = choose|j: int| 0 <= j < f.wanted.len() && f.wanted[j] == k.ram_pages[i];
        assert(f.pages[j].label == f.wanted[j]);
        lemma_there(f.pages, k.ram_pages[i], f.pages.len(), j);
    }
    lemma_complete(k.ram_len as nat, k.ram_pages, f.pages, k.ram_pages.len());
}

// ----- the executable part -----

/// A fetch of a snapshot's pages.
pub struct Fetching {
    pub wanted: Vec<[u8; 71]>,
    pub pages: Vec<KappaPage>,
    pub stopped: bool,
}

impl View for Fetching {
    type V = FetchState;

    open spec fn view(&self) -> FetchState {
        FetchState {
            wanted: labels_of(self.wanted@),
            pages: store_of(self.pages@),
            stopped: self.stopped,
        }
    }
}

impl Fetching {
    /// Begin to fetch the pages of a snapshot.
    pub fn new(k: &KappaSnapshot) -> (f: Fetching)
        ensures
            f@ == fetch_begun(k@),
    {
        let pages: Vec<KappaPage> = Vec::new();
        assert(store_of(pages@) =~= Seq::<KappaPageState>::empty());
        Fetching { wanted: k.wanted(), pages, stopped: false }
    }

    /// The label to ask the transport for, or `None` where the fetch has ended.
    pub fn next(&self) -> (l: Option<[u8; 71]>)
        ensures
            match next_label(self@) {
                Some(x) => l is Some && l->0@ == x,
                None => l is None,
            },
    {
        if self.stopped || self.pages.len() >= self.wanted.len() {
            None
        } else {
            Some(self.wanted[self.pages.len()])
        }
    }

    /// Take the transport's answer to the next label: a page that is what its label says is kept,
    /// and anything else ends the fetch.
    pub fn receive(&mut self, got: Option<Vec<u8>>)
        ensures
            final(self)@ == fetch_received(old(self)@, answer_of(got)),
    {
        match self.next() {
            None => {},
            Some(label) => match got {
                Some(bytes) => {
                    if verify_kappa(bytes.as_slice(), &label) {
                        let ghost before = store_of(self.pages@);
                        let page: KappaPage = KappaPage { label, bytes };
                        let ghost x = page@;
                        self.pages.push(page);
                        assert(store_of(self.pages@) =~= before.push(x));
                    } else {
                        self.stopped = true;
                    }
                },
                None => {
                    self.stopped = true;
                },
            },
        }
    }
}

} // verus!
