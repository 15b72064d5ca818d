//! The content cache: artifacts keyed by source identity, then by resolved
//! version.
//!
//! The cache is append-only: a `(identity, version)` pair is bound to its
//! bytes once and never overwritten.  Lookup by constraint returns the
//! cached artifact of greatest version precedence among those satisfying the
//! constraint.  Loading from and persisting to disk are the caller's
//! business; the cache exposes its entries for that, and the path-safe
//! encoding of the on-disk names lives in `pathcode`.

use vstd::prelude::*;

use crate::pathcode::{b64_encode, decode_result_ok, lemma_path_segment_roundtrip};
use crate::vercmp::{key_cmp, lemma_key_cmp_antisym, lemma_key_cmp_trans, SemKey};
use crate::version::{req_match, Constraint, SemVer};

verus! {

/// One cached artifact: the bytes of one resolved version of one source.
pub struct CacheEntry {
    pub identity: Vec<u8>,
    pub version: SemVer,
    pub data: Vec<u8>,
}

/// The mathematical value of a cache entry.
pub ghost struct CacheEntryView {
    pub identity: Seq<u8>,
    pub version_text: Seq<u8>,
    pub key: SemKey,
    pub data: Seq<u8>,
}

impl View for CacheEntry {
    type V = CacheEntryView;

    open spec fn view(&self) -> CacheEntryView {
        CacheEntryView {
            identity: self.identity@,
            version_text: self.version.text_view(),
            key: self.version@,
            data: self.data@,
        }
    }
}

impl DeepView for CacheEntry {
    type V = CacheEntryView;

    open spec fn deep_view(&self) -> CacheEntryView {
        self@
    }
}

/// Whether some entry is stored under `(identity, version text)`.
pub open spec fn has_key(es: Seq<CacheEntryView>, id: Seq<u8>, vt: Seq<u8>) -> bool {
    exists|i: int| 0 <= i < es.len() && es[i].identity == id && #[trigger] es[i].version_text == vt
}

/// The bytes stored under `(identity, version text)`, if any.
pub open spec fn stored_data(es: Seq<CacheEntryView>, id: Seq<u8>, vt: Seq<u8>) -> Option<
    Seq<u8>,
> {
    if has_key(es, id, vt) {
        let i = choose|i: int|
            0 <= i < es.len() && es[i].identity == id && #[trigger] es[i].version_text == vt;
        Some(es[i].data)
    } else {
        None
    }
}

/// No two entries share an identity and a version text.
pub open spec fn entries_unique(es: Seq<CacheEntryView>) -> bool {
    forall|i: int, j: int|
        0 <= i < j < es.len() ==> !(es[i].identity == es[j].identity && #[trigger] es[i].version_text
            == #[trigger] es[j].version_text)
}

/// Whether an entry belongs to `id` and satisfies the constraint written `c`.
pub open spec fn entry_satisfies(e: CacheEntryView, id: Seq<u8>, c: Seq<u8>) -> bool {
    e.identity == id && req_match(c, e.version_text)
}

/// The in-memory cache.
pub struct Cache {
    pub entries: Vec<CacheEntry>,
}

impl Cache {
    /// The entries, as mathematical values, in insertion order.
    pub open spec fn entries_view(&self) -> Seq<CacheEntryView> {
        self.entries.deep_view()
    }

    /// The cache's invariant: each `(identity, version)` pair occurs once.
    pub open spec fn wf(&self) -> bool {
        entries_unique(self.entries_view())
    }

    /// An empty cache.
    pub fn new() -> (r: Cache)
        ensures
            r.entries_view() == Seq::<CacheEntryView>::empty(),
            r.wf(),
    {
        let r = Cache { entries: Vec::new() };
        proof {
            assert(r.entries_view() =~= Seq::<CacheEntryView>::empty());
        }
        r
    }

    /// How many artifacts are cached.
    pub fn entry_count(&self) -> (r: usize)
        ensures
            r == self.entries_view().len(),
    {
        self.entries.len()
    }

    /// The `i`-th entry, for walking the cache when persisting it.
    pub fn entry_at(&self, i: usize) -> (r: &CacheEntry)
        requires
            i < self.entries_view().len(),
        ensures
            r@ == self.entries_view()[i as int],
    {
        &self.entries[i]
    }

    /// Whether `(identity, version text)` is already bound.
    pub fn contains_version(&self, identity: &[u8], version_text: &[u8]) -> (r: bool)
        ensures
            r == has_key(self.entries_view(), identity@, version_text@),
    {
        let ghost es = self.entries_view();
        let n: usize = self.entries.len();
        let mut i: usize = 0;
        while i < n
            invariant
                es == self.entries_view(),
                n == es.len(),
                n == self.entries@.len(),
                0 <= i <= n,
                forall|j: int|
                    0 <= j < i ==> !(es[j].identity == identity@ && #[trigger] es[j].version_text
                        == version_text@),
            decreases n - i,
        {
            proof {
                assert(es[i as int] == self.entries@[i as int]@);
            }
            let e: &CacheEntry = &self.entries[i];
            if crate::bytesutil::bytes_eq(e.identity.as_slice(), identity)
                && crate::bytesutil::bytes_eq(e.version.text().as_slice(), version_text) {
                proof {
                    assert(es[i as int].identity == identity@ && es[i as int].version_text
                        == version_text@);
                    assert(has_key(es, identity@, version_text@));
                }
                return true;
            }
            i = i + 1;
        }
        false
    }

    /// Binds `(identity, version)` to `data`.  The cache is
    /// content-addressed: a pair already bound (necessarily to these same
    /// bytes, which the caller must ensure — rebinding a pair to different
    /// bytes is a programming error) is left untouched, and a new pair is
    /// appended.
    pub fn insert(&mut self, identity: Vec<u8>, version: SemVer, data: Vec<u8>)
        requires
            old(self).wf(),
            has_key(old(self).entries_view(), identity@, version.text_view()) ==> stored_data(
                old(self).entries_view(),
                identity@,
                version.text_view(),
            ) == Some(data@),
        ensures
            !has_key(old(self).entries_view(), identity@, version.text_view())
                ==> final(self).entries_view() == old(self).entries_view().push(
                CacheEntryView {
                    identity: identity@,
                    version_text: version.text_view(),
                    key: version@,
                    data: data@,
                },
            ),
            has_key(old(self).entries_view(), identity@, version.text_view())
                ==> final(self).entries_view() == old(self).entries_view(),
            final(self).wf(),
    {
        if self.contains_version(identity.as_slice(), version.text().as_slice()) {
            return;
        }
        let ghost es = self.entries_view();
        let ghost ev = CacheEntryView {
            identity: identity@,
            version_text: version.text_view(),
            key: version@,
            data: data@,
        };
        self.entries.push(CacheEntry { identity, version, data });
        proof {
            assert(self.entries_view() =~~= es.push(ev));
            assert forall|i: int, j: int|
                0 <= i < j < self.entries_view().len() implies !(self.entries_view()[i].identity
                == self.entries_view()[j].identity
                && #[trigger] self.entries_view()[i].version_text
                == #[trigger] self.entries_view()[j].version_text) by {
                if j == es.len() as int {
                    if self.entries_view()[i].identity == ev.identity
                        && self.entries_view()[i].version_text == ev.version_text {
                        assert(has_key(es, ev.identity, ev.version_text));
                    }
                }
            }
        }
    }

    /// The cached artifact for `identity` of greatest version precedence
    /// among those satisfying `constraint`, if any entry satisfies it.
    pub fn lookup(&self, identity: &[u8], constraint: &Constraint) -> (r: Option<&CacheEntry>)
        ensures
            match r {
                Some(e) => {
                    &&& exists|i: int|
                        {
                            &&& 0 <= i < self.entries_view().len()
                            &&& #[trigger] self.entries_view()[i] == e@
                            &&& forall|j: int|
                                0 <= j < i && #[trigger] entry_satisfies(
                                    self.entries_view()[j],
                                    identity@,
                                    constraint.text_view(),
                                ) ==> key_cmp(e@.key, self.entries_view()[j].key) > 0
                        }
                    &&& entry_satisfies(e@, identity@, constraint.text_view())
                    &&& forall|j: int|
                        0 <= j < self.entries_view().len() && #[trigger] entry_satisfies(
                            self.entries_view()[j],
                            identity@,
                            constraint.text_view(),
                        ) ==> key_cmp(e@.key, self.entries_view()[j].key) >= 0
                },
                None => forall|j: int|
                    0 <= j < self.entries_view().len() ==> !#[trigger] entry_satisfies(
                        self.entries_view()[j],
                        identity@,
                        constraint.text_view(),
                    ),
            },
    {
        let ghost es = self.entries_view();
        let ghost c = constraint.text_view();
        let n: usize = self.entries.len();
        let mut best: Option<usize> = None;
        let mut i: usize = 0;
        while i < n
            invariant
                es == self.entries_view(),
                c == constraint.text_view(),
                n == es.len(),
                n == self.entries@.len(),
                0 <= i <= n,
                match best {
                    Some(b) => {
                        &&& 0 <= b < i
                        &&& entry_satisfies(es[b as int], identity@, c)
                        &&& forall|j: int|
                            0 <= j < b && #[trigger] entry_satisfies(es[j], identity@, c)
                                ==> key_cmp(es[b as int].key, es[j].key) > 0
                        &&& forall|j: int|
                            0 <= j < i && #[trigger] entry_satisfies(es[j], identity@, c)
                                ==> key_cmp(es[b as int].key, es[j].key) >= 0
                    },
                    None => forall|j: int|
                        0 <= j < i ==> !#[trigger] entry_satisfies(es[j], identity@, c),
                },
            decreases n - i,
        {
            proof {
                assert(es[i as int] == self.entries@[i as int]@);
            }
            let e: &CacheEntry = &self.entries[i];
            let same_id: bool = crate::bytesutil::bytes_eq(e.identity.as_slice(), identity);
            if same_id && crate::version::constraint_matches(constraint, &e.version) {
                proof {
                    assert(entry_satisfies(es[i as int], identity@, c));
                }
                match best {
                    None => {
                        proof {
                            lemma_key_cmp_antisym(es[i as int].key, es[i as int].key);
                        }
                        best = Some(i);
                    },
                    Some(b) => {
                        proof {
                            assert(es[b as int] == self.entries@[b as int]@);
                        }
                        let cmp: i8 = e.version.precedence_cmp(&self.entries[b].version);
                        if cmp > 0 {
                            proof {
                                let vk = es[i as int].key;
                                let bk = es[b as int].key;
                                lemma_key_cmp_antisym(vk, vk);
                                assert forall|j: int|
                                    0 <= j < i && #[trigger] entry_satisfies(es[j], identity@, c)
                                        implies key_cmp(vk, es[j].key) > 0 by {
                                    let kj = es[j].key;
                                    lemma_key_cmp_antisym(bk, kj);
                                    lemma_key_cmp_antisym(vk, bk);
                                    lemma_key_cmp_trans(kj, bk, vk);
                                    lemma_key_cmp_antisym(kj, vk);
                                }
                            }
                            best = Some(i);
                        } else {
                            proof {
                                lemma_key_cmp_antisym(es[i as int].key, es[b as int].key);
                            }
                        }
                    },
                }
            }
            i = i + 1;
        }
        match best {
            Some(b) => {
                proof {
                    assert(es[b as int] == self.entries@[b as int]@);
                }
                Some(&self.entries[b])
            },
            None => None,
        }
    }
}

/// In-memory round trip: after binding a fresh `(identity, version)` pair to
/// its bytes, those exact bytes are stored under that pair.
pub proof fn lemma_insert_then_stored(es: Seq<CacheEntryView>, e: CacheEntryView)
    requires
        entries_unique(es),
        !has_key(es, e.identity, e.version_text),
    ensures
        stored_data(es.push(e), e.identity, e.version_text) == Some(e.data),
{
    let es2 = es.push(e);
    assert(es2[es.len() as int] == e);
    assert(has_key(es2, e.identity, e.version_text));
    let i = choose|i: int|
        0 <= i < es2.len() && es2[i].identity == e.identity && #[trigger] es2[i].version_text
            == e.version_text;
    if i < es.len() {
        assert(es[i] == es2[i]);
        assert(has_key(es, e.identity, e.version_text));
    }
    assert(es2[i] == e);
}

/// The round trip a persisted entry makes, as far as the library's own
/// contracts reach: a fresh entry's bytes are stored under its pair, and the
/// path-safe names its identity and version are written under decode back to
/// exactly those strings — so reading the cache directory back recovers the
/// same pair bound to the same bytes.  Writing and reading the files
/// themselves is the caller's I/O.
pub proof fn lemma_persisted_entry_recoverable(
    es: Seq<CacheEntryView>,
    e: CacheEntryView,
    identity_decoded: Option<Seq<u8>>,
    version_decoded: Option<Seq<u8>>,
)
    requires
        entries_unique(es),
        !has_key(es, e.identity, e.version_text),
        decode_result_ok(b64_encode(e.identity), identity_decoded),
        decode_result_ok(b64_encode(e.version_text), version_decoded),
    ensures
        identity_decoded == Some(e.identity),
        version_decoded == Some(e.version_text),
        stored_data(es.push(e), e.identity, e.version_text) == Some(e.data),
{
    lemma_path_segment_roundtrip(e.identity, identity_decoded);
    lemma_path_segment_roundtrip(e.version_text, version_decoded);
    lemma_insert_then_stored(es, e);
}

} // verus!
