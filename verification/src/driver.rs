//! The resolution driver: a state machine that solves one package's
//! dependencies in declaration order.
//!
//! The machine performs no I/O itself.  Each call of `step` consumes one
//! event (the outcome of the previous action) and returns the next action
//! for the caller to perform: list a source's release tags, fetch an archive
//! for a resolved version, extract the script files at an inner path from
//! archive bytes, or write a merged output file.  All decisions — cache
//! lookup, constraint resolution, cache insertion and the merge — happen
//! inside the machine and are verified.  The cache only ever grows, and a
//! downloaded archive enters it only once its files extract, so a failed
//! listing, download or extraction leaves the cache exactly as it was (no
//! partial or corrupt entries) and never stops the failed dependency's
//! siblings; each failure is recorded with its dependency's name.  The machine asks
//! for one action at a time, so at most one fetch is ever in flight for any
//! `(identity, version)` pair — the single-flight discipline the cache's
//! content-addressing rests on.

use vstd::prelude::*;

use crate::cache::{entry_satisfies, Cache, CacheEntryView};
use crate::csharp_parse::{merged, ScriptFile};
use crate::package::MPMDependency;
use crate::package_source::{compile_output, output_header};
use crate::vercmp::key_cmp;
use crate::version::{req_match, resolution_ok, resolve, no_candidate, SemVer};

verus! {

/// Why one dependency's resolution failed.  A failure is fatal only for
/// that dependency; its siblings still run.
#[derive(Debug, Clone, Copy, PartialEq, Eq, Structural)]
pub enum SolveError {
    /// No release tag satisfies the dependency's constraint.
    NoCompatibleVersion,
    /// Listing releases, downloading the archive, or reading the archive's
    /// files failed.
    FetchError,
    /// The merged output could not be written.
    WriteError,
}

/// One recorded failure: which dependency, and why.
pub struct Failure {
    pub dep_name: Vec<u8>,
    pub error: SolveError,
}

/// What the driver asks its caller to do next.
pub enum Action {
    /// List the release tags of the source at `identity`.
    ListReleases { identity: Vec<u8> },
    /// Download the archive of `identity` at the resolved `version`.
    FetchArchive { identity: Vec<u8>, version: SemVer },
    /// Unpack `data` and read the script files at `inner_path`.
    ExtractFiles { data: Vec<u8>, inner_path: Vec<u8> },
    /// Write `content` to `path`, replacing any prior file.
    WriteOutput { path: Vec<u8>, content: Vec<u8> },
    /// Every dependency has been handled.
    Done,
}

/// What the caller reports back.  `None` in `Tags`, `Archive` or `Files`
/// means the corresponding action failed.
pub enum Event {
    /// Begin with the first dependency.
    Start,
    /// The release tags of the listed source.
    Tags { tags: Option<Vec<Vec<u8>>> },
    /// The downloaded archive bytes.
    Archive { data: Option<Vec<u8>> },
    /// The extracted script files.
    Files { files: Option<Vec<ScriptFile>> },
    /// Whether the output file was written.
    Written { ok: bool },
}

/// Where the machine stands with the current dependency.
pub enum Phase {
    /// Not yet started.
    Ready,
    /// A release listing is under way.
    AwaitTags,
    /// An archive download for the resolved version is under way.
    AwaitArchive { version: SemVer },
    /// File extraction for this version's artifact is under way.  For a
    /// freshly downloaded artifact, `pending` holds its bytes, to be cached
    /// only once extraction succeeds; for a cache hit it is `None`.
    AwaitFiles { version: SemVer, pending: Option<Vec<u8>> },
    /// The merged output is being written.
    AwaitWrite,
    /// All dependencies handled.
    Finished,
}

/// The driver for one package: its dependencies, how far it has come, the
/// cache it threads through them, and the failures seen so far.
///
/// Dependencies found inside a fetched tree are a natural recursive
/// extension: a further driver over them threads the same cache, and since
/// every step only ever appends to the cache, nested drivers compose
/// soundly.  Such an extension must detect cycles over source identities;
/// the present feature set resolves one level and needs none.
pub struct PackageSolver {
    pub deps: Vec<MPMDependency>,
    pub idx: usize,
    pub phase: Phase,
    pub cache: Cache,
    pub failures: Vec<Failure>,
}

impl PackageSolver {
    /// No cached artifact of the current dependency's source satisfies its
    /// constraint.
    pub open spec fn cache_miss(self) -> bool {
        forall|j: int|
            0 <= j < self.cache.entries_view().len() ==> !#[trigger] entry_satisfies(
                self.cache.entries_view()[j],
                self.deps@[self.idx as int].source.source_url@,
                self.deps@[self.idx as int].source.version_req.text_view(),
            )
    }

    /// The machine's invariant: the cache is well formed, the index stays
    /// in range, and each phase carries what its next step needs — in
    /// particular, an archive is only ever downloaded, and its bytes only
    /// ever held pending, after a cache miss, for a version that satisfies
    /// the constraint, so the artifact can enter the cache as a fresh entry
    /// once its files extract.
    pub open spec fn wf(self) -> bool {
        &&& self.cache.wf()
        &&& self.idx <= self.deps@.len()
        &&& match self.phase {
            Phase::Ready => true,
            Phase::AwaitTags => self.idx < self.deps@.len() && self.cache_miss(),
            Phase::AwaitArchive { version } => self.idx < self.deps@.len() && self.cache_miss()
                && req_match(
                self.deps@[self.idx as int].source.version_req.text_view(),
                version.text_view(),
            ),
            Phase::AwaitFiles { version, pending } => self.idx < self.deps@.len() && (pending
                is Some ==> self.cache_miss() && req_match(
                self.deps@[self.idx as int].source.version_req.text_view(),
                version.text_view(),
            )),
            Phase::AwaitWrite => self.idx < self.deps@.len(),
            Phase::Finished => self.idx == self.deps@.len(),
        }
    }

    /// Which events the machine is ready for.
    pub open spec fn accepts(self, event: Event) -> bool {
        match event {
            Event::Start => self.phase is Ready,
            Event::Tags { .. } => self.phase is AwaitTags,
            Event::Archive { .. } => self.phase is AwaitArchive,
            Event::Files { .. } => self.phase is AwaitFiles,
            Event::Written { .. } => self.phase is AwaitWrite,
        }
    }
}

/// The best cached entry for the dependency at `idx`: entry `j` belongs to
/// the dependency's source, satisfies its constraint, no satisfying entry
/// outranks it, and action and phase carry its artifact and version.
pub open spec fn hit_at(
    deps: Seq<MPMDependency>,
    es: Seq<CacheEntryView>,
    idx: int,
    j: int,
    post: PackageSolver,
    action: Action,
) -> bool {
    let dep = deps[idx];
    let id = dep.source.source_url@;
    let c = dep.source.version_req.text_view();
    &&& 0 <= j < es.len()
    &&& entry_satisfies(es[j], id, c)
    &&& forall|k: int|
        0 <= k < es.len() && #[trigger] entry_satisfies(es[k], id, c) ==> key_cmp(
            es[j].key,
            es[k].key,
        ) >= 0
    &&& (action matches Action::ExtractFiles { data, inner_path } && data@ == es[j].data
        && inner_path@ == dep.source.inner_path@)
    &&& (post.phase matches Phase::AwaitFiles { version, pending } && version.text_view()
        == es[j].version_text && version@ == es[j].key && pending is None)
}

/// Starting the dependency at `idx` (or finishing): on a cache hit the
/// artifact goes straight to extraction; on a miss the source's releases
/// are listed; past the last dependency the machine is done.
pub open spec fn begin_case(
    deps: Seq<MPMDependency>,
    es: Seq<CacheEntryView>,
    idx: int,
    post: PackageSolver,
    action: Action,
) -> bool {
    if idx == deps.len() {
        &&& post.phase is Finished
        &&& action is Done
    } else {
        ||| exists|j: int| #[trigger] hit_at(deps, es, idx, j, post, action)
        ||| {
            &&& forall|j: int|
                0 <= j < es.len() ==> !#[trigger] entry_satisfies(
                    es[j],
                    deps[idx].source.source_url@,
                    deps[idx].source.version_req.text_view(),
                )
            &&& (action matches Action::ListReleases { identity } && identity@
                == deps[idx].source.source_url@)
            &&& post.phase is AwaitTags
        }
    }
}

/// The machine moves on to dependency `next` with deps, cache and index as
/// stated, and acts per `begin_case`.
pub open spec fn resumes(
    pre: PackageSolver,
    next: int,
    post: PackageSolver,
    action: Action,
) -> bool {
    &&& post.deps@ == pre.deps@
    &&& post.cache.entries_view() == pre.cache.entries_view()
    &&& post.idx == next
    &&& begin_case(pre.deps@, pre.cache.entries_view(), next, post, action)
}

/// A failure of the current dependency was appended, with its name and the
/// given error; earlier records are untouched.
pub open spec fn failure_recorded(
    pre: PackageSolver,
    err: SolveError,
    fs: Seq<Failure>,
) -> bool {
    &&& fs.len() == pre.failures@.len() + 1
    &&& forall|i: int| 0 <= i < pre.failures@.len() ==> fs[i] == pre.failures@[i]
    &&& fs.last().dep_name@ == pre.deps@[pre.idx as int].name@
    &&& fs.last().error == err
}

/// The full transition relation of one step.
pub open spec fn step_post(
    pre: PackageSolver,
    event: Event,
    post: PackageSolver,
    action: Action,
) -> bool {
    let dep = pre.deps@[pre.idx as int];
    let c = dep.source.version_req.text_view();
    match event {
        Event::Start => {
            &&& post.failures@ == pre.failures@
            &&& resumes(pre, pre.idx as int, post, action)
        },
        Event::Tags { tags } => match tags {
            None => {
                &&& failure_recorded(pre, SolveError::FetchError, post.failures@)
                &&& resumes(pre, pre.idx + 1, post, action)
            },
            Some(ts) => {
                ||| {
                    &&& post.deps@ == pre.deps@
                    &&& post.cache.entries_view() == pre.cache.entries_view()
                    &&& post.failures@ == pre.failures@
                    &&& post.idx == pre.idx
                    &&& (post.phase matches Phase::AwaitArchive { version } && resolution_ok(
                        c,
                        ts.deep_view(),
                        version,
                    ) && (action matches Action::FetchArchive { identity, version: av }
                        && identity@ == dep.source.source_url@ && av.text_view()
                        == version.text_view() && av@ == version@))
                }
                ||| {
                    &&& no_candidate(c, ts.deep_view())
                    &&& failure_recorded(pre, SolveError::NoCompatibleVersion, post.failures@)
                    &&& resumes(pre, pre.idx + 1, post, action)
                }
            },
        },
        Event::Archive { data } => match data {
            None => {
                &&& failure_recorded(pre, SolveError::FetchError, post.failures@)
                &&& resumes(pre, pre.idx + 1, post, action)
            },
            Some(d) => {
                &&& post.deps@ == pre.deps@
                &&& post.cache.entries_view() == pre.cache.entries_view()
                &&& post.failures@ == pre.failures@
                &&& post.idx == pre.idx
                &&& (pre.phase matches Phase::AwaitArchive { version } ==> (post.phase
                    matches Phase::AwaitFiles { version: v2, pending } && v2.text_view()
                    == version.text_view() && v2@ == version@ && (pending matches Some(p) && p@
                    == d@)))
                &&& (action matches Action::ExtractFiles { data: d2, inner_path } && d2@ == d@
                    && inner_path@ == dep.source.inner_path@)
            },
        },
        Event::Files { files } => match files {
            None => {
                &&& failure_recorded(pre, SolveError::FetchError, post.failures@)
                &&& resumes(pre, pre.idx + 1, post, action)
            },
            Some(fs) => {
                &&& post.deps@ == pre.deps@
                &&& post.failures@ == pre.failures@
                &&& post.idx == pre.idx
                &&& post.phase is AwaitWrite
                &&& (pre.phase matches Phase::AwaitFiles { version, pending } ==> {
                    &&& (action matches Action::WriteOutput { path, content } && path@
                        == dep.path_buf@ && content@ == merged(
                        output_header(dep.source.source_url@, version.text_view()),
                        dep.name@,
                        fs.deep_view(),
                    ))
                    &&& (pending matches Some(p) ==> post.cache.entries_view()
                        == pre.cache.entries_view().push(
                        CacheEntryView {
                            identity: dep.source.source_url@,
                            version_text: version.text_view(),
                            key: version@,
                            data: p@,
                        },
                    ))
                    &&& (pending is None ==> post.cache.entries_view()
                        == pre.cache.entries_view())
                })
            },
        },
        Event::Written { ok } => {
            if ok {
                &&& post.failures@ == pre.failures@
                &&& resumes(pre, pre.idx + 1, post, action)
            } else {
                &&& failure_recorded(pre, SolveError::WriteError, post.failures@)
                &&& resumes(pre, pre.idx + 1, post, action)
            }
        },
    }
}

impl PackageSolver {
    /// A fresh driver over the given dependencies, threading the given
    /// cache.
    pub fn new(deps: Vec<MPMDependency>, cache: Cache) -> (r: PackageSolver)
        requires
            cache.wf(),
        ensures
            r.wf(),
            r.deps@ == deps@,
            r.cache.entries_view() == cache.entries_view(),
            r.failures@ == Seq::<Failure>::empty(),
            r.idx == 0,
            r.phase is Ready,
    {
        let r = PackageSolver { deps, idx: 0, phase: Phase::Ready, cache, failures: Vec::new() };
        proof {
            assert(r.failures@ =~= Seq::<Failure>::empty());
        }
        r
    }

    /// Hands back the threaded cache and the recorded failures.
    pub fn finish(self) -> (r: (Cache, Vec<Failure>))
        ensures
            r.0.entries_view() == self.cache.entries_view(),
            r.0.wf() == self.cache.wf(),
            r.1@ == self.failures@,
    {
        (self.cache, self.failures)
    }

    /// Starts the dependency at `self.idx`: a cache hit goes straight to
    /// extraction, a miss asks for the release listing, and past the last
    /// dependency the machine finishes.
    fn begin(&mut self) -> (a: Action)
        requires
            old(self).cache.wf(),
            old(self).idx <= old(self).deps@.len(),
        ensures
            final(self).wf(),
            final(self).deps@ == old(self).deps@,
            final(self).cache.entries_view() == old(self).cache.entries_view(),
            final(self).cache.wf(),
            final(self).failures@ == old(self).failures@,
            final(self).idx == old(self).idx,
            begin_case(
                old(self).deps@,
                old(self).cache.entries_view(),
                old(self).idx as int,
                *final(self),
                a,
            ),
    {
        if self.idx == self.deps.len() {
            self.phase = Phase::Finished;
            return Action::Done;
        }
        let dep: &MPMDependency = &self.deps[self.idx];
        let found: Option<&crate::cache::CacheEntry> = self.cache.lookup(
            dep.source.source_url.as_slice(),
            &dep.source.version_req,
        );
        match found {
            Some(e) => {
                let version: SemVer = e.version.duplicate();
                let data: Vec<u8> = e.data.clone();
                proof {
                    assert(data@ =~= e.data@);
                }
                let inner_path: Vec<u8> = dep.source.inner_path.clone();
                proof {
                    assert(inner_path@ =~= dep.source.inner_path@);
                }
                let ghost ev = e@;
                let ghost es = self.cache.entries_view();
                self.phase = Phase::AwaitFiles { version, pending: None };
                let a = Action::ExtractFiles { data, inner_path };
                proof {
                    let j = choose|j: int| 0 <= j < es.len() && #[trigger] es[j] == ev;
                    assert(hit_at(self.deps@, es, self.idx as int, j, *self, a));
                }
                a
            },
            None => {
                let identity: Vec<u8> = dep.source.source_url.clone();
                proof {
                    assert(identity@ =~= dep.source.source_url@);
                }
                self.phase = Phase::AwaitTags;
                Action::ListReleases { identity }
            },
        }
    }

    /// Records a failure of the current dependency and moves on to the
    /// next one.
    fn fail_dep(&mut self, error: SolveError) -> (a: Action)
        requires
            old(self).cache.wf(),
            old(self).idx < old(self).deps@.len(),
        ensures
            final(self).wf(),
            final(self).deps@ == old(self).deps@,
            final(self).cache.entries_view() == old(self).cache.entries_view(),
            final(self).idx == old(self).idx + 1,
            failure_recorded(*old(self), error, final(self).failures@),
            begin_case(
                old(self).deps@,
                old(self).cache.entries_view(),
                old(self).idx + 1,
                *final(self),
                a,
            ),
    {
        let n: usize = self.deps.len();
        let dep_name: Vec<u8> = self.deps[self.idx].name.clone();
        proof {
            assert(dep_name@ =~= self.deps@[self.idx as int].name@);
            assert(self.idx < n);
        }
        self.failures.push(Failure { dep_name, error });
        self.idx = self.idx + 1;
        self.begin()
    }

    /// Consumes one event and returns the next action.  The transition
    /// relation `step_post` states everything one step does; across every
    /// step the cache only grows, dependencies are handled in declaration
    /// order, and a failure of one dependency is recorded and never stops
    /// the rest.
    pub fn step(&mut self, event: Event) -> (a: Action)
        requires
            old(self).wf(),
            old(self).accepts(event),
        ensures
            final(self).wf(),
            step_post(*old(self), event, *final(self), a),
    {
        match event {
            Event::Start => self.begin(),
            Event::Tags { tags } => match tags {
                None => self.fail_dep(SolveError::FetchError),
                Some(ts) => {
                    let dep: &MPMDependency = &self.deps[self.idx];
                    match resolve(&dep.source.version_req, &ts) {
                        Ok(v) => {
                            let identity: Vec<u8> = dep.source.source_url.clone();
                            proof {
                                assert(identity@ =~= dep.source.source_url@);
                            }
                            let av: SemVer = v.duplicate();
                            let ghost cspec = dep.source.version_req.text_view();
                            proof {
                                // The resolved version satisfies the constraint.
                                let i = choose|i: int|
                                    {
                                        &&& 0 <= i < ts.deep_view().len()
                                        &&& #[trigger] crate::version::tag_satisfies(
                                            cspec,
                                            ts.deep_view()[i],
                                        )
                                        &&& v.text_view() == crate::version::strip_v_spec(
                                            ts.deep_view()[i],
                                        )
                                        &&& forall|j: int|
                                            0 <= j < i && #[trigger] crate::version::tag_satisfies(
                                                cspec,
                                                ts.deep_view()[j],
                                            ) ==> key_cmp(
                                                v@,
                                                crate::version::tag_key(ts.deep_view()[j])->0,
                                            ) > 0
                                    };
                                assert(req_match(cspec, v.text_view()));
                            }
                            self.phase = Phase::AwaitArchive { version: v };
                            Action::FetchArchive { identity, version: av }
                        },
                        Err(_) => self.fail_dep(SolveError::NoCompatibleVersion),
                    }
                },
            },
            Event::Archive { data } => match data {
                None => self.fail_dep(SolveError::FetchError),
                Some(d) => {
                    let version: SemVer = match &self.phase {
                        Phase::AwaitArchive { version } => version.duplicate(),
                        _ => {
                            // Unreachable: `accepts` admits `Archive` only
                            // in the archive-awaiting phase.
                            proof {
                                assert(false);
                            }
                            return Action::Done;
                        },
                    };
                    let d2: Vec<u8> = d.clone();
                    proof {
                        assert(d2@ =~= d@);
                    }
                    let inner_path: Vec<u8> = self.deps[self.idx].source.inner_path.clone();
                    proof {
                        assert(inner_path@ =~= self.deps@[self.idx as int].source.inner_path@);
                    }
                    // The bytes stay pending: they enter the cache only once
                    // their files extract, so a malformed archive leaves the
                    // cache untouched.
                    self.phase = Phase::AwaitFiles { version, pending: Some(d) };
                    Action::ExtractFiles { data: d2, inner_path }
                },
            },
            Event::Files { files } => match files {
                None => self.fail_dep(SolveError::FetchError),
                Some(fs) => {
                    let mut taken: Phase = Phase::AwaitWrite;
                    core::mem::swap(&mut self.phase, &mut taken);
                    let (version, pending): (SemVer, Option<Vec<u8>>) = match taken {
                        Phase::AwaitFiles { version, pending } => (version, pending),
                        _ => {
                            // Unreachable: `accepts` admits `Files` only in
                            // the extraction-awaiting phase.
                            proof {
                                assert(false);
                            }
                            return Action::Done;
                        },
                    };
                    match pending {
                        Some(d) => {
                            // The extraction succeeded, so the downloaded
                            // artifact now enters the cache; the key is
                            // fresh, as any cached entry under it would
                            // satisfy the constraint, against the recorded
                            // miss.
                            let identity: Vec<u8> = self.deps[self.idx].source.source_url.clone();
                            proof {
                                assert(identity@
                                    =~= self.deps@[self.idx as int].source.source_url@);
                                let es = self.cache.entries_view();
                                let id = self.deps@[self.idx as int].source.source_url@;
                                let c =
                                    self.deps@[self.idx as int].source.version_req.text_view();
                                if crate::cache::has_key(es, id, version.text_view()) {
                                    let j = choose|j: int|
                                        0 <= j < es.len() && es[j].identity == id
                                            && #[trigger] es[j].version_text
                                            == version.text_view();
                                    assert(entry_satisfies(es[j], id, c));
                                }
                            }
                            let vc: SemVer = version.duplicate();
                            self.cache.insert(identity, vc, d);
                        },
                        None => {},
                    }
                    let dep: &MPMDependency = &self.deps[self.idx];
                    let content: Vec<u8> = compile_output(
                        dep.source.source_url.as_slice(),
                        &version,
                        dep.name.as_slice(),
                        &fs,
                    );
                    let path: Vec<u8> = dep.path_buf.clone();
                    proof {
                        assert(path@ =~= dep.path_buf@);
                    }
                    Action::WriteOutput { path, content }
                },
            },
            Event::Written { ok } => {
                if ok {
                    let n: usize = self.deps.len();
                    proof {
                        assert(self.idx < n);
                    }
                    self.idx = self.idx + 1;
                    self.begin()
                } else {
                    self.fail_dep(SolveError::WriteError)
                }
            },
        }
    }
}

impl MPMDependency {
    /// The driver that solves this one dependency, threading the given
    /// cache: callers run it by performing its actions and feeding the
    /// outcomes back through `step`.
    pub fn solve(self, cache: Cache) -> (r: PackageSolver)
        requires
            cache.wf(),
        ensures
            r.wf(),
            r.deps@ == seq![self],
            r.cache.entries_view() == cache.entries_view(),
            r.failures@ == Seq::<Failure>::empty(),
            r.idx == 0,
            r.phase is Ready,
    {
        let mut deps: Vec<MPMDependency> = Vec::new();
        deps.push(self);
        proof {
            assert(deps@ =~= seq![self]);
        }
        PackageSolver::new(deps, cache)
    }
}

/// Dependencies are handled strictly in declaration order: a step either
/// stays with the current dependency or moves to the next one.
pub proof fn lemma_step_in_declaration_order(
    pre: PackageSolver,
    event: Event,
    post: PackageSolver,
    action: Action,
)
    requires
        pre.accepts(event),
        step_post(pre, event, post, action),
    ensures
        post.idx == pre.idx || post.idx == pre.idx + 1,
{
}

/// The cache is append-only: whatever one step does, every artifact cached
/// before it is still cached, unchanged, at its place afterwards; a step may
/// only add.
pub proof fn lemma_step_cache_append_only(
    pre: PackageSolver,
    event: Event,
    post: PackageSolver,
    action: Action,
)
    requires
        pre.accepts(event),
        step_post(pre, event, post, action),
    ensures
        post.cache.entries_view().len() >= pre.cache.entries_view().len(),
        forall|i: int|
            0 <= i < pre.cache.entries_view().len() ==> post.cache.entries_view()[i]
                == pre.cache.entries_view()[i],
{
    match event {
        Event::Archive { data } => match data {
            Some(d) => {
                assert(pre.phase is AwaitArchive);
            },
            None => {},
        },
        _ => {},
    }
}

impl crate::package_source::PackageSource {
    /// The driver that resolves this source and writes the merged script
    /// for `namespace_name` to `path_buf`, threading the given cache.
    pub fn solve(self, namespace_name: Vec<u8>, path_buf: Vec<u8>, cache: Cache) -> (r:
        PackageSolver)
        requires
            cache.wf(),
        ensures
            r.wf(),
            r.deps@ == seq![
                MPMDependency { name: namespace_name, path_buf: path_buf, source: self },
            ],
            r.cache.entries_view() == cache.entries_view(),
            r.failures@ == Seq::<Failure>::empty(),
            r.idx == 0,
            r.phase is Ready,
    {
        MPMDependency { name: namespace_name, path_buf, source: self }.solve(cache)
    }
}

impl crate::package::MPMPackage {
    /// The driver that solves this package's dependencies in declaration
    /// order, threading the given cache.
    pub fn solve(self, cache: Cache) -> (r: PackageSolver)
        requires
            cache.wf(),
        ensures
            r.wf(),
            r.deps@ == self.dependencies@,
            r.cache.entries_view() == cache.entries_view(),
            r.failures@ == Seq::<Failure>::empty(),
            r.idx == 0,
            r.phase is Ready,
    {
        PackageSolver::new(self.dependencies, cache)
    }
}

} // verus!
