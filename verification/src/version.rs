//! Versions, constraints, and constraint resolution.
//!
//! Parsing of version strings and constraint strings, and the decision
//! whether a version satisfies a constraint, are delegated to the semver
//! crate through the trusted items below; what those calls return is named by
//! the uninterpreted functions `semver_key`, `req_ok` and `req_match`, all
//! functions of the argument strings alone.  Everything else — stripping a
//! leading `v` from a release tag and picking the greatest satisfying
//! candidate under the precedence order of `vercmp` — is verified here.

use vstd::prelude::*;

use crate::vercmp::{key_cmp, lemma_key_cmp_antisym, lemma_key_cmp_trans, pre_cmp_exec, SemKey};

verus! {

/// The precedence key that `semver::Version::parse` extracts from a version
/// string, if the string parses: its numeric triple and pre-release.
pub uninterp spec fn semver_key(s: Seq<u8>) -> Option<SemKey>;

/// Whether `semver::VersionReq::parse` accepts a constraint string.
pub uninterp spec fn req_ok(s: Seq<u8>) -> bool;

/// Whether, per `semver::VersionReq::matches`, the version written `version`
/// satisfies the constraint written `req` (meaningful when both parse).
pub uninterp spec fn req_match(req: Seq<u8>, version: Seq<u8>) -> bool;

/// A concrete semantic version: the parts that precedence is judged by,
/// plus the exact string it was parsed from.
///
/// Values exist only through parsing (`version_from_text`), so the private
/// `raw` field always holds the semver crate's parse of `text`.
pub struct SemVer {
    major: u64,
    minor: u64,
    patch: u64,
    pre: Vec<u8>,
    text: Vec<u8>,
    raw: semver::Version,
}

impl View for SemVer {
    type V = SemKey;

    closed spec fn view(&self) -> SemKey {
        SemKey {
            major: self.major as int,
            minor: self.minor as int,
            patch: self.patch as int,
            pre: self.pre@,
        }
    }
}

impl SemVer {
    /// The string this version was parsed from.
    pub closed spec fn text_view(&self) -> Seq<u8> {
        self.text@
    }

    /// The fields agree with what the version's own text parses to.
    pub open spec fn wf(&self) -> bool {
        semver_key(self.text_view()) == Some(self@)
    }

    /// Major part.
    pub fn major(&self) -> (r: u64)
        ensures
            r as int == self@.major,
    {
        self.major
    }

    /// Minor part.
    pub fn minor(&self) -> (r: u64)
        ensures
            r as int == self@.minor,
    {
        self.minor
    }

    /// Patch part.
    pub fn patch(&self) -> (r: u64)
        ensures
            r as int == self@.patch,
    {
        self.patch
    }

    /// Pre-release identifiers (empty for a release).
    pub fn pre(&self) -> (r: &Vec<u8>)
        ensures
            r@ == self@.pre,
    {
        &self.pre
    }

    /// The exact string this version was parsed from.
    pub fn text(&self) -> (r: &Vec<u8>)
        ensures
            r@ == self.text_view(),
    {
        &self.text
    }

    /// Precedence comparison with another version: -1, 0 or 1 as this
    /// version orders below, with or above the other.
    pub fn precedence_cmp(&self, other: &SemVer) -> (r: i8)
        ensures
            r as int == key_cmp(self@, other@),
    {
        if self.major < other.major {
            -1
        } else if self.major > other.major {
            1
        } else if self.minor < other.minor {
            -1
        } else if self.minor > other.minor {
            1
        } else if self.patch < other.patch {
            -1
        } else if self.patch > other.patch {
            1
        } else {
            pre_cmp_exec(self.pre.as_slice(), other.pre.as_slice())
        }
    }

    /// A copy with the same parts and text.
    ///
    /// Relies on the `Clone` impls of the field types, `semver::Version`'s
    /// among them, copying field for field.
    #[verifier::external_body]
    pub fn duplicate(&self) -> (r: SemVer)
        ensures
            r@ == self@,
            r.text_view() == self.text_view(),
    {
        SemVer {
            major: self.major,
            minor: self.minor,
            patch: self.patch,
            pre: self.pre.clone(),
            text: self.text.clone(),
            raw: self.raw.clone(),
        }
    }
}

/// A version constraint, kept as the string it was declared with.
///
/// Values exist only through parsing (`constraint_from_text`), so the private
/// `raw` field always holds the semver crate's parse of `text`.
pub struct Constraint {
    text: Vec<u8>,
    raw: semver::VersionReq,
}

impl Constraint {
    /// The string this constraint was parsed from.
    pub closed spec fn text_view(&self) -> Seq<u8> {
        self.text@
    }

    /// The exact string this constraint was parsed from.
    pub fn text(&self) -> (r: &Vec<u8>)
        ensures
            r@ == self.text_view(),
    {
        &self.text
    }

}

#[verifier::external_type_specification]
#[verifier::external_body]
pub struct ExVersion(semver::Version);

#[verifier::external_type_specification]
#[verifier::external_body]
pub struct ExVersionReq(semver::VersionReq);

/// Relies on `semver::Version::parse`: it accepts or rejects a version
/// string by the string alone, and on success reports its numeric triple and
/// pre-release identifiers, here written into the returned parts.
#[verifier::external_body]
fn version_parse_call(s: &[u8]) -> (r: Option<SemVer>)
    ensures
        r is Some <==> semver_key(s@) is Some,
        r matches Some(v) ==> v.text_view() == s@ && Some(v@) == semver_key(s@),
{
    let text = core::str::from_utf8(s).ok()?;
    let raw = semver::Version::parse(text).ok()?;
    let pre = raw.pre.as_str().as_bytes().to_vec();
    Some(SemVer {
        major: raw.major,
        minor: raw.minor,
        patch: raw.patch,
        pre,
        text: s.to_vec(),
        raw,
    })
}

/// Relies on `semver::VersionReq::parse`: it accepts or rejects a constraint
/// string by the string alone.
#[verifier::external_body]
fn req_parse_call(s: &[u8]) -> (r: Option<Constraint>)
    ensures
        r is Some <==> req_ok(s@),
        r matches Some(c) ==> c.text_view() == s@,
{
    let text = core::str::from_utf8(s).ok()?;
    let raw = semver::VersionReq::parse(text).ok()?;
    Some(Constraint { text: s.to_vec(), raw })
}

/// Relies on `semver::VersionReq::matches`: a pure function of the
/// constraint and the version.  Both arguments carry their parse alongside
/// their text (the fields are private and set only by the parse calls
/// above), so the call decides `req_match` of the two texts.
#[verifier::external_body]
fn req_matches_call(c: &Constraint, v: &SemVer) -> (r: bool)
    ensures
        r == req_match(c.text_view(), v.text_view()),
{
    c.raw.matches(&v.raw)
}

/// Parses a version string, `None` exactly on strings semver rejects.
pub fn version_from_text(s: &[u8]) -> (r: Option<SemVer>)
    ensures
        r is Some <==> semver_key(s@) is Some,
        r matches Some(v) ==> v.text_view() == s@ && Some(v@) == semver_key(s@) && v.wf(),
{
    version_parse_call(s)
}

/// Parses a constraint string, `None` exactly on strings semver rejects.
pub fn constraint_from_text(s: &[u8]) -> (r: Option<Constraint>)
    ensures
        r is Some <==> req_ok(s@),
        r matches Some(c) ==> c.text_view() == s@,
{
    req_parse_call(s)
}

/// Whether `version` satisfies `constraint`.
pub fn constraint_matches(constraint: &Constraint, version: &SemVer) -> (r: bool)
    ensures
        r == req_match(constraint.text_view(), version.text_view()),
{
    req_matches_call(constraint, version)
}

/// Errors of constraint resolution.
#[derive(Debug, Clone, Copy, PartialEq, Eq, Structural)]
pub enum ResolveError {
    /// The constraint string itself does not parse; reported when a
    /// configuration is loaded, before any resolution.
    InvalidConstraint,
    /// No candidate tag parses to a version satisfying the constraint.
    NoCompatibleVersion,
}

/// A release tag with an optional leading `v` or `V` removed; the remainder
/// is what is read as a version.
pub open spec fn strip_v_spec(t: Seq<u8>) -> Seq<u8> {
    if t.len() > 0 && (t[0] == 118 || t[0] == 86) {
        t.skip(1)
    } else {
        t
    }
}

/// The version key a release tag denotes, if its stripped form parses.
pub open spec fn tag_key(t: Seq<u8>) -> Option<SemKey> {
    semver_key(strip_v_spec(t))
}

/// Whether a release tag denotes a version that satisfies the constraint
/// written `c`.
pub open spec fn tag_satisfies(c: Seq<u8>, t: Seq<u8>) -> bool {
    tag_key(t) is Some && req_match(c, strip_v_spec(t))
}

/// What a successful resolution returns: the version of a satisfying
/// candidate tag, no satisfying candidate exceeds it, and it comes from the
/// first candidate of maximal precedence (which pins the result completely).
pub open spec fn resolution_ok(c: Seq<u8>, tags: Seq<Seq<u8>>, v: SemVer) -> bool {
    &&& v.wf()
    &&& exists|i: int|
        {
            &&& 0 <= i < tags.len()
            &&& #[trigger] tag_satisfies(c, tags[i])
            &&& v.text_view() == strip_v_spec(tags[i])
            &&& forall|j: int|
                0 <= j < i && #[trigger] tag_satisfies(c, tags[j]) ==> key_cmp(
                    v@,
                    tag_key(tags[j])->0,
                ) > 0
        }
    &&& forall|j: int|
        0 <= j < tags.len() && #[trigger] tag_satisfies(c, tags[j]) ==> key_cmp(
            v@,
            tag_key(tags[j])->0,
        ) >= 0
}

/// When resolution reports no compatible version: no candidate satisfies.
pub open spec fn no_candidate(c: Seq<u8>, tags: Seq<Seq<u8>>) -> bool {
    forall|j: int| 0 <= j < tags.len() ==> !#[trigger] tag_satisfies(c, tags[j])
}

/// Strips a leading `v`/`V` from a tag.
pub fn strip_v(tag: &[u8]) -> (r: &[u8])
    ensures
        r@ == strip_v_spec(tag@),
{
    if tag.len() > 0 && (tag[0] == 118 || tag[0] == 86) {
        vstd::slice::slice_subrange(tag, 1, tag.len())
    } else {
        proof {
            assert(tag@.subrange(0, tag@.len() as int) =~= tag@);
        }
        vstd::slice::slice_subrange(tag, 0, tag.len())
    }
}

/// Resolves a constraint against candidate release tags: among the tags
/// whose stripped form parses as a version satisfying the constraint, the
/// one of greatest precedence wins (the earliest such tag on a tie);
/// candidates that do not parse are skipped; `NoCompatibleVersion` exactly
/// when no candidate satisfies.
pub fn resolve(constraint: &Constraint, tags: &Vec<Vec<u8>>) -> (r: Result<
    SemVer,
    ResolveError,
>)
    ensures
        match r {
            Ok(v) => resolution_ok(constraint.text_view(), tags.deep_view(), v),
            Err(e) => e == ResolveError::NoCompatibleVersion && no_candidate(
                constraint.text_view(),
                tags.deep_view(),
            ),
        },
{
    let ghost ts = tags.deep_view();
    let ghost c = constraint.text_view();
    let n: usize = tags.len();
    proof {
        assert(ts.len() == n);
    }
    let mut best: Option<SemVer> = None;
    let ghost mut best_idx: int = 0;
    let mut i: usize = 0;
    while i < n
        invariant
            ts == tags.deep_view(),
            c == constraint.text_view(),
            n == ts.len(),
            n == tags@.len(),
            0 <= i <= n,
            match best {
                Some(b) => {
                    &&& b.wf()
                    &&& 0 <= best_idx < i
                    &&& tag_satisfies(c, ts[best_idx])
                    &&& b.text_view() == strip_v_spec(ts[best_idx])
                    &&& forall|j: int|
                        0 <= j < best_idx && #[trigger] tag_satisfies(c, ts[j]) ==> key_cmp(
                            b@,
                            tag_key(ts[j])->0,
                        ) > 0
                    &&& forall|j: int|
                        0 <= j < i && #[trigger] tag_satisfies(c, ts[j]) ==> key_cmp(
                            b@,
                            tag_key(ts[j])->0,
                        ) >= 0
                },
                None => forall|j: int| 0 <= j < i ==> !#[trigger] tag_satisfies(c, ts[j]),
            },
        decreases n - i,
    {
        proof {
            assert(ts[i as int] == tags@[i as int]@);
        }
        let stripped: &[u8] = strip_v(tags[i].as_slice());
        let parsed: Option<SemVer> = version_from_text(stripped);
        match parsed {
            None => {
                proof {
                    assert(!tag_satisfies(c, ts[i as int]));
                }
            },
            Some(v) => {
                if constraint_matches(constraint, &v) {
                    proof {
                        assert(tag_satisfies(c, ts[i as int]));
                    }
                    match &best {
                        None => {
                            proof {
                                lemma_key_cmp_antisym(v@, v@);
                            }
                            best = Some(v);
                            proof {
                                best_idx = i as int;
                            }
                        },
                        Some(b) => {
                            let ghost bk = b@;
                            let ghost vk = v@;
                            let cmp: i8 = v.precedence_cmp(b);
                            if cmp > 0 {
                                proof {
                                    lemma_key_cmp_antisym(vk, vk);
                                    assert forall|j: int|
                                        0 <= j < i && #[trigger] tag_satisfies(c, ts[j])
                                            implies key_cmp(vk, tag_key(ts[j])->0) > 0 by {
                                        let kj = tag_key(ts[j])->0;
                                        lemma_key_cmp_antisym(bk, kj);
                                        lemma_key_cmp_antisym(vk, bk);
                                        lemma_key_cmp_trans(kj, bk, vk);
                                        lemma_key_cmp_antisym(kj, vk);
                                    }
                                }
                                best = Some(v);
                                proof {
                                    best_idx = i as int;
                                }
                            } else {
                                proof {
                                    lemma_key_cmp_antisym(vk, bk);
                                }
                            }
                        },
                    }
                }
            },
        }
        i = i + 1;
    }
    match best {
        Some(b) => {
            proof {
                assert(resolution_ok(c, ts, b));
            }
            Ok(b)
        },
        None => Err(ResolveError::NoCompatibleVersion),
    }
}

/// Resolution from a raw constraint string: `InvalidConstraint` exactly when
/// the constraint itself does not parse, otherwise as `resolve`.
pub fn resolve_tags(constraint_text: &[u8], tags: &Vec<Vec<u8>>) -> (r: Result<
    SemVer,
    ResolveError,
>)
    ensures
        match r {
            Ok(v) => req_ok(constraint_text@) && resolution_ok(
                constraint_text@,
                tags.deep_view(),
                v,
            ),
            Err(ResolveError::InvalidConstraint) => !req_ok(constraint_text@),
            Err(ResolveError::NoCompatibleVersion) => req_ok(constraint_text@) && no_candidate(
                constraint_text@,
                tags.deep_view(),
            ),
        },
{
    match constraint_from_text(constraint_text) {
        None => Err(ResolveError::InvalidConstraint),
        Some(c) => resolve(&c, tags),
    }
}

/// The resolved version is independent of candidate order: two resolutions
/// of the same constraint over reorderings of the same tags return versions
/// of equal precedence.
pub proof fn lemma_resolution_order_independent(
    c: Seq<u8>,
    tags1: Seq<Seq<u8>>,
    tags2: Seq<Seq<u8>>,
    v1: SemVer,
    v2: SemVer,
)
    requires
        tags1.to_multiset() == tags2.to_multiset(),
        resolution_ok(c, tags1, v1),
        resolution_ok(c, tags2, v2),
    ensures
        key_cmp(v1@, v2@) == 0,
{
    lemma_resolution_maximal_transfer(c, tags1, tags2, v1, v2);
    lemma_resolution_maximal_transfer(c, tags2, tags1, v2, v1);
    lemma_key_cmp_antisym(v1@, v2@);
}

/// Helper: the winner over one tag list is at least the winner over a
/// reordering of it.
proof fn lemma_resolution_maximal_transfer(
    c: Seq<u8>,
    tags1: Seq<Seq<u8>>,
    tags2: Seq<Seq<u8>>,
    v1: SemVer,
    v2: SemVer,
)
    requires
        tags1.to_multiset() == tags2.to_multiset(),
        resolution_ok(c, tags1, v1),
        resolution_ok(c, tags2, v2),
    ensures
        key_cmp(v1@, v2@) >= 0,
{
    broadcast use vstd::seq_lib::group_to_multiset_ensures;

    let i = choose|i: int|
        {
            &&& 0 <= i < tags2.len()
            &&& #[trigger] tag_satisfies(c, tags2[i])
            &&& v2.text_view() == strip_v_spec(tags2[i])
            &&& forall|j: int|
                0 <= j < i && #[trigger] tag_satisfies(c, tags2[j]) ==> key_cmp(
                    v2@,
                    tag_key(tags2[j])->0,
                ) > 0
        };
    let t = tags2[i];
    assert(tags2.contains(t));
    assert(tags2.to_multiset().contains(t));
    assert(tags1.to_multiset().contains(t));
    assert(tags1.contains(t));
    let j = choose|j: int| 0 <= j < tags1.len() && tags1[j] == t;
    assert(tag_satisfies(c, tags1[j]));
    assert(key_cmp(v1@, tag_key(tags1[j])->0) >= 0);
    assert(Some(v2@) == tag_key(t));
}

/// When no candidate satisfies, the same holds of any reordering.
pub proof fn lemma_no_candidate_order_independent(
    c: Seq<u8>,
    tags1: Seq<Seq<u8>>,
    tags2: Seq<Seq<u8>>,
)
    requires
        tags1.to_multiset() == tags2.to_multiset(),
        no_candidate(c, tags1),
    ensures
        no_candidate(c, tags2),
{
    broadcast use vstd::seq_lib::group_to_multiset_ensures;

    assert forall|j: int| 0 <= j < tags2.len() implies !#[trigger] tag_satisfies(c, tags2[j]) by {
        let t = tags2[j];
        assert(tags2.contains(t));
        assert(tags2.to_multiset().contains(t));
        assert(tags1.to_multiset().contains(t));
        assert(tags1.contains(t));
        let k = choose|k: int| 0 <= k < tags1.len() && tags1[k] == t;
        assert(!tag_satisfies(c, tags1[k]));
    }
}

} // verus!
