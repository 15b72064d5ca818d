//! Package sources: where a dependency's code comes from.
//!
//! A dependency descriptor is one string of the shape
//! `<repository url>/releases/tag/<version tag>/<inner path>`.  `PackageSource::new`
//! parses it: the text before the first `/releases/` is the source identity,
//! the segment between the first `/tag/` and the next `/` (less a leading
//! `v`/`V`) is the version constraint, and what follows that `/` is the
//! inner path within the fetched tree.  `PackageSourceContent` holds one
//! fetched artifact and compiles extracted script files into the merged
//! output, headed by a generated do-not-edit line naming the identity and
//! the resolved version.

use vstd::prelude::*;

use crate::bytesutil::{first_match, has_match, lemma_first_match_is};
use crate::csharp_parse::{compile_to_single_script, merged, ScriptFile};
use crate::version::{constraint_from_text, req_ok, strip_v, strip_v_spec, Constraint, SemVer};

verus! {

/// What kind of remote a source identity points at.
#[derive(Debug, Clone, Copy, PartialEq, Eq, Structural)]
pub enum SourceType {
    Unknown,
    GitHubRelease,
}

/// Errors of descriptor parsing, each tied to the exact shape of the
/// descriptor string.
#[derive(Debug, Clone, Copy, PartialEq, Eq, Structural)]
pub enum ConfigError {
    /// The descriptor holds no `/tag/` marker.
    MissingTagMarker,
    /// No `/` follows the version segment, so no inner path is named.
    MissingInnerPath,
    /// The descriptor holds no `/releases/` marker.
    MissingReleasesMarker,
    /// The version segment does not parse as a version constraint.
    InvalidConstraint,
}

/// The bytes of the marker `/tag/`.
pub open spec fn marker_tag() -> Seq<u8> {
    seq![47u8, 116u8, 97u8, 103u8, 47u8]
}

/// The bytes of the marker `/releases/`.
pub open spec fn marker_releases() -> Seq<u8> {
    seq![47u8, 114u8, 101u8, 108u8, 101u8, 97u8, 115u8, 101u8, 115u8, 47u8]
}

/// The version segment of a descriptor: from past the first `/tag/` to the
/// next `/` (meaningful when the markers are present).
pub open spec fn descriptor_version_segment(v: Seq<u8>) -> Seq<u8> {
    let rest = v.skip(first_match(v, marker_tag()) + marker_tag().len());
    rest.take(first_match(rest, seq![47u8]))
}

/// The inner path of a descriptor: what follows the `/` that ends the
/// version segment.
pub open spec fn descriptor_inner_path(v: Seq<u8>) -> Seq<u8> {
    let rest = v.skip(first_match(v, marker_tag()) + marker_tag().len());
    rest.skip(first_match(rest, seq![47u8]) + 1)
}

/// The identity of a descriptor: the text before the first `/releases/`.
pub open spec fn descriptor_identity(v: Seq<u8>) -> Seq<u8> {
    v.take(first_match(v, marker_releases()))
}

/// Whether the rest of a descriptor past `/tag/` holds a `/` ending the
/// version segment.
pub open spec fn descriptor_has_inner(v: Seq<u8>) -> bool {
    has_match(v.skip(first_match(v, marker_tag()) + marker_tag().len()), seq![47u8])
}

/// A well-shaped descriptor: both markers present, an inner path named, and
/// a version segment that parses as a constraint.
pub open spec fn descriptor_ok(v: Seq<u8>) -> bool {
    &&& has_match(v, marker_tag())
    &&& descriptor_has_inner(v)
    &&& has_match(v, marker_releases())
    &&& req_ok(strip_v_spec(descriptor_version_segment(v)))
}

/// What a parsed source holds of its descriptor.
pub open spec fn parsed_source_ok(ps: PackageSource, v: Seq<u8>) -> bool {
    &&& descriptor_ok(v)
    &&& ps.source_url@ == descriptor_identity(v)
    &&& ps.version_req.text_view() == strip_v_spec(descriptor_version_segment(v))
    &&& ps.source_type == SourceType::GitHubRelease
    &&& ps.inner_path@ == descriptor_inner_path(v)
}

/// Which parse error a descriptor earns: the first check that fails, in the
/// order the parts are read.
pub open spec fn descriptor_error(e: ConfigError, v: Seq<u8>) -> bool {
    match e {
        ConfigError::MissingTagMarker => !has_match(v, marker_tag()),
        ConfigError::MissingInnerPath => has_match(v, marker_tag()) && !descriptor_has_inner(v),
        ConfigError::MissingReleasesMarker => has_match(v, marker_tag()) && descriptor_has_inner(
            v,
        ) && !has_match(v, marker_releases()),
        ConfigError::InvalidConstraint => has_match(v, marker_tag()) && descriptor_has_inner(v)
            && has_match(v, marker_releases()) && !req_ok(
            strip_v_spec(descriptor_version_segment(v)),
        ),
    }
}

/// A dependency's source: identity, version constraint, source kind and the
/// inner path selecting the files of interest in a fetched tree.
pub struct PackageSource {
    pub source_url: Vec<u8>,
    pub version_req: Constraint,
    pub source_type: SourceType,
    pub inner_path: Vec<u8>,
}

impl PackageSource {
    /// Parses a dependency descriptor.  Each error names the first check
    /// that fails, in the order the parts are read: the `/tag/` marker, the
    /// `/` ending the version segment, the `/releases/` marker, and the
    /// constraint itself.
    pub fn new(value: &[u8]) -> (r: Result<PackageSource, ConfigError>)
        ensures
            match r {
                Ok(ps) => parsed_source_ok(ps, value@),
                Err(e) => descriptor_error(e, value@),
            },
    {
        let n: usize = value.len();
        let mtag: Vec<u8> = marker_tag_vec();
        let mrel: Vec<u8> = marker_releases_vec();
        let mut slash: Vec<u8> = Vec::new();
        slash.push(47);
        proof {
            assert(slash@ =~= seq![47u8]);
        }
        let t: usize = match crate::bytesutil::find_sub(value, mtag.as_slice()) {
            None => {
                proof {
                    assert(!has_match(value@, marker_tag()));
                }
                return Err(ConfigError::MissingTagMarker);
            },
            Some(t) => t,
        };
        proof {
            lemma_first_match_is(value@, marker_tag(), t as int);
            assert(t + mtag@.len() <= n);
        }
        let vstart: usize = t + mtag.len();
        let rest: &[u8] = vstd::slice::slice_subrange(value, vstart, n);
        proof {
            assert(rest@ =~= value@.skip(first_match(value@, marker_tag())
                + marker_tag().len()));
        }
        let k: usize = match crate::bytesutil::find_sub(rest, slash.as_slice()) {
            None => {
                proof {
                    assert(!descriptor_has_inner(value@));
                }
                return Err(ConfigError::MissingInnerPath);
            },
            Some(k) => k,
        };
        proof {
            lemma_first_match_is(rest@, seq![47u8], k as int);
        }
        let version_seg: &[u8] = vstd::slice::slice_subrange(rest, 0, k);
        let inner: &[u8] = vstd::slice::slice_subrange(rest, k + 1, rest.len());
        proof {
            assert(version_seg@ =~= descriptor_version_segment(value@));
            assert(inner@ =~= descriptor_inner_path(value@));
        }
        let rel: usize = match crate::bytesutil::find_sub(value, mrel.as_slice()) {
            None => {
                proof {
                    assert(!has_match(value@, marker_releases()));
                }
                return Err(ConfigError::MissingReleasesMarker);
            },
            Some(rel) => rel,
        };
        proof {
            lemma_first_match_is(value@, marker_releases(), rel as int);
        }
        let identity: &[u8] = vstd::slice::slice_subrange(value, 0, rel);
        proof {
            assert(identity@ =~= descriptor_identity(value@));
        }
        let stripped: &[u8] = strip_v(version_seg);
        let req: Constraint = match constraint_from_text(stripped) {
            None => {
                return Err(ConfigError::InvalidConstraint);
            },
            Some(c) => c,
        };
        Ok(PackageSource {
            source_url: vstd::slice::slice_to_vec(identity),
            version_req: req,
            source_type: SourceType::GitHubRelease,
            inner_path: vstd::slice::slice_to_vec(inner),
        })
    }
}

/// Builds the marker `/tag/` at run time.
fn marker_tag_vec() -> (r: Vec<u8>)
    ensures
        r@ == marker_tag(),
{
    let mut v: Vec<u8> = Vec::new();
    v.push(47);
    v.push(116);
    v.push(97);
    v.push(103);
    v.push(47);
    proof {
        assert(v@ =~= marker_tag());
    }
    v
}

/// Builds the marker `/releases/` at run time.
fn marker_releases_vec() -> (r: Vec<u8>)
    ensures
        r@ == marker_releases(),
{
    let mut v: Vec<u8> = Vec::new();
    v.push(47);
    v.push(114);
    v.push(101);
    v.push(108);
    v.push(101);
    v.push(97);
    v.push(115);
    v.push(101);
    v.push(115);
    v.push(47);
    proof {
        assert(v@ =~= marker_releases());
    }
    v
}

/// The opening of the generated output header, up to the identity.
pub open spec fn header_prefix() -> Seq<u8> {
    seq![68u8, 79u8, 32u8, 78u8, 79u8, 84u8, 32u8, 69u8, 68u8, 73u8, 84u8, 33u8, 32u8, 100u8, 111u8, 119u8, 110u8, 108u8, 111u8, 97u8, 100u8, 101u8, 100u8, 32u8, 102u8, 114u8, 111u8, 109u8, 32u8, 39u8]
}

/// The middle of the generated output header, between identity and version.
pub open spec fn header_mid() -> Seq<u8> {
    seq![39u8, 32u8, 97u8, 116u8, 32u8, 118u8, 101u8, 114u8, 115u8, 105u8, 111u8, 110u8, 32u8, 39u8]
}

/// The close of the generated output header, after the version.
pub open spec fn header_suffix() -> Seq<u8> {
    seq![39u8, 32u8, 97u8, 110u8, 100u8, 32u8, 99u8, 111u8, 109u8, 112u8, 105u8, 108u8, 101u8, 100u8, 32u8, 105u8, 110u8, 116u8, 111u8, 32u8, 97u8, 32u8, 115u8, 105u8, 110u8, 103u8, 108u8, 101u8, 32u8, 115u8, 99u8, 114u8, 105u8, 112u8, 116u8]
}

/// The header comment of a compiled output: a do-not-edit notice naming the
/// originating identity and the resolved version.
pub open spec fn output_header(url: Seq<u8>, version_text: Seq<u8>) -> Seq<u8> {
    header_prefix() + url + header_mid() + version_text + header_suffix()
}

/// Builds the output header for one artifact.
#[verifier::rlimit(100)]
fn build_header(url: &[u8], version_text: &[u8]) -> (r: Vec<u8>)
    ensures
        r@ == output_header(url@, version_text@),
{
    let mut v: Vec<u8> = Vec::new();
    v.push(68);
    v.push(79);
    v.push(32);
    v.push(78);
    v.push(79);
    v.push(84);
    v.push(32);
    v.push(69);
    v.push(68);
    v.push(73);
    v.push(84);
    v.push(33);
    v.push(32);
    v.push(100);
    v.push(111);
    v.push(119);
    v.push(110);
    v.push(108);
    v.push(111);
    v.push(97);
    v.push(100);
    v.push(101);
    v.push(100);
    v.push(32);
    v.push(102);
    v.push(114);
    v.push(111);
    v.push(109);
    v.push(32);
    v.push(39);
    proof {
        assert(v@ =~= header_prefix());
    }
    crate::bytesutil::extend_bytes(&mut v, url);
    v.push(39);
    v.push(32);
    v.push(97);
    v.push(116);
    v.push(32);
    v.push(118);
    v.push(101);
    v.push(114);
    v.push(115);
    v.push(105);
    v.push(111);
    v.push(110);
    v.push(32);
    v.push(39);
    proof {
        assert(v@ =~= header_prefix() + url@ + header_mid());
    }
    crate::bytesutil::extend_bytes(&mut v, version_text);
    v.push(39);
    v.push(32);
    v.push(97);
    v.push(110);
    v.push(100);
    v.push(32);
    v.push(99);
    v.push(111);
    v.push(109);
    v.push(112);
    v.push(105);
    v.push(108);
    v.push(101);
    v.push(100);
    v.push(32);
    v.push(105);
    v.push(110);
    v.push(116);
    v.push(111);
    v.push(32);
    v.push(97);
    v.push(32);
    v.push(115);
    v.push(105);
    v.push(110);
    v.push(103);
    v.push(108);
    v.push(101);
    v.push(32);
    v.push(115);
    v.push(99);
    v.push(114);
    v.push(105);
    v.push(112);
    v.push(116);
    proof {
        assert(v@ =~= output_header(url@, version_text@));
    }
    v
}

/// Compiles extracted script files into the merged output for one artifact
/// of `url` at `version`: the merge of the files under the target
/// namespace, headed by the generated do-not-edit line.
pub fn compile_output(
    url: &[u8],
    version: &SemVer,
    target_namespace_name: &[u8],
    scripts: &Vec<ScriptFile>,
) -> (r: Vec<u8>)
    ensures
        r@ == merged(
            output_header(url@, version.text_view()),
            target_namespace_name@,
            scripts.deep_view(),
        ),
{
    let header: Vec<u8> = build_header(url, version.text().as_slice());
    compile_to_single_script(header.as_slice(), target_namespace_name, scripts)
}

/// One fetched artifact: the raw bytes of an archived source tree for one
/// identity at one resolved version.
pub struct PackageSourceContent {
    pub data: Vec<u8>,
    pub version: SemVer,
    pub source_url: Vec<u8>,
}

/// Errors of locating the single source directory in an unpacked archive
/// tree.
#[derive(Debug, Clone, Copy, PartialEq, Eq, Structural)]
pub enum ExtractError {
    /// The unpacked tree holds no directory.
    NoSubdirectory,
    /// The unpacked tree holds more than one directory.
    MultipleSubdirectories,
}

/// Picks the single subdirectory of an unpacked archive tree from the list
/// of the tree's directories: release archives unpack into exactly one
/// top-level directory, and anything else is an error.
pub fn find_single_subdirectory(dirs: &Vec<Vec<u8>>) -> (r: Result<Vec<u8>, ExtractError>)
    ensures
        match r {
            Ok(d) => dirs.deep_view().len() == 1 && d@ == dirs.deep_view()[0],
            Err(ExtractError::NoSubdirectory) => dirs.deep_view().len() == 0,
            Err(ExtractError::MultipleSubdirectories) => dirs.deep_view().len() > 1,
        },
{
    if dirs.len() == 0 {
        Err(ExtractError::NoSubdirectory)
    } else if dirs.len() > 1 {
        Err(ExtractError::MultipleSubdirectories)
    } else {
        let d: Vec<u8> = dirs[0].clone();
        proof {
            assert(d@ =~= dirs@[0]@);
        }
        Ok(d)
    }
}

impl PackageSourceContent {
    /// A fetched artifact from its parts: the source it came from, the
    /// version it was resolved to, and the raw bytes of its archive.
    pub fn new(source_url: Vec<u8>, version: SemVer, data: Vec<u8>) -> (r: PackageSourceContent)
        ensures
            r.source_url == source_url,
            r.version == version,
            r.data == data,
    {
        PackageSourceContent { data, version, source_url }
    }

    /// Compiles the script files extracted from this artifact into one
    /// merged script under the target namespace, headed by the generated
    /// do-not-edit line.  The caller unpacks the artifact and hands the
    /// files at the dependency's inner path in here.
    pub fn compile(&self, target_namespace_name: &[u8], scripts: &Vec<ScriptFile>) -> (r: Vec<
        u8,
    >)
        ensures
            r@ == merged(
                output_header(self.source_url@, self.version.text_view()),
                target_namespace_name@,
                scripts.deep_view(),
            ),
    {
        compile_output(
            self.source_url.as_slice(),
            &self.version,
            target_namespace_name,
            scripts,
        )
    }
}

} // verus!
