//! Packages and their declared dependencies.
//!
//! A package is a named configuration unit holding dependencies; each
//! dependency names its output file (the dependency's name with a `.cs`
//! suffix, next to the package's configuration file) and carries a parsed
//! source descriptor.  Reading the configuration file itself is the
//! caller's business; this module builds the verified structures from the
//! plain name/descriptor pairs it was given, rejecting a package on the
//! first malformed descriptor, as a configuration error is fatal for the
//! single package it belongs to.

use vstd::prelude::*;

use crate::package_source::{descriptor_error, parsed_source_ok, ConfigError, PackageSource};

verus! {

/// One declared dependency: its name, the path its merged output is written
/// to, and its parsed source.
pub struct MPMDependency {
    pub name: Vec<u8>,
    pub path_buf: Vec<u8>,
    pub source: PackageSource,
}

/// The `.cs` suffix of a dependency's output file.
pub open spec fn cs_suffix() -> Seq<u8> {
    seq![46u8, 99u8, 115u8]
}

/// The output path of a dependency: `<dir>/<name>.cs`.
pub open spec fn dep_output_path(dir: Seq<u8>, name: Seq<u8>) -> Seq<u8> {
    dir + seq![47u8] + name + cs_suffix()
}

impl MPMDependency {
    /// Builds a dependency from its name, output path and descriptor
    /// string; fails exactly as descriptor parsing does.
    pub fn new(name: Vec<u8>, path_buf: Vec<u8>, value: &[u8]) -> (r: Result<
        MPMDependency,
        ConfigError,
    >)
        ensures
            match r {
                Ok(d) => d.name@ == name@ && d.path_buf@ == path_buf@ && parsed_source_ok(
                    d.source,
                    value@,
                ),
                Err(e) => descriptor_error(e, value@),
            },
    {
        match PackageSource::new(value) {
            Ok(source) => Ok(MPMDependency { name, path_buf, source }),
            Err(e) => Err(e),
        }
    }
}

/// A package: a named configuration unit with its dependencies, in
/// declaration order.
pub struct MPMPackage {
    pub name: Vec<u8>,
    pub config_path_buf: Vec<u8>,
    pub is_deprecated: Option<bool>,
    pub dependencies: Vec<MPMDependency>,
}

/// What a built package holds of the raw name/descriptor pairs it was given.
pub open spec fn package_deps_ok(
    deps: Seq<MPMDependency>,
    dir: Seq<u8>,
    raw: Seq<(Seq<u8>, Seq<u8>)>,
) -> bool {
    &&& deps.len() == raw.len()
    &&& forall|i: int|
        0 <= i < raw.len() ==> {
            &&& (#[trigger] deps[i]).name@ == raw[i].0
            &&& deps[i].path_buf@ == dep_output_path(dir, raw[i].0)
            &&& parsed_source_ok(deps[i].source, raw[i].1)
        }
}

impl MPMPackage {
    /// Builds a package from its name, the path of its configuration file,
    /// the directory that file sits in, its deprecation flag, and the raw
    /// name/descriptor pairs of its dependencies, kept in the given order.
    /// Fails on the first malformed descriptor, with that descriptor's
    /// error; earlier descriptors are then all well-shaped.
    #[verifier::rlimit(60)]
    pub fn new(
        name: Vec<u8>,
        config_path_buf: Vec<u8>,
        dir_path: &[u8],
        is_deprecated: Option<bool>,
        raw_dependencies: &Vec<(Vec<u8>, Vec<u8>)>,
    ) -> (r: Result<MPMPackage, ConfigError>)
        ensures
            match r {
                Ok(p) => {
                    &&& p.name@ == name@
                    &&& p.config_path_buf@ == config_path_buf@
                    &&& p.is_deprecated == is_deprecated
                    &&& package_deps_ok(
                        p.dependencies@,
                        dir_path@,
                        raw_dependencies.deep_view(),
                    )
                },
                Err(e) => exists|i: int|
                    0 <= i < raw_dependencies.deep_view().len() && #[trigger] descriptor_error(
                        e,
                        raw_dependencies.deep_view()[i].1,
                    ),
            },
    {
        let ghost raw = raw_dependencies.deep_view();
        let n: usize = raw_dependencies.len();
        let mut dependencies: Vec<MPMDependency> = Vec::new();
        let mut i: usize = 0;
        while i < n
            invariant
                raw == raw_dependencies.deep_view(),
                n == raw.len(),
                n == raw_dependencies@.len(),
                0 <= i <= n,
                dependencies@.len() == i,
                forall|j: int|
                    0 <= j < i ==> {
                        &&& (#[trigger] dependencies@[j]).name@ == raw[j].0
                        &&& dependencies@[j].path_buf@ == dep_output_path(dir_path@, raw[j].0)
                        &&& parsed_source_ok(dependencies@[j].source, raw[j].1)
                    },
            decreases n - i,
        {
            proof {
                assert(raw[i as int].0 == raw_dependencies@[i as int].0@);
                assert(raw[i as int].1 == raw_dependencies@[i as int].1@);
            }
            let dep_name: &Vec<u8> = &raw_dependencies[i].0;
            let dep_value: &Vec<u8> = &raw_dependencies[i].1;
            let mut path: Vec<u8> = Vec::new();
            crate::bytesutil::extend_bytes(&mut path, dir_path);
            path.push(47);
            crate::bytesutil::extend_bytes(&mut path, dep_name.as_slice());
            path.push(46);
            path.push(99);
            path.push(115);
            proof {
                assert(path@ =~= dep_output_path(dir_path@, raw[i as int].0));
            }
            let owned_name: Vec<u8> = dep_name.clone();
            proof {
                assert(owned_name@ =~= dep_name@);
            }
            match MPMDependency::new(owned_name, path, dep_value.as_slice()) {
                Ok(d) => {
                    dependencies.push(d);
                },
                Err(e) => {
                    return Err(e);
                },
            }
            i = i + 1;
        }
        Ok(MPMPackage { name, config_path_buf, is_deprecated, dependencies })
    }
}

} // verus!
