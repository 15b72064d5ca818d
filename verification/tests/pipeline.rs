//! The cache, descriptor parsing, and the resolution driver end to end.

use libmuse::cache::Cache;
use libmuse::csharp_parse::ScriptFile;
use libmuse::driver::{Action, Event, PackageSolver, SolveError};
use libmuse::package::{MPMDependency, MPMPackage};
use libmuse::package_source::{
    find_single_subdirectory, ConfigError, ExtractError, PackageSource, PackageSourceContent,
    SourceType,
};
use libmuse::version::version_from_text;

const DESCRIPTOR: &str = "https://example.com/repo/releases/tag/v1.2.0/scripts/Utils.cs";

fn tags(list: &[&str]) -> Vec<Vec<u8>> {
    list.iter().map(|t| t.as_bytes().to_vec()).collect()
}

#[test]
fn descriptor_parses_into_its_parts() {
    let ps = PackageSource::new(DESCRIPTOR.as_bytes()).unwrap();
    assert_eq!(ps.source_url, b"https://example.com/repo".to_vec());
    assert_eq!(ps.version_req.text().clone(), b"1.2.0".to_vec());
    assert_eq!(ps.inner_path, b"scripts/Utils.cs".to_vec());
    assert!(matches!(ps.source_type, SourceType::GitHubRelease));
}

#[test]
fn descriptor_errors_name_the_first_failing_part() {
    assert_eq!(
        PackageSource::new(b"https://example.com/repo").err().unwrap(),
        ConfigError::MissingTagMarker
    );
    assert_eq!(
        PackageSource::new(b"x/tag/1.0.0").err().unwrap(),
        ConfigError::MissingInnerPath
    );
    assert_eq!(
        PackageSource::new(b"x/tag/1.0.0/inner").err().unwrap(),
        ConfigError::MissingReleasesMarker
    );
    assert_eq!(
        PackageSource::new(b"x/releases/tag/not!a!req/inner").err().unwrap(),
        ConfigError::InvalidConstraint
    );
}

#[test]
fn package_builds_dependency_paths() {
    let raw = vec![(b"Utils".to_vec(), DESCRIPTOR.as_bytes().to_vec())];
    let p = MPMPackage::new(
        b"demo".to_vec(),
        b"/ws/demo/muse-package.toml".to_vec(),
        b"/ws/demo",
        Some(false),
        &raw,
    )
    .unwrap();
    assert_eq!(p.dependencies.len(), 1);
    assert_eq!(p.dependencies[0].name, b"Utils".to_vec());
    assert_eq!(p.dependencies[0].path_buf, b"/ws/demo/Utils.cs".to_vec());
}

#[test]
fn package_rejects_a_bad_descriptor() {
    let raw = vec![
        (b"Good".to_vec(), DESCRIPTOR.as_bytes().to_vec()),
        (b"Bad".to_vec(), b"nonsense".to_vec()),
    ];
    let r = MPMPackage::new(b"demo".to_vec(), b"/ws/c.toml".to_vec(), b"/ws", None, &raw);
    assert!(matches!(r, Err(ConfigError::MissingTagMarker)));
}

#[test]
fn cache_lookup_returns_greatest_satisfying_version() {
    let mut cache = Cache::new();
    let v1 = version_from_text(b"1.0.0").unwrap();
    let v2 = version_from_text(b"1.4.0").unwrap();
    let v3 = version_from_text(b"2.0.0").unwrap();
    cache.insert(b"id".to_vec(), v1, b"one".to_vec());
    cache.insert(b"id".to_vec(), v2, b"one-four".to_vec());
    cache.insert(b"id".to_vec(), v3, b"two".to_vec());
    let c = libmuse::version::constraint_from_text(b"^1.0").unwrap();
    let hit = cache.lookup(b"id", &c).unwrap();
    assert_eq!(hit.data, b"one-four".to_vec());
    assert_eq!(hit.version.text().clone(), b"1.4.0".to_vec());
    let c2 = libmuse::version::constraint_from_text(b"^3.0").unwrap();
    assert!(cache.lookup(b"id", &c2).is_none());
    assert!(cache.lookup(b"other", &c).is_none());
}

#[test]
fn cache_roundtrips_bytes_under_an_exact_constraint() {
    let mut cache = Cache::new();
    let v = version_from_text(b"1.2.3").unwrap();
    let payload: Vec<u8> = vec![0u8, 255, 1, 2, 3];
    cache.insert(b"src".to_vec(), v, payload.clone());
    let c = libmuse::version::constraint_from_text(b"=1.2.3").unwrap();
    let hit = cache.lookup(b"src", &c).unwrap();
    assert_eq!(hit.data, payload);
    assert!(cache.contains_version(b"src", b"1.2.3"));
    assert!(!cache.contains_version(b"src", b"1.2.4"));
}

#[test]
fn driver_resolves_fetches_merges_and_writes() {
    let dep = MPMDependency::new(
        b"Utils".to_vec(),
        b"/ws/Utils.cs".to_vec(),
        DESCRIPTOR.as_bytes(),
    )
    .unwrap();
    let mut solver = PackageSolver::new(vec![dep], Cache::new());

    let a = solver.step(Event::Start);
    match a {
        Action::ListReleases { identity } => {
            assert_eq!(identity, b"https://example.com/repo".to_vec());
        }
        _ => panic!("expected a release listing"),
    }

    // The descriptor's tag `v1.2.0` reads as the caret constraint `^1.2.0`,
    // so the greatest satisfying tag wins.
    let a = solver.step(Event::Tags { tags: Some(tags(&["v0.9.0", "v1.0.0", "v1.3.0"])) });
    match a {
        Action::FetchArchive { identity, version } => {
            assert_eq!(identity, b"https://example.com/repo".to_vec());
            assert_eq!(version.text().clone(), b"1.3.0".to_vec());
        }
        _ => panic!("expected an archive fetch"),
    }

    let a = solver.step(Event::Archive { data: Some(b"ARCHIVE".to_vec()) });
    match a {
        Action::ExtractFiles { data, inner_path } => {
            assert_eq!(data, b"ARCHIVE".to_vec());
            assert_eq!(inner_path, b"scripts/Utils.cs".to_vec());
        }
        _ => panic!("expected file extraction"),
    }

    let files = vec![ScriptFile {
        name: b"Utils.cs".to_vec(),
        content: b"namespace Utils {\n\tclass U {}\n}".to_vec(),
    }];
    let a = solver.step(Event::Files { files: Some(files) });
    match a {
        Action::WriteOutput { path, content } => {
            assert_eq!(path, b"/ws/Utils.cs".to_vec());
            let text = String::from_utf8(content).unwrap();
            assert_eq!(
                text,
                "// DO NOT EDIT! downloaded from 'https://example.com/repo' at version \
                 '1.3.0' and compiled into a single script\nnamespace Utils\n{\n\tclass U {}\n}"
            );
        }
        _ => panic!("expected the merged output write"),
    }

    let a = solver.step(Event::Written { ok: true });
    assert!(matches!(a, Action::Done));
    let (cache, failures) = solver.finish();
    assert!(failures.is_empty());
    assert!(cache.contains_version(b"https://example.com/repo", b"1.3.0"));
}

#[test]
fn malformed_archive_leaves_the_cache_unmodified() {
    let dep = MPMDependency::new(
        b"Utils".to_vec(),
        b"/ws/Utils.cs".to_vec(),
        DESCRIPTOR.as_bytes(),
    )
    .unwrap();
    let mut solver = PackageSolver::new(vec![dep], Cache::new());
    assert!(matches!(solver.step(Event::Start), Action::ListReleases { .. }));
    assert!(matches!(
        solver.step(Event::Tags { tags: Some(tags(&["v1.3.0"])) }),
        Action::FetchArchive { .. }
    ));
    assert!(matches!(
        solver.step(Event::Archive { data: Some(b"NOT A ZIP".to_vec()) }),
        Action::ExtractFiles { .. }
    ));
    // The downloaded bytes do not extract: the dependency fails with a
    // fetch error and the bad bytes never reach the cache, so a later run
    // fetches afresh instead of hitting a corrupt entry.
    let a = solver.step(Event::Files { files: None });
    assert!(matches!(a, Action::Done));
    let (cache, failures) = solver.finish();
    assert_eq!(cache.entry_count(), 0);
    assert!(!cache.contains_version(b"https://example.com/repo", b"1.3.0"));
    assert_eq!(failures.len(), 1);
    assert_eq!(failures[0].error, SolveError::FetchError);
}

#[test]
fn driver_reuses_a_cached_artifact() {
    let mut cache = Cache::new();
    let v = version_from_text(b"1.3.0").unwrap();
    cache.insert(b"https://example.com/repo".to_vec(), v, b"CACHED".to_vec());
    let dep = MPMDependency::new(
        b"Utils".to_vec(),
        b"/ws/Utils.cs".to_vec(),
        DESCRIPTOR.as_bytes(),
    )
    .unwrap();
    let mut solver = PackageSolver::new(vec![dep], cache);
    // A cache hit skips listing and fetching: extraction comes first.
    let a = solver.step(Event::Start);
    match a {
        Action::ExtractFiles { data, inner_path } => {
            assert_eq!(data, b"CACHED".to_vec());
            assert_eq!(inner_path, b"scripts/Utils.cs".to_vec());
        }
        _ => panic!("expected extraction straight from the cache"),
    }
}

#[test]
fn driver_records_a_failure_and_moves_on() {
    let dep_a = MPMDependency::new(
        b"First".to_vec(),
        b"/ws/First.cs".to_vec(),
        DESCRIPTOR.as_bytes(),
    )
    .unwrap();
    let dep_b = MPMDependency::new(
        b"Second".to_vec(),
        b"/ws/Second.cs".to_vec(),
        "https://example.com/other/releases/tag/v2.0.0/src".as_bytes(),
    )
    .unwrap();
    let mut solver = PackageSolver::new(vec![dep_a, dep_b], Cache::new());

    let a = solver.step(Event::Start);
    assert!(matches!(a, Action::ListReleases { .. }));
    // Listing the first source fails: the failure is recorded and the
    // second dependency starts, with the cache untouched.
    let a = solver.step(Event::Tags { tags: None });
    match a {
        Action::ListReleases { identity } => {
            assert_eq!(identity, b"https://example.com/other".to_vec());
        }
        _ => panic!("expected the second dependency's listing"),
    }
    // No tag satisfies the second constraint.
    let a = solver.step(Event::Tags { tags: Some(tags(&["v1.0.0"])) });
    assert!(matches!(a, Action::Done));
    let (cache, failures) = solver.finish();
    assert_eq!(cache.entry_count(), 0);
    assert_eq!(failures.len(), 2);
    assert_eq!(failures[0].dep_name, b"First".to_vec());
    assert_eq!(failures[0].error, SolveError::FetchError);
    assert_eq!(failures[1].dep_name, b"Second".to_vec());
    assert_eq!(failures[1].error, SolveError::NoCompatibleVersion);
}

#[test]
fn package_solve_yields_a_driver_over_its_dependencies() {
    let raw = vec![(b"Utils".to_vec(), DESCRIPTOR.as_bytes().to_vec())];
    let p = MPMPackage::new(b"demo".to_vec(), b"/ws/c.toml".to_vec(), b"/ws", None, &raw).unwrap();
    let mut solver = p.solve(Cache::new());
    let a = solver.step(Event::Start);
    match a {
        Action::ListReleases { identity } => {
            assert_eq!(identity, b"https://example.com/repo".to_vec());
        }
        _ => panic!("expected a release listing for the package's dependency"),
    }
}

#[test]
fn source_solve_writes_under_the_given_path() {
    let ps = PackageSource::new(DESCRIPTOR.as_bytes()).unwrap();
    let mut solver = ps.solve(b"Utils".to_vec(), b"/ws/Utils.cs".to_vec(), Cache::new());
    assert!(matches!(solver.step(Event::Start), Action::ListReleases { .. }));
    let ts = tags(&["v1.2.0"]);
    assert!(matches!(
        solver.step(Event::Tags { tags: Some(ts) }),
        Action::FetchArchive { .. }
    ));
    assert!(matches!(
        solver.step(Event::Archive { data: Some(b"Z".to_vec()) }),
        Action::ExtractFiles { .. }
    ));
    let files = vec![ScriptFile { name: b"U.cs".to_vec(), content: b"	class U {}".to_vec() }];
    match solver.step(Event::Files { files: Some(files) }) {
        Action::WriteOutput { path, .. } => assert_eq!(path, b"/ws/Utils.cs".to_vec()),
        _ => panic!("expected the output write"),
    }
}

#[test]
fn artifact_compiles_with_its_header() {
    let v = version_from_text(b"2.0.0").unwrap();
    let psc = PackageSourceContent::new(b"https://example.com/repo".to_vec(), v, b"Z".to_vec());
    let files = vec![ScriptFile {
        name: b"A.cs".to_vec(),
        content: b"namespace A {\n\tclass X {}\n}".to_vec(),
    }];
    let out = String::from_utf8(psc.compile(b"NS", &files)).unwrap();
    assert!(out.starts_with(
        "// DO NOT EDIT! downloaded from 'https://example.com/repo' at version '2.0.0'"
    ));
    assert!(out.contains("namespace NS\n{\n\tclass X {}\n}"));
}

#[test]
fn single_subdirectory_selection() {
    let none: Vec<Vec<u8>> = Vec::new();
    assert_eq!(
        find_single_subdirectory(&none).unwrap_err(),
        ExtractError::NoSubdirectory
    );
    let one = vec![b"repo-abc123".to_vec()];
    assert_eq!(find_single_subdirectory(&one).unwrap(), b"repo-abc123".to_vec());
    let two = vec![b"a".to_vec(), b"b".to_vec()];
    assert_eq!(
        find_single_subdirectory(&two).unwrap_err(),
        ExtractError::MultipleSubdirectories
    );
}
