//! A package manager core for a scripting ecosystem: it resolves semantic
//! version constraints against release tags, caches fetched source artifacts
//! keyed by source identity and resolved version, and merges a set of source
//! files into one namespace-wrapped script.
//!
//! Network transfer, archive unpacking and all file I/O live outside this
//! library; the modules here hold the decision and text-transformation logic
//! together with its proofs.

pub mod bytesutil;
pub mod cache;
pub mod csharp_parse;
pub mod driver;
pub mod package;
pub mod package_source;
pub mod pathcode;
pub mod vercmp;
pub mod version;
