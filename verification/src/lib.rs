//! A verified core for a read-through CDN over a JavaScript package
//! registry: a replicated package-metadata store with its replication
//! logic, a deterministic fixed-point SemVer dependency resolver, tarball
//! decoding into in-memory file maps, `package.json` entry collection,
//! in-archive module resolution, request decoding with versioned
//! specifiers, and the decision logic of the request-coalescing cache.
//!
//! The network, the disk, the clock and serialization live outside this
//! crate; every function here computes from plain values and carries a
//! contract.

pub mod errors;
pub mod kvlist;
pub mod package_data;
pub mod store;
pub mod replication;
pub mod tarball;
pub mod resolver;
pub mod package_json;
pub mod single_flight;
pub mod module_proc;
pub mod service;
pub mod dep_tree;
pub mod semver;
pub mod specifier;
pub mod envelope;
pub mod textutil;

