//! Library core of a Motoko package manager: dependency resolution against a
//! registry, version-control hosts and local paths; deterministic lockfile
//! construction; and idempotent, chunked artifact fetching.

pub mod binary;
pub mod canisters;
pub mod env;
pub mod fetch;
pub mod github;
pub mod imports;
pub mod lock;
pub mod manifest;
pub mod moc_args;
pub mod mops;
pub mod principal;
pub mod resolver;
pub mod strutil;
pub mod sync;
pub mod version;
