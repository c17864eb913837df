//! Synchronization and installation engine for locally installed game
//! localization packages: content-addressable caching with digest
//! verification, per-key mutual exclusion, archive extraction with a
//! path-traversal guard, layout resolution, directory replacement planning,
//! and durable installed-state metadata.

pub mod download;
pub mod archive;
pub mod errors;
pub mod fontcache;
pub mod gamedir;
pub mod hashing;
pub mod install;
pub mod locks;
pub mod metadata_codec;
pub mod models;
pub mod orchestrator;
pub mod resolver;
pub mod settings;
pub mod text;
pub mod vdf;

pub use errors::Error;
