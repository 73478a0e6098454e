//! Core of a development-environment manager for a locally installed SDK.
//!
//! The library keeps the whole state of the tool as plain values: which SDK
//! versions are installed, which one is current, and which components a
//! developer has overridden with local source builds.  Every decision the
//! tool makes — version normalization, path derivation from a build tree,
//! link and unlink bookkeeping, composing the search paths and environment
//! for launching the host process, and encoding or decoding the persisted
//! configuration — is a verified function in this crate.  Reading and
//! writing the actual files, probing the filesystem, and spawning processes
//! are left to the surrounding application, which hands the results in as
//! plain values.

pub mod codec;
pub mod compose;
pub mod config;
pub mod errors;
pub mod links;
pub mod paths;
pub mod strutil;
pub mod version;
