//! Verified core of an addon packaging pipeline: format-preserving
//! manifest edits, asset discovery with deterministic name disambiguation,
//! archive assembly, content signing, and the submission protocol's data
//! handling.  The surrounding command-line program supplies file contents,
//! prompts and the network transport; every rule and format decision is
//! made, and proved, here.

pub mod builder;
pub mod client;
pub mod discover;
pub mod exports;
pub mod kebab;
pub mod logger;
pub mod manage;
pub mod patch;
pub mod paths;
pub mod semver;
pub mod signer;
pub mod text;
pub mod types;
