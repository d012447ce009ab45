//! Inventory and cleanup of browser cache directories, plus the
//! computations behind a small text-document index.  Every decision and
//! every aggregate is verified here; callers supply the raw facts they read
//! from the filesystem and perform the actual deletions.

pub mod cleanup;
pub mod entries;
pub mod inventory;
pub mod markdown;
pub mod paths;
pub mod profiles;
pub mod text;
