//! Resolve the newest published version of a package that satisfies a
//! requirement, and derive a deterministic cache key from the result.

pub mod key;
pub mod limits;
pub mod requirement;
pub mod resolve;
pub mod text;
pub mod version;

pub use key::{derive_key, key_bytes};
pub use requirement::Requirement;
pub use resolve::{preview, resolve, search, select_version, NotFound, Output};
pub use version::{Identifier, Version};
