//! Checks which direct dependencies of a workspace have newer versions
//! published on the registry than their requirements currently allow.
//!
//! The core is the version-resolution algorithm: given one dependency's
//! requirement and the published versions of the package (with yank and
//! pre-release status), decide whether an upgrade exists and what the
//! latest usable version is under the caller's pre-release policy.

pub mod checker;
pub mod registry;
pub mod resolver;
pub mod version;
pub mod workspace;
