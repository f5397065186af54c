//! The macOS backend: Seatbelt profiles and their launcher.
//!
//! Profiles that a configuration imports are emitted before the generated
//! `(deny default)` and the portable filesystem and network rules. An `allow` in
//! an imported profile can therefore grant access that the portable policy does
//! not, and the generated rules do not revoke it: imported profiles, and what
//! they import in turn, are trusted policy.
pub mod agreement;
pub mod aliases;
pub mod backend;
pub mod descriptors;
pub mod diagnostics;
pub mod lines;
pub mod nul;
pub mod profile;
pub mod sbpl;
pub mod seatbelt;

pub use backend::MacosBackend;
