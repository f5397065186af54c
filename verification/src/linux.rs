//! The Linux backend: Landlock, mount masks, namespaces and seccomp.
pub mod access;
pub mod backend;
pub mod calls;
pub mod diagnostics;
pub mod durability;
pub mod enforcement;
pub mod fs;
pub mod masks;
pub mod mounts;
pub mod ns;
pub mod numbers;
pub mod outcome;
pub mod plan;
pub mod probe;
pub mod rules;
pub mod ruleset;
pub mod seccomp;
pub mod setup;
