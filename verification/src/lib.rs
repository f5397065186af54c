//! Portable sandbox policies and the compilers that turn them into confinement.
pub mod bindings;
mod builder;
mod command;
mod config;
pub mod diagnostics;
mod error;
pub mod linux;
pub mod macos;
mod order;
mod path;
mod policy;
pub mod process;
pub mod rlimit;
mod scan;
mod text;

pub use builder::SandboxBuilder;
pub use command::{OsText, SandboxCommand, StdioMode};
pub use config::{EnvMap, ResourceLimits, SandboxConfig};
pub use error::{Error, ErrorSource};
pub use order::Order;
pub use path::{CanonicalPath, SandboxPath};
pub use policy::{
    FsAccess, FsRight, IpcPolicy, NetworkPolicy, RuleEffect, UserNamespacePolicy,
    WindowsAclVerification,
};
