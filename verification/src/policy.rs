//! Declarative sandbox policies.
//!
//! Policies are plain data. Filesystem access starts denied by default. Rules
//! are evaluated in declaration order, and for each independent right the last
//! matching rule wins. Write access does not imply read access, and execute
//! access does not imply read access.
use crate::path::SandboxPath;
use vstd::prelude::*;

verus! {

/// A single filesystem rule. Everything beneath `path` is covered.
///
/// By default the sandbox grants no filesystem access at all. Backends must
/// apply exactly the filesystem rules declared here. For each independent
/// right (read, write, execute), rules are evaluated in declaration order and
/// the last matching rule wins.
#[derive(Debug, PartialEq, Eq)]
pub enum FsAccess {
    /// Grant read access to `path` and everything beneath it.
    ReadAllow(SandboxPath),
    /// Deny read access to `path` and everything beneath it.
    ReadDeny(SandboxPath),
    /// Grant write access to `path` and everything beneath it.
    WriteAllow(SandboxPath),
    /// Deny write access to `path` and everything beneath it.
    WriteDeny(SandboxPath),
    /// Grant execute access to `path` and everything beneath it.
    ExecuteAllow(SandboxPath),
    /// Deny execute access to `path` and everything beneath it.
    ExecuteDeny(SandboxPath),
}

/// The independent rights that filesystem rules speak of.
#[derive(Debug, Clone, Copy, PartialEq, Eq, Structural)]
pub enum FsRight {
    /// Reading files and listing directories.
    Read,
    /// Writing, creating, removing and renaming.
    Write,
    /// Executing files.
    Execute,
}

/// What a rule does to the right it names.
#[derive(Debug, Clone, Copy, PartialEq, Eq, Structural)]
pub enum RuleEffect {
    /// The right is granted.
    Allow,
    /// The right is withheld.
    Deny,
}

impl FsAccess {
    /// The right that the rule is about.
    pub open spec fn spec_right(self) -> FsRight {
        match self {
            FsAccess::ReadAllow(_) | FsAccess::ReadDeny(_) => FsRight::Read,
            FsAccess::WriteAllow(_) | FsAccess::WriteDeny(_) => FsRight::Write,
            FsAccess::ExecuteAllow(_) | FsAccess::ExecuteDeny(_) => FsRight::Execute,
        }
    }

    /// Whether the rule grants or withholds its right.
    pub open spec fn spec_effect(self) -> RuleEffect {
        match self {
            FsAccess::ReadAllow(_) | FsAccess::WriteAllow(_) | FsAccess::ExecuteAllow(_) =>
                RuleEffect::Allow,
            FsAccess::ReadDeny(_) | FsAccess::WriteDeny(_) | FsAccess::ExecuteDeny(_) =>
                RuleEffect::Deny,
        }
    }

    /// The path that the rule covers.
    pub open spec fn spec_path(self) -> SandboxPath {
        match self {
            FsAccess::ReadAllow(path) | FsAccess::ReadDeny(path) | FsAccess::WriteAllow(path)
            | FsAccess::WriteDeny(path) | FsAccess::ExecuteAllow(path)
            | FsAccess::ExecuteDeny(path) => path,
        }
    }

    /// The right that the rule is about.
    pub fn right(&self) -> (right: FsRight)
        ensures
            right == self.spec_right(),
    {
        match self {
            FsAccess::ReadAllow(_) | FsAccess::ReadDeny(_) => FsRight::Read,
            FsAccess::WriteAllow(_) | FsAccess::WriteDeny(_) => FsRight::Write,
            FsAccess::ExecuteAllow(_) | FsAccess::ExecuteDeny(_) => FsRight::Execute,
        }
    }

    /// Whether the rule grants or withholds its right.
    pub fn effect(&self) -> (effect: RuleEffect)
        ensures
            effect == self.spec_effect(),
    {
        match self {
            FsAccess::ReadAllow(_) | FsAccess::WriteAllow(_) | FsAccess::ExecuteAllow(_) => {
                RuleEffect::Allow
            },
            FsAccess::ReadDeny(_) | FsAccess::WriteDeny(_) | FsAccess::ExecuteDeny(_) => {
                RuleEffect::Deny
            },
        }
    }

    /// The path that the rule covers.
    pub fn path(&self) -> (path: &SandboxPath)
        ensures
            *path == self.spec_path(),
    {
        match self {
            FsAccess::ReadAllow(path) | FsAccess::ReadDeny(path) | FsAccess::WriteAllow(path)
            | FsAccess::WriteDeny(path) | FsAccess::ExecuteAllow(path)
            | FsAccess::ExecuteDeny(path) => path,
        }
    }
}

impl Clone for FsAccess {
    fn clone(&self) -> (access: FsAccess)
        ensures
            is_same_rule(*self, access),
    {
        match self {
            FsAccess::ReadAllow(path) => FsAccess::ReadAllow(path.clone()),
            FsAccess::ReadDeny(path) => FsAccess::ReadDeny(path.clone()),
            FsAccess::WriteAllow(path) => FsAccess::WriteAllow(path.clone()),
            FsAccess::WriteDeny(path) => FsAccess::WriteDeny(path.clone()),
            FsAccess::ExecuteAllow(path) => FsAccess::ExecuteAllow(path.clone()),
            FsAccess::ExecuteDeny(path) => FsAccess::ExecuteDeny(path.clone()),
        }
    }
}

/// Whether two rules say the same.
pub open spec fn is_same_rule(rule: FsAccess, other: FsAccess) -> bool {
    other.spec_right() == rule.spec_right() && other.spec_effect() == rule.spec_effect()
        && other.spec_path()@ == rule.spec_path()@
}

/// Network confinement level.
/// Default is [`NetworkPolicy::Deny`].
///
/// Unix-domain sockets are host-local IPC, not network reach, so no level
/// restricts `AF_UNIX`.
#[derive(Debug, Clone, Copy, PartialEq, Eq, Structural)]
pub enum NetworkPolicy {
    /// Every socket family except `AF_UNIX` is denied.
    Deny,
    /// Outbound IPv4/IPv6 connections are allowed. Every other socket family
    /// except `AF_UNIX` is denied. Unix-domain sockets, including servers,
    /// remain available.
    ///
    /// On Linux, explicit TCP `bind` is denied on Landlock ABI v4+, but
    /// `listen` on an unbound TCP socket retains its implicit ephemeral bind.
    /// ABI v10+ also denies fixed UDP binds while allowing port 0; ABI v4-v9
    /// leaves UDP bind unrestricted. Backend construction fails for this
    /// policy on ABI v2-v3.
    OutboundOnly,
    /// No network restrictions are added.
    Full,
}

impl Default for NetworkPolicy {
    fn default() -> (policy: NetworkPolicy)
        ensures
            policy == NetworkPolicy::Deny,
    {
        NetworkPolicy::Deny
    }
}

/// Inter-process confinement level.
/// Default is [`IpcPolicy::Strict`].
#[derive(Debug, Clone, Copy, PartialEq, Eq, Structural)]
pub enum IpcPolicy {
    /// Only what the child needs to run is reachable.
    Strict,
    /// Host-local services are reachable.
    Relaxed,
}

impl Default for IpcPolicy {
    fn default() -> (policy: IpcPolicy)
        ensures
            policy == IpcPolicy::Strict,
    {
        IpcPolicy::Strict
    }
}

/// Linux user-namespace policy.
/// Default is [`UserNamespacePolicy::Deny`].
///
/// **Linux-only.** Enforced with seccomp by the Linux backend; the other
/// backends ignore it.
///
/// Creating a user namespace grants the child ambient capabilities inside it,
/// unlocking kernel interfaces (mount machinery, further namespace kinds)
/// that considerably widen the kernel attack surface. No ordinary tool needs
/// this; the notable exception is a child that sets up its own nested sandbox
/// — Chromium/Electron's sandbox, bubblewrap/Flatpak, rootless containers.
#[derive(Debug, Clone, Copy, PartialEq, Eq, Structural)]
pub enum UserNamespacePolicy {
    /// Deny creating or joining namespaces: `unshare(CLONE_NEWUSER)`,
    /// `clone(CLONE_NEWUSER)`, and `setns` fail with `EPERM`; `clone3` fails
    /// with `ENOSYS`. The mount machinery is denied too.
    Deny,
    /// Permit user-namespace creation and the mount machinery, which the
    /// kernel's own capability checks still deny outside a namespace the
    /// child owns.
    Allow,
}

impl Default for UserNamespacePolicy {
    fn default() -> (policy: UserNamespacePolicy)
        ensures
            policy == UserNamespacePolicy::Deny,
    {
        UserNamespacePolicy::Deny
    }
}

/// Which cached Windows ACLs are verified before they are used again.
/// Default is [`WindowsAclVerification::DenyRoots`].
#[derive(Debug, Clone, Copy, PartialEq, Eq, Structural)]
pub enum WindowsAclVerification {
    /// Verify the roots that carry a deny.
    DenyRoots,
    /// Verify nothing.
    Skip,
    /// Verify every root.
    AllRoots,
}

impl Default for WindowsAclVerification {
    fn default() -> (verification: WindowsAclVerification)
        ensures
            verification == WindowsAclVerification::DenyRoots,
    {
        WindowsAclVerification::DenyRoots
    }
}

/// What each rule is about, by its name alone: the right that the name begins with,
/// granted or withheld as the name ends, on the path that it carries.
pub proof fn law_rules_do_what_they_are_called(rule: FsAccess, path: SandboxPath)
    ensures
        rule == FsAccess::ReadAllow(path) ==> rule.spec_right() == FsRight::Read
            && rule.spec_effect() == RuleEffect::Allow && rule.spec_path() == path,
        rule == FsAccess::ReadDeny(path) ==> rule.spec_right() == FsRight::Read
            && rule.spec_effect() == RuleEffect::Deny && rule.spec_path() == path,
        rule == FsAccess::WriteAllow(path) ==> rule.spec_right() == FsRight::Write
            && rule.spec_effect() == RuleEffect::Allow && rule.spec_path() == path,
        rule == FsAccess::WriteDeny(path) ==> rule.spec_right() == FsRight::Write
            && rule.spec_effect() == RuleEffect::Deny && rule.spec_path() == path,
        rule == FsAccess::ExecuteAllow(path) ==> rule.spec_right() == FsRight::Execute
            && rule.spec_effect() == RuleEffect::Allow && rule.spec_path() == path,
        rule == FsAccess::ExecuteDeny(path) ==> rule.spec_right() == FsRight::Execute
            && rule.spec_effect() == RuleEffect::Deny && rule.spec_path() == path,
{
}

/// Rules that say the same have the same name and the same bytes as their path.
pub proof fn law_same_rules_have_the_same_name(rule: FsAccess, other: FsAccess)
    requires
        is_same_rule(rule, other),
    ensures
        rule is ReadAllow <==> other is ReadAllow,
        rule is ReadDeny <==> other is ReadDeny,
        rule is WriteAllow <==> other is WriteAllow,
        rule is WriteDeny <==> other is WriteDeny,
        rule is ExecuteAllow <==> other is ExecuteAllow,
        rule is ExecuteDeny <==> other is ExecuteDeny,
        rule.spec_path()@ == other.spec_path()@,
{
}

} // verus!
