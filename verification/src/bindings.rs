//! The options of the Node-API bindings and the policy that they describe.
use crate::builder::{env_with, law_last_value_of_a_variable_wins};
use crate::command::{OsText, SandboxCommand, StdioMode};
use crate::config::{EnvMap, ResourceLimits, SandboxConfig};
use crate::path::SandboxPath;
use crate::policy::{
    FsAccess, FsRight, IpcPolicy, NetworkPolicy, RuleEffect, UserNamespacePolicy,
    WindowsAclVerification,
};
use crate::scan::{is_at, is_same};
use vstd::prelude::*;
use vstd::utf8::encode_utf8;

pub mod streams;

verus! {

/// Network confinement level for the child: `"deny"` | `"outbound-only"` |
/// `"full"`.
#[derive(Debug, Clone, Copy, PartialEq, Eq, Structural)]
pub enum JsNetworkPolicy {
    /// `"deny"`.
    Deny,
    /// `"outbound-only"`.
    OutboundOnly,
    /// `"full"`.
    Full,
}

/// Linux-only user-namespace policy for the child: `"deny"` | `"allow"`.
#[derive(Debug, Clone, Copy, PartialEq, Eq, Structural)]
pub enum JsUserNamespacePolicy {
    /// `"deny"`.
    Deny,
    /// `"allow"`.
    Allow,
}

/// Disposition of a child standard stream: `"inherit"` shares the parent's
/// stream, `"pipe"` connects a pipe, and `"ignore"` the platform null device.
#[derive(Debug, Clone, Copy, PartialEq, Eq, Structural)]
pub enum JsStdioMode {
    /// `"inherit"`.
    Inherit,
    /// `"pipe"`.
    Pipe,
    /// `"ignore"`.
    Ignore,
}

/// What a filesystem rule does.
#[derive(Debug, Clone, Copy, PartialEq, Eq, Structural)]
pub enum JsFsAccessKind {
    /// `"read-allow"`.
    ReadAllow,
    /// `"read-deny"`.
    ReadDeny,
    /// `"write-allow"`.
    WriteAllow,
    /// `"write-deny"`.
    WriteDeny,
    /// `"execute-allow"`.
    ExecuteAllow,
    /// `"execute-deny"`.
    ExecuteDeny,
}

/// A filesystem rule.
#[derive(Debug, PartialEq, Eq)]
pub struct JsFsAccess {
    /// What the rule does.
    pub kind: JsFsAccessKind,
    /// Path the rule covers recursively.
    pub path: String,
}

/// Sandbox policy. All fields optional; omitting everything yields no filesystem
/// or network access and an empty environment.
#[derive(Debug, PartialEq, Eq, Default)]
pub struct SandboxOptions {
    /// Filesystem rules, in declaration order. Later matching rules override
    /// earlier rules for the same right.
    pub fs: Option<Vec<JsFsAccess>>,
    /// Network confinement level; `"deny"` if omitted.
    pub network: Option<JsNetworkPolicy>,
    /// Linux-only host pathname Unix socket or path-hierarchy grants.
    pub linux_unix_sockets: Option<Vec<String>>,
    /// Linux-only user-namespace policy; `"deny"` if omitted.
    pub linux_user_namespaces: Option<JsUserNamespacePolicy>,
    /// Address-space cap in megabytes.
    pub memory_limit_mb: Option<u32>,
    /// CPU-time cap in seconds.
    pub cpu_time_limit_secs: Option<u32>,
    /// Maximum number of processes.
    pub max_processes: Option<u32>,
    /// The ONLY environment variables the child sees, as names and values.
    pub env: Option<Vec<(String, String)>>,
    /// macOS-only trusted Seatbelt policy imports.
    pub darwin_sandbox_profiles: Option<Vec<String>>,
    /// Windows-only AppContainer cache namespace.
    pub windows_cache_namespace: Option<String>,
    /// Windows-only override for the directory holding ACL manifests.
    pub windows_manifest_dir: Option<String>,
    /// Windows-only startup ACL verification: `"none"` | `"deny-roots"`
    /// (default) | `"all-roots"`.
    pub windows_acl_verification: Option<String>,
}

/// Per-spawn launch options.
#[derive(Debug, PartialEq, Eq, Default)]
pub struct SandboxSpawnOptions {
    /// Working directory for the child. Defaults to the parent's.
    pub cwd: Option<String>,
    /// stdin disposition; `"inherit"` if omitted.
    pub stdin: Option<JsStdioMode>,
    /// stdout disposition; `"inherit"` if omitted.
    pub stdout: Option<JsStdioMode>,
    /// stderr disposition; `"inherit"` if omitted.
    pub stderr: Option<JsStdioMode>,
}

/// One-shot sandbox policy and launch options.
#[derive(Debug, PartialEq, Eq, Default)]
pub struct SpawnOptions {
    /// See [`SandboxOptions::fs`].
    pub fs: Option<Vec<JsFsAccess>>,
    /// See [`SandboxOptions::network`].
    pub network: Option<JsNetworkPolicy>,
    /// See [`SandboxOptions::linux_unix_sockets`].
    pub linux_unix_sockets: Option<Vec<String>>,
    /// See [`SandboxOptions::linux_user_namespaces`].
    pub linux_user_namespaces: Option<JsUserNamespacePolicy>,
    /// See [`SandboxOptions::memory_limit_mb`].
    pub memory_limit_mb: Option<u32>,
    /// See [`SandboxOptions::cpu_time_limit_secs`].
    pub cpu_time_limit_secs: Option<u32>,
    /// See [`SandboxOptions::max_processes`].
    pub max_processes: Option<u32>,
    /// See [`SandboxOptions::env`].
    pub env: Option<Vec<(String, String)>>,
    /// See [`SandboxOptions::darwin_sandbox_profiles`].
    pub darwin_sandbox_profiles: Option<Vec<String>>,
    /// See [`SandboxOptions::windows_cache_namespace`].
    pub windows_cache_namespace: Option<String>,
    /// See [`SandboxOptions::windows_manifest_dir`].
    pub windows_manifest_dir: Option<String>,
    /// See [`SandboxOptions::windows_acl_verification`].
    pub windows_acl_verification: Option<String>,
    /// See [`SandboxSpawnOptions::cwd`].
    pub cwd: Option<String>,
    /// See [`SandboxSpawnOptions::stdin`].
    pub stdin: Option<JsStdioMode>,
    /// See [`SandboxSpawnOptions::stdout`].
    pub stdout: Option<JsStdioMode>,
    /// See [`SandboxSpawnOptions::stderr`].
    pub stderr: Option<JsStdioMode>,
}

impl SpawnOptions {
    /// Parts the policy from the launch options.
    pub fn split(self) -> (parts: (SandboxOptions, SandboxSpawnOptions))
        ensures
            parts.0 == (SandboxOptions {
                fs: self.fs,
                network: self.network,
                linux_unix_sockets: self.linux_unix_sockets,
                linux_user_namespaces: self.linux_user_namespaces,
                memory_limit_mb: self.memory_limit_mb,
                cpu_time_limit_secs: self.cpu_time_limit_secs,
                max_processes: self.max_processes,
                env: self.env,
                darwin_sandbox_profiles: self.darwin_sandbox_profiles,
                windows_cache_namespace: self.windows_cache_namespace,
                windows_manifest_dir: self.windows_manifest_dir,
                windows_acl_verification: self.windows_acl_verification,
            }),
            parts.1 == (SandboxSpawnOptions {
                cwd: self.cwd,
                stdin: self.stdin,
                stdout: self.stdout,
                stderr: self.stderr,
            }),
    {
        (
            SandboxOptions {
                fs: self.fs,
                network: self.network,
                linux_unix_sockets: self.linux_unix_sockets,
                linux_user_namespaces: self.linux_user_namespaces,
                memory_limit_mb: self.memory_limit_mb,
                cpu_time_limit_secs: self.cpu_time_limit_secs,
                max_processes: self.max_processes,
                env: self.env,
                darwin_sandbox_profiles: self.darwin_sandbox_profiles,
                windows_cache_namespace: self.windows_cache_namespace,
                windows_manifest_dir: self.windows_manifest_dir,
                windows_acl_verification: self.windows_acl_verification,
            },
            SandboxSpawnOptions {
                cwd: self.cwd,
                stdin: self.stdin,
                stdout: self.stdout,
                stderr: self.stderr,
            },
        )
    }
}

/// An option with a value that it cannot have.
#[derive(Debug, PartialEq, Eq)]
pub struct InvalidOption {
    /// What is wrong, and what was expected.
    pub message: String,
}

/// The text that `{:?}` makes of a string.
pub uninterp spec fn quoted(text: Seq<char>) -> Seq<char>;

/// Formats a string with the `Debug` impl of `str`: the text between double
/// quotes, with escapes. Which characters are escaped, and how, is left to the
/// name `quoted`.
#[verifier::external_body]
fn debug_text(text: &str) -> (shown: String)
    ensures
        shown@ == quoted(text@),
{
    format!("{text:?}")
}

/// The network policy of an option.
pub open spec fn network_of(network: Option<JsNetworkPolicy>) -> NetworkPolicy {
    match network {
        None | Some(JsNetworkPolicy::Deny) => NetworkPolicy::Deny,
        Some(JsNetworkPolicy::OutboundOnly) => NetworkPolicy::OutboundOnly,
        Some(JsNetworkPolicy::Full) => NetworkPolicy::Full,
    }
}

/// The user-namespace policy of an option.
pub open spec fn user_namespaces_of(policy: Option<JsUserNamespacePolicy>) -> UserNamespacePolicy {
    match policy {
        None | Some(JsUserNamespacePolicy::Deny) => UserNamespacePolicy::Deny,
        Some(JsUserNamespacePolicy::Allow) => UserNamespacePolicy::Allow,
    }
}

/// The right and the effect of a rule's kind.
pub open spec fn meaning_of(kind: JsFsAccessKind) -> (FsRight, RuleEffect) {
    match kind {
        JsFsAccessKind::ReadAllow => (FsRight::Read, RuleEffect::Allow),
        JsFsAccessKind::ReadDeny => (FsRight::Read, RuleEffect::Deny),
        JsFsAccessKind::WriteAllow => (FsRight::Write, RuleEffect::Allow),
        JsFsAccessKind::WriteDeny => (FsRight::Write, RuleEffect::Deny),
        JsFsAccessKind::ExecuteAllow => (FsRight::Execute, RuleEffect::Allow),
        JsFsAccessKind::ExecuteDeny => (FsRight::Execute, RuleEffect::Deny),
    }
}

/// Whether `access` is the rule that the option describes.
pub open spec fn is_rule(option: JsFsAccess, access: FsAccess) -> bool {
    (access.spec_right(), access.spec_effect()) == meaning_of(option.kind)
        && access.spec_path()@ == encode_utf8(option.path@)
}

/// Whether `fs` are the rules that the options describe, in their order.
pub open spec fn are_rules(options: Seq<JsFsAccess>, fs: Seq<FsAccess>) -> bool {
    fs.len() == options.len() && forall|i: int|
        0 <= i < fs.len() ==> is_rule(options[i], #[trigger] fs[i])
}

/// Whether `paths` are the given paths, in their order.
pub open spec fn are_paths(texts: Seq<String>, paths: Seq<SandboxPath>) -> bool {
    paths.len() == texts.len() && forall|i: int|
        0 <= i < paths.len() ==> (#[trigger] paths[i])@ == encode_utf8(texts[i]@)
}

/// What is listed, or nothing.
pub open spec fn listed<T>(list: Option<Vec<T>>) -> Seq<T> {
    match list {
        Some(list) => list@,
        None => seq![],
    }
}

/// A number, widened.
pub open spec fn widened(n: Option<u32>) -> Option<u64> {
    match n {
        Some(n) => Some(n as u64),
        None => None,
    }
}

/// The limits of some options.
pub open spec fn limits_of(options: SandboxOptions) -> ResourceLimits {
    ResourceLimits {
        memory_bytes: match options.memory_limit_mb {
            Some(mb) => Some((mb * 1048576) as u64),
            None => None,
        },
        cpu_time_secs: widened(options.cpu_time_limit_secs),
        max_processes: widened(options.max_processes),
    }
}

/// The ACL verification of an option, if it has a value that it can have.
pub open spec fn acl_verification_of(option: Option<String>) -> Option<WindowsAclVerification> {
    match option {
        None => Some(WindowsAclVerification::DenyRoots),
        Some(text) => if text@ == "deny-roots"@ {
            Some(WindowsAclVerification::DenyRoots)
        } else if text@ == "none"@ {
            Some(WindowsAclVerification::Skip)
        } else if text@ == "all-roots"@ {
            Some(WindowsAclVerification::AllRoots)
        } else {
            None
        },
    }
}

/// The message for an ACL verification that there is not.
pub open spec fn invalid_acl_message(shown: Seq<char>) -> Seq<char> {
    "invalid windowsAclVerification "@ + shown
        + ": expected \"none\", \"deny-roots\", or \"all-roots\""@
}

/// Whether `config` is the policy that the options describe.
pub open spec fn is_policy_of(options: SandboxOptions, config: SandboxConfig) -> bool {
    &&& are_rules(listed(options.fs), config.fs@)
    &&& config.network == network_of(options.network)
    &&& config.ipc == IpcPolicy::Strict
    &&& config.limits == limits_of(options)
    &&& config.env@ == env_with(Map::empty(), listed(options.env))
    &&& are_paths(listed(options.linux_unix_sockets), config.linux_unix_sockets@)
    &&& config.linux_user_namespaces == user_namespaces_of(options.linux_user_namespaces)
    &&& are_paths(listed(options.darwin_sandbox_profiles), config.darwin_sandbox_profiles@)
    &&& config.windows_cache_namespace == options.windows_cache_namespace
    &&& match options.windows_manifest_dir {
        Some(dir) => config.windows_manifest_dir matches Some(path) && path@ == encode_utf8(dir@),
        None => config.windows_manifest_dir is None,
    }
    &&& acl_verification_of(options.windows_acl_verification) == Some(
        config.windows_acl_verification,
    )
}

/// The message for an ACL verification that there is not. `shown` is the value
/// between quotes.
pub fn invalid_acl_text(shown: &str) -> (message: String)
    ensures
        message@ == invalid_acl_message(shown@),
{
    let mut message = String::from_str("invalid windowsAclVerification ");
    message.append(shown);
    message.append(": expected \"none\", \"deny-roots\", or \"all-roots\"");
    message
}

/// The rule that an option describes.
fn rule_from(option: &JsFsAccess) -> (access: FsAccess)
    ensures
        is_rule(*option, access),
{
    let path = SandboxPath::from(option.path.as_str());
    match option.kind {
        JsFsAccessKind::ReadAllow => FsAccess::ReadAllow(path),
        JsFsAccessKind::ReadDeny => FsAccess::ReadDeny(path),
        JsFsAccessKind::WriteAllow => FsAccess::WriteAllow(path),
        JsFsAccessKind::WriteDeny => FsAccess::WriteDeny(path),
        JsFsAccessKind::ExecuteAllow => FsAccess::ExecuteAllow(path),
        JsFsAccessKind::ExecuteDeny => FsAccess::ExecuteDeny(path),
    }
}

/// The rules that the options describe.
fn rules_from(options: &Option<Vec<JsFsAccess>>) -> (fs: Vec<FsAccess>)
    ensures
        are_rules(listed(*options), fs@),
{
    let mut fs: Vec<FsAccess> = Vec::new();
    match options {
        Some(options) => {
            let mut i: usize = 0;
            while i < options.len()
                invariant
                    i <= options@.len(),
                    fs@.len() == i,
                    forall|k: int| 0 <= k < i ==> is_rule(options@[k], #[trigger] fs@[k]),
                decreases options.len() - i,
            {
                fs.push(rule_from(&options[i]));
                i += 1;
            }
        },
        None => {},
    }
    fs
}

/// The listed paths.
fn paths_from(texts: &Option<Vec<String>>) -> (paths: Vec<SandboxPath>)
    ensures
        are_paths(listed(*texts), paths@),
{
    let mut paths: Vec<SandboxPath> = Vec::new();
    match texts {
        Some(texts) => {
            let mut i: usize = 0;
            while i < texts.len()
                invariant
                    i <= texts@.len(),
                    paths@.len() == i,
                    forall|k: int|
                        0 <= k < i ==> (#[trigger] paths@[k])@ == encode_utf8(texts@[k]@),
                decreases texts.len() - i,
            {
                paths.push(SandboxPath::from(texts[i].as_str()));
                i += 1;
            }
        },
        None => {},
    }
    paths
}

/// The listed variables; of two with the same name the later one counts.
fn env_from(vars: &Option<Vec<(String, String)>>) -> (env: EnvMap)
    ensures
        env@ == env_with(Map::empty(), listed(*vars)),
{
    let mut env = EnvMap::new();
    match vars {
        Some(vars) => {
            let mut i: usize = 0;
            assert(vars@.take(0) =~= seq![]);
            while i < vars.len()
                invariant
                    i <= vars@.len(),
                    env@ == env_with(Map::empty(), vars@.take(i as int)),
                decreases vars.len() - i,
            {
                env.insert(vars[i].0.clone(), vars[i].1.clone());
                assert(vars@.take(i + 1).drop_last() =~= vars@.take(i as int));
                i += 1;
            }
            assert(vars@.take(i as int) =~= vars@);
        },
        None => {},
    }
    env
}

/// The ACL verification of an option.
fn acl_verification_from(option: &Option<String>) -> (verification: Result<
    WindowsAclVerification,
    InvalidOption,
>)
    ensures
        match verification {
            Ok(verification) => acl_verification_of(*option) == Some(verification),
            Err(invalid) => {
                &&& acl_verification_of(*option) is None
                &&& invalid.message@ == invalid_acl_message(quoted(option->0@))
            },
        },
{
    match option {
        None => Ok(WindowsAclVerification::DenyRoots),
        Some(text) => if is_same(text.as_str(), "deny-roots") {
            Ok(WindowsAclVerification::DenyRoots)
        } else if is_same(text.as_str(), "none") {
            Ok(WindowsAclVerification::Skip)
        } else if is_same(text.as_str(), "all-roots") {
            Ok(WindowsAclVerification::AllRoots)
        } else {
            let shown = debug_text(text.as_str());
            Err(InvalidOption { message: invalid_acl_text(shown.as_str()) })
        },
    }
}

/// The policy that some options describe. The one option that can have a value
/// that it cannot mean anything by is the ACL verification.
pub fn build_config(options: SandboxOptions) -> (config: Result<SandboxConfig, InvalidOption>)
    ensures
        match config {
            Ok(config) => {
                &&& is_policy_of(options, config)
                &&& options.network == Some(JsNetworkPolicy::Full) <==> config.network
                    == NetworkPolicy::Full
                &&& options.network == Some(JsNetworkPolicy::OutboundOnly) <==> config.network
                    == NetworkPolicy::OutboundOnly
            },
            Err(invalid) => {
                &&& acl_verification_of(options.windows_acl_verification) is None
                &&& invalid.message@ == invalid_acl_message(
                    quoted(options.windows_acl_verification->0@),
                )
            },
        },
{
    let fs = rules_from(&options.fs);
    let darwin_sandbox_profiles = paths_from(&options.darwin_sandbox_profiles);
    let env = env_from(&options.env);
    let limits = ResourceLimits {
        memory_bytes: match options.memory_limit_mb {
            Some(mb) => Some(mb as u64 * 1048576),
            None => None,
        },
        cpu_time_secs: match options.cpu_time_limit_secs {
            Some(secs) => Some(secs as u64),
            None => None,
        },
        max_processes: match options.max_processes {
            Some(n) => Some(n as u64),
            None => None,
        },
    };
    let network = match options.network {
        None | Some(JsNetworkPolicy::Deny) => NetworkPolicy::Deny,
        Some(JsNetworkPolicy::OutboundOnly) => NetworkPolicy::OutboundOnly,
        Some(JsNetworkPolicy::Full) => NetworkPolicy::Full,
    };
    let linux_user_namespaces = match options.linux_user_namespaces {
        None | Some(JsUserNamespacePolicy::Deny) => UserNamespacePolicy::Deny,
        Some(JsUserNamespacePolicy::Allow) => UserNamespacePolicy::Allow,
    };
    let windows_manifest_dir = match &options.windows_manifest_dir {
        Some(dir) => Some(SandboxPath::from(dir.as_str())),
        None => None,
    };
    let windows_acl_verification = match acl_verification_from(
        &options.windows_acl_verification,
    ) {
        Ok(verification) => verification,
        Err(invalid) => {
            return Err(invalid);
        },
    };
    let linux_unix_sockets = paths_from(&options.linux_unix_sockets);
    Ok(
        SandboxConfig {
            fs,
            network,
            ipc: IpcPolicy::Strict,
            limits,
            env,
            linux_unix_sockets,
            linux_user_namespaces,
            darwin_sandbox_profiles,
            windows_cache_namespace: options.windows_cache_namespace,
            windows_manifest_dir,
            windows_acl_verification,
        },
    )
}

/// Whether a stream is connected as an option says.
pub open spec fn is_stream_of<F>(option: Option<JsStdioMode>, mode: StdioMode<F>) -> bool {
    match option {
        None | Some(JsStdioMode::Inherit) => mode is Inherit,
        Some(JsStdioMode::Pipe) => mode is Piped,
        Some(JsStdioMode::Ignore) => mode is Null,
    }
}

/// How a stream is connected.
fn stream_from<F>(option: Option<JsStdioMode>) -> (mode: StdioMode<F>)
    ensures
        is_stream_of(option, mode),
{
    match option {
        None | Some(JsStdioMode::Inherit) => StdioMode::Inherit,
        Some(JsStdioMode::Pipe) => StdioMode::Piped,
        Some(JsStdioMode::Ignore) => StdioMode::Null,
    }
}

/// The command that a call describes.
pub fn child_command<F>(
    program: &str,
    args: &Option<Vec<String>>,
    launch: &SandboxSpawnOptions,
) -> (command: SandboxCommand<F>)
    ensures
        command.program@ == encode_utf8(program@),
        command.args@.len() == listed(*args).len(),
        forall|i: int|
            0 <= i < command.args@.len() ==> (#[trigger] command.args@[i])@ == encode_utf8(
                listed(*args)[i]@,
            ),
        match launch.cwd {
            Some(cwd) => command.current_dir matches Some(dir) && dir@ == encode_utf8(cwd@),
            None => command.current_dir is None,
        },
        is_stream_of(launch.stdin, command.stdin),
        is_stream_of(launch.stdout, command.stdout),
        is_stream_of(launch.stderr, command.stderr),
{
    let mut words: Vec<OsText> = Vec::new();
    match args {
        Some(args) => {
            let mut i: usize = 0;
            while i < args.len()
                invariant
                    i <= args@.len(),
                    words@.len() == i,
                    forall|k: int|
                        0 <= k < i ==> (#[trigger] words@[k])@ == encode_utf8(args@[k]@),
                decreases args.len() - i,
            {
                words.push(OsText::from(args[i].as_str()));
                i += 1;
            }
        },
        None => {},
    }
    let mut command: SandboxCommand<F> = SandboxCommand::new(OsText::from(program));
    command.args = words;
    command.current_dir = match &launch.cwd {
        Some(cwd) => Some(SandboxPath::from(cwd.as_str())),
        None => None,
    };
    command.stdin = stream_from(launch.stdin);
    command.stdout = stream_from(launch.stdout);
    command.stderr = stream_from(launch.stderr);
    command
}

/// Options that say nothing describe the policy that allows nothing.
pub proof fn law_no_options_allow_nothing(options: SandboxOptions, config: SandboxConfig)
    requires
        is_policy_of(options, config),
        options.fs is None,
        options.network is None,
        options.linux_unix_sockets is None,
        options.linux_user_namespaces is None,
        options.memory_limit_mb is None,
        options.cpu_time_limit_secs is None,
        options.max_processes is None,
        options.env is None,
        options.darwin_sandbox_profiles is None,
        options.windows_cache_namespace is None,
        options.windows_manifest_dir is None,
        options.windows_acl_verification is None,
    ensures
        config.is_default(),
{
}

/// Each value of the network option stands for the policy of the same name, and none
/// for the one that denies. So every policy can be asked for, and different values
/// ask for different policies.
pub proof fn law_network_option_names_the_policy(options: SandboxOptions, config: SandboxConfig)
    requires
        is_policy_of(options, config),
    ensures
        options.network == Some(JsNetworkPolicy::Full) <==> config.network == NetworkPolicy::Full,
        options.network == Some(JsNetworkPolicy::OutboundOnly) <==> config.network
            == NetworkPolicy::OutboundOnly,
        options.network == Some(JsNetworkPolicy::Deny) || options.network is None
            <==> config.network == NetworkPolicy::Deny,
{
}

/// User namespaces are allowed exactly where the option says so.
pub proof fn law_user_namespaces_are_asked_for(options: SandboxOptions, config: SandboxConfig)
    requires
        is_policy_of(options, config),
    ensures
        options.linux_user_namespaces == Some(JsUserNamespacePolicy::Allow)
            <==> config.linux_user_namespaces == UserNamespacePolicy::Allow,
        options.linux_user_namespaces == Some(JsUserNamespacePolicy::Deny)
            || options.linux_user_namespaces is None <==> config.linux_user_namespaces
            == UserNamespacePolicy::Deny,
        config.ipc == IpcPolicy::Strict,
{
}

/// A limit is imposed exactly where its option is given: memory in megabytes of
/// 1048576 bytes, CPU time in seconds, processes by their number.
pub proof fn law_limits_are_those_given(options: SandboxOptions, config: SandboxConfig)
    requires
        is_policy_of(options, config),
    ensures
        options.memory_limit_mb is Some <==> config.limits.memory_bytes is Some,
        options.memory_limit_mb is Some ==> config.limits.memory_bytes->0
            == options.memory_limit_mb->0 * 1024 * 1024,
        options.cpu_time_limit_secs is Some <==> config.limits.cpu_time_secs is Some,
        options.cpu_time_limit_secs is Some ==> config.limits.cpu_time_secs->0
            == options.cpu_time_limit_secs->0,
        options.max_processes is Some <==> config.limits.max_processes is Some,
        options.max_processes is Some ==> config.limits.max_processes->0
            == options.max_processes->0,
{
}

/// Each listed rule becomes the rule of the same name on the same path, at the same
/// place, and there are no others.
pub proof fn law_rules_keep_their_names_and_order(options: SandboxOptions, config: SandboxConfig)
    requires
        is_policy_of(options, config),
    ensures
        options.fs is None ==> config.fs@.len() == 0,
        options.fs matches Some(fs) ==> {
            &&& config.fs@.len() == fs@.len()
            &&& forall|i: int|
                #![trigger config.fs@[i]]
                0 <= i < fs@.len() ==> {
                    let kind = fs@[i].kind;
                    let rule = config.fs@[i];
                    &&& kind == JsFsAccessKind::ReadAllow <==> rule is ReadAllow
                    &&& kind == JsFsAccessKind::ReadDeny <==> rule is ReadDeny
                    &&& kind == JsFsAccessKind::WriteAllow <==> rule is WriteAllow
                    &&& kind == JsFsAccessKind::WriteDeny <==> rule is WriteDeny
                    &&& kind == JsFsAccessKind::ExecuteAllow <==> rule is ExecuteAllow
                    &&& kind == JsFsAccessKind::ExecuteDeny <==> rule is ExecuteDeny
                    &&& rule.spec_path()@ == encode_utf8(fs@[i].path@)
                }
        },
{
    if options.fs is Some {
        let fs = options.fs->0;
        assert forall|i: int|
            #![trigger config.fs@[i]]
            0 <= i < fs@.len() implies is_rule(fs@[i], config.fs@[i]) by {
            assert(listed(options.fs)[i] == fs@[i]);
        }
    }
}

/// The child sees the listed variables and no others, each with the value that was
/// listed for it last.
pub proof fn law_only_listed_variables_are_seen(
    options: SandboxOptions,
    config: SandboxConfig,
    name: Seq<char>,
)
    requires
        is_policy_of(options, config),
    ensures
        options.env is None ==> !config.env@.contains_key(name),
        options.env matches Some(vars) ==> {
            &&& config.env@.contains_key(name) <==> exists|i: int|
                0 <= i < vars@.len() && (#[trigger] vars@[i]).0@ == name
            &&& forall|i: int|
                0 <= i < vars@.len() && (#[trigger] vars@[i]).0@ == name && (forall|j: int|
                    i < j < vars@.len() ==> (#[trigger] vars@[j]).0@ != name)
                    ==> config.env@.contains_pair(name, vars@[i].1@)
        },
{
    let empty = Map::<Seq<char>, Seq<char>>::empty();
    law_last_value_of_a_variable_wins(empty, listed(options.env), name);
    if options.env is Some {
        let vars = options.env->0@;
        assert(vars == listed(options.env));
        if exists|i: int| 0 <= i < vars.len() && (#[trigger] vars[i]).0@ == name {
            lemma_last_mention(vars, name, vars.len() as int);
        }
    }
}

/// What is listed at all is listed for the last time somewhere.
proof fn lemma_last_mention(vars: Seq<(String, String)>, name: Seq<char>, n: int)
    requires
        0 <= n <= vars.len(),
        exists|i: int| 0 <= i < n && (#[trigger] vars[i]).0@ == name,
        forall|j: int| n <= j < vars.len() ==> (#[trigger] vars[j]).0@ != name,
    ensures
        exists|i: int|
            0 <= i < vars.len() && (#[trigger] vars[i]).0@ == name && forall|j: int|
                i < j < vars.len() ==> (#[trigger] vars[j]).0@ != name,
    decreases n,
{
    if vars[n - 1].0@ != name {
        lemma_last_mention(vars, name, n - 1);
    }
}

/// The paths of the platform options are kept in their order, byte for byte, and the
/// startup check of ACLs is the one that its word names: `deny-roots` where none is
/// given. Only the three words are accepted.
pub proof fn law_platform_options_are_kept(options: SandboxOptions, config: SandboxConfig)
    requires
        is_policy_of(options, config),
    ensures
        options.linux_unix_sockets is None ==> config.linux_unix_sockets@.len() == 0,
        options.linux_unix_sockets matches Some(paths) ==> config.linux_unix_sockets@.len()
            == paths@.len() && forall|i: int|
            0 <= i < paths@.len() ==> (#[trigger] config.linux_unix_sockets@[i])@ == encode_utf8(
                paths@[i]@,
            ),
        options.darwin_sandbox_profiles is None ==> config.darwin_sandbox_profiles@.len() == 0,
        options.darwin_sandbox_profiles matches Some(paths) ==> config.darwin_sandbox_profiles@.len()
            == paths@.len() && forall|i: int|
            0 <= i < paths@.len() ==> (#[trigger] config.darwin_sandbox_profiles@[i])@
                == encode_utf8(paths@[i]@),
        config.windows_cache_namespace == options.windows_cache_namespace,
        config.windows_manifest_dir is Some <==> options.windows_manifest_dir is Some,
        options.windows_manifest_dir matches Some(dir) ==> config.windows_manifest_dir->0@
            == encode_utf8(dir@),
        options.windows_acl_verification is None ==> config.windows_acl_verification
            == WindowsAclVerification::DenyRoots,
        options.windows_acl_verification matches Some(word) ==> {
            &&& word@ == "none"@ <==> config.windows_acl_verification == WindowsAclVerification::Skip
            &&& word@ == "deny-roots"@ <==> config.windows_acl_verification
                == WindowsAclVerification::DenyRoots
            &&& word@ == "all-roots"@ <==> config.windows_acl_verification
                == WindowsAclVerification::AllRoots
        },
{
    reveal_strlit("none");
    reveal_strlit("deny-roots");
    reveal_strlit("all-roots");
    assert("none"@.len() == 4 && "deny-roots"@.len() == 10 && "all-roots"@.len() == 9);
}

/// The options are refused exactly where the ACL check is none of its three words.
pub proof fn law_only_unknown_words_are_refused(option: Option<String>)
    ensures
        acl_verification_of(option) is None <==> option is Some && option->0@ != "none"@
            && option->0@ != "deny-roots"@ && option->0@ != "all-roots"@,
{
}

/// Each value of a stream option connects the stream in its own way; without one the
/// stream is inherited.
pub proof fn law_stream_option_names_the_mode<F>(option: Option<JsStdioMode>, mode: StdioMode<F>)
    requires
        is_stream_of(option, mode),
    ensures
        option is None || option == Some(JsStdioMode::Inherit) <==> mode is Inherit,
        option == Some(JsStdioMode::Pipe) <==> mode is Piped,
        option == Some(JsStdioMode::Ignore) <==> mode is Null,
        !(mode is File),
{
}

/// The message for a word that there is not quotes it and names the three that there are.
pub proof fn law_refused_words_are_quoted(shown: Seq<char>) -> (at: (int, int, int, int))
    ensures
        is_at(invalid_acl_message(shown), shown, at.0),
        is_at(invalid_acl_message(shown), "\"none\""@, at.1),
        is_at(invalid_acl_message(shown), "\"deny-roots\""@, at.2),
        is_at(invalid_acl_message(shown), "\"all-roots\""@, at.3),
{
    reveal_strlit("invalid windowsAclVerification ");
    reveal_strlit(": expected \"none\", \"deny-roots\", or \"all-roots\"");
    reveal_strlit("\"none\"");
    reveal_strlit("\"deny-roots\"");
    reveal_strlit("\"all-roots\"");
    let text = invalid_acl_message(shown);
    let start = 31int;
    let next = start + shown.len();
    assert(text.subrange(start, next) =~= shown);
    assert(text.subrange(next + 11, next + 17) =~= "\"none\""@);
    assert(text.subrange(next + 19, next + 31) =~= "\"deny-roots\""@);
    assert(text.subrange(next + 36, next + 47) =~= "\"all-roots\""@);
    (start, next + 11, next + 19, next + 36)
}

} // verus!
