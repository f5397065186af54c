//! The [`SandboxBuilder`], the primary entry point for callers.
use crate::config::{is_same_config, ResourceLimits, SandboxConfig};
use crate::path::SandboxPath;
use crate::policy::{FsAccess, IpcPolicy, NetworkPolicy};
use vstd::prelude::*;

verus! {

/// Builds a [`SandboxConfig`] using the builder pattern.
///
/// All methods take and return `self` by value for chaining. The default
/// configuration is maximally restrictive: no filesystem access, no network,
/// strict IPC, no resource limits, and an empty environment.
#[derive(Debug)]
pub struct SandboxBuilder {
    config: SandboxConfig,
}

/// The variables of `vars` set one after the other on top of `env`.
pub open spec fn env_with(
    env: Map<Seq<char>, Seq<char>>,
    vars: Seq<(String, String)>,
) -> Map<Seq<char>, Seq<char>>
    decreases vars.len(),
{
    if vars.len() == 0 {
        env
    } else {
        env_with(env, vars.drop_last()).insert(vars.last().0@, vars.last().1@)
    }
}

/// The number of bytes in `mb` megabytes, or the largest number there is.
pub open spec fn megabytes(mb: u64) -> u64 {
    if mb * 1048576 > u64::MAX {
        u64::MAX
    } else {
        (mb * 1048576) as u64
    }
}

impl Default for SandboxBuilder {
    fn default() -> (builder: SandboxBuilder)
        ensures
            builder.so_far().is_default(),
    {
        SandboxBuilder { config: SandboxConfig::default() }
    }
}

impl Clone for SandboxBuilder {
    fn clone(&self) -> (builder: SandboxBuilder)
        ensures
            is_same_config(self.so_far(), builder.so_far()),
    {
        SandboxBuilder { config: self.config.clone() }
    }
}

impl SandboxBuilder {
    /// The configuration as built so far.
    pub closed spec fn so_far(self) -> SandboxConfig {
        self.config
    }

    /// Start from the default (maximally restrictive) configuration.
    pub fn new() -> (builder: SandboxBuilder)
        ensures
            builder.so_far().is_default(),
    {
        SandboxBuilder::default()
    }

    /// Set or extend the filesystem rules, in declaration order.
    pub fn fs(self, rules: Vec<FsAccess>) -> (builder: SandboxBuilder)
        ensures
            builder.so_far().fs@ == self.so_far().fs@ + rules@,
            builder.so_far() == (SandboxConfig { fs: builder.so_far().fs, ..self.so_far() }),
    {
        let mut rules = rules;
        let mut config = self.config;
        config.fs.append(&mut rules);
        SandboxBuilder { config }
    }

    /// Set the network confinement level (last call wins).
    pub fn network(self, policy: NetworkPolicy) -> (builder: SandboxBuilder)
        ensures
            builder.so_far() == (SandboxConfig { network: policy, ..self.so_far() }),
    {
        let mut config = self.config;
        config.network = policy;
        SandboxBuilder { config }
    }

    /// Set the IPC confinement level (last call wins).
    pub fn ipc(self, policy: IpcPolicy) -> (builder: SandboxBuilder)
        ensures
            builder.so_far() == (SandboxConfig { ipc: policy, ..self.so_far() }),
    {
        let mut config = self.config;
        config.ipc = policy;
        SandboxBuilder { config }
    }

    /// Set or extend the macOS Seatbelt `.sb` profile paths.
    pub fn darwin_sandbox_profiles(self, profiles: Vec<SandboxPath>) -> (builder:
        SandboxBuilder)
        ensures
            builder.so_far().darwin_sandbox_profiles@ == self.so_far().darwin_sandbox_profiles@
                + profiles@,
            builder.so_far() == (SandboxConfig {
                darwin_sandbox_profiles: builder.so_far().darwin_sandbox_profiles,
                ..self.so_far()
            }),
    {
        let mut profiles = profiles;
        let mut config = self.config;
        config.darwin_sandbox_profiles.append(&mut profiles);
        SandboxBuilder { config }
    }

    /// Limit address space (virtual memory) to `mb` megabytes.
    pub fn memory_limit_mb(self, mb: u64) -> (builder: SandboxBuilder)
        ensures
            builder.so_far() == (SandboxConfig {
                limits: ResourceLimits {
                    memory_bytes: Some(megabytes(mb)),
                    ..self.so_far().limits
                },
                ..self.so_far()
            }),
    {
        let bytes = match mb.checked_mul(1048576) {
            Some(bytes) => bytes,
            None => u64::MAX,
        };
        let mut config = self.config;
        config.limits.memory_bytes = Some(bytes);
        SandboxBuilder { config }
    }

    /// Limit CPU time to `secs` seconds.
    pub fn cpu_time_limit_secs(self, secs: u64) -> (builder: SandboxBuilder)
        ensures
            builder.so_far() == (SandboxConfig {
                limits: ResourceLimits { cpu_time_secs: Some(secs), ..self.so_far().limits },
                ..self.so_far()
            }),
    {
        let mut config = self.config;
        config.limits.cpu_time_secs = Some(secs);
        SandboxBuilder { config }
    }

    /// Limit the number of processes/threads.
    pub fn max_processes(self, n: u64) -> (builder: SandboxBuilder)
        ensures
            builder.so_far() == (SandboxConfig {
                limits: ResourceLimits { max_processes: Some(n), ..self.so_far().limits },
                ..self.so_far()
            }),
    {
        let mut config = self.config;
        config.limits.max_processes = Some(n);
        SandboxBuilder { config }
    }

    /// Add one environment variable to the (otherwise empty) child environment.
    pub fn env(self, key: String, value: String) -> (builder: SandboxBuilder)
        ensures
            builder.so_far().env@ == self.so_far().env@.insert(key@, value@),
            builder.so_far() == (SandboxConfig { env: builder.so_far().env, ..self.so_far() }),
    {
        let mut config = self.config;
        config.env.insert(key, value);
        SandboxBuilder { config }
    }

    /// Add several environment variables at once.
    pub fn envs(self, vars: Vec<(String, String)>) -> (builder: SandboxBuilder)
        ensures
            builder.so_far().env@ == env_with(self.so_far().env@, vars@),
            builder.so_far() == (SandboxConfig { env: builder.so_far().env, ..self.so_far() }),
    {
        let ghost start = self.so_far();
        let mut config = self.config;
        let mut i: usize = 0;
        assert(vars@.take(0) =~= seq![]);
        while i < vars.len()
            invariant
                i <= vars@.len(),
                config.env@ == env_with(start.env@, vars@.take(i as int)),
                config == (SandboxConfig { env: config.env, ..start }),
            decreases vars.len() - i,
        {
            config.env.insert(vars[i].0.clone(), vars[i].1.clone());
            assert(vars@.take(i + 1).drop_last() =~= vars@.take(i as int));
            i += 1;
        }
        assert(vars@.take(i as int) =~= vars@);
        SandboxBuilder { config }
    }

    /// Finalize into an immutable [`SandboxConfig`].
    pub fn build(self) -> (config: SandboxConfig)
        ensures
            config == self.so_far(),
    {
        self.config
    }
}

/// Whether no two variables have the same name.
pub open spec fn names_differ(vars: Seq<(String, String)>) -> bool {
    forall|i: int, j: int|
        #![trigger vars[i], vars[j]]
        0 <= i < j < vars.len() ==> vars[i].0@ != vars[j].0@
}

/// Whether every variable in `vars` is in `others`, with the same value.
pub open spec fn all_among(vars: Seq<(String, String)>, others: Seq<(String, String)>) -> bool {
    forall|i: int|
        0 <= i < vars.len() ==> exists|j: int|
            0 <= j < others.len() && (#[trigger] others[j]).0@ == (#[trigger] vars[i]).0@
                && others[j].1@ == vars[i].1@
}

/// Where no name is listed twice, each listed variable has its listed value, and
/// every other name is as it was.
proof fn lemma_env_with(
    env: Map<Seq<char>, Seq<char>>,
    vars: Seq<(String, String)>,
    name: Seq<char>,
)
    requires
        names_differ(vars),
    ensures
        forall|i: int|
            0 <= i < vars.len() && (#[trigger] vars[i]).0@ == name ==> env_with(
                env,
                vars,
            ).contains_pair(name, vars[i].1@),
        (forall|i: int| 0 <= i < vars.len() ==> (#[trigger] vars[i]).0@ != name) ==> {
            &&& env_with(env, vars).contains_key(name) == env.contains_key(name)
            &&& env_with(env, vars)[name] == env[name]
        },
    decreases vars.len(),
{
    if vars.len() > 0 {
        let front = vars.drop_last();
        assert forall|i: int, j: int| 0 <= i < j < front.len() implies (#[trigger] front[i]).0@ != (
        #[trigger] front[j]).0@ by {
            assert(vars[i].0@ != vars[j].0@);
        }
        lemma_env_with(env, front, name);
        let last = vars.len() - 1;
        assert forall|i: int| 0 <= i < vars.len() && (#[trigger] vars[i]).0@ == name implies
            env_with(env, vars).contains_pair(name, vars[i].1@) by {
            if i < last {
                assert(front[i] == vars[i]);
                assert(vars[i].0@ != vars[last].0@);
            }
        }
        if forall|i: int| 0 <= i < vars.len() ==> (#[trigger] vars[i]).0@ != name {
            assert(vars[last].0@ != name);
            assert forall|i: int| 0 <= i < front.len() implies (#[trigger] front[i]).0@ != name by {
                assert(vars[i].0@ != name);
            }
        }
    }
}

/// Where no name is listed twice, the order in which variables are listed does not
/// matter.
pub proof fn law_listing_order_does_not_matter(
    env: Map<Seq<char>, Seq<char>>,
    vars: Seq<(String, String)>,
    others: Seq<(String, String)>,
)
    requires
        names_differ(vars),
        names_differ(others),
        all_among(vars, others),
        all_among(others, vars),
    ensures
        env_with(env, vars) == env_with(env, others),
{
    let one = env_with(env, vars);
    let other = env_with(env, others);
    assert forall|name: Seq<char>|
        #![trigger one.dom().contains(name)]
        #![trigger other.dom().contains(name)]
        #![trigger one[name]]
        one.dom().contains(name) == other.dom().contains(name) && one[name] == other[name] by {
        lemma_env_with(env, vars, name);
        lemma_env_with(env, others, name);
        if exists|i: int| 0 <= i < vars.len() && (#[trigger] vars[i]).0@ == name {
            let i = choose|i: int| 0 <= i < vars.len() && (#[trigger] vars[i]).0@ == name;
            let j = choose|j: int|
                0 <= j < others.len() && (#[trigger] others[j]).0@ == vars[i].0@ && others[j].1@
                    == vars[i].1@;
            assert(env_with(env, vars).contains_pair(name, vars[i].1@));
            assert(env_with(env, others).contains_pair(name, others[j].1@));
        } else {
            assert forall|j: int| 0 <= j < others.len() implies (#[trigger] others[j]).0@ != name by {
                let i = choose|i: int|
                    0 <= i < vars.len() && (#[trigger] vars[i]).0@ == others[j].0@ && vars[i].1@
                        == others[j].1@;
                assert(vars[i].0@ != name);
            }
        }
    }
    assert(one =~= other);
}

/// A variable has the value that was listed for it last, and a name that was not
/// listed is as it was.
pub proof fn law_last_value_of_a_variable_wins(
    env: Map<Seq<char>, Seq<char>>,
    vars: Seq<(String, String)>,
    name: Seq<char>,
)
    ensures
        forall|i: int|
            0 <= i < vars.len() && (#[trigger] vars[i]).0@ == name && (forall|j: int|
                i < j < vars.len() ==> (#[trigger] vars[j]).0@ != name) ==> env_with(
                env,
                vars,
            ).contains_pair(name, vars[i].1@),
        (forall|i: int| 0 <= i < vars.len() ==> (#[trigger] vars[i]).0@ != name) ==> {
            &&& env_with(env, vars).contains_key(name) == env.contains_key(name)
            &&& env_with(env, vars)[name] == env[name]
        },
    decreases vars.len(),
{
    if vars.len() > 0 {
        let front = vars.drop_last();
        let last = vars.len() - 1;
        law_last_value_of_a_variable_wins(env, front, name);
        assert forall|i: int|
            0 <= i < vars.len() && (#[trigger] vars[i]).0@ == name && (forall|j: int|
                i < j < vars.len() ==> (#[trigger] vars[j]).0@ != name) implies env_with(
            env,
            vars,
        ).contains_pair(name, vars[i].1@) by {
            if i < last {
                assert(front[i] == vars[i]);
                assert(vars[last].0@ != name);
                assert forall|j: int| i < j < front.len() implies (#[trigger] front[j]).0@ != name by {
                    assert(vars[j].0@ != name);
                }
            }
        }
        if forall|i: int| 0 <= i < vars.len() ==> (#[trigger] vars[i]).0@ != name {
            assert(vars[last].0@ != name);
            assert forall|i: int| 0 <= i < front.len() implies (#[trigger] front[i]).0@ != name by {
                assert(vars[i].0@ != name);
            }
        }
    }
}

/// A megabyte is 1048576 bytes, and what does not fit is the largest cap there is.
pub proof fn law_megabytes_are_bytes(mb: u64)
    ensures
        mb <= 0xfff_ffff_ffff ==> megabytes(mb) == mb * 0x10_0000,
        mb > 0xfff_ffff_ffff ==> megabytes(mb) == 0xffff_ffff_ffff_ffff,
        megabytes(mb) >= mb,
{
}

} // verus!
