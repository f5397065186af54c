//! The Linux sandbox backend.
use crate::config::{is_listing, law_env_entries_are_the_map, SandboxConfig};
use crate::error::{is_unsupported, Error};
use crate::linux::access::{
    grants_beneath, landlock_grants, PinGrant, EXECUTE_ACCESS_FS, READ_ACCESS_FS, WRITE_ACCESS_FS,
};
use crate::linux::durability::is_durable;
use crate::linux::enforcement::{
    declared_effect, is_left_by, law_compiled_rules_are_the_declared_ones,
};
use crate::linux::fs::{
    all_resolved, compile as compile_rules, is_compiled_from, is_normalized, is_pinned,
    is_unresolved, lemma_pins_cover_the_rules, normalize_rules, pins_cover, resolves,
    CompiledRules,
};
use crate::linux::masks::{is_expressible, pins_match, Pin};
use crate::linux::numbers::{Arch, KernelNumbers};
use crate::linux::plan::is_refusal;
use crate::linux::probe::{
    below_floor_text, floor_verdict, namespace_verdict, namespaces_missing, probe_detail,
    ProbeExit, LANDLOCK_FLOOR,
};
use crate::linux::rules::{views, NormalizedRule};
use crate::linux::ruleset::{
    is_ipc_ruleset, is_network_ruleset, law_only_outbound_denies_binding, lets_port, path_bytes, prepare_network, Policy, RulesetRequest,
};
use crate::linux::seccomp::{
    arch_named, build, filters_for, is_built, is_compiled, is_too_large,
    law_architectures_are_known_by_name, program_of, BpfInstruction,
};
use crate::linux::setup::{child_setup, child_step_views, child_steps, ChildPlan, ChildStep};
use crate::path::CanonicalPath;
use crate::policy::{FsRight, NetworkPolicy, RuleEffect};
use vstd::prelude::*;

verus! {

/// The Linux sandbox backend: a policy, compiled.
pub struct LinuxBackend {
    config: SandboxConfig,
    fs_rules: CompiledRules,
    ipc_policy: Policy,
    net_ruleset: Option<RulesetRequest>,
    seccomp_programs: Vec<Vec<BpfInstruction>>,
}

/// Whether `backend` is that of `config` with the compiled filesystem policy
/// `fs_rules`, for a kernel with Landlock ABI `abi` on the architecture named `arch`.
pub open spec fn is_made(
    config: SandboxConfig,
    fs_rules: CompiledRules,
    abi: i32,
    arch: Seq<char>,
    backend: LinuxBackend,
) -> bool {
    &&& backend.policy() == config
    &&& backend.rules() == fs_rules
    &&& backend.ipc().abi == abi
    &&& path_bytes(backend.ipc().unix_sockets@) == (if abi >= 9 {
        path_bytes(config.linux_unix_sockets@)
    } else {
        seq![]
    })
    &&& is_network_ruleset(config.network, abi, Ok(backend.network()))
    &&& is_built(
        config.network,
        config.linux_user_namespaces,
        arch,
        Ok(backend.filters()),
    )
}

/// Whether `error` says why the network policy or the filters of `config` cannot be
/// had.
pub open spec fn is_refused(
    config: SandboxConfig,
    abi: i32,
    arch: Seq<char>,
    error: Error,
) -> bool {
    is_network_ruleset(config.network, abi, Err(error)) || (!(config.network
        == NetworkPolicy::OutboundOnly && abi < 4) && is_built(
        config.network,
        config.linux_user_namespaces,
        arch,
        Err(error),
    ))
}

/// The names and values in a vector of variables.
pub open spec fn variable_views(variables: Seq<(String, String)>) -> Seq<
    (Seq<char>, Seq<char>),
> {
    variables.map_values(|variable: (String, String)| (variable.0@, variable.1@))
}

impl LinuxBackend {
    #[verifier::type_invariant]
    spec fn is_compiled(self) -> bool {
        is_pinned(self.fs_rules)
    }

    /// The policy.
    pub closed spec fn policy(self) -> SandboxConfig {
        self.config
    }

    /// The compiled filesystem policy.
    pub closed spec fn rules(self) -> CompiledRules {
        self.fs_rules
    }

    /// The IPC policy.
    pub closed spec fn ipc(self) -> Policy {
        self.ipc_policy
    }

    /// The ruleset of the network policy, where it needs one.
    pub closed spec fn network(self) -> Option<RulesetRequest> {
        self.net_ruleset
    }

    /// The seccomp filters.
    pub closed spec fn filters(self) -> Vec<Vec<BpfInstruction>> {
        self.seccomp_programs
    }

    /// Creates a backend for a kernel with Landlock ABI `abi` on the architecture
    /// named `arch`. The filesystem policy is compiled before, because the paths
    /// that it pins have to be looked up in between.
    ///
    /// Fails closed below Landlock ABI v2, and below v4 where the network policy
    /// needs it.
    pub fn new(config: SandboxConfig, fs_rules: CompiledRules, abi: i32, arch: &str) -> (backend:
        Result<LinuxBackend, Error>)
        requires
            is_pinned(fs_rules),
        ensures
            match backend {
                Ok(backend) => abi >= LANDLOCK_FLOOR && is_made(
                    config,
                    fs_rules,
                    abi,
                    arch@,
                    backend,
                ),
                Err(error) => if abi < LANDLOCK_FLOOR {
                    is_unsupported(error, below_floor_text())
                } else {
                    is_refused(config, abi, arch@, error)
                },
            },
            abi < 2 ==> (backend matches Err(error) && error is Unsupported),
            arch@ == "x86_64"@ ==> arch_named(arch@) == Some(Arch::X86_64),
            arch@ == "aarch64"@ ==> arch_named(arch@) == Some(Arch::Aarch64),
            arch@ == "riscv64"@ ==> arch_named(arch@) == Some(Arch::Riscv64),
    {
        proof {
            law_architectures_are_known_by_name();
        }
        match floor_verdict(abi) {
            Ok(_) => {},
            Err(error) => {
                return Err(error);
            },
        }
        let ipc_policy = Policy::new(&config, abi);
        let net_ruleset = match prepare_network(config.network, abi) {
            Ok(request) => request,
            Err(error) => {
                return Err(error);
            },
        };
        match build(&config, arch) {
            Ok(seccomp_programs) => Ok(
                LinuxBackend { config, fs_rules, ipc_policy, net_ruleset, seccomp_programs },
            ),
            Err(error) => Err(error),
        }
    }

    /// Creates a backend from what the host answers about the policy. `resolved` holds
    /// what the path of each filesystem rule resolved to, and `pins` one pin for each
    /// of the resolved paths; where a path did not resolve, there need be none.
    /// `namespaces` tells how the probe of the namespaces ended, and `errno_text`
    /// describes the `errno` of a step of it that failed.
    ///
    /// What the compiled policy leaves to the child is what the configuration
    /// declares. Fails closed: below Landlock ABI v2, where a path did not resolve, where the
    /// filesystem policy cannot be enforced, where the host forbids the namespaces,
    /// and where the network policy or the filters cannot be had, in this order.
    pub fn compile(
        config: SandboxConfig,
        resolved: &Vec<Result<CanonicalPath, String>>,
        pins: Vec<Pin>,
        namespaces: ProbeExit,
        errno_text: &str,
        abi: i32,
        arch: &str,
    ) -> (backend: Result<LinuxBackend, Error>)
        requires
            resolved@.len() == config.fs@.len(),
            all_resolved(resolved@) ==> pins_cover(resolved@, pins@),
        ensures
            match backend {
                Ok(backend) => {
                    &&& abi >= LANDLOCK_FLOOR
                    &&& all_resolved(resolved@)
                    &&& namespaces == ProbeExit::Passed
                    &&& exists|rules: Seq<NormalizedRule>|
                        #![trigger is_normalized(config.fs@, resolved@, rules)]
                        is_normalized(config.fs@, resolved@, rules) && is_expressible(rules)
                            && is_durable(rules) && pins_match(rules, pins@) && is_compiled_from(
                            rules,
                            pins@,
                            backend.rules(),
                        )
                    &&& forall|right: FsRight, path: Seq<Seq<u8>>| #[trigger]
                        is_left_by(backend.rules(), right, path) <==> declared_effect(
                            config.fs@,
                            resolved@,
                            right,
                            path,
                        ) == RuleEffect::Allow
                    &&& is_made(config, backend.rules(), abi, arch@, backend)
                },
                Err(error) => if abi < LANDLOCK_FLOOR {
                    is_unsupported(error, below_floor_text())
                } else if !all_resolved(resolved@) {
                    is_unresolved(resolved@, error)
                } else {
                    exists|rules: Seq<NormalizedRule>|
                        #![trigger is_normalized(config.fs@, resolved@, rules)]
                        is_normalized(config.fs@, resolved@, rules) && (is_refusal(rules, error)
                            || (is_expressible(rules) && is_durable(rules) && if namespaces
                            != ProbeExit::Passed {
                            is_unsupported(
                                error,
                                namespaces_missing(probe_detail(namespaces, errno_text@)),
                            )
                        } else {
                            is_refused(config, abi, arch@, error)
                        }))
                },
            },
    {
        match floor_verdict(abi) {
            Ok(_) => {},
            Err(error) => {
                return Err(error);
            },
        }
        let rules = match normalize_rules(&config.fs, resolved) {
            Ok(rules) => rules,
            Err(error) => {
                return Err(error);
            },
        };
        proof {
            assert forall|i: int| 0 <= i < resolved@.len() implies (#[trigger] resolved@[i])
                is Ok by {
                assert(resolves(config.fs@[i], resolved@[i]->Ok_0@, rules@[i]));
            }
            lemma_pins_cover_the_rules(config.fs@, resolved@, rules@, pins@);
        }
        let fs_rules = match compile_rules(&rules, pins) {
            Ok(fs_rules) => fs_rules,
            Err(error) => {
                return Err(error);
            },
        };
        proof {
            assert forall|right: FsRight, path: Seq<Seq<u8>>| #[trigger]
                is_left_by(fs_rules, right, path) <==> declared_effect(
                    config.fs@,
                    resolved@,
                    right,
                    path,
                ) == RuleEffect::Allow by {
                law_compiled_rules_are_the_declared_ones(
                    config.fs@,
                    resolved@,
                    rules@,
                    fs_rules.pins@,
                    fs_rules,
                    right,
                    path,
                );
            }
        }
        match namespace_verdict(namespaces, errno_text) {
            Ok(_) => {},
            Err(error) => {
                return Err(error);
            },
        }
        LinuxBackend::new(config, fs_rules, abi, arch)
    }

    /// The environment of the child: exactly the variables of the policy, in the order
    /// of their names.
    pub fn envs(&self) -> (variables: Vec<(String, String)>)
        ensures
            variable_views(variables@) == self.policy().env.spec_entries(),
            is_listing(variable_views(variables@), self.policy().env@),
    {
        let env = &self.config.env;
        let ghost listed = env.spec_entries();
        proof {
            law_env_entries_are_the_map(*env);
        }
        let mut variables: Vec<(String, String)> = Vec::new();
        let mut i: usize = 0;
        assert(variable_views(variables@) =~= listed.take(0));
        while i < env.len()
            invariant
                listed == env.spec_entries(),
                i <= listed.len(),
                variable_views(variables@) == listed.take(i as int),
            decreases listed.len() - i,
        {
            let ghost before = variable_views(variables@);
            let (name, value) = env.entry(i);
            variables.push((name.clone(), value.clone()));
            proof {
                assert(variable_views(variables@) =~= before.push(listed[i as int]));
                assert(listed.take(i + 1) =~= listed.take(i as int).push(listed[i as int]));
            }
            i += 1;
        }
        assert(listed.take(i as int) =~= listed);
        variables
    }

    /// The policy.
    pub fn config(&self) -> (config: &SandboxConfig)
        ensures
            *config == self.policy(),
    {
        &self.config
    }

    /// The compiled filesystem policy.
    pub fn fs_rules(&self) -> (rules: &CompiledRules)
        ensures
            *rules == self.rules(),
    {
        &self.fs_rules
    }

    /// The ruleset of the IPC domain, where the kernel has one.
    pub fn ipc_ruleset(&self) -> (request: Option<RulesetRequest>)
        ensures
            is_ipc_ruleset(self.ipc(), request),
    {
        self.ipc_policy.prepare()
    }

    /// The ruleset of the network policy, where it needs one.
    pub fn net_ruleset(&self) -> (request: &Option<RulesetRequest>)
        ensures
            *request == self.network(),
    {
        &self.net_ruleset
    }

    /// The seccomp filters, in the order in which they are installed.
    pub fn seccomp_programs(&self) -> (programs: &Vec<Vec<BpfInstruction>>)
        ensures
            *programs == self.filters(),
    {
        &self.seccomp_programs
    }

    /// The grants of the filesystem layer: the read grants, then the write and the
    /// execute grants.
    pub fn grants(&self) -> (grants: Vec<PinGrant>)
        ensures
            ({
                let rules = self.rules();
                let reads = rules.grants.read@.len() as int;
                let writes = reads + rules.grants.write@.len();
                let all = writes + rules.grants.execute@.len();
                &&& grants@.len() == all
                &&& grants_beneath(
                    rules.pins@,
                    views(rules.grants.read@),
                    READ_ACCESS_FS,
                    grants@.subrange(0, reads),
                )
                &&& grants_beneath(
                    rules.pins@,
                    views(rules.grants.write@),
                    WRITE_ACCESS_FS,
                    grants@.subrange(reads, writes),
                )
                &&& grants_beneath(
                    rules.pins@,
                    views(rules.grants.execute@),
                    EXECUTE_ACCESS_FS,
                    grants@.subrange(writes, all),
                )
            }),
    {
        proof {
            use_type_invariant(self);
        }
        landlock_grants(&self.fs_rules)
    }

    /// What a child that keeps the effective user `uid` and group `gid` does
    /// between `fork` and `exec`.
    pub fn child_steps(&self, uid: u64, gid: u64) -> (steps: Vec<ChildStep>)
        ensures
            child_step_views(steps@) == child_setup(
                ChildPlan {
                    mounts: &self.rules().mount_plan,
                    uid,
                    gid,
                    limits: self.policy().limits,
                    network_layer: self.network() is Some,
                    ipc_layer: self.ipc().abi >= 6,
                    filters: self.filters()@.len() as usize,
                },
            ),
    {
        let plan = ChildPlan {
            mounts: &self.fs_rules.mount_plan,
            uid,
            gid,
            limits: self.config.limits,
            network_layer: self.net_ruleset.is_some(),
            ipc_layer: self.ipc_policy.prepare().is_some(),
            filters: self.seccomp_programs.len(),
        };
        child_steps(&plan)
    }
}

/// Where the kernel can enforce policies at all, a backend is refused for the network
/// policy, for the architecture or for the size of a filter, and for nothing else.
pub proof fn law_backends_are_refused_for_a_reason(
    config: SandboxConfig,
    abi: i32,
    arch: Seq<char>,
    error: Error,
)
    requires
        is_refused(config, abi, arch, error),
    ensures
        (config.network == NetworkPolicy::OutboundOnly && abi < 4) || arch_named(arch) is None
            || exists|numbers: KernelNumbers, i: int|
            0 <= i < filters_for(numbers, config.network, config.linux_user_namespaces).len()
                && program_of(
                #[trigger] filters_for(numbers, config.network, config.linux_user_namespaces)[i],
            ) is None,
{
    if !(config.network == NetworkPolicy::OutboundOnly && abi < 4) && arch_named(arch) is Some {
        let named = arch_named(arch)->0;
        let programs = Err::<Vec<Vec<BpfInstruction>>, Error>(error);
        let numbers = choose|numbers: KernelNumbers|
            numbers.is_valid() && numbers.is_linux() && numbers.arch == named && is_compiled(
                #[trigger] filters_for(numbers, config.network, config.linux_user_namespaces),
                programs,
            );
        let filters = filters_for(numbers, config.network, config.linux_user_namespaces);
        let i = choose|i: int|
            0 <= i < filters.len() && is_too_large(#[trigger] filters[i], error) && forall|j: int|
                0 <= j < i ==> program_of(#[trigger] filters[j]) is Some;
        assert(program_of(filters[i]) is None);
    }
}

/// What the layers of a backend come to for the network policy of its configuration: on
/// every port, binding TCP is denied exactly for outbound connections only, and connecting
/// never is; and the filters are programs of those of the configuration, in their order.
pub proof fn law_backends_carry_the_network_policy(
    config: SandboxConfig,
    fs_rules: CompiledRules,
    abi: i32,
    arch: Seq<char>,
    backend: LinuxBackend,
    port: u64,
)
    requires
        is_made(config, fs_rules, abi, arch, backend),
    ensures
        lets_port(backend.network(), 1, port) <==> config.network != NetworkPolicy::OutboundOnly,
        lets_port(backend.network(), 2, port),
        exists|numbers: KernelNumbers|
            numbers.is_valid() && numbers.is_linux() && backend.filters()@.len()
                == #[trigger] filters_for(
                numbers,
                config.network,
                config.linux_user_namespaces,
            ).len() && forall|i: int|
                0 <= i < backend.filters()@.len() ==> program_of(
                    filters_for(numbers, config.network, config.linux_user_namespaces)[i],
                ) == Some(#[trigger] backend.filters()@[i]@),
{
    law_only_outbound_denies_binding(config.network, abi, backend.network(), port);
    let programs = Ok::<Vec<Vec<BpfInstruction>>, Error>(backend.filters());
    assert(arch_named(arch) is Some);
    let named = arch_named(arch)->0;
    let numbers = choose|numbers: KernelNumbers|
        numbers.is_valid() && numbers.is_linux() && numbers.arch == named && is_compiled(
            #[trigger] filters_for(numbers, config.network, config.linux_user_namespaces),
            programs,
        );
    let filters = filters_for(numbers, config.network, config.linux_user_namespaces);
    assert forall|i: int| 0 <= i < backend.filters()@.len() implies program_of(filters[i]) == Some(
        #[trigger] backend.filters()@[i]@,
    ) by {
        assert(program_of(filters[i]) is Some);
    }
}

} // verus!
