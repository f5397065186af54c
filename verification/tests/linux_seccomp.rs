use guardrail::linux::numbers::{Arch, KernelNumbers, X32_SYSCALL_BIT};
use guardrail::linux::seccomp::{
    build, compile, enosys_rules, network_rules, probed_kernel_rules, syscall_numbers,
    violation_rules, FilterAction, X32_SYS_KEXEC_LOAD,
};
use guardrail::{Error, ErrorSource, NetworkPolicy, SandboxConfig, UserNamespacePolicy};

fn native() -> KernelNumbers {
    KernelNumbers::native(Arch::X86_64)
}

fn config(network: NetworkPolicy, user_namespaces: UserNamespacePolicy) -> SandboxConfig {
    SandboxConfig {
        network,
        linux_user_namespaces: user_namespaces,
        ..SandboxConfig::default()
    }
}

#[test]
fn enosys_rules_cover_every_io_uring_syscall_number() {
    let rules = enosys_rules(&SandboxConfig::default(), &native());

    for syscall in native().io_uring_syscalls() {
        assert!(rules.contains_key(&syscall));
        assert!(rules.contains_key(&(syscall | X32_SYSCALL_BIT)));
    }
}

#[test]
fn x32_specific_syscalls_use_their_legacy_numbers() {
    assert_eq!(
        syscall_numbers(&native(), libc::SYS_kexec_load),
        vec![libc::SYS_kexec_load, X32_SYS_KEXEC_LOAD | X32_SYSCALL_BIT]
    );
}

#[test]
fn io_uring_denial_follows_network_policy() {
    for (network, denied) in [
        (NetworkPolicy::Deny, true),
        (NetworkPolicy::OutboundOnly, true),
        (NetworkPolicy::Full, false),
    ] {
        let rules = enosys_rules(&config(network, UserNamespacePolicy::Deny), &native());
        assert_eq!(
            rules.contains_key(&libc::SYS_io_uring_setup),
            denied,
            "io_uring denial for network={network:?}"
        );
    }
}

#[test]
fn socket_family_denial_follows_network_policy() {
    for (network, denied) in [
        (NetworkPolicy::Deny, true),
        (NetworkPolicy::OutboundOnly, true),
        (NetworkPolicy::Full, false),
    ] {
        let rules = network_rules(network, &native()).expect("network rules");
        assert_eq!(
            rules.contains_key(&libc::SYS_socket),
            denied,
            "socket family rule for network={network:?}"
        );
    }
}

#[test]
fn outbound_only_never_denies_family_blind_bind_listen() {
    let rules = network_rules(NetworkPolicy::OutboundOnly, &native()).expect("network rules");
    for sys in [libc::SYS_bind, libc::SYS_listen] {
        assert!(!rules.contains_key(&sys), "syscall {sys} denied under OutboundOnly");
    }
}

#[test]
fn kernel_surface_is_trapped_regardless_of_policy() {
    for user_namespaces in [UserNamespacePolicy::Deny, UserNamespacePolicy::Allow] {
        let rules = violation_rules(&config(NetworkPolicy::Full, user_namespaces), &native());
        for sys in native().kernel_surface_syscalls() {
            assert!(
                rules.contains_key(&sys),
                "syscall {sys} must be trapped under {user_namespaces:?}"
            );
        }
    }
}

#[test]
fn mount_machinery_follows_the_user_namespace_policy() {
    for (user_namespaces, denied) in [
        (UserNamespacePolicy::Deny, true),
        (UserNamespacePolicy::Allow, false),
    ] {
        let rules = violation_rules(&config(NetworkPolicy::Deny, user_namespaces), &native());
        for sys in native().mount_syscalls() {
            assert_eq!(
                rules.contains_key(&sys),
                denied,
                "syscall {sys} denial under {user_namespaces:?}"
            );
        }
    }
}

#[test]
fn namespace_syscalls_follow_the_user_namespace_policy() {
    let denied = probed_kernel_rules(&SandboxConfig::default(), &native()).expect("probed rules");
    assert!(denied.contains_key(&libc::SYS_unshare));
    assert!(denied.contains_key(&libc::SYS_clone));
    assert!(denied.contains_key(&libc::SYS_setns));
    assert!(!denied[&libc::SYS_unshare].is_empty());
    assert!(!denied[&libc::SYS_clone].is_empty());
    assert!(enosys_rules(&SandboxConfig::default(), &native()).contains_key(&libc::SYS_clone3));

    let allowed = probed_kernel_rules(
        &config(NetworkPolicy::Deny, UserNamespacePolicy::Allow),
        &native(),
    )
    .expect("probed rules");
    for sys in [libc::SYS_unshare, libc::SYS_clone, libc::SYS_setns] {
        assert!(!allowed.contains_key(&sys));
    }
    for sys in native().probed_kernel_syscalls() {
        assert!(allowed.contains_key(&sys), "probed denial must stay unconditional");
    }
    let enosys = enosys_rules(&config(NetworkPolicy::Deny, UserNamespacePolicy::Allow), &native());
    assert!(!enosys.contains_key(&libc::SYS_clone3));
}

#[test]
fn most_permissive_config_still_installs_the_unconditional_filters() {
    let programs =
        build(&config(NetworkPolicy::Full, UserNamespacePolicy::Allow), "x86_64").expect("filters");
    assert_eq!(programs.len(), 2);
}

#[test]
fn filters_follow_the_policy() {
    let counts = |network, user_namespaces| {
        build(&config(network, user_namespaces), "x86_64").expect("filters").len()
    };
    assert_eq!(counts(NetworkPolicy::Deny, UserNamespacePolicy::Deny), 4);
    assert_eq!(counts(NetworkPolicy::OutboundOnly, UserNamespacePolicy::Allow), 4);
    assert_eq!(counts(NetworkPolicy::Full, UserNamespacePolicy::Deny), 3);
}

#[test]
fn programs_are_those_of_the_seccompiler_crate() {
    let rules = violation_rules(&SandboxConfig::default(), &native());
    let expected: seccompiler::BpfProgram = seccompiler::SeccompFilter::new(
        rules.clone(),
        seccompiler::SeccompAction::Allow,
        seccompiler::SeccompAction::Trap,
        seccompiler::TargetArch::x86_64,
    )
    .expect("filter")
    .try_into()
    .expect("program");
    let program = compile(rules, FilterAction::Trap, Arch::X86_64).expect("program");
    assert_eq!(program.len(), expected.len());
    for (own, other) in program.iter().zip(expected.iter()) {
        assert_eq!((own.code, own.jt, own.jf, own.k), (other.code, other.jt, other.jf, other.k));
    }
}

#[test]
fn namespace_rules_match_one_flag() {
    let rules = probed_kernel_rules(&SandboxConfig::default(), &native()).expect("probed rules");
    let expected = seccompiler::SeccompRule::new(vec![seccompiler::SeccompCondition::new(
        0,
        seccompiler::SeccompCmpArgLen::Dword,
        seccompiler::SeccompCmpOp::MaskedEq(libc::CLONE_NEWUSER as u64),
        libc::CLONE_NEWUSER as u64,
    )
    .expect("condition")])
    .expect("rule");
    assert_eq!(rules[&libc::SYS_unshare], vec![expected]);
    assert!(rules[&libc::SYS_setns].is_empty());
}

#[test]
fn socket_rules_match_every_other_family() {
    let differs = |family: libc::c_int| {
        seccompiler::SeccompCondition::new(
            0,
            seccompiler::SeccompCmpArgLen::Dword,
            seccompiler::SeccompCmpOp::Ne,
            family as u64,
        )
        .expect("condition")
    };
    let rules = network_rules(NetworkPolicy::Deny, &native()).expect("network rules");
    assert_eq!(
        rules[&libc::SYS_socket],
        vec![seccompiler::SeccompRule::new(vec![differs(libc::AF_UNIX)]).expect("rule")]
    );
}

#[test]
fn unknown_architectures_are_refused() {
    let error = build(&SandboxConfig::default(), "m68k").unwrap_err();
    match error {
        Error::Confinement { stage, source: ErrorSource::Message(text) } => {
            assert_eq!(stage, "seccomp");
            assert_eq!(text, "Invalid target arch: m68k.");
        }
        other => panic!("unexpected {other:?}"),
    }
    assert!(build(&SandboxConfig::default(), "aarch64").is_ok());
    assert!(build(&SandboxConfig::default(), "riscv64").is_ok());
}

#[test]
fn only_x86_64_has_twin_numbers() {
    let numbers = KernelNumbers::native(Arch::Aarch64);
    assert_eq!(syscall_numbers(&numbers, 200), vec![200]);
    assert_eq!(syscall_numbers(&native(), 200), vec![200, 200 | X32_SYSCALL_BIT]);
}

#[test]
fn numbers_are_those_of_the_libc_crate() {
    let numbers = native();
    assert_eq!(numbers.other.kexec_load, libc::SYS_kexec_load);
    assert_eq!(numbers.surface.acct, libc::SYS_acct);
    assert_eq!(numbers.mount.mount, libc::SYS_mount);
    assert_eq!(numbers.other.socket, libc::SYS_socket);
    assert_eq!(numbers.other.clone3, libc::SYS_clone3);
    assert_eq!(numbers.constants.eperm, libc::EPERM);
    assert_eq!(numbers.constants.enosys, libc::ENOSYS);
    assert_eq!(numbers.constants.eafnosupport, libc::EAFNOSUPPORT);
    assert_eq!(numbers.kexec_file_load(), 320);
    assert_eq!(KernelNumbers::native(Arch::Riscv64).kexec_file_load(), 294);
}

#[test]
fn architectures_are_named_in_any_case() {
    for arch in ["X86_64", "x86_64", "AArch64", "RISCV64"] {
        assert!(build(&SandboxConfig::default(), arch).is_ok(), "{arch}");
    }
    for arch in ["x86-64", "x86_64 ", "", "r\u{130}scv64", "aarch6\u{ff14}"] {
        assert!(build(&SandboxConfig::default(), arch).is_err(), "{arch}");
    }
}

#[test]
fn chains_hold_one_rule_where_arguments_decide() {
    let probed = probed_kernel_rules(&SandboxConfig::default(), &native()).expect("probed rules");
    for sys in [libc::SYS_unshare, libc::SYS_clone] {
        assert_eq!(probed[&sys].len(), 1);
        assert_eq!(probed[&(sys | X32_SYSCALL_BIT)].len(), 1);
    }
    for sys in [libc::SYS_setns, libc::SYS_bpf, libc::SYS_perf_event_open] {
        assert!(probed[&sys].is_empty());
        assert!(probed[&(sys | X32_SYSCALL_BIT)].is_empty());
    }
    for network in [NetworkPolicy::Deny, NetworkPolicy::OutboundOnly] {
        let rules = network_rules(network, &native()).expect("network rules");
        assert_eq!(rules[&libc::SYS_socket].len(), 1);
        assert_eq!(rules.len(), 2);
    }
}

#[test]
fn constants_are_the_same_on_every_linux() {
    let constants = native().constants;
    assert_eq!((constants.af_unix, constants.af_inet, constants.af_inet6), (1, 2, 10));
    assert_eq!(constants.clone_newuser, 0x1000_0000);
    assert_eq!(constants.eperm, 1);
}
