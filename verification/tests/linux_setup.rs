use guardrail::linux::backend::LinuxBackend;
use guardrail::linux::fs::{compile, CompiledRules};
use guardrail::linux::masks::Pin;
use guardrail::linux::ns::{
    empty_file_attributes, identity_map, is_same_inode, mount_flags, namespace_steps, MountPoint,
    NamespaceStep,
};
use guardrail::linux::outcome::{
    hold_milliseconds, io_uring_exit, is_expected, is_private_shm, ALLOWED, DENIED,
    PRIVATE_SHM_BYTES, TMPFS_MAGIC, USAGE,
};
use guardrail::linux::plan::Target;
use guardrail::linux::probe::{
    after_wait, landlock_verdict, namespace_verdict, probe_exit, ruleset_verdict, seccomp_verdict,
    Enforcement, ProbeExit, WaitStep,
};
use guardrail::linux::rules::NormalizedRule;
use guardrail::linux::setup::{ChildStep, Layer};
use guardrail::rlimit::{LimitSetting, LimitedResource};
use guardrail::{
    CanonicalPath, Error, ErrorSource, FsAccess, FsRight, NetworkPolicy, ResourceLimits,
    RuleEffect, SandboxConfig,
};

fn canon(path: &str) -> CanonicalPath {
    CanonicalPath::from_bytes(path.as_bytes()).unwrap()
}

fn rule(right: FsRight, effect: RuleEffect, path: &str) -> NormalizedRule {
    NormalizedRule { right, effect, path: canon(path) }
}

fn pin(path: &str, ino: u64) -> Pin {
    Pin { path: canon(path), dev: 7, ino, is_dir: true }
}

/// `/base` may be read, `/base/secret` may not, `/base/secret/open` may again.
fn nested() -> CompiledRules {
    compile(
        &vec![
            rule(FsRight::Read, RuleEffect::Allow, "/base"),
            rule(FsRight::Read, RuleEffect::Deny, "/base/secret"),
            rule(FsRight::Read, RuleEffect::Allow, "/base/secret/open"),
        ],
        vec![pin("/base", 1), pin("/base/secret", 2), pin("/base/secret/open", 3)],
    )
    .unwrap()
}

fn position(steps: &[ChildStep], wanted: &ChildStep) -> usize {
    steps.iter().position(|step| step == wanted).unwrap()
}

#[test]
fn setup_steps_come_in_order() {
    let config = SandboxConfig {
        network: NetworkPolicy::OutboundOnly,
        limits: ResourceLimits {
            memory_bytes: Some(1 << 20),
            cpu_time_secs: None,
            max_processes: Some(9),
        },
        ..SandboxConfig::default()
    };
    let backend = LinuxBackend::new(config, nested(), 9, "x86_64").unwrap();
    let steps = backend.child_steps(1000, 100);

    assert_eq!(steps[0], ChildStep::NoNewPrivs);
    let limits: Vec<&ChildStep> =
        steps.iter().filter(|step| matches!(step, ChildStep::SetLimit(_))).collect();
    assert_eq!(
        limits,
        vec![
            &ChildStep::SetLimit(LimitSetting {
                resource: LimitedResource::AddressSpace,
                value: 1 << 20,
            }),
            &ChildStep::SetLimit(LimitSetting { resource: LimitedResource::Processes, value: 9 }),
        ]
    );
    let filesystem = position(&steps, &ChildStep::RestrictSelf(Layer::Filesystem));
    let network = position(&steps, &ChildStep::RestrictSelf(Layer::Network));
    let ipc = position(&steps, &ChildStep::RestrictSelf(Layer::Ipc));
    let scrub = position(&steps, &ChildStep::CloseOnExec { first: 3 });
    let last_mount = steps.iter().rposition(|step| matches!(step, ChildStep::Namespace(_))).unwrap();
    assert!(last_mount < filesystem);
    assert!(filesystem < network && network < ipc && ipc < scrub);
    let filters: Vec<&ChildStep> = steps[scrub + 1..].iter().collect();
    assert_eq!(
        filters,
        vec![
            &ChildStep::InstallFilter { index: 0 },
            &ChildStep::InstallFilter { index: 1 },
            &ChildStep::InstallFilter { index: 2 },
            &ChildStep::InstallFilter { index: 3 },
        ]
    );
}

#[test]
fn old_kernels_get_fewer_layers() {
    let backend = LinuxBackend::new(SandboxConfig::default(), nested(), 5, "x86_64").unwrap();
    let steps = backend.child_steps(0, 0);
    assert!(steps.contains(&ChildStep::RestrictSelf(Layer::Filesystem)));
    assert!(!steps.contains(&ChildStep::RestrictSelf(Layer::Network)));
    assert!(!steps.contains(&ChildStep::RestrictSelf(Layer::Ipc)));
    assert!(backend.ipc_ruleset().is_none());
    assert!(backend.net_ruleset().is_none());
    assert_eq!(backend.seccomp_programs().len(), 4);
    assert_eq!(backend.config().network, NetworkPolicy::Deny);
}

#[test]
fn grants_are_by_pin() {
    let backend = LinuxBackend::new(SandboxConfig::default(), nested(), 5, "x86_64").unwrap();
    let grants = backend.grants();
    assert_eq!(grants.len(), 2);
    assert_eq!((grants[0].pin, grants[0].access), (0, 0xc));
    assert_eq!((grants[1].pin, grants[1].access), (2, 0xc));
    assert_eq!(backend.fs_rules().pins.len(), 3);
}

#[test]
fn unsupported_policies_fail_construction() {
    let config = SandboxConfig { network: NetworkPolicy::OutboundOnly, ..SandboxConfig::default() };
    assert!(matches!(
        LinuxBackend::new(config, nested(), 3, "x86_64"),
        Err(Error::Unsupported(_))
    ));
    assert!(matches!(
        LinuxBackend::new(SandboxConfig::default(), nested(), 3, "vax"),
        Err(Error::Confinement { stage: "seccomp", .. })
    ));
}

#[test]
fn kernels_below_the_landlock_floor_are_refused() {
    for abi in [1, 0, -1] {
        match LinuxBackend::new(SandboxConfig::default(), nested(), abi, "x86_64") {
            Err(Error::Unsupported(text)) => assert!(text.contains("Landlock ABI v2"), "{text}"),
            _ => panic!("ABI {abi} must be refused"),
        }
        assert!(matches!(
            LinuxBackend::new(SandboxConfig::default(), nested(), abi, "vax"),
            Err(Error::Unsupported(_))
        ));
    }
    assert!(LinuxBackend::new(SandboxConfig::default(), nested(), 2, "x86_64").is_ok());
}

#[test]
fn masked_inodes_are_checked_first() {
    let compiled = nested();
    let steps = namespace_steps(&compiled.mount_plan, 1000, 100);
    let secret = Target { path: canon("/base/secret"), dev: 7, ino: 2 };
    let open = Target { path: canon("/base/secret/open"), dev: 7, ino: 3 };
    let at = |wanted: &NamespaceStep| steps.iter().position(|step| step == wanted).unwrap();
    let check_open = at(&NamespaceStep::CheckIdentity { target: open });
    let clone = at(&NamespaceStep::CloneTree { slot: 0, path: canon("/base/secret/open") });
    let check_secret = at(&NamespaceStep::CheckIdentity { target: secret });
    let hide = steps
        .iter()
        .position(|step| {
            matches!(step, NamespaceStep::MountFs { fstype: "tmpfs", options, .. } if options.contains("mode=0111"))
        })
        .unwrap();
    let skeleton = at(&NamespaceStep::MakeDir { path: canon("/base/secret/open"), mode: 0o111 });
    let attach = at(&NamespaceStep::AttachClone { slot: 0, path: canon("/base/secret/open") });
    assert!(check_open < clone && clone < check_secret);
    assert!(check_secret < hide && hide < skeleton && skeleton < attach);
    assert!(steps.contains(&NamespaceStep::WriteFile {
        file: "/proc/self/uid_map",
        contents: "1000 1000 1\n".to_string(),
    }));
    assert_eq!(steps[0], NamespaceStep::Unshare { ipc: true });
}

#[test]
fn identity_maps_are_one_line() {
    assert_eq!(identity_map(0), "0 0 1\n");
    assert_eq!(identity_map(4294967294), "4294967294 4294967294 1\n");
}

#[test]
fn another_inode_is_noticed() {
    let target = Target { path: canon("/a"), dev: 1, ino: 2 };
    assert!(is_same_inode(&target, 1, 2));
    assert!(!is_same_inode(&target, 2, 2));
    assert!(!is_same_inode(&target, 1, 3));
}

#[test]
fn probe_children_are_judged_by_their_status() {
    assert_eq!(probe_exit(0), ProbeExit::Passed);
    assert_eq!(probe_exit(libc::EPERM << 8), ProbeExit::Failed(libc::EPERM));
    assert_eq!(probe_exit(libc::SIGSYS), ProbeExit::Abnormal);
    assert_eq!(after_wait(5, 5, false), WaitStep::Done);
    assert_eq!(after_wait(-1, 5, true), WaitStep::Again);
    assert_eq!(after_wait(-1, 5, false), WaitStep::Failed);
}

#[test]
fn missing_capabilities_are_unsupported() {
    assert_eq!(namespace_verdict(ProbeExit::Passed, "x"), Ok(()));
    match namespace_verdict(ProbeExit::Failed(1), "Operation not permitted (os error 1)") {
        Err(Error::Unsupported(text)) => {
            assert!(text.contains("failed: Operation not permitted (os error 1). Enable"), "{text}")
        }
        other => panic!("unexpected {other:?}"),
    }
    match namespace_verdict(ProbeExit::Abnormal, "") {
        Err(Error::Unsupported(text)) => {
            assert!(text.contains("probe child terminated abnormally"), "{text}")
        }
        other => panic!("unexpected {other:?}"),
    }
    assert_eq!(landlock_verdict(Ok(Enforcement::FullyEnforced)), Ok(()));
    assert!(matches!(
        landlock_verdict(Ok(Enforcement::PartiallyEnforced)),
        Err(Error::Unsupported(_))
    ));
    assert!(matches!(landlock_verdict(Err("no".to_string())), Err(Error::Unsupported(_))));
    assert_eq!(seccomp_verdict(Ok(()), Ok(())), Ok(()));
    assert!(matches!(
        seccomp_verdict(Err("no".to_string()), Ok(())),
        Err(Error::Unsupported(_))
    ));
    assert!(matches!(
        seccomp_verdict(Ok(()), Err("no".to_string())),
        Err(Error::Unsupported(_))
    ));
    assert_eq!(ruleset_verdict(true), Ok(()));
    assert!(matches!(ruleset_verdict(false), Err(Error::Unsupported(_))));
}

#[test]
fn helper_outcomes_are_exact() {
    assert_eq!(io_uring_exit(Some(38), 38, None), DENIED);
    assert_eq!(io_uring_exit(Some(9), 38, Some(9)), ALLOWED);
    assert_eq!(io_uring_exit(Some(22), 38, Some(9)), USAGE);
    assert_eq!(io_uring_exit(None, 38, None), USAGE);

    assert!(is_expected(b"abc\0", 3, b"abc"));
    assert!(!is_expected(b"abcd", 4, b"abc"));
    assert!(!is_expected(b"abd\0", 3, b"abc"));
    assert!(!is_expected(b"abc", -1, b""));
    assert!(!is_expected(b"abc", 9, b"abc"));

    assert!(is_private_shm(TMPFS_MAGIC, 16384, 4096, 0b1111, 0b0110));
    assert_eq!(PRIVATE_SHM_BYTES, 16384 * 4096);
    assert!(!is_private_shm(TMPFS_MAGIC, 16385, 4096, 0b1111, 0b0110));
    assert!(!is_private_shm(TMPFS_MAGIC, 1, 4096, 0b0010, 0b0110));
    assert!(!is_private_shm(0, 1, 4096, 0b1111, 0b0110));
    assert!(!is_private_shm(TMPFS_MAGIC, 1, -1, 0b1111, 0b0110));
    assert!(!is_private_shm(TMPFS_MAGIC, u64::MAX, i64::MAX, 0b1111, 0b0110));

    assert_eq!(hold_milliseconds(None), 0);
    assert_eq!(hold_milliseconds(Some(150)), 150);
    assert_eq!(hold_milliseconds(Some(5000)), 2000);
}

#[test]
fn fresh_mounts_carry_nothing_privileged() {
    assert_eq!(mount_flags(false), libc::MS_NOSUID | libc::MS_NODEV | libc::MS_NOEXEC);
    assert_eq!(mount_flags(true), mount_flags(false) | libc::MS_RDONLY);
    assert_eq!(empty_file_attributes(), 0xf);

    let compiled = compile(
        &vec![
            rule(FsRight::Read, RuleEffect::Allow, "/base"),
            rule(FsRight::Read, RuleEffect::Deny, "/base/dir"),
            rule(FsRight::Read, RuleEffect::Deny, "/base/file"),
            rule(FsRight::Read, RuleEffect::Deny, "/base/nest"),
            rule(FsRight::Read, RuleEffect::Allow, "/base/nest/f"),
        ],
        vec![
            pin("/base", 1),
            pin("/base/dir", 2),
            Pin { is_dir: false, ..pin("/base/file", 3) },
            pin("/base/nest", 4),
            Pin { is_dir: false, ..pin("/base/nest/f", 5) },
        ],
    )
    .unwrap();
    let steps = namespace_steps(&compiled.mount_plan, 0, 0);
    let mounted = |at: &MountPoint| {
        steps
            .iter()
            .find_map(|step| match step {
                NamespaceStep::MountFs { at: here, flags, .. } if here == at => Some(*flags),
                _ => None,
            })
            .unwrap()
    };
    assert_eq!(mounted(&MountPoint::Fixed("/dev/shm")), 14);
    assert_eq!(mounted(&MountPoint::Fixed("/dev/mqueue")), 14);
    assert_eq!(mounted(&MountPoint::At(canon("/base/dir"))), 15);
    assert_eq!(mounted(&MountPoint::At(canon("/base/nest"))), 14);
    assert!(steps.contains(&NamespaceStep::MountEmptyFile {
        path: canon("/base/file"),
        mode: 0,
        attr_set: 15,
    }));
    assert!(steps.contains(&NamespaceStep::MakeFile { path: canon("/base/nest/f"), mode: 0 }));
}

fn declared() -> SandboxConfig {
    let mut config = SandboxConfig {
        fs: vec![
            FsAccess::ReadAllow("/link".into()),
            FsAccess::ReadDeny("/base/secret".into()),
            FsAccess::ReadAllow("/base/secret/open".into()),
        ],
        ..SandboxConfig::default()
    };
    config.env.insert("PATH".to_string(), "/bin".to_string());
    config.env.insert("HOME".to_string(), "/".to_string());
    config
}

fn pins() -> Vec<Pin> {
    vec![pin("/base", 1), pin("/base/secret", 2), pin("/base/secret/open", 3)]
}

#[test]
fn a_backend_is_compiled_from_its_configuration() {
    let resolved =
        vec![Ok(canon("/base")), Ok(canon("/base/secret")), Ok(canon("/base/secret/open"))];
    let backend = LinuxBackend::compile(
        declared(),
        &resolved,
        pins(),
        ProbeExit::Passed,
        "",
        5,
        "x86_64",
    )
    .unwrap();
    assert_eq!(backend.fs_rules(), &nested());
    assert_eq!(
        backend.envs(),
        vec![
            ("HOME".to_string(), "/".to_string()),
            ("PATH".to_string(), "/bin".to_string()),
        ]
    );
}

#[test]
fn construction_fails_for_the_first_reason() {
    let resolved = || -> Vec<Result<CanonicalPath, String>> {
        vec![Ok(canon("/base")), Ok(canon("/base/secret")), Ok(canon("/base/secret/open"))]
    };
    let build = |resolved: Vec<Result<CanonicalPath, String>>, pins, namespaces, abi, arch| {
        match LinuxBackend::compile(declared(), &resolved, pins, namespaces, "denied", abi, arch) {
            Err(error) => error,
            Ok(_) => panic!("must be refused"),
        }
    };
    let failed = ProbeExit::Failed(1);
    let missing = || vec![Ok(canon("/base")), Err("missing".to_string()), Err("late".to_string())];

    match build(missing(), vec![], failed, 1, "vax") {
        Error::Unsupported(text) => assert!(text.contains("Landlock ABI v2"), "{text}"),
        other => panic!("unexpected {other:?}"),
    }
    assert_eq!(
        build(missing(), vec![], failed, 2, "vax"),
        Error::Confinement {
            stage: "landlock",
            source: ErrorSource::Message("missing".to_string()),
        }
    );
    match build(resolved(), pins(), failed, 2, "vax") {
        Error::Unsupported(text) => assert!(text.contains("failed: denied. Enable"), "{text}"),
        other => panic!("unexpected {other:?}"),
    }
    assert!(matches!(
        build(resolved(), pins(), ProbeExit::Passed, 2, "vax"),
        Error::Confinement { stage: "seccomp", .. }
    ));

    let config = SandboxConfig {
        fs: vec![
            FsAccess::ReadAllow("/base".into()),
            FsAccess::WriteAllow("/base".into()),
            FsAccess::ReadDeny("/base/secret".into()),
        ],
        ..SandboxConfig::default()
    };
    let resolved = vec![Ok(canon("/base")), Ok(canon("/base")), Ok(canon("/base/secret"))];
    match LinuxBackend::compile(
        config,
        &resolved,
        vec![pin("/base", 1), pin("/base/secret", 2)],
        failed,
        "denied",
        2,
        "vax",
    ) {
        Err(Error::Unsupported(text)) => assert!(text.contains("read is denied at"), "{text}"),
        _ => panic!("must be refused"),
    }
}
