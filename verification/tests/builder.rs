use guardrail::{
    EnvMap, FsAccess, IpcPolicy, NetworkPolicy, ResourceLimits, SandboxBuilder, SandboxConfig,
    SandboxPath, UserNamespacePolicy, WindowsAclVerification,
};

#[test]
fn default_config_denies_everything() {
    let config = SandboxBuilder::new().build();
    assert_eq!(config.network, NetworkPolicy::Deny);
    assert_eq!(config.ipc, IpcPolicy::Strict);
    assert!(config.fs.is_empty());
    assert!(config.env.is_empty());
    assert_eq!(config.limits, ResourceLimits::default());
    assert_eq!(config.limits.memory_bytes, None);
    assert_eq!(config.limits.cpu_time_secs, None);
    assert_eq!(config.limits.max_processes, None);
    assert!(config.darwin_sandbox_profiles.is_empty());
}

#[test]
fn memory_limit_is_expressed_in_bytes() {
    let config = SandboxBuilder::new().memory_limit_mb(2).build();
    assert_eq!(config.limits.memory_bytes, Some(2 * 1024 * 1024));
}

#[test]
fn fs_rules_preserve_declaration_order() {
    let config = SandboxBuilder::new()
        .fs(vec![
            FsAccess::ReadAllow("/a".into()),
            FsAccess::ReadDeny("/b".into()),
            FsAccess::WriteAllow("/c".into()),
            FsAccess::WriteDeny("/d".into()),
            FsAccess::ExecuteAllow("/e".into()),
            FsAccess::ExecuteDeny("/f".into()),
        ])
        .build();
    assert_eq!(
        config.fs,
        vec![
            FsAccess::ReadAllow(SandboxPath::from("/a")),
            FsAccess::ReadDeny(SandboxPath::from("/b")),
            FsAccess::WriteAllow(SandboxPath::from("/c")),
            FsAccess::WriteDeny(SandboxPath::from("/d")),
            FsAccess::ExecuteAllow(SandboxPath::from("/e")),
            FsAccess::ExecuteDeny(SandboxPath::from("/f")),
        ]
    );
}

#[test]
fn last_network_call_wins() {
    let config = SandboxBuilder::new()
        .network(NetworkPolicy::Full)
        .network(NetworkPolicy::Deny)
        .build();
    assert_eq!(config.network, NetworkPolicy::Deny);
}

#[test]
fn darwin_sandbox_profiles_preserve_declaration_order() {
    let config = SandboxBuilder::new()
        .darwin_sandbox_profiles(vec!["/tmp/first.sb".into(), "/tmp/second.sb".into()])
        .build();
    assert_eq!(
        config.darwin_sandbox_profiles,
        vec![
            SandboxPath::from("/tmp/first.sb"),
            SandboxPath::from("/tmp/second.sb"),
        ]
    );
}

#[test]
fn darwin_sandbox_profile_appends_one() {
    let config = SandboxBuilder::new()
        .darwin_sandbox_profiles(vec!["/tmp/first.sb".into(), "/tmp/second.sb".into()])
        .build();
    assert_eq!(
        config.darwin_sandbox_profiles,
        vec![
            SandboxPath::from("/tmp/first.sb"),
            SandboxPath::from("/tmp/second.sb"),
        ]
    );
}

#[test]
fn crate_smoke_test_builds_a_default_config() {
    let config = SandboxConfig {
        fs: vec![],
        network: NetworkPolicy::Deny,
        ipc: IpcPolicy::Strict,
        limits: ResourceLimits::default(),
        env: EnvMap::new(),
        linux_unix_sockets: vec![],
        linux_user_namespaces: UserNamespacePolicy::Deny,
        darwin_sandbox_profiles: vec![],
        windows_cache_namespace: None,
        windows_manifest_dir: None,
        windows_acl_verification: WindowsAclVerification::DenyRoots,
    };
    assert!(config.fs.is_empty());
}

#[test]
fn rules_and_profiles_are_appended() {
    let config = SandboxBuilder::new()
        .fs(vec![FsAccess::ReadAllow("/a".into())])
        .fs(vec![FsAccess::ReadDeny("/b".into())])
        .darwin_sandbox_profiles(vec!["/one.sb".into()])
        .darwin_sandbox_profiles(vec!["/two.sb".into()])
        .build();
    assert_eq!(
        config.fs,
        vec![FsAccess::ReadAllow("/a".into()), FsAccess::ReadDeny("/b".into())]
    );
    assert_eq!(
        config.darwin_sandbox_profiles,
        vec![SandboxPath::from("/one.sb"), SandboxPath::from("/two.sb")]
    );
}

#[test]
fn limits_and_ipc_are_set() {
    let config = SandboxBuilder::new()
        .ipc(IpcPolicy::Relaxed)
        .cpu_time_limit_secs(7)
        .max_processes(3)
        .build();
    assert_eq!(config.ipc, IpcPolicy::Relaxed);
    assert_eq!(config.limits.memory_bytes, None);
    assert_eq!(config.limits.cpu_time_secs, Some(7));
    assert_eq!(config.limits.max_processes, Some(3));
}

#[test]
fn memory_limit_saturates() {
    let config = SandboxBuilder::new().memory_limit_mb(u64::MAX).build();
    assert_eq!(config.limits.memory_bytes, Some(u64::MAX));
    let config = SandboxBuilder::new().memory_limit_mb(17592186044415).build();
    assert_eq!(config.limits.memory_bytes, Some(17592186044415 * 1048576));
}

#[test]
fn later_variables_win_and_names_are_sorted() {
    let config = SandboxBuilder::new()
        .env("PATH".to_string(), "/bin".to_string())
        .envs(vec![
            ("HOME".to_string(), "/root".to_string()),
            ("PATH".to_string(), "/usr/bin".to_string()),
        ])
        .env("A".to_string(), "".to_string())
        .build();
    assert_eq!(config.env.len(), 3);
    assert_eq!(config.env.get("PATH"), Some(&"/usr/bin".to_string()));
    assert_eq!(config.env.get("USER"), None);
    let names: Vec<&String> = (0..config.env.len()).map(|i| config.env.entry(i).0).collect();
    assert_eq!(names, ["A", "HOME", "PATH"]);
}

#[test]
fn listing_order_does_not_matter() {
    let one = SandboxBuilder::new()
        .envs(vec![
            ("A".to_string(), "1".to_string()),
            ("B".to_string(), "2".to_string()),
        ])
        .build();
    let other = SandboxBuilder::new()
        .envs(vec![
            ("B".to_string(), "2".to_string()),
            ("A".to_string(), "1".to_string()),
        ])
        .build();
    assert_eq!(one, other);
}

#[test]
fn copies_say_the_same() {
    let builder = SandboxBuilder::new()
        .fs(vec![FsAccess::WriteDeny("/a".into())])
        .env("A".to_string(), "1".to_string());
    let copy = builder.clone();
    let config = builder.build();
    assert_eq!(config.clone(), config);
    assert_eq!(copy.build(), config);
}
