use guardrail::bindings::streams::{
    ReadOutcome, ReadReply, ReaderState, WriteAction, WriteRequest, WriterState,
};
use guardrail::bindings::{
    build_config, child_command, invalid_acl_text, JsFsAccess, JsFsAccessKind, JsNetworkPolicy,
    JsStdioMode, JsUserNamespacePolicy, SandboxOptions, SandboxSpawnOptions, SpawnOptions,
};
use guardrail::{
    FsAccess, NetworkPolicy, OsText, SandboxCommand, SandboxConfig, SandboxPath, StdioMode,
    UserNamespacePolicy, WindowsAclVerification,
};

fn rule(kind: JsFsAccessKind, path: &str) -> JsFsAccess {
    JsFsAccess { kind, path: path.to_string() }
}

#[test]
fn no_options_deny_everything() {
    assert_eq!(build_config(SandboxOptions::default()).unwrap(), SandboxConfig::default());
}

#[test]
fn options_describe_the_policy() {
    let config = build_config(SandboxOptions {
        fs: Some(vec![
            rule(JsFsAccessKind::ReadAllow, "/a"),
            rule(JsFsAccessKind::ReadDeny, "/b"),
            rule(JsFsAccessKind::WriteAllow, "/c"),
            rule(JsFsAccessKind::WriteDeny, "/d"),
            rule(JsFsAccessKind::ExecuteAllow, "/e"),
            rule(JsFsAccessKind::ExecuteDeny, "/f"),
        ]),
        network: Some(JsNetworkPolicy::OutboundOnly),
        linux_unix_sockets: Some(vec!["/run/x".to_string()]),
        linux_user_namespaces: Some(JsUserNamespacePolicy::Allow),
        memory_limit_mb: Some(u32::MAX),
        cpu_time_limit_secs: Some(2),
        max_processes: Some(3),
        env: Some(vec![("A".to_string(), "1".to_string())]),
        darwin_sandbox_profiles: Some(vec!["/p.sb".to_string()]),
        windows_cache_namespace: Some("ns".to_string()),
        windows_manifest_dir: Some("C:\\m".to_string()),
        windows_acl_verification: Some("none".to_string()),
    })
    .unwrap();
    assert_eq!(
        config.fs,
        vec![
            FsAccess::ReadAllow("/a".into()),
            FsAccess::ReadDeny("/b".into()),
            FsAccess::WriteAllow("/c".into()),
            FsAccess::WriteDeny("/d".into()),
            FsAccess::ExecuteAllow("/e".into()),
            FsAccess::ExecuteDeny("/f".into()),
        ]
    );
    assert_eq!(config.network, NetworkPolicy::OutboundOnly);
    assert_eq!(config.linux_unix_sockets, vec![SandboxPath::from("/run/x")]);
    assert_eq!(config.linux_user_namespaces, UserNamespacePolicy::Allow);
    assert_eq!(config.limits.memory_bytes, Some(u32::MAX as u64 * 1024 * 1024));
    assert_eq!(config.limits.cpu_time_secs, Some(2));
    assert_eq!(config.limits.max_processes, Some(3));
    assert_eq!(config.env.get("A"), Some(&"1".to_string()));
    assert_eq!(config.darwin_sandbox_profiles, vec![SandboxPath::from("/p.sb")]);
    assert_eq!(config.windows_cache_namespace, Some("ns".to_string()));
    assert_eq!(config.windows_manifest_dir, Some("C:\\m".into()));
    assert_eq!(config.windows_acl_verification, WindowsAclVerification::Skip);
}

#[test]
fn acl_verification_has_three_values() {
    let of = |text: &str| {
        build_config(SandboxOptions {
            windows_acl_verification: Some(text.to_string()),
            ..SandboxOptions::default()
        })
    };
    assert_eq!(
        of("deny-roots").unwrap().windows_acl_verification,
        WindowsAclVerification::DenyRoots
    );
    assert_eq!(
        of("all-roots").unwrap().windows_acl_verification,
        WindowsAclVerification::AllRoots
    );
    assert_eq!(
        of("so\"me\n").unwrap_err().message,
        "invalid windowsAclVerification \"so\\\"me\\n\": expected \"none\", \"deny-roots\", or \"all-roots\""
    );
    assert_eq!(
        invalid_acl_text("\"x\""),
        "invalid windowsAclVerification \"x\": expected \"none\", \"deny-roots\", or \"all-roots\""
    );
}

#[test]
fn one_shot_options_are_parted() {
    let (policy, launch) = SpawnOptions {
        max_processes: Some(4),
        windows_manifest_dir: Some("m".to_string()),
        cwd: Some("/w".to_string()),
        stderr: Some(JsStdioMode::Pipe),
        ..SpawnOptions::default()
    }
    .split();
    assert_eq!(
        policy,
        SandboxOptions {
            max_processes: Some(4),
            windows_manifest_dir: Some("m".to_string()),
            ..SandboxOptions::default()
        }
    );
    assert_eq!(
        launch,
        SandboxSpawnOptions {
            cwd: Some("/w".to_string()),
            stderr: Some(JsStdioMode::Pipe),
            ..SandboxSpawnOptions::default()
        }
    );
}

#[test]
fn calls_describe_the_command() {
    let launch = SandboxSpawnOptions {
        cwd: Some("/w".to_string()),
        stdin: Some(JsStdioMode::Pipe),
        stdout: Some(JsStdioMode::Ignore),
        stderr: None,
    };
    let command: SandboxCommand<u8> =
        child_command("ls", &Some(vec!["-l".to_string(), "a b".to_string()]), &launch);
    assert_eq!(command.program, OsText::from("ls"));
    assert_eq!(command.args, vec![OsText::from("-l"), OsText::from("a b")]);
    assert_eq!(command.current_dir, Some("/w".into()));
    assert_eq!(command.stdin, StdioMode::Piped);
    assert_eq!(command.stdout, StdioMode::Null);
    assert_eq!(command.stderr, StdioMode::Inherit);
    let bare: SandboxCommand<u8> = child_command("ls", &None, &SandboxSpawnOptions::default());
    assert_eq!(bare, SandboxCommand::new("ls".into()));
}

#[test]
fn end_of_stream_is_sticky() {
    let mut reader = ReaderState::new();
    assert!(reader.reads());
    assert_eq!(reader.after_read(ReadOutcome::Bytes(7)), ReadReply::Chunk(7));
    assert!(reader.reads());
    assert_eq!(reader.after_read(ReadOutcome::Bytes(0)), ReadReply::End);
    assert!(!reader.reads());

    let mut reader = ReaderState::new();
    assert_eq!(reader.after_read(ReadOutcome::Failed), ReadReply::Error);
    assert!(!reader.reads());
}

#[test]
fn writes_after_an_end_are_refused() {
    let mut writer = WriterState::new();
    assert_eq!(writer.on_request(WriteRequest::Write), WriteAction::WriteAll);
    assert!(writer.after_write(true));
    assert_eq!(writer.on_request(WriteRequest::End), WriteAction::Close);
    assert_eq!(writer.on_request(WriteRequest::Write), WriteAction::RejectEnded);
    assert_eq!(writer.on_request(WriteRequest::End), WriteAction::Close);

    let mut writer = WriterState::new();
    assert!(!writer.after_write(false));
    assert_eq!(writer.on_request(WriteRequest::Write), WriteAction::RejectEnded);
}
