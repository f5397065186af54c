use guardrail::diagnostics::{
    portable_explain, resource_signal_violation, ExitReport, ExplainCtx, SignalNumbers, Violation,
    ViolationKind,
};
use guardrail::linux::diagnostics as linux;
use guardrail::macos::diagnostics as macos;
use guardrail::{IpcPolicy, NetworkPolicy, ResourceLimits, SandboxConfig};

fn signals() -> SignalNumbers {
    SignalNumbers { xcpu: libc::SIGXCPU, kill: libc::SIGKILL, sys: libc::SIGSYS }
}

fn empty_config() -> SandboxConfig {
    SandboxConfig::default()
}

fn exit_status(code: i32) -> ExitReport {
    ExitReport { success: code == 0, signal: None, text: format!("exit status: {code}") }
}

fn signaled_status(signal: i32) -> ExitReport {
    ExitReport { success: false, signal: Some(signal), text: format!("signal: {signal}") }
}

fn explain(config: &SandboxConfig, status: &ExitReport) -> Option<Violation> {
    macos::explain(&ExplainCtx::new(config, status))
}

fn explain_with_text(
    config: &SandboxConfig,
    status: &ExitReport,
    text: &str,
) -> Option<Violation> {
    macos::explain(&ExplainCtx::new(config, status).with_captured(text))
}

#[test]
fn diagnostics_success_yields_no_violation() {
    let config = empty_config();

    assert!(explain(&config, &exit_status(0)).is_none());
    assert!(linux::explain(&ExplainCtx::new(&config, &exit_status(0))).is_none());
    assert!(portable_explain(&signals(), &ExplainCtx::new(&config, &exit_status(0))).is_none());
}

#[test]
fn seatbelt_file_read_denial_suggests_read_grant() {
    let config = empty_config();
    let text = "Sandbox: cat(123) deny(1) file-read-data /private/tmp/input.txt";

    let violation = explain_with_text(&config, &exit_status(1), text).expect("violation");

    assert_eq!(violation.kind, ViolationKind::Filesystem);
    assert!(violation.summary.contains("file-read-data"));
    assert_eq!(
        violation.suggestions,
        vec![
            "grant read access: \
             .fs([FsAccess::ReadAllow(\"/private/tmp/input.txt\".into())])"
        ]
    );
}

#[test]
fn seatbelt_write_denial_suggests_write_grant() {
    let config = empty_config();
    let text = "Sandbox: touch(123) deny(1) file-write-create /private/tmp/out.txt";

    let violation = explain_with_text(&config, &exit_status(1), text).expect("violation");

    assert_eq!(
        violation.suggestions,
        vec![
            "grant write access: \
             .fs([FsAccess::WriteAllow(\"/private/tmp/out.txt\".into())])"
        ]
    );
}

#[test]
fn seatbelt_network_denial_suggests_network_policy() {
    let config = empty_config();
    let text = "Sandbox: curl(123) deny(1) network-outbound 93.184.216.34:443";

    let violation = explain_with_text(&config, &exit_status(1), text).expect("violation");

    assert_eq!(violation.kind, ViolationKind::Unknown);
    assert!(violation.suggestions.iter().any(|s| s.contains("NetworkPolicy::OutboundOnly")));
}

#[test]
fn generic_permission_denied_output_suggests_filesystem_grants() {
    let config = empty_config();
    let text = "cat: /Users/me/secret.txt: Permission denied";

    let violation = explain_with_text(&config, &exit_status(1), text).expect("violation");

    assert_eq!(violation.kind, ViolationKind::Filesystem);
    assert!(violation.suggestions.contains(
        &"grant read access: \
            .fs([FsAccess::ReadAllow(\"/Users/me/secret.txt\".into())])"
            .to_string()
    ));
}

#[test]
fn cpu_signal_is_diagnosed_as_resource_limit_when_configured() {
    let config = SandboxConfig {
        limits: ResourceLimits { memory_bytes: None, cpu_time_secs: Some(1), max_processes: None },
        ..empty_config()
    };

    let violation = explain(&config, &signaled_status(libc::SIGXCPU)).expect("resource violation");

    assert_eq!(violation.kind, ViolationKind::ResourceLimit);
    assert!(violation
        .suggestions
        .contains(&"raise the CPU cap: .cpu_time_limit_secs(<larger>)".to_string()));
}

#[test]
fn fallback_mentions_seatbelt_profile_escape_hatch() {
    let config = empty_config();

    let violation = explain(&config, &exit_status(1)).expect("fallback violation");

    assert_eq!(violation.kind, ViolationKind::Filesystem);
    assert!(violation.suggestions.iter().any(|s| s.contains("darwin_sandbox_profile")));
}

#[test]
fn blocked_network_is_diagnosed_as_seccomp() {
    let config = SandboxConfig { network: NetworkPolicy::Deny, ..empty_config() };
    let status = signaled_status(libc::SIGSYS);
    let v = linux::explain(&ExplainCtx::new(&config, &status)).expect("should diagnose a violation");
    assert_eq!(v.kind, ViolationKind::Seccomp);
    assert!(
        !v.suggestions.is_empty(),
        "a seccomp violation must suggest a network/IPC policy to relax"
    );
}

#[test]
fn blocked_ipc_is_diagnosed_as_seccomp() {
    let config = SandboxConfig { ipc: IpcPolicy::Strict, ..empty_config() };
    let status = signaled_status(libc::SIGSYS);
    let v = linux::explain(&ExplainCtx::new(&config, &status)).expect("should diagnose a violation");
    assert_eq!(v.kind, ViolationKind::Seccomp);
}

#[test]
fn cpu_limit_is_diagnosed_as_resource_limit() {
    let mut config = empty_config();
    config.limits.cpu_time_secs = Some(1);
    for signal in [libc::SIGXCPU, libc::SIGKILL] {
        let status = signaled_status(signal);
        let v = linux::explain(&ExplainCtx::new(&config, &status))
            .expect("should diagnose a violation");
        assert_eq!(v.kind, ViolationKind::ResourceLimit);
    }
}

#[test]
fn violation_display_includes_summary_and_suggestions() {
    let config = SandboxConfig { network: NetworkPolicy::Deny, ..empty_config() };
    let status = signaled_status(libc::SIGSYS);
    let v = linux::explain(&ExplainCtx::new(&config, &status)).unwrap();
    let rendered = v.to_text();
    assert!(rendered.contains("SIGSYS"));
    assert!(rendered.contains("  - "), "Display should bullet the suggestions");
}

#[test]
fn rendering_is_exact() {
    let violation = Violation {
        kind: ViolationKind::Unknown,
        summary: "summary".to_string(),
        suggestions: vec!["one".to_string(), "two".to_string()],
    };
    assert_eq!(violation.to_text(), "summary\n  - one\n  - two");
    assert_eq!(violation.clone(), violation);
}

#[test]
fn signals_without_caps_are_not_attributed() {
    let config = empty_config();
    let status = signaled_status(libc::SIGKILL);
    assert_eq!(resource_signal_violation(&signals(), &config, &status), None);
    let v = portable_explain(&signals(), &ExplainCtx::new(&config, &status)).unwrap();
    assert_eq!(v.kind, ViolationKind::Filesystem);
    assert_eq!(v.summary, "process exited unsuccessfully (signal: 9)");
    assert_eq!(v.suggestions.len(), 2);
}

#[test]
fn memory_caps_are_suspected_on_linux() {
    let mut config = empty_config();
    config.limits.memory_bytes = Some(1);
    let status = exit_status(1);
    let v = linux::explain(&ExplainCtx::new(&config, &status)).unwrap();
    assert_eq!(v.kind, ViolationKind::ResourceLimit);
    assert_eq!(
        v.summary,
        "process exited unsuccessfully (exit status: 1); it may have hit the memory limit"
    );
}

#[test]
fn relaxed_policies_leave_process_inspection() {
    let config = SandboxConfig {
        network: NetworkPolicy::Full,
        ipc: IpcPolicy::Relaxed,
        ..empty_config()
    };
    let status = signaled_status(libc::SIGSYS);
    let v = linux::explain_with(&signals(), &ExplainCtx::new(&config, &status)).unwrap();
    assert_eq!(v.suggestions.len(), 1);
    assert!(v.suggestions[0].contains("ptrace"));
}

#[test]
fn the_first_denial_line_counts() {
    let config = empty_config();
    let text = "noise\r\nSandbox: x deny(1)\nkernel: a(1) deny(1) process-exec* /bin/\"ls\\\r\n\
                b deny(2) file-read-data /etc/passwd\n";
    let v = explain_with_text(&config, &exit_status(2), text).unwrap();
    assert_eq!(
        v.summary,
        "process exited unsuccessfully (exit status: 2); Seatbelt denied process-exec* for /bin/\"ls\\"
    );
    assert_eq!(v.kind, ViolationKind::Filesystem);
    assert_eq!(
        v.suggestions,
        vec!["grant execute access: .fs([FsAccess::ExecuteAllow(\"/bin/\\\"ls\\\\\".into())])"]
    );
}

#[test]
fn denials_without_a_subject_name_a_placeholder() {
    let config = SandboxConfig { network: NetworkPolicy::Full, ..empty_config() };
    let of = |text: &str| explain_with_text(&config, &exit_status(1), text).unwrap();
    let v = of("x deny(1)\u{a0}file-read-metadata\u{3000}");
    assert_eq!(
        v.suggestions,
        vec!["grant read access: .fs([FsAccess::ReadAllow(\"<path>\".into())])"]
    );
    assert_eq!(
        v.summary,
        "process exited unsuccessfully (exit status: 1); Seatbelt denied file-read-metadata"
    );
    let v = of("x deny(1) network-bind");
    assert_eq!(
        v.suggestions,
        vec!["network is already fully allowed; inspect the Seatbelt operation and any imported profile"]
    );
    let v = of("x deny(1) mach-lookup com.apple.x");
    assert_eq!(v.kind, ViolationKind::Unknown);
    assert_eq!(
        v.suggestions,
        vec!["allow the macOS-specific Seatbelt operation with an imported profile: .darwin_sandbox_profiles([\"<profile.sb>\".into()]) for operation mach-lookup"]
    );
}

#[test]
fn permission_denied_comes_before_operation_not_permitted() {
    let config = empty_config();
    let text = "a: /one: Operation not permitted\nb: /two: Permission denied\nc: three: Permission denied";
    let v = explain_with_text(&config, &exit_status(1), text).unwrap();
    assert_eq!(
        v.summary,
        "process exited unsuccessfully (exit status: 1); captured output reported Permission denied for /two"
    );
    let v = explain_with_text(&config, &exit_status(1), "a: /one: Operation not permitted").unwrap();
    assert!(v.summary.ends_with("for /one"));
    let v = explain_with_text(&config, &exit_status(1), "a: one: Permission denied").unwrap();
    assert!(v.summary.ends_with("often a Seatbelt denial"));
}

#[test]
fn denial_lines_come_before_resource_signals() {
    let mut config = empty_config();
    config.limits.cpu_time_secs = Some(1);
    let status = signaled_status(libc::SIGKILL);
    let v = explain_with_text(&config, &status, "x deny(1) file-write-data /a").unwrap();
    assert_eq!(v.kind, ViolationKind::Filesystem);
    let v = explain_with_text(&config, &status, "a: /one: Permission denied").unwrap();
    assert_eq!(v.kind, ViolationKind::ResourceLimit);
}

#[test]
fn native_signals_are_told_apart() {
    let config = SandboxConfig {
        limits: ResourceLimits {
            memory_bytes: None,
            cpu_time_secs: Some(1),
            max_processes: None,
        },
        ..SandboxConfig::default()
    };
    let kind = |signal: i32| {
        linux::explain(&ExplainCtx::new(&config, &signaled_status(signal))).unwrap().kind
    };
    assert_eq!(kind(9), ViolationKind::ResourceLimit);
    assert_eq!(kind(libc::SIGXCPU), ViolationKind::ResourceLimit);
    assert_eq!(kind(libc::SIGSYS), ViolationKind::Seccomp);
}
