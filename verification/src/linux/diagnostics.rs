//! The Linux explanation of a failed run.
//!
//! This is heuristic. seccomp violations are observable (`SIGSYS`); Landlock
//! denials are not visible to the parent, so filesystem attribution is a
//! fallback guess.
use crate::config::SandboxConfig;
use crate::diagnostics::{
    explanation, grant_suggestions, native_signals, resource_signal_explanation, resource_signal_violation,
    suggest_grants, texts, ExplainCtx, SignalNumbers, Violation, ViolationKind, ViolationView,
};
use crate::policy::{IpcPolicy, NetworkPolicy};
use vstd::prelude::*;

verus! {

/// The policies that are restrictive now and could be loosened.
pub open spec fn loosening(network: NetworkPolicy, ipc: IpcPolicy) -> Seq<Seq<char>> {
    (if network != NetworkPolicy::Full {
        seq![
            "if it needs network: .network(NetworkPolicy::OutboundOnly) (or ::Full to bind/listen)"@,
        ]
    } else {
        seq![]
    }) + (if ipc != IpcPolicy::Relaxed {
        seq!["if it needs shared memory / message queues: .ipc(IpcPolicy::Relaxed)"@]
    } else {
        seq![]
    })
}

/// A system call that a filter blocked.
pub open spec fn seccomp_explanation(network: NetworkPolicy, ipc: IpcPolicy) -> ViolationView {
    ViolationView {
        kind: ViolationKind::Seccomp,
        summary: "process was killed by SIGSYS - a syscall blocked by the seccomp filter (network or IPC)"@,
        suggestions: if loosening(network, ipc).len() > 0 {
            loosening(network, ipc)
        } else {
            seq![
                "the blocked call was process inspection (ptrace/process_vm_*), which the sandbox never permits; the program cannot run under guardrail"@,
            ]
        },
    }
}

/// The Linux heuristic.
pub open spec fn linux_explanation(signals: SignalNumbers, ctx: ExplainCtx<'_>) -> Option<
    ViolationView,
> {
    let resource = resource_signal_explanation(signals, ctx.config.limits, *ctx.status);
    if ctx.status.success {
        None
    } else if ctx.status.signal == Some(signals.sys) {
        Some(seccomp_explanation(ctx.config.network, ctx.config.ipc))
    } else if resource is Some {
        resource
    } else if ctx.config.limits.memory_bytes is Some {
        Some(
            ViolationView {
                kind: ViolationKind::ResourceLimit,
                summary: "process exited unsuccessfully ("@ + ctx.status.text@
                    + "); it may have hit the memory limit"@,
                suggestions: seq!["raise or remove the memory cap: .memory_limit_mb(<larger>)"@],
            },
        )
    } else {
        Some(
            ViolationView {
                kind: ViolationKind::Filesystem,
                summary: "process exited unsuccessfully ("@ + ctx.status.text@
                    + "); if it reported 'Permission denied' on a file, a filesystem grant is likely missing"@,
                suggestions: grant_suggestions(),
            },
        )
    }
}

/// Explains a run with the platform's own signal numbers.
pub fn explain(ctx: &ExplainCtx<'_>) -> (violation: Option<Violation>)
    ensures
        exists|signals: SignalNumbers|
            signals.is_unix() && explanation(violation) == #[trigger] linux_explanation(
                signals,
                *ctx,
            ),
{
    let signals = native_signals();
    explain_with(&signals, ctx)
}

/// Explains a run with the given signal numbers.
pub fn explain_with(signals: &SignalNumbers, ctx: &ExplainCtx<'_>) -> (violation: Option<
    Violation,
>)
    ensures
        explanation(violation) == linux_explanation(*signals, *ctx),
{
    if ctx.status.success {
        return None;
    }
    match ctx.status.signal {
        Some(signal) => {
            if signal == signals.sys {
                return Some(seccomp_violation(ctx.config));
            }
            if signal == signals.xcpu || signal == signals.kill {
                match resource_signal_violation(signals, ctx.config, ctx.status) {
                    Some(violation) => {
                        return Some(violation);
                    },
                    None => {},
                }
            }
        },
        None => {},
    }
    let mut summary = String::from_str("process exited unsuccessfully (");
    summary.append(ctx.status.text.as_str());
    if ctx.config.limits.memory_bytes.is_some() {
        summary.append("); it may have hit the memory limit");
        let mut suggestions: Vec<String> = Vec::new();
        suggestions.push(
            String::from_str("raise or remove the memory cap: .memory_limit_mb(<larger>)"),
        );
        assert(texts(suggestions@)
            =~= seq!["raise or remove the memory cap: .memory_limit_mb(<larger>)"@]);
        return Some(Violation { kind: ViolationKind::ResourceLimit, summary, suggestions });
    }
    summary.append(
        "); if it reported 'Permission denied' on a file, a filesystem grant is likely missing",
    );
    Some(Violation { kind: ViolationKind::Filesystem, summary, suggestions: suggest_grants() })
}

/// A system call that a filter blocked. Only policies that are currently
/// restrictive are suggested to be loosened.
fn seccomp_violation(config: &SandboxConfig) -> (violation: Violation)
    ensures
        violation@ == seccomp_explanation(config.network, config.ipc),
{
    let mut suggestions: Vec<String> = Vec::new();
    if config.network != NetworkPolicy::Full {
        suggestions.push(
            String::from_str(
                "if it needs network: .network(NetworkPolicy::OutboundOnly) (or ::Full to bind/listen)",
            ),
        );
    }
    if config.ipc != IpcPolicy::Relaxed {
        suggestions.push(
            String::from_str(
                "if it needs shared memory / message queues: .ipc(IpcPolicy::Relaxed)",
            ),
        );
    }
    assert(texts(suggestions@) =~= loosening(config.network, config.ipc));
    if suggestions.len() == 0 {
        suggestions.push(
            String::from_str(
                "the blocked call was process inspection (ptrace/process_vm_*), which the sandbox never permits; the program cannot run under guardrail",
            ),
        );
    }
    assert(texts(suggestions@) =~= seccomp_explanation(config.network, config.ipc).suggestions);
    Violation {
        kind: ViolationKind::Seccomp,
        summary: String::from_str(
            "process was killed by SIGSYS - a syscall blocked by the seccomp filter (network or IPC)",
        ),
        suggestions,
    }
}

/// A successful run is never explained, and any other always is.
pub proof fn law_only_failures_are_explained(signals: SignalNumbers, ctx: ExplainCtx<'_>)
    ensures
        linux_explanation(signals, ctx) is None <==> ctx.status.success,
{
}

/// What kind of violation a failed run is explained by, from how it ended and which
/// caps it ran under: a blocked system call exactly for a `SIGSYS`; a resource limit
/// exactly for a `SIGXCPU` or a `SIGKILL` under a CPU or memory cap, and for any
/// other end under a memory cap; the filesystem in every other case, and nothing
/// else ever.
pub proof fn law_kind_follows_how_the_run_ended(signals: SignalNumbers, ctx: ExplainCtx<'_>)
    requires
        !ctx.status.success,
    ensures
        ({
            let ended = ctx.status.signal;
            let cpu_cap = ctx.config.limits.cpu_time_secs is Some;
            let memory_cap = ctx.config.limits.memory_bytes is Some;
            let blocked = ended == Some(signals.sys);
            let cut_off = !blocked && (ended == Some(signals.xcpu) || ended == Some(signals.kill))
                && (cpu_cap || memory_cap);
            let starved = !blocked && !cut_off && memory_cap;
            &&& linux_explanation(signals, ctx) matches Some(said)
            &&& said.kind == ViolationKind::Seccomp <==> blocked
            &&& said.kind == ViolationKind::ResourceLimit <==> cut_off || starved
            &&& said.kind == ViolationKind::Filesystem <==> !blocked && !cut_off && !starved
            &&& said.kind != ViolationKind::Unknown
        }),
{
}

/// What the explanation of a failed run says and suggests, word for word. A blocked
/// system call suggests to loosen the policies that are restrictive and no others, a
/// resource limit to raise the caps that are set and no others, and everything else
/// the two grants.
pub proof fn law_suggestions_fit_the_kind(signals: SignalNumbers, ctx: ExplainCtx<'_>)
    requires
        !ctx.status.success,
    ensures
        ({
            let network =
                "if it needs network: .network(NetworkPolicy::OutboundOnly) (or ::Full to bind/listen)"@;
            let ipc = "if it needs shared memory / message queues: .ipc(IpcPolicy::Relaxed)"@;
            let inspection =
                "the blocked call was process inspection (ptrace/process_vm_*), which the sandbox never permits; the program cannot run under guardrail"@;
            let cpu_cap = "raise the CPU cap: .cpu_time_limit_secs(<larger>)"@;
            let memory_cap = "raise the memory cap: .memory_limit_mb(<larger>)"@;
            let limits = ctx.config.limits;
            let ended = ctx.status.signal;
            let by_signal = ended == Some(signals.xcpu) || ended == Some(signals.kill);
            let open = ctx.config.network == NetworkPolicy::Full;
            let relaxed = ctx.config.ipc == IpcPolicy::Relaxed;
            &&& linux_explanation(signals, ctx) matches Some(said)
            &&& said.kind == ViolationKind::Seccomp ==> {
                &&& said.summary
                    == "process was killed by SIGSYS - a syscall blocked by the seccomp filter (network or IPC)"@
                &&& !open && !relaxed ==> said.suggestions == seq![network, ipc]
                &&& !open && relaxed ==> said.suggestions == seq![network]
                &&& open && !relaxed ==> said.suggestions == seq![ipc]
                &&& open && relaxed ==> said.suggestions == seq![inspection]
            }
            &&& said.kind == ViolationKind::ResourceLimit && by_signal ==> {
                &&& said.summary == "process was killed by a resource limit (CPU time or memory)"@
                &&& limits.cpu_time_secs is Some && limits.memory_bytes is Some
                    ==> said.suggestions == seq![cpu_cap, memory_cap]
                &&& limits.cpu_time_secs is Some && limits.memory_bytes is None
                    ==> said.suggestions == seq![cpu_cap]
                &&& limits.cpu_time_secs is None ==> said.suggestions == seq![memory_cap]
            }
            &&& said.kind == ViolationKind::ResourceLimit && !by_signal ==> {
                &&& said.summary == "process exited unsuccessfully ("@ + ctx.status.text@
                    + "); it may have hit the memory limit"@
                &&& said.suggestions
                    == seq!["raise or remove the memory cap: .memory_limit_mb(<larger>)"@]
            }
            &&& said.kind == ViolationKind::Filesystem ==> {
                &&& said.summary == "process exited unsuccessfully ("@ + ctx.status.text@
                    + "); if it reported 'Permission denied' on a file, a filesystem grant is likely missing"@
                &&& said.suggestions == seq![
                    "grant read access: .allow_read(\"<path>\")"@,
                    "grant write access: .allow_write(\"<path>\")"@,
                ]
            }
        }),
{
    let empty: Seq<Seq<char>> = seq![];
    let network =
        "if it needs network: .network(NetworkPolicy::OutboundOnly) (or ::Full to bind/listen)"@;
    let ipc = "if it needs shared memory / message queues: .ipc(IpcPolicy::Relaxed)"@;
    assert(seq![network] + seq![ipc] =~= seq![network, ipc]);
    assert(seq![network] + empty =~= seq![network]);
    assert(empty + seq![ipc] =~= seq![ipc]);
    assert(empty + empty =~= empty);
    let cpu_cap = "raise the CPU cap: .cpu_time_limit_secs(<larger>)"@;
    let memory_cap = "raise the memory cap: .memory_limit_mb(<larger>)"@;
    assert(seq![cpu_cap] + seq![memory_cap] =~= seq![cpu_cap, memory_cap]);
    assert(seq![cpu_cap] + empty =~= seq![cpu_cap]);
    assert(empty + seq![memory_cap] =~= seq![memory_cap]);
}

} // verus!
