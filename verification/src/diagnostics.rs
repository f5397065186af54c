//! Best-effort observability for policy violations.
//!
//! These types describe *why a sandboxed process likely failed* and *which
//! policy to add*. They are heuristic: the parent process cannot observe the
//! exact syscall or path a backend denied, so a [`Violation`] narrows the
//! cause from the exit status and the active configuration rather than
//! pinpointing it.
use crate::config::{ResourceLimits, SandboxConfig};
use vstd::prelude::*;

verus! {

/// The category of a suspected policy violation.
#[derive(Debug, Clone, Copy, PartialEq, Eq, Structural)]
#[non_exhaustive]
pub enum ViolationKind {
    /// A syscall blocked by the seccomp filter (network or IPC).
    Seccomp,
    /// A resource limit (memory / CPU time / process count) was hit.
    ResourceLimit,
    /// Likely a filesystem denial (no parent-visible signal; inferred).
    Filesystem,
    /// Could not be attributed to a specific policy.
    Unknown,
}

/// An actionable explanation of a suspected policy violation.
#[derive(Debug, PartialEq, Eq)]
pub struct Violation {
    /// The suspected category.
    pub kind: ViolationKind,
    /// One-line human summary of what was observed.
    pub summary: String,
    /// Concrete, copy-pasteable next steps (builder calls to add a policy).
    pub suggestions: Vec<String>,
}

/// What a [`Violation`] says.
pub struct ViolationView {
    pub kind: ViolationKind,
    pub summary: Seq<char>,
    pub suggestions: Seq<Seq<char>>,
}

impl View for Violation {
    type V = ViolationView;

    open spec fn view(&self) -> ViolationView {
        ViolationView {
            kind: self.kind,
            summary: self.summary@,
            suggestions: texts(self.suggestions@),
        }
    }
}

/// The texts in a vector of strings.
pub open spec fn texts(strings: Seq<String>) -> Seq<Seq<char>> {
    strings.map_values(|text: String| text@)
}

/// The suggestions as an indented list.
pub open spec fn bullets(suggestions: Seq<Seq<char>>) -> Seq<char>
    decreases suggestions.len(),
{
    if suggestions.len() == 0 {
        seq![]
    } else {
        bullets(suggestions.drop_last()) + "\n  - "@ + suggestions.last()
    }
}

impl Clone for Violation {
    fn clone(&self) -> (violation: Violation)
        ensures
            violation@ == self@,
    {
        let suggestions = self.suggestions.clone();
        assert(texts(suggestions@) =~= texts(self.suggestions@));
        Violation { kind: self.kind, summary: self.summary.clone(), suggestions }
    }
}

impl Violation {
    /// The summary with the suggestions as an indented list beneath it.
    pub fn to_text(&self) -> (text: String)
        ensures
            text@ == self@.summary + bullets(self@.suggestions),
    {
        let mut text = self.summary.clone();
        let mut i: usize = 0;
        let ghost all = texts(self.suggestions@);
        assert(all.take(0) =~= seq![]);
        assert(text@ =~= self.summary@ + bullets(all.take(0)));
        while i < self.suggestions.len()
            invariant
                i <= self.suggestions@.len(),
                all == texts(self.suggestions@),
                text@ == self.summary@ + bullets(all.take(i as int)),
            decreases self.suggestions.len() - i,
        {
            text.append("\n  - ");
            text.append(self.suggestions[i].as_str());
            assert(all.take(i + 1).drop_last() =~= all.take(i as int));
            assert(text@ =~= self.summary@ + bullets(all.take(i + 1)));
            i += 1;
        }
        assert(all.take(i as int) =~= all);
        text
    }
}

/// How a child ended, as far as an explanation needs it.
#[derive(Debug, PartialEq, Eq)]
pub struct ExitReport {
    /// Whether the child exited successfully.
    pub success: bool,
    /// The signal that ended the child, if one did.
    pub signal: Option<i32>,
    /// The exit status as messages show it.
    pub text: String,
}

/// The signals that explanations speak of, as the platform numbers them.
#[derive(Debug, Clone, Copy, PartialEq, Eq, Structural)]
pub struct SignalNumbers {
    /// `SIGXCPU`.
    pub xcpu: i32,
    /// `SIGKILL`.
    pub kill: i32,
    /// `SIGSYS`.
    pub sys: i32,
}

impl SignalNumbers {
    /// What holds of the numbers on every platform: `SIGKILL` is signal 9, and the
    /// others are among a few.
    pub open spec fn is_unix(self) -> bool {
        &&& self.kill == 9
        &&& self.xcpu == 24 || self.xcpu == 28 || self.xcpu == 30
        &&& self.sys == 12 || self.sys == 25 || self.sys == 31
        &&& self.xcpu == 28 <==> self.sys == 25
        &&& self.xcpu == 30 ==> self.sys == 12
    }
}

/// Reads the signal numbers of `libc`. `SIGKILL` is 9 everywhere. The others depend
/// on the platform: `SIGXCPU` is 24 with `SIGSYS` 12 or 31, or 30 with 12, or 28 with
/// 25.
#[verifier::external_body]
pub(crate) fn native_signals() -> (signals: SignalNumbers)
    ensures
        signals.is_unix(),
{
    SignalNumbers { xcpu: libc::SIGXCPU, kill: libc::SIGKILL, sys: libc::SIGSYS }
}

/// What a backend receives when explaining a failed run.
pub struct ExplainCtx<'a> {
    /// The policy the child ran under.
    pub config: &'a SandboxConfig,
    /// How the child ended.
    pub status: &'a ExitReport,
    /// Captured child output (stderr / merged stdio), if the caller piped it.
    pub captured: Option<&'a str>,
}

impl<'a> ExplainCtx<'a> {
    /// Explain a run from just its exit status (no captured output).
    pub fn new(config: &'a SandboxConfig, status: &'a ExitReport) -> (ctx: ExplainCtx<'a>)
        ensures
            ctx == (ExplainCtx { config, status, captured: None }),
    {
        ExplainCtx { config, status, captured: None }
    }

    /// Attach captured child output so the backend can parse denial lines.
    pub fn with_captured(self, captured: &'a str) -> (ctx: ExplainCtx<'a>)
        ensures
            ctx == (ExplainCtx { captured: Some(captured), ..self }),
    {
        ExplainCtx { captured: Some(captured), ..self }
    }
}

/// What a violation says, if there is one.
pub open spec fn explanation(violation: Option<Violation>) -> Option<ViolationView> {
    match violation {
        Some(violation) => Some(violation@),
        None => None,
    }
}

/// The caps that are set among those that end a process.
pub open spec fn cap_suggestions(limits: ResourceLimits) -> Seq<Seq<char>> {
    (if limits.cpu_time_secs is Some {
        seq!["raise the CPU cap: .cpu_time_limit_secs(<larger>)"@]
    } else {
        seq![]
    }) + (if limits.memory_bytes is Some {
        seq!["raise the memory cap: .memory_limit_mb(<larger>)"@]
    } else {
        seq![]
    })
}

/// A kill by a resource signal under a configured cap.
pub open spec fn resource_signal_explanation(
    signals: SignalNumbers,
    limits: ResourceLimits,
    status: ExitReport,
) -> Option<ViolationView> {
    if (status.signal == Some(signals.xcpu) || status.signal == Some(signals.kill))
        && cap_suggestions(limits).len() > 0 {
        Some(
            ViolationView {
                kind: ViolationKind::ResourceLimit,
                summary: "process was killed by a resource limit (CPU time or memory)"@,
                suggestions: cap_suggestions(limits),
            },
        )
    } else {
        None
    }
}

/// Resource-limit violation inferred from a CPU/memory kill signal.
///
/// `SIGXCPU` (CPU time exhausted) and `SIGKILL` (often the out-of-memory killer)
/// indicate that a resource limit was hit. The suggestion names whichever caps
/// the configuration actually set; without any the signal cannot be attributed.
pub fn resource_signal_violation(
    signals: &SignalNumbers,
    config: &SandboxConfig,
    status: &ExitReport,
) -> (violation: Option<Violation>)
    ensures
        explanation(violation) == resource_signal_explanation(*signals, config.limits, *status),
{
    match status.signal {
        Some(signal) => {
            if signal != signals.xcpu && signal != signals.kill {
                return None;
            }
        },
        None => {
            return None;
        },
    }
    let mut suggestions: Vec<String> = Vec::new();
    if config.limits.cpu_time_secs.is_some() {
        suggestions.push(
            String::from_str("raise the CPU cap: .cpu_time_limit_secs(<larger>)"),
        );
    }
    if config.limits.memory_bytes.is_some() {
        suggestions.push(String::from_str("raise the memory cap: .memory_limit_mb(<larger>)"));
    }
    assert(texts(suggestions@) =~= cap_suggestions(config.limits));
    if suggestions.len() == 0 {
        return None;
    }
    Some(
        Violation {
            kind: ViolationKind::ResourceLimit,
            summary: String::from_str(
                "process was killed by a resource limit (CPU time or memory)",
            ),
            suggestions,
        },
    )
}

/// The two grants that a silent filesystem denial calls for.
pub open spec fn grant_suggestions() -> Seq<Seq<char>> {
    seq![
        "grant read access: .allow_read(\"<path>\")"@,
        "grant write access: .allow_write(\"<path>\")"@,
    ]
}

/// The two grants that a silent filesystem denial calls for.
pub(crate) fn suggest_grants() -> (suggestions: Vec<String>)
    ensures
        texts(suggestions@) == grant_suggestions(),
{
    let mut suggestions: Vec<String> = Vec::new();
    suggestions.push(String::from_str("grant read access: .allow_read(\"<path>\")"));
    suggestions.push(String::from_str("grant write access: .allow_write(\"<path>\")"));
    assert(texts(suggestions@) =~= grant_suggestions());
    suggestions
}

/// The platform-agnostic heuristic.
pub open spec fn portable_explanation(
    signals: SignalNumbers,
    ctx: ExplainCtx<'_>,
) -> Option<ViolationView> {
    let resource = resource_signal_explanation(signals, ctx.config.limits, *ctx.status);
    if ctx.status.success {
        None
    } else if resource is Some {
        resource
    } else {
        Some(
            ViolationView {
                kind: ViolationKind::Filesystem,
                summary: "process exited unsuccessfully ("@ + ctx.status.text@ + ")"@,
                suggestions: grant_suggestions(),
            },
        )
    }
}

/// A platform-agnostic heuristic, for backends that have no better one: nothing
/// on success, a resource-limit signal, and else a generic filesystem
/// suggestion.
pub fn portable_explain(signals: &SignalNumbers, ctx: &ExplainCtx<'_>) -> (violation: Option<
    Violation,
>)
    ensures
        explanation(violation) == portable_explanation(*signals, *ctx),
{
    if ctx.status.success {
        return None;
    }
    match resource_signal_violation(signals, ctx.config, ctx.status) {
        Some(violation) => {
            return Some(violation);
        },
        None => {},
    }
    let mut summary = String::from_str("process exited unsuccessfully (");
    summary.append(ctx.status.text.as_str());
    summary.append(")");
    Some(
        Violation {
            kind: ViolationKind::Filesystem,
            summary,
            suggestions: suggest_grants(),
        },
    )
}

/// A successful run is never explained, and any other always is.
pub proof fn law_only_failures_are_explained(signals: SignalNumbers, ctx: ExplainCtx<'_>)
    ensures
        portable_explanation(signals, ctx) is None <==> ctx.status.success,
{
}

/// What a failed run is explained by where nothing more is known of the platform: a
/// resource limit exactly for a `SIGXCPU` or a `SIGKILL` under a CPU or memory cap,
/// with the caps that are set as suggestions; the filesystem, with the two grants, in
/// every other case.
pub proof fn law_kind_follows_how_the_run_ended(signals: SignalNumbers, ctx: ExplainCtx<'_>)
    requires
        !ctx.status.success,
    ensures
        ({
            let cpu_cap = "raise the CPU cap: .cpu_time_limit_secs(<larger>)"@;
            let memory_cap = "raise the memory cap: .memory_limit_mb(<larger>)"@;
            let limits = ctx.config.limits;
            let ended = ctx.status.signal;
            let cut_off = (ended == Some(signals.xcpu) || ended == Some(signals.kill)) && (
            limits.cpu_time_secs is Some || limits.memory_bytes is Some);
            &&& portable_explanation(signals, ctx) matches Some(said)
            &&& said.kind == ViolationKind::ResourceLimit <==> cut_off
            &&& said.kind == ViolationKind::Filesystem <==> !cut_off
            &&& cut_off ==> {
                &&& said.summary == "process was killed by a resource limit (CPU time or memory)"@
                &&& limits.cpu_time_secs is Some && limits.memory_bytes is Some
                    ==> said.suggestions == seq![cpu_cap, memory_cap]
                &&& limits.cpu_time_secs is Some && limits.memory_bytes is None
                    ==> said.suggestions == seq![cpu_cap]
                &&& limits.cpu_time_secs is None ==> said.suggestions == seq![memory_cap]
            }
            &&& !cut_off ==> {
                &&& said.summary == "process exited unsuccessfully ("@ + ctx.status.text@ + ")"@
                &&& said.suggestions == seq![
                    "grant read access: .allow_read(\"<path>\")"@,
                    "grant write access: .allow_write(\"<path>\")"@,
                ]
            }
        }),
{
    let empty: Seq<Seq<char>> = seq![];
    let cpu_cap = "raise the CPU cap: .cpu_time_limit_secs(<larger>)"@;
    let memory_cap = "raise the memory cap: .memory_limit_mb(<larger>)"@;
    assert(seq![cpu_cap] + seq![memory_cap] =~= seq![cpu_cap, memory_cap]);
    assert(seq![cpu_cap] + empty =~= seq![cpu_cap]);
    assert(empty + seq![memory_cap] =~= seq![memory_cap]);
    assert(empty + empty =~= empty);
}

/// The text of a violation is its summary, followed by one indented line for each
/// suggestion, in their order.
pub proof fn law_suggestions_are_listed(suggestions: Seq<Seq<char>>, more: Seq<char>)
    ensures
        bullets(seq![]) == Seq::<char>::empty(),
        bullets(suggestions.push(more)) == bullets(suggestions) + "\n  - "@ + more,
        bullets(suggestions).len() >= 5 * suggestions.len(),
    decreases suggestions.len(),
{
    reveal_strlit("\n  - ");
    assert(suggestions.push(more).drop_last() =~= suggestions);
    if suggestions.len() > 0 {
        law_suggestions_are_listed(suggestions.drop_last(), more);
    }
}

} // verus!
