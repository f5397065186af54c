//! The macOS explanation of a failed run.
//!
//! Seatbelt does not give the parent a synchronous violation notification.
//! Generated profiles enable `(debug deny)`, which can produce sandbox denial
//! lines in stderr or the macOS unified log. When a caller captures that text
//! and passes it via [`ExplainCtx::captured`], denial lines are classified;
//! otherwise the explanation falls back to exit-status heuristics.
use crate::diagnostics::{
    explanation, native_signals, resource_signal_explanation, resource_signal_violation, texts,
    ExplainCtx, ExitReport, SignalNumbers, Violation, ViolationKind, ViolationView,
};
use crate::macos::sbpl::{escaped, push_escaped};
use crate::policy::NetworkPolicy;
use crate::scan::{
    char_seqs, find, find_last, find_white, first_at, first_white, has_prefix, is_at, is_white,
    last_at, law_first_place_is_found, law_first_white_is_found, law_last_place_is_found,
    law_trimmed_text_stays, law_trimming_takes_white_space_alone, lines_of, part, rest,
    split_lines, trim, trim_start, trimmed, trimmed_start,
};
use crate::text::{push_range, to_chars};
use vstd::prelude::*;

verus! {

/// What a denial line names.
pub struct DenialView {
    pub operation: Seq<char>,
    pub subject: Option<Seq<char>>,
}

/// A denial line: `... deny(CODE) OPERATION SUBJECT`.
struct Denial {
    operation: Vec<char>,
    subject: Option<Vec<char>>,
}

impl View for Denial {
    type V = DenialView;

    closed spec fn view(&self) -> DenialView {
        DenialView {
            operation: self.operation@,
            subject: match self.subject {
                Some(subject) => Some(subject@),
                None => None,
            },
        }
    }
}

/// What a line says of a denial, behind the code.
pub open spec fn denial_in(named: Seq<char>) -> DenialView {
    match first_white(named, 0) {
        Some(end) => DenialView {
            operation: named.take(end),
            subject: if trimmed(named.skip(end + 1)).len() == 0 {
                None
            } else {
                Some(trimmed(named.skip(end + 1)))
            },
        },
        None => DenialView { operation: named, subject: None },
    }
}

/// What a line says of a denial, if it is a denial line.
pub open spec fn denial_of(line: Seq<char>) -> Option<DenialView> {
    match first_at(line, " deny("@, 0) {
        Some(mark) => {
            let code = line.skip(mark + " deny("@.len());
            match first_at(code, seq![')'], 0) {
                Some(end) => {
                    let denial = denial_in(trimmed_start(code.skip(end + 1)));
                    if denial.operation.len() == 0 {
                        None
                    } else {
                        Some(denial)
                    }
                },
                None => None,
            }
        },
        None => None,
    }
}

/// What the first denial line from line `from` on says.
pub open spec fn first_denial(lines: Seq<Seq<char>>, from: int) -> Option<DenialView>
    decreases lines.len() - from,
{
    if from < 0 || from >= lines.len() {
        None
    } else if denial_of(lines[from]) is Some {
        denial_of(lines[from])
    } else {
        first_denial(lines, from + 1)
    }
}

/// The absolute path that a line names right before `suffix`, if it does.
pub open spec fn path_before(line: Seq<char>, suffix: Seq<char>) -> Option<Seq<char>> {
    match first_at(line, suffix, 0) {
        Some(end) => {
            let before = trimmed(line.take(end));
            let candidate = match last_at(before, ": "@, before.len() as int) {
                Some(mark) => before.skip(mark + ": "@.len()),
                None => before,
            };
            if is_at(candidate, seq!['/'], 0) {
                Some(candidate)
            } else {
                None
            }
        },
        None => None,
    }
}

/// The first such path from line `from` on.
pub open spec fn first_path_before(
    lines: Seq<Seq<char>>,
    suffix: Seq<char>,
    from: int,
) -> Option<Seq<char>>
    decreases lines.len() - from,
{
    if from < 0 || from >= lines.len() {
        None
    } else if path_before(lines[from], suffix) is Some {
        path_before(lines[from], suffix)
    } else {
        first_path_before(lines, suffix, from + 1)
    }
}

/// The path that captured output reports as refused. `Permission denied` on any
/// line comes before `Operation not permitted`.
pub open spec fn refused_path(captured: Seq<char>) -> Option<Seq<char>> {
    let lines = lines_of(captured);
    match first_path_before(lines, ": Permission denied"@, 0) {
        Some(path) => Some(path),
        None => first_path_before(lines, ": Operation not permitted"@, 0),
    }
}

/// A suggestion to grant a path.
pub open spec fn grant_text(before: Seq<char>, path: Seq<char>) -> Seq<char> {
    before + path + "\".into())])"@
}

/// The path that a suggestion names: the subject of the denial, or a placeholder.
pub open spec fn granted_path(subject: Option<Seq<char>>) -> Seq<char> {
    match subject {
        Some(subject) => escaped(subject),
        None => "<path>"@,
    }
}

/// The next steps after a denial.
pub open spec fn denial_suggestions(network: NetworkPolicy, denial: DenialView) -> Seq<
    Seq<char>,
> {
    let path = granted_path(denial.subject);
    if is_at(denial.operation, "file-read"@, 0) {
        seq![grant_text("grant read access: .fs([FsAccess::ReadAllow(\""@, path)]
    } else if is_at(denial.operation, "file-write"@, 0) {
        seq![grant_text("grant write access: .fs([FsAccess::WriteAllow(\""@, path)]
    } else if denial.operation == "file-map-executable"@ || is_at(
        denial.operation,
        "process-exec"@,
        0,
    ) {
        seq![grant_text("grant execute access: .fs([FsAccess::ExecuteAllow(\""@, path)]
    } else if is_at(denial.operation, "network"@, 0) {
        match network {
            NetworkPolicy::Deny => seq![
                "allow outbound networking: .network(NetworkPolicy::OutboundOnly)"@,
                "or allow outbound plus bind/listen: .network(NetworkPolicy::Full)"@,
            ],
            NetworkPolicy::OutboundOnly => seq![
                "allow bind/listen networking: .network(NetworkPolicy::Full)"@,
            ],
            NetworkPolicy::Full => seq![
                "network is already fully allowed; inspect the Seatbelt operation and any imported profile"@,
            ],
        }
    } else {
        seq![
            "allow the macOS-specific Seatbelt operation with an imported profile: .darwin_sandbox_profiles([\"<profile.sb>\".into()]) for operation "@
                + denial.operation,
        ]
    }
}

/// The category of a denied operation.
pub open spec fn kind_of_operation(operation: Seq<char>) -> ViolationKind {
    if is_at(operation, "file-"@, 0) || is_at(operation, "process-exec"@, 0) {
        ViolationKind::Filesystem
    } else {
        ViolationKind::Unknown
    }
}

/// How every summary starts.
pub open spec fn failure_text(status: ExitReport) -> Seq<char> {
    "process exited unsuccessfully ("@ + status.text@
}

/// The explanation of a denial line.
pub open spec fn denial_explanation(
    network: NetworkPolicy,
    status: ExitReport,
    denial: DenialView,
) -> ViolationView {
    ViolationView {
        kind: kind_of_operation(denial.operation),
        summary: failure_text(status) + "); Seatbelt denied "@ + denial.operation + match denial.subject {
            Some(subject) => " for "@ + subject,
            None => seq![],
        },
        suggestions: denial_suggestions(network, denial),
    }
}

/// The explanation of a path that captured output reports as refused.
pub open spec fn refusal_explanation(status: ExitReport, path: Seq<char>) -> ViolationView {
    ViolationView {
        kind: ViolationKind::Filesystem,
        summary: failure_text(status) + "); captured output reported Permission denied for "@
            + path,
        suggestions: seq![
            grant_text("grant read access: .fs([FsAccess::ReadAllow(\""@, escaped(path)),
            grant_text("grant write access: .fs([FsAccess::WriteAllow(\""@, escaped(path)),
        ],
    }
}

/// The explanation where nothing more is known.
pub open spec fn fallback_explanation(status: ExitReport) -> ViolationView {
    ViolationView {
        kind: ViolationKind::Filesystem,
        summary: failure_text(status) + "); on macOS this is often a Seatbelt denial"@,
        suggestions: seq![
            grant_text("grant read access: .fs([FsAccess::ReadAllow(\""@, "<path>"@),
            grant_text("grant write access: .fs([FsAccess::WriteAllow(\""@, "<path>"@),
            "for macOS-specific operations, import a Seatbelt profile: .darwin_sandbox_profiles([\"<profile.sb>\".into()])"@,
        ],
    }
}

/// The macOS heuristic: a denial line, a resource-limit signal, a refused path in
/// the captured output, and else a guess.
pub open spec fn macos_explanation(signals: SignalNumbers, ctx: ExplainCtx<'_>) -> Option<
    ViolationView,
> {
    let denial = match ctx.captured {
        Some(captured) => first_denial(lines_of(captured@), 0),
        None => None,
    };
    let resource = resource_signal_explanation(signals, ctx.config.limits, *ctx.status);
    let path = match ctx.captured {
        Some(captured) => refused_path(captured@),
        None => None,
    };
    if ctx.status.success {
        None
    } else if denial is Some {
        Some(denial_explanation(ctx.config.network, *ctx.status, denial->0))
    } else if resource is Some {
        resource
    } else if path is Some {
        Some(refusal_explanation(*ctx.status, path->0))
    } else {
        Some(fallback_explanation(*ctx.status))
    }
}

/// What a denial says, if there is one.
spec fn denial_view(denial: Option<Denial>) -> Option<DenialView> {
    match denial {
        Some(denial) => Some(denial@),
        None => None,
    }
}

/// The text of a path, if there is one.
spec fn chars_view(chars: Option<Vec<char>>) -> Option<Seq<char>> {
    match chars {
        Some(chars) => Some(chars@),
        None => None,
    }
}

/// What a line says of a denial, if it is a denial line.
fn parse_denial_line(line: &Vec<char>) -> (denial: Option<Denial>)
    ensures
        denial_view(denial) == denial_of(line@),
{
    let mark = to_chars(" deny(");
    let code = match find(line, &mark) {
        Some(at) => {
            assert(at + mark.len() <= line.len());
            rest(line, at + mark.len())
        },
        None => {
            return None;
        },
    };
    let close: Vec<char> = vec![')'];
    assert(close@ =~= seq![')']);
    let named = match find(&code, &close) {
        Some(at) => {
            assert(at + 1 <= code.len());
            trim_start(&rest(&code, at + 1))
        },
        None => {
            return None;
        },
    };
    let (operation, subject) = match find_white(&named) {
        Some(at) => {
            let operation = part(&named, 0, at);
            assert(operation@ =~= named@.take(at as int));
            let subject = trim(&rest(&named, at + 1));
            if subject.len() == 0 {
                (operation, None)
            } else {
                (operation, Some(subject))
            }
        },
        None => (named, None),
    };
    if operation.len() == 0 {
        return None;
    }
    Some(Denial { operation, subject })
}

/// What the first denial line says.
fn find_denial(lines: &Vec<Vec<char>>) -> (denial: Option<Denial>)
    ensures
        denial_view(denial) == first_denial(char_seqs(lines@), 0),
{
    let ghost all = char_seqs(lines@);
    let mut i: usize = 0;
    while i < lines.len()
        invariant
            i <= lines@.len(),
            all == char_seqs(lines@),
            first_denial(all, 0) == first_denial(all, i as int),
        decreases lines.len() - i,
    {
        assert(all[i as int] == lines@[i as int]@);
        match parse_denial_line(&lines[i]) {
            Some(denial) => {
                return Some(denial);
            },
            None => {},
        }
        i += 1;
    }
    None
}

/// The absolute path that a line names right before `suffix`, if it does.
fn path_before_suffix(line: &Vec<char>, suffix: &Vec<char>) -> (path: Option<Vec<char>>)
    ensures
        chars_view(path) == path_before(line@, suffix@),
{
    let before = match find(line, suffix) {
        Some(at) => {
            let head = part(line, 0, at);
            assert(head@ =~= line@.take(at as int));
            trim(&head)
        },
        None => {
            return None;
        },
    };
    let mark = to_chars(": ");
    let candidate = match find_last(&before, &mark) {
        Some(at) => {
            assert(at + mark.len() <= before.len());
            rest(&before, at + mark.len())
        },
        None => before,
    };
    proof {
        reveal_strlit("/");
        assert("/"@ =~= seq!['/']);
    }
    if has_prefix(&candidate, "/") {
        Some(candidate)
    } else {
        None
    }
}

/// The first path that a line names right before `suffix`.
fn find_path_before(lines: &Vec<Vec<char>>, suffix: &str) -> (path: Option<Vec<char>>)
    ensures
        chars_view(path) == first_path_before(char_seqs(lines@), suffix@, 0),
{
    let pattern = to_chars(suffix);
    let ghost all = char_seqs(lines@);
    let mut i: usize = 0;
    while i < lines.len()
        invariant
            i <= lines@.len(),
            pattern@ == suffix@,
            all == char_seqs(lines@),
            first_path_before(all, suffix@, 0) == first_path_before(all, suffix@, i as int),
        decreases lines.len() - i,
    {
        assert(all[i as int] == lines@[i as int]@);
        match path_before_suffix(&lines[i], &pattern) {
            Some(path) => {
                return Some(path);
            },
            None => {},
        }
        i += 1;
    }
    None
}

/// The path that captured output reports as refused.
fn find_permission_denied_path(captured: &str) -> (path: Option<Vec<char>>)
    ensures
        chars_view(path) == refused_path(captured@),
{
    let lines = split_lines(captured);
    match find_path_before(&lines, ": Permission denied") {
        Some(path) => Some(path),
        None => find_path_before(&lines, ": Operation not permitted"),
    }
}

/// The string of some characters.
fn to_string(chars: &Vec<char>) -> (text: String)
    ensures
        text@ == chars@,
{
    let mut text = String::new();
    push_range(&mut text, chars, 0, chars.len());
    assert(text@ =~= chars@);
    text
}

/// A suggestion to grant a path, or a placeholder.
fn grant(before: &str, path: Option<&Vec<char>>) -> (text: String)
    ensures
        text@ == grant_text(
            before@,
            granted_path(
                match path {
                    Some(path) => Some(path@),
                    None => None,
                },
            ),
        ),
{
    let mut text = String::from_str(before);
    match path {
        Some(path) => {
            let path = to_string(path);
            push_escaped(&mut text, path.as_str());
        },
        None => {
            text.append("<path>");
        },
    }
    text.append("\".into())])");
    text
}

/// One suggestion.
fn only(suggestion: String) -> (suggestions: Vec<String>)
    ensures
        texts(suggestions@) == seq![suggestion@],
{
    let mut suggestions: Vec<String> = Vec::new();
    suggestions.push(suggestion);
    assert(texts(suggestions@) =~= seq![suggestion@]);
    suggestions
}

/// Adds a suggestion.
fn also(suggestions: &mut Vec<String>, suggestion: String)
    ensures
        texts(final(suggestions)@) == texts(old(suggestions)@).push(suggestion@),
{
    let ghost before = texts(suggestions@);
    suggestions.push(suggestion);
    assert(texts(suggestions@) =~= before.push(suggestion@));
}

/// The next steps after a denial.
fn suggestions_for_denial(network: NetworkPolicy, denial: &Denial) -> (suggestions: Vec<String>)
    ensures
        texts(suggestions@) == denial_suggestions(network, denial@),
{
    let subject = match &denial.subject {
        Some(subject) => Some(subject),
        None => None,
    };
    let mapping = to_chars("file-map-executable");
    if has_prefix(&denial.operation, "file-read") {
        return only(grant("grant read access: .fs([FsAccess::ReadAllow(\"", subject));
    }
    if has_prefix(&denial.operation, "file-write") {
        return only(grant("grant write access: .fs([FsAccess::WriteAllow(\"", subject));
    }
    let maps_executable = denial.operation.len() == mapping.len() && has_prefix(
        &denial.operation,
        "file-map-executable",
    );
    proof {
        let operation = denial.operation@;
        if operation.len() == mapping@.len() {
            assert(operation.subrange(0, operation.len() as int) =~= operation);
        }
    }
    if maps_executable || has_prefix(&denial.operation, "process-exec") {
        return only(grant("grant execute access: .fs([FsAccess::ExecuteAllow(\"", subject));
    }
    if has_prefix(&denial.operation, "network") {
        return match network {
            NetworkPolicy::Deny => {
                let mut suggestions = only(
                    String::from_str(
                        "allow outbound networking: .network(NetworkPolicy::OutboundOnly)",
                    ),
                );
                also(
                    &mut suggestions,
                    String::from_str(
                        "or allow outbound plus bind/listen: .network(NetworkPolicy::Full)",
                    ),
                );
                assert(texts(suggestions@) =~= denial_suggestions(network, denial@));
                suggestions
            },
            NetworkPolicy::OutboundOnly => only(
                String::from_str("allow bind/listen networking: .network(NetworkPolicy::Full)"),
            ),
            NetworkPolicy::Full => only(
                String::from_str(
                    "network is already fully allowed; inspect the Seatbelt operation and any imported profile",
                ),
            ),
        };
    }
    let mut text = String::from_str(
        "allow the macOS-specific Seatbelt operation with an imported profile: .darwin_sandbox_profiles([\"<profile.sb>\".into()]) for operation ",
    );
    let operation = to_string(&denial.operation);
    text.append(operation.as_str());
    only(text)
}

/// How every summary starts.
fn failure(status: &ExitReport) -> (text: String)
    ensures
        text@ == failure_text(*status),
{
    let mut text = String::from_str("process exited unsuccessfully (");
    text.append(status.text.as_str());
    text
}

/// The explanation of a denial line.
fn explain_seatbelt_denial(network: NetworkPolicy, status: &ExitReport, denial: &Denial) -> (violation:
    Violation)
    ensures
        violation@ == denial_explanation(network, *status, denial@),
{
    let suggestions = suggestions_for_denial(network, denial);
    let kind = if has_prefix(&denial.operation, "file-") || has_prefix(
        &denial.operation,
        "process-exec",
    ) {
        ViolationKind::Filesystem
    } else {
        ViolationKind::Unknown
    };
    let mut summary = failure(status);
    summary.append("); Seatbelt denied ");
    let operation = to_string(&denial.operation);
    summary.append(operation.as_str());
    match &denial.subject {
        Some(subject) => {
            let subject = to_string(subject);
            summary.append(" for ");
            summary.append(subject.as_str());
        },
        None => {},
    }
    assert(summary@ =~= denial_explanation(network, *status, denial@).summary);
    Violation { kind, summary, suggestions }
}

/// The explanation of a path that captured output reports as refused.
fn explain_permission_text(status: &ExitReport, path: &Vec<char>) -> (violation: Violation)
    ensures
        violation@ == refusal_explanation(*status, path@),
{
    let mut summary = failure(status);
    summary.append("); captured output reported Permission denied for ");
    let shown = to_string(path);
    summary.append(shown.as_str());
    let mut suggestions = only(
        grant("grant read access: .fs([FsAccess::ReadAllow(\"", Some(path)),
    );
    also(&mut suggestions, grant("grant write access: .fs([FsAccess::WriteAllow(\"", Some(path)));
    assert(texts(suggestions@) =~= refusal_explanation(*status, path@).suggestions);
    Violation { kind: ViolationKind::Filesystem, summary, suggestions }
}

/// The explanation where nothing more is known.
fn explain_fallback(status: &ExitReport) -> (violation: Violation)
    ensures
        violation@ == fallback_explanation(*status),
{
    let mut summary = failure(status);
    summary.append("); on macOS this is often a Seatbelt denial");
    let mut suggestions = only(grant("grant read access: .fs([FsAccess::ReadAllow(\"", None));
    also(&mut suggestions, grant("grant write access: .fs([FsAccess::WriteAllow(\"", None));
    also(
        &mut suggestions,
        String::from_str(
            "for macOS-specific operations, import a Seatbelt profile: .darwin_sandbox_profiles([\"<profile.sb>\".into()])",
        ),
    );
    assert(texts(suggestions@) =~= fallback_explanation(*status).suggestions);
    Violation { kind: ViolationKind::Filesystem, summary, suggestions }
}

/// Explains a run with the platform's own signal numbers.
pub fn explain(ctx: &ExplainCtx<'_>) -> (violation: Option<Violation>)
    ensures
        exists|signals: SignalNumbers|
            signals.is_unix() && explanation(violation) == #[trigger] macos_explanation(
                signals,
                *ctx,
            ),
{
    let signals = native_signals();
    explain_with(&signals, ctx)
}

/// Explains a run with the given signal numbers.
pub fn explain_with(signals: &SignalNumbers, ctx: &ExplainCtx<'_>) -> (violation: Option<
    Violation,
>)
    ensures
        explanation(violation) == macos_explanation(*signals, *ctx),
{
    if ctx.status.success {
        return None;
    }
    match ctx.captured {
        Some(captured) => {
            let lines = split_lines(captured);
            match find_denial(&lines) {
                Some(denial) => {
                    return Some(
                        explain_seatbelt_denial(ctx.config.network, ctx.status, &denial),
                    );
                },
                None => {},
            }
        },
        None => {},
    }
    match resource_signal_violation(signals, ctx.config, ctx.status) {
        Some(violation) => {
            return Some(violation);
        },
        None => {},
    }
    match ctx.captured {
        Some(captured) => {
            match find_permission_denied_path(captured) {
                Some(path) => {
                    return Some(explain_permission_text(ctx.status, &path));
                },
                None => {},
            }
        },
        None => {},
    }
    Some(explain_fallback(ctx.status))
}

/// A successful run is never explained, and any other always is.
pub proof fn law_only_failures_are_explained(signals: SignalNumbers, ctx: ExplainCtx<'_>)
    ensures
        macos_explanation(signals, ctx) is None <==> ctx.status.success,
{
}

/// A denial line is understood: what comes between the code and the next white space is
/// the operation, and the rest is the subject. The first `deny(` of the line counts.
pub proof fn law_denial_lines_are_understood(
    before: Seq<char>,
    code: Seq<char>,
    operation: Seq<char>,
    subject: Seq<char>,
)
    requires
        forall|at: int|
            0 <= at < before.len() ==> !#[trigger] is_at(
                before + " deny("@ + code + ") "@ + operation + " "@ + subject,
                " deny("@,
                at,
            ),
        !code.contains(')'),
        operation.len() > 0,
        forall|i: int| 0 <= i < operation.len() ==> !is_white(#[trigger] operation[i]),
        subject.len() > 0,
        !is_white(subject[0]),
        !is_white(subject.last()),
    ensures
        denial_of(before + " deny("@ + code + ") "@ + operation + " "@ + subject) == Some(
            DenialView { operation, subject: Some(subject) },
        ),
{
    let line = before + " deny("@ + code + ") "@ + operation + " "@ + subject;
    reveal_strlit(" deny(");
    reveal_strlit(") ");
    reveal_strlit(" ");
    let mark = before.len() as int;
    assert(line.subrange(mark, mark + 6) =~= " deny("@);
    assert(is_at(line, " deny("@, mark));
    law_first_place_is_found(line, " deny("@, 0);
    assert(first_at(line, " deny("@, 0) == Some(mark));
    let rest = line.skip(mark + 6);
    let named = operation + " "@ + subject;
    assert(rest =~= code + ") "@ + named);
    let end = code.len() as int;
    let bracket = seq![')'];
    assert(rest.subrange(end, end + 1) =~= bracket);
    assert(is_at(rest, bracket, end));
    assert forall|i: int| 0 <= i < end implies !#[trigger] is_at(rest, bracket, i) by {
        if is_at(rest, bracket, i) {
            assert(rest.subrange(i, i + 1)[0] == rest[i]);
            assert(code.contains(code[i]));
        }
    }
    law_first_place_is_found(rest, bracket, 0);
    assert(first_at(rest, bracket, 0) == Some(end));
    let tail = rest.skip(end + 1);
    assert(tail =~= " "@ + named + seq![]);
    assert(named[0] == operation[0]);
    assert(named.last() == subject.last());
    assert(is_white(' '));
    law_trimmed_text_stays(" "@, named, seq![]);
    assert(named + seq![] =~= named);
    assert(trimmed_start(tail) == named);
    let stop = operation.len() as int;
    assert(named[stop] == ' ');
    law_first_white_is_found(named, 0);
    assert(first_white(named, 0) == Some(stop)) by {
        assert forall|i: int| 0 <= i < stop implies !is_white(#[trigger] named[i]) by {
            assert(named[i] == operation[i]);
        }
    }
    assert(named.take(stop) =~= operation);
    assert(named.skip(stop + 1) =~= seq![] + subject + seq![]);
    law_trimmed_text_stays(seq![], subject, seq![]);
}

/// A line without `deny(` behind a space is no denial line, and one with it names an
/// operation that holds no white space.
pub proof fn law_only_denial_lines_deny(line: Seq<char>)
    ensures
        (forall|at: int| 0 <= at ==> !#[trigger] is_at(line, " deny("@, at)) ==> denial_of(line)
            is None,
        denial_of(line) matches Some(denial) ==> {
            &&& denial.operation.len() > 0
            &&& forall|i: int|
                0 <= i < denial.operation.len() ==> !is_white(#[trigger] denial.operation[i])
            &&& denial.subject matches Some(subject) ==> subject.len() > 0 && !is_white(subject[0])
                && !is_white(subject.last())
        },
{
    law_first_place_is_found(line, " deny("@, 0);
    if denial_of(line) is Some {
        let mark = first_at(line, " deny("@, 0)->0;
        let code = line.skip(mark + " deny("@.len());
        let end = first_at(code, seq![')'], 0)->0;
        let named = trimmed_start(code.skip(end + 1));
        law_first_white_is_found(named, 0);
        if first_white(named, 0) is Some {
            let stop = first_white(named, 0)->0;
            law_trimming_takes_white_space_alone(named.skip(stop + 1));
            assert forall|i: int| 0 <= i < stop implies !is_white(
                #[trigger] denial_in(named).operation[i],
            ) by {
                assert(denial_in(named).operation[i] == named[i]);
            }
        }
    }
}

/// Of the lines that deny, the first counts.
pub proof fn law_first_denial_counts(lines: Seq<Seq<char>>, from: int)
    requires
        0 <= from,
    ensures
        first_denial(lines, from) is None <==> forall|i: int|
            from <= i < lines.len() ==> denial_of(#[trigger] lines[i]) is None,
        forall|i: int|
            from <= i < lines.len() && denial_of(#[trigger] lines[i]) is Some && (forall|j: int|
                from <= j < i ==> denial_of(#[trigger] lines[j]) is None) ==> first_denial(
                lines,
                from,
            ) == denial_of(lines[i]),
    decreases lines.len() - from,
{
    if from < lines.len() {
        law_first_denial_counts(lines, from + 1);
        assert forall|i: int|
            from <= i < lines.len() && denial_of(#[trigger] lines[i]) is Some && (forall|j: int|
                from <= j < i ==> denial_of(#[trigger] lines[j]) is None) implies first_denial(
            lines,
            from,
        ) == denial_of(lines[i]) by {
            if i > from {
                assert(denial_of(lines[from]) is None);
            }
        }
        if first_denial(lines, from) is None {
            assert(denial_of(lines[from]) is None);
        }
    }
}

/// A refused path is understood: what stands between the last colon with a space and
/// the message is the path, if it is absolute.
pub proof fn law_refused_paths_are_understood(
    before: Seq<char>,
    path: Seq<char>,
    suffix: Seq<char>,
    after: Seq<char>,
)
    requires
        forall|at: int|
            0 <= at < (before + ": "@ + path).len() ==> !#[trigger] is_at(
                before + ": "@ + path + suffix + after,
                suffix,
                at,
            ),
        forall|at: int| 0 <= at ==> !#[trigger] is_at(path, ": "@, at),
        before.len() > 0,
        !is_white(before[0]),
        path.len() > 0,
        path[0] == '/',
        !is_white(path.last()),
    ensures
        path_before(before + ": "@ + path + suffix + after, suffix) == Some(path),
{
    let front = before + ": "@ + path;
    let line = front + suffix + after;
    let end = front.len() as int;
    assert(line.subrange(end, end + suffix.len()) =~= suffix);
    assert(is_at(line, suffix, end));
    law_first_place_is_found(line, suffix, 0);
    assert(first_at(line, suffix, 0) == Some(end));
    assert(line.take(end) =~= front);
    lemma_last_colon(before, path);
    assert(trimmed(front) == front) by {
        assert(seq![] + front + seq![] =~= front);
        assert(front[0] == before[0] && front.last() == path.last());
        law_trimmed_text_stays(seq![], front, seq![]);
    }
    assert(path.subrange(0, 1) =~= seq!['/']);
}

/// The last colon with a space is the one before the path.
proof fn lemma_last_colon(before: Seq<char>, path: Seq<char>)
    requires
        path.len() > 0,
        path[0] == '/',
        forall|at: int| 0 <= at ==> !#[trigger] is_at(path, ": "@, at),
    ensures
        ({
            let front = before + ": "@ + path;
            &&& last_at(front, ": "@, front.len() as int) == Some(before.len() as int)
            &&& front.skip(before.len() as int + ": "@.len()) == path
        }),
{
    reveal_strlit(": ");
    let front = before + ": "@ + path;
    let mark = before.len() as int;
    assert(front.subrange(mark, mark + 2) =~= ": "@);
    assert(is_at(front, ": "@, mark));
    law_last_place_is_found(front, ": "@, front.len() as int);
    assert forall|at: int| mark < at <= front.len() implies !#[trigger] is_at(front, ": "@, at) by {
        if is_at(front, ": "@, at) {
            let part = front.subrange(at, at + 2);
            assert(part[0] == front[at] && part[1] == front[at + 1]);
            if at >= mark + 2 {
                assert(path.subrange(at - mark - 2, at - mark) =~= part);
                assert(is_at(path, ": "@, at - mark - 2));
            } else {
                assert(front[at] == ' ');
            }
        }
    }
    assert(front.skip(mark + 2) =~= path);
}

/// What a failed run is explained by: a denial line of the captured output before
/// anything else, then a `SIGXCPU` or `SIGKILL` under a CPU or memory cap, then a path
/// that the output reports as refused, and else a guess. A denied operation on files or
/// on executing them is of the filesystem, and any other is unknown.
pub proof fn law_kind_follows_what_was_seen(signals: SignalNumbers, ctx: ExplainCtx<'_>)
    requires
        !ctx.status.success,
    ensures
        ({
            let denial = match ctx.captured {
                Some(captured) => first_denial(lines_of(captured@), 0),
                None => None,
            };
            let path = match ctx.captured {
                Some(captured) => refused_path(captured@),
                None => None,
            };
            let limits = ctx.config.limits;
            let ended = ctx.status.signal;
            let cut_off = (ended == Some(signals.xcpu) || ended == Some(signals.kill)) && (
            limits.cpu_time_secs is Some || limits.memory_bytes is Some);
            &&& macos_explanation(signals, ctx) matches Some(said)
            &&& denial matches Some(denial) ==> {
                &&& said.kind == ViolationKind::Filesystem <==> is_at(
                    denial.operation,
                    "file-"@,
                    0,
                ) || is_at(denial.operation, "process-exec"@, 0)
                &&& said.kind == ViolationKind::Filesystem || said.kind == ViolationKind::Unknown
                &&& denial.subject is None ==> said.summary == "process exited unsuccessfully ("@
                    + ctx.status.text@ + "); Seatbelt denied "@ + denial.operation
                &&& denial.subject matches Some(subject) ==> said.summary
                    == "process exited unsuccessfully ("@ + ctx.status.text@
                    + "); Seatbelt denied "@ + denial.operation + (" for "@ + subject)
            }
            &&& denial is None && cut_off ==> {
                &&& said.kind == ViolationKind::ResourceLimit
                &&& said.summary == "process was killed by a resource limit (CPU time or memory)"@
            }
            &&& denial is None && !cut_off ==> said.kind == ViolationKind::Filesystem
            &&& denial is None && !cut_off && path is Some ==> {
                &&& said.summary == "process exited unsuccessfully ("@ + ctx.status.text@
                    + "); captured output reported Permission denied for "@ + path->0
                &&& said.suggestions == seq![
                    "grant read access: .fs([FsAccess::ReadAllow(\""@ + escaped(path->0)
                        + "\".into())])"@,
                    "grant write access: .fs([FsAccess::WriteAllow(\""@ + escaped(path->0)
                        + "\".into())])"@,
                ]
            }
            &&& denial is None && !cut_off && path is None ==> {
                &&& said.summary == "process exited unsuccessfully ("@ + ctx.status.text@
                    + "); on macOS this is often a Seatbelt denial"@
                &&& said.suggestions == seq![
                    "grant read access: .fs([FsAccess::ReadAllow(\""@ + "<path>"@
                        + "\".into())])"@,
                    "grant write access: .fs([FsAccess::WriteAllow(\""@ + "<path>"@
                        + "\".into())])"@,
                    "for macOS-specific operations, import a Seatbelt profile: .darwin_sandbox_profiles([\"<profile.sb>\".into()])"@,
                ]
            }
        }),
{
    let none: Seq<Seq<char>> = seq![];
    assert(none + none =~= none);
    if ctx.captured is Some && first_denial(lines_of(ctx.captured->0@), 0) is Some {
        let denial = first_denial(lines_of(ctx.captured->0@), 0)->0;
        let start = "process exited unsuccessfully ("@ + ctx.status.text@
            + "); Seatbelt denied "@ + denial.operation;
        assert(start + seq![] =~= start);
    }
}

/// What a denial suggests, word for word: to grant the right that the operation needs on
/// the path that was denied, the next wider network policy, or an imported profile.
pub proof fn law_denials_suggest_the_right_grant(network: NetworkPolicy, denial: DenialView)
    ensures
        ({
            let said = denial_suggestions(network, denial);
            let operation = denial.operation;
            let path = match denial.subject {
                Some(subject) => escaped(subject),
                None => "<path>"@,
            };
            let about_files = is_at(operation, "file-read"@, 0) || is_at(
                operation,
                "file-write"@,
                0,
            ) || is_at(operation, "process-exec"@, 0) || operation == "file-map-executable"@;
            &&& is_at(operation, "file-read"@, 0) ==> said == seq![
                "grant read access: .fs([FsAccess::ReadAllow(\""@ + path + "\".into())])"@,
            ]
            &&& is_at(operation, "file-write"@, 0) ==> said == seq![
                "grant write access: .fs([FsAccess::WriteAllow(\""@ + path + "\".into())])"@,
            ]
            &&& is_at(operation, "process-exec"@, 0) || operation == "file-map-executable"@
                ==> said == seq![
                "grant execute access: .fs([FsAccess::ExecuteAllow(\""@ + path
                    + "\".into())])"@,
            ]
            &&& is_at(operation, "network"@, 0) && network == NetworkPolicy::Deny ==> said == seq![
                "allow outbound networking: .network(NetworkPolicy::OutboundOnly)"@,
                "or allow outbound plus bind/listen: .network(NetworkPolicy::Full)"@,
            ]
            &&& is_at(operation, "network"@, 0) && network == NetworkPolicy::OutboundOnly ==> said
                == seq!["allow bind/listen networking: .network(NetworkPolicy::Full)"@]
            &&& is_at(operation, "network"@, 0) && network == NetworkPolicy::Full ==> said == seq![
                "network is already fully allowed; inspect the Seatbelt operation and any imported profile"@,
            ]
            &&& !about_files && !is_at(operation, "network"@, 0) ==> said == seq![
                "allow the macOS-specific Seatbelt operation with an imported profile: .darwin_sandbox_profiles([\"<profile.sb>\".into()]) for operation "@
                    + operation,
            ]
        }),
{
    let operation = denial.operation;
    reveal_strlit("file-read");
    reveal_strlit("file-write");
    reveal_strlit("process-exec");
    reveal_strlit("file-map-executable");
    reveal_strlit("network");
    if is_at(operation, "file-read"@, 0) {
        let part = operation.subrange(0, 9);
        assert(part[0] == operation[0] && part[5] == operation[5]);
        assert("file-read"@[0] == 'f' && "file-read"@[5] == 'r');
    }
    if is_at(operation, "file-write"@, 0) {
        let part = operation.subrange(0, 10);
        assert(part[0] == operation[0] && part[5] == operation[5]);
        assert("file-write"@[0] == 'f' && "file-write"@[5] == 'w');
    }
    if is_at(operation, "process-exec"@, 0) {
        let part = operation.subrange(0, 12);
        assert(part[0] == operation[0]);
        assert("process-exec"@[0] == 'p');
    }
    if is_at(operation, "network"@, 0) {
        let part = operation.subrange(0, 7);
        assert(part[0] == operation[0]);
        assert("network"@[0] == 'n');
    }
    if operation == "file-map-executable"@ {
        assert(operation[0] == 'f' && operation[5] == 'm');
    }
}

/// Of the lines that name a path before a message, the first counts.
pub proof fn law_first_named_path_counts(lines: Seq<Seq<char>>, suffix: Seq<char>, from: int)
    requires
        0 <= from,
    ensures
        first_path_before(lines, suffix, from) is None <==> forall|i: int|
            from <= i < lines.len() ==> path_before(#[trigger] lines[i], suffix) is None,
        forall|i: int|
            from <= i < lines.len() && path_before(#[trigger] lines[i], suffix) is Some && (forall|
                j: int,
            |
                from <= j < i ==> path_before(#[trigger] lines[j], suffix) is None)
                ==> first_path_before(lines, suffix, from) == path_before(lines[i], suffix),
    decreases lines.len() - from,
{
    if from < lines.len() {
        law_first_named_path_counts(lines, suffix, from + 1);
        assert forall|i: int|
            from <= i < lines.len() && path_before(#[trigger] lines[i], suffix) is Some && (forall|
                j: int,
            |
                from <= j < i ==> path_before(#[trigger] lines[j], suffix) is None) implies
            first_path_before(lines, suffix, from) == path_before(lines[i], suffix) by {
            if i > from {
                assert(path_before(lines[from], suffix) is None);
            }
        }
        if first_path_before(lines, suffix, from) is None {
            assert(path_before(lines[from], suffix) is None);
        }
    }
}

/// A path before `Permission denied` on any line is the refused one, and only where there
/// is none a path before `Operation not permitted` is; in either case the first.
pub proof fn law_permission_denied_comes_before_not_permitted(captured: Seq<char>, i: int)
    requires
        0 <= i < lines_of(captured).len(),
    ensures
        ({
            let lines = lines_of(captured);
            let denied = ": Permission denied"@;
            let not_permitted = ": Operation not permitted"@;
            &&& path_before(lines[i], denied) is Some && (forall|j: int|
                0 <= j < i ==> path_before(#[trigger] lines[j], denied) is None) ==> refused_path(
                captured,
            ) == path_before(lines[i], denied)
            &&& path_before(lines[i], not_permitted) is Some && (forall|j: int|
                0 <= j < i ==> path_before(#[trigger] lines[j], not_permitted) is None) && (forall|
                j: int,
            |
                0 <= j < lines.len() ==> path_before(#[trigger] lines[j], denied) is None)
                ==> refused_path(captured) == path_before(lines[i], not_permitted)
            &&& refused_path(captured) is None ==> path_before(lines[i], denied) is None
                && path_before(lines[i], not_permitted) is None
        }),
{
    let lines = lines_of(captured);
    law_first_named_path_counts(lines, ": Permission denied"@, 0);
    law_first_named_path_counts(lines, ": Operation not permitted"@, 0);
}

} // verus!
