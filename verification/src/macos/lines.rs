//! A profile read line by line: which rules it holds, word for word.
use crate::config::SandboxConfig;
use crate::macos::nul::{is_known, lemma_known};
use crate::macos::profile::{
    all_fit, all_mentioned, exclusion_text, filter_text, generated, imports_text, mentioned,
    names_of, network_text, operations, profile_text, rule_text, rules_text, SbplRuleView,
};
use crate::macos::sbpl::{escaped, escaped_char, is_control_char, literal, path_problem};
use crate::path::SandboxPath;
use crate::policy::{FsRight, NetworkPolicy};
use crate::scan::{chomped, first_at, is_at, lines_of};
use vstd::prelude::*;
use vstd::utf8::decode_utf8;

verus! {

/// The lines one after the other, each ended by a line feed.
spec fn set_down(lines: Seq<Seq<char>>) -> Seq<char>
    decreases lines.len(),
{
    if lines.len() == 0 {
        seq![]
    } else {
        lines[0] + seq!['\n'] + set_down(lines.skip(1))
    }
}

/// Whether a text is within one line.
spec fn is_one_line(text: Seq<char>) -> bool {
    !text.contains('\n') && !text.contains('\r')
}

/// The line of an imported profile.
pub open spec fn import_line(path: Seq<u8>) -> Seq<char> {
    "(import \""@ + literal(path) + "\")"@
}

/// The line of a rule: its text without the line feed.
pub open spec fn rule_line(rule: SbplRuleView) -> Seq<char> {
    rule_text(rule).drop_last()
}

/// The lines that a network policy adds at the end of a profile.
spec fn network_lines(network: NetworkPolicy) -> Seq<Seq<char>> {
    match network {
        NetworkPolicy::Deny => seq![],
        NetworkPolicy::OutboundOnly => seq!["(allow network-outbound)"@, "(allow system-socket)"@],
        NetworkPolicy::Full => seq!["(allow network*)"@, "(allow system-socket)"@],
    }
}

/// All lines of a profile.
spec fn profile_lines(
    config: SandboxConfig,
    canonical: Seq<Option<SandboxPath>>,
    imports: Seq<Seq<u8>>,
) -> Seq<Seq<char>> {
    seq!["(version 1)"@] + imports.map_values(|path: Seq<u8>| import_line(path)) + seq![
        "(deny default)"@,
        "(debug deny)"@,
    ] + generated(config, canonical).map_values(|rule: SbplRuleView| rule_line(rule))
        + network_lines(config.network)
}

/// The text that each network policy adds to a profile, word for word. Nothing is
/// added without network; outbound connections are allowed, and nothing inbound, for
/// outbound connections only; everything with an open network.
pub proof fn law_network_part_is_literal(network: NetworkPolicy)
    ensures
        network == NetworkPolicy::Deny ==> network_text(network) == ""@,
        network == NetworkPolicy::OutboundOnly ==> network_text(network)
            == "(allow network-outbound)\n(allow system-socket)\n"@,
        network == NetworkPolicy::Full ==> network_text(network)
            == "(allow network*)\n(allow system-socket)\n"@,
{
    reveal_strlit("");
    reveal_strlit("(allow network-outbound)\n");
    reveal_strlit("(allow network*)\n");
    reveal_strlit("(allow system-socket)\n");
    reveal_strlit("(allow network-outbound)\n(allow system-socket)\n");
    reveal_strlit("(allow network*)\n(allow system-socket)\n");
    assert("(allow network-outbound)\n"@ + "(allow system-socket)\n"@
        =~= "(allow network-outbound)\n(allow system-socket)\n"@);
    assert("(allow network*)\n"@ + "(allow system-socket)\n"@
        =~= "(allow network*)\n(allow system-socket)\n"@);
}

/// What a profile says, line by line: the version, the trusted imports in their order,
/// the default that denies everything, the rules in their order, and last what the
/// network policy allows. There is nothing else in it.
pub proof fn law_profile_says_line_by_line(
    config: SandboxConfig,
    canonical: Seq<Option<SandboxPath>>,
    imports: Seq<Seq<u8>>,
)
    requires
        all_fit(all_mentioned(config, canonical, imports)),
    ensures
        ({
            let lines = lines_of(profile_text(config, canonical, imports));
            let rules = generated(config, canonical);
            let first: int = 3 + imports.len() as int;
            let last: int = first + rules.len() as int;
            &&& lines[0] == "(version 1)"@
            &&& forall|i: int|
                0 <= i < imports.len() ==> #[trigger] lines[1 + i] == import_line(imports[i])
            &&& lines[first - 2] == "(deny default)"@
            &&& lines[first - 1] == "(debug deny)"@
            &&& forall|i: int|
                0 <= i < rules.len() ==> #[trigger] lines[first + i] == rule_line(rules[i])
            &&& config.network == NetworkPolicy::Deny ==> lines.len() == last
            &&& config.network != NetworkPolicy::Deny ==> lines.len() == last + 2 && lines[last + 1]
                == "(allow system-socket)"@
            &&& config.network == NetworkPolicy::OutboundOnly ==> lines[last]
                == "(allow network-outbound)"@
            &&& config.network == NetworkPolicy::Full ==> lines[last] == "(allow network*)"@
        }),
{
    let lines = profile_lines(config, canonical, imports);
    lemma_profile_is_set_down(config, canonical, imports);
    lemma_profile_lines_are_lines(config, canonical, imports);
    lemma_lines_of_set_down(lines);
}

/// No rule of a profile speaks of the network but those of the policy: a line that
/// begins with `(allow network` is `(allow network*)` with an open network and
/// `(allow network-outbound)` for outbound connections only. So inbound connections
/// and binding are allowed exactly with an open network, and outbound connections
/// exactly unless there is no network.
pub proof fn law_network_is_allowed_by_the_policy_alone(
    config: SandboxConfig,
    canonical: Seq<Option<SandboxPath>>,
    imports: Seq<Seq<u8>>,
)
    requires
        all_fit(all_mentioned(config, canonical, imports)),
    ensures
        ({
            let lines = lines_of(profile_text(config, canonical, imports));
            &&& lines.contains("(allow network*)"@) <==> config.network == NetworkPolicy::Full
            &&& lines.contains("(allow network-outbound)"@) <==> config.network
                == NetworkPolicy::OutboundOnly
            &&& lines.contains("(allow system-socket)"@) <==> config.network != NetworkPolicy::Deny
            &&& !lines.contains("(allow network-inbound)"@)
            &&& !lines.contains("(allow network-bind)"@)
            &&& forall|j: int|
                0 <= j < lines.len() && is_at(#[trigger] lines[j], "(allow network"@, 0)
                    ==> lines[j] == "(allow network*)"@ || lines[j] == "(allow network-outbound)"@
        }),
{
    let lines = lines_of(profile_text(config, canonical, imports));
    let rules = generated(config, canonical);
    let first: int = 3 + imports.len() as int;
    let last: int = first + rules.len() as int;
    law_profile_says_line_by_line(config, canonical, imports);
    lemma_lines_count(config, canonical, imports);
    reveal_strlit("(version 1)");
    reveal_strlit("(deny default)");
    reveal_strlit("(debug deny)");
    reveal_strlit("(allow network");
    reveal_strlit("(allow network*)");
    reveal_strlit("(allow network-outbound)");
    reveal_strlit("(allow network-inbound)");
    reveal_strlit("(allow network-bind)");
    reveal_strlit("(allow system-socket)");
    assert("(allow network*)"@[14] == '*' && "(allow network-outbound)"@[14] == '-'
        && "(allow network-outbound)"@[15] == 'o' && "(allow network-inbound)"@[15] == 'i'
        && "(allow network-bind)"@[15] == 'b' && "(allow system-socket)"@[7] == 's');
    assert("(allow network*)"@[7] == 'n' && "(allow network-outbound)"@[7] == 'n'
        && "(allow network-inbound)"@[7] == 'n' && "(allow network-bind)"@[7] == 'n'
        && "(allow network"@[7] == 'n');
    assert forall|j: int| 0 <= j < last implies {
        let line = #[trigger] lines[j];
        line.len() > 7 && (line[1] != 'a' || (line[7] != 'n' && line[7] != 's'))
    } by {
        if 1 <= j < 1 + imports.len() {
            let i = j - 1;
            assert(lines[1 + i] == import_line(imports[i]));
            reveal_strlit("(import \"");
            assert(import_line(imports[i])[1] == "(import \""@[1]);
        } else if j >= first {
            let i = j - first;
            assert(lines[first + i] == rule_line(rules[i]));
            lemma_known(config.fs@, names_of(config.fs@, canonical), config.fs@.len() as int);
            assert(is_known(rules[i]));
            lemma_rule_line_begins(rules[i]);
        } else {
            assert("(version 1)"@[1] == 'v' && "(deny default)"@[1] == 'd' && "(debug deny)"@[1]
                == 'd');
        }
    }
    assert forall|j: int|
        0 <= j < lines.len() && is_at(#[trigger] lines[j], "(allow network"@, 0) implies lines[j]
        == "(allow network*)"@ || lines[j] == "(allow network-outbound)"@ by {
        let line = lines[j];
        let part = line.subrange(0, 14);
        assert(part == "(allow network"@);
        assert(part[1] == line[1] && part[7] == line[7]);
        assert("(allow network"@[1] == 'a');
    }
    if config.network == NetworkPolicy::Full {
        assert(lines[last] == "(allow network*)"@);
    }
    if config.network == NetworkPolicy::OutboundOnly {
        assert(lines[last] == "(allow network-outbound)"@);
    }
    if config.network != NetworkPolicy::Deny {
        assert(lines[last + 1] == "(allow system-socket)"@);
    }
    assert("(allow network*)"@[1] == 'a' && "(allow network-outbound)"@[1] == 'a'
        && "(allow network-inbound)"@[1] == 'a' && "(allow network-bind)"@[1] == 'a'
        && "(allow system-socket)"@[1] == 'a');
}

proof fn lemma_lines_count(
    config: SandboxConfig,
    canonical: Seq<Option<SandboxPath>>,
    imports: Seq<Seq<u8>>,
)
    requires
        all_fit(all_mentioned(config, canonical, imports)),
    ensures
        ({
            let lines = lines_of(profile_text(config, canonical, imports));
            lines.len() >= 3 + imports.len() + generated(config, canonical).len()
        }),
{
    law_profile_says_line_by_line(config, canonical, imports);
}

/// How the line of a rule begins: with the effect and the operation, each as a word.
proof fn lemma_rule_line_begins(rule: SbplRuleView)
    requires
        is_known(rule),
    ensures
        rule_line(rule).len() > 7,
        rule_line(rule)[1] == 'a' <==> rule.allow,
        rule.allow ==> rule_line(rule)[7] == 'f' || rule_line(rule)[7] == 'p',
{
    reveal_strlit("(");
    reveal_strlit("allow");
    reveal_strlit("deny");
    reveal_strlit(" ");
    reveal_strlit(")\n");
    reveal_strlit("file-read*");
    reveal_strlit("file-write*");
    reveal_strlit("file-map-executable");
    reveal_strlit("process-exec*");
    let right = choose|right: FsRight| #[trigger] operations(right).contains(rule.operation);
    let listed = operations(right);
    let k = choose|k: int| 0 <= k < listed.len() && listed[k] == rule.operation;
    assert(rule.operation.len() > 3 && (rule.operation[0] == 'f' || rule.operation[0] == 'p'));
    let effect = if rule.allow {
        "allow"@
    } else {
        "deny"@
    };
    let text = rule_text(rule);
    assert(text[1] == effect[0]);
    if rule.allow {
        assert(text[7] == rule.operation[0]);
    }
}

/// How the text of a rule begins, up to the end of its path: the effect, the operation,
/// what opens the filter, and the path.
pub open spec fn beginning(rule: SbplRuleView, opening: Seq<char>) -> Seq<char> {
    (if rule.allow {
        "(allow "@
    } else {
        "(deny "@
    }) + rule.operation + opening + literal(rule.path)
}

/// Whether the text of a rule requires at position `at` that `path` does not match.
pub open spec fn is_excluded_at(text: Seq<char>, path: Seq<u8>, at: int) -> bool {
    is_at(text, " (require-not (subpath \""@ + literal(path) + "\"))"@, at)
}

/// The text of a rule read back: the effect, the operation and the path, each where it
/// belongs.
pub proof fn law_rule_text_says_the_rule(rule: SbplRuleView)
    ensures
        rule.exclusions.len() == 0 ==> rule_text(rule) == beginning(rule, " (subpath \""@)
            + "\"))\n"@,
        rule.exclusions.len() > 0 ==> is_at(
            rule_text(rule),
            beginning(rule, " (require-all (subpath \""@) + "\")"@,
            0,
        ),
{
    let text = rule_text(rule);
    let effect = if rule.allow {
        "allow"@
    } else {
        "deny"@
    };
    let head = if rule.allow {
        "(allow "@
    } else {
        "(deny "@
    };
    reveal_strlit("(");
    reveal_strlit(" ");
    reveal_strlit("allow");
    reveal_strlit("deny");
    reveal_strlit("(allow ");
    reveal_strlit("(deny ");
    reveal_strlit(")\n");
    reveal_strlit("\")");
    reveal_strlit("\"))\n");
    reveal_strlit(")");
    reveal_strlit("(subpath \"");
    reveal_strlit(" (subpath \"");
    reveal_strlit("(require-all (subpath \"");
    reveal_strlit(" (require-all (subpath \"");
    assert("("@ + effect + " "@ =~= head);
    if rule.exclusions.len() == 0 {
        assert(text =~= beginning(rule, " (subpath \""@) + "\"))\n"@);
    } else {
        let part = beginning(rule, " (require-all (subpath \""@);
        let excluded = exclusion_text(rule.exclusions);
        assert(text =~= (part + "\")"@) + excluded + (")"@ + ")\n"@));
        assert(text.subrange(0, (part + "\")"@).len() as int) =~= part + "\")"@);
    }
}

/// Every exclusion of a rule stands in its text behind the path, as something that is
/// required not to match.
pub proof fn law_rule_text_says_each_exclusion(rule: SbplRuleView, i: int) -> (at: int)
    requires
        0 <= i < rule.exclusions.len(),
    ensures
        at >= beginning(rule, " (require-all (subpath \""@).len() + 2,
        is_excluded_at(rule_text(rule), rule.exclusions[i], at),
{
    let text = rule_text(rule);
    let part = beginning(rule, " (require-all (subpath \""@) + "\")"@;
    let excluded = exclusion_text(rule.exclusions);
    law_rule_text_says_the_rule(rule);
    assert(text =~= part + excluded + (")"@ + ")\n"@)) by {
        reveal_strlit("(");
        reveal_strlit(" ");
        reveal_strlit("allow");
        reveal_strlit("deny");
        reveal_strlit("(allow ");
        reveal_strlit("(deny ");
        reveal_strlit("(require-all (subpath \"");
        reveal_strlit(" (require-all (subpath \"");
        assert("("@ + (if rule.allow {
            "allow"@
        } else {
            "deny"@
        }) + " "@ =~= (if rule.allow {
            "(allow "@
        } else {
            "(deny "@
        }));
    }
    reveal_strlit("\")");
    let item = " (require-not (subpath \""@ + literal(rule.exclusions[i]) + "\"))"@;
    let at = lemma_exclusion_stands(rule.exclusions, i);
    let start = part.len();
    assert(text.subrange(start + at, start + at + item.len()) =~= excluded.subrange(
        at,
        at + item.len(),
    ));
    start + at
}

/// Each exclusion stands in the text of the exclusions.
proof fn lemma_exclusion_stands(exclusions: Seq<Seq<u8>>, i: int) -> (at: int)
    requires
        0 <= i < exclusions.len(),
    ensures
        is_at(
            exclusion_text(exclusions),
            " (require-not (subpath \""@ + literal(exclusions[i]) + "\"))"@,
            at,
        ),
    decreases exclusions.len(),
{
    let shorter = exclusions.drop_last();
    let before = exclusion_text(shorter);
    let text = exclusion_text(exclusions);
    let item = " (require-not (subpath \""@ + literal(exclusions[i]) + "\"))"@;
    if i == exclusions.len() - 1 {
        assert(text =~= before + item);
        assert(text.subrange(before.len() as int, (before.len() + item.len()) as int) =~= item);
        before.len() as int
    } else {
        let at = lemma_exclusion_stands(shorter, i);
        assert(text.subrange(at, at + item.len()) =~= before.subrange(at, at + item.len()));
        at
    }
}

/// A part of the profile that is set down is set down as a whole.
proof fn lemma_set_down_joined(a: Seq<Seq<char>>, b: Seq<Seq<char>>)
    ensures
        set_down(a + b) == set_down(a) + set_down(b),
    decreases a.len(),
{
    if a.len() == 0 {
        assert(a + b =~= b);
        assert(set_down(a) + set_down(b) =~= set_down(b));
    } else {
        lemma_set_down_joined(a.skip(1), b);
        assert((a + b).skip(1) =~= a.skip(1) + b);
        assert(set_down(a + b) =~= set_down(a) + set_down(b));
    }
}

proof fn lemma_set_down_one(line: Seq<char>)
    ensures
        set_down(seq![line]) == line + seq!['\n'],
{
    let lines = seq![line];
    assert(lines.skip(1) =~= Seq::<Seq<char>>::empty());
    assert(set_down(lines.skip(1)) =~= seq![]);
    assert(set_down(lines) =~= line + seq!['\n']);
}

proof fn lemma_first_break(text: Seq<char>, end: int, from: int)
    requires
        0 <= from <= end < text.len(),
        text[end] == '\n',
        forall|i: int| 0 <= i < end ==> text[i] != '\n',
    ensures
        first_at(text, seq!['\n'], from) == Some(end),
    decreases end - from,
{
    if from < end {
        lemma_first_break(text, end, from + 1);
        if is_at(text, seq!['\n'], from) {
            assert(text.subrange(from, from + 1)[0] == text[from]);
        }
    } else {
        assert(text.subrange(end, end + 1) =~= seq!['\n']);
    }
}

proof fn lemma_lines_of_set_down(lines: Seq<Seq<char>>)
    requires
        forall|i: int| 0 <= i < lines.len() ==> is_one_line(#[trigger] lines[i]),
    ensures
        lines_of(set_down(lines)) == lines,
    decreases lines.len(),
{
    let text = set_down(lines);
    if lines.len() > 0 {
        let line = lines[0];
        let end = line.len() as int;
        let rest = lines.skip(1);
        assert forall|i: int| 0 <= i < rest.len() implies is_one_line(#[trigger] rest[i]) by {
            assert(rest[i] == lines[i + 1]);
        }
        lemma_lines_of_set_down(rest);
        assert(is_one_line(line));
        assert(text[end] == '\n');
        assert forall|i: int| 0 <= i < end implies text[i] != '\n' by {
            assert(text[i] == line[i]);
            assert(line.contains(line[i]));
        }
        lemma_first_break(text, end, 0);
        assert(text.take(end) =~= line);
        assert(text.skip(end + 1) =~= set_down(rest));
        assert(line.len() > 0 ==> line.contains(line.last()));
        assert(chomped(line) == line);
        assert(lines_of(text) =~= seq![line] + rest);
        assert(lines =~= seq![line] + rest);
    } else {
        assert(text =~= seq![]);
        assert(first_at(text, seq!['\n'], 0) is None) by {
            assert(!is_at(text, seq!['\n'], 0));
            assert(first_at(text, seq!['\n'], 1) is None);
        }
        assert(lines_of(text) =~= lines);
    }
}

proof fn lemma_imports_are_set_down(imports: Seq<Seq<u8>>)
    ensures
        imports_text(imports) == set_down(
            imports.map_values(|path: Seq<u8>| import_line(path)),
        ),
    decreases imports.len(),
{
    let lines = imports.map_values(|path: Seq<u8>| import_line(path));
    if imports.len() > 0 {
        let shorter = imports.drop_last();
        let before = shorter.map_values(|path: Seq<u8>| import_line(path));
        let line = import_line(imports.last());
        lemma_imports_are_set_down(shorter);
        assert(lines =~= before + seq![line]);
        lemma_set_down_joined(before, seq![line]);
        lemma_set_down_one(line);
        reveal_strlit("\")\n");
        reveal_strlit("\")");
        assert("\")"@ + seq!['\n'] =~= "\")\n"@);
        assert(imports_text(imports) =~= imports_text(shorter) + (line + seq!['\n']));
    } else {
        assert(lines.len() == 0);
    }
}

proof fn lemma_rules_are_set_down(rules: Seq<SbplRuleView>)
    ensures
        rules_text(rules) == set_down(rules.map_values(|rule: SbplRuleView| rule_line(rule))),
    decreases rules.len(),
{
    let lines = rules.map_values(|rule: SbplRuleView| rule_line(rule));
    if rules.len() > 0 {
        let shorter = rules.drop_last();
        let before = shorter.map_values(|rule: SbplRuleView| rule_line(rule));
        let line = rule_line(rules.last());
        lemma_rules_are_set_down(shorter);
        assert(lines =~= before + seq![line]);
        lemma_set_down_joined(before, seq![line]);
        lemma_set_down_one(line);
        reveal_strlit(")\n");
        let text = rule_text(rules.last());
        assert(text.last() == '\n');
        assert(line + seq!['\n'] =~= text);
    } else {
        assert(lines.len() == 0);
    }
}

proof fn lemma_network_is_set_down(network: NetworkPolicy)
    ensures
        network_text(network) == set_down(network_lines(network)),
{
    reveal_strlit("(allow network-outbound)\n");
    reveal_strlit("(allow network*)\n");
    reveal_strlit("(allow system-socket)\n");
    reveal_strlit("(allow network-outbound)");
    reveal_strlit("(allow network*)");
    reveal_strlit("(allow system-socket)");
    let lines = network_lines(network);
    if network == NetworkPolicy::Deny {
        assert(set_down(lines) =~= seq![]);
    } else {
        let first = lines[0];
        let second = "(allow system-socket)"@;
        assert(lines =~= seq![first] + seq![second]);
        lemma_set_down_joined(seq![first], seq![second]);
        lemma_set_down_one(first);
        lemma_set_down_one(second);
        assert(second + seq!['\n'] =~= "(allow system-socket)\n"@);
        if network == NetworkPolicy::Full {
            assert(first + seq!['\n'] =~= "(allow network*)\n"@);
        } else {
            assert(first + seq!['\n'] =~= "(allow network-outbound)\n"@);
        }
    }
}

proof fn lemma_profile_is_set_down(
    config: SandboxConfig,
    canonical: Seq<Option<SandboxPath>>,
    imports: Seq<Seq<u8>>,
)
    ensures
        profile_text(config, canonical, imports) == set_down(
            profile_lines(config, canonical, imports),
        ),
{
    let rules = generated(config, canonical);
    let a = seq!["(version 1)"@];
    let b = imports.map_values(|path: Seq<u8>| import_line(path));
    let c = seq!["(deny default)"@, "(debug deny)"@];
    let d = rules.map_values(|rule: SbplRuleView| rule_line(rule));
    let e = network_lines(config.network);
    lemma_set_down_joined(a, b);
    lemma_set_down_joined(a + b, c);
    lemma_set_down_joined(a + b + c, d);
    lemma_set_down_joined(a + b + c + d, e);
    lemma_set_down_one("(version 1)"@);
    lemma_imports_are_set_down(imports);
    lemma_rules_are_set_down(rules);
    lemma_network_is_set_down(config.network);
    lemma_set_down_one("(deny default)"@);
    lemma_set_down_one("(debug deny)"@);
    lemma_set_down_joined(seq!["(deny default)"@], seq!["(debug deny)"@]);
    assert(c =~= seq!["(deny default)"@] + seq!["(debug deny)"@]);
    reveal_strlit("(version 1)");
    reveal_strlit("(version 1)\n");
    reveal_strlit("(deny default)");
    reveal_strlit("(debug deny)");
    reveal_strlit("(deny default)\n(debug deny)\n");
    assert("(version 1)"@ + seq!['\n'] =~= "(version 1)\n"@);
    assert(("(deny default)"@ + seq!['\n']) + ("(debug deny)"@ + seq!['\n'])
        =~= "(deny default)\n(debug deny)\n"@);
    assert(profile_text(config, canonical, imports) =~= set_down(a) + set_down(b) + set_down(c)
        + set_down(d) + set_down(e));
}

proof fn lemma_one_line_joined(a: Seq<char>, b: Seq<char>)
    requires
        is_one_line(a),
        is_one_line(b),
    ensures
        is_one_line(a + b),
{
    let whole = a + b;
    if whole.contains('\n') || whole.contains('\r') {
        let i = choose|i: int|
            0 <= i < whole.len() && (whole[i] == '\n' || whole[i] == '\r');
        if i < a.len() {
            assert(a.contains(a[i]));
        } else {
            assert(b.contains(b[i - a.len()]));
        }
    }
}

proof fn lemma_escaped_is_one_line(text: Seq<char>)
    requires
        forall|i: int| 0 <= i < text.len() ==> text[i] != '\n' && text[i] != '\r',
    ensures
        is_one_line(escaped(text)),
    decreases text.len(),
{
    if text.len() > 0 {
        lemma_escaped_is_one_line(text.drop_last());
        lemma_one_line_joined(escaped(text.drop_last()), escaped_char(text.last()));
    }
}

proof fn lemma_literal_is_one_line(path: Seq<u8>)
    requires
        path_problem(path) is None,
    ensures
        is_one_line(literal(path)),
{
    let text = decode_utf8(path);
    assert forall|i: int| 0 <= i < text.len() implies text[i] != '\n' && text[i] != '\r' by {
        assert(!is_control_char(text[i]));
    }
    lemma_escaped_is_one_line(text);
}

proof fn lemma_exclusions_are_one_line(exclusions: Seq<Seq<u8>>)
    requires
        all_fit(exclusions),
    ensures
        is_one_line(exclusion_text(exclusions)),
    decreases exclusions.len(),
{
    if exclusions.len() > 0 {
        reveal_strlit(" (require-not (subpath \"");
        reveal_strlit("\"))");
        let shorter = exclusions.drop_last();
        assert forall|i: int| 0 <= i < shorter.len() implies path_problem(
            #[trigger] shorter[i],
        ) is None by {
            assert(shorter[i] == exclusions[i]);
        }
        lemma_exclusions_are_one_line(shorter);
        let path = exclusions[exclusions.len() - 1];
        lemma_literal_is_one_line(path);
        let a = exclusion_text(shorter);
        lemma_one_line_joined(a, " (require-not (subpath \""@);
        lemma_one_line_joined(a + " (require-not (subpath \""@, literal(path));
        lemma_one_line_joined(a + " (require-not (subpath \""@ + literal(path), "\"))"@);
    }
}

proof fn lemma_rule_is_one_line(rule: SbplRuleView)
    requires
        is_known(rule),
        path_problem(rule.path) is None,
        all_fit(rule.exclusions),
    ensures
        is_one_line(rule_line(rule)),
{
    reveal_strlit("(");
    reveal_strlit("allow");
    reveal_strlit("deny");
    reveal_strlit(" ");
    reveal_strlit(")\n");
    reveal_strlit("(subpath \"");
    reveal_strlit("(require-all (subpath \"");
    reveal_strlit("\")");
    reveal_strlit(")");
    reveal_strlit("file-read*");
    reveal_strlit("file-write*");
    reveal_strlit("file-map-executable");
    reveal_strlit("process-exec*");
    let right = choose|right: FsRight| #[trigger] operations(right).contains(rule.operation);
    assert(is_one_line(rule.operation));
    lemma_literal_is_one_line(rule.path);
    lemma_exclusions_are_one_line(rule.exclusions);
    let body = literal(rule.path);
    let start = if rule.exclusions.len() == 0 {
        "(subpath \""@
    } else {
        "(require-all (subpath \""@
    };
    lemma_one_line_joined(start, body);
    lemma_one_line_joined(start + body, "\")"@);
    let a = start + body + "\")"@;
    lemma_one_line_joined(a, exclusion_text(rule.exclusions));
    lemma_one_line_joined(a + exclusion_text(rule.exclusions), ")"@);
    let filter = filter_text(rule.path, rule.exclusions);
    assert(is_one_line(filter));
    let effect = if rule.allow {
        "allow"@
    } else {
        "deny"@
    };
    lemma_one_line_joined("("@, effect);
    lemma_one_line_joined("("@ + effect, " "@);
    lemma_one_line_joined("("@ + effect + " "@, rule.operation);
    lemma_one_line_joined("("@ + effect + " "@ + rule.operation, " "@);
    let head = "("@ + effect + " "@ + rule.operation + " "@;
    lemma_one_line_joined(head, filter);
    lemma_one_line_joined(head + filter, ")"@);
    assert(rule_line(rule) =~= head + filter + ")"@);
}

proof fn lemma_rules_are_lines(rules: Seq<SbplRuleView>)
    requires
        forall|i: int| 0 <= i < rules.len() ==> is_known(#[trigger] rules[i]),
        all_fit(mentioned(rules)),
    ensures
        forall|i: int| 0 <= i < rules.len() ==> is_one_line(rule_line(#[trigger] rules[i])),
    decreases rules.len(),
{
    if rules.len() > 0 {
        let shorter = rules.drop_last();
        let rule = rules[rules.len() - 1];
        let all = mentioned(rules);
        let before = mentioned(shorter);
        assert(all == before + seq![rule.path] + rule.exclusions);
        assert forall|i: int| 0 <= i < before.len() implies path_problem(
            #[trigger] before[i],
        ) is None by {
            assert(all[i] == before[i]);
        }
        assert(all[before.len() as int] == rule.path);
        assert forall|i: int| 0 <= i < rule.exclusions.len() implies path_problem(
            #[trigger] rule.exclusions[i],
        ) is None by {
            assert(all[before.len() + 1 + i] == rule.exclusions[i]);
        }
        assert forall|i: int| 0 <= i < shorter.len() implies is_known(#[trigger] shorter[i]) by {
            assert(shorter[i] == rules[i]);
        }
        lemma_rules_are_lines(shorter);
        lemma_rule_is_one_line(rule);
        assert forall|i: int| 0 <= i < rules.len() implies is_one_line(
            rule_line(#[trigger] rules[i]),
        ) by {
            if i < shorter.len() {
                assert(shorter[i] == rules[i]);
            }
        }
    }
}

proof fn lemma_profile_lines_are_lines(
    config: SandboxConfig,
    canonical: Seq<Option<SandboxPath>>,
    imports: Seq<Seq<u8>>,
)
    requires
        all_fit(all_mentioned(config, canonical, imports)),
    ensures
        forall|i: int|
            0 <= i < profile_lines(config, canonical, imports).len() ==> is_one_line(
                #[trigger] profile_lines(config, canonical, imports)[i],
            ),
{
    reveal_strlit("(version 1)");
    reveal_strlit("(deny default)");
    reveal_strlit("(debug deny)");
    reveal_strlit("(allow network-outbound)");
    reveal_strlit("(allow system-socket)");
    reveal_strlit("(allow network*)");
    reveal_strlit("(import \"");
    reveal_strlit("\")");
    let lines = profile_lines(config, canonical, imports);
    let all = all_mentioned(config, canonical, imports);
    let rules = generated(config, canonical);
    let named = mentioned(rules);
    assert forall|i: int| 0 <= i < named.len() implies path_problem(#[trigger] named[i]) is None by {
        assert(all[imports.len() + i] == named[i]);
    }
    lemma_known(config.fs@, names_of(config.fs@, canonical), config.fs@.len() as int);
    lemma_rules_are_lines(rules);
    let first: int = 3 + imports.len() as int;
    let last: int = first + rules.len() as int;
    let e = network_lines(config.network);
    assert forall|i: int| 0 <= i < e.len() implies is_one_line(#[trigger] e[i]) by {}
    assert(is_one_line("(version 1)"@) && is_one_line("(deny default)"@) && is_one_line(
        "(debug deny)"@,
    ));
    assert forall|i: int| 0 <= i < lines.len() implies is_one_line(#[trigger] lines[i]) by {
        if i == 0 {
        } else if i < 1 + imports.len() {
            let path = imports[i - 1];
            assert(all[i - 1] == path);
            assert(lines[i] == import_line(path));
            lemma_literal_is_one_line(path);
            lemma_one_line_joined("(import \""@, literal(path));
            lemma_one_line_joined("(import \""@ + literal(path), "\")"@);
        } else if i < first {
        } else if i < last {
            assert(lines[i] == rule_line(rules[i - first]));
        } else {
            assert(lines[i] == e[i - last]);
        }
    }
}

/// The operations that each right stands for, word for word. A right is told from its
/// operations: none belongs to two.
pub proof fn law_rights_are_told_by_operations(right: FsRight, operation: Seq<char>)
    ensures
        operations(FsRight::Read) == seq!["file-read*"@],
        operations(FsRight::Write) == seq!["file-write*"@],
        operations(FsRight::Execute) == seq!["file-map-executable"@, "process-exec*"@],
        operations(right).contains(operation) ==> (operation == "file-read*"@ <==> right
            == FsRight::Read),
        operations(right).contains(operation) ==> (operation == "file-write*"@ <==> right
            == FsRight::Write),
{
    reveal_strlit("file-read*");
    reveal_strlit("file-write*");
    reveal_strlit("file-map-executable");
    reveal_strlit("process-exec*");
    assert("file-read*"@[5] == 'r' && "file-write*"@[5] == 'w' && "file-map-executable"@[5] == 'm'
        && "process-exec*"@[0] == 'p' && "file-read*"@[0] == 'f' && "file-write*"@[0] == 'f');
}

} // verus!
