//! Generated Seatbelt profiles.
use crate::config::SandboxConfig;
use crate::error::Error;
use crate::macos::aliases::{names_in_profile, path_variants};
use crate::macos::sbpl::{is_path_error, literal, path_problem, sbpl_string};
use crate::path::SandboxPath;
use crate::policy::{FsAccess, FsRight, NetworkPolicy, RuleEffect};
use vstd::prelude::*;

verus! {

/// A complete profile.
#[derive(Debug, PartialEq, Eq)]
pub struct SeatbeltProfile {
    /// The text of the profile.
    pub source: String,
}

/// One filesystem rule of a profile: an operation on everything beneath a path,
/// but for what lies beneath the exclusions.
#[derive(Debug, PartialEq, Eq)]
pub struct SbplRule {
    /// Whether the rule allows or denies.
    pub allow: bool,
    /// The operation.
    pub operation: &'static str,
    /// The path.
    pub path: SandboxPath,
    /// What is left to later rules.
    pub exclusions: Vec<SandboxPath>,
}

/// What an [`SbplRule`] says.
pub struct SbplRuleView {
    pub allow: bool,
    pub operation: Seq<char>,
    pub path: Seq<u8>,
    pub exclusions: Seq<Seq<u8>>,
}

/// The bytes of the paths in a vector of paths.
pub open spec fn bytes_of(paths: Seq<SandboxPath>) -> Seq<Seq<u8>> {
    paths.map_values(|path: SandboxPath| path@)
}

impl View for SbplRule {
    type V = SbplRuleView;

    open spec fn view(&self) -> SbplRuleView {
        SbplRuleView {
            allow: self.allow,
            operation: self.operation@,
            path: self.path@,
            exclusions: bytes_of(self.exclusions@),
        }
    }
}

/// The rules in a vector of rules.
pub open spec fn rule_views(rules: Seq<SbplRule>) -> Seq<SbplRuleView> {
    rules.map_values(|rule: SbplRule| rule@)
}

/// The Seatbelt operations behind a right.
pub open spec fn operations(right: FsRight) -> Seq<Seq<char>> {
    match right {
        FsRight::Read => seq!["file-read*"@],
        FsRight::Write => seq!["file-write*"@],
        FsRight::Execute => seq!["file-map-executable"@, "process-exec*"@],
    }
}

/// The other effect.
pub open spec fn opposite(effect: RuleEffect) -> RuleEffect {
    match effect {
        RuleEffect::Allow => RuleEffect::Deny,
        RuleEffect::Deny => RuleEffect::Allow,
    }
}

/// The resolved name of a rule's path, if it has one.
pub open spec fn resolved_of(canonical: Option<SandboxPath>) -> Option<Seq<u8>> {
    match canonical {
        Some(canonical) => Some(canonical@),
        None => None,
    }
}

/// The names of each rule's path in the profile.
pub open spec fn names_of(fs: Seq<FsAccess>, canonical: Seq<Option<SandboxPath>>) -> Seq<
    Seq<Seq<u8>>,
> {
    Seq::new(
        fs.len(),
        |i: int| names_in_profile(fs[i].spec_path()@, resolved_of(canonical[i])),
    )
}

/// The paths of the rules from `from` on that have the given effect on a right.
pub open spec fn paths_with(
    fs: Seq<FsAccess>,
    names: Seq<Seq<Seq<u8>>>,
    from: int,
    right: FsRight,
    effect: RuleEffect,
) -> Seq<Seq<u8>>
    decreases fs.len() - from,
{
    if from < 0 || from >= fs.len() {
        seq![]
    } else if fs[from].spec_right() == right && fs[from].spec_effect() == effect {
        names[from] + paths_with(fs, names, from + 1, right, effect)
    } else {
        paths_with(fs, names, from + 1, right, effect)
    }
}

/// What rule `i` leaves to later rules: everything on which one of them has the
/// other effect.
pub open spec fn exclusions_of(
    fs: Seq<FsAccess>,
    names: Seq<Seq<Seq<u8>>>,
    i: int,
) -> Seq<Seq<u8>> {
    paths_with(fs, names, i + 1, fs[i].spec_right(), opposite(fs[i].spec_effect()))
}

/// The rule for one operation on one name of rule `i`.
pub open spec fn emitted_rule(
    fs: Seq<FsAccess>,
    names: Seq<Seq<Seq<u8>>>,
    i: int,
    name: Seq<u8>,
    operation: Seq<char>,
) -> SbplRuleView {
    SbplRuleView {
        allow: fs[i].spec_effect() == RuleEffect::Allow,
        operation,
        path: name,
        exclusions: exclusions_of(fs, names, i),
    }
}

/// The rules for the first `n` names of rule `i`: for each name, one rule for
/// each operation.
pub open spec fn emitted_for(
    fs: Seq<FsAccess>,
    names: Seq<Seq<Seq<u8>>>,
    i: int,
    n: int,
) -> Seq<SbplRuleView>
    decreases n,
{
    if n <= 0 {
        seq![]
    } else {
        emitted_for(fs, names, i, n - 1) + operations(fs[i].spec_right()).map_values(
            |operation: Seq<char>| emitted_rule(fs, names, i, names[i][n - 1], operation),
        )
    }
}

/// The rules of a profile for the first `n` rules of a policy.
pub open spec fn emitted(fs: Seq<FsAccess>, names: Seq<Seq<Seq<u8>>>, n: int) -> Seq<SbplRuleView>
    decreases n,
{
    if n <= 0 {
        seq![]
    } else {
        emitted(fs, names, n - 1) + emitted_for(fs, names, n - 1, names[n - 1].len() as int)
    }
}

/// The exclusions of a rule, written out.
pub open spec fn exclusion_text(exclusions: Seq<Seq<u8>>) -> Seq<char>
    decreases exclusions.len(),
{
    if exclusions.len() == 0 {
        seq![]
    } else {
        exclusion_text(exclusions.drop_last()) + " (require-not (subpath \""@ + literal(
            exclusions.last(),
        ) + "\"))"@
    }
}

/// The filter of a rule, written out.
pub open spec fn filter_text(path: Seq<u8>, exclusions: Seq<Seq<u8>>) -> Seq<char> {
    if exclusions.len() == 0 {
        "(subpath \""@ + literal(path) + "\")"@
    } else {
        "(require-all (subpath \""@ + literal(path) + "\")"@ + exclusion_text(exclusions) + ")"@
    }
}

/// A rule, written out.
pub open spec fn rule_text(rule: SbplRuleView) -> Seq<char> {
    "("@ + (if rule.allow {
        "allow"@
    } else {
        "deny"@
    }) + " "@ + rule.operation + " "@ + filter_text(rule.path, rule.exclusions) + ")\n"@
}

/// Rules, written out one behind the other.
pub open spec fn rules_text(rules: Seq<SbplRuleView>) -> Seq<char>
    decreases rules.len(),
{
    if rules.len() == 0 {
        seq![]
    } else {
        rules_text(rules.drop_last()) + rule_text(rules.last())
    }
}

/// The paths that the rules mention, in the order in which they are written.
pub open spec fn mentioned(rules: Seq<SbplRuleView>) -> Seq<Seq<u8>>
    decreases rules.len(),
{
    if rules.len() == 0 {
        seq![]
    } else {
        mentioned(rules.drop_last()) + seq![rules.last().path] + rules.last().exclusions
    }
}

/// The network rules of a profile.
pub open spec fn network_text(network: NetworkPolicy) -> Seq<char> {
    match network {
        NetworkPolicy::Deny => seq![],
        NetworkPolicy::OutboundOnly => "(allow network-outbound)\n"@ + "(allow system-socket)\n"@,
        NetworkPolicy::Full => "(allow network*)\n"@ + "(allow system-socket)\n"@,
    }
}

/// The imports of a profile.
pub open spec fn imports_text(imports: Seq<Seq<u8>>) -> Seq<char>
    decreases imports.len(),
{
    if imports.len() == 0 {
        seq![]
    } else {
        imports_text(imports.drop_last()) + "(import \""@ + literal(imports.last()) + "\")\n"@
    }
}

/// Whether all of `paths` can be in a profile.
pub open spec fn all_fit(paths: Seq<Seq<u8>>) -> bool {
    forall|i: int| 0 <= i < paths.len() ==> path_problem(#[trigger] paths[i]) is None
}

/// Whether `error` is about the first of `paths` that cannot be in a profile.
pub open spec fn is_first_path_error(error: Error, paths: Seq<Seq<u8>>) -> bool {
    exists|i: int|
        0 <= i < paths.len() && is_path_error(error, #[trigger] paths[i]) && all_fit(paths.take(i))
}

/// The rules that a policy generates.
pub open spec fn generated(config: SandboxConfig, canonical: Seq<Option<SandboxPath>>) -> Seq<
    SbplRuleView,
> {
    emitted(config.fs@, names_of(config.fs@, canonical), config.fs@.len() as int)
}

/// The policy part of a profile.
pub open spec fn policy_text(config: SandboxConfig, canonical: Seq<Option<SandboxPath>>) -> Seq<
    char,
> {
    "(deny default)\n(debug deny)\n"@ + rules_text(generated(config, canonical)) + network_text(
        config.network,
    )
}

/// The paths of the rules from `from` on that have the given effect on a right.
fn collect_paths(
    fs: &Vec<FsAccess>,
    names: &Vec<Vec<SandboxPath>>,
    from: usize,
    right: FsRight,
    effect: RuleEffect,
) -> (paths: Vec<SandboxPath>)
    requires
        names@.len() == fs@.len(),
        from <= fs@.len(),
    ensures
        bytes_of(paths@) == paths_with(
            fs@,
            names@.map_values(|n: Vec<SandboxPath>| bytes_of(n@)),
            from as int,
            right,
            effect,
        ),
{
    let ghost all = names@.map_values(|n: Vec<SandboxPath>| bytes_of(n@));
    let mut paths: Vec<SandboxPath> = Vec::new();
    let mut i: usize = from;
    let ghost wanted = paths_with(fs@, all, from as int, right, effect);
    assert(bytes_of(paths@) + wanted =~= wanted);
    while i < fs.len()
        invariant
            from <= i <= fs@.len(),
            names@.len() == fs@.len(),
            all == names@.map_values(|n: Vec<SandboxPath>| bytes_of(n@)),
            bytes_of(paths@) + paths_with(fs@, all, i as int, right, effect) == wanted,
        decreases fs.len() - i,
    {
        if fs[i].right() == right && fs[i].effect() == effect {
            let ghost before = bytes_of(paths@);
            let ghost rest = paths_with(fs@, all, i + 1, right, effect);
            let mut k: usize = 0;
            assert(before + all[i as int].take(0) =~= before);
            while k < names[i].len()
                invariant
                    i < names@.len(),
                    all == names@.map_values(|n: Vec<SandboxPath>| bytes_of(n@)),
                    k <= names@[i as int]@.len(),
                    bytes_of(paths@) == before + all[i as int].take(k as int),
                decreases names@[i as int]@.len() - k,
            {
                let ghost here = bytes_of(paths@);
                paths.push(names[i][k].clone());
                proof {
                    assert(bytes_of(paths@) =~= here.push(all[i as int][k as int]));
                    assert(all[i as int].take(k + 1) =~= all[i as int].take(k as int).push(
                        all[i as int][k as int],
                    ));
                    assert(bytes_of(paths@) =~= before + all[i as int].take(k + 1));
                }
                k += 1;
            }
            proof {
                assert(all[i as int].take(k as int) =~= all[i as int]);
                assert(bytes_of(paths@) + rest =~= before + (all[i as int] + rest));
            }
        }
        i += 1;
    }
    assert(bytes_of(paths@) + paths_with(fs@, all, i as int, right, effect) =~= bytes_of(paths@));
    paths
}

/// A copy of a list of paths.
fn copy_paths(paths: &Vec<SandboxPath>) -> (copy: Vec<SandboxPath>)
    ensures
        bytes_of(copy@) == bytes_of(paths@),
{
    let mut copy: Vec<SandboxPath> = Vec::new();
    let mut i: usize = 0;
    while i < paths.len()
        invariant
            i <= paths@.len(),
            bytes_of(copy@) == bytes_of(paths@).take(i as int),
        decreases paths.len() - i,
    {
        let ghost before = bytes_of(copy@);
        copy.push(paths[i].clone());
        proof {
            assert(bytes_of(copy@) =~= before.push(bytes_of(paths@)[i as int]));
            assert(bytes_of(paths@).take(i + 1) =~= before.push(bytes_of(paths@)[i as int]));
        }
        i += 1;
    }
    assert(bytes_of(paths@).take(i as int) =~= bytes_of(paths@));
    copy
}

/// Appends the rule for one operation.
fn push_rule(
    rules: &mut Vec<SbplRule>,
    allow: bool,
    operation: &'static str,
    path: &SandboxPath,
    exclusions: &Vec<SandboxPath>,
)
    ensures
        rule_views(final(rules)@) == rule_views(old(rules)@).push(
            SbplRuleView {
                allow,
                operation: operation@,
                path: path@,
                exclusions: bytes_of(exclusions@),
            },
        ),
{
    rules.push(
        SbplRule { allow, operation, path: path.clone(), exclusions: copy_paths(exclusions) },
    );
    assert(rule_views(rules@) =~= rule_views(old(rules)@).push(
        SbplRuleView {
            allow,
            operation: operation@,
            path: path@,
            exclusions: bytes_of(exclusions@),
        },
    ));
}

/// The filesystem rules of a profile. `canonical` holds the resolved name of
/// each rule's path.
///
/// Each rule leaves to the later ones whatever they decide otherwise, so that
/// the profile decides as the ordered policy does.
pub fn policy_rules(fs: &Vec<FsAccess>, canonical: &Vec<Option<SandboxPath>>) -> (rules: Vec<
    SbplRule,
>)
    requires
        canonical@.len() == fs@.len(),
    ensures
        rule_views(rules@) == emitted(fs@, names_of(fs@, canonical@), fs@.len() as int),
{
    let ghost all = names_of(fs@, canonical@);
    let mut names: Vec<Vec<SandboxPath>> = Vec::new();
    let mut k: usize = 0;
    while k < fs.len()
        invariant
            k <= fs@.len() == canonical@.len(),
            all == names_of(fs@, canonical@),
            names@.len() == k,
            forall|j: int| 0 <= j < k ==> bytes_of((#[trigger] names@[j])@) == all[j],
        decreases fs.len() - k,
    {
        names.push(path_variants(fs[k].path(), &canonical[k]));
        k += 1;
    }
    assert(names@.map_values(|n: Vec<SandboxPath>| bytes_of(n@)) =~= all);
    let mut rules: Vec<SbplRule> = Vec::new();
    assert(rule_views(rules@) =~= seq![]);
    let mut i: usize = 0;
    while i < fs.len()
        invariant
            i <= fs@.len(),
            names@.len() == fs@.len() == all.len(),
            names@.map_values(|n: Vec<SandboxPath>| bytes_of(n@)) == all,
            rule_views(rules@) == emitted(fs@, all, i as int),
        decreases fs.len() - i,
    {
        let right = fs[i].right();
        let effect = fs[i].effect();
        let other = match effect {
            RuleEffect::Allow => RuleEffect::Deny,
            RuleEffect::Deny => RuleEffect::Allow,
        };
        let exclusions = collect_paths(fs, &names, i + 1, right, other);
        let allow = effect == RuleEffect::Allow;
        let ghost before = rule_views(rules@);
        let ghost at = i as int;
        let mut n: usize = 0;
        assert(before + emitted_for(fs@, all, at, 0) =~= before);
        assert(names@[at]@.len() == all[at].len());
        while n < names[i].len()
            invariant
                at == i,
                i < fs@.len(),
                names@.len() == fs@.len() == all.len(),
                names@.map_values(|n: Vec<SandboxPath>| bytes_of(n@)) == all,
                n <= names@[at]@.len() == all[at].len(),
                right == fs@[at].spec_right(),
                allow == (fs@[at].spec_effect() == RuleEffect::Allow),
                bytes_of(exclusions@) == exclusions_of(fs@, all, at),
                rule_views(rules@) == before + emitted_for(fs@, all, at, n as int),
            decreases names@[at]@.len() - n,
        {
            let path = &names[i][n];
            let ghost here = rule_views(rules@);
            assert(all[at][n as int] == path@);
            let ghost ops = operations(right);
            let ghost next = ops.map_values(
                |operation: Seq<char>| emitted_rule(fs@, all, at, all[at][n as int], operation),
            );
            match right {
                FsRight::Read => {
                    push_rule(&mut rules, allow, "file-read*", path, &exclusions);
                },
                FsRight::Write => {
                    push_rule(&mut rules, allow, "file-write*", path, &exclusions);
                },
                FsRight::Execute => {
                    push_rule(&mut rules, allow, "file-map-executable", path, &exclusions);
                    push_rule(&mut rules, allow, "process-exec*", path, &exclusions);
                },
            }
            proof {
                assert(rule_views(rules@) =~= here + next);
                assert(rule_views(rules@) =~= before + emitted_for(fs@, all, at, n + 1));
            }
            n += 1;
        }
        assert(rule_views(rules@) == emitted(fs@, all, i + 1));
        i += 1;
    }
    rules
}

/// Appends a path as a literal body; fails where it cannot be in a profile.
fn push_literal(source: &mut String, path: &SandboxPath) -> (result: Result<(), Error>)
    ensures
        match result {
            Ok(_) => path_problem(path@) is None && final(source)@ == old(source)@ + literal(path@),
            Err(error) => is_path_error(error, path@) && path_problem(path@) is Some,
        },
{
    match sbpl_string(path) {
        Ok(body) => {
            source.append(body.as_str());
            Ok(())
        },
        Err(error) => Err(error),
    }
}

/// Appends the filter of a rule.
fn push_subpath_filter(source: &mut String, path: &SandboxPath, exclusions: &Vec<SandboxPath>) -> (
    result: Result<(), Error>)
    ensures
        match result {
            Ok(_) => all_fit(seq![path@] + bytes_of(exclusions@)) && final(source)@ == old(source)@
                + filter_text(path@, bytes_of(exclusions@)),
            Err(error) => is_first_path_error(error, seq![path@] + bytes_of(exclusions@)),
        },
{
    let ghost start = source@;
    let ghost excluded = bytes_of(exclusions@);
    let ghost all = seq![path@] + excluded;
    if exclusions.len() == 0 {
        source.append("(subpath \"");
    } else {
        source.append("(require-all (subpath \"");
    }
    match push_literal(source, path) {
        Ok(_) => {},
        Err(error) => {
            proof {
                assert(all[0] == path@);
                assert(all_fit(all.take(0)));
            }
            return Err(error);
        },
    }
    source.append("\")");
    if exclusions.len() == 0 {
        assert(all =~= seq![path@]);
        assert(source@ =~= start + filter_text(path@, excluded));
        return Ok(());
    }
    let ghost head = source@;
    let mut i: usize = 0;
    assert(excluded.take(0) =~= seq![]);
    assert(head + exclusion_text(excluded.take(0)) =~= head);
    assert(all.take(1) =~= seq![path@]);
    while i < exclusions.len()
        invariant
            i <= exclusions@.len(),
            excluded == bytes_of(exclusions@),
            all == seq![path@] + excluded,
            all_fit(all.take(i + 1)),
            source@ == head + exclusion_text(excluded.take(i as int)),
        decreases exclusions.len() - i,
    {
        source.append(" (require-not (subpath \"");
        assert(all[i + 1] == exclusions@[i as int]@);
        match push_literal(source, &exclusions[i]) {
            Ok(_) => {},
            Err(error) => {
                return Err(error);
            },
        }
        source.append("\"))");
        proof {
            assert(excluded.take(i + 1).drop_last() =~= excluded.take(i as int));
            assert(source@ =~= head + exclusion_text(excluded.take(i + 1)));
            assert forall|k: int| 0 <= k < all.take(i + 2).len() implies path_problem(
                #[trigger] all.take(i + 2)[k],
            ) is None by {
                if k < i + 1 {
                    assert(all.take(i + 1)[k] == all[k]);
                }
            }
        }
        i += 1;
    }
    source.append(")");
    proof {
        assert(excluded.take(i as int) =~= excluded);
        assert(all.take(i + 1) =~= all);
        assert(source@ =~= start + filter_text(path@, excluded));
    }
    Ok(())
}

/// The mentioned paths of the first rules come first.
proof fn lemma_mentioned_prefix(rules: Seq<SbplRuleView>, n: int)
    requires
        0 <= n <= rules.len(),
    ensures
        mentioned(rules.take(n)).len() <= mentioned(rules).len(),
        mentioned(rules).take(mentioned(rules.take(n)).len() as int) == mentioned(rules.take(n)),
    decreases rules.len() - n,
{
    if n == rules.len() {
        assert(rules.take(n) =~= rules);
        assert(mentioned(rules).take(mentioned(rules).len() as int) =~= mentioned(rules));
    } else {
        lemma_mentioned_prefix(rules, n + 1);
        let longer = rules.take(n + 1);
        assert(longer.drop_last() =~= rules.take(n));
        let short = mentioned(rules.take(n));
        let long = mentioned(longer);
        assert(long == short + seq![longer.last().path] + longer.last().exclusions);
        assert(mentioned(rules).take(short.len() as int) =~= long.take(short.len() as int));
        assert(long.take(short.len() as int) =~= short);
    }
}

/// The first path that does not fit stays the first when more follow.
proof fn lemma_first_error_extends(
    error: Error,
    before: Seq<Seq<u8>>,
    here: Seq<Seq<u8>>,
    all: Seq<Seq<u8>>,
)
    requires
        all_fit(before),
        is_first_path_error(error, here),
        (before + here).len() <= all.len(),
        all.take((before + here).len() as int) == before + here,
    ensures
        is_first_path_error(error, all),
{
    let i = choose|i: int|
        0 <= i < here.len() && is_path_error(error, #[trigger] here[i]) && all_fit(here.take(i));
    let joined = before + here;
    let at = before.len() + i;
    assert(joined[at] == here[i]);
    assert(all.take(joined.len() as int)[at] == all[at]);
    assert(all[at] == here[i]);
    assert forall|k: int| 0 <= k < all.take(at).len() implies path_problem(
        #[trigger] all.take(at)[k],
    ) is None by {
        assert(all.take(joined.len() as int)[k] == all[k]);
        if k < before.len() {
            assert(joined[k] == before[k]);
        } else {
            assert(joined[k] == here[k - before.len()]);
            assert(here.take(i)[k - before.len()] == here[k - before.len()]);
        }
    }
    assert(is_path_error(error, all[at]));
}

/// Writes out one rule.
fn push_rule_text(source: &mut String, rule: &SbplRule) -> (result: Result<(), Error>)
    ensures
        match result {
            Ok(_) => all_fit(seq![rule@.path] + rule@.exclusions) && final(source)@ == old(source)@
                + rule_text(rule@),
            Err(error) => is_first_path_error(error, seq![rule@.path] + rule@.exclusions),
        },
{
    let ghost before = source@;
    source.append("(");
    if rule.allow {
        source.append("allow");
    } else {
        source.append("deny");
    }
    source.append(" ");
    source.append(rule.operation);
    source.append(" ");
    match push_subpath_filter(source, &rule.path, &rule.exclusions) {
        Ok(_) => {},
        Err(error) => {
            return Err(error);
        },
    }
    source.append(")\n");
    assert(source@ =~= before + rule_text(rule@));
    Ok(())
}

/// Writes out the rules of a profile.
pub fn render_rules(source: &mut String, rules: &Vec<SbplRule>) -> (result: Result<(), Error>)
    ensures
        match result {
            Ok(_) => all_fit(mentioned(rule_views(rules@))) && final(source)@ == old(source)@
                + rules_text(rule_views(rules@)),
            Err(error) => is_first_path_error(error, mentioned(rule_views(rules@))),
        },
{
    let ghost start = source@;
    let ghost all = rule_views(rules@);
    let mut i: usize = 0;
    assert(all.take(0) =~= seq![]);
    assert(start + rules_text(all.take(0)) =~= start);
    while i < rules.len()
        invariant
            i <= rules@.len(),
            all == rule_views(rules@),
            all_fit(mentioned(all.take(i as int))),
            source@ == start + rules_text(all.take(i as int)),
        decreases rules.len() - i,
    {
        let rule = &rules[i];
        let ghost here = rule@;
        let ghost earlier = mentioned(all.take(i as int));
        let ghost mentions = seq![here.path] + here.exclusions;
        proof {
            assert(all[i as int] == here);
            assert(all.take(i + 1).drop_last() =~= all.take(i as int));
            assert(all.take(i + 1).last() == here);
            assert(mentioned(all.take(i + 1)) =~= earlier + mentions);
        }
        match push_rule_text(source, rule) {
            Ok(_) => {},
            Err(error) => {
                proof {
                    lemma_mentioned_prefix(all, i + 1);
                    lemma_first_error_extends(error, earlier, mentions, mentioned(all));
                }
                return Err(error);
            },
        }
        proof {
            assert(source@ =~= start + rules_text(all.take(i + 1)));
            assert forall|k: int| 0 <= k < mentioned(all.take(i + 1)).len() implies path_problem(
                #[trigger] mentioned(all.take(i + 1))[k],
            ) is None by {
                if k < earlier.len() {
                    assert(mentioned(all.take(i + 1))[k] == earlier[k]);
                } else {
                    assert(mentioned(all.take(i + 1))[k] == mentions[k - earlier.len()]);
                }
            }
        }
        i += 1;
    }
    assert(all.take(i as int) =~= all);
    Ok(())
}

/// The policy part of a profile. `canonical` holds the resolved name of each
/// rule's path.
pub fn build_policy_rules(config: &SandboxConfig, canonical: &Vec<Option<SandboxPath>>) -> (text:
    Result<String, Error>)
    requires
        canonical@.len() == config.fs@.len(),
    ensures
        match text {
            Ok(text) => all_fit(mentioned(generated(*config, canonical@))) && text@ == policy_text(
                *config,
                canonical@,
            ),
            Err(error) => is_first_path_error(error, mentioned(generated(*config, canonical@))),
        },
{
    let mut source = String::from_str("(deny default)\n(debug deny)\n");
    let rules = policy_rules(&config.fs, canonical);
    match render_rules(&mut source, &rules) {
        Ok(_) => {},
        Err(error) => {
            return Err(error);
        },
    }
    match config.network {
        NetworkPolicy::Deny => {},
        NetworkPolicy::OutboundOnly => {
            source.append("(allow network-outbound)\n");
            source.append("(allow system-socket)\n");
        },
        NetworkPolicy::Full => {
            source.append("(allow network*)\n");
            source.append("(allow system-socket)\n");
        },
    }
    assert(source@ =~= policy_text(*config, canonical@));
    Ok(source)
}

/// The paths that a profile mentions, in the order in which they are written.
pub open spec fn all_mentioned(
    config: SandboxConfig,
    canonical: Seq<Option<SandboxPath>>,
    imports: Seq<Seq<u8>>,
) -> Seq<Seq<u8>> {
    imports + mentioned(generated(config, canonical))
}

/// A whole profile: imports before the generated policy.
pub open spec fn profile_text(
    config: SandboxConfig,
    canonical: Seq<Option<SandboxPath>>,
    imports: Seq<Seq<u8>>,
) -> Seq<char> {
    "(version 1)\n"@ + imports_text(imports) + policy_text(config, canonical)
}

/// Builds a profile without imports.
pub fn build(config: &SandboxConfig, canonical: &Vec<Option<SandboxPath>>) -> (profile: Result<
    SeatbeltProfile,
    Error,
>)
    requires
        canonical@.len() == config.fs@.len(),
    ensures
        match profile {
            Ok(profile) => all_fit(all_mentioned(*config, canonical@, seq![]))
                && profile.source@ == profile_text(*config, canonical@, seq![]),
            Err(error) => is_first_path_error(
                error,
                all_mentioned(*config, canonical@, seq![]),
            ),
        },
{
    let imports: Vec<SandboxPath> = Vec::new();
    assert(bytes_of(imports@) =~= seq![]);
    build_with_imports(config, canonical, &imports)
}

/// Builds a profile that imports other profiles first.
pub fn build_with_imports(
    config: &SandboxConfig,
    canonical: &Vec<Option<SandboxPath>>,
    imports: &Vec<SandboxPath>,
) -> (profile: Result<SeatbeltProfile, Error>)
    requires
        canonical@.len() == config.fs@.len(),
    ensures
        match profile {
            Ok(profile) => all_fit(all_mentioned(*config, canonical@, bytes_of(imports@)))
                && profile.source@ == profile_text(*config, canonical@, bytes_of(imports@)),
            Err(error) => is_first_path_error(
                error,
                all_mentioned(*config, canonical@, bytes_of(imports@)),
            ),
        },
{
    let ghost all = all_mentioned(*config, canonical@, bytes_of(imports@));
    let ghost names = bytes_of(imports@);
    let mut source = String::from_str("(version 1)\n");
    let ghost start = source@;
    let mut i: usize = 0;
    assert(names.take(0) =~= seq![]);
    assert(start + imports_text(names.take(0)) =~= start);
    while i < imports.len()
        invariant
            i <= imports@.len(),
            names == bytes_of(imports@),
            all == all_mentioned(*config, canonical@, names),
            all_fit(names.take(i as int)),
            source@ == start + imports_text(names.take(i as int)),
        decreases imports.len() - i,
    {
        source.append("(import \"");
        assert(names[i as int] == imports@[i as int]@);
        match push_literal(&mut source, &imports[i]) {
            Ok(_) => {},
            Err(error) => {
                proof {
                    assert(all[i as int] == names[i as int]);
                    assert(all.take(i as int) =~= names.take(i as int));
                }
                return Err(error);
            },
        }
        source.append("\")\n");
        proof {
            assert(names.take(i + 1).drop_last() =~= names.take(i as int));
            assert(source@ =~= start + imports_text(names.take(i + 1)));
            assert forall|k: int| 0 <= k < names.take(i + 1).len() implies path_problem(
                #[trigger] names.take(i + 1)[k],
            ) is None by {
                if k < i {
                    assert(names.take(i as int)[k] == names[k]);
                }
            }
        }
        i += 1;
    }
    assert(names.take(i as int) =~= names);
    let ghost mentions = mentioned(generated(*config, canonical@));
    match build_policy_rules(config, canonical) {
        Ok(policy) => {
            source.append(policy.as_str());
            proof {
                assert(source@ =~= profile_text(*config, canonical@, names));
                assert forall|k: int| 0 <= k < all.len() implies path_problem(
                    #[trigger] all[k],
                ) is None by {
                    if k < names.len() {
                        assert(all[k] == names[k]);
                    } else {
                        assert(all[k] == mentions[k - names.len()]);
                    }
                }
            }
            Ok(SeatbeltProfile { source })
        },
        Err(error) => {
            proof {
                assert(all.take((names + mentions).len() as int) =~= names + mentions);
                lemma_first_error_extends(error, names, mentions, all);
            }
            Err(error)
        },
    }
}

} // verus!
