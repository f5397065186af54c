use guardrail::linux::rules::{final_effect, NormalizedRule};
use guardrail::{CanonicalPath, FsAccess, FsRight, RuleEffect};

fn canon(path: &str) -> CanonicalPath {
    CanonicalPath::from_bytes(path.as_bytes()).unwrap()
}

fn rule(right: FsRight, effect: RuleEffect, path: &str) -> NormalizedRule {
    NormalizedRule { right, effect, path: canon(path) }
}

#[test]
fn nothing_is_allowed_by_default() {
    let rules = vec![rule(FsRight::Read, RuleEffect::Allow, "/a")];
    assert_eq!(final_effect(&vec![], FsRight::Read, &canon("/a")), RuleEffect::Deny);
    assert_eq!(final_effect(&rules, FsRight::Read, &canon("/b")), RuleEffect::Deny);
    assert_eq!(final_effect(&rules, FsRight::Read, &canon("/ab")), RuleEffect::Deny);
}

#[test]
fn the_last_matching_rule_wins() {
    let rules = vec![
        rule(FsRight::Read, RuleEffect::Allow, "/a/b"),
        rule(FsRight::Read, RuleEffect::Deny, "/a"),
        rule(FsRight::Read, RuleEffect::Allow, "/a/c"),
    ];
    assert_eq!(final_effect(&rules, FsRight::Read, &canon("/a/b")), RuleEffect::Deny);
    assert_eq!(final_effect(&rules, FsRight::Read, &canon("/a/c/d")), RuleEffect::Allow);
}

#[test]
fn rights_are_independent() {
    let rules = vec![
        rule(FsRight::Write, RuleEffect::Allow, "/a"),
        rule(FsRight::Execute, RuleEffect::Allow, "/a"),
        rule(FsRight::Execute, RuleEffect::Deny, "/a/x"),
    ];
    assert_eq!(final_effect(&rules, FsRight::Read, &canon("/a")), RuleEffect::Deny);
    assert_eq!(final_effect(&rules, FsRight::Write, &canon("/a/x")), RuleEffect::Allow);
    assert_eq!(final_effect(&rules, FsRight::Execute, &canon("/a/x")), RuleEffect::Deny);
}

#[test]
fn rules_name_their_right_and_effect() {
    let of = |access: FsAccess| (access.right(), access.effect());
    assert_eq!(of(FsAccess::ReadAllow("/".into())), (FsRight::Read, RuleEffect::Allow));
    assert_eq!(of(FsAccess::ReadDeny("/".into())), (FsRight::Read, RuleEffect::Deny));
    assert_eq!(of(FsAccess::WriteAllow("/".into())), (FsRight::Write, RuleEffect::Allow));
    assert_eq!(of(FsAccess::WriteDeny("/".into())), (FsRight::Write, RuleEffect::Deny));
    assert_eq!(of(FsAccess::ExecuteAllow("/".into())), (FsRight::Execute, RuleEffect::Allow));
    assert_eq!(of(FsAccess::ExecuteDeny("/".into())), (FsRight::Execute, RuleEffect::Deny));
}
