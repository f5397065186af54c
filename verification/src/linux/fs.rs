//! Filesystem confinement via the Landlock LSM plus mount masking.
//!
//! Landlock denies *everything* not explicitly allowed, but its rules are
//! purely additive grants. Ordered allow/deny rules are therefore compiled into
//! two cooperating layers:
//!
//! * the Landlock ruleset grants exactly the allow-rule paths whose final
//!   ordered effect is allow, wholesale, so entries created at any later time
//!   are covered;
//! * every deny that falls beneath a covering grant becomes a mount mask, which
//!   stays faithful to the ordered policy no matter when files appear on either
//!   side.
//!
//! One policy shape has no faithful encoding: denying *read* on a path while
//! write or execute stays allowed there. Compilation fails instead of
//! approximating.
use crate::error::{is_confinement, Error, ErrorSource};
use crate::linux::durability::is_durable;
use crate::linux::masks::{grants_match, is_expressible, pin_paths, pins_match, Grants, Pin};
use crate::linux::plan::{is_plan, is_refusal, plan_masks, MountPlan};
use crate::linux::rules::{
    allow_roots, is_allow_root, is_rule_path, lists, views, NormalizedRule,
};
use crate::path::CanonicalPath;
use crate::policy::{FsAccess, FsRight};
use vstd::prelude::*;

verus! {

/// A compiled filesystem policy.
#[derive(Debug, PartialEq, Eq)]
pub struct CompiledRules {
    /// Every distinct rule path, sorted, so a path's pin index is stable.
    pub pins: Vec<Pin>,
    /// The Landlock grants.
    pub grants: Grants,
    /// The mounts that the child installs.
    pub mount_plan: MountPlan,
}

/// Whether every grant is on a pinned path.
pub open spec fn is_pinned(compiled: CompiledRules) -> bool {
    forall|path: Seq<Seq<u8>>|
        #![trigger pin_paths(compiled.pins@).contains(path)]
        views(compiled.grants.read@).contains(path) || views(compiled.grants.write@).contains(path)
            || views(compiled.grants.execute@).contains(path) ==> pin_paths(
            compiled.pins@,
        ).contains(path)
}

/// Whether `rule` is `access` with its path resolved to `path`.
pub open spec fn resolves(access: FsAccess, path: Seq<Seq<u8>>, rule: NormalizedRule) -> bool {
    rule.right == access.spec_right() && rule.effect == access.spec_effect() && rule.path@ == path
}

/// Whether `rules` are the rules of `fs`, in their order, with their paths resolved.
pub open spec fn is_normalized(
    fs: Seq<FsAccess>,
    resolved: Seq<Result<CanonicalPath, String>>,
    rules: Seq<NormalizedRule>,
) -> bool {
    &&& rules.len() == fs.len()
    &&& forall|i: int|
        #![trigger rules[i]]
        #![trigger resolved[i]]
        0 <= i < fs.len() ==> resolved[i] is Ok && resolves(fs[i], resolved[i]->Ok_0@, rules[i])
}

/// Whether `error` reports the first path that did not resolve.
pub open spec fn is_unresolved(
    resolved: Seq<Result<CanonicalPath, String>>,
    error: Error,
) -> bool {
    exists|i: int|
        0 <= i < resolved.len() && (#[trigger] resolved[i]) is Err && is_confinement(
            error,
            "landlock"@,
            resolved[i]->Err_0@,
        ) && forall|j: int| 0 <= j < i ==> (#[trigger] resolved[j]) is Ok
}

/// Whether every path resolved.
pub open spec fn all_resolved(resolved: Seq<Result<CanonicalPath, String>>) -> bool {
    forall|i: int| 0 <= i < resolved.len() ==> (#[trigger] resolved[i]) is Ok
}

/// Whether `path` is what one of the paths resolved to.
pub open spec fn is_resolved_path(
    resolved: Seq<Result<CanonicalPath, String>>,
    path: Seq<Seq<u8>>,
) -> bool {
    exists|i: int| 0 <= i < resolved.len() && ((#[trigger] resolved[i]) matches Ok(p) && p@ == path)
}

/// Whether there is one pin for each resolved path, ancestors first.
pub open spec fn pins_cover(
    resolved: Seq<Result<CanonicalPath, String>>,
    pins: Seq<Pin>,
) -> bool {
    lists(pin_paths(pins), |path: Seq<Seq<u8>>| is_resolved_path(resolved, path))
}

/// Whether `compiled` is what `rules` compile to with `pins`.
pub open spec fn is_compiled_from(
    rules: Seq<NormalizedRule>,
    pins: Seq<Pin>,
    compiled: CompiledRules,
) -> bool {
    &&& compiled.pins@ == pins
    &&& grants_match(rules, compiled.grants)
    &&& is_plan(rules, pins, compiled.mount_plan)
    &&& is_pinned(compiled)
}

/// Pins for the resolved paths are pins for the rules.
pub(crate) proof fn lemma_pins_cover_the_rules(
    fs: Seq<FsAccess>,
    resolved: Seq<Result<CanonicalPath, String>>,
    rules: Seq<NormalizedRule>,
    pins: Seq<Pin>,
)
    requires
        fs.len() == resolved.len(),
        is_normalized(fs, resolved, rules),
        pins_cover(resolved, pins),
    ensures
        pins_match(rules, pins),
{
    let pinned = |path: Seq<Seq<u8>>| is_resolved_path(resolved, path);
    let wanted = |path: Seq<Seq<u8>>| is_rule_path(rules, path);
    let paths = pin_paths(pins);
    assert forall|path: Seq<Seq<u8>>| #[trigger] paths.contains(path) <==> wanted(path) by {
        assert(paths.contains(path) <==> pinned(path));
        if pinned(path) {
            let i = choose|i: int|
                0 <= i < resolved.len() && ((#[trigger] resolved[i]) matches Ok(p) && p@ == path);
            assert(rules[i].path@ == path);
        }
        if wanted(path) {
            let i = choose|i: int| 0 <= i < rules.len() && (#[trigger] rules[i]).path@ == path;
            assert(resolved[i] is Ok);
        }
    }
}

/// Pairs each rule with what its path resolved to. The first path that did not
/// resolve fails the whole policy.
pub fn normalize_rules(
    rules: &Vec<FsAccess>,
    resolved: &Vec<Result<CanonicalPath, String>>,
) -> (normalized: Result<Vec<NormalizedRule>, Error>)
    requires
        rules@.len() == resolved@.len(),
    ensures
        match normalized {
            Ok(normalized) => is_normalized(rules@, resolved@, normalized@),
            Err(error) => is_unresolved(resolved@, error),
        },
{
    let mut normalized: Vec<NormalizedRule> = Vec::new();
    let mut i: usize = 0;
    while i < rules.len()
        invariant
            i <= rules@.len(),
            rules@.len() == resolved@.len(),
            normalized@.len() == i,
            forall|j: int| 0 <= j < i ==> (#[trigger] resolved@[j]) is Ok,
            forall|j: int|
                #![trigger normalized@[j]]
                0 <= j < i ==> resolved@[j] is Ok && resolves(
                    rules@[j],
                    resolved@[j]->Ok_0@,
                    normalized@[j],
                ),
        decreases rules.len() - i,
    {
        match &resolved[i] {
            Ok(path) => {
                normalized.push(
                    NormalizedRule {
                        right: rules[i].right(),
                        effect: rules[i].effect(),
                        path: path.clone(),
                    },
                );
            },
            Err(message) => {
                let source = ErrorSource::Message(message.clone());
                return Err(Error::confinement("landlock", source));
            },
        }
        i += 1;
    }
    Ok(normalized)
}

/// Compiles ordered filesystem allow/deny rules into positive Landlock paths
/// and a mount-masking plan for deny-under-allow boundaries.
///
/// `pins` holds one pin for each of the rule paths, in their order.
pub fn compile(rules: &Vec<NormalizedRule>, pins: Vec<Pin>) -> (compiled: Result<
    CompiledRules,
    Error,
>)
    requires
        pins_match(rules@, pins@),
    ensures
        match compiled {
            Ok(compiled) => {
                &&& is_expressible(rules@)
                &&& is_durable(rules@)
                &&& is_compiled_from(rules@, pins@, compiled)
            },
            Err(error) => is_refusal(rules@, error),
        },
{
    let grants = Grants {
        read: allow_roots(rules, FsRight::Read),
        write: allow_roots(rules, FsRight::Write),
        execute: allow_roots(rules, FsRight::Execute),
    };
    match plan_masks(rules, &pins, &grants) {
        Ok(mount_plan) => {
            proof {
                let pinned = |path: Seq<Seq<u8>>| is_rule_path(rules@, path);
                let read = |path: Seq<Seq<u8>>| is_allow_root(rules@, FsRight::Read, path);
                let write = |path: Seq<Seq<u8>>| is_allow_root(rules@, FsRight::Write, path);
                let execute = |path: Seq<Seq<u8>>| is_allow_root(rules@, FsRight::Execute, path);
                assert forall|path: Seq<Seq<u8>>|
                    #![trigger pin_paths(pins@).contains(path)]
                    views(grants.read@).contains(path) || views(grants.write@).contains(path)
                        || views(grants.execute@).contains(path) implies pin_paths(
                    pins@,
                ).contains(path) by {
                    assert(views(grants.read@).contains(path) <==> read(path));
                    assert(views(grants.write@).contains(path) <==> write(path));
                    assert(views(grants.execute@).contains(path) <==> execute(path));
                    assert(pinned(path));
                }
            }
            Ok(CompiledRules { pins, grants, mount_plan })
        },
        Err(error) => Err(error),
    }
}

} // verus!
