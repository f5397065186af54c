//! Ordered filesystem rules on canonical paths.
use crate::order::{lemma_path_lt_transitive, path_lt, paths_ascending, Order};
use crate::path::CanonicalPath;
use crate::policy::{FsRight, RuleEffect};
use vstd::prelude::*;

verus! {

/// A rule whose path has been resolved.
#[derive(Debug, PartialEq, Eq)]
pub struct NormalizedRule {
    /// The right that the rule is about.
    pub right: FsRight,
    /// What the rule does to the right.
    pub effect: RuleEffect,
    /// The resolved path.
    pub path: CanonicalPath,
}

/// A set of rights.
#[derive(Debug, Clone, Copy, PartialEq, Eq, Structural)]
pub struct Rights {
    /// Whether read is in the set.
    pub read: bool,
    /// Whether write is in the set.
    pub write: bool,
    /// Whether execute is in the set.
    pub execute: bool,
}

impl Rights {
    /// Whether `right` is in the set.
    pub open spec fn has(self, right: FsRight) -> bool {
        match right {
            FsRight::Read => self.read,
            FsRight::Write => self.write,
            FsRight::Execute => self.execute,
        }
    }

    /// The empty set.
    pub open spec fn none() -> Rights {
        Rights { read: false, write: false, execute: false }
    }

    /// All three rights.
    pub open spec fn all() -> Rights {
        Rights { read: true, write: true, execute: true }
    }

    /// The rights in either set.
    pub open spec fn union(self, other: Rights) -> Rights {
        Rights {
            read: self.read || other.read,
            write: self.write || other.write,
            execute: self.execute || other.execute,
        }
    }

    /// The rights in this set that are not in `other`.
    pub open spec fn minus(self, other: Rights) -> Rights {
        Rights {
            read: self.read && !other.read,
            write: self.write && !other.write,
            execute: self.execute && !other.execute,
        }
    }

    /// Whether the set holds a right.
    pub open spec fn any(self) -> bool {
        self.read || self.write || self.execute
    }

    /// Whether the two sets share a right.
    pub open spec fn meets(self, other: Rights) -> bool {
        (self.read && other.read) || (self.write && other.write) || (self.execute && other.execute)
    }
}

/// Whether `rule` says something of `right` at `path`.
pub open spec fn covers(rule: NormalizedRule, right: FsRight, path: Seq<Seq<u8>>) -> bool {
    rule.right == right && rule.path@.is_prefix_of(path)
}

/// The effect of the last rule that covers `path`; deny where none does.
pub open spec fn effect_at(
    rules: Seq<NormalizedRule>,
    right: FsRight,
    path: Seq<Seq<u8>>,
) -> RuleEffect
    decreases rules.len(),
{
    if rules.len() == 0 {
        RuleEffect::Deny
    } else if covers(rules.last(), right, path) {
        rules.last().effect
    } else {
        effect_at(rules.drop_last(), right, path)
    }
}

/// Whether the policy as a whole allows `right` at `path`.
pub open spec fn allows(rules: Seq<NormalizedRule>, right: FsRight, path: Seq<Seq<u8>>) -> bool {
    effect_at(rules, right, path) == RuleEffect::Allow
}

/// Whether `path` is granted `right` as a whole: an allow rule names it, and no
/// later rule takes the right away there.
pub open spec fn is_allow_root(
    rules: Seq<NormalizedRule>,
    right: FsRight,
    path: Seq<Seq<u8>>,
) -> bool {
    &&& exists|i: int|
        0 <= i < rules.len() && (#[trigger] rules[i]).right == right && rules[i].effect
            == RuleEffect::Allow && rules[i].path@ == path
    &&& allows(rules, right, path)
}

/// Whether a grant for `right` reaches `path`.
pub open spec fn is_granted(
    rules: Seq<NormalizedRule>,
    right: FsRight,
    path: Seq<Seq<u8>>,
) -> bool {
    exists|root: Seq<Seq<u8>>| #[trigger]
        is_allow_root(rules, right, root) && root.is_prefix_of(path)
}

/// Whether some rule names `path`.
pub open spec fn is_rule_path(rules: Seq<NormalizedRule>, path: Seq<Seq<u8>>) -> bool {
    exists|i: int| 0 <= i < rules.len() && (#[trigger] rules[i]).path@ == path
}

/// The paths in a vector of paths.
pub open spec fn views(paths: Seq<CanonicalPath>) -> Seq<Seq<Seq<u8>>> {
    paths.map_values(|path: CanonicalPath| path@)
}

/// Whether `paths` lists exactly the paths that `wanted` holds of, each once, in
/// ascending order.
pub open spec fn lists(paths: Seq<Seq<Seq<u8>>>, wanted: spec_fn(Seq<Seq<u8>>) -> bool) -> bool {
    &&& paths_ascending(paths)
    &&& forall|path: Seq<Seq<u8>>| #[trigger] paths.contains(path) <==> wanted(path)
}

/// Adds `path` to an ascending list of paths, unless it is there.
pub fn insert_path(paths: &mut Vec<CanonicalPath>, path: CanonicalPath)
    requires
        paths_ascending(views(old(paths)@)),
    ensures
        paths_ascending(views(final(paths)@)),
        forall|p: Seq<Seq<u8>>| #[trigger]
            views(final(paths)@).contains(p) <==> p == path@ || views(old(paths)@).contains(p),
{
    let ghost before = views(paths@);
    let mut at: usize = 0;
    while at < paths.len()
        invariant_except_break
            at <= paths@.len(),
            before == views(paths@),
            forall|j: int| 0 <= j < at ==> path_lt(#[trigger] before[j], path@),
        invariant
            paths@ == old(paths)@,
            before == views(paths@),
            paths_ascending(before),
        ensures
            at <= paths@.len(),
            forall|j: int| 0 <= j < at ==> path_lt(#[trigger] before[j], path@),
            at < paths@.len() ==> path_lt(path@, before[at as int]),
        decreases paths.len() - at,
    {
        match paths[at].compare(&path) {
            Order::Less => {},
            Order::Equal => {
                assert(before[at as int] == path@);
                assert(before.contains(path@));
                return ;
            },
            Order::Greater => {
                break ;
            },
        }
        at += 1;
    }
    let ghost new = path@;
    paths.insert(at, path);
    proof {
        let after = views(paths@);
        assert(after =~= before.insert(at as int, new));
        assert forall|i: int, j: int|
            #![trigger after[i], after[j]]
            0 <= i < j < after.len() implies path_lt(after[i], after[j]) by {
            if j < at {
                assert(path_lt(before[i], before[j]));
            } else if j == at {
                assert(path_lt(before[i], new));
            } else if i == at {
                if j - 1 > at {
                    assert(path_lt(before[at as int], before[j - 1]));
                    lemma_path_lt_transitive(new, before[at as int], before[j - 1]);
                }
            } else if i < at {
                assert(path_lt(before[i], before[j - 1]));
            } else {
                assert(path_lt(before[i - 1], before[j - 1]));
            }
        }
        assert forall|p: Seq<Seq<u8>>| #[trigger] after.contains(p) <==> p == new
            || before.contains(p) by {
            if p == new {
                assert(after[at as int] == p);
            }
            if before.contains(p) {
                let k = choose|k: int| 0 <= k < before.len() && before[k] == p;
                if k < at {
                    assert(after[k] == p);
                } else {
                    assert(after[k + 1] == p);
                }
            }
            if after.contains(p) && p != new {
                let k = choose|k: int| 0 <= k < after.len() && after[k] == p;
                if k < at {
                    assert(before[k] == p);
                } else {
                    assert(before[k - 1] == p);
                }
            }
        }
    }
}

/// Whether an ascending list of paths holds `path`.
pub fn contains_path(paths: &Vec<CanonicalPath>, path: &CanonicalPath) -> (yes: bool)
    ensures
        yes == views(paths@).contains(path@),
{
    let mut i: usize = 0;
    while i < paths.len()
        invariant
            i <= paths@.len(),
            forall|j: int| 0 <= j < i ==> #[trigger] paths@[j]@ != path@,
        decreases paths.len() - i,
    {
        if paths[i].same(path) {
            assert(views(paths@)[i as int] == path@);
            return true;
        }
        i += 1;
    }
    assert forall|j: int| 0 <= j < views(paths@).len() implies views(paths@)[j] != path@ by {
        assert(paths@[j]@ != path@);
    }
    false
}

/// The final effect of the ordered rules on `right` at `path`.
pub fn final_effect(rules: &Vec<NormalizedRule>, right: FsRight, path: &CanonicalPath) -> (effect:
    RuleEffect)
    ensures
        effect == effect_at(rules@, right, path@),
{
    let mut effect = RuleEffect::Deny;
    let mut i: usize = 0;
    while i < rules.len()
        invariant
            i <= rules@.len(),
            effect == effect_at(rules@.take(i as int), right, path@),
        decreases rules.len() - i,
    {
        let rule = &rules[i];
        if rule.right == right && path.starts_with(&rule.path) {
            effect = rule.effect;
        }
        assert(rules@.take(i + 1).drop_last() =~= rules@.take(i as int));
        i += 1;
    }
    assert(rules@.take(i as int) =~= rules@);
    effect
}

/// The Landlock grants for `right`: every allow-rule path whose final ordered
/// effect is still allow. Grants are wholesale: deny boundaries beneath them
/// are enforced by mount masks, not by shrinking the grant.
pub fn allow_roots(rules: &Vec<NormalizedRule>, right: FsRight) -> (roots: Vec<CanonicalPath>)
    ensures
        lists(views(roots@), |path: Seq<Seq<u8>>| is_allow_root(rules@, right, path)),
{
    let mut roots: Vec<CanonicalPath> = Vec::new();
    let mut i: usize = 0;
    assert(views(roots@) =~= seq![]);
    while i < rules.len()
        invariant
            i <= rules@.len(),
            paths_ascending(views(roots@)),
            forall|path: Seq<Seq<u8>>| #[trigger]
                views(roots@).contains(path) <==> allows(rules@, right, path) && exists|j: int|
                    0 <= j < i && (#[trigger] rules@[j]).right == right && rules@[j].effect
                        == RuleEffect::Allow && rules@[j].path@ == path,
        decreases rules.len() - i,
    {
        let rule = &rules[i];
        let ghost before = views(roots@);
        if rule.right == right && rule.effect == RuleEffect::Allow && final_effect(
            rules,
            right,
            &rule.path,
        ) == RuleEffect::Allow {
            insert_path(&mut roots, rule.path.clone());
        }
        proof {
            assert forall|path: Seq<Seq<u8>>| #[trigger]
                views(roots@).contains(path) <==> allows(rules@, right, path) && exists|j: int|
                    0 <= j < i + 1 && (#[trigger] rules@[j]).right == right && rules@[j].effect
                        == RuleEffect::Allow && rules@[j].path@ == path by {
                assert(rules@[i as int] == *rule);
                assert(before.contains(path) ==> views(roots@).contains(path));
            }
        }
        i += 1;
    }
    assert forall|path: Seq<Seq<u8>>| #[trigger]
        views(roots@).contains(path) <==> is_allow_root(rules@, right, path) by {};
    roots
}

/// Every distinct rule path, ancestors before descendants.
pub fn rule_paths(rules: &Vec<NormalizedRule>) -> (paths: Vec<CanonicalPath>)
    ensures
        lists(views(paths@), |path: Seq<Seq<u8>>| is_rule_path(rules@, path)),
{
    let mut paths: Vec<CanonicalPath> = Vec::new();
    let mut i: usize = 0;
    assert(views(paths@) =~= seq![]);
    while i < rules.len()
        invariant
            i <= rules@.len(),
            paths_ascending(views(paths@)),
            forall|path: Seq<Seq<u8>>| #[trigger]
                views(paths@).contains(path) <==> exists|j: int|
                    0 <= j < i && (#[trigger] rules@[j]).path@ == path,
        decreases rules.len() - i,
    {
        let rule = &rules[i];
        let ghost before = views(paths@);
        insert_path(&mut paths, rule.path.clone());
        proof {
            assert forall|path: Seq<Seq<u8>>| #[trigger]
                views(paths@).contains(path) <==> exists|j: int|
                    0 <= j < i + 1 && (#[trigger] rules@[j]).path@ == path by {
                assert(rules@[i as int] == *rule);
                assert(before.contains(path) ==> views(paths@).contains(path));
            }
        }
        i += 1;
    }
    paths
}

} // verus!
