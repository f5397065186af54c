//! What the compiled policy amounts to: grants and masks together enforce the
//! ordered rules, no more and no less.
use crate::linux::durability::{is_durable, relocates};
use crate::linux::fs::{is_compiled_from, is_normalized, resolves, CompiledRules};
use crate::linux::masks::{
    attaches_under, denied_at, is_expressible, is_inexpressible, lemma_prefix_of_parent,
    lemma_prefix_transitive, mask_above, mask_at, mask_step, pin_paths, pins_match, residual_at,
    Grants, Mask, Pin,
};
use crate::linux::plan::{
    attach_at, attributes, is_plan, is_planned, mask_op_at, needs_op, op_lt, op_views,
    ops_ascending, MaskOpView, MountPlan, MOUNT_ATTR_NOEXEC, MOUNT_ATTR_RDONLY,
};
use crate::linux::rules::{
    allows, covers, effect_at, is_allow_root, is_granted, is_rule_path, lists, views,
    NormalizedRule, Rights,
};
use crate::order::{lemma_path_lt_asymmetric, path_lt};
use crate::path::CanonicalPath;
use crate::policy::{FsAccess, FsRight, RuleEffect};
use vstd::prelude::*;

verus! {

/// The rights that mount attributes strip.
pub open spec fn stripped_by(attr_set: u64) -> Rights {
    Rights {
        read: false,
        write: attr_set & MOUNT_ATTR_RDONLY != 0,
        execute: attr_set & MOUNT_ATTR_NOEXEC != 0,
    }
}

/// What the mount operation `op` makes of the mask on `path`: hiding takes
/// everything away, an attached clone is a fresh mount that the masks above no
/// longer touch, and a restricting bind strips rights on top.
pub open spec fn mask_after(op: MaskOpView, path: Seq<Seq<u8>>, mask: Mask) -> Mask {
    if !op.path().is_prefix_of(path) {
        mask
    } else {
        match op {
            MaskOpView::HideDir { .. } | MaskOpView::HideFile { .. } => Mask {
                hide_root: Some(op.path()),
                stripped: Rights::none(),
            },
            MaskOpView::SkeletonDir { .. } | MaskOpView::SkeletonFile { .. } => mask,
            MaskOpView::Attach { .. } => Mask::clear(),
            MaskOpView::Restrict { attr_set, .. } => Mask {
                hide_root: mask.hide_root,
                stripped: mask.stripped.union(stripped_by(attr_set)),
            },
        }
    }
}

/// The mask on `path` after the first `n` operations.
pub open spec fn mask_after_ops(ops: Seq<MaskOpView>, n: int, path: Seq<Seq<u8>>) -> Mask
    decreases n,
{
    if n <= 0 {
        Mask::clear()
    } else {
        mask_after(ops[n - 1], path, mask_after_ops(ops, n - 1, path))
    }
}

/// Whether the confined child can use `right` at `path`: a grant reaches the
/// path, and the mounts do not take the right away.
pub open spec fn is_usable(
    rules: Seq<NormalizedRule>,
    plan: MountPlan,
    right: FsRight,
    path: Seq<Seq<u8>>,
) -> bool {
    let ops = op_views(plan.ops@);
    is_granted(rules, right, path) && !mask_after_ops(ops, ops.len() as int, path).blocked().has(
        right,
    )
}

/// The child can use a right at a path exactly when the ordered policy finally
/// allows it there, for every path, whether it exists when the policy is
/// compiled or appears later.
pub proof fn law_policy_is_enforced_exactly(
    rules: Seq<NormalizedRule>,
    pins: Seq<Pin>,
    plan: MountPlan,
    right: FsRight,
    path: Seq<Seq<u8>>,
)
    requires
        pins_match(rules, pins),
        is_expressible(rules),
        is_plan(rules, pins, plan),
    ensures
        is_usable(rules, plan, right, path) <==> allows(rules, right, path),
{
    lemma_ops_make_the_mask(rules, pins, op_views(plan.ops@), path);
    lemma_mask_is_faithful(rules, right, path);
}

/// The effect that the rules of a configuration finally have on a right at `path`:
/// that of the last one whose path resolved to `path` or to something above it, and
/// deny where there is none.
pub open spec fn declared_effect(
    fs: Seq<FsAccess>,
    resolved: Seq<Result<CanonicalPath, String>>,
    right: FsRight,
    path: Seq<Seq<u8>>,
) -> RuleEffect
    decreases fs.len(),
{
    if fs.len() == 0 {
        RuleEffect::Deny
    } else if fs.last().spec_right() == right && resolved.last()->Ok_0@.is_prefix_of(path) {
        fs.last().spec_effect()
    } else {
        declared_effect(fs.drop_last(), resolved.drop_last(), right, path)
    }
}

/// The paths that a right is granted at and beneath.
pub open spec fn granted_paths(grants: Grants, right: FsRight) -> Seq<Seq<Seq<u8>>> {
    match right {
        FsRight::Read => views(grants.read@),
        FsRight::Write => views(grants.write@),
        FsRight::Execute => views(grants.execute@),
    }
}

/// Whether a child that is confined by `compiled` can use `right` at `path`: a grant
/// reaches the path, and the mounts do not take the right away.
pub open spec fn is_left_by(compiled: CompiledRules, right: FsRight, path: Seq<Seq<u8>>) -> bool {
    let ops = op_views(compiled.mount_plan.ops@);
    &&& exists|root: Seq<Seq<u8>>| #[trigger]
        granted_paths(compiled.grants, right).contains(root) && root.is_prefix_of(path)
    &&& !mask_after_ops(ops, ops.len() as int, path).blocked().has(right)
}

/// What a configuration declares is what its compiled rules leave to the child, for
/// every right and every path.
pub proof fn law_compiled_rules_are_the_declared_ones(
    fs: Seq<FsAccess>,
    resolved: Seq<Result<CanonicalPath, String>>,
    rules: Seq<NormalizedRule>,
    pins: Seq<Pin>,
    compiled: CompiledRules,
    right: FsRight,
    path: Seq<Seq<u8>>,
)
    requires
        fs.len() == resolved.len(),
        is_normalized(fs, resolved, rules),
        is_expressible(rules),
        pins_match(rules, pins),
        is_compiled_from(rules, pins, compiled),
    ensures
        is_left_by(compiled, right, path) <==> declared_effect(fs, resolved, right, path)
            == RuleEffect::Allow,
{
    law_policy_is_enforced_exactly(rules, pins, compiled.mount_plan, right, path);
    lemma_declared_effect(fs, resolved, rules, right, path);
    let granted = granted_paths(compiled.grants, right);
    let wanted = |root: Seq<Seq<u8>>| is_allow_root(rules, right, root);
    assert(lists(granted, wanted)) by {
        let read = |root: Seq<Seq<u8>>| is_allow_root(rules, FsRight::Read, root);
        let write = |root: Seq<Seq<u8>>| is_allow_root(rules, FsRight::Write, root);
        let execute = |root: Seq<Seq<u8>>| is_allow_root(rules, FsRight::Execute, root);
        assert forall|root: Seq<Seq<u8>>| #[trigger] granted.contains(root) <==> wanted(
            root,
        ) by {
            assert(views(compiled.grants.read@).contains(root) <==> read(root));
            assert(views(compiled.grants.write@).contains(root) <==> write(root));
            assert(views(compiled.grants.execute@).contains(root) <==> execute(root));
        }
    }
    assert forall|root: Seq<Seq<u8>>|
        granted.contains(root) <==> #[trigger] is_allow_root(rules, right, root) by {
        assert(granted.contains(root) <==> wanted(root));
    }
    assert(is_granted(rules, right, path) <==> exists|root: Seq<Seq<u8>>| #[trigger]
        granted.contains(root) && root.is_prefix_of(path));
}

/// Resolving the paths of rules does not change what the rules say.
proof fn lemma_declared_effect(
    fs: Seq<FsAccess>,
    resolved: Seq<Result<CanonicalPath, String>>,
    rules: Seq<NormalizedRule>,
    right: FsRight,
    path: Seq<Seq<u8>>,
)
    requires
        fs.len() == resolved.len(),
        is_normalized(fs, resolved, rules),
    ensures
        declared_effect(fs, resolved, right, path) == effect_at(rules, right, path),
    decreases fs.len(),
{
    if fs.len() > 0 {
        let n = fs.len() - 1;
        assert(resolves(fs[n], resolved[n]->Ok_0@, rules[n]));
        let shorter = rules.drop_last();
        assert forall|i: int|
            #![trigger shorter[i]]
            #![trigger resolved.drop_last()[i]]
            0 <= i < fs.drop_last().len() implies resolved.drop_last()[i] is Ok && resolves(
            fs.drop_last()[i],
            resolved.drop_last()[i]->Ok_0@,
            shorter[i],
        ) by {
            assert(shorter[i] == rules[i]);
            assert(resolved.drop_last()[i] == resolved[i]);
        }
        lemma_declared_effect(fs.drop_last(), resolved.drop_last(), shorter, right, path);
    }
}

/// A rule decides every path that it covers, whatever came before it.
pub proof fn law_last_rule_wins(
    rules: Seq<NormalizedRule>,
    rule: NormalizedRule,
    right: FsRight,
    path: Seq<Seq<u8>>,
)
    ensures
        covers(rule, right, path) ==> effect_at(rules.push(rule), right, path) == rule.effect,
        !covers(rule, right, path) ==> effect_at(rules.push(rule), right, path) == effect_at(
            rules,
            right,
            path,
        ),
{
    assert(rules.push(rule).drop_last() =~= rules);
}

/// Nothing is allowed where no rule says so.
pub proof fn law_default_is_deny(
    rules: Seq<NormalizedRule>,
    right: FsRight,
    path: Seq<Seq<u8>>,
)
    requires
        forall|i: int| 0 <= i < rules.len() ==> !covers(#[trigger] rules[i], right, path),
    ensures
        effect_at(rules, right, path) == RuleEffect::Deny,
    decreases rules.len(),
{
    if rules.len() > 0 {
        assert(rules[rules.len() - 1] == rules.last());
        assert forall|i: int| 0 <= i < rules.drop_last().len() implies !covers(
            #[trigger] rules.drop_last()[i],
            right,
            path,
        ) by {
            assert(rules.drop_last()[i] == rules[i]);
        }
        law_default_is_deny(rules.drop_last(), right, path);
    }
}

/// The rights are independent: rules about one right say nothing of another.
pub proof fn law_rights_are_independent(
    rules: Seq<NormalizedRule>,
    rule: NormalizedRule,
    right: FsRight,
    path: Seq<Seq<u8>>,
)
    requires
        rule.right != right,
    ensures
        effect_at(rules.push(rule), right, path) == effect_at(rules, right, path),
{
    law_last_rule_wins(rules, rule, right, path);
}

/// A policy that only allows needs no mounts at all.
pub proof fn law_allow_only_policy_needs_no_mounts(
    rules: Seq<NormalizedRule>,
    pins: Seq<Pin>,
    plan: MountPlan,
)
    requires
        pins_match(rules, pins),
        is_plan(rules, pins, plan),
        forall|i: int| 0 <= i < rules.len() ==> (#[trigger] rules[i]).effect == RuleEffect::Allow,
    ensures
        plan.clone_sources@.len() == 0,
        plan.ops@.len() == 0,
        plan.seal_readonly@.len() == 0,
{
    assert forall|path: Seq<Seq<u8>>| !(#[trigger] denied_at(rules, path)).any() by {
        lemma_allow_only_denies_nothing(rules, FsRight::Read, path);
        lemma_allow_only_denies_nothing(rules, FsRight::Write, path);
        lemma_allow_only_denies_nothing(rules, FsRight::Execute, path);
    }
    assert forall|path: Seq<Seq<u8>>| #[trigger] mask_above(rules, path) == Mask::clear() by {
        if path.len() > 0 {
            lemma_no_denied_right_no_mask(rules, path.drop_last());
        }
    }
    let ops = op_views(plan.ops@);
    if ops.len() > 0 {
        assert(ops.contains(ops[0]));
        assert(is_planned(rules, pins, ops[0]));
        assert(false);
    }
    lemma_no_attached(rules, pins, pins.len() as int);
    let sealed = crate::linux::rules::views(plan.seal_readonly@);
    if sealed.len() > 0 {
        let wanted = |path: Seq<Seq<u8>>| crate::linux::plan::is_sealed(rules, pins, path);
        assert(sealed.contains(sealed[0]));
        assert(wanted(sealed[0]));
        assert(false);
    }
}

/// Without a rule that allows write, the sandbox cannot rename anything, so no
/// policy path can be relocated.
pub proof fn law_read_only_policy_is_durable(rules: Seq<NormalizedRule>)
    requires
        forall|i: int|
            0 <= i < rules.len() ==> !((#[trigger] rules[i]).right == FsRight::Write
                && rules[i].effect == RuleEffect::Allow),
    ensures
        is_durable(rules),
{
    assert forall|path: Seq<Seq<u8>>, dir: Seq<Seq<u8>>| !#[trigger] relocates(
        rules,
        path,
        dir,
    ) by {
        if relocates(rules, path, dir) {
            let parent = dir.drop_last();
            lemma_allow_is_granted(rules, FsRight::Write, parent);
            let root = choose|root: Seq<Seq<u8>>| #[trigger]
                is_allow_root(rules, FsRight::Write, root) && root.is_prefix_of(parent);
            assert(false);
        }
    }
}

/// Whatever lies above is mounted before what lies beneath it.
pub proof fn law_outer_mounts_come_first(
    rules: Seq<NormalizedRule>,
    pins: Seq<Pin>,
    plan: MountPlan,
    i: int,
    j: int,
)
    requires
        is_plan(rules, pins, plan),
        0 <= i < plan.ops@.len(),
        0 <= j < plan.ops@.len(),
        plan.ops@[i]@.path().is_prefix_of(plan.ops@[j]@.path()),
        plan.ops@[i]@.path() != plan.ops@[j]@.path(),
    ensures
        i < j,
{
    let ops = op_views(plan.ops@);
    let a = ops[i].path();
    let b = ops[j].path();
    if a.len() == b.len() {
        assert(a =~= b);
    }
    if j < i {
        assert(op_lt(ops[j], ops[i]));
    }
}

proof fn lemma_allow_only_denies_nothing(
    rules: Seq<NormalizedRule>,
    right: FsRight,
    path: Seq<Seq<u8>>,
)
    requires
        forall|i: int| 0 <= i < rules.len() ==> (#[trigger] rules[i]).effect == RuleEffect::Allow,
    ensures
        is_granted(rules, right, path) ==> allows(rules, right, path),
{
    if is_granted(rules, right, path) {
        let root = choose|root: Seq<Seq<u8>>| #[trigger]
            is_allow_root(rules, right, root) && root.is_prefix_of(path);
        let i = choose|i: int|
            0 <= i < rules.len() && (#[trigger] rules[i]).right == right && rules[i].effect
                == RuleEffect::Allow && rules[i].path@ == root;
        lemma_covered_by_allow(rules, right, path, i);
    }
}

proof fn lemma_covered_by_allow(
    rules: Seq<NormalizedRule>,
    right: FsRight,
    path: Seq<Seq<u8>>,
    i: int,
)
    requires
        forall|i: int| 0 <= i < rules.len() ==> (#[trigger] rules[i]).effect == RuleEffect::Allow,
        0 <= i < rules.len(),
        covers(rules[i], right, path),
    ensures
        allows(rules, right, path),
    decreases rules.len(),
{
    assert(rules.last() == rules[rules.len() - 1]);
    if i < rules.len() - 1 {
        let shorter = rules.drop_last();
        assert forall|i: int| 0 <= i < shorter.len() implies (#[trigger] shorter[i]).effect
            == RuleEffect::Allow by {
            assert(shorter[i] == rules[i]);
        }
        lemma_covered_by_allow(shorter, right, path, i);
    }
}

proof fn lemma_no_denied_right_no_mask(rules: Seq<NormalizedRule>, path: Seq<Seq<u8>>)
    requires
        forall|p: Seq<Seq<u8>>| !(#[trigger] denied_at(rules, p)).any(),
    ensures
        mask_at(rules, path) == Mask::clear(),
    decreases path.len(),
{
    assert(!denied_at(rules, path).any());
    if path.len() > 0 {
        lemma_no_denied_right_no_mask(rules, path.drop_last());
    }
}

proof fn lemma_no_attached(rules: Seq<NormalizedRule>, pins: Seq<Pin>, n: int)
    requires
        forall|path: Seq<Seq<u8>>| #[trigger] mask_above(rules, path) == Mask::clear(),
    ensures
        crate::linux::plan::attached_before(rules, pins, n).len() == 0,
    decreases n,
{
    if n > 0 {
        assert(mask_above(rules, pins[n - 1].path@) == Mask::clear());
        lemma_no_attached(rules, pins, n - 1);
    }
}

/// Where the policy finally allows a right, a grant reaches.
pub proof fn lemma_allow_is_granted(
    rules: Seq<NormalizedRule>,
    right: FsRight,
    path: Seq<Seq<u8>>,
)
    requires
        allows(rules, right, path),
    ensures
        is_granted(rules, right, path),
{
    let i = lemma_deciding_rule(rules, right, path);
    assert(is_allow_root(rules, right, rules[i].path@) && rules[i].path@.is_prefix_of(path));
}

proof fn lemma_deciding_rule(
    rules: Seq<NormalizedRule>,
    right: FsRight,
    path: Seq<Seq<u8>>,
) -> (i: int)
    requires
        allows(rules, right, path),
    ensures
        0 <= i < rules.len(),
        covers(rules[i], right, path),
        rules[i].effect == RuleEffect::Allow,
        allows(rules, right, rules[i].path@),
    decreases rules.len(),
{
    if covers(rules.last(), right, path) {
        let root = rules.last().path@;
        assert(root =~= root.subrange(0, root.len() as int));
        rules.len() - 1
    } else {
        let i = lemma_deciding_rule(rules.drop_last(), right, path);
        let root = rules[i].path@;
        if covers(rules.last(), right, root) {
            lemma_prefix_transitive(rules.last().path@, root, path);
        }
        i
    }
}

/// A path that no rule names is treated as its parent.
proof fn lemma_effect_inherited(rules: Seq<NormalizedRule>, right: FsRight, path: Seq<Seq<u8>>)
    requires
        path.len() > 0,
        !is_rule_path(rules, path),
    ensures
        effect_at(rules, right, path) == effect_at(rules, right, path.drop_last()),
    decreases rules.len(),
{
    if rules.len() > 0 {
        let last = rules.last();
        assert(last == rules[rules.len() - 1]);
        assert(last.path@ != path);
        lemma_prefix_of_named(last.path@, path);
        let shorter = rules.drop_last();
        if is_rule_path(shorter, path) {
            let i = choose|i: int| 0 <= i < shorter.len() && (#[trigger] shorter[i]).path@ == path;
            assert(rules[i].path@ == path);
        }
        lemma_effect_inherited(shorter, right, path);
    }
}

/// What is above `path` but not `path` itself is above its parent.
proof fn lemma_prefix_of_named(root: Seq<Seq<u8>>, path: Seq<Seq<u8>>)
    requires
        path.len() > 0,
        root != path,
    ensures
        root.is_prefix_of(path) <==> root.is_prefix_of(path.drop_last()),
{
    let parent = path.drop_last();
    if root.is_prefix_of(path) {
        if root.len() == path.len() {
            assert(root =~= path);
        }
        lemma_prefix_of_parent(root, path);
    }
    if root.is_prefix_of(parent) {
        assert(parent =~= path.subrange(0, path.len() - 1));
        lemma_prefix_transitive(root, parent, path);
    }
}

proof fn lemma_granted_inherited(rules: Seq<NormalizedRule>, right: FsRight, path: Seq<Seq<u8>>)
    requires
        path.len() > 0,
        !is_rule_path(rules, path),
    ensures
        is_granted(rules, right, path) == is_granted(rules, right, path.drop_last()),
{
    assert forall|root: Seq<Seq<u8>>| #[trigger]
        is_allow_root(rules, right, root) implies (root.is_prefix_of(path)
        <==> root.is_prefix_of(path.drop_last())) by {
        if root == path {
            assert(is_rule_path(rules, path));
        }
        lemma_prefix_of_named(root, path);
    }
}

/// The mask takes away exactly what the grants give too much.
proof fn lemma_mask_is_faithful(rules: Seq<NormalizedRule>, right: FsRight, path: Seq<Seq<u8>>)
    requires
        is_expressible(rules),
    ensures
        allows(rules, right, path) <==> is_granted(rules, right, path) && !mask_at(
            rules,
            path,
        ).blocked().has(right),
    decreases path.len(),
{
    if is_rule_path(rules, path) {
        assert(!is_inexpressible(rules, path));
        let above = mask_above(rules, path);
        assert(mask_at(rules, path) == mask_step(rules, above, path));
        if allows(rules, FsRight::Read, path) {
            lemma_allow_is_granted(rules, FsRight::Read, path);
        }
        if allows(rules, FsRight::Write, path) {
            lemma_allow_is_granted(rules, FsRight::Write, path);
        }
        if allows(rules, FsRight::Execute, path) {
            lemma_allow_is_granted(rules, FsRight::Execute, path);
        }
        assert(attaches_under(rules, above, path) ==> !residual_at(rules, path).read) by {
            lemma_stripped_keeps_read(rules, path);
        }
    } else if path.len() == 0 {
        assert forall|i: int| 0 <= i < rules.len() implies !covers(
            #[trigger] rules[i],
            right,
            path,
        ) by {
            if covers(rules[i], right, path) {
                assert(rules[i].path@ =~= path);
            }
        }
        law_default_is_deny(rules, right, path);
        if is_granted(rules, right, path) {
            let root = choose|root: Seq<Seq<u8>>| #[trigger]
                is_allow_root(rules, right, root) && root.is_prefix_of(path);
            assert(root =~= path);
            assert(is_rule_path(rules, path));
        }
    } else {
        lemma_effect_inherited(rules, right, path);
        lemma_granted_inherited(rules, right, path);
        lemma_mask_is_faithful(rules, right, path.drop_last());
    }
}

/// Restricting binds never strip read: a denied read is hidden instead.
proof fn lemma_stripped_keeps_read(rules: Seq<NormalizedRule>, path: Seq<Seq<u8>>)
    ensures
        !mask_above(rules, path).stripped.read,
{
    if path.len() > 0 {
        lemma_stripped_keeps_read_at(rules, path.drop_last());
    }
}

proof fn lemma_stripped_keeps_read_at(rules: Seq<NormalizedRule>, path: Seq<Seq<u8>>)
    ensures
        !mask_at(rules, path).stripped.read,
    decreases path.len(),
{
    if path.len() > 0 {
        lemma_stripped_keeps_read_at(rules, path.drop_last());
    }
}

/// The mask on `path` after the attachment and the mask of its own pin, as far
/// as they are among the first `n` operations.
spec fn mask_so_far(
    ops: Seq<MaskOpView>,
    n: int,
    above: Mask,
    attach: Option<MaskOpView>,
    mask: Option<MaskOpView>,
    path: Seq<Seq<u8>>,
) -> Mask {
    let base = if attach is Some && ops.take(n).contains(attach->0) {
        Mask::clear()
    } else {
        above
    };
    if mask is Some && ops.take(n).contains(mask->0) {
        mask_after(mask->0, path, base)
    } else {
        base
    }
}

/// Where no operation works on `path` itself or beneath, it fares as its parent.
proof fn lemma_ops_above(ops: Seq<MaskOpView>, n: int, path: Seq<Seq<u8>>)
    requires
        path.len() > 0,
        0 <= n <= ops.len(),
        forall|i: int| 0 <= i < n ==> (#[trigger] ops[i]).path().len() < path.len(),
    ensures
        mask_after_ops(ops, n, path) == mask_after_ops(ops, n, path.drop_last()),
    decreases n,
{
    if n > 0 {
        lemma_ops_above(ops, n - 1, path);
        assert(ops[n - 1].path() != path);
        lemma_prefix_of_named(ops[n - 1].path(), path);
    }
}

/// Operations that are deeper than `path` leave it alone.
proof fn lemma_ops_beneath(ops: Seq<MaskOpView>, from: int, n: int, path: Seq<Seq<u8>>)
    requires
        0 <= from <= n <= ops.len(),
        forall|i: int| from <= i < n ==> (#[trigger] ops[i]).path().len() > path.len(),
    ensures
        mask_after_ops(ops, n, path) == mask_after_ops(ops, from, path),
    decreases n,
{
    if n > from {
        lemma_ops_beneath(ops, from, n - 1, path);
    }
}

/// How many operations work on less deep paths than `depth`.
proof fn lemma_depth_split(ops: Seq<MaskOpView>, depth: nat) -> (n: int)
    requires
        ops_ascending(ops),
    ensures
        0 <= n <= ops.len(),
        forall|i: int| 0 <= i < n ==> (#[trigger] ops[i]).path().len() < depth,
        forall|i: int| n <= i < ops.len() ==> (#[trigger] ops[i]).path().len() >= depth,
    decreases ops.len(),
{
    if ops.len() == 0 {
        0
    } else if ops.last().path().len() < depth {
        assert forall|i: int| 0 <= i < ops.len() implies (#[trigger] ops[i]).path().len()
            < depth by {
            if i < ops.len() - 1 {
                assert(op_lt(ops[i], ops[ops.len() - 1]));
            }
        }
        ops.len() as int
    } else {
        let shorter = ops.drop_last();
        assert(ops_ascending(shorter)) by {
            assert forall|i: int, j: int|
                #![trigger shorter[i], shorter[j]]
                0 <= i < j < shorter.len() implies op_lt(shorter[i], shorter[j]) by {
                assert(op_lt(ops[i], ops[j]));
            }
        }
        let n = lemma_depth_split(shorter, depth);
        assert forall|i: int| 0 <= i < n implies (#[trigger] ops[i]).path().len() < depth by {
            assert(shorter[i] == ops[i]);
        }
        assert forall|i: int| n <= i < ops.len() implies (#[trigger] ops[i]).path().len()
            >= depth by {
            if i < ops.len() - 1 {
                assert(shorter[i] == ops[i]);
            }
        }
        n
    }
}

/// The operations at `path` itself, one after the other.
proof fn lemma_ops_at(
    rules: Seq<NormalizedRule>,
    pins: Seq<Pin>,
    ops: Seq<MaskOpView>,
    from: int,
    n: int,
    path: Seq<Seq<u8>>,
    k: Option<int>,
    above: Mask,
)
    requires
        pins_match(rules, pins),
        is_expressible(rules),
        ops_ascending(ops),
        forall|op: MaskOpView| #[trigger] ops.contains(op) <==> is_planned(rules, pins, op),
        0 <= from <= n <= ops.len(),
        forall|i: int| 0 <= i < from ==> (#[trigger] ops[i]).path().len() < path.len(),
        forall|i: int| from <= i < n ==> (#[trigger] ops[i]).path().len() >= path.len(),
        match k {
            Some(k) => 0 <= k < pins.len() && pins[k].path@ == path,
            None => !is_rule_path(rules, path),
        },
        mask_after_ops(ops, from, path) == above,
        above == mask_above(rules, path),
    ensures
        mask_after_ops(ops, n, path) == mask_so_far(
            ops,
            n,
            above,
            if k is Some {
                attach_at(rules, pins, k->0)
            } else {
                None
            },
            if k is Some {
                mask_op_at(rules, pins, k->0)
            } else {
                None
            },
            path,
        ),
    decreases n - from,
{
    let attach = if k is Some {
        attach_at(rules, pins, k->0)
    } else {
        None
    };
    let mask = if k is Some {
        mask_op_at(rules, pins, k->0)
    } else {
        None
    };
    if n == from {
        assert forall|op: MaskOpView| op.path() == path implies !ops.take(n).contains(op) by {
            if ops.take(n).contains(op) {
                let i = choose|i: int| 0 <= i < n && ops.take(n)[i] == op;
                assert(ops[i].path().len() < path.len());
            }
        }
        assert(attach is Some ==> attach->0.path() == path);
        assert(mask is Some ==> mask->0.path() == path);
    } else {
        lemma_ops_at(rules, pins, ops, from, n - 1, path, k, above);
        let op = ops[n - 1];
        let now = ops.take(n);
        let earlier = ops.take(n - 1);
        assert(now =~= earlier.push(op));
        assert forall|o: MaskOpView| #[trigger] now.contains(o) <==> o == op || earlier.contains(o) by {
            if o == op {
                assert(now[n - 1] == o);
            }
            if earlier.contains(o) {
                let i = choose|i: int| 0 <= i < n - 1 && earlier[i] == o;
                assert(now[i] == o);
            }
            if now.contains(o) && o != op {
                let i = choose|i: int| 0 <= i < n && now[i] == o;
                assert(earlier[i] == o);
            }
        }
        assert(ops.contains(op));
        assert(is_planned(rules, pins, op));
        if op.path() != path {
            if op.path().is_prefix_of(path) {
                assert(op.path() =~= path);
            }
            assert(attach is Some ==> attach->0 != op);
            assert(mask is Some ==> mask->0 != op);
        } else {
            assert(path =~= path.subrange(0, path.len() as int));
            if op is SkeletonDir || op is SkeletonFile {
                assert(attach is Some ==> attach->0 != op);
                assert(mask is Some ==> mask->0 != op);
            } else {
                let paths = pin_paths(pins);
                let i = choose|i: int| 0 <= i < pins.len() && #[trigger] needs_op(rules, pins, i, op);
                assert(paths[i] == path);
                let pinned = |p: Seq<Seq<u8>>| is_rule_path(rules, p);
                assert(paths.contains(path));
                assert(pinned(path));
                let k0 = k->0;
                assert(paths[k0] == path);
                if i < k0 {
                    assert(path_lt(paths[i], paths[k0]));
                    lemma_path_lt_asymmetric(paths[i], paths[k0]);
                }
                if k0 < i {
                    assert(path_lt(paths[k0], paths[i]));
                    lemma_path_lt_asymmetric(paths[k0], paths[i]);
                }
                assert(i == k0);
                assert(!is_inexpressible(rules, path));
                lemma_stripped_keeps_read(rules, path);
                if attach == Some(op) {
                    // A restriction on top of the attachment comes later.
                    if mask is Some && earlier.contains(mask->0) {
                        let j = choose|j: int| 0 <= j < n - 1 && earlier[j] == mask->0;
                        assert(ops[j] == mask->0);
                        assert(op_lt(ops[j], ops[n - 1]));
                        assert(mask->0 is Restrict);
                        assert(false);
                    }
                    assert(!earlier.contains(op)) by {
                        if earlier.contains(op) {
                            let j = choose|j: int| 0 <= j < n - 1 && earlier[j] == op;
                            assert(op_lt(ops[j], ops[n - 1]));
                        }
                    }
                } else {
                    assert(mask == Some(op));
                    assert(!earlier.contains(op)) by {
                        if earlier.contains(op) {
                            let j = choose|j: int| 0 <= j < n - 1 && earlier[j] == op;
                            assert(op_lt(ops[j], ops[n - 1]));
                        }
                    }
                }
            }
        }
    }
}

/// The operations, done in order, make the mask that the policy calls for.
proof fn lemma_ops_make_the_mask(
    rules: Seq<NormalizedRule>,
    pins: Seq<Pin>,
    ops: Seq<MaskOpView>,
    path: Seq<Seq<u8>>,
)
    requires
        pins_match(rules, pins),
        is_expressible(rules),
        ops_ascending(ops),
        forall|op: MaskOpView| #[trigger] ops.contains(op) <==> is_planned(rules, pins, op),
    ensures
        mask_after_ops(ops, ops.len() as int, path) == mask_at(rules, path),
    decreases path.len(),
{
    let all = ops.len() as int;
    let from = lemma_depth_split(ops, path.len());
    let above = mask_above(rules, path);
    if path.len() == 0 {
        assert(from == 0) by {
            if from > 0 {
                assert(ops[0].path().len() < 0);
            }
        }
    } else {
        let parent = path.drop_last();
        lemma_ops_make_the_mask(rules, pins, ops, parent);
        lemma_ops_above(ops, from, path);
        lemma_ops_beneath(ops, from, all, parent);
    }
    let paths = pin_paths(pins);
    let pinned = |p: Seq<Seq<u8>>| is_rule_path(rules, p);
    assert(paths.contains(path) <==> pinned(path));
    let k = if is_rule_path(rules, path) {
        Some(choose|k: int| 0 <= k < paths.len() && paths[k] == path)
    } else {
        None
    };
    lemma_ops_at(rules, pins, ops, from, all, path, k, above);
    assert(ops.take(all) =~= ops);
    if k is Some {
        let k0 = k->0;
        assert(pins[k0].path@ == path);
        if attach_at(rules, pins, k0) is Some {
            let op = attach_at(rules, pins, k0)->0;
            assert(needs_op(rules, pins, k0, op));
            assert(ops.contains(op));
        }
        if mask_op_at(rules, pins, k0) is Some {
            let op = mask_op_at(rules, pins, k0)->0;
            assert(needs_op(rules, pins, k0, op));
            assert(ops.contains(op));
            assert(path =~= path.subrange(0, path.len() as int));
        }
        assert(!is_inexpressible(rules, path));
        lemma_stripped_keeps_read(rules, path);
        lemma_attributes_strip(residual_at(rules, path));
        assert(mask_at(rules, path) == mask_step(rules, above, path));
    }
}

proof fn lemma_attributes_strip(rights: Rights)
    ensures
        stripped_by(attributes(rights)) == (Rights {
            read: false,
            write: rights.write,
            execute: rights.execute,
        }),
{
    assert(0u64 & 1 == 0 && 0u64 & 8 == 0) by (bit_vector);
    assert(1u64 & 1 == 1 && 1u64 & 8 == 0) by (bit_vector);
    assert(8u64 & 1 == 0 && 8u64 & 8 == 8) by (bit_vector);
    assert(9u64 & 1 == 1 && 9u64 & 8 == 8) by (bit_vector);
}

/// A policy is refused as having no faithful encoding exactly where one of its paths has
/// read denied beneath a grant of it while write or execute stays allowed there.
pub proof fn law_only_unreadable_uses_are_inexpressible(
    rules: Seq<NormalizedRule>,
    path: Seq<Seq<u8>>,
)
    ensures
        is_inexpressible(rules, path) <==> !allows(rules, FsRight::Read, path) && is_granted(
            rules,
            FsRight::Read,
            path,
        ) && (allows(rules, FsRight::Write, path) || allows(rules, FsRight::Execute, path)),
{
    lemma_stripped_keeps_read(rules, path);
}

/// A grant is on every path that a rule names for a right that the policy finally allows
/// there, and on no other.
pub proof fn law_grants_are_on_allowed_paths(
    rules: Seq<NormalizedRule>,
    right: FsRight,
    path: Seq<Seq<u8>>,
)
    ensures
        is_allow_root(rules, right, path) ==> allows(rules, right, path),
        is_allow_root(rules, right, path) <==> allows(rules, right, path) && exists|i: int|
            0 <= i < rules.len() && (#[trigger] rules[i]).path@ == path && rules[i].right == right
                && rules[i].effect == RuleEffect::Allow,
{
}

} // verus!
