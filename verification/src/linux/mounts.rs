//! What the steps of the namespace setup do to a path, one kernel action at a time,
//! and that in the end they leave exactly what the ordered policy allows.
//!
//! The two private file systems at fixed places are not part of the policy and are
//! left aside.
use crate::error::{is_unsupported, Error};
use crate::linux::durability::{
    is_durable, is_first_relocatable, is_mount, is_policy_path, not_durable_text, relocates,
};
use crate::linux::enforcement::{
    declared_effect, granted_paths, is_usable, law_compiled_rules_are_the_declared_ones,
    law_only_unreadable_uses_are_inexpressible, law_policy_is_enforced_exactly, mask_after,
    mask_after_ops,
};
use crate::linux::fs::{is_compiled_from, is_normalized, CompiledRules};
use crate::linux::masks::{
    inexpressible_text, is_attached, is_expressible, is_first_inexpressible, is_inexpressible,
    lemma_prefix_transitive, mask_above, pin_paths, pins_match, residual_at, shown, Mask, Pin,
};
use crate::linux::ns::{
    cloning, entering, is_masking_step, law_attachments_use_their_clone,
    lemma_cloning_does_not_mask, lemma_masking_does_not_clone, masking, masking_all,
    namespace_setup, private_mqueue, private_shm, sealing, MountPointView, NamespaceStepView,
};
use crate::linux::plan::{
    attached_before, is_plan, is_planned, is_refusal, is_sealed, lemma_hide_root_is_at_or_above, needs_op, op_lt, op_views,
    ops_ascending, seals, target_of, MaskOp, MaskOpView, MountPlan, Target,
};
use crate::linux::rules::{
    allows, is_allow_root, is_granted, is_rule_path, lists, views, NormalizedRule, Rights,
};
use crate::order::path_lt;
use crate::path::CanonicalPath;
use crate::policy::{FsAccess, FsRight, RuleEffect};
use crate::scan::is_at;
use crate::text::decimal;
use vstd::prelude::*;

verus! {

/// What a path has come to: where the mount that serves it is attached, if the setup
/// made that mount, and what the mounts take away.
pub struct PathState {
    pub mount: Option<Seq<Seq<u8>>>,
    pub mask: Mask,
}

/// The rights that mount attributes take away: read-only (bit 0) takes write, and
/// no-execute (bit 3) takes execute.
pub open spec fn taken_by(attr_set: u64) -> Rights {
    Rights { read: false, write: attr_set & 1 != 0, execute: attr_set & 8 != 0 }
}

/// A path that is served by something else than its own tree.
pub open spec fn shadowed(root: Seq<Seq<u8>>) -> PathState {
    PathState {
        mount: Some(root),
        mask: Mask { hide_root: Some(root), stripped: Rights::none() },
    }
}

/// Where the mount that serves a path is attached once a whole tree of mounts was
/// attached at `root`: further down, where the tree has a mount on the way.
pub open spec fn nearest(root: Seq<Seq<u8>>, inner: Option<Seq<Seq<u8>>>) -> Option<Seq<Seq<u8>>> {
    match inner {
        Some(mount) => if root.is_prefix_of(mount) {
            inner
        } else {
            Some(root)
        },
        None => Some(root),
    }
}

/// The step among the first `n` that filled a slot last.
pub open spec fn filled_by(steps: Seq<NamespaceStepView>, n: int, slot: int) -> Option<int>
    decreases n,
{
    if n <= 0 {
        None
    } else if steps[n - 1] matches NamespaceStepView::CloneTree { slot: filled, .. } && filled
        == slot {
        Some(n - 1)
    } else {
        filled_by(steps, n - 1, slot)
    }
}

/// What the first `n` steps make of `path`.
///
/// - A fresh file system or an empty file shadows what it is mounted over and all
///   that lies beneath.
/// - An attached clone shows the tree as it was when it was cloned, if it is the tree
///   of that very path; anything else shadows it.
/// - Binding a path over itself takes nothing away. It makes a mount that attributes
///   can be set on. If it is not recursive, the mounts beneath are left behind.
/// - Attributes take rights away from what the mount at their path serves and, if
///   they are set recursively, from what the mounts beneath serve. Without a mount at
///   the path they do nothing.
/// - Everything else takes nothing away.
pub open spec fn state_after(
    steps: Seq<NamespaceStepView>,
    n: int,
    path: Seq<Seq<u8>>,
) -> PathState
    decreases n,
{
    if n <= 0 {
        PathState { mount: None, mask: Mask::clear() }
    } else {
        let before = state_after(steps, n - 1, path);
        match steps[n - 1] {
            NamespaceStepView::MountFs { at: MountPointView::At(root), .. } => if root.is_prefix_of(
                path,
            ) {
                shadowed(root)
            } else {
                before
            },
            NamespaceStepView::MountEmptyFile { path: root, .. } => if root.is_prefix_of(path) {
                shadowed(root)
            } else {
                before
            },
            NamespaceStepView::AttachClone { slot, path: root } => if !root.is_prefix_of(path) {
                before
            } else {
                match filled_by(steps, n - 1, slot) {
                    Some(at) => if 0 <= at < n && steps[at] == (NamespaceStepView::CloneTree {
                        slot,
                        path: root,
                    }) {
                        let cloned = state_after(steps, at, path);
                        PathState { mount: nearest(root, cloned.mount), mask: cloned.mask }
                    } else {
                        shadowed(root)
                    },
                    None => shadowed(root),
                }
            },
            NamespaceStepView::BindSelf { path: root, recursive } => if !root.is_prefix_of(path) {
                before
            } else if recursive {
                PathState { mount: nearest(root, before.mount), mask: before.mask }
            } else {
                PathState { mount: Some(root), mask: state_after(steps, n - 1, root).mask }
            },
            NamespaceStepView::SetAttributes { path: root, recursive, attr_set } => {
                let is_mount = state_after(steps, n - 1, root).mount == Some(root);
                let reached = before.mount matches Some(mount) && (mount == root || (recursive
                    && root.is_prefix_of(mount)));
                if is_mount && reached {
                    PathState {
                        mount: before.mount,
                        mask: Mask {
                            hide_root: before.mask.hide_root,
                            stripped: before.mask.stripped.union(taken_by(attr_set)),
                        },
                    }
                } else {
                    before
                }
            },
            _ => before,
        }
    }
}

/// Whether the mounts that the whole setup leaves take `right` away at `path`.
pub open spec fn is_taken(
    plan: MountPlan,
    uid: nat,
    gid: nat,
    right: FsRight,
    path: Seq<Seq<u8>>,
) -> bool {
    let setup = namespace_setup(plan, uid, gid);
    state_after(setup, setup.len() as int, path).mask.blocked().has(right)
}

/// The mounts that the setup of a compiled plan leaves take away, at every path,
/// exactly what the grants give beyond the ordered policy: a right is granted and not
/// taken where the policy finally allows it, and nowhere else.
pub proof fn law_setup_leaves_what_the_policy_allows(
    rules: Seq<NormalizedRule>,
    pins: Seq<Pin>,
    plan: MountPlan,
    uid: nat,
    gid: nat,
    right: FsRight,
    path: Seq<Seq<u8>>,
)
    requires
        pins_match(rules, pins),
        is_expressible(rules),
        is_plan(rules, pins, plan),
    ensures
        is_granted(rules, right, path) && !is_taken(plan, uid, gid, right, path)
            <==> allows(rules, right, path),
{
    law_policy_is_enforced_exactly(rules, pins, plan, right, path);
    lemma_setup_makes_the_mask(rules, pins, plan, uid, gid, path);
}

/// Whether a rule of the configuration speaks of `right` at `path`.
pub open spec fn speaks_of(
    rule: FsAccess,
    at: Result<CanonicalPath, String>,
    right: FsRight,
    path: Seq<Seq<u8>>,
) -> bool {
    rule.spec_right() == right && at is Ok && at->Ok_0@.is_prefix_of(path)
}

/// The child can use a right at a path, a grant reaching it and no mount of the setup
/// taking it, exactly where the last rule of the configuration that speaks of it
/// there allows it.
pub proof fn law_last_declared_rule_decides(
    fs: Seq<FsAccess>,
    resolved: Seq<Result<CanonicalPath, String>>,
    rules: Seq<NormalizedRule>,
    pins: Seq<Pin>,
    compiled: CompiledRules,
    uid: nat,
    gid: nat,
    right: FsRight,
    path: Seq<Seq<u8>>,
)
    requires
        fs.len() == resolved.len(),
        is_normalized(fs, resolved, rules),
        is_expressible(rules),
        pins_match(rules, pins),
        is_compiled_from(rules, pins, compiled),
    ensures
        ((exists|root: Seq<Seq<u8>>| #[trigger]
            granted_paths(compiled.grants, right).contains(root) && root.is_prefix_of(path))
            && !is_taken(compiled.mount_plan, uid, gid, right, path)) <==> exists|i: int|
            #![trigger fs[i]]
            0 <= i < fs.len() && speaks_of(fs[i], resolved[i], right, path) && fs[i].spec_effect()
                == RuleEffect::Allow && forall|j: int|
                i < j < fs.len() ==> !speaks_of(#[trigger] fs[j], resolved[j], right, path),
{
    law_compiled_rules_are_the_declared_ones(fs, resolved, rules, pins, compiled, right, path);
    lemma_setup_makes_the_mask(rules, pins, compiled.mount_plan, uid, gid, path);
    assert forall|i: int| 0 <= i < fs.len() implies (#[trigger] resolved[i]) is Ok by {}
    lemma_last_speaker(fs, resolved, right, path, fs.len() as int);
    assert(fs.take(fs.len() as int) =~= fs);
    assert(resolved.take(fs.len() as int) =~= resolved);
}

/// The declared effect is that of the last rule that speaks of the right.
proof fn lemma_last_speaker(
    fs: Seq<FsAccess>,
    resolved: Seq<Result<CanonicalPath, String>>,
    right: FsRight,
    path: Seq<Seq<u8>>,
    n: int,
)
    requires
        0 <= n <= fs.len(),
        fs.len() == resolved.len(),
        forall|i: int| 0 <= i < fs.len() ==> (#[trigger] resolved[i]) is Ok,
    ensures
        declared_effect(fs.take(n), resolved.take(n), right, path) == RuleEffect::Allow
            <==> exists|i: int|
            #![trigger fs[i]]
            0 <= i < n && speaks_of(fs[i], resolved[i], right, path) && fs[i].spec_effect()
                == RuleEffect::Allow && forall|j: int|
                i < j < n ==> !speaks_of(#[trigger] fs[j], resolved[j], right, path),
    decreases n,
{
    if n > 0 {
        lemma_last_speaker(fs, resolved, right, path, n - 1);
        assert(fs.take(n).drop_last() =~= fs.take(n - 1));
        assert(resolved.take(n).drop_last() =~= resolved.take(n - 1));
        assert(fs.take(n).last() == fs[n - 1]);
        assert(resolved.take(n).last() == resolved[n - 1]);
        assert(resolved[n - 1] is Ok);
        if speaks_of(fs[n - 1], resolved[n - 1], right, path) {
            if fs[n - 1].spec_effect() == RuleEffect::Allow {
                assert(forall|j: int|
                    n - 1 < j < n ==> !speaks_of(#[trigger] fs[j], resolved[j], right, path));
            }
        } else {
            if exists|i: int|
                #![trigger fs[i]]
                0 <= i < n - 1 && speaks_of(fs[i], resolved[i], right, path)
                    && fs[i].spec_effect() == RuleEffect::Allow && forall|j: int|
                    i < j < n - 1 ==> !speaks_of(#[trigger] fs[j], resolved[j], right, path) {
                let i = choose|i: int|
                    #![trigger fs[i]]
                    0 <= i < n - 1 && speaks_of(fs[i], resolved[i], right, path)
                        && fs[i].spec_effect() == RuleEffect::Allow && forall|j: int|
                        i < j < n - 1 ==> !speaks_of(#[trigger] fs[j], resolved[j], right, path);
                assert(forall|j: int|
                    i < j < n ==> !speaks_of(#[trigger] fs[j], resolved[j], right, path));
            }
        }
    }
}

/// Every restriction of the plan is bound over its path and then has all of its
/// attributes set there, as recursively as it was bound.
pub proof fn law_restrictions_are_set(plan: MountPlan, uid: nat, gid: nat, i: int) -> (at: int)
    requires
        0 <= i < plan.ops@.len(),
        plan.ops@[i]@ is Restrict,
    ensures
        0 < at < namespace_setup(plan, uid, gid).len(),
        plan.ops@[i]@ matches MaskOpView::Restrict { target, attr_set, recursive } && {
            &&& namespace_setup(plan, uid, gid)[at - 1] == (NamespaceStepView::BindSelf {
                path: target.path,
                recursive,
            })
            &&& namespace_setup(plan, uid, gid)[at] == (NamespaceStepView::SetAttributes {
                path: target.path,
                recursive,
                attr_set,
            })
        },
{
    let setup = namespace_setup(plan, uid, gid);
    let start = start_of(plan, i);
    lemma_steps_of_op(plan, uid, gid, i);
    assert(setup[start + 1] == masking(plan.ops@[i]@)[1]);
    assert(setup[start + 2] == masking(plan.ops@[i]@)[2]);
    start + 2
}

/// Where the steps of the operation `i` begin in the setup.
spec fn start_of(plan: MountPlan, i: int) -> int {
    (7 + 2 * plan.clone_sources@.len() + masking_all(plan.ops@, i).len()) as int
}

/// There are two steps for each clone: the check and the clone itself.
proof fn lemma_cloning_steps(sources: Seq<Target>, n: int, s: int)
    requires
        0 <= s < n <= sources.len(),
    ensures
        cloning(sources, n).len() == 2 * n,
        cloning(sources, n)[2 * s] == (NamespaceStepView::CheckIdentity { target: sources[s]@ }),
        cloning(sources, n)[2 * s + 1] == (NamespaceStepView::CloneTree {
            slot: s,
            path: sources[s]@.path,
        }),
    decreases n,
{
    lemma_cloning_len(sources, n - 1);
    if s < n - 1 {
        lemma_cloning_steps(sources, n - 1, s);
    }
}

proof fn lemma_cloning_len(sources: Seq<Target>, n: int)
    requires
        0 <= n <= sources.len(),
    ensures
        cloning(sources, n).len() == 2 * n,
    decreases n,
{
    if n > 0 {
        lemma_cloning_len(sources, n - 1);
    }
}

/// The steps of fewer operations are the first steps of more.
proof fn lemma_masking_prefix(ops: Seq<MaskOp>, i: int, n: int)
    requires
        0 <= i < n <= ops.len(),
    ensures
        masking_all(ops, i).len() + masking(ops[i]@).len() <= masking_all(ops, n).len(),
        forall|j: int|
            0 <= j < masking(ops[i]@).len() ==> masking_all(ops, n)[masking_all(ops, i).len() + j]
                == #[trigger] masking(ops[i]@)[j],
    decreases n,
{
    if i < n - 1 {
        lemma_masking_prefix(ops, i, n - 1);
    }
}

/// The parts that the setup is made of, by their places.
proof fn lemma_setup_parts(plan: MountPlan, uid: nat, gid: nat)
    ensures
        ({
            let setup = namespace_setup(plan, uid, gid);
            let clones = cloning(plan.clone_sources@, plan.clone_sources@.len() as int);
            let masks = masking_all(plan.ops@, plan.ops@.len() as int);
            let seals = sealing(plan.seal_readonly@);
            let cloned = 7 + 2 * plan.clone_sources@.len();
            let masked = cloned + masks.len();
            let sealed = masked + seals.len();
            &&& clones.len() == 2 * plan.clone_sources@.len()
            &&& setup.len() == sealed + 5
            &&& forall|j: int| 0 <= j < 7 ==> !is_masking_step(#[trigger] setup[j])
            &&& forall|j: int| 7 <= j < cloned ==> #[trigger] setup[j] == clones[j - 7]
            &&& forall|j: int| cloned <= j < masked ==> #[trigger] setup[j] == masks[j - cloned]
            &&& forall|j: int| masked <= j < sealed ==> #[trigger] setup[j] == seals[j - masked]
            &&& forall|j: int| sealed <= j < sealed + 5 ==> !is_masking_step(#[trigger] setup[j])
        }),
{
    let setup = namespace_setup(plan, uid, gid);
    let a = entering(true, uid, gid);
    let b = seq![private_mqueue(), private_shm()];
    let c = cloning(plan.clone_sources@, plan.clone_sources@.len() as int);
    let d = masking_all(plan.ops@, plan.ops@.len() as int);
    let e = sealing(plan.seal_readonly@);
    let f = entering(false, uid, gid);
    lemma_cloning_len(plan.clone_sources@, plan.clone_sources@.len() as int);
    assert(a.len() == 5 && b.len() == 2 && f.len() == 5);
    assert forall|j: int| 0 <= j < 7 implies !is_masking_step(#[trigger] setup[j]) by {
        if j < 5 {
            assert(setup[j] == a[j]);
        } else {
            assert(setup[j] == b[j - 5]);
        }
    }
    let sealed = 7 + c.len() + d.len() + e.len();
    assert forall|j: int| sealed <= j < sealed + 5 implies !is_masking_step(
        #[trigger] setup[j],
    ) by {
        assert(setup[j] == f[j - sealed]);
    }
}

/// The steps of the operation `i`, by their places in the setup.
proof fn lemma_steps_of_op(plan: MountPlan, uid: nat, gid: nat, i: int)
    requires
        0 <= i < plan.ops@.len(),
    ensures
        start_of(plan, i) >= 7 + 2 * plan.clone_sources@.len(),
        start_of(plan, i) + masking(plan.ops@[i]@).len() == start_of(plan, i + 1),
        start_of(plan, i + 1) <= namespace_setup(plan, uid, gid).len() - 5,
        forall|j: int|
            0 <= j < masking(plan.ops@[i]@).len() ==> namespace_setup(plan, uid, gid)[start_of(
                plan,
                i,
            ) + j] == #[trigger] masking(plan.ops@[i]@)[j],
{
    lemma_setup_parts(plan, uid, gid);
    lemma_masking_prefix(plan.ops@, i, plan.ops@.len() as int);
}

/// Steps that do not mask change nothing.
proof fn lemma_nothing_masked(
    steps: Seq<NamespaceStepView>,
    from: int,
    n: int,
    path: Seq<Seq<u8>>,
)
    requires
        0 <= from <= n <= steps.len(),
        forall|j: int| from <= j < n ==> !is_masking_step(#[trigger] steps[j]),
    ensures
        state_after(steps, n, path) == state_after(steps, from, path),
    decreases n - from,
{
    if n > from {
        lemma_nothing_masked(steps, from, n - 1, path);
        assert(!is_masking_step(steps[n - 1]));
    }
}

/// A slot that is filled once is filled by the step that fills it.
proof fn lemma_filled_by(steps: Seq<NamespaceStepView>, at: int, n: int, slot: int)
    requires
        0 <= at < n <= steps.len(),
        steps[at] is CloneTree,
        steps[at]->CloneTree_slot == slot,
        forall|j: int|
            at < j < n ==> !((#[trigger] steps[j]) is CloneTree && steps[j]->CloneTree_slot
                == slot),
    ensures
        filled_by(steps, n, slot) == Some(at),
    decreases n,
{
    if n > at + 1 {
        lemma_filled_by(steps, at, n - 1, slot);
    }
}

/// Before the masks nothing is taken away, and each slot holds the tree of its
/// source.
proof fn lemma_clones_are_clear(plan: MountPlan, uid: nat, gid: nat, n: int, path: Seq<Seq<u8>>)
    requires
        0 <= n <= 7 + 2 * plan.clone_sources@.len(),
    ensures
        state_after(namespace_setup(plan, uid, gid), n, path) == (PathState {
            mount: None,
            mask: Mask::clear(),
        }),
{
    let setup = namespace_setup(plan, uid, gid);
    lemma_setup_parts(plan, uid, gid);
    lemma_cloning_does_not_mask(plan.clone_sources@, plan.clone_sources@.len() as int);
    let clones = cloning(plan.clone_sources@, plan.clone_sources@.len() as int);
    assert forall|j: int| 0 <= j < n implies !is_masking_step(#[trigger] setup[j]) by {
        if j >= 7 {
            assert(setup[j] == clones[j - 7]);
        }
    }
    lemma_nothing_masked(setup, 0, n, path);
}

/// While masks are made, each slot is the one that its source filled.
proof fn lemma_slots_are_filled(plan: MountPlan, uid: nat, gid: nat, s: int, n: int)
    requires
        0 <= s < plan.clone_sources@.len(),
        7 + 2 * plan.clone_sources@.len() <= n <= start_of(plan, plan.ops@.len() as int),
    ensures
        filled_by(namespace_setup(plan, uid, gid), n, s) == Some(8 + 2 * s),
        namespace_setup(plan, uid, gid)[8 + 2 * s] == (NamespaceStepView::CloneTree {
            slot: s,
            path: plan.clone_sources@[s]@.path,
        }),
{
    let setup = namespace_setup(plan, uid, gid);
    let sources = plan.clone_sources@;
    let all = sources.len() as int;
    let clones = cloning(sources, all);
    let masks = masking_all(plan.ops@, plan.ops@.len() as int);
    let cloned = 7 + 2 * all;
    lemma_setup_parts(plan, uid, gid);
    lemma_cloning_steps(sources, all, s);
    lemma_masking_does_not_clone(plan.ops@, plan.ops@.len() as int);
    assert(setup[8 + 2 * s] == clones[2 * s + 1]);
    assert forall|j: int| 8 + 2 * s < j < n implies !((#[trigger] setup[j]) is CloneTree
        && setup[j]->CloneTree_slot == s) by {
        if j < cloned {
            let t = (j - 7) / 2;
            lemma_cloning_steps(sources, all, t);
            assert(j - 7 == 2 * t || j - 7 == 2 * t + 1);
            assert(setup[j] == clones[j - 7]);
        } else {
            assert(setup[j] == masks[j - cloned]);
        }
    }
    lemma_filled_by(setup, 8 + 2 * s, n, s);
}

/// Whether an operation makes a mount.
pub open spec fn makes_mount(op: MaskOpView) -> bool {
    !(op is SkeletonDir) && !(op is SkeletonFile)
}

/// Where the mount that serves `path` after the first `n` operations is attached.
spec fn mount_after_ops(ops: Seq<MaskOpView>, n: int, path: Seq<Seq<u8>>) -> Option<Seq<Seq<u8>>>
    decreases n,
{
    if n <= 0 {
        None
    } else if makes_mount(ops[n - 1]) && ops[n - 1].path().is_prefix_of(path) {
        Some(ops[n - 1].path())
    } else {
        mount_after_ops(ops, n - 1, path)
    }
}

/// Whether a path is where the operations leave it: what its mask takes away is the
/// same.
spec fn agrees(state: PathState, ops: Seq<MaskOpView>, n: int, path: Seq<Seq<u8>>) -> bool {
    let mask = mask_after_ops(ops, n, path);
    &&& state.mount == mount_after_ops(ops, n, path)
    &&& state.mask.hide_root == mask.hide_root
    &&& mask.hide_root is None ==> state.mask.stripped == mask.stripped
}

/// What serves a path lies above it, and is no deeper than the last operation.
proof fn lemma_mount_is_above(ops: Seq<MaskOpView>, n: int, path: Seq<Seq<u8>>, depth: nat)
    requires
        0 <= n <= ops.len(),
        forall|j: int| 0 <= j < n ==> (#[trigger] ops[j]).path().len() <= depth,
        mount_after_ops(ops, n, path) is Some,
    ensures
        mount_after_ops(ops, n, path)->0.is_prefix_of(path),
        mount_after_ops(ops, n, path)->0.len() <= depth,
    decreases n,
{
    if !(makes_mount(ops[n - 1]) && ops[n - 1].path().is_prefix_of(path)) {
        lemma_mount_is_above(ops, n - 1, path, depth);
    }
}

/// As long as no operation lies deeper than `root`, what lies beneath `root` fares as
/// it does.
proof fn lemma_beneath_fares_alike(
    ops: Seq<MaskOpView>,
    n: int,
    root: Seq<Seq<u8>>,
    path: Seq<Seq<u8>>,
)
    requires
        0 <= n <= ops.len(),
        root.is_prefix_of(path),
        forall|j: int| 0 <= j < n ==> (#[trigger] ops[j]).path().len() <= root.len(),
    ensures
        mask_after_ops(ops, n, path) == mask_after_ops(ops, n, root),
    decreases n,
{
    if n > 0 {
        lemma_beneath_fares_alike(ops, n - 1, root, path);
        let above = ops[n - 1].path();
        assert(above.is_prefix_of(path) <==> above.is_prefix_of(root)) by {
            if above.is_prefix_of(root) {
                lemma_prefix_transitive(above, root, path);
            }
            if above.is_prefix_of(path) {
                lemma_shorter_prefix(above, root, path);
            }
        }
    }
}

/// Of two paths above a third, the shorter is above the longer.
proof fn lemma_shorter_prefix(a: Seq<Seq<u8>>, b: Seq<Seq<u8>>, path: Seq<Seq<u8>>)
    requires
        a.is_prefix_of(path),
        b.is_prefix_of(path),
        a.len() <= b.len(),
    ensures
        a.is_prefix_of(b),
{
    assert(a =~= b.subrange(0, a.len() as int)) by {
        assert forall|i: int| 0 <= i < a.len() implies a[i] == b[i] by {
            assert(a[i] == path.subrange(0, a.len() as int)[i]);
            assert(b[i] == path.subrange(0, b.len() as int)[i]);
        }
    }
}

/// The steps of one operation do to `path` what the operation does.
proof fn lemma_op_is_performed(
    rules: Seq<NormalizedRule>,
    pins: Seq<Pin>,
    plan: MountPlan,
    uid: nat,
    gid: nat,
    i: int,
    path: Seq<Seq<u8>>,
)
    requires
        is_plan(rules, pins, plan),
        0 <= i < plan.ops@.len(),
        ({
            let setup = namespace_setup(plan, uid, gid);
            let ops = op_views(plan.ops@);
            let start = start_of(plan, i);
            &&& agrees(state_after(setup, start, path), ops, i, path)
            &&& agrees(state_after(setup, start, ops[i].path()), ops, i, ops[i].path())
        }),
    ensures
        agrees(
            state_after(namespace_setup(plan, uid, gid), start_of(plan, i + 1), path),
            op_views(plan.ops@),
            i + 1,
            path,
        ),
{
    let setup = namespace_setup(plan, uid, gid);
    let ops = op_views(plan.ops@);
    let op = ops[i];
    let root = op.path();
    let start = start_of(plan, i);
    let steps = masking(op);
    assert(plan.ops@[i]@ == op);
    lemma_steps_of_op(plan, uid, gid, i);
    assert(mask_after_ops(ops, i + 1, path) == mask_after(op, path, mask_after_ops(ops, i, path)));
    assert(setup[start] == steps[0]);
    match op {
        MaskOpView::HideDir { .. } => {
            assert(setup[start + 1] == steps[1]);
            assert(state_after(setup, start + 1, path) == state_after(setup, start, path));
        },
        MaskOpView::HideFile { .. } => {
            assert(setup[start + 1] == steps[1]);
            assert(state_after(setup, start + 1, path) == state_after(setup, start, path));
        },
        MaskOpView::SkeletonDir { .. } => {},
        MaskOpView::SkeletonFile { .. } => {},
        MaskOpView::Attach { slot, path: at } => {
            law_attachments_use_their_clone(rules, pins, plan, i);
            lemma_masking_len(plan.ops@, i, plan.ops@.len() as int);
            lemma_slots_are_filled(plan, uid, gid, slot, start);
            lemma_clones_are_clear(plan, uid, gid, 8 + 2 * slot, path);
        },
        MaskOpView::Restrict { target, attr_set, recursive } => {
            assert(setup[start + 1] == steps[1]);
            assert(setup[start + 2] == steps[2]);
            assert(ops_ascending(ops));
            assert forall|j: int| 0 <= j < i implies (#[trigger] ops[j]).path().len()
                <= root.len() by {
                assert(op_lt(ops[j], ops[i]));
            }
            assert(root =~= root.subrange(0, root.len() as int));
            lemma_bind_is_performed(setup, start, ops, i, root);
            lemma_bind_is_performed(setup, start, ops, i, path);
            if !root.is_prefix_of(path) {
                let mount = mount_after_ops(ops, i, path);
                if mount is Some {
                    lemma_mount_is_above(ops, i, path, root.len());
                    if root.is_prefix_of(mount->0) {
                        lemma_prefix_transitive(root, mount->0, path);
                    }
                }
            }
        },
    }
}

/// The first two steps of a restriction take nothing away, and leave a mount at its
/// path that serves all that lies beneath.
proof fn lemma_bind_is_performed(
    setup: Seq<NamespaceStepView>,
    start: int,
    ops: Seq<MaskOpView>,
    i: int,
    path: Seq<Seq<u8>>,
)
    requires
        0 <= start,
        start + 2 <= setup.len(),
        0 <= i < ops.len(),
        ops[i] is Restrict,
        setup[start] is CheckIdentity,
        setup[start + 1] == (NamespaceStepView::BindSelf {
            path: ops[i].path(),
            recursive: ops[i]->Restrict_recursive,
        }),
        forall|j: int| 0 <= j < i ==> (#[trigger] ops[j]).path().len() <= ops[i].path().len(),
        agrees(state_after(setup, start, path), ops, i, path),
        agrees(state_after(setup, start, ops[i].path()), ops, i, ops[i].path()),
    ensures
        ({
            let state = state_after(setup, start + 2, path);
            let mask = mask_after_ops(ops, i, path);
            &&& state.mount == (if ops[i].path().is_prefix_of(path) {
                Some(ops[i].path())
            } else {
                mount_after_ops(ops, i, path)
            })
            &&& state.mask.hide_root == mask.hide_root
            &&& mask.hide_root is None ==> state.mask.stripped == mask.stripped
        }),
{
    let root = ops[i].path();
    assert(state_after(setup, start + 1, path) == state_after(setup, start, path));
    assert(state_after(setup, start + 1, root) == state_after(setup, start, root));
    if root.is_prefix_of(path) {
        lemma_beneath_fares_alike(ops, i, root, path);
        let mount = mount_after_ops(ops, i, path);
        if mount is Some {
            lemma_mount_is_above(ops, i, path, root.len());
            if root.is_prefix_of(mount->0) {
                assert(root =~= mount->0);
            }
        }
    }
}

/// The steps of fewer operations are no more than those of all.
proof fn lemma_masking_len(ops: Seq<MaskOp>, i: int, n: int)
    requires
        0 <= i <= n <= ops.len(),
    ensures
        masking_all(ops, i).len() <= masking_all(ops, n).len(),
    decreases n,
{
    if i < n {
        lemma_masking_len(ops, i, n - 1);
    }
}

/// The steps of the first `i` operations do to `path` what the operations do.
proof fn lemma_ops_are_performed(
    rules: Seq<NormalizedRule>,
    pins: Seq<Pin>,
    plan: MountPlan,
    uid: nat,
    gid: nat,
    i: int,
    path: Seq<Seq<u8>>,
)
    requires
        is_plan(rules, pins, plan),
        0 <= i <= plan.ops@.len(),
    ensures
        agrees(
            state_after(namespace_setup(plan, uid, gid), start_of(plan, i), path),
            op_views(plan.ops@),
            i,
            path,
        ),
    decreases i,
{
    if i == 0 {
        lemma_clones_are_clear(plan, uid, gid, 7 + 2 * plan.clone_sources@.len() as int, path);
    } else {
        let root = op_views(plan.ops@)[i - 1].path();
        lemma_ops_are_performed(rules, pins, plan, uid, gid, i - 1, path);
        lemma_ops_are_performed(rules, pins, plan, uid, gid, i - 1, root);
        lemma_op_is_performed(rules, pins, plan, uid, gid, i - 1, path);
    }
}

/// Whatever serves a path was made by an operation at that place. If that operation
/// hides, the path is hidden.
proof fn lemma_mount_was_made(ops: Seq<MaskOpView>, n: int, path: Seq<Seq<u8>>) -> (at: int)
    requires
        0 <= n <= ops.len(),
        mount_after_ops(ops, n, path) is Some,
    ensures
        0 <= at < n,
        makes_mount(ops[at]),
        mount_after_ops(ops, n, path) == Some(ops[at].path()),
        ops[at] is HideDir || ops[at] is HideFile ==> mask_after_ops(ops, n, path).hide_root
            is Some,
    decreases n,
{
    if makes_mount(ops[n - 1]) && ops[n - 1].path().is_prefix_of(path) {
        n - 1
    } else {
        lemma_mount_was_made(ops, n - 1, path)
    }
}

/// What a sealed directory serves is hidden.
proof fn lemma_sealed_is_hidden(
    rules: Seq<NormalizedRule>,
    pins: Seq<Pin>,
    plan: MountPlan,
    sealed: Seq<Seq<u8>>,
    path: Seq<Seq<u8>>,
)
    requires
        pins_match(rules, pins),
        is_expressible(rules),
        is_plan(rules, pins, plan),
        is_sealed(rules, pins, sealed),
        mount_after_ops(op_views(plan.ops@), plan.ops@.len() as int, path) == Some(sealed),
    ensures
        mask_after_ops(op_views(plan.ops@), plan.ops@.len() as int, path).hide_root is Some,
{
    let ops = op_views(plan.ops@);
    let at = lemma_mount_was_made(ops, ops.len() as int, path);
    let op = ops[at];
    let k = choose|k: int| 0 <= k < pins.len() && #[trigger] seals(rules, pins, k, sealed);
    lemma_hide_root_is_at_or_above(rules, pins[k].path@.drop_last());
    assert(is_rule_path(rules, sealed) && residual_at(rules, sealed).read);
    assert(!is_inexpressible(rules, sealed));
    assert(ops.contains(op));
    assert(is_planned(rules, pins, op));
    let own = choose|own: int| 0 <= own < pins.len() && #[trigger] needs_op(rules, pins, own, op);
    assert(pins[own].path@ == sealed);
    if op is Attach {
        lemma_hidden_is_not_attached(rules, sealed);
    }
}

/// A path that is hidden for itself is not attached again.
proof fn lemma_hidden_is_not_attached(rules: Seq<NormalizedRule>, path: Seq<Seq<u8>>)
    requires
        is_rule_path(rules, path),
        !is_inexpressible(rules, path),
        residual_at(rules, path).read,
    ensures
        !is_attached(rules, path),
{
    if is_attached(rules, path) {
        assert(crate::linux::masks::denied_at(rules, path).read);
        if mask_above(rules, path).hide_root is Some {
            assert(crate::linux::masks::reexposes_read(rules, path));
        } else {
            assert(crate::linux::masks::hides_allowed(rules, path));
        }
    }
}

/// Sealing takes nothing away that was not hidden.
proof fn lemma_seals_take_nothing(
    rules: Seq<NormalizedRule>,
    pins: Seq<Pin>,
    plan: MountPlan,
    uid: nat,
    gid: nat,
    n: int,
    path: Seq<Seq<u8>>,
)
    requires
        pins_match(rules, pins),
        is_expressible(rules),
        is_plan(rules, pins, plan),
        0 <= n <= plan.seal_readonly@.len(),
    ensures
        agrees(
            state_after(
                namespace_setup(plan, uid, gid),
                start_of(plan, plan.ops@.len() as int) + n,
                path,
            ),
            op_views(plan.ops@),
            plan.ops@.len() as int,
            path,
        ),
    decreases n,
{
    let setup = namespace_setup(plan, uid, gid);
    let ops = op_views(plan.ops@);
    let all = plan.ops@.len() as int;
    let masked = start_of(plan, all);
    if n == 0 {
        lemma_ops_are_performed(rules, pins, plan, uid, gid, all, path);
    } else {
        lemma_seals_take_nothing(rules, pins, plan, uid, gid, n - 1, path);
        lemma_setup_parts(plan, uid, gid);
        let sealed = plan.seal_readonly@[n - 1]@;
        let seals = sealing(plan.seal_readonly@);
        assert(setup[masked + n - 1] == seals[n - 1]);
        let wanted = |p: Seq<Seq<u8>>| is_sealed(rules, pins, p);
        assert(lists(views(plan.seal_readonly@), wanted));
        assert(views(plan.seal_readonly@)[n - 1] == sealed);
        assert(views(plan.seal_readonly@).contains(sealed));
        assert(wanted(sealed));
        if mount_after_ops(ops, all, path) == Some(sealed) {
            lemma_sealed_is_hidden(rules, pins, plan, sealed, path);
        }
    }
}

/// The whole setup leaves the mask that the operations of the plan stand for.
proof fn lemma_setup_makes_the_mask(
    rules: Seq<NormalizedRule>,
    pins: Seq<Pin>,
    plan: MountPlan,
    uid: nat,
    gid: nat,
    path: Seq<Seq<u8>>,
)
    requires
        pins_match(rules, pins),
        is_expressible(rules),
        is_plan(rules, pins, plan),
    ensures
        ({
            let setup = namespace_setup(plan, uid, gid);
            let ops = op_views(plan.ops@);
            state_after(setup, setup.len() as int, path).mask.blocked() == mask_after_ops(
                ops,
                ops.len() as int,
                path,
            ).blocked()
        }),
{
    let setup = namespace_setup(plan, uid, gid);
    let sealed = plan.seal_readonly@.len() as int;
    let all = plan.ops@.len() as int;
    lemma_seals_take_nothing(rules, pins, plan, uid, gid, sealed, path);
    lemma_setup_parts(plan, uid, gid);
    lemma_nothing_masked(setup, start_of(plan, all) + sealed, setup.len() as int, path);
}

/// Every directory that is hidden is covered by a file system that takes no writes in
/// the end: it is mounted read-only (bit 0 of the flags), or it is made read-only (bit 0
/// of the attributes), without what is attached inside, once its contents are there. It
/// can be traversed exactly where something is attached inside.
pub proof fn law_hidden_directories_take_no_writes(
    rules: Seq<NormalizedRule>,
    pins: Seq<Pin>,
    plan: MountPlan,
    uid: nat,
    gid: nat,
    i: int,
) -> (at: (int, int))
    requires
        is_plan(rules, pins, plan),
        0 <= i < plan.ops@.len(),
        plan.ops@[i]@ is HideDir,
    ensures
        ({
            let setup = namespace_setup(plan, uid, gid);
            let path = plan.ops@[i]@.path();
            &&& 0 <= at.0 < setup.len()
            &&& setup[at.0] matches NamespaceStepView::MountFs { at: place, fstype, flags, options, .. }
            &&& place == MountPointView::At(path)
            &&& fstype == "tmpfs"@
            &&& is_sealed(rules, pins, path) ==> options == "mode=0111"@
            &&& !is_sealed(rules, pins, path) ==> options == "mode=0"@
            &&& flags & 1 != 0 || (at.0 < at.1 < setup.len() && (setup[at.1]
                matches NamespaceStepView::SetAttributes { path: sealed, recursive, attr_set }
                && sealed == path && !recursive && attr_set & 1 != 0))
        }),
{
    let setup = namespace_setup(plan, uid, gid);
    let ops = op_views(plan.ops@);
    let op = plan.ops@[i]@;
    let path = op.path();
    let start = start_of(plan, i);
    lemma_steps_of_op(plan, uid, gid, i);
    assert(setup[start + 1] == masking(op)[1]);
    assert(ops[i] == op);
    assert(ops.contains(op));
    assert(is_planned(rules, pins, op));
    let k = choose|k: int| 0 <= k < pins.len() && #[trigger] needs_op(rules, pins, k, op);
    assert(pins[k].path@ == path);
    reveal_strlit("mode=");
    reveal_strlit("0111");
    reveal_strlit("0");
    reveal_strlit("mode=0111");
    reveal_strlit("mode=0");
    assert("mode="@ + "0111"@ =~= "mode=0111"@);
    assert("mode="@ + "0"@ =~= "mode=0"@);
    assert((2u64 | 4 | 8 | 1) & 1 != 0 && 1u64 & 1 != 0) by (bit_vector);
    if is_sealed(rules, pins, path) {
        let wanted = |p: Seq<Seq<u8>>| is_sealed(rules, pins, p);
        let sealed = views(plan.seal_readonly@);
        assert(lists(sealed, wanted));
        assert(wanted(path));
        assert(sealed.contains(path));
        let s = choose|s: int| 0 <= s < sealed.len() && sealed[s] == path;
        lemma_setup_parts(plan, uid, gid);
        lemma_masking_len(plan.ops@, i + 1, plan.ops@.len() as int);
        let masked = start_of(plan, plan.ops@.len() as int);
        assert(setup[masked + s] == sealing(plan.seal_readonly@)[s]);
        (start + 1, masked + s)
    } else {
        (start + 1, 0)
    }
}

/// Whatever is attached inside a hidden directory has somewhere to be attached: each
/// directory on the way, which can be traversed and no more, and the mount point itself
/// are made before.
pub proof fn law_mount_points_are_made(
    rules: Seq<NormalizedRule>,
    pins: Seq<Pin>,
    plan: MountPlan,
    uid: nat,
    gid: nat,
    i: int,
    dir: Seq<Seq<u8>>,
) -> (at: (int, int))
    requires
        is_plan(rules, pins, plan),
        0 <= i < plan.ops@.len(),
        plan.ops@[i]@ is Attach,
        mask_above(rules, plan.ops@[i]@.path()).hide_root matches Some(root) && root.len()
            < dir.len(),
        dir.is_prefix_of(plan.ops@[i]@.path()),
    ensures
        ({
            let setup = namespace_setup(plan, uid, gid);
            let path = plan.ops@[i]@.path();
            &&& 0 <= at.0 < at.1 < setup.len()
            &&& setup[at.0] == (NamespaceStepView::MakeDir { path: dir, mode: 0o111 }) || (dir == path
                && setup[at.0] == (NamespaceStepView::MakeFile { path, mode: 0 }))
            &&& setup[at.1] matches NamespaceStepView::AttachClone { path: attached, .. } && attached
                == path
        }),
{
    let setup = namespace_setup(plan, uid, gid);
    let ops = op_views(plan.ops@);
    let op = plan.ops@[i]@;
    let path = op.path();
    assert(ops[i] == op);
    assert(ops.contains(op));
    assert(is_planned(rules, pins, op));
    let k = choose|k: int| 0 <= k < pins.len() && #[trigger] needs_op(rules, pins, k, op);
    assert(pins[k].path@ == path && crate::linux::masks::is_reexposed(rules, path));
    if dir.len() == path.len() {
        assert(dir =~= path);
    }
    let made = if dir.len() == path.len() && !pins[k].is_dir {
        MaskOpView::SkeletonFile { path }
    } else {
        MaskOpView::SkeletonDir { path: dir }
    };
    if made is SkeletonDir {
        assert(crate::linux::plan::needs_dir(rules, pins, k, dir));
        assert(crate::linux::plan::is_skeleton_dir(rules, pins, dir));
    } else {
        assert(needs_op(rules, pins, k, made));
    }
    assert(is_planned(rules, pins, made));
    assert(ops.contains(made));
    let s = choose|s: int| 0 <= s < ops.len() && ops[s] == made;
    assert(op_lt(ops[s], ops[i]));
    if i < s {
        assert(op_lt(ops[i], ops[s]));
    }
    lemma_steps_of_op(plan, uid, gid, s);
    lemma_steps_of_op(plan, uid, gid, i);
    lemma_masking_len(plan.ops@, s + 1, i);
    assert(plan.ops@[s]@ == made);
    assert(setup[start_of(plan, s) + 0] == masking(made)[0]);
    assert(setup[start_of(plan, i) + 0] == masking(op)[0]);
    (start_of(plan, s), start_of(plan, i))
}

/// How the setup begins and ends, action by action. The first namespaces are a user, a
/// mount and an IPC namespace, with group changes denied before the one group and the
/// one user are mapped, each to itself, and with no mount passed on to the host. Private
/// file systems for message queues and for at most 64 MiB of shared memory follow at
/// once. In the end another user and mount namespace is entered in the same way.
pub proof fn law_namespaces_are_entered_at_both_ends(plan: MountPlan, uid: nat, gid: nat, j: int)
    requires
        j == 0 || j == namespace_setup(plan, uid, gid).len() - 5,
    ensures
        ({
            let setup = namespace_setup(plan, uid, gid);
            &&& setup.len() >= 12
            &&& setup[j] == (NamespaceStepView::Unshare { ipc: j == 0 })
            &&& setup[j + 1] == (NamespaceStepView::WriteFile {
                file: "/proc/self/setgroups"@,
                contents: "deny"@,
            })
            &&& setup[j + 2] == (NamespaceStepView::WriteFile {
                file: "/proc/self/gid_map"@,
                contents: decimal(gid) + " "@ + decimal(gid) + " 1\n"@,
            })
            &&& setup[j + 3] == (NamespaceStepView::WriteFile {
                file: "/proc/self/uid_map"@,
                contents: decimal(uid) + " "@ + decimal(uid) + " 1\n"@,
            })
            &&& setup[j + 4] == NamespaceStepView::MakeSlave
            &&& setup[5] matches NamespaceStepView::MountFs { at, fstype, flags, .. } && at
                == MountPointView::Fixed("/dev/mqueue"@) && fstype == "mqueue"@ && flags & 14 == 14
            &&& setup[6] matches NamespaceStepView::MountFs { at, fstype, flags, options, .. } && at
                == MountPointView::Fixed("/dev/shm"@) && fstype == "tmpfs"@ && flags & 14 == 14
                && options == "mode=1777,size=67108864"@
        }),
{
    let setup = namespace_setup(plan, uid, gid);
    lemma_setup_parts(plan, uid, gid);
    let first = entering(true, uid, gid);
    let last = entering(false, uid, gid);
    let b = seq![private_mqueue(), private_shm()];
    let start = setup.len() - 5;
    assert forall|k: int| 0 <= k < 5 implies #[trigger] setup[k] == first[k] && setup[start + k]
        == last[k] by {}
    assert(setup[0] == first[0] && setup[1] == first[1] && setup[2] == first[2] && setup[3]
        == first[3] && setup[4] == first[4]);
    assert(setup[start + 0] == last[0] && setup[start + 1] == last[1] && setup[start + 2] == last[2]
        && setup[start + 3] == last[3] && setup[start + 4] == last[4]);
    assert(setup[5] == b[0] && setup[6] == b[1]);
    assert((2u64 | 4 | 8 | 0) & 14 == 14) by (bit_vector);
}

/// Whether the plan makes a mount at `path`.
pub open spec fn is_mounted(plan: MountPlan, path: Seq<Seq<u8>>) -> bool {
    exists|i: int|
        0 <= i < plan.ops@.len() && makes_mount((#[trigger] plan.ops@[i])@) && plan.ops@[i]@.path()
            == path
}

/// Whether the confinement goes by the name of `path`: a right is granted there, or the
/// plan mounts something there.
pub open spec fn is_named(
    rules: Seq<NormalizedRule>,
    plan: MountPlan,
    path: Seq<Seq<u8>>,
) -> bool {
    is_mounted(plan, path) || exists|right: FsRight| #[trigger] is_allow_root(rules, right, path)
}

/// A policy is durable exactly where the child cannot rename anything that its
/// confinement goes by the name of: each such path, and each directory above it, is a
/// mount point or lies in a directory that the child cannot write in.
pub proof fn law_durable_paths_stay_in_place(
    rules: Seq<NormalizedRule>,
    pins: Seq<Pin>,
    plan: MountPlan,
)
    requires
        pins_match(rules, pins),
        is_expressible(rules),
        is_plan(rules, pins, plan),
    ensures
        is_durable(rules) <==> forall|path: Seq<Seq<u8>>, dir: Seq<Seq<u8>>|
            #![trigger is_named(rules, plan, path), dir.is_prefix_of(path)]
            is_named(rules, plan, path) && dir.is_prefix_of(path) && dir.len() > 0 ==> is_mounted(
                plan,
                dir,
            ) || !is_usable(rules, plan, FsRight::Write, dir.drop_last()),
{
    assert forall|path: Seq<Seq<u8>>| is_policy_path(rules, path) <==> #[trigger] is_named(
        rules,
        plan,
        path,
    ) by {
        lemma_mounts_are_planned(rules, pins, plan, path);
        if is_policy_path(rules, path) && !is_mount(rules, path) {
            assert(is_allow_root(rules, FsRight::Read, path) || is_allow_root(
                rules,
                FsRight::Write,
                path,
            ) || is_allow_root(rules, FsRight::Execute, path));
        }
    }
    assert forall|path: Seq<Seq<u8>>, dir: Seq<Seq<u8>>| #[trigger]
        relocates(rules, path, dir) <==> dir.is_prefix_of(path) && dir.len() > 0 && !is_mounted(
            plan,
            dir,
        ) && is_usable(rules, plan, FsRight::Write, dir.drop_last()) by {
        lemma_mounts_are_planned(rules, pins, plan, dir);
        law_policy_is_enforced_exactly(rules, pins, plan, FsRight::Write, dir.drop_last());
    }
    if is_durable(rules) {
        assert forall|path: Seq<Seq<u8>>, dir: Seq<Seq<u8>>|
            #![trigger is_named(rules, plan, path), dir.is_prefix_of(path)]
            is_named(rules, plan, path) && dir.is_prefix_of(path) && dir.len() > 0 implies is_mounted(
            plan,
            dir,
        ) || !is_usable(rules, plan, FsRight::Write, dir.drop_last()) by {
            assert(!relocates(rules, path, dir));
        }
    } else {
        let (path, dir) = choose|path: Seq<Seq<u8>>, dir: Seq<Seq<u8>>|
            is_policy_path(rules, path) && #[trigger] relocates(rules, path, dir);
        assert(is_named(rules, plan, path) && dir.is_prefix_of(path));
    }
}

/// The plan makes a mount at a path exactly where the policy needs one.
proof fn lemma_mounts_are_planned(
    rules: Seq<NormalizedRule>,
    pins: Seq<Pin>,
    plan: MountPlan,
    path: Seq<Seq<u8>>,
)
    requires
        pins_match(rules, pins),
        is_plan(rules, pins, plan),
    ensures
        is_mount(rules, path) <==> is_mounted(plan, path),
{
    let ops = op_views(plan.ops@);
    let paths = pin_paths(pins);
    let pinned = |p: Seq<Seq<u8>>| is_rule_path(rules, p);
    assert(paths.contains(path) <==> pinned(path));
    if is_mount(rules, path) {
        let k = choose|k: int| 0 <= k < paths.len() && paths[k] == path;
        assert(pins[k].path@ == path);
        let op = if is_attached(rules, path) {
            crate::linux::plan::attach_at(rules, pins, k)->0
        } else {
            crate::linux::plan::mask_op_at(rules, pins, k)->0
        };
        assert(needs_op(rules, pins, k, op));
        assert(is_planned(rules, pins, op));
        assert(ops.contains(op));
        let i = choose|i: int| 0 <= i < ops.len() && ops[i] == op;
        assert(plan.ops@[i]@ == op);
    }
    if is_mounted(plan, path) {
        let i = choose|i: int|
            0 <= i < plan.ops@.len() && makes_mount((#[trigger] plan.ops@[i])@)
                && plan.ops@[i]@.path() == path;
        let op = ops[i];
        assert(op == plan.ops@[i]@);
        assert(ops.contains(op));
        assert(is_planned(rules, pins, op));
        let k = choose|k: int| 0 <= k < pins.len() && #[trigger] needs_op(rules, pins, k, op);
        assert(paths[k] == path);
        assert(paths.contains(path));
    }
}

/// Whether a message names `path`, between backquotes.
pub open spec fn names_path(text: Seq<char>, path: Seq<Seq<u8>>) -> bool {
    exists|at: int| #[trigger] is_at(text, "`"@ + shown(path) + "`"@, at)
}

proof fn lemma_names_path(before: Seq<char>, path: Seq<Seq<u8>>, after: Seq<char>)
    requires
        before.len() > 0,
        before.last() == '`',
        after.len() > 0,
        after[0] == '`',
    ensures
        names_path(before + shown(path) + after, path),
{
    reveal_strlit("`");
    let text = before + shown(path) + after;
    let quoted = "`"@ + shown(path) + "`"@;
    let at = before.len() - 1;
    assert(text.subrange(at, at + quoted.len()) =~= quoted);
    assert(is_at(text, quoted, at));
}

/// A filesystem policy is refused for one of two reasons only, and the message names the
/// paths: read is denied beneath a grant of it at a path of the policy where write or
/// execute stays allowed, or the child could rename something on the way to a path that
/// the confinement goes by.
pub proof fn law_policies_are_refused_for_a_reason(rules: Seq<NormalizedRule>, error: Error)
    requires
        is_refusal(rules, error),
    ensures
        error is Unsupported,
        (exists|path: Seq<Seq<u8>>| #[trigger]
            is_rule_path(rules, path) && !allows(rules, FsRight::Read, path) && is_granted(
                rules,
                FsRight::Read,
                path,
            ) && (allows(rules, FsRight::Write, path) || allows(rules, FsRight::Execute, path))
                && names_path(error->Unsupported_0@, path)) || (exists|
            path: Seq<Seq<u8>>,
            dir: Seq<Seq<u8>>,
        |
            #![trigger dir.is_prefix_of(path)]
            dir.is_prefix_of(path) && is_policy_path(rules, path) && dir.len() > 0 && allows(
                rules,
                FsRight::Write,
                dir.drop_last(),
            ) && !is_mount(rules, dir) && names_path(error->Unsupported_0@, path) && names_path(
                error->Unsupported_0@,
                dir,
            )),
{
    let text = error->Unsupported_0@;
    if exists|path: Seq<Seq<u8>>|
        is_first_inexpressible(rules, path) && is_unsupported(
            error,
            #[trigger] inexpressible_text(rules, path),
        ) {
        let path = choose|path: Seq<Seq<u8>>|
            is_first_inexpressible(rules, path) && is_unsupported(
                error,
                #[trigger] inexpressible_text(rules, path),
            );
        law_only_unreadable_uses_are_inexpressible(rules, path);
        lemma_inexpressible_text(rules, path);
        assert(is_rule_path(rules, path));
    } else {
        let (path, dir) = choose|path: Seq<Seq<u8>>, dir: Seq<Seq<u8>>|
            is_first_relocatable(rules, path, dir) && is_unsupported(
                error,
                #[trigger] not_durable_text(path, dir),
            );
        lemma_not_durable_text(path, dir);
        assert(relocates(rules, path, dir));
        assert(dir.is_prefix_of(path));
    }
}

proof fn lemma_inexpressible_text(rules: Seq<NormalizedRule>, path: Seq<Seq<u8>>)
    ensures
        names_path(inexpressible_text(rules, path), path),
{
    reveal_strlit("cannot enforce this ordered policy on Linux: `");
    reveal_strlit("cannot enforce this ordered policy on Linux: read is denied at `");
    reveal_strlit(
        "` re-allows write or execute beneath a read-denied parent, and re-exposing it would also re-expose the read access the policy denies; re-allow read on it too, or move it out of the read-denied subtree",
    );
    reveal_strlit(
        "` while write or execute stays allowed there, and a hidden path cannot remain writable or executable; deny write/execute on it too, or drop the read deny",
    );
    if crate::linux::masks::reexposes_read(rules, path) {
        lemma_names_path(
            "cannot enforce this ordered policy on Linux: `"@,
            path,
            "` re-allows write or execute beneath a read-denied parent, and re-exposing it would also re-expose the read access the policy denies; re-allow read on it too, or move it out of the read-denied subtree"@,
        );
    } else {
        lemma_names_path(
            "cannot enforce this ordered policy on Linux: read is denied at `"@,
            path,
            "` while write or execute stays allowed there, and a hidden path cannot remain writable or executable; deny write/execute on it too, or drop the read deny"@,
        );
    }
}

proof fn lemma_not_durable_text(path: Seq<Seq<u8>>, dir: Seq<Seq<u8>>)
    ensures
        names_path(not_durable_text(path, dir), path),
        names_path(not_durable_text(path, dir), dir),
{
    let start = "cannot enforce this ordered policy on Linux: the rule for `"@;
    let end =
        "A child can move it aside, leave a decoy at the old name, and a later run of this policy would confine the decoy instead of the real path."@;
    reveal_strlit("cannot enforce this ordered policy on Linux: the rule for `");
    reveal_strlit(
        "` is not durable, because the sandbox may rename it — write is allowed on its parent. ",
    );
    reveal_strlit("` is not durable, because the sandbox may rename `");
    reveal_strlit("` on the way to it — write is allowed on that directory's parent. ");
    let text = not_durable_text(path, dir);
    if path == dir {
        let next =
            "` is not durable, because the sandbox may rename it — write is allowed on its parent. "@;
        let rest = next + end + " Deny write on `"@ + shown(path)
            + "` too, which makes it a mount point that cannot be renamed, or keep it out of a write-allowed subtree"@;
        assert(text =~= start + shown(path) + rest);
        assert(rest[0] == next[0]);
        lemma_names_path(start, path, rest);
    } else {
        let next = "` is not durable, because the sandbox may rename `"@;
        let then = "` on the way to it — write is allowed on that directory's parent. "@;
        let tail = then + end + " Deny write on `"@ + shown(dir)
            + "` as well, which makes it a mount point that cannot be renamed, or keep `"@ + shown(
            path,
        ) + "` out of a write-allowed subtree"@;
        let rest = next + shown(dir) + tail;
        assert(text =~= start + shown(path) + rest);
        assert(rest[0] == next[0]);
        lemma_names_path(start, path, rest);
        let front = start + shown(path) + next;
        assert(text =~= front + shown(dir) + tail);
        assert(front.last() == next.last());
        assert(tail[0] == then[0]);
        lemma_names_path(front, dir, tail);
    }
}

/// Every check of an inode in the setup asks for the device and the number that the path
/// was pinned to when the policy was compiled.
pub proof fn law_checks_ask_for_the_pinned_inode(
    rules: Seq<NormalizedRule>,
    pins: Seq<Pin>,
    plan: MountPlan,
    uid: nat,
    gid: nat,
    j: int,
) -> (k: int)
    requires
        is_plan(rules, pins, plan),
        0 <= j < namespace_setup(plan, uid, gid).len(),
        namespace_setup(plan, uid, gid)[j] is CheckIdentity,
    ensures
        0 <= k < pins.len(),
        namespace_setup(plan, uid, gid)[j] matches NamespaceStepView::CheckIdentity { target }
            && target.path == pins[k].path@ && target.dev == pins[k].dev && target.ino
            == pins[k].ino,
{
    let setup = namespace_setup(plan, uid, gid);
    let sources = plan.clone_sources@;
    let all = sources.len() as int;
    let cloned = 7 + 2 * all;
    let masks = masking_all(plan.ops@, plan.ops@.len() as int);
    lemma_setup_parts(plan, uid, gid);
    let first = entering(true, uid, gid);
    let b = seq![private_mqueue(), private_shm()];
    let last = entering(false, uid, gid);
    if j < 5 {
        assert(setup[j] == first[j]);
    } else if j < 7 {
        assert(setup[j] == b[j - 5]);
    }
    if j >= setup.len() - 5 {
        assert(setup[j] == last[j - (setup.len() - 5)]);
    } else if j >= cloned + masks.len() {
        assert(setup[j] == sealing(plan.seal_readonly@)[j - cloned - masks.len()]);
    }
    if j < cloned {
        let s = (j - 7) / 2;
        lemma_cloning_steps(sources, all, s);
        assert(j - 7 == 2 * s || j - 7 == 2 * s + 1);
        assert(setup[j] == cloning(sources, all)[j - 7]);
        let attached = attached_before(rules, pins, pins.len() as int);
        lemma_attached_are_pins(rules, pins, pins.len() as int, s);
        assert(plan.clone_sources@[s]@ == target_of(pins[attached[s]]));
        attached[s]
    } else {
        assert(setup[j] == masks[j - cloned]);
        let i = lemma_checks_of_ops(plan.ops@, plan.ops@.len() as int, j - cloned);
        let op = plan.ops@[i]@;
        let ops = op_views(plan.ops@);
        assert(ops[i] == op);
        assert(ops.contains(op));
        assert(is_planned(rules, pins, op));
        let k = choose|k: int| 0 <= k < pins.len() && #[trigger] needs_op(rules, pins, k, op);
        k
    }
}

proof fn lemma_attached_are_pins(rules: Seq<NormalizedRule>, pins: Seq<Pin>, n: int, s: int)
    requires
        0 <= n <= pins.len(),
        0 <= s < attached_before(rules, pins, n).len(),
    ensures
        0 <= attached_before(rules, pins, n)[s] < n,
    decreases n,
{
    if s < attached_before(rules, pins, n - 1).len() {
        lemma_attached_are_pins(rules, pins, n - 1, s);
    }
}

/// A check among the steps of the operations is that of the target of one of them.
proof fn lemma_checks_of_ops(ops: Seq<MaskOp>, n: int, j: int) -> (i: int)
    requires
        0 <= n <= ops.len(),
        0 <= j < masking_all(ops, n).len(),
        masking_all(ops, n)[j] is CheckIdentity,
    ensures
        0 <= i < n,
        masking_all(ops, n)[j] == (NamespaceStepView::CheckIdentity {
            target: match ops[i]@ {
                MaskOpView::HideDir { target, .. } => target,
                MaskOpView::HideFile { target } => target,
                MaskOpView::Restrict { target, .. } => target,
                _ => arbitrary(),
            },
        }),
        ops[i]@ is HideDir || ops[i]@ is HideFile || ops[i]@ is Restrict,
    decreases n,
{
    let before = masking_all(ops, n - 1);
    if j < before.len() {
        lemma_checks_of_ops(ops, n - 1, j)
    } else {
        assert(masking_all(ops, n)[j] == masking(ops[n - 1]@)[j - before.len()]);
        n - 1
    }
}

/// Which path a refusal names: of the paths that the confinement goes by, in their order,
/// the first that has a movable directory at or above it, with the nearest one.
pub proof fn law_first_movable_path_is_named(
    rules: Seq<NormalizedRule>,
    path: Seq<Seq<u8>>,
    dir: Seq<Seq<u8>>,
    earlier: Seq<Seq<u8>>,
    other: Seq<Seq<u8>>,
)
    requires
        is_first_relocatable(rules, path, dir),
        is_policy_path(rules, earlier),
        other.is_prefix_of(earlier),
        other.len() > 0,
        allows(rules, FsRight::Write, other.drop_last()),
        !is_mount(rules, other),
    ensures
        !path_lt(earlier, path),
        earlier == path ==> other.len() <= dir.len(),
        is_policy_path(rules, path),
        dir.is_prefix_of(path),
        dir.len() > 0,
        allows(rules, FsRight::Write, dir.drop_last()),
        !is_mount(rules, dir),
{
    assert(relocates(rules, earlier, other));
    assert(relocates(rules, path, dir));
}

/// Of the paths that have no faithful encoding, a refusal names the first.
pub proof fn law_first_inexpressible_path_is_named(
    rules: Seq<NormalizedRule>,
    path: Seq<Seq<u8>>,
    other: Seq<Seq<u8>>,
)
    requires
        is_first_inexpressible(rules, path),
        is_rule_path(rules, other),
        !allows(rules, FsRight::Read, other),
        is_granted(rules, FsRight::Read, other),
        allows(rules, FsRight::Write, other) || allows(rules, FsRight::Execute, other),
    ensures
        !path_lt(other, path),
        is_rule_path(rules, path),
{
    law_only_unreadable_uses_are_inexpressible(rules, other);
}

/// No mount of a plan is superfluous. A clone is attached only where a right is allowed
/// that the mounts above take away. A path is masked only for rights that are denied
/// beneath a grant and that nothing above takes away already, or that a clone attached
/// there brings back; a restriction takes no other right.
pub proof fn law_no_mount_is_superfluous(
    rules: Seq<NormalizedRule>,
    pins: Seq<Pin>,
    plan: MountPlan,
    i: int,
    right: FsRight,
)
    requires
        is_plan(rules, pins, plan),
        0 <= i < plan.ops@.len(),
    ensures
        ({
            let op = plan.ops@[i]@;
            let path = op.path();
            let above = mask_above(rules, path).blocked();
            let brought_back = exists|other: FsRight| #[trigger]
                allows(rules, other, path) && above.has(other);
            &&& op is Attach ==> brought_back
            &&& op is HideDir || op is HideFile ==> !allows(rules, FsRight::Read, path) && is_granted(
                rules,
                FsRight::Read,
                path,
            ) && (brought_back || !above.read)
            &&& op matches MaskOpView::Restrict { attr_set, .. } ==> {
                &&& attr_set != 0
                &&& taken_by(attr_set).has(right) ==> !allows(rules, right, path) && is_granted(
                    rules,
                    right,
                    path,
                ) && (brought_back || !above.has(right))
            }
        }),
{
    let ops = op_views(plan.ops@);
    let op = plan.ops@[i]@;
    let path = op.path();
    let above = mask_above(rules, path).blocked();
    assert(ops[i] == op);
    assert(ops.contains(op));
    assert(is_planned(rules, pins, op));
    if makes_mount(op) {
        let k = choose|k: int| 0 <= k < pins.len() && #[trigger] needs_op(rules, pins, k, op);
        assert(pins[k].path@ == path);
        if is_attached(rules, path) {
            assert(allows(rules, FsRight::Read, path) && above.has(FsRight::Read) || allows(
                rules,
                FsRight::Write,
                path,
            ) && above.has(FsRight::Write) || allows(rules, FsRight::Execute, path) && above.has(
                FsRight::Execute,
            ));
        }
        assert(0u64 & 1 == 0 && 0u64 & 8 == 0 && 1u64 & 8 == 0 && 8u64 & 1 == 0) by (bit_vector);
    }
}

} // verus!
