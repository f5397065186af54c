//! Refusing policies whose paths the sandbox could relocate.
//!
//! Masks and grants are bound to inodes, not names, so within one sandbox a
//! rename changes nothing. But the rename outlives the process: a child can
//! move a directory aside, leave a decoy at the old name, and a later run would
//! compile the same policy against the rewritten tree. So a policy path must
//! stay where it is: neither it nor any directory above it may be renamed by the
//! sandbox, which holds when each is either a mount point of the plan or sits
//! where the policy grants no write on its parent.
use crate::error::{is_unsupported, Error};
use crate::linux::masks::{
    decisions_match, grants_match, is_attached, pin_paths, pins_match, residual_at, show, shown,
    Decision, Grants, Pin,
};
use crate::linux::rules::{
    allows, contains_path, final_effect, insert_path, is_allow_root, is_rule_path, lists, views,
    NormalizedRule,
};
use crate::order::{lemma_path_lt_asymmetric, path_lt, paths_ascending};
use crate::path::CanonicalPath;
use crate::policy::{FsRight, RuleEffect};
use vstd::prelude::*;

verus! {

/// Whether the plan installs a mount at `path`. Renaming a mount point fails
/// with `EBUSY`.
pub open spec fn is_mount(rules: Seq<NormalizedRule>, path: Seq<Seq<u8>>) -> bool {
    is_rule_path(rules, path) && (is_attached(rules, path) || residual_at(rules, path).any())
}

/// Whether the sandbox could rename `dir` for want of a mount: write is finally
/// allowed one level up.
pub open spec fn is_renameable(rules: Seq<NormalizedRule>, dir: Seq<Seq<u8>>) -> bool {
    dir.len() > 0 && allows(rules, FsRight::Write, dir.drop_last())
}

/// Whether the sandbox can move `dir`.
pub open spec fn is_movable(rules: Seq<NormalizedRule>, dir: Seq<Seq<u8>>) -> bool {
    !is_mount(rules, dir) && is_renameable(rules, dir)
}

/// Whether the policy identifies `path` by name: a grant root or a mount.
pub open spec fn is_policy_path(rules: Seq<NormalizedRule>, path: Seq<Seq<u8>>) -> bool {
    ||| is_allow_root(rules, FsRight::Read, path)
    ||| is_allow_root(rules, FsRight::Write, path)
    ||| is_allow_root(rules, FsRight::Execute, path)
    ||| is_mount(rules, path)
}

/// Whether moving `dir` would relocate `path`.
pub open spec fn relocates(
    rules: Seq<NormalizedRule>,
    path: Seq<Seq<u8>>,
    dir: Seq<Seq<u8>>,
) -> bool {
    dir.is_prefix_of(path) && is_movable(rules, dir)
}

/// Whether nothing that the policy identifies by name can be moved.
pub open spec fn is_durable(rules: Seq<NormalizedRule>) -> bool {
    forall|path: Seq<Seq<u8>>, dir: Seq<Seq<u8>>|
        is_policy_path(rules, path) ==> !#[trigger] relocates(rules, path, dir)
}

/// The first policy path that can be relocated, with the nearest directory on
/// the way to it that can be moved.
pub open spec fn is_first_relocatable(
    rules: Seq<NormalizedRule>,
    path: Seq<Seq<u8>>,
    dir: Seq<Seq<u8>>,
) -> bool {
    &&& is_policy_path(rules, path)
    &&& relocates(rules, path, dir)
    &&& forall|other: Seq<Seq<u8>>| #[trigger]
        relocates(rules, path, other) ==> other.len() <= dir.len()
    &&& forall|earlier: Seq<Seq<u8>>, other: Seq<Seq<u8>>|
        is_policy_path(rules, earlier) && path_lt(earlier, path) ==> !#[trigger] relocates(
            rules,
            earlier,
            other,
        )
}

/// Why a policy path that can be relocated is refused.
pub open spec fn not_durable_text(path: Seq<Seq<u8>>, dir: Seq<Seq<u8>>) -> Seq<char> {
    if path == dir {
        "cannot enforce this ordered policy on Linux: the rule for `"@ + shown(path)
            + "` is not durable, because the sandbox may rename it — write is allowed on its parent. "@
            + "A child can move it aside, leave a decoy at the old name, and a later run of this policy would confine the decoy instead of the real path."@
            + " Deny write on `"@ + shown(path)
            + "` too, which makes it a mount point that cannot be renamed, or keep it out of a write-allowed subtree"@
    } else {
        "cannot enforce this ordered policy on Linux: the rule for `"@ + shown(path)
            + "` is not durable, because the sandbox may rename `"@ + shown(dir)
            + "` on the way to it — write is allowed on that directory's parent. "@
            + "A child can move it aside, leave a decoy at the old name, and a later run of this policy would confine the decoy instead of the real path."@
            + " Deny write on `"@ + shown(dir)
            + "` as well, which makes it a mount point that cannot be renamed, or keep `"@ + shown(
            path,
        ) + "` out of a write-allowed subtree"@
    }
}

/// The refusal of a policy path that can be relocated, phrased for whether the
/// movable directory is the rule path itself or one above it.
fn not_durable(path: &CanonicalPath, dir: &CanonicalPath) -> (text: String)
    ensures
        text@ == not_durable_text(path@, dir@),
{
    let mut text = String::from_str("cannot enforce this ordered policy on Linux: the rule for `");
    text.append(show(path).as_str());
    if path.same(dir) {
        text.append(
            "` is not durable, because the sandbox may rename it — write is allowed on its parent. ",
        );
        text.append(
            "A child can move it aside, leave a decoy at the old name, and a later run of this policy would confine the decoy instead of the real path.",
        );
        text.append(" Deny write on `");
        text.append(show(path).as_str());
        text.append(
            "` too, which makes it a mount point that cannot be renamed, or keep it out of a write-allowed subtree",
        );
    } else {
        text.append("` is not durable, because the sandbox may rename `");
        text.append(show(dir).as_str());
        text.append("` on the way to it — write is allowed on that directory's parent. ");
        text.append(
            "A child can move it aside, leave a decoy at the old name, and a later run of this policy would confine the decoy instead of the real path.",
        );
        text.append(" Deny write on `");
        text.append(show(dir).as_str());
        text.append(
            "` as well, which makes it a mount point that cannot be renamed, or keep `",
        );
        text.append(show(path).as_str());
        text.append("` out of a write-allowed subtree");
    }
    text
}

/// Whether the sandbox could rename `dir`. `rename(2)` is mediated by
/// Landlock's `Refer` right on the *parent* directory, which every write grant
/// carries, so a directory is movable exactly when write is finally allowed one
/// level up.
fn renameable_by_the_sandbox(rules: &Vec<NormalizedRule>, dir: &CanonicalPath) -> (yes: bool)
    ensures
        yes == is_renameable(rules@, dir@),
{
    match dir.parent() {
        Some(parent) => final_effect(rules, FsRight::Write, &parent) == RuleEffect::Allow,
        None => false,
    }
}

/// The paths where the plan installs a mount.
fn mounted_paths(
    Ghost(rules): Ghost<Seq<NormalizedRule>>,
    pins: &Vec<Pin>,
    decisions: &Vec<Decision>,
) -> (mounted: Vec<CanonicalPath>)
    requires
        pins_match(rules, pins@),
        decisions@.len() == pins@.len(),
        decisions_match(rules, pins@, decisions@),
    ensures
        lists(views(mounted@), |path: Seq<Seq<u8>>| is_mount(rules, path)),
{
    let ghost paths = pin_paths(pins@);
    let ghost pinned = |path: Seq<Seq<u8>>| is_rule_path(rules, path);
    let mut mounted: Vec<CanonicalPath> = Vec::new();
    let mut i: usize = 0;
    assert(views(mounted@) =~= seq![]);
    while i < pins.len()
        invariant
            i <= pins@.len(),
            paths == pin_paths(pins@),
            pinned == (|path: Seq<Seq<u8>>| is_rule_path(rules, path)),
            pins_match(rules, pins@),
            decisions@.len() == pins@.len(),
            decisions_match(rules, pins@, decisions@),
            paths_ascending(views(mounted@)),
            forall|path: Seq<Seq<u8>>| #[trigger]
                views(mounted@).contains(path) <==> exists|k: int|
                    0 <= k < i && #[trigger] paths[k] == path && is_mount(rules, path),
        decreases pins.len() - i,
    {
        let decision = decisions[i];
        let ghost before = views(mounted@);
        let ghost path = pins@[i as int].path@;
        proof {
            assert(paths[i as int] == path);
            assert(paths.contains(path));
            assert(pinned(path));
            assert(is_mount(rules, path) == (decision.attached || decision.residual.any()));
        }
        if decision.attached || decision.residual.read || decision.residual.write
            || decision.residual.execute {
            insert_path(&mut mounted, pins[i].path.clone());
        }
        proof {
            assert forall|p: Seq<Seq<u8>>| #[trigger]
                views(mounted@).contains(p) <==> exists|k: int|
                    0 <= k < i + 1 && #[trigger] paths[k] == p && is_mount(rules, p) by {
                assert(before.contains(p) ==> views(mounted@).contains(p));
                if exists|k: int| 0 <= k < i + 1 && #[trigger] paths[k] == p && is_mount(rules, p) {
                    let k = choose|k: int|
                        0 <= k < i + 1 && #[trigger] paths[k] == p && is_mount(rules, p);
                    if k < i {
                        assert(before.contains(p));
                    }
                }
                if views(mounted@).contains(p) {
                    if before.contains(p) {
                        let k = choose|k: int|
                            0 <= k < i && #[trigger] paths[k] == p && is_mount(rules, p);
                        assert(paths[k] == p);
                    } else {
                        assert(paths[i as int] == p);
                    }
                }
            }
        }
        i += 1;
    }
    assert forall|p: Seq<Seq<u8>>| #[trigger] views(mounted@).contains(p) <==> is_mount(
        rules,
        p,
    ) by {
        if is_mount(rules, p) {
            assert(pinned(p));
            assert(paths.contains(p));
            let k = choose|k: int| 0 <= k < paths.len() && paths[k] == p;
            assert(paths[k] == p);
        }
    }
    mounted
}

/// Adds every path of `more` to an ascending list.
fn insert_all(paths: &mut Vec<CanonicalPath>, more: &Vec<CanonicalPath>)
    requires
        paths_ascending(views(old(paths)@)),
    ensures
        paths_ascending(views(final(paths)@)),
        forall|p: Seq<Seq<u8>>| #[trigger]
            views(final(paths)@).contains(p) <==> views(old(paths)@).contains(p) || views(
                more@,
            ).contains(p),
{
    let ghost start = views(paths@);
    let ghost all = views(more@);
    let mut i: usize = 0;
    while i < more.len()
        invariant
            i <= more@.len(),
            all == views(more@),
            start == views(old(paths)@),
            paths_ascending(views(paths@)),
            forall|p: Seq<Seq<u8>>| #[trigger]
                views(paths@).contains(p) <==> start.contains(p) || exists|k: int|
                    0 <= k < i && #[trigger] all[k] == p,
        decreases more.len() - i,
    {
        let ghost before = views(paths@);
        insert_path(paths, more[i].clone());
        proof {
            assert(all[i as int] == more@[i as int]@);
            assert forall|p: Seq<Seq<u8>>| #[trigger]
                views(paths@).contains(p) <==> start.contains(p) || exists|k: int|
                    0 <= k < i + 1 && #[trigger] all[k] == p by {
                assert(before.contains(p) ==> views(paths@).contains(p));
            }
        }
        i += 1;
    }
}

/// Refuses policies whose paths the sandbox could relocate.
pub(crate) fn reject_relocatable_policy_paths(
    rules: &Vec<NormalizedRule>,
    pins: &Vec<Pin>,
    decisions: &Vec<Decision>,
    grants: &Grants,
) -> (result: Result<(), Error>)
    requires
        pins_match(rules@, pins@),
        grants_match(rules@, *grants),
        decisions@.len() == pins@.len(),
        decisions_match(rules@, pins@, decisions@),
    ensures
        match result {
            Ok(_) => is_durable(rules@),
            Err(error) => exists|path: Seq<Seq<u8>>, dir: Seq<Seq<u8>>|
                is_first_relocatable(rules@, path, dir) && is_unsupported(
                    error,
                    #[trigger] not_durable_text(path, dir),
                ),
        },
{
    let mounted = mounted_paths(Ghost(rules@), pins, decisions);
    let mut policy_paths: Vec<CanonicalPath> = Vec::new();
    assert(views(policy_paths@) =~= seq![]);
    insert_all(&mut policy_paths, &grants.read);
    insert_all(&mut policy_paths, &grants.write);
    insert_all(&mut policy_paths, &grants.execute);
    insert_all(&mut policy_paths, &mounted);
    let ghost all = views(policy_paths@);
    proof {
        let read = |path: Seq<Seq<u8>>| is_allow_root(rules@, FsRight::Read, path);
        let write = |path: Seq<Seq<u8>>| is_allow_root(rules@, FsRight::Write, path);
        let execute = |path: Seq<Seq<u8>>| is_allow_root(rules@, FsRight::Execute, path);
        let mount = |path: Seq<Seq<u8>>| is_mount(rules@, path);
        assert forall|p: Seq<Seq<u8>>| #[trigger] all.contains(p) <==> is_policy_path(
            rules@,
            p,
        ) by {
            assert(views(grants.read@).contains(p) <==> read(p));
            assert(views(grants.write@).contains(p) <==> write(p));
            assert(views(grants.execute@).contains(p) <==> execute(p));
            assert(views(mounted@).contains(p) <==> mount(p));
        }
    }
    let mut i: usize = 0;
    while i < policy_paths.len()
        invariant
            i <= policy_paths@.len(),
            all == views(policy_paths@),
            paths_ascending(all),
            forall|p: Seq<Seq<u8>>| #[trigger] all.contains(p) <==> is_policy_path(rules@, p),
            lists(views(mounted@), |path: Seq<Seq<u8>>| is_mount(rules@, path)),
            forall|k: int, dir: Seq<Seq<u8>>|
                0 <= k < i ==> !#[trigger] relocates(rules@, all[k], dir),
        decreases policy_paths.len() - i,
    {
        let path = &policy_paths[i];
        let ghost p = path@;
        proof {
            assert(all[i as int] == p);
            assert(all.contains(p));
        }
        let mut depth: usize = path.depth();
        loop
            invariant
                depth <= p.len(),
                p == path@,
                i < policy_paths@.len(),
                all == views(policy_paths@),
                all[i as int] == p,
                is_policy_path(rules@, p),
                paths_ascending(all),
                forall|q: Seq<Seq<u8>>| #[trigger] all.contains(q) <==> is_policy_path(rules@, q),
                lists(views(mounted@), |path: Seq<Seq<u8>>| is_mount(rules@, path)),
                forall|k: int, dir: Seq<Seq<u8>>|
                    0 <= k < i ==> !#[trigger] relocates(rules@, all[k], dir),
                forall|dir: Seq<Seq<u8>>| #[trigger]
                    relocates(rules@, p, dir) ==> dir.len() <= depth,
            ensures
                forall|dir: Seq<Seq<u8>>| !#[trigger] relocates(rules@, p, dir),
            decreases depth,
        {
            let dir = path.ancestor(depth);
            let ghost d = dir@;
            let is_mounted = contains_path(&mounted, &dir);
            proof {
                let mount = |path: Seq<Seq<u8>>| is_mount(rules@, path);
                assert(views(mounted@).contains(d) <==> mount(d));
                assert(d.is_prefix_of(p)) by {
                    assert(d =~= p.subrange(0, d.len() as int));
                }
                assert forall|other: Seq<Seq<u8>>| #[trigger]
                    relocates(rules@, p, other) && other.len() == depth implies other == d by {
                    assert(other =~= p.subrange(0, other.len() as int));
                    assert(d =~= p.subrange(0, d.len() as int));
                }
            }
            if !is_mounted && renameable_by_the_sandbox(rules, &dir) {
                proof {
                    assert(relocates(rules@, p, d));
                    assert forall|earlier: Seq<Seq<u8>>, other: Seq<Seq<u8>>|
                        is_policy_path(rules@, earlier) && path_lt(
                            earlier,
                            p,
                        ) implies !#[trigger] relocates(rules@, earlier, other) by {
                        assert(all.contains(earlier));
                        let k = choose|k: int| 0 <= k < all.len() && all[k] == earlier;
                        lemma_path_lt_asymmetric(earlier, p);
                        if k > i {
                            assert(path_lt(all[i as int], all[k]));
                        }
                        assert(!relocates(rules@, all[k], other));
                    }
                    assert(is_first_relocatable(rules@, p, d));
                }
                return Err(Error::Unsupported(not_durable(path, &dir)));
            }
            assert(!relocates(rules@, p, d));
            if depth == 0 {
                break ;
            }
            depth -= 1;
        }
        i += 1;
    }
    assert forall|path: Seq<Seq<u8>>, dir: Seq<Seq<u8>>| is_policy_path(
        rules@,
        path,
    ) implies !#[trigger] relocates(rules@, path, dir) by {
        assert(all.contains(path));
        let k = choose|k: int| 0 <= k < all.len() && all[k] == path;
        assert(!relocates(rules@, all[k], dir));
    }
    Ok(())
}

} // verus!
