//! The mount masks that a deny beneath a grant needs.
//!
//! Landlock rules only ever add rights, so a deny that falls beneath a covering
//! grant is enforced by a mount glued over the denied path. Rule paths are
//! processed ancestors first. Each path where the policy finally denies a right
//! that a grant would allow gets a mask, and each path that the policy re-allows
//! beneath a mask gets its real subtree cloned and attached back.
use crate::error::{is_unsupported, Error};
use crate::linux::rules::{
    allows, final_effect, is_allow_root, is_granted, is_rule_path, lists, views, NormalizedRule,
    Rights,
};
use crate::order::{lemma_ancestor_comes_first, lemma_path_lt_asymmetric, path_lt};
use crate::path::{render, CanonicalPath};
use crate::policy::{FsRight, RuleEffect};
use crate::text::{lossy_text, lossy_utf8};
use vstd::prelude::*;

verus! {

/// A rule path pinned to the inode that it resolved to when the policy was
/// compiled.
#[derive(Debug, PartialEq, Eq)]
pub struct Pin {
    /// The rule path.
    pub path: CanonicalPath,
    /// The device of the inode.
    pub dev: u64,
    /// The number of the inode.
    pub ino: u64,
    /// Whether the inode is a directory.
    pub is_dir: bool,
}

/// The paths of the pins.
pub open spec fn pin_paths(pins: Seq<Pin>) -> Seq<Seq<Seq<u8>>> {
    pins.map_values(|pin: Pin| pin.path@)
}

/// Whether there is one pin for each rule path, ancestors first.
pub open spec fn pins_match(rules: Seq<NormalizedRule>, pins: Seq<Pin>) -> bool {
    lists(pin_paths(pins), |path: Seq<Seq<u8>>| is_rule_path(rules, path))
}

/// The rights that the policy finally allows at `path`.
pub open spec fn allowed_at(rules: Seq<NormalizedRule>, path: Seq<Seq<u8>>) -> Rights {
    Rights {
        read: allows(rules, FsRight::Read, path),
        write: allows(rules, FsRight::Write, path),
        execute: allows(rules, FsRight::Execute, path),
    }
}

/// The rights that the policy finally denies at `path` although a grant reaches
/// it.
pub open spec fn denied_at(rules: Seq<NormalizedRule>, path: Seq<Seq<u8>>) -> Rights {
    Rights {
        read: !allows(rules, FsRight::Read, path) && is_granted(rules, FsRight::Read, path),
        write: !allows(rules, FsRight::Write, path) && is_granted(rules, FsRight::Write, path),
        execute: !allows(rules, FsRight::Execute, path) && is_granted(
            rules,
            FsRight::Execute,
            path,
        ),
    }
}

/// What the mounts do to a path: which path hides it, if any, and which rights
/// the restricting binds strip from it.
pub struct Mask {
    pub hide_root: Option<Seq<Seq<u8>>>,
    pub stripped: Rights,
}

impl Mask {
    /// No mount takes anything away.
    pub open spec fn clear() -> Mask {
        Mask { hide_root: None, stripped: Rights::none() }
    }

    /// The rights that the mask takes away.
    pub open spec fn blocked(self) -> Rights {
        if self.hide_root is Some {
            Rights::all()
        } else {
            self.stripped
        }
    }
}

/// Whether the real subtree at `path` is attached again: the policy allows a
/// right there that the masks above block.
pub open spec fn attaches_under(
    rules: Seq<NormalizedRule>,
    above: Mask,
    path: Seq<Seq<u8>>,
) -> bool {
    allowed_at(rules, path).meets(above.blocked())
}

/// The denied rights that are still reachable at `path` after it was attached,
/// or beneath the masks above.
pub open spec fn residual_under(
    rules: Seq<NormalizedRule>,
    above: Mask,
    path: Seq<Seq<u8>>,
) -> Rights {
    if attaches_under(rules, above, path) {
        denied_at(rules, path)
    } else {
        denied_at(rules, path).minus(above.blocked())
    }
}

/// What the mounts at the rule path `path` make of the mask above it.
pub open spec fn mask_step(rules: Seq<NormalizedRule>, above: Mask, path: Seq<Seq<u8>>) -> Mask {
    let residual = residual_under(rules, above, path);
    if residual.read {
        Mask { hide_root: Some(path), stripped: Rights::none() }
    } else if attaches_under(rules, above, path) {
        Mask { hide_root: None, stripped: residual }
    } else {
        Mask { hide_root: above.hide_root, stripped: above.stripped.union(residual) }
    }
}

/// The mask on `path`, with the mounts at `path` itself.
pub open spec fn mask_at(rules: Seq<NormalizedRule>, path: Seq<Seq<u8>>) -> Mask
    decreases path.len(),
{
    let above = if path.len() == 0 {
        Mask::clear()
    } else {
        mask_at(rules, path.drop_last())
    };
    if is_rule_path(rules, path) {
        mask_step(rules, above, path)
    } else {
        above
    }
}

/// The mask on `path` that the mounts above it make.
pub open spec fn mask_above(rules: Seq<NormalizedRule>, path: Seq<Seq<u8>>) -> Mask {
    if path.len() == 0 {
        Mask::clear()
    } else {
        mask_at(rules, path.drop_last())
    }
}

/// Whether the real subtree at `path` is attached again.
pub open spec fn is_attached(rules: Seq<NormalizedRule>, path: Seq<Seq<u8>>) -> bool {
    attaches_under(rules, mask_above(rules, path), path)
}

/// The rights that a mask at `path` itself takes away.
pub open spec fn residual_at(rules: Seq<NormalizedRule>, path: Seq<Seq<u8>>) -> Rights {
    residual_under(rules, mask_above(rules, path), path)
}

/// Whether the subtree at `path` is attached again inside a hidden directory.
pub open spec fn is_reexposed(rules: Seq<NormalizedRule>, path: Seq<Seq<u8>>) -> bool {
    is_attached(rules, path) && mask_above(rules, path).hide_root is Some
}

/// Whether attaching `path` again would also bring back a denied read.
pub open spec fn reexposes_read(rules: Seq<NormalizedRule>, path: Seq<Seq<u8>>) -> bool {
    is_reexposed(rules, path) && denied_at(rules, path).read
}

/// Whether hiding `path` would take away a write or execute that is allowed.
pub open spec fn hides_allowed(rules: Seq<NormalizedRule>, path: Seq<Seq<u8>>) -> bool {
    residual_at(rules, path).read && (allowed_at(rules, path).write || allowed_at(
        rules,
        path,
    ).execute)
}

/// Whether the policy at `path` has no faithful encoding as masks.
pub open spec fn is_inexpressible(rules: Seq<NormalizedRule>, path: Seq<Seq<u8>>) -> bool {
    reexposes_read(rules, path) || hides_allowed(rules, path)
}

/// The first rule path that has no faithful encoding.
pub open spec fn is_first_inexpressible(
    rules: Seq<NormalizedRule>,
    path: Seq<Seq<u8>>,
) -> bool {
    &&& is_rule_path(rules, path)
    &&& is_inexpressible(rules, path)
    &&& forall|other: Seq<Seq<u8>>| #[trigger]
        is_rule_path(rules, other) && path_lt(other, path) ==> !is_inexpressible(rules, other)
}

/// Whether every rule path has a faithful encoding as masks.
pub open spec fn is_expressible(rules: Seq<NormalizedRule>) -> bool {
    forall|path: Seq<Seq<u8>>| #[trigger]
        is_rule_path(rules, path) ==> !is_inexpressible(rules, path)
}

/// A path as messages show it.
pub open spec fn shown(path: Seq<Seq<u8>>) -> Seq<char> {
    lossy_utf8(render(path))
}

/// Why the policy at `path` is refused.
pub open spec fn inexpressible_text(
    rules: Seq<NormalizedRule>,
    path: Seq<Seq<u8>>,
) -> Seq<char> {
    if reexposes_read(rules, path) {
        "cannot enforce this ordered policy on Linux: `"@ + shown(path)
            + "` re-allows write or execute beneath a read-denied parent, and re-exposing it would also re-expose the read access the policy denies; re-allow read on it too, or move it out of the read-denied subtree"@
    } else {
        "cannot enforce this ordered policy on Linux: read is denied at `"@ + shown(path)
            + "` while write or execute stays allowed there, and a hidden path cannot remain writable or executable; deny write/execute on it too, or drop the read deny"@
    }
}

/// A path as messages show it.
pub(crate) fn show(path: &CanonicalPath) -> (text: String)
    ensures
        text@ == shown(path@),
{
    lossy_text(path.to_bytes().as_slice())
}

/// The Landlock grants of each right.
#[derive(Debug, PartialEq, Eq)]
pub struct Grants {
    /// Where read is granted.
    pub read: Vec<CanonicalPath>,
    /// Where write is granted.
    pub write: Vec<CanonicalPath>,
    /// Where execute is granted.
    pub execute: Vec<CanonicalPath>,
}

/// Whether `grants` holds exactly the allow roots of the policy.
pub open spec fn grants_match(rules: Seq<NormalizedRule>, grants: Grants) -> bool {
    &&& lists(
        views(grants.read@),
        |path: Seq<Seq<u8>>| is_allow_root(rules, FsRight::Read, path),
    )
    &&& lists(
        views(grants.write@),
        |path: Seq<Seq<u8>>| is_allow_root(rules, FsRight::Write, path),
    )
    &&& lists(
        views(grants.execute@),
        |path: Seq<Seq<u8>>| is_allow_root(rules, FsRight::Execute, path),
    )
}

/// Whether one of `roots` is `path` or above it.
fn reaches(roots: &Vec<CanonicalPath>, path: &CanonicalPath) -> (yes: bool)
    ensures
        yes == exists|root: Seq<Seq<u8>>| #[trigger]
            views(roots@).contains(root) && root.is_prefix_of(path@),
{
    let mut i: usize = 0;
    while i < roots.len()
        invariant
            i <= roots@.len(),
            forall|j: int| 0 <= j < i ==> !(#[trigger] roots@[j]@).is_prefix_of(path@),
        decreases roots.len() - i,
    {
        if path.starts_with(&roots[i]) {
            assert(views(roots@)[i as int] == roots@[i as int]@);
            assert(views(roots@).contains(roots@[i as int]@));
            return true;
        }
        i += 1;
    }
    assert forall|root: Seq<Seq<u8>>| #[trigger] views(roots@).contains(root) implies
        !root.is_prefix_of(path@) by {
        let j = choose|j: int| 0 <= j < views(roots@).len() && views(roots@)[j] == root;
        assert(roots@[j]@ == root);
    }
    false
}

/// Whether `right` is denied at `path` although a grant reaches it.
fn is_denied(
    rules: &Vec<NormalizedRule>,
    roots: &Vec<CanonicalPath>,
    right: FsRight,
    path: &CanonicalPath,
) -> (denied: bool)
    requires
        lists(views(roots@), |p: Seq<Seq<u8>>| is_allow_root(rules@, right, p)),
    ensures
        denied == (!allows(rules@, right, path@) && is_granted(rules@, right, path@)),
{
    let covered = reaches(roots, path);
    proof {
        let wanted = |p: Seq<Seq<u8>>| is_allow_root(rules@, right, p);
        if covered {
            let root = choose|root: Seq<Seq<u8>>| #[trigger]
                views(roots@).contains(root) && root.is_prefix_of(path@);
            assert(wanted(root));
            assert(is_allow_root(rules@, right, root) && root.is_prefix_of(path@));
        }
        if is_granted(rules@, right, path@) {
            let root = choose|root: Seq<Seq<u8>>| #[trigger]
                is_allow_root(rules@, right, root) && root.is_prefix_of(path@);
            assert(wanted(root));
            assert(views(roots@).contains(root));
        }
    }
    covered && final_effect(rules, right, path) == RuleEffect::Deny
}

/// Between `root` and `path` no rule path adds a mask.
proof fn lemma_mask_inherited(
    rules: Seq<NormalizedRule>,
    root: Seq<Seq<u8>>,
    path: Seq<Seq<u8>>,
)
    requires
        root.is_prefix_of(path),
        forall|other: Seq<Seq<u8>>| #[trigger]
            is_rule_path(rules, other) && other.is_prefix_of(path) ==> other.len() <= root.len(),
    ensures
        mask_at(rules, path) == mask_at(rules, root),
    decreases path.len(),
{
    if path.len() == root.len() {
        assert(path =~= root);
    } else {
        let parent = path.drop_last();
        assert(path.is_prefix_of(path)) by {
            assert(path =~= path.subrange(0, path.len() as int));
        }
        lemma_prefix_of_parent(root, path);
        assert forall|other: Seq<Seq<u8>>| #[trigger]
            is_rule_path(rules, other) && other.is_prefix_of(parent) implies other.len()
            <= root.len() by {
            lemma_prefix_transitive(other, parent, path);
        }
        lemma_mask_inherited(rules, root, parent);
    }
}

/// A path that no rule path reaches has no mask.
proof fn lemma_mask_clear(rules: Seq<NormalizedRule>, path: Seq<Seq<u8>>)
    requires
        forall|other: Seq<Seq<u8>>| #[trigger]
            is_rule_path(rules, other) ==> !other.is_prefix_of(path),
    ensures
        mask_at(rules, path) == Mask::clear(),
    decreases path.len(),
{
    assert(path.is_prefix_of(path)) by {
        assert(path =~= path.subrange(0, path.len() as int));
    }
    if path.len() > 0 {
        let parent = path.drop_last();
        assert forall|other: Seq<Seq<u8>>| #[trigger] is_rule_path(rules, other) implies
            !other.is_prefix_of(parent) by {
            if other.is_prefix_of(parent) {
                lemma_prefix_transitive(other, parent, path);
            }
        }
        lemma_mask_clear(rules, parent);
    }
}

/// A proper ancestor of `path` is its parent or above it.
pub(crate) proof fn lemma_prefix_of_parent(a: Seq<Seq<u8>>, path: Seq<Seq<u8>>)
    requires
        a.is_prefix_of(path),
        a.len() < path.len(),
    ensures
        a.is_prefix_of(path.drop_last()),
        path.drop_last().is_prefix_of(path),
{
    assert(a =~= path.drop_last().subrange(0, a.len() as int)) by {
        assert forall|i: int| 0 <= i < a.len() implies a[i] == path.drop_last()[i] by {
            assert(a[i] == path.subrange(0, a.len() as int)[i]);
        }
    }
    assert(path.drop_last() =~= path.subrange(0, path.len() - 1));
}

pub(crate) proof fn lemma_prefix_transitive(
    a: Seq<Seq<u8>>,
    b: Seq<Seq<u8>>,
    c: Seq<Seq<u8>>,
)
    requires
        a.is_prefix_of(b),
        b.is_prefix_of(c),
    ensures
        a.is_prefix_of(c),
{
    assert(a =~= c.subrange(0, a.len() as int)) by {
        assert forall|i: int| 0 <= i < a.len() implies a[i] == c[i] by {
            assert(a[i] == b.subrange(0, a.len() as int)[i]);
            assert(b[i] == c.subrange(0, b.len() as int)[i]);
        }
    }
}

/// Two ancestors of one path lie on one line.
pub(crate) proof fn lemma_prefixes_nest(a: Seq<Seq<u8>>, b: Seq<Seq<u8>>, c: Seq<Seq<u8>>)
    requires
        a.is_prefix_of(c),
        b.is_prefix_of(c),
        a.len() <= b.len(),
    ensures
        a.is_prefix_of(b),
        a.len() == b.len() ==> a == b,
{
    assert(a =~= b.subrange(0, a.len() as int)) by {
        assert forall|i: int| 0 <= i < a.len() implies a[i] == b[i] by {
            assert(a[i] == c.subrange(0, a.len() as int)[i]);
            assert(b[i] == c.subrange(0, b.len() as int)[i]);
        }
    }
    if a.len() == b.len() {
        assert(b =~= b.subrange(0, a.len() as int));
    }
}

/// The mask above a pinned path is that of the last pin before it that lies
/// above it.
proof fn lemma_mask_of_nearest(
    rules: Seq<NormalizedRule>,
    pins: Seq<Pin>,
    at: int,
    nearest: Option<int>,
)
    requires
        pins_match(rules, pins),
        0 <= at < pins.len(),
        match nearest {
            Some(j) => 0 <= j < at && pins[j].path@.is_prefix_of(pins[at].path@) && forall|k: int|
                j < k < at ==> !(#[trigger] pins[k]).path@.is_prefix_of(pins[at].path@),
            None => forall|k: int|
                0 <= k < at ==> !(#[trigger] pins[k]).path@.is_prefix_of(pins[at].path@),
        },
    ensures
        mask_above(rules, pins[at].path@) == (match nearest {
            Some(j) => mask_at(rules, pins[j].path@),
            None => Mask::clear(),
        }),
{
    let paths = pin_paths(pins);
    let path = pins[at].path@;
    assert(paths[at] == path);
    if path.len() == 0 {
        if nearest is Some {
            let j = nearest->0;
            assert(paths[j] == pins[j].path@);
            assert(path_lt(paths[j], paths[at]));
        }
    } else {
        let parent = path.drop_last();
        // Every rule path on the way to `path` has a pin before it.
        assert forall|other: Seq<Seq<u8>>| #[trigger]
            is_rule_path(rules, other) && other.is_prefix_of(parent) implies exists|k: int|
            0 <= k < at && (#[trigger] pins[k]).path@ == other && other.is_prefix_of(path) by {
            assert(parent =~= path.subrange(0, path.len() - 1));
            lemma_prefix_transitive(other, parent, path);
            lemma_ancestor_comes_first(other, path);
            let wanted = |p: Seq<Seq<u8>>| is_rule_path(rules, p);
            assert(wanted(other));
            assert(paths.contains(other));
            let k = choose|k: int| 0 <= k < paths.len() && paths[k] == other;
            assert(pins[k].path@ == other);
            if k > at {
                assert(path_lt(paths[at], paths[k]));
                lemma_path_lt_asymmetric(path, other);
            }
            assert(k != at) by {
                lemma_path_lt_asymmetric(other, path);
            }
        }
        match nearest {
            Some(j) => {
                let root = pins[j].path@;
                assert(paths[j] == root);
                assert(path_lt(paths[j], paths[at]));
                lemma_path_lt_asymmetric(root, path);
                assert(root.len() < path.len()) by {
                    if root.len() >= path.len() {
                        assert(root =~= path);
                    }
                }
                lemma_prefix_of_parent(root, path);
                assert forall|other: Seq<Seq<u8>>| #[trigger]
                    is_rule_path(rules, other) && other.is_prefix_of(parent) implies other.len()
                    <= root.len() by {
                    let k = choose|k: int|
                        0 <= k < at && (#[trigger] pins[k]).path@ == other && other.is_prefix_of(
                            path,
                        );
                    assert(k <= j);
                    if other.len() > root.len() {
                        lemma_prefixes_nest(root, other, parent);
                        lemma_ancestor_comes_first(root, other);
                        assert(paths[k] == other);
                        if k < j {
                            assert(path_lt(paths[k], paths[j]));
                            lemma_path_lt_asymmetric(root, other);
                        }
                    }
                }
                lemma_mask_inherited(rules, root, parent);
            },
            None => {
                assert forall|other: Seq<Seq<u8>>| #[trigger] is_rule_path(rules, other) implies
                    !other.is_prefix_of(parent) by {
                    if other.is_prefix_of(parent) {
                        let k = choose|k: int|
                            0 <= k < at && (#[trigger] pins[k]).path@ == other
                                && other.is_prefix_of(path);
                        assert(false);
                    }
                }
                lemma_mask_clear(rules, parent);
            },
        }
    }
}

/// The last pin before `at` that lies above it.
fn nearest_above(pins: &Vec<Pin>, at: usize) -> (nearest: Option<usize>)
    requires
        at < pins@.len(),
    ensures
        match nearest {
            Some(j) => j < at && pins@[j as int].path@.is_prefix_of(pins@[at as int].path@)
                && forall|k: int|
                j < k < at ==> !(#[trigger] pins@[k]).path@.is_prefix_of(pins@[at as int].path@),
            None => forall|k: int|
                0 <= k < at ==> !(#[trigger] pins@[k]).path@.is_prefix_of(
                    pins@[at as int].path@,
                ),
        },
{
    let mut j: usize = at;
    while j > 0
        invariant
            j <= at < pins@.len(),
            forall|k: int|
                j <= k < at ==> !(#[trigger] pins@[k]).path@.is_prefix_of(
                    pins@[at as int].path@,
                ),
        decreases j,
    {
        j -= 1;
        if pins[at].path.starts_with(&pins[j].path) {
            return Some(j);
        }
    }
    None
}

/// What is done at one pinned path.
#[derive(Debug, Clone, Copy, PartialEq, Eq, Structural)]
pub struct Decision {
    /// Whether the real subtree is attached again.
    pub attached: bool,
    /// The rights that a mask at the path itself takes away.
    pub residual: Rights,
    /// The pin whose path hides this one from above.
    pub hidden_by: Option<usize>,
}

/// Whether `decisions` says what the policy needs at each of the first pins.
pub open spec fn decisions_match(
    rules: Seq<NormalizedRule>,
    pins: Seq<Pin>,
    decisions: Seq<Decision>,
) -> bool {
    &&& decisions.len() <= pins.len()
    &&& forall|i: int|
        #![trigger decisions[i]]
        0 <= i < decisions.len() ==> decision_matches(rules, pins, decisions[i], pins[i].path@)
}

/// Whether `decision` says what the policy needs at `path`.
pub open spec fn decision_matches(
    rules: Seq<NormalizedRule>,
    pins: Seq<Pin>,
    decision: Decision,
    path: Seq<Seq<u8>>,
) -> bool {
    &&& decision.attached == is_attached(rules, path)
    &&& decision.residual == residual_at(rules, path)
    &&& hides_as(pins, decision.hidden_by, mask_above(rules, path))
}

/// Whether the pin `hidden_by` stands for the hide root of `mask`.
pub open spec fn hides_as(pins: Seq<Pin>, hidden_by: Option<usize>, mask: Mask) -> bool {
    match hidden_by {
        Some(i) => i < pins.len() && mask.hide_root == Some(pins[i as int].path@),
        None => mask.hide_root is None,
    }
}

/// The mask after the mounts at a pinned path.
#[derive(Clone, Copy)]
struct MaskState {
    hidden_by: Option<usize>,
    stripped: Rights,
}

/// Whether `state` stands for `mask`.
spec fn state_matches(pins: Seq<Pin>, state: MaskState, mask: Mask) -> bool {
    hides_as(pins, state.hidden_by, mask) && state.stripped == mask.stripped
}

/// Decides what is done at each pinned path, or refuses the first path where the
/// policy has no faithful encoding.
pub(crate) fn decide(rules: &Vec<NormalizedRule>, pins: &Vec<Pin>, grants: &Grants) -> (decisions: Result<
    Vec<Decision>,
    Error,
>)
    requires
        pins_match(rules@, pins@),
        grants_match(rules@, *grants),
    ensures
        match decisions {
            Ok(decisions) => is_expressible(rules@) && decisions@.len() == pins@.len()
                && decisions_match(rules@, pins@, decisions@),
            Err(error) => exists|path: Seq<Seq<u8>>|
                is_first_inexpressible(rules@, path) && is_unsupported(
                    error,
                    #[trigger] inexpressible_text(rules@, path),
                ),
        },
{
    let ghost paths = pin_paths(pins@);
    let ghost wanted = |p: Seq<Seq<u8>>| is_rule_path(rules@, p);
    let mut decisions: Vec<Decision> = Vec::new();
    let mut states: Vec<MaskState> = Vec::new();
    let mut i: usize = 0;
    while i < pins.len()
        invariant
            i <= pins@.len(),
            pins_match(rules@, pins@),
            grants_match(rules@, *grants),
            paths == pin_paths(pins@),
            wanted == (|p: Seq<Seq<u8>>| is_rule_path(rules@, p)),
            decisions@.len() == i,
            states@.len() == i,
            decisions_match(rules@, pins@, decisions@),
            forall|k: int|
                0 <= k < i ==> state_matches(
                    pins@,
                    #[trigger] states@[k],
                    mask_at(rules@, pins@[k].path@),
                ),
            forall|k: int| 0 <= k < i ==> !is_inexpressible(rules@, #[trigger] paths[k]),
        decreases pins.len() - i,
    {
        let path = &pins[i].path;
        proof {
            assert(paths[i as int] == path@);
            assert(paths.contains(path@));
            assert(wanted(path@));
        }
        let ghost rule_path = path@;
        let allowed = Rights {
            read: final_effect(rules, FsRight::Read, path) == RuleEffect::Allow,
            write: final_effect(rules, FsRight::Write, path) == RuleEffect::Allow,
            execute: final_effect(rules, FsRight::Execute, path) == RuleEffect::Allow,
        };
        let denied = Rights {
            read: is_denied(rules, &grants.read, FsRight::Read, path),
            write: is_denied(rules, &grants.write, FsRight::Write, path),
            execute: is_denied(rules, &grants.execute, FsRight::Execute, path),
        };
        let nearest = nearest_above(pins, i);
        let above = match nearest {
            Some(j) => states[j],
            None => MaskState {
                hidden_by: None,
                stripped: Rights { read: false, write: false, execute: false },
            },
        };
        let ghost mask = mask_above(rules@, path@);
        proof {
            lemma_mask_of_nearest(
                rules@,
                pins@,
                i as int,
                match nearest {
                    Some(j) => Some(j as int),
                    None => None,
                },
            );
            assert(state_matches(pins@, above, mask));
        }
        let hidden = above.hidden_by.is_some();
        let blocked = if hidden {
            Rights { read: true, write: true, execute: true }
        } else {
            above.stripped
        };
        let attached = (allowed.read && blocked.read) || (allowed.write && blocked.write) || (
        allowed.execute && blocked.execute);
        let residual = if attached {
            denied
        } else {
            Rights {
                read: denied.read && !blocked.read,
                write: denied.write && !blocked.write,
                execute: denied.execute && !blocked.execute,
            }
        };
        assert(attached == is_attached(rules@, path@));
        assert(residual == residual_at(rules@, path@));
        let ghost found = is_inexpressible(rules@, path@);
        proof {
            if found {
                assert forall|other: Seq<Seq<u8>>| #[trigger]
                    is_rule_path(rules@, other) && path_lt(other, path@) implies !is_inexpressible(
                    rules@,
                    other,
                ) by {
                    assert(wanted(other));
                    assert(paths.contains(other));
                    let k = choose|k: int| 0 <= k < paths.len() && paths[k] == other;
                    if k > i {
                        assert(path_lt(paths[i as int], paths[k]));
                    }
                    lemma_path_lt_asymmetric(other, path@);
                }
                assert(is_first_inexpressible(rules@, path@));
            }
        }
        if attached && hidden && denied.read {
            let mut text = String::from_str("cannot enforce this ordered policy on Linux: `");
            text.append(show(path).as_str());
            text.append(
                "` re-allows write or execute beneath a read-denied parent, and re-exposing it would also re-expose the read access the policy denies; re-allow read on it too, or move it out of the read-denied subtree",
            );
            assert(reexposes_read(rules@, path@));
            assert(text@ == inexpressible_text(rules@, path@));
            return Err(Error::Unsupported(text));
        }
        if residual.read && (allowed.write || allowed.execute) {
            let mut text = String::from_str(
                "cannot enforce this ordered policy on Linux: read is denied at `",
            );
            text.append(show(path).as_str());
            text.append(
                "` while write or execute stays allowed there, and a hidden path cannot remain writable or executable; deny write/execute on it too, or drop the read deny",
            );
            assert(text@ == inexpressible_text(rules@, path@));
            return Err(Error::Unsupported(text));
        }
        let state = if residual.read {
            MaskState {
                hidden_by: Some(i),
                stripped: Rights { read: false, write: false, execute: false },
            }
        } else if attached {
            MaskState { hidden_by: None, stripped: residual }
        } else {
            MaskState {
                hidden_by: above.hidden_by,
                stripped: Rights {
                    read: above.stripped.read || residual.read,
                    write: above.stripped.write || residual.write,
                    execute: above.stripped.execute || residual.execute,
                },
            }
        };
        let decision = Decision { attached, residual, hidden_by: above.hidden_by };
        proof {
            assert(mask_at(rules@, path@) == mask_step(rules@, mask, path@));
            assert(state_matches(pins@, state, mask_at(rules@, path@)));
            assert(decision_matches(rules@, pins@, decision, path@));
        }
        states.push(state);
        decisions.push(decision);
        i += 1;
    }
    assert forall|path: Seq<Seq<u8>>| #[trigger] is_rule_path(rules@, path) implies
        !is_inexpressible(rules@, path) by {
        assert(wanted(path));
        assert(paths.contains(path));
        let k = choose|k: int| 0 <= k < paths.len() && paths[k] == path;
        assert(!is_inexpressible(rules@, paths[k]));
    }
    Ok(decisions)
}

} // verus!
