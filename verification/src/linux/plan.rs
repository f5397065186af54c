//! The mount plan: which mounts the child installs, and in what order.
use crate::error::{is_unsupported, Error};
use crate::linux::durability::{
    is_durable, is_first_relocatable, not_durable_text, reject_relocatable_policy_paths,
};
use crate::linux::masks::{
    decide, decision_matches, decisions_match, grants_match, inexpressible_text, is_attached,
    is_expressible, is_first_inexpressible, is_reexposed, lemma_prefix_transitive, mask_above,
    mask_at, pin_paths, pins_match, residual_at, Decision, Grants, Pin,
};
use crate::linux::rules::{
    contains_path, insert_path, is_rule_path, lists, views, NormalizedRule, Rights,
};
use crate::order::{
    lemma_path_lt_asymmetric, lemma_path_lt_total, lemma_path_lt_transitive, path_lt,
    paths_ascending, Order,
};
use crate::path::CanonicalPath;
use vstd::prelude::*;

verus! {

/// `MOUNT_ATTR_RDONLY` of `mount_setattr(2)`.
pub const MOUNT_ATTR_RDONLY: u64 = 1;

/// `MOUNT_ATTR_NOEXEC` of `mount_setattr(2)`.
pub const MOUNT_ATTR_NOEXEC: u64 = 8;

/// A masking target: the path that the child resolves again in its own mount
/// namespace, and the identity that the resolution must produce.
#[derive(Debug, PartialEq, Eq)]
pub struct Target {
    /// The path.
    pub path: CanonicalPath,
    /// The device of the pinned inode.
    pub dev: u64,
    /// The number of the pinned inode.
    pub ino: u64,
}

/// What a [`Target`] says.
pub struct TargetView {
    pub path: Seq<Seq<u8>>,
    pub dev: u64,
    pub ino: u64,
}

impl View for Target {
    type V = TargetView;

    open spec fn view(&self) -> TargetView {
        TargetView { path: self.path@, dev: self.dev, ino: self.ino }
    }
}

/// One mount operation of the plan.
#[derive(Debug, PartialEq, Eq)]
pub enum MaskOp {
    /// Mount an empty tmpfs over a directory.
    HideDir {
        /// The directory.
        target: Target,
        /// The mode of the tmpfs root: traversal only when re-allowed
        /// descendants are attached inside, fully closed otherwise.
        mode: &'static str,
        /// Whether the tmpfs turns read-only only after its contents are there.
        seal_later: bool,
    },
    /// Mount an empty file over a file.
    HideFile {
        /// The file.
        target: Target,
    },
    /// Create a directory inside a hiding tmpfs.
    SkeletonDir {
        /// The directory.
        path: CanonicalPath,
    },
    /// Create a file inside a hiding tmpfs.
    SkeletonFile {
        /// The file.
        path: CanonicalPath,
    },
    /// Attach a cloned subtree.
    Attach {
        /// Which clone.
        slot: usize,
        /// Where to.
        path: CanonicalPath,
    },
    /// Bind a path over itself with fewer rights.
    Restrict {
        /// The path.
        target: Target,
        /// The mount attributes to set.
        attr_set: u64,
        /// Whether everything beneath is restricted too.
        recursive: bool,
    },
}

/// What a [`MaskOp`] says.
pub enum MaskOpView {
    HideDir { target: TargetView, mode: Seq<char>, seal_later: bool },
    HideFile { target: TargetView },
    SkeletonDir { path: Seq<Seq<u8>> },
    SkeletonFile { path: Seq<Seq<u8>> },
    Attach { slot: int, path: Seq<Seq<u8>> },
    Restrict { target: TargetView, attr_set: u64, recursive: bool },
}

impl View for MaskOp {
    type V = MaskOpView;

    open spec fn view(&self) -> MaskOpView {
        match self {
            MaskOp::HideDir { target, mode, seal_later } => MaskOpView::HideDir {
                target: target@,
                mode: mode@,
                seal_later: *seal_later,
            },
            MaskOp::HideFile { target } => MaskOpView::HideFile { target: target@ },
            MaskOp::SkeletonDir { path } => MaskOpView::SkeletonDir { path: path@ },
            MaskOp::SkeletonFile { path } => MaskOpView::SkeletonFile { path: path@ },
            MaskOp::Attach { slot, path } => MaskOpView::Attach { slot: *slot as int, path: path@ },
            MaskOp::Restrict { target, attr_set, recursive } => MaskOpView::Restrict {
                target: target@,
                attr_set: *attr_set,
                recursive: *recursive,
            },
        }
    }
}

impl MaskOpView {
    /// The path that the operation works on.
    pub open spec fn path(self) -> Seq<Seq<u8>> {
        match self {
            MaskOpView::HideDir { target, .. } => target.path,
            MaskOpView::HideFile { target } => target.path,
            MaskOpView::SkeletonDir { path } => path,
            MaskOpView::SkeletonFile { path } => path,
            MaskOpView::Attach { path, .. } => path,
            MaskOpView::Restrict { target, .. } => target.path,
        }
    }

    /// The place among operations at one depth: masks first, then the skeleton
    /// that they contain, then attachments, then restrictions on top of them.
    pub open spec fn rank(self) -> int {
        match self {
            MaskOpView::HideDir { .. } | MaskOpView::HideFile { .. } => 0,
            MaskOpView::SkeletonDir { .. } | MaskOpView::SkeletonFile { .. } => 1,
            MaskOpView::Attach { .. } => 2,
            MaskOpView::Restrict { .. } => 3,
        }
    }
}

/// Whether `a` is installed before `b`: by depth, then by rank, then by path.
pub open spec fn op_lt(a: MaskOpView, b: MaskOpView) -> bool {
    if a.path().len() != b.path().len() {
        a.path().len() < b.path().len()
    } else if a.rank() != b.rank() {
        a.rank() < b.rank()
    } else if a.path() != b.path() {
        path_lt(a.path(), b.path())
    } else {
        a is SkeletonFile && b is SkeletonDir
    }
}

/// A sequence of operations in strictly ascending order.
pub open spec fn ops_ascending(ops: Seq<MaskOpView>) -> bool {
    forall|i: int, j: int|
        #![trigger ops[i], ops[j]]
        0 <= i < j < ops.len() ==> op_lt(ops[i], ops[j])
}

/// The target that a pin stands for.
pub open spec fn target_of(pin: Pin) -> TargetView {
    TargetView { path: pin.path@, dev: pin.dev, ino: pin.ino }
}

/// The pins among the first `n` whose subtrees are attached again.
pub open spec fn attached_before(rules: Seq<NormalizedRule>, pins: Seq<Pin>, n: int) -> Seq<int>
    decreases n,
{
    if n <= 0 {
        seq![]
    } else if is_attached(rules, pins[n - 1].path@) {
        attached_before(rules, pins, n - 1).push(n - 1)
    } else {
        attached_before(rules, pins, n - 1)
    }
}

/// Whether something is attached again directly inside the hidden directory
/// `path`, so that it turns read-only only at the end.
pub open spec fn is_sealed(
    rules: Seq<NormalizedRule>,
    pins: Seq<Pin>,
    path: Seq<Seq<u8>>,
) -> bool {
    exists|k: int| 0 <= k < pins.len() && #[trigger] seals(rules, pins, k, path)
}

/// Whether the pin `k` is attached again inside the hidden directory `path`.
pub open spec fn seals(
    rules: Seq<NormalizedRule>,
    pins: Seq<Pin>,
    k: int,
    path: Seq<Seq<u8>>,
) -> bool {
    is_reexposed(rules, pins[k].path@) && mask_above(rules, pins[k].path@).hide_root == Some(path)
}

/// Whether the pin `k` needs the directory `dir` inside a hiding tmpfs: a
/// directory on the way to it, or the directory that it is attached on.
pub open spec fn needs_dir(
    rules: Seq<NormalizedRule>,
    pins: Seq<Pin>,
    k: int,
    dir: Seq<Seq<u8>>,
) -> bool {
    let path = pins[k].path@;
    &&& is_reexposed(rules, path)
    &&& dir.is_prefix_of(path)
    &&& if dir.len() == path.len() {
        pins[k].is_dir
    } else {
        mask_above(rules, path).hide_root->0.len() < dir.len()
    }
}

/// Whether `dir` is created inside a hiding tmpfs.
pub open spec fn is_skeleton_dir(
    rules: Seq<NormalizedRule>,
    pins: Seq<Pin>,
    dir: Seq<Seq<u8>>,
) -> bool {
    exists|k: int| 0 <= k < pins.len() && #[trigger] needs_dir(rules, pins, k, dir)
}

/// The mount attributes that strip `rights`.
pub open spec fn attributes(rights: Rights) -> u64 {
    ((if rights.write {
        MOUNT_ATTR_RDONLY
    } else {
        0
    }) + (if rights.execute {
        MOUNT_ATTR_NOEXEC
    } else {
        0
    })) as u64
}

/// The skeleton file of the pin `k`, if it needs one.
pub open spec fn skeleton_file_at(
    rules: Seq<NormalizedRule>,
    pins: Seq<Pin>,
    k: int,
) -> Option<MaskOpView> {
    if is_reexposed(rules, pins[k].path@) && !pins[k].is_dir {
        Some(MaskOpView::SkeletonFile { path: pins[k].path@ })
    } else {
        None
    }
}

/// The attachment of the pin `k`, if it is attached again.
pub open spec fn attach_at(rules: Seq<NormalizedRule>, pins: Seq<Pin>, k: int) -> Option<
    MaskOpView,
> {
    if is_attached(rules, pins[k].path@) {
        Some(
            MaskOpView::Attach {
                slot: attached_before(rules, pins, k).len() as int,
                path: pins[k].path@,
            },
        )
    } else {
        None
    }
}

/// The mask on the pin `k`, if a denied right is left to take away.
pub open spec fn mask_op_at(rules: Seq<NormalizedRule>, pins: Seq<Pin>, k: int) -> Option<
    MaskOpView,
> {
    let residual = residual_at(rules, pins[k].path@);
    let sealed = is_sealed(rules, pins, pins[k].path@);
    if residual.read && pins[k].is_dir {
        Some(
            MaskOpView::HideDir {
                target: target_of(pins[k]),
                mode: if sealed {
                    "0111"@
                } else {
                    "0"@
                },
                seal_later: sealed,
            },
        )
    } else if residual.read {
        Some(MaskOpView::HideFile { target: target_of(pins[k]) })
    } else if residual.any() {
        Some(
            MaskOpView::Restrict {
                target: target_of(pins[k]),
                attr_set: attributes(residual),
                recursive: pins[k].is_dir,
            },
        )
    } else {
        None
    }
}

/// Whether the pin `k` needs the operation `op`.
pub open spec fn needs_op(
    rules: Seq<NormalizedRule>,
    pins: Seq<Pin>,
    k: int,
    op: MaskOpView,
) -> bool {
    ||| skeleton_file_at(rules, pins, k) == Some(op)
    ||| attach_at(rules, pins, k) == Some(op)
    ||| mask_op_at(rules, pins, k) == Some(op)
}

/// Whether the plan has the operation `op`.
pub open spec fn is_planned(rules: Seq<NormalizedRule>, pins: Seq<Pin>, op: MaskOpView) -> bool {
    ||| exists|k: int| 0 <= k < pins.len() && #[trigger] needs_op(rules, pins, k, op)
    ||| op matches MaskOpView::SkeletonDir { path } && is_skeleton_dir(rules, pins, path)
}

/// The mounts that the child installs.
#[derive(Debug, PartialEq, Eq)]
pub struct MountPlan {
    /// The subtrees that are cloned before anything is masked.
    pub clone_sources: Vec<Target>,
    /// The operations, in the order in which they are done.
    pub ops: Vec<MaskOp>,
    /// The hiding tmpfs mounts that turn read-only at the end.
    pub seal_readonly: Vec<CanonicalPath>,
}

/// The operations of a plan.
pub open spec fn op_views(ops: Seq<MaskOp>) -> Seq<MaskOpView> {
    ops.map_values(|op: MaskOp| op@)
}

/// Whether `plan` is the mount plan of the policy.
pub open spec fn is_plan(rules: Seq<NormalizedRule>, pins: Seq<Pin>, plan: MountPlan) -> bool {
    let attached = attached_before(rules, pins, pins.len() as int);
    &&& plan.clone_sources@.len() == attached.len()
    &&& forall|s: int|
        0 <= s < attached.len() ==> #[trigger] plan.clone_sources@[s]@ == target_of(
            pins[attached[s]],
        )
    &&& ops_ascending(op_views(plan.ops@))
    &&& forall|op: MaskOpView| #[trigger]
        op_views(plan.ops@).contains(op) <==> is_planned(rules, pins, op)
    &&& lists(views(plan.seal_readonly@), |path: Seq<Seq<u8>>| is_sealed(rules, pins, path))
}

impl MountPlan {
    /// Whether the plan installs nothing.
    pub fn is_empty(&self) -> (empty: bool)
        ensures
            empty == (self.clone_sources@.len() == 0 && self.ops@.len() == 0
                && self.seal_readonly@.len() == 0),
    {
        self.clone_sources.len() == 0 && self.ops.len() == 0 && self.seal_readonly.len() == 0
    }
}

proof fn lemma_op_lt_transitive(a: MaskOpView, b: MaskOpView, c: MaskOpView)
    requires
        op_lt(a, b),
        op_lt(b, c),
    ensures
        op_lt(a, c),
{
    if a.path() != b.path() && b.path() != c.path() && path_lt(a.path(), b.path()) && path_lt(
        b.path(),
        c.path(),
    ) {
        lemma_path_lt_transitive(a.path(), b.path(), c.path());
        lemma_path_lt_asymmetric(a.path(), c.path());
    }
}

proof fn lemma_op_lt_asymmetric(a: MaskOpView, b: MaskOpView)
    requires
        op_lt(a, b),
    ensures
        !op_lt(b, a),
{
    if a.path() != b.path() && path_lt(a.path(), b.path()) {
        lemma_path_lt_asymmetric(a.path(), b.path());
    }
}

/// Operations that are in no order are one operation.
proof fn lemma_planned_once(
    rules: Seq<NormalizedRule>,
    pins: Seq<Pin>,
    a: MaskOpView,
    b: MaskOpView,
)
    requires
        pins_match(rules, pins),
        is_planned(rules, pins, a),
        is_planned(rules, pins, b),
        !op_lt(a, b),
        !op_lt(b, a),
    ensures
        a == b,
{
    lemma_path_lt_total(a.path(), b.path());
    let paths = pin_paths(pins);
    if a is SkeletonDir || b is SkeletonDir {
    } else {
        let i = choose|k: int| 0 <= k < pins.len() && #[trigger] needs_op(rules, pins, k, a);
        let j = choose|k: int| 0 <= k < pins.len() && #[trigger] needs_op(rules, pins, k, b);
        assert(paths[i] == a.path());
        assert(paths[j] == b.path());
        if i < j {
            assert(path_lt(paths[i], paths[j]));
            lemma_path_lt_asymmetric(paths[i], paths[j]);
        }
        if j < i {
            assert(path_lt(paths[j], paths[i]));
            lemma_path_lt_asymmetric(paths[j], paths[i]);
        }
    }
}

impl MaskOp {
    /// The path that the operation works on.
    pub fn path(&self) -> (path: &CanonicalPath)
        ensures
            path@ == self@.path(),
    {
        match self {
            MaskOp::HideDir { target, .. } => &target.path,
            MaskOp::HideFile { target } => &target.path,
            MaskOp::SkeletonDir { path } => path,
            MaskOp::SkeletonFile { path } => path,
            MaskOp::Attach { path, .. } => path,
            MaskOp::Restrict { target, .. } => &target.path,
        }
    }

    /// The place among operations at one depth.
    pub fn rank(&self) -> (rank: u8)
        ensures
            rank == self@.rank(),
    {
        match self {
            MaskOp::HideDir { .. } | MaskOp::HideFile { .. } => 0,
            MaskOp::SkeletonDir { .. } | MaskOp::SkeletonFile { .. } => 1,
            MaskOp::Attach { .. } => 2,
            MaskOp::Restrict { .. } => 3,
        }
    }

    /// Compares two operations by the order in which they are done.
    fn compare(&self, other: &MaskOp) -> (order: Order)
        ensures
            order is Less <==> op_lt(self@, other@),
            order is Greater <==> op_lt(other@, self@),
    {
        proof {
            if op_lt(self@, other@) {
                lemma_op_lt_asymmetric(self@, other@);
            }
            lemma_path_lt_total(self@.path(), other@.path());
        }
        let depth = self.path().depth();
        let other_depth = other.path().depth();
        if depth != other_depth {
            return if depth < other_depth {
                Order::Less
            } else {
                Order::Greater
            };
        }
        if self.rank() != other.rank() {
            return if self.rank() < other.rank() {
                Order::Less
            } else {
                Order::Greater
            };
        }
        match self.path().compare(other.path()) {
            Order::Equal => {},
            order => {
                return order;
            },
        }
        match (self, other) {
            (MaskOp::SkeletonFile { .. }, MaskOp::SkeletonDir { .. }) => Order::Less,
            (MaskOp::SkeletonDir { .. }, MaskOp::SkeletonFile { .. }) => Order::Greater,
            _ => Order::Equal,
        }
    }
}

/// Adds `op` to an ascending list of operations, unless it is there.
fn insert_op(ops: &mut Vec<MaskOp>, op: MaskOp)
    requires
        ops_ascending(op_views(old(ops)@)),
        forall|o: MaskOpView| #[trigger]
            op_views(old(ops)@).contains(o) && !op_lt(o, op@) && !op_lt(op@, o) ==> o == op@,
    ensures
        ops_ascending(op_views(final(ops)@)),
        forall|o: MaskOpView| #[trigger]
            op_views(final(ops)@).contains(o) <==> o == op@ || op_views(old(ops)@).contains(o),
{
    let ghost before = op_views(ops@);
    let ghost new = op@;
    let mut at: usize = 0;
    while at < ops.len()
        invariant_except_break
            at <= ops@.len(),
            forall|j: int| 0 <= j < at ==> op_lt(#[trigger] before[j], new),
        invariant
            ops@ == old(ops)@,
            new == op@,
            before == op_views(ops@),
            ops_ascending(before),
            forall|o: MaskOpView| #[trigger]
                before.contains(o) && !op_lt(o, new) && !op_lt(new, o) ==> o == new,
        ensures
            at <= ops@.len(),
            forall|j: int| 0 <= j < at ==> op_lt(#[trigger] before[j], new),
            at < ops@.len() ==> op_lt(new, before[at as int]),
        decreases ops.len() - at,
    {
        assert(before[at as int] == ops@[at as int]@);
        match ops[at].compare(&op) {
            Order::Less => {},
            Order::Equal => {
                assert(before.contains(before[at as int]));
                return ;
            },
            Order::Greater => {
                break ;
            },
        }
        at += 1;
    }
    ops.insert(at, op);
    proof {
        let after = op_views(ops@);
        assert(after =~= before.insert(at as int, new));
        assert forall|i: int, j: int|
            #![trigger after[i], after[j]]
            0 <= i < j < after.len() implies op_lt(after[i], after[j]) by {
            if j < at {
                assert(op_lt(before[i], before[j]));
            } else if j == at {
                assert(op_lt(before[i], new));
            } else if i == at {
                if j - 1 > at {
                    assert(op_lt(before[at as int], before[j - 1]));
                    lemma_op_lt_transitive(new, before[at as int], before[j - 1]);
                }
            } else if i < at {
                assert(op_lt(before[i], before[j - 1]));
            } else {
                assert(op_lt(before[i - 1], before[j - 1]));
            }
        }
        assert forall|o: MaskOpView| #[trigger] after.contains(o) <==> o == new || before.contains(
            o,
        ) by {
            if o == new {
                assert(after[at as int] == o);
            }
            if before.contains(o) {
                let k = choose|k: int| 0 <= k < before.len() && before[k] == o;
                if k < at {
                    assert(after[k] == o);
                } else {
                    assert(after[k + 1] == o);
                }
            }
            if after.contains(o) && o != new {
                let k = choose|k: int| 0 <= k < after.len() && after[k] == o;
                if k < at {
                    assert(before[k] == o);
                } else {
                    assert(before[k - 1] == o);
                }
            }
        }
    }
}

/// The hidden directories that something is attached in again.
fn sealed_hides(
    Ghost(rules): Ghost<Seq<NormalizedRule>>,
    pins: &Vec<Pin>,
    decisions: &Vec<Decision>,
) -> (sealed: Vec<CanonicalPath>)
    requires
        decisions@.len() == pins@.len(),
        decisions_match(rules, pins@, decisions@),
    ensures
        lists(views(sealed@), |path: Seq<Seq<u8>>| is_sealed(rules, pins@, path)),
{
    let mut sealed: Vec<CanonicalPath> = Vec::new();
    let mut i: usize = 0;
    assert(views(sealed@) =~= seq![]);
    while i < pins.len()
        invariant
            i <= pins@.len(),
            decisions@.len() == pins@.len(),
            decisions_match(rules, pins@, decisions@),
            paths_ascending(views(sealed@)),
            forall|path: Seq<Seq<u8>>| #[trigger]
                views(sealed@).contains(path) <==> exists|k: int|
                    0 <= k < i && #[trigger] seals(rules, pins@, k, path),
        decreases pins.len() - i,
    {
        let decision = decisions[i];
        let ghost before = views(sealed@);
        assert(decision_matches(rules, pins@, decisions@[i as int], pins@[i as int].path@));
        if decision.attached {
            match decision.hidden_by {
                Some(root) => {
                    insert_path(&mut sealed, pins[root].path.clone());
                },
                None => {},
            }
        }
        proof {
            assert forall|path: Seq<Seq<u8>>| #[trigger]
                views(sealed@).contains(path) <==> exists|k: int|
                    0 <= k < i + 1 && #[trigger] seals(rules, pins@, k, path) by {
                assert(before.contains(path) ==> views(sealed@).contains(path));
                if seals(rules, pins@, i as int, path) {
                    assert(views(sealed@).contains(path));
                }
                if views(sealed@).contains(path) && !before.contains(path) {
                    assert(seals(rules, pins@, i as int, path));
                }
            }
        }
        i += 1;
    }
    sealed
}

/// The directories that are created inside hiding tmpfs mounts.
fn skeleton_dirs(
    Ghost(rules): Ghost<Seq<NormalizedRule>>,
    pins: &Vec<Pin>,
    decisions: &Vec<Decision>,
) -> (dirs: Vec<CanonicalPath>)
    requires
        decisions@.len() == pins@.len(),
        decisions_match(rules, pins@, decisions@),
    ensures
        lists(views(dirs@), |dir: Seq<Seq<u8>>| is_skeleton_dir(rules, pins@, dir)),
{
    let mut dirs: Vec<CanonicalPath> = Vec::new();
    let mut i: usize = 0;
    assert(views(dirs@) =~= seq![]);
    while i < pins.len()
        invariant
            i <= pins@.len(),
            decisions@.len() == pins@.len(),
            decisions_match(rules, pins@, decisions@),
            paths_ascending(views(dirs@)),
            forall|dir: Seq<Seq<u8>>| #[trigger]
                views(dirs@).contains(dir) <==> exists|k: int|
                    0 <= k < i && #[trigger] needs_dir(rules, pins@, k, dir),
        decreases pins.len() - i,
    {
        let decision = decisions[i];
        let path = &pins[i].path;
        let ghost p = path@;
        let ghost before = views(dirs@);
        assert(decision_matches(rules, pins@, decisions@[i as int], pins@[i as int].path@));
        if decision.attached {
            match decision.hidden_by {
                Some(root) => {
                    let root_depth = pins[root].path.depth();
                    let depth = path.depth();
                    let mut d: usize = depth;
                    while d > root_depth && d > 0
                        invariant
                            d <= depth == p.len(),
                            p == path@,
                            path == pins@[i as int].path,
                            i < pins@.len(),
                            is_reexposed(rules, p),
                            root_depth == mask_above(rules, p).hide_root->0.len(),
                            paths_ascending(views(dirs@)),
                            forall|dir: Seq<Seq<u8>>| #[trigger]
                                views(dirs@).contains(dir) <==> before.contains(dir) || (d
                                    < dir.len() && needs_dir(rules, pins@, i as int, dir)),
                        decreases d,
                    {
                        let ghost partial = views(dirs@);
                        let dir = path.ancestor(d);
                        let ghost added = dir@;
                        proof {
                            assert(added.is_prefix_of(p)) by {
                                assert(added =~= p.subrange(0, added.len() as int));
                            }
                            assert forall|other: Seq<Seq<u8>>|
                                other.len() == d && #[trigger] other.is_prefix_of(p) implies other
                                == added by {
                                assert(other =~= p.subrange(0, other.len() as int));
                            }
                        }
                        if d < depth || pins[i].is_dir {
                            insert_path(&mut dirs, dir);
                        }
                        d -= 1;
                        proof {
                            assert forall|dir: Seq<Seq<u8>>| #[trigger]
                                views(dirs@).contains(dir) <==> before.contains(dir) || (d
                                    < dir.len() && needs_dir(rules, pins@, i as int, dir)) by {
                                assert(partial.contains(dir) ==> views(dirs@).contains(dir));
                                if dir.len() == d + 1 && needs_dir(rules, pins@, i as int, dir) {
                                    assert(dir == added);
                                }
                            }
                        }
                    }
                    proof {
                        assert forall|dir: Seq<Seq<u8>>| needs_dir(
                            rules,
                            pins@,
                            i as int,
                            dir,
                        ) implies d < dir.len() by {
                            if dir.len() == p.len() {
                                lemma_hide_root_is_above(rules, p);
                            }
                        }
                    }
                },
                None => {},
            }
        }
        proof {
            assert forall|dir: Seq<Seq<u8>>| #[trigger]
                views(dirs@).contains(dir) <==> exists|k: int|
                    0 <= k < i + 1 && #[trigger] needs_dir(rules, pins@, k, dir) by {
                assert(before.contains(dir) ==> views(dirs@).contains(dir));
                if needs_dir(rules, pins@, i as int, dir) {
                    assert(views(dirs@).contains(dir));
                }
                if views(dirs@).contains(dir) && !before.contains(dir) {
                    assert(needs_dir(rules, pins@, i as int, dir));
                }
            }
        }
        i += 1;
    }
    dirs
}

/// What hides a path from above lies properly above it.
pub(crate) proof fn lemma_hide_root_is_above(rules: Seq<NormalizedRule>, path: Seq<Seq<u8>>)
    requires
        mask_above(rules, path).hide_root is Some,
    ensures
        mask_above(rules, path).hide_root->0.is_prefix_of(path),
        mask_above(rules, path).hide_root->0.len() < path.len(),
{
    let parent = path.drop_last();
    lemma_hide_root_is_at_or_above(rules, parent);
    assert(parent =~= path.subrange(0, path.len() - 1));
    lemma_prefix_transitive(mask_at(rules, parent).hide_root->0, parent, path);
}

pub(crate) proof fn lemma_hide_root_is_at_or_above(rules: Seq<NormalizedRule>, path: Seq<Seq<u8>>)
    requires
        mask_at(rules, path).hide_root is Some,
    ensures
        mask_at(rules, path).hide_root->0.is_prefix_of(path),
        is_rule_path(rules, mask_at(rules, path).hide_root->0),
        residual_at(rules, mask_at(rules, path).hide_root->0).read,
    decreases path.len(),
{
    assert(path =~= path.subrange(0, path.len() as int));
    if path.len() > 0 && mask_at(rules, path.drop_last()).hide_root is Some {
        let parent = path.drop_last();
        lemma_hide_root_is_at_or_above(rules, parent);
        assert(parent =~= path.subrange(0, path.len() - 1));
        lemma_prefix_transitive(mask_at(rules, parent).hide_root->0, parent, path);
    }
}

/// Whether `ops` holds exactly what the first `n` pins need.
spec fn holds_ops(
    rules: Seq<NormalizedRule>,
    pins: Seq<Pin>,
    n: int,
    ops: Seq<MaskOpView>,
) -> bool {
    &&& ops_ascending(ops)
    &&& forall|op: MaskOpView| #[trigger]
        ops.contains(op) <==> exists|k: int|
            0 <= k < n && #[trigger] needs_op(rules, pins, k, op)
}

/// Adds an operation that pin `k` needs.
fn add_needed_op(
    Ghost(rules): Ghost<Seq<NormalizedRule>>,
    pins: &Vec<Pin>,
    Ghost(k): Ghost<int>,
    ops: &mut Vec<MaskOp>,
    op: MaskOp,
)
    requires
        pins_match(rules, pins@),
        0 <= k < pins@.len(),
        needs_op(rules, pins@, k, op@),
        ops_ascending(op_views(old(ops)@)),
        forall|o: MaskOpView| #[trigger]
            op_views(old(ops)@).contains(o) ==> is_planned(rules, pins@, o),
    ensures
        ops_ascending(op_views(final(ops)@)),
        forall|o: MaskOpView| #[trigger]
            op_views(final(ops)@).contains(o) <==> o == op@ || op_views(old(ops)@).contains(o),
        forall|o: MaskOpView| #[trigger]
            op_views(final(ops)@).contains(o) ==> is_planned(rules, pins@, o),
{
    proof {
        assert(is_planned(rules, pins@, op@));
        assert forall|o: MaskOpView| #[trigger]
            op_views(ops@).contains(o) && !op_lt(o, op@) && !op_lt(op@, o) implies o == op@ by {
            lemma_planned_once(rules, pins@, o, op@);
        }
    }
    insert_op(ops, op);
}

/// The target that a pin stands for.
fn target_for(pin: &Pin) -> (target: Target)
    ensures
        target@ == target_of(*pin),
{
    Target { path: pin.path.clone(), dev: pin.dev, ino: pin.ino }
}

/// The mask on one pinned path, if a denied right is left to take away.
fn mask_op(
    Ghost(rules): Ghost<Seq<NormalizedRule>>,
    pins: &Vec<Pin>,
    k: usize,
    decision: Decision,
    sealed: &Vec<CanonicalPath>,
) -> (op: Option<MaskOp>)
    requires
        k < pins@.len(),
        decision_matches(rules, pins@, decision, pins@[k as int].path@),
        lists(views(sealed@), |path: Seq<Seq<u8>>| is_sealed(rules, pins@, path)),
    ensures
        match op {
            Some(op) => mask_op_at(rules, pins@, k as int) == Some(op@),
            None => mask_op_at(rules, pins@, k as int) is None,
        },
{
    let pin = &pins[k];
    let residual = decision.residual;
    if residual.read {
        if pin.is_dir {
            let seal_later = contains_path(sealed, &pin.path);
            proof {
                let wanted = |path: Seq<Seq<u8>>| is_sealed(rules, pins@, path);
                assert(views(sealed@).contains(pin.path@) <==> wanted(pin.path@));
            }
            let mode: &'static str = if seal_later {
                "0111"
            } else {
                "0"
            };
            Some(MaskOp::HideDir { target: target_for(pin), mode, seal_later })
        } else {
            Some(MaskOp::HideFile { target: target_for(pin) })
        }
    } else if residual.write || residual.execute {
        let mut attr_set: u64 = 0;
        if residual.write {
            attr_set = attr_set + MOUNT_ATTR_RDONLY;
        }
        if residual.execute {
            attr_set = attr_set + MOUNT_ATTR_NOEXEC;
        }
        Some(MaskOp::Restrict { target: target_for(pin), attr_set, recursive: pin.is_dir })
    } else {
        None
    }
}

/// The operations of the plan, in the order in which they are done.
fn plan_ops(
    Ghost(rules): Ghost<Seq<NormalizedRule>>,
    pins: &Vec<Pin>,
    decisions: &Vec<Decision>,
    sealed: &Vec<CanonicalPath>,
) -> (ops: Vec<MaskOp>)
    requires
        pins_match(rules, pins@),
        decisions@.len() == pins@.len(),
        decisions_match(rules, pins@, decisions@),
        lists(views(sealed@), |path: Seq<Seq<u8>>| is_sealed(rules, pins@, path)),
    ensures
        ops_ascending(op_views(ops@)),
        forall|op: MaskOpView| #[trigger]
            op_views(ops@).contains(op) <==> is_planned(rules, pins@, op),
{
    let mut ops: Vec<MaskOp> = Vec::new();
    assert(op_views(ops@) =~= seq![]);
    let mut slot: usize = 0;
    let mut i: usize = 0;
    while i < pins.len()
        invariant
            i <= pins@.len(),
            pins_match(rules, pins@),
            decisions@.len() == pins@.len(),
            decisions_match(rules, pins@, decisions@),
            lists(views(sealed@), |path: Seq<Seq<u8>>| is_sealed(rules, pins@, path)),
            slot == attached_before(rules, pins@, i as int).len(),
            slot <= i,
            holds_ops(rules, pins@, i as int, op_views(ops@)),
        decreases pins.len() - i,
    {
        let decision = decisions[i];
        let ghost before = op_views(ops@);
        let ghost k = i as int;
        proof {
            assert(decision_matches(rules, pins@, decisions@[k], pins@[k].path@));
            assert forall|o: MaskOpView| #[trigger] before.contains(o) implies is_planned(
                rules,
                pins@,
                o,
            ) by {
                let j = choose|j: int| 0 <= j < k && #[trigger] needs_op(rules, pins@, j, o);
                assert(needs_op(rules, pins@, j, o));
            }
        }
        if decision.attached && decision.hidden_by.is_some() && !pins[i].is_dir {
            let op = MaskOp::SkeletonFile { path: pins[i].path.clone() };
            assert(needs_op(rules, pins@, k, op@));
            add_needed_op(Ghost(rules), pins, Ghost(k), &mut ops, op);
        }
        let ghost with_file = op_views(ops@);
        assert(forall|o: MaskOpView| #[trigger]
            with_file.contains(o) <==> before.contains(o) || skeleton_file_at(rules, pins@, k)
                == Some(o));
        if decision.attached {
            let op = MaskOp::Attach { slot, path: pins[i].path.clone() };
            assert(needs_op(rules, pins@, k, op@));
            add_needed_op(Ghost(rules), pins, Ghost(k), &mut ops, op);
            slot += 1;
        }
        let ghost with_attach = op_views(ops@);
        assert(forall|o: MaskOpView| #[trigger]
            with_attach.contains(o) <==> with_file.contains(o) || attach_at(rules, pins@, k)
                == Some(o));
        match mask_op(Ghost(rules), pins, i, decision, sealed) {
            Some(op) => {
                assert(needs_op(rules, pins@, k, op@));
                add_needed_op(Ghost(rules), pins, Ghost(k), &mut ops, op);
            },
            None => {},
        }
        proof {
            let after = op_views(ops@);
            assert forall|o: MaskOpView| #[trigger] after.contains(o) <==> exists|j: int|
                0 <= j < k + 1 && #[trigger] needs_op(rules, pins@, j, o) by {
                assert(after.contains(o) <==> with_attach.contains(o) || mask_op_at(
                    rules,
                    pins@,
                    k,
                ) == Some(o));
                assert(with_attach.contains(o) <==> with_file.contains(o) || attach_at(
                    rules,
                    pins@,
                    k,
                ) == Some(o));
                assert(with_file.contains(o) <==> before.contains(o) || skeleton_file_at(
                    rules,
                    pins@,
                    k,
                ) == Some(o));
                if needs_op(rules, pins@, k, o) {
                    assert(after.contains(o));
                }
                if after.contains(o) && !before.contains(o) {
                    assert(needs_op(rules, pins@, k, o));
                }
            }
        }
        i += 1;
    }
    let dirs = skeleton_dirs(Ghost(rules), pins, decisions);
    let ghost all_dirs = views(dirs@);
    let ghost plain = op_views(ops@);
    let mut d: usize = 0;
    while d < dirs.len()
        invariant
            d <= dirs@.len(),
            pins_match(rules, pins@),
            all_dirs == views(dirs@),
            lists(all_dirs, |dir: Seq<Seq<u8>>| is_skeleton_dir(rules, pins@, dir)),
            holds_ops(rules, pins@, pins@.len() as int, plain),
            ops_ascending(op_views(ops@)),
            forall|op: MaskOpView| #[trigger]
                op_views(ops@).contains(op) <==> plain.contains(op) || (op matches
                    MaskOpView::SkeletonDir { path } && exists|j: int|
                    0 <= j < d && #[trigger] all_dirs[j] == path),
        decreases dirs.len() - d,
    {
        let ghost before = op_views(ops@);
        let op = MaskOp::SkeletonDir { path: dirs[d].clone() };
        let ghost new = op@;
        proof {
            let wanted = |dir: Seq<Seq<u8>>| is_skeleton_dir(rules, pins@, dir);
            assert(all_dirs[d as int] == dirs@[d as int]@);
            assert(all_dirs.contains(all_dirs[d as int]));
            assert(wanted(all_dirs[d as int]));
            assert(is_planned(rules, pins@, new));
            assert forall|o: MaskOpView| #[trigger]
                before.contains(o) && !op_lt(o, new) && !op_lt(new, o) implies o == new by {
                if plain.contains(o) {
                    let j = choose|j: int|
                        0 <= j < pins@.len() && #[trigger] needs_op(rules, pins@, j, o);
                    assert(needs_op(rules, pins@, j, o));
                } else {
                    let path = o.path();
                    let j = choose|j: int| 0 <= j < d && #[trigger] all_dirs[j] == path;
                    assert(all_dirs.contains(path));
                    assert(wanted(path));
                }
                lemma_planned_once(rules, pins@, o, new);
            }
        }
        insert_op(&mut ops, op);
        proof {
            assert forall|o: MaskOpView| #[trigger]
                op_views(ops@).contains(o) <==> plain.contains(o) || (o matches
                    MaskOpView::SkeletonDir { path } && exists|j: int|
                    0 <= j < d + 1 && #[trigger] all_dirs[j] == path) by {
                assert(op_views(ops@).contains(o) <==> o == new || before.contains(o));
                assert(all_dirs[d as int] == new.path());
            }
        }
        d += 1;
    }
    proof {
        let wanted = |dir: Seq<Seq<u8>>| is_skeleton_dir(rules, pins@, dir);
        assert forall|op: MaskOpView| #[trigger] op_views(ops@).contains(op) <==> is_planned(
            rules,
            pins@,
            op,
        ) by {
            assert(plain.contains(op) <==> exists|k: int|
                0 <= k < pins@.len() && #[trigger] needs_op(rules, pins@, k, op));
            if op is SkeletonDir {
                let path = op.path();
                assert(op == MaskOpView::SkeletonDir { path });
                assert(all_dirs.contains(path) <==> wanted(path));
                if all_dirs.contains(path) {
                    let j = choose|j: int| 0 <= j < all_dirs.len() && all_dirs[j] == path;
                    assert(all_dirs[j] == path);
                }
            }
        }
    }
    ops
}

/// The subtrees that are cloned before anything is masked.
fn clone_sources(
    Ghost(rules): Ghost<Seq<NormalizedRule>>,
    pins: &Vec<Pin>,
    decisions: &Vec<Decision>,
) -> (sources: Vec<Target>)
    requires
        decisions@.len() == pins@.len(),
        decisions_match(rules, pins@, decisions@),
    ensures
        ({
            let attached = attached_before(rules, pins@, pins@.len() as int);
            &&& sources@.len() == attached.len()
            &&& forall|s: int|
                0 <= s < attached.len() ==> #[trigger] sources@[s]@ == target_of(
                    pins@[attached[s]],
                )
        }),
{
    let mut sources: Vec<Target> = Vec::new();
    let mut i: usize = 0;
    while i < pins.len()
        invariant
            i <= pins@.len(),
            decisions@.len() == pins@.len(),
            decisions_match(rules, pins@, decisions@),
            sources@.len() == attached_before(rules, pins@, i as int).len(),
            forall|s: int|
                0 <= s < sources@.len() ==> #[trigger] sources@[s]@ == target_of(
                    pins@[attached_before(rules, pins@, i as int)[s]],
                ),
        decreases pins.len() - i,
    {
        let ghost before = attached_before(rules, pins@, i as int);
        assert(decision_matches(rules, pins@, decisions@[i as int], pins@[i as int].path@));
        if decisions[i].attached {
            assert(attached_before(rules, pins@, i + 1) == before.push(i as int));
            sources.push(target_for(&pins[i]));
        }
        i += 1;
    }
    sources
}

/// Compiles the deny-under-allow boundaries of the ordered policy into a mount
/// plan.
///
/// Masks and clone sources carry the pinned inode identity, so the child
/// installs them on the inodes that the policy was compiled against or refuses
/// to spawn. Skeletons and attachments stay plain paths: they are entries inside
/// a hiding tmpfs that the plan itself mounts.
pub fn plan_masks(rules: &Vec<NormalizedRule>, pins: &Vec<Pin>, grants: &Grants) -> (plan: Result<
    MountPlan,
    Error,
>)
    requires
        pins_match(rules@, pins@),
        grants_match(rules@, *grants),
    ensures
        match plan {
            Ok(plan) => is_expressible(rules@) && is_durable(rules@) && is_plan(
                rules@,
                pins@,
                plan,
            ),
            Err(error) => is_refusal(rules@, error),
        },
{
    let decisions = match decide(rules, pins, grants) {
        Ok(decisions) => decisions,
        Err(error) => {
            return Err(error);
        },
    };
    match reject_relocatable_policy_paths(rules, pins, &decisions, grants) {
        Ok(_) => {},
        Err(error) => {
            return Err(error);
        },
    }
    let sealed = sealed_hides(Ghost(rules@), pins, &decisions);
    let ops = plan_ops(Ghost(rules@), pins, &decisions, &sealed);
    let sources = clone_sources(Ghost(rules@), pins, &decisions);
    Ok(MountPlan { clone_sources: sources, ops, seal_readonly: sealed })
}

/// Whether `error` refuses the policy for the first reason there is: a rule path
/// that masks cannot express, and else a policy path that can be relocated.
pub open spec fn is_refusal(rules: Seq<NormalizedRule>, error: Error) -> bool {
    ||| exists|path: Seq<Seq<u8>>|
        is_first_inexpressible(rules, path) && is_unsupported(
            error,
            #[trigger] inexpressible_text(rules, path),
        )
    ||| is_expressible(rules) && exists|path: Seq<Seq<u8>>, dir: Seq<Seq<u8>>|
        is_first_relocatable(rules, path, dir) && is_unsupported(
            error,
            #[trigger] not_durable_text(path, dir),
        )
}

} // verus!
