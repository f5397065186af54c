//! Per-spawn IPC isolation and mount-namespace masking.
//!
//! Every child gets a fresh IPC namespace for SysV IPC and POSIX message
//! queues, a corresponding private `/dev/mqueue` mount, and a private
//! `/dev/shm` tmpfs for POSIX shared memory and named semaphores. The tmpfs is
//! capped at 64 MiB; both private mounts use `nosuid,nodev,noexec`.
//!
//! The masks are mounts inside a per-spawn user + mount namespace. Paths
//! re-allowed beneath a masked subtree are cloned *before* the mask shadows
//! them and attached back. After masking, a *second* user + mount namespace
//! locks every mask mount, so not even a child that may create namespaces of
//! its own can unmount one.
//!
//! The steps are laid out in the parent; the child only performs them, one
//! after the other.
use crate::linux::masks::{is_attached, Pin};
use crate::linux::plan::{
    attached_before, is_plan, is_planned, needs_op, op_views, target_of, MaskOp, MaskOpView,
    MountPlan, Target, TargetView, MOUNT_ATTR_NOEXEC, MOUNT_ATTR_RDONLY,
};
use crate::linux::rules::NormalizedRule;
use crate::path::CanonicalPath;
use crate::text::{decimal, push_decimal};
use vstd::prelude::*;

verus! {

/// `MOUNT_ATTR_NOSUID` of `mount_setattr(2)`.
pub const MOUNT_ATTR_NOSUID: u64 = 2;

/// `MOUNT_ATTR_NODEV` of `mount_setattr(2)`.
pub const MOUNT_ATTR_NODEV: u64 = 4;

/// `MS_RDONLY` of `mount(2)`.
pub const MS_RDONLY: u64 = 1;

/// `MS_NOSUID` of `mount(2)`.
pub const MS_NOSUID: u64 = 2;

/// `MS_NODEV` of `mount(2)`.
pub const MS_NODEV: u64 = 4;

/// `MS_NOEXEC` of `mount(2)`.
pub const MS_NOEXEC: u64 = 8;

/// The mode of a directory on the way to something that is attached again: it can
/// only be traversed.
pub const TRAVERSAL_MODE: u32 = 0o111;

/// The mode of a file that nobody can use.
pub const CLOSED_MODE: u32 = 0;

/// What a fresh file system may not carry: set-ID programs, devices and programs.
/// With `read_only` it takes no writes either.
pub open spec fn fresh_mount_flags(read_only: bool) -> u64 {
    MS_NOSUID | MS_NODEV | MS_NOEXEC | (if read_only {
        MS_RDONLY
    } else {
        0
    })
}

/// The flags that a fresh file system is mounted with.
pub fn mount_flags(read_only: bool) -> (flags: u64)
    ensures
        flags == fresh_mount_flags(read_only),
{
    MS_NOSUID | MS_NODEV | MS_NOEXEC | (if read_only {
        MS_RDONLY
    } else {
        0
    })
}

/// What the mount that hides a file takes away. It is read-only, so that not even
/// the owner can open the mode of the file again.
pub open spec fn hidden_file_attributes() -> u64 {
    MOUNT_ATTR_RDONLY | MOUNT_ATTR_NOSUID | MOUNT_ATTR_NODEV | MOUNT_ATTR_NOEXEC
}

/// The attributes of the mount that hides a file.
pub fn empty_file_attributes() -> (attr_set: u64)
    ensures
        attr_set == hidden_file_attributes(),
{
    MOUNT_ATTR_RDONLY | MOUNT_ATTR_NOSUID | MOUNT_ATTR_NODEV | MOUNT_ATTR_NOEXEC
}

/// Where a file system is mounted.
#[derive(Debug, PartialEq, Eq)]
pub enum MountPoint {
    /// A fixed directory.
    Fixed(&'static str),
    /// A path of the policy.
    At(CanonicalPath),
}

/// One step of the child's namespace setup. Each is a single action of the
/// kernel; a step that fails fails the spawn.
#[derive(Debug, PartialEq, Eq)]
pub enum NamespaceStep {
    /// Leave the parent's user and mount namespaces, and with `ipc` its IPC
    /// namespace too.
    Unshare {
        /// Whether the IPC namespace is left too.
        ipc: bool,
    },
    /// Write a file of `/proc` in one call.
    WriteFile {
        /// The file.
        file: &'static str,
        /// What is written.
        contents: String,
    },
    /// Keep mounts from propagating to the host.
    MakeSlave,
    /// Mount a fresh file system.
    MountFs {
        /// The label of the mount.
        source: &'static str,
        /// Where it is mounted.
        at: MountPoint,
        /// The kind of file system.
        fstype: &'static str,
        /// The flags of the mount.
        flags: u64,
        /// The mount options.
        options: String,
    },
    /// Resolve a path again and refuse to go on unless it still names the inode
    /// that the policy was compiled against.
    CheckIdentity {
        /// The path and the inode.
        target: Target,
    },
    /// Clone the mounts at a path, recursively, into a slot.
    CloneTree {
        /// The slot.
        slot: usize,
        /// The path.
        path: CanonicalPath,
    },
    /// Mount an empty file of a file system of its own over a path.
    MountEmptyFile {
        /// The path.
        path: CanonicalPath,
        /// The mode of the file.
        mode: u32,
        /// The attributes of the mount.
        attr_set: u64,
    },
    /// Create a directory; one that is there is fine.
    MakeDir {
        /// The directory.
        path: CanonicalPath,
        /// The mode of the directory.
        mode: u32,
    },
    /// Create an empty file.
    MakeFile {
        /// The file.
        path: CanonicalPath,
        /// The mode of the file.
        mode: u32,
    },
    /// Attach the clone of a slot at a path and empty the slot.
    AttachClone {
        /// The slot.
        slot: usize,
        /// The path.
        path: CanonicalPath,
    },
    /// Bind a path over itself.
    BindSelf {
        /// The path.
        path: CanonicalPath,
        /// Whether the mounts beneath are bound too.
        recursive: bool,
    },
    /// Set attributes on the mount at a path.
    SetAttributes {
        /// The path.
        path: CanonicalPath,
        /// Whether the mounts beneath are changed too.
        recursive: bool,
        /// The attributes.
        attr_set: u64,
    },
}

/// What a [`MountPoint`] says.
pub enum MountPointView {
    Fixed(Seq<char>),
    At(Seq<Seq<u8>>),
}

/// What a [`NamespaceStep`] says.
pub enum NamespaceStepView {
    Unshare { ipc: bool },
    WriteFile { file: Seq<char>, contents: Seq<char> },
    MakeSlave,
    MountFs {
        source: Seq<char>,
        at: MountPointView,
        fstype: Seq<char>,
        flags: u64,
        options: Seq<char>,
    },
    CheckIdentity { target: TargetView },
    CloneTree { slot: int, path: Seq<Seq<u8>> },
    MountEmptyFile { path: Seq<Seq<u8>>, mode: u32, attr_set: u64 },
    MakeDir { path: Seq<Seq<u8>>, mode: u32 },
    MakeFile { path: Seq<Seq<u8>>, mode: u32 },
    AttachClone { slot: int, path: Seq<Seq<u8>> },
    BindSelf { path: Seq<Seq<u8>>, recursive: bool },
    SetAttributes { path: Seq<Seq<u8>>, recursive: bool, attr_set: u64 },
}

impl View for MountPoint {
    type V = MountPointView;

    open spec fn view(&self) -> MountPointView {
        match self {
            MountPoint::Fixed(path) => MountPointView::Fixed(path@),
            MountPoint::At(path) => MountPointView::At(path@),
        }
    }
}

impl View for NamespaceStep {
    type V = NamespaceStepView;

    open spec fn view(&self) -> NamespaceStepView {
        match self {
            NamespaceStep::Unshare { ipc } => NamespaceStepView::Unshare { ipc: *ipc },
            NamespaceStep::WriteFile { file, contents } => NamespaceStepView::WriteFile {
                file: file@,
                contents: contents@,
            },
            NamespaceStep::MakeSlave => NamespaceStepView::MakeSlave,
            NamespaceStep::MountFs { source, at, fstype, flags, options } =>
                NamespaceStepView::MountFs {
                source: source@,
                at: at@,
                fstype: fstype@,
                flags: *flags,
                options: options@,
            },
            NamespaceStep::CheckIdentity { target } => NamespaceStepView::CheckIdentity {
                target: target@,
            },
            NamespaceStep::CloneTree { slot, path } => NamespaceStepView::CloneTree {
                slot: *slot as int,
                path: path@,
            },
            NamespaceStep::MountEmptyFile { path, mode, attr_set } =>
                NamespaceStepView::MountEmptyFile {
                path: path@,
                mode: *mode,
                attr_set: *attr_set,
            },
            NamespaceStep::MakeDir { path, mode } => NamespaceStepView::MakeDir {
                path: path@,
                mode: *mode,
            },
            NamespaceStep::MakeFile { path, mode } => NamespaceStepView::MakeFile {
                path: path@,
                mode: *mode,
            },
            NamespaceStep::AttachClone { slot, path } => NamespaceStepView::AttachClone {
                slot: *slot as int,
                path: path@,
            },
            NamespaceStep::BindSelf { path, recursive } => NamespaceStepView::BindSelf {
                path: path@,
                recursive: *recursive,
            },
            NamespaceStep::SetAttributes { path, recursive, attr_set } =>
                NamespaceStepView::SetAttributes {
                path: path@,
                recursive: *recursive,
                attr_set: *attr_set,
            },
        }
    }
}

/// The steps in a vector of steps.
pub open spec fn step_views(steps: Seq<NamespaceStep>) -> Seq<NamespaceStepView> {
    steps.map_values(|step: NamespaceStep| step@)
}

/// The single identity-mapping line that an unprivileged process may install
/// for itself.
pub open spec fn identity_line(id: nat) -> Seq<char> {
    decimal(id) + " "@ + decimal(id) + " 1\n"@
}

/// Leaving the namespaces: the one mapping line for the own euid and egid,
/// setgroups denied first, and propagation to the host stopped.
pub open spec fn entering(ipc: bool, uid: nat, gid: nat) -> Seq<NamespaceStepView> {
    seq![
        NamespaceStepView::Unshare { ipc },
        NamespaceStepView::WriteFile { file: "/proc/self/setgroups"@, contents: "deny"@ },
        NamespaceStepView::WriteFile { file: "/proc/self/gid_map"@, contents: identity_line(gid) },
        NamespaceStepView::WriteFile { file: "/proc/self/uid_map"@, contents: identity_line(uid) },
        NamespaceStepView::MakeSlave,
    ]
}

/// The private message-queue file system. An inherited one stays associated
/// with the IPC namespace in which it was mounted.
pub open spec fn private_mqueue() -> NamespaceStepView {
    NamespaceStepView::MountFs {
        source: "guardrail-mqueue"@,
        at: MountPointView::Fixed("/dev/mqueue"@),
        fstype: "mqueue"@,
        flags: fresh_mount_flags(false),
        options: seq![],
    }
}

/// The private shared-memory file system, capped at 64 MiB.
pub open spec fn private_shm() -> NamespaceStepView {
    NamespaceStepView::MountFs {
        source: "guardrail-shm"@,
        at: MountPointView::Fixed("/dev/shm"@),
        fstype: "tmpfs"@,
        flags: fresh_mount_flags(false),
        options: "mode=1777,size=67108864"@,
    }
}

/// Cloning the first `n` sources, each into its slot.
pub open spec fn cloning(sources: Seq<Target>, n: int) -> Seq<NamespaceStepView>
    decreases n,
{
    if n <= 0 {
        seq![]
    } else {
        cloning(sources, n - 1) + seq![
            NamespaceStepView::CheckIdentity { target: sources[n - 1]@ },
            NamespaceStepView::CloneTree { slot: n - 1, path: sources[n - 1]@.path },
        ]
    }
}

/// What one mask operation comes to.
pub open spec fn masking(op: MaskOpView) -> Seq<NamespaceStepView> {
    match op {
        MaskOpView::HideDir { target, mode, seal_later } => seq![
            NamespaceStepView::CheckIdentity { target },
            NamespaceStepView::MountFs {
                source: "guardrail"@,
                at: MountPointView::At(target.path),
                fstype: "tmpfs"@,
                flags: fresh_mount_flags(!seal_later),
                options: "mode="@ + mode,
            },
        ],
        MaskOpView::HideFile { target } => seq![
            NamespaceStepView::CheckIdentity { target },
            NamespaceStepView::MountEmptyFile {
                path: target.path,
                mode: CLOSED_MODE,
                attr_set: hidden_file_attributes(),
            },
        ],
        MaskOpView::SkeletonDir { path } => seq![
            NamespaceStepView::MakeDir { path, mode: TRAVERSAL_MODE },
        ],
        MaskOpView::SkeletonFile { path } => seq![
            NamespaceStepView::MakeFile { path, mode: CLOSED_MODE },
        ],
        MaskOpView::Attach { slot, path } => seq![NamespaceStepView::AttachClone { slot, path }],
        MaskOpView::Restrict { target, attr_set, recursive } => seq![
            NamespaceStepView::CheckIdentity { target },
            NamespaceStepView::BindSelf { path: target.path, recursive },
            NamespaceStepView::SetAttributes { path: target.path, recursive, attr_set },
        ],
    }
}

/// What the first `n` mask operations come to.
pub open spec fn masking_all(ops: Seq<MaskOp>, n: int) -> Seq<NamespaceStepView>
    decreases n,
{
    if n <= 0 {
        seq![]
    } else {
        masking_all(ops, n - 1) + masking(ops[n - 1]@)
    }
}

/// Sealing hiding tmpfs mounts read-only. Not recursive: the attached clones on
/// top keep their own rights.
pub open spec fn sealing(paths: Seq<CanonicalPath>) -> Seq<NamespaceStepView> {
    Seq::new(
        paths.len(),
        |i: int|
            NamespaceStepView::SetAttributes {
                path: paths[i]@,
                recursive: false,
                attr_set: MOUNT_ATTR_RDONLY,
            },
    )
}

/// The whole namespace setup of a child.
pub open spec fn namespace_setup(plan: MountPlan, uid: nat, gid: nat) -> Seq<NamespaceStepView> {
    entering(true, uid, gid) + seq![private_mqueue(), private_shm()] + cloning(
        plan.clone_sources@,
        plan.clone_sources@.len() as int,
    ) + masking_all(plan.ops@, plan.ops@.len() as int) + sealing(plan.seal_readonly@) + entering(
        false,
        uid,
        gid,
    )
}

/// The identity-mapping line for `id`.
pub fn identity_map(id: u64) -> (line: String)
    ensures
        line@ == identity_line(id as nat),
{
    let mut line = String::new();
    push_decimal(&mut line, id);
    line.append(" ");
    push_decimal(&mut line, id);
    line.append(" 1\n");
    assert(line@ =~= identity_line(id as nat));
    line
}

/// Whether a resolved path still names the pinned inode.
pub fn is_same_inode(target: &Target, dev: u64, ino: u64) -> (same: bool)
    ensures
        same == (target@.dev == dev && target@.ino == ino),
{
    target.dev == dev && target.ino == ino
}

/// Appends the steps that leave the namespaces.
fn enter_namespaces(steps: &mut Vec<NamespaceStep>, ipc: bool, uid: u64, gid: u64)
    ensures
        step_views(final(steps)@) == step_views(old(steps)@) + entering(
            ipc,
            uid as nat,
            gid as nat,
        ),
{
    let ghost start = step_views(steps@);
    steps.push(NamespaceStep::Unshare { ipc });
    steps.push(
        NamespaceStep::WriteFile {
            file: "/proc/self/setgroups",
            contents: String::from_str("deny"),
        },
    );
    steps.push(
        NamespaceStep::WriteFile { file: "/proc/self/gid_map", contents: identity_map(gid) },
    );
    steps.push(
        NamespaceStep::WriteFile { file: "/proc/self/uid_map", contents: identity_map(uid) },
    );
    steps.push(NamespaceStep::MakeSlave);
    assert(step_views(steps@) =~= start + entering(ipc, uid as nat, gid as nat));
}

/// A copy of a target.
fn copy_target(target: &Target) -> (copy: Target)
    ensures
        copy@ == target@,
{
    Target { path: target.path.clone(), dev: target.dev, ino: target.ino }
}

/// Appends the steps of one mask operation.
fn apply_op(steps: &mut Vec<NamespaceStep>, op: &MaskOp)
    ensures
        step_views(final(steps)@) == step_views(old(steps)@) + masking(op@),
{
    let ghost start = step_views(steps@);
    match op {
        MaskOp::HideDir { target, mode, seal_later } => {
            steps.push(NamespaceStep::CheckIdentity { target: copy_target(target) });
            let mut options = String::from_str("mode=");
            options.append(mode);
            steps.push(
                NamespaceStep::MountFs {
                    source: "guardrail",
                    at: MountPoint::At(target.path.clone()),
                    fstype: "tmpfs",
                    flags: mount_flags(!*seal_later),
                    options,
                },
            );
        },
        MaskOp::HideFile { target } => {
            steps.push(NamespaceStep::CheckIdentity { target: copy_target(target) });
            steps.push(
                NamespaceStep::MountEmptyFile {
                    path: target.path.clone(),
                    mode: CLOSED_MODE,
                    attr_set: empty_file_attributes(),
                },
            );
        },
        MaskOp::SkeletonDir { path } => {
            steps.push(NamespaceStep::MakeDir { path: path.clone(), mode: TRAVERSAL_MODE });
        },
        MaskOp::SkeletonFile { path } => {
            steps.push(NamespaceStep::MakeFile { path: path.clone(), mode: CLOSED_MODE });
        },
        MaskOp::Attach { slot, path } => {
            steps.push(NamespaceStep::AttachClone { slot: *slot, path: path.clone() });
        },
        MaskOp::Restrict { target, attr_set, recursive } => {
            steps.push(NamespaceStep::CheckIdentity { target: copy_target(target) });
            steps.push(
                NamespaceStep::BindSelf { path: target.path.clone(), recursive: *recursive },
            );
            steps.push(
                NamespaceStep::SetAttributes {
                    path: target.path.clone(),
                    recursive: *recursive,
                    attr_set: *attr_set,
                },
            );
        },
    }
    assert(step_views(steps@) =~= start + masking(op@));
}

/// Lays out the namespace setup of a child: fresh namespaces, private
/// `/dev/mqueue` and `/dev/shm`, every mask, and the second namespace boundary
/// that locks the masks.
pub fn namespace_steps(plan: &MountPlan, uid: u64, gid: u64) -> (steps: Vec<NamespaceStep>)
    ensures
        step_views(steps@) == namespace_setup(*plan, uid as nat, gid as nat),
{
    let mut steps: Vec<NamespaceStep> = Vec::new();
    enter_namespaces(&mut steps, true, uid, gid);
    steps.push(
        NamespaceStep::MountFs {
            source: "guardrail-mqueue",
            at: MountPoint::Fixed("/dev/mqueue"),
            fstype: "mqueue",
            flags: mount_flags(false),
            options: String::new(),
        },
    );
    steps.push(
        NamespaceStep::MountFs {
            source: "guardrail-shm",
            at: MountPoint::Fixed("/dev/shm"),
            fstype: "tmpfs",
            flags: mount_flags(false),
            options: String::from_str("mode=1777,size=67108864"),
        },
    );
    let ghost entered = entering(true, uid as nat, gid as nat) + seq![
        private_mqueue(),
        private_shm(),
    ];
    assert(step_views(steps@) =~= entered);
    let mut slot: usize = 0;
    assert(entered + cloning(plan.clone_sources@, 0) =~= entered);
    while slot < plan.clone_sources.len()
        invariant
            slot <= plan.clone_sources@.len(),
            step_views(steps@) == entered + cloning(plan.clone_sources@, slot as int),
        decreases plan.clone_sources.len() - slot,
    {
        let ghost before = step_views(steps@);
        let source = &plan.clone_sources[slot];
        steps.push(NamespaceStep::CheckIdentity { target: copy_target(source) });
        steps.push(NamespaceStep::CloneTree { slot, path: source.path.clone() });
        assert(step_views(steps@) =~= before + seq![
            NamespaceStepView::CheckIdentity { target: source@ },
            NamespaceStepView::CloneTree { slot: slot as int, path: source@.path },
        ]);
        assert(step_views(steps@) =~= entered + cloning(plan.clone_sources@, slot + 1));
        slot += 1;
    }
    let ghost cloned = step_views(steps@);
    let mut i: usize = 0;
    assert(cloned + masking_all(plan.ops@, 0) =~= cloned);
    while i < plan.ops.len()
        invariant
            i <= plan.ops@.len(),
            step_views(steps@) == cloned + masking_all(plan.ops@, i as int),
        decreases plan.ops.len() - i,
    {
        apply_op(&mut steps, &plan.ops[i]);
        assert(step_views(steps@) =~= cloned + masking_all(plan.ops@, i + 1));
        i += 1;
    }
    let ghost masked = step_views(steps@);
    let mut k: usize = 0;
    let ghost seals = sealing(plan.seal_readonly@);
    assert(masked + seals.take(0) =~= masked);
    while k < plan.seal_readonly.len()
        invariant
            seals == sealing(plan.seal_readonly@),
            k <= plan.seal_readonly@.len(),
            step_views(steps@) == masked + seals.take(k as int),
        decreases plan.seal_readonly.len() - k,
    {
        let ghost before = step_views(steps@);
        steps.push(
            NamespaceStep::SetAttributes {
                path: plan.seal_readonly[k].clone(),
                recursive: false,
                attr_set: MOUNT_ATTR_RDONLY,
            },
        );
        assert(step_views(steps@) =~= before.push(seals[k as int]));
        assert(seals.take(k + 1) =~= seals.take(k as int).push(seals[k as int]));
        assert(step_views(steps@) =~= masked + seals.take(k + 1));
        k += 1;
    }
    assert(seals.take(k as int) =~= seals);
    enter_namespaces(&mut steps, false, uid, gid);
    steps
}

/// The path of a host inode that a step mounts on or clones.
pub open spec fn host_path(step: NamespaceStepView) -> Option<Seq<Seq<u8>>> {
    match step {
        NamespaceStepView::MountFs { at: MountPointView::At(path), .. } => Some(path),
        NamespaceStepView::CloneTree { path, .. } => Some(path),
        NamespaceStepView::MountEmptyFile { path, .. } => Some(path),
        NamespaceStepView::BindSelf { path, .. } => Some(path),
        _ => None,
    }
}

/// Whether each step on a host inode comes right behind the check of its path.
spec fn is_checked(steps: Seq<NamespaceStepView>) -> bool {
    forall|j: int|
        0 <= j < steps.len() && host_path(#[trigger] steps[j]) is Some ==> j > 0 && (steps[j - 1]
            matches NamespaceStepView::CheckIdentity { target } && Some(target.path) == host_path(
            steps[j],
        ))
}

/// Every step that masks or clones a host inode comes right behind the check
/// that its path still names the inode that the policy was compiled against.
pub proof fn law_masks_hit_the_pinned_inode(plan: MountPlan, uid: nat, gid: nat, j: int)
    requires
        0 <= j < namespace_setup(plan, uid, gid).len(),
        host_path(namespace_setup(plan, uid, gid)[j]) is Some,
    ensures
        j > 0,
        namespace_setup(plan, uid, gid)[j - 1] matches NamespaceStepView::CheckIdentity { target }
            && Some(target.path) == host_path(namespace_setup(plan, uid, gid)[j]),
{
    let a = entering(true, uid, gid);
    let b = seq![private_mqueue(), private_shm()];
    let c = cloning(plan.clone_sources@, plan.clone_sources@.len() as int);
    let d = masking_all(plan.ops@, plan.ops@.len() as int);
    let e = sealing(plan.seal_readonly@);
    let f = entering(false, uid, gid);
    lemma_cloning_is_checked(plan.clone_sources@, plan.clone_sources@.len() as int);
    lemma_masking_is_checked(plan.ops@, plan.ops@.len() as int);
    assert(is_checked(a));
    assert(is_checked(b));
    assert(is_checked(e));
    assert(is_checked(f));
    lemma_checked_join(a, b);
    lemma_checked_join(a + b, c);
    lemma_checked_join(a + b + c, d);
    lemma_checked_join(a + b + c + d, e);
    lemma_checked_join(a + b + c + d + e, f);
}

proof fn lemma_checked_join(a: Seq<NamespaceStepView>, b: Seq<NamespaceStepView>)
    requires
        is_checked(a),
        is_checked(b),
    ensures
        is_checked(a + b),
{
    let joined = a + b;
    assert forall|j: int|
        0 <= j < joined.len() && host_path(#[trigger] joined[j]) is Some implies j > 0 && (joined[j
        - 1] matches NamespaceStepView::CheckIdentity { target } && Some(target.path) == host_path(
        joined[j],
    )) by {
        if j < a.len() {
            assert(joined[j] == a[j]);
        } else {
            assert(joined[j] == b[j - a.len()]);
            assert(joined[j - 1] == b[j - a.len() - 1]);
        }
    }
}

proof fn lemma_cloning_is_checked(sources: Seq<Target>, n: int)
    requires
        0 <= n <= sources.len(),
    ensures
        is_checked(cloning(sources, n)),
    decreases n,
{
    if n > 0 {
        lemma_cloning_is_checked(sources, n - 1);
        let last = seq![
            NamespaceStepView::CheckIdentity { target: sources[n - 1]@ },
            NamespaceStepView::CloneTree { slot: n - 1, path: sources[n - 1]@.path },
        ];
        assert(is_checked(last));
        lemma_checked_join(cloning(sources, n - 1), last);
    }
}

proof fn lemma_masking_is_checked(ops: Seq<MaskOp>, n: int)
    requires
        0 <= n <= ops.len(),
    ensures
        is_checked(masking_all(ops, n)),
    decreases n,
{
    if n > 0 {
        lemma_masking_is_checked(ops, n - 1);
        assert(is_checked(masking(ops[n - 1]@)));
        lemma_checked_join(masking_all(ops, n - 1), masking(ops[n - 1]@));
    }
}

/// Whether a step changes what is mounted at a path of the policy.
pub open spec fn is_masking_step(step: NamespaceStepView) -> bool {
    match step {
        NamespaceStepView::MountFs { at: MountPointView::At(_), .. } => true,
        NamespaceStepView::MountEmptyFile { .. } => true,
        NamespaceStepView::AttachClone { .. } => true,
        NamespaceStepView::BindSelf { .. } => true,
        NamespaceStepView::SetAttributes { .. } => true,
        _ => false,
    }
}

/// Every subtree that is attached again is cloned before any mask shadows it.
pub proof fn law_clones_precede_masks(plan: MountPlan, uid: nat, gid: nat, i: int, j: int)
    requires
        0 <= i < namespace_setup(plan, uid, gid).len(),
        0 <= j < namespace_setup(plan, uid, gid).len(),
        namespace_setup(plan, uid, gid)[i] is CloneTree,
        is_masking_step(namespace_setup(plan, uid, gid)[j]),
    ensures
        i < j,
{
    let a = entering(true, uid, gid);
    let b = seq![private_mqueue(), private_shm()];
    let c = cloning(plan.clone_sources@, plan.clone_sources@.len() as int);
    let d = masking_all(plan.ops@, plan.ops@.len() as int);
    let e = sealing(plan.seal_readonly@);
    let f = entering(false, uid, gid);
    let setup = namespace_setup(plan, uid, gid);
    let start = a.len() + b.len();
    let end = start + c.len();
    lemma_cloning_does_not_mask(plan.clone_sources@, plan.clone_sources@.len() as int);
    lemma_masking_does_not_clone(plan.ops@, plan.ops@.len() as int);
    if i >= end {
        if i < end + d.len() {
            assert(setup[i] == d[i - end]);
        } else if i < end + d.len() + e.len() {
            assert(setup[i] == e[i - end - d.len()]);
        } else {
            assert(setup[i] == f[i - end - d.len() - e.len()]);
        }
    }
    if j < start {
        if j < a.len() {
            assert(setup[j] == a[j]);
        } else {
            assert(setup[j] == b[j - a.len()]);
        }
    } else if j < end {
        assert(setup[j] == c[j - start]);
    }
}

pub(crate) proof fn lemma_cloning_does_not_mask(sources: Seq<Target>, n: int)
    requires
        0 <= n <= sources.len(),
    ensures
        forall|j: int|
            0 <= j < cloning(sources, n).len() ==> !is_masking_step(
                #[trigger] cloning(sources, n)[j],
            ),
    decreases n,
{
    if n > 0 {
        lemma_cloning_does_not_mask(sources, n - 1);
        let before = cloning(sources, n - 1);
        assert forall|j: int| 0 <= j < cloning(sources, n).len() implies !is_masking_step(
            #[trigger] cloning(sources, n)[j],
        ) by {
            if j < before.len() {
                assert(cloning(sources, n)[j] == before[j]);
            }
        }
    }
}

pub(crate) proof fn lemma_masking_does_not_clone(ops: Seq<MaskOp>, n: int)
    requires
        0 <= n <= ops.len(),
    ensures
        forall|j: int|
            0 <= j < masking_all(ops, n).len() ==> !((#[trigger] masking_all(ops, n)[j])
                is CloneTree),
    decreases n,
{
    if n > 0 {
        lemma_masking_does_not_clone(ops, n - 1);
        let before = masking_all(ops, n - 1);
        let last = masking(ops[n - 1]@);
        assert forall|j: int| 0 <= j < masking_all(ops, n).len() implies !((
        #[trigger] masking_all(ops, n)[j]) is CloneTree) by {
            if j < before.len() {
                assert(masking_all(ops, n)[j] == before[j]);
            } else {
                assert(masking_all(ops, n)[j] == last[j - before.len()]);
            }
        }
    }
}

/// The second namespace boundary, which locks the masks, comes after all of
/// them.
pub proof fn law_masks_are_locked_last(plan: MountPlan, uid: nat, gid: nat)
    ensures
        ({
            let setup = namespace_setup(plan, uid, gid);
            setup.len() >= 5 && setup.skip(setup.len() - 5) == entering(false, uid, gid)
        }),
{
    let setup = namespace_setup(plan, uid, gid);
    assert(setup.skip(setup.len() - 5) =~= entering(false, uid, gid));
}

/// Every attachment takes the clone of its own path, so each slot that is used
/// was filled.
pub proof fn law_attachments_use_their_clone(
    rules: Seq<NormalizedRule>,
    pins: Seq<Pin>,
    plan: MountPlan,
    i: int,
)
    requires
        is_plan(rules, pins, plan),
        0 <= i < plan.ops@.len(),
        plan.ops@[i]@ is Attach,
    ensures
        plan.ops@[i]@ matches MaskOpView::Attach { slot, path } && 0 <= slot
            < plan.clone_sources@.len() && plan.clone_sources@[slot]@.path == path,
{
    let ops = op_views(plan.ops@);
    let op = plan.ops@[i]@;
    assert(ops[i] == op);
    assert(ops.contains(op));
    assert(is_planned(rules, pins, op));
    let k = choose|k: int| 0 <= k < pins.len() && #[trigger] needs_op(rules, pins, k, op);
    lemma_slot_of(rules, pins, k, pins.len() as int);
    let attached = attached_before(rules, pins, pins.len() as int);
    let slot = attached_before(rules, pins, k).len() as int;
    assert(plan.clone_sources@[slot]@ == target_of(pins[attached[slot]]));
}

proof fn lemma_slot_of(rules: Seq<NormalizedRule>, pins: Seq<Pin>, k: int, n: int)
    requires
        0 <= k < n <= pins.len(),
        is_attached(rules, pins[k].path@),
    ensures
        attached_before(rules, pins, k).len() < attached_before(rules, pins, n).len(),
        attached_before(rules, pins, n)[attached_before(rules, pins, k).len() as int] == k,
    decreases n,
{
    if n > k + 1 {
        lemma_slot_of(rules, pins, k, n - 1);
    }
}

/// Whether `value` carries all of `flags`.
pub open spec fn carries(value: u64, flags: u64) -> bool {
    value & flags == flags
}

/// Whether what a step makes is as closed as it can be: no mount carries set-ID
/// programs, devices or programs, what hides a file is read-only and has no mode, and
/// what is created on the way can at most be traversed.
pub open spec fn is_closed(step: NamespaceStepView) -> bool {
    match step {
        NamespaceStepView::MountFs { flags, .. } => carries(flags, MS_NOSUID) && carries(
            flags,
            MS_NODEV,
        ) && carries(flags, MS_NOEXEC),
        NamespaceStepView::MountEmptyFile { mode, attr_set, .. } => mode == 0 && carries(
            attr_set,
            MOUNT_ATTR_RDONLY,
        ) && carries(attr_set, MOUNT_ATTR_NOSUID) && carries(attr_set, MOUNT_ATTR_NODEV)
            && carries(attr_set, MOUNT_ATTR_NOEXEC),
        NamespaceStepView::MakeDir { mode, .. } => mode == 0o111,
        NamespaceStepView::MakeFile { mode, .. } => mode == 0,
        _ => true,
    }
}

/// Whether every step of `steps` leaves things closed.
spec fn all_closed(steps: Seq<NamespaceStepView>) -> bool {
    forall|j: int| 0 <= j < steps.len() ==> is_closed(#[trigger] steps[j])
}

/// Every file system that the setup mounts is `nosuid,nodev,noexec`, and what hides a
/// path gives nothing of it away.
pub proof fn law_fresh_mounts_are_closed(plan: MountPlan, uid: nat, gid: nat, j: int)
    requires
        0 <= j < namespace_setup(plan, uid, gid).len(),
    ensures
        is_closed(namespace_setup(plan, uid, gid)[j]),
{
    let a = entering(true, uid, gid);
    let b = seq![private_mqueue(), private_shm()];
    let c = cloning(plan.clone_sources@, plan.clone_sources@.len() as int);
    let d = masking_all(plan.ops@, plan.ops@.len() as int);
    let e = sealing(plan.seal_readonly@);
    let f = entering(false, uid, gid);
    lemma_flags_are_carried();
    lemma_cloning_is_closed(plan.clone_sources@, plan.clone_sources@.len() as int);
    lemma_masking_is_closed(plan.ops@, plan.ops@.len() as int);
    assert(all_closed(a));
    assert(all_closed(b));
    assert(all_closed(e));
    assert(all_closed(f));
    lemma_closed_join(a, b);
    lemma_closed_join(a + b, c);
    lemma_closed_join(a + b + c, d);
    lemma_closed_join(a + b + c + d, e);
    lemma_closed_join(a + b + c + d + e, f);
}

proof fn lemma_flags_are_carried()
    ensures
        forall|read_only: bool|
            carries(#[trigger] fresh_mount_flags(read_only), MS_NOSUID) && carries(
                fresh_mount_flags(read_only),
                MS_NODEV,
            ) && carries(fresh_mount_flags(read_only), MS_NOEXEC),
        carries(hidden_file_attributes(), MOUNT_ATTR_RDONLY),
        carries(hidden_file_attributes(), MOUNT_ATTR_NOSUID),
        carries(hidden_file_attributes(), MOUNT_ATTR_NODEV),
        carries(hidden_file_attributes(), MOUNT_ATTR_NOEXEC),
{
    assert forall|read_only: bool|
        carries(#[trigger] fresh_mount_flags(read_only), MS_NOSUID) && carries(
            fresh_mount_flags(read_only),
            MS_NODEV,
        ) && carries(fresh_mount_flags(read_only), MS_NOEXEC) by {
        let more: u64 = if read_only {
            MS_RDONLY
        } else {
            0
        };
        assert(((2u64 | 4 | 8 | more) & 2 == 2) && ((2u64 | 4 | 8 | more) & 4 == 4) && ((2u64 | 4
            | 8 | more) & 8 == 8)) by (bit_vector);
    }
    assert(((1u64 | 2 | 4 | 8) & 1 == 1) && ((1u64 | 2 | 4 | 8) & 2 == 2) && ((1u64 | 2 | 4 | 8)
        & 4 == 4) && ((1u64 | 2 | 4 | 8) & 8 == 8)) by (bit_vector);
}

proof fn lemma_closed_join(a: Seq<NamespaceStepView>, b: Seq<NamespaceStepView>)
    requires
        all_closed(a),
        all_closed(b),
    ensures
        all_closed(a + b),
{
    let joined = a + b;
    assert forall|j: int| 0 <= j < joined.len() implies is_closed(#[trigger] joined[j]) by {
        if j < a.len() {
            assert(joined[j] == a[j]);
        } else {
            assert(joined[j] == b[j - a.len()]);
        }
    }
}

proof fn lemma_cloning_is_closed(sources: Seq<Target>, n: int)
    ensures
        all_closed(cloning(sources, n)),
    decreases n,
{
    if n > 0 {
        lemma_cloning_is_closed(sources, n - 1);
        lemma_closed_join(
            cloning(sources, n - 1),
            seq![
                NamespaceStepView::CheckIdentity { target: sources[n - 1]@ },
                NamespaceStepView::CloneTree { slot: n - 1, path: sources[n - 1]@.path },
            ],
        );
    }
}

proof fn lemma_masking_is_closed(ops: Seq<MaskOp>, n: int)
    ensures
        all_closed(masking_all(ops, n)),
    decreases n,
{
    if n > 0 {
        lemma_flags_are_carried();
        lemma_masking_is_closed(ops, n - 1);
        assert(all_closed(masking(ops[n - 1]@)));
        lemma_closed_join(masking_all(ops, n - 1), masking(ops[n - 1]@));
    }
}

/// What the setup makes, by the bits that the kernel numbers flags and modes by. Every
/// file system is mounted without set-ID programs, devices and programs (bits 1 to 3);
/// the mount that hides a file is read-only too (bits 0 to 3) and its file has no mode;
/// what is made on the way can at most be traversed.
pub proof fn law_closed_by_the_bits_of_the_kernel(plan: MountPlan, uid: nat, gid: nat, j: int)
    requires
        0 <= j < namespace_setup(plan, uid, gid).len(),
    ensures
        namespace_setup(plan, uid, gid)[j] matches NamespaceStepView::MountFs { flags, .. } ==> flags
            & 14 == 14,
        namespace_setup(plan, uid, gid)[j] matches NamespaceStepView::MountEmptyFile {
            mode,
            attr_set,
            ..
        } ==> mode == 0 && attr_set & 15 == 15,
        namespace_setup(plan, uid, gid)[j] matches NamespaceStepView::MakeDir { mode, .. } ==> mode
            == 0o111,
        namespace_setup(plan, uid, gid)[j] matches NamespaceStepView::MakeFile { mode, .. } ==> mode
            == 0,
{
    law_fresh_mounts_are_closed(plan, uid, gid, j);
    assert(forall|v: u64|
        v & 2 == 2 && v & 4 == 4 && v & 8 == 8 ==> #[trigger] (v & 14) == 14) by (bit_vector);
    assert(forall|v: u64|
        v & 1 == 1 && v & 2 == 2 && v & 4 == 4 && v & 8 == 8 ==> #[trigger] (v & 15) == 15)
        by (bit_vector);
}

} // verus!
