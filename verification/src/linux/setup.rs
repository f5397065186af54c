//! What the child does between `fork` and `exec`, in order.
use crate::config::ResourceLimits;
use crate::linux::access::PRIVATE_IPC_ACCESS_FS;
use crate::linux::ns::{
    namespace_setup, namespace_steps, step_views, NamespaceStep, NamespaceStepView,
};
use crate::linux::plan::MountPlan;
use crate::rlimit::{
    law_each_limit_is_one_cap, limit_settings, settings_for, LimitSetting, LimitedResource,
};
use vstd::prelude::*;

verus! {

/// The Landlock layers of a child.
#[derive(Debug, Clone, Copy, PartialEq, Eq, Structural)]
pub enum Layer {
    /// The filesystem grants.
    Filesystem,
    /// The bind restrictions of the network policy.
    Network,
    /// The sandbox's own IPC domain.
    Ipc,
}

/// One step of the child's setup. A step that fails fails the spawn.
#[derive(Debug, PartialEq, Eq)]
pub enum ChildStep {
    /// `prctl(PR_SET_NO_NEW_PRIVS)`.
    NoNewPrivs,
    /// A step of the namespace setup.
    Namespace(NamespaceStep),
    /// Set one resource limit.
    SetLimit(LimitSetting),
    /// Grant a freshly mounted private IPC file system in the child's own
    /// filesystem ruleset.
    AllowPrivateIpc {
        /// Where it is mounted.
        path: &'static str,
        /// The granted rights.
        access: u64,
    },
    /// Enforce a Landlock layer that the parent built.
    RestrictSelf(Layer),
    /// Mark every descriptor from `first` on close-on-exec.
    CloseOnExec {
        /// The first descriptor.
        first: u32,
    },
    /// Install a seccomp filter that the parent built.
    InstallFilter {
        /// Which filter.
        index: usize,
    },
}

/// What a [`ChildStep`] says.
pub enum ChildStepView {
    NoNewPrivs,
    Namespace(NamespaceStepView),
    SetLimit(LimitSetting),
    AllowPrivateIpc { path: Seq<char>, access: u64 },
    RestrictSelf(Layer),
    CloseOnExec { first: u32 },
    InstallFilter { index: int },
}

impl View for ChildStep {
    type V = ChildStepView;

    open spec fn view(&self) -> ChildStepView {
        match self {
            ChildStep::NoNewPrivs => ChildStepView::NoNewPrivs,
            ChildStep::Namespace(step) => ChildStepView::Namespace(step@),
            ChildStep::SetLimit(setting) => ChildStepView::SetLimit(*setting),
            ChildStep::AllowPrivateIpc { path, access } => ChildStepView::AllowPrivateIpc {
                path: path@,
                access: *access,
            },
            ChildStep::RestrictSelf(layer) => ChildStepView::RestrictSelf(*layer),
            ChildStep::CloseOnExec { first } => ChildStepView::CloseOnExec { first: *first },
            ChildStep::InstallFilter { index } => ChildStepView::InstallFilter {
                index: *index as int,
            },
        }
    }
}

/// The steps in a vector of steps.
pub open spec fn child_step_views(steps: Seq<ChildStep>) -> Seq<ChildStepView> {
    steps.map_values(|step: ChildStep| step@)
}

/// What a child is set up with.
pub struct ChildPlan<'a> {
    /// The mounts.
    pub mounts: &'a MountPlan,
    /// The effective user that the child keeps.
    pub uid: u64,
    /// The effective group that the child keeps.
    pub gid: u64,
    /// The resource limits.
    pub limits: ResourceLimits,
    /// Whether there is a network layer.
    pub network_layer: bool,
    /// Whether there is an IPC layer.
    pub ipc_layer: bool,
    /// How many seccomp filters there are.
    pub filters: usize,
}

/// Unlocking privileges is ruled out, the namespaces are entered, and the
/// resource limits are set.
pub open spec fn before_landlock(plan: ChildPlan<'_>) -> Seq<ChildStepView> {
    seq![ChildStepView::NoNewPrivs] + namespace_setup(
        *plan.mounts,
        plan.uid as nat,
        plan.gid as nat,
    ).map_values(|step: NamespaceStepView| ChildStepView::Namespace(step)) + settings_for(
        plan.limits,
    ).map_values(|setting: LimitSetting| ChildStepView::SetLimit(setting))
}

/// The private IPC mounts are granted, and the Landlock layers are enforced:
/// filesystem, then network, then IPC.
pub open spec fn landlock_layers(plan: ChildPlan<'_>) -> Seq<ChildStepView> {
    seq![
        ChildStepView::AllowPrivateIpc { path: "/dev/mqueue"@, access: PRIVATE_IPC_ACCESS_FS },
        ChildStepView::AllowPrivateIpc { path: "/dev/shm"@, access: PRIVATE_IPC_ACCESS_FS },
        ChildStepView::RestrictSelf(Layer::Filesystem),
    ] + (if plan.network_layer {
        seq![ChildStepView::RestrictSelf(Layer::Network)]
    } else {
        seq![]
    }) + (if plan.ipc_layer {
        seq![ChildStepView::RestrictSelf(Layer::Ipc)]
    } else {
        seq![]
    })
}

/// The seccomp filters are installed.
pub open spec fn filter_installs(filters: nat) -> Seq<ChildStepView> {
    Seq::new(filters, |i: int| ChildStepView::InstallFilter { index: i })
}

/// The whole setup of a child.
pub open spec fn child_setup(plan: ChildPlan<'_>) -> Seq<ChildStepView> {
    before_landlock(plan) + landlock_layers(plan) + seq![ChildStepView::CloseOnExec { first: 3 }]
        + filter_installs(plan.filters as nat)
}

/// Lays out the whole setup of a child.
///
/// The filters come last, so that they do not interfere with the steps before;
/// the descriptors are scrubbed after everything that opens some, and the mounts
/// precede Landlock, which denies mount changes once enforced.
pub fn child_steps(plan: &ChildPlan<'_>) -> (steps: Vec<ChildStep>)
    ensures
        child_step_views(steps@) == child_setup(*plan),
{
    let mut steps: Vec<ChildStep> = Vec::new();
    steps.push(ChildStep::NoNewPrivs);
    let ghost first = seq![ChildStepView::NoNewPrivs];
    assert(child_step_views(steps@) =~= first);
    let namespace = namespace_steps(plan.mounts, plan.uid, plan.gid);
    let ghost entering = namespace_setup(*plan.mounts, plan.uid as nat, plan.gid as nat).map_values(
        |step: NamespaceStepView| ChildStepView::Namespace(step),
    );
    assert forall|i: int| 0 <= i < namespace@.len() implies #[trigger] entering[i]
        == ChildStepView::Namespace(namespace@[i]@) by {
        assert(step_views(namespace@)[i] == namespace@[i]@);
    }
    assert(entering.len() == namespace@.len()) by {
        assert(step_views(namespace@).len() == namespace@.len());
    }
    assert(first + entering.take(0) =~= first);
    let ghost total = namespace@;
    for step in moved: namespace
        invariant
            moved.seq() == total,
            entering.len() == total.len(),
            forall|i: int|
                0 <= i < total.len() ==> #[trigger] entering[i] == ChildStepView::Namespace(
                    total[i]@,
                ),
            child_step_views(steps@) == first + entering.take(moved.index()),
    {
        let ghost n = moved.index();
        let ghost before = child_step_views(steps@);
        steps.push(ChildStep::Namespace(step));
        proof {
            assert(child_step_views(steps@) =~= before.push(entering[n]));
            assert(entering.take(n + 1) =~= entering.take(n).push(entering[n]));
            assert(child_step_views(steps@) =~= first + entering.take(n + 1));
        }
    }
    assert(entering.take(total.len() as int) =~= entering);
    let settings = limit_settings(&plan.limits);
    let ghost entered = child_step_views(steps@);
    let ghost capping = settings_for(plan.limits).map_values(
        |setting: LimitSetting| ChildStepView::SetLimit(setting),
    );
    assert(entered + capping.take(0) =~= entered);
    let mut i: usize = 0;
    while i < settings.len()
        invariant
            i <= settings@.len(),
            settings@.len() == capping.len(),
            forall|k: int|
                0 <= k < capping.len() ==> #[trigger] capping[k] == ChildStepView::SetLimit(
                    settings@[k],
                ),
            child_step_views(steps@) == entered + capping.take(i as int),
        decreases settings.len() - i,
    {
        let ghost before = child_step_views(steps@);
        steps.push(ChildStep::SetLimit(settings[i]));
        proof {
            assert(child_step_views(steps@) =~= before.push(capping[i as int]));
            assert(capping.take(i + 1) =~= capping.take(i as int).push(capping[i as int]));
            assert(child_step_views(steps@) =~= entered + capping.take(i + 1));
        }
        i += 1;
    }
    assert(capping.take(i as int) =~= capping);
    assert(child_step_views(steps@) == before_landlock(*plan));
    steps.push(
        ChildStep::AllowPrivateIpc { path: "/dev/mqueue", access: PRIVATE_IPC_ACCESS_FS },
    );
    steps.push(ChildStep::AllowPrivateIpc { path: "/dev/shm", access: PRIVATE_IPC_ACCESS_FS });
    steps.push(ChildStep::RestrictSelf(Layer::Filesystem));
    if plan.network_layer {
        steps.push(ChildStep::RestrictSelf(Layer::Network));
    }
    if plan.ipc_layer {
        steps.push(ChildStep::RestrictSelf(Layer::Ipc));
    }
    assert(child_step_views(steps@) =~= before_landlock(*plan) + landlock_layers(*plan));
    steps.push(ChildStep::CloseOnExec { first: 3 });
    let ghost scrubbed = before_landlock(*plan) + landlock_layers(*plan) + seq![
        ChildStepView::CloseOnExec { first: 3 },
    ];
    assert(child_step_views(steps@) =~= scrubbed);
    let ghost installs = filter_installs(plan.filters as nat);
    assert(scrubbed + installs.take(0) =~= scrubbed);
    let mut index: usize = 0;
    while index < plan.filters
        invariant
            index <= plan.filters,
            installs == filter_installs(plan.filters as nat),
            child_step_views(steps@) == scrubbed + installs.take(index as int),
        decreases plan.filters - index,
    {
        let ghost before = child_step_views(steps@);
        steps.push(ChildStep::InstallFilter { index });
        proof {
            assert(child_step_views(steps@) =~= before.push(installs[index as int]));
            assert(installs.take(index + 1) =~= installs.take(index as int).push(
                installs[index as int],
            ));
            assert(child_step_views(steps@) =~= scrubbed + installs.take(index + 1));
        }
        index += 1;
    }
    assert(installs.take(index as int) =~= installs);
    steps
}

/// Gaining privileges is ruled out before anything else happens.
pub proof fn law_no_new_privs_comes_first(plan: ChildPlan<'_>)
    ensures
        child_setup(plan).len() > 0,
        child_setup(plan)[0] == ChildStepView::NoNewPrivs,
{
}

/// The namespaces are entered, and all mounts are made, before any Landlock
/// layer is enforced.
pub proof fn law_mounts_precede_landlock(plan: ChildPlan<'_>, i: int, j: int)
    requires
        0 <= i < child_setup(plan).len(),
        0 <= j < child_setup(plan).len(),
        child_setup(plan)[i] is Namespace,
        child_setup(plan)[j] is RestrictSelf,
    ensures
        i < j,
{
    lemma_landlock_segment(plan, j);
    if i >= before_landlock(plan).len() {
        lemma_after_landlock_no_namespace(plan, i);
    }
}

/// The filesystem layer is always enforced, after the private IPC mounts were
/// granted in it.
pub proof fn law_filesystem_layer_is_enforced(plan: ChildPlan<'_>)
    ensures
        ({
            let n = before_landlock(plan).len() as int;
            &&& child_setup(plan)[n] == ChildStepView::AllowPrivateIpc {
                path: "/dev/mqueue"@,
                access: PRIVATE_IPC_ACCESS_FS,
            }
            &&& child_setup(plan)[n + 1] == ChildStepView::AllowPrivateIpc {
                path: "/dev/shm"@,
                access: PRIVATE_IPC_ACCESS_FS,
            }
            &&& child_setup(plan)[n + 2] == ChildStepView::RestrictSelf(Layer::Filesystem)
        }),
{
    let head = before_landlock(plan);
    let layers = landlock_layers(plan);
    let n = head.len() as int;
    assert forall|k: int| 0 <= k < layers.len() implies child_setup(plan)[n + k] == layers[k] by {
        assert((head + layers)[n + k] == layers[k]);
    }
    assert(child_setup(plan)[n + 0] == layers[0]);
    assert(child_setup(plan)[n + 1] == layers[1]);
    assert(child_setup(plan)[n + 2] == layers[2]);
}

/// Every descriptor above stderr is scrubbed, and nothing but the filters comes
/// after that; the filters come last.
pub proof fn law_scrub_then_filters_come_last(plan: ChildPlan<'_>)
    ensures
        ({
            let setup = child_setup(plan);
            let n = setup.len() - plan.filters - 1;
            &&& 0 <= n
            &&& setup[n] == ChildStepView::CloseOnExec { first: 3 }
            &&& forall|i: int|
                0 <= i < setup.len() ==> ((#[trigger] setup[i]) is InstallFilter <==> i > n)
        }),
{
    let head = before_landlock(plan);
    let layers = landlock_layers(plan);
    let setup = child_setup(plan);
    let n = setup.len() - plan.filters - 1;
    assert(n == head.len() + layers.len());
    assert forall|i: int| 0 <= i < setup.len() implies ((#[trigger] setup[i]) is InstallFilter
        <==> i > n) by {
        if i < head.len() {
            assert(setup[i] == head[i]);
        } else if i < n {
            assert(setup[i] == layers[i - head.len()]);
        }
    }
}

proof fn lemma_landlock_segment(plan: ChildPlan<'_>, j: int)
    requires
        0 <= j < child_setup(plan).len(),
        child_setup(plan)[j] is RestrictSelf,
    ensures
        j >= before_landlock(plan).len(),
{
    let head = before_landlock(plan);
    if j < head.len() {
        assert(child_setup(plan)[j] == head[j]);
    }
}

proof fn lemma_after_landlock_no_namespace(plan: ChildPlan<'_>, i: int)
    requires
        before_landlock(plan).len() <= i < child_setup(plan).len(),
    ensures
        !(child_setup(plan)[i] is Namespace),
{
    let head = before_landlock(plan);
    let layers = landlock_layers(plan);
    if i < head.len() + layers.len() {
        assert(child_setup(plan)[i] == layers[i - head.len()]);
    }
}

proof fn lemma_either_part(a: Seq<ChildStepView>, b: Seq<ChildStepView>, step: ChildStepView)
    ensures
        (a + b).contains(step) <==> a.contains(step) || b.contains(step),
{
    let whole = a + b;
    if a.contains(step) {
        let i = choose|i: int| 0 <= i < a.len() && a[i] == step;
        assert(whole[i] == step);
    }
    if b.contains(step) {
        let i = choose|i: int| 0 <= i < b.len() && b[i] == step;
        assert(whole[a.len() + i] == step);
    }
    if whole.contains(step) {
        let i = choose|i: int| 0 <= i < whole.len() && whole[i] == step;
        if i < a.len() {
            assert(a[i] == step);
        } else {
            assert(b[i - a.len()] == step);
        }
    }
}

/// What a setup step can be, and nothing else: privileges are given up, every step of
/// the namespace setup is done, every given limit is set, the two private IPC file
/// systems are granted everything but executing, the layers that there are are enforced,
/// what lies above standard error is closed on exec, and every filter is installed.
pub proof fn law_setup_does_what_the_plan_says(plan: ChildPlan<'_>, step: ChildStepView)
    ensures
        child_setup(plan).contains(step) <==> match step {
            ChildStepView::NoNewPrivs => true,
            ChildStepView::Namespace(entry) => namespace_setup(
                *plan.mounts,
                plan.uid as nat,
                plan.gid as nat,
            ).contains(entry),
            ChildStepView::SetLimit(setting) => match setting.resource {
                LimitedResource::AddressSpace => plan.limits.memory_bytes == Some(setting.value),
                LimitedResource::CpuTime => plan.limits.cpu_time_secs == Some(setting.value),
                LimitedResource::Processes => plan.limits.max_processes == Some(setting.value),
            },
            ChildStepView::AllowPrivateIpc { path, access } => access == 0x3ffe && (path
                == "/dev/mqueue"@ || path == "/dev/shm"@),
            ChildStepView::RestrictSelf(Layer::Filesystem) => true,
            ChildStepView::RestrictSelf(Layer::Network) => plan.network_layer,
            ChildStepView::RestrictSelf(Layer::Ipc) => plan.ipc_layer,
            ChildStepView::CloseOnExec { first } => first == 3,
            ChildStepView::InstallFilter { index } => 0 <= index < plan.filters,
        },
{
    let first = seq![ChildStepView::NoNewPrivs];
    let entries = namespace_setup(*plan.mounts, plan.uid as nat, plan.gid as nat);
    let entered = entries.map_values(|entry: NamespaceStepView| ChildStepView::Namespace(entry));
    let settings = settings_for(plan.limits);
    let capped = settings.map_values(|setting: LimitSetting| ChildStepView::SetLimit(setting));
    let ipc = seq![
        ChildStepView::AllowPrivateIpc { path: "/dev/mqueue"@, access: PRIVATE_IPC_ACCESS_FS },
        ChildStepView::AllowPrivateIpc { path: "/dev/shm"@, access: PRIVATE_IPC_ACCESS_FS },
        ChildStepView::RestrictSelf(Layer::Filesystem),
    ];
    let none = Seq::<ChildStepView>::empty();
    let network = if plan.network_layer {
        seq![ChildStepView::RestrictSelf(Layer::Network)]
    } else {
        none
    };
    let domain = if plan.ipc_layer {
        seq![ChildStepView::RestrictSelf(Layer::Ipc)]
    } else {
        none
    };
    let scrub = seq![ChildStepView::CloseOnExec { first: 3 }];
    let filters = filter_installs(plan.filters as nat);
    lemma_either_part(first, entered, step);
    lemma_either_part(first + entered, capped, step);
    lemma_either_part(ipc, network, step);
    lemma_either_part(ipc + network, domain, step);
    lemma_either_part(before_landlock(plan), landlock_layers(plan), step);
    lemma_either_part(before_landlock(plan) + landlock_layers(plan), scrub, step);
    lemma_either_part(before_landlock(plan) + landlock_layers(plan) + scrub, filters, step);
    assert(first[0] == ChildStepView::NoNewPrivs);
    assert(scrub[0] == ChildStepView::CloseOnExec { first: 3 });
    assert(ipc[0] == ChildStepView::AllowPrivateIpc {
        path: "/dev/mqueue"@,
        access: PRIVATE_IPC_ACCESS_FS,
    });
    assert(ipc[1] == ChildStepView::AllowPrivateIpc {
        path: "/dev/shm"@,
        access: PRIVATE_IPC_ACCESS_FS,
    });
    assert(ipc[2] == ChildStepView::RestrictSelf(Layer::Filesystem));
    if plan.network_layer {
        assert(network[0] == ChildStepView::RestrictSelf(Layer::Network));
    }
    if plan.ipc_layer {
        assert(domain[0] == ChildStepView::RestrictSelf(Layer::Ipc));
    }
    match step {
        ChildStepView::Namespace(entry) => {
            if entries.contains(entry) {
                let i = choose|i: int| 0 <= i < entries.len() && entries[i] == entry;
                assert(entered[i] == step);
            }
            if entered.contains(step) {
                let i = choose|i: int| 0 <= i < entered.len() && entered[i] == step;
                assert(entries[i] == entry);
            }
        },
        ChildStepView::SetLimit(setting) => {
            law_each_limit_is_one_cap(plan.limits, setting.value);
            if settings.contains(setting) {
                let i = choose|i: int| 0 <= i < settings.len() && settings[i] == setting;
                assert(capped[i] == step);
            }
            if capped.contains(step) {
                let i = choose|i: int| 0 <= i < capped.len() && capped[i] == step;
                assert(settings[i] == setting);
            }
            assert(setting == LimitSetting { resource: setting.resource, value: setting.value });
        },
        ChildStepView::InstallFilter { index } => {
            if 0 <= index < plan.filters {
                assert(filters[index] == step);
            }
        },
        _ => {},
    }
}

/// The namespace setup is done step by step, in its order, right after privileges were
/// given up.
pub proof fn law_namespace_steps_keep_their_order(plan: ChildPlan<'_>, i: int)
    requires
        0 <= i < namespace_setup(*plan.mounts, plan.uid as nat, plan.gid as nat).len(),
    ensures
        child_setup(plan)[i + 1] == ChildStepView::Namespace(
            namespace_setup(*plan.mounts, plan.uid as nat, plan.gid as nat)[i],
        ),
{
    let head = before_landlock(plan);
    assert(child_setup(plan)[i + 1] == head[i + 1]);
}

/// The layers are enforced in one order: the filesystem first, the network before the
/// IPC domain. Limits are set before any of them.
pub proof fn law_layers_keep_their_order(plan: ChildPlan<'_>, i: int, j: int)
    requires
        0 <= i < child_setup(plan).len(),
        0 <= j < child_setup(plan).len(),
        child_setup(plan)[j] matches ChildStepView::RestrictSelf(layer) && match child_setup(
            plan,
        )[i] {
            ChildStepView::RestrictSelf(Layer::Filesystem) => layer != Layer::Filesystem,
            ChildStepView::RestrictSelf(Layer::Network) => layer == Layer::Ipc,
            ChildStepView::SetLimit(_) => true,
            ChildStepView::AllowPrivateIpc { .. } => true,
            _ => false,
        },
    ensures
        i < j,
{
    let head = before_landlock(plan);
    let layers = landlock_layers(plan);
    let setup = child_setup(plan);
    let n = head.len() as int;
    lemma_landlock_segment(plan, j);
    if j < n + layers.len() {
        assert(setup[j] == layers[j - n]);
    }
    if i >= n && i < n + layers.len() {
        assert(setup[i] == layers[i - n]);
    }
    if i < n {
        assert(setup[i] == head[i]);
    }
}

} // verus!
