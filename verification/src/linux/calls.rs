//! What the filters do with a system call: the kernel's reading of the filter models,
//! and which calls a configuration lets through.
use crate::linux::numbers::{plain_number, Arch, KernelNumbers};
use crate::linux::seccomp::{
    denying, enosys_chains, filters_for, law_kernel_surface_is_always_denied,
    law_namespace_flags_decide, law_namespaces_follow_the_policy,
    law_rings_follow_the_network_policy, law_socket_families_follow_the_network_policy,
    lemma_numbers_are_plain,
    network_chains, newuser_conditions, numbers_of, is_number_of, is_only, open_families,
    other_family, probed_chains, violation_chains, Comparison, Condition, FilterAction,
    FilterModel,
};
use crate::policy::{NetworkPolicy, UserNamespacePolicy};
use vstd::prelude::*;

verus! {

/// The low half of a register, which is what the filters look at.
pub open spec fn low_half(register: u64) -> u64 {
    register % 0x1_0000_0000
}

/// Whether a condition holds of the arguments of a call.
pub open spec fn holds(condition: Condition, args: Seq<u64>) -> bool {
    let argument = low_half(args[condition.argument as int]);
    match condition.comparison {
        Comparison::NotEqual => argument != low_half(condition.value),
        Comparison::MaskedEqual(mask) => argument & mask == condition.value & mask,
    }
}

/// Whether a rule matches: all of its conditions hold.
pub open spec fn all_hold(rule: Seq<Condition>, args: Seq<u64>) -> bool {
    forall|i: int| 0 <= i < rule.len() ==> holds(#[trigger] rule[i], args)
}

/// Whether a chain matches: it has no rules, or one of them matches.
pub open spec fn chain_matches(chain: Seq<Seq<Condition>>, args: Seq<u64>) -> bool {
    chain.len() == 0 || exists|i: int| 0 <= i < chain.len() && all_hold(#[trigger] chain[i], args)
}

/// Whether a filter matches the call of `number` with `args`.
pub open spec fn filter_matches(
    rules: Map<i64, Seq<Seq<Condition>>>,
    number: i64,
    args: Seq<u64>,
) -> bool {
    rules.contains_key(number) && chain_matches(rules[number], args)
}

/// What one filter does with a call.
pub open spec fn action_for(filter: FilterModel, number: i64, args: Seq<u64>) -> FilterAction {
    if filter_matches(filter.rules, number, args) {
        filter.matched
    } else {
        filter.mismatch
    }
}

/// How much an action restricts: a trap most, then an error.
pub open spec fn severity(action: FilterAction) -> int {
    match action {
        FilterAction::Trap => 2,
        FilterAction::Errno(_) => 1,
        FilterAction::Allow => 0,
    }
}

/// What the first `n` installed filters do with a call: the kernel takes the most
/// severe action, and of equal ones that of the filter installed last.
pub open spec fn answer(
    filters: Seq<FilterModel>,
    n: int,
    number: i64,
    args: Seq<u64>,
) -> FilterAction
    decreases n,
{
    if n <= 0 {
        FilterAction::Allow
    } else {
        let earlier = answer(filters, n - 1, number, args);
        let last = action_for(filters[n - 1], number, args);
        if severity(last) >= severity(earlier) {
            last
        } else {
            earlier
        }
    }
}

/// Whether `number` makes the system call `syscall`: it is its number or, on x86-64,
/// its x32 number, which is its number with bit 30 set but for `kexec_load`, where it
/// is 528 with that bit.
pub open spec fn calls(numbers: KernelNumbers, syscall: i64, number: i64) -> bool {
    ||| number == syscall
    ||| numbers.arch == Arch::X86_64 && syscall != numbers.other.kexec_load && number == syscall
        | 0x4000_0000
    ||| numbers.arch == Arch::X86_64 && syscall == numbers.other.kexec_load && number == 528i64
        | 0x4000_0000i64
}

/// Whether `number` loads a new kernel. `kexec_file_load` is 320 on x86-64 and 294
/// elsewhere.
pub open spec fn loads_kernel(numbers: KernelNumbers, number: i64) -> bool {
    ||| calls(numbers, numbers.other.kexec_load, number)
    ||| numbers.arch == Arch::X86_64 && calls(numbers, 320, number)
    ||| numbers.arch != Arch::X86_64 && calls(numbers, 294, number)
}

/// Whether `number` loads code into the kernel, uses its keyring or interferes with
/// the state of the host.
pub open spec fn touches_the_host(numbers: KernelNumbers, number: i64) -> bool {
    let surface = numbers.surface;
    ||| loads_kernel(numbers, number)
    ||| calls(numbers, surface.init_module, number)
    ||| calls(numbers, surface.finit_module, number)
    ||| calls(numbers, surface.delete_module, number)
    ||| calls(numbers, surface.add_key, number)
    ||| calls(numbers, surface.request_key, number)
    ||| calls(numbers, surface.keyctl, number)
    ||| calls(numbers, surface.reboot, number)
    ||| calls(numbers, surface.swapon, number)
    ||| calls(numbers, surface.swapoff, number)
    ||| calls(numbers, surface.acct, number)
}

/// Whether `number` changes what is mounted where.
pub open spec fn changes_mounts(numbers: KernelNumbers, number: i64) -> bool {
    let mount = numbers.mount;
    ||| calls(numbers, mount.mount, number)
    ||| calls(numbers, mount.umount2, number)
    ||| calls(numbers, mount.move_mount, number)
    ||| calls(numbers, mount.fsopen, number)
    ||| calls(numbers, mount.fsconfig, number)
    ||| calls(numbers, mount.fsmount, number)
    ||| calls(numbers, mount.fspick, number)
    ||| calls(numbers, mount.open_tree, number)
    ||| calls(numbers, mount.mount_setattr, number)
    ||| calls(numbers, mount.pivot_root, number)
    ||| calls(numbers, mount.chroot, number)
}

/// Whether `number` is a kernel interface that tools probe and fall back from.
pub open spec fn is_probed(numbers: KernelNumbers, number: i64) -> bool {
    let other = numbers.other;
    ||| calls(numbers, other.bpf, number)
    ||| calls(numbers, other.perf_event_open, number)
    ||| calls(numbers, other.userfaultfd, number)
}

/// Whether `number` works on an io_uring.
pub open spec fn uses_rings(numbers: KernelNumbers, number: i64) -> bool {
    let other = numbers.other;
    ||| calls(numbers, other.io_uring_setup, number)
    ||| calls(numbers, other.io_uring_enter, number)
    ||| calls(numbers, other.io_uring_register, number)
}

/// Whether a call creates or joins a namespace, as far as its registers tell: the
/// flags of `unshare` and `clone` carry `CLONE_NEWUSER` (`0x1000_0000`), or it is
/// `setns`.
pub open spec fn changes_namespaces(numbers: KernelNumbers, number: i64, args: Seq<u64>) -> bool {
    let other = numbers.other;
    ||| calls(numbers, other.setns, number)
    ||| (calls(numbers, other.unshare, number) || calls(numbers, other.clone, number)) && low_half(
        args[0],
    ) & 0x1000_0000 != 0
}

/// Whether a call creates a socket of a family that the network policy closes. With
/// no network only `AF_UNIX` (1) is open, and for outbound connections `AF_INET` (2)
/// and `AF_INET6` (10) are too.
pub open spec fn opens_closed_family(
    numbers: KernelNumbers,
    network: NetworkPolicy,
    number: i64,
    args: Seq<u64>,
) -> bool {
    let domain = low_half(args[0]);
    calls(numbers, numbers.other.socket, number) && match network {
        NetworkPolicy::Deny => domain != 1,
        NetworkPolicy::OutboundOnly => domain != 1 && domain != 2 && domain != 10,
        NetworkPolicy::Full => false,
    }
}

/// The rules on sockets match a call exactly when it creates a socket whose domain is
/// none of those that the policy leaves open: `AF_UNIX` (1) without network; `AF_UNIX`
/// (1), `AF_INET` (2) and `AF_INET6` (10) for outbound connections; any with an open
/// network.
pub proof fn law_socket_domains_are_those_left_open(
    numbers: KernelNumbers,
    network: NetworkPolicy,
    number: i64,
    args: Seq<u64>,
)
    requires
        numbers.is_valid(),
        numbers.is_linux(),
    ensures
        filter_matches(network_chains(numbers, network), number, args) <==> opens_closed_family(
            numbers,
            network,
            number,
            args,
        ),
{
    let chains = network_chains(numbers, network);
    law_socket_families_follow_the_network_policy(numbers, network, number);
    lemma_calls(numbers, numbers.other.socket, number);
    let all = numbers.other.all();
    assert(all[0] == numbers.other.kexec_load && all[11] == numbers.other.socket);
    if network != NetworkPolicy::Full {
        let families = open_families(numbers, network)->0;
        let rule = other_family(families);
        assert(all_hold(rule, args) <==> forall|i: int|
            0 <= i < families.len() ==> low_half(args[0]) != #[trigger] families[i]) by {
            assert forall|i: int| 0 <= i < families.len() implies (holds(#[trigger] rule[i], args)
                <==> low_half(args[0]) != families[i]) by {
                assert(families[i] == 1 || families[i] == 2 || families[i] == 10);
            }
            if all_hold(rule, args) {
                assert forall|i: int| 0 <= i < families.len() implies low_half(args[0])
                    != #[trigger] families[i] by {
                    assert(holds(rule[i], args));
                }
            }
            if forall|i: int| 0 <= i < families.len() ==> low_half(args[0]) != #[trigger] families[i] {
                assert forall|i: int| 0 <= i < rule.len() implies holds(#[trigger] rule[i], args) by {
                    assert(low_half(args[0]) != families[i]);
                }
            }
        }
        if network == NetworkPolicy::Deny {
            assert(families.len() == 1 && families[0] == 1);
        } else {
            assert(families.len() == 3 && families[0] == 1 && families[1] == 2 && families[2]
                == 10);
        }
        if chains.contains_key(number) {
            lemma_only_rule(chains[number], rule, args);
        }
    }
}

/// The whole stack of filters, for every call. Loading code, using the keyring and
/// interfering with the host is trapped under every policy, and changing mounts
/// exactly where user namespaces are denied. Of the rest, io_uring fails as not
/// implemented unless the network is open, and `clone3` where user namespaces are
/// denied; the probed interfaces are not permitted under any policy, nor is creating
/// or joining namespaces where they are denied; creating a socket of a closed family
/// fails. Every other call goes through.
pub proof fn law_filters_answer_each_call(
    numbers: KernelNumbers,
    network: NetworkPolicy,
    policy: UserNamespacePolicy,
    number: i64,
    args: Seq<u64>,
)
    requires
        numbers.is_valid(),
        numbers.is_linux(),
    ensures
        ({
            let filters = filters_for(numbers, network, policy);
            let closed = policy == UserNamespacePolicy::Deny;
            answer(filters, filters.len() as int, number, args) == if touches_the_host(
                numbers,
                number,
            ) || (closed && changes_mounts(numbers, number)) {
                FilterAction::Trap
            } else if (network != NetworkPolicy::Full && uses_rings(numbers, number)) || (closed
                && calls(numbers, numbers.other.clone3, number)) {
                FilterAction::Errno(numbers.constants.enosys as u32)
            } else if is_probed(numbers, number) || (closed && changes_namespaces(
                numbers,
                number,
                args,
            )) {
                FilterAction::Errno(1)
            } else if opens_closed_family(numbers, network, number, args) {
                FilterAction::Errno(numbers.constants.eafnosupport as u32)
            } else {
                FilterAction::Allow
            }
        }),
{
    let filters = filters_for(numbers, network, policy);
    let arch = numbers.arch;
    let trap = denying(violation_chains(numbers, policy), FilterAction::Trap, arch);
    let family = denying(
        network_chains(numbers, network),
        FilterAction::Errno(numbers.constants.eafnosupport as u32),
        arch,
    );
    let probed = denying(
        probed_chains(numbers, policy),
        FilterAction::Errno(numbers.constants.eperm as u32),
        arch,
    );
    let missing = denying(
        enosys_chains(numbers, network, policy),
        FilterAction::Errno(numbers.constants.enosys as u32),
        arch,
    );
    law_socket_domains_are_those_left_open(numbers, network, number, args);
    lemma_trapped(numbers, policy, number, args);
    lemma_missing(numbers, network, policy, number, args);
    lemma_probed(numbers, policy, number, args);
    assert(filters.len() > 0 && filters[0] == trap);
    lemma_one_more(filters, 0, number, args, trap);
    if network == NetworkPolicy::Full {
        assert(filters.len() > 1 && filters[1] == probed);
        lemma_one_more(filters, 1, number, args, probed);
        if policy == UserNamespacePolicy::Deny {
            assert(filters.len() == 3 && filters[2] == missing);
            lemma_one_more(filters, 2, number, args, missing);
        } else {
            assert(filters.len() == 2);
        }
    } else {
        assert(filters.len() == 4 && filters[1] == family && filters[2] == probed && filters[3]
            == missing);
        lemma_one_more(filters, 1, number, args, family);
        lemma_one_more(filters, 2, number, args, probed);
        lemma_one_more(filters, 3, number, args, missing);
    }
}

/// One more filter that lets through what it does not match.
proof fn lemma_one_more(
    filters: Seq<FilterModel>,
    n: int,
    number: i64,
    args: Seq<u64>,
    last: FilterModel,
)
    requires
        0 <= n < filters.len(),
        filters[n] == last,
        last.mismatch == FilterAction::Allow,
        last.matched != FilterAction::Allow,
    ensures
        answer(filters, 0, number, args) == FilterAction::Allow,
        answer(filters, n + 1, number, args) == if filter_matches(last.rules, number, args)
            && severity(last.matched) >= severity(answer(filters, n, number, args)) {
            last.matched
        } else {
            answer(filters, n, number, args)
        },
{
}

/// No network policy closes Unix sockets.
pub proof fn law_unix_sockets_are_always_open(
    numbers: KernelNumbers,
    network: NetworkPolicy,
    number: i64,
    args: Seq<u64>,
)
    requires
        numbers.is_valid(),
        numbers.is_linux(),
        low_half(args[0]) == 1,
    ensures
        !filter_matches(network_chains(numbers, network), number, args),
{
    law_socket_domains_are_those_left_open(numbers, network, number, args);
}

/// The numbers of a system call are those that make it.
proof fn lemma_calls(numbers: KernelNumbers, syscall: i64, number: i64)
    ensures
        numbers_of(numbers, syscall).contains(number) <==> calls(numbers, syscall, number),
{
    let list = numbers_of(numbers, syscall);
    assert(list[0] == syscall);
    if numbers.arch == Arch::X86_64 {
        assert(list.len() == 2);
        assert(list[1] == (if syscall == numbers.other.kexec_load {
            528i64
        } else {
            syscall
        }) | 0x4000_0000i64);
    } else {
        assert(list.len() == 1);
    }
}

/// A chain of one rule matches where the rule does.
proof fn lemma_only_rule(chain: Seq<Seq<Condition>>, rule: Seq<Condition>, args: Seq<u64>)
    requires
        is_only(chain, rule),
    ensures
        chain_matches(chain, args) <==> all_hold(rule, args),
{
    assert(chain[0] == rule);
}

proof fn lemma_trapped(
    numbers: KernelNumbers,
    policy: UserNamespacePolicy,
    number: i64,
    args: Seq<u64>,
)
    ensures
        filter_matches(violation_chains(numbers, policy), number, args) <==> touches_the_host(
            numbers,
            number,
        ) || (policy == UserNamespacePolicy::Deny && changes_mounts(numbers, number)),
{
    law_kernel_surface_is_always_denied(numbers, policy, number);
    lemma_surface(numbers, number);
    lemma_mount_machinery(numbers, number);
}

/// The numbers of a list of system calls are those that make one of them.
proof fn lemma_made_by(numbers: KernelNumbers, syscalls: Seq<i64>, number: i64)
    ensures
        is_number_of(numbers, syscalls, number) <==> exists|i: int|
            0 <= i < syscalls.len() && calls(numbers, #[trigger] syscalls[i], number),
{
    if is_number_of(numbers, syscalls, number) {
        let i = choose|i: int|
            0 <= i < syscalls.len() && numbers_of(numbers, #[trigger] syscalls[i]).contains(number);
        lemma_calls(numbers, syscalls[i], number);
    }
    if exists|i: int| 0 <= i < syscalls.len() && calls(numbers, #[trigger] syscalls[i], number) {
        let i = choose|i: int|
            0 <= i < syscalls.len() && calls(numbers, #[trigger] syscalls[i], number);
        lemma_calls(numbers, syscalls[i], number);
    }
}

proof fn lemma_surface(numbers: KernelNumbers, number: i64)
    ensures
        is_number_of(numbers, numbers.kernel_surface(), number) <==> touches_the_host(
            numbers,
            number,
        ),
{
    let list = numbers.kernel_surface();
    let surface = numbers.surface;
    lemma_made_by(numbers, list, number);
    assert(list.len() == 12);
    assert(list[0] == numbers.other.kexec_load);
    assert(list[1] == if numbers.arch == Arch::X86_64 {
        320i64
    } else {
        294i64
    });
    assert(list[2] == surface.init_module && list[3] == surface.finit_module && list[4]
        == surface.delete_module && list[5] == surface.add_key && list[6] == surface.request_key);
    assert(list[7] == surface.keyctl && list[8] == surface.reboot && list[9] == surface.swapon
        && list[10] == surface.swapoff && list[11] == surface.acct);
}

proof fn lemma_mount_machinery(numbers: KernelNumbers, number: i64)
    ensures
        is_number_of(numbers, numbers.mount_machinery(), number) <==> changes_mounts(
            numbers,
            number,
        ),
{
    let list = numbers.mount_machinery();
    let mount = numbers.mount;
    lemma_made_by(numbers, list, number);
    assert(list.len() == 11);
    assert(list[0] == mount.mount && list[1] == mount.umount2 && list[2] == mount.move_mount
        && list[3] == mount.fsopen && list[4] == mount.fsconfig && list[5] == mount.fsmount);
    assert(list[6] == mount.fspick && list[7] == mount.open_tree && list[8] == mount.mount_setattr
        && list[9] == mount.pivot_root && list[10] == mount.chroot);
}

proof fn lemma_missing(
    numbers: KernelNumbers,
    network: NetworkPolicy,
    policy: UserNamespacePolicy,
    number: i64,
    args: Seq<u64>,
)
    ensures
        filter_matches(enosys_chains(numbers, network, policy), number, args) <==> (network
            != NetworkPolicy::Full && uses_rings(numbers, number)) || (policy
            == UserNamespacePolicy::Deny && calls(numbers, numbers.other.clone3, number)),
{
    let list = numbers.io_uring();
    law_rings_follow_the_network_policy(numbers, network, policy, number);
    lemma_calls(numbers, numbers.other.clone3, number);
    lemma_made_by(numbers, list, number);
    assert(list.len() == 3 && list[0] == numbers.other.io_uring_setup && list[1]
        == numbers.other.io_uring_enter && list[2] == numbers.other.io_uring_register);
}

proof fn lemma_probed(
    numbers: KernelNumbers,
    policy: UserNamespacePolicy,
    number: i64,
    args: Seq<u64>,
)
    requires
        numbers.is_valid(),
        numbers.is_linux(),
    ensures
        filter_matches(probed_chains(numbers, policy), number, args) <==> is_probed(
            numbers,
            number,
        ) || (policy == UserNamespacePolicy::Deny && changes_namespaces(numbers, number, args)),
{
    let list = numbers.probed_kernel();
    let chains = probed_chains(numbers, policy);
    let newuser = newuser_conditions(numbers);
    law_namespaces_follow_the_policy(numbers, policy, number);
    lemma_calls(numbers, numbers.other.unshare, number);
    lemma_calls(numbers, numbers.other.clone, number);
    lemma_calls(numbers, numbers.other.setns, number);
    lemma_made_by(numbers, list, number);
    assert(list.len() == 3 && list[0] == numbers.other.bpf && list[1]
        == numbers.other.perf_event_open && list[2] == numbers.other.userfaultfd);
    let flags = low_half(args[0]);
    assert(flags & 0x1000_0000u64 == 0x1000_0000u64 & 0x1000_0000u64 <==> flags & 0x1000_0000u64
        != 0) by (bit_vector);
    assert(newuser.len() == 1);
    assert(all_hold(newuser, args) <==> holds(newuser[0], args));
    if chains.contains_key(number) {
        law_namespace_flags_decide(numbers, policy, number);
        if policy == UserNamespacePolicy::Deny && crate::linux::seccomp::takes_flags(
            numbers,
            number,
        ) {
            lemma_only_rule(chains[number], newuser, args);
            lemma_flags_only(numbers, policy, number);
        }
    }
}

/// A number of `unshare` or `clone` makes no other of the calls.
proof fn lemma_flags_only(numbers: KernelNumbers, policy: UserNamespacePolicy, number: i64)
    requires
        numbers.is_valid(),
        numbers.is_linux(),
        calls(numbers, numbers.other.unshare, number) || calls(
            numbers,
            numbers.other.clone,
            number,
        ),
    ensures
        !is_probed(numbers, number),
        !calls(numbers, numbers.other.setns, number),
{
    let other = numbers.other;
    let all = other.all();
    assert(all[0] == other.kexec_load && all[1] == other.bpf && all[2] == other.perf_event_open
        && all[3] == other.userfaultfd && all[7] == other.unshare && all[8] == other.clone
        && all[9] == other.setns);
    assert forall|syscall: i64|
        (syscall == other.bpf || syscall == other.perf_event_open || syscall == other.userfaultfd
            || syscall == other.unshare || syscall == other.clone || syscall == other.setns)
            && #[trigger] calls(numbers, syscall, number) implies plain_number(number)
        == plain_number(syscall) by {
        lemma_calls(numbers, syscall, number);
        lemma_numbers_are_plain(numbers, syscall, number);
    }
}

} // verus!
