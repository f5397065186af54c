//! Network and kernel-attack-surface confinement via seccomp-BPF denylists.
//!
//! Default action is allow; the stacked filters deny specific system calls and
//! arguments. The kernel runs every installed filter and applies the
//! highest-precedence action (trap, then errno, then allow).
use crate::config::SandboxConfig;
use crate::error::{is_confinement, Error, ErrorSource};
use crate::linux::numbers::{
    all_differ, is_syscall_number, plain_number, Arch, KernelNumbers, X32_SYSCALL_BIT,
};
use crate::policy::{NetworkPolicy, UserNamespacePolicy};
use crate::text::{decimal, push_decimal};
use seccompiler::{
    BackendError, BpfProgram, SeccompAction, SeccompCmpArgLen, SeccompCmpOp, SeccompCondition,
    SeccompFilter, SeccompRule, TargetArch,
};
use std::collections::BTreeMap;
use vstd::prelude::*;

verus! {

/// Declares `seccompiler::SeccompCondition`.
#[verifier::external_type_specification]
#[verifier::external_body]
pub struct ExSeccompCondition(seccompiler::SeccompCondition);

/// Declares `seccompiler::SeccompRule`.
#[verifier::external_type_specification]
#[verifier::external_body]
pub struct ExSeccompRule(seccompiler::SeccompRule);

/// Declares `seccompiler::SeccompFilter`.
#[verifier::external_type_specification]
#[verifier::external_body]
pub struct ExSeccompFilter(seccompiler::SeccompFilter);

/// Declares `seccompiler::BackendError`.
#[verifier::external_type_specification]
#[verifier::external_body]
pub struct ExBackendError(seccompiler::BackendError);

/// How a condition compares the low half of an argument with its value.
pub enum Comparison {
    /// It differs.
    NotEqual,
    /// It is the same in the bits of a mask.
    MaskedEqual(u64),
}

/// What a condition says of one argument.
pub struct Condition {
    pub argument: u8,
    pub comparison: Comparison,
    pub value: u64,
}

/// What a filter does with a system call.
#[derive(Debug, Clone, Copy, PartialEq, Eq, Structural)]
pub enum FilterAction {
    /// The call goes through.
    Allow,
    /// The caller is sent `SIGSYS`.
    Trap,
    /// The call fails with this error number.
    Errno(u32),
}

/// What a filter holds: for each system call a chain of rules, each of which is
/// a list of conditions that must all hold. An empty chain matches always.
pub struct FilterModel {
    pub rules: Map<i64, Seq<Seq<Condition>>>,
    pub mismatch: FilterAction,
    pub matched: FilterAction,
    pub arch: Arch,
}

/// One instruction of a filter program.
#[derive(Debug, Clone, Copy, PartialEq, Eq, Structural)]
pub struct BpfInstruction {
    /// Code of the instruction.
    pub code: u16,
    /// Jump offset if true.
    pub jt: u8,
    /// Jump offset if false.
    pub jf: u8,
    /// Immediate value.
    pub k: u32,
}

/// Why a filter could not be compiled.
#[derive(Debug, PartialEq, Eq)]
pub enum FilterError {
    /// A rule without conditions.
    EmptyRule,
    /// More instructions than a program can have.
    FilterTooLarge(usize),
    /// The filter would do the same on match and mismatch.
    IdenticalActions,
    /// A condition on an argument that no system call has.
    InvalidArgumentNumber,
    /// An architecture that filters cannot be compiled for.
    InvalidTargetArch(String),
}

/// What a [`FilterError`] says.
pub enum FilterErrorView {
    EmptyRule,
    FilterTooLarge(usize),
    IdenticalActions,
    InvalidArgumentNumber,
    InvalidTargetArch(Seq<char>),
}

impl View for FilterError {
    type V = FilterErrorView;

    open spec fn view(&self) -> FilterErrorView {
        match self {
            FilterError::EmptyRule => FilterErrorView::EmptyRule,
            FilterError::FilterTooLarge(len) => FilterErrorView::FilterTooLarge(*len),
            FilterError::IdenticalActions => FilterErrorView::IdenticalActions,
            FilterError::InvalidArgumentNumber => FilterErrorView::InvalidArgumentNumber,
            FilterError::InvalidTargetArch(arch) => FilterErrorView::InvalidTargetArch(arch@),
        }
    }
}

/// What a `SeccompCondition` says.
pub uninterp spec fn condition_of(condition: SeccompCondition) -> Condition;

/// The conditions that a `SeccompRule` holds.
pub uninterp spec fn conditions_of(rule: SeccompRule) -> Seq<Condition>;

/// What a `SeccompFilter` holds.
pub uninterp spec fn filter_of(filter: SeccompFilter) -> FilterModel;

/// What a `BackendError` says.
pub uninterp spec fn error_of(error: BackendError) -> FilterErrorView;

/// The program that a filter compiles to, or nothing where it is too large.
pub uninterp spec fn program_of(filter: FilterModel) -> Option<Seq<BpfInstruction>>;

/// An ASCII letter in lower case, and any other character as it is.
pub open spec fn lower(c: char) -> char {
    if 'A' <= c && c <= 'Z' {
        (c as u32 + 32) as char
    } else {
        c
    }
}

/// Whether `text` is the lower-case `name`, in whatever case.
pub open spec fn is_spelled(text: Seq<char>, name: Seq<char>) -> bool {
    text.len() == name.len() && forall|i: int|
        0 <= i < text.len() ==> lower(#[trigger] text[i]) == name[i]
}

/// The architecture of a name, in whatever case it is written.
pub open spec fn arch_named(name: Seq<char>) -> Option<Arch> {
    if is_spelled(name, "x86_64"@) {
        Some(Arch::X86_64)
    } else if is_spelled(name, "aarch64"@) {
        Some(Arch::Aarch64)
    } else if is_spelled(name, "riscv64"@) {
        Some(Arch::Riscv64)
    } else {
        None
    }
}

/// Each of the three architectures is known by its own name.
pub proof fn law_architectures_are_known_by_name()
    ensures
        arch_named("x86_64"@) == Some(Arch::X86_64),
        arch_named("aarch64"@) == Some(Arch::Aarch64),
        arch_named("riscv64"@) == Some(Arch::Riscv64),
{
    reveal_strlit("x86_64");
    reveal_strlit("aarch64");
    reveal_strlit("riscv64");
    assert(lower("riscv64"@[0]) == 'r');
    assert("aarch64"@[0] == 'a');
}

/// Calls `SeccompCondition::new` for the low half of an argument that must
/// differ from `value`. Fails exactly on an argument index above 5.
#[verifier::external_body]
fn differs(argument: u8, value: u64) -> (condition: Result<SeccompCondition, BackendError>)
    ensures
        match condition {
            Ok(condition) => argument <= 5 && condition_of(condition) == (Condition {
                argument,
                comparison: Comparison::NotEqual,
                value,
            }),
            Err(error) => argument > 5 && error_of(error)
                == FilterErrorView::InvalidArgumentNumber,
        },
{
    SeccompCondition::new(argument, SeccompCmpArgLen::Dword, SeccompCmpOp::Ne, value)
}

/// Calls `SeccompCondition::new` for the low half of an argument that must equal
/// `value` in the bits of `mask`. Fails exactly on an argument index above 5.
#[verifier::external_body]
fn masked_equals(argument: u8, mask: u64, value: u64) -> (condition: Result<
    SeccompCondition,
    BackendError,
>)
    ensures
        match condition {
            Ok(condition) => argument <= 5 && condition_of(condition) == (Condition {
                argument,
                comparison: Comparison::MaskedEqual(mask),
                value,
            }),
            Err(error) => argument > 5 && error_of(error)
                == FilterErrorView::InvalidArgumentNumber,
        },
{
    SeccompCondition::new(argument, SeccompCmpArgLen::Dword, SeccompCmpOp::MaskedEq(mask), value)
}

/// Calls `SeccompRule::new`: the rule holds the given conditions. Fails exactly
/// where there are none.
#[verifier::external_body]
fn new_rule(conditions: Vec<SeccompCondition>) -> (rule: Result<SeccompRule, BackendError>)
    ensures
        match rule {
            Ok(rule) => conditions@.len() > 0 && conditions_of(rule) == conditions@.map_values(
                |condition: SeccompCondition| condition_of(condition),
            ),
            Err(error) => conditions@.len() == 0 && error_of(error) == FilterErrorView::EmptyRule,
        },
{
    SeccompRule::new(conditions)
}

/// `SeccompRule` derives `Clone`: the copy holds the same conditions.
pub assume_specification[ <SeccompRule as Clone>::clone ](rule: &SeccompRule) -> (copy:
    SeccompRule)
    ensures
        conditions_of(copy) == conditions_of(*rule),
;

/// Calls `SeccompFilter::new` with the actions and the architecture of the same
/// names: the filter holds what it is given. Fails exactly where the two actions are
/// the same.
#[verifier::external_body]
fn new_filter(
    rules: BTreeMap<i64, Vec<SeccompRule>>,
    mismatch: FilterAction,
    matched: FilterAction,
    arch: Arch,
) -> (filter: Result<SeccompFilter, BackendError>)
    ensures
        match filter {
            Ok(filter) => mismatch != matched && filter_of(filter) == (FilterModel {
                rules: model_of(rules@),
                mismatch,
                matched,
                arch,
            }),
            Err(error) => mismatch == matched && error_of(error)
                == FilterErrorView::IdenticalActions,
        },
{
    let named = |action: FilterAction| match action {
        FilterAction::Allow => SeccompAction::Allow,
        FilterAction::Trap => SeccompAction::Trap,
        FilterAction::Errno(number) => SeccompAction::Errno(number),
    };
    let target_arch = match arch {
        Arch::X86_64 => TargetArch::x86_64,
        Arch::Aarch64 => TargetArch::aarch64,
        Arch::Riscv64 => TargetArch::riscv64,
    };
    SeccompFilter::new(rules, named(mismatch), named(matched), target_arch)
}

/// Calls `BpfProgram::try_from` on a filter. The program is left to the name
/// `program_of`. Fails exactly where the program has 4096 instructions or more.
/// A system call number outside the range of `u32` would panic.
#[verifier::external_body]
fn compile_filter(filter: SeccompFilter) -> (program: Result<Vec<BpfInstruction>, BackendError>)
    requires
        forall|number: i64| #[trigger]
            filter_of(filter).rules.contains_key(number) ==> 0 <= number <= u32::MAX,
    ensures
        match program {
            Ok(program) => program_of(filter_of(filter)) == Some(program@) && program@.len()
                < 4096,
            Err(error) => program_of(filter_of(filter)) is None && (error_of(error) matches
                FilterErrorView::FilterTooLarge(len) && len >= 4096),
        },
{
    let program = BpfProgram::try_from(filter)?;
    Ok(
        program.into_iter().map(
            |i| BpfInstruction { code: i.code, jt: i.jt, jf: i.jf, k: i.k },
        ).collect(),
    )
}

/// Calls `TargetArch::try_from` on a name, which it compares in lower case with the
/// names of three architectures. No character beyond ASCII has a letter of those
/// names as its lower case. Fails with the name on any other one.
#[verifier::external_body]
fn parse_arch(name: &str) -> (arch: Result<Arch, BackendError>)
    ensures
        match arch {
            Ok(arch) => arch_named(name@) == Some(arch),
            Err(error) => arch_named(name@) is None && error_of(error)
                == FilterErrorView::InvalidTargetArch(name@),
        },
{
    Ok(
        match TargetArch::try_from(name)? {
            TargetArch::x86_64 => Arch::X86_64,
            TargetArch::aarch64 => Arch::Aarch64,
            TargetArch::riscv64 => Arch::Riscv64,
        },
    )
}

/// Takes a `BackendError` apart.
#[verifier::external_body]
fn filter_error(error: BackendError) -> (own: FilterError)
    ensures
        own@ == error_of(error),
{
    match error {
        BackendError::EmptyRule => FilterError::EmptyRule,
        BackendError::FilterTooLarge(len) => FilterError::FilterTooLarge(len),
        BackendError::IdenticalActions => FilterError::IdenticalActions,
        BackendError::InvalidArgumentNumber => FilterError::InvalidArgumentNumber,
        BackendError::InvalidTargetArch(arch) => FilterError::InvalidTargetArch(arch),
    }
}

/// The rule chains of a rule map.
pub open spec fn model_of(rules: Map<i64, Vec<SeccompRule>>) -> Map<i64, Seq<Seq<Condition>>> {
    rules.map_values(
        |chain: Vec<SeccompRule>| chain@.map_values(|rule: SeccompRule| conditions_of(rule)),
    )
}

/// Maps system call numbers to rule chains.
pub type RuleMap = BTreeMap<i64, Vec<SeccompRule>>;

/// The legacy x32 number of `kexec_load`, whose base number is its own.
pub const X32_SYS_KEXEC_LOAD: i64 = 528;

/// The numbers under which a system call can be made.
pub open spec fn numbers_of(numbers: KernelNumbers, syscall: i64) -> Seq<i64> {
    match numbers.arch {
        Arch::X86_64 => seq![
            syscall,
            (if syscall == numbers.other.kexec_load {
                X32_SYS_KEXEC_LOAD
            } else {
                syscall
            }) | X32_SYSCALL_BIT,
        ],
        Arch::Aarch64 | Arch::Riscv64 => seq![syscall],
    }
}

/// The chains with the number `n` denied as a whole, unless it has a chain.
pub open spec fn deny_number(
    chains: Map<i64, Seq<Seq<Condition>>>,
    n: i64,
) -> Map<i64, Seq<Seq<Condition>>> {
    if chains.contains_key(n) {
        chains
    } else {
        chains.insert(n, seq![])
    }
}

/// The chains with one more rule for the number `n`.
pub open spec fn match_number(
    chains: Map<i64, Seq<Seq<Condition>>>,
    n: i64,
    rule: Seq<Condition>,
) -> Map<i64, Seq<Seq<Condition>>> {
    if chains.contains_key(n) {
        chains.insert(n, chains[n].push(rule))
    } else {
        chains.insert(n, seq![rule])
    }
}

/// The chains with each of the numbers denied as a whole.
pub open spec fn deny_each(
    chains: Map<i64, Seq<Seq<Condition>>>,
    list: Seq<i64>,
) -> Map<i64, Seq<Seq<Condition>>>
    decreases list.len(),
{
    if list.len() == 0 {
        chains
    } else {
        deny_number(deny_each(chains, list.drop_last()), list.last())
    }
}

/// The chains with one more rule for each of the numbers.
pub open spec fn match_each(
    chains: Map<i64, Seq<Seq<Condition>>>,
    list: Seq<i64>,
    rule: Seq<Condition>,
) -> Map<i64, Seq<Seq<Condition>>>
    decreases list.len(),
{
    if list.len() == 0 {
        chains
    } else {
        match_number(match_each(chains, list.drop_last(), rule), list.last(), rule)
    }
}

/// The chains with each of the system calls denied as a whole.
pub open spec fn deny_syscalls(
    numbers: KernelNumbers,
    chains: Map<i64, Seq<Seq<Condition>>>,
    syscalls: Seq<i64>,
) -> Map<i64, Seq<Seq<Condition>>>
    decreases syscalls.len(),
{
    if syscalls.len() == 0 {
        chains
    } else {
        deny_each(
            deny_syscalls(numbers, chains, syscalls.drop_last()),
            numbers_of(numbers, syscalls.last()),
        )
    }
}

/// The numbers under which a system call can be made.
pub fn syscall_numbers(numbers: &KernelNumbers, syscall: i64) -> (list: Vec<i64>)
    ensures
        list@ == numbers_of(*numbers, syscall),
{
    let list = match numbers.arch {
        Arch::X86_64 => {
            let x32_syscall = if syscall == numbers.other.kexec_load {
                X32_SYS_KEXEC_LOAD
            } else {
                syscall
            };
            vec![syscall, x32_syscall | X32_SYSCALL_BIT]
        },
        Arch::Aarch64 | Arch::Riscv64 => vec![syscall],
    };
    assert(list@ =~= numbers_of(*numbers, syscall));
    list
}

/// Denies one number as a whole, unless it has a chain.
fn deny_one(rules: &mut RuleMap, number: i64)
    ensures
        model_of(final(rules)@) == deny_number(model_of(old(rules)@), number),
{
    broadcast use vstd::laws_cmp::group_laws_cmp;

    let ghost before = rules@;
    if !rules.contains_key(&number) {
        let chain: Vec<SeccompRule> = Vec::new();
        assert(chain@.map_values(|rule: SeccompRule| conditions_of(rule)) =~= seq![]);
        rules.insert(number, chain);
        assert(model_of(rules@) =~= model_of(before).insert(number, seq![]));
    }
}

/// Adds one rule to the chain of one number.
fn match_one(rules: &mut RuleMap, number: i64, rule: SeccompRule)
    ensures
        model_of(final(rules)@) == match_number(
            model_of(old(rules)@),
            number,
            conditions_of(rule),
        ),
{
    broadcast use vstd::laws_cmp::group_laws_cmp;

    let ghost before = rules@;
    let ghost conditions = conditions_of(rule);
    let mut chain = match rules.remove(&number) {
        Some(chain) => chain,
        None => Vec::new(),
    };
    let ghost old_chain = chain@.map_values(|rule: SeccompRule| conditions_of(rule));
    chain.push(rule);
    assert(chain@.map_values(|rule: SeccompRule| conditions_of(rule)) =~= old_chain.push(
        conditions,
    ));
    rules.insert(number, chain);
    proof {
        if !before.contains_key(number) {
            assert(old_chain =~= seq![]);
            assert(old_chain.push(conditions) =~= seq![conditions]);
        }
        assert(model_of(rules@) =~= match_number(model_of(before), number, conditions));
    }
}

/// Denies a system call whatever its arguments are. An empty chain matches
/// always.
fn add_whole_syscall_rule(rules: &mut RuleMap, numbers: &KernelNumbers, syscall: i64)
    ensures
        model_of(final(rules)@) == deny_each(
            model_of(old(rules)@),
            numbers_of(*numbers, syscall),
        ),
{
    let list = syscall_numbers(numbers, syscall);
    let ghost start = model_of(rules@);
    let mut i: usize = 0;
    assert(list@.take(0) =~= seq![]);
    while i < list.len()
        invariant
            i <= list@.len(),
            model_of(rules@) == deny_each(start, list@.take(i as int)),
        decreases list.len() - i,
    {
        deny_one(rules, list[i]);
        assert(list@.take(i + 1).drop_last() =~= list@.take(i as int));
        i += 1;
    }
    assert(list@.take(i as int) =~= list@);
}

/// Denies a system call where `rule` matches its arguments.
fn add_syscall_rule(rules: &mut RuleMap, numbers: &KernelNumbers, syscall: i64, rule: SeccompRule)
    ensures
        model_of(final(rules)@) == match_each(
            model_of(old(rules)@),
            numbers_of(*numbers, syscall),
            conditions_of(rule),
        ),
{
    let list = syscall_numbers(numbers, syscall);
    let ghost start = model_of(rules@);
    let ghost conditions = conditions_of(rule);
    let mut i: usize = 0;
    assert(list@.take(0) =~= seq![]);
    while i < list.len()
        invariant
            i <= list@.len(),
            conditions == conditions_of(rule),
            model_of(rules@) == match_each(start, list@.take(i as int), conditions),
        decreases list.len() - i,
    {
        match_one(rules, list[i], rule.clone());
        assert(list@.take(i + 1).drop_last() =~= list@.take(i as int));
        i += 1;
    }
    assert(list@.take(i as int) =~= list@);
}

/// Denies each of the system calls as a whole.
fn add_whole_syscall_rules(rules: &mut RuleMap, numbers: &KernelNumbers, syscalls: &Vec<i64>)
    ensures
        model_of(final(rules)@) == deny_syscalls(*numbers, model_of(old(rules)@), syscalls@),
{
    let ghost start = model_of(rules@);
    let mut i: usize = 0;
    assert(syscalls@.take(0) =~= seq![]);
    while i < syscalls.len()
        invariant
            i <= syscalls@.len(),
            model_of(rules@) == deny_syscalls(*numbers, start, syscalls@.take(i as int)),
        decreases syscalls.len() - i,
    {
        add_whole_syscall_rule(rules, numbers, syscalls[i]);
        assert(syscalls@.take(i + 1).drop_last() =~= syscalls@.take(i as int));
        i += 1;
    }
    assert(syscalls@.take(i as int) =~= syscalls@);
}

/// The kernel attack surface: denied regardless of policy, and with it the mount
/// machinery unless the child may create user namespaces.
pub open spec fn violation_chains(
    numbers: KernelNumbers,
    policy: UserNamespacePolicy,
) -> Map<i64, Seq<Seq<Condition>>> {
    let surface = deny_syscalls(numbers, Map::empty(), numbers.kernel_surface());
    match policy {
        UserNamespacePolicy::Deny => deny_syscalls(numbers, surface, numbers.mount_machinery()),
        UserNamespacePolicy::Allow => surface,
    }
}

/// A flags argument that carries `CLONE_NEWUSER`.
pub open spec fn newuser_conditions(numbers: KernelNumbers) -> Seq<Condition> {
    seq![
        Condition {
            argument: 0,
            comparison: Comparison::MaskedEqual(numbers.constants.clone_newuser as u64),
            value: numbers.constants.clone_newuser as u64,
        },
    ]
}

/// Interfaces that legitimate tools probe, and with them creating and joining
/// namespaces unless the child may create user namespaces.
pub open spec fn probed_chains(
    numbers: KernelNumbers,
    policy: UserNamespacePolicy,
) -> Map<i64, Seq<Seq<Condition>>> {
    let probed = deny_syscalls(numbers, Map::empty(), numbers.probed_kernel());
    let newuser = newuser_conditions(numbers);
    match policy {
        UserNamespacePolicy::Deny => deny_each(
            match_each(
                match_each(probed, numbers_of(numbers, numbers.other.unshare), newuser),
                numbers_of(numbers, numbers.other.clone),
                newuser,
            ),
            numbers_of(numbers, numbers.other.setns),
        ),
        UserNamespacePolicy::Allow => probed,
    }
}

/// What the other filters cannot see: io_uring unless the network is open, and
/// `clone3`, whose flags lie in memory, unless the child may create user
/// namespaces.
pub open spec fn enosys_chains(
    numbers: KernelNumbers,
    network: NetworkPolicy,
    policy: UserNamespacePolicy,
) -> Map<i64, Seq<Seq<Condition>>> {
    let rings = if network == NetworkPolicy::Full {
        Map::empty()
    } else {
        deny_syscalls(numbers, Map::empty(), numbers.io_uring())
    };
    match policy {
        UserNamespacePolicy::Deny => deny_each(rings, numbers_of(numbers, numbers.other.clone3)),
        UserNamespacePolicy::Allow => rings,
    }
}

/// The socket families that a network policy leaves open, where it restricts
/// them.
pub open spec fn open_families(numbers: KernelNumbers, network: NetworkPolicy) -> Option<Seq<i32>> {
    match network {
        NetworkPolicy::Deny => Some(seq![numbers.constants.af_unix]),
        NetworkPolicy::OutboundOnly => Some(
            seq![numbers.constants.af_unix, numbers.constants.af_inet, numbers.constants.af_inet6],
        ),
        NetworkPolicy::Full => None,
    }
}

/// A socket domain that is none of `families`.
pub open spec fn other_family(families: Seq<i32>) -> Seq<Condition> {
    families.map_values(
        |family: i32|
            Condition { argument: 0, comparison: Comparison::NotEqual, value: family as u64 },
    )
}

/// Creating a socket of a family that the network policy does not leave open.
pub open spec fn network_chains(
    numbers: KernelNumbers,
    network: NetworkPolicy,
) -> Map<i64, Seq<Seq<Condition>>> {
    match open_families(numbers, network) {
        Some(families) => match_each(
            Map::empty(),
            numbers_of(numbers, numbers.other.socket),
            other_family(families),
        ),
        None => Map::empty(),
    }
}

/// The message of a filter error.
pub open spec fn filter_error_text(error: FilterErrorView) -> Seq<char> {
    match error {
        FilterErrorView::EmptyRule => "The condition vector of a rule cannot be empty."@,
        FilterErrorView::FilterTooLarge(len) =>
            "The seccomp filter contains too many BPF instructions: "@ + decimal(len as nat)
            + ". Max length is 4096."@,
        FilterErrorView::IdenticalActions => "`match_action` and `mismatch_action` are equal."@,
        FilterErrorView::InvalidArgumentNumber =>
            "The seccomp rule contains an invalid argument index. Maximum index value: 5"@,
        FilterErrorView::InvalidTargetArch(arch) => "Invalid target arch: "@ + arch + "."@,
    }
}

/// Whether `error` reports `cause` of the seccomp stage.
pub open spec fn is_filter_error(error: Error, cause: FilterErrorView) -> bool {
    is_confinement(error, "seccomp"@, filter_error_text(cause))
}

/// A seccomp failure with the message of its cause.
fn seccomp_error(cause: BackendError) -> (error: Error)
    ensures
        is_filter_error(error, error_of(cause)),
{
    let text = match filter_error(cause) {
        FilterError::EmptyRule => String::from_str(
            "The condition vector of a rule cannot be empty.",
        ),
        FilterError::FilterTooLarge(len) => {
            let mut text = String::from_str(
                "The seccomp filter contains too many BPF instructions: ",
            );
            push_decimal(&mut text, len as u64);
            text.append(". Max length is 4096.");
            text
        },
        FilterError::IdenticalActions => String::from_str(
            "`match_action` and `mismatch_action` are equal.",
        ),
        FilterError::InvalidArgumentNumber => String::from_str(
            "The seccomp rule contains an invalid argument index. Maximum index value: 5",
        ),
        FilterError::InvalidTargetArch(arch) => {
            let mut text = String::from_str("Invalid target arch: ");
            text.append(arch.as_str());
            text.append(".");
            text
        },
    };
    Error::confinement("seccomp", ErrorSource::Message(text))
}

/// Rules for the kernel attack surface, which is trapped.
pub fn violation_rules(config: &SandboxConfig, numbers: &KernelNumbers) -> (rules: RuleMap)
    ensures
        model_of(rules@) == violation_chains(*numbers, config.linux_user_namespaces),
{
    let mut rules: RuleMap = BTreeMap::new();
    assert(model_of(rules@) =~= Map::empty());
    add_whole_syscall_rules(&mut rules, numbers, &numbers.kernel_surface_syscalls());
    if config.linux_user_namespaces == UserNamespacePolicy::Deny {
        add_whole_syscall_rules(&mut rules, numbers, &numbers.mount_syscalls());
    }
    rules
}

/// A rule matching a flags argument that carries `CLONE_NEWUSER`. `flags` is the
/// first argument of both `unshare` and `clone`. Only the low half counts: the
/// upper half of the register is undefined.
fn clone_newuser_rule(numbers: &KernelNumbers) -> (rule: Result<SeccompRule, Error>)
    requires
        numbers.constants.is_valid(),
    ensures
        rule matches Ok(rule) && conditions_of(rule) == newuser_conditions(*numbers),
{
    let flag = numbers.constants.clone_newuser as u64;
    let condition = match masked_equals(0, flag, flag) {
        Ok(condition) => condition,
        Err(error) => {
            return Err(seccomp_error(error));
        },
    };
    let mut conditions: Vec<SeccompCondition> = Vec::new();
    conditions.push(condition);
    match new_rule(conditions) {
        Ok(rule) => {
            assert(conditions_of(rule) =~= newuser_conditions(*numbers));
            Ok(rule)
        },
        Err(error) => Err(seccomp_error(error)),
    }
}

/// Rules for interfaces that legitimate tools probe, plus creating and joining
/// namespaces.
pub fn probed_kernel_rules(config: &SandboxConfig, numbers: &KernelNumbers) -> (rules: Result<
    RuleMap,
    Error,
>)
    requires
        numbers.constants.is_valid(),
    ensures
        rules matches Ok(rules) && model_of(rules@) == probed_chains(
            *numbers,
            config.linux_user_namespaces,
        ),
{
    let mut rules: RuleMap = BTreeMap::new();
    assert(model_of(rules@) =~= Map::empty());
    add_whole_syscall_rules(&mut rules, numbers, &numbers.probed_kernel_syscalls());
    if config.linux_user_namespaces == UserNamespacePolicy::Deny {
        let newuser = match clone_newuser_rule(numbers) {
            Ok(rule) => rule,
            Err(error) => {
                return Err(error);
            },
        };
        add_syscall_rule(&mut rules, numbers, numbers.other.unshare, newuser.clone());
        add_syscall_rule(&mut rules, numbers, numbers.other.clone, newuser);
        add_whole_syscall_rule(&mut rules, numbers, numbers.other.setns);
    }
    Ok(rules)
}

/// Rules for whole system calls whose operations the other filters cannot see.
pub fn enosys_rules(config: &SandboxConfig, numbers: &KernelNumbers) -> (rules: RuleMap)
    ensures
        model_of(rules@) == enosys_chains(*numbers, config.network, config.linux_user_namespaces),
{
    let mut rules: RuleMap = BTreeMap::new();
    assert(model_of(rules@) =~= Map::empty());
    if config.network != NetworkPolicy::Full {
        add_whole_syscall_rules(&mut rules, numbers, &numbers.io_uring_syscalls());
    }
    if config.linux_user_namespaces == UserNamespacePolicy::Deny {
        add_whole_syscall_rule(&mut rules, numbers, numbers.other.clone3);
    }
    rules
}

/// A rule matching a socket domain that is none of `allowed_families`.
fn socket_domain_allowlist_rule(allowed_families: &Vec<i32>) -> (rule: Result<SeccompRule, Error>)
    requires
        allowed_families@.len() > 0,
        forall|i: int| 0 <= i < allowed_families@.len() ==> #[trigger] allowed_families@[i] >= 0,
    ensures
        rule matches Ok(rule) && conditions_of(rule) == other_family(allowed_families@),
{
    let mut conditions: Vec<SeccompCondition> = Vec::new();
    let mut i: usize = 0;
    while i < allowed_families.len()
        invariant
            i <= allowed_families@.len(),
            conditions@.len() == i,
            forall|k: int|
                0 <= k < allowed_families@.len() ==> #[trigger] allowed_families@[k] >= 0,
            forall|k: int|
                0 <= k < i ==> condition_of(#[trigger] conditions@[k]) == other_family(
                    allowed_families@,
                )[k],
        decreases allowed_families.len() - i,
    {
        match differs(0, allowed_families[i] as u64) {
            Ok(condition) => {
                conditions.push(condition);
            },
            Err(error) => {
                return Err(seccomp_error(error));
            },
        }
        i += 1;
    }
    match new_rule(conditions) {
        Ok(rule) => {
            assert(conditions_of(rule) =~= other_family(allowed_families@));
            Ok(rule)
        },
        Err(error) => Err(seccomp_error(error)),
    }
}

/// Rules for creating sockets of families that the network policy does not leave
/// open.
pub fn network_rules(network: NetworkPolicy, numbers: &KernelNumbers) -> (rules: Result<
    RuleMap,
    Error,
>)
    requires
        numbers.constants.is_valid(),
    ensures
        rules matches Ok(rules) && model_of(rules@) == network_chains(*numbers, network),
{
    let mut rules: RuleMap = BTreeMap::new();
    assert(model_of(rules@) =~= Map::empty());
    let mut families: Vec<i32> = Vec::new();
    match network {
        NetworkPolicy::Deny => {
            families.push(numbers.constants.af_unix);
        },
        NetworkPolicy::OutboundOnly => {
            families.push(numbers.constants.af_unix);
            families.push(numbers.constants.af_inet);
            families.push(numbers.constants.af_inet6);
        },
        NetworkPolicy::Full => {
            return Ok(rules);
        },
    }
    assert(open_families(*numbers, network) is Some);
    assert(families@ =~= open_families(*numbers, network)->0);
    match socket_domain_allowlist_rule(&families) {
        Ok(rule) => {
            add_syscall_rule(&mut rules, numbers, numbers.other.socket, rule);
            Ok(rules)
        },
        Err(error) => Err(error),
    }
}

/// A filter that lets everything through but what `chains` matches.
pub open spec fn denying(
    chains: Map<i64, Seq<Seq<Condition>>>,
    action: FilterAction,
    arch: Arch,
) -> FilterModel {
    FilterModel { rules: chains, mismatch: FilterAction::Allow, matched: action, arch }
}

/// Compiles `rules` into a program mapping matches to `action`; everything else
/// stays allowed.
pub fn compile(rules: RuleMap, action: FilterAction, arch: Arch) -> (program: Result<
    Vec<BpfInstruction>,
    Error,
>)
    requires
        forall|number: i64| #[trigger]
            rules@.contains_key(number) ==> 0 <= number <= u32::MAX,
    ensures
        match program {
            Ok(program) => action != FilterAction::Allow && program_of(
                denying(model_of(rules@), action, arch),
            ) == Some(program@),
            Err(error) => if action == FilterAction::Allow {
                is_filter_error(error, FilterErrorView::IdenticalActions)
            } else {
                is_too_large(denying(model_of(rules@), action, arch), error)
            },
        },
{
    let ghost chains = rules@;
    match new_filter(rules, FilterAction::Allow, action, arch) {
        Ok(filter) => {
            assert forall|number: i64| #[trigger]
                filter_of(filter).rules.contains_key(number) implies 0 <= number <= u32::MAX by {
                assert(chains.contains_key(number));
            }
            match compile_filter(filter) {
                Ok(program) => Ok(program),
                Err(error) => {
                    let ghost cause = error_of(error);
                    let own = seccomp_error(error);
                    assert(is_filter_error(own, cause));
                    Err(own)
                },
            }
        },
        Err(error) => Err(seccomp_error(error)),
    }
}

/// Whether `error` reports that the program of `filter` is too large.
pub open spec fn is_too_large(filter: FilterModel, error: Error) -> bool {
    program_of(filter) is None && exists|len: usize|
        len >= 4096 && #[trigger] is_filter_error(error, FilterErrorView::FilterTooLarge(len))
}

/// Whether every number with a chain can stand in a filter.
pub open spec fn numbers_fit(chains: Map<i64, Seq<Seq<Condition>>>) -> bool {
    forall|n: i64| #[trigger] chains.contains_key(n) ==> is_syscall_number(n)
}

proof fn lemma_numbers_fit(numbers: KernelNumbers, syscall: i64)
    requires
        is_syscall_number(syscall),
    ensures
        forall|i: int|
            0 <= i < numbers_of(numbers, syscall).len() ==> is_syscall_number(
                #[trigger] numbers_of(numbers, syscall)[i],
            ),
{
    assert(0 <= (syscall | 0x4000_0000i64) < 0x8000_0000i64) by (bit_vector)
        requires
            0 <= syscall < 0x8000_0000i64,
    ;
    assert(0 <= (528i64 | 0x4000_0000i64) < 0x8000_0000i64) by (bit_vector);
}

proof fn lemma_deny_each_fits(chains: Map<i64, Seq<Seq<Condition>>>, list: Seq<i64>)
    requires
        numbers_fit(chains),
        forall|i: int| 0 <= i < list.len() ==> is_syscall_number(#[trigger] list[i]),
    ensures
        numbers_fit(deny_each(chains, list)),
    decreases list.len(),
{
    if list.len() > 0 {
        assert forall|i: int| 0 <= i < list.drop_last().len() implies is_syscall_number(
            #[trigger] list.drop_last()[i],
        ) by {
            assert(list.drop_last()[i] == list[i]);
        }
        assert(is_syscall_number(list[list.len() - 1]));
        lemma_deny_each_fits(chains, list.drop_last());
    }
}

proof fn lemma_match_each_fits(
    chains: Map<i64, Seq<Seq<Condition>>>,
    list: Seq<i64>,
    rule: Seq<Condition>,
)
    requires
        numbers_fit(chains),
        forall|i: int| 0 <= i < list.len() ==> is_syscall_number(#[trigger] list[i]),
    ensures
        numbers_fit(match_each(chains, list, rule)),
    decreases list.len(),
{
    if list.len() > 0 {
        assert forall|i: int| 0 <= i < list.drop_last().len() implies is_syscall_number(
            #[trigger] list.drop_last()[i],
        ) by {
            assert(list.drop_last()[i] == list[i]);
        }
        assert(is_syscall_number(list[list.len() - 1]));
        lemma_match_each_fits(chains, list.drop_last(), rule);
    }
}

proof fn lemma_deny_syscalls_fits(
    numbers: KernelNumbers,
    chains: Map<i64, Seq<Seq<Condition>>>,
    syscalls: Seq<i64>,
)
    requires
        numbers_fit(chains),
        forall|i: int| 0 <= i < syscalls.len() ==> is_syscall_number(#[trigger] syscalls[i]),
    ensures
        numbers_fit(deny_syscalls(numbers, chains, syscalls)),
    decreases syscalls.len(),
{
    if syscalls.len() > 0 {
        assert forall|i: int| 0 <= i < syscalls.drop_last().len() implies is_syscall_number(
            #[trigger] syscalls.drop_last()[i],
        ) by {
            assert(syscalls.drop_last()[i] == syscalls[i]);
        }
        assert(is_syscall_number(syscalls[syscalls.len() - 1]));
        lemma_deny_syscalls_fits(numbers, chains, syscalls.drop_last());
        lemma_numbers_fit(numbers, syscalls.last());
        lemma_deny_each_fits(
            deny_syscalls(numbers, chains, syscalls.drop_last()),
            numbers_of(numbers, syscalls.last()),
        );
    }
}

proof fn lemma_filters_fit(
    numbers: KernelNumbers,
    network: NetworkPolicy,
    policy: UserNamespacePolicy,
)
    requires
        numbers.is_valid(),
    ensures
        numbers_fit(violation_chains(numbers, policy)),
        numbers_fit(probed_chains(numbers, policy)),
        numbers_fit(enosys_chains(numbers, network, policy)),
        numbers_fit(network_chains(numbers, network)),
{
    let none = Map::<i64, Seq<Seq<Condition>>>::empty();
    let surface = deny_syscalls(numbers, none, numbers.kernel_surface());
    lemma_deny_syscalls_fits(numbers, none, numbers.kernel_surface());
    lemma_deny_syscalls_fits(numbers, surface, numbers.mount_machinery());
    let newuser = newuser_conditions(numbers);
    let probed = deny_syscalls(numbers, none, numbers.probed_kernel());
    let unshare = numbers_of(numbers, numbers.other.unshare);
    let clone = numbers_of(numbers, numbers.other.clone);
    lemma_deny_syscalls_fits(numbers, none, numbers.probed_kernel());
    lemma_numbers_fit(numbers, numbers.other.unshare);
    lemma_match_each_fits(probed, unshare, newuser);
    lemma_numbers_fit(numbers, numbers.other.clone);
    lemma_match_each_fits(match_each(probed, unshare, newuser), clone, newuser);
    lemma_numbers_fit(numbers, numbers.other.setns);
    lemma_deny_each_fits(
        match_each(match_each(probed, unshare, newuser), clone, newuser),
        numbers_of(numbers, numbers.other.setns),
    );
    lemma_deny_syscalls_fits(numbers, none, numbers.io_uring());
    lemma_numbers_fit(numbers, numbers.other.clone3);
    let rings = if network == NetworkPolicy::Full {
        none
    } else {
        deny_syscalls(numbers, none, numbers.io_uring())
    };
    lemma_deny_each_fits(rings, numbers_of(numbers, numbers.other.clone3));
    lemma_numbers_fit(numbers, numbers.other.socket);
    if open_families(numbers, network) is Some {
        lemma_match_each_fits(
            none,
            numbers_of(numbers, numbers.other.socket),
            other_family(open_families(numbers, network)->0),
        );
    }
}

/// A number of `list` has a chain once each of `list` was denied, and what had a
/// chain before keeps it.
proof fn lemma_deny_each_keys(chains: Map<i64, Seq<Seq<Condition>>>, list: Seq<i64>, n: i64)
    ensures
        deny_each(chains, list).contains_key(n) <==> chains.contains_key(n) || list.contains(n),
        chains.contains_key(n) ==> deny_each(chains, list)[n] == chains[n],
        !chains.contains_key(n) && list.contains(n) ==> deny_each(chains, list)[n] == Seq::<
            Seq<Condition>,
        >::empty(),
    decreases list.len(),
{
    if list.len() > 0 {
        let shorter = list.drop_last();
        lemma_deny_each_keys(chains, shorter, n);
        assert(list.contains(n) <==> shorter.contains(n) || n == list.last()) by {
            if list.contains(n) {
                let i = choose|i: int| 0 <= i < list.len() && list[i] == n;
                if i < shorter.len() {
                    assert(shorter[i] == n);
                }
            }
            if shorter.contains(n) {
                let i = choose|i: int| 0 <= i < shorter.len() && shorter[i] == n;
                assert(list[i] == n);
            }
            assert(list[list.len() - 1] == list.last());
        }
    }
}

proof fn lemma_match_each_keys(
    chains: Map<i64, Seq<Seq<Condition>>>,
    list: Seq<i64>,
    rule: Seq<Condition>,
    n: i64,
)
    ensures
        match_each(chains, list, rule).contains_key(n) <==> chains.contains_key(n)
            || list.contains(n),
        list.contains(n) ==> match_each(chains, list, rule)[n].contains(rule),
    decreases list.len(),
{
    if list.len() > 0 {
        let shorter = list.drop_last();
        lemma_match_each_keys(chains, shorter, rule, n);
        let before = match_each(chains, shorter, rule);
        let after = match_each(chains, list, rule);
        assert(list.contains(n) <==> shorter.contains(n) || n == list.last()) by {
            if list.contains(n) {
                let i = choose|i: int| 0 <= i < list.len() && list[i] == n;
                if i < shorter.len() {
                    assert(shorter[i] == n);
                }
            }
            if shorter.contains(n) {
                let i = choose|i: int| 0 <= i < shorter.len() && shorter[i] == n;
                assert(list[i] == n);
            }
            assert(list[list.len() - 1] == list.last());
        }
        if n == list.last() {
            assert(after[n][after[n].len() - 1] == rule);
        }
    }
}

/// Whether `n` is a number of one of the system calls.
pub open spec fn is_number_of(numbers: KernelNumbers, syscalls: Seq<i64>, n: i64) -> bool {
    exists|i: int|
        0 <= i < syscalls.len() && numbers_of(numbers, #[trigger] syscalls[i]).contains(n)
}

proof fn lemma_deny_syscalls_keys(
    numbers: KernelNumbers,
    chains: Map<i64, Seq<Seq<Condition>>>,
    syscalls: Seq<i64>,
    n: i64,
)
    ensures
        deny_syscalls(numbers, chains, syscalls).contains_key(n) <==> chains.contains_key(n)
            || is_number_of(numbers, syscalls, n),
        chains.contains_key(n) ==> deny_syscalls(numbers, chains, syscalls)[n] == chains[n],
        !chains.contains_key(n) && is_number_of(numbers, syscalls, n) ==> deny_syscalls(
            numbers,
            chains,
            syscalls,
        )[n] == Seq::<Seq<Condition>>::empty(),
    decreases syscalls.len(),
{
    if syscalls.len() > 0 {
        let shorter = syscalls.drop_last();
        let last = numbers_of(numbers, syscalls.last());
        lemma_deny_syscalls_keys(numbers, chains, shorter, n);
        lemma_deny_each_keys(deny_syscalls(numbers, chains, shorter), last, n);
        assert(is_number_of(numbers, syscalls, n) <==> is_number_of(numbers, shorter, n)
            || last.contains(n)) by {
            if is_number_of(numbers, syscalls, n) {
                let i = choose|i: int|
                    0 <= i < syscalls.len() && numbers_of(numbers, #[trigger] syscalls[i]).contains(
                        n,
                    );
                if i < shorter.len() {
                    assert(shorter[i] == syscalls[i]);
                }
            }
            if is_number_of(numbers, shorter, n) {
                let i = choose|i: int|
                    0 <= i < shorter.len() && numbers_of(numbers, #[trigger] shorter[i]).contains(
                        n,
                    );
                assert(syscalls[i] == shorter[i]);
            }
            assert(syscalls[syscalls.len() - 1] == syscalls.last());
        }
    }
}

/// Code loading, the keyring and host state are denied under every policy, with
/// any arguments, and the mount machinery exactly where user namespaces are.
pub proof fn law_kernel_surface_is_always_denied(
    numbers: KernelNumbers,
    policy: UserNamespacePolicy,
    n: i64,
)
    ensures
        violation_chains(numbers, policy).contains_key(n) <==> is_number_of(
            numbers,
            numbers.kernel_surface(),
            n,
        ) || (policy == UserNamespacePolicy::Deny && is_number_of(
            numbers,
            numbers.mount_machinery(),
            n,
        )),
        violation_chains(numbers, policy).contains_key(n) ==> violation_chains(numbers, policy)[n]
            == Seq::<Seq<Condition>>::empty(),
{
    let none = Map::<i64, Seq<Seq<Condition>>>::empty();
    let surface = deny_syscalls(numbers, none, numbers.kernel_surface());
    lemma_deny_syscalls_keys(numbers, none, numbers.kernel_surface(), n);
    lemma_deny_syscalls_keys(numbers, surface, numbers.mount_machinery(), n);
}

/// io_uring is denied exactly unless the network is open, and `clone3` exactly
/// where user namespaces are; both with any arguments.
pub proof fn law_rings_follow_the_network_policy(
    numbers: KernelNumbers,
    network: NetworkPolicy,
    policy: UserNamespacePolicy,
    n: i64,
)
    ensures
        enosys_chains(numbers, network, policy).contains_key(n) <==> (network
            != NetworkPolicy::Full && is_number_of(numbers, numbers.io_uring(), n)) || (policy
            == UserNamespacePolicy::Deny && numbers_of(numbers, numbers.other.clone3).contains(n)),
        enosys_chains(numbers, network, policy).contains_key(n) ==> enosys_chains(
            numbers,
            network,
            policy,
        )[n] == Seq::<Seq<Condition>>::empty(),
{
    let none = Map::<i64, Seq<Seq<Condition>>>::empty();
    lemma_deny_syscalls_keys(numbers, none, numbers.io_uring(), n);
    let rings = if network == NetworkPolicy::Full {
        none
    } else {
        deny_syscalls(numbers, none, numbers.io_uring())
    };
    lemma_deny_each_keys(rings, numbers_of(numbers, numbers.other.clone3), n);
}

/// Whether a chain matches exactly where `rule` does: it holds the rule and no other.
pub open spec fn is_only(chain: Seq<Seq<Condition>>, rule: Seq<Condition>) -> bool {
    chain.len() > 0 && forall|i: int| 0 <= i < chain.len() ==> #[trigger] chain[i] == rule
}

proof fn lemma_match_each_chain(
    chains: Map<i64, Seq<Seq<Condition>>>,
    list: Seq<i64>,
    rule: Seq<Condition>,
    n: i64,
)
    ensures
        !list.contains(n) && chains.contains_key(n) ==> match_each(chains, list, rule)[n]
            == chains[n],
        list.contains(n) && (chains.contains_key(n) ==> is_only(chains[n], rule)) ==> is_only(
            match_each(chains, list, rule)[n],
            rule,
        ),
        list.contains(n) && list.no_duplicates() && !chains.contains_key(n) ==> match_each(
            chains,
            list,
            rule,
        )[n] == seq![rule],
    decreases list.len(),
{
    if list.len() > 0 {
        let shorter = list.drop_last();
        lemma_match_each_chain(chains, shorter, rule, n);
        lemma_match_each_keys(chains, shorter, rule, n);
        assert(shorter.contains(n) ==> list.contains(n)) by {
            if shorter.contains(n) {
                let i = choose|i: int| 0 <= i < shorter.len() && shorter[i] == n;
                assert(list[i] == n);
            }
        }
        if list.contains(n) && n != list.last() {
            let i = choose|i: int| 0 <= i < list.len() && list[i] == n;
            assert(shorter[i] == n);
        }
        if list.no_duplicates() && n == list.last() && shorter.contains(n) {
            let i = choose|i: int| 0 <= i < shorter.len() && shorter[i] == n;
            assert(list[i] == list[list.len() - 1]);
        }
        assert(list.no_duplicates() ==> shorter.no_duplicates());
        assert(list[list.len() - 1] == list.last());
    }
}

/// The numbers of a system call are its own number but for the x32 bit.
pub(crate) proof fn lemma_numbers_are_plain(numbers: KernelNumbers, syscall: i64, n: i64)
    requires
        is_syscall_number(syscall),
        syscall != numbers.other.kexec_load,
        numbers_of(numbers, syscall).contains(n),
    ensures
        plain_number(n) == plain_number(syscall),
{
    let list = numbers_of(numbers, syscall);
    let i = choose|i: int| 0 <= i < list.len() && list[i] == n;
    let bits = syscall as u64;
    assert((bits | 0x4000_0000u64) % 0x4000_0000u64 == bits % 0x4000_0000u64) by (bit_vector);
    assert((syscall | 0x4000_0000i64) as u64 == (syscall as u64) | 0x4000_0000u64) by (bit_vector)
        requires
            0 <= syscall < 0x8000_0000i64,
    ;
    assert(0 <= (syscall | 0x4000_0000i64)) by (bit_vector)
        requires
            0 <= syscall < 0x8000_0000i64,
    ;
}

/// A system call has two different numbers where it has two, unless its own number
/// carries the x32 bit.
proof fn lemma_twins_differ(numbers: KernelNumbers, syscall: i64)
    requires
        0 <= syscall < X32_SYSCALL_BIT,
        syscall != numbers.other.kexec_load,
    ensures
        numbers_of(numbers, syscall).no_duplicates(),
{
    assert((syscall | 0x4000_0000i64) >= 0x4000_0000i64) by (bit_vector)
        requires
            0 <= syscall < 0x4000_0000i64,
    ;
}

/// Only socket creation is restricted, exactly unless the network is open, and there
/// exactly for the families that the policy does not leave open. Unix sockets are
/// always left open. Binding and listening are not denied by the filters.
pub proof fn law_socket_families_follow_the_network_policy(
    numbers: KernelNumbers,
    network: NetworkPolicy,
    n: i64,
)
    ensures
        network_chains(numbers, network).contains_key(n) <==> network != NetworkPolicy::Full
            && numbers_of(numbers, numbers.other.socket).contains(n),
        network_chains(numbers, network).contains_key(n) ==> is_only(
            network_chains(numbers, network)[n],
            other_family(open_families(numbers, network)->0),
        ),
        open_families(numbers, network) is Some <==> network != NetworkPolicy::Full,
        open_families(numbers, network) matches Some(families) ==> families.contains(
            numbers.constants.af_unix,
        ),
{
    let none = Map::<i64, Seq<Seq<Condition>>>::empty();
    if open_families(numbers, network) is Some {
        let families = open_families(numbers, network)->0;
        assert(families[0] == numbers.constants.af_unix);
        let socket = numbers_of(numbers, numbers.other.socket);
        lemma_match_each_keys(none, socket, other_family(families), n);
        lemma_match_each_chain(none, socket, other_family(families), n);
    }
}

/// Creating and joining namespaces is denied exactly where user namespaces are; the
/// probed interfaces are denied under every policy.
pub proof fn law_namespaces_follow_the_policy(
    numbers: KernelNumbers,
    policy: UserNamespacePolicy,
    n: i64,
)
    ensures
        probed_chains(numbers, policy).contains_key(n) <==> is_number_of(
            numbers,
            numbers.probed_kernel(),
            n,
        ) || (policy == UserNamespacePolicy::Deny && (numbers_of(
            numbers,
            numbers.other.unshare,
        ).contains(n) || numbers_of(numbers, numbers.other.clone).contains(n) || numbers_of(
            numbers,
            numbers.other.setns,
        ).contains(n))),
{
    let none = Map::<i64, Seq<Seq<Condition>>>::empty();
    let newuser = newuser_conditions(numbers);
    let probed = deny_syscalls(numbers, none, numbers.probed_kernel());
    let unshare = numbers_of(numbers, numbers.other.unshare);
    let clone = numbers_of(numbers, numbers.other.clone);
    lemma_deny_syscalls_keys(numbers, none, numbers.probed_kernel(), n);
    lemma_match_each_keys(probed, unshare, newuser, n);
    lemma_match_each_keys(match_each(probed, unshare, newuser), clone, newuser, n);
    lemma_deny_each_keys(
        match_each(match_each(probed, unshare, newuser), clone, newuser),
        numbers_of(numbers, numbers.other.setns),
        n,
    );
}

/// Whether `n` is a number of `unshare` or of `clone`.
pub open spec fn takes_flags(numbers: KernelNumbers, n: i64) -> bool {
    numbers_of(numbers, numbers.other.unshare).contains(n) || numbers_of(
        numbers,
        numbers.other.clone,
    ).contains(n)
}

/// Where the numbers of the system calls differ, the probed interfaces and `setns`
/// are denied with any arguments, and `unshare` and `clone` exactly where their flags
/// ask for a user namespace. Their chains hold that rule once, unless the numbers
/// carry the x32 bit by themselves.
pub proof fn law_namespace_flags_decide(
    numbers: KernelNumbers,
    policy: UserNamespacePolicy,
    n: i64,
)
    requires
        numbers.other.is_valid(),
        all_differ(numbers.other.all()),
        probed_chains(numbers, policy).contains_key(n),
    ensures
        ({
            let chain = probed_chains(numbers, policy)[n];
            let newuser = newuser_conditions(numbers);
            &&& !(policy == UserNamespacePolicy::Deny && takes_flags(numbers, n)) ==> chain
                == Seq::<Seq<Condition>>::empty()
            &&& policy == UserNamespacePolicy::Deny && takes_flags(numbers, n) ==> is_only(
                chain,
                newuser,
            )
            &&& policy == UserNamespacePolicy::Deny && takes_flags(numbers, n)
                && numbers.other.unshare < X32_SYSCALL_BIT && numbers.other.clone
                < X32_SYSCALL_BIT ==> chain == seq![newuser]
        }),
{
    let none = Map::<i64, Seq<Seq<Condition>>>::empty();
    let newuser = newuser_conditions(numbers);
    let other = numbers.other;
    let all = other.all();
    let probed = deny_syscalls(numbers, none, numbers.probed_kernel());
    let unshare = numbers_of(numbers, other.unshare);
    let clone = numbers_of(numbers, other.clone);
    let setns = numbers_of(numbers, other.setns);
    let first = match_each(probed, unshare, newuser);
    let second = match_each(first, clone, newuser);
    law_namespaces_follow_the_policy(numbers, policy, n);
    lemma_deny_syscalls_keys(numbers, none, numbers.probed_kernel(), n);
    lemma_match_each_keys(probed, unshare, newuser, n);
    lemma_match_each_chain(probed, unshare, newuser, n);
    lemma_match_each_keys(first, clone, newuser, n);
    lemma_match_each_chain(first, clone, newuser, n);
    lemma_deny_each_keys(second, setns, n);
    // Numbers of two of the system calls are never the same.
    assert(all[0] == other.kexec_load && all[1] == other.bpf && all[2] == other.perf_event_open
        && all[3] == other.userfaultfd && all[7] == other.unshare && all[8] == other.clone
        && all[9] == other.setns);
    if unshare.contains(n) {
        lemma_numbers_are_plain(numbers, other.unshare, n);
    }
    if clone.contains(n) {
        lemma_numbers_are_plain(numbers, other.clone, n);
    }
    if setns.contains(n) {
        lemma_numbers_are_plain(numbers, other.setns, n);
    }
    if is_number_of(numbers, numbers.probed_kernel(), n) {
        let listed = numbers.probed_kernel();
        let i = choose|i: int|
            0 <= i < listed.len() && numbers_of(numbers, #[trigger] listed[i]).contains(n);
        assert(listed[i] == all[i + 1]);
        lemma_numbers_are_plain(numbers, listed[i], n);
    }
    if other.unshare < X32_SYSCALL_BIT {
        lemma_twins_differ(numbers, other.unshare);
    }
    if other.clone < X32_SYSCALL_BIT {
        lemma_twins_differ(numbers, other.clone);
    }
}

/// On x86-64 every denied system call is denied under its x32 number too.
pub proof fn law_x32_twins_are_covered(numbers: KernelNumbers, syscall: i64)
    requires
        numbers.arch == Arch::X86_64,
        syscall != numbers.other.kexec_load,
    ensures
        numbers_of(numbers, syscall).contains(syscall),
        numbers_of(numbers, syscall).contains(syscall | X32_SYSCALL_BIT),
        numbers_of(numbers, numbers.other.kexec_load).contains(
            X32_SYS_KEXEC_LOAD | X32_SYSCALL_BIT,
        ),
{
    let list = numbers_of(numbers, syscall);
    assert(list[0] == syscall);
    assert(list[1] == syscall | X32_SYSCALL_BIT);
    assert(numbers_of(numbers, numbers.other.kexec_load)[1] == X32_SYS_KEXEC_LOAD
        | X32_SYSCALL_BIT);
}

/// The filters of a configuration, in the order in which they are installed.
pub open spec fn filters_for(
    numbers: KernelNumbers,
    network: NetworkPolicy,
    policy: UserNamespacePolicy,
) -> Seq<FilterModel> {
    let arch = numbers.arch;
    let constants = numbers.constants;
    seq![denying(violation_chains(numbers, policy), FilterAction::Trap, arch)] + (if network
        == NetworkPolicy::Full {
        seq![]
    } else {
        seq![
            denying(
                network_chains(numbers, network),
                FilterAction::Errno(constants.eafnosupport as u32),
                arch,
            ),
        ]
    }) + seq![
        denying(
            probed_chains(numbers, policy),
            FilterAction::Errno(constants.eperm as u32),
            arch,
        ),
    ] + (if network == NetworkPolicy::Full && policy == UserNamespacePolicy::Allow {
        seq![]
    } else {
        seq![
            denying(
                enosys_chains(numbers, network, policy),
                FilterAction::Errno(constants.enosys as u32),
                arch,
            ),
        ]
    })
}

/// Whether `programs` is what the filters compile to, or `error` reports the
/// first that is too large.
pub open spec fn is_compiled(
    filters: Seq<FilterModel>,
    programs: Result<Vec<Vec<BpfInstruction>>, Error>,
) -> bool {
    match programs {
        Ok(programs) => programs@.len() == filters.len() && forall|i: int|
            0 <= i < filters.len() ==> program_of(#[trigger] filters[i]) == Some(programs@[i]@),
        Err(error) => exists|i: int|
            0 <= i < filters.len() && is_too_large(#[trigger] filters[i], error) && forall|j: int|
                0 <= j < i ==> program_of(#[trigger] filters[j]) is Some,
    }
}

/// Compiles one more filter.
fn add_program(
    programs: &mut Vec<Vec<BpfInstruction>>,
    rules: RuleMap,
    action: FilterAction,
    arch: Arch,
) -> (result: Result<(), Error>)
    requires
        action != FilterAction::Allow,
        numbers_fit(model_of(rules@)),
    ensures
        match result {
            Ok(_) => {
                let filter = denying(model_of(rules@), action, arch);
                &&& program_of(filter) is Some
                &&& final(programs)@.len() == old(programs)@.len() + 1
                &&& final(programs)@.drop_last() == old(programs)@
                &&& final(programs)@.last()@ == program_of(filter)->0
            },
            Err(error) => is_too_large(denying(model_of(rules@), action, arch), error),
        },
{
    assert forall|number: i64| #[trigger] rules@.contains_key(number) implies 0 <= number
        <= u32::MAX by {
        assert(model_of(rules@).contains_key(number));
    }
    match compile(rules, action, arch) {
        Ok(program) => {
            programs.push(program);
            assert(programs@.drop_last() =~= old(programs)@);
            Ok(())
        },
        Err(error) => Err(error),
    }
}

/// Builds the seccomp filters for `config` from the kernel's numbers.
pub fn build_with(config: &SandboxConfig, numbers: &KernelNumbers) -> (programs: Result<
    Vec<Vec<BpfInstruction>>,
    Error,
>)
    requires
        numbers.is_valid(),
    ensures
        is_compiled(
            filters_for(*numbers, config.network, config.linux_user_namespaces),
            programs,
        ),
{
    let ghost filters = filters_for(*numbers, config.network, config.linux_user_namespaces);
    proof {
        lemma_filters_fit(*numbers, config.network, config.linux_user_namespaces);
    }
    let mut programs: Vec<Vec<BpfInstruction>> = Vec::new();
    let constants = numbers.constants;
    let violations = violation_rules(config, numbers);
    match add_program(&mut programs, violations, FilterAction::Trap, numbers.arch) {
        Ok(_) => {},
        Err(error) => {
            assert(is_too_large(filters[0], error));
            return Err(error);
        },
    }
    assert(program_of(filters[0]) == Some(programs@[0]@));
    if config.network != NetworkPolicy::Full {
        let network = match network_rules(config.network, numbers) {
            Ok(rules) => rules,
            Err(error) => {
                return Err(error);
            },
        };
        let action = FilterAction::Errno(constants.eafnosupport as u32);
        let ghost before = programs@;
        match add_program(&mut programs, network, action, numbers.arch) {
            Ok(_) => {},
            Err(error) => {
                assert(is_too_large(filters[1], error));
                return Err(error);
            },
        }
        assert(programs@[0] == before[0]);
        assert(program_of(filters[1]) == Some(programs@[1]@));
    }
    let ghost n = programs@.len() as int;
    assert(forall|i: int| 0 <= i < n ==> program_of(#[trigger] filters[i]) == Some(programs@[i]@));
    let probed = match probed_kernel_rules(config, numbers) {
        Ok(rules) => rules,
        Err(error) => {
            return Err(error);
        },
    };
    let ghost before = programs@;
    match add_program(
        &mut programs,
        probed,
        FilterAction::Errno(constants.eperm as u32),
        numbers.arch,
    ) {
        Ok(_) => {},
        Err(error) => {
            assert(is_too_large(filters[n], error));
            return Err(error);
        },
    }
    assert forall|i: int| 0 <= i < n + 1 implies program_of(#[trigger] filters[i]) == Some(
        programs@[i]@,
    ) by {
        if i < n {
            assert(programs@.drop_last()[i] == before[i]);
        }
    }
    if config.network != NetworkPolicy::Full || config.linux_user_namespaces
        == UserNamespacePolicy::Deny {
        let enosys = enosys_rules(config, numbers);
        let ghost earlier = programs@;
        match add_program(
            &mut programs,
            enosys,
            FilterAction::Errno(constants.enosys as u32),
            numbers.arch,
        ) {
            Ok(_) => {},
            Err(error) => {
                assert(is_too_large(filters[n + 1], error));
                return Err(error);
            },
        }
        assert forall|i: int| 0 <= i < n + 2 implies program_of(#[trigger] filters[i]) == Some(
            programs@[i]@,
        ) by {
            if i < n + 1 {
                assert(programs@.drop_last()[i] == earlier[i]);
            }
        }
    }
    Ok(programs)
}

/// Whether `programs` are the filters of a policy on the architecture named `arch`,
/// or the failure to build them.
pub open spec fn is_built(
    network: NetworkPolicy,
    user_namespaces: UserNamespacePolicy,
    arch: Seq<char>,
    programs: Result<Vec<Vec<BpfInstruction>>, Error>,
) -> bool {
    match arch_named(arch) {
        Some(arch) => exists|numbers: KernelNumbers|
            numbers.is_valid() && numbers.is_linux() && numbers.arch == arch && is_compiled(
                #[trigger] filters_for(numbers, network, user_namespaces),
                programs,
            ),
        None => programs matches Err(error) && is_filter_error(
            error,
            FilterErrorView::InvalidTargetArch(arch),
        ),
    }
}

/// Builds the seccomp filters for `config` on the machine that the library is
/// compiled for. `arch` is the name of its architecture.
///
/// Of the numbers that the kernel has there, only what holds on every machine is
/// said; whatever they are, the filters are those of [`build_with`] for them.
pub fn build(config: &SandboxConfig, arch: &str) -> (programs: Result<
    Vec<Vec<BpfInstruction>>,
    Error,
>)
    ensures
        is_built(config.network, config.linux_user_namespaces, arch@, programs),
        arch@ == "x86_64"@ ==> arch_named(arch@) == Some(Arch::X86_64),
        arch@ == "aarch64"@ ==> arch_named(arch@) == Some(Arch::Aarch64),
        arch@ == "riscv64"@ ==> arch_named(arch@) == Some(Arch::Riscv64),
{
    proof {
        law_architectures_are_known_by_name();
    }
    match parse_arch(arch) {
        Ok(arch) => {
            let numbers = KernelNumbers::native(arch);
            build_with(config, &numbers)
        },
        Err(error) => Err(seccomp_error(error)),
    }
}

/// Under every configuration there are the filters for the kernel attack surface
/// and for the probed interfaces; the other two are left out exactly where they
/// would deny nothing.
pub proof fn law_unconditional_filters_are_installed(
    numbers: KernelNumbers,
    network: NetworkPolicy,
    policy: UserNamespacePolicy,
)
    ensures
        ({
            let filters = filters_for(numbers, network, policy);
            let open = network == NetworkPolicy::Full;
            let n = if open {
                1int
            } else {
                2
            };
            &&& filters.len() == n + 1 + (if open && policy == UserNamespacePolicy::Allow {
                0int
            } else {
                1
            })
            &&& filters[0] == denying(
                violation_chains(numbers, policy),
                FilterAction::Trap,
                numbers.arch,
            )
            &&& filters[n] == denying(
                probed_chains(numbers, policy),
                FilterAction::Errno(numbers.constants.eperm as u32),
                numbers.arch,
            )
            &&& network_chains(numbers, network).is_empty() <==> open
            &&& enosys_chains(numbers, network, policy).is_empty() <==> open && policy
                == UserNamespacePolicy::Allow
        }),
{
    let socket = numbers_of(numbers, numbers.other.socket)[0];
    assert(numbers_of(numbers, numbers.other.socket).contains(socket));
    law_socket_families_follow_the_network_policy(numbers, network, socket);
    if network == NetworkPolicy::Full {
        assert(network_chains(numbers, network) =~= Map::empty());
    } else {
        assert(network_chains(numbers, network).dom().contains(socket));
    }
    let ring = numbers.io_uring()[0];
    assert(numbers_of(numbers, ring)[0] == ring);
    assert(numbers_of(numbers, ring).contains(ring));
    law_rings_follow_the_network_policy(numbers, network, policy, ring);
    let clone3 = numbers.other.clone3;
    assert(numbers_of(numbers, clone3)[0] == clone3);
    assert(numbers_of(numbers, clone3).contains(clone3));
    law_rings_follow_the_network_policy(numbers, network, policy, clone3);
    if network == NetworkPolicy::Full && policy == UserNamespacePolicy::Allow {
        assert(enosys_chains(numbers, network, policy) =~= Map::empty());
    } else if network == NetworkPolicy::Full {
        assert(enosys_chains(numbers, network, policy).dom().contains(clone3));
    } else {
        assert(enosys_chains(numbers, network, policy).dom().contains(ring));
    }
}

/// What each error of a filter says, word for word.
pub proof fn law_filter_errors_are_worded(error: FilterErrorView)
    ensures
        error is EmptyRule ==> filter_error_text(error)
            == "The condition vector of a rule cannot be empty."@,
        error matches FilterErrorView::FilterTooLarge(len) ==> filter_error_text(error)
            == "The seccomp filter contains too many BPF instructions: "@ + decimal(len as nat)
            + ". Max length is 4096."@,
        error is IdenticalActions ==> filter_error_text(error)
            == "`match_action` and `mismatch_action` are equal."@,
        error is InvalidArgumentNumber ==> filter_error_text(error)
            == "The seccomp rule contains an invalid argument index. Maximum index value: 5"@,
        error matches FilterErrorView::InvalidTargetArch(arch) ==> filter_error_text(error)
            == "Invalid target arch: "@ + arch + "."@,
{
}

} // verus!
