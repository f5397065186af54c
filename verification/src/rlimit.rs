//! Resource limits as `setrlimit(2)` caps.
//!
//! These are per-process caps inherited by descendants, not aggregate budgets
//! for the sandboxed tree.
use crate::config::ResourceLimits;
use vstd::prelude::*;

verus! {

/// A resource that `setrlimit(2)` can cap.
#[derive(Debug, Clone, Copy, PartialEq, Eq, Structural)]
pub enum LimitedResource {
    /// `RLIMIT_AS`: address space, in bytes.
    AddressSpace,
    /// `RLIMIT_CPU`: CPU time, in seconds.
    CpuTime,
    /// `RLIMIT_NPROC`: processes of the user.
    Processes,
}

/// One cap: the soft and the hard limit are both `value`.
#[derive(Debug, Clone, Copy, PartialEq, Eq, Structural)]
pub struct LimitSetting {
    /// What is capped.
    pub resource: LimitedResource,
    /// At which value.
    pub value: u64,
}

/// The cap for one limit, if it is imposed.
pub open spec fn setting_for(resource: LimitedResource, value: Option<u64>) -> Seq<LimitSetting> {
    match value {
        Some(value) => seq![LimitSetting { resource, value }],
        None => seq![],
    }
}

/// The caps for `limits`, in the order in which they are set.
pub open spec fn settings_for(limits: ResourceLimits) -> Seq<LimitSetting> {
    setting_for(LimitedResource::AddressSpace, limits.memory_bytes) + setting_for(
        LimitedResource::CpuTime,
        limits.cpu_time_secs,
    ) + setting_for(LimitedResource::Processes, limits.max_processes)
}

/// The caps for `limits`. Limits that are `None` are skipped.
pub fn limit_settings(limits: &ResourceLimits) -> (settings: Vec<LimitSetting>)
    ensures
        settings@ == settings_for(*limits),
{
    let mut settings: Vec<LimitSetting> = Vec::new();
    match limits.memory_bytes {
        Some(value) => {
            settings.push(LimitSetting { resource: LimitedResource::AddressSpace, value });
        },
        None => {},
    }
    match limits.cpu_time_secs {
        Some(value) => {
            settings.push(LimitSetting { resource: LimitedResource::CpuTime, value });
        },
        None => {},
    }
    match limits.max_processes {
        Some(value) => {
            settings.push(LimitSetting { resource: LimitedResource::Processes, value });
        },
        None => {},
    }
    assert(settings@ =~= settings_for(*limits));
    settings
}

/// Each resource is capped exactly where its limit is given, at the value that is
/// given, and at most once: the address space by the memory limit, the CPU time by
/// its limit and the processes by theirs.
pub proof fn law_each_limit_is_one_cap(limits: ResourceLimits, value: u64)
    ensures
        settings_for(limits).contains(
            LimitSetting { resource: LimitedResource::AddressSpace, value },
        ) <==> limits.memory_bytes == Some(value),
        settings_for(limits).contains(LimitSetting { resource: LimitedResource::CpuTime, value })
            <==> limits.cpu_time_secs == Some(value),
        settings_for(limits).contains(LimitSetting { resource: LimitedResource::Processes, value })
            <==> limits.max_processes == Some(value),
        forall|i: int, j: int|
            #![trigger settings_for(limits)[i], settings_for(limits)[j]]
            0 <= i < j < settings_for(limits).len() ==> settings_for(limits)[i].resource
                != settings_for(limits)[j].resource,
{
    let settings = settings_for(limits);
    let memory = setting_for(LimitedResource::AddressSpace, limits.memory_bytes);
    let cpu = setting_for(LimitedResource::CpuTime, limits.cpu_time_secs);
    let processes = setting_for(LimitedResource::Processes, limits.max_processes);
    assert(settings == memory + cpu + processes);
    assert forall|setting: LimitSetting|
        settings.contains(setting) == (memory.contains(setting) || cpu.contains(setting)
            || processes.contains(setting)) by {
        if memory.contains(setting) {
            let i = choose|i: int| 0 <= i < memory.len() && memory[i] == setting;
            assert(settings[i] == setting);
        }
        if cpu.contains(setting) {
            let i = choose|i: int| 0 <= i < cpu.len() && cpu[i] == setting;
            assert(settings[memory.len() + i] == setting);
        }
        if processes.contains(setting) {
            let i = choose|i: int| 0 <= i < processes.len() && processes[i] == setting;
            assert(settings[memory.len() + cpu.len() + i] == setting);
        }
        if settings.contains(setting) {
            let i = choose|i: int| 0 <= i < settings.len() && settings[i] == setting;
            if i < memory.len() {
                assert(memory[i] == setting);
            } else if i < memory.len() + cpu.len() {
                assert(cpu[i - memory.len()] == setting);
            } else {
                assert(processes[i - memory.len() - cpu.len()] == setting);
            }
        }
    }
    let in_memory = LimitSetting { resource: LimitedResource::AddressSpace, value };
    let in_cpu = LimitSetting { resource: LimitedResource::CpuTime, value };
    let in_processes = LimitSetting { resource: LimitedResource::Processes, value };
    if limits.memory_bytes is Some {
        assert(memory[0].value == limits.memory_bytes->0);
    }
    if limits.cpu_time_secs is Some {
        assert(cpu[0].value == limits.cpu_time_secs->0);
    }
    if limits.max_processes is Some {
        assert(processes[0].value == limits.max_processes->0);
    }
    assert(memory.contains(in_memory) <==> limits.memory_bytes == Some(value));
    assert(cpu.contains(in_cpu) <==> limits.cpu_time_secs == Some(value));
    assert(processes.contains(in_processes) <==> limits.max_processes == Some(value));
}

} // verus!
