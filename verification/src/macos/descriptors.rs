//! Descriptor hygiene: what the child inherits is closed when it execs.
//!
//! macOS has no call that closes a range of descriptors, and the fork child of a
//! multi-threaded process may not allocate. So the parent allocates a table that
//! can hold every descriptor, and the child asks the kernel to fill it and marks
//! each descriptor above standard error close-on-exec.
use vstd::arithmetic::div_mod::lemma_fundamental_div_mod;
use vstd::prelude::*;

verus! {

/// The close-on-exec flag of a descriptor.
pub const FD_CLOEXEC: i32 = 1;

/// The last of the standard descriptors.
pub const LAST_STANDARD_FD: i32 = 2;

/// Why descriptors could not be made safe.
#[derive(Debug, Clone, Copy, PartialEq, Eq, Structural)]
pub enum DescriptorError {
    /// The system call failed; its error code tells why.
    SystemCall,
    /// The table would be larger than the kernel can be told (`EOVERFLOW`).
    Overflow,
    /// The kernel filled the table with something else than entries (`EIO`).
    Malformed,
}

/// The size of a descriptor table.
#[derive(Debug, Clone, Copy, PartialEq, Eq, Structural)]
pub struct TableSize {
    /// The number of entries.
    pub entries: usize,
    /// The bytes that the entries take.
    pub bytes: i32,
}

/// The bytes that a table must hold: an entry for each descriptor that the limit
/// allows, and what the process has now, which can be more after the limit was
/// lowered.
pub open spec fn requested_bytes(
    descriptor_limit: int,
    current_bytes: int,
    entry_size: int,
) -> int {
    if descriptor_limit * entry_size >= current_bytes {
        descriptor_limit * entry_size
    } else {
        current_bytes
    }
}

/// The entries that hold `bytes` bytes.
pub open spec fn entries_for(bytes: int, entry_size: int) -> int {
    (bytes + entry_size - 1) / entry_size
}

/// The size of the table, from what the process limit and the kernel's own
/// sizing call returned.
pub fn table_size(descriptor_limit: i32, current_bytes: i32, entry_size: usize) -> (size: Result<
    TableSize,
    DescriptorError,
>)
    requires
        0 < entry_size <= i32::MAX,
    ensures
        ({
            let entries = entries_for(
                requested_bytes(descriptor_limit as int, current_bytes as int, entry_size as int),
                entry_size as int,
            );
            match size {
                Ok(size) => {
                    &&& descriptor_limit >= 0 && current_bytes > 0
                    &&& size.entries == entries
                    &&& size.bytes == entries * entry_size
                },
                Err(DescriptorError::SystemCall) => descriptor_limit < 0 || current_bytes <= 0,
                Err(DescriptorError::Overflow) => {
                    &&& descriptor_limit >= 0 && current_bytes > 0
                    &&& entries * entry_size > i32::MAX
                },
                Err(DescriptorError::Malformed) => false,
            }
        }),
{
    if descriptor_limit < 0 || current_bytes <= 0 {
        return Err(DescriptorError::SystemCall);
    }
    let ghost wanted = requested_bytes(
        descriptor_limit as int,
        current_bytes as int,
        entry_size as int,
    );
    let ghost entries = entries_for(wanted, entry_size as int);
    proof {
        lemma_entries_hold(wanted, entry_size as int);
    }
    let limit_bytes = match (descriptor_limit as usize).checked_mul(entry_size) {
        Some(bytes) => bytes,
        None => {
            return Err(DescriptorError::Overflow);
        },
    };
    let requested: usize = if limit_bytes >= current_bytes as usize {
        limit_bytes
    } else {
        current_bytes as usize
    };
    if requested > i32::MAX as usize {
        return Err(DescriptorError::Overflow);
    }
    let entry_count: usize = ((requested as u64 + (entry_size as u64 - 1)) / entry_size as u64) as usize;
    proof {
        assert(entry_count == entries);
    }
    match entry_count.checked_mul(entry_size) {
        Some(bytes) => {
            if bytes > i32::MAX as usize {
                Err(DescriptorError::Overflow)
            } else {
                Ok(TableSize { entries: entry_count, bytes: bytes as i32 })
            }
        },
        None => Err(DescriptorError::Overflow),
    }
}

/// The entries hold the bytes, and one entry fewer would not.
proof fn lemma_entries_hold(bytes: int, entry_size: int)
    requires
        bytes >= 0,
        entry_size > 0,
    ensures
        bytes <= entries_for(bytes, entry_size) * entry_size < bytes + entry_size,
        entries_for(bytes, entry_size) >= 0,
        entries_for(bytes, entry_size) <= bytes + entry_size - 1,
{
    let sum = bytes + entry_size - 1;
    let q = sum / entry_size;
    lemma_fundamental_div_mod(sum, entry_size);
    assert(entry_size * q == q * entry_size) by (nonlinear_arith);
    assert(q <= sum) by (nonlinear_arith)
        requires
            sum >= 0,
            entry_size >= 1,
            sum >= q * entry_size,
    ;
    assert(q >= 0) by (nonlinear_arith)
        requires
            entry_size > 0,
            q * entry_size > sum - entry_size,
            sum >= 0,
    ;
}

/// A table of this size has room for every descriptor that the limit allows and
/// for those that the process has now, and wastes less than one entry.
pub proof fn law_table_holds_every_descriptor(
    descriptor_limit: int,
    current_bytes: int,
    entry_size: int,
)
    requires
        descriptor_limit >= 0,
        current_bytes > 0,
        entry_size > 0,
    ensures
        ({
            let wanted = requested_bytes(descriptor_limit, current_bytes, entry_size);
            let entries = entries_for(wanted, entry_size);
            &&& descriptor_limit <= entries
            &&& current_bytes <= entries * entry_size
            &&& entries * entry_size < wanted + entry_size
        }),
{
    let wanted = requested_bytes(descriptor_limit, current_bytes, entry_size);
    let entries = entries_for(wanted, entry_size);
    lemma_entries_hold(wanted, entry_size);
    assert(descriptor_limit <= entries) by (nonlinear_arith)
        requires
            descriptor_limit * entry_size <= entries * entry_size,
            entry_size > 0,
    ;
}

/// The number of entries that the kernel filled in, from what its listing call
/// returned.
pub fn populated_entries(populated_bytes: i32, size: &TableSize, entry_size: usize) -> (count:
    Result<usize, DescriptorError>)
    requires
        0 < entry_size <= i32::MAX,
        size.bytes == size.entries * entry_size,
    ensures
        match count {
            Ok(count) => {
                &&& populated_bytes > 0
                &&& populated_bytes == count * entry_size
                &&& count <= size.entries
            },
            Err(DescriptorError::SystemCall) => populated_bytes <= 0,
            Err(DescriptorError::Malformed) => populated_bytes > 0 && (populated_bytes
                > size.bytes || populated_bytes as int % entry_size as int != 0),
            Err(DescriptorError::Overflow) => false,
        },
{
    if populated_bytes <= 0 {
        return Err(DescriptorError::SystemCall);
    }
    let bytes: usize = populated_bytes as usize;
    if populated_bytes > size.bytes || bytes % entry_size != 0 {
        return Err(DescriptorError::Malformed);
    }
    let count = bytes / entry_size;
    proof {
        lemma_fundamental_div_mod(bytes as int, entry_size as int);
        assert(entry_size * count == count * entry_size) by (nonlinear_arith);
        assert(count <= size.entries) by (nonlinear_arith)
            requires
                count * entry_size <= size.entries * entry_size,
                entry_size > 0,
        ;
    }
    Ok(count)
}

/// What to do about one descriptor.
#[derive(Debug, Clone, Copy, PartialEq, Eq, Structural)]
pub enum DescriptorStep {
    /// Leave it as it is.
    Keep,
    /// Ask for its flags.
    GetFlags,
    /// Set its flags to these.
    SetFlags(i32),
    /// Give up with the error of the last system call.
    Fail,
}

/// What to do about a descriptor first: the standard ones stay as they are.
pub fn first_step(fd: i32) -> (step: DescriptorStep)
    ensures
        step == if fd <= LAST_STANDARD_FD {
            DescriptorStep::Keep
        } else {
            DescriptorStep::GetFlags
        },
        step == DescriptorStep::Keep <==> fd <= 2,
{
    if fd <= LAST_STANDARD_FD {
        DescriptorStep::Keep
    } else {
        DescriptorStep::GetFlags
    }
}

/// What to do with the flags of a descriptor. `gone` tells that asking for them
/// failed because the descriptor is not open (`EBADF`).
pub fn step_after_flags(flags: i32, gone: bool) -> (step: DescriptorStep)
    ensures
        step == if flags < 0 {
            if gone {
                DescriptorStep::Keep
            } else {
                DescriptorStep::Fail
            }
        } else if flags & FD_CLOEXEC == 0 {
            DescriptorStep::SetFlags(flags | FD_CLOEXEC)
        } else {
            DescriptorStep::Keep
        },
        flags >= 0 && flags & 1 == 0 <==> step == DescriptorStep::SetFlags(flags | 1),
{
    if flags < 0 {
        if gone {
            DescriptorStep::Keep
        } else {
            DescriptorStep::Fail
        }
    } else if flags & FD_CLOEXEC == 0 {
        DescriptorStep::SetFlags(flags | FD_CLOEXEC)
    } else {
        DescriptorStep::Keep
    }
}

/// Setting the flag sets it and leaves every other flag as it was.
pub proof fn law_only_close_on_exec_is_added(flags: i32)
    ensures
        (flags | FD_CLOEXEC) & FD_CLOEXEC != 0,
        (flags | FD_CLOEXEC) & !FD_CLOEXEC == flags & !FD_CLOEXEC,
{
    assert((flags | 1i32) & 1i32 != 0 && (flags | 1i32) & !1i32 == flags & !1i32) by (bit_vector);
}

/// Whatever the flags of a descriptor are, the first bit of them, which closes it on exec,
/// is set once the step for them was done.
pub proof fn law_close_on_exec_is_set(flags: i32)
    ensures
        flags & 1 == 0 ==> (flags | 1) & 1 == 1,
        FD_CLOEXEC == 1,
        LAST_STANDARD_FD == 2,
{
    assert((flags | 1i32) & 1i32 == 1) by (bit_vector);
}

} // verus!
