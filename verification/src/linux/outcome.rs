//! How the confinement helper reports what a child may do.
//!
//! The helper runs inside a sandbox, tries one operation and exits with a code
//! that tells whether the operation was allowed.
use vstd::prelude::*;

verus! {

/// The operation succeeded, so it is allowed.
pub const ALLOWED: i32 = 0;

/// The helper was not used as it should be.
pub const USAGE: i32 = 2;

/// The operation failed because it was denied.
pub const DENIED: i32 = 3;

/// The largest private `/dev/shm`, in bytes.
pub const PRIVATE_SHM_BYTES: u128 = 67108864;

/// The type of a `tmpfs` file system.
pub const TMPFS_MAGIC: i64 = 0x0102_1994;

/// The exit code for a failed `io_uring` call. A filter answers `ENOSYS`;
/// `reached` is the error by which the kernel shows that the call got through.
pub fn io_uring_exit(errno: Option<i32>, enosys: i32, reached: Option<i32>) -> (code: i32)
    ensures
        code == if errno == Some(enosys) {
            DENIED
        } else if errno is Some && errno == reached {
            ALLOWED
        } else {
            USAGE
        },
        code == 3 <==> errno == Some(enosys),
        code == 0 <==> errno is Some && errno != Some(enosys) && errno == reached,
        code == 0 || code == 2 || code == 3,
{
    match errno {
        Some(errno) => {
            if errno == enosys {
                DENIED
            } else {
                match reached {
                    Some(reached) => if errno == reached {
                        ALLOWED
                    } else {
                        USAGE
                    },
                    None => USAGE,
                }
            }
        },
        None => USAGE,
    }
}

/// Whether a read gave exactly what was expected. `buffer` has room for one byte
/// more, so that what stands behind it shows; `read` is what the call returned.
pub fn is_expected(buffer: &[u8], read: i64, expected: &[u8]) -> (yes: bool)
    ensures
        yes == (0 <= read <= buffer@.len() && buffer@.take(read as int) == expected@),
{
    if read < 0 || read as u64 > buffer.len() as u64 {
        return false;
    }
    let n: usize = read as usize;
    if n != expected.len() {
        return false;
    }
    let mut i: usize = 0;
    while i < n
        invariant
            i <= n,
            n <= buffer@.len(),
            n == expected@.len(),
            forall|k: int| 0 <= k < i ==> buffer@[k] == expected@[k],
        decreases n - i,
    {
        if buffer[i] != expected[i] {
            assert(buffer@.take(n as int)[i as int] != expected@[i as int]);
            return false;
        }
        i += 1;
    }
    assert(buffer@.take(n as int) =~= expected@);
    true
}

/// Whether a file system is the private `/dev/shm`: a `tmpfs` of the right size at
/// most, mounted with every flag of `required`.
pub fn is_private_shm(fs_type: i64, blocks: u64, block_size: i64, flags: u64, required: u64) -> (yes:
    bool)
    ensures
        yes == (fs_type == TMPFS_MAGIC && block_size >= 0 && blocks * block_size
            <= PRIVATE_SHM_BYTES && flags & required == required),
        yes ==> blocks * block_size <= 64 * 1024 * 1024,
{
    if block_size < 0 {
        return false;
    }
    let size: u64 = block_size as u64;
    assert(blocks * size <= u64::MAX * u64::MAX) by (nonlinear_arith)
        requires
            blocks <= u64::MAX,
            size <= u64::MAX,
    ;
    let capacity: u128 = blocks as u128 * size as u128;
    fs_type == TMPFS_MAGIC && capacity <= PRIVATE_SHM_BYTES && flags & required == required
}

/// How long the helper holds its IPC namespace open: what was asked for, two
/// seconds at most.
pub fn hold_milliseconds(asked: Option<u64>) -> (hold: u64)
    ensures
        hold == match asked {
            Some(asked) => if asked < 2000 {
                asked
            } else {
                2000u64
            },
            None => 0u64,
        },
{
    match asked {
        Some(asked) => if asked < 2000 {
            asked
        } else {
            2000
        },
        None => 0,
    }
}

} // verus!
