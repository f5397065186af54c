//! What the capability probes make of the kernel's answers.
use crate::error::{is_unsupported, Error};
use crate::scan::is_at;
use vstd::prelude::*;

verus! {

/// Calls `libc::WIFEXITED`: a process exited by itself when the low seven bits
/// of its wait status are zero.
#[verifier::external_body]
fn wif_exited(status: i32) -> (exited: bool)
    ensures
        exited == (status & 0x7f == 0),
{
    libc::WIFEXITED(status)
}

/// Calls `libc::WEXITSTATUS`: the exit code is the second byte of the wait
/// status.
#[verifier::external_body]
fn wexit_status(status: i32) -> (code: i32)
    ensures
        code == (status >> 8) & 0xff,
{
    libc::WEXITSTATUS(status)
}

/// How the disposable child of the namespace probe ended.
#[derive(Debug, Clone, Copy, PartialEq, Eq, Structural)]
pub enum ProbeExit {
    /// The namespaces could be entered.
    Passed,
    /// A step failed with this `errno`, which the child exited with.
    Failed(i32),
    /// The child did not exit by itself.
    Abnormal,
}

/// How a process with the wait status `status` ended.
pub open spec fn exit_of(status: i32) -> ProbeExit {
    if status & 0x7f != 0 {
        ProbeExit::Abnormal
    } else if (status >> 8) & 0xff == 0 {
        ProbeExit::Passed
    } else {
        ProbeExit::Failed((status >> 8) & 0xff)
    }
}

/// How the probe child with the wait status `status` ended.
pub fn probe_exit(status: i32) -> (exit: ProbeExit)
    ensures
        exit == exit_of(status),
{
    if wif_exited(status) {
        let code = wexit_status(status);
        if code == 0 {
            ProbeExit::Passed
        } else {
            ProbeExit::Failed(code)
        }
    } else {
        ProbeExit::Abnormal
    }
}

/// What to do after a `waitpid(2)`.
#[derive(Debug, Clone, Copy, PartialEq, Eq, Structural)]
pub enum WaitStep {
    /// The child was collected.
    Done,
    /// Wait again.
    Again,
    /// Waiting failed.
    Failed,
}

/// What to do after `waitpid(2)` on `pid` returned `rc`: only an interrupted
/// call is repeated.
pub fn after_wait(rc: i32, pid: i32, interrupted: bool) -> (step: WaitStep)
    ensures
        step == (if rc == pid {
            WaitStep::Done
        } else if rc < 0 && !interrupted {
            WaitStep::Failed
        } else {
            WaitStep::Again
        }),
{
    if rc == pid {
        WaitStep::Done
    } else if rc < 0 && !interrupted {
        WaitStep::Failed
    } else {
        WaitStep::Again
    }
}

/// Why a host that forbids the namespaces is unsupported.
pub open spec fn namespaces_missing(detail: Seq<char>) -> Seq<char> {
    "the Linux backend requires a fresh IPC namespace with private /dev/mqueue and /dev/shm mounts inside unprivileged user and mount namespaces for every sandbox; creating them failed: "@
        + detail
        + ". Enable unprivileged user namespaces (Debian: sysctl kernel.unprivileged_userns_clone=1; Ubuntu 24.04+: sysctl kernel.apparmor_restrict_unprivileged_userns=0; also check user.max_user_namespaces)"@
}

/// What went wrong in a probe that did not pass.
pub open spec fn probe_detail(exit: ProbeExit, errno_text: Seq<char>) -> Seq<char> {
    if exit == ProbeExit::Abnormal {
        "probe child terminated abnormally"@
    } else {
        errno_text
    }
}

/// Whether the host supports the namespaces of every sandbox. `errno_text`
/// describes the `errno` of a step that failed.
pub fn namespace_verdict(exit: ProbeExit, errno_text: &str) -> (verdict: Result<(), Error>)
    ensures
        match verdict {
            Ok(_) => exit == ProbeExit::Passed,
            Err(error) => exit != ProbeExit::Passed && is_unsupported(
                error,
                namespaces_missing(probe_detail(exit, errno_text@)),
            ),
        },
{
    let detail: &str = match exit {
        ProbeExit::Passed => {
            return Ok(());
        },
        ProbeExit::Failed(_) => errno_text,
        ProbeExit::Abnormal => "probe child terminated abnormally",
    };
    let mut text = String::from_str(
        "the Linux backend requires a fresh IPC namespace with private /dev/mqueue and /dev/shm mounts inside unprivileged user and mount namespaces for every sandbox; creating them failed: ",
    );
    text.append(detail);
    text.append(
        ". Enable unprivileged user namespaces (Debian: sysctl kernel.unprivileged_userns_clone=1; Ubuntu 24.04+: sysctl kernel.apparmor_restrict_unprivileged_userns=0; also check user.max_user_namespaces)",
    );
    Err(Error::Unsupported(text))
}

/// How much of a Landlock ruleset the kernel enforces.
#[derive(Debug, Clone, Copy, PartialEq, Eq, Structural)]
pub enum Enforcement {
    /// Everything that was asked for.
    FullyEnforced,
    /// Some of it.
    PartiallyEnforced,
    /// Nothing.
    NotEnforced,
}

/// The name of a degree of enforcement.
pub open spec fn enforcement_name(enforcement: Enforcement) -> Seq<char> {
    match enforcement {
        Enforcement::FullyEnforced => "FullyEnforced"@,
        Enforcement::PartiallyEnforced => "PartiallyEnforced"@,
        Enforcement::NotEnforced => "NotEnforced"@,
    }
}

/// Whether Landlock can confine a child: the probe ruleset was enforced in full.
/// An `Err` describes why it could not be enforced at all.
pub fn landlock_verdict(outcome: Result<Enforcement, String>) -> (verdict: Result<(), Error>)
    ensures
        match verdict {
            Ok(_) => outcome == Ok::<Enforcement, String>(Enforcement::FullyEnforced),
            Err(error) => match outcome {
                Ok(enforcement) => enforcement != Enforcement::FullyEnforced && is_unsupported(
                    error,
                    "Landlock (filesystem confinement) was not fully enforced: "@
                        + enforcement_name(enforcement),
                ),
                Err(reason) => is_unsupported(
                    error,
                    "Landlock (filesystem confinement) could not be enforced: "@ + reason@,
                ),
            },
        },
{
    match outcome {
        Ok(Enforcement::FullyEnforced) => Ok(()),
        Ok(enforcement) => {
            let mut text = String::from_str(
                "Landlock (filesystem confinement) was not fully enforced: ",
            );
            match enforcement {
                Enforcement::FullyEnforced => {
                    text.append("FullyEnforced");
                },
                Enforcement::PartiallyEnforced => {
                    text.append("PartiallyEnforced");
                },
                Enforcement::NotEnforced => {
                    text.append("NotEnforced");
                },
            }
            Err(Error::Unsupported(text))
        },
        Err(reason) => {
            let mut text = String::from_str(
                "Landlock (filesystem confinement) could not be enforced: ",
            );
            text.append(reason.as_str());
            Err(Error::Unsupported(text))
        },
    }
}

/// The oldest Landlock ABI that policies can be enforced with: the first in which
/// write grants honor cross-directory renames and links.
pub const LANDLOCK_FLOOR: i32 = 2;

/// The message for a kernel below the floor.
pub open spec fn below_floor_text() -> Seq<char> {
    "Landlock (filesystem confinement) could not be enforced: the kernel lacks Landlock ABI v2 (Linux 5.19+)"@
}

/// Whether a kernel with Landlock ABI `abi` can enforce policies.
pub fn floor_verdict(abi: i32) -> (verdict: Result<(), Error>)
    ensures
        match verdict {
            Ok(_) => abi >= LANDLOCK_FLOOR,
            Err(error) => abi < LANDLOCK_FLOOR && is_unsupported(error, below_floor_text()),
        },
        verdict is Ok <==> abi >= 2,
{
    if abi >= LANDLOCK_FLOOR {
        Ok(())
    } else {
        Err(
            Error::Unsupported(
                String::from_str(
                    "Landlock (filesystem confinement) could not be enforced: the kernel lacks Landlock ABI v2 (Linux 5.19+)",
                ),
            ),
        )
    }
}

/// Whether the kernel knows the seccomp actions that the filters use: `trap` for
/// violations and `errno` for denials that runtimes probe. Each is what querying
/// the availability of the action came to; the first that is missing is named.
pub fn seccomp_verdict(trap: Result<(), String>, errno: Result<(), String>) -> (verdict: Result<
    (),
    Error,
>)
    ensures
        match verdict {
            Ok(_) => trap is Ok && errno is Ok,
            Err(error) => (trap is Err || errno is Err) && is_unsupported(
                error,
                "seccomp-BPF "@ + (if trap is Err {
                    "Trap"@
                } else {
                    "Errno"@
                })
                    + " action availability probe failed; filter installation was not tested: "@
                    + (if trap is Err {
                    trap->Err_0@
                } else {
                    errno->Err_0@
                }),
            ),
        },
{
    let mut text = String::from_str("seccomp-BPF ");
    let reason = match trap {
        Err(reason) => {
            text.append("Trap");
            reason
        },
        Ok(_) => match errno {
            Err(reason) => {
                text.append("Errno");
                reason
            },
            Ok(_) => {
                return Ok(());
            },
        },
    };
    text.append(" action availability probe failed; filter installation was not tested: ");
    text.append(reason.as_str());
    Err(Error::Unsupported(text))
}

/// What to make of a filesystem ruleset: without a descriptor it would enforce
/// nothing, and the child is not run.
pub fn ruleset_verdict(has_descriptor: bool) -> (verdict: Result<(), Error>)
    ensures
        match verdict {
            Ok(_) => has_descriptor,
            Err(error) => !has_descriptor && is_unsupported(
                error,
                "Landlock ruleset is not enforced on this kernel; refusing to run the child without filesystem confinement"@,
            ),
        },
{
    if has_descriptor {
        Ok(())
    } else {
        Err(
            Error::Unsupported(
                String::from_str(
                    "Landlock ruleset is not enforced on this kernel; refusing to run the child without filesystem confinement",
                ),
            ),
        )
    }
}

/// A child that exits by itself is read by its exit code, whatever the code is, and one
/// that a signal ended is abnormal, whatever the signal is.
pub proof fn law_wait_statuses_are_read_back(code: i32, signal: i32)
    requires
        0 <= code <= 255,
        1 <= signal <= 126,
    ensures
        exit_of((code * 256) as i32) == if code == 0 {
            ProbeExit::Passed
        } else {
            ProbeExit::Failed(code)
        },
        exit_of(signal) == ProbeExit::Abnormal,
        exit_of((signal + 128) as i32) == ProbeExit::Abnormal,
{
    let exited = (code * 256) as i32;
    let dumped = (signal + 128) as i32;
    assert(exited & 0x7f == 0 && (exited >> 8) & 0xff == code) by (bit_vector)
        requires
            0 <= code <= 255,
            exited == code * 256,
    ;
    assert(signal & 0x7f != 0 && dumped & 0x7f != 0) by (bit_vector)
        requires
            1 <= signal <= 126,
            dumped == signal + 128,
    ;
}

/// What a failed probe is reported with: the text of the error where a step failed, and
/// that the child ended abnormally where it did. The report holds it word for word.
pub proof fn law_failed_probes_say_why(exit: ProbeExit, errno_text: Seq<char>) -> (at: int)
    ensures
        exit is Failed ==> probe_detail(exit, errno_text) == errno_text,
        exit == ProbeExit::Abnormal ==> probe_detail(exit, errno_text)
            == "probe child terminated abnormally"@,
        is_at(
            namespaces_missing(probe_detail(exit, errno_text)),
            probe_detail(exit, errno_text),
            at,
        ),
{
    let detail = probe_detail(exit, errno_text);
    let text = namespaces_missing(detail);
    let before =
        "the Linux backend requires a fresh IPC namespace with private /dev/mqueue and /dev/shm mounts inside unprivileged user and mount namespaces for every sandbox; creating them failed: "@;
    assert(text.subrange(before.len() as int, before.len() + detail.len() as int) =~= detail);
    before.len() as int
}

/// A degree of enforcement is reported by its own name.
pub proof fn law_enforcement_is_named(enforcement: Enforcement)
    ensures
        enforcement_name(enforcement) == "FullyEnforced"@ <==> enforcement
            == Enforcement::FullyEnforced,
        enforcement_name(enforcement) == "PartiallyEnforced"@ <==> enforcement
            == Enforcement::PartiallyEnforced,
        enforcement_name(enforcement) == "NotEnforced"@ <==> enforcement
            == Enforcement::NotEnforced,
{
    reveal_strlit("FullyEnforced");
    reveal_strlit("PartiallyEnforced");
    reveal_strlit("NotEnforced");
    assert("FullyEnforced"@[0] == 'F' && "PartiallyEnforced"@[0] == 'P' && "NotEnforced"@[0]
        == 'N');
}

} // verus!
