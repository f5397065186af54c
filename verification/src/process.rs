//! Waiting for a child and killing it, from several threads.
//!
//! `wait()` (blocking, on a worker thread) and `kill()` (another thread) may run
//! concurrently. What they share is a [`SharedState`] behind a lock. On Linux and
//! macOS, `wait()` first blocks until the child has exited *without* reaping it,
//! so the pid cannot be reused; the reap and the transition to
//! [`Reaped`](SharedState::Reaped) then happen together under the lock that
//! `kill()` signals under. A failed wait leads to a state that permits only
//! another wait, never a signal.
use crate::text::{decimal, push_decimal};
use vstd::prelude::*;

verus! {

/// How a child can be killed while a wait is in flight.
#[derive(Debug, Clone, Copy, PartialEq, Eq, Structural)]
pub enum KillBy {
    /// By its pid: Linux and macOS.
    Pid,
    /// By the Job Object that owns its process tree: a raw Windows child. A
    /// handle cannot be redirected by pid reuse.
    Job,
    /// Not at all.
    Nothing,
}

/// What threads that share a child know of it. `C` is the handle that owns the
/// child.
#[derive(Debug)]
pub enum SharedState<C> {
    /// No wait has started.
    Ready(C),
    /// The handle is owned by a wait. `can_signal` is true only where the system
    /// is expected to retain the child's status until the guarded reap.
    Waiting {
        /// Whether the pid may be signalled.
        can_signal: bool,
    },
    /// A wait failed. The handle is retained for a retry, but the pid is not safe
    /// to signal: the system or another waiter may already have reaped the child.
    Uncertain(C),
    /// The child is gone.
    Reaped,
}

/// A [`SharedState`] without the handle.
pub enum Phase {
    Ready,
    Waiting { can_signal: bool },
    Uncertain,
    Reaped,
}

impl<C> View for SharedState<C> {
    type V = Phase;

    open spec fn view(&self) -> Phase {
        match *self {
            SharedState::Ready(_) => Phase::Ready,
            SharedState::Waiting { can_signal } => Phase::Waiting { can_signal },
            SharedState::Uncertain(_) => Phase::Uncertain,
            SharedState::Reaped => Phase::Reaped,
        }
    }
}

/// Why a wait or a kill is refused.
#[derive(Debug, Clone, Copy, PartialEq, Eq, Structural)]
pub enum Refusal {
    /// Another wait is active, or one has succeeded.
    AlreadyWaited,
    /// `SIGCHLD` is configured to discard child status, so the system may reap
    /// the child by itself and reuse the pid.
    StatusDiscarded,
    /// A wait is in flight, and nothing holds the pid in place.
    OwnershipNotGuaranteed,
    /// A wait is in flight, and the platform cannot kill without the handle.
    Unsupported,
    /// A wait failed, so the pid may be another process's.
    OwnershipUncertain,
}

/// The message of a refusal.
pub open spec fn refusal_text(refusal: Refusal) -> Seq<char> {
    match refusal {
        Refusal::AlreadyWaited => "wait() has already been called on this child"@,
        Refusal::StatusDiscarded => "kill() is unsafe because SIGCHLD does not retain waitable child status"@,
        Refusal::OwnershipNotGuaranteed => "kill() while wait() is in flight is unsafe because waitable pid ownership is not guaranteed"@,
        Refusal::Unsupported => "kill() while wait() is in flight is not supported on this platform"@,
        Refusal::OwnershipUncertain => "kill() after a failed wait is unsafe because pid ownership is uncertain"@,
    }
}

impl Refusal {
    /// The message of the refusal.
    pub fn to_text(&self) -> (text: String)
        ensures
            text@ == refusal_text(*self),
    {
        String::from_str(
            match self {
                Refusal::AlreadyWaited => "wait() has already been called on this child",
                Refusal::StatusDiscarded => "kill() is unsafe because SIGCHLD does not retain waitable child status",
                Refusal::OwnershipNotGuaranteed => "kill() while wait() is in flight is unsafe because waitable pid ownership is not guaranteed",
                Refusal::Unsupported => "kill() while wait() is in flight is not supported on this platform",
                Refusal::OwnershipUncertain => "kill() after a failed wait is unsafe because pid ownership is uncertain",
            },
        )
    }
}

/// How to kill a child.
#[derive(Debug, Clone, Copy, PartialEq, Eq, Structural)]
pub enum KillAction {
    /// Kill it through the handle that owns it.
    KillOwned,
    /// Signal its pid.
    SignalPid,
    /// Terminate its Job Object.
    TerminateJob,
    /// It is gone: do nothing.
    Nothing,
    /// Refuse.
    Refuse(Refusal),
}

/// Whether an action signals a pid, by itself or through the owned handle.
pub open spec fn signals_pid(action: KillAction) -> bool {
    action == KillAction::KillOwned || action == KillAction::SignalPid
}

/// Whether a wait may take the handle.
pub open spec fn can_wait(phase: Phase) -> bool {
    phase is Ready || phase is Uncertain
}

/// The phase once a wait has asked for the handle.
pub open spec fn after_take(phase: Phase, by: KillBy, retained: bool) -> Phase {
    match phase {
        Phase::Ready => Phase::Waiting { can_signal: by == KillBy::Pid && retained },
        Phase::Uncertain => Phase::Waiting { can_signal: false },
        _ => phase,
    }
}

/// How to kill a child in a phase.
pub open spec fn kill_decision(phase: Phase, by: KillBy, retained: bool) -> KillAction {
    match phase {
        Phase::Reaped => KillAction::Nothing,
        Phase::Ready => match by {
            KillBy::Job => KillAction::TerminateJob,
            KillBy::Pid => if retained {
                KillAction::KillOwned
            } else {
                KillAction::Refuse(Refusal::StatusDiscarded)
            },
            KillBy::Nothing => KillAction::KillOwned,
        },
        Phase::Waiting { can_signal } => match by {
            KillBy::Job => KillAction::TerminateJob,
            KillBy::Pid => if can_signal {
                KillAction::SignalPid
            } else {
                KillAction::Refuse(Refusal::OwnershipNotGuaranteed)
            },
            KillBy::Nothing => KillAction::Refuse(Refusal::Unsupported),
        },
        Phase::Uncertain => match by {
            KillBy::Job => KillAction::TerminateJob,
            _ => KillAction::Refuse(Refusal::OwnershipUncertain),
        },
    }
}

impl<C> SharedState<C> {
    /// The state of a child that nothing waits for yet.
    pub fn new(child: C) -> (state: SharedState<C>)
        ensures
            state == SharedState::Ready(child),
    {
        SharedState::Ready(child)
    }

    /// Takes the handle for a wait. `retained` tells whether the system keeps the
    /// status of a child that exits.
    pub fn take_for_wait(&mut self, by: KillBy, retained: bool) -> (child: Result<C, Refusal>)
        ensures
            final(self)@ == after_take(old(self)@, by, retained),
            match child {
                Ok(child) => *old(self) == SharedState::Ready(child) || *old(self)
                    == SharedState::Uncertain(child),
                Err(refusal) => {
                    &&& !can_wait(old(self)@)
                    &&& *final(self) == *old(self)
                    &&& refusal == Refusal::AlreadyWaited
                },
            },
    {
        let mut previous = SharedState::Waiting { can_signal: false };
        std::mem::swap(&mut previous, self);
        match previous {
            SharedState::Ready(child) => {
                let by_pid = match by {
                    KillBy::Pid => true,
                    _ => false,
                };
                *self = SharedState::Waiting { can_signal: by_pid && retained };
                Ok(child)
            },
            // A retry cannot signal until a wait has shown again that the child
            // is waitable. That remains so through the guarded reap.
            SharedState::Uncertain(child) => Ok(child),
            SharedState::Waiting { can_signal } => {
                *self = SharedState::Waiting { can_signal };
                Err(Refusal::AlreadyWaited)
            },
            SharedState::Reaped => {
                *self = SharedState::Reaped;
                Err(Refusal::AlreadyWaited)
            },
        }
    }

    /// Hands the handle back after a wait that failed.
    pub fn fail_wait(&mut self, child: C)
        ensures
            *final(self) == SharedState::Uncertain(child),
    {
        *self = SharedState::Uncertain(child);
    }

    /// Records that the child was reaped.
    pub fn finish_wait(&mut self)
        ensures
            *final(self) == SharedState::<C>::Reaped,
    {
        *self = SharedState::Reaped;
    }

    /// How to kill the child. It must be acted on under the lock that the state
    /// was read under.
    pub fn kill_action(&self, by: KillBy, retained: bool) -> (action: KillAction)
        ensures
            action == kill_decision(self@, by, retained),
    {
        match self {
            SharedState::Reaped => KillAction::Nothing,
            SharedState::Ready(_) => match by {
                KillBy::Job => KillAction::TerminateJob,
                KillBy::Pid => if retained {
                    KillAction::KillOwned
                } else {
                    KillAction::Refuse(Refusal::StatusDiscarded)
                },
                KillBy::Nothing => KillAction::KillOwned,
            },
            SharedState::Waiting { can_signal } => match by {
                KillBy::Job => KillAction::TerminateJob,
                KillBy::Pid => if *can_signal {
                    KillAction::SignalPid
                } else {
                    KillAction::Refuse(Refusal::OwnershipNotGuaranteed)
                },
                KillBy::Nothing => KillAction::Refuse(Refusal::Unsupported),
            },
            SharedState::Uncertain(_) => match by {
                KillBy::Job => KillAction::TerminateJob,
                _ => KillAction::Refuse(Refusal::OwnershipUncertain),
            },
        }
    }
}

/// What happens to a shared child.
pub enum ChildEvent {
    /// A wait asks for the handle.
    Take { retained: bool },
    /// A wait fails.
    Fail,
    /// A wait reaps the child.
    Reap,
}

/// The phase behind an event.
pub open spec fn after_event(phase: Phase, by: KillBy, event: ChildEvent) -> Phase {
    match event {
        ChildEvent::Take { retained } => after_take(phase, by, retained),
        ChildEvent::Fail => Phase::Uncertain,
        ChildEvent::Reap => Phase::Reaped,
    }
}

/// The phase behind the first `n` events on a new child.
pub open spec fn phase_after(by: KillBy, events: Seq<ChildEvent>, n: int) -> Phase
    decreases n,
{
    if n <= 0 {
        Phase::Ready
    } else {
        after_event(phase_after(by, events, n - 1), by, events[n - 1])
    }
}

/// Whatever waits are made, a pid is signalled only before any wait has failed
/// and before the child was reaped: never once the pid may be another process's.
pub proof fn law_only_an_unreaped_child_is_signalled(
    by: KillBy,
    events: Seq<ChildEvent>,
    retained: bool,
)
    ensures
        signals_pid(kill_decision(phase_after(by, events, events.len() as int), by, retained))
            ==> forall|i: int|
            0 <= i < events.len() ==> (#[trigger] events[i]) is Take,
{
    assert forall|i: int| 0 <= i < events.len() && !((#[trigger] events[i]) is Take) implies {
        let phase = phase_after(by, events, events.len() as int);
        phase == Phase::Reaped || phase == Phase::Uncertain || phase == (Phase::Waiting {
            can_signal: false,
        })
    } by {
        lemma_no_signal_after(by, events, i, events.len() as int);
    }
}

/// Once a wait has failed or reaped the child, no pid is signalled any more.
proof fn lemma_no_signal_after(by: KillBy, events: Seq<ChildEvent>, i: int, n: int)
    requires
        0 <= i < n <= events.len(),
        !(events[i] is Take),
    ensures
        ({
            let phase = phase_after(by, events, n);
            phase == Phase::Reaped || phase == Phase::Uncertain || phase == (Phase::Waiting {
                can_signal: false,
            })
        }),
    decreases n,
{
    if n > i + 1 {
        lemma_no_signal_after(by, events, i, n - 1);
    }
}

/// A child whose status the system may discard is never signalled by its pid, not
/// even while the wait is in flight.
pub proof fn law_discarded_status_forbids_signals(phase: Phase)
    requires
        phase is Ready || phase is Uncertain,
    ensures
        !signals_pid(kill_decision(phase, KillBy::Pid, false)),
        !signals_pid(
            kill_decision(after_take(phase, KillBy::Pid, false), KillBy::Pid, false),
        ),
{
}

/// Killing a child that was reaped does nothing, and waiting for it again is
/// refused.
pub proof fn law_reaped_is_final(by: KillBy, retained: bool)
    ensures
        kill_decision(Phase::Reaped, by, retained) == KillAction::Nothing,
        !can_wait(Phase::Reaped),
        after_take(Phase::Reaped, by, retained) == Phase::Reaped,
{
}

/// A failed wait may be retried, and the retry does not make the pid safe to
/// signal again.
pub proof fn law_failed_wait_can_be_retried(by: KillBy, retained: bool)
    ensures
        can_wait(Phase::Uncertain),
        !signals_pid(kill_decision(after_take(Phase::Uncertain, by, retained), by, retained)),
{
}

/// The tree of a raw Windows child can be terminated in every phase before the
/// reap.
pub proof fn law_job_can_be_terminated_until_the_reap(phase: Phase, retained: bool)
    ensures
        kill_decision(phase, KillBy::Job, retained) == KillAction::TerminateJob <==> !(
        phase is Reaped),
{
}

/// How `SIGCHLD` is handled, as the query for it returned.
#[derive(Debug, Clone, Copy, PartialEq, Eq, Structural)]
pub struct SigchldAction {
    /// The address of the handler.
    pub handler: usize,
    /// The flags.
    pub flags: i32,
}

/// Whether the system keeps the status of a child that exits: `SIGCHLD` is known
/// to be neither ignored nor to discard status. `ignore` is the address that
/// stands for ignoring a signal, and `no_child_wait` the flag that discards.
pub fn sigchld_retains_waitable_status(
    action: Option<SigchldAction>,
    ignore: usize,
    no_child_wait: i32,
) -> (retained: bool)
    ensures
        retained == (action matches Some(action) && action.handler != ignore && action.flags
            & no_child_wait == 0),
{
    match action {
        Some(action) => action.handler != ignore && action.flags & no_child_wait == 0,
        None => false,
    }
}

/// What to do after a system call that waits for a child.
#[derive(Debug, Clone, Copy, PartialEq, Eq, Structural)]
pub enum ObserveStep {
    /// The child has exited.
    Exited,
    /// A signal interrupted the call: make it again.
    Retry,
    /// Give up with the error of the call.
    Fail,
}

/// What to do after a call that observes the exit of a child.
pub fn after_waitid(returned: i32, interrupted: bool) -> (step: ObserveStep)
    ensures
        step == if returned == 0 {
            ObserveStep::Exited
        } else if interrupted {
            ObserveStep::Retry
        } else {
            ObserveStep::Fail
        },
{
    if returned == 0 {
        ObserveStep::Exited
    } else if interrupted {
        ObserveStep::Retry
    } else {
        ObserveStep::Fail
    }
}

/// What a wait for a Windows process handle returns once the process has exited.
pub const WAIT_OBJECT_0: u32 = 0;

/// What a wait for a Windows process handle returns when it fails.
pub const WAIT_FAILED: u32 = 0xffff_ffff;

/// What to do after a wait for a Windows process handle.
#[derive(Debug, PartialEq, Eq)]
pub enum HandleWait {
    /// The process has exited: ask for its exit code.
    QueryExitCode,
    /// Give up with the error of the call.
    Fail,
    /// Give up with this message.
    Unexpected(String),
}

/// The message for a wait that returned what it should not.
pub open spec fn unexpected_wait_text(returned: u32) -> Seq<char> {
    "unexpected WaitForSingleObject result "@ + decimal(returned as nat)
}

/// What to do after a wait without a time limit for a Windows process handle.
pub fn after_handle_wait(returned: u32) -> (step: HandleWait)
    ensures
        match step {
            HandleWait::QueryExitCode => returned == WAIT_OBJECT_0,
            HandleWait::Fail => returned == WAIT_FAILED,
            HandleWait::Unexpected(text) => returned != WAIT_OBJECT_0 && returned != WAIT_FAILED
                && text@ == unexpected_wait_text(returned),
        },
        step is QueryExitCode <==> returned == 0,
        step is Fail <==> returned == 0xffff_ffff,
{
    if returned == WAIT_OBJECT_0 {
        HandleWait::QueryExitCode
    } else if returned == WAIT_FAILED {
        HandleWait::Fail
    } else {
        let mut text = String::from_str("unexpected WaitForSingleObject result ");
        push_decimal(&mut text, returned as u64);
        HandleWait::Unexpected(text)
    }
}

/// A child that is killed by its pid is killed exactly as long as the pid cannot be
/// another process's: through its handle before any wait, where the system keeps the
/// status of children, and by a signal while waits are made, where the system kept it
/// when the first one began and none has failed or reaped the child.
pub proof fn law_an_unreaped_child_can_be_killed(events: Seq<ChildEvent>, retained: bool)
    ensures
        ({
            let action = kill_decision(
                phase_after(KillBy::Pid, events, events.len() as int),
                KillBy::Pid,
                retained,
            );
            &&& action == KillAction::KillOwned <==> events.len() == 0 && retained
            &&& action == KillAction::SignalPid <==> events.len() > 0 && events[0] == (
            ChildEvent::Take { retained: true }) && forall|i: int|
                0 <= i < events.len() ==> (#[trigger] events[i]) is Take
        }),
{
    let all = events.len() as int;
    let phase = phase_after(KillBy::Pid, events, all);
    if all > 0 {
        if forall|i: int| 0 <= i < events.len() ==> (#[trigger] events[i]) is Take {
            lemma_waiting_goes_on(events, all);
        } else {
            let i = choose|i: int| 0 <= i < events.len() && !((#[trigger] events[i]) is Take);
            lemma_no_signal_after(KillBy::Pid, events, i, all);
        }
    }
}

/// As long as waits only ask for the handle, the first of them decides.
proof fn lemma_waiting_goes_on(events: Seq<ChildEvent>, n: int)
    requires
        0 < n <= events.len(),
        forall|i: int| 0 <= i < events.len() ==> (#[trigger] events[i]) is Take,
    ensures
        phase_after(KillBy::Pid, events, n) == (Phase::Waiting {
            can_signal: events[0] == (ChildEvent::Take { retained: true }),
        }),
    decreases n,
{
    assert(events[n - 1] is Take);
    if n > 1 {
        lemma_waiting_goes_on(events, n - 1);
    } else {
        assert(phase_after(KillBy::Pid, events, 0) == Phase::Ready);
    }
}

/// A child that can only be killed through its handle is killed exactly before any
/// wait has asked for the handle. While a wait is in flight a kill is refused as not
/// supported, and after one that failed because the pid is not certain any more.
pub proof fn law_a_handle_kills_before_any_wait(events: Seq<ChildEvent>, retained: bool)
    ensures
        ({
            let phase = phase_after(KillBy::Nothing, events, events.len() as int);
            let action = kill_decision(phase, KillBy::Nothing, retained);
            &&& action == KillAction::KillOwned <==> events.len() == 0
            &&& action == KillAction::Nothing <==> phase is Reaped
            &&& action == KillAction::Refuse(Refusal::Unsupported) <==> phase is Waiting
            &&& action == KillAction::Refuse(Refusal::OwnershipUncertain) <==> phase is Uncertain
        }),
{
    lemma_ready_only_at_first(KillBy::Nothing, events, events.len() as int);
}

/// A child is ready only before anything has happened to it.
proof fn lemma_ready_only_at_first(by: KillBy, events: Seq<ChildEvent>, n: int)
    requires
        0 <= n <= events.len(),
    ensures
        phase_after(by, events, n) is Ready <==> n == 0,
    decreases n,
{
    if n > 0 {
        lemma_ready_only_at_first(by, events, n - 1);
    }
}

/// The handle of a child is handed out exactly when no wait holds it and none has
/// reaped the child; asking for it again while a wait is in flight changes nothing.
pub proof fn law_one_wait_at_a_time(phase: Phase, by: KillBy, retained: bool)
    ensures
        can_wait(phase) <==> !(phase is Waiting) && !(phase is Reaped),
        can_wait(phase) ==> after_take(phase, by, retained) is Waiting,
        !can_wait(phase) ==> after_take(phase, by, retained) == phase,
        !can_wait(after_take(phase, by, retained)),
        after_take(phase, by, retained) == (Phase::Waiting { can_signal: true }) <==> (phase
            is Ready && by == KillBy::Pid && retained) || phase == (Phase::Waiting {
            can_signal: true,
        }),
{
}

/// Why a kill by pid is refused: before a wait because the system may discard the
/// status, during one because the pid is not held in place, and after a failed one
/// because it may be another process's.
pub proof fn law_refusals_say_why(phase: Phase, retained: bool)
    ensures
        kill_decision(phase, KillBy::Pid, retained) == KillAction::Refuse(Refusal::StatusDiscarded)
            <==> phase is Ready && !retained,
        kill_decision(phase, KillBy::Pid, retained) == KillAction::Refuse(
            Refusal::OwnershipNotGuaranteed,
        ) <==> phase == (Phase::Waiting { can_signal: false }),
        kill_decision(phase, KillBy::Pid, retained) == KillAction::Refuse(
            Refusal::OwnershipUncertain,
        ) <==> phase is Uncertain,
        kill_decision(phase, KillBy::Pid, retained) == KillAction::Nothing <==> phase is Reaped,
{
}

/// What each refusal says, word for word, so that the messages tell the reasons apart.
pub proof fn law_refusals_are_worded(refusal: Refusal)
    ensures
        refusal == Refusal::AlreadyWaited ==> refusal_text(refusal)
            == "wait() has already been called on this child"@,
        refusal == Refusal::StatusDiscarded ==> refusal_text(refusal)
            == "kill() is unsafe because SIGCHLD does not retain waitable child status"@,
        refusal == Refusal::OwnershipNotGuaranteed ==> refusal_text(refusal)
            == "kill() while wait() is in flight is unsafe because waitable pid ownership is not guaranteed"@,
        refusal == Refusal::Unsupported ==> refusal_text(refusal)
            == "kill() while wait() is in flight is not supported on this platform"@,
        refusal == Refusal::OwnershipUncertain ==> refusal_text(refusal)
            == "kill() after a failed wait is unsafe because pid ownership is uncertain"@,
{
}

} // verus!
