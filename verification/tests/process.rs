use guardrail::process::{
    after_handle_wait, after_waitid, sigchld_retains_waitable_status, HandleWait, KillAction,
    KillBy, ObserveStep, Refusal, SharedState, SigchldAction, WAIT_FAILED, WAIT_OBJECT_0,
};

#[test]
fn a_second_wait_is_refused() {
    let mut state = SharedState::new("child");
    let child = state.take_for_wait(KillBy::Pid, true).unwrap();
    assert_eq!(state.take_for_wait(KillBy::Pid, true), Err(Refusal::AlreadyWaited));
    assert!(matches!(state, SharedState::Waiting { can_signal: true }));
    assert_eq!(child, "child");

    state.finish_wait();
    let refusal = state.take_for_wait(KillBy::Pid, true).unwrap_err();
    assert!(refusal.to_text().contains("already been called"));
    assert!(matches!(state, SharedState::Reaped));
}

#[test]
fn killing_a_reaped_child_does_nothing() {
    let mut state = SharedState::new(1);
    for by in [KillBy::Pid, KillBy::Job, KillBy::Nothing] {
        state.finish_wait();
        assert_eq!(state.kill_action(by, true), KillAction::Nothing);
        assert_eq!(state.kill_action(by, false), KillAction::Nothing);
    }
}

#[test]
fn a_zombie_can_be_signalled_until_the_reap() {
    let mut state = SharedState::new(1);
    assert_eq!(state.kill_action(KillBy::Pid, true), KillAction::KillOwned);
    state.take_for_wait(KillBy::Pid, true).unwrap();
    assert_eq!(state.kill_action(KillBy::Pid, true), KillAction::SignalPid);
}

#[test]
fn a_failed_wait_disables_kill_and_allows_a_retry() {
    let mut state = SharedState::new(1);
    let child = state.take_for_wait(KillBy::Pid, true).unwrap();
    state.fail_wait(child);
    let KillAction::Refuse(refusal) = state.kill_action(KillBy::Pid, true) else {
        panic!("an uncertain pid must never be signalled");
    };
    assert!(refusal.to_text().contains("pid ownership is uncertain"));

    let child = state.take_for_wait(KillBy::Pid, true).unwrap();
    let KillAction::Refuse(refusal) = state.kill_action(KillBy::Pid, true) else {
        panic!("a retry must not re-enable signalling");
    };
    assert!(refusal.to_text().contains("waitable pid ownership is not guaranteed"));
    state.fail_wait(child);
    assert!(state.take_for_wait(KillBy::Pid, true).is_ok());
}

#[test]
fn discarded_status_disables_kill() {
    let mut state = SharedState::new(1);
    let KillAction::Refuse(refusal) = state.kill_action(KillBy::Pid, false) else {
        panic!("ignored SIGCHLD must disable signalling");
    };
    assert!(refusal.to_text().contains("SIGCHLD does not retain waitable child status"));
    state.take_for_wait(KillBy::Pid, false).unwrap();
    assert_eq!(
        state.kill_action(KillBy::Pid, true),
        KillAction::Refuse(Refusal::OwnershipNotGuaranteed)
    );
}

#[test]
fn jobs_are_terminated_in_every_state_before_the_reap() {
    let mut state = SharedState::new(1);
    assert_eq!(state.kill_action(KillBy::Job, false), KillAction::TerminateJob);
    let child = state.take_for_wait(KillBy::Job, false).unwrap();
    assert_eq!(state.kill_action(KillBy::Job, false), KillAction::TerminateJob);
    state.fail_wait(child);
    assert_eq!(state.kill_action(KillBy::Job, false), KillAction::TerminateJob);
}

#[test]
fn other_platforms_kill_only_through_the_handle() {
    let mut state = SharedState::new(1);
    assert_eq!(state.kill_action(KillBy::Nothing, false), KillAction::KillOwned);
    state.take_for_wait(KillBy::Nothing, true).unwrap();
    let KillAction::Refuse(refusal) = state.kill_action(KillBy::Nothing, true) else {
        panic!("the handle is owned by the wait");
    };
    assert_eq!(
        refusal.to_text(),
        "kill() while wait() is in flight is not supported on this platform"
    );
}

#[test]
fn sigchld_must_keep_status() {
    let action = |handler, flags| Some(SigchldAction { handler, flags });
    assert!(sigchld_retains_waitable_status(action(0, 0), 1, 2));
    assert!(!sigchld_retains_waitable_status(action(1, 0), 1, 2));
    assert!(!sigchld_retains_waitable_status(action(0, 6), 1, 2));
    assert!(sigchld_retains_waitable_status(action(0, 4), 1, 2));
    assert!(!sigchld_retains_waitable_status(None, 1, 2));
}

#[test]
fn interrupted_waits_are_made_again() {
    assert_eq!(after_waitid(0, false), ObserveStep::Exited);
    assert_eq!(after_waitid(-1, true), ObserveStep::Retry);
    assert_eq!(after_waitid(-1, false), ObserveStep::Fail);
}

#[test]
fn handle_waits_are_told_apart() {
    assert_eq!(after_handle_wait(WAIT_OBJECT_0), HandleWait::QueryExitCode);
    assert_eq!(after_handle_wait(WAIT_FAILED), HandleWait::Fail);
    assert_eq!(
        after_handle_wait(258),
        HandleWait::Unexpected("unexpected WaitForSingleObject result 258".to_string())
    );
}
