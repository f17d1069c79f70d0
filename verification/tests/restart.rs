use debug_console::restart::{
    ResetEvent, ResetRun, ResetStep, UbootEvent, UbootRun, UbootStep,
};

#[test]
fn a_reset_is_retried_until_the_login_prompt() {
    let mut run = ResetRun::new(true, 2);
    assert_eq!(run.step, ResetStep::Reset);
    assert_eq!(run.next(ResetEvent::WasReset(true)), ResetStep::AwaitLogin);
    assert_eq!(run.next(ResetEvent::Waited(false)), ResetStep::Pause);
    assert_eq!(run.next(ResetEvent::Paused), ResetStep::Reset);
    assert_eq!(run.attempt, 2);
    assert_eq!(run.next(ResetEvent::WasReset(true)), ResetStep::AwaitLogin);
    assert_eq!(run.next(ResetEvent::Waited(true)), ResetStep::Booted);
    assert_eq!(run.attempt, 2);
}

#[test]
fn a_reset_gives_up_after_the_last_attempt() {
    let mut run = ResetRun::new(true, 0);
    assert_eq!(run.limit, 1);
    assert_eq!(run.next(ResetEvent::WasReset(true)), ResetStep::AwaitLogin);
    assert_eq!(run.next(ResetEvent::Waited(false)), ResetStep::GaveUp);
    assert_eq!(run.next(ResetEvent::Paused), ResetStep::GaveUp);
}

#[test]
fn a_reset_without_waiting_is_done_at_once() {
    let mut run = ResetRun::new(false, 3);
    assert_eq!(run.next(ResetEvent::WasReset(true)), ResetStep::Done);
    let mut run = ResetRun::new(false, 3);
    assert_eq!(run.next(ResetEvent::WasReset(false)), ResetStep::Refused);
}

#[test]
fn a_prompt_during_the_flood_ends_it() {
    let mut run = UbootRun::new(true, 3, 2);
    assert_eq!(run.step, UbootStep::Reset);
    assert_eq!(run.was_reset(&Ok(())), UbootStep::Interrupt(0));
    assert_eq!(run.next(UbootEvent::Looked(false)), UbootStep::Interrupt(1));
    assert_eq!(run.next(UbootEvent::Looked(true)), UbootStep::Entered);
    assert_eq!(run.attempt, 1);
}

#[test]
fn the_boot_loader_is_missed_after_the_last_attempt() {
    let mut run = UbootRun::new(false, 2, 1);
    assert_eq!(run.step, UbootStep::Reboot);
    for _ in 0..2 {
        assert_eq!(run.next(UbootEvent::Rebooted), UbootStep::AwaitLoader);
        assert_eq!(run.next(UbootEvent::Awaited), UbootStep::Interrupt(0));
        assert_eq!(run.next(UbootEvent::Looked(false)), UbootStep::AwaitPrompt);
        run.next(UbootEvent::Looked(false));
        if run.step == UbootStep::Pause {
            assert_eq!(run.next(UbootEvent::Paused), UbootStep::Reboot);
        }
    }
    assert_eq!(run.step, UbootStep::Failed);
    assert_eq!(UbootRun::new(true, 0, 1).step, UbootStep::Failed);
}

#[test]
fn a_missing_reset_control_does_not_stop_the_flood() {
    let mut run = UbootRun::new(true, 1, 1);
    let missing = Err("No reset control configured".to_string());
    assert_eq!(run.was_reset(&missing), UbootStep::Interrupt(0));
    let mut run = UbootRun::new(true, 1, 1);
    let broken = Err("reset control failed via ch340-relay: operation timed out".to_string());
    assert_eq!(run.was_reset(&broken), UbootStep::Refused);
    let mut run = UbootRun::new(true, 1, 0);
    assert_eq!(run.was_reset(&Ok(())), UbootStep::AwaitPrompt);
}
