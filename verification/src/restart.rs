//! Restarting a target with retries: up to its login prompt, or into its boot
//! loader.
//!
//! A run says what to do next; the caller does it and tells the run how it went.

use crate::mcp::floods_without_reset;
use crate::text::occurs;
use vstd::prelude::*;
use vstd::string::*;

verus! {

// ── Up to the login prompt ──────────────────────────────────────────────────

/// What a reset does next.
#[derive(Debug, Clone, Copy, PartialEq, Eq, Structural)]
pub enum ResetStep {
    /// Pulse the reset button and begin a new log.
    Reset,
    /// Wait for the login prompt.
    AwaitLogin,
    /// Pause before the next attempt.
    Pause,
    /// The target was reset, and its boot is not waited for.
    Done,
    /// The login prompt came.
    Booted,
    /// The login prompt did not come.
    GaveUp,
    /// The target could not be reset.
    Refused,
}

/// How a step of a reset went.
#[derive(Debug, Clone, Copy, PartialEq, Eq, Structural)]
pub enum ResetEvent {
    /// The button was pulsed, or could not be.
    WasReset(bool),
    /// The login prompt came, or did not.
    Waited(bool),
    /// The pause is over.
    Paused,
}

/// A reset with retries.
#[derive(Debug, Clone, Copy, PartialEq, Eq, Structural)]
pub struct ResetRun {
    pub wait_boot: bool,
    /// How many attempts there are at most.
    pub limit: u64,
    /// The attempt under way, counted from one.
    pub attempt: u64,
    pub step: ResetStep,
}

impl ResetRun {
    /// The attempts stay within their limit.
    pub open spec fn wf(self) -> bool {
        &&& 1 <= self.attempt <= self.limit
        &&& self.step == ResetStep::Pause ==> self.attempt < self.limit
    }

    /// The run after an event. An event that does not belong to the step changes
    /// nothing.
    pub open spec fn after(self, event: ResetEvent) -> ResetRun {
        match (self.step, event) {
            (ResetStep::Reset, ResetEvent::WasReset(ok)) => ResetRun {
                step: if !ok {
                    ResetStep::Refused
                } else if self.wait_boot {
                    ResetStep::AwaitLogin
                } else {
                    ResetStep::Done
                },
                ..self
            },
            (ResetStep::AwaitLogin, ResetEvent::Waited(matched)) => ResetRun {
                step: if matched {
                    ResetStep::Booted
                } else if self.attempt < self.limit {
                    ResetStep::Pause
                } else {
                    ResetStep::GaveUp
                },
                ..self
            },
            (ResetStep::Pause, ResetEvent::Paused) => ResetRun {
                attempt: (self.attempt + 1) as u64,
                step: ResetStep::Reset,
                ..self
            },
            _ => self,
        }
    }

    /// A run that starts with the first reset. There is at least one attempt.
    pub fn new(wait_boot: bool, failure_retry: u64) -> (r: Self)
        ensures
            r.wait_boot == wait_boot,
            r.limit == (if failure_retry == 0 {
                1
            } else {
                failure_retry as int
            }),
            r.attempt == 1,
            r.step == ResetStep::Reset,
            r.wf(),
    {
        let limit: u64 = if failure_retry == 0 {
            1
        } else {
            failure_retry
        };
        ResetRun { wait_boot, limit, attempt: 1, step: ResetStep::Reset }
    }

    /// Takes in how the step went, and returns the next one.
    pub fn next(&mut self, event: ResetEvent) -> (r: ResetStep)
        requires
            old(self).wf(),
        ensures
            *final(self) == old(self).after(event),
            r == final(self).step,
            final(self).wf(),
    {
        match (self.step, event) {
            (ResetStep::Reset, ResetEvent::WasReset(ok)) => {
                self.step = if !ok {
                    ResetStep::Refused
                } else if self.wait_boot {
                    ResetStep::AwaitLogin
                } else {
                    ResetStep::Done
                };
            },
            (ResetStep::AwaitLogin, ResetEvent::Waited(matched)) => {
                self.step = if matched {
                    ResetStep::Booted
                } else if self.attempt < self.limit {
                    ResetStep::Pause
                } else {
                    ResetStep::GaveUp
                };
            },
            (ResetStep::Pause, ResetEvent::Paused) => {
                self.attempt = self.attempt + 1;
                self.step = ResetStep::Reset;
            },
            _ => {},
        }
        self.step
    }
}

// ── Into the boot loader ────────────────────────────────────────────────────

/// What an attempt to enter the boot loader does next.
#[derive(Debug, Clone, Copy, PartialEq, Eq, Structural)]
pub enum UbootStep {
    /// Watch for the prompt, then reset the target through its button.
    Reset,
    /// Tell the target to reboot, and watch for its first boot loader.
    Reboot,
    /// Wait for the first boot loader, then watch for the prompt.
    AwaitLoader,
    /// Unless the prompt came, send an interrupt byte and wait for the interval.
    /// So many were sent before.
    Interrupt(u64),
    /// Wait a little longer for the prompt.
    AwaitPrompt,
    /// Pause before the next attempt.
    Pause,
    /// The prompt came.
    Entered,
    /// The prompt did not come.
    Failed,
    /// The target could not be reset.
    Refused,
}

/// How a step towards the boot loader went.
#[derive(Debug, Clone, Copy, PartialEq, Eq, Structural)]
pub enum UbootEvent {
    /// The target was told to reboot.
    Rebooted,
    /// The first boot loader was waited for.
    Awaited,
    /// The prompt came, or did not.
    Looked(bool),
    /// The pause is over.
    Paused,
}

/// Attempts to enter the boot loader.
#[derive(Debug, Clone, Copy, PartialEq, Eq, Structural)]
pub struct UbootRun {
    /// The target is restarted through its reset button, not by a command.
    pub hardware: bool,
    /// How many attempts there are at most.
    pub limit: u64,
    /// How many interrupt bytes an attempt sends at most.
    pub rounds: u64,
    /// The attempt under way, counted from one.
    pub attempt: u64,
    pub step: UbootStep,
}

impl UbootRun {
    /// The attempts and the interrupt bytes stay within their limits.
    pub open spec fn wf(self) -> bool {
        &&& self.attempt <= self.limit
        &&& self.step == UbootStep::Pause ==> self.attempt < self.limit
        &&& self.step matches UbootStep::Interrupt(n) ==> n < self.rounds
    }

    /// The step that begins an attempt.
    pub open spec fn first_step(self) -> UbootStep {
        if self.hardware {
            UbootStep::Reset
        } else {
            UbootStep::Reboot
        }
    }

    /// The step that follows the restart.
    pub open spec fn flood_step(self) -> UbootStep {
        if self.rounds > 0 {
            UbootStep::Interrupt(0)
        } else {
            UbootStep::AwaitPrompt
        }
    }

    /// The run after the reset, with the error where it failed. Without a reset
    /// control the interrupt bytes are sent all the same.
    pub open spec fn after_reset(self, error: Option<Seq<char>>) -> UbootRun {
        if self.step != UbootStep::Reset {
            self
        } else {
            UbootRun {
                step: match error {
                    Some(e) => if occurs(e, "No reset control configured"@) {
                        self.flood_step()
                    } else {
                        UbootStep::Refused
                    },
                    None => self.flood_step(),
                },
                ..self
            }
        }
    }

    /// The run after an event. An event that does not belong to the step changes
    /// nothing.
    pub open spec fn after(self, event: UbootEvent) -> UbootRun {
        match (self.step, event) {
            (UbootStep::Reboot, UbootEvent::Rebooted) => UbootRun {
                step: UbootStep::AwaitLoader,
                ..self
            },
            (UbootStep::AwaitLoader, UbootEvent::Awaited) => UbootRun {
                step: self.flood_step(),
                ..self
            },
            (UbootStep::Interrupt(n), UbootEvent::Looked(prompt)) => UbootRun {
                step: if prompt {
                    UbootStep::Entered
                } else if n + 1 < self.rounds {
                    UbootStep::Interrupt((n + 1) as u64)
                } else {
                    UbootStep::AwaitPrompt
                },
                ..self
            },
            (UbootStep::AwaitPrompt, UbootEvent::Looked(prompt)) => UbootRun {
                step: if prompt {
                    UbootStep::Entered
                } else if self.attempt < self.limit {
                    UbootStep::Pause
                } else {
                    UbootStep::Failed
                },
                ..self
            },
            (UbootStep::Pause, UbootEvent::Paused) => UbootRun {
                attempt: (self.attempt + 1) as u64,
                step: self.first_step(),
                ..self
            },
            _ => self,
        }
    }

    /// A run that starts with the first restart, or has failed where there are no
    /// attempts.
    pub fn new(hardware: bool, limit: u64, rounds: u64) -> (r: Self)
        ensures
            r.hardware == hardware,
            r.limit == limit,
            r.rounds == rounds,
            r.attempt == (if limit > 0 {
                1int
            } else {
                0
            }),
            r.step == (if limit > 0 {
                r.first_step()
            } else {
                UbootStep::Failed
            }),
            r.wf(),
    {
        if limit == 0 {
            return UbootRun { hardware, limit, rounds, attempt: 0, step: UbootStep::Failed };
        }
        let step = if hardware {
            UbootStep::Reset
        } else {
            UbootStep::Reboot
        };
        UbootRun { hardware, limit, rounds, attempt: 1, step }
    }

    /// Takes in how the reset went, and returns the next step.
    pub fn was_reset(&mut self, outcome: &Result<(), String>) -> (r: UbootStep)
        requires
            old(self).wf(),
        ensures
            *final(self) == old(self).after_reset(
                match *outcome {
                    Ok(_) => None,
                    Err(e) => Some(e@),
                },
            ),
            r == final(self).step,
            final(self).wf(),
    {
        if self.step == UbootStep::Reset {
            let goes_on: bool = match outcome {
                Ok(_) => true,
                Err(e) => floods_without_reset(e),
            };
            self.step = if !goes_on {
                UbootStep::Refused
            } else if self.rounds > 0 {
                UbootStep::Interrupt(0)
            } else {
                UbootStep::AwaitPrompt
            };
        }
        self.step
    }

    /// Takes in how the step went, and returns the next one.
    pub fn next(&mut self, event: UbootEvent) -> (r: UbootStep)
        requires
            old(self).wf(),
        ensures
            *final(self) == old(self).after(event),
            r == final(self).step,
            final(self).wf(),
    {
        match (self.step, event) {
            (UbootStep::Reboot, UbootEvent::Rebooted) => {
                self.step = UbootStep::AwaitLoader;
            },
            (UbootStep::AwaitLoader, UbootEvent::Awaited) => {
                self.step = if self.rounds > 0 {
                    UbootStep::Interrupt(0)
                } else {
                    UbootStep::AwaitPrompt
                };
            },
            (UbootStep::Interrupt(n), UbootEvent::Looked(prompt)) => {
                self.step = if prompt {
                    UbootStep::Entered
                } else if n + 1 < self.rounds {
                    UbootStep::Interrupt(n + 1)
                } else {
                    UbootStep::AwaitPrompt
                };
            },
            (UbootStep::AwaitPrompt, UbootEvent::Looked(prompt)) => {
                self.step = if prompt {
                    UbootStep::Entered
                } else if self.attempt < self.limit {
                    UbootStep::Pause
                } else {
                    UbootStep::Failed
                };
            },
            (UbootStep::Pause, UbootEvent::Paused) => {
                self.attempt = self.attempt + 1;
                self.step = if self.hardware {
                    UbootStep::Reset
                } else {
                    UbootStep::Reboot
                };
            },
            _ => {},
        }
        self.step
    }
}

// ── Laws ────────────────────────────────────────────────────────────────────

/// How much of an attempt is left, by the kind of step.
pub open spec fn reset_rank(step: ResetStep) -> nat {
    match step {
        ResetStep::Reset => 3,
        ResetStep::AwaitLogin => 2,
        ResetStep::Pause => 1,
        _ => 0,
    }
}

/// Law: a reset comes to an end. What an event changes leaves fewer attempts, or
/// less of the attempt under way.
pub proof fn law_resets_end(run: ResetRun, event: ResetEvent)
    requires
        run.wf(),
        run.after(event) != run,
    ensures
        run.after(event).wf(),
        run.after(event).limit - run.after(event).attempt < run.limit - run.attempt || (
        run.after(event).attempt == run.attempt && reset_rank(run.after(event).step) < reset_rank(
            run.step,
        )),
{
}

/// Law: a target is reported as booted only after its login prompt came, and as
/// not booted only after the last attempt.
pub proof fn law_reset_reports_are_earned(run: ResetRun, event: ResetEvent)
    requires
        run.wf(),
        run.after(event) != run,
    ensures
        run.after(event).step == ResetStep::Booted ==> event == ResetEvent::Waited(true),
        run.after(event).step == ResetStep::GaveUp ==> event == ResetEvent::Waited(false)
            && run.attempt == run.limit,
{
}

/// How much of an attempt is left, by the kind of step.
pub open spec fn uboot_rank(step: UbootStep) -> nat {
    match step {
        UbootStep::Reset => 5,
        UbootStep::Reboot => 5,
        UbootStep::AwaitLoader => 4,
        UbootStep::Interrupt(_) => 3,
        UbootStep::AwaitPrompt => 2,
        UbootStep::Pause => 1,
        _ => 0,
    }
}

/// Law: entering the boot loader comes to an end. What an event changes leaves
/// fewer attempts, less of the attempt under way, or fewer interrupt bytes.
pub proof fn law_uboot_attempts_end(run: UbootRun, event: UbootEvent)
    requires
        run.wf(),
        run.after(event) != run,
    ensures
        run.after(event).wf(),
        ({
            let next = run.after(event);
            ||| next.limit - next.attempt < run.limit - run.attempt
            ||| next.attempt == run.attempt && uboot_rank(next.step) < uboot_rank(run.step)
            ||| next.attempt == run.attempt && run.step is Interrupt && next.step is Interrupt
                && next.step->Interrupt_0 == run.step->Interrupt_0 + 1
        }),
{
}

/// Law: the boot loader is reported as entered only after its prompt came, and as
/// missed only after the last attempt.
pub proof fn law_uboot_reports_are_earned(run: UbootRun, event: UbootEvent)
    requires
        run.wf(),
        run.after(event) != run,
    ensures
        run.after(event).step == UbootStep::Entered ==> event == UbootEvent::Looked(true),
        run.after(event).step == UbootStep::Failed ==> event == UbootEvent::Looked(false)
            && run.attempt == run.limit,
{
}

/// Law: a target without a reset control is still sent its interrupt bytes; any
/// other error of the reset ends the run.
pub proof fn law_no_reset_control_floods(run: UbootRun, error: Seq<char>)
    requires
        run.step == UbootStep::Reset,
        run.rounds > 0,
    ensures
        run.after_reset(None).step == UbootStep::Interrupt(0),
        occurs(error, "No reset control configured"@) ==> run.after_reset(Some(error)).step
            == UbootStep::Interrupt(0),
        !occurs(error, "No reset control configured"@) ==> run.after_reset(Some(error)).step
            == UbootStep::Refused,
{
}

/// Law: a reset is followed by the wait for the login prompt where that is asked for; a
/// prompt that does not come is tried again after a pause, as often as there are
/// attempts.
pub proof fn law_reset_steps(run: ResetRun)
    requires
        run.wf(),
    ensures
        run.step == ResetStep::Reset ==> {
            &&& run.after(ResetEvent::WasReset(false)) == (ResetRun {
                step: ResetStep::Refused,
                ..run
            })
            &&& run.wait_boot ==> run.after(ResetEvent::WasReset(true)) == (ResetRun {
                step: ResetStep::AwaitLogin,
                ..run
            })
            &&& !run.wait_boot ==> run.after(ResetEvent::WasReset(true)) == (ResetRun {
                step: ResetStep::Done,
                ..run
            })
        },
        run.step == ResetStep::AwaitLogin ==> {
            &&& run.after(ResetEvent::Waited(true)) == (ResetRun {
                step: ResetStep::Booted,
                ..run
            })
            &&& run.attempt < run.limit ==> run.after(ResetEvent::Waited(false)) == (ResetRun {
                step: ResetStep::Pause,
                ..run
            })
            &&& run.attempt == run.limit ==> run.after(ResetEvent::Waited(false)) == (ResetRun {
                step: ResetStep::GaveUp,
                ..run
            })
        },
        run.step == ResetStep::Pause ==> {
            let next = run.after(ResetEvent::Paused);
            next.step == ResetStep::Reset && next.attempt == run.attempt + 1 && next.limit
                == run.limit && next.wait_boot == run.wait_boot
        },
        run.step == ResetStep::Done || run.step == ResetStep::Booted || run.step
            == ResetStep::GaveUp || run.step == ResetStep::Refused ==> forall|e: ResetEvent|
            #[trigger] run.after(e) == run,
{
}

/// Law: an attempt to enter the boot loader restarts the target, by its button or by a
/// command, floods it with interrupts until the prompt comes or all are sent, and waits
/// a little longer; a failed attempt is tried again after a pause.
pub proof fn law_uboot_steps(run: UbootRun, n: u64)
    requires
        run.wf(),
    ensures
        run.step == UbootStep::Reboot ==> run.after(UbootEvent::Rebooted).step
            == UbootStep::AwaitLoader,
        run.step == UbootStep::AwaitLoader && run.rounds > 0 ==> run.after(UbootEvent::Awaited).step
            == UbootStep::Interrupt(0),
        run.step == UbootStep::AwaitLoader && run.rounds == 0 ==> run.after(
            UbootEvent::Awaited,
        ).step == UbootStep::AwaitPrompt,
        run.step == UbootStep::Interrupt(n) ==> {
            &&& run.after(UbootEvent::Looked(true)).step == UbootStep::Entered
            &&& n + 1 < run.rounds ==> run.after(UbootEvent::Looked(false)).step
                == UbootStep::Interrupt((n + 1) as u64)
            &&& n + 1 == run.rounds ==> run.after(UbootEvent::Looked(false)).step
                == UbootStep::AwaitPrompt
        },
        run.step == UbootStep::AwaitPrompt ==> {
            &&& run.after(UbootEvent::Looked(true)).step == UbootStep::Entered
            &&& run.attempt < run.limit ==> run.after(UbootEvent::Looked(false)).step
                == UbootStep::Pause
            &&& run.attempt == run.limit ==> run.after(UbootEvent::Looked(false)).step
                == UbootStep::Failed
        },
        run.step == UbootStep::Pause ==> {
            let next = run.after(UbootEvent::Paused);
            &&& next.attempt == run.attempt + 1
            &&& run.hardware ==> next.step == UbootStep::Reset
            &&& !run.hardware ==> next.step == UbootStep::Reboot
        },
        run.step == UbootStep::Entered || run.step == UbootStep::Failed || run.step
            == UbootStep::Refused ==> forall|e: UbootEvent| #[trigger] run.after(e) == run,
        forall|e: UbootEvent|
            #![trigger run.after(e)]
            run.after(e).hardware == run.hardware && run.after(e).limit == run.limit && run.after(
                e,
            ).rounds == run.rounds,
        run.step != UbootStep::Reset ==> run.after_reset(None) == run,
{
}

/// Law: a reset starts with its first attempt, and there is always one.
pub proof fn law_starting_a_reset(wait: bool, retry: u64, r: ResetRun)
    requires
        call_ensures(ResetRun::new, (wait, retry), r),
    ensures
        r.attempt == 1 && r.step == ResetStep::Reset && r.wait_boot == wait,
        retry > 0 ==> r.limit == retry,
        retry == 0 ==> r.limit == 1,
{
}

/// Law: the loader is entered by hardware or by a command, and not at all without an
/// attempt.
pub proof fn law_starting_for_the_loader(hardware: bool, limit: u64, rounds: u64, r: UbootRun)
    requires
        call_ensures(UbootRun::new, (hardware, limit, rounds), r),
    ensures
        limit == 0 ==> r.step == UbootStep::Failed,
        limit > 0 && hardware ==> r.step == UbootStep::Reset && r.attempt == 1,
        limit > 0 && !hardware ==> r.step == UbootStep::Reboot && r.attempt == 1,
        r.limit == limit && r.rounds == rounds,
{
}

} // verus!
