//! What the tools ask of the serial engine: resets, power control, waiting for
//! patterns, polling and learning.

use crate::boot_detector::{DetectorView, WatcherView};
use crate::bridge::{bytes_pattern_valid, lossy_text, utf8_lossy};
use crate::config::{first_text, lookup, number, nonblank};
use crate::config_map::listed;
use crate::connection_learner::{LearnConfig, LearnCycle, LearnError, LearnMethod, LearnResult};
use crate::console::{enqueued, ConsoleView};
use crate::log_manager::{
    are_archives, boot_count, boot_file_name, list_archives, ArchiveInfo, LogFileInfo, LogPlan, LogView,
};
use crate::power_control::{
    Button, ButtonChannels, Ch340RelayControl, ExternalControl, PowerControlBackend,
};
use crate::serial_engine::{
    actions_of, banner_free, ActionView, EngineAction, EngineView, SerialEngine, Times,
};
use crate::state_manager::{elapsed, TargetState};
use crate::text::{
    append_bytes, cat, cat3, copy_bytes, decimal, decimal_text, eq_text, join_path, joined_path,
    lines, lines_of, texts, trim, trim_text,
};
use vstd::prelude::*;
use vstd::string::*;
use vstd::utf8::encode_utf8;

verus! {

// ── Power control ───────────────────────────────────────────────────────────

/// What a client is told after the relay was checked.
pub struct VerifyReport {
    pub success: bool,
    /// The channels read back as they were set.
    pub verified: bool,
    pub relay_configured: bool,
    /// The message, or the error.
    pub text: String,
}

impl SerialEngine {
    /// The channels of the buttons.
    pub open spec fn channels(self) -> ButtonChannels {
        ButtonChannels {
            reset: self.relay.reset_ch,
            maskrom: self.relay.maskrom_ch,
            recovery: number(
                self.config.values@,
                "RECOVERY_CHANNEL"@,
                u8::MAX as nat,
                0,
            ) as u8,
        }
    }

    /// The backend is the one that the configuration asks for: the external
    /// program where there is one, else the relay board.
    pub open spec fn is_backend(self, b: PowerControlBackend) -> bool {
        let program = lookup(self.config.values@, "DEV_CTL"@);
        if program.len() > 0 {
            b matches PowerControlBackend::External(c) && c.program@ == program && c.dut_alias@
                == first_text(lookup(self.config.values@, "DUT_ALIAS"@), "default"@) && c.channels
                == self.channels()
        } else {
            b matches PowerControlBackend::Ch340(c) && c.host@ == self.relay_host@ && c.port
                == self.relay.port && c.channels == self.channels() && !c.inverted
        }
    }

    /// The name of the backend that the configuration asks for.
    pub open spec fn backend_name(self) -> Seq<char> {
        if lookup(self.config.values@, "DEV_CTL"@).len() > 0 {
            "external-dev-ctl"@
        } else {
            "ch340-relay"@
        }
    }

    /// The backend that the configuration asks for.
    pub fn build_power_control(&self) -> (r: PowerControlBackend)
        ensures
            self.is_backend(r),
            r.title() == self.backend_name(),
            forall|b: Button| r.controls(b) == (self.channels().channel(b) > 0),
    {
        let dev_ctl = self.config.dev_ctl();
        let channels = ButtonChannels {
            reset: self.relay.reset_ch,
            maskrom: self.relay.maskrom_ch,
            recovery: self.config.recovery_channel(),
        };
        if !dev_ctl.as_str().is_empty() {
            let alias = self.config.get_str_or("DUT_ALIAS", "default");
            PowerControlBackend::External(ExternalControl::new(dev_ctl, alias, channels))
        } else {
            PowerControlBackend::Ch340(
                Ch340RelayControl::new(self.relay_host.clone(), self.relay.port, channels),
            )
        }
    }
}

/// The button of a name.
pub open spec fn button_named(name: Seq<char>) -> Option<Button> {
    if name == "reset"@ {
        Some(Button::Reset)
    } else if name == "maskrom"@ {
        Some(Button::Maskrom)
    } else if name == "recovery"@ {
        Some(Button::Recovery)
    } else {
        None
    }
}

/// What is done to a button.
#[derive(Debug, Clone, Copy, PartialEq, Eq, Structural)]
pub enum ButtonAction {
    Press,
    Release,
    /// Press, wait some milliseconds, release.
    Pulse(u64),
}

/// The action of a name; a pulse lasts half a second unless it is told
/// otherwise.
pub open spec fn action_named(name: Seq<char>, delay_ms: Option<u64>) -> Option<ButtonAction> {
    if name == "press"@ {
        Some(ButtonAction::Press)
    } else if name == "release"@ {
        Some(ButtonAction::Release)
    } else if name == "pulse"@ {
        Some(
            ButtonAction::Pulse(
                match delay_ms {
                    Some(ms) => ms,
                    None => 500,
                },
            ),
        )
    } else {
        None
    }
}

impl SerialEngine {
    /// What a request to operate a button asks for. An unknown button, a button
    /// that is not configured and an unknown action are refused, in that order.
    pub fn control_button(&self, button: &str, action: &str, delay_ms: Option<u64>) -> (r: Result<
        (Button, ButtonAction),
        String,
    >)
        ensures
            match (button_named(button@), action_named(action@, delay_ms)) {
                (None, _) => r matches Err(e) && e@ == "Unknown button: "@ + button@
                    + ". Valid: reset, maskrom, recovery"@,
                (Some(b), a) => if self.channels().channel(b) == 0 {
                    r matches Err(e) && e@ == "Button '"@ + button@
                        + "' not configured. Add relay channel in .target.toml or configure dev_ctl."@
                } else {
                    match a {
                        None => r matches Err(e) && e@ == "Unknown action: "@ + action@
                            + ". Valid: press, release, pulse"@,
                        Some(x) => r == Ok::<(Button, ButtonAction), String>((b, x)),
                    }
                },
            },
    {
        let b = if eq_text(button, "reset") {
            Button::Reset
        } else if eq_text(button, "maskrom") {
            Button::Maskrom
        } else if eq_text(button, "recovery") {
            Button::Recovery
        } else {
            return Err(cat3("Unknown button: ", button, ". Valid: reset, maskrom, recovery"));
        };
        let backend = self.build_power_control();
        if !backend.has_button(b) {
            return Err(
                cat3(
                    "Button '",
                    button,
                    "' not configured. Add relay channel in .target.toml or configure dev_ctl.",
                ),
            );
        }
        if eq_text(action, "press") {
            Ok((b, ButtonAction::Press))
        } else if eq_text(action, "release") {
            Ok((b, ButtonAction::Release))
        } else if eq_text(action, "pulse") {
            let ms: u64 = match delay_ms {
                Some(ms) => ms,
                None => 500,
            };
            Ok((b, ButtonAction::Pulse(ms)))
        } else {
            Err(cat3("Unknown action: ", action, ". Valid: press, release, pulse"))
        }
    }

    /// Whether some button is configured, so that there is something to verify.
    pub fn can_verify(&self) -> (r: bool)
        ensures
            r == self.channels().any(),
    {
        let backend = self.build_power_control();
        let r: bool = backend.has_button(Button::Reset) || backend.has_button(Button::Maskrom)
            || backend.has_button(Button::Recovery);
        proof {
            let c = self.channels();
            assert(c.any() <==> c.channel(Button::Reset) > 0 || c.channel(Button::Maskrom) > 0
                || c.channel(Button::Recovery) > 0) by {
                if c.any() {
                    let b = choose|b: Button| #[trigger] c.channel(b) > 0;
                    assert(b == Button::Reset || b == Button::Maskrom || b == Button::Recovery);
                }
            }
        }
        r
    }

    /// What a client is told after the relay was checked. `outcome` is what the
    /// check returned: whether the channels read back as they were set.
    pub fn verify_relay(&self, outcome: &Result<bool, String>) -> (r: VerifyReport)
        ensures
            r.relay_configured == self.channels().any(),
            if !self.channels().any() {
                !r.success && !r.verified && r.text@ == "No power control configured"@
            } else {
                match *outcome {
                    Ok(true) => r.success && r.verified && r.text@
                        == "Relay control verified — commands sent and read-back matched."@,
                    Ok(false) => r.success && !r.verified && r.text@
                        == "Relay responded but read-back verification is not supported by this backend."@,
                    Err(e) => !r.success && !r.verified && r.text@ == e@,
                }
            },
    {
        if !self.can_verify() {
            return VerifyReport {
                success: false,
                verified: false,
                relay_configured: false,
                text: "No power control configured".to_owned(),
            };
        }
        match outcome {
            Ok(matched) => if *matched {
                VerifyReport {
                    success: true,
                    verified: true,
                    relay_configured: true,
                    text: "Relay control verified — commands sent and read-back matched.".to_owned(),
                }
            } else {
                VerifyReport {
                    success: true,
                    verified: false,
                    relay_configured: true,
                    text: "Relay responded but read-back verification is not supported by this backend.".to_owned(),
                }
            },
            Err(e) => VerifyReport {
                success: false,
                verified: false,
                relay_configured: true,
                text: e.clone(),
            },
        }
    }

    /// The error of a serial line that another process still holds.
    pub fn claim_error(&self, pid: u32) -> (r: String)
        ensures
            r@ == "Lock still held by PID "@ + decimal(pid as nat),
    {
        cat("Lock still held by PID ", &decimal_text(pid as u64))
    }

    /// The error of a reset that failed.
    pub fn reset_error(&self, cause: &str) -> (r: String)
        ensures
            r@ == "reset control failed via "@ + self.backend_name() + ": "@ + cause@,
    {
        let backend = self.build_power_control();
        let mut r = cat3("reset control failed via ", backend.name(), ": ");
        r.append(cause);
        r
    }

    /// The error of a MASKROM sequence that failed.
    pub fn maskrom_error(&self, cause: &str) -> (r: String)
        ensures
            r@ == "MASKROM control failed via "@ + self.backend_name() + ": "@ + cause@,
    {
        let backend = self.build_power_control();
        let mut r = cat3("MASKROM control failed via ", backend.name(), ": ");
        r.append(cause);
        r
    }
}

/// One step of a power sequence.
#[derive(Debug, Clone, Copy, PartialEq, Eq, Structural)]
pub enum PowerStep {
    Press(Button),
    Release(Button),
    /// Wait some milliseconds.
    Wait(u64),
}

// ── Resetting ───────────────────────────────────────────────────────────────

impl LogView {
    /// The logs after the output since the last boot was saved as boot `n`, where
    /// there was any, and a new boot began.
    pub open spec fn next_boot(self, n: nat) -> LogView {
        LogView {
            boot_number: if self.boot_data().len() > 0 {
                n
            } else {
                self.boot_number
            },
            current_open: false,
            boot_start_pos: self.ring_buffer.len() as int,
            ..self
        }
    }
}

/// The text that the counter file holds.
pub open spec fn counter_text(counter: Option<&str>) -> Option<Seq<char>> {
    match counter {
        Some(t) => Some(t@),
        None => None,
    }
}

impl SerialEngine {
    /// Saves the log of the last boot and begins a new one. The log to be written
    /// is returned, where there is any output.
    pub fn new_boot_log(&mut self, counter: Option<&str>, timestamp: &str) -> (r: Option<LogPlan>)
        requires
            boot_count(counter_text(counter)) < u32::MAX,
        ensures
            ({
                let n = boot_count(counter_text(counter)) + 1;
                let logs = old(self)@.logs;
                &&& final(self)@ == (EngineView { logs: logs.next_boot(n), ..old(self)@ })
                &&& r is Some <==> logs.boot_data().len() > 0
                &&& r matches Some(p) ==> p.data@ == logs.boot_data() && p.name@ == boot_file_name(
                    n,
                    timestamp@,
                ) && p.path@ == joined_path(logs.log_dir, p.name@) && p.counter@ == decimal(n)
            }),
            final(self).same_fixed(*old(self)),
    {
        let r = self.logs.flush_boot_log(counter, timestamp);
        self.logs.mark_boot_start();
        r
    }

    /// Cuts the logs and starts a new boot cycle.
    pub fn rotate_log(&mut self, counter: Option<&str>, timestamp: &str) -> (r: Option<LogPlan>)
        requires
            boot_count(counter_text(counter)) < u32::MAX,
        ensures
            ({
                let n = boot_count(counter_text(counter)) + 1;
                let logs = old(self)@.logs;
                &&& final(self)@ == (EngineView {
                    logs: logs.next_boot(n),
                    detector: old(self)@.detector.reset_cycle(),
                    ..old(self)@
                })
                &&& r is Some <==> logs.boot_data().len() > 0
                &&& r matches Some(p) ==> p.data@ == logs.boot_data() && p.name@ == boot_file_name(
                    n,
                    timestamp@,
                ) && p.path@ == joined_path(logs.log_dir, p.name@) && p.counter@ == decimal(n)
            }),
            final(self).same_fixed(*old(self)),
    {
        let r = self.new_boot_log(counter, timestamp);
        self.detector.reset_cycle();
        r
    }

    /// Begins a reset: the target is booting before the button is pulsed. The
    /// reset is refused where there is no button.
    pub fn reset_target(&mut self) -> (r: Result<Vec<EngineAction>, String>)
        ensures
            match r {
                Ok(out) => old(self).channels().reset > 0 && (final(self)@, actions_of(out@))
                    == old(self)@.turn(TargetState::Booting),
                Err(e) => old(self).channels().reset == 0 && e@ == "No reset control configured"@
                    && final(self)@ == old(self)@,
            },
            final(self).same_fixed(*old(self)),
    {
        let backend = self.build_power_control();
        assert(self.channels().channel(Button::Reset) == self.channels().reset);
        if !backend.has_button(Button::Reset) {
            return Err("No reset control configured".to_owned());
        }
        Ok(self.become_booting())
    }

    /// The target is booting.
    pub fn become_booting(&mut self) -> (out: Vec<EngineAction>)
        ensures
            (final(self)@, actions_of(out@)) == old(self)@.turn(TargetState::Booting),
            final(self).same_fixed(*old(self)),
    {
        let ops = self.state.transition(TargetState::Booting);
        let mut out: Vec<EngineAction> = Vec::new();
        out.push(EngineAction::Files(ops));
        assert(actions_of(out@) =~= old(self)@.turn(TargetState::Booting).1);
        out
    }

    /// Begins a reset into the boot loader: the target is booting, then the reset
    /// is refused where there is no button.
    pub fn do_relay_reset_and_flood(&mut self) -> (r: (Vec<EngineAction>, Result<(), String>))
        ensures
            (final(self)@, actions_of(r.0@)) == old(self)@.turn(TargetState::Booting),
            match r.1 {
                Ok(_) => old(self).channels().reset > 0,
                Err(e) => old(self).channels().reset == 0 && e@ == "No reset control configured"@,
            },
            final(self).same_fixed(*old(self)),
    {
        let out = self.become_booting();
        let backend = self.build_power_control();
        assert(self.channels().channel(Button::Reset) == self.channels().reset);
        if backend.has_button(Button::Reset) {
            (out, Ok(()))
        } else {
            (out, Err("No reset control configured".to_owned()))
        }
    }

    /// The bytes sent before a reset into the boot loader.
    pub fn pre_burst(&self) -> (r: Option<Vec<u8>>)
        ensures
            r is Some <==> self@.console.connected,
            r matches Some(v) ==> v@ == seq![
                self.interrupt_char,
                self.interrupt_char,
                self.interrupt_char,
                self.interrupt_char,
            ],
    {
        if self.console.is_open() {
            let ch: u8 = self.interrupt_char;
            let mut v: Vec<u8> = Vec::new();
            v.push(ch);
            v.push(ch);
            v.push(ch);
            v.push(ch);
            assert(v@ =~= seq![ch, ch, ch, ch]);
            Some(v)
        } else {
            None
        }
    }

    /// The byte that stops the boot loader, where the line is connected.
    pub fn flood_one(&self) -> (r: Option<u8>)
        ensures
            r == (if self@.console.connected {
                Some(self.interrupt_char)
            } else {
                None
            }),
    {
        if self.console.is_open() {
            Some(self.interrupt_char)
        } else {
            None
        }
    }

    /// The steps into MASKROM mode; refused where a button is missing.
    pub fn enter_maskrom(&self) -> (r: Result<Vec<PowerStep>, String>)
        ensures
            match r {
                Ok(s) => self.channels().reset > 0 && self.channels().maskrom > 0 && s@ == seq![
                    PowerStep::Press(Button::Maskrom),
                    PowerStep::Wait(100),
                    PowerStep::Press(Button::Reset),
                    PowerStep::Wait(500),
                    PowerStep::Release(Button::Reset),
                    PowerStep::Wait(500),
                    PowerStep::Release(Button::Maskrom),
                ],
                Err(e) => if self.channels().reset == 0 {
                    e@ == "No reset control configured"@
                } else {
                    self.channels().maskrom == 0 && e@ == "MASKROM control not configured"@
                },
            },
    {
        let backend = self.build_power_control();
        assert(self.channels().channel(Button::Reset) == self.channels().reset);
        assert(self.channels().channel(Button::Maskrom) == self.channels().maskrom);
        if !backend.has_button(Button::Reset) {
            return Err("No reset control configured".to_owned());
        }
        if !backend.has_button(Button::Maskrom) {
            return Err("MASKROM control not configured".to_owned());
        }
        let mut s: Vec<PowerStep> = Vec::new();
        s.push(PowerStep::Press(Button::Maskrom));
        s.push(PowerStep::Wait(100));
        s.push(PowerStep::Press(Button::Reset));
        s.push(PowerStep::Wait(500));
        s.push(PowerStep::Release(Button::Reset));
        s.push(PowerStep::Wait(500));
        s.push(PowerStep::Release(Button::Maskrom));
        assert(s@ =~= seq![
            PowerStep::Press(Button::Maskrom),
            PowerStep::Wait(100),
            PowerStep::Press(Button::Reset),
            PowerStep::Wait(500),
            PowerStep::Release(Button::Reset),
            PowerStep::Wait(500),
            PowerStep::Release(Button::Maskrom),
        ]);
        Ok(s)
    }
}

// ── Waiting for a pattern ───────────────────────────────────────────────────

/// The newlines that are sent to provoke a prompt.
pub const MAX_PROBES: u32 = 6;

/// What follows a wait that ran out.
#[derive(Debug, Clone, Copy, PartialEq, Eq, Structural)]
pub enum WaitNext {
    /// The pattern did not come.
    GiveUp,
    /// Send a newline to provoke a prompt, and wait again.
    Probe,
}

/// The model of a `PatternWait`.
pub struct WaitView {
    pub timeout: int,
    pub probing: bool,
    pub elapsed: int,
    pub probes: int,
}

impl WaitView {
    /// How long one wait may take: a tenth where newlines are sent.
    pub open spec fn slice(self) -> int {
        if self.probing {
            self.timeout / 10
        } else {
            self.timeout
        }
    }

    /// How long the next wait takes.
    pub open spec fn next_wait(self) -> int {
        if self.slice() < self.timeout - self.elapsed {
            self.slice()
        } else {
            self.timeout - self.elapsed
        }
    }

    /// The wait gives up when its time is over or its newlines are used up.
    pub open spec fn over(self) -> bool {
        self.elapsed + self.next_wait() >= self.timeout || self.probes >= (if self.probing {
            MAX_PROBES as int
        } else {
            0
        })
    }

    /// The wait after its next wait ran out.
    pub open spec fn lapsed(self) -> WaitView {
        WaitView {
            elapsed: self.elapsed + self.next_wait(),
            probes: if self.over() {
                self.probes
            } else {
                self.probes + 1
            },
            ..self
        }
    }

    /// A wait in progress.
    pub open spec fn wf(self) -> bool {
        0 <= self.elapsed <= self.timeout && 0 <= self.probes <= MAX_PROBES
    }
}

/// A wait for a pattern, in nanoseconds. Where newlines may be sent, the wait is
/// cut into tenths, and a newline is sent after each of the first six.
pub struct PatternWait {
    timeout: u64,
    probing: bool,
    elapsed: u64,
    probes: u32,
}

impl View for PatternWait {
    type V = WaitView;

    closed spec fn view(&self) -> WaitView {
        WaitView {
            timeout: self.timeout as int,
            probing: self.probing,
            elapsed: self.elapsed as int,
            probes: self.probes as int,
        }
    }
}

impl PatternWait {
    #[verifier::type_invariant]
    spec fn in_progress(self) -> bool {
        self.elapsed <= self.timeout && self.probes <= MAX_PROBES
    }

    /// A wait that has not begun.
    pub fn new(timeout: u64, probing: bool) -> (r: Self)
        ensures
            r@ == (WaitView { timeout: timeout as int, probing, elapsed: 0, probes: 0 }),
            r@.wf(),
    {
        PatternWait { timeout, probing, elapsed: 0, probes: 0 }
    }

    /// How long the next wait takes.
    pub fn next_wait(&self) -> (r: u64)
        ensures
            r == self@.next_wait(),
            self@.wf(),
    {
        proof {
            use_type_invariant(self);
        }
        let slice: u64 = if self.probing {
            self.timeout / 10
        } else {
            self.timeout
        };
        let left: u64 = self.timeout - self.elapsed;
        if slice < left {
            slice
        } else {
            left
        }
    }

    /// The newlines sent so far.
    pub fn probes_sent(&self) -> (r: u32)
        ensures
            r == self@.probes,
    {
        self.probes
    }

    /// The next wait ran out.
    pub fn timed_out(&mut self) -> (r: WaitNext)
        ensures
            r == (if old(self)@.over() {
                WaitNext::GiveUp
            } else {
                WaitNext::Probe
            }),
            final(self)@ == old(self)@.lapsed(),
    {
        proof {
            use_type_invariant(&*self);
        }
        let wait: u64 = self.next_wait();
        let now: u64 = self.elapsed + wait;
        let limit: u32 = if self.probing {
            MAX_PROBES
        } else {
            0
        };
        self.elapsed = now;
        if now >= self.timeout || self.probes >= limit {
            return WaitNext::GiveUp;
        }
        self.probes = self.probes + 1;
        WaitNext::Probe
    }
}

/// Law: a wait in progress stays within its time and its newlines, and each wait
/// that does not give up sends exactly one newline.
pub proof fn law_wait_is_bounded(w: WaitView)
    requires
        w.wf(),
    ensures
        w.lapsed().wf(),
        0 <= w.next_wait() <= w.timeout - w.elapsed,
        !w.over() ==> w.lapsed().probes == w.probes + 1 && w.lapsed().elapsed < w.timeout,
        !w.probing ==> w.over(),
{
}

/// The pattern of the boot loader's prompt.
pub const UBOOT_PROMPT: &'static str = "=>|U-Boot[>#]";

impl SerialEngine {
    /// Watches for a pattern on a channel.
    pub fn queue_wait_pattern(&mut self, pattern: &str, channel: u64)
        ensures
            final(self)@ == (EngineView {
                detector: DetectorView {
                    watchers: if bytes_pattern_valid(pattern@) {
                        old(self)@.detector.watchers.push(
                            WatcherView {
                                pattern: pattern@,
                                pattern_index: 0,
                                sender: channel,
                                group: false,
                            },
                        )
                    } else {
                        old(self)@.detector.watchers
                    },
                    ..old(self)@.detector
                },
                ..old(self)@
            }),
            final(self).same_fixed(*old(self)),
    {
        self.detector.add_watcher(pattern, channel);
    }

    /// Watches for the boot loader's prompt on a channel.
    pub fn queue_enter_uboot(&mut self, channel: u64)
        ensures
            final(self)@ == (EngineView {
                detector: DetectorView {
                    watchers: if bytes_pattern_valid(UBOOT_PROMPT@) {
                        old(self)@.detector.watchers.push(
                            WatcherView {
                                pattern: UBOOT_PROMPT@,
                                pattern_index: 0,
                                sender: channel,
                                group: false,
                            },
                        )
                    } else {
                        old(self)@.detector.watchers
                    },
                    ..old(self)@.detector
                },
                ..old(self)@
            }),
            final(self).same_fixed(*old(self)),
    {
        self.detector.add_watcher(UBOOT_PROMPT, channel);
    }
}

// ── Commands and raw output ─────────────────────────────────────────────────

impl EngineView {
    /// Output that was read outside of the read loop: it counts as activity and
    /// goes to the logs and the detector, not to the commands.
    pub open spec fn observed(self, data: Seq<u8>, t: Times) -> (EngineView, Seq<ActionView>) {
        let v = EngineView { state: self.state.on_activity(t.state as int), ..self };
        let (v, clean) = v.filtered(data);
        v.absorbed(clean, t.detector as int)
    }

    /// Bytes queued for the console.
    pub open spec fn sent(self, data: Seq<u8>) -> EngineView {
        EngineView {
            console: ConsoleView { queue: enqueued(self.console.queue, data), ..self.console },
            ..self
        }
    }
}

impl SerialEngine {
    /// Runs a command; its result comes under the returned number.
    pub fn queue_command(&mut self, command: &str, timeout: u64) -> (id: u64)
        requires
            old(self)@.commands.wf(),
            old(self)@.commands.next_id < u64::MAX,
        ensures
            id == old(self)@.commands.next_id,
            exists|marker: Seq<char>, now: u64|
                crate::marker::is_marker(marker) && final(self)@ == (EngineView {
                    commands: #[trigger] old(self)@.commands.execute(
                        command@,
                        timeout as int,
                        marker,
                        now as int,
                    ),
                    ..old(self)@
                }),
            final(self)@.commands.wf(),
            final(self).same_fixed(*old(self)),
    {
        self.commands.execute(command.to_owned(), timeout)
    }

    /// Queues bytes as they are and says how many there are.
    pub fn send_raw(&mut self, data: &str) -> (r: usize)
        ensures
            final(self)@ == old(self)@.sent(encode_utf8(data@)),
            r == encode_utf8(data@).len(),
            final(self).same_fixed(*old(self)),
    {
        let bytes = copy_bytes(data.as_bytes());
        let n: usize = bytes.len();
        self.console.enqueue(bytes);
        n
    }

    /// Sends a command to the boot loader as a plain line.
    pub fn send_uboot_command(&mut self, command: &str)
        ensures
            final(self)@ == old(self)@.line(command@),
            final(self).same_fixed(*old(self)),
    {
        self.console.sendline(command);
    }

    /// Takes in output that was read outside of the read loop.
    pub fn observe_at(&mut self, data: &[u8], t: Times) -> (r: (Vec<EngineAction>, Vec<u8>))
        ensures
            (final(self)@, actions_of(r.0@)) == old(self)@.observed(data@, t),
            r.1@ == banner_free(old(self)@.partial, data@),
            final(self).same_fixed(*old(self)),
    {
        let mut out: Vec<EngineAction> = Vec::new();
        assert(actions_of(out@) =~= Seq::<ActionView>::empty());
        self.state.on_activity_at(t.state);
        let clean = crate::serial_engine::strip_ser2net_banner(&mut self.partial, data);
        let ghost v = self@;
        self.absorb(&clean, t.detector, &mut out);
        assert(actions_of(out@) =~= v.absorbed(clean@, t.detector as int).1);
        (out, clean)
    }

    /// Takes in what the boot loader answered; the answer is returned as text.
    pub fn on_uboot_output_at(&mut self, data: &[u8], t: Times) -> (r: (Vec<EngineAction>, String))
        ensures
            data@.len() == 0 ==> r.0@.len() == 0 && r.1@.len() == 0 && final(self)@ == old(self)@,
            data@.len() > 0 ==> (final(self)@, actions_of(r.0@)) == old(self)@.observed(data@, t)
                && r.1@ == trim(utf8_lossy(banner_free(old(self)@.partial, data@))),
            final(self).same_fixed(*old(self)),
    {
        if data.len() == 0 {
            return (Vec::new(), String::new());
        }
        let (out, clean) = self.observe_at(data, t);
        (out, trim_text(&lossy_text(&clean)))
    }
}

// ── Reports ─────────────────────────────────────────────────────────────────

/// What the engine says of itself. Times are nanoseconds.
pub struct StateReport {
    pub state: &'static str,
    pub boot_number: u32,
    pub last_data_nanos: u64,
    pub log_path: String,
    pub relay_configured: bool,
    pub login_configured: bool,
    pub uptime_nanos: u64,
    pub command_count: u64,
    pub error_count: u64,
    pub pending_commands: usize,
}

impl EngineView {
    /// The part of a log of the given size that was not polled yet: where it
    /// starts and how long it is. None where there is no log or nothing new.
    pub open spec fn unpolled(self, size: Option<u64>) -> Option<(nat, nat)> {
        match size {
            Some(n) => if self.logs.current_path is Some && n > self.poll_position {
                Some((self.poll_position, (n - self.poll_position) as nat))
            } else {
                None
            },
            None => None,
        }
    }

    /// The engine after the log was polled up to `size`.
    pub open spec fn polled(self, size: u64) -> EngineView {
        EngineView { poll_position: size as nat, ..self }
    }
}

/// Law: polls follow each other without a gap. What one poll took is not taken
/// again, and the next one starts where it ended.
pub proof fn law_polls_are_consecutive(v: EngineView, size: u64, later: u64)
    requires
        v.unpolled(Some(size)) is Some,
    ensures
        ({
            let (start, length) = v.unpolled(Some(size))->0;
            let next = v.polled(size).unpolled(Some(later));
            &&& start + length == size
            &&& next matches Some(part) ==> part.0 == start + length && part.0 + part.1 == later
            &&& next is None <==> later <= size
        }),
{
}

impl SerialEngine {
    /// What the engine says of itself at `now`. The state is empty while it is
    /// not to be shown.
    pub fn get_state_at(&self, now: u64) -> (r: StateReport)
        ensures
            r.state@ == (if self@.state.current.external() {
                self@.state.current.name()
            } else {
                Seq::empty()
            }),
            r.boot_number == self@.logs.boot_number,
            r.last_data_nanos == elapsed(now as int, self@.state.last_data_time),
            r.log_path@ == (match self@.logs.current_path {
                Some(p) => p,
                None => Seq::empty(),
            }),
            r.relay_configured == self.relay.ready(),
            r.login_configured == (self@.login_user.len() > 0),
            r.uptime_nanos == now,
            r.command_count == self@.state.command_count,
            r.error_count == self@.state.error_count,
            r.pending_commands == self@.commands.pending.len(),
    {
        proof {
            reveal_strlit("");
            assert(""@ =~= Seq::<char>::empty());
        }
        let state = match self.state.external_state() {
            Some(s) => s.as_str(),
            None => "",
        };
        let log_path = match self.logs.current_path() {
            Some(p) => p.clone(),
            None => String::new(),
        };
        StateReport {
            state,
            boot_number: self.logs.boot_number(),
            last_data_nanos: self.state.last_data_elapsed_at(now),
            log_path,
            relay_configured: self.relay.configured(),
            login_configured: !self.login_user.as_str().is_empty(),
            uptime_nanos: now,
            command_count: self.state.command_count(),
            error_count: self.state.error_count(),
            pending_commands: self.commands.pending_len(),
        }
    }

    /// The part of the log that was not polled yet: where it starts and how long
    /// it is. None where there is no log or nothing new.
    pub fn poll_range(&self, size: Option<u64>) -> (r: Option<(u64, u64)>)
        ensures
            match r {
                Some(part) => self@.unpolled(size) == Some((part.0 as nat, part.1 as nat)),
                None => self@.unpolled(size) is None,
            },
    {
        if self.logs.current_path().is_none() {
            return None;
        }
        match size {
            Some(n) => if n > self.poll_position {
                Some((self.poll_position, n - self.poll_position))
            } else {
                None
            },
            None => None,
        }
    }

    /// Takes in the part of the log that was read, up to `size`, as lines.
    pub fn poll_logs(&mut self, size: u64, data: &[u8]) -> (r: Vec<String>)
        ensures
            texts(r@) == lines(utf8_lossy(data@)),
            final(self)@ == old(self)@.polled(size),
            final(self).same_fixed(*old(self)),
    {
        self.poll_position = size;
        lines_of(&lossy_text(data))
    }

    /// Where unclassified lines are kept, below the target's directory.
    pub fn unclassified_path(&self) -> (r: String)
        ensures
            r@ == without_end(
                first_text(lookup(self.config.values@, "DUT_DIR"@), ".dut-serial"@),
                '/',
            ) + "/unclassified.log"@,
    {
        let dir = self.config.dut_dir();
        cat(&drop_end(&dir, '/'), "/unclassified.log")
    }

    /// Reports the lines that no stage claimed.
    pub fn get_unclassified(&self, lines: Vec<String>) -> (r: UnclassifiedReport)
        ensures
            r.lines@ == lines@,
            r.count == lines@.len(),
            r.log_path@ == without_end(
                first_text(lookup(self.config.values@, "DUT_DIR"@), ".dut-serial"@),
                '/',
            ) + "/unclassified.log"@,
            r.message is Some <==> lines@.len() == 0,
            r.message matches Some(m) ==> m@ == NOTHING_UNCLASSIFIED@,
    {
        let count: usize = lines.len();
        let message = if count == 0 {
            Some(NOTHING_UNCLASSIFIED)
        } else {
            None
        };
        UnclassifiedReport { lines, count, log_path: self.unclassified_path(), message }
    }

    /// The archived logs, newest first, and the path of the current one, empty
    /// where there is none.
    pub fn list_logs(&self, files: Vec<LogFileInfo>) -> (r: (Vec<ArchiveInfo>, String))
        ensures
            are_archives(r.0@, files@),
            r.1@ == match self@.logs.current_path {
                Some(path) => path,
                None => Seq::empty(),
            },
    {
        let current = match self.logs.current_path() {
            Some(path) => path.clone(),
            None => {
                proof {
                    reveal_strlit("");
                }
                let none = "".to_owned();
                assert(none@ =~= Seq::<char>::empty());
                none
            },
        };
        (list_archives(files), current)
    }

    /// The configuration, entry by entry.
    pub fn get_config(&self) -> (r: Vec<(String, String)>)
        ensures
            listed(r@) == self.config.values@,
    {
        self.config.values.entries()
    }
}

/// What is said where every line of the boot was classified.
pub const NOTHING_UNCLASSIFIED: &'static str =
    "No unclassified lines. StageLearner is matching all boot output, or no reference log is loaded.";

/// The lines that no stage claimed.
pub struct UnclassifiedReport {
    pub lines: Vec<String>,
    pub count: usize,
    /// Where such lines are kept.
    pub log_path: String,
    pub message: Option<&'static str>,
}

/// The text without a character at its end, however often it stands there.
pub open spec fn without_end(s: Seq<char>, c: char) -> Seq<char>
    decreases s.len(),
{
    if s.len() > 0 && s.last() == c {
        without_end(s.drop_last(), c)
    } else {
        s
    }
}

fn drop_end(s: &str, c: char) -> (r: String)
    ensures
        r@ == without_end(s@, c),
{
    let v = crate::text::chars_of(s);
    let mut n: usize = v.len();
    assert(v@.subrange(0, n as int) =~= v@);
    while n > 0 && v[n - 1] == c
        invariant
            n <= v@.len(),
            without_end(v@, c) == without_end(v@.subrange(0, n as int), c),
        decreases n,
    {
        assert(v@.subrange(0, n as int).drop_last() =~= v@.subrange(0, n - 1));
        n = n - 1;
    }
    crate::text::string_of_range(&v, 0, n)
}

// ── The reference log ───────────────────────────────────────────────────────

/// The lines to be appended to the reference log: trimmed, blank ones left out.
pub fn reference_lines(text: &str) -> (r: Vec<String>)
    ensures
        texts(r@) == nonblank(lines(text@)),
{
    let ls = lines_of(text);
    let ghost all = texts(ls@);
    let mut r: Vec<String> = Vec::new();
    let mut i: usize = 0;
    assert(texts(r@) =~= nonblank(all.subrange(0, 0)));
    while i < ls.len()
        invariant
            i <= ls@.len(),
            all == texts(ls@),
            texts(r@) == nonblank(all.subrange(0, i as int)),
        decreases ls@.len() - i,
    {
        let ghost t = all.subrange(0, i + 1);
        assert(t.drop_last() =~= all.subrange(0, i as int));
        assert(t.last() == ls@[i as int]@);
        let line = trim_text(&ls[i]);
        if !line.as_str().is_empty() {
            let ghost before = r@;
            r.push(line);
            assert(texts(r@) =~= texts(before).push(trim(t.last())));
        }
        i = i + 1;
    }
    assert(all.subrange(0, all.len() as int) =~= all);
    r
}

impl SerialEngine {
    /// Where the reference log is; an error where none is configured.
    pub fn append_reference(&self) -> (r: Result<String, String>)
        ensures
            ({
                let log = lookup(self.config.values@, "REFERENCE_LOG"@);
                match r {
                    Ok(p) => log.len() > 0 && p@ == log,
                    Err(e) => log.len() == 0 && e@
                        == "No reference_log configured. Add `reference_log` to .target.toml."@,
                }
            }),
    {
        let log = self.config.reference_log();
        if log.as_str().is_empty() {
            return Err(
                "No reference_log configured. Add `reference_log` to .target.toml.".to_owned(),
            );
        }
        Ok(log)
    }

    // ── Learning ────────────────────────────────────────────────────────────

    /// How to learn the connection: below the target's directory, with the
    /// configured reference log where there is one.
    pub fn learn_config(&self) -> (r: LearnConfig)
        ensures
            ({
                let dir = first_text(lookup(self.config.values@, "DUT_DIR"@), ".dut-serial"@);
                let log = lookup(self.config.values@, "REFERENCE_LOG"@);
                &&& r.learn_dir@ == joined_path(dir, "learn"@)
                &&& r.reference_log@ == (if log.len() > 0 {
                    log
                } else {
                    joined_path(dir, "reference-boot.log"@)
                })
                &&& r.similarity_threshold == 930_000
                &&& r.relay_broken_threshold == 100_000
                &&& r.cycles == 3
                &&& r.compare_lines == 50
                &&& r.reset_pulse_ms == 500
                &&& r.capture_timeout_secs == 30
            }),
    {
        let dir = self.config.dut_dir();
        let log = self.config.reference_log();
        let mut cfg = LearnConfig::default();
        cfg.learn_dir = join_path(&dir, "learn");
        cfg.reference_log = if log.as_str().is_empty() {
            join_path(&dir, "reference-boot.log")
        } else {
            log
        };
        cfg
    }

    /// Begins one hardware restart: the target is booting. Refused where there is
    /// no reset button; learning then ends with what was captured so far.
    pub fn learn_connection_hardware(&mut self, cycles: Vec<LearnCycle>) -> (r: Result<
        (Vec<LearnCycle>, Vec<EngineAction>),
        LearnResult,
    >)
        ensures
            match r {
                Ok(p) => old(self).channels().reset > 0 && p.0@ == cycles@ && (
                    final(self)@,
                    actions_of(p.1@),
                ) == old(self)@.turn(TargetState::Booting),
                Err(e) => old(self).channels().reset == 0 && final(self)@ == old(self)@
                    && e.cycles@ == cycles@ && !e.connected && e.best_similarity == 0
                    && e.reference_log is None && e.method == LearnMethod::HardwareReset
                    && !e.relay_verified && e.error == Some(LearnError::NotConfigured),
            },
            final(self).same_fixed(*old(self)),
    {
        let backend = self.build_power_control();
        assert(self.channels().channel(Button::Reset) == self.channels().reset);
        if !backend.has_button(Button::Reset) {
            return Err(failed_learning(cycles, LearnError::NotConfigured));
        }
        Ok((cycles, self.become_booting()))
    }

    /// Begins one software restart: the target is booting and told to reboot.
    pub fn learn_connection_software(&mut self) -> (out: Vec<EngineAction>)
        ensures
            ({
                let (v, a) = old(self)@.turn(TargetState::Booting);
                final(self)@ == v.line("reboot"@) && actions_of(out@) == a
            }),
            final(self).same_fixed(*old(self)),
    {
        let out = self.become_booting();
        self.console.sendline("reboot");
        out
    }
}

/// Learning by hardware resets that ended early.
pub fn failed_learning(cycles: Vec<LearnCycle>, error: LearnError) -> (r: LearnResult)
    ensures
        r.cycles@ == cycles@,
        !r.connected,
        r.best_similarity == 0,
        r.reference_log is None,
        r.method == LearnMethod::HardwareReset,
        !r.relay_verified,
        r.error == Some(error),
{
    LearnResult {
        connected: false,
        cycles,
        best_similarity: 0,
        reference_log: None,
        method: LearnMethod::HardwareReset,
        relay_verified: false,
        error: Some(error),
    }
}

/// The log of a software restart: what was captured behind a line that says
/// "reboot".
pub fn reboot_log(captured: &[u8]) -> (r: Vec<u8>)
    ensures
        r@ == encode_utf8("reboot\n"@) + captured@,
{
    let mut r = copy_bytes("reboot\n".as_bytes());
    append_bytes(&mut r, captured);
    r
}

/// What the capture of a boot does next.
#[derive(Debug, Clone, Copy, PartialEq, Eq, Structural)]
pub enum CaptureNext {
    /// Read again, for at most so many nanoseconds.
    Read(u64),
    /// The capture is over.
    Done,
}

/// The silence after which a boot is taken to be over.
pub const CAPTURE_SILENCE: u64 = 5_000_000_000;

/// Captures the output of a boot, until its time is over or the target is
/// silent. Times are nanoseconds since the capture began.
pub struct BootCapture {
    pub timeout: u64,
    pub last_data: u64,
    pub captured: Vec<u8>,
}

impl BootCapture {
    pub fn new(timeout: u64) -> (r: Self)
        ensures
            r.timeout == timeout,
            r.last_data == 0,
            r.captured@ == Seq::<u8>::empty(),
    {
        BootCapture { timeout, last_data: 0, captured: Vec::new() }
    }

    /// What to do at `now`: a read takes at most half a second.
    pub fn next(&self, now: u64) -> (r: CaptureNext)
        ensures
            r == (if now >= self.timeout {
                CaptureNext::Done
            } else if self.timeout - now < 500_000_000 {
                CaptureNext::Read((self.timeout - now) as u64)
            } else {
                CaptureNext::Read(500_000_000)
            }),
    {
        if now >= self.timeout {
            CaptureNext::Done
        } else {
            let left: u64 = self.timeout - now;
            if left < 500_000_000 {
                CaptureNext::Read(left)
            } else {
                CaptureNext::Read(500_000_000)
            }
        }
    }

    /// A read ended at `now`. Returns whether the capture goes on: output always
    /// goes on, silence of more than five seconds and a failed read do not.
    pub fn on_read(&mut self, data: Option<&[u8]>, now: u64) -> (r: bool)
        ensures
            final(self).timeout == old(self).timeout,
            match data {
                Some(d) => if d@.len() > 0 {
                    r && final(self).captured@ == old(self).captured@ + d@ && final(self).last_data
                        == now
                } else {
                    r == (elapsed(now as int, old(self).last_data as int) <= CAPTURE_SILENCE)
                        && final(self).captured@ == old(self).captured@ && final(self).last_data
                        == old(self).last_data
                },
                None => !r && final(self).captured@ == old(self).captured@ && final(self).last_data
                    == old(self).last_data,
            },
    {
        match data {
            Some(d) => {
                if d.len() > 0 {
                    append_bytes(&mut self.captured, d);
                    self.last_data = now;
                    true
                } else {
                    now.saturating_sub(self.last_data) <= CAPTURE_SILENCE
                }
            },
            None => false,
        }
    }
}

/// Law: a button and what is done with it are told by their names; a pulse without a
/// length takes half a second.
pub proof fn law_buttons_are_named(name: Seq<char>, ms: u64)
    ensures
        button_named(name) == Some(Button::Reset) <==> name == "reset"@,
        button_named(name) == Some(Button::Maskrom) <==> name == "maskrom"@,
        button_named(name) == Some(Button::Recovery) <==> name == "recovery"@,
        forall|b: Button| button_named(#[trigger] b.name()) == Some(b),
        action_named(name, None) == Some(ButtonAction::Press) <==> name == "press"@,
        action_named(name, None) == Some(ButtonAction::Release) <==> name == "release"@,
        name == "pulse"@ ==> action_named(name, None) == Some(ButtonAction::Pulse(500))
            && action_named(name, Some(ms)) == Some(ButtonAction::Pulse(ms)),
        name != "press"@ && name != "release"@ && name != "pulse"@ ==> action_named(name, Some(ms))
            is None,
{
    reveal_strlit("reset");
    reveal_strlit("maskrom");
    reveal_strlit("recovery");
    reveal_strlit("press");
    reveal_strlit("release");
    reveal_strlit("pulse");
    assert("press"@[1] == 'r' && "pulse"@[1] == 'u');
    assert("press"@.len() == 5 && "pulse"@.len() == 5 && "release"@.len() == 7);
    assert("reset"@.len() == 5 && "maskrom"@.len() == 7 && "recovery"@.len() == 8);
}

/// Law: the channels of an engine's buttons are those of its relay and of its
/// configuration, each under its own name; a program that is configured takes the
/// place of the relay board.
pub proof fn law_backends_hold_the_channels(e: SerialEngine, b: PowerControlBackend)
    ensures
        e.channels().reset == e.relay.reset_ch,
        e.channels().maskrom == e.relay.maskrom_ch,
        e.channels().recovery == number(e.config.values@, "RECOVERY_CHANNEL"@, 255, 0),
        e.is_backend(b) ==> {
            let program = lookup(e.config.values@, "DEV_CTL"@);
            &&& program.len() > 0 ==> e.backend_name() == "external-dev-ctl"@ && (
            b matches PowerControlBackend::External(c) && c.program@ == program && c.channels
                == e.channels() && (lookup(e.config.values@, "DUT_ALIAS"@).len() > 0
                ==> c.dut_alias@ == lookup(e.config.values@, "DUT_ALIAS"@)) && (lookup(
                e.config.values@,
                "DUT_ALIAS"@,
            ).len() == 0 ==> c.dut_alias@ == "default"@))
            &&& program.len() == 0 ==> e.backend_name() == "ch340-relay"@ && (
            b matches PowerControlBackend::Ch340(c) && c.host@ == e.relay_host@ && c.port
                == e.relay.port && c.channels == e.channels() && !c.inverted)
        },
{
    lemma_channel_fits(e.config.values@);
}

proof fn lemma_channel_fits(m: crate::config::Values)
    ensures
        number(m, "RECOVERY_CHANNEL"@, 255, 0) <= 255,
{
    crate::config::lemma_number_bounded(m, "RECOVERY_CHANNEL"@, 255, 0);
}

/// Law: a new boot takes the next number where there was output since the last, closes
/// the running file and begins behind what was collected.
pub proof fn law_next_boot(v: LogView, n: nat)
    ensures
        v.boot_data().len() > 0 ==> v.next_boot(n).boot_number == n,
        v.boot_data().len() == 0 ==> v.next_boot(n).boot_number == v.boot_number,
        !v.next_boot(n).current_open,
        v.next_boot(n).boot_data().len() == 0,
        v.next_boot(n).ring_buffer == v.ring_buffer,
        v.next_boot(n).current_path == v.current_path,
{
}

/// Law: a wait that probes is cut into tenths, with a probe after each, six at most; one
/// that does not is a single wait.
pub proof fn law_waits_are_cut(w: WaitView)
    requires
        w.wf(),
    ensures
        w.probing && w.timeout - w.elapsed > w.timeout / 10 ==> w.next_wait() == w.timeout / 10,
        w.timeout - w.elapsed <= w.timeout / 10 || !w.probing && w.elapsed == 0 ==> w.next_wait()
            == w.timeout - w.elapsed,
        w.probing && w.probes < 6 && w.elapsed + w.next_wait() < w.timeout ==> !w.over()
            && w.lapsed().probes == w.probes + 1,
        w.probes >= 6 || !w.probing || w.elapsed + w.next_wait() >= w.timeout ==> w.over()
            && w.lapsed().probes == w.probes,
        w.lapsed().elapsed == w.elapsed + w.next_wait(),
        w.lapsed().timeout == w.timeout && w.lapsed().probing == w.probing,
{
}

/// Law: a poll reads from where the last one ended up to the end of the log, and nothing
/// where there is no more.
pub proof fn law_polls_read_what_is_new(v: EngineView, size: u64)
    ensures
        v.logs.current_path is Some && size > v.poll_position ==> v.unpolled(Some(size)) == Some(
            (v.poll_position, (size - v.poll_position) as nat),
        ),
        v.logs.current_path is None || size <= v.poll_position ==> v.unpolled(Some(size)) is None,
        v.unpolled(None) is None,
        v.polled(size).poll_position == size,
{
}

/// Law: what ends a text is dropped from its end alone.
pub proof fn law_ends_are_dropped(s: Seq<char>, c: char)
    ensures
        without_end(s.push(c), c) == without_end(s, c),
        s.len() == 0 || s.last() != c ==> without_end(s, c) == s,
{
    assert(s.push(c).drop_last() =~= s);
}

/// Law: bytes that are sent go behind those that wait, and change nothing else.
pub proof fn law_bytes_are_queued(v: EngineView, data: Seq<u8>)
    ensures
        v.sent(data).console.queue == enqueued(v.console.queue, data),
        v.sent(data).state == v.state,
        v.sent(data).detector == v.detector,
        v.sent(data).logs == v.logs,
{
}

/// Law: what is observed keeps the target awake and goes through the same filter as all
/// output.
pub proof fn law_observed_output(v: EngineView, data: Seq<u8>, t: Times)
    ensures
        ({
            let awake = EngineView { state: v.state.on_activity(t.state as int), ..v };
            let (w, clean) = awake.filtered(data);
            v.observed(data, t) == w.absorbed(clean, t.detector as int)
        }),
{
}

/// Which buttons are pressed after the first `k` steps.
pub open spec fn pressed_after(steps: Seq<PowerStep>, k: int) -> Set<Button>
    decreases k,
{
    if k <= 0 {
        Set::empty()
    } else {
        let before = pressed_after(steps, k - 1);
        match steps[k - 1] {
            PowerStep::Press(b) => before.insert(b),
            PowerStep::Release(b) => before.remove(b),
            PowerStep::Wait(_) => before,
        }
    }
}

/// Law: the mask ROM is entered by a reset while its button is held, and no button stays
/// pressed.
#[verifier::rlimit(50)]
pub proof fn law_entering_maskrom(e: SerialEngine, r: Result<Vec<PowerStep>, String>, k: int)
    requires
        call_ensures(SerialEngine::enter_maskrom, (&e,), r),
    ensures
        r is Ok <==> e.channels().reset > 0 && e.channels().maskrom > 0,
        r matches Ok(s) ==> {
            &&& pressed_after(s@, s@.len() as int) == Set::<Button>::empty()
            &&& 0 <= k <= s@.len() && pressed_after(s@, k).contains(Button::Reset)
                ==> pressed_after(s@, k).contains(Button::Maskrom)
            &&& exists|i: int| 0 <= i < s@.len() && #[trigger] s@[i] == PowerStep::Press(Button::Reset)
            &&& 0 <= k < s@.len() && s@[k] == PowerStep::Wait(100) ==> pressed_after(s@, k)
                == Set::<Button>::empty().insert(Button::Maskrom)
            &&& 0 <= k <= s@.len() ==> !pressed_after(s@, k).contains(Button::Recovery)
        },
        r matches Err(x) ==> x@ == (if e.channels().reset == 0 {
            "No reset control configured"@
        } else {
            "MASKROM control not configured"@
        }),
{
    if let Ok(s) = r {
        reveal_with_fuel(pressed_after, 8);
        assert(pressed_after(s@, 7) =~= Set::<Button>::empty());
        assert(pressed_after(s@, 1) =~= Set::<Button>::empty().insert(Button::Maskrom));
        assert(s@[2] == PowerStep::Press(Button::Reset));
        assert(s@.len() == 7);
    }
}

/// Law: a button is operated where it is known, has a channel, and the action is known.
pub proof fn law_operating_a_button(
    e: SerialEngine,
    button: &str,
    action: &str,
    ms: Option<u64>,
    r: Result<(Button, ButtonAction), String>,
)
    requires
        call_ensures(SerialEngine::control_button, (&e, button, action, ms), r),
    ensures
        r matches Ok(x) ==> x.0.name() == button@ && e.channels().channel(x.0) > 0,
        r matches Ok(x) ==> (x.1 == ButtonAction::Press <==> action@ == "press"@) && (x.1
            == ButtonAction::Release <==> action@ == "release"@) && (x.1 is Pulse <==> action@
            == "pulse"@),
        r matches Ok((_, ButtonAction::Pulse(t))) ==> t == (match ms {
            Some(n) => n,
            None => 500,
        }),
        r is Err <==> button_named(button@) is None || e.channels().channel(
            button_named(button@)->0,
        ) == 0 || action_named(action@, ms) is None,
{
    reveal_strlit("press");
    reveal_strlit("release");
    reveal_strlit("pulse");
    assert("press"@[1] == 'r' && "pulse"@[1] == 'u');
    assert("press"@.len() == 5 && "pulse"@.len() == 5 && "release"@.len() == 7);
}

/// Law: a capture reads on until its time is over, half a second at a time.
pub proof fn law_capturing(c: BootCapture, now: u64, r: CaptureNext)
    requires
        call_ensures(BootCapture::next, (&c, now), r),
    ensures
        r is Done <==> now >= c.timeout,
        r matches CaptureNext::Read(t) ==> t <= 500_000_000 && now + t <= c.timeout && (t
            == 500_000_000 || now + t == c.timeout),
{
}

/// Law: what is captured grows by what is read; a capture goes on through five seconds of
/// silence and ends where the line is gone.
pub proof fn law_capture_grows(c: &mut BootCapture, data: Option<&[u8]>, now: u64, r: bool)
    requires
        call_ensures(BootCapture::on_read, (c, data, now), r),
    ensures
        data is None ==> !r && final(c).captured@ == old(c).captured@,
        data matches Some(d) ==> final(c).captured@ == old(c).captured@ + d@,
        data matches Some(d) ==> d@.len() > 0 ==> r && final(c).last_data == now,
        data matches Some(d) ==> d@.len() == 0 && now >= old(c).last_data ==> (r <==> now
            - old(c).last_data <= 5_000_000_000),
        final(c).timeout == old(c).timeout,
{
    if let Some(d) = data {
        if d@.len() == 0 {
            assert(old(c).captured@ + d@ =~= old(c).captured@);
        }
    }
}

/// Law: a relay is reported as it answered: verified where it read back, responding where
/// that is not supported, and otherwise by its error.
pub proof fn law_verifying_a_relay(
    e: SerialEngine,
    outcome: &Result<bool, String>,
    r: VerifyReport,
)
    requires
        call_ensures(SerialEngine::verify_relay, (&e, outcome), r),
    ensures
        r.relay_configured <==> e.channels().reset > 0 || e.channels().maskrom > 0
            || e.channels().recovery > 0,
        r.verified <==> r.relay_configured && *outcome == Ok::<bool, String>(true),
        r.success <==> r.relay_configured && *outcome is Ok,
        r.relay_configured && *outcome is Err ==> r.text@ == outcome->Err_0@,
        !r.relay_configured ==> r.text@ == "No power control configured"@,
{
    let c = e.channels();
    assert(c.channel(Button::Reset) == c.reset);
    assert(c.channel(Button::Maskrom) == c.maskrom);
    assert(c.channel(Button::Recovery) == c.recovery);
}

/// Law: a reset is refused without a channel, and otherwise the target is booting.
pub proof fn law_resetting(e: &mut SerialEngine, r: Result<Vec<EngineAction>, String>)
    requires
        call_ensures(SerialEngine::reset_target, (e,), r),
    ensures
        r is Ok <==> old(e).channels().reset > 0,
        r is Ok ==> final(e)@.state.current == TargetState::Booting,
        r is Err ==> final(e)@ == old(e)@,
{
}

/// Law: the loader is flooded with the interrupt byte, four at first, where the line is
/// connected.
pub proof fn law_flooding(e: SerialEngine, b: Option<Vec<u8>>, f: Option<u8>, i: int)
    requires
        call_ensures(SerialEngine::pre_burst, (&e,), b),
        call_ensures(SerialEngine::flood_one, (&e,), f),
    ensures
        b is Some <==> e@.console.connected,
        f is Some <==> e@.console.connected,
        f matches Some(x) ==> x == e.interrupt_char,
        b matches Some(v) ==> v@.len() == 4 && (0 <= i < 4 ==> v@[i] == e.interrupt_char),
{
}

} // verus!
