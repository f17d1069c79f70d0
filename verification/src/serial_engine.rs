//! The serial engine: console, logs, boot detection, state, commands and power
//! control of one target.
//!
//! The engine is driven from outside. Each step takes what was read or what
//! happened, changes the engine, and returns the actions that are to be carried
//! out.

use crate::boot_detector::{
    events_of, BootEvent, BootStageDetector, CycleFlags, DetectorView, EventView, LOGIN_PATTERN,
};
use crate::bridge::{
    bytes_pattern_replaced, bytes_pattern_valid, lossy_text, replace_bytes, utf8_lossy,
};
use crate::command_queue::{CommandQueue, QueueView};
use crate::config::{
    first_text, host_ip, interrupt_byte, lookup, number, serial_target_of, Config, Values,
};
use crate::console::{enqueued, ConsoleView, SerialConsoleDriver};
use crate::log_manager::{cleaned, LogManager, LogView};
use crate::reconnect::{ReconnectManager, ReconnectView};
use crate::relay_manager::RelayManager;
use crate::state_manager::{
    elapsed, file_ops, FileOp, FileOpView, StateManager, StateView, TargetState, SECOND,
};
use crate::text::{
    append_bytes, bytes_range, cat, cat3, clone_texts, contains_text, copy_bytes, eq_text,
    find_bytes, find_seq, join_path, join_texts, joined, joined_path, lemma_line_stop,
    lemma_line_stop_concat, lemma_line_stop_shift, line_stop, occurs, text_option, texts,
};
use vstd::prelude::*;
use vstd::string::*;
use vstd::utf8::encode_utf8;

verus! {

// ── Cleaning output ─────────────────────────────────────────────────────────

/// Where the whole lines of output end: behind the last line feed.
pub open spec fn whole_end(s: Seq<u8>) -> int
    decreases s.len(),
{
    if s.len() == 0 {
        0
    } else if s.last() == 10 {
        s.len() as int
    } else {
        whole_end(s.drop_last())
    }
}

/// The line is a banner of ser2net.
pub open spec fn is_banner(line: Seq<u8>) -> bool {
    occurs(line, encode_utf8("ser2net port"@))
}

/// Output from an index on without banner lines. Every other line stays as it is,
/// with its line end.
pub open spec fn without_banner(s: Seq<u8>, from: int) -> Seq<u8>
    decreases s.len() - from,
{
    let stop = line_stop(s, from);
    if from < 0 || from >= s.len() || stop <= from || stop > s.len() {
        Seq::empty()
    } else {
        let line = s.subrange(from, stop);
        (if is_banner(line) {
            Seq::empty()
        } else {
            line
        }) + without_banner(s, stop)
    }
}

/// What a chunk leaves over for the next one: its incomplete last line.
pub open spec fn left_over(partial: Seq<u8>, data: Seq<u8>) -> Seq<u8> {
    (partial + data).skip(whole_end(partial + data))
}

/// The whole lines of a chunk, with what the chunk before left over, that are no
/// banner.
pub open spec fn banner_free(partial: Seq<u8>, data: Seq<u8>) -> Seq<u8> {
    without_banner((partial + data).take(whole_end(partial + data)), 0)
}

proof fn lemma_whole_end(s: Seq<u8>)
    ensures
        0 <= whole_end(s) <= s.len(),
        whole_end(s) > 0 ==> s[whole_end(s) - 1] == 10,
        forall|i: int| whole_end(s) <= i < s.len() ==> #[trigger] s[i] != 10,
    decreases s.len(),
{
    if s.len() > 0 && s.last() != 10 {
        lemma_whole_end(s.drop_last());
        assert forall|i: int| whole_end(s) <= i < s.len() implies #[trigger] s[i] != 10 by {
            if i < s.len() - 1 {
                assert(s.drop_last()[i] == s[i]);
            }
        }
    }
}

/// Where the whole lines end is fixed by the last line feed.
proof fn lemma_whole_end_is(s: Seq<u8>, e: int)
    requires
        0 <= e <= s.len(),
        e > 0 ==> s[e - 1] == 10,
        forall|i: int| e <= i < s.len() ==> #[trigger] s[i] != 10,
    ensures
        whole_end(s) == e,
{
    lemma_whole_end(s);
    let w = whole_end(s);
    if w < e {
        assert(s[e - 1] != 10);
    } else if e < w {
        assert(s[w - 1] != 10);
    }
}

/// Whether the line is a banner of ser2net.
fn is_banner_line(line: &[u8]) -> (r: bool)
    ensures
        r == is_banner(line@),
{
    find_bytes(line, "ser2net port".as_bytes()).is_some()
}

/// Takes the banner lines of ser2net out of a chunk. An incomplete last line is
/// kept in `partial` and put in front of the next chunk.
pub fn strip_ser2net_banner(partial: &mut Vec<u8>, data: &[u8]) -> (r: Vec<u8>)
    ensures
        r@ == banner_free(old(partial)@, data@),
        final(partial)@ == left_over(old(partial)@, data@),
{
    let mut all: Vec<u8> = Vec::new();
    std::mem::swap(&mut all, partial);
    append_bytes(&mut all, data);
    let n: usize = all.len();
    let mut end: usize = n;
    assert(all@.take(n as int) =~= all@);
    while end > 0 && all[end - 1] != 10
        invariant
            end <= all@.len(),
            whole_end(all@) == whole_end(all@.take(end as int)),
        decreases end,
    {
        assert(all@.take(end as int).drop_last() =~= all@.take(end - 1));
        end = end - 1;
    }
    assert(whole_end(all@) == end);
    let ghost whole = all@.take(end as int);
    *partial = bytes_range(&all, end, n);
    assert(partial@ =~= left_over(old(partial)@, data@));
    let mut out: Vec<u8> = Vec::new();
    let mut start: usize = 0;
    assert(out@ + without_banner(whole, 0) =~= without_banner(whole, 0));
    while start < end
        invariant
            start <= end <= all@.len(),
            whole == all@.take(end as int),
            out@ + without_banner(whole, start as int) == without_banner(whole, 0),
        decreases end - start,
    {
        let mut stop: usize = start;
        while stop < end && all[stop] != 10
            invariant
                start <= stop <= end <= all@.len(),
                whole == all@.take(end as int),
                line_stop(whole, start as int) == line_stop(whole, stop as int),
            decreases end - stop,
        {
            stop = stop + 1;
        }
        if stop < end {
            stop = stop + 1;
        }
        let line = &all[start..stop];
        assert(line@ =~= whole.subrange(start as int, stop as int));
        let ghost before = out@;
        let ghost rest = without_banner(whole, stop as int);
        if !is_banner_line(line) {
            append_bytes(&mut out, line);
            assert(before + (line@ + rest) =~= out@ + rest);
        } else {
            assert(Seq::<u8>::empty() + rest =~= rest);
        }
        start = stop;
    }
    assert(out@ + Seq::<u8>::empty() =~= out@);
    out
}

/// The pattern of the kernel log prefix of Android.
pub const KLOG_PATTERN: &'static str = r"(?m)^\[\s*\d+\.\d+\]\[\s*T\d+\]\s*";

/// Output without the kernel log prefixes of Android.
pub open spec fn klog_free(data: Seq<u8>) -> Seq<u8> {
    match bytes_pattern_replaced(KLOG_PATTERN@, data, Seq::empty()) {
        Some(d) => d,
        None => data,
    }
}

/// Removes the kernel log prefixes of Android, such as `[ 12.345678][  T123] `.
pub fn strip_android_klog(data: &[u8]) -> (r: Vec<u8>)
    ensures
        r@ == klog_free(data@),
{
    let nothing: Vec<u8> = Vec::new();
    assert(nothing@ =~= Seq::<u8>::empty());
    match replace_bytes(KLOG_PATTERN, data, &nothing) {
        Some(d) => d,
        None => copy_bytes(data),
    }
}

/// A message that the target is shutting down.
pub open spec fn shuts_down(text: Seq<char>) -> bool {
    occurs(text, "Power down"@) || occurs(text, "System halted"@) || occurs(
        text,
        "reboot: Power down"@,
    )
}

fn is_shutdown(data: &[u8]) -> (r: bool)
    ensures
        r == shuts_down(utf8_lossy(data@)),
{
    let text = lossy_text(data);
    contains_text(&text, "Power down") || contains_text(&text, "System halted") || contains_text(
        &text,
        "reboot: Power down",
    )
}

// ── Stages and states ───────────────────────────────────────────────────────

/// A stage at which the target is up.
pub open spec fn is_up(stage: Seq<char>) -> bool {
    ||| stage == "shell"@
    ||| stage == "android_shell"@
    ||| stage == "android_adbd"@
    ||| stage == "android_bootanim"@
    ||| stage == "android_surfaceflinger"@
    ||| stage == "android_boot_completed"@
}

/// The state that a stage stands for.
pub open spec fn stage_state(stage: Seq<char>) -> TargetState {
    if stage == "uboot"@ || stage == "autoboot"@ {
        TargetState::UBoot
    } else if is_up(stage) {
        TargetState::Active
    } else {
        TargetState::Booting
    }
}

/// Whether the target is up at a stage.
pub fn is_up_stage(stage: &str) -> (r: bool)
    ensures
        r == is_up(stage@),
{
    eq_text(stage, "shell") || eq_text(stage, "android_shell") || eq_text(stage, "android_adbd")
        || eq_text(stage, "android_bootanim") || eq_text(stage, "android_surfaceflinger") || eq_text(
        stage,
        "android_boot_completed",
    )
}

/// The state that a stage stands for.
pub fn state_of_stage(stage: &str) -> (r: TargetState)
    ensures
        r == stage_state(stage@),
{
    if eq_text(stage, "uboot") || eq_text(stage, "autoboot") {
        TargetState::UBoot
    } else if is_up_stage(stage) {
        TargetState::Active
    } else {
        TargetState::Booting
    }
}

/// Some event says that the target is up.
pub open spec fn boot_complete(es: Seq<EventView>) -> bool {
    exists|i: int| 0 <= i < es.len() && (#[trigger] es[i] matches EventView::Stage(s) && is_up(s))
}

/// Some event says that a boot cycle began.
pub open spec fn boot_began(es: Seq<EventView>) -> bool {
    exists|i: int| 0 <= i < es.len() && #[trigger] es[i] is BootStart
}

/// Some event says that the boot loader's prompt is there.
pub open spec fn at_uboot(es: Seq<EventView>) -> bool {
    exists|i: int| 0 <= i < es.len() && (#[trigger] es[i] matches EventView::Stage(s) && s
        == "uboot"@)
}

/// Whether some event says that the target is up.
pub fn is_boot_complete(events: &[BootEvent]) -> (r: bool)
    ensures
        r == boot_complete(events_of(events@)),
{
    let ghost es = events_of(events@);
    let mut i: usize = 0;
    while i < events.len()
        invariant
            i <= events.len(),
            es == events_of(events@),
            forall|j: int|
                0 <= j < i ==> !(#[trigger] es[j] matches EventView::Stage(s) && is_up(s)),
        decreases events.len() - i,
    {
        assert(es[i as int] == events@[i as int]@);
        if let BootEvent::Stage(s) = &events[i] {
            if is_up_stage(s) {
                return true;
            }
        }
        i = i + 1;
    }
    false
}

fn has_boot_start(events: &[BootEvent]) -> (r: bool)
    ensures
        r == boot_began(events_of(events@)),
{
    let ghost es = events_of(events@);
    let mut i: usize = 0;
    while i < events.len()
        invariant
            i <= events.len(),
            es == events_of(events@),
            forall|j: int| 0 <= j < i ==> !(#[trigger] es[j] is BootStart),
        decreases events.len() - i,
    {
        assert(es[i as int] == events@[i as int]@);
        if let BootEvent::BootStart = &events[i] {
            return true;
        }
        i = i + 1;
    }
    false
}

fn has_uboot(events: &[BootEvent]) -> (r: bool)
    ensures
        r == at_uboot(events_of(events@)),
{
    let ghost es = events_of(events@);
    let mut i: usize = 0;
    while i < events.len()
        invariant
            i <= events.len(),
            es == events_of(events@),
            forall|j: int|
                0 <= j < i ==> !(#[trigger] es[j] matches EventView::Stage(s) && s == "uboot"@),
        decreases events.len() - i,
    {
        assert(es[i as int] == events@[i as int]@);
        if let BootEvent::Stage(s) = &events[i] {
            if eq_text(s, "uboot") {
                return true;
            }
        }
        i = i + 1;
    }
    false
}

// ── Actions ─────────────────────────────────────────────────────────────────

/// What is to be carried out.
pub enum EngineAction {
    /// Change the state files.
    Files(Vec<FileOp>),
    /// Append clean output to the logs, and rotate them where they grew too
    /// long.
    AppendLog { data: Vec<u8>, rotate: bool },
    /// Save the log of the last boot and begin a new one.
    NewBootLog,
    /// Empty the file of unclassified lines.
    DropUnclassified,
    /// Append lines to the file of unclassified lines.
    AppendUnclassified(Vec<String>),
}

/// The model of an `EngineAction`.
pub enum ActionView {
    Files(Seq<FileOpView>),
    AppendLog { data: Seq<u8>, rotate: bool },
    NewBootLog,
    DropUnclassified,
    AppendUnclassified(Seq<Seq<char>>),
}

impl View for EngineAction {
    type V = ActionView;

    open spec fn view(&self) -> ActionView {
        match *self {
            EngineAction::Files(ops) => ActionView::Files(file_ops(ops@)),
            EngineAction::AppendLog { data, rotate } => ActionView::AppendLog {
                data: data@,
                rotate,
            },
            EngineAction::NewBootLog => ActionView::NewBootLog,
            EngineAction::DropUnclassified => ActionView::DropUnclassified,
            EngineAction::AppendUnclassified(ls) => ActionView::AppendUnclassified(texts(ls@)),
        }
    }
}

/// The models of a list of actions.
pub open spec fn actions_of(v: Seq<EngineAction>) -> Seq<ActionView> {
    v.map_values(|a: EngineAction| a@)
}

/// One more action in the list is one more in its model.
proof fn lemma_actions_push(v: Seq<EngineAction>, a: EngineAction)
    ensures
        actions_of(v.push(a)) == actions_of(v).push(a@),
{
    assert(actions_of(v.push(a)) =~= actions_of(v).push(a@));
}

/// Readings of the clocks of the state, the detector and the commands.
#[derive(Debug, Clone, Copy, PartialEq, Eq, Structural)]
pub struct Times {
    pub state: u64,
    pub detector: u64,
    pub commands: u64,
}

// ── The engine ──────────────────────────────────────────────────────────────

/// The model of a `SerialEngine`.
pub struct EngineView {
    pub console: ConsoleView,
    pub detector: DetectorView,
    pub state: StateView,
    pub logs: LogView,
    pub commands: QueueView,
    pub reconnect: ReconnectView,
    pub values: Values,
    pub running: bool,
    pub paused: bool,
    pub login_user: Seq<char>,
    pub login_pass: Seq<char>,
    pub partial: Seq<u8>,
    pub poll_position: nat,
}

impl EngineView {
    /// A change of state, with the change of the state files.
    pub open spec fn turn(self, new: TargetState) -> (EngineView, Seq<ActionView>) {
        (
            EngineView { state: self.state.transition(new), ..self },
            seq![ActionView::Files(self.state.transition_ops(new))],
        )
    }

    /// A line queued for the console.
    pub open spec fn line(self, text: Seq<char>) -> EngineView {
        EngineView {
            console: ConsoleView {
                queue: enqueued(self.console.queue, encode_utf8(text + "\n"@)),
                ..self.console
            },
            ..self
        }
    }

    /// What one boot event does.
    pub open spec fn boot_event(self, e: EventView) -> (EngineView, Seq<ActionView>) {
        match e {
            EventView::BootStart => {
                let (v, a) = self.turn(TargetState::Booting);
                (
                    EngineView { detector: v.detector.reset_cycle(), ..v },
                    seq![ActionView::NewBootLog, ActionView::DropUnclassified] + a,
                )
            },
            EventView::Autoboot => (self, Seq::empty()),
            EventView::LoginPrompt => if self.login_user.len() > 0 {
                (self.line(self.login_user), Seq::empty())
            } else {
                (self, Seq::empty())
            },
            EventView::PasswordPrompt => if self.login_pass.len() > 0 {
                (self.line(self.login_pass), Seq::empty())
            } else {
                (self, Seq::empty())
            },
            EventView::Crash(_, _) => self.turn(TargetState::Crashed),
            EventView::Unclassified(ls) => if ls.len() > 0 {
                (self, seq![ActionView::AppendUnclassified(ls)])
            } else {
                (self, Seq::empty())
            },
            EventView::Stage(s) => {
                let new = stage_state(s);
                if new == TargetState::Active || (self.state.current != new && self.state.current
                    != TargetState::Crashed) {
                    self.turn(new)
                } else {
                    (self, Seq::empty())
                }
            },
        }
    }

    /// What boot events do, one after the other.
    pub open spec fn boot_events(self, es: Seq<EventView>) -> (EngineView, Seq<ActionView>)
        decreases es.len(),
    {
        if es.len() == 0 {
            (self, Seq::empty())
        } else {
            let (v, a) = self.boot_event(es[0]);
            let (w, b) = v.boot_events(es.subrange(1, es.len() as int));
            (w, a + b)
        }
    }

    /// Output goes to the logs, unless it is empty.
    pub open spec fn logged(self, data: Seq<u8>) -> (EngineView, Seq<ActionView>) {
        if data.len() == 0 {
            (self, Seq::empty())
        } else {
            let logs = self.logs.appended(cleaned(data));
            (
                EngineView { logs, ..self },
                seq![ActionView::AppendLog { data: cleaned(data), rotate: logs.oversized() }],
            )
        }
    }

    /// Output goes to the detector, which reports events.
    pub open spec fn detected(self, data: Seq<u8>, now: int) -> (EngineView, Seq<EventView>) {
        let (d, es) = self.detector.buffered(data).drained(now);
        (EngineView { detector: d, ..self }, es)
    }

    /// A sign of life: a shutdown message turns the target off, any other output
    /// wakes it up where it was off.
    pub open spec fn roused(self, data: Seq<u8>, now: int) -> (EngineView, Seq<ActionView>) {
        let v = EngineView { state: self.state.on_activity(now), ..self };
        if shuts_down(utf8_lossy(data)) {
            v.turn(TargetState::DutOff)
        } else if self.state.current == TargetState::DutOff {
            v.turn(TargetState::Active)
        } else {
            (v, Seq::empty())
        }
    }

    /// Banner lines are taken out of a chunk.
    pub open spec fn filtered(self, data: Seq<u8>) -> (EngineView, Seq<u8>) {
        (
            EngineView { partial: left_over(self.partial, data), ..self },
            banner_free(self.partial, data),
        )
    }

    /// Clean output goes to the logs and the detector, and the events are
    /// handled.
    pub open spec fn absorbed(self, clean: Seq<u8>, now: int) -> (EngineView, Seq<ActionView>) {
        let (v, a) = self.logged(clean);
        let (v, es) = v.detected(clean, now);
        let (v, b) = v.boot_events(es);
        (v, a + b)
    }

    /// What output of the serial line does.
    pub open spec fn received(self, data: Seq<u8>, t: Times) -> (EngineView, Seq<ActionView>) {
        let (v, a) = self.roused(data, t.state as int);
        let (v, clean) = v.filtered(data);
        let (v, b) = v.absorbed(clean, t.detector as int);
        (
            EngineView { commands: v.commands.feed(klog_free(data), t.commands as int), ..v },
            a + b,
        )
    }
}

/// The engine of one target.
pub struct SerialEngine {
    pub console: SerialConsoleDriver,
    pub detector: BootStageDetector,
    pub state: StateManager,
    pub logs: LogManager,
    pub commands: CommandQueue,
    pub relay: RelayManager,
    pub config: Config,
    pub reconnect: ReconnectManager,
    pub running: bool,
    /// Someone else uses the serial line: nothing is sent and nothing is read.
    pub paused: bool,
    pub host: String,
    pub relay_host: String,
    pub serial_target: String,
    pub login_user: String,
    pub login_pass: String,
    pub interrupt_char: u8,
    /// The incomplete last line of the output so far.
    pub partial: Vec<u8>,
    /// How far the log was polled.
    pub poll_position: u64,
}

impl View for SerialEngine {
    type V = EngineView;

    open spec fn view(&self) -> EngineView {
        EngineView {
            console: self.console@,
            detector: self.detector@,
            state: self.state@,
            logs: self.logs@,
            commands: self.commands@,
            reconnect: self.reconnect@,
            values: self.config.values@,
            running: self.running,
            paused: self.paused,
            login_user: self.login_user@,
            login_pass: self.login_pass@,
            partial: self.partial@,
            poll_position: self.poll_position as nat,
        }
    }
}

impl SerialEngine {
    /// Changes the state.
    fn turn(&mut self, new: TargetState, out: &mut Vec<EngineAction>)
        ensures
            final(self)@ == old(self)@.turn(new).0,
            actions_of(final(out)@) == actions_of(old(out)@) + old(self)@.turn(new).1,
            final(self).same_fixed(*old(self)),
    {
        let ops = self.state.transition(new);
        let a = EngineAction::Files(ops);
        proof {
            lemma_actions_push(out@, a);
        }
        out.push(a);
    }

    /// The parts that no step changes.
    pub open spec fn same_fixed(self, other: SerialEngine) -> bool {
        &&& self.relay == other.relay
        &&& self.config == other.config
        &&& self.host == other.host
        &&& self.relay_host == other.relay_host
        &&& self.serial_target == other.serial_target
        &&& self.interrupt_char == other.interrupt_char
    }

    /// Handles one boot event.
    fn handle_boot_event(&mut self, e: &BootEvent, out: &mut Vec<EngineAction>)
        ensures
            final(self)@ == old(self)@.boot_event(e@).0,
            actions_of(final(out)@) == actions_of(old(out)@) + old(self)@.boot_event(e@).1,
            final(self).same_fixed(*old(self)),
    {
        let ghost before = out@;
        match e {
            BootEvent::BootStart => {
                proof {
                    lemma_actions_push(before, EngineAction::NewBootLog);
                    lemma_actions_push(
                        before.push(EngineAction::NewBootLog),
                        EngineAction::DropUnclassified,
                    );
                }
                out.push(EngineAction::NewBootLog);
                out.push(EngineAction::DropUnclassified);
                self.turn(TargetState::Booting, out);
                self.detector.reset_cycle();
                assert(actions_of(out@) =~= actions_of(before) + old(self)@.boot_event(e@).1);
            },
            BootEvent::Autoboot => {
                assert(actions_of(out@) =~= actions_of(before) + old(self)@.boot_event(e@).1);
            },
            BootEvent::LoginPrompt => {
                if !self.login_user.as_str().is_empty() {
                    self.console.sendline(&self.login_user);
                }
                assert(actions_of(out@) =~= actions_of(before) + old(self)@.boot_event(e@).1);
            },
            BootEvent::PasswordPrompt => {
                if !self.login_pass.as_str().is_empty() {
                    self.console.sendline(&self.login_pass);
                }
                assert(actions_of(out@) =~= actions_of(before) + old(self)@.boot_event(e@).1);
            },
            BootEvent::Crash(_, _) => {
                self.turn(TargetState::Crashed, out);
            },
            BootEvent::Unclassified(ls) => {
                assert(texts(ls@).len() == ls@.len());
                if ls.len() > 0 {
                    let a = EngineAction::AppendUnclassified(clone_texts(ls));
                    proof {
                        lemma_actions_push(before, a);
                    }
                    out.push(a);
                }
                assert(actions_of(out@) =~= actions_of(before) + old(self)@.boot_event(e@).1);
            },
            BootEvent::Stage(s) => {
                let new = state_of_stage(s);
                let cur = self.state.current();
                if new == TargetState::Active || (cur != new && cur != TargetState::Crashed) {
                    self.turn(new, out);
                }
                assert(actions_of(out@) =~= actions_of(before) + old(self)@.boot_event(e@).1);
            },
        }
    }

    /// Handles boot events, one after the other.
    pub fn handle_boot_events(&mut self, events: Vec<BootEvent>) -> (out: Vec<EngineAction>)
        ensures
            (final(self)@, actions_of(out@)) == old(self)@.boot_events(events_of(events@)),
            final(self).same_fixed(*old(self)),
    {
        let mut out: Vec<EngineAction> = Vec::new();
        self.handle_each(&events, &mut out);
        assert(actions_of(Seq::<EngineAction>::empty()) + old(self)@.boot_events(
            events_of(events@),
        ).1 =~= old(self)@.boot_events(events_of(events@)).1);
        out
    }

    fn handle_each(&mut self, events: &Vec<BootEvent>, out: &mut Vec<EngineAction>)
        ensures
            final(self)@ == old(self)@.boot_events(events_of(events@)).0,
            actions_of(final(out)@) == actions_of(old(out)@) + old(self)@.boot_events(
                events_of(events@),
            ).1,
            final(self).same_fixed(*old(self)),
    {
        let ghost es = events_of(events@);
        let ghost goal = old(self)@.boot_events(es);
        let ghost start = actions_of(out@);
        let mut i: usize = 0;
        assert(es.subrange(0, es.len() as int) =~= es);
        while i < events.len()
            invariant
                i <= events@.len(),
                es == events_of(events@),
                goal.0 == self@.boot_events(es.subrange(i as int, es.len() as int)).0,
                start + goal.1 == actions_of(out@) + self@.boot_events(
                    es.subrange(i as int, es.len() as int),
                ).1,
                self.same_fixed(*old(self)),
            decreases events@.len() - i,
        {
            let ghost rest = es.subrange(i as int, es.len() as int);
            let ghost v = self@;
            let ghost mid = actions_of(out@);
            assert(rest[0] == events@[i as int]@);
            assert(rest.subrange(1, rest.len() as int) =~= es.subrange(i + 1, es.len() as int));
            self.handle_boot_event(&events[i], out);
            proof {
                let a = v.boot_event(rest[0]).1;
                let b = self@.boot_events(es.subrange(i + 1, es.len() as int)).1;
                assert(mid + (a + b) =~= (mid + a) + b);
            }
            i = i + 1;
        }
        assert(es.subrange(es.len() as int, es.len() as int) =~= Seq::<EventView>::empty());
        assert(actions_of(out@) + Seq::<ActionView>::empty() =~= actions_of(out@));
    }

    /// Puts output into the logs, unless it is empty.
    pub(crate) fn log_output(&mut self, data: &[u8], out: &mut Vec<EngineAction>)
        ensures
            final(self)@ == old(self)@.logged(data@).0,
            actions_of(final(out)@) == actions_of(old(out)@) + old(self)@.logged(data@).1,
            final(self).same_fixed(*old(self)),
    {
        let ghost before = out@;
        if data.len() > 0 {
            let (clean, rotate) = self.logs.write(data);
            let a = EngineAction::AppendLog { data: clean, rotate };
            proof {
                lemma_actions_push(before, a);
            }
            out.push(a);
        }
        assert(actions_of(out@) =~= actions_of(before) + old(self)@.logged(data@).1);
    }

    /// Puts clean output into the logs and the detector and handles the events.
    pub(crate) fn absorb(&mut self, clean: &[u8], now: u64, out: &mut Vec<EngineAction>)
        ensures
            final(self)@ == old(self)@.absorbed(clean@, now as int).0,
            actions_of(final(out)@) == actions_of(old(out)@) + old(self)@.absorbed(
                clean@,
                now as int,
            ).1,
            final(self).same_fixed(*old(self)),
    {
        let ghost before = actions_of(out@);
        self.log_output(clean, out);
        let ghost mid = self@;
        let events = self.detector.feed_at(clean, now);
        assert((self@, events_of(events@)) == mid.detected(clean@, now as int));
        let ghost a = actions_of(out@);
        self.handle_each(&events, out);
        assert(actions_of(out@) =~= before + old(self)@.absorbed(clean@, now as int).1);
    }

    /// Takes in output of the serial line that arrived at the given times.
    pub fn on_data_at(&mut self, data: &[u8], t: Times) -> (out: Vec<EngineAction>)
        requires
            old(self)@.commands.wf(),
        ensures
            (final(self)@, actions_of(out@)) == old(self)@.received(data@, t),
            final(self)@.commands.wf(),
            final(self).same_fixed(*old(self)),
    {
        let mut out: Vec<EngineAction> = Vec::new();
        assert(actions_of(out@) =~= Seq::<ActionView>::empty());
        self.state.on_activity_at(t.state);
        if is_shutdown(data) {
            self.turn(TargetState::DutOff, &mut out);
        } else if self.state.current() == TargetState::DutOff {
            self.turn(TargetState::Active, &mut out);
        }
        assert(actions_of(out@) =~= old(self)@.roused(data@, t.state as int).1);
        assert(self@ == old(self)@.roused(data@, t.state as int).0);
        let ghost v2 = self@;
        let clean = strip_ser2net_banner(&mut self.partial, data);
        assert((self@, clean@) == v2.filtered(data@));
        self.absorb(&clean, t.detector, &mut out);
        let plain = strip_android_klog(data);
        proof {
            lemma_commands_untouched(old(self)@, data@, t);
        }
        self.commands.feed_serial_data_at(&plain, t.commands);
        out
    }

    /// Takes in output of the serial line.
    pub fn on_data(&mut self, data: &[u8]) -> (out: Vec<EngineAction>)
        requires
            old(self)@.commands.wf(),
        ensures
            exists|t: Times|
                (final(self)@, actions_of(out@)) == #[trigger] old(self)@.received(data@, t),
            final(self)@.commands.wf(),
            final(self).same_fixed(*old(self)),
    {
        let t = self.times();
        self.on_data_at(data, t)
    }

    /// Reads the clocks.
    pub fn times(&self) -> Times {
        Times { state: self.state.now(), detector: self.detector.now(), commands: self.commands.now() }
    }
}

// ── Creation ────────────────────────────────────────────────────────────────

/// The directory of the project: the configured one, or the working directory.
pub open spec fn project_of(config: Config, current_dir: Seq<char>) -> Seq<char> {
    match config.project_dir {
        Some(d) => d@,
        None => current_dir,
    }
}

impl SerialEngine {
    /// An engine that is not started. `mirror_prefix` is what the path of the shared
    /// cache begins with, and `canonical_dir` the canonical path of the project.
    pub fn new(
        config: Config,
        current_dir: &str,
        mirror_prefix: &str,
        canonical_dir: &str,
    ) -> (r: Self)
        requires
            number(config.values@, "MAX_LOG_FILE_SIZE"@, u64::MAX as nat, 100) * 1048576
                <= u64::MAX,
        ensures
            ({
                let m = config.values@;
                let dir = project_of(config, current_dir@);
                let dut_dir = first_text(lookup(m, "DUT_DIR"@), ".dut-serial"@);
                let prompt = lookup(m, "LOGIN_PROMPT"@);
                let base = joined_path(dir, dut_dir);
                &&& r.config == config
                &&& r.host@ == first_text(lookup(m, "SERIAL_IP"@), host_ip(m))
                &&& r.relay_host@ == first_text(lookup(m, "RELAY_IP"@), host_ip(m))
                &&& r.serial_target@ == serial_target_of(m)
                &&& r.interrupt_char == interrupt_byte(lookup(m, "UBOOT_INTERRUPT_CHAR"@))
                &&& r.relay.host@ == r.relay_host@
                &&& r.relay.port == number(m, "RELAY_PORT"@, u16::MAX as nat, 0)
                &&& r.relay.reset_ch == number(m, "RESET_CHANNEL"@, u8::MAX as nat, 0)
                &&& r.relay.maskrom_ch == number(m, "MASKROM_CHANNEL"@, u8::MAX as nat, 0)
                &&& r@.console == (ConsoleView {
                    host: r.host@,
                    target: r.serial_target@,
                    stream: false,
                    connected: false,
                    queue: Seq::empty(),
                })
                &&& r@.detector == (DetectorView {
                    line_buf: Seq::empty(),
                    flags: CycleFlags {
                        boot_detected: false,
                        login_sent: false,
                        password_sent: false,
                    },
                    last_crash: None,
                    watchers: Seq::empty(),
                    outbox: Seq::empty(),
                    login_pattern: if prompt.len() > 0 && bytes_pattern_valid(prompt) {
                        prompt
                    } else {
                        LOGIN_PATTERN@
                    },
                    learner: None,
                })
                &&& r@.state.current == TargetState::Stopped
                &&& r@.state.state_file == joined_path(base, "target-state"@)
                &&& r@.state.cache_file == joined_path(base, "statusline-cache"@)
                &&& r@.state.hang_timeout_secs == number(m, "HANG_TIMEOUT"@, u64::MAX as nat, 60)
                &&& r@.state.hysteresis == number(m, "HANG_HYSTERESIS"@, u32::MAX as nat, 3)
                &&& r@.state.dut_alias == lookup(m, "DUT_ALIAS"@)
                &&& r@.state.project_dir == dir
                &&& r@.state.command_count == 0
                &&& r@.state.error_count == 0
                &&& r@.logs.log_dir == joined_path(base, "logs"@)
                &&& r@.logs.max_logs == number(
                    m,
                    "MAX_ARCHIVED_LOGS"@,
                    usize::MAX as nat,
                    10,
                )
                &&& r@.logs.max_file_size == number(
                    m,
                    "MAX_LOG_FILE_SIZE"@,
                    u64::MAX as nat,
                    100,
                ) * 1048576
                &&& r@.logs.boot_number == 0
                &&& r@.logs.current_path is None
                &&& r@.logs.ring_buffer.len() == 0
                &&& r@.commands.load() == 0
                &&& r@.commands.wf()
                &&& !r@.commands.enabled
                &&& r@.reconnect == (ReconnectView {
                    backoff: 1,
                    last_disconnect: None,
                    attempts: 0,
                })
                &&& !r.running
                &&& !r.paused
                &&& r.login_user@ == first_text(lookup(m, "LOGIN_USER"@), "root"@)
                &&& r.login_pass@ == lookup(m, "LOGIN_PASS"@)
                &&& r.partial@.len() == 0
                &&& r.poll_position == 0
            }),
    {
        let project_dir = match &config.project_dir {
            Some(d) => d.clone(),
            None => current_dir.to_owned(),
        };
        let host = config.serial_ip();
        let relay_host = config.relay_ip();
        let serial_target = config.serial_target();
        let dut_dir = config.dut_dir();
        let login_user = config.login_user();
        let login_pass = config.login_pass();
        let login_prompt = config.login_prompt();
        let interrupt_char: u8 = config.uboot_interrupt_char();
        let mut detector = BootStageDetector::new();
        if !login_prompt.as_str().is_empty() {
            detector.set_login_regex(&login_prompt);
        }
        SerialEngine {
            console: SerialConsoleDriver::new(host.clone(), serial_target.clone()),
            detector,
            state: StateManager::new(
                &project_dir,
                config.hang_timeout(),
                config.hang_hysteresis(),
                &dut_dir,
                config.get("DUT_ALIAS"),
                mirror_prefix,
                canonical_dir,
            ),
            logs: LogManager::new(
                &project_dir,
                config.max_archived_logs(),
                config.max_log_file_size_mb(),
                &dut_dir,
            ),
            commands: CommandQueue::new(),
            relay: RelayManager::new(
                relay_host.clone(),
                config.relay_port(),
                config.reset_channel(),
                config.maskrom_channel(),
            ),
            reconnect: ReconnectManager::new(),
            running: false,
            paused: false,
            host,
            relay_host,
            serial_target,
            login_user,
            login_pass,
            interrupt_char,
            partial: Vec::new(),
            poll_position: 0,
            config,
        }
    }
}

// ── Starting and stopping ───────────────────────────────────────────────────

/// What keeps the engine from starting: no host, or no serial port.
pub open spec fn start_issues(m: Values) -> Seq<Seq<char>> {
    let host = if host_ip(m).len() == 0 {
        seq!["dev_host.ip not set"@]
    } else {
        Seq::empty()
    };
    let port = if serial_target_of(m).len() == 0 || serial_target_of(m) == "0"@ {
        seq!["serial.port not set"@]
    } else {
        Seq::empty()
    };
    host + port
}

/// A look at the host's device directory: whom to ask and for what.
pub struct AliasCheck {
    pub login: String,
    pub path: String,
}

/// What starting needs from outside.
pub struct StartPlan {
    /// The alias of the target's device on the host, where it has one of its
    /// own.
    pub alias_check: Option<AliasCheck>,
    /// Files that a process that was replaced leaves behind.
    pub stale_files: Vec<String>,
    /// The directory of the target's logs.
    pub log_dir: String,
    /// The reference log to learn from, where one is configured.
    pub reference_log: Option<String>,
}

impl SerialEngine {
    /// Checks the configuration and says what starting needs. Refuses to start
    /// where the host or the port is missing.
    pub fn start(&self, current_dir: &str) -> (r: Result<StartPlan, String>)
        ensures
            ({
                let m = self.config.values@;
                let dir = joined_path(
                    project_of(self.config, current_dir@),
                    first_text(lookup(m, "DUT_DIR"@), ".dut-serial"@),
                );
                let alias = first_text(lookup(m, "DUT_ALIAS"@), "default"@);
                let log = lookup(m, "REFERENCE_LOG"@);
                match r {
                    Ok(p) => {
                        &&& start_issues(m).len() == 0
                        &&& p.alias_check is Some <==> alias != "default"@ && host_ip(m).len() > 0
                        &&& p.alias_check matches Some(c) ==> c.login@ == "linaro@"@ + host_ip(m)
                            && c.path@ == "/dev/serial/by-alias/"@ + alias
                        &&& texts(p.stale_files@) == seq![
                            joined_path(dir, "mcp.pid"@),
                            joined_path(joined_path(dir, alias), "mcp.pid"@),
                            joined_path(dir, ".session-pid"@),
                        ]
                        &&& p.log_dir@ == joined_path(joined_path(dir, alias), "logs"@)
                        &&& text_option(p.reference_log) == (if log.len() > 0 {
                            Some(log)
                        } else {
                            None
                        })
                    },
                    Err(e) => start_issues(m).len() > 0 && e@ == "Config errors: "@ + joined(
                        start_issues(m),
                        "; "@,
                    ) + ". Fix .target.toml."@,
                }
            }),
    {
        let mut issues: Vec<String> = Vec::new();
        if self.config.dev_host_ip().as_str().is_empty() {
            issues.push("dev_host.ip not set".to_owned());
        }
        let port = self.config.serial_target();
        if port.as_str().is_empty() || eq_text(&port, "0") {
            issues.push("serial.port not set".to_owned());
        }
        assert(texts(issues@) =~= start_issues(self.config.values@));
        assert(texts(issues@).len() == issues@.len());
        if issues.len() > 0 {
            return Err(cat3("Config errors: ", &join_texts(&issues, "; "), ". Fix .target.toml."));
        }
        let project_dir = match &self.config.project_dir {
            Some(d) => d.clone(),
            None => current_dir.to_owned(),
        };
        let dir = join_path(&project_dir, &self.config.dut_dir());
        let alias = self.config.get_str_or("DUT_ALIAS", "default");
        let host = self.config.dev_host_ip();
        let alias_check = if !eq_text(&alias, "default") && !host.as_str().is_empty() {
            Some(
                AliasCheck {
                    login: cat("linaro@", &host),
                    path: cat("/dev/serial/by-alias/", &alias),
                },
            )
        } else {
            None
        };
        let own = join_path(&dir, &alias);
        let mut stale_files: Vec<String> = Vec::new();
        stale_files.push(join_path(&dir, "mcp.pid"));
        stale_files.push(join_path(&own, "mcp.pid"));
        stale_files.push(join_path(&dir, ".session-pid"));
        assert(texts(stale_files@) =~= seq![
            joined_path(dir@, "mcp.pid"@),
            joined_path(own@, "mcp.pid"@),
            joined_path(dir@, ".session-pid"@),
        ]);
        let log = self.config.reference_log();
        let reference_log = if log.as_str().is_empty() {
            None
        } else {
            Some(log)
        };
        Ok(StartPlan { alias_check, stale_files, log_dir: join_path(&own, "logs"), reference_log })
    }

    /// The error of a target that another process holds.
    pub fn in_use_error(&self, pid: u64) -> (r: String)
        ensures
            r@ == "Target "@ + self.host@ + ":"@ + self.serial_target@ + " is already in use by PID "@
                + crate::text::decimal(pid as nat) + "."@,
    {
        let mut r = cat3("Target ", &self.host, ":");
        r.append(&self.serial_target);
        r.append(" is already in use by PID ");
        r.append(&crate::text::decimal_text(pid));
        r.append(".");
        r
    }

    /// Commands can be written from now on.
    pub fn enable_commands(&mut self)
        ensures
            final(self)@ == (EngineView {
                commands: QueueView { enabled: true, ..old(self)@.commands },
                ..old(self)@
            }),
            final(self).same_fixed(*old(self)),
    {
        self.commands.set_write_fn();
    }

    /// The line was connected or not. A fresh connection is told not to echo; a
    /// failed one means that the target is disconnected.
    pub fn on_connect(&mut self, made: bool) -> (out: Vec<EngineAction>)
        ensures
            ({
                let v = EngineView {
                    console: ConsoleView { stream: made, connected: made, ..old(self)@.console },
                    ..old(self)@
                };
                (final(self)@, actions_of(out@)) == (if made {
                    (v.line("stty -echo"@), Seq::empty())
                } else {
                    v.turn(TargetState::Disconnected)
                })
            }),
            final(self).same_fixed(*old(self)),
    {
        let mut out: Vec<EngineAction> = Vec::new();
        assert(actions_of(out@) =~= Seq::<ActionView>::empty());
        self.console.connect(made);
        if made {
            self.console.sendline("stty -echo");
        } else {
            let ghost v = self@;
            self.turn(TargetState::Disconnected, &mut out);
            assert(actions_of(out@) =~= v.turn(TargetState::Disconnected).1);
        }
        out
    }

    /// The engine runs.
    pub fn started(&mut self)
        ensures
            final(self)@ == (EngineView { running: true, ..old(self)@ }),
            final(self).same_fixed(*old(self)),
    {
        self.running = true;
    }

    /// Stops the engine. The last writes, the echo being switched on again, are
    /// handed out.
    pub fn stop(&mut self) -> (r: (Vec<Vec<u8>>, Vec<EngineAction>))
        ensures
            ({
                let v = EngineView { running: false, ..old(self)@ };
                let v = if v.console.connected {
                    v.line("stty echo"@)
                } else {
                    v
                };
                let w = EngineView {
                    console: ConsoleView {
                        stream: false,
                        connected: false,
                        queue: Seq::empty(),
                        ..v.console
                    },
                    logs: LogView { current_open: false, ..v.logs },
                    ..v
                };
                &&& crate::command_queue::chunks_of(r.0@) == (if v.console.stream {
                    v.console.queue
                } else {
                    Seq::empty()
                })
                &&& (final(self)@, actions_of(r.1@)) == w.turn(TargetState::Stopped)
            }),
            final(self).same_fixed(*old(self)),
    {
        let mut out: Vec<EngineAction> = Vec::new();
        assert(actions_of(out@) =~= Seq::<ActionView>::empty());
        self.running = false;
        if self.console.is_open() {
            self.console.sendline("stty echo");
        }
        let writes = self.console.drain_writes();
        self.console.close();
        self.logs.close();
        let ghost w = self@;
        self.turn(TargetState::Stopped, &mut out);
        assert(actions_of(out@) =~= w.turn(TargetState::Stopped).1);
        (writes, out)
    }

    /// Pauses the engine so that another program can use the line.
    pub fn pause(&mut self) -> (out: Vec<EngineAction>)
        ensures
            (final(self)@, actions_of(out@)) == (EngineView {
                paused: true,
                console: ConsoleView { stream: false, connected: false, ..old(self)@.console },
                ..old(self)@
            }).turn(TargetState::Dutabo),
            final(self).same_fixed(*old(self)),
    {
        let mut out: Vec<EngineAction> = Vec::new();
        self.paused = true;
        self.console.close();
        let ghost v = self@;
        self.turn(TargetState::Dutabo, &mut out);
        assert(actions_of(out@) =~= v.turn(TargetState::Dutabo).1);
        out
    }

    /// Resumes the engine. The state stays until the line is connected again.
    pub fn resume(&mut self)
        ensures
            final(self)@ == (EngineView { paused: false, ..old(self)@ }),
            final(self).same_fixed(*old(self)),
    {
        self.paused = false;
    }
}

// ── Probing ─────────────────────────────────────────────────────────────────

/// What a read brought.
pub enum ProbeRead {
    /// Bytes, possibly none.
    Data(Vec<u8>),
    /// The read failed.
    Failed,
}

impl ProbeRead {
    /// The bytes that a read brought.
    pub open spec fn bytes(self) -> Option<Seq<u8>> {
        match self {
            ProbeRead::Data(d) => Some(d@),
            ProbeRead::Failed => None,
        }
    }
}

impl EngineView {
    /// The first probe of a fresh connection. The flag says that the output did
    /// not tell the state, so that a line was sent and a second probe follows.
    pub open spec fn probed(self, read: Option<Seq<u8>>, now: int) -> (
        EngineView,
        Seq<ActionView>,
        bool,
    ) {
        match read {
            None => {
                let (v, a) = self.turn(TargetState::Disconnected);
                (v, a, false)
            },
            Some(data) => if data.len() == 0 {
                let (v, a) = self.turn(TargetState::Active);
                (v, a, false)
            } else {
                let (v, clean) = self.filtered(data);
                let (v, a) = v.logged(clean);
                let (v, es) = if clean.len() > 0 {
                    v.detected(clean, now)
                } else {
                    (v, Seq::empty())
                };
                if boot_complete(es) {
                    let (v, b) = v.turn(TargetState::Active);
                    (v, a + b, false)
                } else if boot_began(es) {
                    let (v, b) = v.turn(TargetState::Booting);
                    (v, a + b, false)
                } else if at_uboot(es) {
                    let (v, b) = v.turn(TargetState::UBoot);
                    (v, a + b, false)
                } else {
                    (v.line(Seq::empty()), a, true)
                }
            },
        }
    }

    /// The second probe: silence means that the target is off.
    pub open spec fn probed_again(self, read: Option<Seq<u8>>, now: int) -> (
        EngineView,
        Seq<ActionView>,
    ) {
        match read {
            None => self.turn(TargetState::Active),
            Some(data) => if data.len() == 0 {
                self.turn(TargetState::DutOff)
            } else {
                let (v, a) = self.logged(data);
                let (v, es) = v.detected(data, now);
                let (v, b) = if !boot_complete(es) && at_uboot(es) {
                    v.turn(TargetState::UBoot)
                } else {
                    v.turn(TargetState::Active)
                };
                (v, a + b)
            },
        }
    }
}

impl SerialEngine {
    /// The first probe of a fresh connection. Returns whether a second one
    /// follows.
    pub fn probe_initial_state(&mut self, read: &ProbeRead, now: u64) -> (r: (
        Vec<EngineAction>,
        bool,
    ))
        ensures
            (final(self)@, actions_of(r.0@), r.1) == old(self)@.probed(read.bytes(), now as int),
            final(self).same_fixed(*old(self)),
    {
        let mut out: Vec<EngineAction> = Vec::new();
        assert(actions_of(out@) =~= Seq::<ActionView>::empty());
        let ghost want = old(self)@.probed(read.bytes(), now as int);
        match read {
            ProbeRead::Failed => {
                self.turn(TargetState::Disconnected, &mut out);
                assert(actions_of(out@) =~= want.1);
                (out, false)
            },
            ProbeRead::Data(data) => {
                if data.len() == 0 {
                    self.turn(TargetState::Active, &mut out);
                    assert(actions_of(out@) =~= want.1);
                    return (out, false);
                }
                let clean = strip_ser2net_banner(&mut self.partial, data);
                let ghost v = self@;
                self.log_output(&clean, &mut out);
                assert(actions_of(out@) =~= v.logged(clean@).1);
                let mut events: Vec<BootEvent> = Vec::new();
                assert(events_of(events@) =~= Seq::<EventView>::empty());
                if clean.len() > 0 {
                    events = self.detector.feed_at(&clean, now);
                }
                let ghost a = actions_of(out@);
                if is_boot_complete(&events) {
                    self.turn(TargetState::Active, &mut out);
                    assert(actions_of(out@) =~= want.1);
                    return (out, false);
                }
                if has_boot_start(&events) {
                    self.turn(TargetState::Booting, &mut out);
                    assert(actions_of(out@) =~= want.1);
                    return (out, false);
                }
                if has_uboot(&events) {
                    self.turn(TargetState::UBoot, &mut out);
                    assert(actions_of(out@) =~= want.1);
                    return (out, false);
                }
                proof {
                    reveal_strlit("");
                    assert(""@ =~= Seq::<char>::empty());
                }
                self.console.sendline("");
                (out, true)
            },
        }
    }

    /// The second probe of a fresh connection.
    pub fn probe_again(&mut self, read: &ProbeRead, now: u64) -> (out: Vec<EngineAction>)
        ensures
            (final(self)@, actions_of(out@)) == old(self)@.probed_again(read.bytes(), now as int),
            final(self).same_fixed(*old(self)),
    {
        let mut out: Vec<EngineAction> = Vec::new();
        assert(actions_of(out@) =~= Seq::<ActionView>::empty());
        let ghost want = old(self)@.probed_again(read.bytes(), now as int);
        match read {
            ProbeRead::Failed => {
                self.turn(TargetState::Active, &mut out);
            },
            ProbeRead::Data(data) => {
                if data.len() == 0 {
                    self.turn(TargetState::DutOff, &mut out);
                } else {
                    self.log_output(data, &mut out);
                    let events = self.detector.feed_at(data, now);
                    if !is_boot_complete(&events) && has_uboot(&events) {
                        self.turn(TargetState::UBoot, &mut out);
                    } else {
                        self.turn(TargetState::Active, &mut out);
                    }
                }
            },
        }
        assert(actions_of(out@) =~= want.1);
        out
    }
}

// ── The read loop ───────────────────────────────────────────────────────────

/// What the read loop does next.
#[derive(Debug, Clone, Copy, PartialEq, Eq, Structural)]
pub enum LoopStep {
    /// Nothing: the engine is stopped or paused.
    Idle,
    /// Another program gave the line back: connect again.
    TakeBack,
    /// Another program wants the line: give it away.
    HandOver,
    /// Another program has the line.
    Yield,
    /// The line is down: connect again.
    Reconnect,
    /// Wait for output and read it.
    Read,
}

impl EngineView {
    /// What the read loop does next. `claimed` says that another program claims
    /// the line.
    pub open spec fn step(self, claimed: bool) -> LoopStep {
        if !self.running {
            LoopStep::Idle
        } else if !self.paused && self.state.current == TargetState::Dutabo {
            LoopStep::TakeBack
        } else if self.paused {
            LoopStep::Idle
        } else if claimed {
            if self.console.connected {
                LoopStep::HandOver
            } else {
                LoopStep::Yield
            }
        } else if self.state.current == TargetState::Disconnected {
            LoopStep::Reconnect
        } else {
            LoopStep::Read
        }
    }
}

impl SerialEngine {
    /// What the read loop does next. `claimed` says that another program claims
    /// the line.
    pub fn read_loop_iter(&self, claimed: bool) -> (r: LoopStep)
        ensures
            r == self@.step(claimed),
    {
        if !self.running {
            return LoopStep::Idle;
        }
        let cur = self.state.current();
        if !self.paused && cur == TargetState::Dutabo {
            return LoopStep::TakeBack;
        }
        if self.paused {
            return LoopStep::Idle;
        }
        if claimed {
            if self.console.is_open() {
                return LoopStep::HandOver;
            }
            return LoopStep::Yield;
        }
        if cur == TargetState::Disconnected {
            return LoopStep::Reconnect;
        }
        LoopStep::Read
    }

    /// Gives the line away.
    pub fn hand_over(&mut self) -> (out: Vec<EngineAction>)
        ensures
            (final(self)@, actions_of(out@)) == (EngineView {
                console: ConsoleView { stream: false, connected: false, ..old(self)@.console },
                ..old(self)@
            }).turn(TargetState::Dutabo),
            final(self).same_fixed(*old(self)),
    {
        let mut out: Vec<EngineAction> = Vec::new();
        self.console.close();
        let ghost v = self@;
        self.turn(TargetState::Dutabo, &mut out);
        assert(actions_of(out@) =~= v.turn(TargetState::Dutabo).1);
        out
    }

    /// The seconds to wait before connecting again at `now`.
    pub fn reconnect_delay_at(&mut self, now: u64) -> (r: u64)
        ensures
            r == old(self)@.reconnect.delay(now as int),
            final(self)@ == (EngineView {
                reconnect: old(self)@.reconnect.attempted(now as int),
                ..old(self)@
            }),
            final(self).same_fixed(*old(self)),
    {
        self.reconnect.next_delay_at(now)
    }

    /// The line is back and was probed.
    pub fn reconnected(&mut self)
        ensures
            final(self)@ == (EngineView {
                reconnect: old(self)@.reconnect.reset(),
                ..old(self)@
            }),
            final(self).same_fixed(*old(self)),
    {
        self.reconnect.reset();
    }

    /// Nothing arrived: overdue commands are resolved.
    pub fn on_silence_at(&mut self, now: u64)
        requires
            old(self)@.commands.wf(),
        ensures
            final(self)@ == (EngineView {
                commands: old(self)@.commands.check_timeouts(now as int),
                ..old(self)@
            }),
            final(self)@.commands.wf(),
            final(self).same_fixed(*old(self)),
    {
        self.commands.check_timeouts_at(now);
    }

    /// A read failed: the target is disconnected.
    pub fn handle_read_error(&mut self) -> (out: Vec<EngineAction>)
        ensures
            (final(self)@, actions_of(out@)) == old(self)@.turn(TargetState::Disconnected),
            final(self).same_fixed(*old(self)),
    {
        let mut out: Vec<EngineAction> = Vec::new();
        self.turn(TargetState::Disconnected, &mut out);
        assert(actions_of(out@) =~= old(self)@.turn(TargetState::Disconnected).1);
        out
    }

    /// Whether the counts of resolved commands can be moved to the state.
    pub fn can_drain_counts(&self) -> (r: bool)
        ensures
            r == (self@.state.command_count + self@.commands.completed_count <= u64::MAX
                && self@.state.error_count + self@.commands.error_count <= u64::MAX),
    {
        let (completed, errors): (u64, u64) = self.commands.counts();
        self.state.command_count() <= u64::MAX - completed && self.state.error_count() <= u64::MAX
            - errors
    }

    /// Moves the counts of resolved commands to the state.
    pub fn drain_counts(&mut self)
        requires
            old(self)@.state.command_count + old(self)@.commands.completed_count <= u64::MAX,
            old(self)@.state.error_count + old(self)@.commands.error_count <= u64::MAX,
        ensures
            final(self)@ == (EngineView {
                state: StateView {
                    command_count: old(self)@.state.command_count
                        + old(self)@.commands.completed_count,
                    error_count: old(self)@.state.error_count + old(self)@.commands.error_count,
                    ..old(self)@.state
                },
                commands: QueueView {
                    completed_count: 0,
                    error_count: 0,
                    ..old(self)@.commands
                },
                ..old(self)@
            }),
            final(self).same_fixed(*old(self)),
    {
        let (completed, errors): (u64, u64) = self.commands.take_counts();
        let ghost before = self@;
        let mut i: u64 = 0;
        while i < completed
            invariant
                i <= completed,
                before.state.command_count + completed <= u64::MAX,
                self@ == (EngineView {
                    state: StateView {
                        command_count: before.state.command_count + i,
                        ..before.state
                    },
                    ..before
                }),
                self.same_fixed(*old(self)),
            decreases completed - i,
        {
            self.state.inc_command();
            i = i + 1;
        }
        let ghost mid = self@;
        let mut j: u64 = 0;
        while j < errors
            invariant
                j <= errors,
                mid.state.error_count + errors <= u64::MAX,
                self@ == (EngineView {
                    state: StateView { error_count: mid.state.error_count + j, ..mid.state },
                    ..mid
                }),
                self.same_fixed(*old(self)),
            decreases errors - j,
        {
            self.state.inc_error();
            j = j + 1;
        }
    }
}

// ── The watchdog ────────────────────────────────────────────────────────────

/// The event is handled also where the line has no end yet.
pub open spec fn answers_prompt(e: EventView) -> bool {
    e is LoginPrompt || e is PasswordPrompt || e is Unclassified
}

impl EngineView {
    /// The engine after the events of a prompt: a stage at which the target is up
    /// makes it active, a request to log in is answered, and a line that no stage
    /// claims is kept.
    pub open spec fn woken(self, es: Seq<EventView>) -> (EngineView, Seq<ActionView>)
        decreases es.len(),
    {
        if es.len() == 0 {
            (self, Seq::empty())
        } else {
            let (v, a) = if es[0] is Stage && is_up(es[0]->Stage_0) {
                self.turn(TargetState::Active)
            } else if answers_prompt(es[0]) {
                self.boot_event(es[0])
            } else {
                (self, Seq::empty())
            };
            let (w, b) = v.woken(es.subrange(1, es.len() as int));
            (w, a + b)
        }
    }

    /// The hang check, with a heartbeat where one is due.
    pub open spec fn hang_checked(self, now: int) -> (EngineView, Seq<ActionView>) {
        let v = EngineView { state: self.state.check_hang(now), ..self };
        let a = seq![ActionView::Files(self.state.check_hang_ops(now))];
        if v.state.heartbeat_pending && v.state.current == TargetState::Active
            && v.console.connected {
            let w = v.line(Seq::empty());
            (EngineView { state: w.state.mark_probe_sent(now), ..w }, a)
        } else {
            (v, a)
        }
    }

    /// The incomplete line, unless it is a banner, is let go.
    pub open spec fn released(self) -> (EngineView, Seq<u8>) {
        if is_banner(self.partial) {
            (self, Seq::empty())
        } else {
            (EngineView { partial: Seq::empty(), ..self }, self.partial)
        }
    }

    /// A prompt without a line end is taken as a line after a second of silence.
    pub open spec fn prompt_checked(self, t: Times) -> (EngineView, Seq<ActionView>) {
        if elapsed(t.state as int, self.state.last_data_time) >= SECOND {
            let (v, rest) = self.released();
            let (v, a) = v.logged(rest);
            let (v, es) = v.detected(rest, t.detector as int);
            let fs = v.detector.flush_events(t.detector as int);
            let v = EngineView { detector: v.detector.flushed(t.detector as int), ..v };
            let (v, b) = v.woken(es + fs);
            (v, a + b)
        } else {
            (self, Seq::empty())
        }
    }

    /// What the watchdog does. `boot_like` says that the recent output looks like
    /// the reference log.
    pub open spec fn watched(self, t: Times, boot_like: bool) -> (EngineView, Seq<ActionView>) {
        if !self.running || self.paused {
            (self, Seq::empty())
        } else {
            let (v, a) = self.hang_checked(t.state as int);
            let cur = v.state.current;
            let (v, b) = v.prompt_checked(t);
            let v = if cur == TargetState::Booting && elapsed(
                t.state as int,
                v.state.last_data_time,
            ) >= 2 * SECOND && v.console.connected {
                v.line(Seq::empty())
            } else {
                v
            };
            if boot_like && v.detector.learner is Some && v.logs.ring_buffer.len() > 512 && cur
                == TargetState::Active {
                let (w, c) = (EngineView {
                    detector: v.detector.reset_cycle(),
                    ..v
                }).turn(TargetState::Booting);
                (w, a + b + seq![ActionView::NewBootLog] + c)
            } else {
                (v, a + b)
            }
        }
    }
}

impl SerialEngine {
    fn wake(&mut self, events: &Vec<BootEvent>, out: &mut Vec<EngineAction>)
        ensures
            final(self)@ == old(self)@.woken(events_of(events@)).0,
            actions_of(final(out)@) == actions_of(old(out)@) + old(self)@.woken(
                events_of(events@),
            ).1,
            final(self).same_fixed(*old(self)),
    {
        let ghost es = events_of(events@);
        let ghost goal = old(self)@.woken(es);
        let ghost start = actions_of(out@);
        let mut i: usize = 0;
        assert(es.subrange(0, es.len() as int) =~= es);
        while i < events.len()
            invariant
                i <= events@.len(),
                es == events_of(events@),
                goal.0 == self@.woken(es.subrange(i as int, es.len() as int)).0,
                start + goal.1 == actions_of(out@) + self@.woken(
                    es.subrange(i as int, es.len() as int),
                ).1,
                self.same_fixed(*old(self)),
            decreases events@.len() - i,
        {
            let ghost rest = es.subrange(i as int, es.len() as int);
            let ghost mid = actions_of(out@);
            let ghost v = self@;
            assert(rest[0] == events@[i as int]@);
            assert(rest.subrange(1, rest.len() as int) =~= es.subrange(i + 1, es.len() as int));
            let up: bool = match &events[i] {
                BootEvent::Stage(s) => is_up_stage(s),
                _ => false,
            };
            let answered: bool = matches!(
                &events[i],
                BootEvent::LoginPrompt | BootEvent::PasswordPrompt | BootEvent::Unclassified(_)
            );
            if up {
                self.turn(TargetState::Active, out);
            } else if answered {
                self.handle_boot_event(&events[i], out);
            }
            proof {
                let b = self@.woken(es.subrange(i + 1, es.len() as int)).1;
                if answered {
                    assert(mid + (v.boot_event(rest[0]).1 + b) =~= (mid + v.boot_event(rest[0]).1)
                        + b);
                } else if up {
                    assert(mid + (v.turn(TargetState::Active).1 + b) =~= (mid + v.turn(
                        TargetState::Active,
                    ).1) + b);
                } else {
                    assert(Seq::<ActionView>::empty() + b =~= b);
                }
            }
            i = i + 1;
        }
        assert(es.subrange(es.len() as int, es.len() as int) =~= Seq::<EventView>::empty());
        assert(actions_of(out@) + Seq::<ActionView>::empty() =~= actions_of(out@));
    }

    /// The recent output as text, to be held against the reference log; none
    /// where there is no reference log or too little output.
    pub fn recent_output(&self) -> (r: Option<String>)
        ensures
            r is Some <==> self@.detector.learner is Some && self@.logs.ring_buffer.len() > 512,
            r matches Some(s) ==> s@ == utf8_lossy(
                self@.logs.ring_buffer.subrange(
                    if self@.logs.ring_buffer.len() > 2048 {
                        self@.logs.ring_buffer.len() - 2048
                    } else {
                        0
                    },
                    self@.logs.ring_buffer.len() as int,
                ),
            ),
    {
        let ring = self.logs.ring_buffer();
        let n: usize = ring.len();
        if self.detector.learner().is_some() && n > 512 {
            let from: usize = n.saturating_sub(2048);
            Some(lossy_text(&ring[from..n]))
        } else {
            None
        }
    }

    /// What the watchdog does every so often. `boot_like` says that the recent
    /// output looks like the reference log.
    pub fn watchdog_once_at(&mut self, t: Times, boot_like: bool) -> (out: Vec<EngineAction>)
        ensures
            (final(self)@, actions_of(out@)) == old(self)@.watched(t, boot_like),
            final(self).same_fixed(*old(self)),
    {
        let mut out: Vec<EngineAction> = Vec::new();
        assert(actions_of(out@) =~= Seq::<ActionView>::empty());
        if !self.running || self.paused {
            return out;
        }
        proof {
            reveal_strlit("");
            assert(""@ =~= Seq::<char>::empty());
        }
        let ops = self.state.check_hang_at(t.state);
        let first = EngineAction::Files(ops);
        proof {
            lemma_actions_push(out@, first);
        }
        out.push(first);
        let cur = self.state.current();
        if self.state.heartbeat_due() && cur == TargetState::Active && self.console.is_open() {
            self.console.sendline("");
            self.state.mark_probe_sent_at(t.state);
        }
        let ghost v1 = old(self)@.hang_checked(t.state as int);
        assert(self@ == v1.0);
        assert(actions_of(out@) =~= v1.1);
        if self.state.last_data_elapsed_at(t.state) >= SECOND {
            let mut rest: Vec<u8> = Vec::new();
            if !is_banner_line(&self.partial) {
                std::mem::swap(&mut rest, &mut self.partial);
            }
            assert(self@.partial =~= v1.0.released().0.partial);
            assert((self@, rest@) == v1.0.released());
            let ghost r0 = self@;
            self.log_output(&rest, &mut out);
            let ghost a = actions_of(out@);
            let ghost r1 = self@;
            let mut events = self.detector.feed_at(&rest, t.detector);
            let ghost es = events_of(events@);
            let ghost e0 = events@;
            assert((self@, es) == r1.detected(rest@, t.detector as int));
            let ghost r2 = self@;
            let mut last = self.detector.flush_line_buf_at(t.detector);
            let ghost l0 = last@;
            events.append(&mut last);
            assert(events_of(events@) =~= es + events_of(l0));
            self.wake(&events, &mut out);
        }
        let ghost v2 = v1.0.prompt_checked(t);
        assert(self@ == v2.0);
        assert(actions_of(out@) =~= v1.1 + v2.1);
        if cur == TargetState::Booting && self.state.last_data_elapsed_at(t.state) >= 2 * SECOND
            && self.console.is_open() {
            self.console.sendline("");
        }
        if boot_like && self.detector.learner().is_some() && self.logs.ring_buffer().len() > 512
            && cur == TargetState::Active {
            let second = EngineAction::NewBootLog;
            proof {
                lemma_actions_push(out@, second);
            }
            out.push(second);
            self.detector.reset_cycle();
            self.turn(TargetState::Booting, &mut out);
            assert(actions_of(out@) =~= old(self)@.watched(t, boot_like).1);
        }
        out
    }

    /// What the watchdog does every so often.
    pub fn watchdog_once(&mut self, boot_like: bool) -> (out: Vec<EngineAction>)
        ensures
            exists|t: Times|
                (final(self)@, actions_of(out@)) == #[trigger] old(self)@.watched(t, boot_like),
            final(self).same_fixed(*old(self)),
    {
        let t = self.times();
        self.watchdog_once_at(t, boot_like)
    }
}

/// Output changes the commands only through `feed`.
proof fn lemma_commands_untouched(v: EngineView, data: Seq<u8>, t: Times)
    ensures
        v.roused(data, t.state as int).0.commands == v.commands,
        v.roused(data, t.state as int).0.logs == v.logs,
        v.roused(data, t.state as int).0.partial == v.partial,
        forall|w: EngineView, clean: Seq<u8>, now: int|
            (#[trigger] w.absorbed(clean, now)).0.commands == w.commands,
{
    assert forall|w: EngineView, clean: Seq<u8>, now: int|
        (#[trigger] w.absorbed(clean, now)).0.commands == w.commands by {
        let (x, a) = w.logged(clean);
        let (y, es) = x.detected(clean, now);
        lemma_events_frame(y, es);
    }
}

/// Boot events leave the commands, the logs in memory and the clocks alone.
proof fn lemma_events_frame(v: EngineView, es: Seq<EventView>)
    ensures
        v.boot_events(es).0.commands == v.commands,
        v.boot_events(es).0.logs == v.logs,
        v.boot_events(es).0.partial == v.partial,
        v.boot_events(es).0.values == v.values,
        v.boot_events(es).0.running == v.running,
        v.boot_events(es).0.paused == v.paused,
    decreases es.len(),
{
    if es.len() > 0 {
        lemma_events_frame(v.boot_event(es[0]).0, es.subrange(1, es.len() as int));
    }
}

// ── Laws ────────────────────────────────────────────────────────────────────

/// Law: it does not matter where output is cut into chunks: the same lines come
/// through, and the same incomplete line is left over.
pub proof fn law_banner_chunks_do_not_matter(partial: Seq<u8>, first: Seq<u8>, second: Seq<u8>)
    ensures
        banner_free(partial, first) + banner_free(left_over(partial, first), second)
            == banner_free(partial, first + second),
        left_over(left_over(partial, first), second) == left_over(partial, first + second),
{
    let a = partial + first;
    let e = whole_end(a);
    lemma_whole_end(a);
    let head = a.take(e);
    let rest = a.skip(e) + second;
    let f = whole_end(rest);
    lemma_whole_end(rest);
    let all = partial + (first + second);
    assert(all =~= head + rest);
    assert(whole_end(all) == e + f) by {
        assert forall|i: int| e + f <= i < all.len() implies #[trigger] all[i] != 10 by {
            assert(all[i] == rest[i - e]);
        }
        if f > 0 {
            assert(all[e + f - 1] == rest[f - 1]);
        } else if e > 0 {
            assert(all[e - 1] == a[e - 1]);
        }
        lemma_whole_end_is(all, e + f);
    }
    assert(all.skip(e + f) =~= rest.skip(f));
    assert(all.take(e + f) =~= head + rest.take(f));
    lemma_banner_concat(head, rest.take(f), 0);
}

/// Law: output without banner lines comes through as it is, up to its last line
/// end, and what stands behind that is left over.
pub proof fn law_other_output_comes_through(partial: Seq<u8>, data: Seq<u8>)
    requires
        !is_banner(partial + data),
    ensures
        banner_free(partial, data) + left_over(partial, data) == partial + data,
{
    let all = partial + data;
    let e = whole_end(all);
    lemma_whole_end(all);
    let head = all.take(e);
    assert forall|i: int, j: int| 0 <= i <= j <= head.len() implies !is_banner(
        #[trigger] head.subrange(i, j),
    ) by {
        let mark = encode_utf8("ser2net port"@);
        let part = head.subrange(i, j);
        crate::text::lemma_find_from(part, mark, 0);
        crate::text::lemma_find_from(all, mark, 0);
        if is_banner(part) {
            let k = find_seq(part, mark)->0;
            assert(all.subrange(i + k, i + k + mark.len()) =~= part.subrange(k, k + mark.len()));
            assert(crate::text::is_at(all, mark, i + k));
        }
    }
    lemma_no_banner(head, 0);
    assert(head.subrange(0, head.len() as int) =~= head);
    assert(head + all.skip(e) =~= all);
}

proof fn lemma_no_banner(s: Seq<u8>, from: int)
    requires
        0 <= from <= s.len(),
        forall|i: int, j: int|
            0 <= i <= j <= s.len() ==> !is_banner(#[trigger] s.subrange(i, j)),
    ensures
        without_banner(s, from) == s.subrange(from, s.len() as int),
    decreases s.len() - from,
{
    if from < s.len() {
        lemma_line_stop(s, from);
        let stop = line_stop(s, from);
        lemma_no_banner(s, stop);
        assert(!is_banner(s.subrange(from, stop)));
        assert(s.subrange(from, s.len() as int) =~= s.subrange(from, stop) + s.subrange(
            stop,
            s.len() as int,
        ));
    } else {
        assert(s.subrange(from, s.len() as int) =~= Seq::<u8>::empty());
    }
}

proof fn lemma_banner_concat(a: Seq<u8>, b: Seq<u8>, from: int)
    requires
        a.len() > 0 ==> a.last() == 10,
        0 <= from <= a.len(),
    ensures
        without_banner(a + b, from) == without_banner(a, from) + without_banner(b, 0),
    decreases a.len() - from,
{
    if from == a.len() {
        lemma_banner_shift(a, b, 0);
        assert(Seq::<u8>::empty() + without_banner(b, 0) =~= without_banner(b, 0));
    } else {
        lemma_line_stop(a, from);
        lemma_line_stop_concat(a, b, from);
        let stop = line_stop(a, from);
        lemma_banner_concat(a, b, stop);
        let line = a.subrange(from, stop);
        assert((a + b).subrange(from, stop) =~= line);
        let kept = if is_banner(line) {
            Seq::<u8>::empty()
        } else {
            line
        };
        assert(kept + (without_banner(a, stop) + without_banner(b, 0)) =~= kept + without_banner(
            a,
            stop,
        ) + without_banner(b, 0));
    }
}

proof fn lemma_banner_shift(a: Seq<u8>, b: Seq<u8>, from: int)
    requires
        0 <= from <= b.len(),
    ensures
        without_banner(a + b, a.len() + from) == without_banner(b, from),
    decreases b.len() - from,
{
    if from < b.len() {
        lemma_line_stop_shift(a, b, from);
        lemma_line_stop(b, from);
        let stop = line_stop(b, from);
        lemma_banner_shift(a, b, stop);
        assert((a + b).subrange(a.len() + from, a.len() + stop) =~= b.subrange(from, stop));
    }
}

/// Law: a crashed target stays crashed through boot stages, until it is up again
/// or a new boot begins.
pub proof fn law_crash_sticks(v: EngineView, stage: Seq<char>)
    requires
        v.state.current == TargetState::Crashed,
    ensures
        v.boot_event(EventView::Stage(stage)).0.state.current == (if stage_state(stage)
            == TargetState::Active {
            TargetState::Active
        } else {
            TargetState::Crashed
        }),
        v.boot_event(EventView::BootStart).0.state.current == TargetState::Booting,
{
}

/// Law: a chunk with a shutdown message turns the target off, whatever its state
/// was; any other chunk wakes a target that was off and leaves another in its
/// state. Both hold before the events of the chunk are handled.
pub proof fn law_shutdown_turns_off(v: EngineView, data: Seq<u8>, now: int)
    ensures
        v.roused(data, now).0.state.current == (if shuts_down(utf8_lossy(data)) {
            TargetState::DutOff
        } else if v.state.current == TargetState::DutOff {
            TargetState::Active
        } else {
            v.state.current
        }),
{
}

/// A boot event that may change the target's state.
pub open spec fn moves_state(e: EventView) -> bool {
    e is BootStart || e is Stage || e is Crash
}

/// Law: where a chunk with a shutdown message shows no stage, boot start or crash,
/// the target is off after it.
pub proof fn law_shutdown_lasts(v: EngineView, data: Seq<u8>, t: Times)
    requires
        shuts_down(utf8_lossy(data)),
        ({
            let (w, a) = v.roused(data, t.state as int);
            let (w, clean) = w.filtered(data);
            let es = w.logged(clean).0.detected(clean, t.detector as int).1;
            forall|i: int| 0 <= i < es.len() ==> !moves_state(#[trigger] es[i])
        }),
    ensures
        v.received(data, t).0.state.current == TargetState::DutOff,
{
    let (w, a) = v.roused(data, t.state as int);
    let (w, clean) = w.filtered(data);
    let (w, es) = w.logged(clean).0.detected(clean, t.detector as int);
    lemma_still_events(w, es);
}

/// Events that do not move the state leave it.
proof fn lemma_still_events(v: EngineView, es: Seq<EventView>)
    requires
        forall|i: int| 0 <= i < es.len() ==> !moves_state(#[trigger] es[i]),
    ensures
        v.boot_events(es).0.state == v.state,
    decreases es.len(),
{
    if es.len() > 0 {
        assert(!moves_state(es[0]));
        let rest = es.subrange(1, es.len() as int);
        assert forall|i: int| 0 <= i < rest.len() implies !moves_state(#[trigger] rest[i]) by {
            assert(!moves_state(es[i + 1]));
        }
        lemma_still_events(v.boot_event(es[0]).0, rest);
    }
}

/// Law: a stage at which the target is up makes it active at once, whatever its
/// state was.
pub proof fn law_up_means_active(v: EngineView, stage: Seq<char>)
    requires
        is_up(stage),
    ensures
        v.boot_event(EventView::Stage(stage)).0.state.current == TargetState::Active,
{
    reveal_strlit("shell");
    reveal_strlit("android_shell");
    reveal_strlit("android_adbd");
    reveal_strlit("android_bootanim");
    reveal_strlit("android_surfaceflinger");
    reveal_strlit("android_boot_completed");
    reveal_strlit("uboot");
    reveal_strlit("autoboot");
    assert("autoboot"@[1] != "shell"@[1]);
    assert("uboot"@[0] != "shell"@[0]);
}

/// Law: a prompt without a line end is not held back: after a second of silence
/// it has gone to the log and to the detector, and nothing is left of it.
pub proof fn law_prompts_are_not_held_back(v: EngineView, t: Times)
    requires
        elapsed(t.state as int, v.state.last_data_time) >= SECOND,
        v.partial.len() > 0,
        !is_banner(v.partial),
    ensures
        ({
            let (w, a) = v.prompt_checked(t);
            &&& w.partial.len() == 0
            &&& w.detector.line_buf.len() == 0
            &&& w.logs == v.logs.appended(cleaned(v.partial))
            &&& a.len() > 0
            &&& a[0] == v.logged(v.partial).1[0]
        }),
{
    let (x, rest) = v.released();
    let (x, a) = x.logged(rest);
    let (x, es) = x.detected(rest, t.detector as int);
    let fs = x.detector.flush_events(t.detector as int);
    let y = EngineView { detector: x.detector.flushed(t.detector as int), ..x };
    lemma_woken_frame(y, es + fs);
}

/// The events of a prompt leave the logs in memory and the detector alone.
proof fn lemma_woken_frame(v: EngineView, es: Seq<EventView>)
    ensures
        v.woken(es).0.logs == v.logs,
        v.woken(es).0.partial == v.partial,
        v.woken(es).0.detector == v.detector,
    decreases es.len(),
{
    if es.len() > 0 {
        let w = if es[0] is Stage && is_up(es[0]->Stage_0) {
            v.turn(TargetState::Active).0
        } else if answers_prompt(es[0]) {
            v.boot_event(es[0]).0
        } else {
            v
        };
        lemma_woken_frame(w, es.subrange(1, es.len() as int));
    }
}

/// Law: lines that no stage claims are kept for learning, whether they end or are
/// taken as they stand after a silence, and change nothing else; a new boot drops
/// them.
pub proof fn law_unclassified_lines_are_kept(v: EngineView, ls: Seq<Seq<char>>)
    requires
        ls.len() > 0,
    ensures
        v.boot_event(EventView::Unclassified(ls)) == (
            v,
            seq![ActionView::AppendUnclassified(ls)],
        ),
        v.woken(seq![EventView::Unclassified(ls)]) == (v, seq![ActionView::AppendUnclassified(ls)]),
        v.boot_event(EventView::BootStart).1.contains(ActionView::DropUnclassified),
{
    let es = seq![EventView::Unclassified(ls)];
    assert(es.subrange(1, 1) =~= Seq::<EventView>::empty());
    reveal_with_fuel(EngineView::woken, 2);
    let kept = seq![ActionView::AppendUnclassified(ls)];
    assert(kept + Seq::<ActionView>::empty() =~= kept);
    assert(v.boot_event(EventView::BootStart).1[1] == ActionView::DropUnclassified);
}

/// Law: a new boot saves the old log before anything else, and the detector
/// starts over.
pub proof fn law_boot_start_cuts_the_log(v: EngineView)
    ensures
        v.boot_event(EventView::BootStart).1[0] == ActionView::NewBootLog,
        v.boot_event(EventView::BootStart).0.detector == v.detector.reset_cycle(),
{
}

/// Law: credentials are typed only at their prompts, and only where they are
/// configured; every other event leaves the console alone.
pub proof fn law_console_is_quiet(v: EngineView, e: EventView)
    ensures
        v.boot_event(e).0.console == (if e is LoginPrompt && v.login_user.len() > 0 {
            v.line(v.login_user).console
        } else if e is PasswordPrompt && v.login_pass.len() > 0 {
            v.line(v.login_pass).console
        } else {
            v.console
        }),
{
}

/// Law: a paused engine sends nothing and does not read.
pub proof fn law_paused_engine_is_idle(v: EngineView, t: Times, boot_like: bool, claimed: bool)
    requires
        v.paused,
    ensures
        v.watched(t, boot_like) == (v, Seq::<ActionView>::empty()),
        v.step(claimed) == LoopStep::Idle,
{
}

/// Law: what an event does to the state. A boot start and a crash are taken from
/// any state. So is a stage, which leaves the target in the state that it stands
/// for; only a crashed target waits for a stage at which it is up. Every other
/// event leaves the state.
pub proof fn law_events_decide_the_state(v: EngineView, e: EventView)
    ensures
        e is BootStart ==> v.boot_event(e).0.state.current == TargetState::Booting,
        e is Crash ==> v.boot_event(e).0.state.current == TargetState::Crashed,
        e matches EventView::Stage(s) ==> {
            let now = v.boot_event(e).0.state.current;
            let up = s == "shell"@ || s == "android_shell"@ || s == "android_adbd"@ || s
                == "android_bootanim"@ || s == "android_surfaceflinger"@ || s
                == "android_boot_completed"@;
            let loader = s == "uboot"@ || s == "autoboot"@;
            &&& up ==> now == TargetState::Active
            &&& loader && v.state.current != TargetState::Crashed ==> now == TargetState::UBoot
            &&& !up && !loader && v.state.current != TargetState::Crashed ==> now
                == TargetState::Booting
            &&& !up && v.state.current == TargetState::Crashed ==> now == TargetState::Crashed
        },
        !(e is BootStart) && !(e is Crash) && !(e is Stage) ==> v.boot_event(e).0.state == v.state,
{
    reveal_strlit("shell");
    reveal_strlit("android_shell");
    reveal_strlit("android_adbd");
    reveal_strlit("android_bootanim");
    reveal_strlit("android_surfaceflinger");
    reveal_strlit("android_boot_completed");
    reveal_strlit("uboot");
    reveal_strlit("autoboot");
    assert("autoboot"@[1] != "shell"@[1] && "autoboot"@[1] != "android_shell"@[1]);
    assert("uboot"@[0] != "shell"@[0] && "uboot"@[0] != "android_shell"@[0]);
    assert("autoboot"@[1] != "android_adbd"@[1] && "autoboot"@[1] != "android_bootanim"@[1]
        && "autoboot"@[1] != "android_surfaceflinger"@[1] && "autoboot"@[1]
        != "android_boot_completed"@[1]);
    assert("uboot"@[0] != "android_adbd"@[0] && "uboot"@[0] != "android_bootanim"@[0]
        && "uboot"@[0] != "android_surfaceflinger"@[0] && "uboot"@[0]
        != "android_boot_completed"@[0]);
}

/// Law: events take effect one after the other, so the last one that moves the
/// state decides it.
pub proof fn law_events_follow_one_another(v: EngineView, es: Seq<EventView>, fs: Seq<EventView>)
    ensures
        v.boot_events(es + fs).0 == v.boot_events(es).0.boot_events(fs).0,
        v.boot_events(es + fs).1 == v.boot_events(es).1 + v.boot_events(es).0.boot_events(fs).1,
        v.boot_events(Seq::empty()) == (v, Seq::<ActionView>::empty()),
        forall|e: EventView| #[trigger]
            v.boot_events(seq![e]).0 == v.boot_event(e).0,
    decreases es.len(),
{
    if es.len() == 0 {
        assert(es + fs =~= fs);
        assert(v.boot_events(es).1 + v.boot_events(fs).1 =~= v.boot_events(fs).1);
    } else {
        let rest = es.subrange(1, es.len() as int);
        assert((es + fs).subrange(1, (es + fs).len() as int) =~= rest + fs);
        assert((es + fs)[0] == es[0]);
        let (w, a) = v.boot_event(es[0]);
        law_events_follow_one_another(w, rest, fs);
        let (x, b) = w.boot_events(rest);
        let c = x.boot_events(fs).1;
        assert(a + (b + c) =~= a + b + c);
    }
    assert forall|e: EventView| #[trigger] v.boot_events(seq![e]).0 == v.boot_event(e).0 by {
        let one = seq![e];
        assert(one.subrange(1, 1) =~= Seq::<EventView>::empty());
        reveal_with_fuel(EngineView::boot_events, 2);
    }
}

/// The state's counters and clocks stay through boot events.
proof fn lemma_events_keep_clocks(v: EngineView, es: Seq<EventView>)
    ensures
        v.boot_events(es).0.state.last_data_time == v.state.last_data_time,
        v.boot_events(es).0.state.last_probe_time == v.state.last_probe_time,
        v.boot_events(es).0.console.connected == v.console.connected,
    decreases es.len(),
{
    if es.len() > 0 {
        lemma_events_keep_clocks(v.boot_event(es[0]).0, es.subrange(1, es.len() as int));
    }
}

/// Law: output reaches everyone that waits for it: the clock of the last data, the
/// log with its whole lines, the incomplete line, and the running command.
pub proof fn law_output_reaches_all(v: EngineView, data: Seq<u8>, t: Times)
    ensures
        ({
            let (w, a) = v.received(data, t);
            let clean = banner_free(v.partial, data);
            &&& w.state.last_data_time == t.state
            &&& w.state.last_probe_time == t.state
            &&& w.partial == left_over(v.partial, data)
            &&& w.logs == (if clean.len() == 0 {
                v.logs
            } else {
                v.logs.appended(cleaned(clean))
            })
            &&& clean.len() > 0 ==> a.contains(
                ActionView::AppendLog {
                    data: cleaned(clean),
                    rotate: v.logs.appended(cleaned(clean)).oversized(),
                },
            )
            &&& w.commands == v.commands.feed(klog_free(data), t.commands as int)
            &&& w.running == v.running && w.paused == v.paused
        }),
{
    let (x, a) = v.roused(data, t.state as int);
    let (x, clean) = x.filtered(data);
    let (y, b) = x.logged(clean);
    let (z, es) = y.detected(clean, t.detector as int);
    lemma_events_frame(z, es);
    lemma_events_keep_clocks(z, es);
    if clean.len() > 0 {
        let all = v.received(data, t).1;
        let c = z.boot_events(es).1;
        assert(all == a + (b + c));
        assert(all[a.len() as int] == b[0]);
    }
}

/// Law: the verdict on a fresh connection. A failed read means that the line is
/// down, silence that the target is up. Output that shows a target that is up, a
/// boot or the boot loader decides, in this order; other output asks for a second
/// probe.
pub proof fn law_first_probe(v: EngineView, read: Option<Seq<u8>>, now: int)
    ensures
        read is None ==> v.probed(read, now).0.state.current == TargetState::Disconnected
            && !v.probed(read, now).2,
        read is Some && read->0.len() == 0 ==> v.probed(read, now).0.state.current
            == TargetState::Active && !v.probed(read, now).2,
        read matches Some(data) ==> data.len() > 0 ==> {
            let clean = banner_free(v.partial, data);
            let es = v.detector.buffered(clean).drained(now).1;
            let (w, a, again) = v.probed(read, now);
            &&& clean.len() == 0 ==> again
            &&& clean.len() > 0 ==> again == !(boot_complete(es) || boot_began(es) || at_uboot(es))
            &&& !again ==> w.state.current == (if boot_complete(es) {
                TargetState::Active
            } else if boot_began(es) {
                TargetState::Booting
            } else {
                TargetState::UBoot
            })
            &&& again ==> w.state.current == v.state.current && w.console.queue == enqueued(
                v.console.queue,
                encode_utf8(Seq::empty() + "\n"@),
            )
        },
{
}

/// Law: the second probe. Only silence means that the target is off; any answer
/// means that it is up, the boot loader's prompt that it stands there.
pub proof fn law_second_probe(v: EngineView, read: Option<Seq<u8>>, now: int)
    ensures
        v.probed_again(read, now).0.state.current == TargetState::DutOff <==> read == Some(
            Seq::<u8>::empty(),
        ),
        read is None ==> v.probed_again(read, now).0.state.current == TargetState::Active,
        read matches Some(data) ==> data.len() > 0 ==> {
            let es = v.detector.buffered(data).drained(now).1;
            v.probed_again(read, now).0.state.current == (if at_uboot(es) && !boot_complete(es) {
                TargetState::UBoot
            } else {
                TargetState::Active
            })
        },
{
    if let Some(data) = read {
        if data.len() == 0 {
            assert(data =~= Seq::<u8>::empty());
        }
    }
}

/// Law: a heartbeat is sent exactly where one is due: an active, connected target
/// is sent an empty line, and the probe counts from then on.
pub proof fn law_heartbeats(v: EngineView, now: int)
    ensures
        ({
            let w = v.hang_checked(now).0;
            let due = v.state.check_hang(now).heartbeat_pending && v.state.check_hang(now).current
                == TargetState::Active && v.console.connected;
            &&& w.state.current == v.state.check_hang(now).current
            &&& w.console.queue == (if due {
                enqueued(v.console.queue, encode_utf8(Seq::empty() + "\n"@))
            } else {
                v.console.queue
            })
            &&& due ==> w.state.last_probe_time == now && !w.state.heartbeat_pending
            &&& !due ==> w.state == v.state.check_hang(now)
        }),
{
}

/// Law: a reboot of an active target is noticed by its likeness to the reference
/// log: the log is cut, the detector starts over and the target boots. Without
/// that likeness, or too little output, the watchdog starts no boot.
#[verifier::rlimit(50)]
pub proof fn law_reboots_are_noticed(v: EngineView, t: Times, boot_like: bool)
    requires
        v.running,
        !v.paused,
    ensures
        ({
            let (w, a) = v.watched(t, boot_like);
            let active = v.state.check_hang(t.state as int).current == TargetState::Active;
            let ring = v.hang_checked(t.state as int).0.prompt_checked(t).0.logs.ring_buffer;
            &&& boot_like && v.detector.learner is Some && ring.len() > 512 && active ==> {
                &&& w.state.current == TargetState::Booting
                &&& a.contains(ActionView::NewBootLog)
                &&& w.detector.flags.boot_detected == false
            }
            &&& !boot_like || v.detector.learner is None || ring.len() <= 512 || !active ==> !a.contains(
                ActionView::NewBootLog,
            )
        }),
{
    let (x, a) = v.hang_checked(t.state as int);
    let (y, b) = x.prompt_checked(t);
    lemma_prompt_learner(x, t);
    let w = v.watched(t, boot_like);
    let marked = a + b + seq![ActionView::NewBootLog];
    assert(marked[(a + b).len() as int] == ActionView::NewBootLog);
    if boot_like && v.detector.learner is Some && y.logs.ring_buffer.len() > 512
        && x.state.current == TargetState::Active {
        assert(w.1[(a + b).len() as int] == ActionView::NewBootLog);
    } else {
        lemma_prompt_actions(x, t);
        assert(w.1 == a + b);
        assert forall|i: int| 0 <= i < w.1.len() implies w.1[i] != ActionView::NewBootLog by {
            if i < a.len() {
                assert(w.1[i] == a[i]);
            } else {
                assert(w.1[i] == b[i - a.len()]);
            }
        }
    }
}

/// Looking for a prompt keeps whether there is a learner.
proof fn lemma_prompt_learner(v: EngineView, t: Times)
    ensures
        v.prompt_checked(t).0.detector.learner is Some <==> v.detector.learner is Some,
{
    let (x, rest) = v.released();
    let (x, a) = x.logged(rest);
    crate::boot_detector::lemma_learner_stays(x.detector.buffered(rest), t.detector as int);
    let (x, es) = x.detected(rest, t.detector as int);
    let fs = x.detector.flush_events(t.detector as int);
    let y = EngineView { detector: x.detector.flushed(t.detector as int), ..x };
    lemma_woken_frame(y, es + fs);
}

/// Looking for a prompt never cuts the log.
proof fn lemma_prompt_actions(v: EngineView, t: Times)
    ensures
        forall|i: int|
            0 <= i < v.prompt_checked(t).1.len() ==> #[trigger] v.prompt_checked(t).1[i]
                != ActionView::NewBootLog,
{
    let (x, rest) = v.released();
    let (x, a) = x.logged(rest);
    let (x, es) = x.detected(rest, t.detector as int);
    let fs = x.detector.flush_events(t.detector as int);
    let y = EngineView { detector: x.detector.flushed(t.detector as int), ..x };
    lemma_woken_actions(y, es + fs);
}

proof fn lemma_woken_actions(v: EngineView, es: Seq<EventView>)
    ensures
        forall|i: int|
            0 <= i < v.woken(es).1.len() ==> #[trigger] v.woken(es).1[i] != ActionView::NewBootLog,
    decreases es.len(),
{
    if es.len() > 0 {
        let (w, a) = if es[0] is Stage && is_up(es[0]->Stage_0) {
            v.turn(TargetState::Active)
        } else if answers_prompt(es[0]) {
            v.boot_event(es[0])
        } else {
            (v, Seq::empty())
        };
        let rest = es.subrange(1, es.len() as int);
        lemma_woken_actions(w, rest);
        let b = w.woken(rest).1;
        assert forall|i: int| 0 <= i < (a + b).len() implies #[trigger] (a + b)[i]
            != ActionView::NewBootLog by {
            if i >= a.len() {
                assert((a + b)[i] == b[i - a.len()]);
            }
        }
    }
}

/// Law: the line is read only by a running engine that is not paused, has the line
/// for itself and is not disconnected; it is given away exactly where it is held
/// and claimed, and a line that came back or broke is connected again.
pub proof fn law_loop_steps(v: EngineView, claimed: bool)
    ensures
        v.step(claimed) == LoopStep::Read <==> v.running && !v.paused && !claimed
            && v.state.current != TargetState::Disconnected && v.state.current
            != TargetState::Dutabo,
        v.step(claimed) == LoopStep::HandOver <==> v.running && !v.paused && claimed
            && v.console.connected && v.state.current != TargetState::Dutabo,
        v.step(claimed) == LoopStep::Reconnect <==> v.running && !v.paused && !claimed
            && v.state.current == TargetState::Disconnected,
        v.step(claimed) == LoopStep::TakeBack <==> v.running && !v.paused && v.state.current
            == TargetState::Dutabo,
        v.step(claimed) == LoopStep::Idle <==> !v.running || v.paused,
{
}

/// Law: an engine starts only where it knows the host and the port, and says what
/// is missing.
pub proof fn law_missing_settings_are_named(m: Values)
    ensures
        start_issues(m).contains("dev_host.ip not set"@) <==> host_ip(m).len() == 0,
        start_issues(m).contains("serial.port not set"@) <==> serial_target_of(m).len() == 0
            || serial_target_of(m) == "0"@,
        start_issues(m).len() == 0 <==> host_ip(m).len() > 0 && serial_target_of(m).len() > 0
            && serial_target_of(m) != "0"@,
{
    let issues = start_issues(m);
    reveal_strlit("dev_host.ip not set");
    reveal_strlit("serial.port not set");
    assert("dev_host.ip not set"@[0] != "serial.port not set"@[0]);
    if host_ip(m).len() == 0 {
        assert(issues[0] == "dev_host.ip not set"@);
    }
    if serial_target_of(m).len() == 0 || serial_target_of(m) == "0"@ {
        assert(issues[issues.len() - 1] == "serial.port not set"@);
    }
}

/// Law: a target shuts down where the output says so, and nowhere else.
pub proof fn law_shutdown_messages(before: Seq<char>, after: Seq<char>, text: Seq<char>)
    ensures
        shuts_down(before + "Power down"@ + after),
        shuts_down(before + "System halted"@ + after),
        shuts_down(text) ==> exists|i: int|
            0 <= i < text.len() && (#[trigger] text.skip(i).take(10) == "Power down"@
                || text.skip(i).take(13) == "System halted"@),
{
    lemma_stands_in(before, "Power down"@, after);
    lemma_stands_in(before, "System halted"@, after);
    reveal_strlit("Power down");
    reveal_strlit("System halted");
    reveal_strlit("reboot: Power down");
    if shuts_down(text) {
        let p = "Power down"@;
        let h = "System halted"@;
        let r = "reboot: Power down"@;
        crate::text::lemma_find_from(text, p, 0);
        crate::text::lemma_find_from(text, h, 0);
        crate::text::lemma_find_from(text, r, 0);
        if occurs(text, p) {
            let i = find_seq(text, p)->0;
            assert(text.skip(i).take(10) =~= text.subrange(i, i + 10));
        } else if occurs(text, h) {
            let i = find_seq(text, h)->0;
            assert(text.skip(i).take(13) =~= text.subrange(i, i + 13));
            assert(text.skip(i).take(10) == text.skip(i).take(10));
        } else {
            let i = find_seq(text, r)->0;
            assert(r.subrange(8, 18) =~= p);
            assert(text.subrange(i + 8, i + 18) =~= text.subrange(i, i + 18).subrange(8, 18));
            assert(crate::text::is_at(text, p, i + 8));
        }
    }
}

/// A text stands in what is built around it.
proof fn lemma_stands_in(before: Seq<char>, t: Seq<char>, after: Seq<char>)
    ensures
        occurs(before + t + after, t),
{
    let s = before + t + after;
    let k = before.len() as int;
    assert(s.subrange(k, k + t.len()) =~= t);
    assert(crate::text::is_at(s, t, k));
    crate::text::lemma_occurs(s, t);
}

/// Law: a line that names the port server is dropped whole, any other line passes whole,
/// and what follows is treated likewise.
#[verifier::rlimit(50)]
pub proof fn law_banner_lines_are_dropped(line: Seq<u8>, rest: Seq<u8>)
    requires
        forall|i: int| 0 <= i < line.len() ==> #[trigger] line[i] != 10,
    ensures
        ({
            let e = Seq::<u8>::empty();
            let whole = line + seq![10u8];
            &&& occurs(whole, encode_utf8("ser2net port"@)) ==> banner_free(e, whole + rest)
                == banner_free(e, rest)
            &&& !occurs(whole, encode_utf8("ser2net port"@)) ==> banner_free(e, whole + rest)
                == whole + banner_free(e, rest)
            &&& left_over(e, whole + rest) == left_over(e, rest)
            &&& left_over(e, line) == line
            &&& banner_free(e, line).len() == 0
        }),
{
    let e = Seq::<u8>::empty();
    let whole = line + seq![10u8];
    law_banner_chunks_do_not_matter(e, whole, rest);
    assert(e + whole =~= whole);
    assert(whole.last() == 10);
    assert(whole_end(whole) == whole.len());
    assert(whole.take(whole.len() as int) =~= whole);
    assert(left_over(e, whole) =~= e);
    crate::text::law_line_stop(line, e);
    assert(line + seq![10u8] + e =~= whole);
    assert(line_stop(whole, 0) == whole.len());
    assert(whole.subrange(0, whole.len() as int) =~= whole);
    assert(without_banner(whole, whole.len() as int) =~= e);
    assert(whole + e =~= whole);
    assert(e + banner_free(e, rest) =~= banner_free(e, rest));
    assert(e + line =~= line);
    lemma_nothing_whole(line);
    assert(line.skip(0) =~= line);
    assert(line.take(0) =~= e);
}

proof fn lemma_nothing_whole(s: Seq<u8>)
    requires
        forall|i: int| 0 <= i < s.len() ==> #[trigger] s[i] != 10,
    ensures
        whole_end(s) == 0,
    decreases s.len(),
{
    if s.len() > 0 {
        assert(s[s.len() - 1] != 10);
        assert forall|i: int| 0 <= i < s.drop_last().len() implies #[trigger] s.drop_last()[i]
            != 10 by {
            assert(s[i] != 10);
        }
        lemma_nothing_whole(s.drop_last());
    }
}

/// Law: a change of the state is published: its files are changed for the new state, and
/// nothing is written where the state stays.
pub proof fn law_changes_are_published(v: EngineView, e: EventView)
    ensures
        ({
            let (w, a) = v.boot_event(e);
            &&& w.state.current != v.state.current ==> a.contains(
                ActionView::Files(v.state.transition_ops(w.state.current)),
            )
            &&& (e is LoginPrompt || e is PasswordPrompt || e is Autoboot) ==> a.len() == 0
            &&& w.logs == v.logs && w.commands == v.commands && w.partial == v.partial
        }),
{
    let (w, a) = v.boot_event(e);
    if w.state.current != v.state.current {
        if e is BootStart {
            assert(a[2] == ActionView::Files(v.state.transition_ops(w.state.current)));
        } else {
            assert(a[0] == ActionView::Files(v.state.transition_ops(w.state.current)));
        }
    }
}

/// Law: a prompt is answered with the name or the password and a line feed, where one is
/// configured.
pub proof fn law_prompts_are_answered(v: EngineView)
    ensures
        v.login_user.len() > 0 && v.console.queue.len() < 64 ==> v.boot_event(
            EventView::LoginPrompt,
        ).0.console.queue == v.console.queue.push(encode_utf8(v.login_user + "\n"@)),
        v.login_pass.len() > 0 && v.console.queue.len() < 64 ==> v.boot_event(
            EventView::PasswordPrompt,
        ).0.console.queue == v.console.queue.push(encode_utf8(v.login_pass + "\n"@)),
        v.login_user.len() == 0 ==> v.boot_event(EventView::LoginPrompt).0 == v,
        v.login_pass.len() == 0 ==> v.boot_event(EventView::PasswordPrompt).0 == v,
        v.boot_event(EventView::Autoboot).0 == v,
{
}

/// Law: a boot is complete, began or reached its loader where one of the events says so.
pub proof fn law_events_tell_the_boot(es: Seq<EventView>, fs: Seq<EventView>, s: Seq<char>)
    ensures
        boot_began(es + seq![EventView::BootStart] + fs),
        at_uboot(es + seq![EventView::Stage("uboot"@)] + fs),
        s == "shell"@ || s == "android_shell"@ || s == "android_adbd"@ || s == "android_bootanim"@
            || s == "android_surfaceflinger"@ || s == "android_boot_completed"@ ==> boot_complete(
            es + seq![EventView::Stage(s)] + fs,
        ),
        boot_began(es) ==> es.contains(EventView::BootStart),
        at_uboot(es) ==> es.contains(EventView::Stage("uboot"@)),
        boot_complete(es) ==> es.contains(EventView::Stage("shell"@)) || es.contains(
            EventView::Stage("android_shell"@),
        ) || es.contains(EventView::Stage("android_adbd"@)) || es.contains(
            EventView::Stage("android_bootanim"@),
        ) || es.contains(EventView::Stage("android_surfaceflinger"@)) || es.contains(
            EventView::Stage("android_boot_completed"@),
        ),
{
    let k = es.len() as int;
    let a = es + seq![EventView::BootStart] + fs;
    assert(a[k] is BootStart);
    let b = es + seq![EventView::Stage("uboot"@)] + fs;
    assert(b[k] == EventView::Stage("uboot"@));
    let c = es + seq![EventView::Stage(s)] + fs;
    assert(c[k] == EventView::Stage(s));
}

/// Law: without output a line that waits is taken up after a second, not before: a shell
/// in it makes the target active, a prompt is answered, and any other stage is left.
#[verifier::rlimit(50)]
pub proof fn law_waking(v: EngineView, e: EventView, es: Seq<EventView>, t: Times)
    ensures
        t.state - v.state.last_data_time < 1_000_000_000 ==> v.prompt_checked(t) == (
            v,
            Seq::<ActionView>::empty(),
        ),
        v.woken(Seq::empty()) == (v, Seq::<ActionView>::empty()),
        ({
            let up = e matches EventView::Stage(s) && (s == "shell"@ || s == "android_shell"@ || s
                == "android_adbd"@ || s == "android_bootanim"@ || s == "android_surfaceflinger"@
                || s == "android_boot_completed"@);
            let answered = e is LoginPrompt || e is PasswordPrompt || e is Unclassified;
            let first = seq![e] + es;
            &&& up ==> v.woken(first).0 == (EngineView {
                state: StateView { current: TargetState::Active, ..v.state },
                ..v
            }).woken(es).0
            &&& answered ==> v.woken(first).0 == v.boot_event(e).0.woken(es).0
            &&& !up && !answered ==> v.woken(first) == v.woken(es)
        }),
{
    let first = seq![e] + es;
    assert(first[0] == e);
    assert(first.subrange(1, first.len() as int) =~= es);
    assert(Seq::<ActionView>::empty() + v.woken(es).1 =~= v.woken(es).1);
}

/// Law: a target that boots in silence for two seconds is sent a line feed.
pub proof fn law_silent_boots_are_prodded(v: EngineView, t: Times)
    requires
        v.running,
        !v.paused,
    ensures
        ({
            let h = v.hang_checked(t.state as int).0;
            let p = h.prompt_checked(t).0;
            let w = v.watched(t, false).0;
            let silent = t.state - p.state.last_data_time >= 2_000_000_000;
            &&& h.state.current == TargetState::Booting && silent && p.console.connected
                && p.console.queue.len() < 64 ==> w.console.queue == p.console.queue.push(
                encode_utf8(Seq::empty() + "\n"@),
            )
            &&& h.state.current != TargetState::Booting || !silent || !p.console.connected
                ==> w.console.queue == p.console.queue
        }),
{
}

/// Law: a line that is held back is let go, unless it may yet turn out to be the port
/// server's.
pub proof fn law_held_back_lines(v: EngineView)
    ensures
        occurs(v.partial, encode_utf8("ser2net port"@)) ==> v.released() == (
            v,
            Seq::<u8>::empty(),
        ),
        !occurs(v.partial, encode_utf8("ser2net port"@)) ==> v.released().1 == v.partial
            && v.released().0.partial.len() == 0,
{
}

/// Law: what is logged is cleaned; nothing is logged where there is nothing.
pub proof fn law_output_is_logged(v: EngineView, data: Seq<u8>)
    ensures
        data.len() == 0 ==> v.logged(data) == (v, Seq::<ActionView>::empty()),
        data.len() > 0 ==> {
            let logs = v.logs.appended(cleaned(data));
            v.logged(data) == (
                EngineView { logs, ..v },
                seq![
                    ActionView::AppendLog {
                        data: cleaned(data),
                        rotate: logs.current_open && logs.current_size > logs.max_file_size,
                    },
                ],
            )
        },
{
}

/// Law: handling a boot event leaves the target in the state that the event means: a
/// start is booting, a crash is crashed until a shell is up, a loader is the loader, and
/// a shell is active; every change is published.
pub proof fn law_handling_an_event(
    s: &mut SerialEngine,
    events: Vec<BootEvent>,
    out: Vec<EngineAction>,
    e: BootEvent,
)
    requires
        call_ensures(SerialEngine::handle_boot_events, (s, events), out),
        events@ == seq![e],
    ensures
        ({
            let was = old(s)@.state.current;
            let now = final(s)@.state.current;
            &&& e@ is BootStart ==> now == TargetState::Booting
            &&& e@ is Crash ==> now == TargetState::Crashed
            &&& e@ matches EventView::Stage(n) ==> {
                let up = n == "shell"@ || n == "android_shell"@ || n == "android_adbd"@ || n
                    == "android_bootanim"@ || n == "android_surfaceflinger"@ || n
                    == "android_boot_completed"@;
                let loader = n == "uboot"@ || n == "autoboot"@;
                &&& up ==> now == TargetState::Active
                &&& !up && was == TargetState::Crashed ==> now == TargetState::Crashed
                &&& loader && was != TargetState::Crashed ==> now == TargetState::UBoot
                &&& !up && !loader && was != TargetState::Crashed ==> now == TargetState::Booting
            }
            &&& !(e@ is BootStart) && !(e@ is Crash) && !(e@ is Stage) ==> now == was
            &&& now != was ==> actions_of(out@).contains(
                ActionView::Files(old(s)@.state.transition_ops(now)),
            )
            &&& final(s)@.logs == old(s)@.logs && final(s)@.commands == old(s)@.commands
        }),
{
    law_events_decide_the_state(old(s)@, e@);
    law_changes_are_published(old(s)@, e@);
    let v = old(s)@;
    let es = events_of(events@);
    assert(es =~= seq![e@]);
    assert(es[0] == e@);
    assert(es.subrange(1, 1) =~= Seq::<EventView>::empty());
    let w = v.boot_event(e@).0;
    assert(w.boot_events(Seq::empty()) == (w, Seq::<ActionView>::empty()));
    assert(v.boot_event(e@).1 + Seq::<ActionView>::empty() =~= v.boot_event(e@).1);
}

/// Law: a pause gives the line away, and a lost connection is known as such; a new one
/// turns the echo off first.
pub proof fn law_connecting_and_pausing(
    s: &mut SerialEngine,
    made: bool,
    out: Vec<EngineAction>,
    p: &mut SerialEngine,
    actions: Vec<EngineAction>,
)
    requires
        call_ensures(SerialEngine::on_connect, (s, made), out),
        call_ensures(SerialEngine::pause, (p,), actions),
    ensures
        final(s)@.console.connected <==> made,
        !made ==> final(s)@.state.current == TargetState::Disconnected,
        made ==> final(s)@.state == old(s)@.state,
        made && old(s)@.console.queue.len() < 64 ==> final(s)@.console.queue
            == old(s)@.console.queue.push(encode_utf8("stty -echo"@ + "\n"@)),
        final(p)@.paused,
        !final(p)@.console.connected,
        final(p)@.state.current == TargetState::Dutabo,
{
}

/// Law: stopping closes the line and the log, and shows no state any more.
pub proof fn law_stopping(s: &mut SerialEngine, r: (Vec<Vec<u8>>, Vec<EngineAction>))
    requires
        call_ensures(SerialEngine::stop, (s,), r),
    ensures
        !final(s)@.running,
        !final(s)@.console.connected,
        !final(s)@.logs.current_open,
        final(s)@.state.current == TargetState::Stopped,
        final(s)@.console.queue.len() == 0,
{
}

} // verus!
