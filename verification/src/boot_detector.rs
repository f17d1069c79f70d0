//! Boot stage detection on serial output.
//!
//! Output is cut into lines. Each line is held against the crash patterns, the
//! patterns of the known boot stages and the watchers that callers set up; where
//! no stage pattern yields an event, a learner trained on a reference log is
//! asked.

use crate::bridge::{
    bytes_pattern_match, bytes_pattern_valid, clock_nanos, clock_start, lossy_text, match_bytes,
    pattern_compiles, utf8_lossy,
};
pub use crate::stage_learner::{StageFingerprint, StageLearner};
use crate::stage_learner::{learned_from, LearnerView, CRASH_THRESHOLD, STAGE_THRESHOLD};
use crate::text::{
    append_bytes, bytes_range, copy_bytes, eq_text, texts, trim_bytes_end, trim_bytes_start,
    trim_end_of, trim_start_of,
};
use vstd::prelude::*;
use vstd::string::*;

verus! {

/// What was noticed in the output.
pub enum BootEvent {
    /// A new boot cycle begins.
    BootStart,
    /// The autoboot countdown runs.
    Autoboot,
    /// The target asks for a user name.
    LoginPrompt,
    /// The target asks for a password.
    PasswordPrompt,
    /// The kernel crashed: the kind of crash and the line.
    Crash(String, String),
    /// Lines that belong to no known stage.
    Unclassified(Vec<String>),
    /// The target reached a stage.
    Stage(String),
}

/// The model of a `BootEvent`.
pub enum EventView {
    BootStart,
    Autoboot,
    LoginPrompt,
    PasswordPrompt,
    Crash(Seq<char>, Seq<char>),
    Unclassified(Seq<Seq<char>>),
    Stage(Seq<char>),
}

impl View for BootEvent {
    type V = EventView;

    open spec fn view(&self) -> EventView {
        match *self {
            BootEvent::BootStart => EventView::BootStart,
            BootEvent::Autoboot => EventView::Autoboot,
            BootEvent::LoginPrompt => EventView::LoginPrompt,
            BootEvent::PasswordPrompt => EventView::PasswordPrompt,
            BootEvent::Crash(kind, line) => EventView::Crash(kind@, line@),
            BootEvent::Unclassified(lines) => EventView::Unclassified(texts(lines@)),
            BootEvent::Stage(name) => EventView::Stage(name@),
        }
    }
}

/// The models of a list of events.
pub open spec fn events_of(v: Seq<BootEvent>) -> Seq<EventView> {
    v.map_values(|e: BootEvent| e@)
}

/// Which pattern of a watcher matched, and the line.
pub struct WatcherMatch {
    pub pattern_index: usize,
    pub line: String,
}

/// A match to be handed to the channel that waits for it.
pub struct Delivery {
    pub sender: u64,
    pub matched: WatcherMatch,
}

/// The model of a `Delivery`.
pub struct DeliveryView {
    pub sender: u64,
    pub pattern_index: usize,
    pub line: Seq<char>,
}

impl View for Delivery {
    type V = DeliveryView;

    open spec fn view(&self) -> DeliveryView {
        DeliveryView {
            sender: self.sender,
            pattern_index: self.matched.pattern_index,
            line: self.matched.line@,
        }
    }
}

/// The models of a list of deliveries.
pub open spec fn deliveries_of(v: Seq<Delivery>) -> Seq<DeliveryView> {
    v.map_values(|d: Delivery| d@)
}

/// A pattern that a caller waits for. `group` watchers leave together as soon
/// as one of them fires.
pub struct Watcher {
    pattern: String,
    pattern_index: usize,
    sender: u64,
    group: bool,
}

/// The model of a `Watcher`.
pub struct WatcherView {
    pub pattern: Seq<char>,
    pub pattern_index: usize,
    pub sender: u64,
    pub group: bool,
}

impl View for Watcher {
    type V = WatcherView;

    closed spec fn view(&self) -> WatcherView {
        WatcherView {
            pattern: self.pattern@,
            pattern_index: self.pattern_index,
            sender: self.sender,
            group: self.group,
        }
    }
}

/// The models of a list of watchers.
pub open spec fn watchers_of(v: Seq<Watcher>) -> Seq<WatcherView> {
    v.map_values(|w: Watcher| w@)
}

// ── Stages ──────────────────────────────────────────────────────────────────

/// What a stage calls for besides being reported.
#[derive(Debug, Clone, Copy, PartialEq, Eq, Structural)]
pub enum StageAction {
    Nothing,
    RotateLog,
    SendCtrlC,
    SendLogin,
    SendPassword,
}

/// A known boot stage.
pub struct BootStage {
    pub name: &'static str,
    pub pattern: &'static str,
    pub action: StageAction,
}

/// The number of known stages.
pub const STAGE_COUNT: usize = 18;

/// The place of the login stage among the known stages.
pub const LOGIN_STAGE: usize = 9;

/// The pattern of a login prompt.
pub const LOGIN_PATTERN: &'static str = r"(?:.*\s)?login:\s*$";

/// The name of a known stage.
pub open spec fn stage_name(i: int) -> Seq<char> {
    if i == 0 {
        "spl"@
    } else if i == 1 {
        "tpl"@
    } else if i == 2 {
        "bl31"@
    } else if i == 3 {
        "optee"@
    } else if i == 4 {
        "ddr"@
    } else if i == 5 {
        "uboot"@
    } else if i == 6 {
        "autoboot"@
    } else if i == 7 {
        "kernel"@
    } else if i == 8 {
        "start"@
    } else if i == 9 {
        "login"@
    } else if i == 10 {
        "password"@
    } else if i == 11 {
        "shell"@
    } else if i == 12 {
        "android_shell"@
    } else if i == 13 {
        "android_init"@
    } else if i == 14 {
        "android_adbd"@
    } else if i == 15 {
        "android_bootanim"@
    } else if i == 16 {
        "android_surfaceflinger"@
    } else {
        "android_boot_completed"@
    }
}

/// The pattern of a known stage.
pub open spec fn stage_pattern(i: int) -> Seq<char> {
    if i == 0 {
        r"U-Boot\s+SPL"@
    } else if i == 1 {
        r"TL[123]\s"@
    } else if i == 2 {
        r"BL31:"@
    } else if i == 3 {
        r"OP-TEE"@
    } else if i == 4 {
        r"DDR\s+Version"@
    } else if i == 5 {
        r"(?:U-Boot\s+20\d{2}|^=>\s)"@
    } else if i == 6 {
        r"Hit\s+(?:any\s+)?key\s+to\s+stop\s+autoboot"@
    } else if i == 7 {
        r"Linux\s+version"@
    } else if i == 8 {
        r"Starting\s+kernel"@
    } else if i == 9 {
        LOGIN_PATTERN@
    } else if i == 10 {
        r"Password:\s*$"@
    } else if i == 11 {
        r"(?:[#\$]\s*$|^\S+@\S+:\S*[#\$]\s)"@
    } else if i == 12 {
        r"console:/\s*[#\$]"@
    } else if i == 13 {
        r"init:\s*(?:started service|starting service)"@
    } else if i == 14 {
        r"adbd?\s+(?:.*?\s)?(?:starting|started|ready)"@
    } else if i == 15 {
        r"bootanim\s+(?:service\s+)?(?:started|stopped|done)"@
    } else if i == 16 {
        r"surfaceflinger\s+.*?(?:started|ready)"@
    } else {
        r"(?:sys\.)?boot_completed\s*[=:]\s*(?:1|true|done)"@
    }
}

/// What a known stage calls for.
pub open spec fn stage_action(i: int) -> StageAction {
    if i == 0 {
        StageAction::RotateLog
    } else if i == 6 {
        StageAction::SendCtrlC
    } else if i == 9 {
        StageAction::SendLogin
    } else if i == 10 {
        StageAction::SendPassword
    } else {
        StageAction::Nothing
    }
}

/// The known stage at `i`.
pub fn boot_stage(i: usize) -> (r: BootStage)
    requires
        i < STAGE_COUNT,
    ensures
        r.name@ == stage_name(i as int),
        r.pattern@ == stage_pattern(i as int),
        r.action == stage_action(i as int),
{
    let nothing = StageAction::Nothing;
    match i {
        0 => BootStage { name: "spl", pattern: r"U-Boot\s+SPL", action: StageAction::RotateLog },
        1 => BootStage { name: "tpl", pattern: r"TL[123]\s", action: nothing },
        2 => BootStage { name: "bl31", pattern: r"BL31:", action: nothing },
        3 => BootStage { name: "optee", pattern: r"OP-TEE", action: nothing },
        4 => BootStage { name: "ddr", pattern: r"DDR\s+Version", action: nothing },
        5 => BootStage {
            name: "uboot",
            pattern: r"(?:U-Boot\s+20\d{2}|^=>\s)",
            action: nothing,
        },
        6 => BootStage {
            name: "autoboot",
            pattern: r"Hit\s+(?:any\s+)?key\s+to\s+stop\s+autoboot",
            action: StageAction::SendCtrlC,
        },
        7 => BootStage { name: "kernel", pattern: r"Linux\s+version", action: nothing },
        8 => BootStage { name: "start", pattern: r"Starting\s+kernel", action: nothing },
        9 => BootStage { name: "login", pattern: LOGIN_PATTERN, action: StageAction::SendLogin },
        10 => BootStage {
            name: "password",
            pattern: r"Password:\s*$",
            action: StageAction::SendPassword,
        },
        11 => BootStage {
            name: "shell",
            pattern: r"(?:[#\$]\s*$|^\S+@\S+:\S*[#\$]\s)",
            action: nothing,
        },
        12 => BootStage { name: "android_shell", pattern: r"console:/\s*[#\$]", action: nothing },
        13 => BootStage {
            name: "android_init",
            pattern: r"init:\s*(?:started service|starting service)",
            action: nothing,
        },
        14 => BootStage {
            name: "android_adbd",
            pattern: r"adbd?\s+(?:.*?\s)?(?:starting|started|ready)",
            action: nothing,
        },
        15 => BootStage {
            name: "android_bootanim",
            pattern: r"bootanim\s+(?:service\s+)?(?:started|stopped|done)",
            action: nothing,
        },
        16 => BootStage {
            name: "android_surfaceflinger",
            pattern: r"surfaceflinger\s+.*?(?:started|ready)",
            action: nothing,
        },
        _ => BootStage {
            name: "android_boot_completed",
            pattern: r"(?:sys\.)?boot_completed\s*[=:]\s*(?:1|true|done)",
            action: nothing,
        },
    }
}

/// The number of crash patterns.
pub const CRASH_COUNT: usize = 7;

/// The kind of crash that a crash pattern reports.
pub open spec fn crash_kind(i: int) -> Seq<char> {
    if i == 0 {
        "panic"@
    } else if i == 1 {
        "BUG"@
    } else if i == 2 {
        "Oops"@
    } else if i == 3 {
        "kernel-fault"@
    } else if i == 4 {
        "BUG"@
    } else if i == 5 {
        "segfault"@
    } else {
        "end-trace"@
    }
}

/// The crash pattern at `i`.
pub open spec fn crash_pattern(i: int) -> Seq<char> {
    if i == 0 {
        r"Kernel\s+panic\s*[-:]"@
    } else if i == 1 {
        r"BUG:\s"@
    } else if i == 2 {
        r"Oops:\s"@
    } else if i == 3 {
        r"Unable\s+to\s+handle\s+kernel"@
    } else if i == 4 {
        r"BUG:\s+unable\s+to\s+handle"@
    } else if i == 5 {
        r"Segmentation\s+fault"@
    } else {
        r"---\[\s*end\s+trace\s+[0-9a-f]+\s*\]---"@
    }
}

/// The crash pattern at `i` and the kind of crash that it reports.
pub fn crash_stage(i: usize) -> (r: (&'static str, &'static str))
    requires
        i < CRASH_COUNT,
    ensures
        r.0@ == crash_pattern(i as int),
        r.1@ == crash_kind(i as int),
{
    match i {
        0 => (r"Kernel\s+panic\s*[-:]", "panic"),
        1 => (r"BUG:\s", "BUG"),
        2 => (r"Oops:\s", "Oops"),
        3 => (r"Unable\s+to\s+handle\s+kernel", "kernel-fault"),
        4 => (r"BUG:\s+unable\s+to\s+handle", "BUG"),
        5 => (r"Segmentation\s+fault", "segfault"),
        _ => (r"---\[\s*end\s+trace\s+[0-9a-f]+\s*\]---", "end-trace"),
    }
}

/// A pattern compiles and matches the line.
pub open spec fn pattern_hits(pattern: Seq<char>, line: Seq<u8>) -> bool {
    bytes_pattern_valid(pattern) && bytes_pattern_match(pattern, line)
}

/// Whether a pattern compiles and matches the line.
fn hits(pattern: &str, line: &[u8]) -> (r: bool)
    ensures
        r == pattern_hits(pattern@, line@),
{
    match match_bytes(pattern, line) {
        Some(b) => b,
        None => false,
    }
}

// ── Stage events ────────────────────────────────────────────────────────────

/// What was already reported in the current boot cycle.
#[derive(Clone, Copy)]
pub struct CycleFlags {
    pub boot_detected: bool,
    pub login_sent: bool,
    pub password_sent: bool,
}

impl CycleFlags {
    /// A boot was detected: prompts count anew.
    pub open spec fn started(self) -> CycleFlags {
        CycleFlags { boot_detected: true, login_sent: false, password_sent: false }
    }
}

/// The flags after the stage at `i` was matched.
pub open spec fn flags_after(f: CycleFlags, i: int) -> CycleFlags {
    if i == 0 && !f.boot_detected {
        f.started()
    } else if stage_action(i) == StageAction::SendLogin {
        CycleFlags { login_sent: true, ..f }
    } else if stage_action(i) == StageAction::SendPassword {
        CycleFlags { password_sent: true, ..f }
    } else {
        f
    }
}

/// The event of the stage at `i`: a boot start once per cycle, a prompt once
/// per cycle as such and later as a plain stage.
pub open spec fn stage_event(f: CycleFlags, i: int) -> Option<EventView> {
    match stage_action(i) {
        StageAction::RotateLog => if f.boot_detected {
            None
        } else {
            Some(EventView::BootStart)
        },
        StageAction::SendCtrlC => Some(EventView::Autoboot),
        StageAction::SendLogin => if f.login_sent {
            Some(EventView::Stage(stage_name(i)))
        } else {
            Some(EventView::LoginPrompt)
        },
        StageAction::SendPassword => if f.password_sent {
            Some(EventView::Stage(stage_name(i)))
        } else {
            Some(EventView::PasswordPrompt)
        },
        StageAction::Nothing => Some(EventView::Stage(stage_name(i))),
    }
}

/// The flags after the first `k` stages, given which of them matched.
pub open spec fn flags_after_stages(f: CycleFlags, matched: Seq<bool>, k: int) -> CycleFlags
    decreases k,
{
    if k <= 0 {
        f
    } else {
        let g = flags_after_stages(f, matched, k - 1);
        if matched[k - 1] {
            flags_after(g, k - 1)
        } else {
            g
        }
    }
}

/// The events of the first `k` stages, given which of them matched.
pub open spec fn stage_events(f: CycleFlags, matched: Seq<bool>, k: int) -> Seq<EventView>
    decreases k,
{
    if k <= 0 {
        Seq::empty()
    } else {
        let before = stage_events(f, matched, k - 1);
        let g = flags_after_stages(f, matched, k - 1);
        if matched[k - 1] && stage_event(g, k - 1) is Some {
            before.push(stage_event(g, k - 1)->0)
        } else {
            before
        }
    }
}

/// The events of a stage named by the learner, unless it repeats a boot start.
pub open spec fn learned_events(f: CycleFlags, stage: Seq<char>) -> Seq<EventView> {
    if stage == "spl"@ && f.boot_detected {
        Seq::empty()
    } else if stage == "spl"@ || (stage == "uboot"@ && !f.boot_detected) {
        seq![EventView::BootStart, EventView::Stage(stage)]
    } else {
        seq![EventView::Stage(stage)]
    }
}

/// The flags after the learner named a stage.
pub open spec fn learned_flags(f: CycleFlags, stage: Seq<char>) -> CycleFlags {
    if !f.boot_detected && (stage == "spl"@ || stage == "uboot"@) {
        f.started()
    } else {
        f
    }
}

// ── The detector's model ────────────────────────────────────────────────────

/// Two seconds: crashes within them are reported once.
pub const CRASH_PAUSE: u64 = 2_000_000_000;

/// The buffer is cut back when it grows beyond this.
pub const BUFFER_LIMIT: usize = 65536;

/// What is kept of a buffer that grew too long.
pub const BUFFER_KEEP: usize = 32768;

/// The bytes kept of a buffer.
pub open spec fn capped(s: Seq<u8>) -> Seq<u8> {
    if s.len() > BUFFER_LIMIT {
        s.subrange(s.len() - BUFFER_KEEP, s.len() as int)
    } else {
        s
    }
}

/// The first line end at or after `from`, or the length.
pub open spec fn line_end(s: Seq<u8>, from: int) -> int
    decreases s.len() - from,
{
    if from < 0 || from >= s.len() {
        s.len() as int
    } else if s[from] == 10 || s[from] == 13 {
        from
    } else {
        line_end(s, from + 1)
    }
}

/// The model of a `BootStageDetector`.
pub struct DetectorView {
    pub line_buf: Seq<u8>,
    pub flags: CycleFlags,
    pub last_crash: Option<int>,
    pub watchers: Seq<WatcherView>,
    pub outbox: Seq<DeliveryView>,
    pub login_pattern: Seq<char>,
    pub learner: Option<LearnerView>,
}

/// The first of the crash patterns from `i` on that hits the line, or the
/// number of patterns.
pub open spec fn first_crash(line: Seq<u8>, i: int) -> int
    decreases CRASH_COUNT - i,
{
    if i < 0 || i >= CRASH_COUNT {
        CRASH_COUNT as int
    } else if pattern_hits(crash_pattern(i), line) {
        i
    } else {
        first_crash(line, i + 1)
    }
}

/// The watcher at `w` fires on the line.
pub open spec fn fires(w: WatcherView, line: Seq<char>) -> bool {
    pattern_hits(w.pattern, vstd::utf8::encode_utf8(line))
}

/// A group that already delivered this line: one of the first `k` watchers of
/// the same group fired.
pub open spec fn group_fired(ws: Seq<WatcherView>, line: Seq<char>, sender: u64, k: int) -> bool {
    exists|j: int| 0 <= j < k && (#[trigger] ws[j]).group && ws[j].sender == sender && fires(
        ws[j],
        line,
    )
}

/// The deliveries of the first `k` watchers: each plain watcher that fires, and
/// of each group the first that fires.
pub open spec fn fired(ws: Seq<WatcherView>, line: Seq<char>, k: int) -> Seq<DeliveryView>
    decreases k,
{
    if k <= 0 {
        Seq::empty()
    } else {
        let before = fired(ws, line, k - 1);
        let w = ws[k - 1];
        if fires(w, line) && !(w.group && group_fired(ws, line, w.sender, k - 1)) {
            before.push(
                DeliveryView { sender: w.sender, pattern_index: w.pattern_index, line: line },
            )
        } else {
            before
        }
    }
}

/// The watchers that stay after the line: a group that fired leaves.
pub open spec fn staying(ws: Seq<WatcherView>, line: Seq<char>) -> Seq<WatcherView> {
    ws.filter(|w: WatcherView| !(w.group && group_fired(ws, line, w.sender, ws.len() as int)))
}

impl DetectorView {
    /// The pattern of a stage, the login pattern being configurable.
    pub open spec fn pattern(self, i: int) -> Seq<char> {
        if i == LOGIN_STAGE {
            self.login_pattern
        } else {
            stage_pattern(i)
        }
    }

    /// Which stages match the line.
    pub open spec fn matches(self, line: Seq<u8>) -> Seq<bool> {
        Seq::new(STAGE_COUNT as nat, |i: int| pattern_hits(self.pattern(i), line))
    }

    /// The line shows a crash that is due for a report.
    pub open spec fn crash_due(self, line: Seq<u8>, now: int) -> bool {
        first_crash(line, 0) < CRASH_COUNT && (self.last_crash is None
            || crate::state_manager::elapsed(now, self.last_crash->0) > CRASH_PAUSE)
    }

    /// The events of a crash on the line.
    pub open spec fn crash_events(self, line: Seq<u8>, now: int) -> Seq<EventView> {
        if self.crash_due(line, now) {
            seq![EventView::Crash(crash_kind(first_crash(line, 0)), utf8_lossy(line))]
        } else {
            Seq::empty()
        }
    }

    /// The stage that the learner names, asked only where no stage pattern
    /// yielded an event.
    pub open spec fn learned_stage(self, line: Seq<u8>) -> Option<Seq<char>> {
        if stage_events(self.flags, self.matches(line), STAGE_COUNT as int).len() > 0
            || self.learner is None {
            None
        } else {
            self.learner->0.stage_of(utf8_lossy(line))
        }
    }

    /// A learner is loaded, and neither a stage pattern nor the learner claims the
    /// line.
    pub open spec fn unclaimed(self, line: Seq<u8>) -> bool {
        &&& self.learner is Some
        &&& stage_events(self.flags, self.matches(line), STAGE_COUNT as int).len() == 0
        &&& self.learner->0.stage_of(utf8_lossy(line)) is None
    }

    /// The events of the stages on the line. A line that nothing claims is handed
    /// out, so that it can be learned.
    pub open spec fn line_events(self, line: Seq<u8>) -> Seq<EventView> {
        let known = stage_events(self.flags, self.matches(line), STAGE_COUNT as int);
        let flags = flags_after_stages(self.flags, self.matches(line), STAGE_COUNT as int);
        match self.learned_stage(line) {
            None => if self.unclaimed(line) {
                seq![EventView::Unclassified(seq![utf8_lossy(line)])]
            } else {
                known
            },
            Some(stage) => learned_events(flags, stage),
        }
    }

    /// The flags after the stages on the line.
    pub open spec fn line_flags(self, line: Seq<u8>) -> CycleFlags {
        let flags = flags_after_stages(self.flags, self.matches(line), STAGE_COUNT as int);
        match self.learned_stage(line) {
            None => flags,
            Some(stage) => learned_flags(flags, stage),
        }
    }

    /// The learner after the line.
    pub open spec fn line_learner(self, line: Seq<u8>) -> Option<LearnerView> {
        if stage_events(self.flags, self.matches(line), STAGE_COUNT as int).len() > 0
            || self.learner is None {
            self.learner
        } else {
            Some(self.learner->0.classify(utf8_lossy(line)))
        }
    }

    /// The detector after the stages of a line were looked at.
    pub open spec fn after_stages(self, line: Seq<u8>) -> DetectorView {
        DetectorView {
            flags: self.line_flags(line),
            learner: self.line_learner(line),
            ..self
        }
    }

    /// The detector after the watchers saw a line.
    pub open spec fn after_watchers(self, line: Seq<char>) -> DetectorView {
        DetectorView {
            outbox: self.outbox + fired(self.watchers, line, self.watchers.len() as int),
            watchers: staying(self.watchers, line),
            ..self
        }
    }

    /// The detector after a line at `now`.
    pub open spec fn after_line(self, line: Seq<u8>, now: int) -> DetectorView {
        let noted = DetectorView {
            last_crash: if self.crash_due(line, now) {
                Some(now)
            } else {
                self.last_crash
            },
            ..self
        };
        noted.after_stages(line).after_watchers(utf8_lossy(line))
    }

    /// The events of a line at `now`: a crash first, then the stages.
    pub open spec fn events_at(self, line: Seq<u8>, now: int) -> Seq<EventView> {
        self.crash_events(line, now) + self.line_events(line)
    }

    /// The buffered line up to the first line end, without surrounding white
    /// space.
    pub open spec fn first_line(self) -> Seq<u8> {
        trim_bytes_end(trim_bytes_start(self.line_buf.subrange(0, line_end(self.line_buf, 0))))
    }

    /// The detector with the first buffered line taken out.
    pub open spec fn advanced(self) -> DetectorView {
        DetectorView {
            line_buf: self.line_buf.subrange(
                line_end(self.line_buf, 0) + 1,
                self.line_buf.len() as int,
            ),
            ..self
        }
    }

    /// The detector and the events after all complete lines of the buffer.
    pub open spec fn drained(self, now: int) -> (DetectorView, Seq<EventView>)
        decreases self.line_buf.len(),
    {
        if line_end(self.line_buf, 0) >= self.line_buf.len() || line_end(self.line_buf, 0) < 0 {
            (self, Seq::empty())
        } else {
            let line = self.first_line();
            let next = self.advanced();
            if line.len() == 0 {
                next.drained(now)
            } else {
                let (last, rest) = next.after_line(line, now).drained(now);
                (last, next.events_at(line, now) + rest)
            }
        }
    }

    /// The detector with more output in its buffer.
    pub open spec fn buffered(self, data: Seq<u8>) -> DetectorView {
        DetectorView { line_buf: capped(self.line_buf + data), ..self }
    }

    /// The buffer as a line, where it holds more than white space.
    pub open spec fn residue(self) -> Option<Seq<u8>> {
        if trim_bytes_start(self.line_buf).len() == 0 {
            None
        } else {
            Some(trim_bytes_start(self.line_buf))
        }
    }

    /// The detector after its buffer was taken as a line.
    pub open spec fn flushed(self, now: int) -> DetectorView {
        let empty = DetectorView { line_buf: Seq::empty(), ..self };
        match self.residue() {
            None => empty,
            Some(line) => empty.after_line(line, now),
        }
    }

    /// The events of the buffer taken as a line.
    pub open spec fn flush_events(self, now: int) -> Seq<EventView> {
        let empty = DetectorView { line_buf: Seq::empty(), ..self };
        match self.residue() {
            None => Seq::empty(),
            Some(line) => empty.events_at(line, now),
        }
    }

    /// The detector at the start of a boot cycle.
    pub open spec fn reset_cycle(self) -> DetectorView {
        DetectorView {
            flags: CycleFlags { boot_detected: false, login_sent: false, password_sent: false },
            learner: match self.learner {
                None => None,
                Some(l) => Some(l.reset()),
            },
            ..self
        }
    }
}

/// Recognises boot stages in serial output.
pub struct BootStageDetector {
    line_buf: Vec<u8>,
    flags: CycleFlags,
    last_crash: Option<u64>,
    watchers: Vec<Watcher>,
    outbox: Vec<Delivery>,
    login_pattern: String,
    learner: Option<StageLearner>,
    clock: std::time::Instant,
}

impl View for BootStageDetector {
    type V = DetectorView;

    closed spec fn view(&self) -> DetectorView {
        DetectorView {
            line_buf: self.line_buf@,
            flags: self.flags,
            last_crash: match self.last_crash {
                Some(t) => Some(t as int),
                None => None,
            },
            watchers: watchers_of(self.watchers@),
            outbox: deliveries_of(self.outbox@),
            login_pattern: self.login_pattern@,
            learner: match self.learner {
                Some(l) => Some(l@),
                None => None,
            },
        }
    }
}

/// The first line end at or after `from`, or the length.
fn find_line_end(s: &[u8]) -> (r: usize)
    ensures
        r == line_end(s@, 0),
        r <= s@.len(),
{
    let mut i: usize = 0;
    while i < s.len()
        invariant
            i <= s@.len(),
            line_end(s@, i as int) == line_end(s@, 0),
        decreases s@.len() - i,
    {
        if s[i] == 10 || s[i] == 13 {
            return i;
        }
        i += 1;
    }
    i
}

/// A line end is never before its start.
pub proof fn lemma_line_end(s: Seq<u8>, from: int)
    requires
        0 <= from <= s.len(),
    ensures
        from <= line_end(s, from) <= s.len(),
    decreases s.len() - from,
{
    if from < s.len() && s[from] != 10 && s[from] != 13 {
        lemma_line_end(s, from + 1);
    }
}

impl BootStageDetector {
    /// A detector that has seen nothing.
    pub fn new() -> (r: Self)
        ensures
            r@ == (DetectorView {
                line_buf: Seq::empty(),
                flags: CycleFlags { boot_detected: false, login_sent: false, password_sent: false },
                last_crash: None,
                watchers: Seq::empty(),
                outbox: Seq::empty(),
                login_pattern: LOGIN_PATTERN@,
                learner: None,
            }),
    {
        let r = BootStageDetector {
            line_buf: Vec::new(),
            flags: CycleFlags { boot_detected: false, login_sent: false, password_sent: false },
            last_crash: None,
            watchers: Vec::new(),
            outbox: Vec::new(),
            login_pattern: LOGIN_PATTERN.to_owned(),
            learner: None,
            clock: clock_start(),
        };
        assert(r@.watchers =~= Seq::<WatcherView>::empty());
        assert(r@.outbox =~= Seq::<DeliveryView>::empty());
        r
    }

    /// Nanoseconds since the detector was created.
    pub fn now(&self) -> u64 {
        clock_nanos(&self.clock)
    }

    /// Replaces the login pattern, unless the new one does not compile.
    pub fn set_login_regex(&mut self, pattern: &str)
        ensures
            final(self)@ == (DetectorView {
                login_pattern: if bytes_pattern_valid(pattern@) {
                    pattern@
                } else {
                    old(self)@.login_pattern
                },
                ..old(self)@
            }),
    {
        if pattern_compiles(pattern) {
            self.login_pattern = pattern.to_owned();
        }
    }

    /// Learns from the text of a reference log; a refused log changes nothing.
    pub fn load_reference(&mut self, text: &str) -> (r: Result<(), String>)
        ensures
            match learned_from(text@, STAGE_THRESHOLD as nat, CRASH_THRESHOLD as nat) {
                Ok(l) => r is Ok && final(self)@ == (DetectorView {
                    learner: Some(l),
                    ..old(self)@
                }),
                Err(e) => r matches Err(x) && x@ == e && final(self)@ == old(self)@,
            },
    {
        self.load_reference_with(text, STAGE_THRESHOLD, CRASH_THRESHOLD)
    }

    /// Learns from the text of a reference log, with the least likeness of a stage
    /// and of a crash in millionths; a refused log changes nothing.
    pub fn load_reference_with(
        &mut self,
        text: &str,
        stage_threshold: u32,
        crash_threshold: u32,
    ) -> (r: Result<(), String>)
        ensures
            match learned_from(text@, stage_threshold as nat, crash_threshold as nat) {
                Ok(l) => r is Ok && final(self)@ == (DetectorView {
                    learner: Some(l),
                    ..old(self)@
                }),
                Err(e) => r matches Err(x) && x@ == e && final(self)@ == old(self)@,
            },
    {
        match StageLearner::with_thresholds(text, stage_threshold, crash_threshold) {
            Ok(l) => {
                self.learner = Some(l);
                Ok(())
            },
            Err(e) => Err(e),
        }
    }

    /// The learner, where a reference log was loaded.
    pub fn learner(&self) -> (r: Option<&StageLearner>)
        ensures
            r is Some <==> self@.learner is Some,
            r matches Some(l) ==> l@ == self@.learner->0,
    {
        self.learner.as_ref()
    }

    /// Adds a watcher for one pattern, unless the pattern does not compile.
    pub fn add_watcher(&mut self, pattern: &str, sender: u64)
        ensures
            final(self)@ == (DetectorView {
                watchers: if bytes_pattern_valid(pattern@) {
                    old(self)@.watchers.push(
                        WatcherView { pattern: pattern@, pattern_index: 0, sender, group: false },
                    )
                } else {
                    old(self)@.watchers
                },
                ..old(self)@
            }),
    {
        if pattern_compiles(pattern) {
            self.watchers.push(
                Watcher { pattern: pattern.to_owned(), pattern_index: 0, sender, group: false },
            );
            assert(self@.watchers =~= old(self)@.watchers.push(
                WatcherView { pattern: pattern@, pattern_index: 0, sender, group: false },
            ));
        }
    }

    /// Adds a group of watchers, one for each pattern that compiles, numbered by
    /// the pattern's place. The group fires once and then leaves. The places
    /// that were taken are returned.
    pub fn add_watcher_multi(&mut self, patterns: &[String], sender: u64) -> (r: Vec<usize>)
        ensures
            final(self)@ == (DetectorView {
                watchers: old(self)@.watchers + group_watchers(
                    texts(patterns@),
                    sender,
                    patterns@.len() as int,
                ),
                ..old(self)@
            }),
            r@ == valid_places(texts(patterns@), patterns@.len() as int),
    {
        let mut taken: Vec<usize> = Vec::new();
        let mut i: usize = 0;
        assert(self@.watchers =~= old(self)@.watchers + group_watchers(
            texts(patterns@),
            sender,
            0,
        ));
        while i < patterns.len()
            invariant
                i <= patterns@.len(),
                self@ == (DetectorView {
                    watchers: old(self)@.watchers + group_watchers(
                        texts(patterns@),
                        sender,
                        i as int,
                    ),
                    ..old(self)@
                }),
                taken@ == valid_places(texts(patterns@), i as int),
            decreases patterns@.len() - i,
        {
            assert(texts(patterns@)[i as int] == patterns@[i as int]@);
            if pattern_compiles(&patterns[i]) {
                let ghost before = self@.watchers;
                self.watchers.push(
                    Watcher {
                        pattern: patterns[i].clone(),
                        pattern_index: i,
                        sender,
                        group: true,
                    },
                );
                taken.push(i);
                assert(self@.watchers =~= before.push(
                    WatcherView {
                        pattern: patterns@[i as int]@,
                        pattern_index: i,
                        sender,
                        group: true,
                    },
                ));
                assert(self@.watchers =~= old(self)@.watchers + group_watchers(
                    texts(patterns@),
                    sender,
                    i + 1,
                ));
            }
            i += 1;
        }
        taken
    }

    /// Removes the watchers of a pattern; a pattern that does not compile
    /// removes nothing.
    pub fn remove_watcher_by_pattern(&mut self, pattern: &str)
        ensures
            final(self)@ == (DetectorView {
                watchers: if bytes_pattern_valid(pattern@) {
                    old(self)@.watchers.filter(|w: WatcherView| w.pattern != pattern@)
                } else {
                    old(self)@.watchers
                },
                ..old(self)@
            }),
    {
        if !pattern_compiles(pattern) {
            return;
        }
        let ghost keep = |w: WatcherView| w.pattern != pattern@;
        let ghost ws = old(self)@.watchers;
        let mut kept: Vec<Watcher> = Vec::new();
        let mut rest: Vec<Watcher> = Vec::new();
        std::mem::swap(&mut rest, &mut self.watchers);
        assert(watchers_of(kept@) =~= ws.subrange(0, 0).filter(keep)) by {
            reveal(Seq::filter);
        }
        let ghost n = rest@.len();
        let ghost mut done: int = 0;
        while rest.len() > 0
            invariant
                keep == (|w: WatcherView| w.pattern != pattern@),
                0 <= done,
                done + rest@.len() == n == ws.len(),
                watchers_of(rest@) == ws.subrange(done, n as int),
                watchers_of(kept@) == ws.subrange(0, done).filter(keep),
            decreases rest@.len(),
        {
            let ghost all = rest@;
            let w = rest.remove(0);
            proof {
                assert(w@ == ws[done]) by {
                    assert(watchers_of(all)[0] == ws.subrange(done, n as int)[0]);
                }
                assert(watchers_of(rest@) =~= ws.subrange(done + 1, n as int)) by {
                    assert forall|j: int| 0 <= j < rest@.len() implies watchers_of(rest@)[j]
                        == ws.subrange(done + 1, n as int)[j] by {
                        assert(watchers_of(all)[j + 1] == ws.subrange(done, n as int)[j + 1]);
                    }
                }
                lemma_filter_step(ws, done, keep);
            }
            if !eq_text(&w.pattern, pattern) {
                let ghost before = kept@;
                kept.push(w);
                assert(watchers_of(kept@) =~= watchers_of(before).push(w@));
            }
            proof {
                done = done + 1;
            }
        }
        assert(ws.subrange(0, n as int) =~= ws);
        self.watchers = kept;
    }

    /// Removes all watchers of a channel.
    pub fn remove_watcher_group(&mut self, sender: u64)
        ensures
            final(self)@ == (DetectorView {
                watchers: old(self)@.watchers.filter(|w: WatcherView| w.sender != sender),
                ..old(self)@
            }),
    {
        let ghost keep = |w: WatcherView| w.sender != sender;
        let ghost ws = old(self)@.watchers;
        let mut kept: Vec<Watcher> = Vec::new();
        let mut rest: Vec<Watcher> = Vec::new();
        std::mem::swap(&mut rest, &mut self.watchers);
        assert(watchers_of(kept@) =~= ws.subrange(0, 0).filter(keep)) by {
            reveal(Seq::filter);
        }
        let ghost n = rest@.len();
        let ghost mut done: int = 0;
        while rest.len() > 0
            invariant
                keep == (|w: WatcherView| w.sender != sender),
                0 <= done,
                done + rest@.len() == n == ws.len(),
                watchers_of(rest@) == ws.subrange(done, n as int),
                watchers_of(kept@) == ws.subrange(0, done).filter(keep),
            decreases rest@.len(),
        {
            let ghost all = rest@;
            let w = rest.remove(0);
            proof {
                assert(w@ == ws[done]) by {
                    assert(watchers_of(all)[0] == ws.subrange(done, n as int)[0]);
                }
                assert(watchers_of(rest@) =~= ws.subrange(done + 1, n as int)) by {
                    assert forall|j: int| 0 <= j < rest@.len() implies watchers_of(rest@)[j]
                        == ws.subrange(done + 1, n as int)[j] by {
                        assert(watchers_of(all)[j + 1] == ws.subrange(done, n as int)[j + 1]);
                    }
                }
                lemma_filter_step(ws, done, keep);
            }
            if w.sender != sender {
                let ghost before = kept@;
                kept.push(w);
                assert(watchers_of(kept@) =~= watchers_of(before).push(w@));
            }
            proof {
                done = done + 1;
            }
        }
        assert(ws.subrange(0, n as int) =~= ws);
        self.watchers = kept;
    }

    /// Hands out the matches that wait for delivery.
    pub fn take_matches(&mut self) -> (r: Vec<Delivery>)
        ensures
            deliveries_of(r@) == old(self)@.outbox,
            final(self)@ == (DetectorView { outbox: Seq::empty(), ..old(self)@ }),
    {
        let mut out: Vec<Delivery> = Vec::new();
        std::mem::swap(&mut out, &mut self.outbox);
        assert(self@.outbox =~= Seq::<DeliveryView>::empty());
        out
    }

    /// Takes in output and reports what it shows.
    pub fn feed(&mut self, data: &[u8]) -> (r: Vec<BootEvent>)
        ensures
            exists|now: u64|
                (final(self)@, events_of(r@)) == #[trigger] old(self)@.buffered(data@).drained(
                    now as int,
                ),
    {
        let now: u64 = self.now();
        self.feed_at(data, now)
    }

    /// Takes in output that arrived at `now` and reports what it shows.
    pub fn feed_at(&mut self, data: &[u8], now: u64) -> (r: Vec<BootEvent>)
        ensures
            (final(self)@, events_of(r@)) == old(self)@.buffered(data@).drained(now as int),
    {
        append_bytes(&mut self.line_buf, data);
        if self.line_buf.len() > BUFFER_LIMIT {
            let n: usize = self.line_buf.len();
            let tail = bytes_range(&self.line_buf, n - BUFFER_KEEP, n);
            self.line_buf = tail;
        }
        let ghost start = self@;
        assert(start == old(self)@.buffered(data@));
        let mut events: Vec<BootEvent> = Vec::new();
        assert(events_of(events@) =~= Seq::<EventView>::empty());
        let mut end: usize = find_line_end(&self.line_buf);
        proof {
            let d = self@.drained(now as int);
            assert(events_of(events@) + d.1 =~= d.1);
        }
        while end < self.line_buf.len()
            invariant
                end == line_end(self@.line_buf, 0),
                self@.line_buf == self.line_buf@,
                end <= self@.line_buf.len(),
                self@.drained(now as int).0 == start.drained(now as int).0,
                events_of(events@) + self@.drained(now as int).1 == start.drained(now as int).1,
            decreases self@.line_buf.len(),
        {
            let ghost before = self@;
            let ghost said = events_of(events@);
            let line = copy_bytes(trim_end_of(trim_start_of(&self.line_buf[0..end])));
            let rest = bytes_range(&self.line_buf, end + 1, self.line_buf.len());
            self.line_buf = rest;
            assert(line@ == before.first_line());
            assert(self@ == before.advanced());
            if line.len() > 0 {
                self.take_line(&line, now, &mut events);
                proof {
                    let tail = self@.drained(now as int).1;
                    assert(said + (before.advanced().events_at(line@, now as int) + tail)
                        =~= said + before.advanced().events_at(line@, now as int) + tail);
                }
            }
            end = find_line_end(&self.line_buf);
        }
        proof {
            let e = events_of(events@);
            assert(e + Seq::<EventView>::empty() =~= e);
        }
        events
    }

    /// Looks at one line.
    fn take_line(&mut self, line: &[u8], now: u64, events: &mut Vec<BootEvent>)
        ensures
            final(self)@ == old(self)@.after_line(line@, now as int),
            events_of(final(events)@) == events_of(old(events)@) + old(self)@.events_at(
                line@,
                now as int,
            ),
    {
        let text = lossy_text(line);
        let ghost e0 = events@;
        self.check_crash(line, &text, now, events);
        let ghost e1 = events@;
        assert(self@.matches(line@) =~= old(self)@.matches(line@));
        let mut found = self.check_stages(line);
        let ghost f = found@;
        events.append(&mut found);
        assert(events_of(events@) =~= events_of(e1) + events_of(f));
        assert(events_of(events@) =~= events_of(e0) + (old(self)@.crash_events(line@, now as int)
            + old(self)@.line_events(line@)));
        self.check_watchers(&text);
    }

    /// Reports a crash that the line shows, at most once in two seconds.
    fn check_crash(&mut self, line: &[u8], text: &str, now: u64, events: &mut Vec<BootEvent>)
        requires
            text@ == utf8_lossy(line@),
        ensures
            final(self)@ == (DetectorView {
                last_crash: if old(self)@.crash_due(line@, now as int) {
                    Some(now as int)
                } else {
                    old(self)@.last_crash
                },
                ..old(self)@
            }),
            events_of(final(events)@) == events_of(old(events)@) + old(self)@.crash_events(
                line@,
                now as int,
            ),
    {
        let mut i: usize = 0;
        while i < CRASH_COUNT
            invariant
                i <= CRASH_COUNT,
                text@ == utf8_lossy(line@),
                first_crash(line@, i as int) == first_crash(line@, 0),
                self@ == old(self)@,
                events@ == old(events)@,
            decreases CRASH_COUNT - i,
        {
            let (pattern, kind) = crash_stage(i);
            if hits(pattern, line) {
                let due: bool = match self.last_crash {
                    None => true,
                    Some(t) => now.saturating_sub(t) > CRASH_PAUSE,
                };
                if due {
                    self.last_crash = Some(now);
                    let e = BootEvent::Crash(kind.to_owned(), text.to_owned());
                    events.push(e);
                    assert(events_of(events@) =~= events_of(old(events)@).push(e@));
                    assert(events_of(events@) =~= events_of(old(events)@)
                        + old(self)@.crash_events(line@, now as int));
                } else {
                    assert(events_of(events@) =~= events_of(old(events)@) + Seq::<
                        EventView,
                    >::empty());
                }
                return;
            }
            i += 1;
        }
        assert(events_of(events@) =~= events_of(old(events)@) + Seq::<EventView>::empty());
    }

    /// Which stage patterns match the line.
    fn matched_stages(&self, line: &[u8]) -> (r: Vec<bool>)
        ensures
            r@ == self@.matches(line@),
    {
        let mut r: Vec<bool> = Vec::new();
        let mut i: usize = 0;
        while i < STAGE_COUNT
            invariant
                i <= STAGE_COUNT,
                r@ == self@.matches(line@).subrange(0, i as int),
            decreases STAGE_COUNT - i,
        {
            let stage = boot_stage(i);
            let hit: bool = if i == LOGIN_STAGE {
                hits(&self.login_pattern, line)
            } else {
                hits(stage.pattern, line)
            };
            r.push(hit);
            assert(self@.matches(line@).subrange(0, i + 1) =~= self@.matches(line@).subrange(
                0,
                i as int,
            ).push(self@.matches(line@)[i as int]));
            i += 1;
        }
        assert(self@.matches(line@).subrange(0, STAGE_COUNT as int) =~= self@.matches(line@));
        r
    }

    /// Reports the stages that the line shows.
    fn check_stages(&mut self, line: &[u8]) -> (r: Vec<BootEvent>)
        ensures
            final(self)@ == old(self)@.after_stages(line@),
            events_of(r@) == old(self)@.line_events(line@),
    {
        let matched = self.matched_stages(line);
        let (flags, known) = apply_stages(self.flags, &matched);
        self.flags = flags;
        assert(events_of(known@).len() == known@.len());
        if known.len() > 0 {
            return known;
        }
        let text = lossy_text(line);
        let mut learner: Option<StageLearner> = None;
        std::mem::swap(&mut learner, &mut self.learner);
        match learner {
            None => {
                return known;
            },
            Some(mut l) => {
                let stage = l.classify_line(&text);
                self.learner = Some(l);
                match stage {
                    None => {
                        let mut lines: Vec<String> = Vec::new();
                        lines.push(text);
                        assert(texts(lines@) =~= seq![utf8_lossy(line@)]);
                        let e = BootEvent::Unclassified(lines);
                        let mut found: Vec<BootEvent> = Vec::new();
                        found.push(e);
                        assert(events_of(found@) =~= seq![e@]);
                        found
                    },
                    Some(name) => {
                        let (f, found) = apply_learned(self.flags, name);
                        self.flags = f;
                        found
                    },
                }
            },
        }
    }

    /// Hands the line to the watchers that it matches.
    fn check_watchers(&mut self, line: &str)
        ensures
            final(self)@ == old(self)@.after_watchers(line@),
    {
        let ghost ws = self@.watchers;
        let ghost sent = self@.outbox;
        let n: usize = self.watchers.len();
        let mut leaving: Vec<u64> = Vec::new();
        let mut i: usize = 0;
        assert(sent + fired(ws, line@, 0) =~= sent);
        while i < n
            invariant
                i <= n,
                n == self.watchers@.len(),
                ws == watchers_of(self.watchers@),
                self@ == (DetectorView {
                    outbox: sent + fired(ws, line@, i as int),
                    ..old(self)@
                }),
                old(self)@.watchers == ws,
                forall|s: u64| leaving@.contains(s) <==> group_fired(ws, line@, s, i as int),
            decreases n - i,
        {
            let group: bool = self.watchers[i].group;
            let sender: u64 = self.watchers[i].sender;
            assert(ws[i as int] == self.watchers@[i as int]@);
            let hit: bool = hits(&self.watchers[i].pattern, line.as_bytes());
            let already: bool = group && holds(&leaving, sender);
            if hit && !already {
                let d = Delivery {
                    sender,
                    matched: WatcherMatch {
                        pattern_index: self.watchers[i].pattern_index,
                        line: line.to_owned(),
                    },
                };
                let ghost before = self.outbox@;
                self.outbox.push(d);
                assert(deliveries_of(self.outbox@) =~= deliveries_of(before).push(d@));
                assert(sent + fired(ws, line@, i + 1) =~= (sent + fired(ws, line@, i as int)).push(
                    d@,
                ));
                if group {
                    let ghost l0 = leaving@;
                    leaving.push(sender);
                    assert forall|s: u64| leaving@.contains(s) <==> group_fired(
                        ws,
                        line@,
                        s,
                        i + 1,
                    ) by {
                        lemma_push_contains(l0, sender, s);
                        lemma_group_step(ws, line@, s, i as int);
                    }
                } else {
                    assert forall|s: u64| leaving@.contains(s) <==> group_fired(
                        ws,
                        line@,
                        s,
                        i + 1,
                    ) by {
                        lemma_group_step(ws, line@, s, i as int);
                    }
                }
            } else {
                assert forall|s: u64| leaving@.contains(s) <==> group_fired(
                    ws,
                    line@,
                    s,
                    i + 1,
                ) by {
                    lemma_group_step(ws, line@, s, i as int);
                }
            }
            i += 1;
        }
        let ghost keep = |w: WatcherView|
            !(w.group && group_fired(ws, line@, w.sender, ws.len() as int));
        let mut kept: Vec<Watcher> = Vec::new();
        let mut rest: Vec<Watcher> = Vec::new();
        std::mem::swap(&mut rest, &mut self.watchers);
        assert(watchers_of(kept@) =~= ws.subrange(0, 0).filter(keep)) by {
            reveal(Seq::filter);
        }
        let ghost mut done: int = 0;
        assert(ws.subrange(0, n as int) =~= ws);
        while rest.len() > 0
            invariant
                keep == (|w: WatcherView|
                    !(w.group && group_fired(ws, line@, w.sender, ws.len() as int))),
                0 <= done,
                done + rest@.len() == n == ws.len(),
                watchers_of(rest@) == ws.subrange(done, n as int),
                watchers_of(kept@) == ws.subrange(0, done).filter(keep),
                forall|s: u64| leaving@.contains(s) <==> group_fired(ws, line@, s, ws.len() as int),
            decreases rest@.len(),
        {
            let ghost all = rest@;
            let w = rest.remove(0);
            proof {
                assert(w@ == ws[done]) by {
                    assert(watchers_of(all)[0] == ws.subrange(done, n as int)[0]);
                }
                assert(watchers_of(rest@) =~= ws.subrange(done + 1, n as int)) by {
                    assert forall|j: int| 0 <= j < rest@.len() implies watchers_of(rest@)[j]
                        == ws.subrange(done + 1, n as int)[j] by {
                        assert(watchers_of(all)[j + 1] == ws.subrange(done, n as int)[j + 1]);
                    }
                }
                lemma_filter_step(ws, done, keep);
            }
            if !(w.group && holds(&leaving, w.sender)) {
                let ghost before = kept@;
                kept.push(w);
                assert(watchers_of(kept@) =~= watchers_of(before).push(w@));
            }
            proof {
                done = done + 1;
            }
        }
        self.watchers = kept;
        assert(self@.watchers == staying(ws, line@));
    }

    /// Takes what is left in the buffer as a line, such as a prompt without a
    /// line end.
    pub fn flush_line_buf(&mut self) -> (r: Vec<BootEvent>)
        ensures
            exists|now: u64|
                final(self)@ == #[trigger] old(self)@.flushed(now as int) && events_of(r@)
                    == old(self)@.flush_events(now as int),
    {
        let now: u64 = self.now();
        self.flush_line_buf_at(now)
    }

    /// Takes what is left in the buffer at `now` as a line.
    pub fn flush_line_buf_at(&mut self, now: u64) -> (r: Vec<BootEvent>)
        ensures
            final(self)@ == old(self)@.flushed(now as int),
            events_of(r@) == old(self)@.flush_events(now as int),
    {
        let mut events: Vec<BootEvent> = Vec::new();
        assert(events_of(events@) =~= Seq::<EventView>::empty());
        let line = copy_bytes(trim_start_of(&self.line_buf));
        self.line_buf = Vec::new();
        assert(self@.line_buf =~= Seq::<u8>::empty());
        if line.len() > 0 {
            self.take_line(&line, now, &mut events);
            assert(Seq::<EventView>::empty() + old(self)@.flush_events(now as int)
                =~= old(self)@.flush_events(now as int));
        }
        events
    }

    /// Starts a new boot cycle.
    pub fn reset_cycle(&mut self)
        ensures
            final(self)@ == old(self)@.reset_cycle(),
    {
        self.flags = CycleFlags { boot_detected: false, login_sent: false, password_sent: false };
        let mut learner: Option<StageLearner> = None;
        std::mem::swap(&mut learner, &mut self.learner);
        match learner {
            None => {},
            Some(mut l) => {
                l.reset();
                self.learner = Some(l);
            },
        }
    }
}

/// The watchers of the first `k` patterns of a group.
pub open spec fn group_watchers(patterns: Seq<Seq<char>>, sender: u64, k: int) -> Seq<WatcherView>
    decreases k,
{
    if k <= 0 {
        Seq::empty()
    } else {
        let before = group_watchers(patterns, sender, k - 1);
        if bytes_pattern_valid(patterns[k - 1]) {
            before.push(
                WatcherView {
                    pattern: patterns[k - 1],
                    pattern_index: (k - 1) as usize,
                    sender,
                    group: true,
                },
            )
        } else {
            before
        }
    }
}

/// The places among the first `k` patterns that hold one that compiles.
pub open spec fn valid_places(patterns: Seq<Seq<char>>, k: int) -> Seq<usize>
    decreases k,
{
    if k <= 0 {
        Seq::empty()
    } else if bytes_pattern_valid(patterns[k - 1]) {
        valid_places(patterns, k - 1).push((k - 1) as usize)
    } else {
        valid_places(patterns, k - 1)
    }
}

/// Whether the list holds the number.
fn holds(list: &Vec<u64>, x: u64) -> (r: bool)
    ensures
        r == list@.contains(x),
{
    let mut i: usize = 0;
    while i < list.len()
        invariant
            i <= list@.len(),
            forall|j: int| 0 <= j < i ==> list@[j] != x,
        decreases list@.len() - i,
    {
        if list[i] == x {
            return true;
        }
        i += 1;
    }
    false
}

/// Filtering one more element.
pub proof fn lemma_filter_step<T>(s: Seq<T>, k: int, keep: spec_fn(T) -> bool)
    requires
        0 <= k < s.len(),
    ensures
        s.subrange(0, k + 1).filter(keep) == (if keep(s[k]) {
            s.subrange(0, k).filter(keep).push(s[k])
        } else {
            s.subrange(0, k).filter(keep)
        }),
{
    reveal(Seq::filter);
    assert(s.subrange(0, k + 1).drop_last() =~= s.subrange(0, k));
}

/// A pushed list holds the old elements and the new one.
proof fn lemma_push_contains(l: Seq<u64>, x: u64, s: u64)
    ensures
        l.push(x).contains(s) <==> l.contains(s) || s == x,
{
    if l.contains(s) {
        let j = choose|j: int| 0 <= j < l.len() && l[j] == s;
        assert(l.push(x)[j] == s);
    }
    if s == x {
        assert(l.push(x)[l.len() as int] == s);
    }
}

/// One more watcher in the question whether a group fired.
proof fn lemma_group_step(ws: Seq<WatcherView>, line: Seq<char>, s: u64, k: int)
    requires
        0 <= k < ws.len(),
    ensures
        group_fired(ws, line, s, k + 1) <==> group_fired(ws, line, s, k) || (ws[k].group
            && ws[k].sender == s && fires(ws[k], line)),
{
    if group_fired(ws, line, s, k) {
        let j = choose|j: int|
            0 <= j < k && (#[trigger] ws[j]).group && ws[j].sender == s && fires(ws[j], line);
        assert(0 <= j < k + 1 && ws[j].group && ws[j].sender == s && fires(ws[j], line));
    }
    if ws[k].group && ws[k].sender == s && fires(ws[k], line) {
        assert(0 <= k < k + 1 && ws[k].group);
    }
}

/// The events of the stages, given which of them matched, and the flags after.
pub fn apply_stages(flags: CycleFlags, matched: &[bool]) -> (r: (CycleFlags, Vec<BootEvent>))
    requires
        matched@.len() == STAGE_COUNT,
    ensures
        r.0 == flags_after_stages(flags, matched@, STAGE_COUNT as int),
        events_of(r.1@) == stage_events(flags, matched@, STAGE_COUNT as int),
{
    let mut f = flags;
    let mut events: Vec<BootEvent> = Vec::new();
    assert(events_of(events@) =~= Seq::<EventView>::empty());
    let mut i: usize = 0;
    while i < STAGE_COUNT
        invariant
            i <= STAGE_COUNT,
            matched@.len() == STAGE_COUNT,
            f == flags_after_stages(flags, matched@, i as int),
            events_of(events@) == stage_events(flags, matched@, i as int),
        decreases STAGE_COUNT - i,
    {
        if matched[i] {
            let (g, e) = handle_stage(f, i);
            f = g;
            if let Some(ev) = e {
                let ghost before = events@;
                events.push(ev);
                assert(events_of(events@) =~= events_of(before).push(ev@));
            }
        }
        i += 1;
    }
    (f, events)
}

/// The event of one stage that matched and the flags after it.
pub fn handle_stage(flags: CycleFlags, i: usize) -> (r: (CycleFlags, Option<BootEvent>))
    requires
        i < STAGE_COUNT,
    ensures
        r.0 == flags_after(flags, i as int),
        match r.1 {
            Some(e) => stage_event(flags, i as int) == Some(e@),
            None => stage_event(flags, i as int) is None,
        },
{
    let stage = boot_stage(i);
    if i == 0 {
        if flags.boot_detected {
            return (flags, None);
        }
        let f = CycleFlags { boot_detected: true, login_sent: false, password_sent: false };
        return (f, Some(BootEvent::BootStart));
    }
    match stage.action {
        StageAction::SendCtrlC => (flags, Some(BootEvent::Autoboot)),
        StageAction::SendLogin => {
            if !flags.login_sent {
                (CycleFlags { login_sent: true, ..flags }, Some(BootEvent::LoginPrompt))
            } else {
                (flags, Some(BootEvent::Stage(stage.name.to_owned())))
            }
        },
        StageAction::SendPassword => {
            if !flags.password_sent {
                (CycleFlags { password_sent: true, ..flags }, Some(BootEvent::PasswordPrompt))
            } else {
                (flags, Some(BootEvent::Stage(stage.name.to_owned())))
            }
        },
        _ => (flags, Some(BootEvent::Stage(stage.name.to_owned()))),
    }
}

/// The events of a stage that the learner named and the flags after it.
pub fn apply_learned(flags: CycleFlags, stage: String) -> (r: (CycleFlags, Vec<BootEvent>))
    ensures
        r.0 == learned_flags(flags, stage@),
        events_of(r.1@) == learned_events(flags, stage@),
{
    let mut events: Vec<BootEvent> = Vec::new();
    let mut f = flags;
    let spl: bool = eq_text(&stage, "spl");
    let uboot: bool = eq_text(&stage, "uboot");
    if spl && flags.boot_detected {
        assert(events_of(events@) =~= Seq::<EventView>::empty());
        return (flags, events);
    }
    if spl || (uboot && !flags.boot_detected) {
        f = CycleFlags { boot_detected: true, login_sent: false, password_sent: false };
        events.push(BootEvent::BootStart);
    }
    events.push(BootEvent::Stage(stage));
    assert(events_of(events@) =~= learned_events(flags, stage@));
    (f, events)
}

// ── Laws ────────────────────────────────────────────────────────────────────

/// Some event says that a boot began.
pub open spec fn has_boot_start(es: Seq<EventView>) -> bool {
    exists|i: int| 0 <= i < es.len() && #[trigger] es[i] is BootStart
}

/// Some event asks for a login.
pub open spec fn has_login(es: Seq<EventView>) -> bool {
    exists|i: int| 0 <= i < es.len() && #[trigger] es[i] is LoginPrompt
}

/// Some event reports a crash.
pub open spec fn has_crash(es: Seq<EventView>) -> bool {
    exists|i: int| 0 <= i < es.len() && #[trigger] es[i] is Crash
}

/// What the stages of a line yield within a boot cycle.
proof fn lemma_stages_in_cycle(f: CycleFlags, matched: Seq<bool>, k: int)
    requires
        f.boot_detected,
        0 <= k <= STAGE_COUNT,
    ensures
        flags_after_stages(f, matched, k).boot_detected,
        f.login_sent ==> flags_after_stages(f, matched, k).login_sent,
        !has_boot_start(stage_events(f, matched, k)),
        f.login_sent ==> !has_login(stage_events(f, matched, k)),
    decreases k,
{
    if k > 0 {
        lemma_stages_in_cycle(f, matched, k - 1);
        let before = stage_events(f, matched, k - 1);
        let all = stage_events(f, matched, k);
        assert forall|i: int| 0 <= i < all.len() implies !(#[trigger] all[i] is BootStart) && !(
        f.login_sent && all[i] is LoginPrompt) by {
            if i < before.len() {
                assert(all[i] == before[i]);
            }
        }
    }
}

/// What one line yields within a boot cycle.
proof fn lemma_line_in_cycle(d: DetectorView, line: Seq<u8>, now: int)
    requires
        d.flags.boot_detected,
    ensures
        d.after_line(line, now).flags.boot_detected,
        d.flags.login_sent ==> d.after_line(line, now).flags.login_sent,
        !has_boot_start(d.events_at(line, now)),
        d.flags.login_sent ==> !has_login(d.events_at(line, now)),
{
    lemma_stages_in_cycle(d.flags, d.matches(line), STAGE_COUNT as int);
    let noted = DetectorView {
        last_crash: if d.crash_due(line, now) {
            Some(now)
        } else {
            d.last_crash
        },
        ..d
    };
    assert(noted.matches(line) =~= d.matches(line));
    let c = d.crash_events(line, now);
    let l = d.line_events(line);
    let all = d.events_at(line, now);
    assert forall|i: int| 0 <= i < all.len() implies !(#[trigger] all[i] is BootStart) && !(
    d.flags.login_sent && all[i] is LoginPrompt) by {
        if i < c.len() {
            assert(all[i] == c[i]);
        } else {
            assert(all[i] == l[i - c.len()]);
        }
    }
}

/// Law: within a boot cycle no output begins another one; it takes a reset of the
/// cycle.
pub proof fn law_one_boot_start_per_cycle(d: DetectorView, now: int)
    requires
        d.flags.boot_detected,
    ensures
        !has_boot_start(d.drained(now).1),
        d.drained(now).0.flags.boot_detected,
        !d.reset_cycle().flags.boot_detected,
    decreases d.line_buf.len(),
{
    lemma_line_end(d.line_buf, 0);
    if line_end(d.line_buf, 0) < d.line_buf.len() {
        let line = d.first_line();
        let next = d.advanced();
        if line.len() == 0 {
            law_one_boot_start_per_cycle(next, now);
        } else {
            lemma_line_in_cycle(next, line, now);
            law_one_boot_start_per_cycle(next.after_line(line, now), now);
            let a = next.events_at(line, now);
            let b = next.after_line(line, now).drained(now).1;
            let all = d.drained(now).1;
            assert(all == a + b);
            assert forall|i: int| 0 <= i < all.len() implies !(#[trigger] all[i] is BootStart) by {
                if i < a.len() {
                    assert(all[i] == a[i]);
                } else {
                    assert(all[i] == b[i - a.len()]);
                }
            }
        }
    }
}

/// Law: within a boot cycle a login is asked for once.
pub proof fn law_one_login_per_cycle(d: DetectorView, now: int)
    requires
        d.flags.boot_detected,
        d.flags.login_sent,
    ensures
        !has_login(d.drained(now).1),
        d.drained(now).0.flags.login_sent,
    decreases d.line_buf.len(),
{
    lemma_line_end(d.line_buf, 0);
    if line_end(d.line_buf, 0) < d.line_buf.len() {
        let line = d.first_line();
        let next = d.advanced();
        if line.len() == 0 {
            law_one_login_per_cycle(next, now);
        } else {
            lemma_line_in_cycle(next, line, now);
            law_one_login_per_cycle(next.after_line(line, now), now);
            let a = next.events_at(line, now);
            let b = next.after_line(line, now).drained(now).1;
            let all = d.drained(now).1;
            assert(all == a + b);
            assert forall|i: int| 0 <= i < all.len() implies !(#[trigger] all[i] is LoginPrompt) by {
                if i < a.len() {
                    assert(all[i] == a[i]);
                } else {
                    assert(all[i] == b[i - a.len()]);
                }
            }
        }
    }
}

/// No stage is a crash.
proof fn lemma_stages_are_no_crash(f: CycleFlags, matched: Seq<bool>, k: int)
    requires
        0 <= k <= STAGE_COUNT,
    ensures
        !has_crash(stage_events(f, matched, k)),
    decreases k,
{
    if k > 0 {
        lemma_stages_are_no_crash(f, matched, k - 1);
        let before = stage_events(f, matched, k - 1);
        let all = stage_events(f, matched, k);
        assert forall|i: int| 0 <= i < all.len() implies !(#[trigger] all[i] is Crash) by {
            if i < before.len() {
                assert(all[i] == before[i]);
            }
        }
    }
}

/// Law: a crash that follows another within two seconds is not reported.
pub proof fn law_crashes_are_throttled(d: DetectorView, now: int)
    requires
        d.last_crash matches Some(t) && crate::state_manager::elapsed(now, t) <= CRASH_PAUSE,
    ensures
        !has_crash(d.drained(now).1),
        d.drained(now).0.last_crash == d.last_crash,
    decreases d.line_buf.len(),
{
    lemma_line_end(d.line_buf, 0);
    if line_end(d.line_buf, 0) < d.line_buf.len() {
        let line = d.first_line();
        let next = d.advanced();
        if line.len() == 0 {
            law_crashes_are_throttled(next, now);
        } else {
            assert(!next.crash_due(line, now));
            lemma_stages_are_no_crash(next.flags, next.matches(line), STAGE_COUNT as int);
            law_crashes_are_throttled(next.after_line(line, now), now);
            let a = next.events_at(line, now);
            let l = next.line_events(line);
            assert(a =~= l);
            let b = next.after_line(line, now).drained(now).1;
            let all = d.drained(now).1;
            assert(all == a + b);
            assert forall|i: int| 0 <= i < all.len() implies !(#[trigger] all[i] is Crash) by {
                if i < a.len() {
                    assert(all[i] == l[i]);
                } else {
                    assert(all[i] == b[i - a.len()]);
                }
            }
        }
    }
}

/// The detector with more output in its buffer, which is not cut.
spec fn extended(d: DetectorView, data: Seq<u8>) -> DetectorView {
    DetectorView { line_buf: d.line_buf + data, ..d }
}

/// What stands behind a line end does not move it.
proof fn lemma_line_end_extends(s: Seq<u8>, t: Seq<u8>, from: int)
    requires
        0 <= from <= s.len(),
        line_end(s, from) < s.len(),
    ensures
        line_end(s + t, from) == line_end(s, from),
    decreases s.len() - from,
{
    assert((s + t)[from] == s[from]);
    if s[from] != 10 && s[from] != 13 {
        lemma_line_end_extends(s, t, from + 1);
    }
}

/// What a line does does not depend on what is buffered.
proof fn lemma_line_ignores_buffer(d: DetectorView, data: Seq<u8>, line: Seq<u8>, now: int)
    ensures
        extended(d, data).after_line(line, now) == extended(d.after_line(line, now), data),
        extended(d, data).events_at(line, now) == d.events_at(line, now),
{
    let e = extended(d, data);
    assert(e.matches(line) =~= d.matches(line));
    let last = if d.crash_due(line, now) {
        Some(now)
    } else {
        d.last_crash
    };
    assert(DetectorView { last_crash: last, ..e }.matches(line) =~= d.matches(line));
    assert(DetectorView { last_crash: last, ..d }.matches(line) =~= d.matches(line));
}

/// Draining a longer buffer first does what draining the shorter one does.
proof fn lemma_drain_in_parts(d: DetectorView, data: Seq<u8>, now: int)
    ensures
        ({
            let (m, e) = d.drained(now);
            let (z, f) = extended(m, data).drained(now);
            extended(d, data).drained(now) == (z, e + f)
        }),
    decreases d.line_buf.len(),
{
    let (m, e) = d.drained(now);
    let (z, f) = extended(m, data).drained(now);
    let x = extended(d, data);
    lemma_line_end(d.line_buf, 0);
    if line_end(d.line_buf, 0) >= d.line_buf.len() {
        assert(e + f =~= f);
    } else {
        lemma_line_end_extends(d.line_buf, data, 0);
        let end = line_end(d.line_buf, 0);
        assert(x.line_buf.subrange(0, end) =~= d.line_buf.subrange(0, end));
        assert(x.line_buf.subrange(end + 1, x.line_buf.len() as int) =~= d.line_buf.subrange(
            end + 1,
            d.line_buf.len() as int,
        ) + data);
        let line = d.first_line();
        let next = d.advanced();
        assert(x.first_line() == line);
        assert(x.advanced() == extended(next, data));
        if line.len() == 0 {
            lemma_drain_in_parts(next, data, now);
        } else {
            lemma_line_ignores_buffer(next, data, line, now);
            lemma_drain_in_parts(next.after_line(line, now), data, now);
            let a = next.events_at(line, now);
            let b = next.after_line(line, now).drained(now).1;
            assert(a + (b + f) =~= (a + b) + f);
        }
    }
}

/// Law: it does not matter where output is cut into chunks, as long as the buffer
/// is not: feeding two chunks one after the other leads to the same events and the
/// same detector as feeding both at once.
pub proof fn law_chunks_do_not_matter(d: DetectorView, a: Seq<u8>, b: Seq<u8>, now: int)
    requires
        d.line_buf.len() + a.len() + b.len() <= BUFFER_LIMIT,
    ensures
        ({
            let (m, e) = d.buffered(a).drained(now);
            let (z, f) = m.buffered(b).drained(now);
            d.buffered(a + b).drained(now) == (z, e + f)
        }),
{
    let da = d.buffered(a);
    let (m, e) = da.drained(now);
    lemma_drained_shrinks(da, now);
    lemma_drain_in_parts(da, b, now);
    assert(d.line_buf + (a + b) =~= (d.line_buf + a) + b);
    assert(d.buffered(a + b) == extended(da, b));
    assert(m.buffered(b) == extended(m, b));
}

/// Draining does not make the buffer longer.
proof fn lemma_drained_shrinks(d: DetectorView, now: int)
    ensures
        d.drained(now).0.line_buf.len() <= d.line_buf.len(),
    decreases d.line_buf.len(),
{
    lemma_line_end(d.line_buf, 0);
    if line_end(d.line_buf, 0) < d.line_buf.len() {
        let line = d.first_line();
        let next = d.advanced();
        if line.len() == 0 {
            lemma_drained_shrinks(next, now);
        } else {
            lemma_drained_shrinks(next.after_line(line, now), now);
        }
    }
}

/// Law: with a learner, a line is handed out as unclassified exactly where neither
/// a stage pattern nor the learner claims it, and then it is all that the stages
/// report; without a learner no line is.
pub proof fn law_unclaimed_lines_are_handed_out(d: DetectorView, line: Seq<u8>)
    ensures
        d.unclaimed(line) ==> d.line_events(line) == seq![
            EventView::Unclassified(seq![utf8_lossy(line)]),
        ],
        !d.unclaimed(line) ==> forall|i: int|
            0 <= i < d.line_events(line).len() ==> !(#[trigger] d.line_events(line)[i]
                is Unclassified),
        d.learner is None ==> !d.unclaimed(line),
{
    lemma_stages_claim(d.flags, d.matches(line), STAGE_COUNT as int);
}

/// The stage patterns report stages.
proof fn lemma_stages_claim(f: CycleFlags, matched: Seq<bool>, k: int)
    ensures
        forall|i: int|
            0 <= i < stage_events(f, matched, k).len() ==> !(#[trigger] stage_events(
                f,
                matched,
                k,
            )[i] is Unclassified),
    decreases k,
{
    if k > 0 {
        lemma_stages_claim(f, matched, k - 1);
        let before = stage_events(f, matched, k - 1);
        let all = stage_events(f, matched, k);
        assert forall|i: int| 0 <= i < all.len() implies !(#[trigger] all[i] is Unclassified) by {
            if i < before.len() {
                assert(all[i] == before[i]);
            }
        }
    }
}

/// Law: a group of watchers that fired on a line is gone after it.
pub proof fn law_groups_fire_once(ws: Seq<WatcherView>, line: Seq<char>, sender: u64)
    requires
        group_fired(ws, line, sender, ws.len() as int),
    ensures
        forall|i: int|
            0 <= i < staying(ws, line).len() ==> !((#[trigger] staying(ws, line)[i]).group
                && staying(ws, line)[i].sender == sender),
{
    let keep = |w: WatcherView|
        !(w.group && group_fired(ws, line, w.sender, ws.len() as int));
    assert(staying(ws, line) == ws.filter(keep));
    assert forall|i: int| 0 <= i < staying(ws, line).len() implies !((#[trigger] staying(
        ws,
        line,
    )[i]).group && staying(ws, line)[i].sender == sender) by {
        broadcast use vstd::seq_lib::group_filter_ensures;

        assert(keep(ws.filter(keep)[i]));
    }
}

/// A learner stays, whatever output comes.
pub proof fn lemma_learner_stays(d: DetectorView, now: int)
    ensures
        d.drained(now).0.learner is Some <==> d.learner is Some,
    decreases d.line_buf.len(),
{
    if !(line_end(d.line_buf, 0) >= d.line_buf.len() || line_end(d.line_buf, 0) < 0) {
        let line = d.first_line();
        let next = d.advanced();
        if line.len() == 0 {
            lemma_learner_stays(next, now);
        } else {
            lemma_learner_stays(next.after_line(line, now), now);
        }
    }
}

/// Law: a line that a stage's pattern matches announces that stage: by its name, or by
/// the event that belongs to it.
#[verifier::rlimit(50)]
pub proof fn law_stages_are_announced(d: DetectorView, line: Seq<u8>)
    ensures
        ({
            let es = d.line_events(line);
            let starts = pattern_hits(r"U-Boot\s+SPL"@, line) && !d.flags.boot_detected;
            &&& starts ==> es.len() > 0 && es[0] == EventView::BootStart
            &&& pattern_hits(r"Hit\s+(?:any\s+)?key\s+to\s+stop\s+autoboot"@, line) ==> es.contains(EventView::Autoboot)
            &&& pattern_hits(d.login_pattern, line) && (starts || !d.flags.login_sent) ==> es.contains(EventView::LoginPrompt)
            &&& pattern_hits(d.login_pattern, line) && !starts && d.flags.login_sent ==> es.contains(EventView::Stage("login"@))
            &&& pattern_hits(r"Password:\s*$"@, line) && (starts || !d.flags.password_sent) ==> es.contains(EventView::PasswordPrompt)
            &&& pattern_hits(r"Password:\s*$"@, line) && !starts && d.flags.password_sent ==> es.contains(
                EventView::Stage("password"@),
            )
            &&& pattern_hits(r"TL[123]\s"@, line) ==> es.contains(EventView::Stage("tpl"@))
            &&& pattern_hits(r"BL31:"@, line) ==> es.contains(EventView::Stage("bl31"@))
            &&& pattern_hits(r"OP-TEE"@, line) ==> es.contains(EventView::Stage("optee"@))
            &&& pattern_hits(r"DDR\s+Version"@, line) ==> es.contains(EventView::Stage("ddr"@))
            &&& pattern_hits(r"(?:U-Boot\s+20\d{2}|^=>\s)"@, line) ==> es.contains(EventView::Stage("uboot"@))
            &&& pattern_hits(r"Linux\s+version"@, line) ==> es.contains(EventView::Stage("kernel"@))
            &&& pattern_hits(r"Starting\s+kernel"@, line) ==> es.contains(EventView::Stage("start"@))
            &&& pattern_hits(r"(?:[#\$]\s*$|^\S+@\S+:\S*[#\$]\s)"@, line) ==> es.contains(EventView::Stage("shell"@))
            &&& pattern_hits(r"console:/\s*[#\$]"@, line) ==> es.contains(EventView::Stage("android_shell"@))
            &&& pattern_hits(r"init:\s*(?:started service|starting service)"@, line) ==> es.contains(EventView::Stage("android_init"@))
            &&& pattern_hits(r"adbd?\s+(?:.*?\s)?(?:starting|started|ready)"@, line) ==> es.contains(EventView::Stage("android_adbd"@))
            &&& pattern_hits(r"bootanim\s+(?:service\s+)?(?:started|stopped|done)"@, line) ==> es.contains(EventView::Stage("android_bootanim"@))
            &&& pattern_hits(r"surfaceflinger\s+.*?(?:started|ready)"@, line) ==> es.contains(EventView::Stage("android_surfaceflinger"@))
            &&& pattern_hits(r"(?:sys\.)?boot_completed\s*[=:]\s*(?:1|true|done)"@, line) ==> es.contains(EventView::Stage("android_boot_completed"@))
        }),
{
    if pattern_hits(r"TL[123]\s"@, line) {
        lemma_announces(d, line, 1);
    }
    if pattern_hits(r"BL31:"@, line) {
        lemma_announces(d, line, 2);
    }
    if pattern_hits(r"OP-TEE"@, line) {
        lemma_announces(d, line, 3);
    }
    if pattern_hits(r"DDR\s+Version"@, line) {
        lemma_announces(d, line, 4);
    }
    if pattern_hits(r"(?:U-Boot\s+20\d{2}|^=>\s)"@, line) {
        lemma_announces(d, line, 5);
    }
    if pattern_hits(r"Hit\s+(?:any\s+)?key\s+to\s+stop\s+autoboot"@, line) {
        lemma_announces(d, line, 6);
    }
    if pattern_hits(r"Linux\s+version"@, line) {
        lemma_announces(d, line, 7);
    }
    if pattern_hits(r"Starting\s+kernel"@, line) {
        lemma_announces(d, line, 8);
    }
    if pattern_hits(d.login_pattern, line) {
        lemma_announces(d, line, 9);
    }
    if pattern_hits(r"Password:\s*$"@, line) {
        lemma_announces(d, line, 10);
    }
    if pattern_hits(r"(?:[#\$]\s*$|^\S+@\S+:\S*[#\$]\s)"@, line) {
        lemma_announces(d, line, 11);
    }
    if pattern_hits(r"console:/\s*[#\$]"@, line) {
        lemma_announces(d, line, 12);
    }
    if pattern_hits(r"init:\s*(?:started service|starting service)"@, line) {
        lemma_announces(d, line, 13);
    }
    if pattern_hits(r"adbd?\s+(?:.*?\s)?(?:starting|started|ready)"@, line) {
        lemma_announces(d, line, 14);
    }
    if pattern_hits(r"bootanim\s+(?:service\s+)?(?:started|stopped|done)"@, line) {
        lemma_announces(d, line, 15);
    }
    if pattern_hits(r"surfaceflinger\s+.*?(?:started|ready)"@, line) {
        lemma_announces(d, line, 16);
    }
    if pattern_hits(r"(?:sys\.)?boot_completed\s*[=:]\s*(?:1|true|done)"@, line) {
        lemma_announces(d, line, 17);
    }
    lemma_flags_at_login(d.flags, d.matches(line));
    assert(d.matches(line)[0] == pattern_hits(r"U-Boot\s+SPL"@, line));
    if pattern_hits(r"U-Boot\s+SPL"@, line) && !d.flags.boot_detected {
        lemma_first_event_stays(d.flags, d.matches(line), 18);
    }
}

proof fn lemma_flags_at_login(f: CycleFlags, matched: Seq<bool>)
    ensures
        flags_after_stages(f, matched, 9) == (if matched[0] && !f.boot_detected {
            f.started()
        } else {
            f
        }),
        flags_after_stages(f, matched, 10).password_sent == flags_after_stages(
            f,
            matched,
            9,
        ).password_sent,
{
    reveal_with_fuel(flags_after_stages, 11);
}

proof fn lemma_announces(d: DetectorView, line: Seq<u8>, k: int)
    requires
        0 < k < 18,
        pattern_hits(d.pattern(k), line),
    ensures
        d.line_events(line).contains(
            stage_event(flags_after_stages(d.flags, d.matches(line), k), k)->0,
        ),
        stage_event(flags_after_stages(d.flags, d.matches(line), k), k) is Some,
{
    assert(d.matches(line)[k]);
    lemma_stage_announced(d.flags, d.matches(line), k, 18);
}

proof fn lemma_stage_announced(f: CycleFlags, matched: Seq<bool>, k: int, n: int)
    requires
        0 <= k < n,
        matched[k],
        stage_event(flags_after_stages(f, matched, k), k) is Some,
    ensures
        stage_events(f, matched, n).len() > 0,
        stage_events(f, matched, n).contains(
            stage_event(flags_after_stages(f, matched, k), k)->0,
        ),
    decreases n,
{
    let e = stage_event(flags_after_stages(f, matched, k), k)->0;
    let all = stage_events(f, matched, n);
    if k == n - 1 {
        assert(all.last() == e);
        assert(all[all.len() - 1] == e);
    } else {
        lemma_stage_announced(f, matched, k, n - 1);
        let before = stage_events(f, matched, n - 1);
        let i = choose|i: int| 0 <= i < before.len() && before[i] == e;
        assert(all[i] == e);
    }
}

proof fn lemma_first_event_stays(f: CycleFlags, matched: Seq<bool>, n: int)
    requires
        1 <= n,
        matched[0],
        !f.boot_detected,
    ensures
        stage_events(f, matched, n).len() > 0,
        stage_events(f, matched, n)[0] == EventView::BootStart,
    decreases n,
{
    reveal_with_fuel(stage_events, 2);
    reveal_with_fuel(flags_after_stages, 2);
    if n > 1 {
        lemma_first_event_stays(f, matched, n - 1);
    }
}

/// Law: without a learner, an event of a line comes of a pattern that matches it.
#[verifier::rlimit(50)]
pub proof fn law_events_come_of_patterns(d: DetectorView, line: Seq<u8>, i: int)
    requires
        d.learner is None,
        0 <= i < d.line_events(line).len(),
    ensures
        ({
            let e = d.line_events(line)[i];
            &&& e is BootStart ==> !d.flags.boot_detected && pattern_hits(r"U-Boot\s+SPL"@, line)
            &&& e is Autoboot ==> pattern_hits(r"Hit\s+(?:any\s+)?key\s+to\s+stop\s+autoboot"@, line)
            &&& e is LoginPrompt ==> pattern_hits(d.login_pattern, line)
            &&& e is PasswordPrompt ==> pattern_hits(r"Password:\s*$"@, line)
            &&& !(e is Crash) && !(e is Unclassified)
            &&& e matches EventView::Stage(n) ==> exists|k: int|
                0 < k < 18 && k != 6 && n == #[trigger] stage_name(k) && d.matches(line)[k]
        }),
{
    let matched = d.matches(line);
    let f = d.flags;
    reveal_with_fuel(flags_after_stages, 2);
    let k = lemma_event_of(f, matched, 18, i);
    assert(matched[0] == pattern_hits(r"U-Boot\s+SPL"@, line));
    assert(matched[6] == pattern_hits(r"Hit\s+(?:any\s+)?key\s+to\s+stop\s+autoboot"@, line));
    assert(matched[9] == pattern_hits(d.login_pattern, line));
    assert(matched[10] == pattern_hits(r"Password:\s*$"@, line));
    let e = d.line_events(line)[i];
    if let EventView::Stage(n) = e {
        assert(n == stage_name(k));
    }
}

proof fn lemma_event_of(f: CycleFlags, matched: Seq<bool>, n: int, i: int) -> (k: int)
    requires
        0 <= n,
        0 <= i < stage_events(f, matched, n).len(),
    ensures
        0 <= k < n,
        matched[k],
        stage_event(flags_after_stages(f, matched, k), k) == Some(stage_events(f, matched, n)[i]),
    decreases n,
{
    let before = stage_events(f, matched, n - 1);
    if i < before.len() {
        assert(stage_events(f, matched, n)[i] == before[i]);
        lemma_event_of(f, matched, n - 1, i)
    } else {
        n - 1
    }
}

/// Law: the stages by their names and patterns.
#[verifier::rlimit(50)]
pub proof fn law_stages_have_names(d: DetectorView, line: Seq<u8>, k: int)
    requires
        0 <= k < 18,
    ensures
        stage_name(k) == "spl"@ ==> d.matches(line)[k] == pattern_hits(r"U-Boot\s+SPL"@, line),
        stage_name(k) == "tpl"@ ==> d.matches(line)[k] == pattern_hits(r"TL[123]\s"@, line),
        stage_name(k) == "bl31"@ ==> d.matches(line)[k] == pattern_hits(r"BL31:"@, line),
        stage_name(k) == "optee"@ ==> d.matches(line)[k] == pattern_hits(r"OP-TEE"@, line),
        stage_name(k) == "ddr"@ ==> d.matches(line)[k] == pattern_hits(r"DDR\s+Version"@, line),
        stage_name(k) == "uboot"@ ==> d.matches(line)[k] == pattern_hits(r"(?:U-Boot\s+20\d{2}|^=>\s)"@, line),
        stage_name(k) == "autoboot"@ ==> d.matches(line)[k] == pattern_hits(r"Hit\s+(?:any\s+)?key\s+to\s+stop\s+autoboot"@, line),
        stage_name(k) == "kernel"@ ==> d.matches(line)[k] == pattern_hits(r"Linux\s+version"@, line),
        stage_name(k) == "start"@ ==> d.matches(line)[k] == pattern_hits(r"Starting\s+kernel"@, line),
        stage_name(k) == "login"@ ==> d.matches(line)[k] == pattern_hits(d.login_pattern, line),
        stage_name(k) == "password"@ ==> d.matches(line)[k] == pattern_hits(r"Password:\s*$"@, line),
        stage_name(k) == "shell"@ ==> d.matches(line)[k] == pattern_hits(r"(?:[#\$]\s*$|^\S+@\S+:\S*[#\$]\s)"@, line),
        stage_name(k) == "android_shell"@ ==> d.matches(line)[k] == pattern_hits(r"console:/\s*[#\$]"@, line),
        stage_name(k) == "android_init"@ ==> d.matches(line)[k] == pattern_hits(r"init:\s*(?:started service|starting service)"@, line),
        stage_name(k) == "android_adbd"@ ==> d.matches(line)[k] == pattern_hits(r"adbd?\s+(?:.*?\s)?(?:starting|started|ready)"@, line),
        stage_name(k) == "android_bootanim"@ ==> d.matches(line)[k] == pattern_hits(r"bootanim\s+(?:service\s+)?(?:started|stopped|done)"@, line),
        stage_name(k) == "android_surfaceflinger"@ ==> d.matches(line)[k] == pattern_hits(r"surfaceflinger\s+.*?(?:started|ready)"@, line),
        stage_name(k) == "android_boot_completed"@ ==> d.matches(line)[k] == pattern_hits(r"(?:sys\.)?boot_completed\s*[=:]\s*(?:1|true|done)"@, line),
{
    reveal_strlit("spl");
    reveal_strlit("tpl");
    reveal_strlit("bl31");
    reveal_strlit("optee");
    reveal_strlit("ddr");
    reveal_strlit("uboot");
    reveal_strlit("autoboot");
    reveal_strlit("kernel");
    reveal_strlit("start");
    reveal_strlit("login");
    reveal_strlit("password");
    reveal_strlit("shell");
    reveal_strlit("android_shell");
    reveal_strlit("android_init");
    reveal_strlit("android_adbd");
    reveal_strlit("android_bootanim");
    reveal_strlit("android_surfaceflinger");
    reveal_strlit("android_boot_completed");
    lemma_stage_names_differ();
}

spec fn stage_tag(n: Seq<char>) -> int {
    n.len() * 1000000 + (n[0] as u32) * 1000 + n.last() as u32
}

proof fn lemma_stage_names_differ()
    ensures
        stage_tag("spl"@) == 3115108,
        stage_tag("tpl"@) == 3116108,
        stage_tag("bl31"@) == 4098049,
        stage_tag("optee"@) == 5111101,
        stage_tag("ddr"@) == 3100114,
        stage_tag("uboot"@) == 5117116,
        stage_tag("autoboot"@) == 8097116,
        stage_tag("kernel"@) == 6107108,
        stage_tag("start"@) == 5115116,
        stage_tag("login"@) == 5108110,
        stage_tag("password"@) == 8112100,
        stage_tag("shell"@) == 5115108,
        stage_tag("android_shell"@) == 13097108,
        stage_tag("android_init"@) == 12097116,
        stage_tag("android_adbd"@) == 12097100,
        stage_tag("android_bootanim"@) == 16097109,
        stage_tag("android_surfaceflinger"@) == 22097114,
        stage_tag("android_boot_completed"@) == 22097100,
{
    reveal_strlit("spl");
    reveal_strlit("tpl");
    reveal_strlit("bl31");
    reveal_strlit("optee");
    reveal_strlit("ddr");
    reveal_strlit("uboot");
    reveal_strlit("autoboot");
    reveal_strlit("kernel");
    reveal_strlit("start");
    reveal_strlit("login");
    reveal_strlit("password");
    reveal_strlit("shell");
    reveal_strlit("android_shell");
    reveal_strlit("android_init");
    reveal_strlit("android_adbd");
    reveal_strlit("android_bootanim");
    reveal_strlit("android_surfaceflinger");
    reveal_strlit("android_boot_completed");
}

/// Law: without a learner, a line starts a boot, sends the user name or the password
/// exactly where its pattern says so; a boot's start forgets what was sent before.
#[verifier::rlimit(50)]
pub proof fn law_flags_follow_the_line(d: DetectorView, line: Seq<u8>)
    requires
        d.learner is None,
    ensures
        ({
            let g = d.line_flags(line);
            let spl = pattern_hits(r"U-Boot\s+SPL"@, line);
            let starts = spl && !d.flags.boot_detected;
            &&& g.boot_detected <==> d.flags.boot_detected || spl
            &&& g.login_sent <==> pattern_hits(d.login_pattern, line) || (d.flags.login_sent && !starts)
            &&& g.password_sent <==> pattern_hits(r"Password:\s*$"@, line) || (d.flags.password_sent && !starts)
        }),
{
    let matched = d.matches(line);
    assert(matched[0] == pattern_hits(r"U-Boot\s+SPL"@, line));
    assert(matched[9] == pattern_hits(d.login_pattern, line));
    assert(matched[10] == pattern_hits(r"Password:\s*$"@, line));
    reveal_with_fuel(flags_after_stages, 19);
}

/// Law: a crash line is announced by its kind, with the line, unless one was within
/// the last two seconds; the first kind whose pattern matches decides, and a line
/// that none matches is no crash.
#[verifier::rlimit(50)]
pub proof fn law_crashes_are_announced(d: DetectorView, line: Seq<u8>, now: int)
    ensures
        ({
            let free = d.last_crash is None || now > d.last_crash->0 + 2_000_000_000;
            let es = d.crash_events(line, now);
            let text = utf8_lossy(line);
            &&& free && pattern_hits(r"Kernel\s+panic\s*[-:]"@, line) ==> es == seq![EventView::Crash("panic"@, text)]
            &&& free && pattern_hits(r"BUG:\s"@, line) && !pattern_hits(r"Kernel\s+panic\s*[-:]"@, line) ==> es == seq![EventView::Crash("BUG"@, text)]
            &&& free && pattern_hits(r"Oops:\s"@, line) && !pattern_hits(r"Kernel\s+panic\s*[-:]"@, line) && !pattern_hits(r"BUG:\s"@, line) ==> es == seq![EventView::Crash("Oops"@, text)]
            &&& free && pattern_hits(r"Unable\s+to\s+handle\s+kernel"@, line) && !pattern_hits(r"Kernel\s+panic\s*[-:]"@, line) && !pattern_hits(r"BUG:\s"@, line) && !pattern_hits(r"Oops:\s"@, line) ==> es == seq![EventView::Crash("kernel-fault"@, text)]
            &&& free && pattern_hits(r"BUG:\s+unable\s+to\s+handle"@, line) && !pattern_hits(r"Kernel\s+panic\s*[-:]"@, line) && !pattern_hits(r"BUG:\s"@, line) && !pattern_hits(r"Oops:\s"@, line) && !pattern_hits(r"Unable\s+to\s+handle\s+kernel"@, line) ==> es == seq![EventView::Crash("BUG"@, text)]
            &&& free && pattern_hits(r"Segmentation\s+fault"@, line) && !pattern_hits(r"Kernel\s+panic\s*[-:]"@, line) && !pattern_hits(r"BUG:\s"@, line) && !pattern_hits(r"Oops:\s"@, line) && !pattern_hits(r"Unable\s+to\s+handle\s+kernel"@, line) && !pattern_hits(r"BUG:\s+unable\s+to\s+handle"@, line) ==> es == seq![EventView::Crash("segfault"@, text)]
            &&& free && pattern_hits(r"---\[\s*end\s+trace\s+[0-9a-f]+\s*\]---"@, line) && !pattern_hits(r"Kernel\s+panic\s*[-:]"@, line) && !pattern_hits(r"BUG:\s"@, line) && !pattern_hits(r"Oops:\s"@, line) && !pattern_hits(r"Unable\s+to\s+handle\s+kernel"@, line) && !pattern_hits(r"BUG:\s+unable\s+to\s+handle"@, line) && !pattern_hits(r"Segmentation\s+fault"@, line) ==> es == seq![EventView::Crash("end-trace"@, text)]
            &&& !pattern_hits(r"Kernel\s+panic\s*[-:]"@, line) && !pattern_hits(r"BUG:\s"@, line) && !pattern_hits(r"Oops:\s"@, line) && !pattern_hits(r"Unable\s+to\s+handle\s+kernel"@, line) && !pattern_hits(r"BUG:\s+unable\s+to\s+handle"@, line) && !pattern_hits(r"Segmentation\s+fault"@, line) && !pattern_hits(r"---\[\s*end\s+trace\s+[0-9a-f]+\s*\]---"@, line) ==> es.len() == 0
            &&& !free ==> es.len() == 0
            &&& d.after_line(line, now).last_crash == (if es.len() > 0 {
                Some(now)
            } else {
                d.last_crash
            })
            &&& d.events_at(line, now) == es + d.line_events(line)
        }),
{
    reveal_with_fuel(first_crash, 8);
    assert(crash_pattern(0) == r"Kernel\s+panic\s*[-:]"@);
    assert(crash_pattern(1) == r"BUG:\s"@);
    assert(crash_pattern(2) == r"Oops:\s"@);
    assert(crash_pattern(3) == r"Unable\s+to\s+handle\s+kernel"@);
    assert(crash_pattern(4) == r"BUG:\s+unable\s+to\s+handle"@);
    assert(crash_pattern(5) == r"Segmentation\s+fault"@);
    assert(crash_pattern(6) == r"---\[\s*end\s+trace\s+[0-9a-f]+\s*\]---"@);
}

/// Law: a line that is not blank is taken from the buffer, without the white space
/// around it, and gives its events before those that follow.
#[verifier::rlimit(50)]
pub proof fn law_lines_are_taken(
    d: DetectorView,
    before: Seq<u8>,
    s: Seq<u8>,
    after: Seq<u8>,
    end: u8,
    rest: Seq<u8>,
    now: int,
)
    requires
        forall|i: int|
            0 <= i < before.len() ==> (#[trigger] before[i] == 32 || before[i] == 9 || before[i]
                == 12),
        forall|i: int|
            0 <= i < after.len() ==> (#[trigger] after[i] == 32 || after[i] == 9 || after[i] == 12),
        s.len() > 0 ==> s[0] > 32 && s.last() > 32,
        forall|i: int| 0 <= i < s.len() ==> #[trigger] s[i] != 10 && s[i] != 13,
        end == 10 || end == 13,
        d.line_buf == before + s + after + seq![end] + rest,
    ensures
        ({
            let next = DetectorView { line_buf: rest, ..d };
            &&& s.len() == 0 ==> d.drained(now) == next.drained(now)
            &&& s.len() > 0 ==> d.drained(now) == (
                next.after_line(s, now).drained(now).0,
                next.events_at(s, now) + next.after_line(s, now).drained(now).1,
            )
        }),
{
    let line = before + s + after;
    let b = d.line_buf;
    assert forall|i: int| 0 <= i < line.len() implies #[trigger] line[i] != 10 && line[i] != 13 by {
        if i < before.len() {
            assert(line[i] == before[i]);
        } else if i < before.len() + s.len() {
            assert(line[i] == s[i - before.len()]);
        } else {
            assert(line[i] == after[i - before.len() - s.len()]);
        }
    }
    assert(b[line.len() as int] == end);
    assert forall|i: int| 0 <= i < line.len() implies #[trigger] b[i] != 10 && b[i] != 13 by {
        assert(b[i] == line[i]);
    }
    lemma_end_at(b, line.len() as int, 0);
    assert(b.subrange(0, line.len() as int) =~= line);
    assert(b.subrange(line.len() as int + 1, b.len() as int) =~= rest);
    crate::text::law_trim_bytes(before, s, after);
    assert(d.first_line() == s);
}

proof fn lemma_end_at(s: Seq<u8>, k: int, from: int)
    requires
        0 <= from <= k < s.len(),
        s[k] == 10 || s[k] == 13,
        forall|i: int| from <= i < k ==> #[trigger] s[i] != 10 && s[i] != 13,
    ensures
        line_end(s, from) == k,
    decreases k - from,
{
    if from < k {
        lemma_end_at(s, k, from + 1);
    }
}

proof fn lemma_no_end(s: Seq<u8>, from: int)
    requires
        0 <= from <= s.len(),
        forall|i: int| from <= i < s.len() ==> #[trigger] s[i] != 10 && s[i] != 13,
    ensures
        line_end(s, from) == s.len(),
    decreases s.len() - from,
{
    if from < s.len() {
        lemma_no_end(s, from + 1);
    }
}

/// Law: a line that has not ended waits in the buffer; a flush takes it, without the
/// white space before it, and leaves the buffer empty.
pub proof fn law_unfinished_lines_wait(d: DetectorView, before: Seq<u8>, s: Seq<u8>, now: int)
    requires
        forall|i: int|
            0 <= i < before.len() ==> (#[trigger] before[i] == 32 || before[i] == 9 || before[i]
                == 12),
        s.len() > 0 ==> s[0] > 32 && s.last() > 32,
        forall|i: int| 0 <= i < s.len() ==> #[trigger] s[i] != 10 && s[i] != 13,
        d.line_buf == before + s,
    ensures
        d.drained(now) == (d, Seq::<EventView>::empty()),
        d.flushed(now).line_buf.len() == 0,
        s.len() == 0 ==> d.flush_events(now).len() == 0,
        s.len() > 0 ==> d.flush_events(now) == (DetectorView {
            line_buf: Seq::empty(),
            ..d
        }).events_at(s, now),
{
    let b = d.line_buf;
    assert forall|i: int| 0 <= i < b.len() implies #[trigger] b[i] != 10 && b[i] != 13 by {
        if i < before.len() {
            assert(b[i] == before[i]);
        } else {
            assert(b[i] == s[i - before.len()]);
        }
    }
    lemma_no_end(b, 0);
    crate::text::law_trim_bytes(before, s, Seq::empty());
    if s.len() == 0 {
        assert(b =~= before);
        lemma_blank_start(before);
    }
}

proof fn lemma_blank_start(s: Seq<u8>)
    requires
        forall|i: int|
            0 <= i < s.len() ==> (#[trigger] s[i] == 32 || s[i] == 9 || s[i] == 12),
    ensures
        trim_bytes_start(s).len() == 0,
    decreases s.len(),
{
    if s.len() > 0 {
        let t = s.subrange(1, s.len() as int);
        assert forall|i: int| 0 <= i < t.len() implies (#[trigger] t[i] == 32 || t[i] == 9 || t[i]
            == 12) by {
            assert(t[i] == s[i + 1]);
        }
        lemma_blank_start(t);
    }
}

/// Law: the buffer takes in all data while it is at most 64 KiB long, and keeps the
/// last 32 KiB of it where it grew longer.
pub proof fn law_buffer_keeps_the_end(d: DetectorView, data: Seq<u8>)
    ensures
        ({
            let all = d.line_buf + data;
            let b = d.buffered(data);
            &&& all.len() <= 65536 ==> b.line_buf == all
            &&& all.len() > 65536 ==> b.line_buf == all.subrange(
                all.len() - 32768,
                all.len() as int,
            )
            &&& b.flags == d.flags && b.last_crash == d.last_crash && b.watchers == d.watchers
                && b.outbox == d.outbox && b.learner == d.learner && b.login_pattern
                == d.login_pattern
        }),
{
}

/// Law: what a learner recognises is announced by its name, with a boot's start before
/// the first stage of a cycle; "spl" within a cycle is not announced.
pub proof fn law_learned_stages_are_announced(d: DetectorView, line: Seq<u8>, stage: Seq<char>)
    requires
        d.learned_stage(line) == Some(stage),
    ensures
        ({
            let es = d.line_events(line);
            let booted = flags_after_stages(d.flags, d.matches(line), 18).boot_detected;
            &&& stage != "spl"@ && stage != "uboot"@ ==> es == seq![EventView::Stage(stage)]
            &&& (stage == "spl"@ || stage == "uboot"@) && !booted ==> es == seq![
                EventView::BootStart,
                EventView::Stage(stage),
            ] && d.line_flags(line).boot_detected && !d.line_flags(line).login_sent
                && !d.line_flags(line).password_sent
            &&& stage == "spl"@ && booted ==> es.len() == 0
            &&& stage == "uboot"@ && booted ==> es == seq![EventView::Stage(stage)]
        }),
{
    reveal_strlit("spl");
    reveal_strlit("uboot");
    assert("spl"@.len() != "uboot"@.len());
}

/// Law: a watcher of its own fires on every line that its pattern matches and stays;
/// of a group the first that matches fires, and the group is gone.
#[verifier::rlimit(50)]
pub proof fn law_watchers_fire(ws: Seq<WatcherView>, line: Seq<char>, k: int)
    requires
        0 <= k < ws.len(),
    ensures
        ({
            let w = ws[k];
            let hit = pattern_hits(w.pattern, vstd::utf8::encode_utf8(line));
            let first = forall|j: int|
                0 <= j < k ==> !((#[trigger] ws[j]).group && ws[j].sender == w.sender
                    && pattern_hits(ws[j].pattern, vstd::utf8::encode_utf8(line)));
            let d = DeliveryView { sender: w.sender, pattern_index: w.pattern_index, line: line };
            &&& hit && (!w.group || first) ==> fired(ws, line, ws.len() as int).contains(d)
            &&& !w.group ==> staying(ws, line).contains(w)
        }),
{
    let w = ws[k];
    if fires(w, line) && !(w.group && group_fired(ws, line, w.sender, k)) {
        lemma_fired_has(ws, line, k, ws.len() as int);
    }
    let keep = |w: WatcherView| !(w.group && group_fired(ws, line, w.sender, ws.len() as int));
    if !w.group {
        broadcast use vstd::seq_lib::group_filter_ensures;

        assert(keep(w));
        assert(ws.contains(w));
        assert(ws.filter(keep).contains(w));
    }
}

proof fn lemma_fired_has(ws: Seq<WatcherView>, line: Seq<char>, k: int, n: int)
    requires
        0 <= k < n <= ws.len(),
        fires(ws[k], line),
        !(ws[k].group && group_fired(ws, line, ws[k].sender, k)),
    ensures
        fired(ws, line, n).contains(
            DeliveryView { sender: ws[k].sender, pattern_index: ws[k].pattern_index, line: line },
        ),
    decreases n,
{
    let d = DeliveryView {
        sender: ws[k].sender,
        pattern_index: ws[k].pattern_index,
        line: line,
    };
    let all = fired(ws, line, n);
    if k == n - 1 {
        assert(all[all.len() - 1] == d);
    } else {
        lemma_fired_has(ws, line, k, n - 1);
        let before = fired(ws, line, n - 1);
        let i = choose|i: int| 0 <= i < before.len() && before[i] == d;
        assert(all[i] == d);
    }
}

/// Law: what is delivered comes of a watcher whose pattern matches the line, and is
/// delivered with that line; of a group only the first that matches delivers.
pub proof fn law_deliveries_come_of_watchers(ws: Seq<WatcherView>, line: Seq<char>, n: int, i: int)
    requires
        0 <= n <= ws.len(),
        0 <= i < fired(ws, line, n).len(),
    ensures
        exists|k: int|
            0 <= k < n && (#[trigger] ws[k]).sender == fired(ws, line, n)[i].sender
                && ws[k].pattern_index == fired(ws, line, n)[i].pattern_index && pattern_hits(
                ws[k].pattern,
                vstd::utf8::encode_utf8(line),
            ) && (ws[k].group ==> forall|j: int|
                0 <= j < k ==> !((#[trigger] ws[j]).group && ws[j].sender == ws[k].sender
                    && pattern_hits(ws[j].pattern, vstd::utf8::encode_utf8(line)))),
        fired(ws, line, n)[i].line == line,
    decreases n,
{
    let before = fired(ws, line, n - 1);
    if i < before.len() {
        assert(fired(ws, line, n)[i] == before[i]);
        law_deliveries_come_of_watchers(ws, line, n - 1, i);
    } else {
        let w = ws[n - 1];
        assert(fires(w, line));
        assert forall|j: int| w.group && 0 <= j < n - 1 implies !((#[trigger] ws[j]).group
            && ws[j].sender == w.sender && pattern_hits(
            ws[j].pattern,
            vstd::utf8::encode_utf8(line),
        )) by {
            assert(fires(ws[j], line) == pattern_hits(
                ws[j].pattern,
                vstd::utf8::encode_utf8(line),
            ));
        }
    }
}

/// Law: a line's deliveries go behind those that wait; a new cycle forgets what was
/// seen and sent, and nothing else.
pub proof fn law_deliveries_wait(d: DetectorView, line: Seq<u8>, now: int)
    ensures
        d.after_line(line, now).outbox == d.outbox + fired(
            d.watchers,
            utf8_lossy(line),
            d.watchers.len() as int,
        ),
        d.after_line(line, now).watchers == staying(d.watchers, utf8_lossy(line)),
        d.after_line(line, now).line_buf == d.line_buf,
        !d.reset_cycle().flags.boot_detected && !d.reset_cycle().flags.login_sent
            && !d.reset_cycle().flags.password_sent,
        d.reset_cycle().line_buf == d.line_buf && d.reset_cycle().watchers == d.watchers
            && d.reset_cycle().outbox == d.outbox && d.reset_cycle().last_crash == d.last_crash,
{
}

/// Law: a group of watchers holds one for each pattern that compiles, under the
/// pattern's place, in order.
pub proof fn law_groups_hold_the_valid_patterns(
    patterns: Seq<Seq<char>>,
    sender: u64,
    k: int,
    i: int,
)
    requires
        0 <= k <= patterns.len() <= usize::MAX,
    ensures
        group_watchers(patterns, sender, k).len() == valid_places(patterns, k).len(),
        0 <= i < k && bytes_pattern_valid(patterns[i]) ==> valid_places(patterns, k).contains(
            i as usize,
        ),
        0 <= i < valid_places(patterns, k).len() ==> {
            let p = valid_places(patterns, k)[i];
            &&& p < k && bytes_pattern_valid(patterns[p as int])
            &&& i > 0 ==> valid_places(patterns, k)[i - 1] < p
            &&& group_watchers(patterns, sender, k)[i] == (WatcherView {
                pattern: patterns[p as int],
                pattern_index: p,
                sender,
                group: true,
            })
        },
    decreases k,
{
    if k > 0 {
        law_groups_hold_the_valid_patterns(patterns, sender, k - 1, i);
        let before = valid_places(patterns, k - 1);
        let all = valid_places(patterns, k);
        if before.len() > 0 {
            law_groups_hold_the_valid_patterns(patterns, sender, k - 1, before.len() - 1);
        }
        if bytes_pattern_valid(patterns[k - 1]) {
            assert(all[all.len() - 1] == (k - 1) as usize);
        }
        if 0 <= i < k - 1 && bytes_pattern_valid(patterns[i]) {
            let j = choose|j: int| 0 <= j < before.len() && before[j] == i as usize;
            assert(all[j] == i as usize);
        }
    }
}

/// Law: a stage sends its event once in a cycle; the first loader starts one.
pub proof fn law_handling_a_stage(f: CycleFlags, i: usize, r: (CycleFlags, Option<BootEvent>))
    requires
        call_ensures(handle_stage, (f, i), r),
        i < 18,
    ensures
        i == 0 ==> (r.1 is Some <==> !f.boot_detected) && r.0.boot_detected,
        i == 0 && r.1 is Some ==> r.1->0@ is BootStart && !r.0.login_sent && !r.0.password_sent,
        i == 6 ==> r.1 is Some && r.1->0@ is Autoboot && r.0 == f,
        i == 9 ==> r.1 is Some && (r.1->0@ is LoginPrompt <==> !f.login_sent) && r.0.login_sent,
        i == 10 ==> r.1 is Some && (r.1->0@ is PasswordPrompt <==> !f.password_sent)
            && r.0.password_sent,
        i != 0 && i != 6 && i != 9 && i != 10 ==> r.0 == f && r.1 is Some && r.1->0@ is Stage,
{
}

/// Law: the watchers of a pattern, or of a group, are removed, and all others stay in
/// order.
pub proof fn law_removing_watchers(
    d: &mut BootStageDetector,
    sender: u64,
    u: (),
    w: WatcherView,
)
    requires
        call_ensures(BootStageDetector::remove_watcher_group, (d, sender), u),
    ensures
        final(d)@.watchers.contains(w) <==> old(d)@.watchers.contains(w) && w.sender != sender,
        final(d)@.outbox == old(d)@.outbox,
{
    broadcast use vstd::seq_lib::group_filter_ensures;

    let keep = |w: WatcherView| w.sender != sender;
    let ws = old(d)@.watchers;
    let f = ws.filter(keep);
    if f.contains(w) {
        let i = choose|i: int| 0 <= i < f.len() && f[i] == w;
        assert(keep(f[i]));
        ws.lemma_filter_contains_rev(keep, w);
    }
    if ws.contains(w) && w.sender != sender {
        assert(keep(w));
    }
}

/// Law: a line that announces a known stage is not shown to the learner; every other line
/// is, and moves its place on.
pub proof fn law_learner_sees_unknown_lines(d: DetectorView, line: Seq<u8>, now: int)
    ensures
        ({
            let known = stage_events(d.flags, d.matches(line), 18).len() > 0;
            let after = d.after_line(line, now).learner;
            &&& d.learner is None ==> after is None
            &&& known ==> after == d.learner
            &&& !known && d.learner is Some ==> after == Some(
                d.learner->0.classify(utf8_lossy(line)),
            )
            &&& !known && d.learner is Some ==> d.learned_stage(line) == d.learner->0.stage_of(
                utf8_lossy(line),
            )
            &&& known || d.learner is None ==> d.learned_stage(line) is None
        }),
{
    let noted = DetectorView {
        last_crash: if d.crash_due(line, now) {
            Some(now)
        } else {
            d.last_crash
        },
        ..d
    };
    assert(noted.matches(line) =~= d.matches(line));
}

} // verus!
