//! Target state: hang detection with hysteresis, heartbeat probes, and what is
//! written to the state files on each change.
//!
//! Three tiers of visibility: every state is internal; `Stopped` and
//! `Connecting` are hidden from clients; the state files hold the client-visible
//! states, are deleted on `Stopped` and left alone on `Connecting`.

use crate::bridge::{clock_nanos, clock_start, md5_of};
use crate::text::{cat, cat3, eq_text, hex_text, join_path, take_text};
use vstd::prelude::*;
use vstd::string::*;

verus! {

/// Target board state.
#[derive(Debug, Clone, Copy, PartialEq, Eq, Structural)]
pub enum TargetState {
    Stopped,
    Connecting,
    Active,
    Booting,
    Booted,
    UBoot,
    Crashed,
    DutOff,
    Disconnected,
    /// The serial line is taken over by an interactive session.
    Dutabo,
}

impl TargetState {
    /// The name of the state.
    pub open spec fn name(self) -> Seq<char> {
        match self {
            TargetState::Stopped => "stopped"@,
            TargetState::Connecting => "connecting"@,
            TargetState::Active => "active"@,
            TargetState::Booting => "booting"@,
            TargetState::Booted => "booted"@,
            TargetState::UBoot => "uboot"@,
            TargetState::Crashed => "crashed"@,
            TargetState::DutOff => "DUT-off"@,
            TargetState::Disconnected => "disconnected"@,
            TargetState::Dutabo => "dutabo"@,
        }
    }

    /// The states that clients see.
    pub open spec fn external(self) -> bool {
        self != TargetState::Stopped && self != TargetState::Connecting
    }

    /// The states in which silence counts as a hang.
    pub open spec fn hang_candidate(self) -> bool {
        self == TargetState::Booting || self == TargetState::Active || self == TargetState::Dutabo
    }

    /// The states that raise an alert.
    pub open spec fn alerting(self) -> bool {
        self == TargetState::Crashed || self == TargetState::DutOff || self
            == TargetState::Disconnected
    }

    /// The name of the state.
    pub fn as_str(&self) -> (r: &'static str)
        ensures
            r@ == self.name(),
    {
        match self {
            TargetState::Stopped => "stopped",
            TargetState::Connecting => "connecting",
            TargetState::Active => "active",
            TargetState::Booting => "booting",
            TargetState::Booted => "booted",
            TargetState::UBoot => "uboot",
            TargetState::Crashed => "crashed",
            TargetState::DutOff => "DUT-off",
            TargetState::Disconnected => "disconnected",
            TargetState::Dutabo => "dutabo",
        }
    }

    /// The state with the given name; an unknown name means `Disconnected`.
    pub fn from_str(s: &str) -> (r: Self)
        ensures
            r.name() == s@ || (r == TargetState::Disconnected && forall|t: TargetState|
                t.name() != s@),
    {
        proof {
            lemma_names_distinct();
        }
        if eq_text(s, "stopped") {
            TargetState::Stopped
        } else if eq_text(s, "connecting") {
            TargetState::Connecting
        } else if eq_text(s, "active") {
            TargetState::Active
        } else if eq_text(s, "booting") {
            TargetState::Booting
        } else if eq_text(s, "booted") {
            TargetState::Booted
        } else if eq_text(s, "uboot") {
            TargetState::UBoot
        } else if eq_text(s, "crashed") {
            TargetState::Crashed
        } else if eq_text(s, "DUT-off") {
            TargetState::DutOff
        } else if eq_text(s, "dutabo") {
            TargetState::Dutabo
        } else {
            TargetState::Disconnected
        }
    }

    /// Whether clients see the state.
    pub fn is_external(&self) -> (r: bool)
        ensures
            r == self.external(),
    {
        !matches!(*self, TargetState::Stopped | TargetState::Connecting)
    }

    /// Whether silence in this state counts as a hang.
    pub fn is_hang_candidate(&self) -> (r: bool)
        ensures
            r == self.hang_candidate(),
    {
        matches!(*self, TargetState::Booting | TargetState::Active | TargetState::Dutabo)
    }
}

/// Law: no two states share a name, so reading a name back yields its state.
pub proof fn lemma_names_distinct()
    ensures
        forall|a: TargetState, b: TargetState| #[trigger] a.name() == #[trigger] b.name() ==> a == b,
{
    reveal_strlit("stopped");
    reveal_strlit("connecting");
    reveal_strlit("active");
    reveal_strlit("booting");
    reveal_strlit("booted");
    reveal_strlit("uboot");
    reveal_strlit("crashed");
    reveal_strlit("DUT-off");
    reveal_strlit("disconnected");
    reveal_strlit("dutabo");
    assert forall|a: TargetState, b: TargetState| #[trigger] a.name() == #[trigger] b.name() implies a
        == b by {
        let x = a.name();
        let y = b.name();
        assert(x.len() == y.len());
        assert(x[0] == y[0] && x[1] == y[1] && x[4] == y[4] && x[5 - 1] == y[5 - 1]);
        assert(x.len() > 5 ==> x[5] == y[5]);
    }
}

/// What is done to the state files.
pub enum FileOp {
    /// Replace the file's content in one step.
    Write { path: String, content: String },
    /// Remove the file.
    Delete { path: String },
    /// Raise the alert of a state.
    Notify { state: TargetState },
}

/// The model of a `FileOp`.
pub enum FileOpView {
    Write { path: Seq<char>, content: Seq<char> },
    Delete { path: Seq<char> },
    Notify { state: TargetState },
}

impl View for FileOp {
    type V = FileOpView;

    open spec fn view(&self) -> FileOpView {
        match *self {
            FileOp::Write { path, content } => FileOpView::Write {
                path: path@,
                content: content@,
            },
            FileOp::Delete { path } => FileOpView::Delete { path: path@ },
            FileOp::Notify { state } => FileOpView::Notify { state },
        }
    }
}

/// The models of a list of file operations.
pub open spec fn file_ops(ops: Seq<FileOp>) -> Seq<FileOpView> {
    ops.map_values(|o: FileOp| o@)
}

/// The alert of a critical state.
pub struct Notification {
    pub state: &'static str,
    pub severity: &'static str,
    pub message: &'static str,
    pub suggested_action: &'static str,
}

/// The statusline text of a state under a label.
pub open spec fn statusline(state: TargetState, label: Seq<char>) -> Seq<char> {
    match state {
        TargetState::Active => "\x1b[32m● "@ + label + ":active\x1b[0m"@,
        TargetState::Booting => "\x1b[33m◐ "@ + label + ":booting\x1b[0m"@,
        TargetState::Booted => "\x1b[32m● "@ + label + ":booted\x1b[0m"@,
        TargetState::UBoot => "\x1b[36m● "@ + label + ":uboot\x1b[0m"@,
        TargetState::Crashed => "\x1b[31m✗ "@ + label + ":crashed\x1b[0m"@,
        TargetState::Disconnected => "\x1b[31m✗ "@ + label + ":disconnected\x1b[0m"@,
        TargetState::DutOff => "\x1b[31m✗ "@ + label + ":DUT-off\x1b[0m"@,
        TargetState::Dutabo => "\x1b[35m● "@ + label + ":dutabo\x1b[0m"@,
        TargetState::Stopped | TargetState::Connecting => Seq::empty(),
    }
}

/// The eight characters that identify a project directory.
pub open spec fn project_digest(canonical: Seq<char>) -> Seq<char> {
    crate::text::hex_bytes(crate::bridge::md5_digest(vstd::utf8::encode_utf8(canonical))).subrange(
        0,
        8,
    )
}

/// Where the statusline of a project is mirrored to: the prefix that all projects
/// share, and what identifies the project.
pub open spec fn mirror_path(prefix: Seq<char>, canonical: Seq<char>) -> Seq<char> {
    prefix + project_digest(canonical)
}

/// A second in nanoseconds.
pub const SECOND: u64 = 1_000_000_000;

/// The time from `since` to `now`, none where `now` is earlier.
pub open spec fn elapsed(now: int, since: int) -> int {
    if now >= since {
        now - since
    } else {
        0
    }
}

/// One more, up to the greatest `u32`.
pub open spec fn bump(n: int) -> int {
    if n < u32::MAX {
        n + 1
    } else {
        n
    }
}

/// The model of a `StateManager`. Times are nanoseconds since its creation.
pub struct StateView {
    pub current: TargetState,
    pub state_file: Seq<char>,
    pub cache_file: Seq<char>,
    pub shm_cache_file: Seq<char>,
    pub notify_dir: Seq<char>,
    pub hang_timeout_secs: int,
    pub hysteresis: int,
    pub hang_count: int,
    pub last_data_time: int,
    pub heartbeat_pending: bool,
    pub last_probe_time: int,
    pub heartbeat_missed: int,
    pub dut_alias: Seq<char>,
    pub project_dir: Seq<char>,
    pub command_count: int,
    pub error_count: int,
}

impl StateView {
    /// The file of the named kind in the alias's own directory.
    pub open spec fn alias_file(self, name: Seq<char>) -> Seq<char> {
        crate::text::joined_path(
            crate::text::joined_path(
                crate::text::joined_path(self.project_dir, ".dut-serial"@),
                self.dut_alias,
            ),
            name,
        )
    }

    /// The label of the statusline: the alias, or "serial" where it says nothing.
    pub open spec fn label(self) -> Seq<char> {
        if self.dut_alias.len() == 0 || self.dut_alias == "default"@ {
            "serial"@
        } else {
            self.dut_alias
        }
    }

    /// The state after a change to `new`.
    pub open spec fn transition(self, new: TargetState) -> StateView {
        StateView { current: new, ..self }
    }

    /// What a change to `new` does to the files.
    pub open spec fn transition_ops(self, new: TargetState) -> Seq<FileOpView> {
        if new == self.current || new == TargetState::Connecting {
            Seq::empty()
        } else if new == TargetState::Stopped {
            seq![
                FileOpView::Delete { path: self.state_file },
                FileOpView::Delete { path: self.cache_file },
                FileOpView::Delete { path: self.shm_cache_file },
            ]
        } else {
            let text = statusline(new, self.label());
            let state = seq![FileOpView::Write { path: self.state_file, content: new.name() }];
            let alias_state = if self.dut_alias.len() > 0 {
                seq![
                    FileOpView::Write {
                        path: self.alias_file("target-state"@),
                        content: new.name(),
                    },
                ]
            } else {
                Seq::empty()
            };
            let caches = seq![
                FileOpView::Write { path: self.cache_file, content: text },
                FileOpView::Write { path: self.shm_cache_file, content: text },
            ];
            let alias_cache = if self.dut_alias.len() > 0 && self.dut_alias != "default"@ {
                seq![
                    FileOpView::Write {
                        path: self.alias_file("statusline-cache"@),
                        content: text,
                    },
                ]
            } else {
                Seq::empty()
            };
            let alert = if new.alerting() {
                seq![FileOpView::Notify { state: new }]
            } else {
                Seq::empty()
            };
            state + alias_state + caches + alias_cache + alert
        }
    }

    /// Serial data arrived at `now`.
    pub open spec fn on_activity(self, now: int) -> StateView {
        StateView {
            last_data_time: now,
            last_probe_time: now,
            hang_count: 0,
            heartbeat_pending: false,
            heartbeat_missed: 0,
            ..self
        }
    }

    /// A heartbeat probe was sent at `now`.
    pub open spec fn mark_probe_sent(self, now: int) -> StateView {
        StateView { last_probe_time: now, heartbeat_pending: false, ..self }
    }

    /// No data for longer than the hang timeout.
    pub open spec fn silent(self, now: int) -> bool {
        elapsed(now, self.last_data_time) > self.hang_timeout_secs * SECOND
    }

    /// A probe was sent since data last arrived.
    pub open spec fn probed(self) -> bool {
        self.last_probe_time > self.last_data_time
    }

    /// The check at `now` counts a heartbeat miss: an active target was silent
    /// and left a probe unanswered for more than five seconds.
    pub open spec fn misses(self, now: int) -> bool {
        self.current == TargetState::Active && self.probed() && elapsed(now, self.last_probe_time)
            > 5 * SECOND && self.silent(now)
    }

    /// The check at `now` declares the target off.
    pub open spec fn gives_up(self, now: int) -> bool {
        if self.current == TargetState::Active {
            self.misses(now) && bump(self.heartbeat_missed) >= self.hysteresis
        } else {
            self.current.hang_candidate() && self.silent(now) && bump(self.hang_count)
                >= self.hysteresis
        }
    }

    /// The state after the hang check at `now`.
    pub open spec fn check_hang(self, now: int) -> StateView {
        if !self.current.hang_candidate() {
            StateView { hang_count: 0, heartbeat_pending: false, ..self }
        } else if self.current == TargetState::Active {
            if self.misses(now) {
                StateView {
                    heartbeat_missed: bump(self.heartbeat_missed),
                    heartbeat_pending: if self.gives_up(now) {
                        self.heartbeat_pending
                    } else {
                        true
                    },
                    current: if self.gives_up(now) {
                        TargetState::DutOff
                    } else {
                        self.current
                    },
                    ..self
                }
            } else if self.silent(now) && elapsed(now, self.last_probe_time)
                > self.hang_timeout_secs * SECOND {
                StateView { heartbeat_pending: true, ..self }
            } else {
                self
            }
        } else if self.silent(now) {
            StateView {
                hang_count: bump(self.hang_count),
                current: if self.gives_up(now) {
                    TargetState::DutOff
                } else {
                    self.current
                },
                ..self
            }
        } else {
            StateView { hang_count: 0, ..self }
        }
    }

    /// What the hang check at `now` does to the files.
    pub open spec fn check_hang_ops(self, now: int) -> Seq<FileOpView> {
        if self.gives_up(now) {
            self.transition_ops(TargetState::DutOff)
        } else {
            Seq::empty()
        }
    }
}

/// Manages target state with hysteresis, heartbeat detection and the contents of
/// the state files.
pub struct StateManager {
    current: TargetState,
    state_file: String,
    cache_file: String,
    shm_cache_file: String,
    notify_dir: String,
    hang_timeout_secs: u64,
    hysteresis: u32,
    hang_count: u32,
    last_data_time: u64,
    /// Set when a heartbeat probe should be sent.
    pub heartbeat_pending: bool,
    last_probe_time: u64,
    heartbeat_missed: u32,
    dut_alias: String,
    project_dir: String,
    command_count: u64,
    error_count: u64,
    clock: std::time::Instant,
}

impl View for StateManager {
    type V = StateView;

    closed spec fn view(&self) -> StateView {
        StateView {
            current: self.current,
            state_file: self.state_file@,
            cache_file: self.cache_file@,
            shm_cache_file: self.shm_cache_file@,
            notify_dir: self.notify_dir@,
            hang_timeout_secs: self.hang_timeout_secs as int,
            hysteresis: self.hysteresis as int,
            hang_count: self.hang_count as int,
            last_data_time: self.last_data_time as int,
            heartbeat_pending: self.heartbeat_pending,
            last_probe_time: self.last_probe_time as int,
            heartbeat_missed: self.heartbeat_missed as int,
            dut_alias: self.dut_alias@,
            project_dir: self.project_dir@,
            command_count: self.command_count as int,
            error_count: self.error_count as int,
        }
    }
}

impl StateManager {
    /// A stopped manager for `project_dir`. `canonical_dir` is the directory's
    /// canonical path and `mirror_prefix` what the path of the shared cache begins with.
    pub fn new(
        project_dir: &str,
        hang_timeout: u64,
        hysteresis: u32,
        dut_dir: &str,
        dut_alias: &str,
        mirror_prefix: &str,
        canonical_dir: &str,
    ) -> (r: Self)
        ensures
            r@ == (StateView {
                current: TargetState::Stopped,
                state_file: crate::text::joined_path(
                    crate::text::joined_path(project_dir@, dut_dir@),
                    "target-state"@,
                ),
                cache_file: crate::text::joined_path(
                    crate::text::joined_path(project_dir@, dut_dir@),
                    "statusline-cache"@,
                ),
                shm_cache_file: mirror_path(mirror_prefix@, canonical_dir@),
                notify_dir: crate::text::joined_path(
                    crate::text::joined_path(project_dir@, dut_dir@),
                    "notifications"@,
                ),
                hang_timeout_secs: hang_timeout as int,
                hysteresis: hysteresis as int,
                hang_count: 0,
                last_data_time: 0,
                heartbeat_pending: false,
                last_probe_time: 0,
                heartbeat_missed: 0,
                dut_alias: dut_alias@,
                project_dir: project_dir@,
                command_count: 0,
                error_count: 0,
            }),
    {
        let dut_path = join_path(project_dir, dut_dir);
        let digest = Self::project_hash(canonical_dir);
        StateManager {
            current: TargetState::Stopped,
            state_file: join_path(&dut_path, "target-state"),
            cache_file: join_path(&dut_path, "statusline-cache"),
            shm_cache_file: cat(mirror_prefix, &digest),
            notify_dir: join_path(&dut_path, "notifications"),
            hang_timeout_secs: hang_timeout,
            hysteresis,
            hang_count: 0,
            last_data_time: 0,
            heartbeat_pending: false,
            last_probe_time: 0,
            heartbeat_missed: 0,
            dut_alias: dut_alias.to_owned(),
            project_dir: project_dir.to_owned(),
            command_count: 0,
            error_count: 0,
            clock: clock_start(),
        }
    }

    /// The eight characters that identify a project directory.
    pub fn project_hash(canonical_dir: &str) -> (r: String)
        ensures
            r@ == project_digest(canonical_dir@),
    {
        let digest = md5_of(canonical_dir.as_bytes());
        let hex = hex_text(&digest);
        proof {
            crate::text::lemma_hex_bytes_len(digest@);
        }
        take_text(&hex, 8)
    }

    /// Nanoseconds since the manager was created.
    pub fn now(&self) -> u64 {
        clock_nanos(&self.clock)
    }

    /// The current state.
    pub fn current(&self) -> (r: TargetState)
        ensures
            r == self@.current,
    {
        self.current
    }

    /// The state as clients see it: none while stopped or connecting.
    pub fn external_state(&self) -> (r: Option<TargetState>)
        ensures
            r == (if self@.current.external() {
                Some(self@.current)
            } else {
                None
            }),
    {
        if self.current.is_external() {
            Some(self.current)
        } else {
            None
        }
    }

    /// Counts one command executed.
    pub fn inc_command(&mut self)
        requires
            old(self)@.command_count < u64::MAX,
        ensures
            final(self)@ == (StateView {
                command_count: old(self)@.command_count + 1,
                ..old(self)@
            }),
    {
        self.command_count = self.command_count + 1;
    }

    /// Counts one command error.
    pub fn inc_error(&mut self)
        requires
            old(self)@.error_count < u64::MAX,
        ensures
            final(self)@ == (StateView { error_count: old(self)@.error_count + 1, ..old(self)@ }),
    {
        self.error_count = self.error_count + 1;
    }

    /// Whether a heartbeat probe should be sent.
    pub fn heartbeat_due(&self) -> (r: bool)
        ensures
            r == self@.heartbeat_pending,
    {
        self.heartbeat_pending
    }

    /// Commands executed.
    pub fn command_count(&self) -> (r: u64)
        ensures
            r == self@.command_count,
    {
        self.command_count
    }

    /// Command errors.
    pub fn error_count(&self) -> (r: u64)
        ensures
            r == self@.error_count,
    {
        self.error_count
    }

    /// Changes the state and says what to do to the files. Nothing happens where
    /// the state is already `new`.
    pub fn transition(&mut self, new: TargetState) -> (ops: Vec<FileOp>)
        ensures
            final(self)@ == old(self)@.transition(new),
            file_ops(ops@) == old(self)@.transition_ops(new),
    {
        let mut ops: Vec<FileOp> = Vec::new();
        if new == self.current {
            assert(file_ops(ops@) =~= Seq::<FileOpView>::empty());
            return ops;
        }
        self.current = new;
        match new {
            TargetState::Stopped => {
                ops.push(FileOp::Delete { path: self.state_file.clone() });
                ops.push(FileOp::Delete { path: self.cache_file.clone() });
                ops.push(FileOp::Delete { path: self.shm_cache_file.clone() });
            },
            TargetState::Connecting => {},
            _ => {
                let name = new.as_str();
                ops.push(
                    FileOp::Write { path: self.state_file.clone(), content: name.to_owned() },
                );
                let has_alias = !self.dut_alias.as_str().is_empty();
                if has_alias {
                    let path = self.alias_path("target-state");
                    ops.push(FileOp::Write { path, content: name.to_owned() });
                }
                let text = self.format_statusline(new);
                ops.push(FileOp::Write { path: self.cache_file.clone(), content: text.clone() });
                ops.push(
                    FileOp::Write { path: self.shm_cache_file.clone(), content: text.clone() },
                );
                if has_alias && !eq_text(&self.dut_alias, "default") {
                    let path = self.alias_path("statusline-cache");
                    ops.push(FileOp::Write { path, content: text });
                }
                if matches!(
                    new,
                    TargetState::Crashed | TargetState::DutOff | TargetState::Disconnected
                ) {
                    ops.push(FileOp::Notify { state: new });
                }
            },
        }
        assert(file_ops(ops@) =~= old(self)@.transition_ops(new));
        ops
    }

    /// The path of a file in the alias's own directory.
    fn alias_path(&self, name: &str) -> (r: String)
        ensures
            r@ == self@.alias_file(name@),
    {
        let root = join_path(&self.project_dir, ".dut-serial");
        let dir = join_path(&root, &self.dut_alias);
        join_path(&dir, name)
    }

    /// The statusline text of a state.
    pub fn format_statusline(&self, state: TargetState) -> (r: String)
        ensures
            r@ == statusline(state, self@.label()),
    {
        if self.dut_alias.as_str().is_empty() || eq_text(&self.dut_alias, "default") {
            Self::format_statusline_labeled(state, "serial")
        } else {
            Self::format_statusline_labeled(state, &self.dut_alias)
        }
    }

    /// The statusline text of a state under an explicit label.
    pub fn format_statusline_labeled(state: TargetState, label: &str) -> (r: String)
        ensures
            r@ == statusline(state, label@),
    {
        match state {
            TargetState::Active => cat3("\x1b[32m● ", label, ":active\x1b[0m"),
            TargetState::Booting => cat3("\x1b[33m◐ ", label, ":booting\x1b[0m"),
            TargetState::Booted => cat3("\x1b[32m● ", label, ":booted\x1b[0m"),
            TargetState::UBoot => cat3("\x1b[36m● ", label, ":uboot\x1b[0m"),
            TargetState::Crashed => cat3("\x1b[31m✗ ", label, ":crashed\x1b[0m"),
            TargetState::Disconnected => cat3("\x1b[31m✗ ", label, ":disconnected\x1b[0m"),
            TargetState::DutOff => cat3("\x1b[31m✗ ", label, ":DUT-off\x1b[0m"),
            TargetState::Dutabo => cat3("\x1b[35m● ", label, ":dutabo\x1b[0m"),
            TargetState::Stopped | TargetState::Connecting => String::new(),
        }
    }

    /// Serial data arrived: hang and heartbeat counters start over.
    pub fn on_activity(&mut self)
        ensures
            exists|now: u64| final(self)@ == #[trigger] old(self)@.on_activity(now as int),
    {
        let now: u64 = self.now();
        self.on_activity_at(now);
    }

    /// Serial data arrived at `now`.
    pub fn on_activity_at(&mut self, now: u64)
        ensures
            final(self)@ == old(self)@.on_activity(now as int),
    {
        self.last_data_time = now;
        self.last_probe_time = now;
        self.hang_count = 0;
        self.heartbeat_pending = false;
        self.heartbeat_missed = 0;
    }

    /// A heartbeat probe was sent.
    pub fn mark_probe_sent(&mut self)
        ensures
            exists|now: u64| final(self)@ == #[trigger] old(self)@.mark_probe_sent(now as int),
    {
        let now: u64 = self.now();
        self.mark_probe_sent_at(now);
    }

    /// A heartbeat probe was sent at `now`.
    pub fn mark_probe_sent_at(&mut self, now: u64)
        ensures
            final(self)@ == old(self)@.mark_probe_sent(now as int),
    {
        self.last_probe_time = now;
        self.heartbeat_pending = false;
    }

    /// Checks for a hang or a heartbeat timeout.
    pub fn check_hang(&mut self) -> (ops: Vec<FileOp>)
        ensures
            exists|now: u64|
                final(self)@ == #[trigger] old(self)@.check_hang(now as int) && file_ops(ops@)
                    == old(self)@.check_hang_ops(now as int),
    {
        let now: u64 = self.now();
        self.check_hang_at(now)
    }

    /// Checks for a hang or a heartbeat timeout at `now`.
    pub fn check_hang_at(&mut self, now: u64) -> (ops: Vec<FileOp>)
        ensures
            final(self)@ == old(self)@.check_hang(now as int),
            file_ops(ops@) == old(self)@.check_hang_ops(now as int),
    {
        let none: Vec<FileOp> = Vec::new();
        assert(file_ops(none@) =~= Seq::<FileOpView>::empty());
        if !self.current.is_hang_candidate() {
            self.hang_count = 0;
            self.heartbeat_pending = false;
            return none;
        }
        let data_elapsed: u64 = now.saturating_sub(self.last_data_time);
        let limit: u128 = self.hang_timeout_secs as u128 * SECOND as u128;
        let silent: bool = data_elapsed as u128 > limit;
        if self.current == TargetState::Active {
            let probe_elapsed: u64 = now.saturating_sub(self.last_probe_time);
            let probed: bool = self.last_probe_time > self.last_data_time;
            if probed && probe_elapsed > 5 * SECOND && silent {
                self.heartbeat_missed = self.heartbeat_missed.saturating_add(1);
                if self.heartbeat_missed >= self.hysteresis {
                    return self.transition(TargetState::DutOff);
                }
                self.heartbeat_pending = true;
            } else if silent && probe_elapsed as u128 > limit {
                self.heartbeat_pending = true;
            }
        } else if silent {
            self.hang_count = self.hang_count.saturating_add(1);
            if self.hang_count >= self.hysteresis {
                return self.transition(TargetState::DutOff);
            }
        } else {
            self.hang_count = 0;
        }
        none
    }

    /// Nanoseconds since data last arrived.
    pub fn last_data_elapsed(&self) -> (r: u64)
        ensures
            exists|now: u64| r == #[trigger] elapsed(now as int, self@.last_data_time),
    {
        let now: u64 = self.now();
        self.last_data_elapsed_at(now)
    }

    /// Nanoseconds from the last data to `now`.
    pub fn last_data_elapsed_at(&self, now: u64) -> (r: u64)
        ensures
            r == elapsed(now as int, self@.last_data_time),
    {
        now.saturating_sub(self.last_data_time)
    }

    /// The file that the alert of a state goes to, in the notification directory.
    pub fn notification_path(&self, timestamp: &str, state: TargetState) -> (r: String)
        ensures
            r@ == crate::text::joined_path(
                self@.notify_dir,
                timestamp@ + "-"@ + state.name() + ".json"@,
            ),
    {
        let name = cat(&cat3(timestamp, "-", state.as_str()), ".json");
        join_path(&self.notify_dir, &name)
    }

    /// The alert of a critical state, none for the others.
    pub fn notification(state: TargetState) -> (r: Option<Notification>)
        ensures
            r is Some <==> state.alerting(),
            r matches Some(n) ==> {
                &&& n.state@ == state.name()
                &&& n.severity@ == (if state == TargetState::Crashed {
                    "critical"@
                } else {
                    "warning"@
                })
                &&& n.message@ == (match state {
                    TargetState::Crashed =>
                        "Target has crashed (Kernel panic/BUG/Oops detected). Check serial logs for crash details."@,
                    TargetState::DutOff =>
                        "Target is not responding (no serial output). May be powered off or hung."@,
                    _ => "Serial connection lost. ser2net may be down or network issue."@,
                })
                &&& n.suggested_action@ == (match state {
                    TargetState::Crashed =>
                        "Use serial_get_logs with pattern='panic|BUG|Oops' to analyze the crash."@,
                    TargetState::DutOff =>
                        "Try serial_reset to reboot the target, or check power supply."@,
                    _ => "Check ser2net on dev host, or use serial_claim to reconnect."@,
                })
            },
    {
        match state {
            TargetState::Crashed => Some(
                Notification {
                    state: "crashed",
                    severity: "critical",
                    message: "Target has crashed (Kernel panic/BUG/Oops detected). Check serial logs for crash details.",
                    suggested_action: "Use serial_get_logs with pattern='panic|BUG|Oops' to analyze the crash.",
                },
            ),
            TargetState::DutOff => Some(
                Notification {
                    state: "DUT-off",
                    severity: "warning",
                    message: "Target is not responding (no serial output). May be powered off or hung.",
                    suggested_action: "Try serial_reset to reboot the target, or check power supply.",
                },
            ),
            TargetState::Disconnected => Some(
                Notification {
                    state: "disconnected",
                    severity: "warning",
                    message: "Serial connection lost. ser2net may be down or network issue.",
                    suggested_action: "Check ser2net on dev host, or use serial_claim to reconnect.",
                },
            ),
            _ => None,
        }
    }
}

// ── Laws ────────────────────────────────────────────────────────────────────

/// Law: only the hang check's verdict moves an active, booting or taken-over
/// target, and it moves it to `DutOff` alone; no other state is changed by it.
pub proof fn law_hang_check_only_declares_off(s: StateView, now: int)
    ensures
        s.check_hang(now).current == s.current || (s.check_hang(now).current == TargetState::DutOff
            && s.current.hang_candidate()),
        !s.current.hang_candidate() ==> s.check_hang(now).current == s.current,
{
}

/// Law: data that arrived within the hang timeout prevents the verdict.
pub proof fn law_activity_prevents_off(s: StateView, seen: int, now: int)
    requires
        seen <= now <= seen + s.hang_timeout_secs * SECOND,
        0 <= s.hang_timeout_secs,
        s.current != TargetState::DutOff,
    ensures
        s.on_activity(seen).check_hang(now).current == s.current,
{
}

/// What happens to a watched target, and when.
pub enum WatchStep {
    /// Data arrives.
    Data(int),
    /// A probe is sent.
    Probe(int),
    /// The hang check runs.
    Check(int),
}

impl StateView {
    /// The state after one step.
    pub open spec fn stepped(self, step: WatchStep) -> StateView {
        match step {
            WatchStep::Data(now) => self.on_activity(now),
            WatchStep::Probe(now) => self.mark_probe_sent(now),
            WatchStep::Check(now) => self.check_hang(now),
        }
    }

    /// The state after steps one after the other.
    pub open spec fn watched(self, steps: Seq<WatchStep>) -> StateView
        decreases steps.len(),
    {
        if steps.len() == 0 {
            self
        } else {
            self.watched(steps.drop_last()).stepped(steps.last())
        }
    }

    /// The checks that the verdict on the current state counts.
    pub open spec fn strikes(self) -> int {
        if self.current == TargetState::Active {
            self.heartbeat_missed
        } else {
            self.hang_count
        }
    }
}

/// The number of checks since data last arrived, `before` of them before the
/// steps.
pub open spec fn checks_since_data(before: int, steps: Seq<WatchStep>) -> int
    decreases steps.len(),
{
    if steps.len() == 0 {
        before
    } else {
        let n = checks_since_data(before, steps.drop_last());
        match steps.last() {
            WatchStep::Data(_) => 0,
            WatchStep::Probe(_) => n,
            WatchStep::Check(_) => n + 1,
        }
    }
}

/// Law: the first long silence of an active target asks for a probe and does
/// nothing else.
pub proof fn law_silence_asks_for_a_probe(s: StateView, now: int)
    requires
        s.current == TargetState::Active,
        !s.probed(),
        s.silent(now),
    ensures
        s.check_hang(now) == (StateView { heartbeat_pending: true, ..s }),
        s.check_hang_ops(now) == Seq::<FileOpView>::empty(),
{
}

/// Law: an active target is declared off only where a probe that was sent after
/// the last data stayed unanswered for more than five seconds. Without a probe it
/// stays active, whatever data arrives and however often it is checked.
pub proof fn law_off_needs_a_probe(s: StateView, steps: Seq<WatchStep>, now: int)
    requires
        s.current == TargetState::Active,
        !s.probed(),
        forall|i: int| 0 <= i < steps.len() ==> !(#[trigger] steps[i] is Probe),
    ensures
        s.watched(steps).current == TargetState::Active,
        !s.watched(steps).probed(),
        forall|t: StateView|
            t.current == TargetState::Active && (#[trigger] t.check_hang(now)).current
                == TargetState::DutOff ==> t.last_probe_time > t.last_data_time && now
                - t.last_probe_time > 5 * SECOND,
    decreases steps.len(),
{
    if steps.len() > 0 {
        law_off_needs_a_probe(s, steps.drop_last(), now);
        let before = s.watched(steps.drop_last());
        assert(!(steps[steps.len() - 1] is Probe));
        assert(s.watched(steps) == before.stepped(steps.last()));
    }
}

/// Law: hysteresis. As long as fewer checks than the threshold ran since data
/// last arrived, a booting, active or taken-over target keeps its state, whatever
/// probes are sent and however long it is silent.
pub proof fn law_hysteresis(s: StateView, steps: Seq<WatchStep>)
    requires
        s.current.hang_candidate(),
        0 <= s.hang_count,
        0 <= s.heartbeat_missed,
        forall|k: int|
            0 <= k <= steps.len() ==> #[trigger] checks_since_data(s.strikes(), steps.take(k))
                < s.hysteresis,
    ensures
        s.watched(steps).current == s.current,
        s.watched(steps).strikes() <= checks_since_data(s.strikes(), steps),
    decreases steps.len(),
{
    assert(steps.take(steps.len() as int) =~= steps);
    assert(checks_since_data(s.strikes(), steps.take(steps.len() as int)) < s.hysteresis);
    lemma_watched_frame(s, steps);
    if steps.len() > 0 {
        let some = steps.drop_last();
        assert forall|k: int| 0 <= k <= some.len() implies #[trigger] checks_since_data(
            s.strikes(),
            some.take(k),
        ) < s.hysteresis by {
            assert(some.take(k) =~= steps.take(k));
            assert(checks_since_data(s.strikes(), steps.take(k)) < s.hysteresis);
        }
        law_hysteresis(s, some);
        lemma_watched_frame(s, some);
    }
}

/// No step changes the threshold, and no count falls below zero.
proof fn lemma_watched_frame(s: StateView, steps: Seq<WatchStep>)
    requires
        0 <= s.hang_count,
        0 <= s.heartbeat_missed,
    ensures
        s.watched(steps).hysteresis == s.hysteresis,
        0 <= s.watched(steps).hang_count,
        0 <= s.watched(steps).heartbeat_missed,
    decreases steps.len(),
{
    if steps.len() > 0 {
        lemma_watched_frame(s, steps.drop_last());
    }
}

/// Law: a change to the state already held touches no file and nothing else.
pub proof fn law_same_state_is_no_op(s: StateView)
    ensures
        s.transition(s.current) == s,
        s.transition_ops(s.current) == Seq::<FileOpView>::empty(),
{
}

/// Law: a state that clients do not see never reaches the state files.
pub proof fn law_hidden_states_are_not_written(s: StateView, new: TargetState, i: int)
    requires
        !new.external(),
        0 <= i < s.transition_ops(new).len(),
    ensures
        s.transition_ops(new)[i] is Delete,
{
}

/// Law: a state that is shown is written by its name, first of all, and by its coloured
/// text into both caches; nothing is written where nothing changes.
#[verifier::rlimit(50)]
pub proof fn law_states_are_published(s: StateView, new: TargetState)
    ensures
        ({
            let ops = s.transition_ops(new);
            let name = new.name();
            let mark = |colour: Seq<char>, end: Seq<char>| colour + s.label() + end;
            let text = statusline(new, s.label());
            &&& new == s.current || new == TargetState::Connecting ==> ops.len() == 0
            &&& new == TargetState::Stopped && new != s.current ==> ops == seq![
                FileOpView::Delete { path: s.state_file },
                FileOpView::Delete { path: s.cache_file },
                FileOpView::Delete { path: s.shm_cache_file },
            ]
            &&& new != s.current && new != TargetState::Connecting && new != TargetState::Stopped
                ==> {
                &&& ops.len() >= 3
                &&& ops[0] == (FileOpView::Write { path: s.state_file, content: name })
                &&& ops.contains(FileOpView::Write { path: s.cache_file, content: text })
                &&& ops.contains(FileOpView::Write { path: s.shm_cache_file, content: text })
            }
            &&& new == TargetState::Active ==> name == "active"@ && text == mark(
                "\x1b[32m● "@,
                ":active\x1b[0m"@,
            )
            &&& new == TargetState::Booting ==> name == "booting"@ && text == mark(
                "\x1b[33m◐ "@,
                ":booting\x1b[0m"@,
            )
            &&& new == TargetState::Booted ==> name == "booted"@ && text == mark(
                "\x1b[32m● "@,
                ":booted\x1b[0m"@,
            )
            &&& new == TargetState::UBoot ==> name == "uboot"@ && text == mark(
                "\x1b[36m● "@,
                ":uboot\x1b[0m"@,
            )
            &&& new == TargetState::Crashed ==> name == "crashed"@ && text == mark(
                "\x1b[31m✗ "@,
                ":crashed\x1b[0m"@,
            )
            &&& new == TargetState::DutOff ==> name == "DUT-off"@ && text == mark(
                "\x1b[31m✗ "@,
                ":DUT-off\x1b[0m"@,
            )
            &&& new == TargetState::Disconnected ==> name == "disconnected"@ && text == mark(
                "\x1b[31m✗ "@,
                ":disconnected\x1b[0m"@,
            )
            &&& new == TargetState::Dutabo ==> name == "dutabo"@ && text == mark(
                "\x1b[35m● "@,
                ":dutabo\x1b[0m"@,
            )
            &&& new == TargetState::Stopped ==> name == "stopped"@ && text.len() == 0
            &&& new == TargetState::Connecting ==> name == "connecting"@ && text.len() == 0
        }),
{
    if new != s.current && new != TargetState::Connecting && new != TargetState::Stopped {
        let ops = s.transition_ops(new);
        let k: int = if s.dut_alias.len() > 0 {
            2
        } else {
            1
        };
        let text = statusline(new, s.label());
        assert(ops[k] == (FileOpView::Write { path: s.cache_file, content: text }));
        assert(ops[k + 1] == (FileOpView::Write { path: s.shm_cache_file, content: text }));
    }
}

/// Law: a DUT with an alias has its state below `.dut-serial` and its alias too, and,
/// unless it is the default one, its coloured text.
pub proof fn law_aliases_have_files(s: StateView, new: TargetState)
    requires
        new != s.current,
        new != TargetState::Connecting,
        new != TargetState::Stopped,
    ensures
        ({
            let ops = s.transition_ops(new);
            let dir = crate::text::joined_path(
                crate::text::joined_path(s.project_dir, ".dut-serial"@),
                s.dut_alias,
            );
            let text = statusline(new, s.label());
            &&& s.dut_alias.len() > 0 ==> ops.contains(
                FileOpView::Write {
                    path: crate::text::joined_path(dir, "target-state"@),
                    content: new.name(),
                },
            )
            &&& s.dut_alias.len() > 0 && s.dut_alias != "default"@ ==> ops.contains(
                FileOpView::Write {
                    path: crate::text::joined_path(dir, "statusline-cache"@),
                    content: text,
                },
            )
            &&& s.dut_alias.len() == 0 ==> ops.len() == (if new == TargetState::Crashed || new
                == TargetState::DutOff || new == TargetState::Disconnected {
                4int
            } else {
                3
            })
            &&& s.dut_alias.len() == 0 || s.dut_alias == "default"@ ==> s.label() == "serial"@
            &&& s.dut_alias.len() > 0 && s.dut_alias != "default"@ ==> s.label() == s.dut_alias
        }),
{
    let ops = s.transition_ops(new);
    let dir = crate::text::joined_path(
        crate::text::joined_path(s.project_dir, ".dut-serial"@),
        s.dut_alias,
    );
    if s.dut_alias.len() > 0 {
        assert(ops[1] == (FileOpView::Write {
            path: crate::text::joined_path(dir, "target-state"@),
            content: new.name(),
        }));
        if s.dut_alias != "default"@ {
            assert(ops[4] == (FileOpView::Write {
                path: crate::text::joined_path(dir, "statusline-cache"@),
                content: statusline(new, s.label()),
            }));
        }
    }
}

/// Law: an alert is raised, last of all, for a crash, a target that is off and a lost
/// connection, and for nothing else.
pub proof fn law_alerts(s: StateView, new: TargetState, i: int)
    ensures
        ({
            let ops = s.transition_ops(new);
            let alarms = new == TargetState::Crashed || new == TargetState::DutOff || new
                == TargetState::Disconnected;
            &&& alarms && new != s.current ==> ops.len() > 0 && ops.last() == (
            FileOpView::Notify { state: new })
            &&& 0 <= i < ops.len() && ops[i] is Notify ==> alarms && i == ops.len() - 1
        }),
{
}

/// Law: a target that boots, or that a session has taken over, is off once it was
/// silent, for more than its time in seconds, in as many checks in a row as the
/// hysteresis asks for.
pub proof fn law_silent_boots_end(s: StateView, now: int)
    requires
        s.current == TargetState::Booting || s.current == TargetState::Dutabo,
        0 <= s.hang_count < u32::MAX,
        s.last_data_time <= now,
    ensures
        ({
            let c = s.check_hang(now);
            let silent = now - s.last_data_time > s.hang_timeout_secs * 1_000_000_000;
            &&& silent ==> c.hang_count == s.hang_count + 1
            &&& !silent ==> c.hang_count == 0 && c.current == s.current
            &&& silent && s.hang_count + 1 >= s.hysteresis ==> c.current == TargetState::DutOff
            &&& silent && s.hang_count + 1 < s.hysteresis ==> c.current == s.current
            &&& c.current == s.current ==> s.check_hang_ops(now).len() == 0
            &&& c.current != s.current ==> s.check_hang_ops(now) == s.transition_ops(
                TargetState::DutOff,
            )
            &&& c.heartbeat_missed == s.heartbeat_missed && c.heartbeat_pending
                == s.heartbeat_pending
        }),
{
}

/// Law: an active target misses a heartbeat where a probe after its last data stayed
/// unanswered for more than five seconds and it was silent for more than its time; as
/// many misses as the hysteresis asks for mean that it is off.
pub proof fn law_missed_heartbeats_end(s: StateView, now: int)
    requires
        s.current == TargetState::Active,
        0 <= s.heartbeat_missed < u32::MAX,
        s.last_data_time <= now,
        s.last_probe_time <= now,
    ensures
        ({
            let c = s.check_hang(now);
            let silent = now - s.last_data_time > s.hang_timeout_secs * 1_000_000_000;
            let missed = silent && s.last_probe_time > s.last_data_time && now - s.last_probe_time
                > 5_000_000_000;
            let due = silent && now - s.last_probe_time > s.hang_timeout_secs * 1_000_000_000;
            &&& missed ==> c.heartbeat_missed == s.heartbeat_missed + 1
            &&& !missed ==> c.heartbeat_missed == s.heartbeat_missed && c.current == s.current
            &&& missed && s.heartbeat_missed + 1 >= s.hysteresis ==> c.current
                == TargetState::DutOff && s.check_hang_ops(now) == s.transition_ops(
                TargetState::DutOff,
            )
            &&& missed && s.heartbeat_missed + 1 < s.hysteresis ==> c.current == s.current
                && c.heartbeat_pending
            &&& !missed && due ==> c.heartbeat_pending
            &&& !missed && !due ==> c == s
            &&& c.hang_count == s.hang_count
        }),
{
}

/// Law: a target in any other state is not watched: the check forgets its count.
pub proof fn law_others_are_not_watched(s: StateView, now: int)
    requires
        s.current != TargetState::Booting,
        s.current != TargetState::Active,
        s.current != TargetState::Dutabo,
    ensures
        s.check_hang(now) == (StateView { hang_count: 0, heartbeat_pending: false, ..s }),
        s.check_hang_ops(now).len() == 0,
{
}

/// Law: data forgives every miss, and a probe that was sent is no longer wanted.
pub proof fn law_data_and_probes(s: StateView, now: int)
    ensures
        s.on_activity(now).hang_count == 0 && s.on_activity(now).heartbeat_missed == 0,
        !s.on_activity(now).heartbeat_pending && !s.mark_probe_sent(now).heartbeat_pending,
        s.on_activity(now).last_data_time == now && s.on_activity(now).last_probe_time == now,
        s.mark_probe_sent(now).last_probe_time == now && s.mark_probe_sent(now).last_data_time
            == s.last_data_time,
        s.mark_probe_sent(now).heartbeat_missed == s.heartbeat_missed,
        s.on_activity(now).current == s.current && s.mark_probe_sent(now).current == s.current,
{
}

/// Law: an alert is critical for a crash and a warning otherwise, and names its state;
/// other states raise none.
pub proof fn law_notifications(state: TargetState, r: Option<Notification>)
    requires
        call_ensures(StateManager::notification, (state,), r),
    ensures
        r is Some <==> state == TargetState::Crashed || state == TargetState::DutOff || state
            == TargetState::Disconnected,
        r matches Some(n) ==> n.state@ == state.name() && (n.severity@ == "critical"@ <==> state
            == TargetState::Crashed) && (n.severity@ == "warning"@ <==> state
            != TargetState::Crashed),
{
    reveal_strlit("critical");
    reveal_strlit("warning");
    assert("critical"@.len() != "warning"@.len());
}

/// Law: the state is shown unless the engine is stopped or connecting.
pub proof fn law_shown_states(s: StateManager, r: Option<TargetState>)
    requires
        call_ensures(StateManager::external_state, (&s,), r),
    ensures
        r is None <==> s@.current == TargetState::Stopped || s@.current == TargetState::Connecting,
        r is Some ==> r == Some(s@.current),
{
}

} // verus!
