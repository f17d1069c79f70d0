//! The server: which request gets which answer, and how the longer tools go on
//! from step to step.

use crate::boot_detector::{DetectorView, WatcherView};
use crate::bridge::bytes_pattern_valid;
use crate::config::{first_text, host_ip, lookup, number, serial_target_of, at_least_3000, Config};
use crate::engine_tools::UBOOT_PROMPT;
use crate::log_manager::ArchiveInfo;
use crate::mcp_tools::{
    params_of, tool_definitions, tool_description, tool_name, tool_params, ToolDef, TOOL_COUNT,
};
use crate::relay_manager::RelayStep;
use crate::serial_engine::{
    actions_of, boot_complete, is_boot_complete, ActionView, EngineAction, EngineView, ProbeRead,
    SerialEngine, Times,
};
use crate::state_manager::TargetState;
use crate::text::{
    cat, cat3, chars_of, contains_text, decimal, decimal_text, eq_text, is_at, occurs, parse_uint,
    parse_unsigned, replace_text, replaced, rfind_chars, rfind_seq, starts_with_text, string_of_range, texts, trim,
    trim_text,
};
use vstd::prelude::*;
use vstd::string::*;

verus! {

/// The version of the protocol.
pub const MCP_PROTOCOL_VERSION: &'static str = "2024-11-05";

/// The error code of a text that is no JSON.
pub const PARSE_ERROR: i32 = -32700;

/// The error code of a request that is not allowed.
pub const INVALID_REQUEST: i32 = -32600;

/// The error code of an unknown method.
pub const METHOD_NOT_FOUND: i32 = -32601;

// ── Requests ────────────────────────────────────────────────────────────────

/// An error of the protocol.
pub struct JsonRpcError {
    pub code: i32,
    pub message: String,
}

/// An error of the protocol.
pub fn error_response(code: i32, message: &str) -> (r: JsonRpcError)
    ensures
        r.code == code,
        r.message@ == message@,
{
    JsonRpcError { code, message: message.to_owned() }
}

/// The error of a text that is no JSON.
pub fn parse_error(cause: &str) -> (r: JsonRpcError)
    ensures
        r.code == PARSE_ERROR,
        r.message@ == "Parse error: "@ + cause@,
{
    JsonRpcError { code: PARSE_ERROR, message: cat("Parse error: ", cause) }
}

/// What a request asks for.
pub enum Route {
    /// A notification gets no answer.
    NoAnswer,
    Initialize,
    Ping,
    ToolsList,
    ToolsCall,
    ResourcesList,
    ResourcesRead,
    PromptsList,
    PromptsGet,
    Error(JsonRpcError),
}

/// The model of a `Route`.
pub enum RouteView {
    NoAnswer,
    Initialize,
    Ping,
    ToolsList,
    ToolsCall,
    ResourcesList,
    ResourcesRead,
    PromptsList,
    PromptsGet,
    Error(i32, Seq<char>),
}

impl View for Route {
    type V = RouteView;

    open spec fn view(&self) -> RouteView {
        match *self {
            Route::NoAnswer => RouteView::NoAnswer,
            Route::Initialize => RouteView::Initialize,
            Route::Ping => RouteView::Ping,
            Route::ToolsList => RouteView::ToolsList,
            Route::ToolsCall => RouteView::ToolsCall,
            Route::ResourcesList => RouteView::ResourcesList,
            Route::ResourcesRead => RouteView::ResourcesRead,
            Route::PromptsList => RouteView::PromptsList,
            Route::PromptsGet => RouteView::PromptsGet,
            Route::Error(e) => RouteView::Error(e.code, e.message@),
        }
    }
}

/// What a method asks for once the client is known.
pub open spec fn method_route(method: Seq<char>) -> RouteView {
    if method == "initialize"@ {
        RouteView::Initialize
    } else if method == "ping"@ {
        RouteView::Ping
    } else if method == "tools/list"@ {
        RouteView::ToolsList
    } else if method == "tools/call"@ {
        RouteView::ToolsCall
    } else if method == "resources/list"@ {
        RouteView::ResourcesList
    } else if method == "resources/read"@ {
        RouteView::ResourcesRead
    } else if method == "prompts/list"@ {
        RouteView::PromptsList
    } else if method == "prompts/get"@ {
        RouteView::PromptsGet
    } else {
        RouteView::Error(METHOD_NOT_FOUND, "Method not found: "@ + method)
    }
}

/// What a request asks for. Until the client has introduced itself, everything
/// else is refused.
pub open spec fn route(
    initialized: bool,
    jsonrpc: Seq<char>,
    method: Option<Seq<char>>,
) -> RouteView {
    if jsonrpc != "2.0"@ {
        RouteView::Error(INVALID_REQUEST, "Invalid Request: jsonrpc must be '2.0'"@)
    } else {
        match method {
            None => RouteView::Error(INVALID_REQUEST, "Invalid Request: missing method"@),
            Some(m) => if m == "notifications/initialized"@ {
                RouteView::NoAnswer
            } else if !initialized && m != "initialize"@ {
                RouteView::Error(INVALID_REQUEST, "Not initialized: send initialize first"@)
            } else {
                method_route(m)
            },
        }
    }
}

/// The server.
pub struct McpServer {
    pub tools: Vec<ToolDef>,
    /// The client has introduced itself.
    pub initialized: bool,
}

impl McpServer {
    /// A server that knows no client yet.
    pub fn new() -> (r: Self)
        ensures
            !r.initialized,
            r.tools@.len() == TOOL_COUNT,
            forall|i: int|
                0 <= i < TOOL_COUNT ==> (#[trigger] r.tools@[i]).name@ == tool_name(i)
                    && r.tools@[i].description@ == tool_description(i) && params_of(
                    r.tools@[i].params@,
                ) == tool_params(i),
    {
        McpServer { tools: tool_definitions(), initialized: false }
    }

    /// What a request asks for.
    pub fn handle_message(&mut self, jsonrpc: &str, method: Option<&str>) -> (r: Route)
        ensures
            ({
                let m = match method {
                    Some(t) => Some(t@),
                    None => None,
                };
                &&& r@ == route(old(self).initialized, jsonrpc@, m)
                &&& final(self).initialized == (old(self).initialized || r@ is NoAnswer
                    || r@ is Initialize)
                &&& final(self).tools == old(self).tools
            }),
    {
        if !eq_text(jsonrpc, "2.0") {
            return Route::Error(
                error_response(INVALID_REQUEST, "Invalid Request: jsonrpc must be '2.0'"),
            );
        }
        let m = match method {
            Some(m) => m,
            None => {
                return Route::Error(
                    error_response(INVALID_REQUEST, "Invalid Request: missing method"),
                );
            },
        };
        if eq_text(m, "notifications/initialized") {
            self.initialized = true;
            return Route::NoAnswer;
        }
        if !self.initialized && !eq_text(m, "initialize") {
            return Route::Error(
                error_response(INVALID_REQUEST, "Not initialized: send initialize first"),
            );
        }
        if eq_text(m, "initialize") {
            self.initialized = true;
            Route::Initialize
        } else if eq_text(m, "ping") {
            Route::Ping
        } else if eq_text(m, "tools/list") {
            Route::ToolsList
        } else if eq_text(m, "tools/call") {
            Route::ToolsCall
        } else if eq_text(m, "resources/list") {
            Route::ResourcesList
        } else if eq_text(m, "resources/read") {
            Route::ResourcesRead
        } else if eq_text(m, "prompts/list") {
            Route::PromptsList
        } else if eq_text(m, "prompts/get") {
            Route::PromptsGet
        } else {
            Route::Error(
                JsonRpcError { code: METHOD_NOT_FOUND, message: cat("Method not found: ", m) },
            )
        }
    }
}

/// The status of the answer over HTTP: a notification is only accepted.
pub fn http_status(answered: bool) -> (r: u16)
    ensures
        r == (if answered {
            200
        } else {
            202int
        }),
{
    if answered {
        200
    } else {
        202
    }
}

/// Whether tools are refused because another program has the line.
pub fn tools_blocked(state: TargetState) -> (r: bool)
    ensures
        r == (state == TargetState::Dutabo),
{
    state == TargetState::Dutabo
}

// ── Command-line options ────────────────────────────────────────────────────

/// The options of the server.
pub struct ServerOptions {
    pub verbose: bool,
    pub log_to_stderr: bool,
    /// Where to listen, where HTTP is asked for.
    pub http: Option<String>,
}

/// What the command line asks for.
pub enum ServerCommand {
    Run(ServerOptions),
    Help,
    Version,
    /// An option that is not known.
    Unknown(String),
}

/// The model of a `ServerCommand`: the options, or what is asked for instead.
pub enum ServerView {
    Run { verbose: bool, log_to_stderr: bool, http: Option<Seq<char>> },
    Help,
    Version,
    Unknown(Seq<char>),
}

impl View for ServerCommand {
    type V = ServerView;

    open spec fn view(&self) -> ServerView {
        match *self {
            ServerCommand::Run(o) => ServerView::Run {
                verbose: o.verbose,
                log_to_stderr: o.log_to_stderr,
                http: crate::text::text_option(o.http),
            },
            ServerCommand::Help => ServerView::Help,
            ServerCommand::Version => ServerView::Version,
            ServerCommand::Unknown(s) => ServerView::Unknown(s@),
        }
    }
}

/// A text that is no option.
pub open spec fn is_plain(s: Seq<char>) -> bool {
    !is_at(s, "-"@, 0)
}

/// What the arguments from `i` on ask for, with the options so far.
pub open spec fn server_command(
    args: Seq<Seq<char>>,
    i: int,
    verbose: bool,
    log_to_stderr: bool,
    http: Option<Seq<char>>,
) -> ServerView
    decreases args.len() - i,
{
    if i < 0 || i >= args.len() {
        ServerView::Run { verbose, log_to_stderr, http }
    } else {
        let a = args[i];
        if a == "-h"@ || a == "--help"@ {
            ServerView::Help
        } else if a == "-V"@ || a == "--version"@ {
            ServerView::Version
        } else if a == "-v"@ || a == "--verbose"@ {
            server_command(args, i + 1, true, log_to_stderr, http)
        } else if a == "--log-to-stderr"@ {
            server_command(args, i + 1, verbose, true, http)
        } else if a == "--http"@ {
            if i + 1 < args.len() && is_plain(args[i + 1]) {
                server_command(args, i + 2, verbose, log_to_stderr, Some(args[i + 1]))
            } else {
                let bind = match http {
                    Some(b) => b,
                    None => "0.0.0.0:3000"@,
                };
                server_command(args, i + 1, verbose, log_to_stderr, Some(bind))
            }
        } else {
            ServerView::Unknown(a)
        }
    }
}

/// Reads the command line, without the program's name.
pub fn parse_server_args(args: &Vec<String>) -> (r: ServerCommand)
    ensures
        r@ == server_command(texts(args@), 0, false, false, None),
{
    let mut verbose: bool = false;
    let mut log_to_stderr: bool = false;
    let mut http: Option<String> = None;
    let mut i: usize = 0;
    let ghost all = texts(args@);
    while i < args.len()
        invariant
            i <= args@.len(),
            all == texts(args@),
            all.len() == args@.len(),
            server_command(all, 0, false, false, None) == server_command(
                all,
                i as int,
                verbose,
                log_to_stderr,
                crate::text::text_option(http),
            ),
        decreases args@.len() - i,
    {
        let a = args[i].as_str();
        assert(a@ == all[i as int]);
        if eq_text(a, "-h") || eq_text(a, "--help") {
            return ServerCommand::Help;
        } else if eq_text(a, "-V") || eq_text(a, "--version") {
            return ServerCommand::Version;
        } else if eq_text(a, "-v") || eq_text(a, "--verbose") {
            verbose = true;
        } else if eq_text(a, "--log-to-stderr") {
            log_to_stderr = true;
        } else if eq_text(a, "--http") {
            let mut bound: bool = false;
            if i + 1 < args.len() {
                assert(all[i + 1] == args@[i + 1]@);
                if !starts_with_text(&args[i + 1], "-") {
                    http = Some(args[i + 1].clone());
                    i = i + 1;
                    bound = true;
                }
            }
            if !bound {
                if http.is_none() {
                    http = Some("0.0.0.0:3000".to_owned());
                }
            }
        } else {
            return ServerCommand::Unknown(args[i].clone());
        }
        i = i + 1;
    }
    ServerCommand::Run(ServerOptions { verbose, log_to_stderr, http })
}

/// Where the last colon stands.
pub open spec fn last_colon(s: Seq<char>) -> Option<int> {
    rfind_seq(s, ":"@)
}

/// The host and the port of an address, split at the last colon; port 3000 where
/// there is no port number, and every interface where there is no colon.
pub fn split_bind(bind: &str) -> (r: (String, u16))
    ensures
        match last_colon(bind@) {
            Some(k) => r.0@ == bind@.subrange(0, k) && r.1 == (match parse_unsigned(
                bind@.subrange(k + 1, bind@.len() as int),
                u16::MAX as nat,
            ) {
                Some(p) => p as int,
                None => 3000,
            }),
            None => r.0@ == "0.0.0.0"@ && r.1 == 3000,
        },
{
    let v = chars_of(bind);
    let colon = chars_of(":");
    proof {
        reveal_strlit(":");
    }
    match rfind_chars(&v, &colon) {
        Some(k) => {
            assert(k < v.len());
            let host = string_of_range(&v, 0, k);
            let port = string_of_range(&v, k + 1, v.len());
            let p: u16 = match parse_uint(&port, u16::MAX as u64) {
                Some(p) => p as u16,
                None => 3000,
            };
            (host, p)
        },
        None => ("0.0.0.0".to_owned(), 3000),
    }
}

// ── Entering the boot loader ────────────────────────────────────────────────

/// How many interrupt bytes are sent in a time (in nanoseconds), one every so
/// many milliseconds.
pub open spec fn rounds(duration: nat, interval_ms: nat) -> nat {
    if interval_ms == 0 {
        if duration == 0 {
            0
        } else {
            u64::MAX as nat
        }
    } else {
        duration / (interval_ms * 1_000_000)
    }
}

/// How many interrupt bytes are sent.
pub fn flood_rounds(duration: u64, interval_ms: u64) -> (r: u64)
    ensures
        r == rounds(duration as nat, interval_ms as nat),
{
    if interval_ms == 0 {
        if duration == 0 {
            0
        } else {
            u64::MAX
        }
    } else {
        let step: u128 = interval_ms as u128 * 1_000_000;
        let n: u128 = duration as u128 / step;
        assert(n <= duration) by (nonlinear_arith)
            requires
                n == duration as u128 / step,
                step >= 1,
        ;
        n as u64
    }
}

/// How many interrupt bytes are sent after a reboot, which is in fifteen
/// seconds.
pub fn reboot_flood_rounds(interval_ms: u64) -> (r: u64)
    requires
        interval_ms > 0,
    ensures
        r == 15000int / (interval_ms as int),
{
    15000 / interval_ms
}

/// The error after all attempts failed.
pub fn uboot_failure(limit: u64) -> (r: String)
    ensures
        r@ == (if limit > 0 {
            "Timed out waiting for U-Boot prompt"@
        } else {
            Seq::empty()
        }) + " after "@ + decimal(limit as nat) + " attempts"@,
{
    let first = if limit > 0 {
        "Timed out waiting for U-Boot prompt".to_owned()
    } else {
        String::new()
    };
    let mut r = cat3(&first, " after ", &decimal_text(limit));
    r.append(" attempts");
    r
}

/// Whether entering the boot loader goes on after a reset that failed: it does
/// where there is no reset control, with the interrupt bytes alone.
pub fn floods_without_reset(error: &str) -> (r: bool)
    ensures
        r == occurs(error@, "No reset control configured"@),
{
    contains_text(error, "No reset control configured")
}

impl EngineView {
    /// The detector no longer watches for a pattern.
    pub open spec fn unwatched(self, pattern: Seq<char>) -> EngineView {
        EngineView {
            detector: DetectorView {
                watchers: if bytes_pattern_valid(pattern) {
                    self.detector.watchers.filter(|w: WatcherView| w.pattern != pattern)
                } else {
                    self.detector.watchers
                },
                ..self.detector
            },
            ..self
        }
    }
}

/// The pattern of the first boot loader.
pub const SPL_PATTERN: &'static str = r"U-Boot\s+SPL";

impl SerialEngine {
    /// An attempt to enter the boot loader ended: the prompt is no longer watched
    /// for, and where it came the target is at the boot loader.
    pub fn uboot_attempt_done(&mut self, matched: bool) -> (out: Vec<EngineAction>)
        ensures
            ({
                let v = old(self)@.unwatched(UBOOT_PROMPT@);
                (final(self)@, actions_of(out@)) == (if matched {
                    v.turn(TargetState::UBoot)
                } else {
                    (v, Seq::empty())
                })
            }),
            final(self).same_fixed(*old(self)),
    {
        let mut out: Vec<EngineAction> = Vec::new();
        assert(actions_of(out@) =~= Seq::<ActionView>::empty());
        self.detector.remove_watcher_by_pattern(UBOOT_PROMPT);
        assert(self@ == old(self)@.unwatched(UBOOT_PROMPT@));
        if matched {
            let ghost v = self@;
            let ops = self.state.transition(TargetState::UBoot);
            out.push(EngineAction::Files(ops));
            assert(actions_of(out@) =~= v.turn(TargetState::UBoot).1);
        }
        out
    }

    /// The first boot loader was waited for: it is no longer watched for, and the
    /// prompt of the second is, on a channel.
    pub fn spl_wait_done(&mut self, channel: u64)
        ensures
            final(self)@ == ({
                let v = old(self)@.unwatched(SPL_PATTERN@);
                EngineView {
                    detector: DetectorView {
                        watchers: if bytes_pattern_valid(UBOOT_PROMPT@) {
                            v.detector.watchers.push(
                                WatcherView {
                                    pattern: UBOOT_PROMPT@,
                                    pattern_index: 0,
                                    sender: channel,
                                    group: false,
                                },
                            )
                        } else {
                            v.detector.watchers
                        },
                        ..v.detector
                    },
                    ..v
                }
            }),
            final(self).same_fixed(*old(self)),
    {
        self.detector.remove_watcher_by_pattern(SPL_PATTERN);
        assert(self@ == old(self)@.unwatched(SPL_PATTERN@));
        self.queue_enter_uboot(channel);
    }
}

// ── Running commands ────────────────────────────────────────────────────────

/// What is done with a command.
pub enum CommandPlan {
    /// Nothing: the target is off.
    Refuse,
    /// Send the line and do not wait; the report says so.
    SendOnly(String),
    /// Run it and wait for its output.
    Run,
}

/// A command that takes the target down, so that no output comes.
pub open spec fn takes_down(command: Seq<char>) -> bool {
    trim(command) == "reboot"@ || trim(command) == "poweroff"@ || trim(command) == "shutdown"@
}

/// The error of a command for a target that is off.
pub const DUT_OFF_ERROR: &'static str =
    "DUT is off or unresponsive; refusing to wait for command timeout";

/// What a target that is off needs.
pub const DUT_OFF_HINT: &'static str = "Power on or reset the DUT, then check serial_get_state.";

/// What is done with a command in a state.
pub fn plan_command(state: TargetState, command: &str) -> (r: CommandPlan)
    ensures
        if state == TargetState::DutOff {
            r is Refuse
        } else if takes_down(command@) {
            r matches CommandPlan::SendOnly(s) && s@ == trim(command@) + " sent"@
        } else {
            r is Run
        },
{
    if state == TargetState::DutOff {
        return CommandPlan::Refuse;
    }
    let t = trim_text(command);
    if eq_text(&t, "reboot") || eq_text(&t, "poweroff") || eq_text(&t, "shutdown") {
        return CommandPlan::SendOnly(cat(&t, " sent"));
    }
    CommandPlan::Run
}

/// The hint for a pipe whose output got lost.
pub const PIPE_HINT: &'static str =
    "Empty output with pipe detected (BusyBox ash buffering). Retry: use printf instead of echo, or append '; true' after the pipe. See skill SKILL.md § Known Limitations.";

/// Whether the output of a pipe got lost: there is no output and no exit code.
pub fn lost_in_pipe(output: &str, exit_code: Option<i32>, command: &str) -> (r: bool)
    ensures
        r == (output@.len() == 0 && exit_code is None && occurs(command@, "|"@)),
{
    output.is_empty() && exit_code.is_none() && contains_text(command, "|")
}

impl EngineView {
    /// The probe after a command ran out of time. An answer counts as activity,
    /// silence means that the target is off.
    pub open spec fn probed_after_timeout(self, read: Option<Seq<u8>>, t: Times) -> (
        EngineView,
        Seq<ActionView>,
    ) {
        match read {
            None => self.turn(TargetState::Disconnected),
            Some(data) => if data.len() == 0 {
                self.turn(TargetState::DutOff)
            } else {
                let (v, a) = self.logged(data);
                let (v, es) = v.detected(data, t.detector as int);
                let v = EngineView { state: v.state.on_activity(t.state as int), ..v };
                if boot_complete(es) {
                    let (w, b) = v.turn(TargetState::Active);
                    (w, a + b)
                } else {
                    (v, a)
                }
            },
        }
    }
}

/// What the probe after a timeout found.
pub struct TimeoutReport {
    pub state_after: &'static str,
    pub hint: String,
}

/// The place of the target's line.
pub open spec fn line_place(config: Config) -> Seq<char> {
    host_ip(config.values@) + ":"@ + serial_target_of(config.values@)
}

impl SerialEngine {
    /// Takes in what was read after a newline was sent to a target whose command
    /// ran out of time. `cause` says why a read failed.
    pub fn probe_after_command_timeout(&mut self, read: &ProbeRead, cause: &str, t: Times) -> (r: (
        Vec<EngineAction>,
        TimeoutReport,
    ))
        ensures
            (final(self)@, actions_of(r.0@)) == old(self)@.probed_after_timeout(read.bytes(), t),
            r.1.state_after@ == final(self)@.state.current.name(),
            ({
                let place = line_place(old(self).config);
                r.1.hint@ == (match read.bytes() {
                    None => "Command timed out and probe read failed on "@ + place + ": "@ + cause@
                        + ". Check ser2net or cabling."@,
                    Some(d) => if d.len() == 0 {
                        "Command timed out after no probe response on "@ + place
                            + "; state changed to DUT-off. Power on or reset the DUT."@
                    } else {
                        "Command timed out on "@ + place
                            + ", but the DUT responded to a probe. Check serial_get_state and retry when it is ready."@
                    },
                })
            }),
            final(self).same_fixed(*old(self)),
    {
        let place = cat3(&self.config.dev_host_ip(), ":", &self.config.serial_target());
        let mut out: Vec<EngineAction> = Vec::new();
        assert(actions_of(out@) =~= Seq::<ActionView>::empty());
        let ghost want = old(self)@.probed_after_timeout(read.bytes(), t);
        let hint: String;
        match read {
            ProbeRead::Failed => {
                let ops = self.state.transition(TargetState::Disconnected);
                out.push(EngineAction::Files(ops));
                let mut h = cat3("Command timed out and probe read failed on ", &place, ": ");
                h.append(cause);
                h.append(". Check ser2net or cabling.");
                hint = h;
            },
            ProbeRead::Data(data) => {
                if data.len() == 0 {
                    let ops = self.state.transition(TargetState::DutOff);
                    out.push(EngineAction::Files(ops));
                    hint = cat3(
                        "Command timed out after no probe response on ",
                        &place,
                        "; state changed to DUT-off. Power on or reset the DUT.",
                    );
                } else {
                    self.log_output(data, &mut out);
                    let events = self.detector.feed_at(data, t.detector);
                    self.state.on_activity_at(t.state);
                    if is_boot_complete(&events) {
                        let ghost before = out@;
                        let ops = self.state.transition(TargetState::Active);
                        let a = EngineAction::Files(ops);
                        out.push(a);
                        assert(actions_of(out@) =~= actions_of(before).push(a@));
                    }
                    hint = cat3(
                        "Command timed out on ",
                        &place,
                        ", but the DUT responded to a probe. Check serial_get_state and retry when it is ready.",
                    );
                }
            },
        }
        assert(actions_of(out@) =~= want.1);
        let state_after = self.state.current().as_str();
        (out, TimeoutReport { state_after, hint })
    }
}

// ── Power cycles ────────────────────────────────────────────────────────────

impl SerialEngine {
    /// The steps of a power cycle: off, wait at least three seconds, on. None
    /// where no power channel is configured.
    pub fn power_cycle_target(&self) -> (r: Option<Vec<RelayStep>>)
        ensures
            ({
                let m = self.config.values@;
                let ch = number(m, "POWER_CHANNEL"@, u8::MAX as nat, 0) as u8;
                let off = at_least_3000(
                    number(m, "POWER_OFF_TIME_MS"@, u64::MAX as nat, 3000),
                ) as u64;
                &&& r is Some <==> self.relay.port > 0 && ch > 0
                &&& r matches Some(s) ==> s@ == seq![
                    RelayStep::Off(ch),
                    RelayStep::Wait(off),
                    RelayStep::On(ch),
                ]
            }),
    {
        let ch: u8 = self.config.power_channel();
        let off: u64 = self.config.power_off_time_ms();
        if self.relay.port == 0 || ch == 0 {
            return None;
        }
        let mut s: Vec<RelayStep> = Vec::new();
        s.push(RelayStep::Off(ch));
        s.push(RelayStep::Wait(off));
        s.push(RelayStep::On(ch));
        assert(s@ =~= seq![RelayStep::Off(ch), RelayStep::Wait(off), RelayStep::On(ch)]);
        Some(s)
    }
}

// ── Resources ───────────────────────────────────────────────────────────────

/// A resource that clients can read.
pub struct ResourceDef {
    pub uri: String,
    pub name: String,
    pub description: String,
    pub mime_type: &'static str,
}

/// The resources of the server: every archived log, and the state.
pub fn build_resources_list(archives: &Vec<ArchiveInfo>) -> (r: Vec<ResourceDef>)
    ensures
        r@.len() == archives@.len() + 1,
        forall|i: int|
            0 <= i < archives@.len() ==> {
                let a = #[trigger] archives@[i];
                let d = r@[i];
                &&& d.uri@ == "log://boot/"@ + decimal(a.index as nat)
                &&& d.name@ == "Boot "@ + decimal(a.index as nat) + " — "@ + a.filename@
                &&& d.description@ == "Boot log archive #"@ + decimal(a.index as nat) + " ("@
                    + decimal(a.size_bytes as nat) + " bytes)"@
                &&& d.mime_type@ == "text/plain"@
            },
        ({
            let d = r@.last();
            &&& d.uri@ == "state://target"@
            &&& d.name@ == "Target State"@
            &&& d.description@ == "Current DUT state and metadata"@
            &&& d.mime_type@ == "application/json"@
        }),
{
    let mut r: Vec<ResourceDef> = Vec::new();
    let mut i: usize = 0;
    while i < archives.len()
        invariant
            i <= archives@.len(),
            r@.len() == i,
            forall|j: int|
                0 <= j < i ==> {
                    let a = #[trigger] archives@[j];
                    let d = r@[j];
                    &&& d.uri@ == "log://boot/"@ + decimal(a.index as nat)
                    &&& d.name@ == "Boot "@ + decimal(a.index as nat) + " — "@ + a.filename@
                    &&& d.description@ == "Boot log archive #"@ + decimal(a.index as nat) + " ("@
                        + decimal(a.size_bytes as nat) + " bytes)"@
                    &&& d.mime_type@ == "text/plain"@
                },
        decreases archives@.len() - i,
    {
        let a = &archives[i];
        let number = decimal_text(a.index as u64);
        let mut name = cat3("Boot ", &number, " — ");
        name.append(&a.filename);
        let mut description = cat3("Boot log archive #", &number, " (");
        description.append(&decimal_text(a.size_bytes));
        description.append(" bytes)");
        let d = ResourceDef {
            uri: cat("log://boot/", &number),
            name,
            description,
            mime_type: "text/plain",
        };
        r.push(d);
        i = i + 1;
    }
    r.push(
        ResourceDef {
            uri: "state://target".to_owned(),
            name: "Target State".to_owned(),
            description: "Current DUT state and metadata".to_owned(),
            mime_type: "application/json",
        },
    );
    r
}

/// What a resource's address refers to.
#[derive(Debug, Clone, Copy, PartialEq, Eq, Structural)]
pub enum ResourceRef {
    State,
    /// An archived log, the newest first.
    Log(usize),
    Missing,
}

/// What a resource's address refers to.
pub open spec fn resource_at(uri: Seq<char>) -> ResourceRef {
    if uri == "state://target"@ {
        ResourceRef::State
    } else if is_at(uri, "log://boot/"@, 0) {
        match parse_unsigned(uri.subrange(11, uri.len() as int), usize::MAX as nat) {
            Some(n) => ResourceRef::Log(n as usize),
            None => ResourceRef::Missing,
        }
    } else {
        ResourceRef::Missing
    }
}

/// What a resource's address refers to.
pub fn resource_ref(uri: &str) -> (r: ResourceRef)
    ensures
        r == resource_at(uri@),
{
    if eq_text(uri, "state://target") {
        return ResourceRef::State;
    }
    if starts_with_text(uri, "log://boot/") {
        proof {
            reveal_strlit("log://boot/");
        }
        let v = chars_of(uri);
        let rest = string_of_range(&v, 11, v.len());
        return match parse_uint(&rest, usize::MAX as u64) {
            Some(n) => ResourceRef::Log(n as usize),
            None => ResourceRef::Missing,
        };
    }
    ResourceRef::Missing
}

/// Law: the address of a listed log leads back to it.
pub proof fn law_listed_logs_are_found(index: usize)
    ensures
        resource_at("log://boot/"@ + decimal(index as nat)) == ResourceRef::Log(index),
{
    reveal_strlit("log://boot/");
    reveal_strlit("state://target");
    let d = decimal(index as nat);
    let uri = "log://boot/"@ + d;
    assert(uri[0] != "state://target"@[0]);
    assert(uri.subrange(0, 11) =~= "log://boot/"@);
    assert(uri.subrange(11, uri.len() as int) =~= d);
    crate::text::lemma_decimal_round_trip(index as nat, usize::MAX as nat);
}

// ── Flashing ────────────────────────────────────────────────────────────────

/// What an image holds.
#[derive(Debug, Clone, Copy, PartialEq, Eq, Structural)]
pub enum ImageType {
    Full,
    Kernel,
}

impl ImageType {
    /// The kind that a text names: a full image unless it says otherwise.
    pub open spec fn named(text: Seq<char>) -> ImageType {
        if text == "kernel"@ {
            ImageType::Kernel
        } else {
            ImageType::Full
        }
    }

    /// The name of the kind.
    pub open spec fn name(self) -> Seq<char> {
        match self {
            ImageType::Full => "full"@,
            ImageType::Kernel => "kernel"@,
        }
    }

    pub fn from_name(text: &str) -> (r: ImageType)
        ensures
            r == ImageType::named(text@),
    {
        if eq_text(text, "kernel") {
            ImageType::Kernel
        } else {
            ImageType::Full
        }
    }

    pub fn as_str(&self) -> (r: &'static str)
        ensures
            r@ == self.name(),
    {
        match self {
            ImageType::Full => "full",
            ImageType::Kernel => "kernel",
        }
    }
}

/// How an image gets to the target.
pub struct FlashPlan {
    pub tool: String,
    pub remote_path: String,
    pub dev_host: String,
    pub dev_user: String,
    pub upload_dir: String,
    pub image_type: ImageType,
    /// The commands that write a full image and a kernel.
    pub full_image_cmd: String,
    pub kernel_image_cmd: String,
    /// The command for the kind of image that is written.
    pub selected_flash_cmd: String,
    pub loader_bin: String,
    /// The command that loads the loader, empty where there is none.
    pub loader_cmd: String,
    pub list_devices_cmd: String,
    pub steps: Vec<String>,
}

/// Where an image is uploaded to.
pub open spec fn remote_path_of(upload_dir: Seq<char>, file_name: Seq<char>) -> Seq<char> {
    first_text(upload_dir, "/tmp"@) + "/"@ + file_name
}

/// Where an image is uploaded to: `/tmp` unless another directory is configured.
pub fn remote_path(upload_dir: &str, file_name: &str) -> (r: String)
    ensures
        r@ == remote_path_of(upload_dir@, file_name@),
{
    let dir = if upload_dir.is_empty() {
        "/tmp".to_owned()
    } else {
        upload_dir.to_owned()
    };
    cat3(&dir, "/", file_name)
}

/// A configured command with the path of the image put in.
pub open spec fn image_command(template: Seq<char>, remote: Seq<char>) -> Seq<char> {
    replaced(template, "{image}"@, remote)
}

/// A configured command with the path of the image put in.
fn with_image(template: &str, remote: &str) -> (r: String)
    ensures
        r@ == image_command(template@, remote@),
{
    proof {
        reveal_strlit("{image}");
    }
    replace_text(template, "{image}", remote)
}

/// How an image gets to the target: copy it to the host, check it there, and run
/// the tool. Nothing where no tool is configured.
pub fn build_flash_plan(
    config: &Config,
    image_path: &str,
    file_name: &str,
    image_type: &str,
) -> (r: Option<FlashPlan>)
    ensures
        r is Some <==> lookup(config.values@, "FLASH_TOOL"@).len() > 0,
        r matches Some(p) ==> {
            let m = config.values@;
            let host = host_ip(m);
            let user = first_text(lookup(m, "DEV_HOST_USER"@), "linaro"@);
            let login = user + "@"@ + host;
            let dir = lookup(m, "FLASH_UPLOAD_DIR"@);
            let remote = remote_path_of(dir, file_name@);
            let full = image_command(lookup(m, "FLASH_FULL_IMAGE_CMD"@), remote);
            let kernel = image_command(lookup(m, "FLASH_KERNEL_IMAGE_CMD"@), remote);
            let kind = ImageType::named(image_type@);
            let selected = match kind {
                ImageType::Full => full,
                ImageType::Kernel => kernel,
            };
            &&& p.tool@ == lookup(m, "FLASH_TOOL"@)
            &&& p.remote_path@ == remote
            &&& p.dev_host@ == host
            &&& p.dev_user@ == user
            &&& p.upload_dir@ == first_text(dir, "/tmp"@)
            &&& p.image_type == kind
            &&& p.full_image_cmd@ == full
            &&& p.kernel_image_cmd@ == kernel
            &&& p.selected_flash_cmd@ == selected
            &&& p.loader_bin@ == lookup(m, "FLASH_LOADER_BIN"@)
            &&& p.loader_cmd@ == (if lookup(m, "FLASH_LOADER_BIN"@).len() == 0 {
                Seq::empty()
            } else {
                lookup(m, "FLASH_LOADER_CMD"@)
            })
            &&& p.list_devices_cmd@ == first_text(lookup(m, "FLASH_LIST_DEVICES_CMD"@), "LD"@)
            &&& texts(p.steps@) == seq![
                "scp "@ + image_path@ + " "@ + login + ":"@ + remote,
                "ssh "@ + login + " 'sha256sum "@ + remote + "'"@,
                "ssh "@ + login + " '"@ + p.tool@ + " "@ + selected + "'"@,
            ]
        },
{
    let tool = config.get("FLASH_TOOL").to_owned();
    if tool.as_str().is_empty() {
        return None;
    }
    let dev_host = config.dev_host_ip();
    let dev_user = config.get_str_or("DEV_HOST_USER", "linaro");
    let login = cat3(&dev_user, "@", &dev_host);
    let upload_dir = config.get_str_or("FLASH_UPLOAD_DIR", "/tmp");
    let remote = remote_path(config.get("FLASH_UPLOAD_DIR"), file_name);
    let full_image_cmd = with_image(config.get("FLASH_FULL_IMAGE_CMD"), &remote);
    let kernel_image_cmd = with_image(config.get("FLASH_KERNEL_IMAGE_CMD"), &remote);
    let kind = ImageType::from_name(image_type);
    let selected_flash_cmd = match kind {
        ImageType::Full => full_image_cmd.clone(),
        ImageType::Kernel => kernel_image_cmd.clone(),
    };
    let loader_bin = config.get("FLASH_LOADER_BIN").to_owned();
    let loader_cmd = if loader_bin.as_str().is_empty() {
        String::new()
    } else {
        config.get("FLASH_LOADER_CMD").to_owned()
    };
    assert(loader_bin@.len() == 0 ==> loader_cmd@ =~= Seq::<char>::empty());
    let list_devices_cmd = config.get_str_or("FLASH_LIST_DEVICES_CMD", "LD");
    let mut copy = cat3("scp ", image_path, " ");
    copy.append(&login);
    copy.append(":");
    copy.append(&remote);
    let mut check = cat3("ssh ", &login, " 'sha256sum ");
    check.append(&remote);
    check.append("'");
    let mut run = cat3("ssh ", &login, " '");
    run.append(&tool);
    run.append(" ");
    run.append(&selected_flash_cmd);
    run.append("'");
    let ghost want = seq![copy@, check@, run@];
    let mut steps: Vec<String> = Vec::new();
    steps.push(copy);
    steps.push(check);
    steps.push(run);
    assert(texts(steps@) =~= want);
    Some(
        FlashPlan {
            tool,
            remote_path: remote,
            dev_host,
            dev_user,
            upload_dir,
            image_type: kind,
            full_image_cmd,
            kernel_image_cmd,
            selected_flash_cmd,
            loader_bin,
            loader_cmd,
            list_devices_cmd,
            steps,
        },
    )
}

// ── Laws ────────────────────────────────────────────────────────────────────

/// Law: before a client has introduced itself, every method but `initialize` and
/// the notification is refused with the same error, and introducing itself is
/// always possible.
pub proof fn law_introduction_comes_first(method: Seq<char>)
    ensures
        method != "initialize"@ && method != "notifications/initialized"@ ==> route(
            false,
            "2.0"@,
            Some(method),
        ) == RouteView::Error(INVALID_REQUEST, "Not initialized: send initialize first"@),
        route(false, "2.0"@, Some("initialize"@)) == RouteView::Initialize,
        route(true, "2.0"@, Some("initialize"@)) == RouteView::Initialize,
{
    reveal_strlit("initialize");
    reveal_strlit("notifications/initialized");
    assert("initialize"@.len() != "notifications/initialized"@.len());
}

/// Law: a request of another protocol version is refused, whatever it asks for.
pub proof fn law_other_versions_are_refused(
    initialized: bool,
    jsonrpc: Seq<char>,
    method: Option<Seq<char>>,
)
    requires
        jsonrpc != "2.0"@,
    ensures
        route(initialized, jsonrpc, method) == RouteView::Error(
            INVALID_REQUEST,
            "Invalid Request: jsonrpc must be '2.0'"@,
        ),
{
}

// ── Prompts ─────────────────────────────────────────────────────────────────

/// The number of prompts.
pub const PROMPT_COUNT: usize = 7;

/// The name of a prompt.
pub open spec fn prompt_name(i: int) -> Seq<char> {
    if i == 0 {
        "debug_boot"@
    } else if i == 1 {
        "debug_kernel"@
    } else if i == 2 {
        "check_status"@
    } else if i == 3 {
        "send_and_check"@
    } else if i == 4 {
        "boot-capture"@
    } else if i == 5 {
        "crash-diagnose"@
    } else {
        "uboot-recovery"@
    }
}

/// What a prompt is for.
pub open spec fn prompt_purpose(i: int) -> Seq<char> {
    if i == 0 {
        "Debug target boot process — monitor SPL, U-Boot, kernel, login"@
    } else if i == 1 {
        "Diagnose kernel crashes from serial logs"@
    } else if i == 2 {
        "Quick target health check — state + recent output"@
    } else if i == 3 {
        "Send a command to the target and verify the output"@
    } else if i == 4 {
        "Capture a clean boot log for StageLearner. Resets the target and waits for login."@
    } else if i == 5 {
        "Check if target has crashed and retrieve the crash log."@
    } else {
        "Enter U-Boot and recover from a bad kernel by flashing a new boot image."@
    }
}

/// The argument of a prompt, where it has one: its name, what it is, and whether
/// it must be given.
pub open spec fn prompt_argument(i: int) -> Option<(Seq<char>, Seq<char>, bool)> {
    if i == 1 {
        Some(("lines"@, "Number of recent log lines to analyze"@, false))
    } else if i == 3 {
        Some(("command"@, "Shell command to execute on target"@, true))
    } else {
        None
    }
}

/// The title of a prompt's text.
pub open spec fn prompt_title(i: int) -> Seq<char> {
    if i == 0 {
        "Debug target boot process"@
    } else if i == 1 {
        "Diagnose kernel crashes"@
    } else if i == 2 {
        "Quick target health check"@
    } else if i == 3 {
        "Send command to target"@
    } else if i == 4 {
        "Capture a clean boot log for StageLearner"@
    } else if i == 5 {
        "Check if target has crashed and retrieve crash log"@
    } else {
        "Enter U-Boot for recovery"@
    }
}

/// The text of a prompt.
pub open spec fn prompt_text(i: int) -> Seq<char> {
    if i == 0 {
        "Monitor the target boot process. Use serial_reset to reset the target, wait for each boot stage using serial_wait_pattern, and report the boot progress. Check for any errors or warnings in the boot log."@
    } else if i == 1 {
        "Diagnose kernel crashes from the serial logs. Use serial_get_logs with pattern='panic|BUG|Oops|Call trace' to find crash information. Analyze the crash dump and suggest the likely root cause."@
    } else if i == 2 {
        "Check the target status. Use serial_get_state to get the current status, serial_get_logs with lines=20 to get recent output, and report the target's health."@
    } else if i == 3 {
        "Send a command to the target via serial_send_command and verify the output. Report the command result."@
    } else if i == 4 {
        "Run serial_reset(wait_boot=true) to capture a clean boot cycle. Then run serial_get_logs(lines=200) to review the boot log. Check serial_get_state to confirm the target reached active state."@
    } else if i == 5 {
        "Run serial_get_state — if state is 'crashed', run serial_get_logs(lines=200, pattern='panic|BUG|Oops|Call trace') to see the crash details. Then consider rebooting or entering U-Boot for recovery."@
    } else {
        "Run serial_enter_uboot to get to the U-Boot prompt. From there, use serial_uboot_command('setenv bootdelay 3') and serial_uboot_command('saveenv') to make U-Boot interactive. Then use serial_uboot_command('boot') to continue booting."@
    }
}

/// An argument of a prompt.
pub struct PromptArg {
    pub name: &'static str,
    pub description: &'static str,
    pub required: bool,
}

/// A prompt.
pub struct PromptDef {
    pub name: &'static str,
    pub description: &'static str,
    pub argument: Option<PromptArg>,
}

/// A prompt's text.
pub struct PromptContent {
    pub description: String,
    /// The message of the user; none where the prompt is not known.
    pub message: Option<&'static str>,
}

fn prompt_at(i: usize) -> (r: PromptDef)
    ensures
        r.name@ == prompt_name(i as int),
        r.description@ == prompt_purpose(i as int),
        match r.argument {
            Some(a) => prompt_argument(i as int) == Some((a.name@, a.description@, a.required)),
            None => prompt_argument(i as int) is None,
        },
{
    let argument = if i == 1 {
        Some(
            PromptArg {
                name: "lines",
                description: "Number of recent log lines to analyze",
                required: false,
            },
        )
    } else if i == 3 {
        Some(
            PromptArg {
                name: "command",
                description: "Shell command to execute on target",
                required: true,
            },
        )
    } else {
        None
    };
    if i == 0 {
        PromptDef { name: "debug_boot", description: "Debug target boot process — monitor SPL, U-Boot, kernel, login", argument }
    } else if i == 1 {
        PromptDef { name: "debug_kernel", description: "Diagnose kernel crashes from serial logs", argument }
    } else if i == 2 {
        PromptDef { name: "check_status", description: "Quick target health check — state + recent output", argument }
    } else if i == 3 {
        PromptDef { name: "send_and_check", description: "Send a command to the target and verify the output", argument }
    } else if i == 4 {
        PromptDef { name: "boot-capture", description: "Capture a clean boot log for StageLearner. Resets the target and waits for login.", argument }
    } else if i == 5 {
        PromptDef { name: "crash-diagnose", description: "Check if target has crashed and retrieve the crash log.", argument }
    } else {
        PromptDef { name: "uboot-recovery", description: "Enter U-Boot and recover from a bad kernel by flashing a new boot image.", argument }
    }
}

fn title_at(i: usize) -> (r: &'static str)
    ensures
        r@ == prompt_title(i as int),
{
    if i == 0 {
        "Debug target boot process"
    } else if i == 1 {
        "Diagnose kernel crashes"
    } else if i == 2 {
        "Quick target health check"
    } else if i == 3 {
        "Send command to target"
    } else if i == 4 {
        "Capture a clean boot log for StageLearner"
    } else if i == 5 {
        "Check if target has crashed and retrieve crash log"
    } else {
        "Enter U-Boot for recovery"
    }
}

fn text_at(i: usize) -> (r: &'static str)
    ensures
        r@ == prompt_text(i as int),
{
    if i == 0 {
        "Monitor the target boot process. Use serial_reset to reset the target, wait for each boot stage using serial_wait_pattern, and report the boot progress. Check for any errors or warnings in the boot log."
    } else if i == 1 {
        "Diagnose kernel crashes from the serial logs. Use serial_get_logs with pattern='panic|BUG|Oops|Call trace' to find crash information. Analyze the crash dump and suggest the likely root cause."
    } else if i == 2 {
        "Check the target status. Use serial_get_state to get the current status, serial_get_logs with lines=20 to get recent output, and report the target's health."
    } else if i == 3 {
        "Send a command to the target via serial_send_command and verify the output. Report the command result."
    } else if i == 4 {
        "Run serial_reset(wait_boot=true) to capture a clean boot cycle. Then run serial_get_logs(lines=200) to review the boot log. Check serial_get_state to confirm the target reached active state."
    } else if i == 5 {
        "Run serial_get_state — if state is 'crashed', run serial_get_logs(lines=200, pattern='panic|BUG|Oops|Call trace') to see the crash details. Then consider rebooting or entering U-Boot for recovery."
    } else {
        "Run serial_enter_uboot to get to the U-Boot prompt. From there, use serial_uboot_command('setenv bootdelay 3') and serial_uboot_command('saveenv') to make U-Boot interactive. Then use serial_uboot_command('boot') to continue booting."
    }
}

/// The prompts, in order.
pub fn build_prompts() -> (r: Vec<PromptDef>)
    ensures
        r@.len() == PROMPT_COUNT,
        forall|i: int|
            0 <= i < PROMPT_COUNT ==> (#[trigger] r@[i]).name@ == prompt_name(i)
                && r@[i].description@ == prompt_purpose(i) && (match r@[i].argument {
                Some(a) => prompt_argument(i) == Some((a.name@, a.description@, a.required)),
                None => prompt_argument(i) is None,
            }),
{
    let mut r: Vec<PromptDef> = Vec::new();
    let mut i: usize = 0;
    while i < PROMPT_COUNT
        invariant
            i <= PROMPT_COUNT,
            r@.len() == i,
            forall|j: int|
                0 <= j < i ==> (#[trigger] r@[j]).name@ == prompt_name(j) && r@[j].description@
                    == prompt_purpose(j) && (match r@[j].argument {
                    Some(a) => prompt_argument(j) == Some((a.name@, a.description@, a.required)),
                    None => prompt_argument(j) is None,
                }),
        decreases PROMPT_COUNT - i,
    {
        r.push(prompt_at(i));
        i = i + 1;
    }
    r
}

/// The place of a prompt, from `i` on.
pub open spec fn prompt_from(name: Seq<char>, i: int) -> Option<int>
    decreases PROMPT_COUNT - i,
{
    if i < 0 || i >= PROMPT_COUNT {
        None
    } else if prompt_name(i) == name {
        Some(i)
    } else {
        prompt_from(name, i + 1)
    }
}

/// The text of a prompt. An unknown prompt has a title that says so and no
/// message.
pub fn build_prompt_content(name: &str) -> (r: PromptContent)
    ensures
        match prompt_from(name@, 0) {
            Some(i) => r.description@ == prompt_title(i) && (r.message matches Some(m) && m@
                == prompt_text(i)),
            None => r.description@ == "Unknown prompt: "@ + name@ && r.message is None,
        },
{
    let mut i: usize = 0;
    while i < PROMPT_COUNT
        invariant
            i <= PROMPT_COUNT,
            prompt_from(name@, 0) == prompt_from(name@, i as int),
        decreases PROMPT_COUNT - i,
    {
        if eq_text(prompt_at(i).name, name) {
            return PromptContent { description: title_at(i).to_owned(), message: Some(text_at(i)) };
        }
        i = i + 1;
    }
    PromptContent { description: cat("Unknown prompt: ", name), message: None }
}

/// Law: every prompt that is listed has a message.
pub proof fn law_listed_prompts_have_messages(i: int)
    requires
        0 <= i < PROMPT_COUNT,
    ensures
        prompt_from(prompt_name(i), 0) == Some(i),
{
    reveal_strlit("debug_boot");
    reveal_strlit("debug_kernel");
    reveal_strlit("check_status");
    reveal_strlit("send_and_check");
    reveal_strlit("boot-capture");
    reveal_strlit("crash-diagnose");
    reveal_strlit("uboot-recovery");
    reveal_with_fuel(prompt_from, 8);
    assert(forall|k: int| 0 <= k < i ==> #[trigger] prompt_name(k) != prompt_name(i)) by {
        assert forall|k: int| 0 <= k < i implies #[trigger] prompt_name(k) != prompt_name(i) by {
            assert(prompt_name(k).len() != prompt_name(i).len() || prompt_name(k)[0]
                != prompt_name(i)[0]);
        }
    }
}

/// Law: each method has its own answer, and a method that is not known is refused by
/// its name.
#[verifier::rlimit(50)]
pub proof fn law_methods_have_answers(initialized: bool, method: Seq<char>)
    ensures
        ({
            let r = route(initialized, "2.0"@, Some(method));
            &&& r is Initialize <==> method == "initialize"@
            &&& r is Ping <==> initialized && method == "ping"@
            &&& r is ToolsList <==> initialized && method == "tools/list"@
            &&& r is ToolsCall <==> initialized && method == "tools/call"@
            &&& r is ResourcesList <==> initialized && method == "resources/list"@
            &&& r is ResourcesRead <==> initialized && method == "resources/read"@
            &&& r is PromptsList <==> initialized && method == "prompts/list"@
            &&& r is PromptsGet <==> initialized && method == "prompts/get"@
            &&& r is NoAnswer <==> method == "notifications/initialized"@
            &&& initialized && method != "initialize"@ && method != "ping"@ && method != "tools/list"@ && method != "tools/call"@ && method != "resources/list"@ && method != "resources/read"@ && method != "prompts/list"@ && method != "prompts/get"@ && method != "notifications/initialized"@ ==> r == RouteView::Error(-32601 as i32, "Method not found: "@ + method)
            &&& route(initialized, "2.0"@, None) == RouteView::Error(-32600 as i32, "Invalid Request: missing method"@)
            &&& (r matches RouteView::Error(code, text) ==> code == -32600 || code == -32601)
        }),
{
    reveal_strlit("initialize");
    reveal_strlit("ping");
    reveal_strlit("tools/list");
    reveal_strlit("tools/call");
    reveal_strlit("resources/list");
    reveal_strlit("resources/read");
    reveal_strlit("prompts/list");
    reveal_strlit("prompts/get");
    reveal_strlit("notifications/initialized");
    assert(method_tag("initialize"@) == 10101);
    assert(method_tag("ping"@) == 4103);
    assert(method_tag("tools/list"@) == 10116);
    assert(method_tag("tools/call"@) == 10108);
    assert(method_tag("resources/list"@) == 14116);
    assert(method_tag("resources/read"@) == 14100);
    assert(method_tag("prompts/list"@) == 12116);
    assert(method_tag("prompts/get"@) == 11116);
    assert(method_tag("notifications/initialized"@) == 25100);
}

spec fn method_tag(m: Seq<char>) -> int {
    m.len() * 1000 + m.last() as u32
}

/// Law: each option adds to what the options behind it say; help and the version end
/// the reading, and so does an option that is not known.
#[verifier::rlimit(50)]
pub proof fn law_server_options(
    rest: Seq<Seq<char>>,
    verbose: bool,
    log: bool,
    http: Option<Seq<char>>,
    a: Seq<char>,
)
    ensures
        server_command(Seq::empty(), 0, verbose, log, http) == (ServerView::Run {
            verbose,
            log_to_stderr: log,
            http,
        }),
        a == "-h"@ || a == "--help"@ ==> server_command(seq![a] + rest, 0, verbose, log, http)
            == ServerView::Help,
        a == "-V"@ || a == "--version"@ ==> server_command(seq![a] + rest, 0, verbose, log, http)
            == ServerView::Version,
        a == "-v"@ || a == "--verbose"@ ==> server_command(seq![a] + rest, 0, verbose, log, http)
            == server_command(rest, 0, true, log, http),
        a == "--log-to-stderr"@ ==> server_command(seq![a] + rest, 0, verbose, log, http)
            == server_command(rest, 0, verbose, true, http),
        a == "--http"@ && (rest.len() == 0 || is_at(rest[0], "-"@, 0)) ==> server_command(
            seq![a] + rest,
            0,
            verbose,
            log,
            http,
        ) == server_command(
            rest,
            0,
            verbose,
            log,
            Some(
                match http {
                    Some(b) => b,
                    None => "0.0.0.0:3000"@,
                },
            ),
        ),
        a == "--http"@ && rest.len() > 0 && !is_at(rest[0], "-"@, 0) ==> server_command(
            seq![a] + rest,
            0,
            verbose,
            log,
            http,
        ) == server_command(rest.subrange(1, rest.len() as int), 0, verbose, log, Some(rest[0])),
        a != "-h"@ && a != "--help"@ && a != "-V"@ && a != "--version"@ && a != "-v"@ && a
            != "--verbose"@ && a != "--log-to-stderr"@ && a != "--http"@ ==> server_command(
            seq![a] + rest,
            0,
            verbose,
            log,
            http,
        ) == ServerView::Unknown(a),
{
    reveal_strlit("-h");
    reveal_strlit("--help");
    reveal_strlit("-V");
    reveal_strlit("--version");
    reveal_strlit("-v");
    reveal_strlit("--verbose");
    reveal_strlit("--log-to-stderr");
    reveal_strlit("--http");
    assert("-h"@[1] == 'h' && "-V"@[1] == 'V' && "-v"@[1] == 'v');
    assert("--verbose"@[4] == 'r' && "--version"@[4] == 'r');
    assert("--verbose"@[5] == 'b' && "--version"@[5] == 's');
    assert("--help"@[3] == 'e' && "--http"@[3] == 't');
    let all = seq![a] + rest;
    assert(all[0] == a);
    let bind = Some(
        match http {
            Some(b) => b,
            None => "0.0.0.0:3000"@,
        },
    );
    lemma_options_shift(seq![a], rest, 0, true, log, http);
    lemma_options_shift(seq![a], rest, 0, verbose, true, http);
    lemma_options_shift(seq![a], rest, 0, verbose, log, bind);
    if rest.len() > 0 {
        assert(all[1] == rest[0]);
        let tail = rest.subrange(1, rest.len() as int);
        assert(all =~= seq![a, rest[0]] + tail);
        lemma_options_shift(seq![a, rest[0]], tail, 0, verbose, log, Some(rest[0]));
    }
}

proof fn lemma_options_shift(
    a: Seq<Seq<char>>,
    b: Seq<Seq<char>>,
    i: int,
    verbose: bool,
    log: bool,
    http: Option<Seq<char>>,
)
    requires
        0 <= i <= b.len(),
    ensures
        server_command(a + b, a.len() + i, verbose, log, http) == server_command(
            b,
            i,
            verbose,
            log,
            http,
        ),
    decreases b.len() - i,
{
    if i < b.len() {
        let ab = a + b;
        assert(ab[a.len() + i] == b[i]);
        let bind = Some(
            match http {
                Some(x) => x,
                None => "0.0.0.0:3000"@,
            },
        );
        lemma_options_shift(a, b, i + 1, true, log, http);
        lemma_options_shift(a, b, i + 1, verbose, true, http);
        lemma_options_shift(a, b, i + 1, verbose, log, bind);
        if i + 1 < b.len() {
            assert(ab[a.len() + i + 1] == b[i + 1]);
            lemma_options_shift(a, b, i + 2, verbose, log, Some(b[i + 1]));
        }
    }
}

/// Law: the commands that take the target down, with white space around them, are the
/// ones that are sent without waiting.
pub proof fn law_commands_that_take_down(
    before: Seq<char>,
    word: Seq<char>,
    after: Seq<char>,
)
    requires
        crate::text::all_space(before),
        crate::text::all_space(after),
        crate::text::is_trimmed(word),
    ensures
        takes_down(before + word + after) <==> word == "reboot"@ || word == "poweroff"@ || word
            == "shutdown"@,
{
    crate::text::law_trim(before, word, after);
}

/// Law: a resource is the state, a log by its number, or missing.
pub proof fn law_resources(uri: Seq<char>, tail: Seq<char>)
    ensures
        resource_at("state://target"@) == ResourceRef::State,
        resource_at("log://boot/"@ + tail) == (match parse_unsigned(tail, usize::MAX as nat) {
            Some(n) => ResourceRef::Log(n as usize),
            None => ResourceRef::Missing,
        }),
        uri != "state://target"@ && !is_at(uri, "log://boot/"@, 0) ==> resource_at(uri)
            == ResourceRef::Missing,
{
    reveal_strlit("state://target");
    reveal_strlit("log://boot/");
    let u = "log://boot/"@ + tail;
    assert(u[0] == 'l');
    assert("state://target"@[0] == 's');
    assert(u.subrange(0, 11) =~= "log://boot/"@);
    assert(u.subrange(11, u.len() as int) =~= tail);
}

/// Law: as many rounds are made as fit into the time.
pub proof fn law_rounds_fit(duration: nat, interval_ms: nat)
    requires
        interval_ms > 0,
    ensures
        rounds(duration, interval_ms) * (interval_ms * 1_000_000) <= duration,
        duration < (rounds(duration, interval_ms) + 1) * (interval_ms * 1_000_000),
{
    let d = interval_ms * 1_000_000;
    let q = duration / d;
    assert(q * d <= duration && duration < (q + 1) * d) by (nonlinear_arith)
        requires
            d > 0,
            q == duration / d,
    ;
}

/// Law: an image is a kernel where it is called one, else a full image.
pub proof fn law_images_are_named(kind: ImageType, text: Seq<char>)
    ensures
        ImageType::named(kind.name()) == kind,
        ImageType::named(text) == ImageType::Kernel <==> text == "kernel"@,
        ImageType::Full.name() == "full"@,
{
    reveal_strlit("full");
    reveal_strlit("kernel");
    assert("full"@.len() != "kernel"@.len());
}

/// Law: an image is put below the upload directory, `/tmp` where none is set, and its
/// path takes the place of `{image}` in the command.
pub proof fn law_images_are_placed(
    dir: Seq<char>,
    file: Seq<char>,
    a: Seq<char>,
    b: Seq<char>,
    remote: Seq<char>,
)
    requires
        !a.contains('{'),
        !b.contains('{'),
    ensures
        dir.len() > 0 ==> remote_path_of(dir, file) == dir + "/"@ + file,
        remote_path_of(Seq::empty(), file) == "/tmp"@ + "/"@ + file,
        image_command(a + "{image}"@ + b, remote) == a + remote + b,
        image_command(a, remote) == a,
{
    reveal_strlit("{image}");
    let n = "{image}"@;
    let s = a + n + b;
    let i = a.len() as int;
    assert(s.subrange(i, i + n.len()) =~= n);
    assert(n[0] == '{');
    assert forall|j: int| 0 <= j < i implies #[trigger] s.subrange(j, j + n.len()) != n by {
        assert(s.subrange(j, j + n.len())[0] == a[j]);
        assert(a.contains(a[j]));
    }
    crate::text::law_replaced(s, n, remote, i);
    assert(s.subrange(0, i) =~= a);
    assert(s.subrange(i + n.len(), s.len() as int) =~= b);
    lemma_no_brace(b, remote);
    lemma_no_brace(a, remote);
}

proof fn lemma_no_brace(b: Seq<char>, remote: Seq<char>)
    requires
        !b.contains('{'),
    ensures
        replaced(b, "{image}"@, remote) == b,
{
    reveal_strlit("{image}");
    let n = "{image}"@;
    assert(n[0] == '{');
    assert forall|j: int| 0 <= j && j + n.len() <= b.len() implies #[trigger] b.subrange(
        j,
        j + n.len(),
    ) != n by {
        assert(b.subrange(j, j + n.len())[0] == b[j]);
        assert(b.contains(b[j]));
    }
    crate::text::law_replaced(b, n, remote, 0);
}

/// Law: after a command ran out of time the target is disconnected where the line is
/// gone, off where it stays silent, and otherwise what it answers is taken in; a
/// finished boot makes it active.
pub proof fn law_silence_after_a_timeout(v: EngineView, data: Seq<u8>, t: Times)
    ensures
        v.probed_after_timeout(None, t).0.state.current == TargetState::Disconnected,
        v.probed_after_timeout(Some(Seq::empty()), t).0.state.current == TargetState::DutOff,
        data.len() > 0 && boot_complete(v.logged(data).0.detected(data, t.detector as int).1)
            ==> v.probed_after_timeout(Some(data), t).0.state.current == TargetState::Active,
        data.len() > 0 ==> v.probed_after_timeout(Some(data), t).0.state.last_data_time == t.state,
        data.len() > 0 && !boot_complete(v.logged(data).0.detected(data, t.detector as int).1)
            ==> v.probed_after_timeout(Some(data), t).0.state.current == v.state.current,
{
}

/// Law: a pattern that is no longer watched has no watcher, and all others stay.
pub proof fn law_unwatched(v: EngineView, pattern: Seq<char>, w: WatcherView)
    requires
        bytes_pattern_valid(pattern),
    ensures
        v.unwatched(pattern).detector.watchers.contains(w) <==> v.detector.watchers.contains(w)
            && w.pattern != pattern,
{
    broadcast use vstd::seq_lib::group_filter_ensures;

    let keep = |w: WatcherView| w.pattern != pattern;
    let ws = v.detector.watchers;
    let f = ws.filter(keep);
    if f.contains(w) {
        let i = choose|i: int| 0 <= i < f.len() && f[i] == w;
        assert(keep(f[i]));
        ws.lemma_filter_contains_rev(keep, w);
    }
    if ws.contains(w) && w.pattern != pattern {
        assert(keep(w));
    }
}

/// Law: a prompt is found by its name, with its title and its argument; no other name
/// is one.
#[verifier::rlimit(50)]
pub proof fn law_prompts_by_name(name: Seq<char>)
    ensures
        ({
            let i = prompt_from(name, 0);
            &&& name == "debug_boot"@ ==> i is Some && prompt_title(i->0) == "Debug target boot process"@ && prompt_argument(i->0) is None
            &&& name == "debug_kernel"@ ==> i is Some && prompt_title(i->0) == "Diagnose kernel crashes"@ && (prompt_argument(i->0) matches Some((n, _, r)) && n == "lines"@ && !r)
            &&& name == "check_status"@ ==> i is Some && prompt_title(i->0) == "Quick target health check"@ && prompt_argument(i->0) is None
            &&& name == "send_and_check"@ ==> i is Some && prompt_title(i->0) == "Send command to target"@ && (prompt_argument(i->0) matches Some((n, _, r)) && n == "command"@ && r)
            &&& name == "boot-capture"@ ==> i is Some && prompt_title(i->0) == "Capture a clean boot log for StageLearner"@ && prompt_argument(i->0) is None
            &&& name == "crash-diagnose"@ ==> i is Some && prompt_title(i->0) == "Check if target has crashed and retrieve crash log"@ && prompt_argument(i->0) is None
            &&& name == "uboot-recovery"@ ==> i is Some && prompt_title(i->0) == "Enter U-Boot for recovery"@ && prompt_argument(i->0) is None
            &&& name != "debug_boot"@ && name != "debug_kernel"@ && name != "check_status"@ && name != "send_and_check"@ && name != "boot-capture"@ && name != "crash-diagnose"@ && name != "uboot-recovery"@ ==> i is None
        }),
{
    reveal_with_fuel(prompt_from, 8);
    reveal_strlit("debug_boot");
    assert(method_tag("debug_boot"@) == 10116);
    reveal_strlit("debug_kernel");
    assert(method_tag("debug_kernel"@) == 12108);
    reveal_strlit("check_status");
    assert(method_tag("check_status"@) == 12115);
    reveal_strlit("send_and_check");
    assert(method_tag("send_and_check"@) == 14107);
    reveal_strlit("boot-capture");
    assert(method_tag("boot-capture"@) == 12101);
    reveal_strlit("crash-diagnose");
    assert(method_tag("crash-diagnose"@) == 14101);
    reveal_strlit("uboot-recovery");
    assert(method_tag("uboot-recovery"@) == 14121);
}

/// Law: a command is refused where the target is off; one that takes the target down is
/// sent without waiting; every other one runs.
pub proof fn law_planning_a_command(state: TargetState, command: &str, r: CommandPlan)
    requires
        call_ensures(plan_command, (state, command), r),
    ensures
        r is Refuse <==> state == TargetState::DutOff,
        r is SendOnly <==> state != TargetState::DutOff && (trim(command@) == "reboot"@ || trim(
            command@,
        ) == "poweroff"@ || trim(command@) == "shutdown"@),
        r matches CommandPlan::SendOnly(s) ==> s@ == trim(command@) + " sent"@,
{
}

/// Law: power is taken from the channel for at least three seconds and given back; without
/// a board or a channel nothing is done.
pub proof fn law_power_cycling(e: SerialEngine, r: Option<Vec<crate::relay_manager::RelayStep>>)
    requires
        call_ensures(SerialEngine::power_cycle_target, (&e,), r),
    ensures
        ({
            let ch = crate::config::number(e.config.values@, "POWER_CHANNEL"@, 255, 0);
            let off = crate::config::number(e.config.values@, "POWER_OFF_TIME_MS"@, u64::MAX as nat, 3000);
            &&& r is Some <==> e.relay.port > 0 && ch > 0
            &&& r matches Some(s) ==> {
                &&& s@.len() == 3
                &&& s@[0] == crate::relay_manager::RelayStep::Off(ch as u8)
                &&& s@[2] == crate::relay_manager::RelayStep::On(ch as u8)
                &&& crate::relay_manager::waited(s@, 3) >= 3000
                &&& off >= 3000 ==> crate::relay_manager::waited(s@, 3) == off
            }
        }),
{
    let m = e.config.values@;
    crate::config::lemma_number_bounded(m, "POWER_CHANNEL"@, 255, 0);
    crate::config::lemma_number_bounded(m, "POWER_OFF_TIME_MS"@, u64::MAX as nat, 3000);
    reveal_with_fuel(crate::relay_manager::waited, 4);
}

/// Law: an address is split at its last colon: the host before it and the port behind it,
/// 3000 where that is no port; without a colon every address is listened on.
pub proof fn law_splitting_an_address(bind: &str, r: (String, u16), host: Seq<char>, n: nat)
    requires
        call_ensures(split_bind, (bind,), r),
    ensures
        bind@ == host + seq![':'] + decimal(n) && n <= 65535 ==> r.0@ == host && r.1 == n,
        bind@ == host + seq![':'] ==> r.0@ == host && r.1 == 3000,
        !bind@.contains(':') ==> r.0@ == "0.0.0.0"@ && r.1 == 3000,
{
    crate::text::lemma_decimal_digits(n);
    crate::text::law_parse_unsigned(n, u16::MAX as nat);
    crate::text::law_no_digits_no_number(u16::MAX as nat, 0, 0);
    let s = bind@;
    let d = decimal(n);
    assert(!d.contains(':')) by {
        if d.contains(':') {
            let i = choose|i: int| 0 <= i < d.len() && d[i] == ':';
            assert(crate::text::is_digit(d[i]));
        }
    }
    let e = Seq::<char>::empty();
    if s == host + seq![':'] + d {
        lemma_last_colon(host, d);
        assert(s.subrange(0, host.len() as int) =~= host);
        assert(s.subrange(host.len() as int + 1, s.len() as int) =~= d);
    }
    if s == host + seq![':'] {
        lemma_last_colon(host, e);
        assert(host + seq![':'] + e =~= s);
        assert(s.subrange(0, host.len() as int) =~= host);
        assert(s.subrange(host.len() as int + 1, s.len() as int) =~= e);
    }
    if !s.contains(':') {
        reveal_strlit(":");
        assert(":"@ =~= seq![':']);
        crate::text::law_occurrences(s, ":"@);
        if let Some(i) = rfind_seq(s, ":"@) {
            assert(s.subrange(i, i + 1)[0] == s[i]);
            assert(s.contains(s[i]));
        }
    }
}

proof fn lemma_last_colon(a: Seq<char>, b: Seq<char>)
    requires
        !b.contains(':'),
    ensures
        last_colon(a + seq![':'] + b) == Some(a.len() as int),
{
    reveal_strlit(":");
    let c = ":"@;
    assert(c =~= seq![':']);
    let s = a + seq![':'] + b;
    let k = a.len() as int;
    crate::text::law_occurrences(s, c);
    assert(s.subrange(k, k + 1) =~= c);
    if let Some(i) = rfind_seq(s, c) {
        assert(s.subrange(i, i + 1)[0] == s[i]);
        assert(s.subrange(i, i + c.len()) == c);
        if i > k {
            assert(s[i] == b[i - k - 1]);
            assert(b.contains(b[i - k - 1]));
        }
        if i < k {
            assert(s.subrange(k, k + c.len()) != c);
        }
    } else {
        assert(s.subrange(k, k + c.len()) != c);
    }
}

/// Law: an image is copied, checked and written, in this order, on the host that has the
/// tool, by the command for its kind.
pub proof fn law_flash_plans(
    config: &Config,
    path: &str,
    file: &str,
    kind: &str,
    r: Option<FlashPlan>,
)
    requires
        call_ensures(build_flash_plan, (config, path, file, kind), r),
    ensures
        r is Some <==> lookup(config.values@, "FLASH_TOOL"@).len() > 0,
        r matches Some(p) ==> {
            let login = p.dev_user@ + "@"@ + p.dev_host@;
            &&& p.dev_host@ == lookup(config.values@, "DEV_HOST_IP"@)
            &&& p.remote_path@ == p.upload_dir@ + "/"@ + file@
            &&& p.steps@.len() == 3
            &&& p.steps@[0]@ == "scp "@ + path@ + " "@ + login + ":"@ + p.remote_path@
            &&& p.steps@[1]@ == "ssh "@ + login + " 'sha256sum "@ + p.remote_path@ + "'"@
            &&& p.steps@[2]@ == "ssh "@ + login + " '"@ + p.tool@ + " "@ + p.selected_flash_cmd@
                + "'"@
            &&& kind@ == "kernel"@ ==> p.selected_flash_cmd@ == p.kernel_image_cmd@
            &&& kind@ != "kernel"@ ==> p.selected_flash_cmd@ == p.full_image_cmd@
            &&& p.loader_bin@.len() == 0 ==> p.loader_cmd@.len() == 0
            &&& lookup(config.values@, "DEV_HOST_USER"@).len() > 0 ==> p.dev_user@ == lookup(
                config.values@,
                "DEV_HOST_USER"@,
            )
        },
{
    if let Some(p) = r {
        let t = texts(p.steps@);
        assert(t.len() == p.steps@.len());
        assert(t[0] == p.steps@[0]@);
        assert(t[1] == p.steps@[1]@);
        assert(t[2] == p.steps@[2]@);
    }
}

/// Law: a message that introduces the client, or says that it is ready, opens the server,
/// which stays open; the tools stay as they are.
pub proof fn law_handling_a_message(
    s: &mut McpServer,
    jsonrpc: &str,
    method: Option<&str>,
    r: Route,
)
    requires
        call_ensures(McpServer::handle_message, (s, jsonrpc, method), r),
    ensures
        old(s).initialized ==> final(s).initialized,
        final(s).initialized && !old(s).initialized ==> jsonrpc@ == "2.0"@ && method is Some && (
        method->0@ == "initialize"@ || method->0@ == "notifications/initialized"@),
        jsonrpc@ == "2.0"@ && method is Some && (method->0@ == "initialize"@ || method->0@
            == "notifications/initialized"@) ==> final(s).initialized,
        final(s).tools == old(s).tools,
        jsonrpc@ != "2.0"@ ==> r@ is Error && r@->Error_0 == -32600,
{
    if let Some(m) = method {
        law_methods_have_answers(old(s).initialized, m@);
    }
}

/// Law: a message with an answer is accepted with it, one without with no content.
pub proof fn law_http_answers(answered: bool, r: u16)
    requires
        call_ensures(http_status, (answered,), r),
    ensures
        answered <==> r == 200,
        !answered <==> r == 202,
{
}

/// Law: the resources are the archives, each under its number, and the state behind them.
pub proof fn law_resource_lists(
    archives: &Vec<crate::log_manager::ArchiveInfo>,
    r: Vec<ResourceDef>,
    i: int,
)
    requires
        call_ensures(build_resources_list, (archives,), r),
    ensures
        r@.len() == archives@.len() + 1,
        resource_at(r@.last().uri@) == ResourceRef::State,
        0 <= i < archives@.len() ==> resource_at(r@[i].uri@) == ResourceRef::Log(
            archives@[i].index,
        ),
{
    law_resources(Seq::empty(), Seq::empty());
    if 0 <= i < archives@.len() {
        law_listed_logs_are_found(archives@[i].index);
    }
}

} // verus!
