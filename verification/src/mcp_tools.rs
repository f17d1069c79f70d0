//! The tools that clients can call: what each is called, what it takes, and how
//! the arguments of a call are read.

use crate::state_manager::SECOND;
use crate::text::{contains_text, eq_text, occurs, text_option};
use vstd::prelude::*;
use vstd::string::*;

verus! {

// ── Descriptions ────────────────────────────────────────────────────────────

/// What a parameter holds.
#[derive(Debug, Clone, Copy, PartialEq, Eq, Structural)]
pub enum ParamKind {
    Text,
    Integer,
    Number,
    Flag,
}

/// What a parameter holds where it is left out.
#[derive(Debug, Clone, Copy, PartialEq, Eq, Structural)]
pub enum ParamDefault {
    Integer(u64),
    /// A number, in tenths.
    Tenths(u64),
    Flag(bool),
}

/// A parameter of a tool.
pub struct ParamDef {
    pub name: &'static str,
    pub kind: ParamKind,
    pub default: Option<ParamDefault>,
    pub description: &'static str,
    pub required: bool,
}

/// The model of a `ParamDef`.
pub struct ParamView {
    pub name: Seq<char>,
    pub kind: ParamKind,
    pub default: Option<ParamDefault>,
    pub description: Seq<char>,
    pub required: bool,
}

impl View for ParamDef {
    type V = ParamView;

    open spec fn view(&self) -> ParamView {
        ParamView {
            name: self.name@,
            kind: self.kind,
            default: self.default,
            description: self.description@,
            required: self.required,
        }
    }
}

/// The models of a list of parameters.
pub open spec fn params_of(v: Seq<ParamDef>) -> Seq<ParamView> {
    v.map_values(|p: ParamDef| p@)
}

/// A parameter.
pub open spec fn param(
    name: Seq<char>,
    kind: ParamKind,
    default: Option<ParamDefault>,
    required: bool,
    description: Seq<char>,
) -> ParamView {
    ParamView { name, kind, default, description, required }
}

/// A tool.
pub struct ToolDef {
    pub name: &'static str,
    pub description: &'static str,
    pub params: Vec<ParamDef>,
}

/// The number of tools.
pub const TOOL_COUNT: usize = 28;

/// The name of a tool.
pub open spec fn tool_name(i: int) -> Seq<char> {
    if i == 0 {
        "serial_send_command"@
    } else if i == 1 {
        "serial_get_state"@
    } else if i == 2 {
        "serial_get_logs"@
    } else if i == 3 {
        "serial_list_logs"@
    } else if i == 4 {
        "serial_reset"@
    } else if i == 5 {
        "serial_power_cycle"@
    } else if i == 6 {
        "serial_enter_uboot"@
    } else if i == 7 {
        "serial_reboot_uboot"@
    } else if i == 8 {
        "serial_enter_maskrom"@
    } else if i == 9 {
        "serial_wait_pattern"@
    } else if i == 10 {
        "serial_uboot_command"@
    } else if i == 11 {
        "serial_new_log"@
    } else if i == 12 {
        "serial_poll_logs"@
    } else if i == 13 {
        "serial_get_config"@
    } else if i == 14 {
        "serial_get_metrics"@
    } else if i == 15 {
        "serial_claim"@
    } else if i == 16 {
        "serial_load_reference"@
    } else if i == 17 {
        "serial_get_unclassified"@
    } else if i == 18 {
        "serial_append_reference"@
    } else if i == 19 {
        "serial_get_stages"@
    } else if i == 20 {
        "serial_learn_connection"@
    } else if i == 21 {
        "serial_verify_relay"@
    } else if i == 22 {
        "serial_button"@
    } else if i == 23 {
        "serial_flash_plan"@
    } else if i == 24 {
        "serial_pause"@
    } else if i == 25 {
        "serial_resume"@
    } else if i == 26 {
        "serial_send_raw"@
    } else {
        "serial_flash"@
    }
}

/// What a tool does.
pub open spec fn tool_description(i: int) -> Seq<char> {
    if i == 0 {
        "Send a shell command to the target and return the output."@
    } else if i == 1 {
        "Get the current target state and metadata."@
    } else if i == 2 {
        "Retrieve serial log content with optional filtering."@
    } else if i == 3 {
        "List all archived boot logs."@
    } else if i == 4 {
        "Hardware reset target via relay and rotate log."@
    } else if i == 5 {
        "Power cycle the target via relay: OFF → wait (≥3s) → ON. Requires power_ch configured in .target.toml [dut.relay]."@
    } else if i == 6 {
        "Force target into U-Boot interactive prompt via relay reset + continuous interrupt-character flood. Uses UBOOT_INTERRUPT_CHAR, so boards that need a byte other than Ctrl-C are supported. Retries up to failure_retry times on timeout."@
    } else if i == 7 {
        "Soft reboot from Linux + continuous Ctrl-C flood to enter U-Boot prompt. Works even with bootdelay=0. Retries up to failure_retry times on timeout."@
    } else if i == 8 {
        "Force target into Rockchip MASKROM (loader) mode via relay sequence. Pulls MASKROM pin low, pulses RESET, then releases MASKROM. Target will appear as a Rockchip USB device on the Dev Host."@
    } else if i == 9 {
        "Wait until a regex pattern appears in serial output."@
    } else if i == 10 {
        "Send a raw command at U-Boot prompt (=> ) and return output. Use after serial_enter_uboot."@
    } else if i == 11 {
        "Manually rotate log without hardware reset."@
    } else if i == 12 {
        "Get new serial output since last poll (long-polling)."@
    } else if i == 13 {
        "Get current target configuration."@
    } else if i == 14 {
        "Get engine metrics: uptime, command count, error count, pending commands."@
    } else if i == 15 {
        "Claim serial ownership for this session. Releases the lock from any other session and reconnects the serial. Only works if no other session is actively using the serial."@
    } else if i == 16 {
        "Load a reference boot log to enable adaptive stage detection for a new/unknown SOC. The reference log should be a complete boot log (DDR→SPL→U-Boot→Kernel→Shell). After loading, the stage detector uses text similarity to identify stages instead of hardcoded regex patterns."@
    } else if i == 17 {
        "Get serial output lines that StageLearner could not classify into any known boot stage. Use this to identify new boot patterns, then call serial_append_reference to add them to the reference log for future detection."@
    } else if i == 18 {
        "Append key anchor lines to the reference boot log and hot-reload StageLearner. Use after analyzing unclassified lines from serial_get_unclassified. The lines become new fingerprints — StageLearner will match them on future boot cycles without restart. Choose distinctive lines that mark a boot stage boundary (e.g. 'DDR fdeec6f4fc typ...', 'U-Boot SPL board init', 'Linux version 5.10.0'). Avoid lines with timestamps, memory addresses, or random numbers."@
    } else if i == 19 {
        "Get the learned stage fingerprints from the reference log (if loaded). Shows what patterns the adaptive detector uses for each boot stage."@
    } else if i == 20 {
        "Run connection learning to verify serial connectivity. Performs 3x hardware reset (if relay configured) or software reboot cycles, compares boot log similarity. If similarity >= 93%, generates reference boot log for stage detection. If relay reset similarity < 10%, marks relay as broken and suggests software reboot fallback."@
    } else if i == 21 {
        "Verify CH340 relay control by sending ON/OFF commands and reading back state. Returns whether the relay is controllable and responding correctly."@
    } else if i == 22 {
        "Control a DUT button (reset/recovery/maskrom) via the power control abstraction. Supports press, release, and pulse actions. Buttons must be configured in .target.toml [relay] section."@
    } else if i == 23 {
        "Generate a flash plan from .target.toml [flash] config. Resolves symlinks, computes upload path, shows the flash commands that will be executed. Does NOT execute anything — use serial_flash to execute."@
    } else if i == 24 {
        "Pause the serial engine — stops read loop, watchdog heartbeat, and all Agent-initiated serial output. Use before taking over the serial port with dutabo serial. Call serial_resume to resume."@
    } else if i == 25 {
        "Resume the serial engine after serial_pause. Restarts read loop and watchdog."@
    } else if i == 26 {
        "Send raw bytes to the serial port without any markers or command wrapping. Use for interactive terminal sessions (dutabo serial)."@
    } else {
        "Execute firmware flash to target device. Uploads image to dev host, verifies sha256, optionally enters MASKROM and flashes loader, then flashes the main image. Requires [flash] section in .target.toml. WARNING: This modifies the target device firmware."@
    }
}

/// The parameters of a tool.
pub open spec fn tool_params(i: int) -> Seq<ParamView> {
    if i == 0 {
        seq![
            param(
                "command"@,
                ParamKind::Text,
                None,
                true,
                "Shell command to execute"@,
            ),
            param(
                "timeout"@,
                ParamKind::Integer,
                Some(ParamDefault::Integer(90)),
                false,
                "Timeout in seconds"@,
            ),
        ]
    } else if i == 2 {
        seq![
            param(
                "lines"@,
                ParamKind::Integer,
                Some(ParamDefault::Integer(50)),
                false,
                "Number of lines to return"@,
            ),
            param(
                "pattern"@,
                ParamKind::Text,
                None,
                false,
                "Regex filter pattern"@,
            ),
            param(
                "archive"@,
                ParamKind::Integer,
                Some(ParamDefault::Integer(0)),
                false,
                "Archive index (0=current)"@,
            ),
        ]
    } else if i == 4 {
        seq![
            param(
                "wait_boot"@,
                ParamKind::Flag,
                Some(ParamDefault::Flag(true)),
                false,
                "Wait for boot to complete"@,
            ),
            param(
                "failure_retry"@,
                ParamKind::Integer,
                Some(ParamDefault::Integer(3)),
                false,
                "Retry the reset+wait on timeout (lava RetryAction semantics)"@,
            ),
            param(
                "failure_retry_interval"@,
                ParamKind::Number,
                Some(ParamDefault::Tenths(10)),
                false,
                "Seconds between retries"@,
            ),
        ]
    } else if i == 5 {
        seq![
            param(
                "wait_boot"@,
                ParamKind::Flag,
                Some(ParamDefault::Flag(true)),
                false,
                "Wait for boot to complete after power-on"@,
            ),
        ]
    } else if i == 6 {
        seq![
            param(
                "failure_retry"@,
                ParamKind::Integer,
                Some(ParamDefault::Integer(3)),
                false,
                "Number of retry attempts on timeout"@,
            ),
            param(
                "failure_retry_interval"@,
                ParamKind::Number,
                Some(ParamDefault::Tenths(10)),
                false,
                "Seconds between retries"@,
            ),
            param(
                "flood_duration_secs"@,
                ParamKind::Number,
                Some(ParamDefault::Tenths(150)),
                false,
                "Total interrupt-character flood duration (must cover SPL→U-Boot window, typically 3-8s)"@,
            ),
            param(
                "flood_interval_ms"@,
                ParamKind::Integer,
                Some(ParamDefault::Integer(100)),
                false,
                "Interval between interrupt bytes (100ms = 10 bytes/s, avoids UART FIFO overflow)"@,
            ),
        ]
    } else if i == 7 {
        seq![
            param(
                "failure_retry"@,
                ParamKind::Integer,
                Some(ParamDefault::Integer(3)),
                false,
                "Number of retry attempts on timeout"@,
            ),
            param(
                "failure_retry_interval"@,
                ParamKind::Number,
                Some(ParamDefault::Tenths(10)),
                false,
                "Seconds between retries"@,
            ),
            param(
                "flood_interval_ms"@,
                ParamKind::Integer,
                Some(ParamDefault::Integer(100)),
                false,
                "Interval between Ctrl-C bytes (100ms)"@,
            ),
        ]
    } else if i == 9 {
        seq![
            param(
                "pattern"@,
                ParamKind::Text,
                None,
                true,
                "Regex pattern to match"@,
            ),
            param(
                "timeout"@,
                ParamKind::Integer,
                Some(ParamDefault::Integer(60)),
                false,
                "Timeout in seconds"@,
            ),
            param(
                "action"@,
                ParamKind::Text,
                None,
                false,
                "Optional action (e.g. send_ctrl_c)"@,
            ),
        ]
    } else if i == 10 {
        seq![
            param(
                "command"@,
                ParamKind::Text,
                None,
                true,
                "U-Boot command (e.g. 'version', 'help', 'reboot loader', 'rockusb 0 mmc 0')"@,
            ),
            param(
                "timeout"@,
                ParamKind::Integer,
                Some(ParamDefault::Integer(15)),
                false,
                "Timeout in seconds"@,
            ),
        ]
    } else if i == 12 {
        seq![
            param(
                "since"@,
                ParamKind::Number,
                None,
                false,
                "Timestamp from previous poll"@,
            ),
            param(
                "timeout"@,
                ParamKind::Integer,
                Some(ParamDefault::Integer(10)),
                false,
                "Long-poll timeout in seconds"@,
            ),
        ]
    } else if i == 16 {
        seq![
            param(
                "reference_log_path"@,
                ParamKind::Text,
                None,
                true,
                "Absolute path to the reference boot log file"@,
            ),
        ]
    } else if i == 18 {
        seq![
            param(
                "lines"@,
                ParamKind::Text,
                None,
                true,
                "Key anchor lines to append (newline-separated). Pick distinctive lines that mark a boot stage boundary."@,
            ),
        ]
    } else if i == 20 {
        seq![
            param(
                "method"@,
                ParamKind::Text,
                None,
                false,
                "Learning method: 'hardware' (relay reset, default), 'software' (reboot command), or 'auto' (try hardware first, fallback to software)"@,
            ),
        ]
    } else if i == 22 {
        seq![
            param(
                "button"@,
                ParamKind::Text,
                None,
                true,
                "Button name: 'reset', 'maskrom', or 'recovery'"@,
            ),
            param(
                "action"@,
                ParamKind::Text,
                None,
                true,
                "Action: 'press', 'release', or 'pulse' (press+delay+release)"@,
            ),
            param(
                "delay_ms"@,
                ParamKind::Integer,
                None,
                false,
                "Delay in milliseconds for pulse action (default: 500)"@,
            ),
        ]
    } else if i == 23 {
        seq![
            param(
                "image_path"@,
                ParamKind::Text,
                None,
                true,
                "Local path to the firmware image (e.g. update.img or boot.img)"@,
            ),
            param(
                "image_type"@,
                ParamKind::Text,
                None,
                false,
                "Image type: 'full' (complete firmware) or 'kernel' (kernel/boot only). Default: auto-detect from flash config."@,
            ),
        ]
    } else if i == 26 {
        seq![
            param(
                "data"@,
                ParamKind::Text,
                None,
                true,
                "Raw data to send (supports \\n, \\r, \\x03 for Ctrl-C etc.)"@,
            ),
        ]
    } else if i == 27 {
        seq![
            param(
                "image_path"@,
                ParamKind::Text,
                None,
                true,
                "Local path to the firmware image (e.g. update.img)"@,
            ),
            param(
                "image_type"@,
                ParamKind::Text,
                None,
                false,
                "Image type: 'full' (default) or 'kernel'"@,
            ),
            param(
                "skip_upload"@,
                ParamKind::Flag,
                None,
                false,
                "Skip upload if image already on dev host (default: false)"@,
            ),
        ]
    } else {
        Seq::empty()
    }
}

fn params_0() -> (r: Vec<ParamDef>)
    ensures
        params_of(r@) == tool_params(0),
{
    let mut r: Vec<ParamDef> = Vec::new();
    r.push(
        ParamDef {
            name: "command",
            kind: ParamKind::Text,
            default: None,
            description: "Shell command to execute",
            required: true,
        },
    );
    r.push(
        ParamDef {
            name: "timeout",
            kind: ParamKind::Integer,
            default: Some(ParamDefault::Integer(90)),
            description: "Timeout in seconds",
            required: false,
        },
    );
    assert(params_of(r@) =~= tool_params(0));
    r
}

fn params_2() -> (r: Vec<ParamDef>)
    ensures
        params_of(r@) == tool_params(2),
{
    let mut r: Vec<ParamDef> = Vec::new();
    r.push(
        ParamDef {
            name: "lines",
            kind: ParamKind::Integer,
            default: Some(ParamDefault::Integer(50)),
            description: "Number of lines to return",
            required: false,
        },
    );
    r.push(
        ParamDef {
            name: "pattern",
            kind: ParamKind::Text,
            default: None,
            description: "Regex filter pattern",
            required: false,
        },
    );
    r.push(
        ParamDef {
            name: "archive",
            kind: ParamKind::Integer,
            default: Some(ParamDefault::Integer(0)),
            description: "Archive index (0=current)",
            required: false,
        },
    );
    assert(params_of(r@) =~= tool_params(2));
    r
}

fn params_4() -> (r: Vec<ParamDef>)
    ensures
        params_of(r@) == tool_params(4),
{
    let mut r: Vec<ParamDef> = Vec::new();
    r.push(
        ParamDef {
            name: "wait_boot",
            kind: ParamKind::Flag,
            default: Some(ParamDefault::Flag(true)),
            description: "Wait for boot to complete",
            required: false,
        },
    );
    r.push(
        ParamDef {
            name: "failure_retry",
            kind: ParamKind::Integer,
            default: Some(ParamDefault::Integer(3)),
            description: "Retry the reset+wait on timeout (lava RetryAction semantics)",
            required: false,
        },
    );
    r.push(
        ParamDef {
            name: "failure_retry_interval",
            kind: ParamKind::Number,
            default: Some(ParamDefault::Tenths(10)),
            description: "Seconds between retries",
            required: false,
        },
    );
    assert(params_of(r@) =~= tool_params(4));
    r
}

fn params_5() -> (r: Vec<ParamDef>)
    ensures
        params_of(r@) == tool_params(5),
{
    let mut r: Vec<ParamDef> = Vec::new();
    r.push(
        ParamDef {
            name: "wait_boot",
            kind: ParamKind::Flag,
            default: Some(ParamDefault::Flag(true)),
            description: "Wait for boot to complete after power-on",
            required: false,
        },
    );
    assert(params_of(r@) =~= tool_params(5));
    r
}

fn params_6() -> (r: Vec<ParamDef>)
    ensures
        params_of(r@) == tool_params(6),
{
    let mut r: Vec<ParamDef> = Vec::new();
    r.push(
        ParamDef {
            name: "failure_retry",
            kind: ParamKind::Integer,
            default: Some(ParamDefault::Integer(3)),
            description: "Number of retry attempts on timeout",
            required: false,
        },
    );
    r.push(
        ParamDef {
            name: "failure_retry_interval",
            kind: ParamKind::Number,
            default: Some(ParamDefault::Tenths(10)),
            description: "Seconds between retries",
            required: false,
        },
    );
    r.push(
        ParamDef {
            name: "flood_duration_secs",
            kind: ParamKind::Number,
            default: Some(ParamDefault::Tenths(150)),
            description: "Total interrupt-character flood duration (must cover SPL→U-Boot window, typically 3-8s)",
            required: false,
        },
    );
    r.push(
        ParamDef {
            name: "flood_interval_ms",
            kind: ParamKind::Integer,
            default: Some(ParamDefault::Integer(100)),
            description: "Interval between interrupt bytes (100ms = 10 bytes/s, avoids UART FIFO overflow)",
            required: false,
        },
    );
    assert(params_of(r@) =~= tool_params(6));
    r
}

fn params_7() -> (r: Vec<ParamDef>)
    ensures
        params_of(r@) == tool_params(7),
{
    let mut r: Vec<ParamDef> = Vec::new();
    r.push(
        ParamDef {
            name: "failure_retry",
            kind: ParamKind::Integer,
            default: Some(ParamDefault::Integer(3)),
            description: "Number of retry attempts on timeout",
            required: false,
        },
    );
    r.push(
        ParamDef {
            name: "failure_retry_interval",
            kind: ParamKind::Number,
            default: Some(ParamDefault::Tenths(10)),
            description: "Seconds between retries",
            required: false,
        },
    );
    r.push(
        ParamDef {
            name: "flood_interval_ms",
            kind: ParamKind::Integer,
            default: Some(ParamDefault::Integer(100)),
            description: "Interval between Ctrl-C bytes (100ms)",
            required: false,
        },
    );
    assert(params_of(r@) =~= tool_params(7));
    r
}

fn params_9() -> (r: Vec<ParamDef>)
    ensures
        params_of(r@) == tool_params(9),
{
    let mut r: Vec<ParamDef> = Vec::new();
    r.push(
        ParamDef {
            name: "pattern",
            kind: ParamKind::Text,
            default: None,
            description: "Regex pattern to match",
            required: true,
        },
    );
    r.push(
        ParamDef {
            name: "timeout",
            kind: ParamKind::Integer,
            default: Some(ParamDefault::Integer(60)),
            description: "Timeout in seconds",
            required: false,
        },
    );
    r.push(
        ParamDef {
            name: "action",
            kind: ParamKind::Text,
            default: None,
            description: "Optional action (e.g. send_ctrl_c)",
            required: false,
        },
    );
    assert(params_of(r@) =~= tool_params(9));
    r
}

fn params_10() -> (r: Vec<ParamDef>)
    ensures
        params_of(r@) == tool_params(10),
{
    let mut r: Vec<ParamDef> = Vec::new();
    r.push(
        ParamDef {
            name: "command",
            kind: ParamKind::Text,
            default: None,
            description: "U-Boot command (e.g. 'version', 'help', 'reboot loader', 'rockusb 0 mmc 0')",
            required: true,
        },
    );
    r.push(
        ParamDef {
            name: "timeout",
            kind: ParamKind::Integer,
            default: Some(ParamDefault::Integer(15)),
            description: "Timeout in seconds",
            required: false,
        },
    );
    assert(params_of(r@) =~= tool_params(10));
    r
}

fn params_12() -> (r: Vec<ParamDef>)
    ensures
        params_of(r@) == tool_params(12),
{
    let mut r: Vec<ParamDef> = Vec::new();
    r.push(
        ParamDef {
            name: "since",
            kind: ParamKind::Number,
            default: None,
            description: "Timestamp from previous poll",
            required: false,
        },
    );
    r.push(
        ParamDef {
            name: "timeout",
            kind: ParamKind::Integer,
            default: Some(ParamDefault::Integer(10)),
            description: "Long-poll timeout in seconds",
            required: false,
        },
    );
    assert(params_of(r@) =~= tool_params(12));
    r
}

fn params_16() -> (r: Vec<ParamDef>)
    ensures
        params_of(r@) == tool_params(16),
{
    let mut r: Vec<ParamDef> = Vec::new();
    r.push(
        ParamDef {
            name: "reference_log_path",
            kind: ParamKind::Text,
            default: None,
            description: "Absolute path to the reference boot log file",
            required: true,
        },
    );
    assert(params_of(r@) =~= tool_params(16));
    r
}

fn params_18() -> (r: Vec<ParamDef>)
    ensures
        params_of(r@) == tool_params(18),
{
    let mut r: Vec<ParamDef> = Vec::new();
    r.push(
        ParamDef {
            name: "lines",
            kind: ParamKind::Text,
            default: None,
            description: "Key anchor lines to append (newline-separated). Pick distinctive lines that mark a boot stage boundary.",
            required: true,
        },
    );
    assert(params_of(r@) =~= tool_params(18));
    r
}

fn params_20() -> (r: Vec<ParamDef>)
    ensures
        params_of(r@) == tool_params(20),
{
    let mut r: Vec<ParamDef> = Vec::new();
    r.push(
        ParamDef {
            name: "method",
            kind: ParamKind::Text,
            default: None,
            description: "Learning method: 'hardware' (relay reset, default), 'software' (reboot command), or 'auto' (try hardware first, fallback to software)",
            required: false,
        },
    );
    assert(params_of(r@) =~= tool_params(20));
    r
}

fn params_22() -> (r: Vec<ParamDef>)
    ensures
        params_of(r@) == tool_params(22),
{
    let mut r: Vec<ParamDef> = Vec::new();
    r.push(
        ParamDef {
            name: "button",
            kind: ParamKind::Text,
            default: None,
            description: "Button name: 'reset', 'maskrom', or 'recovery'",
            required: true,
        },
    );
    r.push(
        ParamDef {
            name: "action",
            kind: ParamKind::Text,
            default: None,
            description: "Action: 'press', 'release', or 'pulse' (press+delay+release)",
            required: true,
        },
    );
    r.push(
        ParamDef {
            name: "delay_ms",
            kind: ParamKind::Integer,
            default: None,
            description: "Delay in milliseconds for pulse action (default: 500)",
            required: false,
        },
    );
    assert(params_of(r@) =~= tool_params(22));
    r
}

fn params_23() -> (r: Vec<ParamDef>)
    ensures
        params_of(r@) == tool_params(23),
{
    let mut r: Vec<ParamDef> = Vec::new();
    r.push(
        ParamDef {
            name: "image_path",
            kind: ParamKind::Text,
            default: None,
            description: "Local path to the firmware image (e.g. update.img or boot.img)",
            required: true,
        },
    );
    r.push(
        ParamDef {
            name: "image_type",
            kind: ParamKind::Text,
            default: None,
            description: "Image type: 'full' (complete firmware) or 'kernel' (kernel/boot only). Default: auto-detect from flash config.",
            required: false,
        },
    );
    assert(params_of(r@) =~= tool_params(23));
    r
}

fn params_26() -> (r: Vec<ParamDef>)
    ensures
        params_of(r@) == tool_params(26),
{
    let mut r: Vec<ParamDef> = Vec::new();
    r.push(
        ParamDef {
            name: "data",
            kind: ParamKind::Text,
            default: None,
            description: "Raw data to send (supports \\n, \\r, \\x03 for Ctrl-C etc.)",
            required: true,
        },
    );
    assert(params_of(r@) =~= tool_params(26));
    r
}

fn params_27() -> (r: Vec<ParamDef>)
    ensures
        params_of(r@) == tool_params(27),
{
    let mut r: Vec<ParamDef> = Vec::new();
    r.push(
        ParamDef {
            name: "image_path",
            kind: ParamKind::Text,
            default: None,
            description: "Local path to the firmware image (e.g. update.img)",
            required: true,
        },
    );
    r.push(
        ParamDef {
            name: "image_type",
            kind: ParamKind::Text,
            default: None,
            description: "Image type: 'full' (default) or 'kernel'",
            required: false,
        },
    );
    r.push(
        ParamDef {
            name: "skip_upload",
            kind: ParamKind::Flag,
            default: None,
            description: "Skip upload if image already on dev host (default: false)",
            required: false,
        },
    );
    assert(params_of(r@) =~= tool_params(27));
    r
}

fn params_at(i: usize) -> (r: Vec<ParamDef>)
    ensures
        params_of(r@) == tool_params(i as int),
{
    if i == 0 {
        params_0()
    } else if i == 2 {
        params_2()
    } else if i == 4 {
        params_4()
    } else if i == 5 {
        params_5()
    } else if i == 6 {
        params_6()
    } else if i == 7 {
        params_7()
    } else if i == 9 {
        params_9()
    } else if i == 10 {
        params_10()
    } else if i == 12 {
        params_12()
    } else if i == 16 {
        params_16()
    } else if i == 18 {
        params_18()
    } else if i == 20 {
        params_20()
    } else if i == 22 {
        params_22()
    } else if i == 23 {
        params_23()
    } else if i == 26 {
        params_26()
    } else if i == 27 {
        params_27()
    } else {
        let r: Vec<ParamDef> = Vec::new();
        assert(params_of(r@) =~= Seq::<ParamView>::empty());
        r
    }
}

fn name_at(i: usize) -> (r: &'static str)
    ensures
        r@ == tool_name(i as int),
{
    if i == 0 {
        "serial_send_command"
    } else if i == 1 {
        "serial_get_state"
    } else if i == 2 {
        "serial_get_logs"
    } else if i == 3 {
        "serial_list_logs"
    } else if i == 4 {
        "serial_reset"
    } else if i == 5 {
        "serial_power_cycle"
    } else if i == 6 {
        "serial_enter_uboot"
    } else if i == 7 {
        "serial_reboot_uboot"
    } else if i == 8 {
        "serial_enter_maskrom"
    } else if i == 9 {
        "serial_wait_pattern"
    } else if i == 10 {
        "serial_uboot_command"
    } else if i == 11 {
        "serial_new_log"
    } else if i == 12 {
        "serial_poll_logs"
    } else if i == 13 {
        "serial_get_config"
    } else if i == 14 {
        "serial_get_metrics"
    } else if i == 15 {
        "serial_claim"
    } else if i == 16 {
        "serial_load_reference"
    } else if i == 17 {
        "serial_get_unclassified"
    } else if i == 18 {
        "serial_append_reference"
    } else if i == 19 {
        "serial_get_stages"
    } else if i == 20 {
        "serial_learn_connection"
    } else if i == 21 {
        "serial_verify_relay"
    } else if i == 22 {
        "serial_button"
    } else if i == 23 {
        "serial_flash_plan"
    } else if i == 24 {
        "serial_pause"
    } else if i == 25 {
        "serial_resume"
    } else if i == 26 {
        "serial_send_raw"
    } else {
        "serial_flash"
    }
}

fn description_at(i: usize) -> (r: &'static str)
    ensures
        r@ == tool_description(i as int),
{
    if i == 0 {
        "Send a shell command to the target and return the output."
    } else if i == 1 {
        "Get the current target state and metadata."
    } else if i == 2 {
        "Retrieve serial log content with optional filtering."
    } else if i == 3 {
        "List all archived boot logs."
    } else if i == 4 {
        "Hardware reset target via relay and rotate log."
    } else if i == 5 {
        "Power cycle the target via relay: OFF → wait (≥3s) → ON. Requires power_ch configured in .target.toml [dut.relay]."
    } else if i == 6 {
        "Force target into U-Boot interactive prompt via relay reset + continuous interrupt-character flood. Uses UBOOT_INTERRUPT_CHAR, so boards that need a byte other than Ctrl-C are supported. Retries up to failure_retry times on timeout."
    } else if i == 7 {
        "Soft reboot from Linux + continuous Ctrl-C flood to enter U-Boot prompt. Works even with bootdelay=0. Retries up to failure_retry times on timeout."
    } else if i == 8 {
        "Force target into Rockchip MASKROM (loader) mode via relay sequence. Pulls MASKROM pin low, pulses RESET, then releases MASKROM. Target will appear as a Rockchip USB device on the Dev Host."
    } else if i == 9 {
        "Wait until a regex pattern appears in serial output."
    } else if i == 10 {
        "Send a raw command at U-Boot prompt (=> ) and return output. Use after serial_enter_uboot."
    } else if i == 11 {
        "Manually rotate log without hardware reset."
    } else if i == 12 {
        "Get new serial output since last poll (long-polling)."
    } else if i == 13 {
        "Get current target configuration."
    } else if i == 14 {
        "Get engine metrics: uptime, command count, error count, pending commands."
    } else if i == 15 {
        "Claim serial ownership for this session. Releases the lock from any other session and reconnects the serial. Only works if no other session is actively using the serial."
    } else if i == 16 {
        "Load a reference boot log to enable adaptive stage detection for a new/unknown SOC. The reference log should be a complete boot log (DDR→SPL→U-Boot→Kernel→Shell). After loading, the stage detector uses text similarity to identify stages instead of hardcoded regex patterns."
    } else if i == 17 {
        "Get serial output lines that StageLearner could not classify into any known boot stage. Use this to identify new boot patterns, then call serial_append_reference to add them to the reference log for future detection."
    } else if i == 18 {
        "Append key anchor lines to the reference boot log and hot-reload StageLearner. Use after analyzing unclassified lines from serial_get_unclassified. The lines become new fingerprints — StageLearner will match them on future boot cycles without restart. Choose distinctive lines that mark a boot stage boundary (e.g. 'DDR fdeec6f4fc typ...', 'U-Boot SPL board init', 'Linux version 5.10.0'). Avoid lines with timestamps, memory addresses, or random numbers."
    } else if i == 19 {
        "Get the learned stage fingerprints from the reference log (if loaded). Shows what patterns the adaptive detector uses for each boot stage."
    } else if i == 20 {
        "Run connection learning to verify serial connectivity. Performs 3x hardware reset (if relay configured) or software reboot cycles, compares boot log similarity. If similarity >= 93%, generates reference boot log for stage detection. If relay reset similarity < 10%, marks relay as broken and suggests software reboot fallback."
    } else if i == 21 {
        "Verify CH340 relay control by sending ON/OFF commands and reading back state. Returns whether the relay is controllable and responding correctly."
    } else if i == 22 {
        "Control a DUT button (reset/recovery/maskrom) via the power control abstraction. Supports press, release, and pulse actions. Buttons must be configured in .target.toml [relay] section."
    } else if i == 23 {
        "Generate a flash plan from .target.toml [flash] config. Resolves symlinks, computes upload path, shows the flash commands that will be executed. Does NOT execute anything — use serial_flash to execute."
    } else if i == 24 {
        "Pause the serial engine — stops read loop, watchdog heartbeat, and all Agent-initiated serial output. Use before taking over the serial port with dutabo serial. Call serial_resume to resume."
    } else if i == 25 {
        "Resume the serial engine after serial_pause. Restarts read loop and watchdog."
    } else if i == 26 {
        "Send raw bytes to the serial port without any markers or command wrapping. Use for interactive terminal sessions (dutabo serial)."
    } else {
        "Execute firmware flash to target device. Uploads image to dev host, verifies sha256, optionally enters MASKROM and flashes loader, then flashes the main image. Requires [flash] section in .target.toml. WARNING: This modifies the target device firmware."
    }
}

/// The tools, in order.
pub fn tool_definitions() -> (r: Vec<ToolDef>)
    ensures
        r@.len() == TOOL_COUNT,
        forall|i: int|
            0 <= i < TOOL_COUNT ==> (#[trigger] r@[i]).name@ == tool_name(i)
                && r@[i].description@ == tool_description(i) && params_of(r@[i].params@)
                == tool_params(i),
{
    let mut r: Vec<ToolDef> = Vec::new();
    let mut i: usize = 0;
    while i < TOOL_COUNT
        invariant
            i <= TOOL_COUNT,
            r@.len() == i,
            forall|j: int|
                0 <= j < i ==> (#[trigger] r@[j]).name@ == tool_name(j) && r@[j].description@
                    == tool_description(j) && params_of(r@[j].params@) == tool_params(j),
        decreases TOOL_COUNT - i,
    {
        r.push(ToolDef { name: name_at(i), description: description_at(i), params: params_at(i) });
        i = i + 1;
    }
    r
}

/// The place of a tool in the list, from `i` on.
pub open spec fn tool_from(name: Seq<char>, i: int) -> Option<int>
    decreases TOOL_COUNT - i,
{
    if i < 0 || i >= TOOL_COUNT {
        None
    } else if tool_name(i) == name {
        Some(i)
    } else {
        tool_from(name, i + 1)
    }
}

/// The place of a tool in the list.
pub open spec fn find_tool(name: Seq<char>) -> Option<int> {
    tool_from(name, 0)
}

/// The place of a tool in the list.
pub fn tool_index(name: &str) -> (r: Option<usize>)
    ensures
        crate::text::index_option(r) == find_tool(name@),
        r matches Some(i) ==> i < TOOL_COUNT,
{
    let mut i: usize = 0;
    while i < TOOL_COUNT
        invariant
            i <= TOOL_COUNT,
            tool_from(name@, 0) == tool_from(name@, i as int),
        decreases TOOL_COUNT - i,
    {
        if eq_text(name_at(i), name) {
            return Some(i);
        }
        i = i + 1;
    }
    None
}

// ── Arguments ───────────────────────────────────────────────────────────────

/// The value of an argument.
pub enum ArgValue {
    Flag(bool),
    /// A number: as an unsigned integer, where it is one, and as a time in
    /// seconds, given in nanoseconds.
    Number { unsigned: Option<u64>, nanos: u64 },
    Text(String),
    /// A value of another kind.
    Other,
}

/// The model of an `ArgValue`.
pub enum ArgView {
    Flag(bool),
    Number { unsigned: Option<u64>, nanos: u64 },
    Text(Seq<char>),
    Other,
}

impl View for ArgValue {
    type V = ArgView;

    open spec fn view(&self) -> ArgView {
        match *self {
            ArgValue::Flag(b) => ArgView::Flag(b),
            ArgValue::Number { unsigned, nanos } => ArgView::Number { unsigned, nanos },
            ArgValue::Text(s) => ArgView::Text(s@),
            ArgValue::Other => ArgView::Other,
        }
    }
}

/// A named argument.
pub struct Arg {
    pub name: String,
    pub value: ArgValue,
}

/// The models of a list of arguments: names and values.
pub open spec fn args_of(v: Seq<Arg>) -> Seq<(Seq<char>, ArgView)> {
    v.map_values(|a: Arg| (a.name@, a.value@))
}

/// The value of a name, from `i` on.
pub open spec fn arg_from(args: Seq<(Seq<char>, ArgView)>, name: Seq<char>, i: int) -> Option<
    ArgView,
>
    decreases args.len() - i,
{
    if i < 0 || i >= args.len() {
        None
    } else if args[i].0 == name {
        Some(args[i].1)
    } else {
        arg_from(args, name, i + 1)
    }
}

/// The text of an argument, where it is one.
pub open spec fn text_arg(args: Seq<(Seq<char>, ArgView)>, name: Seq<char>) -> Option<Seq<char>> {
    match arg_from(args, name, 0) {
        Some(ArgView::Text(s)) => Some(s),
        _ => None,
    }
}

/// The text of an argument; empty where it is none.
pub open spec fn word_arg(args: Seq<(Seq<char>, ArgView)>, name: Seq<char>) -> Seq<char> {
    match text_arg(args, name) {
        Some(s) => s,
        None => Seq::empty(),
    }
}

/// The unsigned integer of an argument, where it is one.
pub open spec fn integer_arg(args: Seq<(Seq<char>, ArgView)>, name: Seq<char>) -> Option<u64> {
    match arg_from(args, name, 0) {
        Some(ArgView::Number { unsigned, .. }) => unsigned,
        _ => None,
    }
}

/// The unsigned integer of an argument, or a default.
pub open spec fn count_arg(
    args: Seq<(Seq<char>, ArgView)>,
    name: Seq<char>,
    default: u64,
) -> u64 {
    match integer_arg(args, name) {
        Some(n) => n,
        None => default,
    }
}

/// The time of an argument in nanoseconds, or a default.
pub open spec fn time_arg(args: Seq<(Seq<char>, ArgView)>, name: Seq<char>, default: u64) -> u64 {
    match arg_from(args, name, 0) {
        Some(ArgView::Number { nanos, .. }) => nanos,
        _ => default,
    }
}

/// The flag of an argument, or a default.
pub open spec fn flag_arg(args: Seq<(Seq<char>, ArgView)>, name: Seq<char>, default: bool) -> bool {
    match arg_from(args, name, 0) {
        Some(ArgView::Flag(b)) => b,
        _ => default,
    }
}

fn find_arg<'a>(args: &'a [Arg], name: &str) -> (r: Option<&'a ArgValue>)
    ensures
        match r {
            Some(v) => arg_from(args_of(args@), name@, 0) == Some(v@),
            None => arg_from(args_of(args@), name@, 0) is None,
        },
{
    let ghost all = args_of(args@);
    let mut i: usize = 0;
    while i < args.len()
        invariant
            i <= args.len(),
            all == args_of(args@),
            arg_from(all, name@, 0) == arg_from(all, name@, i as int),
        decreases args.len() - i,
    {
        assert(all[i as int] == (args@[i as int].name@, args@[i as int].value@));
        if eq_text(&args[i].name, name) {
            return Some(&args[i].value);
        }
        i = i + 1;
    }
    None
}

fn read_text(args: &[Arg], name: &str) -> (r: Option<String>)
    ensures
        text_option(r) == text_arg(args_of(args@), name@),
{
    match find_arg(args, name) {
        Some(ArgValue::Text(s)) => Some(s.clone()),
        _ => None,
    }
}

fn read_word(args: &[Arg], name: &str) -> (r: String)
    ensures
        r@ == word_arg(args_of(args@), name@),
{
    match read_text(args, name) {
        Some(s) => s,
        None => String::new(),
    }
}

fn read_integer(args: &[Arg], name: &str) -> (r: Option<u64>)
    ensures
        r == integer_arg(args_of(args@), name@),
{
    match find_arg(args, name) {
        Some(ArgValue::Number { unsigned, .. }) => *unsigned,
        _ => None,
    }
}

fn read_count(args: &[Arg], name: &str, default: u64) -> (r: u64)
    ensures
        r == count_arg(args_of(args@), name@, default),
{
    match read_integer(args, name) {
        Some(n) => n,
        None => default,
    }
}

fn read_time(args: &[Arg], name: &str, default: u64) -> (r: u64)
    ensures
        r == time_arg(args_of(args@), name@, default),
{
    match find_arg(args, name) {
        Some(ArgValue::Number { nanos, .. }) => *nanos,
        _ => default,
    }
}

fn read_flag(args: &[Arg], name: &str, default: bool) -> (r: bool)
    ensures
        r == flag_arg(args_of(args@), name@, default),
{
    match find_arg(args, name) {
        Some(ArgValue::Flag(b)) => *b,
        _ => default,
    }
}

// ── Calls ───────────────────────────────────────────────────────────────────

/// How a connection is learned.
#[derive(Debug, Clone, Copy, PartialEq, Eq, Structural)]
pub enum LearnChoice {
    Hardware,
    Software,
    /// Hardware first, software where that fails.
    Auto,
}

/// The way of learning of a name: hardware unless it says otherwise.
pub open spec fn learn_choice(method: Option<Seq<char>>) -> LearnChoice {
    if method == Some("software"@) || method == Some("reboot"@) {
        LearnChoice::Software
    } else if method == Some("auto"@) {
        LearnChoice::Auto
    } else {
        LearnChoice::Hardware
    }
}

fn choose_learning(method: Option<String>) -> (r: LearnChoice)
    ensures
        r == learn_choice(text_option(method)),
{
    match method {
        Some(m) => if eq_text(&m, "software") || eq_text(&m, "reboot") {
            LearnChoice::Software
        } else if eq_text(&m, "auto") {
            LearnChoice::Auto
        } else {
            LearnChoice::Hardware
        },
        None => LearnChoice::Hardware,
    }
}

/// A pattern that looks like a prompt, so that a newline may provoke it.
pub open spec fn is_prompt_like(pattern: Seq<char>) -> bool {
    ||| occurs(pattern, "login"@)
    ||| occurs(pattern, "prompt"@)
    ||| occurs(pattern, "=>"@)
    ||| occurs(pattern, r"\$"@)
    ||| occurs(pattern, "#"@)
}

/// Whether a pattern looks like a prompt.
pub fn prompt_like(pattern: &str) -> (r: bool)
    ensures
        r == is_prompt_like(pattern@),
{
    contains_text(pattern, "login") || contains_text(pattern, "prompt") || contains_text(
        pattern,
        "=>",
    ) || contains_text(pattern, r"\$") || contains_text(pattern, "#")
}

/// A call of a tool. Times are nanoseconds unless the name says otherwise.
pub enum ToolCall {
    SendCommand { command: String, timeout: u64 },
    GetState,
    GetLogs { limit: u64, filter: Option<String>, archive: u64 },
    ListLogs,
    Reset { wait_boot: bool, failure_retry: u64, interval: u64 },
    PowerCycle { wait_boot: bool },
    EnterUboot { failure_retry: u64, interval: u64, flood_duration: u64, flood_interval_ms: u64 },
    RebootUboot { failure_retry: u64, interval: u64, flood_interval_ms: u64 },
    EnterMaskrom,
    WaitPattern { pattern: String, timeout: u64, send_ctrl_c: bool },
    UbootCommand { command: String, timeout: u64 },
    NewLog,
    PollLogs,
    GetConfig,
    GetMetrics,
    Claim,
    LoadReference { path: String },
    GetUnclassified,
    AppendReference { lines: String },
    GetStages,
    LearnConnection { choice: LearnChoice },
    VerifyRelay,
    Button { button: String, action: String, delay_ms: Option<u64> },
    FlashPlan { image_path: String, image_type: String },
    Pause,
    Resume,
    SendRaw { data: String },
    Flash { image_path: String },
}

/// The model of a `ToolCall`.
pub enum CallView {
    SendCommand { command: Seq<char>, timeout: u64 },
    GetState,
    GetLogs { limit: u64, filter: Option<Seq<char>>, archive: u64 },
    ListLogs,
    Reset { wait_boot: bool, failure_retry: u64, interval: u64 },
    PowerCycle { wait_boot: bool },
    EnterUboot { failure_retry: u64, interval: u64, flood_duration: u64, flood_interval_ms: u64 },
    RebootUboot { failure_retry: u64, interval: u64, flood_interval_ms: u64 },
    EnterMaskrom,
    WaitPattern { pattern: Seq<char>, timeout: u64, send_ctrl_c: bool },
    UbootCommand { command: Seq<char>, timeout: u64 },
    NewLog,
    PollLogs,
    GetConfig,
    GetMetrics,
    Claim,
    LoadReference { path: Seq<char> },
    GetUnclassified,
    AppendReference { lines: Seq<char> },
    GetStages,
    LearnConnection { choice: LearnChoice },
    VerifyRelay,
    Button { button: Seq<char>, action: Seq<char>, delay_ms: Option<u64> },
    FlashPlan { image_path: Seq<char>, image_type: Seq<char> },
    Pause,
    Resume,
    SendRaw { data: Seq<char> },
    Flash { image_path: Seq<char> },
}

impl View for ToolCall {
    type V = CallView;

    open spec fn view(&self) -> CallView {
        match *self {
            ToolCall::SendCommand { command, timeout } => CallView::SendCommand { command: command@, timeout },
            ToolCall::GetState => CallView::GetState,
            ToolCall::GetLogs { limit, filter, archive } => CallView::GetLogs { limit, filter: text_option(filter), archive },
            ToolCall::ListLogs => CallView::ListLogs,
            ToolCall::Reset { wait_boot, failure_retry, interval } => CallView::Reset { wait_boot, failure_retry, interval },
            ToolCall::PowerCycle { wait_boot } => CallView::PowerCycle { wait_boot },
            ToolCall::EnterUboot { failure_retry, interval, flood_duration, flood_interval_ms } => CallView::EnterUboot { failure_retry, interval, flood_duration, flood_interval_ms },
            ToolCall::RebootUboot { failure_retry, interval, flood_interval_ms } => CallView::RebootUboot { failure_retry, interval, flood_interval_ms },
            ToolCall::EnterMaskrom => CallView::EnterMaskrom,
            ToolCall::WaitPattern { pattern, timeout, send_ctrl_c } => CallView::WaitPattern { pattern: pattern@, timeout, send_ctrl_c },
            ToolCall::UbootCommand { command, timeout } => CallView::UbootCommand { command: command@, timeout },
            ToolCall::NewLog => CallView::NewLog,
            ToolCall::PollLogs => CallView::PollLogs,
            ToolCall::GetConfig => CallView::GetConfig,
            ToolCall::GetMetrics => CallView::GetMetrics,
            ToolCall::Claim => CallView::Claim,
            ToolCall::LoadReference { path } => CallView::LoadReference { path: path@ },
            ToolCall::GetUnclassified => CallView::GetUnclassified,
            ToolCall::AppendReference { lines } => CallView::AppendReference { lines: lines@ },
            ToolCall::GetStages => CallView::GetStages,
            ToolCall::LearnConnection { choice } => CallView::LearnConnection { choice },
            ToolCall::VerifyRelay => CallView::VerifyRelay,
            ToolCall::Button { button, action, delay_ms } => CallView::Button { button: button@, action: action@, delay_ms },
            ToolCall::FlashPlan { image_path, image_type } => CallView::FlashPlan { image_path: image_path@, image_type: image_type@ },
            ToolCall::Pause => CallView::Pause,
            ToolCall::Resume => CallView::Resume,
            ToolCall::SendRaw { data } => CallView::SendRaw { data: data@ },
            ToolCall::Flash { image_path } => CallView::Flash { image_path: image_path@ },
        }
    }
}

/// The call of the tool at a place, with its arguments read.
pub open spec fn call_at(i: int, args: Seq<(Seq<char>, ArgView)>) -> CallView {
    if i == 0 {
        CallView::SendCommand {
            command: word_arg(args, "command"@),
            timeout: time_arg(args, "timeout"@, (90 * SECOND) as u64),
        }
    } else if i == 1 {
        CallView::GetState
    } else if i == 2 {
        CallView::GetLogs {
            limit: count_arg(args, "lines"@, 50),
            filter: text_arg(args, "pattern"@),
            archive: count_arg(args, "archive"@, 0),
        }
    } else if i == 3 {
        CallView::ListLogs
    } else if i == 4 {
        CallView::Reset {
            wait_boot: flag_arg(args, "wait_boot"@, true),
            failure_retry: count_arg(args, "failure_retry"@, 3),
            interval: time_arg(args, "failure_retry_interval"@, (SECOND) as u64),
        }
    } else if i == 5 {
        CallView::PowerCycle {
            wait_boot: flag_arg(args, "wait_boot"@, true),
        }
    } else if i == 6 {
        CallView::EnterUboot {
            failure_retry: count_arg(args, "failure_retry"@, 3),
            interval: time_arg(args, "failure_retry_interval"@, (SECOND) as u64),
            flood_duration: time_arg(args, "flood_duration_secs"@, (15 * SECOND) as u64),
            flood_interval_ms: count_arg(args, "flood_interval_ms"@, 100),
        }
    } else if i == 7 {
        CallView::RebootUboot {
            failure_retry: count_arg(args, "failure_retry"@, 3),
            interval: time_arg(args, "failure_retry_interval"@, (SECOND) as u64),
            flood_interval_ms: count_arg(args, "flood_interval_ms"@, 100),
        }
    } else if i == 8 {
        CallView::EnterMaskrom
    } else if i == 9 {
        CallView::WaitPattern {
            pattern: word_arg(args, "pattern"@),
            timeout: time_arg(args, "timeout"@, (60 * SECOND) as u64),
            send_ctrl_c: text_arg(args, "action"@) == Some("send_ctrl_c"@),
        }
    } else if i == 10 {
        CallView::UbootCommand {
            command: word_arg(args, "command"@),
            timeout: time_arg(args, "timeout"@, (15 * SECOND) as u64),
        }
    } else if i == 11 {
        CallView::NewLog
    } else if i == 12 {
        CallView::PollLogs
    } else if i == 13 {
        CallView::GetConfig
    } else if i == 14 {
        CallView::GetMetrics
    } else if i == 15 {
        CallView::Claim
    } else if i == 16 {
        CallView::LoadReference {
            path: word_arg(args, "reference_log_path"@),
        }
    } else if i == 17 {
        CallView::GetUnclassified
    } else if i == 18 {
        CallView::AppendReference {
            lines: word_arg(args, "lines"@),
        }
    } else if i == 19 {
        CallView::GetStages
    } else if i == 20 {
        CallView::LearnConnection {
            choice: learn_choice(text_arg(args, "method"@)),
        }
    } else if i == 21 {
        CallView::VerifyRelay
    } else if i == 22 {
        CallView::Button {
            button: word_arg(args, "button"@),
            action: word_arg(args, "action"@),
            delay_ms: integer_arg(args, "delay_ms"@),
        }
    } else if i == 23 {
        CallView::FlashPlan {
            image_path: word_arg(args, "image_path"@),
            image_type: match text_arg(args, "image_type"@) {
                Some(t) => t,
                None => "full"@,
            },
        }
    } else if i == 24 {
        CallView::Pause
    } else if i == 25 {
        CallView::Resume
    } else if i == 26 {
        CallView::SendRaw {
            data: word_arg(args, "data"@),
        }
    } else {
        CallView::Flash {
            image_path: word_arg(args, "image_path"@),
        }
    }
}

fn read_call(i: usize, args: &[Arg]) -> (r: ToolCall)
    ensures
        r@ == call_at(i as int, args_of(args@)),
{
    if i == 0 {
        ToolCall::SendCommand {
            command: read_word(args, "command"),
            timeout: read_time(args, "timeout", 90 * SECOND),
        }
    } else if i == 1 {
        ToolCall::GetState
    } else if i == 2 {
        ToolCall::GetLogs {
            limit: read_count(args, "lines", 50),
            filter: read_text(args, "pattern"),
            archive: read_count(args, "archive", 0),
        }
    } else if i == 3 {
        ToolCall::ListLogs
    } else if i == 4 {
        ToolCall::Reset {
            wait_boot: read_flag(args, "wait_boot", true),
            failure_retry: read_count(args, "failure_retry", 3),
            interval: read_time(args, "failure_retry_interval", SECOND),
        }
    } else if i == 5 {
        ToolCall::PowerCycle {
            wait_boot: read_flag(args, "wait_boot", true),
        }
    } else if i == 6 {
        ToolCall::EnterUboot {
            failure_retry: read_count(args, "failure_retry", 3),
            interval: read_time(args, "failure_retry_interval", SECOND),
            flood_duration: read_time(args, "flood_duration_secs", 15 * SECOND),
            flood_interval_ms: read_count(args, "flood_interval_ms", 100),
        }
    } else if i == 7 {
        ToolCall::RebootUboot {
            failure_retry: read_count(args, "failure_retry", 3),
            interval: read_time(args, "failure_retry_interval", SECOND),
            flood_interval_ms: read_count(args, "flood_interval_ms", 100),
        }
    } else if i == 8 {
        ToolCall::EnterMaskrom
    } else if i == 9 {
        ToolCall::WaitPattern {
            pattern: read_word(args, "pattern"),
            timeout: read_time(args, "timeout", 60 * SECOND),
            send_ctrl_c: match read_text(args, "action") {
                Some(a) => eq_text(&a, "send_ctrl_c"),
                None => false,
            },
        }
    } else if i == 10 {
        ToolCall::UbootCommand {
            command: read_word(args, "command"),
            timeout: read_time(args, "timeout", 15 * SECOND),
        }
    } else if i == 11 {
        ToolCall::NewLog
    } else if i == 12 {
        ToolCall::PollLogs
    } else if i == 13 {
        ToolCall::GetConfig
    } else if i == 14 {
        ToolCall::GetMetrics
    } else if i == 15 {
        ToolCall::Claim
    } else if i == 16 {
        ToolCall::LoadReference {
            path: read_word(args, "reference_log_path"),
        }
    } else if i == 17 {
        ToolCall::GetUnclassified
    } else if i == 18 {
        ToolCall::AppendReference {
            lines: read_word(args, "lines"),
        }
    } else if i == 19 {
        ToolCall::GetStages
    } else if i == 20 {
        ToolCall::LearnConnection {
            choice: choose_learning(read_text(args, "method")),
        }
    } else if i == 21 {
        ToolCall::VerifyRelay
    } else if i == 22 {
        ToolCall::Button {
            button: read_word(args, "button"),
            action: read_word(args, "action"),
            delay_ms: read_integer(args, "delay_ms"),
        }
    } else if i == 23 {
        ToolCall::FlashPlan {
            image_path: read_word(args, "image_path"),
            image_type: match read_text(args, "image_type") {
                Some(t) => t,
                None => "full".to_owned(),
            },
        }
    } else if i == 24 {
        ToolCall::Pause
    } else if i == 25 {
        ToolCall::Resume
    } else if i == 26 {
        ToolCall::SendRaw {
            data: read_word(args, "data"),
        }
    } else {
        ToolCall::Flash {
            image_path: read_word(args, "image_path"),
        }
    }
}

/// What is missing from a call, where a text may not be empty.
pub open spec fn missing(call: CallView) -> Option<Seq<char>> {
    match call {
        CallView::LoadReference { path } => if path.len() == 0 {
            Some("reference_log_path required"@)
        } else {
            None
        },
        CallView::AppendReference { lines } => if lines.len() == 0 {
            Some("lines parameter required"@)
        } else {
            None
        },
        CallView::FlashPlan { image_path, .. } => if image_path.len() == 0 {
            Some("image_path required"@)
        } else {
            None
        },
        CallView::Flash { image_path } => if image_path.len() == 0 {
            Some("image_path required"@)
        } else {
            None
        },
        _ => None,
    }
}

fn missing_text(call: &ToolCall) -> (r: Option<&'static str>)
    ensures
        match r {
            Some(s) => missing(call@) == Some(s@),
            None => missing(call@) is None,
        },
{
    match call {
        ToolCall::LoadReference { path } => if path.as_str().is_empty() {
            Some("reference_log_path required")
        } else {
            None
        },
        ToolCall::AppendReference { lines } => if lines.as_str().is_empty() {
            Some("lines parameter required")
        } else {
            None
        },
        ToolCall::FlashPlan { image_path, .. } => if image_path.as_str().is_empty() {
            Some("image_path required")
        } else {
            None
        },
        ToolCall::Flash { image_path } => if image_path.as_str().is_empty() {
            Some("image_path required")
        } else {
            None
        },
        _ => None,
    }
}

/// Reads a call. An unknown tool and a missing text are refused.
pub fn parse_call(name: &str, args: &[Arg]) -> (r: Result<ToolCall, String>)
    ensures
        match find_tool(name@) {
            None => r matches Err(e) && e@ == "Unknown tool: "@ + name@,
            Some(i) => {
                let call = call_at(i, args_of(args@));
                match missing(call) {
                    Some(m) => r matches Err(e) && e@ == m,
                    None => r matches Ok(c) && c@ == call,
                }
            },
        },
{
    match tool_index(name) {
        None => Err(crate::text::cat("Unknown tool: ", name)),
        Some(i) => {
            let call = read_call(i, args);
            match missing_text(&call) {
                Some(m) => Err(m.to_owned()),
                None => Ok(call),
            }
        },
    }
}

// ── Laws ────────────────────────────────────────────────────────────────────

/// A number that tells the tools' names apart.
spec fn name_tag(s: Seq<char>) -> int {
    s.len() * 1000000 + (s[7] as u32) * 1000 + s.last() as u32
}

proof fn lemma_name_tag(i: int)
    requires
        0 <= i < TOOL_COUNT,
    ensures
        name_tag(tool_name(i)) == name_code(i),
{
    reveal_strlit("serial_send_command");
    reveal_strlit("serial_get_state");
    reveal_strlit("serial_get_logs");
    reveal_strlit("serial_list_logs");
    reveal_strlit("serial_reset");
    reveal_strlit("serial_power_cycle");
    reveal_strlit("serial_enter_uboot");
    reveal_strlit("serial_reboot_uboot");
    reveal_strlit("serial_enter_maskrom");
    reveal_strlit("serial_wait_pattern");
    reveal_strlit("serial_uboot_command");
    reveal_strlit("serial_new_log");
    reveal_strlit("serial_poll_logs");
    reveal_strlit("serial_get_config");
    reveal_strlit("serial_get_metrics");
    reveal_strlit("serial_claim");
    reveal_strlit("serial_load_reference");
    reveal_strlit("serial_get_unclassified");
    reveal_strlit("serial_append_reference");
    reveal_strlit("serial_get_stages");
    reveal_strlit("serial_learn_connection");
    reveal_strlit("serial_verify_relay");
    reveal_strlit("serial_button");
    reveal_strlit("serial_flash_plan");
    reveal_strlit("serial_pause");
    reveal_strlit("serial_resume");
    reveal_strlit("serial_send_raw");
    reveal_strlit("serial_flash");
}

/// The numbers that tell the tools' names apart.
spec fn name_code(i: int) -> int {
    if i == 0 {
        19115100
    } else if i == 1 {
        16103101
    } else if i == 2 {
        15103115
    } else if i == 3 {
        16108115
    } else if i == 4 {
        12114116
    } else if i == 5 {
        18112101
    } else if i == 6 {
        18101116
    } else if i == 7 {
        19114116
    } else if i == 8 {
        20101109
    } else if i == 9 {
        19119110
    } else if i == 10 {
        20117100
    } else if i == 11 {
        14110103
    } else if i == 12 {
        16112115
    } else if i == 13 {
        17103103
    } else if i == 14 {
        18103115
    } else if i == 15 {
        12099109
    } else if i == 16 {
        21108101
    } else if i == 17 {
        23103100
    } else if i == 18 {
        23097101
    } else if i == 19 {
        17103115
    } else if i == 20 {
        23108110
    } else if i == 21 {
        19118121
    } else if i == 22 {
        13098110
    } else if i == 23 {
        17102110
    } else if i == 24 {
        12112101
    } else if i == 25 {
        13114101
    } else if i == 26 {
        15115119
    } else {
        12102104
    }
}

/// Law: no two tools have the same name.
pub proof fn law_tool_names_differ(i: int, j: int)
    requires
        0 <= i < TOOL_COUNT,
        0 <= j < TOOL_COUNT,
        i != j,
    ensures
        tool_name(i) != tool_name(j),
{
    lemma_name_tag(i);
    lemma_name_tag(j);
}

/// Law: every tool that is listed is found under its name, and what is found is
/// listed.
pub proof fn law_listed_tools_are_found(i: int, name: Seq<char>)
    requires
        0 <= i < TOOL_COUNT,
    ensures
        find_tool(tool_name(i)) == Some(i),
        find_tool(name) matches Some(k) ==> 0 <= k < TOOL_COUNT && tool_name(k) == name,
{
    lemma_find(i, 0);
    lemma_found(name, 0);
}

proof fn lemma_find(i: int, from: int)
    requires
        0 <= from <= i < TOOL_COUNT,
    ensures
        tool_from(tool_name(i), from) == Some(i),
    decreases i - from,
{
    if from < i {
        law_tool_names_differ(from, i);
        lemma_find(i, from + 1);
    }
}

proof fn lemma_found(name: Seq<char>, from: int)
    requires
        0 <= from <= TOOL_COUNT,
    ensures
        tool_from(name, from) matches Some(k) ==> from <= k < TOOL_COUNT && tool_name(k) == name,
    decreases TOOL_COUNT - from,
{
    if from < TOOL_COUNT {
        lemma_found(name, from + 1);
    }
}

/// Law: a tool is called by its name, each argument under the name that it is listed by;
/// a name that is not listed calls none.
#[verifier::rlimit(50)]
pub proof fn law_tools_are_called(name: Seq<char>, args: Seq<(Seq<char>, ArgView)>)
    ensures
        ({
            let i = find_tool(name);
            let c = call_at(i->0, args);
            &&& name == "serial_send_command"@ ==> i is Some && c == (CallView::SendCommand { command: word_arg(args, "command"@), timeout: time_arg(args, "timeout"@, 90_000_000_000) })
            &&& name == "serial_get_state"@ ==> i is Some && c == (CallView::GetState)
            &&& name == "serial_get_logs"@ ==> i is Some && c == (CallView::GetLogs { limit: count_arg(args, "lines"@, 50), filter: text_arg(args, "pattern"@), archive: count_arg(args, "archive"@, 0) })
            &&& name == "serial_list_logs"@ ==> i is Some && c == (CallView::ListLogs)
            &&& name == "serial_reset"@ ==> i is Some && c == (CallView::Reset { wait_boot: flag_arg(args, "wait_boot"@, true), failure_retry: count_arg(args, "failure_retry"@, 3), interval: time_arg(args, "failure_retry_interval"@, 1_000_000_000) })
            &&& name == "serial_power_cycle"@ ==> i is Some && c == (CallView::PowerCycle { wait_boot: flag_arg(args, "wait_boot"@, true) })
            &&& name == "serial_enter_uboot"@ ==> i is Some && c == (CallView::EnterUboot { failure_retry: count_arg(args, "failure_retry"@, 3), interval: time_arg(args, "failure_retry_interval"@, 1_000_000_000), flood_duration: time_arg(args, "flood_duration_secs"@, 15_000_000_000), flood_interval_ms: count_arg(args, "flood_interval_ms"@, 100) })
            &&& name == "serial_reboot_uboot"@ ==> i is Some && c == (CallView::RebootUboot { failure_retry: count_arg(args, "failure_retry"@, 3), interval: time_arg(args, "failure_retry_interval"@, 1_000_000_000), flood_interval_ms: count_arg(args, "flood_interval_ms"@, 100) })
            &&& name == "serial_enter_maskrom"@ ==> i is Some && c == (CallView::EnterMaskrom)
            &&& name == "serial_wait_pattern"@ ==> i is Some && c == (CallView::WaitPattern { pattern: word_arg(args, "pattern"@), timeout: time_arg(args, "timeout"@, 60_000_000_000), send_ctrl_c: text_arg(args, "action"@) == Some("send_ctrl_c"@) })
            &&& name == "serial_uboot_command"@ ==> i is Some && c == (CallView::UbootCommand { command: word_arg(args, "command"@), timeout: time_arg(args, "timeout"@, 15_000_000_000) })
            &&& name == "serial_new_log"@ ==> i is Some && c == (CallView::NewLog)
            &&& name == "serial_poll_logs"@ ==> i is Some && c == (CallView::PollLogs)
            &&& name == "serial_get_config"@ ==> i is Some && c == (CallView::GetConfig)
            &&& name == "serial_get_metrics"@ ==> i is Some && c == (CallView::GetMetrics)
            &&& name == "serial_claim"@ ==> i is Some && c == (CallView::Claim)
            &&& name == "serial_load_reference"@ ==> i is Some && c == (CallView::LoadReference { path: word_arg(args, "reference_log_path"@) })
            &&& name == "serial_get_unclassified"@ ==> i is Some && c == (CallView::GetUnclassified)
            &&& name == "serial_append_reference"@ ==> i is Some && c == (CallView::AppendReference { lines: word_arg(args, "lines"@) })
            &&& name == "serial_get_stages"@ ==> i is Some && c == (CallView::GetStages)
            &&& name == "serial_learn_connection"@ ==> i is Some && c == (CallView::LearnConnection { choice: learn_choice(text_arg(args, "method"@)) })
            &&& name == "serial_verify_relay"@ ==> i is Some && c == (CallView::VerifyRelay)
            &&& name == "serial_button"@ ==> i is Some && c == (CallView::Button { button: word_arg(args, "button"@), action: word_arg(args, "action"@), delay_ms: integer_arg(args, "delay_ms"@) })
            &&& name == "serial_flash_plan"@ ==> i is Some && c == (CallView::FlashPlan { image_path: word_arg(args, "image_path"@), image_type: match text_arg(args, "image_type"@) { Some(t) => t, None => "full"@ } })
            &&& name == "serial_pause"@ ==> i is Some && c == (CallView::Pause)
            &&& name == "serial_resume"@ ==> i is Some && c == (CallView::Resume)
            &&& name == "serial_send_raw"@ ==> i is Some && c == (CallView::SendRaw { data: word_arg(args, "data"@) })
            &&& name == "serial_flash"@ ==> i is Some && c == (CallView::Flash { image_path: word_arg(args, "image_path"@) })
            &&& name != "serial_send_command"@ && name != "serial_get_state"@ && name != "serial_get_logs"@ && name != "serial_list_logs"@ && name != "serial_reset"@ && name != "serial_power_cycle"@ && name != "serial_enter_uboot"@ && name != "serial_reboot_uboot"@ && name != "serial_enter_maskrom"@ && name != "serial_wait_pattern"@ && name != "serial_uboot_command"@ && name != "serial_new_log"@ && name != "serial_poll_logs"@ && name != "serial_get_config"@ && name != "serial_get_metrics"@ && name != "serial_claim"@ && name != "serial_load_reference"@ && name != "serial_get_unclassified"@ && name != "serial_append_reference"@ && name != "serial_get_stages"@ && name != "serial_learn_connection"@ && name != "serial_verify_relay"@ && name != "serial_button"@ && name != "serial_flash_plan"@ && name != "serial_pause"@ && name != "serial_resume"@ && name != "serial_send_raw"@ && name != "serial_flash"@ ==> i is None
        }),
{
    assert(tool_name(0) == "serial_send_command"@);
    law_listed_tools_are_found(0, name);
    assert(tool_name(1) == "serial_get_state"@);
    law_listed_tools_are_found(1, name);
    assert(tool_name(2) == "serial_get_logs"@);
    law_listed_tools_are_found(2, name);
    assert(tool_name(3) == "serial_list_logs"@);
    law_listed_tools_are_found(3, name);
    assert(tool_name(4) == "serial_reset"@);
    law_listed_tools_are_found(4, name);
    assert(tool_name(5) == "serial_power_cycle"@);
    law_listed_tools_are_found(5, name);
    assert(tool_name(6) == "serial_enter_uboot"@);
    law_listed_tools_are_found(6, name);
    assert(tool_name(7) == "serial_reboot_uboot"@);
    law_listed_tools_are_found(7, name);
    assert(tool_name(8) == "serial_enter_maskrom"@);
    law_listed_tools_are_found(8, name);
    assert(tool_name(9) == "serial_wait_pattern"@);
    law_listed_tools_are_found(9, name);
    assert(tool_name(10) == "serial_uboot_command"@);
    law_listed_tools_are_found(10, name);
    assert(tool_name(11) == "serial_new_log"@);
    law_listed_tools_are_found(11, name);
    assert(tool_name(12) == "serial_poll_logs"@);
    law_listed_tools_are_found(12, name);
    assert(tool_name(13) == "serial_get_config"@);
    law_listed_tools_are_found(13, name);
    assert(tool_name(14) == "serial_get_metrics"@);
    law_listed_tools_are_found(14, name);
    assert(tool_name(15) == "serial_claim"@);
    law_listed_tools_are_found(15, name);
    assert(tool_name(16) == "serial_load_reference"@);
    law_listed_tools_are_found(16, name);
    assert(tool_name(17) == "serial_get_unclassified"@);
    law_listed_tools_are_found(17, name);
    assert(tool_name(18) == "serial_append_reference"@);
    law_listed_tools_are_found(18, name);
    assert(tool_name(19) == "serial_get_stages"@);
    law_listed_tools_are_found(19, name);
    assert(tool_name(20) == "serial_learn_connection"@);
    law_listed_tools_are_found(20, name);
    assert(tool_name(21) == "serial_verify_relay"@);
    law_listed_tools_are_found(21, name);
    assert(tool_name(22) == "serial_button"@);
    law_listed_tools_are_found(22, name);
    assert(tool_name(23) == "serial_flash_plan"@);
    law_listed_tools_are_found(23, name);
    assert(tool_name(24) == "serial_pause"@);
    law_listed_tools_are_found(24, name);
    assert(tool_name(25) == "serial_resume"@);
    law_listed_tools_are_found(25, name);
    assert(tool_name(26) == "serial_send_raw"@);
    law_listed_tools_are_found(26, name);
    assert(tool_name(27) == "serial_flash"@);
    law_listed_tools_are_found(27, name);
    if let Some(k) = find_tool(name) {
        assert(tool_name(k) == name);
    }
}

/// Law: an argument is the first under its name; one of another kind counts as missing,
/// and a missing one takes its default.
pub proof fn law_arguments(
    args: Seq<(Seq<char>, ArgView)>,
    name: Seq<char>,
    other: Seq<char>,
    v: ArgView,
    n: u64,
    b: bool,
)
    requires
        name != other,
    ensures
        ({
            let first = seq![(name, v)] + args;
            let behind = seq![(other, v)] + args;
            let none = Seq::<(Seq<char>, ArgView)>::empty();
            &&& text_arg(first, name) == (match v {
                ArgView::Text(s) => Some(s),
                _ => None,
            })
            &&& word_arg(first, name) == (match v {
                ArgView::Text(s) => s,
                _ => Seq::empty(),
            })
            &&& integer_arg(first, name) == (match v {
                ArgView::Number { unsigned, .. } => unsigned,
                _ => None,
            })
            &&& count_arg(first, name, n) == (match v {
                ArgView::Number { unsigned: Some(k), .. } => k,
                _ => n,
            })
            &&& time_arg(first, name, n) == (match v {
                ArgView::Number { nanos, .. } => nanos,
                _ => n,
            })
            &&& flag_arg(first, name, b) == (match v {
                ArgView::Flag(f) => f,
                _ => b,
            })
            &&& text_arg(behind, name) == text_arg(args, name)
            &&& word_arg(behind, name) == word_arg(args, name)
            &&& integer_arg(behind, name) == integer_arg(args, name)
            &&& count_arg(behind, name, n) == count_arg(args, name, n)
            &&& time_arg(behind, name, n) == time_arg(args, name, n)
            &&& flag_arg(behind, name, b) == flag_arg(args, name, b)
            &&& text_arg(none, name) is None && word_arg(none, name).len() == 0 && integer_arg(
                none,
                name,
            ) is None && count_arg(none, name, n) == n && time_arg(none, name, n) == n && flag_arg(
                none,
                name,
                b,
            ) == b
        }),
{
    let first = seq![(name, v)] + args;
    let behind = seq![(other, v)] + args;
    assert(first[0] == (name, v) && behind[0] == (other, v));
    lemma_arg_shift(seq![(other, v)], args, name, 0);
}

proof fn lemma_arg_shift(
    a: Seq<(Seq<char>, ArgView)>,
    b: Seq<(Seq<char>, ArgView)>,
    name: Seq<char>,
    i: int,
)
    requires
        0 <= i <= b.len(),
    ensures
        arg_from(a + b, name, a.len() + i) == arg_from(b, name, i),
    decreases b.len() - i,
{
    if i < b.len() {
        assert((a + b)[a.len() + i] == b[i]);
        lemma_arg_shift(a, b, name, i + 1);
    }
}

/// A tool lists a parameter with that default.
pub open spec fn lists(i: int, name: Seq<char>, default: ParamDefault) -> bool {
    exists|k: int|
        0 <= k < tool_params(i).len() && (#[trigger] tool_params(i)[k]).name == name && tool_params(
            i,
        )[k].default == Some(default)
}

/// A tool asks for a parameter that must be given.
pub open spec fn asks_for(i: int, name: Seq<char>) -> bool {
    exists|k: int|
        0 <= k < tool_params(i).len() && (#[trigger] tool_params(i)[k]).name == name && tool_params(
            i,
        )[k].required
}

/// Law: the defaults that a tool lists are the ones it takes where it is called without
/// arguments.
#[verifier::rlimit(50)]
pub proof fn law_defaults_are_taken(n: u64, b: bool)
    ensures
        ({
            let none = Seq::<(Seq<char>, ArgView)>::empty();
            &&& lists(0, "timeout"@, ParamDefault::Integer(n)) <==> (call_at(0, none) matches CallView::SendCommand { timeout, .. } && timeout == n * 1_000_000_000)
            &&& lists(2, "lines"@, ParamDefault::Integer(n)) <==> (call_at(2, none) matches CallView::GetLogs { limit, .. } && limit == n)
            &&& lists(2, "archive"@, ParamDefault::Integer(n)) <==> (call_at(2, none) matches CallView::GetLogs { archive, .. } && archive == n)
            &&& lists(4, "wait_boot"@, ParamDefault::Flag(b)) <==> (call_at(4, none) matches CallView::Reset { wait_boot, .. } && wait_boot == b)
            &&& lists(4, "failure_retry"@, ParamDefault::Integer(n)) <==> (call_at(4, none) matches CallView::Reset { failure_retry, .. } && failure_retry == n)
            &&& lists(4, "failure_retry_interval"@, ParamDefault::Tenths(n)) <==> (call_at(4, none) matches CallView::Reset { interval, .. } && interval == n * 100_000_000)
            &&& lists(5, "wait_boot"@, ParamDefault::Flag(b)) <==> (call_at(5, none) matches CallView::PowerCycle { wait_boot, .. } && wait_boot == b)
            &&& lists(6, "failure_retry"@, ParamDefault::Integer(n)) <==> (call_at(6, none) matches CallView::EnterUboot { failure_retry, .. } && failure_retry == n)
            &&& lists(6, "failure_retry_interval"@, ParamDefault::Tenths(n)) <==> (call_at(6, none) matches CallView::EnterUboot { interval, .. } && interval == n * 100_000_000)
            &&& lists(6, "flood_duration_secs"@, ParamDefault::Tenths(n)) <==> (call_at(6, none) matches CallView::EnterUboot { flood_duration, .. } && flood_duration == n * 100_000_000)
            &&& lists(6, "flood_interval_ms"@, ParamDefault::Integer(n)) <==> (call_at(6, none) matches CallView::EnterUboot { flood_interval_ms, .. } && flood_interval_ms == n)
            &&& lists(7, "failure_retry"@, ParamDefault::Integer(n)) <==> (call_at(7, none) matches CallView::RebootUboot { failure_retry, .. } && failure_retry == n)
            &&& lists(7, "failure_retry_interval"@, ParamDefault::Tenths(n)) <==> (call_at(7, none) matches CallView::RebootUboot { interval, .. } && interval == n * 100_000_000)
            &&& lists(7, "flood_interval_ms"@, ParamDefault::Integer(n)) <==> (call_at(7, none) matches CallView::RebootUboot { flood_interval_ms, .. } && flood_interval_ms == n)
            &&& lists(9, "timeout"@, ParamDefault::Integer(n)) <==> (call_at(9, none) matches CallView::WaitPattern { timeout, .. } && timeout == n * 1_000_000_000)
            &&& lists(10, "timeout"@, ParamDefault::Integer(n)) <==> (call_at(10, none) matches CallView::UbootCommand { timeout, .. } && timeout == n * 1_000_000_000)
        }),
{
    lemma_param_tags();
    assert(tool_params(0)[1].name == "timeout"@);
    assert(tool_params(2)[0].name == "lines"@);
    assert(tool_params(2)[2].name == "archive"@);
    assert(tool_params(4)[0].name == "wait_boot"@);
    assert(tool_params(4)[1].name == "failure_retry"@);
    assert(tool_params(4)[2].name == "failure_retry_interval"@);
    assert(tool_params(5)[0].name == "wait_boot"@);
    assert(tool_params(6)[0].name == "failure_retry"@);
    assert(tool_params(6)[1].name == "failure_retry_interval"@);
    assert(tool_params(6)[2].name == "flood_duration_secs"@);
    assert(tool_params(6)[3].name == "flood_interval_ms"@);
    assert(tool_params(7)[0].name == "failure_retry"@);
    assert(tool_params(7)[1].name == "failure_retry_interval"@);
    assert(tool_params(7)[2].name == "flood_interval_ms"@);
    assert(tool_params(9)[1].name == "timeout"@);
    assert(tool_params(10)[1].name == "timeout"@);
}

spec fn param_tag(w: Seq<char>) -> int {
    w.len() * 1000000 + (w[0] as u32) * 1000 + w.last() as u32
}

proof fn lemma_param_tags()
    ensures
        param_tag("action"@) == 6097110,
        param_tag("archive"@) == 7097101,
        param_tag("command"@) == 7099100,
        param_tag("failure_retry"@) == 13102121,
        param_tag("failure_retry_interval"@) == 22102108,
        param_tag("flood_duration_secs"@) == 19102115,
        param_tag("flood_interval_ms"@) == 17102115,
        param_tag("lines"@) == 5108115,
        param_tag("pattern"@) == 7112110,
        param_tag("timeout"@) == 7116116,
        param_tag("wait_boot"@) == 9119116,
{
    reveal_strlit("action");
    reveal_strlit("archive");
    reveal_strlit("command");
    reveal_strlit("failure_retry");
    reveal_strlit("failure_retry_interval");
    reveal_strlit("flood_duration_secs");
    reveal_strlit("flood_interval_ms");
    reveal_strlit("lines");
    reveal_strlit("pattern");
    reveal_strlit("timeout");
    reveal_strlit("wait_boot");
}

/// Law: what a tool cannot do without is asked for, and its absence is reported by name.
#[verifier::rlimit(50)]
pub proof fn law_missing_arguments(args: Seq<(Seq<char>, ArgView)>)
    ensures
        asks_for(0, "command"@),
        asks_for(9, "pattern"@),
        asks_for(10, "command"@),
        asks_for(16, "reference_log_path"@),
        asks_for(18, "lines"@),
        asks_for(22, "button"@),
        asks_for(22, "action"@),
        asks_for(23, "image_path"@),
        asks_for(26, "data"@),
        asks_for(27, "image_path"@),
        word_arg(args, "reference_log_path"@).len() == 0 ==> missing(call_at(16, args)) == Some(
            "reference_log_path required"@,
        ),
        word_arg(args, "reference_log_path"@).len() > 0 ==> missing(call_at(16, args)) is None,
        word_arg(args, "lines"@).len() == 0 ==> missing(call_at(18, args)) == Some(
            "lines parameter required"@,
        ),
        word_arg(args, "lines"@).len() > 0 ==> missing(call_at(18, args)) is None,
        word_arg(args, "image_path"@).len() == 0 ==> missing(call_at(23, args)) == Some(
            "image_path required"@,
        ) && missing(call_at(27, args)) == Some("image_path required"@),
        word_arg(args, "image_path"@).len() > 0 ==> missing(call_at(23, args)) is None && missing(
            call_at(27, args),
        ) is None,
        forall|i: int|
            i != 16 && i != 18 && i != 23 && 0 <= i < 27 ==> missing(#[trigger] call_at(i, args))
                is None,
{
    assert(tool_params(0)[0].name == "command"@);
    assert(tool_params(9)[0].name == "pattern"@);
    assert(tool_params(10)[0].name == "command"@);
    assert(tool_params(16)[0].name == "reference_log_path"@);
    assert(tool_params(18)[0].name == "lines"@);
    assert(tool_params(22)[0].name == "button"@);
    assert(tool_params(22)[1].name == "action"@);
    assert(tool_params(23)[0].name == "image_path"@);
    assert(tool_params(26)[0].name == "data"@);
    assert(tool_params(27)[0].name == "image_path"@);
}

/// Law: a connection is learned by software where that is asked for, by hardware first
/// where either will do, and by hardware otherwise.
pub proof fn law_learning_methods(method: Seq<char>)
    ensures
        learn_choice(Some(method)) == LearnChoice::Software <==> method == "software"@ || method
            == "reboot"@,
        learn_choice(Some(method)) == LearnChoice::Auto <==> method == "auto"@,
        learn_choice(None) == LearnChoice::Hardware,
{
    reveal_strlit("software");
    reveal_strlit("reboot");
    reveal_strlit("auto");
    assert("software"@.len() == 8 && "reboot"@.len() == 6 && "auto"@.len() == 4);
}

/// Law: a pattern asks for a prompt where it holds the signs of one.
pub proof fn law_prompt_patterns(before: Seq<char>, after: Seq<char>, pattern: Seq<char>)
    ensures
        is_prompt_like(before + "login"@ + after),
        is_prompt_like(before + "prompt"@ + after),
        is_prompt_like(before + "=>"@ + after),
        is_prompt_like(before + "#"@ + after),
        is_prompt_like(before + r"\$"@ + after),
        is_prompt_like(pattern) ==> exists|w: Seq<char>|
            #[trigger] occurs(pattern, w) && (w == "login"@ || w == "prompt"@ || w == "=>"@ || w
                == "#"@ || w == r"\$"@),
{
    lemma_holds(before, "login"@, after);
    lemma_holds(before, "prompt"@, after);
    lemma_holds(before, "=>"@, after);
    lemma_holds(before, "#"@, after);
    lemma_holds(before, r"\$"@, after);
    if is_prompt_like(pattern) {
        if occurs(pattern, "login"@) {
        } else if occurs(pattern, "prompt"@) {
        } else if occurs(pattern, "=>"@) {
        } else if occurs(pattern, r"\$"@) {
        } else {
            assert(occurs(pattern, "#"@));
        }
    }
}

proof fn lemma_holds(a: Seq<char>, w: Seq<char>, b: Seq<char>)
    ensures
        occurs(a + w + b, w),
{
    let s = a + w + b;
    crate::text::lemma_occurs(s, w);
    assert(s.subrange(a.len() as int, a.len() as int + w.len()) =~= w);
    assert(crate::text::is_at(s, w, a.len() as int));
}

/// Law: a call of a tool that is not listed is refused by its name; a call that lacks what
/// it needs is refused with what is missing; every other call is the one of that name.
#[verifier::rlimit(50)]
pub proof fn law_parsing_a_call(name: &str, args: &[Arg], r: Result<ToolCall, String>)
    requires
        call_ensures(parse_call, (name, args), r),
    ensures
        find_tool(name@) is None ==> r is Err && r->Err_0@ == "Unknown tool: "@ + name@,
        r matches Ok(c) ==> find_tool(name@) is Some,
        name@ == "serial_get_state"@ ==> r is Ok && r->Ok_0@ == CallView::GetState,
        name@ == "serial_pause"@ ==> r is Ok && r->Ok_0@ == CallView::Pause,
        name@ == "serial_resume"@ ==> r is Ok && r->Ok_0@ == CallView::Resume,
        name@ == "serial_enter_maskrom"@ ==> r is Ok && r->Ok_0@ == CallView::EnterMaskrom,
        name@ == "serial_send_command"@ ==> r is Ok && r->Ok_0@ == (CallView::SendCommand {
            command: word_arg(args_of(args@), "command"@),
            timeout: time_arg(args_of(args@), "timeout"@, 90_000_000_000),
        }),
        name@ == "serial_load_reference"@ ==> (r is Err <==> word_arg(
            args_of(args@),
            "reference_log_path"@,
        ).len() == 0),
        name@ == "serial_flash"@ || name@ == "serial_flash_plan"@ ==> (r is Err <==> word_arg(
            args_of(args@),
            "image_path"@,
        ).len() == 0),
{
    law_tools_are_called(name@, args_of(args@));
}

} // verus!
