//! Power control: buttons of a target, pressed through a relay board, an
//! external program, or not at all.
//!
//! Each backend turns a press or a release into what is to be sent or run.

use crate::text::{cat3, digit_char, digit_to_char};
use vstd::prelude::*;
use vstd::string::*;

verus! {

/// Buttons of a target.
#[derive(Debug, Clone, Copy, PartialEq, Eq, Structural, Hash)]
pub enum Button {
    Reset,
    Maskrom,
    Recovery,
}

impl Button {
    /// The name of the button.
    pub open spec fn name(self) -> Seq<char> {
        match self {
            Button::Reset => "reset"@,
            Button::Maskrom => "maskrom"@,
            Button::Recovery => "recovery"@,
        }
    }

    /// The name of the button.
    pub fn as_str(&self) -> (r: &'static str)
        ensures
            r@ == self.name(),
    {
        match self {
            Button::Reset => "reset",
            Button::Maskrom => "maskrom",
            Button::Recovery => "recovery",
        }
    }
}

/// Errors of power control.
pub enum PowerError {
    NotConfigured,
    NotConnected,
    VerifyFailed { sent: u8, read_back: u8 },
    /// An input or output error, as text.
    Io(String),
    Timeout,
}

/// A byte as "0x" and two hexadecimal digits.
pub open spec fn byte_hex(b: u8) -> Seq<char> {
    "0x"@.push(digit_char((b / 16) as nat)).push(digit_char((b % 16) as nat))
}

/// Writes a byte as "0x" and two hexadecimal digits.
fn byte_text(b: u8) -> (s: String)
    ensures
        s@ == byte_hex(b),
{
    let mut s = "0x".to_owned();
    s.push(digit_to_char(b / 16));
    s.push(digit_to_char(b % 16));
    s
}

impl PowerError {
    /// The message shown to the user.
    pub fn message(&self) -> (r: String)
        ensures
            r@ == (match *self {
                PowerError::NotConfigured => "power control not configured"@,
                PowerError::NotConnected => "power control not connected"@,
                PowerError::VerifyFailed { sent, read_back } => "relay verify failed: sent "@
                    + byte_hex(sent) + ", read back "@ + byte_hex(read_back),
                PowerError::Io(e) => "IO error: "@ + e@,
                PowerError::Timeout => "operation timed out"@,
            }),
    {
        match self {
            PowerError::NotConfigured => "power control not configured".to_owned(),
            PowerError::NotConnected => "power control not connected".to_owned(),
            PowerError::VerifyFailed { sent, read_back } => {
                let mut s = cat3("relay verify failed: sent ", &byte_text(*sent), ", read back ");
                s.append(&byte_text(*read_back));
                s
            },
            PowerError::Io(e) => crate::text::cat("IO error: ", e),
            PowerError::Timeout => "operation timed out".to_owned(),
        }
    }
}

/// Buttons mapped to relay channels 1 to 4; 0 means not configured.
#[derive(Debug, Clone, Copy)]
pub struct ButtonChannels {
    pub reset: u8,
    pub maskrom: u8,
    pub recovery: u8,
}

impl ButtonChannels {
    /// The channel of a button.
    pub open spec fn channel(self, button: Button) -> u8 {
        match button {
            Button::Reset => self.reset,
            Button::Maskrom => self.maskrom,
            Button::Recovery => self.recovery,
        }
    }

    /// Some button is configured.
    pub open spec fn any(self) -> bool {
        exists|b: Button| #[trigger] self.channel(b) > 0
    }

    /// The channel of a button.
    pub fn get(&self, button: Button) -> (r: u8)
        ensures
            r == self.channel(button),
    {
        match button {
            Button::Reset => self.reset,
            Button::Maskrom => self.maskrom,
            Button::Recovery => self.recovery,
        }
    }

    /// Whether some button is configured.
    pub fn has_any(&self) -> (r: bool)
        ensures
            r == self.any(),
    {
        proof {
            assert(self.channel(Button::Reset) == self.reset);
            assert(self.channel(Button::Maskrom) == self.maskrom);
            assert(self.channel(Button::Recovery) == self.recovery);
        }
        self.reset > 0 || self.maskrom > 0 || self.recovery > 0
    }
}

impl Default for ButtonChannels {
    fn default() -> (r: Self)
        ensures
            r.reset == 0 && r.maskrom == 0 && r.recovery == 0,
    {
        ButtonChannels { reset: 0, maskrom: 0, recovery: 0 }
    }
}

// ── The relay protocol ──────────────────────────────────────────────────────

/// The first byte of every packet.
pub const HEADER: u8 = 0xA0;

/// Switch a channel on.
pub const OP_ON: u8 = 0x01;

/// Switch a channel off.
pub const OP_OFF: u8 = 0x00;

/// Ask for the state of a channel.
pub const OP_STATUS: u8 = 0x05;

/// A packet: header, channel, opcode and the low byte of their sum.
pub open spec fn packet_bytes(channel: u8, opcode: u8) -> Seq<u8> {
    seq![HEADER, channel, opcode, ((HEADER + channel + opcode) % 256) as u8]
}

/// The packet for a channel and an opcode.
pub fn relay_packet(channel: u8, opcode: u8) -> (r: Vec<u8>)
    ensures
        r@ == packet_bytes(channel, opcode),
{
    let sum: u16 = HEADER as u16 + channel as u16 + opcode as u16;
    let low: u16 = sum & 0xFF;
    assert(low == sum % 256) by (bit_vector)
        requires
            low == sum & 0xFF,
    ;
    let checksum: u8 = low as u8;
    let mut r: Vec<u8> = Vec::new();
    r.push(HEADER);
    r.push(channel);
    r.push(opcode);
    r.push(checksum);
    assert(r@ =~= packet_bytes(channel, opcode));
    r
}

/// The state in a status response: the third byte.
pub fn read_channel_state(response: &[u8]) -> (r: Result<u8, PowerError>)
    ensures
        match r {
            Ok(s) => response@.len() >= 3 && s == response@[2],
            Err(e) => response@.len() < 3 && e == (PowerError::VerifyFailed {
                sent: 0,
                read_back: 0,
            }),
        },
{
    if response.len() >= 3 {
        Ok(response[2])
    } else {
        Err(PowerError::VerifyFailed { sent: 0, read_back: 0 })
    }
}

/// What pressing or releasing a button asks for.
pub enum ControlStep {
    /// Send a packet to the relay board.
    Packet(Vec<u8>),
    /// Run the external program with these arguments.
    Run(Vec<String>),
    /// Nothing: the reboot is sent over the serial line.
    Nothing,
}

/// A relay board behind a TCP port.
pub struct Ch340RelayControl {
    pub host: String,
    pub port: u16,
    pub channels: ButtonChannels,
    /// ON and OFF are swapped.
    pub inverted: bool,
}

impl Ch340RelayControl {
    /// The opcode that presses a button.
    pub open spec fn press_op(self) -> u8 {
        if self.inverted {
            OP_OFF
        } else {
            OP_ON
        }
    }

    /// The opcode that releases a button.
    pub open spec fn release_op(self) -> u8 {
        if self.inverted {
            OP_ON
        } else {
            OP_OFF
        }
    }

    /// The channel that a verification toggles: the first configured one.
    pub open spec fn probe_channel(self) -> u8 {
        if self.channels.reset > 0 {
            self.channels.reset
        } else if self.channels.maskrom > 0 {
            self.channels.maskrom
        } else {
            self.channels.recovery
        }
    }

    /// A port and some button are configured.
    pub open spec fn configured(self) -> bool {
        self.port > 0 && self.channels.any()
    }

    /// A board that is not inverted.
    pub fn new(host: String, port: u16, channels: ButtonChannels) -> (r: Self)
        ensures
            r == (Ch340RelayControl { host, port, channels, inverted: false }),
    {
        Ch340RelayControl { host, port, channels, inverted: false }
    }

    /// The same board with ON and OFF swapped or not.
    pub fn with_inverted(self, inverted: bool) -> (r: Self)
        ensures
            r == (Ch340RelayControl { inverted, ..self }),
    {
        Ch340RelayControl {
            host: self.host,
            port: self.port,
            channels: self.channels,
            inverted,
        }
    }

    /// Whether a port and some button are configured.
    pub fn is_configured(&self) -> (r: bool)
        ensures
            r == self.configured(),
    {
        self.port > 0 && self.channels.has_any()
    }

    /// The packet that presses a button.
    pub fn press(&self, button: Button) -> (r: Result<Vec<u8>, PowerError>)
        ensures
            match r {
                Ok(p) => self.channels.channel(button) > 0 && p@ == packet_bytes(
                    self.channels.channel(button),
                    self.press_op(),
                ),
                Err(e) => self.channels.channel(button) == 0 && e is NotConfigured,
            },
    {
        let ch: u8 = self.channels.get(button);
        if ch == 0 {
            return Err(PowerError::NotConfigured);
        }
        let op: u8 = if self.inverted {
            OP_OFF
        } else {
            OP_ON
        };
        Ok(relay_packet(ch, op))
    }

    /// The packet that releases a button.
    pub fn release(&self, button: Button) -> (r: Result<Vec<u8>, PowerError>)
        ensures
            match r {
                Ok(p) => self.channels.channel(button) > 0 && p@ == packet_bytes(
                    self.channels.channel(button),
                    self.release_op(),
                ),
                Err(e) => self.channels.channel(button) == 0 && e is NotConfigured,
            },
    {
        let ch: u8 = self.channels.get(button);
        if ch == 0 {
            return Err(PowerError::NotConfigured);
        }
        let op: u8 = if self.inverted {
            OP_ON
        } else {
            OP_OFF
        };
        Ok(relay_packet(ch, op))
    }

    /// The packets of a verification: on, status, off, status.
    pub fn verify(&self) -> (r: Result<Vec<Vec<u8>>, PowerError>)
        ensures
            match r {
                Ok(p) => self.configured() && crate::command_queue::chunks_of(p@) == seq![
                    packet_bytes(self.probe_channel(), self.press_op()),
                    packet_bytes(self.probe_channel(), OP_STATUS),
                    packet_bytes(self.probe_channel(), self.release_op()),
                    packet_bytes(self.probe_channel(), OP_STATUS),
                ],
                Err(e) => !self.configured() && e is NotConfigured,
            },
    {
        if !self.is_configured() {
            return Err(PowerError::NotConfigured);
        }
        let ch: u8 = if self.channels.reset > 0 {
            self.channels.reset
        } else if self.channels.maskrom > 0 {
            self.channels.maskrom
        } else {
            self.channels.recovery
        };
        let (on, off): (u8, u8) = if self.inverted {
            (OP_OFF, OP_ON)
        } else {
            (OP_ON, OP_OFF)
        };
        let mut p: Vec<Vec<u8>> = Vec::new();
        p.push(relay_packet(ch, on));
        p.push(relay_packet(ch, OP_STATUS));
        p.push(relay_packet(ch, off));
        p.push(relay_packet(ch, OP_STATUS));
        assert(crate::command_queue::chunks_of(p@) =~= seq![
            packet_bytes(self.probe_channel(), self.press_op()),
            packet_bytes(self.probe_channel(), OP_STATUS),
            packet_bytes(self.probe_channel(), self.release_op()),
            packet_bytes(self.probe_channel(), OP_STATUS),
        ]);
        Ok(p)
    }

    /// The verdict of a verification from the two status responses: both states
    /// must be the ones that were sent.
    pub fn judge(&self, after_on: &[u8], after_off: &[u8]) -> (r: Result<bool, PowerError>)
        ensures
            ({
                let readable = after_on@.len() >= 3 && after_off@.len() >= 3;
                let confirmed = after_on@[2] == self.press_op() && after_off@[2]
                    == self.release_op();
                match r {
                    Ok(b) => b && readable && confirmed,
                    Err(e) => if !readable {
                        e == (PowerError::VerifyFailed { sent: 0, read_back: 0 })
                    } else {
                        !confirmed && e == (PowerError::VerifyFailed {
                            sent: self.press_op(),
                            read_back: after_on@[2],
                        })
                    },
                }
            }),
    {
        let (on, off): (u8, u8) = if self.inverted {
            (OP_OFF, OP_ON)
        } else {
            (OP_ON, OP_OFF)
        };
        let state_on: u8 = match read_channel_state(after_on) {
            Ok(s) => s,
            Err(e) => {
                return Err(e);
            },
        };
        let state_off: u8 = match read_channel_state(after_off) {
            Ok(s) => s,
            Err(e) => {
                return Err(e);
            },
        };
        if state_on == on && state_off == off {
            Ok(true)
        } else {
            Err(PowerError::VerifyFailed { sent: on, read_back: state_on })
        }
    }

    /// The name of the backend.
    pub fn name(&self) -> (r: &'static str)
        ensures
            r@ == "ch340-relay"@,
    {
        "ch340-relay"
    }

    /// Whether a button is configured.
    pub fn has_button(&self, button: Button) -> (r: bool)
        ensures
            r == (self.channels.channel(button) > 0),
    {
        self.channels.get(button) > 0
    }
}

/// A reboot over the serial line in place of hardware control.
pub struct SoftwareRebootControl;

impl SoftwareRebootControl {
    pub fn new() -> (r: Self)
        ensures
            r == SoftwareRebootControl,
    {
        SoftwareRebootControl
    }

    /// Only the reset button can be pressed; the reboot itself goes over the
    /// serial line.
    pub fn press(&self, button: Button) -> (r: Result<(), PowerError>)
        ensures
            r is Ok <==> button == Button::Reset,
            r matches Err(e) ==> e is NotConfigured,
    {
        if button != Button::Reset {
            return Err(PowerError::NotConfigured);
        }
        Ok(())
    }

    /// Releasing does nothing.
    pub fn release(&self, _button: Button) -> (r: Result<(), PowerError>)
        ensures
            r is Ok,
    {
        Ok(())
    }

    /// A reboot cannot be verified.
    pub fn verify(&self) -> (r: Result<bool, PowerError>)
        ensures
            r == Ok::<bool, PowerError>(false),
    {
        Ok(false)
    }

    /// The name of the backend.
    pub fn name(&self) -> (r: &'static str)
        ensures
            r@ == "software-reboot"@,
    {
        "software-reboot"
    }

    /// Whether a button is configured.
    pub fn has_button(&self, button: Button) -> (r: bool)
        ensures
            r == (button == Button::Reset),
    {
        button == Button::Reset
    }
}

/// An external program that operates the buttons.
pub struct ExternalControl {
    pub program: String,
    pub dut_alias: String,
    pub channels: ButtonChannels,
}

impl ExternalControl {
    /// A program and some button are configured.
    pub open spec fn configured(self) -> bool {
        self.program@.len() > 0 && self.channels.any()
    }

    /// The arguments that press or release a button.
    pub open spec fn button_args(self, button: Button, pressed: Seq<char>) -> Seq<Seq<char>> {
        seq![
            "--dut"@,
            self.dut_alias@,
            "button"@,
            button.name(),
            "--pressed"@,
            pressed,
        ]
    }

    pub fn new(program: String, dut_alias: String, channels: ButtonChannels) -> (r: Self)
        ensures
            r == (ExternalControl { program, dut_alias, channels }),
    {
        ExternalControl { program, dut_alias, channels }
    }

    /// Whether a program and some button are configured.
    pub fn is_configured(&self) -> (r: bool)
        ensures
            r == self.configured(),
    {
        !self.program.as_str().is_empty() && self.channels.has_any()
    }

    /// The button's name as the program takes it.
    pub fn button_arg(&self, button: Button) -> (r: &'static str)
        ensures
            r@ == button.name(),
    {
        button.as_str()
    }

    fn args(&self, button: Button, pressed: &str) -> (r: Vec<String>)
        ensures
            crate::text::texts(r@) == self.button_args(button, pressed@),
    {
        let mut r: Vec<String> = Vec::new();
        r.push("--dut".to_owned());
        r.push(self.dut_alias.clone());
        r.push("button".to_owned());
        r.push(self.button_arg(button).to_owned());
        r.push("--pressed".to_owned());
        r.push(pressed.to_owned());
        assert(crate::text::texts(r@) =~= self.button_args(button, pressed@));
        r
    }

    /// The arguments that press a button.
    pub fn press(&self, button: Button) -> (r: Result<Vec<String>, PowerError>)
        ensures
            match r {
                Ok(a) => self.channels.channel(button) > 0 && crate::text::texts(a@)
                    == self.button_args(button, "true"@),
                Err(e) => self.channels.channel(button) == 0 && e is NotConfigured,
            },
    {
        if !self.has_button(button) {
            return Err(PowerError::NotConfigured);
        }
        Ok(self.args(button, "true"))
    }

    /// The arguments that release a button.
    pub fn release(&self, button: Button) -> (r: Result<Vec<String>, PowerError>)
        ensures
            match r {
                Ok(a) => self.channels.channel(button) > 0 && crate::text::texts(a@)
                    == self.button_args(button, "false"@),
                Err(e) => self.channels.channel(button) == 0 && e is NotConfigured,
            },
    {
        if !self.has_button(button) {
            return Err(PowerError::NotConfigured);
        }
        Ok(self.args(button, "false"))
    }

    /// The arguments of a verification.
    pub fn verify(&self) -> (r: Result<Vec<String>, PowerError>)
        ensures
            match r {
                Ok(a) => self.configured() && crate::text::texts(a@) == seq![
                    "--dut"@,
                    self.dut_alias@,
                    "verify"@,
                ],
                Err(e) => !self.configured() && e is NotConfigured,
            },
    {
        if !self.is_configured() {
            return Err(PowerError::NotConfigured);
        }
        let mut r: Vec<String> = Vec::new();
        r.push("--dut".to_owned());
        r.push(self.dut_alias.clone());
        r.push("verify".to_owned());
        assert(crate::text::texts(r@) =~= seq!["--dut"@, self.dut_alias@, "verify"@]);
        Ok(r)
    }

    /// The error of a program that could not be started.
    pub fn start_error(&self, cause: &str) -> (r: PowerError)
        ensures
            r matches PowerError::Io(m) && m@ == "External program '"@ + self.program@
                + "' failed: "@ + cause@,
    {
        let mut m = cat3("External program '", &self.program, "' failed: ");
        m.append(cause);
        PowerError::Io(m)
    }

    /// The error of a program that exited with a failure.
    pub fn exit_error(&self, status: &str, stderr: &str) -> (r: PowerError)
        ensures
            r matches PowerError::Io(m) && m@ == "External program '"@ + self.program@ + "' exit "@
                + status@ + ": "@ + stderr@,
    {
        let mut m = cat3("External program '", &self.program, "' exit ");
        m.append(status);
        m.append(": ");
        m.append(stderr);
        PowerError::Io(m)
    }

    /// The name of the backend.
    pub fn name(&self) -> (r: &'static str)
        ensures
            r@ == "external-dev-ctl"@,
    {
        "external-dev-ctl"
    }

    /// Whether a button is configured.
    pub fn has_button(&self, button: Button) -> (r: bool)
        ensures
            r == (self.channels.channel(button) > 0),
    {
        self.channels.get(button) > 0
    }
}

/// What a verification asks for.
pub enum VerifyPlan {
    /// Send these packets to the relay board and judge the responses.
    Packets(Vec<Vec<u8>>),
    /// Run the external program with these arguments.
    Run(Vec<String>),
    /// The backend cannot be verified.
    Unsupported,
}

/// The configured backend.
pub enum PowerControlBackend {
    Ch340(Ch340RelayControl),
    External(ExternalControl),
    Software(SoftwareRebootControl),
}

impl PowerControlBackend {
    /// The backend controls the button.
    pub open spec fn controls(self, button: Button) -> bool {
        match self {
            PowerControlBackend::Ch340(c) => c.channels.channel(button) > 0,
            PowerControlBackend::External(c) => c.channels.channel(button) > 0,
            PowerControlBackend::Software(_) => button == Button::Reset,
        }
    }

    /// The step is what the backend does to press or release the button.
    pub open spec fn operates(self, button: Button, press: bool, step: ControlStep) -> bool {
        match self {
            PowerControlBackend::Ch340(c) => step matches ControlStep::Packet(p) && p@
                == packet_bytes(
                c.channels.channel(button),
                if press {
                    c.press_op()
                } else {
                    c.release_op()
                },
            ),
            PowerControlBackend::External(c) => step matches ControlStep::Run(a)
                && crate::text::texts(a@) == c.button_args(
                button,
                if press {
                    "true"@
                } else {
                    "false"@
                },
            ),
            PowerControlBackend::Software(_) => step is Nothing,
        }
    }

    /// The name of the backend.
    pub open spec fn title(self) -> Seq<char> {
        match self {
            PowerControlBackend::Ch340(_) => "ch340-relay"@,
            PowerControlBackend::External(_) => "external-dev-ctl"@,
            PowerControlBackend::Software(_) => "software-reboot"@,
        }
    }

    /// What pressing a button asks for.
    pub fn press(&self, button: Button) -> (r: Result<ControlStep, PowerError>)
        ensures
            match r {
                Ok(s) => self.controls(button) && self.operates(button, true, s),
                Err(e) => !self.controls(button) && e is NotConfigured,
            },
    {
        match self {
            PowerControlBackend::Ch340(c) => match c.press(button) {
                Ok(p) => Ok(ControlStep::Packet(p)),
                Err(e) => Err(e),
            },
            PowerControlBackend::External(c) => match c.press(button) {
                Ok(a) => Ok(ControlStep::Run(a)),
                Err(e) => Err(e),
            },
            PowerControlBackend::Software(c) => match c.press(button) {
                Ok(_) => Ok(ControlStep::Nothing),
                Err(e) => Err(e),
            },
        }
    }

    /// What releasing a button asks for. A reboot has nothing to release.
    pub fn release(&self, button: Button) -> (r: Result<ControlStep, PowerError>)
        ensures
            match r {
                Ok(s) => (self.controls(button) || self is Software) && self.operates(
                    button,
                    false,
                    s,
                ),
                Err(e) => !self.controls(button) && !(self is Software) && e is NotConfigured,
            },
    {
        match self {
            PowerControlBackend::Ch340(c) => match c.release(button) {
                Ok(p) => Ok(ControlStep::Packet(p)),
                Err(e) => Err(e),
            },
            PowerControlBackend::External(c) => match c.release(button) {
                Ok(a) => Ok(ControlStep::Run(a)),
                Err(e) => Err(e),
            },
            PowerControlBackend::Software(_) => Ok(ControlStep::Nothing),
        }
    }

    /// What a pulse of a button asks for: press it, wait, release it.
    pub fn pulse(&self, button: Button, delay_ms: u64) -> (r: Result<
        (ControlStep, u64, ControlStep),
        PowerError,
    >)
        ensures
            match r {
                Ok(s) => self.controls(button) && self.operates(button, true, s.0) && s.1
                    == delay_ms && self.operates(button, false, s.2),
                Err(e) => !self.controls(button) && e is NotConfigured,
            },
    {
        match (self.press(button), self.release(button)) {
            (Ok(on), Ok(off)) => Ok((on, delay_ms, off)),
            _ => Err(PowerError::NotConfigured),
        }
    }

    /// What a verification asks for.
    pub fn verify(&self) -> (r: Result<VerifyPlan, PowerError>)
        ensures
            match self {
                PowerControlBackend::Ch340(c) => match r {
                    Ok(p) => c.configured() && p is Packets && crate::command_queue::chunks_of(
                        p->Packets_0@,
                    ) == seq![
                        packet_bytes(c.probe_channel(), c.press_op()),
                        packet_bytes(c.probe_channel(), OP_STATUS),
                        packet_bytes(c.probe_channel(), c.release_op()),
                        packet_bytes(c.probe_channel(), OP_STATUS),
                    ],
                    Err(e) => !c.configured() && e is NotConfigured,
                },
                PowerControlBackend::External(c) => match r {
                    Ok(p) => c.configured() && p is Run && crate::text::texts(p->Run_0@) == seq![
                        "--dut"@,
                        c.dut_alias@,
                        "verify"@,
                    ],
                    Err(e) => !c.configured() && e is NotConfigured,
                },
                PowerControlBackend::Software(_) => r == Ok::<VerifyPlan, PowerError>(
                    VerifyPlan::Unsupported,
                ),
            },
    {
        match self {
            PowerControlBackend::Ch340(c) => match c.verify() {
                Ok(p) => Ok(VerifyPlan::Packets(p)),
                Err(e) => Err(e),
            },
            PowerControlBackend::External(c) => match c.verify() {
                Ok(a) => Ok(VerifyPlan::Run(a)),
                Err(e) => Err(e),
            },
            PowerControlBackend::Software(_) => Ok(VerifyPlan::Unsupported),
        }
    }

    /// The name of the backend.
    pub fn name(&self) -> (r: &'static str)
        ensures
            r@ == self.title(),
    {
        match self {
            PowerControlBackend::Ch340(c) => c.name(),
            PowerControlBackend::External(c) => c.name(),
            PowerControlBackend::Software(c) => c.name(),
        }
    }

    /// Whether the backend controls a button.
    pub fn has_button(&self, button: Button) -> (r: bool)
        ensures
            r == self.controls(button),
    {
        match self {
            PowerControlBackend::Ch340(c) => c.has_button(button),
            PowerControlBackend::External(c) => c.has_button(button),
            PowerControlBackend::Software(c) => c.has_button(button),
        }
    }
}

// ── Laws ────────────────────────────────────────────────────────────────────

/// Law: the checksum makes the packet's bytes sum up: the last byte is the low
/// byte of the sum of the first three.
pub proof fn law_packet_checksum(channel: u8, opcode: u8)
    ensures
        packet_bytes(channel, opcode).len() == 4,
        packet_bytes(channel, opcode)[3] as int == (packet_bytes(channel, opcode)[0]
            + packet_bytes(channel, opcode)[1] + packet_bytes(channel, opcode)[2]) % 256,
{
}

/// Law: pressing and releasing a button send different packets to its channel.
pub proof fn law_press_differs_from_release(c: Ch340RelayControl, button: Button)
    ensures
        packet_bytes(c.channels.channel(button), c.press_op())[2] != packet_bytes(
            c.channels.channel(button),
            c.release_op(),
        )[2],
        packet_bytes(c.channels.channel(button), c.press_op())[1] == packet_bytes(
            c.channels.channel(button),
            c.release_op(),
        )[1],
{
}

/// Law: a packet is the header 0xA0, the channel, the operation and their sum as a byte;
/// pressing a button switches its own channel on, releasing it switches that channel
/// off, and the other way round on an inverted board.
pub proof fn law_buttons_switch_their_channels(c: Ch340RelayControl, button: Button, step: ControlStep)
    ensures
        ({
            let b = PowerControlBackend::Ch340(c);
            let ch = match button {
                Button::Reset => c.channels.reset,
                Button::Maskrom => c.channels.maskrom,
                Button::Recovery => c.channels.recovery,
            };
            let on = seq![0xA0u8, ch, 1u8, ((0xA0 + ch + 1) % 256) as u8];
            let off = seq![0xA0u8, ch, 0u8, ((0xA0 + ch) % 256) as u8];
            &&& b.operates(button, true, step) <==> (step matches ControlStep::Packet(p) && p@ == (
            if c.inverted {
                off
            } else {
                on
            }))
            &&& b.operates(button, false, step) <==> (step matches ControlStep::Packet(p) && p@ == (
            if c.inverted {
                on
            } else {
                off
            }))
            &&& b.controls(button) <==> ch > 0
        }),
{
}

/// Law: an external program is told the DUT, the button and whether it is pressed.
pub proof fn law_programs_are_told_the_button(c: ExternalControl, button: Button, step: ControlStep)
    ensures
        ({
            let b = PowerControlBackend::External(c);
            let name = match button {
                Button::Reset => "reset"@,
                Button::Maskrom => "maskrom"@,
                Button::Recovery => "recovery"@,
            };
            let told = |pressed: Seq<char>|
                step matches ControlStep::Run(a) && crate::text::texts(a@) == seq![
                    "--dut"@,
                    c.dut_alias@,
                    "button"@,
                    name,
                    "--pressed"@,
                    pressed,
                ];
            &&& b.operates(button, true, step) <==> told("true"@)
            &&& b.operates(button, false, step) <==> told("false"@)
        }),
{
}

/// Law: without hardware only a reset can be done, and nothing is sent for it.
pub proof fn law_software_only_resets(s: SoftwareRebootControl, button: Button, press: bool, step: ControlStep)
    ensures
        PowerControlBackend::Software(s).controls(button) <==> button == Button::Reset,
        PowerControlBackend::Software(s).operates(button, press, step) <==> step is Nothing,
        PowerControlBackend::Software(s).title() == "software-reboot"@,
{
}

/// Law: a backend is configured where it has an address, or a program, and a channel
/// for some button; it is probed on the first channel that is set.
pub proof fn law_configured_backends(c: Ch340RelayControl, e: ExternalControl)
    ensures
        c.configured() <==> c.port > 0 && (c.channels.reset > 0 || c.channels.maskrom > 0
            || c.channels.recovery > 0),
        e.configured() <==> e.program@.len() > 0 && (e.channels.reset > 0 || e.channels.maskrom > 0
            || e.channels.recovery > 0),
        c.channels.reset > 0 ==> c.probe_channel() == c.channels.reset,
        c.channels.reset == 0 && c.channels.maskrom > 0 ==> c.probe_channel() == c.channels.maskrom,
        c.channels.reset == 0 && c.channels.maskrom == 0 ==> c.probe_channel()
            == c.channels.recovery,
{
    assert(c.channels.channel(Button::Reset) == c.channels.reset);
    assert(c.channels.channel(Button::Maskrom) == c.channels.maskrom);
    assert(c.channels.channel(Button::Recovery) == c.channels.recovery);
    assert(e.channels.channel(Button::Reset) == e.channels.reset);
    assert(e.channels.channel(Button::Maskrom) == e.channels.maskrom);
    assert(e.channels.channel(Button::Recovery) == e.channels.recovery);
}

/// Law: a byte is shown by its two hexadecimal digits.
pub proof fn law_bytes_are_shown(b: u8)
    ensures
        byte_hex(b) == "0x"@ + crate::text::hex_bytes(seq![b]),
{
    assert(seq![b].drop_last() =~= Seq::<u8>::empty());
    reveal_with_fuel(crate::text::hex_bytes, 2);
    assert(byte_hex(b) =~= "0x"@ + crate::text::hex_bytes(seq![b]));
}

/// Law: pressing a button and releasing it send two packets to its own channel that
/// differ in their operation alone; a button without a channel sends none.
pub proof fn law_pressing_and_releasing(
    c: Ch340RelayControl,
    button: Button,
    p: Result<Vec<u8>, PowerError>,
    q: Result<Vec<u8>, PowerError>,
)
    requires
        call_ensures(Ch340RelayControl::press, (&c, button), p),
        call_ensures(Ch340RelayControl::release, (&c, button), q),
    ensures
        ({
            let ch = match button {
                Button::Reset => c.channels.reset,
                Button::Maskrom => c.channels.maskrom,
                Button::Recovery => c.channels.recovery,
            };
            &&& p is Ok <==> ch > 0
            &&& q is Ok <==> ch > 0
            &&& ch > 0 && !c.inverted ==> p->Ok_0@[2] == 1 && q->Ok_0@[2] == 0
            &&& ch > 0 && c.inverted ==> p->Ok_0@[2] == 0 && q->Ok_0@[2] == 1
            &&& ch > 0 ==> p->Ok_0@[0] == 0xA0 && q->Ok_0@[0] == 0xA0 && p->Ok_0@[1] == ch
                && q->Ok_0@[1] == ch && p->Ok_0@.len() == 4 && q->Ok_0@.len() == 4
            &&& p matches Err(e) ==> e is NotConfigured
        }),
{
}

/// Law: a relay works where the channel reads back as on after it was switched on, and as
/// off after it was switched off.
pub proof fn law_judging_a_relay(
    c: Ch340RelayControl,
    on: &[u8],
    off: &[u8],
    r: Result<bool, PowerError>,
)
    requires
        call_ensures(Ch340RelayControl::judge, (&c, on, off), r),
    ensures
        r is Ok <==> on@.len() >= 3 && off@.len() >= 3 && (if c.inverted {
            on@[2] == 0 && off@[2] == 1
        } else {
            on@[2] == 1 && off@[2] == 0
        }),
        r matches Ok(b) ==> b,
        r matches Err(e) ==> e is VerifyFailed,
        r matches Err(PowerError::VerifyFailed { sent, read_back }) ==> on@.len() >= 3 && off@.len()
            >= 3 ==> read_back == on@[2],
{
}

/// Law: a channel's state is the third byte of the response.
pub proof fn law_channel_states(response: &[u8], r: Result<u8, PowerError>)
    requires
        call_ensures(read_channel_state, (response,), r),
    ensures
        r is Ok <==> response@.len() >= 3,
        r matches Ok(s) ==> s == response@[2],
{
}

/// Law: a pulse is a press, a wait of the given time and a release.
pub proof fn law_pulses(
    b: PowerControlBackend,
    button: Button,
    ms: u64,
    r: Result<(ControlStep, u64, ControlStep), PowerError>,
)
    requires
        call_ensures(PowerControlBackend::pulse, (&b, button, ms), r),
    ensures
        r is Ok <==> b.controls(button),
        r matches Ok(s) ==> b.operates(button, true, s.0) && s.1 == ms && b.operates(
            button,
            false,
            s.2,
        ),
{
}

} // verus!
