//! The command-line client: its arguments, its choices, and its interactive
//! console.

use crate::bridge::{lower_text, lowercased, md5_digest, md5_of};
use crate::config::{DutConfig, DutView, duts_of, dut_named, find_dut};
use crate::highlight::{render, rendered};
use crate::text::{
    append_bytes, cat, cat3, chars_of, contains_text, decimal, decimal_text, eq_text, is_at,
    next_index, index_from, occurs, parse_uint, parse_unsigned, rfind_chars, rfind_seq, space,
    is_space, starts_with_text, string_of_range, texts,
};
use vstd::prelude::*;
use vstd::string::*;
use vstd::utf8::encode_utf8;

verus! {

// ── Sanitizing terminal output ──────────────────────────────────────────────

/// Where in an escape sequence the output is.
pub enum AnsiState {
    Ground,
    /// Behind ESC, with the bytes so far.
    Esc(Vec<u8>),
    /// Inside a control sequence, with the bytes so far.
    Csi(Vec<u8>),
    /// Inside an operating system command.
    Osc,
}

/// The model of an `AnsiState`.
pub enum AnsiView {
    Ground,
    Esc(Seq<u8>),
    Csi(Seq<u8>),
    Osc,
}

impl View for AnsiState {
    type V = AnsiView;

    open spec fn view(&self) -> AnsiView {
        match *self {
            AnsiState::Ground => AnsiView::Ground,
            AnsiState::Esc(s) => AnsiView::Esc(s@),
            AnsiState::Csi(s) => AnsiView::Csi(s@),
            AnsiState::Osc => AnsiView::Osc,
        }
    }
}

/// A control sequence that begins with `ESC [`.
pub open spec fn is_csi(seq: Seq<u8>) -> bool {
    seq.len() >= 2 && seq[0] == 0x1b && seq[1] == 91
}

/// A colour sequence that holds digits and semicolons alone.
pub open spec fn is_plain_sgr(seq: Seq<u8>) -> bool {
    is_csi(seq) && forall|i: int|
        2 <= i < seq.len() - 1 ==> (48 <= #[trigger] seq[i] <= 57 || seq[i] == 59)
}

/// Whether a colour sequence holds digits and semicolons alone.
pub fn is_safe_sgr(seq: &[u8]) -> (r: bool)
    requires
        is_csi(seq@) ==> seq@.len() >= 3,
    ensures
        r == is_plain_sgr(seq@),
{
    if seq.len() < 2 || seq[0] != 0x1b || seq[1] != 91 {
        return false;
    }
    let mut i: usize = 2;
    while i < seq.len() - 1
        invariant
            2 <= i <= seq.len() - 1,
            forall|j: int| 2 <= j < i ==> (48 <= #[trigger] seq@[j] <= 57 || seq@[j] == 59),
        decreases seq.len() - i,
    {
        let b: u8 = seq[i];
        if !((48 <= b && b <= 57) || b == 59) {
            return false;
        }
        i = i + 1;
    }
    true
}

/// A byte that ends a control sequence.
pub open spec fn ends_csi(b: u8) -> bool {
    64 <= b <= 126
}

/// The last byte of a control sequence that line editing needs: moving the
/// cursor, erasing the line and deleting characters.
pub open spec fn is_editing(b: u8) -> bool {
    65 <= b <= 68 || b == 75 || b == 80
}

/// The model of a `TerminalSanitizer`.
pub struct SanitizerView {
    pub state: AnsiView,
    pub allow_color: bool,
}

impl SanitizerView {
    /// What one byte does to the state, and what comes out.
    pub open spec fn step(self, b: u8) -> (AnsiView, Seq<u8>) {
        match self.state {
            AnsiView::Ground => if b == 0x1b {
                (AnsiView::Esc(seq![b]), Seq::empty())
            } else {
                (AnsiView::Ground, seq![b])
            },
            AnsiView::Esc(s) => {
                let t = s.push(b);
                if b == 91 {
                    (AnsiView::Csi(t), Seq::empty())
                } else if b == 93 {
                    (AnsiView::Osc, Seq::empty())
                } else if b == 40 || b == 41 || b == 62 || b == 61 {
                    (AnsiView::Esc(t), Seq::empty())
                } else {
                    (AnsiView::Ground, Seq::empty())
                }
            },
            AnsiView::Csi(s) => {
                let t = s.push(b);
                if !ends_csi(b) {
                    (AnsiView::Csi(t), Seq::empty())
                } else if b == 109 {
                    (
                        AnsiView::Ground,
                        if self.allow_color && is_plain_sgr(t) {
                            t
                        } else {
                            Seq::empty()
                        },
                    )
                } else {
                    (
                        AnsiView::Ground,
                        if is_editing(b) {
                            t
                        } else {
                            Seq::empty()
                        },
                    )
                }
            },
            AnsiView::Osc => if b == 7 || b == 92 {
                (AnsiView::Ground, Seq::empty())
            } else {
                (AnsiView::Osc, Seq::empty())
            },
        }
    }

    /// What output does to the state, and what comes out.
    pub open spec fn filtered(self, raw: Seq<u8>) -> (SanitizerView, Seq<u8>)
        decreases raw.len(),
    {
        if raw.len() == 0 {
            (self, Seq::empty())
        } else {
            let (v, out) = self.filtered(raw.drop_last());
            let (s, more) = v.step(raw.last());
            (SanitizerView { state: s, ..v }, out + more)
        }
    }
}

/// Takes control sequences out of output: colours stay where they are allowed and
/// plain, and so does what line editing needs. A sequence may be cut anywhere.
pub struct TerminalSanitizer {
    state: AnsiState,
    allow_color: bool,
}

impl View for TerminalSanitizer {
    type V = SanitizerView;

    closed spec fn view(&self) -> SanitizerView {
        SanitizerView { state: self.state@, allow_color: self.allow_color }
    }
}

impl TerminalSanitizer {
    /// A sequence in progress begins with ESC and is not empty.
    #[verifier::type_invariant]
    spec fn begun(self) -> bool {
        match self.state {
            AnsiState::Esc(s) => s@.len() >= 1,
            AnsiState::Csi(s) => s@.len() >= 2,
            _ => true,
        }
    }

    pub fn new(allow_color: bool) -> (r: Self)
        ensures
            r@ == (SanitizerView { state: AnsiView::Ground, allow_color }),
    {
        TerminalSanitizer { state: AnsiState::Ground, allow_color }
    }

    /// Takes in one byte.
    fn push(&mut self, b: u8, out: &mut Vec<u8>)
        ensures
            final(self)@ == (SanitizerView { state: old(self)@.step(b).0, ..old(self)@ }),
            final(out)@ == old(out)@ + old(self)@.step(b).1,
    {
        proof {
            use_type_invariant(&*self);
        }
        let ghost start = out@;
        assert(start + Seq::<u8>::empty() =~= start);
        let mut state = AnsiState::Ground;
        std::mem::swap(&mut state, &mut self.state);
        match state {
            AnsiState::Ground => {
                if b == 0x1b {
                    let mut s: Vec<u8> = Vec::new();
                    s.push(b);
                    assert(s@ =~= seq![b]);
                    self.state = AnsiState::Esc(s);
                } else {
                    out.push(b);
                    assert(out@ =~= start + seq![b]);
                }
            },
            AnsiState::Esc(mut s) => {
                s.push(b);
                if b == 91 {
                    self.state = AnsiState::Csi(s);
                } else if b == 93 {
                    self.state = AnsiState::Osc;
                } else if b == 40 || b == 41 || b == 62 || b == 61 {
                    self.state = AnsiState::Esc(s);
                }
            },
            AnsiState::Csi(mut s) => {
                s.push(b);
                if 64 <= b && b <= 126 {
                    if b == 109 {
                        if self.allow_color && is_safe_sgr(&s) {
                            append_bytes(out, &s);
                        }
                    } else if (65 <= b && b <= 68) || b == 75 || b == 80 {
                        append_bytes(out, &s);
                    }
                } else {
                    self.state = AnsiState::Csi(s);
                }
            },
            AnsiState::Osc => {
                if b != 7 && b != 92 {
                    self.state = AnsiState::Osc;
                }
            },
        }
    }

    /// Appends what stays of the output.
    pub fn filter(&mut self, raw: &[u8], out: &mut Vec<u8>)
        ensures
            final(self)@ == old(self)@.filtered(raw@).0,
            final(out)@ == old(out)@ + old(self)@.filtered(raw@).1,
    {
        let mut i: usize = 0;
        assert(raw@.subrange(0, 0) =~= Seq::<u8>::empty());
        assert(out@ =~= old(out)@ + Seq::<u8>::empty());
        while i < raw.len()
            invariant
                i <= raw.len(),
                self@ == old(self)@.filtered(raw@.subrange(0, i as int)).0,
                out@ == old(out)@ + old(self)@.filtered(raw@.subrange(0, i as int)).1,
            decreases raw.len() - i,
        {
            let ghost t = raw@.subrange(0, i + 1);
            assert(t.drop_last() =~= raw@.subrange(0, i as int));
            let ghost v = self@;
            let ghost before = old(self)@.filtered(t.drop_last()).1;
            self.push(raw[i], out);
            assert(out@ =~= old(out)@ + (before + v.step(raw@[i as int]).1));
            i = i + 1;
        }
        assert(raw@.subrange(0, raw@.len() as int) =~= raw@);
    }
}

/// Appends output with its shell prompts coloured. A line that holds no prompt
/// stays as it is.
pub fn highlight_serial_prompt(data: &[u8], out: &mut Vec<u8>)
    ensures
        final(out)@ == old(out)@ + rendered(data@, 0, false),
{
    render(data, false, out);
}

/// The model of a `RelayOutput`.
pub struct RelayView {
    pub sanitizer: SanitizerView,
    pub tty: bool,
    /// Nothing was written yet, and the first output must start a line.
    pub first: bool,
}

impl RelayView {
    /// What of a chunk of output is written to the terminal: sanitized, on a line of
    /// its own at first, and with its prompts coloured on a terminal.
    pub open spec fn shown(self, data: Seq<u8>) -> (RelayView, Seq<u8>) {
        let (s, out) = self.sanitizer.filtered(data);
        if out.len() == 0 {
            (RelayView { sanitizer: s, ..self }, Seq::empty())
        } else {
            (
                RelayView { sanitizer: s, first: false, ..self },
                (if self.first && out[0] != 13 && out[0] != 10 {
                    seq![13u8, 10u8]
                } else {
                    Seq::empty()
                }) + (if self.tty {
                    rendered(out, 0, false)
                } else {
                    out
                }),
            )
        }
    }
}

/// The way from the serial line to the terminal.
pub struct RelayOutput {
    sanitizer: TerminalSanitizer,
    tty: bool,
    first: bool,
}

impl View for RelayOutput {
    type V = RelayView;

    closed spec fn view(&self) -> RelayView {
        RelayView { sanitizer: self.sanitizer@, tty: self.tty, first: self.first }
    }
}

impl RelayOutput {
    /// Output to a terminal or not. Colours are allowed on a terminal.
    pub fn new(tty: bool, starts_line: bool) -> (r: Self)
        ensures
            r@ == (RelayView {
                sanitizer: SanitizerView { state: AnsiView::Ground, allow_color: tty },
                tty,
                first: starts_line,
            }),
    {
        RelayOutput { sanitizer: TerminalSanitizer::new(tty), tty, first: starts_line }
    }

    /// What of a chunk of output is written.
    pub fn show(&mut self, data: &[u8]) -> (r: Vec<u8>)
        ensures
            (final(self)@, r@) == old(self)@.shown(data@),
    {
        let mut out: Vec<u8> = Vec::new();
        self.sanitizer.filter(data, &mut out);
        let ghost clean = old(self)@.sanitizer.filtered(data@).1;
        assert(out@ =~= clean);
        let mut written: Vec<u8> = Vec::new();
        if out.len() == 0 {
            return written;
        }
        if self.first && out[0] != 13 && out[0] != 10 {
            written.push(13);
            written.push(10);
            assert(written@ =~= seq![13u8, 10u8]);
        }
        self.first = false;
        if self.tty {
            highlight_serial_prompt(&out, &mut written);
        } else {
            append_bytes(&mut written, &out);
        }
        written
    }
}

// ── The escape key ──────────────────────────────────────────────────────────

/// What a key does.
#[derive(Debug, PartialEq, Eq)]
pub enum EscapeAction {
    /// Send these bytes.
    Send(Vec<u8>),
    /// Wait for the next key.
    Nothing,
    /// Leave the console.
    Quit,
}

/// Recognises Ctrl-T followed by q.
pub struct CtrlTEscape {
    /// The last key was Ctrl-T.
    pub esc: bool,
}

impl CtrlTEscape {
    pub fn new() -> (r: Self)
        ensures
            !r.esc,
    {
        CtrlTEscape { esc: false }
    }

    /// Takes in one key.
    pub fn feed(&mut self, b: u8) -> (r: EscapeAction)
        ensures
            final(self).esc == (!old(self).esc && b == 0x14),
            if old(self).esc {
                if b == 113 || b == 81 {
                    r is Quit
                } else {
                    r matches EscapeAction::Send(v) && v@ == seq![0x14u8, b]
                }
            } else if b == 0x14 {
                r is Nothing
            } else {
                r matches EscapeAction::Send(v) && v@ == seq![b]
            },
    {
        if self.esc {
            self.esc = false;
            if b == 113 || b == 81 {
                return EscapeAction::Quit;
            }
            let mut v: Vec<u8> = Vec::new();
            v.push(0x14);
            v.push(b);
            assert(v@ =~= seq![0x14u8, b]);
            return EscapeAction::Send(v);
        }
        if b == 0x14 {
            self.esc = true;
            return EscapeAction::Nothing;
        }
        let mut v: Vec<u8> = Vec::new();
        v.push(b);
        assert(v@ =~= seq![b]);
        EscapeAction::Send(v)
    }
}

/// An error that only says that the connection ended.
pub open spec fn is_clean_end(message: Seq<char>) -> bool {
    let m = lowercased(message);
    occurs(m, "reset without closing"@) || occurs(m, "connection reset"@) || occurs(
        m,
        "broken pipe"@,
    ) || occurs(m, "connection closed"@)
}

/// Whether an error in lower case only says that the connection ended.
pub fn ends_cleanly(lower: &str) -> (r: bool)
    ensures
        r == (occurs(lower@, "reset without closing"@) || occurs(lower@, "connection reset"@)
            || occurs(lower@, "broken pipe"@) || occurs(lower@, "connection closed"@)),
{
    contains_text(lower, "reset without closing") || contains_text(lower, "connection reset")
        || contains_text(lower, "broken pipe") || contains_text(lower, "connection closed")
}

/// Whether an error only says that the connection ended.
pub fn clean_disconnect(message: &str) -> (r: bool)
    ensures
        r == is_clean_end(message@),
{
    ends_cleanly(&lower_text(message))
}

// ── Arguments ───────────────────────────────────────────────────────────────

/// The port of the server where nothing says otherwise.
pub const MCP_DEFAULT_PORT: u16 = 3000;

/// The first of the ports that projects are given.
pub const MC_PORT_BASE: u16 = 3001;

/// How many ports projects are given.
pub const MC_PORT_RANGE: u16 = 99;

/// The arguments of the client.
pub struct ClientArgs {
    pub dut_alias: Option<String>,
    pub mcp_port: u16,
    /// The port was given on the command line.
    pub mcp_port_explicit: bool,
    pub command: Option<String>,
    pub positional: Vec<String>,
}

/// The model of `ClientArgs`.
pub struct ClientView {
    pub dut_alias: Option<Seq<char>>,
    pub mcp_port: u16,
    pub mcp_port_explicit: bool,
    pub command: Option<Seq<char>>,
    pub positional: Seq<Seq<char>>,
}

impl View for ClientArgs {
    type V = ClientView;

    open spec fn view(&self) -> ClientView {
        ClientView {
            dut_alias: crate::text::text_option(self.dut_alias),
            mcp_port: self.mcp_port,
            mcp_port_explicit: self.mcp_port_explicit,
            command: crate::text::text_option(self.command),
            positional: texts(self.positional@),
        }
    }
}

/// A port number, or the default.
pub open spec fn port_of(s: Seq<char>) -> u16 {
    match parse_unsigned(s, u16::MAX as nat) {
        Some(p) => p as u16,
        None => MCP_DEFAULT_PORT,
    }
}

impl ClientView {
    /// The arguments with those from `i` on.
    pub open spec fn reading(self, args: Seq<Seq<char>>, i: int) -> ClientView
        decreases args.len() - i,
    {
        if i < 0 || i >= args.len() {
            self
        } else if args[i] == "--dut"@ && i + 1 < args.len() {
            (ClientView { dut_alias: Some(args[i + 1]), ..self }).reading(args, i + 2)
        } else if args[i] == "--mcp-port"@ && i + 1 < args.len() {
            (ClientView {
                mcp_port: port_of(args[i + 1]),
                mcp_port_explicit: true,
                ..self
            }).reading(args, i + 2)
        } else if !is_at(args[i], "-"@, 0) && self.command is None {
            (ClientView { command: Some(args[i]), ..self }).reading(args, i + 1)
        } else {
            (ClientView { positional: self.positional.push(args[i]), ..self }).reading(args, i + 1)
        }
    }
}

fn read_port(s: &str) -> (r: u16)
    ensures
        r == port_of(s@),
{
    match parse_uint(s, u16::MAX as u64) {
        Some(p) => p as u16,
        None => MCP_DEFAULT_PORT,
    }
}

/// Reads the command line, without the program's name. `port` is the text of the
/// environment's port, where there is one.
pub fn parse_client_args(args: &Vec<String>, port: Option<&str>) -> (r: ClientArgs)
    ensures
        r@ == (ClientView {
            dut_alias: None,
            mcp_port: match port {
                Some(p) => port_of(p@),
                None => MCP_DEFAULT_PORT,
            },
            mcp_port_explicit: false,
            command: None,
            positional: Seq::empty(),
        }).reading(texts(args@), 0),
{
    let mut r = ClientArgs {
        dut_alias: None,
        mcp_port: match port {
            Some(p) => read_port(p),
            None => MCP_DEFAULT_PORT,
        },
        mcp_port_explicit: false,
        command: None,
        positional: Vec::new(),
    };
    assert(texts(r.positional@) =~= Seq::<Seq<char>>::empty());
    let ghost start = r@;
    let ghost all = texts(args@);
    let mut i: usize = 0;
    while i < args.len()
        invariant
            i <= args@.len(),
            all == texts(args@),
            all.len() == args@.len(),
            start.reading(all, 0) == r@.reading(all, i as int),
        decreases args@.len() - i,
    {
        assert(all[i as int] == args@[i as int]@);
        if eq_text(&args[i], "--dut") && i + 1 < args.len() {
            assert(all[i + 1] == args@[i + 1]@);
            r.dut_alias = Some(args[i + 1].clone());
            i = i + 2;
        } else if eq_text(&args[i], "--mcp-port") && i + 1 < args.len() {
            assert(all[i + 1] == args@[i + 1]@);
            r.mcp_port = read_port(&args[i + 1]);
            r.mcp_port_explicit = true;
            i = i + 2;
        } else if !starts_with_text(&args[i], "-") && r.command.is_none() {
            r.command = Some(args[i].clone());
            i = i + 1;
        } else {
            let ghost before = r.positional@;
            r.positional.push(args[i].clone());
            assert(texts(r.positional@) =~= texts(before).push(all[i as int]));
            i = i + 1;
        }
    }
    r
}

/// The commands of the client.
#[derive(Debug, Clone, Copy, PartialEq, Eq, Structural)]
pub enum ClientCommand {
    List,
    State,
    Serial,
    Reboot,
    Uboot,
    Maskrom,
    /// Write a full image.
    Flash,
    /// Write a kernel image.
    FlashKernel,
}

/// The command of a name.
pub open spec fn command_named(name: Seq<char>) -> Option<ClientCommand> {
    if name == "list"@ {
        Some(ClientCommand::List)
    } else if name == "state"@ {
        Some(ClientCommand::State)
    } else if name == "serial"@ {
        Some(ClientCommand::Serial)
    } else if name == "reboot"@ {
        Some(ClientCommand::Reboot)
    } else if name == "uboot"@ {
        Some(ClientCommand::Uboot)
    } else if name == "maskrom"@ {
        Some(ClientCommand::Maskrom)
    } else if name == "uf"@ {
        Some(ClientCommand::Flash)
    } else if name == "flash-kernel"@ {
        Some(ClientCommand::FlashKernel)
    } else {
        None
    }
}

/// Why a command line is refused.
pub enum UsageError {
    /// There is no command.
    NoCommand,
    /// The command is not known.
    UnknownCommand(String),
    /// The command needs an image.
    NoImage(ClientCommand),
}

/// The command that the arguments ask for.
pub fn client_command(args: &ClientArgs) -> (r: Result<ClientCommand, UsageError>)
    ensures
        match args@.command {
            None => r matches Err(e) && e is NoCommand,
            Some(name) => match command_named(name) {
                None => r matches Err(UsageError::UnknownCommand(s)) && s@ == name,
                Some(c) => if (c == ClientCommand::Flash || c == ClientCommand::FlashKernel)
                    && args@.positional.len() == 0 {
                    r matches Err(UsageError::NoImage(d)) && d == c
                } else {
                    r == Ok::<ClientCommand, UsageError>(c)
                },
            },
        },
{
    let name = match &args.command {
        Some(n) => n.as_str(),
        None => {
            return Err(UsageError::NoCommand);
        },
    };
    assert(texts(args.positional@).len() == args.positional@.len());
    let c = if eq_text(name, "list") {
        ClientCommand::List
    } else if eq_text(name, "state") {
        ClientCommand::State
    } else if eq_text(name, "serial") {
        ClientCommand::Serial
    } else if eq_text(name, "reboot") {
        ClientCommand::Reboot
    } else if eq_text(name, "uboot") {
        ClientCommand::Uboot
    } else if eq_text(name, "maskrom") {
        ClientCommand::Maskrom
    } else if eq_text(name, "uf") {
        ClientCommand::Flash
    } else if eq_text(name, "flash-kernel") {
        ClientCommand::FlashKernel
    } else {
        return Err(UsageError::UnknownCommand(name.to_owned()));
    };
    if (c == ClientCommand::Flash || c == ClientCommand::FlashKernel) && args.positional.len()
        == 0 {
        return Err(UsageError::NoImage(c));
    }
    Ok(c)
}

// ── The server's port ───────────────────────────────────────────────────────

/// The number that four bytes write.
pub open spec fn big_endian(d: Seq<u8>) -> nat {
    (d[0] as nat) * 16777216 + (d[1] as nat) * 65536 + (d[2] as nat) * 256 + d[3] as nat
}

/// The port of a digest: 3001 to 3099.
pub open spec fn digest_port(d: Seq<u8>) -> nat {
    MC_PORT_BASE as nat + big_endian(d) % (MC_PORT_RANGE as nat)
}

/// The port of a digest.
pub fn port_of_digest(d: &[u8]) -> (r: u16)
    requires
        d@.len() >= 4,
    ensures
        r == digest_port(d@),
        MC_PORT_BASE <= r < MC_PORT_BASE + MC_PORT_RANGE,
{
    let v: u64 = d[0] as u64 * 16777216 + d[1] as u64 * 65536 + d[2] as u64 * 256 + d[3] as u64;
    let m: u64 = v % (MC_PORT_RANGE as u64);
    MC_PORT_BASE + m as u16
}

/// The port of a project: the first four bytes of the digest of its canonical
/// path decide.
pub fn project_mcp_port(canonical_dir: &str) -> (r: u16)
    ensures
        r == digest_port(md5_digest(encode_utf8(canonical_dir@))),
        MC_PORT_BASE <= r < MC_PORT_BASE + MC_PORT_RANGE,
{
    let d = md5_of(canonical_dir.as_bytes());
    port_of_digest(&d)
}

/// What stands behind the last colon, or the whole text.
pub open spec fn behind_colon(s: Seq<char>) -> Seq<char> {
    match rfind_seq(s, ":"@) {
        Some(k) => s.subrange(k + 1, s.len() as int),
        None => s,
    }
}

/// What stands before the first slash, or the whole text.
pub open spec fn before_slash(s: Seq<char>) -> Seq<char> {
    s.subrange(0, next_index(s, '/', 0))
}

/// The port in a server's address.
pub fn port_from_url(url: &str) -> (r: Option<u16>)
    ensures
        match parse_unsigned(before_slash(behind_colon(url@)), u16::MAX as nat) {
            Some(p) => r == Some(p as u16),
            None => r is None,
        },
{
    let v = chars_of(url);
    let colon = chars_of(":");
    proof {
        reveal_strlit(":");
    }
    let rest = match rfind_chars(&v, &colon) {
        Some(k) => {
            assert(k < v.len());
            string_of_range(&v, k + 1, v.len())
        },
        None => url.to_owned(),
    };
    assert(rest@ == behind_colon(url@));
    let w = chars_of(&rest);
    let end: usize = index_from(&w, '/', 0);
    let port = string_of_range(&w, 0, end);
    match parse_uint(&port, u16::MAX as u64) {
        Some(p) => Some(p as u16),
        None => None,
    }
}

/// The port of the server: the one of the command line, else the one of the
/// project's client settings, else the project's own, else the default.
pub fn choose_port(args: &ClientArgs, from_settings: Option<u16>, of_project: Option<u16>) -> (r: u16)
    ensures
        r == (if args.mcp_port_explicit {
            args.mcp_port
        } else {
            match from_settings {
                Some(p) => p,
                None => match of_project {
                    Some(p) => p,
                    None => args.mcp_port,
                },
            }
        }),
{
    if args.mcp_port_explicit {
        return args.mcp_port;
    }
    match from_settings {
        Some(p) => p,
        None => match of_project {
            Some(p) => p,
            None => args.mcp_port,
        },
    }
}

/// How often the server is asked whether it runs, after a command started it.
pub const CALL_HEALTH_POLLS: u32 = 10;

/// How often the server is asked whether it runs, after the console started it.
pub const HEALTH_POLL_RETRIES: u32 = 15;

/// Milliseconds between these questions.
pub const HEALTH_POLL_INTERVAL_MS: u64 = 200;

/// What is done after a call of the server.
#[derive(Debug, Clone, Copy, PartialEq, Eq, Structural)]
pub enum CallNext {
    /// The reply is there.
    Replied,
    /// The server does not run: start it, and call again once it does.
    StartServer,
    /// There is no reply.
    GiveUp,
}

/// What is done after a call: a server that cannot be reached is started once.
pub fn after_call(attempt: u32, reached: bool, readable: bool) -> (r: CallNext)
    ensures
        r == (if reached {
            if readable {
                CallNext::Replied
            } else {
                CallNext::GiveUp
            }
        } else if attempt == 0 {
            CallNext::StartServer
        } else {
            CallNext::GiveUp
        }),
{
    if reached {
        if readable {
            CallNext::Replied
        } else {
            CallNext::GiveUp
        }
    } else if attempt == 0 {
        CallNext::StartServer
    } else {
        CallNext::GiveUp
    }
}

// ── Choosing a DUT ──────────────────────────────────────────────────────────

/// Which DUT is meant.
#[derive(Debug, Clone, Copy, PartialEq, Eq, Structural)]
pub enum Selection {
    /// There are none.
    NoDuts,
    /// The DUT at this place.
    Chosen(usize),
    /// The alias is not known.
    NotFound,
    /// There are several, and none was named.
    Ambiguous,
}

/// Which DUT is meant: the one that is named, or the only one.
pub fn select_dut(duts: &Vec<DutConfig>, alias: Option<&str>) -> (r: Selection)
    ensures
        if duts@.len() == 0 {
            r == Selection::NoDuts
        } else {
            match alias {
                Some(a) => match r {
                    Selection::Chosen(i) => i < duts@.len() && dut_named(duts_of(duts@), a@, 0)
                        == Some(duts@[i as int]@),
                    Selection::NotFound => dut_named(duts_of(duts@), a@, 0) is None,
                    _ => false,
                },
                None => r == (if duts@.len() == 1 {
                    Selection::Chosen(0)
                } else {
                    Selection::Ambiguous
                }),
            }
        },
{
    if duts.len() == 0 {
        return Selection::NoDuts;
    }
    match alias {
        Some(a) => match find_dut(duts, a) {
            Some(i) => Selection::Chosen(i),
            None => Selection::NotFound,
        },
        None => if duts.len() == 1 {
            Selection::Chosen(0)
        } else {
            Selection::Ambiguous
        },
    }
}

/// The description of a DUT in the list.
pub open spec fn dut_text(d: DutView) -> Seq<char> {
    "DUT: "@ + d.alias + "\n  dev_host: "@ + d.dev_host_alias + " ("@ + d.dev_host_user + "@"@
        + d.dev_host_ip + ")\n  serial:   "@ + d.serial_ip + ":"@ + d.serial_port
        + "\n  relay:    type="@ + d.relay_type + ", ip="@ + d.relay_ip + ", port="@ + decimal(
        d.relay_port as nat,
    ) + ", reset_ch="@ + decimal(d.reset_ch as nat) + ", maskrom_ch="@ + decimal(
        d.maskrom_ch as nat,
    ) + ", recovery_ch="@ + decimal(d.recovery_ch as nat) + ", power_ch="@ + decimal(
        d.power_ch as nat,
    ) + ", power_off_ms="@ + decimal(d.power_off_time_ms as nat) + "\n  login:    "@ + d.login_user
        + "\n  ref_log:  "@ + d.reference_log + "\n\n"@
}

/// The description of a DUT in the list.
pub fn describe_dut(d: &DutConfig) -> (r: String)
    ensures
        r@ == dut_text(d@),
{
    let mut r = cat3("DUT: ", &d.alias, "\n  dev_host: ");
    r.append(&d.dev_host_alias);
    r.append(" (");
    r.append(&d.dev_host_user);
    r.append("@");
    r.append(&d.dev_host_ip);
    r.append(")\n  serial:   ");
    r.append(&d.serial_ip);
    r.append(":");
    r.append(&d.serial_port);
    r.append("\n  relay:    type=");
    r.append(&d.relay_type);
    r.append(", ip=");
    r.append(&d.relay_ip);
    r.append(", port=");
    r.append(&decimal_text(d.relay_port as u64));
    r.append(", reset_ch=");
    r.append(&decimal_text(d.reset_ch as u64));
    r.append(", maskrom_ch=");
    r.append(&decimal_text(d.maskrom_ch as u64));
    r.append(", recovery_ch=");
    r.append(&decimal_text(d.recovery_ch as u64));
    r.append(", power_ch=");
    r.append(&decimal_text(d.power_ch as u64));
    r.append(", power_off_ms=");
    r.append(&decimal_text(d.power_off_time_ms));
    r.append("\n  login:    ");
    r.append(&d.login_user);
    r.append("\n  ref_log:  ");
    r.append(&d.reference_log);
    r.append("\n\n");
    r
}

// ── Choices of the commands ─────────────────────────────────────────────────

/// How a DUT is rebooted.
#[derive(Debug, Clone, Copy, PartialEq, Eq, Structural)]
pub enum RebootChoice {
    PowerCycle,
    RelayReset,
    Software,
}

/// How a DUT is rebooted: by its power, else by its reset, else by a command.
pub fn reboot_choice(dut: &DutConfig) -> (r: RebootChoice)
    ensures
        r == (if dut.power_ch > 0 {
            RebootChoice::PowerCycle
        } else if dut.reset_ch > 0 {
            RebootChoice::RelayReset
        } else {
            RebootChoice::Software
        }),
{
    if dut.power_ch > 0 {
        RebootChoice::PowerCycle
    } else if dut.reset_ch > 0 {
        RebootChoice::RelayReset
    } else {
        RebootChoice::Software
    }
}

/// Whether entering the boot loader is tried again with a reboot over the serial
/// line: it failed, and there is no relay.
pub fn retry_with_reboot(success: bool, error: Option<&str>, dut: &DutConfig) -> (r: bool)
    ensures
        r == (!success && (dut.reset_ch == 0 || (error matches Some(e) && occurs(
            e@,
            "No relay"@,
        )))),
{
    if success {
        return false;
    }
    if dut.reset_ch == 0 {
        return true;
    }
    match error {
        Some(e) => contains_text(e, "No relay"),
        None => false,
    }
}

/// The address of a DUT's serial line: its own, or the host's.
pub fn serial_host(dut: &DutConfig) -> (r: String)
    ensures
        r@ == crate::config::first_text(dut.serial_ip@, dut.dev_host_ip@),
{
    if dut.serial_ip.as_str().is_empty() {
        dut.dev_host_ip.clone()
    } else {
        dut.serial_ip.clone()
    }
}

// ── Flashing ────────────────────────────────────────────────────────────────

/// The first word of a text: where it starts and ends.
pub open spec fn word_start(s: Seq<char>, i: int) -> int
    decreases s.len() - i,
{
    if i < 0 || i >= s.len() || !is_space(s[i]) {
        i
    } else {
        word_start(s, i + 1)
    }
}

/// Where the word that starts at an index ends.
pub open spec fn word_end(s: Seq<char>, i: int) -> int
    decreases s.len() - i,
{
    if i < 0 || i >= s.len() || is_space(s[i]) {
        i
    } else {
        word_end(s, i + 1)
    }
}

/// The first word of a text; empty where there is none.
pub open spec fn first_word_of(s: Seq<char>) -> Seq<char> {
    let a = word_start(s, 0);
    s.subrange(a, word_end(s, a))
}

/// The first word of a text, such as the checksum in the output of a checksum
/// program.
pub fn first_word(s: &str) -> (r: String)
    ensures
        r@ == first_word_of(s@),
{
    let v = chars_of(s);
    let mut a: usize = 0;
    while a < v.len() && space(v[a])
        invariant
            a <= v@.len(),
            word_start(v@, 0) == word_start(v@, a as int),
        decreases v@.len() - a,
    {
        a = a + 1;
    }
    let mut b: usize = a;
    while b < v.len() && !space(v[b])
        invariant
            a <= b <= v@.len(),
            word_end(v@, a as int) == word_end(v@, b as int),
        decreases v@.len() - b,
    {
        b = b + 1;
    }
    string_of_range(&v, a, b)
}

/// Whether an image arrived: both checksums are there and the same.
pub fn checksums_match(local: &str, remote: &str) -> (r: bool)
    ensures
        r == (local@ == remote@ && local@.len() > 0),
{
    eq_text(local, remote) && !local.is_empty()
}

/// A list of devices that says that there is none.
pub open spec fn lists_no_device(devices: Seq<char>) -> bool {
    occurs(devices, "connected(0)"@) || occurs(devices, "No found"@)
}

/// A list of devices that shows one, while waiting.
pub open spec fn shows_device(devices: Seq<char>) -> bool {
    !occurs(devices, "connected(0)"@) && encode_utf8(devices).len() > 10
}

/// What is written to a device, by the list of devices and the configured loader.
pub open spec fn mode_of(devices: Seq<char>, loader_bin: Seq<char>) -> FlashMode {
    if (occurs(devices, "Maskrom"@) || occurs(devices, "MASKROM"@)) && loader_bin.len() > 0 {
        FlashMode::LoaderThenImage
    } else if occurs(devices, "Loader"@) {
        FlashMode::Image
    } else {
        FlashMode::NoDevice
    }
}

/// Whether no device waits for an image, so that the target must be rebooted into
/// its loader.
pub fn needs_loader(devices: &str) -> (r: bool)
    ensures
        r == lists_no_device(devices@),
{
    contains_text(devices, "connected(0)") || contains_text(devices, "No found")
}

/// Whether a device came up while waiting.
pub fn device_appeared(devices: &str) -> (r: bool)
    ensures
        r == shows_device(devices@),
{
    !contains_text(devices, "connected(0)") && devices.as_bytes().len() > 10
}

/// What the server planned for an image, as far as it said so.
pub struct PlanReply {
    pub dev_host: Option<String>,
    pub dev_user: Option<String>,
    pub remote_path: Option<String>,
    pub tool: Option<String>,
    pub selected_flash_cmd: Option<String>,
    pub kernel_image_cmd: Option<String>,
    pub full_image_cmd: Option<String>,
    pub loader_bin: Option<String>,
    pub list_devices_cmd: Option<String>,
    pub loader_cmd: Option<String>,
}

/// How an image is written: where to, and by which commands.
pub struct FlashTarget {
    /// The user and the host that write it.
    pub login: String,
    pub remote_path: String,
    pub list_cmd: String,
    pub loader_bin: String,
    pub loader_cmd: String,
    pub flash_cmd: String,
}

/// The text, or another where there is none.
pub open spec fn text_or(o: Option<String>, default: Seq<char>) -> Seq<char> {
    match o {
        Some(s) => s@,
        None => default,
    }
}

fn text_of(o: &Option<String>, default: &str) -> (r: String)
    ensures
        r@ == text_or(*o, default@),
{
    match o {
        Some(s) => s.clone(),
        None => default.to_owned(),
    }
}

/// How an image is written; nothing where no host is planned.
pub fn flash_target(plan: &PlanReply, kernel: bool) -> (r: Option<FlashTarget>)
    ensures
        ({
            let host = text_or(plan.dev_host, ""@);
            let tool = text_or(plan.tool, ""@) + " "@;
            if host.len() == 0 {
                r is None
            } else {
                r matches Some(t) && {
                    &&& t.login@ == text_or(plan.dev_user, ""@) + "@"@ + host
                    &&& t.remote_path@ == text_or(plan.remote_path, ""@)
                    &&& t.list_cmd@ == tool + text_or(plan.list_devices_cmd, "LD"@)
                    &&& t.loader_bin@ == text_or(plan.loader_bin, ""@)
                    &&& t.loader_cmd@ == tool + text_or(plan.loader_cmd, ""@)
                    &&& t.flash_cmd@ == tool + text_or(
                        plan.selected_flash_cmd,
                        if kernel {
                            text_or(plan.kernel_image_cmd, ""@)
                        } else {
                            text_or(plan.full_image_cmd, ""@)
                        },
                    )
                }
            }
        }),
{
    let host = text_of(&plan.dev_host, "");
    if host.as_str().is_empty() {
        return None;
    }
    let tool = cat(&text_of(&plan.tool, ""), " ");
    let fallback = if kernel {
        text_of(&plan.kernel_image_cmd, "")
    } else {
        text_of(&plan.full_image_cmd, "")
    };
    Some(
        FlashTarget {
            login: cat3(&text_of(&plan.dev_user, ""), "@", &host),
            remote_path: text_of(&plan.remote_path, ""),
            list_cmd: cat(&tool, &text_of(&plan.list_devices_cmd, "LD")),
            loader_bin: text_of(&plan.loader_bin, ""),
            loader_cmd: cat(&tool, &text_of(&plan.loader_cmd, "")),
            flash_cmd: cat(&tool, &text_of(&plan.selected_flash_cmd, &fallback)),
        },
    )
}

/// What is written to a device.
#[derive(Debug, Clone, Copy, PartialEq, Eq, Structural)]
pub enum FlashMode {
    /// The loader first, then the image.
    LoaderThenImage,
    /// The image.
    Image,
    /// Nothing: there is no device.
    NoDevice,
}

/// What is written to a device, by the list of devices and the configured loader.
pub fn flash_mode(devices: &str, loader_bin: &str) -> (r: FlashMode)
    ensures
        r == mode_of(devices@, loader_bin@),
{
    let maskrom: bool = contains_text(devices, "Maskrom") || contains_text(devices, "MASKROM");
    if maskrom && !loader_bin.is_empty() {
        FlashMode::LoaderThenImage
    } else if contains_text(devices, "Loader") {
        FlashMode::Image
    } else {
        FlashMode::NoDevice
    }
}

/// How often the devices are listed while waiting for one.
pub const DEVICE_POLLS: u32 = 20;

/// What is done next to write an image.
#[derive(Debug, Clone, Copy, PartialEq, Eq, Structural)]
pub enum FlashStep {
    /// Copy the image to the host.
    Upload,
    /// Compute the checksum here and on the host.
    Checksum,
    /// List the devices.
    ListDevices,
    /// Reboot the target into its loader, then wait and list the devices.
    RebootLoader,
    /// Wait, then list the devices.
    WaitForDevice,
    /// Write the loader, wait, and write the image.
    WriteLoaderAndImage,
    /// Write the image.
    WriteImage,
    /// The image could not be copied.
    CopyFailed,
    /// The image did not arrive unchanged.
    Mismatch,
    /// There is no device to write to.
    NoDevice,
}

/// Where writing an image stands.
#[derive(Debug, Clone, Copy, PartialEq, Eq, Structural)]
pub enum FlashStage {
    /// Before the devices were listed for the first time.
    Start,
    /// Waiting for a device; the devices were listed this often.
    Waiting(u32),
    /// The devices are listed for the last time.
    Deciding,
    /// Nothing is left to decide.
    Finished,
}

/// Writing an image.
pub struct FlashRun {
    pub stage: FlashStage,
}

/// The stage and the step after the devices were listed.
pub open spec fn after_listing(stage: FlashStage, devices: Seq<char>, loader_bin: Seq<char>) -> (
    FlashStage,
    FlashStep,
) {
    match stage {
        FlashStage::Start => if lists_no_device(devices) {
            (FlashStage::Waiting(0), FlashStep::RebootLoader)
        } else {
            (FlashStage::Deciding, FlashStep::ListDevices)
        },
        FlashStage::Waiting(n) => if shows_device(devices) || n + 1 >= DEVICE_POLLS {
            (FlashStage::Deciding, FlashStep::ListDevices)
        } else {
            (FlashStage::Waiting((n + 1) as u32), FlashStep::WaitForDevice)
        },
        _ => (
            FlashStage::Finished,
            match mode_of(devices, loader_bin) {
                FlashMode::LoaderThenImage => FlashStep::WriteLoaderAndImage,
                FlashMode::Image => FlashStep::WriteImage,
                FlashMode::NoDevice => FlashStep::NoDevice,
            },
        ),
    }
}

impl FlashRun {
    /// Begins with copying the image.
    pub fn new() -> (r: (Self, FlashStep))
        ensures
            r.0.stage == FlashStage::Start,
            r.1 == FlashStep::Upload,
    {
        (FlashRun { stage: FlashStage::Start }, FlashStep::Upload)
    }

    /// Takes in whether the image was copied.
    pub fn uploaded(&self, ok: bool) -> (r: FlashStep)
        ensures
            r == (if ok {
                FlashStep::Checksum
            } else {
                FlashStep::CopyFailed
            }),
    {
        if ok {
            FlashStep::Checksum
        } else {
            FlashStep::CopyFailed
        }
    }

    /// Takes in what the checksum programs printed here and on the host.
    pub fn checked(&self, local: &str, remote: &str) -> (r: FlashStep)
        ensures
            r == (if first_word_of(local@) == first_word_of(remote@) && first_word_of(local@).len()
                > 0 {
                FlashStep::ListDevices
            } else {
                FlashStep::Mismatch
            }),
    {
        if checksums_match(&first_word(local), &first_word(remote)) {
            FlashStep::ListDevices
        } else {
            FlashStep::Mismatch
        }
    }

    /// Takes in the list of devices.
    pub fn listed(&mut self, devices: &str, loader_bin: &str) -> (r: FlashStep)
        ensures
            (final(self).stage, r) == after_listing(old(self).stage, devices@, loader_bin@),
    {
        match self.stage {
            FlashStage::Start => if needs_loader(devices) {
                self.stage = FlashStage::Waiting(0);
                FlashStep::RebootLoader
            } else {
                self.stage = FlashStage::Deciding;
                FlashStep::ListDevices
            },
            FlashStage::Waiting(n) => if device_appeared(devices) || n >= DEVICE_POLLS - 1 {
                self.stage = FlashStage::Deciding;
                FlashStep::ListDevices
            } else {
                self.stage = FlashStage::Waiting(n + 1);
                FlashStep::WaitForDevice
            },
            _ => {
                self.stage = FlashStage::Finished;
                match flash_mode(devices, loader_bin) {
                    FlashMode::LoaderThenImage => FlashStep::WriteLoaderAndImage,
                    FlashMode::Image => FlashStep::WriteImage,
                    FlashMode::NoDevice => FlashStep::NoDevice,
                }
            },
        }
    }
}

// ── Laws ────────────────────────────────────────────────────────────────────

/// Law: it does not matter where output is cut into chunks: sanitizing two chunks
/// one after the other yields what sanitizing both at once yields.
pub proof fn law_chunks_do_not_matter(v: SanitizerView, a: Seq<u8>, b: Seq<u8>)
    ensures
        ({
            let (w, x) = v.filtered(a);
            let (z, y) = w.filtered(b);
            v.filtered(a + b) == (z, x + y)
        }),
    decreases b.len(),
{
    let (w, x) = v.filtered(a);
    if b.len() == 0 {
        assert(a + b =~= a);
        assert(x + Seq::<u8>::empty() =~= x);
    } else {
        law_chunks_do_not_matter(v, a, b.drop_last());
        assert((a + b).drop_last() =~= a + b.drop_last());
        let (m, y) = w.filtered(b.drop_last());
        let more = m.step(b.last()).1;
        assert((x + y) + more =~= x + (y + more));
    }
}

/// Law: plain output passes unchanged, outside of escape sequences.
pub proof fn law_plain_output_passes(v: SanitizerView, raw: Seq<u8>)
    requires
        v.state is Ground,
        forall|i: int| 0 <= i < raw.len() ==> #[trigger] raw[i] != 0x1b,
    ensures
        v.filtered(raw) == (v, raw),
    decreases raw.len(),
{
    if raw.len() > 0 {
        law_plain_output_passes(v, raw.drop_last());
        assert(raw.drop_last() + seq![raw.last()] =~= raw);
    } else {
        assert(raw =~= Seq::<u8>::empty());
    }
}

/// Law: the ports of projects lie from 3001 to 3099.
pub proof fn law_project_ports(d: Seq<u8>)
    ensures
        3001 <= digest_port(d) <= 3099,
{
}

/// Law: an image is written only where a device is listed, and waiting for one
/// ends.
pub proof fn law_flashing_needs_a_device(
    stage: FlashStage,
    devices: Seq<char>,
    loader_bin: Seq<char>,
)
    ensures
        ({
            let (next, step) = after_listing(stage, devices, loader_bin);
            &&& step is WriteImage ==> occurs(devices, "Loader"@)
            &&& step is WriteLoaderAndImage ==> occurs(devices, "Maskrom"@) || occurs(
                devices,
                "MASKROM"@,
            )
            &&& step is WaitForDevice ==> (next matches FlashStage::Waiting(n) && n < DEVICE_POLLS
                && (stage matches FlashStage::Waiting(m) && m < n))
        }),
{
}

/// Law: the terminal shows nothing but what the sanitizer let through, where it is
/// no terminal, and a line start before the first of it.
pub proof fn law_relay_adds_only_a_line_start(v: RelayView, data: Seq<u8>)
    requires
        !v.tty,
    ensures
        v.shown(data).1 == v.sanitizer.filtered(data).1 || v.first && v.shown(data).1 == seq![
            13u8,
            10u8,
        ] + v.sanitizer.filtered(data).1,
{
    let out = v.sanitizer.filtered(data).1;
    assert(Seq::<u8>::empty() + out =~= out);
    if out.len() == 0 {
        assert(out =~= Seq::<u8>::empty());
    }
}

/// Law: of the control sequences, colours of digits and semicolons pass where colour is
/// wanted, the editing ones always, and all others never.
#[verifier::rlimit(50)]
pub proof fn law_control_sequences(v: SanitizerView, params: Seq<u8>, end: u8)
    requires
        v.state is Ground,
        forall|i: int| 0 <= i < params.len() ==> !(64 <= #[trigger] params[i] <= 126),
        64 <= end <= 126,
    ensures
        ({
            let s = seq![0x1bu8, 91u8] + params + seq![end];
            let plain = forall|i: int|
                0 <= i < params.len() ==> (48 <= #[trigger] params[i] <= 57 || params[i] == 59);
            let edits = end == 65 || end == 66 || end == 67 || end == 68 || end == 75 || end == 80;
            &&& v.filtered(s).0 == v
            &&& end == 109 && v.allow_color && plain ==> v.filtered(s).1 == s
            &&& end == 109 && !(v.allow_color && plain) ==> v.filtered(s).1.len() == 0
            &&& edits ==> v.filtered(s).1 == s
            &&& end != 109 && !edits ==> v.filtered(s).1.len() == 0
        }),
{
    let head = seq![0x1bu8, 91u8] + params;
    let s = head + seq![end];
    assert(s =~= seq![0x1bu8, 91u8] + params + seq![end]);
    lemma_in_sequence(v, params);
    assert(s.drop_last() =~= head);
    let t = head.push(end);
    assert(t =~= s);
    let plain = forall|i: int|
        0 <= i < params.len() ==> (48 <= #[trigger] params[i] <= 57 || params[i] == 59);
    assert(is_plain_sgr(t) <==> plain) by {
        if plain {
            assert forall|i: int| 2 <= i < t.len() - 1 implies (48 <= #[trigger] t[i] <= 57 || t[i]
                == 59) by {
                assert(t[i] == params[i - 2]);
            }
        }
        if is_plain_sgr(t) {
            assert forall|i: int| 0 <= i < params.len() implies (48 <= #[trigger] params[i] <= 57
                || params[i] == 59) by {
                assert(t[i + 2] == params[i]);
            }
        }
    }
}

proof fn lemma_in_sequence(v: SanitizerView, params: Seq<u8>)
    requires
        v.state is Ground,
        forall|i: int| 0 <= i < params.len() ==> !(64 <= #[trigger] params[i] <= 126),
    ensures
        v.filtered(seq![0x1bu8, 91u8] + params) == (
            SanitizerView { state: AnsiView::Csi(seq![0x1bu8, 91u8] + params), ..v },
            Seq::<u8>::empty(),
        ),
    decreases params.len(),
{
    let s = seq![0x1bu8, 91u8] + params;
    if params.len() == 0 {
        reveal_with_fuel(SanitizerView::filtered, 3);
        assert(s =~= seq![0x1bu8, 91u8]);
        assert(s.drop_last() =~= seq![0x1bu8]);
        assert(s.drop_last().drop_last() =~= Seq::<u8>::empty());
        assert(seq![0x1bu8].push(91u8) =~= s);
        assert(v.filtered(s).1 =~= Seq::<u8>::empty());
    } else {
        let p = params.drop_last();
        lemma_in_sequence(v, p);
        assert(s.drop_last() =~= seq![0x1bu8, 91u8] + p);
        assert((seq![0x1bu8, 91u8] + p).push(params.last()) =~= s);
        assert(v.filtered(s).1 =~= Seq::<u8>::empty());
    }
}

/// Law: a command for the terminal itself is dropped up to its end.
pub proof fn law_system_commands_are_dropped(v: SanitizerView, body: Seq<u8>, end: u8)
    requires
        v.state is Ground,
        forall|i: int| 0 <= i < body.len() ==> #[trigger] body[i] != 7 && body[i] != 92,
        end == 7 || end == 92,
    ensures
        v.filtered(seq![0x1bu8, 93u8] + body + seq![end]) == (v, Seq::<u8>::empty()),
{
    lemma_in_command(v, body);
    let s = seq![0x1bu8, 93u8] + body + seq![end];
    assert(s.drop_last() =~= seq![0x1bu8, 93u8] + body);
    assert(v.filtered(s).1 =~= Seq::<u8>::empty());
}

proof fn lemma_in_command(v: SanitizerView, body: Seq<u8>)
    requires
        v.state is Ground,
        forall|i: int| 0 <= i < body.len() ==> #[trigger] body[i] != 7 && body[i] != 92,
    ensures
        v.filtered(seq![0x1bu8, 93u8] + body) == (
            SanitizerView { state: AnsiView::Osc, ..v },
            Seq::<u8>::empty(),
        ),
    decreases body.len(),
{
    let s = seq![0x1bu8, 93u8] + body;
    if body.len() == 0 {
        reveal_with_fuel(SanitizerView::filtered, 3);
        assert(s =~= seq![0x1bu8, 93u8]);
        assert(s.drop_last() =~= seq![0x1bu8]);
        assert(s.drop_last().drop_last() =~= Seq::<u8>::empty());
        assert(v.filtered(s).1 =~= Seq::<u8>::empty());
    } else {
        lemma_in_command(v, body.drop_last());
        assert(s.drop_last() =~= seq![0x1bu8, 93u8] + body.drop_last());
        assert(v.filtered(s).1 =~= Seq::<u8>::empty());
    }
}

/// Law: the first output starts a line of its own; later output, and output that begins
/// with a line end, is shown as it is.
pub proof fn law_first_output_starts_a_line(v: RelayView, data: Seq<u8>)
    requires
        v.sanitizer.state is Ground,
        forall|i: int| 0 <= i < data.len() ==> #[trigger] data[i] != 0x1b,
        data.len() > 0,
        !v.tty,
    ensures
        v.first && data[0] != 13 && data[0] != 10 ==> v.shown(data).1 == seq![13u8, 10u8] + data,
        !v.first || data[0] == 13 || data[0] == 10 ==> v.shown(data).1 == data,
        !v.shown(data).0.first,
{
    law_plain_output_passes(v.sanitizer, data);
    assert(Seq::<u8>::empty() + data =~= data);
}

/// Law: a session ends cleanly where the message, in any case, says that the connection
/// was reset, broken or closed.
pub proof fn law_clean_ends(message: Seq<char>)
    ensures
        is_clean_end(message) <==> exists|p: Seq<char>|
            #[trigger] occurs(lowercased(message), p) && (p == "reset without closing"@ || p
                == "connection reset"@ || p == "broken pipe"@ || p == "connection closed"@),
{
    let m = lowercased(message);
    if is_clean_end(message) {
        if occurs(m, "reset without closing"@) {
        } else if occurs(m, "connection reset"@) {
        } else if occurs(m, "broken pipe"@) {
        } else {
            assert(occurs(m, "connection closed"@));
        }
    }
}

/// Law: a port is the number that is given, and 3000 where there is none that fits.
pub proof fn law_ports(n: nat)
    ensures
        n <= 65535 ==> port_of(decimal(n)) == n,
        n > 65535 ==> port_of(decimal(n)) == 3000,
        port_of(Seq::empty()) == 3000,
{
    crate::text::law_parse_unsigned(n, u16::MAX as nat);
    crate::text::law_no_digits_no_number(u16::MAX as nat, 0, 0);
}

/// Law: the first word that is no option is the command; the DUT and the port take the
/// word behind them; everything else stays in order.
pub proof fn law_client_arguments(v: ClientView, a: Seq<char>, b: Seq<char>, rest: Seq<Seq<char>>)
    ensures
        v.reading(Seq::empty(), 0) == v,
        v.reading(seq!["--dut"@, b] + rest, 0) == (ClientView {
            dut_alias: Some(b),
            ..v
        }).reading(rest, 0),
        v.reading(seq!["--mcp-port"@, b] + rest, 0) == (ClientView {
            mcp_port: port_of(b),
            mcp_port_explicit: true,
            ..v
        }).reading(rest, 0),
        a != "--dut"@ && a != "--mcp-port"@ && !is_at(a, "-"@, 0) && v.command is None ==> v.reading(
            seq![a] + rest,
            0,
        ) == (ClientView { command: Some(a), ..v }).reading(rest, 0),
        a != "--dut"@ && a != "--mcp-port"@ && (is_at(a, "-"@, 0) || v.command is Some)
            ==> v.reading(seq![a] + rest, 0) == (ClientView {
            positional: v.positional.push(a),
            ..v
        }).reading(rest, 0),
{
    reveal_strlit("--dut");
    reveal_strlit("--mcp-port");
    assert("--dut"@.len() != "--mcp-port"@.len());
    let d = seq!["--dut"@, b] + rest;
    assert(d[0] == "--dut"@ && d[1] == b);
    lemma_reading_shift(ClientView { dut_alias: Some(b), ..v }, seq!["--dut"@, b], rest, 0);
    let p = seq!["--mcp-port"@, b] + rest;
    assert(p[0] == "--mcp-port"@ && p[1] == b);
    lemma_reading_shift(
        ClientView { mcp_port: port_of(b), mcp_port_explicit: true, ..v },
        seq!["--mcp-port"@, b],
        rest,
        0,
    );
    let s = seq![a] + rest;
    assert(s[0] == a);
    lemma_reading_shift(ClientView { command: Some(a), ..v }, seq![a], rest, 0);
    lemma_reading_shift(ClientView { positional: v.positional.push(a), ..v }, seq![a], rest, 0);
}

proof fn lemma_reading_shift(v: ClientView, a: Seq<Seq<char>>, b: Seq<Seq<char>>, i: int)
    requires
        0 <= i <= b.len(),
    ensures
        v.reading(a + b, a.len() + i) == v.reading(b, i),
    decreases b.len() - i,
{
    if i < b.len() {
        let s = a + b;
        let k = a.len() + i;
        assert(s[k] == b[i]);
        if i + 1 < b.len() {
            assert(s[k + 1] == b[i + 1]);
            lemma_reading_shift(ClientView { dut_alias: Some(b[i + 1]), ..v }, a, b, i + 2);
            lemma_reading_shift(
                ClientView { mcp_port: port_of(b[i + 1]), mcp_port_explicit: true, ..v },
                a,
                b,
                i + 2,
            );
        }
        lemma_reading_shift(ClientView { command: Some(b[i]), ..v }, a, b, i + 1);
        lemma_reading_shift(
            ClientView { positional: v.positional.push(b[i]), ..v },
            a,
            b,
            i + 1,
        );
    }
}

/// Law: each command has a name of its own.
pub proof fn law_commands_are_named(name: Seq<char>)
    ensures
        command_named(name) == Some(ClientCommand::List) <==> name == "list"@,
        command_named(name) == Some(ClientCommand::State) <==> name == "state"@,
        command_named(name) == Some(ClientCommand::Serial) <==> name == "serial"@,
        command_named(name) == Some(ClientCommand::Reboot) <==> name == "reboot"@,
        command_named(name) == Some(ClientCommand::Uboot) <==> name == "uboot"@,
        command_named(name) == Some(ClientCommand::Maskrom) <==> name == "maskrom"@,
        command_named(name) == Some(ClientCommand::Flash) <==> name == "uf"@,
        command_named(name) == Some(ClientCommand::FlashKernel) <==> name == "flash-kernel"@,
{
    reveal_strlit("list");
    reveal_strlit("state");
    reveal_strlit("serial");
    reveal_strlit("reboot");
    reveal_strlit("uboot");
    reveal_strlit("maskrom");
    reveal_strlit("uf");
    reveal_strlit("flash-kernel");
    assert("list"@.len() == 4 && "state"@.len() == 5 && "serial"@.len() == 6);
    assert("reboot"@.len() == 6 && "uboot"@.len() == 5 && "maskrom"@.len() == 7);
    assert("uf"@.len() == 2 && "flash-kernel"@.len() == 12);
    assert("state"@[0] == 's' && "uboot"@[0] == 'u');
    assert("serial"@[0] == 's' && "reboot"@[0] == 'r');
}

/// Law: a project's port is told by the first four bytes of its digest, read as one
/// number, most significant first.
pub proof fn law_ports_of_digests(d: Seq<u8>)
    requires
        d.len() >= 4,
    ensures
        digest_port(d) == 3001 + (((d[0] as nat * 256 + d[1] as nat) * 256 + d[2] as nat) * 256
            + d[3] as nat) % 99,
{
}

/// Law: what stands behind the last colon, and what stands before the first slash.
pub proof fn law_parts_of_addresses(a: Seq<char>, b: Seq<char>)
    ensures
        !b.contains(':') ==> behind_colon(a + seq![':'] + b) == b,
        !a.contains(':') ==> behind_colon(a) == a,
        !a.contains('/') ==> before_slash(a + seq!['/'] + b) == a,
        !a.contains('/') ==> before_slash(a) == a,
{
    reveal_strlit(":");
    let c = ":"@;
    assert(c =~= seq![':']);
    let s = a + c + b;
    let k = a.len() as int;
    crate::text::law_occurrences(s, c);
    assert(s.subrange(k, k + 1) =~= c);
    if !b.contains(':') {
        if let Some(i) = rfind_seq(s, c) {
            assert(s.subrange(i, i + c.len()) == c);
            assert(s.subrange(i, i + 1)[0] == s[i]);
            assert(s[i] == ':');
            if i > k {
                assert(s[i] == b[i - k - 1]);
                assert(b.contains(b[i - k - 1]));
            }
            if i < k {
                assert(s.subrange(k, k + c.len()) != c);
            }
            assert(s.subrange(k + 1, s.len() as int) =~= b);
        } else {
            assert(s.subrange(k, k + c.len()) != c);
        }
    }
    if !a.contains(':') {
        crate::text::law_occurrences(a, c);
        if let Some(i) = rfind_seq(a, c) {
            assert(a.subrange(i, i + c.len())[0] == a[i]);
            assert(a.contains(a[i]));
        }
    }
    if !a.contains('/') {
        let t = a + seq!['/'] + b;
        lemma_slash(t, k, 0);
        assert(t.subrange(0, k) =~= a);
        lemma_no_slash(a, 0);
        assert(a.subrange(0, k) =~= a);
    }
}

proof fn lemma_slash(s: Seq<char>, k: int, i: int)
    requires
        0 <= i <= k < s.len(),
        s[k] == '/',
        !s.subrange(0, k).contains('/'),
    ensures
        next_index(s, '/', i) == k,
    decreases k - i,
{
    if i < k {
        assert(s.subrange(0, k)[i] == s[i]);
        assert(s.subrange(0, k).contains(s[i]));
        lemma_slash(s, k, i + 1);
    }
}

proof fn lemma_no_slash(s: Seq<char>, i: int)
    requires
        0 <= i <= s.len(),
        !s.contains('/'),
    ensures
        next_index(s, '/', i) == s.len(),
    decreases s.len() - i,
{
    if i < s.len() {
        assert(s.contains(s[i]));
        lemma_no_slash(s, i + 1);
    }
}

/// Law: the first word of a text stands between its white space.
pub proof fn law_first_word(before: Seq<char>, word: Seq<char>, space: char, rest: Seq<char>)
    requires
        crate::text::all_space(before),
        word.len() > 0,
        forall|i: int| 0 <= i < word.len() ==> !is_space(#[trigger] word[i]),
        is_space(space),
    ensures
        first_word_of(before + word) == word,
        first_word_of(before + word + seq![space] + rest) == word,
{
    let s = before + word;
    let t = before + word + seq![space] + rest;
    let a = before.len() as int;
    let b = a + word.len();
    assert(s[a] == word[0] && t[a] == word[0]);
    assert forall|i: int| 0 <= i < a implies is_space(#[trigger] s[i]) && is_space(t[i]) by {
        assert(s[i] == before[i] && t[i] == before[i]);
    }
    assert forall|i: int| a <= i < b implies !is_space(#[trigger] s[i]) && !is_space(t[i]) by {
        assert(s[i] == word[i - a] && t[i] == word[i - a]);
    }
    assert forall|i: int| 0 <= i < a implies is_space(#[trigger] t[i]) by {
        assert(is_space(s[i]));
    }
    assert forall|i: int| a <= i < b implies !is_space(#[trigger] t[i]) by {
        assert(!is_space(s[i]));
    }
    lemma_word_start(s, 0, a);
    lemma_word_start(t, 0, a);
    lemma_word_end(s, a, b);
    assert(t[b] == space);
    lemma_word_end(t, a, b);
    assert(s.subrange(a, b) =~= word);
    assert(t.subrange(a, b) =~= word);
}

proof fn lemma_word_start(s: Seq<char>, i: int, k: int)
    requires
        0 <= i <= k < s.len(),
        !is_space(s[k]),
        forall|j: int| i <= j < k ==> is_space(#[trigger] s[j]),
    ensures
        word_start(s, i) == k,
    decreases k - i,
{
    if i < k {
        lemma_word_start(s, i + 1, k);
    }
}

proof fn lemma_word_end(s: Seq<char>, i: int, k: int)
    requires
        0 <= i <= k <= s.len(),
        k < s.len() ==> is_space(s[k]),
        forall|j: int| i <= j < k ==> !is_space(#[trigger] s[j]),
    ensures
        word_end(s, i) == k,
    decreases k - i,
{
    if i < k {
        lemma_word_end(s, i + 1, k);
    }
}

/// Law: a target without a device is rebooted into its loader, then looked for up to
/// twenty times; the last listing decides: a mask ROM takes the loader first, where
/// there is one, a loader takes the image, and otherwise nothing is written.
pub proof fn law_flash_steps(devices: Seq<char>, loader: Seq<char>, n: u32)
    requires
        n < 20,
    ensures
        ({
            let none = occurs(devices, "connected(0)"@) || occurs(devices, "No found"@);
            let seen = !occurs(devices, "connected(0)"@) && encode_utf8(devices).len() > 10;
            let rom = occurs(devices, "Maskrom"@) || occurs(devices, "MASKROM"@);
            let start = after_listing(FlashStage::Start, devices, loader);
            let wait = after_listing(FlashStage::Waiting(n), devices, loader);
            let last = after_listing(FlashStage::Deciding, devices, loader);
            &&& none ==> start == (FlashStage::Waiting(0), FlashStep::RebootLoader)
            &&& !none ==> start == (FlashStage::Deciding, FlashStep::ListDevices)
            &&& seen || n == 19 ==> wait == (FlashStage::Deciding, FlashStep::ListDevices)
            &&& !seen && n < 19 ==> wait == (
                FlashStage::Waiting((n + 1) as u32),
                FlashStep::WaitForDevice,
            )
            &&& last.0 == FlashStage::Finished
            &&& rom && loader.len() > 0 ==> last.1 == FlashStep::WriteLoaderAndImage
            &&& !(rom && loader.len() > 0) && occurs(devices, "Loader"@) ==> last.1
                == FlashStep::WriteImage
            &&& !(rom && loader.len() > 0) && !occurs(devices, "Loader"@) ==> last.1
                == FlashStep::NoDevice
        }),
{
}

/// Law: a DUT is shown line by line, each value behind its own label.
#[verifier::rlimit(50)]
pub proof fn law_dut_text(d: DutView)
    ensures
        ({
            let head = "DUT: "@ + d.alias;
            let host = "\n  dev_host: "@ + d.dev_host_alias + " ("@ + d.dev_host_user + "@"@
                + d.dev_host_ip;
            let serial = ")\n  serial:   "@ + d.serial_ip + ":"@ + d.serial_port;
            let relay = "\n  relay:    type="@ + d.relay_type + ", ip="@ + d.relay_ip + ", port="@
                + decimal(d.relay_port as nat);
            let channels = ", reset_ch="@ + decimal(d.reset_ch as nat) + ", maskrom_ch="@ + decimal(
                d.maskrom_ch as nat,
            ) + ", recovery_ch="@ + decimal(d.recovery_ch as nat) + ", power_ch="@ + decimal(
                d.power_ch as nat,
            ) + ", power_off_ms="@ + decimal(d.power_off_time_ms as nat);
            let end = "\n  login:    "@ + d.login_user + "\n  ref_log:  "@ + d.reference_log
                + "\n\n"@;
            dut_text(d) == head + host + serial + relay + channels + end
        }),
{
    let head = "DUT: "@ + d.alias;
    let host = "\n  dev_host: "@ + d.dev_host_alias + " ("@ + d.dev_host_user + "@"@
        + d.dev_host_ip;
    let serial = ")\n  serial:   "@ + d.serial_ip + ":"@ + d.serial_port;
    let relay = "\n  relay:    type="@ + d.relay_type + ", ip="@ + d.relay_ip + ", port="@
        + decimal(d.relay_port as nat);
    let a = head + "\n  dev_host: "@ + d.dev_host_alias + " ("@ + d.dev_host_user + "@"@
        + d.dev_host_ip;
    assert(a =~= head + host);
    let b = a + ")\n  serial:   "@ + d.serial_ip + ":"@ + d.serial_port;
    assert(b =~= a + serial);
    let c = b + "\n  relay:    type="@ + d.relay_type + ", ip="@ + d.relay_ip + ", port="@
        + decimal(d.relay_port as nat);
    assert(c =~= b + relay);
    let channels = ", reset_ch="@ + decimal(d.reset_ch as nat) + ", maskrom_ch="@ + decimal(
        d.maskrom_ch as nat,
    ) + ", recovery_ch="@ + decimal(d.recovery_ch as nat) + ", power_ch="@ + decimal(
        d.power_ch as nat,
    ) + ", power_off_ms="@ + decimal(d.power_off_time_ms as nat);
    let e = c + ", reset_ch="@ + decimal(d.reset_ch as nat) + ", maskrom_ch="@ + decimal(
        d.maskrom_ch as nat,
    ) + ", recovery_ch="@ + decimal(d.recovery_ch as nat) + ", power_ch="@ + decimal(
        d.power_ch as nat,
    ) + ", power_off_ms="@ + decimal(d.power_off_time_ms as nat);
    assert(e =~= c + channels);
    let end = "\n  login:    "@ + d.login_user + "\n  ref_log:  "@ + d.reference_log + "\n\n"@;
    assert(e + "\n  login:    "@ + d.login_user + "\n  ref_log:  "@ + d.reference_log + "\n\n"@
        =~= e + end);
}

/// Law: Ctrl-T and Q leave the console, Ctrl-T and another key send both, and every other
/// key is sent as it is.
pub proof fn law_leaving_the_console(c: &mut CtrlTEscape, b: u8, r: EscapeAction)
    requires
        call_ensures(CtrlTEscape::feed, (c, b), r),
    ensures
        r is Quit <==> old(c).esc && (b == 'q' as u8 || b == 'Q' as u8),
        r is Nothing <==> !old(c).esc && b == 20,
        r matches EscapeAction::Send(v) ==> v@.last() == b && v@.len() == (if old(c).esc {
            2int
        } else {
            1
        }) && (old(c).esc ==> v@[0] == 20),
        final(c).esc <==> !old(c).esc && b == 20,
{
}

/// Law: the port is the one on the command line, else that of the settings, else the
/// project's, else the default.
pub proof fn law_choosing_a_port(
    args: &ClientArgs,
    settings: Option<u16>,
    project: Option<u16>,
    r: u16,
)
    requires
        call_ensures(choose_port, (args, settings, project), r),
    ensures
        args.mcp_port_explicit ==> r == args.mcp_port,
        !args.mcp_port_explicit && settings is Some ==> Some(r) == settings,
        !args.mcp_port_explicit && settings is None && project is Some ==> Some(r) == project,
        settings is None && project is None ==> r == args.mcp_port,
{
}

/// Law: a server that does not answer the first call is started, once; a reply that
/// cannot be read is not asked for again.
pub proof fn law_calling_the_server(attempt: u32, reached: bool, readable: bool, r: CallNext)
    requires
        call_ensures(after_call, (attempt, reached, readable), r),
    ensures
        r == CallNext::Replied <==> reached && readable,
        r == CallNext::StartServer <==> !reached && attempt == 0,
{
}

/// Law: the DUT that is named is chosen, the first of that alias; without a name the only
/// one is.
pub proof fn law_selecting_a_dut(duts: &Vec<DutConfig>, alias: Option<&str>, r: Selection)
    requires
        call_ensures(select_dut, (duts, alias), r),
    ensures
        r == Selection::NoDuts <==> duts@.len() == 0,
        r == Selection::Ambiguous <==> duts@.len() > 1 && alias is None,
        alias is None && duts@.len() == 1 ==> r == Selection::Chosen(0),
        alias matches Some(a) ==> (r matches Selection::Chosen(i) ==> duts@[i as int].alias@ == a@),
        alias matches Some(a) ==> (r == Selection::NotFound ==> forall|j: int|
            0 <= j < duts@.len() ==> (#[trigger] duts@[j]).alias@ != a@),
{
    if let Some(a) = alias {
        lemma_named(duts_of(duts@), a@, 0);
        assert forall|j: int|
            dut_named(duts_of(duts@), a@, 0) is None && 0 <= j < duts@.len() implies (
        #[trigger] duts@[j]).alias@ != a@ by {
            assert(duts_of(duts@)[j] == duts@[j]@);
        }
    }
}

proof fn lemma_named(duts: Seq<DutView>, alias: Seq<char>, from: int)
    requires
        0 <= from,
    ensures
        match dut_named(duts, alias, from) {
            Some(d) => d.alias == alias,
            None => forall|j: int| from <= j < duts.len() ==> (#[trigger] duts[j]).alias != alias,
        },
    decreases duts.len() - from,
{
    if from < duts.len() && duts[from].alias != alias {
        lemma_named(duts, alias, from + 1);
    }
}

/// Law: a target is rebooted by its power where it can be, else by its reset, else by a
/// command.
pub proof fn law_choosing_a_reboot(dut: &DutConfig, r: RebootChoice)
    requires
        call_ensures(reboot_choice, (dut,), r),
    ensures
        r == RebootChoice::PowerCycle <==> dut.power_ch > 0,
        r == RebootChoice::RelayReset <==> dut.power_ch == 0 && dut.reset_ch > 0,
        r == RebootChoice::Software <==> dut.power_ch == 0 && dut.reset_ch == 0,
{
}

/// Law: a reset that failed for want of a relay is tried as a reboot.
pub proof fn law_trying_a_reboot(success: bool, error: Option<&str>, dut: &DutConfig, r: bool)
    requires
        call_ensures(retry_with_reboot, (success, error, dut), r),
    ensures
        success ==> !r,
        !success && dut.reset_ch == 0 ==> r,
        !success && dut.reset_ch > 0 ==> (r <==> error is Some && occurs(error->0@, "No relay"@)),
{
}

/// Law: a command needs a name that is known, and one that writes an image needs the
/// image.
pub proof fn law_commands_of_the_client(args: &ClientArgs, r: Result<ClientCommand, UsageError>)
    requires
        call_ensures(client_command, (args,), r),
    ensures
        r matches Ok(c) ==> args@.command is Some && command_named(args@.command->0) == Some(c) && (
        c == ClientCommand::Flash || c == ClientCommand::FlashKernel ==> args@.positional.len()
            > 0),
        r matches Err(UsageError::NoCommand) ==> args@.command is None,
        args@.command is None ==> r is Err,
        r matches Err(UsageError::UnknownCommand(s)) ==> args@.command == Some(s@) && command_named(
            s@,
        ) is None,
        r matches Err(UsageError::NoImage(c)) ==> args@.positional.len() == 0 && (c
            == ClientCommand::Flash || c == ClientCommand::FlashKernel),
{
}

/// Law: a plan without a host cannot be carried out; otherwise the tool runs on the host,
/// with the command that was selected, or else the one for the kind of image.
pub proof fn law_targets_of_a_plan(plan: &PlanReply, kernel: bool, r: Option<FlashTarget>)
    requires
        call_ensures(flash_target, (plan, kernel), r),
        plan.tool is Some,
        plan.dev_user is Some,
    ensures
        r is Some <==> plan.dev_host is Some && plan.dev_host->0@.len() > 0,
        r matches Some(t) ==> {
            let tool = plan.tool->0@ + " "@;
            &&& t.login@ == plan.dev_user->0@ + "@"@ + plan.dev_host->0@
            &&& plan.selected_flash_cmd matches Some(c) ==> t.flash_cmd@ == tool + c@
            &&& plan.selected_flash_cmd is None && kernel && plan.kernel_image_cmd is Some
                ==> t.flash_cmd@ == tool + plan.kernel_image_cmd->0@
            &&& plan.selected_flash_cmd is None && !kernel && plan.full_image_cmd is Some
                ==> t.flash_cmd@ == tool + plan.full_image_cmd->0@
            &&& plan.list_devices_cmd is None ==> t.list_cmd@ == tool + "LD"@
            &&& plan.list_devices_cmd matches Some(c) ==> t.list_cmd@ == tool + c@
            &&& plan.loader_cmd matches Some(c) ==> t.loader_cmd@ == tool + c@
            &&& plan.remote_path matches Some(p) ==> t.remote_path@ == p@
        },
{
    reveal_strlit("");
}

/// Law: an image that arrived with the same checksum goes on to the devices; the
/// checksum is the first word of what each side prints.
pub proof fn law_checking_an_image(
    f: FlashRun,
    local: &str,
    remote: &str,
    r: FlashStep,
    sum: Seq<char>,
    other: Seq<char>,
    a: Seq<char>,
    b: Seq<char>,
)
    requires
        call_ensures(FlashRun::checked, (&f, local, remote), r),
        sum.len() > 0,
        other.len() > 0,
        forall|i: int| 0 <= i < sum.len() ==> !is_space(#[trigger] sum[i]),
        forall|i: int| 0 <= i < other.len() ==> !is_space(#[trigger] other[i]),
        local@ == sum + seq![' '] + a,
        remote@ == other + seq![' '] + b,
    ensures
        r == FlashStep::ListDevices || r == FlashStep::Mismatch,
        r == FlashStep::ListDevices <==> sum == other,
{
    let e = Seq::<char>::empty();
    crate::text::law_white_space(' ');
    law_first_word(e, sum, ' ', a);
    law_first_word(e, other, ' ', b);
    assert(e + sum =~= sum);
    assert(e + other =~= other);
}

/// Law: on a terminal, plain output is shown with its prompts coloured, from its first
/// byte on.
pub proof fn law_terminal_output_is_coloured(v: RelayView, data: Seq<u8>)
    requires
        v.sanitizer.state is Ground,
        forall|i: int| 0 <= i < data.len() ==> #[trigger] data[i] != 0x1b,
        data.len() > 0,
        v.tty,
    ensures
        v.first && data[0] != 13 && data[0] != 10 ==> v.shown(data).1 == seq![13u8, 10u8]
            + rendered(data, 0, false),
        !v.first || data[0] == 13 || data[0] == 10 ==> v.shown(data).1 == rendered(data, 0, false),
{
    law_plain_output_passes(v.sanitizer, data);
    assert(Seq::<u8>::empty() + rendered(data, 0, false) =~= rendered(data, 0, false));
}

} // verus!
