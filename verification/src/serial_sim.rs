//! A simulated board: a login shell behind a serial console.

use crate::bridge::{clock_nanos, clock_start};
use crate::config_map::ConfigMap;
use crate::state_manager::SECOND;
use crate::text::{
    append_bytes, cat, cat3, chars_of, contains_text, decimal, decimal_text, eq_text, index_from,
    join_texts, joined, lines, lines_of, next_index, occurs, parse_uint, parse_unsigned, string_of,
    string_of_range, texts, trim, trim_text,
};
use vstd::prelude::*;
use vstd::string::*;
use vstd::utf8::encode_utf8;

verus! {

/// The port of the board where none is given.
pub const DEFAULT_PORT: u16 = 9999;

/// What the board prints while it boots.
pub const BOOT_LOG: &'static str = r"[    0.000000] Booting Linux on physical CPU 0x0000000000 [0x412fd050]
[    0.000000] Linux version 5.15.147 (tao@tao-virtual-machine) (aarch64-none-linux-gnu-gcc (GNU Toolchain for the A-profile Architecture 10.3-2021.07 (arm-10.29)) 10.3.1 20210621, GNU ld (GNU Toolchain for the A-profile Architecture 10.3-2021.07 (arm-10.29)) 2.36.1.20210621) #29 SMP PREEMPT Thu Nov 13 17:22:05 CST 2025
[    0.000000] Machine model: sun55iw3
[    0.000000] Zone ranges:
[    0.000000]   DMA      [mem 0x0000000040000000-0x00000000bfffffff]
[    0.000000] psci: PSCIv1.1 detected in firmware.
[    0.068248] Detected VIPT I-cache on CPU4
[    0.070044] smp: Brought up 1 node, 8 CPUs
[    0.206583] SMP: Total of 8 processors activated.
[    0.762519] sunxi:ccu_sunxi_ng:[INFO]: rtc_ccu: sunxi ccu init OK
[    2.142047] iommu: Default domain type: Translated
[    2.154284] SCSI subsystem initialized
[    2.891909] sunxi:sunxi_mmc_host-4022000.sdmmc:[INFO]: SD/MMC/SDIO Host Controller Driver(v5.48 2024-07-17 16:19)
[    3.330066] mmcblk0: mmc0:0001 8GUF4R 7.28 GiB
[    3.333140]  mmcblk0: p1 p2 p3 p4
[    3.333767] mmcblk0rpmb: mmc0:0001 8GUF4R 4.00 MiB, chardev (241:0)
[    4.329162] mmc0: new HS200 MMC card at address 0001
[    5.477194] xhci-hcd xhci-hcd.23.auto: xHCI Host Controller
[    6.280812] In-situ OAM (IOAM) with IPv6
[    8.281880] EXT4-fs (mmcblk0p4): mounted filesystem with ordered data mode.
[   10.045413] EXT4-fs (mmcblk0p4): re-mounted. Opts: (null). Quota mode: disabled.
[   11.000000] Welcome to Embedded Linux
";

/// The lines of the boot log.
pub fn boot_log_lines() -> (r: Vec<String>)
    ensures
        texts(r@) == lines(BOOT_LOG@),
{
    lines_of(BOOT_LOG)
}

// ── Files ───────────────────────────────────────────────────────────────────

/// The kernel of the board.
pub const VERSION: &'static str = "Linux version 5.15.147 (tao@tao-virtual-machine) (aarch64-none-linux-gnu-gcc 10.3.1) #29 SMP PREEMPT Thu Nov 13 17:22:05 CST 2025\n";

/// The processor of the board.
pub const CPUINFO: &'static str = "processor\t: 0\nBogoMIPS\t: 48.00\nFeatures\t: fp asimd evtstrm aes pmull sha1 sha2 crc32\nCPU implementer\t: 0x41\nCPU architecture: 8\nCPU variant\t: 0x2\nCPU part\t: 0xd05\nCPU revision\t: 0\n";

/// The memory of the board.
pub const MEMINFO: &'static str = "MemTotal:        1924996 kB\nMemFree:         1500000 kB\nMemAvailable:    1700000 kB\nBuffers:           50000 kB\nCached:           100000 kB\n";

/// The files of the board, by path.
pub open spec fn board_files(hostname: Seq<char>) -> Map<Seq<char>, Seq<char>> {
    Map::<Seq<char>, Seq<char>>::empty().insert("/proc/version"@, VERSION@).insert(
        "/proc/cpuinfo"@,
        CPUINFO@,
    ).insert("/proc/meminfo"@, MEMINFO@).insert("/etc/hostname"@, hostname + "\n"@)
}

/// The files of the board.
pub struct FakeFS {
    files: ConfigMap,
}

impl View for FakeFS {
    type V = Map<Seq<char>, Seq<char>>;

    closed spec fn view(&self) -> Map<Seq<char>, Seq<char>> {
        self.files@
    }
}

impl FakeFS {
    pub fn new(hostname: &str) -> (r: Self)
        ensures
            r@ == board_files(hostname@),
    {
        let mut files = ConfigMap::new();
        files.insert("/proc/version".to_owned(), VERSION.to_owned());
        files.insert("/proc/cpuinfo".to_owned(), CPUINFO.to_owned());
        files.insert("/proc/meminfo".to_owned(), MEMINFO.to_owned());
        files.insert("/etc/hostname".to_owned(), cat(hostname, "\n"));
        FakeFS { files }
    }

    /// What a file holds.
    pub fn read(&self, path: &str) -> (r: Option<&String>)
        ensures
            r is Some <==> self@.contains_key(path@),
            r matches Some(v) ==> v@ == self@[path@],
    {
        self.files.get(path)
    }
}

// ── The shell ───────────────────────────────────────────────────────────────

/// A number below a hundred in two digits.
pub open spec fn two_digits(n: nat) -> Seq<char> {
    if n < 10 {
        "0"@ + decimal(n)
    } else {
        decimal(n)
    }
}

fn two_digit_text(n: u64) -> (r: String)
    ensures
        r@ == two_digits(n as nat),
{
    if n < 10 {
        cat("0", &decimal_text(n))
    } else {
        decimal_text(n)
    }
}

/// The first word of a line, up to a space.
pub open spec fn command_of(line: Seq<char>) -> Seq<char> {
    line.subrange(0, next_index(line, ' ', 0))
}

/// What stands behind the first space of a line, without spaces around it.
pub open spec fn argument_of(line: Seq<char>) -> Seq<char> {
    let k = next_index(line, ' ', 0);
    if k >= line.len() {
        trim(Seq::empty())
    } else {
        trim(line.subrange(k + 1, line.len() as int))
    }
}

/// What a directory of the board lists.
pub open spec fn listing(dir: Seq<char>) -> Seq<char> {
    if dir.len() == 0 || dir == "/"@ {
        "bin\r\ndev\r\netc\r\nproc\r\ntmp\r\nusr\r\nvar"@
    } else if dir == "/proc"@ {
        "cpuinfo\r\nmeminfo\r\nversion"@
    } else if dir == "/etc"@ {
        "hostname"@
    } else {
        Seq::empty()
    }
}

/// The first lines of the boot log.
pub open spec fn boot_head(ls: Seq<Seq<char>>) -> Seq<char> {
    joined(
        if ls.len() > 20 {
            ls.subrange(0, 20)
        } else {
            ls
        },
        "\r\n"@,
    )
}

/// How long the board is up, as `uptime` prints it.
pub open spec fn uptime_text(secs: nat) -> Seq<char> {
    let mins = secs / 60;
    let hours = mins / 60;
    two_digits(hours % 24) + ":"@ + two_digits(mins % 60) + ":"@ + two_digits(secs % 60) + " up "@
        + decimal(mins) + " min, load average: 0.00, 0.00, 0.00"@
}

/// The model of a `Shell`.
pub struct ShellView {
    pub hostname: Seq<char>,
    pub files: Map<Seq<char>, Seq<char>>,
    /// What was typed since the last line end.
    pub line: Seq<char>,
    /// What is typed is sent back.
    pub echo: bool,
    pub logged_in: bool,
    pub user: Seq<char>,
}

impl ShellView {
    /// The prompt of an empty screen.
    pub open spec fn initial_prompt(self) -> Seq<char> {
        if !self.logged_in {
            self.hostname + " login: "@
        } else {
            self.user + "@"@ + self.hostname + ":/# "@
        }
    }

    /// The prompt on a line of its own.
    pub open spec fn prompt(self) -> Seq<char> {
        "\r\n"@ + self.initial_prompt()
    }

    /// Some output on a line of its own, and the prompt.
    pub open spec fn shows(self, text: Seq<char>) -> Seq<char> {
        "\r\n"@ + text + self.prompt()
    }

    /// With a user logged in.
    pub open spec fn log_in(self, user: Seq<char>) -> ShellView {
        ShellView { logged_in: true, user, ..self }
    }

    /// What `uname` prints.
    pub open spec fn uname(self, arg: Seq<char>) -> Seq<char> {
        if arg == "-a"@ {
            "Linux "@ + self.hostname
                + " 5.15.147 #29 SMP PREEMPT Thu Nov 13 17:22:05 CST 2025 aarch64 GNU/Linux"@
        } else if arg == "-r"@ {
            "5.15.147"@
        } else {
            "Linux"@
        }
    }

    /// What `cat` prints.
    pub open spec fn cat_output(self, arg: Seq<char>) -> Seq<char> {
        if arg.len() == 0 {
            Seq::empty()
        } else if self.files.contains_key(arg) {
            self.files[arg]
        } else {
            "cat: "@ + arg + ": No such file or directory"@
        }
    }

    /// What a command does, and what is printed, after `secs` seconds.
    pub open spec fn runs(self, cmd: Seq<char>, arg: Seq<char>, secs: nat) -> (
        ShellView,
        Seq<char>,
    ) {
        if !self.logged_in && (cmd == "login"@ || cmd == "root"@) {
            let s = self.log_in(
                if cmd == "login"@ && arg.len() > 0 {
                    arg
                } else {
                    "root"@
                },
            );
            (s, "\r\nPassword: \r\n"@ + s.prompt())
        } else if cmd == "echo"@ {
            (self, self.shows(arg))
        } else if cmd == "cat"@ {
            (self, self.shows(self.cat_output(arg)))
        } else if cmd == "ls"@ {
            (self, self.shows(listing(arg)))
        } else if cmd == "dmesg"@ {
            (self, self.shows(boot_head(lines(BOOT_LOG@))))
        } else if cmd == "dmesg-full"@ {
            (self, self.shows(trim(BOOT_LOG@)))
        } else if cmd == "uptime"@ {
            (self, self.shows(uptime_text(secs)))
        } else if cmd == "whoami"@ {
            (self, self.shows(self.user))
        } else if cmd == "hostname"@ {
            (self, self.shows(self.hostname))
        } else if cmd == "pwd"@ {
            (self, self.shows("/"@))
        } else if cmd == "uname"@ {
            (self, self.shows(self.uname(arg)))
        } else if cmd == "stty"@ {
            let s = if occurs(arg, "echo"@) {
                ShellView { echo: !occurs(arg, "-echo"@), ..self }
            } else {
                self
            };
            (s, s.prompt())
        } else if cmd == "false"@ {
            (self, self.shows(Seq::empty()))
        } else if cmd == "true"@ || cmd == "warmup"@ {
            (self, self.prompt())
        } else if !self.logged_in {
            (self, "\r\nLogin incorrect\r\n"@ + self.prompt())
        } else {
            (self, self.shows("/bin/sh: "@ + cmd + ": not found"@))
        }
    }

    /// What a line does, and what is printed, after `secs` seconds.
    pub open spec fn answers(self, line: Seq<char>, secs: nat) -> (ShellView, Seq<char>) {
        let l = trim(line);
        if l.len() == 0 {
            (self, self.prompt())
        } else {
            self.runs(command_of(l), argument_of(l), secs)
        }
    }

    /// What is sent back of a key.
    pub open spec fn echoed(self, bytes: Seq<u8>) -> Seq<u8> {
        if self.echo {
            bytes
        } else {
            Seq::empty()
        }
    }

    /// What a key does, and what is sent, after `secs` seconds.
    pub open spec fn takes(self, b: u8, secs: nat) -> (ShellView, Seq<u8>) {
        if b == 0x7f || b == 0x08 {
            if self.line.len() > 0 {
                (
                    ShellView { line: self.line.drop_last(), ..self },
                    self.echoed(seq![8u8, 32u8, 8u8]),
                )
            } else {
                (self, Seq::empty())
            }
        } else if b == 13 || b == 10 {
            let (s, text) = (ShellView { line: Seq::empty(), ..self }).answers(self.line, secs);
            (s, self.echoed(seq![13u8, 10u8]) + encode_utf8(text))
        } else if b == 4 {
            let s = ShellView { logged_in: false, user: Seq::empty(), ..self };
            (s, encode_utf8("\r\nlogout\r\n"@) + encode_utf8(s.initial_prompt()))
        } else if b == 3 {
            let s = ShellView { line: Seq::empty(), ..self };
            (s, seq![94u8, 67u8] + encode_utf8(s.prompt()))
        } else if is_typed(b) {
            (ShellView { line: self.line.push(b as char), ..self }, self.echoed(seq![b]))
        } else {
            (self, self.echoed(seq![b]))
        }
    }
}

/// A key that writes a character: a visible one, a space or a tab.
pub open spec fn is_typed(b: u8) -> bool {
    32 <= b <= 126 || b == 9
}

/// The shell of the board.
pub struct Shell {
    hostname: String,
    fs: FakeFS,
    boot_time: std::time::Instant,
    line_buf: Vec<char>,
    echo: bool,
    logged_in: bool,
    login_user: String,
}

impl View for Shell {
    type V = ShellView;

    closed spec fn view(&self) -> ShellView {
        ShellView {
            hostname: self.hostname@,
            files: self.fs@,
            line: self.line_buf@,
            echo: self.echo,
            logged_in: self.logged_in,
            user: self.login_user@,
        }
    }
}

impl Shell {
    pub fn new(hostname: &str) -> (r: Self)
        ensures
            r@ == (ShellView {
                hostname: hostname@,
                files: board_files(hostname@),
                line: Seq::empty(),
                echo: true,
                logged_in: false,
                user: Seq::empty(),
            }),
    {
        proof {
            reveal_strlit("");
        }
        let r = Shell {
            hostname: hostname.to_owned(),
            fs: FakeFS::new(hostname),
            boot_time: clock_start(),
            line_buf: Vec::new(),
            echo: true,
            logged_in: false,
            login_user: "".to_owned(),
        };
        assert(r@.user =~= Seq::<char>::empty());
        assert(r@.line =~= Seq::<char>::empty());
        r
    }

    /// Logs in without asking.
    pub fn skip_login(&mut self)
        ensures
            final(self)@ == old(self)@.log_in("root"@),
    {
        self.logged_in = true;
        self.login_user = "root".to_owned();
    }

    /// The seconds since the board was started.
    pub fn uptime(&self) -> u64 {
        clock_nanos(&self.boot_time) / SECOND
    }

    /// The prompt of an empty screen.
    pub fn initial_prompt(&self) -> (r: String)
        ensures
            r@ == self@.initial_prompt(),
    {
        if !self.logged_in {
            cat(&self.hostname, " login: ")
        } else {
            let mut r = cat3(&self.login_user, "@", &self.hostname);
            r.append(":/# ");
            r
        }
    }

    /// The prompt on a line of its own.
    pub fn prompt(&self) -> (r: String)
        ensures
            r@ == self@.prompt(),
    {
        cat("\r\n", &self.initial_prompt())
    }

    fn show(&self, text: &str) -> (r: String)
        ensures
            r@ == self@.shows(text@),
    {
        cat3("\r\n", text, &self.prompt())
    }

    fn list(&self, dir: &str) -> (r: String)
        ensures
            r@ == listing(dir@),
    {
        proof {
            reveal_strlit("");
        }
        let text = if dir.is_empty() || eq_text(dir, "/") {
            "bin\r\ndev\r\netc\r\nproc\r\ntmp\r\nusr\r\nvar"
        } else if eq_text(dir, "/proc") {
            "cpuinfo\r\nmeminfo\r\nversion"
        } else if eq_text(dir, "/etc") {
            "hostname"
        } else {
            ""
        };
        let r = text.to_owned();
        assert(r@ =~= listing(dir@));
        r
    }

    fn cat_file(&self, arg: &str) -> (r: String)
        ensures
            r@ == self@.cat_output(arg@),
    {
        if arg.is_empty() {
            proof {
                reveal_strlit("");
            }
            let r = "".to_owned();
            assert(r@ =~= Seq::<char>::empty());
            return r;
        }
        match self.fs.read(arg) {
            Some(content) => content.clone(),
            None => cat3("cat: ", arg, ": No such file or directory"),
        }
    }

    fn boot_head(&self) -> (r: String)
        ensures
            r@ == boot_head(lines(BOOT_LOG@)),
    {
        let mut ls = lines_of(BOOT_LOG);
        let ghost all = ls@;
        assert(texts(all).len() == all.len());
        if ls.len() > 20 {
            ls.truncate(20);
            assert(texts(ls@) =~= texts(all).subrange(0, 20));
        }
        join_texts(&ls, "\r\n")
    }

    fn uptime_line(&self, secs: u64) -> (r: String)
        ensures
            r@ == uptime_text(secs as nat),
    {
        let mins: u64 = secs / 60;
        let hours: u64 = mins / 60;
        let mut r = two_digit_text(hours % 24);
        r.append(":");
        r.append(&two_digit_text(mins % 60));
        r.append(":");
        r.append(&two_digit_text(secs % 60));
        r.append(" up ");
        r.append(&decimal_text(mins));
        r.append(" min, load average: 0.00, 0.00, 0.00");
        r
    }

    fn uname(&self, arg: &str) -> (r: String)
        ensures
            r@ == self@.uname(arg@),
    {
        if eq_text(arg, "-a") {
            cat3(
                "Linux ",
                &self.hostname,
                " 5.15.147 #29 SMP PREEMPT Thu Nov 13 17:22:05 CST 2025 aarch64 GNU/Linux",
            )
        } else if eq_text(arg, "-r") {
            "5.15.147".to_owned()
        } else {
            "Linux".to_owned()
        }
    }

    /// Runs a command, and returns what is printed.
    fn run(&mut self, cmd: &str, arg: &str, secs: u64) -> (r: String)
        ensures
            (final(self)@, r@) == old(self)@.runs(cmd@, arg@, secs as nat),
    {
        if !self.logged_in && (eq_text(cmd, "login") || eq_text(cmd, "root")) {
            self.login_user = if eq_text(cmd, "login") && !arg.is_empty() {
                arg.to_owned()
            } else {
                "root".to_owned()
            };
            self.logged_in = true;
            return cat("\r\nPassword: \r\n", &self.prompt());
        }
        if eq_text(cmd, "echo") {
            self.show(arg)
        } else if eq_text(cmd, "cat") {
            self.show(&self.cat_file(arg))
        } else if eq_text(cmd, "ls") {
            self.show(&self.list(arg))
        } else if eq_text(cmd, "dmesg") {
            self.show(&self.boot_head())
        } else if eq_text(cmd, "dmesg-full") {
            self.show(&trim_text(BOOT_LOG))
        } else if eq_text(cmd, "uptime") {
            self.show(&self.uptime_line(secs))
        } else if eq_text(cmd, "whoami") {
            self.show(&self.login_user)
        } else if eq_text(cmd, "hostname") {
            self.show(&self.hostname)
        } else if eq_text(cmd, "pwd") {
            self.show("/")
        } else if eq_text(cmd, "uname") {
            self.show(&self.uname(arg))
        } else if eq_text(cmd, "stty") {
            if contains_text(arg, "echo") {
                self.echo = !contains_text(arg, "-echo");
            }
            self.prompt()
        } else if eq_text(cmd, "false") {
            proof {
                reveal_strlit("");
                assert(""@ =~= Seq::<char>::empty());
            }
            self.show("")
        } else if eq_text(cmd, "true") || eq_text(cmd, "warmup") {
            self.prompt()
        } else if !self.logged_in {
            cat("\r\nLogin incorrect\r\n", &self.prompt())
        } else {
            self.show(&cat3("/bin/sh: ", cmd, ": not found"))
        }
    }

    /// Runs a line after `secs` seconds, and returns what is printed.
    pub fn process_line_at(&mut self, line: &str, secs: u64) -> (r: String)
        ensures
            (final(self)@, r@) == old(self)@.answers(line@, secs as nat),
    {
        let l = trim_text(line);
        if l.as_str().is_empty() {
            return self.prompt();
        }
        let v = chars_of(&l);
        let k: usize = index_from(&v, ' ', 0);
        let cmd = string_of_range(&v, 0, k);
        let arg = if k < v.len() {
            trim_text(&string_of_range(&v, k + 1, v.len()))
        } else {
            proof {
                reveal_strlit("");
                assert(""@ =~= Seq::<char>::empty());
            }
            trim_text("")
        };
        self.run(&cmd, &arg, secs)
    }

    /// Runs a line, and returns what is printed.
    pub fn process_line(&mut self, line: &str) -> (r: String)
        ensures
            exists|secs: nat| (final(self)@, r@) == #[trigger] old(self)@.answers(line@, secs),
    {
        let secs: u64 = self.uptime();
        self.process_line_at(line, secs)
    }

    /// Takes in a key after `secs` seconds, and returns what is sent.
    pub fn key_at(&mut self, b: u8, secs: u64) -> (r: Vec<u8>)
        ensures
            (final(self)@, r@) == old(self)@.takes(b, secs as nat),
    {
        let mut out: Vec<u8> = Vec::new();
        if b == 0x7f || b == 0x08 {
            if self.line_buf.len() > 0 {
                let ghost before = self.line_buf@;
                self.line_buf.pop();
                assert(self.line_buf@ =~= before.drop_last());
                if self.echo {
                    out.push(8);
                    out.push(32);
                    out.push(8);
                    assert(out@ =~= seq![8u8, 32u8, 8u8]);
                }
            }
        } else if b == 13 || b == 10 {
            if self.echo {
                out.push(13);
                out.push(10);
                assert(out@ =~= seq![13u8, 10u8]);
            }
            let line = string_of(&self.line_buf);
            self.line_buf = Vec::new();
            assert(self.line_buf@ =~= Seq::<char>::empty());
            let text = self.process_line_at(&line, secs);
            append_bytes(&mut out, text.as_str().as_bytes());
        } else if b == 4 {
            append_bytes(&mut out, "\r\nlogout\r\n".as_bytes());
            assert(out@ =~= encode_utf8("\r\nlogout\r\n"@));
            self.logged_in = false;
            proof {
                reveal_strlit("");
                assert(""@ =~= Seq::<char>::empty());
            }
            self.login_user = "".to_owned();
            append_bytes(&mut out, self.initial_prompt().as_str().as_bytes());
        } else if b == 3 {
            self.line_buf = Vec::new();
            assert(self.line_buf@ =~= Seq::<char>::empty());
            out.push(94);
            out.push(67);
            assert(out@ =~= seq![94u8, 67u8]);
            append_bytes(&mut out, self.prompt().as_str().as_bytes());
        } else {
            if (32 <= b && b <= 126) || b == 9 {
                self.line_buf.push(b as char);
            }
            if self.echo {
                out.push(b);
                assert(out@ =~= seq![b]);
            }
        }
        out
    }

    /// Takes in a key, and returns what is sent.
    pub fn key(&mut self, b: u8) -> (r: Vec<u8>)
        ensures
            exists|secs: nat| (final(self)@, r@) == #[trigger] old(self)@.takes(b, secs),
    {
        let secs: u64 = self.uptime();
        self.key_at(b, secs)
    }
}

// ── Arguments ───────────────────────────────────────────────────────────────

/// How the board is started.
pub struct SimOptions {
    pub port: u16,
    pub hostname: String,
    pub boot_log: bool,
    pub no_login: bool,
    pub print_port: bool,
}

/// What the arguments ask for.
pub enum SimCommand {
    Run(SimOptions),
    Help,
    /// An argument is not known.
    Unknown(String),
}

/// The model of `SimOptions`.
pub struct SimView {
    pub port: u16,
    pub hostname: Seq<char>,
    pub boot_log: bool,
    pub no_login: bool,
    pub print_port: bool,
}

impl View for SimOptions {
    type V = SimView;

    open spec fn view(&self) -> SimView {
        SimView {
            port: self.port,
            hostname: self.hostname@,
            boot_log: self.boot_log,
            no_login: self.no_login,
            print_port: self.print_port,
        }
    }
}

/// The model of a `SimCommand`.
pub enum SimCommandView {
    Run(SimView),
    Help,
    Unknown(Seq<char>),
}

impl View for SimCommand {
    type V = SimCommandView;

    open spec fn view(&self) -> SimCommandView {
        match *self {
            SimCommand::Run(o) => SimCommandView::Run(o@),
            SimCommand::Help => SimCommandView::Help,
            SimCommand::Unknown(s) => SimCommandView::Unknown(s@),
        }
    }
}

/// A port number, or the default.
pub open spec fn sim_port(s: Seq<char>) -> u16 {
    match parse_unsigned(s, u16::MAX as nat) {
        Some(p) => p as u16,
        None => DEFAULT_PORT,
    }
}

impl SimView {
    /// What the arguments from `i` on ask for. An option at the end, without its
    /// value, changes nothing.
    pub open spec fn reading(self, args: Seq<Seq<char>>, i: int) -> SimCommandView
        decreases args.len() - i,
    {
        if i < 0 || i >= args.len() {
            SimCommandView::Run(self)
        } else if args[i] == "--port"@ || args[i] == "-p"@ {
            if i + 1 < args.len() {
                (SimView { port: sim_port(args[i + 1]), ..self }).reading(args, i + 2)
            } else {
                SimCommandView::Run(self)
            }
        } else if args[i] == "--hostname"@ || args[i] == "-h"@ {
            if i + 1 < args.len() {
                (SimView { hostname: args[i + 1], ..self }).reading(args, i + 2)
            } else {
                SimCommandView::Run(self)
            }
        } else if args[i] == "--boot-log"@ || args[i] == "-b"@ {
            (SimView { boot_log: true, ..self }).reading(args, i + 1)
        } else if args[i] == "--no-login"@ || args[i] == "-n"@ {
            (SimView { no_login: true, ..self }).reading(args, i + 1)
        } else if args[i] == "--print-port"@ || args[i] == "-P"@ {
            (SimView { print_port: true, ..self }).reading(args, i + 1)
        } else if args[i] == "--help"@ {
            SimCommandView::Help
        } else {
            SimCommandView::Unknown(args[i])
        }
    }
}

/// Reads the command line, without the program's name.
pub fn parse_sim_args(args: &Vec<String>, hostname: &str) -> (r: SimCommand)
    ensures
        r@ == (SimView {
            port: DEFAULT_PORT,
            hostname: hostname@,
            boot_log: false,
            no_login: false,
            print_port: false,
        }).reading(texts(args@), 0),
{
    let mut o = SimOptions {
        port: DEFAULT_PORT,
        hostname: hostname.to_owned(),
        boot_log: false,
        no_login: false,
        print_port: false,
    };
    let ghost start = o@;
    let ghost all = texts(args@);
    let mut i: usize = 0;
    while i < args.len()
        invariant
            i <= args@.len(),
            all == texts(args@),
            start == (SimView {
                port: DEFAULT_PORT,
                hostname: hostname@,
                boot_log: false,
                no_login: false,
                print_port: false,
            }),
            start.reading(all, 0) == o@.reading(all, i as int),
        decreases args@.len() - i,
    {
        assert(all[i as int] == args@[i as int]@);
        let a = args[i].as_str();
        if eq_text(a, "--port") || eq_text(a, "-p") {
            if i + 1 >= args.len() {
                return SimCommand::Run(o);
            }
            assert(all[i + 1] == args@[i + 1]@);
            o.port = match parse_uint(&args[i + 1], u16::MAX as u64) {
                Some(p) => p as u16,
                None => DEFAULT_PORT,
            };
            i = i + 2;
        } else if eq_text(a, "--hostname") || eq_text(a, "-h") {
            if i + 1 >= args.len() {
                return SimCommand::Run(o);
            }
            assert(all[i + 1] == args@[i + 1]@);
            o.hostname = args[i + 1].clone();
            i = i + 2;
        } else if eq_text(a, "--boot-log") || eq_text(a, "-b") {
            o.boot_log = true;
            i = i + 1;
        } else if eq_text(a, "--no-login") || eq_text(a, "-n") {
            o.no_login = true;
            i = i + 1;
        } else if eq_text(a, "--print-port") || eq_text(a, "-P") {
            o.print_port = true;
            i = i + 1;
        } else if eq_text(a, "--help") {
            return SimCommand::Help;
        } else {
            return SimCommand::Unknown(args[i].clone());
        }
    }
    SimCommand::Run(o)
}

// ── Laws ────────────────────────────────────────────────────────────────────

/// Law: backspace takes back what was typed last.
pub proof fn law_backspace_undoes_typing(v: ShellView, b: u8, secs: nat)
    requires
        is_typed(b),
    ensures
        v.takes(b, secs).0.takes(0x7f, secs).0 == v,
        v.takes(b, secs).0.takes(0x08, secs).0 == v,
{
    assert(v.line.push(b as char).drop_last() =~= v.line);
}

/// Law: with echo off, nothing of what is typed is sent back.
pub proof fn law_no_echo(v: ShellView, b: u8, secs: nat)
    requires
        !v.echo,
        b != 13 && b != 10 && b != 4 && b != 3,
    ensures
        v.takes(b, secs).1.len() == 0,
{
}

/// Law: no line and no key changes the host's name or the board's files.
pub proof fn law_board_stays(v: ShellView, b: u8, line: Seq<char>, secs: nat)
    ensures
        v.answers(line, secs).0.hostname == v.hostname,
        v.answers(line, secs).0.files == v.files,
        v.takes(b, secs).0.hostname == v.hostname,
        v.takes(b, secs).0.files == v.files,
{
}

spec fn word_tag(w: Seq<char>) -> int {
    w.len() * 1000000 + (w[0] as u32) * 1000 + w.last() as u32
}

proof fn lemma_command_tags()
    ensures
        word_tag("login"@) == 5108110,
        word_tag("root"@) == 4114116,
        word_tag("echo"@) == 4101111,
        word_tag("cat"@) == 3099116,
        word_tag("ls"@) == 2108115,
        word_tag("dmesg"@) == 5100103,
        word_tag("dmesg-full"@) == 10100108,
        word_tag("uptime"@) == 6117101,
        word_tag("whoami"@) == 6119105,
        word_tag("hostname"@) == 8104101,
        word_tag("pwd"@) == 3112100,
        word_tag("uname"@) == 5117101,
        word_tag("stty"@) == 4115121,
        word_tag("false"@) == 5102101,
        word_tag("true"@) == 4116101,
        word_tag("warmup"@) == 6119112,
{
    reveal_strlit("login");
    reveal_strlit("root");
    reveal_strlit("echo");
    reveal_strlit("cat");
    reveal_strlit("ls");
    reveal_strlit("dmesg");
    reveal_strlit("dmesg-full");
    reveal_strlit("uptime");
    reveal_strlit("whoami");
    reveal_strlit("hostname");
    reveal_strlit("pwd");
    reveal_strlit("uname");
    reveal_strlit("stty");
    reveal_strlit("false");
    reveal_strlit("true");
    reveal_strlit("warmup");
}

/// Law: each command of the shell answers what it is asked, on a line of its own before
/// the prompt.
#[verifier::rlimit(50)]
pub proof fn law_commands_answer(v: ShellView, cmd: Seq<char>, arg: Seq<char>, secs: nat)
    ensures
        ({
            let r = v.runs(cmd, arg, secs);
            let prompt = "\r\n"@ + (if v.logged_in {
                v.user + "@"@ + v.hostname + ":/# "@
            } else {
                v.hostname + " login: "@
            });
            let shown = |t: Seq<char>| (v, "\r\n"@ + t + prompt);
            &&& cmd == "echo"@ ==> r == shown(arg)
            &&& cmd == "cat"@ && arg.len() > 0 && v.files.contains_key(arg) ==> r == shown(
                v.files[arg],
            )
            &&& cmd == "cat"@ && arg.len() > 0 && !v.files.contains_key(arg) ==> r == shown(
                "cat: "@ + arg + ": No such file or directory"@,
            )
            &&& cmd == "ls"@ && (arg.len() == 0 || arg == "/"@) ==> r == shown(
                "bin\r\ndev\r\netc\r\nproc\r\ntmp\r\nusr\r\nvar"@,
            )
            &&& cmd == "ls"@ && arg == "/proc"@ ==> r == shown("cpuinfo\r\nmeminfo\r\nversion"@)
            &&& cmd == "ls"@ && arg == "/etc"@ ==> r == shown("hostname"@)
            &&& cmd == "dmesg-full"@ ==> r == shown(trim(BOOT_LOG@))
            &&& cmd == "whoami"@ ==> r == shown(v.user)
            &&& cmd == "hostname"@ ==> r == shown(v.hostname)
            &&& cmd == "pwd"@ ==> r == shown("/"@)
            &&& cmd == "uname"@ && arg == "-r"@ ==> r == shown("5.15.147"@)
            &&& cmd == "uname"@ && arg == "-a"@ ==> r == shown(
                "Linux "@ + v.hostname
                    + " 5.15.147 #29 SMP PREEMPT Thu Nov 13 17:22:05 CST 2025 aarch64 GNU/Linux"@,
            )
            &&& cmd == "uname"@ && arg != "-r"@ && arg != "-a"@ ==> r == shown("Linux"@)
            &&& cmd == "true"@ || cmd == "warmup"@ ==> r == (v, prompt)
            &&& cmd == "false"@ ==> r == shown(Seq::empty())
        }),
{
    lemma_command_tags();
    reveal_strlit("-a");
    reveal_strlit("-r");
    reveal_strlit("/");
    reveal_strlit("/proc");
    reveal_strlit("/etc");
    assert("-a"@[1] == 'a' && "-r"@[1] == 'r');
    assert("/"@.len() == 1 && "/proc"@.len() == 5 && "/etc"@.len() == 4);
}

/// Law: the shell lets in who names a user, by that name, and root without one; before
/// that an unknown command is a failed login, after that it is not found.
#[verifier::rlimit(50)]
pub proof fn law_login(v: ShellView, cmd: Seq<char>, arg: Seq<char>, secs: nat)
    ensures
        ({
            let r = v.runs(cmd, arg, secs);
            let known = cmd == "echo"@ || cmd == "cat"@ || cmd == "ls"@ || cmd == "dmesg"@ || cmd == "dmesg-full"@ || cmd == "uptime"@ || cmd == "whoami"@ || cmd == "hostname"@ || cmd == "pwd"@ || cmd == "uname"@ || cmd == "stty"@ || cmd == "false"@ || cmd == "true"@ || cmd == "warmup"@;
            &&& !v.logged_in && cmd == "login"@ && arg.len() > 0 ==> r.0.logged_in && r.0.user
                == arg && r.1 == "\r\nPassword: \r\n"@ + ("\r\n"@ + (arg + "@"@ + v.hostname
                + ":/# "@))
            &&& !v.logged_in && (cmd == "root"@ || cmd == "login"@ && arg.len() == 0)
                ==> r.0.logged_in && r.0.user == "root"@
            &&& !v.logged_in && !known && cmd != "login"@ && cmd != "root"@ ==> r == (
                v,
                "\r\nLogin incorrect\r\n"@ + ("\r\n"@ + (v.hostname + " login: "@)),
            )
            &&& v.logged_in && !known ==> r == (
                v,
                "\r\n"@ + ("/bin/sh: "@ + cmd + ": not found"@) + ("\r\n"@ + (v.user + "@"@
                    + v.hostname + ":/# "@)),
            )
            &&& cmd == "stty"@ && occurs(arg, "-echo"@) && occurs(arg, "echo"@) ==> !r.0.echo
            &&& cmd == "stty"@ && occurs(arg, "echo"@) && !occurs(arg, "-echo"@) ==> r.0.echo
            &&& cmd == "stty"@ && !occurs(arg, "echo"@) ==> r.0.echo == v.echo
            &&& cmd != "stty"@ ==> r.0.echo == v.echo
        }),
{
    lemma_command_tags();
}

/// Law: a line is the command before its first space and the argument behind it, without
/// the white space around it; a blank line shows the prompt again.
pub proof fn law_lines_are_read(v: ShellView, cmd: Seq<char>, arg: Seq<char>, secs: nat)
    requires
        cmd.len() > 0,
        forall|i: int| 0 <= i < cmd.len() ==> !crate::text::is_space(#[trigger] cmd[i]),
        arg.len() > 0,
        crate::text::is_trimmed(arg),
    ensures
        v.answers(cmd, secs) == v.runs(cmd, Seq::empty(), secs),
        v.answers(cmd + seq![' '] + arg, secs) == v.runs(cmd, arg, secs),
        v.answers(Seq::empty(), secs) == (v, v.prompt()),
{
    let e = Seq::<char>::empty();
    assert(crate::text::is_space(' ')) by {
        crate::text::law_white_space(' ');
    }
    assert(!cmd.contains(' '));
    crate::text::law_trim(e, cmd, e);
    assert(e + cmd + e =~= cmd);
    lemma_no_space(cmd, 0);
    assert(cmd.subrange(0, cmd.len() as int) =~= cmd);
    crate::text::law_trim(e, e, e);
    assert(e + e + e =~= e);
    let s = cmd + seq![' '] + arg;
    let k = cmd.len() as int;
    assert(s[0] == cmd[0]);
    assert(s.last() == arg.last());
    crate::text::law_trim(e, s, e);
    assert(e + s + e =~= s);
    lemma_space_at(s, k, 0);
    assert(s.subrange(0, k) =~= cmd);
    assert(s.subrange(k + 1, s.len() as int) =~= arg);
    crate::text::law_trim(e, arg, e);
    assert(e + arg + e =~= arg);
}

proof fn lemma_no_space(s: Seq<char>, i: int)
    requires
        0 <= i <= s.len(),
        !s.contains(' '),
    ensures
        next_index(s, ' ', i) == s.len(),
    decreases s.len() - i,
{
    if i < s.len() {
        assert(s.contains(s[i]));
        lemma_no_space(s, i + 1);
    }
}

proof fn lemma_space_at(s: Seq<char>, k: int, i: int)
    requires
        0 <= i <= k < s.len(),
        s[k] == ' ',
        forall|j: int| 0 <= j < k ==> !crate::text::is_space(#[trigger] s[j]),
        crate::text::is_space(' '),
    ensures
        next_index(s, ' ', i) == k,
    decreases k - i,
{
    if i < k {
        assert(!crate::text::is_space(s[i]));
        lemma_space_at(s, k, i + 1);
    }
}

/// Law: what is typed is kept until the line ends, then answered; Ctrl-C drops it, and
/// Ctrl-D logs out.
pub proof fn law_keys(v: ShellView, b: u8, secs: nat)
    ensures
        (32 <= b <= 126 || b == 9) ==> v.takes(b, secs).0 == (ShellView {
            line: v.line.push(b as char),
            ..v
        }),
        (32 <= b <= 126 || b == 9) && v.echo ==> v.takes(b, secs).1 == seq![b],
        b == 13 || b == 10 ==> v.takes(b, secs).0 == (ShellView {
            line: Seq::empty(),
            ..v
        }).answers(v.line, secs).0,
        b == 13 || b == 10 ==> v.takes(b, secs).1 == (if v.echo {
            seq![13u8, 10u8]
        } else {
            Seq::empty()
        }) + encode_utf8((ShellView { line: Seq::empty(), ..v }).answers(v.line, secs).1),
        b == 3 ==> v.takes(b, secs).0 == (ShellView { line: Seq::empty(), ..v }),
        b == 4 ==> !v.takes(b, secs).0.logged_in && v.takes(b, secs).0.user.len() == 0,
        (b == 0x7f || b == 8) && v.line.len() > 0 ==> v.takes(b, secs).0.line
            == v.line.drop_last(),
        (b == 0x7f || b == 8) && v.line.len() == 0 ==> v.takes(b, secs) == (v, Seq::<u8>::empty()),
{
}

/// Law: the time that the board is up is shown as hours, minutes and seconds.
pub proof fn law_uptime(h: nat, m: nat, s: nat)
    requires
        h < 24,
        m < 60,
        s < 60,
    ensures
        uptime_text((h * 60 + m) * 60 + s) == two_digits(h) + ":"@ + two_digits(m) + ":"@
            + two_digits(s) + " up "@ + decimal(h * 60 + m)
            + " min, load average: 0.00, 0.00, 0.00"@,
        two_digits(m) == seq![('0' as u32 + m / 10) as char, ('0' as u32 + m % 10) as char],
{
    let secs = (h * 60 + m) * 60 + s;
    assert(secs / 60 == h * 60 + m && secs % 60 == s);
    assert((h * 60 + m) / 60 == h && (h * 60 + m) % 60 == m);
    reveal_strlit("0");
    if m < 10 {
        crate::text::law_decimal(0, m);
        assert(two_digits(m) =~= seq!['0', ('0' as u32 + m) as char]);
    } else {
        crate::text::law_decimal(m / 10, m % 10);
        crate::text::law_decimal(0, m / 10);
        assert(m == (m / 10) * 10 + m % 10);
        assert(decimal(m) =~= seq![('0' as u32 + m / 10) as char, ('0' as u32 + m % 10) as char]);
    }
}

/// Law: the start of a boot log is its first twenty lines.
pub proof fn law_boot_head(a: Seq<Seq<char>>, b: Seq<Seq<char>>)
    ensures
        a.len() == 20 ==> boot_head(a + b) == joined(a, "\r\n"@),
        a.len() <= 20 ==> boot_head(a) == joined(a, "\r\n"@),
{
    if a.len() == 20 {
        if b.len() > 0 {
            assert((a + b).subrange(0, 20) =~= a);
        } else {
            assert(a + b =~= a);
        }
    }
}

/// Law: the board's files are found under their paths.
#[verifier::rlimit(50)]
pub proof fn law_board_files(hostname: Seq<char>, path: Seq<char>)
    ensures
        ({
            let f = board_files(hostname);
            &&& f.contains_key("/proc/version"@) && f["/proc/version"@] == VERSION@
            &&& f.contains_key("/proc/cpuinfo"@) && f["/proc/cpuinfo"@] == CPUINFO@
            &&& f.contains_key("/proc/meminfo"@) && f["/proc/meminfo"@] == MEMINFO@
            &&& f.contains_key("/etc/hostname"@) && f["/etc/hostname"@] == hostname + "\n"@
            &&& path != "/proc/version"@ && path != "/proc/cpuinfo"@ && path != "/proc/meminfo"@
                && path != "/etc/hostname"@ ==> !f.contains_key(path)
        }),
{
    reveal_strlit("/proc/version");
    reveal_strlit("/proc/cpuinfo");
    reveal_strlit("/proc/meminfo");
    reveal_strlit("/etc/hostname");
    assert("/proc/version"@[6] == 'v' && "/proc/cpuinfo"@[6] == 'c' && "/proc/meminfo"@[6] == 'm');
    assert("/etc/hostname"@[1] == 'e' && "/proc/version"@[1] == 'p' && "/proc/cpuinfo"@[1] == 'p'
        && "/proc/meminfo"@[1] == 'p');
}

spec fn option_tag(w: Seq<char>) -> int {
    w.len() * 1000 + (if w.len() > 2 {
        w[2]
    } else {
        w[1]
    }) as u32
}

/// Law: each option of the simulator adds to what the options behind it say; one that
/// lacks its value ends the reading, and one that is not known is named.
#[verifier::rlimit(50)]
pub proof fn law_sim_options(v: SimView, a: Seq<char>, b: Seq<char>, rest: Seq<Seq<char>>)
    ensures
        v.reading(Seq::empty(), 0) == SimCommandView::Run(v),
        a == "--port"@ || a == "-p"@ ==> v.reading(seq![a, b] + rest, 0) == (SimView {
            port: sim_port(b),
            ..v
        }).reading(rest, 0),
        a == "--hostname"@ || a == "-h"@ ==> v.reading(seq![a, b] + rest, 0) == (SimView {
            hostname: b,
            ..v
        }).reading(rest, 0),
        a == "--boot-log"@ || a == "-b"@ ==> v.reading(seq![a] + rest, 0) == (SimView {
            boot_log: true,
            ..v
        }).reading(rest, 0),
        a == "--no-login"@ || a == "-n"@ ==> v.reading(seq![a] + rest, 0) == (SimView {
            no_login: true,
            ..v
        }).reading(rest, 0),
        a == "--print-port"@ || a == "-P"@ ==> v.reading(seq![a] + rest, 0) == (SimView {
            print_port: true,
            ..v
        }).reading(rest, 0),
        a == "--help"@ ==> v.reading(seq![a] + rest, 0) == SimCommandView::Help,
        a == "--port"@ || a == "-p"@ || a == "--hostname"@ || a == "-h"@ ==> v.reading(seq![a], 0)
            == SimCommandView::Run(v),
        a != "--port"@ && a != "-p"@ && a != "--hostname"@ && a != "-h"@ && a != "--boot-log"@ && a != "-b"@ && a != "--no-login"@ && a != "-n"@ && a != "--print-port"@ && a != "-P"@ && a != "--help"@ ==> v.reading(seq![a] + rest, 0)
            == SimCommandView::Unknown(a),
{
    reveal_strlit("--port");
    assert(option_tag("--port"@) == 6112);
    reveal_strlit("-p");
    assert(option_tag("-p"@) == 2112);
    reveal_strlit("--hostname");
    assert(option_tag("--hostname"@) == 10104);
    reveal_strlit("-h");
    assert(option_tag("-h"@) == 2104);
    reveal_strlit("--boot-log");
    assert(option_tag("--boot-log"@) == 10098);
    reveal_strlit("-b");
    assert(option_tag("-b"@) == 2098);
    reveal_strlit("--no-login");
    assert(option_tag("--no-login"@) == 10110);
    reveal_strlit("-n");
    assert(option_tag("-n"@) == 2110);
    reveal_strlit("--print-port");
    assert(option_tag("--print-port"@) == 12112);
    reveal_strlit("-P");
    assert(option_tag("-P"@) == 2080);
    reveal_strlit("--help");
    assert(option_tag("--help"@) == 6104);
    let two = seq![a, b] + rest;
    assert(two[0] == a && two[1] == b);
    let one = seq![a] + rest;
    assert(one[0] == a);
    assert(seq![a][0] == a);
    lemma_sim_shift(SimView { port: sim_port(b), ..v }, seq![a, b], rest, 0);
    lemma_sim_shift(SimView { hostname: b, ..v }, seq![a, b], rest, 0);
    lemma_sim_shift(SimView { boot_log: true, ..v }, seq![a], rest, 0);
    lemma_sim_shift(SimView { no_login: true, ..v }, seq![a], rest, 0);
    lemma_sim_shift(SimView { print_port: true, ..v }, seq![a], rest, 0);
}

proof fn lemma_sim_shift(v: SimView, a: Seq<Seq<char>>, b: Seq<Seq<char>>, i: int)
    requires
        0 <= i,
    ensures
        v.reading(a + b, a.len() + i) == v.reading(b, i),
    decreases b.len() - i,
{
    if i < b.len() {
        let s = a + b;
        let k = a.len() + i;
        assert(s[k] == b[i]);
        if i + 1 < b.len() {
            assert(s[k + 1] == b[i + 1]);
            lemma_sim_shift(SimView { port: sim_port(b[i + 1]), ..v }, a, b, i + 2);
            lemma_sim_shift(SimView { hostname: b[i + 1], ..v }, a, b, i + 2);
        }
        lemma_sim_shift(SimView { boot_log: true, ..v }, a, b, i + 1);
        lemma_sim_shift(SimView { no_login: true, ..v }, a, b, i + 1);
        lemma_sim_shift(SimView { print_port: true, ..v }, a, b, i + 1);
    }
}

/// Law: the simulator's port is the number that is given, else 9999.
pub proof fn law_sim_ports(n: nat)
    ensures
        n <= 65535 ==> sim_port(decimal(n)) == n,
        n > 65535 ==> sim_port(decimal(n)) == 9999,
        sim_port(Seq::empty()) == 9999,
{
    crate::text::law_parse_unsigned(n, u16::MAX as nat);
    crate::text::law_no_digits_no_number(u16::MAX as nat, 0, 0);
}

} // verus!
