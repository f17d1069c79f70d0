//! Commands run one after the other, their output framed by markers.
//!
//! A command is sent as a line that prints a marker, runs the command, prints
//! the exit code and prints the marker again. The marker is written in two
//! quoted halves, so that the echo of the line itself does not hold it. What
//! stands between the two markers is the command's output.
//!
//! The queue is driven from outside: bytes to write and results are collected
//! and handed out.

use crate::boot_detector::{capped, BUFFER_KEEP, BUFFER_LIMIT};
use crate::bridge::{
    clock_nanos, clock_start, lossy_text, pattern_replaced, replace_all, unescaped_text,
    utf8_lossy,
};
use crate::marker::{gen_marker, is_marker, is_marker_char};
use crate::state_manager::elapsed;
use crate::text::{
    append_bytes, bytes_range, cat3, chars_of, copy_bytes, decimal, find_bytes, find_seq, index_option,
    lines, lines_of, parse_int, parse_signed, remove_char, rfind_chars, rfind_seq, string_of_range,
    texts, trim, trim_text, without,
};
use vstd::prelude::*;
use vstd::string::*;
use vstd::utf8::{decode_utf8, encode_utf8, valid_utf8};

verus! {

/// The pattern of terminal escape sequences.
pub const VT100_PATTERN: &'static str =
    r"(\x1b\[|\x9b)[0-?]*[ -/]*[@-~]|\x1b[>=]|\x1b[()][A-Z0-9]";

/// The text of output: its characters where it is well formed.
pub open spec fn text_of(data: Seq<u8>) -> Seq<char> {
    if valid_utf8(data) {
        decode_utf8(data)
    } else {
        utf8_lossy(data)
    }
}

/// The data without terminal escape sequences.
pub open spec fn stripped(data: Seq<u8>) -> Seq<u8> {
    let text = text_of(data);
    if unescaped_text(text) {
        encode_utf8(text)
    } else {
        encode_utf8(
            match pattern_replaced(VT100_PATTERN@, text, ""@) {
                Some(s) => s,
                None => text,
            },
        )
    }
}

/// Removes terminal escape sequences.
pub fn strip_ansi(data: &[u8]) -> (r: Vec<u8>)
    ensures
        r@ == stripped(data@),
{
    let s = lossy_text(data);
    match replace_all(VT100_PATTERN, &s, "") {
        Some(t) => copy_bytes(t.as_str().as_bytes()),
        None => copy_bytes(s.as_str().as_bytes()),
    }
}

/// The first position of `needle` in `haystack`.
pub fn find_subsequence(haystack: &[u8], needle: &[u8]) -> (r: Option<usize>)
    requires
        needle@.len() > 0,
    ensures
        index_option(r) == find_seq(haystack@, needle@),
{
    find_bytes(haystack, needle)
}

// ── Output ──────────────────────────────────────────────────────────────────

/// The exit code that a line holds.
pub open spec fn line_code(line: Seq<char>) -> Option<int> {
    parse_signed(trim(line), i32::MIN as int, i32::MAX as int)
}

/// The last of the first `k` lines that holds an exit code.
pub open spec fn code_line(ls: Seq<Seq<char>>, k: int) -> Option<int>
    decreases k,
{
    if k <= 0 {
        None
    } else if line_code(ls[k - 1]) is Some {
        Some(k - 1)
    } else {
        code_line(ls, k - 1)
    }
}

/// The raw output as text: no carriage returns, no surrounding white space.
pub open spec fn raw_text(body: Seq<u8>) -> Seq<char> {
    trim(without(text_of(body), '\r'))
}

/// The exit code in the output: the last line that is a number.
pub open spec fn output_code(out: Seq<char>) -> Option<int> {
    match code_line(lines(out), lines(out).len() as int) {
        None => None,
        Some(k) => line_code(lines(out)[k]),
    }
}

/// The output before the last occurrence of the exit code's text.
pub open spec fn output_text(out: Seq<char>) -> Seq<char> {
    match code_line(lines(out), lines(out).len() as int) {
        None => out,
        Some(k) => {
            let end = match rfind_seq(out, trim(lines(out)[k])) {
                Some(i) => i,
                None => out.len() as int,
            };
            trim(out.subrange(0, end))
        },
    }
}

/// Splits the output into the command's text and its exit code.
pub fn parse_output(body: &[u8]) -> (r: (String, Option<i32>))
    ensures
        r.0@ == output_text(raw_text(body@)),
        match r.1 {
            Some(c) => output_code(raw_text(body@)) == Some(c as int),
            None => output_code(raw_text(body@)) is None,
        },
{
    let lossy = lossy_text(body);
    let flat = remove_char(&lossy, '\r');
    let out = trim_text(&flat);
    let ls = lines_of(&out);
    let ghost all = lines(out@);
    let mut k: usize = ls.len();
    assert(texts(ls@).len() == ls@.len());
    while k > 0
        invariant
            k <= ls@.len(),
            texts(ls@) == all,
            all == lines(out@),
            out@ == raw_text(body@),
            code_line(all, k as int) == code_line(all, all.len() as int),
        decreases k,
    {
        let line = trim_text(&ls[k - 1]);
        assert(all[k - 1] == ls@[k - 1]@);
        if let Some(code) = parse_int(&line, 2147483647) {
            let v = chars_of(&out);
            let n = chars_of(&line);
            let end: usize = match rfind_chars(&v, &n) {
                Some(i) => i,
                None => v.len(),
            };
            let head = string_of_range(&v, 0, end);
            return (trim_text(&head), Some(code as i32));
        }
        k -= 1;
    }
    (out, None)
}

// ── The queue's model ───────────────────────────────────────────────────────

/// The outcome of a command.
pub struct CommandResult {
    pub output: String,
    pub exit_code: Option<i32>,
    pub timed_out: bool,
}

/// The outcome of the command with the given number.
pub struct Finished {
    pub id: u64,
    pub result: CommandResult,
}

/// The model of a `Finished`.
pub struct FinishedView {
    pub id: u64,
    pub output: Seq<char>,
    pub exit_code: Option<int>,
    pub timed_out: bool,
}

impl View for Finished {
    type V = FinishedView;

    open spec fn view(&self) -> FinishedView {
        FinishedView {
            id: self.id,
            output: self.result.output@,
            exit_code: match self.result.exit_code {
                Some(c) => Some(c as int),
                None => None,
            },
            timed_out: self.result.timed_out,
        }
    }
}

/// The models of a list of outcomes.
pub open spec fn finished_of(v: Seq<Finished>) -> Seq<FinishedView> {
    v.map_values(|f: Finished| f@)
}

/// The contents of a list of byte strings.
pub open spec fn chunks_of(v: Seq<Vec<u8>>) -> Seq<Seq<u8>> {
    v.map_values(|c: Vec<u8>| c@)
}

/// The line that runs a command between two prints of the marker.
pub open spec fn framed(command: Seq<char>, marker: Seq<char>) -> Seq<char> {
    let quoted = "'"@ + marker.subrange(0, 4) + "''"@ + marker.subrange(4, marker.len() as int)
        + "'"@;
    "echo "@ + quoted + "; "@ + command + "; echo \"$?\"; echo "@ + quoted + "\n"@
}

/// The line that runs a command between two prints of the marker.
pub fn command_line(command: &str, marker: &str) -> (r: String)
    requires
        marker@.len() >= 4,
    ensures
        r@ == framed(command@, marker@),
{
    let m = chars_of(marker);
    let head = string_of_range(&m, 0, 4);
    let tail = string_of_range(&m, 4, m.len());
    let mut quoted = cat3("'", &head, "''");
    quoted.append(&tail);
    quoted.append("'");
    let mut r = cat3("echo ", &quoted, "; ");
    r.append(command);
    r.append("; echo \"$?\"; echo ");
    r.append(&quoted);
    r.append("\n");
    r
}

/// A command on its way.
struct PendingCommand {
    id: u64,
    command: String,
    marker: String,
    timeout: u64,
    found_begin: bool,
    buffer: Vec<u8>,
    search_buf: Vec<u8>,
    sent_at: u64,
}

/// The model of a command on its way. Times are nanoseconds.
pub struct PendingView {
    pub id: u64,
    pub command: Seq<char>,
    pub marker: Seq<char>,
    pub timeout: int,
    pub found_begin: bool,
    pub buffer: Seq<u8>,
    pub search_buf: Seq<u8>,
    pub sent_at: int,
}

impl View for PendingCommand {
    type V = PendingView;

    closed spec fn view(&self) -> PendingView {
        PendingView {
            id: self.id,
            command: self.command@,
            marker: self.marker@,
            timeout: self.timeout as int,
            found_begin: self.found_begin,
            buffer: self.buffer@,
            search_buf: self.search_buf@,
            sent_at: self.sent_at as int,
        }
    }
}

impl PendingView {
    /// The marker's bytes.
    pub open spec fn mark(self) -> Seq<u8> {
        encode_utf8(self.marker)
    }

    /// The command took longer than it may.
    pub open spec fn overdue(self, now: int) -> bool {
        elapsed(now, self.sent_at) > self.timeout
    }

    /// The command after more output: until the first marker is seen the output
    /// is searched for it, and what follows the marker is collected.
    pub open spec fn absorb(self, data: Seq<u8>) -> PendingView {
        if self.found_begin {
            PendingView { buffer: capped(self.buffer + data), ..self }
        } else {
            let seen = capped(self.search_buf + data);
            match find_seq(seen, self.mark()) {
                None => PendingView { search_buf: seen, ..self },
                Some(i) => PendingView {
                    found_begin: true,
                    buffer: seen.subrange(i + self.mark().len(), seen.len() as int),
                    search_buf: Seq::empty(),
                    ..self
                },
            }
        }
    }

    /// The place of the second marker in the collected output.
    pub open spec fn end(self) -> Option<int> {
        if self.found_begin {
            find_seq(self.buffer, self.mark())
        } else {
            None
        }
    }

    /// The outcome of a command whose output ends at `end`.
    pub open spec fn outcome(self, end: int) -> FinishedView {
        let out = raw_text(self.buffer.subrange(0, end));
        FinishedView {
            id: self.id,
            output: output_text(out),
            exit_code: output_code(out),
            timed_out: false,
        }
    }

    /// The outcome of an overdue command.
    pub open spec fn expired(self) -> FinishedView {
        FinishedView {
            id: self.id,
            output: trim(text_of(self.buffer)),
            exit_code: None,
            timed_out: true,
        }
    }
}

/// The model of a `CommandQueue`.
pub struct QueueView {
    pub pending: Seq<PendingView>,
    pub current: Option<PendingView>,
    pub enabled: bool,
    pub writes: Seq<Seq<u8>>,
    pub results: Seq<FinishedView>,
    pub cancelled: Seq<u64>,
    pub next_id: u64,
    pub completed_count: int,
    pub error_count: int,
}

/// One more, up to the greatest `u64`.
pub open spec fn bump64(n: int) -> int {
    if n < u64::MAX {
        n + 1
    } else {
        n
    }
}

impl QueueView {
    /// The number of commands that are not resolved.
    pub open spec fn load(self) -> nat {
        self.pending.len() + (if self.current is Some {
            1nat
        } else {
            0nat
        })
    }

    /// Every marker can be written in two halves.
    pub open spec fn wf(self) -> bool {
        forall|i: int| 0 <= i < self.pending.len() ==> (#[trigger] self.pending[i]).marker.len() >= 4
    }

    /// Sends a command at `now`; where nothing can be written it is dropped.
    pub open spec fn send(self, pc: PendingView, now: int) -> QueueView {
        if self.enabled {
            QueueView {
                writes: self.writes.push(encode_utf8(framed(pc.command, pc.marker))),
                current: Some(PendingView { sent_at: now, search_buf: Seq::empty(), ..pc }),
                ..self
            }
        } else {
            QueueView { cancelled: self.cancelled.push(pc.id), ..self }
        }
    }

    /// Sends the next waiting command, unless one is running.
    pub open spec fn dequeue(self, now: int) -> QueueView {
        if self.current is Some || self.pending.len() == 0 {
            self
        } else {
            let next = QueueView {
                pending: self.pending.subrange(1, self.pending.len() as int),
                ..self
            };
            next.send(self.pending[0], now)
        }
    }

    /// Takes in a command with its marker.
    pub open spec fn execute(
        self,
        command: Seq<char>,
        timeout: int,
        marker: Seq<char>,
        now: int,
    ) -> QueueView {
        let pc = PendingView {
            id: self.next_id,
            command,
            marker,
            timeout,
            found_begin: false,
            buffer: Seq::empty(),
            search_buf: Seq::empty(),
            sent_at: now,
        };
        let q = QueueView { next_id: (self.next_id + 1) as u64, ..self };
        if self.current is None {
            q.send(pc, now)
        } else {
            QueueView { pending: self.pending.push(pc), ..q }
        }
    }

    /// Resolves the running command if it is overdue.
    pub open spec fn expire(self, now: int) -> QueueView {
        match self.current {
            None => self,
            Some(pc) => if pc.overdue(now) {
                QueueView {
                    current: None,
                    results: self.results.push(pc.expired()),
                    error_count: bump64(self.error_count),
                    ..self
                }
            } else {
                self
            },
        }
    }

    /// Resolves the running command, whose output ends at `end`.
    pub open spec fn finish(self, pc: PendingView, end: int) -> QueueView {
        QueueView {
            current: None,
            results: self.results.push(pc.outcome(end)),
            completed_count: bump64(self.completed_count),
            ..self
        }
    }

    /// Takes in serial output that arrived at `now`. Output behind a command's
    /// second marker goes to the next command.
    pub open spec fn feed(self, raw: Seq<u8>, now: int) -> QueueView
        decreases self.load(),
    {
        let data = stripped(raw);
        let q = self.expire(now);
        match q.current {
            None => q,
            Some(old) => {
                let pc = old.absorb(data);
                match pc.end() {
                    None => QueueView { current: Some(pc), ..q },
                    Some(end) => {
                        let rest = pc.buffer.subrange(
                            end + pc.mark().len(),
                            pc.buffer.len() as int,
                        );
                        let next = q.finish(pc, end).dequeue(now);
                        if rest.len() > 0 {
                            next.feed(rest, now)
                        } else {
                            next
                        }
                    },
                }
            },
        }
    }

    /// Resolves an overdue command and starts the next one.
    pub open spec fn check_timeouts(self, now: int) -> QueueView {
        if self.current is Some && self.current->0.overdue(now) {
            self.expire(now).dequeue(now)
        } else {
            self
        }
    }
}

/// Runs commands one after the other.
pub struct CommandQueue {
    pending: Vec<PendingCommand>,
    current: Option<PendingCommand>,
    enabled: bool,
    writes: Vec<Vec<u8>>,
    results: Vec<Finished>,
    cancelled: Vec<u64>,
    next_id: u64,
    completed_count: u64,
    error_count: u64,
    clock: std::time::Instant,
}

/// The models of the waiting commands.
spec fn pending_of(v: Seq<PendingCommand>) -> Seq<PendingView> {
    v.map_values(|p: PendingCommand| p@)
}

impl View for CommandQueue {
    type V = QueueView;

    closed spec fn view(&self) -> QueueView {
        QueueView {
            pending: pending_of(self.pending@),
            current: match self.current {
                Some(p) => Some(p@),
                None => None,
            },
            enabled: self.enabled,
            writes: chunks_of(self.writes@),
            results: finished_of(self.results@),
            cancelled: self.cancelled@,
            next_id: self.next_id,
            completed_count: self.completed_count as int,
            error_count: self.error_count as int,
        }
    }
}

/// The bytes kept of a buffer.
fn cap(v: Vec<u8>) -> (r: Vec<u8>)
    ensures
        r@ == capped(v@),
{
    if v.len() > BUFFER_LIMIT {
        let n: usize = v.len();
        bytes_range(&v, n - BUFFER_KEEP, n)
    } else {
        v
    }
}

impl PendingCommand {
    /// Takes in more output.
    fn absorb(&mut self, data: &[u8])
        ensures
            final(self)@ == old(self)@.absorb(data@),
    {
        if self.found_begin {
            let mut b: Vec<u8> = Vec::new();
            std::mem::swap(&mut b, &mut self.buffer);
            append_bytes(&mut b, data);
            self.buffer = cap(b);
        } else {
            let mut s: Vec<u8> = Vec::new();
            std::mem::swap(&mut s, &mut self.search_buf);
            append_bytes(&mut s, data);
            let seen = cap(s);
            let mark = self.marker.as_str().as_bytes();
            match find_bytes(&seen, mark) {
                None => {
                    self.search_buf = seen;
                },
                Some(i) => {
                    proof {
                        crate::text::lemma_find_from(seen@, mark@, 0);
                    }
                    self.found_begin = true;
                    self.buffer = bytes_range(&seen, i + mark.len(), seen.len());
                    self.search_buf = Vec::new();
                    assert(self@.search_buf =~= Seq::<u8>::empty());
                },
            }
        }
    }

    /// The place of the second marker in the collected output.
    fn end(&self) -> (r: Option<usize>)
        ensures
            index_option(r) == self@.end(),
            r matches Some(i) ==> i + self@.mark().len() <= self@.buffer.len(),
    {
        if !self.found_begin {
            return None;
        }
        let mark = self.marker.as_str().as_bytes();
        proof {
            crate::text::lemma_find_from(self.buffer@, mark@, 0);
        }
        find_bytes(&self.buffer, mark)
    }
}

impl CommandQueue {
    /// An empty queue that cannot write yet.
    pub fn new() -> (r: Self)
        ensures
            r@ == (QueueView {
                pending: Seq::empty(),
                current: None,
                enabled: false,
                writes: Seq::empty(),
                results: Seq::empty(),
                cancelled: Seq::empty(),
                next_id: 0,
                completed_count: 0,
                error_count: 0,
            }),
            r@.wf(),
    {
        let r = CommandQueue {
            pending: Vec::new(),
            current: None,
            enabled: false,
            writes: Vec::new(),
            results: Vec::new(),
            cancelled: Vec::new(),
            next_id: 0,
            completed_count: 0,
            error_count: 0,
            clock: clock_start(),
        };
        assert(r@.pending =~= Seq::<PendingView>::empty());
        assert(r@.writes =~= Seq::<Seq<u8>>::empty());
        assert(r@.results =~= Seq::<FinishedView>::empty());
        assert(r@.cancelled =~= Seq::<u64>::empty());
        r
    }

    /// Nanoseconds since the queue was created.
    pub fn now(&self) -> u64 {
        clock_nanos(&self.clock)
    }

    /// From now on commands can be written.
    pub fn set_write_fn(&mut self)
        ensures
            final(self)@ == (QueueView { enabled: true, ..old(self)@ }),
    {
        self.enabled = true;
    }

    /// The number of waiting commands.
    pub fn pending_len(&self) -> (r: usize)
        ensures
            r == self@.pending.len(),
    {
        assert(pending_of(self.pending@).len() == self.pending@.len());
        self.pending.len()
    }

    /// Whether another command can be numbered.
    pub fn can_execute(&self) -> (r: bool)
        ensures
            r == (self@.next_id < u64::MAX),
    {
        self.next_id < u64::MAX
    }

    /// How many commands completed, and how many failed, since the counts were
    /// taken.
    pub fn counts(&self) -> (r: (u64, u64))
        ensures
            r.0 == self@.completed_count,
            r.1 == self@.error_count,
    {
        (self.completed_count, self.error_count)
    }

    /// Hands out what is to be written to the line.
    pub fn take_writes(&mut self) -> (r: Vec<Vec<u8>>)
        ensures
            chunks_of(r@) == old(self)@.writes,
            final(self)@ == (QueueView { writes: Seq::empty(), ..old(self)@ }),
    {
        let mut out: Vec<Vec<u8>> = Vec::new();
        std::mem::swap(&mut out, &mut self.writes);
        assert(self@.writes =~= Seq::<Seq<u8>>::empty());
        out
    }

    /// Hands out the outcomes.
    pub fn take_results(&mut self) -> (r: Vec<Finished>)
        ensures
            finished_of(r@) == old(self)@.results,
            final(self)@ == (QueueView { results: Seq::empty(), ..old(self)@ }),
    {
        let mut out: Vec<Finished> = Vec::new();
        std::mem::swap(&mut out, &mut self.results);
        assert(self@.results =~= Seq::<FinishedView>::empty());
        out
    }

    /// Hands out the numbers of the commands that were dropped.
    pub fn take_cancelled(&mut self) -> (r: Vec<u64>)
        ensures
            r@ == old(self)@.cancelled,
            final(self)@ == (QueueView { cancelled: Seq::empty(), ..old(self)@ }),
    {
        let mut out: Vec<u64> = Vec::new();
        std::mem::swap(&mut out, &mut self.cancelled);
        assert(self@.cancelled =~= Seq::<u64>::empty());
        out
    }

    /// Hands out and clears the counts of completed and failed commands.
    pub fn take_counts(&mut self) -> (r: (u64, u64))
        ensures
            r.0 == old(self)@.completed_count,
            r.1 == old(self)@.error_count,
            final(self)@ == (QueueView { completed_count: 0, error_count: 0, ..old(self)@ }),
    {
        let r = (self.completed_count, self.error_count);
        self.completed_count = 0;
        self.error_count = 0;
        r
    }

    /// Submits a command with a timeout in nanoseconds; its number is returned.
    pub fn execute(&mut self, command: String, timeout: u64) -> (id: u64)
        requires
            old(self)@.wf(),
            old(self)@.next_id < u64::MAX,
        ensures
            id == old(self)@.next_id,
            final(self)@.wf(),
            exists|marker: Seq<char>, now: u64|
                is_marker(marker) && final(self)@ == #[trigger] old(self)@.execute(
                    command@,
                    timeout as int,
                    marker,
                    now as int,
                ),
    {
        let marker = gen_marker();
        let now: u64 = self.now();
        self.execute_at(command, timeout, marker, now)
    }

    /// Submits a command at `now` under a given marker.
    pub fn execute_at(&mut self, command: String, timeout: u64, marker: String, now: u64) -> (id:
        u64)
        requires
            old(self)@.wf(),
            marker@.len() >= 4,
            old(self)@.next_id < u64::MAX,
        ensures
            id == old(self)@.next_id,
            final(self)@.wf(),
            final(self)@ == old(self)@.execute(command@, timeout as int, marker@, now as int),
    {
        let id: u64 = self.next_id;
        self.next_id = id + 1;
        let pc = PendingCommand {
            id,
            command,
            marker,
            timeout,
            found_begin: false,
            buffer: Vec::new(),
            search_buf: Vec::new(),
            sent_at: now,
        };
        assert(pc@.buffer =~= Seq::<u8>::empty());
        assert(pc@.search_buf =~= Seq::<u8>::empty());
        if self.current.is_none() {
            self.send_command(pc, now);
        } else {
            let ghost before = self.pending@;
            self.pending.push(pc);
            assert(pending_of(self.pending@) =~= pending_of(before).push(pc@));
        }
        id
    }

    /// Writes a command to the line, or drops it where nothing can be written.
    fn send_command(&mut self, pc: PendingCommand, now: u64)
        requires
            pc@.marker.len() >= 4,
        ensures
            final(self)@ == old(self)@.send(pc@, now as int),
    {
        if self.enabled {
            let mut pc = pc;
            let line = command_line(&pc.command, &pc.marker);
            let bytes = copy_bytes(line.as_str().as_bytes());
            let ghost before = self.writes@;
            self.writes.push(bytes);
            assert(chunks_of(self.writes@) =~= chunks_of(before).push(bytes@));
            pc.search_buf = Vec::new();
            pc.sent_at = now;
            assert(pc@.search_buf =~= Seq::<u8>::empty());
            self.current = Some(pc);
        } else {
            self.cancelled.push(pc.id);
        }
    }

    /// Sends the next waiting command, unless one is running.
    fn dequeue_next(&mut self, now: u64)
        requires
            old(self)@.wf(),
        ensures
            final(self)@ == old(self)@.dequeue(now as int),
            final(self)@.wf(),
    {
        assert(pending_of(self.pending@).len() == self.pending@.len());
        if self.current.is_some() || self.pending.len() == 0 {
            return;
        }
        let ghost all = self.pending@;
        assert(pending_of(all)[0] == all[0]@);
        let pc = self.pending.remove(0);
        assert(pending_of(self.pending@) =~= pending_of(all).subrange(1, all.len() as int));
        self.send_command(pc, now);
    }

    /// Resolves the running command if it is overdue.
    fn expire(&mut self, now: u64)
        ensures
            final(self)@ == old(self)@.expire(now as int),
    {
        let mut current: Option<PendingCommand> = None;
        std::mem::swap(&mut current, &mut self.current);
        match current {
            None => {},
            Some(pc) => {
                if now.saturating_sub(pc.sent_at) > pc.timeout {
                    let text = lossy_text(&pc.buffer);
                    let f = Finished {
                        id: pc.id,
                        result: CommandResult {
                            output: trim_text(&text),
                            exit_code: None,
                            timed_out: true,
                        },
                    };
                    let ghost before = self.results@;
                    self.results.push(f);
                    assert(finished_of(self.results@) =~= finished_of(before).push(f@));
                    self.error_count = self.error_count.saturating_add(1);
                } else {
                    self.current = Some(pc);
                }
            },
        }
    }

    /// Takes in serial output.
    pub fn feed_serial_data(&mut self, data: &[u8])
        requires
            old(self)@.wf(),
        ensures
            final(self)@.wf(),
            exists|now: u64| final(self)@ == #[trigger] old(self)@.feed(data@, now as int),
    {
        let now: u64 = self.now();
        self.feed_serial_data_at(data, now);
    }

    /// Takes in serial output that arrived at `now`.
    pub fn feed_serial_data_at(&mut self, data: &[u8], now: u64)
        requires
            old(self)@.wf(),
        ensures
            final(self)@.wf(),
            final(self)@ == old(self)@.feed(data@, now as int),
        decreases old(self)@.load(),
    {
        let clean = strip_ansi(data);
        self.expire(now);
        let mut current: Option<PendingCommand> = None;
        std::mem::swap(&mut current, &mut self.current);
        match current {
            None => {},
            Some(mut pc) => {
                pc.absorb(&clean);
                match pc.end() {
                    None => {
                        self.current = Some(pc);
                    },
                    Some(end) => {
                        let mark = pc.marker.as_str().as_bytes();
                        let total: usize = pc.buffer.len();
                        assert(end + mark@.len() <= total);
                        let after: usize = end + mark.len();
                        let rest = bytes_range(&pc.buffer, after, total);
                        let (output, exit_code) = parse_output(&pc.buffer[0..end]);
                        let f = Finished {
                            id: pc.id,
                            result: CommandResult { output, exit_code, timed_out: false },
                        };
                        assert(f@ == pc@.outcome(end as int));
                        let ghost before = self.results@;
                        self.results.push(f);
                        assert(finished_of(self.results@) =~= finished_of(before).push(f@));
                        self.completed_count = self.completed_count.saturating_add(1);
                        self.dequeue_next(now);
                        if rest.len() > 0 {
                            self.feed_serial_data_at(&rest, now);
                        }
                    },
                }
            },
        }
    }

    /// Resolves an overdue command and starts the next one.
    pub fn check_timeouts(&mut self)
        requires
            old(self)@.wf(),
        ensures
            final(self)@.wf(),
            exists|now: u64| final(self)@ == #[trigger] old(self)@.check_timeouts(now as int),
    {
        let now: u64 = self.now();
        self.check_timeouts_at(now);
    }

    /// Resolves a command that is overdue at `now` and starts the next one.
    pub fn check_timeouts_at(&mut self, now: u64)
        requires
            old(self)@.wf(),
        ensures
            final(self)@.wf(),
            final(self)@ == old(self)@.check_timeouts(now as int),
    {
        let running: bool = self.current.is_some();
        self.expire(now);
        if running && self.current.is_none() {
            self.dequeue_next(now);
        }
    }
}

// ── Laws ────────────────────────────────────────────────────────────────────

/// A number in decimal, with a sign where it is negative.
pub open spec fn code_text(code: int) -> Seq<char> {
    if code < 0 {
        seq!['-'] + decimal((-code) as nat)
    } else {
        decimal(code as nat)
    }
}

/// Law: the exit code is the last line that is a number: no line behind it is one.
/// Where no line is, there is no exit code, and all of it is output.
pub proof fn law_exit_code_is_the_last_number(out: Seq<char>)
    ensures
        match output_code(out) {
            Some(c) => exists|k: int|
                0 <= k < lines(out).len() && parse_signed(
                    trim(#[trigger] lines(out)[k]),
                    i32::MIN as int,
                    i32::MAX as int,
                ) == Some(c) && forall|j: int|
                    k < j < lines(out).len() ==> parse_signed(
                        trim(#[trigger] lines(out)[j]),
                        i32::MIN as int,
                        i32::MAX as int,
                    ) is None,
            None => output_text(out) == out && forall|j: int|
                0 <= j < lines(out).len() ==> parse_signed(
                    trim(#[trigger] lines(out)[j]),
                    i32::MIN as int,
                    i32::MAX as int,
                ) is None,
        },
{
    let ls = lines(out);
    lemma_code_line(ls, ls.len() as int);
    if let Some(k) = code_line(ls, ls.len() as int) {
        assert(line_code(ls[k]) is Some);
        assert forall|j: int| k < j < ls.len() implies parse_signed(
            trim(#[trigger] ls[j]),
            i32::MIN as int,
            i32::MAX as int,
        ) is None by {
            assert(line_code(ls[j]) is None);
        }
    } else {
        assert forall|j: int| 0 <= j < ls.len() implies parse_signed(
            trim(#[trigger] ls[j]),
            i32::MIN as int,
            i32::MAX as int,
        ) is None by {
            assert(line_code(ls[j]) is None);
        }
    }
}

proof fn lemma_code_line(ls: Seq<Seq<char>>, k: int)
    requires
        0 <= k <= ls.len(),
    ensures
        match code_line(ls, k) {
            Some(i) => 0 <= i < k && line_code(ls[i]) is Some && forall|j: int|
                i < j < k ==> line_code(#[trigger] ls[j]) is None,
            None => forall|j: int| 0 <= j < k ==> line_code(#[trigger] ls[j]) is None,
        },
    decreases k,
{
    if k > 0 && line_code(ls[k - 1]) is None {
        lemma_code_line(ls, k - 1);
    }
}

/// Law: where the exit code is printed on a line of its own behind the output, it
/// is read back, and the output is what stands before it, also where its own lines
/// are numbers.
pub proof fn law_output_and_code_are_read_back(t: Seq<char>, code: int)
    requires
        crate::text::is_trimmed(t),
        i32::MIN <= code <= i32::MAX,
    ensures
        output_code(t + seq!['\n'] + code_text(code)) == Some(code),
        output_text(t + seq!['\n'] + code_text(code)) == t,
        output_code(code_text(code)) == Some(code),
        output_text(code_text(code)) == Seq::<char>::empty(),
{
    let d = code_text(code);
    lemma_code_text(code);
    lemma_code_at_end(Seq::empty(), d, code);
    assert(Seq::<char>::empty() + d =~= d);
    crate::text::law_trim(Seq::empty(), Seq::empty(), Seq::empty());
    assert(Seq::<char>::empty() + Seq::<char>::empty() + Seq::<char>::empty() =~= Seq::<
        char,
    >::empty());
    let head = t + seq!['\n'];
    lemma_code_at_end(head, d, code);
    let feed = seq!['\n'];
    assert(crate::text::all_space(feed));
    crate::text::law_trim(Seq::empty(), t, feed);
    assert(Seq::<char>::empty() + t + feed =~= head);
}

/// A code is written without white space and line ends, and is read back.
proof fn lemma_code_text(code: int)
    requires
        i32::MIN <= code <= i32::MAX,
    ensures
        code_text(code).len() > 0,
        crate::text::is_trimmed(code_text(code)),
        forall|i: int|
            0 <= i < code_text(code).len() ==> #[trigger] code_text(code)[i] != '\n'
                && code_text(code)[i] != '\r',
        line_code(code_text(code)) == Some(code),
{
    let n = (if code < 0 {
        -code
    } else {
        code
    }) as nat;
    let d = decimal(n);
    let t = code_text(code);
    crate::text::lemma_decimal_digits(n);
    crate::text::law_parse_signed(n, i32::MIN as int, i32::MAX as int);
    assert forall|i: int| 0 <= i < t.len() implies #[trigger] t[i] != '\n' && t[i] != '\r'
        && !crate::text::is_space(t[i]) by {
        if code < 0 && i > 0 {
            assert(t[i] == d[i - 1]);
            assert(crate::text::is_digit(d[i - 1]));
        } else if code >= 0 {
            assert(crate::text::is_digit(d[i]));
        }
    }
    assert(t.last() == t[t.len() - 1]);
    crate::text::law_trim_is_trimmed(t);
}

/// A code behind whole lines is the one that is taken, and the output before it.
proof fn lemma_code_at_end(head: Seq<char>, d: Seq<char>, code: int)
    requires
        head.len() > 0 ==> head.last() == '\n',
        d.len() > 0,
        crate::text::is_trimmed(d),
        forall|i: int| 0 <= i < d.len() ==> #[trigger] d[i] != '\n' && d[i] != '\r',
        line_code(d) == Some(code),
    ensures
        output_code(head + d) == Some(code),
        output_text(head + d) == trim(head),
{
    let s = head + d;
    lemma_last_line(head, d, 0);
    let ls = lines(s);
    assert(ls.last() == d);
    assert(line_code(ls[ls.len() - 1]) is Some);
    crate::text::law_trim_is_trimmed(d);
    let k = head.len() as int;
    assert(s.subrange(k, k + d.len()) =~= d);
    assert(crate::text::is_at(s, d, k));
    crate::text::lemma_rfind_from(s, d, s.len() as int);
    let r = rfind_seq(s, d);
    assert(r is Some);
    assert(r->0 == k) by {
        if r->0 < k {
            assert(!crate::text::is_at(s, d, k));
        }
    }
    assert(s.subrange(0, k) =~= head);
}

/// The last line behind whole lines.
proof fn lemma_last_line(head: Seq<char>, d: Seq<char>, from: int)
    requires
        head.len() > 0 ==> head.last() == '\n',
        d.len() > 0,
        forall|i: int| 0 <= i < d.len() ==> #[trigger] d[i] != '\n' && d[i] != '\r',
        0 <= from <= head.len(),
    ensures
        crate::text::lines_from(head + d, from).len() > 0,
        crate::text::lines_from(head + d, from).last() == d,
    decreases head.len() - from,
{
    let s = head + d;
    crate::text::lemma_next_index(s, '\n', from);
    let e = crate::text::next_index(s, '\n', from);
    if from == head.len() {
        if e < s.len() {
            assert(s[e] == d[e - head.len()]);
        }
        assert(s.subrange(from, s.len() as int) =~= d);
    } else {
        assert(s[head.len() - 1] == '\n');
        assert(e <= head.len() - 1);
        lemma_last_line(head, d, e + 1);
    }
}

/// Law: what a target prints between the markers, output, a line end and the code,
/// with whatever white space around it and carriage returns within, is taken apart
/// into exactly these.
pub proof fn law_printed_code_is_recovered(
    body: Seq<u8>,
    before: Seq<char>,
    t: Seq<char>,
    code: int,
    after: Seq<char>,
)
    requires
        crate::text::is_trimmed(t),
        t.len() > 0,
        crate::text::all_space(before),
        crate::text::all_space(after),
        i32::MIN <= code <= i32::MAX,
        valid_utf8(body),
        without(decode_utf8(body), '\r') == before + (t + seq!['\n'] + code_text(code)) + after,
    ensures
        output_text(raw_text(body)) == t,
        output_code(raw_text(body)) == Some(code),
{
    let x = t + seq!['\n'] + code_text(code);
    lemma_code_text(code);
    assert(x.last() == code_text(code).last());
    assert(x[0] == t[0]);
    crate::text::law_trim(before, x, after);
    law_output_and_code_are_read_back(t, code);
}

/// What chunks of output hold together, each without its escape sequences.
pub open spec fn plain_of(chunks: Seq<Seq<u8>>) -> Seq<u8>
    decreases chunks.len(),
{
    if chunks.len() == 0 {
        Seq::empty()
    } else {
        plain_of(chunks.drop_last()) + stripped(chunks.last())
    }
}

impl QueueView {
    /// Takes in chunks of output one after the other, each at its time.
    pub open spec fn feed_all(self, chunks: Seq<Seq<u8>>, times: Seq<int>) -> QueueView
        decreases chunks.len(),
    {
        if chunks.len() == 0 {
            self
        } else {
            self.feed_all(chunks.drop_last(), times).feed(
                chunks.last(),
                times[chunks.len() - 1],
            )
        }
    }
}

impl PendingView {
    /// A command just sent, once it has seen `s` in all.
    spec fn having_seen(self, s: Seq<u8>) -> PendingView {
        match find_seq(s, self.mark()) {
            None => PendingView { search_buf: s, ..self },
            Some(i) => PendingView {
                found_begin: true,
                buffer: s.subrange(i + self.mark().len(), s.len() as int),
                search_buf: Seq::empty(),
                ..self
            },
        }
    }
}

/// More output continues what was seen.
proof fn lemma_seen_more(pc: PendingView, s: Seq<u8>, d: Seq<u8>)
    requires
        !pc.found_begin,
        s.len() + d.len() <= BUFFER_LIMIT,
    ensures
        pc.having_seen(s).absorb(d) == pc.having_seen(s + d),
{
    let m = pc.mark();
    match find_seq(s, m) {
        None => {},
        Some(i) => {
            lemma_find_prefix(s, d, m);
            crate::text::lemma_find_from(s, m, 0);
            assert(s.subrange(i + m.len(), s.len() as int) + d =~= (s + d).subrange(
                i + m.len(),
                (s + d).len() as int,
            ));
        },
    }
}

/// The command that saw the first `n` bytes of a response has its second marker
/// exactly once these hold it.
proof fn lemma_end_of_seen(pc: PendingView, s: Seq<u8>, n: int, start: int, body: Seq<u8>)
    requires
        !pc.found_begin,
        pc.mark().len() > 0,
        0 <= n <= s.len(),
        is_response(s, pc.mark(), start, body),
    ensures
        n < start + pc.mark().len() + body.len() + pc.mark().len() ==> pc.having_seen(
            s.take(n),
        ).end() is None,
        n >= start + pc.mark().len() + body.len() + pc.mark().len() ==> {
            let seen = pc.having_seen(s.take(n));
            &&& seen.end() == Some(body.len() as int)
            &&& seen.buffer.subrange(0, body.len() as int) == body
        },
{
    let m = pc.mark();
    let t = s.take(n);
    let tail = s.subrange(n, s.len() as int);
    assert(t + tail =~= s);
    let after = s.subrange(start + m.len(), s.len() as int);
    crate::text::lemma_find_from(s, m, 0);
    crate::text::lemma_find_from(t, m, 0);
    crate::text::lemma_find_from(after, m, 0);
    match find_seq(t, m) {
        None => {
            if n >= start + m.len() {
                assert(t.subrange(start, start + m.len()) =~= s.subrange(start, start + m.len()));
                assert(crate::text::is_at(t, m, start));
            }
        },
        Some(i) => {
            lemma_find_prefix(t, tail, m);
            assert(i == start);
            let got = t.subrange(start + m.len(), n);
            assert(got + tail =~= after);
            crate::text::lemma_find_from(got, m, 0);
            match find_seq(got, m) {
                None => {
                    if n >= start + m.len() + body.len() + m.len() {
                        let e = body.len() as int;
                        assert(got.subrange(e, e + m.len()) =~= after.subrange(e, e + m.len()));
                        assert(crate::text::is_at(got, m, e));
                    }
                },
                Some(e) => {
                    lemma_find_prefix(got, tail, m);
                    assert(got.subrange(0, e) =~= after.subrange(0, e));
                },
            }
        },
    }
}

/// In `s` a first marker stands at `start`, and between it and the next marker
/// stands `body`.
pub open spec fn is_response(s: Seq<u8>, mark: Seq<u8>, start: int, body: Seq<u8>) -> bool {
    let after = s.subrange(start + mark.len(), s.len() as int);
    &&& find_seq(s, mark) == Some(start)
    &&& find_seq(after, mark) == Some(body.len() as int)
    &&& after.subrange(0, body.len() as int) == body
}

/// Law: the outcome of a command is what stands between its two markers, however
/// the response is cut into chunks. As long as the chunks do not hold the second
/// marker nothing comes out; the chunk that completes it brings the outcome, and
/// where no other command waits, nothing else ever comes out. The response starts
/// with whatever precedes the first marker.
pub proof fn law_framed_response(
    q: QueueView,
    chunks: Seq<Seq<u8>>,
    times: Seq<int>,
    start: int,
    body: Seq<u8>,
    k: int,
)
    requires
        q.current is Some,
        !q.current->0.found_begin,
        q.current->0.search_buf.len() == 0,
        q.current->0.mark().len() > 0,
        is_response(plain_of(chunks), q.current->0.mark(), start, body),
        plain_of(chunks).len() <= BUFFER_LIMIT,
        forall|i: int|
            0 <= i < chunks.len() ==> !q.current->0.overdue(#[trigger] times[i]),
        0 <= k <= chunks.len(),
    ensures
        ({
            let m = q.current->0.mark();
            let r = q.feed_all(chunks.take(k), times).results;
            let n = q.results.len() as int;
            let complete = start + m.len() + body.len() + m.len();
            let outcome = FinishedView {
                id: q.current->0.id,
                output: output_text(raw_text(body)),
                exit_code: output_code(raw_text(body)),
                timed_out: false,
            };
            if plain_of(chunks.take(k)).len() < complete {
                r == q.results
            } else {
                &&& n < r.len()
                &&& r[n] == outcome
                &&& r.take(n) == q.results
                &&& q.pending.len() == 0 ==> r == q.results.push(outcome)
            }
        }),
        plain_of(chunks).len() >= start + 2 * q.current->0.mark().len() + body.len(),
{
    crate::text::lemma_find_from(plain_of(chunks), q.current->0.mark(), 0);
    crate::text::lemma_find_from(
        plain_of(chunks).subrange(
            start + q.current->0.mark().len(),
            plain_of(chunks).len() as int,
        ),
        q.current->0.mark(),
        0,
    );
    lemma_response(q, chunks, times, start, body, k);
}

/// Law: a command that is run on an idle line yields exactly one outcome, what
/// stands between the two prints of its marker, however the response is cut into
/// chunks, and not before the second print is complete.
pub proof fn law_a_command_yields_its_output(
    q: QueueView,
    command: Seq<char>,
    timeout: int,
    marker: Seq<char>,
    sent: int,
    chunks: Seq<Seq<u8>>,
    times: Seq<int>,
    start: int,
    body: Seq<u8>,
    k: int,
)
    requires
        q.enabled,
        q.current is None,
        q.pending.len() == 0,
        is_marker(marker),
        is_response(plain_of(chunks), encode_utf8(marker), start, body),
        plain_of(chunks).len() <= BUFFER_LIMIT,
        forall|i: int| 0 <= i < chunks.len() ==> elapsed(#[trigger] times[i], sent) <= timeout,
        0 <= k <= chunks.len(),
    ensures
        q.execute(command, timeout, marker, sent).feed_all(chunks.take(k), times).results == (if
        plain_of(chunks.take(k)).len() < start + 2 * encode_utf8(marker).len() + body.len() {
            q.results
        } else {
            q.results.push(
                FinishedView {
                    id: q.next_id,
                    output: output_text(raw_text(body)),
                    exit_code: output_code(raw_text(body)),
                    timed_out: false,
                },
            )
        }),
        plain_of(chunks).len() >= start + 2 * encode_utf8(marker).len() + body.len(),
{
    lemma_marker_ascii(marker);
    vstd::utf8::is_ascii_chars_encode_utf8(marker);
    law_framed_response(
        q.execute(command, timeout, marker, sent),
        chunks,
        times,
        start,
        body,
        k,
    );
}

/// What chunks of output hold together.
pub open spec fn joined_of(chunks: Seq<Seq<u8>>) -> Seq<u8>
    decreases chunks.len(),
{
    if chunks.len() == 0 {
        Seq::empty()
    } else {
        joined_of(chunks.drop_last()) + chunks.last()
    }
}

/// The bytes are well-formed text without escape sequences.
pub open spec fn is_plain(data: Seq<u8>) -> bool {
    valid_utf8(data) && unescaped_text(decode_utf8(data))
}

/// The bytes are ASCII without the escape character.
pub open spec fn is_unescaped_ascii(data: Seq<u8>) -> bool {
    forall|i: int| 0 <= i < data.len() ==> #[trigger] data[i] < 128 && data[i] != 27
}

/// Law: a command that is run on an idle line yields exactly one outcome, what
/// stands between the two prints of its marker in the output as it came, however
/// the output is cut into chunks of plain text, and not before the second print is
/// complete.
pub proof fn law_plain_output_is_recovered(
    q: QueueView,
    command: Seq<char>,
    timeout: int,
    marker: Seq<char>,
    sent: int,
    chunks: Seq<Seq<u8>>,
    times: Seq<int>,
    start: int,
    body: Seq<u8>,
    k: int,
)
    requires
        q.enabled,
        q.current is None,
        q.pending.len() == 0,
        is_marker(marker),
        forall|i: int| 0 <= i < chunks.len() ==> is_plain(#[trigger] chunks[i]),
        is_response(joined_of(chunks), encode_utf8(marker), start, body),
        joined_of(chunks).len() <= BUFFER_LIMIT,
        forall|i: int| 0 <= i < chunks.len() ==> elapsed(#[trigger] times[i], sent) <= timeout,
        0 <= k <= chunks.len(),
    ensures
        q.execute(command, timeout, marker, sent).feed_all(chunks.take(k), times).results == (if
        joined_of(chunks.take(k)).len() < start + 2 * encode_utf8(marker).len() + body.len() {
            q.results
        } else {
            q.results.push(
                FinishedView {
                    id: q.next_id,
                    output: output_text(raw_text(body)),
                    exit_code: output_code(raw_text(body)),
                    timed_out: false,
                },
            )
        }),
        joined_of(chunks).len() >= start + 2 * encode_utf8(marker).len() + body.len(),
{
    lemma_plain_joins(chunks);
    assert forall|i: int| 0 <= i < chunks.take(k).len() implies is_plain(
        #[trigger] chunks.take(k)[i],
    ) by {
        assert(chunks.take(k)[i] == chunks[i]);
    }
    lemma_plain_joins(chunks.take(k));
    law_a_command_yields_its_output(
        q,
        command,
        timeout,
        marker,
        sent,
        chunks,
        times,
        start,
        body,
        k,
    );
}

/// Law: the same of any ASCII output without escape characters, wherever it is
/// cut.
pub proof fn law_ascii_output_is_recovered(
    q: QueueView,
    command: Seq<char>,
    timeout: int,
    marker: Seq<char>,
    sent: int,
    chunks: Seq<Seq<u8>>,
    times: Seq<int>,
    start: int,
    body: Seq<u8>,
    k: int,
)
    requires
        q.enabled,
        q.current is None,
        q.pending.len() == 0,
        is_marker(marker),
        is_unescaped_ascii(joined_of(chunks)),
        is_response(joined_of(chunks), encode_utf8(marker), start, body),
        joined_of(chunks).len() <= BUFFER_LIMIT,
        forall|i: int| 0 <= i < chunks.len() ==> elapsed(#[trigger] times[i], sent) <= timeout,
        0 <= k <= chunks.len(),
    ensures
        q.execute(command, timeout, marker, sent).feed_all(chunks.take(k), times).results == (if
        joined_of(chunks.take(k)).len() < start + 2 * encode_utf8(marker).len() + body.len() {
            q.results
        } else {
            q.results.push(
                FinishedView {
                    id: q.next_id,
                    output: output_text(raw_text(body)),
                    exit_code: output_code(raw_text(body)),
                    timed_out: false,
                },
            )
        }),
        joined_of(chunks).len() >= start + 2 * encode_utf8(marker).len() + body.len(),
        text_of(body) == Seq::new(body.len(), |i: int| body[i] as char),
{
    lemma_ascii_chunks(chunks);
    law_plain_output_is_recovered(
        q,
        command,
        timeout,
        marker,
        sent,
        chunks,
        times,
        start,
        body,
        k,
    );
    let s = joined_of(chunks);
    let m = encode_utf8(marker);
    assert forall|i: int| 0 <= i < body.len() implies #[trigger] body[i] < 128 && body[i] != 27 by {
        crate::text::lemma_find_from(s, m, 0);
        let after = s.subrange(start + m.len(), s.len() as int);
        crate::text::lemma_find_from(after, m, 0);
        assert(after.subrange(0, body.len() as int)[i] == s[start + m.len() + i]);
    }
    lemma_ascii_is_plain(body);
}

/// ASCII without the escape character is plain, and its text are its bytes.
proof fn lemma_ascii_is_plain(data: Seq<u8>)
    requires
        is_unescaped_ascii(data),
    ensures
        is_plain(data),
        text_of(data) == Seq::new(data.len(), |i: int| data[i] as char),
{
    let chars = Seq::new(data.len(), |i: int| data[i] as char);
    assert forall|i: int| 0 <= i < chars.len() implies '\0' <= #[trigger] chars[i] <= '\u{7f}' by {
        assert(data[i] < 128);
    }
    vstd::utf8::is_ascii_chars_encode_utf8(chars);
    assert(encode_utf8(chars) =~= data);
    vstd::utf8::encode_utf8_valid_utf8(chars);
    vstd::utf8::encode_utf8_decode_utf8(chars);
    assert forall|i: int| 0 <= i < chars.len() implies #[trigger] chars[i] != '\u{1b}' && chars[i]
        != '\u{9b}' by {
        assert(data[i] < 128 && data[i] != 27);
    }
}

/// Every chunk of ASCII without escape characters is plain.
proof fn lemma_ascii_chunks(chunks: Seq<Seq<u8>>)
    requires
        is_unescaped_ascii(joined_of(chunks)),
    ensures
        forall|i: int| 0 <= i < chunks.len() ==> is_plain(#[trigger] chunks[i]),
    decreases chunks.len(),
{
    if chunks.len() > 0 {
        let some = chunks.drop_last();
        let all = joined_of(chunks);
        let head = joined_of(some);
        assert forall|i: int| 0 <= i < head.len() implies #[trigger] head[i] < 128 && head[i]
            != 27 by {
            assert(all[i] == head[i]);
        }
        lemma_ascii_chunks(some);
        let last = chunks.last();
        assert forall|i: int| 0 <= i < last.len() implies #[trigger] last[i] < 128 && last[i]
            != 27 by {
            assert(all[head.len() + i] == last[i]);
        }
        lemma_ascii_is_plain(last);
        assert forall|i: int| 0 <= i < chunks.len() implies is_plain(#[trigger] chunks[i]) by {
            if i < some.len() {
                assert(some[i] == chunks[i]);
            }
        }
    }
}

/// Plain chunks hold no escape sequences to take out.
proof fn lemma_plain_joins(chunks: Seq<Seq<u8>>)
    requires
        forall|i: int| 0 <= i < chunks.len() ==> is_plain(#[trigger] chunks[i]),
    ensures
        plain_of(chunks) == joined_of(chunks),
    decreases chunks.len(),
{
    if chunks.len() > 0 {
        let some = chunks.drop_last();
        assert forall|i: int| 0 <= i < some.len() implies is_plain(#[trigger] some[i]) by {
            assert(some[i] == chunks[i]);
        }
        lemma_plain_joins(some);
        assert(is_plain(chunks[chunks.len() - 1]));
        vstd::utf8::decode_utf8_encode_utf8(chunks.last());
    }
}

/// A marker is plain ASCII.
proof fn lemma_marker_ascii(marker: Seq<char>)
    requires
        is_marker(marker),
    ensures
        vstd::utf8::is_ascii_chars(marker),
{
    assert forall|i: int| 0 <= i < marker.len() implies 0 <= (#[trigger] marker[i] as nat) < 128 by {
        assert(is_marker_char(marker[i]));
    }
}

/// The queue after `k` chunks of a response.
proof fn lemma_response(
    q: QueueView,
    chunks: Seq<Seq<u8>>,
    times: Seq<int>,
    start: int,
    body: Seq<u8>,
    k: int,
)
    requires
        q.current is Some,
        !q.current->0.found_begin,
        q.current->0.search_buf.len() == 0,
        q.current->0.mark().len() > 0,
        is_response(plain_of(chunks), q.current->0.mark(), start, body),
        plain_of(chunks).len() <= BUFFER_LIMIT,
        forall|i: int|
            0 <= i < chunks.len() ==> !q.current->0.overdue(#[trigger] times[i]),
        0 <= k <= chunks.len(),
    ensures
        ({
            let pc = q.current->0;
            let m = pc.mark();
            let now = q.feed_all(chunks.take(k), times);
            let n = q.results.len() as int;
            let outcome = FinishedView {
                id: pc.id,
                output: output_text(raw_text(body)),
                exit_code: output_code(raw_text(body)),
                timed_out: false,
            };
            if plain_of(chunks.take(k)).len() < start + m.len() + body.len() + m.len() {
                now == (QueueView {
                    current: Some(pc.having_seen(plain_of(chunks.take(k)))),
                    ..q
                })
            } else {
                &&& n < now.results.len()
                &&& now.results[n] == outcome
                &&& now.results.take(n) == q.results
                &&& q.pending.len() == 0 ==> now.results == q.results.push(outcome)
                    && now.current is None && now.pending.len() == 0
            }
        }),
    decreases k,
{
    let pc = q.current->0;
    let m = pc.mark();
    let s = plain_of(chunks);
    let complete = start + m.len() + body.len() + m.len();
    let seen = plain_of(chunks.take(k));
    lemma_plain_prefix(chunks, k);
    crate::text::lemma_find_from(s, m, 0);
    if k == 0 {
        assert(seen =~= Seq::<u8>::empty());
        crate::text::lemma_find_from(seen, m, 0);
        assert(pc.search_buf =~= seen);
        assert(pc.having_seen(seen) == pc);
    } else {
        lemma_response(q, chunks, times, start, body, k - 1);
        lemma_plain_prefix(chunks, k - 1);
        let some = chunks.take(k);
        assert(some.drop_last() =~= chunks.take(k - 1));
        let before = plain_of(chunks.take(k - 1));
        let d = stripped(chunks[k - 1]);
        assert(seen == before + d);
        let prev = q.feed_all(chunks.take(k - 1), times);
        let now = times[k - 1];
        assert(q.feed_all(some, times) == prev.feed(chunks[k - 1], now));
        let n = q.results.len() as int;
        if before.len() < complete {
            lemma_seen_more(pc, before, d);
            lemma_end_of_seen(pc, s, seen.len() as int, start, body);
            assert(s.take(seen.len() as int) =~= seen);
            assert(prev.expire(now) == prev);
            let got = pc.having_seen(seen);
            if seen.len() >= complete {
                let e = body.len() as int;
                let next = prev.finish(got, e).dequeue(now);
                let rest = got.buffer.subrange(e + m.len(), got.buffer.len() as int);
                assert(next.results == q.results.push(got.outcome(e)));
                if rest.len() > 0 {
                    lemma_results_grow(next, rest, now);
                    let r = next.feed(rest, now).results;
                    assert forall|i: int| 0 <= i <= n implies r[i] == next.results[i] by {}
                }
                assert(q.feed_all(some, times).results.take(n) =~= q.results);
            }
        } else {
            lemma_results_grow(prev, chunks[k - 1], now);
            let r = prev.feed(chunks[k - 1], now).results;
            assert forall|i: int| 0 <= i <= n implies r[i] == prev.results[i] by {}
            assert forall|i: int| 0 <= i < n implies prev.results[i] == q.results[i] by {
                assert(prev.results.take(n)[i] == q.results[i]);
            }
            assert(r.take(n) =~= q.results);
        }
    }
}

/// What the first chunks hold begins what all hold.
proof fn lemma_plain_prefix(chunks: Seq<Seq<u8>>, k: int)
    requires
        0 <= k <= chunks.len(),
    ensures
        plain_of(chunks.take(k)).len() <= plain_of(chunks).len(),
        plain_of(chunks).take(plain_of(chunks.take(k)).len() as int) == plain_of(chunks.take(k)),
    decreases chunks.len() - k,
{
    if k == chunks.len() {
        assert(chunks.take(k) =~= chunks);
        assert(plain_of(chunks).take(plain_of(chunks).len() as int) =~= plain_of(chunks));
    } else {
        lemma_plain_prefix(chunks, k + 1);
        assert(chunks.take(k + 1).drop_last() =~= chunks.take(k));
        let a = plain_of(chunks.take(k));
        let b = plain_of(chunks.take(k + 1));
        let s = plain_of(chunks);
        assert(s.take(a.len() as int) =~= s.take(b.len() as int).take(a.len() as int));
        assert(b.take(a.len() as int) =~= a);
    }
}

/// What is found in a prefix is found first in the whole.
proof fn lemma_find_prefix<T>(a: Seq<T>, b: Seq<T>, needle: Seq<T>)
    requires
        find_seq(a, needle) is Some,
    ensures
        find_seq(a + b, needle) == find_seq(a, needle),
{
    lemma_find_prefix_from(a, b, needle, 0);
}

proof fn lemma_find_prefix_from<T>(a: Seq<T>, b: Seq<T>, needle: Seq<T>, from: int)
    requires
        0 <= from,
        crate::text::find_from(a, needle, from) is Some,
    ensures
        crate::text::find_from(a + b, needle, from) == crate::text::find_from(a, needle, from),
    decreases a.len() - from,
{
    assert((a + b).subrange(from, from + needle.len()) =~= a.subrange(from, from + needle.len()));
    if !crate::text::is_at(a, needle, from) {
        lemma_find_prefix_from(a, b, needle, from + 1);
    }
}

/// Law: feeding output only adds outcomes; those already there stay in place.
pub proof fn lemma_results_grow(q: QueueView, raw: Seq<u8>, now: int)
    ensures
        q.feed(raw, now).results.len() >= q.results.len(),
        forall|i: int|
            0 <= i < q.results.len() ==> #[trigger] q.feed(raw, now).results[i] == q.results[i],
    decreases q.load(),
{
    let data = stripped(raw);
    let e = q.expire(now);
    match e.current {
        None => {},
        Some(old) => {
            let pc = old.absorb(data);
            match pc.end() {
                None => {},
                Some(end) => {
                    let rest = pc.buffer.subrange(end + pc.mark().len(), pc.buffer.len() as int);
                    let next = e.finish(pc, end).dequeue(now);
                    if rest.len() > 0 {
                        lemma_results_grow(next, rest, now);
                        assert forall|i: int| 0 <= i < q.results.len() implies #[trigger] q.feed(
                            raw,
                            now,
                        ).results[i] == q.results[i] by {
                            assert(next.feed(rest, now).results[i] == next.results[i]);
                        }
                    }
                },
            }
        },
    }
}

/// Law: commands run one at a time. While one runs, another is only queued.
pub proof fn law_one_at_a_time(
    q: QueueView,
    command: Seq<char>,
    timeout: int,
    marker: Seq<char>,
    now: int,
)
    requires
        q.current is Some,
    ensures
        q.execute(command, timeout, marker, now).writes == q.writes,
        q.execute(command, timeout, marker, now).current == q.current,
        q.execute(command, timeout, marker, now).pending.len() == q.pending.len() + 1,
{
}

/// Law: an overdue command is resolved as timed out and the next one is sent.
pub proof fn law_timeout_frees_the_line(q: QueueView, now: int)
    requires
        q.current is Some,
        q.current->0.overdue(now),
    ensures
        q.check_timeouts(now).results == q.results.push(q.current->0.expired()),
        q.enabled && q.pending.len() > 0 ==> q.check_timeouts(now).current is Some
            && q.check_timeouts(now).current->0.id == q.pending[0].id,
{
}

/// The quoted marker: four letters, two quotes, six letters, between quotes.
proof fn lemma_quoted(marker: Seq<char>, quoted: Seq<char>)
    requires
        is_marker(marker),
        quoted == "'"@ + marker.subrange(0, 4) + "''"@ + marker.subrange(4, 10) + "'"@,
    ensures
        quoted.len() == 14,
        quoted[0] == '\'',
        quoted[5] == '\'',
        quoted[6] == '\'',
        quoted[13] == '\'',
{
    reveal_strlit("'");
    reveal_strlit("''");
}

/// The parts of the line before and after the command, and where they hold a
/// character that no marker has.
proof fn lemma_framed_parts(
    command: Seq<char>,
    marker: Seq<char>,
    quoted: Seq<char>,
    a: Seq<char>,
    b: Seq<char>,
)
    requires
        is_marker(marker),
        quoted == "'"@ + marker.subrange(0, 4) + "''"@ + marker.subrange(4, 10) + "'"@,
        a == "echo "@ + quoted + "; "@,
        b == "; echo \"$?\"; echo "@ + quoted + "\n"@,
    ensures
        framed(command, marker) == a + command + b,
        a.len() == 21,
        b.len() == 33,
        forall|p: int| 0 <= p <= 5 ==> !is_marker_char(#[trigger] a[p]),
        !is_marker_char(a[10]),
        !is_marker_char(a[11]),
        forall|p: int| 18 <= p <= 20 ==> !is_marker_char(#[trigger] a[p]),
        forall|p: int| 0 <= p <= 18 ==> !is_marker_char(#[trigger] b[p]),
        !is_marker_char(b[23]),
        !is_marker_char(b[24]),
{
    lemma_quoted(marker, quoted);
    reveal_strlit("echo ");
    reveal_strlit("; ");
    reveal_strlit("; echo \"$?\"; echo ");
    reveal_strlit("\n");
    assert(framed(command, marker) =~= a + command + b);
    assert(a[10] == quoted[5] && a[11] == quoted[6] && a[18] == quoted[13] && a[5] == quoted[0]);
    assert(b[18] == quoted[0] && b[23] == quoted[5] && b[24] == quoted[6]);
}

/// Law: the line that is sent does not hold the marker, so that its echo is not
/// taken for the output of the first print. (A command that itself holds the
/// marker is left out.)
pub proof fn law_echo_holds_no_marker(command: Seq<char>, marker: Seq<char>)
    requires
        is_marker(marker),
        !crate::text::occurs(command, marker),
    ensures
        !crate::text::occurs(framed(command, marker), marker),
{
    let quoted = "'"@ + marker.subrange(0, 4) + "''"@ + marker.subrange(4, 10) + "'"@;
    let a = "echo "@ + quoted + "; "@;
    let b = "; echo \"$?\"; echo "@ + quoted + "\n"@;
    let f = framed(command, marker);
    let n = command.len() as int;
    lemma_framed_parts(command, marker, quoted, a, b);
    crate::text::lemma_occurs(command, marker);
    crate::text::lemma_occurs(f, marker);
    assert forall|i: int| !crate::text::is_at(f, marker, i) by {
        if crate::text::is_at(f, marker, i) {
            let w = f.subrange(i, i + 10);
            assert forall|p: int| i <= p < i + 10 implies is_marker_char(#[trigger] f[p]) by {
                assert(f[p] == w[p - i]);
                assert(is_marker_char(marker[p - i]));
            }
            let s = 21 + n;
            assert(forall|p: int| 0 <= p < 21 ==> #[trigger] f[p] == a[p]);
            assert(forall|p: int| 0 <= p < 33 ==> #[trigger] b[p] == f[s + p]);
            if i <= 5 {
                assert(f[i] == a[i]);
            } else if i <= 10 {
                assert(f[10] == a[10]);
            } else if i == 11 {
                assert(f[11] == a[11]);
            } else if i <= 18 {
                assert(f[18] == a[18]);
            } else if i <= 20 {
                assert(f[i] == a[i]);
            } else if i + 10 <= s {
                assert(command.subrange(i - 21, i - 21 + 10) =~= w);
                assert(crate::text::is_at(command, marker, i - 21));
            } else if i <= s {
                assert(f[s] == b[0]);
            } else if i - s <= 18 {
                assert(f[i] == b[i - s]);
            } else if i - s <= 23 {
                assert(f[s + 23] == b[23]);
            }
        }
    }
}

/// Law: a command that is sent prints its marker, split so that its echo does not hold
/// it, runs, prints its exit code and prints the marker again; a queue that is closed
/// sends nothing and cancels it.
pub proof fn law_commands_are_framed(q: QueueView, pc: PendingView, now: int)
    requires
        pc.marker.len() >= 4,
    ensures
        ({
            let r = q.send(pc, now);
            let quoted = "'"@ + pc.marker.subrange(0, 4) + "''"@ + pc.marker.subrange(
                4,
                pc.marker.len() as int,
            ) + "'"@;
            let line = "echo "@ + quoted + "; "@ + pc.command + "; echo \"$?\"; echo "@ + quoted
                + "\n"@;
            &&& q.enabled ==> {
                &&& r.writes == q.writes.push(encode_utf8(line))
                &&& r.cancelled == q.cancelled
                &&& r.current is Some && r.current->0.id == pc.id && r.current->0.sent_at == now
                    && r.current->0.timeout == pc.timeout && r.current->0.command == pc.command
                    && r.current->0.marker == pc.marker
            }
            &&& !q.enabled ==> {
                &&& r.writes == q.writes
                &&& r.cancelled == q.cancelled.push(pc.id)
                &&& r.current == q.current
            }
            &&& r.pending == q.pending && r.results == q.results && r.next_id == q.next_id
        }),
{
}

/// Law: commands wait in the order in which they came, each under a number of its own,
/// and the first that waits is sent when the line is free.
pub proof fn law_commands_wait_in_order(
    q: QueueView,
    command: Seq<char>,
    timeout: int,
    marker: Seq<char>,
    now: int,
)
    ensures
        ({
            let r = q.execute(command, timeout, marker, now);
            &&& q.next_id < u64::MAX ==> r.next_id == q.next_id + 1
            &&& q.current is Some ==> {
                &&& r.pending.drop_last() == q.pending
                &&& r.pending.last().id == q.next_id && r.pending.last().command == command
                    && r.pending.last().marker == marker && r.pending.last().timeout == timeout
                    && !r.pending.last().found_begin && r.pending.last().buffer.len() == 0
            }
            &&& q.current is None && q.enabled ==> {
                &&& r.current is Some && r.current->0.id == q.next_id && r.current->0.command
                    == command && r.current->0.sent_at == now && !r.current->0.found_begin
                &&& r.pending == q.pending
                &&& r.writes.len() == q.writes.len() + 1
            }
            &&& q.current is None && !q.enabled ==> r.cancelled == q.cancelled.push(q.next_id)
                && r.writes == q.writes
        }),
        q.current is None && q.pending.len() > 0 ==> {
            let r = q.dequeue(now);
            &&& r.pending == q.pending.subrange(1, q.pending.len() as int)
            &&& q.enabled ==> r.current is Some && r.current->0.id == q.pending[0].id
                && r.current->0.sent_at == now && r.writes == q.writes.push(
                encode_utf8(framed(q.pending[0].command, q.pending[0].marker)),
            )
        },
        q.current is Some || q.pending.len() == 0 ==> q.dequeue(now) == q,
{
    if q.current is Some {
        assert(q.execute(command, timeout, marker, now).pending.drop_last() =~= q.pending);
    }
}

/// Law: a command is late once more than its time has passed since it was sent; it
/// then ends without a code, with what it had printed, and counts as an error.
pub proof fn law_late_commands_end(q: QueueView, now: int)
    requires
        q.current is Some,
        q.current->0.sent_at <= now,
    ensures
        ({
            let pc = q.current->0;
            let late = now - pc.sent_at > pc.timeout;
            let r = q.check_timeouts(now);
            &&& !late ==> r == q
            &&& late ==> r.results == q.results.push(
                FinishedView {
                    id: pc.id,
                    output: trim(text_of(pc.buffer)),
                    exit_code: None,
                    timed_out: true,
                },
            )
            &&& late && 0 <= q.error_count < u64::MAX ==> r.error_count == q.error_count + 1
            &&& r.completed_count == q.completed_count
            &&& late && q.pending.len() == 0 ==> r.current is None
        }),
{
}

/// Law: data for no command changes nothing; data before the marker is searched for
/// it; behind the marker it is the command's output.
pub proof fn law_data_reaches_the_command(pc: PendingView, data: Seq<u8>)
    requires
        pc.found_begin ==> pc.buffer.len() + data.len() <= 65536,
        !pc.found_begin ==> pc.search_buf.len() + data.len() <= 65536,
    ensures
        ({
            let r = pc.absorb(data);
            let seen = pc.search_buf + data;
            &&& pc.found_begin ==> r == (PendingView { buffer: pc.buffer + data, ..pc })
            &&& !pc.found_begin && find_seq(seen, encode_utf8(pc.marker)) is None ==> r == (
            PendingView { search_buf: seen, ..pc })
            &&& !pc.found_begin ==> (find_seq(seen, encode_utf8(pc.marker)) matches Some(i) ==> {
                &&& r.found_begin
                &&& r.buffer == seen.subrange(
                    i + encode_utf8(pc.marker).len(),
                    seen.len() as int,
                )
                &&& r.id == pc.id && r.command == pc.command && r.sent_at == pc.sent_at
            })
        }),
{
}

/// Law: a command that ended is counted once, frees the line for the next, and hands
/// that its turn at once.
#[verifier::rlimit(50)]
pub proof fn law_next_command_is_sent(q: QueueView, raw: Seq<u8>, now: int)
    requires
        q.current is Some,
        !q.current->0.overdue(now),
    ensures
        ({
            let pc = q.current->0.absorb(stripped(raw));
            let r = q.feed(raw, now);
            &&& pc.end() is None ==> r.current == Some(pc) && r.results == q.results && r.writes
                == q.writes && r.pending == q.pending && r.completed_count == q.completed_count
            &&& pc.end() matches Some(end) ==> {
                let body = pc.buffer.subrange(0, end);
                let rest = pc.buffer.subrange(end + pc.mark().len(), pc.buffer.len() as int);
                &&& rest.len() == 0 ==> {
                    &&& r.results == q.results.push(
                        FinishedView {
                            id: pc.id,
                            output: output_text(raw_text(body)),
                            exit_code: output_code(raw_text(body)),
                            timed_out: false,
                        },
                    )
                    &&& 0 <= q.completed_count < u64::MAX ==> r.completed_count
                        == q.completed_count + 1
                    &&& r.error_count == q.error_count
                    &&& q.pending.len() == 0 ==> r.current is None && r.writes == q.writes
                    &&& q.pending.len() > 0 && q.enabled ==> {
                        &&& r.writes == q.writes.push(
                            encode_utf8(framed(q.pending[0].command, q.pending[0].marker)),
                        )
                        &&& r.current is Some && r.current->0.id == q.pending[0].id
                        &&& r.pending == q.pending.subrange(1, q.pending.len() as int)
                    }
                }
            }
        }),
        (QueueView { current: None, ..q }).feed(raw, now) == (QueueView { current: None, ..q }),
{
}

/// Law: text without escape sequences passes as it is.
pub proof fn law_plain_text_passes(data: Seq<u8>)
    requires
        valid_utf8(data),
        unescaped_text(decode_utf8(data)),
    ensures
        stripped(data) == data,
        text_of(data) == decode_utf8(data),
{
    vstd::utf8::decode_utf8_encode_utf8(data);
}

/// Law: reading a command's output gives back the text that it printed and the exit code
/// behind it.
pub proof fn law_reading_output(
    body: &[u8],
    r: (String, Option<i32>),
    before: Seq<char>,
    t: Seq<char>,
    code: int,
    after: Seq<char>,
)
    requires
        call_ensures(parse_output, (body,), r),
        crate::text::is_trimmed(t),
        t.len() > 0,
        crate::text::all_space(before),
        crate::text::all_space(after),
        i32::MIN <= code <= i32::MAX,
        valid_utf8(body@),
        without(decode_utf8(body@), '\r') == before + (t + seq!['\n'] + code_text(code)) + after,
    ensures
        r.0@ == t,
        r.1 is Some && r.1->0 == code,
{
    law_printed_code_is_recovered(body@, before, t, code, after);
}

/// Law: without a command there is nothing to run out of time.
pub proof fn law_nothing_is_late(q: QueueView, now: int)
    requires
        q.current is None,
    ensures
        q.check_timeouts(now) == q,
        q.expire(now) == q,
{
}

} // verus!
