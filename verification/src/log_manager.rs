//! Boot logs: one file per power cycle.
//!
//! Output is kept in a bounded memory buffer. When a boot is detected, what was
//! collected since the previous boot becomes a numbered log file. This module
//! decides names, contents and what is deleted; files are touched elsewhere.

use crate::bridge::{
    bytes_pattern_end, caseless_match, caseless_valid, find_end, match_caseless,
};
use crate::command_queue::VT100_PATTERN;
use crate::text::{
    append_bytes, bytes_range, cat, cat3, chars_of, decimal, decimal_text, eq_text, join_path,
    join_texts, joined, joined_path, lines, lines_of, parse_uint, parse_unsigned, texts, trim,
    trim_text,
};
use vstd::prelude::*;
use vstd::string::*;

verus! {

// ── Cleaning ────────────────────────────────────────────────────────────────

/// Bytes that a log keeps: printable ones, line feed, carriage return and tab.
pub open spec fn keeps(b: u8) -> bool {
    b >= 0x20 || b == 10 || b == 13 || b == 9
}

/// How far a terminal escape sequence reaches from index `i` on, where one
/// begins there; 0 otherwise.
pub open spec fn escape_len(data: Seq<u8>, i: int) -> int {
    if data[i] == 0x1b || data[i] == 0x9b {
        match bytes_pattern_end(VT100_PATTERN@, data.subrange(i, data.len() as int)) {
            Some(e) => if e <= data.len() - i {
                e as int
            } else {
                0
            },
            None => 0,
        }
    } else {
        0
    }
}

/// The data from index `i` on without null bytes, terminal escape sequences and
/// control characters.
pub open spec fn cleaned_from(data: Seq<u8>, i: int) -> Seq<u8>
    decreases data.len() - i,
{
    if i < 0 || i >= data.len() {
        Seq::empty()
    } else if data[i] != 0 && escape_len(data, i) > 0 {
        cleaned_from(data, i + escape_len(data, i))
    } else if keeps(data[i]) {
        seq![data[i]] + cleaned_from(data, i + 1)
    } else {
        cleaned_from(data, i + 1)
    }
}

/// The data without null bytes, terminal escape sequences and control
/// characters.
pub open spec fn cleaned(data: Seq<u8>) -> Seq<u8> {
    cleaned_from(data, 0)
}

/// Removes null bytes, terminal escape sequences and control characters.
pub fn strip_ansi_and_null(data: &[u8]) -> (r: Vec<u8>)
    ensures
        r@ == cleaned(data@),
{
    let mut r: Vec<u8> = Vec::new();
    let mut i: usize = 0;
    assert(r@ + cleaned(data@) =~= cleaned(data@));
    while i < data.len()
        invariant
            i <= data@.len(),
            r@ + cleaned_from(data@, i as int) == cleaned(data@),
        decreases data@.len() - i,
    {
        let b: u8 = data[i];
        let mut skip: usize = 0;
        if b == 0x1b || b == 0x9b {
            if let Some(e) = find_end(VT100_PATTERN, &data[i..data.len()]) {
                skip = e;
            }
        }
        assert(skip == escape_len(data@, i as int));
        if skip > 0 {
            i += skip;
        } else {
            if b >= 0x20 || b == 10 || b == 13 || b == 9 {
                let ghost before = r@;
                r.push(b);
                assert(r@ + cleaned_from(data@, i + 1) =~= before + (seq![b] + cleaned_from(
                    data@,
                    i + 1,
                )));
            }
            i += 1;
        }
    }
    assert(r@ + cleaned_from(data@, i as int) =~= r@);
    r
}

// ── Names ───────────────────────────────────────────────────────────────────

/// `n` in decimal with at least three digits.
pub open spec fn three_digits(n: nat) -> Seq<char> {
    if n < 10 {
        "00"@ + decimal(n)
    } else if n < 100 {
        "0"@ + decimal(n)
    } else {
        decimal(n)
    }
}

/// The name of the log file of a boot.
pub open spec fn boot_file_name(n: nat, timestamp: Seq<char>) -> Seq<char> {
    "boot-"@ + three_digits(n) + "_"@ + timestamp + ".log"@
}

/// The name of the log file of a boot.
pub fn log_file_name(n: u32, timestamp: &str) -> (r: String)
    ensures
        r@ == boot_file_name(n as nat, timestamp@),
{
    let digits = decimal_text(n as u64);
    let padded = if n < 10 {
        cat("00", &digits)
    } else if n < 100 {
        cat("0", &digits)
    } else {
        digits
    };
    let mut r = cat3("boot-", &padded, "_");
    r.append(timestamp);
    r.append(".log");
    r
}

/// The first line of a boot's log file.
pub fn log_header(n: u32, time: &str) -> (r: String)
    ensures
        r@ == "=== Boot #"@ + decimal(n as nat) + " — "@ + time@ + " ===\n"@,
{
    let digits = decimal_text(n as u64);
    let mut r = cat3("=== Boot #", &digits, " — ");
    r.append(time);
    r.append(" ===\n");
    r
}

/// The boots counted so far, as the counter file tells; none where the file is
/// missing or unreadable.
pub open spec fn boot_count(counter: Option<Seq<char>>) -> nat {
    match counter {
        None => 0,
        Some(t) => match parse_unsigned(trim(t), u32::MAX as nat) {
            Some(n) => n,
            None => 0,
        },
    }
}

/// The boots counted so far.
pub fn read_boot_count(counter: Option<&str>) -> (r: u32)
    ensures
        r == boot_count(
            match counter {
                Some(t) => Some(t@),
                None => None,
            },
        ),
{
    match counter {
        None => 0,
        Some(t) => {
            let s = trim_text(t);
            match parse_uint(&s, u32::MAX as u64) {
                Some(n) => n as u32,
                None => 0,
            }
        },
    }
}

/// An archived log: a file with the extension "log" that is not the link to the
/// current one.
pub open spec fn is_archive(name: Seq<char>) -> bool {
    name.len() > 4 && name.subrange(name.len() - 4, name.len() as int) == ".log"@ && name
        != "serial.current.log"@
}

/// Whether a file in the log directory is an archived log.
pub fn is_archive_name(name: &str) -> (r: bool)
    ensures
        r == is_archive(name@),
{
    let v = chars_of(name);
    if v.len() <= 4 {
        return false;
    }
    let ext = crate::text::string_of_range(&v, v.len() - 4, v.len());
    eq_text(&ext, ".log") && !eq_text(name, "serial.current.log")
}

// ── Listing ─────────────────────────────────────────────────────────────────

/// A file in the log directory.
pub struct LogFileInfo {
    pub name: String,
    pub size: u64,
    pub path: String,
    /// The time of the last change.
    pub modified: u64,
}

/// An archived log.
pub struct ArchiveInfo {
    pub index: usize,
    pub filename: String,
    pub size_bytes: u64,
    pub path: String,
}

/// What was read from a log.
pub struct LogContent {
    pub content: String,
    pub filename: String,
    pub total_lines: usize,
    pub filtered_lines: usize,
}

/// `a` stands before `b` in the order of characters.
pub open spec fn text_less(a: Seq<char>, b: Seq<char>) -> bool
    decreases a.len(),
{
    if b.len() == 0 {
        false
    } else if a.len() == 0 {
        true
    } else if a[0] != b[0] {
        a[0] < b[0]
    } else {
        text_less(a.subrange(1, a.len() as int), b.subrange(1, b.len() as int))
    }
}

/// Whether `a` stands before `b` in the order of characters.
pub fn text_before(a: &str, b: &str) -> (r: bool)
    ensures
        r == text_less(a@, b@),
{
    let x = chars_of(a);
    let y = chars_of(b);
    let mut i: usize = 0;
    assert(x@.subrange(0, x@.len() as int) =~= x@);
    assert(y@.subrange(0, y@.len() as int) =~= y@);
    loop
        invariant
            x@ == a@,
            y@ == b@,
            i <= x@.len(),
            i <= y@.len(),
            text_less(x@.subrange(i as int, x@.len() as int), y@.subrange(i as int, y@.len() as int))
                == text_less(a@, b@),
        decreases x@.len() - i,
    {
        if i >= y.len() {
            return false;
        }
        if i >= x.len() {
            return true;
        }
        if x[i] != y[i] {
            return x[i] < y[i];
        }
        proof {
            let p = x@.subrange(i as int, x@.len() as int);
            let q = y@.subrange(i as int, y@.len() as int);
            assert(p.subrange(1, p.len() as int) =~= x@.subrange(i + 1, x@.len() as int));
            assert(q.subrange(1, q.len() as int) =~= y@.subrange(i + 1, y@.len() as int));
        }
        i += 1;
    }
}

/// Where a file belongs in a list ordered by descending path: before the first
/// file whose path is less.
pub open spec fn path_place(s: Seq<LogFileInfo>, f: LogFileInfo, k: int) -> int
    decreases s.len() - k,
{
    if k < 0 || k >= s.len() {
        s.len() as int
    } else if text_less(s[k].path@, f.path@) {
        k
    } else {
        path_place(s, f, k + 1)
    }
}

/// The files by descending path, equal paths in their given order.
pub open spec fn by_path(s: Seq<LogFileInfo>) -> Seq<LogFileInfo>
    decreases s.len(),
{
    if s.len() == 0 {
        Seq::empty()
    } else {
        let t = by_path(s.drop_last());
        t.insert(path_place(t, s.last(), 0), s.last())
    }
}

/// Where a file belongs in a list ordered by ascending time: before the first
/// file that is younger.
pub open spec fn time_place(s: Seq<LogFileInfo>, f: LogFileInfo, k: int) -> int
    decreases s.len() - k,
{
    if k < 0 || k >= s.len() {
        s.len() as int
    } else if s[k].modified > f.modified {
        k
    } else {
        time_place(s, f, k + 1)
    }
}

/// The files by ascending time, equal times in their given order.
pub open spec fn by_time(s: Seq<LogFileInfo>) -> Seq<LogFileInfo>
    decreases s.len(),
{
    if s.len() == 0 {
        Seq::empty()
    } else {
        let t = by_time(s.drop_last());
        t.insert(time_place(t, s.last(), 0), s.last())
    }
}

/// The place in a list by descending path.
fn find_path_place(s: &Vec<LogFileInfo>, f: &LogFileInfo) -> (r: usize)
    ensures
        r == path_place(s@, *f, 0),
        r <= s@.len(),
{
    let mut k: usize = 0;
    while k < s.len()
        invariant
            k <= s@.len(),
            path_place(s@, *f, k as int) == path_place(s@, *f, 0),
        decreases s@.len() - k,
    {
        if text_before(&s[k].path, &f.path) {
            return k;
        }
        k += 1;
    }
    k
}

/// The place in a list by ascending time.
fn find_time_place(s: &Vec<LogFileInfo>, f: &LogFileInfo) -> (r: usize)
    ensures
        r == time_place(s@, *f, 0),
        r <= s@.len(),
{
    let mut k: usize = 0;
    while k < s.len()
        invariant
            k <= s@.len(),
            time_place(s@, *f, k as int) == time_place(s@, *f, 0),
        decreases s@.len() - k,
    {
        if s[k].modified > f.modified {
            return k;
        }
        k += 1;
    }
    k
}

/// Orders the files by descending path, so that the newest log comes first.
pub fn list_log_files_sorted(files: Vec<LogFileInfo>) -> (r: Vec<LogFileInfo>)
    ensures
        r@ == by_path(files@),
{
    let ghost all = files@;
    let mut rest = files;
    let mut out: Vec<LogFileInfo> = Vec::new();
    let ghost mut done: int = 0;
    assert(all.subrange(0, 0) =~= Seq::<LogFileInfo>::empty());
    assert(all.subrange(0, all.len() as int) =~= all);
    while rest.len() > 0
        invariant
            0 <= done,
            done + rest@.len() == all.len(),
            rest@ == all.subrange(done, all.len() as int),
            out@ == by_path(all.subrange(0, done)),
        decreases rest@.len(),
    {
        let f = rest.remove(0);
        let k: usize = find_path_place(&out, &f);
        out.insert(k, f);
        proof {
            let p = all.subrange(0, done + 1);
            assert(p.drop_last() =~= all.subrange(0, done));
            assert(p.last() == f);
            assert(rest@ =~= all.subrange(done + 1, all.len() as int));
            done = done + 1;
        }
    }
    assert(all.subrange(0, done) =~= all);
    out
}

/// Orders the files by ascending time.
fn sort_by_time(files: Vec<LogFileInfo>) -> (r: Vec<LogFileInfo>)
    ensures
        r@ == by_time(files@),
{
    let ghost all = files@;
    let mut rest = files;
    let mut out: Vec<LogFileInfo> = Vec::new();
    let ghost mut done: int = 0;
    assert(all.subrange(0, 0) =~= Seq::<LogFileInfo>::empty());
    assert(all.subrange(0, all.len() as int) =~= all);
    while rest.len() > 0
        invariant
            0 <= done,
            done + rest@.len() == all.len(),
            rest@ == all.subrange(done, all.len() as int),
            out@ == by_time(all.subrange(0, done)),
        decreases rest@.len(),
    {
        let f = rest.remove(0);
        let k: usize = find_time_place(&out, &f);
        out.insert(k, f);
        proof {
            let p = all.subrange(0, done + 1);
            assert(p.drop_last() =~= all.subrange(0, done));
            assert(p.last() == f);
            assert(rest@ =~= all.subrange(done + 1, all.len() as int));
            done = done + 1;
        }
    }
    assert(all.subrange(0, done) =~= all);
    out
}

/// Archive entries list the log files, newest first, numbered.
pub open spec fn are_archives(r: Seq<ArchiveInfo>, files: Seq<LogFileInfo>) -> bool {
    &&& r.len() == by_path(files).len()
    &&& forall|i: int|
        0 <= i < r.len() ==> {
            let f = by_path(files)[i];
            &&& (#[trigger] r[i]).index == i
            &&& r[i].filename@ == f.name@
            &&& r[i].size_bytes == f.size
            &&& r[i].path@ == f.path@
        }
}

/// The archived logs, newest first, numbered.
pub fn list_archives(files: Vec<LogFileInfo>) -> (r: Vec<ArchiveInfo>)
    ensures
        are_archives(r@, files@),
{
    let sorted = list_log_files_sorted(files);
    let mut r: Vec<ArchiveInfo> = Vec::new();
    let mut i: usize = 0;
    while i < sorted.len()
        invariant
            i <= sorted@.len(),
            r@.len() == i,
            sorted@ == by_path(files@),
            forall|j: int|
                0 <= j < i ==> {
                    let f = sorted@[j];
                    &&& (#[trigger] r@[j]).index == j
                    &&& r@[j].filename@ == f.name@
                    &&& r@[j].size_bytes == f.size
                    &&& r@[j].path@ == f.path@
                },
        decreases sorted@.len() - i,
    {
        r.push(
            ArchiveInfo {
                index: i,
                filename: sorted[i].name.clone(),
                size_bytes: sorted[i].size,
                path: sorted[i].path.clone(),
            },
        );
        i += 1;
    }
    r
}

/// The paths of the logs to delete: the oldest beyond `max_logs`, oldest first.
pub fn cleanup_old_logs(files: Vec<LogFileInfo>, max_logs: usize) -> (r: Vec<String>)
    ensures
        r@.len() == (if by_time(files@).len() > max_logs {
            by_time(files@).len() - max_logs
        } else {
            0
        }),
        forall|i: int| 0 <= i < r@.len() ==> (#[trigger] r@[i])@ == by_time(files@)[i].path@,
{
    let sorted = sort_by_time(files);
    let mut r: Vec<String> = Vec::new();
    if sorted.len() > max_logs {
        let n: usize = sorted.len() - max_logs;
        let mut i: usize = 0;
        while i < n
            invariant
                i <= n <= sorted@.len(),
                r@.len() == i,
                forall|j: int| 0 <= j < i ==> (#[trigger] r@[j])@ == sorted@[j].path@,
            decreases n - i,
        {
            r.push(sorted[i].path.clone());
            i += 1;
        }
    }
    r
}

// ── Reading ─────────────────────────────────────────────────────────────────

/// The lines that a pattern lets through; all where the pattern does not
/// compile.
pub open spec fn selected(all: Seq<Seq<char>>, pattern: Option<Seq<char>>) -> Seq<Seq<char>> {
    match pattern {
        None => all,
        Some(p) => if caseless_valid(p) {
            all.filter(|l: Seq<char>| caseless_match(p, l) == Some(true))
        } else {
            all
        },
    }
}

/// The last `n` of the lines, all for 0.
pub open spec fn last_lines(all: Seq<Seq<char>>, n: nat) -> Seq<Seq<char>> {
    if n > 0 && all.len() > n {
        all.subrange(all.len() - n, all.len() as int)
    } else {
        all
    }
}

/// The lines of a log that a pattern lets through, the last `limit` of them,
/// with the counts before and after filtering.
pub fn read_log(content: &str, filename: &str, limit: usize, pattern: Option<&str>) -> (r:
    LogContent)
    ensures
        ({
            let p = match pattern {
                Some(t) => Some(t@),
                None => None,
            };
            let all = lines(content@);
            let kept = selected(all, p);
            &&& r.content@ == joined(last_lines(kept, limit as nat), "\n"@)
            &&& r.filename@ == filename@
            &&& r.total_lines == all.len()
            &&& r.filtered_lines == kept.len()
        }),
{
    let all = lines_of(content);
    assert(texts(all@).len() == all@.len());
    let total: usize = all.len();
    let kept = match pattern {
        None => all,
        Some(p) => select_lines(all, p),
    };
    assert(texts(kept@).len() == kept@.len());
    let filtered: usize = kept.len();
    let text = if limit > 0 && kept.len() > limit {
        let from: usize = kept.len() - limit;
        assert(texts(kept@.subrange(from as int, filtered as int)) =~= texts(kept@).subrange(
            from as int,
            filtered as int,
        ));
        join_texts(&kept[from..filtered], "\n")
    } else {
        join_texts(&kept, "\n")
    };
    LogContent {
        content: text,
        filename: filename.to_owned(),
        total_lines: total,
        filtered_lines: filtered,
    }
}

/// The lines that a pattern lets through.
fn select_lines(all: Vec<String>, pattern: &str) -> (r: Vec<String>)
    ensures
        texts(r@) == selected(texts(all@), Some(pattern@)),
{
    let ghost ls = texts(all@);
    let ghost keep = |l: Seq<char>| caseless_match(pattern@, l) == Some(true);
    if match_caseless(pattern, "").is_none() {
        return all;
    }
    let mut r: Vec<String> = Vec::new();
    let mut i: usize = 0;
    assert(texts(r@) =~= ls.subrange(0, 0).filter(keep)) by {
        reveal(Seq::filter);
    }
    while i < all.len()
        invariant
            i <= all@.len(),
            ls == texts(all@),
            keep == (|l: Seq<char>| caseless_match(pattern@, l) == Some(true)),
            texts(r@) == ls.subrange(0, i as int).filter(keep),
        decreases all@.len() - i,
    {
        assert(ls[i as int] == all@[i as int]@);
        proof {
            crate::boot_detector::lemma_filter_step(ls, i as int, keep);
        }
        let hit: bool = match match_caseless(pattern, &all[i]) {
            Some(b) => b,
            None => false,
        };
        if hit {
            let ghost before = r@;
            r.push(all[i].clone());
            assert(texts(r@) =~= texts(before).push(ls[i as int]));
        }
        i += 1;
    }
    assert(ls.subrange(0, i as int) =~= ls);
    r
}

/// The answer for a log that does not exist.
pub fn missing_log() -> (r: LogContent)
    ensures
        r.content@.len() == 0,
        r.filename@.len() == 0,
        r.total_lines == 0,
        r.filtered_lines == 0,
{
    LogContent {
        content: String::new(),
        filename: String::new(),
        total_lines: 0,
        filtered_lines: 0,
    }
}

// ── The manager ─────────────────────────────────────────────────────────────

/// The memory buffer is cut to half of this when it grows beyond it.
pub const RING_LIMIT: usize = 2 * 1024 * 1024;

/// The model of a `LogManager`.
pub struct LogView {
    pub log_dir: Seq<char>,
    pub dut_dir: Seq<char>,
    pub max_logs: nat,
    pub max_file_size: nat,
    pub current_open: bool,
    pub current_size: nat,
    pub current_path: Option<Seq<char>>,
    pub boot_number: nat,
    pub ring_buffer: Seq<u8>,
    pub boot_start_pos: int,
}

/// The size of a file after bytes were appended, as far as it can be counted.
pub open spec fn grown_size(size: nat, more: nat) -> nat {
    if size + more <= u64::MAX {
        size + more
    } else {
        u64::MAX as nat
    }
}

impl LogView {
    /// The buffer after more clean output, its front dropped where it grew too
    /// long.
    pub open spec fn appended(self, clean: Seq<u8>) -> LogView {
        let all = self.ring_buffer + clean;
        let drain = if all.len() > RING_LIMIT {
            all.len() - RING_LIMIT / 2
        } else {
            0
        };
        LogView {
            ring_buffer: all.subrange(drain, all.len() as int),
            boot_start_pos: if self.boot_start_pos >= drain {
                self.boot_start_pos - drain
            } else {
                0
            },
            current_size: if self.current_open {
                grown_size(self.current_size, clean.len())
            } else {
                self.current_size
            },
            ..self
        }
    }

    /// The current file grew beyond its limit.
    pub open spec fn oversized(self) -> bool {
        self.current_open && self.current_size > self.max_file_size
    }

    /// The output collected since the last boot.
    pub open spec fn boot_data(self) -> Seq<u8> {
        if 0 <= self.boot_start_pos < self.ring_buffer.len() {
            self.ring_buffer.subrange(self.boot_start_pos, self.ring_buffer.len() as int)
        } else {
            Seq::empty()
        }
    }

    /// The manager after the collected output became boot number `n`.
    pub open spec fn flushed(self, n: nat) -> LogView {
        LogView { boot_number: n, boot_start_pos: self.ring_buffer.len() as int, ..self }
    }
}

/// A log file to be written: its path, what goes into it and the new content of
/// the counter file.
pub struct LogPlan {
    pub path: String,
    pub name: String,
    pub data: Vec<u8>,
    pub counter: String,
}

/// Keeps the logs of a target.
pub struct LogManager {
    log_dir: String,
    dut_dir: String,
    max_logs: usize,
    max_file_size: u64,
    current_open: bool,
    current_size: u64,
    current_path: Option<String>,
    boot_number: u32,
    ring_buffer: Vec<u8>,
    boot_start_pos: usize,
}

impl View for LogManager {
    type V = LogView;

    closed spec fn view(&self) -> LogView {
        LogView {
            log_dir: self.log_dir@,
            dut_dir: self.dut_dir@,
            max_logs: self.max_logs as nat,
            max_file_size: self.max_file_size as nat,
            current_open: self.current_open,
            current_size: self.current_size as nat,
            current_path: crate::text::text_option(self.current_path),
            boot_number: self.boot_number as nat,
            ring_buffer: self.ring_buffer@,
            boot_start_pos: self.boot_start_pos as int,
        }
    }
}

impl LogManager {
    /// A manager for the logs below `project_dir`, with file sizes in MiB.
    pub fn new(project_dir: &str, max_logs: usize, max_file_size_mb: u64, dut_dir: &str) -> (r: Self)
        requires
            max_file_size_mb * 1048576 <= u64::MAX,
        ensures
            r@ == (LogView {
                log_dir: joined_path(joined_path(project_dir@, dut_dir@), "logs"@),
                dut_dir: joined_path(project_dir@, dut_dir@),
                max_logs: max_logs as nat,
                max_file_size: (max_file_size_mb * 1048576) as nat,
                current_open: false,
                current_size: 0,
                current_path: None,
                boot_number: 0,
                ring_buffer: Seq::empty(),
                boot_start_pos: 0,
            }),
    {
        let dut_path = join_path(project_dir, dut_dir);
        let r = LogManager {
            log_dir: join_path(&dut_path, "logs"),
            dut_dir: dut_path,
            max_logs,
            max_file_size: max_file_size_mb * 1048576,
            current_open: false,
            current_size: 0,
            current_path: None,
            boot_number: 0,
            ring_buffer: Vec::new(),
            boot_start_pos: 0,
        };
        assert(r@.ring_buffer =~= Seq::<u8>::empty());
        r
    }

    /// The path of the log written to last.
    pub fn current_path(&self) -> (r: Option<&String>)
        ensures
            r is Some <==> self@.current_path is Some,
            r matches Some(p) ==> p@ == self@.current_path->0,
    {
        self.current_path.as_ref()
    }

    /// The number of the last boot.
    pub fn boot_number(&self) -> (r: u32)
        ensures
            r == self@.boot_number,
    {
        self.boot_number
    }

    /// The logs to keep.
    pub fn max_logs(&self) -> (r: usize)
        ensures
            r == self@.max_logs,
    {
        self.max_logs
    }

    /// The directory of the logs.
    pub fn log_dir(&self) -> (r: &str)
        ensures
            r@ == self@.log_dir,
    {
        self.log_dir.as_str()
    }

    /// The file that counts boots.
    pub fn counter_path(&self) -> (r: String)
        ensures
            r@ == joined_path(self@.dut_dir, ".boot_count"@),
    {
        join_path(&self.dut_dir, ".boot_count")
    }

    /// The output in memory.
    pub fn ring_buffer(&self) -> (r: &Vec<u8>)
        ensures
            r@ == self@.ring_buffer,
    {
        &self.ring_buffer
    }

    /// Begins the log file of the next boot. `counter` is what the counter file
    /// holds; `timestamp` and `time` say when.
    pub fn open_current(&mut self, counter: Option<&str>, timestamp: &str, time: &str) -> (r:
        LogPlan)
        requires
            boot_count(
                match counter {
                    Some(t) => Some(t@),
                    None => None,
                },
            ) < u32::MAX,
        ensures
            ({
                let c = match counter {
                    Some(t) => Some(t@),
                    None => None,
                };
                let n = boot_count(c) + 1;
                let header = "=== Boot #"@ + decimal(n) + " — "@ + time@ + " ===\n"@;
                &&& r.name@ == boot_file_name(n, timestamp@)
                &&& r.path@ == joined_path(old(self)@.log_dir, r.name@)
                &&& r.data@ == vstd::utf8::encode_utf8(header)
                &&& r.counter@ == decimal(n)
                &&& final(self)@ == (LogView {
                    boot_number: n,
                    current_open: true,
                    current_size: r.data@.len(),
                    current_path: Some(r.path@),
                    ..old(self)@
                })
            }),
    {
        let n: u32 = read_boot_count(counter) + 1;
        self.boot_number = n;
        let name = log_file_name(n, timestamp);
        let path = join_path(&self.log_dir, &name);
        let header = log_header(n, time);
        let data = crate::text::copy_bytes(header.as_str().as_bytes());
        self.current_open = true;
        self.current_size = data.len() as u64;
        self.current_path = Some(path.clone());
        LogPlan { path, name, data, counter: decimal_text(n as u64) }
    }

    /// The running log at `path` was opened and holds `size` bytes.
    pub fn ensure_current_file(&mut self, path: &str, size: u64)
        ensures
            final(self)@ == (if old(self)@.current_open {
                old(self)@
            } else {
                LogView {
                    current_open: true,
                    current_size: size as nat,
                    current_path: Some(path@),
                    ..old(self)@
                }
            }),
    {
        if !self.current_open {
            self.current_open = true;
            self.current_size = size;
            self.current_path = Some(path.to_owned());
        }
    }

    /// Takes in raw output. The cleaned bytes are to be appended to the log
    /// files; the second part says that the current file grew beyond its limit
    /// and is to be rotated.
    pub fn write(&mut self, data: &[u8]) -> (r: (Vec<u8>, bool))
        ensures
            r.0@ == cleaned(data@),
            final(self)@ == old(self)@.appended(cleaned(data@)),
            r.1 == final(self)@.oversized(),
    {
        let clean = strip_ansi_and_null(data);
        append_bytes(&mut self.ring_buffer, &clean);
        let n: usize = self.ring_buffer.len();
        if n > RING_LIMIT {
            let drain: usize = n - RING_LIMIT / 2;
            let tail = bytes_range(&self.ring_buffer, drain, n);
            self.ring_buffer = tail;
            self.boot_start_pos = self.boot_start_pos.saturating_sub(drain);
        } else {
            assert(self.ring_buffer@.subrange(0, n as int) =~= self.ring_buffer@);
        }
        if self.current_open {
            self.current_size = self.current_size.saturating_add(clean.len() as u64);
        }
        let grown: bool = self.current_open && self.current_size > self.max_file_size;
        (clean, grown)
    }

    /// The output since the last boot as a numbered log file; nothing where
    /// there is none.
    pub fn flush_boot_log(&mut self, counter: Option<&str>, timestamp: &str) -> (r: Option<LogPlan>)
        requires
            boot_count(
                match counter {
                    Some(t) => Some(t@),
                    None => None,
                },
            ) < u32::MAX,
        ensures
            ({
                let c = match counter {
                    Some(t) => Some(t@),
                    None => None,
                };
                let n = boot_count(c) + 1;
                if old(self)@.boot_data().len() == 0 {
                    r is None && final(self)@ == old(self)@
                } else {
                    &&& r is Some
                    &&& r->0.name@ == boot_file_name(n, timestamp@)
                    &&& r->0.path@ == joined_path(old(self)@.log_dir, r->0.name@)
                    &&& r->0.data@ == old(self)@.boot_data()
                    &&& r->0.counter@ == decimal(n)
                    &&& final(self)@ == old(self)@.flushed(n)
                }
            }),
    {
        if self.boot_start_pos >= self.ring_buffer.len() {
            return None;
        }
        let data = bytes_range(&self.ring_buffer, self.boot_start_pos, self.ring_buffer.len());
        let n: u32 = read_boot_count(counter) + 1;
        self.boot_number = n;
        let name = log_file_name(n, timestamp);
        let path = join_path(&self.log_dir, &name);
        self.boot_start_pos = self.ring_buffer.len();
        Some(LogPlan { path, name, data, counter: decimal_text(n as u64) })
    }

    /// Cuts the logs: the output since the last boot becomes a log file of its
    /// own, and the log of the next boot begins. Old logs are to be cleaned up
    /// after that.
    pub fn rotate(&mut self, counter: Option<&str>, timestamp: &str, time: &str) -> (r: (
        Option<LogPlan>,
        LogPlan,
    ))
        requires
            boot_count(
                match counter {
                    Some(t) => Some(t@),
                    None => None,
                },
            ) + 1 < u32::MAX,
        ensures
            ({
                let c = match counter {
                    Some(t) => Some(t@),
                    None => None,
                };
                let n = boot_count(c) + 1;
                let kept = old(self)@.boot_data().len() > 0;
                let m = if kept {
                    n + 1
                } else {
                    n
                };
                let header = "=== Boot #"@ + decimal(m) + " — "@ + time@ + " ===\n"@;
                &&& r.0 is Some <==> kept
                &&& r.0 matches Some(p) ==> p.name@ == boot_file_name(n, timestamp@) && p.path@
                    == joined_path(old(self)@.log_dir, p.name@) && p.data@ == old(self)@.boot_data()
                    && p.counter@ == decimal(n)
                &&& r.1.name@ == boot_file_name(m, timestamp@)
                &&& r.1.path@ == joined_path(old(self)@.log_dir, r.1.name@)
                &&& r.1.data@ == vstd::utf8::encode_utf8(header)
                &&& r.1.counter@ == decimal(m)
                &&& final(self)@ == (LogView {
                    boot_number: m,
                    boot_start_pos: if kept {
                        old(self)@.ring_buffer.len() as int
                    } else {
                        old(self)@.boot_start_pos
                    },
                    current_open: true,
                    current_size: r.1.data@.len(),
                    current_path: Some(r.1.path@),
                    ..old(self)@
                })
            }),
    {
        let saved = self.flush_boot_log(counter, timestamp);
        let opened = match &saved {
            Some(plan) => {
                proof {
                    law_counter_round_trip(self@.boot_number);
                }
                self.open_current(Some(plan.counter.as_str()), timestamp, time)
            },
            None => self.open_current(counter, timestamp, time),
        };
        (saved, opened)
    }

    /// The log file at `path` was written.
    pub fn saved(&mut self, path: &str)
        ensures
            final(self)@ == (LogView { current_path: Some(path@), ..old(self)@ }),
    {
        self.current_path = Some(path.to_owned());
    }

    /// A boot cycle begins after the previous one was flushed: the running file
    /// is closed, to be emptied and opened again.
    pub fn mark_boot_start(&mut self)
        ensures
            final(self)@ == (LogView {
                current_open: false,
                boot_start_pos: old(self)@.ring_buffer.len() as int,
                ..old(self)@
            }),
    {
        self.current_open = false;
        self.boot_start_pos = self.ring_buffer.len();
    }

    /// Closes the running file. Its path stays known.
    pub fn close(&mut self)
        ensures
            final(self)@ == (LogView { current_open: false, ..old(self)@ }),
    {
        self.current_open = false;
    }
}

// ── Laws ────────────────────────────────────────────────────────────────────

/// Law: the count written to the counter file is the count read back.
pub proof fn law_counter_round_trip(n: nat)
    requires
        n <= u32::MAX,
    ensures
        boot_count(Some(decimal(n))) == n,
{
    let s = decimal(n);
    crate::text::lemma_decimal_digits(n);
    crate::text::lemma_decimal_round_trip(n, u32::MAX as nat);
    assert(crate::text::is_digit(s[0]));
    assert(crate::text::is_digit(s.last()));
    assert(crate::text::trim_start(s) == s);
    assert(crate::text::trim_end(s) == s);
}

/// Law: cleaning never adds bytes.
pub proof fn lemma_cleaned_len(data: Seq<u8>, i: int)
    requires
        0 <= i <= data.len(),
    ensures
        cleaned_from(data, i).len() <= data.len() - i,
    decreases data.len() - i,
{
    if i < data.len() {
        if data[i] != 0 && escape_len(data, i) > 0 {
            lemma_cleaned_len(data, i + escape_len(data, i));
        } else {
            lemma_cleaned_len(data, i + 1);
        }
    }
}

/// Law: what cleaning leaves is printable or a line feed, carriage return or
/// tab; in particular no null byte and no escape byte.
pub proof fn law_cleaned_is_printable(data: Seq<u8>, i: int, k: int)
    requires
        0 <= i <= data.len(),
        0 <= k < cleaned_from(data, i).len(),
    ensures
        keeps(cleaned_from(data, i)[k]),
    decreases data.len() - i,
{
    if i < data.len() {
        if data[i] != 0 && escape_len(data, i) > 0 {
            law_cleaned_is_printable(data, i + escape_len(data, i), k);
        } else if keeps(data[i]) {
            if k > 0 {
                law_cleaned_is_printable(data, i + 1, k - 1);
            }
        } else {
            law_cleaned_is_printable(data, i + 1, k);
        }
    }
}

/// Law: the memory buffer stays within its limit.
pub proof fn law_ring_is_bounded(v: LogView, clean: Seq<u8>)
    ensures
        v.appended(clean).ring_buffer.len() <= RING_LIMIT,
{
}

/// Law: while the buffer does not overflow, what a flush saves is exactly what
/// was written since the last boot start.
pub proof fn law_flush_saves_what_was_written(v: LogView, clean: Seq<u8>)
    requires
        0 <= v.boot_start_pos <= v.ring_buffer.len(),
        v.ring_buffer.len() + clean.len() <= RING_LIMIT,
    ensures
        v.appended(clean).boot_data() == v.boot_data() + clean,
{
    let all = v.ring_buffer + clean;
    assert(all.subrange(0, all.len() as int) =~= all);
    assert(all.subrange(v.boot_start_pos, all.len() as int) =~= v.ring_buffer.subrange(
        v.boot_start_pos,
        v.ring_buffer.len() as int,
    ) + clean);
    if v.boot_start_pos == v.ring_buffer.len() {
        assert(v.boot_data() + clean =~= clean);
    }
    if v.appended(clean).boot_data().len() == 0 {
        assert(v.boot_data() + clean =~= Seq::<u8>::empty());
    }
    assert(v.appended(clean).boot_data() =~= v.boot_data() + clean);
}

/// Law: a second flush with nothing written in between saves nothing.
pub proof fn law_flush_is_idempotent(v: LogView, n: nat)
    ensures
        v.flushed(n).boot_data().len() == 0,
{
}

/// Law: listing by time keeps every file, oldest first.
pub proof fn law_by_time_is_sorted(s: Seq<LogFileInfo>)
    ensures
        by_time(s).len() == s.len(),
        by_time(s).to_multiset() =~= s.to_multiset(),
        forall|i: int, j: int|
            0 <= i <= j < by_time(s).len() ==> by_time(s)[i].modified <= by_time(s)[j].modified,
    decreases s.len(),
{
    broadcast use vstd::seq_lib::group_to_multiset_ensures;

    if s.len() > 0 {
        let t = by_time(s.drop_last());
        law_by_time_is_sorted(s.drop_last());
        lemma_time_place(t, s.last(), 0);
        let p = time_place(t, s.last(), 0);
        assert(s =~= s.drop_last().push(s.last()));
        t.insert_ensures(p, s.last());
        lemma_insert_multiset(t, p, s.last());
    } else {
        assert(by_time(s) =~= s);
    }
}

proof fn lemma_insert_multiset(t: Seq<LogFileInfo>, p: int, x: LogFileInfo)
    requires
        0 <= p <= t.len(),
    ensures
        t.insert(p, x).to_multiset() =~= t.to_multiset().insert(x),
{
    broadcast use vstd::seq_lib::group_to_multiset_ensures;

    let a = t.subrange(0, p);
    let b = t.subrange(p, t.len() as int);
    assert(t =~= a + b);
    assert(t.insert(p, x) =~= a.push(x) + b);
    vstd::seq_lib::lemma_multiset_commutative(a, b);
    vstd::seq_lib::lemma_multiset_commutative(a.push(x), b);
}

proof fn lemma_time_place(s: Seq<LogFileInfo>, f: LogFileInfo, k: int)
    requires
        0 <= k <= s.len(),
    ensures
        k <= time_place(s, f, k) <= s.len(),
        forall|j: int| k <= j < time_place(s, f, k) ==> (#[trigger] s[j]).modified <= f.modified,
        time_place(s, f, k) < s.len() ==> s[time_place(s, f, k)].modified > f.modified,
    decreases s.len() - k,
{
    if k < s.len() && s[k].modified <= f.modified {
        lemma_time_place(s, f, k + 1);
    }
}

/// Law: the order of paths is lexicographic. Where two texts agree in their first `n`
/// characters, the next characters decide, and a text stands before what it begins.
pub proof fn law_order_of_characters(a: Seq<char>, b: Seq<char>, n: int)
    requires
        0 <= n <= a.len(),
        n <= b.len(),
        forall|j: int| 0 <= j < n ==> a[j] == b[j],
    ensures
        n < a.len() && n < b.len() && a[n] != b[n] ==> (text_less(a, b) <==> a[n] < b[n]),
        n == a.len() && n < b.len() ==> text_less(a, b) && !text_less(b, a),
        n == a.len() && n == b.len() ==> !text_less(a, b) && !text_less(b, a),
    decreases n,
{
    if n > 0 {
        let x = a.subrange(1, a.len() as int);
        let y = b.subrange(1, b.len() as int);
        assert forall|j: int| 0 <= j < n - 1 implies x[j] == y[j] by {
            assert(x[j] == a[j + 1]);
            assert(y[j] == b[j + 1]);
        }
        law_order_of_characters(x, y, n - 1);
        assert(a[0] == b[0]);
        if n < a.len() && n < b.len() {
            assert(x[n - 1] == a[n]);
            assert(y[n - 1] == b[n]);
        }
    }
}

/// Law: of two texts one stands before the other or they are the same, never both,
/// and what stands before a text stands before all that follow it.
#[verifier::rlimit(50)]
pub proof fn law_order_is_total(a: Seq<char>, b: Seq<char>, c: Seq<char>)
    ensures
        a == b || text_less(a, b) || text_less(b, a),
        !(text_less(a, b) && text_less(b, a)),
        !text_less(a, a),
        text_less(a, b) && text_less(b, c) ==> text_less(a, c),
    decreases a.len(),
{
    if a.len() > 0 {
        let x = a.subrange(1, a.len() as int);
        let y = if b.len() > 0 {
            b.subrange(1, b.len() as int)
        } else {
            b
        };
        let z = if c.len() > 0 {
            c.subrange(1, c.len() as int)
        } else {
            c
        };
        law_order_is_total(x, y, z);
        if b.len() > 0 && a[0] == b[0] && x == y {
            assert(a =~= seq![a[0]] + x);
            assert(b =~= seq![b[0]] + y);
        }
    } else if b.len() == 0 {
        assert(a =~= b);
    }
}

/// Law: listing by path keeps every file, and no path stands before one that
/// follows it.
#[verifier::rlimit(50)]
pub proof fn law_by_path_is_sorted(s: Seq<LogFileInfo>)
    ensures
        by_path(s).len() == s.len(),
        by_path(s).to_multiset() =~= s.to_multiset(),
        forall|i: int, j: int|
            #![trigger by_path(s)[i], by_path(s)[j]]
            0 <= i < j < by_path(s).len() ==> !text_less(
                by_path(s)[i].path@,
                by_path(s)[j].path@,
            ),
    decreases s.len(),
{
    broadcast use vstd::seq_lib::group_to_multiset_ensures;

    if s.len() > 0 {
        let f = s.last();
        let t = by_path(s.drop_last());
        law_by_path_is_sorted(s.drop_last());
        lemma_path_place(t, f, 0);
        let p = path_place(t, f, 0);
        assert(s =~= s.drop_last().push(f));
        t.insert_ensures(p, f);
        lemma_insert_multiset(t, p, f);
        let r = t.insert(p, f);
        assert forall|i: int, j: int| #![trigger r[i], r[j]] 0 <= i < j < r.len() implies !text_less(
            r[i].path@,
            r[j].path@,
        ) by {
            if j == p {
                assert(r[i] == t[i]);
            } else if i == p {
                assert(r[j] == t[j - 1]);
                if j - 1 > p {
                    assert(!text_less(t[p].path@, t[j - 1].path@));
                    law_order_is_total(f.path@, t[j - 1].path@, f.path@);
                    law_order_is_total(t[p].path@, f.path@, t[j - 1].path@);
                } else {
                    law_order_is_total(f.path@, t[p].path@, f.path@);
                }
            } else {
                let u = if i < p {
                    i
                } else {
                    i - 1
                };
                let w = if j < p {
                    j
                } else {
                    j - 1
                };
                assert(r[i] == t[u]);
                assert(r[j] == t[w]);
            }
        }
    } else {
        assert(by_path(s) =~= s);
    }
}

proof fn lemma_path_place(s: Seq<LogFileInfo>, f: LogFileInfo, k: int)
    requires
        0 <= k <= s.len(),
    ensures
        k <= path_place(s, f, k) <= s.len(),
        forall|j: int|
            k <= j < path_place(s, f, k) ==> !text_less((#[trigger] s[j]).path@, f.path@),
        path_place(s, f, k) < s.len() ==> text_less(s[path_place(s, f, k)].path@, f.path@),
    decreases s.len() - k,
{
    if k < s.len() && !text_less(s[k].path@, f.path@) {
        lemma_path_place(s, f, k + 1);
    }
}

/// Law: the archives are all the log files, newest path first, each under its own
/// name, size and path, numbered from 0.
pub proof fn law_archives_are_listed(r: Seq<ArchiveInfo>, files: Seq<LogFileInfo>, i: int, j: int)
    requires
        are_archives(r, files),
        0 <= i < j < r.len(),
    ensures
        r.len() == files.len(),
        r[i].index == i,
        !text_less(r[i].path@, r[j].path@),
        exists|k: int|
            0 <= k < files.len() && #[trigger] files[k].name@ == r[i].filename@ && files[k].size
                == r[i].size_bytes && files[k].path@ == r[i].path@,
{
    broadcast use vstd::seq_lib::group_to_multiset_ensures;

    law_by_path_is_sorted(files);
    let f = by_path(files)[i];
    let g = by_path(files)[j];
    assert(r[i].index == i);
    assert(r[j].index == j);
    assert(by_path(files).contains(f));
    assert(by_path(files).to_multiset().count(f) > 0);
    assert(files.to_multiset().count(f) > 0);
    assert(files.contains(f));
    let k = choose|k: int| 0 <= k < files.len() && files[k] == f;
    assert(files[k].name@ == r[i].filename@);
}

/// Law: a number below 1000 has three digits, its hundreds, its tens and its ones; a
/// greater one is written as it is.
#[verifier::rlimit(50)]
pub proof fn law_three_digits(n: nat)
    ensures
        n < 1000 ==> three_digits(n) == seq![
            ('0' as u32 + n / 100) as char,
            ('0' as u32 + n / 10 % 10) as char,
            ('0' as u32 + n % 10) as char,
        ],
        n >= 100 ==> three_digits(n) == decimal(n),
{
    reveal_strlit("0");
    reveal_strlit("00");
    if n < 10 {
        crate::text::law_decimal(0, n);
        assert(three_digits(n) =~= seq!['0', '0', ('0' as u32 + n) as char]);
    } else if n < 100 {
        crate::text::law_decimal(n / 10, n % 10);
        crate::text::law_decimal(0, n / 10);
        assert(n == (n / 10) * 10 + n % 10);
        assert(decimal(n) =~= seq![('0' as u32 + n / 10) as char, ('0' as u32 + n % 10) as char]);
        assert(three_digits(n) =~= seq![
            '0',
            ('0' as u32 + n / 10) as char,
            ('0' as u32 + n % 10) as char,
        ]);
    } else if n < 1000 {
        let m = n / 10;
        crate::text::law_decimal(m, n % 10);
        crate::text::law_decimal(m / 10, m % 10);
        crate::text::law_decimal(0, m / 10);
        assert(n == m * 10 + n % 10);
        assert(m == (m / 10) * 10 + m % 10);
        assert(m / 10 == n / 100);
        assert(decimal(m) =~= seq![('0' as u32 + m / 10) as char, ('0' as u32 + m % 10) as char]);
        assert(decimal(n) =~= seq![
            ('0' as u32 + n / 100) as char,
            ('0' as u32 + n / 10 % 10) as char,
            ('0' as u32 + n % 10) as char,
        ]);
    }
}

/// Law: a boot's log is named for its number and its time, and is an archive.
pub proof fn law_log_names(n: nat, timestamp: Seq<char>)
    ensures
        n < 1000 ==> boot_file_name(n, timestamp) == "boot-"@ + seq![
            ('0' as u32 + n / 100) as char,
            ('0' as u32 + n / 10 % 10) as char,
            ('0' as u32 + n % 10) as char,
        ] + "_"@ + timestamp + ".log"@,
        n >= 1000 ==> boot_file_name(n, timestamp) == "boot-"@ + decimal(n) + "_"@ + timestamp
            + ".log"@,
        is_archive(boot_file_name(n, timestamp)),
{
    law_three_digits(n);
    reveal_strlit("boot-");
    reveal_strlit("_");
    reveal_strlit(".log");
    reveal_strlit("serial.current.log");
    let name = boot_file_name(n, timestamp);
    assert(name.subrange(name.len() - 4, name.len() as int) =~= ".log"@);
    assert(name[0] == 'b');
    assert("serial.current.log"@[0] == 's');
}

/// Law: every file with the extension "log" is an archive, except the link to the
/// current one.
pub proof fn law_archives(stem: Seq<char>, name: Seq<char>)
    ensures
        stem.len() > 0 && stem != "serial.current"@ ==> is_archive(stem + ".log"@),
        !is_archive("serial.current.log"@),
        !is_archive(".log"@),
        name.len() >= 4 && name.subrange(name.len() - 4, name.len() as int) != ".log"@
            ==> !is_archive(name),
{
    reveal_strlit(".log");
    reveal_strlit("serial.current");
    reveal_strlit("serial.current.log");
    let n = stem + ".log"@;
    assert(n.subrange(n.len() - 4, n.len() as int) =~= ".log"@);
    if n == "serial.current.log"@ {
        assert(stem =~= n.subrange(0, n.len() - 4));
        assert("serial.current"@ =~= "serial.current.log"@.subrange(0, 14));
    }
}

/// Law: in one directory the log of a later boot stands after that of an earlier one,
/// for boots below 1000.
#[verifier::rlimit(50)]
pub proof fn law_later_boots_have_greater_paths(
    dir: Seq<char>,
    n: nat,
    m: nat,
    t: Seq<char>,
    u: Seq<char>,
)
    requires
        n < m < 1000,
    ensures
        text_less(
            joined_path(dir, boot_file_name(n, t)),
            joined_path(dir, boot_file_name(m, u)),
        ),
{
    lemma_path_digits(dir, n, t);
    lemma_path_digits(dir, m, u);
    let p = joined_path(dir, boot_file_name(n, t));
    let q = joined_path(dir, boot_file_name(m, u));
    let l = log_path_head(dir).len() as int;
    assert forall|j: int| 0 <= j < l implies p[j] == q[j] by {
        assert(p.subrange(0, l)[j] == p[j]);
        assert(q.subrange(0, l)[j] == q[j]);
    }
    lemma_digits_order(n, m);
    if n / 100 != m / 100 {
        law_order_of_characters(p, q, l);
    } else if n / 10 % 10 != m / 10 % 10 {
        assert(p[l] == q[l]);
        law_order_of_characters(p, q, l + 1);
    } else {
        assert(p[l] == q[l] && p[l + 1] == q[l + 1]);
        law_order_of_characters(p, q, l + 2);
    }
}

proof fn lemma_digits_order(n: nat, m: nat)
    requires
        n < m < 1000,
    ensures
        n / 100 < 10 && m / 100 < 10 && n / 10 % 10 < 10 && m / 10 % 10 < 10,
        n / 100 <= m / 100,
        n / 100 == m / 100 ==> n / 10 % 10 <= m / 10 % 10,
        n / 100 == m / 100 && n / 10 % 10 == m / 10 % 10 ==> n % 10 < m % 10,
{
}

/// What the paths of a directory's logs begin with.
spec fn log_path_head(dir: Seq<char>) -> Seq<char> {
    (if dir.len() == 0 {
        Seq::empty()
    } else if dir.last() == '/' {
        dir
    } else {
        dir.push('/')
    }) + "boot-"@
}

#[verifier::rlimit(50)]
proof fn lemma_path_digits(dir: Seq<char>, n: nat, t: Seq<char>)
    requires
        n < 1000,
    ensures
        ({
            let p = joined_path(dir, boot_file_name(n, t));
            let l = log_path_head(dir).len() as int;
            &&& p.len() >= l + 3
            &&& p.subrange(0, l) == log_path_head(dir)
            &&& p[l] == ('0' as u32 + n / 100) as char
            &&& p[l + 1] == ('0' as u32 + n / 10 % 10) as char
            &&& p[l + 2] == ('0' as u32 + n % 10) as char
        }),
{
    law_log_names(n, t);
    reveal_strlit("boot-");
    let digits = seq![
        ('0' as u32 + n / 100) as char,
        ('0' as u32 + n / 10 % 10) as char,
        ('0' as u32 + n % 10) as char,
    ];
    let tail = "_"@ + t + ".log"@;
    let a = boot_file_name(n, t);
    assert(a =~= "boot-"@ + (digits + tail));
    assert(a[0] == 'b');
    let p = joined_path(dir, a);
    let h = log_path_head(dir);
    assert(p =~= h + (digits + tail));
    let l = h.len() as int;
    assert(p.subrange(0, l) =~= h);
    assert(p[l] == digits[0] && p[l + 1] == digits[1] && p[l + 2] == digits[2]);
}

/// Law: in the listing of one directory a greater boot number comes first, for boots
/// below 1000.
pub proof fn law_newest_boot_comes_first(
    files: Seq<LogFileInfo>,
    dir: Seq<char>,
    i: int,
    j: int,
    n: nat,
    m: nat,
    t: Seq<char>,
    u: Seq<char>,
)
    requires
        0 <= i < by_path(files).len(),
        0 <= j < by_path(files).len(),
        by_path(files)[i].path@ == joined_path(dir, boot_file_name(n, t)),
        by_path(files)[j].path@ == joined_path(dir, boot_file_name(m, u)),
        m < n < 1000,
    ensures
        i < j,
{
    law_by_path_is_sorted(files);
    law_later_boots_have_greater_paths(dir, m, n, u, t);
    let a = by_path(files)[i];
    let b = by_path(files)[j];
    if i == j {
        law_order_is_total(a.path@, a.path@, a.path@);
    }
}

/// Law: a file takes its place before the younger ones and after those that are as
/// old or older.
pub proof fn law_a_file_takes_its_place(s: Seq<LogFileInfo>, f: LogFileInfo)
    ensures
        exists|p: int|
            0 <= p <= by_time(s).len() && #[trigger] by_time(s).insert(p, f) == by_time(s.push(f))
                && (forall|j: int|
                0 <= j < p ==> (#[trigger] by_time(s)[j]).modified <= f.modified) && (forall|j: int|
                p <= j < by_time(s).len() ==> (#[trigger] by_time(s)[j]).modified > f.modified),
{
    assert(s.push(f).drop_last() =~= s);
    law_by_time_is_sorted(s);
    lemma_time_place(by_time(s), f, 0);
    let p = time_place(by_time(s), f, 0);
    assert(by_time(s).insert(p, f) == by_time(s.push(f)));
}

/// Law: cleaning keeps printable text, drops null bytes and control characters, and
/// goes on behind them.
pub proof fn law_cleaning(plain: Seq<u8>, b: u8, rest: Seq<u8>)
    requires
        forall|i: int|
            0 <= i < plain.len() ==> (#[trigger] plain[i] >= 0x20 || plain[i] == 10 || plain[i]
                == 13 || plain[i] == 9) && plain[i] != 0x9b,
    ensures
        cleaned(plain) == plain,
        cleaned(plain + rest) == plain + cleaned(rest),
        b < 0x20 && b != 10 && b != 13 && b != 9 && b != 0x1b ==> cleaned(seq![b] + rest)
            == cleaned(rest),
    decreases plain.len(),
{
    lemma_cleaned_shift(seq![b], rest, 0);
    assert((seq![b] + rest)[0] == b);
    if plain.len() > 0 {
        let c = plain[0];
        let p = plain.subrange(1, plain.len() as int);
        assert forall|i: int| 0 <= i < p.len() implies (#[trigger] p[i] >= 0x20 || p[i] == 10
            || p[i] == 13 || p[i] == 9) && p[i] != 0x9b by {
            assert(p[i] == plain[i + 1]);
        }
        law_cleaning(p, b, rest);
        assert(plain =~= seq![c] + p);
        assert(plain + rest =~= seq![c] + (p + rest));
        lemma_cleaned_shift(seq![c], p, 0);
        lemma_cleaned_shift(seq![c], p + rest, 0);
        assert((seq![c] + p)[0] == c);
        assert((seq![c] + (p + rest))[0] == c);
        assert(cleaned(plain) =~= seq![c] + cleaned(p));
        assert(seq![c] + (p + cleaned(rest)) =~= plain + cleaned(rest));
    } else {
        assert(plain + rest =~= rest);
        assert(plain + cleaned(rest) =~= cleaned(rest));
        assert(cleaned(plain) =~= plain);
    }
}

proof fn lemma_cleaned_shift(a: Seq<u8>, b: Seq<u8>, i: int)
    requires
        0 <= i <= b.len(),
    ensures
        cleaned_from(a + b, a.len() + i) == cleaned_from(b, i),
    decreases b.len() - i,
{
    if i < b.len() {
        let ab = a + b;
        let k = a.len() + i;
        assert(ab[k] == b[i]);
        assert(ab.subrange(k, ab.len() as int) =~= b.subrange(i, b.len() as int));
        assert(escape_len(ab, k) == escape_len(b, i));
        if b[i] != 0 && escape_len(b, i) > 0 {
            lemma_cleaned_shift(a, b, i + escape_len(b, i));
        } else {
            lemma_cleaned_shift(a, b, i + 1);
        }
    }
}

/// Law: a terminal escape sequence is dropped whole, and what follows it is cleaned.
pub proof fn law_escapes_are_dropped(data: Seq<u8>, e: usize)
    requires
        data.len() > 0,
        data[0] == 0x1b || data[0] == 0x9b,
        bytes_pattern_end(VT100_PATTERN@, data) == Some(e),
        0 < e <= data.len(),
    ensures
        cleaned(data) == cleaned(data.subrange(e as int, data.len() as int)),
{
    let rest = data.subrange(e as int, data.len() as int);
    assert(data.subrange(0, data.len() as int) =~= data);
    assert(data =~= data.subrange(0, e as int) + rest);
    lemma_cleaned_shift(data.subrange(0, e as int), rest, 0);
}

/// Law: the buffer holds all output while it is at most 2 MiB long, and the last MiB
/// of it where it grew longer; a boot's start moves along with its data.
pub proof fn law_ring_keeps_the_end(v: LogView, clean: Seq<u8>)
    ensures
        ({
            let all = v.ring_buffer + clean;
            let w = v.appended(clean);
            &&& all.len() <= 2097152 ==> w.ring_buffer == all && (v.boot_start_pos >= 0
                ==> w.boot_start_pos == v.boot_start_pos)
            &&& all.len() > 2097152 ==> {
                &&& w.ring_buffer == all.subrange(all.len() - 1048576, all.len() as int)
                &&& v.boot_start_pos >= all.len() - 1048576 ==> w.boot_start_pos == v.boot_start_pos
                    - (all.len() - 1048576)
                &&& v.boot_start_pos < all.len() - 1048576 ==> w.boot_start_pos == 0
            }
            &&& v.current_open && v.current_size + clean.len() <= u64::MAX ==> w.current_size
                == v.current_size + clean.len()
            &&& !v.current_open ==> w.current_size == v.current_size
            &&& w.log_dir == v.log_dir && w.dut_dir == v.dut_dir && w.max_logs == v.max_logs
                && w.max_file_size == v.max_file_size && w.current_open == v.current_open
                && w.current_path == v.current_path && w.boot_number == v.boot_number
        }),
{
    let all = v.ring_buffer + clean;
    assert(all.subrange(0, all.len() as int) =~= all);
}

/// Law: a log is cut exactly when the running file has grown beyond its limit.
pub proof fn law_logs_are_cut_at_their_limit(v: LogView)
    ensures
        v.oversized() <==> v.current_open && v.current_size > v.max_file_size,
{
}

/// Law: what belongs to a boot is what stands in the buffer from its start on; a
/// flush numbers it and leaves the buffer as it is.
pub proof fn law_boot_data(v: LogView, before: Seq<u8>, data: Seq<u8>, n: nat)
    ensures
        v.ring_buffer == before + data && v.boot_start_pos == before.len() ==> v.boot_data()
            == data,
        v.flushed(n).boot_number == n,
        v.flushed(n).ring_buffer == v.ring_buffer,
        v.flushed(n).boot_start_pos == v.ring_buffer.len(),
        v.flushed(n).current_open == v.current_open && v.flushed(n).current_size == v.current_size
            && v.flushed(n).current_path == v.current_path,
{
    if v.ring_buffer == before + data && v.boot_start_pos == before.len() {
        assert(v.boot_data() =~= data);
    }
}

/// Law: a counter file that is missing, or holds no number that fits, counts no boots.
pub proof fn law_unreadable_counters_count_nothing(n: nat, before: Seq<char>, after: Seq<char>)
    requires
        crate::text::all_space(before),
        crate::text::all_space(after),
    ensures
        boot_count(None) == 0,
        n <= u32::MAX ==> boot_count(Some(before + decimal(n) + after)) == n,
        n > u32::MAX ==> boot_count(Some(before + decimal(n) + after)) == 0,
        boot_count(Some(before + after)) == 0,
{
    crate::text::lemma_decimal_digits(n);
    crate::text::law_parse_unsigned(n, u32::MAX as nat);
    let d = decimal(n);
    assert(crate::text::is_digit(d[0]) && crate::text::is_digit(d.last()));
    crate::text::law_trim(before, d, after);
    let e = Seq::<char>::empty();
    crate::text::law_trim(before, e, after);
    assert(before + e + after =~= before + after);
    crate::text::law_no_digits_no_number(u32::MAX as nat, 0, 0);
}

/// Law: without a pattern, or with one that does not compile, every line is kept;
/// otherwise exactly those that it matches, in order.
pub proof fn law_lines_are_selected(all: Seq<Seq<char>>, l: Seq<char>, p: Seq<char>)
    ensures
        selected(all, None) == all,
        !caseless_valid(p) ==> selected(all, Some(p)) == all,
        caseless_valid(p) ==> {
            &&& selected(Seq::empty(), Some(p)) == Seq::<Seq<char>>::empty()
            &&& caseless_match(p, l) == Some(true) ==> selected(all.push(l), Some(p)) == selected(
                all,
                Some(p),
            ).push(l)
            &&& caseless_match(p, l) != Some(true) ==> selected(all.push(l), Some(p)) == selected(
                all,
                Some(p),
            )
        },
{
    reveal(Seq::filter);
    assert(all.push(l).drop_last() =~= all);
}

/// Law: a limit keeps the last lines; 0, or as many as there are, keeps all.
pub proof fn law_last_lines(a: Seq<Seq<char>>, b: Seq<Seq<char>>, n: nat)
    ensures
        b.len() > 0 ==> last_lines(a + b, b.len()) == b,
        last_lines(a, 0) == a,
        a.len() <= n ==> last_lines(a, n) == a,
{
    let ab = a + b;
    if b.len() > 0 {
        if a.len() > 0 {
            assert(ab.subrange(ab.len() - b.len(), ab.len() as int) =~= b);
        } else {
            assert(ab =~= b);
        }
    }
}

/// Law: comparing two paths is lexicographic: where they agree in their first `n`
/// characters, the next characters decide, and a path stands before what it begins.
pub proof fn law_comparing_paths(a: &str, b: &str, r: bool, n: int)
    requires
        call_ensures(text_before, (a, b), r),
        0 <= n <= a@.len(),
        n <= b@.len(),
        forall|j: int| 0 <= j < n ==> #[trigger] a@[j] == b@[j],
    ensures
        n < a@.len() && n < b@.len() && a@[n] != b@[n] ==> (r <==> a@[n] < b@[n]),
        n == a@.len() && n < b@.len() ==> r,
        n == b@.len() ==> !r,
{
    law_order_of_characters(a@, b@, n);
    if n == b@.len() {
        law_order_of_characters(b@, a@, n);
    }
}

/// Law: the listing holds the same files, and no path in it stands before one that
/// follows it; of two logs of one directory the one with the greater boot number comes
/// first, for boots below 1000.
pub proof fn law_listing_logs(
    files: Vec<LogFileInfo>,
    r: Vec<LogFileInfo>,
    dir: Seq<char>,
    i: int,
    j: int,
    n: nat,
    m: nat,
    t: Seq<char>,
    u: Seq<char>,
)
    requires
        call_ensures(list_log_files_sorted, (files,), r),
        0 <= i < r@.len(),
        0 <= j < r@.len(),
    ensures
        r@.to_multiset() == files@.to_multiset(),
        i < j ==> !text_less(r@[i].path@, r@[j].path@),
        r@[i].path@ == joined_path(dir, boot_file_name(n, t)) && r@[j].path@ == joined_path(
            dir,
            boot_file_name(m, u),
        ) && m < n < 1000 ==> i < j,
{
    law_by_path_is_sorted(files@);
    if r@[i].path@ == joined_path(dir, boot_file_name(n, t)) && r@[j].path@ == joined_path(
        dir,
        boot_file_name(m, u),
    ) && m < n < 1000 {
        law_newest_boot_comes_first(files@, dir, i, j, n, m, t, u);
    }
}

/// Law: the archives list every file once, the newest path first, numbered from 0.
pub proof fn law_listing_archives(files: Vec<LogFileInfo>, r: Vec<ArchiveInfo>, i: int, j: int)
    requires
        call_ensures(list_archives, (files,), r),
        0 <= i < j < r@.len(),
    ensures
        r@.len() == files@.len(),
        r@[i].index == i,
        !text_less(r@[i].path@, r@[j].path@),
{
    law_archives_are_listed(r@, files@, i, j);
}

/// Law: cleaning up keeps the newest logs, as many as are wanted: as many are deleted as
/// there are too many, and no file that is kept is older than one that is deleted.
pub proof fn law_cleaning_up(
    files: Vec<LogFileInfo>,
    max: usize,
    r: Vec<String>,
    i: int,
    j: int,
)
    requires
        call_ensures(cleanup_old_logs, (files, max), r),
    ensures
        files@.len() <= max ==> r@.len() == 0,
        files@.len() > max ==> r@.len() == files@.len() - max,
        0 <= i < r@.len() && r@.len() <= j < files@.len() ==> r@[i]@ == by_time(files@)[i].path@
            && by_time(files@)[i].modified <= by_time(files@)[j].modified,
{
    law_by_time_is_sorted(files@);
}

/// Law: cleaning output leaves plain text, and drops null bytes and control characters.
pub proof fn law_cleaning_output(data: &[u8], r: Vec<u8>, k: int)
    requires
        call_ensures(strip_ansi_and_null, (data,), r),
    ensures
        (forall|i: int| 0 <= i < data@.len() ==> 32 <= #[trigger] data@[i] < 127) ==> r@ == data@,
        0 <= k < r@.len() ==> r@[k] >= 32 || r@[k] == 10 || r@[k] == 13 || r@[k] == 9,
        r@.len() <= data@.len(),
{
    lemma_cleaned_len(data@, 0);
    if 0 <= k < r@.len() {
        law_cleaned_is_printable(data@, 0, k);
    }
    if forall|i: int| 0 <= i < data@.len() ==> 32 <= #[trigger] data@[i] < 127 {
        law_cleaning(data@, 0, Seq::empty());
    }
}

/// Law: a boot is numbered one beyond the count, in its file's name and in the count that
/// is written; a flush takes what was collected and is asked for nothing twice.
pub proof fn law_flushing_a_boot(
    m: &mut LogManager,
    counter: Option<&str>,
    timestamp: &str,
    r: Option<LogPlan>,
    n: nat,
)
    requires
        call_ensures(LogManager::flush_boot_log, (m, counter, timestamp), r),
        counter is Some,
        counter->0@ == decimal(n),
        n < u32::MAX,
    ensures
        r is None <==> old(m)@.boot_data().len() == 0,
        r is None ==> final(m)@ == old(m)@,
        r matches Some(p) ==> {
            &&& p.data@ == old(m)@.boot_data()
            &&& p.counter@ == decimal(n + 1)
            &&& p.name@ == boot_file_name(n + 1, timestamp@)
            &&& p.path@ == joined_path(old(m)@.log_dir, p.name@)
            &&& final(m)@.boot_number == n + 1
            &&& final(m)@.boot_data().len() == 0
        },
{
    law_counter_round_trip(n);
}

/// Law: written output is cleaned, collected, and counted into the running file.
pub proof fn law_writing_output(m: &mut LogManager, data: &[u8], r: (Vec<u8>, bool))
    requires
        call_ensures(LogManager::write, (m, data), r),
    ensures
        r.0@ == cleaned(data@),
        r.1 <==> final(m)@.current_open && final(m)@.current_size > final(m)@.max_file_size,
        old(m)@.ring_buffer.len() + r.0@.len() <= 2097152 ==> final(m)@.ring_buffer
            == old(m)@.ring_buffer + r.0@,
        final(m)@.ring_buffer.len() <= 2097152,
{
    law_ring_keeps_the_end(old(m)@, cleaned(data@));
    law_ring_is_bounded(old(m)@, cleaned(data@));
}

} // verus!
