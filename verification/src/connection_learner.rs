//! Learning whether a serial connection is real.
//!
//! The target is reset or rebooted several times, and the start of each captured
//! log is compared with the others. Where all are alike, the connection is real
//! and the last log becomes the reference log. Where the logs of hardware resets
//! are all different, the relay does not work.
//!
//! A similarity is a number of millionths.

use crate::bridge::{lower_text, lowercased, pattern_replaced, replace_all};
use crate::stage_learner::{compute_3gram_hashes, grams, jaccard_similarity, score};
use crate::text::{
    cat3, chars_of, decimal, decimal_text, join_texts, joined, lines, lines_of, remove_char, texts,
    trim, trim_text, without,
};
use vstd::prelude::*;
use vstd::string::*;
use vstd::utf8::encode_utf8;

verus! {

/// How the target was restarted.
#[derive(Debug, Clone, Copy, PartialEq, Eq, Structural)]
pub enum LearnMethod {
    HardwareReset,
    SoftwareReboot,
}

impl LearnMethod {
    /// The name of the method.
    pub open spec fn name(self) -> Seq<char> {
        match self {
            LearnMethod::HardwareReset => "hardware_reset"@,
            LearnMethod::SoftwareReboot => "software_reboot"@,
        }
    }

    /// The name of the method.
    pub fn as_str(&self) -> (r: &'static str)
        ensures
            r@ == self.name(),
    {
        match self {
            LearnMethod::HardwareReset => "hardware_reset",
            LearnMethod::SoftwareReboot => "software_reboot",
        }
    }
}

/// One restart and its log.
pub struct LearnCycle {
    /// Where the log was captured.
    pub log_path: String,
    /// The first lines, normalized.
    pub first_50: String,
    /// The whole log.
    pub full_content: String,
    pub method: LearnMethod,
}

/// Why learning failed.
pub enum LearnError {
    /// There is nothing to compare.
    TooFewCycles,
    /// The logs differ too much.
    BelowThreshold { similarity: u32, threshold: u32, against_reference: bool },
    /// There is no reset control.
    NotConfigured,
    /// The reset control failed.
    ControlFailed { backend: String, cause: String },
}

/// Millionths as a percentage with one decimal, rounded.
pub open spec fn percent(millionths: u32) -> Seq<char> {
    let tenths = (millionths as nat + 500) / 1000;
    decimal(tenths / 10) + "."@ + decimal(tenths % 10) + "%"@
}

/// Millionths as a percentage with one decimal, rounded.
pub fn percent_text(millionths: u32) -> (r: String)
    ensures
        r@ == percent(millionths),
{
    let tenths: u64 = (millionths as u64 + 500) / 1000;
    let mut r = cat3(&decimal_text(tenths / 10), ".", &decimal_text(tenths % 10));
    r.append("%");
    r
}

impl LearnError {
    /// The message shown to the user.
    pub fn message(&self) -> (r: String)
        ensures
            r@ == (match *self {
                LearnError::TooFewCycles => "Need at least 2 cycles for comparison"@,
                LearnError::BelowThreshold { similarity, threshold, against_reference } => {
                    let m = "Similarity "@ + percent(similarity) + " below threshold "@ + percent(
                        threshold,
                    );
                    if against_reference {
                        m + " against existing reference"@
                    } else {
                        m
                    }
                },
                LearnError::NotConfigured => "Reset button/control not configured"@,
                LearnError::ControlFailed { backend, cause } => "Reset control failed via "@
                    + backend@ + ": "@ + cause@,
            }),
    {
        match self {
            LearnError::TooFewCycles => "Need at least 2 cycles for comparison".to_owned(),
            LearnError::BelowThreshold { similarity, threshold, against_reference } => {
                let mut m = cat3("Similarity ", &percent_text(*similarity), " below threshold ");
                m.append(&percent_text(*threshold));
                if *against_reference {
                    m.append(" against existing reference");
                }
                m
            },
            LearnError::NotConfigured => "Reset button/control not configured".to_owned(),
            LearnError::ControlFailed { backend, cause } => {
                let mut m = cat3("Reset control failed via ", backend, ": ");
                m.append(cause);
                m
            },
        }
    }
}

/// The result of learning.
pub struct LearnResult {
    /// The connection is real.
    pub connected: bool,
    pub cycles: Vec<LearnCycle>,
    /// The best similarity of all comparisons.
    pub best_similarity: u32,
    /// Where the reference log goes, where learning succeeded.
    pub reference_log: Option<String>,
    pub method: LearnMethod,
    /// The relay works.
    pub relay_verified: bool,
    pub error: Option<LearnError>,
}

/// How to learn.
pub struct LearnConfig {
    /// The directory of the captured logs.
    pub learn_dir: String,
    /// Where the reference log goes.
    pub reference_log: String,
    /// The similarity from which on the connection is real.
    pub similarity_threshold: u32,
    /// The similarity below which the relay does not work.
    pub relay_broken_threshold: u32,
    /// How often the target is restarted.
    pub cycles: usize,
    /// The lines that are compared.
    pub compare_lines: usize,
    /// How long reset is pressed, in milliseconds.
    pub reset_pulse_ms: u64,
    /// How long a log is captured, in seconds.
    pub capture_timeout_secs: u64,
}

impl Default for LearnConfig {
    fn default() -> (r: Self)
        ensures
            r.learn_dir@ == ".dut-serial/learn"@,
            r.reference_log@ == ".dut-serial/reference-boot.log"@,
            r.similarity_threshold == 930_000,
            r.relay_broken_threshold == 100_000,
            r.cycles == 3,
            r.compare_lines == 50,
            r.reset_pulse_ms == 500,
            r.capture_timeout_secs == 30,
    {
        LearnConfig {
            learn_dir: ".dut-serial/learn".to_owned(),
            reference_log: ".dut-serial/reference-boot.log".to_owned(),
            similarity_threshold: 930_000,
            relay_broken_threshold: 100_000,
            cycles: 3,
            compare_lines: 50,
            reset_pulse_ms: 500,
            capture_timeout_secs: 30,
        }
    }
}

// ── Comparing ───────────────────────────────────────────────────────────────

/// The pairs of the first `i` logs with a later one, then those of log `i` with
/// the logs up to `j`.
pub open spec fn pairs_to(n: int, i: int, j: int) -> Seq<(usize, usize)>
    decreases i, j,
{
    if i < 0 {
        Seq::empty()
    } else if j <= i + 1 {
        if i == 0 {
            Seq::empty()
        } else {
            pairs_to(n, i - 1, n)
        }
    } else {
        pairs_to(n, i, j - 1).push((i as usize, (j - 1) as usize))
    }
}

/// The pairs of `n` logs, each log with every later one.
pub open spec fn all_pairs(n: int) -> Seq<(usize, usize)> {
    pairs_to(n, n - 1, n)
}

/// The pairs of `n` logs, in the order in which their similarities are given to
/// `evaluate`.
pub fn log_pairs(n: usize) -> (r: Vec<(usize, usize)>)
    ensures
        r@ == all_pairs(n as int),
{
    let mut r: Vec<(usize, usize)> = Vec::new();
    let mut i: usize = 0;
    while i < n
        invariant
            i <= n,
            r@ == pairs_to(n as int, i - 1, n as int),
        decreases n - i,
    {
        let mut j: usize = i + 1;
        assert(pairs_to(n as int, i as int, i + 1) == r@);
        while j < n
            invariant
                i < j <= n,
                r@ == pairs_to(n as int, i as int, j as int),
            decreases n - j,
        {
            r.push((i, j));
            j = j + 1;
        }
        i = i + 1;
    }
    r
}

/// The least of some similarities, and of one.
pub open spec fn lowest(scores: Seq<u32>) -> u32
    decreases scores.len(),
{
    if scores.len() == 0 {
        1_000_000
    } else {
        let l = lowest(scores.drop_last());
        if scores.last() < l {
            scores.last()
        } else {
            l
        }
    }
}

/// The greatest of some similarities, and of zero.
pub open spec fn highest(scores: Seq<u32>) -> u32
    decreases scores.len(),
{
    if scores.len() == 0 {
        0
    } else {
        let h = highest(scores.drop_last());
        if scores.last() > h {
            scores.last()
        } else {
            h
        }
    }
}

fn extremes(scores: &[u32]) -> (r: (u32, u32))
    ensures
        r == (lowest(scores@), highest(scores@)),
{
    let mut low: u32 = 1_000_000;
    let mut high: u32 = 0;
    let mut i: usize = 0;
    while i < scores.len()
        invariant
            i <= scores.len(),
            low == lowest(scores@.subrange(0, i as int)),
            high == highest(scores@.subrange(0, i as int)),
        decreases scores.len() - i,
    {
        assert(scores@.subrange(0, i + 1).drop_last() =~= scores@.subrange(0, i as int));
        let s: u32 = scores[i];
        if s < low {
            low = s;
        }
        if s > high {
            high = s;
        }
        i = i + 1;
    }
    assert(scores@.subrange(0, scores@.len() as int) =~= scores@);
    (low, high)
}

/// Learns by comparing logs.
pub struct ConnectionLearner {
    pub config: LearnConfig,
}

impl ConnectionLearner {
    pub fn new(config: LearnConfig) -> (r: Self)
        ensures
            r.config == config,
    {
        ConnectionLearner { config }
    }

    /// How it learns.
    pub fn config(&self) -> (r: &LearnConfig)
        ensures
            *r == self.config,
    {
        &self.config
    }

    /// The verdict on the logs of several restarts, from the similarities of all
    /// pairs. The connection is real where the least alike pair reaches the
    /// threshold; the last log is then to be written as the reference log.
    pub fn evaluate(&self, cycles: Vec<LearnCycle>, method: LearnMethod, scores: &[u32]) -> (r:
        LearnResult)
        requires
            scores@.len() == all_pairs(cycles@.len() as int).len(),
        ensures
            r.cycles@ == cycles@,
            r.method == method,
            cycles@.len() < 2 ==> !r.connected && r.best_similarity == 0 && r.reference_log is None
                && !r.relay_verified && r.error == Some(LearnError::TooFewCycles),
            cycles@.len() >= 2 ==> {
                let low = lowest(scores@);
                &&& r.connected <==> low >= self.config.similarity_threshold
                &&& r.best_similarity == highest(scores@)
                &&& r.reference_log is Some <==> r.connected
                &&& r.reference_log matches Some(p) ==> p@ == self.config.reference_log@
                &&& r.relay_verified <==> method == LearnMethod::HardwareReset && low
                    >= self.config.relay_broken_threshold
                &&& r.error == (if r.connected {
                    None
                } else {
                    Some(
                        LearnError::BelowThreshold {
                            similarity: low,
                            threshold: self.config.similarity_threshold,
                            against_reference: false,
                        },
                    )
                })
            },
    {
        if cycles.len() < 2 {
            return LearnResult {
                connected: false,
                cycles,
                best_similarity: 0,
                reference_log: None,
                method,
                relay_verified: false,
                error: Some(LearnError::TooFewCycles),
            };
        }
        let (low, high): (u32, u32) = extremes(scores);
        let relay_verified: bool = method == LearnMethod::HardwareReset && low
            >= self.config.relay_broken_threshold;
        let connected: bool = low >= self.config.similarity_threshold;
        let reference_log = if connected {
            Some(self.config.reference_log.clone())
        } else {
            None
        };
        let error = if connected {
            None
        } else {
            Some(
                LearnError::BelowThreshold {
                    similarity: low,
                    threshold: self.config.similarity_threshold,
                    against_reference: false,
                },
            )
        };
        LearnResult {
            connected,
            cycles,
            best_similarity: high,
            reference_log,
            method,
            relay_verified,
            error,
        }
    }

    /// The verdict on the logs of several reboots, from the similarity of each to
    /// the reference log that is there. The reference log stays as it is.
    pub fn evaluate_with_reference(&self, cycles: Vec<LearnCycle>, scores: &[u32]) -> (r:
        LearnResult)
        requires
            scores@.len() == cycles@.len(),
        ensures
            r.cycles@ == cycles@,
            r.method == LearnMethod::SoftwareReboot,
            !r.relay_verified,
            r.connected <==> lowest(scores@) >= self.config.similarity_threshold,
            r.best_similarity == highest(scores@),
            r.reference_log is Some <==> r.connected,
            r.reference_log matches Some(p) ==> p@ == self.config.reference_log@,
            r.error == (if r.connected {
                None
            } else {
                Some(
                    LearnError::BelowThreshold {
                        similarity: lowest(scores@),
                        threshold: self.config.similarity_threshold,
                        against_reference: true,
                    },
                )
            }),
    {
        let (low, high): (u32, u32) = extremes(scores);
        let connected: bool = low >= self.config.similarity_threshold;
        let reference_log = if connected {
            Some(self.config.reference_log.clone())
        } else {
            None
        };
        let error = if connected {
            None
        } else {
            Some(
                LearnError::BelowThreshold {
                    similarity: low,
                    threshold: self.config.similarity_threshold,
                    against_reference: true,
                },
            )
        };
        LearnResult {
            connected,
            cycles,
            best_similarity: high,
            reference_log,
            method: LearnMethod::SoftwareReboot,
            relay_verified: false,
            error,
        }
    }

    /// A text made ready for comparison: without escape sequences, NULs and
    /// kernel timestamps, white space compressed, in lower case.
    pub fn normalize(text: &str) -> (r: String)
        ensures
            r@ == normal_text(text@),
    {
        let cleaned = strip_ansi(text);
        let cleaned = remove_char(&cleaned, '\0');
        let cleaned = replaced_text(TIMESTAMP_PATTERN, cleaned, "");
        let cleaned = replaced_text(ANDROID_PATTERN, cleaned, "");
        let cleaned = replaced_text(SPACE_PATTERN, cleaned, " ");
        lower_text(&trim_text(&cleaned))
    }

    /// The first `n` lines of a text.
    pub fn extract_first_n_lines(text: &str, n: usize) -> (r: String)
        ensures
            r@ == first_lines(text@, n as nat),
    {
        let mut ls = lines_of(text);
        let ghost all = texts(ls@);
        assert(all.len() == ls@.len());
        if n < ls.len() {
            ls.truncate(n);
            assert(texts(ls@) =~= all.subrange(0, n as int));
        }
        assert(all.subrange(0, all.len() as int) =~= all);
        join_texts(&ls, "\n")
    }

    /// One restart and its log.
    pub fn cycle(&self, log_path: String, captured: &[u8], method: LearnMethod) -> (r: LearnCycle)
        ensures
            r.log_path == log_path,
            r.method == method,
            ({
                let text = crate::bridge::utf8_lossy(captured@);
                &&& r.full_content@ == text
                &&& r.first_50@ == normal_text(
                    first_lines(text, self.config.compare_lines as nat),
                )
            }),
    {
        let full_content = crate::bridge::lossy_text(captured);
        let first = Self::extract_first_n_lines(&full_content, self.config.compare_lines);
        LearnCycle { log_path, first_50: Self::normalize(&first), full_content, method }
    }
}

/// The first `n` lines of a text, or all of them.
pub open spec fn first_lines(text: Seq<char>, n: nat) -> Seq<char> {
    let all = lines(text);
    joined(
        all.subrange(
            0,
            if n < all.len() {
                n as int
            } else {
                all.len() as int
            },
        ),
        "\n"@,
    )
}

impl LearnResult {
    /// The reference log could not be written.
    pub fn reference_unwritten(self) -> (r: LearnResult)
        ensures
            r == (LearnResult { reference_log: None, ..self }),
    {
        LearnResult {
            connected: self.connected,
            cycles: self.cycles,
            best_similarity: self.best_similarity,
            reference_log: None,
            method: self.method,
            relay_verified: self.relay_verified,
            error: self.error,
        }
    }
}

/// The name of a captured log.
pub fn learn_log_name(timestamp: &str, number: usize) -> (r: String)
    ensures
        r@ == "learn-"@ + timestamp@ + "-"@ + decimal(number as nat) + ".log"@,
{
    let mut r = cat3("learn-", timestamp, "-");
    r.append(&decimal_text(number as u64));
    r.append(".log");
    r
}

// ── Normalizing ─────────────────────────────────────────────────────────────

/// The pattern of a kernel timestamp.
pub const TIMESTAMP_PATTERN: &'static str = r"\[\s*\d+\.\d+\]";

/// The pattern of a kernel timestamp of Android, with a thread.
pub const ANDROID_PATTERN: &'static str = r"\[\s*\d+\.\d+\]\[\s*T\d+\]\s*";

/// The pattern of white space.
pub const SPACE_PATTERN: &'static str = r"\s+";

/// The text with every match of a pattern replaced; the text itself where the
/// pattern does not compile.
pub open spec fn replaced(pattern: Seq<char>, text: Seq<char>, with: Seq<char>) -> Seq<char> {
    match pattern_replaced(pattern, text, with) {
        Some(t) => t,
        None => text,
    }
}

fn replaced_text(pattern: &str, text: String, with: &str) -> (r: String)
    ensures
        r@ == replaced(pattern@, text@, with@),
{
    match replace_all(pattern, &text, with) {
        Some(t) => t,
        None => text,
    }
}

/// A text made ready for comparison.
pub open spec fn normal_text(text: Seq<char>) -> Seq<char> {
    let t = without(ansi_free(text, 0), '\0');
    let t = replaced(TIMESTAMP_PATTERN@, t, ""@);
    let t = replaced(ANDROID_PATTERN@, t, ""@);
    let t = replaced(SPACE_PATTERN@, t, " "@);
    lowercased(trim(t))
}

/// A character that ends an escape sequence.
pub open spec fn ends_escape(c: char) -> bool {
    'a' <= c <= 'z' || 'A' <= c <= 'Z' || c == '~'
}

/// Where the parameters of an escape sequence end: behind the first ending
/// character from `i` on, or at the end of the text.
pub open spec fn escape_end(s: Seq<char>, i: int) -> int
    decreases s.len() - i,
{
    if i < 0 || i >= s.len() {
        s.len() as int
    } else if ends_escape(s[i]) {
        i + 1
    } else {
        escape_end(s, i + 1)
    }
}

/// The text from `i` on without escape sequences.
pub open spec fn ansi_free(s: Seq<char>, i: int) -> Seq<char>
    decreases s.len() - i,
{
    if i < 0 || i >= s.len() {
        Seq::empty()
    } else if s[i] == '\u{1b}' {
        if i + 1 < s.len() && s[i + 1] == '[' {
            let e = escape_end(s, i + 2);
            if i < e < s.len() {
                ansi_free(s, e)
            } else {
                Seq::empty()
            }
        } else if i + 2 < s.len() {
            ansi_free(s, i + 2)
        } else {
            Seq::empty()
        }
    } else {
        seq![s[i]] + ansi_free(s, i + 1)
    }
}

/// Removes escape sequences: `ESC [` up to a letter or `~`, and `ESC` with the
/// character behind it.
pub fn strip_ansi(text: &str) -> (r: String)
    ensures
        r@ == ansi_free(text@, 0),
{
    let v = chars_of(text);
    let n: usize = v.len();
    let mut r = String::new();
    let mut i: usize = 0;
    assert(r@ + ansi_free(v@, 0) =~= ansi_free(v@, 0));
    while i < n
        invariant
            i <= n,
            n == v@.len(),
            r@ + ansi_free(v@, i as int) == ansi_free(v@, 0),
        decreases n - i,
    {
        let c: char = v[i];
        if c == '\u{1b}' {
            if i + 1 < n && v[i + 1] == '[' {
                let mut j: usize = i + 2;
                while j < n && !(('a' <= v[j] && v[j] <= 'z') || ('A' <= v[j] && v[j] <= 'Z')
                    || v[j] == '~')
                    invariant
                        i + 2 <= j <= n,
                        n == v@.len(),
                        escape_end(v@, i + 2) == escape_end(v@, j as int),
                    decreases n - j,
                {
                    j = j + 1;
                }
                if j < n {
                    j = j + 1;
                }
                i = j;
            } else if i + 1 < n {
                i = i + 2;
            } else {
                i = n;
            }
        } else {
            let ghost before = r@;
            r.push(c);
            assert(before + (seq![c] + ansi_free(v@, i + 1)) =~= r@ + ansi_free(v@, i + 1));
            i = i + 1;
        }
    }
    assert(r@ + Seq::<char>::empty() =~= r@);
    r
}

/// The Jaccard index of the three-byte windows of two texts, as (common, all).
pub fn jaccard_3gram(a: &str, b: &str) -> (r: (u32, u32))
    ensures
        (r.0 as nat, r.1 as nat) == score(grams(encode_utf8(a@)), grams(encode_utf8(b@))),
        r.1 > 0,
{
    let x = compute_3gram_hashes(a);
    let y = compute_3gram_hashes(b);
    proof {
        crate::stage_learner::lemma_grams_small(encode_utf8(a@));
        crate::stage_learner::lemma_grams_small(encode_utf8(b@));
    }
    jaccard_similarity(&x, &y)
}

/// The similarity of two texts of which one is empty: one where both are, else
/// zero. None where neither is.
pub fn trivial_similarity(a: &str, b: &str) -> (r: Option<u32>)
    ensures
        r == (if a@.len() == 0 && b@.len() == 0 {
            Some(1_000_000u32)
        } else if a@.len() == 0 || b@.len() == 0 {
            Some(0u32)
        } else {
            None
        }),
{
    if a.is_empty() && b.is_empty() {
        Some(1_000_000)
    } else if a.is_empty() || b.is_empty() {
        Some(0)
    } else {
        None
    }
}

// ── Laws ────────────────────────────────────────────────────────────────────

/// Law: the least similarity is one of those given or one, and none is less.
pub proof fn law_lowest(scores: Seq<u32>, i: int)
    requires
        0 <= i < scores.len(),
    ensures
        lowest(scores) <= scores[i],
        lowest(scores) == 1_000_000 || scores.contains(lowest(scores)),
    decreases scores.len(),
{
    let t = scores.drop_last();
    assert(scores.last() == scores[scores.len() - 1]);
    if t.len() > 0 {
        if i < t.len() {
            law_lowest(t, i);
        } else {
            law_lowest(t, 0);
        }
        if lowest(t) != 1_000_000 {
            let k = choose|k: int| 0 <= k < t.len() && t[k] == lowest(t);
            assert(scores[k] == lowest(t));
        }
    }
}

/// Law: no given similarity is above the greatest.
pub proof fn law_highest(scores: Seq<u32>, i: int)
    requires
        0 <= i < scores.len(),
    ensures
        highest(scores) >= scores[i],
    decreases scores.len(),
{
    if i < scores.len() - 1 {
        law_highest(scores.drop_last(), i);
    }
}

/// Law: a connection is real only where every pair of logs reaches the threshold.
pub proof fn law_every_pair_counts(scores: Seq<u32>, threshold: u32)
    requires
        threshold <= 1_000_000,
    ensures
        lowest(scores) >= threshold <==> forall|i: int|
            0 <= i < scores.len() ==> #[trigger] scores[i] >= threshold,
    decreases scores.len(),
{
    if scores.len() > 0 {
        let t = scores.drop_last();
        law_every_pair_counts(t, threshold);
        assert(forall|i: int| 0 <= i < t.len() ==> #[trigger] t[i] == scores[i]);
        assert(scores.last() == scores[scores.len() - 1]);
        if lowest(scores) >= threshold {
            assert forall|i: int| 0 <= i < scores.len() implies #[trigger] scores[i] >= threshold by {
                if i < t.len() {
                    assert(t[i] >= threshold);
                }
            }
        } else if lowest(t) < threshold {
            let k = choose|k: int| 0 <= k < t.len() && t[k] < threshold;
            assert(scores[k] < threshold);
        }
    }
}

/// Law: every two cycles are compared, and none with itself.
pub proof fn law_every_two_are_compared(n: int, a: usize, b: usize)
    requires
        0 <= n <= usize::MAX,
    ensures
        all_pairs(n).contains((a, b)) <==> a < b < n,
{
    if n > 0 {
        lemma_pairs(n, n - 1, n, a, b);
    }
}

proof fn lemma_pairs(n: int, i: int, j: int, a: usize, b: usize)
    requires
        0 <= i < n <= usize::MAX,
        0 <= j <= n,
    ensures
        pairs_to(n, i, j).contains((a, b)) <==> a < b && ((a < i && b < n) || (a == i && b < j)),
    decreases i, j,
{
    let all = pairs_to(n, i, j);
    if j <= i + 1 {
        if i > 0 {
            lemma_pairs(n, i - 1, n, a, b);
        }
    } else {
        lemma_pairs(n, i, j - 1, a, b);
        let before = pairs_to(n, i, j - 1);
        if before.contains((a, b)) {
            let k = choose|k: int| 0 <= k < before.len() && before[k] == (a, b);
            assert(all[k] == (a, b));
        }
        if a == i && b == j - 1 {
            assert(all[all.len() - 1] == (a, b));
        }
        if all.contains((a, b)) {
            let k = choose|k: int| 0 <= k < all.len() && all[k] == (a, b);
            if k < before.len() {
                assert(before[k] == (a, b));
            }
        }
    }
}

/// Law: the highest score is one of them, and without scores the lowest is full likeness
/// and the highest none.
pub proof fn law_extremes_are_scores(scores: Seq<u32>)
    ensures
        lowest(Seq::empty()) == 1_000_000,
        highest(Seq::empty()) == 0,
        highest(scores) == 0 || scores.contains(highest(scores)),
        lowest(scores) <= 1_000_000,
    decreases scores.len(),
{
    if scores.len() > 0 {
        law_extremes_are_scores(scores.drop_last());
        let s = scores.drop_last();
        if highest(scores) == scores.last() {
            assert(scores[scores.len() - 1] == highest(scores));
        } else if s.contains(highest(s)) {
            let k = choose|k: int| 0 <= k < s.len() && s[k] == highest(s);
            assert(scores[k] == highest(s));
        }
    }
}

/// Law: a share is shown in per cent, rounded to one place.
pub proof fn law_percent(tenths: nat, x: u32)
    requires
        tenths * 1000 <= x + 500 < tenths * 1000 + 1000,
    ensures
        percent(x) == decimal(tenths / 10) + "."@ + decimal(tenths % 10) + "%"@,
{
    assert((x as nat + 500) / 1000 == tenths);
}

/// Law: the first lines are all where there are no more of them.
pub proof fn law_first_lines(text: Seq<char>, a: Seq<Seq<char>>, b: Seq<Seq<char>>, n: nat)
    requires
        lines(text) == a + b,
    ensures
        first_lines(text, a.len()) == joined(a, "\n"@),
        n >= a.len() + b.len() ==> first_lines(text, n) == joined(a + b, "\n"@),
{
    let all = a + b;
    assert(all.subrange(0, a.len() as int) =~= a);
    assert(all.subrange(0, all.len() as int) =~= all);
}

/// Law: text without an escape stays; a control sequence up to its letter is dropped,
/// and what follows it is treated likewise.
pub proof fn law_escapes_are_removed(
    plain: Seq<char>,
    params: Seq<char>,
    end: char,
    rest: Seq<char>,
)
    requires
        !plain.contains('\u{1b}'),
        forall|i: int|
            0 <= i < params.len() ==> !('a' <= #[trigger] params[i] <= 'z') && !('A' <= params[i]
                <= 'Z') && params[i] != '~',
        'a' <= end <= 'z' || 'A' <= end <= 'Z' || end == '~',
    ensures
        ansi_free(plain, 0) == plain,
        ansi_free(plain + rest, 0) == plain + ansi_free(rest, 0),
        ansi_free(seq!['\u{1b}', '['] + params + seq![end] + rest, 0) == ansi_free(rest, 0),
{
    lemma_plain_stays(plain, Seq::empty());
    assert(plain + Seq::<char>::empty() =~= plain);
    assert(plain + ansi_free(Seq::empty(), 0) =~= plain);
    lemma_plain_stays(plain, rest);
    let head = seq!['\u{1b}', '['] + params + seq![end];
    let s = head + rest;
    assert(s[0] == '\u{1b}' && s[1] == '[');
    assert forall|i: int| 2 <= i < head.len() - 1 implies !ends_escape(#[trigger] s[i]) by {
        assert(s[i] == params[i - 2]);
    }
    assert(s[head.len() - 1] == end);
    lemma_escape_end(s, head.len() - 1, 2);
    lemma_free_shift(head, rest, 0);
    if rest.len() == 0 {
        assert(ansi_free(rest, 0) =~= Seq::<char>::empty());
    }
}

proof fn lemma_escape_end(s: Seq<char>, k: int, i: int)
    requires
        0 <= i <= k < s.len(),
        ends_escape(s[k]),
        forall|j: int| i <= j < k ==> !ends_escape(#[trigger] s[j]),
    ensures
        escape_end(s, i) == k + 1,
    decreases k - i,
{
    if i < k {
        lemma_escape_end(s, k, i + 1);
    }
}

proof fn lemma_escape_shift(a: Seq<char>, b: Seq<char>, i: int)
    requires
        0 <= i <= b.len(),
    ensures
        escape_end(a + b, a.len() + i) == a.len() + escape_end(b, i),
    decreases b.len() - i,
{
    if i < b.len() {
        assert((a + b)[a.len() + i] == b[i]);
        lemma_escape_shift(a, b, i + 1);
    }
}

proof fn lemma_escape_bounds(s: Seq<char>, i: int)
    requires
        0 <= i <= s.len(),
    ensures
        i <= escape_end(s, i) <= s.len(),
    decreases s.len() - i,
{
    if i < s.len() && !ends_escape(s[i]) {
        lemma_escape_bounds(s, i + 1);
    }
}

proof fn lemma_free_shift(a: Seq<char>, b: Seq<char>, i: int)
    requires
        0 <= i <= b.len(),
    ensures
        ansi_free(a + b, a.len() + i) == ansi_free(b, i),
    decreases b.len() - i,
{
    if i < b.len() {
        let s = a + b;
        let k = a.len() + i;
        assert(s[k] == b[i]);
        if i + 1 < b.len() {
            assert(s[k + 1] == b[i + 1]);
        }
        if b[i] == '\u{1b}' {
            if i + 1 < b.len() && b[i + 1] == '[' {
                lemma_escape_shift(a, b, i + 2);
                lemma_escape_bounds(b, i + 2);
                let e = escape_end(b, i + 2);
                if i < e < b.len() {
                    lemma_free_shift(a, b, e);
                }
            } else if i + 2 < b.len() {
                lemma_free_shift(a, b, i + 2);
            }
        } else {
            lemma_free_shift(a, b, i + 1);
        }
    }
}

proof fn lemma_plain_stays(plain: Seq<char>, rest: Seq<char>)
    requires
        !plain.contains('\u{1b}'),
    ensures
        ansi_free(plain + rest, 0) == plain + ansi_free(rest, 0),
    decreases plain.len(),
{
    if plain.len() == 0 {
        assert(plain + rest =~= rest);
        assert(plain + ansi_free(rest, 0) =~= ansi_free(rest, 0));
    } else {
        let p = plain.subrange(1, plain.len() as int);
        assert forall|i: int| 0 <= i < p.len() implies p[i] != '\u{1b}' by {
            assert(plain.contains(plain[i + 1]));
        }
        assert(plain.contains(plain[0]));
        lemma_plain_stays(p, rest);
        let s = plain + rest;
        assert(s =~= seq![plain[0]] + (p + rest));
        assert(s[0] == plain[0]);
        lemma_free_shift(seq![plain[0]], p + rest, 0);
        assert(seq![plain[0]] + (p + ansi_free(rest, 0)) =~= plain + ansi_free(rest, 0));
    }
}

/// Law: control sequences and null characters do not matter for a comparison.
pub proof fn law_normal_text(
    plain: Seq<char>,
    params: Seq<char>,
    end: char,
    rest: Seq<char>,
)
    requires
        !plain.contains('\u{1b}'),
        forall|i: int|
            0 <= i < params.len() ==> !('a' <= #[trigger] params[i] <= 'z') && !('A' <= params[i]
                <= 'Z') && params[i] != '~',
        'a' <= end <= 'z' || 'A' <= end <= 'Z' || end == '~',
    ensures
        normal_text(plain + (seq!['\u{1b}', '['] + params + seq![end] + rest)) == normal_text(
            plain + rest,
        ),
        normal_text(plain + (seq!['\0'] + rest)) == normal_text(plain + rest),
{
    let esc = seq!['\u{1b}', '['] + params + seq![end] + rest;
    law_escapes_are_removed(plain, params, end, rest);
    law_escapes_are_removed(plain, params, end, esc);
    law_escapes_are_removed(plain, params, end, seq!['\0'] + rest);
    let zero = seq!['\0'];
    assert(!zero.contains('\u{1b}')) by {
        assert(zero[0] == '\0');
    }
    lemma_plain_stays(zero, rest);
    let free = ansi_free(rest, 0);
    assert(plain + (zero + free) =~= plain + zero + free);
    crate::text::law_without(plain, free, '\0');
}

/// Law: a connection is real where every two cycles are alike enough, and only then is
/// there a reference; the relay works where they are not all different, and only a
/// hardware reset can show it.
pub proof fn law_evaluating_cycles(
    c: ConnectionLearner,
    cycles: Vec<LearnCycle>,
    method: LearnMethod,
    scores: &[u32],
    r: LearnResult,
)
    requires
        call_ensures(ConnectionLearner::evaluate, (&c, cycles, method, scores), r),
        cycles@.len() >= 2,
        c.config.similarity_threshold <= 1_000_000,
        c.config.relay_broken_threshold <= 1_000_000,
    ensures
        r.connected <==> forall|i: int|
            0 <= i < scores@.len() ==> #[trigger] scores@[i] >= c.config.similarity_threshold,
        r.relay_verified <==> method == LearnMethod::HardwareReset && forall|i: int|
            0 <= i < scores@.len() ==> #[trigger] scores@[i] >= c.config.relay_broken_threshold,
        r.reference_log is Some <==> r.connected,
        r.error is None <==> r.connected,
        forall|i: int| 0 <= i < scores@.len() ==> r.best_similarity >= #[trigger] scores@[i],
        r.cycles@ == cycles@ && r.method == method,
{
    law_every_pair_counts(scores@, c.config.similarity_threshold);
    law_every_pair_counts(scores@, c.config.relay_broken_threshold);
    assert forall|i: int| 0 <= i < scores@.len() implies r.best_similarity >= #[trigger] scores@[i] by {
        law_highest(scores@, i);
    }
}

/// Law: against a reference, every cycle must be like it; a relay is not judged.
pub proof fn law_evaluating_against_a_reference(
    c: ConnectionLearner,
    cycles: Vec<LearnCycle>,
    scores: &[u32],
    r: LearnResult,
)
    requires
        call_ensures(ConnectionLearner::evaluate_with_reference, (&c, cycles, scores), r),
        c.config.similarity_threshold <= 1_000_000,
    ensures
        r.connected <==> forall|i: int|
            0 <= i < scores@.len() ==> #[trigger] scores@[i] >= c.config.similarity_threshold,
        !r.relay_verified && r.method == LearnMethod::SoftwareReboot,
        r.error is None <==> r.connected,
        r.reference_log is Some <==> r.connected,
{
    law_every_pair_counts(scores@, c.config.similarity_threshold);
}

/// Law: two empty logs are alike, an empty one is like no other.
pub proof fn law_empty_logs(a: &str, b: &str, r: Option<u32>)
    requires
        call_ensures(trivial_similarity, (a, b), r),
    ensures
        r == Some(1_000_000u32) <==> a@.len() == 0 && b@.len() == 0,
        r == Some(0u32) <==> (a@.len() == 0) != (b@.len() == 0),
        r is None <==> a@.len() > 0 && b@.len() > 0,
{
}

/// Law: an escape before any other character is dropped with that character.
pub proof fn law_short_escapes_are_removed(c: char, rest: Seq<char>)
    requires
        c != '[',
    ensures
        ansi_free(seq!['\u{1b}', c] + rest, 0) == ansi_free(rest, 0),
        ansi_free(seq!['\u{1b}'], 0) == Seq::<char>::empty(),
{
    let head = seq!['\u{1b}', c];
    let s = head + rest;
    assert(s[0] == '\u{1b}' && s[1] == c);
    lemma_free_shift(head, rest, 0);
    if rest.len() == 0 {
        assert(ansi_free(rest, 0) =~= Seq::<char>::empty());
    }
    let one = seq!['\u{1b}'];
    assert(one[0] == '\u{1b}');
}

} // verus!
