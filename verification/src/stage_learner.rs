//! Learning boot stages from a reference log.
//!
//! Each stage has anchor phrases. Every line of the reference log that holds one
//! becomes a fingerprint of its stage. A new line belongs to the stage of the
//! fingerprint that it resembles most, by the Jaccard index of the sets of
//! three-byte windows. The index is kept as an exact fraction.

use crate::text::{contains_text, eq_text, lines, lines_of, occurs, texts, trim, trim_text};
use std::collections::HashSet;
use vstd::prelude::*;
use vstd::string::*;
use vstd::utf8::encode_utf8;

verus! {

// ── Similarity ──────────────────────────────────────────────────────────────

/// The three bytes as one number.
pub open spec fn gram(a: u8, b: u8, c: u8) -> u64 {
    (a as int * 65536 + b as int * 256 + c as int) as u64
}

/// The three-byte windows of a byte string.
pub open spec fn grams(s: Seq<u8>) -> Seq<u64> {
    Seq::new(
        if s.len() < 3 {
            0
        } else {
            (s.len() - 2) as nat
        },
        |i: int| gram(s[i], s[i + 1], s[i + 2]),
    )
}

/// The three-byte windows of a text.
pub fn compute_3gram_hashes(s: &str) -> (r: Vec<u64>)
    ensures
        r@ == grams(encode_utf8(s@)),
{
    let b = s.as_bytes();
    let mut r: Vec<u64> = Vec::new();
    if b.len() >= 3 {
        let last: usize = b.len() - 2;
        let mut i: usize = 0;
        while i < last
            invariant
                b@ == encode_utf8(s@),
                last == b@.len() - 2,
                i <= last,
                r@ == grams(b@).subrange(0, i as int),
            decreases last - i,
        {
            let x: u8 = b[i];
            let y: u8 = b[i + 1];
            let z: u8 = b[i + 2];
            let g: u64 = ((x as u64) << 16) | ((y as u64) << 8) | (z as u64);
            assert(((x as u64) << 16) | ((y as u64) << 8) | (z as u64) == x as u64 * 65536 + y as u64
                * 256 + z as u64) by (bit_vector);
            r.push(g);
            assert(grams(b@).subrange(0, i + 1) =~= grams(b@).subrange(0, i as int).push(
                grams(b@)[i as int],
            ));
            i += 1;
        }
    }
    assert(r@ =~= grams(b@));
    r
}

/// The Jaccard index of two lists of windows as (common, all); nothing in
/// common where a list is empty.
pub open spec fn score(a: Seq<u64>, b: Seq<u64>) -> (nat, nat) {
    if a.len() == 0 || b.len() == 0 {
        (0, 1)
    } else {
        (a.to_set().intersect(b.to_set()).len(), a.to_set().union(b.to_set()).len())
    }
}

/// The fraction `x` is greater than `y`.
pub open spec fn better(x: (nat, nat), y: (nat, nat)) -> bool {
    x.0 * y.1 > y.0 * x.1
}

/// The fraction is at least `least` millionths.
pub open spec fn reaches(x: (nat, nat), least: nat) -> bool {
    x.0 * 1_000_000 >= least * x.1
}

/// Every window is a number of three bytes.
pub open spec fn are_grams(a: Seq<u64>) -> bool {
    forall|i: int| 0 <= i < a.len() ==> #[trigger] a[i] < 0x100_0000
}

/// Windows of bytes are numbers of three bytes.
pub proof fn lemma_grams_small(s: Seq<u8>)
    ensures
        are_grams(grams(s)),
{
    assert forall|i: int| 0 <= i < grams(s).len() implies #[trigger] grams(s)[i] < 0x100_0000 by {
        let x = s[i] as int * 65536 + s[i + 1] as int * 256 + s[i + 2] as int;
        assert(0 <= x < 0x100_0000);
        assert(grams(s)[i] == x as u64);
    }
}

/// There are no more numbers below `n` than `n`.
proof fn lemma_bounded_set(s: Set<u64>, n: nat)
    requires
        s.finite(),
        forall|x: u64| s.contains(x) ==> x < n,
    ensures
        s.len() <= n,
    decreases n,
{
    broadcast use vstd::set::group_set_axioms;

    if n == 0 {
        if s.len() > 0 {
            assert(s.contains(s.choose()));
        }
    } else if n - 1 <= u64::MAX {
        let t = s.remove((n - 1) as u64);
        assert forall|x: u64| t.contains(x) implies x < n - 1 by {
            assert(x != (n - 1) as u64);
        }
        lemma_bounded_set(t, (n - 1) as nat);
    } else {
        lemma_bounded_set(s, (n - 1) as nat);
    }
}

/// A list of three-byte windows.
struct GramList {
    list: Vec<u64>,
}

impl GramList {
    #[verifier::type_invariant]
    spec fn small(self) -> bool {
        are_grams(self.list@)
    }

    /// The windows of a text.
    fn of(s: &str) -> (r: Self)
        ensures
            r.list@ == grams(encode_utf8(s@)),
    {
        let list = compute_3gram_hashes(s);
        proof {
            lemma_grams_small(encode_utf8(s@));
        }
        GramList { list }
    }
}

/// The set of the listed windows.
fn gram_set(a: &[u64]) -> (r: HashSet<u64>)
    ensures
        r@ == a@.to_set(),
{
    broadcast use vstd::std_specs::hash::group_hash_axioms;

    let mut r: HashSet<u64> = HashSet::new();
    let mut i: usize = 0;
    while i < a.len()
        invariant
            i <= a@.len(),
            forall|g: u64| r@.contains(g) <==> exists|j: int| 0 <= j < i && a@[j] == g,
        decreases a@.len() - i,
    {
        let ghost before = r@;
        r.insert(a[i]);
        assert forall|g: u64| r@.contains(g) <==> exists|j: int| 0 <= j < i + 1 && a@[j] == g by {
            if before.contains(g) {
                let j = choose|j: int| 0 <= j < i && a@[j] == g;
                assert(0 <= j < i + 1 && a@[j] == g);
            }
            if g == a@[i as int] {
                assert(0 <= i < i + 1 && a@[i as int] == g);
            }
        }
        i += 1;
    }
    assert forall|g: u64| r@.contains(g) <==> a@.to_set().contains(g) by {
        assert(a@.to_set().contains(g) <==> a@.contains(g));
    }
    assert(r@ =~= a@.to_set());
    r
}

/// Lists that are not too long, or lists of windows, hold no more different
/// numbers than can be counted.
proof fn lemma_countable(a: Seq<u64>, b: Seq<u64>)
    requires
        a.len() + b.len() <= u32::MAX || (are_grams(a) && are_grams(b)),
    ensures
        a.to_set().finite(),
        b.to_set().finite(),
        a.to_set().union(b.to_set()).len() <= u32::MAX,
{
    broadcast use {vstd::set::group_set_axioms, vstd::seq_lib::seq_to_set_is_finite};

    let u = a.to_set().union(b.to_set());
    if a.len() + b.len() <= u32::MAX {
        a.lemma_cardinality_of_set();
        b.lemma_cardinality_of_set();
        vstd::set_lib::lemma_len_union(a.to_set(), b.to_set());
    } else {
        assert forall|x: u64| u.contains(x) implies x < 0x100_0000 by {
            assert(a.contains(x) || b.contains(x));
        }
        lemma_bounded_set(u, 0x100_0000);
    }
}

/// The Jaccard index of two lists of numbers as (common, all).
pub fn jaccard_similarity(a_grams: &[u64], b_grams: &[u64]) -> (r: (u32, u32))
    requires
        a_grams@.len() + b_grams@.len() <= u32::MAX || (are_grams(a_grams@) && are_grams(
            b_grams@,
        )),
    ensures
        (r.0 as nat, r.1 as nat) == score(a_grams@, b_grams@),
        r.1 > 0,
{
    broadcast use {
        vstd::std_specs::hash::group_hash_axioms,
        vstd::set::group_set_axioms,
        vstd::seq_lib::seq_to_set_is_finite,
    };

    if a_grams.len() == 0 || b_grams.len() == 0 {
        return (0, 1);
    }
    let b_set = gram_set(b_grams);
    let ghost a = a_grams@.to_set();
    let ghost b = b_grams@.to_set();
    proof {
        lemma_countable(a_grams@, b_grams@);
        vstd::set_lib::lemma_len_subset(b, a.union(b));
    }
    let mut seen: HashSet<u64> = HashSet::new();
    let mut common: u32 = 0;
    let mut extra: u32 = 0;
    let mut i: usize = 0;
    assert(Set::<u64>::empty().intersect(b) =~= Set::<u64>::empty());
    assert(Set::<u64>::empty().union(b) =~= b);
    while i < a_grams.len()
        invariant
            i <= a_grams@.len(),
            b == b_grams@.to_set(),
            b_set@ == b,
            b.finite(),
            seen@.finite(),
            forall|g: u64| seen@.contains(g) <==> exists|j: int| 0 <= j < i && a_grams@[j] == g,
            a == a_grams@.to_set(),
            a.finite(),
            a.union(b).len() <= u32::MAX,
            common == seen@.intersect(b).len(),
            seen@.union(b).len() == b.len() + extra,
        decreases a_grams@.len() - i,
    {
        let ghost before = seen@;
        let g: u64 = a_grams[i];
        let fresh: bool = seen.insert(g);
        assert forall|x: u64| seen@.contains(x) <==> exists|j: int|
            0 <= j < i + 1 && a_grams@[j] == x by {
            if before.contains(x) {
                let j = choose|j: int| 0 <= j < i && a_grams@[j] == x;
                assert(0 <= j < i + 1 && a_grams@[j] == x);
            }
            if x == a_grams@[i as int] {
                assert(0 <= i < i + 1 && a_grams@[i as int] == x);
            }
        }
        proof {
            assert forall|x: u64| seen@.contains(x) implies a.contains(x) by {
                assert(a_grams@.contains(x));
            }
            vstd::set_lib::lemma_len_subset(seen@.intersect(b), a.union(b));
            vstd::set_lib::lemma_len_subset(seen@.union(b), a.union(b));
        }
        if fresh {
            if b_set.contains(&g) {
                assert(seen@.intersect(b) =~= before.intersect(b).insert(g));
                assert(!before.intersect(b).contains(g));
                assert(seen@.union(b) =~= before.union(b));
                common += 1;
            } else {
                assert(seen@.intersect(b) =~= before.intersect(b));
                assert(seen@.union(b) =~= before.union(b).insert(g));
                assert(!before.union(b).contains(g));
                extra += 1;
            }
        } else {
            assert(seen@ =~= before);
        }
        i += 1;
    }
    assert(seen@ =~= a_grams@.to_set());
    proof {
        assert(b_grams@.contains(b_grams@[0]));
        assert(b.contains(b_grams@[0]));
        if b.len() == 0 {
            b.lemma_len0_is_empty();
        }
    }
    let all: u32 = b_set.len() as u32 + extra;
    (common, all)
}

// ── Stages ──────────────────────────────────────────────────────────────────

/// The name of a learned stage, in boot order; the last is the crash stage.
pub open spec fn learned_name(k: int) -> Seq<char> {
    if k == 0 {
        "ddr"@
    } else if k == 1 {
        "spl"@
    } else if k == 2 {
        "bl31"@
    } else if k == 3 {
        "optee"@
    } else if k == 4 {
        "uboot"@
    } else if k == 5 {
        "kernel"@
    } else if k == 6 {
        "init"@
    } else if k == 7 {
        "shell"@
    } else if k == 8 {
        "booted"@
    } else {
        "crash"@
    }
}

/// A line holds an anchor phrase of the stage.
pub open spec fn anchored(k: int, line: Seq<char>) -> bool {
    if k == 0 {
        occurs(line, "DDR "@) || occurs(line, "DDR Version"@) || occurs(line, "DDR Init"@)
    } else if k == 1 {
        occurs(line, "U-Boot SPL"@) || occurs(line, "SPL board init"@)
    } else if k == 2 {
        occurs(line, "BL31:"@) || occurs(line, "ARM Trusted Firmware"@)
    } else if k == 3 {
        occurs(line, "OP-TEE"@) || occurs(line, "I/TC:"@)
    } else if k == 4 {
        occurs(line, "U-Boot 20"@) || occurs(line, "U-Boot 202"@)
    } else if k == 5 {
        occurs(line, "Linux version"@) || occurs(line, "Booting Linux"@) || occurs(
            line,
            "Starting kernel"@,
        )
    } else if k == 6 {
        occurs(line, "init: "@) || occurs(line, "init:]"@)
    } else if k == 7 {
        occurs(line, "console:/"@) || occurs(line, "login:"@) || occurs(line, "# $"@) || occurs(
            line,
            "$ $"@,
        )
    } else if k == 8 {
        occurs(line, "boot_completed"@) || occurs(line, "Boot completed"@)
    } else {
        occurs(line, "Kernel panic"@) || occurs(line, "BUG:"@) || occurs(line, "Oops:"@) || occurs(
            line,
            "Unable to handle kernel"@,
        ) || occurs(line, "Segmentation fault"@) || occurs(line, "---[ end trace"@) || occurs(
            line,
            "panic - not syncing"@,
        )
    }
}

/// The name of a learned stage.
fn learned_stage(k: usize) -> (r: &'static str)
    ensures
        r@ == learned_name(k as int),
{
    match k {
        0 => "ddr",
        1 => "spl",
        2 => "bl31",
        3 => "optee",
        4 => "uboot",
        5 => "kernel",
        6 => "init",
        7 => "shell",
        8 => "booted",
        _ => "crash",
    }
}

/// Whether a line holds an anchor phrase of the stage.
fn is_anchored(k: usize, line: &str) -> (r: bool)
    ensures
        r == anchored(k as int, line@),
{
    match k {
        0 => contains_text(line, "DDR ") || contains_text(line, "DDR Version") || contains_text(
            line,
            "DDR Init",
        ),
        1 => contains_text(line, "U-Boot SPL") || contains_text(line, "SPL board init"),
        2 => contains_text(line, "BL31:") || contains_text(line, "ARM Trusted Firmware"),
        3 => contains_text(line, "OP-TEE") || contains_text(line, "I/TC:"),
        4 => contains_text(line, "U-Boot 20") || contains_text(line, "U-Boot 202"),
        5 => contains_text(line, "Linux version") || contains_text(line, "Booting Linux")
            || contains_text(line, "Starting kernel"),
        6 => contains_text(line, "init: ") || contains_text(line, "init:]"),
        7 => contains_text(line, "console:/") || contains_text(line, "login:") || contains_text(
            line,
            "# $",
        ) || contains_text(line, "$ $"),
        8 => contains_text(line, "boot_completed") || contains_text(line, "Boot completed"),
        _ => contains_text(line, "Kernel panic") || contains_text(line, "BUG:") || contains_text(
            line,
            "Oops:",
        ) || contains_text(line, "Unable to handle kernel") || contains_text(
            line,
            "Segmentation fault",
        ) || contains_text(line, "---[ end trace") || contains_text(line, "panic - not syncing"),
    }
}

/// The place of a stage in boot order; 0 for an unknown name, and a crash
/// stands behind all.
pub open spec fn stage_rank(name: Seq<char>) -> nat {
    if name == "spl"@ {
        1
    } else if name == "bl31"@ {
        2
    } else if name == "optee"@ {
        3
    } else if name == "uboot"@ {
        4
    } else if name == "kernel"@ {
        5
    } else if name == "init"@ {
        6
    } else if name == "shell"@ {
        7
    } else if name == "booted"@ {
        8
    } else if name == "crash"@ {
        999
    } else {
        0
    }
}

/// The least likeness of a stage, in millionths, unless another is configured.
pub const STAGE_THRESHOLD: u32 = 450_000;

/// The least likeness of a crash, in millionths, unless another is configured.
pub const CRASH_THRESHOLD: u32 = 500_000;

/// The place of a stage in boot order.
fn rank_of(name: &str) -> (r: u32)
    ensures
        r == stage_rank(name@),
        r <= 999,
{
    if eq_text(name, "spl") {
        1
    } else if eq_text(name, "bl31") {
        2
    } else if eq_text(name, "optee") {
        3
    } else if eq_text(name, "uboot") {
        4
    } else if eq_text(name, "kernel") {
        5
    } else if eq_text(name, "init") {
        6
    } else if eq_text(name, "shell") {
        7
    } else if eq_text(name, "booted") {
        8
    } else if eq_text(name, "crash") {
        999
    } else {
        0
    }
}

/// A line of the reference log that marks a stage, with its neighbours.
pub struct StageFingerprint {
    pub stage: String,
    pub anchor: String,
    pub prefix: String,
    pub suffix: String,
    /// The three-byte windows of the anchor.
    anchor_grams: GramList,
}

/// The model of a `StageFingerprint`.
pub struct PrintView {
    pub stage: Seq<char>,
    pub anchor: Seq<char>,
    pub prefix: Seq<char>,
    pub suffix: Seq<char>,
    pub grams: Seq<u64>,
}

impl View for StageFingerprint {
    type V = PrintView;

    closed spec fn view(&self) -> PrintView {
        PrintView {
            stage: self.stage@,
            anchor: self.anchor@,
            prefix: self.prefix@,
            suffix: self.suffix@,
            grams: self.anchor_grams.list@,
        }
    }
}

/// The models of a list of fingerprints.
pub open spec fn prints(v: Seq<StageFingerprint>) -> Seq<PrintView> {
    v.map_values(|p: StageFingerprint| p@)
}

/// The line at `i` without surrounding white space, empty outside the log.
pub open spec fn line_at(all: Seq<Seq<char>>, i: int) -> Seq<char> {
    if 0 <= i < all.len() {
        trim(all[i])
    } else {
        Seq::empty()
    }
}

/// The line at `i` marks the stage.
pub open spec fn marks(all: Seq<Seq<char>>, k: int, i: int) -> bool {
    line_at(all, i).len() > 0 && anchored(k, line_at(all, i))
}

/// The fingerprint of the line at `i` for the stage.
pub open spec fn print_at(all: Seq<Seq<char>>, k: int, i: int) -> PrintView {
    PrintView {
        stage: learned_name(k),
        anchor: line_at(all, i),
        prefix: line_at(all, i - 1),
        suffix: line_at(all, i + 1),
        grams: grams(encode_utf8(line_at(all, i))),
    }
}

/// The fingerprints of one stage among the first `n` lines.
pub open spec fn stage_prints(all: Seq<Seq<char>>, k: int, n: nat) -> Seq<PrintView>
    decreases n,
{
    if n == 0 {
        Seq::empty()
    } else if marks(all, k, n - 1) {
        stage_prints(all, k, (n - 1) as nat).push(print_at(all, k, n - 1))
    } else {
        stage_prints(all, k, (n - 1) as nat)
    }
}

/// The fingerprints of the first `m` stages, one stage after the other.
pub open spec fn all_prints(all: Seq<Seq<char>>, m: nat) -> Seq<PrintView>
    decreases m,
{
    if m == 0 {
        Seq::empty()
    } else {
        all_prints(all, (m - 1) as nat) + stage_prints(all, m - 1, all.len())
    }
}

/// The model of a `StageLearner`.
pub struct LearnerView {
    pub prints: Seq<PrintView>,
    pub reference_text: Seq<char>,
    pub last_stage: Option<Seq<char>>,
    pub crashed: bool,
    /// The least likeness of a stage and of a crash, in millionths.
    pub stage_threshold: nat,
    pub crash_threshold: nat,
}

/// The fingerprint among the first `k` that is most alike, the first of equals,
/// if any is alike at all.
pub open spec fn best_print(ps: Seq<PrintView>, line: Seq<u64>, k: int) -> Option<int>
    decreases k,
{
    if k <= 0 {
        None
    } else {
        let s = score(line, ps[k - 1].grams);
        match best_print(ps, line, k - 1) {
            None => if better(s, (0, 1)) {
                Some(k - 1)
            } else {
                None
            },
            Some(i) => if better(s, score(line, ps[i].grams)) {
                Some(k - 1)
            } else {
                Some(i)
            },
        }
    }
}

impl LearnerView {
    /// The learner at the start of a boot cycle.
    pub open spec fn reset(self) -> LearnerView {
        LearnerView { last_stage: None, crashed: false, ..self }
    }

    /// The least likeness that a stage asks for.
    pub open spec fn threshold(self, stage: Seq<char>) -> nat {
        if stage == "crash"@ {
            self.crash_threshold
        } else {
            self.stage_threshold
        }
    }

    /// The stage of the line, if it is alike enough and does not fall back by
    /// more than one stage; a crash is taken at any time.
    pub open spec fn stage_of(self, line: Seq<char>) -> Option<Seq<char>> {
        let t = trim(line);
        let g = grams(encode_utf8(t));
        if t.len() == 0 {
            None
        } else {
            match best_print(self.prints, g, self.prints.len() as int) {
                None => None,
                Some(i) => {
                    let stage = self.prints[i].stage;
                    if !reaches(score(g, self.prints[i].grams), self.threshold(stage)) {
                        None
                    } else if stage == "crash"@ {
                        Some(stage)
                    } else if !self.crashed && self.last_stage is Some && stage_rank(stage) + 1
                        < stage_rank(self.last_stage->0) {
                        None
                    } else {
                        Some(stage)
                    }
                },
            }
        }
    }

    /// The learner after classifying the line.
    pub open spec fn classify(self, line: Seq<char>) -> LearnerView {
        match self.stage_of(line) {
            None => self,
            Some(stage) => LearnerView {
                last_stage: Some(stage),
                crashed: self.crashed || stage == "crash"@,
                ..self
            },
        }
    }
}

/// Recognises boot stages by likeness to a reference log.
pub struct StageLearner {
    pub fingerprints: Vec<StageFingerprint>,
    reference_text: String,
    last_stage: Option<String>,
    crashed: bool,
    stage_threshold: u32,
    crash_threshold: u32,
}

impl View for StageLearner {
    type V = LearnerView;

    closed spec fn view(&self) -> LearnerView {
        LearnerView {
            prints: prints(self.fingerprints@),
            reference_text: self.reference_text@,
            last_stage: crate::text::text_option(self.last_stage),
            crashed: self.crashed,
            stage_threshold: self.stage_threshold as nat,
            crash_threshold: self.crash_threshold as nat,
        }
    }
}

/// What is learned from the text of a reference log.
pub open spec fn learned_from(text: Seq<char>, stage_threshold: nat, crash_threshold: nat) -> Result<
    LearnerView,
    Seq<char>,
> {
    if lines(text).len() < 10 {
        Err("Too few lines for learning"@)
    } else if all_prints(lines(text), 10).len() == 0 {
        Err("No stage fingerprints extracted from reference"@)
    } else {
        Ok(
            LearnerView {
                prints: all_prints(lines(text), 10),
                reference_text: text,
                last_stage: None,
                crashed: false,
                stage_threshold,
                crash_threshold,
            },
        )
    }
}

impl StageLearner {
    /// Learns from the text of a reference log. Refused where the log has fewer
    /// than ten lines or no line marks a stage.
    pub fn from_reference_text(text: &str) -> (r: Result<Self, String>)
        ensures
            match r {
                Ok(l) => learned_from(text@, STAGE_THRESHOLD as nat, CRASH_THRESHOLD as nat) == Ok::<
                    LearnerView,
                    Seq<char>,
                >(l@),
                Err(e) => learned_from(text@, STAGE_THRESHOLD as nat, CRASH_THRESHOLD as nat) == Err::<
                    LearnerView,
                    Seq<char>,
                >(e@),
            },
    {
        Self::with_thresholds(text, STAGE_THRESHOLD, CRASH_THRESHOLD)
    }

    /// Learns from the text of a reference log, with the least likeness of a stage
    /// and of a crash in millionths.
    pub fn with_thresholds(text: &str, stage_threshold: u32, crash_threshold: u32) -> (r: Result<
        Self,
        String,
    >)
        ensures
            match r {
                Ok(l) => learned_from(text@, stage_threshold as nat, crash_threshold as nat) == Ok::<
                    LearnerView,
                    Seq<char>,
                >(l@),
                Err(e) => learned_from(text@, stage_threshold as nat, crash_threshold as nat) == Err::<
                    LearnerView,
                    Seq<char>,
                >(e@),
            },
    {
        let raw = lines_of(text);
        let ghost all = lines(text@);
        assert(texts(raw@).len() == raw@.len());
        if raw.len() < 10 {
            return Err("Too few lines for learning".to_owned());
        }
        let trimmed = trim_lines(&raw);
        let mut found: Vec<StageFingerprint> = Vec::new();
        assert(prints(found@) =~= Seq::<PrintView>::empty());
        let mut k: usize = 0;
        while k < 10
            invariant
                k <= 10,
                trimmed@.len() == all.len(),
                forall|i: int| 0 <= i < all.len() ==> (#[trigger] trimmed@[i])@ == line_at(all, i),
                prints(found@) == all_prints(all, k as nat),
            decreases 10 - k,
        {
            collect_stage(&trimmed, k, &mut found, Ghost(all));
            k += 1;
        }
        assert(prints(found@).len() == found@.len());
        if found.len() == 0 {
            return Err("No stage fingerprints extracted from reference".to_owned());
        }
        Ok(
            StageLearner {
                fingerprints: found,
                reference_text: text.to_owned(),
                last_stage: None,
                crashed: false,
                stage_threshold,
                crash_threshold,
            },
        )
    }

    /// The stage of a line of output, and the learner's place in the boot moved
    /// on to it.
    pub fn classify_line(&mut self, line: &str) -> (r: Option<String>)
        ensures
            final(self)@ == old(self)@.classify(line@),
            crate::text::text_option(r) == old(self)@.stage_of(line@),
    {
        let t = trim_text(line);
        if t.as_str().is_empty() {
            return None;
        }
        let g = compute_3gram_hashes(&t);
        proof {
            lemma_grams_small(encode_utf8(t@));
        }
        let best = self.best_match(&g);
        let (i, s) = match best {
            None => {
                return None;
            },
            Some(b) => b,
        };
        let stage = self.fingerprints[i].stage.clone();
        assert(stage@ == self@.prints[i as int].stage);
        let need: u32 = if eq_text(&stage, "crash") {
            self.crash_threshold
        } else {
            self.stage_threshold
        };
        let have: u64 = s.0 as u64 * 1_000_000;
        assert(0 <= need * s.1 <= u32::MAX * u32::MAX) by (nonlinear_arith)
            requires
                0 <= need <= u32::MAX,
                0 <= s.1 <= u32::MAX,
        ;
        let least: u64 = need as u64 * s.1 as u64;
        if have < least {
            return None;
        }
        if eq_text(&stage, "crash") {
            self.crashed = true;
            self.last_stage = Some("crash".to_owned());
            return Some("crash".to_owned());
        }
        let cur: u32 = rank_of(&stage);
        if let Some(last) = &self.last_stage {
            let last_rank: u32 = rank_of(last);
            if cur + 1 < last_rank && !self.crashed {
                return None;
            }
        }
        self.last_stage = Some(stage.clone());
        Some(stage)
    }

    /// The fingerprint most alike, with its likeness.
    fn best_match(&self, g: &[u64]) -> (r: Option<(usize, (u32, u32))>)
        requires
            are_grams(g@),
        ensures
            match r {
                None => best_print(self@.prints, g@, self@.prints.len() as int) is None,
                Some(b) => b.0 < self.fingerprints@.len() && best_print(
                    self@.prints,
                    g@,
                    self@.prints.len() as int,
                ) == Some(b.0 as int) && (b.1.0 as nat, b.1.1 as nat) == score(
                    g@,
                    self@.prints[b.0 as int].grams,
                ),
            },
    {
        let mut best: Option<(usize, (u32, u32))> = None;
        let mut i: usize = 0;
        while i < self.fingerprints.len()
            invariant
                i <= self.fingerprints@.len(),
                are_grams(g@),
                self@.prints == prints(self.fingerprints@),
                match best {
                    None => best_print(self@.prints, g@, i as int) is None,
                    Some(b) => b.0 < i && best_print(self@.prints, g@, i as int) == Some(
                        b.0 as int,
                    ) && (b.1.0 as nat, b.1.1 as nat) == score(g@, self@.prints[b.0 as int].grams),
                },
            decreases self.fingerprints@.len() - i,
        {
            let anchor = &self.fingerprints[i].anchor_grams;
            proof {
                use_type_invariant(anchor);
            }
            let s = jaccard_similarity(g, &anchor.list);
            assert(self@.prints[i as int].grams == anchor.list@);
            let better_one: bool = match &best {
                None => s.0 > 0,
                Some(b) => fraction_greater(s, b.1),
            };
            if better_one {
                best = Some((i, s));
            }
            i += 1;
        }
        best
    }

    /// Starts a new boot cycle.
    pub fn reset(&mut self)
        ensures
            final(self)@ == old(self)@.reset(),
    {
        self.last_stage = None;
        self.crashed = false;
    }

    /// The text of the reference log.
    pub fn reference_text(&self) -> (r: &str)
        ensures
            r@ == self@.reference_text,
    {
        self.reference_text.as_str()
    }

    /// Whether recent output and the reference log are long enough to be held
    /// against each other.
    pub fn comparable(&self, buffer: &str) -> (r: bool)
        ensures
            r == (encode_utf8(buffer@).len() >= 50 && encode_utf8(self@.reference_text).len() >= 50),
    {
        buffer.as_bytes().len() >= 50 && self.reference_text.as_str().as_bytes().len() >= 50
    }

    /// The stage and anchor of each fingerprint.
    pub fn export_fingerprints(&self) -> (r: Vec<(String, String)>)
        ensures
            r@.len() == self@.prints.len(),
            forall|i: int|
                0 <= i < r@.len() ==> (#[trigger] r@[i]).0@ == self@.prints[i].stage && r@[i].1@
                    == self@.prints[i].anchor,
    {
        let mut r: Vec<(String, String)> = Vec::new();
        let mut i: usize = 0;
        while i < self.fingerprints.len()
            invariant
                i <= self.fingerprints@.len(),
                r@.len() == i,
                self@.prints == prints(self.fingerprints@),
                forall|j: int|
                    0 <= j < i ==> (#[trigger] r@[j]).0@ == self@.prints[j].stage && r@[j].1@
                        == self@.prints[j].anchor,
            decreases self.fingerprints@.len() - i,
        {
            r.push((self.fingerprints[i].stage.clone(), self.fingerprints[i].anchor.clone()));
            i += 1;
        }
        r
    }
}

/// Whether the fraction `x` is greater than `y`.
fn fraction_greater(x: (u32, u32), y: (u32, u32)) -> (r: bool)
    ensures
        r == better((x.0 as nat, x.1 as nat), (y.0 as nat, y.1 as nat)),
{
    assert(0 <= x.0 * y.1 <= u32::MAX * u32::MAX && 0 <= y.0 * x.1 <= u32::MAX * u32::MAX)
        by (nonlinear_arith)
        requires
            0 <= x.0 <= u32::MAX,
            0 <= y.1 <= u32::MAX,
            0 <= y.0 <= u32::MAX,
            0 <= x.1 <= u32::MAX,
    ;
    x.0 as u64 * y.1 as u64 > y.0 as u64 * x.1 as u64
}

/// The lines without surrounding white space.
fn trim_lines(raw: &Vec<String>) -> (r: Vec<String>)
    ensures
        r@.len() == raw@.len(),
        forall|i: int|
            0 <= i < r@.len() ==> (#[trigger] r@[i])@ == line_at(texts(raw@), i),
{
    let mut r: Vec<String> = Vec::new();
    let mut i: usize = 0;
    while i < raw.len()
        invariant
            i <= raw@.len(),
            r@.len() == i,
            forall|j: int| 0 <= j < i ==> (#[trigger] r@[j])@ == line_at(texts(raw@), j),
        decreases raw@.len() - i,
    {
        r.push(trim_text(&raw[i]));
        i += 1;
    }
    r
}

/// Adds the fingerprints of one stage.
fn collect_stage(
    trimmed: &Vec<String>,
    k: usize,
    found: &mut Vec<StageFingerprint>,
    Ghost(all): Ghost<Seq<Seq<char>>>,
)
    requires
        trimmed@.len() == all.len(),
        forall|i: int| 0 <= i < all.len() ==> (#[trigger] trimmed@[i])@ == line_at(all, i),
        prints(old(found)@) == all_prints(all, k as nat),
        k < 10,
    ensures
        prints(final(found)@) == all_prints(all, (k + 1) as nat),
{
    let ghost before = found@;
    let mut i: usize = 0;
    assert(prints(before) + stage_prints(all, k as int, 0) =~= prints(before));
    while i < trimmed.len()
        invariant
            i <= trimmed@.len(),
            trimmed@.len() == all.len(),
            forall|j: int| 0 <= j < all.len() ==> (#[trigger] trimmed@[j])@ == line_at(all, j),
            prints(found@) == prints(before) + stage_prints(all, k as int, i as nat),
        decreases trimmed@.len() - i,
    {
        let line = &trimmed[i];
        if !line.as_str().is_empty() && is_anchored(k, line) {
            let prefix = if i > 0 {
                trimmed[i - 1].clone()
            } else {
                String::new()
            };
            let suffix = if i + 1 < trimmed.len() {
                trimmed[i + 1].clone()
            } else {
                String::new()
            };
            let p = StageFingerprint {
                stage: learned_stage(k).to_owned(),
                anchor: line.clone(),
                prefix,
                suffix,
                anchor_grams: GramList::of(line),
            };
            assert(p@.prefix =~= line_at(all, i - 1));
            assert(p@.suffix =~= line_at(all, i + 1));
            assert(p@ == print_at(all, k as int, i as int));
            let ghost prior = found@;
            found.push(p);
            assert(prints(found@) =~= prints(prior).push(p@));
            assert(prints(found@) =~= prints(before) + stage_prints(all, k as int, (i + 1) as nat));
        }
        i += 1;
    }
}

// ── Laws ────────────────────────────────────────────────────────────────────

/// Law: the stage chosen is that of a fingerprint that no other is more alike
/// than, the earliest such.
pub proof fn law_best_print_is_first_maximum(ps: Seq<PrintView>, line: Seq<u64>, k: int)
    requires
        0 <= k <= ps.len(),
    ensures
        match best_print(ps, line, k) {
            None => forall|j: int|
                0 <= j < k ==> !better(score(line, #[trigger] ps[j].grams), (0, 1)),
            Some(i) => {
                &&& 0 <= i < k
                &&& better(score(line, ps[i].grams), (0, 1))
                &&& forall|j: int|
                    0 <= j < k ==> !better(
                        score(line, #[trigger] ps[j].grams),
                        score(line, ps[i].grams),
                    )
                &&& forall|j: int|
                    0 <= j < i ==> better(
                        score(line, ps[i].grams),
                        score(line, #[trigger] ps[j].grams),
                    )
            },
        },
    decreases k,
{
    if k > 0 {
        law_best_print_is_first_maximum(ps, line, k - 1);
        let s = score(line, ps[k - 1].grams);
        match best_print(ps, line, k - 1) {
            None => {
                assert forall|j: int| 0 <= j < k - 1 && better(s, (0, 1)) implies better(
                    s,
                    score(line, #[trigger] ps[j].grams),
                ) by {
                    let u = score(line, ps[j].grams);
                    lemma_score_positive(line, ps[j].grams);
                    assert(!better(u, (0, 1)));
                    assert(s.0 * u.1 > u.0 * s.1) by (nonlinear_arith)
                        requires
                            s.0 > 0,
                            u.1 > 0,
                            u.0 == 0,
                    ;
                }
            },
            Some(i) => {
                let t = score(line, ps[i].grams);
                lemma_score_positive(line, ps[k - 1].grams);
                lemma_score_positive(line, ps[i].grams);
                if better(s, t) {
                    assert forall|j: int| 0 <= j < k implies !better(
                        score(line, #[trigger] ps[j].grams),
                        s,
                    ) && (j < k - 1 ==> better(s, score(line, ps[j].grams))) by {
                        let u = score(line, ps[j].grams);
                        lemma_score_positive(line, ps[j].grams);
                        if j < k - 1 {
                            lemma_not_better_transitive(u, t, s);
                        }
                    }
                    assert(s.0 > 0) by (nonlinear_arith)
                        requires
                            s.0 * t.1 > t.0 * s.1,
                            t.0 >= 0,
                            s.1 > 0,
                            s.0 >= 0,
                            t.1 > 0,
                    ;
                }
            },
        }
    }
}

/// A likeness never divides by nothing.
proof fn lemma_score_positive(a: Seq<u64>, b: Seq<u64>)
    ensures
        score(a, b).1 > 0,
{
    broadcast use {vstd::set::group_set_axioms, vstd::seq_lib::seq_to_set_is_finite};

    if a.len() > 0 && b.len() > 0 {
        let u = a.to_set().union(b.to_set());
        assert(a.to_set().contains(a[0]));
        assert(u.contains(a[0]));
        if u.len() == 0 {
            u.lemma_len0_is_empty();
        }
    }
}

/// If `u` is no better than `t` and `s` is better than `t`, then `s` is better
/// than `u`.
proof fn lemma_not_better_transitive(u: (nat, nat), t: (nat, nat), s: (nat, nat))
    by (nonlinear_arith)
    requires
        u.1 > 0,
        t.1 > 0,
        s.1 > 0,
        !better(u, t),
        better(s, t),
    ensures
        !better(u, s),
        better(s, u),
{
    assert(u.0 * t.1 <= t.0 * u.1);
    assert(s.0 * t.1 > t.0 * s.1);
    assert(u.0 * t.1 * s.1 <= t.0 * u.1 * s.1);
    assert(t.0 * s.1 * u.1 <= s.0 * t.1 * u.1);
    assert(u.0 * s.1 * t.1 <= s.0 * u.1 * t.1);
    assert(u.0 * s.1 <= s.0 * u.1);
}

/// Law: apart from a crash, the place in the boot never falls back by more than
/// one stage.
pub proof fn law_no_regression(l: LearnerView, line: Seq<char>)
    requires
        !l.crashed,
        l.last_stage is Some,
        l.stage_of(line) is Some,
        l.stage_of(line)->0 != "crash"@,
    ensures
        stage_rank(l.classify(line).last_stage->0) + 1 >= stage_rank(l.last_stage->0),
{
}

/// Law: classifying after a reset depends on the fingerprints and the thresholds
/// alone.
pub proof fn law_reset_forgets(a: LearnerView, b: LearnerView, line: Seq<char>)
    requires
        a.prints == b.prints,
        a.stage_threshold == b.stage_threshold,
        a.crash_threshold == b.crash_threshold,
    ensures
        a.reset().stage_of(line) == b.reset().stage_of(line),
{
}

/// The fingerprint of a line that marks a stage is among those of the stage.
proof fn lemma_stage_print_found(all: Seq<Seq<char>>, k: int, n: nat, i: int)
    requires
        0 <= i < n,
        marks(all, k, i),
    ensures
        stage_prints(all, k, n).contains(print_at(all, k, i)),
    decreases n,
{
    let p = print_at(all, k, i);
    if i == n - 1 {
        let before = stage_prints(all, k, (n - 1) as nat);
        assert(stage_prints(all, k, n)[before.len() as int] == p);
    } else {
        lemma_stage_print_found(all, k, (n - 1) as nat, i);
        let before = stage_prints(all, k, (n - 1) as nat);
        let j = choose|j: int| 0 <= j < before.len() && before[j] == p;
        assert(stage_prints(all, k, n)[j] == p);
    }
}

/// The fingerprint of a line that marks a stage is among all fingerprints.
proof fn lemma_print_found(all: Seq<Seq<char>>, k: int, m: nat, i: int)
    requires
        0 <= k < m,
        0 <= i < all.len(),
        marks(all, k, i),
    ensures
        all_prints(all, m).contains(print_at(all, k, i)),
    decreases m,
{
    let p = print_at(all, k, i);
    let before = all_prints(all, (m - 1) as nat);
    let last = stage_prints(all, m - 1, all.len());
    if k == m - 1 {
        lemma_stage_print_found(all, k, all.len(), i);
        let j = choose|j: int| 0 <= j < last.len() && last[j] == p;
        assert((before + last)[before.len() + j] == p);
    } else {
        lemma_print_found(all, k, (m - 1) as nat, i);
        let j = choose|j: int| 0 <= j < before.len() && before[j] == p;
        assert((before + last)[j] == p);
    }
}

/// Sets that share as much as they hold together are equal.
proof fn lemma_whole_score(a: Seq<u64>, b: Seq<u64>)
    requires
        a.len() > 0,
        b.len() > 0,
        score(a, b).0 >= score(a, b).1,
    ensures
        a.to_set() == b.to_set(),
{
    broadcast use {vstd::set::group_set_axioms, vstd::seq_lib::seq_to_set_is_finite};

    let x = a.to_set();
    let y = b.to_set();
    let shared = x.intersect(y);
    let both = x.union(y);
    assert forall|g: u64| both.contains(g) implies shared.contains(g) by {
        if !shared.contains(g) {
            let less = both.remove(g);
            assert forall|h: u64| shared.contains(h) implies less.contains(h) by {}
            vstd::set_lib::lemma_len_subset(shared, less);
        }
    }
    assert forall|g: u64| x.contains(g) <==> y.contains(g) by {
        assert(x.contains(g) || y.contains(g) <==> both.contains(g));
    }
    assert(x =~= y);
}

/// Law: what was learned is recognised. At the start of a boot cycle, a line that
/// marked a stage in the reference log is given the stage of a fingerprint with
/// the same three-byte windows, whatever likeness the thresholds ask for.
pub proof fn law_learned_lines_are_recognised(
    text: Seq<char>,
    stage_threshold: nat,
    crash_threshold: nat,
    k: int,
    i: int,
)
    requires
        learned_from(text, stage_threshold, crash_threshold) is Ok,
        stage_threshold <= 1_000_000,
        crash_threshold <= 1_000_000,
        0 <= k < 10,
        0 <= i < lines(text).len(),
        marks(lines(text), k, i),
        encode_utf8(line_at(lines(text), i)).len() >= 3,
    ensures
        ({
            let learner = learned_from(text, stage_threshold, crash_threshold)->Ok_0;
            let line = lines(text)[i];
            let windows = grams(encode_utf8(trim(line)));
            exists|j: int|
                0 <= j < learner.prints.len() && #[trigger] learner.prints[j].grams.to_set()
                    == windows.to_set() && learner.stage_of(line) == Some(learner.prints[j].stage)
        }),
{
    broadcast use {vstd::set::group_set_axioms, vstd::seq_lib::seq_to_set_is_finite};

    let all = lines(text);
    let learner = learned_from(text, stage_threshold, crash_threshold)->Ok_0;
    let ps = learner.prints;
    let g = grams(encode_utf8(trim(all[i])));
    let p = print_at(all, k, i);
    lemma_print_found(all, k, 10, i);
    let own = choose|j: int| 0 <= j < ps.len() && ps[j] == p;
    assert(ps[own].grams == g);
    assert(g.len() > 0);
    assert(g.to_set().intersect(g.to_set()) =~= g.to_set());
    assert(g.to_set().union(g.to_set()) =~= g.to_set());
    let n = g.to_set().len();
    assert(score(g, ps[own].grams) == (n, n));
    lemma_score_positive(g, g);
    law_best_print_is_first_maximum(ps, g, ps.len() as int);
    assert(better((n, n), (0, 1)));
    let best = best_print(ps, g, ps.len() as int);
    assert(best is Some) by {
        if best is None {
            assert(!better(score(g, ps[own].grams), (0, 1)));
        }
    }
    let j = best->0;
    let s = score(g, ps[j].grams);
    assert(!better(score(g, ps[own].grams), s));
    assert(s.0 >= s.1) by (nonlinear_arith)
        requires
            n > 0,
            !(n * s.1 > s.0 * n),
    ;
    assert(ps[j].grams.len() > 0);
    lemma_whole_score(g, ps[j].grams);
    let least = learner.threshold(ps[j].stage);
    assert(s.0 * 1_000_000 >= least * s.1) by (nonlinear_arith)
        requires
            s.0 >= s.1,
            least <= 1_000_000,
    ;
    assert(trim(all[i]).len() > 0);
    assert(learner.stage_of(all[i]) == Some(ps[j].stage));
    assert(ps[j].grams.to_set() == g.to_set());
}

/// Law: apart from the rule against falling back, the place in the boot does not
/// matter. A line is given the stage that it has at the start of a boot, unless
/// that stage lies more than one place before the last one; a crash is always
/// taken, and behind a crash every stage is.
pub proof fn law_only_falling_back_is_refused(l: LearnerView, line: Seq<char>)
    ensures
        l.stage_of(line) == (match l.reset().stage_of(line) {
            None => None,
            Some(stage) => if stage == "crash"@ || l.crashed || l.last_stage is None || stage_rank(
                stage,
            ) + 1 >= stage_rank(l.last_stage->0) {
                Some(stage)
            } else {
                None
            },
        }),
{
}

/// Law: the stages follow one another in boot order, and a crash stands behind
/// them all.
pub proof fn law_boot_order()
    ensures
        stage_rank("ddr"@) < stage_rank("spl"@) < stage_rank("bl31"@) < stage_rank("optee"@)
            < stage_rank("uboot"@) < stage_rank("kernel"@) < stage_rank("init"@) < stage_rank(
            "shell"@,
        ) < stage_rank("booted"@) < stage_rank("crash"@),
        stage_rank("spl"@) == stage_rank("ddr"@) + 1,
        stage_rank("bl31"@) == stage_rank("spl"@) + 1,
        stage_rank("optee"@) == stage_rank("bl31"@) + 1,
        stage_rank("uboot"@) == stage_rank("optee"@) + 1,
        stage_rank("kernel"@) == stage_rank("uboot"@) + 1,
        stage_rank("init"@) == stage_rank("kernel"@) + 1,
        stage_rank("shell"@) == stage_rank("init"@) + 1,
        stage_rank("booted"@) == stage_rank("shell"@) + 1,
{
    reveal_strlit("ddr");
    reveal_strlit("spl");
    reveal_strlit("bl31");
    reveal_strlit("optee");
    reveal_strlit("uboot");
    reveal_strlit("kernel");
    reveal_strlit("init");
    reveal_strlit("shell");
    reveal_strlit("booted");
    reveal_strlit("crash");
    assert("ddr"@[0] == 'd' && "spl"@[0] == 's' && "bl31"@[0] == 'b' && "optee"@[0] == 'o'
        && "uboot"@[0] == 'u' && "kernel"@[0] == 'k' && "init"@[0] == 'i' && "shell"@[1] == 'h'
        && "spl"@[1] == 'p' && "booted"@[1] == 'o' && "bl31"@[1] == 'l' && "crash"@[0] == 'c');
}

/// Law: at the start of a boot a line is given the stage of the fingerprint that
/// is most alike, the first of equals, exactly where the likeness reaches what the
/// stage asks for.
pub proof fn law_the_most_alike_decides(l: LearnerView, line: Seq<char>, j: int)
    requires
        0 <= j < l.prints.len(),
        trim(line).len() > 0,
        better(score(grams(encode_utf8(trim(line))), l.prints[j].grams), (0, 1)),
        forall|i: int|
            0 <= i < l.prints.len() ==> !better(
                score(grams(encode_utf8(trim(line))), #[trigger] l.prints[i].grams),
                score(grams(encode_utf8(trim(line))), l.prints[j].grams),
            ),
        forall|i: int|
            0 <= i < j ==> better(
                score(grams(encode_utf8(trim(line))), l.prints[j].grams),
                score(grams(encode_utf8(trim(line))), #[trigger] l.prints[i].grams),
            ),
    ensures
        ({
            let s = score(grams(encode_utf8(trim(line))), l.prints[j].grams);
            let stage = l.prints[j].stage;
            let least = if stage == "crash"@ {
                l.crash_threshold
            } else {
                l.stage_threshold
            };
            l.reset().stage_of(line) == (if s.0 * 1_000_000 >= least * s.1 {
                Some(stage)
            } else {
                None
            })
        }),
{
    let g = grams(encode_utf8(trim(line)));
    law_best_print_is_first_maximum(l.prints, g, l.prints.len() as int);
    match best_print(l.prints, g, l.prints.len() as int) {
        None => {
            assert(!better(score(g, l.prints[j].grams), (0, 1)));
        },
        Some(i) => {
            if i < j {
                assert(better(score(g, l.prints[j].grams), score(g, l.prints[i].grams)));
                assert(!better(score(g, l.prints[j].grams), score(g, l.prints[i].grams)));
            } else if j < i {
                assert(better(score(g, l.prints[i].grams), score(g, l.prints[j].grams)));
                assert(!better(score(g, l.prints[i].grams), score(g, l.prints[j].grams)));
            }
        },
    }
}

/// Law: a line of nothing but white space, or one that shares no window with a
/// fingerprint, has no stage.
pub proof fn law_strange_lines_have_no_stage(l: LearnerView, line: Seq<char>)
    requires
        trim(line).len() == 0 || forall|i: int, g: u64|
            0 <= i < l.prints.len() && #[trigger] l.prints[i].grams.contains(g)
                ==> !#[trigger] grams(encode_utf8(trim(line))).contains(g),
    ensures
        l.stage_of(line) is None,
{
    let g = grams(encode_utf8(trim(line)));
    law_best_print_is_first_maximum(l.prints, g, l.prints.len() as int);
    if trim(line).len() > 0 {
        if let Some(i) = best_print(l.prints, g, l.prints.len() as int) {
            let p = l.prints[i].grams;
            broadcast use vstd::set::group_set_axioms;

            assert(g.to_set().intersect(p.to_set()) =~= Set::empty()) by {
                assert forall|x: u64| !g.to_set().intersect(p.to_set()).contains(x) by {
                    if g.to_set().contains(x) && p.to_set().contains(x) {
                        assert(l.prints[i].grams.contains(x));
                        assert(g.contains(x));
                    }
                }
            }
        }
    }
}

/// Law: a line that was given a stage is the last one, and a crash is remembered
/// until the next boot; a line without a stage changes nothing.
pub proof fn law_the_place_moves_on(l: LearnerView, line: Seq<char>)
    ensures
        l.stage_of(line) is None ==> l.classify(line) == l,
        l.stage_of(line) is Some ==> l.classify(line).last_stage == l.stage_of(line)
            && l.classify(line).crashed == (l.crashed || l.stage_of(line) == Some("crash"@)),
        l.classify(line).prints == l.prints,
        l.classify(line).reset() == l.reset(),
        l.reset().last_stage is None,
        !l.reset().crashed,
{
}

/// The fingerprints hold one of the stage with the line as its anchor.
pub open spec fn has_print(ps: Seq<PrintView>, stage: Seq<char>, anchor: Seq<char>) -> bool {
    exists|j: int|
        0 <= j < ps.len() && (#[trigger] ps[j]).stage == stage && ps[j].anchor == anchor
            && ps[j].grams == grams(encode_utf8(anchor))
}

proof fn lemma_has_print(all: Seq<Seq<char>>, k: int, i: int)
    requires
        all_prints(all, 10).contains(print_at(all, k, i)),
    ensures
        has_print(all_prints(all, 10), learned_name(k), line_at(all, i)),
{
    let ps = all_prints(all, 10);
    let j = choose|j: int| 0 <= j < ps.len() && ps[j] == print_at(all, k, i);
    assert(ps[j].stage == learned_name(k));
}

/// Law: each line of the reference log that holds a phrase of a stage becomes a
/// fingerprint of that stage.
pub proof fn law_phrases_teach_their_stage(text: Seq<char>, s: nat, c: nat, i: int)
    requires
        learned_from(text, s, c) is Ok,
        0 <= i < lines(text).len(),
        trim(lines(text)[i]).len() > 0,
    ensures
        ({
            let l = trim(lines(text)[i]);
            let ps = learned_from(text, s, c)->Ok_0.prints;
            &&& (occurs(l, "DDR "@) || occurs(l, "DDR Version"@) || occurs(l, "DDR Init"@)) ==> has_print(ps, "ddr"@, l)
            &&& (occurs(l, "U-Boot SPL"@) || occurs(l, "SPL board init"@)) ==> has_print(ps, "spl"@, l)
            &&& (occurs(l, "BL31:"@) || occurs(l, "ARM Trusted Firmware"@)) ==> has_print(ps, "bl31"@, l)
            &&& (occurs(l, "OP-TEE"@) || occurs(l, "I/TC:"@)) ==> has_print(ps, "optee"@, l)
            &&& (occurs(l, "U-Boot 20"@) || occurs(l, "U-Boot 202"@)) ==> has_print(ps, "uboot"@, l)
            &&& (occurs(l, "Linux version"@) || occurs(l, "Booting Linux"@) || occurs(l, "Starting kernel"@)) ==> has_print(ps, "kernel"@, l)
            &&& (occurs(l, "init: "@) || occurs(l, "init:]"@)) ==> has_print(ps, "init"@, l)
            &&& (occurs(l, "console:/"@) || occurs(l, "login:"@) || occurs(l, "# $"@) || occurs(l, "$ $"@)) ==> has_print(ps, "shell"@, l)
            &&& (occurs(l, "boot_completed"@) || occurs(l, "Boot completed"@)) ==> has_print(ps, "booted"@, l)
            &&& (occurs(l, "Kernel panic"@) || occurs(l, "BUG:"@) || occurs(l, "Oops:"@) || occurs(l, "Unable to handle kernel"@) || occurs(l, "Segmentation fault"@) || occurs(l, "---[ end trace"@) || occurs(l, "panic - not syncing"@)) ==> has_print(ps, "crash"@, l)
        }),
{
    let all = lines(text);
    if marks(all, 0, i) {
        lemma_print_found(all, 0, 10, i);
        lemma_has_print(all, 0, i);
    }
    if marks(all, 1, i) {
        lemma_print_found(all, 1, 10, i);
        lemma_has_print(all, 1, i);
    }
    if marks(all, 2, i) {
        lemma_print_found(all, 2, 10, i);
        lemma_has_print(all, 2, i);
    }
    if marks(all, 3, i) {
        lemma_print_found(all, 3, 10, i);
        lemma_has_print(all, 3, i);
    }
    if marks(all, 4, i) {
        lemma_print_found(all, 4, 10, i);
        lemma_has_print(all, 4, i);
    }
    if marks(all, 5, i) {
        lemma_print_found(all, 5, 10, i);
        lemma_has_print(all, 5, i);
    }
    if marks(all, 6, i) {
        lemma_print_found(all, 6, 10, i);
        lemma_has_print(all, 6, i);
    }
    if marks(all, 7, i) {
        lemma_print_found(all, 7, 10, i);
        lemma_has_print(all, 7, i);
    }
    if marks(all, 8, i) {
        lemma_print_found(all, 8, 10, i);
        lemma_has_print(all, 8, i);
    }
    if marks(all, 9, i) {
        lemma_print_found(all, 9, 10, i);
        lemma_has_print(all, 9, i);
    }
}

/// The fingerprint is of a line of the log, has its neighbours, and holds a phrase
/// of its stage.
pub open spec fn is_taught(all: Seq<Seq<char>>, p: PrintView) -> bool {
    &&& exists|i: int|
        0 <= i < all.len() && p.anchor == trim(#[trigger] all[i]) && p.prefix == (if i > 0 {
            trim(all[i - 1])
        } else {
            Seq::empty()
        }) && p.suffix == (if i + 1 < all.len() {
            trim(all[i + 1])
        } else {
            Seq::empty()
        })
    &&& p.grams == grams(encode_utf8(p.anchor))
    &&& {
            ||| p.stage == "ddr"@ && (occurs(p.anchor, "DDR "@) || occurs(p.anchor, "DDR Version"@) || occurs(p.anchor, "DDR Init"@))
            ||| p.stage == "spl"@ && (occurs(p.anchor, "U-Boot SPL"@) || occurs(p.anchor, "SPL board init"@))
            ||| p.stage == "bl31"@ && (occurs(p.anchor, "BL31:"@) || occurs(p.anchor, "ARM Trusted Firmware"@))
            ||| p.stage == "optee"@ && (occurs(p.anchor, "OP-TEE"@) || occurs(p.anchor, "I/TC:"@))
            ||| p.stage == "uboot"@ && (occurs(p.anchor, "U-Boot 20"@) || occurs(p.anchor, "U-Boot 202"@))
            ||| p.stage == "kernel"@ && (occurs(p.anchor, "Linux version"@) || occurs(p.anchor, "Booting Linux"@) || occurs(p.anchor, "Starting kernel"@))
            ||| p.stage == "init"@ && (occurs(p.anchor, "init: "@) || occurs(p.anchor, "init:]"@))
            ||| p.stage == "shell"@ && (occurs(p.anchor, "console:/"@) || occurs(p.anchor, "login:"@) || occurs(p.anchor, "# $"@) || occurs(p.anchor, "$ $"@))
            ||| p.stage == "booted"@ && (occurs(p.anchor, "boot_completed"@) || occurs(p.anchor, "Boot completed"@))
            ||| p.stage == "crash"@ && (occurs(p.anchor, "Kernel panic"@) || occurs(p.anchor, "BUG:"@) || occurs(p.anchor, "Oops:"@) || occurs(p.anchor, "Unable to handle kernel"@) || occurs(p.anchor, "Segmentation fault"@) || occurs(p.anchor, "---[ end trace"@) || occurs(p.anchor, "panic - not syncing"@))
        }
}

/// Law: nothing else becomes a fingerprint, and a log is refused exactly where it
/// has fewer than ten lines or no line holds a phrase.
pub proof fn law_fingerprints_come_from_the_log(text: Seq<char>, s: nat, c: nat)
    ensures
        match learned_from(text, s, c) {
            Ok(l) => {
                &&& lines(text).len() >= 10
                &&& l.prints.len() > 0
                &&& l.reference_text == text
                &&& l.stage_threshold == s
                &&& l.crash_threshold == c
                &&& l.last_stage is None
                &&& !l.crashed
                &&& forall|j: int| 0 <= j < l.prints.len() ==> is_taught(lines(text), #[trigger] l.prints[j])
            },
            Err(e) => if lines(text).len() < 10 {
                e == "Too few lines for learning"@
            } else {
                e == "No stage fingerprints extracted from reference"@ && forall|i: int, k: int|
                    0 <= i < lines(text).len() && 0 <= k < 10 ==> !#[trigger] marks(
                        lines(text),
                        k,
                        i,
                    )
            },
        },
{
    let all = lines(text);
    lemma_all_taught(all, 10);
    if lines(text).len() >= 10 && all_prints(all, 10).len() == 0 {
        assert forall|i: int, k: int| 0 <= i < all.len() && 0 <= k < 10 implies !#[trigger] marks(
            all,
            k,
            i,
        ) by {
            if marks(all, k, i) {
                lemma_print_found(all, k, 10, i);
            }
        }
    }
}

proof fn lemma_stage_taught(all: Seq<Seq<char>>, k: int, n: nat)
    requires
        n <= all.len(),
        0 <= k < 10,
    ensures
        forall|j: int|
            0 <= j < stage_prints(all, k, n).len() ==> is_taught(
                all,
                #[trigger] stage_prints(all, k, n)[j],
            ),
    decreases n,
{
    if n > 0 {
        lemma_stage_taught(all, k, (n - 1) as nat);
        let before = stage_prints(all, k, (n - 1) as nat);
        let now = stage_prints(all, k, n);
        assert forall|j: int| 0 <= j < now.len() implies is_taught(all, #[trigger] now[j]) by {
            if j < before.len() {
                assert(now[j] == before[j]);
            } else {
                let p = print_at(all, k, n - 1);
                assert(now[j] == p);
                assert(p.anchor == trim(all[n - 1]));
            }
        }
    }
}

proof fn lemma_all_taught(all: Seq<Seq<char>>, m: nat)
    requires
        m <= 10,
    ensures
        forall|j: int|
            0 <= j < all_prints(all, m).len() ==> is_taught(all, #[trigger] all_prints(all, m)[j]),
    decreases m,
{
    if m > 0 {
        lemma_all_taught(all, (m - 1) as nat);
        lemma_stage_taught(all, m - 1, all.len());
        let a = all_prints(all, (m - 1) as nat);
        let b = stage_prints(all, m - 1, all.len());
        assert forall|j: int| 0 <= j < (a + b).len() implies is_taught(all, #[trigger] (a + b)[j]) by {
            if j < a.len() {
                assert((a + b)[j] == a[j]);
            } else {
                assert((a + b)[j] == b[j - a.len()]);
            }
        }
    }
}

/// Law: the windows of a text are its runs of three bytes, in order, and two are
/// equal exactly where their bytes are.
pub proof fn law_windows(s: Seq<u8>, i: int, t: Seq<u8>, j: int)
    ensures
        grams(s).len() == (if s.len() < 3 {
            0
        } else {
            s.len() - 2
        }),
        0 <= i < grams(s).len() && 0 <= j < grams(t).len() ==> (grams(s)[i] == grams(t)[j] <==> s[i]
            == t[j] && s[i + 1] == t[j + 1] && s[i + 2] == t[j + 2]),
{
}

/// Law: likeness does not depend on which list comes first, is whole exactly for
/// lists with the same windows, and nothing for lists that share none.
pub proof fn law_likeness(a: Seq<u64>, b: Seq<u64>)
    ensures
        score(a, b) == score(b, a),
        score(a, b).0 <= score(a, b).1,
        a.len() > 0 && b.len() > 0 ==> (score(a, b).0 == score(a, b).1 <==> a.to_set()
            == b.to_set()),
        score(a, b).0 == 0 <==> forall|g: u64| a.contains(g) ==> !#[trigger] b.contains(g),
{
    broadcast use {vstd::set::group_set_axioms, vstd::seq_lib::seq_to_set_is_finite};

    let x = a.to_set();
    let y = b.to_set();
    assert(x.intersect(y) =~= y.intersect(x));
    assert(x.union(y) =~= y.union(x));
    vstd::set_lib::lemma_len_subset(x.intersect(y), x.union(y));
    if a.len() > 0 && b.len() > 0 {
        if x == y {
            assert(x.intersect(y) =~= x.union(y));
        }
        if score(a, b).0 == score(a, b).1 {
            lemma_whole_score(a, b);
        }
        if score(a, b).0 == 0 {
            x.intersect(y).lemma_len0_is_empty();
            assert forall|g: u64| a.contains(g) implies !#[trigger] b.contains(g) by {
                assert(x.contains(g));
                assert(!x.intersect(y).contains(g));
                if b.contains(g) {
                    assert(y.contains(g));
                }
            }
        }
        if forall|g: u64| a.contains(g) ==> !#[trigger] b.contains(g) {
            assert(x.intersect(y) =~= Set::empty()) by {
                assert forall|g: u64| !x.intersect(y).contains(g) by {
                    if x.contains(g) && y.contains(g) {
                        assert(a.contains(g) && b.contains(g));
                    }
                }
            }
        }
    } else if b.len() == 0 {
        assert forall|g: u64| a.contains(g) implies !#[trigger] b.contains(g) by {}
    }
}

/// Law: likeness is the share of the windows that both have among all that either has:
/// one more window that the other has too adds to both counts alike, one that it has
/// not adds to the whole alone, and one that was there before changes nothing.
pub proof fn law_likeness_counts_windows(a: Seq<u64>, b: Seq<u64>, g: u64)
    requires
        a.len() > 0,
        b.len() > 0,
    ensures
        a.contains(g) ==> score(a.push(g), b) == score(a, b),
        !a.contains(g) && b.contains(g) ==> score(a.push(g), b) == (
            score(a, b).0 + 1,
            score(a, b).1,
        ),
        !a.contains(g) && !b.contains(g) ==> score(a.push(g), b) == (
            score(a, b).0,
            score(a, b).1 + 1,
        ),
        score(Seq::empty(), b) == (0nat, 1nat),
        score(b, Seq::empty()) == (0nat, 1nat),
{
    broadcast use vstd::seq_lib::seq_to_set_is_finite;

    let x = a.push(g);
    assert(x.to_set() =~= a.to_set().insert(g)) by {
        assert forall|q: u64| x.to_set().contains(q) <==> a.to_set().insert(g).contains(q) by {
            if x.contains(q) {
                let i = choose|i: int| 0 <= i < x.len() && x[i] == q;
                if i < a.len() {
                    assert(a[i] == q);
                }
            }
            if a.contains(q) {
                let i = choose|i: int| 0 <= i < a.len() && a[i] == q;
                assert(x[i] == q);
            }
            assert(x[a.len() as int] == g);
        }
    }
    let s = a.to_set();
    let t = b.to_set();
    if a.contains(g) {
        assert(s.insert(g) =~= s);
    } else if b.contains(g) {
        assert(s.insert(g).intersect(t) =~= s.intersect(t).insert(g));
        assert(s.insert(g).union(t) =~= s.union(t));
        assert(!s.intersect(t).contains(g));
    } else {
        assert(s.insert(g).intersect(t) =~= s.intersect(t));
        assert(s.insert(g).union(t) =~= s.union(t).insert(g));
        assert(!s.union(t).contains(g));
    }
}

/// Law: classifying a line gives the stage that the line has at the start of a boot,
/// unless that stage lies more than one place before the last one, and moves the place
/// on to it; a crash is always taken, and behind a crash every stage is.
pub proof fn law_classifying_moves_on(l: &mut StageLearner, line: &str, r: Option<String>)
    requires
        call_ensures(StageLearner::classify_line, (l, line), r),
    ensures
        ({
            let fresh = old(l)@.reset().stage_of(line@);
            let last = old(l)@.last_stage;
            let taken = fresh is Some && (fresh == Some("crash"@) || old(l)@.crashed || last is None
                || stage_rank(fresh->0) + 1 >= stage_rank(last->0));
            &&& taken ==> r is Some && r->0@ == fresh->0 && final(l)@.last_stage == fresh
                && final(l)@.crashed == (old(l)@.crashed || fresh == Some("crash"@))
            &&& !taken ==> r is None && final(l)@ == old(l)@
            &&& final(l)@.prints == old(l)@.prints
        }),
{
    law_only_falling_back_is_refused(old(l)@, line@);
    law_the_place_moves_on(old(l)@, line@);
}

} // verus!
