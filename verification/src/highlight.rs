//! Colouring of shell prompts in serial output.
//!
//! A prompt is `user@host:/path$ ` or `[user@host /path]# `. The user becomes
//! green, the path blue and the sigil white. Every other line stays as it is.

use crate::bridge::{
    ansi_stripped, find_lookaround, lookaround_match, printable, strip_escapes, utf8_text,
};
use crate::text::{
    append_bytes, ascii_space, is_ascii_space, lemma_line_stop, lemma_line_stop_concat,
    lemma_line_stop_shift, line_stop,
};
use vstd::prelude::*;
use vstd::string::*;
use vstd::utf8::{decode_utf8, encode_utf8, valid_utf8};

verus! {

// ── Parts of a prompt ───────────────────────────────────────────────────────

/// A range of bytes.
#[derive(Debug, Clone, Copy, PartialEq, Eq, Structural)]
pub struct Span {
    pub start: usize,
    pub end: usize,
}

impl Span {
    /// The range lies within the first `n` bytes.
    pub open spec fn within(self, n: int) -> bool {
        self.start <= self.end <= n
    }

    /// The bytes in the range.
    pub open spec fn of(self, line: Seq<u8>) -> Seq<u8> {
        line.subrange(self.start as int, self.end as int)
    }

    fn fits(&self, n: usize) -> (r: bool)
        ensures
            r == self.within(n as int),
    {
        self.start <= self.end && self.end <= n
    }
}

/// The parts of a prompt.
#[derive(Debug, Clone, Copy, PartialEq, Eq, Structural)]
pub struct PromptParts {
    pub prefix: Option<Span>,
    pub user: Span,
    pub separator: Option<Span>,
    pub dir: Span,
    pub suffix: Option<Span>,
    pub sigil: Span,
}

/// What the patterns found: the user, the path and the sigil.
#[derive(Debug, Clone, Copy, PartialEq, Eq, Structural)]
pub struct Found {
    pub user: Option<Span>,
    pub dir: Option<Span>,
    pub sigil: Option<Span>,
}

impl Found {
    /// Nothing was found, or the ranges lie within the first `n` bytes and the
    /// path does not start before the user ends.
    pub open spec fn usable(self, n: int) -> bool {
        match (self.user, self.dir, self.sigil) {
            (Some(u), Some(d), Some(s)) => u.within(n) && d.within(n) && s.within(n) && u.end
                <= d.start,
            _ => true,
        }
    }

    fn is_usable(&self, n: usize) -> (r: bool)
        ensures
            r == self.usable(n as int),
    {
        match (self.user, self.dir, self.sigil) {
            (Some(u), Some(d), Some(s)) => u.fits(n) && d.fits(n) && s.fits(n) && u.end <= d.start,
            _ => true,
        }
    }
}

/// A control character of ASCII.
pub open spec fn is_control(b: u8) -> bool {
    b < 32 || b == 127
}

/// A letter or digit of ASCII.
pub open spec fn is_alphanumeric(b: u8) -> bool {
    48 <= b <= 57 || 65 <= b <= 90 || 97 <= b <= 122
}

/// A byte that a user may hold: no control character and none of `:[]/#`.
pub open spec fn user_byte(b: u8) -> bool {
    !is_control(b) && b != 58 && b != 91 && b != 93 && b != 47 && b != 35
}

/// A byte that a path may hold: no control character and no bracket.
pub open spec fn dir_byte(b: u8) -> bool {
    !is_control(b) && b != 91 && b != 93
}

/// The bytes are a user.
pub open spec fn is_user(s: Seq<u8>) -> bool {
    &&& s.len() > 0
    &&& s[0] != 47 && s[0] != 35 && s[0] != 45 && s[0] != 32 && s[0] != 9
    &&& forall|i: int| 0 <= i < s.len() ==> user_byte(#[trigger] s[i])
    &&& exists|i: int| 0 <= i < s.len() && is_alphanumeric(#[trigger] s[i])
}

/// The bytes are a path.
pub open spec fn is_dir(s: Seq<u8>) -> bool {
    &&& s.len() > 0
    &&& !is_ascii_space(s[0])
    &&& forall|i: int| 0 <= i < s.len() ==> dir_byte(#[trigger] s[i])
}

/// Whether the bytes are a user.
pub fn valid_prompt_user(user: &[u8]) -> (r: bool)
    ensures
        r == is_user(user@),
{
    if user.len() == 0 {
        return false;
    }
    let first: u8 = user[0];
    if first == 47 || first == 35 || first == 45 || first == 32 || first == 9 {
        return false;
    }
    let mut named: bool = false;
    let mut i: usize = 0;
    while i < user.len()
        invariant
            i <= user.len(),
            forall|j: int| 0 <= j < i ==> user_byte(#[trigger] user@[j]),
            named <==> exists|j: int| 0 <= j < i && is_alphanumeric(#[trigger] user@[j]),
        decreases user.len() - i,
    {
        let b: u8 = user[i];
        if b < 32 || b == 127 || b == 58 || b == 91 || b == 93 || b == 47 || b == 35 {
            assert(!user_byte(user@[i as int]));
            return false;
        }
        let letter: bool = (48 <= b && b <= 57) || (65 <= b && b <= 90) || (97 <= b && b <= 122);
        assert(letter == is_alphanumeric(user@[i as int]));
        if letter {
            named = true;
        }
        i = i + 1;
    }
    named
}

/// Whether the bytes are a path.
pub fn valid_prompt_dir(dir: &[u8]) -> (r: bool)
    ensures
        r == is_dir(dir@),
{
    if dir.len() == 0 {
        return false;
    }
    if ascii_space(dir[0]) {
        return false;
    }
    let mut i: usize = 0;
    while i < dir.len()
        invariant
            i <= dir.len(),
            forall|j: int| 0 <= j < i ==> dir_byte(#[trigger] dir@[j]),
        decreases dir.len() - i,
    {
        let b: u8 = dir[i];
        if b < 32 || b == 127 || b == 91 || b == 93 {
            assert(!dir_byte(dir@[i as int]));
            return false;
        }
        i = i + 1;
    }
    true
}

/// The bytes are white space.
pub open spec fn is_blank(s: Seq<u8>) -> bool {
    forall|i: int| 0 <= i < s.len() ==> is_ascii_space(#[trigger] s[i])
}

/// The parts of a prompt `user@host:/path$ `, from what the patterns found. The
/// line starts with the user, and the sigil stands right behind the path.
pub open spec fn colon_prompt(found: Found, line: Seq<u8>) -> Option<PromptParts> {
    match (found.user, found.dir, found.sigil) {
        (Some(user), Some(dir), Some(sigil)) => {
            let separator = Span { start: user.end, end: dir.start };
            if user.start == 0 && dir.end == sigil.start && separator.of(line) == seq![58u8]
                && is_user(user.of(line)) && is_dir(dir.of(line)) {
                Some(
                    PromptParts {
                        prefix: None,
                        user,
                        separator: Some(separator),
                        dir,
                        suffix: None,
                        sigil,
                    },
                )
            } else {
                None
            }
        },
        _ => None,
    }
}

/// The parts of a prompt `[user@host /path]# `, from what the patterns found. The
/// user stands right behind the opening bracket.
pub open spec fn bracket_prompt(found: Found, line: Seq<u8>) -> Option<PromptParts> {
    match (found.user, found.dir, found.sigil) {
        (Some(user), Some(dir), Some(sigil)) => {
            let separator = Span { start: user.end, end: dir.start };
            let suffix = Span { start: dir.end, end: sigil.start };
            if line.len() > 0 && line[0] == 91 && user.start == 1 && dir.end < sigil.start
                && is_blank(separator.of(line)) && suffix.of(line) == seq![93u8] && is_user(user.of(line)) && is_dir(dir.of(line)) {
                Some(
                    PromptParts {
                        prefix: Some(Span { start: 0, end: 1 }),
                        user,
                        separator: Some(separator),
                        dir,
                        suffix: Some(suffix),
                        sigil,
                    },
                )
            } else {
                None
            }
        },
        _ => None,
    }
}

/// The parts of a prompt `user@host:/path$ `, from what the patterns found in the
/// line.
pub fn parse_colon_prompt(found: &Found, line: &[u8]) -> (r: Option<PromptParts>)
    requires
        found.usable(line@.len() as int),
    ensures
        r == colon_prompt(*found, line@),
{
    match (found.user, found.dir, found.sigil) {
        (Some(user), Some(dir), Some(sigil)) => {
            if user.start != 0 || dir.end != sigil.start {
                return None;
            }
            let separator = Span { start: user.end, end: dir.start };
            let between = &line[separator.start..separator.end];
            let colon: bool = between.len() == 1 && between[0] == 58;
            assert(colon == (separator.of(line@) =~= seq![58u8]));
            if !colon {
                return None;
            }
            if !valid_prompt_user(&line[user.start..user.end]) || !valid_prompt_dir(
                &line[dir.start..dir.end],
            ) {
                return None;
            }
            Some(
                PromptParts {
                    prefix: None,
                    user,
                    separator: Some(separator),
                    dir,
                    suffix: None,
                    sigil,
                },
            )
        },
        _ => None,
    }
}

fn all_space(s: &[u8]) -> (r: bool)
    ensures
        r == is_blank(s@),
{
    let mut i: usize = 0;
    while i < s.len()
        invariant
            i <= s.len(),
            forall|j: int| 0 <= j < i ==> is_ascii_space(#[trigger] s@[j]),
        decreases s.len() - i,
    {
        if !ascii_space(s[i]) {
            assert(!is_ascii_space(s@[i as int]));
            return false;
        }
        i = i + 1;
    }
    true
}

/// The parts of a prompt `[user@host /path]# `, from what the patterns found in
/// the line.
pub fn parse_bracket_prompt(found: &Found, line: &[u8]) -> (r: Option<PromptParts>)
    requires
        found.usable(line@.len() as int),
    ensures
        r == bracket_prompt(*found, line@),
{
    match (found.user, found.dir, found.sigil) {
        (Some(user), Some(dir), Some(sigil)) => {
            if line.len() == 0 || line[0] != 91 || user.start != 1 || dir.end >= sigil.start {
                return None;
            }
            let separator = Span { start: user.end, end: dir.start };
            let suffix = Span { start: dir.end, end: sigil.start };
            let behind = &line[suffix.start..suffix.end];
            let closed: bool = behind.len() == 1 && behind[0] == 93;
            assert(closed == (suffix.of(line@) =~= seq![93u8]));
            let spaced: bool = all_space(&line[separator.start..separator.end]);
            if !spaced || !closed {
                return None;
            }
            if !valid_prompt_user(&line[user.start..user.end]) || !valid_prompt_dir(
                &line[dir.start..dir.end],
            ) {
                return None;
            }
            Some(
                PromptParts {
                    prefix: Some(Span { start: 0, end: 1 }),
                    user,
                    separator: Some(separator),
                    dir,
                    suffix: Some(suffix),
                    sigil,
                },
            )
        },
        _ => None,
    }
}

// ── Finding a prompt ────────────────────────────────────────────────────────

/// The user of a prompt with a colon, in text that was freed of escape sequences.
pub const COLON_USER_CLEAN: &'static str = r"^[^/#\-\s]\S*\s?[^\s.:\[\]]*?(?=:\S[^\r\n$#]*[$#]\s)";

/// The user of a prompt with a colon.
pub const COLON_USER_PLAIN: &'static str = r"^[^/#\-\s]\S*\s?[^\s.:\[\]]+?(?=:\S[^\r\n$#]*[$#]\s)";

/// The path of a prompt with a colon.
pub const COLON_DIR: &'static str = r"(?<=:)\S[^\r\n$#]*?(?=[$#]\s)";

/// The sigil of a prompt with a colon.
pub const COLON_SIGIL: &'static str = r"(?<=\S)[$#]\s";

/// The user of a prompt with brackets.
pub const BRACKET_USER: &'static str = r"(?<=^\[)[^/#\-\s]\S*\s?[^\s.\[\]]+?(?=\s+\S[^\[\]\r\n]*\][$#]\s)";

/// The path of a prompt with brackets.
pub const BRACKET_DIR: &'static str = r"(?<=\s)\S[^\]\r\n]*?(?=\][$#]\s)";

/// The sigil of a prompt with brackets.
pub const BRACKET_SIGIL: &'static str = r"(?<=\])[$#]\s";

/// One of the patterns of prompts.
pub open spec fn is_prompt_pattern(pattern: Seq<char>) -> bool {
    ||| pattern == COLON_USER_CLEAN@
    ||| pattern == COLON_USER_PLAIN@
    ||| pattern == COLON_DIR@
    ||| pattern == COLON_SIGIL@
    ||| pattern == BRACKET_USER@
    ||| pattern == BRACKET_DIR@
    ||| pattern == BRACKET_SIGIL@
}

/// Where a pattern is found.
pub open spec fn span_of(pattern: Seq<char>, text: Seq<char>) -> Option<Span> {
    match lookaround_match(pattern, text) {
        Some((start, end)) => Some(Span { start, end }),
        None => None,
    }
}

fn match_range(pattern: &str, text: &str) -> (r: Option<Span>)
    requires
        is_prompt_pattern(pattern@),
    ensures
        r == span_of(pattern@, text@),
{
    match find_lookaround(pattern, text) {
        Some((start, end)) => Some(Span { start, end }),
        None => None,
    }
}

/// What the patterns of a prompt with a colon find.
pub open spec fn colon_found(text: Seq<char>, clean: bool) -> Found {
    Found {
        user: span_of(
            if clean {
                COLON_USER_CLEAN@
            } else {
                COLON_USER_PLAIN@
            },
            text,
        ),
        dir: span_of(COLON_DIR@, text),
        sigil: span_of(COLON_SIGIL@, text),
    }
}

/// What the patterns of a prompt with brackets find.
pub open spec fn bracket_found(text: Seq<char>) -> Found {
    Found {
        user: span_of(BRACKET_USER@, text),
        dir: span_of(BRACKET_DIR@, text),
        sigil: span_of(BRACKET_SIGIL@, text),
    }
}

/// The first line end of a byte string, or its length.
pub open spec fn text_end(line: Seq<u8>, from: int) -> int
    decreases line.len() - from,
{
    if from < 0 || from >= line.len() {
        line.len() as int
    } else if line[from] == 13 || line[from] == 10 {
        from
    } else {
        text_end(line, from + 1)
    }
}

/// The line may hold a prompt: it is not empty, and where escape sequences were
/// left in, it does not start with white space.
pub open spec fn may_prompt(line: Seq<u8>, clean: bool) -> bool {
    line.len() > 0 && (clean || !is_ascii_space(line[0]))
}

/// The parts of the prompt that a line holds, where it holds one. Ranges that
/// cannot be parts of the line are none.
pub open spec fn line_prompt(line: Seq<u8>, clean: bool) -> Option<PromptParts> {
    let head = line.subrange(0, text_end(line, 0));
    if !may_prompt(line, clean) || !valid_utf8(head) {
        None
    } else {
        let text = decode_utf8(head);
        let colon = colon_found(text, clean);
        let bracket = bracket_found(text);
        let first = if colon.usable(line.len() as int) {
            colon_prompt(colon, line)
        } else {
            None
        };
        if first is Some {
            first
        } else if bracket.usable(line.len() as int) {
            bracket_prompt(bracket, line)
        } else {
            None
        }
    }
}

/// The parts of the prompt that a line holds, where it holds one.
pub fn prompt_parts(line: &[u8], clean: bool) -> (r: Option<PromptParts>)
    ensures
        r == line_prompt(line@, clean),
        r matches Some(p) ==> p.well_placed(line@.len() as int),
{
    if line.len() == 0 {
        return None;
    }
    if !clean && ascii_space(line[0]) {
        return None;
    }
    let mut end: usize = 0;
    while end < line.len() && line[end] != 13 && line[end] != 10
        invariant
            end <= line.len(),
            text_end(line@, 0) == text_end(line@, end as int),
        decreases line.len() - end,
    {
        end = end + 1;
    }
    let head = &line[0..end];
    let text = match utf8_text(head) {
        Some(t) => t,
        None => {
            return None;
        },
    };
    let user = if clean {
        match_range(COLON_USER_CLEAN, &text)
    } else {
        match_range(COLON_USER_PLAIN, &text)
    };
    let colon = Found {
        user,
        dir: match_range(COLON_DIR, &text),
        sigil: match_range(COLON_SIGIL, &text),
    };
    if colon.is_usable(line.len()) {
        if let Some(p) = parse_colon_prompt(&colon, line) {
            return Some(p);
        }
    }
    let bracket = Found {
        user: match_range(BRACKET_USER, &text),
        dir: match_range(BRACKET_DIR, &text),
        sigil: match_range(BRACKET_SIGIL, &text),
    };
    if bracket.is_usable(line.len()) {
        return parse_bracket_prompt(&bracket, line);
    }
    None
}

// ── Colouring ───────────────────────────────────────────────────────────────

/// The escape sequence of bold green.
pub const GREEN_BOLD: &'static str = "\u{1b}[1;32m";

/// The escape sequence of bold blue.
pub const BLUE_BOLD: &'static str = "\u{1b}[1;34m";

/// The escape sequence of bold white.
pub const WHITE_BOLD: &'static str = "\u{1b}[1;37m";

/// The escape sequence that ends a colour.
pub const RESET: &'static str = "\u{1b}[0m";

impl PromptParts {
    /// All parts lie within the first `n` bytes.
    pub open spec fn well_placed(self, n: int) -> bool {
        &&& self.prefix matches Some(s) ==> s.within(n)
        &&& self.user.within(n)
        &&& self.separator matches Some(s) ==> s.within(n)
        &&& self.dir.within(n)
        &&& self.suffix matches Some(s) ==> s.within(n)
        &&& self.sigil.within(n)
    }
}

/// The bytes of an optional part.
pub open spec fn part_of(s: Option<Span>, line: Seq<u8>) -> Seq<u8> {
    match s {
        Some(s) => s.of(line),
        None => Seq::empty(),
    }
}

/// A line with its prompt coloured.
pub open spec fn coloured(line: Seq<u8>, p: PromptParts) -> Seq<u8> {
    part_of(p.prefix, line) + encode_utf8(GREEN_BOLD@) + p.user.of(line) + encode_utf8(RESET@)
        + part_of(p.separator, line) + encode_utf8(BLUE_BOLD@) + p.dir.of(line) + encode_utf8(
        RESET@,
    ) + part_of(p.suffix, line) + encode_utf8(WHITE_BOLD@) + p.sigil.of(line) + encode_utf8(RESET@)
        + line.subrange(p.sigil.end as int, line.len() as int)
}

fn append_part(s: Option<Span>, line: &[u8], out: &mut Vec<u8>)
    requires
        s matches Some(x) ==> x.within(line@.len() as int),
    ensures
        final(out)@ == old(out)@ + part_of(s, line@),
{
    match s {
        Some(x) => {
            append_bytes(out, &line[x.start..x.end]);
        },
        None => {
            assert(out@ + Seq::<u8>::empty() =~= out@);
        },
    }
}

/// Appends a line with its prompt coloured.
pub fn colour_line(line: &[u8], p: &PromptParts, out: &mut Vec<u8>)
    requires
        p.well_placed(line@.len() as int),
    ensures
        final(out)@ == old(out)@ + coloured(line@, *p),
{
    let mut r: Vec<u8> = Vec::new();
    append_part(p.prefix, line, &mut r);
    assert(r@ =~= part_of(p.prefix, line@));
    append_bytes(&mut r, GREEN_BOLD.as_bytes());
    append_bytes(&mut r, &line[p.user.start..p.user.end]);
    append_bytes(&mut r, RESET.as_bytes());
    append_part(p.separator, line, &mut r);
    append_bytes(&mut r, BLUE_BOLD.as_bytes());
    append_bytes(&mut r, &line[p.dir.start..p.dir.end]);
    append_bytes(&mut r, RESET.as_bytes());
    append_part(p.suffix, line, &mut r);
    append_bytes(&mut r, WHITE_BOLD.as_bytes());
    append_bytes(&mut r, &line[p.sigil.start..p.sigil.end]);
    append_bytes(&mut r, RESET.as_bytes());
    append_bytes(&mut r, &line[p.sigil.end..line.len()]);
    append_bytes(out, &r);
}

/// A line without its escape sequences.
pub open spec fn without_escapes(line: Seq<u8>) -> Seq<u8> {
    if printable(line) {
        line
    } else {
        ansi_stripped(line)
    }
}

/// A line with its prompt coloured, or the line itself where it holds none. With
/// `clean`, escape sequences are taken out of a line that holds a prompt.
#[verifier::opaque]
pub open spec fn rendered_line(line: Seq<u8>, clean: bool) -> Seq<u8> {
    let base = if clean {
        without_escapes(line)
    } else {
        line
    };
    match line_prompt(base, clean) {
        Some(p) => coloured(base, p),
        None => line,
    }
}

/// Output from an index on, with its prompts coloured line by line.
pub open spec fn rendered(data: Seq<u8>, from: int, clean: bool) -> Seq<u8>
    decreases data.len() - from,
{
    let stop = line_stop(data, from);
    if from < 0 || from >= data.len() || stop <= from || stop > data.len() {
        Seq::empty()
    } else {
        rendered_line(data.subrange(from, stop), clean) + rendered(data, stop, clean)
    }
}

fn render_line(line: &[u8], clean: bool, out: &mut Vec<u8>)
    ensures
        final(out)@ == old(out)@ + rendered_line(line@, clean),
{
    proof {
        reveal(rendered_line);
    }
    if clean {
        let base = strip_escapes(line);
        match prompt_parts(&base, true) {
            Some(p) => {
                colour_line(&base, &p, out);
            },
            None => {
                append_bytes(out, line);
            },
        }
    } else {
        match prompt_parts(line, false) {
            Some(p) => {
                colour_line(line, &p, out);
            },
            None => {
                append_bytes(out, line);
            },
        }
    }
}

/// Appends output with its prompts coloured line by line.
pub fn render(data: &[u8], clean: bool, out: &mut Vec<u8>)
    ensures
        final(out)@ == old(out)@ + rendered(data@, 0, clean),
{
    let mut start: usize = 0;
    assert(out@ + rendered(data@, 0, clean) =~= old(out)@ + rendered(data@, 0, clean));
    while start < data.len()
        invariant
            start <= data.len(),
            out@ + rendered(data@, start as int, clean) == old(out)@ + rendered(data@, 0, clean),
        decreases data.len() - start,
    {
        let mut stop: usize = start;
        while stop < data.len() && data[stop] != 10
            invariant
                start <= stop <= data.len(),
                line_stop(data@, start as int) == line_stop(data@, stop as int),
            decreases data.len() - stop,
        {
            stop = stop + 1;
        }
        if stop < data.len() {
            stop = stop + 1;
        }
        let ghost before = out@;
        render_line(&data[start..stop], clean, out);
        assert(before + (rendered_line(data@.subrange(start as int, stop as int), clean) + rendered(
            data@,
            stop as int,
            clean,
        )) =~= out@ + rendered(data@, stop as int, clean));
        start = stop;
    }
    assert(out@ + Seq::<u8>::empty() =~= out@);
}

/// Appends serial output with its shell prompts coloured. A line that holds no
/// prompt stays as it is.
pub fn highlight_serial_prompt(data: &[u8], out: &mut Vec<u8>)
    ensures
        final(out)@ == old(out)@ + rendered(data@, 0, true),
{
    render(data, true, out);
}

// ── Laws ────────────────────────────────────────────────────────────────────

/// Law: output of which no part holds a prompt comes out unchanged.
pub proof fn law_other_lines_stay(data: Seq<u8>, from: int, clean: bool)
    requires
        0 <= from <= data.len(),
        forall|a: int, b: int|
            0 <= a < b <= data.len() ==> rendered_line(#[trigger] data.subrange(a, b), clean)
                == data.subrange(a, b),
    ensures
        rendered(data, from, clean) == data.subrange(from, data.len() as int),
    decreases data.len() - from,
{
    if from < data.len() {
        lemma_line_stop(data, from);
        let stop = line_stop(data, from);
        law_other_lines_stay(data, stop, clean);
        let line = data.subrange(from, stop);
        assert(rendered_line(line, clean) == line);
        assert(data.subrange(from, data.len() as int) =~= line + data.subrange(
            stop,
            data.len() as int,
        ));
    } else {
        assert(data.subrange(from, data.len() as int) =~= Seq::<u8>::empty());
    }
}

/// Law: lines are coloured one by one. Output that ends with a line end can be
/// handed over on its own.
pub proof fn law_lines_are_independent(a: Seq<u8>, b: Seq<u8>, clean: bool)
    requires
        a.len() > 0 ==> a.last() == 10,
    ensures
        rendered(a + b, 0, clean) == rendered(a, 0, clean) + rendered(b, 0, clean),
        rendered(Seq::empty(), 0, clean) == Seq::<u8>::empty(),
{
    lemma_rendered_concat(a, b, 0, clean);
}

proof fn lemma_rendered_concat(a: Seq<u8>, b: Seq<u8>, from: int, clean: bool)
    requires
        a.len() > 0 ==> a.last() == 10,
        0 <= from <= a.len(),
    ensures
        rendered(a + b, from, clean) == rendered(a, from, clean) + rendered(b, 0, clean),
    decreases a.len() - from,
{
    if from == a.len() {
        lemma_rendered_shift(a, b, 0, clean);
        assert(Seq::<u8>::empty() + rendered(b, 0, clean) =~= rendered(b, 0, clean));
    } else {
        lemma_line_stop(a, from);
        lemma_line_stop_concat(a, b, from);
        let stop = line_stop(a, from);
        lemma_rendered_concat(a, b, stop, clean);
        assert((a + b).subrange(from, stop) =~= a.subrange(from, stop));
        let line = rendered_line(a.subrange(from, stop), clean);
        assert(line + (rendered(a, stop, clean) + rendered(b, 0, clean)) =~= line + rendered(
            a,
            stop,
            clean,
        ) + rendered(b, 0, clean));
    }
}

proof fn lemma_rendered_shift(a: Seq<u8>, b: Seq<u8>, from: int, clean: bool)
    requires
        0 <= from <= b.len(),
    ensures
        rendered(a + b, a.len() + from, clean) == rendered(b, from, clean),
    decreases b.len() - from,
{
    if from < b.len() {
        lemma_line_stop_shift(a, b, from);
        lemma_line_stop(b, from);
        let stop = line_stop(b, from);
        lemma_rendered_shift(a, b, stop, clean);
        assert((a + b).subrange(a.len() + from, a.len() + stop) =~= b.subrange(from, stop));
    }
}

/// The length of the colour sequence that a text starts with, zero where it
/// starts with none.
pub open spec fn colour_len(s: Seq<u8>) -> nat {
    if encode_utf8(GREEN_BOLD@).is_prefix_of(s) || encode_utf8(BLUE_BOLD@).is_prefix_of(s)
        || encode_utf8(WHITE_BOLD@).is_prefix_of(s) {
        7
    } else if encode_utf8(RESET@).is_prefix_of(s) {
        4
    } else {
        0
    }
}

/// The text without its colour sequences.
pub open spec fn uncoloured(s: Seq<u8>) -> Seq<u8>
    decreases s.len(),
{
    if s.len() == 0 {
        Seq::empty()
    } else if 0 < colour_len(s) <= s.len() {
        uncoloured(s.skip(colour_len(s) as int))
    } else {
        seq![s[0]] + uncoloured(s.skip(1))
    }
}

/// Law: colouring only adds colour sequences. Without them printable output is
/// what it was; for a line that is not freed of escape sequences it is enough that
/// it holds no escape character.
pub proof fn law_colours_are_all_that_is_added(data: Seq<u8>, clean: bool)
    requires
        if clean {
            printable(data)
        } else {
            forall|i: int| 0 <= i < data.len() ==> #[trigger] data[i] != 27
        },
    ensures
        uncoloured(rendered(data, 0, clean)) == data,
{
    lemma_uncoloured_rendered(data, 0, clean);
    assert(data.subrange(0, data.len() as int) =~= data);
}

/// No escape character stands in the bytes.
spec fn unescaped(s: Seq<u8>) -> bool {
    forall|i: int| 0 <= i < s.len() ==> #[trigger] s[i] != 27
}

proof fn lemma_uncoloured_rendered(data: Seq<u8>, from: int, clean: bool)
    requires
        0 <= from <= data.len(),
        unescaped(data),
        clean ==> printable(data),
    ensures
        uncoloured(rendered(data, from, clean)) == data.subrange(from, data.len() as int),
    decreases data.len() - from,
{
    if from < data.len() {
        lemma_line_stop(data, from);
        let stop = line_stop(data, from);
        let line = data.subrange(from, stop);
        let rest = rendered(data, stop, clean);
        lemma_uncoloured_rendered(data, stop, clean);
        assert(unescaped(line));
        assert(clean ==> printable(line));
        lemma_uncoloured_line(line, rest, clean);
        assert(data.subrange(from, data.len() as int) =~= line + data.subrange(
            stop,
            data.len() as int,
        ));
    } else {
        assert(data.subrange(from, data.len() as int) =~= Seq::<u8>::empty());
    }
}

proof fn lemma_uncoloured_line(line: Seq<u8>, rest: Seq<u8>, clean: bool)
    requires
        unescaped(line),
        clean ==> printable(line),
    ensures
        uncoloured(rendered_line(line, clean) + rest) == line + uncoloured(rest),
{
    reveal(rendered_line);
    match line_prompt(line, clean) {
        Some(p) => {
            lemma_parts_tile(line, clean);
            lemma_uncoloured_prompt(line, p, rest);
        },
        None => {
            lemma_uncoloured_plain(line, rest);
        },
    }
}

impl PromptParts {
    /// The parts follow one another from the start of a line of `n` bytes.
    spec fn tiled(self, n: int) -> bool {
        let start: int = match self.prefix {
            Some(s) => s.end as int,
            None => 0,
        };
        &&& self.well_placed(n)
        &&& self.prefix matches Some(s) ==> s.start == 0
        &&& self.user.start == start
        &&& self.separator == Some(Span { start: self.user.end, end: self.dir.start })
        &&& match self.suffix {
            Some(s) => s.start == self.dir.end && s.end == self.sigil.start,
            None => self.dir.end == self.sigil.start,
        }
    }
}

proof fn lemma_parts_tile(line: Seq<u8>, clean: bool)
    requires
        line_prompt(line, clean) is Some,
    ensures
        line_prompt(line, clean)->0.tiled(line.len() as int),
{
}

/// A colour sequence at the start goes.
proof fn lemma_uncoloured_code(code: Seq<u8>, t: Seq<u8>)
    requires
        code == encode_utf8(GREEN_BOLD@) || code == encode_utf8(BLUE_BOLD@) || code == encode_utf8(
            WHITE_BOLD@,
        ) || code == encode_utf8(RESET@),
    ensures
        uncoloured(code + t) == uncoloured(t),
{
    lemma_codes();
    let s = code + t;
    assert(code.is_prefix_of(s)) by {
        assert(s.take(code.len() as int) =~= code);
    }
    let green = encode_utf8(GREEN_BOLD@);
    let blue = encode_utf8(BLUE_BOLD@);
    let white = encode_utf8(WHITE_BOLD@);
    let reset = encode_utf8(RESET@);
    if code == reset {
        assert(s[3] == 109);
        assert(!green.is_prefix_of(s)) by {
            assert(green.is_prefix_of(s) ==> s[2] == green[2]);
        }
        assert(!blue.is_prefix_of(s)) by {
            assert(blue.is_prefix_of(s) ==> s[2] == blue[2]);
        }
        assert(!white.is_prefix_of(s)) by {
            assert(white.is_prefix_of(s) ==> s[2] == white[2]);
        }
    }
    assert(colour_len(s) == code.len());
    assert(s.skip(code.len() as int) =~= t);
}

/// The bytes of the colour sequences.
proof fn lemma_codes()
    ensures
        encode_utf8(GREEN_BOLD@) == seq![27u8, 91, 49, 59, 51, 50, 109],
        encode_utf8(BLUE_BOLD@) == seq![27u8, 91, 49, 59, 51, 52, 109],
        encode_utf8(WHITE_BOLD@) == seq![27u8, 91, 49, 59, 51, 55, 109],
        encode_utf8(RESET@) == seq![27u8, 91, 48, 109],
{
    reveal_strlit("\u{1b}[1;32m");
    reveal_strlit("\u{1b}[1;34m");
    reveal_strlit("\u{1b}[1;37m");
    reveal_strlit("\u{1b}[0m");
    vstd::utf8::is_ascii_chars_encode_utf8(GREEN_BOLD@);
    vstd::utf8::is_ascii_chars_encode_utf8(BLUE_BOLD@);
    vstd::utf8::is_ascii_chars_encode_utf8(WHITE_BOLD@);
    vstd::utf8::is_ascii_chars_encode_utf8(RESET@);
    assert(encode_utf8(GREEN_BOLD@) =~= seq![27u8, 91, 49, 59, 51, 50, 109]);
    assert(encode_utf8(BLUE_BOLD@) =~= seq![27u8, 91, 49, 59, 51, 52, 109]);
    assert(encode_utf8(WHITE_BOLD@) =~= seq![27u8, 91, 49, 59, 51, 55, 109]);
    assert(encode_utf8(RESET@) =~= seq![27u8, 91, 48, 109]);
}

/// Bytes without escape characters stay.
proof fn lemma_uncoloured_plain(d: Seq<u8>, t: Seq<u8>)
    requires
        unescaped(d),
    ensures
        uncoloured(d + t) == d + uncoloured(t),
    decreases d.len(),
{
    lemma_codes();
    if d.len() == 0 {
        assert(d + t =~= t);
        assert(d + uncoloured(t) =~= uncoloured(t));
    } else {
        let s = d + t;
        assert(s[0] == d[0]);
        assert(colour_len(s) == 0) by {
            assert(encode_utf8(GREEN_BOLD@).is_prefix_of(s) ==> s[0] == 27);
            assert(encode_utf8(BLUE_BOLD@).is_prefix_of(s) ==> s[0] == 27);
            assert(encode_utf8(WHITE_BOLD@).is_prefix_of(s) ==> s[0] == 27);
            assert(encode_utf8(RESET@).is_prefix_of(s) ==> s[0] == 27);
        }
        lemma_uncoloured_plain(d.skip(1), t);
        assert(s.skip(1) =~= d.skip(1) + t);
        assert(seq![d[0]] + (d.skip(1) + uncoloured(t)) =~= d + uncoloured(t));
    }
}

/// A prompt whose parts follow one another is the line with colours put in.
proof fn lemma_uncoloured_prompt(line: Seq<u8>, p: PromptParts, rest: Seq<u8>)
    requires
        unescaped(line),
        p.tiled(line.len() as int),
    ensures
        uncoloured(coloured(line, p) + rest) == line + uncoloured(rest),
{
    let green = encode_utf8(GREEN_BOLD@);
    let blue = encode_utf8(BLUE_BOLD@);
    let white = encode_utf8(WHITE_BOLD@);
    let reset = encode_utf8(RESET@);
    let prefix = part_of(p.prefix, line);
    let user = p.user.of(line);
    let separator = part_of(p.separator, line);
    let dir = p.dir.of(line);
    let suffix = part_of(p.suffix, line);
    let sigil = p.sigil.of(line);
    let tail = line.subrange(p.sigil.end as int, line.len() as int);
    // The text from the end to the start, part by part.
    let t6 = tail + rest;
    let t5 = sigil + (reset + t6);
    let t4 = suffix + (white + t5);
    let t3 = dir + (reset + t4);
    let t2 = separator + (blue + t3);
    let t1 = user + (reset + t2);
    let t0 = prefix + (green + t1);
    assert(coloured(line, p) + rest == t0) by {
        lemma_regrouped(
            prefix,
            green,
            user,
            reset,
            separator,
            blue,
            dir,
            suffix,
            white,
            sigil,
            tail,
            rest,
        );
    }
    lemma_uncoloured_plain(tail, rest);
    lemma_uncoloured_code(reset, t6);
    lemma_uncoloured_plain(sigil, reset + t6);
    lemma_uncoloured_code(white, t5);
    lemma_uncoloured_plain(suffix, white + t5);
    lemma_uncoloured_code(reset, t4);
    lemma_uncoloured_plain(dir, reset + t4);
    lemma_uncoloured_code(blue, t3);
    lemma_uncoloured_plain(separator, blue + t3);
    lemma_uncoloured_code(reset, t2);
    lemma_uncoloured_plain(user, reset + t2);
    lemma_uncoloured_code(green, t1);
    lemma_uncoloured_plain(prefix, green + t1);
    let u = uncoloured(rest);
    let n = line.len() as int;
    lemma_cut_joins(line, p.sigil.start as int, p.sigil.end as int, u);
    lemma_cut_joins(line, p.dir.end as int, p.sigil.start as int, u);
    assert(p.suffix is None ==> suffix =~= line.subrange(p.dir.end as int, p.sigil.start as int));
    lemma_cut_joins(line, p.dir.start as int, p.dir.end as int, u);
    lemma_cut_joins(line, p.user.end as int, p.dir.start as int, u);
    lemma_cut_joins(line, p.user.start as int, p.user.end as int, u);
    lemma_cut_joins(line, 0, p.user.start as int, u);
    assert(prefix =~= line.subrange(0, p.user.start as int));
    assert(line.subrange(0, n) =~= line);
}

/// A cut of a line and what follows it.
proof fn lemma_cut_joins(line: Seq<u8>, a: int, b: int, u: Seq<u8>)
    requires
        0 <= a <= b <= line.len(),
    ensures
        line.subrange(a, b) + (line.subrange(b, line.len() as int) + u) == line.subrange(
            a,
            line.len() as int,
        ) + u,
{
    assert(line.subrange(a, b) + (line.subrange(b, line.len() as int) + u) =~= line.subrange(
        a,
        line.len() as int,
    ) + u);
}

proof fn lemma_concat_regroups(a: Seq<u8>, b: Seq<u8>, c: Seq<u8>)
    ensures
        a + b + c == a + (b + c),
{
    assert(a + b + c =~= a + (b + c));
}

/// The parts of a coloured prompt, grouped from the right.
proof fn lemma_regrouped(
    prefix: Seq<u8>,
    green: Seq<u8>,
    user: Seq<u8>,
    reset: Seq<u8>,
    separator: Seq<u8>,
    blue: Seq<u8>,
    dir: Seq<u8>,
    suffix: Seq<u8>,
    white: Seq<u8>,
    sigil: Seq<u8>,
    tail: Seq<u8>,
    rest: Seq<u8>,
)
    ensures
        prefix + green + user + reset + separator + blue + dir + reset + suffix + white + sigil
            + reset + tail + rest == prefix + (green + (user + (reset + (separator + (blue + (dir
            + (reset + (suffix + (white + (sigil + (reset + (tail + rest)))))))))))),
{
    let y1 = prefix + green;
    let y2 = y1 + user;
    let y3 = y2 + reset;
    let y4 = y3 + separator;
    let y5 = y4 + blue;
    let y6 = y5 + dir;
    let y7 = y6 + reset;
    let y8 = y7 + suffix;
    let y9 = y8 + white;
    let y10 = y9 + sigil;
    let y11 = y10 + reset;
    let t0 = tail + rest;
    let t1 = reset + t0;
    let t2 = sigil + t1;
    let t3 = white + t2;
    let t4 = suffix + t3;
    let t5 = reset + t4;
    let t6 = dir + t5;
    let t7 = blue + t6;
    let t8 = separator + t7;
    let t9 = reset + t8;
    let t10 = user + t9;
    lemma_concat_regroups(y11, tail, rest);
    lemma_concat_regroups(y10, reset, t0);
    lemma_concat_regroups(y9, sigil, t1);
    lemma_concat_regroups(y8, white, t2);
    lemma_concat_regroups(y7, suffix, t3);
    lemma_concat_regroups(y6, reset, t4);
    lemma_concat_regroups(y5, dir, t5);
    lemma_concat_regroups(y4, blue, t6);
    lemma_concat_regroups(y3, separator, t7);
    lemma_concat_regroups(y2, reset, t8);
    lemma_concat_regroups(y1, user, t9);
    lemma_concat_regroups(prefix, green, t10);
}

/// Law: a name before a colon, a directory and a sign make a prompt, coloured green,
/// blue and white, where the name holds a letter or a digit, begins with no sign and
/// holds no bracket, slash or colon, and the directory does not begin with a space.
#[verifier::rlimit(50)]
pub proof fn law_colon_prompts(u: Seq<u8>, d: Seq<u8>, g: Seq<u8>, rest: Seq<u8>, found: Found)
    requires
        u.len() + d.len() + g.len() + 1 <= usize::MAX,
        found.user == Some(Span { start: 0, end: u.len() as usize }),
        found.dir == Some(
            Span { start: (u.len() + 1) as usize, end: (u.len() + 1 + d.len()) as usize },
        ),
        found.sigil == Some(
            Span {
                start: (u.len() + 1 + d.len()) as usize,
                end: (u.len() + 1 + d.len() + g.len()) as usize,
            },
        ),
    ensures
        ({
            let line = u + seq![58u8] + d + g + rest;
            let named = u.len() > 0 && u[0] != 47 && u[0] != 35 && u[0] != 45 && u[0] != 32 && u[0]
                != 9 && (forall|i: int|
                0 <= i < u.len() ==> #[trigger] u[i] >= 32 && u[i] != 127 && u[i] != 58 && u[i]
                    != 91 && u[i] != 93 && u[i] != 47 && u[i] != 35) && (exists|i: int|
                0 <= i < u.len() && (48 <= #[trigger] u[i] <= 57 || 65 <= u[i] <= 90 || 97 <= u[i]
                    <= 122));
            let placed = d.len() > 0 && d[0] != 32 && (forall|i: int|
                0 <= i < d.len() ==> #[trigger] d[i] >= 32 && d[i] != 127 && d[i] != 91 && d[i]
                    != 93);
            let p = colon_prompt(found, line);
            &&& p is Some <==> named && placed
            &&& p is Some ==> coloured(line, p->0) == encode_utf8("\u{1b}[1;32m"@) + u
                + encode_utf8("\u{1b}[0m"@) + seq![58u8] + encode_utf8("\u{1b}[1;34m"@) + d
                + encode_utf8("\u{1b}[0m"@) + encode_utf8("\u{1b}[1;37m"@) + g + encode_utf8(
                "\u{1b}[0m"@,
            ) + rest
        }),
{
    let line = u + seq![58u8] + d + g + rest;
    let user = found.user->0;
    let dir = found.dir->0;
    let sigil = found.sigil->0;
    assert(user.of(line) =~= u);
    assert(dir.of(line) =~= d);
    assert(sigil.of(line) =~= g);
    let sep = Span { start: user.end, end: dir.start };
    assert(sep.of(line) =~= seq![58u8]);
    assert(line.subrange(sigil.end as int, line.len() as int) =~= rest);
    lemma_names(u, d);
    if colon_prompt(found, line) is Some {
        let p = colon_prompt(found, line)->0;
        let e = Seq::<u8>::empty();
        let green = encode_utf8(GREEN_BOLD@);
        let blue = encode_utf8(BLUE_BOLD@);
        let white = encode_utf8(WHITE_BOLD@);
        let reset = encode_utf8(RESET@);
        assert(e + green =~= green);
        let a = green + u + reset + seq![58u8] + blue + d + reset;
        assert(a + e =~= a);
        assert(coloured(line, p) =~= a + white + g + reset + rest);
    }
}

#[verifier::rlimit(50)]
proof fn lemma_names(u: Seq<u8>, d: Seq<u8>)
    ensures
        is_user(u) <==> u.len() > 0 && u[0] != 47 && u[0] != 35 && u[0] != 45 && u[0] != 32 && u[0]
            != 9 && (forall|i: int|
            0 <= i < u.len() ==> #[trigger] u[i] >= 32 && u[i] != 127 && u[i] != 58 && u[i] != 91
                && u[i] != 93 && u[i] != 47 && u[i] != 35) && (exists|i: int|
            0 <= i < u.len() && (48 <= #[trigger] u[i] <= 57 || 65 <= u[i] <= 90 || 97 <= u[i]
                <= 122)),
        is_dir(d) <==> d.len() > 0 && d[0] != 32 && (forall|i: int|
            0 <= i < d.len() ==> #[trigger] d[i] >= 32 && d[i] != 127 && d[i] != 91 && d[i] != 93),
{
    if is_user(u) {
        assert forall|i: int| 0 <= i < u.len() implies #[trigger] u[i] >= 32 && u[i] != 127 && u[i]
            != 58 && u[i] != 91 && u[i] != 93 && u[i] != 47 && u[i] != 35 by {
            assert(user_byte(u[i]));
        }
        let i = choose|i: int| 0 <= i < u.len() && is_alphanumeric(#[trigger] u[i]);
        assert(48 <= u[i] <= 57 || 65 <= u[i] <= 90 || 97 <= u[i] <= 122);
    }
    if exists|i: int|
        0 <= i < u.len() && (48 <= #[trigger] u[i] <= 57 || 65 <= u[i] <= 90 || 97 <= u[i] <= 122) {
        let i = choose|i: int|
            0 <= i < u.len() && (48 <= #[trigger] u[i] <= 57 || 65 <= u[i] <= 90 || 97 <= u[i]
                <= 122);
        assert(is_alphanumeric(u[i]));
    }
    if is_dir(d) {
        assert forall|i: int| 0 <= i < d.len() implies #[trigger] d[i] >= 32 && d[i] != 127 && d[i]
            != 91 && d[i] != 93 by {
            assert(dir_byte(d[i]));
        }
    }
    if d.len() > 0 && d[0] != 32 && (forall|i: int|
        0 <= i < d.len() ==> #[trigger] d[i] >= 32 && d[i] != 127 && d[i] != 91 && d[i] != 93) {
        assert(d[0] >= 32);
        assert(is_dir(d));
    }
}

/// Law: in brackets, the name and the directory are parted by white space, and the
/// brackets keep their place.
#[verifier::rlimit(50)]
pub proof fn law_bracket_prompts(
    u: Seq<u8>,
    sp: Seq<u8>,
    d: Seq<u8>,
    g: Seq<u8>,
    rest: Seq<u8>,
    found: Found,
)
    requires
        u.len() + sp.len() + d.len() + g.len() + 2 <= usize::MAX,
        forall|i: int|
            0 <= i < sp.len() ==> (#[trigger] sp[i] == 32 || sp[i] == 9 || sp[i] == 10 || sp[i]
                == 12 || sp[i] == 13),
        found.user == Some(Span { start: 1, end: (1 + u.len()) as usize }),
        found.dir == Some(
            Span {
                start: (1 + u.len() + sp.len()) as usize,
                end: (1 + u.len() + sp.len() + d.len()) as usize,
            },
        ),
        found.sigil == Some(
            Span {
                start: (2 + u.len() + sp.len() + d.len()) as usize,
                end: (2 + u.len() + sp.len() + d.len() + g.len()) as usize,
            },
        ),
    ensures
        ({
            let line = seq![91u8] + u + sp + d + seq![93u8] + g + rest;
            let p = bracket_prompt(found, line);
            &&& p is Some <==> is_user(u) && is_dir(d)
            &&& p is Some ==> coloured(line, p->0) == seq![91u8] + encode_utf8("\u{1b}[1;32m"@) + u
                + encode_utf8("\u{1b}[0m"@) + sp + encode_utf8("\u{1b}[1;34m"@) + d + encode_utf8(
                "\u{1b}[0m"@,
            ) + seq![93u8] + encode_utf8("\u{1b}[1;37m"@) + g + encode_utf8("\u{1b}[0m"@) + rest
        }),
{
    let line = seq![91u8] + u + sp + d + seq![93u8] + g + rest;
    let user = found.user->0;
    let dir = found.dir->0;
    let sigil = found.sigil->0;
    assert(user.of(line) =~= u);
    assert(dir.of(line) =~= d);
    assert(sigil.of(line) =~= g);
    let sep = Span { start: user.end, end: dir.start };
    assert(sep.of(line) =~= sp);
    let suffix = Span { start: dir.end, end: sigil.start };
    assert(suffix.of(line) =~= seq![93u8]);
    assert((Span { start: 0, end: 1 }).of(line) =~= seq![91u8]);
    assert(line[0] == 91);
    assert(line.subrange(sigil.end as int, line.len() as int) =~= rest);
    assert(is_blank(sp));
}

/// Law: a prompt is looked for in what stands before the line's end; a line that begins
/// with white space has none, unless it was cleaned, and a line without one is shown
/// as it is.
pub proof fn law_lines_without_prompts(text: Seq<u8>, end: u8, rest: Seq<u8>, clean: bool)
    requires
        forall|i: int| 0 <= i < text.len() ==> #[trigger] text[i] != 13 && text[i] != 10,
        end == 13 || end == 10,
    ensures
        text_end(text + seq![end] + rest, 0) == text.len(),
        text_end(text, 0) == text.len(),
        text.len() > 0 && (text[0] == 32 || text[0] == 9) ==> line_prompt(
            text + seq![end] + rest,
            false,
        ) is None,
        line_prompt(Seq::empty(), clean) is None,
        !clean && line_prompt(text, false) is None ==> rendered_line(text, false) == text,
{
    let s = text + seq![end] + rest;
    assert(s[text.len() as int] == end);
    assert forall|i: int| 0 <= i < text.len() implies #[trigger] s[i] != 13 && s[i] != 10 by {
        assert(s[i] == text[i]);
    }
    lemma_text_end(s, text.len() as int, 0);
    lemma_text_whole(text, 0);
    if text.len() > 0 {
        assert(s[0] == text[0]);
    }
    reveal(rendered_line);
}

proof fn lemma_text_end(s: Seq<u8>, k: int, from: int)
    requires
        0 <= from <= k < s.len(),
        s[k] == 13 || s[k] == 10,
        forall|i: int| from <= i < k ==> #[trigger] s[i] != 13 && s[i] != 10,
    ensures
        text_end(s, from) == k,
    decreases k - from,
{
    if from < k {
        lemma_text_end(s, k, from + 1);
    }
}

proof fn lemma_text_whole(s: Seq<u8>, from: int)
    requires
        0 <= from <= s.len(),
        forall|i: int| from <= i < s.len() ==> #[trigger] s[i] != 13 && s[i] != 10,
    ensures
        text_end(s, from) == s.len(),
    decreases s.len() - from,
{
    if from < s.len() {
        lemma_text_whole(s, from + 1);
    }
}

/// Law: what is not white space does not part a name from a directory in brackets.
pub proof fn law_brackets_need_a_space(found: Found, line: Seq<u8>, i: int)
    requires
        found.user matches Some(u) && found.dir matches Some(d) && u.end <= i < d.start && d.start
            <= line.len() && line[i] != 32 && line[i] != 9 && line[i] != 10 && line[i] != 12
            && line[i] != 13,
    ensures
        bracket_prompt(found, line) is None,
{
    let u = found.user->0;
    let d = found.dir->0;
    let sep = Span { start: u.end, end: d.start };
    assert(sep.of(line)[i - u.end] == line[i]);
    assert(!is_ascii_space(line[i]));
}

} // verus!
