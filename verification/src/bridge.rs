//! Calls into outside crates.
//!
//! Each function here is trusted: its contract is believed, not proved. Where a
//! result takes a whole engine to describe, the contract names it.

use crate::command_queue::VT100_PATTERN;
use crate::highlight::is_prompt_pattern;
use vstd::prelude::*;
use vstd::string::*;
use vstd::utf8::{decode_utf8, valid_utf8};

verus! {

/// Whether `regex::bytes::Regex::new` accepts a pattern.
pub uninterp spec fn bytes_pattern_valid(pattern: Seq<char>) -> bool;

/// Whether a byte pattern matches somewhere in a text.
pub uninterp spec fn bytes_pattern_match(pattern: Seq<char>, text: Seq<u8>) -> bool;

/// Trusted: `regex::bytes::Regex::new` accepts or refuses a pattern, which
/// depends on the pattern alone.
#[verifier::external_body]
pub(crate) fn pattern_compiles(pattern: &str) -> (r: bool)
    ensures
        r == bytes_pattern_valid(pattern@),
{
    regex::bytes::Regex::new(pattern).is_ok()
}

/// Trusted: `regex::bytes::Regex::is_match` on a pattern that compiles; `None`
/// where it does not. The answer depends on the pattern and the text alone.
#[verifier::external_body]
pub(crate) fn match_bytes(pattern: &str, text: &[u8]) -> (r: Option<bool>)
    ensures
        r is Some <==> bytes_pattern_valid(pattern@),
        r is Some ==> r == Some(bytes_pattern_match(pattern@, text@)),
{
    regex::bytes::Regex::new(pattern).ok().map(|re| re.is_match(text))
}

/// Where the first match of a byte pattern ends; nothing where there is none or
/// the pattern does not compile.
pub uninterp spec fn bytes_pattern_end(pattern: Seq<char>, text: Seq<u8>) -> Option<usize>;

/// Trusted: `regex::bytes::Regex::find` and `Match::end`. The end of the
/// leftmost match depends on the pattern and the text alone and lies within the
/// text.
#[verifier::external_body]
pub(crate) fn find_end(pattern: &str, text: &[u8]) -> (r: Option<usize>)
    ensures
        r == bytes_pattern_end(pattern@, text@),
        r matches Some(e) ==> e <= text@.len(),
{
    regex::bytes::Regex::new(pattern).ok().and_then(|re| re.find(text).map(|m| m.end()))
}

/// Whether a pattern compiles and matches a text, upper and lower case being
/// the same.
pub uninterp spec fn caseless_match(pattern: Seq<char>, text: Seq<char>) -> Option<bool>;

/// Whether `regex::RegexBuilder::build` accepts a pattern.
pub uninterp spec fn caseless_valid(pattern: Seq<char>) -> bool;

/// Trusted: `regex::RegexBuilder` with `case_insensitive`, `build` and
/// `Regex::is_match`; `None` where the pattern does not compile. The answer
/// depends on the pattern and the text alone.
#[verifier::external_body]
pub(crate) fn match_caseless(pattern: &str, text: &str) -> (r: Option<bool>)
    ensures
        r == caseless_match(pattern@, text@),
        r is Some <==> caseless_valid(pattern@),
{
    regex::RegexBuilder::new(pattern).case_insensitive(true).build().ok().map(
        |re| re.is_match(text),
    )
}

/// The text with every match of a pattern replaced; nothing where the pattern
/// does not compile.
pub uninterp spec fn pattern_replaced(
    pattern: Seq<char>,
    text: Seq<char>,
    with: Seq<char>,
) -> Option<Seq<char>>;

/// The text holds neither of the characters that start an escape sequence.
pub open spec fn unescaped_text(text: Seq<char>) -> bool {
    forall|i: int| 0 <= i < text.len() ==> #[trigger] text[i] != '\u{1b}' && text[i] != '\u{9b}'
}

/// Trusted: `regex::Regex::new` and `Regex::replace_all`. The result depends on
/// the pattern, the text and the replacement alone; `None` where the pattern
/// does not compile. The pattern of escape sequences compiles, and each of its
/// alternatives starts with an escape character, so it matches nowhere in a text
/// without one; a text without a match comes back as it is.
#[verifier::external_body]
pub(crate) fn replace_all(pattern: &str, text: &str, with: &str) -> (r: Option<String>)
    ensures
        pattern@ == VT100_PATTERN@ && unescaped_text(text@) ==> r is Some && r->0@ == text@,
        crate::text::text_option(r) == pattern_replaced(pattern@, text@, with@),
{
    regex::Regex::new(pattern).ok().map(|re| re.replace_all(text, with).into_owned())
}

/// The bytes with every match of a byte pattern replaced; nothing where the
/// pattern does not compile.
pub uninterp spec fn bytes_pattern_replaced(
    pattern: Seq<char>,
    data: Seq<u8>,
    with: Seq<u8>,
) -> Option<Seq<u8>>;

/// Trusted: `regex::bytes::Regex::new` and `Regex::replace_all`. The result
/// depends on the pattern, the data and the replacement alone; `None` where the
/// pattern does not compile.
#[verifier::external_body]
pub(crate) fn replace_bytes(pattern: &str, data: &[u8], with: &[u8]) -> (r: Option<Vec<u8>>)
    ensures
        match r {
            Some(v) => bytes_pattern_replaced(pattern@, data@, with@) == Some(v@),
            None => bytes_pattern_replaced(pattern@, data@, with@) is None,
        },
{
    regex::bytes::Regex::new(pattern).ok().map(|re| re.replace_all(data, with).into_owned())
}

/// Trusted: `rand::Rng::gen_range` on the thread's generator yields some number
/// below the bound.
#[verifier::external_body]
pub(crate) fn random_below(bound: usize) -> (r: usize)
    requires
        bound > 0,
    ensures
        r < bound,
{
    rand::Rng::gen_range(&mut rand::thread_rng(), 0..bound)
}

/// The text of a byte string, ill-formed parts replaced.
pub uninterp spec fn utf8_lossy(data: Seq<u8>) -> Seq<char>;

/// Trusted: `String::from_utf8_lossy` decodes well-formed UTF-8 exactly; what it
/// puts in place of ill-formed parts depends on the data alone.
#[verifier::external_body]
pub(crate) fn lossy_text(data: &[u8]) -> (r: String)
    ensures
        r@ == utf8_lossy(data@),
        valid_utf8(data@) ==> r@ == decode_utf8(data@),
{
    String::from_utf8_lossy(data).into_owned()
}

/// The MD5 digest of a byte string.
pub uninterp spec fn md5_digest(data: Seq<u8>) -> Seq<u8>;

/// Trusted: `md5::Md5::digest` hashes the data into sixteen bytes, which depend
/// on the data alone.
#[verifier::external_body]
pub(crate) fn md5_of(data: &[u8]) -> (r: Vec<u8>)
    ensures
        r@ == md5_digest(data@),
        r@.len() == 16,
{
    <md5::Md5 as md5::Digest>::digest(data).to_vec()
}

/// Where one of the patterns of prompts first matches a text, in bytes: the start
/// and the end; nothing where it does not match or gives up.
pub uninterp spec fn lookaround_match(pattern: Seq<char>, text: Seq<char>) -> Option<
    (usize, usize),
>;

/// Trusted: `fancy_regex::Regex::new` and `Regex::find`, with `Match::start` and
/// `Match::end`, on the patterns of prompts alone: a pattern with a huge repeat
/// count can make `Regex::new` panic. The result depends on the pattern and the
/// text alone. That the start is not behind the end is not claimed.
#[verifier::external_body]
pub(crate) fn find_lookaround(pattern: &str, text: &str) -> (r: Option<(usize, usize)>)
    requires
        is_prompt_pattern(pattern@),
    ensures
        r == lookaround_match(pattern@, text@),
{
    let found = fancy_regex::Regex::new(pattern).ok()?.find(text).ok()?;
    found.map(|m| (m.start(), m.end()))
}

/// The bytes without terminal escape sequences.
pub uninterp spec fn ansi_stripped(data: Seq<u8>) -> Seq<u8>;

/// The bytes are printable ASCII and line feeds alone.
pub open spec fn printable(data: Seq<u8>) -> bool {
    forall|i: int| 0 <= i < data.len() ==> 32 <= #[trigger] data[i] <= 126 || data[i] == 10
}

/// Trusted: `strip_ansi_escapes::strip` removes escape sequences, which depends on
/// the data alone. Printable ASCII and line feeds outside of such sequences stay,
/// so data that holds nothing else comes back as it is.
#[verifier::external_body]
pub(crate) fn strip_escapes(data: &[u8]) -> (r: Vec<u8>)
    ensures
        r@ == ansi_stripped(data@),
        printable(data@) ==> r@ == data@,
{
    strip_ansi_escapes::strip(data)
}

/// Trusted: `std::str::from_utf8` accepts well-formed UTF-8 alone and decodes it.
#[verifier::external_body]
pub(crate) fn utf8_text(data: &[u8]) -> (r: Option<String>)
    ensures
        r is Some <==> valid_utf8(data@),
        r matches Some(s) ==> s@ == decode_utf8(data@),
{
    std::str::from_utf8(data).ok().map(|s| s.to_owned())
}

/// The text in lower case.
pub uninterp spec fn lowercased(text: Seq<char>) -> Seq<char>;

/// Trusted: `str::to_lowercase` maps a text to lower case by Unicode's rules,
/// which depends on the text alone.
#[verifier::external_body]
pub(crate) fn lower_text(text: &str) -> (r: String)
    ensures
        r@ == lowercased(text@),
{
    text.to_lowercase()
}

/// Declares `std::time::Instant`, a reading of the monotonic clock.
#[verifier::external_type_specification]
#[verifier::external_body]
pub struct ExInstant(std::time::Instant);

/// Trusted: `std::time::Instant::now` reads the monotonic clock. Nothing is
/// promised of the reading.
#[verifier::external_body]
pub(crate) fn clock_start() -> std::time::Instant {
    std::time::Instant::now()
}

/// Trusted: `std::time::Instant::elapsed`, in nanoseconds. Nothing is promised
/// of the amount, which depends on when the call is made.
#[verifier::external_body]
pub(crate) fn clock_nanos(start: &std::time::Instant) -> u64 {
    start.elapsed().as_nanos() as u64
}

} // verus!
