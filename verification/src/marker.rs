//! Random markers that frame a command's output.
//!
//! A marker is ten upper-case letters without R, I and D, so that it is not
//! mistaken for a log keyword such as ERROR, INFO or DEBUG.

use crate::bridge::random_below;
use vstd::prelude::*;
use vstd::string::*;

verus! {

/// The number of letters that a marker draws from.
pub const POOL_SIZE: usize = 23;

/// The length of a marker.
pub const MARKER_LEN: usize = 10;

/// The letters A to Z without D, I and R, as bytes.
pub const MARKER_POOL: [u8; 23] = [
    65,
    66,
    67,
    69,
    70,
    71,
    72,
    74,
    75,
    76,
    77,
    78,
    79,
    80,
    81,
    83,
    84,
    85,
    86,
    87,
    88,
    89,
    90,
];

/// An upper-case letter other than R, I and D.
pub open spec fn is_marker_char(c: char) -> bool {
    'A' <= c <= 'Z' && c != 'R' && c != 'I' && c != 'D'
}

/// A text that serves as a marker.
pub open spec fn is_marker(s: Seq<char>) -> bool {
    s.len() == MARKER_LEN && forall|i: int| 0 <= i < s.len() ==> is_marker_char(#[trigger] s[i])
}

/// Draws a marker.
pub fn gen_marker() -> (r: String)
    ensures
        is_marker(r@),
{
    let pool = MARKER_POOL;
    let mut s = String::new();
    let mut i: usize = 0;
    while i < MARKER_LEN
        invariant
            i <= MARKER_LEN,
            s@.len() == i,
            pool == MARKER_POOL,
            forall|j: int| 0 <= j < s@.len() ==> is_marker_char(#[trigger] s@[j]),
        decreases MARKER_LEN - i,
    {
        let k: usize = random_below(POOL_SIZE);
        let c: char = pool[k] as char;
        assert(is_marker_char(c)) by {
            lemma_pool(k as int);
        }
        s.push(c);
        i += 1;
    }
    s
}

/// Every letter of the pool may stand in a marker.
pub proof fn lemma_pool(k: int)
    requires
        0 <= k < POOL_SIZE,
    ensures
        is_marker_char(MARKER_POOL@[k] as char),
{
}

/// Law: a marker is ten capital letters, none of them R, I or D.
pub proof fn law_markers(s: Seq<char>, i: int)
    ensures
        is_marker(s) ==> s.len() == 10,
        is_marker(s) && 0 <= i < 10 ==> 'A' <= s[i] <= 'Z' && s[i] != 'R' && s[i] != 'I' && s[i]
            != 'D',
        s.len() == 10 && (forall|j: int|
            0 <= j < 10 ==> 'A' <= #[trigger] s[j] <= 'Z' && s[j] != 'R' && s[j] != 'I' && s[j]
                != 'D') ==> is_marker(s),
{
}

} // verus!
