//! Character and byte sequences: searching, splitting, trimming, numbers.
//!
//! Texts are modelled as `Seq<char>`, raw serial data as `Seq<u8>`.

use vstd::prelude::*;
use vstd::string::*;

verus! {

/// Trusted: `String::push` appends one character to the end of the string.
pub assume_specification[ String::push ](s: &mut String, c: char)
    ensures
        final(s)@ == old(s)@.push(c),
;

/// The texts held by a list of strings.
pub open spec fn texts(v: Seq<String>) -> Seq<Seq<char>> {
    v.map_values(|s: String| s@)
}

/// The text held by an optional string.
pub open spec fn text_option(o: Option<String>) -> Option<Seq<char>> {
    match o {
        Some(s) => Some(s@),
        None => None,
    }
}

/// An optional index as an optional integer.
pub open spec fn index_option(o: Option<usize>) -> Option<int> {
    match o {
        Some(i) => Some(i as int),
        None => None,
    }
}

// ── Searching ───────────────────────────────────────────────────────────────

/// `needle` stands in `hay` at index `i`.
pub open spec fn is_at<T>(hay: Seq<T>, needle: Seq<T>, i: int) -> bool {
    0 <= i && i + needle.len() <= hay.len() && hay.subrange(i, i + needle.len()) =~= needle
}

/// The first index at or after `from` where `needle` stands in `hay`.
pub open spec fn find_from<T>(hay: Seq<T>, needle: Seq<T>, from: int) -> Option<int>
    decreases hay.len() - from,
{
    if from < 0 || from + needle.len() > hay.len() {
        None
    } else if is_at(hay, needle, from) {
        Some(from)
    } else {
        find_from(hay, needle, from + 1)
    }
}

/// The first index where `needle` stands in `hay`.
pub open spec fn find_seq<T>(hay: Seq<T>, needle: Seq<T>) -> Option<int> {
    find_from(hay, needle, 0)
}

/// `needle` stands somewhere in `hay`.
pub open spec fn occurs<T>(hay: Seq<T>, needle: Seq<T>) -> bool {
    find_seq(hay, needle) is Some
}

/// `find_from` yields exactly the first occurrence at or after `from`.
pub proof fn lemma_find_from<T>(hay: Seq<T>, needle: Seq<T>, from: int)
    requires
        0 <= from,
    ensures
        find_from(hay, needle, from) matches Some(i) ==> from <= i && is_at(hay, needle, i)
            && forall|j: int| from <= j < i ==> !is_at(hay, needle, j),
        find_from(hay, needle, from) is None ==> forall|j: int|
            from <= j ==> !is_at(hay, needle, j),
    decreases hay.len() - from,
{
    if from + needle.len() > hay.len() || is_at(hay, needle, from) {
    } else {
        lemma_find_from(hay, needle, from + 1);
    }
}

/// A text occurs exactly if it stands at some index.
pub proof fn lemma_occurs<T>(hay: Seq<T>, needle: Seq<T>)
    ensures
        occurs(hay, needle) <==> exists|i: int| is_at(hay, needle, i),
{
    lemma_find_from(hay, needle, 0);
}

/// Whether `needle` stands in `haystack` at `i`.
pub fn bytes_at(haystack: &[u8], needle: &[u8], i: usize) -> (r: bool)
    ensures
        r == is_at(haystack@, needle@, i as int),
{
    if i > haystack.len() || needle.len() > haystack.len() - i {
        return false;
    }
    let mut k: usize = 0;
    while k < needle.len()
        invariant
            k <= needle@.len(),
            i + needle@.len() <= haystack.len(),
            forall|j: int| 0 <= j < k ==> haystack@[i + j] == needle@[j],
        decreases needle@.len() - k,
    {
        if haystack[i + k] != needle[k] {
            assert(haystack@.subrange(i as int, i + needle@.len())[k as int] != needle@[k as int]);
            return false;
        }
        k += 1;
    }
    assert(haystack@.subrange(i as int, i + needle@.len()) =~= needle@);
    true
}

/// Whether `needle` stands in `haystack` at `i`.
pub fn chars_at(haystack: &[char], needle: &[char], i: usize) -> (r: bool)
    ensures
        r == is_at(haystack@, needle@, i as int),
{
    if i > haystack.len() || needle.len() > haystack.len() - i {
        return false;
    }
    let mut k: usize = 0;
    while k < needle.len()
        invariant
            k <= needle@.len(),
            i + needle@.len() <= haystack.len(),
            forall|j: int| 0 <= j < k ==> haystack@[i + j] == needle@[j],
        decreases needle@.len() - k,
    {
        if haystack[i + k] != needle[k] {
            assert(haystack@.subrange(i as int, i + needle@.len())[k as int] != needle@[k as int]);
            return false;
        }
        k += 1;
    }
    assert(haystack@.subrange(i as int, i + needle@.len()) =~= needle@);
    true
}

/// The first index of `needle` in `haystack`, an empty needle standing at 0.
pub fn find_bytes(haystack: &[u8], needle: &[u8]) -> (r: Option<usize>)
    ensures
        index_option(r) == find_seq(haystack@, needle@),
{
    if needle.len() > haystack.len() {
        return None;
    }
    let last: usize = haystack.len() - needle.len();
    let mut i: usize = 0;
    while i <= last
        invariant
            last + needle@.len() == haystack@.len(),
            i <= last + 1,
            find_from(haystack@, needle@, i as int) == find_seq(haystack@, needle@),
        decreases last + 1 - i,
    {
        if bytes_at(haystack, needle, i) {
            return Some(i);
        }
        if i == last {
            assert(find_from(haystack@, needle@, i + 1) is None);
            return None;
        }
        i += 1;
    }
    None
}

/// The first index of `needle` in `haystack`, an empty needle standing at 0.
pub fn find_chars(haystack: &[char], needle: &[char]) -> (r: Option<usize>)
    ensures
        index_option(r) == find_seq(haystack@, needle@),
{
    if needle.len() > haystack.len() {
        return None;
    }
    let last: usize = haystack.len() - needle.len();
    let mut i: usize = 0;
    while i <= last
        invariant
            last + needle@.len() == haystack@.len(),
            i <= last + 1,
            find_from(haystack@, needle@, i as int) == find_seq(haystack@, needle@),
        decreases last + 1 - i,
    {
        if chars_at(haystack, needle, i) {
            return Some(i);
        }
        if i == last {
            assert(find_from(haystack@, needle@, i + 1) is None);
            return None;
        }
        i += 1;
    }
    None
}

/// The last index at or before `from` where `needle` stands in `hay`.
pub open spec fn rfind_from<T>(hay: Seq<T>, needle: Seq<T>, from: int) -> Option<int>
    decreases from + 1,
{
    if from < 0 {
        None
    } else if is_at(hay, needle, from) {
        Some(from)
    } else {
        rfind_from(hay, needle, from - 1)
    }
}

/// The last index where `needle` stands in `hay`.
pub open spec fn rfind_seq<T>(hay: Seq<T>, needle: Seq<T>) -> Option<int> {
    rfind_from(hay, needle, hay.len() as int)
}

/// The last index of `needle` in `haystack`.
pub fn rfind_chars(haystack: &[char], needle: &[char]) -> (r: Option<usize>)
    ensures
        index_option(r) == rfind_seq(haystack@, needle@),
        r matches Some(i) ==> i + needle@.len() <= haystack@.len(),
{
    let mut i: usize = haystack.len();
    while i > 0
        invariant
            i <= haystack@.len(),
            rfind_from(haystack@, needle@, i as int) == rfind_seq(haystack@, needle@),
        decreases i,
    {
        if chars_at(haystack, needle, i) {
            return Some(i);
        }
        i -= 1;
    }
    if chars_at(haystack, needle, 0) {
        Some(0)
    } else {
        assert(rfind_from(haystack@, needle@, -1) is None);
        None
    }
}

// ── Strings and character lists ─────────────────────────────────────────────

/// The characters of a text.
pub fn chars_of(s: &str) -> (v: Vec<char>)
    ensures
        v@ == s@,
{
    let mut v: Vec<char> = Vec::new();
    for c in it: s.chars()
        invariant
            it.seq() == s@,
            v@.len() == it.index(),
            forall|i: int| 0 <= i < v@.len() ==> v@[i] == it.seq()[i],
    {
        v.push(c);
    }
    assert(v@ =~= s@);
    v
}

/// The text made of the characters from index `from` up to `to`.
pub fn string_of_range(v: &[char], from: usize, to: usize) -> (s: String)
    requires
        from <= to <= v@.len(),
    ensures
        s@ == v@.subrange(from as int, to as int),
{
    let mut s = String::new();
    let mut i: usize = from;
    while i < to
        invariant
            from <= i <= to <= v@.len(),
            s@ == v@.subrange(from as int, i as int),
        decreases to - i,
    {
        s.push(v[i]);
        assert(v@.subrange(from as int, i as int).push(v@[i as int]) =~= v@.subrange(
            from as int,
            i + 1,
        ));
        i += 1;
    }
    s
}

/// The text made of the given characters.
pub fn string_of(v: &[char]) -> (s: String)
    ensures
        s@ == v@,
{
    let s = string_of_range(v, 0, v.len());
    assert(v@.subrange(0, v@.len() as int) =~= v@);
    s
}

/// Whether two texts are equal.
pub fn eq_text(a: &str, b: &str) -> (r: bool)
    ensures
        r == (a@ == b@),
{
    let x = a.to_owned();
    let y = b.to_owned();
    x == y
}

/// Whether `needle` occurs in `hay`.
pub fn contains_text(hay: &str, needle: &str) -> (r: bool)
    ensures
        r == occurs(hay@, needle@),
{
    let h = chars_of(hay);
    let n = chars_of(needle);
    find_chars(&h, &n).is_some()
}

/// Whether `s` starts with `prefix`.
pub fn starts_with_text(s: &str, prefix: &str) -> (r: bool)
    ensures
        r == is_at(s@, prefix@, 0),
{
    let h = chars_of(s);
    let n = chars_of(prefix);
    chars_at(&h, &n, 0)
}

/// Where the line that starts at an index ends, with its line feed.
pub open spec fn line_stop(data: Seq<u8>, from: int) -> int
    decreases data.len() - from,
{
    if from < 0 || from >= data.len() {
        data.len() as int
    } else if data[from] == 10 {
        from + 1
    } else {
        line_stop(data, from + 1)
    }
}

/// A line holds at least a byte and ends within the data.
pub proof fn lemma_line_stop(data: Seq<u8>, from: int)
    requires
        0 <= from < data.len(),
    ensures
        from < line_stop(data, from) <= data.len(),
    decreases data.len() - from,
{
    reveal_with_fuel(line_stop, 2);
    if data[from] != 10 && from + 1 < data.len() {
        lemma_line_stop(data, from + 1);
    }
}

/// Data that ends with a line end has its lines whatever follows.
pub proof fn lemma_line_stop_concat(a: Seq<u8>, b: Seq<u8>, from: int)
    requires
        a.len() > 0,
        a.last() == 10,
        0 <= from < a.len(),
    ensures
        line_stop(a + b, from) == line_stop(a, from),
    decreases a.len() - from,
{
    if a[from] != 10 {
        lemma_line_stop_concat(a, b, from + 1);
    }
}

/// Lines behind other data are where they were, moved by its length.
pub proof fn lemma_line_stop_shift(a: Seq<u8>, b: Seq<u8>, from: int)
    requires
        0 <= from,
    ensures
        line_stop(a + b, a.len() + from) == a.len() + line_stop(b, from),
    decreases b.len() - from,
{
    if from < b.len() && b[from] != 10 {
        lemma_line_stop_shift(a, b, from + 1);
    }
}

/// The text with every occurrence of `needle` replaced, from the left.
pub open spec fn replaced(s: Seq<char>, needle: Seq<char>, with: Seq<char>) -> Seq<char>
    decreases s.len(),
{
    match find_seq(s, needle) {
        None => s,
        Some(i) => if needle.len() == 0 || i < 0 || i + needle.len() > s.len() {
            s
        } else {
            s.subrange(0, i) + with + replaced(
                s.subrange(i + needle.len(), s.len() as int),
                needle,
                with,
            )
        },
    }
}

/// The text with every occurrence of `needle` replaced.
pub fn replace_text(s: &str, needle: &str, with: &str) -> (r: String)
    requires
        needle@.len() > 0,
    ensures
        r@ == replaced(s@, needle@, with@),
{
    let n = chars_of(needle);
    let mut rest = chars_of(s);
    let mut r = String::new();
    assert(r@ + replaced(rest@, needle@, with@) =~= replaced(s@, needle@, with@));
    loop
        invariant_except_break
            r@ + replaced(rest@, needle@, with@) == replaced(s@, needle@, with@),
        invariant
            n@ == needle@,
            needle@.len() > 0,
        ensures
            r@ + rest@ == replaced(s@, needle@, with@),
        decreases rest@.len(),
    {
        let len: usize = rest.len();
        match find_chars(&rest, &n) {
            None => {
                break;
            },
            Some(i) => {
                proof {
                    lemma_find_from(rest@, n@, 0);
                }
                let ghost done = r@;
                let ghost head = rest@.subrange(0, i as int);
                let ghost tail = rest@.subrange(i + n@.len(), len as int);
                let before = string_of_range(&rest, 0, i);
                r.append(&before);
                r.append(with);
                let after = string_of_range(&rest, i + n.len(), len);
                rest = chars_of(&after);
                assert(done + (head + with@ + replaced(tail, needle@, with@)) =~= done + head
                    + with@ + replaced(tail, needle@, with@));
            },
        }
    }
    r.append(&string_of(&rest));
    r
}

/// The two texts one after the other.
pub fn cat(a: &str, b: &str) -> (s: String)
    ensures
        s@ == a@ + b@,
{
    let mut s = a.to_owned();
    s.append(b);
    s
}

/// The three texts one after the other.
pub fn cat3(a: &str, b: &str, c: &str) -> (s: String)
    ensures
        s@ == a@ + b@ + c@,
{
    let mut s = a.to_owned();
    s.append(b);
    s.append(c);
    s
}

/// A list holding copies of the same texts.
pub fn clone_texts(v: &Vec<String>) -> (r: Vec<String>)
    ensures
        r@ == v@,
{
    let mut r: Vec<String> = Vec::new();
    let mut i: usize = 0;
    while i < v.len()
        invariant
            i <= v@.len(),
            r@ == v@.subrange(0, i as int),
        decreases v@.len() - i,
    {
        r.push(v[i].clone());
        assert(v@.subrange(0, i + 1) =~= v@.subrange(0, i as int).push(v@[i as int]));
        i += 1;
    }
    assert(v@.subrange(0, v@.len() as int) =~= v@);
    r
}

/// A copy of a byte slice.
pub fn copy_bytes(s: &[u8]) -> (v: Vec<u8>)
    ensures
        v@ == s@,
{
    let mut v: Vec<u8> = Vec::new();
    append_bytes(&mut v, s);
    assert(v@ =~= s@);
    v
}

/// Appends `s` to `v`.
pub fn append_bytes(v: &mut Vec<u8>, s: &[u8])
    ensures
        final(v)@ == old(v)@ + s@,
{
    v.extend_from_slice(s);
    assert(v@ =~= old(v)@ + s@);
}

/// The bytes of `s` from index `from` up to `to`.
pub fn bytes_range(s: &[u8], from: usize, to: usize) -> (v: Vec<u8>)
    requires
        from <= to <= s@.len(),
    ensures
        v@ == s@.subrange(from as int, to as int),
{
    copy_bytes(&s[from..to])
}

// ── Paths ───────────────────────────────────────────────────────────────────

/// `rest` below the directory `base`: an absolute `rest` stands for itself,
/// otherwise one slash separates the two.
pub open spec fn joined_path(base: Seq<char>, rest: Seq<char>) -> Seq<char> {
    if rest.len() > 0 && rest[0] == '/' {
        rest
    } else if base.len() == 0 {
        rest
    } else if base.last() == '/' {
        base + rest
    } else {
        base.push('/') + rest
    }
}

/// The path of `rest` below the directory `base`.
pub fn join_path(base: &str, rest: &str) -> (r: String)
    ensures
        r@ == joined_path(base@, rest@),
{
    let b = chars_of(base);
    let t = chars_of(rest);
    if t.len() > 0 && t[0] == '/' {
        rest.to_owned()
    } else if b.len() == 0 {
        rest.to_owned()
    } else {
        let mut r = base.to_owned();
        if b[b.len() - 1] != '/' {
            r.push('/');
        }
        r.append(rest);
        r
    }
}

// ── White space ─────────────────────────────────────────────────────────────

/// The characters with the Unicode property `White_Space`.
pub open spec fn is_space(c: char) -> bool {
    let u = c as u32;
    ||| 0x09 <= u <= 0x0d
    ||| u == 0x20
    ||| u == 0x85
    ||| u == 0xa0
    ||| u == 0x1680
    ||| 0x2000 <= u <= 0x200a
    ||| u == 0x2028
    ||| u == 0x2029
    ||| u == 0x202f
    ||| u == 0x205f
    ||| u == 0x3000
}

/// Whether a character is white space.
pub fn space(c: char) -> (r: bool)
    ensures
        r == is_space(c),
{
    let u: u32 = c as u32;
    (0x09 <= u && u <= 0x0d) || u == 0x20 || u == 0x85 || u == 0xa0 || u == 0x1680 || (0x2000 <= u
        && u <= 0x200a) || u == 0x2028 || u == 0x2029 || u == 0x202f || u == 0x205f || u == 0x3000
}

/// `s` without its leading white space.
pub open spec fn trim_start(s: Seq<char>) -> Seq<char>
    decreases s.len(),
{
    if s.len() > 0 && is_space(s[0]) {
        trim_start(s.subrange(1, s.len() as int))
    } else {
        s
    }
}

/// `s` without its trailing white space.
pub open spec fn trim_end(s: Seq<char>) -> Seq<char>
    decreases s.len(),
{
    if s.len() > 0 && is_space(s.last()) {
        trim_end(s.drop_last())
    } else {
        s
    }
}

/// `s` without leading and trailing white space.
pub open spec fn trim(s: Seq<char>) -> Seq<char> {
    trim_end(trim_start(s))
}

/// The text without a character.
pub open spec fn without(s: Seq<char>, c: char) -> Seq<char>
    decreases s.len(),
{
    if s.len() == 0 {
        Seq::empty()
    } else if s.last() == c {
        without(s.drop_last(), c)
    } else {
        without(s.drop_last(), c).push(s.last())
    }
}

/// Removes every occurrence of a character.
pub fn remove_char(s: &str, c: char) -> (r: String)
    ensures
        r@ == without(s@, c),
{
    let v = chars_of(s);
    let mut r = String::new();
    let mut i: usize = 0;
    assert(v@.subrange(0, 0) =~= Seq::<char>::empty());
    while i < v.len()
        invariant
            i <= v@.len(),
            r@ == without(v@.subrange(0, i as int), c),
        decreases v@.len() - i,
    {
        assert(v@.subrange(0, i + 1).drop_last() =~= v@.subrange(0, i as int));
        if v[i] != c {
            r.push(v[i]);
        }
        i += 1;
    }
    assert(v@.subrange(0, i as int) =~= v@);
    r
}

/// The bounds of `trim` within the given characters.
pub fn trim_bounds(s: &[char]) -> (r: (usize, usize))
    ensures
        r.0 <= r.1 <= s@.len(),
        s@.subrange(r.0 as int, r.1 as int) == trim(s@),
{
    let n: usize = s.len();
    let mut a: usize = 0;
    assert(s@.subrange(0, n as int) =~= s@);
    while a < n && space(s[a])
        invariant
            n == s@.len(),
            a <= n,
            trim_start(s@.subrange(a as int, n as int)) == trim_start(s@),
        decreases n - a,
    {
        assert(s@.subrange(a as int, n as int).subrange(1, n - a) =~= s@.subrange(
            a + 1,
            n as int,
        ));
        a += 1;
    }
    let mut b: usize = n;
    while a < b && space(s[b - 1])
        invariant
            n == s@.len(),
            a <= b <= n,
            trim_end(s@.subrange(a as int, b as int)) == trim(s@),
        decreases b - a,
    {
        assert(s@.subrange(a as int, b as int).drop_last() =~= s@.subrange(a as int, b - 1));
        b -= 1;
    }
    (a, b)
}

/// The text without leading and trailing white space.
pub fn trim_text(s: &str) -> (r: String)
    ensures
        r@ == trim(s@),
{
    let v = chars_of(s);
    let (a, b) = trim_bounds(&v);
    string_of_range(&v, a, b)
}

/// ASCII white space, without the vertical tab.
pub open spec fn is_ascii_space(b: u8) -> bool {
    b == 32 || b == 9 || b == 10 || b == 12 || b == 13
}

/// Whether a byte is ASCII white space, the vertical tab apart.
pub fn ascii_space(b: u8) -> (r: bool)
    ensures
        r == is_ascii_space(b),
{
    b == 32 || b == 9 || b == 10 || b == 12 || b == 13
}

/// `s` without its leading ASCII white space.
pub open spec fn trim_bytes_start(s: Seq<u8>) -> Seq<u8>
    decreases s.len(),
{
    if s.len() > 0 && is_ascii_space(s[0]) {
        trim_bytes_start(s.subrange(1, s.len() as int))
    } else {
        s
    }
}

/// `s` without its trailing ASCII white space.
pub open spec fn trim_bytes_end(s: Seq<u8>) -> Seq<u8>
    decreases s.len(),
{
    if s.len() > 0 && is_ascii_space(s.last()) {
        trim_bytes_end(s.drop_last())
    } else {
        s
    }
}

/// The bytes without their leading ASCII white space.
pub fn trim_start_of(s: &[u8]) -> (r: &[u8])
    ensures
        r@ == trim_bytes_start(s@),
{
    let n: usize = s.len();
    let mut a: usize = 0;
    assert(s@.subrange(0, n as int) =~= s@);
    while a < n && ascii_space(s[a])
        invariant
            n == s@.len(),
            a <= n,
            trim_bytes_start(s@.subrange(a as int, n as int)) == trim_bytes_start(s@),
        decreases n - a,
    {
        assert(s@.subrange(a as int, n as int).subrange(1, n - a) =~= s@.subrange(
            a + 1,
            n as int,
        ));
        a += 1;
    }
    &s[a..n]
}

/// The bytes without their trailing ASCII white space.
pub fn trim_end_of(s: &[u8]) -> (r: &[u8])
    ensures
        r@ == trim_bytes_end(s@),
{
    let mut b: usize = s.len();
    assert(s@.subrange(0, b as int) =~= s@);
    while b > 0 && ascii_space(s[b - 1])
        invariant
            b <= s@.len(),
            trim_bytes_end(s@.subrange(0, b as int)) == trim_bytes_end(s@),
        decreases b,
    {
        assert(s@.subrange(0, b as int).drop_last() =~= s@.subrange(0, b - 1));
        b -= 1;
    }
    &s[0..b]
}

// ── Splitting and joining ───────────────────────────────────────────────────

/// The first index at or after `from` holding `c`, or the length.
pub open spec fn next_index(s: Seq<char>, c: char, from: int) -> int
    decreases s.len() - from,
{
    if from < 0 || from >= s.len() {
        s.len() as int
    } else if s[from] == c {
        from
    } else {
        next_index(s, c, from + 1)
    }
}

/// `next_index` lies between its start and the length.
pub proof fn lemma_next_index(s: Seq<char>, c: char, from: int)
    requires
        0 <= from <= s.len(),
    ensures
        from <= next_index(s, c, from) <= s.len(),
        next_index(s, c, from) < s.len() ==> s[next_index(s, c, from)] == c,
        forall|j: int| from <= j < next_index(s, c, from) ==> s[j] != c,
    decreases s.len() - from,
{
    if from < s.len() && s[from] != c {
        lemma_next_index(s, c, from + 1);
    }
}

/// The first index at or after `from` holding `c`, or the length.
pub fn index_from(s: &[char], c: char, from: usize) -> (r: usize)
    requires
        from <= s@.len(),
    ensures
        r == next_index(s@, c, from as int),
        from <= r <= s@.len(),
{
    let mut i: usize = from;
    while i < s.len()
        invariant
            from <= i <= s@.len(),
            next_index(s@, c, i as int) == next_index(s@, c, from as int),
        decreases s@.len() - i,
    {
        if s[i] == c {
            return i;
        }
        i += 1;
    }
    i
}

/// The lines of `s` from index `from` on. A line ends at a line feed, with or
/// without a carriage return before it; the last line need not end so.
pub open spec fn lines_from(s: Seq<char>, from: int) -> Seq<Seq<char>>
    decreases s.len() - from,
{
    if from < 0 || from >= s.len() {
        Seq::empty()
    } else {
        let e = next_index(s, '\n', from);
        if e >= s.len() || e < from {
            seq![s.subrange(from, s.len() as int)]
        } else {
            let end = if from < e && s[e - 1] == '\r' {
                e - 1
            } else {
                e
            };
            seq![s.subrange(from, end)] + lines_from(s, e + 1)
        }
    }
}

/// The lines of a text.
pub open spec fn lines(s: Seq<char>) -> Seq<Seq<char>> {
    lines_from(s, 0)
}

/// The lines of a text.
pub fn lines_of(s: &str) -> (r: Vec<String>)
    ensures
        texts(r@) == lines(s@),
{
    let v = chars_of(s);
    let mut r: Vec<String> = Vec::new();
    let mut from: usize = 0;
    assert(texts(r@) + lines(v@) =~= lines(v@));
    while from < v.len()
        invariant
            v@ == s@,
            from <= v@.len(),
            texts(r@) + lines_from(v@, from as int) == lines(v@),
        decreases v@.len() - from,
    {
        let e: usize = index_from(&v, '\n', from);
        let end: usize = if e < v.len() && from < e && v[e - 1] == '\r' {
            e - 1
        } else {
            e
        };
        let line = string_of_range(&v, from, end);
        let ghost before = r@;
        r.push(line);
        assert(texts(r@) =~= texts(before).push(line@));
        if e >= v.len() {
            assert(texts(r@) =~= texts(before) + seq![line@]);
            return r;
        }
        assert(texts(r@) + lines_from(v@, e + 1) =~= texts(before) + (seq![line@] + lines_from(
            v@,
            e + 1,
        )));
        from = e + 1;
    }
    assert(texts(r@) + lines_from(v@, from as int) =~= texts(r@));
    r
}

/// The pieces of `s` from index `from` on, split at each `c`.
pub open spec fn pieces_from(s: Seq<char>, c: char, from: int) -> Seq<Seq<char>>
    decreases s.len() - from,
{
    let e = next_index(s, c, from);
    if from < 0 || e >= s.len() || e < from {
        seq![s.subrange(from, s.len() as int)]
    } else {
        seq![s.subrange(from, e)] + pieces_from(s, c, e + 1)
    }
}

/// The pieces of `s` between occurrences of `c`.
pub open spec fn pieces(s: Seq<char>, c: char) -> Seq<Seq<char>> {
    pieces_from(s, c, 0)
}

/// The pieces of a text between occurrences of `c`.
pub fn split_text(s: &str, c: char) -> (r: Vec<String>)
    ensures
        texts(r@) == pieces(s@, c),
        r@.len() > 0,
{
    let v = chars_of(s);
    let mut r: Vec<String> = Vec::new();
    let mut from: usize = 0;
    assert(texts(r@) + pieces(v@, c) =~= pieces(v@, c));
    loop
        invariant
            v@ == s@,
            from <= v@.len(),
            texts(r@) + pieces_from(v@, c, from as int) == pieces(v@, c),
        decreases v@.len() - from,
    {
        let e: usize = index_from(&v, c, from);
        let piece = string_of_range(&v, from, e);
        let ghost before = r@;
        r.push(piece);
        assert(texts(r@) =~= texts(before).push(piece@));
        if e >= v.len() {
            assert(texts(r@) =~= texts(before) + seq![piece@]);
            return r;
        }
        assert(texts(r@) + pieces_from(v@, c, e + 1) =~= texts(before) + (seq![piece@]
            + pieces_from(v@, c, e + 1)));
        from = e + 1;
    }
}

/// The parts with `sep` between each two.
pub open spec fn joined(parts: Seq<Seq<char>>, sep: Seq<char>) -> Seq<char>
    decreases parts.len(),
{
    if parts.len() == 0 {
        Seq::empty()
    } else if parts.len() == 1 {
        parts[0]
    } else {
        joined(parts.drop_last(), sep) + sep + parts.last()
    }
}

/// The parts with `sep` between each two.
pub fn join_texts(parts: &[String], sep: &str) -> (r: String)
    ensures
        r@ == joined(texts(parts@), sep@),
{
    let mut r = String::new();
    let mut i: usize = 0;
    while i < parts.len()
        invariant
            i <= parts@.len(),
            r@ == joined(texts(parts@).subrange(0, i as int), sep@),
        decreases parts@.len() - i,
    {
        if i > 0 {
            r.append(sep);
        }
        r.append(parts[i].as_str());
        let ghost t = texts(parts@).subrange(0, i + 1);
        assert(t.drop_last() =~= texts(parts@).subrange(0, i as int));
        assert(t.last() == parts@[i as int]@);
        assert(i == 0 ==> r@ =~= parts@[i as int]@);
        i += 1;
    }
    assert(texts(parts@).subrange(0, i as int) =~= texts(parts@));
    r
}

// ── Numbers ─────────────────────────────────────────────────────────────────

/// Whether a character is a decimal digit.
pub open spec fn is_digit(c: char) -> bool {
    '0' <= c <= '9'
}

/// The value of a decimal digit.
pub open spec fn digit_value(c: char) -> nat {
    (c as u32 - '0' as u32) as nat
}

/// Every character is a decimal digit.
pub open spec fn all_digits(s: Seq<char>) -> bool {
    forall|i: int| 0 <= i < s.len() ==> is_digit(#[trigger] s[i])
}

/// The number written by decimal digits.
pub open spec fn digits_value(s: Seq<char>) -> nat
    decreases s.len(),
{
    if s.len() == 0 {
        0
    } else {
        digits_value(s.drop_last()) * 10 + digit_value(s.last())
    }
}

/// An unsigned number no greater than `max`, with an optional plus sign.
pub open spec fn parse_unsigned(s: Seq<char>, max: nat) -> Option<nat> {
    let d = if s.len() > 0 && s[0] == '+' {
        s.subrange(1, s.len() as int)
    } else {
        s
    };
    if d.len() > 0 && all_digits(d) && digits_value(d) <= max {
        Some(digits_value(d))
    } else {
        None
    }
}

/// A signed number from `min` to `max`, with an optional sign.
pub open spec fn parse_signed(s: Seq<char>, min: int, max: int) -> Option<int> {
    let signed = s.len() > 0 && (s[0] == '+' || s[0] == '-');
    let d = if signed {
        s.subrange(1, s.len() as int)
    } else {
        s
    };
    let v = if signed && s[0] == '-' {
        -(digits_value(d) as int)
    } else {
        digits_value(d) as int
    };
    if d.len() > 0 && all_digits(d) && min <= v <= max {
        Some(v)
    } else {
        None
    }
}

/// More digits never make the number smaller.
pub proof fn lemma_digits_grow(s: Seq<char>, k: int)
    requires
        0 <= k <= s.len(),
    ensures
        digits_value(s.subrange(0, k)) <= digits_value(s),
    decreases s.len(),
{
    if k == s.len() {
        assert(s.subrange(0, k) =~= s);
    } else {
        lemma_digits_grow(s.drop_last(), k);
        assert(s.drop_last().subrange(0, k) =~= s.subrange(0, k));
    }
}

/// The number written by the digits from `from` on, or `None` where there is
/// no digit, another character, or a number above `max`.
fn parse_digits(v: &[char], from: usize, max: u64) -> (r: Option<u64>)
    requires
        from <= v@.len(),
    ensures
        ({
            let d = v@.subrange(from as int, v@.len() as int);
            if d.len() > 0 && all_digits(d) && digits_value(d) <= max {
                r is Some && r->0 == digits_value(d)
            } else {
                r is None
            }
        }),
{
    let ghost d = v@.subrange(from as int, v@.len() as int);
    if from >= v.len() {
        return None;
    }
    let mut acc: u64 = 0;
    let mut i: usize = from;
    assert(d.subrange(0, 0) =~= Seq::<char>::empty());
    while i < v.len()
        invariant
            from <= i <= v@.len(),
            d == v@.subrange(from as int, v@.len() as int),
            acc == digits_value(d.subrange(0, i - from)),
            acc <= max,
            forall|j: int| 0 <= j < i - from ==> is_digit(#[trigger] d[j]),
        decreases v@.len() - i,
    {
        let c = v[i];
        assert(c == d[i - from]);
        if c < '0' || c > '9' {
            assert(!is_digit(d[i - from]));
            return None;
        }
        let x: u64 = (c as u32 - '0' as u32) as u64;
        proof {
            let p = d.subrange(0, i - from + 1);
            assert(p.drop_last() =~= d.subrange(0, i - from));
            assert(digits_value(p) == acc * 10 + x);
            lemma_digits_grow(d, i - from + 1);
        }
        if acc > (u64::MAX - x) / 10 || acc * 10 + x > max {
            return None;
        }
        acc = acc * 10 + x;
        i += 1;
    }
    assert(d.subrange(0, i - from) =~= d);
    Some(acc)
}

/// Reads an unsigned number no greater than `max`.
pub fn parse_uint(s: &str, max: u64) -> (r: Option<u64>)
    ensures
        match r {
            Some(n) => parse_unsigned(s@, max as nat) == Some(n as nat),
            None => parse_unsigned(s@, max as nat) is None,
        },
{
    let v = chars_of(s);
    if v.len() > 0 && v[0] == '+' {
        parse_digits(&v, 1, max)
    } else {
        assert(v@.subrange(0, v@.len() as int) =~= v@);
        parse_digits(&v, 0, max)
    }
}

/// Reads a signed number from `-max - 1` to `max`.
pub fn parse_int(s: &str, max: i64) -> (r: Option<i64>)
    requires
        0 <= max,
    ensures
        match r {
            Some(n) => parse_signed(s@, -(max as int) - 1, max as int) == Some(n as int),
            None => parse_signed(s@, -(max as int) - 1, max as int) is None,
        },
{
    let v = chars_of(s);
    let negative: bool = v.len() > 0 && v[0] == '-';
    let signed: bool = negative || (v.len() > 0 && v[0] == '+');
    let from: usize = if signed {
        1
    } else {
        0
    };
    assert(v@.subrange(0, v@.len() as int) =~= v@);
    let limit: u64 = if negative {
        max as u64 + 1
    } else {
        max as u64
    };
    match parse_digits(&v, from, limit) {
        None => None,
        Some(n) => {
            if negative {
                if n == limit {
                    Some(-max - 1)
                } else {
                    Some(-(n as i64))
                }
            } else {
                Some(n as i64)
            }
        },
    }
}

/// The character of a hexadecimal digit, the decimal ones first.
pub open spec fn digit_char(d: nat) -> char {
    if d < 10 {
        ('0' as u32 + d) as char
    } else {
        ('a' as u32 + (d - 10)) as char
    }
}

/// The character of a digit below 16.
pub fn digit_to_char(d: u8) -> (c: char)
    requires
        d < 16,
    ensures
        c == digit_char(d as nat),
{
    if d < 10 {
        (48 + d) as char
    } else {
        (97 + (d - 10)) as char
    }
}

/// `n` written in the given base, without leading zeros.
pub open spec fn radix(n: nat, base: nat) -> Seq<char>
    decreases n,
{
    if n < base || base < 2 {
        seq![digit_char(n)]
    } else {
        proof {
            assert(n / base < n) by (nonlinear_arith)
                requires
                    n >= base,
                    base >= 2,
            ;
        }
        radix(n / base, base).push(digit_char(n % base))
    }
}

/// `n` in decimal.
pub open spec fn decimal(n: nat) -> Seq<char> {
    radix(n, 10)
}

/// `n` in lower-case hexadecimal.
pub open spec fn hexadecimal(n: nat) -> Seq<char> {
    radix(n, 16)
}

/// Writes `n` in the given base.
pub fn radix_text(n: u64, base: u64) -> (s: String)
    requires
        2 <= base <= 16,
    ensures
        s@ == radix(n as nat, base as nat),
    decreases n,
{
    if n < base {
        let mut s = String::new();
        s.push(digit_to_char(n as u8));
        assert(s@ =~= seq![digit_char(n as nat)]);
        s
    } else {
        assert(n / base < n) by (nonlinear_arith)
            requires
                n >= base,
                base >= 2,
        ;
        assert(n % base < base) by (nonlinear_arith)
            requires
                base >= 2,
        ;
        let mut s = radix_text(n / base, base);
        s.push(digit_to_char((n % base) as u8));
        s
    }
}

/// Two hexadecimal digits for each byte.
pub open spec fn hex_bytes(b: Seq<u8>) -> Seq<char>
    decreases b.len(),
{
    if b.len() == 0 {
        Seq::empty()
    } else {
        hex_bytes(b.drop_last()).push(digit_char((b.last() / 16) as nat)).push(
            digit_char((b.last() % 16) as nat),
        )
    }
}

/// Each byte adds two hexadecimal digits.
pub proof fn lemma_hex_bytes_len(b: Seq<u8>)
    ensures
        hex_bytes(b).len() == 2 * b.len(),
    decreases b.len(),
{
    if b.len() > 0 {
        lemma_hex_bytes_len(b.drop_last());
    }
}

/// Writes two hexadecimal digits for each byte.
pub fn hex_text(b: &[u8]) -> (s: String)
    ensures
        s@ == hex_bytes(b@),
{
    let mut s = String::new();
    let mut i: usize = 0;
    while i < b.len()
        invariant
            i <= b@.len(),
            s@ == hex_bytes(b@.subrange(0, i as int)),
        decreases b@.len() - i,
    {
        s.push(digit_to_char(b[i] / 16));
        s.push(digit_to_char(b[i] % 16));
        assert(b@.subrange(0, i + 1).drop_last() =~= b@.subrange(0, i as int));
        i += 1;
    }
    assert(b@.subrange(0, i as int) =~= b@);
    s
}

/// The first `n` characters of a text, or all where it has fewer.
pub fn take_text(s: &str, n: usize) -> (r: String)
    ensures
        r@ == s@.subrange(0, if n <= s@.len() { n as int } else { s@.len() as int }),
{
    let v = chars_of(s);
    let k: usize = if n <= v.len() {
        n
    } else {
        v.len()
    };
    string_of_range(&v, 0, k)
}

/// Writes `n` in decimal.
pub fn decimal_text(n: u64) -> (s: String)
    ensures
        s@ == decimal(n as nat),
{
    radix_text(n, 10)
}

/// Reading back a number that was written in decimal yields that number.
pub proof fn lemma_decimal_round_trip(n: nat, max: nat)
    requires
        n <= max,
    ensures
        parse_unsigned(decimal(n), max) == Some(n),
{
    lemma_decimal_digits(n);
    assert(is_digit(decimal(n)[0]));
}

/// A decimal text holds digits only and has the number as its value.
pub proof fn lemma_decimal_digits(n: nat)
    ensures
        decimal(n).len() > 0,
        all_digits(decimal(n)),
        digits_value(decimal(n)) == n,
    decreases n,
{
    if n < 10 {
        let s = decimal(n);
        assert(s.drop_last() =~= Seq::<char>::empty());
        assert(digits_value(Seq::<char>::empty()) == 0);
    } else {
        lemma_decimal_digits(n / 10);
        let s = decimal(n);
        assert(s.drop_last() =~= decimal(n / 10));
        assert(s.last() == digit_char(n % 10));
    }
}

// ── Laws ────────────────────────────────────────────────────────────────────

/// Every character is white space.
pub open spec fn all_space(s: Seq<char>) -> bool {
    forall|i: int| 0 <= i < s.len() ==> is_space(#[trigger] s[i])
}

/// The text neither starts nor ends with white space.
pub open spec fn is_trimmed(s: Seq<char>) -> bool {
    s.len() > 0 ==> !is_space(s[0]) && !is_space(s.last())
}

/// Law: blanks, tabs and line ends are white space; no printable ASCII character
/// is.
pub proof fn law_white_space(c: char)
    ensures
        c == ' ' || c == '\t' || c == '\n' || c == '\r' ==> is_space(c),
        '!' <= c <= '~' ==> !is_space(c),
{
}

/// Law: trimming takes white space off both ends and nothing else.
pub proof fn law_trim(before: Seq<char>, s: Seq<char>, after: Seq<char>)
    requires
        all_space(before),
        all_space(after),
        is_trimmed(s),
    ensures
        trim(before + s + after) == s,
    decreases before.len(), after.len(),
{
    let t = before + s + after;
    if before.len() > 0 {
        assert(t[0] == before[0]);
        assert(is_space(before[0]));
        let rest = before.subrange(1, before.len() as int);
        assert forall|i: int| 0 <= i < rest.len() implies is_space(#[trigger] rest[i]) by {
            assert(rest[i] == before[i + 1]);
        }
        assert(t.subrange(1, t.len() as int) =~= rest + s + after);
        law_trim(rest, s, after);
    } else if s.len() > 0 {
        assert(t =~= s + after);
        assert(t[0] == s[0]);
        assert(trim_start(t) == t);
        lemma_trim_end(s, after);
    } else {
        assert(t =~= after);
        lemma_blank_trims(after);
    }
}

/// Law: what trimming yields has no white space at its ends.
pub proof fn law_trim_is_trimmed(s: Seq<char>)
    ensures
        is_trimmed(trim(s)),
        is_trimmed(s) ==> trim(s) == s,
{
    lemma_trim_start_is(s);
    let t = trim_start(s);
    lemma_trim_end_is(t);
    if is_trimmed(s) {
        assert(Seq::<char>::empty() + s + Seq::<char>::empty() =~= s);
        law_trim(Seq::empty(), s, Seq::empty());
    }
}

proof fn lemma_trim_start_is(s: Seq<char>)
    ensures
        trim_start(s).len() > 0 ==> !is_space(trim_start(s)[0]),
    decreases s.len(),
{
    if s.len() > 0 && is_space(s[0]) {
        lemma_trim_start_is(s.subrange(1, s.len() as int));
    }
}

proof fn lemma_trim_end_is(s: Seq<char>)
    ensures
        trim_end(s).len() <= s.len(),
        trim_end(s).len() > 0 ==> !is_space(trim_end(s).last()) && trim_end(s)[0] == s[0],
    decreases s.len(),
{
    if s.len() > 0 && is_space(s.last()) {
        lemma_trim_end_is(s.drop_last());
    }
}

proof fn lemma_trim_end(s: Seq<char>, after: Seq<char>)
    requires
        s.len() > 0,
        !is_space(s.last()),
        all_space(after),
    ensures
        trim_end(s + after) == s,
    decreases after.len(),
{
    let t = s + after;
    if after.len() > 0 {
        assert(t.last() == after[after.len() - 1]);
        let rest = after.drop_last();
        assert forall|i: int| 0 <= i < rest.len() implies is_space(#[trigger] rest[i]) by {
            assert(rest[i] == after[i]);
        }
        assert(t.drop_last() =~= s + rest);
        lemma_trim_end(s, rest);
    } else {
        assert(t =~= s);
    }
}

proof fn lemma_blank_trims(s: Seq<char>)
    requires
        all_space(s),
    ensures
        trim(s).len() == 0,
    decreases s.len(),
{
    if s.len() > 0 {
        assert(is_space(s[0]));
        let rest = s.subrange(1, s.len() as int);
        assert forall|i: int| 0 <= i < rest.len() implies is_space(#[trigger] rest[i]) by {
            assert(rest[i] == s[i + 1]);
        }
        lemma_blank_trims(rest);
    }
}

/// Law: a text is cut at its line feeds. A carriage return before a line feed
/// belongs to the line end, an end of the text behind a line feed starts no line.
pub proof fn law_lines(line: Seq<char>, rest: Seq<char>)
    requires
        !line.contains('\n'),
        line.len() > 0 ==> line.last() != '\r',
    ensures
        lines(line + seq!['\n'] + rest) == seq![line] + lines(rest),
        lines(line + seq!['\r', '\n'] + rest) == seq![line] + lines(rest),
        lines(line) == (if line.len() == 0 {
            Seq::empty()
        } else {
            seq![line]
        }),
{
    let a = line + seq!['\n'];
    let s = a + rest;
    lemma_feed_at(s, line.len() as int);
    lemma_lines_shift(a, rest, 0);
    assert(s.subrange(0, line.len() as int) =~= line);
    let b = line + seq!['\r', '\n'];
    let t = b + rest;
    let k = line.len() as int;
    assert(t[k] == '\r' && t[k + 1] == '\n');
    lemma_feed_at(t, k + 1);
    lemma_lines_shift(b, rest, 0);
    assert(t.subrange(0, k) =~= line);
    if line.len() > 0 {
        lemma_next_index(line, '\n', 0);
        let e = next_index(line, '\n', 0);
        if e < line.len() {
            assert(line.contains(line[e]));
        }
        assert(line.subrange(0, line.len() as int) =~= line);
    }
}

/// The first line feed is where it is.
proof fn lemma_feed_at(s: Seq<char>, k: int)
    requires
        0 <= k < s.len(),
        s[k] == '\n',
        forall|i: int| 0 <= i < k ==> s[i] != '\n',
    ensures
        next_index(s, '\n', 0) == k,
{
    lemma_next_index(s, '\n', 0);
}

/// Lines behind other text are the lines they were.
proof fn lemma_lines_shift(a: Seq<char>, b: Seq<char>, from: int)
    requires
        0 <= from <= b.len(),
    ensures
        lines_from(a + b, a.len() + from) == lines_from(b, from),
    decreases b.len() - from,
{
    if from < b.len() {
        lemma_index_shift(a, b, from);
        lemma_next_index(b, '\n', from);
        let e = next_index(b, '\n', from);
        let n = a.len() as int;
        if e < b.len() {
            lemma_lines_shift(a, b, e + 1);
            assert((a + b)[n + e - 1] == if e > 0 { b[e - 1] } else { (a + b)[n + e - 1] });
            assert((a + b).subrange(n + from, n + e) =~= b.subrange(from, e));
            if from < e {
                assert((a + b).subrange(n + from, n + e - 1) =~= b.subrange(from, e - 1));
            }
        } else {
            assert((a + b).subrange(n + from, (a + b).len() as int) =~= b.subrange(
                from,
                b.len() as int,
            ));
        }
    }
}

proof fn lemma_index_shift(a: Seq<char>, b: Seq<char>, from: int)
    requires
        0 <= from <= b.len(),
    ensures
        next_index(a + b, '\n', a.len() + from) == a.len() + next_index(b, '\n', from),
    decreases b.len() - from,
{
    if from < b.len() && b[from] != '\n' {
        lemma_index_shift(a, b, from + 1);
    }
}

/// Law: a number is written digit by digit, the most significant first, without
/// leading zeros.
pub proof fn law_decimal(n: nat, d: nat)
    requires
        d < 10,
    ensures
        decimal(d) == seq![('0' as u32 + d) as char],
        n > 0 ==> decimal(n * 10 + d) == decimal(n) + decimal(d),
{
    if n > 0 {
        let m = n * 10 + d;
        assert(m / 10 == n && m % 10 == d);
        assert(decimal(n) + seq![digit_char(d)] =~= decimal(n).push(digit_char(d)));
    }
}

/// Law: digits are read as a decimal number; a plus sign may stand before them,
/// nothing else, and a number that is too great is refused.
pub proof fn law_parse_unsigned(n: nat, max: nat)
    ensures
        parse_unsigned(decimal(n), max) == (if n <= max {
            Some(n)
        } else {
            None
        }),
        parse_unsigned(seq!['+'] + decimal(n), max) == parse_unsigned(decimal(n), max),
{
    lemma_decimal_digits(n);
    let d = decimal(n);
    assert(is_digit(d[0]));
    let p = seq!['+'] + d;
    assert(p.subrange(1, p.len() as int) =~= d);
}

/// Law: a text that is read as a number holds nothing but digits behind an
/// optional sign.
pub proof fn law_numbers_are_digits(s: Seq<char>, max: nat, low: int, high: int, i: int)
    requires
        0 <= i < s.len(),
        !('0' <= s[i] <= '9'),
    ensures
        i > 0 || s[0] != '+' ==> parse_unsigned(s, max) is None,
        i > 0 || (s[0] != '+' && s[0] != '-') ==> parse_signed(s, low, high) is None,
{
    let t = s.subrange(1, s.len() as int);
    if i > 0 {
        assert(t[i - 1] == s[i]);
    }
}

/// Law: nothing is no number.
pub proof fn law_no_digits_no_number(max: nat, low: int, high: int)
    ensures
        parse_unsigned(Seq::empty(), max) is None,
        parse_signed(Seq::empty(), low, high) is None,
{
}

/// Law: a signed number is read back where it lies within the bounds.
pub proof fn law_parse_signed(n: nat, low: int, high: int)
    ensures
        parse_signed(decimal(n), low, high) == (if low <= n <= high {
            Some(n as int)
        } else {
            None
        }),
        parse_signed(seq!['-'] + decimal(n), low, high) == (if low <= -n <= high {
            Some(-n)
        } else {
            None
        }),
        parse_signed(seq!['+'] + decimal(n), low, high) == parse_signed(decimal(n), low, high),
{
    lemma_decimal_digits(n);
    let d = decimal(n);
    assert(is_digit(d[0]));
    let p = seq!['+'] + d;
    assert(p.subrange(1, p.len() as int) =~= d);
    let m = seq!['-'] + d;
    assert(m.subrange(1, m.len() as int) =~= d);
}

/// Law: the first occurrence of a text is where it stands and stands nowhere
/// before; the last one likewise.
pub proof fn law_occurrences<T>(hay: Seq<T>, needle: Seq<T>)
    ensures
        match find_seq(hay, needle) {
            Some(i) => 0 <= i && i + needle.len() <= hay.len() && hay.subrange(i, i + needle.len())
                == needle && forall|j: int|
                0 <= j < i ==> #[trigger] hay.subrange(j, j + needle.len()) != needle,
            None => forall|j: int|
                0 <= j && j + needle.len() <= hay.len() ==> #[trigger] hay.subrange(
                    j,
                    j + needle.len(),
                ) != needle,
        },
        match rfind_seq(hay, needle) {
            Some(i) => 0 <= i && i + needle.len() <= hay.len() && hay.subrange(i, i + needle.len())
                == needle && forall|j: int|
                i < j && j + needle.len() <= hay.len() ==> #[trigger] hay.subrange(
                    j,
                    j + needle.len(),
                ) != needle,
            None => find_seq(hay, needle) is None,
        },
{
    lemma_find_from(hay, needle, 0);
    lemma_rfind_from(hay, needle, hay.len() as int);
    match find_seq(hay, needle) {
        Some(i) => {
            assert forall|j: int| 0 <= j < i implies #[trigger] hay.subrange(j, j + needle.len())
                != needle by {
                assert(!is_at(hay, needle, j));
            }
            if rfind_seq(hay, needle) is None {
                assert(!is_at(hay, needle, i));
            }
        },
        None => {
            assert forall|j: int|
                0 <= j && j + needle.len() <= hay.len() implies #[trigger] hay.subrange(
                j,
                j + needle.len(),
            ) != needle by {
                assert(!is_at(hay, needle, j));
            }
        },
    }
    if let Some(i) = rfind_seq(hay, needle) {
        assert forall|j: int|
            i < j && j + needle.len() <= hay.len() implies #[trigger] hay.subrange(
            j,
            j + needle.len(),
        ) != needle by {
            assert(!is_at(hay, needle, j));
        }
    }
}

/// `rfind_from` yields the last occurrence at or before `from`.
pub proof fn lemma_rfind_from<T>(hay: Seq<T>, needle: Seq<T>, from: int)
    ensures
        rfind_from(hay, needle, from) matches Some(i) ==> i <= from && is_at(hay, needle, i)
            && forall|j: int| i < j <= from ==> !is_at(hay, needle, j),
        rfind_from(hay, needle, from) is None ==> forall|j: int| j <= from ==> !is_at(
            hay,
            needle,
            j,
        ),
    decreases from + 1,
{
    if from >= 0 && !is_at(hay, needle, from) {
        lemma_rfind_from(hay, needle, from - 1);
    }
}

/// Law: trimming bytes drops exactly the spaces, tabs, line feeds, form feeds and
/// carriage returns around them.
#[verifier::rlimit(50)]
pub proof fn law_trim_bytes(before: Seq<u8>, s: Seq<u8>, after: Seq<u8>)
    requires
        forall|i: int|
            0 <= i < before.len() ==> (#[trigger] before[i] == 32 || before[i] == 9 || before[i]
                == 10 || before[i] == 12 || before[i] == 13),
        forall|i: int|
            0 <= i < after.len() ==> (#[trigger] after[i] == 32 || after[i] == 9 || after[i] == 10
                || after[i] == 12 || after[i] == 13),
        s.len() > 0 ==> s[0] > 32 && s.last() > 32,
    ensures
        s.len() > 0 ==> trim_bytes_start(before + s) == s,
        trim_bytes_end(s + after) == s,
        trim_bytes_end(trim_bytes_start(before + s + after)) == s,
    decreases before.len(),
{
    lemma_trim_bytes_end(s, after);
    if before.len() == 0 {
        assert(before + s =~= s);
        assert(before + s + after =~= s + after);
        if s.len() == 0 {
            assert(s + after =~= after);
            lemma_blank_bytes(after);
            assert(s =~= Seq::<u8>::empty());
        } else {
            assert((s + after)[0] == s[0]);
        }
    } else {
        let b = before.subrange(1, before.len() as int);
        assert forall|i: int| 0 <= i < b.len() implies (#[trigger] b[i] == 32 || b[i] == 9 || b[i]
            == 10 || b[i] == 12 || b[i] == 13) by {
            assert(b[i] == before[i + 1]);
        }
        law_trim_bytes(b, s, after);
        let x = before + s;
        let y = before + s + after;
        assert(x[0] == before[0] && y[0] == before[0]);
        assert(x.subrange(1, x.len() as int) =~= b + s);
        assert(y.subrange(1, y.len() as int) =~= b + s + after);
    }
}

proof fn lemma_trim_bytes_end(s: Seq<u8>, after: Seq<u8>)
    requires
        forall|i: int|
            0 <= i < after.len() ==> (#[trigger] after[i] == 32 || after[i] == 9 || after[i] == 10
                || after[i] == 12 || after[i] == 13),
        s.len() > 0 ==> s.last() > 32,
    ensures
        trim_bytes_end(s + after) == s,
    decreases after.len(),
{
    let x = s + after;
    if after.len() == 0 {
        assert(x =~= s);
    } else {
        assert(x.last() == after.last());
        assert(x.drop_last() =~= s + after.drop_last());
        lemma_trim_bytes_end(s, after.drop_last());
    }
}

proof fn lemma_blank_bytes(s: Seq<u8>)
    requires
        forall|i: int|
            0 <= i < s.len() ==> (#[trigger] s[i] == 32 || s[i] == 9 || s[i] == 10 || s[i] == 12
                || s[i] == 13),
    ensures
        trim_bytes_start(s) == Seq::<u8>::empty(),
    decreases s.len(),
{
    if s.len() > 0 {
        let t = s.subrange(1, s.len() as int);
        assert forall|i: int| 0 <= i < t.len() implies (#[trigger] t[i] == 32 || t[i] == 9 || t[i]
            == 10 || t[i] == 12 || t[i] == 13) by {
            assert(t[i] == s[i + 1]);
        }
        lemma_blank_bytes(t);
    } else {
        assert(s =~= Seq::<u8>::empty());
    }
}

/// Law: a path below a directory is separated by one slash; an absolute path stands
/// for itself.
pub proof fn law_paths_are_joined(base: Seq<char>, rest: Seq<char>)
    ensures
        rest.len() > 0 && rest[0] == '/' ==> joined_path(base, rest) == rest,
        !(rest.len() > 0 && rest[0] == '/') && base.len() > 0 && base.last() != '/' ==> joined_path(
            base,
            rest,
        ) == base + seq!['/'] + rest,
        !(rest.len() > 0 && rest[0] == '/') && base.len() > 0 && base.last() == '/' ==> joined_path(
            base,
            rest,
        ) == base + rest,
        base.len() == 0 ==> joined_path(base, rest) == rest,
{
    assert(base.push('/') + rest =~= base + seq!['/'] + rest);
}

/// Law: removing a character leaves all others in order.
pub proof fn law_without(a: Seq<char>, b: Seq<char>, c: char)
    ensures
        without(a + seq![c] + b, c) == without(a + b, c),
        !without(a, c).contains(c),
        !a.contains(c) ==> without(a, c) == a,
    decreases b.len(),
{
    lemma_without_none(a, c);
    if b.len() == 0 {
        assert(a + seq![c] + b =~= a.push(c));
        assert(a.push(c).drop_last() =~= a);
        assert(a + b =~= a);
    } else {
        let x = a + seq![c] + b;
        let y = a + b;
        assert(x.drop_last() =~= a + seq![c] + b.drop_last());
        assert(y.drop_last() =~= a + b.drop_last());
        assert(x.last() == b.last() && y.last() == b.last());
        law_without(a, b.drop_last(), c);
    }
}

proof fn lemma_without_none(a: Seq<char>, c: char)
    ensures
        !without(a, c).contains(c),
        !a.contains(c) ==> without(a, c) == a,
    decreases a.len(),
{
    if a.len() > 0 {
        lemma_without_none(a.drop_last(), c);
        let w = without(a.drop_last(), c);
        if a.last() != c {
            assert forall|i: int| 0 <= i < w.push(a.last()).len() implies w.push(a.last())[i]
                != c by {
                if i < w.len() {
                    assert(w.contains(w[i]));
                }
            }
        }
        if !a.contains(c) {
            assert(a[a.len() - 1] != c);
            assert forall|i: int| 0 <= i < a.drop_last().len() implies a.drop_last()[i] != c by {
                assert(a.contains(a[i]));
            }
            assert(a.drop_last().push(a.last()) =~= a);
        }
    } else {
        assert(without(a, c) =~= a);
    }
}

/// Law: a text is split at each separator, and joining the pieces with it gives the
/// text back.
pub proof fn law_pieces(a: Seq<char>, c: char, b: Seq<char>)
    requires
        !a.contains(c),
    ensures
        pieces(a, c) == seq![a],
        pieces(a + seq![c] + b, c) == seq![a] + pieces(b, c),
{
    lemma_no_index(a, c, 0);
    assert(a.subrange(0, a.len() as int) =~= a);
    let s = a + seq![c] + b;
    lemma_index_at(s, c, a.len() as int, 0);
    assert(s[a.len() as int] == c);
    assert(s.subrange(0, a.len() as int) =~= a);
    let p = a + seq![c];
    lemma_pieces_shift(p, b, c, 0);
    assert(s =~= p + b);
}

proof fn lemma_no_index(s: Seq<char>, c: char, from: int)
    requires
        0 <= from <= s.len(),
        !s.contains(c),
    ensures
        next_index(s, c, from) == s.len(),
    decreases s.len() - from,
{
    if from < s.len() {
        assert(s.contains(s[from]));
        lemma_no_index(s, c, from + 1);
    }
}

proof fn lemma_index_at(s: Seq<char>, c: char, k: int, from: int)
    requires
        0 <= from <= k < s.len(),
        s[k] == c,
        !s.subrange(0, k).contains(c) || forall|i: int| from <= i < k ==> s[i] != c,
    ensures
        next_index(s, c, from) == k,
    decreases k - from,
{
    if from < k {
        if !s.subrange(0, k).contains(c) {
            assert(s.subrange(0, k)[from] == s[from]);
            assert(s.subrange(0, k).contains(s[from]));
        }
        lemma_index_at(s, c, k, from + 1);
    }
}

proof fn lemma_pieces_shift(a: Seq<char>, b: Seq<char>, c: char, from: int)
    requires
        0 <= from <= b.len(),
    ensures
        pieces_from(a + b, c, a.len() + from) == pieces_from(b, c, from),
    decreases b.len() - from,
{
    lemma_char_shift(a, b, c, from);
    lemma_next_index(b, c, from);
    let e = next_index(b, c, from);
    let s = a + b;
    if e < b.len() {
        assert(s.subrange(a.len() + from, a.len() + e) =~= b.subrange(from, e));
        lemma_pieces_shift(a, b, c, e + 1);
    } else {
        assert(s.subrange(a.len() + from, s.len() as int) =~= b.subrange(from, b.len() as int));
    }
}

proof fn lemma_char_shift(a: Seq<char>, b: Seq<char>, c: char, from: int)
    requires
        0 <= from <= b.len(),
    ensures
        next_index(a + b, c, a.len() + from) == a.len() + next_index(b, c, from),
    decreases b.len() - from,
{
    if from < b.len() {
        assert((a + b)[a.len() + from] == b[from]);
        lemma_char_shift(a, b, c, from + 1);
    }
}

/// Law: the parts stand in order, with the separator between each two.
pub proof fn law_joined(parts: Seq<Seq<char>>, p: Seq<char>, sep: Seq<char>)
    ensures
        joined(Seq::empty(), sep) == Seq::<char>::empty(),
        joined(seq![p], sep) == p,
        parts.len() > 0 ==> joined(parts.push(p), sep) == joined(parts, sep) + sep + p,
{
    assert(parts.push(p).drop_last() =~= parts);
    assert(seq![p].len() == 1);
}

/// Law: a byte is written as its two hexadecimal digits, behind those before it.
pub proof fn law_hex_bytes(bytes: Seq<u8>, high: nat, low: nat)
    requires
        high < 16,
        low < 16,
    ensures
        hex_bytes(bytes.push((high * 16 + low) as u8)) == hex_bytes(bytes) + hexadecimal(high)
            + hexadecimal(low),
        hex_bytes(Seq::empty()) == Seq::<char>::empty(),
        high < 10 ==> hexadecimal(high) == seq![('0' as u32 + high) as char],
        high >= 10 ==> hexadecimal(high) == seq![('a' as u32 + high - 10) as char],
{
    let x = (high * 16 + low) as u8;
    assert(x == high * 16 + low);
    assert(x / 16 == high && x % 16 == low);
    assert(bytes.push(x).drop_last() =~= bytes);
    assert(hexadecimal(high) =~= seq![digit_char(high)]);
    assert(hexadecimal(low) =~= seq![digit_char(low)]);
    assert(hex_bytes(bytes.push(x)) =~= hex_bytes(bytes) + hexadecimal(high) + hexadecimal(low));
}

/// Law: a text without the needle stays; otherwise the first occurrence is replaced
/// and what follows it is replaced likewise.
pub proof fn law_replaced(s: Seq<char>, needle: Seq<char>, with: Seq<char>, i: int)
    requires
        needle.len() > 0,
    ensures
        (forall|j: int|
            0 <= j && j + needle.len() <= s.len() ==> #[trigger] s.subrange(j, j + needle.len())
                != needle) ==> replaced(s, needle, with) == s,
        0 <= i && i + needle.len() <= s.len() && s.subrange(i, i + needle.len()) == needle && (
        forall|j: int|
            0 <= j < i ==> #[trigger] s.subrange(j, j + needle.len()) != needle) ==> replaced(
            s,
            needle,
            with,
        ) == s.subrange(0, i) + with + replaced(
            s.subrange(i + needle.len(), s.len() as int),
            needle,
            with,
        ),
{
    law_occurrences(s, needle);
    if let Some(k) = find_seq(s, needle) {
        if 0 <= i && i + needle.len() <= s.len() && s.subrange(i, i + needle.len()) == needle && (
        forall|j: int| 0 <= j < i ==> #[trigger] s.subrange(j, j + needle.len()) != needle) {
            assert(s.subrange(k, k + needle.len()) == needle);
            if k < i {
                assert(s.subrange(k, k + needle.len()) != needle);
            }
            if i < k {
                assert(s.subrange(i, i + needle.len()) != needle);
            }
        } else {
            assert(s.subrange(k, k + needle.len()) == needle);
        }
    }
}

/// Law: a line of bytes reaches up to and with its line feed, or to the end.
pub proof fn law_line_stop(line: Seq<u8>, rest: Seq<u8>)
    requires
        forall|i: int| 0 <= i < line.len() ==> #[trigger] line[i] != 10,
    ensures
        line_stop(line, 0) == line.len(),
        line_stop(line + seq![10u8] + rest, 0) == line.len() + 1,
{
    lemma_stop(line, 0);
    lemma_stop_at(line + seq![10u8] + rest, line.len() as int, 0);
}

proof fn lemma_stop(s: Seq<u8>, from: int)
    requires
        0 <= from <= s.len(),
        forall|i: int| from <= i < s.len() ==> #[trigger] s[i] != 10,
    ensures
        line_stop(s, from) == s.len(),
    decreases s.len() - from,
{
    if from < s.len() {
        lemma_stop(s, from + 1);
    }
}

proof fn lemma_stop_at(s: Seq<u8>, k: int, from: int)
    requires
        0 <= from <= k < s.len(),
        s[k] == 10,
        forall|i: int| from <= i < k ==> #[trigger] s[i] != 10,
    ensures
        line_stop(s, from) == k + 1,
    decreases k - from,
{
    if from < k {
        lemma_stop_at(s, k, from + 1);
    }
}

} // verus!
