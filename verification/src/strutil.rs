//! Character-level helpers shared by the scanner and the value grammar.
//!
//! The decoder works on `Vec<char>` buffers internally; the two conversions
//! to and from `String` are the only places it touches `str` machinery.

use vstd::prelude::*;

verus! {

/// Whether `char::is_whitespace` holds of `c` (the Unicode `White_Space`
/// property); the decoder treats it as an opaque character class.
pub uninterp spec fn char_whitespace(c: char) -> bool;

/// Whether `char::is_alphanumeric` holds of `c` (a Unicode letter or digit);
/// the decoder treats it as an opaque character class.
pub uninterp spec fn char_alphanumeric(c: char) -> bool;

/// Relies on char::is_whitespace: true exactly for characters with the
/// Unicode `White_Space` property, which includes the ASCII blank characters
/// and excludes all ASCII punctuation, letters and digits.
#[verifier::external_body]
pub fn is_whitespace_ch(c: char) -> (r: bool)
    ensures
        r == char_whitespace(c),
        (c == ' ' || c == '\t' || c == '\n' || c == '\r') ==> r,
        ('!' <= c && c <= '~') ==> !r,
{
    c.is_whitespace()
}

/// Relies on char::is_alphanumeric: true exactly for Unicode letters and
/// digits, so for all ASCII letters and digits and for no ASCII punctuation
/// or blank character.
#[verifier::external_body]
pub fn is_alphanumeric_ch(c: char) -> (r: bool)
    ensures
        r == char_alphanumeric(c),
        ('0' <= c && c <= '9') ==> r,
        ('a' <= c && c <= 'z') ==> r,
        ('A' <= c && c <= 'Z') ==> r,
        (c == ' ' || c == '\t' || c == '\n' || c == '\r' || c == '=' || c == '.' || c == '"'
            || c == '\'' || c == '[' || c == ']' || c == '{' || c == '}' || c == '#' || c == ','
            || c == '\\' || c == '-' || c == '_' || c == '+' || c == ':') ==> !r,
{
    c.is_alphanumeric()
}

/// Relies on str::chars: yields the characters of the string in order.
/// A string occupies at most `isize::MAX` bytes, so it has fewer than
/// `usize::MAX` characters.
#[verifier::external_body]
pub fn str_chars(s: &str) -> (r: Vec<char>)
    ensures
        r@ == s@,
        r@.len() < usize::MAX,
{
    s.chars().collect()
}

/// Relies on String::from_iter (via Iterator::collect): concatenates the
/// characters in order into a string.
#[verifier::external_body]
pub fn chars_string(v: &Vec<char>) -> (r: String)
    ensures
        r@ == v@,
{
    v.iter().collect()
}

/// Whether `n` is a Unicode scalar value, so the code of some `char`.
pub open spec fn spec_is_scalar(n: int) -> bool {
    (0 <= n && n < 0xD800) || (0xE000 <= n && n <= 0x10FFFF)
}

/// Relies on char::from_u32: yields the character with code `n` exactly
/// when `n` is a Unicode scalar value (not a surrogate, at most 0x10FFFF).
#[verifier::external_body]
pub fn char_from_u32(n: u32) -> (r: Option<char>)
    ensures
        r matches Some(c) ==> spec_is_scalar(n as int) && c == n as char,
        r is None ==> !spec_is_scalar(n as int),
{
    char::from_u32(n)
}

/// A decimal digit.
pub open spec fn spec_is_digit(c: char) -> bool {
    '0' <= c && c <= '9'
}

pub fn is_digit(c: char) -> (r: bool)
    ensures
        r == spec_is_digit(c),
{
    '0' <= c && c <= '9'
}

/// The copy of `s` between `from` (inclusive) and `to` (exclusive).
pub fn subvec(s: &Vec<char>, from: usize, to: usize) -> (r: Vec<char>)
    requires
        from <= to <= s@.len(),
    ensures
        r@ == s@.subrange(from as int, to as int),
{
    let mut r: Vec<char> = Vec::new();
    let mut i: usize = from;
    while i < to
        invariant
            from <= i <= to <= s@.len(),
            r@ == s@.subrange(from as int, i as int),
        decreases to - i,
    {
        r.push(s[i]);
        i += 1;
        proof {
            assert(r@ =~= s@.subrange(from as int, i as int));
        }
    }
    r
}

/// Whether `c` occurs in `s` at or after position `from`.
pub fn contains_from(s: &Vec<char>, from: usize, c: char) -> (r: bool)
    requires
        from <= s@.len(),
    ensures
        r == s@.subrange(from as int, s@.len() as int).contains(c),
{
    let mut i: usize = from;
    while i < s.len()
        invariant
            from <= i <= s@.len(),
            forall|j: int| from <= j < i ==> s@[j] != c,
        decreases s@.len() - i,
    {
        if s[i] == c {
            proof {
                assert(s@.subrange(from as int, s@.len() as int)[i - from] == c);
            }
            return true;
        }
        i += 1;
    }
    proof {
        let sub = s@.subrange(from as int, s@.len() as int);
        assert(forall|j: int| 0 <= j < sub.len() ==> sub[j] == s@[j + from] && sub[j] != c);
    }
    false
}

/// Whether `c` occurs anywhere in `s`.
pub fn contains_char(s: &Vec<char>, c: char) -> (r: bool)
    ensures
        r == s@.contains(c),
{
    let r = contains_from(s, 0, c);
    proof {
        assert(s@.subrange(0, s@.len() as int) =~= s@);
    }
    r
}

/// Index of the first character of `s` not accepted as whitespace, or the
/// length if all of `s` is whitespace.
pub open spec fn first_non_ws(s: Seq<char>) -> int
    decreases s.len(),
{
    if s.len() == 0 {
        0
    } else if char_whitespace(s[0]) {
        1 + first_non_ws(s.skip(1))
    } else {
        0
    }
}

/// One past the last character of `s` not accepted as whitespace, or zero if
/// all of `s` is whitespace.
pub open spec fn last_non_ws_end(s: Seq<char>) -> int
    decreases s.len(),
{
    if s.len() == 0 {
        0
    } else if char_whitespace(s.last()) {
        last_non_ws_end(s.drop_last())
    } else {
        s.len() as int
    }
}

/// `s` with leading and trailing whitespace removed; whole-whitespace input
/// trims to the empty sequence.
pub open spec fn spec_trim(s: Seq<char>) -> Seq<char> {
    if last_non_ws_end(s) <= first_non_ws(s) {
        Seq::empty()
    } else {
        s.subrange(first_non_ws(s), last_non_ws_end(s))
    }
}

pub proof fn lemma_first_non_ws_bounds(s: Seq<char>)
    ensures
        0 <= first_non_ws(s) <= s.len(),
        forall|j: int| 0 <= j < first_non_ws(s) ==> char_whitespace(s[j]),
        first_non_ws(s) < s.len() ==> !char_whitespace(s[first_non_ws(s)]),
    decreases s.len(),
{
    if s.len() > 0 && char_whitespace(s[0]) {
        lemma_first_non_ws_bounds(s.skip(1));
        assert forall|j: int| 0 <= j < first_non_ws(s) implies char_whitespace(s[j]) by {
            if j > 0 {
                assert(s.skip(1)[j - 1] == s[j]);
            }
        }
        if first_non_ws(s) < s.len() {
            assert(s.skip(1)[first_non_ws(s) - 1] == s[first_non_ws(s)]);
        }
    }
}

pub proof fn lemma_last_non_ws_end_bounds(s: Seq<char>)
    ensures
        0 <= last_non_ws_end(s) <= s.len(),
        forall|j: int| last_non_ws_end(s) <= j < s.len() ==> char_whitespace(s[j]),
        last_non_ws_end(s) > 0 ==> !char_whitespace(s[last_non_ws_end(s) - 1]),
    decreases s.len(),
{
    if s.len() > 0 && char_whitespace(s.last()) {
        lemma_last_non_ws_end_bounds(s.drop_last());
        assert forall|j: int| last_non_ws_end(s) <= j < s.len() implies char_whitespace(s[j]) by {
            if j < s.len() - 1 {
                assert(s.drop_last()[j] == s[j]);
            }
        }
        if last_non_ws_end(s) > 0 {
            assert(s.drop_last()[last_non_ws_end(s) - 1] == s[last_non_ws_end(s) - 1]);
        }
    }
}

/// `s` with trailing whitespace removed.
pub open spec fn spec_trim_end(s: Seq<char>) -> Seq<char> {
    s.subrange(0, last_non_ws_end(s))
}

/// Copy of `s` without its trailing whitespace.
pub fn trim_end(s: &Vec<char>) -> (r: Vec<char>)
    ensures
        r@ == spec_trim_end(s@),
{
    proof {
        lemma_last_non_ws_end_bounds(s@);
    }
    let mut end: usize = s.len();
    while end > 0 && is_whitespace_ch(s[end - 1])
        invariant
            0 <= end <= s@.len(),
            forall|j: int| end <= j < s@.len() ==> char_whitespace(s@[j]),
            end >= last_non_ws_end(s@),
        decreases end,
    {
        proof {
            lemma_last_non_ws_end_bounds(s@);
            if last_non_ws_end(s@) == end {
                assert(!char_whitespace(s@[end - 1]));
                assert(false);
            }
        }
        end -= 1;
    }
    proof {
        lemma_last_non_ws_end_bounds(s@);
        if end > 0 {
            assert(end == last_non_ws_end(s@));
        } else {
            if last_non_ws_end(s@) > 0 {
                assert(!char_whitespace(s@[last_non_ws_end(s@) - 1]));
                assert(false);
            }
        }
    }
    subvec(s, 0, end)
}

/// Trimming twice is trimming once.
pub proof fn lemma_trim_idempotent(s: Seq<char>)
    ensures
        spec_trim(spec_trim(s)) == spec_trim(s),
{
    lemma_first_non_ws_bounds(s);
    lemma_last_non_ws_end_bounds(s);
    let t = spec_trim(s);
    if t.len() == 0 {
        assert(first_non_ws(t) == 0);
        assert(last_non_ws_end(t) == 0);
        assert(spec_trim(t) =~= t);
    } else {
        assert(t[0] == s[first_non_ws(s)]);
        assert(!char_whitespace(t[0]));
        assert(first_non_ws(t) == 0);
        assert(t.last() == s[last_non_ws_end(s) - 1]);
        assert(!char_whitespace(t.last()));
        assert(last_non_ws_end(t) == t.len());
        assert(spec_trim(t) =~= t);
    }
}

/// Trimming never lengthens a sequence.
pub proof fn lemma_trim_len(s: Seq<char>)
    ensures
        spec_trim(s).len() <= s.len(),
{
    lemma_first_non_ws_bounds(s);
    lemma_last_non_ws_end_bounds(s);
}

/// Copy of `s` with leading and trailing whitespace removed.
pub fn trim(s: &Vec<char>) -> (r: Vec<char>)
    ensures
        r@ == spec_trim(s@),
{
    proof {
        lemma_first_non_ws_bounds(s@);
        lemma_last_non_ws_end_bounds(s@);
    }
    let mut start: usize = 0;
    while start < s.len() && is_whitespace_ch(s[start])
        invariant
            0 <= start <= s@.len(),
            forall|j: int| 0 <= j < start ==> char_whitespace(s@[j]),
            start <= first_non_ws(s@),
        decreases s@.len() - start,
    {
        start += 1;
        proof {
            if start > first_non_ws(s@) {
                lemma_first_non_ws_bounds(s@);
                assert(false);
            }
        }
    }
    proof {
        assert(start == first_non_ws(s@));
    }
    let mut end: usize = s.len();
    while end > start && is_whitespace_ch(s[end - 1])
        invariant
            start <= end <= s@.len(),
            start == first_non_ws(s@),
            forall|j: int| end <= j < s@.len() ==> char_whitespace(s@[j]),
            end >= last_non_ws_end(s@) || end >= start,
        decreases end,
    {
        end -= 1;
    }
    proof {
        lemma_last_non_ws_end_bounds(s@);
        if end > start {
            // end is the true trailing boundary: s[end-1] is not whitespace
            // and everything from end on is whitespace.
            assert(end == last_non_ws_end(s@));
        } else {
            // everything from start on is whitespace, so the trim is empty.
            assert(forall|j: int| 0 <= j < s@.len() ==> char_whitespace(s@[j]));
            if last_non_ws_end(s@) > first_non_ws(s@) {
                assert(!char_whitespace(s@[last_non_ws_end(s@) - 1]));
                assert(false);
            }
        }
    }
    if end <= start {
        Vec::new()
    } else {
        subvec(s, start, end)
    }
}

} // verus!
