//! Escape processing for basic (double-quoted) strings: the short escapes,
//! `\uXXXX` / `\UXXXXXXXX` expansion, and the closing-quote parity test
//! on quoted pieces.

use vstd::prelude::*;
use crate::error::ErrKind;
use crate::numbers::spec_digit_val;
use crate::strutil::{char_from_u32, spec_is_scalar};

verus! {

/// The character a short escape `\c` stands for, if `c` is a recognized
/// short escape.
pub open spec fn spec_short_escape(c: char) -> Option<char> {
    if c == '0' {
        Some('\0')
    } else if c == 'b' {
        Some('\u{8}')
    } else if c == 'f' {
        Some('\u{c}')
    } else if c == 'n' {
        Some('\n')
    } else if c == 'r' {
        Some('\r')
    } else if c == 't' {
        Some('\t')
    } else if c == '"' {
        Some('"')
    } else if c == '\\' {
        Some('\\')
    } else {
        None
    }
}

fn short_escape(c: char) -> (r: Option<char>)
    ensures
        r == spec_short_escape(c),
{
    if c == '0' {
        Some('\0')
    } else if c == 'b' {
        Some('\u{8}')
    } else if c == 'f' {
        Some('\u{c}')
    } else if c == 'n' {
        Some('\n')
    } else if c == 'r' {
        Some('\r')
    } else if c == 't' {
        Some('\t')
    } else if c == '"' {
        Some('"')
    } else if c == '\\' {
        Some('\\')
    } else {
        None
    }
}

/// Whether the `k` characters of `s` starting at `i` are all hex digits.
pub open spec fn spec_all_hex(s: Seq<char>, i: int, k: int) -> bool {
    forall|j: int| i <= j < i + k ==> 0 <= #[trigger] spec_digit_val(s[j]) < 16
}

/// The value of the `k`-digit hex group of `s` starting at `i`.
pub open spec fn spec_hex_group_val(s: Seq<char>, i: int, k: int) -> int
    decreases k,
{
    if k <= 0 {
        0
    } else {
        spec_hex_group_val(s, i, k - 1) * 16 + spec_digit_val(s[i + k - 1])
    }
}

/// Sixteen to the power `k`.
pub open spec fn spec_pow16(k: int) -> int
    decreases k,
{
    if k <= 0 {
        1
    } else {
        16 * spec_pow16(k - 1)
    }
}

proof fn lemma_hex_group_bound(s: Seq<char>, i: int, k: int)
    requires
        spec_all_hex(s, i, k),
    ensures
        0 <= spec_hex_group_val(s, i, k) < spec_pow16(k),
    decreases k,
{
    if k > 0 {
        assert(spec_all_hex(s, i, k - 1));
        lemma_hex_group_bound(s, i, k - 1);
        let prev = spec_hex_group_val(s, i, k - 1);
        assert(prev * 16 <= (spec_pow16(k - 1) - 1) * 16) by (nonlinear_arith)
            requires
                prev <= spec_pow16(k - 1) - 1,
        ;
        assert(0 <= spec_digit_val(s[i + k - 1]) < 16);
    }
}

/// Reads the `k`-digit hex group of `s` at `i`, or nothing when a character
/// is no hex digit.
fn hex_group_val(s: &Vec<char>, i: usize, k: usize) -> (r: Option<u32>)
    requires
        i + k <= s@.len(),
        k == 4 || k == 8,
    ensures
        r matches Some(n) ==> spec_all_hex(s@, i as int, k as int) && n as int
            == spec_hex_group_val(s@, i as int, k as int),
        r is None ==> !spec_all_hex(s@, i as int, k as int),
{
    let slen = s.len();
    let mut n: u32 = 0;
    let mut j: usize = 0;
    while j < k
        invariant
            j <= k,
            k == 4 || k == 8,
            i + k <= slen == s@.len(),
            spec_all_hex(s@, i as int, j as int),
            n as int == spec_hex_group_val(s@, i as int, j as int),
        decreases k - j,
    {
        let d = crate::numbers::digit_val(s[i + j]);
        if d < 0 || d >= 16 {
            return None;
        }
        proof {
            assert(spec_all_hex(s@, i as int, j + 1)) by {
                assert(forall|m: int|
                    i <= m < i + j ==> 0 <= #[trigger] spec_digit_val(s@[m]) < 16);
                assert(0 <= spec_digit_val(s@[i + j]) < 16);
            }
            lemma_hex_group_bound(s@, i as int, j as int);
            assert(spec_pow16(0) == 1);
            assert(spec_pow16(1) == 16);
            assert(spec_pow16(2) == 0x100);
            assert(spec_pow16(3) == 0x1000);
            assert(spec_pow16(4) == 0x10000);
            assert(spec_pow16(5) == 0x100000);
            assert(spec_pow16(6) == 0x1000000);
            assert(spec_pow16(7) == 0x10000000);
            if j < k {
                lemma_pow16_mono(j as int, 7);
            }
        }
        n = n * 16 + (d as u32);
        j += 1;
    }
    Some(n)
}

proof fn lemma_pow16_mono(a: int, b: int)
    requires
        0 <= a <= b,
    ensures
        spec_pow16(a) <= spec_pow16(b),
    decreases b - a,
{
    if a < b {
        lemma_pow16_mono(a, b - 1);
        assert(spec_pow16(b) == 16 * spec_pow16(b - 1));
        assert(spec_pow16(b - 1) >= 1) by {
            lemma_pow16_pos(b - 1);
        }
    }
}

proof fn lemma_pow16_pos(k: int)
    ensures
        spec_pow16(k) >= 1,
    decreases k,
{
    if k > 0 {
        lemma_pow16_pos(k - 1);
    }
}

/// `c` followed by all of `v`.
fn prepend(c: char, v: Vec<char>) -> (r: Vec<char>)
    ensures
        r@ == seq![c] + v@,
{
    let mut w = v;
    let ghost orig = w@;
    w.insert(0, c);
    proof {
        assert(w@ =~= seq![c] + orig);
    }
    w
}

/// One processed step of escape decoding at the front of `s`: the decoded
/// characters and how many input characters they took, or the error.
///
/// The recognized forms are a short escape, an escaped backslash, and the
/// two Unicode forms; a lone trailing backslash stands for itself; any
/// other escaped character is reserved.
pub open spec fn spec_unescape(s: Seq<char>) -> Result<Seq<char>, ErrKind>
    decreases s.len(),
{
    if s.len() == 0 {
        Ok(Seq::empty())
    } else if s[0] != '\\' {
        match spec_unescape(s.drop_first()) {
            Ok(r) => Ok(seq![s[0]] + r),
            Err(e) => Err(e),
        }
    } else if s.len() == 1 {
        Ok(seq!['\\'])
    } else if spec_short_escape(s[1]) is Some {
        match spec_unescape(s.skip(2)) {
            Ok(r) => Ok(seq![spec_short_escape(s[1]).unwrap()] + r),
            Err(e) => Err(e),
        }
    } else if s[1] == 'u' || s[1] == 'U' {
        let k: int = if s[1] == 'u' {
            4
        } else {
            8
        };
        if s.len() < 2 + k || !spec_all_hex(s, 2, k) {
            Err(ErrKind::InvalidUnicodeEscape)
        } else if !spec_is_scalar(spec_hex_group_val(s, 2, k)) {
            Err(ErrKind::NonScalarUnicodeEscape)
        } else {
            match spec_unescape(s.skip(2 + k)) {
                Ok(r) => Ok(seq![spec_hex_group_val(s, 2, k) as char] + r),
                Err(e) => Err(e),
            }
        }
    } else {
        Err(ErrKind::ReservedEscape)
    }
}

/// Decodes the escapes of a basic string's content, from position `i` on.
pub fn unescape_from(s: &Vec<char>, i: usize) -> (r: Result<Vec<char>, ErrKind>)
    requires
        i <= s@.len(),
    ensures
        r matches Ok(v) ==> spec_unescape(s@.skip(i as int)) == Ok::<_, ErrKind>(v@),
        r matches Err(e) ==> spec_unescape(s@.skip(i as int)) == Err::<Seq<char>, _>(e),
    decreases s@.len() - i,
{
    let ghost tail = s@.skip(i as int);
    if i == s.len() {
        proof {
            assert(tail =~= Seq::<char>::empty());
        }
        return Ok(Vec::new());
    }
    let c = s[i];
    proof {
        assert(tail[0] == s@[i as int]);
    }
    if c != '\\' {
        let rest = unescape_from(s, i + 1);
        proof {
            assert(tail.drop_first() =~= s@.skip(i + 1));
        }
        match rest {
            Ok(v) => Ok(prepend(c, v)),
            Err(e) => Err(e),
        }
    } else if i + 1 == s.len() {
        let mut v: Vec<char> = Vec::new();
        v.push('\\');
        proof {
            assert(tail.len() == 1);
            assert(v@ =~= seq!['\\']);
        }
        Ok(v)
    } else {
        let c1 = s[i + 1];
        proof {
            assert(tail[1] == s@[i + 1]);
        }
        match short_escape(c1) {
            Some(m) => {
                let rest = unescape_from(s, i + 2);
                proof {
                    assert(tail.skip(2) =~= s@.skip(i + 2));
                }
                match rest {
                    Ok(v) => Ok(prepend(m, v)),
                    Err(e) => Err(e),
                }
            },
            None => {
                if c1 == 'u' || c1 == 'U' {
                    let k: usize = if c1 == 'u' {
                        4
                    } else {
                        8
                    };
                    if s.len() - i < 2 + k {
                        proof {
                            assert(tail.len() < 2 + k);
                        }
                        return Err(ErrKind::InvalidUnicodeEscape);
                    }
                    proof {
                        assert(forall|j: int| 0 <= j < tail.len() ==> tail[j] == s@[i + j]);
                        assert(spec_all_hex(tail, 2, k as int) ==> spec_all_hex(
                            s@,
                            i + 2,
                            k as int,
                        )) by {
                            if spec_all_hex(tail, 2, k as int) {
                                assert forall|m: int| i + 2 <= m < i + 2 + k implies 0
                                    <= #[trigger] spec_digit_val(s@[m]) < 16 by {
                                    assert(tail[m - i] == s@[m]);
                                    assert(0 <= spec_digit_val(tail[m - i]) < 16);
                                }
                            }
                        }
                        assert(spec_all_hex(s@, i + 2, k as int) ==> spec_all_hex(
                            tail,
                            2,
                            k as int,
                        )) by {
                            if spec_all_hex(s@, i + 2, k as int) {
                                assert forall|m: int| 2 <= m < 2 + k implies 0
                                    <= #[trigger] spec_digit_val(tail[m]) < 16 by {
                                    assert(tail[m] == s@[i + m]);
                                    assert(0 <= spec_digit_val(s@[i + m]) < 16);
                                }
                            }
                        }
                        lemma_hex_group_shift(s@, tail, i as int, k as int);
                    }
                    match hex_group_val(s, i + 2, k) {
                        None => Err(ErrKind::InvalidUnicodeEscape),
                        Some(n) => {
                            match char_from_u32(n) {
                                None => Err(ErrKind::NonScalarUnicodeEscape),
                                Some(ch) => {
                                    let rest = unescape_from(s, i + 2 + k);
                                    proof {
                                        assert(tail.skip(2 + k as int) =~= s@.skip(
                                            i + 2 + k as int,
                                        ));
                                    }
                                    match rest {
                                        Ok(v) => Ok(prepend(ch, v)),
                                        Err(e) => Err(e),
                                    }
                                },
                            }
                        },
                    }
                } else {
                    Err(ErrKind::ReservedEscape)
                }
            },
        }
    }
}

/// The hex group read in the suffix equals the one read in the whole
/// buffer, two positions after the suffix start.
pub open spec fn spec_hex_group_equal(s: Seq<char>, tail: Seq<char>, i: int, k: int) -> bool {
    spec_hex_group_val(tail, 2, k) == spec_hex_group_val(s, i + 2, k)
}

proof fn lemma_hex_group_shift(s: Seq<char>, tail: Seq<char>, i: int, k: int)
    requires
        0 <= i,
        tail == s.skip(i),
        0 <= k,
        i + 2 + k <= s.len(),
    ensures
        spec_hex_group_equal(s, tail, i, k),
    decreases k,
{
    if k > 0 {
        lemma_hex_group_shift(s, tail, i, k - 1);
        assert(tail[2 + k - 1] == s[i + 2 + k - 1]);
    }
}

/// Unescapes the characters of a basic string: short escapes map to their
/// control or quote characters, `\uXXXX` and `\UXXXXXXXX` expand to the
/// scalar value they spell, and any other escaped character is a reserved
/// escape sequence.
pub fn unescape(v: &str) -> (r: Result<String, ErrKind>)
    ensures
        r matches Ok(out) ==> spec_unescape(v@) == Ok::<_, ErrKind>(out@),
        r matches Err(e) ==> spec_unescape(v@) == Err::<Seq<char>, _>(e),
{
    let chars = crate::strutil::str_chars(v);
    proof {
        assert(chars@.skip(0) =~= v@);
    }
    match unescape_from(&chars, 0) {
        Ok(out) => Ok(crate::strutil::chars_string(&out)),
        Err(e) => Err(e),
    }
}

/// Expands only the Unicode escape forms of `v`, leaving every other
/// escape as it stands; an escaped backslash shields a following `u` or
/// `U` from expansion.
pub fn load_unicode_escapes(v: &str) -> (r: Result<String, ErrKind>)
    ensures
        r matches Ok(out) ==> spec_load_unicode_escapes(v@) == Ok::<_, ErrKind>(out@),
        r matches Err(e) ==> spec_load_unicode_escapes(v@) == Err::<Seq<char>, _>(e),
{
    let chars = crate::strutil::str_chars(v);
    proof {
        assert(chars@.skip(0) =~= v@);
    }
    match unicode_escapes_from(&chars, 0) {
        Ok(out) => Ok(crate::strutil::chars_string(&out)),
        Err(e) => Err(e),
    }
}

/// One step of Unicode-only expansion: other escapes pass through intact.
pub open spec fn spec_load_unicode_escapes(s: Seq<char>) -> Result<Seq<char>, ErrKind>
    decreases s.len(),
{
    if s.len() == 0 {
        Ok(Seq::empty())
    } else if s[0] == '\\' && s.len() >= 2 && (s[1] == 'u' || s[1] == 'U') {
        let k: int = if s[1] == 'u' {
            4
        } else {
            8
        };
        if s.len() < 2 + k || !spec_all_hex(s, 2, k) {
            Err(ErrKind::InvalidUnicodeEscape)
        } else if !spec_is_scalar(spec_hex_group_val(s, 2, k)) {
            Err(ErrKind::NonScalarUnicodeEscape)
        } else {
            match spec_load_unicode_escapes(s.skip(2 + k)) {
                Ok(r) => Ok(seq![spec_hex_group_val(s, 2, k) as char] + r),
                Err(e) => Err(e),
            }
        }
    } else if s[0] == '\\' && s.len() >= 2 {
        match spec_load_unicode_escapes(s.skip(2)) {
            Ok(r) => Ok(seq![s[0], s[1]] + r),
            Err(e) => Err(e),
        }
    } else {
        match spec_load_unicode_escapes(s.drop_first()) {
            Ok(r) => Ok(seq![s[0]] + r),
            Err(e) => Err(e),
        }
    }
}

fn unicode_escapes_from(s: &Vec<char>, i: usize) -> (r: Result<Vec<char>, ErrKind>)
    requires
        i <= s@.len(),
    ensures
        r matches Ok(v) ==> spec_load_unicode_escapes(s@.skip(i as int)) == Ok::<_, ErrKind>(v@),
        r matches Err(e) ==> spec_load_unicode_escapes(s@.skip(i as int)) == Err::<Seq<char>, _>(
            e,
        ),
    decreases s@.len() - i,
{
    let ghost tail = s@.skip(i as int);
    if i == s.len() {
        proof {
            assert(tail =~= Seq::<char>::empty());
        }
        return Ok(Vec::new());
    }
    let c = s[i];
    proof {
        assert(tail[0] == s@[i as int]);
        if tail.len() >= 2 {
            assert(tail[1] == s@[i + 1]);
        }
    }
    if c == '\\' && i + 1 < s.len() && (s[i + 1] == 'u' || s[i + 1] == 'U') {
        let c1 = s[i + 1];
        let k: usize = if c1 == 'u' {
            4
        } else {
            8
        };
        if s.len() - i < 2 + k {
            proof {
                assert(tail.len() < 2 + k);
            }
            return Err(ErrKind::InvalidUnicodeEscape);
        }
        proof {
            assert(forall|j: int| 0 <= j < tail.len() ==> tail[j] == s@[i + j]);
            assert(spec_all_hex(tail, 2, k as int) ==> spec_all_hex(s@, i + 2, k as int)) by {
                if spec_all_hex(tail, 2, k as int) {
                    assert forall|m: int| i + 2 <= m < i + 2 + k implies 0
                        <= #[trigger] spec_digit_val(s@[m]) < 16 by {
                        assert(tail[m - i] == s@[m]);
                        assert(0 <= spec_digit_val(tail[m - i]) < 16);
                    }
                }
            }
            assert(spec_all_hex(s@, i + 2, k as int) ==> spec_all_hex(tail, 2, k as int)) by {
                if spec_all_hex(s@, i + 2, k as int) {
                    assert forall|m: int| 2 <= m < 2 + k implies 0 <= #[trigger] spec_digit_val(
                        tail[m],
                    ) < 16 by {
                        assert(tail[m] == s@[i + m]);
                        assert(0 <= spec_digit_val(s@[i + m]) < 16);
                    }
                }
            }
            lemma_hex_group_shift(s@, tail, i as int, k as int);
        }
        match hex_group_val(s, i + 2, k) {
            None => Err(ErrKind::InvalidUnicodeEscape),
            Some(n) => {
                match char_from_u32(n) {
                    None => Err(ErrKind::NonScalarUnicodeEscape),
                    Some(ch) => {
                        let rest = unicode_escapes_from(s, i + 2 + k);
                        proof {
                            assert(tail.skip(2 + k as int) =~= s@.skip(i + 2 + k as int));
                        }
                        match rest {
                            Ok(v) => Ok(prepend(ch, v)),
                            Err(e) => Err(e),
                        }
                    },
                }
            },
        }
    } else if c == '\\' && i + 1 < s.len() {
        let c1 = s[i + 1];
        let rest = unicode_escapes_from(s, i + 2);
        proof {
            assert(tail.skip(2) =~= s@.skip(i + 2));
        }
        match rest {
            Ok(v) => {
                let ghost rv = v@;
                let w = prepend(c, prepend(c1, v));
                proof {
                    assert(w@ =~= seq![c, c1] + rv);
                }
                Ok(w)
            },
            Err(e) => Err(e),
        }
    } else {
        let rest = unicode_escapes_from(s, i + 1);
        proof {
            assert(tail.drop_first() =~= s@.skip(i + 1));
        }
        match rest {
            Ok(v) => Ok(prepend(c, v)),
            Err(e) => Err(e),
        }
    }
}

/// Number of consecutive backslashes of `s` ending just before position
/// `end`.
pub open spec fn spec_trailing_backslashes(s: Seq<char>, end: int) -> int
    decreases end,
{
    if end <= 0 {
        0
    } else if s[end - 1] == '\\' {
        1 + spec_trailing_backslashes(s, end - 1)
    } else {
        0
    }
}

/// Whether a trimmed piece looks like one complete quoted string: empty,
/// or ending in the character it starts with, with an even number of
/// backslashes before that closing character.
pub open spec fn spec_bounded_string(s: Seq<char>) -> bool {
    if s.len() == 0 {
        true
    } else if s.last() != s[0] {
        false
    } else {
        spec_trailing_backslashes(s, s.len() - 1) % 2 == 0
    }
}

/// Whether `s` is empty or closes with its own first character, not
/// escaped by an odd run of backslashes.
pub fn bounded_string(s: &Vec<char>) -> (r: bool)
    ensures
        r == spec_bounded_string(s@),
{
    if s.len() == 0 {
        return true;
    }
    if s[s.len() - 1] != s[0] {
        proof {
            assert(s@.last() == s@[s@.len() - 1]);
        }
        return false;
    }
    let slen = s.len();
    let mut count: usize = 0;
    let mut j: usize = slen - 1;
    while j > 0 && s[j - 1] == '\\'
        invariant
            0 <= j <= slen - 1,
            slen == s@.len(),
            count == (slen - 1) - j,
            spec_trailing_backslashes(s@, s@.len() - 1) == count as int
                + spec_trailing_backslashes(s@, j as int),
        decreases j,
    {
        j -= 1;
        count += 1;
    }
    proof {
        assert(spec_trailing_backslashes(s@, j as int) == 0);
        assert(s@.last() == s@[s@.len() - 1]);
    }
    count % 2 == 0
}

} // verus!
