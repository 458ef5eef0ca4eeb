//! The value grammar: booleans, quoted strings, arrays, inline tables,
//! times, dates and numbers, with the exact error for each malformed
//! scalar.

use vstd::prelude::*;
use crate::error::ErrKind;
use crate::escape::{spec_unescape, unescape_from};
use crate::key::{key_segments, insert_dotted, spec_insert_dotted, spec_key_segments};
use crate::numbers::{
    parse_int_digits, spec_all_digits, spec_fits_i64, spec_signed_val, spec_strictly_valid_num,
    spec_strip_underscores, strictly_valid_num_chars, strip_underscores,
};
use crate::split::{spec_find_eq, spec_split_top, find_unquoted_eq, split_top_level};
use crate::strutil::{
    char_from_u32, contains_char, spec_is_digit, spec_trim, subvec, trim,
};
use crate::value::{
    spec_views_of, SpecTable, SpecValue, Table, Value, value_view,
};
use crate::datetime::{spec_find_char, spec_load_date, spec_time_of};

verus! {

/// `c` with an ASCII capital letter folded to its small form.
pub open spec fn spec_lower_char(c: char) -> char {
    if 'A' <= c && c <= 'Z' {
        ((c as int) + 32) as char
    } else {
        c
    }
}

fn lower_char(c: char) -> (r: char)
    ensures
        r == spec_lower_char(c),
{
    if 'A' <= c && c <= 'Z' {
        let u: u32 = c as u32;
        proof {
            assert(65 <= c as int <= 90);
            assert(crate::strutil::spec_is_scalar(c as int + 32));
        }
        match char_from_u32(u + 32) {
            Some(x) => x,
            None => {
                proof {
                    assert(false);
                }
                c
            },
        }
    } else {
        c
    }
}

/// `s` spells exactly `true`.
pub open spec fn spec_is_true(s: Seq<char>) -> bool {
    s.len() == 4 && s[0] == 't' && s[1] == 'r' && s[2] == 'u' && s[3] == 'e'
}

/// `s` spells `true` in some mix of cases.
pub open spec fn spec_is_true_any_case(s: Seq<char>) -> bool {
    s.len() == 4 && spec_lower_char(s[0]) == 't' && spec_lower_char(s[1]) == 'r'
        && spec_lower_char(s[2]) == 'u' && spec_lower_char(s[3]) == 'e'
}

/// `s` spells exactly `false`.
pub open spec fn spec_is_false(s: Seq<char>) -> bool {
    s.len() == 5 && s[0] == 'f' && s[1] == 'a' && s[2] == 'l' && s[3] == 's' && s[4] == 'e'
}

/// `s` spells `false` in some mix of cases.
pub open spec fn spec_is_false_any_case(s: Seq<char>) -> bool {
    s.len() == 5 && spec_lower_char(s[0]) == 'f' && spec_lower_char(s[1]) == 'a'
        && spec_lower_char(s[2]) == 'l' && spec_lower_char(s[3]) == 's' && spec_lower_char(s[4])
        == 'e'
}

/// `s` spells `inf` or `nan` in some mix of cases.
pub open spec fn spec_is_inf_nan(s: Seq<char>) -> bool {
    s.len() == 3 && ((spec_lower_char(s[0]) == 'i' && spec_lower_char(s[1]) == 'n'
        && spec_lower_char(s[2]) == 'f') || (spec_lower_char(s[0]) == 'n' && spec_lower_char(s[1])
        == 'a' && spec_lower_char(s[2]) == 'n'))
}

/// First position at or after `i` whose character is no decimal digit.
pub open spec fn spec_run_end(s: Seq<char>, i: int) -> int
    decreases s.len() - i,
{
    if i < 0 || i >= s.len() {
        i
    } else if spec_is_digit(s[i]) {
        spec_run_end(s, i + 1)
    } else {
        i
    }
}

/// Whether `s` has the shape of a float literal once cleaned: a digit
/// run, an optional point with a possibly empty digit run, and an
/// optional exponent with its sign and a nonempty digit run.
pub open spec fn spec_is_float_text(s: Seq<char>) -> bool {
    let d1 = spec_run_end(s, 0);
    if d1 == 0 {
        false
    } else {
        let p = if d1 < s.len() && s[d1] == '.' {
            spec_run_end(s, d1 + 1)
        } else {
            d1
        };
        if p == s.len() {
            true
        } else if s[p] == 'e' || s[p] == 'E' {
            let p2 = if p + 1 < s.len() && (s[p + 1] == '+' || s[p + 1] == '-') {
                p + 2
            } else {
                p + 1
            };
            spec_run_end(s, p2) == s.len() && p2 < s.len()
        } else {
            false
        }
    }
}

fn run_end(s: &Vec<char>, i: usize) -> (r: usize)
    requires
        i <= s@.len(),
    ensures
        r as int == spec_run_end(s@, i as int),
        i <= r <= s@.len(),
    decreases s@.len() - i,
{
    if i == s.len() {
        return i;
    }
    let c = s[i];
    if '0' <= c && c <= '9' {
        run_end(s, i + 1)
    } else {
        i
    }
}

fn is_float_text(s: &Vec<char>) -> (r: bool)
    ensures
        r == spec_is_float_text(s@),
{
    let d1 = run_end(s, 0);
    if d1 == 0 {
        return false;
    }
    let p: usize = if d1 < s.len() && s[d1] == '.' {
        run_end(s, d1 + 1)
    } else {
        d1
    };
    if p == s.len() {
        return true;
    }
    let c = s[p];
    if c == 'e' || c == 'E' {
        let p2: usize = if p + 1 < s.len() && (s[p + 1] == '+' || s[p + 1] == '-') {
            p + 2
        } else {
            p + 1
        };
        if p2 > s.len() {
            proof {
                assert(spec_run_end(s@, p2 as int) == p2);
            }
            return false;
        }
        run_end(s, p2) == s.len() && p2 < s.len()
    } else {
        false
    }
}

/// Whether an unescaped `q` stands in `s` at or after `i`; `esc` says the
/// previous character was an unconsumed backslash.
pub open spec fn spec_has_unescaped(s: Seq<char>, i: int, esc: bool, q: char) -> bool
    decreases s.len() - i,
{
    if i < 0 || i >= s.len() {
        false
    } else if esc {
        spec_has_unescaped(s, i + 1, false, q)
    } else if s[i] == '\\' {
        spec_has_unescaped(s, i + 1, true, q)
    } else if s[i] == q {
        true
    } else {
        spec_has_unescaped(s, i + 1, false, q)
    }
}

fn has_unescaped(s: &Vec<char>, i: usize, esc: bool, q: char) -> (r: bool)
    requires
        i <= s@.len(),
    ensures
        r == spec_has_unescaped(s@, i as int, esc, q),
    decreases s@.len() - i,
{
    if i == s.len() {
        return false;
    }
    let c = s[i];
    if esc {
        has_unescaped(s, i + 1, false, q)
    } else if c == '\\' {
        has_unescaped(s, i + 1, true, q)
    } else if c == q {
        true
    } else {
        has_unescaped(s, i + 1, false, q)
    }
}

/// Whether three consecutive `q` stand somewhere in `s`.
pub open spec fn spec_has_triple(s: Seq<char>, q: char) -> bool {
    exists|i: int|
        0 <= i && i + 2 < s.len() && #[trigger] s[i] == q && s[i + 1] == q && s[i + 2] == q
}

fn has_triple(s: &Vec<char>, q: char) -> (r: bool)
    ensures
        r == spec_has_triple(s@, q),
{
    if s.len() < 3 {
        return false;
    }
    let mut i: usize = 0;
    while i < s.len() - 2
        invariant
            s@.len() >= 3,
            0 <= i <= s@.len() - 2,
            forall|j: int|
                0 <= j && j + 2 < s@.len() && j < i ==> !(#[trigger] s@[j] == q && s@[j + 1] == q
                    && s@[j + 2] == q),
        decreases s@.len() - i,
    {
        if s[i] == q && s[i + 1] == q && s[i + 2] == q {
            return true;
        }
        i += 1;
    }
    false
}

/// The decoded content of one quoted string token, quotes included. A
/// tripled opening quote must close with a triple at the very end and may
/// not hold another triple; a single opening quote must close at the end,
/// with no stray closing quote inside; a basic (double-quoted) string
/// then has its escapes processed.
pub open spec fn spec_parse_string(s: Seq<char>) -> Result<Seq<char>, ErrKind>
    recommends
        s.len() >= 1,
        s[0] == '"' || s[0] == '\'',
{
    let q = s[0];
    if s.len() >= 3 && s[1] == q && s[2] == q {
        if s.len() >= 6 && s.last() == q && s[s.len() - 2] == q && s[s.len() - 3] == q {
            let content = s.subrange(3, s.len() - 3);
            if spec_has_triple(content, q) {
                Err(ErrKind::TokensAfterClosedString)
            } else if q == '"' {
                spec_unescape(content)
            } else {
                Ok(content)
            }
        } else {
            Err(ErrKind::UnbalancedQuotes)
        }
    } else {
        if s.len() >= 2 && s.last() == q {
            let content = s.subrange(1, s.len() - 1);
            if q == '"' {
                if spec_has_unescaped(content, 0, false, q) {
                    Err(ErrKind::TokensAfterClosedString)
                } else {
                    spec_unescape(content)
                }
            } else {
                if content.contains(q) {
                    Err(ErrKind::TokensAfterClosedString)
                } else {
                    Ok(content)
                }
            }
        } else {
            Err(ErrKind::UnbalancedQuotes)
        }
    }
}

/// Decodes one quoted string token.
fn parse_string_token(s: &Vec<char>) -> (r: Result<Vec<char>, ErrKind>)
    requires
        s@.len() >= 1,
        s@[0] == '"' || s@[0] == '\'',
    ensures
        r matches Ok(v) ==> spec_parse_string(s@) == Ok::<_, ErrKind>(v@),
        r matches Err(e) ==> spec_parse_string(s@) == Err::<Seq<char>, _>(e),
{
    let slen = s.len();
    let q = s[0];
    proof {
        assert(s@.last() == s@[s@.len() - 1]);
    }
    if slen >= 3 && s[1] == q && s[2] == q {
        if slen >= 6 && s[slen - 1] == q && s[slen - 2] == q && s[slen - 3] == q {
            let content = subvec(s, 3, slen - 3);
            if has_triple(&content, q) {
                Err(ErrKind::TokensAfterClosedString)
            } else if q == '"' {
                proof {
                    assert(content@.skip(0) =~= s@.subrange(3, s@.len() - 3));
                }
                unescape_from(&content, 0)
            } else {
                Ok(content)
            }
        } else {
            Err(ErrKind::UnbalancedQuotes)
        }
    } else {
        if slen >= 2 && s[slen - 1] == q {
            let content = subvec(s, 1, slen - 1);
            if q == '"' {
                if has_unescaped(&content, 0, false, q) {
                    Err(ErrKind::TokensAfterClosedString)
                } else {
                    proof {
                        assert(content@.skip(0) =~= s@.subrange(1, s@.len() - 1));
                    }
                    unescape_from(&content, 0)
                }
            } else {
                if contains_char(&content, q) {
                    Err(ErrKind::TokensAfterClosedString)
                } else {
                    Ok(content)
                }
            }
        } else {
            Err(ErrKind::UnbalancedQuotes)
        }
    }
}

/// The cleaned literal text with its sign: a minus is kept, a plus is
/// dropped.
pub open spec fn spec_signed_text(neg: bool, u: Seq<char>) -> Seq<char> {
    if neg {
        seq!['-'] + u
    } else {
        u
    }
}

/// A parsed value. The cases are tried in order: the booleans with their
/// case rule, quoted strings, arrays, inline tables, times, dates and
/// datetimes, and numbers; a numeric literal that is not strictly valid
/// is rejected before its digits are read.
pub open spec fn spec_load_value(s: Seq<char>, sv: bool) -> Result<SpecValue, ErrKind>
    decreases s.len(), 0int, 0int,
    via spec_load_value_dec
{
    if s.len() == 0 {
        Err(ErrKind::EmptyValue)
    } else if spec_is_true(s) {
        Ok(SpecValue::Bool(true))
    } else if spec_is_true_any_case(s) {
        Err(ErrKind::LowercaseBool)
    } else if spec_is_false(s) {
        Ok(SpecValue::Bool(false))
    } else if spec_is_false_any_case(s) {
        Err(ErrKind::LowercaseBool)
    } else if s[0] == '"' || s[0] == '\'' {
        match spec_parse_string(s) {
            Ok(content) => Ok(SpecValue::Str(content)),
            Err(e) => Err(e),
        }
    } else if s[0] == '[' {
        if s.len() < 2 || s.last() != ']' {
            Err(ErrKind::InvalidDateOrNumber)
        } else {
            match spec_array_fold(s.subrange(1, s.len() - 1), 0) {
                Ok(items) => Ok(SpecValue::Array(items)),
                Err(e) => Err(e),
            }
        }
    } else if s[0] == '{' {
        if s.len() < 2 || s.last() != '}' {
            Err(ErrKind::InvalidInlineTable)
        } else {
            let interior = s.subrange(1, s.len() - 1);
            if spec_trim(interior).len() == 0 {
                Ok(SpecValue::Table(SpecTable { entries: Seq::empty(), implicit: false }))
            } else {
                let folded = spec_inline_fold(
                    interior,
                    0,
                    SpecTable { entries: Seq::empty(), implicit: false },
                );
                match folded.1 {
                    None => Ok(SpecValue::Table(folded.0)),
                    Some(e) => Err(e),
                }
            }
        }
    } else if spec_time_of(s) is Some {
        let t = spec_time_of(s).unwrap();
        if t.hour < 24 && t.minute < 60 && t.second < 60 {
            Ok(SpecValue::Time(t))
        } else {
            Err(ErrKind::InvalidTime)
        }
    } else if spec_load_date(s) is Some {
        Ok(spec_load_date(s).unwrap())
    } else if !sv {
        Err(ErrKind::WeirdNumber)
    } else {
        spec_number(s)
    }
}

/// A cleaned numeric literal: the sign is stripped, underscores removed,
/// then the text is a float when it holds a point or a bare exponent
/// letter, `inf` or `nan` in any case, and an integer otherwise, read in
/// the radix its prefix names.
pub open spec fn spec_number(s: Seq<char>) -> Result<SpecValue, ErrKind> {
    let neg = s.len() > 0 && s[0] == '-';
    let u0 = if s.len() > 0 && (s[0] == '-' || s[0] == '+') {
        s.drop_first()
    } else {
        s
    };
    let u = spec_strip_underscores(u0);
    if u.len() == 0 {
        Err(ErrKind::InvalidDateOrNumber)
    } else if u.contains('.') || (!u.contains('x') && (u.contains('e') || u.contains('E'))) {
        if u.contains('.') && spec_find_char(u, 0, '.') == u.len() - 1 {
            Err(ErrKind::FloatMissingDigits)
        } else if !spec_is_digit(u[0]) {
            Err(ErrKind::FloatNoLeadingDigit)
        } else if spec_is_float_text(u) {
            Ok(SpecValue::FloatText(spec_signed_text(neg, u)))
        } else {
            Err(ErrKind::InvalidDateOrNumber)
        }
    } else if spec_is_inf_nan(u) {
        Ok(SpecValue::FloatText(spec_signed_text(neg, u)))
    } else {
        let radix: int = if u.len() >= 2 && u[0] == '0' && u[1] == 'x' {
            16
        } else if u.len() >= 2 && u[0] == '0' && u[1] == 'o' {
            8
        } else if u.len() >= 2 && u[0] == '0' && u[1] == 'b' {
            2
        } else {
            10
        };
        let digits = if radix == 10 {
            u
        } else {
            u.skip(2)
        };
        if digits.len() == 0 || !spec_all_digits(digits, radix) {
            Err(ErrKind::InvalidDateOrNumber)
        } else if radix == 10 && digits.len() > 1 && digits[0] == '0' {
            Err(ErrKind::InvalidDateOrNumber)
        } else if !spec_fits_i64(digits, radix, neg) {
            Err(ErrKind::InvalidDateOrNumber)
        } else {
            Ok(SpecValue::Int(spec_signed_val(digits, radix, neg)))
        }
    }
}

/// The elements of an array interior from piece `idx` on: every piece is
/// trimmed, empty pieces are dropped, and each remaining piece is itself
/// a value, marked strictly valid by its own text.
pub open spec fn spec_array_fold(interior: Seq<char>, idx: int) -> Result<Seq<SpecValue>, ErrKind>
    decreases interior.len(), 1int, spec_split_top(interior).len() - idx,
    via spec_array_fold_dec
{
    let pieces = spec_split_top(interior);
    if idx < 0 || idx >= pieces.len() {
        Ok(Seq::empty())
    } else {
        let t = spec_trim(pieces[idx]);
        if t.len() == 0 {
            spec_array_fold(interior, idx + 1)
        } else {
            match spec_load_value(t, spec_strictly_valid_num(pieces[idx])) {
                Ok(v) => match spec_array_fold(interior, idx + 1) {
                    Ok(rest) => Ok(seq![v] + rest),
                    Err(e) => Err(e),
                },
                Err(e) => Err(e),
            }
        }
    }
}

/// The table built from an inline-table interior from piece `idx` on:
/// each piece must hold an unquoted `=`; its key path and value are
/// inserted like a key/value line. The result carries the table as far
/// as it got, together with the failure if a piece was rejected.
pub open spec fn spec_inline_fold(interior: Seq<char>, idx: int, acc: SpecTable) -> (
    SpecTable,
    Option<ErrKind>,
)
    decreases interior.len(), 1int, spec_split_top(interior).len() - idx,
    via spec_inline_fold_dec
{
    let pieces = spec_split_top(interior);
    if idx < 0 || idx >= pieces.len() {
        (acc, None)
    } else {
        let piece = pieces[idx];
        let eq = spec_find_eq(piece);
        if eq < 0 {
            (acc, Some(ErrKind::InvalidInlineTable))
        } else {
            let keytext = spec_trim(piece.subrange(0, eq));
            let valraw = piece.subrange(eq + 1, piece.len() as int);
            let valtext = spec_trim(valraw);
            match spec_key_segments(keytext) {
                Err(e) => (acc, Some(e)),
                Ok(segs) => match spec_load_value(valtext, spec_strictly_valid_num(valraw)) {
                    Err(e) => (acc, Some(e)),
                    Ok(v) => match spec_insert_dotted(acc, segs, 0, v) {
                        Err(e) => (acc, Some(e)),
                        Ok(acc2) => spec_inline_fold(interior, idx + 1, acc2),
                    },
                },
            }
        }
    }
}

#[via_fn]
proof fn spec_load_value_dec(s: Seq<char>, sv: bool) {
}

#[via_fn]
proof fn spec_array_fold_dec(interior: Seq<char>, idx: int) {
    crate::split::lemma_split_top_len(interior);
    let pieces = spec_split_top(interior);
    if 0 <= idx && idx < pieces.len() {
        crate::strutil::lemma_trim_len(pieces[idx]);
    }
}

#[via_fn]
proof fn spec_inline_fold_dec(interior: Seq<char>, idx: int, acc: SpecTable) {
    crate::split::lemma_split_top_len(interior);
    let pieces = spec_split_top(interior);
    if 0 <= idx && idx < pieces.len() {
        let piece = pieces[idx];
        let eq = spec_find_eq(piece);
        if eq >= 0 {
            crate::split::lemma_find_eq_in_range(piece);
            crate::strutil::lemma_trim_len(piece.subrange(eq + 1, piece.len() as int));
        }
    }
}

/// Parses one trimmed value token.
pub fn load_value_chars(v: &Vec<char>, sv: bool) -> (r: Result<Value, ErrKind>)
    ensures
        r matches Ok(val) ==> spec_load_value(v@, sv) == Ok::<_, ErrKind>(value_view(val)),
        r matches Err(e) ==> spec_load_value(v@, sv) == Err::<SpecValue, _>(e),
    decreases v@.len(), 0int, 0int,
{
    let vlen = v.len();
    if vlen == 0 {
        return Err(ErrKind::EmptyValue);
    }
    proof {
        assert(v@.last() == v@[v@.len() - 1]);
    }
    if vlen == 4 && v[0] == 't' && v[1] == 'r' && v[2] == 'u' && v[3] == 'e' {
        return Ok(Value::Bool(true));
    }
    if vlen == 4 && lower_char(v[0]) == 't' && lower_char(v[1]) == 'r' && lower_char(v[2]) == 'u'
        && lower_char(v[3]) == 'e' {
        return Err(ErrKind::LowercaseBool);
    }
    if vlen == 5 && v[0] == 'f' && v[1] == 'a' && v[2] == 'l' && v[3] == 's' && v[4] == 'e' {
        return Ok(Value::Bool(false));
    }
    if vlen == 5 && lower_char(v[0]) == 'f' && lower_char(v[1]) == 'a' && lower_char(v[2]) == 'l'
        && lower_char(v[3]) == 's' && lower_char(v[4]) == 'e' {
        return Err(ErrKind::LowercaseBool);
    }
    let c0 = v[0];
    if c0 == '"' || c0 == '\'' {
        return match parse_string_token(v) {
            Ok(content) => Ok(Value::Str(crate::strutil::chars_string(&content))),
            Err(e) => Err(e),
        };
    }
    if c0 == '[' {
        if vlen < 2 || v[vlen - 1] != ']' {
            return Err(ErrKind::InvalidDateOrNumber);
        }
        let interior = subvec(v, 1, vlen - 1);
        let items = array_fold_exec(&interior, 0);
        return match items {
            Ok(items) => {
                let ghost gv = value_view(Value::Array(items));
                proof {
                    assert(spec_array_fold(interior@, 0) == Ok::<_, ErrKind>(
                        spec_views_of(items@),
                    ));
                    assert(gv matches SpecValue::Array(a) && a =~= spec_views_of(items@));
                    assert(gv =~= SpecValue::Array(spec_views_of(items@)));
                }
                Ok(Value::Array(items))
            },
            Err(e) => Err(e),
        };
    }
    if c0 == '{' {
        if vlen < 2 || v[vlen - 1] != '}' {
            return Err(ErrKind::InvalidInlineTable);
        }
        let interior = subvec(v, 1, vlen - 1);
        let trimmed = trim(&interior);
        if trimmed.len() == 0 {
            let t = Table::new();
            proof {
                assert(t@.entries =~= Seq::<(Seq<char>, SpecValue)>::empty());
                assert(t@ =~= SpecTable { entries: Seq::empty(), implicit: false });
            }
            return Ok(Value::Table(t));
        }
        let t0 = Table::new();
        proof {
            assert(t0@.entries =~= Seq::<(Seq<char>, SpecValue)>::empty());
            assert(t0@ =~= SpecTable { entries: Seq::empty(), implicit: false });
        }
        let (folded, ferr) = inline_fold_exec(&interior, 0, t0);
        return match ferr {
            None => Ok(Value::Table(folded)),
            Some(e) => Err(e),
        };
    }
    let time = crate::datetime::match_time(v);
    match time {
        Ok(Some(t)) => {
            return Ok(Value::Time(t));
        },
        Err(_) => {
            return Err(ErrKind::InvalidTime);
        },
        Ok(None) => {},
    }
    let vs = crate::strutil::chars_string(v);
    match crate::datetime::load_date(vs.as_str()) {
        Some(d) => {
            return Ok(d);
        },
        None => {},
    }
    if !sv {
        return Err(ErrKind::WeirdNumber);
    }
    number_exec(v)
}

/// Parses a cleaned numeric literal.
fn number_exec(v: &Vec<char>) -> (r: Result<Value, ErrKind>)
    ensures
        r matches Ok(val) ==> spec_number(v@) == Ok::<_, ErrKind>(value_view(val)),
        r matches Err(e) ==> spec_number(v@) == Err::<SpecValue, _>(e),
{
    let vlen = v.len();
    let neg = vlen > 0 && v[0] == '-';
    let u0: Vec<char> = if vlen > 0 && (v[0] == '-' || v[0] == '+') {
        let w = subvec(v, 1, vlen);
        proof {
            assert(w@ =~= v@.drop_first());
        }
        w
    } else {
        let w = subvec(v, 0, vlen);
        proof {
            assert(w@ =~= v@);
        }
        w
    };
    let u = strip_underscores(&u0);
    let ulen = u.len();
    if ulen == 0 {
        return Err(ErrKind::InvalidDateOrNumber);
    }
    let has_dot = contains_char(&u, '.');
    let has_x = contains_char(&u, 'x');
    let has_e = contains_char(&u, 'e');
    let has_ee = contains_char(&u, 'E');
    if has_dot || (!has_x && (has_e || has_ee)) {
        if has_dot {
            let fd = crate::datetime::find_char(&u, 0, '.');
            match fd {
                Some(i) => {
                    if i == ulen - 1 {
                        return Err(ErrKind::FloatMissingDigits);
                    }
                },
                None => {
                    proof {
                        lemma_contains_find(u@, '.');
                        assert(false);
                    }
                },
            }
        }
        let c = u[0];
        if !('0' <= c && c <= '9') {
            return Err(ErrKind::FloatNoLeadingDigit);
        }
        if is_float_text(&u) {
            let text = signed_text_exec(neg, &u);
            Ok(Value::FloatText(text))
        } else {
            Err(ErrKind::InvalidDateOrNumber)
        }
    } else if ulen == 3 && ((lower_char(u[0]) == 'i' && lower_char(u[1]) == 'n' && lower_char(
        u[2],
    ) == 'f') || (lower_char(u[0]) == 'n' && lower_char(u[1]) == 'a' && lower_char(u[2]) == 'n')) {
        let text = signed_text_exec(neg, &u);
        Ok(Value::FloatText(text))
    } else {
        let radix: u32 = if ulen >= 2 && u[0] == '0' && u[1] == 'x' {
            16
        } else if ulen >= 2 && u[0] == '0' && u[1] == 'o' {
            8
        } else if ulen >= 2 && u[0] == '0' && u[1] == 'b' {
            2
        } else {
            10
        };
        let digits: Vec<char> = if radix == 10 {
            u
        } else {
            let w = subvec(&u, 2, ulen);
            proof {
                assert(w@ =~= spec_strip_underscores(if v@.len() > 0 && (v@[0] == '-' || v@[0]
                    == '+') {
                    v@.drop_first()
                } else {
                    v@
                }).skip(2));
            }
            w
        };
        if radix == 10 && digits.len() > 1 && digits[0] == '0' {
            return Err(ErrKind::InvalidDateOrNumber);
        }
        match parse_int_digits(&digits, radix, neg) {
            Some(n) => Ok(Value::Int(n)),
            None => Err(ErrKind::InvalidDateOrNumber),
        }
    }
}

proof fn lemma_contains_find(s: Seq<char>, c: char)
    ensures
        s.contains(c) ==> spec_find_char(s, 0, c) >= 0,
{
    if s.contains(c) {
        let w = choose|i: int| 0 <= i < s.len() && s[i] == c;
        lemma_find_char_finds(s, 0, c, w);
    }
}

proof fn lemma_find_char_finds(s: Seq<char>, from: int, c: char, w: int)
    requires
        0 <= from <= w < s.len(),
        s[w] == c,
    ensures
        spec_find_char(s, from, c) >= 0,
    decreases s.len() - from,
{
    if s[from] != c {
        if from < w {
            lemma_find_char_finds(s, from + 1, c, w);
        }
    }
}

/// The literal with a minus sign back in front when the value was
/// negative.
fn signed_text_exec(neg: bool, u: &Vec<char>) -> (r: String)
    ensures
        r@ == spec_signed_text(neg, u@),
{
    if neg {
        let mut w: Vec<char> = Vec::new();
        w.push('-');
        crate::error::append_all(&mut w, u);
        proof {
            assert(w@ =~= seq!['-'] + u@);
        }
        crate::strutil::chars_string(&w)
    } else {
        crate::strutil::chars_string(u)
    }
}

/// Parses the elements of an array interior from piece `idx` on.
fn array_fold_exec(interior: &Vec<char>, idx: usize) -> (r: Result<Vec<Value>, ErrKind>)
    ensures
        r matches Ok(items) ==> spec_array_fold(interior@, idx as int) == Ok::<_, ErrKind>(
            spec_views_of(items@),
        ),
        r matches Err(e) ==> spec_array_fold(interior@, idx as int) == Err::<Seq<SpecValue>, _>(e),
    decreases interior@.len(), 1int, spec_split_top(interior@).len() - idx,
{
    let pieces = split_top_level(interior);
    if idx >= pieces.len() {
        let items: Vec<Value> = Vec::new();
        proof {
            assert(spec_views_of(items@) =~= Seq::<SpecValue>::empty());
        }
        return Ok(items);
    }
    let t = trim(&pieces[idx]);
    proof {
        crate::split::lemma_split_top_len(interior@);
        crate::strutil::lemma_trim_len(spec_split_top(interior@)[idx as int]);
    }
    if t.len() == 0 {
        return array_fold_exec(interior, idx + 1);
    }
    let sv = strictly_valid_num_chars(&pieces[idx]);
    let first = load_value_chars(&t, sv);
    match first {
        Ok(val) => {
            let rest = array_fold_exec(interior, idx + 1);
            match rest {
                Ok(mut items) => {
                    let ghost old_items = items@;
                    items.insert(0, val);
                    proof {
                        assert(items@ =~= seq![val] + old_items);
                        assert(spec_views_of(items@) =~= seq![value_view(val)] + spec_views_of(
                            old_items,
                        ));
                    }
                    Ok(items)
                },
                Err(e) => Err(e),
            }
        },
        Err(e) => Err(e),
    }
}

/// Builds an inline table from its interior, from piece `idx` on, into
/// `acc`; a failure comes back with the table as far as it got.
pub fn inline_fold_exec(interior: &Vec<char>, idx: usize, acc: Table) -> (r: (
    Table,
    Option<ErrKind>,
))
    ensures
        spec_inline_fold(interior@, idx as int, acc@) == (r.0@, r.1),
    decreases interior@.len(), 1int, spec_split_top(interior@).len() - idx,
{
    let pieces = split_top_level(interior);
    if idx >= pieces.len() {
        return (acc, None);
    }
    let piece = &pieces[idx];
    let plen = piece.len();
    proof {
        crate::split::lemma_split_top_len(interior@);
    }
    let eq = find_unquoted_eq(piece);
    match eq {
        None => (acc, Some(ErrKind::InvalidInlineTable)),
        Some(eqi) => {
            let keyraw = subvec(piece, 0, eqi);
            let keytext = trim(&keyraw);
            let valraw = subvec(piece, eqi + 1, plen);
            let valtext = trim(&valraw);
            proof {
                assert(keyraw@ == spec_split_top(interior@)[idx as int].subrange(0, eqi as int));
                assert(valraw@ == spec_split_top(interior@)[idx as int].subrange(
                    eqi + 1,
                    spec_split_top(interior@)[idx as int].len() as int,
                ));
                crate::strutil::lemma_trim_len(valraw@);
            }
            let segs = match key_segments(&keytext) {
                Err(e) => {
                    return (acc, Some(e));
                },
                Ok(segs) => segs,
            };
            let sv = strictly_valid_num_chars(&valraw);
            let val = match load_value_chars(&valtext, sv) {
                Err(e) => {
                    return (acc, Some(e));
                },
                Ok(val) => val,
            };
            let mut acc2 = acc;
            proof {
                assert(segs.deep_view() =~= spec_key_segments(keytext@)->Ok_0);
            }
            let ins = insert_dotted(&mut acc2, &segs, 0, val);
            match ins {
                Err(e) => (acc2, Some(e)),
                Ok(p) => inline_fold_exec(interior, idx + 1, acc2),
            }
        },
    }
}

} // verus!
