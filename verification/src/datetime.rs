//! Date, time and datetime literals: the fixed-position grammar, with the
//! calendar and clock validity checks delegated to chrono.

use vstd::prelude::*;
use crate::strutil::{spec_is_digit, str_chars};
use crate::tz::{spec_tz_of, SpecTz, TomlTz};
use crate::value::{Date, Datetime, SpecDate, SpecTime, SpecValue, Time, Value, value_view};

verus! {

/// A Gregorian leap year.
pub open spec fn spec_is_leap_year(y: int) -> bool {
    (y % 4 == 0 && y % 100 != 0) || y % 400 == 0
}

/// Days of month `m` of year `y` in the proleptic Gregorian calendar.
pub open spec fn spec_days_in_month(y: int, m: int) -> int {
    if m == 2 {
        if spec_is_leap_year(y) {
            29
        } else {
            28
        }
    } else if m == 4 || m == 6 || m == 9 || m == 11 {
        30
    } else {
        31
    }
}

/// Whether (y, m, d) is a calendar date.
pub open spec fn spec_date_valid(y: int, m: int, d: int) -> bool {
    1 <= m <= 12 && 1 <= d <= spec_days_in_month(y, m)
}

/// Relies on chrono::NaiveDate::from_ymd_opt: for a year within chrono's
/// supported range it returns Some exactly when the month and day name an
/// existing day of the proleptic Gregorian calendar.
#[verifier::external_body]
fn chrono_date_valid(y: i32, m: u32, d: u32) -> (r: bool)
    requires
        0 <= y <= 9999,
    ensures
        r == spec_date_valid(y as int, m as int, d as int),
{
    chrono::NaiveDate::from_ymd_opt(y, m, d).is_some()
}

/// Relies on chrono::NaiveTime::from_hms_micro_opt: for a microsecond
/// value below one million it returns Some exactly when the hour is below
/// 24 and the minute and second are below 60.
#[verifier::external_body]
fn chrono_time_valid(h: u32, mi: u32, sec: u32, micro: u32) -> (r: bool)
    requires
        micro < 1000000,
    ensures
        r == (h < 24 && mi < 60 && sec < 60),
{
    chrono::NaiveTime::from_hms_micro_opt(h, mi, sec, micro).is_some()
}

/// The value of the two digit characters at `i`.
pub open spec fn spec_two(s: Seq<char>, i: int) -> int {
    (s[i] as int - '0' as int) * 10 + (s[i + 1] as int - '0' as int)
}

/// The value of the four digit characters at `i`.
pub open spec fn spec_four(s: Seq<char>, i: int) -> int {
    spec_two(s, i) * 100 + spec_two(s, i + 2)
}

/// Ten to the power `k`.
pub open spec fn spec_pow10(k: int) -> int
    decreases k,
{
    if k <= 0 {
        1
    } else {
        10 * spec_pow10(k - 1)
    }
}

/// All characters of `s` in `[from, to)` are decimal digits.
pub open spec fn spec_all_dec(s: Seq<char>, from: int, to: int) -> bool {
    forall|j: int| from <= j < to ==> spec_is_digit(#[trigger] s[j])
}

/// The decimal value of `s[from..to]`.
pub open spec fn spec_dec_val(s: Seq<char>, from: int, to: int) -> int
    decreases to - from,
{
    if to <= from {
        0
    } else {
        spec_dec_val(s, from, to - 1) * 10 + (s[to - 1] as int - '0' as int)
    }
}

/// Whether positions `i..i+10` of `s` spell `YYYY-MM-DD`.
pub open spec fn spec_date_shape(s: Seq<char>, i: int) -> bool {
    &&& spec_is_digit(s[i]) && spec_is_digit(s[i + 1]) && spec_is_digit(s[i + 2])
        && spec_is_digit(s[i + 3])
    &&& s[i + 4] == '-'
    &&& spec_is_digit(s[i + 5]) && spec_is_digit(s[i + 6])
    &&& s[i + 7] == '-'
    &&& spec_is_digit(s[i + 8]) && spec_is_digit(s[i + 9])
}

/// Whether positions `i..i+8` of `s` spell `HH:MM:SS`.
pub open spec fn spec_clock_shape(s: Seq<char>, i: int) -> bool {
    &&& spec_is_digit(s[i]) && spec_is_digit(s[i + 1])
    &&& s[i + 2] == ':'
    &&& spec_is_digit(s[i + 3]) && spec_is_digit(s[i + 4])
    &&& s[i + 5] == ':'
    &&& spec_is_digit(s[i + 6]) && spec_is_digit(s[i + 7])
}

/// First index of `c` in `s` at or after `from`, or -1.
pub open spec fn spec_find_char(s: Seq<char>, from: int, c: char) -> int
    decreases s.len() - from,
{
    if from < 0 || from >= s.len() {
        -1
    } else if s[from] == c {
        from
    } else {
        spec_find_char(s, from + 1, c)
    }
}

/// A time-only literal `HH:MM:SS` with an optional fraction of one to six
/// digits, scaled to microseconds; rejected when the clock values are out
/// of range.
pub open spec fn spec_time_of(s: Seq<char>) -> Option<SpecTime> {
    if s.len() < 8 || !spec_clock_shape(s, 0) {
        None
    } else {
        let h = spec_two(s, 0);
        let mi = spec_two(s, 3);
        let sec = spec_two(s, 6);
        if s.len() == 8 {
            Some(SpecTime { hour: h, minute: mi, second: sec, micros: 0 })
        } else if s[8] == '.' && 9 < s.len() && s.len() <= 15 && spec_all_dec(
            s,
            9,
            s.len() as int,
        ) {
            let frac = spec_dec_val(s, 9, s.len() as int);
            let micros = frac * spec_pow10(6 - (s.len() - 9));
            Some(SpecTime { hour: h, minute: mi, second: sec, micros })
        } else {
            None
        }
    }
}

/// The fraction and offset that may follow the seconds of a datetime:
/// nothing, `.digits`, an offset, or `.digits` then an offset. `Z` and `z`
/// stand for the zero offset.
pub open spec fn spec_dt_suffix(s: Seq<char>) -> Option<(int, Option<SpecTz>)> {
    if s.len() == 0 {
        Some((0, None))
    } else if s[0] == '.' {
        let plus = spec_find_char(s, 1, '+');
        let minus = spec_find_char(s, 1, '-');
        let fend: int = if s.len() > 1 && s.last() == 'Z' && plus < 0 && minus < 0 {
            s.len() - 1
        } else if plus >= 0 {
            plus
        } else if minus >= 0 {
            minus
        } else {
            s.len() as int
        };
        if !(1 < fend && fend <= 7 && spec_all_dec(s, 1, fend)) {
            None
        } else {
            let micros = spec_dec_val(s, 1, fend) * spec_pow10(6 - (fend - 1));
            if fend == s.len() {
                Some((micros, None))
            } else if fend == s.len() - 1 && s.last() == 'Z' {
                Some((micros, spec_tz_of(seq!['Z'])))
            } else {
                match spec_tz_of(s.skip(fend)) {
                    Some(tz) => Some((micros, Some(tz))),
                    None => None,
                }
            }
        }
    } else {
        let z = if s.len() == 1 && (s[0] == 'Z' || s[0] == 'z') {
            seq!['Z']
        } else {
            s
        };
        match spec_tz_of(z) {
            Some(tz) => Some((0, Some(tz))),
            None => None,
        }
    }
}

/// A date or datetime literal. A value of exactly ten characters is a
/// date alone; one of nineteen or more is a date, `T` or a space, a clock,
/// and an optional fraction and offset. Values whose calendar or clock
/// parts do not exist yield nothing.
pub open spec fn spec_load_date(s: Seq<char>) -> Option<SpecValue> {
    if s.len() == 10 {
        if spec_date_shape(s, 0) && spec_date_valid(spec_four(s, 0), spec_two(s, 5), spec_two(s, 8)) {
            Some(
                SpecValue::Date(
                    SpecDate { year: spec_four(s, 0), month: spec_two(s, 5), day: spec_two(s, 8) },
                ),
            )
        } else {
            None
        }
    } else if s.len() >= 19 {
        if spec_date_shape(s, 0) && (s[10] == 'T' || s[10] == ' ') && spec_clock_shape(s, 11)
            && spec_date_valid(spec_four(s, 0), spec_two(s, 5), spec_two(s, 8)) && spec_two(s, 11)
            < 24 && spec_two(s, 14) < 60 && spec_two(s, 17) < 60 {
            match spec_dt_suffix(s.skip(19)) {
                Some((micros, tz)) => Some(
                    SpecValue::Datetime(
                        crate::value::SpecDatetime {
                            date: SpecDate {
                                year: spec_four(s, 0),
                                month: spec_two(s, 5),
                                day: spec_two(s, 8),
                            },
                            time: SpecTime {
                                hour: spec_two(s, 11),
                                minute: spec_two(s, 14),
                                second: spec_two(s, 17),
                                micros,
                            },
                            tz,
                        },
                    ),
                ),
                None => None,
            }
        } else {
            None
        }
    } else {
        None
    }
}

/// Whether the two characters at `i` are digits, and their value.
fn two_digits(s: &Vec<char>, i: usize) -> (r: Option<u8>)
    requires
        i + 2 <= s@.len(),
    ensures
        r matches Some(n) ==> spec_is_digit(s@[i as int]) && spec_is_digit(s@[i + 1]) && n as int
            == spec_two(s@, i as int) && n <= 99,
        r is None ==> !(spec_is_digit(s@[i as int]) && spec_is_digit(s@[i + 1])),
{
    let slen = s.len();
    let a = s[i];
    let b = s[i + 1];
    if '0' <= a && a <= '9' && '0' <= b && b <= '9' {
        Some((((a as u32 - '0' as u32) * 10) + (b as u32 - '0' as u32)) as u8)
    } else {
        None
    }
}

/// Whether `s[i..i+10]` spells `YYYY-MM-DD`, and its components.
fn date_components(s: &Vec<char>, i: usize) -> (r: Option<(u16, u8, u8)>)
    requires
        i + 10 <= s@.len(),
    ensures
        r matches Some(p) ==> spec_date_shape(s@, i as int) && p.0 as int == spec_four(
            s@,
            i as int,
        ) && p.1 as int == spec_two(s@, i + 5) && p.2 as int == spec_two(s@, i + 8),
        r is None ==> !spec_date_shape(s@, i as int),
{
    let slen = s.len();
    let hi = two_digits(s, i);
    let lo = two_digits(s, i + 2);
    let mo = two_digits(s, i + 5);
    let dy = two_digits(s, i + 8);
    match (hi, lo, mo, dy) {
        (Some(h), Some(l), Some(m), Some(d)) => {
            if s[i + 4] == '-' && s[i + 7] == '-' {
                Some((((h as u16) * 100) + (l as u16), m, d))
            } else {
                None
            }
        },
        _ => None,
    }
}

/// Whether `s[i..i+8]` spells `HH:MM:SS`, and its components.
fn clock_components(s: &Vec<char>, i: usize) -> (r: Option<(u8, u8, u8)>)
    requires
        i + 8 <= s@.len(),
    ensures
        r matches Some(p) ==> spec_clock_shape(s@, i as int) && p.0 as int == spec_two(
            s@,
            i as int,
        ) && p.1 as int == spec_two(s@, i + 3) && p.2 as int == spec_two(s@, i + 6),
        r is None ==> !spec_clock_shape(s@, i as int),
{
    let slen = s.len();
    let h = two_digits(s, i);
    let m = two_digits(s, i + 3);
    let sec = two_digits(s, i + 6);
    match (h, m, sec) {
        (Some(a), Some(b), Some(c)) => {
            if s[i + 2] == ':' && s[i + 5] == ':' {
                Some((a, b, c))
            } else {
                None
            }
        },
        _ => None,
    }
}

/// The decimal value of digits `s[from..to]`, together with the proof that
/// they are digits; `to - from` is at most 7 so the value fits easily.
fn dec_val(s: &Vec<char>, from: usize, to: usize) -> (r: Option<u32>)
    requires
        from <= to <= s@.len(),
        to - from <= 7,
    ensures
        r matches Some(n) ==> spec_all_dec(s@, from as int, to as int) && n as int == spec_dec_val(
            s@,
            from as int,
            to as int,
        ),
        r is None ==> !spec_all_dec(s@, from as int, to as int),
{
    let slen = s.len();
    let mut n: u32 = 0;
    let mut j: usize = from;
    while j < to
        invariant
            from <= j <= to <= slen == s@.len(),
            to - from <= 7,
            spec_all_dec(s@, from as int, j as int),
            n as int == spec_dec_val(s@, from as int, j as int),
            n < 10000000,
        decreases to - j,
    {
        let c = s[j];
        if !('0' <= c && c <= '9') {
            return None;
        }
        proof {
            assert(spec_all_dec(s@, from as int, j + 1));
            lemma_dec_val_bound(s@, from as int, j as int);
            lemma_dec_val_bound(s@, from as int, j + 1);
            lemma_pow10_values();
            lemma_pow10_le(j + 1 - from, 7);
        }
        n = n * 10 + (c as u32 - '0' as u32);
        j += 1;
    }
    Some(n)
}

proof fn lemma_pow10_le(a: int, b: int)
    requires
        0 <= a <= b,
    ensures
        spec_pow10(a) <= spec_pow10(b),
    decreases b - a,
{
    if a < b {
        lemma_pow10_le(a, b - 1);
        assert(spec_pow10(b) == 10 * spec_pow10(b - 1));
        lemma_pow10_pos(b - 1);
    }
}

proof fn lemma_pow10_pos(k: int)
    ensures
        spec_pow10(k) >= 1,
    decreases k,
{
    if k > 0 {
        lemma_pow10_pos(k - 1);
    }
}

proof fn lemma_pow10_values()
    ensures
        spec_pow10(0) == 1,
        spec_pow10(1) == 10,
        spec_pow10(2) == 100,
        spec_pow10(3) == 1000,
        spec_pow10(4) == 10000,
        spec_pow10(5) == 100000,
        spec_pow10(6) == 1000000,
        spec_pow10(7) == 10000000,
{
}

proof fn lemma_dec_val_bound(s: Seq<char>, from: int, to: int)
    requires
        spec_all_dec(s, from, to),
    ensures
        0 <= spec_dec_val(s, from, to) < spec_pow10(to - from),
    decreases to - from,
{
    if to > from {
        assert(spec_all_dec(s, from, to - 1));
        lemma_dec_val_bound(s, from, to - 1);
        let prev = spec_dec_val(s, from, to - 1);
        assert(prev * 10 <= (spec_pow10(to - from - 1) - 1) * 10) by (nonlinear_arith)
            requires
                prev <= spec_pow10(to - from - 1) - 1,
        ;
        assert(spec_is_digit(s[to - 1]));
    }
}

/// Ten to the power `k` for the small exponents the fraction needs.
fn pow10_small(k: usize) -> (r: u32)
    requires
        k <= 6,
    ensures
        r as int == spec_pow10(k as int),
{
    proof {
        lemma_pow10_values();
    }
    if k == 0 {
        1
    } else if k == 1 {
        10
    } else if k == 2 {
        100
    } else if k == 3 {
        1000
    } else if k == 4 {
        10000
    } else if k == 5 {
        100000
    } else {
        1000000
    }
}

/// First position of `c` in `s` at or after `from`, or none.
pub fn find_char(s: &Vec<char>, from: usize, c: char) -> (r: Option<usize>)
    requires
        from <= s@.len(),
    ensures
        r matches Some(i) ==> spec_find_char(s@, from as int, c) == i as int && from <= i
            < s@.len(),
        r is None ==> spec_find_char(s@, from as int, c) < 0,
    decreases s@.len() - from,
{
    if from == s.len() {
        return None;
    }
    if s[from] == c {
        return Some(from);
    }
    find_char(s, from + 1, c)
}

/// Reads a time-only literal; out-of-range clock values are a distinct
/// failure so the caller can report them.
///
/// Yields `Ok(None)` when the text does not have the time shape at all,
/// `Err(())` when it has the shape but names no valid time of day, and the
/// time otherwise.
pub fn match_time(s: &Vec<char>) -> (r: Result<Option<Time>, ()>)
    ensures
        r matches Ok(Some(t)) ==> spec_time_of(s@) == Some(t@) && t.micros < 1000000 && t.hour
            < 24 && t.minute < 60 && t.second < 60,
        r == Ok::<Option<Time>, ()>(None) ==> spec_time_of(s@) is None,
        r is Err ==> (spec_time_of(s@) matches Some(st) && !(st.hour < 24 && st.minute < 60
            && st.second < 60)),
{
    if s.len() < 8 {
        return Ok(None);
    }
    let clock = clock_components(s, 0);
    let (h, mi, sec) = match clock {
        Some(t) => t,
        None => {
            return Ok(None);
        },
    };
    let micros: u32;
    if s.len() == 8 {
        micros = 0;
    } else if s[8] == '.' && 9 < s.len() && s.len() <= 15 {
        let frac = dec_val(s, 9, s.len());
        match frac {
            Some(f) => {
                proof {
                    lemma_dec_val_bound(s@, 9, s@.len() as int);
                    lemma_pow10_mul_bound(s@.len() - 9);
                }
                micros = f * pow10_small(6 - (s.len() - 9));
            },
            None => {
                return Ok(None);
            },
        }
    } else {
        return Ok(None);
    }
    if chrono_time_valid(h as u32, mi as u32, sec as u32, micros) {
        Ok(Some(Time { hour: h, minute: mi, second: sec, micros }))
    } else {
        Err(())
    }
}

/// A fraction of `k` digits scaled to microseconds stays below one
/// million.
proof fn lemma_pow10_mul_bound(k: int)
    requires
        1 <= k <= 6,
    ensures
        forall|f: int|
            0 <= f < spec_pow10(k) ==> #[trigger] (f * spec_pow10(6 - k)) < 1000000 && f
                * spec_pow10(6 - k) >= 0,
{
    lemma_pow10_values();
    assert forall|f: int| 0 <= f < spec_pow10(k) implies #[trigger] (f * spec_pow10(6 - k))
        < 1000000 && f * spec_pow10(6 - k) >= 0 by {
        let p = spec_pow10(6 - k);
        let q = spec_pow10(k);
        assert(p * q == 1000000) by {
            if k == 1 {
            } else if k == 2 {
            } else if k == 3 {
            } else if k == 4 {
            } else if k == 5 {
            } else {
            }
        }
        assert(f * p <= (q - 1) * p) by (nonlinear_arith)
            requires
                f <= q - 1,
                p >= 0,
        ;
        assert((q - 1) * p == q * p - p) by (nonlinear_arith);
        assert(f * p >= 0) by (nonlinear_arith)
            requires
                f >= 0,
                p >= 0,
        ;
    }
}

/// Reads a date or datetime literal, or nothing when `val` is not one.
pub fn load_date(val: &str) -> (r: Option<Value>)
    ensures
        r matches Some(v) ==> spec_load_date(val@) == Some(value_view(v)),
        r is None ==> spec_load_date(val@) is None,
{
    let s = str_chars(val);
    if s.len() == 10 {
        let date = date_components(&s, 0);
        match date {
            Some((y, m, d)) => {
                if chrono_date_valid(y as i32, m as u32, d as u32) {
                    Some(Value::Date(Date { year: y, month: m, day: d }))
                } else {
                    None
                }
            },
            None => None,
        }
    } else if s.len() >= 19 {
        let date = date_components(&s, 0);
        let (y, m, d) = match date {
            Some(t) => t,
            None => {
                return None;
            },
        };
        if !(s[10] == 'T' || s[10] == ' ') {
            return None;
        }
        let clock = clock_components(&s, 11);
        let (h, mi, sec) = match clock {
            Some(t) => t,
            None => {
                return None;
            },
        };
        if !chrono_date_valid(y as i32, m as u32, d as u32) {
            return None;
        }
        if !(h < 24 && mi < 60 && sec < 60) {
            return None;
        }
        let suffix = dt_suffix(&s, 19);
        match suffix {
            Some((micros, tz)) => {
                Some(
                    Value::Datetime(
                        Datetime {
                            date: Date { year: y, month: m, day: d },
                            time: Time { hour: h, minute: mi, second: sec, micros },
                            tz,
                        },
                    ),
                )
            },
            None => None,
        }
    } else {
        None
    }
}

/// Reads the fraction and offset that follow position `from`.
#[verifier::rlimit(60)]
fn dt_suffix(s: &Vec<char>, from: usize) -> (r: Option<(u32, Option<TomlTz>)>)
    requires
        from <= s@.len(),
    ensures
        r matches Some(p) ==> (spec_dt_suffix(s@.skip(from as int)) matches Some(q) && q.0 == p.0
            as int && (p.1 matches Some(tz) ==> q.1 == Some(tz@) && tz.wf()) && (p.1 is None
            ==> q.1 is None)),
        r is None ==> spec_dt_suffix(s@.skip(from as int)) is None,
{
    let slen = s.len();
    let ghost tail = s@.skip(from as int);
    proof {
        assert(forall|j: int| 0 <= j < tail.len() ==> tail[j] == s@[from + j]);
    }
    if from == s.len() {
        return Some((0, None));
    }
    if s[from] == '.' {
        let plus = find_char(s, from + 1, '+');
        let minus = find_char(s, from + 1, '-');
        proof {
            lemma_find_char_shift(s@, from as int, from + 1, '+');
            lemma_find_char_shift(s@, from as int, from + 1, '-');
            assert(tail.last() == s@[s@.len() - 1]);
        }
        let mut zcase = false;
        let fend: usize = match (plus, minus) {
            (None, None) => {
                if slen - from > 1 && s[slen - 1] == 'Z' {
                    zcase = true;
                    slen - 1
                } else {
                    slen
                }
            },
            (Some(p), _) => p,
            (None, Some(q)) => q,
        };
        if !(from + 1 < fend && fend - from <= 7) {
            return None;
        }
        let frac = dec_val(s, from + 1, fend);
        let f = match frac {
            Some(f) => f,
            None => {
                proof {
                    assert(!spec_all_dec(tail, 1, fend - from)) by {
                        assert(exists|j: int|
                            from + 1 <= j < fend && !spec_is_digit(#[trigger] s@[j]));
                        let j = choose|j: int|
                            from + 1 <= j < fend && !spec_is_digit(#[trigger] s@[j]);
                        assert(tail[j - from] == s@[j]);
                    }
                }
                return None;
            },
        };
        proof {
            assert(spec_all_dec(tail, 1, fend - from)) by {
                assert forall|j: int| 1 <= j < fend - from implies spec_is_digit(
                    #[trigger] tail[j],
                ) by {
                    assert(tail[j] == s@[from + j]);
                }
            }
            lemma_dec_val_shift(s@, tail, from as int, from + 1, fend as int);
            lemma_dec_val_bound(s@, from + 1, fend as int);
            lemma_pow10_mul_bound(fend - (from + 1));
        }
        let micros = f * pow10_small(6 - (fend - from - 1));
        if fend == s.len() {
            Some((micros, None))
        } else if zcase {
            let tz = TomlTz::new("Z");
            proof {
                reveal_strlit("Z");
                assert("Z"@ =~= seq!['Z']);
            }
            match tz {
                Some(t) => Some((micros, Some(t))),
                None => {
                    proof {
                        assert(false);
                    }
                    None
                },
            }
        } else {
            let tzchars = crate::strutil::subvec(s, fend, slen);
            proof {
                assert(tzchars@ =~= tail.skip(fend - from));
            }
            let tzstr = crate::strutil::chars_string(&tzchars);
            match TomlTz::new(tzstr.as_str()) {
                Some(t) => Some((micros, Some(t))),
                None => None,
            }
        }
    } else {
        let one = from + 1 == s.len();
        let c0 = s[from];
        if one && (c0 == 'Z' || c0 == 'z') {
            let tz = TomlTz::new("Z");
            proof {
                reveal_strlit("Z");
                assert("Z"@ =~= seq!['Z']);
                assert(crate::tz::spec_tz_of(seq!['Z']) is Some);
            }
            match tz {
                Some(t) => Some((0, Some(t))),
                None => {
                    proof {
                        assert(false);
                    }
                    None
                },
            }
        } else {
            let tzchars = crate::strutil::subvec(s, from, s.len());
            proof {
                assert(tzchars@ =~= tail);
            }
            let tzstr = crate::strutil::chars_string(&tzchars);
            match TomlTz::new(tzstr.as_str()) {
                Some(t) => Some((0, Some(t))),
                None => None,
            }
        }
    }
}

proof fn lemma_find_char_shift(s: Seq<char>, base: int, from: int, c: char)
    requires
        0 <= base <= from <= s.len(),
    ensures
        spec_find_char(s, from, c) >= 0 ==> spec_find_char(s.skip(base), from - base, c)
            == spec_find_char(s, from, c) - base,
        spec_find_char(s, from, c) < 0 ==> spec_find_char(s.skip(base), from - base, c) < 0,
    decreases s.len() - from,
{
    assert(forall|j: int| 0 <= j < s.len() - base ==> s.skip(base)[j] == s[base + j]);
    if from < s.len() {
        if s[from] != c {
            lemma_find_char_shift(s, base, from + 1, c);
        }
    }
}

proof fn lemma_dec_val_shift(s: Seq<char>, tail: Seq<char>, base: int, from: int, to: int)
    requires
        0 <= base <= from <= to <= s.len(),
        tail == s.skip(base),
    ensures
        spec_dec_val(tail, from - base, to - base) == spec_dec_val(s, from, to),
    decreases to - from,
{
    if to > from {
        lemma_dec_val_shift(s, tail, base, from, to - 1);
        assert(tail[to - 1 - base] == s[to - 1]);
    }
}

} // verus!
