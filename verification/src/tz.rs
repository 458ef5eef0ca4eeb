//! Fixed-offset time zone parsed from a literal such as `Z` or `+02:00`.

use vstd::prelude::*;
use crate::strutil::{chars_string, str_chars};

verus! {

/// Ghost form of a parsed offset.
pub struct SpecTz {
    pub raw: Seq<char>,
    pub sign: int,
    pub hours: int,
    pub minutes: int,
}

/// Whether `s` has the shape `+HH:MM` or `-HH:MM`.
pub open spec fn spec_tz_shape(s: Seq<char>) -> bool {
    &&& s.len() == 6
    &&& (s[0] == '+' || s[0] == '-')
    &&& '0' <= s[1] && s[1] <= '9'
    &&& '0' <= s[2] && s[2] <= '9'
    &&& s[3] == ':'
    &&& '0' <= s[4] && s[4] <= '9'
    &&& '0' <= s[5] && s[5] <= '9'
}

/// The literal an offset is stored as: `Z` reads as `+00:00`, anything else
/// as itself.
pub open spec fn spec_tz_raw(s: Seq<char>) -> Seq<char> {
    if s.len() == 1 && s[0] == 'Z' {
        seq!['+', '0', '0', ':', '0', '0']
    } else {
        s
    }
}

/// The value of a two-digit group at position `i` of `s`.
pub open spec fn spec_two_digits(s: Seq<char>, i: int) -> int {
    (s[i] as int - '0' as int) * 10 + (s[i + 1] as int - '0' as int)
}

/// The offset literal `s` parsed to (sign, hours, minutes), or nothing when
/// it is not `Z` and not of the shape `±HH:MM`.
pub open spec fn spec_tz_of(s: Seq<char>) -> Option<SpecTz> {
    let raw = spec_tz_raw(s);
    if spec_tz_shape(raw) {
        Some(
            SpecTz {
                raw,
                sign: if raw[0] == '-' { -1int } else { 1int },
                hours: spec_two_digits(raw, 1),
                minutes: spec_two_digits(raw, 4),
            },
        )
    } else {
        None
    }
}

/// A fixed offset from UTC, kept with the literal it was parsed from so it
/// can be rendered back unchanged.
#[derive(Debug, Clone, PartialEq)]
pub struct TomlTz {
    pub raw_offset: String,
    pub sign: i32,
    pub hours: i32,
    pub minutes: i32,
}

impl TomlTz {
    /// The fields agree with a parse of the stored literal.
    pub open spec fn wf(&self) -> bool {
        &&& spec_tz_shape(self.raw_offset@)
        &&& self.sign == (if self.raw_offset@[0] == '-' { -1int } else { 1int })
        &&& self.hours == spec_two_digits(self.raw_offset@, 1)
        &&& self.minutes == spec_two_digits(self.raw_offset@, 4)
    }

    /// Ghost form of this offset.
    pub open spec fn view(&self) -> SpecTz {
        SpecTz {
            raw: self.raw_offset@,
            sign: self.sign as int,
            hours: self.hours as int,
            minutes: self.minutes as int,
        }
    }

    /// Parses an offset literal: `Z` means `+00:00`; otherwise the literal
    /// must spell `±HH:MM`. Anything else is rejected.
    pub fn new(toml_offset: &str) -> (r: Option<TomlTz>)
        ensures
            r matches Some(tz) ==> tz.wf() && spec_tz_of(toml_offset@) == Some(tz@),
            r is None ==> spec_tz_of(toml_offset@) is None,
    {
        let s = str_chars(toml_offset);
        let raw: Vec<char> = if s.len() == 1 && s[0] == 'Z' {
            let z = str_chars("+00:00");
            proof {
                reveal_strlit("+00:00");
                assert(z@ =~= seq!['+', '0', '0', ':', '0', '0']);
            }
            z
        } else {
            s
        };
        proof {
            assert(raw@ == spec_tz_raw(toml_offset@));
        }
        if raw.len() != 6 {
            return None;
        }
        let c0 = raw[0];
        if c0 != '+' && c0 != '-' {
            return None;
        }
        if raw[3] != ':' {
            return None;
        }
        let d1 = raw[1];
        let d2 = raw[2];
        let d4 = raw[4];
        let d5 = raw[5];
        if !('0' <= d1 && d1 <= '9') || !('0' <= d2 && d2 <= '9') || !('0' <= d4 && d4 <= '9')
            || !('0' <= d5 && d5 <= '9') {
            return None;
        }
        let hours: i32 = (d1 as i32 - '0' as i32) * 10 + (d2 as i32 - '0' as i32);
        let minutes: i32 = (d4 as i32 - '0' as i32) * 10 + (d5 as i32 - '0' as i32);
        let sign: i32 = if c0 == '-' { -1 } else { 1 };
        Some(TomlTz { raw_offset: chars_string(&raw), sign, hours, minutes })
    }

    /// The stored literal, `+00:00` for an offset given as `Z`.
    pub fn get_raw_offset(&self) -> (r: &String)
        ensures
            r@ == self.raw_offset@,
    {
        &self.raw_offset
    }

    /// The literal this offset can be rebuilt from.
    pub fn get_init_args(&self) -> (r: String)
        ensures
            r@ == self.raw_offset@,
    {
        let v = str_chars(self.raw_offset.as_str());
        chars_string(&v)
    }

    /// An independent copy of this offset.
    pub fn deepcopy(&self) -> (r: TomlTz)
        ensures
            r@ == self@,
            r.wf() == self.wf(),
    {
        TomlTz {
            raw_offset: self.get_init_args(),
            sign: self.sign,
            hours: self.hours,
            minutes: self.minutes,
        }
    }

    /// The zone's display name: `UTC` followed by the literal.
    pub fn tzname(&self) -> (r: String)
        ensures
            r@ == "UTC"@ + self.raw_offset@,
    {
        let mut v = str_chars("UTC");
        let tail = str_chars(self.raw_offset.as_str());
        crate::error::append_all(&mut v, &tail);
        chars_string(&v)
    }

    /// The offset from UTC in seconds: the signed sum of the hour and
    /// minute parts.
    pub fn utc_offset_seconds(&self) -> (r: i64)
        requires
            self.wf(),
        ensures
            r == self@.sign * (self@.hours * 3600 + self@.minutes * 60),
    {
        proof {
            assert(0 <= spec_two_digits(self.raw_offset@, 1) <= 99);
            assert(0 <= spec_two_digits(self.raw_offset@, 4) <= 99);
        }
        let total: i64 = (self.hours as i64) * 3600 + (self.minutes as i64) * 60;
        proof {
            let t = self@.hours * 3600 + self@.minutes * 60;
            if self.sign < 0 {
                assert(self@.sign == -1);
                assert(self@.sign * t == -t) by (nonlinear_arith)
                    requires
                        self@.sign == -1,
                ;
            } else {
                assert(self@.sign == 1);
                assert(self@.sign * t == t) by (nonlinear_arith)
                    requires
                        self@.sign == 1,
                ;
            }
        }
        if self.sign < 0 {
            -total
        } else {
            total
        }
    }
}

} // verus!
