//! The numeric side of the value grammar: the strict-validity rules on
//! underscores and leading zeroes, and integer parsing in the literal's own
//! radix.

use vstd::prelude::*;
use crate::strutil::{spec_trim, trim};

verus! {

/// Whether the characters `a`, `b` occur adjacently, in that order, in `s`.
pub open spec fn spec_has_pair(s: Seq<char>, a: char, b: char) -> bool {
    exists|i: int| 0 <= i && i + 1 < s.len() && #[trigger] s[i] == a && s[i + 1] == b
}

/// Whether `a` then `b` occur adjacently in `s`.
pub fn has_pair(s: &Vec<char>, a: char, b: char) -> (r: bool)
    ensures
        r == spec_has_pair(s@, a, b),
{
    if s.len() < 2 {
        return false;
    }
    let mut i: usize = 0;
    while i < s.len() - 1
        invariant
            i <= s@.len() - 1,
            s@.len() >= 2,
            forall|j: int|
                0 <= j && j + 1 < s@.len() && j < i ==> !(#[trigger] s@[j] == a && s@[j + 1] == b),
        decreases s@.len() - i,
    {
        if s[i] == a && s[i + 1] == b {
            return true;
        }
        i += 1;
    }
    false
}

/// The strict validity of a numeric literal, independent of its value:
/// no leading or trailing underscore, no underscore adjacent to a decimal
/// point, no doubled underscore, and no leading zero except in `0.`, `0o`,
/// `0b`, `0x` (after an optional sign, only `0.` remains allowed).
pub open spec fn spec_strictly_valid_num(s: Seq<char>) -> bool {
    let t = spec_trim(s);
    if t.len() == 0 {
        false
    } else if t[0] == '_' {
        false
    } else if t.last() == '_' {
        false
    } else if spec_has_pair(t, '_', '.') || spec_has_pair(t, '.', '_') {
        false
    } else if t.len() == 1 {
        true
    } else if t[0] == '0' && t[1] != '.' && t[1] != 'o' && t[1] != 'b' && t[1] != 'x' {
        false
    } else {
        let u = if t[0] == '+' || t[0] == '-' {
            t.drop_first()
        } else {
            t
        };
        if (t[0] == '+' || t[0] == '-') && u.len() > 1 && u[0] == '0' && u[1] != '.' {
            false
        } else {
            !spec_has_pair(u, '_', '_')
        }
    }
}

/// Whether a numeric literal obeys the underscore and leading-zero
/// placement rules.
pub fn strictly_valid_num(n: &str) -> (r: bool)
    ensures
        r == spec_strictly_valid_num(n@),
{
    let chars = crate::strutil::str_chars(n);
    strictly_valid_num_chars(&chars)
}

/// `strictly_valid_num` on a character buffer.
pub fn strictly_valid_num_chars(n: &Vec<char>) -> (r: bool)
    ensures
        r == spec_strictly_valid_num(n@),
{
    let t = trim(n);
    if t.len() == 0 {
        return false;
    }
    if t[0] == '_' {
        return false;
    }
    if t[t.len() - 1] == '_' {
        proof {
            assert(t@.last() == t@[t@.len() - 1]);
        }
        return false;
    }
    if has_pair(&t, '_', '.') || has_pair(&t, '.', '_') {
        return false;
    }
    if t.len() == 1 {
        return true;
    }
    if t[0] == '0' && t[1] != '.' && t[1] != 'o' && t[1] != 'b' && t[1] != 'x' {
        return false;
    }
    let signed = t[0] == '+' || t[0] == '-';
    let u: Vec<char> = if signed {
        crate::strutil::subvec(&t, 1, t.len())
    } else {
        t
    };
    proof {
        if signed {
            assert(u@ =~= spec_trim(n@).drop_first());
        }
    }
    if signed && u.len() > 1 && u[0] == '0' && u[1] != '.' {
        return false;
    }
    !has_pair(&u, '_', '_')
}

/// The numeric value of one digit character for radices up to 16, or -1
/// when the character is no digit.
pub open spec fn spec_digit_val(c: char) -> int {
    if '0' <= c && c <= '9' {
        c as int - '0' as int
    } else if 'a' <= c && c <= 'f' {
        c as int - 'a' as int + 10
    } else if 'A' <= c && c <= 'F' {
        c as int - 'A' as int + 10
    } else {
        -1
    }
}

/// Whether every character of `s` is a digit of radix `radix`.
pub open spec fn spec_all_digits(s: Seq<char>, radix: int) -> bool {
    forall|i: int| 0 <= i < s.len() ==> 0 <= #[trigger] spec_digit_val(s[i]) < radix
}

/// The non-negative value of the digit string `s` read in radix `radix`.
pub open spec fn spec_num_val(s: Seq<char>, radix: int) -> int
    decreases s.len(),
{
    if s.len() == 0 {
        0
    } else {
        spec_num_val(s.drop_last(), radix) * radix + spec_digit_val(s.last())
    }
}

/// Reading more digits never shrinks the value.
proof fn lemma_num_val_monotone(s: Seq<char>, n: int, radix: int)
    requires
        2 <= radix <= 16,
        spec_all_digits(s, radix),
        0 <= n <= s.len(),
    ensures
        spec_num_val(s, radix) >= spec_num_val(s.subrange(0, n), radix),
        spec_num_val(s, radix) >= 0,
    decreases s.len(),
{
    if s.len() == 0 {
        assert(s.subrange(0, n) =~= s);
    } else {
        let prefix = s.drop_last();
        assert(spec_all_digits(prefix, radix)) by {
            assert(forall|i: int|
                0 <= i < prefix.len() ==> prefix[i] == s[i] && 0 <= #[trigger] spec_digit_val(
                    prefix[i],
                ) < radix);
        }
        lemma_num_val_monotone(prefix, if n <= prefix.len() {
            n
        } else {
            prefix.len() as int
        }, radix);
        assert(spec_num_val(prefix, radix) * radix >= spec_num_val(prefix, radix)) by (
        nonlinear_arith)
            requires
                spec_num_val(prefix, radix) >= 0,
                radix >= 1,
        ;
        assert(0 <= spec_digit_val(s.last()));
        if n == s.len() {
            assert(s.subrange(0, n) =~= s);
        } else {
            assert(s.subrange(0, n) =~= prefix.subrange(0, n));
        }
    }
}

/// The digit value of `c`, or -1.
pub fn digit_val(c: char) -> (r: i32)
    ensures
        r as int == spec_digit_val(c),
{
    if '0' <= c && c <= '9' {
        (c as u32 as i32) - ('0' as u32 as i32)
    } else if 'a' <= c && c <= 'f' {
        (c as u32 as i32) - ('a' as u32 as i32) + 10
    } else if 'A' <= c && c <= 'F' {
        (c as u32 as i32) - ('A' as u32 as i32) + 10
    } else {
        -1
    }
}

/// The signed value that the digit string denotes under `neg`.
pub open spec fn spec_signed_val(s: Seq<char>, radix: int, neg: bool) -> int {
    if neg {
        -spec_num_val(s, radix)
    } else {
        spec_num_val(s, radix)
    }
}

/// Whether the denoted value fits a 64-bit signed integer.
pub open spec fn spec_fits_i64(s: Seq<char>, radix: int, neg: bool) -> bool {
    i64::MIN <= spec_signed_val(s, radix, neg) <= i64::MAX
}

/// Reads the digit string `digits` in radix `radix` and applies the sign.
/// Nothing comes back when the string is empty, holds a character that is
/// no digit of the radix, or denotes a value outside the 64-bit signed
/// range.
pub fn parse_int_digits(digits: &Vec<char>, radix: u32, neg: bool) -> (r: Option<i64>)
    requires
        radix == 2 || radix == 8 || radix == 10 || radix == 16,
    ensures
        r matches Some(n) ==> digits@.len() > 0 && spec_all_digits(digits@, radix as int)
            && spec_fits_i64(digits@, radix as int, neg) && n as int == spec_signed_val(
            digits@,
            radix as int,
            neg,
        ),
        r is None ==> digits@.len() == 0 || !spec_all_digits(digits@, radix as int)
            || !spec_fits_i64(digits@, radix as int, neg),
{
    if digits.len() == 0 {
        return None;
    }
    let mut mag: u64 = 0;
    let mut i: usize = 0;
    while i < digits.len()
        invariant
            i <= digits@.len(),
            radix == 2 || radix == 8 || radix == 10 || radix == 16,
            spec_all_digits(digits@.subrange(0, i as int), radix as int),
            mag as int == spec_num_val(digits@.subrange(0, i as int), radix as int),
        decreases digits@.len() - i,
    {
        let d = digit_val(digits[i]);
        if d < 0 || d >= radix as i32 {
            return None;
        }
        let stepped = mag.checked_mul(radix as u64);
        let next = match stepped {
            Some(m) => m.checked_add(d as u64),
            None => None,
        };
        proof {
            let pre = digits@.subrange(0, i as int);
            let cur = digits@.subrange(0, i + 1);
            assert(cur.drop_last() =~= pre);
            assert(cur.last() == digits@[i as int]);
        }
        match next {
            Some(m) => {
                mag = m;
            },
            None => {
                // The prefix read so far already exceeds u64::MAX, so the
                // whole string exceeds the i64 range for either sign.
                proof {
                    let cur = digits@.subrange(0, i + 1);
                    if spec_all_digits(digits@, radix as int) {
                        lemma_num_val_monotone(digits@, i + 1, radix as int);
                        assert(digits@.subrange(0, i + 1) =~= cur);
                        assert(spec_num_val(digits@, radix as int) > u64::MAX as int);
                    }
                }
                return None;
            },
        }
        i += 1;
    }
    proof {
        assert(digits@.subrange(0, digits@.len() as int) =~= digits@);
    }
    if neg {
        if mag > 9223372036854775808u64 {
            return None;
        }
        if mag == 9223372036854775808u64 {
            return Some(i64::MIN);
        }
        Some(-(mag as i64))
    } else {
        if mag > 9223372036854775807u64 {
            return None;
        }
        Some(mag as i64)
    }
}

/// `s` with every underscore removed.
pub open spec fn spec_strip_underscores(s: Seq<char>) -> Seq<char> {
    s.filter(|c: char| c != '_')
}

/// Copy of `s` without its underscores.
pub fn strip_underscores(s: &Vec<char>) -> (r: Vec<char>)
    ensures
        r@ == spec_strip_underscores(s@),
{
    let mut r: Vec<char> = Vec::new();
    let mut i: usize = 0;
    proof {
        assert(s@.subrange(0, 0) =~= Seq::<char>::empty());
        assert(Seq::<char>::empty().filter(|c: char| c != '_') =~= Seq::<char>::empty());
    }
    while i < s.len()
        invariant
            i <= s@.len(),
            r@ == s@.subrange(0, i as int).filter(|c: char| c != '_'),
        decreases s@.len() - i,
    {
        let c = s[i];
        let ghost pre = s@.subrange(0, i as int);
        let ghost cur = s@.subrange(0, i + 1);
        if c != '_' {
            r.push(c);
        }
        proof {
            assert(cur =~= pre.push(c));
            pre.lemma_filter_push(c, |x: char| x != '_');
        }
        i += 1;
    }
    proof {
        assert(s@.subrange(0, s@.len() as int) =~= s@);
    }
    r
}

} // verus!
