//! The single decode-error taxonomy: a cause, the offending document, and a
//! character offset from which the 1-based line and column are derived.

use vstd::prelude::*;
use crate::strutil::{chars_string, str_chars, subvec};

verus! {

/// Number of newline characters in `doc` strictly before `end`.
pub open spec fn spec_count_nl(doc: Seq<char>, end: int) -> int
    decreases end,
{
    if end <= 0 {
        0
    } else if doc[end - 1] == '\n' {
        1 + spec_count_nl(doc, end - 1)
    } else {
        spec_count_nl(doc, end - 1)
    }
}

/// Index of the nearest newline strictly before `end`, or 0 when there is
/// none.
pub open spec fn spec_last_nl(doc: Seq<char>, end: int) -> int
    decreases end,
{
    if end <= 0 {
        0
    } else if doc[end - 1] == '\n' {
        end - 1
    } else {
        spec_last_nl(doc, end - 1)
    }
}

/// 1-based line number of offset `pos` in `doc`.
pub open spec fn spec_lineno(doc: Seq<char>, pos: int) -> int {
    spec_count_nl(doc, pos) + 1
}

/// Column of offset `pos` in `doc`: the offset minus the index of the
/// nearest preceding newline (0 when there is none).
pub open spec fn spec_colno(doc: Seq<char>, pos: int) -> int {
    pos - spec_last_nl(doc, pos)
}

/// The decimal digit character for `n` in 0..=9.
pub open spec fn spec_digit_char(n: int) -> char {
    if n == 0 { '0' }
    else if n == 1 { '1' }
    else if n == 2 { '2' }
    else if n == 3 { '3' }
    else if n == 4 { '4' }
    else if n == 5 { '5' }
    else if n == 6 { '6' }
    else if n == 7 { '7' }
    else if n == 8 { '8' }
    else { '9' }
}

/// Decimal rendering of a non-negative integer, most significant digit
/// first.
pub open spec fn spec_dec_digits(n: int) -> Seq<char>
    decreases n,
{
    if n < 10 {
        seq![spec_digit_char(n)]
    } else {
        spec_dec_digits(n / 10) + seq![spec_digit_char(n % 10)]
    }
}

fn digit_char(n: usize) -> (c: char)
    requires
        n < 10,
    ensures
        c == spec_digit_char(n as int),
{
    if n == 0 { '0' }
    else if n == 1 { '1' }
    else if n == 2 { '2' }
    else if n == 3 { '3' }
    else if n == 4 { '4' }
    else if n == 5 { '5' }
    else if n == 6 { '6' }
    else if n == 7 { '7' }
    else if n == 8 { '8' }
    else { '9' }
}

/// Decimal digits of `n`, most significant first.
pub fn dec_digits(n: usize) -> (r: Vec<char>)
    ensures
        r@ == spec_dec_digits(n as int),
    decreases n,
{
    if n < 10 {
        let mut r: Vec<char> = Vec::new();
        r.push(digit_char(n));
        proof {
            assert(r@ =~= spec_dec_digits(n as int));
        }
        r
    } else {
        let mut r = dec_digits(n / 10);
        r.push(digit_char(n % 10));
        proof {
            assert(r@ =~= spec_dec_digits(n as int));
        }
        r
    }
}

/// The cause of a decode failure; each variant corresponds to one failure
/// condition of the grammar or of the table builder.
#[derive(Debug, PartialEq)]
pub enum ErrKind {
    KeyWithoutValueLine,
    KeyWithoutValueFile,
    InvalidCharInKey(char),
    EmptyKeyname,
    UnbalancedQuotes,
    UnterminatedString,
    OpeningBracketAlone,
    KeyGroupNotOnLine,
    EmptyGroupName,
    InvalidGroupName(String),
    ImplicitArrayConflict,
    TableAlreadyExists(String),
    LineBreakInInlineObject,
    InvalidInlineTable,
    DuplicateKeys,
    InvalidDateOrNumber,
    EmptyValue,
    LowercaseBool,
    TokensAfterClosedString,
    ReservedEscape,
    InvalidUnicodeEscape,
    NonScalarUnicodeEscape,
    WeirdNumber,
    FloatMissingDigits,
    FloatNoLeadingDigit,
    InvalidTime,
    UnterminatedMultiline,
}

/// The human-readable message belonging to a cause.
pub open spec fn spec_kind_msg(k: ErrKind) -> Seq<char> {
    match k {
        ErrKind::KeyWithoutValueLine => "Key name found without value. Reached end of line."@,
        ErrKind::KeyWithoutValueFile => "Key name found without value. Reached end of file."@,
        ErrKind::InvalidCharInKey(c) => "Found invalid character in key name: '"@ + seq![c]
            + "'. Try quoting the key name."@,
        ErrKind::EmptyKeyname => "Found empty keyname."@,
        ErrKind::UnbalancedQuotes => "Unbalanced quotes"@,
        ErrKind::UnterminatedString => "Unterminated string found. Reached end of file."@,
        ErrKind::OpeningBracketAlone => "Opening key group bracket on line by itself."@,
        ErrKind::KeyGroupNotOnLine => "Key group not on a line by itself."@,
        ErrKind::EmptyGroupName => "Can't have a keygroup with an empty name"@,
        ErrKind::InvalidGroupName(g) => "Invalid group name '"@ + g@ + "'. Try quoting it."@,
        ErrKind::ImplicitArrayConflict => "An implicitly defined table can't be an array"@,
        ErrKind::TableAlreadyExists(g) => "What? "@ + g@ + " already exists?"@,
        ErrKind::LineBreakInInlineObject => "Line breaks are not allowed in inline objects"@,
        ErrKind::InvalidInlineTable => "Invalid inline table encountered"@,
        ErrKind::DuplicateKeys => "Duplicate keys!"@,
        ErrKind::InvalidDateOrNumber => "Invalid date or number"@,
        ErrKind::EmptyValue => "Empty value is invalid"@,
        ErrKind::LowercaseBool => "Only all lowercase booleans allowed"@,
        ErrKind::TokensAfterClosedString => "Found tokens after a closed string. Invalid TOML."@,
        ErrKind::ReservedEscape => "Reserved escape sequence used"@,
        ErrKind::InvalidUnicodeEscape => "Invalid escape sequence"@,
        ErrKind::NonScalarUnicodeEscape =>
            "Invalid escape sequence. Only scalar unicode points are allowed."@,
        ErrKind::WeirdNumber => "Weirdness with leading zeroes or underscores in your number."@,
        ErrKind::FloatMissingDigits => "This float is missing digits after the point"@,
        ErrKind::FloatNoLeadingDigit => "This float doesn't have a leading digit"@,
        ErrKind::InvalidTime => "Invalid time"@,
        ErrKind::UnterminatedMultiline => "Unterminated multiline value at end of file."@,
    }
}

/// Renders the message belonging to `k`.
pub fn kind_msg(k: &ErrKind) -> (r: String)
    ensures
        r@ == spec_kind_msg(*k),
{
    match k {
        ErrKind::KeyWithoutValueLine => {
            "Key name found without value. Reached end of line.".to_owned()
        },
        ErrKind::KeyWithoutValueFile => {
            "Key name found without value. Reached end of file.".to_owned()
        },
        ErrKind::InvalidCharInKey(c) => {
            let mut v = str_chars("Found invalid character in key name: '");
            v.push(*c);
            let tail = str_chars("'. Try quoting the key name.");
            let mut i: usize = 0;
            while i < tail.len()
                invariant
                    i <= tail@.len(),
                    v@ == "Found invalid character in key name: '"@ + seq![*c]
                        + tail@.subrange(0, i as int),
                decreases tail@.len() - i,
            {
                v.push(tail[i]);
                i += 1;
                proof {
                    assert(v@ =~= "Found invalid character in key name: '"@ + seq![*c]
                        + tail@.subrange(0, i as int));
                }
            }
            proof {
                assert(tail@.subrange(0, tail@.len() as int) =~= tail@);
            }
            chars_string(&v)
        },
        ErrKind::EmptyKeyname => "Found empty keyname.".to_owned(),
        ErrKind::UnbalancedQuotes => "Unbalanced quotes".to_owned(),
        ErrKind::UnterminatedString => "Unterminated string found. Reached end of file.".to_owned(),
        ErrKind::OpeningBracketAlone => "Opening key group bracket on line by itself.".to_owned(),
        ErrKind::KeyGroupNotOnLine => "Key group not on a line by itself.".to_owned(),
        ErrKind::EmptyGroupName => "Can't have a keygroup with an empty name".to_owned(),
        ErrKind::InvalidGroupName(g) => {
            let parts =
                concat3(&str_chars("Invalid group name '"), g, &str_chars("'. Try quoting it."));
            parts
        },
        ErrKind::ImplicitArrayConflict => {
            "An implicitly defined table can't be an array".to_owned()
        },
        ErrKind::TableAlreadyExists(g) => {
            let parts = concat3(&str_chars("What? "), g, &str_chars(" already exists?"));
            parts
        },
        ErrKind::LineBreakInInlineObject => {
            "Line breaks are not allowed in inline objects".to_owned()
        },
        ErrKind::InvalidInlineTable => "Invalid inline table encountered".to_owned(),
        ErrKind::DuplicateKeys => "Duplicate keys!".to_owned(),
        ErrKind::InvalidDateOrNumber => "Invalid date or number".to_owned(),
        ErrKind::EmptyValue => "Empty value is invalid".to_owned(),
        ErrKind::LowercaseBool => "Only all lowercase booleans allowed".to_owned(),
        ErrKind::TokensAfterClosedString => {
            "Found tokens after a closed string. Invalid TOML.".to_owned()
        },
        ErrKind::ReservedEscape => "Reserved escape sequence used".to_owned(),
        ErrKind::InvalidUnicodeEscape => "Invalid escape sequence".to_owned(),
        ErrKind::NonScalarUnicodeEscape => {
            "Invalid escape sequence. Only scalar unicode points are allowed.".to_owned()
        },
        ErrKind::WeirdNumber => {
            "Weirdness with leading zeroes or underscores in your number.".to_owned()
        },
        ErrKind::FloatMissingDigits => "This float is missing digits after the point".to_owned(),
        ErrKind::FloatNoLeadingDigit => "This float doesn't have a leading digit".to_owned(),
        ErrKind::InvalidTime => "Invalid time".to_owned(),
        ErrKind::UnterminatedMultiline => "Unterminated multiline value at end of file.".to_owned(),
    }
}

/// `prefix + middle + suffix` as one string.
fn concat3(prefix: &Vec<char>, middle: &String, suffix: &Vec<char>) -> (r: String)
    ensures
        r@ == prefix@ + middle@ + suffix@,
{
    let mid = str_chars(middle.as_str());
    let mut v: Vec<char> = Vec::new();
    let mut i: usize = 0;
    while i < prefix.len()
        invariant
            i <= prefix@.len(),
            mid@ == middle@,
            v@ == prefix@.subrange(0, i as int),
        decreases prefix@.len() - i,
    {
        v.push(prefix[i]);
        i += 1;
        proof {
            assert(v@ =~= prefix@.subrange(0, i as int));
        }
    }
    proof {
        assert(prefix@.subrange(0, prefix@.len() as int) =~= prefix@);
    }
    let mut i: usize = 0;
    while i < mid.len()
        invariant
            i <= mid@.len(),
            mid@ == middle@,
            v@ == prefix@ + mid@.subrange(0, i as int),
        decreases mid@.len() - i,
    {
        v.push(mid[i]);
        i += 1;
        proof {
            assert(v@ =~= prefix@ + mid@.subrange(0, i as int));
        }
    }
    proof {
        assert(mid@.subrange(0, mid@.len() as int) =~= mid@);
        assert(v@ == prefix@ + middle@);
    }
    let mut i: usize = 0;
    while i < suffix.len()
        invariant
            i <= suffix@.len(),
            v@ == prefix@ + middle@ + suffix@.subrange(0, i as int),
        decreases suffix@.len() - i,
    {
        v.push(suffix[i]);
        i += 1;
        proof {
            assert(v@ =~= prefix@ + middle@ + suffix@.subrange(0, i as int));
        }
    }
    proof {
        assert(suffix@.subrange(0, suffix@.len() as int) =~= suffix@);
    }
    chars_string(&v)
}

/// A located decode failure: the cause's message, the document it was found
/// in, and the 0-based character offset of the failure, with the derived
/// 1-based line and the column.
#[derive(Debug)]
pub struct TomlDecodeError {
    pub msg: String,
    pub doc: String,
    pub pos: usize,
    pub lineno: usize,
    pub colno: usize,
}

impl TomlDecodeError {
    /// Builds the error for message `msg` at offset `pos` of `doc`. The line
    /// is one more than the number of newlines before `pos`; the column is
    /// the distance from the nearest preceding newline (from the start of
    /// the document when there is none).
    pub fn new(msg: String, doc: String, pos: usize) -> (r: TomlDecodeError)
        requires
            pos <= doc@.len(),
        ensures
            r.msg@ == msg@,
            r.doc@ == doc@,
            r.pos == pos,
            r.lineno as int == spec_lineno(doc@, pos as int),
            r.colno as int == spec_colno(doc@, pos as int),
    {
        let chars = str_chars(doc.as_str());
        let mut nl_count: usize = 0;
        let mut last_nl: usize = 0;
        let mut i: usize = 0;
        while i < pos
            invariant
                i <= pos <= chars@.len(),
                chars@ == doc@,
                nl_count as int == spec_count_nl(doc@, i as int),
                last_nl as int == spec_last_nl(doc@, i as int),
                nl_count <= i,
                last_nl <= i,
            decreases pos - i,
        {
            if chars[i] == '\n' {
                nl_count += 1;
                last_nl = i;
            }
            i += 1;
        }
        TomlDecodeError { msg, doc, pos, lineno: nl_count + 1, colno: pos - last_nl }
    }

    /// The raw message, without the embedded location.
    pub fn msg(&self) -> (r: &String)
        ensures
            r@ == self.msg@,
    {
        &self.msg
    }

    /// The document the failure was found in.
    pub fn doc(&self) -> (r: &String)
        ensures
            r@ == self.doc@,
    {
        &self.doc
    }

    /// The 0-based character offset of the failure.
    pub fn pos(&self) -> (r: usize)
        ensures
            r == self.pos,
    {
        self.pos
    }

    /// The 1-based line of the failure.
    pub fn lineno(&self) -> (r: usize)
        ensures
            r == self.lineno,
    {
        self.lineno
    }

    /// The column of the failure on its line.
    pub fn colno(&self) -> (r: usize)
        ensures
            r == self.colno,
    {
        self.colno
    }

    /// Whether the stored location agrees with an independent count of the
    /// newlines, and of the column offset, up to the stored position.
    pub open spec fn located_in(&self, doc: Seq<char>) -> bool {
        &&& self.doc@ == doc
        &&& self.pos <= doc.len()
        &&& self.lineno as int == spec_lineno(doc, self.pos as int)
        &&& self.colno as int == spec_colno(doc, self.pos as int)
    }

    /// The message with the location embedded, as the decoder reports it.
    pub fn message(&self) -> (r: String)
        ensures
            r@ == self.msg@ + " (line "@ + spec_dec_digits(self.lineno as int) + " column "@
                + spec_dec_digits(self.colno as int) + " char "@
                + spec_dec_digits(self.pos as int) + ")"@,
    {
        let mut v = str_chars(self.msg.as_str());
        append_all(&mut v, &str_chars(" (line "));
        append_all(&mut v, &dec_digits(self.lineno));
        append_all(&mut v, &str_chars(" column "));
        append_all(&mut v, &dec_digits(self.colno));
        append_all(&mut v, &str_chars(" char "));
        append_all(&mut v, &dec_digits(self.pos));
        append_all(&mut v, &str_chars(")"));
        chars_string(&v)
    }
}

/// Appends all of `src` to `dst`.
pub fn append_all(dst: &mut Vec<char>, src: &Vec<char>)
    ensures
        final(dst)@ == old(dst)@ + src@,
{
    let mut i: usize = 0;
    while i < src.len()
        invariant
            i <= src@.len(),
            dst@ == old(dst)@ + src@.subrange(0, i as int),
        decreases src@.len() - i,
    {
        dst.push(src[i]);
        i += 1;
        proof {
            assert(dst@ =~= old(dst)@ + src@.subrange(0, i as int));
        }
    }
    proof {
        assert(src@.subrange(0, src@.len() as int) =~= src@);
    }
}

} // verus!
