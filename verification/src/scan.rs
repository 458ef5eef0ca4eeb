//! The raw-text scanner: one left-to-right pass over the document that
//! validates key syntax, tracks quote, array and header state, blanks
//! comments and the newlines inside open arrays, normalizes the newline
//! before an adjacent closing triple quote, and collects the comment
//! records for the overlay.

use vstd::prelude::*;
use crate::error::ErrKind;
use crate::strutil::{
    char_alphanumeric, char_whitespace, chars_string, is_alphanumeric_ch, is_whitespace_ch,
    spec_trim_end, trim_end,
};

verus! {

/// One comment found by the scanner: the 1-based line it stood on, the
/// key most recently completed before it, its text, and whether it
/// occupied the line by itself.
pub struct CommentRecord {
    pub line: usize,
    pub key: String,
    pub text: String,
    pub beginline: bool,
}

/// Ghost form of a comment record.
pub struct SpecCommentRecord {
    pub line: int,
    pub key: Seq<char>,
    pub text: Seq<char>,
    pub beginline: bool,
}

impl View for CommentRecord {
    type V = SpecCommentRecord;

    open spec fn view(&self) -> SpecCommentRecord {
        SpecCommentRecord {
            line: self.line as int,
            key: self.key@,
            text: self.text@,
            beginline: self.beginline,
        }
    }
}

/// Ghost form of the scanner state.
#[verifier::ext_equal]
pub struct SpecScanState {
    pub openarr: int,
    pub openstring: bool,
    pub openstrchar: Option<char>,
    pub multilinestr: bool,
    pub arrayoftables: bool,
    pub beginline: bool,
    pub keygroup: bool,
    pub dottedkey: bool,
    pub keyname: int,
    pub key: Seq<char>,
    pub prev_key: Seq<char>,
    pub line_no: int,
    pub in_comment: bool,
    pub comment: Seq<char>,
    pub comment_line: int,
    pub comment_beginline: bool,
    pub pending: Option<(int, Seq<char>)>,
    pub records: Seq<SpecCommentRecord>,
}

/// The scanner state while walking the document.
pub struct ScanState {
    pub openarr: i128,
    pub openstring: bool,
    pub openstrchar: Option<char>,
    pub multilinestr: bool,
    pub arrayoftables: bool,
    pub beginline: bool,
    pub keygroup: bool,
    pub dottedkey: bool,
    pub keyname: u8,
    pub key: Vec<char>,
    pub prev_key: Vec<char>,
    pub line_no: usize,
    pub in_comment: bool,
    pub comment: Vec<char>,
    pub comment_line: usize,
    pub comment_beginline: bool,
    pub pending: Option<(usize, Vec<char>)>,
    pub records: Vec<CommentRecord>,
}

impl View for ScanState {
    type V = SpecScanState;

    open spec fn view(&self) -> SpecScanState {
        SpecScanState {
            openarr: self.openarr as int,
            openstring: self.openstring,
            openstrchar: self.openstrchar,
            multilinestr: self.multilinestr,
            arrayoftables: self.arrayoftables,
            beginline: self.beginline,
            keygroup: self.keygroup,
            dottedkey: self.dottedkey,
            keyname: self.keyname as int,
            key: self.key@,
            prev_key: self.prev_key@,
            line_no: self.line_no as int,
            in_comment: self.in_comment,
            comment: self.comment@,
            comment_line: self.comment_line as int,
            comment_beginline: self.comment_beginline,
            pending: match self.pending {
                Some((l, t)) => Some((l as int, t@)),
                None => None,
            },
            records: Seq::new(self.records@.len(), |i: int| self.records@[i]@),
        }
    }
}

/// The scanner's starting state.
pub open spec fn spec_scan_init() -> SpecScanState {
    SpecScanState {
        openarr: 0,
        openstring: false,
        openstrchar: None,
        multilinestr: false,
        arrayoftables: false,
        beginline: true,
        keygroup: false,
        dottedkey: false,
        keyname: 0,
        key: Seq::empty(),
        prev_key: Seq::empty(),
        line_no: 1,
        in_comment: false,
        comment: Seq::empty(),
        comment_line: 1,
        comment_beginline: true,
        pending: None,
        records: Seq::empty(),
    }
}

/// Number of consecutive `ch` immediately before position `i` of `buf`,
/// counting at most `cap` of them.
pub open spec fn spec_prev_run(buf: Seq<char>, i: int, ch: char, cap: int) -> int
    decreases cap,
{
    if cap <= 0 || i <= 0 || i > buf.len() || buf[i - 1] != ch {
        0
    } else {
        1 + spec_prev_run(buf, i - 1, ch, cap - 1)
    }
}

fn prev_run(buf: &Vec<char>, i: usize, ch: char, cap: usize) -> (r: usize)
    requires
        i <= buf@.len(),
    ensures
        r as int == spec_prev_run(buf@, i as int, ch, cap as int),
        r <= cap,
        r <= i,
    decreases cap,
{
    if cap == 0 || i == 0 {
        return 0;
    }
    if buf[i - 1] != ch {
        return 0;
    }
    let rest = prev_run(buf, i - 1, ch, cap - 1);
    rest + 1
}

/// The result of one scanner step: the new state, the buffer with this
/// step's rewrites, and the failure if the character is rejected.
pub struct SpecScanStep {
    pub st: SpecScanState,
    pub buf: Seq<char>,
    pub err: Option<(ErrKind, int)>,
}

/// One scanner step at position `i`. The order of the tests mirrors the
/// pass description: carriage-return blanking before a newline, comment
/// continuation, key-name scanning, quote toggling with backslash
/// parity, comment start, header and array brackets, and the
/// newline/line-start handling.
pub open spec fn spec_scan_step(st: SpecScanState, buf: Seq<char>, i: int) -> SpecScanStep
    recommends
        0 <= i < buf.len(),
{
    let c = buf[i];
    if st.in_comment {
        if c != '\n' {
            SpecScanStep {
                st: SpecScanState { comment: st.comment.push(c), ..st },
                buf: buf.update(i, ' '),
                err: None,
            }
        } else {
            let st1 = if st.openarr != 0 {
                SpecScanState { in_comment: false, ..st }
            } else if st.comment_beginline {
                SpecScanState {
                    in_comment: false,
                    pending: Some((st.comment_line, st.comment)),
                    ..st
                }
            } else {
                SpecScanState {
                    in_comment: false,
                    records: st.records.push(
                        SpecCommentRecord {
                            line: st.comment_line,
                            key: st.prev_key,
                            text: st.comment,
                            beginline: false,
                        },
                    ),
                    ..st
                }
            };
            spec_scan_newline(st1, buf, i)
        }
    } else if c == '\r' && i + 1 < buf.len() && buf[i + 1] == '\n' {
        SpecScanStep { st, buf: buf.update(i, ' '), err: None }
    } else if st.keyname != 0 {
        spec_scan_keyname(st, buf, i)
    } else {
        spec_scan_structural(st, buf, i)
    }
}

/// The key-name phase: the scanner is inside a key, before its `=`.
pub open spec fn spec_scan_keyname(st: SpecScanState, buf: Seq<char>, i: int) -> SpecScanStep
    recommends
        0 <= i < buf.len(),
{
    let c = buf[i];
    let st0 = SpecScanState { key: st.key.push(c), ..st };
    if c == '\n' {
        SpecScanStep { st: st0, buf, err: Some((ErrKind::KeyWithoutValueLine, i)) }
    } else if st0.openstring {
        if Some(c) == st0.openstrchar {
            let bs = spec_prev_run(buf, i, '\\', i);
            if bs % 2 == 0 {
                SpecScanStep {
                    st: SpecScanState {
                        keyname: 2,
                        openstring: false,
                        openstrchar: None,
                        ..st0
                    },
                    buf,
                    err: None,
                }
            } else {
                SpecScanStep { st: st0, buf, err: None }
            }
        } else {
            SpecScanStep { st: st0, buf, err: None }
        }
    } else if st0.keyname == 1 && char_whitespace(c) {
        SpecScanStep { st: SpecScanState { keyname: 2, ..st0 }, buf, err: None }
    } else if st0.keyname == 1 && c == '.' {
        SpecScanStep { st: SpecScanState { dottedkey: true, ..st0 }, buf, err: None }
    } else if st0.keyname == 1 && (char_alphanumeric(c) || c == '_' || c == '-') {
        SpecScanStep { st: st0, buf, err: None }
    } else if st0.keyname == 1 && st0.dottedkey && i >= 1 && buf[i - 1] == '.' && (c == '"' || c
        == '\'') {
        SpecScanStep {
            st: SpecScanState { openstring: true, openstrchar: Some(c), ..st0 },
            buf,
            err: None,
        }
    } else if st0.keyname == 2 && char_whitespace(c) {
        let back = if st0.dottedkey && i + 1 < buf.len() && !char_whitespace(buf[i + 1]) && buf[i
            + 1] != '.' {
            1int
        } else {
            2int
        };
        SpecScanStep { st: SpecScanState { keyname: back, ..st0 }, buf, err: None }
    } else if st0.keyname == 2 && c == '.' {
        let back = if i + 1 < buf.len() && !char_whitespace(buf[i + 1]) && buf[i + 1] != '.' {
            1int
        } else {
            2int
        };
        SpecScanStep {
            st: SpecScanState { dottedkey: true, keyname: back, ..st0 },
            buf,
            err: None,
        }
    } else if c == '=' {
        let newkey = spec_trim_end(st0.key.drop_last());
        let (recs, pend) = match st0.pending {
            Some((l, txt)) => (
                st0.records.push(
                    SpecCommentRecord {
                        line: st0.line_no,
                        key: newkey,
                        text: txt,
                        beginline: true,
                    },
                ),
                None,
            ),
            None => (st0.records, st0.pending),
        };
        SpecScanStep {
            st: SpecScanState {
                keyname: 0,
                prev_key: newkey,
                key: Seq::empty(),
                dottedkey: false,
                records: recs,
                pending: pend,
                ..st0
            },
            buf,
            err: None,
        }
    } else {
        SpecScanStep { st: st0, buf, err: Some((ErrKind::InvalidCharInKey(c), i)) }
    }
}

/// The quote-toggling phase: a quote character outside the other kind of
/// string toggles the open-string state; a run of three toggles the
/// multiline state; for double quotes an odd run of preceding backslashes
/// leaves the state unchanged.
pub open spec fn spec_scan_quotes(st: SpecScanState, buf: Seq<char>, i: int) -> SpecScanState
    recommends
        0 <= i < buf.len(),
{
    let c = buf[i];
    if c == '\'' && st.openstrchar != Some('"') {
        let run = spec_prev_run(buf, i, '\'', 2);
        let (ms, os) = if run == 2 {
            (!st.multilinestr, !st.multilinestr)
        } else {
            (st.multilinestr, !st.openstring)
        };
        SpecScanState {
            multilinestr: ms,
            openstring: os,
            openstrchar: if os {
                Some('\'')
            } else {
                None
            },
            ..st
        }
    } else if c == '"' && st.openstrchar != Some('\'') {
        let run = spec_prev_run(buf, i, '"', 2);
        let trip = run == 2;
        let bs = if run == 0 || trip {
            spec_prev_run(buf, i - run, '\\', i)
        } else {
            0
        };
        if bs % 2 == 0 {
            let (ms, os) = if trip {
                (!st.multilinestr, !st.multilinestr)
            } else {
                (st.multilinestr, !st.openstring)
            };
            SpecScanState {
                multilinestr: ms,
                openstring: os,
                openstrchar: if os {
                    Some('"')
                } else {
                    None
                },
                ..st
            }
        } else {
            SpecScanState {
                openstrchar: if st.openstring {
                    Some('"')
                } else {
                    None
                },
                ..st
            }
        }
    } else {
        st
    }
}

/// The bracket phase: a line-initial bracket opens a header (doubled, an
/// array-of-tables header), any other opening bracket deepens the array
/// nesting, and a closing bracket leaves whichever is open.
pub open spec fn spec_scan_brackets(st: SpecScanState, buf: Seq<char>, i: int) -> SpecScanState
    recommends
        0 <= i < buf.len(),
{
    let c = buf[i];
    if c == '[' && !st.openstring && !st.keygroup && !st.arrayoftables {
        if st.beginline {
            if i + 1 < buf.len() && buf[i + 1] == '[' {
                SpecScanState { arrayoftables: true, ..st }
            } else {
                SpecScanState { keygroup: true, ..st }
            }
        } else {
            SpecScanState { openarr: st.openarr + 1, ..st }
        }
    } else if c == ']' && !st.openstring {
        if st.keygroup {
            SpecScanState { keygroup: false, ..st }
        } else if st.arrayoftables {
            if i >= 1 && buf[i - 1] == ']' {
                SpecScanState { arrayoftables: false, ..st }
            } else {
                st
            }
        } else {
            SpecScanState { openarr: st.openarr - 1, ..st }
        }
    } else {
        st
    }
}

/// The structural phase: quote toggling, comments, brackets, newlines
/// and the start of a new key.
pub open spec fn spec_scan_structural(st: SpecScanState, buf: Seq<char>, i: int) -> SpecScanStep
    recommends
        0 <= i < buf.len(),
{
    let c = buf[i];
    let st1 = spec_scan_quotes(st, buf, i);
    if c == '#' && !st1.openstring && !st1.keygroup && !st1.arrayoftables {
        SpecScanStep {
            st: SpecScanState {
                in_comment: true,
                comment: seq!['#'],
                comment_line: st1.line_no,
                comment_beginline: st1.beginline,
                ..st1
            },
            buf: buf.update(i, ' '),
            err: None,
        }
    } else {
        let st2 = spec_scan_brackets(st1, buf, i);
        if c == '\n' {
            spec_scan_newline(st2, buf, i)
        } else if st2.beginline && c != ' ' && c != '\t' {
            let st3 = SpecScanState { beginline: false, ..st2 };
            if !st3.keygroup && !st3.arrayoftables {
                if c == '=' {
                    SpecScanStep { st: st3, buf, err: Some((ErrKind::EmptyKeyname, i)) }
                } else {
                    SpecScanStep {
                        st: SpecScanState { keyname: 1, key: st3.key.push(c), ..st3 },
                        buf,
                        err: None,
                    }
                }
            } else {
                SpecScanStep { st: st3, buf, err: None }
            }
        } else {
            SpecScanStep { st: st2, buf, err: None }
        }
    }
}

/// The newline handling: a newline inside a single-line string is an
/// error; inside a multiline string a closing quote pair just before it
/// pulls the closing run together; inside an open array it is blanked;
/// otherwise it starts a new line.
pub open spec fn spec_scan_newline(st: SpecScanState, buf: Seq<char>, i: int) -> SpecScanStep
    recommends
        0 <= i < buf.len(),
{
    let st9 = SpecScanState { line_no: st.line_no + 1, ..st };
    if st.openstring || st.multilinestr {
        if !st.multilinestr {
            SpecScanStep { st, buf, err: Some((ErrKind::UnbalancedQuotes, i)) }
        } else {
            if i >= 2 && (buf[i - 1] == '\'' || buf[i - 1] == '"') && buf[i - 2] == buf[i - 1] {
                let buf1 = buf.update(i, buf[i - 1]);
                let buf2 = if i >= 3 && buf[i - 3] == buf[i - 1] {
                    buf1.update(i - 3, ' ')
                } else {
                    buf1
                };
                SpecScanStep { st: st9, buf: buf2, err: None }
            } else {
                SpecScanStep { st: st9, buf, err: None }
            }
        }
    } else if st.openarr > 0 {
        SpecScanStep { st: st9, buf: buf.update(i, ' '), err: None }
    } else {
        SpecScanStep { st: SpecScanState { beginline: true, ..st9 }, buf, err: None }
    }
}

/// The scanner folded over the document from position `i` on.
pub open spec fn spec_scan_from(st: SpecScanState, buf: Seq<char>, i: int) -> (
    SpecScanState,
    Seq<char>,
    Option<(ErrKind, int)>,
)
    decreases buf.len() - i,
{
    if i < 0 || i >= buf.len() {
        (st, buf, None)
    } else {
        let step = spec_scan_step(st, buf, i);
        if step.err is Some {
            (step.st, step.buf, step.err)
        } else {
            spec_scan_from(step.st, step.buf, i + 1)
        }
    }
}

/// The scan of a whole document, with the end-of-document steps: a
/// trailing comment that the text does not close with a newline is
/// committed (a comment on its own final line annotates no following
/// key and is dropped), and an unfinished key or an open string at the
/// end of the text is an error.
pub open spec fn spec_scan(s: Seq<char>) -> (SpecScanState, Seq<char>, Option<(ErrKind, int)>) {
    let (st0, buf, err) = spec_scan_from(spec_scan_init(), s, 0);
    let st = if err is None && st0.in_comment && st0.openarr == 0 && !st0.comment_beginline {
        SpecScanState {
            records: st0.records.push(
                SpecCommentRecord {
                    line: st0.comment_line,
                    key: st0.prev_key,
                    text: st0.comment,
                    beginline: false,
                },
            ),
            ..st0
        }
    } else {
        st0
    };
    if err is Some {
        (st, buf, err)
    } else if st.keyname != 0 {
        (st, buf, Some((ErrKind::KeyWithoutValueFile, s.len() as int)))
    } else if st.openstring {
        (st, buf, Some((ErrKind::UnterminatedString, s.len() as int)))
    } else {
        (st, buf, None)
    }
}

/// Runs one scanner step on the live state and buffer.
fn scan_step(st: &mut ScanState, buf: &mut Vec<char>, i: usize) -> (r: Option<(ErrKind, usize)>)
    requires
        i < old(buf)@.len(),
        old(buf)@.len() < usize::MAX,
        old(st).line_no < usize::MAX,
        old(st).key@.len() <= old(buf)@.len(),
        old(st).comment@.len() <= old(buf)@.len(),
        -(old(buf)@.len() as int) <= old(st).openarr as int <= old(buf)@.len() as int,
    ensures
        ({
            let step = spec_scan_step(old(st)@, old(buf)@, i as int);
            &&& final(st)@ == step.st
            &&& final(buf)@ == step.buf
            &&& (r matches Some(p) ==> step.err == Some((p.0, p.1 as int)) && p.1 == i)
            &&& (r is None ==> step.err is None)
            &&& final(buf)@.len() == old(buf)@.len()
            &&& final(st).key@.len() <= old(st).key@.len() + 1
            &&& final(st).comment@.len() <= old(st).comment@.len() + 1
            &&& final(st).line_no <= old(st).line_no + 1
            &&& (old(st).openarr - 1 <= final(st).openarr <= old(st).openarr + 1)
        }),
{
    let c = buf[i];
    if st.in_comment {
        if c != '\n' {
            st.comment.push(c);
            buf[i] = ' ';
            proof {
                assert(st@ =~= SpecScanState {
                    comment: old(st)@.comment.push(c),
                    ..old(st)@
                });
                assert(buf@ =~= old(buf)@.update(i as int, ' '));
            }
            return None;
        }
        if st.openarr == 0 {
            if st.comment_beginline {
                let txt = crate::strutil::subvec(&st.comment, 0, st.comment.len());
                proof {
                    assert(txt@ =~= st@.comment);
                }
                st.pending = Some((st.comment_line, txt));
            } else {
                let rec = CommentRecord {
                    line: st.comment_line,
                    key: chars_string(&st.prev_key),
                    text: chars_string(&st.comment),
                    beginline: false,
                };
                let ghost grecords = st@.records;
                st.records.push(rec);
                proof {
                    assert(st@.records =~= grecords.push(
                        SpecCommentRecord {
                            line: old(st)@.comment_line,
                            key: old(st)@.prev_key,
                            text: old(st)@.comment,
                            beginline: false,
                        },
                    ));
                }
            }
        }
        st.in_comment = false;
        let r = scan_newline(st, buf, i);
        return r;
    }
    if c == '\r' && i + 1 < buf.len() && buf[i + 1] == '\n' {
        buf[i] = ' ';
        proof {
            assert(buf@ =~= old(buf)@.update(i as int, ' '));
        }
        return None;
    }
    if st.keyname != 0 {
        return scan_keyname(st, buf, i);
    }
    scan_structural(st, buf, i)
}

/// Runs the key-name phase for the character at `i`.
#[verifier::rlimit(60)]
fn scan_keyname(st: &mut ScanState, buf: &Vec<char>, i: usize) -> (r: Option<(ErrKind, usize)>)
    requires
        i < buf@.len(),
        buf@.len() < usize::MAX,
        old(st).keyname != 0,
        !old(st).in_comment,
        old(st).key@.len() <= buf@.len(),
    ensures
        ({
            let step = spec_scan_keyname(old(st)@, buf@, i as int);
            &&& final(st)@ == step.st
            &&& step.buf == buf@
            &&& (r matches Some(p) ==> step.err == Some((p.0, p.1 as int)) && p.1 == i)
            &&& (r is None ==> step.err is None)
            &&& final(st).key@.len() <= old(st).key@.len() + 1
            &&& final(st).comment@.len() == old(st).comment@.len()
            &&& final(st).line_no == old(st).line_no
            &&& final(st).openarr == old(st).openarr
        }),
{
    let c = buf[i];
    st.key.push(c);
    if c == '\n' {
        return Some((ErrKind::KeyWithoutValueLine, i));
    }
    if st.openstring {
        if Some(c) == st.openstrchar {
            let bs = prev_run(buf, i, '\\', i);
            if bs % 2 == 0 {
                st.keyname = 2;
                st.openstring = false;
                st.openstrchar = None;
            }
        }
        return None;
    }
    if st.keyname == 1 {
        if is_whitespace_ch(c) {
            st.keyname = 2;
            return None;
        }
        if c == '.' {
            st.dottedkey = true;
            return None;
        }
        if is_alphanumeric_ch(c) || c == '_' || c == '-' {
            return None;
        }
        if st.dottedkey && i >= 1 && buf[i - 1] == '.' && (c == '"' || c == '\'') {
            st.openstring = true;
            st.openstrchar = Some(c);
            return None;
        }
    }
    if st.keyname == 2 {
        if is_whitespace_ch(c) {
            if st.dottedkey && i + 1 < buf.len() && !is_whitespace_ch(buf[i + 1]) && buf[i + 1]
                != '.' {
                st.keyname = 1;
            }
            return None;
        }
        if c == '.' {
            st.dottedkey = true;
            if i + 1 < buf.len() && !is_whitespace_ch(buf[i + 1]) && buf[i + 1] != '.' {
                st.keyname = 1;
            }
            return None;
        }
    }
    if c == '=' {
        let whole = st.key.len();
        let shorter = crate::strutil::subvec(&st.key, 0, whole - 1);
        proof {
            assert(shorter@ =~= st@.key.drop_last());
        }
        st.prev_key = trim_end(&shorter);
        let pend = st.pending.take();
        match pend {
            Some((l, txt)) => {
                let ghost grecords = st@.records;
                let rec = CommentRecord {
                    line: st.line_no,
                    key: chars_string(&st.prev_key),
                    text: chars_string(&txt),
                    beginline: true,
                };
                st.records.push(rec);
                proof {
                    assert(st@.records =~= grecords.push(
                        SpecCommentRecord {
                            line: st@.line_no,
                            key: st@.prev_key,
                            text: txt@,
                            beginline: true,
                        },
                    ));
                }
            },
            None => {},
        }
        st.key = Vec::new();
        st.keyname = 0;
        st.dottedkey = false;
        proof {
            assert(st@.key =~= Seq::<char>::empty());
            crate::strutil::lemma_last_non_ws_end_bounds(shorter@);
        }
        return None;
    }
    Some((ErrKind::InvalidCharInKey(c), i))
}

/// Runs the quote-toggling phase for the character at `i`.
fn scan_quotes(st: &mut ScanState, buf: &Vec<char>, i: usize)
    requires
        i < buf@.len(),
    ensures
        final(st)@ == spec_scan_quotes(old(st)@, buf@, i as int),
        final(st).key == old(st).key,
        final(st).comment == old(st).comment,
        final(st).line_no == old(st).line_no,
        final(st).openarr == old(st).openarr,
        final(st).in_comment == old(st).in_comment,
        final(st).keyname == old(st).keyname,
        final(st).records == old(st).records,
{
    let c = buf[i];
    if c == '\'' && st.openstrchar != Some('"') {
        let run = prev_run(buf, i, '\'', 2);
        if run == 2 {
            st.multilinestr = !st.multilinestr;
            st.openstring = st.multilinestr;
        } else {
            st.openstring = !st.openstring;
        }
        st.openstrchar = if st.openstring {
            Some('\'')
        } else {
            None
        };
    } else if c == '"' && st.openstrchar != Some('\'') {
        let run = prev_run(buf, i, '"', 2);
        let trip = run == 2;
        let bs: usize = if run == 0 || trip {
            prev_run(buf, i - run, '\\', i)
        } else {
            0
        };
        if bs % 2 == 0 {
            if trip {
                st.multilinestr = !st.multilinestr;
                st.openstring = st.multilinestr;
            } else {
                st.openstring = !st.openstring;
            }
            st.openstrchar = if st.openstring {
                Some('"')
            } else {
                None
            };
        } else {
            st.openstrchar = if st.openstring {
                Some('"')
            } else {
                None
            };
        }
    }
}

/// Runs the bracket phase for the character at `i`.
fn scan_brackets(st: &mut ScanState, buf: &Vec<char>, i: usize)
    requires
        i < buf@.len(),
        buf@.len() < usize::MAX,
        -(buf@.len() as int) <= old(st).openarr as int <= buf@.len() as int,
    ensures
        final(st)@ == spec_scan_brackets(old(st)@, buf@, i as int),
        final(st).key == old(st).key,
        final(st).comment == old(st).comment,
        final(st).line_no == old(st).line_no,
        (old(st).openarr - 1 <= final(st).openarr <= old(st).openarr + 1),
        final(st).in_comment == old(st).in_comment,
        final(st).keyname == old(st).keyname,
        final(st).records == old(st).records,
{
    let c = buf[i];
    if c == '[' && !st.openstring && !st.keygroup && !st.arrayoftables {
        if st.beginline {
            if i + 1 < buf.len() && buf[i + 1] == '[' {
                st.arrayoftables = true;
            } else {
                st.keygroup = true;
            }
        } else {
            st.openarr = st.openarr + 1;
        }
    } else if c == ']' && !st.openstring {
        if st.keygroup {
            st.keygroup = false;
        } else if st.arrayoftables {
            if i >= 1 && buf[i - 1] == ']' {
                st.arrayoftables = false;
            }
        } else {
            st.openarr = st.openarr - 1;
        }
    }
}

/// Runs the structural phase for the character at `i`.
#[verifier::rlimit(60)]
fn scan_structural(st: &mut ScanState, buf: &mut Vec<char>, i: usize) -> (r: Option<(
    ErrKind,
    usize,
)>)
    requires
        i < old(buf)@.len(),
        old(buf)@.len() < usize::MAX,
        old(st).keyname == 0,
        !old(st).in_comment,
        old(st).line_no < usize::MAX,
        -(old(buf)@.len() as int) <= old(st).openarr as int <= old(buf)@.len() as int,
    ensures
        ({
            let step = spec_scan_structural(old(st)@, old(buf)@, i as int);
            &&& final(st)@ == step.st
            &&& final(buf)@ == step.buf
            &&& (r matches Some(p) ==> step.err == Some((p.0, p.1 as int)) && p.1 == i)
            &&& (r is None ==> step.err is None)
            &&& final(buf)@.len() == old(buf)@.len()
            &&& final(st).key@.len() <= old(st).key@.len() + 1
            &&& final(st).comment@.len() <= old(st).comment@.len() + 1
            &&& final(st).line_no <= old(st).line_no + 1
            &&& (old(st).openarr - 1 <= final(st).openarr <= old(st).openarr + 1)
        }),
{
    let c = buf[i];
    scan_quotes(st, buf, i);
    if c == '#' && !st.openstring && !st.keygroup && !st.arrayoftables {
        st.in_comment = true;
        let mut cm: Vec<char> = Vec::new();
        cm.push('#');
        st.comment = cm;
        st.comment_line = st.line_no;
        st.comment_beginline = st.beginline;
        buf[i] = ' ';
        proof {
            assert(st@.comment =~= seq!['#']);
            assert(buf@ =~= old(buf)@.update(i as int, ' '));
            assert(st@ =~= spec_scan_structural(old(st)@, old(buf)@, i as int).st);
        }
        return None;
    }
    scan_brackets(st, buf, i);
    if c == '\n' {
        let r = scan_newline(st, buf, i);
        return r;
    }
    if st.beginline && c != ' ' && c != '\t' {
        st.beginline = false;
        if !st.keygroup && !st.arrayoftables {
            if c == '=' {
                return Some((ErrKind::EmptyKeyname, i));
            }
            st.keyname = 1;
            st.key.push(c);
        }
    }
    None
}

/// Runs the newline handling for the character at `i`.
fn scan_newline(st: &mut ScanState, buf: &mut Vec<char>, i: usize) -> (r: Option<(ErrKind, usize)>)
    requires
        i < old(buf)@.len(),
        old(st).line_no < usize::MAX,
    ensures
        ({
            let step = spec_scan_newline(old(st)@, old(buf)@, i as int);
            &&& final(st)@ == step.st
            &&& final(buf)@ == step.buf
            &&& (r matches Some(p) ==> step.err == Some((p.0, p.1 as int)) && p.1 == i)
            &&& (r is None ==> step.err is None)
            &&& final(buf)@.len() == old(buf)@.len()
            &&& final(st).key@.len() == old(st).key@.len()
            &&& final(st).comment@.len() == old(st).comment@.len()
            &&& final(st).line_no <= old(st).line_no + 1
            &&& final(st).openarr == old(st).openarr
        }),
{
    if st.openstring || st.multilinestr {
        if !st.multilinestr {
            return Some((ErrKind::UnbalancedQuotes, i));
        }
        if i >= 2 && (buf[i - 1] == '\'' || buf[i - 1] == '"') && buf[i - 2] == buf[i - 1] {
            let q = buf[i - 1];
            buf[i] = q;
            let ghost buf1 = buf@;
            if i >= 3 && buf[i - 3] == q {
                buf[i - 3] = ' ';
                proof {
                    assert(buf@ =~= buf1.update(i - 3, ' '));
                }
            }
            proof {
                assert(buf1 =~= old(buf)@.update(i as int, old(buf)@[i - 1]));
            }
        }
        st.line_no = st.line_no + 1;
        return None;
    }
    if st.openarr > 0 {
        buf[i] = ' ';
        proof {
            assert(buf@ =~= old(buf)@.update(i as int, ' '));
        }
        st.line_no = st.line_no + 1;
        return None;
    }
    st.beginline = true;
    st.line_no = st.line_no + 1;
    None
}

/// Scans the whole document: validates key syntax, blanks comments and
/// the structurally irrelevant newlines, and collects the comment
/// records. On failure the offending character's offset comes back with
/// the cause.
pub fn scan(input: Vec<char>) -> (r: Result<(Vec<char>, Vec<CommentRecord>), (ErrKind, usize)>)
    requires
        input@.len() < usize::MAX,
    ensures
        ({
            let (sst, sbuf, serr) = spec_scan(input@);
            &&& (r matches Ok(p) ==> serr is None && p.0@ == sbuf && p.1@.len() == sst.records.len()
                && (forall|k: int|
                0 <= k < p.1@.len() ==> (#[trigger] p.1@[k])@ == sst.records[k]) && p.0@.len()
                == input@.len())
            &&& (r matches Err(e) ==> serr == Some((e.0, e.1 as int)) && e.1 <= input@.len())
        }),
{
    let n = input.len();
    let mut buf = input;
    let ghost orig = buf@;
    let mut st = ScanState {
        openarr: 0,
        openstring: false,
        openstrchar: None,
        multilinestr: false,
        arrayoftables: false,
        beginline: true,
        keygroup: false,
        dottedkey: false,
        keyname: 0,
        key: Vec::new(),
        prev_key: Vec::new(),
        line_no: 1,
        in_comment: false,
        comment: Vec::new(),
        comment_line: 1,
        comment_beginline: true,
        pending: None,
        records: Vec::new(),
    };
    proof {
        assert(st@ =~= spec_scan_init());
    }
    let mut i: usize = 0;
    while i < n
        invariant
            0 <= i <= n == buf@.len(),
            n < usize::MAX,
            spec_scan_from(spec_scan_init(), orig, 0) == spec_scan_from(st@, buf@, i as int),
            orig == input@,
            n == input@.len(),
            st.key@.len() <= i,
            st.comment@.len() <= i + 1,
            st.line_no <= i + 1,
            -(i as int) <= st.openarr as int <= i as int,
        decreases n - i,
    {
        let ghost pst = st@;
        let ghost pbuf = buf@;
        let r = scan_step(&mut st, &mut buf, i);
        match r {
            Some(e) => {
                proof {
                    assert(spec_scan_from(pst, pbuf, i as int) == (
                        st@,
                        buf@,
                        Some((e.0, e.1 as int)),
                    ));
                    assert(spec_scan_from(spec_scan_init(), input@, 0) == (
                        st@,
                        buf@,
                        Some((e.0, e.1 as int)),
                    ));
                    assert(spec_scan(input@).2 == Some((e.0, e.1 as int)));
                }
                return Err(e);
            },
            None => {},
        }
        i += 1;
    }
    if st.in_comment && st.openarr == 0 && !st.comment_beginline {
        let rec = CommentRecord {
            line: st.comment_line,
            key: chars_string(&st.prev_key),
            text: chars_string(&st.comment),
            beginline: false,
        };
        let ghost grecords = st@.records;
        st.records.push(rec);
        proof {
            assert(st@.records =~= grecords.push(
                SpecCommentRecord {
                    line: st.comment_line as int,
                    key: st.prev_key@,
                    text: st.comment@,
                    beginline: false,
                },
            ));
        }
    }
    if st.keyname != 0 {
        return Err((ErrKind::KeyWithoutValueFile, n));
    }
    if st.openstring {
        return Err((ErrKind::UnterminatedString, n));
    }
    Ok((buf, st.records))
}

} // verus!
