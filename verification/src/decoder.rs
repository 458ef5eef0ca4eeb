//! The decoder objects and the decode entry point: the line-oriented
//! table builder that turns the scanner's masked text into the nested
//! result table, with the optional comment-preserving overlay.

use vstd::prelude::*;
use crate::error::{kind_msg, spec_kind_msg, ErrKind, TomlDecodeError};
use crate::escape::spec_trailing_backslashes;
use crate::grammar::{load_value_chars, spec_load_value};
use crate::key::{insert_dotted, key_segments, spec_insert_dotted, spec_key_segments};
use crate::scan::{scan, spec_scan, CommentRecord, SpecCommentRecord};
use crate::split::{find_unquoted_eq, spec_find_eq, spec_quote_step};
use crate::strutil::{chars_string, spec_trim, str_chars, subvec, trim};
use crate::tree::{
    ensure_path, lemma_ensure_path_valid, put_back, spec_ensure, spec_path_to_table, spec_put,
};
use crate::value::{
    lemma_view_table_shape, mk_table_value, spec_get, spec_has_key, spec_set, spec_views_of,
    value_view, CommentValue, SpecCommentValue, SpecTable, SpecValue, Table, Value,
};

verus! {

/// The lines of `s[i..]`, split on every newline.
pub open spec fn spec_split_nl_rec(
    s: Seq<char>,
    i: int,
    cur: Seq<char>,
    acc: Seq<Seq<char>>,
) -> Seq<Seq<char>>
    decreases s.len() - i,
{
    if i < 0 || i >= s.len() {
        acc.push(cur)
    } else if s[i] == '\n' {
        spec_split_nl_rec(s, i + 1, Seq::empty(), acc.push(cur))
    } else {
        spec_split_nl_rec(s, i + 1, cur.push(s[i]), acc)
    }
}

/// The lines of `s`.
pub open spec fn spec_split_nl(s: Seq<char>) -> Seq<Seq<char>> {
    spec_split_nl_rec(s, 0, Seq::empty(), Seq::empty())
}

/// Splits the masked buffer into its lines.
pub fn split_newlines(s: &Vec<char>) -> (r: Vec<Vec<char>>)
    ensures
        r@.len() == spec_split_nl(s@).len(),
        forall|k: int| 0 <= k < r@.len() ==> (#[trigger] r@[k])@ == spec_split_nl(s@)[k],
        r@.len() > 0,
{
    let slen = s.len();
    let mut i: usize = 0;
    let mut cur: Vec<char> = Vec::new();
    let mut acc: Vec<Vec<char>> = Vec::new();
    let ghost mut gacc: Seq<Seq<char>> = Seq::empty();
    proof {
        assert(cur@ =~= Seq::<char>::empty());
    }
    while i < slen
        invariant
            0 <= i <= slen == s@.len(),
            spec_split_nl(s@) == spec_split_nl_rec(s@, i as int, cur@, gacc),
            gacc.len() == acc@.len(),
            forall|k: int| 0 <= k < acc@.len() ==> (#[trigger] acc@[k])@ == gacc[k],
        decreases slen - i,
    {
        let c = s[i];
        if c == '\n' {
            let done = cur;
            cur = Vec::new();
            proof {
                gacc = gacc.push(done@);
            }
            acc.push(done);
            proof {
                assert(cur@ =~= Seq::<char>::empty());
            }
        } else {
            cur.push(c);
        }
        i += 1;
    }
    proof {
        gacc = gacc.push(cur@);
    }
    acc.push(cur);
    acc
}

/// A character an unquoted header group name may hold.
pub open spec fn spec_groupchar(c: char) -> bool {
    ('A' <= c && c <= 'Z') || ('a' <= c && c <= 'z') || ('0' <= c && c <= '9') || c == '_' || c
        == '-'
}

/// A rejected header line, with what was wrong about it.
pub enum SpecHeaderParseFail {
    BracketAlone,
    NotOnLine,
    EmptyGroup,
    InvalidGroup(Seq<char>),
}

/// Whether the concrete error kind renders the ghost parse failure.
pub open spec fn spec_matches_parse_fail(e: ErrKind, h: SpecHeaderParseFail) -> bool {
    match h {
        SpecHeaderParseFail::BracketAlone => e matches ErrKind::OpeningBracketAlone,
        SpecHeaderParseFail::NotOnLine => e matches ErrKind::KeyGroupNotOnLine,
        SpecHeaderParseFail::EmptyGroup => e matches ErrKind::EmptyGroupName,
        SpecHeaderParseFail::InvalidGroup(g) => e matches ErrKind::InvalidGroupName(s) && s@ == g,
    }
}

/// One normalized header group: trimmed, a quoted group unquoted, an
/// unquoted one accepted only when every character is a letter, digit,
/// underscore or dash.
pub open spec fn spec_norm_group(piece: Seq<char>) -> Result<Seq<char>, SpecHeaderParseFail> {
    let t = spec_trim(piece);
    if t.len() == 0 {
        Err(SpecHeaderParseFail::EmptyGroup)
    } else if t.len() >= 2 && (t[0] == '"' || t[0] == '\'') && t.last() == t[0] {
        Ok(t.subrange(1, t.len() - 1))
    } else if forall|j: int| 0 <= j < t.len() ==> spec_groupchar(#[trigger] t[j]) {
        Ok(t)
    } else {
        Err(SpecHeaderParseFail::InvalidGroup(t))
    }
}

/// First position at or after `i` where an unquoted closing bracket
/// stands (`]]` when `aot`), or -1.
pub open spec fn spec_find_close(s: Seq<char>, i: int, q: Option<char>, aot: bool) -> int
    decreases s.len() - i,
{
    if i < 0 || i >= s.len() {
        -1
    } else if q is None && s[i] == ']' && (!aot || (i + 1 < s.len() && s[i + 1] == ']')) {
        i
    } else {
        spec_find_close(s, i + 1, spec_quote_step(q, s[i]), aot)
    }
}

/// The normalized groups of the dot-split pieces from `idx` on, or the
/// first group's failure.
pub open spec fn spec_norm_groups(pieces: Seq<Seq<char>>, idx: int) -> Result<
    Seq<Seq<char>>,
    SpecHeaderParseFail,
>
    decreases pieces.len() - idx,
{
    if idx < 0 || idx >= pieces.len() {
        Ok(Seq::empty())
    } else {
        match spec_norm_group(pieces[idx]) {
            Err(h) => Err(h),
            Ok(g) => match spec_norm_groups(pieces, idx + 1) {
                Err(h) => Err(h),
                Ok(rest) => Ok(seq![g] + rest),
            },
        }
    }
}

/// A parsed header line: whether it is an array-of-tables header, and
/// its normalized group path; a rejected line comes back with the first
/// thing wrong about it.
pub open spec fn spec_parse_header(line: Seq<char>) -> Result<
    (bool, Seq<Seq<char>>),
    SpecHeaderParseFail,
> {
    if line.len() <= 1 {
        Err(SpecHeaderParseFail::BracketAlone)
    } else {
        let aot = line[1] == '[';
        let start: int = if aot {
            2
        } else {
            1
        };
        let close = spec_find_close(line, start, None, aot);
        if close < 0 {
            Err(SpecHeaderParseFail::NotOnLine)
        } else {
            let after = close + (if aot {
                2int
            } else {
                1int
            });
            if spec_trim(line.skip(after)).len() != 0 {
                Err(SpecHeaderParseFail::NotOnLine)
            } else {
                let pieces = crate::key::spec_split_dots(line.subrange(start, close));
                match spec_norm_groups(pieces, 0) {
                    Ok(groups) => Ok((aot, groups)),
                    Err(h) => Err(h),
                }
            }
        }
    }
}

fn find_close(s: &Vec<char>, i: usize, aot: bool) -> (r: Option<usize>)
    requires
        i <= s@.len(),
    ensures
        r matches Some(j) ==> spec_find_close(s@, i as int, None, aot) == j as int && i <= j
            < s@.len() && (aot ==> j + 1 < s@.len()),
        r is None ==> spec_find_close(s@, i as int, None, aot) < 0,
{
    let slen = s.len();
    let mut j: usize = i;
    let mut q: Option<char> = None;
    while j < slen
        invariant
            i <= j <= slen == s@.len(),
            spec_find_close(s@, i as int, None, aot) == spec_find_close(s@, j as int, q, aot),
        decreases slen - j,
    {
        let c = s[j];
        if q.is_none() && c == ']' && (!aot || (j + 1 < slen && s[j + 1] == ']')) {
            return Some(j);
        }
        q = match q {
            None => if c == '"' || c == '\'' {
                Some(c)
            } else {
                None
            },
            Some(x) => if c == x {
                None
            } else {
                Some(x)
            },
        };
        j += 1;
    }
    None
}

#[verifier::loop_isolation(false)]
fn norm_group(piece: &Vec<char>) -> (r: Result<Vec<char>, ErrKind>)
    ensures
        r matches Ok(v) ==> spec_norm_group(piece@) == Ok::<_, SpecHeaderParseFail>(v@),
        r matches Err(e) ==> (spec_norm_group(piece@) matches Err(h) && spec_matches_parse_fail(
            e,
            h,
        )),
{
    let t = trim(piece);
    let tlen = t.len();
    if tlen == 0 {
        return Err(ErrKind::EmptyGroupName);
    }
    proof {
        assert(t@.last() == t@[t@.len() - 1]);
    }
    if tlen >= 2 && (t[0] == '"' || t[0] == '\'') && t[tlen - 1] == t[0] {
        return Ok(subvec(&t, 1, tlen - 1));
    }
    let mut j: usize = 0;
    while j < tlen
        invariant
            0 <= j <= tlen == t@.len(),
            forall|k: int| 0 <= k < j ==> spec_groupchar(#[trigger] t@[k]),
        decreases tlen - j,
    {
        let c = t[j];
        if !(('A' <= c && c <= 'Z') || ('a' <= c && c <= 'z') || ('0' <= c && c <= '9') || c == '_'
            || c == '-') {
            proof {
                let st = spec_trim(piece@);
                assert(st == t@);
                assert(st.len() > 0);
                assert(!(st.len() >= 2 && (st[0] == '"' || st[0] == '\'') && st.last() == st[0]));
                assert(!spec_groupchar(st[j as int]));
                assert(!(forall|m: int| 0 <= m < st.len() ==> spec_groupchar(#[trigger] st[m])));
                assert(spec_norm_group(piece@) == Err::<Seq<char>, _>(
                    SpecHeaderParseFail::InvalidGroup(st),
                ));
            }
            return Err(ErrKind::InvalidGroupName(chars_string(&t)));
        }
        j += 1;
    }
    Ok(t)
}

/// Parses a header line starting with `[`.
#[verifier::loop_isolation(false)]
#[verifier::rlimit(100)]
pub fn parse_header(line: &Vec<char>) -> (r: Result<(bool, Vec<String>), ErrKind>)
    requires
        line@.len() >= 1,
        line@[0] == '[',
    ensures
        r matches Ok(p) ==> (spec_parse_header(line@) matches Ok(q) && p.0 == q.0 && p.1@.len()
            == q.1.len() && q.1.len() > 0 && (forall|k: int|
            0 <= k < p.1@.len() ==> (#[trigger] p.1@[k])@ == q.1[k])),
        r matches Err(e) ==> (spec_parse_header(line@) matches Err(h) && spec_matches_parse_fail(
            e,
            h,
        )),
{
    let llen = line.len();
    if llen == 1 {
        return Err(ErrKind::OpeningBracketAlone);
    }
    let aot = line[1] == '[';
    let start: usize = if aot {
        2
    } else {
        1
    };
    let close = match find_close(line, start, aot) {
        Some(c) => c,
        None => {
            return Err(ErrKind::KeyGroupNotOnLine);
        },
    };
    let after: usize = close + (if aot {
        2
    } else {
        1
    });
    proof {
        assert(after <= line@.len());
    }
    let rest = subvec(line, after, llen);
    let rest_t = trim(&rest);
    proof {
        assert(rest@ =~= line@.skip(after as int));
    }
    if rest_t.len() != 0 {
        return Err(ErrKind::KeyGroupNotOnLine);
    }
    let inner = subvec(line, start, close);
    let pieces = crate::key::split_dots(&inner);
    proof {
        assert(inner@ =~= line@.subrange(start as int, close as int));
    }
    let ghost gpieces = crate::key::spec_split_dots(inner@);
    let mut out: Vec<String> = Vec::new();
    let mut k: usize = 0;
    while k < pieces.len()
        invariant
            0 <= k <= pieces@.len(),
            pieces@.len() == gpieces.len(),
            forall|j: int| 0 <= j < pieces@.len() ==> (#[trigger] pieces@[j])@ == gpieces[j],
            out@.len() == k,
            ({
                match spec_norm_groups(gpieces, k as int) {
                    Ok(rest) => (spec_norm_groups(gpieces, 0) matches Ok(whole) && whole.len()
                        == k + rest.len() && (forall|j: int|
                        0 <= j < k ==> whole[j] == (#[trigger] out@[j])@) && (forall|j: int|
                        k <= j < whole.len() ==> #[trigger] whole[j] == rest[j - k])),
                    Err(h) => spec_norm_groups(gpieces, 0) == Err::<Seq<Seq<char>>, _>(h),
                }
            }),
        decreases pieces@.len() - k,
    {
        let ng = norm_group(&pieces[k]);
        match ng {
            Ok(v) => {
                out.push(chars_string(&v));
                proof {
                    assert(spec_norm_group(gpieces[k as int]) == Ok::<_, SpecHeaderParseFail>(
                        v@,
                    ));
                }
            },
            Err(e) => {
                proof {
                    assert(spec_norm_group(gpieces[k as int]) is Err);
                    assert(spec_norm_groups(gpieces, k as int) is Err);
                    assert(spec_parse_header(line@) matches Err(h) && spec_matches_parse_fail(
                        e,
                        h,
                    ));
                }
                return Err(e);
            },
        }
        k += 1;
    }
    proof {
        assert(spec_norm_groups(gpieces, pieces@.len() as int) == Ok::<_, SpecHeaderParseFail>(
            Seq::<Seq<char>>::empty(),
        ));
        let q = spec_parse_header(line@);
        assert(gpieces.len() > 0) by {
            crate::key::lemma_split_dots_nonempty(inner@);
        }
        assert(spec_norm_groups(gpieces, 0) matches Ok(whole) && whole.len() == out@.len());
        assert(q matches Ok(p) && p.1 == spec_norm_groups(gpieces, 0)->Ok_0);
    }
    Ok((aot, out))
}

/// Whether a trimmed value opens a multiline literal: an unterminated
/// triple-quoted string, or an array missing its closing bracket; the
/// payload says which.
pub open spec fn spec_multiline_open(p: Seq<char>) -> Option<bool> {
    if p.len() >= 3 && (p[0] == '"' || p[0] == '\'') && p[1] == p[0] && p[2] == p[0] && !(p.len()
        >= 6 && p.last() == p[0] && p[p.len() - 2] == p[0] && p[p.len() - 3] == p[0]) {
        Some(false)
    } else if p.len() >= 1 && p[0] == '[' && p.last() != ']' {
        Some(true)
    } else {
        None
    }
}

fn multiline_open(p: &Vec<char>) -> (r: Option<bool>)
    ensures
        r == spec_multiline_open(p@),
{
    let plen = p.len();
    if plen == 0 {
        return None;
    }
    proof {
        assert(p@.last() == p@[p@.len() - 1]);
    }
    if plen >= 3 && (p[0] == '"' || p[0] == '\'') && p[1] == p[0] && p[2] == p[0] && !(plen >= 6
        && p[plen - 1] == p[0] && p[plen - 2] == p[0] && p[plen - 3] == p[0]) {
        Some(false)
    } else if p[0] == '[' && p[plen - 1] != ']' {
        Some(true)
    } else {
        None
    }
}

/// What one key/value line does: a finished insertion, or the start of a
/// multiline value with the key text, the accumulator and the
/// backslash-continuation flag.
pub enum SpecLineOutcome {
    Inserted(SpecTable),
    Multiline(Seq<char>, Seq<char>, bool),
}

/// One key/value line against the current table: the key and value
/// split at the first unquoted `=`; a value opening a multiline literal
/// defers; otherwise the parsed value is inserted along the dotted key
/// path.
pub open spec fn spec_load_line(line: Seq<char>, t: SpecTable) -> Result<SpecLineOutcome, ErrKind> {
    let eq = spec_find_eq(line);
    if eq < 0 {
        Err(ErrKind::UnbalancedQuotes)
    } else {
        let keytext = spec_trim(line.subrange(0, eq));
        let valraw = line.subrange(eq + 1, line.len() as int);
        let valtext = spec_trim(valraw);
        match spec_multiline_open(valtext) {
            Some(is_arr) => {
                let bs = spec_trailing_backslashes(valtext, valtext.len() as int);
                if bs % 2 == 1 {
                    Ok(SpecLineOutcome::Multiline(keytext, valtext.drop_last(), true))
                } else {
                    Ok(SpecLineOutcome::Multiline(keytext, valtext.push('\n'), false))
                }
            },
            None => match spec_key_segments(keytext) {
                Err(e) => Err(e),
                Ok(segs) => match spec_load_value(
                    valtext,
                    crate::numbers::spec_strictly_valid_num(valraw),
                ) {
                    Err(e) => Err(e),
                    Ok(v) => match spec_insert_dotted(t, segs, 0, v) {
                        Err(e) => Err(e),
                        Ok(t2) => Ok(SpecLineOutcome::Inserted(t2)),
                    },
                },
            },
        }
    }
}

/// Index of the first stored record for `line` at or after `i`, or -1.
pub open spec fn spec_find_record_from(records: Seq<SpecCommentRecord>, i: int, line: int) -> int
    decreases records.len() - i,
{
    if i < 0 || i >= records.len() {
        -1
    } else if records[i].line == line {
        i
    } else {
        spec_find_record_from(records, i + 1, line)
    }
}

/// The first stored record for `line`, if any.
pub open spec fn spec_find_record(records: Seq<SpecCommentRecord>, line: int) -> Option<
    SpecCommentRecord,
> {
    let i = spec_find_record_from(records, 0, line);
    if i >= 0 {
        Some(records[i])
    } else {
        None
    }
}

/// `records` with `rec` written: it replaces the first record for the
/// same line, or goes to the end when there is none.
pub open spec fn spec_replace_record(
    records: Seq<SpecCommentRecord>,
    rec: SpecCommentRecord,
) -> Seq<SpecCommentRecord> {
    let i = spec_find_record_from(records, 0, rec.line);
    if i >= 0 {
        records.update(i, rec)
    } else {
        records.push(rec)
    }
}

/// The overlay applied to one line: when a record for the line exists
/// and its key is bound, the bound value is wrapped with the comment;
/// otherwise the table is unchanged.
pub open spec fn spec_embed(
    records: Seq<SpecCommentRecord>,
    line: int,
    t: SpecTable,
) -> SpecTable {
    match spec_find_record(records, line) {
        None => t,
        Some(rec) => if spec_has_key(t, rec.key) {
            spec_set(
                t,
                rec.key,
                SpecValue::Commented(
                    SpecCommentValue {
                        val: Box::new(spec_get(t, rec.key)),
                        comment: rec.text,
                        beginline: rec.beginline,
                    },
                ),
            )
        } else {
            t
        },
    }
}

/// A bound key is rejected at the key/value line: when the line's key
/// part is a plain undotted key that is already bound in the table, the
/// value opens no multiline literal and itself parses, the line fails
/// with exactly the duplicate-key cause and nothing else.
pub proof fn lemma_load_line_duplicate_key(line: Seq<char>, t: SpecTable)
    requires
        ({
            let eq = spec_find_eq(line);
            let keytext = spec_trim(line.subrange(0, eq));
            let valraw = line.subrange(eq + 1, line.len() as int);
            let valtext = spec_trim(valraw);
            &&& eq >= 0
            &&& spec_multiline_open(valtext) is None
            &&& !keytext.contains('.')
            &&& !(keytext.len() >= 2 && (keytext[0] == '"' || keytext[0] == '\'')
                && keytext.last() == keytext[0])
            &&& spec_load_value(valtext, crate::numbers::spec_strictly_valid_num(valraw)) is Ok
            &&& spec_has_key(t, keytext)
        }),
    ensures
        spec_load_line(line, t) == Err::<SpecLineOutcome, ErrKind>(ErrKind::DuplicateKeys),
{
    let eq = spec_find_eq(line);
    let keytext = spec_trim(line.subrange(0, eq));
    assert(spec_key_segments(keytext) == Ok::<_, ErrKind>(seq![keytext]));
    let segs = seq![keytext];
    assert(segs[0] == keytext);
    crate::key::lemma_duplicate_key_always_errors(
        t,
        segs,
        0,
        spec_load_line_value(line),
    );
}

/// The parsed value of a key/value line, named for the lemma above.
pub open spec fn spec_load_line_value(line: Seq<char>) -> SpecValue {
    let eq = spec_find_eq(line);
    let valraw = line.subrange(eq + 1, line.len() as int);
    let valtext = spec_trim(valraw);
    spec_load_value(valtext, crate::numbers::spec_strictly_valid_num(valraw))->Ok_0
}

/// The comment-preserving decoder: it stores the scanner's comment
/// records, one per line (a later record for the same line replaces the
/// earlier), and wraps values as the builder passes each line.
pub struct TomlPreserveCommentDecoder {
    pub saved_comments: Vec<CommentRecord>,
}

impl TomlPreserveCommentDecoder {
    /// An overlay with no comments yet.
    pub fn new() -> (r: TomlPreserveCommentDecoder)
        ensures
            r.saved_comments@.len() == 0,
    {
        TomlPreserveCommentDecoder { saved_comments: Vec::new() }
    }

    /// Records one comment; a record for the same line replaces the
    /// earlier one, and a new line's record goes to the end.
    #[verifier::loop_isolation(false)]
    pub fn preserve_comment(&mut self, line_no: usize, key: String, comment: String, beginline: bool)
        ensures
            final(self)@ == spec_replace_record(
                old(self)@,
                SpecCommentRecord {
                    line: line_no as int,
                    key: key@,
                    text: comment@,
                    beginline,
                },
            ),
    {
        let ghost rec = SpecCommentRecord {
            line: line_no as int,
            key: key@,
            text: comment@,
            beginline,
        };
        let mut i: usize = 0;
        let n = self.saved_comments.len();
        while i < n
            invariant
                0 <= i <= n == self.saved_comments@.len(),
                self.saved_comments@ == old(self).saved_comments@,
                spec_find_record_from(old(self)@, 0, line_no as int) == spec_find_record_from(
                    old(self)@,
                    i as int,
                    line_no as int,
                ),
            decreases n - i,
        {
            if self.saved_comments[i].line == line_no {
                proof {
                    assert(old(self)@[i as int].line == line_no as int);
                    assert(spec_find_record_from(old(self)@, i as int, line_no as int)
                        == i as int);
                }
                let ghost oldvec = self.saved_comments@;
                let newrec = CommentRecord { line: line_no, key, text: comment, beginline };
                let ghost gnew = newrec@;
                proof {
                    assert(gnew == rec);
                }
                self.saved_comments[i] = newrec;
                proof {
                    assert forall|j: int| 0 <= j < self@.len() implies self@[j] == old(
                        self,
                    )@.update(i as int, rec)[j] by {
                        if j != i {
                            assert(self.saved_comments@[j] == old(self).saved_comments@[j]);
                        } else {
                            assert(self.saved_comments@[j]@ == gnew);
                        }
                    }
                    assert(self@ =~= old(self)@.update(i as int, rec));
                }
                return ;
            }
            proof {
                assert(old(self)@[i as int].line != line_no as int);
            }
            i += 1;
        }
        proof {
            assert(spec_find_record_from(old(self)@, 0, line_no as int) < 0);
        }
        self.saved_comments.push(CommentRecord { line: line_no, key, text: comment, beginline });
        proof {
            assert(self@ =~= old(self)@.push(rec));
        }
    }

    /// Applies the comment recorded for line `idx`, if any, to the value
    /// its key names in `currentlevel`: the value is wrapped so it
    /// renders with its comment. Without a record, or without the key,
    /// nothing changes.
    pub fn embed_comments(&self, idx: usize, currentlevel: &mut Table)
        ensures
            final(currentlevel)@ == spec_embed(self@, idx as int, old(currentlevel)@),
    {
        let n = self.saved_comments.len();
        let mut i: usize = 0;
        while i < n
            invariant
                0 <= i <= n == self.saved_comments@.len(),
                *currentlevel == *old(currentlevel),
                spec_find_record_from(self@, 0, idx as int) == spec_find_record_from(
                    self@,
                    i as int,
                    idx as int,
                ),
            decreases n - i,
        {
            if self.saved_comments[i].line == idx {
                proof {
                    assert(self@[i as int].line == idx as int);
                    assert(spec_find_record_from(self@, i as int, idx as int) == i as int);
                    assert(spec_find_record(self@, idx as int) == Some(self@[i as int]));
                }
                let key_owned = clone_string(&self.saved_comments[i].key);
                let text_owned = clone_string(&self.saved_comments[i].text);
                let bl = self.saved_comments[i].beginline;
                let did = currentlevel.wrap_comment(&key_owned, text_owned, bl);
                proof {
                    let rec = self@[i as int];
                    assert(key_owned@ == rec.key);
                    assert(bl == rec.beginline);
                    if !did {
                        assert(!spec_has_key(old(currentlevel)@, rec.key));
                    }
                }
                return ;
            }
            proof {
                assert(self@[i as int].line != idx as int);
            }
            i += 1;
        }
        proof {
            assert(spec_find_record_from(self@, 0, idx as int) < 0);
        }
    }

    /// Ghost form: the record views.
    pub open spec fn view(&self) -> Seq<SpecCommentRecord> {
        Seq::new(self.saved_comments@.len(), |i: int| self.saved_comments@[i]@)
    }
}

/// Copy of a string.
fn clone_string(s: &String) -> (r: String)
    ensures
        r@ == s@,
{
    let v = str_chars(s.as_str());
    chars_string(&v)
}

/// The decoder: when built with a comment overlay it preserves comments,
/// otherwise they are discarded.
pub struct TomlDecoder {
    pub comment_decoder: Option<TomlPreserveCommentDecoder>,
}

impl TomlDecoder {
    /// A decoder that discards comments.
    pub fn new() -> (r: TomlDecoder)
        ensures
            r.comment_decoder is None,
    {
        TomlDecoder { comment_decoder: None }
    }

    /// A decoder that preserves comments.
    pub fn new_preserving() -> (r: TomlDecoder)
        ensures
            r.comment_decoder is Some,
    {
        TomlDecoder { comment_decoder: Some(TomlPreserveCommentDecoder::new()) }
    }

    /// An empty result table.
    pub fn get_empty_table(&self) -> (r: Table)
        ensures
            r@.entries.len() == 0,
            !r@.implicit,
    {
        Table::new()
    }

    /// An empty inline table.
    pub fn get_empty_inline_table(&self) -> (r: Table)
        ensures
            r@.entries.len() == 0,
            !r@.implicit,
    {
        Table::new()
    }

    /// Hands one comment record to the overlay; a plain decoder drops
    /// it.
    pub fn preserve_comment(&mut self, line_no: usize, key: String, comment: String, beginline: bool)
        ensures
            (old(self).comment_decoder matches Some(d) ==> (final(self).comment_decoder
                matches Some(d2) && d2@ == spec_replace_record(
                d@,
                SpecCommentRecord {
                    line: line_no as int,
                    key: key@,
                    text: comment@,
                    beginline,
                },
            ))),
            old(self).comment_decoder is None ==> *final(self) == *old(self),
    {
        match &mut self.comment_decoder {
            Some(d) => d.preserve_comment(line_no, key, comment, beginline),
            None => {},
        }
    }

    /// Applies the overlay for line `idx`; a plain decoder changes
    /// nothing.
    pub fn embed_comments(&self, idx: usize, currentlevel: &mut Table)
        ensures
            (self.comment_decoder matches Some(d) ==> final(currentlevel)@ == spec_embed(
                d@,
                idx as int,
                old(currentlevel)@,
            )),
            self.comment_decoder is None ==> *final(currentlevel) == *old(currentlevel),
    {
        match &self.comment_decoder {
            Some(d) => d.embed_comments(idx, currentlevel),
            None => {},
        }
    }


    /// Splits a line at its quote boundaries: segments alternate between
    /// the trimmed text outside quotes and the exact content of quoted
    /// runs, with the quote characters removed.
    pub fn get_split_on_quotes(&self, line: &str) -> (r: Vec<String>)
        ensures
            r@.len() == spec_split_quotes(line@).len(),
            forall|k: int|
                0 <= k < r@.len() ==> (#[trigger] r@[k])@ == spec_split_quotes(line@)[k],
    {
        let chars = str_chars(line);
        let slen = chars.len();
        let mut i: usize = 0;
        let mut q: Option<char> = None;
        let mut cur: Vec<char> = Vec::new();
        let mut acc: Vec<String> = Vec::new();
        let ghost mut gacc: Seq<Seq<char>> = Seq::empty();
        proof {
            assert(cur@ =~= Seq::<char>::empty());
        }
        while i < slen
            invariant
                0 <= i <= slen == chars@.len(),
                chars@ == line@,
                spec_split_quotes(line@) == spec_split_quotes_rec(line@, i as int, q, cur@, gacc),
                gacc.len() == acc@.len(),
                forall|k: int| 0 <= k < acc@.len() ==> (#[trigger] acc@[k])@ == gacc[k],
            decreases slen - i,
        {
            let c = chars[i];
            let boundary: bool = match q {
                None => c == '"' || c == '\'',
                Some(x) => c == x,
            };
            if boundary {
                let was_outside = q.is_none();
                let done: Vec<char> = if was_outside {
                    trim(&cur)
                } else {
                    cur
                };
                cur = Vec::new();
                proof {
                    gacc = gacc.push(done@);
                }
                acc.push(chars_string(&done));
                q = match q {
                    None => Some(c),
                    Some(x) => None,
                };
                proof {
                    assert(cur@ =~= Seq::<char>::empty());
                }
            } else {
                cur.push(c);
            }
            i += 1;
        }
        let last: Vec<char> = if q.is_none() {
            trim(&cur)
        } else {
            cur
        };
        proof {
            gacc = gacc.push(last@);
        }
        acc.push(chars_string(&last));
        acc
    }

    /// Whether the array interior's first element is a quoted string.
    pub fn load_array_isstrarray(&self, a: &str) -> (r: bool)
        ensures
            ({
                let s = a@;
                s.len() >= 2 ==> r == ({
                    let t = spec_trim(s.subrange(1, s.len() - 1));
                    t.len() > 0 && (t[0] == '"' || t[0] == '\'')
                })
            }),
    {
        let chars = str_chars(a);
        let clen = chars.len();
        if clen < 2 {
            return false;
        }
        let inner = subvec(&chars, 1, clen - 1);
        let t = trim(&inner);
        proof {
            assert(inner@ =~= a@.subrange(1, a@.len() - 1));
        }
        t.len() > 0 && (t[0] == '"' || t[0] == '\'')
    }

    /// Whether a piece looks like one complete quoted string.
    pub fn bounded_string(&self, s: &str) -> (r: bool)
        ensures
            r == crate::escape::spec_bounded_string(s@),
    {
        let chars = str_chars(s);
        crate::escape::bounded_string(&chars)
    }

    /// Whether a trimmed value opens a multiline literal; the payload
    /// says whether it is an array.
    pub fn load_line_multiline_str(&self, p: &str) -> (r: Option<bool>)
        ensures
            r == spec_multiline_open(spec_trim(p@)),
    {
        let chars = str_chars(p);
        let t = trim(&chars);
        multiline_open(&t)
    }

    /// Parses one trimmed value token.
    pub fn load_value(&self, v: &str, strictly_valid: bool) -> (r: Result<Value, ErrKind>)
        ensures
            r matches Ok(val) ==> spec_load_value(v@, strictly_valid) == Ok::<_, ErrKind>(
                value_view(val),
            ),
            r matches Err(e) ==> spec_load_value(v@, strictly_valid) == Err::<SpecValue, _>(e),
    {
        let chars = str_chars(v);
        load_value_chars(&chars, strictly_valid)
    }

    /// Parses a whole array token: the trimmed text must be bracketed.
    pub fn load_array(&self, a: &str) -> (r: Result<Vec<Value>, ErrKind>)
        ensures
            r matches Ok(items) ==> (spec_load_value(spec_trim(a@), true) matches Ok(v) && v
                == SpecValue::Array(spec_views_of(items@))),
            r matches Err(e) ==> ({
                let t = spec_trim(a@);
                if t.len() > 0 && t[0] == '[' {
                    spec_load_value(t, true) == Err::<SpecValue, _>(e)
                } else {
                    e matches ErrKind::InvalidDateOrNumber
                }
            }),
    {
        let chars = str_chars(a);
        let t = trim(&chars);
        if t.len() == 0 || t[0] != '[' {
            return Err(ErrKind::InvalidDateOrNumber);
        }
        let parsed = load_value_chars(&t, true);
        match parsed {
            Ok(Value::Array(items)) => {
                proof {
                    let got = spec_load_value(spec_trim(a@), true)->Ok_0;
                    assert(got == value_view(Value::Array(items)));
                    assert(got matches SpecValue::Array(sv) && sv =~= spec_views_of(items@));
                }
                Ok(items)
            },
            Ok(other) => {
                proof {
                    assert(spec_load_value(t@, true) == Ok::<_, ErrKind>(value_view(other)));
                    assert(spec_load_value(t@, true) matches Ok(v) && v is Array);
                    assert(false);
                }
                Err(ErrKind::InvalidDateOrNumber)
            },
            Err(e) => Err(e),
        }
    }

    /// Inserts the `key = value` pairs of an inline-object line into
    /// `currentlevel`, one flat group after another; an empty pair of
    /// braces inserts nothing. On a failure `currentlevel` keeps the
    /// groups inserted before the rejected one.
    pub fn load_inline_object(&self, line: &str, currentlevel: &mut Table) -> (r: Result<
        (),
        ErrKind,
    >)
        ensures
            ({
                let s = spec_trim(line@);
                if s.len() >= 2 && s[0] == '{' && s.last() == '}' {
                    let interior = s.subrange(1, s.len() - 1);
                    if spec_trim(interior).len() == 0 {
                        r is Ok && *final(currentlevel) == *old(currentlevel)
                    } else {
                        let folded = crate::grammar::spec_inline_fold(
                            interior,
                            0,
                            old(currentlevel)@,
                        );
                        &&& final(currentlevel)@ == folded.0
                        &&& (r matches Ok(p) ==> folded.1 is None)
                        &&& (r matches Err(e) ==> folded.1 == Some(e))
                    }
                } else {
                    r == Err::<(), ErrKind>(ErrKind::InvalidInlineTable) && *final(currentlevel)
                        == *old(currentlevel)
                }
            }),
    {
        let chars = str_chars(line);
        let t = trim(&chars);
        let tlen = t.len();
        proof {
            if tlen > 0 {
                assert(t@.last() == t@[t@.len() - 1]);
            }
        }
        if tlen < 2 || t[0] != '{' || t[tlen - 1] != '}' {
            return Err(ErrKind::InvalidInlineTable);
        }
        let interior = subvec(&t, 1, tlen - 1);
        proof {
            assert(interior@ =~= spec_trim(line@).subrange(1, spec_trim(line@).len() - 1));
        }
        let inner_trimmed = trim(&interior);
        if inner_trimmed.len() == 0 {
            return Ok(());
        }
        let mut owned = Table::new();
        core::mem::swap(currentlevel, &mut owned);
        let (t2, ferr) = crate::grammar::inline_fold_exec(&interior, 0, owned);
        let mut t2m = t2;
        core::mem::swap(currentlevel, &mut t2m);
        match ferr {
            None => Ok(()),
            Some(e) => Err(e),
        }
    }

    /// Processes one key/value line against `currentlevel`: either the
    /// value is parsed and inserted, or a multiline literal opens and
    /// the key text with the started accumulator comes back.
    pub fn load_line(&self, line: &str, currentlevel: &mut Table) -> (r: Result<
        Option<(String, String, bool)>,
        ErrKind,
    >)
        ensures
            r matches Ok(out) ==> ({
                let so = spec_load_line(line@, old(currentlevel)@);
                match out {
                    None => (so matches Ok(o) && o matches SpecLineOutcome::Inserted(t2)
                        && final(currentlevel)@ == t2),
                    Some(m) => (so matches Ok(o) && (o matches SpecLineOutcome::Multiline(k, a, b)
                        && m.0@ == k && m.1@ == a && m.2 == b)
                        && *final(currentlevel) == *old(currentlevel)),
                }
            }),
            r matches Err(e) ==> spec_load_line(line@, old(currentlevel)@) == Err::<
                SpecLineOutcome,
                _,
            >(e) && final(currentlevel)@ == old(currentlevel)@,
    {
        let chars = str_chars(line);
        let clen = chars.len();
        let eq = match find_unquoted_eq(&chars) {
            Some(i) => i,
            None => {
                return Err(ErrKind::UnbalancedQuotes);
            },
        };
        let keyraw = subvec(&chars, 0, eq);
        let keytext = trim(&keyraw);
        let valraw = subvec(&chars, eq + 1, clen);
        let valtext = trim(&valraw);
        proof {
            assert(keyraw@ =~= line@.subrange(0, spec_find_eq(line@)));
            assert(valraw@ =~= line@.subrange(spec_find_eq(line@) + 1, line@.len() as int));
        }
        match multiline_open(&valtext) {
            Some(is_arr) => {
                let vlen = valtext.len();
                let bs = count_trailing_backslashes(&valtext);
                if bs % 2 == 1 {
                    let acc = subvec(&valtext, 0, vlen - 1);
                    proof {
                        assert(acc@ =~= valtext@.drop_last());
                    }
                    Ok(Some((chars_string(&keytext), chars_string(&acc), true)))
                } else {
                    let mut acc = subvec(&valtext, 0, vlen);
                    acc.push('\n');
                    proof {
                        assert(acc@ =~= valtext@.push('\n'));
                    }
                    Ok(Some((chars_string(&keytext), chars_string(&acc), false)))
                }
            },
            None => {
                let segs = match key_segments(&keytext) {
                    Ok(s) => s,
                    Err(e) => {
                        return Err(e);
                    },
                };
                let sv = crate::numbers::strictly_valid_num_chars(&valraw);
                let val = match load_value_chars(&valtext, sv) {
                    Ok(v) => v,
                    Err(e) => {
                        return Err(e);
                    },
                };
                proof {
                    assert(segs.deep_view() =~= spec_key_segments(keytext@)->Ok_0);
                }
                let ins = insert_dotted(currentlevel, &segs, 0, val);
                match ins {
                    Ok(p) => Ok(None),
                    Err(e) => Err(e),
                }
            },
        }
    }
}

/// The parity count of trailing backslashes.
fn count_trailing_backslashes(s: &Vec<char>) -> (r: usize)
    ensures
        r as int == spec_trailing_backslashes(s@, s@.len() as int),
{
    let slen = s.len();
    let mut count: usize = 0;
    let mut j: usize = slen;
    while j > 0 && s[j - 1] == '\\'
        invariant
            0 <= j <= slen == s@.len(),
            count == slen - j,
            spec_trailing_backslashes(s@, slen as int) == count as int + spec_trailing_backslashes(
                s@,
                j as int,
            ),
        decreases j,
    {
        j -= 1;
        count += 1;
    }
    count
}


/// `pos` advanced past one line and its newline, capped at the document
/// length.
pub open spec fn spec_advance(pos: int, step: int, cap: int) -> int {
    if pos + step + 1 < cap {
        pos + step + 1
    } else {
        cap
    }
}

fn advance_pos(pos: usize, step: usize, cap: usize) -> (r: usize)
    ensures
        r as int == spec_advance(pos as int, step as int, cap as int),
        r <= cap,
{
    let a = pos.checked_add(step);
    let b = match a {
        Some(x) => x.checked_add(1),
        None => None,
    };
    match b {
        Some(x) => if x < cap {
            x
        } else {
            cap
        },
        None => cap,
    }
}

/// Why a decode failed: a plain cause, or one of the header failures
/// that carry the offending group name.
pub enum SpecFailCause {
    Plain(ErrKind),
    HeaderParse(SpecHeaderParseFail),
    HeaderWalk(crate::tree::SpecHeaderErr),
}

/// Whether the concrete error kind renders the failure cause.
pub open spec fn spec_matches_fail(e: ErrKind, c: SpecFailCause) -> bool {
    match c {
        SpecFailCause::Plain(k) => e == k,
        SpecFailCause::HeaderParse(h) => spec_matches_parse_fail(e, h),
        SpecFailCause::HeaderWalk(h) => crate::tree::spec_matches_header_err(e, h),
    }
}

/// The message a failure cause is reported with.
pub open spec fn spec_fail_msg(c: SpecFailCause) -> Seq<char> {
    match c {
        SpecFailCause::Plain(k) => spec_kind_msg(k),
        SpecFailCause::HeaderParse(h) => match h {
            SpecHeaderParseFail::BracketAlone => "Opening key group bracket on line by itself."@,
            SpecHeaderParseFail::NotOnLine => "Key group not on a line by itself."@,
            SpecHeaderParseFail::EmptyGroup => "Can't have a keygroup with an empty name"@,
            SpecHeaderParseFail::InvalidGroup(g) => "Invalid group name '"@ + g
                + "'. Try quoting it."@,
        },
        SpecFailCause::HeaderWalk(h) => match h {
            crate::tree::SpecHeaderErr::AlreadyExists(g) => "What? "@ + g + " already exists?"@,
            crate::tree::SpecHeaderErr::ImplicitArrayConflict =>
                "An implicitly defined table can't be an array"@,
        },
    }
}

/// The builder's whole state between lines: the tree with a placeholder
/// at the cursor path, the extracted current table, and the multiline
/// accumulator.
#[verifier::ext_equal]
pub struct SpecBuildState {
    pub tree: SpecValue,
    pub path: Seq<Seq<char>>,
    pub current: SpecTable,
    pub multikey: Option<Seq<char>>,
    pub acc: Seq<char>,
    pub backslash: bool,
}

/// The ghost form of the builder's live variables.
pub open spec fn spec_cur_state(
    tree: Value,
    path: Vec<String>,
    current: Table,
    multikey: Option<String>,
    acc: Vec<char>,
    backslash: bool,
) -> SpecBuildState {
    SpecBuildState {
        tree: value_view(tree),
        path: path.deep_view(),
        current: current@,
        multikey: match multikey {
            Some(k) => Some(k@),
            None => None,
        },
        acc: acc@,
        backslash: backslash,
    }
}

/// The builder's starting state: an empty root, the cursor at the root.
pub open spec fn spec_build_init() -> SpecBuildState {
    SpecBuildState {
        tree: SpecValue::Table(SpecTable { entries: Seq::empty(), implicit: false }),
        path: Seq::empty(),
        current: SpecTable { entries: Seq::empty(), implicit: false },
        multikey: None,
        acc: Seq::empty(),
        backslash: false,
    }
}

/// One builder line: continue or close a pending multiline value, or
/// dispatch the trimmed line as a header, an inline object, a key/value
/// line, or nothing.
pub open spec fn spec_build_line(st: SpecBuildState, line: Seq<char>) -> Result<
    SpecBuildState,
    SpecFailCause,
> {
    if st.multikey is Some {
        let trim_it = st.acc.len() > 0 && !st.backslash && !st.acc.contains('\n');
        let ul = if trim_it {
            spec_trim(line)
        } else {
            line
        };
        if ul.len() == 0 && st.backslash {
            Ok(st)
        } else {
            let acc2 = st.acc + ul;
            let closed = if acc2.len() > 0 && acc2[0] == '[' {
                ul.len() > 0 && ul.last() == ']'
            } else if acc2.len() > 2 {
                ul.len() >= 3 && ul.last() == acc2[0] && ul[ul.len() - 2] == acc2[0] && ul[ul.len()
                    - 3] == acc2[0]
            } else {
                false
            };
            if closed {
                match spec_load_value(acc2, true) {
                    Err(k) => Err(SpecFailCause::Plain(k)),
                    Ok(v) => match spec_key_segments(st.multikey.unwrap()) {
                        Err(k) => Err(SpecFailCause::Plain(k)),
                        Ok(segs) => match spec_insert_dotted(st.current, segs, 0, v) {
                            Err(k) => Err(SpecFailCause::Plain(k)),
                            Ok(c2) => Ok(
                                SpecBuildState {
                                    current: c2,
                                    multikey: None,
                                    acc: Seq::empty(),
                                    backslash: false,
                                    ..st
                                },
                            ),
                        },
                    },
                }
            } else {
                let bs = crate::escape::spec_trailing_backslashes(acc2, acc2.len() as int);
                if bs % 2 == 1 {
                    Ok(SpecBuildState { acc: acc2.drop_last(), backslash: true, ..st })
                } else {
                    Ok(SpecBuildState { acc: acc2.push('\n'), backslash: false, ..st })
                }
            }
        }
    } else {
        let tline = spec_trim(line);
        if tline.len() == 0 {
            Ok(st)
        } else if tline[0] == '[' {
            let tree1 = spec_put(st.tree, st.path, 0, st.current);
            match spec_parse_header(tline) {
                Err(h) => Err(SpecFailCause::HeaderParse(h)),
                Ok((aot, groups)) => match spec_ensure(tree1, groups, 0, aot) {
                    Err(h) => Err(SpecFailCause::HeaderWalk(h)),
                    Ok((tree2, ex)) => Ok(
                        SpecBuildState { tree: tree2, path: groups, current: ex, ..st },
                    ),
                },
            }
        } else if tline[0] == '{' {
            if tline.last() != '}' {
                Err(SpecFailCause::Plain(ErrKind::LineBreakInInlineObject))
            } else {
                let interior = tline.subrange(1, tline.len() - 1);
                if spec_trim(interior).len() == 0 {
                    Ok(st)
                } else {
                    let folded = crate::grammar::spec_inline_fold(interior, 0, st.current);
                    match folded.1 {
                        None => Ok(SpecBuildState { current: folded.0, ..st }),
                        Some(k) => Err(SpecFailCause::Plain(k)),
                    }
                }
            }
        } else if tline.contains('=') {
            match spec_load_line(tline, st.current) {
                Err(k) => Err(SpecFailCause::Plain(k)),
                Ok(SpecLineOutcome::Inserted(t2)) => Ok(SpecBuildState { current: t2, ..st }),
                Ok(SpecLineOutcome::Multiline(k, a, b)) => Ok(
                    SpecBuildState { multikey: Some(k), acc: a, backslash: b, ..st },
                ),
            }
        } else {
            Ok(st)
        }
    }
}

/// The builder folded over the lines from `idx` on: before every line
/// but the first, the position advances past the previous line and the
/// overlay is applied for the line number just finished.
pub open spec fn spec_build(
    lines: Seq<Seq<char>>,
    idx: int,
    st: SpecBuildState,
    pos: int,
    saved: Seq<SpecCommentRecord>,
    preserve: bool,
    cap: int,
) -> Result<(SpecBuildState, int), (SpecFailCause, int)>
    decreases lines.len() - idx,
{
    if idx < 0 || idx >= lines.len() {
        Ok((st, pos))
    } else {
        let pos1 = if idx > 0 {
            spec_advance(pos, lines[idx - 1].len() as int, cap)
        } else {
            pos
        };
        let st1 = if idx > 0 && preserve {
            SpecBuildState { current: spec_embed(saved, idx, st.current), ..st }
        } else {
            st
        };
        match spec_build_line(st1, lines[idx]) {
            Err(c) => Err((c, pos1)),
            Ok(st2) => spec_build(lines, idx + 1, st2, pos1, saved, preserve, cap),
        }
    }
}

/// The overlay's record store after feeding it the scanner's records in
/// order, each replacing an earlier record for its line.
pub open spec fn spec_feed(
    records: Seq<SpecCommentRecord>,
    idx: int,
    acc: Seq<SpecCommentRecord>,
) -> Seq<SpecCommentRecord>
    decreases records.len() - idx,
{
    if idx < 0 || idx >= records.len() {
        acc
    } else {
        spec_feed(records, idx + 1, spec_replace_record(acc, records[idx]))
    }
}

/// The whole decode of a document: the scan, the builder fold over the
/// masked lines, the end-of-document checks, the final overlay
/// application and write-back, and the clearing of the parsing tags.
pub open spec fn spec_decode(
    s: Seq<char>,
    preserve: bool,
    saved0: Seq<SpecCommentRecord>,
) -> Result<SpecTable, (SpecFailCause, int)> {
    let (sst, sbuf, serr) = spec_scan(s);
    match serr {
        Some((k, p)) => Err((SpecFailCause::Plain(k), p)),
        None => {
            let saved = if preserve {
                spec_feed(sst.records, 0, saved0)
            } else {
                Seq::empty()
            };
            let lines = spec_split_nl(sbuf);
            let cap = s.len() as int;
            match spec_build(lines, 0, spec_build_init(), 0, saved, preserve, cap) {
                Err(f) => Err(f),
                Ok((stf, posf)) => if stf.multikey is Some {
                    Err((SpecFailCause::Plain(ErrKind::UnterminatedMultiline), cap))
                } else {
                    let cur2 = if preserve {
                        spec_embed(saved, lines.len() as int, stf.current)
                    } else {
                        stf.current
                    };
                    let fin = spec_put(stf.tree, stf.path, 0, cur2);
                    Ok(crate::value::spec_clear_table(fin->Table_0))
                },
            }
        },
    }
}

/// Builds the located error for cause `kind` at offset `pos` of `s`,
/// capped at the document length `cap`.
fn mk_err(kind: &ErrKind, s: &str, pos: usize, cap: usize) -> (r: TomlDecodeError)
    requires
        cap as int <= s@.len(),
    ensures
        r.located_in(s@),
        r.msg@ == spec_kind_msg(*kind),
        pos <= cap ==> r.pos == pos,
{
    let ep = if pos < cap {
        pos
    } else {
        cap
    };
    TomlDecodeError::new(kind_msg(kind), s.to_owned(), ep)
}

/// Runs one builder line against the live state, mirroring
/// `spec_build_line`.
#[verifier::loop_isolation(false)]
#[verifier::rlimit(100)]
fn build_line_exec(
    d: &TomlDecoder,
    tree: &mut Value,
    path: &mut Vec<String>,
    current: &mut Table,
    multikey: &mut Option<String>,
    acc: &mut Vec<char>,
    backslash: &mut bool,
    line: &Vec<char>,
) -> (r: Option<ErrKind>)
    requires
        value_view(*old(tree)) is Table,
        spec_path_to_table(value_view(*old(tree)), old(path).deep_view(), 0),
    ensures
        ({
            let pre = SpecBuildState {
                tree: value_view(*old(tree)),
                path: old(path).deep_view(),
                current: old(current)@,
                multikey: match *old(multikey) {
                    Some(k) => Some(k@),
                    None => None,
                },
                acc: old(acc)@,
                backslash: *old(backslash),
            };
            let post = SpecBuildState {
                tree: value_view(*final(tree)),
                path: final(path).deep_view(),
                current: final(current)@,
                multikey: match *final(multikey) {
                    Some(k) => Some(k@),
                    None => None,
                },
                acc: final(acc)@,
                backslash: *final(backslash),
            };
            &&& (r is None ==> (spec_build_line(pre, line@) matches Ok(st2) && st2 == post
                && value_view(*final(tree)) is Table && spec_path_to_table(
                value_view(*final(tree)),
                final(path).deep_view(),
                0,
            )))
            &&& (r matches Some(e) ==> (spec_build_line(pre, line@) matches Err(c)
                && spec_matches_fail(e, c) && spec_kind_msg(e) == spec_fail_msg(c)))
        }),
{
    let ghost pre = SpecBuildState {
        tree: value_view(*tree),
        path: path.deep_view(),
        current: current@,
        multikey: match multikey {
            Some(k) => Some(k@),
            None => None,
        },
        acc: acc@,
        backslash: *backslash,
    };
    if multikey.is_some() {
        let trim_it = acc.len() > 0 && !*backslash && !crate::strutil::contains_char(acc, '\n');
        let use_line: Vec<char> = if trim_it {
            trim(line)
        } else {
            subvec(line, 0, line.len())
        };
        proof {
            assert(use_line@ == if pre.acc.len() > 0 && !pre.backslash && !pre.acc.contains('\n') {
                spec_trim(line@)
            } else {
                line@
            });
        }
        if use_line.len() == 0 && *backslash {
            proof {
                assert(spec_build_line(pre, line@) == Ok::<_, SpecFailCause>(pre));
            }
            return None;
        }
        crate::error::append_all(acc, &use_line);
        *backslash = false;
        let ghost acc2 = acc@;
        proof {
            assert(acc2 == pre.acc + use_line@);
        }
        let alen = acc.len();
        let ulen = use_line.len();
        let closed: bool = if alen > 0 && acc[0] == '[' {
            ulen > 0 && use_line[ulen - 1] == ']'
        } else if alen > 2 {
            let q = acc[0];
            ulen >= 3 && use_line[ulen - 1] == q && use_line[ulen - 2] == q && use_line[ulen - 3]
                == q
        } else {
            false
        };
        proof {
            if ulen > 0 {
                assert(use_line@.last() == use_line@[ulen - 1]);
            }
        }
        if closed {
            let val = match crate::grammar::load_value_chars(acc, true) {
                Ok(v) => v,
                Err(k) => {
                    return Some(k);
                },
            };
            let keytext = match &*multikey {
                Some(k) => str_chars(k.as_str()),
                None => Vec::new(),
            };
            let segs = match key_segments(&keytext) {
                Ok(g) => g,
                Err(k) => {
                    return Some(k);
                },
            };
            proof {
                assert(segs.deep_view() =~= spec_key_segments(keytext@)->Ok_0);
            }
            let ins = insert_dotted(current, &segs, 0, val);
            match ins {
                Ok(p) => {},
                Err(k) => {
                    return Some(k);
                },
            }
            *multikey = None;
            *acc = Vec::new();
            proof {
                assert(acc@ =~= Seq::<char>::empty());
                let post = SpecBuildState {
                    tree: value_view(*tree),
                    path: path.deep_view(),
                    current: current@,
                    multikey: None,
                    acc: acc@,
                    backslash: *backslash,
                };
                assert(spec_build_line(pre, line@) matches Ok(st2) && st2 =~= post);
            }
            None
        } else {
            let bs = count_trailing_backslashes(acc);
            if bs % 2 == 1 {
                let nl = acc.len();
                let shorter = subvec(acc, 0, nl - 1);
                proof {
                    assert(shorter@ =~= acc2.drop_last());
                }
                *acc = shorter;
                *backslash = true;
            } else {
                acc.push('\n');
                *backslash = false;
            }
            None
        }
    } else {
        let tline = trim(line);
        let tlen = tline.len();
        if tlen == 0 {
            proof {
                assert(spec_build_line(pre, line@) == Ok::<_, SpecFailCause>(pre));
            }
            return None;
        }
        proof {
            assert(tline@.last() == tline@[tlen - 1]);
        }
        if tline[0] == '[' {
            let mut tree_owned = Value::Bool(false);
            core::mem::swap(tree, &mut tree_owned);
            let mut current_owned = Table::new();
            core::mem::swap(current, &mut current_owned);
            let moved = put_back(tree_owned, path, 0, current_owned);
            proof {
                crate::tree::lemma_put_root_is_table(pre.tree, pre.path, pre.current);
                assert(value_view(moved) == spec_put(pre.tree, pre.path, 0, pre.current));
            }
            let header = parse_header(&tline);
            let (aot, groups) = match header {
                Ok(h) => h,
                Err(k) => {
                    let mut back = moved;
                    core::mem::swap(tree, &mut back);
                    proof {
                        assert(spec_parse_header(tline@) is Err);
                    }
                    return Some(k);
                },
            };
            let ghost pretree = value_view(moved);
            proof {
                assert(groups.deep_view() =~= spec_parse_header(tline@)->Ok_0.1);
            }
            let walked = ensure_path(moved, &groups, 0, aot);
            match walked {
                Ok((t2, ex)) => {
                    proof {
                        lemma_ensure_path_valid(pretree, groups.deep_view(), 0, aot);
                        crate::tree::lemma_ensure_root_is_table(
                            pretree,
                            groups.deep_view(),
                            0,
                            aot,
                        );
                    }
                    let mut t2m = t2;
                    core::mem::swap(tree, &mut t2m);
                    let mut exm = ex;
                    core::mem::swap(current, &mut exm);
                    let mut gm = groups;
                    core::mem::swap(path, &mut gm);
                    proof {
                        let post = SpecBuildState {
                            tree: value_view(*tree),
                            path: path.deep_view(),
                            current: current@,
                            multikey: match multikey {
                                Some(k) => Some(k@),
                                None => None,
                            },
                            acc: acc@,
                            backslash: *backslash,
                        };
                        assert(spec_build_line(pre, line@) matches Ok(st2) && st2 =~= post);
                    }
                    None
                },
                Err(k) => {
                    proof {
                        assert(spec_build_line(pre, line@) matches Err(c)
                            && spec_matches_fail(k, c));
                    }
                    Some(k)
                },
            }
        } else if tline[0] == '{' {
            if tline[tlen - 1] != '}' {
                return Some(ErrKind::LineBreakInInlineObject);
            }
            let ls = chars_string(&tline);
            proof {
                crate::strutil::lemma_trim_idempotent(line@);
            }
            let filled = d.load_inline_object(ls.as_str(), current);
            match filled {
                Ok(p) => {
                    proof {
                        let post = SpecBuildState {
                            tree: value_view(*tree),
                            path: path.deep_view(),
                            current: current@,
                            multikey: match multikey {
                                Some(k) => Some(k@),
                                None => None,
                            },
                            acc: acc@,
                            backslash: *backslash,
                        };
                        assert(spec_build_line(pre, line@) matches Ok(st2) && st2 =~= post);
                    }
                    None
                },
                Err(k) => Some(k),
            }
        } else if crate::strutil::contains_char(&tline, '=') {
            let ls = chars_string(&tline);
            let handled = d.load_line(ls.as_str(), current);
            match handled {
                Ok(None) => {
                    proof {
                        let post = SpecBuildState {
                            tree: value_view(*tree),
                            path: path.deep_view(),
                            current: current@,
                            multikey: match multikey {
                                Some(k) => Some(k@),
                                None => None,
                            },
                            acc: acc@,
                            backslash: *backslash,
                        };
                        assert(spec_build_line(pre, line@) matches Ok(st2) && st2 =~= post);
                    }
                    None
                },
                Ok(Some((mk, macc, mb))) => {
                    *multikey = Some(mk);
                    *acc = str_chars(macc.as_str());
                    *backslash = mb;
                    proof {
                        let post = SpecBuildState {
                            tree: value_view(*tree),
                            path: path.deep_view(),
                            current: current@,
                            multikey: match multikey {
                                Some(k) => Some(k@),
                                None => None,
                            },
                            acc: acc@,
                            backslash: *backslash,
                        };
                        assert(spec_build_line(pre, line@) matches Ok(st2) && st2 =~= post);
                    }
                    None
                },
                Err(k) => Some(k),
            }
        } else {
            proof {
                assert(spec_build_line(pre, line@) == Ok::<_, SpecFailCause>(pre));
            }
            None
        }
    }
}

/// Decodes a whole document: the scanner masks the text and collects
/// comments, then the builder walks the lines, processing headers,
/// key/value lines, inline objects and multiline accumulations, with
/// the overlay wrapping commented values when the decoder preserves
/// comments, and the parsing tags cleared from the returned tree.
///
/// The result is exactly the document's decode: on success the returned
/// table equals it; on failure the decode fails with the returned
/// error's cause at its offset, and the stored line and column agree
/// with an independent count up to that offset.
/// Walks the builder over all lines, mirroring `spec_build` from the
/// state the variables hold on entry.
#[verifier::loop_isolation(false)]
#[verifier::rlimit(100)]
fn run_lines(
    d: &TomlDecoder,
    lines: &Vec<Vec<char>>,
    tree: &mut Value,
    path: &mut Vec<String>,
    current: &mut Table,
    multikey: &mut Option<String>,
    acc: &mut Vec<char>,
    backslash: &mut bool,
    pos: &mut usize,
    cap: usize,
    Ghost(glines): Ghost<Seq<Seq<char>>>,
    Ghost(gsaved): Ghost<Seq<SpecCommentRecord>>,
    Ghost(gpreserve): Ghost<bool>,
) -> (r: Option<(ErrKind, usize)>)
    requires
        lines@.len() == glines.len(),
        forall|k: int| 0 <= k < lines@.len() ==> (#[trigger] lines@[k])@ == glines[k],
        value_view(*old(tree)) is Table,
        spec_path_to_table(value_view(*old(tree)), old(path).deep_view(), 0),
        *old(pos) <= cap,
        d.comment_decoder is Some <==> gpreserve,
        (d.comment_decoder matches Some(dd) ==> dd@ == gsaved),
    ensures
        ({
            let pre = spec_cur_state(
                *old(tree),
                *old(path),
                *old(current),
                *old(multikey),
                *old(acc),
                *old(backslash),
            );
            let post = spec_cur_state(
                *final(tree),
                *final(path),
                *final(current),
                *final(multikey),
                *final(acc),
                *final(backslash),
            );
            let run = spec_build(
                glines,
                0,
                pre,
                *old(pos) as int,
                gsaved,
                gpreserve,
                cap as int,
            );
            &&& (r is None ==> (run == Ok::<_, (SpecFailCause, int)>((post, *final(pos) as int))
                && value_view(*final(tree)) is Table && spec_path_to_table(
                value_view(*final(tree)),
                final(path).deep_view(),
                0,
            ) && *final(pos) <= cap))
            &&& (r matches Some(p) ==> (run matches Err(f) && spec_kind_msg(p.0) == spec_fail_msg(
                f.0,
            ) && f.1 == p.1 as int && p.1 <= cap))
        }),
{
    let nlines = lines.len();
    let mut idx: usize = 0;
    while idx < nlines
        invariant
            0 <= idx <= nlines == lines@.len(),
            value_view(*tree) is Table,
            spec_path_to_table(value_view(*tree), path.deep_view(), 0),
            *pos <= cap,
            spec_build(
                glines,
                0,
                spec_cur_state(
                    *old(tree),
                    *old(path),
                    *old(current),
                    *old(multikey),
                    *old(acc),
                    *old(backslash),
                ),
                *old(pos) as int,
                gsaved,
                gpreserve,
                cap as int,
            ) == spec_build(
                glines,
                idx as int,
                spec_cur_state(*tree, *path, *current, *multikey, *acc, *backslash),
                *pos as int,
                gsaved,
                gpreserve,
                cap as int,
            ),
        decreases nlines - idx,
    {
        let ghost st_pre = spec_cur_state(*tree, *path, *current, *multikey, *acc, *backslash);
        let ghost pos_pre = *pos as int;
        if idx > 0 {
            *pos = advance_pos(*pos, lines[idx - 1].len(), cap);
            d.embed_comments(idx, current);
        }
        let ghost st1 = SpecBuildState { current: current@, ..st_pre };
        let ghost pos1 = *pos as int;
        proof {
            assert(glines[idx as int] == lines@[idx as int]@);
            if idx > 0 {
                assert(glines[idx - 1] == lines@[idx - 1]@);
                assert(pos1 == spec_advance(pos_pre, glines[idx - 1].len() as int, cap as int));
                if gpreserve {
                    assert(st1.current == spec_embed(gsaved, idx as int, st_pre.current));
                } else {
                    assert(st1.current == st_pre.current);
                }
            } else {
                assert(pos1 == pos_pre);
                assert(st1 =~= st_pre);
            }
        }
        let r = build_line_exec(d, tree, path, current, multikey, acc, backslash, &lines[idx]);
        match r {
            Some(e) => {
                proof {
                    assert(spec_build_line(st1, glines[idx as int]) matches Err(c)
                        && spec_matches_fail(e, c) && spec_kind_msg(e) == spec_fail_msg(c));
                    assert(spec_build(glines, idx as int, st_pre, pos_pre, gsaved, gpreserve,
                        cap as int) matches Err(f) && f.1 == pos1 && spec_kind_msg(e)
                        == spec_fail_msg(f.0));
                }
                return Some((e, *pos));
            },
            None => {},
        }
        proof {
            let st_post = spec_cur_state(*tree, *path, *current, *multikey, *acc, *backslash);
            assert(spec_build_line(st1, glines[idx as int]) matches Ok(st2) && st2 == st_post);
            assert(spec_build(glines, idx as int, st_pre, pos_pre, gsaved, gpreserve, cap as int)
                == spec_build(glines, idx + 1, st_post, pos1, gsaved, gpreserve, cap as int));
        }
        idx += 1;
    }
    None
}

/// Decodes a whole document: the scanner masks the text and collects
/// comments, then the builder walks the lines, processing headers,
/// key/value lines, inline objects and multiline accumulations, with
/// the overlay wrapping commented values when the decoder preserves
/// comments, and the parsing tags cleared from the returned tree.
///
/// The result is exactly the document's decode: on success the returned
/// table equals it; on failure the decode fails with the returned
/// error's cause at its offset, and the stored line and column agree
/// with an independent count up to that offset.
#[verifier::loop_isolation(false)]
#[verifier::rlimit(100)]
pub fn loads(s: &str, decoder: &mut TomlDecoder) -> (r: Result<Table, TomlDecodeError>)
    ensures
        ({
            let preserve = old(decoder).comment_decoder is Some;
            let saved0 = match old(decoder).comment_decoder {
                Some(d) => d@,
                None => Seq::empty(),
            };
            &&& (r matches Ok(t) ==> spec_decode(s@, preserve, saved0) == Ok::<
                _,
                (SpecFailCause, int),
            >(t@))
            &&& (r matches Err(e) ==> (spec_decode(s@, preserve, saved0) matches Err(f) && e.msg@
                == spec_fail_msg(f.0) && e.pos as int == f.1 && e.located_in(s@)))
        }),
{
    let ghost preserve = decoder.comment_decoder is Some;
    let ghost gsaved0: Seq<SpecCommentRecord> = match &decoder.comment_decoder {
        Some(d) => d@,
        None => Seq::empty(),
    };
    let chars = str_chars(s);
    let nchars = chars.len();
    let scanned = scan(chars);
    let (buf, records) = match scanned {
        Err((kind, pos)) => {
            let e = mk_err(&kind, s, pos, nchars);
            return Err(e);
        },
        Ok(p) => p,
    };
    let ghost grecords = spec_scan(s@).0.records;
    let ghost gsaved: Seq<SpecCommentRecord> = if preserve {
        spec_feed(grecords, 0, gsaved0)
    } else {
        Seq::empty()
    };
    if decoder.comment_decoder.is_some() {
        let mut ri: usize = 0;
        let nrec = records.len();
        while ri < nrec
            invariant
                0 <= ri <= nrec == records@.len(),
                decoder.comment_decoder matches Some(dd) && spec_feed(grecords, ri as int, dd@)
                    == gsaved,
            decreases nrec - ri,
        {
            let key = clone_string(&records[ri].key);
            let text = clone_string(&records[ri].text);
            decoder.preserve_comment(records[ri].line, key, text, records[ri].beginline);
            proof {
                assert(records@[ri as int]@ == grecords[ri as int]);
            }
            ri += 1;
        }
    }
    proof {
        if preserve {
            assert(decoder.comment_decoder matches Some(dd) && dd@ == gsaved);
        }
    }
    let lines = split_newlines(&buf);
    let nlines = lines.len();
    let ghost glines = spec_split_nl(spec_scan(s@).1);
    let mut tree: Value = mk_table_value(Table::new());
    let mut path: Vec<String> = Vec::new();
    let mut current: Table = Table::new();
    let mut multikey: Option<String> = None;
    let mut multiline_acc: Vec<char> = Vec::new();
    let mut multibackslash: bool = false;
    let mut pos: usize = 0;
    proof {
        let st0 = spec_cur_state(tree, path, current, multikey, multiline_acc, multibackslash);
        assert(tree@ matches SpecValue::Table(t0) && t0.entries =~= Seq::<(
            Seq<char>,
            SpecValue,
        )>::empty());
        assert(current@.entries =~= Seq::<(Seq<char>, SpecValue)>::empty());
        assert(path.deep_view() =~= Seq::<Seq<char>>::empty());
        assert(multiline_acc@ =~= Seq::<char>::empty());
        assert(st0 =~= spec_build_init());
        assert(spec_path_to_table(value_view(tree), path.deep_view(), 0));
    }
    let run = run_lines(
        &*decoder,
        &lines,
        &mut tree,
        &mut path,
        &mut current,
        &mut multikey,
        &mut multiline_acc,
        &mut multibackslash,
        &mut pos,
        nchars,
        Ghost(glines),
        Ghost(gsaved),
        Ghost(preserve),
    );
    match run {
        Some((e, epos)) => {
            proof {
                assert(spec_decode(s@, preserve, gsaved0) matches Err(f) && spec_kind_msg(e)
                    == spec_fail_msg(f.0) && f.1 == epos as int);
            }
            return Err(mk_err(&e, s, epos, nchars));
        },
        None => {},
    }
    let ghost stf = spec_cur_state(tree, path, current, multikey, multiline_acc, multibackslash);
    if multikey.is_some() {
        proof {
            assert(spec_decode(s@, preserve, gsaved0) matches Err(f) && f.0 == SpecFailCause::Plain(
                ErrKind::UnterminatedMultiline,
            ) && f.1 == nchars as int);
        }
        return Err(mk_err(&ErrKind::UnterminatedMultiline, s, nchars, nchars));
    }
    decoder.embed_comments(nlines, &mut current);
    let ghost cur2 = current@;
    proof {
        if preserve {
            assert(cur2 == spec_embed(gsaved, glines.len() as int, stf.current));
        } else {
            assert(cur2 == stf.current);
        }
    }
    let finished = put_back(tree, &path, 0, current);
    proof {
        crate::tree::lemma_put_root_is_table(stf.tree, stf.path, cur2);
        assert(value_view(finished) == spec_put(stf.tree, stf.path, 0, cur2));
        assert(spec_decode(s@, preserve, gsaved0) == Ok::<_, (SpecFailCause, int)>(
            crate::value::spec_clear_table(spec_put(stf.tree, stf.path, 0, cur2)->Table_0),
        ));
    }
    match finished {
        Value::Table(t) => {
            let cleared = crate::value::clear_table(t);
            proof {
                assert(spec_decode(s@, preserve, gsaved0) == Ok::<_, (SpecFailCause, int)>(cleared@));
            }
            Ok(cleared)
        },
        other => {
            proof {
                lemma_view_table_shape(other);
                assert(false);
            }
            Ok(Table::new())
        },
    }
}

/// Replacing the table at the end of a path below a table root yields a
/// The segments of `s[i..]` between quote boundaries, the quote
/// characters themselves removed; segments alternate between text
/// outside quotes, which is trimmed, and the exact text inside.
pub open spec fn spec_split_quotes_rec(
    s: Seq<char>,
    i: int,
    q: Option<char>,
    cur: Seq<char>,
    acc: Seq<Seq<char>>,
) -> Seq<Seq<char>>
    decreases s.len() - i,
{
    if i < 0 || i >= s.len() {
        acc.push(
            if q is None {
                spec_trim(cur)
            } else {
                cur
            },
        )
    } else {
        let c = s[i];
        match q {
            None => if c == '"' || c == '\'' {
                spec_split_quotes_rec(s, i + 1, Some(c), Seq::empty(), acc.push(spec_trim(cur)))
            } else {
                spec_split_quotes_rec(s, i + 1, None, cur.push(c), acc)
            },
            Some(x) => if c == x {
                spec_split_quotes_rec(s, i + 1, None, Seq::empty(), acc.push(cur))
            } else {
                spec_split_quotes_rec(s, i + 1, Some(x), cur.push(c), acc)
            },
        }
    }
}

/// The quote-boundary segments of `s`.
pub open spec fn spec_split_quotes(s: Seq<char>) -> Seq<Seq<char>> {
    spec_split_quotes_rec(s, 0, None, Seq::empty(), Seq::empty())
}

} // verus!


