//! Key handling for key/value lines and inline tables: splitting a dotted
//! key on its unquoted dots, normalizing quoted segments, and inserting a
//! value along the segment path, creating implicit intermediate tables.

use vstd::prelude::*;
use crate::error::ErrKind;
use crate::escape::spec_unescape;
use crate::split::spec_quote_step;
use crate::strutil::{spec_trim, trim};
use crate::value::{
    lemma_set_preserves_wf, spec_get, spec_has_key, spec_index_of, spec_set, spec_table_wf,
    spec_value_wf, SpecCommentValue, SpecTable, SpecValue, Table, Value, value_view, table_view,
};

verus! {

/// The pieces of `s[i..]` split on dots outside quoted segments.
pub open spec fn spec_split_dots_rec(
    s: Seq<char>,
    i: int,
    q: Option<char>,
    cur: Seq<char>,
    acc: Seq<Seq<char>>,
) -> Seq<Seq<char>>
    decreases s.len() - i,
{
    if i < 0 || i >= s.len() {
        acc.push(cur)
    } else {
        let c = s[i];
        if q is None && c == '.' {
            spec_split_dots_rec(s, i + 1, q, Seq::empty(), acc.push(cur))
        } else {
            spec_split_dots_rec(s, i + 1, spec_quote_step(q, c), cur.push(c), acc)
        }
    }
}

/// The pieces of `s` split on its unquoted dots.
pub open spec fn spec_split_dots(s: Seq<char>) -> Seq<Seq<char>> {
    spec_split_dots_rec(s, 0, None, Seq::empty(), Seq::empty())
}

proof fn lemma_split_dots_rec_grows(
    s: Seq<char>,
    i: int,
    q: Option<char>,
    cur: Seq<char>,
    acc: Seq<Seq<char>>,
)
    ensures
        spec_split_dots_rec(s, i, q, cur, acc).len() > acc.len(),
    decreases s.len() - i,
{
    if 0 <= i && i < s.len() {
        let c = s[i];
        if q is None && c == '.' {
            lemma_split_dots_rec_grows(s, i + 1, q, Seq::empty(), acc.push(cur));
        } else {
            lemma_split_dots_rec_grows(s, i + 1, crate::split::spec_quote_step(q, c), cur.push(c), acc);
        }
    }
}

/// A dot split always yields at least one piece.
pub proof fn lemma_split_dots_nonempty(s: Seq<char>)
    ensures
        spec_split_dots(s).len() > 0,
{
    lemma_split_dots_rec_grows(s, 0, None, Seq::empty(), Seq::empty());
}

/// Splits `s` on its unquoted dots.
pub fn split_dots(s: &Vec<char>) -> (r: Vec<Vec<char>>)
    ensures
        r@.len() == spec_split_dots(s@).len(),
        forall|k: int| 0 <= k < r@.len() ==> (#[trigger] r@[k])@ == spec_split_dots(s@)[k],
{
    let slen = s.len();
    let mut i: usize = 0;
    let mut q: Option<char> = None;
    let mut cur: Vec<char> = Vec::new();
    let mut acc: Vec<Vec<char>> = Vec::new();
    let ghost mut gacc: Seq<Seq<char>> = Seq::empty();
    proof {
        assert(cur@ =~= Seq::<char>::empty());
    }
    while i < slen
        invariant
            0 <= i <= slen == s@.len(),
            spec_split_dots(s@) == spec_split_dots_rec(s@, i as int, q, cur@, gacc),
            gacc.len() == acc@.len(),
            forall|k: int| 0 <= k < acc@.len() ==> (#[trigger] acc@[k])@ == gacc[k],
        decreases slen - i,
    {
        let c = s[i];
        if q.is_none() && c == '.' {
            let done = cur;
            cur = Vec::new();
            proof {
                gacc = gacc.push(done@);
            }
            acc.push(done);
            proof {
                assert(cur@ =~= Seq::<char>::empty());
            }
        } else {
            q = match q {
                None => if c == '"' || c == '\'' {
                    Some(c)
                } else {
                    None
                },
                Some(x) => if c == x {
                    None
                } else {
                    Some(x)
                },
            };
            cur.push(c);
        }
        i += 1;
    }
    proof {
        gacc = gacc.push(cur@);
    }
    acc.push(cur);
    acc
}

/// A trimmed key segment with a surrounding matched pair of quotes
/// removed.
pub open spec fn spec_norm_seg(piece: Seq<char>) -> Seq<char> {
    let t = spec_trim(piece);
    if t.len() >= 2 && (t[0] == '"' || t[0] == '\'') && t.last() == t[0] {
        t.subrange(1, t.len() - 1)
    } else {
        t
    }
}

/// The path named by a key: a dotted key splits on its unquoted dots into
/// normalized segments, empty segments dropped; an undotted key quoted as
/// a whole is unquoted and unescaped. An undotted empty key names the
/// empty-string key.
pub open spec fn spec_key_segments(k: Seq<char>) -> Result<Seq<Seq<char>>, ErrKind> {
    if !k.contains('.') {
        if k.len() >= 2 && (k[0] == '"' || k[0] == '\'') && k.last() == k[0] {
            match spec_unescape(k.subrange(1, k.len() - 1)) {
                Ok(inner) => Ok(seq![inner]),
                Err(e) => Err(e),
            }
        } else {
            Ok(seq![k])
        }
    } else {
        let segs = spec_split_dots(k).map_values(|p: Seq<char>| spec_norm_seg(p)).filter(
            |p: Seq<char>| p.len() > 0,
        );
        if segs.len() == 0 {
            Err(ErrKind::EmptyKeyname)
        } else {
            Ok(segs)
        }
    }
}

/// Splits and normalizes a trimmed key into its path segments.
pub fn key_segments(k: &Vec<char>) -> (r: Result<Vec<String>, ErrKind>)
    ensures
        r matches Ok(v) ==> (spec_key_segments(k@) matches Ok(ss) && v@.len() == ss.len() && (
        forall|i: int| 0 <= i < v@.len() ==> (#[trigger] v@[i])@ == ss[i]) && v@.len() > 0),
        r matches Err(e) ==> spec_key_segments(k@) == Err::<Seq<Seq<char>>, _>(e),
{
    if !crate::strutil::contains_char(k, '.') {
        let klen = k.len();
        if klen >= 2 && (k[0] == '"' || k[0] == '\'') && k[klen - 1] == k[0] {
            proof {
                assert(k@.last() == k@[k@.len() - 1]);
            }
            let inner = crate::strutil::subvec(k, 1, klen - 1);
            proof {
                assert(inner@.skip(0) =~= k@.subrange(1, k@.len() - 1));
            }
            match crate::escape::unescape_from(&inner, 0) {
                Ok(u) => {
                    let mut out: Vec<String> = Vec::new();
                    out.push(crate::strutil::chars_string(&u));
                    Ok(out)
                },
                Err(e) => Err(e),
            }
        } else {
            let mut out: Vec<String> = Vec::new();
            out.push(crate::strutil::chars_string(k));
            Ok(out)
        }
    } else {
        let pieces = split_dots(k);
        let mut out: Vec<String> = Vec::new();
        let ghost all = spec_split_dots(k@).map_values(|p: Seq<char>| spec_norm_seg(p));
        let ghost pred = |p: Seq<char>| p.len() > 0;
        let mut i: usize = 0;
        proof {
            assert(all.take(0) =~= Seq::<Seq<char>>::empty());
            assert(all.take(0).filter(pred) =~= Seq::<Seq<char>>::empty());
        }
        while i < pieces.len()
            invariant
                0 <= i <= pieces@.len(),
                pieces@.len() == spec_split_dots(k@).len(),
                forall|j: int|
                    0 <= j < pieces@.len() ==> (#[trigger] pieces@[j])@ == spec_split_dots(k@)[j],
                all == spec_split_dots(k@).map_values(|p: Seq<char>| spec_norm_seg(p)),
                pred == (|p: Seq<char>| p.len() > 0),
                out@.len() == all.take(i as int).filter(pred).len(),
                forall|j: int|
                    0 <= j < out@.len() ==> (#[trigger] out@[j])@ == all.take(i as int).filter(
                        pred,
                    )[j],
            decreases pieces@.len() - i,
        {
            let t = trim(&pieces[i]);
            let tlen = t.len();
            let norm: Vec<char> = if tlen >= 2 && (t[0] == '"' || t[0] == '\'') && t[tlen - 1]
                == t[0] {
                proof {
                    assert(t@.last() == t@[t@.len() - 1]);
                }
                crate::strutil::subvec(&t, 1, tlen - 1)
            } else {
                t
            };
            proof {
                assert(norm@ == spec_norm_seg(pieces@[i as int]@));
                assert(all[i as int] == spec_norm_seg(spec_split_dots(k@)[i as int]));
                assert(all.take(i + 1).drop_last() =~= all.take(i as int));
                assert(all.take(i + 1).last() == all[i as int]);
                all.take(i + 1).drop_last().lemma_filter_push(all.take(i + 1).last(), pred);
                assert(all.take(i + 1) =~= all.take(i as int).push(all[i as int]));
            }
            if norm.len() > 0 {
                out.push(crate::strutil::chars_string(&norm));
            }
            i += 1;
            proof {
                assert(all.take(i as int).filter(pred) == if pred(all[i - 1]) {
                    all.take(i - 1).filter(pred).push(all[i - 1])
                } else {
                    all.take(i - 1).filter(pred)
                });
            }
        }
        proof {
            assert(all.take(pieces@.len() as int) =~= all);
        }
        if out.len() == 0 {
            Err(ErrKind::EmptyKeyname)
        } else {
            Ok(out)
        }
    }
}

/// `t` after binding the path `segs[i..]` to `v`: intermediate segments
/// descend into existing tables — through comment wrappers, exactly as
/// the header walk does — or create fresh implicit ones; a final segment
/// that is already bound, or an intermediate one bound to anything else,
/// is a duplicate key.
pub open spec fn spec_insert_dotted(
    t: SpecTable,
    segs: Seq<Seq<char>>,
    i: int,
    v: SpecValue,
) -> Result<SpecTable, ErrKind>
    decreases segs.len() - i, t,
{
    if i < 0 || i >= segs.len() {
        Err(ErrKind::EmptyKeyname)
    } else if i == segs.len() - 1 {
        if spec_has_key(t, segs[i]) {
            Err(ErrKind::DuplicateKeys)
        } else {
            Ok(spec_set(t, segs[i], v))
        }
    } else {
        if spec_has_key(t, segs[i]) {
            match spec_insert_under(spec_get(t, segs[i]), segs, i + 1, v) {
                Ok(w) => Ok(spec_set(t, segs[i], w)),
                Err(e) => Err(e),
            }
        } else {
            let fresh = SpecTable { entries: Seq::empty(), implicit: true };
            match spec_insert_dotted(fresh, segs, i + 1, v) {
                Ok(sub2) => Ok(spec_set(t, segs[i], SpecValue::Table(sub2))),
                Err(e) => Err(e),
            }
        }
    }
}

/// Binding continued inside the value an intermediate segment names: a
/// table takes the remaining path; a comment wrapper is transparent, the
/// updated value is wrapped again; anything else is a duplicate key.
pub open spec fn spec_insert_under(
    w: SpecValue,
    segs: Seq<Seq<char>>,
    i: int,
    v: SpecValue,
) -> Result<SpecValue, ErrKind>
    decreases segs.len() - i, w,
{
    if i < 0 || i >= segs.len() {
        Err(ErrKind::EmptyKeyname)
    } else {
        match w {
            SpecValue::Table(sub) => match spec_insert_dotted(sub, segs, i, v) {
                Ok(sub2) => Ok(SpecValue::Table(sub2)),
                Err(e) => Err(e),
            },
            SpecValue::Commented(c) => match spec_insert_under(*c.val, segs, i, v) {
                Ok(w2) => Ok(SpecValue::Commented(SpecCommentValue { val: Box::new(w2), ..c })),
                Err(e) => Err(e),
            },
            _ => Err(ErrKind::DuplicateKeys),
        }
    }
}

/// Continues a dotted insertion inside the value an intermediate
/// segment names, descending through comment wrappers; a failure changes
/// nothing.
pub fn insert_under(w: &mut Value, segs: &Vec<String>, i: usize, v: Value) -> (r: Result<
    (),
    ErrKind,
>)
    requires
        i < segs@.len(),
    ensures
        r matches Ok(p) ==> spec_insert_under(
            value_view(*old(w)),
            segs.deep_view(),
            i as int,
            value_view(v),
        ) == Ok::<_, ErrKind>(value_view(*final(w))),
        r matches Err(e) ==> spec_insert_under(
            value_view(*old(w)),
            segs.deep_view(),
            i as int,
            value_view(v),
        ) == Err::<SpecValue, _>(e) && value_view(*final(w)) == value_view(*old(w)),
    decreases segs@.len() - i, *w,
{
    match w {
        Value::Table(sub) => {
            let r = insert_dotted(sub, segs, i, v);
            proof {
                if r is Ok {
                    assert(value_view(*w) =~= SpecValue::Table(sub@));
                    assert(spec_insert_under(
                        value_view(*old(w)),
                        segs.deep_view(),
                        i as int,
                        value_view(v),
                    ) == Ok::<_, ErrKind>(value_view(*w)));
                } else {
                    assert(value_view(*w) =~= value_view(*old(w)));
                }
            }
            r
        },
        Value::Commented(c) => {
            let r = insert_under(&mut *c.val, segs, i, v);
            proof {
                if r is Ok {
                    assert(value_view(*w) =~= SpecValue::Commented(
                        SpecCommentValue {
                            val: Box::new(value_view(*c.val)),
                            comment: c.comment@,
                            beginline: c.beginline,
                        },
                    ));
                    assert(spec_insert_under(
                        value_view(*old(w)),
                        segs.deep_view(),
                        i as int,
                        value_view(v),
                    ) matches Ok(w2) && w2 =~= value_view(*w));
                } else {
                    assert(value_view(*w) =~= value_view(*old(w)));
                }
            }
            r
        },
        _ => Err(ErrKind::DuplicateKeys),
    }
}

/// A key already bound at its level is always a duplicate-key failure:
/// for every table, every key path whose final segment is bound in the
/// table it lands in, and every value, the insertion reports exactly the
/// duplicate-key cause.
pub proof fn lemma_duplicate_key_always_errors(
    t: SpecTable,
    segs: Seq<Seq<char>>,
    i: int,
    v: SpecValue,
)
    requires
        0 <= i < segs.len(),
        i == segs.len() - 1,
        spec_has_key(t, segs[i]),
    ensures
        spec_insert_dotted(t, segs, i, v) == Err::<SpecTable, ErrKind>(ErrKind::DuplicateKeys),
{
}

/// The table invariant survives every key/value insertion: starting from
/// a table whose keys are unique at every level, inserting a well-formed
/// value along any key path yields a table whose keys are still unique
/// at every level.
pub proof fn lemma_insert_dotted_preserves_wf(
    t: SpecTable,
    segs: Seq<Seq<char>>,
    i: int,
    v: SpecValue,
)
    requires
        spec_table_wf(t),
        spec_value_wf(v),
        0 <= i < segs.len(),
        spec_insert_dotted(t, segs, i, v) is Ok,
    ensures
        spec_table_wf(spec_insert_dotted(t, segs, i, v)->Ok_0),
    decreases segs.len() - i, t,
{
    if i == segs.len() - 1 {
        lemma_set_preserves_wf(t, segs[i], v);
    } else {
        if spec_has_key(t, segs[i]) {
            let w = spec_get(t, segs[i]);
            crate::value::lemma_index_of_properties(t.entries, segs[i]);
            assert(spec_value_wf(w));
            lemma_insert_under_preserves_wf(w, segs, i + 1, v);
            let w2 = spec_insert_under(w, segs, i + 1, v)->Ok_0;
            lemma_set_preserves_wf(t, segs[i], w2);
        } else {
            let fresh = SpecTable { entries: Seq::empty(), implicit: true };
            assert(spec_table_wf(fresh));
            lemma_insert_dotted_preserves_wf(fresh, segs, i + 1, v);
            let sub2 = spec_insert_dotted(fresh, segs, i + 1, v)->Ok_0;
            lemma_set_preserves_wf(t, segs[i], SpecValue::Table(sub2));
        }
    }
}

/// The continued binding keeps a well-formed value well-formed.
pub proof fn lemma_insert_under_preserves_wf(
    w: SpecValue,
    segs: Seq<Seq<char>>,
    i: int,
    v: SpecValue,
)
    requires
        spec_value_wf(w),
        spec_value_wf(v),
        0 <= i < segs.len(),
        spec_insert_under(w, segs, i, v) is Ok,
    ensures
        spec_value_wf(spec_insert_under(w, segs, i, v)->Ok_0),
    decreases segs.len() - i, w,
{
    match w {
        SpecValue::Table(sub) => {
            lemma_insert_dotted_preserves_wf(sub, segs, i, v);
        },
        SpecValue::Commented(c) => {
            lemma_insert_under_preserves_wf(*c.val, segs, i, v);
        },
        _ => {},
    }
}

/// Inserts `v` under the path `segs[i..]` of `t`; a failed insertion
/// changes nothing.
pub fn insert_dotted(t: &mut Table, segs: &Vec<String>, i: usize, v: Value) -> (r: Result<
    (),
    ErrKind,
>)
    requires
        i < segs@.len(),
    ensures
        r matches Ok(p) ==> spec_insert_dotted(old(t)@, segs.deep_view(), i as int, value_view(v))
            == Ok::<_, ErrKind>(final(t)@),
        r matches Err(e) ==> spec_insert_dotted(old(t)@, segs.deep_view(), i as int, value_view(v))
            == Err::<SpecTable, _>(e) && final(t)@ == old(t)@,
    decreases segs@.len() - i, *t,
{
    let nsegs = segs.len();
    let key = &segs[i];
    proof {
        assert(segs.deep_view()[i as int] == segs@[i as int]@);
    }
    if i + 1 == nsegs {
        if t.contains_key(key) {
            Err(ErrKind::DuplicateKeys)
        } else {
            t.set(key.clone(), v);
            Ok(())
        }
    } else {
        let found = t.find(key);
        match found {
            Some(idx) => {
                proof {
                    crate::value::lemma_index_of_properties(t@.entries, key@);
                    assert(t@.entries[idx as int]
                        == (t.entries@[idx as int].0@, value_view(t.entries@[idx as int].1)));
                    assert(spec_get(t@, key@) == value_view(t.entries@[idx as int].1));
                }
                let r: Result<(), ErrKind> = {
                    let entry = &mut t.entries[idx];
                    insert_under(&mut entry.1, segs, i + 1, v)
                };
                proof {
                    if r is Ok {
                        assert(t@.entries =~= spec_set(
                            old(t)@,
                            segs@[i as int]@,
                            value_view(t.entries@[idx as int].1),
                        ).entries);
                    } else {
                        assert(t@.entries =~= old(t)@.entries);
                        assert(t@ =~= old(t)@);
                    }
                }
                r
            },
            None => {
                let mut sub = Table { entries: Vec::new(), implicit: true };
                proof {
                    assert(sub@.entries =~= Seq::<(Seq<char>, SpecValue)>::empty());
                    assert(sub@ =~= SpecTable { entries: Seq::empty(), implicit: true });
                }
                let r = insert_dotted(&mut sub, segs, i + 1, v);
                match r {
                    Ok(p) => {
                        t.set(key.clone(), Value::Table(sub));
                        Ok(())
                    },
                    Err(e) => Err(e),
                }
            },
        }
    }
}

} // verus!
