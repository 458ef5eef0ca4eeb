//! The table builder's tree operations: walking or creating the path a
//! header names, extracting the table the cursor points at, and writing
//! it back, together with the parsing of header lines.

use vstd::prelude::*;
use crate::error::ErrKind;
use crate::key::{spec_split_dots, split_dots};
use crate::strutil::{spec_trim, subvec, trim};
use crate::value::{
    lemma_index_of_properties, lemma_set_get, spec_get, spec_has_key, spec_set, SpecTable,
    SpecValue, Table, Value, value_view, SpecCommentValue, CommentValue,
};

verus! {

/// Whether the path `path[i..]` leads from `v` to a table: comment
/// wrappers are transparent, an array stands for its last element, and a
/// table consumes one segment.
pub open spec fn spec_path_to_table(v: SpecValue, path: Seq<Seq<char>>, i: int) -> bool
    decreases path.len() - i, v,
{
    match v {
        SpecValue::Commented(c) => spec_path_to_table(*c.val, path, i),
        SpecValue::Array(items) => items.len() > 0 && spec_path_to_table(items.last(), path, i),
        SpecValue::Table(t) => if i >= path.len() {
            true
        } else {
            spec_has_key(t, path[i]) && spec_path_to_table(spec_get(t, path[i]), path, i + 1)
        },
        _ => false,
    }
}

/// `v` with the table at the end of `path[i..]` replaced by `nt`.
pub open spec fn spec_put(v: SpecValue, path: Seq<Seq<char>>, i: int, nt: SpecTable) -> SpecValue
    decreases path.len() - i, v,
{
    match v {
        SpecValue::Commented(c) => SpecValue::Commented(
            SpecCommentValue { val: Box::new(spec_put(*c.val, path, i, nt)), ..c },
        ),
        SpecValue::Array(items) => if items.len() > 0 {
            SpecValue::Array(
                items.update(items.len() - 1, spec_put(items.last(), path, i, nt)),
            )
        } else {
            v
        },
        SpecValue::Table(t) => if i >= path.len() {
            SpecValue::Table(nt)
        } else if spec_has_key(t, path[i]) {
            SpecValue::Table(spec_set(t, path[i], spec_put(spec_get(t, path[i]), path, i + 1, nt)))
        } else {
            v
        },
        _ => v,
    }
}

/// Writes `sub` back at the end of `path[i..]` of `v`.
pub fn put_back(v: Value, path: &Vec<String>, i: usize, sub: Table) -> (r: Value)
    requires
        i <= path@.len(),
        spec_path_to_table(value_view(v), path.deep_view(), i as int),
    ensures
        value_view(r) == spec_put(value_view(v), path.deep_view(), i as int, sub@),
    decreases path@.len() - i, v,
{
    match v {
        Value::Commented(c) => {
            let CommentValue { val, comment, beginline } = c;
            let inner = put_back(*val, path, i, sub);
            let r = crate::value::mk_commented_value(
                CommentValue { val: Box::new(inner), comment, beginline },
            );
            proof {
                assert(value_view(r) =~= spec_put(value_view(v), path.deep_view(), i as int, sub@));
            }
            r
        },
        Value::Array(mut items) => {
            let n = items.len();
            proof {
                assert(value_view(v) matches SpecValue::Array(its) && its.len() == items@.len());
            }
            let ghost old_items = items@;
            let last = items.remove(n - 1);
            let newlast = put_back(last, path, i, sub);
            items.push(newlast);
            proof {
                assert(items@ =~= old_items.update(old_items.len() - 1, newlast));
            }
            let r = crate::value::mk_array_value(items);
            proof {
                let sv = value_view(v)->Array_0;
                assert(sv.last() == value_view(old_items.last()));
                assert(value_view(r)->Array_0 =~= sv.update(
                    sv.len() - 1,
                    spec_put(sv.last(), path.deep_view(), i as int, sub@),
                ));
                assert(value_view(r) =~= spec_put(value_view(v), path.deep_view(), i as int, sub@));
            }
            r
        },
        Value::Table(mut t) => {
            let ghost ov = t@;
            proof {
                assert(value_view(v) == SpecValue::Table(ov));
            }
            if i == path.len() {
                let r = crate::value::mk_table_value(sub);
                proof {
                    assert(value_view(r) =~= spec_put(
                        value_view(v),
                        path.deep_view(),
                        i as int,
                        sub@,
                    ));
                }
                r
            } else {
                let key = &path[i];
                proof {
                    assert(path.deep_view()[i as int] == path@[i as int]@);
                }
                let found = t.find(key);
                match found {
                    Some(idx) => {
                        let ghost oldents = t.entries@;
                        proof {
                            lemma_index_of_properties(ov.entries, key@);
                            assert(ov.entries[idx as int]
                                == (oldents[idx as int].0@, value_view(oldents[idx as int].1)));
                        }
                        let (k0, oldv) = t.entries.remove(idx);
                        let newv = put_back(oldv, path, i + 1, sub);
                        t.entries.insert(idx, (k0, newv));
                        proof {
                            assert(t.entries@ =~= oldents.update(idx as int, (oldents[idx as int].0, newv)));
                        }
                        let r = crate::value::mk_table_value(t);
                        proof {
                            let gp = path.deep_view();
                            let target = spec_set(
                                ov,
                                gp[i as int],
                                spec_put(spec_get(ov, gp[i as int]), gp, i + 1, sub@),
                            );
                            let ents = value_view(r)->Table_0.entries;
                            assert forall|j: int| 0 <= j < ents.len() implies ents[j]
                                == target.entries[j] by {
                                if j != idx {
                                    assert(value_view(r)->Table_0.entries[j] == ov.entries[j]);
                                }
                            }
                            assert(ents =~= target.entries);
                            assert(value_view(r) =~= spec_put(value_view(v), gp, i as int, sub@));
                        }
                        r
                    },
                    None => {
                        proof {
                            assert(false);
                        }
                        Value::Table(t)
                    },
                }
            }
        },
        other => {
            proof {
                assert(false);
            }
            other
        },
    }
}

/// A header-processing failure, carried with the group name it names.
pub enum SpecHeaderErr {
    AlreadyExists(Seq<char>),
    ImplicitArrayConflict,
}

/// Whether the concrete error kind renders the ghost header failure.
pub open spec fn spec_matches_header_err(e: ErrKind, he: SpecHeaderErr) -> bool {
    match he {
        SpecHeaderErr::AlreadyExists(g) => e matches ErrKind::TableAlreadyExists(s) && s@ == g,
        SpecHeaderErr::ImplicitArrayConflict => e matches ErrKind::ImplicitArrayConflict,
    }
}

/// An empty explicit table.
pub open spec fn spec_empty_table() -> SpecTable {
    SpecTable { entries: Seq::empty(), implicit: false }
}

/// Walks or creates the path `groups[i..]` below `v` for a header line,
/// and takes the target table out, leaving an empty placeholder: an
/// intermediate segment descends into an existing table (or the last
/// element of an array, or through a comment wrapper) or creates a fresh
/// implicit table; the final segment confirms a previously implicit
/// table, appends to an array of tables under a doubled header, or
/// creates the table or array; a collision with anything else fails.
pub open spec fn spec_ensure(v: SpecValue, groups: Seq<Seq<char>>, i: int, aot: bool) -> Result<
    (SpecValue, SpecTable),
    SpecHeaderErr,
>
    decreases groups.len() - i, v,
{
    if i < 0 || i >= groups.len() {
        Err(SpecHeaderErr::AlreadyExists(Seq::empty()))
    } else {
        match v {
            SpecValue::Commented(c) => match spec_ensure(*c.val, groups, i, aot) {
                Ok((w, ex)) => Ok(
                    (SpecValue::Commented(SpecCommentValue { val: Box::new(w), ..c }), ex),
                ),
                Err(e) => Err(e),
            },
            SpecValue::Array(items) => if items.len() == 0 {
                Err(SpecHeaderErr::AlreadyExists(groups[i]))
            } else {
                match spec_ensure(items.last(), groups, i, aot) {
                    Ok((w, ex)) => Ok(
                        (SpecValue::Array(items.update(items.len() - 1, w)), ex),
                    ),
                    Err(e) => Err(e),
                }
            },
            SpecValue::Table(t) => {
                let g = groups[i];
                if spec_has_key(t, g) {
                    if i == groups.len() - 1 {
                        match spec_get(t, g) {
                            SpecValue::Table(sub) => if sub.implicit {
                                if aot {
                                    Err(SpecHeaderErr::ImplicitArrayConflict)
                                } else {
                                    Ok(
                                        (
                                            SpecValue::Table(
                                                spec_set(
                                                    t,
                                                    g,
                                                    SpecValue::Table(spec_empty_table()),
                                                ),
                                            ),
                                            SpecTable { entries: sub.entries, implicit: false },
                                        ),
                                    )
                                }
                            } else {
                                Err(SpecHeaderErr::AlreadyExists(g))
                            },
                            SpecValue::Array(items) => if aot {
                                Ok(
                                    (
                                        SpecValue::Table(
                                            spec_set(
                                                t,
                                                g,
                                                SpecValue::Array(
                                                    items.push(
                                                        SpecValue::Table(spec_empty_table()),
                                                    ),
                                                ),
                                            ),
                                        ),
                                        spec_empty_table(),
                                    ),
                                )
                            } else {
                                Err(SpecHeaderErr::AlreadyExists(g))
                            },
                            _ => Err(SpecHeaderErr::AlreadyExists(g)),
                        }
                    } else {
                        match spec_ensure(spec_get(t, g), groups, i + 1, aot) {
                            Ok((w, ex)) => Ok((SpecValue::Table(spec_set(t, g, w)), ex)),
                            Err(e) => Err(e),
                        }
                    }
                } else {
                    if i == groups.len() - 1 {
                        if aot {
                            Ok(
                                (
                                    SpecValue::Table(
                                        spec_set(
                                            t,
                                            g,
                                            SpecValue::Array(
                                                seq![SpecValue::Table(spec_empty_table())],
                                            ),
                                        ),
                                    ),
                                    spec_empty_table(),
                                ),
                            )
                        } else {
                            Ok(
                                (
                                    SpecValue::Table(
                                        spec_set(t, g, SpecValue::Table(spec_empty_table())),
                                    ),
                                    spec_empty_table(),
                                ),
                            )
                        }
                    } else {
                        let fresh = SpecValue::Table(
                            SpecTable { entries: Seq::empty(), implicit: true },
                        );
                        match spec_ensure(fresh, groups, i + 1, aot) {
                            Ok((w, ex)) => Ok((SpecValue::Table(spec_set(t, g, w)), ex)),
                            Err(e) => Err(e),
                        }
                    }
                }
            },
            _ => Err(SpecHeaderErr::AlreadyExists(groups[i])),
        }
    }
}

/// Replacing the table at the end of a path below a table root yields a
/// table again.
pub proof fn lemma_put_root_is_table(v: SpecValue, path: Seq<Seq<char>>, nt: SpecTable)
    requires
        v is Table,
    ensures
        spec_put(v, path, 0, nt) is Table,
{
}

/// A successful header walk below a table root yields a table again.
pub proof fn lemma_ensure_root_is_table(v: SpecValue, groups: Seq<Seq<char>>, i: int, aot: bool)
    requires
        v is Table,
        0 <= i < groups.len(),
        spec_ensure(v, groups, i, aot) is Ok,
    ensures
        spec_ensure(v, groups, i, aot)->Ok_0.0 is Table,
{
}

/// A repeated array-of-tables header always appends: when the final
/// group name is already bound to an array, a doubled header adds one
/// fresh empty table at the array's end and moves the cursor into it,
/// leaving every earlier element as it stands.
pub proof fn lemma_aot_header_appends(t: SpecTable, groups: Seq<Seq<char>>, items: Seq<SpecValue>)
    requires
        groups.len() == 1,
        spec_has_key(t, groups[0]),
        spec_get(t, groups[0]) == SpecValue::Array(items),
    ensures
        spec_ensure(SpecValue::Table(t), groups, 0, true) == Ok::<_, SpecHeaderErr>(
            (
                SpecValue::Table(
                    spec_set(
                        t,
                        groups[0],
                        SpecValue::Array(items.push(SpecValue::Table(spec_empty_table()))),
                    ),
                ),
                spec_empty_table(),
            ),
        ),
{
}

/// A successful walk leaves the placeholder reachable along the walked
/// path.
pub proof fn lemma_ensure_path_valid(v: SpecValue, groups: Seq<Seq<char>>, i: int, aot: bool)
    requires
        0 <= i < groups.len(),
        spec_ensure(v, groups, i, aot) is Ok,
    ensures
        spec_path_to_table(spec_ensure(v, groups, i, aot)->Ok_0.0, groups, i),
    decreases groups.len() - i, v,
{
    match v {
        SpecValue::Commented(c) => {
            lemma_ensure_path_valid(*c.val, groups, i, aot);
            let w = spec_ensure(*c.val, groups, i, aot)->Ok_0.0;
            let res = spec_ensure(v, groups, i, aot)->Ok_0.0;
            assert(res == SpecValue::Commented(SpecCommentValue { val: Box::new(w), ..c }));
            assert(spec_path_to_table(res, groups, i) == spec_path_to_table(w, groups, i));
        },
        SpecValue::Array(items) => {
            lemma_ensure_path_valid(items.last(), groups, i, aot);
            let w = spec_ensure(items.last(), groups, i, aot)->Ok_0.0;
            assert(items.update(items.len() - 1, w).last() == w);
            let res = spec_ensure(v, groups, i, aot)->Ok_0.0;
            assert(res == SpecValue::Array(items.update(items.len() - 1, w)));
            assert(spec_path_to_table(res, groups, i) == spec_path_to_table(w, groups, i));
        },
        SpecValue::Table(t) => {
            let g = groups[i];
            if spec_has_key(t, g) {
                if i == groups.len() - 1 {
                    match spec_get(t, g) {
                        SpecValue::Table(sub) => {
                            lemma_set_get(t, g, SpecValue::Table(spec_empty_table()));
                            let nt = spec_set(t, g, SpecValue::Table(spec_empty_table()));
                            assert(spec_get(nt, g) == SpecValue::Table(spec_empty_table()));
                            assert(spec_path_to_table(
                                SpecValue::Table(spec_empty_table()),
                                groups,
                                i + 1,
                            ));
                            assert(spec_path_to_table(SpecValue::Table(nt), groups, i));
                        },
                        SpecValue::Array(items) => {
                            let arr = SpecValue::Array(
                                items.push(SpecValue::Table(spec_empty_table())),
                            );
                            lemma_set_get(t, g, arr);
                            let nt = spec_set(t, g, arr);
                            assert(items.push(SpecValue::Table(spec_empty_table())).last()
                                == SpecValue::Table(spec_empty_table()));
                            assert(spec_path_to_table(
                                SpecValue::Table(spec_empty_table()),
                                groups,
                                i + 1,
                            ));
                            assert(spec_path_to_table(arr, groups, i + 1));
                            assert(spec_path_to_table(SpecValue::Table(nt), groups, i));
                        },
                        _ => {},
                    }
                } else {
                    lemma_ensure_path_valid(spec_get(t, g), groups, i + 1, aot);
                    let w = spec_ensure(spec_get(t, g), groups, i + 1, aot)->Ok_0.0;
                    lemma_set_get(t, g, w);
                    let nt = spec_set(t, g, w);
                    assert(spec_get(nt, g) == w);
                    assert(spec_path_to_table(SpecValue::Table(nt), groups, i));
                }
            } else {
                if i == groups.len() - 1 {
                    if aot {
                        let arr = SpecValue::Array(seq![SpecValue::Table(spec_empty_table())]);
                        lemma_set_get(t, g, arr);
                        let nt = spec_set(t, g, arr);
                        assert(seq![SpecValue::Table(spec_empty_table())].last()
                            == SpecValue::Table(spec_empty_table()));
                        assert(spec_path_to_table(
                            SpecValue::Table(spec_empty_table()),
                            groups,
                            i + 1,
                        ));
                        assert(spec_path_to_table(arr, groups, i + 1));
                        assert(spec_path_to_table(SpecValue::Table(nt), groups, i));
                    } else {
                        lemma_set_get(t, g, SpecValue::Table(spec_empty_table()));
                        let nt = spec_set(t, g, SpecValue::Table(spec_empty_table()));
                        assert(spec_path_to_table(
                            SpecValue::Table(spec_empty_table()),
                            groups,
                            i + 1,
                        ));
                        assert(spec_path_to_table(SpecValue::Table(nt), groups, i));
                    }
                } else {
                    let fresh = SpecValue::Table(
                        SpecTable { entries: Seq::empty(), implicit: true },
                    );
                    lemma_ensure_path_valid(fresh, groups, i + 1, aot);
                    let w = spec_ensure(fresh, groups, i + 1, aot)->Ok_0.0;
                    lemma_set_get(t, g, w);
                    let nt = spec_set(t, g, w);
                    assert(spec_get(nt, g) == w);
                    assert(spec_path_to_table(SpecValue::Table(nt), groups, i));
                }
            }
        },
        _ => {},
    }
}

/// Walks or creates the header path `groups[i..]` below `v` and hands
/// the target table out, leaving a placeholder in the tree.
#[verifier::rlimit(100)]
pub fn ensure_path(v: Value, groups: &Vec<String>, i: usize, aot: bool) -> (r: Result<
    (Value, Table),
    ErrKind,
>)
    requires
        i < groups@.len(),
    ensures
        r matches Ok(p) ==> (spec_ensure(value_view(v), groups.deep_view(), i as int, aot)
            matches Ok(q) && q.0 == value_view(p.0) && q.1 == p.1@),
        r matches Err(e) ==> (spec_ensure(value_view(v), groups.deep_view(), i as int, aot)
            matches Err(he) && spec_matches_header_err(e, he)),
    decreases groups@.len() - i, v,
{
    let ngroups = groups.len();
    match v {
        Value::Commented(c) => {
            let CommentValue { val, comment, beginline } = c;
            let inner = ensure_path(*val, groups, i, aot);
            match inner {
                Ok((w, ex)) => {
                    let r = crate::value::mk_commented_value(
                        CommentValue { val: Box::new(w), comment, beginline },
                    );
                    proof {
                        assert(value_view(r) =~= spec_ensure(
                            value_view(v),
                            groups.deep_view(),
                            i as int,
                            aot,
                        )->Ok_0.0);
                    }
                    Ok((r, ex))
                },
                Err(e) => Err(e),
            }
        },
        Value::Array(mut items) => {
            let n = items.len();
            proof {
                assert(value_view(v) matches SpecValue::Array(its) && its.len() == items@.len());
            }
            if n == 0 {
                proof {
                    assert(groups.deep_view()[i as int] == groups@[i as int]@);
                }
                return Err(ErrKind::TableAlreadyExists(groups[i].clone()));
            }
            let ghost old_items = items@;
            let last = items.remove(n - 1);
            let inner = ensure_path(last, groups, i, aot);
            match inner {
                Ok((w, ex)) => {
                    items.push(w);
                    proof {
                        assert(items@ =~= old_items.update(old_items.len() - 1, w));
                    }
                    let r = crate::value::mk_array_value(items);
                    proof {
                        let sv = value_view(v)->Array_0;
                        assert(sv.last() == value_view(old_items.last()));
                        assert(value_view(r)->Array_0 =~= sv.update(
                            sv.len() - 1,
                            spec_ensure(sv.last(), groups.deep_view(), i as int, aot)->Ok_0.0,
                        ));
                        assert(value_view(r) =~= spec_ensure(
                            value_view(v),
                            groups.deep_view(),
                            i as int,
                            aot,
                        )->Ok_0.0);
                    }
                    Ok((r, ex))
                },
                Err(e) => Err(e),
            }
        },
        Value::Table(mut t) => {
            let ghost ov = t@;
            proof {
                assert(value_view(v) == SpecValue::Table(ov));
            }
            let g = &groups[i];
            proof {
                assert(groups.deep_view()[i as int] == groups@[i as int]@);
            }
            let found = t.find(g);
            let last_seg = i + 1 == ngroups;
            match found {
                Some(idx) => {
                    let ghost oldents = t.entries@;
                    proof {
                        lemma_index_of_properties(ov.entries, g@);
                        assert(ov.entries[idx as int]
                            == (oldents[idx as int].0@, value_view(oldents[idx as int].1)));
                        assert(spec_get(ov, g@) == value_view(oldents[idx as int].1));
                    }
                    if last_seg {
                        // classify the existing value under the final segment
                        let (k0, w) = t.entries.remove(idx);
                        match w {
                            Value::Table(mut sub) => {
                                proof {
                                    assert(spec_get(ov, g@) == SpecValue::Table(sub@));
                                }
                                if sub.implicit {
                                    if aot {
                                        return Err(ErrKind::ImplicitArrayConflict);
                                    }
                                    let ph = Table::new();
                                    proof {
                                        assert(ph@.entries
                                            =~= Seq::<(Seq<char>, SpecValue)>::empty());
                                        assert(ph@ =~= spec_empty_table());
                                    }
                                    let phv = crate::value::mk_table_value(ph);
                                    t.entries.insert(idx, (k0, phv));
                                    proof {
                                        assert(t.entries@ =~= oldents.update(
                                            idx as int,
                                            (oldents[idx as int].0, phv),
                                        ));
                                    }
                                    let ghost subview = sub@;
                                    sub.implicit = false;
                                    proof {
                                        assert(sub@ =~= SpecTable {
                                            entries: subview.entries,
                                            implicit: false,
                                        });
                                    }
                                    let r = crate::value::mk_table_value(t);
                                    proof {
                                        let target = spec_set(
                                            ov,
                                            g@,
                                            SpecValue::Table(spec_empty_table()),
                                        );
                                        let ents = value_view(r)->Table_0.entries;
                                        assert forall|j: int| 0 <= j < ents.len() implies ents[j]
                                            == target.entries[j] by {
                                            if j != idx {
                                                assert(value_view(r)->Table_0.entries[j]
                                                    == ov.entries[j]);
                                            }
                                        }
                                        assert(ents =~= target.entries);
                                        assert(value_view(r) =~= spec_ensure(
                                            value_view(v),
                                            groups.deep_view(),
                                            i as int,
                                            aot,
                                        )->Ok_0.0);
                                    }
                                    return Ok((r, sub));
                                }
                                return Err(ErrKind::TableAlreadyExists(g.clone()));
                            },
                            Value::Array(mut items) => {
                                proof {
                                    assert(spec_get(ov, g@) matches SpecValue::Array(its)
                                        && its.len() == items@.len());
                                }
                                if !aot {
                                    return Err(ErrKind::TableAlreadyExists(g.clone()));
                                }
                                let ph = Table::new();
                                proof {
                                    assert(ph@.entries =~= Seq::<(Seq<char>, SpecValue)>::empty());
                                    assert(ph@ =~= spec_empty_table());
                                }
                                let ghost old_items2 = items@;
                                items.push(crate::value::mk_table_value(ph));
                                let arrv = crate::value::mk_array_value(items);
                                t.entries.insert(idx, (k0, arrv));
                                proof {
                                    assert(t.entries@ =~= oldents.update(
                                        idx as int,
                                        (oldents[idx as int].0, arrv),
                                    ));
                                }
                                let r = crate::value::mk_table_value(t);
                                let ex = Table::new();
                                proof {
                                    let olditems = spec_get(ov, g@)->Array_0;
                                    assert(value_view(arrv)->Array_0 =~= olditems.push(
                                        SpecValue::Table(spec_empty_table()),
                                    ));
                                    let target = spec_set(
                                        ov,
                                        g@,
                                        SpecValue::Array(
                                            olditems.push(SpecValue::Table(spec_empty_table())),
                                        ),
                                    );
                                    let ents = value_view(r)->Table_0.entries;
                                    assert forall|j: int| 0 <= j < ents.len() implies ents[j]
                                        == target.entries[j] by {
                                        if j != idx {
                                            assert(value_view(r)->Table_0.entries[j]
                                                == ov.entries[j]);
                                        }
                                    }
                                    assert(ents =~= target.entries);
                                    assert(value_view(r) =~= spec_ensure(
                                        value_view(v),
                                        groups.deep_view(),
                                        i as int,
                                        aot,
                                    )->Ok_0.0);
                                    assert(ex@.entries =~= Seq::<(Seq<char>, SpecValue)>::empty());
                                    assert(ex@ =~= spec_empty_table());
                                }
                                return Ok((r, ex));
                            },
                            other => {
                                proof {
                                    assert(spec_get(ov, g@) == value_view(other));
                                }
                                return Err(ErrKind::TableAlreadyExists(g.clone()));
                            },
                        }
                    }
                    // intermediate segment: descend into the stored value
                    let (k0, w) = t.entries.remove(idx);
                    let inner = ensure_path(w, groups, i + 1, aot);
                    match inner {
                        Ok((w2, ex)) => {
                            t.entries.insert(idx, (k0, w2));
                            proof {
                                assert(t.entries@ =~= oldents.update(
                                    idx as int,
                                    (oldents[idx as int].0, w2),
                                ));
                            }
                            let r = crate::value::mk_table_value(t);
                            proof {
                                let target = spec_set(
                                    ov,
                                    g@,
                                    spec_ensure(
                                        spec_get(ov, g@),
                                        groups.deep_view(),
                                        i + 1,
                                        aot,
                                    )->Ok_0.0,
                                );
                                let ents = value_view(r)->Table_0.entries;
                                assert forall|j: int| 0 <= j < ents.len() implies ents[j]
                                    == target.entries[j] by {
                                    if j != idx {
                                        assert(value_view(r)->Table_0.entries[j] == ov.entries[j]);
                                    }
                                }
                                assert(ents =~= target.entries);
                                assert(value_view(r) =~= spec_ensure(
                                    value_view(v),
                                    groups.deep_view(),
                                    i as int,
                                    aot,
                                )->Ok_0.0);
                            }
                            Ok((r, ex))
                        },
                        Err(e) => Err(e),
                    }
                },
                None => {
                    if last_seg {
                        if aot {
                            let ph = Table::new();
                            proof {
                                assert(ph@.entries =~= Seq::<(Seq<char>, SpecValue)>::empty());
                                assert(ph@ =~= spec_empty_table());
                            }
                            let mut arr: Vec<Value> = Vec::new();
                            arr.push(crate::value::mk_table_value(ph));
                            let ghost garr = arr@;
                            let arrv = crate::value::mk_array_value(arr);
                            t.set(g.clone(), arrv);
                            proof {
                                assert(value_view(arrv)->Array_0
                                    =~= seq![SpecValue::Table(spec_empty_table())]);
                            }
                            let r = crate::value::mk_table_value(t);
                            let ex = Table::new();
                            proof {
                                assert(value_view(r) =~= spec_ensure(
                                    value_view(v),
                                    groups.deep_view(),
                                    i as int,
                                    aot,
                                )->Ok_0.0);
                                assert(ex@.entries =~= Seq::<(Seq<char>, SpecValue)>::empty());
                                assert(ex@ =~= spec_empty_table());
                            }
                            Ok((r, ex))
                        } else {
                            let ph = Table::new();
                            proof {
                                assert(ph@.entries =~= Seq::<(Seq<char>, SpecValue)>::empty());
                                assert(ph@ =~= spec_empty_table());
                            }
                            t.set(g.clone(), crate::value::mk_table_value(ph));
                            let r = crate::value::mk_table_value(t);
                            let ex = Table::new();
                            proof {
                                assert(value_view(r) =~= spec_ensure(
                                    value_view(v),
                                    groups.deep_view(),
                                    i as int,
                                    aot,
                                )->Ok_0.0);
                                assert(ex@.entries =~= Seq::<(Seq<char>, SpecValue)>::empty());
                                assert(ex@ =~= spec_empty_table());
                            }
                            Ok((r, ex))
                        }
                    } else {
                        let fresh = Table { entries: Vec::new(), implicit: true };
                        proof {
                            assert(fresh@.entries =~= Seq::<(Seq<char>, SpecValue)>::empty());
                            assert(fresh@ =~= SpecTable { entries: Seq::empty(), implicit: true });
                        }
                        let freshv = crate::value::mk_table_value(fresh);
                        let inner = ensure_path(freshv, groups, i + 1, aot);
                        match inner {
                            Ok((w, ex)) => {
                                t.set(g.clone(), w);
                                let r = crate::value::mk_table_value(t);
                                proof {
                                    assert(value_view(r) =~= spec_ensure(
                                        value_view(v),
                                        groups.deep_view(),
                                        i as int,
                                        aot,
                                    )->Ok_0.0);
                                }
                                Ok((r, ex))
                            },
                            Err(e) => Err(e),
                        }
                    }
                },
            }
        },
        other => {
            proof {
                assert(groups.deep_view()[i as int] == groups@[i as int]@);
            }
            Err(ErrKind::TableAlreadyExists(groups[i].clone()))
        },
    }
}

} // verus!
