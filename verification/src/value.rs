//! The decoded value model: a tagged union over the scalar kinds, ordered
//! arrays, and tables that keep insertion order with unique keys.

use vstd::prelude::*;
use crate::tz::{SpecTz, TomlTz};

verus! {

broadcast use vstd::std_specs::vec::group_vec_axioms, vstd::seq::group_seq_axioms;

/// A calendar date, held as plain year, month and day numbers.
#[derive(Debug, Clone, PartialEq)]
pub struct Date {
    pub year: u16,
    pub month: u8,
    pub day: u8,
}

/// A time of day, held as plain components; `micros` are microseconds.
#[derive(Debug, Clone, PartialEq)]
pub struct Time {
    pub hour: u8,
    pub minute: u8,
    pub second: u8,
    pub micros: u32,
}

/// A date with a time and an optional fixed UTC offset.
#[derive(Debug, Clone, PartialEq)]
pub struct Datetime {
    pub date: Date,
    pub time: Time,
    pub tz: Option<TomlTz>,
}

/// Ghost form of a date.
pub struct SpecDate {
    pub year: int,
    pub month: int,
    pub day: int,
}

/// Ghost form of a time of day.
pub struct SpecTime {
    pub hour: int,
    pub minute: int,
    pub second: int,
    pub micros: int,
}

/// Ghost form of a datetime.
pub struct SpecDatetime {
    pub date: SpecDate,
    pub time: SpecTime,
    pub tz: Option<SpecTz>,
}

impl View for Date {
    type V = SpecDate;

    open spec fn view(&self) -> SpecDate {
        SpecDate { year: self.year as int, month: self.month as int, day: self.day as int }
    }
}

impl View for Time {
    type V = SpecTime;

    open spec fn view(&self) -> SpecTime {
        SpecTime {
            hour: self.hour as int,
            minute: self.minute as int,
            second: self.second as int,
            micros: self.micros as int,
        }
    }
}

impl View for Datetime {
    type V = SpecDatetime;

    open spec fn view(&self) -> SpecDatetime {
        SpecDatetime {
            date: self.date@,
            time: self.time@,
            tz: match self.tz {
                Some(tz) => Some(tz@),
                None => None,
            },
        }
    }
}

/// A decoded value.
///
/// A float keeps its cleaned literal text (sign kept, underscores removed)
/// rather than a machine float; callers that need the number convert the
/// text themselves.
#[derive(Debug, PartialEq)]
pub enum Value {
    Bool(bool),
    Int(i64),
    FloatText(String),
    Str(String),
    Date(Date),
    Time(Time),
    Datetime(Datetime),
    Array(Vec<Value>),
    Table(Table),
    Commented(CommentValue),
}

/// A table: key/value entries in insertion order, keys unique. `implicit`
/// marks a table created only as an ancestor of a deeper dotted key or
/// nested header, not yet declared by its own header line.
#[derive(Debug, PartialEq)]
pub struct Table {
    pub entries: Vec<(String, Value)>,
    pub implicit: bool,
}

/// A value wrapped together with the comment attached to its key.
/// `beginline` records the placement: true when the comment stood on its
/// own line above the value, false when it trailed the value.
#[derive(Debug, PartialEq)]
pub struct CommentValue {
    pub val: Box<Value>,
    pub comment: String,
    pub beginline: bool,
}

/// Ghost form of a decoded value.
#[verifier::ext_equal]
pub enum SpecValue {
    Bool(bool),
    Int(int),
    FloatText(Seq<char>),
    Str(Seq<char>),
    Date(SpecDate),
    Time(SpecTime),
    Datetime(SpecDatetime),
    Array(Seq<SpecValue>),
    Table(SpecTable),
    Commented(SpecCommentValue),
}

/// Ghost form of a table.
#[verifier::ext_equal]
pub struct SpecTable {
    pub entries: Seq<(Seq<char>, SpecValue)>,
    pub implicit: bool,
}

/// Ghost form of a comment-bearing value.
#[verifier::ext_equal]
pub struct SpecCommentValue {
    pub val: Box<SpecValue>,
    pub comment: Seq<char>,
    pub beginline: bool,
}

/// Ghost form of `v`.
pub open spec fn value_view(v: Value) -> SpecValue
    decreases v,
{
    match v {
        Value::Bool(b) => SpecValue::Bool(b),
        Value::Int(n) => SpecValue::Int(n as int),
        Value::FloatText(s) => SpecValue::FloatText(s@),
        Value::Str(s) => SpecValue::Str(s@),
        Value::Date(d) => SpecValue::Date(d@),
        Value::Time(t) => SpecValue::Time(t@),
        Value::Datetime(dt) => SpecValue::Datetime(dt@),
        Value::Array(items) => SpecValue::Array(
            Seq::new(
                items@.len(),
                |i: int|
                    if 0 <= i < items@.len() {
                        value_view(items@[i])
                    } else {
                        SpecValue::Bool(false)
                    },
            ),
        ),
        Value::Table(t) => SpecValue::Table(table_view(t)),
        Value::Commented(c) => SpecValue::Commented(
            SpecCommentValue { val: Box::new(value_view(*c.val)), comment: c.comment@, beginline: c.beginline },
        ),
    }
}

/// Ghost form of `t`.
pub open spec fn table_view(t: Table) -> SpecTable
    decreases t,
{
    SpecTable {
        entries: Seq::new(
            t.entries@.len(),
            |i: int|
                if 0 <= i < t.entries@.len() {
                    (t.entries@[i].0@, value_view(t.entries@[i].1))
                } else {
                    (Seq::empty(), SpecValue::Bool(false))
                },
        ),
        implicit: t.implicit,
    }
}

impl View for Value {
    type V = SpecValue;

    open spec fn view(&self) -> SpecValue {
        value_view(*self)
    }
}

impl View for Table {
    type V = SpecTable;

    open spec fn view(&self) -> SpecTable {
        table_view(*self)
    }
}

impl View for CommentValue {
    type V = SpecCommentValue;

    open spec fn view(&self) -> SpecCommentValue {
        SpecCommentValue {
            val: Box::new(value_view(*self.val)),
            comment: self.comment@,
            beginline: self.beginline,
        }
    }
}

/// Index of the first entry with key `key`, or -1 when there is none.
pub open spec fn spec_index_of(entries: Seq<(Seq<char>, SpecValue)>, key: Seq<char>) -> int
    decreases entries.len(),
{
    if entries.len() == 0 {
        -1
    } else if entries[0].0 == key {
        0
    } else {
        let r = spec_index_of(entries.drop_first(), key);
        if r < 0 {
            -1
        } else {
            r + 1
        }
    }
}

/// Whether some entry has key `key`.
pub open spec fn spec_has_key(t: SpecTable, key: Seq<char>) -> bool {
    spec_index_of(t.entries, key) >= 0
}

/// The value stored under `key`.
pub open spec fn spec_get(t: SpecTable, key: Seq<char>) -> SpecValue
    recommends
        spec_has_key(t, key),
{
    t.entries[spec_index_of(t.entries, key)].1
}

/// `t` with `key` bound to `v`: an existing entry keeps its position, a new
/// one goes to the end.
pub open spec fn spec_set(t: SpecTable, key: Seq<char>, v: SpecValue) -> SpecTable {
    let i = spec_index_of(t.entries, key);
    if i >= 0 {
        SpecTable { entries: t.entries.update(i, (key, v)), implicit: t.implicit }
    } else {
        SpecTable { entries: t.entries.push((key, v)), implicit: t.implicit }
    }
}

pub broadcast proof fn lemma_index_of_properties(entries: Seq<(Seq<char>, SpecValue)>, key: Seq<char>)
    ensures
        -1 <= #[trigger] spec_index_of(entries, key) < entries.len() as int,
        spec_index_of(entries, key) >= 0 ==> entries[spec_index_of(entries, key)].0 == key,
        spec_index_of(entries, key) < 0 ==> forall|i: int|
            0 <= i < entries.len() ==> entries[i].0 != key,
        forall|i: int| 0 <= i < spec_index_of(entries, key) ==> (#[trigger] entries[i]).0 != key,
    decreases entries.len(),
{
    if entries.len() > 0 && entries[0].0 != key {
        lemma_index_of_properties(entries.drop_first(), key);
        let r = spec_index_of(entries.drop_first(), key);
        if r >= 0 {
            assert(entries.drop_first()[r] == entries[r + 1]);
            assert forall|i: int| 0 <= i < spec_index_of(entries, key) implies (#[trigger] entries[i]).0
                != key by {
                if i > 0 {
                    assert(entries.drop_first()[i - 1] == entries[i]);
                }
            }
        } else {
            assert forall|i: int| 0 <= i < entries.len() implies entries[i].0 != key by {
                if i > 0 {
                    assert(entries.drop_first()[i - 1] == entries[i]);
                }
            }
        }
    }
}

/// The first index `i` with `entries[i].0 == key` is the one `spec_index_of`
/// names, provided no earlier entry has that key.
pub proof fn lemma_index_of_found(entries: Seq<(Seq<char>, SpecValue)>, key: Seq<char>, i: int)
    requires
        0 <= i < entries.len(),
        entries[i].0 == key,
        forall|j: int| 0 <= j < i ==> entries[j].0 != key,
    ensures
        spec_index_of(entries, key) == i,
    decreases entries.len(),
{
    if entries[0].0 != key {
        assert forall|j: int| 0 <= j < i - 1 implies entries.drop_first()[j].0 != key by {
            assert(entries.drop_first()[j] == entries[j + 1]);
        }
        assert(entries.drop_first()[i - 1] == entries[i]);
        lemma_index_of_found(entries.drop_first(), key, i - 1);
    }
}

impl Table {
    /// An empty table; `implicit` is false until a header path marks it.
    pub fn new() -> (r: Table)
        ensures
            r@.entries.len() == 0,
            !r@.implicit,
    {
        let r = Table { entries: Vec::new(), implicit: false };
        proof {
            assert(r@.entries =~= Seq::<(Seq<char>, SpecValue)>::empty());
        }
        r
    }

    /// Number of entries.
    pub fn len(&self) -> (r: usize)
        ensures
            r == self@.entries.len(),
    {
        self.entries.len()
    }

    /// Index of the entry with key `key`, if any.
    pub fn find(&self, key: &String) -> (r: Option<usize>)
        ensures
            r matches Some(i) ==> spec_index_of(self@.entries, key@) == i as int && i
                < self@.entries.len(),
            r is None ==> spec_index_of(self@.entries, key@) < 0,
    {
        let mut i: usize = 0;
        while i < self.entries.len()
            invariant
                i <= self.entries@.len(),
                self@.entries.len() == self.entries@.len(),
                forall|j: int| 0 <= j < i ==> self@.entries[j].0 != key@,
                forall|j: int|
                    0 <= j < self.entries@.len() ==> self@.entries[j]
                        == (self.entries@[j].0@, value_view(self.entries@[j].1)),
            decreases self.entries@.len() - i,
        {
            if self.entries[i].0.eq(key) {
                proof {
                    lemma_index_of_found(self@.entries, key@, i as int);
                }
                return Some(i);
            }
            i += 1;
        }
        proof {
            lemma_index_of_properties(self@.entries, key@);
            if spec_index_of(self@.entries, key@) >= 0 {
                assert(false);
            }
        }
        None
    }

    /// Whether `key` is bound.
    pub fn contains_key(&self, key: &String) -> (r: bool)
        ensures
            r == spec_has_key(self@, key@),
    {
        self.find(key).is_some()
    }

    /// A reference to the value under `key`, if any.
    pub fn get(&self, key: &String) -> (r: Option<&Value>)
        ensures
            r matches Some(v) ==> spec_has_key(self@, key@) && v@ == spec_get(self@, key@),
            r is None ==> !spec_has_key(self@, key@),
    {
        match self.find(key) {
            Some(i) => {
                proof {
                    assert(self@.entries[i as int]
                        == (self.entries@[i as int].0@, value_view(self.entries@[i as int].1)));
                }
                Some(&self.entries[i].1)
            },
            None => None,
        }
    }

    /// Binds `key` to `v`: replaces in place when the key exists, appends
    /// otherwise.
    pub fn set(&mut self, key: String, v: Value)
        ensures
            final(self)@ == spec_set(old(self)@, key@, value_view(v)),
    {
        let idx = self.find(&key);
        match idx {
            Some(i) => {
                self.entries[i] = (key, v);
                proof {
                    assert(self@.entries =~= spec_set(old(self)@, key@, value_view(v)).entries);
                }
            },
            None => {
                self.entries.push((key, v));
                proof {
                    assert(self@.entries =~= spec_set(old(self)@, key@, value_view(v)).entries);
                }
            },
        }
    }

    /// Takes the value under `key` out of the table, leaving the entry's
    /// position to be refilled by a following `set`.
    pub fn take(&mut self, key: &String) -> (r: Option<Value>)
        ensures
            r matches Some(v) ==> spec_has_key(old(self)@, key@) && value_view(v) == spec_get(
                old(self)@,
                key@,
            ) && final(self)@.entries == old(self)@.entries.remove(
                spec_index_of(old(self)@.entries, key@),
            ) && final(self)@.implicit == old(self)@.implicit,
            r is None ==> !spec_has_key(old(self)@, key@) && final(self)@ == old(self)@,
    {
        let idx = self.find(key);
        match idx {
            Some(i) => {
                let (_, v) = self.entries.remove(i);
                proof {
                    assert(self@.entries =~= old(self)@.entries.remove(i as int));
                }
                Some(v)
            },
            None => None,
        }
    }

    /// Whether the spec-level form of this table has `key`.
    pub fn has_key_str(&self, key: &str) -> (r: bool)
        ensures
            r == spec_has_key(self@, key@),
    {
        let k = key.to_owned();
        self.contains_key(&k)
    }
}


/// After a `set`, the key is bound to the new value and every other key
/// keeps its binding.
pub proof fn lemma_set_get(t: SpecTable, k: Seq<char>, v: SpecValue)
    ensures
        spec_has_key(spec_set(t, k, v), k),
        spec_get(spec_set(t, k, v), k) == v,
        forall|k2: Seq<char>|
            k2 != k ==> #[trigger] spec_index_of(spec_set(t, k, v).entries, k2) == spec_index_of(
                t.entries,
                k2,
            ),
        forall|k2: Seq<char>|
            k2 != k && spec_has_key(t, k2) ==> #[trigger] spec_get(spec_set(t, k, v), k2)
                == spec_get(t, k2),
{
    lemma_index_of_properties(t.entries, k);
    let i = spec_index_of(t.entries, k);
    let e2 = spec_set(t, k, v).entries;
    if i >= 0 {
        assert(e2 == t.entries.update(i, (k, v)));
        assert(e2[i].0 == k);
        assert(forall|j: int| 0 <= j < i ==> e2[j] == t.entries[j]);
        assert(forall|j: int| 0 <= j < i ==> (#[trigger] e2[j]).0 != k);
        lemma_index_of_found(e2, k, i);
    } else {
        assert(e2 == t.entries.push((k, v)));
        assert(e2[t.entries.len() as int].0 == k);
        assert(forall|j: int| 0 <= j < t.entries.len() ==> e2[j] == t.entries[j]);
        assert(forall|j: int| 0 <= j < t.entries.len() ==> (#[trigger] e2[j]).0 != k);
        lemma_index_of_found(e2, k, t.entries.len() as int);
    }
    assert forall|k2: Seq<char>| k2 != k implies #[trigger] spec_index_of(e2, k2) == spec_index_of(
        t.entries,
        k2,
    ) by {
        lemma_index_of_frame(t.entries, e2, k2);
    }
    assert forall|k2: Seq<char>| k2 != k && spec_has_key(t, k2) implies #[trigger] spec_get(
        spec_set(t, k, v),
        k2,
    ) == spec_get(t, k2) by {
        lemma_index_of_frame(t.entries, e2, k2);
        lemma_index_of_properties(t.entries, k2);
        let j = spec_index_of(t.entries, k2);
        if i >= 0 {
            assert(j != i);
            assert(e2[j] == t.entries[j]);
        } else {
            assert(j < t.entries.len());
            assert(e2[j] == t.entries[j]);
        }
    }
}

/// Two entry lists that agree wherever a key occurs have the same first
/// index for that key.
proof fn lemma_index_of_frame(
    a: Seq<(Seq<char>, SpecValue)>,
    b: Seq<(Seq<char>, SpecValue)>,
    k: Seq<char>,
)
    requires
        b.len() == a.len() || b.len() == a.len() + 1,
        forall|j: int| 0 <= j < a.len() ==> (#[trigger] b[j]).0 == a[j].0,
        b.len() == a.len() + 1 ==> b[a.len() as int].0 != k,
    ensures
        spec_index_of(b, k) == spec_index_of(a, k) || (spec_index_of(a, k) < 0 && spec_index_of(
            b,
            k,
        ) < 0),
    decreases a.len(),
{
    lemma_index_of_properties(a, k);
    lemma_index_of_properties(b, k);
    let ia = spec_index_of(a, k);
    let ib = spec_index_of(b, k);
    if ia >= 0 {
        assert(b[ia].0 == k);
        assert(forall|j: int| 0 <= j < ia ==> (#[trigger] b[j]).0 != k);
        lemma_index_of_found(b, k, ia);
    } else {
        if ib >= 0 {
            if ib < a.len() {
                assert(a[ib].0 == k);
                assert(false);
            } else {
                assert(b[ib].0 != k);
                assert(false);
            }
        }
    }
}

impl Table {
    /// Wraps the value under `key` with `comment`, keeping the entry in
    /// place; without such a key nothing changes.
    pub fn wrap_comment(&mut self, key: &String, comment: String, beginline: bool) -> (r: bool)
        ensures
            r ==> spec_has_key(old(self)@, key@) && final(self)@ == spec_set(
                old(self)@,
                key@,
                SpecValue::Commented(
                    SpecCommentValue {
                        val: Box::new(spec_get(old(self)@, key@)),
                        comment: comment@,
                        beginline,
                    },
                ),
            ),
            !r ==> !spec_has_key(old(self)@, key@) && *final(self) == *old(self),
    {
        let found = self.find(key);
        match found {
            Some(i) => {
                proof {
                    lemma_index_of_properties(self@.entries, key@);
                    assert(self@.entries[i as int]
                        == (self.entries@[i as int].0@, value_view(self.entries@[i as int].1)));
                }
                let mut tmp = Value::Bool(false);
                let entry = &mut self.entries[i];
                core::mem::swap(&mut entry.1, &mut tmp);
                let wrapped = Value::Commented(
                    CommentValue { val: Box::new(tmp), comment, beginline },
                );
                let entry2 = &mut self.entries[i];
                entry2.1 = wrapped;
                proof {
                    assert(self@.entries =~= spec_set(
                        old(self)@,
                        key@,
                        SpecValue::Commented(
                            SpecCommentValue {
                                val: Box::new(spec_get(old(self)@, key@)),
                                comment: comment@,
                                beginline,
                            },
                        ),
                    ).entries);
                }
                true
            },
            None => false,
        }
    }
}

/// The ghost forms of the values in `items`, in order.
pub open spec fn spec_views_of(items: Seq<Value>) -> Seq<SpecValue> {
    Seq::new(items.len(), |i: int| value_view(items[i]))
}

/// Wraps a table as a value; the view relation is part of the contract
/// so callers need not unfold the recursive view.
pub fn mk_table_value(t: Table) -> (r: Value)
    ensures
        value_view(r) == SpecValue::Table(t@),
{
    let r = Value::Table(t);
    proof {
        assert(value_view(r) =~= SpecValue::Table(value_view(r)->Table_0));
    }
    r
}

/// Wraps an array as a value, exposing the element views.
pub fn mk_array_value(items: Vec<Value>) -> (r: Value)
    ensures
        value_view(r) == SpecValue::Array(spec_views_of(items@)),
{
    let ghost gi = items@;
    let r = Value::Array(items);
    proof {
        assert(value_view(r)->Array_0 =~= spec_views_of(gi));
        assert(value_view(r) =~= SpecValue::Array(spec_views_of(gi)));
    }
    r
}

/// Wraps a comment-bearing value, exposing the view.
pub fn mk_commented_value(c: CommentValue) -> (r: Value)
    ensures
        value_view(r) == SpecValue::Commented(c@),
{
    let r = Value::Commented(c);
    proof {
        assert(value_view(r) =~= SpecValue::Commented(value_view(r)->Commented_0));
    }
    r
}

/// Binding a key never breaks the uniqueness of a table's keys, and
/// binding a well-formed value to a well-formed table keeps every nested
/// table well-formed.
pub proof fn lemma_set_preserves_wf(t: SpecTable, k: Seq<char>, v: SpecValue)
    requires
        spec_table_wf(t),
        spec_value_wf(v),
    ensures
        spec_table_wf(spec_set(t, k, v)),
{
    lemma_index_of_properties(t.entries, k);
    let i = spec_index_of(t.entries, k);
    let e2 = spec_set(t, k, v).entries;
    if i >= 0 {
        assert(t.entries[i].0 == k);
        assert forall|a: int, b: int| 0 <= a < b < e2.len() implies (#[trigger] e2[a]).0
            != (#[trigger] e2[b]).0 by {
            assert(e2[a].0 == t.entries[a].0);
            assert(e2[b].0 == t.entries[b].0);
        }
        assert forall|a: int| 0 <= a < e2.len() implies spec_value_wf((#[trigger] e2[a]).1) by {
            if a != i {
                assert(e2[a] == t.entries[a]);
            }
        }
    } else {
        assert forall|a: int, b: int| 0 <= a < b < e2.len() implies (#[trigger] e2[a]).0
            != (#[trigger] e2[b]).0 by {
            if b < t.entries.len() {
                assert(e2[a] == t.entries[a] && e2[b] == t.entries[b]);
            } else {
                assert(e2[a] == t.entries[a]);
                assert(e2[b].0 == k);
                assert(t.entries[a].0 != k);
            }
        }
        assert forall|a: int| 0 <= a < e2.len() implies spec_value_wf((#[trigger] e2[a]).1) by {
            if a < t.entries.len() {
                assert(e2[a] == t.entries[a]);
            } else {
                assert(e2[a].1 == v);
            }
        }
    }
}

/// `v` with every table's parsing tag cleared: the tag only guides the
/// builder and is not part of the decoded result.
pub open spec fn spec_clear_value(v: SpecValue) -> SpecValue
    decreases v,
{
    match v {
        SpecValue::Array(items) => SpecValue::Array(
            Seq::new(
                items.len(),
                |i: int|
                    if 0 <= i < items.len() {
                        spec_clear_value(items[i])
                    } else {
                        SpecValue::Bool(false)
                    },
            ),
        ),
        SpecValue::Table(t) => SpecValue::Table(spec_clear_table(t)),
        SpecValue::Commented(c) => SpecValue::Commented(
            SpecCommentValue { val: Box::new(spec_clear_value(*c.val)), ..c },
        ),
        _ => v,
    }
}

/// `t` with its own tag and every nested table's tag cleared.
pub open spec fn spec_clear_table(t: SpecTable) -> SpecTable
    decreases t,
{
    SpecTable {
        entries: Seq::new(
            t.entries.len(),
            |i: int|
                if 0 <= i < t.entries.len() {
                    (t.entries[i].0, spec_clear_value(t.entries[i].1))
                } else {
                    (Seq::empty(), SpecValue::Bool(false))
                },
        ),
        implicit: false,
    }
}

/// Clears the parsing tags of `v` and of every table below it.
#[verifier::loop_isolation(false)]
pub fn clear_value(v: Value) -> (r: Value)
    ensures
        value_view(r) == spec_clear_value(value_view(v)),
    decreases v,
{
    match v {
        Value::Array(items) => {
            let ghost gvec = items;
            let ghost gitems = items@;
            let mut src = items;
            let mut out: Vec<Value> = Vec::new();
            let n = src.len();
            let mut taken: usize = 0;
            while out.len() < n
                invariant
                    src@.len() + out@.len() == n == gitems.len(),
                    src@ =~= gitems.skip(out@.len() as int),
                    forall|j: int|
                        0 <= j < out@.len() ==> value_view(#[trigger] out@[j])
                            == spec_clear_value(value_view(gitems[j])),
                decreases n - out@.len(),
            {
                let first = src.remove(0);
                proof {
                    assert(first == gitems[out@.len() as int]);
                    assert(src@ =~= gitems.skip(out@.len() as int + 1));
                    assert(v == Value::Array(gvec));
                    assert(decreases_to!(gvec => gvec@));
                    assert(decreases_to!(gvec@ => first));
                }
                let cleared = clear_value(first);
                out.push(cleared);
            }
            let r = mk_array_value(out);
            proof {
                let sv = value_view(v)->Array_0;
                assert(value_view(r)->Array_0 =~= spec_clear_value(value_view(v))->Array_0);
                assert(value_view(r) =~= spec_clear_value(value_view(v)));
            }
            r
        },
        Value::Table(t) => {
            let r = mk_table_value(clear_table(t));
            proof {
                assert(value_view(r) =~= spec_clear_value(value_view(v)));
            }
            r
        },
        Value::Commented(c) => {
            let CommentValue { val, comment, beginline } = c;
            let inner = clear_value(*val);
            let r = mk_commented_value(
                CommentValue { val: Box::new(inner), comment, beginline },
            );
            proof {
                assert(value_view(r) =~= spec_clear_value(value_view(v)));
            }
            r
        },
        other => {
            proof {
                assert(value_view(other) == spec_clear_value(value_view(other)));
            }
            other
        },
    }
}

/// Clears the parsing tags of `t` and of every table below it.
#[verifier::loop_isolation(false)]
pub fn clear_table(t: Table) -> (r: Table)
    ensures
        r@ == spec_clear_table(t@),
    decreases t,
{
    let ghost gt = t@;
    let ghost gt0 = t;
    let mut src = t.entries;
    let ghost gentries = src@;
    let mut out: Vec<(String, Value)> = Vec::new();
    let n = src.len();
    while out.len() < n
        invariant
            src@.len() + out@.len() == n == gentries.len(),
            src@ =~= gentries.skip(out@.len() as int),
            gt.entries.len() == gentries.len(),
            forall|j: int|
                0 <= j < gentries.len() ==> #[trigger] gt.entries[j] == (
                    gentries[j].0@,
                    value_view(gentries[j].1),
                ),
            forall|j: int|
                0 <= j < out@.len() ==> (#[trigger] out@[j]).0@ == gentries[j].0@ && value_view(
                    out@[j].1,
                ) == spec_clear_value(value_view(gentries[j].1)),
        decreases n - out@.len(),
    {
        let (k, val) = src.remove(0);
        proof {
            assert((k, val) == gentries[out@.len() as int]);
            assert(src@ =~= gentries.skip(out@.len() as int + 1));
            assert(decreases_to!(gt0 => gt0.entries));
            assert(decreases_to!(gt0.entries => gt0.entries@));
            assert(gt0.entries@ == gentries);
            assert(decreases_to!(gt0.entries@ => gentries[out@.len() as int]));
            assert(decreases_to!(gentries[out@.len() as int] => val));
        }
        let cleared = clear_value(val);
        out.push((k, cleared));
    }
    let r = Table { entries: out, implicit: false };
    proof {
        assert(r@.entries =~= spec_clear_table(gt).entries);
        assert(r@ =~= spec_clear_table(gt));
    }
    r
}

/// A value whose ghost form is a table is itself a table.
pub proof fn lemma_view_table_shape(x: Value)
    requires
        value_view(x) is Table,
    ensures
        x matches Value::Table(_),
{
    match x {
        Value::Table(_) => {},
        Value::Bool(_) => {
            assert(false);
        },
        Value::Int(_) => {
            assert(false);
        },
        Value::FloatText(_) => {
            assert(false);
        },
        Value::Str(_) => {
            assert(false);
        },
        Value::Date(_) => {
            assert(false);
        },
        Value::Time(_) => {
            assert(false);
        },
        Value::Datetime(_) => {
            assert(false);
        },
        Value::Array(_) => {
            assert(false);
        },
        Value::Commented(_) => {
            assert(false);
        },
    }
}

/// All keys of all tables in `v` are unique within their table.
pub open spec fn spec_value_wf(v: SpecValue) -> bool
    decreases v,
{
    match v {
        SpecValue::Array(items) => forall|i: int|
            0 <= i < items.len() ==> spec_value_wf(#[trigger] items[i]),
        SpecValue::Table(t) => spec_table_wf(t),
        SpecValue::Commented(c) => spec_value_wf(*c.val),
        _ => true,
    }
}

/// Keys unique at this level and every nested value well-formed.
pub open spec fn spec_table_wf(t: SpecTable) -> bool
    decreases t,
{
    &&& forall|i: int, j: int|
        0 <= i < j < t.entries.len() ==> (#[trigger] t.entries[i]).0 != (#[trigger] t.entries[j]).0
    &&& forall|i: int| 0 <= i < t.entries.len() ==> spec_value_wf((#[trigger] t.entries[i]).1)
}

impl CommentValue {
    /// Wraps `val` with `comment`; `beginline` records whether the comment
    /// stood on its own line above the value.
    pub fn new(val: Value, comment: String, beginline: bool) -> (r: CommentValue)
        ensures
            r@.val == Box::new(value_view(val)),
            r@.comment == comment@,
            r@.beginline == beginline,
    {
        CommentValue { val: Box::new(val), comment, beginline }
    }

    /// Indexed read forwarded to the wrapped value: the element of a
    /// wrapped array, if there is one at `i`.
    pub fn get_item(&self, i: usize) -> (r: Option<&Value>)
        ensures
            r matches Some(v) ==> (*self.val) matches Value::Array(items) && i < items@.len()
                && v@ == value_view(items@[i as int]),
            r is None ==> !((*self.val) matches Value::Array(items) && i < items@.len()),
    {
        match &*self.val {
            Value::Array(items) => {
                if i < items.len() {
                    Some(&items[i])
                } else {
                    None
                }
            },
            _ => None,
        }
    }

    /// Indexed write forwarded to the wrapped value: replaces the element
    /// of a wrapped array. Returns false, and changes nothing, when the
    /// wrapped value is no array or the index is out of range.
    pub fn set_item(&mut self, i: usize, v: Value) -> (r: bool)
        ensures
            r == ((*old(self).val) matches Value::Array(items) && i < items@.len()),
            r ==> ((*old(self).val) matches Value::Array(items)
                && ((*final(self).val) matches Value::Array(new_items) && new_items@
                == items@.update(i as int, v)) && final(self).comment == old(self).comment
                && final(self).beginline == old(self).beginline),
            !r ==> *final(self) == *old(self),
    {
        let ok = match &*self.val {
            Value::Array(items) => i < items.len(),
            _ => false,
        };
        if !ok {
            return false;
        }
        match &mut *self.val {
            Value::Array(items) => {
                items[i] = v;
                true
            },
            _ => {
                proof {
                    assert(false);
                }
                false
            },
        }
    }

    /// Renders the wrapped value's text together with the comment: the
    /// comment on its own line above when it was a `before` comment, after
    /// the value separated by one space otherwise. `rendered` is the text
    /// of the wrapped value alone.
    pub fn dump(&self, rendered: &str) -> (r: String)
        ensures
            self.beginline ==> r@ == self.comment@ + "\n"@ + rendered@,
            !self.beginline ==> r@ == rendered@ + " "@ + self.comment@,
    {
        let mut v: Vec<char> = Vec::new();
        if self.beginline {
            crate::error::append_all(&mut v, &crate::strutil::str_chars(self.comment.as_str()));
            crate::error::append_all(&mut v, &crate::strutil::str_chars("\n"));
            crate::error::append_all(&mut v, &crate::strutil::str_chars(rendered));
        } else {
            crate::error::append_all(&mut v, &crate::strutil::str_chars(rendered));
            crate::error::append_all(&mut v, &crate::strutil::str_chars(" "));
            crate::error::append_all(&mut v, &crate::strutil::str_chars(self.comment.as_str()));
        }
        proof {
            assert(v@ =~= if self.beginline {
                self.comment@ + "\n"@ + rendered@
            } else {
                rendered@ + " "@ + self.comment@
            });
        }
        crate::strutil::chars_string(&v)
    }
}

} // verus!
