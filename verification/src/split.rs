//! Quote- and bracket-aware splitting: locating the `=` of a key/value
//! line outside quoted segments, and breaking an array or inline-table
//! interior on its top-level commas.

use vstd::prelude::*;

verus! {

/// The quote state after reading `c` in state `q`: a quote character
/// opens a segment, the matching one closes it, the other kind is literal
/// inside.
pub open spec fn spec_quote_step(q: Option<char>, c: char) -> Option<char> {
    match q {
        None => if c == '"' || c == '\'' {
            Some(c)
        } else {
            None
        },
        Some(x) => if c == x {
            None
        } else {
            Some(x)
        },
    }
}

/// Index of the first `=` of `s` at or after `i` that stands outside
/// every quoted segment, starting in quote state `q`; -1 when there is
/// none.
pub open spec fn spec_find_eq_from(s: Seq<char>, i: int, q: Option<char>) -> int
    decreases s.len() - i,
{
    if i < 0 || i >= s.len() {
        -1
    } else if q is None && s[i] == '=' {
        i
    } else {
        spec_find_eq_from(s, i + 1, spec_quote_step(q, s[i]))
    }
}

/// Index of the first unquoted `=` of `s`, or -1.
pub open spec fn spec_find_eq(s: Seq<char>) -> int {
    spec_find_eq_from(s, 0, None)
}

proof fn lemma_find_eq_from_range(s: Seq<char>, i: int, q: Option<char>)
    requires
        0 <= i,
    ensures
        spec_find_eq_from(s, i, q) >= 0 ==> i <= spec_find_eq_from(s, i, q) < s.len(),
    decreases s.len() - i,
{
    if i < s.len() && !(q is None && s[i] == '=') {
        lemma_find_eq_from_range(s, i + 1, spec_quote_step(q, s[i]));
    }
}

/// A found `=` lies inside the sequence.
pub proof fn lemma_find_eq_in_range(s: Seq<char>)
    ensures
        spec_find_eq(s) >= 0 ==> 0 <= spec_find_eq(s) < s.len(),
{
    lemma_find_eq_from_range(s, 0, None);
}

/// First unquoted `=` of `s`, if any.
pub fn find_unquoted_eq(s: &Vec<char>) -> (r: Option<usize>)
    ensures
        r matches Some(i) ==> spec_find_eq(s@) == i as int && i < s@.len(),
        r is None ==> spec_find_eq(s@) < 0,
{
    let slen = s.len();
    let mut i: usize = 0;
    let mut q: Option<char> = None;
    while i < slen
        invariant
            0 <= i <= slen == s@.len(),
            spec_find_eq(s@) == spec_find_eq_from(s@, i as int, q),
        decreases slen - i,
    {
        let c = s[i];
        if q.is_none() && c == '=' {
            return Some(i);
        }
        q = match q {
            None => if c == '"' || c == '\'' {
                Some(c)
            } else {
                None
            },
            Some(x) => if c == x {
                None
            } else {
                Some(x)
            },
        };
        i += 1;
    }
    None
}

/// One step of the splitter state: quotes toggle as above; outside quotes
/// an opening bracket or brace deepens the nesting and a closing one
/// leaves it.
pub open spec fn spec_depth_step(depth: int, q: Option<char>, c: char) -> int {
    if q is Some {
        depth
    } else if c == '[' || c == '{' {
        depth + 1
    } else if c == ']' || c == '}' {
        depth - 1
    } else {
        depth
    }
}

/// The pieces of `s[i..]` split on commas that stand at nesting depth
/// zero outside quotes, continuing a piece `cur` with earlier pieces
/// `acc`.
pub open spec fn spec_split_rec(
    s: Seq<char>,
    i: int,
    depth: int,
    q: Option<char>,
    cur: Seq<char>,
    acc: Seq<Seq<char>>,
) -> Seq<Seq<char>>
    decreases s.len() - i,
{
    if i < 0 || i >= s.len() {
        acc.push(cur)
    } else {
        let c = s[i];
        if q is None && depth == 0 && c == ',' {
            spec_split_rec(s, i + 1, depth, q, Seq::empty(), acc.push(cur))
        } else {
            spec_split_rec(
                s,
                i + 1,
                spec_depth_step(depth, q, c),
                spec_quote_step(q, c),
                cur.push(c),
                acc,
            )
        }
    }
}

/// The pieces of `s` split on top-level commas. Commas inside quoted
/// strings, nested arrays or inline tables do not split; the result is
/// never empty.
pub open spec fn spec_split_top(s: Seq<char>) -> Seq<Seq<char>> {
    spec_split_rec(s, 0, 0, None, Seq::empty(), Seq::empty())
}

/// Every piece of the split is at most as long as what remains of the
/// input plus the piece under construction.
proof fn lemma_split_rec_len(
    s: Seq<char>,
    i: int,
    depth: int,
    q: Option<char>,
    cur: Seq<char>,
    acc: Seq<Seq<char>>,
    bound: int,
)
    requires
        0 <= i <= s.len(),
        cur.len() + (s.len() - i) <= bound,
        forall|k: int| 0 <= k < acc.len() ==> (#[trigger] acc[k]).len() <= bound,
    ensures
        forall|k: int|
            0 <= k < spec_split_rec(s, i, depth, q, cur, acc).len() ==> (#[trigger] spec_split_rec(
                s,
                i,
                depth,
                q,
                cur,
                acc,
            )[k]).len() <= bound,
    decreases s.len() - i,
{
    let res = spec_split_rec(s, i, depth, q, cur, acc);
    if i >= s.len() {
        let r = acc.push(cur);
        assert(res == r);
        assert forall|k: int| 0 <= k < res.len() implies (#[trigger] res[k]).len() <= bound by {
            if k < acc.len() {
                assert(res[k] == acc[k]);
            } else {
                assert(res[k] == cur);
            }
        }
    } else {
        let c = s[i];
        if q is None && depth == 0 && c == ',' {
            let acc2 = acc.push(cur);
            assert(forall|k: int| 0 <= k < acc2.len() ==> (#[trigger] acc2[k]).len() <= bound);
            lemma_split_rec_len(s, i + 1, depth, q, Seq::empty(), acc2, bound);
            let inner = spec_split_rec(s, i + 1, depth, q, Seq::empty(), acc2);
            assert(res == inner);
            assert forall|k: int| 0 <= k < res.len() implies (#[trigger] res[k]).len() <= bound by {
                assert(res[k] == inner[k]);
            }
        } else {
            lemma_split_rec_len(
                s,
                i + 1,
                spec_depth_step(depth, q, c),
                spec_quote_step(q, c),
                cur.push(c),
                acc,
                bound,
            );
            let inner = spec_split_rec(
                s,
                i + 1,
                spec_depth_step(depth, q, c),
                spec_quote_step(q, c),
                cur.push(c),
                acc,
            );
            assert(res == inner);
            assert forall|k: int| 0 <= k < res.len() implies (#[trigger] res[k]).len() <= bound by {
                assert(res[k] == inner[k]);
            }
        }
    }
}

/// Each piece of a top-level split is at most as long as the input.
pub proof fn lemma_split_top_len(s: Seq<char>)
    ensures
        forall|k: int|
            0 <= k < spec_split_top(s).len() ==> (#[trigger] spec_split_top(s)[k]).len() <= s.len(),
{
    lemma_split_rec_len(s, 0, 0, None, Seq::empty(), Seq::empty(), s.len() as int);
}

/// Splits `s` on its top-level commas.
pub fn split_top_level(s: &Vec<char>) -> (r: Vec<Vec<char>>)
    ensures
        r@.len() == spec_split_top(s@).len(),
        forall|k: int| 0 <= k < r@.len() ==> (#[trigger] r@[k])@ == spec_split_top(s@)[k],
        r@.len() > 0,
        forall|k: int| 0 <= k < r@.len() ==> (#[trigger] r@[k])@.len() <= s@.len(),
{
    let slen = s.len();
    let mut i: usize = 0;
    let mut depth: i128 = 0;
    let mut q: Option<char> = None;
    let mut cur: Vec<char> = Vec::new();
    let mut acc: Vec<Vec<char>> = Vec::new();
    let ghost mut gacc: Seq<Seq<char>> = Seq::empty();
    proof {
        assert(cur@ =~= Seq::<char>::empty());
    }
    while i < slen
        invariant
            0 <= i <= slen == s@.len(),
            spec_split_top(s@) == spec_split_rec(s@, i as int, depth as int, q, cur@, gacc),
            cur@.len() <= i,
            -(i as int) <= depth as int <= i as int,
            gacc.len() == acc@.len(),
            forall|k: int| 0 <= k < acc@.len() ==> (#[trigger] acc@[k])@ == gacc[k],
        decreases slen - i,
    {
        let c = s[i];
        if q.is_none() && depth == 0 && c == ',' {
            let done = cur;
            cur = Vec::new();
            proof {
                gacc = gacc.push(done@);
            }
            acc.push(done);
            proof {
                assert(cur@ =~= Seq::<char>::empty());
            }
        } else {
            if q.is_none() {
                if c == '[' || c == '{' {
                    depth = depth + 1;
                } else if c == ']' || c == '}' {
                    depth = depth - 1;
                }
                q = if c == '"' || c == '\'' {
                    Some(c)
                } else {
                    None
                };
            } else {
                let x = match q {
                    Some(x) => x,
                    None => ' ',
                };
                if c == x {
                    q = None;
                }
            }
            cur.push(c);
        }
        i += 1;
    }
    proof {
        gacc = gacc.push(cur@);
    }
    acc.push(cur);
    proof {
        assert(spec_split_top(s@) == gacc);
        lemma_split_top_len(s@);
        assert forall|k: int| 0 <= k < acc@.len() implies (#[trigger] acc@[k])@.len()
            <= s@.len() by {
            assert(acc@[k]@ == spec_split_top(s@)[k]);
        }
    }
    acc
}

} // verus!
