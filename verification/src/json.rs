//! The string values that a JSON text gives a key, found by a plain scan: enough for
//! the flat, escape-free values that release and palette feeds carry.
use vstd::prelude::*;
use crate::text::{is_space, chars_of, find_from, index_of, lemma_index_of, push_str, range_eq, skip_spaces, space_run_end, substring, views};

verus! {

/// `"key"`: the key in double quotes, as the scan looks for it.
pub open spec fn quoted(key: Seq<char>) -> Seq<char> {
    seq!['"'] + key + seq!['"']
}

/// The string value that follows a key ending at `j`: white space, `:`, white space,
/// `"`, then everything up to the next `"`. None where that shape is not there.
pub open spec fn value_after(s: Seq<char>, j: int) -> Option<Seq<char>> {
    let k = space_run_end(s, j);
    if 0 <= k < s.len() && s[k] == ':' {
        let m = space_run_end(s, k + 1);
        if 0 <= m < s.len() && s[m] == '"' {
            match index_of(s, '"', m + 1) {
                Some(e) => Some(s.subrange(m + 1, e)),
                None => None,
            }
        } else {
            None
        }
    } else {
        None
    }
}

/// The values after the occurrences of `p` in `s` from `i` on, found left to right
/// without overlap, as `str::match_indices` finds them.
pub open spec fn values_from(s: Seq<char>, p: Seq<char>, i: int) -> Seq<Seq<char>>
    decreases s.len() - i,
{
    if p.len() == 0 || i < 0 || i + p.len() > s.len() {
        Seq::empty()
    } else if s.subrange(i, i + p.len()) == p {
        let rest = values_from(s, p, i + p.len());
        match value_after(s, i + p.len()) {
            Some(x) => seq![x] + rest,
            None => rest,
        }
    } else {
        values_from(s, p, i + 1)
    }
}

/// Every string value of `"key"` in the JSON text `json`, in order.
pub open spec fn json_values(json: Seq<char>, key: Seq<char>) -> Seq<Seq<char>> {
    values_from(json, quoted(key), 0)
}

/// The bounds of the string value that follows a key ending at `j`.
fn value_range(v: &Vec<char>, j: usize) -> (r: Option<(usize, usize)>)
    requires
        j <= v.len(),
    ensures
        match (r, value_after(v@, j as int)) {
            (Some((a, b)), Some(x)) => a <= b <= v.len() && v@.subrange(a as int, b as int) == x,
            (None, None) => true,
            _ => false,
        },
{
    let k = skip_spaces(v, j);
    if k < v.len() && v[k] == ':' {
        let m = skip_spaces(v, k + 1);
        if m < v.len() && v[m] == '"' {
            match find_from(v, m + 1, '"') {
                Some(e) => Some((m + 1, e)),
                None => None,
            }
        } else {
            None
        }
    } else {
        None
    }
}

/// Every string value of `"key"` in a JSON document, in order.
pub fn json_strings(json: &str, key: &str) -> (r: Vec<String>)
    ensures
        views(r@) == json_values(json@, key@),
{
    let v = chars_of(json);
    let mut p: Vec<char> = Vec::new();
    p.push('"');
    push_str(&mut p, key);
    p.push('"');
    assert(p@ =~= quoted(key@));
    let mut out: Vec<String> = Vec::new();
    let mut i: usize = 0;
    while p.len() <= v.len() && i <= v.len() - p.len()
        invariant
            v@ == json@,
            p@ == quoted(key@),
            i <= v.len(),
            json_values(json@, key@) == views(out@) + values_from(v@, p@, i as int),
        decreases v.len() - i,
    {
        let ghost before = out@;
        let end = i + p.len();
        if range_eq(&v, i, end, &p) {
            match value_range(&v, end) {
                Some((a, b)) => {
                    let x = substring(&v, a, b);
                    out.push(x);
                    assert(views(out@) =~= views(before).push(x@));
                },
                None => {},
            }
            assert(views(out@) + values_from(v@, p@, end as int) =~= views(before)
                + values_from(v@, p@, i as int));
            i = end;
        } else {
            i += 1;
        }
    }
    assert(views(out@) + values_from(v@, p@, i as int) =~= views(out@));
    out
}


proof fn lemma_value_after_unquoted(s: Seq<char>, j: int)
    ensures
        value_after(s, j) matches Some(x) ==> forall|k: int| 0 <= k < x.len() ==> x[k] != '"',
{
    let k = space_run_end(s, j);
    if 0 <= k < s.len() && s[k] == ':' {
        let m = space_run_end(s, k + 1);
        lemma_index_of(s, '"', m + 1);
        if let Some(x) = value_after(s, j) {
            assert forall|i: int| 0 <= i < x.len() implies x[i] != '"' by {
                assert(x[i] == s[m + 1 + i]);
            }
        }
    }
}

proof fn lemma_values_from_unquoted(s: Seq<char>, p: Seq<char>, i: int)
    ensures
        forall|n: int, k: int|
            0 <= n < values_from(s, p, i).len() && 0 <= k < values_from(s, p, i)[n].len()
                ==> values_from(s, p, i)[n][k] != '"',
    decreases s.len() - i,
{
    if p.len() == 0 || i < 0 || i + p.len() > s.len() {
    } else if s.subrange(i, i + p.len()) == p {
        lemma_values_from_unquoted(s, p, i + p.len());
        lemma_value_after_unquoted(s, i + p.len());
        let rest = values_from(s, p, i + p.len());
        if let Some(x) = value_after(s, i + p.len()) {
            let all = values_from(s, p, i);
            assert(all == seq![x] + rest);
            assert forall|n: int, k: int| 0 <= n < all.len() && 0 <= k < all[n].len() implies all[n][k]
                != '"' by {
                if n == 0 {
                    assert(all[n] == x);
                } else {
                    assert(all[n] == rest[n - 1]);
                }
            }
        } else {
            assert(values_from(s, p, i) == rest);
        }
    } else {
        lemma_values_from_unquoted(s, p, i + 1);
        assert(values_from(s, p, i) == values_from(s, p, i + 1));
    }
}

/// The values found never hold a double quote: each ends at the first `"` after its
/// opening one.
pub proof fn law_json_values_unquoted(json: Seq<char>, key: Seq<char>, n: int, k: int)
    requires
        0 <= n < json_values(json, key).len(),
        0 <= k < json_values(json, key)[n].len(),
    ensures
        json_values(json, key)[n][k] != '"',
{
    lemma_values_from_unquoted(json, quoted(key), 0);
}


proof fn lemma_space_run_end_over(s: Seq<char>, i: int, n: int)
    requires
        0 <= i <= i + n <= s.len(),
        forall|k: int| i <= k < i + n ==> is_space(s[k]),
        i + n < s.len() ==> !is_space(s[i + n]),
    ensures
        space_run_end(s, i) == i + n,
    decreases n,
{
    if n > 0 {
        lemma_space_run_end_over(s, i + 1, n - 1);
    }
}

/// A text that starts with `"key"`, white space, `:`, white space and a quoted value
/// gives that value first, whatever follows it.
pub proof fn law_json_first_value(
    key: Seq<char>,
    ws1: Seq<char>,
    ws2: Seq<char>,
    value: Seq<char>,
    rest: Seq<char>,
)
    requires
        forall|i: int| 0 <= i < ws1.len() ==> is_space(ws1[i]),
        forall|i: int| 0 <= i < ws2.len() ==> is_space(ws2[i]),
        forall|i: int| 0 <= i < value.len() ==> value[i] != '"',
    ensures
        ({
            let json = quoted(key) + ws1 + seq![':'] + ws2 + seq!['"'] + value + seq!['"'] + rest;
            json_values(json, key).len() > 0 && json_values(json, key)[0] == value
        }),
{
    let p = quoted(key);
    let json = p + ws1 + seq![':'] + ws2 + seq!['"'] + value + seq!['"'] + rest;
    let j = p.len() as int;
    assert(json.subrange(0, j) =~= p);
    let k = j + ws1.len();
    assert forall|i: int| j <= i < k implies is_space(json[i]) by {
        assert(json[i] == ws1[i - j]);
    }
    assert(json[k] == ':');
    lemma_space_run_end_over(json, j, ws1.len() as int);
    let m = k + 1 + ws2.len();
    assert forall|i: int| k + 1 <= i < m implies is_space(json[i]) by {
        assert(json[i] == ws2[i - k - 1]);
    }
    assert(json[m] == '"');
    lemma_space_run_end_over(json, k + 1, ws2.len() as int);
    let e = m + 1 + value.len();
    assert forall|i: int| m + 1 <= i < e implies json[i] != '"' by {
        assert(json[i] == value[i - m - 1]);
    }
    assert(json[e] == '"');
    crate::text::lemma_index_of_first(json, '"', m + 1, e);
    assert(json.subrange(m + 1, e) =~= value);
    assert(value_after(json, j) == Some(value));
    let later = values_from(json, p, j);
    assert(values_from(json, p, 0) == seq![value] + later);
}

} // verus!
