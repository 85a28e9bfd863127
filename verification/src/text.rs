//! Characters and strings: Unicode white space, trimming, decimal and hexadecimal
//! digits, and the conversions between `str`, `String` and vectors of `char`.
use vstd::prelude::*;

verus! {

/// The Unicode `White_Space` property, which `char::is_whitespace` tests.
pub open spec fn is_space(c: char) -> bool {
    ||| '\t' <= c <= '\r'
    ||| c == ' '
    ||| c == '\u{85}'
    ||| c == '\u{a0}'
    ||| c == '\u{1680}'
    ||| '\u{2000}' <= c <= '\u{200a}'
    ||| c == '\u{2028}'
    ||| c == '\u{2029}'
    ||| c == '\u{202f}'
    ||| c == '\u{205f}'
    ||| c == '\u{3000}'
}

/// Whether `c` is white space, as `char::is_whitespace` says.
pub fn is_space_char(c: char) -> (b: bool)
    ensures
        b == is_space(c),
{
    ('\t' <= c && c <= '\r') || c == ' ' || c == '\u{85}' || c == '\u{a0}' || c == '\u{1680}'
        || ('\u{2000}' <= c && c <= '\u{200a}') || c == '\u{2028}' || c == '\u{2029}'
        || c == '\u{202f}' || c == '\u{205f}' || c == '\u{3000}'
}

/// The characters of `s`, in order.
pub fn chars_of(s: &str) -> (v: Vec<char>)
    ensures
        v@ == s@,
{
    let mut v: Vec<char> = Vec::new();
    for c in it: s.chars()
        invariant
            v@ == it.seq().take(it.index() as int),
    {
        v.push(c);
    }
    v
}


/// The view of each string of `v`.
pub open spec fn views(v: Seq<String>) -> Seq<Seq<char>> {
    v.map_values(|x: String| x@)
}

/// The string whose characters are `v`.
#[verifier::external_body]
pub fn string_from(v: &Vec<char>) -> (s: String)
    ensures
        s@ == v@,
{
    v.iter().collect()
}

/// The string made of `v[lo..hi]`.
pub fn substring(v: &Vec<char>, lo: usize, hi: usize) -> (s: String)
    requires
        lo <= hi <= v.len(),
    ensures
        s@ == v@.subrange(lo as int, hi as int),
{
    let mut w: Vec<char> = Vec::new();
    let mut i = lo;
    while i < hi
        invariant
            lo <= i <= hi <= v.len(),
            w@ == v@.subrange(lo as int, i as int),
        decreases hi - i,
    {
        w.push(v[i]);
        i += 1;
        assert(w@ =~= v@.subrange(lo as int, i as int));
    }
    string_from(&w)
}

/// Appends the characters of `s` to `out`.
pub fn push_str(out: &mut Vec<char>, s: &str)
    ensures
        final(out)@ == old(out)@ + s@,
{
    let ghost start = out@;
    for c in it: s.chars()
        invariant
            out@ == start + it.seq().take(it.index() as int),
    {
        out.push(c);
        assert(out@ =~= start + it.seq().take(it.index() + 1));
    }
}

/// Whether `v[lo..hi]` is the string `lit`.
pub fn range_is(v: &Vec<char>, lo: usize, hi: usize, lit: &str) -> (b: bool)
    requires
        lo <= hi <= v.len(),
    ensures
        b == (v@.subrange(lo as int, hi as int) == lit@),
{
    let w = chars_of(lit);
    range_eq(v, lo, hi, &w)
}

/// Whether `v[lo..hi]` holds the characters of `w`.
pub fn range_eq(v: &Vec<char>, lo: usize, hi: usize, w: &Vec<char>) -> (b: bool)
    requires
        lo <= hi <= v.len(),
    ensures
        b == (v@.subrange(lo as int, hi as int) == w@),
{
    if hi - lo != w.len() {
        return false;
    }
    let mut k: usize = 0;
    while k < w.len()
        invariant
            lo <= hi <= v.len(),
            hi - lo == w.len(),
            0 <= k <= w.len(),
            forall|m: int| 0 <= m < k ==> v@[lo + m] == w@[m],
        decreases w.len() - k,
    {
        if v[lo + k] != w[k] {
            assert(v@.subrange(lo as int, hi as int)[k as int] != w@[k as int]);
            return false;
        }
        k += 1;
    }
    assert(v@.subrange(lo as int, hi as int) =~= w@);
    true
}

/// The end of the run of white space in `v` that starts at `i`.
pub fn skip_spaces(v: &Vec<char>, i: usize) -> (r: usize)
    requires
        i <= v.len(),
    ensures
        r == space_run_end(v@, i as int),
        i <= r <= v.len(),
{
    let mut j = i;
    while j < v.len() && is_space_char(v[j])
        invariant
            i <= j <= v.len(),
            space_run_end(v@, i as int) == space_run_end(v@, j as int),
        decreases v.len() - j,
    {
        j += 1;
    }
    j
}

/// The first index at or after `i` where `v` holds `c`.
pub fn find_from(v: &Vec<char>, i: usize, c: char) -> (r: Option<usize>)
    ensures
        match (r, index_of(v@, c, i as int)) {
            (Some(x), Some(k)) => x == k && i <= x < v.len(),
            (None, None) => true,
            _ => false,
        },
{
    let mut j = i;
    while j < v.len()
        invariant
            i <= j,
            index_of(v@, c, i as int) == index_of(v@, c, j as int),
        decreases v.len() - j,
    {
        if v[j] == c {
            return Some(j);
        }
        j += 1;
    }
    None
}

// ---------------------------------------------------------------- trimming

/// The end of the run of white space that starts at `i`.
pub open spec fn space_run_end(s: Seq<char>, i: int) -> int
    decreases s.len() - i,
{
    if 0 <= i < s.len() && is_space(s[i]) {
        space_run_end(s, i + 1)
    } else {
        i
    }
}

/// The start of the run of white space that ends at `j`.
pub open spec fn space_run_start(s: Seq<char>, j: int) -> int
    decreases j,
{
    if 0 < j <= s.len() && is_space(s[j - 1]) {
        space_run_start(s, j - 1)
    } else {
        j
    }
}

/// `s` without its leading white space, as `str::trim_start` gives it.
pub open spec fn trim_start(s: Seq<char>) -> Seq<char> {
    s.skip(space_run_end(s, 0))
}

/// `s` without its trailing white space, as `str::trim_end` gives it.
pub open spec fn trim_end(s: Seq<char>) -> Seq<char> {
    s.take(space_run_start(s, s.len() as int))
}

/// `s` without white space at either end, as `str::trim` gives it.
pub open spec fn trim(s: Seq<char>) -> Seq<char> {
    trim_end(trim_start(s))
}

/// The bounds of `v[lo..hi]` with the white space at both ends left out.
pub fn trim_range(v: &Vec<char>, lo: usize, hi: usize) -> (r: (usize, usize))
    requires
        lo <= hi <= v.len(),
    ensures
        lo <= r.0 <= r.1 <= hi,
        v@.subrange(r.0 as int, r.1 as int) == trim(v@.subrange(lo as int, hi as int)),
{
    let ghost t = v@.subrange(lo as int, hi as int);
    let mut i = lo;
    while i < hi && is_space_char(v[i])
        invariant
            lo <= i <= hi <= v.len(),
            t == v@.subrange(lo as int, hi as int),
            space_run_end(t, 0) == space_run_end(t, i - lo),
        decreases hi - i,
    {
        i += 1;
    }
    assert(space_run_end(t, i - lo) == i - lo);
    let ghost u = v@.subrange(i as int, hi as int);
    assert(trim_start(t) =~= u);
    let mut j = hi;
    while j > i && is_space_char(v[j - 1])
        invariant
            lo <= i <= j <= hi <= v.len(),
            u == v@.subrange(i as int, hi as int),
            space_run_start(u, u.len() as int) == space_run_start(u, j - i),
        decreases j,
    {
        j -= 1;
    }
    assert(space_run_start(u, j - i) == j - i);
    assert(trim_end(u) =~= v@.subrange(i as int, j as int));
    (i, j)
}


// ---------------------------------------------------------------- digits

/// The character of the decimal digit `d`.
pub open spec fn digit(d: int) -> char {
    (d + 48) as char
}

/// The character of the upper-case hexadecimal digit `d`.
pub open spec fn hex_digit(d: int) -> char {
    if d < 10 {
        (d + 48) as char
    } else {
        (d + 55) as char
    }
}

/// Whether `c` is an ASCII decimal digit.
pub open spec fn is_digit(c: char) -> bool {
    '0' <= c <= '9'
}

/// Whether `c` is an ASCII hexadecimal digit, of either case.
pub open spec fn is_hex(c: char) -> bool {
    ||| '0' <= c <= '9'
    ||| 'a' <= c <= 'f'
    ||| 'A' <= c <= 'F'
}

/// The value of the decimal digit `c`.
pub open spec fn digit_value(c: char) -> int {
    c as int - 48
}

/// The value of the hexadecimal digit `c`.
pub open spec fn hex_value_of(c: char) -> int {
    if '0' <= c <= '9' {
        c as int - 48
    } else if 'a' <= c <= 'f' {
        c as int - 87
    } else {
        c as int - 55
    }
}

/// Whether every character of `s` is a decimal digit.
pub open spec fn all_digits(s: Seq<char>) -> bool {
    forall|i: int| 0 <= i < s.len() ==> is_digit(#[trigger] s[i])
}

/// Whether every character of `s` is a hexadecimal digit.
pub open spec fn all_hex(s: Seq<char>) -> bool {
    forall|i: int| 0 <= i < s.len() ==> is_hex(#[trigger] s[i])
}

/// The number that the decimal digits `s` write.
pub open spec fn dec_value(s: Seq<char>) -> int
    decreases s.len(),
{
    if s.len() == 0 {
        0
    } else {
        dec_value(s.drop_last()) * 10 + digit_value(s.last())
    }
}

/// The number that the hexadecimal digits `s` write.
pub open spec fn hex_value(s: Seq<char>) -> int
    decreases s.len(),
{
    if s.len() == 0 {
        0
    } else {
        hex_value(s.drop_last()) * 16 + hex_value_of(s.last())
    }
}

/// The decimal digits of `n`, without leading zeros, as `Display` writes them.
pub open spec fn dec(n: nat) -> Seq<char>
    decreases n,
{
    if n < 10 {
        seq![digit(n as int)]
    } else {
        dec(n / 10).push(digit((n % 10) as int))
    }
}

/// `n` in decimal with a minus sign when it is negative, as `Display` writes it.
pub open spec fn signed_dec(n: int) -> Seq<char> {
    if n < 0 {
        seq!['-'] + dec((-n) as nat)
    } else {
        dec(n as nat)
    }
}

/// `n` as two upper-case hexadecimal digits, as `{:02X}` writes a byte.
pub open spec fn hex2(n: u8) -> Seq<char> {
    seq![hex_digit(n as int / 16), hex_digit(n as int % 16)]
}

/// `n` as at least two decimal digits, as `{:02}` writes it.
pub open spec fn dec2(n: nat) -> Seq<char> {
    if n < 10 {
        seq!['0', digit(n as int)]
    } else {
        dec(n)
    }
}

/// The character of the decimal digit `d`.
pub fn digit_char(d: u64) -> (c: char)
    requires
        d < 10,
    ensures
        c == digit(d as int),
{
    ((d as u8) + 48) as char
}

/// The character of the upper-case hexadecimal digit `d`.
pub fn hex_digit_char(d: u8) -> (c: char)
    requires
        d < 16,
    ensures
        c == hex_digit(d as int),
{
    if d < 10 {
        (d + 48) as char
    } else {
        (d + 55) as char
    }
}

/// Appends the decimal digits of `n` to `out`.
pub fn push_dec(out: &mut Vec<char>, n: u64)
    ensures
        final(out)@ == old(out)@ + dec(n as nat),
    decreases n,
{
    if n >= 10 {
        push_dec(out, n / 10);
    }
    out.push(digit_char(n % 10));
    assert(out@ =~= old(out)@ + dec(n as nat));
}

/// Appends `n` in decimal, with a minus sign when negative.
pub fn push_signed_dec(out: &mut Vec<char>, n: i32)
    ensures
        final(out)@ == old(out)@ + signed_dec(n as int),
{
    if n < 0 {
        out.push('-');
        let m: u64 = (0 - (n as i64)) as u64;
        push_dec(out, m);
        assert(out@ =~= old(out)@ + signed_dec(n as int));
    } else {
        push_dec(out, n as u64);
    }
}

/// Appends `n` as two upper-case hexadecimal digits.
pub fn push_hex2(out: &mut Vec<char>, n: u8)
    ensures
        final(out)@ == old(out)@ + hex2(n),
{
    out.push(hex_digit_char(n / 16));
    out.push(hex_digit_char(n % 16));
    assert(out@ =~= old(out)@ + hex2(n));
}

/// Appends `n` as at least two decimal digits.
pub fn push_dec2(out: &mut Vec<char>, n: u64)
    ensures
        final(out)@ == old(out)@ + dec2(n as nat),
{
    if n < 10 {
        out.push('0');
        out.push(digit_char(n));
        assert(out@ =~= old(out)@ + dec2(n as nat));
    } else {
        push_dec(out, n);
    }
}

/// The decimal digits of `n` are digits, at least one, and write `n` back.
pub proof fn lemma_dec_parses(n: nat)
    ensures
        dec(n).len() >= 1,
        all_digits(dec(n)),
        dec_value(dec(n)) == n,
    decreases n,
{
    let s = dec(n);
    if n >= 10 {
        lemma_dec_parses(n / 10);
        assert(s.drop_last() =~= dec(n / 10));
        assert(digit_value(digit((n % 10) as int)) == n % 10);
        assert(dec_value(s) == (n / 10) * 10 + n % 10);
    } else {
        assert(s.drop_last() =~= Seq::<char>::empty());
        assert(dec_value(s.drop_last()) == 0);
        assert(digit_value(digit(n as int)) == n);
        assert(dec_value(s) == digit_value(s.last()));
    }
}

/// A longer run of digits writes a number no smaller than its prefix.
pub proof fn lemma_dec_value_prefix(s: Seq<char>, k: int)
    requires
        all_digits(s),
        0 <= k <= s.len(),
    ensures
        0 <= dec_value(s.take(k)) <= dec_value(s),
    decreases s.len(),
{
    if k == s.len() {
        assert(s.take(k) =~= s);
        lemma_dec_value_nonneg(s);
    } else {
        let t = s.drop_last();
        assert(all_digits(t)) by {
            assert forall|i: int| 0 <= i < t.len() implies is_digit(#[trigger] t[i]) by {
                assert(t[i] == s[i]);
            }
        }
        lemma_dec_value_prefix(t, k);
        assert(t.take(k) =~= s.take(k));
        lemma_dec_value_nonneg(t);
        assert(is_digit(s[s.len() - 1]));
    }
}

pub proof fn lemma_dec_value_nonneg(s: Seq<char>)
    requires
        all_digits(s),
    ensures
        dec_value(s) >= 0,
    decreases s.len(),
{
    if s.len() > 0 {
        let t = s.drop_last();
        assert(all_digits(t)) by {
            assert forall|i: int| 0 <= i < t.len() implies is_digit(#[trigger] t[i]) by {
                assert(t[i] == s[i]);
            }
        }
        lemma_dec_value_nonneg(t);
        assert(is_digit(s[s.len() - 1]));
    }
}

/// The number that the digits `v[lo..hi]` write, if they are at least one digit, only
/// digits, and the number is at most `limit`.
pub fn parse_digits(v: &Vec<char>, lo: usize, hi: usize, limit: u64) -> (r: Option<u64>)
    requires
        lo <= hi <= v.len(),
    ensures
        r == (if lo < hi && all_digits(v@.subrange(lo as int, hi as int)) && dec_value(
            v@.subrange(lo as int, hi as int),
        ) <= limit {
            Some(dec_value(v@.subrange(lo as int, hi as int)) as u64)
        } else {
            None::<u64>
        }),
{
    let ghost t = v@.subrange(lo as int, hi as int);
    if lo == hi {
        return None;
    }
    let mut acc: u64 = 0;
    let mut i = lo;
    while i < hi
        invariant
            lo <= i <= hi <= v.len(),
            t == v@.subrange(lo as int, hi as int),
            all_digits(t.take(i - lo)),
            acc == dec_value(t.take(i - lo)),
            acc <= limit,
        decreases hi - i,
    {
        let c = v[i];
        assert(t.take(i + 1 - lo).drop_last() =~= t.take(i - lo));
        if !('0' <= c && c <= '9') {
            assert(!is_digit(t[i - lo]));
            return None;
        }
        let d = (c as u32 - 48) as u64;
        if acc > limit / 10 || limit - acc * 10 < d {
            proof {
                if all_digits(t) {
                    lemma_dec_value_prefix(t, i + 1 - lo);
                }
            }
            return None;
        }
        acc = acc * 10 + d;
        i += 1;
        assert(all_digits(t.take(i - lo))) by {
            assert forall|m: int| 0 <= m < i - lo implies is_digit(#[trigger] t.take(i - lo)[m]) by {
                if m < i - 1 - lo {
                    assert(t.take(i - lo)[m] == t.take(i - 1 - lo)[m]);
                }
            }
        }
    }
    assert(t.take(hi - lo) =~= t);
    Some(acc)
}


// ---------------------------------------------------------------- splitting

/// The pieces of `s` between the occurrences of `sep`, as `str::split` yields them:
/// always at least one, empty pieces included.
pub open spec fn split(s: Seq<char>, sep: char) -> Seq<Seq<char>>
    decreases s.len(),
{
    if s.len() == 0 {
        seq![Seq::<char>::empty()]
    } else {
        let t = split(s.drop_last(), sep);
        if s.last() == sep {
            t.push(Seq::<char>::empty())
        } else {
            t.update(t.len() - 1, t.last().push(s.last()))
        }
    }
}

/// `l` without one trailing carriage return.
pub open spec fn strip_cr(l: Seq<char>) -> Seq<char> {
    if l.len() > 0 && l.last() == '\r' {
        l.drop_last()
    } else {
        l
    }
}

/// The lines of `s`, as `str::lines` yields them: split at `\n`, a `\r` before the
/// `\n` removed, and no empty last line after a final `\n`.
pub open spec fn lines(s: Seq<char>) -> Seq<Seq<char>> {
    let p = split(s, '\n');
    let ended = p.drop_last().map_values(|l: Seq<char>| strip_cr(l));
    if p.last().len() == 0 {
        ended
    } else {
        ended.push(p.last())
    }
}

/// The first index at or after `i` where `s` holds `c`.
pub open spec fn index_of(s: Seq<char>, c: char, i: int) -> Option<int>
    decreases s.len() - i,
{
    if i < 0 || i >= s.len() {
        None
    } else if s[i] == c {
        Some(i)
    } else {
        index_of(s, c, i + 1)
    }
}

/// Where `index_of` finds `c`, it lies at or after `i` and `s` holds `c` there.
pub proof fn lemma_index_of(s: Seq<char>, c: char, i: int)
    ensures
        index_of(s, c, i) matches Some(k) ==> i <= k < s.len() && s[k] == c && forall|j: int|
            i <= j < k ==> s[j] != c,
    decreases s.len() - i,
{
    if 0 <= i < s.len() && s[i] != c {
        lemma_index_of(s, c, i + 1);
    }
}

pub proof fn lemma_split_len(s: Seq<char>, sep: char)
    ensures
        split(s, sep).len() >= 1,
    decreases s.len(),
{
    if s.len() > 0 {
        lemma_split_len(s.drop_last(), sep);
    }
}

/// Where a range of `v` holds `seg`.
pub open spec fn range_holds(v: Seq<char>, r: (usize, usize), seg: Seq<char>) -> bool {
    &&& r.0 <= r.1 <= v.len()
    &&& v.subrange(r.0 as int, r.1 as int) == seg
}

/// The bounds of the pieces of `v[lo..hi]` between the occurrences of `sep`.
pub fn split_ranges(v: &Vec<char>, lo: usize, hi: usize, sep: char) -> (r: Vec<(usize, usize)>)
    requires
        lo <= hi <= v.len(),
    ensures
        r.len() == split(v@.subrange(lo as int, hi as int), sep).len(),
        forall|k: int|
            0 <= k < r.len() ==> lo <= (#[trigger] r@[k]).0 && range_holds(
                v@,
                r@[k],
                split(v@.subrange(lo as int, hi as int), sep)[k],
            ),
{
    let ghost t = v@.subrange(lo as int, hi as int);
    let mut r: Vec<(usize, usize)> = Vec::new();
    let mut cur = lo;
    let mut i = lo;
    assert(t.take(0) =~= Seq::<char>::empty());
    assert(v@.subrange(lo as int, lo as int) =~= Seq::<char>::empty());
    while i < hi
        invariant
            lo <= cur <= i <= hi <= v.len(),
            t == v@.subrange(lo as int, hi as int),
            split(t.take(i - lo), sep).len() == r.len() + 1,
            forall|k: int|
                0 <= k < r.len() ==> lo <= (#[trigger] r@[k]).0 && r@[k].1 <= i && range_holds(
                    v@,
                    r@[k],
                    split(t.take(i - lo), sep)[k],
                ),
            v@.subrange(cur as int, i as int) == split(t.take(i - lo), sep).last(),
        decreases hi - i,
    {
        let ghost before = split(t.take(i - lo), sep);
        assert(t.take(i + 1 - lo).drop_last() =~= t.take(i - lo));
        assert(t.take(i + 1 - lo).last() == v@[i as int]);
        if v[i] == sep {
            r.push((cur, i));
            cur = i + 1;
            i += 1;
            assert(v@.subrange(cur as int, i as int) =~= Seq::<char>::empty());
        } else {
            i += 1;
            assert(v@.subrange(cur as int, i as int) =~= v@.subrange(cur as int, i - 1).push(
                v@[i - 1],
            ));
        }
        assert(forall|k: int|
            0 <= k < r.len() ==> lo <= (#[trigger] r@[k]).0 && r@[k].1 <= i && range_holds(
                v@,
                r@[k],
                split(t.take(i - lo), sep)[k],
            ));
    }
    assert(t.take(hi - lo) =~= t);
    r.push((cur, hi));
    r
}


/// The bounds of the lines of `v`, as `str::lines` yields them.
pub fn line_ranges(v: &Vec<char>) -> (r: Vec<(usize, usize)>)
    ensures
        r.len() == lines(v@).len(),
        forall|k: int| 0 <= k < r.len() ==> range_holds(v@, #[trigger] r@[k], lines(v@)[k]),
{
    let ghost s = v@;
    assert(v@.subrange(0, v.len() as int) =~= s);
    proof {
        lemma_split_len(s, '\n');
    }
    let p = split_ranges(v, 0, v.len(), '\n');
    let ghost sp = split(s, '\n');
    let ghost ended = sp.drop_last().map_values(|l: Seq<char>| strip_cr(l));
    let mut r: Vec<(usize, usize)> = Vec::new();
    let last = p.len() - 1;
    let mut k: usize = 0;
    while k < last
        invariant
            last + 1 == p.len() == sp.len(),
            sp == split(s, '\n'),
            s == v@,
            ended == sp.drop_last().map_values(|l: Seq<char>| strip_cr(l)),
            forall|m: int| 0 <= m < p.len() ==> range_holds(v@, #[trigger] p@[m], sp[m]),
            0 <= k <= last,
            r.len() == k,
            forall|m: int| 0 <= m < k ==> range_holds(v@, #[trigger] r@[m], ended[m]),
        decreases last - k,
    {
        let (a, b) = p[k];
        assert(range_holds(v@, p@[k as int], sp[k as int]));
        if b > a && v[b - 1] == '\r' {
            r.push((a, b - 1));
            assert(v@.subrange(a as int, b - 1) =~= sp[k as int].drop_last());
        } else {
            r.push((a, b));
        }
        k += 1;
    }
    let (a, b) = p[last];
    assert(range_holds(v@, p@[last as int], sp[last as int]));
    if b > a {
        r.push((a, b));
    }
    assert(forall|m: int| 0 <= m < r.len() ==> range_holds(v@, #[trigger] r@[m], lines(v@)[m]));
    r
}

/// Where `v[lo..hi]` first holds `c`, counted from the start of `v`.
pub fn find_in(v: &Vec<char>, lo: usize, hi: usize, c: char) -> (r: Option<usize>)
    requires
        lo <= hi <= v.len(),
    ensures
        match (r, index_of(v@.subrange(lo as int, hi as int), c, 0)) {
            (Some(x), Some(k)) => x == lo + k && lo <= x < hi,
            (None, None) => true,
            _ => false,
        },
{
    let ghost t = v@.subrange(lo as int, hi as int);
    let mut i = lo;
    while i < hi
        invariant
            lo <= i <= hi <= v.len(),
            t == v@.subrange(lo as int, hi as int),
            index_of(t, c, 0) == index_of(t, c, i - lo),
        decreases hi - i,
    {
        if v[i] == c {
            return Some(i);
        }
        i += 1;
    }
    None
}


/// The end of the run of `c` in `s` that starts at `i`.
pub open spec fn char_run_end(s: Seq<char>, c: char, i: int) -> int
    decreases s.len() - i,
{
    if 0 <= i < s.len() && s[i] == c {
        char_run_end(s, c, i + 1)
    } else {
        i
    }
}

/// `s` without the copies of `c` it starts with, as `str::trim_start_matches` gives it.
pub open spec fn trim_start_char(s: Seq<char>, c: char) -> Seq<char> {
    s.skip(char_run_end(s, c, 0))
}

/// Whether `s` ends with `suffix`.
pub open spec fn ends_with(s: Seq<char>, suffix: Seq<char>) -> bool {
    s.len() >= suffix.len() && s.skip(s.len() - suffix.len()) == suffix
}

/// The end of the run of `c` in `v` that starts at `i`.
pub fn skip_char(v: &Vec<char>, i: usize, c: char) -> (r: usize)
    requires
        i <= v.len(),
    ensures
        r == char_run_end(v@, c, i as int),
        i <= r <= v.len(),
{
    let mut j = i;
    while j < v.len() && v[j] == c
        invariant
            i <= j <= v.len(),
            char_run_end(v@, c, i as int) == char_run_end(v@, c, j as int),
        decreases v.len() - j,
    {
        j += 1;
    }
    j
}

/// `s` without the copies of `c` it starts with.
pub fn trim_start_matches(s: &str, c: char) -> (r: String)
    ensures
        r@ == trim_start_char(s@, c),
{
    let v = chars_of(s);
    let k = skip_char(&v, 0, c);
    let r = substring(&v, k, v.len());
    assert(r@ =~= trim_start_char(s@, c));
    r
}

/// Whether `s` ends with `suffix`.
pub fn str_ends_with(s: &str, suffix: &str) -> (b: bool)
    ensures
        b == ends_with(s@, suffix@),
{
    let v = chars_of(s);
    let w = chars_of(suffix);
    if v.len() < w.len() {
        return false;
    }
    let b = range_eq(&v, v.len() - w.len(), v.len(), &w);
    assert(v@.subrange(v.len() - w.len(), v.len() as int) =~= s@.skip(s@.len() - suffix@.len()));
    b
}


/// The number that the hexadecimal digits `v[lo..hi]` write, if they are at least one
/// digit, only hexadecimal digits, and the number is at most `limit`.
pub fn parse_hex_digits(v: &Vec<char>, lo: usize, hi: usize, limit: u64) -> (r: Option<u64>)
    requires
        lo <= hi <= v.len(),
    ensures
        r == (if lo < hi && all_hex(v@.subrange(lo as int, hi as int)) && hex_value(
            v@.subrange(lo as int, hi as int),
        ) <= limit {
            Some(hex_value(v@.subrange(lo as int, hi as int)) as u64)
        } else {
            None::<u64>
        }),
{
    let ghost t = v@.subrange(lo as int, hi as int);
    if lo == hi {
        return None;
    }
    let mut acc: u64 = 0;
    let mut i = lo;
    while i < hi
        invariant
            lo <= i <= hi <= v.len(),
            t == v@.subrange(lo as int, hi as int),
            all_hex(t.take(i - lo)),
            acc == hex_value(t.take(i - lo)),
            acc <= limit,
        decreases hi - i,
    {
        let c = v[i];
        assert(t.take(i + 1 - lo).drop_last() =~= t.take(i - lo));
        let d: u64 = if '0' <= c && c <= '9' {
            (c as u32 - 48) as u64
        } else if 'a' <= c && c <= 'f' {
            (c as u32 - 87) as u64
        } else if 'A' <= c && c <= 'F' {
            (c as u32 - 55) as u64
        } else {
            assert(!is_hex(t[i - lo]));
            return None;
        };
        if acc > limit / 16 || limit - acc * 16 < d {
            proof {
                if all_hex(t) {
                    lemma_hex_value_prefix(t, i + 1 - lo);
                }
            }
            return None;
        }
        acc = acc * 16 + d;
        i += 1;
        assert(all_hex(t.take(i - lo))) by {
            assert forall|m: int| 0 <= m < i - lo implies is_hex(#[trigger] t.take(i - lo)[m]) by {
                if m < i - 1 - lo {
                    assert(t.take(i - lo)[m] == t.take(i - 1 - lo)[m]);
                }
            }
        }
    }
    assert(t.take(hi - lo) =~= t);
    Some(acc)
}

/// Hexadecimal digits write a number at least 0.
pub proof fn lemma_hex_value_nonneg(s: Seq<char>)
    requires
        all_hex(s),
    ensures
        hex_value(s) >= 0,
    decreases s.len(),
{
    if s.len() > 0 {
        let t = s.drop_last();
        assert(all_hex(t)) by {
            assert forall|i: int| 0 <= i < t.len() implies is_hex(#[trigger] t[i]) by {
                assert(t[i] == s[i]);
            }
        }
        lemma_hex_value_nonneg(t);
        assert(is_hex(s[s.len() - 1]));
    }
}

/// A longer run of hexadecimal digits writes a number no smaller than its prefix.
pub proof fn lemma_hex_value_prefix(s: Seq<char>, k: int)
    requires
        all_hex(s),
        0 <= k <= s.len(),
    ensures
        0 <= hex_value(s.take(k)) <= hex_value(s),
    decreases s.len(),
{
    if k == s.len() {
        assert(s.take(k) =~= s);
        lemma_hex_value_nonneg(s);
    } else {
        let t = s.drop_last();
        assert(all_hex(t)) by {
            assert forall|i: int| 0 <= i < t.len() implies is_hex(#[trigger] t[i]) by {
                assert(t[i] == s[i]);
            }
        }
        lemma_hex_value_prefix(t, k);
        assert(t.take(k) =~= s.take(k));
        lemma_hex_value_nonneg(t);
        assert(is_hex(s[s.len() - 1]));
    }
}


/// The words of `s`, as `str::split_whitespace` yields them: the runs of characters
/// that are not white space.
pub open spec fn words(s: Seq<char>) -> Seq<Seq<char>>
    decreases s.len(),
{
    if s.len() == 0 {
        Seq::empty()
    } else {
        let w = words(s.drop_last());
        let c = s.last();
        if is_space(c) {
            w
        } else if s.len() >= 2 && !is_space(s[s.len() - 2]) {
            w.update(w.len() - 1, w.last().push(c))
        } else {
            w.push(seq![c])
        }
    }
}

/// The bounds of the words of `v`.
pub fn word_ranges(v: &Vec<char>) -> (r: Vec<(usize, usize)>)
    ensures
        r.len() == words(v@).len(),
        forall|k: int| 0 <= k < r.len() ==> range_holds(v@, #[trigger] r@[k], words(v@)[k]),
{
    let mut r: Vec<(usize, usize)> = Vec::new();
    let mut i: usize = 0;
    assert(v@.take(0) =~= Seq::<char>::empty());
    while i < v.len()
        invariant
            i <= v.len(),
            r.len() == words(v@.take(i as int)).len(),
            forall|k: int|
                0 <= k < r.len() ==> (#[trigger] r@[k]).1 <= i && range_holds(
                    v@,
                    r@[k],
                    words(v@.take(i as int))[k],
                ),
            i > 0 && !is_space(v@[i - 1]) ==> r.len() > 0 && r@[r.len() - 1].1 == i,
        decreases v.len() - i,
    {
        let ghost t = v@.take(i + 1);
        assert(t.drop_last() =~= v@.take(i as int));
        assert(t.last() == v@[i as int]);
        assert(i >= 1 ==> t[i - 1] == v@[i - 1]);
        let c = v[i];
        if is_space_char(c) {
        } else if i >= 1 && !is_space_char(v[i - 1]) {
            let last = r.len() - 1;
            let (a, _) = r[last];
            assert(v@.subrange(a as int, i + 1) =~= v@.subrange(a as int, i as int).push(c));
            r.set(last, (a, i + 1));
        } else {
            r.push((i, i + 1));
            assert(v@.subrange(i as int, i + 1) =~= seq![c]);
        }
        i += 1;
        assert(forall|k: int|
            0 <= k < r.len() ==> (#[trigger] r@[k]).1 <= i && range_holds(
                v@,
                r@[k],
                words(v@.take(i as int))[k],
            ));
    }
    assert(v@.take(v.len() as int) =~= v@);
    r
}

// ---------------------------------------------------------------- laws of the text functions

/// The pieces `ps` put back together with `sep` between them.
pub open spec fn join(ps: Seq<Seq<char>>, sep: char) -> Seq<char>
    decreases ps.len(),
{
    if ps.len() <= 1 {
        if ps.len() == 0 {
            Seq::empty()
        } else {
            ps[0]
        }
    } else {
        join(ps.drop_last(), sep) + seq![sep] + ps.last()
    }
}

/// Splitting loses nothing: the pieces hold no `sep`, and joined with `sep` they give
/// the string back.
pub proof fn law_split_join(s: Seq<char>, sep: char)
    ensures
        join(split(s, sep), sep) == s,
        forall|k: int, j: int|
            0 <= k < split(s, sep).len() && 0 <= j < split(s, sep)[k].len() ==> split(s, sep)[k][j]
                != sep,
    decreases s.len(),
{
    if s.len() == 0 {
        assert(join(split(s, sep), sep) =~= s);
    } else {
        let r = s.drop_last();
        law_split_join(r, sep);
        lemma_split_len(r, sep);
        let t = split(r, sep);
        let x = s.last();
        let p = split(s, sep);
        if x == sep {
            assert(p.drop_last() =~= t);
            assert(join(p, sep) =~= s);
        } else {
            let y = t.last().push(x);
            assert(p == t.update(t.len() - 1, y));
            if t.len() == 1 {
                assert(join(t, sep) == t[0]);
                assert(join(p, sep) =~= s);
            } else {
                assert(p.drop_last() =~= t.drop_last());
                assert(join(t, sep) == join(t.drop_last(), sep) + seq![sep] + t.last());
                assert(p.last() == y);
                assert(join(p, sep) == join(p.drop_last(), sep) + seq![sep] + p.last());
                assert(s =~= r.push(x));
                assert(join(p, sep) =~= s);
            }
            assert forall|k: int, j: int| 0 <= k < p.len() && 0 <= j < p[k].len() implies p[k][j]
                != sep by {
                if k == t.len() - 1 && j == t.last().len() {
                    assert(p[k][j] == x);
                } else if k == t.len() - 1 {
                    assert(p[k][j] == t[k][j]);
                } else {
                    assert(p[k] == t[k]);
                }
            }
        }
    }
}

proof fn lemma_space_run_end(s: Seq<char>, i: int)
    requires
        0 <= i <= s.len(),
    ensures
        i <= space_run_end(s, i) <= s.len(),
        forall|j: int| i <= j < space_run_end(s, i) ==> is_space(s[j]),
        space_run_end(s, i) < s.len() ==> !is_space(s[space_run_end(s, i)]),
    decreases s.len() - i,
{
    if i < s.len() && is_space(s[i]) {
        lemma_space_run_end(s, i + 1);
    }
}

proof fn lemma_space_run_start(s: Seq<char>, j: int)
    requires
        0 <= j <= s.len(),
    ensures
        0 <= space_run_start(s, j) <= j,
        forall|i: int| space_run_start(s, j) <= i < j ==> is_space(s[i]),
        space_run_start(s, j) > 0 ==> !is_space(s[space_run_start(s, j) - 1]),
    decreases j,
{
    if j > 0 && is_space(s[j - 1]) {
        lemma_space_run_start(s, j - 1);
    }
}

/// Trimming removes white space from the ends and nothing else: the result is a piece
/// of `s` with only white space before and after it, and it neither starts nor ends
/// with white space.
pub proof fn law_trim(s: Seq<char>)
    ensures
        exists|a: int, b: int|
            #![trigger s.subrange(a, b)]
            0 <= a <= b <= s.len() && trim(s) == s.subrange(a, b) && (forall|j: int|
                0 <= j < a ==> is_space(s[j])) && (forall|j: int| b <= j < s.len() ==> is_space(s[j])),
        trim(s).len() > 0 ==> !is_space(trim(s)[0]) && !is_space(trim(s).last()),
{
    lemma_space_run_end(s, 0);
    let a = space_run_end(s, 0);
    let u = s.skip(a);
    lemma_space_run_start(u, u.len() as int);
    let e = space_run_start(u, u.len() as int);
    let b = a + e;
    assert(trim(s) =~= s.subrange(a, b));
    assert forall|j: int| b <= j < s.len() implies is_space(s[j]) by {
        assert(s[j] == u[j - a]);
    }
    if trim(s).len() > 0 {
        assert(trim(s)[0] == s[a]);
        assert(trim(s).last() == u[e - 1]);
    }
}

/// The words of a string are not empty and hold no white space.
pub proof fn law_words_plain(s: Seq<char>)
    ensures
        forall|k: int| 0 <= k < words(s).len() ==> (#[trigger] words(s)[k]).len() > 0,
        forall|k: int, j: int|
            0 <= k < words(s).len() && 0 <= j < words(s)[k].len() ==> !is_space(words(s)[k][j]),
    decreases s.len(),
{
    if s.len() > 0 {
        law_words_plain(s.drop_last());
        let w = words(s.drop_last());
        let c = s.last();
        let p = words(s);
        if !is_space(c) && s.len() >= 2 && !is_space(s[s.len() - 2]) {
            lemma_words_ends(s.drop_last());
            assert forall|k: int, j: int| 0 <= k < p.len() && 0 <= j < p[k].len() implies !is_space(
                p[k][j],
            ) by {
                if k == w.len() - 1 && j == w.last().len() {
                    assert(p[k][j] == c);
                } else if k == w.len() - 1 {
                    assert(p[k][j] == w[k][j]);
                } else {
                    assert(p[k] == w[k]);
                }
            }
            assert forall|k: int| 0 <= k < p.len() implies (#[trigger] p[k]).len() > 0 by {
                if k < w.len() - 1 {
                    assert(p[k] == w[k]);
                }
            }
        } else if !is_space(c) {
            assert forall|k: int, j: int| 0 <= k < p.len() && 0 <= j < p[k].len() implies !is_space(
                p[k][j],
            ) by {
                if k < w.len() {
                    assert(p[k] == w[k]);
                }
            }
            assert forall|k: int| 0 <= k < p.len() implies (#[trigger] p[k]).len() > 0 by {
                if k < w.len() {
                    assert(p[k] == w[k]);
                }
            }
        }
    }
}

proof fn lemma_words_ends(s: Seq<char>)
    requires
        s.len() > 0,
        !is_space(s.last()),
    ensures
        words(s).len() > 0,
    decreases s.len(),
{
    if s.len() >= 2 && !is_space(s[s.len() - 2]) {
        lemma_words_ends(s.drop_last());
    }
}

// ---------------------------------------------------------------- facts for laws

/// Where `c` is not in `a`, splitting at `c` gives `a` alone.
pub proof fn lemma_split_plain(a: Seq<char>, sep: char)
    requires
        forall|i: int| 0 <= i < a.len() ==> a[i] != sep,
    ensures
        split(a, sep) == seq![a],
    decreases a.len(),
{
    if a.len() > 0 {
        lemma_split_plain(a.drop_last(), sep);
        assert(a.drop_last().push(a.last()) =~= a);
        assert(seq![a.drop_last()].update(0, a.drop_last().push(a.last())) =~= seq![a]);
    } else {
        assert(a =~= Seq::<char>::empty());
    }
}

/// Where `sep` is not in `a`, the pieces of `a`, `sep`, `b` are `a` and those of `b`.
pub proof fn lemma_split_append(a: Seq<char>, b: Seq<char>, sep: char)
    requires
        forall|i: int| 0 <= i < a.len() ==> a[i] != sep,
    ensures
        split(a + seq![sep] + b, sep) == seq![a] + split(b, sep),
    decreases b.len(),
{
    let s = a + seq![sep] + b;
    if b.len() == 0 {
        assert(s.drop_last() =~= a);
        lemma_split_plain(a, sep);
        assert(split(s, sep) =~= seq![a] + split(b, sep));
    } else {
        assert(s.drop_last() =~= a + seq![sep] + b.drop_last());
        lemma_split_append(a, b.drop_last(), sep);
        lemma_split_len(b.drop_last(), sep);
        let t = split(b.drop_last(), sep);
        if b.last() == sep {
            assert(split(s, sep) =~= seq![a] + split(b, sep));
        } else {
            assert((seq![a] + t).update(t.len() as int, t.last().push(b.last())) =~= seq![a]
                + t.update(t.len() - 1, t.last().push(b.last())));
            assert(split(s, sep) =~= seq![a] + split(b, sep));
        }
    }
}

/// `index_of` finds the first `c` at or after `i`.
pub proof fn lemma_index_of_first(s: Seq<char>, c: char, i: int, k: int)
    requires
        0 <= i <= k < s.len(),
        s[k] == c,
        forall|j: int| i <= j < k ==> s[j] != c,
    ensures
        index_of(s, c, i) == Some(k),
    decreases k - i,
{
    if i < k {
        lemma_index_of_first(s, c, i + 1, k);
    }
}

/// A string that neither starts nor ends with white space is its own trim.
pub proof fn lemma_trim_plain(s: Seq<char>)
    requires
        s.len() > 0,
        !is_space(s[0]),
        !is_space(s.last()),
    ensures
        trim(s) == s,
{
    assert(space_run_end(s, 0) == 0);
    assert(s.skip(0) =~= s);
    assert(space_run_start(s, s.len() as int) == s.len());
    assert(s.take(s.len() as int) =~= s);
}

/// The digit characters are hexadecimal digits with their own values.
pub proof fn lemma_hex_digit(n: int)
    requires
        0 <= n < 16,
    ensures
        is_hex(hex_digit(n)),
        hex_value_of(hex_digit(n)) == n,
        !is_space(hex_digit(n)),
        hex_digit(n) != '\n' && hex_digit(n) != '\r' && hex_digit(n) != '=' && hex_digit(n)
            != '#' && hex_digit(n) != '+',
{
}

/// Two hexadecimal digits more multiply by 256 and add their byte.
pub proof fn lemma_hex_value_hex2(s: Seq<char>, x: u8)
    ensures
        hex_value(s + hex2(x)) == hex_value(s) * 256 + x,
{
    let t = s + hex2(x);
    lemma_hex_digit(x as int / 16);
    lemma_hex_digit(x as int % 16);
    let u = t.drop_last();
    assert(u =~= s + seq![hex_digit(x as int / 16)]);
    assert(u.drop_last() =~= s);
    assert(t.last() == hex_digit(x as int % 16));
    assert(u.last() == hex_digit(x as int / 16));
    assert(hex_value(u) == hex_value(s) * 16 + x as int / 16);
    assert(hex_value(t) == hex_value(u) * 16 + x as int % 16);
}

/// The decimal digits are not white space, line ends, signs or `=`.
pub proof fn lemma_dec_plain(n: nat)
    ensures
        forall|i: int|
            0 <= i < dec(n).len() ==> is_digit(#[trigger] dec(n)[i]) && !is_space(dec(n)[i])
                && dec(n)[i] != '\n' && dec(n)[i] != '\r' && dec(n)[i] != '=' && dec(n)[i] != '+'
                && dec(n)[i] != '-',
{
    lemma_dec_parses(n);
}

} // verus!
