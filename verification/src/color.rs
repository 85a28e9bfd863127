//! Colors: the `#RRGGBB` notation that the settings and the custom-color field use,
//! and the palettes of the Color Hunt feed.
use vstd::prelude::*;
use crate::json::{json_strings, json_values};
use crate::text::{
    all_hex, char_run_end, chars_of, hex2, hex_digit, hex_value, hex_value_of, is_hex, is_space,
    lemma_hex_digit, lemma_hex_value_hex2, lemma_trim_plain, parse_hex_digits, push_hex2, push_str,
    string_from, trim, trim_range, trim_start_char, views,
};

verus! {

/// A color given by its red, green and blue bytes.
#[derive(Clone, Copy, Debug, PartialEq, Eq, Structural)]
pub struct Rgb {
    pub red: u8,
    pub green: u8,
    pub blue: u8,
}

impl Rgb {
    /// The color with these red, green and blue bytes.
    pub fn from_rgb_u8(red: u8, green: u8, blue: u8) -> (c: Rgb)
        ensures
            c == (Rgb { red, green, blue }),
    {
        Rgb { red, green, blue }
    }
}

/// The color whose bytes are bits 16 to 23, 8 to 15 and 0 to 7 of `v`.
pub open spec fn rgb_of(v: int) -> Rgb {
    Rgb { red: ((v / 65536) % 256) as u8, green: ((v / 256) % 256) as u8, blue: (v % 256) as u8 }
}

/// The digits of a color: `s` trimmed, without the `#`s it starts with.
pub open spec fn color_digits(s: Seq<char>) -> Seq<char> {
    trim_start_char(trim(s), '#')
}

/// The color that `s` writes: after trimming and leading `#`s, six characters that
/// `u32::from_str_radix(_, 16)` accepts (six hexadecimal digits, or `+` and five).
pub open spec fn hex_color(s: Seq<char>) -> Option<Rgb> {
    let t = color_digits(s);
    let d = if t.len() > 1 && t[0] == '+' {
        t.drop_first()
    } else {
        t
    };
    if t.len() == 6 && d.len() > 0 && all_hex(d) && hex_value(d) <= u32::MAX {
        Some(rgb_of(hex_value(d)))
    } else {
        None
    }
}

/// The color that `s` writes as `#RRGGBB` (or `RRGGBB`, spaces around allowed).
pub fn parse_hex(s: &str) -> (r: Option<Rgb>)
    ensures
        r == hex_color(s@),
{
    let v = chars_of(s);
    let (a, b) = trim_range(&v, 0, v.len());
    assert(v@.subrange(0, v.len() as int) =~= s@);
    let ghost t0 = v@.subrange(a as int, b as int);
    let mut k = a;
    while k < b && v[k] == '#'
        invariant
            a <= k <= b <= v.len(),
            t0 == v@.subrange(a as int, b as int),
            crate::text::char_run_end(t0, '#', 0) == crate::text::char_run_end(t0, '#', k - a),
        decreases b - k,
    {
        k += 1;
    }
    assert(crate::text::char_run_end(t0, '#', k - a) == k - a);
    let ghost t = color_digits(s@);
    assert(t =~= v@.subrange(k as int, b as int));
    if b - k != 6 {
        return None;
    }
    assert(t[0] == v@[k as int]);
    let ghost d = if t.len() > 1 && t[0] == '+' {
        t.drop_first()
    } else {
        t
    };
    proof {
        if all_hex(d) {
            crate::text::lemma_hex_value_nonneg(d);
        }
    }
    let n = if v[k] == '+' {
        assert(v@.subrange(k + 1, b as int) =~= t.drop_first());
        parse_hex_digits(&v, k + 1, b, 0xffff_ffff)
    } else {
        parse_hex_digits(&v, k, b, 0xffff_ffff)
    };
    match n {
        Some(x) => {
            assert(x as int == hex_value(d));
            let c = Rgb {
                red: ((x / 65536) % 256) as u8,
                green: ((x / 256) % 256) as u8,
                blue: (x % 256) as u8,
            };
            Some(c)
        },
        None => None,
    }
}

/// `c` as `RRGGBB`, upper case.
pub open spec fn rgb_hex(c: Rgb) -> Seq<char> {
    hex2(c.red) + hex2(c.green) + hex2(c.blue)
}

/// Appends `c` as `RRGGBB`, upper case.
pub fn push_rgb_hex(out: &mut Vec<char>, c: Rgb)
    ensures
        final(out)@ == old(out)@ + rgb_hex(c),
{
    push_hex2(out, c.red);
    push_hex2(out, c.green);
    push_hex2(out, c.blue);
    assert(out@ =~= old(out)@ + rgb_hex(c));
}

/// The color argument that a solid fill passes to ffmpeg: `0xRRGGBB`.
pub fn ffmpeg_color(c: Rgb) -> (r: String)
    ensures
        r@ == "0x"@ + rgb_hex(c),
{
    let mut v: Vec<char> = Vec::new();
    push_str(&mut v, "0x");
    push_rgb_hex(&mut v, c);
    string_from(&v)
}

/// The hexadecimal digits of a color write its number.
pub proof fn lemma_rgb_hex(c: Rgb)
    ensures
        rgb_hex(c).len() == 6,
        all_hex(rgb_hex(c)),
        hex_value(rgb_hex(c)) == c.red * 65536 + c.green * 256 + c.blue,
        forall|i: int|
            0 <= i < 6 ==> !is_space(#[trigger] rgb_hex(c)[i]) && rgb_hex(c)[i] != '\n'
                && rgb_hex(c)[i] != '\r' && rgb_hex(c)[i] != '#' && rgb_hex(c)[i] != '+',
        rgb_of(hex_value(rgb_hex(c))) == c,
{
    let e = Seq::<char>::empty();
    lemma_hex_value_hex2(e, c.red);
    assert(e + hex2(c.red) =~= hex2(c.red));
    lemma_hex_value_hex2(hex2(c.red), c.green);
    lemma_hex_value_hex2(hex2(c.red) + hex2(c.green), c.blue);
    lemma_hex_digit(c.red as int / 16);
    lemma_hex_digit(c.red as int % 16);
    lemma_hex_digit(c.green as int / 16);
    lemma_hex_digit(c.green as int % 16);
    lemma_hex_digit(c.blue as int / 16);
    lemma_hex_digit(c.blue as int % 16);
    let h = rgb_hex(c);
    assert(h =~= seq![
        hex_digit(c.red as int / 16),
        hex_digit(c.red as int % 16),
        hex_digit(c.green as int / 16),
        hex_digit(c.green as int % 16),
        hex_digit(c.blue as int / 16),
        hex_digit(c.blue as int % 16),
    ]);
    let v = c.red * 65536 + c.green * 256 + c.blue;
    assert(v / 65536 == c.red);
    assert((v / 256) % 256 == c.green);
    assert(v % 256 == c.blue);
}

/// The upper-case hexadecimal notation of a color reads back as that color, with or
/// without a `#` before it.
pub proof fn law_hex_round_trip(c: Rgb)
    ensures
        hex_color(rgb_hex(c)) == Some(c),
        hex_color(seq!['#'] + rgb_hex(c)) == Some(c),
{
    lemma_rgb_hex(c);
    let h = rgb_hex(c);
    lemma_trim_plain(h);
    assert(char_run_end(h, '#', 0) == 0);
    assert(h.skip(0) =~= h);
    assert(color_digits(h) == h);
    let v = seq!['#'] + h;
    assert forall|i: int| 0 <= i < v.len() implies !is_space(v[i]) by {
        if i > 0 {
            assert(v[i] == h[i - 1]);
        }
    }
    assert(v.last() == h[5]);
    lemma_trim_plain(v);
    assert(char_run_end(v, '#', 1) == 1);
    assert(char_run_end(v, '#', 0) == 1);
    assert(color_digits(v) =~= h);
}

// ---------------------------------------------------------------- palettes

/// Whether a feed code is a palette: 24 hexadecimal digits, four colors of six.
pub open spec fn is_palette_code(code: Seq<char>) -> bool {
    code.len() == 24 && all_hex(code)
}

/// `c` in upper case where it is an ASCII lower-case letter.
pub open spec fn ascii_upper(c: char) -> char {
    if 'a' <= c <= 'z' {
        (c as int - 32) as char
    } else {
        c
    }
}

/// The four colors of a palette code, each as six upper-case digits.
pub open spec fn palette_of(code: Seq<char>) -> Seq<Seq<char>> {
    Seq::new(4, |i: int| code.subrange(6 * i, 6 * i + 6).map_values(|c: char| ascii_upper(c)))
}

/// The palette that a feed code gives, if it is one.
pub open spec fn code_palette(code: Seq<char>) -> Option<Seq<Seq<char>>> {
    if is_palette_code(code) {
        Some(palette_of(code))
    } else {
        None
    }
}

/// The palettes of a Color Hunt feed: every `"code"` value that is a palette code, in
/// order, cut into its four colors.
pub open spec fn feed_palettes(json: Seq<char>) -> Seq<Seq<Seq<char>>> {
    json_values(json, "code"@).filter_map(|code: Seq<char>| code_palette(code))
}

/// The four strings of a palette.
pub open spec fn palette_views(p: [String; 4]) -> Seq<Seq<char>> {
    views(p@)
}

/// Six characters of `v` from `at`, in upper case.
fn upper_six(v: &Vec<char>, at: usize) -> (r: String)
    requires
        at + 6 <= v.len(),
    ensures
        r@ == v@.subrange(at as int, at + 6).map_values(|c: char| ascii_upper(c)),
{
    let mut w: Vec<char> = Vec::new();
    let mut i: usize = 0;
    while i < 6
        invariant
            at + 6 <= v.len(),
            i <= 6,
            w@ == v@.subrange(at as int, at + i).map_values(|c: char| ascii_upper(c)),
        decreases 6 - i,
    {
        let c = v[at + i];
        let u = if 'a' <= c && c <= 'z' {
            ((c as u32 - 32) as u8) as char
        } else {
            c
        };
        w.push(u);
        i += 1;
        assert(w@ =~= v@.subrange(at as int, at + i).map_values(|c: char| ascii_upper(c)));
    }
    string_from(&w)
}

/// The palette of a feed code, if it is one.
fn palette_from_code(code: &String) -> (r: Option<[String; 4]>)
    ensures
        match (r, code_palette(code@)) {
            (Some(p), Some(q)) => palette_views(p) == q,
            (None, None) => true,
            _ => false,
        },
{
    let v = chars_of(code.as_str());
    if v.len() != 24 {
        return None;
    }
    let mut i: usize = 0;
    while i < 24
        invariant
            v@ == code@,
            v.len() == 24,
            i <= 24,
            forall|m: int| 0 <= m < i ==> is_hex(#[trigger] v@[m]),
        decreases 24 - i,
    {
        let c = v[i];
        if !(('0' <= c && c <= '9') || ('a' <= c && c <= 'f') || ('A' <= c && c <= 'F')) {
            assert(!is_hex(code@[i as int]));
            return None;
        }
        i += 1;
    }
    let p = [upper_six(&v, 0), upper_six(&v, 6), upper_six(&v, 12), upper_six(&v, 18)];
    assert(palette_views(p) =~= palette_of(code@));
    Some(p)
}

/// The palettes in a page of the Color Hunt feed: every `"code":"<24 hex>"`, each code
/// being four colors of six hexadecimal digits, returned in upper case.
pub fn parse_palettes(json: &str) -> (r: Vec<[String; 4]>)
    ensures
        r@.map_values(|p: [String; 4]| palette_views(p)) == feed_palettes(json@),
{
    let codes = json_strings(json, "code");
    let ghost cs = views(codes@);
    let ghost f = |code: Seq<char>| code_palette(code);
    let mut out: Vec<[String; 4]> = Vec::new();
    let mut i: usize = 0;
    assert(cs.take(0) =~= Seq::<Seq<char>>::empty());
    while i < codes.len()
        invariant
            cs == views(codes@),
            cs == json_values(json@, "code"@),
            f == (|code: Seq<char>| code_palette(code)),
            i <= codes.len(),
            out@.map_values(|p: [String; 4]| palette_views(p)) == cs.take(i as int).filter_map(f),
        decreases codes.len() - i,
    {
        let ghost before = out@;
        assert(cs.take(i + 1).drop_last() =~= cs.take(i as int));
        assert(cs.take(i + 1).last() == codes@[i as int]@);
        match palette_from_code(&codes[i]) {
            Some(p) => {
                out.push(p);
                assert(out@.map_values(|p: [String; 4]| palette_views(p)) =~= before.map_values(
                    |p: [String; 4]| palette_views(p),
                ) + seq![palette_views(p)]);
            },
            None => {},
        }
        i += 1;
    }
    assert(cs.take(codes.len() as int) =~= cs);
    out
}

/// The colors of a palette's four strings, those that parse, in order.
pub fn palette_colors(hexes: &[String; 4]) -> (r: Vec<Rgb>)
    ensures
        r@ == palette_views(*hexes).filter_map(|h: Seq<char>| hex_color(h)),
{
    let ghost hs = palette_views(*hexes);
    let ghost f = |h: Seq<char>| hex_color(h);
    let mut out: Vec<Rgb> = Vec::new();
    let mut i: usize = 0;
    assert(hs.take(0) =~= Seq::<Seq<char>>::empty());
    while i < 4
        invariant
            hs == palette_views(*hexes),
            f == (|h: Seq<char>| hex_color(h)),
            i <= 4,
            out@ == hs.take(i as int).filter_map(f),
        decreases 4 - i,
    {
        let ghost before = out@;
        assert(hs.take(i + 1).drop_last() =~= hs.take(i as int));
        assert(hs.take(i + 1).last() == hexes@[i as int]@);
        match parse_hex(hexes[i].as_str()) {
            Some(c) => {
                out.push(c);
                assert(out@ =~= before + seq![c]);
            },
            None => {},
        }
        i += 1;
    }
    assert(hs.take(4) =~= hs);
    out
}


/// `16` to the power `n`.
pub open spec fn pow16(n: nat) -> int
    decreases n,
{
    if n == 0 {
        1
    } else {
        16 * pow16((n - 1) as nat)
    }
}

proof fn lemma_hex_value_bound(s: Seq<char>)
    requires
        all_hex(s),
    ensures
        0 <= hex_value(s) < pow16(s.len()),
    decreases s.len(),
{
    if s.len() > 0 {
        let t = s.drop_last();
        assert(all_hex(t)) by {
            assert forall|i: int| 0 <= i < t.len() implies is_hex(#[trigger] t[i]) by {
                assert(t[i] == s[i]);
            }
        }
        lemma_hex_value_bound(t);
        assert(is_hex(s[s.len() - 1]));
    }
}

/// Each element that `filter_map` keeps comes from an element of the sequence.
proof fn lemma_filter_map_source(s: Seq<Seq<char>>, k: int) -> (i: int)
    requires
        0 <= k < s.filter_map(|code: Seq<char>| code_palette(code)).len(),
    ensures
        0 <= i < s.len(),
        code_palette(s[i]) == Some(s.filter_map(|code: Seq<char>| code_palette(code))[k]),
    decreases s.len(),
{
    let f = |code: Seq<char>| code_palette(code);
    let rest = s.drop_last();
    match f(s.last()) {
        Some(b) => {
            assert(s.filter_map(f) == rest.filter_map(f) + seq![b]);
            if k == rest.filter_map(f).len() {
                (s.len() - 1) as int
            } else {
                let i = lemma_filter_map_source(rest, k);
                i
            }
        },
        None => {
            assert(s.filter_map(f) == rest.filter_map(f));
            let i = lemma_filter_map_source(rest, k);
            i
        },
    }
}

/// Every palette of the feed is four colors of six upper-case hexadecimal digits, and
/// each reads as a color.
pub proof fn law_feed_palettes_are_colors(json: Seq<char>, i: int, j: int)
    requires
        0 <= i < feed_palettes(json).len(),
        0 <= j < 4,
    ensures
        feed_palettes(json)[i].len() == 4,
        feed_palettes(json)[i][j].len() == 6,
        forall|m: int|
            0 <= m < 6 ==> is_hex(#[trigger] feed_palettes(json)[i][j][m]) && !('a'
                <= feed_palettes(json)[i][j][m] <= 'z'),
        hex_color(feed_palettes(json)[i][j]) is Some,
{
    let codes = json_values(json, "code"@);
    let src = lemma_filter_map_source(codes, i);
    let code = codes[src];
    assert(is_palette_code(code));
    let p = feed_palettes(json)[i][j];
    assert(p == code.subrange(6 * j, 6 * j + 6).map_values(|c: char| ascii_upper(c)));
    assert forall|m: int| 0 <= m < 6 implies is_hex(#[trigger] p[m]) && !('a' <= p[m] <= 'z')
        && !is_space(p[m]) && p[m] != '#' && p[m] != '+' by {
        assert(p[m] == ascii_upper(code[6 * j + m]));
        assert(is_hex(code[6 * j + m]));
    }
    lemma_trim_plain(p);
    assert(char_run_end(p, '#', 0) == 0);
    assert(p.skip(0) =~= p);
    assert(color_digits(p) == p);
    assert(all_hex(p));
    lemma_hex_value_bound(p);
    reveal_with_fuel(pow16, 7);
    assert(pow16(6) == 16777216);
}


/// Each palette of the feed is a palette code of the feed cut in four, in order: its
/// colors, put back together, are that code in upper case.
pub proof fn law_feed_palette_is_code(json: Seq<char>, i: int)
    requires
        0 <= i < feed_palettes(json).len(),
    ensures
        exists|src: int|
            #![trigger json_values(json, "code"@)[src]]
            0 <= src < json_values(json, "code"@).len() && is_palette_code(
                json_values(json, "code"@)[src],
            ) && feed_palettes(json)[i][0] + feed_palettes(json)[i][1] + feed_palettes(json)[i][2]
                + feed_palettes(json)[i][3] == json_values(json, "code"@)[src].map_values(
                |c: char| ascii_upper(c),
            ),
{
    let codes = json_values(json, "code"@);
    let src = lemma_filter_map_source(codes, i);
    let code = codes[src];
    let p = feed_palettes(json)[i];
    assert(p == palette_of(code));
    assert(p[0] + p[1] + p[2] + p[3] =~= code.map_values(|c: char| ascii_upper(c)));
}


proof fn lemma_hex_value_two_more(a: Seq<char>, b: Seq<char>)
    requires
        b.len() == 2,
    ensures
        hex_value(a + b) == hex_value(a) * 256 + hex_value(b),
{
    let t = a + b;
    assert(t.drop_last() =~= a + seq![b[0]]);
    assert(t.drop_last().drop_last() =~= a);
    assert(b.drop_last() =~= seq![b[0]]);
    assert(seq![b[0]].drop_last() =~= Seq::<char>::empty());
    assert(hex_value(Seq::<char>::empty()) == 0);
    let u = t.drop_last();
    assert(t.last() == b[1]);
    assert(u.last() == b[0]);
    assert(hex_value(u) == hex_value(a) * 16 + hex_value_of(b[0]));
    assert(hex_value(t) == hex_value(u) * 16 + hex_value_of(b[1]));
    assert(hex_value(seq![b[0]]) == hex_value_of(b[0]));
    assert(hex_value(b) == hex_value(seq![b[0]]) * 16 + hex_value_of(b[1]));
}

/// Six hexadecimal digits are red, green and blue in that order, two digits each.
pub proof fn law_hex_channels(t: Seq<char>)
    requires
        t.len() == 6,
        all_hex(t),
    ensures
        hex_color(t) == Some(
            Rgb {
                red: hex_value(t.subrange(0, 2)) as u8,
                green: hex_value(t.subrange(2, 4)) as u8,
                blue: hex_value(t.subrange(4, 6)) as u8,
            },
        ),
        hex_color(seq!['#'] + t) == hex_color(t),
{
    let r = t.subrange(0, 2);
    let g = t.subrange(2, 4);
    let b = t.subrange(4, 6);
    assert forall|i: int| 0 <= i < 6 implies !is_space(t[i]) && t[i] != '#' && t[i] != '+' by {
        assert(is_hex(t[i]));
    }
    lemma_trim_plain(t);
    assert(char_run_end(t, '#', 0) == 0);
    assert(t.skip(0) =~= t);
    assert(color_digits(t) == t);
    assert(all_hex(r) && all_hex(g) && all_hex(b)) by {
        assert forall|i: int| 0 <= i < 2 implies is_hex(#[trigger] r[i]) && is_hex(g[i]) && is_hex(
            b[i],
        ) by {
            assert(r[i] == t[i]);
            assert(g[i] == t[i + 2]);
            assert(b[i] == t[i + 4]);
        }
    }
    lemma_hex_value_bound(r);
    lemma_hex_value_bound(g);
    lemma_hex_value_bound(b);
    reveal_with_fuel(pow16, 3);
    lemma_hex_value_two_more(Seq::<char>::empty(), r);
    assert(Seq::<char>::empty() + r =~= r);
    lemma_hex_value_two_more(r, g);
    lemma_hex_value_two_more(r + g, b);
    assert(r + g + b =~= t);
    let v = hex_value(t);
    assert(v == (hex_value(r) * 256 + hex_value(g)) * 256 + hex_value(b));
    assert(v == hex_value(r) * 65536 + hex_value(g) * 256 + hex_value(b));
    assert(v / 65536 == hex_value(r));
    assert((v / 256) % 256 == hex_value(g));
    assert(v % 256 == hex_value(b));
    let u = seq!['#'] + t;
    assert forall|i: int| 0 <= i < u.len() implies !is_space(u[i]) by {
        if i > 0 {
            assert(u[i] == t[i - 1]);
        }
    }
    assert(u.last() == t[5]);
    lemma_trim_plain(u);
    assert(char_run_end(u, '#', 1) == 1);
    assert(char_run_end(u, '#', 0) == 1);
    assert(color_digits(u) =~= t);
}

} // verus!
