//! The settings file: `key=value` lines for the theme, the fill, the custom color and
//! automatic updates, read back by the same keys.
use vstd::prelude::*;
use crate::color::{color_digits, hex_color, lemma_rgb_hex, parse_hex, push_rgb_hex, rgb_hex, Rgb};
use crate::text::{
    all_digits, chars_of, dec, dec_value, find_in, index_of,
    is_space, lemma_dec_parses, lemma_dec_plain, lemma_dec_value_nonneg,
    lemma_index_of_first, lemma_split_append, lemma_trim_plain, line_ranges,
    lines, parse_digits, push_signed_dec, push_str, range_holds, range_is, signed_dec, split,
    string_from, strip_cr, substring, trim, trim_range,
};

verus! {

/// What `str::parse::<i32>` makes of `s`: an optional sign, then one or more ASCII
/// digits, with the number in the range of `i32`.
pub open spec fn int_value(s: Seq<char>) -> Option<int> {
    let signed = s.len() > 1 && (s[0] == '+' || s[0] == '-');
    let d = if signed {
        s.drop_first()
    } else {
        s
    };
    let n = if signed && s[0] == '-' {
        -dec_value(d)
    } else {
        dec_value(d)
    };
    if d.len() > 0 && all_digits(d) && i32::MIN <= n <= i32::MAX {
        Some(n)
    } else {
        None
    }
}

/// The index that `s` gives, where it parses as an `i32` in `0..bound`.
pub open spec fn index_value(s: Seq<char>, bound: int) -> Option<i32> {
    match int_value(s) {
        Some(n) => if 0 <= n < bound {
            Some(n as i32)
        } else {
            None
        },
        None => None,
    }
}

/// What the settings file sets: theme, fill, custom color with the text it was
/// written as, and automatic updates; None for what it leaves as it is.
pub struct Settings {
    pub theme: Option<i32>,
    pub fill: Option<i32>,
    pub custom_color: Option<(Rgb, String)>,
    pub auto_update: Option<bool>,
}

/// The settings as values: the custom color's text as its characters.
pub type SettingsView = (Option<i32>, Option<i32>, Option<(Rgb, Seq<char>)>, Option<bool>);

impl View for Settings {
    type V = SettingsView;

    open spec fn view(&self) -> SettingsView {
        (
            self.theme,
            self.fill,
            match self.custom_color {
                Some((c, s)) => Some((c, s@)),
                None => None,
            },
            self.auto_update,
        )
    }
}

/// The settings after one line of the file: `key = value`, split at the first `=`
/// and trimmed. A theme index in 0..4, a fill in 0..5 and a custom color that parses
/// are taken; `auto_update` is on unless its value is `false`; anything else leaves
/// the settings as they are.
pub open spec fn apply_line(m: SettingsView, line: Seq<char>) -> SettingsView {
    match index_of(line, '=', 0) {
        None => m,
        Some(e) => {
            let key = trim(line.take(e));
            let value = trim(line.skip(e + 1));
            if key == "theme"@ {
                match index_value(value, 4) {
                    Some(n) => (Some(n), m.1, m.2, m.3),
                    None => m,
                }
            } else if key == "fill"@ {
                match index_value(value, 5) {
                    Some(n) => (m.0, Some(n), m.2, m.3),
                    None => m,
                }
            } else if key == "custom_color"@ {
                match hex_color(value) {
                    Some(c) => (m.0, m.1, Some((c, value)), m.3),
                    None => m,
                }
            } else if key == "auto_update"@ {
                (m.0, m.1, m.2, Some(value != "false"@))
            } else {
                m
            }
        },
    }
}

/// The settings that the lines `ls` set, each line over those before it.
pub open spec fn settings_of_lines(ls: Seq<Seq<char>>) -> SettingsView
    decreases ls.len(),
{
    if ls.len() == 0 {
        (None, None, None, None)
    } else {
        apply_line(settings_of_lines(ls.drop_last()), ls.last())
    }
}

/// The settings that the text of a settings file sets.
pub open spec fn settings_of(text: Seq<char>) -> SettingsView {
    settings_of_lines(lines(text))
}

/// The index that `v[lo..hi]` gives, where it parses as an `i32` in `0..bound`.
fn parse_index(v: &Vec<char>, lo: usize, hi: usize, bound: i32) -> (r: Option<i32>)
    requires
        lo <= hi <= v.len(),
        bound > 0,
    ensures
        r == index_value(v@.subrange(lo as int, hi as int), bound as int),
{
    let ghost s = v@.subrange(lo as int, hi as int);
    let signed = hi - lo > 1 && (v[lo] == '+' || v[lo] == '-');
    let negative = signed && v[lo] == '-';
    let start = if signed {
        lo + 1
    } else {
        lo
    };
    assert(hi - lo > 0 ==> s[0] == v@[lo as int]);
    assert(signed ==> v@.subrange(start as int, hi as int) =~= s.drop_first());
    assert(!signed ==> v@.subrange(start as int, hi as int) =~= s);
    let ghost d = v@.subrange(start as int, hi as int);
    proof {
        if all_digits(d) {
            lemma_dec_value_nonneg(d);
        }
    }
    let limit: u64 = if negative {
        0x8000_0000
    } else {
        0x7fff_ffff
    };
    match parse_digits(v, start, hi, limit) {
        Some(n) => {
            if negative {
                if n == 0 {
                    Some(0)
                } else {
                    None
                }
            } else if n < bound as u64 {
                Some(n as i32)
            } else {
                None
            }
        },
        None => None,
    }
}

/// The settings that the lines of a settings file set: `theme` (0..4), `fill` (0..5),
/// `custom_color` (`#RRGGBB`) and `auto_update`, each taken from its last valid line.
pub fn load_settings(text: &str) -> (r: Settings)
    ensures
        r@ == settings_of(text@),
{
    let v = chars_of(text);
    let ls = line_ranges(&v);
    let ghost lv = lines(text@);
    let mut r = Settings { theme: None, fill: None, custom_color: None, auto_update: None };
    let mut k: usize = 0;
    assert(lv.take(0) =~= Seq::<Seq<char>>::empty());
    while k < ls.len()
        invariant
            v@ == text@,
            lv == lines(text@),
            ls.len() == lv.len(),
            forall|m: int| 0 <= m < ls.len() ==> range_holds(v@, #[trigger] ls@[m], lv[m]),
            k <= ls.len(),
            r@ == settings_of_lines(lv.take(k as int)),
        decreases ls.len() - k,
    {
        let (a, b) = ls[k];
        assert(range_holds(v@, ls@[k as int], lv[k as int]));
        let ghost line = lv[k as int];
        let ghost before = r@;
        assert(lv.take(k + 1).drop_last() =~= lv.take(k as int));
        assert(lv.take(k + 1).last() == line);
        match find_in(&v, a, b, '=') {
            None => {},
            Some(e) => {
                assert(line.take(e - a) =~= v@.subrange(a as int, e as int));
                assert(line.skip(e - a + 1) =~= v@.subrange(e + 1, b as int));
                let (ka, kb) = trim_range(&v, a, e);
                let (va, vb) = trim_range(&v, e + 1, b);
                if range_is(&v, ka, kb, "theme") {
                    match parse_index(&v, va, vb, 4) {
                        Some(n) => {
                            r.theme = Some(n);
                        },
                        None => {},
                    }
                } else if range_is(&v, ka, kb, "fill") {
                    match parse_index(&v, va, vb, 5) {
                        Some(n) => {
                            r.fill = Some(n);
                        },
                        None => {},
                    }
                } else if range_is(&v, ka, kb, "custom_color") {
                    let value = substring(&v, va, vb);
                    match parse_hex(value.as_str()) {
                        Some(c) => {
                            r.custom_color = Some((c, value));
                        },
                        None => {},
                    }
                } else if range_is(&v, ka, kb, "auto_update") {
                    let off = range_is(&v, va, vb, "false");
                    r.auto_update = Some(!off);
                }
            },
        }
        assert(r@ == apply_line(before, line));
        k += 1;
    }
    assert(lv.take(ls.len() as int) =~= lv);
    r
}

/// `key=value`, one line of the settings file.
pub open spec fn setting_line(key: Seq<char>, value: Seq<char>) -> Seq<char> {
    key + seq!['='] + value
}

/// `true` or `false`.
pub open spec fn bool_text(b: bool) -> Seq<char> {
    if b {
        "true"@
    } else {
        "false"@
    }
}

/// The text of the settings file that saves these settings.
pub open spec fn saved_text(theme: i32, fill: i32, color: Rgb, auto_update: bool) -> Seq<char> {
    setting_line("theme"@, signed_dec(theme as int)) + seq!['\n'] + setting_line(
        "fill"@,
        signed_dec(fill as int),
    ) + seq!['\n'] + setting_line("custom_color"@, seq!['#'] + rgb_hex(color)) + seq!['\n']
        + setting_line("auto_update"@, bool_text(auto_update)) + seq!['\n']
}

/// The text of the settings file: the theme, the fill, the custom color as `#RRGGBB`
/// and whether updates are checked automatically, one `key=value` line each.
pub fn save_settings(theme: i32, fill: i32, color: Rgb, auto_update: bool) -> (r: String)
    ensures
        r@ == saved_text(theme, fill, color, auto_update),
{
    let mut v: Vec<char> = Vec::new();
    push_str(&mut v, "theme");
    v.push('=');
    push_signed_dec(&mut v, theme);
    v.push('\n');
    push_str(&mut v, "fill");
    v.push('=');
    push_signed_dec(&mut v, fill);
    v.push('\n');
    push_str(&mut v, "custom_color");
    v.push('=');
    v.push('#');
    push_rgb_hex(&mut v, color);
    v.push('\n');
    push_str(&mut v, "auto_update");
    v.push('=');
    if auto_update {
        push_str(&mut v, "true");
    } else {
        push_str(&mut v, "false");
    }
    v.push('\n');
    assert(v@ =~= saved_text(theme, fill, color, auto_update));
    string_from(&v)
}


// ---------------------------------------------------------------- reading back

/// The parts that `apply_line` finds in `key=value`.
proof fn lemma_line_parts(key: Seq<char>, value: Seq<char>)
    requires
        key.len() > 0,
        value.len() > 0,
        forall|i: int| 0 <= i < key.len() ==> key[i] != '=',
        !is_space(key[0]),
        !is_space(key.last()),
        !is_space(value[0]),
        !is_space(value.last()),
    ensures
        index_of(setting_line(key, value), '=', 0) == Some(key.len() as int),
        trim(setting_line(key, value).take(key.len() as int)) == key,
        trim(setting_line(key, value).skip(key.len() as int + 1)) == value,
{
    let l = setting_line(key, value);
    assert forall|j: int| 0 <= j < key.len() implies l[j] != '=' by {
        assert(l[j] == key[j]);
    }
    lemma_index_of_first(l, '=', 0, key.len() as int);
    assert(l.take(key.len() as int) =~= key);
    assert(l.skip(key.len() as int + 1) =~= value);
    lemma_trim_plain(key);
    lemma_trim_plain(value);
}

/// What a line of the saved text holds: no line end, and no carriage return at its end.
proof fn lemma_line_plain(key: Seq<char>, value: Seq<char>)
    requires
        forall|i: int| 0 <= i < key.len() ==> key[i] != '\n',
        forall|i: int| 0 <= i < value.len() ==> value[i] != '\n',
        value.len() > 0,
        value.last() != '\r',
    ensures
        forall|i: int|
            0 <= i < setting_line(key, value).len() ==> #[trigger] setting_line(key, value)[i]
                != '\n',
        strip_cr(setting_line(key, value)) == setting_line(key, value),
{
    let l = setting_line(key, value);
    assert forall|i: int| 0 <= i < l.len() implies #[trigger] l[i] != '\n' by {
        if i < key.len() {
            assert(l[i] == key[i]);
        } else if i > key.len() {
            assert(l[i] == value[i - key.len() - 1]);
        }
    }
    assert(l.last() == value.last());
}

/// Settings that are saved are read back as they were: a theme in 0..4, a fill in
/// 0..5, the custom color (with `#RRGGBB` as its text) and automatic updates.
pub proof fn law_settings_round_trip(theme: i32, fill: i32, color: Rgb, auto_update: bool)
    requires
        0 <= theme < 4,
        0 <= fill < 5,
    ensures
        settings_of(saved_text(theme, fill, color, auto_update)) == (
            Some(theme),
            Some(fill),
            Some((color, seq!['#'] + rgb_hex(color))),
            Some(auto_update),
        ),
{
    reveal_strlit("theme");
    reveal_strlit("fill");
    reveal_strlit("custom_color");
    reveal_strlit("auto_update");
    reveal_strlit("true");
    reveal_strlit("false");
    let nl = seq!['\n'];
    let v1 = signed_dec(theme as int);
    let v2 = signed_dec(fill as int);
    let v3 = seq!['#'] + rgb_hex(color);
    let v4 = bool_text(auto_update);
    let l1 = setting_line("theme"@, v1);
    let l2 = setting_line("fill"@, v2);
    let l3 = setting_line("custom_color"@, v3);
    let l4 = setting_line("auto_update"@, v4);
    lemma_dec_plain(theme as nat);
    lemma_dec_plain(fill as nat);
    lemma_dec_parses(theme as nat);
    lemma_dec_parses(fill as nat);
    lemma_rgb_hex(color);
    assert(v1 == dec(theme as nat));
    assert(v2 == dec(fill as nat));
    assert forall|i: int| 0 <= i < v3.len() implies v3[i] != '\n' && !is_space(v3[i]) by {
        if i > 0 {
            assert(v3[i] == rgb_hex(color)[i - 1]);
        }
    }
    assert(v3.last() == rgb_hex(color)[5]);
    // the lines of the text
    lemma_line_plain("theme"@, v1);
    lemma_line_plain("fill"@, v2);
    lemma_line_plain("custom_color"@, v3);
    lemma_line_plain("auto_update"@, v4);
    let text = saved_text(theme, fill, color, auto_update);
    let r4 = l4 + nl + Seq::<char>::empty();
    let r3 = l3 + nl + r4;
    let r2 = l2 + nl + r3;
    assert(text =~= l1 + nl + r2);
    lemma_split_append(l1, r2, '\n');
    lemma_split_append(l2, r3, '\n');
    lemma_split_append(l3, r4, '\n');
    lemma_split_append(l4, Seq::<char>::empty(), '\n');
    let e = Seq::<char>::empty();
    assert(split(e, '\n') =~= seq![e]);
    assert(split(text, '\n') =~= seq![l1, l2, l3, l4, e]);
    assert(lines(text) =~= seq![l1, l2, l3, l4]);
    // each line
    lemma_line_parts("theme"@, v1);
    lemma_line_parts("fill"@, v2);
    lemma_line_parts("custom_color"@, v3);
    lemma_line_parts("auto_update"@, v4);
    assert(int_value(v1) == Some(theme as int));
    assert(int_value(v2) == Some(fill as int));
    // the color
    assert(trim(v3) == v3);
    assert(crate::text::char_run_end(v3, '#', 1) == 1);
    assert(crate::text::char_run_end(v3, '#', 0) == 1);
    assert(color_digits(v3) =~= rgb_hex(color));
    assert(hex_color(v3) == Some(color));
    assert(v4 != "false"@ <==> auto_update);
    let ls = seq![l1, l2, l3, l4];
    assert(ls.drop_last() =~= seq![l1, l2, l3]);
    assert(ls.drop_last().drop_last() =~= seq![l1, l2]);
    assert(ls.drop_last().drop_last().drop_last() =~= seq![l1]);
    assert(ls.drop_last().drop_last().drop_last().drop_last() =~= Seq::<Seq<char>>::empty());
    let m0: SettingsView = (None, None, None, None);
    let m1 = apply_line(m0, l1);
    let m2 = apply_line(m1, l2);
    let m3 = apply_line(m2, l3);
    let m4 = apply_line(m3, l4);
    assert(m1 == (Some(theme), None::<i32>, None::<(Rgb, Seq<char>)>, None::<bool>));
    assert(m2 == (Some(theme), Some(fill), None::<(Rgb, Seq<char>)>, None::<bool>));
    assert(m3 == (Some(theme), Some(fill), Some((color, v3)), None::<bool>));
    assert(m4 == (Some(theme), Some(fill), Some((color, v3)), Some(auto_update)));
    assert(seq![l1].drop_last() =~= Seq::<Seq<char>>::empty());
    assert(settings_of_lines(Seq::<Seq<char>>::empty()) == m0);
    assert(settings_of_lines(seq![l1]) == m1);
    assert(settings_of_lines(seq![l1, l2]) == m2);
    assert(settings_of_lines(seq![l1, l2, l3]) == m3);
    assert(settings_of_lines(ls) == m4);
}


/// A line `theme=n` sets the theme to `n` for the four themes 0..4 and leaves the
/// settings as they are for any other number; `fill=n` likewise for the five fills
/// 0..5; `auto_update=v` turns updates off only for `false`. Other settings stay.
pub proof fn law_setting_lines(m: SettingsView, n: nat, value: Seq<char>)
    requires
        value.len() > 0,
        !is_space(value[0]),
        !is_space(value.last()),
    ensures
        apply_line(m, setting_line("theme"@, dec(n))) == (if n < 4 {
            (Some(n as i32), m.1, m.2, m.3)
        } else {
            m
        }),
        apply_line(m, setting_line("fill"@, dec(n))) == (if n < 5 {
            (m.0, Some(n as i32), m.2, m.3)
        } else {
            m
        }),
        apply_line(m, setting_line("auto_update"@, value)) == (m.0, m.1, m.2, Some(
            value != "false"@,
        )),
{
    reveal_strlit("theme");
    reveal_strlit("fill");
    reveal_strlit("custom_color");
    reveal_strlit("auto_update");
    lemma_dec_plain(n);
    lemma_dec_parses(n);
    lemma_line_parts("theme"@, dec(n));
    lemma_line_parts("fill"@, dec(n));
    lemma_line_parts("auto_update"@, value);
    let d = dec(n);
    assert(!(d.len() > 1 && (d[0] == '+' || d[0] == '-')));
    if n <= i32::MAX {
        assert(int_value(d) == Some(n as int));
    } else {
        assert(int_value(d) is None);
    }
}

} // verus!
