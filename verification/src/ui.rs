//! The decisions of the window: which dropped files it takes, which pictures it shows
//! itself, the output resolution and fill, the palette browser's paging, and the
//! messages it shows.
use vstd::prelude::*;
use crate::color::{ffmpeg_color, hex_color, parse_hex, rgb_hex, Rgb};
use crate::text::{chars_of, dec, find_in, index_of, push_dec, push_str, string_from, substring};

verus! {

/// The output resolutions: 720p, 1080p and 4K.
pub open spec fn resolution_of(index: int) -> (u32, u32) {
    if index <= 0 {
        (1280, 720)
    } else if index == 1 {
        (1920, 1080)
    } else {
        (3840, 2160)
    }
}

/// The output resolution chosen by `index`, clamped to the three offered.
pub fn resolution(index: i32) -> (r: (u32, u32))
    ensures
        r == resolution_of(index as int),
{
    if index <= 0 {
        (1280, 720)
    } else if index == 1 {
        (1920, 1080)
    } else {
        (3840, 2160)
    }
}

/// `c` in lower case where it is an ASCII upper-case letter.
pub open spec fn ascii_lower(c: char) -> char {
    if 'A' <= c <= 'Z' {
        (c as int + 32) as char
    } else {
        c
    }
}

/// `s` with its ASCII letters in lower case. For the extensions compared here this is
/// what `to_lowercase` gives: no other character lower-cases to one of their letters.
pub open spec fn lower(s: Seq<char>) -> Seq<char> {
    s.map_values(|c: char| ascii_lower(c))
}

/// Whether `ext`, in lower case, is `name`.
fn ext_is(ext: &Vec<char>, name: &str) -> (b: bool)
    ensures
        b == (lower(ext@) == name@),
{
    let n = chars_of(name);
    if ext.len() != n.len() {
        assert(lower(ext@).len() != name@.len());
        return false;
    }
    let mut i: usize = 0;
    while i < ext.len()
        invariant
            n@ == name@,
            ext.len() == n.len(),
            i <= ext.len(),
            forall|k: int| 0 <= k < i ==> ascii_lower(ext@[k]) == n@[k],
        decreases ext.len() - i,
    {
        let c = ext[i];
        let l = if 'A' <= c && c <= 'Z' {
            ((c as u32 + 32) as u8) as char
        } else {
            c
        };
        if l != n[i] {
            assert(lower(ext@)[i as int] != name@[i as int]);
            return false;
        }
        i += 1;
    }
    assert(lower(ext@) =~= name@);
    true
}

/// Whether the window shows pictures with extension `ext` itself (PNG and JPEG);
/// others are previewed through ffmpeg.
pub fn is_native_image(ext: &str) -> (b: bool)
    ensures
        b == (lower(ext@) == "png"@ || lower(ext@) == "jpg"@ || lower(ext@) == "jpeg"@),
{
    let e = chars_of(ext);
    ext_is(&e, "png") || ext_is(&e, "jpg") || ext_is(&e, "jpeg")
}

/// Whether pictures with extension `ext` can be used as the cover: PNG, JPEG, WebP, BMP.
pub open spec fn is_image_ext(ext: Seq<char>) -> bool {
    let l = lower(ext);
    l == "png"@ || l == "jpg"@ || l == "jpeg"@ || l == "webp"@ || l == "bmp"@
}

/// What a file dropped on the window is taken as.
#[derive(Clone, Copy, Debug, PartialEq, Eq, Structural)]
pub enum DroppedFile {
    /// An MP3, loaded as the audio.
    Audio,
    /// A picture, loaded as the cover.
    Image,
    /// Anything else, refused with a message.
    Unsupported,
}

/// What a dropped file with extension `ext` is taken as: an MP3 is audio, a PNG,
/// JPEG, WebP or BMP is a picture, in any case of letters.
pub fn dropped_file(ext: &str) -> (r: DroppedFile)
    ensures
        r == (if lower(ext@) == "mp3"@ {
            DroppedFile::Audio
        } else if is_image_ext(ext@) {
            DroppedFile::Image
        } else {
            DroppedFile::Unsupported
        }),
        lower(ext@) == "mp3"@ ==> r == DroppedFile::Audio,
        lower(ext@) == "png"@ || lower(ext@) == "jpg"@ || lower(ext@) == "jpeg"@ || lower(ext@)
            == "webp"@ || lower(ext@) == "bmp"@ ==> r == DroppedFile::Image,
        r == DroppedFile::Image ==> lower(ext@) == "png"@ || lower(ext@) == "jpg"@ || lower(ext@)
            == "jpeg"@ || lower(ext@) == "webp"@ || lower(ext@) == "bmp"@,
{
    proof {
        law_dropped_file_kinds(ext@);
    }
    let e = chars_of(ext);
    if ext_is(&e, "mp3") {
        DroppedFile::Audio
    } else if ext_is(&e, "png") || ext_is(&e, "jpg") || ext_is(&e, "jpeg") || ext_is(&e, "webp")
        || ext_is(&e, "bmp") {
        DroppedFile::Image
    } else {
        DroppedFile::Unsupported
    }
}

/// The color that a fill choice passes to ffmpeg: None for the blurred fill (choice
/// 0), else the chosen color as `0xRRGGBB`.
pub fn fill_arg(kind: i32, color: Rgb) -> (r: Option<String>)
    ensures
        match r {
            Some(s) => kind != 0 && s@ == "0x"@ + rgb_hex(color),
            None => kind == 0,
        },
{
    if kind != 0 {
        Some(ffmpeg_color(color))
    } else {
        None
    }
}

/// The status line shown while a video of `res` is encoded.
pub fn encoding_status(res: (u32, u32)) -> (r: String)
    ensures
        r@ == "Encoding "@ + dec(res.0 as nat) + "x"@ + dec(res.1 as nat)
            + " video, keeping your original MP3 audio…"@,
{
    let mut v: Vec<char> = Vec::new();
    push_str(&mut v, "Encoding ");
    push_dec(&mut v, res.0 as u64);
    push_str(&mut v, "x");
    push_dec(&mut v, res.1 as u64);
    push_str(&mut v, " video, keeping your original MP3 audio…");
    assert(v@ =~= "Encoding "@ + dec(res.0 as nat) + "x"@ + dec(res.1 as nat)
        + " video, keeping your original MP3 audio…"@);
    string_from(&v)
}

/// The custom fill that a palette color `hex` (six digits, no `#`) chooses: its color
/// and `#` followed by the digits, where it parses.
pub fn hunt_pick(hex: &str) -> (r: Option<(Rgb, String)>)
    ensures
        match r {
            Some((c, s)) => hex_color(hex@) == Some(c) && s@ == seq!['#'] + hex@,
            None => hex_color(hex@) is None,
        },
{
    match parse_hex(hex) {
        Some(c) => {
            let mut v: Vec<char> = Vec::new();
            v.push('#');
            push_str(&mut v, hex);
            assert(v@ =~= seq!['#'] + hex@);
            Some((c, string_from(&v)))
        },
        None => None,
    }
}

/// The page of the palette feed to load: the next page when appending, else the first.
pub fn hunt_step(append: bool, step: u32) -> (r: u32)
    requires
        append ==> step < u32::MAX,
    ensures
        r == (if append {
            step + 1
        } else {
            0
        }),
{
    if append {
        step + 1
    } else {
        0
    }
}

/// The names of the orders the palette feed offers: popular (all time), new, random.
pub open spec fn feed_sort_name(sort: int) -> Seq<char> {
    if sort <= 0 {
        "popular"@
    } else if sort == 1 {
        "new"@
    } else {
        "random"@
    }
}

/// The form that asks the palette feed for page `step` in order `sort` (clamped to
/// 0 popular, 1 new, 2 random), all tags, over all time.
pub fn palette_feed_form(sort: i32, step: u32) -> (r: Vec<(String, String)>)
    ensures
        r.len() == 4,
        r@[0].0@ == "step"@ && r@[0].1@ == dec(step as nat),
        r@[1].0@ == "sort"@ && r@[1].1@ == feed_sort_name(sort as int),
        sort <= 0 ==> r@[1].1@ == "popular"@,
        sort == 1 ==> r@[1].1@ == "new"@,
        sort >= 2 ==> r@[1].1@ == "random"@,
        r@[2].0@ == "tags"@ && r@[2].1@ == Seq::<char>::empty(),
        r@[3].0@ == "timeframe"@ && r@[3].1@ == "4000"@,
{
    let name = if sort <= 0 {
        "popular"
    } else if sort == 1 {
        "new"
    } else {
        "random"
    };
    proof {
        law_feed_sort_names(sort as int);
    }
    let mut s: Vec<char> = Vec::new();
    push_dec(&mut s, step as u64);
    assert(s@ =~= dec(step as nat));
    let mut r: Vec<(String, String)> = Vec::new();
    r.push((String::from_str("step"), string_from(&s)));
    r.push((String::from_str("sort"), String::from_str(name)));
    r.push((String::from_str("tags"), String::new()));
    r.push((String::from_str("timeframe"), String::from_str("4000")));
    r
}

/// The first author of a `name:name` list of package authors.
pub fn first_author(authors: &str) -> (r: String)
    ensures
        r@ == match index_of(authors@, ':', 0) {
            Some(k) => authors@.take(k),
            None => authors@,
        },
{
    let v = chars_of(authors);
    assert(v@.subrange(0, v.len() as int) =~= authors@);
    match find_in(&v, 0, v.len(), ':') {
        Some(k) => {
            assert(v@.subrange(0, k as int) =~= authors@.take(k as int));
            substring(&v, 0, k)
        },
        None => {
            assert(v@.subrange(0, v.len() as int) =~= authors@);
            substring(&v, 0, v.len())
        },
    }
}

/// The resize handle of index `dir`, clamped to the eight there are.
pub fn resize_handle(dir: i32) -> (r: usize)
    ensures
        r == (if dir < 0 {
            0
        } else if dir > 7 {
            7
        } else {
            dir as int
        }),
{
    if dir < 0 {
        0
    } else if dir > 7 {
        7
    } else {
        dir as usize
    }
}


// ---------------------------------------------------------------- laws

/// A dropped file is taken as a picture exactly when its extension, in lower case, is
/// one of png, jpg, jpeg, webp and bmp, none of which is mp3.
pub proof fn law_dropped_file_kinds(ext: Seq<char>)
    ensures
        is_image_ext(ext) <==> (lower(ext) == "png"@ || lower(ext) == "jpg"@ || lower(ext)
            == "jpeg"@ || lower(ext) == "webp"@ || lower(ext) == "bmp"@),
        lower(ext) == "mp3"@ ==> !is_image_ext(ext),
{
    reveal_strlit("mp3");
    reveal_strlit("png");
    reveal_strlit("jpg");
    reveal_strlit("jpeg");
    reveal_strlit("webp");
    reveal_strlit("bmp");
    if lower(ext) == "mp3"@ {
        assert(lower(ext)[0] == 'm');
    }
}

/// The palette feed is asked for the popular palettes at order 0 and below, the new
/// ones at order 1, and random ones at order 2 and above.
pub proof fn law_feed_sort_names(sort: int)
    ensures
        sort <= 0 ==> feed_sort_name(sort) == "popular"@,
        sort == 1 ==> feed_sort_name(sort) == "new"@,
        sort >= 2 ==> feed_sort_name(sort) == "random"@,
{
}

/// The three output resolutions are 16:9 frames of 720, 1080 and 2160 lines: 720p at
/// index 0 and below, 1080p at 1, 4K at 2 and above.
pub proof fn law_resolutions(index: int)
    ensures
        resolution_of(index).0 * 9 == resolution_of(index).1 * 16,
        index <= 0 ==> resolution_of(index).1 == 720,
        index == 1 ==> resolution_of(index).1 == 1080,
        index >= 2 ==> resolution_of(index).1 == 2160,
{
}

} // verus!
