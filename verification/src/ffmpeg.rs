//! The ffmpeg side: where the tools were found, what their output says, and the
//! command lines that preview, probe and render with them.
use vstd::prelude::*;
use crate::color::Rgb;
use crate::text::{
    all_digits, dec_value, is_digit, lemma_dec_parses, lemma_split_append, lemma_split_plain,
    split, chars_of, dec, dec2, line_ranges, lines, push_dec, push_dec2, push_str, range_holds,
    string_from, substring, views, word_ranges, words,
};

verus! {

/// The blur that both the preview and the render give the background, at the same
/// strength relative to the picture's size.
pub const BLUR: &'static str = "boxblur=luma_radius=min(h\\,w)/20:luma_power=3";

// ---------------------------------------------------------------- finding the tools

/// Where a tool was found.
#[derive(Clone, Copy, Debug, PartialEq, Eq, Structural)]
pub enum ToolSource {
    /// Next to the program itself (the portable layout).
    Beside,
    /// In the copy of ffmpeg that the program downloaded and manages.
    Managed,
    /// On the system `PATH`.
    SystemPath,
}

/// How the interface names each place a tool can be found.
pub open spec fn source_label(s: ToolSource) -> Seq<char> {
    match s {
        ToolSource::Beside => "next to rmpyou"@,
        ToolSource::Managed => "managed by rmpyou"@,
        ToolSource::SystemPath => "system PATH"@,
    }
}

impl ToolSource {
    /// How the interface names this place.
    pub fn label(&self) -> (s: &'static str)
        ensures
            s@ == source_label(*self),
    {
        match self {
            ToolSource::Beside => "next to rmpyou",
            ToolSource::Managed => "managed by rmpyou",
            ToolSource::SystemPath => "system PATH",
        }
    }
}

/// Different places go by different names, those the window shows.
pub proof fn law_source_labels_distinct(a: ToolSource, b: ToolSource)
    ensures
        a != b ==> source_label(a) != source_label(b),
        source_label(ToolSource::Beside) == "next to rmpyou"@,
        source_label(ToolSource::Managed) == "managed by rmpyou"@,
        source_label(ToolSource::SystemPath) == "system PATH"@,
{
    reveal_strlit("next to rmpyou");
    reveal_strlit("managed by rmpyou");
    reveal_strlit("system PATH");
    if a != b && source_label(a) == source_label(b) {
        assert(source_label(a)[0] == source_label(b)[0]);
    }
}

/// Where a tool is taken from, given where a file of it exists: next to the program
/// first, then the managed copy, then the `PATH`.
pub fn find_tool(beside: bool, managed: bool, on_path: bool) -> (r: Option<ToolSource>)
    ensures
        r == (if beside {
            Some(ToolSource::Beside)
        } else if managed {
            Some(ToolSource::Managed)
        } else if on_path {
            Some(ToolSource::SystemPath)
        } else {
            None
        }),
{
    if beside {
        Some(ToolSource::Beside)
    } else if managed {
        Some(ToolSource::Managed)
    } else if on_path {
        Some(ToolSource::SystemPath)
    } else {
        None
    }
}

/// The version that `ffmpeg -version` prints: the third word of its output, where
/// the run succeeded.
pub fn ffmpeg_version(output: &str, success: bool) -> (r: Option<String>)
    ensures
        match r {
            Some(v) => success && words(output@).len() > 2 && v@ == words(output@)[2],
            None => !success || words(output@).len() <= 2,
        },
{
    let v = chars_of(output);
    let ws = word_ranges(&v);
    if !success || ws.len() <= 2 {
        return None;
    }
    let (a, b) = ws[2];
    assert(range_holds(v@, ws@[2], words(v@)[2]));
    Some(substring(&v, a, b))
}

/// What the interface shows of the tools.
pub struct FfmpegStatus {
    /// Both ffmpeg and ffprobe are there.
    pub ok: bool,
    /// The version of ffmpeg, or empty.
    pub version: String,
    /// Where ffmpeg was found, or empty.
    pub source: String,
    /// The path of ffmpeg, or empty.
    pub path: String,
}

/// What the interface shows, given ffmpeg's version, whether ffprobe was found, and
/// where ffmpeg was found (its path and the kind of place).
pub fn refresh_ffmpeg(version: Option<String>, ffprobe_found: bool, found: Option<(String, ToolSource)>) -> (r:
    FfmpegStatus)
    ensures
        r.ok == (version is Some && ffprobe_found),
        r.version@ == (match version {
            Some(v) => v@,
            None => Seq::<char>::empty(),
        }),
        r.source@ == (match found {
            Some((_, s)) => source_label(s),
            None => Seq::<char>::empty(),
        }),
        r.path@ == (match found {
            Some((p, _)) => p@,
            None => Seq::<char>::empty(),
        }),
{
    let ok = version.is_some() && ffprobe_found;
    let version = match version {
        Some(v) => v,
        None => String::new(),
    };
    let (source, path) = match found {
        Some((p, s)) => (String::from_str(s.label()), p),
        None => (String::new(), String::new()),
    };
    FfmpegStatus { ok, version, source, path }
}

// ---------------------------------------------------------------- filters

/// The video filter that fits the picture into a `w`×`h` frame without cropping:
/// letterboxed on a solid `fill` color, or, without one, over a blurred copy of
/// itself that covers the frame.
pub open spec fn filter_graph(w: nat, h: nat, fill: Option<Seq<char>>) -> Seq<char> {
    match fill {
        Some(color) => "scale="@ + dec(w) + ":"@ + dec(h) + ":force_original_aspect_ratio=decrease,pad="@
            + dec(w) + ":"@ + dec(h) + ":(ow-iw)/2:(oh-ih)/2:color="@ + color
            + ",setsar=1,format=yuv420p"@,
        None => "split[a][b];[a]scale="@ + dec(w) + ":"@ + dec(h)
            + ":force_original_aspect_ratio=increase,crop="@ + dec(w) + ":"@ + dec(h) + ","@ + BLUR@
            + "[bg];[b]scale="@ + dec(w) + ":"@ + dec(h)
            + ":force_original_aspect_ratio=decrease[fg];[bg][fg]overlay=(W-w)/2:(H-h)/2,setsar=1,format=yuv420p"@,
    }
}

/// The ffmpeg video filter for a frame of `res` (width, height): `fill` is a solid
/// color (`0xRRGGBB`) to letterbox on, or None for a blurred copy of the image.
pub fn video_filter(res: (u32, u32), fill: Option<&str>) -> (r: String)
    ensures
        r@ == filter_graph(
            res.0 as nat,
            res.1 as nat,
            match fill {
                Some(c) => Some(c@),
                None => None,
            },
        ),
{
    let (w, h) = res;
    let mut v: Vec<char> = Vec::new();
    match fill {
        Some(color) => {
            push_str(&mut v, "scale=");
            push_dec(&mut v, w as u64);
            push_str(&mut v, ":");
            push_dec(&mut v, h as u64);
            push_str(&mut v, ":force_original_aspect_ratio=decrease,pad=");
            push_dec(&mut v, w as u64);
            push_str(&mut v, ":");
            push_dec(&mut v, h as u64);
            push_str(&mut v, ":(ow-iw)/2:(oh-ih)/2:color=");
            push_str(&mut v, color);
            push_str(&mut v, ",setsar=1,format=yuv420p");
        },
        None => {
            push_str(&mut v, "split[a][b];[a]scale=");
            push_dec(&mut v, w as u64);
            push_str(&mut v, ":");
            push_dec(&mut v, h as u64);
            push_str(&mut v, ":force_original_aspect_ratio=increase,crop=");
            push_dec(&mut v, w as u64);
            push_str(&mut v, ":");
            push_dec(&mut v, h as u64);
            push_str(&mut v, ",");
            push_str(&mut v, BLUR);
            push_str(&mut v, "[bg];[b]scale=");
            push_dec(&mut v, w as u64);
            push_str(&mut v, ":");
            push_dec(&mut v, h as u64);
            push_str(
                &mut v,
                ":force_original_aspect_ratio=decrease[fg];[bg][fg]overlay=(W-w)/2:(H-h)/2,setsar=1,format=yuv420p",
            );
        },
    }
    let ghost f = match fill {
        Some(c) => Some(c@),
        None => None,
    };
    assert(v@ =~= filter_graph(w as nat, h as nat, f));
    string_from(&v)
}

// ---------------------------------------------------------------- command lines

/// The filter of the small blurred 16:9 background of the preview.
pub open spec fn preview_blur_filter() -> Seq<char> {
    "scale=480:270:force_original_aspect_ratio=increase,crop=480:270,"@ + BLUR@
}

/// Whether `t` stands somewhere in `g`.
pub open spec fn occurs(t: Seq<char>, g: Seq<char>) -> bool {
    exists|k: int|
        #![trigger g.subrange(k, k + t.len())]
        0 <= k && k + t.len() <= g.len() && g.subrange(k, k + t.len()) == t
}

proof fn lemma_occurs(t: Seq<char>, pre: Seq<char>, post: Seq<char>)
    ensures
        occurs(t, pre + t + post),
{
    let g = pre + t + post;
    assert(g.subrange(pre.len() as int, pre.len() + t.len() as int) =~= t);
}

/// The video the filter makes is exactly `w`×`h`: the picture is scaled to fit inside
/// `w`×`h` without cropping (`decrease`), then padded to `w`×`h` on the solid color;
/// or, for the blurred fill, laid over a copy scaled to cover and cropped to `w`×`h`.
pub proof fn law_filter_frame(w: nat, h: nat, color: Seq<char>)
    ensures
        filter_graph(w, h, Some(color)).take(
            ("scale="@ + dec(w) + ":"@ + dec(h) + ":force_original_aspect_ratio=decrease"@).len()
                as int,
        ) == "scale="@ + dec(w) + ":"@ + dec(h) + ":force_original_aspect_ratio=decrease"@,
        occurs(",pad="@ + dec(w) + ":"@ + dec(h) + ":"@, filter_graph(w, h, Some(color))),
        occurs(":color="@ + color + ","@, filter_graph(w, h, Some(color))),
        occurs(",crop="@ + dec(w) + ":"@ + dec(h) + ","@, filter_graph(w, h, None)),
        occurs(
            "[b]scale="@ + dec(w) + ":"@ + dec(h) + ":force_original_aspect_ratio=decrease[fg]"@,
            filter_graph(w, h, None),
        ),
{
    let head = "scale="@ + dec(w) + ":"@ + dec(h) + ":force_original_aspect_ratio=decrease"@;
    let pad = ",pad="@ + dec(w) + ":"@ + dec(h) + ":"@;
    let col = ":color="@ + color + ","@;
    let g = filter_graph(w, h, Some(color));
    reveal_strlit(":force_original_aspect_ratio=decrease,pad=");
    reveal_strlit(":force_original_aspect_ratio=decrease");
    reveal_strlit(",pad=");
    reveal_strlit(":");
    reveal_strlit(":(ow-iw)/2:(oh-ih)/2:color=");
    reveal_strlit(":color=");
    reveal_strlit("(ow-iw)/2:(oh-ih)/2");
    reveal_strlit(",setsar=1,format=yuv420p");
    reveal_strlit(",");
    reveal_strlit("setsar=1,format=yuv420p");
    let tail = "setsar=1,format=yuv420p"@;
    assert(g =~= head + pad + "(ow-iw)/2:(oh-ih)/2"@ + col + tail);
    assert(g.take(head.len() as int) =~= head);
    lemma_occurs(pad, head, "(ow-iw)/2:(oh-ih)/2"@ + col + tail);
    assert(g =~= head + pad + ("(ow-iw)/2:(oh-ih)/2"@ + col + tail));
    lemma_occurs(col, head + pad + "(ow-iw)/2:(oh-ih)/2"@, tail);
    assert(g =~= head + pad + "(ow-iw)/2:(oh-ih)/2"@ + col + tail);
    let b = filter_graph(w, h, None);
    reveal_strlit("split[a][b];[a]scale=");
    reveal_strlit(":force_original_aspect_ratio=increase,crop=");
    reveal_strlit(":force_original_aspect_ratio=increase");
    reveal_strlit(",crop=");
    reveal_strlit("[bg];[b]scale=");
    reveal_strlit("[bg];");
    reveal_strlit("[b]scale=");
    reveal_strlit(
        ":force_original_aspect_ratio=decrease[fg];[bg][fg]overlay=(W-w)/2:(H-h)/2,setsar=1,format=yuv420p",
    );
    reveal_strlit(":force_original_aspect_ratio=decrease[fg]");
    reveal_strlit(";[bg][fg]overlay=(W-w)/2:(H-h)/2,setsar=1,format=yuv420p");
    let pre1 = "split[a][b];[a]scale="@ + dec(w) + ":"@ + dec(h) + ":force_original_aspect_ratio=increase"@;
    let crop = ",crop="@ + dec(w) + ":"@ + dec(h) + ","@;
    let fg = "[b]scale="@ + dec(w) + ":"@ + dec(h) + ":force_original_aspect_ratio=decrease[fg]"@;
    let end = ";[bg][fg]overlay=(W-w)/2:(H-h)/2,setsar=1,format=yuv420p"@;
    assert(b =~= pre1 + crop + (BLUR@ + "[bg];"@ + fg + end));
    lemma_occurs(crop, pre1, BLUR@ + "[bg];"@ + fg + end);
    assert(b =~= (pre1 + crop + BLUR@ + "[bg];"@) + fg + end);
    lemma_occurs(fg, pre1 + crop + BLUR@ + "[bg];"@, end);
}

/// A render reads the picture as input 0 and the MP3 as input 1, takes the video from
/// the picture (`0:v`) and the audio from the MP3 (`1:a`), filters the video with the
/// frame's filter, encodes it with libx264, copies the audio stream, stops at the given
/// length (or with the shorter input), and writes `out` last.
pub proof fn law_render_inputs(
    image: Seq<char>,
    audio: Seq<char>,
    out: Seq<char>,
    res: (u32, u32),
    fill: Option<Seq<char>>,
    length: Option<Seq<char>>,
)
    ensures
        ({
            let c = render_command(image, audio, out, res, fill, length);
            &&& c[8] == "-i"@ && c[9] == image
            &&& c[10] == "-i"@ && c[11] == audio
            &&& c[12] == "-map"@ && c[13] == "0:v"@
            &&& c[14] == "-map"@ && c[15] == "1:a"@
            &&& c[16] == "-vf"@ && c[17] == filter_graph(res.0 as nat, res.1 as nat, fill)
            &&& c[18] == "-c:v"@ && c[19] == "libx264"@
            &&& c[28] == "-c:a"@ && c[29] == "copy"@
            &&& match length {
                Some(t) => c[32] == "-t"@ && c[33] == t && c.len() == 38,
                None => c[32] == "-shortest"@ && c.len() == 37,
            }
            &&& c.last() == out
        }),
{
}

/// The preview's background and the render's blurred fill use the same blur, whatever
/// the output resolution: both filters end their background chain with `BLUR`.
pub proof fn law_preview_blur_matches_render(w: nat, h: nat)
    ensures
        ({
            let p = preview_blur_filter();
            p.subrange(p.len() - BLUR@.len(), p.len() as int) == BLUR@
        }),
        ({
            let g = filter_graph(w, h, None);
            let k = ("split[a][b];[a]scale="@ + dec(w) + ":"@ + dec(h)
                + ":force_original_aspect_ratio=increase,crop="@ + dec(w) + ":"@ + dec(h) + ","@).len();
            g.subrange(k as int, k + BLUR@.len() as int) == BLUR@
        }),
{
    let p = preview_blur_filter();
    assert(p.subrange(p.len() - BLUR@.len(), p.len() as int) =~= BLUR@);
    let pre = "split[a][b];[a]scale="@ + dec(w) + ":"@ + dec(h)
        + ":force_original_aspect_ratio=increase,crop="@ + dec(w) + ":"@ + dec(h) + ","@;
    let post = "[bg];[b]scale="@ + dec(w) + ":"@ + dec(h)
        + ":force_original_aspect_ratio=decrease[fg];[bg][fg]overlay=(W-w)/2:(H-h)/2,setsar=1,format=yuv420p"@;
    let g = filter_graph(w, h, None);
    assert(g =~= pre + BLUR@ + post);
    assert(g.subrange(pre.len() as int, pre.len() + BLUR@.len() as int) =~= BLUR@);
}

/// The ffmpeg arguments that save the cover art embedded in `audio` as the picture
/// `out`.
pub fn extract_cover(audio: &str, out: &str) -> (r: Vec<String>)
    ensures
        views(r@) == seq![
            "-y"@,
            "-loglevel"@,
            "error"@,
            "-i"@,
            audio@,
            "-map"@,
            "0:v:0"@,
            "-frames:v"@,
            "1"@,
            out@,
        ],
{
    let r = vec![
        String::from_str("-y"),
        String::from_str("-loglevel"),
        String::from_str("error"),
        String::from_str("-i"),
        String::from_str(audio),
        String::from_str("-map"),
        String::from_str("0:v:0"),
        String::from_str("-frames:v"),
        String::from_str("1"),
        String::from_str(out),
    ];
    assert(views(r@) =~= seq![
        "-y"@,
        "-loglevel"@,
        "error"@,
        "-i"@,
        audio@,
        "-map"@,
        "0:v:0"@,
        "-frames:v"@,
        "1"@,
        out@,
    ]);
    r
}

/// The ffmpeg arguments that write the blurred background of the preview of `image`
/// to the picture `out`.
pub fn blur_preview(image: &str, out: &str) -> (r: Vec<String>)
    ensures
        views(r@) == seq![
            "-y"@,
            "-loglevel"@,
            "error"@,
            "-i"@,
            image@,
            "-vf"@,
            preview_blur_filter(),
            "-frames:v"@,
            "1"@,
            out@,
        ],
{
    let mut f: Vec<char> = Vec::new();
    push_str(&mut f, "scale=480:270:force_original_aspect_ratio=increase,crop=480:270,");
    push_str(&mut f, BLUR);
    let vf = string_from(&f);
    let r = vec![
        String::from_str("-y"),
        String::from_str("-loglevel"),
        String::from_str("error"),
        String::from_str("-i"),
        String::from_str(image),
        String::from_str("-vf"),
        vf,
        String::from_str("-frames:v"),
        String::from_str("1"),
        String::from_str(out),
    ];
    assert(views(r@) =~= seq![
        "-y"@,
        "-loglevel"@,
        "error"@,
        "-i"@,
        image@,
        "-vf"@,
        preview_blur_filter(),
        "-frames:v"@,
        "1"@,
        out@,
    ]);
    r
}

/// The ffmpeg arguments that shrink `image` to one pixel, its average color, and write
/// it to standard output as raw RGB bytes.
pub fn average_color_args(image: &str) -> (r: Vec<String>)
    ensures
        views(r@) == seq![
            "-loglevel"@,
            "error"@,
            "-i"@,
            image@,
            "-vf"@,
            "scale=1:1:flags=area"@,
            "-f"@,
            "rawvideo"@,
            "-pix_fmt"@,
            "rgb24"@,
            "-"@,
        ],
{
    let r = vec![
        String::from_str("-loglevel"),
        String::from_str("error"),
        String::from_str("-i"),
        String::from_str(image),
        String::from_str("-vf"),
        String::from_str("scale=1:1:flags=area"),
        String::from_str("-f"),
        String::from_str("rawvideo"),
        String::from_str("-pix_fmt"),
        String::from_str("rgb24"),
        String::from_str("-"),
    ];
    assert(views(r@) =~= seq![
        "-loglevel"@,
        "error"@,
        "-i"@,
        image@,
        "-vf"@,
        "scale=1:1:flags=area"@,
        "-f"@,
        "rawvideo"@,
        "-pix_fmt"@,
        "rgb24"@,
        "-"@,
    ]);
    r
}

/// The average color of an image, from the raw RGB bytes that `average_color_args`
/// makes ffmpeg print: its first three bytes, where there are three.
pub fn average_color(rgb: &[u8]) -> (r: Option<Rgb>)
    ensures
        r == (if rgb@.len() >= 3 {
            Some(Rgb { red: rgb@[0], green: rgb@[1], blue: rgb@[2] })
        } else {
            None
        }),
{
    if rgb.len() >= 3 {
        Some(Rgb { red: rgb[0], green: rgb[1], blue: rgb[2] })
    } else {
        None
    }
}

/// The ffprobe arguments that print the duration of `audio` in seconds.
pub fn probe_duration_args(audio: &str) -> (r: Vec<String>)
    ensures
        views(r@) == seq![
            "-v"@,
            "error"@,
            "-show_entries"@,
            "format=duration"@,
            "-of"@,
            "csv=p=0"@,
            audio@,
        ],
{
    let r = vec![
        String::from_str("-v"),
        String::from_str("error"),
        String::from_str("-show_entries"),
        String::from_str("format=duration"),
        String::from_str("-of"),
        String::from_str("csv=p=0"),
        String::from_str(audio),
    ];
    assert(views(r@) =~= seq![
        "-v"@,
        "error"@,
        "-show_entries"@,
        "format=duration"@,
        "-of"@,
        "csv=p=0"@,
        audio@,
    ]);
    r
}

/// The ffmpeg arguments that convert the first frame of `image` to the picture `out`,
/// for previews of formats the interface cannot decode itself.
pub fn preview_args(image: &str, out: &str) -> (r: Vec<String>)
    ensures
        views(r@) == seq![
            "-y"@,
            "-loglevel"@,
            "error"@,
            "-i"@,
            image@,
            "-frames:v"@,
            "1"@,
            out@,
        ],
{
    let r = vec![
        String::from_str("-y"),
        String::from_str("-loglevel"),
        String::from_str("error"),
        String::from_str("-i"),
        String::from_str(image),
        String::from_str("-frames:v"),
        String::from_str("1"),
        String::from_str(out),
    ];
    assert(views(r@) =~= seq![
        "-y"@,
        "-loglevel"@,
        "error"@,
        "-i"@,
        image@,
        "-frames:v"@,
        "1"@,
        out@,
    ]);
    r
}

/// The arguments of a render that come before the video filter.
pub open spec fn render_head(image: Seq<char>, audio: Seq<char>) -> Seq<Seq<char>> {
    seq![
        "-y"@,
        "-hide_banner"@,
        "-loglevel"@,
        "error"@,
        "-loop"@,
        "1"@,
        "-framerate"@,
        "2"@,
        "-i"@,
        image,
        "-i"@,
        audio,
        "-map"@,
        "0:v"@,
        "-map"@,
        "1:a"@,
        "-vf"@,
    ]
}

/// The encoder settings of a render: H.264 High for a still picture, the audio copied.
pub open spec fn render_codecs() -> Seq<Seq<char>> {
    seq![
        "-c:v"@,
        "libx264"@,
        "-tune"@,
        "stillimage"@,
        "-preset"@,
        "medium"@,
        "-crf"@,
        "18"@,
        "-profile:v"@,
        "high"@,
        "-c:a"@,
        "copy"@,
        "-movflags"@,
        "+faststart"@,
    ]
}

/// The full ffmpeg command line of a render: `length` is the duration to stop at,
/// written in seconds, or None to stop with the shorter input.
pub open spec fn render_command(
    image: Seq<char>,
    audio: Seq<char>,
    out: Seq<char>,
    res: (u32, u32),
    fill: Option<Seq<char>>,
    length: Option<Seq<char>>,
) -> Seq<Seq<char>> {
    render_head(image, audio) + seq![filter_graph(res.0 as nat, res.1 as nat, fill)]
        + render_codecs() + match length {
        Some(t) => seq!["-t"@, t],
        None => seq!["-shortest"@],
    } + seq!["-progress"@, "pipe:1"@, "-nostats"@, out]
}

fn push_all(out: &mut Vec<String>, items: &[&str])
    ensures
        views(final(out)@) == views(old(out)@) + items@.map_values(|s: &str| s@),
{
    let ghost start = views(out@);
    let mut i: usize = 0;
    while i < items.len()
        invariant
            i <= items.len(),
            views(out@) == start + items@.take(i as int).map_values(|s: &str| s@),
        decreases items.len() - i,
    {
        let ghost before = out@;
        let x = String::from_str(items[i]);
        out.push(x);
        assert(views(out@) =~= views(before).push(x@));
        assert(items@.take(i + 1).map_values(|s: &str| s@) =~= items@.take(i as int).map_values(
            |s: &str| s@,
        ).push(items@[i as int]@));
        i += 1;
        assert(views(out@) =~= start + items@.take(i as int).map_values(|s: &str| s@));
    }
    assert(items@.take(items.len() as int) =~= items@);
}

/// The ffmpeg arguments that encode the still `image` and the MP3 `audio` into the MP4
/// `out` at `res`: the still at 2 frames a second, the audio stream copied, progress
/// reported on standard output. `fill` is as for `video_filter`; `length` is the
/// duration to stop at, in seconds, or None to stop with the shorter input.
pub fn render_args(
    image: &str,
    audio: &str,
    out: &str,
    res: (u32, u32),
    fill: Option<&str>,
    length: Option<&str>,
) -> (r: Vec<String>)
    ensures
        views(r@) == render_command(
            image@,
            audio@,
            out@,
            res,
            match fill {
                Some(c) => Some(c@),
                None => None,
            },
            match length {
                Some(t) => Some(t@),
                None => None,
            },
        ),
{
    let mut r: Vec<String> = Vec::new();
    let head = ["-y", "-hide_banner", "-loglevel", "error", "-loop", "1", "-framerate", "2", "-i"];
    assert(head@.map_values(|s: &str| s@) =~= seq![
        "-y"@,
        "-hide_banner"@,
        "-loglevel"@,
        "error"@,
        "-loop"@,
        "1"@,
        "-framerate"@,
        "2"@,
        "-i"@,
    ]);
    push_all(&mut r, &head);
    let ghost r1 = views(r@);
    r.push(String::from_str(image));
    r.push(String::from_str("-i"));
    r.push(String::from_str(audio));
    let maps = ["-map", "0:v", "-map", "1:a", "-vf"];
    assert(maps@.map_values(|s: &str| s@) =~= seq!["-map"@, "0:v"@, "-map"@, "1:a"@, "-vf"@]);
    let ghost r2 = views(r@);
    assert(r2 =~= r1 + seq![image@, "-i"@, audio@]);
    push_all(&mut r, &maps);
    let ghost r3 = views(r@);
    assert(r3 == render_head(image@, audio@));
    r.push(video_filter(res, fill));
    let ghost r4 = views(r@);
    let codecs = [
        "-c:v",
        "libx264",
        "-tune",
        "stillimage",
        "-preset",
        "medium",
        "-crf",
        "18",
        "-profile:v",
        "high",
        "-c:a",
        "copy",
        "-movflags",
        "+faststart",
    ];
    assert(codecs@.map_values(|s: &str| s@) =~= render_codecs());
    push_all(&mut r, &codecs);
    let ghost r5 = views(r@);
    match length {
        Some(t) => {
            r.push(String::from_str("-t"));
            r.push(String::from_str(t));
        },
        None => {
            r.push(String::from_str("-shortest"));
        },
    }
    let ghost r6 = views(r@);
    let tail = ["-progress", "pipe:1", "-nostats"];
    assert(tail@.map_values(|s: &str| s@) =~= seq!["-progress"@, "pipe:1"@, "-nostats"@]);
    push_all(&mut r, &tail);
    let ghost r7 = views(r@);
    r.push(String::from_str(out));
    let ghost f = match fill {
        Some(c) => Some(c@),
        None => None,
    };
    let ghost l = match length {
        Some(t) => Some(t@),
        None => None,
    };
    assert(views(r@) =~= r7.push(out@));
    assert(r6 =~= r5 + match l {
        Some(t) => seq!["-t"@, t],
        None => seq!["-shortest"@],
    });
    assert(r4 =~= r3.push(filter_graph(res.0 as nat, res.1 as nat, f)));
    assert(views(r@) =~= render_command(image@, audio@, out@, res, f, l));
    r
}

/// Why a render failed: the last line that ffmpeg wrote to its error stream, or
/// "ffmpeg failed" where it wrote none.
pub fn render_failure(errors: &str) -> (r: String)
    ensures
        r@ == (if lines(errors@).len() > 0 {
            lines(errors@).last()
        } else {
            "ffmpeg failed"@
        }),
{
    let v = chars_of(errors);
    let ls = line_ranges(&v);
    if ls.len() == 0 {
        return String::from_str("ffmpeg failed");
    }
    let (a, b) = ls[ls.len() - 1];
    assert(range_holds(v@, ls@[ls.len() - 1], lines(v@)[ls.len() - 1]));
    substring(&v, a, b)
}

// ---------------------------------------------------------------- times and progress

/// `secs` seconds as a clock: `h:mm:ss` from an hour on, `m:ss` below.
pub open spec fn clock(secs: nat) -> Seq<char> {
    if secs >= 3600 {
        dec(secs / 3600) + ":"@ + dec2((secs / 60) % 60) + ":"@ + dec2(secs % 60)
    } else {
        dec(secs / 60) + ":"@ + dec2(secs % 60)
    }
}

/// A duration of whole seconds as a clock: `h:mm:ss` from an hour on, `m:ss` below.
pub fn fmt_time(secs: u64) -> (r: String)
    ensures
        r@ == clock(secs as nat),
{
    let mut v: Vec<char> = Vec::new();
    if secs >= 3600 {
        push_dec(&mut v, secs / 3600);
        push_str(&mut v, ":");
        push_dec2(&mut v, secs / 60 % 60);
        push_str(&mut v, ":");
        push_dec2(&mut v, secs % 60);
    } else {
        push_dec(&mut v, secs / 60);
        push_str(&mut v, ":");
        push_dec2(&mut v, secs % 60);
    }
    assert(v@ =~= clock(secs as nat));
    string_from(&v)
}

proof fn lemma_dec2(n: nat)
    requires
        n < 100,
    ensures
        dec2(n).len() == 2,
        all_digits(dec2(n)),
        dec_value(dec2(n)) == n,
        forall|i: int| 0 <= i < 2 ==> #[trigger] dec2(n)[i] != ':',
{
    let d = dec2(n);
    if n < 10 {
        assert(d.drop_last() =~= seq!['0']);
        assert(seq!['0'].drop_last() =~= Seq::<char>::empty());
        assert(dec_value(Seq::<char>::empty()) == 0);
        assert('0' as int == 48);
        assert(dec_value(seq!['0']) == 0);
    } else {
        lemma_dec_parses(n);
        assert(dec(n).drop_last() =~= dec(n / 10));
    }
}

proof fn lemma_no_colon(n: nat)
    ensures
        forall|i: int| 0 <= i < dec(n).len() ==> #[trigger] dec(n)[i] != ':',
{
    lemma_dec_parses(n);
    assert forall|i: int| 0 <= i < dec(n).len() implies #[trigger] dec(n)[i] != ':' by {
        assert(is_digit(dec(n)[i]));
    }
}

/// A clock reads back as its seconds: split at `:` it is hours, minutes and seconds
/// from an hour on, minutes and seconds below, with minutes and seconds under 60 and
/// written with two digits after the first part.
pub proof fn law_clock_reads_back(secs: nat)
    ensures
        ({
            let p = split(clock(secs), ':');
            if secs >= 3600 {
                &&& p.len() == 3
                &&& dec_value(p[0]) * 3600 + dec_value(p[1]) * 60 + dec_value(p[2]) == secs
                &&& dec_value(p[1]) < 60 && dec_value(p[2]) < 60
                &&& p[1].len() == 2 && p[2].len() == 2
            } else {
                &&& p.len() == 2
                &&& dec_value(p[0]) * 60 + dec_value(p[1]) == secs
                &&& dec_value(p[0]) < 60 && dec_value(p[1]) < 60
                &&& p[1].len() == 2
            }
        }),
{
    reveal_strlit(":");
    let c = seq![':'];
    assert(":"@ =~= c);
    let ss = dec2(secs % 60);
    lemma_dec2(secs % 60);
    lemma_split_plain(ss, ':');
    if secs >= 3600 {
        let h = dec(secs / 3600);
        let m = dec2((secs / 60) % 60);
        lemma_dec_parses(secs / 3600);
        lemma_no_colon(secs / 3600);
        lemma_dec2((secs / 60) % 60);
        assert(clock(secs) =~= h + c + (m + c + ss));
        lemma_split_append(h, m + c + ss, ':');
        lemma_split_append(m, ss, ':');
        assert(split(clock(secs), ':') =~= seq![h, m, ss]);
    } else {
        let mm = dec(secs / 60);
        lemma_dec_parses(secs / 60);
        lemma_no_colon(secs / 60);
        assert(clock(secs) =~= mm + c + ss);
        lemma_split_append(mm, ss, ':');
        assert(split(clock(secs), ':') =~= seq![mm, ss]);
    }
}

/// The message shown while ffmpeg downloads: the mebibytes done and in all.
pub open spec fn download_message(done: u64, total: u64) -> Seq<char> {
    "Downloading FFmpeg… "@ + dec((done / 1048576) as nat) + " / "@ + dec(
        (total / 1048576) as nat,
    ) + " MB"@
}

/// What the progress of the ffmpeg download shows, reported in whole percents: given
/// the bytes done, the total where known, and the percent last shown, the percent to
/// remember and, where it changed, the percent to show with its message ("Unpacking…"
/// at 100). Nothing changes while the total is unknown or 0.
pub fn download_progress(done: u64, total: Option<u64>, last: u32) -> (r: (u32, Option<(u32, String)>))
    requires
        total matches Some(t) && t > 0 ==> done * 100 <= u64::MAX,
    ensures
        match total {
            Some(t) if t > 0 => {
                let pct = ((done * 100) / t as int) as u32;
                &&& r.0 == pct
                &&& match r.1 {
                    Some((p, msg)) => pct != last && p == pct && msg@ == (if pct == 100 {
                        "Unpacking…"@
                    } else {
                        download_message(done, t)
                    }),
                    None => pct == last,
                }
            },
            _ => r.0 == last && r.1 is None,
        },
{
    let t = match total {
        Some(t) if t > 0 => t,
        _ => {
            return (last, None);
        },
    };
    let pct = (done * 100 / t) as u32;
    if pct == last {
        return (pct, None);
    }
    let msg = if pct == 100 {
        String::from_str("Unpacking…")
    } else {
        let mut v: Vec<char> = Vec::new();
        push_str(&mut v, "Downloading FFmpeg… ");
        push_dec(&mut v, done / 1048576);
        push_str(&mut v, " / ");
        push_dec(&mut v, t / 1048576);
        push_str(&mut v, " MB");
        assert(v@ =~= download_message(done, t));
        string_from(&v)
    };
    (pct, Some((pct, msg)))
}

} // verus!
