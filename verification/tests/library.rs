use rmpyou::color::{ffmpeg_color, palette_colors, parse_hex, parse_palettes, Rgb};
use rmpyou::ffmpeg::{
    average_color, average_color_args, blur_preview, download_progress, extract_cover, ffmpeg_version,
    find_tool, fmt_time, preview_args, probe_duration_args, refresh_ffmpeg, render_args, render_failure,
    video_filter, ToolSource,
};
use rmpyou::json::json_strings;
use rmpyou::settings::{load_settings, save_settings};
use rmpyou::ui::{
    dropped_file, encoding_status, fill_arg, first_author, hunt_pick, hunt_step, is_native_image,
    palette_feed_form, resize_handle, resolution, DroppedFile,
};
use rmpyou::version::{
    after_update, check_for_update, is_newer, latest_release_url, newer_release, repo_url, UpdateState,
};

// ------------------------------------------------------------ json

#[test]
fn json_values_allow_space_around_the_colon() {
    let json = "{ \"k\" \n:\t \"one\", \"k\":\"two\" }";
    assert_eq!(json_strings(json, "k"), ["one", "two"]);
}

#[test]
fn json_values_that_are_not_strings_are_skipped() {
    let json = r#"{"k": 5, "k": null, "k" "x", "k": "ok"}"#;
    assert_eq!(json_strings(json, "k"), ["ok"]);
}

#[test]
fn json_unterminated_value_is_skipped() {
    assert!(json_strings(r#"{"k": "open"#, "k").is_empty());
    assert!(json_strings("", "k").is_empty());
}

#[test]
fn json_empty_value_and_other_keys() {
    let json = r#"{"key":"","kk":"no","k":"yes"}"#;
    assert_eq!(json_strings(json, "k"), ["yes"]);
    assert_eq!(json_strings(json, "key"), [""]);
}

#[test]
fn json_matches_do_not_overlap() {
    // the pattern `""` found at 0 and 2, the value after the second one only
    assert_eq!(json_strings(r#""""":"v""#, ""), ["v"]);
}

// ------------------------------------------------------------ versions

#[test]
fn version_parts_that_are_not_numbers_count_as_zero() {
    assert!(!is_newer("1.x", "1.0"));
    assert!(!is_newer("1.0", "1.x"));
    assert!(is_newer("1.+2", "1.1"));
    assert!(!is_newer("18446744073709551616", "0"));
    assert!(is_newer("18446744073709551615", "18446744073709551614"));
    assert!(!is_newer("v2", "1"));
}

#[test]
fn longer_version_with_same_prefix_is_newer() {
    assert!(is_newer("1.0.0", "1.0"));
    assert!(!is_newer("1.0", "1.0.0"));
    assert!(is_newer("1..", "1."));
}

#[test]
fn version_order_laws_on_examples() {
    let vs = ["0.1.0", "0.1.9", "0.2.0", "1.9.3", "1.10.0", "1.10.0.1"];
    for (i, a) in vs.iter().enumerate() {
        assert!(!is_newer(a, a));
        for (j, b) in vs.iter().enumerate() {
            assert_eq!(is_newer(a, b), i > j, "{a} {b}");
            assert!(!(is_newer(a, b) && is_newer(b, a)));
        }
    }
}

const BODY: &str = r#"{"tag_name":"vv0.3.1","assets":[{"browser_download_url":"https://x/notes.txt"},{"browser_download_url":"https://x/rmpyou-x86_64-pc-windows-msvc.zip"}]}"#;

#[test]
fn newer_release_offers_newer_version() {
    assert_eq!(
        newer_release(BODY, "0.3.0"),
        Ok(Some(("0.3.1".to_string(), "https://x/rmpyou-x86_64-pc-windows-msvc.zip".to_string())))
    );
}

#[test]
fn newer_release_offers_nothing_to_same_or_newer_build() {
    assert_eq!(newer_release(BODY, "0.3.1"), Ok(None));
    assert_eq!(newer_release(BODY, "1.0.0"), Ok(None));
}

#[test]
fn newer_release_without_asset_or_tag() {
    let no_asset = r#"{"tag_name":"v9.0.0","assets":[{"browser_download_url":"https://x/other.zip"}]}"#;
    assert_eq!(newer_release(no_asset, "0.1.0"), Ok(None));
    assert_eq!(newer_release(r#"{"message":"Not Found"}"#, "0.1.0"), Err("no releases".to_string()));
}

#[test]
fn release_urls() {
    assert_eq!(
        latest_release_url(Some("me/rmpyou")),
        Ok("https://api.github.com/repos/me/rmpyou/releases/latest".to_string())
    );
    assert_eq!(latest_release_url(None), Err("updates are off in local builds".to_string()));
    assert_eq!(repo_url(Some("me/rmpyou")), "https://github.com/me/rmpyou");
    assert_eq!(repo_url(None), "");
}

#[test]
fn update_states() {
    let found: Result<Option<(String, String)>, String> = Ok(Some(("0.3.1".into(), "u".into())));
    assert_eq!(check_for_update(&found), (UpdateState::Available, Some("0.3.1".to_string())));
    assert_eq!(check_for_update(&Ok(None)), (UpdateState::Latest, None));
    assert_eq!(check_for_update(&Err("x".into())), (UpdateState::Failed, None));
    assert_eq!(after_update(true).label(), "ready");
    assert_eq!(after_update(false).label(), "failed");
    assert_eq!(UpdateState::Available.label(), "available");
    assert_eq!(UpdateState::Disabled.label(), "disabled");
    assert_eq!(UpdateState::Checking.label(), "checking");
    assert_eq!(UpdateState::Downloading.label(), "downloading");
    assert_eq!(UpdateState::Latest.label(), "latest");
}

// ------------------------------------------------------------ colors

#[test]
fn hex_colors_take_spaces_hashes_and_plus() {
    assert_eq!(parse_hex("  ##ff0000 \n"), Some(Rgb::from_rgb_u8(255, 0, 0)));
    assert_eq!(parse_hex("+12345"), Some(Rgb::from_rgb_u8(0x01, 0x23, 0x45)));
    assert_eq!(parse_hex("#aBcDeF"), Some(Rgb::from_rgb_u8(0xab, 0xcd, 0xef)));
    assert_eq!(parse_hex("#ff00001"), None);
    assert_eq!(parse_hex(""), None);
    assert_eq!(parse_hex("-12345"), None);
    assert_eq!(parse_hex("++1234"), None);
    assert_eq!(parse_hex("#ff 000"), None);
}

#[test]
fn hex_round_trip_on_examples() {
    for c in [Rgb::from_rgb_u8(0, 0, 0), Rgb::from_rgb_u8(0x1e, 0x29, 0x3b), Rgb::from_rgb_u8(255, 255, 255)] {
        let hex = ffmpeg_color(c);
        assert_eq!(parse_hex(&hex[2..]), Some(c));
        assert_eq!(parse_hex(&format!("#{}", &hex[2..])), Some(c));
    }
    assert_eq!(ffmpeg_color(Rgb::from_rgb_u8(0x1e, 0x29, 0x3b)), "0x1E293B");
}

#[test]
fn palettes_are_upper_case_and_parse() {
    let json = r#"{"code":"0a0b0c0d0e0f1a2b3c4d5e6f"},{"code":"0a0b0c0d0e0f1a2b3c4d5e6g"},{"code":"0a0b0c0d0e0f1a2b3c4d5e6"}"#;
    let p = parse_palettes(json);
    assert_eq!(p.len(), 1);
    assert_eq!(p[0], ["0A0B0C", "0D0E0F", "1A2B3C", "4D5E6F"].map(String::from));
    let colors = palette_colors(&p[0]);
    assert_eq!(colors.len(), 4);
    assert_eq!(colors[3], Rgb::from_rgb_u8(0x4d, 0x5e, 0x6f));
}

#[test]
fn palette_colors_skip_what_does_not_parse() {
    let hexes = ["112233", "nope", "#445566", "778899"].map(String::from);
    assert_eq!(
        palette_colors(&hexes),
        vec![Rgb::from_rgb_u8(0x11, 0x22, 0x33), Rgb::from_rgb_u8(0x44, 0x55, 0x66), Rgb::from_rgb_u8(0x77, 0x88, 0x99)]
    );
}

// ------------------------------------------------------------ settings

#[test]
fn settings_round_trip() {
    for theme in 0..4 {
        for fill in 0..5 {
            for auto in [false, true] {
                let c = Rgb::from_rgb_u8(0x1e, 0x29, theme as u8 * 60);
                let s = load_settings(&save_settings(theme, fill, c, auto));
                assert_eq!(s.theme, Some(theme));
                assert_eq!(s.fill, Some(fill));
                let (color, hex) = s.custom_color.unwrap();
                assert_eq!(color, c);
                assert_eq!(hex, format!("#{:02X}{:02X}{:02X}", c.red, c.green, c.blue));
                assert_eq!(s.auto_update, Some(auto));
            }
        }
    }
}

#[test]
fn saved_settings_text() {
    assert_eq!(
        save_settings(1, 4, Rgb::from_rgb_u8(0x1e, 0x29, 0x3b), true),
        "theme=1\nfill=4\ncustom_color=#1E293B\nauto_update=true\n"
    );
    assert_eq!(
        save_settings(-3, 0, Rgb::from_rgb_u8(0, 10, 255), false),
        "theme=-3\nfill=0\ncustom_color=#000AFF\nauto_update=false\n"
    );
}

#[test]
fn settings_take_last_valid_value() {
    let text = "theme=2\r\nfill = 3\ncustom_color= #112233 \nauto_update=false\ntheme=9\njunk\n=\nfill=5";
    let s = load_settings(text);
    assert_eq!(s.theme, Some(2));
    assert_eq!(s.fill, Some(3));
    assert_eq!(s.custom_color, Some((Rgb::from_rgb_u8(0x11, 0x22, 0x33), "#112233".to_string())));
    assert_eq!(s.auto_update, Some(false));
}

#[test]
fn settings_numbers_as_rust_parses_them() {
    let s = load_settings("theme=+1\nfill=-0\n");
    assert_eq!((s.theme, s.fill), (Some(1), Some(0)));
    let s = load_settings("theme=-1\nfill=0004\nauto_update=no\ncustom_color=#12345\n");
    assert_eq!((s.theme, s.fill, s.auto_update), (None, Some(4), Some(true)));
    assert!(s.custom_color.is_none());
    let s = load_settings("");
    assert_eq!((s.theme, s.fill, s.auto_update), (None, None, None));
    let s = load_settings("theme=99999999999\nfill= 2 = 3\n");
    assert_eq!((s.theme, s.fill), (None, None));
}

// ------------------------------------------------------------ ffmpeg

#[test]
fn solid_fill_filter() {
    assert_eq!(
        video_filter((1920, 1080), Some("0x1E293B")),
        "scale=1920:1080:force_original_aspect_ratio=decrease,pad=1920:1080:(ow-iw)/2:(oh-ih)/2:color=0x1E293B,setsar=1,format=yuv420p"
    );
}

#[test]
fn blurred_fill_filter() {
    assert_eq!(
        video_filter((1280, 720), None),
        "split[a][b];[a]scale=1280:720:force_original_aspect_ratio=increase,crop=1280:720,boxblur=luma_radius=min(h\\,w)/20:luma_power=3[bg];[b]scale=1280:720:force_original_aspect_ratio=decrease[fg];[bg][fg]overlay=(W-w)/2:(H-h)/2,setsar=1,format=yuv420p"
    );
}

#[test]
fn render_command_line() {
    let a = render_args("c.png", "a.mp3", "o.mp4", (3840, 2160), Some("0x000000"), Some("3.000"));
    assert_eq!(a.len(), 38);
    assert_eq!(&a[..12], ["-y", "-hide_banner", "-loglevel", "error", "-loop", "1", "-framerate", "2", "-i", "c.png", "-i", "a.mp3"]);
    assert_eq!(a[17], video_filter((3840, 2160), Some("0x000000")));
    assert_eq!(&a[32..], ["-t", "3.000", "-progress", "pipe:1", "-nostats", "o.mp4"].map(String::from));
    let b = render_args("c.png", "a.mp3", "o.mp4", (1280, 720), None, None);
    assert_eq!(b.len(), 37);
    assert_eq!(&b[30..34], ["-movflags", "+faststart", "-shortest", "-progress"]);
}

#[test]
fn tool_command_lines() {
    assert_eq!(extract_cover("a.mp3", "c.png"), ["-y", "-loglevel", "error", "-i", "a.mp3", "-map", "0:v:0", "-frames:v", "1", "c.png"]);
    assert_eq!(
        blur_preview("c.png", "b.png")[6],
        "scale=480:270:force_original_aspect_ratio=increase,crop=480:270,boxblur=luma_radius=min(h\\,w)/20:luma_power=3"
    );
    assert_eq!(average_color_args("c.png")[3], "c.png");
    assert_eq!(average_color_args("c.png").len(), 11);
    assert_eq!(probe_duration_args("a.mp3"), ["-v", "error", "-show_entries", "format=duration", "-of", "csv=p=0", "a.mp3"]);
    assert_eq!(preview_args("p.webp", "p.png"), ["-y", "-loglevel", "error", "-i", "p.webp", "-frames:v", "1", "p.png"]);
}

#[test]
fn average_color_takes_first_three_bytes() {
    assert_eq!(average_color(&[1, 2, 3, 4]), Some(Rgb::from_rgb_u8(1, 2, 3)));
    assert_eq!(average_color(&[1, 2]), None);
}

#[test]
fn render_failure_is_last_error_line() {
    assert_eq!(render_failure("first\nlast error\n"), "last error");
    assert_eq!(render_failure("only\r\n"), "only");
    assert_eq!(render_failure("a\n\n"), "");
    assert_eq!(render_failure(""), "ffmpeg failed");
}

#[test]
fn ffmpeg_version_is_third_word() {
    assert_eq!(ffmpeg_version("ffmpeg version 7.1-full_build Copyright", true), Some("7.1-full_build".to_string()));
    assert_eq!(ffmpeg_version("  ffmpeg\n version\t\t6.0 ", true), Some("6.0".to_string()));
    assert_eq!(ffmpeg_version("ffmpeg version 7.1", false), None);
    assert_eq!(ffmpeg_version("ffmpeg version", true), None);
}

#[test]
fn tools_are_found_in_order() {
    assert_eq!(find_tool(true, true, true), Some(ToolSource::Beside));
    assert_eq!(find_tool(false, true, true), Some(ToolSource::Managed));
    assert_eq!(find_tool(false, false, true), Some(ToolSource::SystemPath));
    assert_eq!(find_tool(false, false, false), None);
    let s = refresh_ffmpeg(Some("7.1".into()), true, Some(("/bin/ffmpeg".into(), ToolSource::SystemPath)));
    assert!(s.ok);
    assert_eq!((s.version.as_str(), s.source.as_str(), s.path.as_str()), ("7.1", "system PATH", "/bin/ffmpeg"));
    let s = refresh_ffmpeg(Some("7.1".into()), false, Some(("f".into(), ToolSource::Beside)));
    assert!(!s.ok);
    assert_eq!(s.source, "next to rmpyou");
    let s = refresh_ffmpeg(None, true, None);
    assert!(!s.ok);
    assert_eq!((s.version.as_str(), s.source.as_str(), s.path.as_str()), ("", "", ""));
    assert_eq!(ToolSource::Managed.label(), "managed by rmpyou");
}

#[test]
fn clock_times() {
    assert_eq!(fmt_time(0), "0:00");
    assert_eq!(fmt_time(65), "1:05");
    assert_eq!(fmt_time(3599), "59:59");
    assert_eq!(fmt_time(3600), "1:00:00");
    assert_eq!(fmt_time(3725), "1:02:05");
    assert_eq!(fmt_time(36000), "10:00:00");
}

#[test]
fn download_progress_in_whole_percents() {
    let mib = 1 << 20;
    assert_eq!(download_progress(5, None, 7), (7, None));
    assert_eq!(download_progress(5, Some(0), 7), (7, None));
    assert_eq!(
        download_progress(50 * mib, Some(100 * mib), u32::MAX),
        (50, Some((50, "Downloading FFmpeg… 50 / 100 MB".to_string())))
    );
    assert_eq!(download_progress(50 * mib + 1, Some(100 * mib), 50), (50, None));
    assert_eq!(download_progress(100 * mib, Some(100 * mib), 99), (100, Some((100, "Unpacking…".to_string()))));
}

// ------------------------------------------------------------ window

#[test]
fn resolutions_are_clamped() {
    assert_eq!(resolution(-4), (1280, 720));
    assert_eq!(resolution(0), (1280, 720));
    assert_eq!(resolution(1), (1920, 1080));
    assert_eq!(resolution(2), (3840, 2160));
    assert_eq!(resolution(9), (3840, 2160));
}

#[test]
fn dropped_files_by_extension() {
    assert_eq!(dropped_file("MP3"), DroppedFile::Audio);
    assert_eq!(dropped_file("JpEg"), DroppedFile::Image);
    assert_eq!(dropped_file("webp"), DroppedFile::Image);
    assert_eq!(dropped_file("txt"), DroppedFile::Unsupported);
    assert_eq!(dropped_file(""), DroppedFile::Unsupported);
    assert!(is_native_image("PNG"));
    assert!(is_native_image("jpg"));
    assert!(!is_native_image("bmp"));
}

#[test]
fn fill_and_status() {
    assert_eq!(fill_arg(0, Rgb::from_rgb_u8(1, 2, 3)), None);
    assert_eq!(fill_arg(3, Rgb::from_rgb_u8(0x1e, 0x29, 0x3b)), Some("0x1E293B".to_string()));
    assert_eq!(encoding_status((1920, 1080)), "Encoding 1920x1080 video, keeping your original MP3 audio…");
}

#[test]
fn palette_browser() {
    assert_eq!(hunt_pick("fff5f5"), Some((Rgb::from_rgb_u8(0xff, 0xf5, 0xf5), "#fff5f5".to_string())));
    assert_eq!(hunt_pick("zz"), None);
    assert_eq!(hunt_step(true, 4), 5);
    assert_eq!(hunt_step(false, 4), 0);
    let form = palette_feed_form(7, 12);
    assert_eq!(
        form,
        [("step", "12"), ("sort", "random"), ("tags", ""), ("timeframe", "4000")].map(|(a, b)| (a.to_string(), b.to_string()))
    );
    assert_eq!(palette_feed_form(-1, 0)[1].1, "popular");
    assert_eq!(palette_feed_form(1, 0)[1].1, "new");
}

#[test]
fn small_choices() {
    assert_eq!(first_author("Ann:Bob"), "Ann");
    assert_eq!(first_author("Ann"), "Ann");
    assert_eq!(first_author(""), "");
    assert_eq!(resize_handle(-2), 0);
    assert_eq!(resize_handle(3), 3);
    assert_eq!(resize_handle(12), 7);
}

#[test]
fn json_value_ends_at_first_quote() {
    let values = json_strings(r#"{"k":"a\"b", "k": "c"}"#, "k");
    assert_eq!(values, ["a\\", "c"]);
    assert!(values.iter().all(|v| !v.contains('"')));
}
