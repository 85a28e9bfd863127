use rmpyou::color::{parse_hex, parse_palettes, Rgb};
use rmpyou::json::json_strings;
use rmpyou::version::is_newer;

#[test]
fn parses_hex_colors() {
    assert_eq!(parse_hex("#1E293B"), Some(Rgb::from_rgb_u8(0x1e, 0x29, 0x3b)));
    assert_eq!(parse_hex("ff0000"), Some(Rgb::from_rgb_u8(255, 0, 0)));
    assert_eq!(parse_hex("#12345"), None);
    assert_eq!(parse_hex("#GGGGGG"), None);
}

#[test]
fn reads_github_release_json() {
    let json = r#"{"tag_name": "v0.2.0", "assets": [{"browser_download_url":"https://x/a.txt"},
            {"browser_download_url": "https://x/rmpyou-x86_64-pc-windows-msvc.zip"}]}"#;
    assert_eq!(json_strings(json, "tag_name"), ["v0.2.0"]);
    assert_eq!(json_strings(json, "browser_download_url")[1], "https://x/rmpyou-x86_64-pc-windows-msvc.zip");
    assert!(is_newer("0.2.0", "0.1.9"));
    assert!(is_newer("1.10.0", "1.9.3"));
    assert!(!is_newer("0.1.0", "0.1.0"));
    assert!(!is_newer("0.0.9", "0.1.0"));
}

#[test]
fn parses_colorhunt_feed() {
    let json = r#"[{"code":"fff5f5f7d6d0e2b4bd4a4a4a","likes":"2550","date":"4 weeks"},{"code":"bad","likes":"1"},{"code":"8b9a6ef7f2ebeae2d6eeeeee","likes":"1237"}]"#;
    let p = parse_palettes(json);
    assert_eq!(p.len(), 2);
    assert_eq!(p[0], ["FFF5F5", "F7D6D0", "E2B4BD", "4A4A4A"].map(String::from));
    assert_eq!(p[1][3], "EEEEEE");
}
