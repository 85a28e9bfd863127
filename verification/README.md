# rmpyou

Turns an MP3 and a cover image into a video ready to upload to YouTube. This crate
is its logic, verified with Verus:

- `src/text.rs`: white space, trimming, splitting, lines and words, decimal and
  hexadecimal digits, with the specifications of the `str` methods they follow.
- `src/json.rs`: the string values of a key in a JSON text.
- `src/version.rs`: the order of version strings (with its laws) and what a
  latest-release document offers.
- `src/color.rs`: `#RRGGBB` colors and the Color Hunt palettes.
- `src/settings.rs`: the settings file, with the proof that saved settings read back.
- `src/ffmpeg.rs`: tool discovery, ffmpeg's output, filters and command lines.
- `src/ui.rs`: the window's decisions (dropped files, resolution, fill, paging).

`app/` runs the processes, the network requests and the file access around it.
