//! The logic of rmpyou, an MP3-and-cover-image to YouTube video tool: the scans of
//! the JSON it receives, version ordering, colors and palettes, the settings file,
//! and the ffmpeg command lines it runs, each with a contract proved by Verus.
use vstd::prelude::*;

pub mod color;
pub mod ffmpeg;
pub mod json;
pub mod settings;
pub mod text;
pub mod ui;
pub mod version;

verus! {
}
