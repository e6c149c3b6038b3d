use vstd::prelude::*;

pub mod api;
pub mod app;
pub mod catalog;
pub mod cli;
pub mod downloader;
pub mod filenames;
pub mod hls;
pub mod models;
pub mod screen;
pub mod subtitles;
pub mod text;
pub mod tui;
pub mod urls;

verus! {
} // verus!
