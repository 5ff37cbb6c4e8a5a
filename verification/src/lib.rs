//! A terminal diff viewer.
//!
//! The diff command of the repository at hand is run ([`backend`]), what it
//! prints is read ([`unified_diff`], [`snapshot`]) and turned into lines of
//! terminal text ([`render`]), and these are shown a screen at a time
//! ([`pager`]). [`terminal_palette`] chooses the colors, and [`rage`] reports
//! what decided the looks of it all. [`text`] and [`width`] are what the rest
//! is built from: text as a sequence of characters, and the columns that it
//! takes.

pub mod backend;
pub mod backend_laws;
pub mod color_laws;
pub mod diff_laws;
pub mod pager;
pub mod rage;
pub mod render;
pub mod snapshot;
pub mod terminal_palette;
pub mod text;
pub mod text_laws;
pub mod unified_diff;
pub mod width;
