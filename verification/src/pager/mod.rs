//! Showing rendered text a screen at a time.
//!
//! [`view`] says what the pager shows and how that changes; [`state`],
//! [`input`] and [`screen`] are the pager itself. [`laws`] and [`paint_laws`]
//! hold what is true of it whatever happens.

pub mod ansi;
pub mod ansi_laws;
pub mod base64;
pub mod columns;
pub mod file_key_laws;
pub mod files;
pub mod hud;
pub mod input;
pub mod key_laws;
pub mod keys;
pub mod laws;
pub mod opening;
pub mod paint;
pub mod paint_laws;
pub mod pane_laws;
pub mod row_laws;
pub mod screen;
pub mod screen_laws;
pub mod search;
pub mod state;
pub mod view;

pub use ansi::strip_ansi_text;
pub use base64::encode_base64;
pub use columns::extract_column_range;
pub use files::build_file_header_lines;
pub use files::filter_file_names;
pub use hud::render_centered_overlay_lines;
pub use hud::render_search_hud;
pub use keys::KeyCode;
pub use keys::KeyModifiers;
pub use keys::PagerAction;
pub use keys::PagerEvent;
pub use opening::page_or_render;
pub use opening::Opening;
pub use paint::clip_ansi_text;
pub use paint::clip_ansi_text_from;
pub use paint::render_highlighted_line;
pub use screen::osc52_sequence;
pub use screen::should_page_output;
pub use screen::Frame;
pub use search::find_matches;
pub use search::SearchMatch;
pub use state::PagerState;
pub use state::SearchMode;
