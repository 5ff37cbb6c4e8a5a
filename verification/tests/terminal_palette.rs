use mdiff::terminal_palette::best_color;
use mdiff::terminal_palette::best_color_for;
use mdiff::terminal_palette::color_level;
use mdiff::terminal_palette::nearest_of;
use mdiff::terminal_palette::nearest_xterm_color;
use mdiff::terminal_palette::stdout_color_level;
use mdiff::terminal_palette::tint_diagnostics_for;
use mdiff::terminal_palette::tint_with_background;
use mdiff::terminal_palette::user_message_bg;
use mdiff::terminal_palette::user_message_bg_for;
use mdiff::terminal_palette::xterm_fixed_colors;
use mdiff::terminal_palette::AnsiColor;
use mdiff::terminal_palette::BackgroundSource;
use mdiff::terminal_palette::ColorSupport;
use mdiff::terminal_palette::Rgb;
use mdiff::terminal_palette::StdoutColorLevel;

fn is_light(bg: Rgb) -> bool {
    0.299 * bg.0 as f32 + 0.587 * bg.1 as f32 + 0.114 * bg.2 as f32 > 128.0
}

fn blend(fg: Rgb, bg: Rgb, alpha: u8) -> Rgb {
    let alpha = alpha as f32 / 100.0;
    let mix = |a: u8, b: u8| (a as f32 * alpha + b as f32 * (1.0 - alpha)) as u8;
    (mix(fg.0, bg.0), mix(fg.1, bg.1), mix(fg.2, bg.2))
}

fn distance(a: Rgb, b: Rgb) -> u32 {
    let square = |x: u8, y: u8| (x as i32 - y as i32).pow(2) as u32;
    square(a.0, b.0) + square(a.1, b.1) + square(a.2, b.2)
}

#[test]
fn returns_none_without_terminal_background() {
    assert_eq!(
        user_message_bg_for(Ok::<Option<Rgb>, String>(None), &is_light, &blend, &distance),
        None
    );
}

#[test]
fn picks_truecolor_or_ansi_color() {
    let result = best_color((252, 252, 252), &distance);
    assert!(matches!(
        result,
        Some(AnsiColor::Rgb(_, _, _)) | Some(AnsiColor::Indexed(_)) | None
    ));
}

#[test]
fn exposes_blended_rgb_in_diagnostics() {
    let diagnostics = tint_diagnostics_for(
        Ok::<Option<Rgb>, String>(Some((255, 255, 255))),
        &is_light,
        &blend,
        &distance,
    );
    assert_eq!(diagnostics.queried_bg, Some((255, 255, 255)));
    assert_eq!(diagnostics.blended_rgb, Some((252, 252, 252)));
}

#[test]
fn exposes_query_failure() {
    let diagnostics = tint_diagnostics_for(
        Err(std::io::Error::other("boom")),
        &is_light,
        &blend,
        &distance,
    );
    assert_eq!(diagnostics.bg_source, BackgroundSource::Failed);
    assert_eq!(diagnostics.final_color, None);
}

#[test]
fn diagnostics_tell_overlay_and_alpha() {
    let light = tint_diagnostics_for(
        Ok::<Option<Rgb>, String>(Some((250, 250, 250))),
        &is_light,
        &blend,
        &distance,
    );
    assert_eq!(light.is_light, Some(true));
    assert_eq!(light.overlay, Some((0, 0, 0)));
    assert_eq!(light.alpha, Some(1));
    assert_eq!(light.bg_source, BackgroundSource::Queried);
    let dark = tint_diagnostics_for(
        Ok::<Option<Rgb>, String>(Some((0, 0, 0))),
        &is_light,
        &blend,
        &distance,
    );
    assert_eq!(dark.overlay, Some((255, 255, 255)));
    assert_eq!(dark.alpha, Some(4));
    assert_eq!(dark.blended_rgb, Some((10, 10, 10)));
    let unknown = tint_diagnostics_for(
        Ok::<Option<Rgb>, String>(None),
        &is_light,
        &blend,
        &distance,
    );
    assert_eq!(unknown.bg_source, BackgroundSource::Unavailable);
    assert_eq!(unknown.query_error, None);
}

#[test]
fn levels_follow_support() {
    let level = |has_256: bool, has_16m: bool| color_level(Some(ColorSupport { has_256, has_16m }));
    assert_eq!(level(true, true), StdoutColorLevel::TrueColor);
    assert_eq!(level(true, false), StdoutColorLevel::Ansi256);
    assert_eq!(level(false, false), StdoutColorLevel::Ansi16);
    assert_eq!(color_level(None), StdoutColorLevel::Unknown);
}

#[test]
fn stdout_level_is_what_the_terminal_supports() {
    let expected = match supports_color::on_cached(supports_color::Stream::Stdout) {
        Some(level) if level.has_16m => StdoutColorLevel::TrueColor,
        Some(level) if level.has_256 => StdoutColorLevel::Ansi256,
        Some(_) => StdoutColorLevel::Ansi16,
        None => StdoutColorLevel::Unknown,
    };
    assert_eq!(stdout_color_level(), expected);
}

#[test]
fn fixed_colors_are_cube_and_grays() {
    let colors = xterm_fixed_colors();
    assert_eq!(colors.len(), 240);
    assert_eq!(colors[0], (16, (0, 0, 0)));
    assert_eq!(colors[1], (17, (0, 0, 95)));
    assert_eq!(colors[215], (231, (255, 255, 255)));
    assert_eq!(colors[216], (232, (8, 8, 8)));
    assert_eq!(colors[239], (255, (238, 238, 238)));
}

#[test]
fn nearest_color_is_the_first_of_the_nearest() {
    assert_eq!(nearest_xterm_color((255, 0, 0), &distance), Some(196));
    assert_eq!(nearest_xterm_color((9, 9, 9), &distance), Some(232));
    assert_eq!(nearest_xterm_color((1, 2, 3), &|_, _| 7), Some(16));
    assert_eq!(nearest_of(&vec![3, 1, 2, 1]), Some(1));
    assert_eq!(nearest_of(&Vec::new()), None);
}

#[test]
fn colors_depend_on_the_level() {
    let at = |level| best_color_for((255, 0, 0), level, &distance);
    assert_eq!(
        at(StdoutColorLevel::TrueColor),
        Some(AnsiColor::Rgb(255, 0, 0))
    );
    assert_eq!(at(StdoutColorLevel::Ansi256), Some(AnsiColor::Indexed(196)));
    assert_eq!(at(StdoutColorLevel::Ansi16), None);
    assert_eq!(at(StdoutColorLevel::Unknown), None);
    let tint = tint_with_background(
        StdoutColorLevel::Ansi256,
        (0, 0, 0),
        false,
        (10, 10, 10),
        Some(AnsiColor::Indexed(232)),
    );
    assert_eq!(user_message_bg(&tint), Some(AnsiColor::Indexed(232)));
}
