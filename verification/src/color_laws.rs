//! What holds of the colors of all terminals.

use crate::terminal_palette;
use crate::terminal_palette::AnsiColor;
use crate::terminal_palette::ColorSupport;
use crate::terminal_palette::Rgb;
use crate::terminal_palette::StdoutColorLevel;
use vstd::prelude::*;

verus! {

/// The level of a terminal is the highest that it supports.
pub proof fn lemma_level_is_highest(support: ColorSupport)
    ensures
        terminal_palette::level_of(None) is Unknown,
        support.has_16m <==> terminal_palette::level_of(Some(support)) is TrueColor,
        support.has_256 && !support.has_16m <==> terminal_palette::level_of(Some(support)) is Ansi256,
        !support.has_256 && !support.has_16m <==> terminal_palette::level_of(
            Some(support),
        ) is Ansi16,
{
}

/// The color cube has all mixtures of six steps of red, green and blue, which go
/// from nothing to full in steps of forty behind the first.
pub proof fn lemma_color_cube(red: int, green: int, blue: int)
    requires
        0 <= red < 6,
        0 <= green < 6,
        0 <= blue < 6,
    ensures
        ({
            let color = terminal_palette::xterm_color(36 * red + 6 * green + blue);
            &&& color.0 == if red == 0 {
                0
            } else {
                55 + 40 * red
            }
            &&& color.1 == if green == 0 {
                0
            } else {
                55 + 40 * green
            }
            &&& color.2 == if blue == 0 {
                0
            } else {
                55 + 40 * blue
            }
        }),
{
    let i = 36 * red + 6 * green + blue;
    assert(i / 36 == red);
    assert((i / 6) % 6 == green);
    assert(i % 6 == blue);
}

/// Behind the cube there are twenty-four grays, each ten lighter than the one
/// before.
pub proof fn lemma_grays(step: int)
    requires
        0 <= step < 24,
    ensures
        ({
            let color = terminal_palette::xterm_color(216 + step);
            color.0 == 8 + 10 * step && color.1 == color.0 && color.2 == color.0
        }),
{
}

/// The nearest of some colors is as near as any, and the first that is.
pub proof fn lemma_nearest(distances: Seq<u32>, index: int, other: int)
    requires
        terminal_palette::is_nearest(distances, index),
        0 <= other < distances.len(),
    ensures
        0 <= index < distances.len(),
        distances[index] <= distances[other],
        distances[other] == distances[index] ==> index <= other,
{
}

/// A terminal with all colors shows the color itself, one with 256 the nearest of
/// those that all such terminals have, by its number, and any other none.
pub proof fn lemma_shown_color(target: Rgb, nearest: u8)
    ensures
        terminal_palette::shown_color(target, StdoutColorLevel::TrueColor, Some(nearest)) == Some(
            AnsiColor::Rgb(target.0, target.1, target.2),
        ),
        terminal_palette::shown_color(target, StdoutColorLevel::TrueColor, None) == Some(
            AnsiColor::Rgb(target.0, target.1, target.2),
        ),
        terminal_palette::shown_color(target, StdoutColorLevel::Ansi256, Some(nearest)) == Some(
            AnsiColor::Indexed(nearest),
        ),
        terminal_palette::shown_color(target, StdoutColorLevel::Ansi16, Some(nearest)) is None,
        terminal_palette::shown_color(target, StdoutColorLevel::Unknown, Some(nearest)) is None,
{
}

/// A light background is tinted darker, a dark one lighter, and the tint tells
/// what it was made from.
pub proof fn lemma_tint_tells_all(
    level: StdoutColorLevel,
    bg: Rgb,
    light: bool,
    blended: Rgb,
    color: Option<AnsiColor>,
)
    ensures
        ({
            let tint = terminal_palette::tint(level, bg, light, blended, color);
            &&& tint.overlay == if light {
                Some((0u8, 0u8, 0u8))
            } else {
                Some((255u8, 255u8, 255u8))
            }
            &&& tint.alpha == Some(terminal_palette::overlay_of(light).1)
            &&& tint.stdout_color_level == level
            &&& tint.queried_bg == Some(bg)
            &&& tint.effective_bg == Some(bg)
            &&& tint.is_light == Some(light)
            &&& tint.blended_rgb == Some(blended)
            &&& tint.final_color == color
            &&& tint.query_error is None
            &&& tint.bg_source is Queried
        }),
{
}

/// Where the background is not known, it says why, and nothing else but the
/// level.
pub proof fn lemma_no_tint_tells_why(level: StdoutColorLevel, failed: bool)
    ensures
        ({
            let tint = terminal_palette::no_tint(level, failed);
            &&& tint.stdout_color_level == level
            &&& tint.query_error is Some <==> failed
            &&& tint.bg_source is Failed <==> failed
            &&& tint.bg_source is Unavailable <==> !failed
            &&& tint.queried_bg is None && tint.effective_bg is None && tint.is_light is None
            &&& tint.overlay is None && tint.alpha is None && tint.blended_rgb is None
            &&& tint.final_color is None
        }),
{
}

} // verus!
