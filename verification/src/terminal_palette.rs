//! The colors that tint a diff, and how they are chosen.
//!
//! How light a color is, how two colors blend and how far apart they look is
//! measured by the caller, with floating-point numbers.

use supports_color::Stream;
use vstd::prelude::*;

verus! {

broadcast use vstd::seq::group_seq_axioms;

/// A color as its red, green and blue.
pub type Rgb = (u8, u8, u8);

/// How much of the overlay is blended into a light background, in hundredths.
pub const LIGHT_BG_ALPHA: u8 = 1;

/// How much of the overlay is blended into a dark background, in hundredths.
pub const DARK_BG_ALPHA: u8 = 4;

/// A color that a terminal can be asked for.
#[derive(Clone, Copy, Debug, Eq, PartialEq, Structural)]
pub enum AnsiColor {
    Indexed(u8),
    Rgb(u8, u8, u8),
}

/// How many colors the terminal has.
#[derive(Clone, Copy, Debug, Eq, PartialEq, Structural)]
pub enum StdoutColorLevel {
    TrueColor,
    Ansi256,
    Ansi16,
    Unknown,
}

/// Whether the background of the terminal is known.
#[derive(Clone, Copy, Debug, Eq, PartialEq, Structural)]
pub enum BackgroundSource {
    Queried,
    Unavailable,
    Failed,
}

/// How a tint was chosen.
#[derive(Clone, Copy, Debug, PartialEq)]
pub struct TintDiagnostics {
    pub stdout_color_level: StdoutColorLevel,
    pub query_error: Option<&'static str>,
    pub queried_bg: Option<Rgb>,
    pub bg_source: BackgroundSource,
    pub effective_bg: Option<Rgb>,
    pub is_light: Option<bool>,
    pub overlay: Option<Rgb>,
    /// How much of the overlay is blended in, in hundredths.
    pub alpha: Option<u8>,
    pub blended_rgb: Option<Rgb>,
    pub final_color: Option<AnsiColor>,
}

// ---------------------------------------------------------------------------
// Color levels
// ---------------------------------------------------------------------------

/// The colors that a terminal supports besides the basic ones.
#[derive(Clone, Copy, Debug, Eq, PartialEq, Structural)]
pub struct ColorSupport {
    pub has_256: bool,
    pub has_16m: bool,
}

/// Calls `supports_color::on_cached` for the standard output. What it returns
/// depends on the environment and the terminal. Claimed of it: a terminal with
/// 16 million colors also has 256.
#[verifier::external_body]
fn stdout_color_support() -> (support: Option<ColorSupport>)
    ensures
        support matches Some(support) ==> (support.has_16m ==> support.has_256),
{
    supports_color::on_cached(Stream::Stdout).map(
        |level| ColorSupport { has_256: level.has_256, has_16m: level.has_16m },
    )
}

/// The level of a terminal that supports the given colors.
pub open spec fn level_of(support: Option<ColorSupport>) -> StdoutColorLevel {
    match support {
        Some(support) => if support.has_16m {
            StdoutColorLevel::TrueColor
        } else if support.has_256 {
            StdoutColorLevel::Ansi256
        } else {
            StdoutColorLevel::Ansi16
        },
        None => StdoutColorLevel::Unknown,
    }
}

/// The level of a terminal that supports the given colors.
pub fn color_level(support: Option<ColorSupport>) -> (level: StdoutColorLevel)
    ensures
        level == level_of(support),
{
    match support {
        Some(support) => {
            if support.has_16m {
                StdoutColorLevel::TrueColor
            } else if support.has_256 {
                StdoutColorLevel::Ansi256
            } else {
                StdoutColorLevel::Ansi16
            }
        },
        None => StdoutColorLevel::Unknown,
    }
}

/// The level of the terminal at the standard output. It depends on the
/// environment.
pub fn stdout_color_level() -> (level: StdoutColorLevel)
    ensures
        exists|support: Option<ColorSupport>| level == #[trigger] level_of(support),
{
    color_level(stdout_color_support())
}

// ---------------------------------------------------------------------------
// The colors that a terminal with 256 of them has
// ---------------------------------------------------------------------------

/// The steps of the color cube.
pub open spec fn cube_step(step: int) -> u8 {
    if step == 0 {
        0
    } else {
        (55 + 40 * step) as u8
    }
}

/// The `i`-th color that all terminals with 256 colors have alike: a cube of
/// six steps a side, then a ramp of grays.
pub open spec fn xterm_color(i: int) -> Rgb {
    if i < 216 {
        (cube_step(i / 36), cube_step((i / 6) % 6), cube_step(i % 6))
    } else {
        let value = (8 + (i - 216) * 10) as u8;
        (value, value, value)
    }
}

/// The number of the colors that all terminals with 256 colors have alike. The
/// first of them is color 16.
pub const XTERM_COLOR_COUNT: usize = 240;

/// The `step`-th step of the color cube.
fn cube_value(step: u8) -> (value: u8)
    requires
        step < 6,
    ensures
        value == cube_step(step as int),
{
    if step == 0 {
        0
    } else {
        55 + 40 * step
    }
}

/// The colors that all terminals with 256 colors have alike, with their
/// numbers.
pub fn xterm_fixed_colors() -> (colors: Vec<(u8, Rgb)>)
    ensures
        colors@.len() == XTERM_COLOR_COUNT,
        forall|i: int|
            0 <= i < colors@.len() ==> #[trigger] colors@[i] == ((16 + i) as u8, xterm_color(i)),
{
    let mut colors: Vec<(u8, Rgb)> = Vec::new();
    let mut offset: u8 = 0;
    while offset < 216
        invariant
            offset <= 216,
            colors@.len() == offset,
            forall|i: int|
                0 <= i < colors@.len() ==> #[trigger] colors@[i] == (
                    (16 + i) as u8,
                    xterm_color(i),
                ),
        decreases 216 - offset,
    {
        let r = cube_value(offset / 36);
        let g = cube_value((offset / 6) % 6);
        let b = cube_value(offset % 6);
        colors.push((16 + offset, (r, g, b)));
        offset += 1;
    }
    let mut step: u8 = 0;
    while step < 24
        invariant
            step <= 24,
            colors@.len() == 216 + step,
            forall|i: int|
                0 <= i < colors@.len() ==> #[trigger] colors@[i] == (
                    (16 + i) as u8,
                    xterm_color(i),
                ),
        decreases 24 - step,
    {
        let value: u8 = 8 + step * 10;
        colors.push((232 + step, (value, value, value)));
        step += 1;
    }
    colors
}

/// Whether `index` is the first place of the smallest of `distances`.
pub open spec fn is_nearest(distances: Seq<u32>, index: int) -> bool {
    &&& 0 <= index < distances.len()
    &&& forall|j: int| 0 <= j < distances.len() ==> distances[index] <= #[trigger] distances[j]
    &&& forall|j: int| 0 <= j < index ==> distances[index] < #[trigger] distances[j]
}

/// The first place of the smallest of `distances`.
pub fn nearest_of(distances: &Vec<u32>) -> (index: Option<usize>)
    ensures
        match index {
            Some(index) => is_nearest(distances@, index as int),
            None => distances@.len() == 0,
        },
{
    if distances.len() == 0 {
        return None;
    }
    let mut best: usize = 0;
    let mut index: usize = 1;
    while index < distances.len()
        invariant
            1 <= index <= distances@.len(),
            best < index,
            is_nearest(distances@.take(index as int), best as int),
        decreases distances@.len() - index,
    {
        let ghost before = distances@.take(index as int);
        let ghost after = distances@.take(index + 1);
        assert forall|j: int| 0 <= j < index implies #[trigger] after[j] == before[j] by {}
        assert(after[index as int] == distances@[index as int]);
        assert(before[best as int] == distances@[best as int]);
        if distances[index] < distances[best] {
            assert forall|j: int| 0 <= j < index implies distances@[index as int]
                < #[trigger] after[j] by {
                assert(before[best as int] <= before[j]);
            }
            best = index;
        }
        index += 1;
    }
    assert(distances@.take(index as int) =~= distances@);
    Some(best)
}

/// Whether `distances` is what `distance` says of how far the colors that all
/// terminals have alike look from `target`.
pub open spec fn measured<D>(distance: D, target: Rgb, distances: Seq<u32>) -> bool where
    D: Fn(Rgb, Rgb) -> u32,
 {
    &&& distances.len() == XTERM_COLOR_COUNT
    &&& forall|i: int|
        0 <= i < distances.len() ==> call_ensures(
            distance,
            (xterm_color(i), target),
            #[trigger] distances[i],
        )
}

/// The number of the color that looks nearest to `target`: the first of those
/// that are equally near.
pub fn nearest_xterm_color<D>(target: Rgb, distance: &D) -> (nearest: Option<u8>) where
    D: Fn(Rgb, Rgb) -> u32,

    requires
        forall|a: Rgb, b: Rgb| #[trigger] call_requires(*distance, (a, b)),
    ensures
        exists|distances: Seq<u32>, index: int| #[trigger]
            measured(*distance, target, distances) && #[trigger] is_nearest(distances, index)
                && nearest == Some((16 + index) as u8),
{
    let colors = xterm_fixed_colors();
    let mut distances: Vec<u32> = Vec::new();
    let mut index: usize = 0;
    while index < colors.len()
        invariant
            index <= colors@.len(),
            colors@.len() == XTERM_COLOR_COUNT,
            forall|i: int|
                0 <= i < colors@.len() ==> #[trigger] colors@[i] == (
                    (16 + i) as u8,
                    xterm_color(i),
                ),
            distances@.len() == index,
            forall|a: Rgb, b: Rgb| #[trigger] call_requires(*distance, (a, b)),
            forall|i: int|
                0 <= i < distances@.len() ==> call_ensures(
                    *distance,
                    (xterm_color(i), target),
                    #[trigger] distances@[i],
                ),
        decreases colors@.len() - index,
    {
        assert(colors@[index as int].1 == xterm_color(index as int));
        let far = (distance)(colors[index].1, target);
        distances.push(far);
        index += 1;
    }
    match nearest_of(&distances) {
        Some(best) => {
            assert(measured(*distance, target, distances@));
            assert(is_nearest(distances@, best as int));
            assert(colors@[best as int].0 == (16 + best) as u8);
            Some(colors[best].0)
        },
        None => None,
    }
}

// ---------------------------------------------------------------------------
// Choosing a color
// ---------------------------------------------------------------------------

/// The color that a terminal of the given level shows for `target`, where the
/// nearest of the colors that it may have is `nearest`.
pub open spec fn shown_color(
    target: Rgb,
    level: StdoutColorLevel,
    nearest: Option<u8>,
) -> Option<AnsiColor> {
    match level {
        StdoutColorLevel::TrueColor => Some(AnsiColor::Rgb(target.0, target.1, target.2)),
        StdoutColorLevel::Ansi256 => match nearest {
            Some(index) => Some(AnsiColor::Indexed(index)),
            None => None,
        },
        StdoutColorLevel::Ansi16 | StdoutColorLevel::Unknown => None,
    }
}

/// The color that a terminal of the given level shows for `target`.
pub fn color_at_level(target: Rgb, level: StdoutColorLevel, nearest: Option<u8>) -> (color: Option<
    AnsiColor,
>)
    ensures
        color == shown_color(target, level, nearest),
{
    match level {
        StdoutColorLevel::TrueColor => Some(AnsiColor::Rgb(target.0, target.1, target.2)),
        StdoutColorLevel::Ansi256 => match nearest {
            Some(index) => Some(AnsiColor::Indexed(index)),
            None => None,
        },
        StdoutColorLevel::Ansi16 | StdoutColorLevel::Unknown => None,
    }
}

/// Whether `color` is shown for `target` at `level`, by what `distance` says.
pub open spec fn is_best_color<D>(
    target: Rgb,
    level: StdoutColorLevel,
    distance: D,
    color: Option<AnsiColor>,
) -> bool where D: Fn(Rgb, Rgb) -> u32 {
    match level {
        StdoutColorLevel::Ansi256 => exists|distances: Seq<u32>, index: int| #[trigger]
            measured(distance, target, distances) && #[trigger] is_nearest(distances, index)
                && color == shown_color(target, level, Some((16 + index) as u8)),
        _ => color == shown_color(target, level, None),
    }
}

/// The color that a terminal of the given level shows for `target`.
pub fn best_color_for<D>(target: Rgb, level: StdoutColorLevel, distance: &D) -> (color: Option<
    AnsiColor,
>) where D: Fn(Rgb, Rgb) -> u32
    requires
        forall|a: Rgb, b: Rgb| #[trigger] call_requires(*distance, (a, b)),
    ensures
        is_best_color(target, level, *distance, color),
{
    let nearest = match level {
        StdoutColorLevel::Ansi256 => nearest_xterm_color(target, distance),
        _ => None,
    };
    color_at_level(target, level, nearest)
}

/// The color that the terminal at the standard output shows for `target`.
pub fn best_color<D>(target: Rgb, distance: &D) -> (color: Option<AnsiColor>) where
    D: Fn(Rgb, Rgb) -> u32,

    requires
        forall|a: Rgb, b: Rgb| #[trigger] call_requires(*distance, (a, b)),
    ensures
        exists|level: StdoutColorLevel| #[trigger] is_best_color(target, level, *distance, color),
{
    best_color_for(target, stdout_color_level(), distance)
}

// ---------------------------------------------------------------------------
// Tints
// ---------------------------------------------------------------------------

/// What is blended into a background, and how much of it, in hundredths: black
/// into a light one, white into a dark one.
pub open spec fn overlay_of(light: bool) -> (Rgb, u8) {
    if light {
        ((0, 0, 0), LIGHT_BG_ALPHA)
    } else {
        ((255, 255, 255), DARK_BG_ALPHA)
    }
}

/// The tint of a terminal whose background is not known: none.
pub open spec fn no_tint(level: StdoutColorLevel, failed: bool) -> TintDiagnostics {
    TintDiagnostics {
        stdout_color_level: level,
        query_error: if failed {
            Some("query_background_color failed")
        } else {
            None
        },
        queried_bg: None,
        bg_source: if failed {
            BackgroundSource::Failed
        } else {
            BackgroundSource::Unavailable
        },
        effective_bg: None,
        is_light: None,
        overlay: None,
        alpha: None,
        blended_rgb: None,
        final_color: None,
    }
}

/// The tint of a terminal with background `bg`, where `light` says whether it
/// is light, `blended` is the blend of the overlay into it, and `color` the
/// color that the terminal shows for that.
pub open spec fn tint(
    level: StdoutColorLevel,
    bg: Rgb,
    light: bool,
    blended: Rgb,
    color: Option<AnsiColor>,
) -> TintDiagnostics {
    TintDiagnostics {
        stdout_color_level: level,
        query_error: None,
        queried_bg: Some(bg),
        bg_source: BackgroundSource::Queried,
        effective_bg: Some(bg),
        is_light: Some(light),
        overlay: Some(overlay_of(light).0),
        alpha: Some(overlay_of(light).1),
        blended_rgb: Some(blended),
        final_color: color,
    }
}

/// The tint of a terminal whose background is not known.
pub fn tint_without_background(level: StdoutColorLevel, failed: bool) -> (diagnostics:
    TintDiagnostics)
    ensures
        diagnostics == no_tint(level, failed),
{
    let (query_error, bg_source) = if failed {
        (Some("query_background_color failed"), BackgroundSource::Failed)
    } else {
        (None, BackgroundSource::Unavailable)
    };
    TintDiagnostics {
        stdout_color_level: level,
        query_error,
        queried_bg: None,
        bg_source,
        effective_bg: None,
        is_light: None,
        overlay: None,
        alpha: None,
        blended_rgb: None,
        final_color: None,
    }
}

/// What is blended into a background, and how much of it, in hundredths.
pub fn overlay_for(light: bool) -> (overlay: (Rgb, u8))
    ensures
        overlay == overlay_of(light),
{
    if light {
        ((0, 0, 0), LIGHT_BG_ALPHA)
    } else {
        ((255, 255, 255), DARK_BG_ALPHA)
    }
}

/// The tint of a terminal with background `bg`.
pub fn tint_with_background(
    level: StdoutColorLevel,
    bg: Rgb,
    light: bool,
    blended: Rgb,
    color: Option<AnsiColor>,
) -> (diagnostics: TintDiagnostics)
    ensures
        diagnostics == tint(level, bg, light, blended, color),
{
    let (overlay, alpha) = overlay_for(light);
    TintDiagnostics {
        stdout_color_level: level,
        query_error: None,
        queried_bg: Some(bg),
        bg_source: BackgroundSource::Queried,
        effective_bg: Some(bg),
        is_light: Some(light),
        overlay: Some(overlay),
        alpha: Some(alpha),
        blended_rgb: Some(blended),
        final_color: color,
    }
}

/// Whether `diagnostics` is the tint for what a query of the background said,
/// by what the given functions say of its colors.
pub open spec fn is_tint<E, L, B, D>(
    query_result: Result<Option<Rgb>, E>,
    is_light: L,
    blend: B,
    distance: D,
    level: StdoutColorLevel,
    diagnostics: TintDiagnostics,
) -> bool where L: Fn(Rgb) -> bool, B: Fn(Rgb, Rgb, u8) -> Rgb, D: Fn(Rgb, Rgb) -> u32 {
    match query_result {
        Err(_) => diagnostics == no_tint(level, true),
        Ok(None) => diagnostics == no_tint(level, false),
        Ok(Some(bg)) => exists|light: bool, blended: Rgb, color: Option<AnsiColor>| #[trigger]
            call_ensures(is_light, (bg,), light) && #[trigger] call_ensures(
                blend,
                (overlay_of(light).0, bg, overlay_of(light).1),
                blended,
            ) && #[trigger] is_best_color(blended, level, distance, color) && diagnostics == tint(
                level,
                bg,
                light,
                blended,
                color,
            ),
    }
}

/// The tint for what a query of the background said, on the terminal at the
/// standard output.
pub fn tint_diagnostics_for<E, L, B, D>(
    query_result: Result<Option<Rgb>, E>,
    is_light: &L,
    blend: &B,
    distance: &D,
) -> (diagnostics: TintDiagnostics) where
    L: Fn(Rgb) -> bool,
    B: Fn(Rgb, Rgb, u8) -> Rgb,
    D: Fn(Rgb, Rgb) -> u32,

    requires
        forall|a: Rgb| #[trigger] call_requires(*is_light, (a,)),
        forall|a: Rgb, b: Rgb, alpha: u8| #[trigger] call_requires(*blend, (a, b, alpha)),
        forall|a: Rgb, b: Rgb| #[trigger] call_requires(*distance, (a, b)),
    ensures
        is_tint(
            query_result,
            *is_light,
            *blend,
            *distance,
            diagnostics.stdout_color_level,
            diagnostics,
        ),
{
    let level = stdout_color_level();
    match query_result {
        Err(_) => tint_without_background(level, true),
        Ok(None) => tint_without_background(level, false),
        Ok(Some(bg)) => {
            let light = (is_light)(bg);
            let (overlay, alpha) = overlay_for(light);
            let blended = (blend)(overlay, bg, alpha);
            let color = best_color_for(blended, level, distance);
            tint_with_background(level, bg, light, blended, color)
        },
    }
}

/// The color of a tint.
pub fn user_message_bg(diagnostics: &TintDiagnostics) -> (color: Option<AnsiColor>)
    ensures
        color == diagnostics.final_color,
{
    diagnostics.final_color
}

/// The color of the tint for what a query of the background said.
pub fn user_message_bg_for<E, L, B, D>(
    query_result: Result<Option<Rgb>, E>,
    is_light: &L,
    blend: &B,
    distance: &D,
) -> (color: Option<AnsiColor>) where
    L: Fn(Rgb) -> bool,
    B: Fn(Rgb, Rgb, u8) -> Rgb,
    D: Fn(Rgb, Rgb) -> u32,

    requires
        forall|a: Rgb| #[trigger] call_requires(*is_light, (a,)),
        forall|a: Rgb, b: Rgb, alpha: u8| #[trigger] call_requires(*blend, (a, b, alpha)),
        forall|a: Rgb, b: Rgb| #[trigger] call_requires(*distance, (a, b)),
    ensures
        exists|diagnostics: TintDiagnostics| #[trigger]
            is_tint(
                query_result,
                *is_light,
                *blend,
                *distance,
                diagnostics.stdout_color_level,
                diagnostics,
            ) && color == diagnostics.final_color,
{
    let diagnostics = tint_diagnostics_for(query_result, is_light, blend, distance);
    user_message_bg(&diagnostics)
}

// ---------------------------------------------------------------------------
// Laws
// ---------------------------------------------------------------------------

/// A terminal whose background is not known gets no tint, and neither does one
/// with no more than the basic colors.
pub proof fn lemma_no_tint(level: StdoutColorLevel, failed: bool, target: Rgb, nearest: Option<u8>)
    ensures
        no_tint(level, failed).final_color is None,
        level is Ansi16 || level is Unknown ==> shown_color(target, level, nearest) is None,
{
}

/// The colors that all terminals with 256 colors have alike have numbers from
/// 16 on, each its own, and none of them is one of the basic colors.
pub proof fn lemma_xterm_numbers(i: int, j: int)
    requires
        0 <= i < j < XTERM_COLOR_COUNT,
    ensures
        16 <= ((16 + i) as u8) < ((16 + j) as u8),
{
}

} // verus!
