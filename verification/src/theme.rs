//! Theme selection and the UI palette.

use vstd::prelude::*;

use crate::ingest::lower_of;
use crate::ingest::str_eq;
use crate::ingest::str_to_lowercase;
use crate::style::Color;

verus! {

/// A color theme, light or dark.
#[derive(Debug, Clone, Copy, PartialEq, Eq, Structural)]
pub enum Theme {
    Light,
    Dark,
}

/// Which theme a lowercased name selects.
pub open spec fn theme_name_spec(lower: Seq<char>) -> Option<Theme> {
    if lower == "light"@ {
        Some(Theme::Light)
    } else if lower == "dark"@ {
        Some(Theme::Dark)
    } else {
        None
    }
}

impl Theme {
    /// Parse a theme name, case-insensitively.
    pub fn from_str(s: &str) -> (r: Option<Theme>)
        ensures
            r == theme_name_spec(lower_of(s@)),
    {
        let lower = str_to_lowercase(s);
        if str_eq(lower.as_str(), "light") {
            Some(Theme::Light)
        } else if str_eq(lower.as_str(), "dark") {
            Some(Theme::Dark)
        } else {
            None
        }
    }
}

impl Default for Theme {
    /// The default theme is dark.
    fn default() -> (r: Theme)
        ensures
            r == Theme::Dark,
    {
        Theme::Dark
    }
}

/// Whether a terminal background color counts as light: its relative
/// luminance `0.2126 R + 0.7152 G + 0.0722 B` exceeds half of full scale.
/// Scaled by ten thousand over byte values, the threshold is 1 275 000.
pub open spec fn is_light_background(r: u8, g: u8, b: u8) -> bool {
    2126 * r + 7152 * g + 722 * b > 1275000
}

/// Classify a terminal background color by relative luminance.
pub fn classify_background(r: u8, g: u8, b: u8) -> (t: Theme)
    ensures
        t == if is_light_background(r, g, b) {
            Theme::Light
        } else {
            Theme::Dark
        },
{
    let lum: u64 = 2126 * (r as u64) + 7152 * (g as u64) + 722 * (b as u64);
    if lum > 1275000 {
        Theme::Light
    } else {
        Theme::Dark
    }
}

/// Relies on `terminal_light::background_color`: queries the terminal for
/// its background color. The answer depends on the terminal the process
/// runs in, so nothing is promised of it; a failed query gives `None`.
#[verifier::external_body]
fn terminal_background_rgb() -> Option<(u8, u8, u8)> {
    match terminal_light::background_color() {
        Ok(color) => {
            let rgb = color.rgb();
            Some((rgb.r, rgb.g, rgb.b))
        },
        Err(_) => None,
    }
}

/// Detect the terminal's theme: classify the queried background color by
/// relative luminance, falling back to dark when the query fails. The
/// answer depends on the terminal; only the classification of a successful
/// query is pinned down, by `classify_background`.
pub fn detected_theme() -> Theme {
    match terminal_background_rgb() {
        Some((r, g, b)) => classify_background(r, g, b),
        None => Theme::Dark,
    }
}

/// Pick the theme from an explicit name if one is given and parses;
/// otherwise fall back to terminal detection.
pub fn get_theme(theme_arg: Option<&str>) -> (t: Theme)
    ensures
        theme_arg matches Some(s) ==> (theme_name_spec(lower_of(s@)) is Some ==> Some(t)
            == theme_name_spec(lower_of(s@))),
{
    match theme_arg {
        Some(s) => {
            match Theme::from_str(s) {
                Some(t) => t,
                None => detected_theme(),
            }
        },
        None => detected_theme(),
    }
}

/// The palette the viewer paints its chrome with.
#[derive(Debug, Clone, PartialEq, Eq)]
pub struct ThemeColors {
    /// Line number color.
    pub line_number: Color,
    /// Status bar background.
    pub status_bg: Color,
    /// Status bar foreground.
    pub status_fg: Color,
    /// Search highlight background.
    pub search_bg: Color,
    /// Search highlight foreground.
    pub search_fg: Color,
    /// Match line highlight background.
    pub match_line_bg: Color,
    /// Context line color.
    pub context_fg: Color,
    /// Separator color.
    pub separator: Color,
    /// Error message color.
    pub error: Color,
}

/// The light palette.
pub open spec fn light_colors_spec() -> ThemeColors {
    ThemeColors {
        line_number: Color::DarkGray,
        status_bg: Color::Rgb(200, 200, 200),
        status_fg: Color::Black,
        search_bg: Color::Yellow,
        search_fg: Color::Black,
        match_line_bg: Color::Rgb(255, 255, 200),
        context_fg: Color::DarkGray,
        separator: Color::DarkGray,
        error: Color::Red,
    }
}

/// The dark palette.
pub open spec fn dark_colors_spec() -> ThemeColors {
    ThemeColors {
        line_number: Color::DarkGray,
        status_bg: Color::DarkGray,
        status_fg: Color::White,
        search_bg: Color::Yellow,
        search_fg: Color::Black,
        match_line_bg: Color::Rgb(50, 50, 30),
        context_fg: Color::DarkGray,
        separator: Color::DarkGray,
        error: Color::Red,
    }
}

impl ThemeColors {
    /// The palette for a theme.
    pub fn for_theme(theme: Theme) -> (r: ThemeColors)
        ensures
            r == if theme is Light {
                light_colors_spec()
            } else {
                dark_colors_spec()
            },
    {
        match theme {
            Theme::Light => ThemeColors::light(),
            Theme::Dark => ThemeColors::dark(),
        }
    }

    /// The light palette.
    fn light() -> (r: ThemeColors)
        ensures
            r == light_colors_spec(),
    {
        ThemeColors {
            line_number: Color::DarkGray,
            status_bg: Color::Rgb(200, 200, 200),
            status_fg: Color::Black,
            search_bg: Color::Yellow,
            search_fg: Color::Black,
            match_line_bg: Color::Rgb(255, 255, 200),
            context_fg: Color::DarkGray,
            separator: Color::DarkGray,
            error: Color::Red,
        }
    }

    /// The dark palette.
    fn dark() -> (r: ThemeColors)
        ensures
            r == dark_colors_spec(),
    {
        ThemeColors {
            line_number: Color::DarkGray,
            status_bg: Color::DarkGray,
            status_fg: Color::White,
            search_bg: Color::Yellow,
            search_fg: Color::Black,
            match_line_bg: Color::Rgb(50, 50, 30),
            context_fg: Color::DarkGray,
            separator: Color::DarkGray,
            error: Color::Red,
        }
    }
}

} // verus!
