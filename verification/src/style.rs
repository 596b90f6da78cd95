//! Colors and span styles for the styled-document model.

use vstd::prelude::*;

verus! {

/// A terminal color: a small fixed palette plus 24-bit RGB.
#[derive(Debug, Clone, Copy, PartialEq, Eq, Structural)]
pub enum Color {
    Black,
    Red,
    Green,
    Yellow,
    Blue,
    Magenta,
    Cyan,
    White,
    DarkGray,
    Rgb(u8, u8, u8),
}

/// Style for a span of text: optional foreground and background colors
/// plus three boolean attributes.
#[derive(Debug, Clone, Copy, PartialEq, Eq)]
pub struct SpanStyle {
    pub fg: Option<Color>,
    pub bg: Option<Color>,
    pub bold: bool,
    pub italic: bool,
    pub underline: bool,
}

impl SpanStyle {
    /// The default style: no colors, no attributes.
    pub fn new() -> (r: SpanStyle)
        ensures
            r == SpanStyle::plain_spec(),
    {
        SpanStyle { fg: None, bg: None, bold: false, italic: false, underline: false }
    }

    /// The plain style as a spec-level constant.
    pub open spec fn plain_spec() -> SpanStyle {
        SpanStyle { fg: None, bg: None, bold: false, italic: false, underline: false }
    }

    /// Set the foreground color.
    pub fn fg(self, color: Color) -> (r: SpanStyle)
        ensures
            r == (SpanStyle { fg: Some(color), ..self }),
    {
        SpanStyle { fg: Some(color), ..self }
    }

    /// Set the background color.
    pub fn bg(self, color: Color) -> (r: SpanStyle)
        ensures
            r == (SpanStyle { bg: Some(color), ..self }),
    {
        SpanStyle { bg: Some(color), ..self }
    }

    /// Set the bold attribute.
    pub fn bold(self) -> (r: SpanStyle)
        ensures
            r == (SpanStyle { bold: true, ..self }),
    {
        SpanStyle { bold: true, ..self }
    }

    /// Set the italic attribute.
    pub fn italic(self) -> (r: SpanStyle)
        ensures
            r == (SpanStyle { italic: true, ..self }),
    {
        SpanStyle { italic: true, ..self }
    }

    /// Set the underline attribute.
    pub fn underline(self) -> (r: SpanStyle)
        ensures
            r == (SpanStyle { underline: true, ..self }),
    {
        SpanStyle { underline: true, ..self }
    }

    /// A style is plain iff no color and no attribute is set.
    pub open spec fn is_plain_spec(self) -> bool {
        self.fg is None && self.bg is None && !self.bold && !self.italic && !self.underline
    }

    /// Check whether this is the plain style.
    pub fn is_plain(&self) -> (r: bool)
        ensures
            r == self.is_plain_spec(),
    {
        self.fg.is_none() && self.bg.is_none() && !self.bold && !self.italic && !self.underline
    }

    /// The style merge: the child's colors override the parent's where set,
    /// and the boolean attributes are or-ed together.
    pub open spec fn merge_spec(parent: SpanStyle, child: SpanStyle) -> SpanStyle {
        SpanStyle {
            fg: if child.fg is Some { child.fg } else { parent.fg },
            bg: if child.bg is Some { child.bg } else { parent.bg },
            bold: child.bold || parent.bold,
            italic: child.italic || parent.italic,
            underline: child.underline || parent.underline,
        }
    }

    /// Merge a child style over a parent style.
    pub fn merge(parent: &SpanStyle, child: &SpanStyle) -> (r: SpanStyle)
        ensures
            r == SpanStyle::merge_spec(*parent, *child),
    {
        SpanStyle {
            fg: if child.fg.is_some() { child.fg } else { parent.fg },
            bg: if child.bg.is_some() { child.bg } else { parent.bg },
            bold: child.bold || parent.bold,
            italic: child.italic || parent.italic,
            underline: child.underline || parent.underline,
        }
    }

    /// Structural equality test on styles.
    pub fn same_as(&self, other: &SpanStyle) -> (r: bool)
        ensures
            r == (*self == *other),
    {
        let fg_eq = match (self.fg, other.fg) {
            (None, None) => true,
            (Some(a), Some(b)) => a == b,
            _ => false,
        };
        let bg_eq = match (self.bg, other.bg) {
            (None, None) => true,
            (Some(a), Some(b)) => a == b,
            _ => false,
        };
        fg_eq && bg_eq && self.bold == other.bold && self.italic == other.italic
            && self.underline == other.underline
    }
}

impl Default for SpanStyle {
    /// The default style is the plain style.
    fn default() -> (r: SpanStyle)
        ensures
            r == SpanStyle::plain_spec(),
    {
        SpanStyle::new()
    }
}

} // verus!
