//! The inputs of a paragraph layout, as plain values.
use vstd::prelude::*;

verus! {

/// A length in physical pixels.
#[derive(Clone, Copy, Debug, PartialEq, Eq, Structural)]
pub struct PhysicalLength(pub i16);

/// An axis-aligned rectangle in physical pixels.
#[derive(Clone, Copy, Debug, PartialEq, Eq, Structural)]
pub struct PhysicalRect {
    pub x: i16,
    pub y: i16,
    pub width: i16,
    pub height: i16,
}

/// How the lines of a paragraph are aligned along the horizontal axis.
#[derive(Clone, Copy, Debug, PartialEq, Eq, Structural)]
pub enum TextHorizontalAlignment {
    Start,
    End,
    Left,
    Center,
    Right,
}

/// How the lines of a paragraph are aligned along the vertical axis.
#[derive(Clone, Copy, Debug, PartialEq, Eq, Structural)]
pub enum TextVerticalAlignment {
    Top,
    Center,
    Bottom,
}

/// Where a line that is too wide may be broken.
#[derive(Clone, Copy, Debug, PartialEq, Eq, Structural)]
pub enum TextWrap {
    NoWrap,
    WordWrap,
    CharWrap,
}

/// What becomes of text that does not fit its box.
#[derive(Clone, Copy, Debug, PartialEq, Eq, Structural)]
pub enum TextOverflow {
    Clip,
    Elide,
}

/// The metrics that apply to a whole layout besides the font itself.
#[derive(Clone, Copy, Debug)]
pub struct TextLayout {
    pub letter_spacing: Option<PhysicalLength>,
    /// The absolute line height, or `None` for the natural height of the font.
    pub line_height: Option<PhysicalLength>,
}

/// A paragraph to lay out: its text, its box and its options. The font is
/// identified separately, by the bytes of its identity.
#[derive(Clone, Copy, Debug)]
pub struct TextParagraphLayout<'a> {
    pub string: &'a str,
    pub layout: TextLayout,
    pub max_width: PhysicalLength,
    pub max_height: PhysicalLength,
    pub horizontal_alignment: TextHorizontalAlignment,
    pub vertical_alignment: TextVerticalAlignment,
    pub wrap: TextWrap,
    pub overflow: TextOverflow,
    pub single_line: bool,
    pub max_lines: Option<usize>,
}

} // verus!
