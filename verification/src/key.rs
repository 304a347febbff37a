//! The identity of a layout.
use crate::paragraph::{
    PhysicalLength, TextHorizontalAlignment, TextOverflow, TextParagraphLayout,
    TextVerticalAlignment, TextWrap,
};
use vstd::prelude::*;
use vstd::slice::slice_to_vec;

verus! {

/// Everything a lookup must agree on for a stored layout to be reusable.
/// Lengths are compared exactly and there is no hash, so a hit is always
/// identical to recomputing.
pub struct CacheKey {
    /// Bytes of the paragraph text.
    string: Vec<u8>,
    /// Font identity: face, pixel size and variation coordinates.
    font: Vec<u8>,
    letter_spacing: Option<PhysicalLength>,
    line_height: Option<PhysicalLength>,
    max_width: PhysicalLength,
    max_height: PhysicalLength,
    horizontal_alignment: TextHorizontalAlignment,
    vertical_alignment: TextVerticalAlignment,
    wrap: TextWrap,
    overflow: TextOverflow,
    max_lines: Option<usize>,
    single_line: bool,
}

/// The value of a [`CacheKey`].
#[verifier::ext_equal]
pub struct KeyView {
    pub string: Seq<u8>,
    pub font: Seq<u8>,
    pub letter_spacing: Option<PhysicalLength>,
    pub line_height: Option<PhysicalLength>,
    pub max_width: PhysicalLength,
    pub max_height: PhysicalLength,
    pub horizontal_alignment: TextHorizontalAlignment,
    pub vertical_alignment: TextVerticalAlignment,
    pub wrap: TextWrap,
    pub overflow: TextOverflow,
    pub max_lines: Option<usize>,
    pub single_line: bool,
}

impl KeyView {
    /// The key of `paragraph` laid out with the font that `font` identifies.
    pub open spec fn of(font: Seq<u8>, paragraph: TextParagraphLayout<'_>) -> KeyView {
        KeyView {
            string: vstd::utf8::encode_utf8(paragraph.string@),
            font,
            letter_spacing: paragraph.layout.letter_spacing,
            line_height: paragraph.layout.line_height,
            max_width: paragraph.max_width,
            max_height: paragraph.max_height,
            horizontal_alignment: paragraph.horizontal_alignment,
            vertical_alignment: paragraph.vertical_alignment,
            wrap: paragraph.wrap,
            overflow: paragraph.overflow,
            max_lines: paragraph.max_lines,
            single_line: paragraph.single_line,
        }
    }

    /// Whether the two keys agree on everything except the string.
    pub open spec fn matches_except_string(self, other: KeyView) -> bool {
        self == (KeyView { string: self.string, ..other })
    }
}

impl View for CacheKey {
    type V = KeyView;

    closed spec fn view(&self) -> KeyView {
        KeyView {
            string: self.string@,
            font: self.font@,
            letter_spacing: self.letter_spacing,
            line_height: self.line_height,
            max_width: self.max_width,
            max_height: self.max_height,
            horizontal_alignment: self.horizontal_alignment,
            vertical_alignment: self.vertical_alignment,
            wrap: self.wrap,
            overflow: self.overflow,
            max_lines: self.max_lines,
            single_line: self.single_line,
        }
    }
}

/// Whether two byte strings are the same.
fn same_bytes(a: &[u8], b: &[u8]) -> (same: bool)
    ensures
        same == (a@ == b@),
{
    if a.len() != b.len() {
        return false;
    }
    let mut i: usize = 0;
    while i < a.len()
        invariant
            a@.len() == b@.len(),
            i <= a@.len(),
            forall|j: int| 0 <= j < i ==> a@[j] == b@[j],
        decreases a@.len() - i,
    {
        if a[i] != b[i] {
            return false;
        }
        i += 1;
    }
    assert(a@ =~= b@);
    true
}

/// Whether two optional lengths are the same.
fn same_length(a: Option<PhysicalLength>, b: Option<PhysicalLength>) -> (same: bool)
    ensures
        same == (a == b),
{
    match (a, b) {
        (Some(a), Some(b)) => a == b,
        (None, None) => true,
        _ => false,
    }
}

impl CacheKey {
    /// The key under which `paragraph`, set in the font that `font_identity`
    /// identifies, is stored and looked up.
    pub fn new(font_identity: &[u8], paragraph: &TextParagraphLayout<'_>) -> (key: CacheKey)
        ensures
            key@ == KeyView::of(font_identity@, *paragraph),
            key@.string == vstd::utf8::encode_utf8(paragraph.string@),
            key@.font == font_identity@,
    {
        CacheKey {
            string: slice_to_vec(paragraph.string.as_bytes()),
            font: slice_to_vec(font_identity),
            letter_spacing: paragraph.layout.letter_spacing,
            line_height: paragraph.layout.line_height,
            max_width: paragraph.max_width,
            max_height: paragraph.max_height,
            horizontal_alignment: paragraph.horizontal_alignment,
            vertical_alignment: paragraph.vertical_alignment,
            wrap: paragraph.wrap,
            overflow: paragraph.overflow,
            max_lines: paragraph.max_lines,
            single_line: paragraph.single_line,
        }
    }

    /// Whether this key agrees with `other` on everything except the string,
    /// the precondition for diffing the glyph runs of two layouts against each
    /// other: the font, the geometry and the options are what position and
    /// shape the glyphs, and only the text content may differ.
    pub fn matches_except_string(&self, other: &CacheKey) -> (matches: bool)
        ensures
            matches == self@.matches_except_string(other@),
    {
        same_bytes(self.font.as_slice(), other.font.as_slice())
            && same_length(self.letter_spacing, other.letter_spacing)
            && same_length(self.line_height, other.line_height)
            && self.max_width == other.max_width
            && self.max_height == other.max_height
            && self.horizontal_alignment == other.horizontal_alignment
            && self.vertical_alignment == other.vertical_alignment
            && self.wrap == other.wrap
            && self.overflow == other.overflow
            && self.max_lines == other.max_lines
            && self.single_line == other.single_line
    }
}

impl PartialEq for CacheKey {
    fn eq(&self, other: &CacheKey) -> (same: bool) {
        same_bytes(self.string.as_slice(), other.string.as_slice())
            && self.matches_except_string(other)
    }
}

impl vstd::std_specs::cmp::PartialEqSpecImpl for CacheKey {
    open spec fn obeys_eq_spec() -> bool {
        true
    }

    open spec fn eq_spec(&self, other: &CacheKey) -> bool {
        self@ == other@
    }
}

} // verus!
