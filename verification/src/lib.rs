//! Cache of shaped text and broken lines for a paragraph layout.
//!
//! Redrawing a text element whose text did not change still pays for shaping
//! and line breaking unless the results are kept. [`TextLayoutCache`] keeps
//! them for the paragraphs laid out most recently, so that a call with the
//! same inputs is served instead of recomputed.
//!
//! Entries are keyed by the item that drew them (`None` for text drawn without
//! an item) and by every input that changes the layout: the string bytes, the
//! font identity, the paragraph geometry, and the alignment, wrap, overflow,
//! line-limit and single-line options. The brush is recorded with each entry
//! but is not part of the key: it changes nothing about the layout, and the
//! recorded value tells a text change from a color change.
//!
//! The number of slots is fixed, so the cache stays bounded in memory.
//!
//! - [`paragraph`]: the inputs of a layout.
//! - [`key`]: what two lookups must agree on to share a layout.
//! - [`brush`]: comparing the brushes of two entries.
//! - [`model`]: the cache as a mathematical object and its transitions.
//! - [`cache`]: the executable cache.
//! - [`laws`]: what holds of the cache as a whole.
//! - [`inputs`]: what each operation owes its inputs, field by field.
pub mod brush;
pub mod cache;
pub mod inputs;
pub mod key;
pub mod laws;
pub mod model;
pub mod paragraph;

pub use cache::TextLayoutCache;
pub use key::CacheKey;
pub use paragraph::{
    PhysicalLength, PhysicalRect, TextHorizontalAlignment, TextLayout, TextOverflow,
    TextParagraphLayout, TextVerticalAlignment, TextWrap,
};
