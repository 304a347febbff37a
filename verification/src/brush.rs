//! The brush recorded with each entry.
use i_slint_core::Brush;
use vstd::prelude::*;
use vstd::std_specs::cmp::PartialEqSpec;

verus! {

/// [`i_slint_core::Brush`], carried as an opaque value.
#[verifier::external_type_specification]
#[verifier::external_body]
pub struct ExBrush(Brush);

/// Compares two brushes with `Brush`'s own `PartialEq::eq`. The answer depends
/// on the two brushes alone, and `eq_spec` is the name for it. When two
/// gradients count as equal is left to `Brush`: for them equality is about what
/// they paint, and is not spelled out here.
#[verifier::external_body]
pub(crate) fn same_brush(a: &Brush, b: &Brush) -> (same: bool)
    ensures
        same == a.eq_spec(b),
{
    a == b
}

} // verus!
