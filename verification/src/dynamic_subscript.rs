// SPDX-License-Identifier: GPL-3.0-only

//! Dynamic subscript model.

use crate::slice::Slice;
use vstd::prelude::*;

verus! {

/// Runtime subscript representation used by [`crate::StridedLayout::apply_subscripts`].
#[derive(Debug, Clone, PartialEq, Eq, Hash, Structural)]
pub enum DynamicSubscript {
    Ellipsis,
    NewAxis,
    Index(isize),
    Slice(Slice),
}

/// Returns an ellipsis subscript.
pub fn ellipsis() -> (s: DynamicSubscript)
    ensures
        s == DynamicSubscript::Ellipsis,
{
    DynamicSubscript::Ellipsis
}

/// Returns a new-axis subscript.
pub fn new_axis() -> (s: DynamicSubscript)
    ensures
        s == DynamicSubscript::NewAxis,
{
    DynamicSubscript::NewAxis
}

} // verus!
