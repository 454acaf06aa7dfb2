// SPDX-License-Identifier: GPL-3.0-only

//! Typed errors returned by slice sanitization.

use vstd::prelude::*;

verus! {

/// Errors produced when normalizing a [`crate::slice::Slice`].
#[derive(Debug, Clone, PartialEq, Eq, Structural)]
pub enum SliceError {
    StepZero,
    NegativeStartOutOfBounds { start: isize, extent: usize },
    StartOutOfBounds { start: isize, extent: usize },
    BackwardStartOutOfBounds { start: isize, extent: usize },
    PositiveSliceOverflowsExtent { count: usize, start: isize, step: isize, extent: usize },
    ReversedSliceUnderflowsZero { count: usize, start: isize, step: isize },
}

} // verus!
