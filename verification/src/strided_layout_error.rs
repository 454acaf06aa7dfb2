// SPDX-License-Identifier: GPL-3.0-only

//! Typed errors returned by strided layout operations.

use crate::slice_error::SliceError;
use vstd::prelude::*;

verus! {

/// Errors produced by [`crate::StridedLayout`] methods.
#[derive(Debug, Clone, PartialEq, Eq, Structural)]
#[allow(inconsistent_fields)]
pub enum StridedLayoutError {
    RankMismatch { expected: usize, actual: usize },
    InvalidAxisPermutationLength,
    MissingAxisInPermutation { index: usize },
    ReverseIndexOutOfBounds { index: isize, extent: usize },
    IndexOutOfBounds { index: isize, extent: usize },
    AxesMustDiffer { axis1: isize, axis2: isize },
    BroadcastRankMismatch { rank: usize, target_rank: usize },
    AxisNotBroadcastable { axis_extent: usize, target_extent: usize },
    MultipleEllipsis,
    NoMoreAxesForIndex,
    NoMoreAxesForSlice,
    InvalidSlice(SliceError),
}

} // verus!
