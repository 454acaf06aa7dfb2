// SPDX-License-Identifier: GPL-3.0-only

//! Mathematical model of strided layouts and of what each layout operation computes.

use crate::dynamic_subscript::DynamicSubscript;
use crate::slice::{fits_isize, sanitize_slice_spec, wrapped_isize, Slice};
use crate::strided_layout_error::StridedLayoutError;
use vstd::prelude::*;

verus! {

/// Mathematical view of a [`crate::StridedLayout`]: one extent and one stride per axis, and the
/// offset of the first element.
pub struct LayoutView {
    pub extents: Seq<usize>,
    pub strides: Seq<isize>,
    pub offset: isize,
}

impl LayoutView {
    /// Every axis has both an extent and a stride.
    pub open spec fn wf(self) -> bool {
        self.extents.len() == self.strides.len()
    }

    /// Number of axes.
    pub open spec fn rank(self) -> nat {
        self.extents.len()
    }
}

/// The layout without axes and with offset zero.
pub open spec fn empty_layout() -> LayoutView {
    LayoutView { extents: Seq::empty(), strides: Seq::empty(), offset: 0 }
}

/// `a * b`, clamped to the range of `isize`.
pub open spec fn saturating_mul_spec(a: int, b: int) -> int {
    if a * b > isize::MAX {
        isize::MAX as int
    } else if a * b < isize::MIN {
        isize::MIN as int
    } else {
        a * b
    }
}

/// Product of the extents from axis `i` to the last, each taken as an `isize` (see
/// [`wrapped_isize`]) and each partial product (from the last axis backwards) clamped to the
/// range of `isize`; where every extent fits an `isize` this is the exact product capped at
/// `isize::MAX` (see `lemma_saturated_suffix_product_is_capped_product`).
pub open spec fn saturated_suffix_product(extents: Seq<usize>, i: int) -> int
    decreases extents.len() - i,
{
    if i >= extents.len() {
        1
    } else {
        saturating_mul_spec(saturated_suffix_product(extents, i + 1), wrapped_isize(extents[i]))
    }
}

/// Product of the extents from axis `i` to the last, exactly.
pub open spec fn suffix_product(extents: Seq<usize>, i: int) -> int
    decreases extents.len() - i,
{
    if i >= extents.len() {
        1
    } else {
        extents[i] * suffix_product(extents, i + 1)
    }
}

/// Row-major strides: the stride of each axis is the saturated product of the extents after
/// it.
pub open spec fn contiguous_strides(extents: Seq<usize>) -> Seq<isize> {
    Seq::new(extents.len(), |i: int| saturated_suffix_product(extents, i + 1) as isize)
}

/// The contiguous row-major layout of the given extents, at offset zero.
pub open spec fn contiguous_layout(extents: Seq<usize>) -> LayoutView {
    LayoutView { extents, strides: contiguous_strides(extents), offset: 0 }
}

/// Product of a sequence of extents (`1` for no extents).
pub open spec fn extents_product(extents: Seq<usize>) -> int
    decreases extents.len(),
{
    if extents.len() == 0 {
        1
    } else {
        extents_product(extents.drop_last()) * extents.last()
    }
}

/// Number of elements of a layout: the product of its extents, or `0` without axes.
pub open spec fn element_count_spec(extents: Seq<usize>) -> int {
    if extents.len() == 0 {
        0
    } else {
        extents_product(extents)
    }
}

/// Whether every running product of the extents, taken from the first axis on, fits a `usize`.
pub open spec fn element_count_fits(extents: Seq<usize>) -> bool {
    forall|k: int| 0 <= k <= extents.len() ==> #[trigger] extents_product(extents.take(k)) <= usize::MAX
}

/// Sum over the axes with a positive stride of `(extent - 1) * stride`: the distance from the
/// first element to the farthest one along increasing addresses.
pub open spec fn positive_stride_span(extents: Seq<usize>, strides: Seq<isize>) -> int
    decreases extents.len(),
{
    if extents.len() == 0 {
        0
    } else {
        let rest = positive_stride_span(extents.drop_last(), strides.drop_last());
        let s = strides[extents.len() - 1];
        if s > 0 {
            rest + (extents.last() - 1) * s
        } else {
            rest
        }
    }
}

/// Number of values of a `usize`.
pub open spec fn usize_modulus() -> int {
    usize::MAX + 1
}

/// An integer reduced to a `usize` modulo `2^BITS` (what wrapping arithmetic computes).
pub open spec fn wrap_usize(x: int) -> usize {
    (x % usize_modulus()) as usize
}

/// Storage span of a layout: `0` if an axis is empty, otherwise the offset plus the span of
/// the positive strides plus one, in wrapping `usize` arithmetic.
pub open spec fn storage_requirement_spec(l: LayoutView) -> usize {
    if exists|i: int| 0 <= i < l.extents.len() && l.extents[i] == 0 {
        0
    } else {
        wrap_usize(l.offset + positive_stride_span(l.extents, l.strides) + 1)
    }
}

/// Two layouts are equal when they have the same offset and extents, and the same strides on
/// every axis whose extent is not one (the stride of such an axis is never used).
pub open spec fn layouts_equal(a: LayoutView, b: LayoutView) -> bool {
    &&& a.offset == b.offset
    &&& a.extents.len() == b.extents.len()
    &&& forall|i: int|
        0 <= i < a.extents.len() ==> #[trigger] a.extents[i] == b.extents[i] && (a.extents[i] != 1
            ==> a.strides[i] == b.strides[i])
}

/// The stride that takes part in hashing: zero on axes of extent one.
pub open spec fn canonical_stride(extent: usize, stride: isize) -> isize {
    if extent == 1 {
        0
    } else {
        stride
    }
}


/// The layout with its axes in reverse order.
pub open spec fn transpose_spec(l: LayoutView) -> LayoutView {
    LayoutView { extents: l.extents.reverse(), strides: l.strides.reverse(), offset: l.offset }
}

/// The first axis in `from..count` that `order` does not list, if any.
pub open spec fn first_missing_axis(order: Seq<usize>, count: int, from: int) -> Option<int>
    decreases count - from,
{
    if from >= count {
        None
    } else if !order.contains(from as usize) {
        Some(from)
    } else {
        first_missing_axis(order, count, from + 1)
    }
}

/// The layout whose axis `k` is axis `order[k]` of `l`, when `order` lists every axis of `l`
/// exactly once.
pub open spec fn permute_spec(l: LayoutView, order: Seq<usize>) -> Result<LayoutView, StridedLayoutError> {
    if order.len() != l.rank() {
        Err(StridedLayoutError::InvalidAxisPermutationLength)
    } else {
        match first_missing_axis(order, l.rank() as int, 0) {
            Some(k) => Err(StridedLayoutError::MissingAxisInPermutation { index: k as usize }),
            None => Ok(
                LayoutView {
                    extents: Seq::new(order.len(), |k: int| l.extents[order[k] as int]),
                    strides: Seq::new(order.len(), |k: int| l.strides[order[k] as int]),
                    offset: l.offset,
                },
            ),
        }
    }
}

/// The position that an axis index designates among `extent` positions: a non-negative index
/// counts from the start, a negative one from the end. The extent takes part as an `isize`
/// (see [`wrapped_isize`]), so an extent above `isize::MAX` accepts no index.
pub open spec fn normalize_axis_spec(index: isize, extent: usize) -> Result<int, StridedLayoutError> {
    let e = wrapped_isize(extent);
    if index < 0 {
        if index < -e {
            Err(StridedLayoutError::ReverseIndexOutOfBounds { index, extent })
        } else {
            Ok(index + e)
        }
    } else if index >= e {
        Err(StridedLayoutError::IndexOutOfBounds { index, extent })
    } else {
        Ok(index as int)
    }
}

/// The layout with axes `axis1` and `axis2` exchanged.
pub open spec fn matrix_transpose_spec(l: LayoutView, axis1: isize, axis2: isize) -> Result<
    LayoutView,
    StridedLayoutError,
> {
    match normalize_axis_spec(axis1, l.rank() as usize) {
        Err(e) => Err(e),
        Ok(i1) => match normalize_axis_spec(axis2, l.rank() as usize) {
            Err(e) => Err(e),
            Ok(i2) => Ok(
                LayoutView {
                    extents: l.extents.update(i1, l.extents[i2]).update(i2, l.extents[i1]),
                    strides: l.strides.update(i1, l.strides[i2]).update(i2, l.strides[i1]),
                    offset: l.offset,
                },
            ),
        },
    }
}

/// The entries of `s.take(n)` except those at positions `lo` and `hi`, in order.
pub open spec fn without_two<T>(s: Seq<T>, lo: int, hi: int, n: int) -> Seq<T>
    decreases n,
{
    if n <= 0 {
        Seq::empty()
    } else {
        let rest = without_two(s, lo, hi, n - 1);
        if n - 1 == lo || n - 1 == hi {
            rest
        } else {
            rest.push(s[n - 1])
        }
    }
}

/// The diagonal of axes `axis1` and `axis2`: both axes are removed and a last axis is appended
/// whose extent is the smaller of theirs and whose stride is the sum of theirs. Two indices
/// that designate the same axis are an error.
pub open spec fn matrix_diagonal_spec(l: LayoutView, axis1: isize, axis2: isize) -> Result<
    LayoutView,
    StridedLayoutError,
> {
    match normalize_axis_spec(axis1, l.rank() as usize) {
        Err(e) => Err(e),
        Ok(i1) => match normalize_axis_spec(axis2, l.rank() as usize) {
            Err(e) => Err(e),
            Ok(i2) => if i1 == i2 {
                Err(StridedLayoutError::AxesMustDiffer { axis1, axis2 })
            } else {
                let lo = if i1 <= i2 { i1 } else { i2 };
                let hi = if i1 <= i2 { i2 } else { i1 };
                let diag_extent = if l.extents[lo] <= l.extents[hi] {
                    l.extents[lo]
                } else {
                    l.extents[hi]
                };
                Ok(
                    LayoutView {
                        extents: without_two(l.extents, lo, hi, l.rank() as int).push(diag_extent),
                        strides: without_two(l.strides, lo, hi, l.rank() as int).push(
                            (l.strides[lo] + l.strides[hi]) as isize,
                        ),
                        offset: l.offset,
                    },
                )
            },
        },
    }
}

/// Whether the stride of the diagonal that `matrix_diagonal` would build is representable.
pub open spec fn matrix_diagonal_fits(l: LayoutView, axis1: isize, axis2: isize) -> bool {
    match (normalize_axis_spec(axis1, l.rank() as usize), normalize_axis_spec(axis2, l.rank() as usize)) {
        (Ok(i1), Ok(i2)) => i1 != i2 ==> fits_isize(l.strides[i1] + l.strides[i2]),
        _ => true,
    }
}

/// The extents and strides of the axes whose extent is not one, in order.
pub open spec fn squeeze_axes(extents: Seq<usize>, strides: Seq<isize>) -> (Seq<usize>, Seq<isize>)
    decreases extents.len(),
{
    if extents.len() == 0 {
        (Seq::empty(), Seq::empty())
    } else {
        let (e, s) = squeeze_axes(extents.drop_last(), strides.drop_last());
        if extents.last() != 1 {
            (e.push(extents.last()), s.push(strides[extents.len() - 1]))
        } else {
            (e, s)
        }
    }
}

/// The layout without its axes of extent one.
pub open spec fn squeeze_spec(l: LayoutView) -> LayoutView {
    LayoutView {
        extents: squeeze_axes(l.extents, l.strides).0,
        strides: squeeze_axes(l.extents, l.strides).1,
        offset: l.offset,
    }
}


/// Number of leading axes a layout of rank `rank` gains when broadcast to `target_rank` axes.
pub open spec fn broadcast_padding(rank: nat, target_rank: nat) -> int {
    target_rank - rank
}

/// Extents of the layout once left-padded with the leading target extents up to the target
/// rank.
pub open spec fn padded_extents(l: LayoutView, target: Seq<usize>) -> Seq<usize> {
    target.take(broadcast_padding(l.rank(), target.len())) + l.extents
}

/// Strides of the layout once left-padded with zero strides up to the target rank.
pub open spec fn padded_strides(l: LayoutView, target: Seq<usize>) -> Seq<isize> {
    Seq::new(broadcast_padding(l.rank(), target.len()) as nat, |i: int| 0isize) + l.strides
}

/// The first axis from `from` on whose extent neither equals the target extent nor is one.
pub open spec fn first_unbroadcastable_axis(extents: Seq<usize>, target: Seq<usize>, from: int) -> Option<
    int,
>
    decreases target.len() - from,
{
    if from >= target.len() {
        None
    } else if extents[from] != target[from] && extents[from] != 1 {
        Some(from)
    } else {
        first_unbroadcastable_axis(extents, target, from + 1)
    }
}

/// The layout broadcast to `target` extents: missing leading axes are added, and every axis of
/// extent one whose target extent differs is stretched; the added and stretched axes get
/// stride zero.
pub open spec fn broadcast_to_spec(l: LayoutView, target: Seq<usize>) -> Result<
    LayoutView,
    StridedLayoutError,
> {
    if l.rank() > target.len() {
        Err(
            StridedLayoutError::BroadcastRankMismatch {
                rank: l.rank() as usize,
                target_rank: target.len() as usize,
            },
        )
    } else {
        let pe = padded_extents(l, target);
        let ps = padded_strides(l, target);
        match first_unbroadcastable_axis(pe, target, 0) {
            Some(i) => Err(
                StridedLayoutError::AxisNotBroadcastable {
                    axis_extent: pe[i],
                    target_extent: target[i],
                },
            ),
            None => Ok(
                LayoutView {
                    extents: target,
                    strides: Seq::new(
                        target.len(),
                        |i: int|
                            if pe[i] == target[i] {
                                ps[i]
                            } else {
                                0isize
                            },
                    ),
                    offset: l.offset,
                },
            ),
        }
    }
}

/// Progress of applying subscripts to a layout: the running offset, the axes not yet consumed
/// (`left_axis..right_axis`), and the output axes produced so far from the front (in order) and
/// from the back (in reverse order).
pub struct SubscriptProgress {
    pub offset: isize,
    pub left_axis: int,
    pub right_axis: int,
    pub left_extents: Seq<usize>,
    pub left_strides: Seq<isize>,
    pub right_extents: Seq<usize>,
    pub right_strides: Seq<isize>,
}

/// Progress before any subscript is applied.
pub open spec fn initial_progress(l: LayoutView) -> SubscriptProgress {
    SubscriptProgress {
        offset: l.offset,
        left_axis: 0,
        right_axis: l.rank() as int,
        left_extents: Seq::empty(),
        left_strides: Seq::empty(),
        right_extents: Seq::empty(),
        right_strides: Seq::empty(),
    }
}

/// The consumed axes lie within the layout and each output axis has an extent and a stride.
pub open spec fn progress_wf(l: LayoutView, p: SubscriptProgress) -> bool {
    &&& 0 <= p.left_axis <= p.right_axis <= l.rank()
    &&& p.left_extents.len() == p.left_strides.len()
    &&& p.right_extents.len() == p.right_strides.len()
}

/// The offset after fixing axis `axis` at `index` (negative indices count from the end).
pub open spec fn index_offset_spec(l: LayoutView, axis: int, index: isize, offset: isize) -> Result<
    isize,
    StridedLayoutError,
> {
    match normalize_axis_spec(index, l.extents[axis]) {
        Err(e) => Err(e),
        Ok(k) => Ok((offset + l.strides[axis] * k) as isize),
    }
}

/// Whether the offset after fixing axis `axis` at `index` is representable as an `isize`.
pub open spec fn index_offset_fits(l: LayoutView, axis: int, index: isize, offset: isize) -> bool {
    normalize_axis_spec(index, l.extents[axis]) matches Ok(k) ==> fits_isize(
        offset + l.strides[axis] * k,
    )
}

/// The offset, extent and stride after slicing axis `axis`.
pub open spec fn slice_axis_spec(l: LayoutView, axis: int, slice: Slice, offset: isize) -> Result<
    (isize, usize, isize),
    StridedLayoutError,
> {
    match sanitize_slice_spec(slice@, l.extents[axis]) {
        Err(e) => Err(StridedLayoutError::InvalidSlice(e)),
        Ok(v) => Ok(
            (
                (offset + l.strides[axis] * v.start) as isize,
                v.count,
                (l.strides[axis] * v.step) as isize,
            ),
        ),
    }
}

/// Whether the offset and the stride after slicing axis `axis` are representable as `isize`.
pub open spec fn slice_axis_fits(l: LayoutView, axis: int, slice: Slice, offset: isize) -> bool {
    sanitize_slice_spec(slice@, l.extents[axis]) matches Ok(v) ==> {
        &&& fits_isize(offset + l.strides[axis] * v.start)
        &&& fits_isize(l.strides[axis] * v.step)
    }
}

/// Applies one subscript placed before the ellipsis, consuming the first remaining axis.
pub open spec fn forward_step_spec(l: LayoutView, p: SubscriptProgress, sub: DynamicSubscript) -> Result<
    SubscriptProgress,
    StridedLayoutError,
> {
    match sub {
        DynamicSubscript::Ellipsis => Ok(p),
        DynamicSubscript::NewAxis => Ok(
            SubscriptProgress {
                left_extents: p.left_extents.push(1),
                left_strides: p.left_strides.push(0),
                ..p
            },
        ),
        DynamicSubscript::Index(index) => if p.left_axis == p.right_axis {
            Err(StridedLayoutError::NoMoreAxesForIndex)
        } else {
            match index_offset_spec(l, p.left_axis, index, p.offset) {
                Err(e) => Err(e),
                Ok(offset) => Ok(SubscriptProgress { offset, left_axis: p.left_axis + 1, ..p }),
            }
        },
        DynamicSubscript::Slice(slice) => if p.left_axis == p.right_axis {
            Err(StridedLayoutError::NoMoreAxesForSlice)
        } else {
            match slice_axis_spec(l, p.left_axis, slice, p.offset) {
                Err(e) => Err(e),
                Ok((offset, extent, stride)) => Ok(
                    SubscriptProgress {
                        offset,
                        left_axis: p.left_axis + 1,
                        left_extents: p.left_extents.push(extent),
                        left_strides: p.left_strides.push(stride),
                        ..p
                    },
                ),
            }
        },
    }
}

/// Whether applying one subscript before the ellipsis keeps `isize` quantities representable.
pub open spec fn forward_step_fits(l: LayoutView, p: SubscriptProgress, sub: DynamicSubscript) -> bool {
    match sub {
        DynamicSubscript::Index(index) => p.left_axis != p.right_axis ==> index_offset_fits(
            l,
            p.left_axis,
            index,
            p.offset,
        ),
        DynamicSubscript::Slice(slice) => p.left_axis != p.right_axis ==> slice_axis_fits(
            l,
            p.left_axis,
            slice,
            p.offset,
        ),
        _ => true,
    }
}

/// Applies one subscript placed after the ellipsis, consuming the last remaining axis.
pub open spec fn backward_step_spec(l: LayoutView, p: SubscriptProgress, sub: DynamicSubscript) -> Result<
    SubscriptProgress,
    StridedLayoutError,
> {
    match sub {
        DynamicSubscript::Ellipsis => Err(StridedLayoutError::MultipleEllipsis),
        DynamicSubscript::NewAxis => Ok(
            SubscriptProgress {
                right_extents: p.right_extents.push(1),
                right_strides: p.right_strides.push(0),
                ..p
            },
        ),
        DynamicSubscript::Index(index) => if p.left_axis == p.right_axis {
            Err(StridedLayoutError::NoMoreAxesForIndex)
        } else {
            match index_offset_spec(l, p.right_axis - 1, index, p.offset) {
                Err(e) => Err(e),
                Ok(offset) => Ok(SubscriptProgress { offset, right_axis: p.right_axis - 1, ..p }),
            }
        },
        DynamicSubscript::Slice(slice) => if p.left_axis == p.right_axis {
            Err(StridedLayoutError::NoMoreAxesForSlice)
        } else {
            match slice_axis_spec(l, p.right_axis - 1, slice, p.offset) {
                Err(e) => Err(e),
                Ok((offset, extent, stride)) => Ok(
                    SubscriptProgress {
                        offset,
                        right_axis: p.right_axis - 1,
                        right_extents: p.right_extents.push(extent),
                        right_strides: p.right_strides.push(stride),
                        ..p
                    },
                ),
            }
        },
    }
}

/// Whether applying one subscript after the ellipsis keeps `isize` quantities representable.
pub open spec fn backward_step_fits(l: LayoutView, p: SubscriptProgress, sub: DynamicSubscript) -> bool {
    match sub {
        DynamicSubscript::Index(index) => p.left_axis != p.right_axis ==> index_offset_fits(
            l,
            p.right_axis - 1,
            index,
            p.offset,
        ),
        DynamicSubscript::Slice(slice) => p.left_axis != p.right_axis ==> slice_axis_fits(
            l,
            p.right_axis - 1,
            slice,
            p.offset,
        ),
        _ => true,
    }
}

/// Applies subscripts before the ellipsis from first to last, stopping at the first error.
pub open spec fn forward_fold(l: LayoutView, p: SubscriptProgress, subs: Seq<DynamicSubscript>) -> Result<
    SubscriptProgress,
    StridedLayoutError,
>
    decreases subs.len(),
{
    if subs.len() == 0 {
        Ok(p)
    } else {
        match forward_step_spec(l, p, subs[0]) {
            Err(e) => Err(e),
            Ok(q) => forward_fold(l, q, subs.drop_first()),
        }
    }
}

/// Whether every step of [`forward_fold`] that runs keeps `isize` quantities representable.
pub open spec fn forward_fits(l: LayoutView, p: SubscriptProgress, subs: Seq<DynamicSubscript>) -> bool
    decreases subs.len(),
{
    subs.len() == 0 || (forward_step_fits(l, p, subs[0]) && match forward_step_spec(l, p, subs[0]) {
        Err(_) => true,
        Ok(q) => forward_fits(l, q, subs.drop_first()),
    })
}

/// Applies subscripts after the ellipsis from last to first, stopping at the first error.
pub open spec fn backward_fold(l: LayoutView, p: SubscriptProgress, subs: Seq<DynamicSubscript>) -> Result<
    SubscriptProgress,
    StridedLayoutError,
>
    decreases subs.len(),
{
    if subs.len() == 0 {
        Ok(p)
    } else {
        match backward_step_spec(l, p, subs.last()) {
            Err(e) => Err(e),
            Ok(q) => backward_fold(l, q, subs.drop_last()),
        }
    }
}

/// Whether every step of [`backward_fold`] that runs keeps `isize` quantities representable.
pub open spec fn backward_fits(l: LayoutView, p: SubscriptProgress, subs: Seq<DynamicSubscript>) -> bool
    decreases subs.len(),
{
    subs.len() == 0 || (backward_step_fits(l, p, subs.last()) && match backward_step_spec(
        l,
        p,
        subs.last(),
    ) {
        Err(_) => true,
        Ok(q) => backward_fits(l, q, subs.drop_last()),
    })
}

/// The output layout once subscripts are applied: the front outputs, then the axes that no
/// subscript consumed, then the back outputs.
pub open spec fn assemble_spec(l: LayoutView, p: SubscriptProgress) -> LayoutView {
    LayoutView {
        extents: p.left_extents + l.extents.subrange(p.left_axis, p.right_axis)
            + p.right_extents.reverse(),
        strides: p.left_strides + l.strides.subrange(p.left_axis, p.right_axis)
            + p.right_strides.reverse(),
        offset: p.offset,
    }
}

/// Whether two subscripts of the sequence are ellipses.
pub open spec fn has_repeated_ellipsis(subs: Seq<DynamicSubscript>) -> bool {
    exists|i: int, j: int|
        0 <= i < j < subs.len() && #[trigger] subs[i] is Ellipsis && #[trigger] subs[j] is Ellipsis
}

/// Position of an ellipsis among the subscripts, if there is one.
pub open spec fn ellipsis_position(subs: Seq<DynamicSubscript>) -> Option<int> {
    if exists|i: int| 0 <= i < subs.len() && #[trigger] subs[i] is Ellipsis {
        Some(choose|i: int| 0 <= i < subs.len() && #[trigger] subs[i] is Ellipsis)
    } else {
        None
    }
}

/// Subscripts before the ellipsis (all of them without one).
pub open spec fn leading_subscripts(subs: Seq<DynamicSubscript>) -> Seq<DynamicSubscript> {
    match ellipsis_position(subs) {
        Some(i) => subs.take(i),
        None => subs,
    }
}

/// Subscripts after the ellipsis (none without one).
pub open spec fn trailing_subscripts(subs: Seq<DynamicSubscript>) -> Seq<DynamicSubscript> {
    match ellipsis_position(subs) {
        Some(i) => subs.skip(i + 1),
        None => Seq::empty(),
    }
}

/// The layout viewed through a sequence of subscripts.
///
/// Subscripts before the ellipsis consume axes from the front, those after it from the back
/// (last subscript first); axes that no subscript consumes are kept in place, as if the
/// ellipsis stood for them. An index fixes its axis and moves the offset; a slice keeps its
/// axis with the sanitized count as extent and the stride scaled by the slice step; a new axis
/// inserts an axis of extent one and stride zero. Two ellipses, an index or slice with no axis
/// left, an out-of-range index and an invalid slice are errors, the first one met winning.
pub open spec fn apply_subscripts_spec(l: LayoutView, subs: Seq<DynamicSubscript>) -> Result<
    LayoutView,
    StridedLayoutError,
> {
    if subs.len() == 0 {
        Ok(l)
    } else if has_repeated_ellipsis(subs) {
        Err(StridedLayoutError::MultipleEllipsis)
    } else {
        match forward_fold(l, initial_progress(l), leading_subscripts(subs)) {
            Err(e) => Err(e),
            Ok(p) => match backward_fold(l, p, trailing_subscripts(subs)) {
                Err(e) => Err(e),
                Ok(q) => Ok(assemble_spec(l, q)),
            },
        }
    }
}

/// Whether every offset and stride that applying the subscripts computes is representable as
/// an `isize`.
pub open spec fn apply_subscripts_fits(l: LayoutView, subs: Seq<DynamicSubscript>) -> bool {
    subs.len() == 0 || has_repeated_ellipsis(subs) || {
        &&& forward_fits(l, initial_progress(l), leading_subscripts(subs))
        &&& forward_fold(l, initial_progress(l), leading_subscripts(subs)) matches Ok(p)
            ==> backward_fits(l, p, trailing_subscripts(subs))
    }
}

/// When every extent from `from` on equals its target, no axis from there on is
/// unbroadcastable.
pub proof fn lemma_matching_extents_broadcast(extents: Seq<usize>, from: int)
    requires
        0 <= from,
    ensures
        first_unbroadcastable_axis(extents, extents, from) is None,
    decreases extents.len() - from,
{
    if from < extents.len() {
        lemma_matching_extents_broadcast(extents, from + 1);
    }
}

} // verus!
