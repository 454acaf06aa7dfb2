// SPDX-License-Identifier: GPL-3.0-only

//! What each layout operation does, stated directly over its inputs and its result.

use crate::dynamic_subscript::DynamicSubscript;
use crate::layout_spec::{
    apply_subscripts_spec, assemble_spec, element_count_spec, extents_product, first_missing_axis,
    permute_spec, positive_stride_span, squeeze_axes, squeeze_spec, storage_requirement_spec, usize_modulus, backward_fold, backward_step_spec, broadcast_to_spec,
    forward_fold, forward_step_spec, initial_progress, SubscriptProgress, ellipsis_position, first_unbroadcastable_axis,
    has_repeated_ellipsis, leading_subscripts, matrix_diagonal_spec, trailing_subscripts, matrix_transpose_spec, padded_extents, padded_strides, without_two,
    LayoutView,
};
use crate::slice::{fits_isize, sanitize_slice_spec, Slice};
use crate::strided_layout_error::StridedLayoutError;
use vstd::prelude::*;

verus! {

/// The axis that `axis` designates among `rank` axes: a negative axis counts from the end.
pub open spec fn axis_position(axis: isize, rank: int) -> int {
    if axis < 0 {
        axis + rank
    } else {
        axis as int
    }
}

/// Whether `axis` designates one of `rank` axes.
pub open spec fn designates_axis(axis: isize, rank: int) -> bool {
    -rank <= axis < rank
}

/// Exchanging two axes puts the extent and stride of each designated axis at the other's
/// place and leaves every other axis and the offset as they were.
pub proof fn lemma_matrix_transpose_exchanges_designated_axes(
    l: LayoutView,
    axis1: isize,
    axis2: isize,
)
    requires
        l.wf(),
        l.rank() <= isize::MAX,
        designates_axis(axis1, l.rank() as int),
        designates_axis(axis2, l.rank() as int),
    ensures
        matrix_transpose_spec(l, axis1, axis2) matches Ok(m) && {
            let p1 = axis_position(axis1, l.rank() as int);
            let p2 = axis_position(axis2, l.rank() as int);
            &&& m.extents.len() == l.extents.len()
            &&& m.strides.len() == l.strides.len()
            &&& m.extents[p1] == l.extents[p2]
            &&& m.extents[p2] == l.extents[p1]
            &&& m.strides[p1] == l.strides[p2]
            &&& m.strides[p2] == l.strides[p1]
            &&& m.offset == l.offset
            &&& forall|k: int|
                0 <= k < l.rank() && k != p1 && k != p2 ==> m.extents[k] == l.extents[k]
                    && m.strides[k] == l.strides[k]
        },
{
}

/// Which axis of the layout ends up at position `k` once the axes `lo < hi` are removed.
pub open spec fn kept_axis(k: int, lo: int, hi: int) -> int {
    if k < lo {
        k
    } else if k + 1 < hi {
        k + 1
    } else {
        k + 2
    }
}

proof fn lemma_without_two_entries<T>(s: Seq<T>, lo: int, hi: int, n: int)
    requires
        0 <= lo < hi < n <= s.len(),
    ensures
        without_two(s, lo, hi, n).len() == n - 2,
        forall|k: int|
            0 <= k < n - 2 ==> #[trigger] without_two(s, lo, hi, n)[k] == s[kept_axis(k, lo, hi)],
    decreases n,
{
    if n - 1 > hi {
        lemma_without_two_entries(s, lo, hi, n - 1);
    } else {
        lemma_without_two_prefix(s, lo, hi, n - 1);
    }
}

proof fn lemma_without_two_prefix<T>(s: Seq<T>, lo: int, hi: int, n: int)
    requires
        0 <= lo < hi,
        n == hi,
        hi <= s.len(),
    ensures
        without_two(s, lo, hi, n).len() == n - 1,
        forall|k: int|
            0 <= k < n - 1 ==> #[trigger] without_two(s, lo, hi, n)[k] == s[kept_axis(k, lo, hi)],
    decreases n,
{
    lemma_without_two_below(s, lo, hi, n - 1);
}

proof fn lemma_without_two_below<T>(s: Seq<T>, lo: int, hi: int, n: int)
    requires
        0 <= lo < hi,
        0 <= n < hi,
        hi <= s.len(),
    ensures
        without_two(s, lo, hi, n).len() == if n > lo {
            n - 1
        } else {
            n
        },
        forall|k: int|
            0 <= k < without_two(s, lo, hi, n).len() ==> #[trigger] without_two(s, lo, hi, n)[k]
                == s[kept_axis(k, lo, hi)],
    decreases n,
{
    if n > 0 {
        lemma_without_two_below(s, lo, hi, n - 1);
    }
}

/// The diagonal of two distinct axes removes both, keeps the other axes in their order, and
/// appends an axis that is as long as the shorter of the two (so that it never leaves either)
/// and whose stride is the sum of theirs. Naming one axis twice is an error.
pub proof fn lemma_matrix_diagonal_of_designated_axes(l: LayoutView, axis1: isize, axis2: isize)
    requires
        l.wf(),
        l.rank() <= isize::MAX,
        designates_axis(axis1, l.rank() as int),
        designates_axis(axis2, l.rank() as int),
    ensures
        ({
            let n = l.rank() as int;
            let p1 = axis_position(axis1, n);
            let p2 = axis_position(axis2, n);
            let lo = if p1 < p2 {
                p1
            } else {
                p2
            };
            let hi = if p1 < p2 {
                p2
            } else {
                p1
            };
            if p1 == p2 {
                matrix_diagonal_spec(l, axis1, axis2) == Err::<LayoutView, StridedLayoutError>(
                    StridedLayoutError::AxesMustDiffer { axis1, axis2 },
                )
            } else {
                matrix_diagonal_spec(l, axis1, axis2) matches Ok(d) && {
                    &&& d.extents.len() == n - 1
                    &&& d.strides.len() == n - 1
                    &&& d.offset == l.offset
                    &&& d.extents[n - 2] <= l.extents[p1]
                    &&& d.extents[n - 2] <= l.extents[p2]
                    &&& (d.extents[n - 2] == l.extents[p1] || d.extents[n - 2] == l.extents[p2])
                    &&& fits_isize(l.strides[p1] + l.strides[p2]) ==> d.strides[n - 2]
                        == l.strides[p1] + l.strides[p2]
                    &&& forall|k: int|
                        0 <= k < n - 2 ==> d.extents[k] == l.extents[kept_axis(k, lo, hi)]
                            && d.strides[k] == l.strides[kept_axis(k, lo, hi)]
                }
            }
        }),
{
    let n = l.rank() as int;
    let p1 = axis_position(axis1, n);
    let p2 = axis_position(axis2, n);
    if p1 != p2 {
        let lo = if p1 < p2 {
            p1
        } else {
            p2
        };
        let hi = if p1 < p2 {
            p2
        } else {
            p1
        };
        lemma_without_two_entries(l.extents, lo, hi, n);
        lemma_without_two_entries(l.strides, lo, hi, n);
    }
}


/// The position that an index designates along an axis of the given extent: a negative index
/// counts from the end.
pub open spec fn index_position(index: isize, extent: int) -> int {
    if index < 0 {
        index + extent
    } else {
        index as int
    }
}

/// Fixing the first axis at an index removes that axis and moves the offset by the axis
/// stride times the designated position (a negative index counts from the end of the axis).
pub proof fn lemma_leading_index_moves_offset(l: LayoutView, index: isize)
    requires
        l.wf(),
        l.rank() >= 1,
        l.extents[0] <= isize::MAX,
        -l.extents[0] <= index < l.extents[0],
        fits_isize(l.offset + l.strides[0] * index_position(index, l.extents[0] as int)),
    ensures
        apply_subscripts_spec(l, seq![DynamicSubscript::Index(index)]) matches Ok(r) && {
            &&& r.extents == l.extents.subrange(1, l.rank() as int)
            &&& r.strides == l.strides.subrange(1, l.rank() as int)
            &&& r.offset == l.offset + l.strides[0] * index_position(index, l.extents[0] as int)
        },
{
    let subs = seq![DynamicSubscript::Index(index)];
    assert(!(subs[0] is Ellipsis));
    assert(!has_repeated_ellipsis(subs));
    assert(leading_subscripts(subs) == subs);
    assert(trailing_subscripts(subs) =~= Seq::<DynamicSubscript>::empty());
    assert(subs.drop_first() =~= Seq::<DynamicSubscript>::empty());
    let p0 = initial_progress(l);
    assert(forward_step_spec(l, p0, subs[0]) is Ok);
    let q = forward_step_spec(l, p0, subs[0])->Ok_0;
    assert(forward_fold(l, q, subs.drop_first()) == Ok::<SubscriptProgress, StridedLayoutError>(q));
    assert(forward_fold(l, p0, subs) == Ok::<SubscriptProgress, StridedLayoutError>(q));
    assert(backward_fold(l, q, Seq::<DynamicSubscript>::empty()) == Ok::<
        SubscriptProgress,
        StridedLayoutError,
    >(q));
    let r = apply_subscripts_spec(l, subs)->Ok_0;
    assert(r == assemble_spec(l, q));
    assert(r.extents =~= l.extents.subrange(1, l.rank() as int));
    assert(r.strides =~= l.strides.subrange(1, l.rank() as int));
}

/// Fixing the last axis at an index (an index after an ellipsis) removes that axis and moves
/// the offset by the axis stride times the designated position.
pub proof fn lemma_trailing_index_moves_offset(l: LayoutView, index: isize)
    requires
        l.wf(),
        l.rank() >= 1,
        l.extents[l.rank() - 1] <= isize::MAX,
        -l.extents[l.rank() - 1] <= index < l.extents[l.rank() - 1],
        fits_isize(
            l.offset + l.strides[l.rank() - 1] * index_position(
                index,
                l.extents[l.rank() - 1] as int,
            ),
        ),
    ensures
        apply_subscripts_spec(l, seq![DynamicSubscript::Ellipsis, DynamicSubscript::Index(index)])
            matches Ok(r) && {
            let last = l.rank() - 1;
            &&& r.extents == l.extents.subrange(0, last)
            &&& r.strides == l.strides.subrange(0, last)
            &&& r.offset == l.offset + l.strides[last] * index_position(
                index,
                l.extents[last] as int,
            )
        },
{
    let subs = seq![DynamicSubscript::Ellipsis, DynamicSubscript::Index(index)];
    assert(subs[0] is Ellipsis);
    assert(!(subs[1] is Ellipsis));
    assert(!has_repeated_ellipsis(subs));
    assert(ellipsis_position(subs) == Some(0int));
    assert(leading_subscripts(subs) =~= Seq::<DynamicSubscript>::empty());
    assert(trailing_subscripts(subs) =~= seq![DynamicSubscript::Index(index)]);
    let trail = seq![DynamicSubscript::Index(index)];
    assert(trail.drop_last() =~= Seq::<DynamicSubscript>::empty());
    let p0 = initial_progress(l);
    assert(forward_fold(l, p0, Seq::<DynamicSubscript>::empty()) == Ok::<
        SubscriptProgress,
        StridedLayoutError,
    >(p0));
    assert(backward_step_spec(l, p0, trail.last()) is Ok);
    let q = backward_step_spec(l, p0, trail.last())->Ok_0;
    assert(backward_fold(l, q, trail.drop_last()) == Ok::<SubscriptProgress, StridedLayoutError>(q));
    assert(backward_fold(l, p0, trail) == Ok::<SubscriptProgress, StridedLayoutError>(q));
    let r = apply_subscripts_spec(l, subs)->Ok_0;
    assert(r == assemble_spec(l, q));
    assert(r.extents =~= l.extents.subrange(0, l.rank() - 1));
    assert(r.strides =~= l.strides.subrange(0, l.rank() - 1));
}

proof fn lemma_no_unbroadcastable_axis(extents: Seq<usize>, target: Seq<usize>, from: int)
    requires
        0 <= from,
        extents.len() == target.len(),
    ensures
        first_unbroadcastable_axis(extents, target, from) is None <==> forall|k: int|
            from <= k < target.len() ==> extents[k] == target[k] || extents[k] == 1,
        first_unbroadcastable_axis(extents, target, from) matches Some(i) ==> from <= i
            < target.len() && extents[i] != target[i] && extents[i] != 1,
    decreases target.len() - from,
{
    if from < target.len() {
        lemma_no_unbroadcastable_axis(extents, target, from + 1);
    }
}

/// Broadcasting to `target` succeeds exactly when the layout has no more axes than the
/// target and each of its axes either already has the extent of the target axis it is
/// aligned with (from the right) or has extent one. The result has the target extents and
/// the offset of the layout; the leading axes added and the axes stretched from extent one
/// get stride zero, and every other axis keeps its stride.
pub proof fn lemma_broadcast_stretches_only_unit_axes(l: LayoutView, target: Seq<usize>)
    requires
        l.wf(),
    ensures
        broadcast_to_spec(l, target) is Ok <==> l.rank() <= target.len() && forall|j: int|
            0 <= j < l.rank() ==> #[trigger] l.extents[j] == target[target.len() - l.rank() + j]
                || l.extents[j] == 1,
        broadcast_to_spec(l, target) matches Ok(b) ==> {
            let pad = target.len() - l.rank();
            &&& b.extents == target
            &&& b.offset == l.offset
            &&& b.strides.len() == target.len()
            &&& forall|k: int| 0 <= k < pad ==> b.strides[k] == 0
            &&& forall|j: int|
                0 <= j < l.rank() ==> #[trigger] b.strides[pad + j] == if l.extents[j]
                    == target[pad + j] {
                    l.strides[j]
                } else {
                    0isize
                }
        },
{
    if l.rank() <= target.len() {
        let pad = target.len() - l.rank();
        let pe = padded_extents(l, target);
        let ps = padded_strides(l, target);
        assert(pe.len() == target.len());
        lemma_no_unbroadcastable_axis(pe, target, 0);
        assert forall|j: int| 0 <= j < l.rank() implies pe[pad + j] == l.extents[j]
            && ps[pad + j] == l.strides[j] by {}
        assert forall|k: int| 0 <= k < pad implies pe[k] == target[k] && ps[k] == 0 by {}
        if forall|j: int|
            0 <= j < l.rank() ==> #[trigger] l.extents[j] == target[target.len() - l.rank() + j]
                || l.extents[j] == 1 {
            assert forall|k: int| 0 <= k < target.len() implies pe[k] == target[k] || pe[k]
                == 1 by {
                if k >= pad {
                    assert(l.extents[k - pad] == target[target.len() - l.rank() + (k - pad)]
                        || l.extents[k - pad] == 1);
                }
            }
        }
        if broadcast_to_spec(l, target) is Ok {
            assert forall|j: int| 0 <= j < l.rank() implies #[trigger] l.extents[j]
                == target[target.len() - l.rank() + j] || l.extents[j] == 1 by {
                assert(pe[pad + j] == target[pad + j] || pe[pad + j] == 1);
            }
        }
    }
}


/// Slicing the first axis replaces it by an axis of the sanitized count, whose stride is the
/// axis stride times the slice step, and moves the offset to the sanitized start; the other
/// axes are kept. A slice that does not fit the axis is reported as such.
pub proof fn lemma_leading_slice_reshapes_first_axis(l: LayoutView, slice: Slice)
    requires
        l.wf(),
        l.rank() >= 1,
    ensures
        match sanitize_slice_spec(slice@, l.extents[0]) {
            Err(e) => apply_subscripts_spec(l, seq![DynamicSubscript::Slice(slice)]) == Err::<
                LayoutView,
                StridedLayoutError,
            >(StridedLayoutError::InvalidSlice(e)),
            Ok(v) => fits_isize(l.offset + l.strides[0] * v.start) && fits_isize(
                l.strides[0] * v.step,
            ) ==> (apply_subscripts_spec(l, seq![DynamicSubscript::Slice(slice)]) matches Ok(r)
                && {
                &&& r.extents == seq![v.count].add(l.extents.subrange(1, l.rank() as int))
                &&& r.strides == seq![(l.strides[0] * v.step) as isize].add(
                    l.strides.subrange(1, l.rank() as int),
                )
                &&& r.strides[0] == l.strides[0] * v.step
                &&& r.offset == l.offset + l.strides[0] * v.start
            }),
        },
{
    let subs = seq![DynamicSubscript::Slice(slice)];
    assert(!(subs[0] is Ellipsis));
    assert(!has_repeated_ellipsis(subs));
    assert(leading_subscripts(subs) == subs);
    assert(trailing_subscripts(subs) =~= Seq::<DynamicSubscript>::empty());
    assert(subs.drop_first() =~= Seq::<DynamicSubscript>::empty());
    let p0 = initial_progress(l);
    if forward_step_spec(l, p0, subs[0]) is Ok {
        let q = forward_step_spec(l, p0, subs[0])->Ok_0;
        assert(forward_fold(l, q, subs.drop_first()) == Ok::<SubscriptProgress, StridedLayoutError>(
            q,
        ));
        assert(forward_fold(l, p0, subs) == Ok::<SubscriptProgress, StridedLayoutError>(q));
        assert(backward_fold(l, q, Seq::<DynamicSubscript>::empty()) == Ok::<
            SubscriptProgress,
            StridedLayoutError,
        >(q));
        let r = assemble_spec(l, q);
        assert(apply_subscripts_spec(l, subs) == Ok::<LayoutView, StridedLayoutError>(r));
        assert(q.left_extents =~= Seq::<usize>::empty().push(q.left_extents[0]));
        assert(r.extents =~= seq![q.left_extents[0]].add(l.extents.subrange(1, l.rank() as int)));
        assert(r.strides =~= seq![q.left_strides[0]].add(l.strides.subrange(1, l.rank() as int)));
    }
}

/// A new axis in front adds an axis of extent one and stride zero before the others and keeps
/// the offset.
pub proof fn lemma_leading_new_axis_prepends_unit_axis(l: LayoutView)
    requires
        l.wf(),
    ensures
        apply_subscripts_spec(l, seq![DynamicSubscript::NewAxis]) == Ok::<
            LayoutView,
            StridedLayoutError,
        >(
            LayoutView {
                extents: seq![1usize].add(l.extents),
                strides: seq![0isize].add(l.strides),
                offset: l.offset,
            },
        ),
{
    let subs = seq![DynamicSubscript::NewAxis];
    assert(!(subs[0] is Ellipsis));
    assert(!has_repeated_ellipsis(subs));
    assert(leading_subscripts(subs) == subs);
    assert(trailing_subscripts(subs) =~= Seq::<DynamicSubscript>::empty());
    assert(subs.drop_first() =~= Seq::<DynamicSubscript>::empty());
    let p0 = initial_progress(l);
    let q = forward_step_spec(l, p0, subs[0])->Ok_0;
    assert(forward_fold(l, q, subs.drop_first()) == Ok::<SubscriptProgress, StridedLayoutError>(q));
    assert(forward_fold(l, p0, subs) == Ok::<SubscriptProgress, StridedLayoutError>(q));
    assert(backward_fold(l, q, Seq::<DynamicSubscript>::empty()) == Ok::<
        SubscriptProgress,
        StridedLayoutError,
    >(q));
    let r = assemble_spec(l, q);
    assert(r.extents =~= seq![1usize].add(l.extents));
    assert(r.strides =~= seq![0isize].add(l.strides));
}

/// An axis argument that designates no axis is reported with the rank it was checked
/// against, the first argument being checked first.
pub proof fn lemma_matrix_transpose_rejects_undesignated_axes(
    l: LayoutView,
    axis1: isize,
    axis2: isize,
)
    requires
        l.rank() <= isize::MAX,
    ensures
        axis1 < -(l.rank() as int) ==> matrix_transpose_spec(l, axis1, axis2) == Err::<
            LayoutView,
            StridedLayoutError,
        >(StridedLayoutError::ReverseIndexOutOfBounds { index: axis1, extent: l.rank() as usize }),
        axis1 >= l.rank() ==> matrix_transpose_spec(l, axis1, axis2) == Err::<
            LayoutView,
            StridedLayoutError,
        >(StridedLayoutError::IndexOutOfBounds { index: axis1, extent: l.rank() as usize }),
        designates_axis(axis1, l.rank() as int) && axis2 < -(l.rank() as int)
            ==> matrix_transpose_spec(l, axis1, axis2) == Err::<LayoutView, StridedLayoutError>(
            StridedLayoutError::ReverseIndexOutOfBounds { index: axis2, extent: l.rank() as usize },
        ),
        designates_axis(axis1, l.rank() as int) && axis2 >= l.rank() ==> matrix_transpose_spec(
            l,
            axis1,
            axis2,
        ) == Err::<LayoutView, StridedLayoutError>(
            StridedLayoutError::IndexOutOfBounds { index: axis2, extent: l.rank() as usize },
        ),
{
}


proof fn lemma_first_missing_axis_characterized(order: Seq<usize>, count: int, from: int)
    requires
        0 <= from,
        count <= usize::MAX + 1,
    ensures
        first_missing_axis(order, count, from) is None <==> forall|a: int|
            from <= a < count ==> #[trigger] order.contains(a as usize),
        first_missing_axis(order, count, from) matches Some(k) ==> {
            &&& from <= k < count
            &&& !order.contains(k as usize)
            &&& forall|a: int| from <= a < k ==> #[trigger] order.contains(a as usize)
        },
    decreases count - from,
{
    if from < count {
        lemma_first_missing_axis_characterized(order, count, from + 1);
    }
}

/// Permuting axes succeeds exactly when the order has one entry per axis and lists every
/// axis; axis `k` of the result is then axis `order[k]` of the layout, and the offset is kept.
/// Otherwise a wrong length is reported, or else the smallest axis that the order omits.
pub proof fn lemma_permute_moves_listed_axes(l: LayoutView, order: Seq<usize>)
    requires
        l.wf(),
        l.rank() <= usize::MAX,
    ensures
        permute_spec(l, order) is Ok <==> order.len() == l.rank() && forall|a: int|
            0 <= a < l.rank() ==> #[trigger] order.contains(a as usize),
        order.len() != l.rank() ==> permute_spec(l, order) == Err::<LayoutView, StridedLayoutError>(
            StridedLayoutError::InvalidAxisPermutationLength,
        ),
        permute_spec(l, order) matches Err(StridedLayoutError::MissingAxisInPermutation { index }) ==> {
            &&& index < l.rank()
            &&& !order.contains(index)
            &&& forall|a: int| 0 <= a < index ==> #[trigger] order.contains(a as usize)
        },
        permute_spec(l, order) matches Ok(r) ==> {
            &&& r.offset == l.offset
            &&& r.extents.len() == order.len()
            &&& r.strides.len() == order.len()
            &&& forall|k: int|
                0 <= k < order.len() ==> r.extents[k] == l.extents[order[k] as int]
                    && r.strides[k] == l.strides[order[k] as int]
        },
{
    lemma_first_missing_axis_characterized(order, l.rank() as int, 0);
    if let Some(k) = first_missing_axis(order, l.rank() as int, 0) {
        assert((k as usize) as int == k);
    }
}

proof fn lemma_extents_product_concat(a: Seq<usize>, b: Seq<usize>)
    ensures
        extents_product(a + b) == extents_product(a) * extents_product(b),
    decreases b.len(),
{
    if b.len() == 0 {
        assert(a + b =~= a);
    } else {
        lemma_extents_product_concat(a, b.drop_last());
        assert((a + b).drop_last() =~= a + b.drop_last());
        let pa = extents_product(a);
        let pb = extents_product(b.drop_last());
        let e = b.last() as int;
        assert((pa * pb) * e == pa * (pb * e)) by (nonlinear_arith);
    }
}

/// The element count of a layout with axes is multiplicative over splitting its axes into
/// two groups, a single axis counts as many elements as its extent, and a layout without axes
/// counts none.
pub proof fn lemma_element_count_multiplies(a: Seq<usize>, b: Seq<usize>)
    ensures
        a.len() > 0 && b.len() > 0 ==> element_count_spec(a + b) == element_count_spec(a)
            * element_count_spec(b),
        a.len() == 1 ==> element_count_spec(a) == a[0],
        element_count_spec(Seq::<usize>::empty()) == 0,
{
    lemma_extents_product_concat(a, b);
    if a.len() == 1 {
        assert(a.drop_last() =~= Seq::<usize>::empty());
        assert(extents_product(a.drop_last()) == 1);
        assert(a.last() == a[0]);
        assert(extents_product(a) == extents_product(a.drop_last()) * a.last());
    }
}


/// Distance from the offset of the element at multi-index `idx`, over its first `n` axes.
pub open spec fn linear_position(strides: Seq<isize>, idx: Seq<int>, n: int) -> int
    decreases n,
{
    if n <= 0 {
        0
    } else {
        linear_position(strides, idx, n - 1) + idx[n - 1] * strides[n - 1]
    }
}

/// Whether `idx` designates an element of a layout of the given extents.
pub open spec fn is_element_index(extents: Seq<usize>, idx: Seq<int>) -> bool {
    &&& idx.len() == extents.len()
    &&& forall|j: int| 0 <= j < idx.len() ==> 0 <= #[trigger] idx[j] < extents[j]
}

/// The element farthest along increasing addresses: the last position of each axis with a
/// positive stride, the first of every other axis.
pub open spec fn farthest_index(l: LayoutView) -> Seq<int> {
    Seq::new(l.extents.len(), |j: int| if l.strides[j] > 0 { l.extents[j] - 1 } else { 0 })
}

proof fn lemma_position_within_span(l: LayoutView, idx: Seq<int>, n: int)
    requires
        l.wf(),
        is_element_index(l.extents, idx),
        0 <= n <= l.rank(),
    ensures
        linear_position(l.strides, idx, n) <= positive_stride_span(
            l.extents.take(n),
            l.strides.take(n),
        ),
    decreases n,
{
    if n > 0 {
        lemma_position_within_span(l, idx, n - 1);
        assert(l.extents.take(n).drop_last() =~= l.extents.take(n - 1));
        assert(l.strides.take(n).drop_last() =~= l.strides.take(n - 1));
        let i = idx[n - 1];
        let e = l.extents[n - 1] as int;
        let st = l.strides[n - 1] as int;
        assert(0 <= i < e);
        if st > 0 {
            assert(i * st <= (e - 1) * st) by (nonlinear_arith)
                requires
                    i <= e - 1,
                    st > 0,
            ;
        } else {
            assert(i * st <= 0) by (nonlinear_arith)
                requires
                    i >= 0,
                    st <= 0,
            ;
        }
    } else {
        assert(l.extents.take(0) =~= Seq::<usize>::empty());
    }
}

proof fn lemma_farthest_position_is_span(l: LayoutView, n: int)
    requires
        l.wf(),
        0 <= n <= l.rank(),
    ensures
        linear_position(l.strides, farthest_index(l), n) == positive_stride_span(
            l.extents.take(n),
            l.strides.take(n),
        ),
    decreases n,
{
    if n > 0 {
        lemma_farthest_position_is_span(l, n - 1);
        assert(l.extents.take(n).drop_last() =~= l.extents.take(n - 1));
        assert(l.strides.take(n).drop_last() =~= l.strides.take(n - 1));
    } else {
        assert(l.extents.take(0) =~= Seq::<usize>::empty());
    }
}

/// The storage a layout needs: none when an axis is empty; otherwise, when no address wraps
/// around, every element lies strictly below it, and the farthest element lies at its last
/// position.
pub proof fn lemma_storage_covers_every_element(l: LayoutView, idx: Seq<int>)
    requires
        l.wf(),
    ensures
        (exists|j: int| 0 <= j < l.rank() && l.extents[j] == 0) ==> storage_requirement_spec(l)
            == 0,
        (forall|j: int| 0 <= j < l.rank() ==> l.extents[j] >= 1) && 0 <= l.offset
            + linear_position(l.strides, farthest_index(l), l.rank() as int) + 1 <= usize::MAX
            ==> {
            &&& storage_requirement_spec(l) == l.offset + linear_position(
                l.strides,
                farthest_index(l),
                l.rank() as int,
            ) + 1
            &&& is_element_index(l.extents, farthest_index(l))
            &&& is_element_index(l.extents, idx) ==> l.offset + linear_position(
                l.strides,
                idx,
                l.rank() as int,
            ) < storage_requirement_spec(l)
        },
{
    let n = l.rank() as int;
    assert(l.extents.take(n) =~= l.extents);
    assert(l.strides.take(n) =~= l.strides);
    lemma_farthest_position_is_span(l, n);
    if forall|j: int| 0 <= j < l.rank() ==> l.extents[j] >= 1 {
        let x = l.offset + positive_stride_span(l.extents, l.strides) + 1;
        if 0 <= x <= usize::MAX {
            vstd::arithmetic::div_mod::lemma_small_mod(x as nat, usize_modulus() as nat);
        }
        if is_element_index(l.extents, idx) {
            lemma_position_within_span(l, idx, n);
        }
    }
}


/// The axes of a layout as (extent, stride) pairs.
pub open spec fn axis_pairs(extents: Seq<usize>, strides: Seq<isize>) -> Seq<(usize, isize)> {
    Seq::new(extents.len(), |i: int| (extents[i], strides[i]))
}

/// Whether an axis has an extent other than one.
pub open spec fn is_non_unit_axis() -> spec_fn((usize, isize)) -> bool {
    |a: (usize, isize)| a.0 != 1
}

proof fn lemma_squeeze_axes_is_filter(extents: Seq<usize>, strides: Seq<isize>)
    requires
        extents.len() == strides.len(),
    ensures
        axis_pairs(squeeze_axes(extents, strides).0, squeeze_axes(extents, strides).1) == axis_pairs(
            extents,
            strides,
        ).filter(is_non_unit_axis()),
        squeeze_axes(extents, strides).0.len() == squeeze_axes(extents, strides).1.len(),
    decreases extents.len(),
{
    reveal(Seq::filter);
    let pairs = axis_pairs(extents, strides);
    if extents.len() == 0 {
        assert(axis_pairs(Seq::<usize>::empty(), Seq::<isize>::empty()) =~= pairs);
    } else {
        lemma_squeeze_axes_is_filter(extents.drop_last(), strides.drop_last());
        assert(axis_pairs(extents.drop_last(), strides.drop_last()) =~= pairs.drop_last());
        let (e, st) = squeeze_axes(extents.drop_last(), strides.drop_last());
        if extents.last() != 1 {
            assert(axis_pairs(e.push(extents.last()), st.push(strides[extents.len() - 1]))
                =~= axis_pairs(e, st).push(pairs.last()));
        }
    }
}

/// Squeezing keeps exactly the axes whose extent is not one, in their order and with their
/// strides, and keeps the offset.
pub proof fn lemma_squeeze_keeps_non_unit_axes_in_order(l: LayoutView)
    requires
        l.wf(),
    ensures
        axis_pairs(squeeze_spec(l).extents, squeeze_spec(l).strides) == axis_pairs(
            l.extents,
            l.strides,
        ).filter(is_non_unit_axis()),
        squeeze_spec(l).extents.len() == squeeze_spec(l).strides.len(),
        squeeze_spec(l).offset == l.offset,
{
    lemma_squeeze_axes_is_filter(l.extents, l.strides);
}


/// Slicing the last axis (a slice after an ellipsis) replaces it by an axis of the sanitized
/// count, whose stride is the axis stride times the slice step, and moves the offset to the
/// sanitized start; the other axes are kept.
pub proof fn lemma_trailing_slice_reshapes_last_axis(l: LayoutView, slice: Slice)
    requires
        l.wf(),
        l.rank() >= 1,
    ensures
        ({
            let last = l.rank() - 1;
            let subs = seq![DynamicSubscript::Ellipsis, DynamicSubscript::Slice(slice)];
            match sanitize_slice_spec(slice@, l.extents[last]) {
                Err(e) => apply_subscripts_spec(l, subs) == Err::<LayoutView, StridedLayoutError>(
                    StridedLayoutError::InvalidSlice(e),
                ),
                Ok(v) => fits_isize(l.offset + l.strides[last] * v.start) && fits_isize(
                    l.strides[last] * v.step,
                ) ==> (apply_subscripts_spec(l, subs) matches Ok(r) && {
                    &&& r.extents == l.extents.subrange(0, last).push(v.count)
                    &&& r.strides == l.strides.subrange(0, last).push(
                        (l.strides[last] * v.step) as isize,
                    )
                    &&& r.strides[last] == l.strides[last] * v.step
                    &&& r.offset == l.offset + l.strides[last] * v.start
                }),
            }
        }),
{
    let subs = seq![DynamicSubscript::Ellipsis, DynamicSubscript::Slice(slice)];
    assert(subs[0] is Ellipsis);
    assert(!(subs[1] is Ellipsis));
    assert(!has_repeated_ellipsis(subs));
    assert(ellipsis_position(subs) == Some(0int));
    assert(leading_subscripts(subs) =~= Seq::<DynamicSubscript>::empty());
    let trail = seq![DynamicSubscript::Slice(slice)];
    assert(trailing_subscripts(subs) =~= trail);
    assert(trail.drop_last() =~= Seq::<DynamicSubscript>::empty());
    let p0 = initial_progress(l);
    assert(forward_fold(l, p0, Seq::<DynamicSubscript>::empty()) == Ok::<
        SubscriptProgress,
        StridedLayoutError,
    >(p0));
    if backward_step_spec(l, p0, trail.last()) is Ok {
        let q = backward_step_spec(l, p0, trail.last())->Ok_0;
        assert(backward_fold(l, q, trail.drop_last()) == Ok::<SubscriptProgress, StridedLayoutError>(
            q,
        ));
        assert(backward_fold(l, p0, trail) == Ok::<SubscriptProgress, StridedLayoutError>(q));
        let r = assemble_spec(l, q);
        assert(apply_subscripts_spec(l, subs) == Ok::<LayoutView, StridedLayoutError>(r));
        assert(q.right_extents =~= Seq::<usize>::empty().push(q.right_extents[0]));
        assert(q.right_strides =~= Seq::<isize>::empty().push(q.right_strides[0]));
        assert(r.extents =~= l.extents.subrange(0, l.rank() - 1).push(q.right_extents[0]));
        assert(r.strides =~= l.strides.subrange(0, l.rank() - 1).push(q.right_strides[0]));
    }
}

} // verus!
