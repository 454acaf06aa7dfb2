// SPDX-License-Identifier: GPL-3.0-only

//! Properties of the layout transforms that hold on every layout.

use crate::dynamic_subscript::DynamicSubscript;
use crate::layout_spec::{
    apply_subscripts_spec, assemble_spec, contiguous_layout, element_count_spec,
    positive_stride_span, saturated_suffix_product, saturating_mul_spec, storage_requirement_spec, suffix_product, broadcast_to_spec, canonical_stride, ellipsis_position,
    extents_product, first_missing_axis, first_unbroadcastable_axis, lemma_matching_extents_broadcast, has_repeated_ellipsis,
    initial_progress, layouts_equal, backward_fold, backward_step_spec, forward_fold,
    forward_step_spec, SubscriptProgress, leading_subscripts, matrix_transpose_spec, padded_extents,
    padded_strides, permute_spec, squeeze_axes, squeeze_spec, trailing_subscripts, transpose_spec,
    LayoutView,
};
use crate::slice::wrapped_isize;
use crate::strided_layout_error::StridedLayoutError;
use vstd::prelude::*;

verus! {

/// Reversing the axes twice gives back the layout.
pub proof fn lemma_transpose_involution(l: LayoutView)
    ensures
        transpose_spec(transpose_spec(l)) == l,
{
    assert(l.extents.reverse().reverse() =~= l.extents);
    assert(l.strides.reverse().reverse() =~= l.strides);
}

/// The axes `0..n` in increasing order.
pub open spec fn identity_order(n: nat) -> Seq<usize> {
    Seq::new(n, |k: int| k as usize)
}

/// The axes `0..n` in decreasing order.
pub open spec fn reversed_order(n: nat) -> Seq<usize> {
    Seq::new(n, |k: int| (n - 1 - k) as usize)
}

proof fn lemma_no_missing_axis(order: Seq<usize>, count: int, from: int)
    requires
        0 <= from,
        forall|k: int| from <= k < count ==> #[trigger] order.contains(k as usize),
    ensures
        first_missing_axis(order, count, from) is None,
    decreases count - from,
{
    if from < count {
        assert(order.contains(from as usize));
        lemma_no_missing_axis(order, count, from + 1);
    }
}

/// Permuting the axes in their own order gives back the layout.
pub proof fn lemma_permute_identity(l: LayoutView)
    requires
        l.wf(),
        l.rank() <= usize::MAX,
    ensures
        permute_spec(l, identity_order(l.rank())) == Ok::<LayoutView, StridedLayoutError>(l),
{
    let order = identity_order(l.rank());
    assert forall|k: int| 0 <= k < l.rank() implies #[trigger] order.contains(k as usize) by {
        assert(order[k] == k as usize);
    }
    lemma_no_missing_axis(order, l.rank() as int, 0);
    let r = permute_spec(l, order)->Ok_0;
    assert(r.extents =~= l.extents);
    assert(r.strides =~= l.strides);
}

/// Reversing the axes is the permutation that lists them in decreasing order.
pub proof fn lemma_transpose_is_reversing_permutation(l: LayoutView)
    requires
        l.wf(),
        l.rank() <= usize::MAX,
    ensures
        permute_spec(l, reversed_order(l.rank())) == Ok::<LayoutView, StridedLayoutError>(
            transpose_spec(l),
        ),
{
    let n = l.rank();
    let order = reversed_order(n);
    assert forall|k: int| 0 <= k < n implies #[trigger] order.contains(k as usize) by {
        assert(order[n - 1 - k] == k as usize);
    }
    lemma_no_missing_axis(order, n as int, 0);
    let r = permute_spec(l, order)->Ok_0;
    assert(r.extents =~= l.extents.reverse());
    assert(r.strides =~= l.strides.reverse());
}

/// Exchanging the same two axes twice gives back the layout.
pub proof fn lemma_matrix_transpose_involution(l: LayoutView, axis1: isize, axis2: isize)
    requires
        l.wf(),
        matrix_transpose_spec(l, axis1, axis2) is Ok,
    ensures
        matrix_transpose_spec(matrix_transpose_spec(l, axis1, axis2)->Ok_0, axis1, axis2)
            == Ok::<LayoutView, StridedLayoutError>(l),
{
    let m = matrix_transpose_spec(l, axis1, axis2)->Ok_0;
    let r = matrix_transpose_spec(m, axis1, axis2)->Ok_0;
    assert(r.extents =~= l.extents);
    assert(r.strides =~= l.strides);
}

/// Exchanging axes `axis1` and `axis2` is the same as exchanging `axis2` and `axis1` when
/// both designate axes of the layout.
pub proof fn lemma_matrix_transpose_symmetric(l: LayoutView, axis1: isize, axis2: isize)
    requires
        l.wf(),
        matrix_transpose_spec(l, axis1, axis2) is Ok,
    ensures
        matrix_transpose_spec(l, axis2, axis1) == matrix_transpose_spec(l, axis1, axis2),
{
    let a = matrix_transpose_spec(l, axis1, axis2)->Ok_0;
    let b = matrix_transpose_spec(l, axis2, axis1)->Ok_0;
    assert(a.extents =~= b.extents);
    assert(a.strides =~= b.strides);
}

proof fn lemma_squeeze_axes_properties(extents: Seq<usize>, strides: Seq<isize>)
    requires
        extents.len() == strides.len(),
    ensures
        squeeze_axes(extents, strides).0.len() == squeeze_axes(extents, strides).1.len(),
        forall|i: int|
            0 <= i < squeeze_axes(extents, strides).0.len() ==> #[trigger] squeeze_axes(
                extents,
                strides,
            ).0[i] != 1,
        extents_product(squeeze_axes(extents, strides).0) == extents_product(extents),
    decreases extents.len(),
{
    if extents.len() > 0 {
        lemma_squeeze_axes_properties(extents.drop_last(), strides.drop_last());
        let (e, s) = squeeze_axes(extents.drop_last(), strides.drop_last());
        if extents.last() != 1 {
            assert(e.push(extents.last()).drop_last() =~= e);
        }
    }
}

proof fn lemma_squeeze_axes_fixed(extents: Seq<usize>, strides: Seq<isize>)
    requires
        extents.len() == strides.len(),
        forall|i: int| 0 <= i < extents.len() ==> #[trigger] extents[i] != 1,
    ensures
        squeeze_axes(extents, strides) == (extents, strides),
    decreases extents.len(),
{
    if extents.len() > 0 {
        lemma_squeeze_axes_fixed(extents.drop_last(), strides.drop_last());
        assert(extents.drop_last().push(extents.last()) =~= extents);
        assert(strides.drop_last().push(strides[extents.len() - 1]) =~= strides);
    }
}

/// Squeezing leaves no axis of extent one, keeps the offset and the product of the extents,
/// and squeezing again changes nothing.
pub proof fn lemma_squeeze_properties(l: LayoutView)
    requires
        l.wf(),
    ensures
        squeeze_spec(l).wf(),
        forall|i: int| 0 <= i < squeeze_spec(l).rank() ==> #[trigger] squeeze_spec(l).extents[i] != 1,
        squeeze_spec(l).offset == l.offset,
        extents_product(squeeze_spec(l).extents) == extents_product(l.extents),
        squeeze_spec(squeeze_spec(l)) == squeeze_spec(l),
{
    lemma_squeeze_axes_properties(l.extents, l.strides);
    let s = squeeze_spec(l);
    lemma_squeeze_axes_fixed(s.extents, s.strides);
}

/// Layout equality is reflexive.
pub proof fn lemma_layouts_equal_reflexive(a: LayoutView)
    ensures
        layouts_equal(a, a),
{
}

/// Layout equality is symmetric.
pub proof fn lemma_layouts_equal_symmetric(a: LayoutView, b: LayoutView)
    requires
        layouts_equal(a, b),
    ensures
        layouts_equal(b, a),
{
}

/// Layout equality is transitive.
pub proof fn lemma_layouts_equal_transitive(a: LayoutView, b: LayoutView, c: LayoutView)
    requires
        layouts_equal(a, b),
        layouts_equal(b, c),
    ensures
        layouts_equal(a, c),
{
    assert forall|i: int| 0 <= i < a.extents.len() implies #[trigger] a.extents[i] == c.extents[i]
        && (a.extents[i] != 1 ==> a.strides[i] == c.strides[i]) by {
        assert(b.extents[i] == c.extents[i]);
    }
}

/// Equal layouts feed the same values to a hasher: the same offset, and on every axis the
/// same extent and the same stride once the stride of an extent-one axis is taken as zero.
pub proof fn lemma_equal_layouts_hash_alike(a: LayoutView, b: LayoutView)
    requires
        layouts_equal(a, b),
    ensures
        a.offset == b.offset,
        a.extents == b.extents,
        forall|i: int|
            0 <= i < a.extents.len() ==> #[trigger] canonical_stride(a.extents[i], a.strides[i])
                == canonical_stride(b.extents[i], b.strides[i]),
{
    assert(a.extents =~= b.extents);
}

/// Broadcasting a layout to its own extents gives back the layout.
pub proof fn lemma_broadcast_to_own_extents(l: LayoutView)
    requires
        l.wf(),
        l.rank() <= usize::MAX,
    ensures
        broadcast_to_spec(l, l.extents) == Ok::<LayoutView, StridedLayoutError>(l),
{
    assert(padded_extents(l, l.extents) =~= l.extents);
    assert(padded_strides(l, l.extents) =~= l.strides);
    lemma_matching_extents_broadcast(l.extents, 0);
    let r = broadcast_to_spec(l, l.extents)->Ok_0;
    assert(r.strides =~= l.strides);
}

/// A successful broadcast has exactly the target extents and keeps the offset.
pub proof fn lemma_broadcast_to_target_extents(l: LayoutView, target: Seq<usize>)
    requires
        broadcast_to_spec(l, target) is Ok,
    ensures
        broadcast_to_spec(l, target)->Ok_0.extents == target,
        broadcast_to_spec(l, target)->Ok_0.offset == l.offset,
        broadcast_to_spec(l, target)->Ok_0.wf(),
{
}

proof fn lemma_suffix_product_bounds_from(extents: Seq<usize>, i: int)
    requires
        0 <= i <= extents.len(),
        forall|j: int| 0 <= j < extents.len() ==> #[trigger] extents[j] >= 1,
    ensures
        suffix_product(extents, i) >= 1,
    decreases extents.len() - i,
{
    if i < extents.len() {
        lemma_suffix_product_bounds_from(extents, i + 1);
        let p = suffix_product(extents, i + 1);
        let e = extents[i] as int;
        assert(e * p >= 1) by (nonlinear_arith)
            requires
                p >= 1,
                e >= 1,
        ;
    }
}

proof fn lemma_suffix_product_monotone(extents: Seq<usize>, i: int, j: int)
    requires
        0 <= i <= j <= extents.len(),
        forall|k: int| 0 <= k < extents.len() ==> #[trigger] extents[k] >= 1,
    ensures
        suffix_product(extents, j) <= suffix_product(extents, i),
    decreases j - i,
{
    if i < j {
        lemma_suffix_product_monotone(extents, i + 1, j);
        lemma_suffix_product_bounds_from(extents, i + 1);
        let p = suffix_product(extents, i + 1);
        let e = extents[i] as int;
        assert(p <= e * p) by (nonlinear_arith)
            requires
                p >= 1,
                e >= 1,
        ;
    }
}

/// Where every extent from axis `i` on fits an `isize`, the stepwise-saturated product of
/// those extents is their exact product capped at `isize::MAX`.
pub proof fn lemma_saturated_suffix_product_is_capped_product(extents: Seq<usize>, i: int)
    requires
        0 <= i,
        forall|j: int| i <= j < extents.len() ==> #[trigger] extents[j] <= isize::MAX,
    ensures
        saturated_suffix_product(extents, i) == if suffix_product(extents, i) <= isize::MAX {
            suffix_product(extents, i)
        } else {
            isize::MAX as int
        },
        suffix_product(extents, i) >= 0,
    decreases extents.len() - i,
{
    if i < extents.len() {
        lemma_saturated_suffix_product_is_capped_product(extents, i + 1);
        let p = suffix_product(extents, i + 1);
        let q = saturated_suffix_product(extents, i + 1);
        let e = extents[i] as int;
        let m = isize::MAX as int;
        assert(wrapped_isize(extents[i]) == e);
        assert(suffix_product(extents, i) == e * p);
        assert(saturated_suffix_product(extents, i) == saturating_mul_spec(q, e));
        assert(e * p >= 0 && q * e == e * q) by (nonlinear_arith)
            requires
                e >= 0,
                p >= 0,
        ;
        if p <= m {
            assert(q == p);
        } else {
            assert(q == m);
            if e == 0 {
                assert(e * p == 0 && q * e == 0) by (nonlinear_arith)
                    requires
                        e == 0,
                ;
            } else {
                assert(e * p >= p && e * m >= m) by (nonlinear_arith)
                    requires
                        e >= 1,
                        p >= 0,
                        m >= 0,
                ;
            }
        }
    }
}

proof fn lemma_prefix_times_suffix(extents: Seq<usize>, k: int)
    requires
        0 <= k <= extents.len(),
    ensures
        extents_product(extents.take(k)) * suffix_product(extents, k) == suffix_product(extents, 0),
    decreases k,
{
    if k > 0 {
        lemma_prefix_times_suffix(extents, k - 1);
        assert(extents.take(k).drop_last() =~= extents.take(k - 1));
        let a = extents_product(extents.take(k - 1));
        let e = extents[k - 1] as int;
        let p = suffix_product(extents, k);
        assert((a * e) * p == a * (e * p)) by (nonlinear_arith);
    } else {
        assert(extents.take(0) =~= Seq::<usize>::empty());
    }
}

proof fn lemma_product_with_zero(extents: Seq<usize>, j: int)
    requires
        0 <= j < extents.len(),
        extents[j] == 0,
    ensures
        extents_product(extents) == 0,
    decreases extents.len(),
{
    if j < extents.len() - 1 {
        lemma_product_with_zero(extents.drop_last(), j);
    }
}

proof fn lemma_extent_within_product(extents: Seq<usize>, j: int)
    requires
        0 <= j < extents.len(),
        forall|i: int| 0 <= i < extents.len() ==> #[trigger] extents[i] >= 1,
    ensures
        extents[j] <= suffix_product(extents, 0),
{
    lemma_suffix_product_bounds_from(extents, j + 1);
    lemma_suffix_product_monotone(extents, 0, j);
    let p = suffix_product(extents, j + 1);
    let e = extents[j] as int;
    assert(e <= e * p) by (nonlinear_arith)
        requires
            p >= 1,
            e >= 1,
    ;
}

proof fn lemma_contiguous_span(extents: Seq<usize>, k: int)
    requires
        0 <= k <= extents.len(),
        forall|j: int| 0 <= j < extents.len() ==> #[trigger] extents[j] >= 1,
        suffix_product(extents, 0) <= isize::MAX,
    ensures
        positive_stride_span(
            extents.take(k),
            contiguous_layout(extents).strides.take(k),
        ) == suffix_product(extents, 0) - suffix_product(extents, k),
    decreases k,
{
    let strides = contiguous_layout(extents).strides;
    if k > 0 {
        lemma_contiguous_span(extents, k - 1);
        assert(extents.take(k).drop_last() =~= extents.take(k - 1));
        assert(strides.take(k).drop_last() =~= strides.take(k - 1));
        assert forall|j: int| k <= j < extents.len() implies #[trigger] extents[j]
            <= isize::MAX by {
            lemma_extent_within_product(extents, j);
        }
        lemma_saturated_suffix_product_is_capped_product(extents, k);
        lemma_suffix_product_bounds_from(extents, k);
        lemma_suffix_product_monotone(extents, 0, k);
        let p = suffix_product(extents, k);
        let e = extents[k - 1] as int;
        assert(strides[k - 1] == p);
        assert(strides.take(k)[k - 1] == p);
        assert(extents.take(k).last() == e);
        assert((e - 1) * p == e * p - p) by (nonlinear_arith);
        assert(suffix_product(extents, k - 1) == e * p);
    } else {
        assert(extents.take(0) =~= Seq::<usize>::empty());
    }
}

/// Where every extent fits an `isize`, the stride of each axis of a contiguous layout is the
/// exact product of the extents after it, capped at `isize::MAX`.
pub proof fn lemma_contiguous_strides_are_capped_suffix_products(extents: Seq<usize>)
    requires
        forall|j: int| 0 <= j < extents.len() ==> #[trigger] extents[j] <= isize::MAX,
    ensures
        forall|i: int|
            0 <= i < extents.len() ==> #[trigger] contiguous_layout(extents).strides[i] == if suffix_product(
                extents,
                i + 1,
            ) <= isize::MAX {
                suffix_product(extents, i + 1)
            } else {
                isize::MAX as int
            },
{
    assert forall|i: int| 0 <= i < extents.len() implies #[trigger] contiguous_layout(
        extents,
    ).strides[i] == if suffix_product(extents, i + 1) <= isize::MAX {
        suffix_product(extents, i + 1)
    } else {
        isize::MAX as int
    } by {
        lemma_saturated_suffix_product_is_capped_product(extents, i + 1);
    }
}

/// A contiguous layout needs exactly as much storage as it has elements, as long as its
/// element count is representable as an `isize`.
pub proof fn lemma_contiguous_storage_is_element_count(extents: Seq<usize>)
    requires
        extents.len() > 0,
        extents_product(extents) <= isize::MAX,
    ensures
        storage_requirement_spec(contiguous_layout(extents)) == element_count_spec(extents),
{
    let l = contiguous_layout(extents);
    if exists|j: int| 0 <= j < extents.len() && extents[j] == 0 {
        let j = choose|j: int| 0 <= j < extents.len() && extents[j] == 0;
        lemma_product_with_zero(extents, j);
    } else {
        assert forall|j: int| 0 <= j < extents.len() implies #[trigger] extents[j] >= 1 by {
            if extents[j] == 0 {
                assert(0 <= j < extents.len() && extents[j] == 0);
            }
        }
        lemma_prefix_times_suffix(extents, extents.len() as int);
        assert(extents.take(extents.len() as int) =~= extents);
        let n = suffix_product(extents, 0);
        assert(n == extents_product(extents));
        lemma_contiguous_span(extents, extents.len() as int);
        assert(l.strides.take(extents.len() as int) =~= l.strides);
        lemma_suffix_product_monotone(extents, 0, extents.len() as int);
        vstd::arithmetic::div_mod::lemma_small_mod(n as nat, (usize::MAX + 1) as nat);
    }
}

/// Applying a lone ellipsis gives back the layout.
pub proof fn lemma_ellipsis_alone_keeps_layout(l: LayoutView)
    requires
        l.wf(),
    ensures
        apply_subscripts_spec(l, seq![DynamicSubscript::Ellipsis]) == Ok::<
            LayoutView,
            StridedLayoutError,
        >(l),
{
    let subs = seq![DynamicSubscript::Ellipsis];
    assert(subs[0] is Ellipsis);
    assert(!has_repeated_ellipsis(subs));
    assert(ellipsis_position(subs) == Some(0int));
    assert(leading_subscripts(subs) =~= Seq::<DynamicSubscript>::empty());
    assert(trailing_subscripts(subs) =~= Seq::<DynamicSubscript>::empty());
    let r = assemble_spec(l, initial_progress(l));
    assert(r.extents =~= l.extents);
    assert(r.strides =~= l.strides);
}

/// Applying no subscript gives back the layout.
pub proof fn lemma_no_subscripts_keep_layout(l: LayoutView)
    ensures
        apply_subscripts_spec(l, Seq::empty()) == Ok::<LayoutView, StridedLayoutError>(l),
{
}


/// The number of subscripts of the sequence that satisfy `f`.
pub open spec fn count_where(subs: Seq<DynamicSubscript>, f: spec_fn(DynamicSubscript) -> bool) -> nat
    decreases subs.len(),
{
    if subs.len() == 0 {
        0
    } else {
        count_where(subs.drop_last(), f) + if f(subs.last()) {
            1nat
        } else {
            0nat
        }
    }
}

/// Whether a subscript is an index.
pub open spec fn is_index() -> spec_fn(DynamicSubscript) -> bool {
    |s: DynamicSubscript| s is Index
}

/// Whether a subscript is a slice.
pub open spec fn is_slice() -> spec_fn(DynamicSubscript) -> bool {
    |s: DynamicSubscript| s is Slice
}

/// Whether a subscript is a new axis.
pub open spec fn is_new_axis() -> spec_fn(DynamicSubscript) -> bool {
    |s: DynamicSubscript| s is NewAxis
}

/// The number of index subscripts.
pub open spec fn index_count(subs: Seq<DynamicSubscript>) -> nat {
    count_where(subs, is_index())
}

/// The number of slice subscripts.
pub open spec fn slice_count(subs: Seq<DynamicSubscript>) -> nat {
    count_where(subs, is_slice())
}

/// The number of new-axis subscripts.
pub open spec fn new_axis_count(subs: Seq<DynamicSubscript>) -> nat {
    count_where(subs, is_new_axis())
}

proof fn lemma_count_concat(a: Seq<DynamicSubscript>, b: Seq<DynamicSubscript>, f: spec_fn(
    DynamicSubscript,
) -> bool)
    ensures
        count_where(a + b, f) == count_where(a, f) + count_where(b, f),
    decreases b.len(),
{
    if b.len() == 0 {
        assert(a + b =~= a);
    } else {
        lemma_count_concat(a, b.drop_last(), f);
        assert((a + b).drop_last() =~= a + b.drop_last());
        assert((a + b).last() == b.last());
    }
}

proof fn lemma_count_first(subs: Seq<DynamicSubscript>, f: spec_fn(DynamicSubscript) -> bool)
    requires
        subs.len() > 0,
    ensures
        count_where(subs, f) == count_where(subs.drop_first(), f) + if f(subs[0]) {
            1nat
        } else {
            0nat
        },
{
    let head = seq![subs[0]];
    assert(head + subs.drop_first() =~= subs);
    lemma_count_concat(head, subs.drop_first(), f);
    assert(head.drop_last() =~= Seq::<DynamicSubscript>::empty());
    assert(count_where(Seq::<DynamicSubscript>::empty(), f) == 0);
    assert(head.last() == subs[0]);
    assert(count_where(head, f) == count_where(head.drop_last(), f) + if f(head.last()) {
        1nat
    } else {
        0nat
    });
}

/// The counts of the three kinds of subscripts that change the shape, from the first
/// subscript on.
proof fn lemma_counts_first(subs: Seq<DynamicSubscript>)
    requires
        subs.len() > 0,
    ensures
        index_count(subs) == index_count(subs.drop_first()) + if subs[0] is Index {
            1nat
        } else {
            0nat
        },
        slice_count(subs) == slice_count(subs.drop_first()) + if subs[0] is Slice {
            1nat
        } else {
            0nat
        },
        new_axis_count(subs) == new_axis_count(subs.drop_first()) + if subs[0] is NewAxis {
            1nat
        } else {
            0nat
        },
{
    lemma_count_first(subs, is_index());
    lemma_count_first(subs, is_slice());
    lemma_count_first(subs, is_new_axis());
}

proof fn lemma_forward_fold_shape(l: LayoutView, p: SubscriptProgress, subs: Seq<DynamicSubscript>)
    requires
        p.left_axis <= p.right_axis,
        forward_fold(l, p, subs) is Ok,
    ensures
        ({
            let q = forward_fold(l, p, subs)->Ok_0;
            &&& q.left_axis == p.left_axis + index_count(subs) + slice_count(subs)
            &&& q.right_axis == p.right_axis
            &&& q.left_axis <= q.right_axis
            &&& q.left_extents.len() == p.left_extents.len() + slice_count(subs) + new_axis_count(
                subs,
            )
            &&& q.right_extents == p.right_extents
        }),
    decreases subs.len(),
{
    if subs.len() > 0 {
        lemma_counts_first(subs);
        let q1 = forward_step_spec(l, p, subs[0])->Ok_0;
        lemma_forward_fold_shape(l, q1, subs.drop_first());
    }
}

proof fn lemma_backward_fold_shape(l: LayoutView, p: SubscriptProgress, subs: Seq<DynamicSubscript>)
    requires
        p.left_axis <= p.right_axis,
        backward_fold(l, p, subs) is Ok,
    ensures
        ({
            let q = backward_fold(l, p, subs)->Ok_0;
            &&& q.right_axis == p.right_axis - index_count(subs) - slice_count(subs)
            &&& q.left_axis == p.left_axis
            &&& q.left_axis <= q.right_axis
            &&& q.right_extents.len() == p.right_extents.len() + slice_count(subs)
                + new_axis_count(subs)
            &&& q.left_extents == p.left_extents
        }),
    decreases subs.len(),
{
    if subs.len() > 0 {
        let q1 = backward_step_spec(l, p, subs.last())->Ok_0;
        lemma_backward_fold_shape(l, q1, subs.drop_last());
    }
}

proof fn lemma_split_counts(subs: Seq<DynamicSubscript>)
    requires
        !has_repeated_ellipsis(subs),
    ensures
        index_count(subs) == index_count(leading_subscripts(subs)) + index_count(
            trailing_subscripts(subs),
        ),
        slice_count(subs) == slice_count(leading_subscripts(subs)) + slice_count(
            trailing_subscripts(subs),
        ),
        new_axis_count(subs) == new_axis_count(leading_subscripts(subs)) + new_axis_count(
            trailing_subscripts(subs),
        ),
{
    let fi = is_index();
    let fs = is_slice();
    let fn_ = is_new_axis();
    match ellipsis_position(subs) {
        Some(i) => {
            let lead = subs.take(i);
            let mid = seq![subs[i]];
            let trail = subs.skip(i + 1);
            assert(lead + mid + trail =~= subs);
            assert(mid.drop_last() =~= Seq::<DynamicSubscript>::empty());
            assert(mid.last() is Ellipsis);
            assert(!fi(mid.last()) && !fs(mid.last()) && !fn_(mid.last()));
            reveal_with_fuel(count_where, 2);
            assert(count_where(mid, fi) == 0);
            assert(count_where(mid, fs) == 0);
            assert(count_where(mid, fn_) == 0);
            lemma_count_concat(lead + mid, trail, fi);
            lemma_count_concat(lead, mid, fi);
            lemma_count_concat(lead + mid, trail, fs);
            lemma_count_concat(lead, mid, fs);
            lemma_count_concat(lead + mid, trail, fn_);
            lemma_count_concat(lead, mid, fn_);
        },
        None => {
            assert(trailing_subscripts(subs) =~= Seq::<DynamicSubscript>::empty());
            assert(count_where(Seq::<DynamicSubscript>::empty(), fi) == 0);
            assert(count_where(Seq::<DynamicSubscript>::empty(), fs) == 0);
            assert(count_where(Seq::<DynamicSubscript>::empty(), fn_) == 0);
        },
    }
}

/// Applying subscripts that succeed leaves as many axes as the layout had, less one for each
/// index, plus one for each new axis; and more indices and slices than the layout has axes
/// is an error.
pub proof fn lemma_subscripts_rank(l: LayoutView, subs: Seq<DynamicSubscript>)
    ensures
        apply_subscripts_spec(l, subs) matches Ok(r) ==> r.rank() == l.rank() - index_count(subs)
            + new_axis_count(subs),
        index_count(subs) + slice_count(subs) > l.rank() ==> apply_subscripts_spec(l, subs) is Err,
{
    if subs.len() > 0 && !has_repeated_ellipsis(subs) {
        lemma_split_counts(subs);
        let lead = leading_subscripts(subs);
        let trail = trailing_subscripts(subs);
        let p0 = initial_progress(l);
        if forward_fold(l, p0, lead) is Ok {
            lemma_forward_fold_shape(l, p0, lead);
            let p = forward_fold(l, p0, lead)->Ok_0;
            if backward_fold(l, p, trail) is Ok {
                lemma_backward_fold_shape(l, p, trail);
                let q = backward_fold(l, p, trail)->Ok_0;
                let r = assemble_spec(l, q);
                assert(r.extents.len() == q.left_extents.len() + (q.right_axis - q.left_axis)
                    + q.right_extents.len());
            }
        }
    }
}

} // verus!
