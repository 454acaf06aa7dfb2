// SPDX-License-Identifier: GPL-3.0-only

//! Strided layout model and axis-transform operations.

use crate::dynamic_subscript::DynamicSubscript;
use crate::layout_spec::{
    apply_subscripts_fits, apply_subscripts_spec, assemble_spec,
    backward_fits, backward_fold, backward_step_fits, backward_step_spec, broadcast_to_spec,
    canonical_stride, contiguous_layout, contiguous_strides, element_count_fits,
    element_count_spec, ellipsis_position, empty_layout, extents_product, first_missing_axis,
    first_unbroadcastable_axis, forward_fits, forward_fold, forward_step_fits, forward_step_spec,
    has_repeated_ellipsis, index_offset_fits, index_offset_spec, initial_progress,
    layouts_equal, leading_subscripts, lemma_matching_extents_broadcast, matrix_diagonal_fits,
    matrix_diagonal_spec, matrix_transpose_spec, normalize_axis_spec,
    padded_extents, padded_strides, permute_spec, positive_stride_span, progress_wf,
    saturated_suffix_product, saturating_mul_spec, slice_axis_fits, slice_axis_spec,
    squeeze_axes, squeeze_spec, storage_requirement_spec, trailing_subscripts, transpose_spec,
    usize_modulus, without_two, wrap_usize, LayoutView, SubscriptProgress,
};
use crate::slice::{
    lemma_machine_integer_bounds, sanitize_slice, wrapped_isize, wrapped_isize_wide, Slice,
};
use crate::strided_layout_error::StridedLayoutError;
use vstd::arithmetic::div_mod::{lemma_add_mod_noop, lemma_mod_bound, lemma_mod_add_multiples_vanish};
use vstd::prelude::*;

verus! {

/// Describes an n-dimensional memory layout using extents, strides, and offset.
#[derive(Debug)]
pub struct StridedLayout {
    extents: Vec<usize>,
    strides: Vec<isize>,
    offset: isize,
}

impl View for StridedLayout {
    type V = LayoutView;

    closed spec fn view(&self) -> LayoutView {
        LayoutView { extents: self.extents@, strides: self.strides@, offset: self.offset }
    }
}

/// The view of a fallible layout result.
pub open spec fn layout_result_view(r: Result<StridedLayout, StridedLayoutError>) -> Result<
    LayoutView,
    StridedLayoutError,
> {
    match r {
        Ok(l) => Ok(l@),
        Err(e) => Err(e),
    }
}

impl StridedLayout {
    #[verifier::type_invariant]
    closed spec fn inv(self) -> bool {
        self.extents.len() == self.strides.len()
    }

    /// Creates a layout from extents, strides and base offset.
    ///
    /// # Errors
    ///
    /// Returns an error when extents and strides have different ranks.
    pub fn new(extents: Vec<usize>, strides: Vec<isize>, offset: isize) -> (r: Result<
        Self,
        StridedLayoutError,
    >)
        ensures
            r is Ok <==> extents.len() == strides.len(),
            r matches Ok(l) ==> l@ == (LayoutView { extents: extents@, strides: strides@, offset }),
            r matches Err(e) ==> e == (StridedLayoutError::RankMismatch {
                expected: extents.len(),
                actual: strides.len(),
            }),
    {
        if extents.len() != strides.len() {
            return Err(
                StridedLayoutError::RankMismatch { expected: extents.len(), actual: strides.len() },
            );
        }
        Ok(Self { extents, strides, offset })
    }

    /// Builds a contiguous row-major layout for the provided extents.
    pub fn make_contiguous_layout(extents: Vec<usize>) -> (r: Self)
        ensures
            r@ == contiguous_layout(extents@),
    {
        let rank = extents.len();
        if rank == 0 {
            let r = Self::default();
            assert(r@.extents =~= extents@);
            assert(r@.strides =~= contiguous_strides(extents@));
            return r;
        }
        let mut strides = vec![0isize; rank];
        let mut stride: isize = 1;
        let mut idx = rank;
        while idx > 0
            invariant
                idx <= rank == extents.len() == strides.len(),
                stride == saturated_suffix_product(extents@, idx as int),
                forall|j: int|
                    idx <= j < rank ==> strides@[j] == saturated_suffix_product(
                        extents@,
                        j + 1,
                    ),
            decreases idx,
        {
            idx -= 1;
            strides.set(idx, stride);
            stride = saturating_mul_extent(stride, extents[idx]);
        }
        assert(strides@ =~= contiguous_strides(extents@));
        Self { extents, strides, offset: 0 }
    }

    /// Returns the number of axes.
    pub fn rank(&self) -> (r: usize)
        ensures
            r == self@.rank(),
            self@.wf(),
    {
        proof {
            use_type_invariant(self);
        }
        self.extents.len()
    }

    /// Returns axis extents.
    pub fn extents(&self) -> (r: &[usize])
        ensures
            r@ == self@.extents,
            self@.wf(),
    {
        proof {
            use_type_invariant(self);
        }
        self.extents.as_slice()
    }

    /// Returns axis strides.
    pub fn strides(&self) -> (r: &[isize])
        ensures
            r@ == self@.strides,
            self@.wf(),
    {
        proof {
            use_type_invariant(self);
        }
        self.strides.as_slice()
    }

    /// Returns the storage offset.
    pub fn offset(&self) -> (r: isize)
        ensures
            r == self@.offset,
    {
        self.offset
    }

    /// Checks whether extents exactly match the provided shape.
    pub fn extents_equal(&self, extents: &[usize]) -> (r: bool)
        ensures
            r == (self@.extents == extents@),
    {
        if self.extents.len() != extents.len() {
            return false;
        }
        let mut i: usize = 0;
        while i < extents.len()
            invariant
                self.extents.len() == extents.len(),
                i <= extents.len(),
                forall|j: int| 0 <= j < i ==> self.extents@[j] == extents@[j],
            decreases extents.len() - i,
        {
            if self.extents[i] != extents[i] {
                return false;
            }
            i += 1;
        }
        assert(self.extents@ =~= extents@);
        true
    }

    /// Returns total logical element count.
    pub fn compute_element_count(&self) -> (r: usize)
        requires
            element_count_fits(self@.extents),
        ensures
            r == element_count_spec(self@.extents),
    {
        if self.extents.len() == 0 {
            return 0;
        }
        let mut product: usize = 1;
        let mut i: usize = 0;
        while i < self.extents.len()
            invariant
                i <= self.extents.len(),
                element_count_fits(self@.extents),
                self@.extents == self.extents@,
                product == extents_product(self.extents@.take(i as int)),
            decreases self.extents.len() - i,
        {
            assert(self.extents@.take(i + 1).drop_last() =~= self.extents@.take(i as int));
            assert(extents_product(self.extents@.take(i + 1)) <= usize::MAX);
            product = product * self.extents[i];
            i += 1;
        }
        assert(self.extents@.take(i as int) =~= self.extents@);
        product
    }

    /// Computes the storage span requirement: `0` when an axis is empty, otherwise one past the
    /// farthest element reached through positive strides, counted from the offset, in
    /// wrapping `usize` arithmetic.
    pub fn compute_storage_requirement(&self) -> (r: usize)
        ensures
            r == storage_requirement_spec(self@),
    {
        proof {
            use_type_invariant(self);
        }
        let mut result: usize = 0;
        let mut i: usize = 0;
        proof {
            vstd::arithmetic::div_mod::lemma_small_mod(0, usize_modulus() as nat);
            assert(positive_stride_span(self.extents@.take(0), self.strides@.take(0)) == 0);
        }
        while i < self.extents.len()
            invariant
                self.extents.len() == self.strides.len(),
                i <= self.extents.len(),
                forall|j: int| 0 <= j < i ==> self.extents@[j] != 0,
                result == wrap_usize(
                    positive_stride_span(
                        self.extents@.take(i as int),
                        self.strides@.take(i as int),
                    ),
                ),
            decreases self.extents.len() - i,
        {
            let extent = self.extents[i];
            let stride = self.strides[i];
            if extent == 0 {
                return 0;
            }
            proof {
                let e = self.extents@.take(i + 1);
                let s = self.strides@.take(i + 1);
                assert(e.drop_last() =~= self.extents@.take(i as int));
                assert(s.drop_last() =~= self.strides@.take(i as int));
            }
            if stride > 0 {
                let last_index = extent - 1;
                let term = last_index.wrapping_mul(stride as usize);
                proof {
                    lemma_wrapping_add_usize(
                        result,
                        term,
                        positive_stride_span(
                            self.extents@.take(i as int),
                            self.strides@.take(i as int),
                        ),
                        last_index * stride,
                    );
                }
                result = result.wrapping_add(term);
            }
            i += 1;
        }
        proof {
            assert(self.extents@.take(i as int) =~= self.extents@);
            assert(self.strides@.take(i as int) =~= self.strides@);
            lemma_wrap_usize_add(
                self.offset as int,
                positive_stride_span(self.extents@, self.strides@),
                1,
            );
        }
        reinterpret_as_usize(self.offset).wrapping_add(result).wrapping_add(1)
    }

    /// Reverses axis order.
    pub fn transpose(&self) -> (r: Self)
        ensures
            r@ == transpose_spec(self@),
    {
        proof {
            use_type_invariant(self);
        }
        if self.rank() <= 1 {
            let r = self.clone();
            assert(self@.extents.reverse() =~= self@.extents);
            assert(self@.strides.reverse() =~= self@.strides);
            return r;
        }
        let extents = reversed(&self.extents);
        let strides = reversed(&self.strides);
        Self { extents, strides, offset: self.offset }
    }

    /// Permutes axes according to the provided order.
    ///
    /// # Errors
    ///
    /// Returns an error when order is not a valid permutation of all axes.
    pub fn permute(&self, order: &[usize]) -> (r: Result<Self, StridedLayoutError>)
        ensures
            layout_result_view(r) == permute_spec(self@, order@),
    {
        proof {
            use_type_invariant(self);
        }
        validate_axis_permutation(order, self.rank())?;
        proof {
            lemma_complete_order_in_range(order@, self@.rank() as int);
        }
        let mut extents: Vec<usize> = Vec::with_capacity(order.len());
        let mut strides: Vec<isize> = Vec::with_capacity(order.len());
        let mut k: usize = 0;
        while k < order.len()
            invariant
                k <= order.len() == self.extents.len() == self.strides.len(),
                forall|j: int| 0 <= j < order.len() ==> order@[j] < self.extents.len(),
                extents@.len() == k,
                strides@.len() == k,
                forall|j: int| 0 <= j < k ==> extents@[j] == self.extents@[order@[j] as int],
                forall|j: int| 0 <= j < k ==> strides@[j] == self.strides@[order@[j] as int],
            decreases order.len() - k,
        {
            let axis = order[k];
            extents.push(self.extents[axis]);
            strides.push(self.strides[axis]);
            k += 1;
        }
        let r = Self { extents, strides, offset: self.offset };
        assert(r@.extents =~= permute_spec(self@, order@)->Ok_0.extents);
        assert(r@.strides =~= permute_spec(self@, order@)->Ok_0.strides);
        Ok(r)
    }

    /// Swaps two axes by index (supports negative indices).
    ///
    /// # Errors
    ///
    /// Returns an error when an axis index is out of bounds.
    pub fn matrix_transpose(&self, axis1: isize, axis2: isize) -> (r: Result<Self, StridedLayoutError>)
        ensures
            layout_result_view(r) == matrix_transpose_spec(self@, axis1, axis2),
    {
        proof {
            use_type_invariant(self);
        }
        let rank = self.rank();
        let index1 = normalize_axis_index(axis1, rank)?;
        let index2 = normalize_axis_index(axis2, rank)?;

        let mut extents = self.extents.clone();
        assert(extents@ =~= self.extents@);
        assert(extents@.len() == rank);
        let e1 = extents[index1];
        let e2 = extents[index2];
        extents.set(index1, e2);
        extents.set(index2, e1);

        let mut strides = self.strides.clone();
        assert(strides@ =~= self.strides@);
        let s1 = strides[index1];
        let s2 = strides[index2];
        strides.set(index1, s2);
        strides.set(index2, s1);

        Ok(Self { extents, strides, offset: self.offset })
    }

    /// Extracts a diagonal view from two axes.
    ///
    /// # Errors
    ///
    /// Returns an error when indices are invalid or axes are identical.
    pub fn matrix_diagonal(&self, axis1: isize, axis2: isize) -> (r: Result<Self, StridedLayoutError>)
        requires
            matrix_diagonal_fits(self@, axis1, axis2),
        ensures
            layout_result_view(r) == matrix_diagonal_spec(self@, axis1, axis2),
    {
        proof {
            use_type_invariant(self);
        }
        let rank = self.rank();
        let mut index1 = normalize_axis_index(axis1, rank)?;
        let mut index2 = normalize_axis_index(axis2, rank)?;

        if index1 == index2 {
            return Err(StridedLayoutError::AxesMustDiffer { axis1, axis2 });
        }

        if index1 > index2 {
            let tmp = index1;
            index1 = index2;
            index2 = tmp;
        }

        let mut extents: Vec<usize> = Vec::new();
        let mut strides: Vec<isize> = Vec::new();
        let mut i: usize = 0;
        while i < rank
            invariant
                rank == self.extents.len() == self.strides.len(),
                index1 <= index2 < rank,
                i <= rank,
                extents@ == without_two(self.extents@, index1 as int, index2 as int, i as int),
                strides@ == without_two(self.strides@, index1 as int, index2 as int, i as int),
                extents@.len() == strides@.len(),
            decreases rank - i,
        {
            if i != index1 && i != index2 {
                extents.push(self.extents[i]);
                strides.push(self.strides[i]);
            }
            i += 1;
        }
        let diag_extent = if self.extents[index1] <= self.extents[index2] {
            self.extents[index1]
        } else {
            self.extents[index2]
        };
        let diag_stride = self.strides[index1] + self.strides[index2];
        extents.push(diag_extent);
        strides.push(diag_stride);

        Ok(Self { extents, strides, offset: self.offset })
    }

    /// Removes axes with extent equal to one.
    pub fn squeeze(&self) -> (r: Self)
        ensures
            r@ == squeeze_spec(self@),
    {
        proof {
            use_type_invariant(self);
        }
        let mut extents: Vec<usize> = Vec::new();
        let mut strides: Vec<isize> = Vec::new();
        let mut i: usize = 0;
        while i < self.extents.len()
            invariant
                self.extents.len() == self.strides.len(),
                i <= self.extents.len(),
                (extents@, strides@) == squeeze_axes(
                    self.extents@.take(i as int),
                    self.strides@.take(i as int),
                ),
                extents@.len() == strides@.len(),
            decreases self.extents.len() - i,
        {
            proof {
                assert(self.extents@.take(i + 1).drop_last() =~= self.extents@.take(i as int));
                assert(self.strides@.take(i + 1).drop_last() =~= self.strides@.take(i as int));
            }
            let extent = self.extents[i];
            let stride = self.strides[i];
            if extent != 1 {
                extents.push(extent);
                strides.push(stride);
            }
            i += 1;
        }
        proof {
            assert(self.extents@.take(i as int) =~= self.extents@);
            assert(self.strides@.take(i as int) =~= self.strides@);
        }
        Self { extents, strides, offset: self.offset }
    }

    /// Broadcasts this layout to the target extents.
    ///
    /// # Errors
    ///
    /// Returns an error when broadcasting is not possible.
    pub fn broadcast_to(&self, extents: &[usize]) -> (r: Result<Self, StridedLayoutError>)
        ensures
            layout_result_view(r) == broadcast_to_spec(self@, extents@),
    {
        proof {
            use_type_invariant(self);
        }
        if self.extents_equal(extents) {
            proof {
                lemma_matching_extents_broadcast(self@.extents, 0);
                assert(padded_extents(self@, extents@) =~= self@.extents);
                assert(padded_strides(self@, extents@) =~= self@.strides);
                let spec_strides = broadcast_to_spec(self@, extents@)->Ok_0.strides;
                assert(spec_strides =~= self@.strides);
            }
            return Ok(self.clone());
        }

        let left_padding_axis_count = compute_broadcast_padding(self.rank(), extents.len())?;
        let (mut out_extents, mut out_strides) = initialize_broadcast_axes(
            self,
            extents,
            left_padding_axis_count,
        );
        apply_broadcast_adjustments(extents, &mut out_extents, &mut out_strides)?;
        proof {
            let spec_strides = broadcast_to_spec(self@, extents@)->Ok_0.strides;
            assert(out_extents@ =~= extents@);
            assert(out_strides@ =~= spec_strides);
        }
        Ok(Self { extents: out_extents, strides: out_strides, offset: self.offset })
    }

    /// Applies dynamic subscripts and returns the resulting layout view.
    ///
    /// # Errors
    ///
    /// Returns an error for invalid subscripts, out-of-range accesses, or
    /// incompatible slice/index combinations.
    pub fn apply_subscripts(&self, subscripts: &[DynamicSubscript]) -> (r: Result<
        Self,
        StridedLayoutError,
    >)
        requires
            apply_subscripts_fits(self@, subscripts@),
        ensures
            layout_result_view(r) == apply_subscripts_spec(self@, subscripts@),
    {
        proof {
            use_type_invariant(self);
        }
        if subscripts.len() == 0 {
            return Ok(self.clone());
        }

        let mut state = SubscriptTraversalState::new(self.offset, self.rank());
        let ellipsis_pos = find_ellipsis_position(subscripts)?;
        apply_subscript_partitions(self, subscripts, ellipsis_pos, &mut state)?;

        Ok(assemble_subscripted_layout(self, state))
    }
}

/// The elements of `v` in reverse order.
fn reversed<T: Copy>(v: &Vec<T>) -> (r: Vec<T>)
    ensures
        r@ == v@.reverse(),
{
    let mut r: Vec<T> = Vec::with_capacity(v.len());
    let mut i: usize = v.len();
    while i > 0
        invariant
            i <= v.len(),
            r@.len() == v.len() - i,
            forall|j: int| 0 <= j < r@.len() ==> r@[j] == v@[v.len() - 1 - j],
        decreases i,
    {
        i -= 1;
        r.push(v[i]);
    }
    assert(r@ =~= v@.reverse());
    r
}

/// Whether `order` lists `axis`.
fn contains_axis(order: &[usize], axis: usize) -> (r: bool)
    ensures
        r == order@.contains(axis),
{
    let mut i: usize = 0;
    while i < order.len()
        invariant
            i <= order.len(),
            forall|j: int| 0 <= j < i ==> order@[j] != axis,
        decreases order.len() - i,
    {
        if order[i] == axis {
            return true;
        }
        i += 1;
    }
    false
}

fn validate_axis_permutation(order: &[usize], count: usize) -> (r: Result<(), StridedLayoutError>)
    ensures
        match r {
            Ok(_) => order.len() == count && first_missing_axis(order@, count as int, 0) is None
                && forall|k: int| 0 <= k < count ==> #[trigger] order@.contains(k as usize),
            Err(e) => if order.len() != count {
                e == StridedLayoutError::InvalidAxisPermutationLength
            } else {
                first_missing_axis(order@, count as int, 0) matches Some(k) && e
                    == StridedLayoutError::MissingAxisInPermutation { index: k as usize }
            },
        },
{
    if order.len() != count {
        return Err(StridedLayoutError::InvalidAxisPermutationLength);
    }
    let mut expected: usize = 0;
    while expected < count
        invariant
            expected <= count == order.len(),
            first_missing_axis(order@, count as int, 0) == first_missing_axis(
                order@,
                count as int,
                expected as int,
            ),
            forall|k: int| 0 <= k < expected ==> #[trigger] order@.contains(k as usize),
        decreases count - expected,
    {
        if !contains_axis(order, expected) {
            assert(first_missing_axis(order@, count as int, expected as int) == Some(
                expected as int,
            ));
            return Err(StridedLayoutError::MissingAxisInPermutation { index: expected });
        }
        expected += 1;
    }
    Ok(())
}

/// An order of `n` entries listing each of the axes `0..n` lists nothing else.
proof fn lemma_complete_order_in_range(order: Seq<usize>, n: int)
    requires
        order.len() == n <= usize::MAX,
        forall|k: int| 0 <= k < n ==> #[trigger] order.contains(k as usize),
    ensures
        forall|j: int| 0 <= j < n ==> order[j] < n,
{
    let as_int = order.map_values(|x: usize| x as int);
    let listed = as_int.to_set();
    let range = vstd::set_lib::set_int_range(0, n);
    assert forall|k: int| range.contains(k) implies listed.contains(k) by {
        assert(order.contains(k as usize));
        let j = choose|j: int| 0 <= j < order.len() && order[j] == k as usize;
        assert(as_int[j] == k);
    }
    as_int.lemma_cardinality_of_set();
    vstd::set_lib::lemma_int_range(0, n);
    vstd::set_lib::lemma_len_subset(range, listed);
    vstd::set_lib::lemma_subset_equality(range, listed);
    assert forall|j: int| 0 <= j < n implies order[j] < n by {
        assert(listed.contains(as_int[j]));
        assert(range.contains(as_int[j]));
    }
}

fn normalize_axis_index(index: isize, extent: usize) -> (r: Result<usize, StridedLayoutError>)
    ensures
        match (r, normalize_axis_spec(index, extent)) {
            (Ok(k), Ok(v)) => k == v,
            (Err(e1), Err(e2)) => e1 == e2,
            _ => false,
        },
        r matches Ok(k) ==> k < extent,
{
    proof {
        lemma_machine_integer_bounds();
    }
    let signed_extent = wrapped_isize_wide(extent);
    if index < 0 {
        if (index as i128) < -signed_extent {
            return Err(StridedLayoutError::ReverseIndexOutOfBounds { index, extent });
        }
        return Ok((index as i128 + signed_extent) as usize);
    }
    if index as i128 >= signed_extent {
        return Err(StridedLayoutError::IndexOutOfBounds { index, extent });
    }
    Ok(index as usize)
}

fn compute_broadcast_padding(rank: usize, target_rank: usize) -> (r: Result<usize, StridedLayoutError>)
    ensures
        match r {
            Ok(p) => rank <= target_rank && p == target_rank - rank,
            Err(e) => rank > target_rank && e == (StridedLayoutError::BroadcastRankMismatch {
                rank,
                target_rank,
            }),
        },
{
    if rank > target_rank {
        return Err(StridedLayoutError::BroadcastRankMismatch { rank, target_rank });
    }
    Ok(target_rank - rank)
}

fn initialize_broadcast_axes(layout: &StridedLayout, target_extents: &[usize], padding: usize) -> (r: (
    Vec<usize>,
    Vec<isize>,
))
    requires
        padding == target_extents.len() - layout@.rank(),
        layout@.wf(),
    ensures
        r.0@ == padded_extents(layout@, target_extents@),
        r.1@ == padded_strides(layout@, target_extents@),
{
    proof {
        use_type_invariant(layout);
    }
    let mut out_extents: Vec<usize> = Vec::with_capacity(target_extents.len());
    let mut out_strides: Vec<isize> = Vec::with_capacity(target_extents.len());
    let mut i: usize = 0;
    while i < padding
        invariant
            padding <= target_extents.len(),
            i <= padding,
            out_extents@ == target_extents@.take(i as int),
            out_strides@ == Seq::new(i as nat, |j: int| 0isize),
        decreases padding - i,
    {
        out_extents.push(target_extents[i]);
        out_strides.push(0);
        i += 1;
        assert(out_extents@ =~= target_extents@.take(i as int));
        assert(out_strides@ =~= Seq::new(i as nat, |j: int| 0isize));
    }
    let mut k: usize = 0;
    while k < layout.extents.len()
        invariant
            layout.extents.len() == layout.strides.len(),
            k <= layout.extents.len(),
            out_extents@ == target_extents@.take(padding as int) + layout.extents@.take(k as int),
            out_strides@ == Seq::new(padding as nat, |j: int| 0isize) + layout.strides@.take(
                k as int,
            ),
        decreases layout.extents.len() - k,
    {
        out_extents.push(layout.extents[k]);
        out_strides.push(layout.strides[k]);
        k += 1;
        assert(out_extents@ =~= target_extents@.take(padding as int) + layout.extents@.take(
            k as int,
        ));
        assert(out_strides@ =~= Seq::new(padding as nat, |j: int| 0isize) + layout.strides@.take(
            k as int,
        ));
    }
    assert(layout.extents@.take(k as int) =~= layout.extents@);
    assert(layout.strides@.take(k as int) =~= layout.strides@);
    (out_extents, out_strides)
}

fn apply_broadcast_adjustments(
    target_extents: &[usize],
    out_extents: &mut Vec<usize>,
    out_strides: &mut Vec<isize>,
) -> (r: Result<(), StridedLayoutError>)
    requires
        old(out_extents)@.len() == target_extents@.len(),
        old(out_strides)@.len() == target_extents@.len(),
    ensures
        match first_unbroadcastable_axis(old(out_extents)@, target_extents@, 0) {
            Some(i) => r == Err::<(), StridedLayoutError>(
                StridedLayoutError::AxisNotBroadcastable {
                    axis_extent: old(out_extents)@[i],
                    target_extent: target_extents@[i],
                },
            ),
            None => {
                &&& r is Ok
                &&& final(out_extents)@ == target_extents@
                &&& final(out_strides)@ == Seq::new(
                    target_extents@.len(),
                    |i: int|
                        if old(out_extents)@[i] == target_extents@[i] {
                            old(out_strides)@[i]
                        } else {
                            0isize
                        },
                )
            },
        },
{
    let ghost pe = out_extents@;
    let ghost ps = out_strides@;
    let mut i: usize = 0;
    while i < target_extents.len()
        invariant
            i <= target_extents.len() == out_extents@.len() == out_strides@.len() == pe.len()
                == ps.len(),
            pe == old(out_extents)@,
            ps == old(out_strides)@,
            first_unbroadcastable_axis(pe, target_extents@, 0) == first_unbroadcastable_axis(
                pe,
                target_extents@,
                i as int,
            ),
            forall|j: int| 0 <= j < i ==> out_extents@[j] == target_extents@[j],
            forall|j: int|
                0 <= j < i ==> out_strides@[j] == (if pe[j] == target_extents@[j] {
                    ps[j]
                } else {
                    0isize
                }),
            forall|j: int| i <= j < pe.len() ==> out_extents@[j] == pe[j] && out_strides@[j] == ps[j],
        decreases target_extents.len() - i,
    {
        let target_extent = target_extents[i];
        let axis_extent = out_extents[i];
        if axis_extent == target_extent {
            i += 1;
            continue;
        }
        if axis_extent != 1 {
            assert(first_unbroadcastable_axis(pe, target_extents@, i as int) == Some(i as int));
            return Err(StridedLayoutError::AxisNotBroadcastable { axis_extent, target_extent });
        }
        out_extents.set(i, target_extent);
        out_strides.set(i, 0);
        i += 1;
    }
    assert(out_extents@ =~= target_extents@);
    assert(out_strides@ =~= Seq::new(
        target_extents@.len(),
        |i: int|
            if pe[i] == target_extents@[i] {
                ps[i]
            } else {
                0isize
            },
    ));
    Ok(())
}

struct SubscriptTraversalState {
    offset: isize,
    left_axis: usize,
    right_axis: usize,
    left_output_extents: Vec<usize>,
    left_output_strides: Vec<isize>,
    right_output_extents: Vec<usize>,
    right_output_strides: Vec<isize>,
}

impl SubscriptTraversalState {
    spec fn progress(&self) -> SubscriptProgress {
        SubscriptProgress {
            offset: self.offset,
            left_axis: self.left_axis as int,
            right_axis: self.right_axis as int,
            left_extents: self.left_output_extents@,
            left_strides: self.left_output_strides@,
            right_extents: self.right_output_extents@,
            right_strides: self.right_output_strides@,
        }
    }

    fn new(offset: isize, rank: usize) -> (r: Self)
        ensures
            r.progress() == (SubscriptProgress {
                offset,
                left_axis: 0,
                right_axis: rank as int,
                left_extents: Seq::empty(),
                left_strides: Seq::empty(),
                right_extents: Seq::empty(),
                right_strides: Seq::empty(),
            }),
    {
        Self {
            offset,
            left_axis: 0,
            right_axis: rank,
            left_output_extents: Vec::new(),
            left_output_strides: Vec::new(),
            right_output_extents: Vec::new(),
            right_output_strides: Vec::new(),
        }
    }
}

fn find_ellipsis_position(subscripts: &[DynamicSubscript]) -> (r: Result<
    Option<usize>,
    StridedLayoutError,
>)
    ensures
        match r {
            Err(e) => e == StridedLayoutError::MultipleEllipsis && has_repeated_ellipsis(
                subscripts@,
            ),
            Ok(None) => forall|i: int|
                0 <= i < subscripts@.len() ==> !(#[trigger] subscripts@[i] is Ellipsis),
            Ok(Some(p)) => p < subscripts@.len() && subscripts@[p as int] is Ellipsis && forall|
                i: int,
            |
                0 <= i < subscripts@.len() && i != p ==> !(#[trigger] subscripts@[i] is Ellipsis),
        },
{
    let mut ellipsis_pos: Option<usize> = None;
    let mut index: usize = 0;
    while index < subscripts.len()
        invariant
            index <= subscripts.len(),
            match ellipsis_pos {
                None => forall|i: int| 0 <= i < index ==> !(#[trigger] subscripts@[i] is Ellipsis),
                Some(p) => p < index && subscripts@[p as int] is Ellipsis && forall|i: int|
                    0 <= i < index && i != p ==> !(#[trigger] subscripts@[i] is Ellipsis),
            },
        decreases subscripts.len() - index,
    {
        if let DynamicSubscript::Ellipsis = &subscripts[index] {
            if let Some(p) = ellipsis_pos {
                assert(subscripts@[p as int] is Ellipsis && subscripts@[index as int] is Ellipsis);
                return Err(StridedLayoutError::MultipleEllipsis);
            }
            ellipsis_pos = Some(index);
        }
        index += 1;
    }
    Ok(ellipsis_pos)
}

fn apply_subscript_partitions(
    layout: &StridedLayout,
    subscripts: &[DynamicSubscript],
    ellipsis_pos: Option<usize>,
    state: &mut SubscriptTraversalState,
) -> (r: Result<(), StridedLayoutError>)
    requires
        subscripts@.len() > 0,
        !has_repeated_ellipsis(subscripts@),
        match ellipsis_pos {
            Some(p) => ellipsis_position(subscripts@) == Some(p as int),
            None => ellipsis_position(subscripts@) is None,
        },
        old(state).progress() == initial_progress(layout@),
        apply_subscripts_fits(layout@, subscripts@),
    ensures
        match forward_fold(layout@, initial_progress(layout@), leading_subscripts(subscripts@)) {
            Err(e) => r == Err::<(), StridedLayoutError>(e),
            Ok(p) => match backward_fold(layout@, p, trailing_subscripts(subscripts@)) {
                Err(e) => r == Err::<(), StridedLayoutError>(e),
                Ok(q) => r is Ok && final(state).progress() == q,
            },
        },
        r is Ok ==> progress_wf(layout@, final(state).progress()),
{
    proof {
        use_type_invariant(layout);
    }
    if let Some(ellipsis_pos) = ellipsis_pos {
        assert(ellipsis_pos < subscripts.len()) by {
            let q = choose|q: int| 0 <= q < subscripts@.len() && #[trigger] subscripts@[q] is Ellipsis;
            assert(ellipsis_position(subscripts@) == Some(q));
        }
        let leading = vstd::slice::slice_subrange(subscripts, 0, ellipsis_pos);
        let trailing = vstd::slice::slice_subrange(subscripts, ellipsis_pos + 1, subscripts.len());
        assert(leading@ =~= leading_subscripts(subscripts@));
        assert(trailing@ =~= trailing_subscripts(subscripts@));
        apply_leading_subscripts(layout, leading, state)?;
        apply_trailing_subscripts(layout, trailing, state)?;
        return Ok(());
    }
    assert(trailing_subscripts(subscripts@) =~= Seq::<DynamicSubscript>::empty());
    apply_leading_subscripts(layout, subscripts, state)
}

fn apply_leading_subscripts(
    layout: &StridedLayout,
    subscripts: &[DynamicSubscript],
    state: &mut SubscriptTraversalState,
) -> (r: Result<(), StridedLayoutError>)
    requires
        progress_wf(layout@, old(state).progress()),
        forward_fits(layout@, old(state).progress(), subscripts@),
    ensures
        match forward_fold(layout@, old(state).progress(), subscripts@) {
            Err(e) => r == Err::<(), StridedLayoutError>(e),
            Ok(p) => r is Ok && final(state).progress() == p,
        },
        r is Ok ==> progress_wf(layout@, final(state).progress()),
{
    let mut i: usize = 0;
    assert(subscripts@.skip(0) =~= subscripts@);
    while i < subscripts.len()
        invariant
            i <= subscripts.len(),
            progress_wf(layout@, state.progress()),
            forward_fold(layout@, state.progress(), subscripts@.skip(i as int)) == forward_fold(
                layout@,
                old(state).progress(),
                subscripts@,
            ),
            forward_fits(layout@, state.progress(), subscripts@.skip(i as int)),
        decreases subscripts.len() - i,
    {
        assert(subscripts@.skip(i as int).drop_first() =~= subscripts@.skip(i + 1));
        apply_subscript_forward(
            layout,
            &subscripts[i],
            &mut state.left_axis,
            state.right_axis,
            &mut state.offset,
            &mut state.left_output_extents,
            &mut state.left_output_strides,
        )?;
        i += 1;
    }
    assert(subscripts@.skip(i as int) =~= Seq::<DynamicSubscript>::empty());
    Ok(())
}

fn apply_trailing_subscripts(
    layout: &StridedLayout,
    subscripts: &[DynamicSubscript],
    state: &mut SubscriptTraversalState,
) -> (r: Result<(), StridedLayoutError>)
    requires
        progress_wf(layout@, old(state).progress()),
        backward_fits(layout@, old(state).progress(), subscripts@),
    ensures
        match backward_fold(layout@, old(state).progress(), subscripts@) {
            Err(e) => r == Err::<(), StridedLayoutError>(e),
            Ok(p) => r is Ok && final(state).progress() == p,
        },
        r is Ok ==> progress_wf(layout@, final(state).progress()),
{
    let mut i: usize = subscripts.len();
    assert(subscripts@.take(i as int) =~= subscripts@);
    while i > 0
        invariant
            i <= subscripts.len(),
            progress_wf(layout@, state.progress()),
            backward_fold(layout@, state.progress(), subscripts@.take(i as int)) == backward_fold(
                layout@,
                old(state).progress(),
                subscripts@,
            ),
            backward_fits(layout@, state.progress(), subscripts@.take(i as int)),
        decreases i,
    {
        assert(subscripts@.take(i as int).drop_last() =~= subscripts@.take(i - 1));
        assert(subscripts@.take(i as int).last() == subscripts@[i - 1]);
        apply_subscript_backward(
            layout,
            &subscripts[i - 1],
            state.left_axis,
            &mut state.right_axis,
            &mut state.offset,
            &mut state.right_output_extents,
            &mut state.right_output_strides,
        )?;
        i -= 1;
    }
    assert(subscripts@.take(0) =~= Seq::<DynamicSubscript>::empty());
    Ok(())
}

fn assemble_subscripted_layout(layout: &StridedLayout, state: SubscriptTraversalState) -> (r:
    StridedLayout)
    requires
        progress_wf(layout@, state.progress()),
    ensures
        r@ == assemble_spec(layout@, state.progress()),
{
    proof {
        use_type_invariant(layout);
    }
    let mut state = state;
    let mut extents: Vec<usize> = Vec::new();
    let mut strides: Vec<isize> = Vec::new();

    extents.extend_from_slice(state.left_output_extents.as_slice());
    strides.extend_from_slice(state.left_output_strides.as_slice());
    assert(extents@ =~= state.left_output_extents@);
    assert(strides@ =~= state.left_output_strides@);

    let mut i = state.left_axis;
    while i < state.right_axis
        invariant
            state.left_axis <= i <= state.right_axis <= layout.extents.len()
                == layout.strides.len(),
            extents@ == state.left_output_extents@ + layout.extents@.subrange(
                state.left_axis as int,
                i as int,
            ),
            strides@ == state.left_output_strides@ + layout.strides@.subrange(
                state.left_axis as int,
                i as int,
            ),
        decreases state.right_axis - i,
    {
        extents.push(layout.extents[i]);
        strides.push(layout.strides[i]);
        i += 1;
        assert(extents@ =~= state.left_output_extents@ + layout.extents@.subrange(
            state.left_axis as int,
            i as int,
        ));
        assert(strides@ =~= state.left_output_strides@ + layout.strides@.subrange(
            state.left_axis as int,
            i as int,
        ));
    }

    let right_extents = reversed(&state.right_output_extents);
    let right_strides = reversed(&state.right_output_strides);
    let ghost before_extents = extents@;
    let ghost before_strides = strides@;
    extents.extend_from_slice(right_extents.as_slice());
    strides.extend_from_slice(right_strides.as_slice());
    assert(extents@ =~= before_extents + right_extents@);
    assert(strides@ =~= before_strides + right_strides@);

    StridedLayout { extents, strides, offset: state.offset }
}

fn apply_subscript_forward(
    layout: &StridedLayout,
    subscript: &DynamicSubscript,
    left_axis: &mut usize,
    right_axis: usize,
    offset: &mut isize,
    out_extents: &mut Vec<usize>,
    out_strides: &mut Vec<isize>,
) -> (r: Result<(), StridedLayoutError>)
    requires
        *old(left_axis) <= right_axis <= layout@.rank(),
        forward_step_fits(
            layout@,
            SubscriptProgress {
                offset: *old(offset),
                left_axis: *old(left_axis) as int,
                right_axis: right_axis as int,
                left_extents: old(out_extents)@,
                left_strides: old(out_strides)@,
                right_extents: Seq::empty(),
                right_strides: Seq::empty(),
            },
            *subscript,
        ),
    ensures
        match forward_step_spec(
            layout@,
            SubscriptProgress {
                offset: *old(offset),
                left_axis: *old(left_axis) as int,
                right_axis: right_axis as int,
                left_extents: old(out_extents)@,
                left_strides: old(out_strides)@,
                right_extents: Seq::empty(),
                right_strides: Seq::empty(),
            },
            *subscript,
        ) {
            Err(e) => r == Err::<(), StridedLayoutError>(e),
            Ok(p) => {
                &&& r is Ok
                &&& *final(offset) == p.offset
                &&& *final(left_axis) == p.left_axis
                &&& final(out_extents)@ == p.left_extents
                &&& final(out_strides)@ == p.left_strides
            },
        },
{
    match subscript {
        DynamicSubscript::Ellipsis => Ok(()),
        DynamicSubscript::NewAxis => {
            out_extents.push(1);
            out_strides.push(0);
            Ok(())
        },
        DynamicSubscript::Index(index) => {
            ensure_axis_available_for_index(*left_axis, right_axis)?;
            apply_index(layout, *left_axis, *index, offset)?;
            *left_axis += 1;
            Ok(())
        },
        DynamicSubscript::Slice(slice) => {
            ensure_axis_available_for_slice(*left_axis, right_axis)?;
            let (extent, stride) = apply_slice(layout, *left_axis, *slice, offset)?;
            out_extents.push(extent);
            out_strides.push(stride);
            *left_axis += 1;
            Ok(())
        },
    }
}

fn apply_subscript_backward(
    layout: &StridedLayout,
    subscript: &DynamicSubscript,
    left_axis: usize,
    right_axis: &mut usize,
    offset: &mut isize,
    out_extents: &mut Vec<usize>,
    out_strides: &mut Vec<isize>,
) -> (r: Result<(), StridedLayoutError>)
    requires
        left_axis <= *old(right_axis) <= layout@.rank(),
        backward_step_fits(
            layout@,
            SubscriptProgress {
                offset: *old(offset),
                left_axis: left_axis as int,
                right_axis: *old(right_axis) as int,
                left_extents: Seq::empty(),
                left_strides: Seq::empty(),
                right_extents: old(out_extents)@,
                right_strides: old(out_strides)@,
            },
            *subscript,
        ),
    ensures
        match backward_step_spec(
            layout@,
            SubscriptProgress {
                offset: *old(offset),
                left_axis: left_axis as int,
                right_axis: *old(right_axis) as int,
                left_extents: Seq::empty(),
                left_strides: Seq::empty(),
                right_extents: old(out_extents)@,
                right_strides: old(out_strides)@,
            },
            *subscript,
        ) {
            Err(e) => r == Err::<(), StridedLayoutError>(e),
            Ok(p) => {
                &&& r is Ok
                &&& *final(offset) == p.offset
                &&& *final(right_axis) == p.right_axis
                &&& final(out_extents)@ == p.right_extents
                &&& final(out_strides)@ == p.right_strides
            },
        },
{
    match subscript {
        DynamicSubscript::Ellipsis => Err(StridedLayoutError::MultipleEllipsis),
        DynamicSubscript::NewAxis => {
            out_extents.push(1);
            out_strides.push(0);
            Ok(())
        },
        DynamicSubscript::Index(index) => {
            ensure_axis_available_for_index(left_axis, *right_axis)?;
            let axis_index = *right_axis - 1;
            apply_index(layout, axis_index, *index, offset)?;
            *right_axis -= 1;
            Ok(())
        },
        DynamicSubscript::Slice(slice) => {
            ensure_axis_available_for_slice(left_axis, *right_axis)?;
            let axis_index = *right_axis - 1;
            let (extent, stride) = apply_slice(layout, axis_index, *slice, offset)?;
            out_extents.push(extent);
            out_strides.push(stride);
            *right_axis -= 1;
            Ok(())
        },
    }
}

fn ensure_axis_available_for_index(left_axis: usize, right_axis: usize) -> (r: Result<
    (),
    StridedLayoutError,
>)
    ensures
        r is Err <==> left_axis == right_axis,
        r matches Err(e) ==> e == StridedLayoutError::NoMoreAxesForIndex,
{
    if left_axis == right_axis {
        return Err(StridedLayoutError::NoMoreAxesForIndex);
    }
    Ok(())
}

fn ensure_axis_available_for_slice(left_axis: usize, right_axis: usize) -> (r: Result<
    (),
    StridedLayoutError,
>)
    ensures
        r is Err <==> left_axis == right_axis,
        r matches Err(e) ==> e == StridedLayoutError::NoMoreAxesForSlice,
{
    if left_axis == right_axis {
        return Err(StridedLayoutError::NoMoreAxesForSlice);
    }
    Ok(())
}

fn apply_index(layout: &StridedLayout, axis_index: usize, index: isize, offset: &mut isize) -> (r:
    Result<(), StridedLayoutError>)
    requires
        axis_index < layout@.rank(),
        index_offset_fits(layout@, axis_index as int, index, *old(offset)),
    ensures
        match index_offset_spec(layout@, axis_index as int, index, *old(offset)) {
            Err(e) => r == Err::<(), StridedLayoutError>(e),
            Ok(o) => r is Ok && *final(offset) == o,
        },
{
    proof {
        use_type_invariant(layout);
    }
    let sanitized_index = normalize_axis_index(index, layout.extents[axis_index])?;
    let product = wide_mul_unsigned(layout.strides[axis_index], sanitized_index);
    proof {
        lemma_machine_integer_bounds();
    }
    let moved = *offset as i128 + product;
    *offset = moved as isize;
    Ok(())
}

fn apply_slice(layout: &StridedLayout, axis_index: usize, slice: Slice, offset: &mut isize) -> (r:
    Result<(usize, isize), StridedLayoutError>)
    requires
        axis_index < layout@.rank(),
        slice_axis_fits(layout@, axis_index as int, slice, *old(offset)),
    ensures
        match slice_axis_spec(layout@, axis_index as int, slice, *old(offset)) {
            Err(e) => r == Err::<(usize, isize), StridedLayoutError>(e),
            Ok((o, extent, stride)) => r == Ok::<(usize, isize), StridedLayoutError>(
                (extent, stride),
            ) && *final(offset) == o,
        },
{
    proof {
        use_type_invariant(layout);
    }
    let sanitized_slice = match sanitize_slice(slice, layout.extents[axis_index]) {
        Ok(s) => s,
        Err(e) => return Err(StridedLayoutError::InvalidSlice(e)),
    };
    let moved = *offset as i128 + wide_mul(layout.strides[axis_index], sanitized_slice.start());
    *offset = moved as isize;
    let new_extent = sanitized_slice.count();
    let new_stride = wide_mul(layout.strides[axis_index], sanitized_slice.step()) as isize;
    Ok((new_extent, new_stride))
}

impl Clone for StridedLayout {
    /// A copy of the layout, with the same extents, strides and offset.
    fn clone(&self) -> (r: Self)
        ensures
            r@ == self@,
    {
        proof {
            use_type_invariant(self);
        }
        let extents = self.extents.clone();
        let strides = self.strides.clone();
        assert(extents@ =~= self.extents@);
        assert(strides@ =~= self.strides@);
        Self { extents, strides, offset: self.offset }
    }
}

impl Default for StridedLayout {
    /// The layout without axes, at offset zero.
    fn default() -> (r: Self)
        ensures
            r@ == empty_layout(),
    {
        Self { extents: Vec::new(), strides: Vec::new(), offset: 0 }
    }
}

impl PartialEq for StridedLayout {
    fn eq(&self, other: &Self) -> (r: bool) {
        proof {
            use_type_invariant(self);
            use_type_invariant(other);
        }
        if self.offset != other.offset {
            return false;
        }
        if self.extents.len() != other.extents.len() {
            return false;
        }
        let mut i: usize = 0;
        while i < self.extents.len()
            invariant
                self.extents.len() == self.strides.len() == other.extents.len()
                    == other.strides.len(),
                i <= self.extents.len(),
                forall|j: int|
                    0 <= j < i ==> #[trigger] self@.extents[j] == other@.extents[j] && (
                    self@.extents[j] != 1 ==> self@.strides[j] == other@.strides[j]),
            decreases self.extents.len() - i,
        {
            let extent = self.extents[i];
            if extent != other.extents[i] {
                return false;
            }
            if extent != 1 && self.strides[i] != other.strides[i] {
                return false;
            }
            i += 1;
        }
        true
    }
}

impl vstd::std_specs::cmp::PartialEqSpecImpl for StridedLayout {
    open spec fn obeys_eq_spec() -> bool {
        true
    }

    open spec fn eq_spec(&self, other: &Self) -> bool {
        layouts_equal(self@, other@)
    }
}

impl Eq for StridedLayout {

}

impl core::hash::Hash for StridedLayout {
    fn hash<H: core::hash::Hasher>(&self, state: &mut H) {
        proof {
            use_type_invariant(self);
        }
        feed_isize(self.offset, state);
        let mut i: usize = 0;
        while i < self.extents.len()
            invariant
                self.extents.len() == self.strides.len(),
                i <= self.extents.len(),
            decreases self.extents.len() - i,
        {
            let extent = self.extents[i];
            feed_usize(extent, state);
            feed_isize(canonical_stride_of(extent, self.strides[i]), state);
            i += 1;
        }
    }
}

/// The stride of an axis as it takes part in hashing.
fn canonical_stride_of(extent: usize, stride: isize) -> (r: isize)
    ensures
        r == canonical_stride(extent, stride),
{
    if extent == 1 {
        0
    } else {
        stride
    }
}

/// Feeds an `isize` to a hasher through `<isize as Hash>::hash`; what the hasher does with it
/// is left unstated.
#[verifier::external_body]
fn feed_isize<H: core::hash::Hasher>(value: isize, state: &mut H) {
    core::hash::Hash::hash(&value, state)
}

/// Feeds a `usize` to a hasher through `<usize as Hash>::hash`; what the hasher does with it
/// is left unstated.
#[verifier::external_body]
fn feed_usize<H: core::hash::Hasher>(value: usize, state: &mut H) {
    core::hash::Hash::hash(&value, state)
}

/// `a * b` exactly, in `i128`.
fn wide_mul(a: isize, b: isize) -> (r: i128)
    ensures
        r == a * b,
{
    proof {
        lemma_machine_integer_bounds();
    }
    assert(-0x4000_0000_0000_0000_0000_0000_0000_0000 <= a * b
        <= 0x4000_0000_0000_0000_0000_0000_0000_0000) by (nonlinear_arith)
        requires
            -0x8000_0000_0000_0000 <= a <= 0x8000_0000_0000_0000,
            -0x8000_0000_0000_0000 <= b <= 0x8000_0000_0000_0000,
    ;
    a as i128 * b as i128
}

/// `a * b` exactly, in `i128`, for an unsigned `b`.
fn wide_mul_unsigned(a: isize, b: usize) -> (r: i128)
    ensures
        r == a * b,
        -0x8000_0000_0000_0000 * 0xffff_ffff_ffff_ffff <= r <= 0x8000_0000_0000_0000
            * 0xffff_ffff_ffff_ffff,
{
    proof {
        lemma_machine_integer_bounds();
    }
    assert(-0x8000_0000_0000_0000 * 0xffff_ffff_ffff_ffff <= a * b <= 0x8000_0000_0000_0000
        * 0xffff_ffff_ffff_ffff) by (nonlinear_arith)
        requires
            -0x8000_0000_0000_0000 <= a <= 0x8000_0000_0000_0000,
            0 <= b <= 0xffff_ffff_ffff_ffff,
    ;
    a as i128 * b as i128
}

/// `stride * (extent as isize)` clamped to the range of `isize`.
fn saturating_mul_extent(stride: isize, extent: usize) -> (r: isize)
    ensures
        r == saturating_mul_spec(stride as int, wrapped_isize(extent)),
{
    proof {
        lemma_machine_integer_bounds();
    }
    let signed_extent = wrapped_isize_wide(extent) as isize;
    let product = wide_mul(stride, signed_extent);
    if product > isize::MAX as i128 {
        isize::MAX
    } else if product < isize::MIN as i128 {
        isize::MIN
    } else {
        product as isize
    }
}

/// Reinterprets an `isize` as a `usize` (the value of `x as usize`), without a truncating cast.
fn reinterpret_as_usize(x: isize) -> (r: usize)
    ensures
        r == wrap_usize(x as int),
{
    if x >= 0 {
        proof {
            vstd::arithmetic::div_mod::lemma_small_mod(x as nat, usize_modulus() as nat);
        }
        x as usize
    } else {
        let shifted = (x - isize::MIN) as usize;
        proof {
            vstd::arithmetic::div_mod::lemma_small_mod(
                (x + usize_modulus()) as nat,
                usize_modulus() as nat,
            );
            lemma_mod_add_multiples_vanish(x as int, usize_modulus());
        }
        shifted + isize::MAX as usize + 1
    }
}

proof fn lemma_wrapping_add_usize(a: usize, b: usize, x: int, y: int)
    requires
        a == wrap_usize(x),
        b == wrap_usize(y),
    ensures
        vstd::wrapping::usize_specs::wrapping_add(a, b) == wrap_usize(x + y),
{
    let m = usize_modulus();
    lemma_add_mod_noop(x, y, m);
    lemma_mod_bound(x, m);
    lemma_mod_bound(y, m);
    if a + b > usize::MAX {
        lemma_mod_add_multiples_vanish(a + b - m, m);
        vstd::arithmetic::div_mod::lemma_small_mod((a + b - m) as nat, m as nat);
    } else {
        vstd::arithmetic::div_mod::lemma_small_mod((a + b) as nat, m as nat);
    }
}

proof fn lemma_wrap_usize_add(x: int, y: int, z: int)
    ensures
        vstd::wrapping::usize_specs::wrapping_add(
            vstd::wrapping::usize_specs::wrapping_add(wrap_usize(x), wrap_usize(y)),
            wrap_usize(z),
        ) == wrap_usize(x + y + z),
{
    lemma_mod_bound(x, usize_modulus());
    lemma_mod_bound(y, usize_modulus());
    lemma_mod_bound(z, usize_modulus());
    lemma_wrapping_add_usize(wrap_usize(x), wrap_usize(y), x, y);
    lemma_wrapping_add_usize(
        vstd::wrapping::usize_specs::wrapping_add(wrap_usize(x), wrap_usize(y)),
        wrap_usize(z),
        x + y,
        z,
    );
}

} // verus!
