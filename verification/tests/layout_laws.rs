// SPDX-License-Identifier: GPL-3.0-only

use std::collections::hash_map::DefaultHasher;
use std::hash::{Hash, Hasher};
use xmipp4_core_types::c_api::{from_c_numerical_type, to_c_numerical_type};
use xmipp4_core_types::subscript::{all, ellipsis, end, make_slice_full, new_axis};
use xmipp4_core_types::{
    compute_storage_requirement, ArrayDescriptor, DynamicSubscript, NumericalType, SliceError,
    StridedLayout, StridedLayoutError,
};

fn sample_layout() -> StridedLayout {
    StridedLayout::new(vec![4, 1, 3, 2], vec![6, 99, 2, 1], 7).expect("valid layout")
}

fn hash_of(layout: &StridedLayout) -> u64 {
    let mut hasher = DefaultHasher::new();
    layout.hash(&mut hasher);
    hasher.finish()
}

#[test]
fn transpose_twice_gives_back_layout() {
    let layout = sample_layout();
    let twice = layout.transpose().transpose();
    assert_eq!(twice.extents(), layout.extents());
    assert_eq!(twice.strides(), layout.strides());
    assert_eq!(twice.offset(), layout.offset());
}

#[test]
fn transpose_matches_reversing_permutation() {
    let layout = sample_layout();
    let permuted = layout.permute(&[3, 2, 1, 0]).expect("valid permutation");
    let transposed = layout.transpose();
    assert_eq!(permuted.extents(), transposed.extents());
    assert_eq!(permuted.strides(), transposed.strides());
    assert_eq!(permuted.extents(), &[2, 3, 1, 4]);
    assert_eq!(permuted.strides(), &[1, 2, 99, 6]);
}

#[test]
fn identity_permutation_keeps_layout() {
    let layout = sample_layout();
    let permuted = layout.permute(&[0, 1, 2, 3]).expect("valid permutation");
    assert_eq!(permuted.extents(), layout.extents());
    assert_eq!(permuted.strides(), layout.strides());
    assert_eq!(permuted.offset(), 7);
}

#[test]
fn matrix_transpose_twice_gives_back_layout() {
    let layout = sample_layout();
    let once = layout.matrix_transpose(0, -1).expect("valid axes");
    assert_eq!(once.extents(), &[2, 1, 3, 4]);
    assert_eq!(once.strides(), &[1, 99, 2, 6]);
    let twice = once.matrix_transpose(0, -1).expect("valid axes");
    assert_eq!(twice.extents(), layout.extents());
    assert_eq!(twice.strides(), layout.strides());
    let swapped = layout.matrix_transpose(-1, 0).expect("valid axes");
    assert_eq!(swapped.extents(), once.extents());
    assert_eq!(swapped.strides(), once.strides());
}

#[test]
fn matrix_transpose_rejects_reverse_index_out_of_bounds() {
    let layout = sample_layout();
    let error = layout.matrix_transpose(-5, 0).expect_err("must fail");
    assert_eq!(
        error,
        StridedLayoutError::ReverseIndexOutOfBounds {
            index: -5,
            extent: 4,
        }
    );
}

#[test]
fn matrix_diagonal_rejects_one_axis_named_twice() {
    let layout = sample_layout();
    let error = layout.matrix_diagonal(-1, 3).expect_err("same axis");
    assert_eq!(error, StridedLayoutError::AxesMustDiffer { axis1: -1, axis2: 3 });
    let error = layout.matrix_diagonal(0, -4).expect_err("same axis");
    assert_eq!(error, StridedLayoutError::AxesMustDiffer { axis1: 0, axis2: -4 });
    let error = layout.matrix_diagonal(2, 2).expect_err("same axis");
    assert_eq!(error, StridedLayoutError::AxesMustDiffer { axis1: 2, axis2: 2 });

    let six_axes = StridedLayout::new(
        vec![120, 56, 24, 1, 10, 8],
        vec![860_160, 7_680, 320, 160, 16, 2],
        20,
    )
    .expect("valid layout");
    let error = six_axes.matrix_diagonal(-6, 0).expect_err("same axis");
    assert_eq!(error, StridedLayoutError::AxesMustDiffer { axis1: -6, axis2: 0 });
    let error = six_axes.matrix_diagonal(-1, 5).expect_err("same axis");
    assert_eq!(error, StridedLayoutError::AxesMustDiffer { axis1: -1, axis2: 5 });
    let error = six_axes.matrix_diagonal(6, 0).expect_err("out of range");
    assert_eq!(error, StridedLayoutError::IndexOutOfBounds { index: 6, extent: 6 });
}

#[test]
fn matrix_diagonal_accepts_distinct_axes_named_from_either_end() {
    let layout = sample_layout();
    let from_end = layout.matrix_diagonal(-4, -2).expect("distinct axes");
    let from_start = layout.matrix_diagonal(0, 2).expect("distinct axes");
    assert_eq!(from_end.extents(), from_start.extents());
    assert_eq!(from_end.strides(), from_start.strides());
}

#[test]
fn matrix_diagonal_takes_smaller_extent() {
    let layout = sample_layout();
    let diagonal = layout.matrix_diagonal(0, 2).expect("valid axes");
    assert_eq!(diagonal.extents(), &[1, 2, 3]);
    assert_eq!(diagonal.strides(), &[99, 1, 8]);
    assert_eq!(diagonal.offset(), 7);
}

#[test]
fn squeeze_is_idempotent_and_keeps_product() {
    let layout = StridedLayout::new(vec![1, 4, 1, 3, 1], vec![5, 6, 7, 2, 9], 1).expect("valid");
    let squeezed = layout.squeeze();
    assert_eq!(squeezed.extents(), &[4, 3]);
    assert_eq!(squeezed.strides(), &[6, 2]);
    let again = squeezed.squeeze();
    assert_eq!(again.extents(), squeezed.extents());
    assert_eq!(again.strides(), squeezed.strides());
    assert_eq!(squeezed.compute_element_count(), layout.compute_element_count());
}

#[test]
fn squeeze_of_all_unit_axes_leaves_no_axis() {
    let layout = StridedLayout::new(vec![1, 1], vec![3, 4], 2).expect("valid");
    let squeezed = layout.squeeze();
    assert_eq!(squeezed.rank(), 0);
    assert_eq!(squeezed.offset(), 2);
}

#[test]
fn layout_equality_is_an_equivalence() {
    let a = StridedLayout::new(vec![2, 1], vec![1, 5], 0).expect("valid");
    let b = StridedLayout::new(vec![2, 1], vec![1, -5], 0).expect("valid");
    let c = StridedLayout::new(vec![2, 1], vec![1, 42], 0).expect("valid");
    assert_eq!(a, a);
    assert_eq!(a, b);
    assert_eq!(b, a);
    assert_eq!(b, c);
    assert_eq!(a, c);
    let d = StridedLayout::new(vec![2, 1], vec![2, 5], 0).expect("valid");
    assert_ne!(a, d);
    let e = StridedLayout::new(vec![2, 1], vec![1, 5], 1).expect("valid");
    assert_ne!(a, e);
    let f = StridedLayout::new(vec![2], vec![1], 0).expect("valid");
    assert_ne!(a, f);
}

#[test]
fn equal_layouts_hash_alike_and_hash_reads_the_layout() {
    let a = StridedLayout::new(vec![2, 1], vec![1, 5], 0).expect("valid");
    let b = StridedLayout::new(vec![2, 1], vec![1, -5], 0).expect("valid");
    assert_eq!(hash_of(&a), hash_of(&b));
    let other_offset = StridedLayout::new(vec![2, 1], vec![1, 5], 3).expect("valid");
    assert_ne!(hash_of(&a), hash_of(&other_offset));
    let other_stride = StridedLayout::new(vec![2, 1], vec![4, 5], 0).expect("valid");
    assert_ne!(hash_of(&a), hash_of(&other_stride));
}

#[test]
fn broadcast_to_own_extents_keeps_layout() {
    let layout = sample_layout();
    let broadcast = layout.broadcast_to(&[4, 1, 3, 2]).expect("valid broadcast");
    assert_eq!(broadcast, layout);
    assert_eq!(broadcast.strides(), layout.strides());
}

#[test]
fn broadcast_stretches_unit_axes_with_zero_stride() {
    let layout = sample_layout();
    let broadcast = layout.broadcast_to(&[5, 4, 8, 3, 2]).expect("valid broadcast");
    assert_eq!(broadcast.extents(), &[5, 4, 8, 3, 2]);
    assert_eq!(broadcast.strides(), &[0, 6, 0, 2, 1]);
    assert_eq!(broadcast.offset(), 7);
}

#[test]
fn broadcast_reports_first_unbroadcastable_axis() {
    let layout = sample_layout();
    let error = layout.broadcast_to(&[4, 7, 5, 3]).expect_err("must fail");
    assert_eq!(
        error,
        StridedLayoutError::AxisNotBroadcastable {
            axis_extent: 3,
            target_extent: 5,
        }
    );
}

#[test]
fn lone_ellipsis_keeps_layout() {
    let layout = sample_layout();
    let result = layout.apply_subscripts(&[ellipsis()]).expect("valid");
    assert_eq!(result.extents(), layout.extents());
    assert_eq!(result.strides(), layout.strides());
    assert_eq!(result.offset(), layout.offset());
}

#[test]
fn subscripts_with_backward_slice_and_negative_index() {
    let layout = sample_layout();
    let subscripts = vec![
        DynamicSubscript::Slice(make_slice_full(-1, end(), -2)),
        DynamicSubscript::Index(-1),
        ellipsis(),
        new_axis(),
        DynamicSubscript::Slice(all()),
    ];
    let result = layout.apply_subscripts(&subscripts).expect("valid");
    assert_eq!(result.extents(), &[2, 3, 1, 2]);
    assert_eq!(result.strides(), &[-12, 2, 0, 1]);
    assert_eq!(result.offset(), 7 + 3 * 6);
}

#[test]
fn subscripts_report_invalid_slice_after_ellipsis() {
    let layout = sample_layout();
    let subscripts = vec![ellipsis(), DynamicSubscript::Slice(make_slice_full(0, 3, 0))];
    let error = layout.apply_subscripts(&subscripts).expect_err("must fail");
    assert_eq!(error, StridedLayoutError::InvalidSlice(SliceError::StepZero));
}

#[test]
fn contiguous_layout_storage_equals_element_count() {
    let layout = StridedLayout::make_contiguous_layout(vec![2, 3, 4, 5]);
    assert_eq!(layout.strides(), &[60, 20, 5, 1]);
    assert_eq!(layout.compute_element_count(), 120);
    assert_eq!(layout.compute_storage_requirement(), 120);
    let empty_axis = StridedLayout::make_contiguous_layout(vec![2, 0, 4]);
    assert_eq!(empty_axis.strides(), &[0, 4, 1]);
    assert_eq!(empty_axis.compute_element_count(), 0);
    assert_eq!(empty_axis.compute_storage_requirement(), 0);
}

#[test]
fn contiguous_strides_take_huge_extents_as_isize() {
    let layout = StridedLayout::make_contiguous_layout(vec![2, usize::MAX]);
    assert_eq!(layout.strides(), &[-1, 1]);
    let layout = StridedLayout::make_contiguous_layout(vec![2, usize::MAX, 3]);
    assert_eq!(layout.strides(), &[-3, 3, 1]);
    let layout = StridedLayout::make_contiguous_layout(vec![2, usize::MAX, 0]);
    assert_eq!(layout.strides(), &[0, 0, 1]);
    let layout = StridedLayout::make_contiguous_layout(vec![2, usize::MAX - 1, 3]);
    assert_eq!(layout.strides(), &[-6, 3, 1]);
}

#[test]
fn contiguous_strides_saturate() {
    let big = usize::MAX / 4;
    let layout = StridedLayout::make_contiguous_layout(vec![3, big, 8]);
    assert_eq!(layout.strides(), &[isize::MAX, 8, 1]);
}

#[test]
fn storage_requirement_wraps_negative_offsets() {
    let layout = StridedLayout::new(vec![2], vec![1], -5).expect("valid");
    assert_eq!(layout.compute_storage_requirement(), usize::MAX - 2);
    let layout = StridedLayout::new(vec![3, 2], vec![-4, 0], 8).expect("valid");
    assert_eq!(layout.compute_storage_requirement(), 9);
}

#[test]
fn descriptor_storage_scales_layout_storage_by_element_size() {
    let layout = StridedLayout::new(vec![2, 3], vec![-3, 1], 5).expect("valid");
    let complex = ArrayDescriptor::new(layout.clone(), NumericalType::ComplexFloat64);
    assert_eq!(compute_storage_requirement(&complex), 8 * 16);
    let unknown = ArrayDescriptor::new(layout, NumericalType::Unknown);
    assert_eq!(compute_storage_requirement(&unknown), 0);
    assert_eq!(unknown.data_type(), NumericalType::Unknown);
    assert_eq!(unknown.layout().offset(), 5);
}

#[test]
fn c_codes_round_trip() {
    let all_types = [
        NumericalType::Unknown,
        NumericalType::Boolean,
        NumericalType::Char8,
        NumericalType::Int8,
        NumericalType::UInt8,
        NumericalType::Int16,
        NumericalType::UInt16,
        NumericalType::Int32,
        NumericalType::UInt32,
        NumericalType::Int64,
        NumericalType::UInt64,
        NumericalType::Float16,
        NumericalType::Float32,
        NumericalType::Float64,
        NumericalType::ComplexFloat16,
        NumericalType::ComplexFloat32,
        NumericalType::ComplexFloat64,
    ];
    for (index, &t) in all_types.iter().enumerate() {
        assert_eq!(to_c_numerical_type(t), index as i32 - 1);
        assert_eq!(from_c_numerical_type(to_c_numerical_type(t)), t);
    }
    assert_eq!(from_c_numerical_type(16), NumericalType::Unknown);
    assert_eq!(from_c_numerical_type(-2), NumericalType::Unknown);
}

#[test]
fn element_count_of_layout_with_axes() {
    let layout = StridedLayout::new(vec![3, 0, 5], vec![1, 1, 1], 0).expect("valid");
    assert_eq!(layout.compute_element_count(), 0);
    assert_eq!(sample_layout().compute_element_count(), 24);
}

#[test]
fn axis_longer_than_isize_max_accepts_no_index() {
    let layout = StridedLayout::new(vec![usize::MAX, 2], vec![0, 5], 3).expect("valid");
    let error = layout
        .apply_subscripts(&[DynamicSubscript::Index(-1), DynamicSubscript::Index(1)])
        .expect_err("extent taken as -1");
    assert_eq!(
        error,
        StridedLayoutError::ReverseIndexOutOfBounds {
            index: -1,
            extent: usize::MAX,
        }
    );
    let error = layout
        .apply_subscripts(&[DynamicSubscript::Index(0)])
        .expect_err("extent taken as -1");
    assert_eq!(
        error,
        StridedLayoutError::IndexOutOfBounds {
            index: 0,
            extent: usize::MAX,
        }
    );
    let last = layout
        .apply_subscripts(&[ellipsis(), DynamicSubscript::Index(-1)])
        .expect("last axis is short");
    assert_eq!(last.extents(), &[usize::MAX]);
    assert_eq!(last.offset(), 8);
}

#[test]
fn subscripts_leave_rank_less_indices_plus_new_axes() {
    let layout = sample_layout();
    let subscripts = vec![
        DynamicSubscript::Index(0),
        new_axis(),
        ellipsis(),
        DynamicSubscript::Slice(all()),
        DynamicSubscript::Index(-1),
    ];
    let result = layout.apply_subscripts(&subscripts).expect("valid");
    assert_eq!(result.rank(), 4 - 2 + 1);
    assert_eq!(result.extents(), &[1, 1, 3]);
    assert_eq!(result.strides(), &[0, 99, 2]);
    assert_eq!(result.offset(), 8);
}

#[test]
fn more_indices_and_slices_than_axes_is_an_error() {
    let layout = sample_layout();
    let subscripts = vec![
        DynamicSubscript::Index(0),
        DynamicSubscript::Index(0),
        DynamicSubscript::Index(0),
        DynamicSubscript::Index(0),
        DynamicSubscript::Slice(all()),
    ];
    let error = layout.apply_subscripts(&subscripts).expect_err("too many");
    assert_eq!(error, StridedLayoutError::NoMoreAxesForSlice);
}
