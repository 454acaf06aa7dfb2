// SPDX-License-Identifier: GPL-3.0-only

use xmipp4_core_types::subscript::{all, end, even, make_slice_full, odd, sanitize_slice};
use xmipp4_core_types::{Slice, SliceError};

fn positions(slice: Slice) -> Vec<isize> {
    (0..slice.count() as isize)
        .map(|k| slice.start() + k * slice.step())
        .collect()
}

#[test]
fn sanitizing_twice_changes_nothing() {
    let cases = [
        (make_slice_full(-3, end(), 1), 10),
        (make_slice_full(9, end(), -4), 10),
        (make_slice_full(2, 3, 3), 10),
        (make_slice_full(-1, 0, -1), 10),
        (odd(), 7),
        (even(), 0),
    ];
    for (slice, extent) in cases {
        let once = sanitize_slice(slice, extent).expect("valid slice");
        let twice = sanitize_slice(once, extent).expect("still valid");
        assert_eq!(once, twice);
    }
}

#[test]
fn sanitized_positions_stay_in_axis() {
    let cases = [
        (make_slice_full(-3, end(), 1), 10),
        (make_slice_full(9, end(), -4), 10),
        (make_slice_full(2, 3, 3), 10),
        (make_slice_full(4, 5, -1), 5),
        (odd(), 7),
    ];
    for (slice, extent) in cases {
        let sanitized = sanitize_slice(slice, extent).expect("valid slice");
        for position in positions(sanitized) {
            assert!(0 <= position && position < extent as isize);
        }
    }
}

#[test]
fn unbounded_backward_slice_reaches_start_of_axis() {
    let sanitized = sanitize_slice(make_slice_full(4, end(), -2), 5).expect("valid");
    assert_eq!(sanitized.start(), 4);
    assert_eq!(sanitized.count(), 3);
    assert_eq!(sanitized.step(), -2);
    assert_eq!(positions(sanitized), vec![4, 2, 0]);
}

#[test]
fn unbounded_forward_slice_rounds_count_up() {
    let sanitized = sanitize_slice(make_slice_full(1, end(), 3), 8).expect("valid");
    assert_eq!(sanitized.count(), 3);
    let sanitized = sanitize_slice(even(), 7).expect("valid");
    assert_eq!(sanitized.count(), 4);
    let sanitized = sanitize_slice(all(), 0).expect("valid");
    assert_eq!(sanitized.count(), 0);
}

#[test]
fn empty_backward_slice_may_start_at_extent() {
    let sanitized = sanitize_slice(make_slice_full(5, 0, -1), 5).expect("valid");
    assert_eq!(sanitized.start(), 5);
    assert_eq!(sanitized.count(), 0);
}

#[test]
fn start_at_extent_is_valid_for_forward_slices() {
    let sanitized = sanitize_slice(make_slice_full(5, end(), 1), 5).expect("valid");
    assert_eq!(sanitized.start(), 5);
    assert_eq!(sanitized.count(), 0);
    let error = sanitize_slice(make_slice_full(5, 1, 1), 5).expect_err("must fail");
    assert_eq!(
        error,
        SliceError::PositiveSliceOverflowsExtent {
            count: 1,
            start: 5,
            step: 1,
            extent: 5,
        }
    );
}

#[test]
fn errors_report_the_remapped_start() {
    let error = sanitize_slice(make_slice_full(-2, 3, 1), 5).expect_err("must fail");
    assert_eq!(
        error,
        SliceError::PositiveSliceOverflowsExtent {
            count: 3,
            start: 3,
            step: 1,
            extent: 5,
        }
    );
}

#[test]
fn axis_longer_than_isize_max_accepts_no_slice() {
    let error = sanitize_slice(make_slice_full(0, 1, 1), usize::MAX).expect_err("must fail");
    assert_eq!(
        error,
        SliceError::NegativeStartOutOfBounds {
            start: 0,
            extent: usize::MAX,
        }
    );
    let error = sanitize_slice(make_slice_full(1, 1, 1), usize::MAX).expect_err("must fail");
    assert_eq!(
        error,
        SliceError::StartOutOfBounds {
            start: 1,
            extent: usize::MAX,
        }
    );
    let error = sanitize_slice(make_slice_full(1, 1, -1), usize::MAX).expect_err("must fail");
    assert_eq!(
        error,
        SliceError::BackwardStartOutOfBounds {
            start: 1,
            extent: usize::MAX,
        }
    );
    let error = sanitize_slice(make_slice_full(-1, end(), 1), usize::MAX).expect_err("must fail");
    assert_eq!(
        error,
        SliceError::NegativeStartOutOfBounds {
            start: -1,
            extent: usize::MAX,
        }
    );
}

#[test]
fn counts_beyond_isize_max_do_not_wrap() {
    let error = sanitize_slice(make_slice_full(0, usize::MAX - 1, 2), 10).expect_err("must fail");
    assert_eq!(
        error,
        SliceError::PositiveSliceOverflowsExtent {
            count: usize::MAX - 1,
            start: 0,
            step: 2,
            extent: 10,
        }
    );
    let error = sanitize_slice(make_slice_full(5, usize::MAX - 1, -1), 10).expect_err("must fail");
    assert_eq!(
        error,
        SliceError::ReversedSliceUnderflowsZero {
            count: usize::MAX - 1,
            start: 5,
            step: -1,
        }
    );
    let error = sanitize_slice(make_slice_full(0, 2, isize::MAX), 10).expect_err("must fail");
    assert_eq!(
        error,
        SliceError::PositiveSliceOverflowsExtent {
            count: 2,
            start: 0,
            step: isize::MAX,
            extent: 10,
        }
    );
}

#[test]
fn most_negative_step_selects_only_the_start() {
    let slice = sanitize_slice(make_slice_full(5, end(), isize::MIN), 10).expect("valid slice");
    assert_eq!((slice.start(), slice.count(), slice.step()), (5, 1, isize::MIN));
    let error = sanitize_slice(make_slice_full(5, 2, isize::MIN), 10).expect_err("must fail");
    assert_eq!(
        error,
        SliceError::ReversedSliceUnderflowsZero {
            count: 2,
            start: 5,
            step: isize::MIN,
        }
    );
}

#[test]
fn open_count_is_the_number_of_positions_in_axis() {
    let cases = [
        (make_slice_full(-3, end(), 1), 10, 3),
        (make_slice_full(9, end(), -4), 10, 3),
        (make_slice_full(10, end(), 3), 10, 0),
        (make_slice_full(0, end(), 3), 10, 4),
        (odd(), 7, 3),
        (even(), 7, 4),
    ];
    for (slice, extent, expected) in cases {
        let sanitized = sanitize_slice(slice, extent).expect("valid slice");
        assert_eq!(sanitized.count(), expected);
        let inside = (0..=extent as isize + 1)
            .map(|k| sanitized.start() + k * sanitized.step())
            .take_while(|&p| 0 <= p && p < extent as isize)
            .count();
        assert_eq!(inside, expected);
    }
}
