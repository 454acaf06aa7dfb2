// SPDX-License-Identifier: GPL-3.0-only

//! Runtime slice model and slice sanitization utilities.

use crate::slice_error::SliceError;
use vstd::prelude::*;

verus! {

/// Runtime slice descriptor.
#[derive(Debug, Clone, Copy, PartialEq, Eq, Hash, Structural)]
pub struct Slice {
    start: isize,
    count: usize,
    step: isize,
}

/// Mathematical view of a [`Slice`]: its three raw fields.
pub struct SliceView {
    pub start: isize,
    pub count: usize,
    pub step: isize,
}

impl View for Slice {
    type V = SliceView;

    closed spec fn view(&self) -> SliceView {
        SliceView { start: self.start, count: self.count, step: self.step }
    }
}

/// Whether an integer is representable as an `isize`.
pub open spec fn fits_isize(x: int) -> bool {
    isize::MIN <= x <= isize::MAX
}

/// Rounded-up quotient of a non-negative `a` by a positive `b`.
pub open spec fn ceil_div(a: int, b: int) -> int {
    (a + b - 1) / b
}

/// The value of `x as isize`: `x` itself where an `isize` holds it, otherwise `x` wrapped
/// around into the negative range.
pub open spec fn wrapped_isize(x: usize) -> int {
    if x <= isize::MAX {
        x as int
    } else {
        x - usize::MAX - 1
    }
}

/// The start index of a slice once a negative start has been counted from the end of an
/// axis of the given extent.
pub open spec fn remapped_start(start: isize, extent: usize) -> int {
    if start < 0 {
        start + extent
    } else {
        start as int
    }
}

/// Whether the slice walks forward, or selects nothing (in which case its direction is moot
/// for the start-index check).
pub open spec fn checks_start_as_forward(s: SliceView) -> bool {
    s.step > 0 || s.count == 0
}

/// The outcome of validating a slice's start against an axis extent: the error, or the start
/// index counted from the beginning of the axis.
///
/// The extent takes part as an `isize` (see [`wrapped_isize`]): the start may not lie before
/// minus the extent; a forward (or empty) slice may start anywhere up to the extent, a
/// backward one strictly before it; a negative start counts from the end. An extent above
/// `isize::MAX` thus accepts no start.
pub open spec fn sanitized_start_spec(s: SliceView, extent: usize) -> Result<int, SliceError> {
    let e = wrapped_isize(extent);
    if s.start < -e {
        Err(SliceError::NegativeStartOutOfBounds { start: s.start, extent })
    } else if checks_start_as_forward(s) && s.start > e {
        Err(SliceError::StartOutOfBounds { start: s.start, extent })
    } else if !checks_start_as_forward(s) && s.start >= e {
        Err(SliceError::BackwardStartOutOfBounds { start: s.start, extent })
    } else {
        Ok(remapped_start(s.start, extent))
    }
}

/// The outcome of resolving the count of a forward slice whose start has already been
/// validated and counted from the beginning of the axis: [`end()`] becomes the number of
/// positions from the start to the end of the axis, any other non-zero count must keep its
/// last position inside the axis.
pub open spec fn forward_count_spec(s: SliceView, extent: usize) -> Result<SliceView, SliceError> {
    if s.count == usize::MAX {
        Ok(SliceView { count: ceil_div(extent - s.start, s.step as int) as usize, ..s })
    } else if s.count > 0 && s.start + s.step * (s.count - 1) >= extent {
        Err(
            SliceError::PositiveSliceOverflowsExtent {
                count: s.count,
                start: s.start,
                step: s.step,
                extent,
            },
        )
    } else {
        Ok(s)
    }
}

/// The outcome of resolving the count of a backward slice whose start has already been
/// validated and counted from the beginning of the axis: [`end()`] becomes the number of
/// positions from the start down to zero, any other non-zero count must keep its last
/// position at or above zero.
pub open spec fn backward_count_spec(s: SliceView) -> Result<SliceView, SliceError> {
    if s.count == usize::MAX {
        Ok(SliceView { count: (s.start as int / (-s.step as int) + 1) as usize, ..s })
    } else if s.count > 0 && (-s.step) * (s.count - 1) > s.start {
        Err(
            SliceError::ReversedSliceUnderflowsZero {
                count: s.count,
                start: s.start,
                step: s.step,
            },
        )
    } else {
        Ok(s)
    }
}

/// The outcome of resolving the count of a slice whose start has already been validated.
pub open spec fn sanitized_count_spec(s: SliceView, extent: usize) -> Result<SliceView, SliceError> {
    if s.step > 0 {
        forward_count_spec(s, extent)
    } else {
        backward_count_spec(s)
    }
}

/// What `sanitize_slice` returns for a slice and an axis extent.
///
/// The step must be non-zero; the start must lie within the axis (a negative start counts
/// from its end); a count of [`end()`] selects every element reachable from the start, and
/// any other non-zero count must keep the last selected element inside the axis, which is
/// checked in exact integers.
pub open spec fn sanitize_slice_spec(s: SliceView, extent: usize) -> Result<SliceView, SliceError> {
    if s.step == 0 {
        Err(SliceError::StepZero)
    } else {
        match sanitized_start_spec(s, extent) {
            Err(err) => Err(err),
            Ok(start) => sanitized_count_spec(SliceView { start: start as isize, ..s }, extent),
        }
    }
}

/// The view of a sanitization result.
pub open spec fn slice_result_view(r: Result<Slice, SliceError>) -> Result<SliceView, SliceError> {
    match r {
        Ok(s) => Ok(s@),
        Err(e) => Err(e),
    }
}

proof fn lemma_ceil_div_last_index(d: int, step: int)
    requires
        d >= 0,
        step > 0,
    ensures
        0 <= ceil_div(d, step) <= d,
        ceil_div(d, step) > 0 ==> step * (ceil_div(d, step) - 1) < d,
{
    let c = ceil_div(d, step);
    assert(c * step <= d + step - 1 && c * step > d - 1 && c >= 0) by (nonlinear_arith)
        requires
            d >= 0,
            step > 0,
            c == (d + step - 1) / step,
    ;
    assert(c <= d) by (nonlinear_arith)
        requires
            c * step <= d + step - 1,
            step > 0,
            c >= 0,
            d >= 0,
    ;
    assert(c > 0 ==> step * (c - 1) < d) by (nonlinear_arith)
        requires
            c * step <= d + step - 1,
            step > 0,
    ;
}

proof fn lemma_floor_div_last_index(start: int, step: int)
    requires
        start >= 0,
        step > 0,
    ensures
        0 <= start / step <= start,
        step * (start / step) <= start,
{
    assert(0 <= start / step <= start && step * (start / step) <= start) by (nonlinear_arith)
        requires
            start >= 0,
            step > 0,
    ;
}

/// Sanitizing an already sanitized slice against the same extent changes nothing.
pub proof fn lemma_sanitize_slice_idempotent(s: SliceView, extent: usize)
    requires
        sanitize_slice_spec(s, extent) is Ok,
    ensures
        sanitize_slice_spec(sanitize_slice_spec(s, extent)->Ok_0, extent) == sanitize_slice_spec(
            s,
            extent,
        ),
{
    let start = remapped_start(s.start, extent);
    if s.step > 0 && s.count == usize::MAX {
        lemma_ceil_div_last_index(extent - start, s.step as int);
    } else if s.step < 0 && s.count == usize::MAX {
        lemma_floor_div_last_index(start, -s.step);
    }
}

/// Every position that a sanitized slice selects lies within the axis.
pub proof fn lemma_sanitized_slice_in_bounds(s: SliceView, extent: usize, k: int)
    requires
        sanitize_slice_spec(s, extent) is Ok,
        0 <= k < sanitize_slice_spec(s, extent)->Ok_0.count,
    ensures
        0 <= sanitize_slice_spec(s, extent)->Ok_0.start + k * sanitize_slice_spec(
            s,
            extent,
        )->Ok_0.step < extent,
{
    let r = sanitize_slice_spec(s, extent)->Ok_0;
    let start = remapped_start(s.start, extent);
    assert(r.start == start);
    let c = r.count as int;
    if s.step > 0 {
        if s.count == usize::MAX {
            lemma_ceil_div_last_index(extent - start, s.step as int);
            lemma_ceil_div_covers(extent - start, s.step as int);
            assert(c == ceil_div(extent - start, s.step as int));
            assert(start + c * s.step >= extent) by (nonlinear_arith)
                requires
                    s.step * c >= extent - start,
            ;
        }
        assert(start + s.step * (c - 1) < extent);
        assert(0 <= start + k * s.step <= start + s.step * (c - 1)) by (nonlinear_arith)
            requires
                s.step > 0,
                0 <= k <= c - 1,
                start >= 0,
        ;
    } else {
        let a = -s.step;
        if s.count == usize::MAX {
            lemma_machine_integer_bounds();
            lemma_floor_div_last_index(start, a);
            lemma_floor_div_covers(start, a);
            assert(c == start / a + 1);
            assert(start + c * s.step < 0) by (nonlinear_arith)
                requires
                    a * c > start,
                    a == -s.step,
            ;
        }
        assert(a * (c - 1) <= start);
        assert(start - a * (c - 1) <= start + k * s.step <= start) by (nonlinear_arith)
            requires
                a == -s.step,
                a > 0,
                0 <= k <= c - 1,
        ;
    }
}

/// A count of [`end()`] resolves to exactly the number of positions `start + k * step`,
/// `k >= 0`, that lie within the axis.
pub proof fn lemma_open_slice_count_is_exact(s: SliceView, extent: usize, k: int)
    requires
        sanitize_slice_spec(s, extent) is Ok,
        s.count == usize::MAX,
        k >= 0,
    ensures
        ({
            let r = sanitize_slice_spec(s, extent)->Ok_0;
            (0 <= r.start + k * r.step < extent) <==> k < r.count
        }),
{
    let r = sanitize_slice_spec(s, extent)->Ok_0;
    let c = r.count as int;
    if k < c {
        lemma_sanitized_slice_in_bounds(s, extent, k);
    } else {
        lemma_open_slice_past_end(s, extent);
        if r.step > 0 {
            assert(r.start + k * r.step >= r.start + c * r.step) by (nonlinear_arith)
                requires
                    r.step > 0,
                    k >= c,
            ;
        } else {
            assert(r.start + k * r.step <= r.start + c * r.step) by (nonlinear_arith)
                requires
                    r.step < 0,
                    k >= c,
            ;
        }
    }
}

proof fn lemma_open_slice_past_end(s: SliceView, extent: usize)
    requires
        sanitize_slice_spec(s, extent) is Ok,
        s.count == usize::MAX,
    ensures
        ({
            let r = sanitize_slice_spec(s, extent)->Ok_0;
            if r.step > 0 {
                r.start + r.count * r.step >= extent
            } else {
                r.start + r.count * r.step < 0
            }
        }),
{
    let r = sanitize_slice_spec(s, extent)->Ok_0;
    let start = remapped_start(s.start, extent);
    let c = r.count as int;
    if s.step > 0 {
        lemma_ceil_div_last_index(extent - start, s.step as int);
        lemma_ceil_div_covers(extent - start, s.step as int);
        assert(c == ceil_div(extent - start, s.step as int));
        assert(start + c * s.step >= extent) by (nonlinear_arith)
            requires
                s.step * c >= extent - start,
        ;
    } else {
        let a = -s.step;
        lemma_machine_integer_bounds();
        lemma_floor_div_last_index(start, a);
        lemma_floor_div_covers(start, a);
        assert(c == start / a + 1);
        assert(start + c * s.step < 0) by (nonlinear_arith)
            requires
                a * c > start,
                a == -s.step,
        ;
    }
}

proof fn lemma_ceil_div_covers(d: int, step: int)
    requires
        d >= 0,
        step > 0,
    ensures
        step * ceil_div(d, step) >= d,
{
    let c = ceil_div(d, step);
    assert(step * c >= d) by (nonlinear_arith)
        requires
            d >= 0,
            step > 0,
            c == (d + step - 1) / step,
    ;
}

proof fn lemma_floor_div_covers(start: int, step: int)
    requires
        start >= 0,
        step > 0,
    ensures
        step * (start / step + 1) > start,
{
    assert(step * (start / step + 1) > start) by (nonlinear_arith)
        requires
            start >= 0,
            step > 0,
    ;
}

/// Sentinel value used to represent unbounded slice count.
pub fn end() -> (r: usize)
    ensures
        r == usize::MAX,
{
    usize::MAX
}

/// Returns a full forward slice (`0..` with step `1`).
pub fn all() -> (s: Slice)
    ensures
        s@ == (SliceView { start: 0, count: usize::MAX, step: 1 }),
{
    Slice::new(0, end(), 1)
}

/// Returns a forward slice selecting even positions.
pub fn even() -> (s: Slice)
    ensures
        s@ == (SliceView { start: 0, count: usize::MAX, step: 2 }),
{
    Slice::new(0, end(), 2)
}

/// Returns a forward slice selecting odd positions.
pub fn odd() -> (s: Slice)
    ensures
        s@ == (SliceView { start: 1, count: usize::MAX, step: 2 }),
{
    Slice::new(1, end(), 2)
}

/// Returns a slice starting at `0` with the provided count and step `1`.
pub fn make_slice(count: usize) -> (s: Slice)
    ensures
        s@ == (SliceView { start: 0, count, step: 1 }),
{
    Slice::new(0, count, 1)
}

/// Returns a slice with custom start and count and step `1`.
pub fn make_slice_start(start: isize, count: usize) -> (s: Slice)
    ensures
        s@ == (SliceView { start, count, step: 1 }),
{
    Slice::new(start, count, 1)
}

/// Returns a slice with custom start, count and step.
pub fn make_slice_full(start: isize, count: usize, step: isize) -> (s: Slice)
    ensures
        s@ == (SliceView { start, count, step }),
{
    Slice::new(start, count, step)
}

impl Slice {
    /// Creates a slice from raw start, count and step fields.
    pub fn new(start: isize, count: usize, step: isize) -> (s: Self)
        ensures
            s@ == (SliceView { start, count, step }),
    {
        Self { start, count, step }
    }

    /// Returns slice start index.
    pub fn start(self) -> isize
        returns self@.start,
    {
        self.start
    }

    /// Returns slice element count.
    pub fn count(self) -> usize
        returns self@.count,
    {
        self.count
    }

    /// Returns slice step.
    pub fn step(self) -> isize
        returns self@.step,
    {
        self.step
    }
}

/// Validates and normalizes a slice against an axis extent.
///
/// # Errors
///
/// Returns a typed error when slice step, start, or effective count is
/// incompatible with the provided extent.
pub fn sanitize_slice(slice: Slice, extent: usize) -> (r: Result<Slice, SliceError>)
    ensures
        slice_result_view(r) == sanitize_slice_spec(slice@, extent),
{
    validate_non_zero_slice_step(slice)?;
    let slice = normalize_slice_start(slice, extent)?;
    normalize_slice_count(slice, extent)
}

fn validate_non_zero_slice_step(slice: Slice) -> (r: Result<(), SliceError>)
    ensures
        r is Err <==> slice@.step == 0,
        r matches Err(e) ==> e == SliceError::StepZero,
{
    if slice.step == 0 {
        return Err(SliceError::StepZero);
    }
    Ok(())
}

fn normalize_slice_start(slice: Slice, extent: usize) -> (r: Result<Slice, SliceError>)
    requires
        slice@.step != 0,
    ensures
        match (r, sanitized_start_spec(slice@, extent)) {
            (Ok(s), Ok(start)) => s@ == (SliceView { start: start as isize, ..slice@ }),
            (Err(e1), Err(e2)) => e1 == e2,
            _ => false,
        },
{
    let mut slice = slice;
    let start = slice.start;
    let count = slice.count;
    let step = slice.step;

    validate_slice_start_lower_bound(start, extent)?;
    validate_slice_start_upper_bound(start, count, step, extent)?;
    remap_negative_slice_start(&mut slice, extent);

    Ok(slice)
}

fn validate_slice_start_lower_bound(start: isize, extent: usize) -> (r: Result<(), SliceError>)
    ensures
        r is Err <==> start < -wrapped_isize(extent),
        r matches Err(e) ==> e == (SliceError::NegativeStartOutOfBounds { start, extent }),
{
    if (start as i128) < -wrapped_isize_wide(extent) {
        return Err(SliceError::NegativeStartOutOfBounds { start, extent });
    }
    Ok(())
}

/// The value of `x as isize`, exactly, in `i128`.
pub(crate) fn wrapped_isize_wide(x: usize) -> (r: i128)
    ensures
        r == wrapped_isize(x),
{
    proof {
        lemma_machine_integer_bounds();
    }
    if x <= isize::MAX as usize {
        x as i128
    } else {
        x as i128 - usize::MAX as i128 - 1
    }
}

fn validate_slice_start_upper_bound(start: isize, count: usize, step: isize, extent: usize) -> (r:
    Result<(), SliceError>)
    ensures
        (step > 0 || count == 0) ==> (r is Err <==> start > wrapped_isize(extent)) && (r matches Err(
            e,
        ) ==> e == (SliceError::StartOutOfBounds { start, extent })),
        !(step > 0 || count == 0) ==> (r is Err <==> start >= wrapped_isize(extent)) && (r matches Err(
            e,
        ) ==> e == (SliceError::BackwardStartOutOfBounds { start, extent })),
{
    let signed_extent = wrapped_isize_wide(extent);
    if step > 0 || count == 0 {
        if start as i128 > signed_extent {
            return Err(SliceError::StartOutOfBounds { start, extent });
        }
        return Ok(());
    }
    if start as i128 >= signed_extent {
        return Err(SliceError::BackwardStartOutOfBounds { start, extent });
    }
    Ok(())
}

fn remap_negative_slice_start(slice: &mut Slice, extent: usize)
    requires
        old(slice)@.start < 0 ==> 0 <= old(slice)@.start + extent <= isize::MAX,
    ensures
        final(slice)@ == (SliceView {
            start: remapped_start(old(slice)@.start, extent) as isize,
            ..old(slice)@
        }),
{
    if slice.start < 0 {
        slice.start = (slice.start as i128 + extent as i128) as isize;
    }
}

fn normalize_slice_count(slice: Slice, extent: usize) -> (r: Result<Slice, SliceError>)
    requires
        slice@.step != 0,
        0 <= slice@.start,
        slice@.step > 0 ==> slice@.start <= extent,
    ensures
        slice_result_view(r) == sanitized_count_spec(slice@, extent),
{
    let mut slice = slice;
    let start = slice.start;
    let count = slice.count;
    let step = slice.step;

    if step > 0 {
        normalize_forward_slice_count(&mut slice, extent, start, count, step)?;
    } else {
        normalize_backward_slice_count(&mut slice, start, count, step)?;
    }

    Ok(slice)
}

/// Rounded-up quotient of `a` by a positive `b`.
fn div_ceil_usize(a: usize, b: usize) -> (r: usize)
    requires
        b > 0,
    ensures
        r == ceil_div(a as int, b as int),
{
    let q = a / b;
    let r = if a % b != 0 {
        assert(q < a) by (nonlinear_arith)
            requires
                b > 0,
                q == a / b,
                a % b != 0,
        ;
        q + 1
    } else {
        q
    };
    assert(r == ceil_div(a as int, b as int)) by (nonlinear_arith)
        requires
            b > 0,
            q == a / b,
            r == (if a % b != 0 { q + 1 } else { q as int }),
    ;
    r
}

/// The bounds of the machine integers that slice arithmetic mixes, which `i128` holds with room
/// to spare.
pub(crate) proof fn lemma_machine_integer_bounds()
    ensures
        isize::MIN >= -0x8000_0000_0000_0000,
        isize::MAX <= 0x7fff_ffff_ffff_ffff,
        usize::MAX <= 0xffff_ffff_ffff_ffff,
        isize::MAX < usize::MAX,
        usize::MAX == 2 * isize::MAX + 1,
        isize::MIN == -isize::MAX - 1,
{
}

/// `a + b * (c - 1)` for an `isize` `a` and `b` and a positive `usize` `c`, exactly, in `i128`.
fn last_position(a: isize, b: isize, c: usize) -> (r: i128)
    requires
        c > 0,
    ensures
        r == a + b * (c - 1),
{
    proof {
        lemma_machine_integer_bounds();
    }
    let steps = c as i128 - 1;
    assert(-0x8000_0000_0000_0000 * 0xffff_ffff_ffff_ffff <= b * steps <= 0x8000_0000_0000_0000
        * 0xffff_ffff_ffff_ffff) by (nonlinear_arith)
        requires
            -0x8000_0000_0000_0000 <= b <= 0x8000_0000_0000_0000,
            0 <= steps <= 0xffff_ffff_ffff_ffff,
    ;
    a as i128 + b as i128 * steps
}

fn normalize_forward_slice_count(
    slice: &mut Slice,
    extent: usize,
    start: isize,
    count: usize,
    step: isize,
) -> (r: Result<(), SliceError>)
    requires
        old(slice)@ == (SliceView { start, count, step }),
        step > 0,
        0 <= start <= extent,
    ensures
        match (r, forward_count_spec(old(slice)@, extent)) {
            (Ok(_), Ok(v)) => final(slice)@ == v,
            (Err(e1), Err(e2)) => e1 == e2,
            _ => false,
        },
{
    if count == end() {
        slice.count = div_ceil_usize(extent - start as usize, step as usize);
        return Ok(());
    }

    if count > 0 && last_position(start, step, count) >= extent as i128 {
        return Err(SliceError::PositiveSliceOverflowsExtent { count, start, step, extent });
    }

    Ok(())
}

fn normalize_backward_slice_count(slice: &mut Slice, start: isize, count: usize, step: isize) -> (r:
    Result<(), SliceError>)
    requires
        old(slice)@ == (SliceView { start, count, step }),
        step < 0,
        0 <= start,
    ensures
        match (r, backward_count_spec(old(slice)@)) {
            (Ok(_), Ok(v)) => final(slice)@ == v,
            (Err(e1), Err(e2)) => e1 == e2,
            _ => false,
        },
{
    proof {
        lemma_machine_integer_bounds();
    }
    let abs_step = -(step as i128);
    if count == end() {
        let quotient = start as i128 / abs_step;
        assert(0 <= quotient <= start) by (nonlinear_arith)
            requires
                abs_step >= 1,
                start >= 0,
                quotient == start as int / abs_step as int,
        ;
        slice.count = (quotient + 1) as usize;
        return Ok(());
    }

    if count > 0 {
        let lowest = last_position(0, step, count);
        assert(-lowest == (-step) * (count - 1)) by (nonlinear_arith)
            requires
                lowest == step * (count - 1),
        ;
        if lowest < -(start as i128) {
            return Err(SliceError::ReversedSliceUnderflowsZero { count, start, step });
        }
    }

    Ok(())
}


/// A sanitized slice keeps the step, starts at the designated position of the axis (a
/// negative start counting from its end), and keeps any count other than [`end()`]; a zero
/// step is always an error.
pub proof fn lemma_sanitized_slice_fields(s: SliceView, extent: usize)
    ensures
        s.step == 0 ==> sanitize_slice_spec(s, extent) == Err::<SliceView, SliceError>(
            SliceError::StepZero,
        ),
        sanitize_slice_spec(s, extent) matches Ok(r) ==> {
            &&& r.step == s.step
            &&& r.start == (if s.start < 0 {
                s.start + extent
            } else {
                s.start as int
            })
            &&& 0 <= r.start <= extent
            &&& s.count != usize::MAX ==> r.count == s.count
        },
{
}

} // verus!
