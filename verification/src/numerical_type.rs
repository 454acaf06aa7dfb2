// SPDX-License-Identifier: GPL-3.0-only

//! Numerical element types, their sizes and categories, and type promotion.

use vstd::prelude::*;

verus! {

/// Element type of an array.
#[derive(Debug, Clone, Copy, PartialEq, Eq, Hash, Structural)]
pub enum NumericalType {
    Unknown,
    Boolean,
    Char8,
    Int8,
    UInt8,
    Int16,
    UInt16,
    Int32,
    UInt32,
    Int64,
    UInt64,
    Float16,
    Float32,
    Float64,
    ComplexFloat16,
    ComplexFloat32,
    ComplexFloat64,
}

/// Broad family a [`NumericalType`] belongs to.
#[derive(Debug, Clone, Copy, PartialEq, Eq, Hash, Structural)]
pub enum NumericalTypeCategory {
    Unknown,
    Boolean,
    Character,
    UnsignedInteger,
    SignedInteger,
    FloatingPoint,
    Complex,
}

/// Size in bytes of one element of the type, `None` for [`NumericalType::Unknown`].
pub open spec fn size_bytes_spec(t: NumericalType) -> Option<usize> {
    match t {
        NumericalType::Unknown => None,
        NumericalType::Boolean | NumericalType::Char8 | NumericalType::Int8
        | NumericalType::UInt8 => Some(1),
        NumericalType::Int16 | NumericalType::UInt16 | NumericalType::Float16 => Some(2),
        NumericalType::Int32 | NumericalType::UInt32 | NumericalType::Float32
        | NumericalType::ComplexFloat16 => Some(4),
        NumericalType::Int64 | NumericalType::UInt64 | NumericalType::Float64
        | NumericalType::ComplexFloat32 => Some(8),
        NumericalType::ComplexFloat64 => Some(16),
    }
}

/// Category of each type.
pub open spec fn category_spec(t: NumericalType) -> NumericalTypeCategory {
    match t {
        NumericalType::Unknown => NumericalTypeCategory::Unknown,
        NumericalType::Boolean => NumericalTypeCategory::Boolean,
        NumericalType::Char8 => NumericalTypeCategory::Character,
        NumericalType::UInt8 | NumericalType::UInt16 | NumericalType::UInt32
        | NumericalType::UInt64 => NumericalTypeCategory::UnsignedInteger,
        NumericalType::Int8 | NumericalType::Int16 | NumericalType::Int32
        | NumericalType::Int64 => NumericalTypeCategory::SignedInteger,
        NumericalType::Float16 | NumericalType::Float32
        | NumericalType::Float64 => NumericalTypeCategory::FloatingPoint,
        NumericalType::ComplexFloat16 | NumericalType::ComplexFloat32
        | NumericalType::ComplexFloat64 => NumericalTypeCategory::Complex,
    }
}

/// The complex type whose components have the given floating-point type; complex types map
/// to themselves and every other type to [`NumericalType::Unknown`].
pub open spec fn make_complex_spec(t: NumericalType) -> NumericalType {
    match t {
        NumericalType::Float16 | NumericalType::ComplexFloat16 => NumericalType::ComplexFloat16,
        NumericalType::Float32 | NumericalType::ComplexFloat32 => NumericalType::ComplexFloat32,
        NumericalType::Float64 | NumericalType::ComplexFloat64 => NumericalType::ComplexFloat64,
        _ => NumericalType::Unknown,
    }
}

/// Whether the type is promoted as an integer (booleans and characters included).
pub open spec fn is_integral(t: NumericalType) -> bool {
    match category_spec(t) {
        NumericalTypeCategory::Boolean | NumericalTypeCategory::Character
        | NumericalTypeCategory::UnsignedInteger | NumericalTypeCategory::SignedInteger => true,
        _ => false,
    }
}

/// Whether an integral type is promoted as a signed integer (characters are signed, booleans
/// unsigned).
pub open spec fn is_signed_integral(t: NumericalType) -> bool {
    match category_spec(t) {
        NumericalTypeCategory::Character | NumericalTypeCategory::SignedInteger => true,
        _ => false,
    }
}

/// Width in bits of a type's scalar component: the whole value for integral and floating-point
/// types, one of the two parts for complex types.
pub open spec fn component_bits(t: NumericalType) -> int {
    match category_spec(t) {
        NumericalTypeCategory::Complex => 4 * size_bytes_spec(t).unwrap(),
        NumericalTypeCategory::Unknown => 0,
        _ => 8 * size_bytes_spec(t).unwrap(),
    }
}

/// The signed integer type of the given width.
pub open spec fn signed_integer_of_bits(bits: int) -> NumericalType {
    if bits <= 8 {
        NumericalType::Int8
    } else if bits <= 16 {
        NumericalType::Int16
    } else if bits <= 32 {
        NumericalType::Int32
    } else {
        NumericalType::Int64
    }
}

/// The unsigned integer type of the given width.
pub open spec fn unsigned_integer_of_bits(bits: int) -> NumericalType {
    if bits <= 8 {
        NumericalType::UInt8
    } else if bits <= 16 {
        NumericalType::UInt16
    } else if bits <= 32 {
        NumericalType::UInt32
    } else {
        NumericalType::UInt64
    }
}

/// The floating-point type of the given width.
pub open spec fn float_of_bits(bits: int) -> NumericalType {
    if bits <= 16 {
        NumericalType::Float16
    } else if bits <= 32 {
        NumericalType::Float32
    } else {
        NumericalType::Float64
    }
}

/// The larger of two integers.
pub open spec fn max_int(a: int, b: int) -> int {
    if a >= b {
        a
    } else {
        b
    }
}

/// The smaller of two integers.
pub open spec fn min_int(a: int, b: int) -> int {
    if a <= b {
        a
    } else {
        b
    }
}

/// Width of the floating-point component able to hold values of the type: integral types of
/// `w` bits need `2 w` bits (at most 64), floating-point and complex types keep theirs.
pub open spec fn floating_component_bits(t: NumericalType) -> int {
    if is_integral(t) {
        min_int(2 * component_bits(t), 64)
    } else {
        component_bits(t)
    }
}

/// Common type of two distinct integral types.
pub open spec fn promote_integral(a: NumericalType, b: NumericalType) -> NumericalType {
    let wa = component_bits(a);
    let wb = component_bits(b);
    if is_signed_integral(a) == is_signed_integral(b) {
        if is_signed_integral(a) {
            signed_integer_of_bits(max_int(wa, wb))
        } else {
            unsigned_integer_of_bits(max_int(wa, wb))
        }
    } else {
        let (signed_bits, unsigned_bits) = if is_signed_integral(a) {
            (wa, wb)
        } else {
            (wb, wa)
        };
        if signed_bits > unsigned_bits {
            signed_integer_of_bits(signed_bits)
        } else {
            signed_integer_of_bits(min_int(2 * unsigned_bits, 64))
        }
    }
}

/// The type to which two operand types are promoted.
///
/// [`NumericalType::Unknown`] absorbs everything and equal types promote to themselves.
/// Integral types (booleans count as unsigned, characters as signed, both 8 bits wide) promote
/// to the narrowest integer holding both, a mix of signed and unsigned widening to the next
/// signed type (up to 64 bits). Mixed with a floating-point or complex type, an integral type
/// of `w` bits counts as a float of `2 w` bits (up to 64); the result is complex when either
/// operand is, with the wider component.
pub open spec fn promote_types_spec(a: NumericalType, b: NumericalType) -> NumericalType {
    if a == NumericalType::Unknown || b == NumericalType::Unknown {
        NumericalType::Unknown
    } else if a == b {
        a
    } else if is_integral(a) && is_integral(b) {
        promote_integral(a, b)
    } else {
        let bits = max_int(floating_component_bits(a), floating_component_bits(b));
        if category_spec(a) == NumericalTypeCategory::Complex || category_spec(b)
            == NumericalTypeCategory::Complex {
            make_complex_spec(float_of_bits(bits))
        } else {
            float_of_bits(bits)
        }
    }
}

impl NumericalType {
    /// Returns the size in bytes of one element, or `None` for an unknown type.
    pub fn size_bytes(self) -> (r: Option<usize>)
        ensures
            r == size_bytes_spec(self),
    {
        match self {
            NumericalType::Unknown => None,
            NumericalType::Boolean | NumericalType::Char8 | NumericalType::Int8
            | NumericalType::UInt8 => Some(1),
            NumericalType::Int16 | NumericalType::UInt16 | NumericalType::Float16 => Some(2),
            NumericalType::Int32 | NumericalType::UInt32 | NumericalType::Float32
            | NumericalType::ComplexFloat16 => Some(4),
            NumericalType::Int64 | NumericalType::UInt64 | NumericalType::Float64
            | NumericalType::ComplexFloat32 => Some(8),
            NumericalType::ComplexFloat64 => Some(16),
        }
    }

    /// Returns the category of the type.
    pub fn category(self) -> (r: NumericalTypeCategory)
        ensures
            r == category_spec(self),
    {
        match self {
            NumericalType::Unknown => NumericalTypeCategory::Unknown,
            NumericalType::Boolean => NumericalTypeCategory::Boolean,
            NumericalType::Char8 => NumericalTypeCategory::Character,
            NumericalType::UInt8 | NumericalType::UInt16 | NumericalType::UInt32
            | NumericalType::UInt64 => NumericalTypeCategory::UnsignedInteger,
            NumericalType::Int8 | NumericalType::Int16 | NumericalType::Int32
            | NumericalType::Int64 => NumericalTypeCategory::SignedInteger,
            NumericalType::Float16 | NumericalType::Float32
            | NumericalType::Float64 => NumericalTypeCategory::FloatingPoint,
            NumericalType::ComplexFloat16 | NumericalType::ComplexFloat32
            | NumericalType::ComplexFloat64 => NumericalTypeCategory::Complex,
        }
    }

    /// Returns the complex type built on this floating-point type (complex types are kept,
    /// other types give [`NumericalType::Unknown`]).
    pub fn make_complex(self) -> (r: NumericalType)
        ensures
            r == make_complex_spec(self),
    {
        match self {
            NumericalType::Float16 | NumericalType::ComplexFloat16 => NumericalType::ComplexFloat16,
            NumericalType::Float32 | NumericalType::ComplexFloat32 => NumericalType::ComplexFloat32,
            NumericalType::Float64 | NumericalType::ComplexFloat64 => NumericalType::ComplexFloat64,
            _ => NumericalType::Unknown,
        }
    }
}

fn component_bits_of(t: NumericalType) -> (r: u32)
    ensures
        r == component_bits(t),
{
    match t.size_bytes() {
        None => 0,
        Some(size) => {
            if t.category() == NumericalTypeCategory::Complex {
                4 * size as u32
            } else {
                8 * size as u32
            }
        },
    }
}

fn is_integral_type(t: NumericalType) -> (r: bool)
    ensures
        r == is_integral(t),
{
    match t.category() {
        NumericalTypeCategory::Boolean | NumericalTypeCategory::Character
        | NumericalTypeCategory::UnsignedInteger | NumericalTypeCategory::SignedInteger => true,
        _ => false,
    }
}

fn is_signed_integral_type(t: NumericalType) -> (r: bool)
    ensures
        r == is_signed_integral(t),
{
    match t.category() {
        NumericalTypeCategory::Character | NumericalTypeCategory::SignedInteger => true,
        _ => false,
    }
}

fn signed_integer_with_bits(bits: u32) -> (r: NumericalType)
    ensures
        r == signed_integer_of_bits(bits as int),
{
    if bits <= 8 {
        NumericalType::Int8
    } else if bits <= 16 {
        NumericalType::Int16
    } else if bits <= 32 {
        NumericalType::Int32
    } else {
        NumericalType::Int64
    }
}

fn unsigned_integer_with_bits(bits: u32) -> (r: NumericalType)
    ensures
        r == unsigned_integer_of_bits(bits as int),
{
    if bits <= 8 {
        NumericalType::UInt8
    } else if bits <= 16 {
        NumericalType::UInt16
    } else if bits <= 32 {
        NumericalType::UInt32
    } else {
        NumericalType::UInt64
    }
}

fn float_with_bits(bits: u32) -> (r: NumericalType)
    ensures
        r == float_of_bits(bits as int),
{
    if bits <= 16 {
        NumericalType::Float16
    } else if bits <= 32 {
        NumericalType::Float32
    } else {
        NumericalType::Float64
    }
}

fn floating_component_bits_of(t: NumericalType) -> (r: u32)
    ensures
        r == floating_component_bits(t),
{
    let bits = component_bits_of(t);
    if is_integral_type(t) {
        if 2 * bits <= 64 {
            2 * bits
        } else {
            64
        }
    } else {
        bits
    }
}

fn promote_integral_types(a: NumericalType, b: NumericalType) -> (r: NumericalType)
    ensures
        r == promote_integral(a, b),
{
    let wa = component_bits_of(a);
    let wb = component_bits_of(b);
    let wide = if wa >= wb {
        wa
    } else {
        wb
    };
    let signed_a = is_signed_integral_type(a);
    let signed_b = is_signed_integral_type(b);
    if signed_a == signed_b {
        if signed_a {
            signed_integer_with_bits(wide)
        } else {
            unsigned_integer_with_bits(wide)
        }
    } else {
        let (signed_bits, unsigned_bits) = if signed_a {
            (wa, wb)
        } else {
            (wb, wa)
        };
        if signed_bits > unsigned_bits {
            signed_integer_with_bits(signed_bits)
        } else if 2 * unsigned_bits <= 64 {
            signed_integer_with_bits(2 * unsigned_bits)
        } else {
            signed_integer_with_bits(64)
        }
    }
}

/// Returns the type to which two operand types are promoted (see [`promote_types_spec`]).
pub fn promote_types(type1: NumericalType, type2: NumericalType) -> (r: NumericalType)
    ensures
        r == promote_types_spec(type1, type2),
{
    if type1 == NumericalType::Unknown || type2 == NumericalType::Unknown {
        return NumericalType::Unknown;
    }
    if type1 == type2 {
        return type1;
    }
    if is_integral_type(type1) && is_integral_type(type2) {
        return promote_integral_types(type1, type2);
    }
    let bits1 = floating_component_bits_of(type1);
    let bits2 = floating_component_bits_of(type2);
    let bits = if bits1 >= bits2 {
        bits1
    } else {
        bits2
    };
    if type1.category() == NumericalTypeCategory::Complex || type2.category()
        == NumericalTypeCategory::Complex {
        float_with_bits(bits).make_complex()
    } else {
        float_with_bits(bits)
    }
}

/// Promotion does not depend on the order of the operands.
pub proof fn lemma_promote_types_commutative(a: NumericalType, b: NumericalType)
    ensures
        promote_types_spec(a, b) == promote_types_spec(b, a),
{
}

/// A type promotes with itself to itself.
pub proof fn lemma_promote_types_idempotent(a: NumericalType)
    ensures
        promote_types_spec(a, a) == a,
{
}

/// An unknown operand makes the promoted type unknown.
pub proof fn lemma_promote_types_unknown_absorbs(a: NumericalType)
    ensures
        promote_types_spec(NumericalType::Unknown, a) == NumericalType::Unknown,
{
}

/// Every known type has a size, and the promoted type of two known types is known and at
/// least as wide as either operand.
pub proof fn lemma_promote_types_widens(a: NumericalType, b: NumericalType)
    requires
        a != NumericalType::Unknown,
        b != NumericalType::Unknown,
    ensures
        promote_types_spec(a, b) != NumericalType::Unknown,
        size_bytes_spec(promote_types_spec(a, b)).unwrap() >= size_bytes_spec(a).unwrap(),
        size_bytes_spec(promote_types_spec(a, b)).unwrap() >= size_bytes_spec(b).unwrap(),
{
}


/// Each integer and floating-point type named by a width of 8, 16, 32 or 64 bits occupies
/// exactly that many bits (there is no 8-bit float), and the complex type over a
/// floating-point type of that width occupies twice as many.
pub proof fn lemma_sizes_match_bit_widths(bits: int)
    requires
        bits == 8 || bits == 16 || bits == 32 || bits == 64,
    ensures
        8 * size_bytes_spec(signed_integer_of_bits(bits)).unwrap() == bits,
        8 * size_bytes_spec(unsigned_integer_of_bits(bits)).unwrap() == bits,
        bits >= 16 ==> 8 * size_bytes_spec(float_of_bits(bits)).unwrap() == bits,
        bits >= 16 ==> 8 * size_bytes_spec(make_complex_spec(float_of_bits(bits))).unwrap() == 2
            * bits,
{
}

/// A complex type takes twice the bytes of the floating-point type of its components.
pub proof fn lemma_complex_size_doubles_component(t: NumericalType)
    requires
        category_spec(t) == NumericalTypeCategory::FloatingPoint,
    ensures
        size_bytes_spec(make_complex_spec(t)).unwrap() == 2 * size_bytes_spec(t).unwrap(),
        category_spec(make_complex_spec(t)) == NumericalTypeCategory::Complex,
{
}


/// The kind of a promoted type: two integral types promote to an integer, signed when either
/// operand is signed; a complex operand makes the result complex; otherwise a floating-point
/// operand makes it floating-point. A signed and an unsigned operand promote to a type wider
/// than the unsigned one, unless that one already has 64 bits.
pub proof fn lemma_promote_types_kind(a: NumericalType, b: NumericalType)
    requires
        a != NumericalType::Unknown,
        b != NumericalType::Unknown,
        a != b,
    ensures
        is_integral(a) && is_integral(b) ==> {
            let r = promote_types_spec(a, b);
            &&& category_spec(r) == NumericalTypeCategory::SignedInteger || category_spec(r)
                == NumericalTypeCategory::UnsignedInteger
            &&& (category_spec(r) == NumericalTypeCategory::SignedInteger <==> is_signed_integral(
                a,
            ) || is_signed_integral(b))
        },
        is_integral(a) && !is_signed_integral(a) && is_signed_integral(b) && size_bytes_spec(
            a,
        ).unwrap() < 8 ==> size_bytes_spec(promote_types_spec(a, b)).unwrap() > size_bytes_spec(
            a,
        ).unwrap(),
        category_spec(a) == NumericalTypeCategory::Complex || category_spec(b)
            == NumericalTypeCategory::Complex ==> category_spec(promote_types_spec(a, b))
            == NumericalTypeCategory::Complex,
        !is_integral(a) && category_spec(a) != NumericalTypeCategory::Complex && category_spec(b)
            != NumericalTypeCategory::Complex ==> category_spec(promote_types_spec(a, b))
            == NumericalTypeCategory::FloatingPoint,
{
}

} // verus!
