// SPDX-License-Identifier: GPL-3.0-only

//! Conversions between numerical types and the integer codes of the C interface.

use crate::numerical_type::{
    float_of_bits, make_complex_spec, signed_integer_of_bits, unsigned_integer_of_bits, NumericalType,
};
use vstd::prelude::*;

verus! {

/// The integer code of each numerical type at the C interface.
pub open spec fn c_code(t: NumericalType) -> i32 {
    match t {
        NumericalType::Unknown => -1i32,
        NumericalType::Boolean => 0,
        NumericalType::Char8 => 1,
        NumericalType::Int8 => 2,
        NumericalType::UInt8 => 3,
        NumericalType::Int16 => 4,
        NumericalType::UInt16 => 5,
        NumericalType::Int32 => 6,
        NumericalType::UInt32 => 7,
        NumericalType::Int64 => 8,
        NumericalType::UInt64 => 9,
        NumericalType::Float16 => 10,
        NumericalType::Float32 => 11,
        NumericalType::Float64 => 12,
        NumericalType::ComplexFloat16 => 13,
        NumericalType::ComplexFloat32 => 14,
        NumericalType::ComplexFloat64 => 15,
    }
}

/// The numerical type an integer code designates: the type with that code, or
/// [`NumericalType::Unknown`] for a code that no type has.
pub open spec fn from_c_code(value: i32) -> NumericalType {
    if exists|t: NumericalType| #[trigger] c_code(t) == value {
        choose|t: NumericalType| #[trigger] c_code(t) == value
    } else {
        NumericalType::Unknown
    }
}

/// Converts an integer code of the C interface to a numerical type (unknown codes give
/// [`NumericalType::Unknown`]).
pub fn from_c_numerical_type(value: i32) -> (r: NumericalType)
    ensures
        r == from_c_code(value),
{
    let r = match value {
        -1 => NumericalType::Unknown,
        0 => NumericalType::Boolean,
        1 => NumericalType::Char8,
        2 => NumericalType::Int8,
        3 => NumericalType::UInt8,
        4 => NumericalType::Int16,
        5 => NumericalType::UInt16,
        6 => NumericalType::Int32,
        7 => NumericalType::UInt32,
        8 => NumericalType::Int64,
        9 => NumericalType::UInt64,
        10 => NumericalType::Float16,
        11 => NumericalType::Float32,
        12 => NumericalType::Float64,
        13 => NumericalType::ComplexFloat16,
        14 => NumericalType::ComplexFloat32,
        15 => NumericalType::ComplexFloat64,
        _ => NumericalType::Unknown,
    };
    proof {
        lemma_c_code_injective();
        if -1 <= value <= 15 {
            assert(c_code(r) == value);
        } else {
            assert forall|t: NumericalType| c_code(t) != value by {
                lemma_c_code_range(t);
            }
        }
    }
    r
}

/// Converts a numerical type to its integer code at the C interface.
pub fn to_c_numerical_type(value: NumericalType) -> (r: i32)
    ensures
        r == c_code(value),
{
    match value {
        NumericalType::Unknown => -1,
        NumericalType::Boolean => 0,
        NumericalType::Char8 => 1,
        NumericalType::Int8 => 2,
        NumericalType::UInt8 => 3,
        NumericalType::Int16 => 4,
        NumericalType::UInt16 => 5,
        NumericalType::Int32 => 6,
        NumericalType::UInt32 => 7,
        NumericalType::Int64 => 8,
        NumericalType::UInt64 => 9,
        NumericalType::Float16 => 10,
        NumericalType::Float32 => 11,
        NumericalType::Float64 => 12,
        NumericalType::ComplexFloat16 => 13,
        NumericalType::ComplexFloat32 => 14,
        NumericalType::ComplexFloat64 => 15,
    }
}

proof fn lemma_c_code_range(t: NumericalType)
    ensures
        -1 <= c_code(t) <= 15,
{
}

/// Distinct types have distinct codes.
pub proof fn lemma_c_code_injective()
    ensures
        forall|a: NumericalType, b: NumericalType| #[trigger] c_code(a) == #[trigger] c_code(b) ==> a == b,
{
}

/// Converting a type to its code and back gives the type.
pub proof fn lemma_c_code_round_trip(t: NumericalType)
    ensures
        from_c_code(c_code(t)) == t,
{
    lemma_c_code_injective();
}

/// Every code from -1 to 15 designates a type whose code it is.
pub proof fn lemma_c_code_covers_range(value: i32)
    requires
        -1 <= value <= 15,
    ensures
        c_code(from_c_code(value)) == value,
{
    let t = match value {
        -1 => NumericalType::Unknown,
        0 => NumericalType::Boolean,
        1 => NumericalType::Char8,
        2 => NumericalType::Int8,
        3 => NumericalType::UInt8,
        4 => NumericalType::Int16,
        5 => NumericalType::UInt16,
        6 => NumericalType::Int32,
        7 => NumericalType::UInt32,
        8 => NumericalType::Int64,
        9 => NumericalType::UInt64,
        10 => NumericalType::Float16,
        11 => NumericalType::Float32,
        12 => NumericalType::Float64,
        13 => NumericalType::ComplexFloat16,
        14 => NumericalType::ComplexFloat32,
        _ => NumericalType::ComplexFloat64,
    };
    assert(c_code(t) == value);
}


/// The codes follow the order of the types: the boolean first and the character next; the
/// integers by width, each signed type just before the unsigned one of its width; then the
/// floating-point types by width; then the complex types in the order of their components.
pub proof fn lemma_c_code_order(bits: int)
    requires
        bits == 8 || bits == 16 || bits == 32 || bits == 64,
    ensures
        c_code(NumericalType::Unknown) == -1,
        c_code(NumericalType::Boolean) == 0,
        c_code(NumericalType::Char8) == c_code(NumericalType::Boolean) + 1,
        c_code(signed_integer_of_bits(8)) == c_code(NumericalType::Char8) + 1,
        c_code(unsigned_integer_of_bits(bits)) == c_code(signed_integer_of_bits(bits)) + 1,
        bits < 64 ==> c_code(signed_integer_of_bits(2 * bits)) == c_code(
            unsigned_integer_of_bits(bits),
        ) + 1,
        c_code(float_of_bits(16)) == c_code(unsigned_integer_of_bits(64)) + 1,
        16 <= bits < 64 ==> c_code(float_of_bits(2 * bits)) == c_code(float_of_bits(bits)) + 1,
        bits >= 16 ==> c_code(make_complex_spec(float_of_bits(bits))) == c_code(
            float_of_bits(bits),
        ) + 3,
{
}

} // verus!
