// SPDX-License-Identifier: GPL-3.0-only

use xmipp4_core_types::{promote_types, NumericalType, NumericalTypeCategory};

#[test]
fn promotion_of_equal_types_is_identity() {
    for t in [
        NumericalType::Boolean,
        NumericalType::Char8,
        NumericalType::UInt32,
        NumericalType::Float16,
        NumericalType::ComplexFloat64,
    ] {
        assert_eq!(promote_types(t, t), t);
    }
}

#[test]
fn promotion_mixes_integers_and_floats() {
    assert_eq!(
        promote_types(NumericalType::Int8, NumericalType::Float16),
        NumericalType::Float16
    );
    assert_eq!(
        promote_types(NumericalType::Int16, NumericalType::Float16),
        NumericalType::Float32
    );
    assert_eq!(
        promote_types(NumericalType::UInt32, NumericalType::Float32),
        NumericalType::Float64
    );
    assert_eq!(
        promote_types(NumericalType::Int32, NumericalType::ComplexFloat16),
        NumericalType::ComplexFloat64
    );
    assert_eq!(
        promote_types(NumericalType::UInt16, NumericalType::Int32),
        NumericalType::Int32
    );
    assert_eq!(
        promote_types(NumericalType::UInt32, NumericalType::Int16),
        NumericalType::Int64
    );
    assert_eq!(
        promote_types(NumericalType::Boolean, NumericalType::UInt16),
        NumericalType::UInt16
    );
    assert_eq!(
        promote_types(NumericalType::Char8, NumericalType::Int32),
        NumericalType::Int32
    );
}

#[test]
fn categories_and_sizes_of_every_family() {
    assert_eq!(NumericalType::Unknown.category(), NumericalTypeCategory::Unknown);
    assert_eq!(NumericalType::Boolean.category(), NumericalTypeCategory::Boolean);
    assert_eq!(NumericalType::Char8.category(), NumericalTypeCategory::Character);
    assert_eq!(NumericalType::Int16.category(), NumericalTypeCategory::SignedInteger);
    assert_eq!(NumericalType::Float64.category(), NumericalTypeCategory::FloatingPoint);
    assert_eq!(NumericalType::ComplexFloat16.category(), NumericalTypeCategory::Complex);
    assert_eq!(NumericalType::ComplexFloat64.size_bytes(), Some(16));
    assert_eq!(NumericalType::Boolean.size_bytes(), Some(1));
    assert_eq!(NumericalType::Float16.make_complex(), NumericalType::ComplexFloat16);
    assert_eq!(NumericalType::Boolean.make_complex(), NumericalType::Unknown);
}
