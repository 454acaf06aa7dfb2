// SPDX-License-Identifier: GPL-3.0-only

//! Core array metadata types: numerical types, slices, subscripts and strided layouts.

pub mod array_descriptor;
pub mod c_api;
pub mod dynamic_subscript;
pub mod layout_properties;
pub mod layout_spec;
pub mod numerical_type;
pub mod operation_laws;
pub mod slice;
pub mod slice_error;
pub mod strided_layout;
pub mod strided_layout_error;
pub mod subscript;

pub use array_descriptor::{compute_storage_requirement, is_initialized, ArrayDescriptor};
pub use dynamic_subscript::DynamicSubscript;
pub use numerical_type::{promote_types, NumericalType, NumericalTypeCategory};
pub use slice::Slice;
pub use slice_error::SliceError;
pub use strided_layout::StridedLayout;
pub use strided_layout_error::StridedLayoutError;
