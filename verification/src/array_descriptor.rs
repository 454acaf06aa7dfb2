// SPDX-License-Identifier: GPL-3.0-only

//! Array descriptor type that couples a layout with its numerical data type.

use crate::numerical_type::{size_bytes_spec, NumericalType};
use crate::layout_spec::{empty_layout, layouts_equal, storage_requirement_spec, LayoutView};
use crate::operation_laws::{
    farthest_index, is_element_index, lemma_storage_covers_every_element, linear_position,
};
use crate::strided_layout::StridedLayout;
use vstd::prelude::*;

verus! {

/// Describes an n-dimensional array through layout and element type metadata.
#[derive(Debug, Clone, Hash)]
pub struct ArrayDescriptor {
    layout: StridedLayout,
    data_type: NumericalType,
}

/// Mathematical view of an [`ArrayDescriptor`].
pub struct DescriptorView {
    pub layout: LayoutView,
    pub data_type: NumericalType,
}

impl View for ArrayDescriptor {
    type V = DescriptorView;

    closed spec fn view(&self) -> DescriptorView {
        DescriptorView { layout: self.layout@, data_type: self.data_type }
    }
}

/// Size in bytes of one element, `0` when the type is unknown.
pub open spec fn element_size_or_zero(t: NumericalType) -> int {
    match size_bytes_spec(t) {
        Some(size) => size as int,
        None => 0,
    }
}

/// Bytes of storage a descriptor spans: the storage requirement of its layout, in elements,
/// times the element size (`0` for an unknown type).
pub open spec fn descriptor_storage_spec(d: DescriptorView) -> int {
    storage_requirement_spec(d.layout) * element_size_or_zero(d.data_type)
}

impl PartialEq for ArrayDescriptor {
    fn eq(&self, other: &Self) -> (r: bool) {
        self.layout == other.layout && self.data_type == other.data_type
    }
}

impl vstd::std_specs::cmp::PartialEqSpecImpl for ArrayDescriptor {
    open spec fn obeys_eq_spec() -> bool {
        true
    }

    /// Descriptors are equal when their layouts are equal and their types are the same.
    open spec fn eq_spec(&self, other: &Self) -> bool {
        layouts_equal(self@.layout, other@.layout) && self@.data_type == other@.data_type
    }
}

impl Eq for ArrayDescriptor {

}

impl Default for ArrayDescriptor {
    /// The descriptor of the empty layout with an unknown type.
    fn default() -> (r: Self)
        ensures
            r@ == (DescriptorView { layout: empty_layout(), data_type: NumericalType::Unknown }),
    {
        Self { layout: StridedLayout::default(), data_type: NumericalType::Unknown }
    }
}

impl ArrayDescriptor {
    /// Builds a descriptor from a strided layout and numerical type.
    pub fn new(layout: StridedLayout, data_type: NumericalType) -> (r: Self)
        ensures
            r@ == (DescriptorView { layout: layout@, data_type }),
    {
        Self { layout, data_type }
    }

    /// Returns the array layout metadata.
    pub fn layout(&self) -> (r: &StridedLayout)
        ensures
            r@ == self@.layout,
    {
        &self.layout
    }

    /// Returns the numerical type of each array element.
    pub fn data_type(&self) -> (r: NumericalType)
        ensures
            r == self@.data_type,
    {
        self.data_type
    }
}

/// Returns whether the descriptor has a known, concrete numerical type.
pub fn is_initialized(descriptor: &ArrayDescriptor) -> (r: bool)
    ensures
        r == (descriptor@.data_type != NumericalType::Unknown),
{
    descriptor.data_type() != NumericalType::Unknown
}

/// Computes total byte storage required by the descriptor.
///
/// Returns `0` when the type size is unknown.
pub fn compute_storage_requirement(descriptor: &ArrayDescriptor) -> (r: usize)
    requires
        descriptor_storage_spec(descriptor@) <= usize::MAX,
    ensures
        r == descriptor_storage_spec(descriptor@),
{
    let size = match descriptor.data_type().size_bytes() {
        Some(size) => size,
        None => 0,
    };
    descriptor.layout().compute_storage_requirement() * size
}

/// An array of unknown element type needs no storage.
pub proof fn lemma_unknown_type_needs_no_storage(d: DescriptorView)
    requires
        d.data_type == NumericalType::Unknown,
    ensures
        descriptor_storage_spec(d) == 0,
{
}


/// The bytes an array needs: none for an unknown element type or an empty axis; otherwise,
/// when no address wraps around, the bytes of every element (from the start of the storage)
/// lie within them, and those of the farthest element end exactly at their end.
pub proof fn lemma_descriptor_bytes_cover_every_element(d: DescriptorView, idx: Seq<int>)
    requires
        d.layout.wf(),
    ensures
        d.data_type == NumericalType::Unknown ==> descriptor_storage_spec(d) == 0,
        (exists|j: int| 0 <= j < d.layout.rank() && d.layout.extents[j] == 0)
            ==> descriptor_storage_spec(d) == 0,
        ({
            let l = d.layout;
            let size = element_size_or_zero(d.data_type);
            let far = l.offset + linear_position(l.strides, farthest_index(l), l.rank() as int);
            (forall|j: int| 0 <= j < l.rank() ==> l.extents[j] >= 1) && 0 <= far + 1
                <= usize::MAX ==> {
                &&& descriptor_storage_spec(d) == (far + 1) * size
                &&& is_element_index(l.extents, idx) ==> (l.offset + linear_position(
                    l.strides,
                    idx,
                    l.rank() as int,
                ) + 1) * size <= descriptor_storage_spec(d)
            }
        }),
{
    let l = d.layout;
    lemma_storage_covers_every_element(l, idx);
    if (exists|j: int| 0 <= j < l.rank() && l.extents[j] == 0) {
        assert(storage_requirement_spec(l) == 0);
    }
    let size = element_size_or_zero(d.data_type);
    let far = l.offset + linear_position(l.strides, farthest_index(l), l.rank() as int);
    if (forall|j: int| 0 <= j < l.rank() ==> l.extents[j] >= 1) && 0 <= far + 1 <= usize::MAX
        && is_element_index(l.extents, idx) {
        let pos = l.offset + linear_position(l.strides, idx, l.rank() as int);
        let st = storage_requirement_spec(l) as int;
        assert((pos + 1) * size <= st * size) by (nonlinear_arith)
            requires
                pos + 1 <= st,
                size >= 0,
        ;
    }
}

} // verus!
