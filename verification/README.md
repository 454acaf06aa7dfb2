# xmipp4_core_types

Array metadata for n-dimensional arrays, verified with Verus: numerical element types and
their promotion, runtime slices and dynamic subscripts, strided layouts (extents, strides
and offset) with their axis transforms, and array descriptors.

- `src/` is the verified library. `layout_spec.rs` holds the mathematical model of layouts
  and of what every layout operation computes; `strided_layout.rs` implements the operations
  against it; `layout_properties.rs` and the `lemma_*` functions of the other modules prove
  properties that hold on every input (involutions, idempotence, equality laws, storage
  span of contiguous layouts, slice sanitization bounds).
- `app/` holds the C ABI entry points and error types with human-readable messages.
- `tests/` exercises the library on concrete values.
