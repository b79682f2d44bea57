# valuable

Inspection of Rust values, verified with Verus.

A type that implements `Valuable` presents itself as a `Value`: primitives
directly, and containers (lists, maps, structs, enums, tuples) as what a visit
of them hands to a visitor. A `Visit` implementation receives those calls; its
relations `on_value`, `on_named_fields`, `on_unnamed_fields`,
`on_primitive_slice` and `on_entry` say what each call does to it, and
`Valuable::visit` states the calls it makes; the primitive types hand a slice
over in one `visit_primitive_slice` call.
`into_owned` turns a `Value` into a `ValueOwned`, whose named fields are
collected into an `indexmap::IndexMap`.

Layout:

- `src/value.rs`: the `Value` tree (a struct or an enum variant holds the
  field lists its visit hands over, one per call) and the test for errors
  where the conversion into an owned value visits.
- `src/visit.rs`: the `Visit` trait, primitive slices, and chains of visits.
- `src/valuable.rs`: the `Valuable` trait and its implementations for the
  primitive types, `()`, `Option`, strings, paths, references, boxes, `Rc`,
  `Arc` and `Duration`, and the values and visits of network addresses.
- `src/atomic.rs`: `Valuable` for the atomic types.
- `src/owned.rs`: `ValueOwned`, `Number`, `Mapping`, `EnumValue`,
  `into_owned`, and the laws of the mappings it builds.
- `app/lib.rs`: values of the std types that stay outside the verified
  library (floats, non-zero integers, `Wrapping`, network addresses, errors;
  its header says why each) and `as_f64`.
- `tests/`: the tests.
