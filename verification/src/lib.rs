//! Builder for union-typed columnar arrays.
//!
//! A union column holds, per row, one value of one of several declared
//! primitive types, addressed by a field name.  [`UnionBuilder`] accumulates
//! such rows and finalizes them into an immutable [`UnionArray`] in either a
//! dense layout (per-field storage compacted, with a row-to-slot offset
//! index) or a sparse layout (every field padded to the full row count).

pub mod buffer;
pub mod datatypes;
pub mod union_array;
pub mod union_builder;

pub use buffer::BufferBuilder;
pub use buffer::NullBufferBuilder;
pub use datatypes::DataType;
pub use datatypes::UnionError;
pub use union_array::ChildArray;
pub use union_array::UnionArray;
pub use union_builder::FieldData;
pub use union_builder::UnionBuilder;
