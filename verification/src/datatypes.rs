//! The primitive type descriptors a union field can be bound to, and the
//! error type of the builder.

use vstd::prelude::*;

verus! {

/// Identifier of a fixed-width primitive type.  A field of the union is
/// bound to one of these for its whole lifetime; values of the type are
/// carried as their fixed-width native byte encoding.
#[derive(Clone, Copy, Debug, PartialEq, Eq, Structural)]
pub enum DataType {
    Int8,
    Int16,
    Int32,
    Int64,
    UInt8,
    UInt16,
    UInt32,
    UInt64,
    Float32,
    Float64,
}

impl DataType {
    /// Width in bytes of one native value of this type.
    pub open spec fn spec_width(self) -> nat {
        match self {
            DataType::Int8 => 1,
            DataType::Int16 => 2,
            DataType::Int32 => 4,
            DataType::Int64 => 8,
            DataType::UInt8 => 1,
            DataType::UInt16 => 2,
            DataType::UInt32 => 4,
            DataType::UInt64 => 8,
            DataType::Float32 => 4,
            DataType::Float64 => 8,
        }
    }

    /// Width in bytes of one native value of this type.
    pub fn width(&self) -> (w: usize)
        ensures
            w == self.spec_width(),
    {
        match self {
            DataType::Int8 => 1,
            DataType::Int16 => 2,
            DataType::Int32 => 4,
            DataType::Int64 => 8,
            DataType::UInt8 => 1,
            DataType::UInt16 => 2,
            DataType::UInt32 => 4,
            DataType::UInt64 => 8,
            DataType::Float32 => 4,
            DataType::Float64 => 8,
        }
    }
}

/// Failures surfaced by the builder and by array construction.
///
/// `TypeConflict` is the single recoverable failure of the append protocol: a
/// field name was reused with a type other than its first binding.  The
/// remaining variants are the checks of [`crate::union_array::UnionArray`]
/// construction; a well-formed builder never produces them.
#[derive(Clone, Debug)]
pub enum UnionError {
    /// The named field is bound to `existing`, but an append requested
    /// `requested`.
    TypeConflict { field: String, existing: DataType, requested: DataType },
    /// A discriminant does not index a child of the union array.
    InvalidTypeId { row: usize },
    /// A dense offset does not index a slot of its target child.
    InvalidOffset { row: usize },
    /// The offset sequence's length differs from the row count.
    OffsetLengthMismatch,
    /// A sparse child's length differs from the row count.
    ChildLengthMismatch { child: usize },
}

} // verus!
