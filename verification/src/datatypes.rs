//! Logical type tags and the value ranges of their physical encodings.

use vstd::prelude::*;

verus! {

/// The integer types a dictionary's keys array may use.
#[derive(Clone, Copy, Debug, PartialEq, Eq, Structural)]
pub enum IntegerType {
    Int8,
    Int16,
    Int32,
    Int64,
    UInt8,
    UInt16,
    UInt32,
    UInt64,
}

/// The logical type of a column.  Several logical tags share one native
/// width (the 32- and 64-bit temporal tags ride on `Int32`/`Int64`
/// storage); floating-point tags store the raw bit pattern of their width.
#[derive(Clone, Copy, Debug, PartialEq, Eq, Structural)]
pub enum DataType {
    Boolean,
    Int8,
    Int16,
    Int32,
    Int64,
    UInt8,
    UInt16,
    UInt32,
    UInt64,
    Float16,
    Float32,
    Float64,
    Decimal,
    Date32,
    Date64,
    Time32,
    Time64,
    Duration,
    Timestamp,
    IntervalYearMonth,
    Utf8,
    LargeUtf8,
    Binary,
    LargeBinary,
    Dictionary(IntegerType),
}

/// Tags stored as a contiguous sequence of fixed-width scalars.
pub open spec fn is_fixed_width(dt: DataType) -> bool {
    match dt {
        DataType::Int8 => true,
        DataType::Int16 => true,
        DataType::Int32 => true,
        DataType::Int64 => true,
        DataType::UInt8 => true,
        DataType::UInt16 => true,
        DataType::UInt32 => true,
        DataType::UInt64 => true,
        DataType::Float16 => true,
        DataType::Float32 => true,
        DataType::Float64 => true,
        DataType::Decimal => true,
        DataType::Date32 => true,
        DataType::Date64 => true,
        DataType::Time32 => true,
        DataType::Time64 => true,
        DataType::Duration => true,
        DataType::Timestamp => true,
        DataType::IntervalYearMonth => true,
        _ => false,
    }
}

/// The range a scalar of tag `dt` must lie in.  Unsigned and floating
/// tags hold the unsigned bit pattern of their width; signed and temporal
/// tags hold the signed range of their native width.
pub open spec fn in_range(dt: DataType, v: i128) -> bool {
    match dt {
        DataType::Int8 => i8::MIN <= v <= i8::MAX,
        DataType::Int16 => i16::MIN <= v <= i16::MAX,
        DataType::Int32 => i32::MIN <= v <= i32::MAX,
        DataType::Int64 => i64::MIN <= v <= i64::MAX,
        DataType::UInt8 => 0 <= v <= u8::MAX,
        DataType::UInt16 => 0 <= v <= u16::MAX,
        DataType::UInt32 => 0 <= v <= u32::MAX,
        DataType::UInt64 => 0 <= v <= u64::MAX,
        DataType::Float16 => 0 <= v <= u16::MAX,
        DataType::Float32 => 0 <= v <= u32::MAX,
        DataType::Float64 => 0 <= v <= u64::MAX,
        DataType::Decimal => true,
        DataType::Date32 => i32::MIN <= v <= i32::MAX,
        DataType::Date64 => i64::MIN <= v <= i64::MAX,
        DataType::Time32 => i32::MIN <= v <= i32::MAX,
        DataType::Time64 => i64::MIN <= v <= i64::MAX,
        DataType::Duration => i64::MIN <= v <= i64::MAX,
        DataType::Timestamp => i64::MIN <= v <= i64::MAX,
        DataType::IntervalYearMonth => i32::MIN <= v <= i32::MAX,
        _ => false,
    }
}

/// Tags an index column may carry.
pub open spec fn is_index_type(dt: DataType) -> bool {
    dt == DataType::Int32 || dt == DataType::Int64
}

/// Tags a dictionary's keys array may carry.
pub open spec fn is_dictionary_key(dt: DataType) -> bool {
    match dt {
        DataType::Int8 => true,
        DataType::Int16 => true,
        DataType::Int32 => true,
        DataType::Int64 => true,
        DataType::UInt8 => true,
        DataType::UInt16 => true,
        DataType::UInt32 => true,
        DataType::UInt64 => true,
        _ => false,
    }
}

/// Tags stored as variable-length byte rows behind an offsets sequence.
pub open spec fn is_variable_length(dt: DataType) -> bool {
    match dt {
        DataType::Utf8 => true,
        DataType::LargeUtf8 => true,
        DataType::Binary => true,
        DataType::LargeBinary => true,
        _ => false,
    }
}

/// The largest offset the tag's offset width can represent: 32-bit for
/// `Utf8`/`Binary`, 64-bit for their large variants.
pub open spec fn max_offset(dt: DataType) -> int {
    match dt {
        DataType::Utf8 => i32::MAX as int,
        DataType::Binary => i32::MAX as int,
        _ => i64::MAX as int,
    }
}

/// The key type a dictionary tag records for an integer keys tag.
pub open spec fn key_integer_of(dt: DataType) -> IntegerType {
    match dt {
        DataType::Int8 => IntegerType::Int8,
        DataType::Int16 => IntegerType::Int16,
        DataType::Int32 => IntegerType::Int32,
        DataType::Int64 => IntegerType::Int64,
        DataType::UInt8 => IntegerType::UInt8,
        DataType::UInt16 => IntegerType::UInt16,
        DataType::UInt32 => IntegerType::UInt32,
        _ => IntegerType::UInt64,
    }
}

/// Executable twin of [`key_integer_of`], for reading a dictionary's
/// logical type off its keys array.
pub fn key_integer(dt: DataType) -> (k: IntegerType)
    requires
        is_dictionary_key(dt),
    ensures
        k == key_integer_of(dt),
{
    match dt {
        DataType::Int8 => IntegerType::Int8,
        DataType::Int16 => IntegerType::Int16,
        DataType::Int32 => IntegerType::Int32,
        DataType::Int64 => IntegerType::Int64,
        DataType::UInt8 => IntegerType::UInt8,
        DataType::UInt16 => IntegerType::UInt16,
        DataType::UInt32 => IntegerType::UInt32,
        _ => IntegerType::UInt64,
    }
}

} // verus!
