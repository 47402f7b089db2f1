//! The types a column can have.

use vstd::prelude::*;

verus! {

/// The type of the values in a column.
#[derive(Debug, Clone, Copy, PartialEq, Eq, Structural)]
pub enum DataType {
    Boolean,
    Int8,
    Int16,
    Int32,
    Int64,
    UInt64,
}

/// The type names of SQL that the catalog tells apart; every other one is
/// `Other`.
#[derive(Debug, Clone, Copy, PartialEq, Eq, Structural)]
pub enum SqlType {
    Boolean,
    TinyInt,
    SmallInt,
    Int,
    Integer,
    BigInt,
    BigIntUnsigned,
    Other,
}

impl DataType {
    /// The column type that stands for a type name of SQL, if there is one.
    pub open spec fn of_sql(sql_type: SqlType) -> Option<DataType> {
        match sql_type {
            SqlType::Boolean => Some(DataType::Boolean),
            SqlType::TinyInt => Some(DataType::Int8),
            SqlType::SmallInt => Some(DataType::Int16),
            SqlType::Int => Some(DataType::Int32),
            SqlType::Integer => Some(DataType::Int32),
            SqlType::BigInt => Some(DataType::Int64),
            SqlType::BigIntUnsigned => Some(DataType::UInt64),
            SqlType::Other => None,
        }
    }

    /// The column type that stands for a type name of SQL; `None` for a name
    /// that the catalog does not support.
    pub fn from_sql(sql_type: SqlType) -> (data_type: Option<DataType>)
        ensures
            data_type == Self::of_sql(sql_type),
    {
        match sql_type {
            SqlType::Boolean => Some(DataType::Boolean),
            SqlType::TinyInt => Some(DataType::Int8),
            SqlType::SmallInt => Some(DataType::Int16),
            SqlType::Int => Some(DataType::Int32),
            SqlType::Integer => Some(DataType::Int32),
            SqlType::BigInt => Some(DataType::Int64),
            SqlType::BigIntUnsigned => Some(DataType::UInt64),
            SqlType::Other => None,
        }
    }

    /// Number of bytes a value of the type takes.
    pub fn size(&self) -> (bytes: usize)
        ensures
            bytes == match *self {
                DataType::Boolean => 1usize,
                DataType::Int8 => 1usize,
                DataType::Int16 => 2usize,
                DataType::Int32 => 4usize,
                DataType::Int64 => 8usize,
                DataType::UInt64 => 8usize,
            },
    {
        match self {
            DataType::Boolean => 1,
            DataType::Int8 => 1,
            DataType::Int16 => 2,
            DataType::Int32 => 4,
            DataType::Int64 => 8,
            DataType::UInt64 => 8,
        }
    }
}

} // verus!
