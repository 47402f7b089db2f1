//! The catalog's view of tables: columns, their types, and schemas.

pub mod column;
pub mod data_type;
pub mod schema;
pub mod sql;

pub use column::Column;
pub use column::ColumnRef;
pub use data_type::DataType;
pub use data_type::SqlType;
pub use schema::Schema;
pub use schema::SchemaRef;
