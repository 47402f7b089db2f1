//! The schema of a relation: its columns, in order.

use crate::catalog::column::ColumnRef;
use std::sync::Arc;
use vstd::prelude::*;

verus! {

/// A shared schema.
pub type SchemaRef = Arc<Schema>;

/// The columns of a relation, in order.
#[derive(Debug, Clone)]
pub struct Schema {
    pub columns: Vec<ColumnRef>,
}

impl Schema {
    /// A schema with the given columns.
    pub fn new(columns: Vec<ColumnRef>) -> (schema: Self)
        ensures
            schema.columns == columns,
    {
        Self { columns }
    }

    /// Number of columns.
    pub fn column_count(&self) -> (count: usize)
        ensures
            count == self.columns@.len(),
    {
        self.columns.len()
    }
}

} // verus!
