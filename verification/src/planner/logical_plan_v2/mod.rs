//! The logical plan of a statement: a tree of relational operators.

use crate::catalog::column::Column;
use crate::catalog::schema::SchemaRef;
use std::sync::Arc;
use vstd::prelude::*;

verus! {

/// Creates a table with the given columns.
#[derive(Debug, Clone)]
pub struct CreateTable {
    pub name: String,
    pub columns: Vec<Column>,
}

/// Creates an index on a table.
#[derive(Debug, Clone)]
pub struct CreateIndex {
    pub index_name: String,
    pub table: String,
    pub table_schema: SchemaRef,
}

/// An operator without input that yields no row, or one row without columns.
#[derive(Debug, Clone)]
pub struct EmptyRelation {
    pub produce_one_row: bool,
    pub schema: SchemaRef,
}

/// Keeps the rows of its input that meet a predicate.
#[derive(Debug, Clone)]
pub struct Filter {
    pub input: Arc<LogicalPlanV2>,
}

/// Inserts the rows of its input into a table.
#[derive(Debug, Clone)]
pub struct Insert {
    pub table: String,
    pub table_schema: SchemaRef,
    pub input: Arc<LogicalPlanV2>,
}

/// Joins two inputs.
#[derive(Debug, Clone)]
pub struct Join {
    pub left: Arc<LogicalPlanV2>,
    pub right: Arc<LogicalPlanV2>,
    pub schema: SchemaRef,
}

/// Skips `offset` rows of its input and passes on at most `limit` rows.
#[derive(Debug, Clone)]
pub struct Limit {
    pub limit: Option<usize>,
    pub offset: usize,
    pub input: Arc<LogicalPlanV2>,
}

/// Computes expressions over the rows of its input.
#[derive(Debug, Clone)]
pub struct Project {
    pub input: Arc<LogicalPlanV2>,
    pub schema: SchemaRef,
}

/// Orders the rows of its input.
#[derive(Debug, Clone)]
pub struct Sort {
    pub input: Arc<LogicalPlanV2>,
    pub limit: Option<usize>,
}

/// Reads the rows of a table.
#[derive(Debug, Clone)]
pub struct TableScan {
    pub table: String,
    pub table_schema: SchemaRef,
    pub limit: Option<usize>,
}

/// Yields literal rows.
#[derive(Debug, Clone)]
pub struct Values {
    pub schema: SchemaRef,
}

/// A node of a logical plan.
#[derive(Debug, Clone)]
pub enum LogicalPlanV2 {
    CreateTable(CreateTable),
    CreateIndex(CreateIndex),
    Filter(Filter),
    Insert(Insert),
    Join(Join),
    Limit(Limit),
    Project(Project),
    TableScan(TableScan),
    Sort(Sort),
    Values(Values),
    EmptyRelation(EmptyRelation),
}

impl LogicalPlanV2 {
    /// Whether the plan yields rows, and so has a schema. A statement that
    /// creates a table or an index or inserts rows yields none; a filter, a
    /// limit and a sort yield rows where their input does.
    pub open spec fn yields_rows(&self) -> bool
        decreases self,
    {
        match self {
            LogicalPlanV2::CreateTable(_) => false,
            LogicalPlanV2::CreateIndex(_) => false,
            LogicalPlanV2::Filter(node) => node.input.yields_rows(),
            LogicalPlanV2::Insert(_) => false,
            LogicalPlanV2::Join(_) => true,
            LogicalPlanV2::Limit(node) => node.input.yields_rows(),
            LogicalPlanV2::Project(_) => true,
            LogicalPlanV2::TableScan(_) => true,
            LogicalPlanV2::Sort(node) => node.input.yields_rows(),
            LogicalPlanV2::Values(_) => true,
            LogicalPlanV2::EmptyRelation(_) => true,
        }
    }

    /// The schema of the rows that the plan yields: its own where the node
    /// carries one, that of its input for a filter, a limit and a sort.
    pub open spec fn output_schema(&self) -> SchemaRef
        recommends
            self.yields_rows(),
        decreases self,
    {
        match self {
            LogicalPlanV2::Filter(node) => node.input.output_schema(),
            LogicalPlanV2::Join(node) => node.schema,
            LogicalPlanV2::Limit(node) => node.input.output_schema(),
            LogicalPlanV2::Project(node) => node.schema,
            LogicalPlanV2::TableScan(node) => node.table_schema,
            LogicalPlanV2::Sort(node) => node.input.output_schema(),
            LogicalPlanV2::Values(node) => node.schema,
            LogicalPlanV2::EmptyRelation(node) => node.schema,
            _ => arbitrary(),
        }
    }

    /// Whether the plan yields rows.
    pub fn has_schema(&self) -> (yields: bool)
        ensures
            yields == self.yields_rows(),
        decreases self,
    {
        match self {
            LogicalPlanV2::CreateTable(_) => false,
            LogicalPlanV2::CreateIndex(_) => false,
            LogicalPlanV2::Filter(Filter { input }) => input.has_schema(),
            LogicalPlanV2::Insert(_) => false,
            LogicalPlanV2::Join(_) => true,
            LogicalPlanV2::Limit(Limit { input, .. }) => input.has_schema(),
            LogicalPlanV2::Project(_) => true,
            LogicalPlanV2::TableScan(_) => true,
            LogicalPlanV2::Sort(Sort { input, .. }) => input.has_schema(),
            LogicalPlanV2::Values(_) => true,
            LogicalPlanV2::EmptyRelation(_) => true,
        }
    }

    /// The schema of the rows that the plan yields.
    pub fn schema(&self) -> (schema: &SchemaRef)
        requires
            self.yields_rows(),
        ensures
            *schema == self.output_schema(),
        decreases self,
    {
        match self {
            LogicalPlanV2::CreateTable(_) => vstd::pervasive::unreached(),
            LogicalPlanV2::CreateIndex(_) => vstd::pervasive::unreached(),
            LogicalPlanV2::Filter(Filter { input }) => input.schema(),
            LogicalPlanV2::Insert(_) => vstd::pervasive::unreached(),
            LogicalPlanV2::Join(Join { schema, .. }) => schema,
            LogicalPlanV2::Limit(Limit { input, .. }) => input.schema(),
            LogicalPlanV2::Project(Project { schema, .. }) => schema,
            LogicalPlanV2::TableScan(TableScan { table_schema: schema, .. }) => schema,
            LogicalPlanV2::Sort(Sort { input, .. }) => input.schema(),
            LogicalPlanV2::Values(Values { schema, .. }) => schema,
            LogicalPlanV2::EmptyRelation(EmptyRelation { schema, .. }) => schema,
        }
    }
}

} // verus!
