use bustubx::catalog::Column;
use bustubx::catalog::DataType;
use bustubx::catalog::Schema;
use bustubx::catalog::SchemaRef;
use bustubx::planner::logical_plan_v2::CreateIndex;
use bustubx::planner::logical_plan_v2::CreateTable;
use bustubx::planner::logical_plan_v2::EmptyRelation;
use bustubx::planner::logical_plan_v2::Filter;
use bustubx::planner::logical_plan_v2::Insert;
use bustubx::planner::logical_plan_v2::Join;
use bustubx::planner::logical_plan_v2::Limit;
use bustubx::planner::logical_plan_v2::Project;
use bustubx::planner::logical_plan_v2::Sort;
use bustubx::planner::logical_plan_v2::TableScan;
use bustubx::planner::logical_plan_v2::Values;
use bustubx::planner::LogicalPlanV2;
use std::sync::Arc;

fn schema_of(names: Vec<&str>) -> SchemaRef {
    let mut columns = Vec::new();
    for name in names {
        columns.push(Arc::new(Column::new(name.to_string(), DataType::Int32)));
    }
    Arc::new(Schema::new(columns))
}

fn scan(names: Vec<&str>) -> LogicalPlanV2 {
    LogicalPlanV2::TableScan(TableScan {
        table: "t".to_string(),
        table_schema: schema_of(names),
        limit: None,
    })
}

#[test]
fn nodes_with_a_schema_of_their_own() {
    let s = schema_of(vec!["a", "b"]);
    let table_scan = LogicalPlanV2::TableScan(TableScan {
        table: "t".to_string(),
        table_schema: s.clone(),
        limit: Some(3),
    });
    assert!(table_scan.has_schema());
    assert!(Arc::ptr_eq(table_scan.schema(), &s));

    let values = LogicalPlanV2::Values(Values { schema: s.clone() });
    assert!(values.has_schema());
    assert!(Arc::ptr_eq(values.schema(), &s));

    let empty = LogicalPlanV2::EmptyRelation(EmptyRelation {
        produce_one_row: true,
        schema: s.clone(),
    });
    assert!(empty.has_schema());
    assert!(Arc::ptr_eq(empty.schema(), &s));

    let project = LogicalPlanV2::Project(Project {
        input: Arc::new(scan(vec!["x", "y", "z"])),
        schema: s.clone(),
    });
    assert!(project.has_schema());
    assert!(Arc::ptr_eq(project.schema(), &s));

    let join = LogicalPlanV2::Join(Join {
        left: Arc::new(scan(vec!["x"])),
        right: Arc::new(scan(vec!["y"])),
        schema: s.clone(),
    });
    assert!(join.has_schema());
    assert!(Arc::ptr_eq(join.schema(), &s));
}

#[test]
fn filter_limit_and_sort_pass_on_the_schema_of_their_input() {
    let s = schema_of(vec!["a"]);
    let input = Arc::new(LogicalPlanV2::Values(Values { schema: s.clone() }));
    let filter = LogicalPlanV2::Filter(Filter { input: input.clone() });
    assert!(Arc::ptr_eq(filter.schema(), &s));
    let limit = LogicalPlanV2::Limit(Limit { limit: Some(1), offset: 0, input: input.clone() });
    assert!(Arc::ptr_eq(limit.schema(), &s));
    let sort = LogicalPlanV2::Sort(Sort { input: input.clone(), limit: None });
    assert!(Arc::ptr_eq(sort.schema(), &s));
    let nested = LogicalPlanV2::Limit(Limit {
        limit: None,
        offset: 2,
        input: Arc::new(LogicalPlanV2::Sort(Sort { input: Arc::new(filter), limit: Some(5) })),
    });
    assert!(nested.has_schema());
    assert!(Arc::ptr_eq(nested.schema(), &s));
    assert_eq!(nested.schema().column_count(), 1);
}

#[test]
fn statements_without_rows_have_no_schema() {
    let s = schema_of(vec!["a"]);
    let create_table = LogicalPlanV2::CreateTable(CreateTable {
        name: "t".to_string(),
        columns: vec![Column::new("a".to_string(), DataType::Int32)],
    });
    assert!(!create_table.has_schema());
    let create_index = LogicalPlanV2::CreateIndex(CreateIndex {
        index_name: "i".to_string(),
        table: "t".to_string(),
        table_schema: s.clone(),
    });
    assert!(!create_index.has_schema());
    let insert = LogicalPlanV2::Insert(Insert {
        table: "t".to_string(),
        table_schema: s.clone(),
        input: Arc::new(LogicalPlanV2::Values(Values { schema: s.clone() })),
    });
    assert!(!insert.has_schema());
    let filter_over_insert = LogicalPlanV2::Filter(Filter { input: Arc::new(insert) });
    assert!(!filter_over_insert.has_schema());
}
