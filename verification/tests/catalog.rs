use bustubx::catalog::Column;
use bustubx::catalog::DataType;
use bustubx::catalog::Schema;
use bustubx::catalog::SqlType;
use sqlparser::ast::ColumnDef;
use sqlparser::ast::Ident;
use std::sync::Arc;

fn column_def(name: Ident, data_type: sqlparser::ast::DataType) -> ColumnDef {
    ColumnDef { name, data_type, options: Vec::new() }
}

#[test]
fn column_new_keeps_name_and_type() {
    let column = Column::new("id".to_string(), DataType::Int32);
    assert_eq!(column.name, "id");
    assert_eq!(column.data_type, DataType::Int32);
}

#[test]
fn columns_are_equal_by_name_and_type() {
    let a = Column::new("id".to_string(), DataType::Int32);
    let b = Column::new("id".to_string(), DataType::Int32);
    let c = Column::new("id".to_string(), DataType::Int64);
    let d = Column::new("other".to_string(), DataType::Int32);
    assert!(a == b);
    assert!(a != c);
    assert!(a != d);
}

#[test]
fn sql_types_map_to_column_types() {
    assert_eq!(DataType::from_sql(SqlType::Boolean), Some(DataType::Boolean));
    assert_eq!(DataType::from_sql(SqlType::TinyInt), Some(DataType::Int8));
    assert_eq!(DataType::from_sql(SqlType::SmallInt), Some(DataType::Int16));
    assert_eq!(DataType::from_sql(SqlType::Int), Some(DataType::Int32));
    assert_eq!(DataType::from_sql(SqlType::Integer), Some(DataType::Int32));
    assert_eq!(DataType::from_sql(SqlType::BigInt), Some(DataType::Int64));
    assert_eq!(DataType::from_sql(SqlType::BigIntUnsigned), Some(DataType::UInt64));
    assert_eq!(DataType::from_sql(SqlType::Other), None);
}

#[test]
fn data_type_sizes() {
    assert_eq!(DataType::Boolean.size(), 1);
    assert_eq!(DataType::Int8.size(), 1);
    assert_eq!(DataType::Int16.size(), 2);
    assert_eq!(DataType::Int32.size(), 4);
    assert_eq!(DataType::Int64.size(), 8);
    assert_eq!(DataType::UInt64.size(), 8);
}

#[test]
fn from_parts_without_quotes_keeps_the_name() {
    let column = Column::from_parts("price", None, SqlType::BigInt).unwrap();
    assert_eq!(column.name, "price");
    assert_eq!(column.data_type, DataType::Int64);
}

#[test]
fn from_parts_displays_quoted_names_with_their_quotes() {
    let double = Column::from_parts("a b", Some('"'), SqlType::Int).unwrap();
    assert_eq!(double.name, "\"a b\"");
    let tick = Column::from_parts("a b", Some('`'), SqlType::Int).unwrap();
    assert_eq!(tick.name, "`a b`");
    let bracket = Column::from_parts("a b", Some('['), SqlType::Int).unwrap();
    assert_eq!(bracket.name, "[a b]");
    let escaped = Column::from_parts("a\"b", Some('"'), SqlType::Int).unwrap();
    assert_eq!(escaped.name, "\"a\"\"b\"");
}

#[test]
fn from_parts_refuses_unknown_quotes_and_types() {
    assert!(Column::from_parts("a", Some('#'), SqlType::Int).is_none());
    assert!(Column::from_parts("a", None, SqlType::Other).is_none());
    assert!(Column::from_parts("a", Some('#'), SqlType::Other).is_none());
}

#[test]
fn from_sqlparser_column_reads_name_and_type() {
    let cases = vec![
        (sqlparser::ast::DataType::Boolean, DataType::Boolean),
        (sqlparser::ast::DataType::TinyInt(None), DataType::Int8),
        (sqlparser::ast::DataType::SmallInt(None), DataType::Int16),
        (sqlparser::ast::DataType::Int(None), DataType::Int32),
        (sqlparser::ast::DataType::Integer(Some(11)), DataType::Int32),
        (sqlparser::ast::DataType::BigInt(None), DataType::Int64),
        (sqlparser::ast::DataType::BigIntUnsigned(None), DataType::UInt64),
    ];
    for (sql, expected) in cases {
        let column = Column::from_sqlparser_column(&column_def(Ident::new("c1"), sql));
        assert_eq!(column.name, "c1");
        assert_eq!(column.data_type, expected);
    }
}

#[test]
fn from_sqlparser_column_keeps_the_quotes_of_the_name() {
    let def = column_def(Ident::with_quote('"', "my col"), sqlparser::ast::DataType::Int(None));
    let column = Column::from_sqlparser_column(&def);
    assert_eq!(column.name, "\"my col\"");
    assert_eq!(column.name, def.name.to_string());
}

#[test]
fn try_from_sqlparser_column_refuses_unsupported_types() {
    let def = column_def(Ident::new("t"), sqlparser::ast::DataType::Text);
    assert!(Column::try_from_sqlparser_column(&def).is_none());
    let def = column_def(Ident::new("u"), sqlparser::ast::DataType::Uuid);
    assert!(Column::try_from_sqlparser_column(&def).is_none());
}

#[test]
fn from_sqlparser_column_on_parsed_statement() {
    let dialect = sqlparser::dialect::GenericDialect {};
    let sql = "CREATE TABLE t (id BIGINT, ok BOOLEAN)";
    let statements = sqlparser::parser::Parser::parse_sql(&dialect, sql).unwrap();
    let columns = match &statements[0] {
        sqlparser::ast::Statement::CreateTable(create) => create.columns.clone(),
        _ => panic!("not a create table statement"),
    };
    let id = Column::from_sqlparser_column(&columns[0]);
    let ok = Column::from_sqlparser_column(&columns[1]);
    assert!(id == Column::new("id".to_string(), DataType::Int64));
    assert!(ok == Column::new("ok".to_string(), DataType::Boolean));
}

#[test]
fn schema_counts_its_columns() {
    let schema = Schema::new(vec![
        Arc::new(Column::new("a".to_string(), DataType::Int8)),
        Arc::new(Column::new("b".to_string(), DataType::Int16)),
    ]);
    assert_eq!(schema.column_count(), 2);
    assert_eq!(schema.columns[1].name, "b");
    assert_eq!(Schema::new(Vec::new()).column_count(), 0);
}

#[test]
fn try_from_sqlparser_column_refuses_a_quote_that_no_identifier_has() {
    let name = Ident {
        value: "a".to_string(),
        quote_style: Some('#'),
        span: sqlparser::tokenizer::Span::empty(),
    };
    let def = column_def(name, sqlparser::ast::DataType::Int(None));
    assert!(Column::try_from_sqlparser_column(&def).is_none());
}

#[test]
fn from_sqlparser_column_agrees_with_from_parts() {
    let def = column_def(Ident::with_quote('`', "a`b"), sqlparser::ast::DataType::SmallInt(None));
    let from_def = Column::from_sqlparser_column(&def);
    let tried = Column::try_from_sqlparser_column(&def).unwrap();
    assert!(tried == from_def);
    let from_parts = Column::from_parts("a`b", Some('`'), SqlType::SmallInt).unwrap();
    assert!(from_def == from_parts);
    assert_eq!(from_def.name, "`a``b`");
    assert_eq!(from_def.data_type, DataType::Int16);
}
