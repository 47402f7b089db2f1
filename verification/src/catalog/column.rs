//! A column of a table.

use crate::catalog::data_type::DataType;
use crate::catalog::data_type::SqlType;
use crate::catalog::sql::column_def_content;
use crate::catalog::sql::column_def_parts;
use crate::catalog::sql::ident_text;
use crate::catalog::sql::ident_to_string;
use crate::catalog::sql::is_quote;
use sqlparser::ast::ColumnDef;
use std::sync::Arc;
use vstd::prelude::*;

verus! {

/// A shared column.
pub type ColumnRef = Arc<Column>;

/// A column: its name and the type of its values.
#[derive(Debug, Clone)]
pub struct Column {
    pub name: String,
    pub data_type: DataType,
}

impl PartialEq for Column {
    fn eq(&self, other: &Self) -> (equal: bool) {
        self.name == other.name && self.data_type == other.data_type
    }
}

impl vstd::std_specs::cmp::PartialEqSpecImpl for Column {
    open spec fn obeys_eq_spec() -> bool {
        true
    }

    open spec fn eq_spec(&self, other: &Self) -> bool {
        self.name@ == other.name@ && self.data_type == other.data_type
    }
}

impl Column {
    /// A column with the given name and type.
    pub fn new(name: String, data_type: DataType) -> (column: Self)
        ensures
            column.name == name,
            column.data_type == data_type,
    {
        Self { name, data_type }
    }

    /// Whether a column can be made of a name with this quote style and of
    /// this type name.
    pub open spec fn accepts(quote_style: Option<char>, sql_type: SqlType) -> bool {
        &&& quote_style matches Some(q) ==> is_quote(q)
        &&& DataType::of_sql(sql_type) is Some
    }

    /// The column that a definition with these parts stands for: its name is
    /// the identifier as the parser displays it, its type the one that the
    /// type name maps to. `None` where the quote style is none that an
    /// identifier can have, or the type name is not supported.
    pub fn from_parts(value: &str, quote_style: Option<char>, sql_type: SqlType) -> (column: Option<
        Self,
    >)
        ensures
            column is Some <==> Self::accepts(quote_style, sql_type),
            column matches Some(c) ==> c.name@ == ident_text(value@, quote_style) && Some(
                c.data_type,
            ) == DataType::of_sql(sql_type),
    {
        let quoted = match quote_style {
            Some(q) => q == '"' || q == '\'' || q == '`' || q == '[',
            None => true,
        };
        if !quoted {
            return None;
        }
        match DataType::from_sql(sql_type) {
            Some(data_type) => {
                let name = ident_to_string(value, quote_style);
                Some(Self::new(name, data_type))
            },
            None => None,
        }
    }

    /// Whether a column definition of the parser stands for a column: its
    /// name has no quote style or one that an identifier can have, and its
    /// type name is supported.
    pub open spec fn accepts_def(column_def: &ColumnDef) -> bool {
        Self::accepts(column_def_content(*column_def).1, column_def_content(*column_def).2)
    }

    /// The column that a column definition of the parser stands for: its
    /// name is the definition's name as the parser displays it, its type
    /// the one that the definition's type name maps to. The definition must
    /// stand for a column; `try_from_sqlparser_column` takes any.
    pub fn from_sqlparser_column(column_def: &ColumnDef) -> (column: Self)
        requires
            Self::accepts_def(column_def),
        ensures
            column.name@ == ident_text(
                column_def_content(*column_def).0,
                column_def_content(*column_def).1,
            ),
            Some(column.data_type) == DataType::of_sql(column_def_content(*column_def).2),
    {
        let (value, quote_style, sql_type) = column_def_parts(column_def);
        Self::from_parts(value.as_str(), quote_style, sql_type).unwrap()
    }

    /// The column that a column definition of the parser stands for, as
    /// `from_sqlparser_column` gives it; `None` where the definition stands
    /// for none: its name has a quote style that no identifier can have, or
    /// its type name is not supported.
    pub fn try_from_sqlparser_column(column_def: &ColumnDef) -> (column: Option<Self>)
        ensures
            column is Some <==> Self::accepts_def(column_def),
            column matches Some(c) ==> c.name@ == ident_text(
                column_def_content(*column_def).0,
                column_def_content(*column_def).1,
            ) && Some(c.data_type) == DataType::of_sql(column_def_content(*column_def).2),
    {
        let (_value, quote_style, sql_type) = column_def_parts(column_def);
        let quoted = match quote_style {
            Some(q) => q == '"' || q == '\'' || q == '`' || q == '[',
            None => true,
        };
        if quoted && DataType::from_sql(sql_type).is_some() {
            Some(Self::from_sqlparser_column(column_def))
        } else {
            None
        }
    }
}

} // verus!
