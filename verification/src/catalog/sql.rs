//! What the catalog takes from the SQL parser's syntax tree.

use crate::catalog::data_type::SqlType;
use sqlparser::ast::ColumnDef;
use vstd::prelude::*;

verus! {

/// `sqlparser::ast::ColumnDef`, a column definition as the parser built it.
/// Nothing is known of its content here.
#[verifier::external_type_specification]
#[verifier::external_body]
pub struct ExColumnDef(sqlparser::ast::ColumnDef);

/// The text that `sqlparser::ast::escape_quoted_string` displays for a value
/// that stands between quotes of the given kind: the value with the quotes
/// in it doubled, but for those that are escaped already.
pub uninterp spec fn escaped_text(value: Seq<char>, quote: char) -> Seq<char>;

/// The quote styles that an identifier can be displayed with.
pub open spec fn is_quote(c: char) -> bool {
    c == '"' || c == '\'' || c == '`' || c == '['
}

/// The text of an identifier: the value itself without a quote style,
/// between square brackets with `[`, and else escaped between two quotes.
pub open spec fn ident_text(value: Seq<char>, quote_style: Option<char>) -> Seq<char> {
    match quote_style {
        None => value,
        Some(q) => if q == '[' {
            seq!['['] + value + seq![']']
        } else {
            seq![q] + escaped_text(value, q) + seq![q]
        },
    }
}

/// What a `sqlparser::ast::ColumnDef` holds, as far as the catalog reads it:
/// the value and the quote style of its name, and which type name it
/// carries.
pub uninterp spec fn column_def_content(column_def: ColumnDef) -> (
    Seq<char>,
    Option<char>,
    SqlType,
);

/// Reads three fields of a `sqlparser::ast::ColumnDef`: the value and the
/// quote style of its name, an `Ident`, and which variant of
/// `sqlparser::ast::DataType` its type is. The three are what the
/// definition holds: the same definition gives the same three.
#[verifier::external_body]
pub(crate) fn column_def_parts(column_def: &ColumnDef) -> (parts: (String, Option<char>, SqlType))
    ensures
        (parts.0@, parts.1, parts.2) == column_def_content(*column_def),
{
    let sql_type = match &column_def.data_type {
        sqlparser::ast::DataType::Boolean => SqlType::Boolean,
        sqlparser::ast::DataType::TinyInt(_) => SqlType::TinyInt,
        sqlparser::ast::DataType::SmallInt(_) => SqlType::SmallInt,
        sqlparser::ast::DataType::Int(_) => SqlType::Int,
        sqlparser::ast::DataType::Integer(_) => SqlType::Integer,
        sqlparser::ast::DataType::BigInt(_) => SqlType::BigInt,
        sqlparser::ast::DataType::BigIntUnsigned(_) => SqlType::BigIntUnsigned,
        _ => SqlType::Other,
    };
    (column_def.name.value.clone(), column_def.name.quote_style, sql_type)
}

/// Calls `to_string` on a `sqlparser::ast::Ident` made of `value` and
/// `quote_style`. Its display writes the value as it is without a quote
/// style, between square brackets with `[`, and for the three other quotes
/// what `escape_quoted_string` makes of the value, between two quotes. Any
/// other quote style is left out: the display panics on it.
#[verifier::external_body]
pub(crate) fn ident_to_string(value: &str, quote_style: Option<char>) -> (text: String)
    requires
        quote_style matches Some(q) ==> is_quote(q),
    ensures
        quote_style is None ==> text@ == value@,
        quote_style == Some('[') ==> text@ == seq!['['] + value@ + seq![']'],
        quote_style matches Some(q) ==> q != '[' ==> text@ == seq![q] + escaped_text(value@, q)
            + seq![q],
{
    let span = sqlparser::tokenizer::Span::empty();
    sqlparser::ast::Ident { value: value.to_string(), quote_style, span }.to_string()
}

} // verus!
