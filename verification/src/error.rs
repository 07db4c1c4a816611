//! What can go wrong in the definition or the evaluation of a computed column.

use vstd::prelude::*;
use crate::text::{append_chars, chars_of, text_of};

verus! {

#[derive(Clone, Debug)]
pub enum ExprError {
    /// A definition with `=` lacks the name or the expression.
    InvalidSyntax,
    /// The name before `=` holds a character that is no letter, digit or underscore.
    InvalidName,
    /// The definition names a column that the page does not have.
    UnknownColumn(String),
    /// An aggregate call inside the definition names a column that the page
    /// does not have: the column, then the call.
    UnknownAggregateColumn(String, String),
    /// A text that should be an aggregate call is none.
    InvalidAggregate(String),
    /// The definition is no aggregate call, arithmetic, number or column name.
    InvalidFormat,
    /// At evaluation the page lacks the column of an aggregate call.
    ColumnNotFound(String),
    /// An aggregate call with a function other than the five known ones.
    UnknownFunction(String),
    DivisionByZero,
    /// An operand of an arithmetic step is no number.
    InvalidNumber,
}

pub enum ExprErrorView {
    InvalidSyntax,
    InvalidName,
    UnknownColumn(Seq<char>),
    UnknownAggregateColumn(Seq<char>, Seq<char>),
    InvalidAggregate(Seq<char>),
    InvalidFormat,
    ColumnNotFound(Seq<char>),
    UnknownFunction(Seq<char>),
    DivisionByZero,
    InvalidNumber,
}

impl View for ExprError {
    type V = ExprErrorView;

    open spec fn view(&self) -> ExprErrorView {
        match self {
            ExprError::InvalidSyntax => ExprErrorView::InvalidSyntax,
            ExprError::InvalidName => ExprErrorView::InvalidName,
            ExprError::UnknownColumn(c) => ExprErrorView::UnknownColumn(c@),
            ExprError::UnknownAggregateColumn(c, a) => ExprErrorView::UnknownAggregateColumn(
                c@,
                a@,
            ),
            ExprError::InvalidAggregate(a) => ExprErrorView::InvalidAggregate(a@),
            ExprError::InvalidFormat => ExprErrorView::InvalidFormat,
            ExprError::ColumnNotFound(c) => ExprErrorView::ColumnNotFound(c@),
            ExprError::UnknownFunction(f) => ExprErrorView::UnknownFunction(f@),
            ExprError::DivisionByZero => ExprErrorView::DivisionByZero,
            ExprError::InvalidNumber => ExprErrorView::InvalidNumber,
        }
    }
}

/// The text shown to the user for an error.
pub open spec fn message_of(e: ExprErrorView) -> Seq<char> {
    match e {
        ExprErrorView::InvalidSyntax => "Invalid syntax. Use 'column_name=expression'"@,
        ExprErrorView::InvalidName =>
            "Column name can only contain letters, numbers, and underscores"@,
        ExprErrorView::UnknownColumn(c) => "Column '"@ + c + "' does not exist"@,
        ExprErrorView::UnknownAggregateColumn(c, a) => "Column '"@ + c + "' in aggregate '"@ + a
            + "' does not exist"@,
        ExprErrorView::InvalidAggregate(a) => "Invalid aggregate expression: "@ + a,
        ExprErrorView::InvalidFormat =>
            "Invalid expression format. Use sum(Column), mean(Column), Column1 + Column2, or numeric constants"@,
        ExprErrorView::ColumnNotFound(c) => "Column '"@ + c + "' not found"@,
        ExprErrorView::UnknownFunction(f) => "Unknown function: "@ + f,
        ExprErrorView::DivisionByZero => "Division by zero"@,
        ExprErrorView::InvalidNumber => "invalid float literal"@,
    }
}

/// `a`, `b` and `c` in a row.
pub fn join3(a: &str, b: &str, c: &str) -> (r: String)
    ensures
        r@ == a@ + b@ + c@,
{
    let mut v = chars_of(a);
    let vb = chars_of(b);
    let vc = chars_of(c);
    append_chars(&mut v, &vb);
    append_chars(&mut v, &vc);
    text_of(&v)
}

/// `a` and `b` in a row.
pub fn join2(a: &str, b: &str) -> (r: String)
    ensures
        r@ == a@ + b@,
{
    let mut v = chars_of(a);
    let vb = chars_of(b);
    append_chars(&mut v, &vb);
    text_of(&v)
}

impl ExprError {
    /// The text shown to the user for this error.
    pub fn message(&self) -> (r: String)
        ensures
            r@ == message_of(self@),
    {
        match self {
            ExprError::InvalidSyntax => "Invalid syntax. Use 'column_name=expression'".to_owned(),
            ExprError::InvalidName =>
                "Column name can only contain letters, numbers, and underscores".to_owned(),
            ExprError::UnknownColumn(c) => join3("Column '", c.as_str(), "' does not exist"),
            ExprError::UnknownAggregateColumn(c, a) => {
                let head = join3("Column '", c.as_str(), "' in aggregate '");
                join3(head.as_str(), a.as_str(), "' does not exist")
            },
            ExprError::InvalidAggregate(a) => join2("Invalid aggregate expression: ", a.as_str()),
            ExprError::InvalidFormat =>
                "Invalid expression format. Use sum(Column), mean(Column), Column1 + Column2, or numeric constants".to_owned(),
            ExprError::ColumnNotFound(c) => join3("Column '", c.as_str(), "' not found"),
            ExprError::UnknownFunction(f) => join2("Unknown function: ", f.as_str()),
            ExprError::DivisionByZero => "Division by zero".to_owned(),
            ExprError::InvalidNumber => "invalid float literal".to_owned(),
        }
    }

    /// A copy of this error.
    pub fn duplicate(&self) -> (r: ExprError)
        ensures
            r@ == self@,
    {
        match self {
            ExprError::InvalidSyntax => ExprError::InvalidSyntax,
            ExprError::InvalidName => ExprError::InvalidName,
            ExprError::UnknownColumn(c) => ExprError::UnknownColumn(c.clone()),
            ExprError::UnknownAggregateColumn(c, a) => ExprError::UnknownAggregateColumn(
                c.clone(),
                a.clone(),
            ),
            ExprError::InvalidAggregate(a) => ExprError::InvalidAggregate(a.clone()),
            ExprError::InvalidFormat => ExprError::InvalidFormat,
            ExprError::ColumnNotFound(c) => ExprError::ColumnNotFound(c.clone()),
            ExprError::UnknownFunction(f) => ExprError::UnknownFunction(f.clone()),
            ExprError::DivisionByZero => ExprError::DivisionByZero,
            ExprError::InvalidNumber => ExprError::InvalidNumber,
        }
    }
}

} // verus!
