//! The values of computed columns on a page.
//!
//! A computed column is appended to the page: its name to the columns, one
//! value to each row. An aggregate gives every row the same value. A row
//! operation writes the row's numbers in the place of the column names and
//! evaluates what results; a mixed operation first writes the values of its
//! aggregate calls in their place.

use vstd::prelude::*;
use crate::database::{lemma_index_of_text, position_of, PageView, QueryResult};
use crate::error::{ExprError, ExprErrorView};
use crate::evaluate::{evaluate, evaluated, lemma_value_asks_open, lemma_value_stable};
use crate::expression::{
    aggregate_parts,
    call_parts,
    substitute_token,
    substituted,
    ColumnTypeView,
    ColumnView,
    ComputedColumn,
    ComputedColumnType,
};
use crate::number::{is_number, is_number_text};
use crate::numeric::{
    answer_to,
    extends,
    AggregateFn,
    Answer,
    AnswerView,
    Answers,
    Book,
    Progress,
    Request,
    RequestView,
    Step,
};
use crate::text::{
    chars_of,
    clone_texts,
    copy_range,
    decimal,
    decimal_chars,
    matches_at,
    occurs_at,
    replace_all,
    replaced,
    text_of,
    trim_chars,
    trimmed,
};

verus! {

/// `s` without the leading repetitions of `p`.
pub open spec fn without_prefixes(s: Seq<char>, p: Seq<char>) -> Seq<char>
    decreases s.len(),
{
    if p.len() > 0 && occurs_at(s, p, 0) {
        without_prefixes(s.subrange(p.len() as int, s.len() as int), p)
    } else {
        s
    }
}

/// `s` without its leading characters `c`.
pub open spec fn without_leading(s: Seq<char>, c: char) -> Seq<char>
    decreases s.len(),
{
    if s.len() > 0 && s[0] == c {
        without_leading(s.drop_first(), c)
    } else {
        s
    }
}

/// `s` without its trailing characters `c`.
pub open spec fn without_trailing(s: Seq<char>, c: char) -> Seq<char>
    decreases s.len(),
{
    if s.len() > 0 && s.last() == c {
        without_trailing(s.drop_last(), c)
    } else {
        s
    }
}

/// The column that an aggregate expression is about: the expression without
/// the function in front, without the brackets around the rest, trimmed.
pub open spec fn aggregate_column(expression: Seq<char>, func: Seq<char>) -> Seq<char> {
    trimmed(without_trailing(without_leading(without_prefixes(expression, func), '('), ')'))
}

fn strip_prefixes(v: &Vec<char>, p: &Vec<char>) -> (r: Vec<char>)
    ensures
        r@ == without_prefixes(v@, p@),
{
    let n = v.len();
    let mut i: usize = 0;
    proof {
        assert(v@.subrange(0, n as int) =~= v@);
    }
    while p.len() > 0 && matches_at(v, p, i)
        invariant
            i <= n,
            n == v.len(),
            without_prefixes(v@, p@) == without_prefixes(v@.subrange(i as int, n as int), p@),
        decreases n - i,
    {
        let ghost rest = v@.subrange(i as int, n as int);
        proof {
            assert(rest.subrange(0, p.len() as int) =~= v@.subrange(i as int, i + p.len()));
            assert(rest.subrange(p.len() as int, rest.len() as int) =~= v@.subrange(
                i + p.len(),
                n as int,
            ));
        }
        i += p.len();
    }
    proof {
        let rest = v@.subrange(i as int, n as int);
        if p.len() > 0 && rest.len() >= p.len() {
            assert(rest.subrange(0, p.len() as int) =~= v@.subrange(i as int, i + p.len()));
        }
    }
    copy_range(v, i, n)
}

fn strip_leading(v: &Vec<char>, c: char) -> (r: Vec<char>)
    ensures
        r@ == without_leading(v@, c),
{
    let n = v.len();
    let mut i: usize = 0;
    proof {
        assert(v@.subrange(0, n as int) =~= v@);
    }
    while i < n && v[i] == c
        invariant
            i <= n,
            n == v.len(),
            without_leading(v@, c) == without_leading(v@.subrange(i as int, n as int), c),
        decreases n - i,
    {
        proof {
            assert(v@.subrange(i as int, n as int).drop_first() =~= v@.subrange(i + 1, n as int));
        }
        i += 1;
    }
    copy_range(v, i, n)
}

fn strip_trailing(v: &Vec<char>, c: char) -> (r: Vec<char>)
    ensures
        r@ == without_trailing(v@, c),
{
    let mut i: usize = v.len();
    proof {
        assert(v@.subrange(0, i as int) =~= v@);
    }
    while i > 0 && v[i - 1] == c
        invariant
            i <= v.len(),
            without_trailing(v@, c) == without_trailing(v@.subrange(0, i as int), c),
        decreases i,
    {
        proof {
            assert(v@.subrange(0, i as int).drop_last() =~= v@.subrange(0, i - 1));
        }
        i -= 1;
    }
    copy_range(v, 0, i)
}

/// The five aggregate functions, and what is none of them.
pub enum FunctionKind {
    Count,
    Reduce(AggregateFn),
    Unknown,
}

pub open spec fn function_kind(func: Seq<char>) -> FunctionKind {
    if func == seq!['s', 'u', 'm'] {
        FunctionKind::Reduce(AggregateFn::Sum)
    } else if func == seq!['m', 'e', 'a', 'n'] {
        FunctionKind::Reduce(AggregateFn::Mean)
    } else if func == seq!['c', 'o', 'u', 'n', 't'] {
        FunctionKind::Count
    } else if func == seq!['m', 'i', 'n'] {
        FunctionKind::Reduce(AggregateFn::Min)
    } else if func == seq!['m', 'a', 'x'] {
        FunctionKind::Reduce(AggregateFn::Max)
    } else {
        FunctionKind::Unknown
    }
}

fn is_word3(v: &Vec<char>, a: char, b: char, c: char) -> (r: bool)
    ensures
        r == (v@ == seq![a, b, c]),
{
    let r = v.len() == 3 && v[0] == a && v[1] == b && v[2] == c;
    proof {
        if r {
            assert(v@ =~= seq![a, b, c]);
        } else {
            assert(seq![a, b, c].len() == 3 && seq![a, b, c][0] == a && seq![a, b, c][1] == b
                && seq![a, b, c][2] == c);
        }
    }
    r
}

fn kind_of(v: &Vec<char>) -> (r: FunctionKind)
    ensures
        r == function_kind(v@),
{
    if is_word3(v, 's', 'u', 'm') {
        FunctionKind::Reduce(AggregateFn::Sum)
    } else if v.len() == 4 && v[0] == 'm' && v[1] == 'e' && v[2] == 'a' && v[3] == 'n' {
        proof {
            assert(v@ =~= seq!['m', 'e', 'a', 'n']);
        }
        FunctionKind::Reduce(AggregateFn::Mean)
    } else if v.len() == 5 && v[0] == 'c' && v[1] == 'o' && v[2] == 'u' && v[3] == 'n' && v[4]
        == 't' {
        proof {
            assert(seq!['m', 'e', 'a', 'n'].len() == 4);
            assert(v@ =~= seq!['c', 'o', 'u', 'n', 't']);
        }
        FunctionKind::Count
    } else {
        proof {
            let m = seq!['m', 'e', 'a', 'n'];
            assert(m.len() == 4 && m[0] == 'm' && m[1] == 'e' && m[2] == 'a' && m[3] == 'n');
            let c = seq!['c', 'o', 'u', 'n', 't'];
            assert(c.len() == 5 && c[0] == 'c' && c[1] == 'o' && c[2] == 'u' && c[3] == 'n'
                && c[4] == 't');
        }
        if is_word3(v, 'm', 'i', 'n') {
            FunctionKind::Reduce(AggregateFn::Min)
        } else if is_word3(v, 'm', 'a', 'x') {
            FunctionKind::Reduce(AggregateFn::Max)
        } else {
            FunctionKind::Unknown
        }
    }
}

/// The cells of column `idx` that read as a number, from the first row down.
/// A row that is too short has no such cell.
pub open spec fn number_cells(rows: Seq<Seq<Seq<char>>>, idx: int) -> Seq<Seq<char>>
    decreases rows.len(),
{
    if rows.len() == 0 {
        Seq::empty()
    } else {
        let rest = number_cells(rows.drop_last(), idx);
        let row = rows.last();
        if 0 <= idx < row.len() && is_number(row[idx]) {
            rest.push(row[idx])
        } else {
            rest
        }
    }
}

/// What the book says to a request whose answer is a text; any other answer
/// is an error.
pub open spec fn asked(book: Book, q: RequestView) -> Progress<Seq<char>> {
    match answer_to(book, q) {
        None => Progress::Ask(q),
        Some(AnswerView::Text(t)) => Progress::Done(t),
        Some(_) => Progress::Failed(ExprErrorView::InvalidNumber),
    }
}

fn ask(book: &Answers, q: Request) -> (r: Step<String>)
    ensures
        r@ == asked(book@, q@),
{
    match book.lookup(&q) {
        None => Step::Ask(q),
        Some(Answer::Text(t)) => Step::Done(t),
        Some(_) => Step::Failed(ExprError::InvalidNumber),
    }
}

/// The value of the aggregate `expression` with the function `func` on a page:
/// `0` where its column has no number; the count of the numbers for `count`;
/// else what the book has for the function over the numbers.
pub open spec fn aggregate_value(
    book: Book,
    page: PageView,
    func: Seq<char>,
    expression: Seq<char>,
) -> Progress<Seq<char>> {
    let column = aggregate_column(expression, func);
    match page.column_index(column) {
        None => Progress::Failed(ExprErrorView::ColumnNotFound(column)),
        Some(idx) => {
            let cells = number_cells(page.rows, idx);
            if cells.len() == 0 {
                Progress::Done(seq!['0'])
            } else {
                match function_kind(func) {
                    FunctionKind::Count => Progress::Done(decimal(cells.len())),
                    FunctionKind::Reduce(f) => asked(book, RequestView::Aggregate(f, cells)),
                    FunctionKind::Unknown => Progress::Failed(
                        ExprErrorView::UnknownFunction(func),
                    ),
                }
            }
        },
    }
}

fn collect_numbers(rows: &Vec<Vec<String>>, idx: usize) -> (r: Vec<String>)
    ensures
        r.deep_view() == number_cells(rows.deep_view(), idx as int),
{
    let mut r: Vec<String> = Vec::new();
    let mut i: usize = 0;
    proof {
        assert(rows.deep_view().take(0) =~= Seq::<Seq<Seq<char>>>::empty());
        assert(r.deep_view() =~= Seq::<Seq<char>>::empty());
    }
    while i < rows.len()
        invariant
            i <= rows.len(),
            r.deep_view() == number_cells(rows.deep_view().take(i as int), idx as int),
        decreases rows.len() - i,
    {
        let ghost before = r.deep_view();
        proof {
            assert(rows.deep_view().take(i + 1).drop_last() =~= rows.deep_view().take(i as int));
            assert(rows.deep_view().take(i + 1).last() == rows[i as int].deep_view());
        }
        if idx < rows[i].len() {
            proof {
                assert(rows[i as int].deep_view()[idx as int] == rows[i as int][idx as int]@);
            }
            if is_number_text(rows[i][idx].as_str()) {
                r.push(rows[i][idx].clone());
                proof {
                    assert(r.deep_view() =~= before.push(rows[i as int][idx as int]@));
                }
            }
        }
        i += 1;
    }
    proof {
        assert(rows.deep_view().take(rows.len() as int) =~= rows.deep_view());
    }
    r
}

/// The value of the aggregate `expression` with the function `func` on `data`.
pub fn compute_aggregate(data: &QueryResult, func: &str, expression: &str, book: &Answers) -> (r:
    Step<String>)
    ensures
        r@ == aggregate_value(book@, data@, func@, expression@),
{
    let f = chars_of(func);
    let e = chars_of(expression);
    let column = trim_chars(&strip_trailing(&strip_leading(&strip_prefixes(&e, &f), '('), ')'));
    let column_text = text_of(&column);
    match position_of(&data.columns, column_text.as_str()) {
        None => Step::Failed(ExprError::ColumnNotFound(column_text)),
        Some(idx) => {
            let cells = collect_numbers(&data.rows, idx);
            if cells.len() == 0 {
                let mut zero: Vec<char> = Vec::new();
                zero.push('0');
                proof {
                    assert(zero@ =~= seq!['0']);
                }
                Step::Done(text_of(&zero))
            } else {
                match kind_of(&f) {
                    FunctionKind::Count => Step::Done(text_of(&decimal_chars(cells.len() as u64))),
                    FunctionKind::Reduce(which) => ask(book, Request::Aggregate(which, cells)),
                    FunctionKind::Unknown => Step::Failed(
                        ExprError::UnknownFunction(func.to_owned()),
                    ),
                }
            }
        },
    }
}

/// `expr` with the values of the columns `cols[k..]` of a row written in the
/// place of their names, one column after the other. A name is replaced where
/// it is a whole token of the expression, so a column whose name is part of
/// another's does not touch that other. A column that the page lacks, or that
/// the row is too short for, stays as it is.
pub open spec fn with_cells(
    book: Book,
    page: PageView,
    row: Seq<Seq<char>>,
    expr: Seq<char>,
    cols: Seq<Seq<char>>,
    k: int,
) -> Progress<Seq<char>>
    decreases cols.len() - k,
{
    if k < 0 || k >= cols.len() {
        Progress::Done(expr)
    } else {
        match page.column_index(cols[k]) {
            Some(idx) => if idx < row.len() {
                match asked(book, RequestView::CellValue(row[idx])) {
                    Progress::Done(v) => with_cells(
                        book,
                        page,
                        row,
                        substituted(expr, cols[k], v),
                        cols,
                        k + 1,
                    ),
                    other => other,
                }
            } else {
                with_cells(book, page, row, expr, cols, k + 1)
            },
            None => with_cells(book, page, row, expr, cols, k + 1),
        }
    }
}

/// `expr` with the values of the aggregate calls `aggs[k..]` written in their
/// place, one call after the other. A text that is no aggregate call stays as
/// it is.
pub open spec fn with_aggregates(
    book: Book,
    page: PageView,
    expr: Seq<char>,
    aggs: Seq<Seq<char>>,
    k: int,
) -> Progress<Seq<char>>
    decreases aggs.len() - k,
{
    if k < 0 || k >= aggs.len() {
        Progress::Done(expr)
    } else {
        match call_parts(aggs[k]) {
            Some((func, arg)) => match aggregate_value(book, page, func, aggs[k]) {
                Progress::Done(v) => with_aggregates(
                    book,
                    page,
                    replaced(expr, aggs[k], v),
                    aggs,
                    k + 1,
                ),
                other => other,
            },
            None => with_aggregates(book, page, expr, aggs, k + 1),
        }
    }
}

/// The value of a row operation on one row.
pub open spec fn row_operation_value(
    book: Book,
    page: PageView,
    row: Seq<Seq<char>>,
    expression: Seq<char>,
    cols: Seq<Seq<char>>,
) -> Progress<Seq<char>> {
    match with_cells(book, page, row, expression, cols, 0) {
        Progress::Done(e) => evaluated(book, e),
        other => other,
    }
}

/// The value of a mixed operation on one row.
pub open spec fn mixed_operation_value(
    book: Book,
    page: PageView,
    row: Seq<Seq<char>>,
    expression: Seq<char>,
    cols: Seq<Seq<char>>,
    aggs: Seq<Seq<char>>,
) -> Progress<Seq<char>> {
    match with_aggregates(book, page, expression, aggs, 0) {
        Progress::Done(e) => row_operation_value(book, page, row, e, cols),
        other => other,
    }
}

fn substitute_text(expr: &str, name: &str, value: &str) -> (r: String)
    ensures
        r@ == substituted(expr@, name@, value@),
{
    text_of(&substitute_token(&chars_of(expr), &chars_of(name), &chars_of(value)))
}

fn replace_text(expr: &str, from: &str, to: &str) -> (r: String)
    ensures
        r@ == replaced(expr@, from@, to@),
{
    text_of(&replace_all(&chars_of(expr), &chars_of(from), &chars_of(to)))
}

fn substitute_cells(
    data: &QueryResult,
    row: &Vec<String>,
    expression: String,
    columns_used: &Vec<String>,
    book: &Answers,
) -> (r: Step<String>)
    ensures
        r@ == with_cells(
            book@,
            data@,
            row.deep_view(),
            expression@,
            columns_used.deep_view(),
            0,
        ),
{
    let mut expr = expression;
    let mut k: usize = 0;
    while k < columns_used.len()
        invariant
            k <= columns_used.len(),
            with_cells(book@, data@, row.deep_view(), expr@, columns_used.deep_view(), k as int)
                == with_cells(
                book@,
                data@,
                row.deep_view(),
                expression@,
                columns_used.deep_view(),
                0,
            ),
        decreases columns_used.len() - k,
    {
        proof {
            assert(columns_used.deep_view()[k as int] == columns_used[k as int]@);
        }
        if let Some(idx) = position_of(&data.columns, columns_used[k].as_str()) {
            if idx < row.len() {
                proof {
                    assert(row.deep_view()[idx as int] == row[idx as int]@);
                }
                match ask(book, Request::CellValue(row[idx].clone())) {
                    Step::Done(v) => {
                        expr = substitute_text(
                            expr.as_str(),
                            columns_used[k].as_str(),
                            v.as_str(),
                        );
                    },
                    Step::Failed(e) => {
                        return Step::Failed(e);
                    },
                    Step::Ask(q) => {
                        return Step::Ask(q);
                    },
                }
            }
        }
        k += 1;
    }
    Step::Done(expr)
}

fn substitute_aggregates(
    data: &QueryResult,
    expression: String,
    aggregate_expressions: &Vec<String>,
    book: &Answers,
) -> (r: Step<String>)
    ensures
        r@ == with_aggregates(book@, data@, expression@, aggregate_expressions.deep_view(), 0),
{
    let mut expr = expression;
    let mut k: usize = 0;
    while k < aggregate_expressions.len()
        invariant
            k <= aggregate_expressions.len(),
            with_aggregates(book@, data@, expr@, aggregate_expressions.deep_view(), k as int)
                == with_aggregates(
                book@,
                data@,
                expression@,
                aggregate_expressions.deep_view(),
                0,
            ),
        decreases aggregate_expressions.len() - k,
    {
        proof {
            assert(aggregate_expressions.deep_view()[k as int] == aggregate_expressions[k as int]@);
        }
        let call = aggregate_expressions[k].as_str();
        if let Some((func, _arg)) = aggregate_parts(call) {
            match compute_aggregate(data, func.as_str(), call, book) {
                Step::Done(v) => {
                    expr = replace_text(expr.as_str(), call, v.as_str());
                },
                Step::Failed(e) => {
                    return Step::Failed(e);
                },
                Step::Ask(q) => {
                    return Step::Ask(q);
                },
            }
        }
        k += 1;
    }
    Step::Done(expr)
}

/// The value of the row operation `expression` over `columns_used` on `row`.
pub fn compute_row_operation(
    data: &QueryResult,
    row: &Vec<String>,
    expression: &str,
    columns_used: &Vec<String>,
    book: &Answers,
) -> (r: Step<String>)
    ensures
        r@ == row_operation_value(
            book@,
            data@,
            row.deep_view(),
            expression@,
            columns_used.deep_view(),
        ),
{
    match substitute_cells(data, row, expression.to_owned(), columns_used, book) {
        Step::Done(e) => evaluate(e.as_str(), book),
        Step::Failed(e) => Step::Failed(e),
        Step::Ask(q) => Step::Ask(q),
    }
}

/// The value of the mixed operation `expression` over `columns_used` and
/// `aggregate_expressions` on `row`.
pub fn compute_mixed_operation(
    data: &QueryResult,
    row: &Vec<String>,
    expression: &str,
    columns_used: &Vec<String>,
    aggregate_expressions: &Vec<String>,
    book: &Answers,
) -> (r: Step<String>)
    ensures
        r@ == mixed_operation_value(
            book@,
            data@,
            row.deep_view(),
            expression@,
            columns_used.deep_view(),
            aggregate_expressions.deep_view(),
        ),
{
    match substitute_aggregates(data, expression.to_owned(), aggregate_expressions, book) {
        Step::Done(e) => compute_row_operation(data, row, e.as_str(), columns_used, book),
        Step::Failed(e) => Step::Failed(e),
        Step::Ask(q) => Step::Ask(q),
    }
}

/// A row without its cell at `pos`, where it has one.
pub open spec fn drop_cell(row: Seq<Seq<char>>, pos: int) -> Seq<Seq<char>> {
    if 0 <= pos < row.len() {
        row.remove(pos)
    } else {
        row
    }
}

/// The page without its first column called `name`.
pub open spec fn without_column(page: PageView, name: Seq<char>) -> PageView {
    match page.column_index(name) {
        Some(pos) => PageView {
            columns: page.columns.remove(pos),
            rows: Seq::new(page.rows.len(), |i: int| drop_cell(page.rows[i], pos)),
            total_rows: page.total_rows,
        },
        None => page,
    }
}

/// The page with one more column header.
pub open spec fn with_header(page: PageView, name: Seq<char>) -> PageView {
    PageView { columns: page.columns.push(name), ..page }
}

/// The page with one more cell at the end of each row.
pub open spec fn with_values(page: PageView, values: Seq<Seq<char>>) -> PageView {
    PageView {
        rows: Seq::new(page.rows.len(), |i: int| page.rows[i].push(values[i])),
        ..page
    }
}

/// The value of a row operation or mixed operation on one row.
pub open spec fn row_value(book: Book, page: PageView, row: Seq<Seq<char>>, column: ColumnView)
    -> Progress<Seq<char>> {
    match column.column_type {
        ColumnTypeView::Aggregate(func) => aggregate_value(book, page, func, column.expression),
        ColumnTypeView::RowOperation(cols) => row_operation_value(
            book,
            page,
            row,
            column.expression,
            cols,
        ),
        ColumnTypeView::MixedOperation(cols, aggs) => mixed_operation_value(
            book,
            page,
            row,
            column.expression,
            cols,
            aggs,
        ),
    }
}

/// The values of a computed column for the first `n` rows of a page.
pub open spec fn row_values(book: Book, page: PageView, column: ColumnView, n: int) -> Progress<
    Seq<Seq<char>>,
>
    decreases n,
{
    if n <= 0 {
        Progress::Done(Seq::empty())
    } else {
        match row_values(book, page, column, n - 1) {
            Progress::Done(vs) => match row_value(book, page, page.rows[n - 1], column) {
                Progress::Done(v) => Progress::Done(vs.push(v)),
                Progress::Failed(e) => Progress::Failed(e),
                Progress::Ask(q) => Progress::Ask(q),
            },
            other => other,
        }
    }
}

/// The page with a computed column appended. A column of the page that has
/// the name already is removed first. The values are computed on the page
/// that has the new header and not yet the new cells.
pub open spec fn with_column(book: Book, page: PageView, column: ColumnView) -> Progress<
    PageView,
> {
    let base = with_header(without_column(page, column.name), column.name);
    match column.column_type {
        ColumnTypeView::Aggregate(func) => match aggregate_value(
            book,
            base,
            func,
            column.expression,
        ) {
            Progress::Done(v) => Progress::Done(
                with_values(base, Seq::new(base.rows.len(), |i: int| v)),
            ),
            Progress::Failed(e) => Progress::Failed(e),
            Progress::Ask(q) => Progress::Ask(q),
        },
        _ => match row_values(book, base, column, base.rows.len() as int) {
            Progress::Done(vs) => Progress::Done(with_values(base, vs)),
            Progress::Failed(e) => Progress::Failed(e),
            Progress::Ask(q) => Progress::Ask(q),
        },
    }
}

/// The page with the first `n` of the computed columns appended in turn.
pub open spec fn applied(book: Book, page: PageView, columns: Seq<ColumnView>, n: int)
    -> Progress<PageView>
    decreases n,
{
    if n <= 0 {
        Progress::Done(page)
    } else {
        match applied(book, page, columns, n - 1) {
            Progress::Done(p) => with_column(book, p, columns[n - 1]),
            other => other,
        }
    }
}

/// The page without the columns that carry the names of the first `n`
/// computed columns.
pub open spec fn stripped(page: PageView, columns: Seq<ColumnView>, n: int) -> PageView
    decreases n,
{
    if n <= 0 {
        page
    } else {
        without_column(stripped(page, columns, n - 1), columns[n - 1].name)
    }
}

/// The page with all computed columns taken off and appended anew.
pub open spec fn refreshed(book: Book, page: PageView, columns: Seq<ColumnView>) -> Progress<
    PageView,
> {
    applied(book, stripped(page, columns, columns.len() as int), columns, columns.len() as int)
}

/// A well-formed page stays well-formed without one of its columns.
pub proof fn lemma_without_column_well_formed(page: PageView, name: Seq<char>)
    requires
        page.well_formed(),
    ensures
        without_column(page, name).well_formed(),
        without_column(page, name).rows.len() == page.rows.len(),
{
    lemma_index_of_text(page.columns, name);
    let out = without_column(page, name);
    assert forall|r: int| 0 <= r < out.rows.len() implies #[trigger] out.rows[r].len()
        == out.columns.len() by {
        assert(page.rows[r].len() == page.columns.len());
    }
}

/// A well-formed page stays well-formed when all computed columns are taken off.
pub proof fn lemma_stripped_well_formed(page: PageView, columns: Seq<ColumnView>, n: int)
    requires
        page.well_formed(),
    ensures
        stripped(page, columns, n).well_formed(),
        stripped(page, columns, n).rows.len() == page.rows.len(),
    decreases n,
{
    if n > 0 {
        lemma_stripped_well_formed(page, columns, n - 1);
        lemma_without_column_well_formed(stripped(page, columns, n - 1), columns[n - 1].name);
    }
}

/// The values of the first `n` rows are `n` values.
pub proof fn lemma_row_values_len(book: Book, page: PageView, column: ColumnView, n: int)
    requires
        0 <= n,
    ensures
        row_values(book, page, column, n) matches Progress::Done(vs) ==> vs.len() == n,
    decreases n,
{
    if n > 0 {
        lemma_row_values_len(book, page, column, n - 1);
    }
}

/// Appending a computed column to a well-formed page gives a well-formed
/// page with the same rows and one column more or the same number.
pub proof fn lemma_with_column_well_formed(book: Book, page: PageView, column: ColumnView)
    requires
        page.well_formed(),
    ensures
        with_column(book, page, column) matches Progress::Done(p) ==> p.well_formed()
            && p.rows.len() == page.rows.len() && p.total_rows == page.total_rows
            && p.columns.len() > 0 && p.columns.last() == column.name,
{
    lemma_without_column_well_formed(page, column.name);
    let base = with_header(without_column(page, column.name), column.name);
    lemma_row_values_len(book, base, column, base.rows.len() as int);
    match with_column(book, page, column) {
        Progress::Done(p) => {
            assert forall|r: int| 0 <= r < p.rows.len() implies #[trigger] p.rows[r].len()
                == p.columns.len() by {
                assert(without_column(page, column.name).rows[r].len() == without_column(
                    page,
                    column.name,
                ).columns.len());
            }
        },
        _ => {},
    }
}

/// Appending computed columns to a well-formed page gives a well-formed page
/// with the same number of rows.
pub proof fn lemma_applied_well_formed(
    book: Book,
    page: PageView,
    columns: Seq<ColumnView>,
    n: int,
)
    requires
        page.well_formed(),
    ensures
        applied(book, page, columns, n) matches Progress::Done(p) ==> p.well_formed()
            && p.rows.len() == page.rows.len() && p.total_rows == page.total_rows,
    decreases n,
{
    if n > 0 {
        lemma_applied_well_formed(book, page, columns, n - 1);
        match applied(book, page, columns, n - 1) {
            Progress::Done(p) => {
                lemma_with_column_well_formed(book, p, columns[n - 1]);
            },
            _ => {},
        }
    }
}

fn row_without(row: &Vec<String>, pos: Option<usize>) -> (r: Vec<String>)
    ensures
        r.deep_view() == match pos {
            Some(p) => drop_cell(row.deep_view(), p as int),
            None => row.deep_view(),
        },
{
    let mut r: Vec<String> = Vec::new();
    let mut i: usize = 0;
    let skip: usize = match pos {
        Some(p) => p,
        None => row.len(),
    };
    while i < row.len()
        invariant
            i <= row.len(),
            r.len() == if i <= skip {
                i as int
            } else {
                i - 1
            },
            forall|k: int| 0 <= k < i && k < skip ==> r[k]@ == row[k]@,
            forall|k: int| skip < k < i ==> r[k - 1]@ == row[k]@,
        decreases row.len() - i,
    {
        if i != skip {
            r.push(row[i].clone());
        }
        i += 1;
    }
    proof {
        match pos {
            Some(p) => {
                if p < row.len() {
                    assert(r.deep_view() =~= row.deep_view().remove(p as int));
                } else {
                    assert(r.deep_view() =~= row.deep_view());
                }
            },
            None => {
                assert(r.deep_view() =~= row.deep_view());
            },
        }
    }
    r
}

/// The page without its first column called `name`, with `name` as the header
/// of a new last column that the rows do not have yet.
fn base_page(data: &QueryResult, name: &str) -> (r: QueryResult)
    ensures
        r@ == with_header(without_column(data@, name@), name@),
{
    let pos = position_of(&data.columns, name);
    let mut columns = row_without(&data.columns, pos);
    let ghost before = columns.deep_view();
    columns.push(name.to_owned());
    proof {
        lemma_index_of_text(data@.columns, name@);
        assert(columns.deep_view() =~= before.push(name@));
    }
    let mut rows: Vec<Vec<String>> = Vec::new();
    let mut i: usize = 0;
    while i < data.rows.len()
        invariant
            i <= data.rows.len(),
            rows.len() == i,
            forall|k: int|
                0 <= k < i ==> #[trigger] rows[k].deep_view() == match pos {
                    Some(p) => drop_cell(data.rows[k].deep_view(), p as int),
                    None => data.rows[k].deep_view(),
                },
        decreases data.rows.len() - i,
    {
        rows.push(row_without(&data.rows[i], pos));
        i += 1;
    }
    let r = QueryResult { columns, rows, total_rows: data.total_rows };
    proof {
        let want = with_header(without_column(data@, name@), name@);
        assert(r@.rows =~= want.rows) by {
            assert forall|k: int| 0 <= k < r@.rows.len() implies r@.rows[k] == want.rows[k] by {
                assert(r@.rows[k] == rows[k].deep_view());
                assert(data@.rows[k] == data.rows[k].deep_view());
            }
        }
    }
    r
}

fn push_values(base: QueryResult, values: &Vec<String>) -> (r: QueryResult)
    requires
        values.len() == base.rows.len(),
    ensures
        r@ == with_values(base@, values.deep_view()),
{
    let mut rows: Vec<Vec<String>> = Vec::new();
    let mut i: usize = 0;
    while i < base.rows.len()
        invariant
            i <= base.rows.len(),
            values.len() == base.rows.len(),
            rows.len() == i,
            forall|k: int|
                0 <= k < i ==> #[trigger] rows[k].deep_view() == base.rows[k].deep_view().push(
                    values[k]@,
                ),
        decreases base.rows.len() - i,
    {
        let mut row = clone_texts(&base.rows[i]);
        let ghost before = row.deep_view();
        row.push(values[i].clone());
        proof {
            assert(row.deep_view() =~= before.push(values[i as int]@));
        }
        rows.push(row);
        i += 1;
    }
    let r = QueryResult { columns: base.columns, rows, total_rows: base.total_rows };
    proof {
        let want = with_values(base@, values.deep_view());
        assert(r@.rows =~= want.rows) by {
            assert forall|k: int| 0 <= k < r@.rows.len() implies r@.rows[k] == want.rows[k] by {
                assert(r@.rows[k] == rows[k].deep_view());
                assert(base@.rows[k] == base.rows[k].deep_view());
                assert(values.deep_view()[k] == values[k]@);
            }
        }
    }
    r
}

fn repeat_text(t: &String, n: usize) -> (r: Vec<String>)
    ensures
        r.deep_view() == Seq::new(n as nat, |i: int| t@),
{
    let mut r: Vec<String> = Vec::new();
    let mut i: usize = 0;
    while i < n
        invariant
            i <= n,
            r.len() == i,
            forall|k: int| 0 <= k < i ==> r[k]@ == t@,
        decreases n - i,
    {
        r.push(t.clone());
        i += 1;
    }
    proof {
        assert(r.deep_view() =~= Seq::new(n as nat, |i: int| t@));
    }
    r
}

fn compute_rows(base: &QueryResult, column: &ComputedColumn, book: &Answers) -> (r: Step<
    Vec<String>,
>)
    requires
        !(column.column_type is Aggregate),
    ensures
        match r {
            Step::Done(vs) => row_values(book@, base@, column@, base.rows.len() as int)
                == Progress::Done(vs.deep_view()),
            Step::Failed(e) => row_values(book@, base@, column@, base.rows.len() as int)
                == Progress::<Seq<Seq<char>>>::Failed(e@),
            Step::Ask(q) => row_values(book@, base@, column@, base.rows.len() as int)
                == Progress::<Seq<Seq<char>>>::Ask(q@),
        },
{
    let mut values: Vec<String> = Vec::new();
    let mut i: usize = 0;
    proof {
        assert(values.deep_view() =~= Seq::<Seq<char>>::empty());
    }
    while i < base.rows.len()
        invariant
            i <= base.rows.len(),
            !(column.column_type is Aggregate),
            row_values(book@, base@, column@, i as int) == Progress::Done(values.deep_view()),
        decreases base.rows.len() - i,
    {
        let ghost before = values.deep_view();
        proof {
            assert(base@.rows[i as int] == base.rows[i as int].deep_view());
        }
        let value = match &column.column_type {
            ComputedColumnType::RowOperation(cols) => compute_row_operation(
                base,
                &base.rows[i],
                column.expression.as_str(),
                cols,
                book,
            ),
            ComputedColumnType::MixedOperation(cols, aggs) => compute_mixed_operation(
                base,
                &base.rows[i],
                column.expression.as_str(),
                cols,
                aggs,
                book,
            ),
            ComputedColumnType::Aggregate(func) => Step::Failed(ExprError::InvalidNumber),
        };
        match value {
            Step::Done(v) => {
                values.push(v);
                proof {
                    assert(values.deep_view() =~= before.push(v@));
                }
            },
            Step::Failed(e) => {
                proof {
                    lemma_row_values_stop(book@, base@, column@, i + 1, base.rows.len() as int);
                }
                return Step::Failed(e);
            },
            Step::Ask(q) => {
                proof {
                    lemma_row_values_stop(book@, base@, column@, i + 1, base.rows.len() as int);
                }
                return Step::Ask(q);
            },
        }
        i += 1;
    }
    Step::Done(values)
}

/// Once the values of some rows end in an error or a request, so do those of
/// more rows.
pub proof fn lemma_row_values_stop(book: Book, page: PageView, column: ColumnView, n: int, m: int)
    requires
        0 <= n <= m,
        !(row_values(book, page, column, n) is Done),
    ensures
        row_values(book, page, column, m) == row_values(book, page, column, n),
    decreases m - n,
{
    if n < m {
        lemma_row_values_stop(book, page, column, n, m - 1);
    }
}

/// Once some of the computed columns end in an error or a request, so do more
/// of them.
pub proof fn lemma_applied_stop(
    book: Book,
    page: PageView,
    columns: Seq<ColumnView>,
    n: int,
    m: int,
)
    requires
        0 <= n <= m,
        !(applied(book, page, columns, n) is Done),
    ensures
        applied(book, page, columns, m) == applied(book, page, columns, n),
    decreases m - n,
{
    if n < m {
        lemma_applied_stop(book, page, columns, n, m - 1);
    }
}

/// `data` with one computed column appended.
pub fn apply_column(data: &QueryResult, column: &ComputedColumn, book: &Answers) -> (r: Step<
    QueryResult,
>)
    ensures
        r@ == with_column(book@, data@, column@),
{
    let base = base_page(data, column.name.as_str());
    match &column.column_type {
        ComputedColumnType::Aggregate(func) => {
            match compute_aggregate(&base, func.as_str(), column.expression.as_str(), book) {
                Step::Done(v) => {
                    let values = repeat_text(&v, base.rows.len());
                    proof {
                        assert(values.deep_view() =~= Seq::new(
                            base@.rows.len(),
                            |i: int| v@,
                        ));
                    }
                    Step::Done(push_values(base, &values))
                },
                Step::Failed(e) => Step::Failed(e),
                Step::Ask(q) => Step::Ask(q),
            }
        },
        _ => {
            match compute_rows(&base, column, book) {
                Step::Done(values) => {
                    proof {
                        lemma_row_values_len(book@, base@, column@, base.rows.len() as int);
                    }
                    Step::Done(push_values(base, &values))
                },
                Step::Failed(e) => Step::Failed(e),
                Step::Ask(q) => Step::Ask(q),
            }
        },
    }
}

/// `data` with the computed columns appended in turn: `Done` with the new
/// page or `Failed` with the first error when the book answers every request
/// on the way, else `Ask` with the first request that it does not answer.
/// `data` itself stays as it is.
pub fn apply_computed_columns(data: &QueryResult, columns: &Vec<ComputedColumn>, book: &Answers)
    -> (r: Step<QueryResult>)
    ensures
        r@ == applied(book@, data@, columns.deep_view(), columns.len() as int),
{
    let mut page = data.duplicate();
    let mut i: usize = 0;
    while i < columns.len()
        invariant
            i <= columns.len(),
            applied(book@, data@, columns.deep_view(), i as int) == Progress::Done(page@),
        decreases columns.len() - i,
    {
        proof {
            assert(columns.deep_view()[i as int] == columns[i as int]@);
        }
        match apply_column(&page, &columns[i], book) {
            Step::Done(p) => {
                page = p;
            },
            Step::Failed(e) => {
                proof {
                    lemma_applied_stop(
                        book@,
                        data@,
                        columns.deep_view(),
                        i + 1,
                        columns.len() as int,
                    );
                }
                return Step::Failed(e);
            },
            Step::Ask(q) => {
                proof {
                    lemma_applied_stop(
                        book@,
                        data@,
                        columns.deep_view(),
                        i + 1,
                        columns.len() as int,
                    );
                }
                return Step::Ask(q);
            },
        }
        i += 1;
    }
    Step::Done(page)
}

/// `data` without the columns that carry the name of a computed column.
pub fn strip_computed_columns(data: &QueryResult, columns: &Vec<ComputedColumn>) -> (r:
    QueryResult)
    ensures
        r@ == stripped(data@, columns.deep_view(), columns.len() as int),
{
    let mut page = data.duplicate();
    let mut i: usize = 0;
    while i < columns.len()
        invariant
            i <= columns.len(),
            page@ == stripped(data@, columns.deep_view(), i as int),
        decreases columns.len() - i,
    {
        proof {
            assert(columns.deep_view()[i as int] == columns[i as int]@);
        }
        let pos = position_of(&page.columns, columns[i].name.as_str());
        if pos.is_some() {
            let next_columns = row_without(&page.columns, pos);
            let mut rows: Vec<Vec<String>> = Vec::new();
            let mut k: usize = 0;
            while k < page.rows.len()
                invariant
                    k <= page.rows.len(),
                    rows.len() == k,
                    pos is Some,
                    forall|j: int|
                        0 <= j < k ==> #[trigger] rows[j].deep_view() == drop_cell(
                            page.rows[j].deep_view(),
                            pos->0 as int,
                        ),
                decreases page.rows.len() - k,
            {
                rows.push(row_without(&page.rows[k], pos));
                k += 1;
            }
            let next = QueryResult { columns: next_columns, rows, total_rows: page.total_rows };
            proof {
                lemma_index_of_text(page@.columns, columns[i as int].name@);
                let want = without_column(page@, columns[i as int].name@);
                assert(next@.rows =~= want.rows) by {
                    assert forall|j: int| 0 <= j < next@.rows.len() implies next@.rows[j]
                        == want.rows[j] by {
                        assert(next@.rows[j] == rows[j].deep_view());
                        assert(page@.rows[j] == page.rows[j].deep_view());
                    }
                }
            }
            page = next;
        }
        i += 1;
    }
    page
}

/// `data` with all computed columns taken off and appended anew.
pub fn refresh_computed_columns(data: &QueryResult, columns: &Vec<ComputedColumn>, book: &Answers)
    -> (r: Step<QueryResult>)
    ensures
        r@ == refreshed(book@, data@, columns.deep_view()),
{
    let bare = strip_computed_columns(data, columns);
    apply_computed_columns(&bare, columns, book)
}

/// Columns written into an expression stay the same when the book gets more
/// answers.
pub proof fn lemma_with_cells_stable(
    book: Book,
    later: Book,
    page: PageView,
    row: Seq<Seq<char>>,
    expr: Seq<char>,
    cols: Seq<Seq<char>>,
    k: int,
)
    requires
        extends(book, later),
        !(with_cells(book, page, row, expr, cols, k) is Ask),
    ensures
        with_cells(later, page, row, expr, cols, k) == with_cells(book, page, row, expr, cols, k),
    decreases cols.len() - k,
{
    if 0 <= k < cols.len() {
        match page.column_index(cols[k]) {
            Some(idx) => if idx < row.len() {
                assert(answer_to(book, RequestView::CellValue(row[idx])) is Some);
                match asked(book, RequestView::CellValue(row[idx])) {
                    Progress::Done(v) => {
                        lemma_with_cells_stable(
                            book,
                            later,
                            page,
                            row,
                            substituted(expr, cols[k], v),
                            cols,
                            k + 1,
                        );
                    },
                    _ => {},
                }
            } else {
                lemma_with_cells_stable(book, later, page, row, expr, cols, k + 1);
            },
            None => {
                lemma_with_cells_stable(book, later, page, row, expr, cols, k + 1);
            },
        }
    }
}

/// The value of an aggregate stays the same when the book gets more answers.
pub proof fn lemma_aggregate_stable(
    book: Book,
    later: Book,
    page: PageView,
    func: Seq<char>,
    expression: Seq<char>,
)
    requires
        extends(book, later),
        !(aggregate_value(book, page, func, expression) is Ask),
    ensures
        aggregate_value(later, page, func, expression) == aggregate_value(
            book,
            page,
            func,
            expression,
        ),
{
    let column = aggregate_column(expression, func);
    match page.column_index(column) {
        Some(idx) => {
            let cells = number_cells(page.rows, idx);
            match function_kind(func) {
                FunctionKind::Reduce(f) => {
                    if cells.len() > 0 {
                        assert(answer_to(book, RequestView::Aggregate(f, cells)) is Some);
                    }
                },
                _ => {},
            }
        },
        None => {},
    }
}

/// Aggregates written into an expression stay the same when the book gets
/// more answers.
pub proof fn lemma_with_aggregates_stable(
    book: Book,
    later: Book,
    page: PageView,
    expr: Seq<char>,
    aggs: Seq<Seq<char>>,
    k: int,
)
    requires
        extends(book, later),
        !(with_aggregates(book, page, expr, aggs, k) is Ask),
    ensures
        with_aggregates(later, page, expr, aggs, k) == with_aggregates(book, page, expr, aggs, k),
    decreases aggs.len() - k,
{
    if 0 <= k < aggs.len() {
        match call_parts(aggs[k]) {
            Some((func, arg)) => {
                lemma_aggregate_stable(book, later, page, func, aggs[k]);
                match aggregate_value(book, page, func, aggs[k]) {
                    Progress::Done(v) => {
                        lemma_with_aggregates_stable(
                            book,
                            later,
                            page,
                            replaced(expr, aggs[k], v),
                            aggs,
                            k + 1,
                        );
                    },
                    _ => {},
                }
            },
            None => {
                lemma_with_aggregates_stable(book, later, page, expr, aggs, k + 1);
            },
        }
    }
}

/// The value of a computed column on a row stays the same when the book gets
/// more answers.
pub proof fn lemma_row_value_stable(
    book: Book,
    later: Book,
    page: PageView,
    row: Seq<Seq<char>>,
    column: ColumnView,
)
    requires
        extends(book, later),
        !(row_value(book, page, row, column) is Ask),
    ensures
        row_value(later, page, row, column) == row_value(book, page, row, column),
{
    match column.column_type {
        ColumnTypeView::Aggregate(func) => {
            lemma_aggregate_stable(book, later, page, func, column.expression);
        },
        ColumnTypeView::RowOperation(cols) => {
            lemma_row_operation_stable(book, later, page, row, column.expression, cols);
        },
        ColumnTypeView::MixedOperation(cols, aggs) => {
            lemma_with_aggregates_stable(book, later, page, column.expression, aggs, 0);
            match with_aggregates(book, page, column.expression, aggs, 0) {
                Progress::Done(e) => {
                    lemma_row_operation_stable(book, later, page, row, e, cols);
                },
                _ => {},
            }
        },
    }
}

/// The value of a row operation stays the same when the book gets more answers.
pub proof fn lemma_row_operation_stable(
    book: Book,
    later: Book,
    page: PageView,
    row: Seq<Seq<char>>,
    expression: Seq<char>,
    cols: Seq<Seq<char>>,
)
    requires
        extends(book, later),
        !(row_operation_value(book, page, row, expression, cols) is Ask),
    ensures
        row_operation_value(later, page, row, expression, cols) == row_operation_value(
            book,
            page,
            row,
            expression,
            cols,
        ),
{
    lemma_with_cells_stable(book, later, page, row, expression, cols, 0);
    match with_cells(book, page, row, expression, cols, 0) {
        Progress::Done(e) => {
            lemma_value_stable(book, later, crate::text::without(e, ' '));
        },
        _ => {},
    }
}

/// The values of the rows stay the same when the book gets more answers.
pub proof fn lemma_row_values_stable(
    book: Book,
    later: Book,
    page: PageView,
    column: ColumnView,
    n: int,
)
    requires
        extends(book, later),
        !(row_values(book, page, column, n) is Ask),
    ensures
        row_values(later, page, column, n) == row_values(book, page, column, n),
    decreases n,
{
    if n > 0 {
        lemma_row_values_stable(book, later, page, column, n - 1);
        match row_values(book, page, column, n - 1) {
            Progress::Done(vs) => {
                lemma_row_value_stable(book, later, page, page.rows[n - 1], column);
            },
            _ => {},
        }
    }
}

/// A computed column that was appended stays the same when the book gets
/// more answers.
pub proof fn lemma_with_column_stable(book: Book, later: Book, page: PageView, column: ColumnView)
    requires
        extends(book, later),
        !(with_column(book, page, column) is Ask),
    ensures
        with_column(later, page, column) == with_column(book, page, column),
{
    let base = with_header(without_column(page, column.name), column.name);
    match column.column_type {
        ColumnTypeView::Aggregate(func) => {
            lemma_aggregate_stable(book, later, base, func, column.expression);
        },
        _ => {
            lemma_row_values_stable(book, later, base, column, base.rows.len() as int);
        },
    }
}

/// A run that is complete, or that failed, comes out the same when the book
/// gets more answers.
pub proof fn lemma_applied_stable(
    book: Book,
    later: Book,
    page: PageView,
    columns: Seq<ColumnView>,
    n: int,
)
    requires
        extends(book, later),
        !(applied(book, page, columns, n) is Ask),
    ensures
        applied(later, page, columns, n) == applied(book, page, columns, n),
    decreases n,
{
    if n > 0 {
        lemma_applied_stable(book, later, page, columns, n - 1);
        match applied(book, page, columns, n - 1) {
            Progress::Done(p) => {
                lemma_with_column_stable(book, later, p, columns[n - 1]);
            },
            _ => {},
        }
    }
}

/// The request that a run stops at is one that the book does not answer: so
/// each answer that is recorded brings the next run further.
pub proof fn lemma_applied_asks_open(book: Book, page: PageView, columns: Seq<ColumnView>, n: int)
    ensures
        applied(book, page, columns, n) matches Progress::Ask(q) ==> answer_to(book, q) is None,
    decreases n,
{
    if n > 0 {
        lemma_applied_asks_open(book, page, columns, n - 1);
        match applied(book, page, columns, n - 1) {
            Progress::Done(p) => {
                let column = columns[n - 1];
                let base = with_header(without_column(p, column.name), column.name);
                match column.column_type {
                    ColumnTypeView::Aggregate(func) => {},
                    _ => {
                        lemma_row_values_ask_open(book, base, column, base.rows.len() as int);
                    },
                }
            },
            _ => {},
        }
    }
}

/// The request that the values of the rows stop at is one that the book does
/// not answer.
pub proof fn lemma_row_values_ask_open(book: Book, page: PageView, column: ColumnView, n: int)
    ensures
        row_values(book, page, column, n) matches Progress::Ask(q) ==> answer_to(book, q)
            is None,
    decreases n,
{
    if n > 0 {
        lemma_row_values_ask_open(book, page, column, n - 1);
        let row = page.rows[n - 1];
        match column.column_type {
            ColumnTypeView::Aggregate(func) => {},
            ColumnTypeView::RowOperation(cols) => {
                lemma_row_operation_asks_open(book, page, row, column.expression, cols);
            },
            ColumnTypeView::MixedOperation(cols, aggs) => {
                lemma_with_aggregates_ask_open(book, page, column.expression, aggs, 0);
                match with_aggregates(book, page, column.expression, aggs, 0) {
                    Progress::Done(e) => {
                        lemma_row_operation_asks_open(book, page, row, e, cols);
                    },
                    _ => {},
                }
            },
        }
    }
}

/// The request that a row operation stops at is one that the book does not answer.
pub proof fn lemma_row_operation_asks_open(
    book: Book,
    page: PageView,
    row: Seq<Seq<char>>,
    expression: Seq<char>,
    cols: Seq<Seq<char>>,
)
    ensures
        row_operation_value(book, page, row, expression, cols) matches Progress::Ask(q)
            ==> answer_to(book, q) is None,
{
    lemma_with_cells_ask_open(book, page, row, expression, cols, 0);
    match with_cells(book, page, row, expression, cols, 0) {
        Progress::Done(e) => {
            lemma_value_asks_open(book, crate::text::without(e, ' '));
        },
        _ => {},
    }
}

/// The request that the writing of cells stops at is one that the book does
/// not answer.
pub proof fn lemma_with_cells_ask_open(
    book: Book,
    page: PageView,
    row: Seq<Seq<char>>,
    expr: Seq<char>,
    cols: Seq<Seq<char>>,
    k: int,
)
    ensures
        with_cells(book, page, row, expr, cols, k) matches Progress::Ask(q) ==> answer_to(book, q)
            is None,
    decreases cols.len() - k,
{
    if 0 <= k < cols.len() {
        match page.column_index(cols[k]) {
            Some(idx) => if idx < row.len() {
                match asked(book, RequestView::CellValue(row[idx])) {
                    Progress::Done(v) => {
                        lemma_with_cells_ask_open(
                            book,
                            page,
                            row,
                            substituted(expr, cols[k], v),
                            cols,
                            k + 1,
                        );
                    },
                    _ => {},
                }
            } else {
                lemma_with_cells_ask_open(book, page, row, expr, cols, k + 1);
            },
            None => {
                lemma_with_cells_ask_open(book, page, row, expr, cols, k + 1);
            },
        }
    }
}

/// The request that the writing of aggregates stops at is one that the book
/// does not answer.
pub proof fn lemma_with_aggregates_ask_open(
    book: Book,
    page: PageView,
    expr: Seq<char>,
    aggs: Seq<Seq<char>>,
    k: int,
)
    ensures
        with_aggregates(book, page, expr, aggs, k) matches Progress::Ask(q) ==> answer_to(book, q)
            is None,
    decreases aggs.len() - k,
{
    if 0 <= k < aggs.len() {
        match call_parts(aggs[k]) {
            Some((func, arg)) => {
                match aggregate_value(book, page, func, aggs[k]) {
                    Progress::Done(v) => {
                        lemma_with_aggregates_ask_open(
                            book,
                            page,
                            replaced(expr, aggs[k], v),
                            aggs,
                            k + 1,
                        );
                    },
                    _ => {},
                }
            },
            None => {
                lemma_with_aggregates_ask_open(book, page, expr, aggs, k + 1);
            },
        }
    }
}

/// The first `k` columns of `b` are those of `a`, header and cells, and `b`
/// has the rows of `a` in number.
pub open spec fn keeps_columns(a: PageView, b: PageView, k: int) -> bool {
    &&& b.rows.len() == a.rows.len()
    &&& b.total_rows == a.total_rows
    &&& k <= b.columns.len()
    &&& (forall|j: int| 0 <= j < k ==> (#[trigger] b.columns[j]) == a.columns[j])
    &&& (forall|i: int| 0 <= i < a.rows.len() ==> k <= (#[trigger] b.rows[i]).len())
    &&& (forall|i: int, j: int|
        0 <= i < a.rows.len() && 0 <= j < k ==> (#[trigger] b.rows[i][j]) == a.rows[i][j])
}

/// None of the first `k` columns of the page has the name of a computed
/// column: they are columns of the source.
pub open spec fn source_columns(page: PageView, columns: Seq<ColumnView>, k: int) -> bool {
    &&& 0 <= k <= page.columns.len()
    &&& (forall|j: int, m: int|
        0 <= j < k && 0 <= m < columns.len() ==> (#[trigger] page.columns[j])
            != (#[trigger] columns[m]).name)
}

/// A well-formed page keeps its own first columns.
pub proof fn lemma_keeps_own_columns(page: PageView, k: int)
    requires
        page.well_formed(),
        0 <= k <= page.columns.len(),
    ensures
        keeps_columns(page, page, k),
{
    assert forall|i: int| 0 <= i < page.rows.len() implies k <= (#[trigger] page.rows[i]).len() by {
        assert(page.rows[i].len() == page.columns.len());
    };
}

/// Taking a column off a page leaves the columns in front of it as they are.
pub proof fn lemma_without_column_keeps(page: PageView, name: Seq<char>, k: int)
    requires
        page.well_formed(),
        0 <= k <= page.columns.len(),
        forall|j: int| 0 <= j < k ==> (#[trigger] page.columns[j]) != name,
    ensures
        keeps_columns(page, without_column(page, name), k),
        without_column(page, name).well_formed(),
{
    lemma_index_of_text(page.columns, name);
    lemma_without_column_well_formed(page, name);
    lemma_keeps_own_columns(page, k);
    let out = without_column(page, name);
    match page.column_index(name) {
        Some(pos) => {
            if pos < k {
                assert(page.columns[pos] != name);
            }
            assert forall|i: int| 0 <= i < page.rows.len() implies k <= (#[trigger] out.rows[i]).len() by {
                assert(page.rows[i].len() == page.columns.len());
            };
            assert forall|i: int, j: int| 0 <= i < page.rows.len() && 0 <= j < k implies (
            #[trigger] out.rows[i][j]) == page.rows[i][j] by {
                assert(page.rows[i].len() == page.columns.len());
            };
        },
        None => {},
    }
}

/// Appending a computed column leaves the columns of the source in front as
/// they are.
pub proof fn lemma_with_column_keeps(book: Book, page: PageView, column: ColumnView, k: int)
    requires
        page.well_formed(),
        0 <= k <= page.columns.len(),
        forall|j: int| 0 <= j < k ==> (#[trigger] page.columns[j]) != column.name,
    ensures
        with_column(book, page, column) matches Progress::Done(p) ==> keeps_columns(page, p, k)
            && p.well_formed(),
{
    lemma_without_column_keeps(page, column.name, k);
    lemma_with_column_well_formed(book, page, column);
    let bare = without_column(page, column.name);
    let base = with_header(bare, column.name);
    lemma_row_values_len(book, base, column, base.rows.len() as int);
    match with_column(book, page, column) {
        Progress::Done(p) => {
            assert forall|j: int| 0 <= j < k implies (#[trigger] p.columns[j])
                == page.columns[j] by {
                assert(bare.columns[j] == page.columns[j]);
            };
            assert forall|i: int| 0 <= i < page.rows.len() implies k <= (#[trigger] p.rows[i]).len() by {
                assert(k <= bare.rows[i].len());
            };
            assert forall|i: int, j: int| 0 <= i < page.rows.len() && 0 <= j < k implies (
            #[trigger] p.rows[i][j]) == page.rows[i][j] by {
                assert(k <= bare.rows[i].len());
                assert(bare.rows[i][j] == page.rows[i][j]);
            };
        },
        _ => {},
    }
}

/// Keeping the first columns goes on from page to page.
pub proof fn lemma_keeps_columns_on(a: PageView, b: PageView, c: PageView, k: int)
    requires
        keeps_columns(a, b, k),
        keeps_columns(b, c, k),
    ensures
        keeps_columns(a, c, k),
{
    assert forall|j: int| 0 <= j < k implies (#[trigger] c.columns[j]) == a.columns[j] by {
        assert(b.columns[j] == a.columns[j]);
    };
    assert forall|i: int, j: int| 0 <= i < a.rows.len() && 0 <= j < k implies (
    #[trigger] c.rows[i][j]) == a.rows[i][j] by {
        assert(b.rows[i][j] == a.rows[i][j]);
    };
}

/// Appending the computed columns leaves the columns of the source in front
/// as they are.
pub proof fn lemma_applied_keeps(
    book: Book,
    page: PageView,
    columns: Seq<ColumnView>,
    n: int,
    k: int,
)
    requires
        page.well_formed(),
        source_columns(page, columns, k),
        0 <= n <= columns.len(),
    ensures
        applied(book, page, columns, n) matches Progress::Done(p) ==> keeps_columns(page, p, k)
            && p.well_formed(),
    decreases n,
{
    if n > 0 {
        lemma_applied_keeps(book, page, columns, n - 1, k);
        match applied(book, page, columns, n - 1) {
            Progress::Done(q) => {
                assert forall|j: int| 0 <= j < k implies (#[trigger] q.columns[j])
                    != columns[n - 1].name by {
                    assert(q.columns[j] == page.columns[j]);
                    assert(page.columns[j] != columns[n - 1].name);
                };
                lemma_with_column_keeps(book, q, columns[n - 1], k);
                match with_column(book, q, columns[n - 1]) {
                    Progress::Done(p) => {
                        lemma_keeps_columns_on(page, q, p, k);
                    },
                    _ => {},
                }
            },
            _ => {},
        }
    } else {
        lemma_keeps_own_columns(page, k);
    }
}

/// Taking the computed columns off leaves the columns of the source in front
/// as they are.
pub proof fn lemma_stripped_keeps(page: PageView, columns: Seq<ColumnView>, n: int, k: int)
    requires
        page.well_formed(),
        source_columns(page, columns, k),
        0 <= n <= columns.len(),
    ensures
        keeps_columns(page, stripped(page, columns, n), k),
        stripped(page, columns, n).well_formed(),
    decreases n,
{
    if n > 0 {
        lemma_stripped_keeps(page, columns, n - 1, k);
        let q = stripped(page, columns, n - 1);
        assert forall|j: int| 0 <= j < k implies (#[trigger] q.columns[j])
            != columns[n - 1].name by {
            assert(q.columns[j] == page.columns[j]);
            assert(page.columns[j] != columns[n - 1].name);
        };
        lemma_without_column_keeps(q, columns[n - 1].name, k);
        lemma_keeps_columns_on(page, q, without_column(q, columns[n - 1].name), k);
    } else {
        lemma_keeps_own_columns(page, k);
    }
}

/// Computing the computed columns anew changes no cell of the columns of the
/// source that stand in front: the page that comes out has the same rows in
/// number, and in each of the first `k` columns the same header and cells.
pub proof fn lemma_refreshed_keeps(book: Book, page: PageView, columns: Seq<ColumnView>, k: int)
    requires
        page.well_formed(),
        source_columns(page, columns, k),
    ensures
        refreshed(book, page, columns) matches Progress::Done(p) ==> keeps_columns(page, p, k)
            && p.well_formed(),
{
    let n = columns.len() as int;
    lemma_stripped_keeps(page, columns, n, k);
    let bare = stripped(page, columns, n);
    assert(source_columns(bare, columns, k)) by {
        assert forall|j: int, m: int| 0 <= j < k && 0 <= m < columns.len() implies (
        #[trigger] bare.columns[j]) != (#[trigger] columns[m]).name by {
            assert(bare.columns[j] == page.columns[j]);
        };
    };
    lemma_applied_keeps(book, bare, columns, n, k);
    match refreshed(book, page, columns) {
        Progress::Done(p) => {
            lemma_keeps_columns_on(page, bare, p, k);
        },
        _ => {},
    }
}

/// The page holds the computed columns already: behind its `k` columns of
/// the source stands one column for each computed column, in their order
/// and under their names, and no two computed columns have one name.
pub open spec fn computed_behind(page: PageView, columns: Seq<ColumnView>, k: int) -> bool {
    &&& source_columns(page, columns, k)
    &&& page.columns.len() == k + columns.len()
    &&& (forall|m: int|
        0 <= m < columns.len() ==> page.columns[k + m] == (#[trigger] columns[m]).name)
    &&& (forall|a: int, b: int|
        0 <= a < b < columns.len() ==> (#[trigger] columns[a]).name != (#[trigger] columns[b]).name)
}

/// Taking the first `n` computed columns off a page that holds them all
/// leaves the headers of the source and those of the other computed columns.
pub proof fn lemma_stripped_headers(page: PageView, columns: Seq<ColumnView>, n: int, k: int)
    requires
        computed_behind(page, columns, k),
        0 <= n <= columns.len(),
    ensures
        stripped(page, columns, n).columns == page.columns.subrange(0, k) + page.columns.subrange(
            k + n,
            page.columns.len() as int,
        ),
    decreases n,
{
    let len = page.columns.len() as int;
    if n > 0 {
        lemma_stripped_headers(page, columns, n - 1, k);
        let q = stripped(page, columns, n - 1);
        let name = columns[n - 1].name;
        lemma_index_of_text(q.columns, name);
        assert(q.columns[k] == page.columns[k + (n - 1)]);
        assert(q.columns[k] == name);
        assert forall|j: int| 0 <= j < k implies q.columns[j] != name by {
            assert(q.columns[j] == page.columns[j]);
        };
        assert(q.column_index(name) == Some(k));
        assert(without_column(q, name).columns =~= page.columns.subrange(0, k)
            + page.columns.subrange(k + n, len));
    } else {
        assert(page.columns =~= page.columns.subrange(0, k) + page.columns.subrange(k, len));
    }
}

/// Appending the first `n` computed columns to a page with the `k` headers
/// of the source gives those headers and then the names of the `n`.
pub proof fn lemma_applied_headers(
    book: Book,
    bare: PageView,
    page: PageView,
    columns: Seq<ColumnView>,
    n: int,
    k: int,
)
    requires
        computed_behind(page, columns, k),
        bare.columns == page.columns.subrange(0, k),
        0 <= n <= columns.len(),
    ensures
        applied(book, bare, columns, n) matches Progress::Done(p) ==> p.columns
            == page.columns.subrange(0, k + n),
    decreases n,
{
    if n > 0 {
        lemma_applied_headers(book, bare, page, columns, n - 1, k);
        match applied(book, bare, columns, n - 1) {
            Progress::Done(q) => {
                let name = columns[n - 1].name;
                lemma_index_of_text(q.columns, name);
                assert forall|j: int| 0 <= j < q.columns.len() implies q.columns[j] != name by {
                    assert(q.columns[j] == page.columns[j]);
                    if j >= k {
                        assert(page.columns[k + (j - k)] == columns[j - k].name);
                    }
                };
                assert(q.column_index(name) is None);
                assert(without_column(q, name) == q);
                assert(page.columns[k + (n - 1)] == name);
                match with_column(book, q, columns[n - 1]) {
                    Progress::Done(p) => {
                        assert(p.columns == q.columns.push(name));
                        assert(p.columns =~= page.columns.subrange(0, k + n));
                    },
                    _ => {},
                }
            },
            _ => {},
        }
    } else {
        assert(page.columns.subrange(0, k + 0) == page.columns.subrange(0, k));
    }
}

/// Computing the computed columns anew on a page that holds them already
/// changes no header, nor the number of rows, nor the length of any row.
pub proof fn lemma_refreshed_keeps_shape(
    book: Book,
    page: PageView,
    columns: Seq<ColumnView>,
    k: int,
)
    requires
        page.well_formed(),
        computed_behind(page, columns, k),
    ensures
        refreshed(book, page, columns) matches Progress::Done(p) ==> {
            &&& p.columns == page.columns
            &&& p.rows.len() == page.rows.len()
            &&& p.total_rows == page.total_rows
            &&& forall|i: int|
                0 <= i < page.rows.len() ==> (#[trigger] p.rows[i]).len() == page.rows[i].len()
        },
{
    let n = columns.len() as int;
    let bare = stripped(page, columns, n);
    lemma_stripped_headers(page, columns, n, k);
    lemma_stripped_keeps(page, columns, n, k);
    assert(bare.columns =~= page.columns.subrange(0, k));
    lemma_applied_headers(book, bare, page, columns, n, k);
    lemma_applied_well_formed(book, bare, columns, n);
    match refreshed(book, page, columns) {
        Progress::Done(p) => {
            assert(p.columns =~= page.columns);
            assert forall|i: int| 0 <= i < page.rows.len() implies (#[trigger] p.rows[i]).len()
                == page.rows[i].len() by {
                assert(p.rows[i].len() == p.columns.len());
                assert(page.rows[i].len() == page.columns.len());
            };
        },
        _ => {},
    }
}

/// Appending the computed columns to a page of the source, none of whose
/// columns has the name of a computed column, gives a page that holds them:
/// one column for each behind those of the source, where no two computed
/// columns have one name.
pub proof fn lemma_applied_stands_behind(book: Book, page: PageView, columns: Seq<ColumnView>)
    requires
        source_columns(page, columns, page.columns.len() as int),
        forall|a: int, b: int|
            0 <= a < b < columns.len() ==> (#[trigger] columns[a]).name != (
            #[trigger] columns[b]).name,
    ensures
        applied(book, page, columns, columns.len() as int) matches Progress::Done(p)
            ==> computed_behind(p, columns, page.columns.len() as int),
{
    let k = page.columns.len() as int;
    let n = columns.len() as int;
    let whole = PageView {
        columns: page.columns + Seq::new(columns.len(), |m: int| columns[m].name),
        ..page
    };
    assert forall|j: int, m: int| 0 <= j < k && 0 <= m < columns.len() implies (
    #[trigger] whole.columns[j]) != (#[trigger] columns[m]).name by {
        assert(whole.columns[j] == page.columns[j]);
    };
    assert(computed_behind(whole, columns, k));
    assert(page.columns =~= whole.columns.subrange(0, k));
    lemma_applied_headers(book, page, whole, columns, n, k);
    match applied(book, page, columns, n) {
        Progress::Done(p) => {
            assert(p.columns =~= whole.columns);
            assert forall|j: int, m: int| 0 <= j < k && 0 <= m < columns.len() implies (
            #[trigger] p.columns[j]) != (#[trigger] columns[m]).name by {
                assert(p.columns[j] == page.columns[j]);
            };
        },
        _ => {},
    }
}

} // verus!
