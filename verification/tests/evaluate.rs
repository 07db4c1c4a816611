use sqbrowser::compute::{
    apply_computed_columns, compute_aggregate, compute_mixed_operation, compute_row_operation,
    refresh_computed_columns, strip_computed_columns,
};
use sqbrowser::database::QueryResult;
use sqbrowser::error::ExprError;
use sqbrowser::evaluate::evaluate;
use sqbrowser::expression::{parse_computed_column, ComputedColumn, ComputedColumnType};
use sqbrowser::numeric::{AggregateFn, Answer, Answers, ArithOp, Request, Step};

fn format_number(x: f64) -> String {
    if x.fract() == 0.0 {
        format!("{:.0}", x)
    } else {
        format!("{:.2}", x)
    }
}

fn answer(request: &Request) -> Answer {
    match request {
        Request::Normalize(text) => match text.parse::<f64>() {
            Ok(x) => Answer::Text(format_number(x)),
            Err(_) => Answer::NotNumber,
        },
        Request::Combine(op, left, right) => {
            let r = match right.parse::<f64>() {
                Ok(r) => r,
                Err(_) => return Answer::NotNumber,
            };
            if matches!(op, ArithOp::Divide) && r == 0.0 {
                return Answer::DivisionByZero;
            }
            let l = match left.parse::<f64>() {
                Ok(l) => l,
                Err(_) => return Answer::NotNumber,
            };
            Answer::Text(format_number(match op {
                ArithOp::Multiply => l * r,
                ArithOp::Divide => l / r,
                ArithOp::Add => l + r,
                ArithOp::Subtract => l - r,
            }))
        }
        Request::CellValue(text) => Answer::Text(text.parse::<f64>().unwrap_or(0.0).to_string()),
        Request::Aggregate(f, cells) => {
            let values: Vec<f64> = cells.iter().filter_map(|c| c.parse::<f64>().ok()).collect();
            let x = match f {
                AggregateFn::Sum => values.iter().sum::<f64>(),
                AggregateFn::Mean => values.iter().sum::<f64>() / values.len() as f64,
                AggregateFn::Min => values.iter().fold(f64::INFINITY, |a, &b| a.min(b)),
                AggregateFn::Max => values.iter().fold(f64::NEG_INFINITY, |a, &b| a.max(b)),
            };
            Answer::Text(format_number(x))
        }
    }
}

fn run<T>(mut step: impl FnMut(&Answers) -> Step<T>) -> (Result<T, ExprError>, usize) {
    let mut book = Answers::new();
    let mut asked = 0;
    loop {
        match step(&book) {
            Step::Done(t) => return (Ok(t), asked),
            Step::Failed(e) => return (Err(e), asked),
            Step::Ask(q) => {
                assert!(book.lookup(&q).is_none());
                let a = answer(&q);
                book.record(q, a);
                asked += 1;
                assert!(asked < 10_000);
            }
        }
    }
}

fn eval(expr: &str) -> Result<String, ExprError> {
    run(|book| evaluate(expr, book)).0
}

fn page(columns: &[&str], rows: &[&[&str]]) -> QueryResult {
    QueryResult {
        columns: columns.iter().map(|c| c.to_string()).collect(),
        rows: rows.iter().map(|r| r.iter().map(|c| c.to_string()).collect()).collect(),
        total_rows: rows.len(),
    }
}

fn column_cells(p: &QueryResult, name: &str) -> Vec<String> {
    let idx = p.columns.iter().position(|c| c == name).unwrap();
    p.rows.iter().map(|r| r[idx].clone()).collect()
}

#[test]
fn products_bind_tighter_than_sums() {
    assert_eq!(eval("2+3*4").unwrap(), "14");
    assert_eq!(eval("2*3+4").unwrap(), "10");
    assert_eq!(eval("2+12/4").unwrap(), "5");
    assert_eq!(eval("20-3*4").unwrap(), "8");
}

#[test]
fn groups_are_evaluated_first() {
    assert_eq!(eval("(2+3)*4").unwrap(), "20");
    assert_eq!(eval("2*(3+4)").unwrap(), "14");
    assert_eq!(eval("((1+2)*(3+4))").unwrap(), "21");
    assert_eq!(eval("(7)").unwrap(), "7");
}

#[test]
fn division_by_zero_is_an_error_of_its_own() {
    assert!(matches!(eval("10/0"), Err(ExprError::DivisionByZero)));
    assert!(matches!(eval("1/(2-2)"), Err(ExprError::DivisionByZero)));
    assert!(matches!(eval("abc/0"), Err(ExprError::DivisionByZero)));
    assert_eq!(ExprError::DivisionByZero.message(), "Division by zero");
}

#[test]
fn chains_group_from_the_left() {
    assert_eq!(eval("10-3-2").unwrap(), "5");
    assert_eq!(eval("100/10/5").unwrap(), "2");
    assert_eq!(eval("10-3+2").unwrap(), "9");
    assert_eq!(eval("10+3-2").unwrap(), "11");
    assert_eq!(eval("1-2+3-4").unwrap(), "-2");
    assert_eq!(eval("8/2*3").unwrap(), "12");
}

#[test]
fn values_are_written_with_no_or_two_decimals() {
    assert_eq!(eval("1/3").unwrap(), "0.33");
    assert_eq!(eval("2.5").unwrap(), "2.50");
    assert_eq!(eval("2.0").unwrap(), "2");
    assert_eq!(eval("007").unwrap(), "7");
    assert_eq!(eval("1e3").unwrap(), "1000");
    assert_eq!(eval("0.1+0.2").unwrap(), "0.30");
    assert_eq!(eval("-5+3").unwrap(), "-2");
    assert_eq!(eval("-5").unwrap(), "-5");
}

#[test]
fn blanks_do_not_count() {
    assert_eq!(eval(" 2 + 3 * 4 ").unwrap(), "14");
    assert_eq!(eval("1 0 + 5").unwrap(), "15");
}

#[test]
fn a_text_that_is_no_number_stays_as_it_is() {
    assert_eq!(eval("abc").unwrap(), "abc");
    assert_eq!(eval("").unwrap(), "");
    assert_eq!(eval("()").unwrap(), "");
}

#[test]
fn operands_that_are_no_numbers_fail() {
    assert!(matches!(eval("abc+1"), Err(ExprError::InvalidNumber)));
    assert!(matches!(eval("1+"), Err(ExprError::InvalidNumber)));
    assert!(matches!(eval("(1+2"), Err(ExprError::InvalidNumber)));
    assert!(matches!(eval("3-(2-7)"), Err(ExprError::InvalidNumber)));
    assert!(matches!(eval("2--5"), Err(ExprError::InvalidNumber)));
    assert!(matches!(eval("+5"), Err(ExprError::InvalidNumber)));
    assert!(matches!(eval("3*+2"), Err(ExprError::InvalidNumber)));
    assert_eq!(ExprError::InvalidNumber.message(), "invalid float literal");
}

#[test]
fn a_sign_counts_at_the_start_of_a_side() {
    assert_eq!(eval("2+(3-7)").unwrap(), "-2");
    assert_eq!(eval("(3-7)*2").unwrap(), "-8");
    assert_eq!(eval("(3-7)+2").unwrap(), "-2");
}

#[test]
fn a_sign_counts_behind_a_product_or_quotient() {
    assert_eq!(eval("3*-2").unwrap(), "-6");
    assert_eq!(eval("2*(3-7)").unwrap(), "-8");
    assert_eq!(eval("6/-3").unwrap(), "-2");
    assert_eq!(eval("6/(1-3)").unwrap(), "-3");
    assert_eq!(eval("5-3*-2").unwrap(), "11");
    assert_eq!(eval("3*-2-1").unwrap(), "-7");
    assert_eq!(eval("2*-3*4").unwrap(), "-24");
    assert_eq!(eval("-2*-3").unwrap(), "6");
    assert_eq!(eval("1+2*-3").unwrap(), "-5");
    assert_eq!(eval("8/-2/-2").unwrap(), "2");
}

#[test]
fn a_negative_cell_in_a_product() {
    let p = page(&["A", "B"], &[&["3", "-2"], &["-4", "-0.5"], &["6", "2"]]);
    let column = parse_computed_column("A * B", Some(&p.columns)).unwrap();
    let out = run(|book| apply_computed_columns(&p, &vec![column.clone()], book)).0.unwrap();
    assert_eq!(column_cells(&out, "A * B"), vec!["-6", "2", "12"]);
    let column = parse_computed_column("q = A / B", Some(&p.columns)).unwrap();
    let out = run(|book| apply_computed_columns(&p, &vec![column.clone()], book)).0.unwrap();
    assert_eq!(column_cells(&out, "q"), vec!["-1.50", "8", "3"]);
}


#[test]
fn evaluation_asks_once_per_step() {
    let (r, asked) = run(|book| evaluate("(2+3)*4", book));
    assert_eq!(r.unwrap(), "20");
    // 2, 3, 2+3, 5, 4, 5*4
    assert_eq!(asked, 6);
}

#[test]
fn evaluation_with_an_empty_book_asks_for_the_first_number() {
    let book = Answers::new();
    match evaluate("2+3", &book) {
        Step::Ask(Request::Normalize(t)) => assert_eq!(t, "2"),
        other => panic!("{:?}", other),
    }
}

#[test]
fn an_answer_with_a_bracket_is_refused() {
    let mut book = Answers::new();
    book.record(Request::Normalize("1".to_string()), Answer::Text("(1".to_string()));
    assert!(matches!(evaluate("(1)+2", &book), Step::Failed(ExprError::InvalidNumber)));
}

#[test]
fn the_first_answer_to_a_request_stays_in_force() {
    let mut book = Answers::new();
    book.record(Request::Normalize("1".to_string()), Answer::Text("5".to_string()));
    book.record(Request::Normalize("1".to_string()), Answer::Text("6".to_string()));
    assert_eq!(book.len(), 2);
    assert!(matches!(evaluate("1", &book), Step::Done(t) if t == "5"));
}

#[test]
fn sum_skips_cells_that_are_no_numbers() {
    let p = page(&["v"], &[&["1"], &["2"], &["x"], &["4"]]);
    let (r, _) = run(|book| compute_aggregate(&p, "sum", "sum(v)", book));
    assert_eq!(r.unwrap(), "7");
}

#[test]
fn aggregates_over_a_column() {
    let p = page(&["name", "v"], &[&["a", "1"], &["b", "2.5"], &["c", ""], &["d", "4"]]);
    let value = |f: &str| run(|book| compute_aggregate(&p, f, &format!("{}(v)", f), book)).0.unwrap();
    assert_eq!(value("sum"), "7.50");
    assert_eq!(value("mean"), "2.50");
    assert_eq!(value("count"), "3");
    assert_eq!(value("min"), "1");
    assert_eq!(value("max"), "4");
}

#[test]
fn count_needs_no_arithmetic() {
    let p = page(&["v"], &[&["1"], &["x"], &["3"]]);
    let book = Answers::new();
    assert!(matches!(compute_aggregate(&p, "count", "count(v)", &book), Step::Done(t) if t == "2"));
}

#[test]
fn an_aggregate_without_numbers_is_zero() {
    let p = page(&["v"], &[&["x"], &[""]]);
    for f in ["sum", "mean", "count", "min", "max", "median"] {
        let (r, asked) = run(|book| compute_aggregate(&p, f, &format!("{}(v)", f), book));
        assert_eq!(r.unwrap(), "0");
        assert_eq!(asked, 0);
    }
    let empty = page(&["v"], &[]);
    assert_eq!(run(|book| compute_aggregate(&empty, "sum", "sum(v)", book)).0.unwrap(), "0");
}

#[test]
fn aggregate_errors() {
    let p = page(&["v"], &[&["1"]]);
    let (r, _) = run(|book| compute_aggregate(&p, "sum", "sum(w)", book));
    match r {
        Err(ExprError::ColumnNotFound(c)) => assert_eq!(c, "w"),
        other => panic!("{:?}", other),
    }
    let (r, _) = run(|book| compute_aggregate(&p, "median", "median(v)", book));
    match r {
        Err(e @ ExprError::UnknownFunction(_)) => {
            assert_eq!(e.message(), "Unknown function: median")
        }
        other => panic!("{:?}", other),
    }
}

#[test]
fn the_column_of_an_aggregate_is_read_without_the_brackets() {
    let p = page(&["Age"], &[&["1"], &["2"]]);
    for e in ["sum(Age)", "sum( Age )", "sumsum((Age))", "sum(Age"] {
        assert_eq!(run(|book| compute_aggregate(&p, "sum", e, book)).0.unwrap(), "3", "{}", e);
    }
}

#[test]
fn row_operation_on_one_row() {
    let p = page(&["a", "b"], &[&["2", "3"], &["x", "1.5"]]);
    let cols = vec!["a".to_string(), "b".to_string()];
    let (r, _) = run(|book| compute_row_operation(&p, &p.rows[0], "a * b + 1", &cols, book));
    assert_eq!(r.unwrap(), "7");
    let (r, _) = run(|book| compute_row_operation(&p, &p.rows[1], "a * b + 1", &cols, book));
    assert_eq!(r.unwrap(), "1");
    let (r, _) = run(|book| compute_row_operation(&p, &p.rows[1], "a + b", &cols, book));
    assert_eq!(r.unwrap(), "1.50");
}

#[test]
fn a_column_that_the_page_lacks_stays_in_the_expression() {
    let p = page(&["a"], &[&["2"]]);
    let cols = vec!["zz".to_string()];
    let (r, _) = run(|book| compute_row_operation(&p, &p.rows[0], "zz + 1", &cols, book));
    assert!(matches!(r, Err(ExprError::InvalidNumber)));
    let (r, _) = run(|book| compute_row_operation(&p, &p.rows[0], "zz", &cols, book));
    assert_eq!(r.unwrap(), "zz");
}

#[test]
fn mixed_operation_subtracts_the_mean() {
    let p = page(&["Age"], &[&["10"], &["20"], &["30"]]);
    let columns = Some(&p.columns);
    let column = parse_computed_column("Age - mean(Age)", columns).unwrap();
    assert_eq!(column.name, "Age - mean(Age)");
    assert_eq!(
        column.column_type,
        ComputedColumnType::MixedOperation(vec!["Age".to_string()], vec!["mean(Age)".to_string()])
    );
    let (r, _) = run(|book| {
        compute_mixed_operation(
            &p,
            &p.rows[0],
            "Age - mean(Age)",
            &vec!["Age".to_string()],
            &vec!["mean(Age)".to_string()],
            book,
        )
    });
    assert_eq!(r.unwrap(), "-10");
    let (r, _) = run(|book| apply_computed_columns(&p, &vec![column.clone()], book));
    let out = r.unwrap();
    assert_eq!(out.columns, vec!["Age", "Age - mean(Age)"]);
    assert_eq!(column_cells(&out, "Age - mean(Age)"), vec!["-10", "0", "10"]);
    assert_eq!(column_cells(&out, "Age"), vec!["10", "20", "30"]);
    assert_eq!(out.total_rows, 3);
}

#[test]
fn computed_columns_are_appended_in_turn() {
    let p = page(&["rowid", "a", "b"], &[&["1", "2", "3"], &["2", "4", "x"]]);
    let columns = vec![
        parse_computed_column("total=sum(a)", Some(&p.columns)).unwrap(),
        parse_computed_column("ab=a*b", Some(&p.columns)).unwrap(),
        parse_computed_column("share=a/sum(a)", Some(&p.columns)).unwrap(),
        parse_computed_column("7", Some(&p.columns)).unwrap(),
        parse_computed_column("b", Some(&p.columns)).unwrap(),
    ];
    let (r, _) = run(|book| apply_computed_columns(&p, &columns, book));
    let out = r.unwrap();
    assert_eq!(out.columns, vec!["rowid", "a", "total", "ab", "share", "7", "b"]);
    // the column called `b` was taken off before the new `b` was computed,
    // so the name finds no cell and stays as it is
    assert_eq!(out.rows[0], vec!["1", "2", "6", "6", "0.33", "7", "b"]);
    assert_eq!(out.rows[1], vec!["2", "4", "6", "0", "0.67", "7", "b"]);
    assert!(out.is_well_formed());
    // the page that was handed in is as it was
    assert_eq!(p.columns, vec!["rowid", "a", "b"]);
    assert_eq!(p.rows[0], vec!["1", "2", "3"]);
}

#[test]
fn a_later_column_may_use_an_earlier_one() {
    let p = page(&["a"], &[&["2"], &["3"]]);
    let first = parse_computed_column("twice=a*2", Some(&p.columns)).unwrap();
    let (r, _) = run(|book| apply_computed_columns(&p, &vec![first.clone()], book));
    let with_first = r.unwrap();
    let second = parse_computed_column("more=twice+1", Some(&with_first.columns)).unwrap();
    let columns = vec![first, second];
    let (r, _) = run(|book| apply_computed_columns(&with_first, &columns, book));
    let out = r.unwrap();
    assert_eq!(out.columns, vec!["a", "twice", "more"]);
    assert_eq!(out.rows, vec![vec!["2", "4", "5"], vec!["3", "6", "7"]]);
}

#[test]
fn applying_twice_replaces_the_column() {
    let p = page(&["a"], &[&["2"], &["3"]]);
    let columns = vec![parse_computed_column("twice=a*2", Some(&p.columns)).unwrap()];
    let once = run(|book| apply_computed_columns(&p, &columns, book)).0.unwrap();
    let twice = run(|book| apply_computed_columns(&once, &columns, book)).0.unwrap();
    assert_eq!(twice.columns, once.columns);
    assert_eq!(twice.rows, once.rows);
}

#[test]
fn refresh_takes_the_columns_off_and_appends_them_anew() {
    let p = page(&["a"], &[&["2"], &["3"]]);
    let columns = vec![
        parse_computed_column("total=sum(a)", Some(&p.columns)).unwrap(),
        parse_computed_column("twice=a*2", Some(&p.columns)).unwrap(),
    ];
    let mut shown = run(|book| apply_computed_columns(&p, &columns, book)).0.unwrap();
    assert_eq!(shown.rows, vec![vec!["2", "5", "4"], vec!["3", "5", "6"]]);
    shown.rows[0][0] = "10".to_string();
    let bare = strip_computed_columns(&shown, &columns);
    assert_eq!(bare.columns, vec!["a"]);
    assert_eq!(bare.rows, vec![vec!["10"], vec!["3"]]);
    let fresh = run(|book| refresh_computed_columns(&shown, &columns, book)).0.unwrap();
    assert_eq!(fresh.columns, vec!["a", "total", "twice"]);
    assert_eq!(fresh.rows, vec![vec!["10", "13", "20"], vec!["3", "13", "6"]]);
}

#[test]
fn an_error_in_one_row_fails_the_whole_run() {
    let p = page(&["a", "b"], &[&["1", "1"], &["1", "0"]]);
    let columns = vec![parse_computed_column("a/b", Some(&p.columns)).unwrap()];
    let (r, _) = run(|book| apply_computed_columns(&p, &columns, book));
    assert!(matches!(r, Err(ExprError::DivisionByZero)));
}

#[test]
fn a_stored_column_with_an_unknown_function_fails() {
    let p = page(&["a"], &[&["1"]]);
    let columns = vec![ComputedColumn {
        name: "m".to_string(),
        expression: "median(a)".to_string(),
        column_type: ComputedColumnType::Aggregate("median".to_string()),
    }];
    let (r, _) = run(|book| apply_computed_columns(&p, &columns, book));
    assert!(matches!(r, Err(ExprError::UnknownFunction(f)) if f == "median"));
}

#[test]
fn a_column_name_inside_another_is_left_alone() {
    let p = page(&["A", "AB"], &[&["1", "2"]]);
    let cols = vec!["A".to_string(), "AB".to_string()];
    let (r, _) = run(|book| compute_row_operation(&p, &p.rows[0], "A + AB", &cols, book));
    assert_eq!(r.unwrap(), "3");
    let (r, _) = run(|book| compute_row_operation(&p, &p.rows[0], "AB * AB - A", &cols, book));
    assert_eq!(r.unwrap(), "3");
    let column = parse_computed_column("A + AB", Some(&p.columns)).unwrap();
    let (r, _) = run(|book| apply_computed_columns(&p, &vec![column.clone()], book));
    assert_eq!(r.unwrap().rows[0], vec!["1", "2", "3"]);
}
