use sqbrowser::database::QueryResult;
use sqbrowser::expression::ComputedColumnType;
use sqbrowser::file_reader::{paginate_data, FileType};
use sqbrowser::numeric::{AggregateFn, Answer, Answers, ArithOp, Request};
use sqbrowser::persistence::{file_hash, ComputedColumnPersistence};
use sqbrowser::ui::{AppState, Effect, Key, KeyInput, NavigationMode, Pending};

fn format_number(x: f64) -> String {
    if x.fract() == 0.0 {
        format!("{:.0}", x)
    } else {
        format!("{:.2}", x)
    }
}

fn answer(request: &Request) -> Answer {
    match request {
        Request::Normalize(text) => match text.parse::<f64>() {
            Ok(x) => Answer::Text(format_number(x)),
            Err(_) => Answer::NotNumber,
        },
        Request::Combine(op, left, right) => {
            let r = match right.parse::<f64>() {
                Ok(r) => r,
                Err(_) => return Answer::NotNumber,
            };
            if matches!(op, ArithOp::Divide) && r == 0.0 {
                return Answer::DivisionByZero;
            }
            let l = match left.parse::<f64>() {
                Ok(l) => l,
                Err(_) => return Answer::NotNumber,
            };
            Answer::Text(format_number(match op {
                ArithOp::Multiply => l * r,
                ArithOp::Divide => l / r,
                ArithOp::Add => l + r,
                ArithOp::Subtract => l - r,
            }))
        }
        Request::CellValue(text) => Answer::Text(text.parse::<f64>().unwrap_or(0.0).to_string()),
        Request::Aggregate(f, cells) => {
            let values: Vec<f64> = cells.iter().filter_map(|c| c.parse::<f64>().ok()).collect();
            let x = match f {
                AggregateFn::Sum => values.iter().sum::<f64>(),
                AggregateFn::Mean => values.iter().sum::<f64>() / values.len() as f64,
                AggregateFn::Min => values.iter().fold(f64::INFINITY, |a, &b| a.min(b)),
                AggregateFn::Max => values.iter().fold(f64::NEG_INFINITY, |a, &b| a.max(b)),
            };
            Answer::Text(format_number(x))
        }
    }
}

/// Answers the numeric requests until the computation is over.
fn settle(app: &mut AppState, first: Effect) -> Effect {
    let mut book = Answers::new();
    let mut effect = first;
    let mut rounds = 0;
    loop {
        match effect {
            Effect::Ask(q) => {
                let a = answer(&q);
                book.record(q, a);
                effect = app.recompute(&book);
                rounds += 1;
                assert!(rounds < 10_000);
            }
            other => return other,
        }
    }
}

fn key(k: Key) -> KeyInput {
    KeyInput { key: k, control: false }
}

fn ctrl(c: char) -> KeyInput {
    KeyInput { key: Key::Char(c), control: true }
}

fn press(app: &mut AppState, k: Key) -> Effect {
    let effect = app.handle_key_event(key(k));
    settle(app, effect)
}

fn type_text(app: &mut AppState, text: &str) {
    for c in text.chars() {
        assert!(matches!(press(app, Key::Char(c)), Effect::Nothing));
    }
}

fn source(n: usize, rowid: bool) -> QueryResult {
    let mut columns = vec!["name".to_string(), "age".to_string()];
    if rowid {
        columns.insert(0, "rowid".to_string());
    }
    let rows = (0..n)
        .map(|i| {
            let mut row = vec![format!("n{}", i), (i * 10).to_string()];
            if rowid {
                row.insert(0, (i + 1).to_string());
            }
            row
        })
        .collect();
    QueryResult { columns, rows, total_rows: n }
}

fn app_with(kind: FileType) -> AppState {
    AppState::new(
        "/data/people.db".to_string(),
        vec!["people".to_string(), "places".to_string()],
        kind,
        ComputedColumnPersistence::new("/store".to_string()),
    )
}

/// Does what `Load` asks for from a source held in memory.
fn load(app: &mut AppState, data: &QueryResult) -> Effect {
    let page = paginate_data(data, app.data_offset, app.page_size);
    let effect = app.load_current_data(page, None, None);
    settle(app, effect)
}

fn press_and_load(app: &mut AppState, k: Key, data: &QueryResult) -> Effect {
    match press(app, k) {
        Effect::Load => load(app, data),
        other => other,
    }
}

fn on_page(n: usize, rowid: bool) -> (AppState, QueryResult) {
    let data = source(n, rowid);
    let mut app = app_with(FileType::Sqlite);
    assert!(matches!(load(&mut app, &data), Effect::Nothing));
    // into the page: no load, since the page is there
    assert!(matches!(press(&mut app, Key::Enter), Effect::Nothing));
    assert_eq!(app.navigation_mode, NavigationMode::Data);
    (app, data)
}

fn cells(app: &AppState) -> Vec<Vec<String>> {
    app.current_data.as_ref().unwrap().rows.clone()
}

#[test]
fn the_state_at_the_start() {
    let app = app_with(FileType::Csv);
    assert_eq!(app.navigation_mode, NavigationMode::Table);
    assert_eq!(app.page_size, 25);
    assert_eq!(app.data_offset, 0);
    assert_eq!(app.selected_table_idx, 0);
    assert_eq!(app.current_table(), Some("people"));
    assert!(app.current_data.is_none());
    assert_eq!(app.previous_navigation_mode, NavigationMode::Data);
    assert_eq!(app.pending, Pending::Idle);
    assert_eq!(app.db_path, "/data/people.db");
}

#[test]
fn table_keys_select_a_table_and_load_it() {
    let data = source(3, true);
    let mut app = app_with(FileType::Sqlite);
    load(&mut app, &data);
    assert!(matches!(press(&mut app, Key::Up), Effect::Nothing));
    assert_eq!(app.selected_table_idx, 0);
    assert!(app.current_data.is_some());
    assert!(matches!(press(&mut app, Key::Down), Effect::Load));
    assert_eq!(app.selected_table_idx, 1);
    assert_eq!(app.current_table(), Some("places"));
    assert!(app.current_data.is_none());
    assert!(matches!(press(&mut app, Key::Down), Effect::Nothing));
    assert_eq!(app.selected_table_idx, 1);
    assert!(matches!(press(&mut app, Key::Up), Effect::Load));
    assert_eq!(app.selected_table_idx, 0);
    // entering the page without a page on view asks for the load
    assert!(matches!(press(&mut app, Key::Right), Effect::Load));
    assert_eq!(app.navigation_mode, NavigationMode::Data);
    // and so does any key for which the page mode has nothing else to do
    assert!(matches!(press(&mut app, Key::Other), Effect::Load));
    load(&mut app, &data);
    assert!(matches!(app.handle_key_event(ctrl('q')), Effect::Quit));
    assert!(matches!(app.handle_key_event(ctrl('c')), Effect::Quit));
    assert!(matches!(app.handle_key_event(key(Key::Char('q'))), Effect::Nothing));
}

#[test]
fn help_is_toggled_and_closed_by_escape() {
    let mut app = app_with(FileType::Csv);
    press(&mut app, Key::Char('h'));
    assert!(app.show_help);
    press(&mut app, Key::Esc);
    assert!(!app.show_help);
    assert_eq!(app.navigation_mode, NavigationMode::Table);
    press(&mut app, Key::Char('h'));
    press(&mut app, Key::Char('h'));
    assert!(!app.show_help);
}

#[test]
fn the_cursor_skips_the_rowid_column_after_a_load() {
    let (app, _) = on_page(3, true);
    assert_eq!(app.selected_col_idx, 1);
    assert_eq!(app.selected_row_idx, 0);
    let (app, _) = on_page(3, false);
    assert_eq!(app.selected_col_idx, 0);
}

#[test]
fn down_moves_the_cursor_and_turns_the_page() {
    let (mut app, data) = on_page(60, true);
    assert_eq!(cells(&app).len(), 25);
    for i in 1..25 {
        assert!(matches!(press(&mut app, Key::Down), Effect::Nothing));
        assert_eq!(app.selected_row_idx, i);
        assert_eq!(app.data_offset, 0);
    }
    // past the last row of a full page
    assert!(matches!(press(&mut app, Key::Down), Effect::Load));
    assert_eq!(app.data_offset, 25);
    assert_eq!(app.selected_row_idx, 0);
    load(&mut app, &data);
    assert_eq!(cells(&app)[0][1], "n25");
    assert!(matches!(press_and_load(&mut app, Key::PageDown, &data), Effect::Nothing));
    assert_eq!(app.data_offset, 50);
    assert_eq!(cells(&app).len(), 10);
    // the last page: nothing lies behind it
    for _ in 0..9 {
        press(&mut app, Key::Down);
    }
    assert_eq!(app.selected_row_idx, 9);
    assert!(matches!(press(&mut app, Key::Down), Effect::Nothing));
    assert_eq!(app.selected_row_idx, 9);
    assert_eq!(app.data_offset, 50);
    assert!(matches!(press(&mut app, Key::PageDown), Effect::Nothing));
    assert_eq!(app.data_offset, 50);
}

#[test]
fn up_turns_the_page_back_to_its_last_row() {
    let (mut app, data) = on_page(60, false);
    assert!(matches!(press(&mut app, Key::Up), Effect::Nothing));
    press_and_load(&mut app, Key::End, &data);
    assert_eq!(app.data_offset, 35);
    assert_eq!(app.selected_row_idx, 0);
    assert!(matches!(press(&mut app, Key::Up), Effect::Load));
    assert_eq!(app.data_offset, 10);
    assert_eq!(app.selected_row_idx, 24);
    load(&mut app, &data);
    assert_eq!(app.selected_row_idx, 24);
    assert_eq!(cells(&app)[24][0], "n34");
    press_and_load(&mut app, Key::PageUp, &data);
    assert_eq!(app.data_offset, 0);
    assert_eq!(app.selected_row_idx, 0);
    assert!(matches!(press(&mut app, Key::PageUp), Effect::Nothing));
    press_and_load(&mut app, Key::Home, &data);
    assert_eq!(app.data_offset, 0);
}

#[test]
fn the_cursor_is_put_inside_a_shorter_page() {
    let (mut app, data) = on_page(60, false);
    press_and_load(&mut app, Key::PageDown, &data);
    assert!(matches!(press(&mut app, Key::Up), Effect::Load));
    assert_eq!(app.selected_row_idx, 24);
    // the set has shrunk meanwhile
    let short = source(5, false);
    let page = paginate_data(&short, 0, 25);
    assert!(matches!(app.load_current_data(page, None, None), Effect::Nothing));
    assert_eq!(app.selected_row_idx, 4);
}

#[test]
fn a_failed_load_shows_the_error_and_keeps_the_cursor_inside() {
    let (mut app, data) = on_page(30, false);
    press_and_load(&mut app, Key::PageDown, &data);
    assert_eq!(cells(&app).len(), 5);
    assert_eq!(app.data_offset, 25);
    assert!(matches!(press(&mut app, Key::Up), Effect::Load));
    assert_eq!(app.data_offset, 0);
    app.load_failed("disk on fire");
    assert_eq!(app.navigation_mode, NavigationMode::ErrorDisplay);
    assert_eq!(app.error_message.as_deref(), Some("disk on fire"));
    // the page on view is still the second one, and the offset says so
    assert_eq!(app.data_offset, 25);
    assert_eq!(cells(&app)[0][0], "n25");
    assert_eq!(app.selected_row_idx, 4);
    press(&mut app, Key::Esc);
    assert_eq!(app.navigation_mode, NavigationMode::Data);
    assert!(app.error_message.is_none());
}

#[test]
fn left_and_right_stay_inside_the_editable_columns() {
    let (mut app, _) = on_page(3, true);
    assert_eq!(app.selected_col_idx, 1);
    press(&mut app, Key::Right);
    assert_eq!(app.selected_col_idx, 2);
    press(&mut app, Key::Right);
    assert_eq!(app.selected_col_idx, 2);
    press(&mut app, Key::Left);
    assert_eq!(app.selected_col_idx, 1);
    // left of the first editable column lies the table list
    assert!(matches!(press(&mut app, Key::Left), Effect::Load));
    assert_eq!(app.navigation_mode, NavigationMode::Table);
    assert!(app.current_data.is_none());
    assert_eq!(app.selected_col_idx, 0);
}

#[test]
fn left_on_column_zero_without_rowid_goes_to_the_tables() {
    let (mut app, data) = on_page(3, false);
    let before = data.rows.clone();
    assert_eq!(app.selected_col_idx, 0);
    assert!(matches!(press(&mut app, Key::Left), Effect::Load));
    assert_eq!(app.navigation_mode, NavigationMode::Table);
    assert!(app.current_data.is_none());
    assert!(!app.data_modified);
    load(&mut app, &data);
    assert_eq!(cells(&app), before);
}

#[test]
fn the_rowid_column_cannot_be_edited() {
    let (mut app, _) = on_page(3, true);
    let before = cells(&app);
    app.selected_col_idx = 0;
    assert!(matches!(press(&mut app, Key::Char(' ')), Effect::Nothing));
    assert_eq!(app.navigation_mode, NavigationMode::ErrorDisplay);
    assert_eq!(app.previous_navigation_mode, NavigationMode::Data);
    assert_eq!(app.error_message.as_deref(), Some("Cannot edit rowid column"));
    assert!(app.editing_cell.is_none());
    assert!(!app.data_modified);
    assert_eq!(cells(&app), before);
    press(&mut app, Key::Esc);
    assert_eq!(app.navigation_mode, NavigationMode::Data);
}

#[test]
fn an_edit_changes_its_cell_and_no_other() {
    let (mut app, _) = on_page(4, true);
    let before = cells(&app);
    press(&mut app, Key::Down);
    press(&mut app, Key::Right);
    assert!(matches!(press(&mut app, Key::Char(' ')), Effect::Nothing));
    assert_eq!(app.navigation_mode, NavigationMode::Edit);
    assert_eq!(app.editing_cell, Some((1, 2)));
    assert_eq!(app.edit_input, "10");
    press(&mut app, Key::Backspace);
    press(&mut app, Key::Backspace);
    press(&mut app, Key::Backspace);
    type_text(&mut app, "4 n2");
    assert_eq!(app.edit_input, "4 n2");
    assert!(matches!(press(&mut app, Key::Enter), Effect::Nothing));
    assert_eq!(app.navigation_mode, NavigationMode::Data);
    assert!(app.editing_cell.is_none());
    assert_eq!(app.edit_input, "");
    assert!(app.data_modified);
    assert_eq!(app.status_message.as_deref(), Some("Cell updated (not saved)"));
    let after = cells(&app);
    for r in 0..4 {
        for c in 0..3 {
            if (r, c) == (1, 2) {
                assert_eq!(after[r][c], "4 n2");
            } else {
                assert_eq!(after[r][c], before[r][c]);
            }
        }
    }
    assert_eq!(app.current_data.as_ref().unwrap().columns, vec!["rowid", "name", "age"]);
    // the page as it was loaded is kept
    assert_eq!(app.original_data.as_ref().unwrap().rows, before);
}

#[test]
fn escape_discards_an_edit() {
    let (mut app, _) = on_page(2, false);
    let before = cells(&app);
    press(&mut app, Key::Char(' '));
    type_text(&mut app, "zzz");
    press(&mut app, Key::Esc);
    assert_eq!(app.navigation_mode, NavigationMode::Data);
    assert_eq!(cells(&app), before);
    assert!(!app.data_modified);
    assert_eq!(app.edit_input, "");
}

#[test]
fn arrows_in_a_cell_write_it_and_move_on() {
    let (mut app, _) = on_page(3, true);
    press(&mut app, Key::Char(' '));
    assert_eq!(app.editing_cell, Some((0, 1)));
    type_text(&mut app, "!");
    press(&mut app, Key::Right);
    assert_eq!(cells(&app)[0][1], "n0!");
    assert_eq!(app.editing_cell, Some((0, 2)));
    assert_eq!((app.selected_row_idx, app.selected_col_idx), (0, 2));
    assert_eq!(app.edit_input, "0");
    press(&mut app, Key::Right);
    assert_eq!(app.editing_cell, Some((0, 2)));
    press(&mut app, Key::Down);
    assert_eq!(app.editing_cell, Some((1, 2)));
    assert_eq!(app.edit_input, "10");
    press(&mut app, Key::Left);
    assert_eq!(app.editing_cell, Some((1, 1)));
    press(&mut app, Key::Left);
    assert_eq!(app.editing_cell, Some((1, 1)));
    press(&mut app, Key::Up);
    assert_eq!(app.editing_cell, Some((0, 1)));
    assert_eq!(app.edit_input, "n0!");
    press(&mut app, Key::Up);
    assert_eq!(app.editing_cell, Some((0, 1)));
    assert_eq!(app.navigation_mode, NavigationMode::Edit);
}

#[test]
fn an_arrow_past_the_page_loads_the_next_and_edits_there() {
    let (mut app, data) = on_page(30, false);
    for _ in 0..24 {
        press(&mut app, Key::Down);
    }
    press(&mut app, Key::Char(' '));
    assert_eq!(app.editing_cell, Some((24, 0)));
    assert!(matches!(press(&mut app, Key::Down), Effect::Load));
    assert_eq!(app.data_offset, 25);
    load(&mut app, &data);
    assert_eq!(app.navigation_mode, NavigationMode::Edit);
    assert_eq!(app.editing_cell, Some((0, 0)));
    assert_eq!(app.edit_input, "n25");
}

#[test]
fn tab_walks_the_cells_row_by_row() {
    let (mut app, _) = on_page(2, true);
    press(&mut app, Key::Char(' '));
    type_text(&mut app, "a");
    press(&mut app, Key::Tab);
    assert_eq!(app.editing_cell, Some((0, 2)));
    assert_eq!(app.edit_input, "0");
    press(&mut app, Key::Tab);
    assert_eq!(app.editing_cell, Some((1, 1)));
    assert_eq!((app.selected_row_idx, app.selected_col_idx), (1, 1));
    assert_eq!(app.edit_input, "n1");
    press(&mut app, Key::Tab);
    assert_eq!(app.editing_cell, Some((1, 2)));
    type_text(&mut app, "b");
    press(&mut app, Key::Tab);
    assert_eq!(app.navigation_mode, NavigationMode::Data);
    assert!(app.editing_cell.is_none());
    assert_eq!(cells(&app), vec![vec!["1", "n0a", "0"], vec!["2", "n1", "10b"]]);
    assert!(app.data_modified);
}

#[test]
fn a_new_row_is_empty_and_under_the_cursor() {
    let (mut app, _) = on_page(2, true);
    press(&mut app, Key::Char('n'));
    let page = app.current_data.as_ref().unwrap();
    assert_eq!(page.rows.len(), 3);
    assert_eq!(page.rows[2], vec!["", "", ""]);
    assert_eq!(page.total_rows, 3);
    assert_eq!((app.selected_row_idx, app.selected_col_idx), (2, 1));
    assert!(app.data_modified);
    assert_eq!(app.status_message.as_deref(), Some("New row added"));
    press(&mut app, Key::Char(' '));
    type_text(&mut app, "x");
    let effect = app.handle_key_event(ctrl('n'));
    assert!(matches!(effect, Effect::Nothing));
    assert_eq!(app.navigation_mode, NavigationMode::Edit);
    assert_eq!(app.editing_cell, Some((3, 1)));
    assert_eq!(app.edit_input, "");
    assert_eq!(cells(&app).len(), 4);
    // the text that was being typed is dropped
    assert_eq!(cells(&app)[2][1], "");
}

#[test]
fn the_view_of_one_row() {
    let (mut app, _) = on_page(3, true);
    press(&mut app, Key::Down);
    press(&mut app, Key::Enter);
    assert_eq!(app.navigation_mode, NavigationMode::DetailedView);
    assert_eq!(app.detailed_view_row, Some(1));
    assert_eq!(app.detailed_view_selected_field, 0);
    press(&mut app, Key::Up);
    assert_eq!(app.detailed_view_selected_field, 0);
    press(&mut app, Key::Down);
    press(&mut app, Key::Down);
    press(&mut app, Key::Down);
    assert_eq!(app.detailed_view_selected_field, 2);
    match press(&mut app, Key::Char('c')) {
        Effect::Copy(text) => assert_eq!(text, "10"),
        other => panic!("{:?}", other),
    }
    app.copied();
    assert_eq!(app.status_message.as_deref(), Some("Copied to clipboard"));
    app.copy_failed("no display");
    assert_eq!(app.navigation_mode, NavigationMode::ErrorDisplay);
    assert_eq!(app.error_message.as_deref(), Some("Failed to copy to clipboard: no display"));
    assert!(matches!(app.handle_key_event(ctrl('c')), Effect::Quit));
    press(&mut app, Key::Esc);
    assert_eq!(app.navigation_mode, NavigationMode::DetailedView);
    assert!(matches!(app.handle_key_event(ctrl('c')), Effect::Quit));
    press(&mut app, Key::Esc);
    assert_eq!(app.navigation_mode, NavigationMode::Data);
    assert_eq!(app.detailed_view_row, None);
}

#[test]
fn a_query_is_typed_and_run() {
    let (mut app, data) = on_page(30, true);
    press_and_load(&mut app, Key::PageDown, &data);
    assert_eq!(app.data_offset, 25);
    press(&mut app, Key::Char('i'));
    assert_eq!(app.navigation_mode, NavigationMode::Query);
    type_text(&mut app, "SELECT name FROM xx");
    press(&mut app, Key::Backspace);
    assert_eq!(app.query_input, "SELECT name FROM x");
    let query = match press(&mut app, Key::Enter) {
        Effect::RunQuery(q) => q,
        other => panic!("{:?}", other),
    };
    assert_eq!(query, "SELECT name FROM x");
    assert_eq!(app.navigation_mode, NavigationMode::Data);
    assert_eq!(app.query_input, "");
    let result = QueryResult {
        columns: vec!["name".to_string()],
        rows: vec![vec!["n0".to_string()], vec!["n1".to_string()]],
        total_rows: 2,
    };
    app.query_finished(query, result);
    assert_eq!(app.current_query.as_deref(), Some("SELECT name FROM x"));
    assert_eq!(app.data_offset, 0);
    assert_eq!(app.selected_row_idx, 0);
    assert_eq!(app.status_message.as_deref(), Some("Query executed successfully"));
    assert_eq!(cells(&app).len(), 2);
    // changes of a query's result cannot be saved
    assert!(matches!(press(&mut app, Key::Char('s')), Effect::Nothing));
    assert_eq!(app.navigation_mode, NavigationMode::ErrorDisplay);
    assert_eq!(
        app.error_message.as_deref(),
        Some("Cannot save custom query results. Press 'r' to reload table data first.")
    );
    press(&mut app, Key::Esc);
    assert_eq!(app.export_file_name("20240101_120000").as_deref(), Some("query_export_20240101_120000.csv"));
    // `r` drops the query and loads the table
    assert!(matches!(press(&mut app, Key::Char('r')), Effect::Load));
    assert!(app.current_query.is_none());
}

#[test]
fn a_blank_query_is_not_run_and_escape_drops_it() {
    let (mut app, _) = on_page(3, true);
    press(&mut app, Key::Char('i'));
    type_text(&mut app, "  ");
    assert!(matches!(press(&mut app, Key::Enter), Effect::Nothing));
    assert_eq!(app.navigation_mode, NavigationMode::Data);
    press(&mut app, Key::Char('i'));
    type_text(&mut app, "SELECT 1");
    press(&mut app, Key::Esc);
    assert_eq!(app.navigation_mode, NavigationMode::Data);
    assert_eq!(app.query_input, "");
    assert!(app.current_query.is_none());
}

#[test]
fn a_failed_query_shows_its_error() {
    let (mut app, _) = on_page(3, true);
    press(&mut app, Key::Char('i'));
    type_text(&mut app, "SELEC");
    assert!(matches!(press(&mut app, Key::Enter), Effect::RunQuery(_)));
    app.query_failed("near \"SELEC\": syntax error");
    assert_eq!(app.navigation_mode, NavigationMode::ErrorDisplay);
    assert_eq!(app.error_message.as_deref(), Some("Query error: near \"SELEC\": syntax error"));
    press(&mut app, Key::Esc);
    assert_eq!(app.navigation_mode, NavigationMode::Data);
    assert!(app.current_query.is_none());
}

#[test]
fn a_spreadsheet_takes_no_queries() {
    let data = source(3, false);
    let mut app = app_with(FileType::Xlsx);
    load(&mut app, &data);
    press(&mut app, Key::Enter);
    press(&mut app, Key::Char('i'));
    type_text(&mut app, "SELECT 1");
    assert!(matches!(press(&mut app, Key::Enter), Effect::Nothing));
    assert_eq!(
        app.status_message.as_deref(),
        Some("Custom queries not supported for this file type")
    );
    assert_eq!(app.navigation_mode, NavigationMode::Data);
}

#[test]
fn saving_and_exporting() {
    let (mut app, _) = on_page(3, false);
    assert!(matches!(press(&mut app, Key::Char('s')), Effect::Nothing));
    assert_eq!(app.status_message.as_deref(), Some("No changes to save"));
    press(&mut app, Key::Char('n'));
    assert!(matches!(press(&mut app, Key::Char('s')), Effect::Save));
    assert_eq!(app.save_file_name("20240101_120000").as_deref(), Some("people_edited_20240101_120000.csv"));
    app.changes_saved("people_edited_20240101_120000.csv");
    assert!(!app.data_modified);
    assert_eq!(
        app.status_message.as_deref(),
        Some("Changes exported to people_edited_20240101_120000.csv (SQLite direct save not supported)")
    );
    assert!(matches!(press(&mut app, Key::Char('e')), Effect::Export));
    assert_eq!(app.export_file_name("1").as_deref(), Some("people_1.csv"));
    app.exported(3, "people_1.csv");
    assert_eq!(app.status_message.as_deref(), Some("Exported 3 rows to people_1.csv"));
    app.write_failed("read-only file system");
    assert_eq!(app.error_message.as_deref(), Some("read-only file system"));

    for (kind, text) in [
        (FileType::Csv, "Changes saved to f.csv"),
        (FileType::Xlsx, "Changes saved to f.csv (converted from Excel)"),
        (FileType::Parquet, "Changes saved to f.csv (converted from Parquet)"),
    ] {
        let mut app = app_with(kind);
        app.changes_saved("f.csv");
        assert_eq!(app.status_message.as_deref(), Some(text));
    }
}

#[test]
fn the_status_line_is_cleared_by_the_next_key() {
    let (mut app, _) = on_page(3, false);
    press(&mut app, Key::Char('n'));
    assert!(app.status_message.is_some());
    press(&mut app, Key::Other);
    assert!(app.status_message.is_none());
}

#[test]
fn a_computed_column_is_defined_and_computed() {
    let (mut app, _) = on_page(3, true);
    press(&mut app, Key::Char('='));
    assert_eq!(app.navigation_mode, NavigationMode::ComputedColumn);
    type_text(&mut app, "d = age - mean(age)x");
    press(&mut app, Key::Backspace);
    assert_eq!(app.computed_column_input, "d = age - mean(age)");
    let effect = app.handle_key_event(key(Key::Enter));
    assert!(matches!(effect, Effect::Ask(_)));
    assert_eq!(app.pending, Pending::AfterAdd);
    // while a request is open the page is as it was
    assert_eq!(app.current_data.as_ref().unwrap().columns, vec!["rowid", "name", "age"]);
    assert!(matches!(settle(&mut app, effect), Effect::Persist));
    assert_eq!(app.pending, Pending::Idle);
    assert_eq!(app.navigation_mode, NavigationMode::Data);
    assert_eq!(app.computed_column_input, "");
    assert_eq!(app.computed_columns.len(), 1);
    assert_eq!(app.computed_columns[0].name, "d");
    assert_eq!(
        app.computed_columns[0].column_type,
        ComputedColumnType::MixedOperation(vec!["age".to_string()], vec!["mean(age)".to_string()])
    );
    let page = app.current_data.as_ref().unwrap();
    assert_eq!(page.columns, vec!["rowid", "name", "age", "d"]);
    assert_eq!(page.rows[0], vec!["1", "n0", "0", "-10"]);
    assert_eq!(page.rows[1], vec!["2", "n1", "10", "0"]);
    assert_eq!(page.rows[2], vec!["3", "n2", "20", "10"]);
    app.columns_saved();
    assert_eq!(app.status_message.as_deref(), Some("Computed column added and saved"));
    app.columns_save_failed("disk full");
    assert_eq!(app.status_message.as_deref(), Some("Column added but save failed: disk full"));
}

#[test]
fn a_definition_with_an_unknown_column_changes_nothing() {
    let (mut app, _) = on_page(3, true);
    press(&mut app, Key::Char('='));
    type_text(&mut app, "age + height");
    let before = cells(&app);
    assert!(matches!(press(&mut app, Key::Enter), Effect::Nothing));
    assert!(app.computed_columns.is_empty());
    assert_eq!(cells(&app), before);
    assert_eq!(app.current_data.as_ref().unwrap().columns, vec!["rowid", "name", "age"]);
    assert_eq!(app.navigation_mode, NavigationMode::ErrorDisplay);
    assert_eq!(app.previous_navigation_mode, NavigationMode::Data);
    assert_eq!(
        app.error_message.as_deref(),
        Some("Expression error: Column 'height' does not exist")
    );
    assert!(app.parse_and_add_computed_column("sum(height)").is_err());
    assert!(app.computed_columns.is_empty());
    assert!(app.parse_and_add_computed_column("sum(age)").is_ok());
    assert_eq!(app.computed_columns.len(), 1);
}

#[test]
fn an_edit_recomputes_the_computed_columns() {
    let (mut app, _) = on_page(3, false);
    press(&mut app, Key::Char('='));
    type_text(&mut app, "total=sum(age)");
    assert!(matches!(press(&mut app, Key::Enter), Effect::Persist));
    assert_eq!(cells(&app)[0], vec!["n0", "0", "30"]);
    press(&mut app, Key::Right);
    press(&mut app, Key::Char(' '));
    assert_eq!(app.edit_input, "0");
    type_text(&mut app, "5");
    let effect = app.handle_key_event(key(Key::Enter));
    assert_eq!(app.pending, Pending::AfterEdit);
    assert!(matches!(settle(&mut app, effect), Effect::Nothing));
    assert_eq!(cells(&app), vec![vec!["n0", "05", "35"], vec!["n1", "10", "35"], vec!["n2", "20", "35"]]);
    assert_eq!(app.navigation_mode, NavigationMode::Data);
}

#[test]
fn a_failed_computation_shows_the_error_and_keeps_the_page() {
    let (mut app, _) = on_page(3, false);
    press(&mut app, Key::Char('='));
    type_text(&mut app, "r=10/age");
    // the first row has age 0
    assert!(matches!(press(&mut app, Key::Enter), Effect::Nothing));
    assert_eq!(app.navigation_mode, NavigationMode::ErrorDisplay);
    assert_eq!(app.error_message.as_deref(), Some("Division by zero"));
    assert_eq!(app.current_data.as_ref().unwrap().columns, vec!["name", "age"]);
    assert!(app.current_data.as_ref().unwrap().is_well_formed());
    assert_eq!(app.pending, Pending::Idle);
    // a column that cannot be computed is not kept
    assert!(app.computed_columns.is_empty());
    press(&mut app, Key::Esc);
    // so a later edit is not held up by it
    press(&mut app, Key::Right);
    press(&mut app, Key::Char(' '));
    press(&mut app, Key::Backspace);
    type_text(&mut app, "5");
    assert!(matches!(press(&mut app, Key::Enter), Effect::Nothing));
    assert_eq!(app.navigation_mode, NavigationMode::Data);
    assert_eq!(cells(&app)[0], vec!["n0", "5"]);
    // now the column can be computed, and is kept
    press(&mut app, Key::Char('='));
    type_text(&mut app, "r=10/age");
    assert!(matches!(press(&mut app, Key::Enter), Effect::Persist));
    assert_eq!(app.computed_columns.len(), 1);
    assert_eq!(cells(&app)[0], vec!["n0", "5", "2"]);
    // an edit that makes it fail shows what failed, and the column stays
    press(&mut app, Key::Char(' '));
    press(&mut app, Key::Backspace);
    type_text(&mut app, "0");
    assert!(matches!(press(&mut app, Key::Enter), Effect::Nothing));
    assert_eq!(
        app.error_message.as_deref(),
        Some("Failed to update computed columns: Division by zero")
    );
    assert_eq!(app.computed_columns.len(), 1);
    assert_eq!(cells(&app)[0], vec!["n0", "0", "2"]);
}

#[test]
fn a_load_brings_the_stored_columns_unless_they_are_stale() {
    let data = source(3, false);
    let store = ComputedColumnPersistence::new("/store".to_string());
    let mut first = app_with(FileType::Csv);
    load(&mut first, &data);
    assert!(first.parse_and_add_computed_column("twice=age*2").is_ok());
    let record = store.save_computed_columns(
        None,
        "/data/people.db",
        file_hash(10, 20),
        30,
        "people",
        &first.computed_columns,
    );

    let mut app = app_with(FileType::Csv);
    let same = file_hash(10, 20);
    let effect = app.load_current_data(paginate_data(&data, 0, 25), Some(&record), Some(same.as_str()));
    assert!(matches!(settle(&mut app, effect), Effect::Nothing));
    assert_eq!(app.computed_columns.len(), 1);
    assert_eq!(app.current_data.as_ref().unwrap().columns, vec!["name", "age", "twice"]);
    assert_eq!(cells(&app)[2], vec!["n2", "20", "40"]);
    assert_eq!(app.original_data.as_ref().unwrap().columns, vec!["name", "age"]);

    let changed = file_hash(11, 20);
    let effect = app.load_current_data(paginate_data(&data, 0, 25), Some(&record), Some(changed.as_str()));
    assert!(matches!(settle(&mut app, effect), Effect::Nothing));
    assert!(app.computed_columns.is_empty());
    assert_eq!(app.current_data.as_ref().unwrap().columns, vec!["name", "age"]);

    // another table has no columns in the record
    press(&mut app, Key::Down);
    let effect = app.load_current_data(paginate_data(&data, 0, 25), Some(&record), Some(same.as_str()));
    assert!(matches!(settle(&mut app, effect), Effect::Nothing));
    assert!(app.computed_columns.is_empty());
}

#[test]
fn a_page_with_a_short_row_is_refused() {
    let mut app = app_with(FileType::Csv);
    let bad = QueryResult {
        columns: vec!["a".to_string(), "b".to_string()],
        rows: vec![vec!["1".to_string()]],
        total_rows: 1,
    };
    assert!(matches!(app.load_current_data(bad, None, None), Effect::Nothing));
    assert!(app.current_data.is_none());
    assert_eq!(app.navigation_mode, NavigationMode::ErrorDisplay);
    assert_eq!(
        app.error_message.as_deref(),
        Some("Malformed page: a row does not match the columns")
    );
}

#[test]
fn what_a_load_is_to_fetch() {
    let (mut app, data) = on_page(60, true);
    let request = app.load_request().unwrap();
    assert_eq!(request.table, "people");
    assert_eq!(request.query, None);
    assert_eq!((request.offset, request.limit), (0, 25));
    press_and_load(&mut app, Key::PageDown, &data);
    app.current_query = Some("SELECT 1".to_string());
    let request = app.load_request().unwrap();
    assert_eq!(request.table, "people");
    assert_eq!(request.query.as_deref(), Some("SELECT 1"));
    assert_eq!((request.offset, request.limit), (25, 25));
    let request = app.query_request("SELECT 2").unwrap();
    assert_eq!(request.table, "people");
    assert_eq!(request.query.as_deref(), Some("SELECT 2"));
    assert_eq!((request.offset, request.limit), (0, 25));
    app.selected_table_idx = 9;
    assert!(app.load_request().is_none());
    assert!(app.query_request("SELECT 2").is_none());
}

#[test]
fn a_load_without_a_record_brings_no_columns_and_no_error() {
    let data = source(3, false);
    let mut app = app_with(FileType::Csv);
    let hash = file_hash(1, 2);
    let effect = app.load_current_data(paginate_data(&data, 0, 25), None, Some(hash.as_str()));
    assert!(matches!(effect, Effect::Nothing));
    assert!(app.computed_columns.is_empty());
    assert!(app.error_message.is_none());
    assert_eq!(app.current_data.as_ref().unwrap().rows.len(), 3);
}

#[test]
fn an_edit_keeps_the_headers_and_the_length_of_each_row() {
    let (mut app, _) = on_page(3, false);
    press(&mut app, Key::Char('='));
    type_text(&mut app, "total=sum(age)");
    assert!(matches!(press(&mut app, Key::Enter), Effect::Persist));
    press(&mut app, Key::Char('='));
    type_text(&mut app, "twice=age*2");
    assert!(matches!(press(&mut app, Key::Enter), Effect::Persist));
    let headers = app.current_data.as_ref().unwrap().columns.clone();
    assert_eq!(headers, vec!["name", "age", "total", "twice"]);
    press(&mut app, Key::Right);
    press(&mut app, Key::Char(' '));
    press(&mut app, Key::Backspace);
    type_text(&mut app, "-4");
    assert!(matches!(press(&mut app, Key::Enter), Effect::Nothing));
    let page = app.current_data.as_ref().unwrap();
    assert_eq!(page.columns, headers);
    assert_eq!(page.rows.len(), 3);
    assert!(page.rows.iter().all(|row| row.len() == 4));
    assert_eq!(
        cells(&app),
        vec![vec!["n0", "-4", "26", "-8"], vec!["n1", "10", "26", "20"], vec!["n2", "20", "26", "40"]]
    );
}
