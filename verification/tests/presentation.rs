use sqbrowser::database::QueryResult;
use sqbrowser::expression::{ComputedColumn, ComputedColumnType};
use sqbrowser::file_reader::FileType;
use sqbrowser::persistence::ComputedColumnPersistence;
use sqbrowser::presentation::{
    clip_cell, footer_hint, header_text, is_computed_header, page_position, sidebar_title, title,
    PagePosition,
};
use sqbrowser::ui::{AppState, NavigationMode};

fn app(rows: usize, total: usize) -> AppState {
    let mut app = AppState::new(
        "/data/people.db".to_string(),
        vec!["people".to_string()],
        FileType::Sqlite,
        ComputedColumnPersistence::new("/store".to_string()),
    );
    app.current_data = Some(QueryResult {
        columns: vec!["a".to_string(), "b".to_string()],
        rows: (0..rows).map(|i| vec![i.to_string(), String::new()]).collect(),
        total_rows: total,
    });
    app
}

#[test]
fn the_position_of_a_page() {
    assert_eq!(
        page_position(0, 25, 25, 60),
        PagePosition { current_page: 1, total_pages: 3, start_row: 1, end_row: 25 }
    );
    assert_eq!(
        page_position(50, 25, 10, 60),
        PagePosition { current_page: 3, total_pages: 3, start_row: 51, end_row: 60 }
    );
    assert_eq!(
        page_position(25, 25, 25, 50),
        PagePosition { current_page: 2, total_pages: 2, start_row: 26, end_row: 50 }
    );
    assert_eq!(
        page_position(0, 25, 0, 0),
        PagePosition { current_page: 1, total_pages: 0, start_row: 1, end_row: 0 }
    );
    // a page size of 0 counts as 1
    assert_eq!(
        page_position(3, 0, 1, 5),
        PagePosition { current_page: 4, total_pages: 5, start_row: 4, end_row: 4 }
    );
    assert_eq!(
        page_position(usize::MAX, 1, usize::MAX, usize::MAX),
        PagePosition {
            current_page: usize::MAX,
            total_pages: usize::MAX,
            start_row: usize::MAX,
            end_row: usize::MAX
        }
    );
}

#[test]
fn the_title_of_a_page() {
    let mut a = app(3, 3);
    assert_eq!(title(&a).as_deref(), Some("Table: people | Total: 3 rows | Columns: 2"));
    a.data_modified = true;
    a.current_query = Some("SELECT 1".to_string());
    assert_eq!(
        title(&a).as_deref(),
        Some("Table: people | Total: 3 rows | Columns: 2 | Custom Query | *MODIFIED*")
    );
    let mut b = app(25, 60);
    b.data_offset = 25;
    assert_eq!(
        title(&b).as_deref(),
        Some("Table: people | Total: 60 rows | Columns: 2 | Page 2/3 | Rows 26-50")
    );
    b.current_data = None;
    assert_eq!(title(&b), None);
    let mut c = app(1, 1);
    c.selected_table_idx = 7;
    assert_eq!(title(&c), None);
}

#[test]
fn hints_and_list_names() {
    assert_eq!(footer_hint(NavigationMode::Query), "Type query | Enter Execute | ESC Cancel");
    assert_eq!(footer_hint(NavigationMode::ErrorDisplay), "ESC Close error");
    assert_eq!(
        footer_hint(NavigationMode::ComputedColumn),
        "Type expression | Enter Add | ESC Cancel"
    );
    assert!(footer_hint(NavigationMode::Data).contains("Space Edit"));
    assert!(footer_hint(NavigationMode::Table).ends_with("Ctrl+C Exit"));
    assert!(footer_hint(NavigationMode::Edit).starts_with("Type to edit"));
    assert!(footer_hint(NavigationMode::DetailedView).ends_with("ESC Close"));
    assert_eq!(sidebar_title("a.xlsx"), "Sheets");
    assert_eq!(sidebar_title("a.xls"), "Sheets");
    assert_eq!(sidebar_title("/x/a.csv"), "Data");
    assert_eq!(sidebar_title("a.parquet"), "Data");
    assert_eq!(sidebar_title("a.db"), "Tables");
    assert_eq!(sidebar_title("a.CSV"), "Tables");
    assert_eq!(sidebar_title(""), "Tables");
    assert_eq!(sidebar_title("csv"), "Tables");
}

#[test]
fn computed_headers_are_marked() {
    let columns = vec![ComputedColumn {
        name: "total".to_string(),
        expression: "sum(a)".to_string(),
        column_type: ComputedColumnType::Aggregate("sum".to_string()),
    }];
    assert!(is_computed_header("total", &columns));
    assert!(!is_computed_header("a", &columns));
    assert!(!is_computed_header("total", &Vec::new()));
    assert_eq!(header_text("total", &columns), "*total");
    assert_eq!(header_text("a", &columns), "a");
}

#[test]
fn long_cells_are_cut() {
    let forty = "x".repeat(40);
    assert_eq!(clip_cell(&forty), forty);
    let long = "abcdefghij".repeat(5);
    assert_eq!(clip_cell(&long), format!("{}...", &long[..37]));
    assert_eq!(clip_cell(&long).chars().count(), 40);
    let wide = "é".repeat(41);
    assert_eq!(clip_cell(&wide), format!("{}...", "é".repeat(37)));
    assert_eq!(clip_cell(""), "");
}
