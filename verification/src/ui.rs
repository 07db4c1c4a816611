//! The navigation controller.
//!
//! The controller owns the cursor, the page on view and the texts being
//! typed. A key press changes its state and may leave work for the caller,
//! which the controller names as an [`Effect`]: to fetch a page, to run a
//! query, to write a file, to answer a numeric request. The caller does the
//! work and hands the outcome back through the method that the effect names.

use vstd::prelude::*;
use crate::compute::{
    applied,
    apply_computed_columns,
    lemma_applied_well_formed,
    lemma_stripped_well_formed,
    refresh_computed_columns,
    refreshed,
    stripped,
};
use crate::database::{PageView, QueryResult};
use crate::error::{join2, join3, message_of, ExprError, ExprErrorView};
use crate::expression::{
    parse_computed_column,
    parsed,
    ColumnView,
    ComputedColumn,
};
use crate::file_reader::FileType;
use crate::numeric::{Answers, Book, Progress, Request, RequestView, Step};
use crate::persistence::{
    is_stale,
    loaded,
    record_view,
    hash_view,
    ComputedColumnPersistence,
    FileComputedColumns,
    RecordView,
};
use crate::text::{chars_of, decimal, decimal_chars, is_blank, text_of, trim_chars};

verus! {

#[derive(Debug, Clone, Copy, PartialEq, Eq, Structural)]
pub enum NavigationMode {
    Table,
    Data,
    Query,
    Edit,
    DetailedView,
    ErrorDisplay,
    ComputedColumn,
}

/// A key of the keyboard, as far as the controller tells keys apart.
#[derive(Debug, Clone, Copy, PartialEq, Eq, Structural)]
pub enum Key {
    Up,
    Down,
    Left,
    Right,
    PageUp,
    PageDown,
    Home,
    End,
    Enter,
    Esc,
    Backspace,
    Tab,
    Char(char),
    Other,
}

/// A key press: the key, and whether the control key was held.
#[derive(Debug, Clone, Copy, PartialEq, Eq, Structural)]
pub struct KeyInput {
    pub key: Key,
    pub control: bool,
}

/// What a computation of the computed columns is for.
#[derive(Debug, Clone, Copy, PartialEq, Eq, Structural)]
pub enum Pending {
    /// No computation is open.
    Idle,
    /// A page was loaded.
    AfterLoad,
    /// A cell was edited.
    AfterEdit,
    /// A computed column was added.
    AfterAdd,
}

/// The work that the controller leaves for its caller.
#[derive(Debug)]
pub enum Effect {
    /// No work is left.
    Nothing,
    /// End the program.
    Quit,
    /// Fetch what `load_request` names. Then call `load_current_data`, or
    /// `load_failed`.
    Load,
    /// Fetch what `query_request` names for the query. Then call
    /// `query_finished` or `query_failed`.
    RunQuery(String),
    /// Export the current table or query. Then call `exported` or
    /// `export_failed`.
    Export,
    /// Write the page on view to a file. Then call `changes_saved` or
    /// `save_failed`.
    Save,
    /// Put the text on the clipboard. Then call `copied` or `copy_failed`.
    Copy(String),
    /// Answer the request, record the answer, and call `recompute` with the
    /// book.
    Ask(Request),
    /// Save the computed columns of the current table. Then call
    /// `columns_saved` or `columns_save_failed`.
    Persist,
}

pub enum EffectView {
    Nothing,
    Quit,
    Load,
    RunQuery(Seq<char>),
    Export,
    Save,
    Copy(Seq<char>),
    Ask(RequestView),
    Persist,
}

/// What is to be fetched: a page of a table, or of a query on it.
#[derive(Debug, Clone)]
pub struct FetchRequest {
    pub table: String,
    /// The query to run on the table; without one, the table itself.
    pub query: Option<String>,
    /// Index of the first row of the page in the set.
    pub offset: usize,
    /// The largest number of rows that the page may have.
    pub limit: usize,
}

pub struct FetchRequestView {
    pub table: Seq<char>,
    pub query: Option<Seq<char>>,
    pub offset: usize,
    pub limit: usize,
}

impl View for FetchRequest {
    type V = FetchRequestView;

    open spec fn view(&self) -> FetchRequestView {
        FetchRequestView {
            table: self.table@,
            query: self.query.deep_view(),
            offset: self.offset,
            limit: self.limit,
        }
    }
}

impl DeepView for FetchRequest {
    type V = FetchRequestView;

    open spec fn deep_view(&self) -> FetchRequestView {
        self@
    }
}

impl View for Effect {
    type V = EffectView;

    open spec fn view(&self) -> EffectView {
        match self {
            Effect::Nothing => EffectView::Nothing,
            Effect::Quit => EffectView::Quit,
            Effect::Load => EffectView::Load,
            Effect::RunQuery(q) => EffectView::RunQuery(q@),
            Effect::Export => EffectView::Export,
            Effect::Save => EffectView::Save,
            Effect::Copy(t) => EffectView::Copy(t@),
            Effect::Ask(q) => EffectView::Ask(q@),
            Effect::Persist => EffectView::Persist,
        }
    }
}

pub struct AppState {
    pub tables: Vec<String>,
    pub selected_table_idx: usize,
    pub selected_row_idx: usize,
    pub selected_col_idx: usize,
    pub navigation_mode: NavigationMode,
    pub current_query: Option<String>,
    pub query_input: String,
    pub data_offset: usize,
    /// The offset at which the page on view was fetched.
    pub shown_offset: usize,
    pub page_size: usize,
    pub current_data: Option<QueryResult>,
    /// The page as it was loaded.
    pub original_data: Option<QueryResult>,
    pub db_path: String,
    /// The kind of the source file.
    pub source: FileType,
    pub status_message: Option<String>,
    pub show_help: bool,
    pub edit_input: String,
    /// Row and column of the cell being edited.
    pub editing_cell: Option<(usize, usize)>,
    pub data_modified: bool,
    pub detailed_view_row: Option<usize>,
    pub detailed_view_selected_field: usize,
    pub error_message: Option<String>,
    /// The mode to go back to from the error display.
    pub previous_navigation_mode: NavigationMode,
    pub computed_column_input: String,
    pub computed_columns: Vec<ComputedColumn>,
    pub persistence: ComputedColumnPersistence,
    /// What the open computation of the computed columns is for.
    pub pending: Pending,
}

pub struct AppView {
    pub tables: Seq<Seq<char>>,
    pub selected_table_idx: usize,
    pub selected_row_idx: usize,
    pub selected_col_idx: usize,
    pub navigation_mode: NavigationMode,
    pub current_query: Option<Seq<char>>,
    pub query_input: Seq<char>,
    pub data_offset: usize,
    pub shown_offset: usize,
    pub page_size: usize,
    pub current_data: Option<PageView>,
    pub original_data: Option<PageView>,
    pub db_path: Seq<char>,
    pub source: FileType,
    pub status_message: Option<Seq<char>>,
    pub show_help: bool,
    pub edit_input: Seq<char>,
    pub editing_cell: Option<(usize, usize)>,
    pub data_modified: bool,
    pub detailed_view_row: Option<usize>,
    pub detailed_view_selected_field: usize,
    pub error_message: Option<Seq<char>>,
    pub previous_navigation_mode: NavigationMode,
    pub computed_column_input: Seq<char>,
    pub computed_columns: Seq<ColumnView>,
    pub storage_path: Seq<char>,
    pub pending: Pending,
}

impl View for AppState {
    type V = AppView;

    open spec fn view(&self) -> AppView {
        AppView {
            tables: self.tables.deep_view(),
            selected_table_idx: self.selected_table_idx,
            selected_row_idx: self.selected_row_idx,
            selected_col_idx: self.selected_col_idx,
            navigation_mode: self.navigation_mode,
            current_query: self.current_query.deep_view(),
            query_input: self.query_input@,
            data_offset: self.data_offset,
            shown_offset: self.shown_offset,
            page_size: self.page_size,
            current_data: self.current_data.deep_view(),
            original_data: self.original_data.deep_view(),
            db_path: self.db_path@,
            source: self.source,
            status_message: self.status_message.deep_view(),
            show_help: self.show_help,
            edit_input: self.edit_input@,
            editing_cell: self.editing_cell,
            data_modified: self.data_modified,
            detailed_view_row: self.detailed_view_row,
            detailed_view_selected_field: self.detailed_view_selected_field,
            error_message: self.error_message.deep_view(),
            previous_navigation_mode: self.previous_navigation_mode,
            computed_column_input: self.computed_column_input@,
            computed_columns: self.computed_columns.deep_view(),
            storage_path: self.persistence.storage_path@,
            pending: self.pending,
        }
    }
}

/// `a - b`, or 0 where `b` is larger.
pub open spec fn minus(a: usize, b: usize) -> usize {
    if a >= b {
        (a - b) as usize
    } else {
        0
    }
}

/// Whether a key press asks to end the program: `q` or `c` with control.
pub open spec fn is_quit(key: KeyInput) -> bool {
    key.control && (key.key == Key::Char('q') || key.key == Key::Char('c'))
}

impl AppView {
    /// The name of the table on view.
    pub open spec fn current_table(self) -> Option<Seq<char>> {
        if self.selected_table_idx < self.tables.len() {
            Some(self.tables[self.selected_table_idx as int])
        } else {
            None
        }
    }

    /// What `Load` asks to fetch: the page of the current table, or of the
    /// active query on it, at the offset and of the size of the state.
    /// Nothing without a current table.
    pub open spec fn load_request(self) -> Option<FetchRequestView> {
        match self.current_table() {
            Some(table) => Some(
                FetchRequestView {
                    table,
                    query: self.current_query,
                    offset: self.data_offset,
                    limit: self.page_size,
                },
            ),
            None => None,
        }
    }

    /// What `RunQuery` asks to fetch: the first page of the query on the
    /// current table. Nothing without a current table.
    pub open spec fn query_request(self, query: Seq<char>) -> Option<FetchRequestView> {
        match self.current_table() {
            Some(table) => Some(
                FetchRequestView { table, query: Some(query), offset: 0, limit: self.page_size },
            ),
            None => None,
        }
    }

    /// The effect that loads the page of the table on view, if there is a table.
    pub open spec fn load_effect(self) -> EffectView {
        if self.current_table() is Some {
            EffectView::Load
        } else {
            EffectView::Nothing
        }
    }

    /// The state with nothing on view: no page, no query, no edit, the cursor
    /// at the start.
    pub open spec fn reset_data_view(self) -> AppView {
        AppView {
            current_query: None,
            current_data: None,
            original_data: None,
            selected_row_idx: 0,
            selected_col_idx: 0,
            data_offset: 0,
            shown_offset: 0,
            editing_cell: None,
            edit_input: Seq::empty(),
            data_modified: false,
            ..self
        }
    }

    /// The state with an error on display, which remembers the mode it came from.
    pub open spec fn show_error(self, message: Seq<char>) -> AppView {
        AppView {
            error_message: Some(message),
            previous_navigation_mode: self.navigation_mode,
            navigation_mode: NavigationMode::ErrorDisplay,
            ..self
        }
    }

    /// The text of a cell of the page on view.
    pub open spec fn cell(self, row: usize, col: usize) -> Option<Seq<char>> {
        match self.current_data {
            Some(page) => if row < page.rows.len() && col < page.rows[row as int].len() {
                Some(page.rows[row as int][col as int])
            } else {
                None
            },
            None => None,
        }
    }

    /// The page size is positive, and every row of the page on view has one
    /// cell per column.
    pub open spec fn ready(self) -> bool {
        &&& self.page_size > 0
        &&& match self.current_data {
            Some(page) => page.well_formed(),
            None => true,
        }
    }

    /// The state is ready and the cursor is inside the page on view: the row
    /// cursor on a row where the page has rows, the column cursor not in
    /// front of the first editable column.
    pub open spec fn well_formed(self) -> bool {
        &&& self.ready()
        &&& match self.current_data {
            Some(page) => {
                &&& page.rows.len() > 0 ==> self.selected_row_idx < page.rows.len()
                &&& self.selected_col_idx >= page.first_editable()
            },
            None => true,
        }
    }
}

/// The state after a key press in the table list.
pub open spec fn on_table_key(s: AppView, key: KeyInput) -> (AppView, EffectView) {
    match key.key {
        Key::Up => if s.selected_table_idx > 0 {
            let t = AppView {
                selected_table_idx: (s.selected_table_idx - 1) as usize,
                ..s
            }.reset_data_view();
            (t, t.load_effect())
        } else {
            (s, EffectView::Nothing)
        },
        Key::Down => if s.selected_table_idx < minus(s.tables.len() as usize, 1)
            && s.selected_table_idx < usize::MAX {
            let t = AppView {
                selected_table_idx: (s.selected_table_idx + 1) as usize,
                ..s
            }.reset_data_view();
            (t, t.load_effect())
        } else {
            (s, EffectView::Nothing)
        },
        Key::Right | Key::Enter => (
            AppView {
                navigation_mode: NavigationMode::Data,
                data_offset: 0,
                selected_row_idx: 0,
                ..s
            },
            EffectView::Nothing,
        ),
        Key::Char(c) => if is_quit(key) {
            (s, EffectView::Quit)
        } else if c == 'h' {
            (AppView { show_help: !s.show_help, ..s }, EffectView::Nothing)
        } else {
            (s, EffectView::Nothing)
        },
        _ => (s, EffectView::Nothing),
    }
}

/// The state after a key press while an error is on display.
pub open spec fn on_error_key(s: AppView, key: KeyInput) -> (AppView, EffectView) {
    match key.key {
        Key::Esc => (
            AppView {
                navigation_mode: s.previous_navigation_mode,
                error_message: None,
                ..s
            },
            EffectView::Nothing,
        ),
        _ => if is_quit(key) {
            (s, EffectView::Quit)
        } else {
            (s, EffectView::Nothing)
        },
    }
}

/// The state after a key press in the view of one row.
pub open spec fn on_detail_key(s: AppView, key: KeyInput) -> (AppView, EffectView) {
    match key.key {
        Key::Esc => (
            AppView {
                navigation_mode: NavigationMode::Data,
                detailed_view_row: None,
                detailed_view_selected_field: 0,
                ..s
            },
            EffectView::Nothing,
        ),
        Key::Up => if s.current_data is Some && s.detailed_view_selected_field > 0 {
            (
                AppView {
                    detailed_view_selected_field: (s.detailed_view_selected_field - 1) as usize,
                    ..s
                },
                EffectView::Nothing,
            )
        } else {
            (s, EffectView::Nothing)
        },
        Key::Down => if s.current_data is Some && s.detailed_view_selected_field < minus(
            s.current_data->0.columns.len() as usize,
            1,
        ) {
            (
                AppView {
                    detailed_view_selected_field: (s.detailed_view_selected_field + 1) as usize,
                    ..s
                },
                EffectView::Nothing,
            )
        } else {
            (s, EffectView::Nothing)
        },
        Key::Char(c) => if c == 'c' && !key.control {
            match s.detailed_view_row {
                Some(row) => match s.cell(row, s.detailed_view_selected_field) {
                    Some(text) => (s, EffectView::Copy(text)),
                    None => (s, EffectView::Nothing),
                },
                None => (s, EffectView::Nothing),
            }
        } else if is_quit(key) {
            (s, EffectView::Quit)
        } else {
            (s, EffectView::Nothing)
        },
        _ => (s, EffectView::Nothing),
    }
}

/// The state after a key press while a query is typed.
pub open spec fn on_query_key(s: AppView, key: KeyInput) -> (AppView, EffectView) {
    match key.key {
        Key::Esc => (
            AppView { navigation_mode: NavigationMode::Data, query_input: Seq::empty(), ..s },
            EffectView::Nothing,
        ),
        Key::Enter => {
            let t = AppView {
                navigation_mode: NavigationMode::Data,
                query_input: Seq::empty(),
                ..s
            };
            if !is_blank(s.query_input) && s.current_table() is Some {
                if s.source != FileType::Xlsx {
                    (t, EffectView::RunQuery(s.query_input))
                } else {
                    (
                        AppView {
                            status_message: Some(
                                "Custom queries not supported for this file type"@,
                            ),
                            ..t
                        },
                        EffectView::Nothing,
                    )
                }
            } else {
                (t, EffectView::Nothing)
            }
        },
        Key::Backspace => (
            AppView {
                query_input: if s.query_input.len() > 0 {
                    s.query_input.drop_last()
                } else {
                    s.query_input
                },
                ..s
            },
            EffectView::Nothing,
        ),
        Key::Char(c) => (AppView { query_input: s.query_input.push(c), ..s }, EffectView::Nothing),
        _ => (s, EffectView::Nothing),
    }
}

/// The cursor put inside the page on view: the column not in front of the
/// first editable one, the row not behind the last. In edit mode the cell
/// under the cursor becomes the one being edited.
pub open spec fn settled(s: AppView) -> AppView {
    match s.current_data {
        Some(page) => {
            let col = if s.selected_col_idx < page.first_editable() {
                page.first_editable() as usize
            } else {
                s.selected_col_idx
            };
            let row = if s.selected_row_idx >= page.rows.len() {
                minus(page.rows.len() as usize, 1)
            } else {
                s.selected_row_idx
            };
            let t = AppView { selected_col_idx: col, selected_row_idx: row, ..s };
            if s.navigation_mode == NavigationMode::Edit {
                AppView {
                    editing_cell: Some((row, col)),
                    edit_input: match t.cell(row, col) {
                        Some(text) => text,
                        None => s.edit_input,
                    },
                    ..t
                }
            } else {
                t
            }
        },
        None => s,
    }
}

/// The text in front of the error of a computation.
pub open spec fn failure_prefix(pending: Pending) -> Seq<char> {
    if pending == Pending::AfterEdit {
        "Failed to update computed columns: "@
    } else {
        Seq::empty()
    }
}

/// The state without the computed column that was added last, where the
/// computation that failed was the first one of that column: a column that
/// cannot be computed is not kept.
pub open spec fn without_new_column(s: AppView, pending: Pending) -> AppView {
    if pending == Pending::AfterAdd && s.computed_columns.len() > 0 {
        AppView { computed_columns: s.computed_columns.drop_last(), ..s }
    } else {
        s
    }
}

/// The state after a run of the open computation with the answers of `book`.
/// While a request is open the state stays as it is. When the run is
/// complete the new page is on view; when it fails the page stays and the
/// error is on display, and a column that was just added is dropped again.
pub open spec fn recomputed(s: AppView, book: Book) -> (AppView, EffectView) {
    let idle = AppView { pending: Pending::Idle, ..s };
    match s.pending {
        Pending::Idle => (s, EffectView::Nothing),
        _ => match s.current_data {
            None => (idle, EffectView::Nothing),
            Some(page) => {
                let step = if s.pending == Pending::AfterEdit {
                    refreshed(book, page, s.computed_columns)
                } else {
                    applied(book, page, s.computed_columns, s.computed_columns.len() as int)
                };
                match step {
                    Progress::Ask(q) => (s, EffectView::Ask(q)),
                    Progress::Failed(e) => (
                        settled(without_new_column(idle, s.pending)).show_error(
                            failure_prefix(s.pending) + message_of(e),
                        ),
                        EffectView::Nothing,
                    ),
                    Progress::Done(p) => {
                        let t = settled(AppView { current_data: Some(p), ..idle });
                        if s.pending == Pending::AfterAdd {
                            if s.current_table() is Some {
                                (t, EffectView::Persist)
                            } else {
                                (
                                    AppView {
                                        status_message: Some("Computed column added"@),
                                        ..t
                                    },
                                    EffectView::Nothing,
                                )
                            }
                        } else {
                            (t, EffectView::Nothing)
                        }
                    },
                }
            },
        },
    }
}

/// The state after a key press while a computed column is typed.
pub open spec fn on_column_key(s: AppView, key: KeyInput) -> (AppView, EffectView) {
    match key.key {
        Key::Esc => (
            AppView {
                navigation_mode: NavigationMode::Data,
                computed_column_input: Seq::empty(),
                ..s
            },
            EffectView::Nothing,
        ),
        Key::Enter => {
            let t = AppView {
                navigation_mode: NavigationMode::Data,
                computed_column_input: Seq::empty(),
                ..s
            };
            if is_blank(s.computed_column_input) {
                (t, EffectView::Nothing)
            } else {
                match parsed(s.computed_column_input, page_columns(s.current_data)) {
                    Ok(column) => recomputed(
                        AppView {
                            computed_columns: s.computed_columns.push(column),
                            pending: Pending::AfterAdd,
                            ..t
                        },
                        Seq::empty(),
                    ),
                    Err(e) => (
                        t.show_error("Expression error: "@ + message_of(e)),
                        EffectView::Nothing,
                    ),
                }
            }
        },
        Key::Backspace => (
            AppView {
                computed_column_input: if s.computed_column_input.len() > 0 {
                    s.computed_column_input.drop_last()
                } else {
                    s.computed_column_input
                },
                ..s
            },
            EffectView::Nothing,
        ),
        Key::Char(c) => (
            AppView { computed_column_input: s.computed_column_input.push(c), ..s },
            EffectView::Nothing,
        ),
        _ => (s, EffectView::Nothing),
    }
}

/// The columns of the page on view, where there is one.
pub open spec fn page_columns(page: Option<PageView>) -> Option<Seq<Seq<char>>> {
    match page {
        Some(p) => Some(p.columns),
        None => None,
    }
}

impl AppState {
    /// The state at the start: the first table selected, no page loaded, a
    /// page size of 25.
    pub fn new(
        db_path: String,
        tables: Vec<String>,
        source: FileType,
        persistence: ComputedColumnPersistence,
    ) -> (r: AppState)
        ensures
            r@.tables == tables.deep_view(),
            r@.db_path == db_path@,
            r@.source == source,
            r@.storage_path == persistence.storage_path@,
            r@.selected_table_idx == 0,
            r@.selected_row_idx == 0,
            r@.selected_col_idx == 0,
            r@.navigation_mode == NavigationMode::Table,
            r@.current_query is None,
            r@.query_input.len() == 0,
            r@.data_offset == 0,
            r@.shown_offset == 0,
            r@.page_size == 25,
            r@.current_data is None,
            r@.original_data is None,
            r@.status_message is None,
            !r@.show_help,
            r@.edit_input.len() == 0,
            r@.editing_cell is None,
            !r@.data_modified,
            r@.detailed_view_row is None,
            r@.detailed_view_selected_field == 0,
            r@.error_message is None,
            r@.previous_navigation_mode == NavigationMode::Data,
            r@.computed_column_input.len() == 0,
            r@.computed_columns.len() == 0,
            r@.pending == Pending::Idle,
            r@.well_formed(),
    {
        AppState {
            tables,
            selected_table_idx: 0,
            selected_row_idx: 0,
            selected_col_idx: 0,
            navigation_mode: NavigationMode::Table,
            current_query: None,
            query_input: String::new(),
            data_offset: 0,
            shown_offset: 0,
            page_size: 25,
            current_data: None,
            original_data: None,
            db_path,
            source,
            status_message: None,
            show_help: false,
            edit_input: String::new(),
            editing_cell: None,
            data_modified: false,
            detailed_view_row: None,
            detailed_view_selected_field: 0,
            error_message: None,
            previous_navigation_mode: NavigationMode::Data,
            computed_column_input: String::new(),
            computed_columns: Vec::new(),
            persistence,
            pending: Pending::Idle,
        }
    }

    /// The name of the table on view.
    pub fn current_table(&self) -> (r: Option<&str>)
        ensures
            match r {
                Some(name) => self@.current_table() == Some(name@),
                None => self@.current_table() is None,
            },
    {
        if self.selected_table_idx < self.tables.len() {
            proof {
                assert(self.tables.deep_view()[self.selected_table_idx as int]
                    == self.tables[self.selected_table_idx as int]@);
            }
            Some(self.tables[self.selected_table_idx].as_str())
        } else {
            None
        }
    }

    /// What the effect `Load` asks to fetch.
    pub fn load_request(&self) -> (r: Option<FetchRequest>)
        ensures
            r.deep_view() == self@.load_request(),
    {
        match self.current_table() {
            Some(table) => {
                let query = match &self.current_query {
                    Some(q) => Some(q.clone()),
                    None => None,
                };
                Some(
                    FetchRequest {
                        table: table.to_owned(),
                        query,
                        offset: self.data_offset,
                        limit: self.page_size,
                    },
                )
            },
            None => None,
        }
    }

    /// What the effect `RunQuery` with `query` asks to fetch.
    pub fn query_request(&self, query: &str) -> (r: Option<FetchRequest>)
        ensures
            r.deep_view() == self@.query_request(query@),
    {
        match self.current_table() {
            Some(table) => Some(
                FetchRequest {
                    table: table.to_owned(),
                    query: Some(query.to_owned()),
                    offset: 0,
                    limit: self.page_size,
                },
            ),
            None => None,
        }
    }

    fn load_effect(&self) -> (r: Effect)
        ensures
            r@ == self@.load_effect(),
    {
        if self.selected_table_idx < self.tables.len() {
            Effect::Load
        } else {
            Effect::Nothing
        }
    }

    fn reset_data_view(&mut self)
        ensures
            final(self)@ == old(self)@.reset_data_view(),
    {
        self.current_query = None;
        self.current_data = None;
        self.original_data = None;
        self.selected_row_idx = 0;
        self.selected_col_idx = 0;
        self.data_offset = 0;
        self.shown_offset = 0;
        self.editing_cell = None;
        self.edit_input = String::new();
        self.data_modified = false;
    }

    /// Puts an error on display and remembers the mode to go back to.
    pub fn show_error(&mut self, error: String)
        ensures
            final(self)@ == old(self)@.show_error(error@),
            old(self)@.well_formed() ==> final(self)@.well_formed(),
            old(self)@.ready() ==> final(self)@.ready(),
    {
        self.error_message = Some(error);
        self.previous_navigation_mode = self.navigation_mode;
        self.navigation_mode = NavigationMode::ErrorDisplay;
    }

    fn is_quit(key: KeyInput) -> (r: bool)
        ensures
            r == is_quit(key),
    {
        key.control && match key.key {
            Key::Char(c) => c == 'q' || c == 'c',
            _ => false,
        }
    }

    fn handle_table_navigation(&mut self, key: KeyInput) -> (r: Effect)
        ensures
            (final(self)@, r@) == on_table_key(old(self)@, key),
            old(self)@.well_formed() ==> final(self)@.well_formed(),
    {
        match key.key {
            Key::Up => {
                if self.selected_table_idx > 0 {
                    self.selected_table_idx -= 1;
                    self.reset_data_view();
                    return self.load_effect();
                }
            },
            Key::Down => {
                let last = if self.tables.len() > 0 {
                    self.tables.len() - 1
                } else {
                    0
                };
                if self.selected_table_idx < last {
                    self.selected_table_idx += 1;
                    self.reset_data_view();
                    return self.load_effect();
                }
            },
            Key::Right | Key::Enter => {
                self.navigation_mode = NavigationMode::Data;
                self.data_offset = 0;
                self.selected_row_idx = 0;
            },
            Key::Char(c) => {
                if Self::is_quit(key) {
                    return Effect::Quit;
                } else if c == 'h' {
                    self.show_help = !self.show_help;
                }
            },
            _ => {},
        }
        Effect::Nothing
    }

    fn handle_error_display(&mut self, key: KeyInput) -> (r: Effect)
        ensures
            (final(self)@, r@) == on_error_key(old(self)@, key),
            old(self)@.well_formed() ==> final(self)@.well_formed(),
    {
        match key.key {
            Key::Esc => {
                self.navigation_mode = self.previous_navigation_mode;
                self.error_message = None;
                Effect::Nothing
            },
            _ => {
                if Self::is_quit(key) {
                    Effect::Quit
                } else {
                    Effect::Nothing
                }
            },
        }
    }

    fn cell_text(&self, row: usize, col: usize) -> (r: Option<String>)
        ensures
            r.deep_view() == self@.cell(row, col),
    {
        match &self.current_data {
            Some(data) => {
                if row < data.rows.len() {
                    proof {
                        assert(data@.rows[row as int] == data.rows[row as int].deep_view());
                    }
                    if col < data.rows[row].len() {
                        proof {
                            assert(data.rows[row as int].deep_view()[col as int]
                                == data.rows[row as int][col as int]@);
                        }
                        Some(data.rows[row][col].clone())
                    } else {
                        None
                    }
                } else {
                    None
                }
            },
            None => None,
        }
    }

    fn handle_detailed_view(&mut self, key: KeyInput) -> (r: Effect)
        ensures
            (final(self)@, r@) == on_detail_key(old(self)@, key),
            old(self)@.well_formed() ==> final(self)@.well_formed(),
    {
        match key.key {
            Key::Esc => {
                self.navigation_mode = NavigationMode::Data;
                self.detailed_view_row = None;
                self.detailed_view_selected_field = 0;
            },
            Key::Up => {
                if self.current_data.is_some() && self.detailed_view_selected_field > 0 {
                    self.detailed_view_selected_field -= 1;
                }
            },
            Key::Down => {
                let columns = match &self.current_data {
                    Some(data) => data.columns.len(),
                    None => 0,
                };
                let last = if columns > 0 {
                    columns - 1
                } else {
                    0
                };
                if self.current_data.is_some() && self.detailed_view_selected_field < last {
                    self.detailed_view_selected_field += 1;
                }
            },
            Key::Char(c) => {
                if c == 'c' && !key.control {
                    if let Some(row) = self.detailed_view_row {
                        if let Some(text) = self.cell_text(row, self.detailed_view_selected_field) {
                            return Effect::Copy(text);
                        }
                    }
                } else if Self::is_quit(key) {
                    return Effect::Quit;
                }
            },
            _ => {},
        }
        Effect::Nothing
    }

    fn blank(s: &str) -> (r: bool)
        ensures
            r == is_blank(s@),
    {
        let t = trim_chars(&chars_of(s));
        proof {
            crate::text::lemma_trimmed(s@);
        }
        t.len() == 0
    }

    fn handle_query_input(&mut self, key: KeyInput) -> (r: Effect)
        ensures
            (final(self)@, r@) == on_query_key(old(self)@, key),
            old(self)@.well_formed() ==> final(self)@.well_formed(),
    {
        match key.key {
            Key::Esc => {
                self.navigation_mode = NavigationMode::Data;
                self.query_input = String::new();
            },
            Key::Enter => {
                let query = self.query_input.clone();
                self.navigation_mode = NavigationMode::Data;
                self.query_input = String::new();
                if !Self::blank(query.as_str()) && self.selected_table_idx < self.tables.len() {
                    if crate::data_source::supports_custom_queries(self.source) {
                        return Effect::RunQuery(query);
                    } else {
                        self.status_message = Some(
                            "Custom queries not supported for this file type".to_owned(),
                        );
                    }
                }
            },
            Key::Backspace => {
                self.query_input.pop();
            },
            Key::Char(c) => {
                self.query_input.push(c);
            },
            _ => {},
        }
        Effect::Nothing
    }

    fn settle(&mut self)
        ensures
            final(self)@ == settled(old(self)@),
            old(self)@.ready() ==> final(self)@.well_formed(),
    {
        let (min_col, rows) = match &self.current_data {
            Some(data) => (data.min_col(), data.rows.len()),
            None => {
                return ;
            },
        };
        if self.selected_col_idx < min_col {
            self.selected_col_idx = min_col;
        }
        if self.selected_row_idx >= rows {
            self.selected_row_idx = if rows > 0 {
                rows - 1
            } else {
                0
            };
        }
        match self.navigation_mode {
            NavigationMode::Edit => {
                self.editing_cell = Some((self.selected_row_idx, self.selected_col_idx));
                if let Some(text) = self.cell_text(self.selected_row_idx, self.selected_col_idx) {
                    self.edit_input = text;
                }
            },
            _ => {},
        }
    }

    /// Runs the open computation of the computed columns with the answers of
    /// `book`. `Ask` names the first request that the book does not answer;
    /// the state is then as it was. Any other effect ends the computation.
    pub fn recompute(&mut self, book: &Answers) -> (r: Effect)
        ensures
            (final(self)@, r@) == recomputed(old(self)@, book@),
            old(self)@.ready() ==> final(self)@.ready(),
            old(self)@.ready() && old(self)@.pending != Pending::Idle && !(r is Ask)
                ==> final(self)@.well_formed(),
            old(self)@.well_formed() && !(r is Ask) ==> final(self)@.well_formed(),
    {
        let pending = self.pending;
        match pending {
            Pending::Idle => {
                return Effect::Nothing;
            },
            _ => {},
        }
        let step = match &self.current_data {
            None => {
                self.pending = Pending::Idle;
                return Effect::Nothing;
            },
            Some(data) => {
                proof {
                    if data@.well_formed() {
                        lemma_stripped_well_formed(
                            data@,
                            self.computed_columns.deep_view(),
                            self.computed_columns.len() as int,
                        );
                        lemma_applied_well_formed(
                            book@,
                            stripped(
                                data@,
                                self.computed_columns.deep_view(),
                                self.computed_columns.len() as int,
                            ),
                            self.computed_columns.deep_view(),
                            self.computed_columns.len() as int,
                        );
                        lemma_applied_well_formed(
                            book@,
                            data@,
                            self.computed_columns.deep_view(),
                            self.computed_columns.len() as int,
                        );
                    }
                }
                match pending {
                    Pending::AfterEdit => refresh_computed_columns(
                        data,
                        &self.computed_columns,
                        book,
                    ),
                    _ => apply_computed_columns(data, &self.computed_columns, book),
                }
            },
        };
        match step {
            Step::Ask(q) => Effect::Ask(q),
            Step::Failed(e) => {
                self.pending = Pending::Idle;
                match pending {
                    Pending::AfterAdd => {
                        let ghost before = self.computed_columns.deep_view();
                        let dropped = self.computed_columns.pop();
                        proof {
                            if before.len() > 0 {
                                assert(self.computed_columns.deep_view() =~= before.drop_last());
                            } else {
                                assert(self.computed_columns.deep_view() =~= before);
                            }
                        }
                    },
                    _ => {},
                }
                self.settle();
                let prefix = match pending {
                    Pending::AfterEdit => "Failed to update computed columns: ",
                    _ => "",
                };
                proof {
                    reveal_strlit("");
                    assert(""@ =~= Seq::<char>::empty());
                }
                let message = join2(prefix, e.message().as_str());
                self.show_error(message);
                Effect::Nothing
            },
            Step::Done(page) => {
                self.pending = Pending::Idle;
                self.current_data = Some(page);
                self.settle();
                match pending {
                    Pending::AfterAdd => {
                        if self.selected_table_idx < self.tables.len() {
                            Effect::Persist
                        } else {
                            self.status_message = Some("Computed column added".to_owned());
                            Effect::Nothing
                        }
                    },
                    _ => Effect::Nothing,
                }
            },
        }
    }

    fn handle_computed_column_input(&mut self, key: KeyInput) -> (r: Effect)
        ensures
            (final(self)@, r@) == on_column_key(old(self)@, key),
            old(self)@.well_formed() ==> final(self)@.ready() && (r is Ask
                || final(self)@.well_formed()),
    {
        match key.key {
            Key::Esc => {
                self.navigation_mode = NavigationMode::Data;
                self.computed_column_input = String::new();
            },
            Key::Enter => {
                let input = self.computed_column_input.clone();
                self.navigation_mode = NavigationMode::Data;
                self.computed_column_input = String::new();
                if !Self::blank(input.as_str()) {
                    match self.parse_and_add_computed_column(input.as_str()) {
                        Ok(()) => {
                            self.pending = Pending::AfterAdd;
                            let book = Answers::new();
                            return self.recompute(&book);
                        },
                        Err(e) => {
                            let message = join2("Expression error: ", e.message().as_str());
                            self.show_error(message);
                        },
                    }
                }
            },
            Key::Backspace => {
                self.computed_column_input.pop();
            },
            Key::Char(c) => {
                self.computed_column_input.push(c);
            },
            _ => {},
        }
        Effect::Nothing
    }
}

/// Whether the page has the cell at `row` and `col`.
pub open spec fn has_cell(page: PageView, row: usize, col: usize) -> bool {
    row < page.rows.len() && col < page.columns.len() && col < page.rows[row as int].len()
}

/// The page with `text` in the cell at `row` and `col`.
pub open spec fn with_cell(page: PageView, row: usize, col: usize, text: Seq<char>) -> PageView {
    PageView {
        rows: page.rows.update(row as int, page.rows[row as int].update(col as int, text)),
        ..page
    }
}

/// The page with one more row of empty cells.
pub open spec fn with_new_row(page: PageView) -> PageView {
    PageView {
        rows: page.rows.push(Seq::new(page.columns.len(), |i: int| Seq::<char>::empty())),
        total_rows: if page.total_rows < usize::MAX {
            page.total_rows + 1
        } else {
            page.total_rows
        },
        ..page
    }
}

/// The cell that the text being edited goes to: the cell being edited, where
/// the page has it and it is not in the row identity column.
pub open spec fn edit_target(s: AppView) -> Option<(usize, usize)> {
    match (s.editing_cell, s.current_data) {
        (Some((row, col)), Some(page)) => if has_cell(page, row, col) && !(page.first_editable()
            == 1 && col == 0) {
            Some((row, col))
        } else {
            None
        },
        _ => None,
    }
}

/// Whether the cell being edited is one of the row identity column.
pub open spec fn edits_rowid(s: AppView) -> bool {
    match (s.editing_cell, s.current_data) {
        (Some((row, col)), Some(page)) => has_cell(page, row, col) && page.first_editable() == 1
            && col == 0,
        _ => false,
    }
}

/// The state with the text being edited written to its cell.
pub open spec fn committed(s: AppView) -> AppView {
    match edit_target(s) {
        Some((row, col)) => AppView {
            current_data: Some(with_cell(s.current_data->0, row, col, s.edit_input)),
            data_modified: true,
            ..s
        },
        None => s,
    }
}

/// The state with the cursor at `row` and `col` and that cell being edited.
pub open spec fn editing_at(s: AppView, row: usize, col: usize) -> AppView {
    AppView {
        selected_row_idx: row,
        selected_col_idx: col,
        editing_cell: Some((row, col)),
        edit_input: match s.cell(row, col) {
            Some(text) => text,
            None => s.edit_input,
        },
        ..s
    }
}

/// Whether rows of the set lie behind the page on view, and the next page's
/// offset is a number of the machine.
pub open spec fn has_next_page(s: AppView) -> bool {
    match s.current_data {
        Some(page) => s.data_offset + page.rows.len() < page.total_rows && s.data_offset
            + s.page_size <= usize::MAX,
        None => false,
    }
}

/// The state with a new row of empty cells under the cursor.
pub open spec fn with_row_added(s: AppView) -> AppView {
    match s.current_data {
        Some(page) => AppView {
            current_data: Some(with_new_row(page)),
            data_modified: true,
            selected_row_idx: page.rows.len() as usize,
            selected_col_idx: page.first_editable() as usize,
            status_message: Some("New row added"@),
            ..s
        },
        None => s,
    }
}

/// The state after the request to save the changes of the page: work for the
/// caller where there are changes, a table and a page.
pub open spec fn save_requested(s: AppView) -> (AppView, EffectView) {
    if !s.data_modified {
        (AppView { status_message: Some("No changes to save"@), ..s }, EffectView::Nothing)
    } else if s.current_table() is Some && s.current_data is Some {
        (s, EffectView::Save)
    } else {
        (s, EffectView::Nothing)
    }
}

/// The state with the cursor on the last row of the page before the one on
/// view, and that page to load. Without a table to load it from, the cursor
/// stays inside the page on view.
pub open spec fn page_back(s: AppView) -> (AppView, EffectView) {
    let t = AppView {
        data_offset: minus(s.data_offset, s.page_size),
        selected_row_idx: minus(s.page_size, 1),
        ..s
    };
    if s.current_table() is Some {
        (t, EffectView::Load)
    } else {
        (settled(t), EffectView::Nothing)
    }
}

/// The state after a key that moves the cursor or the page.
pub open spec fn on_data_move(s: AppView, key: Key) -> (AppView, EffectView) {
    match key {
        Key::Up => if s.selected_row_idx > 0 {
            (AppView { selected_row_idx: (s.selected_row_idx - 1) as usize, ..s }, EffectView::Nothing)
        } else if s.data_offset > 0 {
            page_back(s)
        } else {
            (s, EffectView::Nothing)
        },
        Key::Down => match s.current_data {
            Some(page) => if s.selected_row_idx < minus(page.rows.len() as usize, 1) {
                (
                    AppView { selected_row_idx: (s.selected_row_idx + 1) as usize, ..s },
                    EffectView::Nothing,
                )
            } else if has_next_page(s) {
                (
                    AppView {
                        data_offset: (s.data_offset + s.page_size) as usize,
                        selected_row_idx: 0,
                        ..s
                    },
                    s.load_effect(),
                )
            } else {
                (s, EffectView::Nothing)
            },
            None => (s, EffectView::Nothing),
        },
        Key::Left => if s.current_data is Some && s.selected_col_idx
            > s.current_data->0.first_editable() {
            (AppView { selected_col_idx: (s.selected_col_idx - 1) as usize, ..s }, EffectView::Nothing)
        } else {
            let t = AppView { navigation_mode: NavigationMode::Table, ..s }.reset_data_view();
            (t, t.load_effect())
        },
        Key::Right => if s.current_data is Some && s.selected_col_idx < minus(
            s.current_data->0.columns.len() as usize,
            1,
        ) {
            (AppView { selected_col_idx: (s.selected_col_idx + 1) as usize, ..s }, EffectView::Nothing)
        } else {
            (s, EffectView::Nothing)
        },
        Key::PageUp => if s.data_offset > 0 {
            (
                AppView {
                    data_offset: minus(s.data_offset, s.page_size),
                    selected_row_idx: 0,
                    ..s
                },
                s.load_effect(),
            )
        } else {
            (s, EffectView::Nothing)
        },
        Key::PageDown => if has_next_page(s) {
            (
                AppView {
                    data_offset: (s.data_offset + s.page_size) as usize,
                    selected_row_idx: 0,
                    ..s
                },
                s.load_effect(),
            )
        } else {
            (s, EffectView::Nothing)
        },
        Key::Home => (AppView { data_offset: 0, selected_row_idx: 0, ..s }, s.load_effect()),
        Key::End => match s.current_data {
            Some(page) => (
                AppView {
                    data_offset: minus(page.total_rows as usize, s.page_size),
                    selected_row_idx: 0,
                    ..s
                },
                s.load_effect(),
            ),
            None => (s, EffectView::Nothing),
        },
        _ => (s, EffectView::Nothing),
    }
}

/// The state after the space key on the page: the cell under the cursor is
/// being edited, unless it is one of the row identity column.
pub open spec fn on_space(s: AppView) -> AppView {
    match s.current_data {
        Some(page) => if has_cell(page, s.selected_row_idx, s.selected_col_idx) {
            if page.first_editable() == 1 && s.selected_col_idx == 0 {
                s.show_error("Cannot edit rowid column"@)
            } else {
                AppView {
                    navigation_mode: NavigationMode::Edit,
                    editing_cell: Some((s.selected_row_idx, s.selected_col_idx)),
                    edit_input: page.rows[s.selected_row_idx as int][s.selected_col_idx as int],
                    ..s
                }
            }
        } else {
            s
        },
        None => s,
    }
}

/// The state after a character key on the page.
pub open spec fn on_data_char(s: AppView, c: char, key: KeyInput) -> (AppView, EffectView) {
    if c == ' ' {
        (on_space(s), EffectView::Nothing)
    } else if c == 'n' {
        (with_row_added(s), EffectView::Nothing)
    } else if c == 'i' {
        (
            AppView { navigation_mode: NavigationMode::Query, query_input: Seq::empty(), ..s },
            EffectView::Nothing,
        )
    } else if c == '=' {
        (
            AppView {
                navigation_mode: NavigationMode::ComputedColumn,
                computed_column_input: Seq::empty(),
                ..s
            },
            EffectView::Nothing,
        )
    } else if c == 'e' {
        if s.current_table() is Some {
            (s, EffectView::Export)
        } else {
            (s, EffectView::Nothing)
        }
    } else if c == 's' {
        if s.current_query is Some {
            (
                s.show_error(
                    "Cannot save custom query results. Press 'r' to reload table data first."@,
                ),
                EffectView::Nothing,
            )
        } else {
            save_requested(s)
        }
    } else if c == 'r' {
        (AppView { current_query: None, ..s }, s.load_effect())
    } else if is_quit(key) {
        (s, EffectView::Quit)
    } else if c == 'h' {
        (AppView { show_help: !s.show_help, ..s }, EffectView::Nothing)
    } else {
        (s, EffectView::Nothing)
    }
}

/// The state after a key press on the page.
pub open spec fn on_data_key(s: AppView, key: KeyInput) -> (AppView, EffectView) {
    match key.key {
        Key::Enter => if s.current_data is Some && s.selected_row_idx
            < s.current_data->0.rows.len() {
            (
                AppView {
                    detailed_view_row: Some(s.selected_row_idx),
                    detailed_view_selected_field: 0,
                    navigation_mode: NavigationMode::DetailedView,
                    ..s
                },
                EffectView::Nothing,
            )
        } else {
            (s, EffectView::Nothing)
        },
        Key::Char(c) => on_data_char(s, c, key),
        other => on_data_move(s, other),
    }
}

/// The state with the mode of the page and no cell being edited.
pub open spec fn edit_closed(s: AppView) -> AppView {
    AppView {
        navigation_mode: NavigationMode::Data,
        editing_cell: None,
        edit_input: Seq::empty(),
        ..s
    }
}

/// The state after the text being edited was written to its cell and the
/// cursor moved one cell in the direction of an arrow key.
pub open spec fn on_edit_move(s: AppView, key: Key) -> (AppView, EffectView) {
    let t = committed(s);
    match t.current_data {
        Some(page) => match key {
            Key::Up => if t.selected_row_idx > 0 {
                (
                    editing_at(t, (t.selected_row_idx - 1) as usize, t.selected_col_idx),
                    EffectView::Nothing,
                )
            } else if t.data_offset > 0 {
                let moved = editing_at(
                    AppView { data_offset: minus(t.data_offset, t.page_size), ..t },
                    minus(t.page_size, 1),
                    t.selected_col_idx,
                );
                if t.current_table() is Some {
                    (moved, EffectView::Load)
                } else {
                    (settled(moved), EffectView::Nothing)
                }
            } else {
                (editing_at(t, t.selected_row_idx, t.selected_col_idx), EffectView::Nothing)
            },
            Key::Down => if t.selected_row_idx < minus(page.rows.len() as usize, 1) {
                (
                    editing_at(t, (t.selected_row_idx + 1) as usize, t.selected_col_idx),
                    EffectView::Nothing,
                )
            } else if has_next_page(t) {
                (
                    editing_at(
                        AppView { data_offset: (t.data_offset + t.page_size) as usize, ..t },
                        0,
                        t.selected_col_idx,
                    ),
                    t.load_effect(),
                )
            } else {
                (editing_at(t, t.selected_row_idx, t.selected_col_idx), EffectView::Nothing)
            },
            Key::Left => if t.selected_col_idx > page.first_editable() {
                (
                    editing_at(t, t.selected_row_idx, (t.selected_col_idx - 1) as usize),
                    EffectView::Nothing,
                )
            } else {
                (editing_at(t, t.selected_row_idx, t.selected_col_idx), EffectView::Nothing)
            },
            Key::Right => if t.selected_col_idx < minus(page.columns.len() as usize, 1) {
                (
                    editing_at(t, t.selected_row_idx, (t.selected_col_idx + 1) as usize),
                    EffectView::Nothing,
                )
            } else {
                (editing_at(t, t.selected_row_idx, t.selected_col_idx), EffectView::Nothing)
            },
            _ => (t, EffectView::Nothing),
        },
        None => (t, EffectView::Nothing),
    }
}

/// The state after the tabulator key in a cell: the text is written to the
/// cell, and the next cell of the row, or the first editable cell of the next
/// row, is the one being edited. Behind the last cell the edit ends.
pub open spec fn on_edit_tab(s: AppView) -> AppView {
    match (s.editing_cell, s.current_data) {
        (Some((row, col)), Some(page)) => if has_cell(page, row, col) {
            let t = committed(s);
            if col < page.columns.len() - 1 {
                editing_at(t, row, (col + 1) as usize)
            } else if row < page.rows.len() - 1 {
                editing_at(t, (row + 1) as usize, page.first_editable() as usize)
            } else {
                edit_closed(t)
            }
        } else {
            s
        },
        _ => s,
    }
}

/// The state after a key press in a cell.
pub open spec fn on_edit_key(s: AppView, key: KeyInput) -> (AppView, EffectView) {
    match key.key {
        Key::Esc => (edit_closed(s), EffectView::Nothing),
        Key::Enter => if edits_rowid(s) {
            (edit_closed(s).show_error("Cannot edit rowid column"@), EffectView::Nothing)
        } else {
            let t = match edit_target(s) {
                Some(cell) => AppView {
                    status_message: Some("Cell updated (not saved)"@),
                    ..committed(s)
                },
                None => s,
            };
            recomputed(AppView { pending: Pending::AfterEdit, ..edit_closed(t) }, Seq::empty())
        },
        Key::Up | Key::Down | Key::Left | Key::Right => on_edit_move(s, key.key),
        Key::Backspace => (
            AppView {
                edit_input: if s.edit_input.len() > 0 {
                    s.edit_input.drop_last()
                } else {
                    s.edit_input
                },
                ..s
            },
            EffectView::Nothing,
        ),
        Key::Char(c) => if c == 'n' && key.control {
            match s.current_data {
                Some(page) => {
                    let t = with_row_added(s);
                    (
                        AppView {
                            editing_cell: Some((t.selected_row_idx, t.selected_col_idx)),
                            edit_input: Seq::empty(),
                            ..t
                        },
                        EffectView::Nothing,
                    )
                },
                None => (s, EffectView::Nothing),
            }
        } else {
            (AppView { edit_input: s.edit_input.push(c), ..s }, EffectView::Nothing)
        },
        Key::Tab => (on_edit_tab(s), EffectView::Nothing),
        _ => (s, EffectView::Nothing),
    }
}

/// The state after a key press in the mode that the state is in.
pub open spec fn dispatched(s: AppView, key: KeyInput) -> (AppView, EffectView) {
    match s.navigation_mode {
        NavigationMode::Query => on_query_key(s, key),
        NavigationMode::Table => on_table_key(s, key),
        NavigationMode::Data => on_data_key(s, key),
        NavigationMode::Edit => on_edit_key(s, key),
        NavigationMode::DetailedView => on_detail_key(s, key),
        NavigationMode::ErrorDisplay => on_error_key(s, key),
        NavigationMode::ComputedColumn => on_column_key(s, key),
    }
}

/// The state after a key press. The status line is cleared first. Escape
/// closes the help where it is open; any other key goes to the mode that the
/// state is in. Where the page mode is left without a page, the page is to
/// be loaded.
pub open spec fn on_key(s: AppView, key: KeyInput) -> (AppView, EffectView) {
    let cleared = AppView { status_message: None, ..s };
    if s.show_help && key.key == Key::Esc {
        (AppView { show_help: false, ..cleared }, EffectView::Nothing)
    } else {
        let (t, effect) = dispatched(cleared, key);
        if effect is Nothing && t.navigation_mode == NavigationMode::Data && t.current_data is None {
            (t, t.load_effect())
        } else {
            (t, effect)
        }
    }
}

/// The computed columns to use for a table after a load: those of the store,
/// none where the store's record is stale or the store has none to give.
pub open spec fn stored_columns(
    stored: Option<RecordView>,
    current_hash: Option<Seq<char>>,
    table: Option<Seq<char>>,
) -> Seq<ColumnView> {
    if is_stale(stored, current_hash) || table is None {
        Seq::empty()
    } else {
        match loaded(stored, current_hash, table->0) {
            Ok(columns) => columns,
            Err(_) => Seq::empty(),
        }
    }
}

/// The state after a fetch that gave no page: the page that is on view
/// stays, the offset is again the one at which that page was fetched, the
/// cursor is put inside it, and the error is on display.
pub open spec fn fetch_failed(s: AppView, message: Seq<char>) -> AppView {
    settled(
        AppView {
            data_offset: if s.current_data is Some {
                s.shown_offset
            } else {
                s.data_offset
            },
            ..s
        },
    ).show_error(message)
}

/// The state after a page was fetched.
pub open spec fn on_loaded(
    s: AppView,
    page: PageView,
    stored: Option<RecordView>,
    current_hash: Option<Seq<char>>,
) -> (AppView, EffectView) {
    if !page.well_formed() {
        (
            fetch_failed(s, "Malformed page: a row does not match the columns"@),
            EffectView::Nothing,
        )
    } else {
        recomputed(
            AppView {
                original_data: Some(page),
                current_data: Some(page),
                shown_offset: s.data_offset,
                computed_columns: stored_columns(stored, current_hash, s.current_table()),
                pending: Pending::AfterLoad,
                ..s
            },
            Seq::empty(),
        )
    }
}

/// The state after a query gave a page.
pub open spec fn on_query_page(s: AppView, query: Seq<char>, page: PageView) -> AppView {
    if !page.well_formed() {
        s.show_error("Malformed page: a row does not match the columns"@)
    } else {
        settled(
            AppView {
                current_query: Some(query),
                current_data: Some(page),
                selected_row_idx: 0,
                data_offset: 0,
                shown_offset: 0,
                status_message: Some("Query executed successfully"@),
                ..s
            },
        )
    }
}

/// What is said after the changes of a page were written to `filename`.
pub open spec fn saved_message(source: FileType, filename: Seq<char>) -> Seq<char> {
    match source {
        FileType::Csv => "Changes saved to "@ + filename,
        FileType::Xlsx => "Changes saved to "@ + filename + " (converted from Excel)"@,
        FileType::Sqlite => "Changes exported to "@ + filename
            + " (SQLite direct save not supported)"@,
        FileType::Parquet => "Changes saved to "@ + filename + " (converted from Parquet)"@,
    }
}

/// The name of the file that an export at the time `timestamp` goes to.
pub open spec fn export_name(s: AppView, timestamp: Seq<char>) -> Option<Seq<char>> {
    match s.current_table() {
        Some(table) => if s.current_query is Some {
            Some("query_export_"@ + timestamp + ".csv"@)
        } else {
            Some(table + "_"@ + timestamp + ".csv"@)
        },
        None => None,
    }
}

/// The name of the file that the changes of a page go to at the time `timestamp`.
pub open spec fn save_name(s: AppView, timestamp: Seq<char>) -> Option<Seq<char>> {
    match s.current_table() {
        Some(table) => Some(table + "_edited_"@ + timestamp + ".csv"@),
        None => None,
    }
}

fn no_columns() -> (r: Vec<ComputedColumn>)
    ensures
        r.deep_view() == Seq::<ColumnView>::empty(),
{
    let r: Vec<ComputedColumn> = Vec::new();
    proof {
        assert(r.deep_view() =~= Seq::<ColumnView>::empty());
    }
    r
}

fn set_cell(page: &mut QueryResult, row: usize, col: usize, text: String)
    requires
        has_cell(old(page)@, row, col),
    ensures
        final(page)@ == with_cell(old(page)@, row, col, text@),
{
    proof {
        assert(page@.rows[row as int] == page.rows[row as int].deep_view());
    }
    page.rows[row][col] = text;
    proof {
        let want = with_cell(old(page)@, row, col, text@).rows;
        assert(page.rows.deep_view().len() == want.len());
        assert forall|i: int| 0 <= i < want.len() implies page.rows.deep_view()[i] == want[i] by {
            if i == row as int {
                assert(page.rows[i].deep_view() =~= want[i]);
            } else {
                assert(page.rows[i] == old(page).rows[i]);
            }
        }
        assert(page.rows.deep_view() =~= want);
    }
}

fn add_row(page: &mut QueryResult)
    ensures
        final(page)@ == with_new_row(old(page)@),
{
    let mut row: Vec<String> = Vec::new();
    let mut i: usize = 0;
    while i < page.columns.len()
        invariant
            i <= page.columns.len(),
            row.len() == i,
            forall|k: int| 0 <= k < i ==> row[k]@ == Seq::<char>::empty(),
            *page == *old(page),
        decreases page.columns.len() - i,
    {
        row.push(String::new());
        i += 1;
    }
    proof {
        assert(row.deep_view() =~= Seq::new(
            page@.columns.len(),
            |i: int| Seq::<char>::empty(),
        ));
    }
    let ghost before = page.rows.deep_view();
    page.rows.push(row);
    proof {
        assert(page.rows.deep_view() =~= before.push(row.deep_view()));
    }
    if page.total_rows < usize::MAX {
        page.total_rows = page.total_rows + 1;
    }
}

impl AppState {
    fn has_cell(&self, row: usize, col: usize) -> (r: bool)
        ensures
            r == (self@.current_data is Some && has_cell(self@.current_data->0, row, col)),
    {
        match &self.current_data {
            Some(data) => {
                if row < data.rows.len() {
                    proof {
                        assert(data@.rows[row as int] == data.rows[row as int].deep_view());
                    }
                    col < data.columns.len() && col < data.rows[row].len()
                } else {
                    false
                }
            },
            None => false,
        }
    }

    fn min_col(&self) -> (r: usize)
        ensures
            self@.current_data is Some ==> r == self@.current_data->0.first_editable(),
    {
        match &self.current_data {
            Some(data) => data.min_col(),
            None => 0,
        }
    }

    fn last_row(&self) -> (r: usize)
        ensures
            self@.current_data is Some ==> r == minus(
                self@.current_data->0.rows.len() as usize,
                1,
            ),
    {
        match &self.current_data {
            Some(data) => if data.rows.len() > 0 {
                data.rows.len() - 1
            } else {
                0
            },
            None => 0,
        }
    }

    fn last_col(&self) -> (r: usize)
        ensures
            self@.current_data is Some ==> r == minus(
                self@.current_data->0.columns.len() as usize,
                1,
            ),
    {
        match &self.current_data {
            Some(data) => if data.columns.len() > 0 {
                data.columns.len() - 1
            } else {
                0
            },
            None => 0,
        }
    }

    fn has_next_page(&self) -> (r: bool)
        ensures
            r == has_next_page(self@),
    {
        match &self.current_data {
            Some(data) => {
                let rows = data.rows.len();
                rows <= usize::MAX - self.data_offset && self.data_offset + rows < data.total_rows
                    && self.page_size <= usize::MAX - self.data_offset
            },
            None => false,
        }
    }

    fn previous_offset(&self) -> (r: usize)
        ensures
            r == minus(self.data_offset, self.page_size),
    {
        if self.data_offset >= self.page_size {
            self.data_offset - self.page_size
        } else {
            0
        }
    }

    /// Writes the text being edited to its cell.
    fn commit_edit(&mut self) -> (r: bool)
        ensures
            final(self)@ == committed(old(self)@),
            r == (edit_target(old(self)@) is Some),
            old(self)@.well_formed() ==> final(self)@.well_formed(),
            old(self)@.ready() ==> final(self)@.ready(),
    {
        let (row, col) = match self.editing_cell {
            Some(cell) => cell,
            None => {
                return false;
            },
        };
        if !self.has_cell(row, col) {
            return false;
        }
        if self.min_col() == 1 && col == 0 {
            return false;
        }
        let text = self.edit_input.clone();
        match &mut self.current_data {
            Some(data) => {
                set_cell(data, row, col, text);
            },
            None => {},
        }
        self.data_modified = true;
        true
    }

    fn edit_at(&mut self, row: usize, col: usize)
        ensures
            final(self)@ == editing_at(old(self)@, row, col),
            old(self)@.ready() ==> final(self)@.ready(),
    {
        self.selected_row_idx = row;
        self.selected_col_idx = col;
        self.editing_cell = Some((row, col));
        if let Some(text) = self.cell_text(row, col) {
            self.edit_input = text;
        }
    }

    fn close_edit(&mut self)
        ensures
            final(self)@ == edit_closed(old(self)@),
            old(self)@.well_formed() ==> final(self)@.well_formed(),
    {
        self.navigation_mode = NavigationMode::Data;
        self.editing_cell = None;
        self.edit_input = String::new();
    }

    fn new_row(&mut self)
        ensures
            final(self)@ == with_row_added(old(self)@),
            old(self)@.well_formed() ==> final(self)@.well_formed(),
    {
        let min_col = self.min_col();
        match &mut self.current_data {
            Some(data) => {
                let rows = data.rows.len();
                add_row(data);
                self.data_modified = true;
                self.selected_row_idx = rows;
                self.selected_col_idx = min_col;
                self.status_message = Some("New row added".to_owned());
            },
            None => {},
        }
    }

    /// Asks for the changes of the page to be written to a file, where there
    /// are any.
    pub fn save_changes(&mut self) -> (r: Effect)
        ensures
            (final(self)@, r@) == save_requested(old(self)@),
            old(self)@.well_formed() ==> final(self)@.well_formed(),
    {
        if !self.data_modified {
            self.status_message = Some("No changes to save".to_owned());
            Effect::Nothing
        } else if self.selected_table_idx < self.tables.len() && self.current_data.is_some() {
            Effect::Save
        } else {
            Effect::Nothing
        }
    }

    fn handle_data_move(&mut self, key: Key) -> (r: Effect)
        ensures
            (final(self)@, r@) == on_data_move(old(self)@, key),
            old(self)@.well_formed() ==> final(self)@.ready() && (r is Load
                || final(self)@.well_formed()),
    {
        match key {
            Key::Up => {
                if self.selected_row_idx > 0 {
                    self.selected_row_idx -= 1;
                } else if self.data_offset > 0 {
                    self.data_offset = self.previous_offset();
                    self.selected_row_idx = if self.page_size > 0 {
                        self.page_size - 1
                    } else {
                        0
                    };
                    if self.selected_table_idx < self.tables.len() {
                        return Effect::Load;
                    }
                    self.settle();
                }
            },
            Key::Down => {
                if self.current_data.is_some() {
                    if self.selected_row_idx < self.last_row() {
                        self.selected_row_idx += 1;
                    } else if self.has_next_page() {
                        let effect = self.load_effect();
                        self.data_offset = self.data_offset + self.page_size;
                        self.selected_row_idx = 0;
                        return effect;
                    }
                }
            },
            Key::Left => {
                if self.current_data.is_some() && self.selected_col_idx > self.min_col() {
                    self.selected_col_idx -= 1;
                } else {
                    self.navigation_mode = NavigationMode::Table;
                    self.reset_data_view();
                    return self.load_effect();
                }
            },
            Key::Right => {
                if self.current_data.is_some() && self.selected_col_idx < self.last_col() {
                    self.selected_col_idx += 1;
                }
            },
            Key::PageUp => {
                if self.data_offset > 0 {
                    let effect = self.load_effect();
                    self.data_offset = self.previous_offset();
                    self.selected_row_idx = 0;
                    return effect;
                }
            },
            Key::PageDown => {
                if self.has_next_page() {
                    let effect = self.load_effect();
                    self.data_offset = self.data_offset + self.page_size;
                    self.selected_row_idx = 0;
                    return effect;
                }
            },
            Key::Home => {
                let effect = self.load_effect();
                self.data_offset = 0;
                self.selected_row_idx = 0;
                return effect;
            },
            Key::End => {
                let total = match &self.current_data {
                    Some(data) => data.total_rows,
                    None => {
                        return Effect::Nothing;
                    },
                };
                let effect = self.load_effect();
                self.data_offset = if total >= self.page_size {
                    total - self.page_size
                } else {
                    0
                };
                self.selected_row_idx = 0;
                return effect;
            },
            _ => {},
        }
        Effect::Nothing
    }

    fn start_edit(&mut self)
        ensures
            final(self)@ == on_space(old(self)@),
            old(self)@.well_formed() ==> final(self)@.well_formed(),
    {
        if self.has_cell(self.selected_row_idx, self.selected_col_idx) {
            if self.min_col() == 1 && self.selected_col_idx == 0 {
                self.show_error("Cannot edit rowid column".to_owned());
            } else {
                if let Some(text) = self.cell_text(self.selected_row_idx, self.selected_col_idx) {
                    self.navigation_mode = NavigationMode::Edit;
                    self.editing_cell = Some((self.selected_row_idx, self.selected_col_idx));
                    self.edit_input = text;
                }
            }
        }
    }

    fn handle_data_char(&mut self, c: char, key: KeyInput) -> (r: Effect)
        ensures
            (final(self)@, r@) == on_data_char(old(self)@, c, key),
            old(self)@.well_formed() ==> final(self)@.ready() && (r is Load
                || final(self)@.well_formed()),
    {
        if c == ' ' {
            self.start_edit();
        } else if c == 'n' {
            self.new_row();
        } else if c == 'i' {
            self.navigation_mode = NavigationMode::Query;
            self.query_input = String::new();
        } else if c == '=' {
            self.navigation_mode = NavigationMode::ComputedColumn;
            self.computed_column_input = String::new();
        } else if c == 'e' {
            if self.selected_table_idx < self.tables.len() {
                return Effect::Export;
            }
        } else if c == 's' {
            if self.current_query.is_some() {
                self.show_error(
                    "Cannot save custom query results. Press 'r' to reload table data first.".to_owned(),
                );
            } else {
                return self.save_changes();
            }
        } else if c == 'r' {
            self.current_query = None;
            return self.load_effect();
        } else if Self::is_quit(key) {
            return Effect::Quit;
        } else if c == 'h' {
            self.show_help = !self.show_help;
        }
        Effect::Nothing
    }

    fn handle_data_navigation(&mut self, key: KeyInput) -> (r: Effect)
        ensures
            (final(self)@, r@) == on_data_key(old(self)@, key),
            old(self)@.well_formed() ==> final(self)@.ready() && (r is Load
                || final(self)@.well_formed()),
    {
        match key.key {
            Key::Enter => {
                let rows = match &self.current_data {
                    Some(data) => data.rows.len(),
                    None => 0,
                };
                if self.current_data.is_some() && self.selected_row_idx < rows {
                    self.detailed_view_row = Some(self.selected_row_idx);
                    self.detailed_view_selected_field = 0;
                    self.navigation_mode = NavigationMode::DetailedView;
                }
                Effect::Nothing
            },
            Key::Char(c) => self.handle_data_char(c, key),
            other => self.handle_data_move(other),
        }
    }
}

impl AppState {
    fn save_current_edit_and_move_to(&mut self, key: Key) -> (r: Effect)
        requires
            key == Key::Up || key == Key::Down || key == Key::Left || key == Key::Right,
        ensures
            (final(self)@, r@) == on_edit_move(old(self)@, key),
            old(self)@.well_formed() ==> final(self)@.ready() && (r is Load
                || final(self)@.well_formed()),
    {
        self.commit_edit();
        if self.current_data.is_none() {
            return Effect::Nothing;
        }
        let row = self.selected_row_idx;
        let col = self.selected_col_idx;
        match key {
            Key::Up => {
                if row > 0 {
                    self.edit_at(row - 1, col);
                } else if self.data_offset > 0 {
                    self.data_offset = self.previous_offset();
                    let last = if self.page_size > 0 {
                        self.page_size - 1
                    } else {
                        0
                    };
                    self.edit_at(last, col);
                    if self.selected_table_idx < self.tables.len() {
                        return Effect::Load;
                    }
                    self.settle();
                } else {
                    self.edit_at(row, col);
                }
            },
            Key::Down => {
                if row < self.last_row() {
                    self.edit_at(row + 1, col);
                } else if self.has_next_page() {
                    let effect = self.load_effect();
                    self.data_offset = self.data_offset + self.page_size;
                    self.edit_at(0, col);
                    return effect;
                } else {
                    self.edit_at(row, col);
                }
            },
            Key::Left => {
                if col > self.min_col() {
                    self.edit_at(row, col - 1);
                } else {
                    self.edit_at(row, col);
                }
            },
            Key::Right => {
                if col < self.last_col() {
                    self.edit_at(row, col + 1);
                } else {
                    self.edit_at(row, col);
                }
            },
            _ => {},
        }
        Effect::Nothing
    }

    fn edits_rowid(&self) -> (r: bool)
        ensures
            r == edits_rowid(self@),
    {
        match self.editing_cell {
            Some((row, col)) => self.has_cell(row, col) && self.min_col() == 1 && col == 0,
            None => false,
        }
    }

    fn edit_tab(&mut self)
        ensures
            final(self)@ == on_edit_tab(old(self)@),
            old(self)@.well_formed() ==> final(self)@.well_formed(),
    {
        let (row, col) = match self.editing_cell {
            Some(cell) => cell,
            None => {
                return ;
            },
        };
        if !self.has_cell(row, col) {
            return ;
        }
        let (rows, columns, min_col) = match &self.current_data {
            Some(data) => (data.rows.len(), data.columns.len(), data.min_col()),
            None => {
                return ;
            },
        };
        self.commit_edit();
        if col < columns - 1 {
            self.edit_at(row, col + 1);
        } else if row < rows - 1 {
            self.edit_at(row + 1, min_col);
        } else {
            self.close_edit();
        }
    }

    fn handle_edit_mode(&mut self, key: KeyInput) -> (r: Effect)
        ensures
            (final(self)@, r@) == on_edit_key(old(self)@, key),
            old(self)@.well_formed() ==> final(self)@.ready() && (r is Load || r is Ask
                || final(self)@.well_formed()),
    {
        match key.key {
            Key::Esc => {
                self.close_edit();
            },
            Key::Enter => {
                if self.edits_rowid() {
                    self.close_edit();
                    self.show_error("Cannot edit rowid column".to_owned());
                } else {
                    if self.commit_edit() {
                        self.status_message = Some("Cell updated (not saved)".to_owned());
                    }
                    self.close_edit();
                    self.pending = Pending::AfterEdit;
                    let book = Answers::new();
                    return self.recompute(&book);
                }
            },
            Key::Up | Key::Down | Key::Left | Key::Right => {
                return self.save_current_edit_and_move_to(key.key);
            },
            Key::Backspace => {
                self.edit_input.pop();
            },
            Key::Char(c) => {
                if c == 'n' && key.control {
                    if self.current_data.is_some() {
                        self.new_row();
                        self.editing_cell = Some((self.selected_row_idx, self.selected_col_idx));
                        self.edit_input = String::new();
                    }
                } else {
                    self.edit_input.push(c);
                }
            },
            Key::Tab => {
                self.edit_tab();
            },
            _ => {},
        }
        Effect::Nothing
    }

    fn dispatch(&mut self, key: KeyInput) -> (r: Effect)
        ensures
            (final(self)@, r@) == dispatched(old(self)@, key),
            old(self)@.well_formed() ==> final(self)@.ready() && (r is Load || r is Ask
                || final(self)@.well_formed()),
    {
        match self.navigation_mode {
            NavigationMode::Query => self.handle_query_input(key),
            NavigationMode::Table => self.handle_table_navigation(key),
            NavigationMode::Data => self.handle_data_navigation(key),
            NavigationMode::Edit => self.handle_edit_mode(key),
            NavigationMode::DetailedView => self.handle_detailed_view(key),
            NavigationMode::ErrorDisplay => self.handle_error_display(key),
            NavigationMode::ComputedColumn => self.handle_computed_column_input(key),
        }
    }

    /// Takes a key press: changes the state and names the work that is left
    /// for the caller.
    pub fn handle_key_event(&mut self, key: KeyInput) -> (r: Effect)
        ensures
            (final(self)@, r@) == on_key(old(self)@, key),
            old(self)@.well_formed() ==> final(self)@.ready() && (r is Load || r is Ask
                || final(self)@.well_formed()),
    {
        self.status_message = None;
        if self.show_help {
            match key.key {
                Key::Esc => {
                    self.show_help = false;
                    return Effect::Nothing;
                },
                _ => {},
            }
        }
        let effect = self.dispatch(key);
        match effect {
            Effect::Nothing => {
                match self.navigation_mode {
                    NavigationMode::Data => {
                        if self.current_data.is_none() {
                            return self.load_effect();
                        }
                    },
                    _ => {},
                }
                Effect::Nothing
            },
            other => other,
        }
    }

    /// Takes the page that was fetched, with what the store has for the
    /// source file: its record, if there is a readable one, and the file's
    /// fingerprint now, if it can be had. The page goes on view with the
    /// store's computed columns appended, unless the record is stale.
    pub fn load_current_data(
        &mut self,
        page: QueryResult,
        stored: Option<&FileComputedColumns>,
        current_hash: Option<&str>,
    ) -> (r: Effect)
        ensures
            (final(self)@, r@) == on_loaded(
                old(self)@,
                page@,
                record_view(stored),
                hash_view(current_hash),
            ),
            old(self)@.ready() ==> final(self)@.ready() && (r is Ask
                || final(self)@.well_formed()),
    {
        if !page.is_well_formed() {
            self.load_failed("Malformed page: a row does not match the columns");
            return Effect::Nothing;
        }
        let columns = if self.persistence.should_recalculate(stored, current_hash)
            || self.selected_table_idx >= self.tables.len() {
            no_columns()
        } else {
            proof {
                assert(self.tables.deep_view()[self.selected_table_idx as int]
                    == self.tables[self.selected_table_idx as int]@);
            }
            match self.persistence.load_computed_columns(
                stored,
                current_hash,
                self.tables[self.selected_table_idx].as_str(),
            ) {
                Ok(columns) => columns,
                Err(_) => no_columns(),
            }
        };
        self.original_data = Some(page.duplicate());
        self.current_data = Some(page);
        self.shown_offset = self.data_offset;
        self.computed_columns = columns;
        self.pending = Pending::AfterLoad;
        let book = Answers::new();
        self.recompute(&book)
    }

    /// Takes the failure of a fetch: the error goes on display, the page
    /// that is on view stays, the offset is again that of this page, and the
    /// cursor is put inside it.
    pub fn load_failed(&mut self, message: &str)
        ensures
            final(self)@ == fetch_failed(old(self)@, message@),
            old(self)@.ready() ==> final(self)@.well_formed(),
    {
        if self.current_data.is_some() {
            self.data_offset = self.shown_offset;
        }
        self.settle();
        self.show_error(message.to_owned());
    }

    /// Takes the page that the query gave: it goes on view from its first row.
    pub fn query_finished(&mut self, query: String, page: QueryResult)
        ensures
            final(self)@ == on_query_page(old(self)@, query@, page@),
            old(self)@.well_formed() ==> final(self)@.well_formed(),
    {
        if !page.is_well_formed() {
            self.show_error("Malformed page: a row does not match the columns".to_owned());
            return ;
        }
        self.current_query = Some(query);
        self.current_data = Some(page);
        self.selected_row_idx = 0;
        self.data_offset = 0;
        self.shown_offset = 0;
        self.status_message = Some("Query executed successfully".to_owned());
        self.settle();
    }

    /// Takes the failure of a query: the error goes on display.
    pub fn query_failed(&mut self, message: &str)
        ensures
            final(self)@ == old(self)@.show_error("Query error: "@ + message@),
            old(self)@.well_formed() ==> final(self)@.well_formed(),
    {
        self.show_error(join2("Query error: ", message));
    }

    /// The name of the file that an export at the time `timestamp` goes to.
    pub fn export_file_name(&self, timestamp: &str) -> (r: Option<String>)
        ensures
            r.deep_view() == export_name(self@, timestamp@),
    {
        match self.current_table() {
            Some(table) => if self.current_query.is_some() {
                Some(join3("query_export_", timestamp, ".csv"))
            } else {
                let head = join2(table, "_");
                Some(join3(head.as_str(), timestamp, ".csv"))
            },
            None => None,
        }
    }

    /// The name of the file that the changes of the page go to at the time
    /// `timestamp`.
    pub fn save_file_name(&self, timestamp: &str) -> (r: Option<String>)
        ensures
            r.deep_view() == save_name(self@, timestamp@),
    {
        match self.current_table() {
            Some(table) => {
                let head = join2(table, "_edited_");
                Some(join3(head.as_str(), timestamp, ".csv"))
            },
            None => None,
        }
    }

    /// Takes the outcome of an export: how many rows went to which file.
    pub fn exported(&mut self, rows: usize, filename: &str)
        ensures
            final(self)@ == (AppView {
                status_message: Some(
                    "Exported "@ + decimal(rows as nat) + " rows to "@ + filename@,
                ),
                ..old(self)@
            }),
    {
        let count = text_of(&decimal_chars(rows as u64));
        let head = join3("Exported ", count.as_str(), " rows to ");
        self.status_message = Some(join2(head.as_str(), filename));
    }

    /// Takes the failure of an export or of a save: the error goes on display.
    pub fn write_failed(&mut self, message: &str)
        ensures
            final(self)@ == old(self)@.show_error(message@),
            old(self)@.well_formed() ==> final(self)@.well_formed(),
    {
        self.show_error(message.to_owned());
    }

    /// Takes the file that the changes of the page were written to: the page
    /// counts as unchanged again.
    pub fn changes_saved(&mut self, filename: &str)
        ensures
            final(self)@ == (AppView {
                data_modified: false,
                status_message: Some(saved_message(old(self)@.source, filename@)),
                ..old(self)@
            }),
    {
        self.data_modified = false;
        let message = match self.source {
            FileType::Csv => join2("Changes saved to ", filename),
            FileType::Xlsx => join3("Changes saved to ", filename, " (converted from Excel)"),
            FileType::Sqlite => join3(
                "Changes exported to ",
                filename,
                " (SQLite direct save not supported)",
            ),
            FileType::Parquet => join3("Changes saved to ", filename, " (converted from Parquet)"),
        };
        self.status_message = Some(message);
    }

    /// Takes the success of a copy to the clipboard.
    pub fn copied(&mut self)
        ensures
            final(self)@ == (AppView {
                status_message: Some("Copied to clipboard"@),
                ..old(self)@
            }),
    {
        self.status_message = Some("Copied to clipboard".to_owned());
    }

    /// Takes the failure of a copy to the clipboard: the error goes on display.
    pub fn copy_failed(&mut self, message: &str)
        ensures
            final(self)@ == old(self)@.show_error("Failed to copy to clipboard: "@ + message@),
            old(self)@.well_formed() ==> final(self)@.well_formed(),
    {
        self.show_error(join2("Failed to copy to clipboard: ", message));
    }

    /// Takes the success of saving the computed columns.
    pub fn columns_saved(&mut self)
        ensures
            final(self)@ == (AppView {
                status_message: Some("Computed column added and saved"@),
                ..old(self)@
            }),
    {
        self.status_message = Some("Computed column added and saved".to_owned());
    }

    /// Takes the failure of saving the computed columns.
    pub fn columns_save_failed(&mut self, message: &str)
        ensures
            final(self)@ == (AppView {
                status_message: Some("Column added but save failed: "@ + message@),
                ..old(self)@
            }),
    {
        self.status_message = Some(join2("Column added but save failed: ", message));
    }

    /// Defines a computed column and puts it at the end of the list. On an
    /// error the list stays as it is.
    pub fn parse_and_add_computed_column(&mut self, expression: &str) -> (r: Result<
        (),
        ExprError,
    >)
        ensures
            match r {
                Ok(()) => parsed(expression@, page_columns(old(self)@.current_data)) matches Ok(
                    column,
                ) && final(self)@ == (AppView {
                    computed_columns: old(self)@.computed_columns.push(column),
                    ..old(self)@
                }),
                Err(e) => parsed(expression@, page_columns(old(self)@.current_data))
                    == Err::<ColumnView, ExprErrorView>(e@) && final(self)@ == old(self)@,
            },
    {
        let parsed = match &self.current_data {
            Some(data) => parse_computed_column(expression, Some(&data.columns)),
            None => parse_computed_column(expression, None),
        };
        match parsed {
            Ok(column) => {
                let ghost before = self.computed_columns.deep_view();
                self.computed_columns.push(column);
                proof {
                    assert(self.computed_columns.deep_view() =~= before.push(column@));
                }
                Ok(())
            },
            Err(e) => Err(e),
        }
    }
}

/// Down on the last row of a page: where rows of the set lie behind the
/// page, the offset grows by the page size and the cursor goes to the first
/// row of the page to load; else nothing changes.
pub proof fn lemma_down_turns_page(s: AppView, control: bool)
    requires
        s.current_data is Some,
        s.selected_row_idx >= minus(s.current_data->0.rows.len() as usize, 1),
    ensures
        ({
            let (t, effect) = on_data_key(s, KeyInput { key: Key::Down, control });
            let page = s.current_data->0;
            if s.data_offset + page.rows.len() < page.total_rows && s.data_offset + s.page_size
                <= usize::MAX {
                &&& t.data_offset == s.data_offset + s.page_size
                &&& t.selected_row_idx == 0
                &&& t.current_data == s.current_data
                &&& effect == s.load_effect()
            } else {
                t == s && effect is Nothing
            }
        }),
{
}

/// Down on the last row of a full page: the offset grows by exactly the page
/// size, unless the set ends with the page; then nothing changes.
pub proof fn lemma_down_on_full_page(s: AppView, control: bool)
    requires
        s.current_data is Some,
        s.current_data->0.rows.len() == s.page_size,
        s.current_data->0.total_rows <= usize::MAX,
        s.selected_row_idx >= minus(s.current_data->0.rows.len() as usize, 1),
    ensures
        ({
            let (t, effect) = on_data_key(s, KeyInput { key: Key::Down, control });
            let page = s.current_data->0;
            if s.data_offset + page.rows.len() >= page.total_rows {
                t == s && effect is Nothing
            } else {
                &&& t.data_offset == s.data_offset + s.page_size
                &&& t.selected_row_idx == 0
                &&& t.selected_col_idx == s.selected_col_idx
                &&& t.current_data == s.current_data
                &&& effect == s.load_effect()
            }
        }),
{
}

/// Writing the text being edited to its cell changes that cell and no other,
/// and leaves the columns and the number of rows as they are.
pub proof fn lemma_commit_changes_one_cell(s: AppView, row: usize, col: usize)
    requires
        edit_target(s) == Some((row, col)),
    ensures
        committed(s).current_data is Some,
        committed(s).cell(row, col) == Some(s.edit_input),
        committed(s).current_data->0.columns == s.current_data->0.columns,
        committed(s).current_data->0.rows.len() == s.current_data->0.rows.len(),
        committed(s).current_data->0.total_rows == s.current_data->0.total_rows,
        forall|r: usize, c: usize|
            (r != row || c != col) ==> #[trigger] committed(s).cell(r, c) == s.cell(r, c),
        s.current_data->0.well_formed() ==> committed(s).current_data->0.well_formed(),
{
    let before = s.current_data->0;
    let after = committed(s).current_data->0;
    assert forall|r: usize, c: usize| (r != row || c != col) implies #[trigger] committed(s).cell(
        r,
        c,
    ) == s.cell(r, c) by {
        if r < before.rows.len() {
            if r == row {
                assert(after.rows[r as int].len() == before.rows[r as int].len());
            } else {
                assert(after.rows[r as int] == before.rows[r as int]);
            }
        }
    }
    if before.well_formed() {
        assert forall|r: int| 0 <= r < after.rows.len() implies #[trigger] after.rows[r].len()
            == after.columns.len() by {
            assert(before.rows[r].len() == before.columns.len());
        }
    }
}

/// The space key on a cell of the row identity column puts an error on
/// display and leaves the page, the cursor and the texts as they are.
pub proof fn lemma_rowid_is_not_edited(s: AppView, control: bool)
    requires
        s.current_data is Some,
        has_cell(s.current_data->0, s.selected_row_idx, s.selected_col_idx),
        s.current_data->0.first_editable() == 1,
        s.selected_col_idx == 0,
    ensures
        ({
            let (t, effect) = on_data_key(s, KeyInput { key: Key::Char(' '), control });
            &&& effect is Nothing
            &&& t == s.show_error("Cannot edit rowid column"@)
            &&& t.navigation_mode == NavigationMode::ErrorDisplay
            &&& t.current_data == s.current_data
            &&& t.editing_cell == s.editing_cell
        }),
{
}

/// Left on the first editable column leaves the page for the table list: the
/// view is reset, and the table's first page is to be loaded.
pub proof fn lemma_left_leaves_page(s: AppView, control: bool)
    requires
        s.current_data is Some,
        s.selected_col_idx <= s.current_data->0.first_editable(),
    ensures
        ({
            let (t, effect) = on_data_key(s, KeyInput { key: Key::Left, control });
            &&& t == (AppView { navigation_mode: NavigationMode::Table, ..s }).reset_data_view()
            &&& t.navigation_mode == NavigationMode::Table
            &&& t.current_data is None
            &&& t.computed_columns == s.computed_columns
            &&& effect == t.load_effect()
        }),
{
}

/// A definition that is in error leaves the computed columns and the page as
/// they are and puts the error on display.
pub proof fn lemma_bad_definition_changes_nothing(s: AppView, control: bool)
    requires
        !is_blank(s.computed_column_input),
        parsed(s.computed_column_input, page_columns(s.current_data)) is Err,
    ensures
        ({
            let (t, effect) = on_column_key(s, KeyInput { key: Key::Enter, control });
            &&& effect is Nothing
            &&& t.computed_columns == s.computed_columns
            &&& t.current_data == s.current_data
            &&& t.navigation_mode == NavigationMode::ErrorDisplay
            &&& t.previous_navigation_mode == NavigationMode::Data
            &&& t.error_message is Some
        }),
{
}

/// Enter in a cell, with no computed columns: the text goes to the cell
/// being edited, every other cell stays, and the page mode is back.
pub proof fn lemma_enter_commits_edit(s: AppView, control: bool, row: usize, col: usize)
    requires
        s.computed_columns.len() == 0,
        edit_target(s) == Some((row, col)),
    ensures
        ({
            let (t, effect) = on_edit_key(s, KeyInput { key: Key::Enter, control });
            &&& effect is Nothing
            &&& t.navigation_mode == NavigationMode::Data
            &&& t.data_modified
            &&& t.editing_cell is None
            &&& t.current_data == Some(with_cell(s.current_data->0, row, col, s.edit_input))
            &&& t.cell(row, col) == Some(s.edit_input)
            &&& forall|r: usize, c: usize|
                (r != row || c != col) ==> #[trigger] t.cell(r, c) == s.cell(r, c)
        }),
{
    lemma_commit_changes_one_cell(s, row, col);
    let page = with_cell(s.current_data->0, row, col, s.edit_input);
    assert(stripped(page, s.computed_columns, 0) == page);
    assert(applied(Seq::empty(), page, s.computed_columns, 0) == Progress::Done(page));
    let (t, effect) = on_edit_key(s, KeyInput { key: Key::Enter, control });
    assert(t.current_data == Some(page));
    assert forall|r: usize, c: usize| (r != row || c != col) implies #[trigger] t.cell(r, c)
        == s.cell(r, c) by {
        assert(t.cell(r, c) == committed(s).cell(r, c));
    }
}

/// The state in which Enter in a cell hands over to the computation of the
/// computed columns: the text is in its cell, the edit is closed.
pub open spec fn after_commit(s: AppView) -> AppView {
    AppView {
        pending: Pending::AfterEdit,
        ..edit_closed(
            AppView { status_message: Some("Cell updated (not saved)"@), ..committed(s) },
        )
    }
}

/// Enter in a cell of a source column, with any computed columns behind:
/// whatever the computation of the computed columns comes to, and while it
/// is still asking, the page on view has the text in the cell that was
/// edited and every other cell of the source columns as it was, with the
/// same headers and the same number of rows. Nothing is fetched or written:
/// the only work left for the caller is to answer numeric requests.
///
/// The source columns are the first `k` columns of the page, none of which
/// has the name of a computed column.
pub proof fn lemma_enter_keeps_source_cells(
    s: AppView,
    control: bool,
    row: usize,
    col: usize,
    k: int,
    book: Book,
)
    requires
        edit_target(s) == Some((row, col)),
        s.current_data->0.well_formed(),
        col < k,
        crate::compute::source_columns(s.current_data->0, s.computed_columns, k),
    ensures
        on_edit_key(s, KeyInput { key: Key::Enter, control }) == recomputed(
            after_commit(s),
            Seq::empty(),
        ),
        ({
            let (t, effect) = recomputed(after_commit(s), book);
            let before = s.current_data->0;
            &&& effect is Nothing || effect is Ask
            &&& t.data_modified
            &&& t.current_data is Some
            &&& t.current_data->0.rows.len() == before.rows.len()
            &&& t.current_data->0.total_rows == before.total_rows
            &&& t.cell(row, col) == Some(s.edit_input)
            &&& forall|c: int| 0 <= c < k ==> #[trigger] t.current_data->0.columns[c]
                == before.columns[c]
            &&& forall|r: usize, c: usize|
                c < k && (r != row || c != col) ==> #[trigger] t.cell(r, c) == s.cell(r, c)
            &&& effect is Nothing ==> t.pending == Pending::Idle && t.editing_cell is None
                && t.edit_input.len() == 0 && (t.navigation_mode == NavigationMode::Data
                || t.navigation_mode == NavigationMode::ErrorDisplay)
        }),
{
    lemma_commit_changes_one_cell(s, row, col);
    let before = s.current_data->0;
    let t0 = after_commit(s);
    let page = t0.current_data->0;
    assert(page == with_cell(before, row, col, s.edit_input));
    assert(page.well_formed());
    assert(crate::compute::source_columns(page, s.computed_columns, k)) by {
        assert(page.columns == before.columns);
    };
    crate::compute::lemma_refreshed_keeps(book, page, s.computed_columns, k);
    crate::compute::lemma_keeps_own_columns(page, k);
    let (t, effect) = recomputed(t0, book);
    let after = t.current_data->0;
    assert(crate::compute::keeps_columns(page, after, k));
    assert forall|r: usize, c: usize| c < k implies #[trigger] t.cell(r, c) == committed(s).cell(
        r,
        c,
    ) by {
        if r < page.rows.len() {
            assert(page.rows[r as int].len() == page.columns.len());
            assert(k <= after.rows[r as int].len());
            assert(after.rows[r as int][c as int] == page.rows[r as int][c as int]);
        }
    };
    assert forall|c: int| 0 <= c < k implies #[trigger] after.columns[c] == before.columns[c] by {
        assert(after.columns[c] == page.columns[c]);
    };
}

/// Enter in a cell of a page that holds the computed columns already,
/// behind its `k` columns of the source: whatever the computation of the
/// computed columns comes to, and while it is still asking, the page on
/// view has the headers that it had, the same number of rows, and in each
/// row as many cells as before.
pub proof fn lemma_enter_keeps_shape(
    s: AppView,
    control: bool,
    row: usize,
    col: usize,
    k: int,
    book: Book,
)
    requires
        edit_target(s) == Some((row, col)),
        s.current_data->0.well_formed(),
        crate::compute::computed_behind(s.current_data->0, s.computed_columns, k),
    ensures
        on_edit_key(s, KeyInput { key: Key::Enter, control }) == recomputed(
            after_commit(s),
            Seq::empty(),
        ),
        ({
            let (t, effect) = recomputed(after_commit(s), book);
            let before = s.current_data->0;
            &&& t.current_data is Some
            &&& t.current_data->0.columns == before.columns
            &&& t.current_data->0.rows.len() == before.rows.len()
            &&& t.current_data->0.total_rows == before.total_rows
            &&& t.computed_columns == s.computed_columns
            &&& forall|r: int|
                0 <= r < before.rows.len() ==> (#[trigger] t.current_data->0.rows[r]).len()
                    == before.rows[r].len()
        }),
{
    lemma_commit_changes_one_cell(s, row, col);
    let before = s.current_data->0;
    let t0 = after_commit(s);
    let page = t0.current_data->0;
    assert(page == with_cell(before, row, col, s.edit_input));
    assert(page.well_formed());
    assert(page.columns == before.columns);
    assert(crate::compute::computed_behind(page, s.computed_columns, k));
    crate::compute::lemma_refreshed_keeps_shape(book, page, s.computed_columns, k);
    let (t, effect) = recomputed(t0, book);
    let after = t.current_data->0;
    assert forall|r: int| 0 <= r < before.rows.len() implies (#[trigger] after.rows[r]).len()
        == before.rows[r].len() by {
        assert(page.rows[r].len() == page.columns.len());
        assert(before.rows[r].len() == before.columns.len());
    };
}

/// The request that a computation stops at is one that the book does not
/// answer, and the state is then as it was: so the caller's round of
/// answering and running again gets one request further each time.
pub proof fn lemma_recompute_asks_open(s: AppView, book: Book)
    ensures
        recomputed(s, book).1 matches EffectView::Ask(q) ==> crate::numeric::answer_to(book, q)
            is None && recomputed(s, book).0 == s,
{
    match s.current_data {
        Some(page) => {
            let n = s.computed_columns.len() as int;
            crate::compute::lemma_applied_asks_open(book, page, s.computed_columns, n);
            crate::compute::lemma_applied_asks_open(
                book,
                stripped(page, s.computed_columns, n),
                s.computed_columns,
                n,
            );
        },
        None => {},
    }
}

/// A computation that came to its end with one book comes to the same end
/// with a book that has more answers.
pub proof fn lemma_recompute_stable(s: AppView, book: Book, later: Book)
    requires
        crate::numeric::extends(book, later),
        !(recomputed(s, book).1 is Ask),
    ensures
        recomputed(s, later) == recomputed(s, book),
{
    match s.current_data {
        Some(page) => {
            let n = s.computed_columns.len() as int;
            if s.pending == Pending::AfterEdit {
                crate::compute::lemma_applied_stable(
                    book,
                    later,
                    stripped(page, s.computed_columns, n),
                    s.computed_columns,
                    n,
                );
            } else if s.pending != Pending::Idle {
                crate::compute::lemma_applied_stable(book, later, page, s.computed_columns, n);
            }
        },
        None => {},
    }
}

} // verus!
