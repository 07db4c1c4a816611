//! The texts that the display shows around the page: the title with the
//! position in the set, the hints of each mode, the marks of computed columns.

use vstd::prelude::*;
use crate::expression::{ColumnView, ComputedColumn};
use crate::text::{
    append_chars,
    chars_of,
    copy_range,
    decimal,
    decimal_chars,
    matches_at,
    text_of,
};
use crate::ui::{AppState, AppView, NavigationMode};

verus! {

/// Where the page on view lies in its set. Pages and rows count from 1.
#[derive(Debug, Clone, Copy, PartialEq, Eq, Structural)]
pub struct PagePosition {
    pub current_page: usize,
    pub total_pages: usize,
    pub start_row: usize,
    pub end_row: usize,
}

/// The smaller of two numbers.
pub open spec fn least(a: int, b: int) -> int {
    if a <= b {
        a
    } else {
        b
    }
}

/// The position of a page of `rows` rows at `offset` in a set of `total`
/// rows that is cut into pages of `page_size` rows; a page size of 0 counts
/// as 1. No number is larger than the machine's largest.
pub open spec fn position(offset: usize, page_size: usize, rows: usize, total: usize)
    -> PagePosition {
    let size: int = if page_size == 0 {
        1
    } else {
        page_size as int
    };
    let at: int = offset as int;
    let all: int = total as int;
    let pages: int = if all % size == 0 {
        all / size
    } else {
        all / size + 1
    };
    PagePosition {
        current_page: least(at / size + 1, usize::MAX as int) as usize,
        total_pages: pages as usize,
        start_row: least(at + 1, usize::MAX as int) as usize,
        end_row: least(at + rows, all) as usize,
    }
}

/// The position of a page of `rows` rows at `offset` in a set of `total` rows.
pub fn page_position(offset: usize, page_size: usize, rows: usize, total: usize) -> (r:
    PagePosition)
    ensures
        r == position(offset, page_size, rows, total),
{
    let size: usize = if page_size == 0 {
        1
    } else {
        page_size
    };
    let page = offset / size;
    let full = total / size;
    proof {
        let a: int = offset as int;
        let t: int = total as int;
        let z: int = size as int;
        assert(a / z <= a && t / z <= t && (t % z != 0 ==> t / z < t)) by (nonlinear_arith)
            requires
                z >= 1,
                a >= 0,
                t >= 0,
        ;
    }
    PagePosition {
        current_page: if page < usize::MAX {
            page + 1
        } else {
            usize::MAX
        },
        total_pages: if total % size == 0 {
            full
        } else {
            full + 1
        },
        start_row: if offset < usize::MAX {
            offset + 1
        } else {
            usize::MAX
        },
        end_row: if offset >= total {
            total
        } else if rows >= total - offset {
            total
        } else {
            offset + rows
        },
    }
}

/// The title above a page.
pub open spec fn title_text(
    table: Seq<char>,
    total: usize,
    columns: usize,
    at: PagePosition,
    query: bool,
    modified: bool,
) -> Seq<char> {
    "Table: "@ + table + " | Total: "@ + decimal(total as nat) + " rows | Columns: "@ + decimal(
        columns as nat,
    ) + (if at.total_pages > 1 {
        " | Page "@ + decimal(at.current_page as nat) + "/"@ + decimal(at.total_pages as nat)
            + " | Rows "@ + decimal(at.start_row as nat) + "-"@ + decimal(at.end_row as nat)
    } else {
        Seq::empty()
    }) + (if query {
        " | Custom Query"@
    } else {
        Seq::empty()
    }) + (if modified {
        " | *MODIFIED*"@
    } else {
        Seq::empty()
    })
}

/// The title above the page on view, where there is a table and a page.
pub open spec fn title_of(s: AppView) -> Option<Seq<char>> {
    match (s.current_table(), s.current_data) {
        (Some(table), Some(page)) => Some(
            title_text(
                table,
                page.total_rows as usize,
                page.columns.len() as usize,
                position(
                    s.data_offset,
                    s.page_size,
                    page.rows.len() as usize,
                    page.total_rows as usize,
                ),
                s.current_query is Some,
                s.data_modified,
            ),
        ),
        _ => None,
    }
}

fn number(n: usize) -> (r: Vec<char>)
    ensures
        r@ == decimal(n as nat),
{
    decimal_chars(n as u64)
}

/// The title above the page on view: the table, the size of the set and the
/// number of columns; the page and the rows on view where the set has more
/// than one page; and whether a query is active and the page was changed.
pub fn title(app: &AppState) -> (r: Option<String>)
    ensures
        r.deep_view() == title_of(app@),
{
    let table = match app.current_table() {
        Some(t) => t,
        None => {
            return None;
        },
    };
    let data = match &app.current_data {
        Some(d) => d,
        None => {
            return None;
        },
    };
    let at = page_position(app.data_offset, app.page_size, data.rows.len(), data.total_rows);
    let mut v = chars_of("Table: ");
    append_chars(&mut v, &chars_of(table));
    append_chars(&mut v, &chars_of(" | Total: "));
    append_chars(&mut v, &number(data.total_rows));
    append_chars(&mut v, &chars_of(" rows | Columns: "));
    append_chars(&mut v, &number(data.columns.len()));
    let ghost head = v@;
    let mut pages: Vec<char> = Vec::new();
    if at.total_pages > 1 {
        append_chars(&mut pages, &chars_of(" | Page "));
        append_chars(&mut pages, &number(at.current_page));
        append_chars(&mut pages, &chars_of("/"));
        append_chars(&mut pages, &number(at.total_pages));
        append_chars(&mut pages, &chars_of(" | Rows "));
        append_chars(&mut pages, &number(at.start_row));
        append_chars(&mut pages, &chars_of("-"));
        append_chars(&mut pages, &number(at.end_row));
        proof {
            assert(pages@ =~= " | Page "@ + decimal(at.current_page as nat) + "/"@ + decimal(
                at.total_pages as nat,
            ) + " | Rows "@ + decimal(at.start_row as nat) + "-"@ + decimal(at.end_row as nat));
        }
    }
    append_chars(&mut v, &pages);
    let query: Vec<char> = if app.current_query.is_some() {
        chars_of(" | Custom Query")
    } else {
        Vec::new()
    };
    append_chars(&mut v, &query);
    let changed: Vec<char> = if app.data_modified {
        chars_of(" | *MODIFIED*")
    } else {
        Vec::new()
    };
    append_chars(&mut v, &changed);
    proof {
        assert(head =~= "Table: "@ + table@ + " | Total: "@ + decimal(data.total_rows as nat)
            + " rows | Columns: "@ + decimal(data.columns.len() as nat));
        assert(v@ =~= head + pages@ + query@ + changed@);
    }
    Some(text_of(&v))
}

/// The hints at the foot of the display in each mode.
pub open spec fn hint_of(mode: NavigationMode) -> Seq<char> {
    match mode {
        NavigationMode::Table => " Navigate |  Enter | h Help | Ctrl+C Exit"@,
        NavigationMode::Data =>
            " Navigate |  Back | Space Edit | Enter Details | n New Row | PgUp/Dn Page | i Query | = Computed | e Export | s Save | h Help | Ctrl+C Exit"@,
        NavigationMode::Query => "Type query | Enter Execute | ESC Cancel"@,
        NavigationMode::Edit =>
            "Type to edit |  Navigate | Enter Save | Tab Next | Ctrl+N New Row | ESC Cancel"@,
        NavigationMode::DetailedView => " Navigate fields | c Copy value | ESC Close"@,
        NavigationMode::ErrorDisplay => "ESC Close error"@,
        NavigationMode::ComputedColumn => "Type expression | Enter Add | ESC Cancel"@,
    }
}

/// The hints at the foot of the display in `mode`.
pub fn footer_hint(mode: NavigationMode) -> (r: &'static str)
    ensures
        r@ == hint_of(mode),
{
    match mode {
        NavigationMode::Table => " Navigate |  Enter | h Help | Ctrl+C Exit",
        NavigationMode::Data =>
            " Navigate |  Back | Space Edit | Enter Details | n New Row | PgUp/Dn Page | i Query | = Computed | e Export | s Save | h Help | Ctrl+C Exit",
        NavigationMode::Query => "Type query | Enter Execute | ESC Cancel",
        NavigationMode::Edit =>
            "Type to edit |  Navigate | Enter Save | Tab Next | Ctrl+N New Row | ESC Cancel",
        NavigationMode::DetailedView => " Navigate fields | c Copy value | ESC Close",
        NavigationMode::ErrorDisplay => "ESC Close error",
        NavigationMode::ComputedColumn => "Type expression | Enter Add | ESC Cancel",
    }
}

/// Whether `s` ends with `tail`.
pub open spec fn ends_with(s: Seq<char>, tail: Seq<char>) -> bool {
    tail.len() <= s.len() && s.subrange(s.len() - tail.len(), s.len() as int) == tail
}

/// What the list of tables is called for a source file: by the end of its path.
pub open spec fn list_name(path: Seq<char>) -> Seq<char> {
    if ends_with(path, ".xlsx"@) || ends_with(path, ".xls"@) {
        "Sheets"@
    } else if ends_with(path, ".csv"@) || ends_with(path, ".parquet"@) {
        "Data"@
    } else {
        "Tables"@
    }
}

fn has_ending(path: &Vec<char>, tail: &str) -> (r: bool)
    ensures
        r == ends_with(path@, tail@),
{
    let t = chars_of(tail);
    if t.len() > path.len() {
        return false;
    }
    matches_at(path, &t, path.len() - t.len())
}

/// What the list of tables is called for the source file at `db_path`.
pub fn sidebar_title(db_path: &str) -> (r: &'static str)
    ensures
        r@ == list_name(db_path@),
{
    let path = chars_of(db_path);
    if has_ending(&path, ".xlsx") || has_ending(&path, ".xls") {
        "Sheets"
    } else if has_ending(&path, ".csv") || has_ending(&path, ".parquet") {
        "Data"
    } else {
        "Tables"
    }
}

/// The names of the computed columns.
pub open spec fn computed_names(columns: Seq<ColumnView>) -> Seq<Seq<char>> {
    Seq::new(columns.len(), |i: int| columns[i].name)
}

/// Whether a column of the page is a computed one: it has the name of one.
pub fn is_computed_header(name: &str, computed_columns: &Vec<ComputedColumn>) -> (r: bool)
    ensures
        r == computed_names(computed_columns.deep_view()).contains(name@),
{
    let wanted = name.to_owned();
    let ghost names = computed_names(computed_columns.deep_view());
    let mut i: usize = 0;
    while i < computed_columns.len()
        invariant
            i <= computed_columns.len(),
            wanted@ == name@,
            names == computed_names(computed_columns.deep_view()),
            forall|k: int| 0 <= k < i ==> names[k] != name@,
        decreases computed_columns.len() - i,
    {
        proof {
            assert(computed_columns.deep_view()[i as int] == computed_columns[i as int]@);
        }
        if computed_columns[i].name == wanted {
            proof {
                assert(names[i as int] == name@);
            }
            return true;
        }
        i += 1;
    }
    false
}

/// The header of a column: a computed column's name has `*` in front.
pub open spec fn header_of(name: Seq<char>, computed: bool) -> Seq<char> {
    if computed {
        seq!['*'] + name
    } else {
        name
    }
}

/// The header of the column `name` of the page on view.
pub fn header_text(name: &str, computed_columns: &Vec<ComputedColumn>) -> (r: String)
    ensures
        r@ == header_of(
            name@,
            computed_names(computed_columns.deep_view()).contains(name@),
        ),
{
    if is_computed_header(name, computed_columns) {
        let mut v: Vec<char> = Vec::new();
        v.push('*');
        append_chars(&mut v, &chars_of(name));
        proof {
            assert(v@ =~= seq!['*'] + name@);
        }
        text_of(&v)
    } else {
        name.to_owned()
    }
}

/// A cell as the table shows it: a text of more than 40 characters is cut
/// to 37 and gets three points.
pub open spec fn clipped(cell: Seq<char>) -> Seq<char> {
    if cell.len() > 40 {
        cell.subrange(0, 37) + seq!['.', '.', '.']
    } else {
        cell
    }
}

/// The text of `cell` as the table shows it.
pub fn clip_cell(cell: &str) -> (r: String)
    ensures
        r@ == clipped(cell@),
        r@.len() <= 40,
{
    let v = chars_of(cell);
    if v.len() > 40 {
        let mut out = copy_range(&v, 0, 37);
        out.push('.');
        out.push('.');
        out.push('.');
        proof {
            assert(out@ =~= clipped(cell@));
        }
        text_of(&out)
    } else {
        cell.to_owned()
    }
}

} // verus!
