//! The kind of a source file, and the window of rows that makes a page.

use vstd::prelude::*;
use crate::database::{PageView, QueryResult};
use crate::text::{
    chars_of,
    clone_texts,
    last_index,
    lowercase,
    occurs_at,
    occurs_in,
    same_chars,
    to_lowercase,
};

verus! {

#[derive(Debug, Clone, Copy, PartialEq, Eq, Structural)]
pub enum FileType {
    Sqlite,
    Csv,
    Xlsx,
    Parquet,
}

/// The kind that a file name's extension stands for, the extension given in
/// lower case.
pub open spec fn kind_of_extension(ext: Seq<char>) -> Option<FileType> {
    if ext == "db"@ || ext == "sqlite"@ || ext == "sqlite3"@ {
        Some(FileType::Sqlite)
    } else if ext == "csv"@ {
        Some(FileType::Csv)
    } else if ext == "xlsx"@ || ext == "xls"@ {
        Some(FileType::Xlsx)
    } else if ext == "parquet"@ {
        Some(FileType::Parquet)
    } else {
        None
    }
}

/// The sixteen bytes that a SQLite file starts with: `SQLite format 3` and a
/// zero byte.
pub open spec fn sqlite_magic() -> Seq<u8> {
    seq![
        0x53u8,
        0x51u8,
        0x4cu8,
        0x69u8,
        0x74u8,
        0x65u8,
        0x20u8,
        0x66u8,
        0x6fu8,
        0x72u8,
        0x6du8,
        0x61u8,
        0x74u8,
        0x20u8,
        0x33u8,
        0x00u8,
    ]
}

/// Whether a file that starts with `head` is a SQLite file.
pub open spec fn is_sqlite_head(head: Seq<u8>) -> bool {
    head.len() >= 16 && head.subrange(0, 16) == sqlite_magic()
}

/// The kind of a file by its first bytes: SQLite or else CSV.
pub open spec fn sniffed(head: Seq<u8>) -> FileType {
    if is_sqlite_head(head) {
        FileType::Sqlite
    } else {
        FileType::Csv
    }
}

/// The kind of a file with the extension `ext`, in any case, that starts
/// with the bytes `head`: by the extension where it is a known one, else by
/// the first bytes.
pub open spec fn detected(ext: Seq<char>, head: Seq<u8>) -> FileType {
    match kind_of_extension(lowercase(ext)) {
        Some(kind) => kind,
        None => sniffed(head),
    }
}

/// Whether `ext` can be the extension of `path`: it has no point in it and
/// stands in the path behind a point.
pub open spec fn is_extension_in(path: Seq<char>, ext: Seq<char>) -> bool {
    !ext.contains('.') && occurs_in(path, seq!['.'] + ext)
}

/// Where the last component of `path` starts, the path taken as components
/// parted by `/`: behind its last `/`, or at its start where it has none.
pub open spec fn name_start(path: Seq<char>) -> int {
    match last_index(path, '/') {
        Some(p) => p + 1,
        None => 0,
    }
}

/// Whether `/` is the only character of `path` that parts components on any
/// system, and the path starts with no network prefix: it holds neither `\`
/// nor `:`, and does not start with two `/`.
pub open spec fn is_portable(path: Seq<char>) -> bool {
    &&& !path.contains('\\')
    &&& !path.contains(':')
    &&& !(path.len() >= 2 && path[0] == '/' && path[1] == '/')
}

/// The extension of a portable path whose last component has a point that
/// is neither its first nor its last character: what stands behind that
/// point. None for every other path, of which this says nothing.
pub open spec fn plain_extension(path: Seq<char>) -> Option<Seq<char>> {
    match last_index(path, '.') {
        Some(p) => if name_start(path) < p && p + 1 < path.len() && is_portable(path) {
            Some(path.subrange(p + 1, path.len() as int))
        } else {
            None
        },
        None => None,
    }
}

/// `std::path::Path::extension`: what stands behind the last point of the
/// path's file name, if it has a file name with a point that is not its
/// first character. What counts as the file name differs between systems, so
/// two things are claimed. Of every result: it has no point in it, and it
/// stands in the path behind a point. Of a path that every system parts at
/// its `/` and nowhere else, so that its file name is what stands behind the
/// last `/`: where the last point of that name is neither its first nor its
/// last character, the result is what stands behind that point.
#[verifier::external_body]
fn path_extension(path: &str) -> (r: Option<String>)
    ensures
        r matches Some(ext) ==> is_extension_in(path@, ext@),
        plain_extension(path@) matches Some(ext) ==> r.deep_view() == Some(ext),
{
    match std::path::Path::new(path).extension() {
        Some(ext) => ext.to_str().map(|e| e.to_string()),
        None => None,
    }
}

fn is_text(a: &str, b: &str) -> (r: bool)
    ensures
        r == (a@ == b@),
{
    same_chars(&chars_of(a), &chars_of(b))
}

/// The kind that the extension `ext`, given in lower case, stands for.
pub fn extension_kind(ext: &str) -> (r: Option<FileType>)
    ensures
        r == kind_of_extension(ext@),
{
    if is_text(ext, "db") || is_text(ext, "sqlite") || is_text(ext, "sqlite3") {
        Some(FileType::Sqlite)
    } else if is_text(ext, "csv") {
        Some(FileType::Csv)
    } else if is_text(ext, "xlsx") || is_text(ext, "xls") {
        Some(FileType::Xlsx)
    } else if is_text(ext, "parquet") {
        Some(FileType::Parquet)
    } else {
        None
    }
}

/// Whether a file that starts with `head` is a SQLite file.
pub fn is_sqlite_file(head: &[u8]) -> (r: bool)
    ensures
        r == is_sqlite_head(head@),
{
    if head.len() < 16 {
        return false;
    }
    let r = head[0] == 0x53 && head[1] == 0x51 && head[2] == 0x4c && head[3] == 0x69 && head[4]
        == 0x74 && head[5] == 0x65 && head[6] == 0x20 && head[7] == 0x66 && head[8] == 0x6f
        && head[9] == 0x72 && head[10] == 0x6d && head[11] == 0x61 && head[12] == 0x74
        && head[13] == 0x20 && head[14] == 0x33 && head[15] == 0x00;
    proof {
        let h = head@.subrange(0, 16);
        let m = sqlite_magic();
        assert(forall|i: int| 0 <= i < 16 ==> h[i] == head@[i]);
        if r {
            assert(h =~= m);
        } else {
            assert(m[0] == 0x53 && m[1] == 0x51 && m[2] == 0x4c && m[3] == 0x69 && m[4] == 0x74
                && m[5] == 0x65 && m[6] == 0x20 && m[7] == 0x66 && m[8] == 0x6f && m[9] == 0x72
                && m[10] == 0x6d && m[11] == 0x61 && m[12] == 0x74 && m[13] == 0x20 && m[14]
                == 0x33 && m[15] == 0x00);
        }
    }
    r
}

/// The kind of a file from its extension `ext`, in any case, and its first
/// bytes `head`.
pub fn file_type_of(ext: &str, head: &[u8]) -> (r: FileType)
    ensures
        r == detected(ext@, head@),
{
    let lower = to_lowercase(ext);
    match extension_kind(lower.as_str()) {
        Some(kind) => kind,
        None => if is_sqlite_file(head) {
            FileType::Sqlite
        } else {
            FileType::Csv
        },
    }
}

/// A path that has an extension has a point.
pub proof fn lemma_extension_has_point(path: Seq<char>, ext: Seq<char>)
    requires
        is_extension_in(path, ext),
    ensures
        path.contains('.'),
{
    let pat = seq!['.'] + ext;
    let at = choose|at: int| occurs_at(path, pat, at);
    assert(path.subrange(at, at + pat.len())[0] == pat[0]);
    assert(path[at] == '.');
}

/// The kind that the extension of `path` stands for, if the path has an
/// extension and it is a known one.
pub fn extension_file_type(path: &str) -> (r: Option<FileType>)
    ensures
        r is Some ==> exists|ext: Seq<char>|
            is_extension_in(path@, ext) && r == kind_of_extension(lowercase(ext)),
        plain_extension(path@) matches Some(ext) ==> r == kind_of_extension(lowercase(ext)),
        !path@.contains('.') ==> r is None,
{
    let found = path_extension(path);
    proof {
        if found is Some {
            lemma_extension_has_point(path@, found->0@);
        }
    }
    match &found {
        Some(ext) => found_extension_kind(Some(ext.as_str())),
        None => found_extension_kind(None),
    }
}

/// The kind that a path's extension stands for, the extension given as it
/// was found in the path, in any case; none where the path has no extension.
pub open spec fn kind_of_found(found: Option<Seq<char>>) -> Option<FileType> {
    match found {
        Some(ext) => kind_of_extension(lowercase(ext)),
        None => None,
    }
}

/// The kind that the extension `found` of a path stands for: that of its
/// lower-case form where it is a known one; none for a path without
/// extension.
pub fn found_extension_kind(found: Option<&str>) -> (r: Option<FileType>)
    ensures
        r == kind_of_found(
            match found {
                Some(ext) => Some(ext@),
                None => None,
            },
        ),
{
    match found {
        Some(ext) => {
            let lower = to_lowercase(ext);
            extension_kind(lower.as_str())
        },
        None => None,
    }
}

/// The kind of the file at `path` that starts with the bytes `head`: by the
/// extension of the path where it has a known one, else SQLite by the first
/// bytes, else CSV.
pub fn detect_file_type(path: &str, head: &[u8]) -> (r: FileType)
    ensures
        r == sniffed(head@) || exists|ext: Seq<char>|
            is_extension_in(path@, ext) && r == detected(ext, head@),
        plain_extension(path@) matches Some(ext) ==> r == detected(ext, head@),
        !path@.contains('.') ==> r == sniffed(head@),
{
    let found = path_extension(path);
    proof {
        if found is Some {
            lemma_extension_has_point(path@, found->0@);
        }
    }
    match found {
        Some(ext) => file_type_of(ext.as_str(), head),
        None => if is_sqlite_file(head) {
            FileType::Sqlite
        } else {
            FileType::Csv
        },
    }
}

/// Number of rows of a window of `limit` rows that starts at `offset` in a
/// set of `len` rows.
pub open spec fn window_len(len: int, offset: int, limit: int) -> int {
    if offset >= len {
        0
    } else if limit >= len - offset {
        len - offset
    } else {
        limit
    }
}

/// The page of at most `limit` rows of `data` from row `offset` on.
pub open spec fn page_of(data: PageView, offset: int, limit: int) -> PageView {
    let start = if offset >= data.rows.len() {
        data.rows.len() as int
    } else {
        offset
    };
    PageView {
        columns: data.columns,
        rows: data.rows.subrange(start, start + window_len(data.rows.len() as int, offset, limit)),
        total_rows: data.total_rows,
    }
}

/// The page of at most `limit` rows of `data` from row `offset` on, with the
/// columns and the total of `data`. A page never holds more than `limit` rows,
/// nor more than `data` has from `offset` on.
pub fn paginate_data(data: &QueryResult, offset: usize, limit: usize) -> (r: QueryResult)
    ensures
        r@ == page_of(data@, offset as int, limit as int),
        r@.rows.len() <= limit,
        offset <= data@.rows.len() ==> r@.rows.len() <= data@.rows.len() - offset,
        offset > data@.rows.len() ==> r@.rows.len() == 0,
        data.well_formed() ==> r.well_formed(),
{
    let n = data.rows.len();
    let start = if offset >= n {
        n
    } else {
        offset
    };
    let end = if offset >= n {
        n
    } else if limit >= n - offset {
        n
    } else {
        offset + limit
    };
    let mut rows: Vec<Vec<String>> = Vec::new();
    let mut i: usize = start;
    while i < end
        invariant
            start <= i <= end <= n,
            n == data.rows.len(),
            rows.len() == i - start,
            forall|k: int| 0 <= k < i - start ==> #[trigger] rows[k].deep_view() == data.rows[start
                + k].deep_view(),
        decreases end - i,
    {
        rows.push(clone_texts(&data.rows[i]));
        i += 1;
    }
    let r = QueryResult { columns: clone_texts(&data.columns), rows, total_rows: data.total_rows };
    proof {
        let want = page_of(data@, offset as int, limit as int);
        assert(r@.rows =~= want.rows) by {
            assert forall|k: int| 0 <= k < r@.rows.len() implies r@.rows[k] == want.rows[k] by {
                assert(r@.rows[k] == rows[k].deep_view());
                assert(data@.rows[start + k] == data.rows[start + k].deep_view());
            }
        }
        if data.well_formed() {
            assert forall|k: int| 0 <= k < r@.rows.len() implies #[trigger] r@.rows[k].len()
                == r@.columns.len() by {
                assert(r@.rows[k] == data@.rows[start + k]);
            }
        }
    }
    r
}

/// A page of a complete set of rows holds no more rows than were asked for,
/// and no more than the set has from the offset on.
pub proof fn lemma_page_within_bounds(data: PageView, offset: int, limit: int)
    requires
        0 <= offset,
        0 <= limit,
        data.total_rows == data.rows.len(),
    ensures
        page_of(data, offset, limit).rows.len() <= limit,
        offset <= data.total_rows ==> page_of(data, offset, limit).rows.len() <= data.total_rows
            - offset,
        page_of(data, offset, limit).total_rows == data.total_rows,
{
}

} // verus!
