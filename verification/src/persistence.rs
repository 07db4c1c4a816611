//! The store of computed columns.
//!
//! For each source file the store keeps one record: the file's path, its
//! fingerprint when the record was last saved, the time of that save, and the
//! computed columns of each table. The fingerprint is made of the file's size
//! and modification time. A record whose fingerprint differs from the file's
//! present one is stale, and its columns are not used.

use vstd::prelude::*;
use crate::expression::{ColumnTypeView, ColumnView, ComputedColumn, ComputedColumnType};
use crate::text::{
    append_chars,
    chars_of,
    clone_texts,
    decimal,
    decimal_chars,
    is_digit,
    lemma_decimal,
    lemma_decimal_injective,
    text_of,
};

verus! {

#[derive(Debug, Clone)]
pub struct PersistedComputedColumn {
    pub name: String,
    pub expression: String,
    pub column_type: PersistedComputedColumnType,
}

#[derive(Debug, Clone, PartialEq)]
pub enum PersistedComputedColumnType {
    Aggregate(String),
    RowOperation(Vec<String>),
    MixedOperation(Vec<String>, Vec<String>),
}

/// The computed columns of one table.
#[derive(Debug, Clone)]
pub struct TableColumns {
    pub table: String,
    pub columns: Vec<PersistedComputedColumn>,
}

/// The record of one source file. No table occurs twice in
/// `computed_columns`: a record that a save gives has this where the record
/// that went into the save had it, and a first save gives it.
#[derive(Debug)]
pub struct FileComputedColumns {
    pub file_path: String,
    pub file_hash: String,
    /// Seconds since the Unix epoch.
    pub last_modified: u64,
    pub computed_columns: Vec<TableColumns>,
}

/// Where the records are kept.
pub struct ComputedColumnPersistence {
    pub storage_path: String,
}

/// Why the store cannot say which columns it has for a file.
#[derive(Debug, Clone, Copy, PartialEq, Eq, Structural)]
pub enum StoreError {
    /// There is a record, but the file is gone, or its size and modification
    /// time cannot be read, so the record cannot be held against it.
    FileNotFound,
}

impl View for PersistedComputedColumnType {
    type V = ColumnTypeView;

    open spec fn view(&self) -> ColumnTypeView {
        match self {
            PersistedComputedColumnType::Aggregate(f) => ColumnTypeView::Aggregate(f@),
            PersistedComputedColumnType::RowOperation(c) => ColumnTypeView::RowOperation(
                c.deep_view(),
            ),
            PersistedComputedColumnType::MixedOperation(c, a) => ColumnTypeView::MixedOperation(
                c.deep_view(),
                a.deep_view(),
            ),
        }
    }
}

impl View for PersistedComputedColumn {
    type V = ColumnView;

    open spec fn view(&self) -> ColumnView {
        ColumnView {
            name: self.name@,
            expression: self.expression@,
            column_type: self.column_type@,
        }
    }
}

impl DeepView for PersistedComputedColumn {
    type V = ColumnView;

    open spec fn deep_view(&self) -> ColumnView {
        self@
    }
}

pub struct TableColumnsView {
    pub table: Seq<char>,
    pub columns: Seq<ColumnView>,
}

impl View for TableColumns {
    type V = TableColumnsView;

    open spec fn view(&self) -> TableColumnsView {
        TableColumnsView { table: self.table@, columns: self.columns.deep_view() }
    }
}

impl DeepView for TableColumns {
    type V = TableColumnsView;

    open spec fn deep_view(&self) -> TableColumnsView {
        self@
    }
}

pub struct RecordView {
    pub file_path: Seq<char>,
    pub file_hash: Seq<char>,
    pub last_modified: u64,
    pub computed_columns: Seq<TableColumnsView>,
}

impl View for FileComputedColumns {
    type V = RecordView;

    open spec fn view(&self) -> RecordView {
        RecordView {
            file_path: self.file_path@,
            file_hash: self.file_hash@,
            last_modified: self.last_modified,
            computed_columns: self.computed_columns.deep_view(),
        }
    }
}

/// Index of the entry of `table`, if there is one.
pub open spec fn table_index(tables: Seq<TableColumnsView>, table: Seq<char>) -> Option<int>
    decreases tables.len(),
{
    if tables.len() == 0 {
        None
    } else {
        match table_index(tables.drop_last(), table) {
            Some(i) => Some(i),
            None => if tables.last().table == table {
                Some(tables.len() - 1)
            } else {
                None
            },
        }
    }
}

pub proof fn lemma_table_index(tables: Seq<TableColumnsView>, table: Seq<char>)
    ensures
        match table_index(tables, table) {
            Some(i) => 0 <= i < tables.len() && tables[i].table == table && forall|j: int|
                0 <= j < i ==> tables[j].table != table,
            None => forall|j: int| 0 <= j < tables.len() ==> tables[j].table != table,
        },
    decreases tables.len(),
{
    if tables.len() > 0 {
        let head = tables.drop_last();
        lemma_table_index(head, table);
        match table_index(head, table) {
            Some(i) => {
                assert(tables[i] == head[i]);
                assert forall|j: int| 0 <= j < i implies tables[j].table != table by {
                    assert(tables[j] == head[j]);
                }
            },
            None => {
                assert forall|j: int| 0 <= j < tables.len() - 1 implies tables[j].table
                    != table by {
                    assert(tables[j] == head[j]);
                }
            },
        }
    }
}

/// The columns kept for `table`; none where the table has no entry.
pub open spec fn columns_of(tables: Seq<TableColumnsView>, table: Seq<char>) -> Seq<ColumnView> {
    match table_index(tables, table) {
        Some(i) => tables[i].columns,
        None => Seq::empty(),
    }
}

/// The entries with `columns` as those of `table`: in the place of the
/// table's entry where it has one, else at the end.
pub open spec fn with_table(
    tables: Seq<TableColumnsView>,
    table: Seq<char>,
    columns: Seq<ColumnView>,
) -> Seq<TableColumnsView> {
    match table_index(tables, table) {
        Some(i) => tables.update(i, TableColumnsView { table, columns }),
        None => tables.push(TableColumnsView { table, columns }),
    }
}

/// No table has two entries.
pub open spec fn distinct_tables(tables: Seq<TableColumnsView>) -> bool {
    forall|i: int, j: int|
        0 <= i < j < tables.len() ==> (#[trigger] tables[i]).table != (#[trigger] tables[j]).table
}

/// The fingerprint of a file of `size` bytes last modified at `modified`.
pub open spec fn fingerprint(size: u64, modified: u64) -> Seq<char> {
    decimal(size as nat) + seq!['_'] + decimal(modified as nat)
}

/// Whether the store's columns for a file are stale: there is a record, and
/// the file's fingerprint is not the recorded one or cannot be had.
pub open spec fn is_stale(stored: Option<RecordView>, current_hash: Option<Seq<char>>) -> bool {
    match stored {
        Some(record) => match current_hash {
            Some(hash) => hash != record.file_hash,
            None => true,
        },
        None => false,
    }
}

/// What the store gives for a table.
pub open spec fn loaded(
    stored: Option<RecordView>,
    current_hash: Option<Seq<char>>,
    table: Seq<char>,
) -> Result<Seq<ColumnView>, StoreError> {
    match stored {
        None => Ok(Seq::empty()),
        Some(record) => match current_hash {
            None => Err(StoreError::FileNotFound),
            Some(hash) => if hash != record.file_hash {
                Ok(Seq::empty())
            } else {
                Ok(columns_of(record.computed_columns, table))
            },
        },
    }
}

/// The record after a save.
pub open spec fn saved(
    stored: Option<RecordView>,
    file_path: Seq<char>,
    file_hash: Seq<char>,
    now: u64,
    table: Seq<char>,
    columns: Seq<ColumnView>,
) -> RecordView {
    match stored {
        Some(record) => RecordView {
            file_path: record.file_path,
            file_hash,
            last_modified: now,
            computed_columns: with_table(record.computed_columns, table, columns),
        },
        None => RecordView {
            file_path,
            file_hash,
            last_modified: now,
            computed_columns: seq![TableColumnsView { table, columns }],
        },
    }
}

/// The name of the record of a source file: the file's path with `_` in the
/// place of each character that a file name cannot hold, and `.json`.
pub open spec fn record_name(file_path: Seq<char>) -> Seq<char> {
    Seq::new(file_path.len(), |i: int| safe_char(file_path[i])) + seq!['.', 'j', 's', 'o', 'n']
}

pub open spec fn safe_char(c: char) -> char {
    if c == '/' || c == '\\' || c == ':' || c == '*' || c == '?' || c == '"' || c == '<' || c
        == '>' || c == '|' || c == ' ' {
        '_'
    } else {
        c
    }
}

/// `name` inside the directory `dir`.
pub open spec fn inside(dir: Seq<char>, name: Seq<char>) -> Seq<char> {
    if dir.len() == 0 || dir.last() == '/' {
        dir + name
    } else {
        dir + seq!['/'] + name
    }
}

fn copy_kind(kind: &ComputedColumnType) -> (r: PersistedComputedColumnType)
    ensures
        r@ == kind@,
{
    match kind {
        ComputedColumnType::Aggregate(f) => PersistedComputedColumnType::Aggregate(f.clone()),
        ComputedColumnType::RowOperation(c) => PersistedComputedColumnType::RowOperation(
            clone_texts(c),
        ),
        ComputedColumnType::MixedOperation(c, a) => PersistedComputedColumnType::MixedOperation(
            clone_texts(c),
            clone_texts(a),
        ),
    }
}

fn kind_back(kind: &PersistedComputedColumnType) -> (r: ComputedColumnType)
    ensures
        r@ == kind@,
{
    match kind {
        PersistedComputedColumnType::Aggregate(f) => ComputedColumnType::Aggregate(f.clone()),
        PersistedComputedColumnType::RowOperation(c) => ComputedColumnType::RowOperation(
            clone_texts(c),
        ),
        PersistedComputedColumnType::MixedOperation(c, a) => ComputedColumnType::MixedOperation(
            clone_texts(c),
            clone_texts(a),
        ),
    }
}

/// The columns as the store keeps them.
pub fn to_persisted(columns: &Vec<ComputedColumn>) -> (r: Vec<PersistedComputedColumn>)
    ensures
        r.deep_view() == columns.deep_view(),
{
    let mut r: Vec<PersistedComputedColumn> = Vec::new();
    let mut i: usize = 0;
    while i < columns.len()
        invariant
            i <= columns.len(),
            r.len() == i,
            forall|k: int| 0 <= k < i ==> r[k]@ == columns[k]@,
        decreases columns.len() - i,
    {
        r.push(
            PersistedComputedColumn {
                name: columns[i].name.clone(),
                expression: columns[i].expression.clone(),
                column_type: copy_kind(&columns[i].column_type),
            },
        );
        i += 1;
    }
    proof {
        assert(r.deep_view() =~= columns.deep_view());
    }
    r
}

/// The columns as the engine takes them.
pub fn from_persisted(columns: &Vec<PersistedComputedColumn>) -> (r: Vec<ComputedColumn>)
    ensures
        r.deep_view() == columns.deep_view(),
{
    let mut r: Vec<ComputedColumn> = Vec::new();
    let mut i: usize = 0;
    while i < columns.len()
        invariant
            i <= columns.len(),
            r.len() == i,
            forall|k: int| 0 <= k < i ==> r[k]@ == columns[k]@,
        decreases columns.len() - i,
    {
        r.push(
            ComputedColumn {
                name: columns[i].name.clone(),
                expression: columns[i].expression.clone(),
                column_type: kind_back(&columns[i].column_type),
            },
        );
        i += 1;
    }
    proof {
        assert(r.deep_view() =~= columns.deep_view());
    }
    r
}

fn find_table(tables: &Vec<TableColumns>, table: &str) -> (r: Option<usize>)
    ensures
        match r {
            Some(i) => table_index(tables.deep_view(), table@) == Some(i as int) && i
                < tables.len(),
            None => table_index(tables.deep_view(), table@) is None,
        },
{
    let wanted = table.to_owned();
    let mut i: usize = 0;
    while i < tables.len()
        invariant
            i <= tables.len(),
            wanted@ == table@,
            forall|j: int| 0 <= j < i ==> tables.deep_view()[j].table != table@,
        decreases tables.len() - i,
    {
        proof {
            assert(tables.deep_view()[i as int] == tables[i as int]@);
        }
        if tables[i].table == wanted {
            proof {
                let all = tables.deep_view();
                lemma_table_index(all, table@);
                match table_index(all, table@) {
                    Some(k) => {
                        if k < i {
                            assert(all[k].table != table@);
                        }
                        if k > i {
                            assert(all[i as int].table != table@);
                        }
                    },
                    None => {
                        assert(all[i as int].table != table@);
                    },
                }
            }
            return Some(i);
        }
        i += 1;
    }
    proof {
        lemma_table_index(tables.deep_view(), table@);
    }
    None
}

/// The fingerprint of a file of `size` bytes last modified at the time
/// `modified`, counted from the Unix epoch in one unit that the caller keeps
/// to: the finer the unit, the sooner a change is seen.
pub fn file_hash(size: u64, modified: u64) -> (r: String)
    ensures
        r@ == fingerprint(size, modified),
{
    let mut v = decimal_chars(size);
    v.push('_');
    let m = decimal_chars(modified);
    append_chars(&mut v, &m);
    proof {
        assert(v@ =~= fingerprint(size, modified));
    }
    text_of(&v)
}

fn safe_char_of(c: char) -> (r: char)
    ensures
        r == safe_char(c),
{
    if c == '/' || c == '\\' || c == ':' || c == '*' || c == '?' || c == '"' || c == '<' || c
        == '>' || c == '|' || c == ' ' {
        '_'
    } else {
        c
    }
}

impl ComputedColumnPersistence {
    /// A store that keeps its records in the directory `storage_path`.
    pub fn new(storage_path: String) -> (r: ComputedColumnPersistence)
        ensures
            r.storage_path@ == storage_path@,
    {
        ComputedColumnPersistence { storage_path }
    }

    /// The path of the record of the source file `file_path`.
    pub fn get_storage_file_path(&self, file_path: &str) -> (r: String)
        ensures
            r@ == inside(self.storage_path@, record_name(file_path@)),
    {
        let path = chars_of(file_path);
        let mut name: Vec<char> = Vec::new();
        let mut i: usize = 0;
        while i < path.len()
            invariant
                i <= path.len(),
                name@ == Seq::new(i as nat, |k: int| safe_char(path@[k])),
            decreases path.len() - i,
        {
            name.push(safe_char_of(path[i]));
            proof {
                assert(name@ =~= Seq::new((i + 1) as nat, |k: int| safe_char(path@[k])));
            }
            i += 1;
        }
        name.push('.');
        name.push('j');
        name.push('s');
        name.push('o');
        name.push('n');
        proof {
            assert(name@ =~= record_name(file_path@));
        }
        let mut out = chars_of(self.storage_path.as_str());
        if out.len() > 0 && out[out.len() - 1] != '/' {
            out.push('/');
        }
        append_chars(&mut out, &name);
        proof {
            assert(out@ =~= inside(self.storage_path@, record_name(file_path@)));
        }
        text_of(&out)
    }

    /// Whether the columns kept for a file are stale. `stored` is the file's
    /// record, if the store has a readable one; `current_hash` is the file's
    /// fingerprint now, if it can be had.
    pub fn should_recalculate(
        &self,
        stored: Option<&FileComputedColumns>,
        current_hash: Option<&str>,
    ) -> (r: bool)
        ensures
            r == is_stale(record_view(stored), hash_view(current_hash)),
    {
        match stored {
            Some(record) => match current_hash {
                Some(hash) => {
                    let h = hash.to_owned();
                    h != record.file_hash
                },
                None => true,
            },
            None => false,
        }
    }

    /// The columns kept for `table_name`: none where there is no record,
    /// where the record is stale, or where it has no entry for the table.
    /// An error where there is a record and no fingerprint of the file to
    /// hold it against.
    pub fn load_computed_columns(
        &self,
        stored: Option<&FileComputedColumns>,
        current_hash: Option<&str>,
        table_name: &str,
    ) -> (r: Result<Vec<ComputedColumn>, StoreError>)
        ensures
            match r {
                Ok(columns) => loaded(record_view(stored), hash_view(current_hash), table_name@)
                    == Ok::<Seq<ColumnView>, StoreError>(columns.deep_view()),
                Err(e) => loaded(record_view(stored), hash_view(current_hash), table_name@)
                    == Err::<Seq<ColumnView>, StoreError>(e),
            },
    {
        let record = match stored {
            Some(record) => record,
            None => {
                let none: Vec<ComputedColumn> = Vec::new();
                proof {
                    assert(none.deep_view() =~= Seq::<ColumnView>::empty());
                }
                return Ok(none);
            },
        };
        let hash = match current_hash {
            Some(hash) => hash.to_owned(),
            None => {
                return Err(StoreError::FileNotFound);
            },
        };
        if hash != record.file_hash {
            let none: Vec<ComputedColumn> = Vec::new();
            proof {
                assert(none.deep_view() =~= Seq::<ColumnView>::empty());
            }
            return Ok(none);
        }
        match find_table(&record.computed_columns, table_name) {
            Some(i) => {
                proof {
                    assert(record.computed_columns.deep_view()[i as int]
                        == record.computed_columns[i as int]@);
                }
                Ok(from_persisted(&record.computed_columns[i].columns))
            },
            None => {
                let none: Vec<ComputedColumn> = Vec::new();
                proof {
                    assert(none.deep_view() =~= Seq::<ColumnView>::empty());
                }
                Ok(none)
            },
        }
    }

    /// The record to write when the columns of `table_name` are saved:
    /// `stored`, or a new record for `file_path`, with the fingerprint
    /// `file_hash`, the time `now` and `computed_columns` as the columns of
    /// the table. The entries of other tables stay.
    pub fn save_computed_columns(
        &self,
        stored: Option<FileComputedColumns>,
        file_path: &str,
        file_hash: String,
        now: u64,
        table_name: &str,
        computed_columns: &Vec<ComputedColumn>,
    ) -> (r: FileComputedColumns)
        ensures
            r@ == saved(
                owned_record_view(stored),
                file_path@,
                file_hash@,
                now,
                table_name@,
                computed_columns.deep_view(),
            ),
            stored matches Some(record) ==> (distinct_tables(record@.computed_columns)
                ==> distinct_tables(r@.computed_columns)),
            stored is None ==> distinct_tables(r@.computed_columns),
    {
        proof {
            lemma_load_after_save(
                owned_record_view(stored),
                file_path@,
                file_hash@,
                now,
                table_name@,
                computed_columns.deep_view(),
                table_name@,
            );
        }
        let entry = TableColumns {
            table: table_name.to_owned(),
            columns: to_persisted(computed_columns),
        };
        match stored {
            Some(record) => {
                let mut tables = record.computed_columns;
                let ghost before = tables.deep_view();
                match find_table(&tables, table_name) {
                    Some(i) => {
                        tables.set(i, entry);
                        proof {
                            assert(tables.deep_view() =~= before.update(i as int, entry@));
                        }
                    },
                    None => {
                        tables.push(entry);
                        proof {
                            assert(tables.deep_view() =~= before.push(entry@));
                        }
                    },
                }
                FileComputedColumns {
                    file_path: record.file_path,
                    file_hash,
                    last_modified: now,
                    computed_columns: tables,
                }
            },
            None => {
                let mut tables: Vec<TableColumns> = Vec::new();
                tables.push(entry);
                proof {
                    assert(tables.deep_view() =~= seq![entry@]);
                }
                FileComputedColumns {
                    file_path: file_path.to_owned(),
                    file_hash,
                    last_modified: now,
                    computed_columns: tables,
                }
            },
        }
    }
}

/// The record behind an optional reference.
pub open spec fn record_view(stored: Option<&FileComputedColumns>) -> Option<RecordView> {
    match stored {
        Some(r) => Some(r@),
        None => None,
    }
}

/// The record behind an optional value.
pub open spec fn owned_record_view(stored: Option<FileComputedColumns>) -> Option<RecordView> {
    match stored {
        Some(r) => Some(r@),
        None => None,
    }
}

/// The text behind an optional reference.
pub open spec fn hash_view(hash: Option<&str>) -> Option<Seq<char>> {
    match hash {
        Some(h) => Some(h@),
        None => None,
    }
}

/// Two files have the same fingerprint only if they have the same size and
/// the same modification time.
pub proof fn lemma_fingerprint_injective(s1: u64, m1: u64, s2: u64, m2: u64)
    requires
        fingerprint(s1, m1) == fingerprint(s2, m2),
    ensures
        s1 == s2,
        m1 == m2,
{
    let a = decimal(s1 as nat);
    let b = decimal(m1 as nat);
    let c = decimal(s2 as nat);
    let d = decimal(m2 as nat);
    lemma_decimal(s1 as nat);
    lemma_decimal(m1 as nat);
    lemma_decimal(s2 as nat);
    lemma_decimal(m2 as nat);
    let f = fingerprint(s1, m1);
    let g = fingerprint(s2, m2);
    if a.len() < c.len() {
        assert(f[a.len() as int] == '_');
        assert(g[a.len() as int] == c[a.len() as int]);
        assert(is_digit(c[a.len() as int]));
    }
    if c.len() < a.len() {
        assert(g[c.len() as int] == '_');
        assert(f[c.len() as int] == a[c.len() as int]);
        assert(is_digit(a[c.len() as int]));
    }
    assert(a.len() == c.len());
    assert(a =~= c) by {
        assert forall|i: int| 0 <= i < a.len() implies a[i] == c[i] by {
            assert(f[i] == a[i]);
            assert(g[i] == c[i]);
        }
    }
    assert(f.len() == a.len() + 1 + b.len());
    assert(g.len() == c.len() + 1 + d.len());
    assert(b =~= d) by {
        assert forall|i: int| 0 <= i < b.len() implies b[i] == d[i] by {
            assert(f[a.len() + 1 + i] == b[i]);
            assert(g[c.len() + 1 + i] == d[i]);
        }
    }
    lemma_decimal_injective(s1 as nat, s2 as nat);
    lemma_decimal_injective(m1 as nat, m2 as nat);
}

/// After a save for a file of some size and modification time, the columns
/// are stale exactly when the file's size or modification time has changed.
pub proof fn lemma_stale_after_change(
    stored: Option<RecordView>,
    file_path: Seq<char>,
    size: u64,
    modified: u64,
    now: u64,
    table: Seq<char>,
    columns: Seq<ColumnView>,
    size_now: u64,
    modified_now: u64,
)
    ensures
        is_stale(
            Some(saved(stored, file_path, fingerprint(size, modified), now, table, columns)),
            Some(fingerprint(size_now, modified_now)),
        ) == (size_now != size || modified_now != modified),
{
    if fingerprint(size_now, modified_now) == fingerprint(size, modified) {
        lemma_fingerprint_injective(size_now, modified_now, size, modified);
    }
}

/// What was saved for a table is what the store gives for it while the
/// file's fingerprint stays the same, and the columns of every other table
/// are as they were.
pub proof fn lemma_load_after_save(
    stored: Option<RecordView>,
    file_path: Seq<char>,
    file_hash: Seq<char>,
    now: u64,
    table: Seq<char>,
    columns: Seq<ColumnView>,
    other: Seq<char>,
)
    ensures
        loaded(
            Some(saved(stored, file_path, file_hash, now, table, columns)),
            Some(file_hash),
            table,
        ) == Ok::<Seq<ColumnView>, StoreError>(columns),
        other != table && stored is Some ==> columns_of(
            saved(stored, file_path, file_hash, now, table, columns).computed_columns,
            other,
        ) == columns_of(stored->0.computed_columns, other),
        stored is Some && distinct_tables(stored->0.computed_columns) ==> distinct_tables(
            saved(stored, file_path, file_hash, now, table, columns).computed_columns,
        ),
{
    let entry = TableColumnsView { table, columns };
    match stored {
        Some(record) => {
            let before = record.computed_columns;
            let after = with_table(before, table, columns);
            lemma_table_index(before, table);
            lemma_table_index(after, table);
            lemma_table_index(before, other);
            lemma_table_index(after, other);
            match table_index(before, table) {
                Some(i) => {
                    assert(after[i] == entry);
                    assert forall|j: int| 0 <= j < i implies after[j].table != table by {
                        assert(after[j] == before[j]);
                    }
                    assert(table_index(after, table) == Some(i)) by {
                        match table_index(after, table) {
                            Some(k) => {
                                if k < i {
                                    assert(after[k].table != table);
                                }
                            },
                            None => {
                                assert(after[i].table != table);
                            },
                        }
                    }
                    if other != table {
                        assert forall|j: int| 0 <= j < before.len() implies (after[j].table
                            == other <==> before[j].table == other) by {
                            if j != i {
                                assert(after[j] == before[j]);
                            }
                        }
                        match table_index(before, other) {
                            Some(k) => {
                                assert(after[k] == before[k]);
                                assert(after[k].table == other);
                                match table_index(after, other) {
                                    Some(m) => {
                                        if m < k {
                                            assert(before[m].table != other);
                                        }
                                        if m > k {
                                            assert(after[k].table != other);
                                        }
                                    },
                                    None => {
                                        assert(after[k].table != other);
                                    },
                                }
                            },
                            None => {
                                match table_index(after, other) {
                                    Some(m) => {
                                        assert(before[m].table != other);
                                    },
                                    None => {},
                                }
                            },
                        }
                    }
                    if distinct_tables(before) {
                        assert forall|x: int, y: int| 0 <= x < y < after.len() implies (
                        #[trigger] after[x]).table != (#[trigger] after[y]).table by {
                            assert(after[x].table == before[x].table);
                            assert(after[y].table == before[y].table);
                        }
                    }
                },
                None => {
                    assert(after[before.len() as int] == entry);
                    assert forall|j: int| 0 <= j < before.len() implies after[j]
                        == before[j] by {}
                    assert(table_index(after, table) == Some(before.len() as int)) by {
                        match table_index(after, table) {
                            Some(k) => {
                                if k < before.len() {
                                    assert(before[k].table != table);
                                }
                            },
                            None => {
                                assert(after[before.len() as int].table != table);
                            },
                        }
                    }
                    if other != table {
                        match table_index(before, other) {
                            Some(k) => {
                                assert(after[k] == before[k]);
                                match table_index(after, other) {
                                    Some(m) => {
                                        if m < k {
                                            assert(before[m].table != other);
                                        }
                                        if m > k {
                                            assert(after[k].table != other);
                                        }
                                    },
                                    None => {
                                        assert(after[k].table != other);
                                    },
                                }
                            },
                            None => {
                                match table_index(after, other) {
                                    Some(m) => {
                                        if m < before.len() {
                                            assert(before[m].table != other);
                                        }
                                    },
                                    None => {},
                                }
                            },
                        }
                    }
                    if distinct_tables(before) {
                        assert forall|x: int, y: int| 0 <= x < y < after.len() implies (
                        #[trigger] after[x]).table != (#[trigger] after[y]).table by {
                            if y < before.len() {
                                assert(after[x].table == before[x].table);
                                assert(after[y].table == before[y].table);
                            } else {
                                assert(before[x].table != table);
                            }
                        }
                    }
                },
            }
        },
        None => {
            let after = seq![entry];
            lemma_table_index(after, table);
            assert(after[0] == entry);
            match table_index(after, table) {
                Some(k) => {},
                None => {
                    assert(after[0].table != table);
                },
            }
        },
    }
}

} // verus!
