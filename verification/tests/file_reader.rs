use sqbrowser::database::QueryResult;
use sqbrowser::file_reader::{
    detect_file_type, extension_file_type, extension_kind, file_type_of, found_extension_kind,
    is_sqlite_file, paginate_data, FileType,
};

fn numbered(n: usize) -> QueryResult {
    QueryResult {
        columns: vec!["id".to_string(), "name".to_string()],
        rows: (0..n).map(|i| vec![i.to_string(), format!("row{}", i)]).collect(),
        total_rows: n,
    }
}

#[test]
fn the_extension_decides_the_kind() {
    assert_eq!(detect_file_type("data.db", b""), FileType::Sqlite);
    assert_eq!(detect_file_type("data.sqlite", b""), FileType::Sqlite);
    assert_eq!(detect_file_type("data.sqlite3", b""), FileType::Sqlite);
    assert_eq!(detect_file_type("/tmp/data.CSV", b""), FileType::Csv);
    assert_eq!(detect_file_type("book.xlsx", b""), FileType::Xlsx);
    assert_eq!(detect_file_type("book.XLS", b""), FileType::Xlsx);
    assert_eq!(detect_file_type("a/b.c/facts.parquet", b""), FileType::Parquet);
    assert_eq!(extension_file_type("a.Parquet"), Some(FileType::Parquet));
    assert_eq!(extension_file_type("a.txt"), None);
    assert_eq!(extension_file_type("csv"), None);
    assert_eq!(extension_file_type(".csv"), None);
    assert_eq!(extension_kind("CSV"), None);
    assert_eq!(extension_kind(""), None);
}

#[test]
fn without_a_known_extension_the_first_bytes_decide() {
    let sqlite = b"SQLite format 3\0 and more";
    assert!(is_sqlite_file(sqlite));
    assert!(is_sqlite_file(&sqlite[..16]));
    assert!(!is_sqlite_file(&sqlite[..15]));
    assert!(!is_sqlite_file(b"SQLite format 4\0"));
    assert!(!is_sqlite_file(b""));
    assert_eq!(detect_file_type("data", sqlite), FileType::Sqlite);
    assert_eq!(detect_file_type("data.bin", sqlite), FileType::Sqlite);
    assert_eq!(detect_file_type("data.bin", b"a,b\n1,2\n"), FileType::Csv);
    assert_eq!(detect_file_type("data.csv", sqlite), FileType::Csv);
    assert_eq!(file_type_of("", sqlite), FileType::Sqlite);
    assert_eq!(file_type_of("Db", b""), FileType::Sqlite);
}

#[test]
fn a_page_is_a_window_of_the_rows() {
    let data = numbered(60);
    let first = paginate_data(&data, 0, 25);
    assert_eq!(first.rows.len(), 25);
    assert_eq!(first.rows[0][0], "0");
    assert_eq!(first.rows[24][0], "24");
    assert_eq!(first.total_rows, 60);
    assert_eq!(first.columns, data.columns);
    let last = paginate_data(&data, 50, 25);
    assert_eq!(last.rows.len(), 10);
    assert_eq!(last.rows[0][0], "50");
    assert_eq!(last.rows[9][1], "row59");
    assert_eq!(last.total_rows, 60);
}

#[test]
fn a_page_never_reads_past_the_end() {
    let data = numbered(7);
    for offset in 0..10usize {
        for limit in 0..10usize {
            let page = paginate_data(&data, offset, limit);
            assert!(page.rows.len() <= limit);
            assert!(page.rows.len() <= data.total_rows.saturating_sub(offset));
            let expected: Vec<Vec<String>> =
                data.rows.iter().skip(offset).take(limit).cloned().collect();
            assert_eq!(page.rows, expected);
        }
    }
    assert!(paginate_data(&data, usize::MAX, usize::MAX).rows.is_empty());
    assert_eq!(paginate_data(&data, 3, usize::MAX).rows.len(), 4);
    assert!(paginate_data(&numbered(0), 0, 25).rows.is_empty());
}

#[test]
fn the_kind_of_a_found_extension() {
    assert_eq!(found_extension_kind(Some("csv")), Some(FileType::Csv));
    assert_eq!(found_extension_kind(Some("XLSX")), Some(FileType::Xlsx));
    assert_eq!(found_extension_kind(Some("Sqlite3")), Some(FileType::Sqlite));
    assert_eq!(found_extension_kind(Some("parquet")), Some(FileType::Parquet));
    assert_eq!(found_extension_kind(Some("txt")), None);
    assert_eq!(found_extension_kind(Some("")), None);
    assert_eq!(found_extension_kind(None), None);
    for path in ["a.db", "b.CSV", "c.tar.gz", "noext", ".hidden", "dir.d/file"] {
        let found = std::path::Path::new(path).extension().and_then(|e| e.to_str());
        assert_eq!(extension_file_type(path), found_extension_kind(found), "{}", path);
    }
}

#[test]
fn a_plain_file_name_has_the_extension_behind_its_last_point() {
    assert_eq!(extension_file_type("data.csv"), Some(FileType::Csv));
    assert_eq!(extension_file_type("my.data.XLSX"), Some(FileType::Xlsx));
    assert_eq!(extension_file_type(".hidden.db"), Some(FileType::Sqlite));
    assert_eq!(extension_file_type("..parquet"), Some(FileType::Parquet));
    assert_eq!(extension_file_type("data.txt"), None);
    // the point is the first or the last character, or there is none
    assert_eq!(extension_file_type(".csv"), None);
    assert_eq!(extension_file_type("csv."), None);
    assert_eq!(extension_file_type("csv"), None);
    assert_eq!(detect_file_type("data.parquet", b"SQLite format 3\0"), FileType::Parquet);
    assert_eq!(detect_file_type("nopoint", b"SQLite format 3\0"), FileType::Sqlite);
    assert_eq!(detect_file_type("nopoint", b""), FileType::Csv);
}

#[test]
fn the_extension_is_that_of_the_last_component() {
    assert_eq!(extension_file_type("archive/Report.XLS"), Some(FileType::Xlsx));
    assert_eq!(extension_file_type("/var/lib/app/data.sqlite3"), Some(FileType::Sqlite));
    assert_eq!(extension_file_type("a.csv/b.parquet"), Some(FileType::Parquet));
    assert_eq!(extension_file_type("./facts.Parquet"), Some(FileType::Parquet));
    assert_eq!(extension_file_type("../up/.hidden.db"), Some(FileType::Sqlite));
    assert_eq!(extension_file_type("dir/notes.txt"), None);
    // a point in a directory's name gives the file no extension
    assert_eq!(extension_file_type("a.csv/data"), None);
    assert_eq!(detect_file_type("a.csv/data", b"SQLite format 3\0"), FileType::Sqlite);
    assert_eq!(detect_file_type("archive/Report.XLS", b"SQLite format 3\0"), FileType::Xlsx);
    assert_eq!(detect_file_type("dir/table.bin", b"SQLite format 3\0"), FileType::Sqlite);
}
