use sqbrowser::data_source::{
    count_query, is_select, paginated_query, prepare_query, replace_table_alias,
    supports_custom_queries, table_page_query, table_query, word_for_table,
};
use sqbrowser::database::QueryResult;
use sqbrowser::file_reader::{paginate_data, FileType};

fn run(conn: &rusqlite::Connection, query: &str) -> Result<usize, rusqlite::Error> {
    let mut stmt = conn.prepare(query)?;
    let mut rows = stmt.query([])?;
    let mut n = 0;
    while let Some(_row) = rows.next()? {
        n += 1;
    }
    Ok(n)
}

#[test]
fn test_csv_query_support() {
    // name,age,city / Alice,30,New York / Bob,25,Los Angeles
    let data = QueryResult {
        columns: vec!["name".to_string(), "age".to_string(), "city".to_string()],
        rows: vec![
            vec!["Alice".to_string(), "30".to_string(), "New York".to_string()],
            vec!["Bob".to_string(), "25".to_string(), "Los Angeles".to_string()],
        ],
        total_rows: 2,
    };

    // Test that it supports queries now
    assert!(supports_custom_queries(FileType::Csv));

    // Test executing a basic query
    assert!(is_select("SELECT * FROM x"));
    let query_result = paginate_data(&data, 0, 10);
    assert_eq!(query_result.columns, vec!["name", "age", "city"]);
    assert_eq!(query_result.rows.len(), 2);
}

#[test]
fn data_source_test_table_alias_replacement() {
    // Test different query patterns with 'x' alias
    let test_queries = vec![
        ("SELECT name FROM x", "SELECT name FROM CSV Data"),
        ("SELECT * FROM x", "SELECT * FROM CSV Data"),
        ("SELECT x.name FROM x", "SELECT CSV Data.name FROM CSV Data"),
        ("SELECT COUNT(*)", "SELECT COUNT(*) FROM CSV Data"), // Should add FROM automatically
    ];

    for (query, expected) in test_queries {
        assert_eq!(replace_table_alias(query, "CSV Data"), expected);
        assert!(is_select(query));
    }
}

#[test]
fn database_test_table_alias_replacement() {
    // Create a temporary in-memory database for testing
    let conn = rusqlite::Connection::open_in_memory().unwrap();

    // Create a test table
    conn.execute("CREATE TABLE users (id INTEGER PRIMARY KEY, name TEXT, email TEXT)", [])
        .unwrap();

    // Insert some test data
    conn.execute("INSERT INTO users (name, email) VALUES ('Alice', 'alice@example.com')", [])
        .unwrap();
    conn.execute("INSERT INTO users (name, email) VALUES ('Bob', 'bob@example.com')", [])
        .unwrap();

    // Test cases for alias replacement
    let test_cases = vec![
        ("SELECT * FROM x", "SELECT rowid, * FROM users"),
        ("SELECT name FROM x", "SELECT name FROM users"),
        ("SELECT x.name FROM x", "SELECT users.name FROM users"),
        (
            "SELECT * FROM x WHERE x.name = 'Alice'",
            "SELECT rowid, * FROM users WHERE users.name = 'Alice'",
        ),
        ("SELECT COUNT(*) FROM x", "SELECT COUNT(*) FROM users"),
        ("SELECT name", "SELECT name FROM users"), // Test automatic FROM addition
    ];

    for (input_query, expected_processed) in test_cases {
        println!("Testing query: {} -> Expected: {}", input_query, expected_processed);
        let processed = prepare_query(input_query, "users");
        assert_eq!(processed, expected_processed);

        // If query executes without error, the alias replacement worked
        match run(&conn, &paginated_query(&processed, 10, 0)) {
            Ok(_) => println!("✓ Query executed successfully"),
            Err(e) => panic!("Query failed: {} (Input: {})", e, input_query),
        }
        assert!(run(&conn, &count_query(&processed)).is_ok());
    }
}

#[test]
fn test_table_alias_edge_cases() {
    let conn = rusqlite::Connection::open_in_memory().unwrap();

    // Create a test table
    conn.execute("CREATE TABLE my_table (id INTEGER PRIMARY KEY, value TEXT)", []).unwrap();

    conn.execute("INSERT INTO my_table (value) VALUES ('test1'), ('test2')", []).unwrap();

    // Test edge cases
    let edge_cases = vec![
        // Should NOT replace 'x' when it's part of another word
        ("SELECT value FROM my_table WHERE value LIKE '%text%'", true), // 'text' contains 'x' but shouldn't be replaced
        // Should replace 'x' when it's standalone
        ("SELECT * FROM x", true),
        ("SELECT value FROM x", true),
        // Should replace 'x' with punctuation
        ("SELECT x.value FROM my_table", true), // x.value should become my_table.value
        // Complex queries
        ("SELECT x.value FROM x WHERE x.id > 1", true),
        // Case sensitivity
        ("SELECT * FROM X", true),
    ];

    for (query, should_succeed) in edge_cases {
        let result = run(&conn, &paginated_query(&prepare_query(query, "my_table"), 10, 0));
        match (result.is_ok(), should_succeed) {
            (true, true) => println!("✓ Edge case passed: {}", query),
            (false, false) => println!("✓ Edge case correctly failed: {}", query),
            (actual, expected) => panic!(
                "Edge case failed: {} (expected: {}, got: {})",
                query, expected, actual
            ),
        }
    }
}

#[test]
fn the_alias_is_a_word_or_the_start_of_one() {
    assert_eq!(replace_table_alias("FROM x", "t"), "FROM t");
    assert_eq!(replace_table_alias("FROM X", "t"), "FROM t");
    assert_eq!(replace_table_alias("x.a, x.b FROM x;", "t"), "t.a, t.b FROM t;");
    assert_eq!(replace_table_alias("X.a FROM (x)", "t"), "t.a FROM (x)");
    // the second character is a letter or a digit: no alias
    assert_eq!(replace_table_alias("xa x1 xé FROM z", "t"), "xa x1 xé FROM z");
    assert_eq!(replace_table_alias("max(x) FROM z", "t"), "max(x) FROM z");
    assert_eq!(replace_table_alias("'x' FROM z", "t"), "'x' FROM z");
    // blanks between the words are brought down to one
    assert_eq!(replace_table_alias("  a \t b\nFROM   x ", "t"), "a b FROM t");
    // `from` in any case counts
    assert_eq!(replace_table_alias("select 1 from x", "t"), "select 1 from t");
    assert_eq!(replace_table_alias("select fromage", "t"), "select fromage");
    assert_eq!(replace_table_alias("", "t"), " FROM t");
    assert_eq!(replace_table_alias("x", "FROM"), "FROM");
}

#[test]
fn a_database_gets_the_row_identity_with_a_star() {
    assert_eq!(prepare_query("SELECT * FROM x", "t"), "SELECT rowid, * FROM t");
    // the test for `SELECT *` ignores the case, the replacement does not
    assert_eq!(prepare_query("select * from x", "t"), "select * from t");
    assert_eq!(
        prepare_query("SELECT * FROM (SELECT * FROM x)", "t"),
        "SELECT rowid, * FROM (SELECT rowid, * FROM t)"
    );
    assert_eq!(prepare_query("SELECT a FROM x", "t"), "SELECT a FROM t");
}

#[test]
fn queries_for_pages_and_counts() {
    assert_eq!(paginated_query("SELECT a FROM t", 25, 50), "SELECT a FROM t LIMIT 25 OFFSET 50");
    assert_eq!(paginated_query("", 0, 0), " LIMIT 0 OFFSET 0");
    assert_eq!(count_query("SELECT a FROM t"), "SELECT COUNT(*) FROM (SELECT a FROM t)");
    assert_eq!(table_page_query("users", 25, 0), "SELECT rowid, * FROM users LIMIT 25 OFFSET 0");
}

#[test]
fn which_sources_take_queries() {
    assert!(supports_custom_queries(FileType::Sqlite));
    assert!(supports_custom_queries(FileType::Csv));
    assert!(supports_custom_queries(FileType::Parquet));
    assert!(!supports_custom_queries(FileType::Xlsx));
    assert!(is_select("select 1"));
    assert!(is_select("  SeLeCt 1"));
    assert!(!is_select("DELETE FROM x"));
    assert!(!is_select(""));
}

fn word(w: &str, lower: &str, second_is_word_char: bool) -> String {
    let c = |t: &str| t.chars().collect::<Vec<char>>();
    word_for_table(&c(w), &c(lower), second_is_word_char, &c("t")).iter().collect()
}

#[test]
fn a_word_is_judged_by_its_lower_case_form_and_second_character() {
    assert_eq!(word("x", "x", false), "t");
    assert_eq!(word("X", "x", false), "t");
    assert_eq!(word("x.a", "x.a", false), "t.a");
    assert_eq!(word("X;", "x;", false), "t;");
    assert_eq!(word("xa", "xa", true), "xa");
    assert_eq!(word("x.a", "x.a", true), "x.a");
    assert_eq!(word("ax", "ax", false), "ax");
    assert_eq!(word("", "", false), "");
    // what the lower-case form is decides, also where it is not that of the word
    assert_eq!(word("Y", "x", false), "t");
    assert_eq!(word("y.a", "x.a", false), "t.a");
}

#[test]
fn the_rows_of_a_table_are_counted_by_a_query() {
    assert_eq!(table_query("users"), "SELECT rowid, * FROM users");
    assert_eq!(
        count_query(&table_query("users")),
        "SELECT COUNT(*) FROM (SELECT rowid, * FROM users)"
    );
    let conn = rusqlite::Connection::open_in_memory().unwrap();
    conn.execute("CREATE TABLE users (id INTEGER PRIMARY KEY, name TEXT)", []).unwrap();
    conn.execute("INSERT INTO users (name) VALUES ('a'), ('b'), ('c')", []).unwrap();
    let n: i64 =
        conn.query_row(&count_query(&table_query("users")), [], |row| row.get(0)).unwrap();
    assert_eq!(n, 3);
    assert_eq!(run(&conn, &table_page_query("users", 2, 0)).unwrap(), 2);
}
