//! What is done to a query before it is run.
//!
//! In a query the user writes `x` for the table on view. Each word of the
//! query that is `x`, or `x` followed by a character that is no letter or
//! digit, has the table's name written in the place of the `x`; the case of
//! the `x` does not count. The words are then joined by single blanks. A
//! query without `FROM` gets `FROM` and the table's name at its end.

use vstd::prelude::*;
use crate::file_reader::FileType;
use crate::text::{
    alphanumeric,
    append_chars,
    chars_of,
    contains_text,
    copy_range,
    decimal,
    decimal_chars,
    is_alphanumeric,
    join_words,
    joined,
    lowercase,
    occurs_in,
    replace_all,
    replaced,
    split_words,
    text_of,
    texts,
    to_lowercase,
    to_uppercase,
    uppercase,
    words,
};

verus! {

/// Whether the source kind takes queries.
pub open spec fn takes_queries(kind: FileType) -> bool {
    kind != FileType::Xlsx
}

/// Whether a source of this kind takes queries.
pub fn supports_custom_queries(kind: FileType) -> (r: bool)
    ensures
        r == takes_queries(kind),
{
    match kind {
        FileType::Xlsx => false,
        _ => true,
    }
}

/// Whether a word stands for the table: it is `x` in either case.
pub open spec fn is_alias(word: Seq<char>) -> bool {
    lowercase(word) == seq!['x']
}

/// Whether a word starts with the alias: its lower-case form starts with
/// `x`, and its second character is no letter or digit.
pub open spec fn starts_with_alias(word: Seq<char>) -> bool {
    lowercase(word).len() > 0 && lowercase(word)[0] == 'x' && word.len() > 1 && !alphanumeric(
        word[1],
    )
}

/// A word with the table's name in the place of the alias.
pub open spec fn word_with_table(word: Seq<char>, table: Seq<char>) -> Seq<char> {
    if is_alias(word) {
        table
    } else if starts_with_alias(word) {
        table + word.drop_first()
    } else {
        word
    }
}

/// Each word with the table's name in the place of the alias.
pub open spec fn words_with_table(ws: Seq<Seq<char>>, table: Seq<char>) -> Seq<Seq<char>> {
    Seq::new(ws.len(), |i: int| word_with_table(ws[i], table))
}

/// `FROM`
pub open spec fn from_word() -> Seq<char> {
    seq!['F', 'R', 'O', 'M']
}

/// The query with the table's name for the alias, and with `FROM` and the
/// table's name at the end where it had no `FROM`.
pub open spec fn with_table_name(query: Seq<char>, table: Seq<char>) -> Seq<char> {
    let q = joined(words_with_table(words(query), table));
    if occurs_in(uppercase(q), from_word()) {
        q
    } else {
        q + seq![' ', 'F', 'R', 'O', 'M', ' '] + table
    }
}

/// `SELECT *`
pub open spec fn select_all() -> Seq<char> {
    seq!['S', 'E', 'L', 'E', 'C', 'T', ' ', '*']
}

/// `SELECT rowid, *`
pub open spec fn select_all_with_rowid() -> Seq<char> {
    seq!['S', 'E', 'L', 'E', 'C', 'T', ' ', 'r', 'o', 'w', 'i', 'd', ',', ' ', '*']
}

/// The query as a database runs it: with the table's name, and with the row
/// identity in front of a `SELECT *`.
pub open spec fn database_query(query: Seq<char>, table: Seq<char>) -> Seq<char> {
    let q = with_table_name(query, table);
    if occurs_in(uppercase(q), select_all()) {
        replaced(q, select_all(), select_all_with_rowid())
    } else {
        q
    }
}

/// A query with the window of a page at its end.
pub open spec fn with_window(query: Seq<char>, limit: nat, offset: nat) -> Seq<char> {
    query + seq![' ', 'L', 'I', 'M', 'I', 'T', ' '] + decimal(limit) + seq![
        ' ',
        'O',
        'F',
        'F',
        'S',
        'E',
        'T',
        ' ',
    ] + decimal(offset)
}

/// The query that counts the rows of `query`.
pub open spec fn counting(query: Seq<char>) -> Seq<char> {
    seq![
        'S',
        'E',
        'L',
        'E',
        'C',
        'T',
        ' ',
        'C',
        'O',
        'U',
        'N',
        'T',
        '(',
        '*',
        ')',
        ' ',
        'F',
        'R',
        'O',
        'M',
        ' ',
        '(',
    ] + query + seq![')']
}

/// The query for one page of a table, row identity first.
pub open spec fn table_page(table: Seq<char>, limit: nat, offset: nat) -> Seq<char> {
    with_window(
        seq![
            'S',
            'E',
            'L',
            'E',
            'C',
            'T',
            ' ',
            'r',
            'o',
            'w',
            'i',
            'd',
            ',',
            ' ',
            '*',
            ' ',
            'F',
            'R',
            'O',
            'M',
            ' ',
        ] + table,
        limit,
        offset,
    )
}

/// `SELECT`
pub open spec fn select_word() -> Seq<char> {
    seq!['S', 'E', 'L', 'E', 'C', 'T']
}

fn literal(s: &str) -> (v: Vec<char>)
    ensures
        v@ == s@,
{
    chars_of(s)
}

fn replace_word(word: &Vec<char>, table: &Vec<char>) -> (r: Vec<char>)
    ensures
        r@ == word_with_table(word@, table@),
{
    let lower = chars_of(to_lowercase(text_of(word).as_str()).as_str());
    let second_is_word_char = word.len() > 1 && is_alphanumeric(word[1]);
    word_for_table(word, &lower, second_is_word_char, table)
}

/// A word with the table's name in the place of the alias, given the
/// word's lower-case form and whether its second character is a letter or
/// digit: the table's name for the word `x`; the table's name and what
/// follows the first character for a longer word that starts with `x` and
/// goes on with a character that is no letter or digit; else the word.
pub open spec fn word_given(
    word: Seq<char>,
    lower: Seq<char>,
    second_is_word_char: bool,
    table: Seq<char>,
) -> Seq<char> {
    if lower == seq!['x'] {
        table
    } else if lower.len() > 0 && lower[0] == 'x' && word.len() > 1 && !second_is_word_char {
        table + word.drop_first()
    } else {
        word
    }
}

/// `word` with the table's name in the place of the alias, given the word's
/// lower-case form `lower` and whether its second character is a letter or
/// digit.
pub fn word_for_table(
    word: &Vec<char>,
    lower: &Vec<char>,
    second_is_word_char: bool,
    table: &Vec<char>,
) -> (r: Vec<char>)
    ensures
        r@ == word_given(word@, lower@, second_is_word_char, table@),
{
    if lower.len() == 1 && lower[0] == 'x' {
        proof {
            assert(lower@ =~= seq!['x']);
        }
        copy_whole(table)
    } else {
        proof {
            assert(seq!['x'].len() == 1 && seq!['x'][0] == 'x');
        }
        if lower.len() > 0 && lower[0] == 'x' && word.len() > 1 && !second_is_word_char {
            let mut r = copy_whole(table);
            let rest = copy_range(word, 1, word.len());
            append_chars(&mut r, &rest);
            proof {
                assert(rest@ =~= word@.drop_first());
            }
            r
        } else {
            copy_whole(word)
        }
    }
}

fn copy_whole(v: &Vec<char>) -> (r: Vec<char>)
    ensures
        r@ == v@,
{
    let r = copy_range(v, 0, v.len());
    proof {
        assert(r@ =~= v@);
    }
    r
}

fn upper_has(q: &Vec<char>, pattern: &Vec<char>) -> (r: bool)
    ensures
        r == occurs_in(uppercase(q@), pattern@),
{
    let upper = chars_of(to_uppercase(text_of(q).as_str()).as_str());
    contains_text(&upper, pattern)
}

fn seq_from() -> (v: Vec<char>)
    ensures
        v@ == from_word(),
{
    let mut v: Vec<char> = Vec::new();
    v.push('F');
    v.push('R');
    v.push('O');
    v.push('M');
    proof {
        assert(v@ =~= from_word());
    }
    v
}

fn seq_select_all() -> (v: Vec<char>)
    ensures
        v@ == select_all(),
{
    let mut v: Vec<char> = Vec::new();
    v.push('S');
    v.push('E');
    v.push('L');
    v.push('E');
    v.push('C');
    v.push('T');
    v.push(' ');
    v.push('*');
    proof {
        assert(v@ =~= select_all());
    }
    v
}

fn seq_select() -> (v: Vec<char>)
    ensures
        v@ == select_word(),
{
    let mut v: Vec<char> = Vec::new();
    v.push('S');
    v.push('E');
    v.push('L');
    v.push('E');
    v.push('C');
    v.push('T');
    proof {
        assert(v@ =~= select_word());
    }
    v
}

fn with_alias_replaced(query: &Vec<char>, table: &Vec<char>) -> (r: Vec<char>)
    ensures
        r@ == with_table_name(query@, table@),
{
    let ws = split_words(query);
    let mut out: Vec<Vec<char>> = Vec::new();
    let mut i: usize = 0;
    while i < ws.len()
        invariant
            i <= ws.len(),
            out.len() == i,
            forall|k: int| 0 <= k < i ==> out[k]@ == word_with_table(ws[k]@, table@),
        decreases ws.len() - i,
    {
        out.push(replace_word(&ws[i], table));
        i += 1;
    }
    proof {
        assert(texts(out@) =~= words_with_table(texts(ws@), table@));
    }
    let mut q = join_words(&out);
    if !upper_has(&q, &seq_from()) {
        q.push(' ');
        q.push('F');
        q.push('R');
        q.push('O');
        q.push('M');
        q.push(' ');
        append_chars(&mut q, table);
        proof {
            assert(q@ =~= joined(words_with_table(words(query@), table@)) + seq![
                ' ',
                'F',
                'R',
                'O',
                'M',
                ' ',
            ] + table@);
        }
    }
    q
}

/// `query` with the table's name for the alias `x`, and with `FROM` and the
/// table's name at the end where it had no `FROM`.
pub fn replace_table_alias(query: &str, table_name: &str) -> (r: String)
    ensures
        r@ == with_table_name(query@, table_name@),
{
    text_of(&with_alias_replaced(&chars_of(query), &chars_of(table_name)))
}

fn database_chars(query: &Vec<char>, table: &Vec<char>) -> (r: Vec<char>)
    ensures
        r@ == database_query(query@, table@),
{
    let q = with_alias_replaced(query, table);
    let pattern = seq_select_all();
    if upper_has(&q, &pattern) {
        let to = literal("SELECT rowid, *");
        proof {
            reveal_strlit("SELECT rowid, *");
            assert(to@ =~= select_all_with_rowid());
        }
        replace_all(&q, &pattern, &to)
    } else {
        q
    }
}

/// `query` as a database runs it for `table_name`: with the table's name for
/// the alias, and with the row identity in front of a `SELECT *`.
pub fn prepare_query(query: &str, table_name: &str) -> (r: String)
    ensures
        r@ == database_query(query@, table_name@),
{
    text_of(&database_chars(&chars_of(query), &chars_of(table_name)))
}

fn window(query: &Vec<char>, limit: usize, offset: usize) -> (r: Vec<char>)
    ensures
        r@ == with_window(query@, limit as nat, offset as nat),
{
    let mut q = copy_whole(query);
    let a = literal(" LIMIT ");
    let b = literal(" OFFSET ");
    proof {
        reveal_strlit(" LIMIT ");
        reveal_strlit(" OFFSET ");
        assert(a@ =~= seq![' ', 'L', 'I', 'M', 'I', 'T', ' ']);
        assert(b@ =~= seq![' ', 'O', 'F', 'F', 'S', 'E', 'T', ' ']);
    }
    append_chars(&mut q, &a);
    append_chars(&mut q, &decimal_chars(limit as u64));
    append_chars(&mut q, &b);
    append_chars(&mut q, &decimal_chars(offset as u64));
    q
}

/// `query` with `LIMIT` and `OFFSET` for one page at its end.
pub fn paginated_query(query: &str, limit: usize, offset: usize) -> (r: String)
    ensures
        r@ == with_window(query@, limit as nat, offset as nat),
{
    text_of(&window(&chars_of(query), limit, offset))
}

/// The query that counts the rows that `query` gives.
pub fn count_query(query: &str) -> (r: String)
    ensures
        r@ == counting(query@),
{
    let mut q = literal("SELECT COUNT(*) FROM (");
    proof {
        reveal_strlit("SELECT COUNT(*) FROM (");
    }
    append_chars(&mut q, &chars_of(query));
    q.push(')');
    proof {
        assert(q@ =~= counting(query@));
    }
    text_of(&q)
}

/// The query for the page of `limit` rows of `table_name` from row `offset`
/// on, each row with its identity first.
pub fn table_page_query(table_name: &str, limit: usize, offset: usize) -> (r: String)
    ensures
        r@ == table_page(table_name@, limit as nat, offset as nat),
{
    let mut q = literal("SELECT rowid, * FROM ");
    proof {
        reveal_strlit("SELECT rowid, * FROM ");
    }
    append_chars(&mut q, &chars_of(table_name));
    proof {
        assert(q@ =~= seq![
            'S',
            'E',
            'L',
            'E',
            'C',
            'T',
            ' ',
            'r',
            'o',
            'w',
            'i',
            'd',
            ',',
            ' ',
            '*',
            ' ',
            'F',
            'R',
            'O',
            'M',
            ' ',
        ] + table_name@);
    }
    text_of(&window(&q, limit, offset))
}

/// The query for all rows of a table, each row with its identity first.
pub open spec fn table_rows(table: Seq<char>) -> Seq<char> {
    "SELECT rowid, * FROM "@ + table
}

/// The query for all rows of `table_name`, each row with its identity first.
/// With `count_query` it gives the number of rows of the table.
pub fn table_query(table_name: &str) -> (r: String)
    ensures
        r@ == table_rows(table_name@),
{
    crate::error::join2("SELECT rowid, * FROM ", table_name)
}

/// Whether a file source takes `query`: its upper-case form holds `SELECT`.
pub fn is_select(query: &str) -> (r: bool)
    ensures
        r == occurs_in(uppercase(query@), select_word()),
{
    upper_has(&chars_of(query), &seq_select())
}

} // verus!
