use smdb_core::error::EngineError;
use smdb_core::order::str_eq;
use smdb_core::order::str_lex_lt;
use smdb_core::record::Table;
use smdb_core::record::TableRow;
use smdb_core::replace::count_matching;
use smdb_core::replace::replace_substring;
use smdb_core::text::replace_string;
use smdb_core::text::str_contains;
use smdb_core::text::str_ends_with;

fn table(columns: &[&str], rows: &[(usize, &[&str])]) -> Table {
    Table {
        columns: columns.iter().map(|c| c.to_string()).collect(),
        rows: rows
            .iter()
            .map(|(id, vals)| TableRow {
                id: *id,
                values: vals.iter().map(|v| v.to_string()).collect(),
            })
            .collect(),
    }
}

#[test]
fn substring_search_is_case_sensitive() {
    assert!(str_contains("Audio Files", "Audio"));
    assert!(!str_contains("Audio Files", "audio"));
    assert!(str_contains("abc", ""));
    assert!(!str_contains("ab", "abc"));
    assert!(str_contains("aaab", "aab"));
}

#[test]
fn suffix_test() {
    assert!(str_ends_with("library.sqlite", ".sqlite"));
    assert!(!str_ends_with("library.sqlite.bak", ".sqlite"));
    assert!(!str_ends_with("a", ".sqlite"));
}

#[test]
fn lexicographic_order_by_code_point() {
    assert!(str_lex_lt("Description", "duration"));
    assert!(str_lex_lt("abc", "abd"));
    assert!(str_lex_lt("ab", "abc"));
    assert!(!str_lex_lt("abc", "abc"));
    assert!(str_eq("abc", "abc"));
    assert!(!str_eq("abc", "abd"));
}

#[test]
fn replacement_scans_left_to_right() {
    assert_eq!(replace_string("OldOld", "Old", "New"), "NewNew");
    assert_eq!(replace_string("xx", "Old", "New"), "xx");
    assert_eq!(replace_string("aaa", "aa", "b"), "ba");
    // an empty search text leaves the input unchanged
    assert_eq!(replace_string("abc", "", "z"), "abc");
    // replacement text is never rescanned
    assert_eq!(replace_string("ab", "ab", "abab"), "abab");
}

#[test]
fn count_then_replace_clears_disjoint_matches() {
    let mut t = table(
        &["filename", "duration", "note"],
        &[
            (1, &["a", "1", "Old road"]),
            (2, &["b", "1", "new road"]),
            (3, &["c", "1", "Old Old"]),
        ],
    );
    assert_eq!(count_matching(&t, "note", "Old").unwrap(), 2);
    let affected = replace_substring(&mut t, "note", "Old", "New", false).unwrap();
    assert_eq!(affected, 2);
    assert_eq!(t.rows[0].values[2], "New road");
    assert_eq!(t.rows[2].values[2], "New New");
    assert_eq!(count_matching(&t, "note", "Old").unwrap(), 0);
}

#[test]
fn count_never_grows_after_replace() {
    let mut t = table(
        &["filename", "duration", "note"],
        &[(1, &["a", "1", "aaa"]), (2, &["b", "1", "bbb"])],
    );
    let before = count_matching(&t, "note", "aa").unwrap();
    assert_eq!(before, 1);
    // the replacement text still contains the search text
    replace_substring(&mut t, "note", "aa", "ba", false).unwrap();
    let after = count_matching(&t, "note", "aa").unwrap();
    assert!(after <= before);
}

#[test]
fn unknown_column_is_a_query_error() {
    let t = table(&["filename", "duration"], &[(1, &["a", "1"])]);
    assert_eq!(
        count_matching(&t, "nosuch", "x").unwrap_err(),
        EngineError::Query
    );
    let mut t2 = table(&["filename", "duration"], &[(1, &["a", "1"])]);
    assert_eq!(
        replace_substring(&mut t2, "nosuch", "x", "y", false).unwrap_err(),
        EngineError::Query
    );
    // marking dirty needs the internal dirty column
    assert_eq!(
        replace_substring(&mut t2, "filename", "a", "b", true).unwrap_err(),
        EngineError::Query
    );
    assert_eq!(t2.rows[0].values[0], "a");
}

#[test]
fn visible_columns_sorted_without_internal() {
    let t = table(
        &["filename", "_Dirty", "Show", "duration", "Description"],
        &[],
    );
    let cols = t.visible_columns();
    assert_eq!(
        cols,
        vec![
            "Description".to_string(),
            "Show".to_string(),
            "duration".to_string(),
            "filename".to_string()
        ]
    );
}

#[test]
fn wrong_schema_is_a_connection_error() {
    let bad = table(&["name", "length"], &[(1, &["a", "1"])]);
    assert!(!smdb_core::record::check_table(&bad));
    assert_eq!(
        smdb_core::record::require_schema(&bad).unwrap_err(),
        EngineError::Connection
    );
    // a duplicated row id is refused too
    let dup = table(&["filename", "duration"], &[(1, &["a", "1"]), (1, &["b", "2"])]);
    assert_eq!(
        smdb_core::record::require_schema(&dup).unwrap_err(),
        EngineError::Connection
    );
    let good = table(&["filename", "duration"], &[(1, &["a", "1"])]);
    assert_eq!(smdb_core::record::require_schema(&good), Ok(()));
}

#[test]
fn row_count_and_fetch() {
    let t = table(
        &["filename", "duration"],
        &[(1, &["alpha.wav", "10"]), (2, &["beta.wav", "20"])],
    );
    assert_eq!(t.row_count(), 2);
    let found = t.fetch_by_filename_substring("eta");
    assert_eq!(found.len(), 1);
    assert_eq!(found[0].id, 2);
    assert_eq!(found[0].filename, "beta.wav");
    assert_eq!(found[0].duration, "20");
    assert_eq!(t.column_index("duration"), Some(1));
    assert_eq!(t.column_index("nosuch"), None);
}
