use smdb_core::aggregate::gather_duplicates;
use smdb_core::aggregate::scan_status;
use smdb_core::aggregate::usize_to_string;
use smdb_core::compare::gather_compare_overlaps;
use smdb_core::config::Config;
use smdb_core::coordinator::DetectorChannel;
use smdb_core::record::FileRecord;
use smdb_core::record::Table;
use smdb_core::record::TableRow;
use smdb_core::removal::remove_duplicates;
use smdb_core::removal::RemovalSet;
use smdb_core::rules::TieBreakRule;

fn table(columns: &[&str], rows: &[(usize, &[&str])]) -> Table {
    Table {
        columns: columns.iter().map(|c| c.to_string()).collect(),
        rows: rows
            .iter()
            .map(|(id, vals)| TableRow {
                id: *id,
                values: vals.iter().map(|v| v.to_string()).collect(),
            })
            .collect(),
    }
}

fn rec(id: usize, name: &str) -> FileRecord {
    FileRecord {
        id,
        filename: name.to_string(),
        duration: "1".to_string(),
    }
}

#[test]
fn removal_set_dedups_by_id() {
    let mut s = RemovalSet::new();
    s.insert(rec(1, "a"));
    s.insert(rec(2, "b"));
    s.insert(rec(1, "a-again"));
    assert_eq!(s.len(), 2);
    assert!(s.contains_id(1));
    assert!(s.contains_id(2));
    assert!(!s.contains_id(3));
}

#[test]
fn merging_twice_equals_merging_once() {
    let mut s = RemovalSet::new();
    s.insert(rec(1, "a"));
    let mut part = RemovalSet::new();
    part.insert(rec(1, "a"));
    part.insert(rec(2, "b"));
    part.insert(rec(3, "c"));
    s.merge_from(&part);
    let after_once: Vec<usize> = s.items.iter().map(|r| r.id).collect();
    s.merge_from(&part);
    let after_twice: Vec<usize> = s.items.iter().map(|r| r.id).collect();
    assert_eq!(after_once, vec![1, 2, 3]);
    assert_eq!(after_twice, after_once);
}

#[test]
fn thinning_keeps_unflagged_rows() {
    let t = table(
        &["filename", "duration"],
        &[(1, &["a", "1"]), (2, &["b", "1"]), (3, &["c", "1"])],
    );
    let mut removal = RemovalSet::new();
    removal.insert(rec(2, "b"));
    let kept = remove_duplicates(&t, &removal);
    let kept_ids: Vec<usize> = kept.iter().map(|r| r.id).collect();
    assert_eq!(kept_ids, vec![1, 3]);
}

#[test]
fn comparison_matcher_exact_and_substring() {
    let t = table(
        &["filename", "duration"],
        &[(1, &["a.wav", "1"]), (2, &["b.wav", "1"]), (3, &["ab.wav", "1"])],
    );
    let other = table(&["filename", "duration"], &[(9, &["b.wav", "2"])]);
    let exact = gather_compare_overlaps(&t, &other, false);
    assert_eq!(exact.len(), 1);
    assert_eq!(exact[0].id, 2);
    // in substring mode "ab.wav" contains "b.wav" as well
    let contains = gather_compare_overlaps(&t, &other, true);
    let ids: Vec<usize> = contains.iter().map(|r| r.id).collect();
    assert_eq!(ids, vec![2, 3]);
    let other2 = table(&["filename", "duration"], &[(9, &["b.wav", "2"]), (10, &["a", "2"])]);
    let contains2 = gather_compare_overlaps(&t, &other2, true);
    let ids2: Vec<usize> = contains2.iter().map(|r| r.id).collect();
    assert_eq!(ids2, vec![1, 2, 3]);
}

#[test]
fn detector_channel_guards_dispatch() {
    let mut c = DetectorChannel::new();
    assert!(c.can_dispatch());
    assert!(c.try_dispatch());
    // a second dispatch while one is outstanding is refused
    assert!(!c.try_dispatch());
    let mut result = RemovalSet::new();
    result.insert(rec(5, "x"));
    c.complete(result);
    // the slot is full until drained, so dispatch is still refused
    assert!(!c.try_dispatch());
    let drained = c.drain().unwrap();
    assert_eq!(drained.len(), 1);
    assert!(c.drain().is_none());
    assert!(c.try_dispatch());
}

#[test]
fn full_scan_merges_detectors_once_per_id() {
    let t = table(
        &["filename", "duration"],
        &[
            (1, &["track-NORM_.wav", "10"]),
            (2, &["track-NORM_.wav", "20"]),
            (3, &["other.wav", "5"]),
        ],
    );
    let compare = table(&["filename", "duration"], &[(9, &["other.wav", "7"])]);
    let rules = vec![TieBreakRule::Column {
        name: "duration".to_string(),
        descending: true,
    }];
    let mut main = Config::new(true);
    let mut group = Config::new(false);
    let mut tags = Config::new(true);
    tags.search = true;
    tags.list = vec!["-NORM_".to_string()];
    let mut compare_db = Config::new(true);
    // row 1 is flagged by both the grouping engine and the tag
    // matcher; it counts once
    let total = gather_duplicates(
        &t,
        Some(&compare),
        &rules,
        false,
        &mut main,
        &mut group,
        &mut tags,
        &mut compare_db,
    );
    let ids: Vec<usize> = main.records.items.iter().map(|r| r.id).collect();
    assert_eq!(ids, vec![1, 2, 3]);
    assert_eq!(total, 3);
    assert_eq!(main.status, "Marked 3 total records for removal.");
    assert_eq!(tags.status, "Found 2 records with matching tags");
    assert!(!main.working && !tags.working && !compare_db.working);
}

#[test]
fn empty_scan_reports_no_records() {
    let t = table(&["filename", "duration"], &[(1, &["a.wav", "1"])]);
    let rules = vec![TieBreakRule::Column {
        name: "duration".to_string(),
        descending: true,
    }];
    let mut main = Config::new(true);
    let mut group = Config::new(false);
    let mut tags = Config::new(false);
    let mut compare_db = Config::new(false);
    let total = gather_duplicates(
        &t,
        None,
        &rules,
        false,
        &mut main,
        &mut group,
        &mut tags,
        &mut compare_db,
    );
    assert_eq!(total, 0);
    assert_eq!(main.status, "No records marked for removal.");
}

#[test]
fn missing_comparison_database_degrades_to_status() {
    let t = table(&["filename", "duration"], &[(1, &["a.wav", "1"])]);
    let rules: Vec<TieBreakRule> = Vec::new();
    let mut main = Config::new(true);
    let mut group = Config::new(false);
    let mut tags = Config::new(false);
    let mut compare_db = Config::new(true);
    let total = gather_duplicates(
        &t,
        None,
        &rules,
        false,
        &mut main,
        &mut group,
        &mut tags,
        &mut compare_db,
    );
    assert_eq!(total, 0);
    assert_eq!(group.status, "No tie-break rules configured");
    assert_eq!(compare_db.status, "Comparison database unavailable");
}

#[test]
fn empty_tag_list_is_a_configuration_fault() {
    let t = table(&["filename", "duration"], &[(1, &["a-NORM_.wav", "1"])]);
    let rules = vec![TieBreakRule::Column {
        name: "duration".to_string(),
        descending: true,
    }];
    let mut main = Config::new(false);
    let mut group = Config::new(false);
    let mut tags = Config::new(true);
    let mut compare_db = Config::new(false);
    let total = gather_duplicates(
        &t,
        None,
        &rules,
        false,
        &mut main,
        &mut group,
        &mut tags,
        &mut compare_db,
    );
    assert_eq!(total, 0);
    assert_eq!(tags.status, "No tags to search for");
    assert_eq!(main.status, "No records marked for removal.");
}

#[test]
fn empty_table_scans_clean() {
    let t = table(&["filename", "duration"], &[]);
    let rules = vec![TieBreakRule::Column {
        name: "duration".to_string(),
        descending: true,
    }];
    let mut main = Config::new(true);
    let mut group = Config::new(false);
    let mut tags = Config::new(true);
    tags.list = vec!["-NORM_".to_string()];
    let mut compare_db = Config::new(false);
    let total = gather_duplicates(
        &t,
        None,
        &rules,
        false,
        &mut main,
        &mut group,
        &mut tags,
        &mut compare_db,
    );
    assert_eq!(total, 0);
    assert_eq!(main.status, "No records marked for removal.");
    assert_eq!(tags.status, "Found 0 records with matching tags");
}

#[test]
fn text_search_handles_multibyte_characters() {
    assert!(smdb_core::text::str_contains("héllo wörld", "wö"));
    assert!(!smdb_core::text::str_contains("héllo", "e"));
    assert_eq!(smdb_core::text::replace_string("héllo", "é", "e"), "hello");
}

#[test]
fn decimal_rendering() {
    assert_eq!(usize_to_string(0), "0");
    assert_eq!(usize_to_string(7), "7");
    assert_eq!(usize_to_string(10), "10");
    assert_eq!(usize_to_string(90210), "90210");
    assert_eq!(scan_status(0), "No records marked for removal.");
    assert_eq!(scan_status(12), "Marked 12 total records for removal.");
}
