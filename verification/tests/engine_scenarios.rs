use smdb_core::grouping::gather_duplicate_filenames;
use smdb_core::grouping::Grouping;
use smdb_core::record::Table;
use smdb_core::record::TableRow;
use smdb_core::replace::count_matching;
use smdb_core::replace::ReplacePhase;
use smdb_core::replace::ReplaceSession;
use smdb_core::rules::TieBreakRule;
use smdb_core::tags::gather_tag_matches;

fn table(columns: &[&str], rows: &[(usize, &[&str])]) -> Table {
    Table {
        columns: columns.iter().map(|c| c.to_string()).collect(),
        rows: rows
            .iter()
            .map(|(id, vals)| TableRow {
                id: *id,
                values: vals.iter().map(|v| v.to_string()).collect(),
            })
            .collect(),
    }
}

#[test]
fn scenario_duration_tiebreak() {
    // two rows with the same filename; the longer duration wins
    let t = table(
        &["filename", "duration"],
        &[(1, &["track.wav", "100"]), (2, &["track.wav", "200"])],
    );
    let rules = vec![TieBreakRule::Column {
        name: "duration".to_string(),
        descending: true,
    }];
    let grouping = Grouping {
        column: None,
        include_null: false,
    };
    let flagged = gather_duplicate_filenames(&t, &rules, &grouping).unwrap();
    assert_eq!(flagged.len(), 1);
    assert_eq!(flagged[0].id, 1);
    assert_eq!(flagged[0].filename, "track.wav");
    assert_eq!(flagged[0].duration, "100");
}

#[test]
fn scenario_grouped_empty_value_excluded() {
    // grouping by Show with empty-group rows skipped: the empty-Show
    // row takes part in no group, so neither row is flagged
    let t = table(
        &["filename", "duration", "Show"],
        &[
            (1, &["a.wav", "10", "ShowOne"]),
            (2, &["a.wav", "10", ""]),
        ],
    );
    let rules = vec![TieBreakRule::Column {
        name: "duration".to_string(),
        descending: true,
    }];
    let grouping = Grouping {
        column: Some("Show".to_string()),
        include_null: false,
    };
    let flagged = gather_duplicate_filenames(&t, &rules, &grouping).unwrap();
    assert_eq!(flagged.len(), 0);
}

#[test]
fn scenario_grouped_empty_value_included() {
    // the same table with empty-group rows processed together: the
    // two rows fall into different groups (different Show values), so
    // still nothing is flagged; adding a second empty-Show row makes
    // a group of two
    let t = table(
        &["filename", "duration", "Show"],
        &[
            (1, &["a.wav", "10", ""]),
            (2, &["a.wav", "20", ""]),
        ],
    );
    let rules = vec![TieBreakRule::Column {
        name: "duration".to_string(),
        descending: true,
    }];
    let grouping = Grouping {
        column: Some("Show".to_string()),
        include_null: true,
    };
    let flagged = gather_duplicate_filenames(&t, &rules, &grouping).unwrap();
    assert_eq!(flagged.len(), 1);
    assert_eq!(flagged[0].id, 1);
}

#[test]
fn scenario_tag_hit_counted_once() {
    // a filename holding two of the tags appears once in the result
    let t = table(
        &["filename", "duration"],
        &[(7, &["fx-NORM_-GAIN_.wav", "5"]), (8, &["clean.wav", "5"])],
    );
    let tags = vec!["-NORM_".to_string(), "-GAIN_".to_string()];
    let found = gather_tag_matches(&t, &tags);
    assert_eq!(found.len(), 1);
    assert_eq!(found[0].id, 7);
}

#[test]
fn scenario_preview_confirm_replace() {
    // preview counts three matching rows; confirming updates them,
    // marks them dirty, and afterwards nothing matches any more
    let mut t = table(
        &["filename", "duration", "Filepath", "_Dirty"],
        &[
            (1, &["a.wav", "1", "OldA", "0"]),
            (2, &["b.wav", "1", "OldB", "0"]),
            (3, &["c.wav", "1", "keep", "0"]),
            (4, &["d.wav", "1", "OldD", "0"]),
        ],
    );
    let mut session = ReplaceSession::new();
    let count = session.preview(&t, "Old", "Filepath").unwrap();
    assert_eq!(count, 3);
    assert_eq!(session.phase, ReplacePhase::Previewed { count: 3 });
    let affected = session.confirm(&mut t, "New", true).unwrap();
    assert_eq!(affected, 3);
    assert_eq!(session.phase, ReplacePhase::Applied { affected: 3 });
    assert_eq!(t.rows[0].values[2], "NewA");
    assert_eq!(t.rows[0].values[3], "1");
    assert_eq!(t.rows[1].values[2], "NewB");
    assert_eq!(t.rows[1].values[3], "1");
    assert_eq!(t.rows[2].values[2], "keep");
    assert_eq!(t.rows[2].values[3], "0");
    assert_eq!(t.rows[3].values[2], "NewD");
    assert_eq!(t.rows[3].values[3], "1");
    assert_eq!(count_matching(&t, "Filepath", "Old").unwrap(), 0);
}

#[test]
fn scan_is_deterministic() {
    // the same table and rules flag the same rows, run after run
    let t = table(
        &["filename", "duration"],
        &[
            (1, &["x.wav", "10"]),
            (2, &["x.wav", "30"]),
            (3, &["x.wav", "20"]),
            (4, &["y.wav", "10"]),
        ],
    );
    let rules = vec![TieBreakRule::Column {
        name: "duration".to_string(),
        descending: true,
    }];
    let grouping = Grouping {
        column: None,
        include_null: false,
    };
    let first = gather_duplicate_filenames(&t, &rules, &grouping).unwrap();
    let second = gather_duplicate_filenames(&t, &rules, &grouping).unwrap();
    let first_ids: Vec<usize> = first.iter().map(|r| r.id).collect();
    let second_ids: Vec<usize> = second.iter().map(|r| r.id).collect();
    assert_eq!(first_ids, vec![1, 3]);
    assert_eq!(second_ids, vec![1, 3]);
}
