use smdb_core::app_state::validate_db_path;
use smdb_core::app_state::Panel;
use smdb_core::app_state::TemplateApp;
use smdb_core::error::EngineError;
use smdb_core::grouping::gather_duplicate_filenames;
use smdb_core::grouping::Grouping;
use smdb_core::presets::default_order;
use smdb_core::presets::default_order_rules;
use smdb_core::presets::default_tags;
use smdb_core::presets::tjf_order;
use smdb_core::presets::tjf_order_rules;
use smdb_core::presets::tjf_tags;
use smdb_core::record::Table;
use smdb_core::record::TableRow;
use smdb_core::replace::ReplacePhase;
use smdb_core::replace::ReplaceSession;
use smdb_core::rules::TieBreakRule;

fn table(columns: &[&str], rows: &[(usize, &[&str])]) -> Table {
    Table {
        columns: columns.iter().map(|c| c.to_string()).collect(),
        rows: rows
            .iter()
            .map(|(id, vals)| TableRow {
                id: *id,
                values: vals.iter().map(|v| v.to_string()).collect(),
            })
            .collect(),
    }
}

#[test]
fn preset_lists_have_the_stock_contents() {
    let tags = default_tags();
    assert_eq!(tags.len(), 44);
    assert_eq!(tags[0], "-6030_");
    assert_eq!(tags[15], "-GAIN_");
    assert_eq!(tags[17], "-NORM_");
    assert_eq!(tags[43], "-ZXN5_");
    let tjf = tjf_tags();
    assert_eq!(tjf.len(), 48);
    assert_eq!(tjf[44], ".new.");
    assert_eq!(tjf[47], ".wav.");
    let order = default_order();
    assert_eq!(order.len(), 12);
    assert_eq!(order[6], "duration DESC");
    assert_eq!(
        order[0],
        "CASE WHEN Description IS NOT NULL AND Description != '' THEN 0 ELSE 1 END ASC"
    );
    let tjf_o = tjf_order();
    assert_eq!(tjf_o.len(), 22);
    assert_eq!(
        tjf_o[0],
        "CASE WHEN pathname LIKE '%TJF RECORDINGS%' THEN 0 ELSE 1 END ASC"
    );
}

#[test]
fn preset_rules_match_their_text_form() {
    let rules = default_order_rules();
    assert_eq!(rules.len(), 12);
    match &rules[0] {
        TieBreakRule::NonEmptyFirst { name } => assert_eq!(name, "Description"),
        _ => panic!("first stock rule prefers a filled Description"),
    }
    match &rules[6] {
        TieBreakRule::Column { name, descending } => {
            assert_eq!(name, "duration");
            assert!(*descending);
        }
        _ => panic!("seventh stock rule orders by duration"),
    }
    match &rules[1] {
        TieBreakRule::Prefer {
            name,
            pattern,
            matching_first,
        } => {
            assert_eq!(name, "pathname");
            assert_eq!(pattern, "Audio Files");
            assert!(!*matching_first);
        }
        _ => panic!("second stock rule avoids Audio Files paths"),
    }
    assert_eq!(tjf_order_rules().len(), 22);
}

#[test]
fn stock_rules_run_against_a_table() {
    // with the stock rules, a filled Description outranks an empty
    // one before duration is even consulted
    let t = table(
        &[
            "filename",
            "duration",
            "pathname",
            "Description",
            "channels",
            "sampleRate",
            "bitDepth",
            "BWDate",
            "scannedDate",
        ],
        &[
            (1, &["a.wav", "90", "/x", "", "2", "48000", "16", "2020", "2021"]),
            (2, &["a.wav", "10", "/x", "boom", "2", "48000", "16", "2020", "2021"]),
        ],
    );
    let grouping = Grouping {
        column: None,
        include_null: false,
    };
    let flagged = gather_duplicate_filenames(&t, &default_order_rules(), &grouping).unwrap();
    assert_eq!(flagged.len(), 1);
    assert_eq!(flagged[0].id, 1);
}

#[test]
fn engine_rejects_empty_and_unknown_rules() {
    let t = table(&["filename", "duration"], &[(1, &["a.wav", "1"])]);
    let grouping = Grouping {
        column: None,
        include_null: false,
    };
    let empty: Vec<TieBreakRule> = Vec::new();
    assert_eq!(
        gather_duplicate_filenames(&t, &empty, &grouping).unwrap_err(),
        EngineError::Configuration
    );
    let unknown = vec![TieBreakRule::Column {
        name: "nosuch".to_string(),
        descending: false,
    }];
    assert_eq!(
        gather_duplicate_filenames(&t, &unknown, &grouping).unwrap_err(),
        EngineError::Query
    );
    let bad_group = Grouping {
        column: Some("nosuch".to_string()),
        include_null: false,
    };
    let ok_rule = vec![TieBreakRule::Column {
        name: "duration".to_string(),
        descending: false,
    }];
    assert_eq!(
        gather_duplicate_filenames(&t, &ok_rule, &bad_group).unwrap_err(),
        EngineError::Query
    );
}

#[test]
fn defaults_and_resets() {
    let app = TemplateApp::default();
    assert_eq!(app.total_records, 0);
    assert_eq!(app.column, "Filepath");
    assert!(app.dirty);
    assert!(app.main.search);
    assert!(!app.group.search);
    assert_eq!(app.group.option.as_deref(), Some("Show"));
    assert_eq!(app.tags.option.as_deref(), Some("-"));
    assert_eq!(app.main.list, default_order());
    assert_eq!(app.tags.list, default_tags());
    assert!(matches!(app.my_panel, Panel::Duplicates));

    let mut app2 = TemplateApp::default();
    app2.total_records = 99;
    app2.reset_to_defaults(Some("db.sqlite".to_string()));
    assert_eq!(app2.total_records, 0);
    assert_eq!(app2.main.option.as_deref(), Some("db.sqlite"));
    assert_eq!(app2.main.list, default_order());

    let mut app3 = TemplateApp::default();
    app3.reset_to_TJFdefaults(None);
    assert_eq!(app3.main.list, tjf_order());
    assert_eq!(app3.tags.list, tjf_tags());
    assert!(app3.main.option.is_none());
}

#[test]
fn order_editor_moves_lines() {
    let mut app = TemplateApp::default();
    app.main.list = vec!["a".to_string(), "b".to_string(), "c".to_string()];
    app.sel_line = Some(1);
    app.move_selected_up();
    assert_eq!(app.main.list, vec!["b", "a", "c"]);
    assert_eq!(app.sel_line, Some(0));
    app.move_selected_up();
    assert_eq!(app.main.list, vec!["b", "a", "c"]);
    app.sel_line = Some(1);
    app.move_selected_down();
    assert_eq!(app.main.list, vec!["b", "c", "a"]);
    assert_eq!(app.sel_line, Some(2));
    app.move_selected_down();
    assert_eq!(app.main.list, vec!["b", "c", "a"]);
    app.remove_selected_line();
    assert_eq!(app.main.list, vec!["b", "c"]);
    assert_eq!(app.sel_line, None);
    app.new_line = "front".to_string();
    app.add_order_line();
    assert_eq!(app.main.list, vec!["front", "b", "c"]);
    assert_eq!(app.new_line, "");
    app.add_order_line();
    assert_eq!(app.main.list, vec!["front", "b", "c"]);
}

#[test]
fn order_text_editor_round_trips() {
    let mut app = TemplateApp::default();
    app.main.list = vec!["duration DESC".to_string(), "channels DESC".to_string()];
    app.open_order_text_editor();
    assert!(matches!(app.my_panel, Panel::OrderText));
    assert_eq!(app.order_text, "duration DESC\nchannels DESC");
    app.order_text = "one\ntwo\nthree".to_string();
    app.save_order_text();
    assert!(matches!(app.my_panel, Panel::Order));
    assert_eq!(app.main.list, vec!["one", "two", "three"]);
    // a trailing newline closes the last line instead of adding an
    // empty one
    app.order_text = "solo\n".to_string();
    app.save_order_text();
    assert_eq!(app.main.list, vec!["solo"]);
    app.order_text = String::new();
    app.save_order_text();
    assert!(app.main.list.is_empty());
}

#[test]
fn tag_editor_adds_and_removes() {
    let mut app = TemplateApp::default();
    app.tags.list = vec!["x".to_string(), "y".to_string(), "z".to_string()];
    app.new_tag = "w".to_string();
    app.add_tag();
    assert_eq!(app.tags.list, vec!["x", "y", "z", "w"]);
    assert_eq!(app.new_tag, "");
    app.sel_tags = vec![0, 2];
    app.remove_selected_tags();
    assert_eq!(app.tags.list, vec!["y", "w"]);
    assert!(app.sel_tags.is_empty());
}

#[test]
fn db_path_needs_the_database_extension() {
    assert_eq!(
        validate_db_path(Some("sounds.sqlite".to_string())).as_deref(),
        Some("sounds.sqlite")
    );
    assert_eq!(validate_db_path(Some("sounds.wav".to_string())), None);
    assert_eq!(validate_db_path(None), None);
}

#[test]
fn apply_db_info_sets_count_and_columns() {
    let mut app = TemplateApp::default();
    app.apply_db_info(3, vec!["Show".to_string(), "duration".to_string()]);
    assert_eq!(app.total_records, 3);
    assert_eq!(app.group.list, vec!["Show", "duration"]);
}

#[test]
fn confirm_without_preview_is_refused() {
    let mut t = table(
        &["filename", "duration", "note"],
        &[(1, &["a", "1", "Old"])],
    );
    let mut session = ReplaceSession::new();
    assert_eq!(
        session.confirm(&mut t, "New", false).unwrap_err(),
        EngineError::Configuration
    );
    assert_eq!(t.rows[0].values[2], "Old");
    // a preview that found nothing cannot be confirmed either
    assert_eq!(session.preview(&t, "zzz", "note").unwrap(), 0);
    assert_eq!(session.phase, ReplacePhase::Previewed { count: 0 });
    assert_eq!(
        session.confirm(&mut t, "New", false).unwrap_err(),
        EngineError::Configuration
    );
    session.cancel();
    assert_eq!(session.phase, ReplacePhase::Idle);
    // an unknown column leaves the session idle
    assert_eq!(
        session.preview(&t, "x", "nosuch").unwrap_err(),
        EngineError::Query
    );
    assert_eq!(session.phase, ReplacePhase::Idle);
}

#[test]
fn tag_order_does_not_matter() {
    let t = table(
        &["filename", "duration"],
        &[
            (1, &["x-GAIN_.wav", "1"]),
            (2, &["y-NORM_.wav", "1"]),
            (3, &["plain.wav", "1"]),
        ],
    );
    let forward = vec!["-NORM_".to_string(), "-GAIN_".to_string()];
    let backward = vec!["-GAIN_".to_string(), "-NORM_".to_string()];
    let a: Vec<usize> = smdb_core::tags::gather_tag_matches(&t, &forward)
        .iter()
        .map(|r| r.id)
        .collect();
    let b: Vec<usize> = smdb_core::tags::gather_tag_matches(&t, &backward)
        .iter()
        .map(|r| r.id)
        .collect();
    assert_eq!(a, vec![1, 2]);
    assert_eq!(a, b);
}
