use farm_os::table_compare::{compare_keyed, compare_trays, tray_columns};
use farm_os::verify::{
    compare_event_log, decide_outcome, exclusion_list, farm_dir_verify, operator_details_text,
    print_exclusions, push_diff, replay_order, start_report, verify_replay_cli_error, verify_status_text, CompareReport,
    FieldDiff, KnownDivergence, VerifyOutcome,
};

fn empty_report() -> CompareReport {
    CompareReport {
        events_read: 0,
        events_replayed: 0,
        tables_compared: 0,
        rows_compared: 0,
        watermark: 0,
        live_max_seq: 0,
        flush_lag: 0,
        known_divergences: 0,
        matched_ledger: Vec::new(),
        unknown_diffs: Vec::new(),
        exclusions: Vec::new(),
    }
}

#[test]
fn decide_outcome_zero_rows_compared_is_fail() {
    let mut report = empty_report();
    report.events_read = 1;
    report.events_replayed = 1;
    report.tables_compared = 4;
    report.rows_compared = 0;
    let outcome = decide_outcome(report);
    assert!(matches!(outcome, VerifyOutcome::Fail { .. }));
    assert_eq!(outcome.summary_line(), "VERIFY-REPLAY: FAIL");
}

#[test]
fn decide_outcome_zero_events_replayed_is_fail() {
    let mut report = empty_report();
    report.tables_compared = 4;
    report.rows_compared = 10;
    let outcome = decide_outcome(report);
    assert!(matches!(outcome, VerifyOutcome::Fail { .. }));
}

#[test]
fn decide_outcome_nonzero_flush_lag_is_fail() {
    let mut report = empty_report();
    report.events_read = 1;
    report.events_replayed = 1;
    report.tables_compared = 4;
    report.rows_compared = 10;
    report.watermark = 5;
    report.live_max_seq = 7;
    report.flush_lag = 2;
    let outcome = decide_outcome(report);
    assert!(outcome.exit_nonzero());
    assert_eq!(
        outcome.summary_line(),
        "VERIFY-REPLAY: FAIL — 2 event(s) pending flush."
    );
}

fn working_report() -> CompareReport {
    let mut report = empty_report();
    report.events_read = 3;
    report.events_replayed = 3;
    report.tables_compared = 2;
    report.rows_compared = 3;
    report
}

fn ledger() -> Vec<KnownDivergence> {
    vec![KnownDivergence {
        id: "DL-001".to_string(),
        table: "orders".to_string(),
        pk: "o1".to_string(),
        column: "client_reference".to_string(),
        seq_range: "1-9".to_string(),
    }]
}

#[test]
fn clean_replay_passes_and_known_divergences_pass_with_a_note() {
    let outcome = decide_outcome(working_report());
    assert!(matches!(outcome, VerifyOutcome::Pass { .. }));
    assert!(!outcome.exit_nonzero());
    assert_eq!(outcome.summary_line(), "VERIFY-REPLAY: PASS");

    let mut report = working_report();
    report.known_divergences = 2;
    let outcome = decide_outcome(report);
    assert!(matches!(outcome, VerifyOutcome::PassWithKnown { .. }));
    assert_eq!(outcome.summary_line(), "VERIFY-REPLAY: PASS WITH 2 KNOWN DIVERGENCES");
    assert_eq!(outcome.report().known_divergences, 2);
}

#[test]
fn unexplained_difference_fails() {
    let mut report = working_report();
    report.unknown_diffs.push(FieldDiff {
        table: "trays".into(),
        key: "t1".into(),
        field: "state".into(),
        expected: "light".into(),
        actual: "blackout".into(),
    });
    let outcome = decide_outcome(report);
    assert!(outcome.exit_nonzero());
    assert_eq!(outcome.summary_line(), "VERIFY-REPLAY: FAIL");
}

#[test]
fn push_diff_counts_declared_divergences_once_and_keeps_the_rest() {
    let mut report = working_report();
    let led = ledger();
    push_diff(&mut report, &led, "orders", "o1", "client_reference", "x".into(), "x".into());
    assert_eq!(report.known_divergences, 0);
    push_diff(&mut report, &led, "orders", "o1", "client_reference", "cart".into(), "".into());
    push_diff(&mut report, &led, "orders", "o1", "client_reference", "cart".into(), "".into());
    assert_eq!(report.known_divergences, 2);
    assert_eq!(report.matched_ledger.len(), 1);
    assert_eq!(report.matched_ledger[0].id, "DL-001");
    assert!(report.unknown_diffs.is_empty());
    push_diff(&mut report, &led, "orders", "o2", "state", "paid".into(), "refunded".into());
    assert_eq!(report.unknown_diffs.len(), 1);
    assert_eq!(report.unknown_diffs[0].key, "o2");
    assert_eq!(report.unknown_diffs[0].expected, "paid");
    assert_eq!(report.unknown_diffs[0].actual, "refunded");
}

fn row(vals: &[&str]) -> Vec<String> {
    vals.iter().map(|s| s.to_string()).collect()
}

#[test]
fn compare_event_log_reports_row_counts_and_cells() {
    let mut report = empty_report();
    let led = Vec::new();
    let mut a = row(&["1", "e1", "tray.sown", "tray", "t1", "{}", "{}", "", "", "2026-01-01", "farm_os", "grow", "", ""]);
    let b = a.clone();
    let snap = vec![a.clone(), row(&["2", "e2"])];
    a[2] = "trays.advanced".to_string();
    let replay = vec![a];
    compare_event_log(&mut report, &led, &snap, &replay);
    assert_eq!(report.tables_compared, 1);
    assert_eq!(report.rows_compared, 2);
    assert_eq!(report.unknown_diffs.len(), 2);
    assert_eq!(report.unknown_diffs[0].field, "row_count");
    assert_eq!(report.unknown_diffs[0].expected, "2");
    assert_eq!(report.unknown_diffs[0].actual, "1");
    assert_eq!(report.unknown_diffs[1].key, "e1");
    assert_eq!(report.unknown_diffs[1].field, "kind");
    assert_eq!(report.unknown_diffs[1].expected, "tray.sown");
    assert_eq!(report.unknown_diffs[1].actual, "trays.advanced");
    let _ = b;
}

#[test]
fn exclusions_are_declared_every_run() {
    let mut out = String::new();
    print_exclusions(&mut out);
    assert!(out.starts_with("verify-replay exclusions (declared every run):\n"));
    assert_eq!(out.lines().count(), 6);
    assert!(out.contains("  - attention table — operator collateral"));
    assert_eq!(exclusion_list().len(), 5);
}

#[test]
fn status_file_and_operator_report_carry_the_counters() {
    let mut report = working_report();
    report.flush_lag = 1;
    report.watermark = 4;
    report.live_max_seq = 5;
    let outcome = decide_outcome(report);
    let status = verify_status_text("2026-08-05T12:00:00.000Z", &outcome, 3);
    assert!(status.starts_with("when=2026-08-05T12:00:00.000Z\nVERIFY-REPLAY: FAIL — 1 event(s) pending flush.\n"));
    assert!(status.contains("ledger_entries=3\n"));
    assert!(status.contains("FLUSH LAG: 1 event(s) pending\n"));
    assert!(status.contains("watermark=4\nlive_max_seq=5\nevents_read=3\n"));
    assert!(status.contains("matched_ledger:\n  (none)\n"));
    assert!(!status.contains("unexplained_divergences"));
    let details = operator_details_text(&outcome);
    assert!(details.starts_with("FLUSH LAG: 1 event(s) pending\n"));
    assert!(details.contains("Open Farm OS to flush, close it normally, and re-run.\n"));
    assert!(details.contains("matched ledger entries (0):\n  (none)\n"));
}

#[test]
fn cli_errors_name_the_stray_argument() {
    assert_eq!(verify_replay_cli_error(None), "Usage: verify_replay <farm-directory>");
    assert_eq!(
        verify_replay_cli_error(Some("--json")),
        "unexpected argument: --json\nUsage: verify_replay <farm-directory>"
    );
}

#[test]
fn farm_dir_needs_both_files() {
    assert_eq!(
        farm_dir_verify("/farm", false, true).unwrap_err(),
        "farm.db not found (looked in /farm)"
    );
    assert_eq!(
        farm_dir_verify("/farm", true, false).unwrap_err(),
        "events.jsonl not found (looked in /farm)"
    );
    assert!(farm_dir_verify("/farm", true, true).is_ok());
}

fn cells(v: &[&str]) -> Vec<String> {
    v.iter().map(|s| s.to_string()).collect()
}

#[test]
fn keyed_compare_matches_rows_by_key_in_key_order() {
    let cols = vec!["id", "state", "quantity"];
    let snap = vec![
        cells(&["t2", "light", "3"]),
        cells(&["t1", "sown", "1"]),
        cells(&["t4", "light", "2"]),
    ];
    let replay = vec![
        cells(&["t3", "light", "5"]),
        cells(&["t1", "sown", "2"]),
        cells(&["t2", "light", "3"]),
    ];
    let ledger = vec![KnownDivergence {
        id: "KD-1".into(),
        table: "trays".into(),
        pk: "t1".into(),
        column: "quantity".into(),
        seq_range: "1-2".into(),
    }];
    let mut report = empty_report();
    compare_keyed(&mut report, &ledger, "trays", "id", &cols, &snap, &replay).unwrap();
    assert_eq!(report.tables_compared, 1);
    assert_eq!(report.rows_compared, 3);
    assert_eq!(report.known_divergences, 1);
    assert_eq!(report.matched_ledger.len(), 1);
    let got: Vec<(String, String, String, String)> = report
        .unknown_diffs
        .iter()
        .map(|d| (d.key.clone(), d.field.clone(), d.expected.clone(), d.actual.clone()))
        .collect();
    assert_eq!(
        got,
        vec![
            ("t4".to_string(), "id".to_string(), "present".to_string(), "missing".to_string()),
            ("t3".to_string(), "id".to_string(), "missing".to_string(), "present".to_string()),
        ]
    );
}

#[test]
fn keyed_compare_refuses_a_key_outside_the_columns() {
    let cols = vec!["state", "quantity"];
    let mut report = empty_report();
    let err = compare_keyed(&mut report, &vec![], "trays", "id", &cols, &vec![], &vec![]).unwrap_err();
    assert_eq!(err, "internal error: pk id missing from column list for trays");
    assert_eq!(report.tables_compared, 1);
}

#[test]
fn tray_compare_reads_the_tray_columns() {
    assert_eq!(tray_columns().len(), 13);
    let mut row = vec![String::new(); 13];
    row[0] = "t1".into();
    row[2] = "light".into();
    let mut other = row.clone();
    other[2] = "harvested".into();
    let mut report = empty_report();
    compare_trays(&mut report, &vec![], &vec![row], &vec![other]);
    assert_eq!(report.unknown_diffs.len(), 1);
    assert_eq!(report.unknown_diffs[0].field, "state");
    assert_eq!(report.unknown_diffs[0].expected, "light");
    assert_eq!(report.unknown_diffs[0].actual, "harvested");
}

#[test]
fn identical_tables_report_nothing() {
    let cols = vec!["id", "state"];
    let rows = vec![cells(&["b", "light"]), cells(&["a", "sown"]), cells(&["a", "light"])];
    let mut report = empty_report();
    compare_keyed(&mut report, &vec![], "trays", "id", &cols, &rows, &rows.clone()).unwrap();
    assert_eq!(report.known_divergences, 0);
    assert!(report.unknown_diffs.is_empty());
    assert!(report.matched_ledger.is_empty());
    let log = vec![cells(&["1", "e1", "tray.sown"]), cells(&["2", "e2", "undo"])];
    let mut report = empty_report();
    compare_event_log(&mut report, &vec![], &log, &log.clone());
    assert!(report.unknown_diffs.is_empty());
    assert_eq!(report.rows_compared, 2);
}

#[test]
fn replay_order_is_by_seq_then_reading_order() {
    let order = replay_order(&vec![5, 2, 5, 1, 2]);
    assert_eq!(order, vec![3, 1, 4, 0, 2]);
    assert!(replay_order(&vec![]).is_empty());
}

#[test]
fn start_report_measures_the_flush_lag() {
    let r = start_report(7, 7, 5, 9);
    assert_eq!(r.flush_lag, 4);
    assert_eq!(r.events_read, 7);
    assert_eq!(r.exclusions, exclusion_list());
    let caught_up = start_report(7, 7, 9, 9);
    assert_eq!(caught_up.flush_lag, 0);
    let ahead = start_report(7, 7, 12, 9);
    assert_eq!(ahead.flush_lag, 0);
}
