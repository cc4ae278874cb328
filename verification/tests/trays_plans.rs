use farm_os::trays::{
    advance_items, check_harvest_group, is_active_state, plan_harvest, plan_discard_tray, date_col_for_state, next_state, plan_advance,
    plan_consume, plan_discard_from_group, plan_recount, plan_today, plan_undo,
    recount_crop, remaining_group, sort_shelf, undo_result, CropMeta, CropRef, DiscardInverse,
    RecountEntry, RecountInverse, TrayRow,
};

fn row(id: &str, crop: &str, state: &str, qty: i64, sown: Option<&str>) -> TrayRow {
    TrayRow {
        id: id.to_string(),
        crop_id: crop.to_string(),
        crop_name: format!("{crop} name"),
        state: state.to_string(),
        quantity: qty,
        sown_on: sown.map(|s| s.to_string()),
        blackout_on: None,
        light_on: None,
        expected_harvest_date: None,
        cover_check_date: None,
    }
}

#[test]
fn next_state_walks_the_life_of_a_tray() {
    assert_eq!(next_state("planned").unwrap(), "sown");
    assert_eq!(next_state("sown").unwrap(), "blackout");
    assert_eq!(next_state("blackout").unwrap(), "light");
    assert_eq!(next_state("light").unwrap(), "harvested");
    assert_eq!(
        next_state("harvested").unwrap_err(),
        "cannot advance from terminal state 'harvested'"
    );
    assert_eq!(
        next_state("discarded").unwrap_err(),
        "cannot advance from terminal state 'discarded'"
    );
    assert_eq!(next_state("wilted").unwrap_err(), "unknown state 'wilted'");
}

#[test]
fn date_columns_follow_the_state() {
    assert_eq!(date_col_for_state("light"), Some("light_on"));
    assert_eq!(date_col_for_state("harvested"), Some("harvested_on"));
    assert_eq!(date_col_for_state("discarded"), Some("discarded_on"));
    assert_eq!(date_col_for_state("compost"), None);
}

#[test]
fn advance_plan_and_its_inverse() {
    let p = plan_advance("t1", "blackout").unwrap();
    assert_eq!(p.to, "light");
    assert_eq!(p.date_col, "light_on");
    assert_eq!(p.from, "blackout");
    assert_eq!(
        plan_advance("t1", "harvested").unwrap_err(),
        "cannot advance from terminal state 'harvested'"
    );
    let (items, inverse) = advance_items(&vec![p], "2025-03-04");
    assert_eq!(items.len(), 1);
    assert_eq!(items[0].tray_id, "t1");
    assert_eq!(items[0].on, "2025-03-04");
    assert_eq!(inverse[0].state, "blackout");
    assert_eq!(inverse[0].clear, vec!["light_on".to_string()]);
}

#[test]
fn shelf_sort_is_oldest_sowing_first_then_id() {
    let rows = vec![
        row("b", "kale", "light", 1, Some("2025-03-02")),
        row("c", "kale", "light", 1, None),
        row("a", "kale", "light", 1, Some("2025-03-02")),
        row("d", "kale", "light", 1, Some("2025-03-01")),
    ];
    let ids: Vec<String> = sort_shelf(rows).into_iter().map(|r| r.id).collect();
    assert_eq!(ids, vec!["c", "d", "a", "b"]);
}

#[test]
fn consume_splits_the_last_row_it_touches() {
    let rows = vec![
        row("a", "kale", "light", 2, Some("2025-03-01")),
        row("b", "kale", "light", 3, Some("2025-03-02")),
    ];
    let (items, inverse) = plan_consume(&rows, 4, "2025-03-09", "split-1").unwrap();
    assert_eq!(items.len(), 2);
    assert_eq!(items.iter().map(|i| i.consumed).sum::<i64>(), 4);
    assert_eq!(items[0].consumed, 2);
    assert_eq!(items[0].split_tray_id, None);
    assert_eq!(items[1].consumed, 2);
    assert_eq!(items[1].split_tray_id.as_deref(), Some("split-1"));
    match &inverse[1] {
        DiscardInverse::Unsplit { source_tray_id, restore_quantity, delete_tray_id } => {
            assert_eq!(source_tray_id, "b");
            assert_eq!(*restore_quantity, 3);
            assert_eq!(delete_tray_id, "split-1");
        }
        other => panic!("unexpected inverse {other:?}"),
    }
    let err = plan_consume(&rows, 7, "2025-03-09", "split-1").unwrap_err();
    assert_eq!(err, "could not consume full quantity; 2 left unmatched");
}

#[test]
fn group_discard_takes_oldest_first_and_checks_the_group() {
    let ids = vec!["b".to_string(), "a".to_string()];
    let rows = vec![
        row("b", "kale", "light", 2, Some("2025-03-02")),
        row("a", "kale", "light", 1, Some("2025-03-01")),
    ];
    let plan = plan_discard_from_group(&ids, rows, 2, "2025-03-09", "s1").unwrap();
    assert_eq!(plan.crop_id, "kale");
    assert_eq!(plan.items.len(), 2);
    assert_eq!(plan.items[0].tray_id, "a");
    assert_eq!(plan.items[0].consumed, 1);
    assert_eq!(plan.items[1].tray_id, "b");
    assert_eq!(plan.items[1].consumed, 1);
    assert_eq!(plan.items[1].split_tray_id.as_deref(), Some("s1"));

    let rows = vec![
        row("b", "kale", "light", 2, Some("2025-03-02")),
        row("a", "kale", "light", 1, Some("2025-03-01")),
    ];
    let err = plan_discard_from_group(&ids, rows, 4, "2025-03-09", "s1").unwrap_err();
    assert_eq!(err, "quantity 4 exceeds group total 3");

    let rows = vec![
        row("b", "kale", "light", 2, None),
        row("a", "peas", "light", 1, None),
    ];
    let err = plan_discard_from_group(&ids, rows, 1, "2025-03-09", "s1").unwrap_err();
    assert_eq!(err, "discard_from_group trayIds must share one crop");

    let rows = vec![
        row("b", "kale", "blackout", 2, None),
        row("a", "kale", "light", 1, None),
    ];
    let err = plan_discard_from_group(&ids, rows, 1, "2025-03-09", "s1").unwrap_err();
    assert_eq!(err, "cannot discard_from_group from state 'blackout'; expected 'light'");

    let rows = vec![
        row("b", "kale", "light", 2, None),
        row("a", "kale", "light", 1, None),
    ];
    let err = plan_discard_from_group(&ids, rows, 0, "2025-03-09", "s1").unwrap_err();
    assert_eq!(err, "quantity must be >= 1");
}

#[test]
fn recount_brings_each_crop_to_the_counted_number() {
    let crops = vec![
        CropRef { id: "kale".into(), name: "Kale".into() },
        CropRef { id: "peas".into(), name: "Dun Peas".into() },
        CropRef { id: "radish".into(), name: "Radish".into() },
    ];
    let entries = vec![
        RecountEntry { crop_id: "kale".into(), counted_quantity: 1 },
        RecountEntry { crop_id: "peas".into(), counted_quantity: 4 },
        RecountEntry { crop_id: "radish".into(), counted_quantity: 2 },
    ];
    let rows = vec![
        vec![row("k1", "kale", "light", 3, Some("2025-03-01"))],
        vec![row("p1", "peas", "blackout", 2, Some("2025-03-03"))],
        vec![row("r1", "radish", "light", 2, Some("2025-03-01"))],
    ];
    let fresh = vec!["n1".to_string(), "n2".to_string(), "n3".to_string()];
    let plan = plan_recount(&crops, &entries, &rows, "2025-03-09", &fresh).unwrap();
    assert!(plan.any_change);
    assert_eq!(plan.crops[0].delta, -2);
    assert_eq!(plan.crops[0].items.len(), 1);
    assert_eq!(plan.crops[0].items[0].consumed, 2);
    assert_eq!(plan.crops[1].delta, 2);
    let surplus = plan.crops[1].surplus.as_ref().unwrap();
    assert_eq!(surplus.new_tray_id, "n2");
    assert_eq!(surplus.state, "blackout");
    assert_eq!(plan.crops[2].delta, 0);
    assert_eq!(plan.result.unchanged, 1);
    assert_eq!(plan.result.adjusted_down.len(), 1);
    assert_eq!(plan.result.adjusted_down[0].crop_name, "Kale");
    assert_eq!(plan.result.adjusted_down[0].quantity, 2);
    assert_eq!(plan.result.adjusted_up[0].crop_name, "Dun Peas");
    assert_eq!(plan.result.adjusted_up[0].quantity, 2);
    assert!(plan
        .inverse
        .iter()
        .any(|i| matches!(i, RecountInverse::DeleteTray { tray_id } if tray_id == "n2")));
}

#[test]
fn recount_refuses_before_planning_anything() {
    let crops = vec![CropRef { id: "kale".into(), name: "Kale".into() }];
    let fresh = vec!["n1".to_string()];
    let entries = vec![RecountEntry { crop_id: "kale".into(), counted_quantity: -1 }];
    let err = plan_recount(&crops, &entries, &vec![vec![]], "2025-03-09", &fresh).unwrap_err();
    assert_eq!(err, "counted quantity cannot be negative");
    let entries = vec![RecountEntry { crop_id: "chard".into(), counted_quantity: 1 }];
    let err = plan_recount(&crops, &entries, &vec![vec![]], "2025-03-09", &fresh).unwrap_err();
    assert_eq!(err, "unknown crop: chard");
    let entries = vec![RecountEntry { crop_id: "kale".into(), counted_quantity: 2 }];
    let err = plan_recount(&crops, &entries, &vec![vec![]], "2025-03-09", &fresh).unwrap_err();
    assert_eq!(err, "cannot add trays for Kale: no active row to inherit from");
    let entries = vec![RecountEntry { crop_id: "kale".into(), counted_quantity: 0 }];
    let plan = plan_recount(&crops, &entries, &vec![vec![]], "2025-03-09", &fresh).unwrap();
    assert!(!plan.any_change);
    assert_eq!(plan.result.unchanged, 1);
}

#[test]
fn today_view_sums_and_groups() {
    let mut a = row("a", "kale", "light", 2, Some("2025-03-01"));
    a.expected_harvest_date = Some("2025-03-09".into());
    let mut b = row("b", "peas", "light", 3, Some("2025-03-01"));
    b.expected_harvest_date = Some("2025-03-08".into());
    let mut c = row("c", "kale", "blackout", 1, Some("2025-03-09"));
    c.cover_check_date = Some("2025-03-12".into());
    let mut d = row("d", "radish", "blackout", 4, Some("2025-03-05"));
    d.cover_check_date = Some("2025-03-09".into());
    let meta = vec![
        CropMeta { id: "kale".into(), name: "Kale".into(), sort_order: 2 },
        CropMeta { id: "peas".into(), name: "Dun Peas".into(), sort_order: 1 },
    ];
    let plan = plan_today(&vec![a, b, c, d], &meta, "2025-03-09");
    assert_eq!(plan.active_tray_count, 10);
    assert!(plan.sown_today);
    let m = plan.move_to_light.unwrap();
    assert_eq!(m.tray_ids, vec!["d".to_string()]);
    assert_eq!(m.tray_count, 4);
    assert_eq!(plan.harvests.len(), 2);
    assert_eq!(plan.harvests[0].crop_id, "peas");
    assert_eq!(plan.harvests[0].crop_name, "Dun Peas");
    assert_eq!(plan.harvests[1].crop_id, "kale");
    let tally = plan.harvest_tally.unwrap();
    assert_eq!(tally.tray_count, 5);
    assert_eq!(tally.variety_count, 2);
    assert_eq!(tally.single_crop_name, None);
    let next = plan.next_event.unwrap();
    assert_eq!(next.kind, "light");
    assert_eq!(next.date, "2025-03-12");
    assert_eq!(next.tray_count, 1);
}

#[test]
fn today_view_of_an_empty_shelf() {
    let plan = plan_today(&vec![], &vec![], "2025-03-09");
    assert_eq!(plan.active_tray_count, 0);
    assert!(!plan.sown_today);
    assert!(plan.move_to_light.is_none());
    assert!(plan.harvests.is_empty());
    assert!(plan.harvest_tally.is_none());
    assert!(plan.next_event.is_none());
}

#[test]
fn harvest_group_check_names_the_first_problem() {
    let ok = vec![
        Ok(row("a", "kale", "light", 2, None)),
        Ok(row("b", "kale", "light", 1, None)),
    ];
    assert_eq!(check_harvest_group(&ok, true).unwrap(), 3);
    assert_eq!(
        check_harvest_group(&ok, false).unwrap_err(),
        "actual_yield_oz must be > 0"
    );
    assert_eq!(
        check_harvest_group(&vec![], true).unwrap_err(),
        "harvest group requires at least one tray"
    );
    let bad = vec![
        Ok(row("a", "kale", "blackout", 2, None)),
        Err("tray not found: b".to_string()),
    ];
    assert_eq!(
        check_harvest_group(&bad, true).unwrap_err(),
        "cannot harvest from state 'blackout'; expected 'light'"
    );
    let missing = vec![Err("tray not found: b".to_string())];
    assert_eq!(check_harvest_group(&missing, true).unwrap_err(), "tray not found: b");
    let zero = vec![Ok(row("a", "kale", "light", 0, None))];
    assert_eq!(
        check_harvest_group(&zero, true).unwrap_err(),
        "total quantity must be >= 1"
    );
}

#[test]
fn recount_sheet_row_for_a_crop() {
    let rows = vec![
        row("a", "kale", "light", 2, None),
        row("b", "kale", "blackout", 3, None),
    ];
    let c = recount_crop("kale".into(), "Kale".into(), &rows);
    assert_eq!(c.app_quantity, 5);
    assert_eq!(c.tray_ids, vec!["a".to_string(), "b".to_string()]);
}

#[test]
fn undo_plan_names_the_event_it_undoes() {
    let p = plan_undo(42, "attention.resolved");
    assert_eq!(p.entity_id, "42");
    assert!(p.reopen_attention);
    let q = plan_undo(7, "trays.advanced");
    assert!(!q.reopen_attention);
    let r = undo_result(&q);
    assert_eq!(r.undoes_seq, 7);
    assert_eq!(r.undone_kind, "trays.advanced");
}

#[test]
fn remaining_group_after_a_discard() {
    let rows = vec![
        row("b", "kale", "light", 2, Some("2025-03-02")),
        row("a", "kale", "light", 1, Some("2025-03-01")),
        row("c", "kale", "discarded", 1, Some("2025-03-01")),
        row("d", "kale", "light", 0, Some("2025-03-01")),
    ];
    let (ids, count) = remaining_group(rows).unwrap();
    assert_eq!(ids, vec!["a".to_string(), "b".to_string()]);
    assert_eq!(count, 3);
    let gone = vec![row("c", "kale", "discarded", 1, None)];
    assert!(remaining_group(gone).is_none());
}

#[test]
fn single_tray_discard_and_its_undo() {
    let p = plan_discard_tray("t1", "blackout", "2025-03-09").unwrap();
    assert_eq!(p.from, "blackout");
    assert_eq!(p.discarded_on, "2025-03-09");
    assert_eq!(p.restore.state, "blackout");
    assert_eq!(p.restore.clear, vec!["discarded_on".to_string()]);
    assert_eq!(
        plan_discard_tray("t1", "discarded", "2025-03-09").unwrap_err(),
        "tray is already discarded"
    );
}

#[test]
fn today_reads_only_trays_still_on_the_shelf() {
    assert!(is_active_state("planned"));
    assert!(is_active_state("sown"));
    assert!(is_active_state("blackout"));
    assert!(is_active_state("light"));
    assert!(!is_active_state("harvested"));
    assert!(!is_active_state("discarded"));
}

#[test]
fn a_group_discard_takes_exactly_the_trays_asked_for() {
    let ids = vec!["a".to_string(), "b".to_string(), "c".to_string()];
    let rows = vec![
        row("a", "kale", "light", 2, Some("2025-03-01")),
        row("b", "kale", "light", 3, Some("2025-03-02")),
        row("c", "kale", "light", 4, Some("2025-03-03")),
    ];
    let plan = plan_discard_from_group(&ids, rows, 6, "2025-03-09", "s9").unwrap();
    let taken: i64 = plan.items.iter().map(|it| it.consumed).sum();
    assert_eq!(taken, 6);
    assert_eq!(plan.items.len(), 3);
    assert_eq!(plan.items[2].consumed, 1);
    assert_eq!(plan.items[2].split_tray_id.as_deref(), Some("s9"));
    // What is left on light: the split row's 3 trays, 9 - 6.
    assert_eq!(plan.inverse.len(), 3);
    assert!(matches!(&plan.inverse[0], DiscardInverse::SetTrayState { tray_id, state } if tray_id == "a" && state == "light"));
    assert!(matches!(&plan.inverse[2], DiscardInverse::Unsplit { source_tray_id, restore_quantity: 4, delete_tray_id } if source_tray_id == "c" && delete_tray_id == "s9"));
}

#[test]
fn a_harvest_plan_writes_every_tray_and_its_undo() {
    let g1 = vec![row("a", "kale", "light", 2, Some("2025-03-01")), row("b", "kale", "light", 1, Some("2025-03-02"))];
    let g2 = vec![row("c", "peas", "light", 4, Some("2025-03-03"))];
    let plan = plan_harvest(&vec![g1, g2], "2025-03-09").unwrap();
    assert_eq!(plan.entity_id, "a");
    assert_eq!(plan.groups.len(), 2);
    assert_eq!(plan.groups[0].len(), 2);
    assert_eq!(plan.groups[1][0].tray_id, "c");
    assert_eq!(plan.groups[1][0].from, "light");
    assert_eq!(plan.groups[1][0].to, "harvested");
    assert_eq!(plan.groups[1][0].harvested_on, "2025-03-09");
    let undo: Vec<&str> = plan.inverse.iter().map(|r| r.tray_id.as_str()).collect();
    assert_eq!(undo, vec!["a", "b", "c"]);
    assert_eq!(plan.inverse[1].state, "light");
    assert_eq!(plan.inverse[1].clear, vec!["harvested_on".to_string(), "actual_yield_oz".to_string()]);
    assert_eq!(plan.uses[2].crop_name, "peas name");
    assert_eq!(plan.uses[2].quantity, 4);
    assert_eq!(plan_harvest(&vec![], "2025-03-09").unwrap_err(), "harvest_groups requires at least one group");
}
