use farm_os::events::{Payload, PayloadField, PayloadValue};
use farm_os::tray_events::{
    decode_advance_item, decode_dev_backdated, decode_discard_item, decode_harvest_item,
    decode_recount_surplus, decode_tray_sown,
    advance_item_payload, discard_item_payload, is_array_at, tray_discarded_on, DiscardOp,
};
use farm_os::trays::{AdvanceItem, DiscardItem};

fn text(k: &str, v: &str) -> PayloadField {
    PayloadField { key: k.to_string(), value: PayloadValue::Text(v.to_string()) }
}

fn whole(k: &str, v: i64) -> PayloadField {
    PayloadField { key: k.to_string(), value: PayloadValue::Number { above_zero: v > 0, integer: Some(v) } }
}

fn obj(fields: Vec<PayloadField>) -> Payload {
    Payload { is_object: true, fields }
}

#[test]
fn full_and_split_discard_items() {
    let full = obj(vec![text("trayId", "t1"), text("mode", "full"), text("discardedOn", "2025-03-09")]);
    match decode_discard_item(&full).unwrap() {
        DiscardOp::Full { tray_id, discarded_on } => {
            assert_eq!(tray_id, "t1");
            assert_eq!(discarded_on, "2025-03-09");
        }
        other => panic!("unexpected {other:?}"),
    }
    let split = obj(vec![
        text("trayId", "t2"),
        text("mode", "split"),
        text("discardedOn", "2025-03-09"),
        whole("consumed", 2),
        text("newTrayId", "t9"),
    ]);
    match decode_discard_item(&split).unwrap() {
        DiscardOp::Split { tray_id, consumed, new_tray_id, .. } => {
            assert_eq!(tray_id, "t2");
            assert_eq!(consumed, 2);
            assert_eq!(new_tray_id, "t9");
        }
        other => panic!("unexpected {other:?}"),
    }
}

#[test]
fn discard_item_errors_in_order() {
    let none = obj(vec![]);
    assert_eq!(decode_discard_item(&none).unwrap_err(), "discard item missing trayId");
    let no_mode = obj(vec![text("trayId", "t1")]);
    assert_eq!(decode_discard_item(&no_mode).unwrap_err(), "discard item missing mode");
    let no_date = obj(vec![text("trayId", "t1"), text("mode", "full")]);
    assert_eq!(decode_discard_item(&no_date).unwrap_err(), "discard item missing discardedOn");
    let odd = obj(vec![text("trayId", "t1"), text("mode", "half"), text("discardedOn", "d")]);
    assert_eq!(decode_discard_item(&odd).unwrap_err(), "unknown discard item mode: half");
    let split = obj(vec![text("trayId", "t1"), text("mode", "split"), text("discardedOn", "d")]);
    assert_eq!(decode_discard_item(&split).unwrap_err(), "split item missing consumed");
    let split2 = obj(vec![text("trayId", "t1"), text("mode", "split"), text("discardedOn", "d"), whole("consumed", 1)]);
    assert_eq!(decode_discard_item(&split2).unwrap_err(), "split item missing newTrayId");
    let not_object = Payload { is_object: false, fields: vec![] };
    assert_eq!(decode_discard_item(&not_object).unwrap_err(), "discard item missing trayId");
}

#[test]
fn single_discard_reads_its_date() {
    let p = obj(vec![text("from", "light"), text("discardedOn", "2025-03-09")]);
    assert_eq!(tray_discarded_on(&p).unwrap(), "2025-03-09");
    assert_eq!(
        tray_discarded_on(&obj(vec![])).unwrap_err(),
        "tray.discarded payload missing discardedOn"
    );
}

#[test]
fn advance_items_name_their_date_column() {
    let item = obj(vec![text("trayId", "t1"), text("from", "blackout"), text("to", "light"), text("on", "2025-03-09")]);
    let op = decode_advance_item(&item).unwrap();
    assert_eq!(op.date_col, "light_on");
    assert_eq!(op.on, "2025-03-09");
    let bad = obj(vec![text("trayId", "t1"), text("to", "compost"), text("on", "2025-03-09")]);
    assert_eq!(decode_advance_item(&bad).unwrap_err(), "no date column for state 'compost'");
    let no_on = obj(vec![text("trayId", "t1"), text("to", "light")]);
    assert_eq!(decode_advance_item(&no_on).unwrap_err(), "trays.advanced item missing on");
}

#[test]
fn harvest_items_need_a_weight() {
    let item = obj(vec![
        text("trayId", "t1"),
        PayloadField { key: "actualYieldOz".into(), value: PayloadValue::Number { above_zero: true, integer: None } },
        text("harvestedOn", "2025-03-09"),
    ]);
    let op = decode_harvest_item(&item).unwrap();
    assert_eq!(op.tray_id, "t1");
    assert_eq!(op.harvested_on, "2025-03-09");
    let no_weight = obj(vec![text("trayId", "t1"), text("actualYieldOz", "heavy"), text("harvestedOn", "d")]);
    assert_eq!(decode_harvest_item(&no_weight).unwrap_err(), "trays.harvested item missing actualYieldOz");
}

#[test]
fn recount_surplus_copies_its_template() {
    let crop = obj(vec![text("cropId", "kale"), whole("delta", 2), text("newTrayId", "n1")]);
    let template = obj(vec![text("state", "light"), text("sownOn", "2025-03-01")]);
    let op = decode_recount_surplus(&crop, Some(&template)).unwrap().unwrap();
    assert_eq!(op.quantity, 2);
    assert_eq!(op.state, "light");
    assert_eq!(op.sown_on.as_deref(), Some("2025-03-01"));
    assert_eq!(op.blackout_on, None);
    assert!(decode_recount_surplus(&crop, None).unwrap().is_none());
    let no_delta = obj(vec![text("cropId", "kale"), text("newTrayId", "n1")]);
    assert_eq!(
        decode_recount_surplus(&no_delta, Some(&template)).unwrap_err(),
        "recount surplus item missing delta"
    );
    let blank = obj(vec![]);
    assert_eq!(
        decode_recount_surplus(&crop, Some(&blank)).unwrap_err(),
        "recount template missing state"
    );
}

#[test]
fn item_lists_must_be_arrays() {
    let p = obj(vec![PayloadField { key: "items".into(), value: PayloadValue::Array }]);
    assert!(is_array_at(&p, "items"));
    assert!(!is_array_at(&p, "trays"));
    let q = obj(vec![text("items", "none")]);
    assert!(!is_array_at(&q, "items"));
}

#[test]
fn sown_and_backdated_payloads() {
    let p = obj(vec![text("cropId", "kale"), whole("quantity", 3), text("sownOn", "2025-03-01"), text("blackoutOn", "2025-03-01")]);
    let op = decode_tray_sown(&p).unwrap();
    assert_eq!(op.crop_id, "kale");
    assert_eq!(op.quantity, 3);
    let q = obj(vec![text("cropId", "kale"), text("quantity", "three")]);
    assert_eq!(
        decode_tray_sown(&q).unwrap_err(),
        "tray.sown payload missing quantity"
    );
    let b = obj(vec![text("trayId", "t1"), whole("days", 4)]);
    assert_eq!(decode_dev_backdated(&b).unwrap(), ("t1".to_string(), 4));
    assert_eq!(
        decode_dev_backdated(&obj(vec![text("trayId", "t1")])).unwrap_err(),
        "dev.backdated payload missing days"
    );
}

#[test]
fn written_items_read_back() {
    let it = DiscardItem {
        tray_id: "t2".into(),
        consumed: 2,
        split_tray_id: Some("t9".into()),
        from: "light".into(),
        discarded_on: "2025-03-09".into(),
    };
    match decode_discard_item(&discard_item_payload(&it)).unwrap() {
        DiscardOp::Split { tray_id, discarded_on, consumed, new_tray_id } => {
            assert_eq!(tray_id, "t2");
            assert_eq!(discarded_on, "2025-03-09");
            assert_eq!(consumed, 2);
            assert_eq!(new_tray_id, "t9");
        }
        other => panic!("unexpected {other:?}"),
    }
    let whole = DiscardItem {
        tray_id: "t1".into(),
        consumed: 3,
        split_tray_id: None,
        from: "light".into(),
        discarded_on: "2025-03-09".into(),
    };
    assert!(matches!(
        decode_discard_item(&discard_item_payload(&whole)).unwrap(),
        DiscardOp::Full { .. }
    ));
    let adv = AdvanceItem { tray_id: "t1".into(), from: "sown".into(), to: "blackout".into(), on: "2025-03-02".into() };
    let op = decode_advance_item(&advance_item_payload(&adv)).unwrap();
    assert_eq!(op.date_col, "blackout_on");
    assert_eq!(op.tray_id, "t1");
}
