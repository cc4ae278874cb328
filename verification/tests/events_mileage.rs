use farm_os::events::{handler_kinds, EventRecord, Kind, Payload, PayloadField, PayloadValue};
use farm_os::mileage::{
    allowed_keys, check_trip_not_future, clean_purpose, is_mileage_kind, validate_calendar_date,
    trip_guard, validate_mileage_event, validate_mileage_payload, void_payload,
};

#[test]
fn kind_dispatch_covers_every_variant() {
    let all = [
        Kind::TraySown,
        Kind::TraysAdvanced,
        Kind::TraysHarvested,
        Kind::TrayDiscarded,
        Kind::TraysDiscarded,
        Kind::RecountApplied,
        Kind::Undo,
        Kind::DevBackdated,
        Kind::AttentionResolved,
        Kind::StripeSessionPaid,
        Kind::StripeRefunded,
        Kind::StripeDisputed,
        Kind::SnapshotTaken,
    ];
    for k in all {
        assert_eq!(Kind::parse(k.as_str()).unwrap(), k);
    }
}

#[test]
fn every_kind_round_trips_and_unknown_names_do_not_parse() {
    for k in Kind::all() {
        assert_eq!(Kind::parse(k.as_str()), Some(k));
    }
    assert_eq!(Kind::parse("tray.sown"), Some(Kind::TraySown));
    assert_eq!(Kind::parse("mileage.trip_voided"), Some(Kind::MileageTripVoided));
    assert_eq!(Kind::parse("tray.grown"), None);
    assert_eq!(Kind::parse(""), None);
}

#[test]
fn handler_kinds_leave_out_the_stripe_facts() {
    let ks = handler_kinds();
    assert_eq!(ks.len(), 18);
    assert!(!ks.contains(&Kind::StripeSessionPaid));
    assert!(!ks.contains(&Kind::StripeRefunded));
    assert!(!ks.contains(&Kind::StripeDisputed));
    assert!(ks.contains(&Kind::TraySown));
}

fn text(key: &str, v: &str) -> PayloadField {
    PayloadField { key: key.to_string(), value: PayloadValue::Text(v.to_string()) }
}

fn miles(positive: bool) -> PayloadField {
    PayloadField { key: "miles".to_string(), value: PayloadValue::Number { above_zero: positive, integer: None } }
}

fn trip_payload(extra: Vec<PayloadField>) -> Payload {
    let mut fields = vec![
        text("eventId", "ev1"),
        text("origin", "farm_os"),
        text("tripId", "ev1"),
        text("tripDate", "2026-08-03"),
        miles(true),
    ];
    fields.extend(extra);
    Payload { is_object: true, fields }
}

#[test]
fn mileage_payload_accepts_a_clean_trip() {
    assert!(validate_mileage_payload(&trip_payload(vec![]), Kind::MileageTripLogged).is_ok());
    assert!(validate_mileage_payload(&trip_payload(vec![text("purpose", "  market run  ")]), Kind::MileageTripLogged).is_ok());
}

#[test]
fn mileage_payload_refuses_money_and_unknown_keys() {
    let p = trip_payload(vec![PayloadField { key: "amountCents".into(), value: PayloadValue::Number { above_zero: true, integer: Some(1250) } }]);
    assert_eq!(
        validate_mileage_payload(&p, Kind::MileageTripLogged).unwrap_err(),
        "mileage.trip rejects unknown payload key: amountCents"
    );
    let p = trip_payload(vec![text("note", "x")]);
    assert_eq!(
        validate_mileage_payload(&p, Kind::MileageTripCorrected).unwrap_err(),
        "mileage.trip_corrected rejects unknown payload key: note"
    );
}

#[test]
fn mileage_payload_field_rules() {
    let not_object = Payload { is_object: false, fields: vec![] };
    assert_eq!(validate_mileage_payload(&not_object, Kind::MileageTripVoided).unwrap_err(), "mileage.trip_voided payload must be an object");
    let mut p = trip_payload(vec![]);
    p.fields.remove(3);
    assert_eq!(validate_mileage_payload(&p, Kind::MileageTripLogged).unwrap_err(), "mileage.trip payload missing required key: tripDate");
    let mut p = trip_payload(vec![]);
    p.fields[1] = text("origin", "commercial");
    assert_eq!(validate_mileage_payload(&p, Kind::MileageTripLogged).unwrap_err(), "mileage.trip origin must be farm_os, got commercial");
    let mut p = trip_payload(vec![]);
    p.fields[3] = text("tripDate", "2026-02-30");
    assert_eq!(validate_mileage_payload(&p, Kind::MileageTripLogged).unwrap_err(), "tripDate must be a real calendar day");
    let mut p = trip_payload(vec![]);
    p.fields[4] = miles(false);
    assert_eq!(validate_mileage_payload(&p, Kind::MileageTripLogged).unwrap_err(), "mileage.trip miles must be greater than zero");
    let mut p = trip_payload(vec![]);
    p.fields[4] = text("miles", "12");
    assert_eq!(validate_mileage_payload(&p, Kind::MileageTripLogged).unwrap_err(), "mileage.trip miles must be a number, not a string");
    let mut p = trip_payload(vec![]);
    p.fields[4] = PayloadField { key: "miles".into(), value: PayloadValue::Null };
    assert_eq!(validate_mileage_payload(&p, Kind::MileageTripLogged).unwrap_err(), "mileage.trip miles must not be null");
    let long = "x".repeat(201);
    let p = trip_payload(vec![text("purpose", &long)]);
    assert_eq!(validate_mileage_payload(&p, Kind::MileageTripLogged).unwrap_err(), "mileage.trip purpose must be at most 200 characters");
    let p = trip_payload(vec![PayloadField { key: "purpose".into(), value: PayloadValue::Bool(true) }]);
    assert_eq!(validate_mileage_payload(&p, Kind::MileageTripLogged).unwrap_err(), "mileage.trip purpose must be a string");
    // Other kinds pass untouched.
    assert!(validate_mileage_payload(&not_object, Kind::TraySown).is_ok());
}

#[test]
fn calendar_dates() {
    assert!(validate_calendar_date("2024-02-29", "tripDate").is_ok());
    assert_eq!(validate_calendar_date("+2024-+02-29", "d").unwrap_err(), "d must be YYYY-MM-DD");
    assert_eq!(validate_calendar_date("2026-8-7", "d").unwrap_err(), "d must be YYYY-MM-DD");
    assert_eq!(validate_calendar_date("+2026-08-07", "d").unwrap_err(), "d must be YYYY-MM-DD");
    assert_eq!(validate_calendar_date("2026-08-07 ", "d").unwrap_err(), "d must be YYYY-MM-DD");
    assert!(validate_calendar_date("0001-01-01", "d").is_ok());
    assert_eq!(validate_calendar_date("2026-00-07", "d").unwrap_err(), "d must be a real calendar day");
    assert_eq!(validate_calendar_date("2023-02-29", "d").unwrap_err(), "d must be a real calendar day");
    assert_eq!(validate_calendar_date("2023-02", "d").unwrap_err(), "d must be YYYY-MM-DD");
    assert_eq!(validate_calendar_date("2023-02-01-1", "d").unwrap_err(), "d must be YYYY-MM-DD");
    assert_eq!(validate_calendar_date("2023-aa-01", "d").unwrap_err(), "d must be YYYY-MM-DD");
    assert_eq!(validate_calendar_date("2023-13-01", "d").unwrap_err(), "d must be a real calendar day");
}

fn event(kind: Kind, id: &str, payload: Payload) -> EventRecord {
    EventRecord { kind, event_id: id.to_string(), origin: "farm_os".to_string(), payload }
}

#[test]
fn mileage_event_ids_must_agree() {
    assert!(validate_mileage_event(&event(Kind::MileageTripLogged, "ev1", trip_payload(vec![]))).is_ok());
    assert_eq!(
        validate_mileage_event(&event(Kind::MileageTripLogged, "ev2", trip_payload(vec![]))).unwrap_err(),
        "mileage.trip payload eventId disagrees with event record"
    );
    let mut corr = trip_payload(vec![]);
    corr.fields[0] = text("eventId", "ev9");
    assert!(validate_mileage_event(&event(Kind::MileageTripCorrected, "ev9", corr)).is_ok());
    let same = trip_payload(vec![]);
    assert_eq!(
        validate_mileage_event(&event(Kind::MileageTripCorrected, "ev1", same)).unwrap_err(),
        "mileage.trip_corrected payload tripId must not equal event record id"
    );
    let mut e = event(Kind::MileageTripLogged, "ev1", trip_payload(vec![]));
    e.origin = "elsewhere".into();
    assert_eq!(validate_mileage_event(&e).unwrap_err(), "mileage.trip origin must be farm_os, got elsewhere");
    let mut trip = trip_payload(vec![]);
    trip.fields[2] = text("tripId", "other");
    assert_eq!(
        validate_mileage_event(&event(Kind::MileageTripLogged, "ev1", trip)).unwrap_err(),
        "mileage.trip payload tripId must equal event record id"
    );
}

#[test]
fn void_payload_and_helpers() {
    let v = void_payload("ev5", "trip1");
    assert_eq!(v.event_id, "ev5");
    assert_eq!(v.origin, "farm_os");
    assert_eq!(v.trip_id, "trip1");
    let voided = Payload {
        is_object: true,
        fields: vec![text("eventId", "ev5"), text("origin", "farm_os"), text("tripId", "trip1")],
    };
    assert!(validate_mileage_event(&event(Kind::MileageTripVoided, "ev5", voided)).is_ok());
    assert_eq!(allowed_keys(Kind::MileageTripVoided), vec!["eventId", "origin", "tripId"]);
    assert_eq!(allowed_keys(Kind::MileageTripLogged).len(), 6);
    assert!(is_mileage_kind(Kind::MileageTripCorrected));
    assert!(!is_mileage_kind(Kind::CostMoneyOut));
    assert_eq!(clean_purpose(&Some("  market  ".into())), Some("market".to_string()));
    assert_eq!(clean_purpose(&Some("   ".into())), None);
    assert_eq!(check_trip_not_future("2026-08-06", "2026-08-05").unwrap_err(), "a trip cannot be in the future");
    assert!(check_trip_not_future("2026-08-05", "2026-08-05").is_ok());
}

#[test]
fn trip_guard_refuses_missing_and_removed_trips() {
    assert_eq!(trip_guard(None).unwrap_err(), "that trip is no longer in the log");
    assert_eq!(
        trip_guard(Some(("e1".to_string(), Some("2025-03-09".to_string())))).unwrap_err(),
        "that trip was removed"
    );
    assert_eq!(trip_guard(Some(("e2".to_string(), None))).unwrap(), "e2");
}

/// The keys a mileage payload may carry name no money.
#[test]
fn mileage_keys_carry_no_money_vocabulary() {
    for kind in [Kind::MileageTripLogged, Kind::MileageTripCorrected, Kind::MileageTripVoided] {
        for key in allowed_keys(kind) {
            let lower = key.to_ascii_lowercase();
            for needle in ["cents", "dollar", "irs", "rate", "amount", "cost", "price"] {
                assert!(!lower.contains(needle), "{key} names money");
            }
        }
    }
}
