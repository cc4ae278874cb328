use farm_os::models::OrderView;
use farm_os::money::{FactOutcome, PaidSession, SessionPage, UnparsedSession};
use farm_os::poll::{
    cursor_after_page, format_fail_since, poll_failure_message, poll_failure_note, reconciliation_date,
    session_work_order, PageProgress, PollResult, SessionWork, poll_start, poll_step, PageEvent, PollAction,
};

fn paid(id: &str, created: i64) -> PaidSession {
    PaidSession {
        session_id: id.into(),
        payment_intent: None,
        lines: vec![],
        currency: "cad".into(),
        customer_email: None,
        paid_at: "".into(),
        created,
        amount_cents: 0,
        client_reference: None,
    }
}

fn unparsed(id: &str, created: i64) -> UnparsedSession {
    UnparsedSession { session_id: id.into(), created, amount_cents: 1200, currency: "cad".into(), reason: "x".into() }
}

#[test]
fn sessions_apply_oldest_first_then_by_id() {
    let pages = vec![
        SessionPage { parsed: vec![paid("cs_c", 1030), paid("cs_b", 1020)], unparsed: vec![unparsed("cs_u", 1020)] },
        SessionPage { parsed: vec![paid("cs_a", 1010)], unparsed: vec![] },
    ];
    let work = session_work_order(pages);
    let order: Vec<(i64, String)> = work.iter().map(|w| (w.created(), w.session_id().to_string())).collect();
    assert_eq!(
        order,
        vec![(1010, "cs_a".to_string()), (1020, "cs_b".to_string()), (1020, "cs_u".to_string()), (1030, "cs_c".to_string())]
    );
    assert!(matches!(work[2], SessionWork::Unparsed(_)));
}

#[test]
fn a_refund_awaiting_its_order_stops_the_page() {
    let mut p = PageProgress::start();
    p.record(FactOutcome::Applied, 500);
    p.record(FactOutcome::AlreadyApplied, 501);
    assert_eq!(p.applied, 1);
    assert_eq!(p.advanced_through, Some(501));
    p.record(FactOutcome::AwaitingOrder, 502);
    assert!(p.blocked);
    assert_eq!(p.advanced_through, Some(501));
    assert_eq!(cursor_after_page(&Some("400".into()), &p), Some(501));
    assert_eq!(cursor_after_page(&Some("600".into()), &p), None);
    assert_eq!(cursor_after_page(&Some("garbage".into()), &p), Some(501));
    assert_eq!(cursor_after_page(&None, &PageProgress::start()), None);
}

#[test]
fn failure_wording() {
    assert_eq!(format_fail_since(0), "12 am");
    assert_eq!(format_fail_since(9), "9 am");
    assert_eq!(format_fail_since(12), "12 pm");
    assert_eq!(format_fail_since(23), "11 pm");
    assert_eq!(poll_failure_message(2, 15), None);
    assert_eq!(
        poll_failure_message(3, 15).unwrap(),
        "Farm OS hasn't been able to reach Stripe since 3 pm."
    );
    assert!(poll_failure_note(1).is_none());
    assert!(poll_failure_note(4).unwrap().starts_with("Farm OS hasn't been able to reach Stripe since "));
    let f = PollResult::failed("network down".into());
    assert!(!f.ok);
    assert_eq!(f.error, Some("network down".to_string()));
    assert!(PollResult::not_configured().ok);
}

#[test]
fn reconciliation_lists_each_order() {
    let o = OrderView {
        id: "o1".into(),
        stripe_session_id: "cs".into(),
        stripe_payment_intent: None,
        harvest_date: "2026-08-10".into(),
        crop_id: "kale".into(),
        crop_name: "Kale".into(),
        quantity: 2,
        amount_cents: 2400,
        currency: "cad".into(),
        customer_email: None,
        state: "paid".into(),
        capacity_consumed: 2,
        client_reference: None,
        paid_at: "2026-08-01".into(),
        created_at: "c".into(),
        updated_at: "u".into(),
    };
    let d = reconciliation_date("2026-08-10".into(), 10, 2, 8, &vec![o]);
    assert_eq!(d.remaining, 8);
    assert_eq!(d.orders.len(), 1);
    assert_eq!(d.orders[0].crop_name, "Kale");
    assert_eq!(d.orders[0].amount_cents, 2400);
}

#[test]
fn the_refund_poll_step_by_step() {
    let st = poll_start(Some("100".into()));
    let (st, act) = poll_step(st, PageEvent::Fact { outcome: FactOutcome::Applied, created: 150 });
    assert_eq!(act, PollAction::NextFact);
    let (st, act) = poll_step(st, PageEvent::Fact { outcome: FactOutcome::AlreadyApplied, created: 160 });
    assert_eq!(act, PollAction::NextFact);
    let (st, act) = poll_step(st, PageEvent::PageEnd);
    assert_eq!(act, PollAction::EndPage { write_cursor: Some(160), next_page: true });
    assert_eq!(st.cursor.as_deref(), Some("160"));
    assert_eq!(st.applied, 1);
    // An empty page moves nothing.
    let (st, act) = poll_step(st, PageEvent::PageEnd);
    assert_eq!(act, PollAction::EndPage { write_cursor: None, next_page: true });
    // A fact awaiting its order closes the page and stops the poll.
    let (st, act) = poll_step(st, PageEvent::Fact { outcome: FactOutcome::Applied, created: 170 });
    assert_eq!(act, PollAction::NextFact);
    let (st, act) = poll_step(st, PageEvent::Fact { outcome: FactOutcome::AwaitingOrder, created: 180 });
    assert_eq!(act, PollAction::EndPage { write_cursor: Some(170), next_page: false });
    assert!(st.done);
    assert_eq!(st.applied, 2);
    assert_eq!(st.cursor.as_deref(), Some("170"));
    let (st, act) = poll_step(st, PageEvent::PageEnd);
    assert_eq!(act, PollAction::Stopped);
    assert_eq!(st.cursor.as_deref(), Some("170"));
}

#[test]
fn the_cursor_never_goes_back() {
    let st = poll_start(Some("500".into()));
    let (st, _) = poll_step(st, PageEvent::Fact { outcome: FactOutcome::Applied, created: 400 });
    let (st, act) = poll_step(st, PageEvent::PageEnd);
    assert_eq!(act, PollAction::EndPage { write_cursor: None, next_page: true });
    assert_eq!(st.cursor.as_deref(), Some("500"));
}
