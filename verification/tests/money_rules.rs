use farm_os::money::{
    account_mismatch, check_key_for_account, dashboard_test_prefix, format_money_amount,
    format_short_month_day, gateway_key, line_signature, money_status_from, order_dashboard_url,
    oversold_message, plain_insert_failure_reason, plan_dispute, plan_refund, resolve_lines,
    session_dashboard_url, session_paid_payload, tray_word, unmatched_payment_message,
    unrecorded_payment_message, validate_checkout_endpoint_url, validate_restricted_key,
    AccountInfo, DisputePlan, HarvestLinkLine, OrderRow, PaidLine, PaidSession, PriceOffer,
    RefundPlan, RefundRecord, paid_session_decision, PaidOutcome, ResolvedLine,
};

#[test]
fn secret_keys_refused() {
    for key in ["sk_test_abc", "sk_live_abc"] {
        let err = validate_restricted_key(key).unwrap_err();
        assert!(err.contains("secret key"), "{key}: {err}");
        assert!(err.contains("restricted key"), "{key}: {err}");
    }
}

#[test]
fn restricted_keys_and_modes() {
    assert_eq!(validate_restricted_key("  rk_test_abc  ").unwrap(), "test");
    assert_eq!(
        validate_restricted_key("rk_live_abc").unwrap_err(),
        "Farm OS is in test mode. Live keys are not accepted yet."
    );
    assert_eq!(validate_restricted_key("   ").unwrap_err(), "Paste a restricted key to connect Stripe.");
    assert!(validate_restricted_key("pk_test_abc").unwrap_err().contains("starts with rk_"));
    assert!(validate_restricted_key("rk_other").unwrap_err().contains("rk_test_… or rk_live_…"));
}

#[test]
fn checkout_address_rules() {
    assert_eq!(validate_checkout_endpoint_url("  https://x.example/pay ").unwrap(), "https://x.example/pay");
    assert_eq!(validate_checkout_endpoint_url("").unwrap_err(), "Paste the checkout address from your Worker deploy.");
    assert_eq!(validate_checkout_endpoint_url("http://x").unwrap_err(), "Checkout address must be an https:// URL.");
    assert_eq!(validate_checkout_endpoint_url("https://x y").unwrap_err(), "Checkout address is not a valid URL.");
}

#[test]
fn amounts_and_words() {
    assert_eq!(format_money_amount(1200, "cad"), "$12.00");
    assert_eq!(format_money_amount(5, "USD"), "$0.05");
    assert_eq!(format_money_amount(123456, "eur"), "1234.56 EUR");
    assert_eq!(format_money_amount(-250, "cad"), "$-2.50");
    assert_eq!(tray_word(1), "1 tray");
    assert_eq!(tray_word(3), "3 trays");
    assert_eq!(tray_word(0), "0 trays");
    assert_eq!(format_short_month_day("2026-08-05"), "Aug 5");
    assert_eq!(format_short_month_day("not-a-date"), "not-a-date");
}

fn offer(price: &str, crop: &str, date: &str) -> PriceOffer {
    PriceOffer { stripe_price_id: price.into(), crop_id: crop.into(), harvest_date: date.into() }
}

fn line(price: &str, q: i64, amt: i64) -> PaidLine {
    PaidLine { price_id: price.into(), quantity: q, amount_cents: amt }
}

fn session(lines: Vec<PaidLine>) -> PaidSession {
    PaidSession {
        session_id: "cs_1".into(),
        payment_intent: Some("pi_1".into()),
        lines,
        currency: "cad".into(),
        customer_email: None,
        paid_at: "2026-08-01T00:00:00.000Z".into(),
        created: 100,
        amount_cents: 3600,
        client_reference: Some("cart_1".into()),
    }
}

#[test]
fn lines_resolve_through_local_offers() {
    let offers = vec![offer("price_a", "dun-peas", "2026-08-10"), offer("price_b", "kale", "2026-08-10"), offer("price_c", "kale", "2026-08-11")];
    let (date, lines) = resolve_lines(&offers, &session(vec![line("price_a", 2, 2400), line("price_x", 0, 0), line("price_b", 1, 1200)])).unwrap();
    assert_eq!(date, "2026-08-10");
    assert_eq!(lines.len(), 2);
    assert_eq!(lines[0].crop_id, "dun-peas");
    assert_eq!(lines[0].quantity, 2);
    assert_eq!(lines[1].crop_id, "kale");
    assert_eq!(lines[1].amount_cents, 1200);
    assert_eq!(
        resolve_lines(&offers, &session(vec![line("price_a", 1, 1), line("price_z", 1, 1)])).unwrap_err(),
        "no local offer for price price_z"
    );
    assert_eq!(
        resolve_lines(&offers, &session(vec![line("price_a", 1, 1), line("price_c", 1, 1)])).unwrap_err(),
        "lines in one session pointed at different harvest dates"
    );
    assert_eq!(
        resolve_lines(&offers, &session(vec![line("price_a", 0, 1)])).unwrap_err(),
        "session has no line item quantity"
    );
}

#[test]
fn paid_payload_carries_one_order_per_line() {
    let offers = vec![offer("price_a", "dun-peas", "2026-08-10")];
    let s = session(vec![line("price_a", 2, 2400)]);
    let (date, lines) = resolve_lines(&offers, &s).unwrap();
    let p = session_paid_payload(&s, &date, &lines, &vec!["o1".to_string()]);
    assert_eq!(p.order_ids, vec!["o1".to_string()]);
    assert_eq!(p.lines[0].crop_id, "dun-peas");
    assert_eq!(p.lines[0].order_id, "o1");
    assert_eq!(p.harvest_date, "2026-08-10");
    assert_eq!(p.client_reference, Some("cart_1".to_string()));
    assert_eq!(p.amount_cents, 3600);
}

fn order(id: &str, state: &str, qty: i64, date: &str) -> OrderRow {
    OrderRow { id: id.into(), stripe_session_id: "cs_1".into(), harvest_date: date.into(), quantity: qty, capacity_consumed: qty, state: state.into() }
}

fn refund(session: Option<&str>) -> RefundRecord {
    RefundRecord { refund_id: "re_1".into(), payment_intent: Some("pi_1".into()), session_id: session.map(|s| s.to_string()), created: 500 }
}

#[test]
fn refund_before_and_after_harvest() {
    assert!(matches!(plan_refund(&vec![], &refund(None), "2026-08-05"), RefundPlan::AwaitingOrder));
    assert!(matches!(plan_refund(&vec![order("o1", "refunded", 2, "2026-08-10")], &refund(None), "2026-08-05"), RefundPlan::AlreadyApplied));
    let orders = vec![order("o1", "paid", 2, "2026-08-10"), order("o2", "paid", 3, "2026-08-10")];
    match plan_refund(&orders, &refund(Some("")), "2026-08-05") {
        RefundPlan::Apply { order_ids, capacity_released, attention_kind, message, session_id, .. } => {
            assert_eq!(order_ids, vec!["o1".to_string(), "o2".to_string()]);
            assert!(capacity_released);
            assert_eq!(attention_kind, "order.refunded");
            assert_eq!(message, "A refund was issued for 5 trays due Aug 10. That capacity is available again.");
            assert_eq!(session_id, "cs_1");
        }
        _ => panic!("expected a plan"),
    }
    match plan_refund(&orders, &refund(Some("cs_9")), "2026-08-10") {
        RefundPlan::Apply { capacity_released, attention_kind, message, session_id, .. } => {
            assert!(!capacity_released);
            assert_eq!(attention_kind, "order.refunded_after_harvest");
            assert_eq!(message, "A refund was issued for product already harvested on Aug 10.");
            assert_eq!(session_id, "cs_9");
        }
        _ => panic!("expected a plan"),
    }
}

#[test]
fn dispute_changes_status_only() {
    assert!(matches!(plan_dispute(&vec![]), DisputePlan::AwaitingOrder));
    match plan_dispute(&vec![order("o1", "paid", 1, "2026-08-10"), order("o2", "refunded", 4, "2026-08-10")]) {
        DisputePlan::Apply { order_ids, message } => {
            assert_eq!(order_ids, vec!["o1".to_string()]);
            assert_eq!(message, "A card payment for 1 tray is disputed.");
        }
        _ => panic!("expected a plan"),
    }
}

#[test]
fn payment_notes() {
    assert_eq!(
        unmatched_payment_message(2400, "cad"),
        "A payment of $24.00 arrived that Farm OS couldn't match to a crop and harvest date."
    );
    assert_eq!(
        unrecorded_payment_message(1200, "cad", "a required field was missing"),
        "A payment for $12.00 couldn't be recorded: a required field was missing."
    );
    assert_eq!(oversold_message("2026-08-10", -2).unwrap(), "Aug 10 is oversold by 2 trays.");
    assert_eq!(oversold_message("2026-08-10", -1).unwrap(), "Aug 10 is oversold by 1 tray.");
    assert!(oversold_message("2026-08-10", 0).is_none());
    assert_eq!(
        plain_insert_failure_reason("FOREIGN KEY constraint failed", "kale"),
        "Farm OS doesn't have a crop called \"kale\""
    );
    assert_eq!(plain_insert_failure_reason("NOT NULL constraint failed: orders.x", "k"), "a required field was missing");
    assert_eq!(plain_insert_failure_reason("CHECK constraint failed", "k"), "the payment data failed a farm rule");
    assert_eq!(plain_insert_failure_reason("disk full", "k"), "the payment data couldn't be saved");
}

#[test]
fn status_connection_and_links() {
    let st = money_status_from(Some("".into()), None, Some("test".into()), None, None, 2, Some("".into()));
    assert!(!st.configured);
    assert_eq!(st.checkout_endpoint_url, None);
    assert_eq!(st.open_order_count, 2);
    let st = money_status_from(Some("rk_test_x".into()), Some("Farm".into()), None, None, None, 0, Some("https://c".into()));
    assert!(st.configured);
    assert_eq!(st.checkout_endpoint_url, Some("https://c".to_string()));

    assert_eq!(
        gateway_key(None, None).unwrap_err(),
        "Stripe is not connected yet. Open Sell online to paste a restricted key."
    );
    let (k, m) = gateway_key(Some("rk_test_abc".into()), None).unwrap();
    assert_eq!(k, "rk_test_abc");
    assert_eq!(m, "test");

    let acct = AccountInfo { account_id: "acct_1".into(), account_name: "Farm".into(), mode: "test".into() };
    assert_eq!(check_key_for_account(" rk_test_abc ", &acct).unwrap(), ("rk_test_abc".to_string(), "test"));
    let live = AccountInfo { account_id: "acct_1".into(), account_name: "Farm".into(), mode: "live".into() };
    assert_eq!(check_key_for_account("rk_test_abc", &live).unwrap_err(), "The key's mode did not match the Stripe account.");
    assert!(account_mismatch(&Some("acct_1".into()), &acct).is_none());
    assert!(account_mismatch(&Some("".into()), &acct).is_none());
    let (note, err) = account_mismatch(&Some("acct_0".into()), &acct).unwrap();
    assert_eq!(note, "A different Stripe account (acct_1) was offered. Farm OS refused it so a sale is never recorded twice.");
    assert!(err.contains("different Stripe account"));

    assert_eq!(dashboard_test_prefix(&Some("live".into())), "");
    assert_eq!(dashboard_test_prefix(&None), "test/");
    assert_eq!(order_dashboard_url(&None, &Some("pi_1".into()), "cs_1"), "https://dashboard.stripe.com/test/payments/pi_1");
    assert_eq!(order_dashboard_url(&Some("live".into()), &Some("".into()), "cs_1"), "https://dashboard.stripe.com/checkout/sessions/cs_1");
    assert_eq!(session_dashboard_url(&None, "cs_2"), "https://dashboard.stripe.com/test/checkout/sessions/cs_2");
}

#[test]
fn link_signature_is_sorted_and_joined() {
    let lines = vec![
        HarvestLinkLine { price_id: "price_b".into(), max_quantity: 3 },
        HarvestLinkLine { price_id: "price_a".into(), max_quantity: 10 },
    ];
    assert_eq!(line_signature(&lines), "price_a:10|price_b:3");
    assert_eq!(line_signature(&vec![]), "");
}

#[test]
fn link_signature_ignores_line_order() {
    let l = |p: &str, m: i64| HarvestLinkLine { price_id: p.into(), max_quantity: m };
    let one = line_signature(&vec![l("b", 2), l("a", 1), l("c", 7)]);
    let two = line_signature(&vec![l("c", 7), l("b", 2), l("a", 1)]);
    assert_eq!(one, "a:1|b:2|c:7");
    assert_eq!(one, two);
}

#[test]
fn paid_session_decisions_in_order() {
    let s = session(vec![line("price_a", 2, 2400)]);
    let resolved: Result<(String, Vec<ResolvedLine>), String> =
        Ok(("2026-08-10".to_string(), vec![ResolvedLine { crop_id: "kale".into(), quantity: 2, amount_cents: 2400 }]));
    let refused: Result<(String, Vec<ResolvedLine>), String> = Err("no offer".into());
    match paid_session_decision(&s, &refused, true, &None, 0) {
        PaidOutcome::Rejected { kind, message } => {
            assert_eq!(kind, "stripe.unrecognised_session");
            assert_eq!(message, "A payment of $36.00 arrived that Farm OS couldn't match to a crop and harvest date.");
        }
        other => panic!("unexpected {other:?}"),
    }
    assert!(matches!(paid_session_decision(&s, &resolved, true, &Some("x".into()), -3), PaidOutcome::AlreadyApplied));
    match paid_session_decision(&s, &resolved, false, &Some("a required field was missing".into()), 0) {
        PaidOutcome::Rejected { kind, message } => {
            assert_eq!(kind, "order.unrecorded");
            assert_eq!(message, "A payment for $36.00 couldn't be recorded: a required field was missing.");
        }
        other => panic!("unexpected {other:?}"),
    }
    match paid_session_decision(&s, &resolved, false, &None, -2) {
        PaidOutcome::Applied { oversold } => assert_eq!(oversold.unwrap(), "Aug 10 is oversold by 2 trays."),
        other => panic!("unexpected {other:?}"),
    }
    match paid_session_decision(&s, &resolved, false, &None, 0) {
        PaidOutcome::Applied { oversold } => assert!(oversold.is_none()),
        other => panic!("unexpected {other:?}"),
    }
}
