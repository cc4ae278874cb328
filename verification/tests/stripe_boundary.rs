use farm_os::money::{HarvestLinkLine, Offer};
use farm_os::stripe_client::{
    account_display_name, build_paid_session, created_filter, handler_now, list_page_step,
    dispute_of_raw, looks_like_unix, paid_positions, payment_link_form, price_form, refund_of_raw, product_form, redact_secrets, scrub_emails,
    unparsed_from_raw, RawLineItem, RawSession, UreqHttp,
};

#[test]
fn stored_key_never_appears_in_errors_or_redaction() {
    let key = "rk_test_super_secret_should_not_leak";
    let leaked = format!("auth failed for {key} buyer@example.com");
    let cleaned = redact_secrets(&leaked, key);
    assert!(!cleaned.contains(key));
    assert!(!cleaned.contains("buyer@example.com"));
    assert!(cleaned.contains("[redacted]"));
    assert_eq!(cleaned, "auth failed for [redacted] [redacted]");
    let http = UreqHttp::new(key.to_string());
    let err = http.error_message(Some(401));
    assert_eq!(err, "Stripe returned an error (HTTP 401). Check the key scopes and try again.");
    assert!(!err.contains(key));
    assert_eq!(http.error_message(None), "Farm OS couldn't reach Stripe. Check the connection and try again.");
}

#[test]
fn email_scrubbing_and_cursors() {
    assert_eq!(scrub_emails("mail a@b.c and x@@y, keep @ alone"), "mail [redacted] and x@@y, keep @ alone");
    assert_eq!(scrub_emails("no address here"), "no address here");
    assert_eq!(redact_secrets("plain", ""), "plain");
    assert!(looks_like_unix("1700000000"));
    assert!(!looks_like_unix(""));
    assert!(!looks_like_unix("17e9"));
    assert_eq!(created_filter(Some("123")), Some("123"));
    assert_eq!(created_filter(Some("abc")), None);
    assert_eq!(created_filter(None), None);
}

#[test]
fn auth_header_is_basic_with_the_key() {
    let http = UreqHttp::new("rk_test_abc".to_string());
    assert_eq!(http.auth_header(), "Basic cmtfdGVzdF9hYmM6");
}

#[test]
fn account_names() {
    assert_eq!(account_display_name(&Some("Prairie".into()), &Some("Biz".into())), "Prairie");
    assert_eq!(account_display_name(&Some("".into()), &Some("Biz".into())), "Biz");
    assert_eq!(account_display_name(&None, &None), "Stripe account");
}

fn raw() -> RawSession {
    RawSession {
        id: Some("cs_1".into()),
        amount_total: None,
        currency: None,
        payment_intent: Some("pi_1".into()),
        customer_details_email: None,
        customer_email: Some("buyer@example.com".into()),
        created: Some(1_700_000_000),
        client_reference_id: Some("".into()),
    }
}

fn item(q: Option<i64>, price_id: Option<&str>, price: Option<&str>, total: Option<i64>, unit: Option<i64>) -> RawLineItem {
    RawLineItem {
        quantity: q,
        price_id: price_id.map(|s| s.to_string()),
        price: price.map(|s| s.to_string()),
        amount_total: total,
        unit_amount: unit,
    }
}

#[test]
fn paid_sessions_read_from_stripe() {
    let items = vec![
        item(Some(2), Some("price_a"), None, Some(2400), None),
        item(Some(0), None, None, None, None),
        item(Some(1), None, Some("price_b"), None, Some(1200)),
    ];
    let s = build_paid_session(&raw(), &items).unwrap();
    assert_eq!(s.session_id, "cs_1");
    assert_eq!(s.lines.len(), 2);
    assert_eq!(s.lines[1].price_id, "price_b");
    assert_eq!(s.lines[1].amount_cents, 1200);
    assert_eq!(s.amount_cents, 3600);
    assert_eq!(s.currency, "cad");
    assert_eq!(s.customer_email, Some("buyer@example.com".to_string()));
    assert_eq!(s.client_reference, None);
    assert_eq!(s.paid_at, "2023-11-14T22:13:20.000Z");
    assert_eq!(build_paid_session(&raw(), &vec![item(Some(1), None, None, None, None)]).unwrap_err(), "line item missing price id");
    assert_eq!(build_paid_session(&raw(), &vec![]).unwrap_err(), "session has no line item quantity");
    let mut no_id = raw();
    no_id.id = None;
    assert_eq!(build_paid_session(&no_id, &items).unwrap_err(), "session missing id");
    let u = unparsed_from_raw(&no_id, "session missing id".into());
    assert_eq!(u.session_id, "unknown-1700000000");
    assert_eq!(u.currency, "cad");
    assert!(!handler_now().is_empty());
}

#[test]
fn paging_and_forms() {
    let step = list_page_step(&vec![Some("a".into()), Some("b".into())], Some(true)).unwrap();
    assert!(step.keep && step.more);
    assert_eq!(step.starting_after, Some("b".to_string()));
    let step = list_page_step(&vec![], Some(true)).unwrap();
    assert!(!step.keep && !step.more);
    assert_eq!(
        list_page_step(&vec![Some("a".into()), None], None).unwrap_err(),
        "Stripe list page was missing an id for pagination."
    );
    let form = payment_link_form("2026-08-14", &vec![HarvestLinkLine { price_id: "price_a".into(), max_quantity: 150 }]).unwrap();
    assert_eq!(form.len(), 7);
    assert_eq!(form[0], ("line_items[0][price]".to_string(), "price_a".to_string()));
    assert_eq!(form[4], ("line_items[0][adjustable_quantity][maximum]".to_string(), "99".to_string()));
    assert_eq!(form[6], ("payment_intent_data[metadata][harvest_date]".to_string(), "2026-08-14".to_string()));
    assert_eq!(payment_link_form("d", &vec![]).unwrap_err(), "A harvest Payment Link needs at least one crop.");
    let offer = Offer {
        id: "off1".into(),
        harvest_date: "2026-08-14".into(),
        crop_id: "kale".into(),
        price_cents: 900,
        stripe_price_id: None,
        stripe_link_id: None,
        stripe_link_url: None,
        created_at: "now".into(),
    };
    assert_eq!(product_form(&offer)[0], ("name".to_string(), "kale · 2026-08-14".to_string()));
    let pf = price_form(&offer, "prod_1");
    assert_eq!(pf[1], ("unit_amount".to_string(), "900".to_string()));
    assert_eq!(pf[2], ("currency".to_string(), "cad".to_string()));
}

#[test]
fn only_paid_sessions_are_read() {
    let statuses = vec![
        Some("paid".to_string()),
        Some("unpaid".to_string()),
        None,
        Some("paid".to_string()),
        Some("no_payment_required".to_string()),
    ];
    assert_eq!(paid_positions(&statuses), vec![0, 3]);
}

#[test]
fn a_restricted_key_never_survives_redaction() {
    let key = "rk_test_51Habc";
    let msg = format!("bad key {key} for ops@farm.ca ({key}) rk_test_51Habcrk_test_51Habc");
    let out = redact_secrets(&msg, key);
    assert!(!out.contains(key));
    assert!(!out.contains("ops@farm.ca"));
}

#[test]
fn refunds_and_disputes_as_listed() {
    let r = refund_of_raw(Some("re_1".into()), Some("pi_1".into()), None).unwrap();
    assert_eq!(r.refund_id, "re_1");
    assert_eq!(r.created, 0);
    assert!(r.session_id.is_none());
    assert!(refund_of_raw(None, Some("pi_1".into()), Some(5)).is_none());
    let d = dispute_of_raw(Some("dp_1".into()), None, Some(1700000000)).unwrap();
    assert_eq!(d.created, 1700000000);
    assert!(dispute_of_raw(None, None, None).is_none());
}
