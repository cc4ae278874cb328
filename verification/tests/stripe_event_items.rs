use farm_os::events::{Payload, PayloadField, PayloadValue};
use farm_os::money::{OrderLinePayload, SessionPaidPayload};
use farm_os::money_events::{
    decode_disputed, decode_flat_paid, decode_paid_header, decode_paid_line, decode_refunded,
    order_id_entry, paid_header_payload, paid_line_payload, session_paid_shape, PaidShape,
};

fn text(k: &str, v: &str) -> PayloadField {
    PayloadField { key: k.to_string(), value: PayloadValue::Text(v.to_string()) }
}

fn whole(k: &str, v: i64) -> PayloadField {
    PayloadField { key: k.to_string(), value: PayloadValue::Number { above_zero: v > 0, integer: Some(v) } }
}

fn mark(k: &str, v: PayloadValue) -> PayloadField {
    PayloadField { key: k.to_string(), value: v }
}

fn obj(fields: Vec<PayloadField>) -> Payload {
    Payload { is_object: true, fields }
}

#[test]
fn paid_session_written_then_read() {
    let sp = SessionPaidPayload {
        order_ids: vec!["o1".into()],
        session_id: "cs_1".into(),
        payment_intent: None,
        harvest_date: "2025-03-20".into(),
        lines: vec![OrderLinePayload { order_id: "o1".into(), crop_id: "kale".into(), quantity: 2, amount_cents: 1200 }],
        amount_cents: 1200,
        currency: "cad".into(),
        customer_email: Some("a@b.c".into()),
        paid_at: "2025-03-09T10:00:00.000Z".into(),
        client_reference: None,
    };
    let top = paid_header_payload(&sp);
    assert_eq!(session_paid_shape(&top).unwrap(), PaidShape::Lines);
    let h = decode_paid_header(&top).unwrap();
    assert_eq!(h.session_id, "cs_1");
    assert_eq!(h.payment_intent, None);
    assert_eq!(h.customer_email.as_deref(), Some("a@b.c"));
    let line = paid_line_payload(&sp.lines[0]);
    let o = decode_paid_line(&h, &line).unwrap();
    assert_eq!(o.order_id, "o1");
    assert_eq!(o.crop_id, "kale");
    assert_eq!(o.quantity, 2);
    assert_eq!(o.amount_cents, 1200);
    assert_eq!(o.harvest_date, "2025-03-20");
}

#[test]
fn paid_session_refusals() {
    let none = obj(vec![text("sessionId", "cs_1")]);
    assert_eq!(
        session_paid_shape(&none).unwrap_err(),
        "stripe.session_paid payload matches neither known shape"
    );
    let flat_marker = obj(vec![mark("orderId", PayloadValue::Null)]);
    assert_eq!(session_paid_shape(&flat_marker).unwrap(), PaidShape::Flat);
    assert_eq!(
        decode_flat_paid(&flat_marker).unwrap_err(),
        "stripe.session_paid payload missing orderId"
    );
    let head = obj(vec![mark("lines", PayloadValue::Array), text("sessionId", "cs_1"), text("harvestDate", "2025-03-20")]);
    assert_eq!(
        decode_paid_header(&head).unwrap_err(),
        "stripe.session_paid payload missing currency"
    );
    let h = decode_paid_header(&obj(vec![
        text("sessionId", "cs_1"),
        text("harvestDate", "2025-03-20"),
        text("currency", "cad"),
        text("paidAt", "t"),
    ]))
    .unwrap();
    let line = obj(vec![text("orderId", "o1"), text("cropId", "kale"), text("quantity", "2")]);
    assert_eq!(decode_paid_line(&h, &line).unwrap_err(), "stripe.session_paid payload missing quantity");
}

#[test]
fn flat_paid_order() {
    let p = obj(vec![
        text("orderId", "o1"),
        text("sessionId", "cs_1"),
        text("harvestDate", "2025-03-20"),
        text("cropId", "kale"),
        whole("quantity", 1),
        whole("amountCents", 600),
        text("currency", "cad"),
        text("paidAt", "t"),
        text("clientReference", "cart-9"),
    ]);
    let o = decode_flat_paid(&p).unwrap();
    assert_eq!(o.amount_cents, 600);
    assert_eq!(o.client_reference.as_deref(), Some("cart-9"));
    assert_eq!(o.payment_intent, None);
}

#[test]
fn refund_and_dispute_payloads() {
    let r = obj(vec![mark("orderIds", PayloadValue::Array), mark("capacityReleased", PayloadValue::Bool(true))]);
    assert!(decode_refunded(&r).unwrap());
    let no_flag = obj(vec![mark("orderIds", PayloadValue::Array)]);
    assert_eq!(
        decode_refunded(&no_flag).unwrap_err(),
        "stripe.refunded payload missing capacityReleased"
    );
    assert_eq!(
        decode_refunded(&obj(vec![])).unwrap_err(),
        "stripe.refunded payload missing orderIds"
    );
    assert!(decode_disputed(&r).is_ok());
    assert_eq!(
        decode_disputed(&obj(vec![])).unwrap_err(),
        "stripe.disputed payload missing orderIds"
    );
    assert_eq!(order_id_entry("stripe.refunded", &PayloadValue::Text("o1".into())).unwrap(), "o1");
    assert_eq!(
        order_id_entry("stripe.disputed", &PayloadValue::Null).unwrap_err(),
        "stripe.disputed orderIds entry not a string"
    );
}
