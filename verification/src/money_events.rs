//! Reading the Stripe events back: the order rows a `stripe.session_paid`
//! event adds, and the orders a refund or dispute names. The live write and
//! the replay share this reading; the shell runs the statements.

use vstd::prelude::*;
use crate::events::{field_index, find_field, keys_unique, Payload, PayloadField, PayloadValue};
use crate::money::{OrderLinePayload, SessionPaidPayload};
use crate::tray_events::{
    int_of, is_array_at, lemma_field_at, owned, p_array, p_int, p_text, text_field, text_of,
};
use crate::trays::opt_view;

verus! {

// --- stripe.session_paid ---------------------------------------------------------

/// The two shapes a `stripe.session_paid` payload has had: one order per line
/// of a `lines` array, or a single flat order.
#[derive(Debug, Clone, Copy, PartialEq, Eq, Structural)]
pub enum PaidShape {
    Lines,
    Flat,
}

/// Whether the payload names `key` at all, whatever it holds.
pub open spec fn p_has(p: Payload, key: Seq<char>) -> bool {
    p.is_object && field_index(p.fields@, key) >= 0
}

pub open spec fn paid_shape(p: Payload) -> Option<PaidShape> {
    if p_array(p, "lines"@) {
        Some(PaidShape::Lines)
    } else if p_has(p, "orderId"@) {
        Some(PaidShape::Flat)
    } else {
        None
    }
}

pub fn session_paid_shape(p: &Payload) -> (r: Result<PaidShape, String>)
    requires
        keys_unique(p.fields@),
    ensures
        match r {
            Ok(s) => paid_shape(*p) == Some(s),
            Err(e) => paid_shape(*p) is None && e@ == "stripe.session_paid payload matches neither known shape"@,
        },
{
    if is_array_at(p, "lines") {
        Ok(PaidShape::Lines)
    } else if p.is_object && find_field(&p.fields, "orderId").is_some() {
        Ok(PaidShape::Flat)
    } else {
        Err(owned("stripe.session_paid payload matches neither known shape"))
    }
}

/// The message for a missing required field.
pub open spec fn paid_missing(key: Seq<char>) -> Seq<char> {
    "stripe.session_paid payload missing "@ + key
}

/// The session fields every order of a `lines` payload shares.
#[derive(Debug)]
pub struct PaidHeader {
    pub session_id: String,
    pub payment_intent: Option<String>,
    pub harvest_date: String,
    pub currency: String,
    pub customer_email: Option<String>,
    pub paid_at: String,
    pub client_reference: Option<String>,
}

pub open spec fn header_problem(p: Payload) -> Option<Seq<char>> {
    if p_text(p, "sessionId"@) is None {
        Some(paid_missing("sessionId"@))
    } else if p_text(p, "harvestDate"@) is None {
        Some(paid_missing("harvestDate"@))
    } else if p_text(p, "currency"@) is None {
        Some(paid_missing("currency"@))
    } else if p_text(p, "paidAt"@) is None {
        Some(paid_missing("paidAt"@))
    } else {
        None
    }
}

pub open spec fn header_fields(p: Payload, h: PaidHeader) -> bool {
    &&& p_text(p, "sessionId"@) == Some(h.session_id@)
    &&& p_text(p, "paymentIntent"@) == opt_view(h.payment_intent)
    &&& p_text(p, "harvestDate"@) == Some(h.harvest_date@)
    &&& p_text(p, "currency"@) == Some(h.currency@)
    &&& p_text(p, "customerEmail"@) == opt_view(h.customer_email)
    &&& p_text(p, "paidAt"@) == Some(h.paid_at@)
    &&& p_text(p, "clientReference"@) == opt_view(h.client_reference)
}

fn opt_text_of(p: &Payload, key: &str) -> (r: Option<String>)
    requires
        keys_unique(p.fields@),
    ensures
        opt_view(r) == p_text(*p, key@),
{
    match text_of(p, key) {
        Some(t) => Some(owned(t)),
        None => None,
    }
}

fn missing(key: &str) -> (r: String)
    ensures
        r@ == paid_missing(key@),
{
    let mut e = owned("stripe.session_paid payload missing ");
    crate::text::push_str(&mut e, key);
    e
}

/// Reads the shared fields of a `lines` payload; a text that is absent, null
/// or not text is no value.
pub fn decode_paid_header(p: &Payload) -> (r: Result<PaidHeader, String>)
    requires
        keys_unique(p.fields@),
    ensures
        r is Err <==> header_problem(*p) is Some,
        match r {
            Ok(h) => header_fields(*p, h),
            Err(e) => header_problem(*p) == Some(e@),
        },
{
    let client_reference = opt_text_of(p, "clientReference");
    let session_id = match text_of(p, "sessionId") {
        Some(t) => owned(t),
        None => return Err(missing("sessionId")),
    };
    let payment_intent = opt_text_of(p, "paymentIntent");
    let harvest_date = match text_of(p, "harvestDate") {
        Some(t) => owned(t),
        None => return Err(missing("harvestDate")),
    };
    let currency = match text_of(p, "currency") {
        Some(t) => owned(t),
        None => return Err(missing("currency")),
    };
    let customer_email = opt_text_of(p, "customerEmail");
    let paid_at = match text_of(p, "paidAt") {
        Some(t) => owned(t),
        None => return Err(missing("paidAt")),
    };
    Ok(PaidHeader { session_id, payment_intent, harvest_date, currency, customer_email, paid_at, client_reference })
}

/// One order row a paid session adds.
#[derive(Debug)]
pub struct OrderInsert {
    pub order_id: String,
    pub session_id: String,
    pub payment_intent: Option<String>,
    pub harvest_date: String,
    pub crop_id: String,
    pub quantity: i64,
    pub amount_cents: i64,
    pub currency: String,
    pub customer_email: Option<String>,
    pub paid_at: String,
    pub client_reference: Option<String>,
}

pub open spec fn line_problem(l: Payload) -> Option<Seq<char>> {
    if p_text(l, "orderId"@) is None {
        Some(paid_missing("orderId"@))
    } else if p_text(l, "cropId"@) is None {
        Some(paid_missing("cropId"@))
    } else if p_int(l, "quantity"@) is None {
        Some(paid_missing("quantity"@))
    } else if p_int(l, "amountCents"@) is None {
        Some(paid_missing("amountCents"@))
    } else {
        None
    }
}

/// The order carries the line's own fields and the header's shared ones.
pub open spec fn order_of_line(h: PaidHeader, l: Payload, o: OrderInsert) -> bool {
    &&& p_text(l, "orderId"@) == Some(o.order_id@)
    &&& p_text(l, "cropId"@) == Some(o.crop_id@)
    &&& p_int(l, "quantity"@) == Some(o.quantity)
    &&& p_int(l, "amountCents"@) == Some(o.amount_cents)
    &&& o.session_id@ == h.session_id@
    &&& opt_view(o.payment_intent) == opt_view(h.payment_intent)
    &&& o.harvest_date@ == h.harvest_date@
    &&& o.currency@ == h.currency@
    &&& opt_view(o.customer_email) == opt_view(h.customer_email)
    &&& o.paid_at@ == h.paid_at@
    &&& opt_view(o.client_reference) == opt_view(h.client_reference)
}

fn clone_text(o: &Option<String>) -> (r: Option<String>)
    ensures
        opt_view(r) == opt_view(*o),
{
    match o {
        Some(s) => Some(s.clone()),
        None => None,
    }
}

/// Reads one line of a `lines` payload into the order it adds.
pub fn decode_paid_line(h: &PaidHeader, line: &Payload) -> (r: Result<OrderInsert, String>)
    requires
        keys_unique(line.fields@),
    ensures
        r is Err <==> line_problem(*line) is Some,
        match r {
            Ok(o) => order_of_line(*h, *line, o),
            Err(e) => line_problem(*line) == Some(e@),
        },
{
    let order_id = match text_of(line, "orderId") {
        Some(t) => owned(t),
        None => return Err(missing("orderId")),
    };
    let crop_id = match text_of(line, "cropId") {
        Some(t) => owned(t),
        None => return Err(missing("cropId")),
    };
    let quantity = match int_of(line, "quantity") {
        Some(q) => q,
        None => return Err(missing("quantity")),
    };
    let amount_cents = match int_of(line, "amountCents") {
        Some(a) => a,
        None => return Err(missing("amountCents")),
    };
    Ok(OrderInsert {
        order_id,
        session_id: h.session_id.clone(),
        payment_intent: clone_text(&h.payment_intent),
        harvest_date: h.harvest_date.clone(),
        crop_id,
        quantity,
        amount_cents,
        currency: h.currency.clone(),
        customer_email: clone_text(&h.customer_email),
        paid_at: h.paid_at.clone(),
        client_reference: clone_text(&h.client_reference),
    })
}

pub open spec fn flat_problem(p: Payload) -> Option<Seq<char>> {
    if p_text(p, "orderId"@) is None {
        Some(paid_missing("orderId"@))
    } else if p_text(p, "sessionId"@) is None {
        Some(paid_missing("sessionId"@))
    } else if p_text(p, "harvestDate"@) is None {
        Some(paid_missing("harvestDate"@))
    } else if p_text(p, "cropId"@) is None {
        Some(paid_missing("cropId"@))
    } else if p_int(p, "quantity"@) is None {
        Some(paid_missing("quantity"@))
    } else if p_int(p, "amountCents"@) is None {
        Some(paid_missing("amountCents"@))
    } else if p_text(p, "currency"@) is None {
        Some(paid_missing("currency"@))
    } else if p_text(p, "paidAt"@) is None {
        Some(paid_missing("paidAt"@))
    } else {
        None
    }
}

pub open spec fn flat_order(p: Payload, o: OrderInsert) -> bool {
    &&& p_text(p, "orderId"@) == Some(o.order_id@)
    &&& p_text(p, "sessionId"@) == Some(o.session_id@)
    &&& p_text(p, "paymentIntent"@) == opt_view(o.payment_intent)
    &&& p_text(p, "harvestDate"@) == Some(o.harvest_date@)
    &&& p_text(p, "cropId"@) == Some(o.crop_id@)
    &&& p_int(p, "quantity"@) == Some(o.quantity)
    &&& p_int(p, "amountCents"@) == Some(o.amount_cents)
    &&& p_text(p, "currency"@) == Some(o.currency@)
    &&& p_text(p, "customerEmail"@) == opt_view(o.customer_email)
    &&& p_text(p, "paidAt"@) == Some(o.paid_at@)
    &&& p_text(p, "clientReference"@) == opt_view(o.client_reference)
}

/// Reads the single order of a flat (older) payload.
pub fn decode_flat_paid(p: &Payload) -> (r: Result<OrderInsert, String>)
    requires
        keys_unique(p.fields@),
    ensures
        r is Err <==> flat_problem(*p) is Some,
        match r {
            Ok(o) => flat_order(*p, o),
            Err(e) => flat_problem(*p) == Some(e@),
        },
{
    let client_reference = opt_text_of(p, "clientReference");
    let order_id = match text_of(p, "orderId") {
        Some(t) => owned(t),
        None => return Err(missing("orderId")),
    };
    let session_id = match text_of(p, "sessionId") {
        Some(t) => owned(t),
        None => return Err(missing("sessionId")),
    };
    let payment_intent = opt_text_of(p, "paymentIntent");
    let harvest_date = match text_of(p, "harvestDate") {
        Some(t) => owned(t),
        None => return Err(missing("harvestDate")),
    };
    let crop_id = match text_of(p, "cropId") {
        Some(t) => owned(t),
        None => return Err(missing("cropId")),
    };
    let quantity = match int_of(p, "quantity") {
        Some(q) => q,
        None => return Err(missing("quantity")),
    };
    let amount_cents = match int_of(p, "amountCents") {
        Some(a) => a,
        None => return Err(missing("amountCents")),
    };
    let currency = match text_of(p, "currency") {
        Some(t) => owned(t),
        None => return Err(missing("currency")),
    };
    let customer_email = opt_text_of(p, "customerEmail");
    let paid_at = match text_of(p, "paidAt") {
        Some(t) => owned(t),
        None => return Err(missing("paidAt")),
    };
    Ok(OrderInsert {
        order_id,
        session_id,
        payment_intent,
        harvest_date,
        crop_id,
        quantity,
        amount_cents,
        currency,
        customer_email,
        paid_at,
        client_reference,
    })
}

// --- stripe.refunded and stripe.disputed ---------------------------------------------

/// Whether the payload holds a boolean at `key`, and which.
pub open spec fn p_bool(p: Payload, key: Seq<char>) -> Option<bool> {
    let i = field_index(p.fields@, key);
    if p.is_object && i >= 0 {
        match p.fields@[i].value {
            PayloadValue::Bool(b) => Some(b),
            _ => None,
        }
    } else {
        None
    }
}

pub open spec fn refund_problem(p: Payload) -> Option<Seq<char>> {
    if !p_array(p, "orderIds"@) {
        Some("stripe.refunded payload missing orderIds"@)
    } else if p_bool(p, "capacityReleased"@) is None {
        Some("stripe.refunded payload missing capacityReleased"@)
    } else {
        None
    }
}

/// Reads a `stripe.refunded` payload: whether the refund gave its capacity
/// back. The order ids follow, one entry at a time (`order_id_entry`).
pub fn decode_refunded(p: &Payload) -> (r: Result<bool, String>)
    requires
        keys_unique(p.fields@),
    ensures
        r is Err <==> refund_problem(*p) is Some,
        match r {
            Ok(b) => p_bool(*p, "capacityReleased"@) == Some(b),
            Err(e) => refund_problem(*p) == Some(e@),
        },
{
    if !is_array_at(p, "orderIds") {
        return Err(owned("stripe.refunded payload missing orderIds"));
    }
    if !p.is_object {
        return Err(owned("stripe.refunded payload missing capacityReleased"));
    }
    match find_field(&p.fields, "capacityReleased") {
        Some(i) => match &p.fields[i].value {
            PayloadValue::Bool(b) => Ok(*b),
            _ => Err(owned("stripe.refunded payload missing capacityReleased")),
        },
        None => Err(owned("stripe.refunded payload missing capacityReleased")),
    }
}

/// Reads a `stripe.disputed` payload: it must list its orders.
pub fn decode_disputed(p: &Payload) -> (r: Result<(), String>)
    requires
        keys_unique(p.fields@),
    ensures
        r is Ok <==> p_array(*p, "orderIds"@),
        r matches Err(e) ==> e@ == "stripe.disputed payload missing orderIds"@,
{
    if is_array_at(p, "orderIds") {
        Ok(())
    } else {
        Err(owned("stripe.disputed payload missing orderIds"))
    }
}

/// One entry of `orderIds`: an order id, or the refusal for `kind`
/// (`stripe.refunded` or `stripe.disputed`).
pub fn order_id_entry(kind: &str, v: &PayloadValue) -> (r: Result<String, String>)
    ensures
        match r {
            Ok(id) => v matches PayloadValue::Text(t) && t@ == id@,
            Err(e) => !(v is Text) && e@ == kind@ + " orderIds entry not a string"@,
        },
{
    match v {
        PayloadValue::Text(t) => Ok(t.clone()),
        _ => {
            let mut e = owned(kind);
            crate::text::push_str(&mut e, " orderIds entry not a string");
            Err(e)
        },
    }
}

// --- writing a paid session, and reading it back --------------------------------------

fn opt_text_field(key: &str, v: &Option<String>) -> (r: PayloadField)
    ensures
        r.key@ == key@,
        match v {
            Some(s) => r.value matches PayloadValue::Text(t) && t@ == s@,
            None => r.value is Null,
        },
{
    match v {
        Some(s) => text_field(key, s.as_str()),
        None => PayloadField { key: owned(key), value: PayloadValue::Null },
    }
}

fn marker_field(key: &str, value: PayloadValue) -> (r: PayloadField)
    ensures
        r.key@ == key@,
        r.value == value,
{
    PayloadField { key: owned(key), value }
}

/// What the top of a written `stripe.session_paid` payload holds.
pub open spec fn describes_paid_header(p: Payload, sp: SessionPaidPayload) -> bool {
    &&& p.is_object
    &&& keys_unique(p.fields@)
    &&& p_array(p, "orderIds"@)
    &&& p_array(p, "lines"@)
    &&& p_text(p, "sessionId"@) == Some(sp.session_id@)
    &&& p_text(p, "paymentIntent"@) == opt_view(sp.payment_intent)
    &&& p_text(p, "harvestDate"@) == Some(sp.harvest_date@)
    &&& p_int(p, "amountCents"@) == Some(sp.amount_cents)
    &&& p_text(p, "currency"@) == Some(sp.currency@)
    &&& p_text(p, "customerEmail"@) == opt_view(sp.customer_email)
    &&& p_text(p, "paidAt"@) == Some(sp.paid_at@)
    &&& p_text(p, "clientReference"@) == opt_view(sp.client_reference)
}

/// The top of a `stripe.session_paid` payload: `orderIds` and `lines` (their
/// entries are written one by one), the session's id, payment intent,
/// harvest date, total, currency, email, payment time and cart reference;
/// an absent optional field is written as null.
pub fn paid_header_payload(sp: &SessionPaidPayload) -> (r: Payload)
    ensures
        describes_paid_header(r, *sp),
{
    proof {
        reveal_strlit("orderIds");
        reveal_strlit("sessionId");
        reveal_strlit("paymentIntent");
        reveal_strlit("harvestDate");
        reveal_strlit("lines");
        reveal_strlit("amountCents");
        reveal_strlit("currency");
        reveal_strlit("customerEmail");
        reveal_strlit("paidAt");
        reveal_strlit("clientReference");
    }
    let mut fields: Vec<PayloadField> = Vec::new();
    fields.push(marker_field("orderIds", PayloadValue::Array));
    fields.push(text_field("sessionId", sp.session_id.as_str()));
    fields.push(opt_text_field("paymentIntent", &sp.payment_intent));
    fields.push(text_field("harvestDate", sp.harvest_date.as_str()));
    fields.push(marker_field("lines", PayloadValue::Array));
    fields.push(marker_field(
        "amountCents",
        PayloadValue::Number { above_zero: sp.amount_cents > 0, integer: Some(sp.amount_cents) },
    ));
    fields.push(text_field("currency", sp.currency.as_str()));
    fields.push(opt_text_field("customerEmail", &sp.customer_email));
    fields.push(text_field("paidAt", sp.paid_at.as_str()));
    fields.push(opt_text_field("clientReference", &sp.client_reference));
    let p = Payload { is_object: true, fields };
    proof {
        let f = p.fields@;
        assert("orderIds"@.len() == 8 && "sessionId"@.len() == 9 && "paymentIntent"@.len() == 13);
        assert("harvestDate"@.len() == 11 && "lines"@.len() == 5 && "amountCents"@.len() == 11);
        assert("currency"@.len() == 8 && "customerEmail"@.len() == 13 && "paidAt"@.len() == 6);
        assert("clientReference"@.len() == 15);
        assert("orderIds"@[0] != "currency"@[0]);
        assert("harvestDate"@[0] != "amountCents"@[0]);
        assert("paymentIntent"@[0] != "customerEmail"@[0]);
        assert(keys_unique(f));
        lemma_field_at(f, 0, "orderIds"@);
        lemma_field_at(f, 1, "sessionId"@);
        lemma_field_at(f, 2, "paymentIntent"@);
        lemma_field_at(f, 3, "harvestDate"@);
        lemma_field_at(f, 4, "lines"@);
        lemma_field_at(f, 5, "amountCents"@);
        lemma_field_at(f, 6, "currency"@);
        lemma_field_at(f, 7, "customerEmail"@);
        lemma_field_at(f, 8, "paidAt"@);
        lemma_field_at(f, 9, "clientReference"@);
    }
    p
}

/// What a written line of a `stripe.session_paid` payload holds.
pub open spec fn describes_paid_line(p: Payload, l: OrderLinePayload) -> bool {
    &&& p.is_object
    &&& keys_unique(p.fields@)
    &&& p_text(p, "orderId"@) == Some(l.order_id@)
    &&& p_text(p, "cropId"@) == Some(l.crop_id@)
    &&& p_int(p, "quantity"@) == Some(l.quantity)
    &&& p_int(p, "amountCents"@) == Some(l.amount_cents)
}

/// One line of a `stripe.session_paid` payload: `orderId`, `cropId`,
/// `quantity` and `amountCents`.
pub fn paid_line_payload(l: &OrderLinePayload) -> (r: Payload)
    ensures
        describes_paid_line(r, *l),
{
    proof {
        reveal_strlit("orderId");
        reveal_strlit("cropId");
        reveal_strlit("quantity");
        reveal_strlit("amountCents");
    }
    let mut fields: Vec<PayloadField> = Vec::new();
    fields.push(text_field("orderId", l.order_id.as_str()));
    fields.push(text_field("cropId", l.crop_id.as_str()));
    fields.push(marker_field("quantity", PayloadValue::Number { above_zero: l.quantity > 0, integer: Some(l.quantity) }));
    fields.push(marker_field(
        "amountCents",
        PayloadValue::Number { above_zero: l.amount_cents > 0, integer: Some(l.amount_cents) },
    ));
    let p = Payload { is_object: true, fields };
    proof {
        let f = p.fields@;
        assert("orderId"@.len() == 7 && "cropId"@.len() == 6 && "quantity"@.len() == 8 && "amountCents"@.len() == 11);
        assert(keys_unique(f));
        lemma_field_at(f, 0, "orderId"@);
        lemma_field_at(f, 1, "cropId"@);
        lemma_field_at(f, 2, "quantity"@);
        lemma_field_at(f, 3, "amountCents"@);
    }
    p
}

/// A paid session as written reads back as itself: the payload has the
/// `lines` shape, its shared fields are accepted, and the fields read are the
/// session's own.
pub proof fn lemma_paid_header_reads_back(p: Payload, sp: SessionPaidPayload, h: PaidHeader)
    requires
        describes_paid_header(p, sp),
    ensures
        paid_shape(p) == Some(PaidShape::Lines),
        header_problem(p) is None,
        header_fields(p, h) ==> {
            &&& h.session_id@ == sp.session_id@
            &&& opt_view(h.payment_intent) == opt_view(sp.payment_intent)
            &&& h.harvest_date@ == sp.harvest_date@
            &&& h.currency@ == sp.currency@
            &&& opt_view(h.customer_email) == opt_view(sp.customer_email)
            &&& h.paid_at@ == sp.paid_at@
            &&& opt_view(h.client_reference) == opt_view(sp.client_reference)
        },
{
}

/// Each line as written reads back as the order it records, under the
/// session's shared fields.
pub proof fn lemma_paid_line_reads_back(p: Payload, l: OrderLinePayload, h: PaidHeader, o: OrderInsert)
    requires
        describes_paid_line(p, l),
    ensures
        line_problem(p) is None,
        order_of_line(h, p, o) ==> {
            &&& o.order_id@ == l.order_id@
            &&& o.crop_id@ == l.crop_id@
            &&& o.quantity == l.quantity
            &&& o.amount_cents == l.amount_cents
            &&& o.session_id@ == h.session_id@
        },
{
}

} // verus!
