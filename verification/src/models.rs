//! Records the application hands to its screens.

use vstd::prelude::*;

verus! {

#[derive(Debug)]
pub struct MoneyStatus {
    pub configured: bool,
    pub mode: Option<String>,
    pub account_name: Option<String>,
    pub last_poll_ok: Option<String>,
    pub last_poll_err: Option<String>,
    pub open_order_count: i64,
    /// Public Worker URL the shop page posts carts to. Not a secret.
    pub checkout_endpoint_url: Option<String>,
}

#[derive(Debug)]
pub struct StripeAccountPreview {
    pub account_id: String,
    pub account_name: String,
    pub mode: String,
}

#[derive(Debug)]
pub struct OfferView {
    pub id: Option<String>,
    pub harvest_date: String,
    pub crop_id: String,
    pub crop_name: String,
    pub price_cents: Option<i64>,
    pub stripe_price_id: Option<String>,
    /// Legacy harvest Payment Link URL, unused after cart checkout.
    pub stripe_link_url: Option<String>,
    pub available: i64,
    pub sold: i64,
    pub remaining: i64,
}

#[derive(Debug)]
pub struct ShopPage {
    pub file_path: String,
    pub size_bytes: i64,
    pub generated_at: String,
    pub harvest_dates: Vec<String>,
}

#[derive(Debug)]
pub struct OrderView {
    pub id: String,
    pub stripe_session_id: String,
    pub stripe_payment_intent: Option<String>,
    pub harvest_date: String,
    pub crop_id: String,
    pub crop_name: String,
    pub quantity: i64,
    pub amount_cents: i64,
    pub currency: String,
    pub customer_email: Option<String>,
    pub state: String,
    pub capacity_consumed: i64,
    pub client_reference: Option<String>,
    pub paid_at: String,
    pub created_at: String,
    pub updated_at: String,
}

#[derive(Debug)]
pub enum AppliedOutcome {
    Applied { order_id: String },
    AlreadyApplied,
    /// The session could not be recorded for a durable reason; attention was
    /// raised and the poll may move on.
    Rejected { session_id: String },
}

#[derive(Debug)]
pub struct UndoResult {
    pub undoes_seq: i64,
    pub undone_kind: String,
}

#[derive(Debug)]
pub struct SnapshotInfo {
    pub file_name: String,
    pub path: String,
    pub taken_at: String,
    pub size_bytes: i64,
}

#[derive(Debug)]
pub struct FarmLocation {
    pub farm_db_path: String,
    pub folder_path: String,
    pub last_snapshot_at: Option<String>,
}

#[derive(Debug)]
pub struct RecountCrop {
    pub crop_id: String,
    pub crop_name: String,
    pub app_quantity: i64,
    pub tray_ids: Vec<String>,
}

#[derive(Debug)]
pub struct AttentionItem {
    pub id: String,
    pub kind: String,
    pub entity_type: Option<String>,
    pub entity_id: Option<String>,
    pub message: String,
    pub actions: Vec<String>,
    pub created_at: String,
}

#[derive(Debug)]
pub struct ResolveResult {
    pub tray_ids: Vec<String>,
    /// Set when resolving `open_in_stripe`: the dashboard URL to open.
    pub open_url: Option<String>,
}

#[derive(Debug)]
pub struct ReconciliationOrder {
    pub id: String,
    pub crop_name: String,
    pub quantity: i64,
    pub state: String,
    pub capacity_consumed: i64,
    pub amount_cents: i64,
    pub paid_at: String,
}

#[derive(Debug)]
pub struct ReconciliationDate {
    pub harvest_date: String,
    pub available: i64,
    pub sold: i64,
    pub remaining: i64,
    pub orders: Vec<ReconciliationOrder>,
}

} // verus!
