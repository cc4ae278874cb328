//! Money: the records that come back from Stripe, the restricted-key and
//! checkout-address rules, and the confirm-then-consume decisions taken on a
//! paid session.
//!
//! Farm OS never records an order, payment or stock movement that also lives
//! in the commercial app. Attribution of a paid line to a crop and harvest date
//! goes through the farm's own offers (by Stripe Price id), never metadata.

use crate::dates::{iso_date_fields, parse_iso_date, short_month, short_month_name};
use crate::models::MoneyStatus;
use vstd::multiset::Multiset;
use crate::trays::{clone_opt, opt_view};
use crate::text::{
    contains, contains_seq, lex_lt, lex_le, str_eq, str_lt, lemma_lex_trichotomy, lemma_lex_le_transitive,
    contains_char, dec_int, dec_nat, eq_ignore_ascii_case, has_char, has_prefix, lower_seq, push_char,
    push_int, push_nat, push_str, push_two_digits, starts_with, to_ascii_lowercase, to_ascii_uppercase,
    trim, trim_seq, two_digits, upper_seq,
};
use vstd::prelude::*;

verus! {

/// Live Stripe keys are refused. Flipping this is a deliberate code change,
/// reviewed and rebuilt: never a setting.
pub const ALLOW_LIVE_KEYS: bool = false;

#[derive(Debug)]
pub struct AccountInfo {
    pub account_id: String,
    pub account_name: String,
    pub mode: String,
}

#[derive(Debug)]
pub struct Offer {
    pub id: String,
    pub harvest_date: String,
    pub crop_id: String,
    pub price_cents: i64,
    pub stripe_price_id: Option<String>,
    pub stripe_link_id: Option<String>,
    pub stripe_link_url: Option<String>,
    pub created_at: String,
}

#[derive(Debug)]
pub struct StripeLink {
    pub price_id: String,
    pub link_id: String,
    pub url: String,
}

/// One Checkout Session line item, identified by Stripe Price id.
#[derive(Debug)]
pub struct PaidLine {
    pub price_id: String,
    pub quantity: i64,
    pub amount_cents: i64,
}

#[derive(Debug)]
pub struct PaidSession {
    pub session_id: String,
    pub payment_intent: Option<String>,
    /// Lines with quantity at least one.
    pub lines: Vec<PaidLine>,
    pub currency: String,
    pub customer_email: Option<String>,
    pub paid_at: String,
    /// Unix seconds; the poll cursor.
    pub created: i64,
    /// Session total.
    pub amount_cents: i64,
    /// Browser-minted cart reference (`client_reference_id`).
    pub client_reference: Option<String>,
}

/// A harvest Payment Link line (kept for the legacy signature helper).
#[derive(Debug)]
pub struct HarvestLinkLine {
    pub price_id: String,
    pub max_quantity: i64,
}

#[derive(Debug)]
pub struct RefundRecord {
    pub refund_id: String,
    pub payment_intent: Option<String>,
    pub session_id: Option<String>,
    pub created: i64,
}

#[derive(Debug)]
pub struct DisputeRecord {
    pub dispute_id: String,
    pub payment_intent: Option<String>,
    pub session_id: Option<String>,
    pub created: i64,
}

/// A paid Checkout Session that could not be read into a `PaidSession`.
#[derive(Debug)]
pub struct UnparsedSession {
    pub session_id: String,
    pub created: i64,
    pub amount_cents: i64,
    pub currency: String,
    /// Plain English, never raw JSON.
    pub reason: String,
}

#[derive(Debug, Default)]
pub struct SessionPage {
    pub parsed: Vec<PaidSession>,
    pub unparsed: Vec<UnparsedSession>,
}

impl SessionPage {
    pub fn from_parsed(parsed: Vec<PaidSession>) -> (r: Self)
        ensures
            r.parsed@ == parsed@,
            r.unparsed@.len() == 0,
    {
        SessionPage { parsed, unparsed: Vec::new() }
    }

    pub fn is_empty(&self) -> (r: bool)
        ensures
            r == (self.parsed@.len() == 0 && self.unparsed@.len() == 0),
    {
        self.parsed.len() == 0 && self.unparsed.len() == 0
    }
}

/// Result of applying a refund or dispute fact.
#[derive(Debug, Clone, Copy, PartialEq, Eq, Structural)]
pub enum FactOutcome {
    Applied,
    AlreadyApplied,
    /// The fact arrived before its paid session: a safe no-op, and the poll
    /// must not advance past it.
    AwaitingOrder,
}

/// The Stripe boundary. Implemented over HTTP by the application shell and by
/// test doubles; nothing here states what Stripe answers.
pub trait StripeGateway {
    fn account(&self) -> Result<AccountInfo, String>;

    /// Creates a Stripe Product and Price for one crop offer; returns the price id.
    fn create_price(&self, offer: &Offer) -> Result<String, String>;

    /// Legacy harvest Payment Link creator.
    fn create_harvest_payment_link(&self, harvest_date: &str, lines: &[HarvestLinkLine]) -> Result<(String, String), String>;

    fn deactivate_link(&self, link_id: &str) -> Result<(), String>;

    fn list_paid_sessions(&self, since: Option<&str>) -> Result<Vec<PaidSession>, String>;

    fn list_refunds(&self, since: Option<&str>) -> Result<Vec<RefundRecord>, String>;

    fn list_disputes(&self, since: Option<&str>) -> Result<Vec<DisputeRecord>, String>;

    /// Page-sized lists. By default one page wrapping `list_paid_sessions`:
    /// what it returns, its sessions all parsed, or its error.
    fn list_paid_session_pages(&self, since: Option<&str>) -> (r: Result<Vec<SessionPage>, String>)
        default_ensures
            exists|got: Result<Vec<PaidSession>, String>| call_ensures(Self::list_paid_sessions, (self, since), got) && match got {
                Ok(v) => r matches Ok(p) && p@.len() == 1 && p@[0].parsed@ == v@ && p@[0].unparsed@.len() == 0,
                Err(e) => r == Err::<Vec<SessionPage>, String>(e),
            },
    {
        match self.list_paid_sessions(since) {
            Ok(s) => {
                let mut v = Vec::new();
                v.push(SessionPage::from_parsed(s));
                Ok(v)
            },
            Err(e) => Err(e),
        }
    }

    /// By default one page holding what `list_refunds` returns, or its error.
    fn list_refund_pages(&self, since: Option<&str>) -> (r: Result<Vec<Vec<RefundRecord>>, String>)
        default_ensures
            exists|got: Result<Vec<RefundRecord>, String>| call_ensures(Self::list_refunds, (self, since), got) && match got {
                Ok(v) => r matches Ok(p) && p@.len() == 1 && p@[0]@ == v@,
                Err(e) => r == Err::<Vec<Vec<RefundRecord>>, String>(e),
            },
    {
        match self.list_refunds(since) {
            Ok(s) => {
                let mut v = Vec::new();
                v.push(s);
                Ok(v)
            },
            Err(e) => Err(e),
        }
    }

    /// By default one page holding what `list_disputes` returns, or its error.
    fn list_dispute_pages(&self, since: Option<&str>) -> (r: Result<Vec<Vec<DisputeRecord>>, String>)
        default_ensures
            exists|got: Result<Vec<DisputeRecord>, String>| call_ensures(Self::list_disputes, (self, since), got) && match got {
                Ok(v) => r matches Ok(p) && p@.len() == 1 && p@[0]@ == v@,
                Err(e) => r == Err::<Vec<Vec<DisputeRecord>>, String>(e),
            },
    {
        match self.list_disputes(since) {
            Ok(s) => {
                let mut v = Vec::new();
                v.push(s);
                Ok(v)
            },
            Err(e) => Err(e),
        }
    }
}

// --- Key validation ---------------------------------------------------------

/// What the restricted-key check answers for a pasted key: the mode (`test`
/// or `live`) or the message shown to the grower.
pub open spec fn key_verdict(key: Seq<char>) -> Result<Seq<char>, Seq<char>> {
    let k = trim_seq(key);
    if k.len() == 0 {
        Err("Paste a restricted key to connect Stripe."@)
    } else if has_prefix(k, "sk_"@) {
        Err("That's a secret key. Farm OS needs a restricted key, which can do less if it ever leaks."@)
    } else if !has_prefix(k, "rk_"@) {
        Err("Farm OS needs a restricted key (it starts with rk_). Create one in the Stripe Dashboard."@)
    } else if has_prefix(k, "rk_live_"@) {
        if !ALLOW_LIVE_KEYS {
            Err("Farm OS is in test mode. Live keys are not accepted yet."@)
        } else {
            Ok("live"@)
        }
    } else if has_prefix(k, "rk_test_"@) {
        Ok("test"@)
    } else {
        Err("Farm OS needs a restricted key (rk_test_… or rk_live_…). Create one in the Stripe Dashboard."@)
    }
}

/// Checks the key's shape and the test-mode lock; returns `"test"` or `"live"`.
/// Never echoes the key.
pub fn validate_restricted_key(key: &str) -> (r: Result<&'static str, String>)
    ensures
        match r {
            Ok(m) => key_verdict(key@) == Ok::<Seq<char>, Seq<char>>(m@),
            Err(e) => key_verdict(key@) == Err::<Seq<char>, Seq<char>>(e@),
        },
{
    let t = trim(key);
    let k = t.as_str();
    if k.unicode_len() == 0 {
        return Err(String::from_str("Paste a restricted key to connect Stripe."));
    }
    if starts_with(k, "sk_") {
        return Err(String::from_str("That's a secret key. Farm OS needs a restricted key, which can do less if it ever leaks."));
    }
    if !starts_with(k, "rk_") {
        return Err(String::from_str("Farm OS needs a restricted key (it starts with rk_). Create one in the Stripe Dashboard."));
    }
    if starts_with(k, "rk_live_") {
        if !ALLOW_LIVE_KEYS {
            return Err(String::from_str("Farm OS is in test mode. Live keys are not accepted yet."));
        }
        return Ok("live");
    }
    if starts_with(k, "rk_test_") {
        return Ok("test");
    }
    Err(String::from_str("Farm OS needs a restricted key (rk_test_… or rk_live_…). Create one in the Stripe Dashboard."))
}

/// The checkout-address rule: what is stored, or the message shown.
pub open spec fn checkout_url_verdict(url: Seq<char>) -> Result<Seq<char>, Seq<char>> {
    let u = trim_seq(url);
    if u.len() == 0 {
        Err("Paste the checkout address from your Worker deploy."@)
    } else if !has_prefix(lower_seq(u), "https://"@) {
        Err("Checkout address must be an https:// URL."@)
    } else if has_char(lower_seq(u), ' ') || has_char(u, '\n') || has_char(u, '\r') {
        Err("Checkout address is not a valid URL."@)
    } else {
        Ok(u)
    }
}

/// Validates the public checkout Worker URL (https only); returns it trimmed.
pub fn validate_checkout_endpoint_url(url: &str) -> (r: Result<String, String>)
    ensures
        match r {
            Ok(u) => checkout_url_verdict(url@) == Ok::<Seq<char>, Seq<char>>(u@),
            Err(e) => checkout_url_verdict(url@) == Err::<Seq<char>, Seq<char>>(e@),
        },
{
    let u = trim(url);
    if u.as_str().unicode_len() == 0 {
        return Err(String::from_str("Paste the checkout address from your Worker deploy."));
    }
    let lower = to_ascii_lowercase(u.as_str());
    if !starts_with(lower.as_str(), "https://") {
        return Err(String::from_str("Checkout address must be an https:// URL."));
    }
    if contains_char(lower.as_str(), ' ') || contains_char(u.as_str(), '\n') || contains_char(u.as_str(), '\r') {
        return Err(String::from_str("Checkout address is not a valid URL."));
    }
    Ok(u)
}

// --- Wording ----------------------------------------------------------------

/// `"1 tray"` or `"{n} trays"`.
pub open spec fn tray_phrase(n: int) -> Seq<char> {
    if n == 1 {
        "1 tray"@
    } else {
        dec_int(n) + " trays"@
    }
}

pub fn tray_word(n: i64) -> (r: String)
    ensures
        r@ == tray_phrase(n as int),
{
    if n == 1 {
        String::from_str("1 tray")
    } else {
        let mut s = String::new();
        push_int(&mut s, n);
        push_str(&mut s, " trays");
        s
    }
}

/// Same wording as `tray_word`, for the oversold message.
pub fn oversold_word(n: i64) -> (r: String)
    ensures
        r@ == tray_phrase(n as int),
{
    tray_word(n)
}

/// `$D.CC` style amount of `cents` with two decimals: sign, whole units, cents.
pub open spec fn amount_text(cents: int) -> Seq<char> {
    let mag = if cents < 0 { -cents } else { cents };
    (if cents < 0 { "-"@ } else { ""@ }) + dec_nat((mag / 100) as nat) + "."@ + two_digits((mag % 100) as nat)
}

/// How an amount is written in Attention copy: `$12.00` for CAD and USD,
/// otherwise `12.00 EUR`.
pub open spec fn money_amount_text(cents: int, currency: Seq<char>) -> Seq<char> {
    if lower_seq(currency) == "cad"@ || lower_seq(currency) == "usd"@ {
        "$"@ + amount_text(cents)
    } else {
        amount_text(cents) + " "@ + upper_seq(currency)
    }
}

proof fn lemma_lower_literals()
    ensures
        lower_seq("cad"@) == "cad"@,
        lower_seq("usd"@) == "usd"@,
{
    reveal_strlit("cad");
    reveal_strlit("usd");
    assert(lower_seq("cad"@) =~= "cad"@);
    assert(lower_seq("usd"@) =~= "usd"@);
}

fn push_amount(out: &mut String, cents: i64)
    ensures
        final(out)@ == old(out)@ + amount_text(cents as int),
{
    let mag: u64 = if cents < 0 { (0i128 - (cents as i128)) as u64 } else { cents as u64 };
    if cents < 0 {
        push_char(out, '-');
    }
    let ghost mid = out@;
    push_nat(out, mag / 100);
    push_char(out, '.');
    push_two_digits(out, mag % 100);
    proof {
        reveal_strlit("-");
        reveal_strlit("");
        reveal_strlit(".");
        let sign = if cents < 0 { "-"@ } else { ""@ };
        assert(mid =~= old(out)@ + sign);
        assert(final(out)@ =~= old(out)@ + amount_text(cents as int));
    }
}

/// Writes an amount for Attention copy. The whole-unit and cent digits are
/// taken from the integer cents directly.
pub fn format_money_amount(cents: i64, currency: &str) -> (r: String)
    ensures
        r@ == money_amount_text(cents as int, currency@),
{
    proof {
        lemma_lower_literals();
    }
    let mut s = String::new();
    if eq_ignore_ascii_case(currency, "cad") || eq_ignore_ascii_case(currency, "usd") {
        push_char(&mut s, '$');
        push_amount(&mut s, cents);
        proof {
            reveal_strlit("$");
            assert(s@ =~= "$"@ + amount_text(cents as int));
        }
    } else {
        push_amount(&mut s, cents);
        push_char(&mut s, ' ');
        let up = to_ascii_uppercase(currency);
        push_str(&mut s, up.as_str());
        proof {
            reveal_strlit(" ");
            assert(s@ =~= amount_text(cents as int) + " "@ + upper_seq(currency@));
        }
    }
    s
}

/// `Mon D` for a `YYYY-MM-DD` date, or the text unchanged when chrono does
/// not read it as a date.
pub open spec fn short_month_day_text(s: Seq<char>) -> Seq<char> {
    match iso_date_fields(s) {
        Some((y, m, d, w)) => short_month(m as int) + " "@ + dec_nat(d as nat),
        None => s,
    }
}

pub fn format_short_month_day(yyyy_mm_dd: &str) -> (r: String)
    ensures
        r@ == short_month_day_text(yyyy_mm_dd@),
{
    match parse_iso_date(yyyy_mm_dd) {
        Some((_y, m, d, _w)) => {
            let mut s = String::from_str(short_month_name(m));
            push_char(&mut s, ' ');
            push_nat(&mut s, d as u64);
            proof {
                reveal_strlit(" ");
                assert(s@ =~= short_month(m as int) + " "@ + dec_nat(d as nat));
            }
            s
        },
        None => String::from_str(yyyy_mm_dd),
    }
}

// --- Paid sessions: attribution through the farm's own offers -----------------

/// A local offer, found by its Stripe Price id.
#[derive(Debug)]
pub struct PriceOffer {
    pub stripe_price_id: String,
    pub crop_id: String,
    pub harvest_date: String,
}

/// A paid line resolved to a crop.
#[derive(Debug)]
pub struct ResolvedLine {
    pub crop_id: String,
    pub quantity: i64,
    pub amount_cents: i64,
}

/// Index of the first offer with this price id, or -1.
pub open spec fn offer_index(offers: Seq<PriceOffer>, price: Seq<char>, i: int) -> int
    decreases offers.len() - i,
{
    if i < 0 || i >= offers.len() {
        -1
    } else if offers[i].stripe_price_id@ == price {
        i
    } else {
        offer_index(offers, price, i + 1)
    }
}

/// The lines that carry a quantity.
pub open spec fn counted_lines(lines: Seq<PaidLine>) -> Seq<PaidLine>
    decreases lines.len(),
{
    if lines.len() == 0 {
        Seq::empty()
    } else if lines.last().quantity >= 1 {
        counted_lines(lines.drop_last()).push(lines.last())
    } else {
        counted_lines(lines.drop_last())
    }
}

/// A counted line is bad when no offer has its price, or when its offer is
/// for another harvest date than the first line's.
pub open spec fn line_bad(offers: Seq<PriceOffer>, ls: Seq<PaidLine>, k: int) -> bool {
    let o = offer_index(offers, ls[k].price_id@, 0);
    o < 0 || offers[o].harvest_date@ != offers[offer_index(offers, ls[0].price_id@, 0)].harvest_date@
}

/// The first bad counted line, or -1.
pub open spec fn first_bad_line(offers: Seq<PriceOffer>, ls: Seq<PaidLine>, k: int) -> int
    decreases ls.len() - k,
{
    if k < 0 || k >= ls.len() {
        -1
    } else if line_bad(offers, ls, k) {
        k
    } else {
        first_bad_line(offers, ls, k + 1)
    }
}

/// How a session's lines resolve: every line with a quantity must match a
/// local offer, all on one harvest date; the answer is that date and, per
/// counted line, the offer's crop with the line's quantity and amount.
pub open spec fn resolution(offers: Seq<PriceOffer>, lines: Seq<PaidLine>) -> Result<(Seq<char>, Seq<(Seq<char>, i64, i64)>), Seq<char>> {
    let ls = counted_lines(lines);
    let bad = first_bad_line(offers, ls, 0);
    if bad >= 0 {
        if offer_index(offers, ls[bad].price_id@, 0) < 0 {
            Err("no local offer for price "@ + ls[bad].price_id@)
        } else {
            Err("lines in one session pointed at different harvest dates"@)
        }
    } else if ls.len() == 0 {
        Err("session has no line item quantity"@)
    } else {
        Ok((
            offers[offer_index(offers, ls[0].price_id@, 0)].harvest_date@,
            ls.map_values(|l: PaidLine| (offers[offer_index(offers, l.price_id@, 0)].crop_id@, l.quantity, l.amount_cents)),
        ))
    }
}

proof fn lemma_offer_index_bounds(offers: Seq<PriceOffer>, price: Seq<char>, i: int)
    requires
        0 <= i,
    ensures
        offer_index(offers, price, i) == -1 || (i <= offer_index(offers, price, i) < offers.len()
            && offers[offer_index(offers, price, i)].stripe_price_id@ == price),
    decreases offers.len() - i,
{
    if i < offers.len() && offers[i].stripe_price_id@ != price {
        lemma_offer_index_bounds(offers, price, i + 1);
    }
}

fn find_offer(offers: &Vec<PriceOffer>, price: &str) -> (r: Option<usize>)
    ensures
        match r {
            Some(i) => i < offers@.len() && i as int == offer_index(offers@, price@, 0),
            None => offer_index(offers@, price@, 0) == -1,
        },
{
    let n = offers.len();
    let mut i: usize = 0;
    while i < n
        invariant
            n == offers@.len(),
            i <= n,
            offer_index(offers@, price@, 0) == offer_index(offers@, price@, i as int),
        decreases n - i,
    {
        if str_eq(offers[i].stripe_price_id.as_str(), price) {
            return Some(i);
        }
        i = i + 1;
    }
    None
}

proof fn lemma_counted_prefix(lines: Seq<PaidLine>, i: int)
    requires
        0 <= i < lines.len(),
    ensures
        counted_lines(lines.subrange(0, i + 1)) == if lines[i].quantity >= 1 {
            counted_lines(lines.subrange(0, i)).push(lines[i])
        } else {
            counted_lines(lines.subrange(0, i))
        },
{
    assert(lines.subrange(0, i + 1).drop_last() =~= lines.subrange(0, i));
}

proof fn lemma_first_bad_prefix(offers: Seq<PriceOffer>, ls: Seq<PaidLine>, x: PaidLine)
    requires
        ls.len() > 0,
        first_bad_line(offers, ls, 0) == -1,
        !line_bad(offers, ls.push(x), ls.len() as int),
    ensures
        first_bad_line(offers, ls.push(x), 0) == -1,
{
    lemma_first_bad_step(offers, ls, x, 0);
}

proof fn lemma_first_bad_step(offers: Seq<PriceOffer>, ls: Seq<PaidLine>, x: PaidLine, k: int)
    requires
        ls.len() > 0,
        0 <= k <= ls.len(),
        first_bad_line(offers, ls, k) == -1,
        !line_bad(offers, ls.push(x), ls.len() as int),
    ensures
        first_bad_line(offers, ls.push(x), k) == -1,
    decreases ls.len() - k,
{
    let t = ls.push(x);
    if k < ls.len() {
        assert(t[k] == ls[k]);
        assert(t[0] == ls[0]);
        assert(line_bad(offers, t, k) == line_bad(offers, ls, k));
        lemma_first_bad_step(offers, ls, x, k + 1);
    } else {
        assert(first_bad_line(offers, t, k + 1) == -1);
    }
}

proof fn lemma_first_bad_found(offers: Seq<PriceOffer>, ls: Seq<PaidLine>, x: PaidLine, k: int)
    requires
        0 <= k <= ls.len(),
        first_bad_line(offers, ls, k) == -1,
        line_bad(offers, ls.push(x), ls.len() as int),
        ls.len() > 0 || k == 0,
    ensures
        first_bad_line(offers, ls.push(x), k) == ls.len(),
    decreases ls.len() - k,
{
    let t = ls.push(x);
    if k < ls.len() {
        assert(t[k] == ls[k]);
        assert(t[0] == ls[0]);
        assert(line_bad(offers, t, k) == line_bad(offers, ls, k));
        lemma_first_bad_found(offers, ls, x, k + 1);
    }
}

/// Resolves a paid session's lines against the local offers (see `resolution`);
/// Stripe metadata is never read for attribution.
pub fn resolve_lines(offers: &Vec<PriceOffer>, session: &PaidSession) -> (r: Result<(String, Vec<ResolvedLine>), String>)
    ensures
        match r {
            Ok((date, rs)) => resolution(offers@, session.lines@) == Ok::<(Seq<char>, Seq<(Seq<char>, i64, i64)>), Seq<char>>((
                date@,
                rs@.map_values(|l: ResolvedLine| (l.crop_id@, l.quantity, l.amount_cents)),
            )),
            Err(e) => resolution(offers@, session.lines@) == Err::<(Seq<char>, Seq<(Seq<char>, i64, i64)>), Seq<char>>(e@),
        },
{
    let lines = &session.lines;
    let ghost all = lines@;
    let n = lines.len();
    let mut resolved: Vec<ResolvedLine> = Vec::new();
    let mut harvest_date: Option<String> = None;
    let mut i: usize = 0;
    while i < n
        invariant
            n == all.len(),
            all == lines@,
            all == session.lines@,
            i <= n,
            first_bad_line(offers@, counted_lines(all.subrange(0, i as int)), 0) == -1,
            ({
                let ls = counted_lines(all.subrange(0, i as int));
                &&& (ls.len() == 0) == (harvest_date is None)
                &&& (harvest_date matches Some(h) ==> h@ == offers@[offer_index(offers@, ls[0].price_id@, 0)].harvest_date@)
                &&& resolved@.map_values(|l: ResolvedLine| (l.crop_id@, l.quantity, l.amount_cents))
                    == ls.map_values(|l: PaidLine| (offers@[offer_index(offers@, l.price_id@, 0)].crop_id@, l.quantity, l.amount_cents))
            }),
        decreases n - i,
    {
        let ghost ls0 = counted_lines(all.subrange(0, i as int));
        proof {
            lemma_counted_prefix(all, i as int);
        }
        let line = &lines[i];
        if line.quantity >= 1 {
            let ghost ls1 = ls0.push(all[i as int]);
            let found = find_offer(offers, line.price_id.as_str());
            proof {
                lemma_offer_index_bounds(offers@, line.price_id@, 0);
                if ls0.len() > 0 {
                    lemma_offer_index_bounds(offers@, ls0[0].price_id@, 0);
                }
                assert(ls1[ls0.len() as int] == *line);
                assert(ls0.len() > 0 ==> ls1[0] == ls0[0]);
            }
            match found {
                None => {
                    proof {
                        lemma_first_bad_found(offers@, ls0, *line, 0);
                    }
                    let mut e = String::from_str("no local offer for price ");
                    push_str(&mut e, line.price_id.as_str());
                    proof {
                        lemma_counted_prefix(all, i as int);
                        lemma_counted_tail(offers@, all, i as int);
                        let t = counted_lines(all);
                        let k = ls0.len() as int;
                        assert(t[k] == *line);
                        assert(offer_index(offers@, t[k].price_id@, 0) < 0);
                        assert(resolution(offers@, all) == Err::<(Seq<char>, Seq<(Seq<char>, i64, i64)>), Seq<char>>(e@));
                    }
                    return Err(e);
                },
                Some(k) => {
                    let hd = &offers[k].harvest_date;
                    let same = match &harvest_date {
                        None => true,
                        Some(existing) => str_eq(existing.as_str(), hd.as_str()),
                    };
                    if !same {
                        let e = String::from_str("lines in one session pointed at different harvest dates");
                        proof {
                            lemma_first_bad_found(offers@, ls0, *line, 0);
                            lemma_counted_prefix(all, i as int);
                            lemma_counted_tail(offers@, all, i as int);
                            let t = counted_lines(all);
                            let k = ls0.len() as int;
                            assert(t[k] == *line);
                            assert(offer_index(offers@, t[k].price_id@, 0) >= 0);
                            assert(resolution(offers@, all) == Err::<(Seq<char>, Seq<(Seq<char>, i64, i64)>), Seq<char>>(e@));
                        }
                        return Err(e);
                    }
                    if harvest_date.is_none() {
                        harvest_date = Some(hd.clone());
                    }
                    let ghost before = resolved@;
                    resolved.push(ResolvedLine {
                        crop_id: offers[k].crop_id.clone(),
                        quantity: line.quantity,
                        amount_cents: line.amount_cents,
                    });
                    proof {
                        if ls0.len() > 0 {
                            lemma_first_bad_prefix(offers@, ls0, *line);
                        } else {
                            assert(first_bad_line(offers@, ls1, 1) == -1);
                            assert(!line_bad(offers@, ls1, 0));
                        }
                        let f1 = |l: ResolvedLine| (l.crop_id@, l.quantity, l.amount_cents);
                        let f2 = |l: PaidLine| (offers@[offer_index(offers@, l.price_id@, 0)].crop_id@, l.quantity, l.amount_cents);
                        assert(resolved@ =~= before.push(resolved@.last()));
                        assert(resolved@.map_values(f1) =~= before.map_values(f1).push(f1(resolved@.last())));
                        assert(ls1.map_values(f2) =~= ls0.map_values(f2).push(f2(*line)));
                        assert(f1(resolved@.last()) == f2(*line));
                        assert(resolved@.map_values(f1) =~= ls1.map_values(f2));
                    }
                },
            }
        }
        i = i + 1;
    }
    assert(all.subrange(0, n as int) =~= all);
    match harvest_date {
        None => Err(String::from_str("session has no line item quantity")),
        Some(h) => Ok((h, resolved)),
    }
}

/// Once a bad line is found at the end of a prefix, it is the first bad line
/// of the whole session too.
proof fn lemma_counted_tail(offers: Seq<PriceOffer>, all: Seq<PaidLine>, i: int)
    requires
        0 <= i < all.len(),
        all[i].quantity >= 1,
        first_bad_line(offers, counted_lines(all.subrange(0, i + 1)), 0) == counted_lines(all.subrange(0, i)).len(),
    ensures
        ({
            let ls = counted_lines(all);
            let k = counted_lines(all.subrange(0, i)).len() as int;
            &&& first_bad_line(offers, ls, 0) == k
            &&& ls[k] == all[i]
        }),
    decreases all.len() - i,
{
    lemma_counted_prefix(all, i);
    lemma_counted_extends(all, i + 1);
    let p = counted_lines(all.subrange(0, i + 1));
    let ls = counted_lines(all);
    let k = counted_lines(all.subrange(0, i)).len() as int;
    assert(p[k] == all[i]);
    lemma_first_bad_extends(offers, p, ls, 0);
}

/// The counted lines of a prefix are a prefix of the counted lines.
proof fn lemma_counted_extends(all: Seq<PaidLine>, j: int)
    requires
        0 <= j <= all.len(),
    ensures
        counted_lines(all.subrange(0, j)).len() <= counted_lines(all).len(),
        counted_lines(all) .take(counted_lines(all.subrange(0, j)).len() as int) == counted_lines(all.subrange(0, j)),
    decreases all.len() - j,
{
    if j < all.len() {
        lemma_counted_extends(all, j + 1);
        lemma_counted_prefix(all, j);
        let a = counted_lines(all.subrange(0, j));
        let b = counted_lines(all.subrange(0, j + 1));
        let c = counted_lines(all);
        assert(c.take(a.len() as int) =~= b.take(a.len() as int));
        assert(b.take(a.len() as int) =~= a);
    } else {
        assert(all.subrange(0, j) =~= all);
        assert(counted_lines(all).take(counted_lines(all).len() as int) =~= counted_lines(all));
    }
}

/// The first bad line of a prefix stays the first bad line of any extension.
proof fn lemma_first_bad_extends(offers: Seq<PriceOffer>, p: Seq<PaidLine>, ls: Seq<PaidLine>, k: int)
    requires
        p.len() <= ls.len(),
        ls.take(p.len() as int) == p,
        0 <= k,
        first_bad_line(offers, p, k) >= 0,
        p.len() > 0,
    ensures
        first_bad_line(offers, ls, k) == first_bad_line(offers, p, k),
    decreases p.len() - k,
{
    assert(ls[0] == p[0]);
    if k < p.len() {
        assert(ls[k] == p[k]);
        assert(line_bad(offers, ls, k) == line_bad(offers, p, k));
        if !line_bad(offers, p, k) {
            lemma_first_bad_extends(offers, p, ls, k + 1);
        }
    }
}

// --- Refunds and disputes -------------------------------------------------------

/// An order as the refund and dispute rules read it.
#[derive(Debug)]
pub struct OrderRow {
    pub id: String,
    pub stripe_session_id: String,
    pub harvest_date: String,
    pub quantity: i64,
    pub capacity_consumed: i64,
    pub state: String,
}

/// The orders still in state `paid`, in order.
pub open spec fn paid_of(s: Seq<OrderRow>) -> Seq<OrderRow>
    decreases s.len(),
{
    if s.len() == 0 {
        Seq::empty()
    } else if s.last().state@ == "paid"@ {
        paid_of(s.drop_last()).push(s.last())
    } else {
        paid_of(s.drop_last())
    }
}

pub open spec fn qty_total(s: Seq<OrderRow>) -> int
    decreases s.len(),
{
    if s.len() == 0 {
        0
    } else {
        qty_total(s.drop_last()) + s.last().quantity
    }
}

pub open spec fn ids_of(s: Seq<OrderRow>) -> Seq<Seq<char>> {
    s.map_values(|o: OrderRow| o.id@)
}

/// What a refund does, decided from the orders it matches.
#[derive(Debug)]
pub enum RefundPlan {
    /// No order yet: the refund waits, and the poll stops before it.
    AwaitingOrder,
    /// Every matched order is already out of `paid`.
    AlreadyApplied,
    Apply {
        order_ids: Vec<String>,
        harvest_date: String,
        /// The harvest is still ahead, so its trays return to sale.
        capacity_released: bool,
        attention_kind: String,
        message: String,
        session_id: String,
    },
}

/// What a dispute does, decided from the orders it matches.
#[derive(Debug)]
pub enum DisputePlan {
    AwaitingOrder,
    AlreadyApplied,
    /// Status change only: no capacity released, no money recorded.
    Apply { order_ids: Vec<String>, message: String },
}

pub open spec fn refund_message(release: bool, total: int, harvest_date: Seq<char>) -> Seq<char> {
    if release {
        "A refund was issued for "@ + tray_phrase(total) + " due "@ + short_month_day_text(harvest_date)
            + ". That capacity is available again."@
    } else {
        "A refund was issued for product already harvested on "@ + short_month_day_text(harvest_date) + "."@
    }
}

pub open spec fn refund_kind(release: bool) -> Seq<char> {
    if release { "order.refunded"@ } else { "order.refunded_after_harvest"@ }
}

/// Collects the paid orders: their ids and total quantity.
fn collect_paid(orders: &Vec<OrderRow>) -> (r: (Vec<String>, i128, Option<usize>))
    requires
        orders@.len() < 0x8000_0000_0000_0000,
    ensures
        r.0@.map_values(|s: String| s@) == ids_of(paid_of(orders@)),
        r.1 == qty_total(paid_of(orders@)),
        match r.2 {
            Some(f) => f < orders@.len() && paid_of(orders@).len() > 0 && orders@[f as int] == paid_of(orders@)[0],
            None => paid_of(orders@).len() == 0,
        },
{
    let n = orders.len();
    let mut ids: Vec<String> = Vec::new();
    let mut total: i128 = 0;
    let mut first: Option<usize> = None;
    let mut i: usize = 0;
    while i < n
        invariant
            n == orders@.len(),
            n < 0x8000_0000_0000_0000,
            i <= n,
            ids@.map_values(|s: String| s@) == ids_of(paid_of(orders@.take(i as int))),
            total == qty_total(paid_of(orders@.take(i as int))),
            -0x8000_0000_0000_0000 * (i as int) <= total <= 0x7fff_ffff_ffff_ffff * (i as int),
            match first {
                Some(f) => f < i && paid_of(orders@.take(i as int)).len() > 0 && orders@[f as int] == paid_of(orders@.take(i as int))[0],
                None => paid_of(orders@.take(i as int)).len() == 0,
            },
        decreases n - i,
    {
        proof {
            assert(orders@.take(i + 1).drop_last() =~= orders@.take(i as int));
            assert(orders@.take(i + 1).last() == orders@[i as int]);
        }
        if str_eq(orders[i].state.as_str(), "paid") {
            let ghost before = ids@;
            ids.push(orders[i].id.clone());
            total = total + orders[i].quantity as i128;
            if first.is_none() {
                first = Some(i);
            }
            proof {
                let pv = paid_of(orders@.take(i as int));
                assert(paid_of(orders@.take(i + 1)) == pv.push(orders@[i as int]));
                assert(ids@ =~= before.push(orders@[i as int].id));
                assert(ids@.map_values(|s: String| s@) =~= before.map_values(|s: String| s@).push(orders@[i as int].id@));
                assert(ids_of(pv.push(orders@[i as int])) =~= ids_of(pv).push(orders@[i as int].id@));
                assert(pv.push(orders@[i as int]).drop_last() =~= pv);
            }
        }
        i = i + 1;
    }
    assert(orders@.take(n as int) =~= orders@);
    (ids, total, first)
}

/// Plans a refund from the orders that match it (by payment intent, else by
/// session) and today's local date. The harvest date is that of the first
/// paid order; capacity returns when that date is still ahead.
pub fn plan_refund(orders: &Vec<OrderRow>, refund: &RefundRecord, today: &str) -> (r: RefundPlan)
    requires
        orders@.len() < 0x8000_0000_0000_0000,
        i64::MIN <= qty_total(paid_of(orders@)) <= i64::MAX,
    ensures
        orders@.len() == 0 ==> r is AwaitingOrder,
        orders@.len() > 0 && paid_of(orders@).len() == 0 ==> r is AlreadyApplied,
        orders@.len() > 0 && paid_of(orders@).len() > 0 ==> (r matches RefundPlan::Apply { order_ids, harvest_date, capacity_released, attention_kind, message, session_id } && {
            let paid = paid_of(orders@);
            let hd = paid[0].harvest_date@;
            let release = lex_lt(today@, hd);
            &&& order_ids@.map_values(|s: String| s@) == ids_of(paid)
            &&& harvest_date@ == hd
            &&& capacity_released == release
            &&& attention_kind@ == refund_kind(release)
            &&& message@ == refund_message(release, qty_total(paid), hd)
            &&& session_id@ == match refund.session_id {
                Some(s) => if s@.len() > 0 { s@ } else { paid[0].stripe_session_id@ },
                None => paid[0].stripe_session_id@,
            }
        }),
{
    if orders.len() == 0 {
        return RefundPlan::AwaitingOrder;
    }
    let (ids, total, first) = collect_paid(orders);
    let f = match first {
        None => return RefundPlan::AlreadyApplied,
        Some(f) => f,
    };
    let harvest_date = orders[f].harvest_date.clone();
    let release = str_lt(today, harvest_date.as_str());
    let trays = tray_word(total as i64);
    let date_label = format_short_month_day(harvest_date.as_str());
    let (kind, message) = if release {
        let mut m = String::from_str("A refund was issued for ");
        push_str(&mut m, trays.as_str());
        push_str(&mut m, " due ");
        push_str(&mut m, date_label.as_str());
        push_str(&mut m, ". That capacity is available again.");
        (String::from_str("order.refunded"), m)
    } else {
        let mut m = String::from_str("A refund was issued for product already harvested on ");
        push_str(&mut m, date_label.as_str());
        push_str(&mut m, ".");
        (String::from_str("order.refunded_after_harvest"), m)
    };
    let session_id = match &refund.session_id {
        Some(s) => if s.unicode_len() > 0 { s.clone() } else { orders[f].stripe_session_id.clone() },
        None => orders[f].stripe_session_id.clone(),
    };
    RefundPlan::Apply { order_ids: ids, harvest_date, capacity_released: release, attention_kind: kind, message, session_id }
}

pub open spec fn dispute_message(total: int) -> Seq<char> {
    "A card payment for "@ + tray_phrase(total) + " is disputed."@
}

/// Plans a dispute from the orders that match it.
pub fn plan_dispute(orders: &Vec<OrderRow>) -> (r: DisputePlan)
    requires
        orders@.len() < 0x8000_0000_0000_0000,
        i64::MIN <= qty_total(paid_of(orders@)) <= i64::MAX,
    ensures
        orders@.len() == 0 ==> r is AwaitingOrder,
        orders@.len() > 0 && paid_of(orders@).len() == 0 ==> r is AlreadyApplied,
        orders@.len() > 0 && paid_of(orders@).len() > 0 ==> (r matches DisputePlan::Apply { order_ids, message }
            && order_ids@.map_values(|s: String| s@) == ids_of(paid_of(orders@))
            && message@ == dispute_message(qty_total(paid_of(orders@)))),
{
    if orders.len() == 0 {
        return DisputePlan::AwaitingOrder;
    }
    let (ids, total, first) = collect_paid(orders);
    if first.is_none() {
        return DisputePlan::AlreadyApplied;
    }
    let trays = tray_word(total as i64);
    let mut m = String::from_str("A card payment for ");
    push_str(&mut m, trays.as_str());
    push_str(&mut m, " is disputed.");
    DisputePlan::Apply { order_ids: ids, message: m }
}

// --- Wording of the payment notes ------------------------------------------------

pub open spec fn unmatched_payment_text(cents: int, currency: Seq<char>) -> Seq<char> {
    "A payment of "@ + money_amount_text(cents, currency) + " arrived that Farm OS couldn't match to a crop and harvest date."@
}

/// The note raised for a paid session that no local offer explains.
pub fn unmatched_payment_message(cents: i64, currency: &str) -> (r: String)
    ensures
        r@ == unmatched_payment_text(cents as int, currency@),
{
    let amount = format_money_amount(cents, currency);
    let mut m = String::from_str("A payment of ");
    push_str(&mut m, amount.as_str());
    push_str(&mut m, " arrived that Farm OS couldn't match to a crop and harvest date.");
    m
}

pub open spec fn unrecorded_payment_text(cents: int, currency: Seq<char>, reason: Seq<char>) -> Seq<char> {
    "A payment for "@ + money_amount_text(cents, currency) + " couldn't be recorded: "@ + reason + "."@
}

/// The note raised when a paid session could not be written.
pub fn unrecorded_payment_message(cents: i64, currency: &str, reason: &str) -> (r: String)
    ensures
        r@ == unrecorded_payment_text(cents as int, currency@, reason@),
{
    let amount = format_money_amount(cents, currency);
    let mut m = String::from_str("A payment for ");
    push_str(&mut m, amount.as_str());
    push_str(&mut m, " couldn't be recorded: ");
    push_str(&mut m, reason);
    push_str(&mut m, ".");
    m
}

/// The note raised when a harvest date has sold more trays than it holds.
pub open spec fn oversold_text(harvest_date: Seq<char>, remaining: int) -> Option<Seq<char>> {
    if remaining < 0 {
        Some(short_month_day_text(harvest_date) + " is oversold by "@ + tray_phrase(-remaining) + "."@)
    } else {
        None
    }
}

pub fn oversold_message(harvest_date: &str, remaining: i64) -> (r: Option<String>)
    requires
        remaining > i64::MIN,
    ensures
        match r {
            Some(m) => oversold_text(harvest_date@, remaining as int) == Some(m@),
            None => oversold_text(harvest_date@, remaining as int) is None,
        },
{
    if remaining < 0 {
        let by = -remaining;
        let oversold = oversold_word(by);
        let mut m = format_short_month_day(harvest_date);
        push_str(&mut m, " is oversold by ");
        push_str(&mut m, oversold.as_str());
        push_str(&mut m, ".");
        Some(m)
    } else {
        None
    }
}

/// What becomes of a paid session.
#[derive(Debug)]
pub enum PaidOutcome {
    /// Not recorded: an attention note of `kind` carries `message`.
    Rejected { kind: &'static str, message: String },
    /// The session (or its cart reference) was already recorded: nothing is
    /// written twice.
    AlreadyApplied,
    /// Recorded; when the harvest date is now oversold, the note to raise.
    Applied { oversold: Option<String> },
}

/// The decisions of applying a paid session, in the order they are made:
/// lines that no offer explains reject the session; a session already
/// recorded is left alone; a write that fails rejects it with the reason;
/// otherwise it is recorded, and an oversold harvest date raises a note.
/// `remaining` is the date's capacity once the session's orders are in.
pub fn paid_session_decision(
    session: &PaidSession,
    resolved: &Result<(String, Vec<ResolvedLine>), String>,
    already_recorded: bool,
    write_error: &Option<String>,
    remaining: i64,
) -> (r: PaidOutcome)
    requires
        remaining > i64::MIN,
    ensures
        match resolved {
            Err(_) => r matches PaidOutcome::Rejected { kind, message }
                && kind@ == "stripe.unrecognised_session"@
                && message@ == unmatched_payment_text(session.amount_cents as int, session.currency@),
            Ok((harvest_date, _)) => if already_recorded {
                r is AlreadyApplied
            } else {
                match write_error {
                    Some(e) => r matches PaidOutcome::Rejected { kind, message }
                        && kind@ == "order.unrecorded"@
                        && message@ == unrecorded_payment_text(session.amount_cents as int, session.currency@, e@),
                    None => r matches PaidOutcome::Applied { oversold } && match oversold {
                        Some(m) => oversold_text(harvest_date@, remaining as int) == Some(m@),
                        None => oversold_text(harvest_date@, remaining as int) is None,
                    },
                }
            },
        },
{
    match resolved {
        Err(_) => {
            proof {
                reveal_strlit("stripe.unrecognised_session");
            }
            PaidOutcome::Rejected {
                kind: "stripe.unrecognised_session",
                message: unmatched_payment_message(session.amount_cents, session.currency.as_str()),
            }
        },
        Ok((harvest_date, _)) => {
            if already_recorded {
                PaidOutcome::AlreadyApplied
            } else {
                match write_error {
                    Some(e) => {
                        proof {
                            reveal_strlit("order.unrecorded");
                        }
                        PaidOutcome::Rejected {
                            kind: "order.unrecorded",
                            message: unrecorded_payment_message(session.amount_cents, session.currency.as_str(), e.as_str()),
                        }
                    },
                    None => PaidOutcome::Applied { oversold: oversold_message(harvest_date.as_str(), remaining) },
                }
            }
        },
    }
}

/// Why a paid session's insert failed, in words for the grower, from the
/// database's message.
pub open spec fn insert_failure_text(msg: Seq<char>, crop_id: Seq<char>) -> Seq<char> {
    let lower = lower_seq(msg);
    if contains_seq(lower, "foreign key"@) {
        "Farm OS doesn't have a crop called \""@ + crop_id + "\""@
    } else if contains_seq(lower, "not null"@) {
        "a required field was missing"@
    } else if contains_seq(lower, "check"@) {
        "the payment data failed a farm rule"@
    } else {
        "the payment data couldn't be saved"@
    }
}

pub fn plain_insert_failure_reason(msg: &str, crop_id: &str) -> (r: String)
    ensures
        r@ == insert_failure_text(msg@, crop_id@),
{
    let lower = to_ascii_lowercase(msg);
    if contains(lower.as_str(), "foreign key") {
        let mut m = String::from_str("Farm OS doesn't have a crop called \"");
        push_str(&mut m, crop_id);
        push_str(&mut m, "\"");
        m
    } else if contains(lower.as_str(), "not null") {
        String::from_str("a required field was missing")
    } else if contains(lower.as_str(), "check") {
        String::from_str("the payment data failed a farm rule")
    } else {
        String::from_str("the payment data couldn't be saved")
    }
}

// --- Status, connection and dashboard links ---------------------------------------

pub open spec fn non_empty(o: Option<Seq<char>>) -> Option<Seq<char>> {
    match o {
        Some(s) => if s.len() > 0 { Some(s) } else { None },
        None => None,
    }
}

fn keep_non_empty(o: Option<String>) -> (r: Option<String>)
    ensures
        opt_view(r) == non_empty(opt_view(o)),
{
    match o {
        Some(s) => if s.unicode_len() > 0 { Some(s) } else { None },
        None => None,
    }
}

/// The money panel: Stripe counts as connected when a non-empty key is
/// stored; an empty checkout address counts as none.
pub fn money_status_from(
    restricted_key: Option<String>,
    account_name: Option<String>,
    mode: Option<String>,
    last_poll_ok: Option<String>,
    last_poll_err: Option<String>,
    open_order_count: i64,
    checkout_endpoint_url: Option<String>,
) -> (r: MoneyStatus)
    ensures
        r.configured == (non_empty(opt_view(restricted_key)) is Some),
        r.account_name == account_name,
        r.mode == mode,
        r.last_poll_ok == last_poll_ok,
        r.last_poll_err == last_poll_err,
        r.open_order_count == open_order_count,
        opt_view(r.checkout_endpoint_url) == non_empty(opt_view(checkout_endpoint_url)),
{
    let configured = match &restricted_key {
        Some(k) => k.unicode_len() > 0,
        None => false,
    };
    MoneyStatus {
        configured,
        mode,
        account_name,
        last_poll_ok,
        last_poll_err,
        open_order_count,
        checkout_endpoint_url: keep_non_empty(checkout_endpoint_url),
    }
}

/// The stored key and mode the Stripe client is built from: the key must be
/// there and pass the restricted-key rules; the mode defaults to `test`.
pub fn gateway_key(key: Option<String>, mode: Option<String>) -> (r: Result<(String, String), String>)
    ensures
        match r {
            Ok((k, m)) => non_empty(opt_view(key)) == Some(k@) && key_verdict(k@) is Ok
                && m@ == match mode { Some(md) => md@, None => "test"@ },
            Err(e) => match non_empty(opt_view(key)) {
                None => e@ == "Stripe is not connected yet. Open Sell online to paste a restricted key."@,
                Some(k) => key_verdict(k) == Err::<Seq<char>, Seq<char>>(e@),
            },
        },
{
    let key = match keep_non_empty(key) {
        Some(k) => k,
        None => return Err(String::from_str("Stripe is not connected yet. Open Sell online to paste a restricted key.")),
    };
    let mode = match mode {
        Some(m) => m,
        None => String::from_str("test"),
    };
    match validate_restricted_key(key.as_str()) {
        Ok(_) => Ok((key, mode)),
        Err(e) => Err(e),
    }
}

/// Before a key is stored: it must pass the key rules and its mode must be the
/// account's. Returns the trimmed key and its mode.
pub fn check_key_for_account(key: &str, account: &AccountInfo) -> (r: Result<(String, &'static str), String>)
    ensures
        match r {
            Ok((k, m)) => key_verdict(key@) == Ok::<Seq<char>, Seq<char>>(m@) && account.mode@ == m@ && k@ == trim_seq(key@),
            Err(e) => match key_verdict(key@) {
                Err(v) => e@ == v,
                Ok(m) => account.mode@ != m && e@ == "The key's mode did not match the Stripe account."@,
            },
        },
{
    let mode = match validate_restricted_key(key) {
        Ok(m) => m,
        Err(e) => return Err(e),
    };
    if !str_eq(account.mode.as_str(), mode) {
        return Err(String::from_str("The key's mode did not match the Stripe account."));
    }
    Ok((trim(key), mode))
}

/// A key for a different Stripe account than the one already stored is
/// refused, so no sale is ever recorded twice: the attention note and the
/// error shown.
pub open spec fn mismatch_texts(stored: Option<Seq<char>>, account_id: Seq<char>) -> Option<(Seq<char>, Seq<char>)> {
    match stored {
        Some(existing) => if existing.len() > 0 && existing != account_id {
            Some((
                "A different Stripe account ("@ + account_id + ") was offered. Farm OS refused it so a sale is never recorded twice."@,
                "That key belongs to a different Stripe account than the one already connected. Farm OS refused it."@,
            ))
        } else {
            None
        },
        None => None,
    }
}

pub fn account_mismatch(stored: &Option<String>, account: &AccountInfo) -> (r: Option<(String, String)>)
    ensures
        match r {
            Some((note, err)) => mismatch_texts(opt_view(*stored), account.account_id@) == Some((note@, err@)),
            None => mismatch_texts(opt_view(*stored), account.account_id@) is None,
        },
{
    match stored {
        Some(existing) => {
            if existing.unicode_len() > 0 && !str_eq(existing.as_str(), account.account_id.as_str()) {
                let mut note = String::from_str("A different Stripe account (");
                push_str(&mut note, account.account_id.as_str());
                push_str(&mut note, ") was offered. Farm OS refused it so a sale is never recorded twice.");
                let err = String::from_str("That key belongs to a different Stripe account than the one already connected. Farm OS refused it.");
                Some((note, err))
            } else {
                None
            }
        },
        None => None,
    }
}

/// Dashboard links point at test data unless the stored mode is `live`.
pub open spec fn test_prefix(mode: Option<Seq<char>>) -> Seq<char> {
    if mode == Some("live"@) { ""@ } else { "test/"@ }
}

pub fn dashboard_test_prefix(mode: &Option<String>) -> (r: &'static str)
    ensures
        r@ == test_prefix(opt_view(*mode)),
{
    match mode {
        Some(m) => if str_eq(m.as_str(), "live") { "" } else { "test/" },
        None => "test/",
    }
}

/// The dashboard page of an order: its payment when the payment intent is
/// known, else its Checkout Session.
pub open spec fn order_dashboard_text(mode: Option<Seq<char>>, payment_intent: Option<Seq<char>>, session_id: Seq<char>) -> Seq<char> {
    "https://dashboard.stripe.com/"@ + test_prefix(mode) + match non_empty(payment_intent) {
        Some(pi) => "payments/"@ + pi,
        None => "checkout/sessions/"@ + session_id,
    }
}

pub fn order_dashboard_url(mode: &Option<String>, payment_intent: &Option<String>, session_id: &str) -> (r: String)
    ensures
        r@ == order_dashboard_text(opt_view(*mode), opt_view(*payment_intent), session_id@),
{
    let mut u = String::from_str("https://dashboard.stripe.com/");
    push_str(&mut u, dashboard_test_prefix(mode));
    let ghost mid = u@;
    let pi = match payment_intent {
        Some(p) => if p.unicode_len() > 0 { Some(p.as_str()) } else { None },
        None => None,
    };
    match pi {
        Some(p) => {
            push_str(&mut u, "payments/");
            push_str(&mut u, p);
            assert(u@ =~= mid + ("payments/"@ + p@));
        },
        None => {
            push_str(&mut u, "checkout/sessions/");
            push_str(&mut u, session_id);
            assert(u@ =~= mid + ("checkout/sessions/"@ + session_id@));
        },
    }
    u
}

pub fn session_dashboard_url(mode: &Option<String>, session_id: &str) -> (r: String)
    ensures
        r@ == "https://dashboard.stripe.com/"@ + test_prefix(opt_view(*mode)) + "checkout/sessions/"@ + session_id@,
{
    let mut u = String::from_str("https://dashboard.stripe.com/");
    push_str(&mut u, dashboard_test_prefix(mode));
    push_str(&mut u, "checkout/sessions/");
    push_str(&mut u, session_id);
    u
}

// --- The recorded fact of a paid session ---------------------------------------------

#[derive(Debug)]
pub struct OrderLinePayload {
    pub order_id: String,
    pub crop_id: String,
    pub quantity: i64,
    pub amount_cents: i64,
}

/// What a `stripe.session_paid` event records: one order per resolved line,
/// sharing the session's fields.
#[derive(Debug)]
pub struct SessionPaidPayload {
    pub order_ids: Vec<String>,
    pub session_id: String,
    pub payment_intent: Option<String>,
    pub harvest_date: String,
    pub lines: Vec<OrderLinePayload>,
    pub amount_cents: i64,
    pub currency: String,
    pub customer_email: Option<String>,
    pub paid_at: String,
    pub client_reference: Option<String>,
}

pub fn session_paid_payload(
    session: &PaidSession,
    harvest_date: &str,
    lines: &Vec<ResolvedLine>,
    order_ids: &Vec<String>,
) -> (r: SessionPaidPayload)
    requires
        order_ids@.len() == lines@.len(),
    ensures
        r.order_ids@ == order_ids@,
        r.session_id == session.session_id,
        r.payment_intent == session.payment_intent,
        r.harvest_date@ == harvest_date@,
        r.lines@.len() == lines@.len(),
        forall|i: int| 0 <= i < lines@.len() ==> {
            let l = #[trigger] r.lines@[i];
            &&& l.order_id == order_ids@[i]
            &&& l.crop_id == lines@[i].crop_id
            &&& l.quantity == lines@[i].quantity
            &&& l.amount_cents == lines@[i].amount_cents
        },
        r.amount_cents == session.amount_cents,
        r.currency == session.currency,
        r.customer_email == session.customer_email,
        r.paid_at == session.paid_at,
        r.client_reference == session.client_reference,
{
    let n = lines.len();
    let mut out: Vec<OrderLinePayload> = Vec::new();
    let mut ids: Vec<String> = Vec::new();
    let mut i: usize = 0;
    while i < n
        invariant
            n == lines@.len(),
            n == order_ids@.len(),
            i <= n,
            out@.len() == i,
            ids@ == order_ids@.take(i as int),
            forall|j: int| 0 <= j < i ==> {
                let l = #[trigger] out@[j];
                &&& l.order_id == order_ids@[j]
                &&& l.crop_id == lines@[j].crop_id
                &&& l.quantity == lines@[j].quantity
                &&& l.amount_cents == lines@[j].amount_cents
            },
        decreases n - i,
    {
        out.push(OrderLinePayload {
            order_id: order_ids[i].clone(),
            crop_id: lines[i].crop_id.clone(),
            quantity: lines[i].quantity,
            amount_cents: lines[i].amount_cents,
        });
        ids.push(order_ids[i].clone());
        assert(ids@ =~= order_ids@.take(i + 1));
        i = i + 1;
    }
    assert(ids@ =~= order_ids@);
    SessionPaidPayload {
        order_ids: ids,
        session_id: session.session_id.clone(),
        payment_intent: clone_opt(&session.payment_intent),
        harvest_date: String::from_str(harvest_date),
        lines: out,
        amount_cents: session.amount_cents,
        currency: session.currency.clone(),
        customer_email: clone_opt(&session.customer_email),
        paid_at: session.paid_at.clone(),
        client_reference: clone_opt(&session.client_reference),
    }
}

// --- Legacy link signature ---------------------------------------------------------

pub open spec fn sig_part(l: HarvestLinkLine) -> Seq<char> {
    l.price_id@ + ":"@ + dec_int(l.max_quantity as int)
}

pub open spec fn strs_sorted(s: Seq<Seq<char>>) -> bool {
    forall|i: int, j: int| 0 <= i < j < s.len() ==> lex_le(s[i], s[j])
}

/// The parts joined with `|`.
pub open spec fn join_bar(s: Seq<Seq<char>>) -> Seq<char>
    decreases s.len(),
{
    if s.len() == 0 {
        Seq::empty()
    } else if s.len() == 1 {
        s[0]
    } else {
        join_bar(s.drop_last()) + "|"@ + s.last()
    }
}

/// `r` is a signature of `lines`: the parts sorted and joined with `|`.
pub open spec fn signature_of(lines: Seq<HarvestLinkLine>, r: Seq<char>) -> bool {
    exists|s: Seq<Seq<char>>| strs_sorted(s) && s.to_multiset() == lines.map_values(|l: HarvestLinkLine| sig_part(l)).to_multiset()
        && r == join_bar(s)
}

/// A harvest link's signature: `price:max` for each line, sorted, joined with `|`.
pub fn line_signature(lines: &Vec<HarvestLinkLine>) -> (r: String)
    ensures
        signature_of(lines@, r@),
{
    let ghost want = lines@.map_values(|l: HarvestLinkLine| sig_part(l));
    let n = lines.len();
    let mut parts: Vec<String> = Vec::new();
    let mut i: usize = 0;
    while i < n
        invariant
            n == lines@.len(),
            i <= n,
            want == lines@.map_values(|l: HarvestLinkLine| sig_part(l)),
            parts@.map_values(|p: String| p@) == want.take(i as int),
        decreases n - i,
    {
        let mut p = String::from_str(lines[i].price_id.as_str());
        push_str(&mut p, ":");
        push_int(&mut p, lines[i].max_quantity);
        let ghost before = parts@;
        parts.push(p);
        proof {
            assert(parts@ =~= before.push(p));
            assert(p@ == sig_part(lines@[i as int]));
            assert(want[i as int] == sig_part(lines@[i as int]));
            assert(parts@.map_values(|p: String| p@) =~= before.map_values(|p: String| p@).push(p@));
            assert(want.take(i + 1) =~= want.take(i as int).push(want[i as int]));
            assert(parts@.map_values(|p: String| p@) =~= want.take(i + 1));
        }
        i = i + 1;
    }
    assert(want.take(n as int) =~= want);
    let mut out: Vec<String> = Vec::new();
    let mut rest = parts;
    proof {
        out@.map_values(|p: String| p@).to_multiset_ensures();
    }
    while rest.len() > 0
        invariant
            strs_sorted(out@.map_values(|p: String| p@)),
            out@.map_values(|p: String| p@).to_multiset().add(rest@.map_values(|p: String| p@).to_multiset()) == want.to_multiset(),
        decreases rest@.len(),
    {
        let ghost rv = rest@.map_values(|p: String| p@);
        let x = rest.pop().unwrap();
        proof {
            let rv2 = rest@.map_values(|p: String| p@);
            assert(rv =~= rv2.push(x@));
            vstd::seq_lib::to_multiset_build(rv2, x@);
        }
        let ghost ov = out@.map_values(|p: String| p@);
        let mut k: usize = out.len();
        while k > 0 && str_lt(x.as_str(), out[k - 1].as_str())
            invariant
                k <= out@.len(),
                ov == out@.map_values(|p: String| p@),
                strs_sorted(ov),
                forall|j: int| k <= j < ov.len() ==> lex_lt(x@, #[trigger] ov[j]),
            decreases k,
        {
            k = k - 1;
        }
        proof {
            assert forall|j: int| 0 <= j < k implies lex_le(#[trigger] ov[j], x@) by {
                lemma_lex_trichotomy(x@, ov[k - 1]);
                if j < k - 1 {
                    lemma_lex_le_transitive(ov[j], ov[k - 1], x@);
                }
            }
        }
        out.insert(k, x);
        proof {
            let s2 = out@.map_values(|p: String| p@);
            assert(s2 =~= ov.insert(k as int, x@));
            vstd::seq_lib::to_multiset_insert(ov, k as int, x@);
            assert forall|a: int, b: int| 0 <= a < b < s2.len() implies lex_le(s2[a], s2[b]) by {
                if a < k && b > k {
                    assert(s2[a] == ov[a]);
                    assert(s2[b] == ov[b - 1]);
                    lemma_lex_le_transitive(s2[a], x@, s2[b]);
                } else if a < k && b == k {
                    assert(s2[a] == ov[a]);
                } else if a == k {
                    assert(s2[b] == ov[b - 1]);
                } else if b < k {
                    assert(s2[a] == ov[a]);
                    assert(s2[b] == ov[b]);
                } else {
                    assert(s2[a] == ov[a - 1]);
                    assert(s2[b] == ov[b - 1]);
                }
            }
            broadcast use vstd::multiset::group_multiset_axioms;
            assert(s2.to_multiset().add(rest@.map_values(|p: String| p@).to_multiset()) =~= want.to_multiset());
        }
    }
    let ghost sorted = out@.map_values(|p: String| p@);
    proof {
        rest@.map_values(|p: String| p@).to_multiset_ensures();
        broadcast use vstd::multiset::group_multiset_axioms;
        assert(rest@.map_values(|p: String| p@).to_multiset() =~= Multiset::empty());
        assert(sorted.to_multiset() =~= want.to_multiset());
    }
    let mut sig = String::new();
    let m = out.len();
    let mut j: usize = 0;
    while j < m
        invariant
            m == out@.len(),
            j <= m,
            sorted == out@.map_values(|p: String| p@),
            sig@ == join_bar(sorted.take(j as int)),
        decreases m - j,
    {
        let ghost before = sig@;
        if j > 0 {
            push_str(&mut sig, "|");
        }
        push_str(&mut sig, out[j].as_str());
        proof {
            assert(sorted.take(j + 1).drop_last() =~= sorted.take(j as int));
            if j == 0 {
                assert(before =~= Seq::<char>::empty());
                assert(sig@ =~= sorted.take(1)[0]);
            }
        }
        j = j + 1;
    }
    assert(sorted.take(m as int) =~= sorted);
    sig
}

proof fn lemma_lex_le_total()
    ensures
        vstd::relations::total_ordering(|a: Seq<char>, b: Seq<char>| lex_le(a, b)),
{
    let leq = |a: Seq<char>, b: Seq<char>| lex_le(a, b);
    assert forall|x: Seq<char>, y: Seq<char>| #[trigger] leq(x, y) && #[trigger] leq(y, x) implies x == y by {
        lemma_lex_trichotomy(x, y);
    }
    assert forall|x: Seq<char>, y: Seq<char>, z: Seq<char>| #[trigger] leq(x, y) && #[trigger] leq(y, z) implies leq(x, z) by {
        lemma_lex_le_transitive(x, y, z);
    }
    assert forall|x: Seq<char>, y: Seq<char>| #[trigger] leq(x, y) || #[trigger] leq(y, x) by {
        lemma_lex_trichotomy(x, y);
    }
}

proof fn lemma_parts_multiset(a: Seq<HarvestLinkLine>, b: Seq<HarvestLinkLine>)
    requires
        a.to_multiset() == b.to_multiset(),
    ensures
        a.map_values(|l: HarvestLinkLine| sig_part(l)).to_multiset() == b.map_values(|l: HarvestLinkLine| sig_part(l)).to_multiset(),
    decreases a.len(),
{
    broadcast use vstd::multiset::group_multiset_axioms;
    a.to_multiset_ensures();
    b.to_multiset_ensures();
    let f = |l: HarvestLinkLine| sig_part(l);
    if a.len() == 0 {
        assert(b.len() == 0);
        assert(a.map_values(f) =~= b.map_values(f));
    } else {
        let x = a.last();
        assert(a.contains(x));
        assert(b.to_multiset().count(x) > 0);
        assert(b.contains(x));
        let k = choose|k: int| 0 <= k < b.len() && b[k] == x;
        vstd::seq_lib::to_multiset_remove(b, k);
        assert(a.drop_last().push(x) =~= a);
        vstd::seq_lib::to_multiset_build(a.drop_last(), x);
        assert(a.drop_last().to_multiset() =~= b.remove(k).to_multiset());
        lemma_parts_multiset(a.drop_last(), b.remove(k));
        assert(a.map_values(f) =~= a.drop_last().map_values(f).push(f(x)));
        vstd::seq_lib::to_multiset_build(a.drop_last().map_values(f), f(x));
        assert(b.remove(k).map_values(f) =~= b.map_values(f).remove(k));
        vstd::seq_lib::to_multiset_remove(b.map_values(f), k);
        assert(b.map_values(f)[k] == f(x));
        let mb = b.map_values(f).to_multiset();
        b.map_values(f).to_multiset_ensures();
        assert(b.map_values(f).contains(f(x)));
        assert(mb.count(f(x)) > 0);
        assert(b.map_values(f).remove(k).to_multiset() == mb.remove(f(x)));
        assert(a.drop_last().map_values(f).to_multiset() == mb.remove(f(x)));
        assert(a.map_values(f).to_multiset() == mb.remove(f(x)).insert(f(x)));
        assert(mb.remove(f(x)).insert(f(x)) =~= mb);
    }
}

/// A harvest link's signature does not depend on the order of its lines: any
/// two orderings of the same lines have the same signature.
pub proof fn lemma_signature_order_free(a: Seq<HarvestLinkLine>, b: Seq<HarvestLinkLine>, ra: Seq<char>, rb: Seq<char>)
    requires
        a.to_multiset() == b.to_multiset(),
        signature_of(a, ra),
        signature_of(b, rb),
    ensures
        ra == rb,
{
    let f = |l: HarvestLinkLine| sig_part(l);
    let sa = choose|s: Seq<Seq<char>>| strs_sorted(s) && s.to_multiset() == a.map_values(f).to_multiset() && ra == join_bar(s);
    let sb = choose|s: Seq<Seq<char>>| strs_sorted(s) && s.to_multiset() == b.map_values(f).to_multiset() && rb == join_bar(s);
    lemma_parts_multiset(a, b);
    lemma_lex_le_total();
    let leq = |x: Seq<char>, y: Seq<char>| lex_le(x, y);
    assert(vstd::relations::sorted_by(sa, leq));
    assert(vstd::relations::sorted_by(sb, leq));
    vstd::seq_lib::lemma_sorted_unique(sa, sb, leq);
    assert(sa == sb);
}

} // verus!
