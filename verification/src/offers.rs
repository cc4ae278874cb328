//! Offers: a Stripe Price per crop and harvest date. The shop lists the
//! offers that still have trays to sell.

use vstd::prelude::*;
use vstd::multiset::Multiset;
use crate::models::OfferView;
use crate::money::{non_empty, Offer};
use crate::text::{lemma_lex_le_transitive, lemma_lex_trichotomy, lex_le, lex_lt, str_eq, str_lt};
use crate::trays::opt_view;

verus! {

/// Before a price is set: it must be above zero, and the crop must have trays
/// on the date. Returns the crop's row.
pub fn check_offer(rows: &Vec<OfferView>, crop_id: &str, price_cents: i64) -> (r: Result<usize, String>)
    ensures
        price_cents <= 0 ==> (r matches Err(e) && e@ == "Price must be greater than zero."@),
        price_cents > 0 ==> match r {
            Ok(i) => i < rows@.len() && rows@[i as int].crop_id@ == crop_id@
                && forall|j: int| 0 <= j < i ==> (#[trigger] rows@[j]).crop_id@ != crop_id@,
            Err(e) => e@ == "That crop has no trays for this harvest date."@
                && forall|j: int| 0 <= j < rows@.len() ==> (#[trigger] rows@[j]).crop_id@ != crop_id@,
        },
{
    if price_cents <= 0 {
        return Err(String::from_str("Price must be greater than zero."));
    }
    let n = rows.len();
    let mut i: usize = 0;
    while i < n
        invariant
            n == rows@.len(),
            i <= n,
            price_cents > 0,
            forall|j: int| 0 <= j < i ==> (#[trigger] rows@[j]).crop_id@ != crop_id@,
        decreases n - i,
    {
        if str_eq(rows[i].crop_id.as_str(), crop_id) {
            return Ok(i);
        }
        i = i + 1;
    }
    Err(String::from_str("That crop has no trays for this harvest date."))
}

/// The offer row written when a price is set (links cleared).
pub fn new_offer(offer_id: String, harvest_date: &str, crop_id: &str, price_cents: i64, now: String) -> (r: Offer)
    ensures
        r.id == offer_id,
        r.harvest_date@ == harvest_date@,
        r.crop_id@ == crop_id@,
        r.price_cents == price_cents,
        r.stripe_price_id is None && r.stripe_link_id is None && r.stripe_link_url is None,
        r.created_at == now,
{
    Offer {
        id: offer_id,
        harvest_date: String::from_str(harvest_date),
        crop_id: String::from_str(crop_id),
        price_cents,
        stripe_price_id: None,
        stripe_link_id: None,
        stripe_link_url: None,
        created_at: now,
    }
}

/// What the offer looks like once its price is set: the crop's capacity row
/// with the new price and Stripe Price.
pub fn offer_after_set(row: &OfferView, offer_id: String, harvest_date: &str, crop_id: &str, price_cents: i64, price_id: String) -> (r: OfferView)
    ensures
        r.id == Some(offer_id),
        r.harvest_date@ == harvest_date@,
        r.crop_id@ == crop_id@,
        r.crop_name == row.crop_name,
        r.price_cents == Some(price_cents),
        r.stripe_price_id == Some(price_id),
        r.stripe_link_url is None,
        r.available == row.available,
        r.sold == row.sold,
        r.remaining == row.remaining,
{
    OfferView {
        id: Some(offer_id),
        harvest_date: String::from_str(harvest_date),
        crop_id: String::from_str(crop_id),
        crop_name: row.crop_name.clone(),
        price_cents: Some(price_cents),
        stripe_price_id: Some(price_id),
        stripe_link_url: None,
        available: row.available,
        sold: row.sold,
        remaining: row.remaining,
    }
}

/// The offers of one harvest date, with the trays that date has left to sell.
#[derive(Debug)]
pub struct DateOffers {
    pub remaining_trays: i64,
    pub offers: Vec<OfferView>,
}

/// An offer the shop can list: trays left, a Stripe Price and a price.
pub open spec fn sellable(o: OfferView) -> bool {
    o.remaining > 0 && non_empty(opt_view(o.stripe_price_id)) is Some && o.price_cents is Some
}

pub open spec fn sellable_of(offers: Seq<OfferView>) -> Seq<OfferView>
    decreases offers.len(),
{
    if offers.len() == 0 {
        Seq::empty()
    } else if sellable(offers.last()) {
        sellable_of(offers.drop_last()).push(offers.last())
    } else {
        sellable_of(offers.drop_last())
    }
}

/// Every sellable offer of every date that still has trays to sell.
pub open spec fn candidates(groups: Seq<DateOffers>) -> Seq<OfferView>
    decreases groups.len(),
{
    if groups.len() == 0 {
        Seq::empty()
    } else {
        (if groups[0].remaining_trays > 0 { sellable_of(groups[0].offers@) } else { Seq::empty() })
            + candidates(groups.drop_first())
    }
}

/// Shop order: harvest date, then crop name.
pub open spec fn listing_le(a: OfferView, b: OfferView) -> bool {
    lex_lt(a.harvest_date@, b.harvest_date@) || (a.harvest_date@ == b.harvest_date@ && lex_le(a.crop_name@, b.crop_name@))
}

pub open spec fn listings_sorted(s: Seq<OfferView>) -> bool {
    forall|i: int, j: int| 0 <= i < j < s.len() ==> listing_le(s[i], s[j])
}

proof fn lemma_listing_total(a: OfferView, b: OfferView)
    ensures
        !listing_le(a, b) ==> listing_le(b, a),
{
    lemma_lex_trichotomy(a.harvest_date@, b.harvest_date@);
    lemma_lex_trichotomy(a.crop_name@, b.crop_name@);
}

proof fn lemma_listing_trans(a: OfferView, b: OfferView, c: OfferView)
    requires
        listing_le(a, b),
        listing_le(b, c),
    ensures
        listing_le(a, c),
{
    if lex_lt(a.harvest_date@, b.harvest_date@) && lex_lt(b.harvest_date@, c.harvest_date@) {
        crate::text::lemma_lex_transitive(a.harvest_date@, b.harvest_date@, c.harvest_date@);
    }
    if a.harvest_date@ == b.harvest_date@ && b.harvest_date@ == c.harvest_date@ {
        crate::text::lemma_lex_irreflexive(a.harvest_date@);
        lemma_lex_le_transitive(a.crop_name@, b.crop_name@, c.crop_name@);
    }
}

fn listing_less_eq(a: &OfferView, b: &OfferView) -> (r: bool)
    ensures
        r == listing_le(*a, *b),
{
    str_lt(a.harvest_date.as_str(), b.harvest_date.as_str())
        || (str_eq(a.harvest_date.as_str(), b.harvest_date.as_str())
            && (str_lt(a.crop_name.as_str(), b.crop_name.as_str()) || str_eq(a.crop_name.as_str(), b.crop_name.as_str())))
}

fn is_sellable(o: &OfferView) -> (r: bool)
    ensures
        r == sellable(*o),
{
    let has_price = match &o.stripe_price_id {
        Some(p) => p.unicode_len() > 0,
        None => false,
    };
    o.remaining > 0 && has_price && o.price_cents.is_some()
}

/// Moves the sellable offers of a date with trays left onto `out`.
fn take_sellable(out: &mut Vec<OfferView>, g: DateOffers)
    ensures
        final(out)@ == old(out)@ + (if g.remaining_trays > 0 { sellable_of(g.offers@) } else { Seq::empty() }),
{
    if g.remaining_trays <= 0 {
        assert(final(out)@ =~= old(out)@ + Seq::<OfferView>::empty());
        return;
    }
    let ghost all = g.offers@;
    let ghost start = out@;
    let mut offers = g.offers;
    let mut k: usize = 0;
    let n = offers.len();
    while offers.len() > 0
        invariant
            n == all.len(),
            k + offers@.len() == n,
            offers@ == all.subrange(k as int, n as int),
            out@ == start + sellable_of(all.take(k as int)),
        decreases offers@.len(),
    {
        let o = offers.remove(0);
        proof {
            assert(all.take(k + 1).drop_last() =~= all.take(k as int));
            assert(all.take(k + 1).last() == o);
            assert(offers@ =~= all.subrange(k + 1, n as int));
        }
        if is_sellable(&o) {
            out.push(o);
            assert(out@ =~= start + sellable_of(all.take(k + 1)));
        }
        k = k + 1;
    }
    assert(all.take(n as int) =~= all);
}

/// The shop's listings: the sellable offers of every date that still has
/// trays to sell, sorted by harvest date and then crop name.
pub fn shop_listings(groups: Vec<DateOffers>) -> (r: Vec<OfferView>)
    ensures
        listings_sorted(r@),
        r@.to_multiset() == candidates(groups@).to_multiset(),
{
    let ghost orig = groups@;
    let mut groups = groups;
    let mut cand: Vec<OfferView> = Vec::new();
    while groups.len() > 0
        invariant
            cand@ + candidates(groups@) == candidates(orig),
        decreases groups@.len(),
    {
        let ghost before = groups@;
        let g = groups.remove(0);
        proof {
            assert(before.drop_first() =~= groups@);
        }
        let ghost c0 = cand@;
        take_sellable(&mut cand, g);
        proof {
            assert(c0 + candidates(before) =~= cand@ + candidates(groups@));
        }
    }
    assert(cand@ =~= candidates(orig));
    let mut out: Vec<OfferView> = Vec::new();
    let mut rest = cand;
    proof {
        out@.to_multiset_ensures();
    }
    while rest.len() > 0
        invariant
            listings_sorted(out@),
            out@.to_multiset().add(rest@.to_multiset()) == candidates(orig).to_multiset(),
        decreases rest@.len(),
    {
        let ghost rest_before = rest@;
        let x = rest.pop().unwrap();
        proof {
            vstd::seq_lib::to_multiset_build(rest@, x);
            assert(rest_before =~= rest@.push(x));
        }
        let mut k: usize = out.len();
        while k > 0 && listing_less_eq(&x, &out[k - 1])
            invariant
                k <= out@.len(),
                listings_sorted(out@),
                forall|j: int| k <= j < out@.len() ==> listing_le(x, #[trigger] out@[j]),
            decreases k,
        {
            k = k - 1;
        }
        proof {
            let s = out@;
            assert forall|j: int| 0 <= j < k implies listing_le(#[trigger] s[j], x) by {
                lemma_listing_total(x, s[k - 1]);
                if j < k - 1 {
                    lemma_listing_trans(s[j], s[k - 1], x);
                }
            }
        }
        let ghost before = out@;
        out.insert(k, x);
        proof {
            let s = out@;
            assert(s =~= before.insert(k as int, x));
            vstd::seq_lib::to_multiset_insert(before, k as int, x);
            assert forall|a: int, b: int| 0 <= a < b < s.len() implies listing_le(s[a], s[b]) by {
                if a < k && b > k {
                    assert(s[a] == before[a]);
                    assert(s[b] == before[b - 1]);
                    lemma_listing_trans(s[a], x, s[b]);
                } else if a < k && b == k {
                    assert(s[a] == before[a]);
                } else if a == k {
                    assert(s[b] == before[b - 1]);
                } else if b < k {
                    assert(s[a] == before[a]);
                    assert(s[b] == before[b]);
                } else {
                    assert(s[a] == before[a - 1]);
                    assert(s[b] == before[b - 1]);
                }
            }
            broadcast use vstd::multiset::group_multiset_axioms;
            assert(out@.to_multiset().add(rest@.to_multiset()) =~= candidates(orig).to_multiset());
        }
    }
    proof {
        rest@.to_multiset_ensures();
        broadcast use vstd::multiset::group_multiset_axioms;
        assert(rest@.to_multiset() =~= Multiset::empty());
        assert(out@.to_multiset() =~= candidates(orig).to_multiset());
    }
    out
}

} // verus!
