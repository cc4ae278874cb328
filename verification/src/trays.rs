//! Trays: the life of a tray on the shelf (sown, blackout, light, harvested
//! or discarded), the greedy discard plan, the shelf recount and the
//! "what should I do today" view.
//!
//! Every function here plans; the application shell reads the rows it needs
//! from the farm file, hands them in, and writes the planned event.

use crate::models::{RecountCrop, UndoResult};
use crate::text::{
    dec_int, lex_le, lex_lt, push_int, push_str, str_eq, str_le, str_lt, lemma_lex_irreflexive,
    lemma_lex_not_lt_is_ge, lemma_lex_transitive, lemma_lex_trichotomy,
};
use vstd::multiset::Multiset;
use vstd::prelude::*;

verus! {

/// What the planning functions read of one tray row. Dates are `YYYY-MM-DD`.
#[derive(Debug)]
pub struct TrayRow {
    pub id: String,
    pub crop_id: String,
    pub crop_name: String,
    pub state: String,
    pub quantity: i64,
    pub sown_on: Option<String>,
    pub blackout_on: Option<String>,
    pub light_on: Option<String>,
    /// `sown_on + growth_days_at_sow`, when both are known.
    pub expected_harvest_date: Option<String>,
    /// `sown_on + blackout_days_at_sow`, when both are known.
    pub cover_check_date: Option<String>,
}

pub open spec fn opt_view(o: Option<String>) -> Option<Seq<char>> {
    match o {
        Some(s) => Some(s@),
        None => None,
    }
}

pub fn clone_opt(o: &Option<String>) -> (r: Option<String>)
    ensures
        r == *o,
{
    match o {
        Some(s) => Some(s.clone()),
        None => None,
    }
}

impl TrayRow {
    pub fn duplicate(&self) -> (r: TrayRow)
        ensures
            r == *self,
    {
        TrayRow {
            id: self.id.clone(),
            crop_id: self.crop_id.clone(),
            crop_name: self.crop_name.clone(),
            state: self.state.clone(),
            quantity: self.quantity,
            sown_on: clone_opt(&self.sown_on),
            blackout_on: clone_opt(&self.blackout_on),
            light_on: clone_opt(&self.light_on),
            expected_harvest_date: clone_opt(&self.expected_harvest_date),
            cover_check_date: clone_opt(&self.cover_check_date),
        }
    }
}

// --- state machine -----------------------------------------------------------

/// The one step a tray may take forward, or why it may not.
pub open spec fn next_state_spec(from: Seq<char>) -> Result<Seq<char>, Seq<char>> {
    if from == "planned"@ {
        Ok("sown"@)
    } else if from == "sown"@ {
        Ok("blackout"@)
    } else if from == "blackout"@ {
        Ok("light"@)
    } else if from == "light"@ {
        Ok("harvested"@)
    } else if from == "harvested"@ || from == "discarded"@ {
        Err("cannot advance from terminal state '"@ + from + "'"@)
    } else {
        Err("unknown state '"@ + from + "'"@)
    }
}

pub fn next_state(from: &str) -> (r: Result<&'static str, String>)
    ensures
        match r {
            Ok(s) => next_state_spec(from@) == Ok::<Seq<char>, Seq<char>>(s@),
            Err(e) => next_state_spec(from@) == Err::<Seq<char>, Seq<char>>(e@),
        },
{
    if str_eq(from, "planned") {
        Ok("sown")
    } else if str_eq(from, "sown") {
        Ok("blackout")
    } else if str_eq(from, "blackout") {
        Ok("light")
    } else if str_eq(from, "light") {
        Ok("harvested")
    } else if str_eq(from, "harvested") || str_eq(from, "discarded") {
        let mut e = String::from_str("cannot advance from terminal state '");
        push_str(&mut e, from);
        push_str(&mut e, "'");
        Err(e)
    } else {
        let mut e = String::from_str("unknown state '");
        push_str(&mut e, from);
        push_str(&mut e, "'");
        Err(e)
    }
}

/// The date column stamped when a tray enters `state`.
pub open spec fn date_col_spec(state: Seq<char>) -> Option<Seq<char>> {
    if state == "planned"@ {
        Some("planned_on"@)
    } else if state == "sown"@ {
        Some("sown_on"@)
    } else if state == "blackout"@ {
        Some("blackout_on"@)
    } else if state == "light"@ {
        Some("light_on"@)
    } else if state == "harvested"@ {
        Some("harvested_on"@)
    } else if state == "discarded"@ {
        Some("discarded_on"@)
    } else {
        None
    }
}

pub fn date_col_for_state(state: &str) -> (r: Option<&'static str>)
    ensures
        match r {
            Some(c) => date_col_spec(state@) == Some(c@),
            None => date_col_spec(state@) is None,
        },
{
    if str_eq(state, "planned") {
        Some("planned_on")
    } else if str_eq(state, "sown") {
        Some("sown_on")
    } else if str_eq(state, "blackout") {
        Some("blackout_on")
    } else if str_eq(state, "light") {
        Some("light_on")
    } else if str_eq(state, "harvested") {
        Some("harvested_on")
    } else if str_eq(state, "discarded") {
        Some("discarded_on")
    } else {
        None
    }
}

// --- ordering by (sown_on, id) ------------------------------------------------

/// `Option<String>` ordering: `None` first, then by the string.
pub open spec fn opt_lt(a: Option<Seq<char>>, b: Option<Seq<char>>) -> bool {
    match (a, b) {
        (None, Some(_)) => true,
        (Some(x), Some(y)) => lex_lt(x, y),
        _ => false,
    }
}

/// Shelf order: oldest `sown_on` first, then by id.
pub open spec fn shelf_lt(a: TrayRow, b: TrayRow) -> bool {
    opt_lt(opt_view(a.sown_on), opt_view(b.sown_on)) || (opt_view(a.sown_on) == opt_view(
        b.sown_on,
    ) && lex_lt(a.id@, b.id@))
}

pub open spec fn shelf_le(a: TrayRow, b: TrayRow) -> bool {
    shelf_lt(a, b) || (opt_view(a.sown_on) == opt_view(b.sown_on) && a.id@ == b.id@)
}

pub open spec fn shelf_sorted(s: Seq<TrayRow>) -> bool {
    forall|i: int, j: int| 0 <= i < j < s.len() ==> shelf_le(s[i], s[j])
}

proof fn lemma_opt_total(a: Option<Seq<char>>, b: Option<Seq<char>>)
    ensures
        opt_lt(a, b) || opt_lt(b, a) || a == b,
        !(opt_lt(a, b) && opt_lt(b, a)),
        !opt_lt(a, a),
{
    match (a, b) {
        (Some(x), Some(y)) => {
            lemma_lex_trichotomy(x, y);
            lemma_lex_irreflexive(x);
        },
        (Some(x), None) => {
            lemma_lex_irreflexive(x);
        },
        _ => {},
    }
}

proof fn lemma_opt_trans(a: Option<Seq<char>>, b: Option<Seq<char>>, c: Option<Seq<char>>)
    requires
        opt_lt(a, b),
        opt_lt(b, c),
    ensures
        opt_lt(a, c),
{
    match (a, b, c) {
        (Some(x), Some(y), Some(z)) => {
            lemma_lex_transitive(x, y, z);
        },
        _ => {},
    }
}

proof fn lemma_shelf_total(a: TrayRow, b: TrayRow)
    ensures
        !shelf_lt(a, b) ==> shelf_le(b, a),
        shelf_lt(a, b) ==> !shelf_le(b, a),
{
    lemma_opt_total(opt_view(a.sown_on), opt_view(b.sown_on));
    lemma_lex_trichotomy(a.id@, b.id@);
    lemma_lex_irreflexive(a.id@);
}

proof fn lemma_shelf_le_trans(a: TrayRow, b: TrayRow, c: TrayRow)
    requires
        shelf_le(a, b),
        shelf_le(b, c),
    ensures
        shelf_le(a, c),
{
    let (sa, sb, sc) = (opt_view(a.sown_on), opt_view(b.sown_on), opt_view(c.sown_on));
    lemma_opt_total(sa, sb);
    lemma_opt_total(sb, sc);
    lemma_opt_total(sa, sc);
    if opt_lt(sa, sb) && opt_lt(sb, sc) {
        lemma_opt_trans(sa, sb, sc);
    }
    if lex_lt(a.id@, b.id@) && lex_lt(b.id@, c.id@) {
        lemma_lex_transitive(a.id@, b.id@, c.id@);
    }
}

fn opt_str_lt(a: &Option<String>, b: &Option<String>) -> (r: bool)
    ensures
        r == opt_lt(opt_view(*a), opt_view(*b)),
{
    match (a, b) {
        (None, Some(_)) => true,
        (Some(x), Some(y)) => str_lt(x.as_str(), y.as_str()),
        _ => false,
    }
}

fn opt_str_eq(a: &Option<String>, b: &Option<String>) -> (r: bool)
    ensures
        r == (opt_view(*a) == opt_view(*b)),
{
    match (a, b) {
        (None, None) => true,
        (Some(x), Some(y)) => str_eq(x.as_str(), y.as_str()),
        _ => false,
    }
}

fn shelf_less(a: &TrayRow, b: &TrayRow) -> (r: bool)
    ensures
        r == shelf_lt(*a, *b),
{
    opt_str_lt(&a.sown_on, &b.sown_on) || (opt_str_eq(&a.sown_on, &b.sown_on) && str_lt(
        a.id.as_str(),
        b.id.as_str(),
    ))
}

/// Sorts rows into shelf order.
pub fn sort_shelf(rows: Vec<TrayRow>) -> (r: Vec<TrayRow>)
    ensures
        shelf_sorted(r@),
        r@.to_multiset() == rows@.to_multiset(),
        r@.len() == rows@.len(),
{
    let mut out: Vec<TrayRow> = Vec::new();
    let mut rest = rows;
    let ghost orig = rest@;
    proof {
        out@.to_multiset_ensures();
    }
    while rest.len() > 0
        invariant
            shelf_sorted(out@),
            out@.to_multiset().add(rest@.to_multiset()) == orig.to_multiset(),
            out@.len() + rest@.len() == orig.len(),
        decreases rest@.len(),
    {
        let ghost rest_before = rest@;
        let x = rest.pop().unwrap();
        proof {
            vstd::seq_lib::to_multiset_build(rest@, x);
            assert(rest_before =~= rest@.push(x));
        }
        let mut k: usize = out.len();
        while k > 0 && shelf_less(&x, &out[k - 1])
            invariant
                k <= out@.len(),
                shelf_sorted(out@),
                forall|j: int| k <= j < out@.len() ==> shelf_lt(x, #[trigger] out@[j]),
            decreases k,
        {
            k = k - 1;
        }
        proof {
            let s = out@;
            assert forall|j: int| 0 <= j < k implies shelf_le(#[trigger] s[j], x) by {
                lemma_shelf_total(x, s[k - 1]);
                if j < k - 1 {
                    lemma_shelf_le_trans(s[j], s[k - 1], x);
                }
            }
        }
        let ghost before = out@;
        out.insert(k, x);
        proof {
            let s = out@;
            assert(s =~= before.insert(k as int, x));
            vstd::seq_lib::to_multiset_insert(before, k as int, x);
            assert forall|a: int, b: int| 0 <= a < b < s.len() implies shelf_le(s[a], s[b]) by {
                if a < k && b > k {
                    assert(s[a] == before[a]);
                    assert(s[b] == before[b - 1]);
                    lemma_shelf_total(x, s[b]);
                    lemma_shelf_le_trans(s[a], x, s[b]);
                } else if a < k && b == k {
                    assert(s[a] == before[a]);
                } else if a == k {
                    assert(s[b] == before[b - 1]);
                    lemma_shelf_total(x, s[b]);
                } else if b < k {
                    assert(s[a] == before[a]);
                    assert(s[b] == before[b]);
                } else {
                    assert(s[a] == before[a - 1]);
                    assert(s[b] == before[b - 1]);
                }
            }
            broadcast use vstd::multiset::group_multiset_axioms;
            assert(out@.to_multiset().add(rest@.to_multiset()) =~= orig.to_multiset());
        }
    }
    proof {
        rest@.to_multiset_ensures();
        broadcast use vstd::multiset::group_multiset_axioms;
        assert(rest@.to_multiset() =~= Multiset::empty());
        assert(out@.to_multiset() =~= orig.to_multiset());
    }
    out
}

// --- greedy discard plan ------------------------------------------------------

/// One planned discard: the whole row (`split_tray_id` is `None`) or a split
/// of `consumed` trays off the row into a new discarded row.
#[derive(Debug)]
pub struct DiscardItem {
    pub tray_id: String,
    pub consumed: i64,
    pub split_tray_id: Option<String>,
    pub from: String,
    pub discarded_on: String,
}

/// How one planned discard is undone.
#[derive(Debug)]
pub enum DiscardInverse {
    /// Put the row back into `state` and clear its discard date.
    SetTrayState { tray_id: String, state: String },
    /// Give the split trays back to the source row and delete the split row.
    Unsplit { source_tray_id: String, restore_quantity: i64, delete_tray_id: String },
}

/// Sum of the quantities of `s`.
pub open spec fn sum_qty(s: Seq<TrayRow>) -> int
    decreases s.len(),
{
    if s.len() == 0 {
        0
    } else {
        sum_qty(s.drop_last()) + s.last().quantity
    }
}

/// Quantities of the first `k` rows.
pub open spec fn psum(rows: Seq<TrayRow>, k: int) -> int {
    sum_qty(rows.subrange(0, k))
}

/// Number of rows the greedy plan touches, starting at row `i` with `rem`
/// trays still to discard.
pub open spec fn consume_count(rows: Seq<TrayRow>, i: int, rem: int) -> int
    decreases rows.len() - i,
{
    if rem == 0 || i >= rows.len() || i < 0 {
        0
    } else if rows[i].quantity <= rem {
        1 + consume_count(rows, i + 1, rem - rows[i].quantity)
    } else {
        1
    }
}

/// Trays left unmatched once the greedy plan has run out of rows.
pub open spec fn consume_left(rows: Seq<TrayRow>, i: int, rem: int) -> int
    decreases rows.len() - i,
{
    if rem == 0 || i >= rows.len() || i < 0 {
        rem
    } else if rows[i].quantity <= rem {
        consume_left(rows, i + 1, rem - rows[i].quantity)
    } else {
        0
    }
}

pub open spec fn nonneg_quantities(rows: Seq<TrayRow>) -> bool {
    forall|j: int| 0 <= j < rows.len() ==> #[trigger] rows[j].quantity >= 0
}

/// Item `j` of a greedy plan that discards `quantity` trays from `rows` in
/// order: the whole row while the running total stays within `quantity`,
/// else the part of the row that finishes it.
pub open spec fn planned_item_ok(
    rows: Seq<TrayRow>,
    quantity: int,
    today: Seq<char>,
    split_id: Seq<char>,
    j: int,
    it: DiscardItem,
) -> bool {
    let row = rows[j];
    &&& it.tray_id@ == row.id@
    &&& it.from@ == row.state@
    &&& it.discarded_on@ == today
    &&& if psum(rows, j + 1) <= quantity {
        it.consumed == row.quantity && it.split_tray_id is None
    } else {
        it.consumed == quantity - psum(rows, j) && opt_view(it.split_tray_id) == Some(split_id)
    }
}

pub open spec fn planned_inverse_ok(
    rows: Seq<TrayRow>,
    quantity: int,
    split_id: Seq<char>,
    j: int,
    inv: DiscardInverse,
) -> bool {
    let row = rows[j];
    if psum(rows, j + 1) <= quantity {
        inv matches DiscardInverse::SetTrayState { tray_id, state } && tray_id@ == row.id@
            && state@ == row.state@
    } else {
        inv matches DiscardInverse::Unsplit { source_tray_id, restore_quantity, delete_tray_id }
            && source_tray_id@ == row.id@ && restore_quantity == row.quantity && delete_tray_id@
            == split_id
    }
}

proof fn lemma_psum_step(rows: Seq<TrayRow>, k: int)
    requires
        0 <= k < rows.len(),
    ensures
        psum(rows, k + 1) == psum(rows, k) + rows[k].quantity,
{
    assert(rows.subrange(0, k + 1).drop_last() =~= rows.subrange(0, k));
}

proof fn lemma_psum_zero(rows: Seq<TrayRow>)
    ensures
        psum(rows, 0) == 0,
{
    assert(rows.subrange(0, 0).len() == 0);
}

proof fn lemma_psum_mono(rows: Seq<TrayRow>, a: int, b: int)
    requires
        0 <= a <= b <= rows.len(),
        nonneg_quantities(rows),
    ensures
        psum(rows, a) <= psum(rows, b),
    decreases b - a,
{
    if a < b {
        lemma_psum_mono(rows, a, b - 1);
        lemma_psum_step(rows, b - 1);
    }
}

/// Greedy plan: discard `quantity` physical trays from `rows`, taking whole
/// rows in the given order and splitting the last one when only part of it is
/// needed (`split_id` names the split-off row). Fails when the rows hold fewer
/// than `quantity` trays.
/// The trays the items from position `i` on take off the shelf.
pub open spec fn consumed_from(items: Seq<DiscardItem>, i: int) -> int
    decreases items.len() - i,
{
    if i < 0 || i >= items.len() {
        0
    } else {
        items[i].consumed + consumed_from(items, i + 1)
    }
}

proof fn lemma_consume_count_nonneg(rows: Seq<TrayRow>, i: int, rem: int)
    ensures
        consume_count(rows, i, rem) >= 0,
    decreases rows.len() - i,
{
    if !(rem == 0 || i >= rows.len() || i < 0) && rows[i].quantity <= rem {
        lemma_consume_count_nonneg(rows, i + 1, rem - rows[i].quantity);
    }
}

proof fn lemma_consume_count_le(rows: Seq<TrayRow>, i: int, rem: int)
    requires
        0 <= i <= rows.len(),
    ensures
        i + consume_count(rows, i, rem) <= rows.len(),
    decreases rows.len() - i,
{
    if !(rem == 0 || i >= rows.len() || i < 0) && rows[i].quantity <= rem {
        lemma_consume_count_le(rows, i + 1, rem - rows[i].quantity);
    }
}

proof fn lemma_consumed_from(
    rows: Seq<TrayRow>,
    quantity: int,
    today: Seq<char>,
    split_id: Seq<char>,
    items: Seq<DiscardItem>,
    i: int,
    rem: int,
)
    requires
        0 <= i <= rows.len(),
        nonneg_quantities(rows),
        0 <= rem,
        rem == quantity - psum(rows, i),
        consume_left(rows, i, rem) == 0,
        items.len() == i + consume_count(rows, i, rem),
        forall|j: int| i <= j < items.len() ==> planned_item_ok(rows, quantity, today, split_id, j, #[trigger] items[j]),
    ensures
        consumed_from(items, i) == rem,
    decreases rows.len() - i,
{
    if rem == 0 {
    } else if i >= rows.len() {
    } else {
        lemma_psum_step(rows, i);
        lemma_consume_count_nonneg(rows, i + 1, rem - rows[i].quantity);
        assert(consume_count(rows, i, rem) >= 1);
        assert(planned_item_ok(rows, quantity, today, split_id, i, items[i]));
        if rows[i].quantity <= rem {
            assert(consume_count(rows, i, rem) == 1 + consume_count(rows, i + 1, rem - rows[i].quantity));
            assert(consume_left(rows, i + 1, rem - rows[i].quantity) == 0);
            lemma_consumed_from(rows, quantity, today, split_id, items, i + 1, rem - rows[i].quantity);
            assert(consumed_from(items, i) == items[i].consumed + consumed_from(items, i + 1));
        } else {
            assert(consume_count(rows, i, rem) == 1);
            assert(items.len() == i + 1);
            assert(consumed_from(items, i + 1) == 0);
        }
    }
}

/// A consume plan that succeeds takes exactly the trays asked for: the
/// planned items' counts add up to `quantity`.
pub proof fn lemma_consume_takes_exactly(
    rows: Seq<TrayRow>,
    quantity: int,
    today: Seq<char>,
    split_id: Seq<char>,
    items: Seq<DiscardItem>,
)
    requires
        quantity >= 0,
        nonneg_quantities(rows),
        consume_left(rows, 0, quantity) == 0,
        items.len() == consume_count(rows, 0, quantity),
        forall|j: int| 0 <= j < items.len() ==> planned_item_ok(rows, quantity, today, split_id, j, #[trigger] items[j]),
    ensures
        consumed_from(items, 0) == quantity,
{
    lemma_psum_zero(rows);
    lemma_consumed_from(rows, quantity, today, split_id, items, 0, quantity);
}

pub fn plan_consume(rows: &Vec<TrayRow>, quantity: i64, today: &str, split_id: &str) -> (r: Result<
    (Vec<DiscardItem>, Vec<DiscardInverse>),
    String,
>)
    requires
        quantity >= 0,
        nonneg_quantities(rows@),
    ensures
        consume_left(rows@, 0, quantity as int) == 0 <==> r is Ok,
        match r {
            Ok((items, invs)) => {
                &&& items@.len() == consume_count(rows@, 0, quantity as int)
                &&& invs@.len() == items@.len()
                &&& forall|j: int| 0 <= j < items@.len() ==> planned_item_ok(rows@, quantity as int, today@, split_id@, j, #[trigger] items@[j])
                &&& forall|j: int| 0 <= j < invs@.len() ==> planned_inverse_ok(rows@, quantity as int, split_id@, j, #[trigger] invs@[j])
            },
            Err(e) => e@ == "could not consume full quantity; "@ + dec_int(consume_left(rows@, 0, quantity as int)) + " left unmatched"@,
        },
{
    let mut remaining = quantity;
    let mut items: Vec<DiscardItem> = Vec::new();
    let mut invs: Vec<DiscardInverse> = Vec::new();
    let n = rows.len();
    let mut i: usize = 0;
    proof {
        lemma_psum_zero(rows@);
    }
    while i < n && remaining != 0
        invariant
            n == rows@.len(),
            0 <= i <= n,
            nonneg_quantities(rows@),
            quantity >= 0,
            0 <= remaining,
            remaining > 0 ==> remaining == quantity - psum(rows@, i as int),
            remaining > 0 ==> consume_count(rows@, 0, quantity as int) == i + consume_count(rows@, i as int, remaining as int),
            remaining > 0 ==> consume_left(rows@, 0, quantity as int) == consume_left(rows@, i as int, remaining as int),
            remaining == 0 ==> consume_count(rows@, 0, quantity as int) == i,
            remaining == 0 ==> consume_left(rows@, 0, quantity as int) == 0,
            items@.len() == i,
            invs@.len() == i,
            forall|j: int| 0 <= j < i ==> planned_item_ok(rows@, quantity as int, today@, split_id@, j, #[trigger] items@[j]),
            forall|j: int| 0 <= j < i ==> planned_inverse_ok(rows@, quantity as int, split_id@, j, #[trigger] invs@[j]),
        decreases n - i,
    {
        let row = &rows[i];
        let ghost rem0 = remaining;
        proof {
            lemma_psum_step(rows@, i as int);
        }
        if row.quantity <= remaining {
            remaining = remaining - row.quantity;
            items.push(DiscardItem {
                tray_id: row.id.clone(),
                consumed: row.quantity,
                split_tray_id: None,
                from: row.state.clone(),
                discarded_on: String::from_str(today),
            });
            invs.push(DiscardInverse::SetTrayState { tray_id: row.id.clone(), state: row.state.clone() });
            proof {
                assert(consume_left(rows@, i as int, rem0 as int) == consume_left(rows@, i + 1, remaining as int));
                assert(consume_count(rows@, i as int, rem0 as int) == 1 + consume_count(rows@, i + 1, remaining as int));
                if remaining == 0 {
                    assert(consume_left(rows@, i + 1, 0) == 0);
                    assert(consume_count(rows@, i + 1, 0) == 0);
                }
            }
        } else {
            let consumed = remaining;
            remaining = 0;
            items.push(DiscardItem {
                tray_id: row.id.clone(),
                consumed,
                split_tray_id: Some(String::from_str(split_id)),
                from: row.state.clone(),
                discarded_on: String::from_str(today),
            });
            invs.push(DiscardInverse::Unsplit {
                source_tray_id: row.id.clone(),
                restore_quantity: row.quantity,
                delete_tray_id: String::from_str(split_id),
            });
            proof {
                assert(consume_left(rows@, i as int, rem0 as int) == 0);
                assert(consume_count(rows@, i as int, rem0 as int) == 1);
            }
        }
        i = i + 1;
    }
    if remaining != 0 {
        let mut e = String::from_str("could not consume full quantity; ");
        push_int(&mut e, remaining);
        push_str(&mut e, " left unmatched");
        proof {
            assert(consume_left(rows@, i as int, remaining as int) == remaining);
        }
        return Err(e);
    }
    Ok((items, invs))
}

// --- discard from a harvest group -----------------------------------------------

/// Checks one named row before it joins a group discard.
pub open spec fn discard_row_verdict(row: TrayRow) -> Result<(), Seq<char>> {
    if row.state@ == "discarded"@ {
        Err("tray already discarded: "@ + row.id@)
    } else if row.state@ != "light"@ {
        Err("cannot discard_from_group from state '"@ + row.state@ + "'; expected 'light'"@)
    } else {
        Ok(())
    }
}

pub fn check_discard_row(row: &TrayRow) -> (r: Result<(), String>)
    ensures
        match r {
            Ok(_) => discard_row_verdict(*row) is Ok,
            Err(e) => discard_row_verdict(*row) == Err::<(), Seq<char>>(e@),
        },
{
    if str_eq(row.state.as_str(), "discarded") {
        let mut e = String::from_str("tray already discarded: ");
        push_str(&mut e, row.id.as_str());
        return Err(e);
    }
    if !str_eq(row.state.as_str(), "light") {
        let mut e = String::from_str("cannot discard_from_group from state '");
        push_str(&mut e, row.state.as_str());
        push_str(&mut e, "'; expected 'light'");
        return Err(e);
    }
    Ok(())
}

/// Sum of quantities, in a wide integer.
fn total_quantity(rows: &Vec<TrayRow>) -> (t: i128)
    requires
        nonneg_quantities(rows@),
    ensures
        t == sum_qty(rows@),
        t >= 0,
{
    let n = rows.len();
    let mut t: i128 = 0;
    let mut i: usize = 0;
    while i < n
        invariant
            n == rows@.len(),
            i <= n,
            nonneg_quantities(rows@),
            t == psum(rows@, i as int),
            0 <= t <= i * 0x7fff_ffff_ffff_ffff,
        decreases n - i,
    {
        proof {
            lemma_psum_step(rows@, i as int);
        }
        t = t + rows[i].quantity as i128;
        i = i + 1;
    }
    proof {
        lemma_psum_zero(rows@);
        assert(rows@.subrange(0, n as int) =~= rows@);
    }
    t
}

/// The light trays left of rows `i..` once a discard plan's items are
/// applied in order (item `j` acting on row `j`): a wholly discarded row
/// leaves none, a split row keeps what it held less what was split off (the
/// split-off part becomes a discarded row), an untouched light row keeps all.
pub open spec fn light_left_from(s: Seq<TrayRow>, items: Seq<DiscardItem>, i: int) -> int
    decreases s.len() - i,
{
    if i < 0 || i >= s.len() {
        0
    } else {
        let here = if s[i].state@ != "light"@ {
            0
        } else if i < items.len() {
            if items[i].split_tray_id is None {
                0
            } else {
                s[i].quantity - items[i].consumed
            }
        } else {
            s[i].quantity as int
        };
        here + light_left_from(s, items, i + 1)
    }
}

pub open spec fn light_left(s: Seq<TrayRow>, items: Seq<DiscardItem>) -> int {
    light_left_from(s, items, 0)
}

proof fn lemma_light_left_from(
    s: Seq<TrayRow>,
    quantity: int,
    today: Seq<char>,
    split_id: Seq<char>,
    items: Seq<DiscardItem>,
    i: int,
)
    requires
        0 <= i <= s.len(),
        items.len() <= s.len(),
        forall|j: int| 0 <= j < s.len() ==> (#[trigger] s[j]).state@ == "light"@,
        forall|j: int| 0 <= j < items.len() ==> planned_item_ok(s, quantity, today, split_id, j, #[trigger] items[j]),
    ensures
        light_left_from(s, items, i) == psum(s, s.len() as int) - psum(s, i) - consumed_from(items, i),
    decreases s.len() - i,
{
    if i < s.len() {
        lemma_light_left_from(s, quantity, today, split_id, items, i + 1);
        lemma_psum_step(s, i);
        assert(s[i].state@ == "light"@);
        if i < items.len() {
            assert(planned_item_ok(s, quantity, today, split_id, i, items[i]));
        } else {
            assert(consumed_from(items, i) == 0);
            assert(consumed_from(items, i + 1) == 0);
        }
    }
}

// --- applying a discard plan and undoing it --------------------------------------

/// A tray as the shelf holds it: its state, its trays, and its discard date.
pub open spec fn shelf_entry(t: TrayRow) -> (Seq<char>, int, Option<Seq<char>>) {
    (t.state@, t.quantity as int, None)
}

/// The shelf of `rows`, by tray id (rows not yet discarded carry no discard
/// date).
pub open spec fn shelf_of(rows: Seq<TrayRow>) -> Map<Seq<char>, (Seq<char>, int, Option<Seq<char>>)>
    decreases rows.len(),
{
    if rows.len() == 0 {
        Map::empty()
    } else {
        shelf_of(rows.drop_last()).insert(rows.last().id@, shelf_entry(rows.last()))
    }
}

/// One discard item applied: a whole row goes to `discarded` with the day; a
/// split row keeps the trays it still holds and a new discarded row, named by
/// the split id, takes the rest.
pub open spec fn apply_discard(
    m: Map<Seq<char>, (Seq<char>, int, Option<Seq<char>>)>,
    it: DiscardItem,
) -> Map<Seq<char>, (Seq<char>, int, Option<Seq<char>>)> {
    let id = it.tray_id@;
    if !m.contains_key(id) {
        m
    } else {
        match it.split_tray_id {
            None => m.insert(id, ("discarded"@, m[id].1, Some(it.discarded_on@))),
            Some(sid) => m.insert(id, (m[id].0, m[id].1 - it.consumed, m[id].2)).insert(
                sid@,
                ("discarded"@, it.consumed as int, Some(it.discarded_on@)),
            ),
        }
    }
}

/// The items applied in order.
pub open spec fn apply_discards(
    m: Map<Seq<char>, (Seq<char>, int, Option<Seq<char>>)>,
    items: Seq<DiscardItem>,
) -> Map<Seq<char>, (Seq<char>, int, Option<Seq<char>>)>
    decreases items.len(),
{
    if items.len() == 0 {
        m
    } else {
        apply_discard(apply_discards(m, items.drop_last()), items.last())
    }
}

/// One inverse applied: the row goes back to its state with no discard date,
/// or the split trays go back to their source and the split row is deleted.
pub open spec fn undo_discard(
    m: Map<Seq<char>, (Seq<char>, int, Option<Seq<char>>)>,
    inv: DiscardInverse,
) -> Map<Seq<char>, (Seq<char>, int, Option<Seq<char>>)> {
    match inv {
        DiscardInverse::SetTrayState { tray_id, state } => if m.contains_key(tray_id@) {
            m.insert(tray_id@, (state@, m[tray_id@].1, None))
        } else {
            m
        },
        DiscardInverse::Unsplit { source_tray_id, restore_quantity, delete_tray_id } => if m.contains_key(source_tray_id@) {
            m.insert(source_tray_id@, (m[source_tray_id@].0, restore_quantity as int, m[source_tray_id@].2)).remove(delete_tray_id@)
        } else {
            m.remove(delete_tray_id@)
        },
    }
}

/// The inverses applied, the last one first.
pub open spec fn undo_discards(
    m: Map<Seq<char>, (Seq<char>, int, Option<Seq<char>>)>,
    invs: Seq<DiscardInverse>,
) -> Map<Seq<char>, (Seq<char>, int, Option<Seq<char>>)>
    decreases invs.len(),
{
    if invs.len() == 0 {
        m
    } else {
        undo_discards(undo_discard(m, invs.last()), invs.drop_last())
    }
}

pub open spec fn ids_distinct(rows: Seq<TrayRow>) -> bool {
    forall|a: int, b: int| 0 <= a < b < rows.len() ==> rows[a].id@ != rows[b].id@
}

pub open spec fn names_row(rows: Seq<TrayRow>, id: Seq<char>) -> bool {
    exists|j: int| 0 <= j < rows.len() && (#[trigger] rows[j]).id@ == id
}

proof fn lemma_shelf_of(rows: Seq<TrayRow>)
    requires
        ids_distinct(rows),
    ensures
        forall|j: int| 0 <= j < rows.len() ==> shelf_of(rows).contains_key(#[trigger] rows[j].id@) && shelf_of(rows)[rows[j].id@] == shelf_entry(rows[j]),
        forall|k: Seq<char>| #[trigger] shelf_of(rows).contains_key(k) ==> names_row(rows, k),
    decreases rows.len(),
{
    if rows.len() > 0 {
        let p = rows.drop_last();
        assert(ids_distinct(p));
        lemma_shelf_of(p);
        assert forall|j: int| 0 <= j < rows.len() implies shelf_of(rows).contains_key(#[trigger] rows[j].id@) && shelf_of(rows)[rows[j].id@] == shelf_entry(rows[j]) by {
            if j < rows.len() - 1 {
                assert(p[j] == rows[j]);
                assert(rows[j].id@ != rows.last().id@);
            }
        }
        assert forall|k: Seq<char>| #[trigger] shelf_of(rows).contains_key(k) implies names_row(rows, k) by {
            if k != rows.last().id@ {
                assert(shelf_of(p).contains_key(k));
                let j = choose|j: int| 0 <= j < p.len() && (#[trigger] p[j]).id@ == k;
                assert(rows[j] == p[j]);
            } else {
                assert(rows[rows.len() - 1].id@ == k);
            }
        }
    }
}

/// Every item but the last takes its row whole.
proof fn lemma_whole_before_last(rows: Seq<TrayRow>, quantity: int, i: int, rem: int)
    requires
        0 <= i <= rows.len(),
        nonneg_quantities(rows),
        0 <= rem,
        rem == quantity - psum(rows, i),
    ensures
        forall|j: int| i <= j < i + consume_count(rows, i, rem) - 1 ==> #[trigger] psum(rows, j + 1) <= quantity,
    decreases rows.len() - i,
{
    if !(rem == 0 || i >= rows.len()) && rows[i].quantity <= rem {
        lemma_psum_step(rows, i);
        lemma_whole_before_last(rows, quantity, i + 1, rem - rows[i].quantity);
    }
}

/// After the first `k` items: the rows from `k` on are as they were, and
/// before the last item no tray was added.
proof fn lemma_apply_prefix(
    s: Seq<TrayRow>,
    quantity: int,
    today: Seq<char>,
    split_id: Seq<char>,
    items: Seq<DiscardItem>,
    k: int,
)
    requires
        ids_distinct(s),
        !names_row(s, split_id),
        items.len() <= s.len(),
        0 <= k <= items.len(),
        forall|j: int| 0 <= j < items.len() ==> planned_item_ok(s, quantity, today, split_id, j, #[trigger] items[j]),
        forall|j: int| 0 <= j < items.len() - 1 ==> #[trigger] psum(s, j + 1) <= quantity,
    ensures
        forall|j: int| k <= j < s.len() ==> apply_discards(shelf_of(s), items.take(k)).contains_key(#[trigger] s[j].id@)
            && apply_discards(shelf_of(s), items.take(k))[s[j].id@] == shelf_entry(s[j]),
        k < items.len() ==> apply_discards(shelf_of(s), items.take(k)).dom() == shelf_of(s).dom(),
    decreases k,
{
    lemma_shelf_of(s);
    if k == 0 {
        assert(items.take(0) =~= Seq::<DiscardItem>::empty());
    } else {
        lemma_apply_prefix(s, quantity, today, split_id, items, k - 1);
        let a = apply_discards(shelf_of(s), items.take(k - 1));
        assert(items.take(k).drop_last() =~= items.take(k - 1));
        assert(items.take(k).last() == items[k - 1]);
        let it = items[k - 1];
        assert(planned_item_ok(s, quantity, today, split_id, k - 1, it));
        assert forall|j: int| k <= j < s.len() implies apply_discards(shelf_of(s), items.take(k)).contains_key(#[trigger] s[j].id@)
            && apply_discards(shelf_of(s), items.take(k))[s[j].id@] == shelf_entry(s[j]) by {
            assert(s[j].id@ != s[k - 1].id@);
            if s[j].id@ == split_id {
                assert(names_row(s, split_id));
            }
        }
        if k < items.len() {
            assert(psum(s, k) <= quantity);
            assert(it.split_tray_id is None);
            assert(a.contains_key(s[k - 1].id@));
            assert(apply_discards(shelf_of(s), items.take(k)).dom() =~= a.dom());
        }
    }
}

/// Undoing a discard plan puts the shelf back: the planned inverses, applied
/// to the shelf the planned items left, give the shelf as it was (every row's
/// state, trays and discard date; the split-off row is gone again).
pub proof fn lemma_discard_undo_restores(
    s: Seq<TrayRow>,
    quantity: int,
    today: Seq<char>,
    split_id: Seq<char>,
    items: Seq<DiscardItem>,
    invs: Seq<DiscardInverse>,
)
    requires
        ids_distinct(s),
        !names_row(s, split_id),
        nonneg_quantities(s),
        quantity >= 0,
        consume_left(s, 0, quantity) == 0,
        items.len() == consume_count(s, 0, quantity),
        invs.len() == items.len(),
        forall|j: int| 0 <= j < items.len() ==> planned_item_ok(s, quantity, today, split_id, j, #[trigger] items[j]),
        forall|j: int| 0 <= j < invs.len() ==> planned_inverse_ok(s, quantity, split_id, j, #[trigger] invs[j]),
    ensures
        undo_discards(apply_discards(shelf_of(s), items), invs) == shelf_of(s),
{
    lemma_psum_zero(s);
    lemma_whole_before_last(s, quantity, 0, quantity);
    lemma_consume_count_le(s, 0, quantity);
    lemma_round_trip(s, quantity, today, split_id, items, invs, items.len() as int);
    assert(items.take(items.len() as int) =~= items);
    assert(invs.take(invs.len() as int) =~= invs);
}

proof fn lemma_round_trip(
    s: Seq<TrayRow>,
    quantity: int,
    today: Seq<char>,
    split_id: Seq<char>,
    items: Seq<DiscardItem>,
    invs: Seq<DiscardInverse>,
    k: int,
)
    requires
        ids_distinct(s),
        !names_row(s, split_id),
        items.len() <= s.len(),
        invs.len() == items.len(),
        0 <= k <= items.len(),
        forall|j: int| 0 <= j < items.len() ==> planned_item_ok(s, quantity, today, split_id, j, #[trigger] items[j]),
        forall|j: int| 0 <= j < invs.len() ==> planned_inverse_ok(s, quantity, split_id, j, #[trigger] invs[j]),
        forall|j: int| 0 <= j < items.len() - 1 ==> #[trigger] psum(s, j + 1) <= quantity,
    ensures
        undo_discards(apply_discards(shelf_of(s), items.take(k)), invs.take(k)) == shelf_of(s),
    decreases k,
{
    if k == 0 {
        assert(items.take(0) =~= Seq::<DiscardItem>::empty());
        assert(invs.take(0) =~= Seq::<DiscardInverse>::empty());
    } else {
        lemma_round_trip(s, quantity, today, split_id, items, invs, k - 1);
        lemma_apply_prefix(s, quantity, today, split_id, items, k - 1);
        lemma_shelf_of(s);
        let j = k - 1;
        let a = apply_discards(shelf_of(s), items.take(j));
        let it = items[j];
        let inv = invs[j];
        assert(items.take(k).drop_last() =~= items.take(j));
        assert(items.take(k).last() == it);
        assert(invs.take(k).drop_last() =~= invs.take(j));
        assert(invs.take(k).last() == inv);
        assert(planned_item_ok(s, quantity, today, split_id, j, it));
        assert(planned_inverse_ok(s, quantity, split_id, j, inv));
        let id = s[j].id@;
        assert(a.contains_key(id) && a[id] == shelf_entry(s[j]));
        assert(!shelf_of(s).contains_key(split_id)) by {
            if shelf_of(s).contains_key(split_id) {
                assert(names_row(s, split_id));
            }
        }
        assert(!a.contains_key(split_id));
        let back = undo_discard(apply_discard(a, it), inv);
        assert(back =~= a);
        assert(undo_discards(apply_discards(shelf_of(s), items.take(k)), invs.take(k)) == undo_discards(back, invs.take(j)));
    }
}

/// The plan for discarding `quantity` trays from a light harvest group.
#[derive(Debug)]
pub struct GroupDiscardPlan {
    pub crop_id: String,
    pub crop_name: String,
    pub items: Vec<DiscardItem>,
    pub inverse: Vec<DiscardInverse>,
}

/// Whether every named row has one crop.
pub open spec fn one_crop(rows: Seq<TrayRow>) -> bool {
    forall|j: int| 0 <= j < rows.len() ==> #[trigger] rows[j].crop_id@ == rows[0].crop_id@
}

/// First named row that may not join a group discard, from index `i` on.
pub open spec fn first_row_error(rows: Seq<TrayRow>, i: int) -> Option<Seq<char>>
    decreases rows.len() - i,
{
    if i < 0 || i >= rows.len() {
        None
    } else if discard_row_verdict(rows[i]) is Err {
        Some(discard_row_verdict(rows[i])->Err_0)
    } else {
        first_row_error(rows, i + 1)
    }
}

/// The message a refused group discard gives.
pub open spec fn group_discard_error(n_ids: int, rows: Seq<TrayRow>, quantity: int) -> Seq<char> {
    if n_ids == 0 {
        "discard_from_group requires at least one tray"@
    } else if quantity < 1 {
        "quantity must be >= 1"@
    } else if first_row_error(rows, 0) is Some {
        first_row_error(rows, 0)->0
    } else if !one_crop(rows) {
        "discard_from_group trayIds must share one crop"@
    } else {
        "quantity "@ + dec_int(quantity) + " exceeds group total "@ + dec_int(sum_qty(rows))
    }
}

/// Discards `quantity` physical trays from the named light rows of one crop,
/// oldest `sown_on` first, then by id. `rows` are the named rows in the order
/// their ids were given; `split_id` names a split-off row if one is needed.
pub fn plan_discard_from_group(
    tray_ids: &Vec<String>,
    rows: Vec<TrayRow>,
    quantity: i64,
    today: &str,
    split_id: &str,
) -> (r: Result<GroupDiscardPlan, String>)
    requires
        rows@.len() == tray_ids@.len(),
        nonneg_quantities(rows@),
    ensures
        r is Ok <==> {
            &&& tray_ids@.len() > 0
            &&& quantity >= 1
            &&& forall|j: int| 0 <= j < rows@.len() ==> discard_row_verdict(#[trigger] rows@[j]) is Ok
            &&& one_crop(rows@)
            &&& quantity <= sum_qty(rows@)
        },
        r is Err ==> r->Err_0@ == group_discard_error(tray_ids@.len() as int, rows@, quantity as int),
        match r {
            Ok(plan) => {
                &&& plan.crop_id@ == rows@[0].crop_id@
                &&& plan.crop_name@ == rows@[0].crop_name@
                &&& exists|s: Seq<TrayRow>| {
                    &&& shelf_sorted(s)
                    &&& s.to_multiset() == rows@.to_multiset()
                    &&& plan.items@.len() == consume_count(s, 0, quantity as int)
                    &&& plan.inverse@.len() == plan.items@.len()
                    &&& forall|j: int| 0 <= j < plan.items@.len() ==> planned_item_ok(s, quantity as int, today@, split_id@, j, #[trigger] plan.items@[j])
                    &&& forall|j: int| 0 <= j < plan.inverse@.len() ==> planned_inverse_ok(s, quantity as int, split_id@, j, #[trigger] plan.inverse@[j])
                    &&& consumed_from(plan.items@, 0) == quantity
                    &&& light_left(s, plan.items@) == sum_qty(rows@) - quantity
                }
            },
            Err(_) => true,
        },
{
    if tray_ids.len() == 0 {
        return Err(String::from_str("discard_from_group requires at least one tray"));
    }
    if quantity < 1 {
        return Err(String::from_str("quantity must be >= 1"));
    }
    let n = rows.len();
    let mut i: usize = 0;
    while i < n
        invariant
            n == rows@.len(),
            i <= n,
            forall|j: int| 0 <= j < i ==> discard_row_verdict(#[trigger] rows@[j]) is Ok,
            first_row_error(rows@, 0) == first_row_error(rows@, i as int),
            tray_ids@.len() == n,
            n > 0,
            quantity >= 1,
        decreases n - i,
    {
        match check_discard_row(&rows[i]) {
            Ok(_) => {},
            Err(e) => {
                return Err(e);
            },
        }
        i = i + 1;
    }
    assert(first_row_error(rows@, n as int) is None);
    let crop_id = rows[0].crop_id.clone();
    let crop_name = rows[0].crop_name.clone();
    let mut k: usize = 0;
    while k < n
        invariant
            n == rows@.len(),
            n > 0,
            k <= n,
            crop_id@ == rows@[0].crop_id@,
            forall|j: int| 0 <= j < k ==> #[trigger] rows@[j].crop_id@ == rows@[0].crop_id@,
            tray_ids@.len() == n,
            quantity >= 1,
            first_row_error(rows@, 0) is None,
        decreases n - k,
    {
        if !str_eq(rows[k].crop_id.as_str(), crop_id.as_str()) {
            assert(!one_crop(rows@));
            return Err(String::from_str("discard_from_group trayIds must share one crop"));
        }
        k = k + 1;
    }
    let total = total_quantity(&rows);
    if (quantity as i128) > total {
        let mut e = String::from_str("quantity ");
        push_int(&mut e, quantity);
        push_str(&mut e, " exceeds group total ");
        push_int(&mut e, total as i64);
        return Err(e);
    }
    let ghost orig = rows@;
    let sorted = sort_shelf(rows);
    proof {
        lemma_sum_qty_multiset(sorted@, orig);
        assert forall|j: int| 0 <= j < sorted@.len() implies #[trigger] sorted@[j].quantity >= 0 by {
            lemma_multiset_member(sorted@, orig, j);
        }
        lemma_consume_left_zero(sorted@, quantity as int);
    }
    match plan_consume(&sorted, quantity, today, split_id) {
        Ok((items, inverse)) => {
            proof {
                lemma_consume_takes_exactly(sorted@, quantity as int, today@, split_id@, items@);
                assert forall|j: int| 0 <= j < sorted@.len() implies (#[trigger] sorted@[j]).state@ == "light"@ by {
                    lemma_multiset_member(sorted@, orig, j);
                    let k = choose|k: int| 0 <= k < orig.len() && orig[k] == sorted@[j];
                    assert(discard_row_verdict(orig[k]) is Ok);
                }
                lemma_consume_count_le(sorted@, 0, quantity as int);
                lemma_light_left_from(sorted@, quantity as int, today@, split_id@, items@, 0);
                lemma_psum_zero(sorted@);
                assert(sorted@.subrange(0, sorted@.len() as int) =~= sorted@);
            }
            Ok(GroupDiscardPlan { crop_id, crop_name, items, inverse })
        },
        Err(e) => Err(e),
    }
}

proof fn lemma_multiset_member(s: Seq<TrayRow>, t: Seq<TrayRow>, j: int)
    requires
        s.to_multiset() == t.to_multiset(),
        0 <= j < s.len(),
    ensures
        exists|k: int| 0 <= k < t.len() && t[k] == s[j],
{
    s.to_multiset_ensures();
    t.to_multiset_ensures();
    assert(s.contains(s[j]));
    assert(s.to_multiset().count(s[j]) > 0);
    assert(t.to_multiset().count(s[j]) > 0);
    assert(t.contains(s[j]));
}

proof fn lemma_sum_qty_multiset(s: Seq<TrayRow>, t: Seq<TrayRow>)
    requires
        s.to_multiset() == t.to_multiset(),
    ensures
        sum_qty(s) == sum_qty(t),
    decreases s.len(),
{
    s.to_multiset_ensures();
    t.to_multiset_ensures();
    if s.len() > 0 {
        let x = s.last();
        assert(s.contains(x));
        assert(t.to_multiset().count(x) > 0);
        assert(t.contains(x));
        let k = choose|k: int| 0 <= k < t.len() && t[k] == x;
        let t2 = t.remove(k);
        vstd::seq_lib::to_multiset_remove(t, k);
        assert(s.drop_last().push(x) =~= s);
        vstd::seq_lib::to_multiset_build(s.drop_last(), x);
        broadcast use vstd::multiset::group_multiset_axioms;
        assert(s.drop_last().to_multiset() =~= t2.to_multiset());
        lemma_sum_qty_multiset(s.drop_last(), t2);
        lemma_sum_qty_remove(t, k);
    }
}

proof fn lemma_sum_qty_remove(t: Seq<TrayRow>, k: int)
    requires
        0 <= k < t.len(),
    ensures
        sum_qty(t) == sum_qty(t.remove(k)) + t[k].quantity,
    decreases t.len(),
{
    if k == t.len() - 1 {
        assert(t.remove(k) =~= t.drop_last());
    } else {
        lemma_sum_qty_remove(t.drop_last(), k);
        assert(t.remove(k).drop_last() =~= t.drop_last().remove(k));
        assert(t.remove(k).last() == t.last());
    }
}

proof fn lemma_consume_left_zero(rows: Seq<TrayRow>, quantity: int)
    requires
        0 <= quantity <= sum_qty(rows),
        nonneg_quantities(rows),
    ensures
        consume_left(rows, 0, quantity) == 0,
{
    lemma_psum_zero(rows);
    assert(rows.subrange(0, rows.len() as int) =~= rows);
    lemma_consume_left_from(rows, 0, quantity);
}

proof fn lemma_consume_left_from(rows: Seq<TrayRow>, i: int, rem: int)
    requires
        0 <= i <= rows.len(),
        0 <= rem,
        psum(rows, i) + rem <= psum(rows, rows.len() as int),
        nonneg_quantities(rows),
    ensures
        consume_left(rows, i, rem) == 0,
    decreases rows.len() - i,
{
    if rem != 0 && i < rows.len() {
        lemma_psum_step(rows, i);
        if rows[i].quantity <= rem {
            lemma_consume_left_from(rows, i + 1, rem - rows[i].quantity);
        }
    } else if rem != 0 {
        assert(i == rows.len());
    }
}

// --- shelf recount ----------------------------------------------------------------

/// What the recount reads of a crop.
#[derive(Debug)]
pub struct CropRef {
    pub id: String,
    pub name: String,
}

/// The shelf count the grower entered for one crop.
#[derive(Debug)]
pub struct RecountEntry {
    pub crop_id: String,
    pub counted_quantity: i64,
}

#[derive(Debug)]
pub struct RecountCropChange {
    pub crop_id: String,
    pub crop_name: String,
    pub quantity: i64,
}

#[derive(Debug)]
pub struct RecountResult {
    pub adjusted_down: Vec<RecountCropChange>,
    pub adjusted_up: Vec<RecountCropChange>,
    pub unchanged: i64,
}

/// A new row for trays found on the shelf but not in the farm file: it takes
/// the state and dates of the crop's newest active row.
#[derive(Debug)]
pub struct SurplusRow {
    pub new_tray_id: String,
    pub state: String,
    pub sown_on: Option<String>,
    pub blackout_on: Option<String>,
    pub light_on: Option<String>,
}

/// How a recount is undone, item by item.
#[derive(Debug)]
pub enum RecountInverse {
    Discard(DiscardInverse),
    DeleteTray { tray_id: String },
}

impl DiscardInverse {
    pub fn duplicate(&self) -> (r: DiscardInverse)
        ensures
            r == *self,
    {
        match self {
            DiscardInverse::SetTrayState { tray_id, state } => DiscardInverse::SetTrayState {
                tray_id: tray_id.clone(),
                state: state.clone(),
            },
            DiscardInverse::Unsplit { source_tray_id, restore_quantity, delete_tray_id } =>
                DiscardInverse::Unsplit {
                source_tray_id: source_tray_id.clone(),
                restore_quantity: *restore_quantity,
                delete_tray_id: delete_tray_id.clone(),
            },
        }
    }
}

impl RecountInverse {
    pub fn duplicate(&self) -> (r: RecountInverse)
        ensures
            r == *self,
    {
        match self {
            RecountInverse::Discard(d) => RecountInverse::Discard(d.duplicate()),
            RecountInverse::DeleteTray { tray_id } => RecountInverse::DeleteTray {
                tray_id: tray_id.clone(),
            },
        }
    }
}

/// The planned change for one counted crop. `delta` is counted minus what the
/// farm file holds; a shortfall is discarded through `items`, a surplus is
/// added as `surplus`; `undo` reverses this crop's part.
#[derive(Debug)]
pub struct RecountCropPlan {
    pub crop_id: String,
    pub counted: i64,
    pub app_quantity: i64,
    pub delta: i64,
    pub items: Vec<DiscardItem>,
    pub surplus: Option<SurplusRow>,
    pub undo: Vec<RecountInverse>,
}

/// One recount: at most one event, with its crops, its inverse and the
/// summary shown to the grower. `any_change` is false when every count
/// matched; then no event is written.
#[derive(Debug)]
pub struct RecountPlan {
    pub crops: Vec<RecountCropPlan>,
    pub inverse: Vec<RecountInverse>,
    pub result: RecountResult,
    pub any_change: bool,
}

/// Index of the crop the recount uses for `id` (the last one listed), or -1.
pub open spec fn crop_index(crops: Seq<CropRef>, id: Seq<char>) -> int
    decreases crops.len(),
{
    if crops.len() == 0 {
        -1
    } else if crops.last().id@ == id {
        crops.len() - 1
    } else {
        crop_index(crops.drop_last(), id)
    }
}

proof fn lemma_crop_index_bounds(crops: Seq<CropRef>, id: Seq<char>)
    ensures
        -1 <= crop_index(crops, id) < crops.len(),
        crop_index(crops, id) >= 0 ==> crops[crop_index(crops, id)].id@ == id,
    decreases crops.len(),
{
    if crops.len() > 0 && crops.last().id@ != id {
        lemma_crop_index_bounds(crops.drop_last(), id);
        let c = crop_index(crops.drop_last(), id);
        if c >= 0 {
            assert(crops[c] == crops.drop_last()[c]);
        }
    }
}

fn find_crop(crops: &Vec<CropRef>, id: &str) -> (r: Option<usize>)
    ensures
        match r {
            Some(j) => j == crop_index(crops@, id@) && j < crops@.len(),
            None => crop_index(crops@, id@) == -1,
        },
{
    let mut j: usize = crops.len();
    proof {
        assert(crops@.subrange(0, j as int) =~= crops@);
    }
    while j > 0
        invariant
            j <= crops@.len(),
            crop_index(crops@, id@) == crop_index(crops@.subrange(0, j as int), id@),
        decreases j,
    {
        proof {
            assert(crops@.subrange(0, j as int).drop_last() =~= crops@.subrange(0, j - 1));
        }
        if str_eq(crops[j - 1].id.as_str(), id) {
            return Some(j - 1);
        }
        j = j - 1;
    }
    None
}

/// The first refusal the entry check gives, from entry `i` on.
pub open spec fn first_entry_error(crops: Seq<CropRef>, entries: Seq<RecountEntry>, i: int) -> Option<Seq<char>>
    decreases entries.len() - i,
{
    if i < 0 || i >= entries.len() {
        None
    } else if entries[i].counted_quantity < 0 {
        Some("counted quantity cannot be negative"@)
    } else if crop_index(crops, entries[i].crop_id@) < 0 {
        Some("unknown crop: "@ + entries[i].crop_id@)
    } else {
        first_entry_error(crops, entries, i + 1)
    }
}

proof fn lemma_entries_valid(crops: Seq<CropRef>, entries: Seq<RecountEntry>, i: int, e: int)
    requires
        0 <= i <= e < entries.len(),
        first_entry_error(crops, entries, i) is None,
    ensures
        entries[e].counted_quantity >= 0,
        crop_index(crops, entries[e].crop_id@) >= 0,
    decreases e - i,
{
    if i < e {
        lemma_entries_valid(crops, entries, i + 1, e);
    }
}

/// Whether entry `e` asks for more trays than its rows hold, with no row to copy.
pub open spec fn surplus_without_row(entries: Seq<RecountEntry>, rows: Seq<Vec<TrayRow>>, e: int) -> bool {
    entries[e].counted_quantity > sum_qty(rows[e]@) && rows[e]@.len() == 0
}

/// The first surplus with no row to inherit from, from entry `i` on, or -1.
pub open spec fn first_orphan_surplus(entries: Seq<RecountEntry>, rows: Seq<Vec<TrayRow>>, i: int) -> int
    decreases entries.len() - i,
{
    if i < 0 || i >= entries.len() {
        -1
    } else if surplus_without_row(entries, rows, i) {
        i
    } else {
        first_orphan_surplus(entries, rows, i + 1)
    }
}

proof fn lemma_orphan_bounds(entries: Seq<RecountEntry>, rows: Seq<Vec<TrayRow>>, i: int)
    requires
        0 <= i,
    ensures
        first_orphan_surplus(entries, rows, i) == -1 || (i <= first_orphan_surplus(entries, rows, i) < entries.len()),
    decreases entries.len() - i,
{
    if i < entries.len() && !surplus_without_row(entries, rows, i) {
        lemma_orphan_bounds(entries, rows, i + 1);
    }
}

/// The newest row in shelf order; among equal ones, the last listed.
pub open spec fn is_newest_row(rows: Seq<TrayRow>, t: int) -> bool {
    &&& 0 <= t < rows.len()
    &&& forall|j: int| 0 <= j < rows.len() ==> shelf_le(#[trigger] rows[j], rows[t])
    &&& forall|j: int| t < j < rows.len() ==> shelf_lt(#[trigger] rows[j], rows[t])
}

/// Index of the newest row (`Iterator::max_by` in shelf order: the last of the maxima).
fn newest_row(rows: &Vec<TrayRow>) -> (t: usize)
    requires
        rows@.len() > 0,
    ensures
        is_newest_row(rows@, t as int),
{
    let n = rows.len();
    let mut t: usize = 0;
    let mut i: usize = 1;
    proof {
        lemma_shelf_total(rows@[0], rows@[0]);
    }
    while i < n
        invariant
            n == rows@.len(),
            1 <= i <= n,
            t < i,
            forall|j: int| 0 <= j < i ==> shelf_le(#[trigger] rows@[j], rows@[t as int]),
            forall|j: int| t < j < i ==> shelf_lt(#[trigger] rows@[j], rows@[t as int]),
        decreases n - i,
    {
        proof {
            lemma_shelf_total(rows@[i as int], rows@[t as int]);
        }
        if !shelf_less(&rows[i], &rows[t]) {
            proof {
                assert forall|j: int| 0 <= j < i + 1 implies shelf_le(#[trigger] rows@[j], rows@[i as int]) by {
                    if j < i {
                        lemma_shelf_le_trans(rows@[j], rows@[t as int], rows@[i as int]);
                    } else {
                        lemma_shelf_total(rows@[i as int], rows@[i as int]);
                    }
                }
            }
            t = i;
        }
        i = i + 1;
    }
    t
}

/// What the plan says of one counted crop, whose active rows are `rows`.
pub open spec fn crop_plan_ok(
    entry: RecountEntry,
    rows: Seq<TrayRow>,
    today: Seq<char>,
    fresh_id: Seq<char>,
    p: RecountCropPlan,
) -> bool {
    &&& p.crop_id@ == entry.crop_id@
    &&& p.counted == entry.counted_quantity
    &&& p.app_quantity == sum_qty(rows)
    &&& p.delta == p.counted - p.app_quantity
    &&& (p.delta == 0 ==> p.undo@.len() == 0)
    &&& (p.delta >= 0 ==> p.items@.len() == 0)
    &&& (p.delta <= 0 ==> p.surplus is None)
    &&& (p.delta < 0 ==> exists|s: Seq<TrayRow>| {
        &&& shelf_sorted(s)
        &&& s.to_multiset() == rows.to_multiset()
        &&& p.items@.len() == consume_count(s, 0, -p.delta)
        &&& p.undo@.len() == p.items@.len()
        &&& forall|j: int| 0 <= j < p.items@.len() ==> planned_item_ok(s, -p.delta, today, fresh_id, j, #[trigger] p.items@[j])
        &&& forall|j: int| 0 <= j < p.undo@.len() ==> ((#[trigger] p.undo@[j]) matches RecountInverse::Discard(d) && planned_inverse_ok(s, -p.delta, fresh_id, j, d))
    })
    &&& (p.delta > 0 ==> p.undo@ == seq![RecountInverse::DeleteTray { tray_id: p.surplus->0.new_tray_id }])
    &&& (p.delta > 0 ==> (p.surplus matches Some(sr) && exists|t: int| {
        &&& is_newest_row(rows, t)
        &&& sr.new_tray_id@ == fresh_id
        &&& sr.state@ == rows[t].state@
        &&& sr.sown_on == rows[t].sown_on
        &&& sr.blackout_on == rows[t].blackout_on
        &&& sr.light_on == rows[t].light_on
    }))
}

pub open spec fn rows_ok(rows: Seq<Vec<TrayRow>>) -> bool {
    forall|e: int| 0 <= e < rows.len() ==> {
        &&& nonneg_quantities(#[trigger] rows[e]@)
        &&& sum_qty(rows[e]@) <= 0x7fff_ffff_ffff_ffff
    }
}

/// The undo list of a recount: each crop's part, in entry order.
pub open spec fn flat_undo(plans: Seq<RecountCropPlan>) -> Seq<RecountInverse>
    decreases plans.len(),
{
    if plans.len() == 0 {
        Seq::empty()
    } else {
        flat_undo(plans.drop_last()) + plans.last().undo@
    }
}

pub open spec fn count_unchanged(plans: Seq<RecountCropPlan>) -> int
    decreases plans.len(),
{
    if plans.len() == 0 {
        0
    } else {
        count_unchanged(plans.drop_last()) + if plans.last().delta == 0 { 1int } else { 0int }
    }
}

/// Crops adjusted down (`down`) or up, with the trays moved, in entry order.
pub open spec fn changes(plans: Seq<RecountCropPlan>, names: Seq<Seq<char>>, down: bool) -> Seq<(Seq<char>, Seq<char>, int)>
    decreases plans.len(),
{
    if plans.len() == 0 {
        Seq::empty()
    } else {
        let rest = changes(plans.drop_last(), names.drop_last(), down);
        let p = plans.last();
        if down && p.delta < 0 {
            rest.push((p.crop_id@, names.last(), -p.delta))
        } else if !down && p.delta > 0 {
            rest.push((p.crop_id@, names.last(), p.delta as int))
        } else {
            rest
        }
    }
}

pub open spec fn change_views(v: Seq<RecountCropChange>) -> Seq<(Seq<char>, Seq<char>, int)> {
    v.map_values(|c: RecountCropChange| (c.crop_id@, c.crop_name@, c.quantity as int))
}

/// Names of the crops the entries count.
pub open spec fn entry_names(crops: Seq<CropRef>, entries: Seq<RecountEntry>) -> Seq<Seq<char>> {
    entries.map_values(|en: RecountEntry| crops[crop_index(crops, en.crop_id@)].name@)
}

fn duplicate_rows(v: &Vec<TrayRow>) -> (r: Vec<TrayRow>)
    ensures
        r@ == v@,
{
    let mut out: Vec<TrayRow> = Vec::new();
    let n = v.len();
    let mut i: usize = 0;
    while i < n
        invariant
            n == v@.len(),
            i <= n,
            out@ == v@.subrange(0, i as int),
        decreases n - i,
    {
        out.push(v[i].duplicate());
        assert(out@ =~= v@.subrange(0, i + 1));
        i = i + 1;
    }
    assert(v@.subrange(0, n as int) =~= v@);
    out
}

/// Plans a shelf recount. `rows[e]` are the active rows of the crop that
/// `entries[e]` counts; `fresh_ids[e]` names the row that a split or a surplus
/// for that entry creates. Every entry is checked before anything is planned.
/// After the plan, each counted crop holds exactly the counted number of trays:
/// `app_quantity + delta == counted`, a shortfall discards exactly `-delta`
/// trays and a surplus adds a row of `delta`.
pub fn plan_recount(
    crops: &Vec<CropRef>,
    entries: &Vec<RecountEntry>,
    rows: &Vec<Vec<TrayRow>>,
    today: &str,
    fresh_ids: &Vec<String>,
) -> (r: Result<RecountPlan, String>)
    requires
        rows@.len() == entries@.len(),
        fresh_ids@.len() == entries@.len(),
        entries@.len() < 0x7fff_ffff_ffff_ffff,
        rows_ok(rows@),
    ensures
        r is Err <==> (first_entry_error(crops@, entries@, 0) is Some || first_orphan_surplus(entries@, rows@, 0) >= 0),
        match r {
            Ok(plan) => {
                &&& plan.crops@.len() == entries@.len()
                &&& forall|e: int| 0 <= e < entries@.len() ==> crop_plan_ok(#[trigger] entries@[e], rows@[e]@, today@, fresh_ids@[e]@, plan.crops@[e])
                &&& plan.any_change == exists|e: int| 0 <= e < entries@.len() && #[trigger] plan.crops@[e].delta != 0
                &&& plan.inverse@ == flat_undo(plan.crops@)
                &&& plan.result.unchanged == count_unchanged(plan.crops@)
                &&& change_views(plan.result.adjusted_down@) == changes(plan.crops@, entry_names(crops@, entries@), true)
                &&& change_views(plan.result.adjusted_up@) == changes(plan.crops@, entry_names(crops@, entries@), false)
            },
            Err(msg) => match first_entry_error(crops@, entries@, 0) {
                Some(m) => msg@ == m,
                None => msg@ == "cannot add trays for "@ + entry_names(crops@, entries@)[first_orphan_surplus(entries@, rows@, 0)] + ": no active row to inherit from"@,
            },
        },
{
    // Validate every entry before planning anything.
    let ne = entries.len();
    let mut i: usize = 0;
    while i < ne
        invariant
            ne == entries@.len(),
            i <= ne,
            first_entry_error(crops@, entries@, 0) == first_entry_error(crops@, entries@, i as int),
        decreases ne - i,
    {
        if entries[i].counted_quantity < 0 {
            return Err(String::from_str("counted quantity cannot be negative"));
        }
        if find_crop(crops, entries[i].crop_id.as_str()).is_none() {
            let mut e = String::from_str("unknown crop: ");
            push_str(&mut e, entries[i].crop_id.as_str());
            return Err(e);
        }
        i = i + 1;
    }
    assert(first_entry_error(crops@, entries@, ne as int) is None);
    let ghost names = entry_names(crops@, entries@);

    let mut plans: Vec<RecountCropPlan> = Vec::new();
    let mut inverse: Vec<RecountInverse> = Vec::new();
    let mut down: Vec<RecountCropChange> = Vec::new();
    let mut up: Vec<RecountCropChange> = Vec::new();
    let mut unchanged: i64 = 0;
    let mut any_change = false;
    let mut e: usize = 0;
    while e < ne
        invariant
            ne == entries@.len(),
            rows@.len() == ne,
            fresh_ids@.len() == ne,
            ne < 0x7fff_ffff_ffff_ffff,
            rows_ok(rows@),
            e <= ne,
            first_entry_error(crops@, entries@, 0) is None,
            names == entry_names(crops@, entries@),
            first_orphan_surplus(entries@, rows@, 0) == first_orphan_surplus(entries@, rows@, e as int),
            plans@.len() == e,
            forall|k: int| 0 <= k < e ==> crop_plan_ok(#[trigger] entries@[k], rows@[k]@, today@, fresh_ids@[k]@, plans@[k]),
            any_change == exists|k: int| 0 <= k < e && #[trigger] plans@[k].delta != 0,
            inverse@ == flat_undo(plans@),
            unchanged == count_unchanged(plans@),
            0 <= unchanged <= e,
            change_views(down@) == changes(plans@, names.subrange(0, e as int), true),
            change_views(up@) == changes(plans@, names.subrange(0, e as int), false),
        decreases ne - e,
    {
        proof {
            lemma_entries_valid(crops@, entries@, 0, e as int);
            lemma_crop_index_bounds(crops@, entries@[e as int].crop_id@);
        }
        let entry = &entries[e];
        let ci = find_crop(crops, entry.crop_id.as_str()).unwrap();
        let crop = &crops[ci];
        let app_wide = total_quantity(&rows[e]);
        let app_q = app_wide as i64;
        let counted = entry.counted_quantity;
        let ghost plans_before = plans@;
        let ghost names_e = names.subrange(0, e as int);
        proof {
            assert(names.subrange(0, e + 1).drop_last() =~= names_e);
            assert(names[e as int] == crop.name@);
        }
        if counted == app_q {
            unchanged = unchanged + 1;
            let p = RecountCropPlan {
                crop_id: entry.crop_id.clone(),
                counted,
                app_quantity: app_q,
                delta: 0,
                items: Vec::new(),
                surplus: None,
                undo: Vec::new(),
            };
            plans.push(p);
            proof {
                assert(plans@.drop_last() =~= plans_before);
                assert(flat_undo(plans@) =~= flat_undo(plans_before));
            }
        } else if counted < app_q {
            any_change = true;
            let shortfall = app_q - counted;
            let ghost orig = rows@[e as int]@;
            let sorted = sort_shelf(duplicate_rows(&rows[e]));
            proof {
                lemma_sum_qty_multiset(sorted@, orig);
                assert forall|j: int| 0 <= j < sorted@.len() implies #[trigger] sorted@[j].quantity >= 0 by {
                    lemma_multiset_member(sorted@, orig, j);
                }
                lemma_consume_left_zero(sorted@, shortfall as int);
            }
            let (items, invs) = match plan_consume(&sorted, shortfall, today, fresh_ids[e].as_str()) {
                Ok(x) => x,
                Err(_) => {
                    proof { assert(false); }
                    (Vec::new(), Vec::new())
                },
            };
            let mut undo: Vec<RecountInverse> = Vec::new();
            let ni = invs.len();
            let mut j: usize = 0;
            let ghost inv_before = inverse@;
            while j < ni
                invariant
                    ni == invs@.len(),
                    j <= ni,
                    undo@.len() == j,
                    forall|k: int| 0 <= k < j ==> #[trigger] undo@[k] == RecountInverse::Discard(invs@[k]),
                    inverse@ == inv_before + undo@,
                decreases ni - j,
            {
                let d = invs[j].duplicate();
                let d2 = invs[j].duplicate();
                undo.push(RecountInverse::Discard(d));
                inverse.push(RecountInverse::Discard(d2));
                assert(inverse@ =~= inv_before + undo@);
                j = j + 1;
            }
            down.push(RecountCropChange { crop_id: crop.id.clone(), crop_name: crop.name.clone(), quantity: shortfall });
            let p = RecountCropPlan {
                crop_id: entry.crop_id.clone(),
                counted,
                app_quantity: app_q,
                delta: counted - app_q,
                items,
                surplus: None,
                undo,
            };
            plans.push(p);
            proof {
                assert(plans@.drop_last() =~= plans_before);
                let pl = plans@[e as int];
                assert(exists|s: Seq<TrayRow>| {
                    &&& shelf_sorted(s)
                    &&& s.to_multiset() == orig.to_multiset()
                    &&& pl.items@.len() == consume_count(s, 0, -pl.delta)
                    &&& pl.undo@.len() == pl.items@.len()
                    &&& forall|j: int| 0 <= j < pl.items@.len() ==> planned_item_ok(s, -pl.delta, today@, fresh_ids@[e as int]@, j, #[trigger] pl.items@[j])
                    &&& forall|j: int| 0 <= j < pl.undo@.len() ==> (#[trigger] pl.undo@[j] matches RecountInverse::Discard(d) && planned_inverse_ok(s, -pl.delta, fresh_ids@[e as int]@, j, d))
                }) by {
                    assert forall|j: int| 0 <= j < pl.undo@.len() implies (#[trigger] pl.undo@[j] matches RecountInverse::Discard(d) && planned_inverse_ok(sorted@, -pl.delta, fresh_ids@[e as int]@, j, d)) by {
                        assert(pl.undo@[j] == RecountInverse::Discard(invs@[j]));
                    }
                }
                assert(crop_plan_ok(entries@[e as int], rows@[e as int]@, today@, fresh_ids@[e as int]@, pl));
                assert(flat_undo(plans@) =~= flat_undo(plans_before) + pl.undo@);
            }
        } else {
            any_change = true;
            let surplus = counted - app_q;
            if rows[e].len() == 0 {
                let mut msg = String::from_str("cannot add trays for ");
                push_str(&mut msg, crop.name.as_str());
                push_str(&mut msg, ": no active row to inherit from");
                proof {
                    assert(surplus_without_row(entries@, rows@, e as int));
                }
                return Err(msg);
            }
            let t = newest_row(&rows[e]);
            let template = &rows[e][t];
            let new_id = fresh_ids[e].clone();
            up.push(RecountCropChange { crop_id: crop.id.clone(), crop_name: crop.name.clone(), quantity: surplus });
            inverse.push(RecountInverse::DeleteTray { tray_id: new_id.clone() });
            let mut undo: Vec<RecountInverse> = Vec::new();
            undo.push(RecountInverse::DeleteTray { tray_id: new_id.clone() });
            let p = RecountCropPlan {
                crop_id: entry.crop_id.clone(),
                counted,
                app_quantity: app_q,
                delta: surplus,
                items: Vec::new(),
                surplus: Some(SurplusRow {
                    new_tray_id: new_id,
                    state: template.state.clone(),
                    sown_on: clone_opt(&template.sown_on),
                    blackout_on: clone_opt(&template.blackout_on),
                    light_on: clone_opt(&template.light_on),
                }),
                undo,
            };
            plans.push(p);
            proof {
                assert(plans@.drop_last() =~= plans_before);
                let pl = plans@[e as int];
                assert(pl.undo@ =~= seq![RecountInverse::DeleteTray { tray_id: pl.surplus->0.new_tray_id }]);
                assert(crop_plan_ok(entries@[e as int], rows@[e as int]@, today@, fresh_ids@[e as int]@, pl));
                assert(flat_undo(plans@) =~= flat_undo(plans_before) + pl.undo@);
                assert(!surplus_without_row(entries@, rows@, e as int));
            }
        }
        proof {
            assert(!surplus_without_row(entries@, rows@, e as int));
            assert(first_orphan_surplus(entries@, rows@, e as int) == first_orphan_surplus(entries@, rows@, e + 1));
            assert forall|k: int| 0 <= k < e + 1 implies crop_plan_ok(#[trigger] entries@[k], rows@[k]@, today@, fresh_ids@[k]@, plans@[k]) by {
                if k < e {
                    assert(plans@[k] == plans_before[k]);
                }
            }
            assert(any_change == exists|k: int| 0 <= k < e + 1 && #[trigger] plans@[k].delta != 0) by {
                if any_change {
                    if plans@[e as int].delta == 0 {
                        let k = choose|k: int| 0 <= k < e && #[trigger] plans_before[k].delta != 0;
                        assert(plans@[k] == plans_before[k]);
                    }
                } else {
                    assert forall|k: int| 0 <= k < e + 1 implies #[trigger] plans@[k].delta == 0 by {
                        if k < e {
                            assert(plans@[k] == plans_before[k]);
                        }
                    }
                }
            }
        }
        e = e + 1;
    }
    proof {
        assert(names.subrange(0, ne as int) =~= names);
        assert(first_orphan_surplus(entries@, rows@, ne as int) == -1);
    }
    Ok(RecountPlan {
        crops: plans,
        inverse,
        result: RecountResult { adjusted_down: down, adjusted_up: up, unchanged },
        any_change,
    })
}

// --- filters over rows ----------------------------------------------------------

/// Quantities of the rows that satisfy `p`.
pub open spec fn filter_sum(rows: Seq<TrayRow>, p: spec_fn(TrayRow) -> bool) -> int
    decreases rows.len(),
{
    if rows.len() == 0 {
        0
    } else {
        filter_sum(rows.drop_last(), p) + if p(rows.last()) { rows.last().quantity as int } else { 0int }
    }
}

/// Ids of the rows that satisfy `p`, in order.
pub open spec fn filter_ids(rows: Seq<TrayRow>, p: spec_fn(TrayRow) -> bool) -> Seq<Seq<char>>
    decreases rows.len(),
{
    if rows.len() == 0 {
        Seq::empty()
    } else if p(rows.last()) {
        filter_ids(rows.drop_last(), p).push(rows.last().id@)
    } else {
        filter_ids(rows.drop_last(), p)
    }
}

/// Index of the first row that satisfies `p`, or -1.
pub open spec fn first_index(rows: Seq<TrayRow>, p: spec_fn(TrayRow) -> bool) -> int
    decreases rows.len(),
{
    if rows.len() == 0 {
        -1
    } else if first_index(rows.drop_last(), p) >= 0 {
        first_index(rows.drop_last(), p)
    } else if p(rows.last()) {
        rows.len() - 1
    } else {
        -1
    }
}

pub open spec fn view_ids(v: Seq<String>) -> Seq<Seq<char>> {
    v.map_values(|s: String| s@)
}

proof fn lemma_filter_sum_bounds(rows: Seq<TrayRow>, p: spec_fn(TrayRow) -> bool)
    requires
        nonneg_quantities(rows),
    ensures
        0 <= filter_sum(rows, p) <= sum_qty(rows),
    decreases rows.len(),
{
    if rows.len() > 0 {
        assert(nonneg_quantities(rows.drop_last())) by {
            assert forall|j: int| 0 <= j < rows.drop_last().len() implies #[trigger] rows.drop_last()[j].quantity >= 0 by {
                assert(rows.drop_last()[j] == rows[j]);
            }
        }
        lemma_filter_sum_bounds(rows.drop_last(), p);
        assert(rows.last().quantity >= 0);
    }
}

proof fn lemma_sum_prefix(rows: Seq<TrayRow>, i: int)
    requires
        0 <= i < rows.len(),
    ensures
        rows.subrange(0, i + 1).drop_last() == rows.subrange(0, i),
        rows.subrange(0, i + 1).last() == rows[i],
{
    assert(rows.subrange(0, i + 1).drop_last() =~= rows.subrange(0, i));
}

proof fn lemma_nonneg_prefix(rows: Seq<TrayRow>, i: int)
    requires
        0 <= i <= rows.len(),
        nonneg_quantities(rows),
    ensures
        nonneg_quantities(rows.subrange(0, i)),
        sum_qty(rows.subrange(0, i)) <= sum_qty(rows),
{
    assert forall|j: int| 0 <= j < rows.subrange(0, i).len() implies #[trigger] rows.subrange(0, i)[j].quantity >= 0 by {
        assert(rows.subrange(0, i)[j] == rows[j]);
    }
    lemma_psum_mono(rows, i, rows.len() as int);
    assert(rows.subrange(0, rows.len() as int) =~= rows);
}

/// Ids, total quantity and first index of the rows a selector picks, in one pass.
fn collect_rows(rows: &Vec<TrayRow>, sel: &RowSelector, today: &str, meta: &Vec<CropMeta>) -> (r: (
    Vec<String>,
    i64,
    Option<usize>,
))
    requires
        nonneg_quantities(rows@),
        sum_qty(rows@) <= 0x7fff_ffff_ffff_ffff,
    ensures
        view_ids(r.0@) == filter_ids(rows@, selector_pred(*sel, today@, meta@)),
        r.1 == filter_sum(rows@, selector_pred(*sel, today@, meta@)),
        match r.2 {
            Some(f) => f == first_index(rows@, selector_pred(*sel, today@, meta@)) && f < rows@.len(),
            None => first_index(rows@, selector_pred(*sel, today@, meta@)) == -1,
        },
{
    let ghost p = selector_pred(*sel, today@, meta@);
    let n = rows.len();
    let mut ids: Vec<String> = Vec::new();
    let mut total: i64 = 0;
    let mut first: Option<usize> = None;
    let mut i: usize = 0;
    while i < n
        invariant
            n == rows@.len(),
            i <= n,
            nonneg_quantities(rows@),
            sum_qty(rows@) <= 0x7fff_ffff_ffff_ffff,
            p == selector_pred(*sel, today@, meta@),
            view_ids(ids@) == filter_ids(rows@.subrange(0, i as int), p),
            total == filter_sum(rows@.subrange(0, i as int), p),
            match first {
                Some(f) => f == first_index(rows@.subrange(0, i as int), p) && f < i,
                None => first_index(rows@.subrange(0, i as int), p) == -1,
            },
        decreases n - i,
    {
        proof {
            lemma_sum_prefix(rows@, i as int);
            lemma_nonneg_prefix(rows@, i + 1);
            lemma_filter_sum_bounds(rows@.subrange(0, i + 1), p);
        }
        if select_row(sel, &rows[i], today, meta) {
            ids.push(rows[i].id.clone());
            total = total + rows[i].quantity;
            assert(view_ids(ids@) =~= view_ids(ids@.drop_last()).push(rows@[i as int].id@));
            if first.is_none() {
                first = Some(i);
            }
        }
        i = i + 1;
    }
    assert(rows@.subrange(0, n as int) =~= rows@);
    (ids, total, first)
}

proof fn lemma_first_index_sound(rows: Seq<TrayRow>, p: spec_fn(TrayRow) -> bool)
    ensures
        first_index(rows, p) >= 0 ==> first_index(rows, p) < rows.len() && p(rows[first_index(rows, p)]),
        first_index(rows, p) == -1 <==> forall|j: int| 0 <= j < rows.len() ==> !p(#[trigger] rows[j]),
    decreases rows.len(),
{
    if rows.len() > 0 {
        lemma_first_index_sound(rows.drop_last(), p);
        let f = first_index(rows.drop_last(), p);
        if f >= 0 {
            assert(rows.drop_last()[f] == rows[f]);
        }
        assert forall|j: int| 0 <= j < rows.len() - 1 implies rows.drop_last()[j] == rows[j] by {}
    }
}

/// Which rows a pass over the shelf picks.
pub enum RowSelector {
    /// Blackout rows whose cover-check date has come.
    MoveToLight,
    /// Light rows of one crop (by sort key) whose harvest date has come.
    HarvestDue { crop_id: String, sort: i64 },
    /// Rows whose next step is `light` (cover check) or `harvest` on `date`, after today.
    NextStep { light: bool, date: String },
}

/// A crop's display name and sort order.
#[derive(Debug)]
pub struct CropMeta {
    pub id: String,
    pub name: String,
    pub sort_order: i64,
}

pub open spec fn opt_le(d: Option<String>, today: Seq<char>) -> bool {
    d matches Some(x) && lex_le(x@, today)
}

pub open spec fn opt_after(d: Option<String>, today: Seq<char>) -> bool {
    d matches Some(x) && lex_lt(today, x@)
}

/// Index of the metadata the view uses for a crop id (the last listed), or -1.
pub open spec fn meta_index(meta: Seq<CropMeta>, id: Seq<char>) -> int
    decreases meta.len(),
{
    if meta.len() == 0 {
        -1
    } else if meta.last().id@ == id {
        meta.len() - 1
    } else {
        meta_index(meta.drop_last(), id)
    }
}

/// The sort key a row is grouped under: its crop's sort order (999 when the
/// crop is not listed) and the crop id.
pub open spec fn row_sort(meta: Seq<CropMeta>, t: TrayRow) -> int {
    if meta_index(meta, t.crop_id@) >= 0 {
        meta[meta_index(meta, t.crop_id@)].sort_order as int
    } else {
        999
    }
}

pub open spec fn harvest_due(t: TrayRow, today: Seq<char>) -> bool {
    t.state@ == "light"@ && opt_le(t.expected_harvest_date, today)
}

pub open spec fn light_candidate(t: TrayRow, today: Seq<char>) -> bool {
    (t.state@ == "blackout"@ || t.state@ == "sown"@) && opt_after(t.cover_check_date, today)
}

pub open spec fn harvest_candidate(t: TrayRow, today: Seq<char>) -> bool {
    t.state@ == "light"@ && opt_after(t.expected_harvest_date, today)
}

/// The date a row offers as a next step of the given kind.
pub open spec fn candidate_date(t: TrayRow, light: bool) -> Seq<char> {
    if light {
        t.cover_check_date->0@
    } else {
        t.expected_harvest_date->0@
    }
}

pub open spec fn selector_pred(sel: RowSelector, today: Seq<char>, meta: Seq<CropMeta>) -> spec_fn(TrayRow) -> bool {
    match sel {
        RowSelector::MoveToLight => |t: TrayRow| t.state@ == "blackout"@ && opt_le(t.cover_check_date, today),
        RowSelector::HarvestDue { crop_id, sort } => |t: TrayRow|
            harvest_due(t, today) && t.crop_id@ == crop_id@ && row_sort(meta, t) == sort,
        RowSelector::NextStep { light, date } => |t: TrayRow|
            if light {
                light_candidate(t, today) && t.cover_check_date->0@ == date@
            } else {
                harvest_candidate(t, today) && t.expected_harvest_date->0@ == date@
            },
    }
}

proof fn lemma_filter_ids_members(rows: Seq<TrayRow>, p: spec_fn(TrayRow) -> bool)
    ensures
        forall|x: Seq<char>| #[trigger] filter_ids(rows, p).contains(x) <==> exists|j: int| 0 <= j < rows.len() && p(#[trigger] rows[j]) && rows[j].id@ == x,
    decreases rows.len(),
{
    if rows.len() > 0 {
        let pre = rows.drop_last();
        lemma_filter_ids_members(pre, p);
        assert forall|x: Seq<char>| #[trigger] filter_ids(rows, p).contains(x) <==> exists|j: int| 0 <= j < rows.len() && p(#[trigger] rows[j]) && rows[j].id@ == x by {
            let f = filter_ids(pre, p);
            if filter_ids(rows, p).contains(x) {
                if p(rows.last()) && x == rows.last().id@ {
                    assert(p(rows[rows.len() - 1]));
                } else {
                    if p(rows.last()) {
                        let m = choose|m: int| 0 <= m < f.push(rows.last().id@).len() && f.push(rows.last().id@)[m] == x;
                        assert(f[m] == x);
                    }
                    assert(f.contains(x));
                    let j = choose|j: int| 0 <= j < pre.len() && p(#[trigger] pre[j]) && pre[j].id@ == x;
                    assert(rows[j] == pre[j]);
                }
            }
            if exists|j: int| 0 <= j < rows.len() && p(#[trigger] rows[j]) && rows[j].id@ == x {
                let j = choose|j: int| 0 <= j < rows.len() && p(#[trigger] rows[j]) && rows[j].id@ == x;
                if j == rows.len() - 1 {
                    assert(filter_ids(rows, p) == f.push(x));
                    assert(filter_ids(rows, p)[f.len() as int] == x);
                } else {
                    assert(pre[j] == rows[j]);
                    assert(f.contains(x));
                    let m = choose|m: int| 0 <= m < f.len() && f[m] == x;
                    if p(rows.last()) {
                        assert(filter_ids(rows, p)[m] == x);
                    }
                }
            }
        }
    }
}

/// What the today view moves to light: exactly the blackout trays whose cover
/// check date is set and has come (on or before today); a tray in any other
/// state is never listed.
pub proof fn lemma_move_to_light_rows(rows: Seq<TrayRow>, today: Seq<char>, meta: Seq<CropMeta>)
    ensures
        forall|x: Seq<char>| #[trigger] filter_ids(rows, selector_pred(RowSelector::MoveToLight, today, meta)).contains(x) <==> exists|j: int|
            0 <= j < rows.len() && (#[trigger] rows[j]).id@ == x && rows[j].state@ == "blackout"@
                && rows[j].cover_check_date is Some && lex_le(rows[j].cover_check_date->0@, today),
{
    let p = selector_pred(RowSelector::MoveToLight, today, meta);
    lemma_filter_ids_members(rows, p);
    assert forall|x: Seq<char>| #[trigger] filter_ids(rows, p).contains(x) <==> exists|j: int|
        0 <= j < rows.len() && (#[trigger] rows[j]).id@ == x && rows[j].state@ == "blackout"@
            && rows[j].cover_check_date is Some && lex_le(rows[j].cover_check_date->0@, today) by {
        if filter_ids(rows, p).contains(x) {
            let j = choose|j: int| 0 <= j < rows.len() && p(#[trigger] rows[j]) && rows[j].id@ == x;
            assert(p(rows[j]));
        }
        if exists|j: int| 0 <= j < rows.len() && (#[trigger] rows[j]).id@ == x && rows[j].state@ == "blackout"@
            && rows[j].cover_check_date is Some && lex_le(rows[j].cover_check_date->0@, today) {
            let j = choose|j: int| 0 <= j < rows.len() && (#[trigger] rows[j]).id@ == x && rows[j].state@ == "blackout"@
                && rows[j].cover_check_date is Some && lex_le(rows[j].cover_check_date->0@, today);
            assert(p(rows[j]));
        }
    }
}

fn opt_le_today(d: &Option<String>, today: &str) -> (r: bool)
    ensures
        r == opt_le(*d, today@),
{
    match d {
        Some(x) => str_le(x.as_str(), today),
        None => false,
    }
}

fn opt_after_today(d: &Option<String>, today: &str) -> (r: bool)
    ensures
        r == opt_after(*d, today@),
{
    match d {
        Some(x) => str_lt(today, x.as_str()),
        None => false,
    }
}

fn find_meta(meta: &Vec<CropMeta>, id: &str) -> (r: Option<usize>)
    ensures
        match r {
            Some(j) => j == meta_index(meta@, id@) && j < meta@.len(),
            None => meta_index(meta@, id@) == -1,
        },
{
    let mut j: usize = meta.len();
    proof {
        assert(meta@.subrange(0, j as int) =~= meta@);
    }
    while j > 0
        invariant
            j <= meta@.len(),
            meta_index(meta@, id@) == meta_index(meta@.subrange(0, j as int), id@),
        decreases j,
    {
        proof {
            assert(meta@.subrange(0, j as int).drop_last() =~= meta@.subrange(0, j - 1));
        }
        if str_eq(meta[j - 1].id.as_str(), id) {
            proof {
                assert(meta@.subrange(0, j as int).last() == meta@[j - 1]);
            }
            return Some(j - 1);
        }
        j = j - 1;
    }
    None
}

proof fn lemma_meta_index_bounds(meta: Seq<CropMeta>, id: Seq<char>)
    ensures
        -1 <= meta_index(meta, id) < meta.len(),
    decreases meta.len(),
{
    if meta.len() > 0 && meta.last().id@ != id {
        lemma_meta_index_bounds(meta.drop_last(), id);
    }
}

fn sort_of_row(meta: &Vec<CropMeta>, t: &TrayRow) -> (r: i64)
    ensures
        r == row_sort(meta@, *t),
{
    match find_meta(meta, t.crop_id.as_str()) {
        Some(j) => meta[j].sort_order,
        None => 999,
    }
}

fn select_row(sel: &RowSelector, t: &TrayRow, today: &str, meta: &Vec<CropMeta>) -> (r: bool)
    ensures
        r == (selector_pred(*sel, today@, meta@))(*t),
{
    match sel {
        RowSelector::MoveToLight => str_eq(t.state.as_str(), "blackout") && opt_le_today(&t.cover_check_date, today),
        RowSelector::HarvestDue { crop_id, sort } => {
            str_eq(t.state.as_str(), "light") && opt_le_today(&t.expected_harvest_date, today)
                && str_eq(t.crop_id.as_str(), crop_id.as_str()) && sort_of_row(meta, t) == *sort
        },
        RowSelector::NextStep { light, date } => {
            if *light {
                (str_eq(t.state.as_str(), "blackout") || str_eq(t.state.as_str(), "sown"))
                    && opt_after_today(&t.cover_check_date, today)
                    && str_eq(t.cover_check_date.as_ref().unwrap().as_str(), date.as_str())
            } else {
                str_eq(t.state.as_str(), "light") && opt_after_today(&t.expected_harvest_date, today)
                    && str_eq(t.expected_harvest_date.as_ref().unwrap().as_str(), date.as_str())
            }
        },
    }
}

// --- today --------------------------------------------------------------------

#[derive(Debug)]
pub struct MoveToLight {
    pub tray_ids: Vec<String>,
    pub tray_count: i64,
}

/// Light trays of one crop that are ready to cut today (yield estimates are
/// added by the caller).
#[derive(Debug)]
pub struct HarvestDue {
    pub crop_id: String,
    pub crop_name: String,
    pub sort_order: i64,
    pub tray_ids: Vec<String>,
    pub tray_count: i64,
}

#[derive(Debug)]
pub struct NextEvent {
    pub kind: String,
    pub date: String,
    pub tray_count: i64,
    pub crop_name: String,
}

/// Totals over today's harvest groups.
#[derive(Debug)]
pub struct HarvestTally {
    pub tray_count: i64,
    pub variety_count: i64,
    pub single_crop_name: Option<String>,
}

/// The "what should I do right now" view, without yield estimates.
#[derive(Debug)]
pub struct TodayPlan {
    pub move_to_light: Option<MoveToLight>,
    pub harvests: Vec<HarvestDue>,
    pub harvest_tally: Option<HarvestTally>,
    pub next_event: Option<NextEvent>,
    pub active_tray_count: i64,
    pub sown_today: bool,
}

/// The states of a tray still on the shelf: the today view reads only these.
pub open spec fn active_state(s: Seq<char>) -> bool {
    s == "planned"@ || s == "sown"@ || s == "blackout"@ || s == "light"@
}

pub open spec fn all_active(rows: Seq<TrayRow>) -> bool {
    forall|j: int| 0 <= j < rows.len() ==> active_state(#[trigger] rows[j].state@)
}

/// Whether a tray in `state` is still on the shelf.
pub fn is_active_state(state: &str) -> (r: bool)
    ensures
        r == active_state(state@),
{
    str_eq(state, "planned") || str_eq(state, "sown") || str_eq(state, "blackout") || str_eq(state, "light")
}

/// Group order: crop sort order, then crop id.
pub open spec fn key_lt(s1: int, c1: Seq<char>, s2: int, c2: Seq<char>) -> bool {
    s1 < s2 || (s1 == s2 && lex_lt(c1, c2))
}

/// Next-step order: earlier date first; on one date a cover check comes
/// before a harvest.
pub open spec fn step_lt(l1: bool, d1: Seq<char>, l2: bool, d2: Seq<char>) -> bool {
    lex_lt(d1, d2) || (d1 == d2 && l1 && !l2)
}

proof fn lemma_step_order(l1: bool, d1: Seq<char>, l2: bool, d2: Seq<char>, l3: bool, d3: Seq<char>)
    ensures
        step_lt(l1, d1, l2, d2) && step_lt(l2, d2, l3, d3) ==> step_lt(l1, d1, l3, d3),
        !step_lt(l1, d1, l1, d1),
        !(step_lt(l1, d1, l2, d2) && step_lt(l2, d2, l1, d1)),
{
    lemma_lex_irreflexive(d1);
    lemma_lex_trichotomy(d1, d2);
    if lex_lt(d1, d2) && lex_lt(d2, d3) {
        lemma_lex_transitive(d1, d2, d3);
    }
}

proof fn lemma_key_order(s1: int, c1: Seq<char>, s2: int, c2: Seq<char>, s3: int, c3: Seq<char>)
    ensures
        key_lt(s1, c1, s2, c2) && key_lt(s2, c2, s3, c3) ==> key_lt(s1, c1, s3, c3),
        !key_lt(s1, c1, s1, c1),
        key_lt(s1, c1, s2, c2) || key_lt(s2, c2, s1, c1) || (s1 == s2 && c1 == c2),
        !(key_lt(s1, c1, s2, c2) && key_lt(s2, c2, s1, c1)),
{
    lemma_lex_irreflexive(c1);
    lemma_lex_trichotomy(c1, c2);
    if lex_lt(c1, c2) && lex_lt(c2, c3) {
        lemma_lex_transitive(c1, c2, c3);
    }
}

fn key_less(s1: i64, c1: &str, s2: i64, c2: &str) -> (r: bool)
    ensures
        r == key_lt(s1 as int, c1@, s2 as int, c2@),
{
    s1 < s2 || (s1 == s2 && str_lt(c1, c2))
}

/// Row `j` is due for harvest and groups under key `(sort, crop)`.
pub open spec fn due_with_key(rows: Seq<TrayRow>, meta: Seq<CropMeta>, today: Seq<char>, j: int, sort: int, crop: Seq<char>) -> bool {
    0 <= j < rows.len() && harvest_due(rows[j], today) && row_sort(meta, rows[j]) == sort && rows[j].crop_id@ == crop
}

/// Some row before `i` is due for harvest under key `(sort, crop)`.
pub open spec fn is_due_key(rows: Seq<TrayRow>, meta: Seq<CropMeta>, today: Seq<char>, i: int, sort: int, crop: Seq<char>) -> bool {
    exists|j: int| 0 <= j < i && #[trigger] due_with_key(rows, meta, today, j, sort, crop)
}

/// `(sort, crop)` is one of `keys`.
pub open spec fn has_key(keys: Seq<(i64, String)>, sort: int, crop: Seq<char>) -> bool {
    exists|k: int| 0 <= k < keys.len() && #[trigger] keys[k].0 == sort && keys[k].1@ == crop
}

pub open spec fn keys_sorted(keys: Seq<(i64, String)>) -> bool {
    forall|a: int, b: int| 0 <= a < b < keys.len() ==> key_lt(keys[a].0 as int, keys[a].1@, keys[b].0 as int, keys[b].1@)
}

proof fn lemma_insert_key(before: Seq<(i64, String)>, k: int, x: (i64, String))
    requires
        0 <= k <= before.len(),
        keys_sorted(before),
        forall|a: int| 0 <= a < k ==> key_lt(#[trigger] before[a].0 as int, before[a].1@, x.0 as int, x.1@),
        k < before.len() ==> key_lt(x.0 as int, x.1@, before[k].0 as int, before[k].1@),
    ensures
        keys_sorted(before.insert(k, x)),
        forall|s: int, c: Seq<char>| has_key(before, s, c) ==> has_key(before.insert(k, x), s, c),
        has_key(before.insert(k, x), x.0 as int, x.1@),
        forall|kk: int| 0 <= kk < before.insert(k, x).len() ==> (kk == k || exists|m: int| 0 <= m < before.len() && #[trigger] before[m] == (#[trigger] before.insert(k, x)[kk])),
{
    let s = before.insert(k, x);
    assert forall|a: int, b: int| 0 <= a < b < s.len() implies key_lt(s[a].0 as int, s[a].1@, s[b].0 as int, s[b].1@) by {
        if a < k && b > k {
            lemma_key_order(s[a].0 as int, s[a].1@, x.0 as int, x.1@, s[b].0 as int, s[b].1@);
            if b - 1 > k {
                lemma_key_order(x.0 as int, x.1@, before[k].0 as int, before[k].1@, s[b].0 as int, s[b].1@);
            }
        } else if a == k && b - 1 > k {
            lemma_key_order(x.0 as int, x.1@, before[k].0 as int, before[k].1@, s[b].0 as int, s[b].1@);
        }
    }
    assert forall|sv: int, c: Seq<char>| has_key(before, sv, c) implies has_key(s, sv, c) by {
        let m = choose|m: int| 0 <= m < before.len() && #[trigger] before[m].0 == sv && before[m].1@ == c;
        if m < k {
            assert(s[m] == before[m]);
        } else {
            assert(s[m + 1] == before[m]);
        }
    }
    assert(s[k] == x);
    assert forall|kk: int| 0 <= kk < s.len() implies (kk == k || exists|m: int| 0 <= m < before.len() && #[trigger] before[m] == (#[trigger] s[kk])) by {
        if kk < k {
            assert(before[kk] == s[kk]);
        } else if kk > k {
            assert(before[kk - 1] == s[kk]);
        }
    }
}

/// The sorted, distinct group keys of the rows due for harvest.
fn due_keys(rows: &Vec<TrayRow>, today: &str, meta: &Vec<CropMeta>) -> (keys: Vec<(i64, String)>)
    ensures
        keys_sorted(keys@),
        keys@.len() <= rows@.len(),
        forall|i: int| 0 <= i < rows@.len() && harvest_due(#[trigger] rows@[i], today@) ==> has_key(keys@, row_sort(meta@, rows@[i]), rows@[i].crop_id@),
        forall|k: int| 0 <= k < keys@.len() ==> is_due_key(rows@, meta@, today@, rows@.len() as int, (#[trigger] keys@[k]).0 as int, keys@[k].1@),
{
    let n = rows.len();
    let mut keys: Vec<(i64, String)> = Vec::new();
    let mut i: usize = 0;
    while i < n
        invariant
            n == rows@.len(),
            i <= n,
            keys_sorted(keys@),
            keys@.len() <= i,
            forall|j: int| 0 <= j < i && harvest_due(#[trigger] rows@[j], today@) ==> has_key(keys@, row_sort(meta@, rows@[j]), rows@[j].crop_id@),
            forall|k: int| 0 <= k < keys@.len() ==> is_due_key(rows@, meta@, today@, i as int, (#[trigger] keys@[k]).0 as int, keys@[k].1@),
        decreases n - i,
    {
        let t = &rows[i];
        let ghost keys0 = keys@;
        if str_eq(t.state.as_str(), "light") && opt_le_today(&t.expected_harvest_date, today) {
            let sort = sort_of_row(meta, t);
            let mut k: usize = 0;
            while k < keys.len() && key_less(keys[k].0, keys[k].1.as_str(), sort, t.crop_id.as_str())
                invariant
                    k <= keys@.len(),
                    forall|a: int| 0 <= a < k ==> key_lt(#[trigger] keys@[a].0 as int, keys@[a].1@, sort as int, t.crop_id@),
                decreases keys@.len() - k,
            {
                k = k + 1;
            }
            let dup = k < keys.len() && keys[k].0 == sort && str_eq(keys[k].1.as_str(), t.crop_id.as_str());
            proof {
                assert(due_with_key(rows@, meta@, today@, i as int, sort as int, t.crop_id@));
            }
            if !dup {
                proof {
                    if k < keys@.len() {
                        lemma_key_order(keys@[k as int].0 as int, keys@[k as int].1@, sort as int, t.crop_id@, 0, Seq::empty());
                    }
                }
                let cid = t.crop_id.clone();
                keys.insert(k, (sort, cid));
                proof {
                    lemma_insert_key(keys0, k as int, (sort, cid));
                    assert(keys@ == keys0.insert(k as int, (sort, cid)));
                    assert forall|kk: int| 0 <= kk < keys@.len() implies is_due_key(rows@, meta@, today@, i + 1, (#[trigger] keys@[kk]).0 as int, keys@[kk].1@) by {
                        if kk == k {
                            assert(due_with_key(rows@, meta@, today@, i as int, keys@[kk].0 as int, keys@[kk].1@));
                        } else {
                            let m = choose|m: int| 0 <= m < keys0.len() && #[trigger] keys0[m] == keys@[kk];
                            assert(is_due_key(rows@, meta@, today@, i as int, keys0[m].0 as int, keys0[m].1@));
                            let j = choose|j: int| 0 <= j < i && #[trigger] due_with_key(rows@, meta@, today@, j, keys0[m].0 as int, keys0[m].1@);
                            assert(due_with_key(rows@, meta@, today@, j, keys@[kk].0 as int, keys@[kk].1@));
                        }
                    }
                }
            } else {
                proof {
                    assert(has_key(keys@, sort as int, t.crop_id@)) by {
                        assert(keys@[k as int].0 == sort && keys@[k as int].1@ == t.crop_id@);
                    }
                    assert forall|kk: int| 0 <= kk < keys@.len() implies is_due_key(rows@, meta@, today@, i + 1, (#[trigger] keys@[kk]).0 as int, keys@[kk].1@) by {
                        assert(is_due_key(rows@, meta@, today@, i as int, keys@[kk].0 as int, keys@[kk].1@));
                        let j = choose|j: int| 0 <= j < i && #[trigger] due_with_key(rows@, meta@, today@, j, keys@[kk].0 as int, keys@[kk].1@);
                    }
                }
            }
        } else {
            proof {
                assert forall|kk: int| 0 <= kk < keys@.len() implies is_due_key(rows@, meta@, today@, i + 1, (#[trigger] keys@[kk]).0 as int, keys@[kk].1@) by {
                    assert(is_due_key(rows@, meta@, today@, i as int, keys@[kk].0 as int, keys@[kk].1@));
                    let j = choose|j: int| 0 <= j < i && #[trigger] due_with_key(rows@, meta@, today@, j, keys@[kk].0 as int, keys@[kk].1@);
                }
            }
        }
        i = i + 1;
    }
    keys
}

pub open spec fn due_pred(today: Seq<char>) -> spec_fn(TrayRow) -> bool {
    |t: TrayRow| harvest_due(t, today)
}

pub open spec fn group_pred(h: HarvestDue, today: Seq<char>, meta: Seq<CropMeta>) -> spec_fn(TrayRow) -> bool {
    selector_pred(RowSelector::HarvestDue { crop_id: h.crop_id, sort: h.sort_order }, today, meta)
}

pub open spec fn step_pred(light: bool, date: Seq<char>, today: Seq<char>) -> spec_fn(TrayRow) -> bool {
    |t: TrayRow|
        if light {
            light_candidate(t, today) && t.cover_check_date->0@ == date
        } else {
            harvest_candidate(t, today) && t.expected_harvest_date->0@ == date
        }
}

/// What the today view says of harvest group `h`.
pub open spec fn harvest_group_ok(rows: Seq<TrayRow>, meta: Seq<CropMeta>, today: Seq<char>, h: HarvestDue) -> bool {
    let p = group_pred(h, today, meta);
    &&& is_due_key(rows, meta, today, rows.len() as int, h.sort_order as int, h.crop_id@)
    &&& view_ids(h.tray_ids@) == filter_ids(rows, p)
    &&& h.tray_count == filter_sum(rows, p)
    &&& h.crop_name@ == if meta_index(meta, h.crop_id@) >= 0 {
        meta[meta_index(meta, h.crop_id@)].name@
    } else {
        rows[first_index(rows, p)].crop_name@
    }
}

/// What the today view says of the next step.
pub open spec fn next_event_ok(rows: Seq<TrayRow>, today: Seq<char>, ne: Option<NextEvent>) -> bool {
    match ne {
        None => forall|i: int| 0 <= i < rows.len() ==> !light_candidate(#[trigger] rows[i], today) && !harvest_candidate(rows[i], today),
        Some(ev) => {
            let light = ev.kind@ == "light"@;
            let p = step_pred(light, ev.date@, today);
            &&& (ev.kind@ == "light"@ || ev.kind@ == "harvest"@)
            &&& first_index(rows, p) >= 0
            &&& forall|i: int| 0 <= i < rows.len() && light_candidate(#[trigger] rows[i], today) ==> !step_lt(true, rows[i].cover_check_date->0@, light, ev.date@)
            &&& forall|i: int| 0 <= i < rows.len() && harvest_candidate(#[trigger] rows[i], today) ==> !step_lt(false, rows[i].expected_harvest_date->0@, light, ev.date@)
            &&& ev.tray_count == filter_sum(rows, p)
            &&& ev.crop_name@ == rows[first_index(rows, p)].crop_name@
        },
    }
}

/// Builds the "what should I do right now" view from the active rows (in crop
/// sort order, then creation order), the crops and today's date:
/// blackout trays whose cover check has come move to light; light trays whose
/// harvest date has come are grouped by crop; the next step is the earliest
/// future cover check or harvest (a cover check first on a tie).
pub fn plan_today(rows: &Vec<TrayRow>, meta: &Vec<CropMeta>, today: &str) -> (r: TodayPlan)
    requires
        all_active(rows@),
        nonneg_quantities(rows@),
        sum_qty(rows@) <= 0x7fff_ffff_ffff_ffff,
        rows@.len() <= 0x7fff_ffff_ffff_ffff,
    ensures
        r.active_tray_count == sum_qty(rows@),
        r.sown_today == exists|i: int| 0 <= i < rows@.len() && opt_view(#[trigger] rows@[i].sown_on) == Some(today@),
        r.move_to_light is Some ==> forall|x: Seq<char>| #[trigger] view_ids(r.move_to_light->0.tray_ids@).contains(x) <==> exists|j: int|
            0 <= j < rows@.len() && (#[trigger] rows@[j]).id@ == x && rows@[j].state@ == "blackout"@
                && rows@[j].cover_check_date is Some && lex_le(rows@[j].cover_check_date->0@, today@),
        r.move_to_light is None ==> forall|j: int| 0 <= j < rows@.len() ==> !((#[trigger] rows@[j]).state@ == "blackout"@
            && rows@[j].cover_check_date is Some && lex_le(rows@[j].cover_check_date->0@, today@)),
        match r.move_to_light {
            None => filter_ids(rows@, selector_pred(RowSelector::MoveToLight, today@, meta@)).len() == 0,
            Some(m) => {
                &&& view_ids(m.tray_ids@) == filter_ids(rows@, selector_pred(RowSelector::MoveToLight, today@, meta@))
                &&& m.tray_ids@.len() > 0
                &&& m.tray_count == filter_sum(rows@, selector_pred(RowSelector::MoveToLight, today@, meta@))
            },
        },
        forall|a: int, b: int| 0 <= a < b < r.harvests@.len() ==> key_lt(r.harvests@[a].sort_order as int, r.harvests@[a].crop_id@, r.harvests@[b].sort_order as int, r.harvests@[b].crop_id@),
        forall|k: int| 0 <= k < r.harvests@.len() ==> harvest_group_ok(rows@, meta@, today@, #[trigger] r.harvests@[k]),
        forall|i: int| 0 <= i < rows@.len() && harvest_due(#[trigger] rows@[i], today@) ==> exists|k: int| 0 <= k < r.harvests@.len() && (#[trigger] r.harvests@[k]).sort_order == row_sort(meta@, rows@[i]) && r.harvests@[k].crop_id@ == rows@[i].crop_id@,
        match r.harvest_tally {
            None => r.harvests@.len() == 0,
            Some(t) => {
                &&& r.harvests@.len() > 0
                &&& t.tray_count == filter_sum(rows@, due_pred(today@))
                &&& t.variety_count == r.harvests@.len()
                &&& (t.single_crop_name matches Some(n) ==> r.harvests@.len() == 1 && n@ == r.harvests@[0].crop_name@)
                &&& (r.harvests@.len() == 1 ==> t.single_crop_name is Some)
            },
        },
        next_event_ok(rows@, today@, r.next_event),
{
    let active = total_quantity(rows) as i64;
    // sown today
    let n = rows.len();
    let mut sown_today = false;
    let mut i: usize = 0;
    while i < n
        invariant
            n == rows@.len(),
            i <= n,
            sown_today == exists|j: int| 0 <= j < i && opt_view(#[trigger] rows@[j].sown_on) == Some(today@),
        decreases n - i,
    {
        let hit = match &rows[i].sown_on {
            Some(d) => str_eq(d.as_str(), today),
            None => false,
        };
        if hit {
            sown_today = true;
        }
        i = i + 1;
    }
    // move to light
    let (mtl_ids, mtl_count, _) = collect_rows(rows, &RowSelector::MoveToLight, today, meta);
    proof {
        lemma_move_to_light_rows(rows@, today@, meta@);
    }
    let move_to_light = if mtl_ids.len() == 0 {
        None
    } else {
        Some(MoveToLight { tray_ids: mtl_ids, tray_count: mtl_count })
    };
    proof {
        let f = filter_ids(rows@, selector_pred(RowSelector::MoveToLight, today@, meta@));
        if move_to_light is None {
            assert forall|j: int| 0 <= j < rows@.len() implies !((#[trigger] rows@[j]).state@ == "blackout"@
                && rows@[j].cover_check_date is Some && lex_le(rows@[j].cover_check_date->0@, today@)) by {
                if rows@[j].state@ == "blackout"@ && rows@[j].cover_check_date is Some && lex_le(rows@[j].cover_check_date->0@, today@) {
                    assert(f.contains(rows@[j].id@));
                }
            }
        }
    }
    // harvest groups
    let keys = due_keys(rows, today, meta);
    let mut harvests: Vec<HarvestDue> = Vec::new();
    let nk = keys.len();
    let mut k: usize = 0;
    while k < nk
        invariant
            nk == keys@.len(),
            k <= nk,
            nonneg_quantities(rows@),
            sum_qty(rows@) <= 0x7fff_ffff_ffff_ffff,
            keys_sorted(keys@),
            forall|kk: int| 0 <= kk < keys@.len() ==> is_due_key(rows@, meta@, today@, rows@.len() as int, (#[trigger] keys@[kk]).0 as int, keys@[kk].1@),
            harvests@.len() == k,
            forall|j: int| 0 <= j < k ==> (#[trigger] harvests@[j]).sort_order == keys@[j].0 && harvests@[j].crop_id@ == keys@[j].1@,
            forall|j: int| 0 <= j < k ==> harvest_group_ok(rows@, meta@, today@, #[trigger] harvests@[j]),
        decreases nk - k,
    {
        let sel = RowSelector::HarvestDue { crop_id: keys[k].1.clone(), sort: keys[k].0 };
        let (ids, count, first) = collect_rows(rows, &sel, today, meta);
        let ghost p = selector_pred(sel, today@, meta@);
        proof {
            let key = keys@[k as int];
            assert(is_due_key(rows@, meta@, today@, rows@.len() as int, key.0 as int, key.1@));
            let j = choose|j: int| 0 <= j < rows@.len() && #[trigger] due_with_key(rows@, meta@, today@, j, key.0 as int, key.1@);
            assert(p(rows@[j]));
            lemma_first_index_sound(rows@, p);
        }
        let f = first.unwrap();
        let name = match find_meta(meta, keys[k].1.as_str()) {
            Some(m) => meta[m].name.clone(),
            None => rows[f].crop_name.clone(),
        };
        let h = HarvestDue {
            crop_id: keys[k].1.clone(),
            crop_name: name,
            sort_order: keys[k].0,
            tray_ids: ids,
            tray_count: count,
        };
        proof {
            assert(group_pred(h, today@, meta@) == p);
        }
        harvests.push(h);
        k = k + 1;
    }
    assert(harvests@.len() <= 0x7fff_ffff_ffff_ffff);
    let harvest_tally = if harvests.len() == 0 {
        assert(harvests@.len() == 0);
        None
    } else {
        let due_count = collect_due(rows, today);
        let single = if harvests.len() == 1 {
            Some(harvests[0].crop_name.clone())
        } else {
            None
        };
        Some(HarvestTally { tray_count: due_count, variety_count: harvests.len() as i64, single_crop_name: single })
    };
    let next_event = plan_next_event(rows, today, meta);
    let r = TodayPlan { move_to_light, harvests, harvest_tally, next_event, active_tray_count: active, sown_today };
    proof {
        assert forall|i: int| 0 <= i < rows@.len() && harvest_due(#[trigger] rows@[i], today@) implies exists|k: int| 0 <= k < r.harvests@.len() && (#[trigger] r.harvests@[k]).sort_order == row_sort(meta@, rows@[i]) && r.harvests@[k].crop_id@ == rows@[i].crop_id@ by {
            assert(has_key(keys@, row_sort(meta@, rows@[i]), rows@[i].crop_id@));
            let m = choose|m: int| 0 <= m < keys@.len() && #[trigger] keys@[m].0 == row_sort(meta@, rows@[i]) && keys@[m].1@ == rows@[i].crop_id@;
            assert(r.harvests@[m].sort_order == keys@[m].0 && r.harvests@[m].crop_id@ == keys@[m].1@);
        }
    }
    r
}

/// The trays due for harvest today, in total.
fn collect_due(rows: &Vec<TrayRow>, today: &str) -> (r: i64)
    requires
        nonneg_quantities(rows@),
        sum_qty(rows@) <= 0x7fff_ffff_ffff_ffff,
    ensures
        r == filter_sum(rows@, due_pred(today@)),
{
    let ghost p = due_pred(today@);
    let n = rows.len();
    let mut total: i64 = 0;
    let mut i: usize = 0;
    while i < n
        invariant
            n == rows@.len(),
            i <= n,
            nonneg_quantities(rows@),
            sum_qty(rows@) <= 0x7fff_ffff_ffff_ffff,
            p == due_pred(today@),
            total == filter_sum(rows@.subrange(0, i as int), p),
        decreases n - i,
    {
        proof {
            lemma_sum_prefix(rows@, i as int);
            lemma_nonneg_prefix(rows@, i + 1);
            lemma_filter_sum_bounds(rows@.subrange(0, i + 1), p);
        }
        if str_eq(rows[i].state.as_str(), "light") && opt_le_today(&rows[i].expected_harvest_date, today) {
            total = total + rows[i].quantity;
        }
        i = i + 1;
    }
    assert(rows@.subrange(0, n as int) =~= rows@);
    total
}

/// The earliest future step over the rows, then its trays.
fn plan_next_event(rows: &Vec<TrayRow>, today: &str, meta: &Vec<CropMeta>) -> (r: Option<NextEvent>)
    requires
        nonneg_quantities(rows@),
        sum_qty(rows@) <= 0x7fff_ffff_ffff_ffff,
    ensures
        next_event_ok(rows@, today@, r),
{
    let n = rows.len();
    let mut found = false;
    let mut best_light = false;
    let mut best_date = String::new();
    let mut i: usize = 0;
    while i < n
        invariant
            n == rows@.len(),
            i <= n,
            !found ==> forall|j: int| 0 <= j < i ==> !light_candidate(#[trigger] rows@[j], today@) && !harvest_candidate(rows@[j], today@),
            found ==> exists|j: int| 0 <= j < i && (#[trigger] step_pred(best_light, best_date@, today@)(rows@[j])),
            found ==> forall|j: int| 0 <= j < i && light_candidate(#[trigger] rows@[j], today@) ==> !step_lt(true, rows@[j].cover_check_date->0@, best_light, best_date@),
            found ==> forall|j: int| 0 <= j < i && harvest_candidate(#[trigger] rows@[j], today@) ==> !step_lt(false, rows@[j].expected_harvest_date->0@, best_light, best_date@),
        decreases n - i,
    {
        let t = &rows[i];
        let ghost f0 = found;
        let ghost l0 = best_light;
        let ghost d0 = best_date@;
        let is_light = (str_eq(t.state.as_str(), "blackout") || str_eq(t.state.as_str(), "sown"))
            && opt_after_today(&t.cover_check_date, today);
        let is_harvest = str_eq(t.state.as_str(), "light") && opt_after_today(&t.expected_harvest_date, today);
        proof {
            reveal_strlit("light");
            reveal_strlit("sown");
            reveal_strlit("blackout");
            assert("light"@.len() == 5 && "sown"@.len() == 4 && "blackout"@.len() == 8);
            assert(is_light == light_candidate(rows@[i as int], today@));
            assert(is_harvest == harvest_candidate(rows@[i as int], today@));
            assert(!(is_light && is_harvest));
        }
        if is_light || is_harvest {
            let d = if is_light {
                t.cover_check_date.as_ref().unwrap()
            } else {
                t.expected_harvest_date.as_ref().unwrap()
            };
            let replace = !found || str_lt(d.as_str(), best_date.as_str())
                || (str_eq(d.as_str(), best_date.as_str()) && is_light && !best_light);
            proof {
                assert(d@ == candidate_date(rows@[i as int], is_light));
                assert(f0 ==> replace == step_lt(is_light, d@, l0, d0));
                assert(step_pred(is_light, d@, today@)(rows@[i as int]));
            }
            if replace {
                found = true;
                best_light = is_light;
                best_date = d.clone();
                proof {
                    lemma_step_order(is_light, d@, is_light, d@, is_light, d@);
                    assert forall|j: int| 0 <= j < i + 1 && light_candidate(#[trigger] rows@[j], today@) implies !step_lt(true, rows@[j].cover_check_date->0@, is_light, d@) by {
                        if j < i && f0 {
                            lemma_step_order(true, rows@[j].cover_check_date->0@, is_light, d@, l0, d0);
                        }
                    }
                    assert forall|j: int| 0 <= j < i + 1 && harvest_candidate(#[trigger] rows@[j], today@) implies !step_lt(false, rows@[j].expected_harvest_date->0@, is_light, d@) by {
                        if j < i && f0 {
                            lemma_step_order(false, rows@[j].expected_harvest_date->0@, is_light, d@, l0, d0);
                        }
                    }
                }
            } else {
                proof {
                    lemma_step_order(is_light, d@, l0, d0, is_light, d@);
                }
            }
        }
        i = i + 1;
    }
    if !found {
        None
    } else {
        let light = best_light;
        let date = best_date;
        let sel = RowSelector::NextStep { light, date: date.clone() };
        let (_, count, first) = collect_rows(rows, &sel, today, meta);
        let ghost p = selector_pred(sel, today@, meta@);
        proof {
            assert(p == step_pred(light, date@, today@));
            let j = choose|j: int| 0 <= j < n && (#[trigger] step_pred(light, date@, today@)(rows@[j]));
            lemma_first_index_sound(rows@, p);
            assert(p(rows@[j]));
        }
        let f = first.unwrap();
        let kind = if light { String::from_str("light") } else { String::from_str("harvest") };
        proof {
            reveal_strlit("light");
            reveal_strlit("harvest");
            assert("light"@.len() != "harvest"@.len());
            assert((kind@ == "light"@) == light);
        }
        Some(NextEvent { kind, date, tray_count: count, crop_name: rows[f].crop_name.clone() })
    }
}

// --- advancing trays ---------------------------------------------------------------

/// Position of a state on the shelf's one-way path.
pub open spec fn state_rank(s: Seq<char>) -> int {
    if s == "planned"@ { 0 }
    else if s == "sown"@ { 1 }
    else if s == "blackout"@ { 2 }
    else if s == "light"@ { 3 }
    else if s == "harvested"@ { 4 }
    else { -1 }
}

/// A tray only ever moves one step forward along planned, sown, blackout,
/// light, harvested; nothing moves a harvested or discarded tray.
pub proof fn lemma_advance_moves_forward(from: Seq<char>)
    ensures
        next_state_spec(from) matches Ok(to) ==> state_rank(to) == state_rank(from) + 1 && state_rank(from) >= 0,
        (from == "harvested"@ || from == "discarded"@) ==> next_state_spec(from) is Err,
{
    reveal_strlit("planned");
    reveal_strlit("sown");
    reveal_strlit("blackout");
    reveal_strlit("light");
    reveal_strlit("harvested");
    reveal_strlit("discarded");
    assert("planned"@.len() == 7 && "sown"@.len() == 4 && "blackout"@.len() == 8 && "light"@.len() == 5);
    assert("harvested"@.len() == 9 && "discarded"@.len() == 9);
    assert("harvested"@[0] != "discarded"@[0]);
}

/// One tray's step forward, with the date column it stamps.
#[derive(Debug)]
pub struct AdvancePlan {
    pub tray_id: String,
    pub from: String,
    pub to: String,
    pub date_col: String,
}

pub fn plan_advance(tray_id: &str, state: &str) -> (r: Result<AdvancePlan, String>)
    ensures
        match r {
            Ok(p) => next_state_spec(state@) == Ok::<Seq<char>, Seq<char>>(p.to@)
                && date_col_spec(p.to@) == Some(p.date_col@)
                && p.tray_id@ == tray_id@ && p.from@ == state@,
            Err(e) => match next_state_spec(state@) {
                Err(m) => e@ == m,
                Ok(to) => date_col_spec(to) is None && e@ == "no date column for state '"@ + to + "'"@,
            },
        },
{
    let to = match next_state(state) {
        Ok(t) => t,
        Err(e) => return Err(e),
    };
    match date_col_for_state(to) {
        Some(col) => Ok(AdvancePlan {
            tray_id: String::from_str(tray_id),
            from: String::from_str(state),
            to: String::from_str(to),
            date_col: String::from_str(col),
        }),
        None => {
            let mut e = String::from_str("no date column for state '");
            push_str(&mut e, to);
            push_str(&mut e, "'");
            Err(e)
        },
    }
}

/// What `trays.advanced` records of one tray, and how it is undone.
#[derive(Debug)]
pub struct AdvanceItem {
    pub tray_id: String,
    pub from: String,
    pub to: String,
    pub on: String,
}

/// Put a tray back into `state` and clear the listed date columns.
#[derive(Debug)]
pub struct TrayStateRestore {
    pub tray_id: String,
    pub state: String,
    pub clear: Vec<String>,
}

/// Discarding one whole tray: the state it leaves, the day, and how it is put back.
#[derive(Debug)]
pub struct DiscardTrayPlan {
    pub from: String,
    pub discarded_on: String,
    pub restore: TrayStateRestore,
}

pub fn plan_discard_tray(tray_id: &str, state: &str, today: &str) -> (r: Result<DiscardTrayPlan, String>)
    ensures
        r is Err <==> state@ == "discarded"@,
        match r {
            Ok(p) => {
                &&& p.from@ == state@
                &&& p.discarded_on@ == today@
                &&& p.restore.tray_id@ == tray_id@
                &&& p.restore.state@ == state@
                &&& p.restore.clear@.len() == 1
                &&& p.restore.clear@[0]@ == "discarded_on"@
            },
            Err(e) => e@ == "tray is already discarded"@,
        },
{
    if str_eq(state, "discarded") {
        return Err(String::from_str("tray is already discarded"));
    }
    let mut clear: Vec<String> = Vec::new();
    clear.push(String::from_str("discarded_on"));
    Ok(DiscardTrayPlan {
        from: String::from_str(state),
        discarded_on: String::from_str(today),
        restore: TrayStateRestore { tray_id: String::from_str(tray_id), state: String::from_str(state), clear },
    })
}

/// The payload and inverse items of one `trays.advanced` event.
#[verifier::spinoff_prover]
pub fn advance_items(plans: &Vec<AdvancePlan>, today: &str) -> (r: (Vec<AdvanceItem>, Vec<TrayStateRestore>))
    ensures
        r.0@.len() == plans@.len(),
        r.1@.len() == plans@.len(),
        forall|i: int| 0 <= i < plans@.len() ==> {
            let p = plans@[i];
            let a = #[trigger] r.0@[i];
            let b = r.1@[i];
            &&& a.tray_id == p.tray_id && a.from == p.from && a.to == p.to && a.on@ == today@
            &&& b.tray_id == p.tray_id && b.state == p.from
            &&& b.clear@.len() == 1 && b.clear@[0] == p.date_col
        },
{
    let mut items: Vec<AdvanceItem> = Vec::new();
    let mut inverse: Vec<TrayStateRestore> = Vec::new();
    let n = plans.len();
    let mut i: usize = 0;
    while i < n
        invariant
            n == plans@.len(),
            i <= n,
            items@.len() == i,
            inverse@.len() == i,
            forall|k: int| 0 <= k < i ==> {
                let p = plans@[k];
                let a = #[trigger] items@[k];
                let b = inverse@[k];
                &&& a.tray_id == p.tray_id && a.from == p.from && a.to == p.to && a.on@ == today@
                &&& b.tray_id == p.tray_id && b.state == p.from
                &&& b.clear@.len() == 1 && b.clear@[0] == p.date_col
            },
        decreases n - i,
    {
        let p = &plans[i];
        items.push(AdvanceItem {
            tray_id: p.tray_id.clone(),
            from: p.from.clone(),
            to: p.to.clone(),
            on: String::from_str(today),
        });
        let mut clear: Vec<String> = Vec::new();
        clear.push(p.date_col.clone());
        inverse.push(TrayStateRestore { tray_id: p.tray_id.clone(), state: p.from.clone(), clear });
        i = i + 1;
    }
    (items, inverse)
}

// --- harvesting -----------------------------------------------------------------------

/// The quantities of the first `k` looked-up trays, as far as they were found.
pub open spec fn found_qty(trays: Seq<Result<TrayRow, String>>, k: int) -> int
    decreases k,
{
    if k <= 0 {
        0
    } else {
        found_qty(trays, k - 1) + match trays[k - 1] {
            Ok(t) => t.quantity as int,
            Err(_) => 0,
        }
    }
}

/// The first tray of a group that stops the harvest: not found, or not on
/// light; -1 when none.
pub open spec fn first_unharvestable(trays: Seq<Result<TrayRow, String>>, k: int) -> int
    decreases trays.len() - k,
{
    if k < 0 || k >= trays.len() {
        -1
    } else {
        match trays[k] {
            Ok(t) => if t.state@ == "light"@ { first_unharvestable(trays, k + 1) } else { k },
            Err(_) => k,
        }
    }
}

proof fn lemma_first_unharvestable(trays: Seq<Result<TrayRow, String>>, k: int)
    requires
        0 <= k <= trays.len(),
    ensures
        first_unharvestable(trays, k) == -1 <==> forall|j: int| k <= j < trays.len() ==> ((#[trigger] trays[j]) matches Ok(t) && t.state@ == "light"@),
        first_unharvestable(trays, k) != -1 ==> {
            let b = first_unharvestable(trays, k);
            &&& k <= b < trays.len()
            &&& !(trays[b] matches Ok(t) && t.state@ == "light"@)
            &&& forall|j: int| k <= j < b ==> ((#[trigger] trays[j]) matches Ok(t) && t.state@ == "light"@)
        },
    decreases trays.len() - k,
{
    if k < trays.len() {
        lemma_first_unharvestable(trays, k + 1);
    }
}

/// A harvest group passes its check exactly when it has trays, a weight above
/// zero, every tray was found and is on light, and the trays add up to at
/// least one; otherwise the first tray that is missing or off light is named.
pub proof fn lemma_harvest_group_needs_light(trays: Seq<Result<TrayRow, String>>, yield_positive: bool)
    ensures
        harvest_group_problem(trays, yield_positive) is None <==> {
            &&& trays.len() > 0
            &&& yield_positive
            &&& forall|k: int| 0 <= k < trays.len() ==> ((#[trigger] trays[k]) matches Ok(t) && t.state@ == "light"@)
            &&& found_qty(trays, trays.len() as int) >= 1
        },
        forall|b: int| 0 <= b < trays.len() && yield_positive
            && !(trays[b] matches Ok(t) && t.state@ == "light"@)
            && (forall|j: int| 0 <= j < b ==> ((#[trigger] trays[j]) matches Ok(t) && t.state@ == "light"@))
            ==> harvest_group_problem(trays, yield_positive) == match #[trigger] trays[b] {
                Ok(t) => Some("cannot harvest from state '"@ + t.state@ + "'; expected 'light'"@),
                Err(e) => Some(e@),
            },
{
    lemma_first_unharvestable(trays, 0);
    assert forall|b: int| 0 <= b < trays.len() && yield_positive
        && !(trays[b] matches Ok(t) && t.state@ == "light"@)
        && (forall|j: int| 0 <= j < b ==> ((#[trigger] trays[j]) matches Ok(t) && t.state@ == "light"@))
        implies harvest_group_problem(trays, yield_positive) == match #[trigger] trays[b] {
            Ok(t) => Some("cannot harvest from state '"@ + t.state@ + "'; expected 'light'"@),
            Err(e) => Some(e@),
        } by {
        let f = first_unharvestable(trays, 0);
        assert(f != -1);
        if f < b {
            assert(trays[f] matches Ok(t) && t.state@ == "light"@);
        } else if f > b {
            assert(trays[b] matches Ok(t) && t.state@ == "light"@);
        }
    }
}

/// One harvested tray in a `trays.harvested` payload (its share of the weight
/// is added by the caller).
#[derive(Debug)]
pub struct HarvestTrayItem {
    pub tray_id: String,
    pub from: String,
    pub to: String,
    pub harvested_on: String,
}

/// What a harvest records of one tray's use: the crop and the trays planted.
#[derive(Debug)]
pub struct HarvestUse {
    pub tray_id: String,
    pub crop_name: String,
    pub quantity: i64,
}

/// The writes of a `trays.harvested` event for checked groups: the entity
/// (the first tray of the first group), each group's tray items, the inverse
/// that puts every tray back on light with its harvest day and yield cleared,
/// and one use record per tray.
#[derive(Debug)]
pub struct HarvestPlan {
    pub entity_id: String,
    pub groups: Vec<Vec<HarvestTrayItem>>,
    pub inverse: Vec<TrayStateRestore>,
    pub uses: Vec<HarvestUse>,
}

/// The trays of all groups, one after the other.
pub open spec fn all_trays(groups: Seq<Vec<TrayRow>>) -> Seq<TrayRow>
    decreases groups.len(),
{
    if groups.len() == 0 {
        Seq::empty()
    } else {
        all_trays(groups.drop_last()) + groups.last()@
    }
}

pub open spec fn harvest_item_ok(t: TrayRow, today: Seq<char>, it: HarvestTrayItem) -> bool {
    &&& it.tray_id@ == t.id@
    &&& it.from@ == "light"@
    &&& it.to@ == "harvested"@
    &&& it.harvested_on@ == today
}

pub open spec fn harvest_restore_ok(t: TrayRow, r: TrayStateRestore) -> bool {
    &&& r.tray_id@ == t.id@
    &&& r.state@ == "light"@
    &&& r.clear@.map_values(|c: String| c@) == seq!["harvested_on"@, "actual_yield_oz"@]
}

pub open spec fn harvest_use_ok(t: TrayRow, u: HarvestUse) -> bool {
    &&& u.tray_id@ == t.id@
    &&& u.crop_name@ == t.crop_name@
    &&& u.quantity == t.quantity
}

/// Plans the writes of harvesting checked groups (each group's trays as
/// looked up, in the group's order) on `today`. Fails when there is no group.
pub fn plan_harvest(groups: &Vec<Vec<TrayRow>>, today: &str) -> (r: Result<HarvestPlan, String>)
    requires
        forall|g: int| 0 <= g < groups@.len() ==> (#[trigger] groups@[g])@.len() > 0,
    ensures
        groups@.len() == 0 <==> r is Err,
        r matches Err(e) ==> e@ == "harvest_groups requires at least one group"@,
        r matches Ok(plan) ==> {
            &&& plan.entity_id@ == groups@[0]@[0].id@
            &&& plan.groups@.len() == groups@.len()
            &&& forall|g: int| 0 <= g < groups@.len() ==> (#[trigger] plan.groups@[g])@.len() == groups@[g]@.len()
            &&& forall|g: int, k: int| 0 <= g < groups@.len() && 0 <= k < groups@[g]@.len() ==> harvest_item_ok(groups@[g]@[k], today@, #[trigger] plan.groups@[g]@[k])
            &&& plan.inverse@.len() == all_trays(groups@).len()
            &&& forall|i: int| 0 <= i < plan.inverse@.len() ==> harvest_restore_ok(all_trays(groups@)[i], #[trigger] plan.inverse@[i])
            &&& plan.uses@.len() == all_trays(groups@).len()
            &&& forall|i: int| 0 <= i < plan.uses@.len() ==> harvest_use_ok(all_trays(groups@)[i], #[trigger] plan.uses@[i])
        },
{
    if groups.len() == 0 {
        return Err(String::from_str("harvest_groups requires at least one group"));
    }
    proof {
        reveal_strlit("light");
        reveal_strlit("harvested");
        reveal_strlit("harvested_on");
        reveal_strlit("actual_yield_oz");
    }
    let ng = groups.len();
    let mut out_groups: Vec<Vec<HarvestTrayItem>> = Vec::new();
    let mut inverse: Vec<TrayStateRestore> = Vec::new();
    let mut uses: Vec<HarvestUse> = Vec::new();
    let mut g: usize = 0;
    while g < ng
        invariant
            ng == groups@.len(),
            g <= ng,
            out_groups@.len() == g,
            forall|a: int| 0 <= a < g ==> (#[trigger] out_groups@[a])@.len() == groups@[a]@.len(),
            forall|a: int, k: int| 0 <= a < g && 0 <= k < groups@[a]@.len() ==> harvest_item_ok(groups@[a]@[k], today@, #[trigger] out_groups@[a]@[k]),
            inverse@.len() == all_trays(groups@.take(g as int)).len(),
            forall|i: int| 0 <= i < inverse@.len() ==> harvest_restore_ok(all_trays(groups@.take(g as int))[i], #[trigger] inverse@[i]),
            uses@.len() == all_trays(groups@.take(g as int)).len(),
            forall|i: int| 0 <= i < uses@.len() ==> harvest_use_ok(all_trays(groups@.take(g as int))[i], #[trigger] uses@[i]),
        decreases ng - g,
    {
        let trays = &groups[g];
        let ghost prev = all_trays(groups@.take(g as int));
        proof {
            assert(groups@.take(g + 1).drop_last() =~= groups@.take(g as int));
            assert(groups@.take(g + 1).last() == groups@[g as int]);
            assert(all_trays(groups@.take(g + 1)) == prev + trays@);
        }
        let nt = trays.len();
        let mut items: Vec<HarvestTrayItem> = Vec::new();
        let mut k: usize = 0;
        while k < nt
            invariant
                nt == trays@.len(),
                k <= nt,
                items@.len() == k,
                forall|j: int| 0 <= j < k ==> harvest_item_ok(trays@[j], today@, #[trigger] items@[j]),
                inverse@.len() == prev.len() + k,
                forall|i: int| 0 <= i < inverse@.len() ==> harvest_restore_ok((prev + trays@)[i], #[trigger] inverse@[i]),
                uses@.len() == prev.len() + k,
                forall|i: int| 0 <= i < uses@.len() ==> harvest_use_ok((prev + trays@)[i], #[trigger] uses@[i]),
            decreases nt - k,
        {
            let t = &trays[k];
            items.push(HarvestTrayItem {
                tray_id: t.id.clone(),
                from: String::from_str("light"),
                to: String::from_str("harvested"),
                harvested_on: String::from_str(today),
            });
            let mut clear: Vec<String> = Vec::new();
            clear.push(String::from_str("harvested_on"));
            clear.push(String::from_str("actual_yield_oz"));
            proof {
                assert(clear@.map_values(|c: String| c@) =~= seq!["harvested_on"@, "actual_yield_oz"@]);
            }
            let ghost idx = inverse@.len();
            inverse.push(TrayStateRestore { tray_id: t.id.clone(), state: String::from_str("light"), clear });
            uses.push(HarvestUse { tray_id: t.id.clone(), crop_name: t.crop_name.clone(), quantity: t.quantity });
            proof {
                assert((prev + trays@)[idx as int] == trays@[k as int]);
            }
            k = k + 1;
        }
        proof {
            assert(trays@ == groups@[g as int]@);
        }
        out_groups.push(items);
        g = g + 1;
    }
    proof {
        assert(groups@.take(ng as int) =~= groups@);
    }
    Ok(HarvestPlan { entity_id: groups[0][0].id.clone(), groups: out_groups, inverse, uses })
}

/// Why a harvest group is refused, checked in order: no trays; a weight that
/// is not above zero; a tray not found or not on light; trays adding up to
/// nothing.
pub open spec fn harvest_group_problem(trays: Seq<Result<TrayRow, String>>, yield_positive: bool) -> Option<Seq<char>> {
    let bad = first_unharvestable(trays, 0);
    if trays.len() == 0 {
        Some("harvest group requires at least one tray"@)
    } else if !yield_positive {
        Some("actual_yield_oz must be > 0"@)
    } else if bad >= 0 {
        match trays[bad] {
            Ok(t) => Some("cannot harvest from state '"@ + t.state@ + "'; expected 'light'"@),
            Err(e) => Some(e@),
        }
    } else if found_qty(trays, trays.len() as int) < 1 {
        Some("total quantity must be >= 1"@)
    } else {
        None
    }
}

/// Checks one harvest group from its trays as looked up, in the group's order
/// (the weight's sign is read by the caller); returns the group's trays in total.
pub fn check_harvest_group(trays: &Vec<Result<TrayRow, String>>, yield_positive: bool) -> (r: Result<i64, String>)
    requires
        forall|k: int| 0 <= k <= trays@.len() ==> i64::MIN <= #[trigger] found_qty(trays@, k) <= i64::MAX,
    ensures
        match r {
            Ok(total) => harvest_group_problem(trays@, yield_positive) is None && total == found_qty(trays@, trays@.len() as int),
            Err(e) => harvest_group_problem(trays@, yield_positive) == Some(e@),
        },
        r is Ok ==> forall|k: int| 0 <= k < trays@.len() ==> ((#[trigger] trays@[k]) matches Ok(t) && t.state@ == "light"@),
{
    proof {
        lemma_harvest_group_needs_light(trays@, yield_positive);
    }
    let n = trays.len();
    if n == 0 {
        return Err(String::from_str("harvest group requires at least one tray"));
    }
    if !yield_positive {
        return Err(String::from_str("actual_yield_oz must be > 0"));
    }
    let mut total: i64 = 0;
    let mut i: usize = 0;
    while i < n
        invariant
            n == trays@.len(),
            n > 0,
            yield_positive,
            i <= n,
            forall|k: int| 0 <= k <= trays@.len() ==> i64::MIN <= #[trigger] found_qty(trays@, k) <= i64::MAX,
            first_unharvestable(trays@, 0) == first_unharvestable(trays@, i as int),
            total == found_qty(trays@, i as int),
        decreases n - i,
    {
        match &trays[i] {
            Ok(t) => {
                if !str_eq(t.state.as_str(), "light") {
                    let mut e = String::from_str("cannot harvest from state '");
                    push_str(&mut e, t.state.as_str());
                    push_str(&mut e, "'; expected 'light'");
                    return Err(e);
                }
                assert(found_qty(trays@, i + 1) == found_qty(trays@, i as int) + t.quantity);
                total = total + t.quantity;
            },
            Err(e) => return Err(e.clone()),
        }
        i = i + 1;
    }
    if total < 1 {
        return Err(String::from_str("total quantity must be >= 1"));
    }
    Ok(total)
}

// --- recount and undo -------------------------------------------------------------------

/// A crop on the recount sheet: its trays on the shelf and how many the app
/// holds.
pub fn recount_crop(crop_id: String, crop_name: String, rows: &Vec<TrayRow>) -> (r: RecountCrop)
    requires
        forall|k: int| 0 <= k <= rows@.len() ==> i64::MIN <= #[trigger] sum_qty(rows@.take(k)) <= i64::MAX,
    ensures
        r.crop_id == crop_id,
        r.crop_name == crop_name,
        r.app_quantity == sum_qty(rows@),
        r.tray_ids@.map_values(|s: String| s@) == rows@.map_values(|t: TrayRow| t.id@),
{
    let mut total: i64 = 0;
    let mut ids: Vec<String> = Vec::new();
    let n = rows.len();
    let mut i: usize = 0;
    while i < n
        invariant
            n == rows@.len(),
            i <= n,
            forall|k: int| 0 <= k <= rows@.len() ==> i64::MIN <= #[trigger] sum_qty(rows@.take(k)) <= i64::MAX,
            total == sum_qty(rows@.take(i as int)),
            ids@.map_values(|s: String| s@) == rows@.take(i as int).map_values(|t: TrayRow| t.id@),
        decreases n - i,
    {
        proof {
            assert(rows@.take(i + 1).drop_last() =~= rows@.take(i as int));
            assert(rows@.take(i + 1).last() == rows@[i as int]);
            assert(sum_qty(rows@.take(i + 1)) == sum_qty(rows@.take(i as int)) + rows@[i as int].quantity);
            assert(i64::MIN <= sum_qty(rows@.take(i + 1)) <= i64::MAX);
        }
        total = total + rows[i].quantity;
        let ghost before = ids@;
        ids.push(rows[i].id.clone());
        proof {
            assert(ids@ =~= before.push(rows@[i as int].id));
            assert(ids@.map_values(|s: String| s@) =~= before.map_values(|s: String| s@).push(rows@[i as int].id@));
            assert(rows@.take(i + 1).map_values(|t: TrayRow| t.id@) =~= rows@.take(i as int).map_values(|t: TrayRow| t.id@).push(rows@[i as int].id@));
        }
        i = i + 1;
    }
    proof {
        assert(rows@.take(n as int) =~= rows@);
    }
    RecountCrop { crop_id, crop_name, app_quantity: total, tray_ids: ids }
}

/// What undoing the newest undoable event records: the event it undoes (by
/// sequence number, also its entity id), its kind, and whether an attention
/// note must be reopened.
#[derive(Debug)]
pub struct UndoPlan {
    pub entity_id: String,
    pub undoes_seq: i64,
    pub undone_kind: String,
    pub reopen_attention: bool,
}

pub fn plan_undo(target_seq: i64, target_kind: &str) -> (r: UndoPlan)
    ensures
        r.entity_id@ == dec_int(target_seq as int),
        r.undoes_seq == target_seq,
        r.undone_kind@ == target_kind@,
        r.reopen_attention == (target_kind@ == "attention.resolved"@),
{
    let mut id = String::new();
    push_int(&mut id, target_seq);
    assert(id@ =~= dec_int(target_seq as int));
    UndoPlan {
        entity_id: id,
        undoes_seq: target_seq,
        undone_kind: String::from_str(target_kind),
        reopen_attention: str_eq(target_kind, "attention.resolved"),
    }
}

/// What an undo reports back.
pub fn undo_result(plan: &UndoPlan) -> (r: UndoResult)
    ensures
        r.undoes_seq == plan.undoes_seq,
        r.undone_kind == plan.undone_kind,
{
    UndoResult { undoes_seq: plan.undoes_seq, undone_kind: plan.undone_kind.clone() }
}

/// Rows still in the group after a discard: on light with at least one tray.
pub open spec fn still_in_group(t: TrayRow) -> bool {
    t.state@ == "light"@ && t.quantity >= 1
}

pub open spec fn group_rows(rows: Seq<TrayRow>) -> Seq<TrayRow>
    decreases rows.len(),
{
    if rows.len() == 0 {
        Seq::empty()
    } else if still_in_group(rows.last()) {
        group_rows(rows.drop_last()).push(rows.last())
    } else {
        group_rows(rows.drop_last())
    }
}

/// The harvest group that remains of the named rows after a discard, re-read:
/// its rows in shelf order (their ids) and its trays in total; none when no
/// row remains.
pub fn remaining_group(rows: Vec<TrayRow>) -> (r: Option<(Vec<String>, i64)>)
    requires
        nonneg_quantities(rows@),
        sum_qty(rows@) <= 0x7fff_ffff_ffff_ffff,
    ensures
        group_rows(rows@).len() == 0 <==> r is None,
        r matches Some((ids, count)) ==> exists|s: Seq<TrayRow>|
            shelf_sorted(s) && s.to_multiset() == group_rows(rows@).to_multiset()
            && ids@.map_values(|x: String| x@) == s.map_values(|t: TrayRow| t.id@)
            && count == sum_qty(s),
{
    let ghost orig = rows@;
    let mut kept: Vec<TrayRow> = Vec::new();
    let mut rest = rows;
    let mut k: usize = 0;
    let n = rest.len();
    while rest.len() > 0
        invariant
            n == orig.len(),
            k + rest@.len() == n,
            rest@ == orig.subrange(k as int, n as int),
            kept@ == group_rows(orig.take(k as int)),
        decreases rest@.len(),
    {
        let t = rest.remove(0);
        proof {
            assert(orig.take(k + 1).drop_last() =~= orig.take(k as int));
            assert(orig.take(k + 1).last() == t);
            assert(rest@ =~= orig.subrange(k + 1, n as int));
        }
        if str_eq(t.state.as_str(), "light") && t.quantity >= 1 {
            kept.push(t);
        }
        k = k + 1;
    }
    assert(orig.take(n as int) =~= orig);
    if kept.len() == 0 {
        return None;
    }
    proof {
        lemma_group_rows_sum(orig);
    }
    let sorted = sort_shelf(kept);
    proof {
        lemma_sum_qty_multiset(sorted@, group_rows(orig));
        lemma_nonneg_perm(sorted@, group_rows(orig));
    }
    let m = sorted.len();
    let mut ids: Vec<String> = Vec::new();
    let mut total: i64 = 0;
    let mut i: usize = 0;
    while i < m
        invariant
            m == sorted@.len(),
            i <= m,
            nonneg_quantities(sorted@),
            sum_qty(sorted@) <= 0x7fff_ffff_ffff_ffff,
            total == sum_qty(sorted@.take(i as int)),
            ids@.map_values(|x: String| x@) == sorted@.take(i as int).map_values(|t: TrayRow| t.id@),
        decreases m - i,
    {
        proof {
            assert(sorted@.take(i + 1).drop_last() =~= sorted@.take(i as int));
            assert(sorted@.take(i + 1).last() == sorted@[i as int]);
            lemma_nonneg_prefix(sorted@, i + 1);
            assert(sorted@[i as int].quantity >= 0);
        }
        total = total + sorted[i].quantity;
        let ghost before = ids@;
        ids.push(sorted[i].id.clone());
        proof {
            assert(ids@ =~= before.push(sorted@[i as int].id));
            assert(ids@.map_values(|x: String| x@) =~= before.map_values(|x: String| x@).push(sorted@[i as int].id@));
            assert(sorted@.take(i + 1).map_values(|t: TrayRow| t.id@) =~= sorted@.take(i as int).map_values(|t: TrayRow| t.id@).push(sorted@[i as int].id@));
        }
        i = i + 1;
    }
    assert(sorted@.take(m as int) =~= sorted@);
    Some((ids, total))
}

proof fn lemma_nonneg_perm(s: Seq<TrayRow>, t: Seq<TrayRow>)
    requires
        s.to_multiset() == t.to_multiset(),
        nonneg_quantities(t),
    ensures
        nonneg_quantities(s),
{
    s.to_multiset_ensures();
    t.to_multiset_ensures();
    assert forall|j: int| 0 <= j < s.len() implies #[trigger] s[j].quantity >= 0 by {
        assert(s.contains(s[j]));
        assert(s.to_multiset().count(s[j]) > 0);
        assert(t.contains(s[j]));
        let k = choose|k: int| 0 <= k < t.len() && t[k] == s[j];
        assert(t[k].quantity >= 0);
    }
}

/// The rows kept for the group have no more trays than all the rows.
proof fn lemma_group_rows_sum(rows: Seq<TrayRow>)
    requires
        nonneg_quantities(rows),
    ensures
        nonneg_quantities(group_rows(rows)),
        0 <= sum_qty(group_rows(rows)) <= sum_qty(rows),
    decreases rows.len(),
{
    if rows.len() > 0 {
        assert(nonneg_quantities(rows.drop_last()));
        lemma_group_rows_sum(rows.drop_last());
        let g = group_rows(rows.drop_last());
        if still_in_group(rows.last()) {
            assert(group_rows(rows).drop_last() =~= g);
            assert(nonneg_quantities(group_rows(rows))) by {
                assert forall|i: int| 0 <= i < group_rows(rows).len() implies (#[trigger] group_rows(rows)[i]).quantity >= 0 by {
                    if i < g.len() {
                        assert(group_rows(rows)[i] == g[i]);
                    }
                }
            }
        }
    }
}

} // verus!
