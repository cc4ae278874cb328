//! Capacity is hard: it is counted per exact harvest date, as the trays that
//! will be ready that day less what confirmed paid orders already hold.
//! Nothing unpaid reserves it, and it is never stored: it is worked out from
//! the trays and the orders each time.
//!
//! Dates are day numbers (days from the common era, as `dates::days_from_ce`
//! counts them); their order is the calendar's.

use vstd::prelude::*;
use crate::text::str_eq;

verus! {

/// What capacity reads of one tray.
#[derive(Debug)]
pub struct CapacityTray {
    pub state: String,
    pub quantity: i64,
    pub sown_day: Option<i64>,
    pub growth_days: Option<i64>,
}

/// What capacity reads of one confirmed paid order.
#[derive(Debug)]
pub struct CapacityOrder {
    pub harvest_day: i64,
    pub capacity_consumed: i64,
}

/// One harvest date: the trays ready that day, the trays sold, and what is
/// left (negative when oversold).
#[derive(Debug, Clone, Copy, PartialEq, Eq, Structural)]
pub struct CapacityRow {
    pub harvest_day: i64,
    pub trays: i64,
    pub sold_trays: i64,
    pub remaining_trays: i64,
}

/// A tray counts toward capacity when it is still growing and both its sowing
/// day and its growth time are known.
pub open spec fn counts(t: CapacityTray) -> bool {
    &&& t.state@ != "discarded"@
    &&& t.state@ != "harvested"@
    &&& t.sown_day is Some
    &&& t.growth_days is Some
}

/// The day a counted tray is ready: sown day plus growth days.
pub open spec fn ready_day(t: CapacityTray) -> int {
    t.sown_day->0 + t.growth_days->0
}

/// Trays ready on day `d`.
pub open spec fn tray_total(ts: Seq<CapacityTray>, d: int) -> int
    decreases ts.len(),
{
    if ts.len() == 0 {
        0
    } else {
        tray_total(ts.drop_last(), d) + if counts(ts.last()) && ready_day(ts.last()) == d {
            ts.last().quantity as int
        } else {
            0
        }
    }
}

/// Trays held by paid orders for day `d`.
pub open spec fn sold_total(os: Seq<CapacityOrder>, d: int) -> int
    decreases os.len(),
{
    if os.len() == 0 {
        0
    } else {
        sold_total(os.drop_last(), d) + if os.last().harvest_day == d {
            os.last().capacity_consumed as int
        } else {
            0
        }
    }
}

/// Some counted tray is ready on `d`.
pub open spec fn tray_on(ts: Seq<CapacityTray>, d: int) -> bool {
    exists|i: int| 0 <= i < ts.len() && counts(#[trigger] ts[i]) && ready_day(ts[i]) == d
}

/// Some order is for `d`.
pub open spec fn order_on(os: Seq<CapacityOrder>, d: int) -> bool {
    exists|i: int| 0 <= i < os.len() && (#[trigger] os[i]).harvest_day == d
}

/// The days capacity has a row for: those of a counted tray or of an order.
pub open spec fn capacity_day(ts: Seq<CapacityTray>, os: Seq<CapacityOrder>, d: int) -> bool {
    tray_on(ts, d) || order_on(os, d)
}

/// The row for day `d`.
pub open spec fn row_for(ts: Seq<CapacityTray>, os: Seq<CapacityOrder>, d: int) -> (int, int, int) {
    (tray_total(ts, d), sold_total(os, d), tray_total(ts, d) - sold_total(os, d))
}

/// Every ready day fits in an `i64`.
pub open spec fn ready_days_fit(ts: Seq<CapacityTray>) -> bool {
    forall|i: int| 0 <= i < ts.len() && counts(#[trigger] ts[i]) ==> i64::MIN <= ready_day(ts[i]) <= i64::MAX
}

/// Every total, and every ready day, fits in an `i64`.
pub open spec fn fits(ts: Seq<CapacityTray>, os: Seq<CapacityOrder>) -> bool {
    &&& ready_days_fit(ts)
    &&& forall|d: int| i64::MIN <= #[trigger] tray_total(ts, d) <= i64::MAX
    &&& forall|d: int| i64::MIN <= #[trigger] sold_total(os, d) <= i64::MAX
    &&& forall|d: int| i64::MIN <= #[trigger] row_for(ts, os, d).2 <= i64::MAX
}

pub open spec fn strictly_increasing(rows: Seq<CapacityRow>) -> bool {
    forall|i: int, j: int| 0 <= i < j < rows.len() ==> rows[i].harvest_day < rows[j].harvest_day
}

proof fn lemma_tray_total_bound(ts: Seq<CapacityTray>, d: int)
    ensures
        -(ts.len() as int) * 0x8000_0000_0000_0000 <= tray_total(ts, d) <= (ts.len() as int) * 0x8000_0000_0000_0000,
    decreases ts.len(),
{
    if ts.len() > 0 {
        lemma_tray_total_bound(ts.drop_last(), d);
    }
}

proof fn lemma_sold_total_bound(os: Seq<CapacityOrder>, d: int)
    ensures
        -(os.len() as int) * 0x8000_0000_0000_0000 <= sold_total(os, d) <= (os.len() as int) * 0x8000_0000_0000_0000,
    decreases os.len(),
{
    if os.len() > 0 {
        lemma_sold_total_bound(os.drop_last(), d);
    }
}

/// With no counted tray ready on `d`, nothing is ready on `d`.
pub proof fn lemma_no_tray_no_total(ts: Seq<CapacityTray>, d: int)
    requires
        !tray_on(ts, d),
    ensures
        tray_total(ts, d) == 0,
    decreases ts.len(),
{
    if ts.len() > 0 {
        assert(!tray_on(ts.drop_last(), d)) by {
            if tray_on(ts.drop_last(), d) {
                let i = choose|i: int| 0 <= i < ts.drop_last().len() && counts(#[trigger] ts.drop_last()[i]) && ready_day(ts.drop_last()[i]) == d;
                assert(ts[i] == ts.drop_last()[i]);
            }
        }
        lemma_no_tray_no_total(ts.drop_last(), d);
        assert(!(counts(ts[ts.len() - 1]) && ready_day(ts[ts.len() - 1]) == d));
    }
}

/// With no order for `d`, nothing is sold on `d`.
pub proof fn lemma_no_order_no_sold(os: Seq<CapacityOrder>, d: int)
    requires
        !order_on(os, d),
    ensures
        sold_total(os, d) == 0,
    decreases os.len(),
{
    if os.len() > 0 {
        assert(!order_on(os.drop_last(), d)) by {
            if order_on(os.drop_last(), d) {
                let i = choose|i: int| 0 <= i < os.drop_last().len() && (#[trigger] os.drop_last()[i]).harvest_day == d;
                assert(os[i] == os.drop_last()[i]);
            }
        }
        lemma_no_order_no_sold(os.drop_last(), d);
        assert(os[os.len() - 1].harvest_day != d);
    }
}

/// The day a tray is ready, when it counts toward capacity.
pub fn tray_ready_day(t: &CapacityTray) -> (r: Option<i64>)
    requires
        counts(*t) ==> i64::MIN <= ready_day(*t) <= i64::MAX,
    ensures
        match r {
            Some(day) => counts(*t) && day == ready_day(*t),
            None => !counts(*t),
        },
{
    if str_eq(t.state.as_str(), "discarded") || str_eq(t.state.as_str(), "harvested") {
        proof {
            reveal_strlit("discarded");
            reveal_strlit("harvested");
        }
        return None;
    }
    proof {
        reveal_strlit("discarded");
        reveal_strlit("harvested");
    }
    match (t.sown_day, t.growth_days) {
        (Some(s), Some(g)) => Some(s + g),
        _ => None,
    }
}

/// Trays ready on `day`, as a wide sum.
fn trays_on_day(trays: &Vec<CapacityTray>, day: i64) -> (r: i128)
    requires
        ready_days_fit(trays@),
    ensures
        r == tray_total(trays@, day as int),
{
    let n = trays.len();
    let mut acc: i128 = 0;
    let mut i: usize = 0;
    while i < n
        invariant
            n == trays@.len(),
            i <= n,
            ready_days_fit(trays@),
            acc == tray_total(trays@.take(i as int), day as int),
        decreases n - i,
    {
        proof {
            assert(trays@.take(i as int + 1).drop_last() =~= trays@.take(i as int));
            lemma_tray_total_bound(trays@.take(i as int), day as int);
            assert(trays@.take(i as int + 1).last() == trays@[i as int]);
        }
        let t = &trays[i];
        proof {
            assert(counts(*t) ==> i64::MIN <= ready_day(*t) <= i64::MAX) by {
                assert(t == trays@[i as int]);
            }
        }
        match tray_ready_day(t) {
            Some(d) => {
                if d == day {
                    acc = acc + t.quantity as i128;
                }
            },
            None => {},
        }
        i = i + 1;
    }
    proof {
        assert(trays@.take(n as int) =~= trays@);
    }
    acc
}

/// Trays sold for `day`, as a wide sum.
fn sold_on_day(orders: &Vec<CapacityOrder>, day: i64) -> (r: i128)
    ensures
        r == sold_total(orders@, day as int),
{
    let n = orders.len();
    let mut acc: i128 = 0;
    let mut i: usize = 0;
    while i < n
        invariant
            n == orders@.len(),
            i <= n,
            acc == sold_total(orders@.take(i as int), day as int),
        decreases n - i,
    {
        proof {
            assert(orders@.take(i as int + 1).drop_last() =~= orders@.take(i as int));
            lemma_sold_total_bound(orders@.take(i as int), day as int);
            assert(orders@.take(i as int + 1).last() == orders@[i as int]);
        }
        if orders[i].harvest_day == day {
            acc = acc + orders[i].capacity_consumed as i128;
        }
        i = i + 1;
    }
    proof {
        assert(orders@.take(n as int) =~= orders@);
    }
    acc
}

/// Trays still free on `day`: those ready that day less those sold. May be
/// negative when the day is oversold.
pub fn remaining_capacity(trays: &Vec<CapacityTray>, orders: &Vec<CapacityOrder>, day: i64) -> (r: i64)
    requires
        fits(trays@, orders@),
    ensures
        r == tray_total(trays@, day as int) - sold_total(orders@, day as int),
{
    proof {
        assert(i64::MIN <= row_for(trays@, orders@, day as int).2 <= i64::MAX);
    }
    let t = trays_on_day(trays, day);
    let s = sold_on_day(orders, day);
    (t - s) as i64
}

/// Inserts `x` into a strictly increasing list of days, unless it is there.
fn insert_day(days: &mut Vec<i64>, x: i64)
    requires
        forall|i: int, j: int| 0 <= i < j < old(days)@.len() ==> old(days)@[i] < old(days)@[j],
    ensures
        forall|i: int, j: int| 0 <= i < j < final(days)@.len() ==> final(days)@[i] < final(days)@[j],
        forall|d: i64| final(days)@.contains(d) <==> (old(days)@.contains(d) || d == x),
{
    let n = days.len();
    let mut p: usize = 0;
    while p < n && days[p] < x
        invariant
            n == days@.len(),
            p <= n,
            forall|i: int| 0 <= i < p ==> days@[i] < x,
        decreases n - p,
    {
        p = p + 1;
    }
    if p < n && days[p] == x {
        proof {
            assert(days@.contains(x));
        }
        return;
    }
    let ghost before = days@;
    assert(before == old(days)@);
    days.insert(p, x);
    proof {
        assert(days@ == before.insert(p as int, x));
        assert forall|d: i64| #[trigger] days@.contains(d) <==> (before.contains(d) || d == x) by {
            if days@.contains(d) {
                let k = choose|k: int| 0 <= k < days@.len() && days@[k] == d;
                if k < p {
                    assert(before[k] == d);
                } else if k > p {
                    assert(before[k - 1] == d);
                }
            }
            if before.contains(d) {
                let k = choose|k: int| 0 <= k < before.len() && before[k] == d;
                if k < p {
                    assert(days@[k] == d);
                } else {
                    assert(days@[k + 1] == d);
                }
            }
            if d == x {
                assert(days@[p as int] == x);
            }
        }
    }
}

/// The days of all counted trays and all orders, each once, in order.
fn capacity_days(trays: &Vec<CapacityTray>, orders: &Vec<CapacityOrder>) -> (r: Vec<i64>)
    requires
        fits(trays@, orders@),
    ensures
        forall|i: int, j: int| 0 <= i < j < r@.len() ==> r@[i] < r@[j],
        forall|d: i64| r@.contains(d) <==> capacity_day(trays@, orders@, d as int),
{
    let mut days: Vec<i64> = Vec::new();
    let n = trays.len();
    let mut i: usize = 0;
    while i < n
        invariant
            n == trays@.len(),
            i <= n,
            fits(trays@, orders@),
            forall|a: int, b: int| 0 <= a < b < days@.len() ==> days@[a] < days@[b],
            forall|d: i64| days@.contains(d) <==> tray_on(trays@.take(i as int), d as int),
        decreases n - i,
    {
        let t = &trays[i];
        proof {
            assert(t == trays@[i as int]);
        }
        let ghost old_days = days@;
        match tray_ready_day(t) {
            Some(day) => {
                insert_day(&mut days, day);
            },
            None => {},
        }
        proof {
            assert forall|d: i64| days@.contains(d) <==> tray_on(trays@.take(i as int + 1), d as int) by {
                let s = trays@.take(i as int + 1);
                if tray_on(s, d as int) {
                    let k = choose|k: int| 0 <= k < s.len() && counts(#[trigger] s[k]) && ready_day(s[k]) == d;
                    if k < i {
                        assert(trays@.take(i as int)[k] == s[k]);
                        assert(tray_on(trays@.take(i as int), d as int));
                    }
                }
                if tray_on(trays@.take(i as int), d as int) {
                    let k = choose|k: int| 0 <= k < i && counts(#[trigger] trays@.take(i as int)[k]) && ready_day(trays@.take(i as int)[k]) == d;
                    assert(s[k] == trays@.take(i as int)[k]);
                }
                if counts(trays@[i as int]) && ready_day(trays@[i as int]) == d {
                    assert(s[i as int] == trays@[i as int]);
                }
            }
        }
        i = i + 1;
    }
    proof {
        assert(trays@.take(n as int) =~= trays@);
    }
    let m = orders.len();
    let mut j: usize = 0;
    while j < m
        invariant
            m == orders@.len(),
            j <= m,
            forall|a: int, b: int| 0 <= a < b < days@.len() ==> days@[a] < days@[b],
            forall|d: i64| days@.contains(d) <==> (tray_on(trays@, d as int) || order_on(orders@.take(j as int), d as int)),
        decreases m - j,
    {
        insert_day(&mut days, orders[j].harvest_day);
        proof {
            assert forall|d: i64| days@.contains(d) <==> (tray_on(trays@, d as int) || order_on(orders@.take(j as int + 1), d as int)) by {
                let s = orders@.take(j as int + 1);
                if order_on(s, d as int) {
                    let k = choose|k: int| 0 <= k < s.len() && (#[trigger] s[k]).harvest_day == d;
                    if k < j {
                        assert(orders@.take(j as int)[k] == s[k]);
                    }
                }
                if order_on(orders@.take(j as int), d as int) {
                    let k = choose|k: int| 0 <= k < j && (#[trigger] orders@.take(j as int)[k]).harvest_day == d;
                    assert(s[k] == orders@.take(j as int)[k]);
                }
                if orders@[j as int].harvest_day == d {
                    assert(s[j as int] == orders@[j as int]);
                }
            }
        }
        j = j + 1;
    }
    proof {
        assert(orders@.take(m as int) =~= orders@);
    }
    days
}

/// Capacity per harvest date: one row for each day that a counted tray is
/// ready or an order is for, in date order, with the trays ready that day,
/// the trays paid orders hold, and what is left.
pub fn capacity_by_date(trays: &Vec<CapacityTray>, orders: &Vec<CapacityOrder>) -> (r: Vec<CapacityRow>)
    requires
        fits(trays@, orders@),
    ensures
        strictly_increasing(r@),
        forall|i: int| 0 <= i < r@.len() ==> capacity_day(trays@, orders@, #[trigger] r@[i].harvest_day as int),
        forall|d: i64| capacity_day(trays@, orders@, d as int) ==> exists|i: int| 0 <= i < r@.len() && (#[trigger] r@[i]).harvest_day == d,
        forall|i: int| 0 <= i < r@.len() ==> {
            let row = #[trigger] r@[i];
            (row.trays as int, row.sold_trays as int, row.remaining_trays as int) == row_for(trays@, orders@, row.harvest_day as int)
        },
{
    let days = capacity_days(trays, orders);
    let k = days.len();
    let mut out: Vec<CapacityRow> = Vec::new();
    let mut i: usize = 0;
    while i < k
        invariant
            k == days@.len(),
            i <= k,
            fits(trays@, orders@),
            forall|a: int, b: int| 0 <= a < b < days@.len() ==> days@[a] < days@[b],
            forall|d: i64| days@.contains(d) <==> capacity_day(trays@, orders@, d as int),
            out@.len() == i,
            forall|a: int| 0 <= a < i ==> (#[trigger] out@[a]).harvest_day == days@[a],
            forall|a: int| 0 <= a < i ==> {
                let row = #[trigger] out@[a];
                (row.trays as int, row.sold_trays as int, row.remaining_trays as int) == row_for(trays@, orders@, row.harvest_day as int)
            },
        decreases k - i,
    {
        let day = days[i];
        let t = trays_on_day(trays, day);
        let s = sold_on_day(orders, day);
        proof {
            assert(i64::MIN <= tray_total(trays@, day as int) <= i64::MAX);
            assert(i64::MIN <= sold_total(orders@, day as int) <= i64::MAX);
            assert(i64::MIN <= row_for(trays@, orders@, day as int).2 <= i64::MAX);
        }
        out.push(CapacityRow { harvest_day: day, trays: t as i64, sold_trays: s as i64, remaining_trays: (t - s) as i64 });
        i = i + 1;
    }
    proof {
        assert forall|a: int| 0 <= a < out@.len() implies capacity_day(trays@, orders@, #[trigger] out@[a].harvest_day as int) by {
            assert(days@.contains(days@[a]));
        }
        assert forall|d: i64| capacity_day(trays@, orders@, d as int) implies exists|a: int| 0 <= a < out@.len() && (#[trigger] out@[a]).harvest_day == d by {
            assert(days@.contains(d));
            let a = choose|a: int| 0 <= a < days@.len() && days@[a] == d;
            assert(out@[a].harvest_day == d);
        }
    }
    out
}

/// The rows and the single-day count agree: a day with a row has that row's
/// remaining trays, and a day without one has nothing ready and nothing sold.
pub proof fn lemma_rows_match_remaining(trays: Seq<CapacityTray>, orders: Seq<CapacityOrder>, rows: Seq<CapacityRow>, d: int)
    requires
        fits(trays, orders),
        forall|i: int| 0 <= i < rows.len() ==> capacity_day(trays, orders, #[trigger] rows[i].harvest_day as int),
        forall|e: i64| capacity_day(trays, orders, e as int) ==> exists|i: int| 0 <= i < rows.len() && (#[trigger] rows[i]).harvest_day == e,
        forall|i: int| 0 <= i < rows.len() ==> {
            let row = #[trigger] rows[i];
            (row.trays as int, row.sold_trays as int, row.remaining_trays as int) == row_for(trays, orders, row.harvest_day as int)
        },
    ensures
        (exists|i: int| 0 <= i < rows.len() && rows[i].harvest_day == d) ==> (forall|i: int| 0 <= i < rows.len() && rows[i].harvest_day == d ==> rows[i].remaining_trays == tray_total(trays, d) - sold_total(orders, d)),
        !(exists|i: int| 0 <= i < rows.len() && rows[i].harvest_day == d) ==> tray_total(trays, d) == 0 && sold_total(orders, d) == 0,
{
    if !(exists|i: int| 0 <= i < rows.len() && rows[i].harvest_day == d) {
        if capacity_day(trays, orders, d) {
            assert(i64::MIN <= d <= i64::MAX) by {
                if tray_on(trays, d) {
                    let k = choose|k: int| 0 <= k < trays.len() && counts(#[trigger] trays[k]) && ready_day(trays[k]) == d;
                } else {
                    let k = choose|k: int| 0 <= k < orders.len() && (#[trigger] orders[k]).harvest_day == d;
                }
            }
            let e = d as i64;
            assert(capacity_day(trays, orders, e as int));
        }
        lemma_no_tray_no_total(trays, d);
        lemma_no_order_no_sold(orders, d);
    }
}

} // verus!
