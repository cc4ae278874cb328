//! The Stripe poll: the order in which paid sessions are applied, and how the
//! refund and dispute cursors move. Sessions are applied oldest first; a
//! refund or dispute that arrives before its order stops the page, and the
//! cursor never moves past it.

use chrono::Timelike;
use vstd::prelude::*;
use vstd::multiset::Multiset;
use crate::models::{OrderView, ReconciliationDate, ReconciliationOrder};
use crate::money::{FactOutcome, PaidSession, SessionPage, UnparsedSession};
use crate::text::{
    dec_int, dec_nat, push_int, lemma_lex_irreflexive, lemma_lex_le_transitive, lemma_lex_not_lt_is_ge, lemma_lex_transitive,
    lemma_lex_trichotomy, lex_le, lex_lt, parse_i64, push_nat, push_str, std_parse_i64, str_lt, str_eq,
};

verus! {

#[derive(Debug)]
pub struct PollResult {
    pub ok: bool,
    pub sessions_applied: i64,
    pub sessions_rejected: i64,
    pub refunds_applied: i64,
    pub disputes_applied: i64,
    pub error: Option<String>,
}

impl PollResult {
    /// Stripe is not connected yet: a quiet success with nothing done.
    pub fn not_configured() -> (r: PollResult)
        ensures
            r.ok,
            r.sessions_applied == 0 && r.sessions_rejected == 0,
            r.refunds_applied == 0 && r.disputes_applied == 0,
            r.error is None,
    {
        PollResult { ok: true, sessions_applied: 0, sessions_rejected: 0, refunds_applied: 0, disputes_applied: 0, error: None }
    }

    /// A failed cycle is reported, never raised: nothing counted, the error kept.
    pub fn failed(error: String) -> (r: PollResult)
        ensures
            !r.ok,
            r.sessions_applied == 0 && r.sessions_rejected == 0,
            r.refunds_applied == 0 && r.disputes_applied == 0,
            r.error matches Some(e) && e@ == error@,
    {
        PollResult { ok: false, sessions_applied: 0, sessions_rejected: 0, refunds_applied: 0, disputes_applied: 0, error: Some(error) }
    }
}

#[derive(Debug)]
pub struct NewPaidOrders {
    pub count: i64,
}

/// One paid session to handle: read, or kept for the grower's attention.
#[derive(Debug)]
pub enum SessionWork {
    Parsed(PaidSession),
    Unparsed(UnparsedSession),
}

pub open spec fn work_created(w: SessionWork) -> i64 {
    match w {
        SessionWork::Parsed(s) => s.created,
        SessionWork::Unparsed(u) => u.created,
    }
}

pub open spec fn work_id(w: SessionWork) -> Seq<char> {
    match w {
        SessionWork::Parsed(s) => s.session_id@,
        SessionWork::Unparsed(u) => u.session_id@,
    }
}

impl SessionWork {
    pub fn created(&self) -> (r: i64)
        ensures
            r == work_created(*self),
    {
        match self {
            SessionWork::Parsed(s) => s.created,
            SessionWork::Unparsed(u) => u.created,
        }
    }

    pub fn session_id(&self) -> (r: &str)
        ensures
            r@ == work_id(*self),
    {
        match self {
            SessionWork::Parsed(s) => s.session_id.as_str(),
            SessionWork::Unparsed(u) => u.session_id.as_str(),
        }
    }
}

/// Application order: older first, then by session id.
pub open spec fn work_le(a: SessionWork, b: SessionWork) -> bool {
    work_created(a) < work_created(b) || (work_created(a) == work_created(b) && lex_le(work_id(a), work_id(b)))
}

pub open spec fn work_sorted(s: Seq<SessionWork>) -> bool {
    forall|i: int, j: int| 0 <= i < j < s.len() ==> work_le(s[i], s[j])
}

/// The sessions of one page: the read ones, then the unread ones.
pub open spec fn page_items(p: SessionPage) -> Seq<SessionWork> {
    p.parsed@.map_values(|s: PaidSession| SessionWork::Parsed(s)) + p.unparsed@.map_values(|u: UnparsedSession| SessionWork::Unparsed(u))
}

/// Every session of every page, page by page.
pub open spec fn pages_items(pages: Seq<SessionPage>) -> Seq<SessionWork>
    decreases pages.len(),
{
    if pages.len() == 0 {
        Seq::empty()
    } else {
        page_items(pages[0]) + pages_items(pages.drop_first())
    }
}

proof fn lemma_work_total(a: SessionWork, b: SessionWork)
    ensures
        work_le(a, b) || work_le(b, a),
        !work_le(a, b) ==> work_le(b, a),
{
    lemma_lex_trichotomy(work_id(a), work_id(b));
}

proof fn lemma_work_trans(a: SessionWork, b: SessionWork, c: SessionWork)
    requires
        work_le(a, b),
        work_le(b, c),
    ensures
        work_le(a, c),
{
    if work_created(a) == work_created(b) && work_created(b) == work_created(c) {
        lemma_lex_le_transitive(work_id(a), work_id(b), work_id(c));
    }
}

fn work_less_eq(a: &SessionWork, b: &SessionWork) -> (r: bool)
    ensures
        r == work_le(*a, *b),
{
    let ca = a.created();
    let cb = b.created();
    ca < cb || (ca == cb && (str_lt(a.session_id(), b.session_id()) || str_eq(a.session_id(), b.session_id())))
}

/// Moves the sessions of `page` onto the end of `work`.
fn drain_page(work: &mut Vec<SessionWork>, page: SessionPage)
    ensures
        final(work)@ == old(work)@ + page_items(page),
{
    let ghost parsed0 = page.parsed@;
    let ghost unparsed0 = page.unparsed@;
    let ghost start = work@;
    let mut parsed = page.parsed;
    let mut unparsed = page.unparsed;
    let mut k: usize = 0;
    let np = parsed.len();
    while parsed.len() > 0
        invariant
            np == parsed0.len(),
            k + parsed@.len() == np,
            parsed@ == parsed0.subrange(k as int, np as int),
            work@ == start + parsed0.subrange(0, k as int).map_values(|s: PaidSession| SessionWork::Parsed(s)),
        decreases parsed@.len(),
    {
        let s = parsed.remove(0);
        work.push(SessionWork::Parsed(s));
        proof {
            assert(parsed0.subrange(0, k + 1).map_values(|s: PaidSession| SessionWork::Parsed(s))
                =~= parsed0.subrange(0, k as int).map_values(|s: PaidSession| SessionWork::Parsed(s)).push(SessionWork::Parsed(s)));
            assert(parsed@ =~= parsed0.subrange(k + 1, np as int));
        }
        k = k + 1;
    }
    assert(parsed0.subrange(0, np as int) =~= parsed0);
    let ghost mid = work@;
    let mut j: usize = 0;
    let nu = unparsed.len();
    while unparsed.len() > 0
        invariant
            nu == unparsed0.len(),
            j + unparsed@.len() == nu,
            unparsed@ == unparsed0.subrange(j as int, nu as int),
            work@ == mid + unparsed0.subrange(0, j as int).map_values(|u: UnparsedSession| SessionWork::Unparsed(u)),
        decreases unparsed@.len(),
    {
        let u = unparsed.remove(0);
        work.push(SessionWork::Unparsed(u));
        proof {
            assert(unparsed0.subrange(0, j + 1).map_values(|u: UnparsedSession| SessionWork::Unparsed(u))
                =~= unparsed0.subrange(0, j as int).map_values(|u: UnparsedSession| SessionWork::Unparsed(u)).push(SessionWork::Unparsed(u)));
            assert(unparsed@ =~= unparsed0.subrange(j + 1, nu as int));
        }
        j = j + 1;
    }
    assert(unparsed0.subrange(0, nu as int) =~= unparsed0);
    assert(work@ =~= start + page_items(page));
}

/// Every session of every page, in the order they are applied: oldest first,
/// then by session id.
pub fn session_work_order(pages: Vec<SessionPage>) -> (r: Vec<SessionWork>)
    ensures
        work_sorted(r@),
        r@.to_multiset() == pages_items(pages@).to_multiset(),
        r@.len() == pages_items(pages@).len(),
{
    let ghost orig = pages@;
    let mut pages = pages;
    let mut work: Vec<SessionWork> = Vec::new();
    while pages.len() > 0
        invariant
            work@ + pages_items(pages@) == pages_items(orig),
        decreases pages@.len(),
    {
        let ghost before = pages@;
        let page = pages.remove(0);
        proof {
            assert(before.drop_first() =~= pages@);
        }
        let ghost w0 = work@;
        drain_page(&mut work, page);
        proof {
            assert(w0 + pages_items(before) =~= w0 + page_items(page) + pages_items(pages@));
        }
    }
    assert(work@ =~= pages_items(orig));
    // Stable insertion sort, taking the sessions from the back.
    let mut out: Vec<SessionWork> = Vec::new();
    let mut rest = work;
    proof {
        out@.to_multiset_ensures();
    }
    while rest.len() > 0
        invariant
            work_sorted(out@),
            out@.to_multiset().add(rest@.to_multiset()) == pages_items(orig).to_multiset(),
            out@.len() + rest@.len() == pages_items(orig).len(),
        decreases rest@.len(),
    {
        let ghost rest_before = rest@;
        let x = rest.pop().unwrap();
        proof {
            vstd::seq_lib::to_multiset_build(rest@, x);
            assert(rest_before =~= rest@.push(x));
        }
        let mut k: usize = out.len();
        while k > 0 && work_less_eq(&x, &out[k - 1])
            invariant
                k <= out@.len(),
                work_sorted(out@),
                forall|j: int| k <= j < out@.len() ==> work_le(x, #[trigger] out@[j]),
            decreases k,
        {
            k = k - 1;
        }
        proof {
            let s = out@;
            assert forall|j: int| 0 <= j < k implies work_le(#[trigger] s[j], x) by {
                lemma_work_total(x, s[k - 1]);
                if j < k - 1 {
                    lemma_work_trans(s[j], s[k - 1], x);
                }
            }
        }
        let ghost before = out@;
        out.insert(k, x);
        proof {
            let s = out@;
            assert(s =~= before.insert(k as int, x));
            vstd::seq_lib::to_multiset_insert(before, k as int, x);
            assert forall|a: int, b: int| 0 <= a < b < s.len() implies work_le(s[a], s[b]) by {
                if a < k && b > k {
                    assert(s[a] == before[a]);
                    assert(s[b] == before[b - 1]);
                    lemma_work_trans(s[a], x, s[b]);
                } else if a < k && b == k {
                    assert(s[a] == before[a]);
                } else if a == k {
                    assert(s[b] == before[b - 1]);
                } else if b < k {
                    assert(s[a] == before[a]);
                    assert(s[b] == before[b]);
                } else {
                    assert(s[a] == before[a - 1]);
                    assert(s[b] == before[b - 1]);
                }
            }
            broadcast use vstd::multiset::group_multiset_axioms;
            assert(out@.to_multiset().add(rest@.to_multiset()) =~= pages_items(orig).to_multiset());
        }
    }
    proof {
        rest@.to_multiset_ensures();
        broadcast use vstd::multiset::group_multiset_axioms;
        assert(rest@.to_multiset() =~= Multiset::empty());
        assert(out@.to_multiset() =~= pages_items(orig).to_multiset());
    }
    out
}

// --- Refund and dispute pages -----------------------------------------------

/// How far one page of refunds or disputes got: facts applied, the creation
/// time of the last fact handled, and whether a fact still waits for its order.
#[derive(Debug)]
pub struct PageProgress {
    pub applied: i64,
    pub advanced_through: Option<i64>,
    pub blocked: bool,
}

pub open spec fn progress_view(p: PageProgress) -> (int, Option<i64>, bool) {
    (p.applied as int, p.advanced_through, p.blocked)
}

/// One fact handled: an applied or already-applied fact moves the page up to
/// its creation time; a fact awaiting its order blocks the page.
pub open spec fn progress_step(p: (int, Option<i64>, bool), outcome: FactOutcome, created: i64) -> (int, Option<i64>, bool) {
    match outcome {
        FactOutcome::Applied => (p.0 + 1, Some(created), p.2),
        FactOutcome::AlreadyApplied => (p.0, Some(created), p.2),
        FactOutcome::AwaitingOrder => (p.0, p.1, true),
    }
}

/// A page's facts handled in order, stopping at the first that awaits its order.
pub open spec fn progress_after(s: Seq<(FactOutcome, i64)>) -> (int, Option<i64>, bool)
    decreases s.len(),
{
    if s.len() == 0 {
        (0, None, false)
    } else {
        let p = progress_after(s.drop_last());
        if p.2 {
            p
        } else {
            progress_step(p, s.last().0, s.last().1)
        }
    }
}

impl PageProgress {
    pub fn start() -> (r: PageProgress)
        ensures
            progress_view(r) == progress_after(Seq::empty()),
    {
        PageProgress { applied: 0, advanced_through: None, blocked: false }
    }

    /// Records the outcome of the next fact of the page. Once blocked, the
    /// page takes no more facts.
    pub fn record(&mut self, outcome: FactOutcome, created: i64)
        requires
            !old(self).blocked,
            old(self).applied < i64::MAX,
        ensures
            progress_view(*final(self)) == progress_step(progress_view(*old(self)), outcome, created),
    {
        match outcome {
            FactOutcome::Applied => {
                self.applied = self.applied + 1;
                self.advanced_through = Some(created);
            },
            FactOutcome::AlreadyApplied => {
                self.advanced_through = Some(created);
            },
            FactOutcome::AwaitingOrder => {
                self.blocked = true;
            },
        }
    }
}

proof fn lemma_blocked_stays(s: Seq<(FactOutcome, i64)>, j: int)
    requires
        0 <= j <= s.len(),
        progress_after(s.take(j)).2,
    ensures
        progress_after(s) == progress_after(s.take(j)),
    decreases s.len() - j,
{
    if j < s.len() {
        assert(s.take(j + 1).drop_last() =~= s.take(j));
        lemma_blocked_stays(s, j + 1);
    } else {
        assert(s.take(j) =~= s);
    }
}

/// A fact that awaits its order stops the page: whatever follows it, the page
/// ends blocked and no later fact moves the cursor or counts as applied.
pub proof fn lemma_cursor_stops_at_awaiting(s: Seq<(FactOutcome, i64)>, k: int)
    requires
        0 <= k < s.len(),
        s[k].0 == FactOutcome::AwaitingOrder,
    ensures
        progress_after(s).2,
        progress_after(s).1 == progress_after(s.take(k)).1,
        progress_after(s).0 == progress_after(s.take(k)).0,
{
    assert(s.take(k + 1).drop_last() =~= s.take(k));
    assert(s.take(k + 1).last() == s[k]);
    lemma_blocked_stays(s, k + 1);
}

/// The value a stored cursor stands for; none, or one that is not an
/// integer, counts as -1.
pub open spec fn cursor_value(prior: Option<Seq<char>>) -> int {
    match prior {
        Some(t) => match std_parse_i64(t) {
            Some(v) => v as int,
            None => -1,
        },
        None => -1,
    }
}

/// The cursor to store after a page, if it moves: the page's last handled
/// fact, when that is later than the stored cursor. The cursor never goes back.
pub fn cursor_after_page(prior: &Option<String>, progress: &PageProgress) -> (r: Option<i64>)
    ensures
        r == match progress.advanced_through {
            Some(ts) => if ts > cursor_value(match prior { Some(p) => Some(p@), None => None }) { Some(ts) } else { None },
            None => None,
        },
{
    let prior_v: i64 = match prior {
        Some(p) => match parse_i64(p.as_str()) {
            Some(v) => v,
            None => -1,
        },
        None => -1,
    };
    match progress.advanced_through {
        Some(ts) => if ts > prior_v { Some(ts) } else { None },
        None => None,
    }
}

// --- The refund and dispute poll, one step at a time ----------------------------

/// Where a refund or dispute poll stands: the stored cursor, the page being
/// read, the facts applied so far, and whether the poll has stopped.
#[derive(Debug)]
pub struct PollState {
    pub cursor: Option<String>,
    pub page: PageProgress,
    pub applied: i64,
    pub done: bool,
}

/// What the shell reports back: the outcome of applying the next fact of the
/// page (with the fact's creation time), or that the page has no more facts.
#[derive(Debug, Clone, Copy)]
pub enum PageEvent {
    Fact { outcome: FactOutcome, created: i64 },
    PageEnd,
}

/// What the shell does next: apply the page's next fact; or close the page,
/// storing the cursor first when one is given, then read the next page or
/// stop; or nothing, the poll having stopped.
#[derive(Debug, PartialEq, Eq, Structural)]
pub enum PollAction {
    NextFact,
    EndPage { write_cursor: Option<i64>, next_page: bool },
    Stopped,
}

pub open spec fn poll_view(s: PollState) -> (Option<Seq<char>>, (int, Option<i64>, bool), int, bool) {
    (opt_text(s.cursor), progress_view(s.page), s.applied as int, s.done)
}

pub open spec fn opt_text(o: Option<String>) -> Option<Seq<char>> {
    match o {
        Some(t) => Some(t@),
        None => None,
    }
}

/// The cursor write that closing a page asks for.
pub open spec fn cursor_write(prior: Option<Seq<char>>, advanced: Option<i64>) -> Option<i64> {
    match advanced {
        Some(ts) => if ts > cursor_value(prior) { Some(ts) } else { None },
        None => None,
    }
}

/// The cursor after a write.
pub open spec fn cursor_after(prior: Option<Seq<char>>, w: Option<i64>) -> Option<Seq<char>> {
    match w {
        Some(ts) => Some(dec_int(ts as int)),
        None => prior,
    }
}

/// The poll at the start: the stored cursor, an empty page, nothing applied.
pub fn poll_start(cursor: Option<String>) -> (r: PollState)
    ensures
        poll_view(r) == (opt_text(cursor), progress_after(Seq::empty()), 0int, false),
{
    PollState { cursor, page: PageProgress::start(), applied: 0, done: false }
}

/// One step of the poll. A fact that was applied or already applied moves
/// the page up to it and asks for the next fact; a fact that awaits its order
/// blocks the page, which closes at once and stops the poll. The end of a
/// page closes it and asks for the next one. Closing a page writes the cursor
/// when the page got past it, and starts a fresh page.
pub fn poll_step(state: PollState, event: PageEvent) -> (r: (PollState, PollAction))
    requires
        state.applied < i64::MAX,
        state.page.applied < i64::MAX,
        !state.done ==> !state.page.blocked,
    ensures
        !r.0.done ==> !r.0.page.blocked,
        state.done ==> poll_view(r.0) == poll_view(state) && r.1 == PollAction::Stopped,
        !state.done ==> match event {
            PageEvent::Fact { outcome, created } => {
                let p = progress_step(progress_view(state.page), outcome, created);
                let applied = state.applied + if outcome == FactOutcome::Applied { 1int } else { 0int };
                if p.2 {
                    let w = cursor_write(opt_text(state.cursor), p.1);
                    &&& r.1 == PollAction::EndPage { write_cursor: w, next_page: false }
                    &&& poll_view(r.0) == (cursor_after(opt_text(state.cursor), w), progress_after(Seq::empty()), applied, true)
                } else {
                    &&& r.1 == PollAction::NextFact
                    &&& poll_view(r.0) == (opt_text(state.cursor), p, applied, false)
                }
            },
            PageEvent::PageEnd => {
                let w = cursor_write(opt_text(state.cursor), state.page.advanced_through);
                &&& r.1 == PollAction::EndPage { write_cursor: w, next_page: true }
                &&& poll_view(r.0) == (cursor_after(opt_text(state.cursor), w), progress_after(Seq::empty()), state.applied as int, false)
            },
        },
{
    if state.done {
        return (state, PollAction::Stopped);
    }
    let PollState { cursor, page, applied, done: _ } = state;
    match event {
        PageEvent::Fact { outcome, created } => {
            let mut page = page;
            page.record(outcome, created);
            let applied = match outcome {
                FactOutcome::Applied => applied + 1,
                _ => applied,
            };
            if page.blocked {
                let w = cursor_after_page(&cursor, &page);
                let cursor = written(cursor, w);
                (PollState { cursor, page: PageProgress::start(), applied, done: true }, PollAction::EndPage { write_cursor: w, next_page: false })
            } else {
                (PollState { cursor, page, applied, done: false }, PollAction::NextFact)
            }
        },
        PageEvent::PageEnd => {
            let w = cursor_after_page(&cursor, &page);
            let cursor = written(cursor, w);
            (PollState { cursor, page: PageProgress::start(), applied, done: false }, PollAction::EndPage { write_cursor: w, next_page: true })
        },
    }
}

/// The stored cursor after a write, as text.
fn written(cursor: Option<String>, w: Option<i64>) -> (r: Option<String>)
    ensures
        opt_text(r) == cursor_after(opt_text(cursor), w),
{
    match w {
        Some(ts) => {
            let mut t = String::new();
            push_int(&mut t, ts);
            assert(t@ =~= dec_int(ts as int));
            Some(t)
        },
        None => cursor,
    }
}

// --- Poll failures --------------------------------------------------------------

/// `"{h} am"` / `"{h} pm"` on a 12-hour clock.
pub open spec fn fail_since_text(hour: int) -> Seq<char> {
    if hour == 0 {
        "12 am"@
    } else if hour < 12 {
        dec_nat(hour as nat) + " am"@
    } else if hour == 12 {
        "12 pm"@
    } else {
        dec_nat((hour - 12) as nat) + " pm"@
    }
}

pub fn format_fail_since(hour: u32) -> (r: String)
    requires
        hour < 24,
    ensures
        r@ == fail_since_text(hour as int),
{
    let (h12, ampm): (u32, &str) = if hour == 0 {
        (12, "am")
    } else if hour < 12 {
        (hour, "am")
    } else if hour == 12 {
        (12, "pm")
    } else {
        (hour - 12, "pm")
    };
    let mut s = String::new();
    push_nat(&mut s, h12 as u64);
    push_str(&mut s, " ");
    push_str(&mut s, ampm);
    proof {
        reveal_strlit("12 am");
        reveal_strlit("12 pm");
        reveal_strlit(" am");
        reveal_strlit(" pm");
        reveal_strlit("am");
        reveal_strlit("pm");
        reveal_strlit(" ");
        reveal_with_fuel(dec_nat, 3);
        assert(s@ =~= fail_since_text(hour as int));
    }
    s
}

/// The third failed poll in a row, and every one after it, raises the
/// "cannot reach Stripe" note.
pub open spec fn poll_failure_text(fail_count: int, hour: int) -> Option<Seq<char>> {
    if fail_count >= 3 {
        Some("Farm OS hasn't been able to reach Stripe since "@ + fail_since_text(hour) + "."@)
    } else {
        None
    }
}

pub fn poll_failure_message(fail_count: i64, hour: u32) -> (r: Option<String>)
    requires
        hour < 24,
    ensures
        match r {
            Some(m) => poll_failure_text(fail_count as int, hour as int) == Some(m@),
            None => poll_failure_text(fail_count as int, hour as int) is None,
        },
{
    if fail_count >= 3 {
        let since = format_fail_since(hour);
        let mut m = String::from_str("Farm OS hasn't been able to reach Stripe since ");
        push_str(&mut m, since.as_str());
        push_str(&mut m, ".");
        Some(m)
    } else {
        None
    }
}

/// `chrono::Local::now().hour()`: the hour of the local clock. Trusted: chrono
/// documents the hour as 0..=23; which hour comes back is the clock's.
#[verifier::external_body]
fn local_hour_now() -> (r: u32)
    ensures
        r < 24,
{
    chrono::Local::now().hour()
}

/// The poll-failure note for the current local hour.
pub fn poll_failure_note(fail_count: i64) -> (r: Option<String>)
    ensures
        (r is Some) == (fail_count >= 3),
        r matches Some(m) ==> exists|h: int| 0 <= h < 24 && poll_failure_text(fail_count as int, h) == Some(m@),
{
    let hour = local_hour_now();
    poll_failure_message(fail_count, hour)
}

// --- Reconciliation ---------------------------------------------------------------

pub open spec fn recon_order_of(o: OrderView, r: ReconciliationOrder) -> bool {
    &&& r.id@ == o.id@
    &&& r.crop_name@ == o.crop_name@
    &&& r.quantity == o.quantity
    &&& r.state@ == o.state@
    &&& r.capacity_consumed == o.capacity_consumed
    &&& r.amount_cents == o.amount_cents
    &&& r.paid_at@ == o.paid_at@
}

pub fn reconciliation_order(o: &OrderView) -> (r: ReconciliationOrder)
    ensures
        recon_order_of(*o, r),
{
    ReconciliationOrder {
        id: o.id.clone(),
        crop_name: o.crop_name.clone(),
        quantity: o.quantity,
        state: o.state.clone(),
        capacity_consumed: o.capacity_consumed,
        amount_cents: o.amount_cents,
        paid_at: o.paid_at.clone(),
    }
}

/// One harvest date of the reconciliation: its capacity, what is sold, what
/// remains, and its orders in the order given.
pub fn reconciliation_date(harvest_date: String, available: i64, sold: i64, remaining: i64, orders: &Vec<OrderView>) -> (r: ReconciliationDate)
    ensures
        r.harvest_date@ == harvest_date@,
        r.available == available,
        r.sold == sold,
        r.remaining == remaining,
        r.orders@.len() == orders@.len(),
        forall|i: int| 0 <= i < orders@.len() ==> recon_order_of(#[trigger] orders@[i], r.orders@[i]),
{
    let mut out: Vec<ReconciliationOrder> = Vec::new();
    let n = orders.len();
    let mut i: usize = 0;
    while i < n
        invariant
            n == orders@.len(),
            i <= n,
            out@.len() == i,
            forall|j: int| 0 <= j < i ==> recon_order_of(#[trigger] orders@[j], out@[j]),
        decreases n - i,
    {
        out.push(reconciliation_order(&orders[i]));
        i = i + 1;
    }
    ReconciliationDate { harvest_date, available, sold, remaining, orders: out }
}

} // verus!
