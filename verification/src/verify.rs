//! The replay check: the database is rebuilt from the event log and compared
//! with the live one. This module holds the verdict, the comparison of loaded
//! rows and every text the check writes; opening files and databases is the
//! caller's part.

use vstd::prelude::*;
use crate::text::{dec_nat, dec_int, push_char, push_int, push_nat, push_str, str_eq};

verus! {

/// One declared divergence: a cell the replay is known to rebuild differently.
#[derive(Debug)]
pub struct KnownDivergence {
    pub id: String,
    pub table: String,
    pub pk: String,
    pub column: String,
    pub seq_range: String,
}

impl KnownDivergence {
    pub fn duplicate(&self) -> (r: KnownDivergence)
        ensures
            kd_view(r) == kd_view(*self),
    {
        KnownDivergence {
            id: self.id.clone(),
            table: self.table.clone(),
            pk: self.pk.clone(),
            column: self.column.clone(),
            seq_range: self.seq_range.clone(),
        }
    }
}

#[derive(Debug)]
pub struct FieldDiff {
    pub table: String,
    pub key: String,
    pub field: String,
    pub expected: String,
    pub actual: String,
}

#[derive(Debug)]
pub struct CompareReport {
    pub events_read: usize,
    pub events_replayed: usize,
    pub tables_compared: usize,
    pub rows_compared: usize,
    pub watermark: i64,
    pub live_max_seq: i64,
    pub flush_lag: i64,
    pub known_divergences: usize,
    pub matched_ledger: Vec<KnownDivergence>,
    pub unknown_diffs: Vec<FieldDiff>,
    pub exclusions: Vec<String>,
}

#[derive(Debug)]
pub enum VerifyOutcome {
    Pass { report: CompareReport },
    PassWithKnown { report: CompareReport },
    Fail { report: CompareReport },
}

pub open spec fn kd_view(k: KnownDivergence) -> (Seq<char>, Seq<char>, Seq<char>, Seq<char>, Seq<char>) {
    (k.id@, k.table@, k.pk@, k.column@, k.seq_range@)
}

pub open spec fn diff_view(d: FieldDiff) -> (Seq<char>, Seq<char>, Seq<char>, Seq<char>, Seq<char>) {
    (d.table@, d.key@, d.field@, d.expected@, d.actual@)
}

/// The part of a report that the comparison grows: the count of known
/// divergences met, the ledger entries matched (each once) and the unexplained
/// differences, in order.
pub open spec fn report_state(r: CompareReport) -> (
    int,
    Seq<(Seq<char>, Seq<char>, Seq<char>, Seq<char>, Seq<char>)>,
    Seq<(Seq<char>, Seq<char>, Seq<char>, Seq<char>, Seq<char>)>,
) {
    (
        r.known_divergences as int,
        r.matched_ledger@.map_values(|k: KnownDivergence| kd_view(k)),
        r.unknown_diffs@.map_values(|d: FieldDiff| diff_view(d)),
    )
}

/// The fields that the comparison of cells leaves alone.
pub open spec fn same_totals(a: CompareReport, b: CompareReport) -> bool {
    &&& a.events_read == b.events_read
    &&& a.events_replayed == b.events_replayed
    &&& a.tables_compared == b.tables_compared
    &&& a.rows_compared == b.rows_compared
    &&& a.watermark == b.watermark
    &&& a.live_max_seq == b.live_max_seq
    &&& a.flush_lag == b.flush_lag
    &&& a.exclusions@ == b.exclusions@
}

/// Index of the first ledger entry for this table, key and column, or -1.
pub open spec fn ledger_find(ledger: Seq<KnownDivergence>, table: Seq<char>, key: Seq<char>, field: Seq<char>, i: int) -> int
    decreases ledger.len() - i,
{
    if i < 0 || i >= ledger.len() {
        -1
    } else if ledger[i].table@ == table && ledger[i].pk@ == key && ledger[i].column@ == field {
        i
    } else {
        ledger_find(ledger, table, key, field, i + 1)
    }
}

pub open spec fn has_id(matched: Seq<(Seq<char>, Seq<char>, Seq<char>, Seq<char>, Seq<char>)>, id: Seq<char>) -> bool {
    exists|m: int| 0 <= m < matched.len() && (#[trigger] matched[m]).0 == id
}

/// What comparing one cell does to the report: equal values change nothing; a
/// difference the ledger declares is counted, and its entry noted once;
/// anything else is an unexplained difference.
pub open spec fn after_diff(
    st: (int, Seq<(Seq<char>, Seq<char>, Seq<char>, Seq<char>, Seq<char>)>, Seq<(Seq<char>, Seq<char>, Seq<char>, Seq<char>, Seq<char>)>),
    ledger: Seq<KnownDivergence>,
    d: (Seq<char>, Seq<char>, Seq<char>, Seq<char>, Seq<char>),
) -> (int, Seq<(Seq<char>, Seq<char>, Seq<char>, Seq<char>, Seq<char>)>, Seq<(Seq<char>, Seq<char>, Seq<char>, Seq<char>, Seq<char>)>) {
    let k = ledger_find(ledger, d.0, d.1, d.2, 0);
    if d.3 == d.4 {
        st
    } else if k >= 0 {
        let entry = kd_view(ledger[k]);
        (st.0 + 1, if has_id(st.1, entry.0) { st.1 } else { st.1.push(entry) }, st.2)
    } else {
        (st.0, st.1, st.2.push(d))
    }
}

/// Comparing cells one after another, in order.
pub open spec fn after_diffs(
    st: (int, Seq<(Seq<char>, Seq<char>, Seq<char>, Seq<char>, Seq<char>)>, Seq<(Seq<char>, Seq<char>, Seq<char>, Seq<char>, Seq<char>)>),
    ledger: Seq<KnownDivergence>,
    ds: Seq<(Seq<char>, Seq<char>, Seq<char>, Seq<char>, Seq<char>)>,
) -> (int, Seq<(Seq<char>, Seq<char>, Seq<char>, Seq<char>, Seq<char>)>, Seq<(Seq<char>, Seq<char>, Seq<char>, Seq<char>, Seq<char>)>)
    decreases ds.len(),
{
    if ds.len() == 0 {
        st
    } else {
        after_diff(after_diffs(st, ledger, ds.drop_last()), ledger, ds.last())
    }
}

pub proof fn lemma_after_diffs_push(
    st: (int, Seq<(Seq<char>, Seq<char>, Seq<char>, Seq<char>, Seq<char>)>, Seq<(Seq<char>, Seq<char>, Seq<char>, Seq<char>, Seq<char>)>),
    ledger: Seq<KnownDivergence>,
    ds: Seq<(Seq<char>, Seq<char>, Seq<char>, Seq<char>, Seq<char>)>,
    d: (Seq<char>, Seq<char>, Seq<char>, Seq<char>, Seq<char>),
)
    ensures
        after_diffs(st, ledger, ds.push(d)) == after_diff(after_diffs(st, ledger, ds), ledger, d),
{
    assert(ds.push(d).drop_last() =~= ds);
}

/// Every comparison in `ds` is of two equal cells.
pub open spec fn all_equal(ds: Seq<(Seq<char>, Seq<char>, Seq<char>, Seq<char>, Seq<char>)>) -> bool {
    forall|i: int| 0 <= i < ds.len() ==> (#[trigger] ds[i]).3 == ds[i].4
}

/// Comparing only equal cells leaves the report as it was.
pub proof fn lemma_equal_cells_change_nothing(
    st: (int, Seq<(Seq<char>, Seq<char>, Seq<char>, Seq<char>, Seq<char>)>, Seq<(Seq<char>, Seq<char>, Seq<char>, Seq<char>, Seq<char>)>),
    ledger: Seq<KnownDivergence>,
    ds: Seq<(Seq<char>, Seq<char>, Seq<char>, Seq<char>, Seq<char>)>,
)
    requires
        all_equal(ds),
    ensures
        after_diffs(st, ledger, ds) == st,
    decreases ds.len(),
{
    if ds.len() > 0 {
        let d = ds.drop_last();
        assert forall|i: int| 0 <= i < d.len() implies (#[trigger] d[i]).3 == d[i].4 by {
            assert(d[i] == ds[i]);
        }
        lemma_equal_cells_change_nothing(st, ledger, d);
        assert(ds.last() == ds[ds.len() - 1]);
    }
}

/// Each compared cell raises the known count by at most one.
pub(crate) proof fn lemma_after_diffs_known_bound(
    st: (int, Seq<(Seq<char>, Seq<char>, Seq<char>, Seq<char>, Seq<char>)>, Seq<(Seq<char>, Seq<char>, Seq<char>, Seq<char>, Seq<char>)>),
    ledger: Seq<KnownDivergence>,
    ds: Seq<(Seq<char>, Seq<char>, Seq<char>, Seq<char>, Seq<char>)>,
)
    ensures
        st.0 <= after_diffs(st, ledger, ds).0 <= st.0 + ds.len(),
    decreases ds.len(),
{
    if ds.len() > 0 {
        lemma_after_diffs_known_bound(st, ledger, ds.drop_last());
    }
}

fn find_known(ledger: &Vec<KnownDivergence>, table: &str, key: &str, field: &str) -> (r: Option<usize>)
    ensures
        match r {
            Some(k) => k < ledger@.len() && k as int == ledger_find(ledger@, table@, key@, field@, 0),
            None => ledger_find(ledger@, table@, key@, field@, 0) == -1,
        },
{
    let n = ledger.len();
    let mut i: usize = 0;
    while i < n
        invariant
            n == ledger@.len(),
            i <= n,
            ledger_find(ledger@, table@, key@, field@, 0) == ledger_find(ledger@, table@, key@, field@, i as int),
        decreases n - i,
    {
        if str_eq(ledger[i].table.as_str(), table) && str_eq(ledger[i].pk.as_str(), key) && str_eq(ledger[i].column.as_str(), field) {
            return Some(i);
        }
        i = i + 1;
    }
    None
}

fn matched_has(matched: &Vec<KnownDivergence>, id: &str) -> (r: bool)
    ensures
        r == has_id(matched@.map_values(|k: KnownDivergence| kd_view(k)), id@),
{
    let ghost mv = matched@.map_values(|k: KnownDivergence| kd_view(k));
    let n = matched.len();
    let mut i: usize = 0;
    while i < n
        invariant
            n == matched@.len(),
            i <= n,
            mv == matched@.map_values(|k: KnownDivergence| kd_view(k)),
            forall|m: int| 0 <= m < i ==> (#[trigger] mv[m]).0 != id@,
        decreases n - i,
    {
        if str_eq(matched[i].id.as_str(), id) {
            assert(mv[i as int].0 == id@);
            return true;
        }
        i = i + 1;
    }
    false
}

/// Records the comparison of one cell (see `after_diff`).
pub fn push_diff(
    report: &mut CompareReport,
    ledger: &Vec<KnownDivergence>,
    table: &str,
    key: &str,
    field: &str,
    expected: String,
    actual: String,
)
    requires
        old(report).known_divergences < usize::MAX,
    ensures
        report_state(*final(report)) == after_diff(report_state(*old(report)), ledger@, (table@, key@, field@, expected@, actual@)),
        same_totals(*final(report), *old(report)),
{
    let ghost st0 = report_state(*report);
    if str_eq(expected.as_str(), actual.as_str()) {
        return;
    }
    match find_known(ledger, table, key, field) {
        Some(k) => {
            report.known_divergences = report.known_divergences + 1;
            let seen = matched_has(&report.matched_ledger, ledger[k].id.as_str());
            if !seen {
                let entry = ledger[k].duplicate();
                report.matched_ledger.push(entry);
                proof {
                    assert(report.matched_ledger@.map_values(|m: KnownDivergence| kd_view(m)) =~= st0.1.push(kd_view(ledger@[k as int])));
                }
            }
        },
        None => {
            let d = FieldDiff {
                table: String::from_str(table),
                key: String::from_str(key),
                field: String::from_str(field),
                expected,
                actual,
            };
            report.unknown_diffs.push(d);
            proof {
                assert(report.unknown_diffs@.map_values(|m: FieldDiff| diff_view(m)) =~= st0.2.push((table@, key@, field@, expected@, actual@)));
            }
        },
    }
}

// --- Verdict --------------------------------------------------------------

/// The exit code of a run: 2 while events still wait to be flushed, when no
/// event was applied or no row checked, or on a mismatch outside the accepted
/// list; 1 when only accepted mismatches were seen; otherwise 0.
pub open spec fn verdict(r: CompareReport) -> int {
    if r.flush_lag > 0 {
        2
    } else if r.events_replayed == 0 || r.rows_compared == 0 {
        2
    } else if r.unknown_diffs@.len() > 0 {
        2
    } else if r.known_divergences > 0 {
        1
    } else {
        0
    }
}

pub open spec fn outcome_report(o: VerifyOutcome) -> CompareReport {
    match o {
        VerifyOutcome::Pass { report } => report,
        VerifyOutcome::PassWithKnown { report } => report,
        VerifyOutcome::Fail { report } => report,
    }
}

pub open spec fn outcome_rank(o: VerifyOutcome) -> int {
    match o {
        VerifyOutcome::Pass { .. } => 0,
        VerifyOutcome::PassWithKnown { .. } => 1,
        VerifyOutcome::Fail { .. } => 2,
    }
}

pub fn decide_outcome(report: CompareReport) -> (r: VerifyOutcome)
    ensures
        outcome_report(r) == report,
        outcome_rank(r) == verdict(report),
{
    if report.flush_lag > 0 {
        VerifyOutcome::Fail { report }
    } else if report.events_replayed == 0 || report.rows_compared == 0 {
        VerifyOutcome::Fail { report }
    } else if report.unknown_diffs.len() > 0 {
        VerifyOutcome::Fail { report }
    } else if report.known_divergences > 0 {
        VerifyOutcome::PassWithKnown { report }
    } else {
        VerifyOutcome::Pass { report }
    }
}

/// The one line that states the verdict.
pub open spec fn summary_text(o: VerifyOutcome) -> Seq<char> {
    match o {
        VerifyOutcome::Pass { .. } => "VERIFY-REPLAY: PASS"@,
        VerifyOutcome::PassWithKnown { report } =>
            "VERIFY-REPLAY: PASS WITH "@ + dec_nat(report.known_divergences as nat) + " KNOWN DIVERGENCES"@,
        VerifyOutcome::Fail { report } => if report.flush_lag > 0 {
            "VERIFY-REPLAY: FAIL — "@ + dec_int(report.flush_lag as int) + " event(s) pending flush."@
        } else {
            "VERIFY-REPLAY: FAIL"@
        },
    }
}

impl VerifyOutcome {
    pub fn exit_nonzero(&self) -> (r: bool)
        ensures
            r == (outcome_rank(*self) == 2),
    {
        match self {
            VerifyOutcome::Fail { .. } => true,
            _ => false,
        }
    }

    pub fn report(&self) -> (r: &CompareReport)
        ensures
            *r == outcome_report(*self),
    {
        match self {
            VerifyOutcome::Pass { report } => report,
            VerifyOutcome::PassWithKnown { report } => report,
            VerifyOutcome::Fail { report } => report,
        }
    }

    pub fn summary_line(&self) -> (r: String)
        ensures
            r@ == summary_text(*self),
    {
        match self {
            VerifyOutcome::Pass { .. } => String::from_str("VERIFY-REPLAY: PASS"),
            VerifyOutcome::PassWithKnown { report } => {
                let mut s = String::from_str("VERIFY-REPLAY: PASS WITH ");
                push_nat(&mut s, report.known_divergences as u64);
                push_str(&mut s, " KNOWN DIVERGENCES");
                s
            },
            VerifyOutcome::Fail { report } => {
                if report.flush_lag > 0 {
                    let mut s = String::from_str("VERIFY-REPLAY: FAIL — ");
                    push_int(&mut s, report.flush_lag);
                    push_str(&mut s, " event(s) pending flush.");
                    s
                } else {
                    String::from_str("VERIFY-REPLAY: FAIL")
                }
            },
        }
    }
}

// --- What the check declares and writes -------------------------------------

/// What the replay deliberately does not compare, declared on every run.
pub open spec fn exclusion_lines() -> Seq<Seq<char>> {
    seq![
        "trays.growth_days_at_sow — crops-library reference join at write (Ruling 2 cat. 2; payload freeze deferred)"@,
        "trays.blackout_days_at_sow — crops-library reference join at write (Ruling 2 cat. 2; payload freeze deferred)"@,
        "snapshot files under snapshots/ — filesystem artifact; snapshot.taken is an explicit SQL no-op (Ruling 2 cat. 3)"@,
        "attention table — operator collateral; attention.resolved is an explicit SQL no-op on replay (decisions/RULING-attention-outside-replay-ledger.md)"@,
        "reference seed: crops (and equivalents) copied from the snapshot into the replay database"@,
    ]
}

pub fn exclusion_list() -> (r: Vec<String>)
    ensures
        r@.map_values(|s: String| s@) == exclusion_lines(),
{
    let mut v: Vec<String> = Vec::new();
    v.push(String::from_str("trays.growth_days_at_sow — crops-library reference join at write (Ruling 2 cat. 2; payload freeze deferred)"));
    v.push(String::from_str("trays.blackout_days_at_sow — crops-library reference join at write (Ruling 2 cat. 2; payload freeze deferred)"));
    v.push(String::from_str("snapshot files under snapshots/ — filesystem artifact; snapshot.taken is an explicit SQL no-op (Ruling 2 cat. 3)"));
    v.push(String::from_str("attention table — operator collateral; attention.resolved is an explicit SQL no-op on replay (decisions/RULING-attention-outside-replay-ledger.md)"));
    v.push(String::from_str("reference seed: crops (and equivalents) copied from the snapshot into the replay database"));
    assert(v@.map_values(|s: String| s@) =~= exclusion_lines());
    v
}

/// `"  - line\n"` for each line, in order.
pub open spec fn bullet_lines(ls: Seq<Seq<char>>) -> Seq<char>
    decreases ls.len(),
{
    if ls.len() == 0 {
        Seq::empty()
    } else {
        bullet_lines(ls.drop_last()) + "  - "@ + ls.last() + "\n"@
    }
}

fn push_bullets(out: &mut String, lines: &Vec<String>)
    ensures
        final(out)@ == old(out)@ + bullet_lines(lines@.map_values(|s: String| s@)),
{
    let ghost ls = lines@.map_values(|s: String| s@);
    let n = lines.len();
    let mut i: usize = 0;
    while i < n
        invariant
            n == lines@.len(),
            i <= n,
            ls == lines@.map_values(|s: String| s@),
            out@ == old(out)@ + bullet_lines(ls.subrange(0, i as int)),
        decreases n - i,
    {
        let ghost before = out@;
        push_str(out, "  - ");
        push_str(out, lines[i].as_str());
        push_str(out, "\n");
        proof {
            let pre = ls.subrange(0, i as int);
            assert(ls.subrange(0, i + 1).drop_last() =~= pre);
            assert(bullet_lines(ls.subrange(0, i + 1)) == bullet_lines(pre) + "  - "@ + ls[i as int] + "\n"@);
            assert(out@ =~= old(out)@ + bullet_lines(ls.subrange(0, i + 1)));
        }
        i = i + 1;
    }
    assert(ls.subrange(0, n as int) =~= ls);
}

pub open spec fn exclusions_text() -> Seq<char> {
    "verify-replay exclusions (declared every run):\n"@ + bullet_lines(exclusion_lines())
}

/// Writes the declared exclusions.
pub fn print_exclusions(out: &mut String)
    ensures
        final(out)@ == old(out)@ + exclusions_text(),
{
    push_str(out, "verify-replay exclusions (declared every run):\n");
    let ex = exclusion_list();
    push_bullets(out, &ex);
    assert(final(out)@ =~= old(out)@ + exclusions_text());
}

pub open spec fn ledger_line(k: (Seq<char>, Seq<char>, Seq<char>, Seq<char>, Seq<char>)) -> Seq<char> {
    "  "@ + k.0 + " table="@ + k.1 + " key="@ + k.2 + " column="@ + k.3 + " seq_range="@ + k.4 + "\n"@
}

pub open spec fn ledger_lines(ms: Seq<(Seq<char>, Seq<char>, Seq<char>, Seq<char>, Seq<char>)>) -> Seq<char>
    decreases ms.len(),
{
    if ms.len() == 0 {
        Seq::empty()
    } else {
        ledger_lines(ms.drop_last()) + ledger_line(ms.last())
    }
}

pub open spec fn diff_line(d: (Seq<char>, Seq<char>, Seq<char>, Seq<char>, Seq<char>)) -> Seq<char> {
    "  table="@ + d.0 + " key="@ + d.1 + " column="@ + d.2 + " expected="@ + d.3 + " actual="@ + d.4 + "\n"@
}

pub open spec fn diff_lines(ds: Seq<(Seq<char>, Seq<char>, Seq<char>, Seq<char>, Seq<char>)>) -> Seq<char>
    decreases ds.len(),
{
    if ds.len() == 0 {
        Seq::empty()
    } else {
        diff_lines(ds.drop_last()) + diff_line(ds.last())
    }
}

fn push_ledger_lines(out: &mut String, ms: &Vec<KnownDivergence>)
    ensures
        final(out)@ == old(out)@ + ledger_lines(ms@.map_values(|k: KnownDivergence| kd_view(k))),
{
    let ghost v = ms@.map_values(|k: KnownDivergence| kd_view(k));
    let n = ms.len();
    let mut i: usize = 0;
    while i < n
        invariant
            n == ms@.len(),
            i <= n,
            v == ms@.map_values(|k: KnownDivergence| kd_view(k)),
            out@ == old(out)@ + ledger_lines(v.subrange(0, i as int)),
        decreases n - i,
    {
        let ghost before = out@;
        let k = &ms[i];
        push_str(out, "  ");
        push_str(out, k.id.as_str());
        push_str(out, " table=");
        push_str(out, k.table.as_str());
        push_str(out, " key=");
        push_str(out, k.pk.as_str());
        push_str(out, " column=");
        push_str(out, k.column.as_str());
        push_str(out, " seq_range=");
        push_str(out, k.seq_range.as_str());
        push_str(out, "\n");
        proof {
            assert(v.subrange(0, i + 1).drop_last() =~= v.subrange(0, i as int));
            assert(out@ =~= before + ledger_line(v[i as int]));
            assert(out@ =~= old(out)@ + ledger_lines(v.subrange(0, i + 1)));
        }
        i = i + 1;
    }
    assert(v.subrange(0, n as int) =~= v);
}

fn push_diff_lines(out: &mut String, ds: &Vec<FieldDiff>)
    ensures
        final(out)@ == old(out)@ + diff_lines(ds@.map_values(|d: FieldDiff| diff_view(d))),
{
    let ghost v = ds@.map_values(|d: FieldDiff| diff_view(d));
    let n = ds.len();
    let mut i: usize = 0;
    while i < n
        invariant
            n == ds@.len(),
            i <= n,
            v == ds@.map_values(|d: FieldDiff| diff_view(d)),
            out@ == old(out)@ + diff_lines(v.subrange(0, i as int)),
        decreases n - i,
    {
        let ghost before = out@;
        let d = &ds[i];
        push_str(out, "  table=");
        push_str(out, d.table.as_str());
        push_str(out, " key=");
        push_str(out, d.key.as_str());
        push_str(out, " column=");
        push_str(out, d.field.as_str());
        push_str(out, " expected=");
        push_str(out, d.expected.as_str());
        push_str(out, " actual=");
        push_str(out, d.actual.as_str());
        push_str(out, "\n");
        proof {
            assert(v.subrange(0, i + 1).drop_last() =~= v.subrange(0, i as int));
            assert(out@ =~= before + diff_line(v[i as int]));
            assert(out@ =~= old(out)@ + diff_lines(v.subrange(0, i + 1)));
        }
        i = i + 1;
    }
    assert(v.subrange(0, n as int) =~= v);
}

fn push_line_nat(out: &mut String, label: &str, n: u64)
    ensures
        final(out)@ == old(out)@ + label@ + dec_nat(n as nat) + "\n"@,
{
    push_str(out, label);
    push_nat(out, n);
    push_str(out, "\n");
}

fn push_line_int(out: &mut String, label: &str, v: i64)
    ensures
        final(out)@ == old(out)@ + label@ + dec_int(v as int) + "\n"@,
{
    push_str(out, label);
    push_int(out, v);
    push_str(out, "\n");
}

/// The counters block shared by the status file and the console report.
pub open spec fn counters_text(r: CompareReport) -> Seq<char> {
    "watermark="@ + dec_int(r.watermark as int) + "\n"@
        + "live_max_seq="@ + dec_int(r.live_max_seq as int) + "\n"@
        + "events_read="@ + dec_nat(r.events_read as nat) + "\n"@
        + "events_replayed="@ + dec_nat(r.events_replayed as nat) + "\n"@
        + "tables_compared="@ + dec_nat(r.tables_compared as nat) + "\n"@
        + "rows_compared="@ + dec_nat(r.rows_compared as nat) + "\n"@
}

#[verifier::spinoff_prover]
fn push_counters(out: &mut String, r: &CompareReport)
    ensures
        final(out)@ == old(out)@ + counters_text(*r),
{
    let ghost o0 = out@;
    push_line_int(out, "watermark=", r.watermark);
    push_line_int(out, "live_max_seq=", r.live_max_seq);
    let ghost o2 = out@;
    assert(o2 =~= o0 + ("watermark="@ + dec_int(r.watermark as int) + "\n"@ + "live_max_seq="@ + dec_int(r.live_max_seq as int) + "\n"@));
    push_line_nat(out, "events_read=", r.events_read as u64);
    push_line_nat(out, "events_replayed=", r.events_replayed as u64);
    let ghost o4 = out@;
    assert(o4 =~= o2 + ("events_read="@ + dec_nat(r.events_read as nat) + "\n"@ + "events_replayed="@ + dec_nat(r.events_replayed as nat) + "\n"@));
    push_line_nat(out, "tables_compared=", r.tables_compared as u64);
    push_line_nat(out, "rows_compared=", r.rows_compared as u64);
    let ghost o6 = out@;
    assert(o6 =~= o4 + ("tables_compared="@ + dec_nat(r.tables_compared as nat) + "\n"@ + "rows_compared="@ + dec_nat(r.rows_compared as nat) + "\n"@));
    assert(out@ =~= old(out)@ + counters_text(*r));
}

/// The matched ledger entries, or `  (none)`.
pub open spec fn matched_block(r: CompareReport) -> Seq<char> {
    let ms = r.matched_ledger@.map_values(|k: KnownDivergence| kd_view(k));
    if ms.len() == 0 {
        "  (none)\n"@
    } else {
        ledger_lines(ms)
    }
}

fn push_matched(out: &mut String, r: &CompareReport)
    ensures
        final(out)@ == old(out)@ + matched_block(*r),
{
    if r.matched_ledger.len() == 0 {
        push_str(out, "  (none)\n");
    } else {
        push_ledger_lines(out, &r.matched_ledger);
    }
}

/// The status file the check leaves in the farm folder after each run.
pub open spec fn status_text(when: Seq<char>, o: VerifyOutcome, ledger_len: nat) -> Seq<char> {
    let r = outcome_report(o);
    "when="@ + when + "\n"@
        + summary_text(o) + "\n"@
        + "outcome="@ + summary_text(o) + "\n"@
        + "exclusions:\n"@ + bullet_lines(exclusion_lines())
        + "ledger_entries="@ + dec_nat(ledger_len) + "\n"@
        + "FLUSH LAG: "@ + dec_int(r.flush_lag as int) + " event(s) pending\n"@
        + counters_text(r)
        + "known_divergences="@ + dec_nat(r.known_divergences as nat) + "\n"@
        + "matched_ledger:\n"@ + matched_block(r)
        + if r.unknown_diffs@.len() == 0 {
            Seq::<char>::empty()
        } else {
            "unexplained_divergences:\n"@ + diff_lines(r.unknown_diffs@.map_values(|d: FieldDiff| diff_view(d)))
        }
}

pub fn verify_status_text(when: &str, outcome: &VerifyOutcome, ledger_len: usize) -> (r: String)
    ensures
        r@ == status_text(when@, *outcome, ledger_len as nat),
{
    let report = outcome.report();
    let summary = outcome.summary_line();
    let mut s = String::from_str("when=");
    push_str(&mut s, when);
    push_str(&mut s, "\n");
    push_str(&mut s, summary.as_str());
    push_str(&mut s, "\n");
    push_str(&mut s, "outcome=");
    push_str(&mut s, summary.as_str());
    push_str(&mut s, "\n");
    push_str(&mut s, "exclusions:\n");
    let ex = exclusion_list();
    push_bullets(&mut s, &ex);
    push_line_nat(&mut s, "ledger_entries=", ledger_len as u64);
    push_str(&mut s, "FLUSH LAG: ");
    push_int(&mut s, report.flush_lag);
    push_str(&mut s, " event(s) pending\n");
    push_counters(&mut s, report);
    push_line_nat(&mut s, "known_divergences=", report.known_divergences as u64);
    push_str(&mut s, "matched_ledger:\n");
    push_matched(&mut s, report);
    let ghost mid = s@;
    if report.unknown_diffs.len() > 0 {
        push_str(&mut s, "unexplained_divergences:\n");
        push_diff_lines(&mut s, &report.unknown_diffs);
        assert(s@ =~= mid + ("unexplained_divergences:\n"@ + diff_lines(report.unknown_diffs@.map_values(|d: FieldDiff| diff_view(d)))));
    } else {
        assert(s@ =~= mid + Seq::<char>::empty());
    }
    proof {
        reveal_strlit("when=");
        assert(s@ =~= status_text(when@, *outcome, ledger_len as nat));
    }
    s
}

/// What the check prints for the operator after the verdict.
pub open spec fn operator_text(o: VerifyOutcome) -> Seq<char> {
    let r = outcome_report(o);
    let ms = r.matched_ledger@.map_values(|k: KnownDivergence| kd_view(k));
    "FLUSH LAG: "@ + dec_int(r.flush_lag as int) + " event(s) pending\n"@
        + summary_text(o) + "\n"@
        + (if r.flush_lag > 0 { "Open Farm OS to flush, close it normally, and re-run.\n"@ } else { Seq::<char>::empty() })
        + counters_text(r)
        + "matched ledger entries ("@ + dec_nat(ms.len()) + "):\n"@
        + matched_block(r)
        + if outcome_rank(o) == 2 && r.flush_lag == 0 && r.unknown_diffs@.len() > 0 {
            "unexplained divergences:\n"@ + diff_lines(r.unknown_diffs@.map_values(|d: FieldDiff| diff_view(d)))
        } else {
            Seq::<char>::empty()
        }
}

pub fn operator_details_text(outcome: &VerifyOutcome) -> (r: String)
    ensures
        r@ == operator_text(*outcome),
{
    let report = outcome.report();
    let summary = outcome.summary_line();
    let mut s = String::from_str("FLUSH LAG: ");
    push_int(&mut s, report.flush_lag);
    push_str(&mut s, " event(s) pending\n");
    push_str(&mut s, summary.as_str());
    push_str(&mut s, "\n");
    let ghost m1 = s@;
    if report.flush_lag > 0 {
        push_str(&mut s, "Open Farm OS to flush, close it normally, and re-run.\n");
    } else {
        assert(s@ =~= m1 + Seq::<char>::empty());
    }
    push_counters(&mut s, report);
    push_str(&mut s, "matched ledger entries (");
    push_nat(&mut s, report.matched_ledger.len() as u64);
    push_str(&mut s, "):\n");
    push_matched(&mut s, report);
    let ghost m2 = s@;
    if outcome.exit_nonzero() && report.flush_lag == 0 && report.unknown_diffs.len() > 0 {
        push_str(&mut s, "unexplained divergences:\n");
        push_diff_lines(&mut s, &report.unknown_diffs);
        assert(s@ =~= m2 + ("unexplained divergences:\n"@ + diff_lines(report.unknown_diffs@.map_values(|d: FieldDiff| diff_view(d)))));
    } else {
        assert(s@ =~= m2 + Seq::<char>::empty());
    }
    proof {
        reveal_strlit("FLUSH LAG: ");
        assert(s@ =~= operator_text(*outcome));
    }
    s
}

/// The usage error of the command-line check, naming a stray argument.
pub open spec fn cli_error_text(extra: Option<Seq<char>>) -> Seq<char> {
    match extra {
        Some(arg) => "unexpected argument: "@ + arg + "\nUsage: verify_replay <farm-directory>"@,
        None => "Usage: verify_replay <farm-directory>"@,
    }
}

pub fn verify_replay_cli_error(extra: Option<&str>) -> (r: String)
    ensures
        r@ == cli_error_text(match extra { Some(a) => Some(a@), None => None }),
{
    match extra {
        Some(arg) => {
            let mut s = String::from_str("unexpected argument: ");
            push_str(&mut s, arg);
            push_str(&mut s, "\nUsage: verify_replay <farm-directory>");
            s
        },
        None => String::from_str("Usage: verify_replay <farm-directory>"),
    }
}

/// The check needs `farm.db` and `events.jsonl` in the farm folder; `display`
/// is how the folder is shown in the error.
pub open spec fn farm_dir_problem(display: Seq<char>, db_is_file: bool, events_is_file: bool) -> Option<Seq<char>> {
    if !db_is_file {
        Some("farm.db not found (looked in "@ + display + ")"@)
    } else if !events_is_file {
        Some("events.jsonl not found (looked in "@ + display + ")"@)
    } else {
        None
    }
}

/// Checks the farm folder before a replay run: `Ok(())` when both files are
/// there, else the error the command prints.
pub fn farm_dir_verify(display: &str, db_is_file: bool, events_is_file: bool) -> (r: Result<(), String>)
    ensures
        match r {
            Ok(()) => farm_dir_problem(display@, db_is_file, events_is_file) is None,
            Err(e) => farm_dir_problem(display@, db_is_file, events_is_file) == Some(e@),
        },
{
    if !db_is_file {
        let mut s = String::from_str("farm.db not found (looked in ");
        push_str(&mut s, display);
        push_str(&mut s, ")");
        return Err(s);
    }
    if !events_is_file {
        let mut s = String::from_str("events.jsonl not found (looked in ");
        push_str(&mut s, display);
        push_str(&mut s, ")");
        return Err(s);
    }
    Ok(())
}

// --- Comparing loaded rows --------------------------------------------------

/// The columns of the event log, in the order both sides are read.
pub open spec fn event_log_cols() -> Seq<Seq<char>> {
    seq![
        "seq"@, "id"@, "kind"@, "entity_type"@, "entity_id"@, "payload"@, "inverse"@,
        "undone_at"@, "undoes_seq"@, "created_at"@, "origin"@, "event_domain"@,
        "event_class"@, "reverses_event_id"@,
    ]
}

pub fn event_log_columns() -> (r: Vec<&'static str>)
    ensures
        r@.map_values(|c: &str| c@) == event_log_cols(),
{
    let v: Vec<&'static str> = vec![
        "seq", "id", "kind", "entity_type", "entity_id", "payload", "inverse",
        "undone_at", "undoes_seq", "created_at", "origin", "event_domain",
        "event_class", "reverses_event_id",
    ];
    assert(v@.map_values(|c: &str| c@) =~= event_log_cols());
    v
}

/// A cell as text; a missing cell reads as empty.
pub open spec fn cell(row: Seq<String>, ci: int) -> Seq<char> {
    if 0 <= ci < row.len() {
        row[ci]@
    } else {
        Seq::empty()
    }
}

/// The cells of the first `c` columns of one row pair, compared in column order.
pub open spec fn row_diffs(table: Seq<char>, key: Seq<char>, cols: Seq<Seq<char>>, srow: Seq<String>, rrow: Seq<String>, c: int) -> Seq<(Seq<char>, Seq<char>, Seq<char>, Seq<char>, Seq<char>)>
    decreases c,
{
    if c <= 0 {
        Seq::empty()
    } else {
        row_diffs(table, key, cols, srow, rrow, c - 1).push((table, key, cols[c - 1], cell(srow, c - 1), cell(rrow, c - 1)))
    }
}

/// The first `i` row pairs of the event log, by position; a row without an id
/// is passed over.
pub open spec fn log_rows_diffs(snap: Seq<Vec<String>>, replay: Seq<Vec<String>>, i: int) -> Seq<(Seq<char>, Seq<char>, Seq<char>, Seq<char>, Seq<char>)>
    decreases i,
{
    if i <= 0 {
        Seq::empty()
    } else {
        log_rows_diffs(snap, replay, i - 1) + if snap[i - 1]@.len() > 1 {
            row_diffs("event_log"@, snap[i - 1]@[1]@, event_log_cols(), snap[i - 1]@, replay[i - 1]@, event_log_cols().len() as int)
        } else {
            Seq::empty()
        }
    }
}

pub open spec fn min_len(a: int, b: int) -> int {
    if a < b { a } else { b }
}

pub open spec fn max_len(a: int, b: int) -> int {
    if a < b { b } else { a }
}

/// Every cell comparison of the event log: the row counts first, then each
/// row pair that both sides have.
pub open spec fn event_log_diffs(snap: Seq<Vec<String>>, replay: Seq<Vec<String>>) -> Seq<(Seq<char>, Seq<char>, Seq<char>, Seq<char>, Seq<char>)> {
    (if snap.len() != replay.len() {
        seq![("event_log"@, "*"@, "row_count"@, dec_nat(snap.len()), dec_nat(replay.len()))]
    } else {
        Seq::empty()
    }) + log_rows_diffs(snap, replay, min_len(snap.len() as int, replay.len() as int))
}

pub(crate) proof fn lemma_row_diffs_len(table: Seq<char>, key: Seq<char>, cols: Seq<Seq<char>>, srow: Seq<String>, rrow: Seq<String>, c: int)
    ensures
        row_diffs(table, key, cols, srow, rrow, c).len() == if c <= 0 { 0 } else { c },
    decreases c,
{
    if c > 0 {
        lemma_row_diffs_len(table, key, cols, srow, rrow, c - 1);
    }
}

proof fn lemma_log_rows_len(snap: Seq<Vec<String>>, replay: Seq<Vec<String>>, i: int)
    ensures
        log_rows_diffs(snap, replay, i).len() <= 14 * (if i <= 0 { 0 } else { i }),
    decreases i,
{
    if i > 0 {
        lemma_log_rows_len(snap, replay, i - 1);
        lemma_row_diffs_len("event_log"@, snap[i - 1]@[1]@, event_log_cols(), snap[i - 1]@, replay[i - 1]@, 14);
    }
}

fn nat_text(n: usize) -> (r: String)
    ensures
        r@ == dec_nat(n as nat),
{
    let mut s = String::new();
    push_nat(&mut s, n as u64);
    assert(s@ =~= dec_nat(n as nat));
    s
}

pub(crate) fn cell_text(row: &Vec<String>, ci: usize) -> (r: String)
    ensures
        r@ == cell(row@, ci as int),
{
    if ci < row.len() {
        row[ci].clone()
    } else {
        String::new()
    }
}

/// Compares the event log rows that both sides hold up to the flush watermark,
/// position by position (both are read in `seq` order).
pub fn compare_event_log(
    report: &mut CompareReport,
    ledger: &Vec<KnownDivergence>,
    snap_rows: &Vec<Vec<String>>,
    replay_rows: &Vec<Vec<String>>,
)
    requires
        old(report).tables_compared < usize::MAX,
        old(report).rows_compared + max_len(snap_rows@.len() as int, replay_rows@.len() as int) <= usize::MAX,
        old(report).known_divergences + 1 + 14 * snap_rows@.len() < usize::MAX,
    ensures
        report_state(*final(report)) == after_diffs(report_state(*old(report)), ledger@, event_log_diffs(snap_rows@, replay_rows@)),
        final(report).tables_compared == old(report).tables_compared + 1,
        final(report).rows_compared == old(report).rows_compared + max_len(snap_rows@.len() as int, replay_rows@.len() as int),
        final(report).events_read == old(report).events_read,
        final(report).events_replayed == old(report).events_replayed,
        final(report).watermark == old(report).watermark,
        final(report).live_max_seq == old(report).live_max_seq,
        final(report).flush_lag == old(report).flush_lag,
        final(report).exclusions@ == old(report).exclusions@,
{
    let ghost st0 = report_state(*report);
    let ghost snap = snap_rows@;
    let ghost replay = replay_rows@;
    let cols = event_log_columns();
    report.tables_compared = report.tables_compared + 1;
    let ns = snap_rows.len();
    let nr = replay_rows.len();
    let most = if ns < nr { nr } else { ns };
    report.rows_compared = report.rows_compared + most;
    let ghost head: Seq<(Seq<char>, Seq<char>, Seq<char>, Seq<char>, Seq<char>)> = if ns != nr {
        seq![("event_log"@, "*"@, "row_count"@, dec_nat(ns as nat), dec_nat(nr as nat))]
    } else {
        Seq::empty()
    };
    if ns != nr {
        let e = nat_text(ns);
        let a = nat_text(nr);
        push_diff(report, ledger, "event_log", "*", "row_count", e, a);
        proof {
            lemma_after_diffs_push(st0, ledger@, Seq::empty(), head[0]);
            assert(Seq::<(Seq<char>, Seq<char>, Seq<char>, Seq<char>, Seq<char>)>::empty().push(head[0]) =~= head);
        }
    }
    let n = if ns < nr { ns } else { nr };
    proof {
        assert(head + log_rows_diffs(snap, replay, 0) =~= head);
        lemma_after_diffs_known_bound(st0, ledger@, head);
    }
    let mut i: usize = 0;
    while i < n
        invariant
            snap == snap_rows@,
            replay == replay_rows@,
            n <= snap.len(),
            n <= replay.len(),
            n == min_len(snap.len() as int, replay.len() as int),
            i <= n,
            cols@.map_values(|c: &str| c@) == event_log_cols(),
            head.len() <= 1,
            st0.0 + 1 + 14 * snap.len() < usize::MAX,
            report_state(*report) == after_diffs(st0, ledger@, head + log_rows_diffs(snap, replay, i as int)),
            report.tables_compared == old(report).tables_compared + 1,
            report.rows_compared == old(report).rows_compared + max_len(snap.len() as int, replay.len() as int),
            report.events_read == old(report).events_read,
            report.events_replayed == old(report).events_replayed,
            report.watermark == old(report).watermark,
            report.live_max_seq == old(report).live_max_seq,
            report.flush_lag == old(report).flush_lag,
            report.exclusions@ == old(report).exclusions@,
        decreases n - i,
    {
        let srow = &snap_rows[i];
        let rrow = &replay_rows[i];
        let ghost done = head + log_rows_diffs(snap, replay, i as int);
        proof {
            lemma_log_rows_len(snap, replay, i as int);
        }
        if srow.len() > 1 {
            let key = srow[1].as_str();
            let ghost table = "event_log"@;
            let mut ci: usize = 0;
            while ci < 14
                invariant
                    snap == snap_rows@,
                    replay == replay_rows@,
                    i < n,
                    n <= snap.len(),
                    n <= replay.len(),
                    *srow == snap[i as int],
                    *rrow == replay[i as int],
                    srow@.len() > 1,
                    key@ == srow@[1]@,
                    table == "event_log"@,
                    ci <= 14,
                    cols@.map_values(|c: &str| c@) == event_log_cols(),
                    cols@.len() == 14,
                    done.len() <= 1 + 14 * i,
                    st0.0 + 1 + 14 * snap.len() < usize::MAX,
                    report_state(*report) == after_diffs(st0, ledger@, done + row_diffs(table, key@, event_log_cols(), srow@, rrow@, ci as int)),
                    report.tables_compared == old(report).tables_compared + 1,
                    report.rows_compared == old(report).rows_compared + max_len(snap.len() as int, replay.len() as int),
                    report.events_read == old(report).events_read,
                    report.events_replayed == old(report).events_replayed,
                    report.watermark == old(report).watermark,
                    report.live_max_seq == old(report).live_max_seq,
                    report.flush_lag == old(report).flush_lag,
                    report.exclusions@ == old(report).exclusions@,
                decreases 14 - ci,
            {
                let ghost prev = done + row_diffs(table, key@, event_log_cols(), srow@, rrow@, ci as int);
                proof {
                    lemma_row_diffs_len(table, key@, event_log_cols(), srow@, rrow@, ci as int);
                    lemma_after_diffs_known_bound(st0, ledger@, prev);
                    assert(cols@[ci as int]@ == event_log_cols()[ci as int]);
                }
                let e = cell_text(srow, ci);
                let a = cell_text(rrow, ci);
                let col = cols[ci];
                push_diff(report, ledger, "event_log", key, col, e, a);
                proof {
                    let d = (table, key@, event_log_cols()[ci as int], cell(srow@, ci as int), cell(rrow@, ci as int));
                    lemma_after_diffs_push(st0, ledger@, prev, d);
                    assert(prev.push(d) =~= done + row_diffs(table, key@, event_log_cols(), srow@, rrow@, ci + 1));
                }
                ci = ci + 1;
            }
            proof {
                assert(done + row_diffs(table, key@, event_log_cols(), srow@, rrow@, 14) =~= head + log_rows_diffs(snap, replay, i + 1));
            }
        } else {
            proof {
                assert(done =~= head + log_rows_diffs(snap, replay, i + 1));
            }
        }
        i = i + 1;
    }
}

pub proof fn lemma_row_diffs_same_row(table: Seq<char>, key: Seq<char>, cols: Seq<Seq<char>>, row: Seq<String>, c: int)
    ensures
        all_equal(row_diffs(table, key, cols, row, row, c)),
    decreases c,
{
    if c > 0 {
        lemma_row_diffs_same_row(table, key, cols, row, c - 1);
        let prev = row_diffs(table, key, cols, row, row, c - 1);
        let ds = row_diffs(table, key, cols, row, row, c);
        assert forall|i: int| 0 <= i < ds.len() implies (#[trigger] ds[i]).3 == ds[i].4 by {
            if i < prev.len() {
                assert(ds[i] == prev[i]);
            }
        }
    }
}

pub(crate) proof fn lemma_all_equal_concat(
    a: Seq<(Seq<char>, Seq<char>, Seq<char>, Seq<char>, Seq<char>)>,
    b: Seq<(Seq<char>, Seq<char>, Seq<char>, Seq<char>, Seq<char>)>,
)
    requires
        all_equal(a),
        all_equal(b),
    ensures
        all_equal(a + b),
{
    assert forall|i: int| 0 <= i < (a + b).len() implies (#[trigger] (a + b)[i]).3 == (a + b)[i].4 by {
        if i < a.len() {
            assert((a + b)[i] == a[i]);
        } else {
            assert((a + b)[i] == b[i - a.len()]);
        }
    }
}

proof fn lemma_log_rows_same(rows: Seq<Vec<String>>, i: int)
    requires
        i <= rows.len(),
    ensures
        all_equal(log_rows_diffs(rows, rows, i)),
    decreases i,
{
    if i > 0 {
        lemma_log_rows_same(rows, i - 1);
        if rows[i - 1]@.len() > 1 {
            lemma_row_diffs_same_row("event_log"@, rows[i - 1]@[1]@, event_log_cols(), rows[i - 1]@, event_log_cols().len() as int);
            lemma_all_equal_concat(
                log_rows_diffs(rows, rows, i - 1),
                row_diffs("event_log"@, rows[i - 1]@[1]@, event_log_cols(), rows[i - 1]@, rows[i - 1]@, event_log_cols().len() as int),
            );
        } else {
            assert(log_rows_diffs(rows, rows, i) =~= log_rows_diffs(rows, rows, i - 1));
        }
    }
}

/// An event log replayed into the same rows reports nothing: the comparison
/// leaves the report's counts, matched entries and differences as they were.
pub proof fn lemma_same_log_reports_nothing(
    st: (int, Seq<(Seq<char>, Seq<char>, Seq<char>, Seq<char>, Seq<char>)>, Seq<(Seq<char>, Seq<char>, Seq<char>, Seq<char>, Seq<char>)>),
    ledger: Seq<KnownDivergence>,
    rows: Seq<Vec<String>>,
)
    ensures
        after_diffs(st, ledger, event_log_diffs(rows, rows)) == st,
{
    lemma_log_rows_same(rows, rows.len() as int);
    assert(event_log_diffs(rows, rows) =~= log_rows_diffs(rows, rows, rows.len() as int));
    lemma_equal_cells_change_nothing(st, ledger, event_log_diffs(rows, rows));
}

// --- Replay order and the report's start ------------------------------------------------

/// Event `x` comes before event `y`: a lower sequence number, or the same one
/// read earlier.
pub open spec fn replay_before(seqs: Seq<i64>, x: int, y: int) -> bool {
    seqs[x] < seqs[y] || (seqs[x] == seqs[y] && x < y)
}

/// The order in which the log's events are replayed: by sequence number,
/// events with the same number in the order they were read. Every event
/// appears once.
pub fn replay_order(seqs: &Vec<i64>) -> (r: Vec<usize>)
    ensures
        r@.len() == seqs@.len(),
        forall|j: int| 0 <= j < r@.len() ==> (#[trigger] r@[j] as int) < seqs@.len(),
        forall|i: int| 0 <= i < seqs@.len() ==> #[trigger] r@.contains(i as usize),
        forall|a: int, b: int| 0 <= a < b < r@.len() ==> replay_before(seqs@, #[trigger] r@[a] as int, #[trigger] r@[b] as int),
{
    let n = seqs.len();
    let mut out: Vec<usize> = Vec::new();
    let mut i: usize = 0;
    while i < n
        invariant
            n == seqs@.len(),
            i <= n,
            out@.len() == i,
            forall|j: int| 0 <= j < out@.len() ==> (#[trigger] out@[j] as int) < i,
            forall|x: int| 0 <= x < i ==> #[trigger] out@.contains(x as usize),
            forall|a: int, b: int| 0 <= a < b < out@.len() ==> replay_before(seqs@, #[trigger] out@[a] as int, #[trigger] out@[b] as int),
        decreases n - i,
    {
        let mut k: usize = out.len();
        while k > 0 && seqs[out[k - 1]] > seqs[i]
            invariant
                k <= out@.len(),
                i < n,
                n == seqs@.len(),
                forall|j: int| 0 <= j < out@.len() ==> (#[trigger] out@[j] as int) < i,
                forall|j: int| k <= j < out@.len() ==> seqs@[#[trigger] out@[j] as int] > seqs@[i as int],
            decreases k,
        {
            k = k - 1;
        }
        let ghost before = out@;
        proof {
            assert forall|j: int| 0 <= j < k implies replay_before(seqs@, #[trigger] before[j] as int, i as int) by {
                if j < k - 1 {
                    assert(replay_before(seqs@, before[j] as int, before[k - 1] as int));
                }
            }
        }
        out.insert(k, i);
        proof {
            let s = out@;
            assert(s =~= before.insert(k as int, i));
            assert forall|a: int, b: int| 0 <= a < b < s.len() implies replay_before(seqs@, #[trigger] s[a] as int, #[trigger] s[b] as int) by {
                if a < k && b > k {
                    assert(s[a] == before[a]);
                    assert(s[b] == before[b - 1]);
                    assert(replay_before(seqs@, before[a] as int, i as int));
                } else if a < k && b == k {
                    assert(s[a] == before[a]);
                } else if a == k {
                    assert(s[b] == before[b - 1]);
                } else if b < k {
                    assert(s[a] == before[a]);
                    assert(s[b] == before[b]);
                } else {
                    assert(s[a] == before[a - 1]);
                    assert(s[b] == before[b - 1]);
                }
            }
            assert forall|x: int| 0 <= x < i + 1 implies #[trigger] s.contains(x as usize) by {
                if x == i {
                    assert(s[k as int] == i);
                } else {
                    assert(before.contains(x as usize));
                    let t = choose|t: int| 0 <= t < before.len() && before[t] == x as usize;
                    if t < k {
                        assert(s[t] == before[t]);
                    } else {
                        assert(s[t + 1] == before[t]);
                    }
                }
            }
            assert forall|j: int| 0 <= j < s.len() implies (#[trigger] s[j] as int) < i + 1 by {
                if j < k {
                    assert(s[j] == before[j]);
                } else if j > k {
                    assert(s[j] == before[j - 1]);
                }
            }
        }
        i = i + 1;
    }
    out
}

/// The gap between the live log and what the event file holds; never below zero.
pub open spec fn flush_lag_of(live_max_seq: int, watermark: int) -> int {
    if live_max_seq - watermark > 0 { live_max_seq - watermark } else { 0 }
}

/// The report a replay starts its comparison with: what was read and replayed,
/// the file's watermark, the live log's last sequence number and the lag
/// between them.
pub fn start_report(events_read: usize, events_replayed: usize, watermark: i64, live_max_seq: i64) -> (r: CompareReport)
    requires
        i64::MIN <= live_max_seq - watermark <= i64::MAX,
    ensures
        r.events_read == events_read,
        r.events_replayed == events_replayed,
        r.watermark == watermark,
        r.live_max_seq == live_max_seq,
        r.flush_lag == flush_lag_of(live_max_seq as int, watermark as int),
        r.tables_compared == 0,
        r.rows_compared == 0,
        r.known_divergences == 0,
        r.matched_ledger@.len() == 0,
        r.unknown_diffs@.len() == 0,
        r.exclusions@.map_values(|e: String| e@) == exclusion_lines(),
{
    let gap = live_max_seq - watermark;
    CompareReport {
        events_read,
        events_replayed,
        tables_compared: 0,
        rows_compared: 0,
        watermark,
        live_max_seq,
        flush_lag: if gap > 0 { gap } else { 0 },
        known_divergences: 0,
        matched_ledger: Vec::new(),
        unknown_diffs: Vec::new(),
        exclusions: exclusion_list(),
    }
}

} // verus!
