//! The replay check for tables with a primary key: rows are matched by key,
//! not by position. Rows are read as text cells; a key present on one side
//! only is reported once, and for each key on both sides every column is
//! compared, keys taken in ascending order.

use vstd::prelude::*;
use crate::text::{lex_lt, push_str, str_eq, str_lt, lemma_lex_irreflexive, lemma_lex_transitive, lemma_lex_trichotomy};
use crate::verify::{
    after_diff, after_diffs, all_equal, ledger_find, cell, cell_text, lemma_all_equal_concat, lemma_equal_cells_change_nothing,
    lemma_row_diffs_same_row, lemma_after_diffs_known_bound, lemma_after_diffs_push,
    lemma_row_diffs_len, max_len, push_diff, report_state, row_diffs, same_totals, CompareReport,
    KnownDivergence,
};

verus! {

/// The key of row `i`, read from column `pk`, when the row has that column.
pub open spec fn row_key(rows: Seq<Vec<String>>, pk: int, i: int) -> Option<Seq<char>> {
    if 0 <= pk < rows[i]@.len() {
        Some(rows[i]@[pk]@)
    } else {
        None
    }
}

/// Each key to the index of the last row that carries it; rows without the
/// key column are passed over.
pub open spec fn keyed(rows: Seq<Vec<String>>, pk: int) -> Map<Seq<char>, int>
    decreases rows.len(),
{
    if rows.len() == 0 {
        Map::empty()
    } else {
        let m = keyed(rows.drop_last(), pk);
        match row_key(rows, pk, rows.len() - 1) {
            Some(k) => m.insert(k, rows.len() - 1),
            None => m,
        }
    }
}

pub open spec fn strictly_sorted(ks: Seq<Seq<char>>) -> bool {
    forall|i: int, j: int| 0 <= i < j < ks.len() ==> lex_lt(#[trigger] ks[i], #[trigger] ks[j])
}

/// `ks` lists the keys of `m`, ascending, each once.
pub open spec fn lists_keys(ks: Seq<Seq<char>>, m: Map<Seq<char>, int>) -> bool {
    &&& strictly_sorted(ks)
    &&& forall|k: Seq<char>| ks.contains(k) <==> m.dom().contains(k)
}

/// The keys of `m` in ascending order.
pub open spec fn key_order(m: Map<Seq<char>, int>) -> Seq<Seq<char>> {
    choose|ks: Seq<Seq<char>>| lists_keys(ks, m)
}

/// Two ascending lists of the same keys are the same list.
pub proof fn lemma_sorted_keys_unique(a: Seq<Seq<char>>, b: Seq<Seq<char>>)
    requires
        strictly_sorted(a),
        strictly_sorted(b),
        forall|k: Seq<char>| a.contains(k) <==> b.contains(k),
    ensures
        a == b,
    decreases a.len(),
{
    if a.len() == 0 {
        if b.len() > 0 {
            assert(b.contains(b[0]));
        }
        assert(a =~= b);
    } else {
        assert(a.contains(a[0]));
        assert(b.len() > 0);
        assert(b.contains(b[0]));
        let j = choose|j: int| 0 <= j < b.len() && b[j] == a[0];
        let i = choose|i: int| 0 <= i < a.len() && a[i] == b[0];
        if a[0] != b[0] {
            assert(j > 0);
            assert(i > 0);
            assert(lex_lt(b[0], b[j]));
            assert(lex_lt(a[0], a[i]));
            lemma_lex_transitive(a[0], b[0], a[0]);
            lemma_lex_irreflexive(a[0]);
        }
        let a1 = a.drop_first();
        let b1 = b.drop_first();
        assert forall|k: Seq<char>| a1.contains(k) implies b1.contains(k) by {
            let t = choose|t: int| 0 <= t < a1.len() && a1[t] == k;
            assert(a[t + 1] == k);
            assert(lex_lt(a[0], a[t + 1]));
            lemma_lex_irreflexive(k);
            assert(a.contains(k));
            let s = choose|s: int| 0 <= s < b.len() && b[s] == k;
            assert(s != 0);
            assert(b1[s - 1] == k);
        }
        assert forall|k: Seq<char>| b1.contains(k) implies a1.contains(k) by {
            let t = choose|t: int| 0 <= t < b1.len() && b1[t] == k;
            assert(b[t + 1] == k);
            assert(lex_lt(b[0], b[t + 1]));
            lemma_lex_irreflexive(k);
            assert(b.contains(k));
            let s = choose|s: int| 0 <= s < a.len() && a[s] == k;
            assert(s != 0);
            assert(a1[s - 1] == k);
        }
        lemma_sorted_keys_unique(a1, b1);
        assert(a.len() == b.len());
        assert forall|t: int| 0 <= t < a.len() implies a[t] == b[t] by {
            if t > 0 {
                assert(a[t] == a1[t - 1]);
                assert(b[t] == b1[t - 1]);
            }
        }
        assert(a =~= b);
    }
}

/// The keys of a sorted key index, in order.
pub open spec fn entry_keys(es: Seq<(String, usize)>) -> Seq<Seq<char>> {
    es.map_values(|e: (String, usize)| e.0@)
}

/// `es` is the key index of the rows: each key once, ascending, with the
/// index of the last row that carries it.
pub open spec fn index_of_rows(es: Seq<(String, usize)>, rows: Seq<Vec<String>>, pk: int) -> bool {
    &&& lists_keys(entry_keys(es), keyed(rows, pk))
    &&& es.len() <= rows.len()
    &&& index_points(es, rows, pk)
}

/// The entry's row is the one the map gives for its key, and exists.
pub open spec fn points_at(m: Map<Seq<char>, int>, e: (String, usize), n: int) -> bool {
    m.dom().contains(e.0@) && m[e.0@] == e.1 as int && (e.1 as int) < n
}

/// Each entry points at the last row with its key.
pub open spec fn index_points(es: Seq<(String, usize)>, rows: Seq<Vec<String>>, pk: int) -> bool {
    forall|i: int| 0 <= i < es.len() ==> #[trigger] points_at(keyed(rows, pk), es[i], rows.len() as int)
}

proof fn lemma_keyed_bounds(rows: Seq<Vec<String>>, pk: int)
    ensures
        forall|k: Seq<char>| #[trigger] keyed(rows, pk).dom().contains(k) ==> 0 <= keyed(rows, pk)[k] < rows.len(),
    decreases rows.len(),
{
    if rows.len() > 0 {
        let pre = rows.drop_last();
        lemma_keyed_bounds(pre, pk);
        assert forall|k: Seq<char>| #[trigger] keyed(rows, pk).dom().contains(k) implies 0 <= keyed(rows, pk)[k] < rows.len() by {
            if keyed(pre, pk).dom().contains(k) {
                assert(0 <= keyed(pre, pk)[k] < pre.len());
            }
        }
    }
}

/// Builds the key index of `rows`, as a `BTreeMap` keyed by the column would.
fn key_index(rows: &Vec<Vec<String>>, pk: usize) -> (r: Vec<(String, usize)>)
    ensures
        index_of_rows(r@, rows@, pk as int),
{
    let mut es: Vec<(String, usize)> = Vec::new();
    let n = rows.len();
    let mut i: usize = 0;
    proof {
        assert(rows@.take(0).len() == 0);
        assert(keyed(rows@.take(0), pk as int) == Map::<Seq<char>, int>::empty());
        assert(entry_keys(es@) =~= Seq::<Seq<char>>::empty());
    }
    while i < n
        invariant
            n == rows@.len(),
            i <= n,
            index_of_rows(es@, rows@.take(i as int), pk as int),
        decreases n - i,
    {
        let ghost pre = rows@.take(i as int);
        let ghost post = rows@.take(i + 1);
        proof {
            assert(post.drop_last() =~= pre);
            assert(post[i as int] == rows@[i as int]);
            lemma_keyed_bounds(pre, pk as int);
        }
        if pk < rows[i].len() {
            let key = &rows[i][pk];
            let ghost k = key@;
            assert(row_key(post, pk as int, i as int) == Some(k));
            assert(keyed(post, pk as int) == keyed(pre, pk as int).insert(k, i as int));
            let mut j: usize = 0;
            while j < es.len() && str_lt(es[j].0.as_str(), key.as_str())
                invariant
                    j <= es@.len(),
                    k == key@,
                    forall|t: int| 0 <= t < j ==> lex_lt(#[trigger] es@[t].0@, k),
                decreases es@.len() - j,
            {
                j = j + 1;
            }
            let ghost before = es@;
            let ghost ks = entry_keys(before);
            proof {
                assert forall|t: int| 0 <= t < ks.len() implies ks[t] == before[t].0@ by {}
            }
            if j < es.len() && str_eq(es[j].0.as_str(), key.as_str()) {
                let kc = es[j].0.clone();
                es.set(j, (kc, i));
                proof {
                    assert(entry_keys(es@) =~= ks);
                    assert forall|t: int| 0 <= t < es@.len() implies #[trigger] points_at(keyed(post, pk as int), es@[t], post.len() as int) by {
                        if t != j {
                            assert(es@[t] == before[t]);
                            assert(points_at(keyed(pre, pk as int), before[t], pre.len() as int));
                            assert(ks[t] != ks[j as int]) by {
                                if t < j {
                                    assert(lex_lt(ks[t], ks[j as int]));
                                } else {
                                    assert(lex_lt(ks[j as int], ks[t]));
                                }
                                lemma_lex_irreflexive(ks[t]);
                            }
                        }
                    }
                    assert forall|q: Seq<char>| entry_keys(es@).contains(q) <==> keyed(post, pk as int).dom().contains(q) by {
                        if q == k {
                            assert(entry_keys(es@)[j as int] == k);
                        }
                    }
                }
            } else {
                let kc = key.clone();
                es.insert(j, (kc, i));
                proof {
                    let nk = entry_keys(es@);
                    assert(nk =~= ks.insert(j as int, k));
                    if j < before.len() {
                        lemma_lex_trichotomy(ks[j as int], k);
                        assert(lex_lt(k, ks[j as int]));
                    }
                    assert forall|a: int, b: int| 0 <= a < b < nk.len() implies lex_lt(#[trigger] nk[a], #[trigger] nk[b]) by {
                        if b < j {
                            assert(nk[a] == ks[a] && nk[b] == ks[b]);
                        } else if b == j {
                            assert(nk[a] == ks[a]);
                        } else if a < j {
                            assert(nk[a] == ks[a] && nk[b] == ks[b - 1]);
                            assert(lex_lt(ks[a], k));
                            if b - 1 > j {
                                assert(lex_lt(ks[j as int], ks[b - 1]));
                                lemma_lex_transitive(k, ks[j as int], ks[b - 1]);
                            }
                            lemma_lex_transitive(ks[a], k, ks[b - 1]);
                        } else if a == j {
                            assert(nk[b] == ks[b - 1]);
                            if b - 1 > j {
                                assert(lex_lt(ks[j as int], ks[b - 1]));
                                lemma_lex_transitive(k, ks[j as int], ks[b - 1]);
                            }
                        } else {
                            assert(nk[a] == ks[a - 1] && nk[b] == ks[b - 1]);
                        }
                    }
                    assert(!ks.contains(k)) by {
                        if ks.contains(k) {
                            let t = choose|t: int| 0 <= t < ks.len() && ks[t] == k;
                            if t < j {
                                lemma_lex_irreflexive(k);
                            } else if t > j {
                                assert(lex_lt(ks[j as int], ks[t]));
                                lemma_lex_transitive(k, ks[j as int], k);
                                lemma_lex_irreflexive(k);
                            }
                        }
                    }
                    assert forall|q: Seq<char>| nk.contains(q) <==> keyed(post, pk as int).dom().contains(q) by {
                        assert(ks.contains(q) <==> keyed(pre, pk as int).dom().contains(q));
                        if q == k {
                            assert(nk[j as int] == k);
                            assert(nk.contains(q));
                        } else {
                            if nk.contains(q) {
                                let t = choose|t: int| 0 <= t < nk.len() && nk[t] == q;
                                if t < j {
                                    assert(ks[t] == q);
                                } else {
                                    assert(ks[t - 1] == q);
                                }
                                assert(ks.contains(q));
                            }
                            if ks.contains(q) {
                                let t = choose|t: int| 0 <= t < ks.len() && ks[t] == q;
                                if t < j {
                                    assert(nk[t] == q);
                                } else {
                                    assert(nk[t + 1] == q);
                                }
                                assert(nk.contains(q));
                            }
                        }
                    }
                    assert forall|t: int| 0 <= t < es@.len() implies #[trigger] points_at(keyed(post, pk as int), es@[t], post.len() as int) by {
                        if t < j {
                            assert(es@[t] == before[t]);
                            assert(points_at(keyed(pre, pk as int), before[t], pre.len() as int));
                            assert(ks[t] != k);
                        } else if t > j {
                            assert(es@[t] == before[t - 1]);
                            assert(points_at(keyed(pre, pk as int), before[t - 1], pre.len() as int));
                            assert(ks[t - 1] != k) by {
                                if ks[t - 1] == k {
                                    assert(ks.contains(k));
                                }
                            }
                        }
                    }
                }
            }
        } else {
            proof {
                assert(row_key(post, pk as int, i as int) is None);
                assert(keyed(post, pk as int) == keyed(pre, pk as int));
                assert forall|t: int| 0 <= t < es@.len() implies #[trigger] points_at(keyed(post, pk as int), es@[t], post.len() as int) by {
                    assert(points_at(keyed(pre, pk as int), es@[t], pre.len() as int));
                }
            }
        }
        i = i + 1;
    }
    proof {
        assert(rows@.take(n as int) =~= rows@);
    }
    es
}

// --- the comparison ------------------------------------------------------------

/// Position of the first column named `name`, from `i` on, or -1.
pub open spec fn col_position(cols: Seq<Seq<char>>, name: Seq<char>, i: int) -> int
    decreases cols.len() - i,
{
    if i < 0 || i >= cols.len() {
        -1
    } else if cols[i] == name {
        i
    } else {
        col_position(cols, name, i + 1)
    }
}

pub open spec fn col_names(cols: Seq<&str>) -> Seq<Seq<char>> {
    cols.map_values(|c: &str| c@)
}

/// The keys of `ks` that `other` lacks, each one difference on the key column.
pub open spec fn lone_keys(
    table: Seq<char>,
    pk_name: Seq<char>,
    ks: Seq<Seq<char>>,
    other: Map<Seq<char>, int>,
    here: Seq<char>,
    there: Seq<char>,
) -> Seq<(Seq<char>, Seq<char>, Seq<char>, Seq<char>, Seq<char>)>
    decreases ks.len(),
{
    if ks.len() == 0 {
        Seq::empty()
    } else {
        let prev = lone_keys(table, pk_name, ks.drop_last(), other, here, there);
        if other.dom().contains(ks.last()) {
            prev
        } else {
            prev.push((table, ks.last(), pk_name, here, there))
        }
    }
}

/// For each key of `ks` that both sides hold, every column of its two rows.
pub open spec fn shared_diffs(
    table: Seq<char>,
    cols: Seq<Seq<char>>,
    ks: Seq<Seq<char>>,
    sm: Map<Seq<char>, int>,
    rm: Map<Seq<char>, int>,
    snap: Seq<Vec<String>>,
    replay: Seq<Vec<String>>,
) -> Seq<(Seq<char>, Seq<char>, Seq<char>, Seq<char>, Seq<char>)>
    decreases ks.len(),
{
    if ks.len() == 0 {
        Seq::empty()
    } else {
        let prev = shared_diffs(table, cols, ks.drop_last(), sm, rm, snap, replay);
        let k = ks.last();
        if rm.dom().contains(k) {
            prev + row_diffs(table, k, cols, snap[sm[k]]@, replay[rm[k]]@, cols.len() as int)
        } else {
            prev
        }
    }
}

/// Every cell comparison of a keyed table, in order: keys only the live side
/// has, keys only the replay has, then the columns of each key both have.
pub open spec fn keyed_diffs(
    table: Seq<char>,
    pk_name: Seq<char>,
    cols: Seq<Seq<char>>,
    snap: Seq<Vec<String>>,
    replay: Seq<Vec<String>>,
    pk: int,
) -> Seq<(Seq<char>, Seq<char>, Seq<char>, Seq<char>, Seq<char>)> {
    let sm = keyed(snap, pk);
    let rm = keyed(replay, pk);
    lone_keys(table, pk_name, key_order(sm), rm, "present"@, "missing"@)
        + lone_keys(table, pk_name, key_order(rm), sm, "missing"@, "present"@)
        + shared_diffs(table, cols, key_order(sm), sm, rm, snap, replay)
}

pub open spec fn missing_pk_text(table: Seq<char>, pk: Seq<char>) -> Seq<char> {
    "internal error: pk "@ + pk + " missing from column list for "@ + table
}

proof fn lemma_key_order(es: Seq<(String, usize)>, rows: Seq<Vec<String>>, pk: int)
    requires
        index_of_rows(es, rows, pk),
    ensures
        key_order(keyed(rows, pk)) == entry_keys(es),
{
    let m = keyed(rows, pk);
    assert(lists_keys(entry_keys(es), m));
    let ko = key_order(m);
    assert(lists_keys(ko, m));
    lemma_sorted_keys_unique(ko, entry_keys(es));
}

fn find_col(cols: &Vec<&str>, name: &str) -> (r: Option<usize>)
    ensures
        match r {
            Some(i) => i < cols@.len() && i as int == col_position(col_names(cols@), name@, 0),
            None => col_position(col_names(cols@), name@, 0) == -1,
        },
{
    let ghost cv = col_names(cols@);
    let mut i: usize = 0;
    while i < cols.len()
        invariant
            i <= cols@.len(),
            cv == col_names(cols@),
            col_position(cv, name@, 0) == col_position(cv, name@, i as int),
        decreases cols@.len() - i,
    {
        if str_eq(cols[i], name) {
            return Some(i);
        }
        i = i + 1;
    }
    None
}

fn find_entry(es: &Vec<(String, usize)>, key: &str) -> (r: Option<usize>)
    ensures
        match r {
            Some(p) => p < es@.len() && es@[p as int].0@ == key@,
            None => !entry_keys(es@).contains(key@),
        },
{
    let mut p: usize = 0;
    while p < es.len()
        invariant
            p <= es@.len(),
            forall|t: int| 0 <= t < p ==> (#[trigger] es@[t]).0@ != key@,
        decreases es@.len() - p,
    {
        if str_eq(es[p].0.as_str(), key) {
            return Some(p);
        }
        p = p + 1;
    }
    proof {
        if entry_keys(es@).contains(key@) {
            let t = choose|t: int| 0 <= t < entry_keys(es@).len() && entry_keys(es@)[t] == key@;
            assert(es@[t].0@ == key@);
        }
    }
    None
}

proof fn lemma_lone_keys_len(
    table: Seq<char>,
    pk_name: Seq<char>,
    ks: Seq<Seq<char>>,
    other: Map<Seq<char>, int>,
    here: Seq<char>,
    there: Seq<char>,
)
    ensures
        lone_keys(table, pk_name, ks, other, here, there).len() <= ks.len(),
    decreases ks.len(),
{
    if ks.len() > 0 {
        lemma_lone_keys_len(table, pk_name, ks.drop_last(), other, here, there);
    }
}

proof fn lemma_shared_len(
    table: Seq<char>,
    cols: Seq<Seq<char>>,
    ks: Seq<Seq<char>>,
    sm: Map<Seq<char>, int>,
    rm: Map<Seq<char>, int>,
    snap: Seq<Vec<String>>,
    replay: Seq<Vec<String>>,
)
    ensures
        shared_diffs(table, cols, ks, sm, rm, snap, replay).len() <= ks.len() * cols.len(),
    decreases ks.len(),
{
    if ks.len() > 0 {
        let n = ks.len() as int;
        let c = cols.len() as int;
        lemma_shared_len(table, cols, ks.drop_last(), sm, rm, snap, replay);
        let k = ks.last();
        if rm.dom().contains(k) {
            lemma_row_diffs_len(table, k, cols, snap[sm[k]]@, replay[rm[k]]@, c);
        }
        assert((n - 1) * c + c == n * c) by (nonlinear_arith);
        assert(0 <= (n - 1) * c) by (nonlinear_arith)
            requires
                n >= 1,
                c >= 0,
        ;
    }
}

/// Compares a table whose rows carry a primary key. Both sides' rows are read
/// as text in the order of `cols`, and `pk` names the key column among them.
/// Each key only one side holds is one difference on the key column; for each
/// key both sides hold, every column is compared. The last row read for a key
/// stands for it, as in a map keyed by that column.
pub fn compare_keyed(
    report: &mut CompareReport,
    ledger: &Vec<KnownDivergence>,
    table: &str,
    pk: &str,
    cols: &Vec<&str>,
    snap_rows: &Vec<Vec<String>>,
    replay_rows: &Vec<Vec<String>>,
) -> (r: Result<(), String>)
    requires
        old(report).tables_compared < usize::MAX,
        old(report).rows_compared + max_len(snap_rows@.len() as int, replay_rows@.len() as int) <= usize::MAX,
        old(report).known_divergences + snap_rows@.len() + replay_rows@.len() + cols@.len() * snap_rows@.len() < usize::MAX,
    ensures
        final(report).tables_compared == old(report).tables_compared + 1,
        final(report).rows_compared == old(report).rows_compared + max_len(snap_rows@.len() as int, replay_rows@.len() as int),
        final(report).events_read == old(report).events_read,
        final(report).events_replayed == old(report).events_replayed,
        final(report).watermark == old(report).watermark,
        final(report).live_max_seq == old(report).live_max_seq,
        final(report).flush_lag == old(report).flush_lag,
        final(report).exclusions@ == old(report).exclusions@,
        r is Err <==> col_position(col_names(cols@), pk@, 0) < 0,
        match r {
            Ok(_) => report_state(*final(report)) == after_diffs(
                report_state(*old(report)),
                ledger@,
                keyed_diffs(table@, pk@, col_names(cols@), snap_rows@, replay_rows@, col_position(col_names(cols@), pk@, 0)),
            ),
            Err(e) => e@ == missing_pk_text(table@, pk@) && report_state(*final(report)) == report_state(*old(report)),
        },
{
    let ghost st0 = report_state(*report);
    report.tables_compared = report.tables_compared + 1;
    let ns = snap_rows.len();
    let nr = replay_rows.len();
    let most = if ns < nr { nr } else { ns };
    report.rows_compared = report.rows_compared + most;
    let ghost r1 = *report;
    let pk_idx = match find_col(cols, pk) {
        Some(i) => i,
        None => {
            let mut e = String::from_str("internal error: pk ");
            push_str(&mut e, pk);
            push_str(&mut e, " missing from column list for ");
            push_str(&mut e, table);
            return Err(e);
        },
    };
    let es = key_index(snap_rows, pk_idx);
    let er = key_index(replay_rows, pk_idx);
    let ghost snap = snap_rows@;
    let ghost replay = replay_rows@;
    let ghost sm = keyed(snap, pk_idx as int);
    let ghost rm = keyed(replay, pk_idx as int);
    let ghost ks = entry_keys(es@);
    let ghost kr = entry_keys(er@);
    let ghost cv = col_names(cols@);
    let ghost cn = cols@.len() as int;
    let ghost bound = st0.0 + ns + nr + cn * ns;
    proof {
        lemma_key_order(es@, snap, pk_idx as int);
        lemma_key_order(er@, replay, pk_idx as int);
        assert(0 <= cn * ns) by (nonlinear_arith)
            requires
                cn >= 0,
                ns >= 0,
        ;
    }
    // Keys only the live side holds.
    let mut a: usize = 0;
    while a < es.len()
        invariant
            a <= es@.len(),
            snap == snap_rows@,
            replay == replay_rows@,
            ks == entry_keys(es@),
            kr == entry_keys(er@),
            sm == keyed(snap, pk_idx as int),
            rm == keyed(replay, pk_idx as int),
            index_of_rows(es@, snap, pk_idx as int),
            index_of_rows(er@, replay, pk_idx as int),
            bound == st0.0 + ns + nr + cn * ns,
            ns == snap.len(),
            0 <= cn * ns,
            bound < usize::MAX,
            same_totals(*report, r1),
            report_state(*report) == after_diffs(st0, ledger@, lone_keys(table@, pk@, ks.take(a as int), rm, "present"@, "missing"@)),
        decreases es@.len() - a,
    {
        let ghost done = lone_keys(table@, pk@, ks.take(a as int), rm, "present"@, "missing"@);
        proof {
            lemma_lone_keys_len(table@, pk@, ks.take(a as int), rm, "present"@, "missing"@);
            lemma_after_diffs_known_bound(st0, ledger@, done);
            assert(ks.take(a + 1).drop_last() =~= ks.take(a as int));
            assert(ks[a as int] == es@[a as int].0@);
        }
        let key = es[a].0.as_str();
        match find_entry(&er, key) {
            Some(p) => {
                proof {
                    assert(kr[p as int] == key@);
                    assert(kr.contains(key@));
                }
            },
            None => {
                push_diff(report, ledger, table, key, pk, String::from_str("present"), String::from_str("missing"));
                proof {
                    lemma_after_diffs_push(st0, ledger@, done, (table@, key@, pk@, "present"@, "missing"@));
                }
            },
        }
        a = a + 1;
    }
    let ghost l1 = lone_keys(table@, pk@, ks, rm, "present"@, "missing"@);
    proof {
        assert(ks.take(es@.len() as int) =~= ks);
        lemma_lone_keys_len(table@, pk@, ks, rm, "present"@, "missing"@);
        assert(l1 + lone_keys(table@, pk@, kr.take(0), sm, "missing"@, "present"@) =~= l1);
    }
    // Keys only the replay holds.
    let mut b: usize = 0;
    while b < er.len()
        invariant
            b <= er@.len(),
            snap == snap_rows@,
            replay == replay_rows@,
            ks == entry_keys(es@),
            kr == entry_keys(er@),
            sm == keyed(snap, pk_idx as int),
            rm == keyed(replay, pk_idx as int),
            index_of_rows(es@, snap, pk_idx as int),
            index_of_rows(er@, replay, pk_idx as int),
            bound == st0.0 + ns + nr + cn * ns,
            ns == snap.len(),
            nr == replay.len(),
            0 <= cn * ns,
            bound < usize::MAX,
            l1 == lone_keys(table@, pk@, ks, rm, "present"@, "missing"@),
            l1.len() <= ns,
            same_totals(*report, r1),
            report_state(*report) == after_diffs(st0, ledger@, l1 + lone_keys(table@, pk@, kr.take(b as int), sm, "missing"@, "present"@)),
        decreases er@.len() - b,
    {
        let ghost part = lone_keys(table@, pk@, kr.take(b as int), sm, "missing"@, "present"@);
        proof {
            lemma_lone_keys_len(table@, pk@, kr.take(b as int), sm, "missing"@, "present"@);
            lemma_after_diffs_known_bound(st0, ledger@, l1 + part);
            assert(kr.take(b + 1).drop_last() =~= kr.take(b as int));
            assert(kr[b as int] == er@[b as int].0@);
        }
        let key = er[b].0.as_str();
        match find_entry(&es, key) {
            Some(p) => {
                proof {
                    assert(ks[p as int] == key@);
                    assert(ks.contains(key@));
                }
            },
            None => {
                push_diff(report, ledger, table, key, pk, String::from_str("missing"), String::from_str("present"));
                proof {
                    let d = (table@, key@, pk@, "missing"@, "present"@);
                    lemma_after_diffs_push(st0, ledger@, l1 + part, d);
                    assert((l1 + part).push(d) =~= l1 + part.push(d));
                }
            },
        }
        b = b + 1;
    }
    let ghost l2 = lone_keys(table@, pk@, kr, sm, "missing"@, "present"@);
    proof {
        assert(kr.take(er@.len() as int) =~= kr);
        lemma_lone_keys_len(table@, pk@, kr, sm, "missing"@, "present"@);
        assert(l1 + l2 + shared_diffs(table@, cv, ks.take(0), sm, rm, snap, replay) =~= l1 + l2);
    }
    // Keys both sides hold, column by column.
    let mut c: usize = 0;
    while c < es.len()
        invariant
            c <= es@.len(),
            snap == snap_rows@,
            replay == replay_rows@,
            ks == entry_keys(es@),
            kr == entry_keys(er@),
            sm == keyed(snap, pk_idx as int),
            rm == keyed(replay, pk_idx as int),
            index_of_rows(es@, snap, pk_idx as int),
            index_of_rows(er@, replay, pk_idx as int),
            cv == col_names(cols@),
            cn == cols@.len(),
            bound == st0.0 + ns + nr + cn * ns,
            ns == snap.len(),
            nr == replay.len(),
            bound < usize::MAX,
            l1.len() <= ns,
            l2.len() <= nr,
            same_totals(*report, r1),
            report_state(*report) == after_diffs(st0, ledger@, l1 + l2 + shared_diffs(table@, cv, ks.take(c as int), sm, rm, snap, replay)),
        decreases es@.len() - c,
    {
        let ghost prev = l1 + l2 + shared_diffs(table@, cv, ks.take(c as int), sm, rm, snap, replay);
        proof {
            lemma_shared_len(table@, cv, ks.take(c as int), sm, rm, snap, replay);
            assert(ks.take(c + 1).drop_last() =~= ks.take(c as int));
            assert(ks[c as int] == es@[c as int].0@);
            assert(points_at(sm, es@[c as int], ns as int));
            assert((c + 1) * cn <= ns * cn) by (nonlinear_arith)
                requires
                    c + 1 <= ns,
                    cn >= 0,
            ;
            assert((c + 1) * cn == c * cn + cn) by (nonlinear_arith);
            assert(ns * cn == cn * ns) by (nonlinear_arith);
        }
        let key = es[c].0.as_str();
        let si = es[c].1;
        match find_entry(&er, key) {
            Some(p) => {
                let ri = er[p].1;
                proof {
                    assert(kr[p as int] == key@);
                    assert(points_at(rm, er@[p as int], nr as int));
                }
                let srow = &snap_rows[si];
                let rrow = &replay_rows[ri];
                let mut ci: usize = 0;
                while ci < cols.len()
                    invariant
                        ci <= cols@.len(),
                        cv == col_names(cols@),
                        cn == cols@.len(),
                        *srow == snap[sm[key@]],
                        *rrow == replay[rm[key@]],
                        bound < usize::MAX,
                        same_totals(*report, r1),
                        prev.len() + cn <= bound - st0.0,
                        report_state(*report) == after_diffs(st0, ledger@, prev + row_diffs(table@, key@, cv, srow@, rrow@, ci as int)),
                    decreases cols@.len() - ci,
                {
                    let ghost sofar = prev + row_diffs(table@, key@, cv, srow@, rrow@, ci as int);
                    proof {
                        lemma_row_diffs_len(table@, key@, cv, srow@, rrow@, ci as int);
                        lemma_after_diffs_known_bound(st0, ledger@, sofar);
                        assert(cols@[ci as int]@ == cv[ci as int]);
                    }
                    let e = cell_text(srow, ci);
                    let v = cell_text(rrow, ci);
                    push_diff(report, ledger, table, key, cols[ci], e, v);
                    proof {
                        let d = (table@, key@, cv[ci as int], cell(srow@, ci as int), cell(rrow@, ci as int));
                        lemma_after_diffs_push(st0, ledger@, sofar, d);
                        assert(sofar.push(d) =~= prev + row_diffs(table@, key@, cv, srow@, rrow@, ci + 1));
                    }
                    ci = ci + 1;
                }
                proof {
                    assert(rm.dom().contains(key@));
                    assert(prev + row_diffs(table@, key@, cv, srow@, rrow@, cn) =~= l1 + l2 + shared_diffs(table@, cv, ks.take(c + 1), sm, rm, snap, replay));
                }
            },
            None => {
                proof {
                    assert(!rm.dom().contains(key@));
                    assert(prev =~= l1 + l2 + shared_diffs(table@, cv, ks.take(c + 1), sm, rm, snap, replay));
                }
            },
        }
        c = c + 1;
    }
    proof {
        assert(ks.take(es@.len() as int) =~= ks);
        assert(l1 + l2 + shared_diffs(table@, cv, ks, sm, rm, snap, replay) =~= keyed_diffs(table@, pk@, cv, snap, replay, pk_idx as int));
    }
    Ok(())
}

/// The tray columns the replay rebuilds (the growth and blackout days fixed at
/// sowing are left out).
pub open spec fn tray_cols() -> Seq<Seq<char>> {
    seq![
        "id"@, "crop_id"@, "state"@, "quantity"@, "planned_on"@, "sown_on"@, "blackout_on"@,
        "light_on"@, "harvested_on"@, "discarded_on"@, "actual_yield_oz"@, "created_at"@,
        "updated_at"@,
    ]
}

pub fn tray_columns() -> (r: Vec<&'static str>)
    ensures
        col_names(r@) == tray_cols(),
{
    let v = vec![
        "id", "crop_id", "state", "quantity", "planned_on", "sown_on", "blackout_on", "light_on",
        "harvested_on", "discarded_on", "actual_yield_oz", "created_at", "updated_at",
    ];
    assert(col_names(v@) =~= tray_cols());
    v
}

/// The order columns the replay rebuilds.
pub open spec fn order_cols() -> Seq<Seq<char>> {
    seq![
        "id"@, "stripe_session_id"@, "stripe_payment_intent"@, "harvest_date"@, "crop_id"@,
        "quantity"@, "amount_cents"@, "currency"@, "customer_email"@, "state"@,
        "capacity_consumed"@, "paid_at"@, "created_at"@, "updated_at"@, "client_reference"@,
    ]
}

pub fn order_columns() -> (r: Vec<&'static str>)
    ensures
        col_names(r@) == order_cols(),
{
    let v = vec![
        "id", "stripe_session_id", "stripe_payment_intent", "harvest_date", "crop_id", "quantity",
        "amount_cents", "currency", "customer_email", "state", "capacity_consumed", "paid_at",
        "created_at", "updated_at", "client_reference",
    ];
    assert(col_names(v@) =~= order_cols());
    v
}

/// Compares the trays of both sides, keyed by `id` (rows read in the order of
/// `tray_columns`).
pub fn compare_trays(
    report: &mut CompareReport,
    ledger: &Vec<KnownDivergence>,
    snap_rows: &Vec<Vec<String>>,
    replay_rows: &Vec<Vec<String>>,
)
    requires
        old(report).tables_compared < usize::MAX,
        old(report).rows_compared + max_len(snap_rows@.len() as int, replay_rows@.len() as int) <= usize::MAX,
        old(report).known_divergences + snap_rows@.len() + replay_rows@.len() + 13 * snap_rows@.len() < usize::MAX,
    ensures
        final(report).tables_compared == old(report).tables_compared + 1,
        final(report).rows_compared == old(report).rows_compared + max_len(snap_rows@.len() as int, replay_rows@.len() as int),
        same_totals_but_counts(*final(report), *old(report)),
        report_state(*final(report)) == after_diffs(
            report_state(*old(report)),
            ledger@,
            keyed_diffs("trays"@, "id"@, tray_cols(), snap_rows@, replay_rows@, 0),
        ),
{
    let cols = tray_columns();
    proof {
        reveal_strlit("id");
        assert(col_position(tray_cols(), "id"@, 0) == 0);
    }
    let r = compare_keyed(report, ledger, "trays", "id", &cols, snap_rows, replay_rows);
    proof {
        assert(r is Ok);
    }
}

/// Compares the orders of both sides, keyed by `id` (rows read in the order of
/// `order_columns`).
pub fn compare_orders(
    report: &mut CompareReport,
    ledger: &Vec<KnownDivergence>,
    snap_rows: &Vec<Vec<String>>,
    replay_rows: &Vec<Vec<String>>,
)
    requires
        old(report).tables_compared < usize::MAX,
        old(report).rows_compared + max_len(snap_rows@.len() as int, replay_rows@.len() as int) <= usize::MAX,
        old(report).known_divergences + snap_rows@.len() + replay_rows@.len() + 15 * snap_rows@.len() < usize::MAX,
    ensures
        final(report).tables_compared == old(report).tables_compared + 1,
        final(report).rows_compared == old(report).rows_compared + max_len(snap_rows@.len() as int, replay_rows@.len() as int),
        same_totals_but_counts(*final(report), *old(report)),
        report_state(*final(report)) == after_diffs(
            report_state(*old(report)),
            ledger@,
            keyed_diffs("orders"@, "id"@, order_cols(), snap_rows@, replay_rows@, 0),
        ),
{
    let cols = order_columns();
    proof {
        reveal_strlit("id");
        assert(col_position(order_cols(), "id"@, 0) == 0);
    }
    let r = compare_keyed(report, ledger, "orders", "id", &cols, snap_rows, replay_rows);
    proof {
        assert(r is Ok);
    }
}

/// The report fields a table comparison leaves alone.
pub open spec fn same_totals_but_counts(a: CompareReport, b: CompareReport) -> bool {
    &&& a.events_read == b.events_read
    &&& a.events_replayed == b.events_replayed
    &&& a.watermark == b.watermark
    &&& a.live_max_seq == b.live_max_seq
    &&& a.flush_lag == b.flush_lag
    &&& a.exclusions@ == b.exclusions@
}

// --- a table compared with itself ---------------------------------------------------

/// `k` placed into an ascending key list.
pub open spec fn sorted_insert(ks: Seq<Seq<char>>, k: Seq<char>) -> Seq<Seq<char>>
    decreases ks.len(),
{
    if ks.len() == 0 {
        seq![k]
    } else if lex_lt(k, ks[0]) {
        seq![k] + ks
    } else if k == ks[0] {
        ks
    } else {
        seq![ks[0]] + sorted_insert(ks.drop_first(), k)
    }
}

proof fn lemma_sorted_insert(ks: Seq<Seq<char>>, k: Seq<char>)
    requires
        strictly_sorted(ks),
    ensures
        strictly_sorted(sorted_insert(ks, k)),
        forall|q: Seq<char>| #[trigger] sorted_insert(ks, k).contains(q) <==> (ks.contains(q) || q == k),
        sorted_insert(ks, k).len() > 0 ==> (sorted_insert(ks, k)[0] == k || (ks.len() > 0 && sorted_insert(ks, k)[0] == ks[0])),
    decreases ks.len(),
{
    let r = sorted_insert(ks, k);
    if ks.len() == 0 {
        assert(r[0] == k);
        assert forall|q: Seq<char>| r.contains(q) <==> (ks.contains(q) || q == k) by {
            if q == k {
                assert(r[0] == q);
            }
        }
    } else if lex_lt(k, ks[0]) {
        assert forall|a: int, b: int| 0 <= a < b < r.len() implies lex_lt(#[trigger] r[a], #[trigger] r[b]) by {
            if a == 0 {
                assert(r[b] == ks[b - 1]);
                if b - 1 > 0 {
                    assert(lex_lt(ks[0], ks[b - 1]));
                    lemma_lex_transitive(k, ks[0], ks[b - 1]);
                }
            } else {
                assert(r[a] == ks[a - 1] && r[b] == ks[b - 1]);
            }
        }
        assert forall|q: Seq<char>| r.contains(q) <==> (ks.contains(q) || q == k) by {
            if r.contains(q) {
                let t = choose|t: int| 0 <= t < r.len() && r[t] == q;
                if t > 0 {
                    assert(ks[t - 1] == q);
                }
            }
            if ks.contains(q) {
                let t = choose|t: int| 0 <= t < ks.len() && ks[t] == q;
                assert(r[t + 1] == q);
            }
            if q == k {
                assert(r[0] == q);
            }
        }
    } else if k == ks[0] {
    } else {
        let rest = ks.drop_first();
        assert forall|a: int, b: int| 0 <= a < b < rest.len() implies lex_lt(#[trigger] rest[a], #[trigger] rest[b]) by {
            assert(rest[a] == ks[a + 1] && rest[b] == ks[b + 1]);
        }
        lemma_sorted_insert(rest, k);
        let tail = sorted_insert(rest, k);
        lemma_lex_trichotomy(k, ks[0]);
        assert(lex_lt(ks[0], k));
        assert forall|a: int, b: int| 0 <= a < b < r.len() implies lex_lt(#[trigger] r[a], #[trigger] r[b]) by {
            if a == 0 {
                assert(r[b] == tail[b - 1]);
                assert(tail.contains(tail[b - 1]));
                if tail[b - 1] == k {
                } else {
                    assert(rest.contains(tail[b - 1]));
                    let t = choose|t: int| 0 <= t < rest.len() && rest[t] == tail[b - 1];
                    assert(ks[t + 1] == rest[t]);
                    assert(lex_lt(ks[0], ks[t + 1]));
                }
            } else {
                assert(r[a] == tail[a - 1] && r[b] == tail[b - 1]);
            }
        }
        assert forall|q: Seq<char>| r.contains(q) <==> (ks.contains(q) || q == k) by {
            if r.contains(q) {
                let t = choose|t: int| 0 <= t < r.len() && r[t] == q;
                if t == 0 {
                    assert(ks[0] == q);
                } else {
                    assert(tail[t - 1] == q);
                    assert(tail.contains(q));
                    if q != k {
                        assert(rest.contains(q));
                        let u = choose|u: int| 0 <= u < rest.len() && rest[u] == q;
                        assert(ks[u + 1] == q);
                    }
                }
            }
            if ks.contains(q) {
                let t = choose|t: int| 0 <= t < ks.len() && ks[t] == q;
                if t == 0 {
                    assert(r[0] == q);
                } else {
                    assert(rest[t - 1] == q);
                    assert(rest.contains(q));
                    assert(tail.contains(q));
                    let u = choose|u: int| 0 <= u < tail.len() && tail[u] == q;
                    assert(r[u + 1] == q);
                }
            }
            if q == k {
                assert(tail.contains(k));
                let u = choose|u: int| 0 <= u < tail.len() && tail[u] == k;
                assert(r[u + 1] == k);
            }
        }
    }
}

/// The keys of any set of rows can be listed in ascending order.
proof fn lemma_key_order_exists(rows: Seq<Vec<String>>, pk: int)
    ensures
        lists_keys(key_order(keyed(rows, pk)), keyed(rows, pk)),
    decreases rows.len(),
{
    let m = keyed(rows, pk);
    if rows.len() == 0 {
        let e = Seq::<Seq<char>>::empty();
        assert(lists_keys(e, m));
    } else {
        let pre = rows.drop_last();
        lemma_key_order_exists(pre, pk);
        let ks = key_order(keyed(pre, pk));
        match row_key(rows, pk, rows.len() - 1) {
            Some(k) => {
                lemma_sorted_insert(ks, k);
                let w = sorted_insert(ks, k);
                assert(m == keyed(pre, pk).insert(k, rows.len() - 1));
                assert forall|q: Seq<char>| w.contains(q) <==> m.dom().contains(q) by {
                    assert(w.contains(q) <==> (ks.contains(q) || q == k));
                    assert(ks.contains(q) <==> keyed(pre, pk).dom().contains(q));
                }
                assert(lists_keys(w, m));
            },
            None => {
                assert(lists_keys(ks, m));
            },
        }
    }
}

proof fn lemma_lone_keys_none(
    table: Seq<char>,
    pk_name: Seq<char>,
    ks: Seq<Seq<char>>,
    other: Map<Seq<char>, int>,
    here: Seq<char>,
    there: Seq<char>,
)
    requires
        forall|i: int| 0 <= i < ks.len() ==> other.dom().contains(#[trigger] ks[i]),
    ensures
        lone_keys(table, pk_name, ks, other, here, there) == Seq::<(Seq<char>, Seq<char>, Seq<char>, Seq<char>, Seq<char>)>::empty(),
    decreases ks.len(),
{
    if ks.len() > 0 {
        let d = ks.drop_last();
        assert forall|i: int| 0 <= i < d.len() implies other.dom().contains(#[trigger] d[i]) by {
            assert(d[i] == ks[i]);
        }
        lemma_lone_keys_none(table, pk_name, d, other, here, there);
        assert(other.dom().contains(ks[ks.len() - 1]));
    }
}

proof fn lemma_shared_same(
    table: Seq<char>,
    cols: Seq<Seq<char>>,
    ks: Seq<Seq<char>>,
    m: Map<Seq<char>, int>,
    rows: Seq<Vec<String>>,
)
    ensures
        all_equal(shared_diffs(table, cols, ks, m, m, rows, rows)),
    decreases ks.len(),
{
    if ks.len() > 0 {
        lemma_shared_same(table, cols, ks.drop_last(), m, rows);
        let k = ks.last();
        if m.dom().contains(k) {
            lemma_row_diffs_same_row(table, k, cols, rows[m[k]]@, cols.len() as int);
            lemma_all_equal_concat(
                shared_diffs(table, cols, ks.drop_last(), m, m, rows, rows),
                row_diffs(table, k, cols, rows[m[k]]@, rows[m[k]]@, cols.len() as int),
            );
        }
    }
}

/// A table compared with an identical rebuild reports nothing: no key is
/// missing on either side, every cell matches, and the report keeps its
/// counts, matched entries and differences.
pub proof fn lemma_same_rows_report_nothing(
    st: (int, Seq<(Seq<char>, Seq<char>, Seq<char>, Seq<char>, Seq<char>)>, Seq<(Seq<char>, Seq<char>, Seq<char>, Seq<char>, Seq<char>)>),
    ledger: Seq<KnownDivergence>,
    table: Seq<char>,
    pk_name: Seq<char>,
    cols: Seq<Seq<char>>,
    rows: Seq<Vec<String>>,
    pk: int,
)
    ensures
        after_diffs(st, ledger, keyed_diffs(table, pk_name, cols, rows, rows, pk)) == st,
{
    let m = keyed(rows, pk);
    lemma_key_order_exists(rows, pk);
    let ks = key_order(m);
    assert forall|i: int| 0 <= i < ks.len() implies m.dom().contains(#[trigger] ks[i]) by {
        assert(ks.contains(ks[i]));
    }
    lemma_lone_keys_none(table, pk_name, ks, m, "present"@, "missing"@);
    lemma_lone_keys_none(table, pk_name, ks, m, "missing"@, "present"@);
    lemma_shared_same(table, cols, ks, m, rows);
    assert(keyed_diffs(table, pk_name, cols, rows, rows, pk) =~= shared_diffs(table, cols, ks, m, m, rows, rows));
    lemma_equal_cells_change_nothing(st, ledger, keyed_diffs(table, pk_name, cols, rows, rows, pk));
}


// --- every column of a shared key is compared -----------------------------------

proof fn lemma_row_diffs_at(table: Seq<char>, key: Seq<char>, cols: Seq<Seq<char>>, srow: Seq<String>, rrow: Seq<String>, c: int)
    requires
        0 <= c,
    ensures
        row_diffs(table, key, cols, srow, rrow, c).len() == c,
        forall|j: int| 0 <= j < c ==> #[trigger] row_diffs(table, key, cols, srow, rrow, c)[j] == (table, key, cols[j], cell(srow, j), cell(rrow, j)),
    decreases c,
{
    if c > 0 {
        lemma_row_diffs_at(table, key, cols, srow, rrow, c - 1);
        let p = row_diffs(table, key, cols, srow, rrow, c - 1);
        assert forall|j: int| 0 <= j < c implies #[trigger] row_diffs(table, key, cols, srow, rrow, c)[j] == (table, key, cols[j], cell(srow, j), cell(rrow, j)) by {
            if j < c - 1 {
                assert(row_diffs(table, key, cols, srow, rrow, c)[j] == p[j]);
            }
        }
    }
}

proof fn lemma_shared_has_key(
    table: Seq<char>,
    cols: Seq<Seq<char>>,
    ks: Seq<Seq<char>>,
    sm: Map<Seq<char>, int>,
    rm: Map<Seq<char>, int>,
    snap: Seq<Vec<String>>,
    replay: Seq<Vec<String>>,
    k: Seq<char>,
)
    requires
        ks.contains(k),
        rm.dom().contains(k),
    ensures
        forall|j: int| 0 <= j < cols.len() ==> shared_diffs(table, cols, ks, sm, rm, snap, replay).contains(
            (table, k, #[trigger] cols[j], cell(snap[sm[k]]@, j), cell(replay[rm[k]]@, j)),
        ),
    decreases ks.len(),
{
    let prev = shared_diffs(table, cols, ks.drop_last(), sm, rm, snap, replay);
    let whole = shared_diffs(table, cols, ks, sm, rm, snap, replay);
    if ks.last() == k {
        let rd = row_diffs(table, k, cols, snap[sm[k]]@, replay[rm[k]]@, cols.len() as int);
        lemma_row_diffs_at(table, k, cols, snap[sm[k]]@, replay[rm[k]]@, cols.len() as int);
        assert(whole == prev + rd);
        assert forall|j: int| 0 <= j < cols.len() implies whole.contains((table, k, #[trigger] cols[j], cell(snap[sm[k]]@, j), cell(replay[rm[k]]@, j))) by {
            assert(whole[prev.len() + j] == rd[j]);
        }
    } else {
        let i = choose|i: int| 0 <= i < ks.len() && ks[i] == k;
        assert(ks.drop_last()[i] == k);
        lemma_shared_has_key(table, cols, ks.drop_last(), sm, rm, snap, replay, k);
        assert forall|j: int| 0 <= j < cols.len() implies whole.contains((table, k, #[trigger] cols[j], cell(snap[sm[k]]@, j), cell(replay[rm[k]]@, j))) by {
            let x = (table, k, cols[j], cell(snap[sm[k]]@, j), cell(replay[rm[k]]@, j));
            assert(prev.contains(x));
            let m = choose|m: int| 0 <= m < prev.len() && prev[m] == x;
            if rm.dom().contains(ks.last()) {
                assert(whole == prev + row_diffs(table, ks.last(), cols, snap[sm[ks.last()]]@, replay[rm[ks.last()]]@, cols.len() as int));
            }
            assert(whole[m] == x);
        }
    }
}

/// For a key both sides hold, a keyed comparison holds one cell pair for
/// every column: the column's name, the live cell and the rebuilt cell (of
/// the last row that carries the key on each side).
pub proof fn lemma_keyed_compares_every_column(
    table: Seq<char>,
    pk_name: Seq<char>,
    cols: Seq<Seq<char>>,
    snap: Seq<Vec<String>>,
    replay: Seq<Vec<String>>,
    pk: int,
    k: Seq<char>,
)
    requires
        keyed(snap, pk).dom().contains(k),
        keyed(replay, pk).dom().contains(k),
    ensures
        forall|j: int| 0 <= j < cols.len() ==> keyed_diffs(table, pk_name, cols, snap, replay, pk).contains(
            (table, k, #[trigger] cols[j], cell(snap[keyed(snap, pk)[k]]@, j), cell(replay[keyed(replay, pk)[k]]@, j)),
        ),
{
    let sm = keyed(snap, pk);
    let rm = keyed(replay, pk);
    lemma_key_order_exists(snap, pk);
    assert(key_order(sm).contains(k));
    lemma_shared_has_key(table, cols, key_order(sm), sm, rm, snap, replay, k);
    let a = lone_keys(table, pk_name, key_order(sm), rm, "present"@, "missing"@)
        + lone_keys(table, pk_name, key_order(rm), sm, "missing"@, "present"@);
    let c = shared_diffs(table, cols, key_order(sm), sm, rm, snap, replay);
    assert(keyed_diffs(table, pk_name, cols, snap, replay, pk) == a + c);
    assert forall|j: int| 0 <= j < cols.len() implies keyed_diffs(table, pk_name, cols, snap, replay, pk).contains(
        (table, k, #[trigger] cols[j], cell(snap[sm[k]]@, j), cell(replay[rm[k]]@, j))) by {
        let x = (table, k, cols[j], cell(snap[sm[k]]@, j), cell(replay[rm[k]]@, j));
        assert(c.contains(x));
        let m = choose|m: int| 0 <= m < c.len() && c[m] == x;
        assert((a + c)[a.len() + m] == x);
    }
}

/// A differing cell pair that no ledger entry explains ends among the
/// unexplained differences, whatever else is compared.
pub proof fn lemma_unexplained_difference_reported(
    st: (int, Seq<(Seq<char>, Seq<char>, Seq<char>, Seq<char>, Seq<char>)>, Seq<(Seq<char>, Seq<char>, Seq<char>, Seq<char>, Seq<char>)>),
    ledger: Seq<KnownDivergence>,
    ds: Seq<(Seq<char>, Seq<char>, Seq<char>, Seq<char>, Seq<char>)>,
    d: (Seq<char>, Seq<char>, Seq<char>, Seq<char>, Seq<char>),
)
    requires
        ds.contains(d),
        d.3 != d.4,
        forall|i: int| 0 <= i < ledger.len() ==> !((#[trigger] ledger[i]).table@ == d.0 && ledger[i].pk@ == d.1 && ledger[i].column@ == d.2),
    ensures
        after_diffs(st, ledger, ds).2.contains(d),
    decreases ds.len(),
{
    lemma_ledger_misses(ledger, d.0, d.1, d.2, 0);
    let prev = after_diffs(st, ledger, ds.drop_last());
    if ds.last() == d {
        assert(after_diffs(st, ledger, ds).2 == prev.2.push(d));
        assert(after_diffs(st, ledger, ds).2[prev.2.len() as int] == d);
    } else {
        let i = choose|i: int| 0 <= i < ds.len() && ds[i] == d;
        assert(ds.drop_last()[i] == d);
        lemma_unexplained_difference_reported(st, ledger, ds.drop_last(), d);
        let m = choose|m: int| 0 <= m < prev.2.len() && prev.2[m] == d;
        let next = after_diff(prev, ledger, ds.last());
        assert(next.2.len() >= prev.2.len() && next.2[m] == prev.2[m]);
        assert(after_diffs(st, ledger, ds) == next);
    }
}

proof fn lemma_ledger_misses(ledger: Seq<KnownDivergence>, table: Seq<char>, key: Seq<char>, field: Seq<char>, i: int)
    requires
        0 <= i,
        forall|j: int| 0 <= j < ledger.len() ==> !((#[trigger] ledger[j]).table@ == table && ledger[j].pk@ == key && ledger[j].column@ == field),
    ensures
        ledger_find(ledger, table, key, field, i) == -1,
    decreases ledger.len() - i,
{
    if i < ledger.len() {
        lemma_ledger_misses(ledger, table, key, field, i + 1);
    }
}

/// Comparing orders covers every rebuilt order column: for an order both
/// sides hold, each of the fifteen columns (id, Stripe session and payment
/// intent, harvest date, crop, quantity, amount, currency, email, state,
/// capacity held, paid time, created and updated times, cart reference) is
/// compared, live cell against rebuilt cell; so a state that differs, with no
/// ledger entry for it, is an unexplained difference on `state`.
pub proof fn lemma_orders_compare_every_column(
    st: (int, Seq<(Seq<char>, Seq<char>, Seq<char>, Seq<char>, Seq<char>)>, Seq<(Seq<char>, Seq<char>, Seq<char>, Seq<char>, Seq<char>)>),
    ledger: Seq<KnownDivergence>,
    snap: Seq<Vec<String>>,
    replay: Seq<Vec<String>>,
    k: Seq<char>,
)
    requires
        keyed(snap, 0).dom().contains(k),
        keyed(replay, 0).dom().contains(k),
    ensures
        order_cols().len() == 15,
        forall|j: int| 0 <= j < 15 ==> keyed_diffs("orders"@, "id"@, order_cols(), snap, replay, 0).contains(
            ("orders"@, k, seq![
                "id"@, "stripe_session_id"@, "stripe_payment_intent"@, "harvest_date"@, "crop_id"@,
                "quantity"@, "amount_cents"@, "currency"@, "customer_email"@, "state"@,
                "capacity_consumed"@, "paid_at"@, "created_at"@, "updated_at"@, "client_reference"@,
            ][j], #[trigger] cell(snap[keyed(snap, 0)[k]]@, j), cell(replay[keyed(replay, 0)[k]]@, j)),
        ),
        cell(snap[keyed(snap, 0)[k]]@, 9) != cell(replay[keyed(replay, 0)[k]]@, 9)
            && (forall|i: int| 0 <= i < ledger.len() ==> !((#[trigger] ledger[i]).table@ == "orders"@ && ledger[i].pk@ == k && ledger[i].column@ == "state"@))
            ==> after_diffs(st, ledger, keyed_diffs("orders"@, "id"@, order_cols(), snap, replay, 0)).2.contains(
                ("orders"@, k, "state"@, cell(snap[keyed(snap, 0)[k]]@, 9), cell(replay[keyed(replay, 0)[k]]@, 9)),
            ),
{
    lemma_keyed_compares_every_column("orders"@, "id"@, order_cols(), snap, replay, 0, k);
    let d = ("orders"@, k, "state"@, cell(snap[keyed(snap, 0)[k]]@, 9), cell(replay[keyed(replay, 0)[k]]@, 9));
    if d.3 != d.4 && (forall|i: int| 0 <= i < ledger.len() ==> !((#[trigger] ledger[i]).table@ == "orders"@ && ledger[i].pk@ == k && ledger[i].column@ == "state"@)) {
        assert(keyed_diffs("orders"@, "id"@, order_cols(), snap, replay, 0).contains(d));
        lemma_unexplained_difference_reported(st, ledger, keyed_diffs("orders"@, "id"@, order_cols(), snap, replay, 0), d);
    }
}

} // verus!
