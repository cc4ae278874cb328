//! Snapshots of the farm file: their names, which ones are kept, and the
//! files that sit beside the farm file.

use chrono::{Datelike, TimeZone};
use vstd::prelude::*;
use crate::dates::{days_from_ce, is_real_date, real_date};
use crate::models::SnapshotInfo;
use crate::text::{
    all_digits, digits_value, ends_with, find_dash, has_prefix, has_suffix, lemma_lex_irreflexive,
    lemma_lex_le_transitive, lemma_lex_not_lt_is_ge, lemma_lex_transitive, lemma_lex_trichotomy,
    lemma_next_dash_bounds, lex_le, lex_lt, next_dash, parse_i32, parse_u32, push_nat, push_str,
    starts_with, std_parse_i32, std_parse_u32, str_lt, dec_nat,
};

verus! {

/// A moment as the retention rule reads it: the instant (nanoseconds since the
/// Unix epoch) and the local calendar day it falls on (days from the common era).
#[derive(Debug, Clone, Copy, PartialEq, Eq, Structural)]
pub struct Stamp {
    pub instant_nanos: i128,
    pub local_day: i32,
}

#[derive(Debug)]
pub struct SnapshotEntry {
    pub path: String,
    pub taken: Stamp,
}

pub open spec fn hours_48_nanos() -> int {
    172_800_000_000_000int
}

/// The last 30 calendar days, today included.
pub open spec fn in_window(day: int, today: int) -> bool {
    today - 29 <= day <= today
}

/// Snapshot `i` is the newest of its day: later than every earlier snapshot of
/// that day and no earlier than any later one (ties go to the first seen).
pub open spec fn newest_of_day(es: Seq<SnapshotEntry>, i: int) -> bool {
    &&& forall|j: int| 0 <= j < i && (#[trigger] es[j]).taken.local_day == es[i].taken.local_day ==> es[j].taken.instant_nanos < es[i].taken.instant_nanos
    &&& forall|j: int| i < j < es.len() && (#[trigger] es[j]).taken.local_day == es[i].taken.local_day ==> es[j].taken.instant_nanos <= es[i].taken.instant_nanos
}

/// Kept: taken in the last 48 hours, or the newest of its day within the
/// last 30 days.
pub open spec fn kept(es: Seq<SnapshotEntry>, now: Stamp, i: int) -> bool {
    ||| es[i].taken.instant_nanos >= now.instant_nanos - hours_48_nanos()
    ||| (in_window(es[i].taken.local_day as int, now.local_day as int) && newest_of_day(es, i))
}

/// The kept paths among the first `k` snapshots, in order.
pub open spec fn kept_paths(es: Seq<SnapshotEntry>, now: Stamp, k: int) -> Seq<Seq<char>>
    decreases k,
{
    if k <= 0 {
        Seq::empty()
    } else if kept(es, now, k - 1) {
        kept_paths(es, now, k - 1).push(es[k - 1].path@)
    } else {
        kept_paths(es, now, k - 1)
    }
}

fn is_newest_of_day(entries: &Vec<SnapshotEntry>, i: usize) -> (r: bool)
    requires
        i < entries@.len(),
    ensures
        r == newest_of_day(entries@, i as int),
{
    let n = entries.len();
    let day = entries[i].taken.local_day;
    let t = entries[i].taken.instant_nanos;
    let mut j: usize = 0;
    while j < n
        invariant
            n == entries@.len(),
            i < n,
            j <= n,
            day == entries@[i as int].taken.local_day,
            t == entries@[i as int].taken.instant_nanos,
            forall|k: int| 0 <= k < j && k < i && (#[trigger] entries@[k]).taken.local_day == day ==> entries@[k].taken.instant_nanos < t,
            forall|k: int| 0 <= k < j && i < k && (#[trigger] entries@[k]).taken.local_day == day ==> entries@[k].taken.instant_nanos <= t,
        decreases n - j,
    {
        let e = &entries[j];
        if e.taken.local_day == day {
            if j < i && e.taken.instant_nanos >= t {
                return false;
            }
            if j > i && e.taken.instant_nanos > t {
                return false;
            }
        }
        j = j + 1;
    }
    true
}

/// Retention: keep every snapshot from the last 48 hours, plus the newest of
/// each of the last 30 calendar days; the rest may be deleted. Returns the
/// paths kept, in the order given.
pub fn retention_keep_set(entries: &Vec<SnapshotEntry>, now: &Stamp) -> (r: Vec<String>)
    requires
        -0x1_0000_0000_0000_0000_0000_0000 <= now.instant_nanos <= 0x1_0000_0000_0000_0000_0000_0000,
        now.local_day >= -0x7fff_0000,
    ensures
        r@.map_values(|s: String| s@) == kept_paths(entries@, *now, entries@.len() as int),
{
    let cutoff: i128 = now.instant_nanos - 172_800_000_000_000;
    let today = now.local_day;
    let first_day = today - 29;
    let n = entries.len();
    let mut out: Vec<String> = Vec::new();
    let mut i: usize = 0;
    while i < n
        invariant
            n == entries@.len(),
            i <= n,
            cutoff == now.instant_nanos - hours_48_nanos(),
            today == now.local_day,
            first_day == today - 29,
            out@.map_values(|s: String| s@) == kept_paths(entries@, *now, i as int),
        decreases n - i,
    {
        let e = &entries[i];
        let recent = e.taken.instant_nanos >= cutoff;
        let keep = recent || (first_day <= e.taken.local_day && e.taken.local_day <= today && is_newest_of_day(entries, i));
        if keep {
            let ghost before = out@;
            out.push(e.path.clone());
            proof {
                assert(out@.map_values(|s: String| s@) =~= before.map_values(|s: String| s@).push(e.path@));
            }
        }
        i = i + 1;
    }
    out
}

/// Every snapshot from the last 48 hours is kept.
pub proof fn lemma_recent_kept(es: Seq<SnapshotEntry>, now: Stamp, i: int)
    requires
        0 <= i < es.len(),
        es[i].taken.instant_nanos >= now.instant_nanos - hours_48_nanos(),
    ensures
        kept(es, now, i),
{
}

/// At most one snapshot counts as the newest of a day.
pub proof fn lemma_one_newest_per_day(es: Seq<SnapshotEntry>, i: int, j: int)
    requires
        0 <= i < es.len(),
        0 <= j < es.len(),
        es[i].taken.local_day == es[j].taken.local_day,
        newest_of_day(es, i),
        newest_of_day(es, j),
    ensures
        i == j,
{
    if i < j {
        assert(es[i].taken.instant_nanos < es[j].taken.instant_nanos);
        assert(es[j].taken.instant_nanos <= es[i].taken.instant_nanos);
    } else if j < i {
        assert(es[j].taken.instant_nanos < es[i].taken.instant_nanos);
        assert(es[i].taken.instant_nanos <= es[j].taken.instant_nanos);
    }
}

/// Among the first `k` snapshots of `day`, the first one with the latest instant, or -1.
pub open spec fn best_of_day(es: Seq<SnapshotEntry>, day: int, k: int) -> int
    decreases k,
{
    if k <= 0 {
        -1
    } else {
        let b = best_of_day(es, day, k - 1);
        if es[k - 1].taken.local_day != day {
            b
        } else if b < 0 || es[b].taken.instant_nanos < es[k - 1].taken.instant_nanos {
            k - 1
        } else {
            b
        }
    }
}

proof fn lemma_best_of_day(es: Seq<SnapshotEntry>, day: int, k: int)
    requires
        0 <= k <= es.len(),
    ensures
        best_of_day(es, day, k) < k,
        best_of_day(es, day, k) >= 0 ==> es[best_of_day(es, day, k)].taken.local_day == day,
        (exists|j: int| 0 <= j < k && es[j].taken.local_day == day) ==> best_of_day(es, day, k) >= 0,
        best_of_day(es, day, k) >= 0 ==> {
            let b = best_of_day(es, day, k);
            &&& forall|j: int| 0 <= j < b && (#[trigger] es[j]).taken.local_day == day ==> es[j].taken.instant_nanos < es[b].taken.instant_nanos
            &&& forall|j: int| b < j < k && (#[trigger] es[j]).taken.local_day == day ==> es[j].taken.instant_nanos <= es[b].taken.instant_nanos
        },
    decreases k,
{
    if k > 0 {
        lemma_best_of_day(es, day, k - 1);
        let b = best_of_day(es, day, k - 1);
        if (exists|j: int| 0 <= j < k && es[j].taken.local_day == day) && es[k - 1].taken.local_day != day {
            let j = choose|j: int| 0 <= j < k && es[j].taken.local_day == day;
            assert(j < k - 1);
        }
    }
}

/// Every day of the last 30 that has a snapshot keeps one: its newest.
pub proof fn lemma_each_day_keeps_one(es: Seq<SnapshotEntry>, now: Stamp, i: int)
    requires
        0 <= i < es.len(),
        in_window(es[i].taken.local_day as int, now.local_day as int),
    ensures
        exists|k: int| 0 <= k < es.len() && es[k].taken.local_day == es[i].taken.local_day && newest_of_day(es, k) && kept(es, now, k),
{
    let day = es[i].taken.local_day as int;
    lemma_best_of_day(es, day, es.len() as int);
    let b = best_of_day(es, day, es.len() as int);
    assert(newest_of_day(es, b));
    assert(kept(es, now, b));
}

// --- Snapshot names ---------------------------------------------------------------

/// The fields of a snapshot file name `farm-YYYY-MM-DD-HHMMSS[-N].db`.
#[derive(Debug, Clone, Copy, PartialEq, Eq, Structural)]
pub struct SnapshotName {
    pub year: i32,
    pub month: u32,
    pub day: u32,
    pub hour: u32,
    pub minute: u32,
    pub second: u32,
}

/// The text between `farm-` and `.db`, when the name has both.
pub open spec fn name_body(name: Seq<char>) -> Option<Seq<char>> {
    if name.len() >= 8 && has_suffix(name, ".db"@) && has_prefix(name.subrange(0, name.len() - 3), "farm-"@) {
        Some(name.subrange(5, name.len() - 3))
    } else {
        None
    }
}

/// Reads a snapshot name: at least four dash-separated parts after `farm-`,
/// a year, month and day that name a real day, and six digits of time
/// within a day.
pub open spec fn snapshot_name_fields(name: Seq<char>) -> Option<SnapshotName> {
    match name_body(name) {
        None => None,
        Some(rest) => {
            let a = next_dash(rest, 0);
            let b = next_dash(rest, a + 1);
            let c = next_dash(rest, b + 1);
            let e = next_dash(rest, c + 1);
            if !(a < rest.len() && b < rest.len() && c < rest.len()) {
                None
            } else {
                let hms = rest.subrange(c + 1, e);
                match (std_parse_i32(rest.subrange(0, a)), std_parse_u32(rest.subrange(a + 1, b)), std_parse_u32(rest.subrange(b + 1, c))) {
                    (Some(y), Some(m), Some(d)) => {
                        let hh = digits_value(hms.subrange(0, 2));
                        let mm = digits_value(hms.subrange(2, 4));
                        let ss = digits_value(hms.subrange(4, 6));
                        if hms.len() == 6 && all_digits(hms) && is_real_date(y as int, m as int, d as int)
                            && hh < 24 && mm < 60 && ss < 60 {
                            Some(SnapshotName { year: y, month: m, day: d, hour: hh as u32, minute: mm as u32, second: ss as u32 })
                        } else {
                            None
                        }
                    },
                    _ => None,
                }
            }
        },
    }
}

proof fn lemma_all_digits_sub(s: Seq<char>, i: int, j: int)
    requires
        0 <= i <= j <= s.len(),
        all_digits(s),
    ensures
        all_digits(s.subrange(i, j)),
{
    assert forall|k: int| 0 <= k < j - i implies crate::text::is_digit(#[trigger] s.subrange(i, j)[k]) by {
        assert(s.subrange(i, j)[k] == s[i + k]);
    }
}

fn ascii_digits(s: &str) -> (r: bool)
    ensures
        r == all_digits(s@),
{
    let n = s.unicode_len();
    let mut k: usize = 0;
    while k < n
        invariant
            n == s@.len(),
            k <= n,
            forall|q: int| 0 <= q < k ==> crate::text::is_digit(#[trigger] s@[q]),
        decreases n - k,
    {
        let ch = s.get_char(k);
        if !('0' <= ch && ch <= '9') {
            assert(!crate::text::is_digit(s@[k as int]));
            return false;
        }
        k = k + 1;
    }
    true
}

fn two_digit_value(s: &str, at: usize) -> (r: u32)
    requires
        at <= 4,
        at + 2 <= s@.len(),
        all_digits(s@.subrange(at as int, at + 2)),
    ensures
        r == digits_value(s@.subrange(at as int, at + 2)),
{
    let hi = s.get_char(at);
    let lo = s.get_char(at + 1);
    proof {
        let t = s@.subrange(at as int, at + 2);
        assert(t[0] == hi);
        assert(t[1] == lo);
        assert(crate::text::is_digit(t[0]));
        assert(crate::text::is_digit(t[1]));
        assert(t.drop_last().drop_last() =~= Seq::<char>::empty());
        assert(t.drop_last().last() == hi);
        reveal_with_fuel(digits_value, 3);
    }
    ((hi as u32) - 48) * 10 + ((lo as u32) - 48)
}

pub fn parse_snapshot_name(name: &str) -> (r: Option<SnapshotName>)
    ensures
        r == snapshot_name_fields(name@),
{
    let len = name.unicode_len();
    if len < 8 || !ends_with(name, ".db") {
        proof {
            reveal_strlit(".db");
        }
        return None;
    }
    let stem = name.substring_char(0, len - 3);
    if !starts_with(stem, "farm-") {
        return None;
    }
    let rest = name.substring_char(5, len - 3);
    proof {
        reveal_strlit(".db");
        reveal_strlit("farm-");
        assert(name_body(name@) == Some(rest@));
    }
    let n = rest.unicode_len();
    let a = find_dash(rest, 0);
    proof {
        lemma_next_dash_bounds(rest@, 0);
    }
    if a >= n {
        return None;
    }
    let b = find_dash(rest, a + 1);
    proof {
        lemma_next_dash_bounds(rest@, a + 1);
    }
    if b >= n {
        return None;
    }
    let c = find_dash(rest, b + 1);
    proof {
        lemma_next_dash_bounds(rest@, b + 1);
    }
    if c >= n {
        return None;
    }
    let e = find_dash(rest, c + 1);
    proof {
        lemma_next_dash_bounds(rest@, c + 1);
    }
    let y = parse_i32(rest.substring_char(0, a));
    let m = parse_u32(rest.substring_char(a + 1, b));
    let d = parse_u32(rest.substring_char(b + 1, c));
    let (y, m, d) = match (y, m, d) {
        (Some(y), Some(m), Some(d)) => (y, m, d),
        _ => return None,
    };
    let hms = rest.substring_char(c + 1, e);
    let hl = hms.unicode_len();
    if hl != 6 {
        return None;
    }
    if !ascii_digits(hms) {
        return None;
    }
    proof {
        lemma_all_digits_sub(hms@, 0, 2);
        lemma_all_digits_sub(hms@, 2, 4);
        lemma_all_digits_sub(hms@, 4, 6);
    }
    let hh = two_digit_value(hms, 0);
    let mm = two_digit_value(hms, 2);
    let ss = two_digit_value(hms, 4);
    if !real_date(y, m, d) || hh >= 24 || mm >= 60 || ss >= 60 {
        return None;
    }
    Some(SnapshotName { year: y, month: m, day: d, hour: hh, minute: mm, second: ss })
}

/// The name's wall-clock time counted in seconds from the Unix epoch as if it
/// were UTC.
pub open spec fn wall_secs(n: SnapshotName) -> int {
    (days_from_ce(n.year as int, n.month as int, n.day as int) - 719_163) * 86_400 + n.hour * 3600 + n.minute * 60 + n.second
}

/// chrono's `Local.from_local_datetime(..).earliest()` on the name's
/// wall-clock time: the single reading, the earlier of two, or none in a gap
/// or for a date or time that does not exist. It gives the reading's Unix
/// seconds, its nanoseconds within the second and its local day counted from
/// the common era. Trusted, as chrono's source shows it: the reading's local
/// time is the name's own, so its day is the name's date and, whole seconds
/// being given, its nanoseconds are zero; its instant lies the zone's offset
/// away from the wall-clock time, and a `FixedOffset` is always less than a
/// day. Which offset applies, and whether the zone has the time at all,
/// depend on the machine's time zone and are not stated.
#[verifier::external_body]
fn local_reading(n: &SnapshotName) -> (r: Option<(i64, u32, i32)>)
    ensures
        r matches Some((secs, nanos, day)) ==> {
            &&& nanos == 0
            &&& day == days_from_ce(n.year as int, n.month as int, n.day as int)
            &&& wall_secs(*n) - 86_400 < secs < wall_secs(*n) + 86_400
        },
{
    let naive = chrono::NaiveDate::from_ymd_opt(n.year, n.month, n.day)?
        .and_hms_opt(n.hour, n.minute, n.second)?;
    match chrono::Local.from_local_datetime(&naive).earliest() {
        Some(x) => Some((x.timestamp(), x.timestamp_subsec_nanos(), x.date_naive().num_days_from_ce())),
        None => None,
    }
}

/// What a stamp read from a snapshot name says of it: the local day is the
/// name's date, and the instant falls on a whole second less than a day away
/// from the name's wall-clock time.
pub open spec fn stamp_of_name(n: SnapshotName, st: Stamp) -> bool {
    &&& st.local_day == days_from_ce(n.year as int, n.month as int, n.day as int)
    &&& st.instant_nanos % 1_000_000_000 == 0
    &&& (wall_secs(n) - 86_400) * 1_000_000_000 < st.instant_nanos < (wall_secs(n) + 86_400) * 1_000_000_000
}

/// The stamp of a local reading: nanoseconds since the Unix epoch and the
/// local day.
fn local_stamp(n: &SnapshotName) -> (r: Option<Stamp>)
    ensures
        r matches Some(st) ==> stamp_of_name(*n, st),
{
    match local_reading(n) {
        Some((secs, nanos, day)) => {
            let st = stamp_from_reading(secs, nanos, day);
            proof {
                assert(st.instant_nanos == secs * 1_000_000_000);
                assert((secs * 1_000_000_000) % 1_000_000_000 == 0) by (nonlinear_arith);
                assert((wall_secs(*n) - 86_400) * 1_000_000_000 < secs * 1_000_000_000) by (nonlinear_arith)
                    requires
                        wall_secs(*n) - 86_400 < secs,
                ;
                assert(secs * 1_000_000_000 < (wall_secs(*n) + 86_400) * 1_000_000_000) by (nonlinear_arith)
                    requires
                        secs < wall_secs(*n) + 86_400,
                ;
            }
            Some(st)
        },
        None => None,
    }
}

/// The stamp of a clock reading given as Unix seconds, nanoseconds within the
/// second and the local day counted from the common era.
pub fn stamp_from_reading(secs: i64, nanos: u32, local_day: i32) -> (r: Stamp)
    ensures
        r.instant_nanos == secs * 1_000_000_000 + nanos,
        r.local_day == local_day,
        -0x1_0000_0000_0000_0000_0000_0000 <= r.instant_nanos <= 0x1_0000_0000_0000_0000_0000_0000,
{
    let instant: i128 = (secs as i128) * 1_000_000_000 + (nanos as i128);
    Stamp { instant_nanos: instant, local_day }
}

/// When a snapshot was taken, read from its file name in the local time zone.
/// A name that is not a snapshot name gives nothing; a stamp that comes back
/// is on the name's date and less than a day from its wall-clock time. A time
/// the zone skips gives nothing too, which depends on the machine.
pub fn parse_snapshot_stamp(name: &str) -> (r: Option<Stamp>)
    ensures
        snapshot_name_fields(name@) is None ==> r is None,
        r matches Some(st) ==> snapshot_name_fields(name@) matches Some(n) && stamp_of_name(n, st),
{
    match parse_snapshot_name(name) {
        Some(n) => local_stamp(&n),
        None => None,
    }
}

/// `farm-{stamp}.db`, or `farm-{stamp}-{n}.db` for the n-th alternative.
pub open spec fn snapshot_file_text(stamp: Seq<char>, n: nat) -> Seq<char> {
    if n == 0 {
        "farm-"@ + stamp + ".db"@
    } else {
        "farm-"@ + stamp + "-"@ + dec_nat(n) + ".db"@
    }
}

pub fn snapshot_file_name(stamp: &str, n: u32) -> (r: String)
    ensures
        r@ == snapshot_file_text(stamp@, n as nat),
{
    let mut s = String::from_str("farm-");
    push_str(&mut s, stamp);
    if n > 0 {
        push_str(&mut s, "-");
        push_nat(&mut s, n as u64);
    }
    push_str(&mut s, ".db");
    s
}

// --- Files beside the farm file ----------------------------------------------------

/// The farm file's path with `suffix` appended.
pub fn sidecar_path(farm_db_path: &str, suffix: &str) -> (r: String)
    ensures
        r@ == farm_db_path@ + suffix@,
{
    let mut s = String::from_str(farm_db_path);
    push_str(&mut s, suffix);
    s
}

/// SQLite's write-ahead log beside the farm file.
pub fn farm_wal_path(farm_db_path: &str) -> (r: String)
    ensures
        r@ == farm_db_path@ + "-wal"@,
{
    sidecar_path(farm_db_path, "-wal")
}

/// SQLite's shared-memory file beside the farm file.
pub fn farm_shm_path(farm_db_path: &str) -> (r: String)
    ensures
        r@ == farm_db_path@ + "-shm"@,
{
    sidecar_path(farm_db_path, "-shm")
}

/// When the newest snapshot was taken: the latest `taken_at` (as text), the
/// first such in the list on a tie.
pub fn last_snapshot_at(snapshots: &Vec<SnapshotInfo>) -> (r: Option<String>)
    ensures
        snapshots@.len() == 0 <==> r is None,
        r matches Some(t) ==> exists|k: int| 0 <= k < snapshots@.len() && t@ == (#[trigger] snapshots@[k]).taken_at@
            && (forall|j: int| 0 <= j < snapshots@.len() ==> lex_le(#[trigger] snapshots@[j].taken_at@, t@))
            && (forall|j: int| 0 <= j < k ==> lex_lt(#[trigger] snapshots@[j].taken_at@, t@)),
{
    let n = snapshots.len();
    if n == 0 {
        return None;
    }
    let mut best: usize = 0;
    let mut i: usize = 1;
    proof {
        lemma_lex_irreflexive(snapshots@[0].taken_at@);
    }
    while i < n
        invariant
            n == snapshots@.len(),
            1 <= i <= n,
            best < i,
            forall|j: int| 0 <= j < i ==> lex_le(#[trigger] snapshots@[j].taken_at@, snapshots@[best as int].taken_at@),
            forall|j: int| 0 <= j < best ==> lex_lt(#[trigger] snapshots@[j].taken_at@, snapshots@[best as int].taken_at@),
        decreases n - i,
    {
        if str_lt(snapshots[best].taken_at.as_str(), snapshots[i].taken_at.as_str()) {
            proof {
                let nb = snapshots@[i as int].taken_at@;
                let ob = snapshots@[best as int].taken_at@;
                assert forall|j: int| 0 <= j < i implies lex_lt(#[trigger] snapshots@[j].taken_at@, nb) by {
                    let sj = snapshots@[j].taken_at@;
                    if sj == ob {
                    } else {
                        lemma_lex_transitive(sj, ob, nb);
                    }
                }
                lemma_lex_irreflexive(nb);
            }
            best = i;
        } else {
            proof {
                lemma_lex_not_lt_is_ge(snapshots@[best as int].taken_at@, snapshots@[i as int].taken_at@);
            }
        }
        i = i + 1;
    }
    Some(snapshots[best].taken_at.clone())
}

} // verus!
