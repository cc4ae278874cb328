//! Mileage trips are kept in miles only: a mileage payload carries a fixed set
//! of keys and can never carry or imply money. This module holds the
//! choke-point checks every mileage event passes.

use vstd::prelude::*;
use crate::dates::{is_real_date, real_date};
use crate::events::{
    field_index, get_text, find_field, keys_of, keys_unique, kind_text, text_at, EventRecord, Kind,
    Payload, PayloadField, PayloadValue,
};
use crate::text::{eq_ignore_ascii_case, is_digit, lower_seq, push_str, str_eq, trim, trim_seq};

verus! {

pub open spec fn is_mileage(k: Kind) -> bool {
    k is MileageTripLogged || k is MileageTripCorrected || k is MileageTripVoided
}

pub fn is_mileage_kind(kind: Kind) -> (r: bool)
    ensures
        r == is_mileage(kind),
{
    match kind {
        Kind::MileageTripLogged | Kind::MileageTripCorrected | Kind::MileageTripVoided => true,
        _ => false,
    }
}

/// Keys of a logged or corrected trip.
pub open spec fn trip_keys() -> Seq<Seq<char>> {
    seq!["eventId"@, "origin"@, "tripId"@, "tripDate"@, "miles"@, "purpose"@]
}

/// Keys of a voided trip.
pub open spec fn void_keys() -> Seq<Seq<char>> {
    seq!["eventId"@, "origin"@, "tripId"@]
}

pub open spec fn allowed_for(k: Kind) -> Seq<Seq<char>> {
    if k is MileageTripVoided { void_keys() } else { trip_keys() }
}

/// Keys that must be present; `purpose` may be left out.
pub open spec fn required_for(k: Kind) -> Seq<Seq<char>> {
    if k is MileageTripVoided { void_keys() } else { trip_keys().take(5) }
}

pub fn allowed_keys(kind: Kind) -> (r: Vec<&'static str>)
    ensures
        r@.map_values(|s: &str| s@) == allowed_for(kind),
{
    match kind {
        Kind::MileageTripVoided => {
            let v = vec!["eventId", "origin", "tripId"];
            assert(v@.map_values(|s: &str| s@) =~= void_keys());
            v
        },
        _ => {
            let v = vec!["eventId", "origin", "tripId", "tripDate", "miles", "purpose"];
            assert(v@.map_values(|s: &str| s@) =~= trip_keys());
            v
        },
    }
}

fn required_keys(kind: Kind) -> (r: Vec<&'static str>)
    ensures
        r@.map_values(|s: &str| s@) == required_for(kind),
{
    match kind {
        Kind::MileageTripVoided => {
            let v = vec!["eventId", "origin", "tripId"];
            assert(v@.map_values(|s: &str| s@) =~= void_keys());
            v
        },
        _ => {
            let v = vec!["eventId", "origin", "tripId", "tripDate", "miles"];
            assert(v@.map_values(|s: &str| s@) =~= trip_keys().take(5));
            v
        },
    }
}

// FORBIDDEN-KEYS-BEGIN
/// Key names that would let a payload carry or imply money, compared without
/// regard to ASCII case.
pub open spec fn forbidden_keys() -> Seq<Seq<char>> {
    seq![
        "dollars"@, "dollar"@, "amount"@, "amountCents"@, "cents"@, "price"@, "unitPrice"@,
        "unitPriceCents"@, "cost"@, "costCents"@, "value"@, "rate"@, "mileageRate"@, "perMile"@,
        "irsRate"@, "reimbursement"@, "deduction"@, "deductionCents"@, "total"@, "subtotal"@,
        "usd"@, "extended"@,
    ]
}

pub open spec fn is_forbidden(key: Seq<char>) -> bool {
    exists|i: int| 0 <= i < forbidden_keys().len() && lower_seq(#[trigger] forbidden_keys()[i]) == lower_seq(key)
}

pub fn forbidden_key_list() -> (r: Vec<&'static str>)
    ensures
        r@.map_values(|s: &str| s@) == forbidden_keys(),
{
    let v = vec![
        "dollars", "dollar", "amount", "amountCents", "cents", "price", "unitPrice",
        "unitPriceCents", "cost", "costCents", "value", "rate", "mileageRate", "perMile",
        "irsRate", "reimbursement", "deduction", "deductionCents", "total", "subtotal",
        "usd", "extended",
    ];
    assert(v@.map_values(|s: &str| s@) =~= forbidden_keys());
    v
}

// FORBIDDEN-KEYS-END

fn in_list(list: &Vec<&'static str>, key: &str) -> (r: bool)
    ensures
        r == list@.map_values(|s: &str| s@).contains(key@),
{
    let ghost lv = list@.map_values(|s: &str| s@);
    let n = list.len();
    let mut i: usize = 0;
    while i < n
        invariant
            n == list@.len(),
            i <= n,
            lv == list@.map_values(|s: &str| s@),
            forall|j: int| 0 <= j < i ==> lv[j] != key@,
        decreases n - i,
    {
        if str_eq(list[i], key) {
            assert(lv[i as int] == key@);
            return true;
        }
        i = i + 1;
    }
    false
}

fn forbidden(key: &str) -> (r: bool)
    ensures
        r == is_forbidden(key@),
{
    let list = forbidden_key_list();
    let ghost lv = list@.map_values(|s: &str| s@);
    let n = list.len();
    let mut i: usize = 0;
    while i < n
        invariant
            n == list@.len(),
            i <= n,
            lv == list@.map_values(|s: &str| s@),
            lv == forbidden_keys(),
            forall|j: int| 0 <= j < i ==> lower_seq(#[trigger] forbidden_keys()[j]) != lower_seq(key@),
        decreases n - i,
    {
        if eq_ignore_ascii_case(list[i], key) {
            assert(lower_seq(forbidden_keys()[i as int]) == lower_seq(key@));
            return true;
        }
        i = i + 1;
    }
    false
}

// --- Calendar dates -----------------------------------------------------------

/// The value of the digit `s[i]`.
pub open spec fn digit_at(s: Seq<char>, i: int) -> int {
    s[i] as int - 48
}

/// The `YYYY-MM-DD` shape: ten characters, ASCII digits but for the two
/// dashes after the year and the month, no sign.
pub open spec fn iso_shape(s: Seq<char>) -> bool {
    &&& s.len() == 10
    &&& s[4] == '-'
    &&& s[7] == '-'
    &&& forall|i: int| 0 <= i < 10 && i != 4 && i != 7 ==> is_digit(#[trigger] s[i])
}

/// The year, month and day written in a text of the `YYYY-MM-DD` shape.
pub open spec fn iso_year(s: Seq<char>) -> int {
    1000 * digit_at(s, 0) + 100 * digit_at(s, 1) + 10 * digit_at(s, 2) + digit_at(s, 3)
}

pub open spec fn iso_month(s: Seq<char>) -> int {
    10 * digit_at(s, 5) + digit_at(s, 6)
}

pub open spec fn iso_day(s: Seq<char>) -> int {
    10 * digit_at(s, 8) + digit_at(s, 9)
}

/// What `validate_calendar_date` reports: a text that is not of the
/// `YYYY-MM-DD` shape, or one that does not name a real day.
pub open spec fn calendar_date_error(s: Seq<char>, label: Seq<char>) -> Option<Seq<char>> {
    if !iso_shape(s) {
        Some(label + " must be YYYY-MM-DD"@)
    } else if is_real_date(iso_year(s), iso_month(s), iso_day(s)) {
        None
    } else {
        Some(label + " must be a real calendar day"@)
    }
}

/// The value of an ASCII digit, or `None`.
fn digit_value(c: char) -> (r: Option<u32>)
    ensures
        match r {
            Some(v) => is_digit(c) && v == c as int - 48,
            None => !is_digit(c),
        },
{
    if '0' <= c && c <= '9' {
        Some((c as u32) - 48)
    } else {
        None
    }
}

fn message(label: &str, tail: &str) -> (r: String)
    ensures
        r@ == label@ + tail@,
{
    let mut e = String::from_str(label);
    push_str(&mut e, tail);
    e
}

pub fn validate_calendar_date(date: &str, label: &str) -> (r: Result<(), String>)
    ensures
        match r {
            Ok(()) => calendar_date_error(date@, label@) is None,
            Err(e) => calendar_date_error(date@, label@) == Some(e@),
        },
{
    let n = date.unicode_len();
    if n != 10 {
        return Err(message(label, " must be YYYY-MM-DD"));
    }
    if date.get_char(4) != '-' || date.get_char(7) != '-' {
        return Err(message(label, " must be YYYY-MM-DD"));
    }
    let mut vals: Vec<u32> = Vec::new();
    let mut i: usize = 0;
    while i < 10
        invariant
            n == 10,
            date@.len() == 10,
            i <= 10,
            vals@.len() == i,
            forall|j: int| 0 <= j < i && j != 4 && j != 7 ==> is_digit(#[trigger] date@[j]),
            forall|j: int| 0 <= j < i && j != 4 && j != 7 ==> #[trigger] vals@[j] == digit_at(date@, j),
        decreases 10 - i,
    {
        if i == 4 || i == 7 {
            vals.push(0);
        } else {
            match digit_value(date.get_char(i)) {
                Some(v) => vals.push(v),
                None => {
                    return Err(message(label, " must be YYYY-MM-DD"));
                },
            }
        }
        i = i + 1;
    }
    assert(iso_shape(date@));
    let y: i32 = (1000 * vals[0] + 100 * vals[1] + 10 * vals[2] + vals[3]) as i32;
    let m: u32 = 10 * vals[5] + vals[6];
    let d: u32 = 10 * vals[8] + vals[9];
    assert(y == iso_year(date@));
    if real_date(y, m, d) {
        Ok(())
    } else {
        Err(message(label, " must be a real calendar day"))
    }
}

// --- The payload and event checks ---------------------------------------------

/// The first key, from index `i` on, that is not allowed for the kind or names
/// money, with the message it gets.
pub open spec fn key_error(kind: Kind, keys: Seq<Seq<char>>, i: int) -> Option<Seq<char>>
    decreases keys.len() - i,
{
    if i < 0 || i >= keys.len() {
        None
    } else if !allowed_for(kind).contains(keys[i]) {
        Some(kind_text(kind) + " rejects unknown payload key: "@ + keys[i])
    } else if is_forbidden(keys[i]) {
        Some("mileage rejects monetary payload key: "@ + keys[i])
    } else {
        key_error(kind, keys, i + 1)
    }
}

/// The first required key, from index `j` on, that the payload lacks.
pub open spec fn missing_error(kind: Kind, fields: Seq<PayloadField>, j: int) -> Option<Seq<char>>
    decreases required_for(kind).len() - j,
{
    if j < 0 || j >= required_for(kind).len() {
        None
    } else if field_index(fields, required_for(kind)[j]) < 0 {
        Some(kind_text(kind) + " payload missing required key: "@ + required_for(kind)[j])
    } else {
        missing_error(kind, fields, j + 1)
    }
}

/// The checks on `miles` and `purpose` of a logged or corrected trip.
pub open spec fn miles_purpose_error(kind: Kind, fields: Seq<PayloadField>) -> Option<Seq<char>> {
    let kt = kind_text(kind);
    match fields[field_index(fields, "miles"@)].value {
        PayloadValue::Null => Some(kt + " miles must not be null"@),
        PayloadValue::Text(_) => Some(kt + " miles must be a number, not a string"@),
        PayloadValue::Number { above_zero, .. } => if !above_zero {
            Some(kt + " miles must be greater than zero"@)
        } else {
            let p = field_index(fields, "purpose"@);
            if p < 0 {
                None
            } else {
                match fields[p].value {
                    PayloadValue::Null => None,
                    PayloadValue::Text(t) => if trim_seq(t@).len() > 200 {
                        Some(kt + " purpose must be at most 200 characters"@)
                    } else {
                        None
                    },
                    _ => Some(kt + " purpose must be a string"@),
                }
            }
        },
        _ => Some(kt + " miles must be a number"@),
    }
}

/// What `validate_mileage_payload` reports, if anything, checked in order:
/// the payload is an object; every key is allowed for the kind and none names
/// money; every required key is present; `origin` is the string `farm_os`;
/// and, unless the trip is voided, `tripDate` is a real calendar day, `miles`
/// a number above zero and `purpose`, when given, a string of at most 200
/// characters after trimming.
pub open spec fn mileage_payload_error(p: Payload, kind: Kind) -> Option<Seq<char>> {
    let kt = kind_text(kind);
    let fields = p.fields@;
    if !is_mileage(kind) {
        None
    } else if !p.is_object {
        Some(kt + " payload must be an object"@)
    } else if key_error(kind, keys_of(fields), 0) is Some {
        key_error(kind, keys_of(fields), 0)
    } else if missing_error(kind, fields, 0) is Some {
        missing_error(kind, fields, 0)
    } else {
        match text_at(fields, "origin"@) {
            None => Some(kt + " origin must be a string"@),
            Some(origin) => if origin != "farm_os"@ {
                Some(kt + " origin must be farm_os, got "@ + origin)
            } else if kind is MileageTripVoided {
                None
            } else {
                match text_at(fields, "tripDate"@) {
                    None => Some(kt + " tripDate must be a string"@),
                    Some(d) => if calendar_date_error(d, "tripDate"@) is Some {
                        calendar_date_error(d, "tripDate"@)
                    } else {
                        miles_purpose_error(kind, fields)
                    },
                }
            },
        }
    }
}

proof fn lemma_missing_error_none(kind: Kind, fields: Seq<PayloadField>, j: int)
    requires
        0 <= j,
        missing_error(kind, fields, j) is None,
    ensures
        forall|k: int| j <= k < required_for(kind).len() ==> field_index(fields, #[trigger] required_for(kind)[k]) >= 0,
    decreases required_for(kind).len() - j,
{
    if j < required_for(kind).len() {
        lemma_missing_error_none(kind, fields, j + 1);
    }
}

proof fn lemma_key_error_none(kind: Kind, keys: Seq<Seq<char>>, i: int)
    requires
        0 <= i,
        key_error(kind, keys, i) is None,
    ensures
        forall|j: int| i <= j < keys.len() ==> allowed_for(kind).contains(#[trigger] keys[j]) && !is_forbidden(keys[j]),
    decreases keys.len() - i,
{
    if i < keys.len() {
        lemma_key_error_none(kind, keys, i + 1);
    }
}

fn kind_message(kind: Kind, tail: &str) -> (r: String)
    ensures
        r@ == kind_text(kind) + tail@,
{
    message(kind.as_str(), tail)
}

fn kind_message_with(kind: Kind, tail: &str, value: &str) -> (r: String)
    ensures
        r@ == kind_text(kind) + tail@ + value@,
{
    let mut e = message(kind.as_str(), tail);
    push_str(&mut e, value);
    e
}

fn check_keys(kind: Kind, fields: &Vec<PayloadField>) -> (r: Result<(), String>)
    ensures
        match r {
            Ok(()) => key_error(kind, keys_of(fields@), 0) is None,
            Err(e) => key_error(kind, keys_of(fields@), 0) == Some(e@),
        },
{
    let allowed = allowed_keys(kind);
    let ghost keys = keys_of(fields@);
    let n = fields.len();
    let mut i: usize = 0;
    while i < n
        invariant
            n == fields@.len(),
            i <= n,
            keys == keys_of(fields@),
            allowed@.map_values(|s: &str| s@) == allowed_for(kind),
            key_error(kind, keys, 0) == key_error(kind, keys, i as int),
        decreases n - i,
    {
        let key = fields[i].key.as_str();
        assert(keys[i as int] == key@);
        if !in_list(&allowed, key) {
            return Err(kind_message_with(kind, " rejects unknown payload key: ", key));
        }
        if forbidden(key) {
            return Err(message("mileage rejects monetary payload key: ", key));
        }
        i = i + 1;
    }
    Ok(())
}

fn check_required(kind: Kind, fields: &Vec<PayloadField>) -> (r: Result<(), String>)
    requires
        keys_unique(fields@),
    ensures
        match r {
            Ok(()) => missing_error(kind, fields@, 0) is None,
            Err(e) => missing_error(kind, fields@, 0) == Some(e@),
        },
{
    let req = required_keys(kind);
    let ghost rv = req@.map_values(|s: &str| s@);
    let n = req.len();
    let mut j: usize = 0;
    while j < n
        invariant
            n == req@.len(),
            j <= n,
            keys_unique(fields@),
            rv == req@.map_values(|s: &str| s@),
            rv == required_for(kind),
            missing_error(kind, fields@, 0) == missing_error(kind, fields@, j as int),
        decreases n - j,
    {
        assert(rv[j as int] == req@[j as int]@);
        if find_field(fields, req[j]).is_none() {
            return Err(kind_message_with(kind, " payload missing required key: ", req[j]));
        }
        j = j + 1;
    }
    Ok(())
}

/// Checks a payload for a mileage kind (other kinds pass untouched); see
/// `mileage_payload_error`. An accepted payload holds only keys allowed for
/// its kind, none of which names money.
pub fn validate_mileage_payload(payload: &Payload, kind: Kind) -> (r: Result<(), String>)
    requires
        keys_unique(payload.fields@),
    ensures
        match r {
            Ok(()) => mileage_payload_error(*payload, kind) is None,
            Err(e) => mileage_payload_error(*payload, kind) == Some(e@),
        },
        r is Ok && is_mileage(kind) ==> forall|i: int| 0 <= i < payload.fields@.len() ==>
            allowed_for(kind).contains((#[trigger] payload.fields@[i]).key@) && !is_forbidden(payload.fields@[i].key@),
{
    if !is_mileage_kind(kind) {
        return Ok(());
    }
    if !payload.is_object {
        return Err(kind_message(kind, " payload must be an object"));
    }
    let fields = &payload.fields;
    match check_keys(kind, fields) {
        Ok(()) => {},
        Err(e) => return Err(e),
    }
    proof {
        lemma_key_error_none(kind, keys_of(fields@), 0);
        assert forall|i: int| 0 <= i < fields@.len() implies allowed_for(kind).contains((#[trigger] fields@[i]).key@) && !is_forbidden(fields@[i].key@) by {
            assert(keys_of(fields@)[i] == fields@[i].key@);
        }
    }
    match check_required(kind, fields) {
        Ok(()) => {},
        Err(e) => return Err(e),
    }
    let origin = match get_text(fields, "origin") {
        Some(o) => o,
        None => return Err(kind_message(kind, " origin must be a string")),
    };
    if !str_eq(origin, "farm_os") {
        return Err(kind_message_with(kind, " origin must be farm_os, got ", origin));
    }
    if let Kind::MileageTripVoided = kind {
        return Ok(());
    }
    let trip_date = match get_text(fields, "tripDate") {
        Some(d) => d,
        None => return Err(kind_message(kind, " tripDate must be a string")),
    };
    match validate_calendar_date(trip_date, "tripDate") {
        Ok(()) => {},
        Err(e) => return Err(e),
    }
    // `miles` is present: the required keys were checked above.
    proof {
        reveal_strlit("miles");
        assert(required_for(kind)[4] == "miles"@);
        lemma_missing_error_none(kind, fields@, 0);
        assert(field_index(fields@, "miles"@) >= 0);
    }
    let mi = find_field(fields, "miles").unwrap();
    match &fields[mi].value {
        PayloadValue::Null => return Err(kind_message(kind, " miles must not be null")),
        PayloadValue::Text(_) => return Err(kind_message(kind, " miles must be a number, not a string")),
        PayloadValue::Number { above_zero, .. } => {
            if !*above_zero {
                return Err(kind_message(kind, " miles must be greater than zero"));
            }
        },
        _ => return Err(kind_message(kind, " miles must be a number")),
    }
    match find_field(fields, "purpose") {
        None => Ok(()),
        Some(pi) => match &fields[pi].value {
            PayloadValue::Null => Ok(()),
            PayloadValue::Text(t) => {
                let trimmed = trim(t.as_str());
                if trimmed.unicode_len() > 200 {
                    Err(kind_message(kind, " purpose must be at most 200 characters"))
                } else {
                    Ok(())
                }
            },
            _ => Err(kind_message(kind, " purpose must be a string")),
        },
    }
}

/// What `validate_mileage_event` reports: the record's origin must be
/// `farm_os`, its payload must pass `validate_mileage_payload`, the payload's
/// `origin` and `eventId` must match the record, and the trip id must be the
/// record's own id for a logged trip, and a different non-empty id for a
/// correction or a void.
pub open spec fn mileage_event_error(e: EventRecord) -> Option<Seq<char>> {
    let kt = kind_text(e.kind);
    let fields = e.payload.fields@;
    let p_origin = match text_at(fields, "origin"@) { Some(t) => t, None => Seq::empty() };
    let p_id = match text_at(fields, "eventId"@) { Some(t) => t, None => Seq::empty() };
    let trip = match text_at(fields, "tripId"@) { Some(t) => t, None => Seq::empty() };
    if !is_mileage(e.kind) {
        None
    } else if e.origin@ != "farm_os"@ {
        Some(kt + " origin must be farm_os, got "@ + e.origin@)
    } else if mileage_payload_error(e.payload, e.kind) is Some {
        mileage_payload_error(e.payload, e.kind)
    } else if p_origin != e.origin@ {
        Some(kt + " payload origin disagrees with event record"@)
    } else if p_id != e.event_id@ {
        Some(kt + " payload eventId disagrees with event record"@)
    } else if e.kind is MileageTripLogged {
        if trip != e.event_id@ {
            Some("mileage.trip payload tripId must equal event record id"@)
        } else {
            None
        }
    } else if trip.len() == 0 {
        Some(kt + " payload tripId must be non-empty"@)
    } else if trip == e.event_id@ {
        Some(kt + " payload tripId must not equal event record id"@)
    } else {
        None
    }
}

/// The choke-point gate for a whole mileage event record (other kinds pass);
/// see `mileage_event_error`.
pub fn validate_mileage_event(event: &EventRecord) -> (r: Result<(), String>)
    requires
        keys_unique(event.payload.fields@),
    ensures
        match r {
            Ok(()) => mileage_event_error(*event) is None,
            Err(e) => mileage_event_error(*event) == Some(e@),
        },
{
    let kind = event.kind;
    if !is_mileage_kind(kind) {
        return Ok(());
    }
    if !str_eq(event.origin.as_str(), "farm_os") {
        return Err(kind_message_with(kind, " origin must be farm_os, got ", event.origin.as_str()));
    }
    match validate_mileage_payload(&event.payload, kind) {
        Ok(()) => {},
        Err(e) => return Err(e),
    }
    let fields = &event.payload.fields;
    let p_origin = match get_text(fields, "origin") { Some(t) => t, None => "" };
    let p_id = match get_text(fields, "eventId") { Some(t) => t, None => "" };
    let trip = match get_text(fields, "tripId") { Some(t) => t, None => "" };
    proof {
        reveal_strlit("");
        assert(p_origin@ == match text_at(fields@, "origin"@) { Some(t) => t, None => Seq::empty() });
        assert(p_id@ == match text_at(fields@, "eventId"@) { Some(t) => t, None => Seq::empty() });
        assert(trip@ == match text_at(fields@, "tripId"@) { Some(t) => t, None => Seq::empty() });
        assert(mileage_payload_error(event.payload, kind) is None);
    }
    if !str_eq(p_origin, event.origin.as_str()) {
        return Err(kind_message(kind, " payload origin disagrees with event record"));
    }
    if !str_eq(p_id, event.event_id.as_str()) {
        return Err(kind_message(kind, " payload eventId disagrees with event record"));
    }
    match kind {
        Kind::MileageTripLogged => {
            if !str_eq(trip, event.event_id.as_str()) {
                return Err(String::from_str("mileage.trip payload tripId must equal event record id"));
            }
            Ok(())
        },
        _ => {
            if trip.unicode_len() == 0 {
                return Err(kind_message(kind, " payload tripId must be non-empty"));
            }
            if str_eq(trip, event.event_id.as_str()) {
                return Err(kind_message(kind, " payload tripId must not equal event record id"));
            }
            Ok(())
        },
    }
}

/// The sealed payload of a voided trip.
#[derive(Debug)]
pub struct MileageVoidPayload {
    pub event_id: String,
    pub origin: String,
    pub trip_id: String,
}

/// The payload that retires a trip: the new event's id, origin `farm_os`,
/// the trip retired.
pub fn void_payload(event_id: &str, trip_id: &str) -> (r: MileageVoidPayload)
    ensures
        r.event_id@ == event_id@,
        r.origin@ == "farm_os"@,
        r.trip_id@ == trip_id@,
{
    MileageVoidPayload {
        event_id: String::from_str(event_id),
        origin: String::from_str("farm_os"),
        trip_id: String::from_str(trip_id),
    }
}

/// A trip's purpose as stored: trimmed, and left out when nothing remains.
pub open spec fn stored_purpose(p: Option<Seq<char>>) -> Option<Seq<char>> {
    match p {
        Some(t) => if trim_seq(t).len() == 0 { None } else { Some(trim_seq(t)) },
        None => None,
    }
}

pub fn clean_purpose(purpose: &Option<String>) -> (r: Option<String>)
    ensures
        match r {
            Some(t) => stored_purpose(match purpose { Some(p) => Some(p@), None => None }) == Some(t@),
            None => stored_purpose(match purpose { Some(p) => Some(p@), None => None }) is None,
        },
{
    match purpose {
        Some(p) => {
            let t = trim(p.as_str());
            if t.unicode_len() == 0 {
                None
            } else {
                Some(t)
            }
        },
        None => None,
    }
}

/// A trip date after today is refused (dates compare as text, `YYYY-MM-DD`).
pub fn check_trip_not_future(trip_date: &str, today: &str) -> (r: Result<(), String>)
    ensures
        r is Ok <==> !crate::text::lex_lt(today@, trip_date@),
        r matches Err(e) ==> e@ == "a trip cannot be in the future"@,
{
    if crate::text::str_lt(today, trip_date) {
        Err(String::from_str("a trip cannot be in the future"))
    } else {
        Ok(())
    }
}

/// Whether a logged trip may still be corrected or removed, from its row in
/// the register (its last event and when it was removed, if it was): the
/// trip's last event id, or why not.
pub fn trip_guard(row: Option<(String, Option<String>)>) -> (r: Result<String, String>)
    ensures
        match row {
            None => r matches Err(e) && e@ == "that trip is no longer in the log"@,
            Some((last, voided)) => match voided {
                Some(_) => r matches Err(e) && e@ == "that trip was removed"@,
                None => r matches Ok(id) && id@ == last@,
            },
        },
{
    match row {
        None => Err(String::from_str("that trip is no longer in the log")),
        Some((last, voided)) => match voided {
            Some(_) => Err(String::from_str("that trip was removed")),
            None => Ok(last),
        },
    }
}

} // verus!
