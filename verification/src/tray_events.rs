//! Reading the tray events back: what each payload item asks of the trays
//! table, or why it cannot be applied. The same reading serves the live write
//! and the replay; the shell runs the statements each item names.

use vstd::prelude::*;
use crate::events::{find_field, get_text, field_index, keys_unique, text_at, Payload, PayloadField, PayloadValue};
use crate::text::{push_str, str_eq};
use crate::trays::{date_col_for_state, date_col_spec, AdvanceItem, DiscardItem};

verus! {

/// The text at `key` of a payload; nothing when the payload is not an object.
pub open spec fn p_text(p: Payload, key: Seq<char>) -> Option<Seq<char>> {
    if p.is_object {
        text_at(p.fields@, key)
    } else {
        None
    }
}

/// The whole number at `key` of a payload, when it is one that fits in an `i64`.
pub open spec fn p_int(p: Payload, key: Seq<char>) -> Option<i64> {
    let i = field_index(p.fields@, key);
    if p.is_object && i >= 0 {
        match p.fields@[i].value {
            PayloadValue::Number { integer, .. } => integer,
            _ => None,
        }
    } else {
        None
    }
}

/// Whether the payload holds a number at `key`.
pub open spec fn p_number(p: Payload, key: Seq<char>) -> bool {
    let i = field_index(p.fields@, key);
    p.is_object && i >= 0 && p.fields@[i].value is Number
}

/// Whether the payload holds an array at `key`.
pub open spec fn p_array(p: Payload, key: Seq<char>) -> bool {
    let i = field_index(p.fields@, key);
    p.is_object && i >= 0 && p.fields@[i].value is Array
}

pub fn text_of<'a>(p: &'a Payload, key: &str) -> (r: Option<&'a str>)
    requires
        keys_unique(p.fields@),
    ensures
        match r {
            Some(t) => p_text(*p, key@) == Some(t@),
            None => p_text(*p, key@) is None,
        },
{
    if !p.is_object {
        return None;
    }
    get_text(&p.fields, key)
}

pub fn int_of(p: &Payload, key: &str) -> (r: Option<i64>)
    requires
        keys_unique(p.fields@),
    ensures
        r == p_int(*p, key@),
{
    if !p.is_object {
        return None;
    }
    match find_field(&p.fields, key) {
        Some(i) => match &p.fields[i].value {
            PayloadValue::Number { integer, .. } => *integer,
            _ => None,
        },
        None => None,
    }
}

pub fn is_number_at(p: &Payload, key: &str) -> (r: bool)
    requires
        keys_unique(p.fields@),
    ensures
        r == p_number(*p, key@),
{
    if !p.is_object {
        return false;
    }
    match find_field(&p.fields, key) {
        Some(i) => match &p.fields[i].value {
            PayloadValue::Number { .. } => true,
            _ => false,
        },
        None => false,
    }
}

/// Whether `key` holds an array, as a projection requires of its item list.
pub fn is_array_at(p: &Payload, key: &str) -> (r: bool)
    requires
        keys_unique(p.fields@),
    ensures
        r == p_array(*p, key@),
{
    if !p.is_object {
        return false;
    }
    match find_field(&p.fields, key) {
        Some(i) => match &p.fields[i].value {
            PayloadValue::Array => true,
            _ => false,
        },
        None => false,
    }
}

pub(crate) fn owned(s: &str) -> (r: String)
    ensures
        r@ == s@,
{
    String::from_str(s)
}

// --- trays.discarded and recount.applied items -------------------------------------

/// What one discard item does.
#[derive(Debug)]
pub enum DiscardOp {
    /// The whole row becomes discarded on `discarded_on`.
    Full { tray_id: String, discarded_on: String },
    /// `consumed` trays leave the row for a new discarded row `new_tray_id`,
    /// which copies the row's crop and dates.
    Split { tray_id: String, discarded_on: String, consumed: i64, new_tray_id: String },
}

/// Why a discard item cannot be applied, checked in this order.
pub open spec fn discard_item_problem(item: Payload) -> Option<Seq<char>> {
    if p_text(item, "trayId"@) is None {
        Some("discard item missing trayId"@)
    } else if p_text(item, "mode"@) is None {
        Some("discard item missing mode"@)
    } else if p_text(item, "discardedOn"@) is None {
        Some("discard item missing discardedOn"@)
    } else if p_text(item, "mode"@) == Some("full"@) {
        None
    } else if p_text(item, "mode"@) == Some("split"@) {
        if p_int(item, "consumed"@) is None {
            Some("split item missing consumed"@)
        } else if p_text(item, "newTrayId"@) is None {
            Some("split item missing newTrayId"@)
        } else {
            None
        }
    } else {
        Some("unknown discard item mode: "@ + p_text(item, "mode"@)->0)
    }
}

/// Reads one discard item of a `trays.discarded` or `recount.applied` event.
pub fn decode_discard_item(item: &Payload) -> (r: Result<DiscardOp, String>)
    requires
        keys_unique(item.fields@),
    ensures
        r is Err <==> discard_item_problem(*item) is Some,
        match r {
            Ok(DiscardOp::Full { tray_id, discarded_on }) => {
                &&& p_text(*item, "mode"@) == Some("full"@)
                &&& p_text(*item, "trayId"@) == Some(tray_id@)
                &&& p_text(*item, "discardedOn"@) == Some(discarded_on@)
            },
            Ok(DiscardOp::Split { tray_id, discarded_on, consumed, new_tray_id }) => {
                &&& p_text(*item, "mode"@) == Some("split"@)
                &&& p_text(*item, "trayId"@) == Some(tray_id@)
                &&& p_text(*item, "discardedOn"@) == Some(discarded_on@)
                &&& p_int(*item, "consumed"@) == Some(consumed)
                &&& p_text(*item, "newTrayId"@) == Some(new_tray_id@)
            },
            Err(e) => discard_item_problem(*item) == Some(e@),
        },
{
    let tray_id = match text_of(item, "trayId") {
        Some(t) => t,
        None => return Err(owned("discard item missing trayId")),
    };
    let mode = match text_of(item, "mode") {
        Some(t) => t,
        None => return Err(owned("discard item missing mode")),
    };
    let discarded_on = match text_of(item, "discardedOn") {
        Some(t) => t,
        None => return Err(owned("discard item missing discardedOn")),
    };
    if str_eq(mode, "full") {
        Ok(DiscardOp::Full { tray_id: owned(tray_id), discarded_on: owned(discarded_on) })
    } else if str_eq(mode, "split") {
        let consumed = match int_of(item, "consumed") {
            Some(n) => n,
            None => return Err(owned("split item missing consumed")),
        };
        let new_id = match text_of(item, "newTrayId") {
            Some(t) => t,
            None => return Err(owned("split item missing newTrayId")),
        };
        Ok(DiscardOp::Split {
            tray_id: owned(tray_id),
            discarded_on: owned(discarded_on),
            consumed,
            new_tray_id: owned(new_id),
        })
    } else {
        let mut e = owned("unknown discard item mode: ");
        push_str(&mut e, mode);
        Err(e)
    }
}

/// The date a `tray.discarded` event stamps.
pub fn tray_discarded_on(payload: &Payload) -> (r: Result<String, String>)
    requires
        keys_unique(payload.fields@),
    ensures
        match r {
            Ok(d) => p_text(*payload, "discardedOn"@) == Some(d@),
            Err(e) => p_text(*payload, "discardedOn"@) is None && e@ == "tray.discarded payload missing discardedOn"@,
        },
{
    match text_of(payload, "discardedOn") {
        Some(d) => Ok(owned(d)),
        None => Err(owned("tray.discarded payload missing discardedOn")),
    }
}

// --- trays.advanced items --------------------------------------------------------

/// One tray's step as a `trays.advanced` item records it: the state it enters,
/// the date, and the column that date is written to.
#[derive(Debug)]
pub struct AdvanceOp {
    pub tray_id: String,
    pub to: String,
    pub on: String,
    pub date_col: String,
}

/// Why a `trays.advanced` item cannot be applied, checked in this order.
pub open spec fn advance_item_problem(item: Payload) -> Option<Seq<char>> {
    if p_text(item, "trayId"@) is None {
        Some("trays.advanced item missing trayId"@)
    } else if p_text(item, "to"@) is None {
        Some("trays.advanced item missing to"@)
    } else if p_text(item, "on"@) is None {
        Some("trays.advanced item missing on"@)
    } else if date_col_spec(p_text(item, "to"@)->0) is None {
        Some("no date column for state '"@ + p_text(item, "to"@)->0 + "'"@)
    } else {
        None
    }
}

pub fn decode_advance_item(item: &Payload) -> (r: Result<AdvanceOp, String>)
    requires
        keys_unique(item.fields@),
    ensures
        r is Err <==> advance_item_problem(*item) is Some,
        match r {
            Ok(op) => {
                &&& p_text(*item, "trayId"@) == Some(op.tray_id@)
                &&& p_text(*item, "to"@) == Some(op.to@)
                &&& p_text(*item, "on"@) == Some(op.on@)
                &&& date_col_spec(op.to@) == Some(op.date_col@)
            },
            Err(e) => advance_item_problem(*item) == Some(e@),
        },
{
    let tray_id = match text_of(item, "trayId") {
        Some(t) => t,
        None => return Err(owned("trays.advanced item missing trayId")),
    };
    let to = match text_of(item, "to") {
        Some(t) => t,
        None => return Err(owned("trays.advanced item missing to")),
    };
    let on = match text_of(item, "on") {
        Some(t) => t,
        None => return Err(owned("trays.advanced item missing on")),
    };
    match date_col_for_state(to) {
        Some(col) => Ok(AdvanceOp { tray_id: owned(tray_id), to: owned(to), on: owned(on), date_col: owned(col) }),
        None => {
            let mut e = owned("no date column for state '");
            push_str(&mut e, to);
            push_str(&mut e, "'");
            Err(e)
        },
    }
}

// --- trays.harvested items -------------------------------------------------------

/// One harvested tray: the row and the date. The weight, a number at
/// `actualYieldOz`, is read by the shell.
#[derive(Debug)]
pub struct HarvestOp {
    pub tray_id: String,
    pub harvested_on: String,
}

pub open spec fn harvest_item_problem(item: Payload) -> Option<Seq<char>> {
    if p_text(item, "trayId"@) is None {
        Some("trays.harvested item missing trayId"@)
    } else if !p_number(item, "actualYieldOz"@) {
        Some("trays.harvested item missing actualYieldOz"@)
    } else if p_text(item, "harvestedOn"@) is None {
        Some("trays.harvested item missing harvestedOn"@)
    } else {
        None
    }
}

pub fn decode_harvest_item(item: &Payload) -> (r: Result<HarvestOp, String>)
    requires
        keys_unique(item.fields@),
    ensures
        r is Err <==> harvest_item_problem(*item) is Some,
        match r {
            Ok(op) => p_text(*item, "trayId"@) == Some(op.tray_id@) && p_text(*item, "harvestedOn"@) == Some(op.harvested_on@),
            Err(e) => harvest_item_problem(*item) == Some(e@),
        },
{
    let tray_id = match text_of(item, "trayId") {
        Some(t) => t,
        None => return Err(owned("trays.harvested item missing trayId")),
    };
    if !is_number_at(item, "actualYieldOz") {
        return Err(owned("trays.harvested item missing actualYieldOz"));
    }
    let on = match text_of(item, "harvestedOn") {
        Some(t) => t,
        None => return Err(owned("trays.harvested item missing harvestedOn")),
    };
    Ok(HarvestOp { tray_id: owned(tray_id), harvested_on: owned(on) })
}

// --- recount.applied surplus --------------------------------------------------------

/// A row a recount adds for trays found on the shelf: it copies the state and
/// dates of its template.
#[derive(Debug)]
pub struct SurplusOp {
    pub new_tray_id: String,
    pub crop_id: String,
    pub quantity: i64,
    pub state: String,
    pub sown_on: Option<String>,
    pub blackout_on: Option<String>,
    pub light_on: Option<String>,
}

pub open spec fn surplus_problem(crop: Payload, template: Payload) -> Option<Seq<char>> {
    if p_text(crop, "cropId"@) is None {
        Some("recount surplus item missing cropId"@)
    } else if p_int(crop, "delta"@) is None {
        Some("recount surplus item missing delta"@)
    } else if p_text(template, "state"@) is None {
        Some("recount template missing state"@)
    } else {
        None
    }
}

pub open spec fn opt_text(o: Option<String>) -> Option<Seq<char>> {
    match o {
        Some(s) => Some(s@),
        None => None,
    }
}

/// What reading a surplus gives when the crop names a new tray and has a template.
pub open spec fn surplus_read(crop: Payload, t: Payload, r: Result<Option<SurplusOp>, String>) -> bool {
    &&& (r is Err <==> surplus_problem(crop, t) is Some)
    &&& match r {
        Ok(Some(op)) => {
            &&& p_text(crop, "newTrayId"@) == Some(op.new_tray_id@)
            &&& p_text(crop, "cropId"@) == Some(op.crop_id@)
            &&& p_int(crop, "delta"@) == Some(op.quantity)
            &&& p_text(t, "state"@) == Some(op.state@)
            &&& p_text(t, "sownOn"@) == opt_text(op.sown_on)
            &&& p_text(t, "blackoutOn"@) == opt_text(op.blackout_on)
            &&& p_text(t, "lightOn"@) == opt_text(op.light_on)
        },
        Ok(None) => false,
        Err(e) => surplus_problem(crop, t) == Some(e@),
    }
}

fn opt_owned(o: Option<&str>) -> (r: Option<String>)
    ensures
        match o {
            Some(s) => r matches Some(t) && t@ == s@,
            None => r is None,
        },
{
    match o {
        Some(s) => Some(owned(s)),
        None => None,
    }
}

/// Reads the surplus part of one crop of a `recount.applied` event. There is
/// one when the crop names a new tray (`newTrayId`) and carries a `template`
/// (given here when present).
pub fn decode_recount_surplus(crop: &Payload, template: Option<&Payload>) -> (r: Result<Option<SurplusOp>, String>)
    requires
        keys_unique(crop.fields@),
        template matches Some(t) ==> keys_unique(t.fields@),
    ensures
        (p_text(*crop, "newTrayId"@) is None || template is None) ==> r matches Ok(None),
        template matches Some(t) ==> (p_text(*crop, "newTrayId"@) is Some ==> surplus_read(*crop, *t, r)),
{
    let new_id = match text_of(crop, "newTrayId") {
        Some(t) => t,
        None => return Ok(None),
    };
    let t = match template {
        Some(t) => t,
        None => return Ok(None),
    };
    let crop_id = match text_of(crop, "cropId") {
        Some(c) => c,
        None => return Err(owned("recount surplus item missing cropId")),
    };
    let delta = match int_of(crop, "delta") {
        Some(d) => d,
        None => return Err(owned("recount surplus item missing delta")),
    };
    let state = match text_of(t, "state") {
        Some(s) => s,
        None => return Err(owned("recount template missing state")),
    };
    Ok(Some(SurplusOp {
        new_tray_id: owned(new_id),
        crop_id: owned(crop_id),
        quantity: delta,
        state: owned(state),
        sown_on: opt_owned(text_of(t, "sownOn")),
        blackout_on: opt_owned(text_of(t, "blackoutOn")),
        light_on: opt_owned(text_of(t, "lightOn")),
    }))
}

// --- tray.sown and dev.backdated ------------------------------------------------

/// The new row a `tray.sown` event adds: sown and covered the same day.
#[derive(Debug)]
pub struct SownOp {
    pub crop_id: String,
    pub quantity: i64,
    pub sown_on: String,
    pub blackout_on: String,
}

pub open spec fn sown_problem(p: Payload) -> Option<Seq<char>> {
    if p_text(p, "cropId"@) is None {
        Some("tray.sown payload missing cropId"@)
    } else if p_int(p, "quantity"@) is None {
        Some("tray.sown payload missing quantity"@)
    } else if p_text(p, "sownOn"@) is None {
        Some("tray.sown payload missing sownOn"@)
    } else if p_text(p, "blackoutOn"@) is None {
        Some("tray.sown payload missing blackoutOn"@)
    } else {
        None
    }
}

pub fn decode_tray_sown(p: &Payload) -> (r: Result<SownOp, String>)
    requires
        keys_unique(p.fields@),
    ensures
        r is Err <==> sown_problem(*p) is Some,
        match r {
            Ok(op) => {
                &&& p_text(*p, "cropId"@) == Some(op.crop_id@)
                &&& p_int(*p, "quantity"@) == Some(op.quantity)
                &&& p_text(*p, "sownOn"@) == Some(op.sown_on@)
                &&& p_text(*p, "blackoutOn"@) == Some(op.blackout_on@)
            },
            Err(e) => sown_problem(*p) == Some(e@),
        },
{
    let crop_id = match text_of(p, "cropId") {
        Some(t) => t,
        None => return Err(owned("tray.sown payload missing cropId")),
    };
    let quantity = match int_of(p, "quantity") {
        Some(q) => q,
        None => return Err(owned("tray.sown payload missing quantity")),
    };
    let sown_on = match text_of(p, "sownOn") {
        Some(t) => t,
        None => return Err(owned("tray.sown payload missing sownOn")),
    };
    let blackout_on = match text_of(p, "blackoutOn") {
        Some(t) => t,
        None => return Err(owned("tray.sown payload missing blackoutOn")),
    };
    Ok(SownOp { crop_id: owned(crop_id), quantity, sown_on: owned(sown_on), blackout_on: owned(blackout_on) })
}

pub open spec fn backdate_problem(p: Payload) -> Option<Seq<char>> {
    if p_text(p, "trayId"@) is None {
        Some("dev.backdated payload missing trayId"@)
    } else if p_int(p, "days"@) is None {
        Some("dev.backdated payload missing days"@)
    } else {
        None
    }
}

/// Reads a `dev.backdated` event: the tray, and the days its dates move back.
pub fn decode_dev_backdated(p: &Payload) -> (r: Result<(String, i64), String>)
    requires
        keys_unique(p.fields@),
    ensures
        r is Err <==> backdate_problem(*p) is Some,
        match r {
            Ok((tray_id, days)) => p_text(*p, "trayId"@) == Some(tray_id@) && p_int(*p, "days"@) == Some(days),
            Err(e) => backdate_problem(*p) == Some(e@),
        },
{
    let tray_id = match text_of(p, "trayId") {
        Some(t) => t,
        None => return Err(owned("dev.backdated payload missing trayId")),
    };
    match int_of(p, "days") {
        Some(d) => Ok((owned(tray_id), d)),
        None => Err(owned("dev.backdated payload missing days")),
    }
}

// --- writing items, and reading them back -------------------------------------------

pub(crate) proof fn lemma_field_at(fields: Seq<PayloadField>, i: int, key: Seq<char>)
    requires
        keys_unique(fields),
        0 <= i < fields.len(),
        fields[i].key@ == key,
    ensures
        field_index(fields, key) == i,
{
    assert(exists|j: int| 0 <= j < fields.len() && (#[trigger] fields[j]).key@ == key);
    let j = field_index(fields, key);
    if j != i {
        if j < i {
            assert(fields[j].key@ != fields[i].key@);
        } else {
            assert(fields[i].key@ != fields[j].key@);
        }
    }
}

pub(crate) proof fn lemma_field_absent(fields: Seq<PayloadField>, key: Seq<char>)
    requires
        forall|j: int| 0 <= j < fields.len() ==> (#[trigger] fields[j]).key@ != key,
    ensures
        field_index(fields, key) == -1,
{
}

pub(crate) fn text_field(key: &str, value: &str) -> (r: PayloadField)
    ensures
        r.key@ == key@,
        r.value matches PayloadValue::Text(t) && t@ == value@,
{
    PayloadField { key: owned(key), value: PayloadValue::Text(owned(value)) }
}

/// What a planned discard item is written as.
pub open spec fn describes_discard_item(p: Payload, it: DiscardItem) -> bool {
    &&& p.is_object
    &&& keys_unique(p.fields@)
    &&& p_text(p, "trayId"@) == Some(it.tray_id@)
    &&& p_int(p, "consumed"@) == Some(it.consumed)
    &&& p_text(p, "from"@) == Some(it.from@)
    &&& p_text(p, "discardedOn"@) == Some(it.discarded_on@)
    &&& match it.split_tray_id {
        None => p_text(p, "mode"@) == Some("full"@) && p_text(p, "newTrayId"@) is None,
        Some(s) => p_text(p, "mode"@) == Some("split"@) && p_text(p, "newTrayId"@) == Some(s@),
    }
}

/// The payload of one planned discard item: `trayId`, `consumed`, `mode`
/// (`full`, or `split` with `newTrayId`), `from` and `discardedOn`.
pub fn discard_item_payload(it: &DiscardItem) -> (r: Payload)
    ensures
        describes_discard_item(r, *it),
{
    proof {
        reveal_strlit("trayId");
        reveal_strlit("consumed");
        reveal_strlit("mode");
        reveal_strlit("newTrayId");
        reveal_strlit("from");
        reveal_strlit("discardedOn");
        reveal_strlit("full");
        reveal_strlit("split");
    }
    let mut fields: Vec<PayloadField> = Vec::new();
    fields.push(text_field("trayId", it.tray_id.as_str()));
    fields.push(PayloadField {
        key: owned("consumed"),
        value: PayloadValue::Number { above_zero: it.consumed > 0, integer: Some(it.consumed) },
    });
    match &it.split_tray_id {
        None => {
            fields.push(text_field("mode", "full"));
        },
        Some(s) => {
            fields.push(text_field("mode", "split"));
            fields.push(text_field("newTrayId", s.as_str()));
        },
    }
    fields.push(text_field("from", it.from.as_str()));
    fields.push(text_field("discardedOn", it.discarded_on.as_str()));
    let p = Payload { is_object: true, fields };
    proof {
        let f = p.fields@;
        assert("trayId"@.len() == 6 && "consumed"@.len() == 8 && "mode"@.len() == 4);
        assert("newTrayId"@.len() == 9 && "from"@.len() == 4 && "discardedOn"@.len() == 11);
        assert("trayId"@ != "consumed"@ && "trayId"@ != "mode"@ && "trayId"@ != "newTrayId"@);
        assert("trayId"@ != "from"@ && "trayId"@ != "discardedOn"@);
        assert("consumed"@ != "mode"@ && "consumed"@ != "newTrayId"@ && "consumed"@ != "from"@);
        assert("mode"@[0] != "from"@[0]);
        assert("consumed"@ != "discardedOn"@ && "mode"@ != "newTrayId"@ && "mode"@ != "from"@);
        assert("mode"@ != "discardedOn"@ && "newTrayId"@ != "from"@ && "newTrayId"@ != "discardedOn"@);
        assert("from"@ != "discardedOn"@);
        assert(keys_unique(f));
        lemma_field_at(f, 0, "trayId"@);
        lemma_field_at(f, 1, "consumed"@);
        lemma_field_at(f, 2, "mode"@);
        let n = f.len() as int;
        lemma_field_at(f, n - 2, "from"@);
        lemma_field_at(f, n - 1, "discardedOn"@);
        if it.split_tray_id is Some {
            lemma_field_at(f, 3, "newTrayId"@);
        } else {
            lemma_field_absent(f, "newTrayId"@);
        }
    }
    p
}

/// A discard item written from a plan reads back as the change it planned:
/// it can be applied, as a whole row when nothing was split, otherwise as a
/// split of the planned count into the planned new row.
pub proof fn lemma_discard_item_reads_back(p: Payload, it: DiscardItem)
    requires
        describes_discard_item(p, it),
    ensures
        discard_item_problem(p) is None,
        it.split_tray_id is None ==> p_text(p, "mode"@) == Some("full"@),
        it.split_tray_id matches Some(s) ==> p_text(p, "mode"@) == Some("split"@) && p_int(p, "consumed"@) == Some(it.consumed) && p_text(p, "newTrayId"@) == Some(s@),
        p_text(p, "trayId"@) == Some(it.tray_id@),
        p_text(p, "discardedOn"@) == Some(it.discarded_on@),
{
    reveal_strlit("full");
    reveal_strlit("split");
    assert("full"@[0] != "split"@[0]);
}

/// What a planned advance item is written as.
pub open spec fn describes_advance_item(p: Payload, it: AdvanceItem) -> bool {
    &&& p.is_object
    &&& keys_unique(p.fields@)
    &&& p_text(p, "trayId"@) == Some(it.tray_id@)
    &&& p_text(p, "from"@) == Some(it.from@)
    &&& p_text(p, "to"@) == Some(it.to@)
    &&& p_text(p, "on"@) == Some(it.on@)
}

/// The payload of one `trays.advanced` item: `trayId`, `from`, `to` and `on`.
pub fn advance_item_payload(it: &AdvanceItem) -> (r: Payload)
    ensures
        describes_advance_item(r, *it),
{
    proof {
        reveal_strlit("trayId");
        reveal_strlit("from");
        reveal_strlit("to");
        reveal_strlit("on");
    }
    let mut fields: Vec<PayloadField> = Vec::new();
    fields.push(text_field("trayId", it.tray_id.as_str()));
    fields.push(text_field("from", it.from.as_str()));
    fields.push(text_field("to", it.to.as_str()));
    fields.push(text_field("on", it.on.as_str()));
    let p = Payload { is_object: true, fields };
    proof {
        let f = p.fields@;
        assert("trayId"@.len() == 6 && "from"@.len() == 4 && "to"@.len() == 2 && "on"@.len() == 2);
        assert("trayId"@ != "from"@ && "trayId"@ != "to"@ && "trayId"@ != "on"@);
        assert("from"@ != "to"@ && "from"@ != "on"@);
        assert("to"@[0] != "on"@[0]);
        assert(keys_unique(f));
        lemma_field_at(f, 0, "trayId"@);
        lemma_field_at(f, 1, "from"@);
        lemma_field_at(f, 2, "to"@);
        lemma_field_at(f, 3, "on"@);
    }
    p
}

/// An advance item written for a step that `plan_advance` allows reads back
/// as that step: the same tray, state and date, and the date column of the
/// state it enters.
pub proof fn lemma_advance_item_reads_back(p: Payload, it: AdvanceItem)
    requires
        describes_advance_item(p, it),
        date_col_spec(it.to@) is Some,
    ensures
        advance_item_problem(p) is None,
        p_text(p, "to"@) == Some(it.to@),
        p_text(p, "on"@) == Some(it.on@),
        p_text(p, "trayId"@) == Some(it.tray_id@),
{
}

} // verus!
