//! Event kinds and the parts of an event record that the library's rules read.

use vstd::prelude::*;
use crate::text::str_eq;

verus! {

/// What an event in the log records.
#[derive(Debug, Clone, Copy, PartialEq, Eq, Structural)]
pub enum Kind {
    TraySown,
    TraysAdvanced,
    TraysHarvested,
    TrayDiscarded,
    TraysDiscarded,
    RecountApplied,
    Undo,
    DevBackdated,
    AttentionResolved,
    StripeSessionPaid,
    StripeRefunded,
    StripeDisputed,
    SnapshotTaken,
    CostMoneyOut,
    ConsumptionPhysical,
    MileageTripLogged,
    MileageTripCorrected,
    MileageTripVoided,
    AssetRecorded,
    AssetCorrected,
    AssetVoided,
}

/// The name a kind is stored under in the log.
pub open spec fn kind_text(k: Kind) -> Seq<char> {
    match k {
        Kind::TraySown => "tray.sown"@,
        Kind::TraysAdvanced => "trays.advanced"@,
        Kind::TraysHarvested => "trays.harvested"@,
        Kind::TrayDiscarded => "tray.discarded"@,
        Kind::TraysDiscarded => "trays.discarded"@,
        Kind::RecountApplied => "recount.applied"@,
        Kind::Undo => "undo"@,
        Kind::DevBackdated => "dev.backdated"@,
        Kind::AttentionResolved => "attention.resolved"@,
        Kind::StripeSessionPaid => "stripe.session_paid"@,
        Kind::StripeRefunded => "stripe.refunded"@,
        Kind::StripeDisputed => "stripe.disputed"@,
        Kind::SnapshotTaken => "snapshot.taken"@,
        Kind::CostMoneyOut => "cost.money_out"@,
        Kind::ConsumptionPhysical => "consumption.physical"@,
        Kind::MileageTripLogged => "mileage.trip"@,
        Kind::MileageTripCorrected => "mileage.trip_corrected"@,
        Kind::MileageTripVoided => "mileage.trip_voided"@,
        Kind::AssetRecorded => "asset.recorded"@,
        Kind::AssetCorrected => "asset.corrected"@,
        Kind::AssetVoided => "asset.voided"@,
    }
}

/// Position of each kind in declaration order.
pub open spec fn kind_index(k: Kind) -> int {
    match k {
        Kind::TraySown => 0,
        Kind::TraysAdvanced => 1,
        Kind::TraysHarvested => 2,
        Kind::TrayDiscarded => 3,
        Kind::TraysDiscarded => 4,
        Kind::RecountApplied => 5,
        Kind::Undo => 6,
        Kind::DevBackdated => 7,
        Kind::AttentionResolved => 8,
        Kind::StripeSessionPaid => 9,
        Kind::StripeRefunded => 10,
        Kind::StripeDisputed => 11,
        Kind::SnapshotTaken => 12,
        Kind::CostMoneyOut => 13,
        Kind::ConsumptionPhysical => 14,
        Kind::MileageTripLogged => 15,
        Kind::MileageTripCorrected => 16,
        Kind::MileageTripVoided => 17,
        Kind::AssetRecorded => 18,
        Kind::AssetCorrected => 19,
        Kind::AssetVoided => 20,
    }
}

impl Kind {
    pub fn as_str(&self) -> (r: &'static str)
        ensures
            r@ == kind_text(*self),
    {
        match self {
            Kind::TraySown => "tray.sown",
            Kind::TraysAdvanced => "trays.advanced",
            Kind::TraysHarvested => "trays.harvested",
            Kind::TrayDiscarded => "tray.discarded",
            Kind::TraysDiscarded => "trays.discarded",
            Kind::RecountApplied => "recount.applied",
            Kind::Undo => "undo",
            Kind::DevBackdated => "dev.backdated",
            Kind::AttentionResolved => "attention.resolved",
            Kind::StripeSessionPaid => "stripe.session_paid",
            Kind::StripeRefunded => "stripe.refunded",
            Kind::StripeDisputed => "stripe.disputed",
            Kind::SnapshotTaken => "snapshot.taken",
            Kind::CostMoneyOut => "cost.money_out",
            Kind::ConsumptionPhysical => "consumption.physical",
            Kind::MileageTripLogged => "mileage.trip",
            Kind::MileageTripCorrected => "mileage.trip_corrected",
            Kind::MileageTripVoided => "mileage.trip_voided",
            Kind::AssetRecorded => "asset.recorded",
            Kind::AssetCorrected => "asset.corrected",
            Kind::AssetVoided => "asset.voided",
        }
    }

    /// The kind stored under `s`, if any.
    pub fn parse(s: &str) -> (r: Option<Kind>)
        ensures
            match r {
                Some(k) => kind_text(k) == s@,
                None => forall|k: Kind| kind_text(k) != s@,
            },
    {
        let all: [Kind; 21] = [
            Kind::TraySown,
            Kind::TraysAdvanced,
            Kind::TraysHarvested,
            Kind::TrayDiscarded,
            Kind::TraysDiscarded,
            Kind::RecountApplied,
            Kind::Undo,
            Kind::DevBackdated,
            Kind::AttentionResolved,
            Kind::StripeSessionPaid,
            Kind::StripeRefunded,
            Kind::StripeDisputed,
            Kind::SnapshotTaken,
            Kind::CostMoneyOut,
            Kind::ConsumptionPhysical,
            Kind::MileageTripLogged,
            Kind::MileageTripCorrected,
            Kind::MileageTripVoided,
            Kind::AssetRecorded,
            Kind::AssetCorrected,
            Kind::AssetVoided,
        ];
        proof {
            assert forall|k: Kind| #[trigger] all@[kind_index(k)] == k by {}
        }
        let mut i: usize = 0;
        while i < 21
            invariant
                i <= 21,
                all@.len() == 21,
                forall|k: Kind| #[trigger] all@[kind_index(k)] == k,
                forall|j: int| 0 <= j < i ==> kind_text(#[trigger] all@[j]) != s@,
            decreases 21 - i,
        {
            let k = all[i];
            if str_eq(k.as_str(), s) {
                return Some(k);
            }
            i = i + 1;
        }
        proof {
            assert forall|k: Kind| kind_text(k) != s@ by {
                assert(all@[kind_index(k)] == k);
            }
        }
        None
    }
}

/// A value in an event payload, as far as the library's rules read it. A
/// number carries whether it is above zero and, when it is a whole number
/// that fits in an `i64`, that number.
#[derive(Debug)]
pub enum PayloadValue {
    Null,
    Bool(bool),
    Number { above_zero: bool, integer: Option<i64> },
    Text(String),
    Array,
    Object,
}

#[derive(Debug)]
pub struct PayloadField {
    pub key: String,
    pub value: PayloadValue,
}

/// An event payload: whether it is a JSON object, and its fields in the
/// order the object lists them (each key once).
#[derive(Debug)]
pub struct Payload {
    pub is_object: bool,
    pub fields: Vec<PayloadField>,
}

/// The parts of a log record that the choke-point rules read.
#[derive(Debug)]
pub struct EventRecord {
    pub kind: Kind,
    pub event_id: String,
    pub origin: String,
    pub payload: Payload,
}

pub open spec fn keys_of(fields: Seq<PayloadField>) -> Seq<Seq<char>> {
    fields.map_values(|f: PayloadField| f.key@)
}

/// Index of the field named `key`, or -1.
pub open spec fn field_index(fields: Seq<PayloadField>, key: Seq<char>) -> int {
    if exists|i: int| 0 <= i < fields.len() && (#[trigger] fields[i]).key@ == key {
        choose|i: int| 0 <= i < fields.len() && (#[trigger] fields[i]).key@ == key
    } else {
        -1
    }
}

/// Keys are unique in an object.
pub open spec fn keys_unique(fields: Seq<PayloadField>) -> bool {
    forall|i: int, j: int| 0 <= i < j < fields.len() ==> (#[trigger] fields[i]).key@ != (#[trigger] fields[j]).key@
}

/// The text at `key`, when the field is there and is a string.
pub open spec fn text_at(fields: Seq<PayloadField>, key: Seq<char>) -> Option<Seq<char>> {
    let i = field_index(fields, key);
    if i >= 0 {
        match fields[i].value {
            PayloadValue::Text(t) => Some(t@),
            _ => None,
        }
    } else {
        None
    }
}

/// Finds the field named `key`.
pub fn find_field(fields: &Vec<PayloadField>, key: &str) -> (r: Option<usize>)
    requires
        keys_unique(fields@),
    ensures
        match r {
            Some(i) => i < fields@.len() && i as int == field_index(fields@, key@),
            None => field_index(fields@, key@) == -1,
        },
{
    let n = fields.len();
    let mut i: usize = 0;
    while i < n
        invariant
            n == fields@.len(),
            i <= n,
            keys_unique(fields@),
            forall|j: int| 0 <= j < i ==> (#[trigger] fields@[j]).key@ != key@,
        decreases n - i,
    {
        if str_eq(fields[i].key.as_str(), key) {
            proof {
                let c = choose|c: int| 0 <= c < fields@.len() && (#[trigger] fields@[c]).key@ == key@;
                if c != i {
                    if c < i {
                        assert(fields@[c].key@ != key@);
                    } else {
                        assert(fields@[i as int].key@ != fields@[c].key@);
                    }
                }
            }
            return Some(i);
        }
        i = i + 1;
    }
    None
}

/// The text at `key`, as `text_at` states it.
pub fn get_text<'a>(fields: &'a Vec<PayloadField>, key: &str) -> (r: Option<&'a str>)
    requires
        keys_unique(fields@),
    ensures
        match r {
            Some(t) => text_at(fields@, key@) == Some(t@),
            None => text_at(fields@, key@) is None,
        },
{
    match find_field(fields, key) {
        Some(i) => match &fields[i].value {
            PayloadValue::Text(t) => Some(t.as_str()),
            _ => None,
        },
        None => None,
    }
}

impl Kind {
    /// Every kind, in declaration order.
    pub fn all() -> (r: Vec<Kind>)
        ensures
            r@.len() == 21,
            forall|k: Kind| #[trigger] r@[kind_index(k)] == k,
    {
        let v = vec![
            Kind::TraySown, Kind::TraysAdvanced, Kind::TraysHarvested, Kind::TrayDiscarded,
            Kind::TraysDiscarded, Kind::RecountApplied, Kind::Undo, Kind::DevBackdated,
            Kind::AttentionResolved, Kind::StripeSessionPaid, Kind::StripeRefunded,
            Kind::StripeDisputed, Kind::SnapshotTaken, Kind::CostMoneyOut, Kind::ConsumptionPhysical,
            Kind::MileageTripLogged, Kind::MileageTripCorrected, Kind::MileageTripVoided,
            Kind::AssetRecorded, Kind::AssetCorrected, Kind::AssetVoided,
        ];
        proof {
            assert forall|k: Kind| #[trigger] v@[kind_index(k)] == k by {}
        }
        v
    }
}

/// The kinds a farm handler writes itself: every kind but the three Stripe facts.
pub open spec fn handler_kind(k: Kind) -> bool {
    !(k is StripeSessionPaid || k is StripeRefunded || k is StripeDisputed)
}

pub fn handler_kinds() -> (r: Vec<Kind>)
    ensures
        forall|i: int| 0 <= i < r@.len() ==> handler_kind(#[trigger] r@[i]),
        forall|k: Kind| handler_kind(k) ==> r@.contains(k),
{
    let all = Kind::all();
    let mut out: Vec<Kind> = Vec::new();
    let mut i: usize = 0;
    while i < all.len()
        invariant
            all@.len() == 21,
            forall|k: Kind| #[trigger] all@[kind_index(k)] == k,
            i <= 21,
            forall|j: int| 0 <= j < out@.len() ==> handler_kind(#[trigger] out@[j]),
            forall|j: int| 0 <= j < i && handler_kind(all@[j]) ==> out@.contains(#[trigger] all@[j]),
        decreases 21 - i,
    {
        let k = all[i];
        let keep = match k {
            Kind::StripeSessionPaid | Kind::StripeRefunded | Kind::StripeDisputed => false,
            _ => true,
        };
        if keep {
            let ghost before = out@;
            out.push(k);
            proof {
                assert(out@[out@.len() - 1] == k);
                assert forall|j: int| 0 <= j < i + 1 && handler_kind(all@[j]) implies out@.contains(#[trigger] all@[j]) by {
                    if j < i {
                        let m = choose|m: int| 0 <= m < before.len() && before[m] == all@[j];
                        assert(out@[m] == before[m]);
                    } else {
                        assert(out@[out@.len() - 1] == all@[j]);
                    }
                }
            }
        }
        i = i + 1;
    }
    proof {
        assert forall|k: Kind| handler_kind(k) implies out@.contains(k) by {
            assert(all@[kind_index(k)] == k);
        }
    }
    out
}

/// Every kind reads back as itself, and no two kinds share a name.
pub proof fn lemma_kind_round_trip(a: Kind, b: Kind)
    ensures
        kind_text(a) == kind_text(b) ==> a == b,
{
    reveal_strlit("tray.sown");
    reveal_strlit("trays.advanced");
    reveal_strlit("trays.harvested");
    reveal_strlit("tray.discarded");
    reveal_strlit("trays.discarded");
    reveal_strlit("recount.applied");
    reveal_strlit("undo");
    reveal_strlit("dev.backdated");
    reveal_strlit("attention.resolved");
    reveal_strlit("stripe.session_paid");
    reveal_strlit("stripe.refunded");
    reveal_strlit("stripe.disputed");
    reveal_strlit("snapshot.taken");
    reveal_strlit("cost.money_out");
    reveal_strlit("consumption.physical");
    reveal_strlit("mileage.trip");
    reveal_strlit("mileage.trip_corrected");
    reveal_strlit("mileage.trip_voided");
    reveal_strlit("asset.recorded");
    reveal_strlit("asset.corrected");
    reveal_strlit("asset.voided");
    if kind_text(a) == kind_text(b) {
        let ta = kind_text(a);
        let tb = kind_text(b);
        assert(ta.len() == tb.len());
        assert(ta[0] == tb[0]);
        assert(ta[4] == tb[4]);
        assert(ta.len() > 7 ==> ta[6] == tb[6] && ta[7] == tb[7]);
    }
}

} // verus!
