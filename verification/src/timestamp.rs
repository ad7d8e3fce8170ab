use vstd::prelude::*;

use crate::clock::{parse_rfc3339_micros, rfc3339_micros_of};
use crate::value::{
    lemma_set_then_get, set_field, obj_get, sobj_get, sobj_set, vview, vview_fields, SpecValue,
    Value,
};

verus! {

/// The canonical event-time field of every stored record.
pub open spec fn spec_ts_field() -> Seq<char> {
    "_timestamp"@
}

pub fn ts_field_name() -> (r: String)
    ensures
        r@ == spec_ts_field(),
{
    "_timestamp".to_owned()
}

/// A numeric timestamp normalized to microseconds by its magnitude:
/// seconds, milliseconds, microseconds or nanoseconds since the epoch.
/// Negative stamps are rejected.
pub open spec fn spec_normalize_micros(t: int) -> Option<int> {
    if t < 0 {
        None
    } else if t < 10_000_000_000 {
        Some(t * 1_000_000)
    } else if t < 10_000_000_000_000 {
        Some(t * 1000)
    } else if t < 10_000_000_000_000_000 {
        Some(t)
    } else {
        Some(t / 1000)
    }
}

pub fn normalize_micros(t: i64) -> (r: Option<i64>)
    ensures
        match r {
            Some(m) => spec_normalize_micros(t as int) == Some(m as int),
            None => spec_normalize_micros(t as int) is None,
        },
{
    if t < 0 {
        None
    } else if t < 10_000_000_000 {
        Some(t * 1_000_000)
    } else if t < 10_000_000_000_000 {
        Some(t * 1000)
    } else if t < 10_000_000_000_000_000 {
        Some(t)
    } else {
        Some(t / 1000)
    }
}

/// The event time carried by a record value: an integer is normalized
/// by magnitude, a string is read as RFC 3339; every other shape fails.
pub open spec fn spec_parse_ts(v: SpecValue) -> Option<int> {
    match v {
        SpecValue::Int(t) => spec_normalize_micros(t),
        SpecValue::Str(s) => match rfc3339_micros_of(s) {
            Some(m) => Some(m as int),
            None => None,
        },
        _ => None,
    }
}

pub fn parse_ts(v: &Value) -> (r: Option<i64>)
    ensures
        match r {
            Some(m) => spec_parse_ts(vview(*v)) == Some(m as int),
            None => spec_parse_ts(vview(*v)) is None,
        },
{
    match v {
        Value::Int(t) => normalize_micros(*t),
        Value::Str(s) => parse_rfc3339_micros(s),
        _ => None,
    }
}

/// The resolved event time of a flat record: its canonical timestamp
/// field when present (`None` on a parse failure), else "now".
pub open spec fn spec_event_time(fields: Seq<(Seq<char>, SpecValue)>, now: int) -> Option<int> {
    match sobj_get(fields, spec_ts_field()) {
        Some(v) => spec_parse_ts(v),
        None => Some(now),
    }
}

/// The sliding acceptance window: boundary inclusive.
pub open spec fn spec_in_window(ts: int, now: int, upto_micros: int) -> bool {
    ts >= now - upto_micros
}

/// A record with an event time exactly at `now - upto` is accepted;
/// one earlier than `now - upto` is rejected; a future-dated one is
/// never rejected on this path.
pub proof fn lemma_acceptance_window(ts: int, now: int, upto_micros: int)
    requires
        upto_micros >= 0,
    ensures
        ts == now - upto_micros ==> spec_in_window(ts, now, upto_micros),
        ts < now - upto_micros ==> !spec_in_window(ts, now, upto_micros),
        ts >= now ==> spec_in_window(ts, now, upto_micros),
{
}

pub enum TsDecision {
    Stamped(i64),
    ParseFailed,
    Stale,
}

/// Resolves a flat record's event time against the acceptance window
/// and writes it back under the canonical timestamp field.
pub fn apply_timestamp_policy(
    fields: &mut Vec<(String, Value)>,
    now: i64,
    upto_micros: i64,
) -> (r: TsDecision)
    requires
        0 <= upto_micros,
        i64::MIN <= now - upto_micros,
    ensures
        match r {
            TsDecision::Stamped(ts) => {
                &&& spec_event_time(vview_fields(old(fields)@), now as int) == Some(ts as int)
                &&& spec_in_window(ts as int, now as int, upto_micros as int)
                &&& vview_fields(final(fields)@) == sobj_set(
                    vview_fields(old(fields)@),
                    spec_ts_field(),
                    SpecValue::Int(ts as int),
                )
                &&& sobj_get(vview_fields(final(fields)@), spec_ts_field()) == Some(
                    SpecValue::Int(ts as int),
                )
            },
            TsDecision::ParseFailed => {
                &&& spec_event_time(vview_fields(old(fields)@), now as int) is None
                &&& final(fields)@ == old(fields)@
            },
            TsDecision::Stale => {
                &&& {
                    let et = spec_event_time(vview_fields(old(fields)@), now as int);
                    et is Some && !spec_in_window(et->0, now as int, upto_micros as int)
                }
                &&& final(fields)@ == old(fields)@
            },
        },
{
    let name = ts_field_name();
    let parsed: Option<i64>;
    let present: bool;
    match obj_get(fields, &name) {
        Some(v) => {
            present = true;
            parsed = parse_ts(v);
        },
        None => {
            present = false;
            parsed = None;
        },
    }
    let ts: i64;
    if present {
        match parsed {
            Some(t) => {
                ts = t;
            },
            None => {
                return TsDecision::ParseFailed;
            },
        }
    } else {
        ts = now;
    }
    if ts < now - upto_micros {
        return TsDecision::Stale;
    }
    proof {
        lemma_set_then_get(vview_fields(fields@), spec_ts_field(), SpecValue::Int(ts as int));
    }
    set_field(fields, name, Value::Int(ts));
    TsDecision::Stamped(ts)
}

} // verus!
