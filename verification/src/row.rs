use vstd::prelude::*;

use crate::alerts::{aviews, check_alerts, spec_first_match, Alert, Trigger};
use crate::flatten::{flatten_record, spec_flatten_record};
use crate::jsontext::{spec_json, to_json_string};
use crate::partition::{partition_key, spec_bucket_key};
use crate::schema::{evolve_record, spec_evolve_rec, sview, Field};
use crate::timestamp::{
    apply_timestamp_policy, spec_event_time, spec_in_window, spec_ts_field, TsDecision,
};
use crate::value::{sobj_get, sobj_set, vview, vview_seq, SpecValue, Value};

verus! {

/// Per-stream counters: the last failure reason alone survives.
pub struct RecordStatus {
    pub successful: u64,
    pub failed: u64,
    pub error: String,
}

pub struct StreamStatus {
    pub name: String,
    pub status: RecordStatus,
}

/// The row-path buffer: serialized accepted records bucketed by
/// partition key, in arrival order.
pub struct Buffer {
    pub entries: Vec<(String, Vec<String>)>,
}

pub open spec fn bview(entries: Seq<(String, Vec<String>)>) -> Seq<(Seq<char>, Seq<Seq<char>>)> {
    Seq::new(entries.len(), |i: int| (entries[i].0@, entries[i].1.deep_view()))
}

/// A buffer after one row lands at `key`: the first bucket of that key
/// grows, or a new bucket is appended.
pub open spec fn sbuf_push(
    bv: Seq<(Seq<char>, Seq<Seq<char>>)>,
    key: Seq<char>,
    row: Seq<char>,
) -> Seq<(Seq<char>, Seq<Seq<char>>)>
    decreases bv.len(),
{
    if bv.len() == 0 {
        seq![(key, seq![row])]
    } else if bv[0].0 == key {
        bv.update(0, (key, bv[0].1.push(row)))
    } else {
        seq![bv[0]] + sbuf_push(bv.drop_first(), key, row)
    }
}

/// Rows held by the bucket of `key`.
pub open spec fn srows_at(bv: Seq<(Seq<char>, Seq<Seq<char>>)>, key: Seq<char>) -> Seq<Seq<char>>
    decreases bv.len(),
{
    if bv.len() == 0 {
        Seq::empty()
    } else if bv[0].0 == key {
        bv[0].1
    } else {
        srows_at(bv.drop_first(), key)
    }
}

/// Total rows held across all buckets.
pub open spec fn stotal(bv: Seq<(Seq<char>, Seq<Seq<char>>)>) -> int
    decreases bv.len(),
{
    if bv.len() == 0 {
        0
    } else {
        bv[0].1.len() + stotal(bv.drop_first())
    }
}

/// Landing a row grows the buffer by exactly one row.
pub proof fn lemma_sbuf_push_total(
    bv: Seq<(Seq<char>, Seq<Seq<char>>)>,
    key: Seq<char>,
    row: Seq<char>,
)
    ensures
        stotal(sbuf_push(bv, key, row)) == stotal(bv) + 1,
    decreases bv.len(),
{
    if bv.len() == 0 {
        let res = sbuf_push(bv, key, row);
        assert(res == seq![(key, seq![row])]);
        assert(res[0] == (key, seq![row]));
        assert(res[0].1.len() == 1);
        assert(res.drop_first() =~= Seq::<(Seq<char>, Seq<Seq<char>>)>::empty());
        assert(stotal(res.drop_first()) == 0);
    } else if bv[0].0 == key {
        let up = bv.update(0, (key, bv[0].1.push(row)));
        assert(up[0] == (key, bv[0].1.push(row)));
        assert(up[0].1.len() == bv[0].1.len() + 1);
        assert(up.drop_first() =~= bv.drop_first());
    } else {
        let rest = sbuf_push(bv.drop_first(), key, row);
        assert((seq![bv[0]] + rest)[0] == bv[0]);
        assert((seq![bv[0]] + rest).drop_first() =~= rest);
        lemma_sbuf_push_total(bv.drop_first(), key, row);
    }
}

/// A row landed at `key` is appended to that bucket and no other.
pub proof fn lemma_sbuf_push_rows(
    bv: Seq<(Seq<char>, Seq<Seq<char>>)>,
    key: Seq<char>,
    row: Seq<char>,
)
    ensures
        srows_at(sbuf_push(bv, key, row), key) == srows_at(bv, key).push(row),
        forall|k: Seq<char>|
            k != key ==> srows_at(sbuf_push(bv, key, row), k) == srows_at(bv, k),
    decreases bv.len(),
{
    if bv.len() == 0 {
        let res = sbuf_push(bv, key, row);
        assert(res[0] == (key, seq![row]));
        assert(res.drop_first() =~= Seq::<(Seq<char>, Seq<Seq<char>>)>::empty());
        assert(srows_at(bv, key).push(row) =~= seq![row]);
        assert forall|k: Seq<char>| k != key implies srows_at(res, k) == srows_at(bv, k) by {
            assert(srows_at(res.drop_first(), k) == Seq::<Seq<char>>::empty());
        }
    } else if bv[0].0 == key {
        let up = bv.update(0, (key, bv[0].1.push(row)));
        assert(up[0] == (key, bv[0].1.push(row)));
        assert(up.drop_first() =~= bv.drop_first());
        assert forall|k: Seq<char>| k != key implies srows_at(up, k) == srows_at(bv, k) by {
            assert(up[0].0 == bv[0].0);
        }
    } else {
        let rest = sbuf_push(bv.drop_first(), key, row);
        assert((seq![bv[0]] + rest)[0] == bv[0]);
        assert((seq![bv[0]] + rest).drop_first() =~= rest);
        lemma_sbuf_push_rows(bv.drop_first(), key, row);
        assert(srows_at(seq![bv[0]] + rest, key) == srows_at(bv, key).push(row));
        assert forall|k: Seq<char>| k != key implies srows_at(seq![bv[0]] + rest, k) == srows_at(
            bv,
            k,
        ) by {
            if bv[0].0 != k {
                assert(srows_at(rest, k) == srows_at(bv.drop_first(), k));
            }
        }
    }
}

impl Buffer {
    pub fn new() -> (r: Buffer)
        ensures
            bview(r.entries@) == Seq::<(Seq<char>, Seq<Seq<char>>)>::empty(),
    {
        let r = Buffer { entries: Vec::new() };
        proof {
            assert(bview(r.entries@) =~= Seq::<(Seq<char>, Seq<Seq<char>>)>::empty());
        }
        r
    }

    /// Appends one serialized record to the bucket of `key`.
    #[verifier::loop_isolation(false)]
    pub fn push_row(&mut self, key: String, row: String)
        ensures
            bview(final(self).entries@) == sbuf_push(bview(old(self).entries@), key@, row@),
    {
        let ghost bv = bview(self.entries@);
        proof {
            assert(bv.skip(0) =~= bv);
        }
        let mut i: usize = 0;
        while i < self.entries.len()
            invariant
                i <= self.entries.len(),
                self.entries@ == old(self).entries@,
                forall|j: int| 0 <= j < i ==> bv[j].0 != key@,
                sbuf_push(bv, key@, row@) == bv.take(i as int) + sbuf_push(
                    bv.skip(i as int),
                    key@,
                    row@,
                ),
            decreases self.entries.len() - i,
        {
            proof {
                assert(bv.skip(i as int)[0] == bv[i as int]);
            }
            if self.entries[i].0 == key {
                let (k, mut rows) = self.entries.remove(i);
                rows.push(row);
                self.entries.insert(i, (k, rows));
                proof {
                    assert(sbuf_push(bv.skip(i as int), key@, row@) == bv.skip(i as int).update(
                        0,
                        (key@, bv[i as int].1.push(row@)),
                    ));
                    assert(bv.take(i as int) + bv.skip(i as int).update(
                        0,
                        (key@, bv[i as int].1.push(row@)),
                    ) =~= bv.update(i as int, (key@, bv[i as int].1.push(row@))));
                    assert(rows.deep_view() =~= bv[i as int].1.push(row@));
                    assert(bview(self.entries@) =~= bv.update(
                        i as int,
                        (key@, bv[i as int].1.push(row@)),
                    ));
                }
                return ;
            }
            proof {
                assert(sbuf_push(bv.skip(i as int), key@, row@) == seq![bv.skip(i as int)[0]]
                    + sbuf_push(bv.skip(i as int).drop_first(), key@, row@));
                assert(bv.skip(i as int).drop_first() =~= bv.skip(i + 1));
                assert(bv.take(i as int) + (seq![bv[i as int]] + sbuf_push(
                    bv.skip(i + 1),
                    key@,
                    row@,
                )) =~= bv.take(i + 1) + sbuf_push(bv.skip(i + 1), key@, row@));
            }
            i = i + 1;
        }
        proof {
            assert(bv.skip(i as int).len() == 0);
            assert(sbuf_push(bv.skip(i as int), key@, row@) == seq![(key@, seq![row@])]);
        }
        let mut rows: Vec<String> = Vec::new();
        rows.push(row);
        self.entries.push((key, rows));
        proof {
            assert(rows.deep_view() =~= seq![rows@[0]@]);
            assert(bview(self.entries@) =~= bv.take(old(self).entries@.len() as int) + seq![
                (key@, seq![rows@[0]@]),
            ]);
            assert(bv.take(old(self).entries@.len() as int) =~= bv);
        }
    }
}

/// The last failure reason stored when a timestamp cannot be parsed.
pub open spec fn spec_parse_error() -> Seq<char> {
    "failed to parse the record timestamp"@
}

pub fn parse_error_text() -> (r: String)
    ensures
        r@ == spec_parse_error(),
{
    "failed to parse the record timestamp".to_owned()
}

/// The last failure reason stored when an event time falls before the
/// acceptance window.
pub open spec fn spec_stale_error() -> Seq<char> {
    "event time is before the allowed ingestion window"@
}

pub fn stale_error_text() -> (r: String)
    ensures
        r@ == spec_stale_error(),
{
    "event time is before the allowed ingestion window".to_owned()
}

/// The flat shape of a record before timestamp injection.
pub open spec fn sp_flat(v: SpecValue) -> Seq<(Seq<char>, SpecValue)> {
    spec_flatten_record(v->Obj_0)
}

/// The record's resolved event time, before the window check.
pub open spec fn sp_et(v: SpecValue, now: int) -> Option<int> {
    spec_event_time(sp_flat(v), now)
}

/// A record the row path accepts: an object whose event time resolves
/// and falls inside the acceptance window.
pub open spec fn sp_accepted(v: SpecValue, now: int, upto: int) -> bool {
    &&& v is Obj
    &&& sp_et(v, now) is Some
    &&& spec_in_window(sp_et(v, now)->0, now, upto)
}

/// An object record whose carried timestamp does not parse.
pub open spec fn sp_bad_ts(v: SpecValue, now: int) -> bool {
    v is Obj && sp_et(v, now) is None
}

/// An object record whose event time falls before the window.
pub open spec fn sp_stale(v: SpecValue, now: int, upto: int) -> bool {
    &&& v is Obj
    &&& sp_et(v, now) is Some
    &&& !spec_in_window(sp_et(v, now)->0, now, upto)
}

/// The canonical stored shape of an accepted record: flattened, with
/// the resolved event time written under the canonical field.
pub open spec fn sp_stamped(v: SpecValue, now: int) -> Seq<(Seq<char>, SpecValue)> {
    sobj_set(sp_flat(v), spec_ts_field(), SpecValue::Int(sp_et(v, now)->0))
}


/// Idempotent timestamp injection: after the timestamp policy runs,
/// the canonical timestamp field of the stamped record equals the
/// resolved event time exactly, whatever the field held before and
/// whether or not it was present.
pub proof fn lemma_timestamp_injection(v: SpecValue, now: int)
    ensures
        sobj_get(sp_stamped(v, now), spec_ts_field()) == Some(
            SpecValue::Int(sp_et(v, now)->0),
        ),
{
    crate::value::lemma_set_then_get(
        sp_flat(v),
        spec_ts_field(),
        SpecValue::Int(sp_et(v, now)->0),
    );
}

/// How many records of a batch the row path accepts.
pub open spec fn sp_success(recs: Seq<SpecValue>, now: int, upto: int) -> int
    decreases recs.len(),
{
    if recs.len() == 0 {
        0
    } else {
        (if sp_accepted(recs[0], now, upto) {
            1int
        } else {
            0int
        }) + sp_success(recs.drop_first(), now, upto)
    }
}

/// The minimum accepted event time, folded from a seed of
/// `now + upto` so an empty batch stays bounded.
pub open spec fn sp_min_ts(recs: Seq<SpecValue>, now: int, upto: int, cur: int) -> int
    decreases recs.len(),
{
    if recs.len() == 0 {
        cur
    } else {
        sp_min_ts(
            recs.drop_first(),
            now,
            upto,
            if sp_accepted(recs[0], now, upto) && sp_et(recs[0], now)->0 < cur {
                sp_et(recs[0], now)->0
            } else {
                cur
            },
        )
    }
}

/// The last failure reason observed, overwritten not accumulated; a
/// non-object record is dropped without storing a reason.
pub open spec fn sp_error(recs: Seq<SpecValue>, now: int, upto: int, cur: Seq<char>) -> Seq<char>
    decreases recs.len(),
{
    if recs.len() == 0 {
        cur
    } else {
        sp_error(
            recs.drop_first(),
            now,
            upto,
            if sp_bad_ts(recs[0], now) {
                spec_parse_error()
            } else if sp_stale(recs[0], now, upto) {
                spec_stale_error()
            } else {
                cur
            },
        )
    }
}

/// The surviving trigger: the last accepted record that satisfied any
/// alert wins, and at most one trigger exists per request.
pub open spec fn sp_trigger(
    recs: Seq<SpecValue>,
    now: int,
    upto: int,
    alerts: Seq<(Seq<char>, Seq<char>, crate::alerts::CmpOp, int)>,
    org: Seq<char>,
    stream: Seq<char>,
    cur: Option<(Seq<char>, Seq<char>, Seq<char>)>,
) -> Option<(Seq<char>, Seq<char>, Seq<char>)>
    decreases recs.len(),
{
    if recs.len() == 0 {
        cur
    } else {
        sp_trigger(
            recs.drop_first(),
            now,
            upto,
            alerts,
            org,
            stream,
            if sp_accepted(recs[0], now, upto) {
                match spec_first_match(alerts, sp_stamped(recs[0], now)) {
                    Some(i) => Some((alerts[i].0, org, stream)),
                    None => cur,
                }
            } else {
                cur
            },
        )
    }
}

/// The stream schema after incremental evolution over every accepted
/// record, in order.
pub open spec fn sp_schema(
    recs: Seq<SpecValue>,
    now: int,
    upto: int,
    cur: Seq<(Seq<char>, crate::schema::DataType, bool)>,
) -> Seq<(Seq<char>, crate::schema::DataType, bool)>
    decreases recs.len(),
{
    if recs.len() == 0 {
        cur
    } else {
        sp_schema(
            recs.drop_first(),
            now,
            upto,
            if sp_accepted(recs[0], now, upto) {
                spec_evolve_rec(cur, sp_stamped(recs[0], now))
            } else {
                cur
            },
        )
    }
}

/// The buffer after every accepted record's serialized row lands in
/// the bucket of its partition key.
pub open spec fn sp_buffer(
    recs: Seq<SpecValue>,
    now: int,
    upto: int,
    keys: Seq<Seq<char>>,
    cur: Seq<(Seq<char>, Seq<Seq<char>>)>,
) -> Seq<(Seq<char>, Seq<Seq<char>>)>
    decreases recs.len(),
{
    if recs.len() == 0 {
        cur
    } else {
        sp_buffer(
            recs.drop_first(),
            now,
            upto,
            keys,
            if sp_accepted(recs[0], now, upto) {
                sbuf_push(
                    cur,
                    spec_bucket_key(sp_stamped(recs[0], now), keys),
                    spec_json(SpecValue::Obj(sp_stamped(recs[0], now))),
                )
            } else {
                cur
            },
        )
    }
}

/// Exactly the accepted records land in the buffer: the handoff holds
/// one serialized row per accepted record.
pub proof fn lemma_buffer_total(
    recs: Seq<SpecValue>,
    now: int,
    upto: int,
    keys: Seq<Seq<char>>,
    cur: Seq<(Seq<char>, Seq<Seq<char>>)>,
)
    ensures
        stotal(sp_buffer(recs, now, upto, keys, cur)) == stotal(cur) + sp_success(
            recs,
            now,
            upto,
        ),
    decreases recs.len(),
{
    if recs.len() > 0 {
        if sp_accepted(recs[0], now, upto) {
            lemma_sbuf_push_total(
                cur,
                spec_bucket_key(sp_stamped(recs[0], now), keys),
                spec_json(SpecValue::Obj(sp_stamped(recs[0], now))),
            );
            lemma_buffer_total(
                recs.drop_first(),
                now,
                upto,
                keys,
                sbuf_push(
                    cur,
                    spec_bucket_key(sp_stamped(recs[0], now), keys),
                    spec_json(SpecValue::Obj(sp_stamped(recs[0], now))),
                ),
            );
        } else {
            lemma_buffer_total(recs.drop_first(), now, upto, keys, cur);
        }
    }
}


/// At most one trigger survives a request, whatever N records and M
/// rules matched; it exists exactly when some accepted record, or the
/// fold's seed, satisfied an alert.
pub proof fn lemma_at_most_one_trigger(
    recs: Seq<SpecValue>,
    now: int,
    upto: int,
    alerts: Seq<(Seq<char>, Seq<char>, crate::alerts::CmpOp, int)>,
    org: Seq<char>,
    stream: Seq<char>,
    cur: Option<(Seq<char>, Seq<char>, Seq<char>)>,
)
    ensures
        sp_trigger(recs, now, upto, alerts, org, stream, cur) is Some <==> (cur is Some || exists|
            i: int,
        |
            0 <= i < recs.len() && sp_accepted(recs[i], now, upto) && spec_first_match(
                alerts,
                sp_stamped(recs[i], now),
            ) is Some),
    decreases recs.len(),
{
    if recs.len() == 0 {
    } else {
        let stepped = if sp_accepted(recs[0], now, upto) {
            match spec_first_match(alerts, sp_stamped(recs[0], now)) {
                Some(i) => Some((alerts[i].0, org, stream)),
                None => cur,
            }
        } else {
            cur
        };
        lemma_at_most_one_trigger(recs.drop_first(), now, upto, alerts, org, stream, stepped);
        let tail = recs.drop_first();
        if sp_trigger(recs, now, upto, alerts, org, stream, cur) is Some {
            if stepped is Some && cur is None && !(exists|i: int|
                0 <= i < tail.len() && sp_accepted(tail[i], now, upto) && spec_first_match(
                    alerts,
                    sp_stamped(tail[i], now),
                ) is Some) {
                assert(sp_accepted(recs[0], now, upto) && spec_first_match(
                    alerts,
                    sp_stamped(recs[0], now),
                ) is Some);
            }
            if stepped is None && (exists|i: int|
                0 <= i < tail.len() && sp_accepted(tail[i], now, upto) && spec_first_match(
                    alerts,
                    sp_stamped(tail[i], now),
                ) is Some) {
                let w = choose|i: int|
                    0 <= i < tail.len() && sp_accepted(tail[i], now, upto) && spec_first_match(
                        alerts,
                        sp_stamped(tail[i], now),
                    ) is Some;
                assert(tail[w] == recs[w + 1]);
            }
        } else {
            assert(cur is None);
            assert forall|i: int|
                0 <= i < recs.len() implies !(sp_accepted(recs[i], now, upto) && spec_first_match(
                alerts,
                sp_stamped(recs[i], now),
            ) is Some) by {
                if i > 0 {
                    assert(recs[i] == tail[i - 1]);
                }
            }
        }
    }
}

pub struct RowOutcome {
    pub buffer: Buffer,
    pub status: RecordStatus,
    pub min_ts: i64,
    pub trigger: Option<Trigger>,
}

/// The row-oriented path over one request's batch: each record is
/// flattened, timestamped against the acceptance window, folded into
/// the evolving schema, matched against the stream's alerts, and its
/// serialized form landed in the bucket of its partition key. Failures
/// are per record; the batch never fails as a whole.
#[verifier::loop_isolation(false)]
#[verifier::rlimit(100)]
pub fn process_rows(
    records: &Vec<Value>,
    now: i64,
    upto_micros: i64,
    keys: &Vec<String>,
    alerts: &Vec<Alert>,
    org: &String,
    stream: &String,
    schema_fields: &mut Vec<Field>,
) -> (r: RowOutcome)
    requires
        0 <= upto_micros,
        i64::MIN <= now - upto_micros,
        now + upto_micros <= i64::MAX,
    ensures
        ({
            let recs = vview_seq(records@);
            &&& r.status.successful as int == sp_success(recs, now as int, upto_micros as int)
            &&& r.status.successful + r.status.failed == records@.len()
            &&& r.status.error@ == sp_error(recs, now as int, upto_micros as int, Seq::empty())
            &&& r.min_ts as int == sp_min_ts(
                recs,
                now as int,
                upto_micros as int,
                now + upto_micros,
            )
            &&& match r.trigger {
                Some(t) => sp_trigger(
                    recs,
                    now as int,
                    upto_micros as int,
                    aviews(alerts@),
                    org@,
                    stream@,
                    None,
                ) == Some((t.alert_name@, t.org@, t.stream@)),
                None => sp_trigger(
                    recs,
                    now as int,
                    upto_micros as int,
                    aviews(alerts@),
                    org@,
                    stream@,
                    None,
                ) is None,
            }
            &&& sview(final(schema_fields)@) == sp_schema(
                recs,
                now as int,
                upto_micros as int,
                sview(old(schema_fields)@),
            )
            &&& bview(r.buffer.entries@) == sp_buffer(
                recs,
                now as int,
                upto_micros as int,
                keys.deep_view(),
                Seq::empty(),
            )
            &&& stotal(bview(r.buffer.entries@)) == r.status.successful as int
        }),
{
    let ghost recs = vview_seq(records@);
    let ghost nowi = now as int;
    let ghost uptoi = upto_micros as int;
    let ghost av = aviews(alerts@);
    let ghost kv = keys.deep_view();
    proof {
        crate::value::lemma_vview_seq(records@);
        assert(recs.skip(0) =~= recs);
    }
    let mut buffer = Buffer::new();
    let mut successful: u64 = 0;
    let mut failed: u64 = 0;
    let mut error: String = String::new();
    let mut min_ts: i64 = now + upto_micros;
    let mut trigger: Option<Trigger> = None;
    let mut i: usize = 0;
    while i < records.len()
        invariant
            i <= records.len(),
            successful + failed == i,
            sp_success(recs, nowi, uptoi) == successful + sp_success(recs.skip(i as int), nowi, uptoi),
            sp_error(recs, nowi, uptoi, Seq::empty()) == sp_error(
                recs.skip(i as int),
                nowi,
                uptoi,
                error@,
            ),
            sp_min_ts(recs, nowi, uptoi, now + upto_micros) == sp_min_ts(
                recs.skip(i as int),
                nowi,
                uptoi,
                min_ts as int,
            ),
            i64::MIN <= min_ts <= now + upto_micros,
            sp_trigger(recs, nowi, uptoi, av, org@, stream@, None) == sp_trigger(
                recs.skip(i as int),
                nowi,
                uptoi,
                av,
                org@,
                stream@,
                match trigger {
                    Some(t) => Some((t.alert_name@, t.org@, t.stream@)),
                    None => None,
                },
            ),
            sp_schema(recs, nowi, uptoi, sview(old(schema_fields)@)) == sp_schema(
                recs.skip(i as int),
                nowi,
                uptoi,
                sview(schema_fields@),
            ),
            sp_buffer(recs, nowi, uptoi, kv, Seq::empty()) == sp_buffer(
                recs.skip(i as int),
                nowi,
                uptoi,
                kv,
                bview(buffer.entries@),
            ),
            stotal(bview(buffer.entries@)) == successful as int,
        decreases records.len() - i,
    {
        proof {
            assert(recs.skip(i as int)[0] == recs[i as int]);
            assert(recs.skip(i as int).drop_first() =~= recs.skip(i + 1));
            assert(recs[i as int] == vview(records@[i as int]));
        }
        let ghost v0 = recs[i as int];
        match &records[i] {
            Value::Obj(fields) => {
                proof {
                    assert(v0->Obj_0 == crate::value::vview_fields(fields@));
                }
                let mut flat = flatten_record(fields);
                match apply_timestamp_policy(&mut flat, now, upto_micros) {
                    TsDecision::ParseFailed => {
                        proof {
                            assert(sp_bad_ts(v0, nowi));
                        }
                        failed = failed + 1;
                        error = parse_error_text();
                    },
                    TsDecision::Stale => {
                        proof {
                            assert(sp_stale(v0, nowi, uptoi));
                        }
                        failed = failed + 1;
                        error = stale_error_text();
                    },
                    TsDecision::Stamped(ts) => {
                        proof {
                            assert(sp_accepted(v0, nowi, uptoi));
                            assert(sp_et(v0, nowi) == Some(ts as int));
                            assert(crate::value::vview_fields(flat@) == sp_stamped(v0, nowi));
                            lemma_sbuf_push_total(
                                bview(buffer.entries@),
                                spec_bucket_key(sp_stamped(v0, nowi), kv),
                                spec_json(SpecValue::Obj(sp_stamped(v0, nowi))),
                            );
                        }
                        if ts < min_ts {
                            min_ts = ts;
                        }
                        evolve_record(schema_fields, &flat);
                        match check_alerts(alerts, &flat, org, stream) {
                            Some(t) => {
                                trigger = Some(t);
                            },
                            None => {},
                        }
                        let key = partition_key(&flat, keys);
                        let stamped = Value::Obj(flat);
                        let row = to_json_string(&stamped);
                        buffer.push_row(key, row);
                        successful = successful + 1;
                    },
                }
            },
            _ => {
                proof {
                    assert(!(v0 is Obj));
                }
                failed = failed + 1;
            },
        }
        i = i + 1;
    }
    proof {
        assert(recs.skip(records@.len() as int).len() == 0);
    }
    RowOutcome {
        buffer,
        status: RecordStatus { successful, failed, error },
        min_ts,
        trigger,
    }
}

} // verus!
