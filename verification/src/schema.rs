use vstd::prelude::*;

use crate::jsontext::{push_idec, spec_idec, string_of};
use crate::timestamp::spec_ts_field;
use crate::value::{SpecValue};

verus! {

/// Column types a stream schema can declare.
#[derive(Clone, Copy, PartialEq, Eq, Structural, Debug)]
pub enum DataType {
    Null,
    Bool,
    Int64,
    Float64,
    Utf8,
}

pub struct Field {
    pub name: String,
    pub data_type: DataType,
    pub nullable: bool,
}

/// A stream's schema: an ordered field list plus free-form metadata.
pub struct StreamSchema {
    pub fields: Vec<Field>,
    pub metadata: Vec<(String, String)>,
}

pub open spec fn fview(f: Field) -> (Seq<char>, DataType, bool) {
    (f.name@, f.data_type, f.nullable)
}

pub open spec fn sview(fields: Seq<Field>) -> Seq<(Seq<char>, DataType, bool)> {
    Seq::new(fields.len(), |i: int| fview(fields[i]))
}

/// First field of the given name, if any.
pub open spec fn sfind(
    fields: Seq<(Seq<char>, DataType, bool)>,
    name: Seq<char>,
) -> Option<(DataType, bool)>
    decreases fields.len(),
{
    if fields.len() == 0 {
        None
    } else if fields[0].0 == name {
        Some((fields[0].1, fields[0].2))
    } else {
        sfind(fields.drop_first(), name)
    }
}

/// The column type inferred for one record value. Nested values are
/// stored as their JSON text, so they infer as text columns.
pub open spec fn spec_infer_type(v: SpecValue) -> DataType {
    match v {
        SpecValue::Null => DataType::Null,
        SpecValue::Bool(_) => DataType::Bool,
        SpecValue::Int(_) => DataType::Int64,
        SpecValue::Float(_) => DataType::Float64,
        SpecValue::Str(_) => DataType::Utf8,
        SpecValue::Arr(_) => DataType::Utf8,
        SpecValue::Obj(_) => DataType::Utf8,
    }
}

pub fn infer_type(v: &crate::value::Value) -> (r: DataType)
    ensures
        r == spec_infer_type(crate::value::vview(*v)),
{
    match v {
        crate::value::Value::Null => DataType::Null,
        crate::value::Value::Bool(_) => DataType::Bool,
        crate::value::Value::Int(_) => DataType::Int64,
        crate::value::Value::Float(_) => DataType::Float64,
        crate::value::Value::Str(_) => DataType::Utf8,
        crate::value::Value::Arr(_) => DataType::Utf8,
        crate::value::Value::Obj(_) => DataType::Utf8,
    }
}

/// Structural compatibility of two column types: equal types merge,
/// `Null` merges with anything, and the two integer-like numeric types
/// widen to `Float64`. Everything else conflicts.
pub open spec fn spec_merge_type(a: DataType, b: DataType) -> Option<DataType> {
    if a == b {
        Some(a)
    } else if a == DataType::Null {
        Some(b)
    } else if b == DataType::Null {
        Some(a)
    } else if (a == DataType::Int64 && b == DataType::Float64) || (a == DataType::Float64 && b
        == DataType::Int64) {
        Some(DataType::Float64)
    } else {
        None
    }
}

/// Additive widening used on the row path: a conflict falls back to
/// text rather than dropping the record.
pub open spec fn spec_widen(a: DataType, b: DataType) -> DataType {
    match spec_merge_type(a, b) {
        Some(t) => t,
        None => DataType::Utf8,
    }
}

fn merge_type(a: DataType, b: DataType) -> (r: Option<DataType>)
    ensures
        r == spec_merge_type(a, b),
{
    if a == b {
        Some(a)
    } else if a == DataType::Null {
        Some(b)
    } else if b == DataType::Null {
        Some(a)
    } else if (a == DataType::Int64 && b == DataType::Float64) || (a == DataType::Float64 && b
        == DataType::Int64) {
        Some(DataType::Float64)
    } else {
        None
    }
}

/// The field list after one observed (name, type): the first field of
/// that name widens, or a new nullable field is appended.
pub open spec fn spec_evolve_one(
    fields: Seq<(Seq<char>, DataType, bool)>,
    name: Seq<char>,
    dt: DataType,
) -> Seq<(Seq<char>, DataType, bool)>
    decreases fields.len(),
{
    if fields.len() == 0 {
        seq![(name, dt, true)]
    } else if fields[0].0 == name {
        fields.update(0, (name, spec_widen(fields[0].1, dt), fields[0].2))
    } else {
        seq![fields[0]] + spec_evolve_one(fields.drop_first(), name, dt)
    }
}

/// The field list after every field of one record has been observed.
pub open spec fn spec_evolve_rec(
    fields: Seq<(Seq<char>, DataType, bool)>,
    rec: Seq<(Seq<char>, SpecValue)>,
) -> Seq<(Seq<char>, DataType, bool)>
    decreases rec.len(),
{
    if rec.len() == 0 {
        fields
    } else {
        spec_evolve_rec(
            spec_evolve_one(fields, rec[0].0, spec_infer_type(rec[0].1)),
            rec.drop_first(),
        )
    }
}

#[verifier::loop_isolation(false)]
fn evolve_one(fields: &mut Vec<Field>, name: &String, dt: DataType)
    ensures
        sview(final(fields)@) == spec_evolve_one(sview(old(fields)@), name@, dt),
{
    let ghost sf = sview(fields@);
    proof {
        assert(sf.skip(0) =~= sf);
    }
    let mut i: usize = 0;
    while i < fields.len()
        invariant
            i <= fields.len(),
            fields@ == old(fields)@,
            forall|j: int| 0 <= j < i ==> sf[j].0 != name@,
            spec_evolve_one(sf, name@, dt) == sf.take(i as int) + spec_evolve_one(
                sf.skip(i as int),
                name@,
                dt,
            ),
        decreases fields.len() - i,
    {
        proof {
            assert(sf.skip(i as int)[0] == sf[i as int]);
        }
        if fields[i].name == *name {
            let widened = match merge_type(fields[i].data_type, dt) {
                Some(t) => t,
                None => DataType::Utf8,
            };
            let nullable = fields[i].nullable;
            fields.set(
                i,
                Field { name: name.clone(), data_type: widened, nullable },
            );
            proof {
                assert(spec_evolve_one(sf.skip(i as int), name@, dt) == sf.skip(i as int).update(
                    0,
                    (name@, spec_widen(sf[i as int].1, dt), sf[i as int].2),
                ));
                assert(sf.take(i as int) + sf.skip(i as int).update(
                    0,
                    (name@, spec_widen(sf[i as int].1, dt), sf[i as int].2),
                ) =~= sf.update(i as int, (name@, spec_widen(sf[i as int].1, dt), sf[i as int].2)));
                assert(sview(fields@) =~= sf.update(
                    i as int,
                    (name@, spec_widen(sf[i as int].1, dt), sf[i as int].2),
                ));
            }
            return ;
        }
        proof {
            assert(spec_evolve_one(sf.skip(i as int), name@, dt) == seq![sf.skip(i as int)[0]]
                + spec_evolve_one(sf.skip(i as int).drop_first(), name@, dt));
            assert(sf.skip(i as int).drop_first() =~= sf.skip(i + 1));
            assert(sf.take(i as int) + (seq![sf[i as int]] + spec_evolve_one(
                sf.skip(i + 1),
                name@,
                dt,
            )) =~= sf.take(i + 1) + spec_evolve_one(sf.skip(i + 1), name@, dt));
        }
        i = i + 1;
    }
    proof {
        assert(sf.skip(i as int).len() == 0);
    }
    fields.push(Field { name: name.clone(), data_type: dt, nullable: true });
    proof {
        assert(sview(fields@) =~= sf.take(old(fields)@.len() as int) + seq![(name@, dt, true)]);
        assert(sf.take(old(fields)@.len() as int) =~= sf);
    }
}

/// Evolves a schema's field list against one record's shape: the
/// incremental row-path evolution, and one step of inference on the
/// columnar path.
#[verifier::loop_isolation(false)]
pub fn evolve_record(fields: &mut Vec<Field>, rec: &Vec<(String, crate::value::Value)>)
    ensures
        sview(final(fields)@) == spec_evolve_rec(
            sview(old(fields)@),
            crate::value::vview_fields(rec@),
        ),
{
    proof {
        crate::value::lemma_vview_fields(rec@);
    }
    let ghost rv = crate::value::vview_fields(rec@);
    proof {
        assert(rv.skip(0) =~= rv);
    }
    let mut i: usize = 0;
    while i < rec.len()
        invariant
            i <= rec.len(),
            spec_evolve_rec(sview(old(fields)@), rv) == spec_evolve_rec(
                sview(fields@),
                rv.skip(i as int),
            ),
        decreases rec.len() - i,
    {
        proof {
            assert(rv.skip(i as int)[0] == rv[i as int]);
            assert(rv.skip(i as int).drop_first() =~= rv.skip(i + 1));
        }
        let dt = infer_type(&rec[i].1);
        evolve_one(fields, &rec[i].0, dt);
        i = i + 1;
    }
    proof {
        assert(rv.skip(i as int).len() == 0);
    }
}

/// A merge conflict between an existing schema and an inferred one:
/// some inferred field's type is incompatible with the declared type
/// of the same name.
pub open spec fn spec_conflict_at(
    existing: Seq<(Seq<char>, DataType, bool)>,
    inferred: Seq<(Seq<char>, DataType, bool)>,
    i: int,
) -> bool {
    &&& 0 <= i < inferred.len()
    &&& match sfind(existing, inferred[i].0) {
        Some((t, _)) => spec_merge_type(t, inferred[i].1) is None,
        None => false,
    }
}

pub open spec fn spec_has_conflict(
    existing: Seq<(Seq<char>, DataType, bool)>,
    inferred: Seq<(Seq<char>, DataType, bool)>,
) -> bool {
    exists|i: int| spec_conflict_at(existing, inferred, i)
}

#[verifier::loop_isolation(false)]
fn find_declared(fields: &Vec<Field>, name: &String) -> (r: Option<DataType>)
    ensures
        match r {
            Some(t) => exists|n: bool| sfind(sview(fields@), name@) == Some((t, n)),
            None => sfind(sview(fields@), name@) is None,
        },
{
    let ghost sf = sview(fields@);
    proof {
        assert(sf.skip(0) =~= sf);
    }
    let mut i: usize = 0;
    while i < fields.len()
        invariant
            i <= fields.len(),
            sfind(sf, name@) == sfind(sf.skip(i as int), name@),
        decreases fields.len() - i,
    {
        proof {
            assert(sf.skip(i as int)[0] == sf[i as int]);
            assert(sf.skip(i as int).drop_first() =~= sf.skip(i + 1));
        }
        if fields[i].name == *name {
            let witness = fields[i].nullable;
            proof {
                assert(sfind(sf, name@) == Some((sf[i as int].1, sf[i as int].2)));
            }
            return Some(fields[i].data_type);
        }
        i = i + 1;
    }
    proof {
        assert(sf.skip(i as int).len() == 0);
    }
    None
}

/// Structural merge of an inferred schema against the existing one:
/// A conflict is fatal; on success the existing
/// schema stays authoritative, so nothing is changed here.
#[verifier::loop_isolation(false)]
pub fn try_merge(existing: &StreamSchema, inferred: &StreamSchema) -> (r: Result<(), String>)
    ensures
        r is Err <==> spec_has_conflict(sview(existing.fields@), sview(inferred.fields@)),
{
    let ghost ex = sview(existing.fields@);
    let ghost inf = sview(inferred.fields@);
    let mut i: usize = 0;
    while i < inferred.fields.len()
        invariant
            i <= inferred.fields.len(),
            forall|j: int| 0 <= j < i ==> !spec_conflict_at(ex, inf, j),
        decreases inferred.fields.len() - i,
    {
        match find_declared(&existing.fields, &inferred.fields[i].name) {
            Some(t) => {
                if merge_type(t, inferred.fields[i].data_type).is_none() {
                    proof {
                        assert(spec_conflict_at(ex, inf, i as int));
                    }
                    return Err(inferred.fields[i].name.clone());
                }
            },
            None => {},
        }
        proof {
            assert(!spec_conflict_at(ex, inf, i as int));
        }
        i = i + 1;
    }
    Ok(())
}

/// Forces the canonical event-time column, nullable 64-bit integer, to
/// schema position zero when it is not already declared.
pub fn ensure_ts_field(fields: &mut Vec<Field>)
    ensures
        sfind(sview(old(fields)@), spec_ts_field()) is Some ==> final(fields)@ == old(fields)@,
        sfind(sview(old(fields)@), spec_ts_field()) is None ==> sview(final(fields)@) == seq![
            (spec_ts_field(), DataType::Int64, true),
        ] + sview(old(fields)@),
        sfind(sview(final(fields)@), spec_ts_field()) is Some,
{
    let name = crate::timestamp::ts_field_name();
    match find_declared(fields, &name) {
        Some(_) => {},
        None => {
            fields.insert(0, Field { name, data_type: DataType::Int64, nullable: true });
            proof {
                assert(sview(fields@) =~= seq![(spec_ts_field(), DataType::Int64, true)] + sview(
                    old(fields)@,
                ));
                assert(sview(fields@)[0].0 == spec_ts_field());
            }
        },
    }
}

/// Stamps schema metadata with the request's resolved creation time,
/// written as decimal text.
pub fn stamp_created_at(schema: &mut StreamSchema, ts: i64)
    ensures
        final(schema).fields == old(schema).fields,
        final(schema).metadata@.len() == old(schema).metadata@.len() + 1,
        final(schema).metadata@.drop_last() == old(schema).metadata@,
        final(schema).metadata@.last().0@ == "created_at"@,
        final(schema).metadata@.last().1@ == spec_idec(ts as int),
{
    let key: String = "created_at".to_owned();
    let mut chars: Vec<char> = Vec::new();
    push_idec(&mut chars, ts);
    let text = string_of(&chars);
    schema.metadata.push((key, text));
    proof {
        assert(schema.metadata@.drop_last() =~= old(schema).metadata@);
    }
}

} // verus!
