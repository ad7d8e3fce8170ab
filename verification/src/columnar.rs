use vstd::prelude::*;

use crate::jsontext::{spec_idec, spec_json, to_json_string, push_idec, string_of};
use crate::schema::{
    ensure_ts_field, evolve_record, sfind, spec_evolve_rec, spec_has_conflict, sview, try_merge,
    DataType, Field, StreamSchema,
};
use crate::timestamp::spec_ts_field;
use crate::value::{sobj_get, vview, vview_seq, SpecValue, Value};

verus! {

/// One typed column of a columnar batch. A `Float64` column carries
/// each number's decimal text; turning the text into machine floats is
/// the storage adapter's concern.
pub enum Column {
    Int64(Vec<Option<i64>>),
    Float64(Vec<Option<String>>),
    Utf8(Vec<Option<String>>),
    Bool(Vec<Option<bool>>),
    Null(usize),
}

/// A set of equal-length typed columns sharing one schema, plus the
/// raw byte size of the originating request.
pub struct ColumnarBatch {
    pub columns: Vec<Column>,
    pub num_rows: usize,
    pub byte_size: usize,
    pub capacity: usize,
}

/// The cell a record contributes to the column of `name`: an explicit
/// null and an absent field both yield a null cell.
pub open spec fn spec_cell(rec: SpecValue, name: Seq<char>) -> Option<SpecValue> {
    match rec {
        SpecValue::Obj(fs) => match sobj_get(fs, name) {
            Some(v) => if v is Null {
                None
            } else {
                Some(v)
            },
            None => None,
        },
        _ => None,
    }
}

/// The total conversion rule into a typed column: which shapes a cell
/// of each column type accepts.
pub open spec fn spec_cell_ok(dt: DataType, cell: Option<SpecValue>) -> bool {
    match cell {
        None => true,
        Some(v) => match dt {
            DataType::Null => false,
            DataType::Bool => v is Bool,
            DataType::Int64 => v is Int,
            DataType::Float64 => v is Int || v is Float,
            DataType::Utf8 => v is Str || v is Arr || v is Obj,
        },
    }
}

/// Every cell of every record decodes against the schema.
pub open spec fn spec_all_cells_ok(
    fields: Seq<(Seq<char>, DataType, bool)>,
    recs: Seq<SpecValue>,
) -> bool {
    &&& forall|r: int| 0 <= r < recs.len() ==> recs[r] is Obj
    &&& forall|j: int, r: int|
        0 <= j < fields.len() && 0 <= r < recs.len() ==> #[trigger] spec_cell_ok(
            fields[j].1,
            spec_cell(recs[r], fields[j].0),
        )
}

/// One column's contents agree, cell for cell, with the conversion of
/// every record under the column's declared type.
pub open spec fn spec_column_matches(
    col: Column,
    dt: DataType,
    name: Seq<char>,
    recs: Seq<SpecValue>,
) -> bool {
    match col {
        Column::Int64(vals) => {
            &&& dt == DataType::Int64
            &&& vals@.len() == recs.len()
            &&& forall|r: int|
                #![trigger vals@[r]]
                0 <= r < recs.len() ==> match vals@[r] {
                    Some(x) => spec_cell(recs[r], name) == Some(SpecValue::Int(x as int)),
                    None => spec_cell(recs[r], name) is None,
                }
        },
        Column::Float64(vals) => {
            &&& dt == DataType::Float64
            &&& vals@.len() == recs.len()
            &&& forall|r: int|
                #![trigger vals@[r]]
                0 <= r < recs.len() ==> match vals@[r] {
                    Some(s) => match spec_cell(recs[r], name) {
                        Some(v) => match v {
                            SpecValue::Int(x) => s@ == spec_idec(x),
                            SpecValue::Float(t) => s@ == t,
                            _ => false,
                        },
                        None => false,
                    },
                    None => spec_cell(recs[r], name) is None,
                }
        },
        Column::Utf8(vals) => {
            &&& dt == DataType::Utf8
            &&& vals@.len() == recs.len()
            &&& forall|r: int|
                #![trigger vals@[r]]
                0 <= r < recs.len() ==> match vals@[r] {
                    Some(s) => match spec_cell(recs[r], name) {
                        Some(v) => match v {
                            SpecValue::Str(t) => s@ == t,
                            SpecValue::Arr(_) => s@ == spec_json(v),
                            SpecValue::Obj(_) => s@ == spec_json(v),
                            _ => false,
                        },
                        None => false,
                    },
                    None => spec_cell(recs[r], name) is None,
                }
        },
        Column::Bool(vals) => {
            &&& dt == DataType::Bool
            &&& vals@.len() == recs.len()
            &&& forall|r: int|
                #![trigger vals@[r]]
                0 <= r < recs.len() ==> match vals@[r] {
                    Some(b) => spec_cell(recs[r], name) == Some(SpecValue::Bool(b)),
                    None => spec_cell(recs[r], name) is None,
                }
        },
        Column::Null(n) => {
            &&& dt == DataType::Null
            &&& n == recs.len()
            &&& forall|r: int| 0 <= r < recs.len() ==> spec_cell(recs[r], name) is None
        },
    }
}

/// A decode failure, classified: a record that is not an object, or a
/// field value whose shape the declared column type refuses.
#[derive(Debug)]
pub enum DecodeIssue {
    NotAnObject { row: usize },
    WrongType { row: usize, field: String },
}

fn cell_of<'a>(rec: &'a Value, name: &String) -> (r: Option<&'a Value>)
    ensures
        match r {
            Some(v) => spec_cell(vview(*rec), name@) == Some(vview(*v)) && !(vview(*v) is Null),
            None => spec_cell(vview(*rec), name@) is None,
        },
{
    match rec {
        Value::Obj(fields) => {
            match crate::value::obj_get(fields, name) {
                Some(v) => match v {
                    Value::Null => None,
                    _ => Some(v),
                },
                None => None,
            }
        },
        _ => None,
    }
}

/// Decodes the whole batch against the reconciled schema in one pass:
/// Succeeds exactly when every record is an object and every
/// cell's shape is accepted by its column's type.
#[verifier::loop_isolation(false)]
#[verifier::rlimit(100)]
pub fn decode_columns(records: &Vec<Value>, fields: &Vec<Field>) -> (r: Result<
    Vec<Column>,
    DecodeIssue,
>)
    ensures
        match r {
            Ok(cols) => {
                &&& spec_all_cells_ok(sview(fields@), vview_seq(records@))
                &&& cols@.len() == fields@.len()
                &&& forall|j: int|
                    0 <= j < fields@.len() ==> spec_column_matches(
                        cols@[j],
                        sview(fields@)[j].1,
                        sview(fields@)[j].0,
                        vview_seq(records@),
                    )
            },
            Err(_) => !spec_all_cells_ok(sview(fields@), vview_seq(records@)),
        },
{
    let ghost recs = vview_seq(records@);
    let ghost sf = sview(fields@);
    proof {
        crate::value::lemma_vview_seq(records@);
    }
    let mut k: usize = 0;
    while k < records.len()
        invariant
            k <= records.len(),
            forall|r: int| 0 <= r < k ==> recs[r] is Obj,
        decreases records.len() - k,
    {
        match &records[k] {
            Value::Obj(_) => {},
            _ => {
                proof {
                    assert(!(recs[k as int] is Obj));
                    assert(!spec_all_cells_ok(sf, recs));
                }
                return Err(DecodeIssue::NotAnObject { row: k });
            },
        }
        k = k + 1;
    }
    let mut cols: Vec<Column> = Vec::new();
    let mut j: usize = 0;
    while j < fields.len()
        invariant
            j <= fields.len(),
            cols@.len() == j,
            forall|r: int| 0 <= r < recs.len() ==> recs[r] is Obj,
            forall|jj: int, r: int|
                0 <= jj < j && 0 <= r < recs.len() ==> #[trigger] spec_cell_ok(
                    sf[jj].1,
                    spec_cell(recs[r], sf[jj].0),
                ),
            forall|jj: int|
                0 <= jj < j ==> spec_column_matches(cols@[jj], sf[jj].1, sf[jj].0, recs),
        decreases fields.len() - j,
    {
        let name = &fields[j].name;
        match fields[j].data_type {
            DataType::Int64 => {
                let mut vals: Vec<Option<i64>> = Vec::new();
                let mut r: usize = 0;
                while r < records.len()
                    invariant
                        r <= records.len(),
                        vals@.len() == r,
                        forall|rr: int|
                            #![trigger vals@[rr]]
                            0 <= rr < r ==> match vals@[rr] {
                                Some(x) => spec_cell(recs[rr], name@) == Some(
                                    SpecValue::Int(x as int),
                                ),
                                None => spec_cell(recs[rr], name@) is None,
                            },
                    decreases records.len() - r,
                {
                    match cell_of(&records[r], name) {
                        Some(v) => match v {
                            Value::Int(x) => {
                                vals.push(Some(*x));
                            },
                            _ => {
                                proof {
                                    assert(sf[j as int] == (
                                        fields@[j as int].name@,
                                        fields@[j as int].data_type,
                                        fields@[j as int].nullable,
                                    ));
                                    assert(!spec_cell_ok(
                                        sf[j as int].1,
                                        spec_cell(recs[r as int], sf[j as int].0),
                                    ));
                                    assert(!spec_all_cells_ok(sf, recs));
                                }
                                return Err(
                                    DecodeIssue::WrongType { row: r, field: name.clone() },
                                );
                            },
                        },
                        None => {
                            vals.push(None);
                        },
                    }
                    r = r + 1;
                }
                proof {
                    assert(sf[j as int] == (
                        fields@[j as int].name@,
                        fields@[j as int].data_type,
                        fields@[j as int].nullable,
                    ));
                    assert forall|r: int| 0 <= r < recs.len() implies spec_cell_ok(
                        sf[j as int].1,
                        spec_cell(recs[r], sf[j as int].0),
                    ) by {
                        assert(vals@[r] is Some || vals@[r] is None);
                    }
                }
                cols.push(Column::Int64(vals));
            },
            DataType::Float64 => {
                let mut vals: Vec<Option<String>> = Vec::new();
                let mut r: usize = 0;
                while r < records.len()
                    invariant
                        r <= records.len(),
                        vals@.len() == r,
                        forall|rr: int|
                            #![trigger vals@[rr]]
                            0 <= rr < r ==> match vals@[rr] {
                                Some(s) => match spec_cell(recs[rr], name@) {
                                    Some(v) => match v {
                                        SpecValue::Int(x) => s@ == spec_idec(x),
                                        SpecValue::Float(t) => s@ == t,
                                        _ => false,
                                    },
                                    None => false,
                                },
                                None => spec_cell(recs[rr], name@) is None,
                            },
                    decreases records.len() - r,
                {
                    match cell_of(&records[r], name) {
                        Some(v) => match v {
                            Value::Int(x) => {
                                let mut chars: Vec<char> = Vec::new();
                                push_idec(&mut chars, *x);
                                vals.push(Some(string_of(&chars)));
                            },
                            Value::Float(t) => {
                                vals.push(Some(t.clone()));
                            },
                            _ => {
                                proof {
                                    assert(sf[j as int] == (
                                        fields@[j as int].name@,
                                        fields@[j as int].data_type,
                                        fields@[j as int].nullable,
                                    ));
                                    assert(!spec_cell_ok(
                                        sf[j as int].1,
                                        spec_cell(recs[r as int], sf[j as int].0),
                                    ));
                                    assert(!spec_all_cells_ok(sf, recs));
                                }
                                return Err(
                                    DecodeIssue::WrongType { row: r, field: name.clone() },
                                );
                            },
                        },
                        None => {
                            vals.push(None);
                        },
                    }
                    r = r + 1;
                }
                proof {
                    assert(sf[j as int] == (
                        fields@[j as int].name@,
                        fields@[j as int].data_type,
                        fields@[j as int].nullable,
                    ));
                    assert forall|r: int| 0 <= r < recs.len() implies spec_cell_ok(
                        sf[j as int].1,
                        spec_cell(recs[r], sf[j as int].0),
                    ) by {
                        assert(vals@[r] is Some || vals@[r] is None);
                    }
                }
                cols.push(Column::Float64(vals));
            },
            DataType::Utf8 => {
                let mut vals: Vec<Option<String>> = Vec::new();
                let mut r: usize = 0;
                while r < records.len()
                    invariant
                        r <= records.len(),
                        vals@.len() == r,
                        forall|rr: int|
                            #![trigger vals@[rr]]
                            0 <= rr < r ==> match vals@[rr] {
                                Some(s) => match spec_cell(recs[rr], name@) {
                                    Some(v) => match v {
                                        SpecValue::Str(t) => s@ == t,
                                        SpecValue::Arr(_) => s@ == spec_json(v),
                                        SpecValue::Obj(_) => s@ == spec_json(v),
                                        _ => false,
                                    },
                                    None => false,
                                },
                                None => spec_cell(recs[rr], name@) is None,
                            },
                    decreases records.len() - r,
                {
                    match cell_of(&records[r], name) {
                        Some(v) => match v {
                            Value::Str(t) => {
                                vals.push(Some(t.clone()));
                            },
                            Value::Arr(_) => {
                                vals.push(Some(to_json_string(v)));
                            },
                            Value::Obj(_) => {
                                vals.push(Some(to_json_string(v)));
                            },
                            _ => {
                                proof {
                                    assert(sf[j as int] == (
                                        fields@[j as int].name@,
                                        fields@[j as int].data_type,
                                        fields@[j as int].nullable,
                                    ));
                                    assert(!spec_cell_ok(
                                        sf[j as int].1,
                                        spec_cell(recs[r as int], sf[j as int].0),
                                    ));
                                    assert(!spec_all_cells_ok(sf, recs));
                                }
                                return Err(
                                    DecodeIssue::WrongType { row: r, field: name.clone() },
                                );
                            },
                        },
                        None => {
                            vals.push(None);
                        },
                    }
                    r = r + 1;
                }
                proof {
                    assert(sf[j as int] == (
                        fields@[j as int].name@,
                        fields@[j as int].data_type,
                        fields@[j as int].nullable,
                    ));
                    assert forall|r: int| 0 <= r < recs.len() implies spec_cell_ok(
                        sf[j as int].1,
                        spec_cell(recs[r], sf[j as int].0),
                    ) by {
                        assert(vals@[r] is Some || vals@[r] is None);
                    }
                }
                cols.push(Column::Utf8(vals));
            },
            DataType::Bool => {
                let mut vals: Vec<Option<bool>> = Vec::new();
                let mut r: usize = 0;
                while r < records.len()
                    invariant
                        r <= records.len(),
                        vals@.len() == r,
                        forall|rr: int|
                            #![trigger vals@[rr]]
                            0 <= rr < r ==> match vals@[rr] {
                                Some(b) => spec_cell(recs[rr], name@) == Some(SpecValue::Bool(b)),
                                None => spec_cell(recs[rr], name@) is None,
                            },
                    decreases records.len() - r,
                {
                    match cell_of(&records[r], name) {
                        Some(v) => match v {
                            Value::Bool(b) => {
                                vals.push(Some(*b));
                            },
                            _ => {
                                proof {
                                    assert(sf[j as int] == (
                                        fields@[j as int].name@,
                                        fields@[j as int].data_type,
                                        fields@[j as int].nullable,
                                    ));
                                    assert(!spec_cell_ok(
                                        sf[j as int].1,
                                        spec_cell(recs[r as int], sf[j as int].0),
                                    ));
                                    assert(!spec_all_cells_ok(sf, recs));
                                }
                                return Err(
                                    DecodeIssue::WrongType { row: r, field: name.clone() },
                                );
                            },
                        },
                        None => {
                            vals.push(None);
                        },
                    }
                    r = r + 1;
                }
                proof {
                    assert(sf[j as int] == (
                        fields@[j as int].name@,
                        fields@[j as int].data_type,
                        fields@[j as int].nullable,
                    ));
                    assert forall|r: int| 0 <= r < recs.len() implies spec_cell_ok(
                        sf[j as int].1,
                        spec_cell(recs[r], sf[j as int].0),
                    ) by {
                        assert(vals@[r] is Some || vals@[r] is None);
                    }
                }
                cols.push(Column::Bool(vals));
            },
            DataType::Null => {
                let mut r: usize = 0;
                while r < records.len()
                    invariant
                        r <= records.len(),
                        forall|rr: int| 0 <= rr < r ==> spec_cell(recs[rr], name@) is None,
                    decreases records.len() - r,
                {
                    match cell_of(&records[r], name) {
                        Some(_) => {
                            proof {
                                assert(sf[j as int] == (
                                    fields@[j as int].name@,
                                    fields@[j as int].data_type,
                                    fields@[j as int].nullable,
                                ));
                                assert(!spec_cell_ok(
                                    sf[j as int].1,
                                    spec_cell(recs[r as int], sf[j as int].0),
                                ));
                                assert(!spec_all_cells_ok(sf, recs));
                            }
                            return Err(DecodeIssue::WrongType { row: r, field: name.clone() });
                        },
                        None => {},
                    }
                    r = r + 1;
                }
                proof {
                    assert(sf[j as int] == (
                        fields@[j as int].name@,
                        fields@[j as int].data_type,
                        fields@[j as int].nullable,
                    ));
                    assert forall|r: int| 0 <= r < recs.len() implies spec_cell_ok(
                        sf[j as int].1,
                        spec_cell(recs[r], sf[j as int].0),
                    ) by {
                        assert(spec_cell(recs[r], name@) is None);
                    }
                }
                cols.push(Column::Null(records.len()));
            },
        }
        proof {
            assert(sf[j as int].0 == fields@[j as int].name@);
            assert(sf[j as int].1 == fields@[j as int].data_type);
        }
        j = j + 1;
    }
    Ok(cols)
}

/// The schema inferred from a whole batch, folded field by field over
/// each record's top-level shape; `None` when a record is not an
/// object.
pub open spec fn sp_infer(
    recs: Seq<SpecValue>,
    cur: Seq<(Seq<char>, DataType, bool)>,
) -> Option<Seq<(Seq<char>, DataType, bool)>>
    decreases recs.len(),
{
    if recs.len() == 0 {
        Some(cur)
    } else {
        match recs[0] {
            SpecValue::Obj(f) => sp_infer(recs.drop_first(), spec_evolve_rec(cur, f)),
            _ => None,
        }
    }
}

/// Infers a schema from the full record batch, for the columnar path.
#[verifier::loop_isolation(false)]
pub fn infer_schema(records: &Vec<Value>) -> (r: Result<Vec<Field>, ()>)
    ensures
        match r {
            Ok(f) => sp_infer(vview_seq(records@), Seq::empty()) == Some(sview(f@)),
            Err(_) => sp_infer(vview_seq(records@), Seq::empty()) is None,
        },
{
    let ghost recs = vview_seq(records@);
    proof {
        crate::value::lemma_vview_seq(records@);
        assert(recs.skip(0) =~= recs);
        assert(sview(Seq::<Field>::empty()) =~= Seq::<(Seq<char>, DataType, bool)>::empty());
    }
    let mut fields: Vec<Field> = Vec::new();
    let mut i: usize = 0;
    while i < records.len()
        invariant
            i <= records.len(),
            sp_infer(recs, Seq::empty()) == sp_infer(recs.skip(i as int), sview(fields@)),
        decreases records.len() - i,
    {
        proof {
            assert(recs.skip(i as int)[0] == recs[i as int]);
            assert(recs.skip(i as int).drop_first() =~= recs.skip(i + 1));
            assert(recs[i as int] == vview(records@[i as int]));
        }
        match &records[i] {
            Value::Obj(f) => {
                evolve_record(&mut fields, f);
            },
            _ => {
                return Err(());
            },
        }
        i = i + 1;
    }
    proof {
        assert(recs.skip(records@.len() as int).len() == 0);
    }
    Ok(fields)
}

/// Replaces column zero with the request-level timestamp replicated
/// across every row; per-record event times are not kept on
/// this path.
#[verifier::loop_isolation(false)]
pub fn uniform_ts_column(rows: usize, now: i64) -> (r: Column)
    ensures
        r is Int64,
        r->Int64_0@.len() == rows,
        forall|i: int| 0 <= i < rows ==> r->Int64_0@[i] == Some(now),
{
    let mut vals: Vec<Option<i64>> = Vec::new();
    let mut i: usize = 0;
    while i < rows
        invariant
            i <= rows,
            vals@.len() == i,
            forall|j: int| 0 <= j < i ==> vals@[j] == Some(now),
        decreases rows - i,
    {
        vals.push(Some(now));
        i = i + 1;
    }
    Column::Int64(vals)
}


/// A request-ending columnar-path failure. No batch is written
/// and no schema is persisted on any of these.
#[derive(Debug)]
pub enum ColumnarError {
    InferenceFailure,
    MergeConflict(String),
    Decode(DecodeIssue),
}

pub struct ColumnarOutcome {
    pub schema: StreamSchema,
    pub batch: ColumnarBatch,
    pub persist_schema: bool,
}

/// A field list with the canonical event-time column forced to
/// position zero when absent.
pub open spec fn sp_with_ts(
    f: Seq<(Seq<char>, DataType, bool)>,
) -> Seq<(Seq<char>, DataType, bool)> {
    if sfind(f, spec_ts_field()) is Some {
        f
    } else {
        seq![(spec_ts_field(), DataType::Int64, true)] + f
    }
}

pub open spec fn sp_existing_nonempty(existing: Option<StreamSchema>) -> bool {
    match existing {
        Some(ex) => ex.fields@.len() > 0,
        None => false,
    }
}

/// The authoritative field list: the existing schema when the stream
/// already declares fields, otherwise the inferred one.
pub open spec fn sp_selected(
    existing: Option<StreamSchema>,
    inferred: Seq<(Seq<char>, DataType, bool)>,
) -> Seq<(Seq<char>, DataType, bool)> {
    if sp_existing_nonempty(existing) {
        sview(existing->0.fields@)
    } else {
        inferred
    }
}

/// The columnar path over one request: infer a schema from the whole
/// batch, reconcile it with the stream's existing schema (a conflict
/// is fatal and nothing is written or persisted), force the canonical
/// event-time column, decode every record into typed columns, and
/// overwrite column zero with the single request-level timestamp.
#[verifier::rlimit(100)]
pub fn process_columnar(
    records: &Vec<Value>,
    existing: Option<StreamSchema>,
    now: i64,
    byte_size: usize,
) -> (r: Result<ColumnarOutcome, ColumnarError>)
    requires
        records@.len() <= usize::MAX - 63,
    ensures
        ({
            let recs = vview_seq(records@);
            let inf = sp_infer(recs, Seq::empty());
            let conflicted = inf is Some && sp_existing_nonempty(existing) && spec_has_conflict(
                sview(existing->0.fields@),
                inf->0,
            );
            let final_fields = sp_with_ts(sp_selected(existing, inf->0));
            &&& (r matches Err(ColumnarError::InferenceFailure)) <==> inf is None
            &&& (r matches Err(ColumnarError::MergeConflict(_))) <==> conflicted
            &&& (r matches Err(ColumnarError::Decode(_))) <==> (inf is Some && !conflicted
                && !spec_all_cells_ok(final_fields, recs))
            &&& match r {
                Ok(out) => {
                    &&& sview(out.schema.fields@) == final_fields
                    &&& out.persist_schema == !sp_existing_nonempty(existing)
                    &&& out.batch.num_rows == records@.len()
                    &&& out.batch.byte_size == byte_size
                    &&& out.batch.capacity == ((records@.len() + 63) / 64) * 64
                    &&& out.batch.columns@.len() == final_fields.len()
                    &&& out.batch.columns@[0] is Int64
                    &&& out.batch.columns@[0]->Int64_0@.len() == records@.len()
                    &&& forall|i: int|
                        0 <= i < records@.len() ==> out.batch.columns@[0]->Int64_0@[i] == Some(
                            now,
                        )
                    &&& forall|j: int|
                        1 <= j < final_fields.len() ==> spec_column_matches(
                            out.batch.columns@[j],
                            final_fields[j].1,
                            final_fields[j].0,
                            recs,
                        )
                    &&& out.persist_schema ==> out.schema.metadata@.len() >= 1
                        && out.schema.metadata@.last().0@ == "created_at"@
                        && out.schema.metadata@.last().1@ == spec_idec(now as int)
                },
                Err(_) => true,
            }
        }),
{
    let inferred = match infer_schema(records) {
        Ok(f) => f,
        Err(_) => {
            return Err(ColumnarError::InferenceFailure);
        },
    };
    let inferred_schema = StreamSchema { fields: inferred, metadata: Vec::new() };
    let persist: bool;
    let mut schema: StreamSchema;
    match existing {
        Some(ex) => {
            if ex.fields.len() > 0 {
                match try_merge(&ex, &inferred_schema) {
                    Ok(_) => {},
                    Err(name) => {
                        return Err(ColumnarError::MergeConflict(name));
                    },
                }
                persist = false;
                schema = ex;
            } else {
                persist = true;
                schema = inferred_schema;
            }
        },
        None => {
            persist = true;
            schema = inferred_schema;
        },
    }
    ensure_ts_field(&mut schema.fields);
    let mut columns = match decode_columns(records, &schema.fields) {
        Ok(c) => c,
        Err(issue) => {
            return Err(ColumnarError::Decode(issue));
        },
    };
    let ts_col = uniform_ts_column(records.len(), now);
    proof {
        assert(sview(schema.fields@).len() > 0);
    }
    columns.set(0, ts_col);
    let capacity = crate::round_upto_multiple_of_64(records.len());
    if persist {
        crate::schema::stamp_created_at(&mut schema, now);
    }
    Ok(
        ColumnarOutcome {
            batch: ColumnarBatch {
                columns,
                num_rows: records.len(),
                byte_size,
                capacity,
            },
            schema,
            persist_schema: persist,
        },
    )
}

} // verus!
