use vstd::prelude::*;

verus! {

/// One semi-structured record value: the tagged-variant shape of an
/// incoming log record. A number that is not a 64-bit integer is carried
/// as its decimal text, so the library never computes on it.
pub enum Value {
    Null,
    Bool(bool),
    Int(i64),
    Float(String),
    Str(String),
    Arr(Vec<Value>),
    Obj(Vec<(String, Value)>),
}

/// The mathematical shape of a `Value`: strings become character
/// sequences, vectors become sequences. Contracts speak of this shape.
pub enum SpecValue {
    Null,
    Bool(bool),
    Int(int),
    Float(Seq<char>),
    Str(Seq<char>),
    Arr(Seq<SpecValue>),
    Obj(Seq<(Seq<char>, SpecValue)>),
}

pub open spec fn vview(v: Value) -> SpecValue
    decreases v,
{
    match v {
        Value::Null => SpecValue::Null,
        Value::Bool(b) => SpecValue::Bool(b),
        Value::Int(i) => SpecValue::Int(i as int),
        Value::Float(s) => SpecValue::Float(s@),
        Value::Str(s) => SpecValue::Str(s@),
        Value::Arr(elems) => SpecValue::Arr(vview_seq(elems@)),
        Value::Obj(fields) => SpecValue::Obj(vview_fields(fields@)),
    }
}

pub open spec fn vview_seq(s: Seq<Value>) -> Seq<SpecValue>
    decreases s,
{
    if s.len() == 0 {
        Seq::empty()
    } else {
        vview_seq(s.drop_last()).push(vview(s.last()))
    }
}

pub open spec fn vview_fields(s: Seq<(String, Value)>) -> Seq<(Seq<char>, SpecValue)>
    decreases s,
{
    if s.len() == 0 {
        Seq::empty()
    } else {
        vview_fields(s.drop_last()).push((s.last().0@, vview(s.last().1)))
    }
}

pub proof fn lemma_vview_seq(s: Seq<Value>)
    ensures
        vview_seq(s).len() == s.len(),
        forall|i: int| 0 <= i < s.len() ==> vview_seq(s)[i] == vview(s[i]),
    decreases s.len(),
{
    if s.len() > 0 {
        lemma_vview_seq(s.drop_last());
    }
}

pub proof fn lemma_vview_fields(s: Seq<(String, Value)>)
    ensures
        vview_fields(s).len() == s.len(),
        forall|i: int|
            0 <= i < s.len() ==> vview_fields(s)[i] == (s[i].0@, vview(s[i].1)),
    decreases s.len(),
{
    if s.len() > 0 {
        lemma_vview_fields(s.drop_last());
    }
}

/// First value bound to `key` in an object's field list, if any.
pub open spec fn sobj_get(fields: Seq<(Seq<char>, SpecValue)>, key: Seq<char>) -> Option<SpecValue>
    decreases fields.len(),
{
    if fields.len() == 0 {
        None
    } else if fields[0].0 == key {
        Some(fields[0].1)
    } else {
        sobj_get(fields.drop_first(), key)
    }
}

/// Field list after binding `key` to `val`: the first occurrence of the
/// key is replaced in place, or the pair is appended when the key is new.
pub open spec fn sobj_set(
    fields: Seq<(Seq<char>, SpecValue)>,
    key: Seq<char>,
    val: SpecValue,
) -> Seq<(Seq<char>, SpecValue)>
    decreases fields.len(),
{
    if fields.len() == 0 {
        seq![(key, val)]
    } else if fields[0].0 == key {
        fields.update(0, (key, val))
    } else {
        seq![fields[0]] + sobj_set(fields.drop_first(), key, val)
    }
}

impl Value {
    /// Structural copy; the copy has the same mathematical shape.
    #[verifier::loop_isolation(false)]
    pub fn dup(&self) -> (r: Value)
        ensures
            vview(r) == vview(*self),
        decreases self,
    {
        match self {
            Value::Null => Value::Null,
            Value::Bool(b) => Value::Bool(*b),
            Value::Int(i) => Value::Int(*i),
            Value::Float(s) => Value::Float(s.clone()),
            Value::Str(s) => Value::Str(s.clone()),
            Value::Arr(elems) => {
                let mut out: Vec<Value> = Vec::new();
                let mut i: usize = 0;
                while i < elems.len()
                    invariant
                        i <= elems.len(),
                        out@.len() == i,
                        forall|j: int| 0 <= j < i ==> vview(out@[j]) == vview(elems@[j]),
                    decreases elems.len() - i,
                {
                    proof {
                        let vv = *self;
                        assert(decreases_to!(vv => vv->Arr_0));
                        assert(decreases_to!(vv->Arr_0 => vv->Arr_0@));
                        assert(decreases_to!(vv->Arr_0@ => vv->Arr_0@[i as int]));
                    }
                    out.push(elems[i].dup());
                    i = i + 1;
                }
                proof {
                    lemma_vview_seq(out@);
                    lemma_vview_seq(elems@);
                    assert(vview_seq(out@) =~= vview_seq(elems@));
                }
                Value::Arr(out)
            },
            Value::Obj(fields) => {
                let mut out: Vec<(String, Value)> = Vec::new();
                let mut i: usize = 0;
                while i < fields.len()
                    invariant
                        i <= fields.len(),
                        out@.len() == i,
                        forall|j: int| 0 <= j < i ==> out@[j].0@ == fields@[j].0@ && vview(
                            out@[j].1,
                        ) == vview(fields@[j].1),
                    decreases fields.len() - i,
                {
                    proof {
                        let vv = *self;
                        assert(decreases_to!(vv => vv->Obj_0));
                        assert(decreases_to!(vv->Obj_0 => vv->Obj_0@));
                        assert(decreases_to!(vv->Obj_0@ => vv->Obj_0@[i as int]));
                        assert(decreases_to!(vv->Obj_0@[i as int] => vv->Obj_0@[i as int].1));
                    }
                    let k = fields[i].0.clone();
                    let v = fields[i].1.dup();
                    out.push((k, v));
                    i = i + 1;
                }
                proof {
                    lemma_vview_fields(out@);
                    lemma_vview_fields(fields@);
                    assert(vview_fields(out@) =~= vview_fields(fields@));
                }
                Value::Obj(out)
            },
        }
    }
}

/// Binding a key then reading it back yields the bound value: the
/// written field wins over whatever was there before, or was absent.
pub proof fn lemma_set_then_get(
    fields: Seq<(Seq<char>, SpecValue)>,
    key: Seq<char>,
    val: SpecValue,
)
    ensures
        sobj_get(sobj_set(fields, key, val), key) == Some(val),
    decreases fields.len(),
{
    if fields.len() == 0 {
        assert(sobj_set(fields, key, val)[0] == (key, val));
    } else if fields[0].0 == key {
        assert(sobj_set(fields, key, val)[0] == (key, val));
    } else {
        let rest = sobj_set(fields.drop_first(), key, val);
        assert((seq![fields[0]] + rest)[0] == fields[0]);
        assert((seq![fields[0]] + rest).drop_first() =~= rest);
        lemma_set_then_get(fields.drop_first(), key, val);
    }
}

/// Binds `key` to `val` in an object's field list, replacing the first
/// occurrence in place or appending when the key is new.
#[verifier::loop_isolation(false)]
pub fn set_field(fields: &mut Vec<(String, Value)>, key: String, val: Value)
    ensures
        vview_fields(final(fields)@) == sobj_set(vview_fields(old(fields)@), key@, vview(val)),
{
    proof {
        lemma_vview_fields(fields@);
        assert(vview_fields(fields@).skip(0) =~= vview_fields(fields@));
    }
    let ghost orig = fields@;
    let ghost sf = vview_fields(fields@);
    let mut i: usize = 0;
    while i < fields.len()
        invariant
            i <= fields.len(),
            fields@ == orig,
            forall|j: int| 0 <= j < i ==> sf[j].0 != key@,
            sobj_set(sf, key@, vview(val)) == sf.take(i as int) + sobj_set(
                sf.skip(i as int),
                key@,
                vview(val),
            ),
        decreases fields.len() - i,
    {
        proof {
            assert(sf.skip(i as int)[0] == sf[i as int]);
        }
        if fields[i].0 == key {
            proof {
                assert(sobj_set(sf.skip(i as int), key@, vview(val)) == sf.skip(i as int).update(
                    0,
                    (key@, vview(val)),
                ));
                assert(sf.take(i as int) + sf.skip(i as int).update(0, (key@, vview(val))) =~= sf
                    .update(i as int, (key@, vview(val))));
            }
            fields.set(i, (key, val));
            proof {
                lemma_vview_fields(fields@);
                lemma_vview_fields(orig);
                assert(vview_fields(fields@) =~= sf.update(i as int, (key@, vview(val))));
            }
            return ;
        }
        proof {
            assert(sobj_set(sf.skip(i as int), key@, vview(val)) == seq![sf.skip(i as int)[0]]
                + sobj_set(sf.skip(i as int).drop_first(), key@, vview(val)));
            assert(sf.skip(i as int).drop_first() =~= sf.skip(i + 1));
            assert(sf.take(i as int) + (seq![sf[i as int]] + sobj_set(
                sf.skip(i + 1),
                key@,
                vview(val),
            )) =~= sf.take(i + 1) + sobj_set(sf.skip(i + 1), key@, vview(val)));
        }
        i = i + 1;
    }
    proof {
        assert(sf.skip(i as int).len() == 0);
        assert(sobj_set(sf.skip(i as int), key@, vview(val)) == seq![(key@, vview(val))]);
    }
    fields.push((key, val));
    proof {
        assert(fields@.drop_last() =~= orig);
        assert(vview_fields(fields@) =~= sf.take(fields.len() - 1 as int) + seq![
            (key@, vview(val)),
        ]);
        assert(sf.take(orig.len() as int) =~= sf);
    }
}

/// Looks `key` up among an object's fields; returns the first match.
pub fn obj_get<'a>(fields: &'a Vec<(String, Value)>, key: &String) -> (r: Option<&'a Value>)
    ensures
        match r {
            Some(v) => sobj_get(vview_fields(fields@), key@) == Some(vview(*v)),
            None => sobj_get(vview_fields(fields@), key@) is None,
        },
{
    proof {
        lemma_vview_fields(fields@);
        assert(vview_fields(fields@).skip(0) =~= vview_fields(fields@));
    }
    let mut i: usize = 0;
    while i < fields.len()
        invariant
            i <= fields.len(),
            vview_fields(fields@).len() == fields@.len(),
            forall|j: int|
                0 <= j < fields@.len() ==> vview_fields(fields@)[j] == (
                    fields@[j].0@,
                    vview(fields@[j].1),
                ),
            sobj_get(vview_fields(fields@), key@) == sobj_get(
                vview_fields(fields@).skip(i as int),
                key@,
            ),
        decreases fields.len() - i,
    {
        let sf = Ghost(vview_fields(fields@));
        proof {
            assert(sf@.skip(i as int)[0] == sf@[i as int]);
        }
        if fields[i].0 == *key {
            return Some(&fields[i].1);
        }
        proof {
            assert(sf@.skip(i as int).drop_first() =~= sf@.skip(i + 1));
        }
        i = i + 1;
    }
    proof {
        assert(vview_fields(fields@).skip(i as int).len() == 0);
    }
    None
}

} // verus!
