use vstd::prelude::*;

use crate::jsontext::string_of;
use crate::value::{lemma_vview_fields, vview, vview_fields, SpecValue, Value};

verus! {

/// Field-name normalization: ASCII letters are lowered, digits and
/// underscores kept, every other character becomes an underscore.
pub open spec fn spec_norm_char(c: char) -> char {
    if 97 <= c as u32 && c as u32 <= 122 {
        c
    } else if 48 <= c as u32 && c as u32 <= 57 {
        c
    } else if c == '_' {
        c
    } else if 65 <= c as u32 && c as u32 <= 90 {
        ((c as u32 + 32) as u8) as char
    } else {
        '_'
    }
}

pub open spec fn spec_norm_key(s: Seq<char>) -> Seq<char> {
    s.map_values(|c: char| spec_norm_char(c))
}

fn norm_char(c: char) -> (r: char)
    ensures
        r == spec_norm_char(c),
{
    let cu = c as u32;
    if 97 <= cu && cu <= 122 {
        c
    } else if 48 <= cu && cu <= 57 {
        c
    } else if c == '_' {
        c
    } else if 65 <= cu && cu <= 90 {
        ((cu + 32) as u8) as char
    } else {
        '_'
    }
}

/// Normalizes one field name to the canonical on-disk form.
#[verifier::loop_isolation(false)]
pub fn normalize_key(s: &String) -> (r: String)
    ensures
        r@ == spec_norm_key(s@),
{
    let n = s.as_str().unicode_len();
    let mut out: Vec<char> = Vec::new();
    let mut i: usize = 0;
    while i < n
        invariant
            i <= n,
            out@ == s@.take(i as int).map_values(|c: char| spec_norm_char(c)),
        decreases n - i,
    {
        let c = s.as_str().get_char(i);
        out.push(norm_char(c));
        proof {
            assert(out@ =~= s@.take(i + 1).map_values(|c: char| spec_norm_char(c)));
        }
        i = i + 1;
    }
    proof {
        assert(s@.take(n as int) =~= s@);
    }
    string_of(&out)
}

/// The flat key of a child field under a (possibly empty) prefix.
pub open spec fn spec_child_key(prefix: Seq<char>, key: Seq<char>) -> Seq<char> {
    if prefix.len() == 0 {
        spec_norm_key(key)
    } else {
        prefix + seq!['_'] + spec_norm_key(key)
    }
}

fn child_key(prefix: &String, key: &String) -> (r: String)
    ensures
        r@ == spec_child_key(prefix@, key@),
{
    let nk = normalize_key(key);
    if prefix.as_str().unicode_len() == 0 {
        proof {
            assert(prefix@.len() == 0);
        }
        nk
    } else {
        let mut s = prefix.clone();
        s.append("_");
        s.append(nk.as_str());
        proof {
            reveal_strlit("_");
            assert("_"@ =~= seq!['_']);
        }
        s
    }
}

/// The canonical flat row shape of a value under a key prefix: nested
/// objects contribute one flat field per leaf, with normalized key
/// parts joined by underscores; every other value is a leaf.
pub open spec fn spec_flatten(prefix: Seq<char>, v: SpecValue) -> Seq<(Seq<char>, SpecValue)>
    decreases v,
{
    match v {
        SpecValue::Obj(fields) => spec_flatten_fields(prefix, fields),
        _ => seq![(prefix, v)],
    }
}

pub open spec fn spec_flatten_fields(
    prefix: Seq<char>,
    fields: Seq<(Seq<char>, SpecValue)>,
) -> Seq<(Seq<char>, SpecValue)>
    decreases fields,
{
    if fields.len() == 0 {
        Seq::empty()
    } else {
        spec_flatten_fields(prefix, fields.drop_last()) + spec_flatten(
            spec_child_key(prefix, fields.last().0),
            fields.last().1,
        )
    }
}

/// A record's flat form: its fields flattened under the empty prefix.
pub open spec fn spec_flatten_record(fields: Seq<(Seq<char>, SpecValue)>) -> Seq<
    (Seq<char>, SpecValue),
> {
    spec_flatten_fields(Seq::empty(), fields)
}

proof fn lemma_vview_fields_cat(a: Seq<(String, Value)>, b: Seq<(String, Value)>)
    ensures
        vview_fields(a + b) == vview_fields(a) + vview_fields(b),
    decreases b.len(),
{
    if b.len() == 0 {
        assert(a + b =~= a);
        assert(vview_fields(b) =~= Seq::<(Seq<char>, SpecValue)>::empty());
        assert(vview_fields(a) + vview_fields(b) =~= vview_fields(a));
    } else {
        assert((a + b).drop_last() =~= a + b.drop_last());
        assert((a + b).last() == b.last());
        lemma_vview_fields_cat(a, b.drop_last());
        assert(vview_fields(a + b) =~= vview_fields(a) + vview_fields(b));
    }
}

#[verifier::loop_isolation(false)]
fn flatten_into(prefix: &String, v: &Value, out: &mut Vec<(String, Value)>)
    ensures
        vview_fields(final(out)@) == vview_fields(old(out)@) + spec_flatten(prefix@, vview(*v)),
    decreases v,
{
    match v {
        Value::Obj(fields) => {
            proof {
                lemma_vview_fields(fields@);
            }
            let ghost sf = vview_fields(fields@);
            let mut i: usize = 0;
            while i < fields.len()
                invariant
                    i <= fields.len(),
                    vview_fields(out@) == vview_fields(old(out)@) + spec_flatten_fields(
                        prefix@,
                        sf.take(i as int),
                    ),
                decreases fields.len() - i,
            {
                let ck = child_key(prefix, &fields[i].0);
                proof {
                    let vv = *v;
                    assert(decreases_to!(vv => vv->Obj_0));
                    assert(decreases_to!(vv->Obj_0 => vv->Obj_0@));
                    assert(decreases_to!(vv->Obj_0@ => vv->Obj_0@[i as int]));
                    assert(decreases_to!(vv->Obj_0@[i as int] => vv->Obj_0@[i as int].1));
                }
                flatten_into(&ck, &fields[i].1, out);
                proof {
                    assert(sf.take(i + 1).drop_last() =~= sf.take(i as int));
                    assert(sf.take(i + 1).last() == sf[i as int]);
                    assert(sf[i as int].0 == fields@[i as int].0@);
                    assert(sf[i as int].1 == vview(fields@[i as int].1));
                    assert(vview_fields(out@) =~= vview_fields(old(out)@) + spec_flatten_fields(
                        prefix@,
                        sf.take(i + 1),
                    ));
                }
                i = i + 1;
            }
            proof {
                assert(sf.take(fields@.len() as int) =~= sf);
            }
        },
        _ => {
            let leaf = v.dup();
            let key = prefix.clone();
            out.push((key, leaf));
            proof {
                assert(out@.drop_last() =~= old(out)@);
                assert(vview_fields(out@) =~= vview_fields(old(out)@) + spec_flatten(
                    prefix@,
                    vview(*v),
                ));
            }
        },
    }
}

/// Flattens one record's fields into the canonical flat row shape.
#[verifier::loop_isolation(false)]
pub fn flatten_record(fields: &Vec<(String, Value)>) -> (r: Vec<(String, Value)>)
    ensures
        vview_fields(r@) == spec_flatten_record(vview_fields(fields@)),
{
    let mut out: Vec<(String, Value)> = Vec::new();
    let empty = String::new();
    proof {
        lemma_vview_fields(fields@);
        assert(vview_fields(out@) =~= Seq::<(Seq<char>, SpecValue)>::empty());
    }
    let ghost sf = vview_fields(fields@);
    let mut i: usize = 0;
    while i < fields.len()
        invariant
            i <= fields.len(),
            empty@ == Seq::<char>::empty(),
            vview_fields(out@) == spec_flatten_fields(Seq::empty(), sf.take(i as int)),
        decreases fields.len() - i,
    {
        let ck = child_key(&empty, &fields[i].0);
        flatten_into(&ck, &fields[i].1, &mut out);
        proof {
            assert(sf.take(i + 1).drop_last() =~= sf.take(i as int));
            assert(sf.take(i + 1).last() == sf[i as int]);
            assert(sf[i as int].0 == fields@[i as int].0@);
            assert(sf[i as int].1 == vview(fields@[i as int].1));
            assert(vview_fields(out@) =~= spec_flatten_fields(Seq::empty(), sf.take(i + 1)));
        }
        i = i + 1;
    }
    proof {
        assert(sf.take(fields@.len() as int) =~= sf);
    }
    out
}

} // verus!
