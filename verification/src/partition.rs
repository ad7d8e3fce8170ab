use vstd::prelude::*;

use crate::jsontext::{spec_json, string_of, write_json};
use crate::value::{obj_get, sobj_get, vview_fields, SpecValue, Value};

verus! {

/// The text a partition-key field value contributes: a string field
/// contributes its characters, anything else its JSON text.
pub open spec fn spec_value_text(v: SpecValue) -> Seq<char> {
    match v {
        SpecValue::Str(s) => s,
        _ => spec_json(v),
    }
}

/// One `name=value` element of a partition key.
pub open spec fn spec_key_part(rec: Seq<(Seq<char>, SpecValue)>, key: Seq<char>) -> Seq<char> {
    key + seq!['='] + (match sobj_get(rec, key) {
        Some(v) => spec_value_text(v),
        None => "null"@,
    })
}

pub open spec fn spec_key_parts(rec: Seq<(Seq<char>, SpecValue)>, keys: Seq<Seq<char>>) -> Seq<
    char,
>
    decreases keys.len(),
{
    if keys.len() == 0 {
        Seq::empty()
    } else if keys.len() == 1 {
        spec_key_part(rec, keys[0])
    } else {
        spec_key_parts(rec, keys.drop_last()) + seq!['/'] + spec_key_part(rec, keys.last())
    }
}

/// The bucket a record lands in: derived from its partition-key field
/// values alone, or one implicit bucket when the key set is empty.
pub open spec fn spec_bucket_key(rec: Seq<(Seq<char>, SpecValue)>, keys: Seq<Seq<char>>) -> Seq<
    char,
> {
    if keys.len() == 0 {
        "default"@
    } else {
        spec_key_parts(rec, keys)
    }
}

/// Two records with equal values under every partition-key field land
/// in the same bucket, whatever their other fields hold.
pub proof fn lemma_partition_stability(
    r1: Seq<(Seq<char>, SpecValue)>,
    r2: Seq<(Seq<char>, SpecValue)>,
    keys: Seq<Seq<char>>,
)
    requires
        forall|i: int| 0 <= i < keys.len() ==> sobj_get(r1, keys[i]) == sobj_get(r2, keys[i]),
    ensures
        spec_bucket_key(r1, keys) == spec_bucket_key(r2, keys),
    decreases keys.len(),
{
    if keys.len() > 1 {
        lemma_partition_stability(r1, r2, keys.drop_last());
    }
}

#[verifier::loop_isolation(false)]
fn push_chars(out: &mut Vec<char>, s: &String)
    ensures
        final(out)@ == old(out)@ + s@,
{
    let n = s.as_str().unicode_len();
    let mut i: usize = 0;
    while i < n
        invariant
            i <= n,
            out@ == old(out)@ + s@.take(i as int),
        decreases n - i,
    {
        let c = s.as_str().get_char(i);
        out.push(c);
        proof {
            assert(out@ =~= old(out)@ + s@.take(i + 1));
        }
        i = i + 1;
    }
    proof {
        assert(s@.take(n as int) =~= s@);
    }
}

/// Derives the partition bucket for one flat record.
#[verifier::loop_isolation(false)]
pub fn partition_key(rec: &Vec<(String, Value)>, keys: &Vec<String>) -> (r: String)
    ensures
        r@ == spec_bucket_key(vview_fields(rec@), keys.deep_view()),
{
    let ghost rv = vview_fields(rec@);
    let ghost kv = keys.deep_view();
    if keys.len() == 0 {
        let r: String = "default".to_owned();
        return r;
    }
    let mut out: Vec<char> = Vec::new();
    let mut i: usize = 0;
    while i < keys.len()
        invariant
            i <= keys.len(),
            out@ == spec_key_parts(rv, kv.take(i as int)),
        decreases keys.len() - i,
    {
        if i > 0 {
            out.push('/');
        }
        push_chars(&mut out, &keys[i]);
        out.push('=');
        match obj_get(rec, &keys[i]) {
            Some(v) => {
                match v {
                    Value::Str(s) => {
                        push_chars(&mut out, s);
                    },
                    _ => {
                        write_json(v, &mut out);
                    },
                }
            },
            None => {
                out.push('n');
                out.push('u');
                out.push('l');
                out.push('l');
                proof {
                    reveal_strlit("null");
                    assert(seq!['n', 'u', 'l', 'l'] =~= "null"@);
                }
            },
        }
        proof {
            assert(kv[i as int] == keys@[i as int]@);
            assert(kv.take(i + 1).drop_last() =~= kv.take(i as int));
            assert(kv.take(i + 1).last() == kv[i as int]);
            assert(out@ =~= spec_key_parts(rv, kv.take(i + 1)));
        }
        i = i + 1;
    }
    proof {
        assert(kv.take(keys@.len() as int) =~= kv);
    }
    string_of(&out)
}

} // verus!
