use vstd::prelude::*;

use crate::value::{
    lemma_vview_fields, lemma_vview_seq, vview, vview_fields, vview_seq, SpecValue, Value,
};

verus! {

pub open spec fn spec_digit(n: int) -> char {
    if n == 0 {
        '0'
    } else if n == 1 {
        '1'
    } else if n == 2 {
        '2'
    } else if n == 3 {
        '3'
    } else if n == 4 {
        '4'
    } else if n == 5 {
        '5'
    } else if n == 6 {
        '6'
    } else if n == 7 {
        '7'
    } else if n == 8 {
        '8'
    } else if n == 9 {
        '9'
    } else if n == 10 {
        'a'
    } else if n == 11 {
        'b'
    } else if n == 12 {
        'c'
    } else if n == 13 {
        'd'
    } else if n == 14 {
        'e'
    } else {
        'f'
    }
}

fn digit_char(n: u32) -> (r: char)
    requires
        n < 16,
    ensures
        r == spec_digit(n as int),
{
    if n == 0 {
        '0'
    } else if n == 1 {
        '1'
    } else if n == 2 {
        '2'
    } else if n == 3 {
        '3'
    } else if n == 4 {
        '4'
    } else if n == 5 {
        '5'
    } else if n == 6 {
        '6'
    } else if n == 7 {
        '7'
    } else if n == 8 {
        '8'
    } else if n == 9 {
        '9'
    } else if n == 10 {
        'a'
    } else if n == 11 {
        'b'
    } else if n == 12 {
        'c'
    } else if n == 13 {
        'd'
    } else if n == 14 {
        'e'
    } else {
        'f'
    }
}

/// Decimal digits of a non-negative integer.
pub open spec fn spec_udec(n: int) -> Seq<char>
    decreases n,
{
    if n < 10 {
        seq![spec_digit(n)]
    } else {
        spec_udec(n / 10).push(spec_digit(n % 10))
    }
}

/// Decimal text of an integer, with a leading minus sign when negative.
pub open spec fn spec_idec(i: int) -> Seq<char> {
    if i < 0 {
        seq!['-'] + spec_udec(-i)
    } else {
        spec_udec(i)
    }
}

fn push_udec(out: &mut Vec<char>, n: u64)
    ensures
        final(out)@ == old(out)@ + spec_udec(n as int),
    decreases n,
{
    if n < 10 {
        out.push(digit_char(n as u32));
        proof {
            assert(out@ =~= old(out)@ + spec_udec(n as int));
        }
    } else {
        push_udec(out, n / 10);
        out.push(digit_char((n % 10) as u32));
        proof {
            assert(out@ =~= old(out)@ + spec_udec(n as int));
        }
    }
}

pub fn push_idec(out: &mut Vec<char>, i: i64)
    ensures
        final(out)@ == old(out)@ + spec_idec(i as int),
{
    if i < 0 {
        out.push('-');
        let mag: u64 = if i == i64::MIN {
            9223372036854775808u64
        } else {
            (0 - i) as u64
        };
        assert(mag as int == -(i as int));
        push_udec(out, mag);
        proof {
            assert(out@ =~= old(out)@ + spec_idec(i as int));
        }
    } else {
        push_udec(out, i as u64);
    }
}

/// JSON escaping of one character inside a double-quoted string.
pub open spec fn spec_escape_char(c: char) -> Seq<char> {
    if c == '"' {
        seq!['\\', '"']
    } else if c == '\\' {
        seq!['\\', '\\']
    } else if c == '\n' {
        seq!['\\', 'n']
    } else if c == '\r' {
        seq!['\\', 'r']
    } else if c == '\t' {
        seq!['\\', 't']
    } else if c == '\u{8}' {
        seq!['\\', 'b']
    } else if c == '\u{c}' {
        seq!['\\', 'f']
    } else if (c as u32) < 32 {
        seq!['\\', 'u', '0', '0', spec_digit(c as int / 16), spec_digit(c as int % 16)]
    } else {
        seq![c]
    }
}

pub open spec fn spec_escape(s: Seq<char>) -> Seq<char>
    decreases s.len(),
{
    if s.len() == 0 {
        Seq::empty()
    } else {
        spec_escape_char(s[0]) + spec_escape(s.drop_first())
    }
}

proof fn lemma_escape_push(s: Seq<char>, c: char)
    ensures
        spec_escape(s.push(c)) == spec_escape(s) + spec_escape_char(c),
    decreases s.len(),
{
    if s.len() == 0 {
        reveal_with_fuel(spec_escape, 2);
        assert(s.push(c).drop_first() =~= Seq::<char>::empty());
        assert(s.push(c)[0] == c);
        assert(spec_escape(s.push(c)) =~= spec_escape(s) + spec_escape_char(c));
    } else {
        assert(s.push(c).drop_first() =~= s.drop_first().push(c));
        lemma_escape_push(s.drop_first(), c);
        assert(spec_escape(s.push(c)) =~= spec_escape(s) + spec_escape_char(c));
    }
}

fn push_escaped_char(out: &mut Vec<char>, c: char)
    ensures
        final(out)@ == old(out)@ + spec_escape_char(c),
{
    if c == '"' {
        out.push('\\');
        out.push('"');
    } else if c == '\\' {
        out.push('\\');
        out.push('\\');
    } else if c == '\n' {
        out.push('\\');
        out.push('n');
    } else if c == '\r' {
        out.push('\\');
        out.push('r');
    } else if c == '\t' {
        out.push('\\');
        out.push('t');
    } else if c == '\u{8}' {
        out.push('\\');
        out.push('b');
    } else if c == '\u{c}' {
        out.push('\\');
        out.push('f');
    } else if (c as u32) < 32 {
        out.push('\\');
        out.push('u');
        out.push('0');
        out.push('0');
        out.push(digit_char((c as u32) / 16));
        out.push(digit_char((c as u32) % 16));
    } else {
        out.push(c);
    }
    proof {
        assert(out@ =~= old(out)@ + spec_escape_char(c));
    }
}

/// Appends the escaped body (without the surrounding quotes) of `s`.
#[verifier::loop_isolation(false)]
pub fn push_escaped(out: &mut Vec<char>, s: &String)
    ensures
        final(out)@ == old(out)@ + spec_escape(s@),
{
    let n = s.as_str().unicode_len();
    let mut i: usize = 0;
    while i < n
        invariant
            i <= n,
            out@ == old(out)@ + spec_escape(s@.take(i as int)),
        decreases n - i,
    {
        let c = s.as_str().get_char(i);
        push_escaped_char(out, c);
        proof {
            assert(s@.take(i + 1).drop_last() =~= s@.take(i as int));
            assert(s@.take(i + 1) =~= s@.take(i as int).push(s@[i as int]));
            lemma_escape_push(s@.take(i as int), s@[i as int]);
        }
        i = i + 1;
    }
    proof {
        assert(s@.take(n as int) =~= s@);
    }
}

/// The JSON text of a value. `Float` carries its original number text,
/// which is emitted unchanged.
pub open spec fn spec_json(v: SpecValue) -> Seq<char>
    decreases v,
{
    match v {
        SpecValue::Null => seq!['n', 'u', 'l', 'l'],
        SpecValue::Bool(b) => if b {
            seq!['t', 'r', 'u', 'e']
        } else {
            seq!['f', 'a', 'l', 's', 'e']
        },
        SpecValue::Int(i) => spec_idec(i),
        SpecValue::Float(s) => s,
        SpecValue::Str(s) => seq!['"'] + spec_escape(s) + seq!['"'],
        SpecValue::Arr(elems) => seq!['['] + spec_json_items(elems) + seq![']'],
        SpecValue::Obj(fields) => seq!['{'] + spec_json_entries(fields) + seq!['}'],
    }
}

pub open spec fn spec_json_items(s: Seq<SpecValue>) -> Seq<char>
    decreases s,
{
    if s.len() == 0 {
        Seq::empty()
    } else if s.len() == 1 {
        spec_json(s[0])
    } else {
        spec_json_items(s.drop_last()) + seq![','] + spec_json(s.last())
    }
}

pub open spec fn spec_json_entry(e: (Seq<char>, SpecValue)) -> Seq<char>
    decreases e,
{
    seq!['"'] + spec_escape(e.0) + seq!['"', ':'] + spec_json(e.1)
}

pub open spec fn spec_json_entries(s: Seq<(Seq<char>, SpecValue)>) -> Seq<char>
    decreases s,
{
    if s.len() == 0 {
        Seq::empty()
    } else if s.len() == 1 {
        spec_json_entry(s[0])
    } else {
        spec_json_entries(s.drop_last()) + seq![','] + spec_json_entry(s.last())
    }
}

/// Appends the number text of a `Float` leaf: its characters unchanged.
#[verifier::loop_isolation(false)]
fn push_raw(out: &mut Vec<char>, s: &String)
    ensures
        final(out)@ == old(out)@ + s@,
{
    let n = s.as_str().unicode_len();
    let mut i: usize = 0;
    while i < n
        invariant
            i <= n,
            out@ == old(out)@ + s@.take(i as int),
        decreases n - i,
    {
        let c = s.as_str().get_char(i);
        out.push(c);
        proof {
            assert(out@ =~= old(out)@ + s@.take(i + 1));
        }
        i = i + 1;
    }
    proof {
        assert(s@.take(n as int) =~= s@);
    }
}

/// Appends the JSON text of `v` to `out`.
#[verifier::loop_isolation(false)]
#[verifier::rlimit(60)]
pub fn write_json(v: &Value, out: &mut Vec<char>)
    ensures
        final(out)@ == old(out)@ + spec_json(vview(*v)),
    decreases v,
{
    match v {
        Value::Null => {
            out.push('n');
            out.push('u');
            out.push('l');
            out.push('l');
            proof {
                assert(out@ =~= old(out)@ + spec_json(vview(*v)));
            }
        },
        Value::Bool(b) => {
            if *b {
                out.push('t');
                out.push('r');
                out.push('u');
                out.push('e');
            } else {
                out.push('f');
                out.push('a');
                out.push('l');
                out.push('s');
                out.push('e');
            }
            proof {
                assert(out@ =~= old(out)@ + spec_json(vview(*v)));
            }
        },
        Value::Int(i) => {
            push_idec(out, *i);
        },
        Value::Float(s) => {
            push_raw(out, s);
        },
        Value::Str(s) => {
            out.push('"');
            push_escaped(out, s);
            out.push('"');
            proof {
                assert(out@ =~= old(out)@ + spec_json(vview(*v)));
            }
        },
        Value::Arr(elems) => {
            proof {
                lemma_vview_seq(elems@);
            }
            out.push('[');
            let ghost items = vview_seq(elems@);
            let mut i: usize = 0;
            while i < elems.len()
                invariant
                    i <= elems.len(),
                    out@ == old(out)@ + seq!['['] + spec_json_items(items.take(i as int)),
                decreases elems.len() - i,
            {
                if i > 0 {
                    out.push(',');
                }
                proof {
                    let vv = *v;
                    assert(decreases_to!(vv => vv->Arr_0));
                    assert(decreases_to!(vv->Arr_0 => vv->Arr_0@));
                    assert(decreases_to!(vv->Arr_0@ => vv->Arr_0@[i as int]));
                }
                write_json(&elems[i], out);
                proof {
                    assert(items.take(i + 1).drop_last() =~= items.take(i as int));
                    assert(out@ =~= old(out)@ + seq!['['] + spec_json_items(items.take(i + 1)));
                }
                i = i + 1;
            }
            out.push(']');
            proof {
                assert(items.take(elems@.len() as int) =~= items);
                assert(out@ =~= old(out)@ + spec_json(vview(*v)));
            }
        },
        Value::Obj(fields) => {
            proof {
                lemma_vview_fields(fields@);
            }
            out.push('{');
            let ghost entries = vview_fields(fields@);
            let mut i: usize = 0;
            while i < fields.len()
                invariant
                    i <= fields.len(),
                    out@ == old(out)@ + seq!['{'] + spec_json_entries(entries.take(i as int)),
                decreases fields.len() - i,
            {
                if i > 0 {
                    out.push(',');
                }
                out.push('"');
                push_escaped(out, &fields[i].0);
                out.push('"');
                out.push(':');
                proof {
                    let vv = *v;
                    assert(decreases_to!(vv => vv->Obj_0));
                    assert(decreases_to!(vv->Obj_0 => vv->Obj_0@));
                    assert(decreases_to!(vv->Obj_0@ => vv->Obj_0@[i as int]));
                    assert(decreases_to!(vv->Obj_0@[i as int] => vv->Obj_0@[i as int].1));
                }
                write_json(&fields[i].1, out);
                proof {
                    assert(entries.take(i + 1).drop_last() =~= entries.take(i as int));
                    assert(entries.take(i + 1).last() == entries[i as int]);
                    assert(entries[i as int].0 == fields@[i as int].0@);
                    assert(entries[i as int].1 == vview(fields@[i as int].1));
                    assert(spec_json_entry(entries[i as int]) == seq!['"'] + spec_escape(
                        fields@[i as int].0@,
                    ) + seq!['"', ':'] + spec_json(vview(fields@[i as int].1)));
                    assert(out@ =~= old(out)@ + seq!['{'] + spec_json_entries(entries.take(i + 1)));
                }
                i = i + 1;
            }
            out.push('}');
            proof {
                assert(entries.take(fields@.len() as int) =~= entries);
                assert(out@ =~= old(out)@ + spec_json(vview(*v)));
            }
        },
    }
}

/// Relies on `core::iter::Iterator::collect` building a `String` from
/// chars: the collected string holds exactly the iterated characters,
/// in order.
#[verifier::external_body]
pub fn string_of(chars: &Vec<char>) -> (r: String)
    ensures
        r@ == chars@,
{
    chars.iter().collect()
}

/// The JSON text of a record, as a `String`.
pub fn to_json_string(v: &Value) -> (r: String)
    ensures
        r@ == spec_json(vview(*v)),
{
    let mut out: Vec<char> = Vec::new();
    write_json(v, &mut out);
    string_of(&out)
}

} // verus!
