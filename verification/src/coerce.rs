//! Coercion of structured values to their environment-variable string form.
//!
//! A string value yields its literal content, unquoted. Every other kind
//! keeps structured-text syntax: numbers their canonical decimal text,
//! booleans `true`/`false`, null the text `null`, and arrays and objects
//! their canonical compact serialization, with the usual string escapes.

use vstd::prelude::*;
use crate::value::{
    JsonData, JsonValue, views_of_list, pair_views_of_list, view_of, lemma_views_of_list,
    lemma_pair_views_of_list,
};

verus! {

/// The hexadecimal digit character for `d`, lower case.
pub open spec fn hex_digit(d: int) -> char {
    if d == 0 { '0' } else if d == 1 { '1' } else if d == 2 { '2' } else if d == 3 { '3' }
    else if d == 4 { '4' } else if d == 5 { '5' } else if d == 6 { '6' } else if d == 7 { '7' }
    else if d == 8 { '8' } else if d == 9 { '9' } else if d == 10 { 'a' } else if d == 11 { 'b' }
    else if d == 12 { 'c' } else if d == 13 { 'd' } else if d == 14 { 'e' } else { 'f' }
}

/// How one character appears inside a serialized string literal:
/// quote and backslash get a backslash escape, the named control
/// characters their short escapes, any other control character a
/// `\u00XX` escape, and everything else stands as itself.
pub open spec fn esc_char(c: char) -> Seq<char> {
    if c == '"' { seq!['\\', '"'] }
    else if c == '\\' { seq!['\\', '\\'] }
    else if c == '\u{8}' { seq!['\\', 'b'] }
    else if c == '\t' { seq!['\\', 't'] }
    else if c == '\n' { seq!['\\', 'n'] }
    else if c == '\u{c}' { seq!['\\', 'f'] }
    else if c == '\r' { seq!['\\', 'r'] }
    else if (c as u32) < 0x20 {
        seq!['\\', 'u', '0', '0', hex_digit(c as int / 16), hex_digit(c as int % 16)]
    } else {
        seq![c]
    }
}

/// The body of a serialized string literal: every character escaped.
pub open spec fn escaped(s: Seq<char>) -> Seq<char>
    decreases s.len(),
{
    if s.len() == 0 {
        Seq::empty()
    } else {
        escaped(s.drop_last()) + esc_char(s.last())
    }
}

/// A serialized string literal: the escaped body between double quotes.
pub open spec fn quoted(s: Seq<char>) -> Seq<char> {
    seq!['"'] + escaped(s) + seq!['"']
}

/// The canonical compact serialization of a structured value.
pub open spec fn json_text(d: JsonData) -> Seq<char>
    decreases d,
{
    match d {
        JsonData::Null => seq!['n', 'u', 'l', 'l'],
        JsonData::Bool(b) => if b {
            seq!['t', 'r', 'u', 'e']
        } else {
            seq!['f', 'a', 'l', 's', 'e']
        },
        JsonData::Num(t) => t,
        JsonData::Str(s) => quoted(s),
        JsonData::Arr(items) => seq!['['] + arr_items_text(items) + seq![']'],
        JsonData::Obj(pairs) => seq!['{'] + obj_pairs_text(pairs) + seq!['}'],
    }
}

/// The comma-separated serializations of the items of an array.
pub open spec fn arr_items_text(items: Seq<JsonData>) -> Seq<char>
    decreases items,
{
    if items.len() == 0 {
        Seq::empty()
    } else if items.len() == 1 {
        json_text(items[0])
    } else {
        arr_items_text(items.drop_last()) + seq![','] + json_text(items.last())
    }
}

/// The comma-separated `"key":value` serializations of the members of an object.
pub open spec fn obj_pairs_text(pairs: Seq<(Seq<char>, JsonData)>) -> Seq<char>
    decreases pairs,
{
    if pairs.len() == 0 {
        Seq::empty()
    } else if pairs.len() == 1 {
        quoted(pairs[0].0) + seq![':'] + json_text(pairs[0].1)
    } else {
        obj_pairs_text(pairs.drop_last()) + seq![','] + quoted(pairs.last().0) + seq![':']
            + json_text(pairs.last().1)
    }
}

/// The environment-variable string form of a structured value: a string
/// yields its content unquoted; every other kind its canonical
/// structured-text serialization.
pub open spec fn coerced(d: JsonData) -> Seq<char> {
    match d {
        JsonData::Str(s) => s,
        _ => json_text(d),
    }
}

/// The hexadecimal digit character for `d`, lower case.
pub fn hex_digit_char(d: u32) -> (r: char)
    requires
        d < 16,
    ensures
        r == hex_digit(d as int),
{
    match d {
        0 => '0',
        1 => '1',
        2 => '2',
        3 => '3',
        4 => '4',
        5 => '5',
        6 => '6',
        7 => '7',
        8 => '8',
        9 => '9',
        10 => 'a',
        11 => 'b',
        12 => 'c',
        13 => 'd',
        14 => 'e',
        _ => 'f',
    }
}

/// Appends the escaped form of `c` to `out`.
fn push_escaped_char(out: &mut String, c: char)
    ensures
        final(out)@ == old(out)@ + esc_char(c),
{
    if c == '"' {
        out.push('\\');
        out.push('"');
    } else if c == '\\' {
        out.push('\\');
        out.push('\\');
    } else if c == '\u{8}' {
        out.push('\\');
        out.push('b');
    } else if c == '\t' {
        out.push('\\');
        out.push('t');
    } else if c == '\n' {
        out.push('\\');
        out.push('n');
    } else if c == '\u{c}' {
        out.push('\\');
        out.push('f');
    } else if c == '\r' {
        out.push('\\');
        out.push('r');
    } else if (c as u32) < 0x20 {
        out.push('\\');
        out.push('u');
        out.push('0');
        out.push('0');
        out.push(hex_digit_char((c as u32) / 16));
        out.push(hex_digit_char((c as u32) % 16));
    } else {
        out.push(c);
    }
}

/// Appends the serialized string literal for `s` to `out`.
fn push_quoted(out: &mut String, s: &str)
    ensures
        final(out)@ == old(out)@ + quoted(s@),
{
    let ghost start = out@;
    out.push('"');
    let n = s.unicode_len();
    let mut i: usize = 0;
    while i < n
        invariant
            n == s@.len(),
            i <= n,
            out@ == start + seq!['"'] + escaped(s@.take(i as int)),
        decreases n - i,
    {
        let c = s.get_char(i);
        push_escaped_char(out, c);
        proof {
            assert(s@.take(i + 1).drop_last() =~= s@.take(i as int));
            assert(s@.take(i + 1).last() == s@[i as int]);
        }
        i = i + 1;
    }
    out.push('"');
    proof {
        assert(s@.take(n as int) =~= s@);
        assert(out@ =~= start + quoted(s@));
    }
}

proof fn lemma_arr_items_text_step(items: Seq<JsonData>, i: int)
    requires
        0 <= i < items.len(),
    ensures
        arr_items_text(items.take(i + 1)) == if i == 0 {
            json_text(items[0])
        } else {
            arr_items_text(items.take(i)) + seq![','] + json_text(items[i])
        },
{
    assert(items.take(i + 1).drop_last() =~= items.take(i));
    assert(items.take(i + 1).last() == items[i]);
    if i == 0 {
        assert(items.take(1)[0] == items[0]);
    }
}

proof fn lemma_obj_pairs_text_step(pairs: Seq<(Seq<char>, JsonData)>, i: int)
    requires
        0 <= i < pairs.len(),
    ensures
        obj_pairs_text(pairs.take(i + 1)) == if i == 0 {
            quoted(pairs[0].0) + seq![':'] + json_text(pairs[0].1)
        } else {
            obj_pairs_text(pairs.take(i)) + seq![','] + quoted(pairs[i].0) + seq![':'] + json_text(
                pairs[i].1,
            )
        },
{
    assert(pairs.take(i + 1).drop_last() =~= pairs.take(i));
    assert(pairs.take(i + 1).last() == pairs[i]);
    if i == 0 {
        assert(pairs.take(1)[0] == pairs[0]);
    }
}

/// The canonical compact serialization of a structured value, as text.
pub fn to_json_text(v: &JsonValue) -> (r: String)
    ensures
        r@ == json_text(v@),
    decreases v,
{
    match v {
        JsonValue::Null => {
            let out = String::from_str("null");
            proof {
                reveal_strlit("null");
                assert(out@ =~= seq!['n', 'u', 'l', 'l']);
            }
            out
        },
        JsonValue::Bool(b) => {
            if *b {
                let out = String::from_str("true");
                proof {
                    reveal_strlit("true");
                    assert(out@ =~= seq!['t', 'r', 'u', 'e']);
                }
                out
            } else {
                let out = String::from_str("false");
                proof {
                    reveal_strlit("false");
                    assert(out@ =~= seq!['f', 'a', 'l', 's', 'e']);
                }
                out
            }
        },
        JsonValue::Num(t) => t.clone(),
        JsonValue::Str(s) => {
            let mut out = String::new();
            push_quoted(&mut out, s.as_str());
            proof {
                assert(out@ =~= quoted(s@));
            }
            out
        },
        JsonValue::Arr(items) => {
            let ghost vs = views_of_list(items@);
            proof {
                lemma_views_of_list(items@);
            }
            let mut out = String::new();
            out.push('[');
            let mut i: usize = 0;
            while i < items.len()
                invariant
                    *v == JsonValue::Arr(*items),
                    i <= items@.len(),
                    vs == views_of_list(items@),
                    vs.len() == items@.len(),
                    forall|j: int| 0 <= j < items@.len() ==> #[trigger] vs[j] == view_of(items@[j]),
                    out@ == seq!['['] + arr_items_text(vs.take(i as int)),
                decreases items@.len() - i,
            {
                if i > 0 {
                    out.push(',');
                }
                proof {
                    assert(decreases_to!(*v => v->Arr_0));
                    assert(decreases_to!(v->Arr_0 => v->Arr_0[i as int]));
                    assert(v->Arr_0[i as int] == items@[i as int]);
                }
                let piece = to_json_text(&items[i]);
                out.append(piece.as_str());
                proof {
                    lemma_arr_items_text_step(vs, i as int);
                    assert(out@ =~= seq!['['] + arr_items_text(vs.take(i + 1)));
                }
                i = i + 1;
            }
            out.push(']');
            proof {
                assert(vs.take(items@.len() as int) =~= vs);
                assert(out@ =~= seq!['['] + arr_items_text(vs) + seq![']']);
            }
            out
        },
        JsonValue::Obj(pairs) => {
            let ghost vs = pair_views_of_list(pairs@);
            proof {
                lemma_pair_views_of_list(pairs@);
            }
            let mut out = String::new();
            out.push('{');
            let mut i: usize = 0;
            while i < pairs.len()
                invariant
                    *v == JsonValue::Obj(*pairs),
                    i <= pairs@.len(),
                    vs == pair_views_of_list(pairs@),
                    vs.len() == pairs@.len(),
                    forall|j: int|
                        0 <= j < pairs@.len() ==> #[trigger] vs[j] == (
                        pairs@[j].0@,
                        view_of(pairs@[j].1),
                        ),
                    out@ == seq!['{'] + obj_pairs_text(vs.take(i as int)),
                decreases pairs@.len() - i,
            {
                if i > 0 {
                    out.push(',');
                }
                push_quoted(&mut out, pairs[i].0.as_str());
                out.push(':');
                proof {
                    assert(decreases_to!(*v => v->Obj_0));
                    assert(decreases_to!(v->Obj_0 => v->Obj_0[i as int]));
                    assert(decreases_to!(v->Obj_0[i as int] => v->Obj_0[i as int].1));
                    assert(v->Obj_0[i as int].1 == pairs@[i as int].1);
                }
                let piece = to_json_text(&pairs[i].1);
                out.append(piece.as_str());
                proof {
                    lemma_obj_pairs_text_step(vs, i as int);
                    assert(out@ =~= seq!['{'] + obj_pairs_text(vs.take(i + 1)));
                }
                i = i + 1;
            }
            out.push('}');
            proof {
                assert(vs.take(pairs@.len() as int) =~= vs);
                assert(out@ =~= seq!['{'] + obj_pairs_text(vs) + seq!['}']);
            }
            out
        },
    }
}

/// The environment-variable string form of `v`: a string value gives its
/// content unquoted; every other kind its canonical serialization.
pub fn coerce(v: &JsonValue) -> (r: String)
    ensures
        r@ == coerced(v@),
{
    match v {
        JsonValue::Str(s) => s.clone(),
        _ => to_json_text(v),
    }
}

/// A string value coerces to its own content, verbatim; number, boolean
/// and null values coerce to their canonical text forms.
pub proof fn lemma_coerce_scalars(s: Seq<char>, t: Seq<char>)
    ensures
        coerced(JsonData::Str(s)) == s,
        coerced(JsonData::Num(t)) == t,
        coerced(JsonData::Bool(true)) == seq!['t', 'r', 'u', 'e'],
        coerced(JsonData::Bool(false)) == seq!['f', 'a', 'l', 's', 'e'],
        coerced(JsonData::Null) == seq!['n', 'u', 'l', 'l'],
{
}

} // verus!

